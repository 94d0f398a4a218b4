//! The menu: with no decorations and no main window, it is the whole interface.

use crate::apps::AppEntry;
use crate::audio::capture_status;
use crate::level::{Level, ZERO};
use crate::meter::{Meter, METERS};
use crate::meters_app::{Action, MetersApp, Source};
use crate::text::{decimal_text, joined};
use vstd::prelude::*;

verus! {

/// What the menu shows.
pub struct MenuData {
    /// Labels of the devices.
    pub devices: Vec<String>,
    /// Identifiers and names of the applications.
    pub apps: Vec<(u32, String)>,
    pub source: Source,
    pub enabled: [bool; METERS],
    pub status: String,
    pub error: Option<String>,
    pub compensate: bool,
    /// Gain that the endpoint applies.
    pub gain: Option<Level>,
}

/// One line of the menu that can be clicked.
pub struct Choice {
    pub label: String,
    /// Text that is shown when the pointer rests on the line.
    pub hint: Option<String>,
    /// The line is marked.
    pub selected: bool,
    pub action: Action,
}

/// The menu, from top to bottom.
pub struct Menu {
    pub status: String,
    pub warning: Option<String>,
    pub devices: Vec<Choice>,
    /// Shown in place of the applications when there are none.
    pub no_apps: Option<String>,
    pub apps: Vec<Choice>,
    pub meters: Vec<Choice>,
    pub compensate: Choice,
    pub reset: Choice,
    pub quit: Choice,
}

impl<D> MetersApp<D> {
    /// What the menu shows, given the applications that are listed and the gain that the
    /// endpoint applies.
    pub fn menu_data(&self, apps: &Vec<AppEntry>, gain: Option<Level>) -> (data: MenuData)
        ensures
            data.devices@.len() == self.devices@.len(),
            forall|i: int|
                0 <= i < self.devices@.len() ==> (#[trigger] data.devices@[i])@
                    == self.devices@[i].label@,
            data.apps@.len() == apps@.len(),
            forall|i: int|
                0 <= i < apps@.len() ==> (#[trigger] data.apps@[i]).0 == apps@[i].pid
                    && data.apps@[i].1@ == apps@[i].name@,
            data.source == self.source,
            data.enabled == self.enabled,
            data.status@ == (match self.running {
                Some(c) => crate::audio::status_of(c.0, c.1),
                None => "нет захвата"@,
            }),
            data.error is Some <==> self.error is Some,
            data.error matches Some(e) ==> e@ == self.error->0@,
            data.compensate == self.compensate,
            data.gain == gain,
    {
        let mut devices: Vec<String> = Vec::new();
        let mut i: usize = 0;
        while i < self.devices.len()
            invariant
                i <= self.devices@.len(),
                devices@.len() == i,
                forall|j: int|
                    0 <= j < i ==> (#[trigger] devices@[j])@ == self.devices@[j].label@,
            decreases self.devices@.len() - i,
        {
            devices.push(self.devices[i].label.clone());
            i += 1;
        }
        let mut listed: Vec<(u32, String)> = Vec::new();
        let mut k: usize = 0;
        while k < apps.len()
            invariant
                k <= apps@.len(),
                listed@.len() == k,
                forall|j: int|
                    0 <= j < k ==> (#[trigger] listed@[j]).0 == apps@[j].pid && listed@[j].1@
                        == apps@[j].name@,
            decreases apps@.len() - k,
        {
            listed.push((apps[k].pid, apps[k].name.clone()));
            k += 1;
        }
        MenuData {
            devices,
            apps: listed,
            source: self.source,
            enabled: self.enabled,
            status: capture_status(self.running),
            error: match &self.error {
                Some(e) => Some(e.clone()),
                None => None,
            },
            compensate: self.compensate,
            gain,
        }
    }
}

/// `c` is the line for the device number `i`.
pub open spec fn is_device_choice(data: MenuData, i: int, c: Choice) -> bool {
    &&& c.label@ == data.devices@[i]@
    &&& c.hint is None
    &&& c.selected == (data.source == Source::Device(i as usize))
    &&& c.action == Action::SetDevice(i as usize)
}

/// `c` is the line for the application number `i`.
pub open spec fn is_app_choice(data: MenuData, i: int, c: Choice) -> bool {
    &&& c.label@ == data.apps@[i].1@
    &&& c.hint matches Some(text) && text@ == "pid "@ + crate::text::decimal(
        data.apps@[i].0 as nat,
    ) + " — вместе с дочерними процессами"@
    &&& c.selected == (data.source == Source::App(data.apps@[i].0))
    &&& c.action == Action::SetApp(data.apps@[i].0)
}

/// `c` is the line for the meter at the place `i`.
pub open spec fn is_meter_choice(data: MenuData, i: int, c: Choice) -> bool {
    &&& c.label@ == crate::meter::title_of(crate::meter::meter_at(i))
    &&& c.hint is None
    &&& c.selected == data.enabled[i]
    &&& c.action == Action::Toggle(i as usize)
}

/// The label of the compensation: with the gain in decibels, whose digits are given, while
/// the endpoint lets sound through, and without it when the gain is not known.
pub open spec fn compensate_label(gain: Option<Level>, digits: Seq<char>) -> Seq<char> {
    match gain {
        Some(g) => if g.exceeds(Level { bits: ZERO }) {
            "Не зависеть от громкости Windows ("@ + digits + " dB)"@
        } else {
            "Не зависеть от громкости Windows (звук выключен)"@
        },
        None => "Не зависеть от громкости Windows"@,
    }
}

/// `c` is the line for the compensation.
pub open spec fn is_compensate_choice(data: MenuData, digits: Seq<char>, c: Choice) -> bool {
    &&& c.label@ == compensate_label(data.gain, digits)
    &&& c.hint matches Some(text) && text@ == compensate_hint()
    &&& c.selected == data.compensate
    &&& c.action == Action::ToggleCompensate
}

/// What is said of the compensation.
pub open spec fn compensate_hint() -> Seq<char> {
    "Системный ползунок громкости попадает в loopback-запись.              С этой галкой его влияние вычитается, и метры показывают              уровень самого материала."@
}

/// `menu` shows `data`.
pub open spec fn is_menu(data: MenuData, digits: Seq<char>, menu: Menu) -> bool {
    &&& menu.status@ == data.status@
    &&& menu.warning is Some <==> data.error is Some
    &&& menu.warning matches Some(text) ==> text@ == "⚠ "@ + data.error->0@
    &&& menu.devices@.len() == data.devices@.len()
    &&& forall|i: int|
        0 <= i < data.devices@.len() ==> is_device_choice(data, i, #[trigger] menu.devices@[i])
    &&& menu.no_apps is Some <==> data.apps@.len() == 0
    &&& menu.no_apps matches Some(text) ==> text@ == "Нет приложений со звуком"@
    &&& menu.apps@.len() == data.apps@.len()
    &&& forall|i: int|
        0 <= i < data.apps@.len() ==> is_app_choice(data, i, #[trigger] menu.apps@[i])
    &&& menu.meters@.len() == METERS
    &&& forall|i: int|
        0 <= i < METERS ==> is_meter_choice(data, i, #[trigger] menu.meters@[i])
    &&& is_compensate_choice(data, digits, menu.compensate)
    &&& is_command(menu.reset, "Сброс LUFS-I"@, Action::ResetLufs)
    &&& is_command(menu.quit, "Выход"@, Action::Quit)
}

/// `c` is a plain command.
pub open spec fn is_command(c: Choice, label: Seq<char>, action: Action) -> bool {
    c.label@ == label && c.hint is None && !c.selected && c.action == action
}

fn device_choices(data: &MenuData) -> (choices: Vec<Choice>)
    ensures
        choices@.len() == data.devices@.len(),
        forall|i: int|
            0 <= i < data.devices@.len() ==> is_device_choice(*data, i, #[trigger] choices@[i]),
{
    let mut choices: Vec<Choice> = Vec::new();
    let mut i: usize = 0;
    while i < data.devices.len()
        invariant
            i <= data.devices@.len(),
            choices@.len() == i,
            forall|j: int| 0 <= j < i ==> is_device_choice(*data, j, #[trigger] choices@[j]),
        decreases data.devices@.len() - i,
    {
        choices.push(
            Choice {
                label: data.devices[i].clone(),
                hint: None,
                selected: data.source == Source::Device(i),
                action: Action::SetDevice(i),
            },
        );
        i += 1;
    }
    choices
}

fn app_choices(data: &MenuData) -> (choices: Vec<Choice>)
    ensures
        choices@.len() == data.apps@.len(),
        forall|i: int|
            0 <= i < data.apps@.len() ==> is_app_choice(*data, i, #[trigger] choices@[i]),
{
    let mut choices: Vec<Choice> = Vec::new();
    let mut i: usize = 0;
    while i < data.apps.len()
        invariant
            i <= data.apps@.len(),
            choices@.len() == i,
            forall|j: int| 0 <= j < i ==> is_app_choice(*data, j, #[trigger] choices@[j]),
        decreases data.apps@.len() - i,
    {
        let pid = data.apps[i].0;
        let front = joined("pid ", decimal_text(pid as u64).as_str());
        choices.push(
            Choice {
                label: data.apps[i].1.clone(),
                hint: Some(joined(front.as_str(), " — вместе с дочерними процессами")),
                selected: data.source == Source::App(pid),
                action: Action::SetApp(pid),
            },
        );
        i += 1;
    }
    choices
}

fn meter_choices(data: &MenuData) -> (choices: Vec<Choice>)
    ensures
        choices@.len() == METERS,
        forall|i: int| 0 <= i < METERS ==> is_meter_choice(*data, i, #[trigger] choices@[i]),
{
    let mut choices: Vec<Choice> = Vec::new();
    let mut i: usize = 0;
    while i < METERS
        invariant
            i <= METERS,
            choices@.len() == i,
            forall|j: int| 0 <= j < i ==> is_meter_choice(*data, j, #[trigger] choices@[j]),
        decreases METERS - i,
    {
        choices.push(
            Choice {
                label: Meter::at(i).title().to_owned(),
                hint: None,
                selected: data.enabled[i],
                action: Action::Toggle(i),
            },
        );
        i += 1;
    }
    choices
}

fn compensate_choice(data: &MenuData, digits: &str) -> (c: Choice)
    ensures
        is_compensate_choice(*data, digits@, c),
{
    let label = match data.gain {
        Some(g) => if g.above(Level { bits: ZERO }) {
            let front = joined("Не зависеть от громкости Windows (", digits);
            joined(front.as_str(), " dB)")
        } else {
            "Не зависеть от громкости Windows (звук выключен)".to_owned()
        },
        None => "Не зависеть от громкости Windows".to_owned(),
    };
    let hint = "Системный ползунок громкости попадает в loopback-запись.              С этой галкой его влияние вычитается, и метры показывают              уровень самого материала.".to_owned();
    Choice {
        label,
        hint: Some(hint),
        selected: data.compensate,
        action: Action::ToggleCompensate,
    }
}

/// The menu that shows `data`; `digits` are those of the gain of the endpoint in decibels.
pub fn menu_contents(data: &MenuData, digits: &str) -> (menu: Menu)
    ensures
        is_menu(*data, digits@, menu),
{
    let warning = match &data.error {
        Some(e) => Some(joined("⚠ ", e.as_str())),
        None => None,
    };
    let no_apps = if data.apps.len() == 0 {
        Some("Нет приложений со звуком".to_owned())
    } else {
        None
    };
    Menu {
        status: data.status.clone(),
        warning,
        devices: device_choices(data),
        no_apps,
        apps: app_choices(data),
        meters: meter_choices(data),
        compensate: compensate_choice(data, digits),
        reset: Choice {
            label: "Сброс LUFS-I".to_owned(),
            hint: None,
            selected: false,
            action: Action::ResetLufs,
        },
        quit: Choice {
            label: "Выход".to_owned(),
            hint: None,
            selected: false,
            action: Action::Quit,
        },
    }
}

/// A source is marked if and only if it is captured, so no two devices are marked, nor a
/// device together with an application, nor two applications that differ.
pub proof fn one_source_is_marked(data: MenuData, digits: Seq<char>, menu: Menu)
    requires
        is_menu(data, digits, menu),
    ensures
        forall|i: int|
            0 <= i < menu.devices@.len() ==> ((#[trigger] menu.devices@[i]).selected
                <==> crate::meters_app::picked(menu.devices@[i].action) == Some(data.source)),
        forall|i: int|
            0 <= i < menu.apps@.len() ==> ((#[trigger] menu.apps@[i]).selected
                <==> crate::meters_app::picked(menu.apps@[i].action) == Some(data.source)),
        forall|i: int, j: int|
            0 <= i < j < menu.devices@.len() ==> !((#[trigger] menu.devices@[i]).selected && (
            #[trigger] menu.devices@[j]).selected),
        forall|i: int, j: int|
            0 <= i < menu.devices@.len() && 0 <= j < menu.apps@.len() ==> !((
            #[trigger] menu.devices@[i]).selected && (#[trigger] menu.apps@[j]).selected),
        forall|i: int, j: int|
            0 <= i < menu.apps@.len() && 0 <= j < menu.apps@.len() && (
            #[trigger] menu.apps@[i]).selected && (#[trigger] menu.apps@[j]).selected
                ==> data.apps@[i].0 == data.apps@[j].0,
{
    assert(menu.devices@.len() <= usize::MAX) by {
        assert(menu.devices@.len() == menu.devices.len());
    }
}

} // verus!
