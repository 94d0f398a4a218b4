//! The state behind the windows: what is captured, which meters are on, and what an action
//! asks for.

use crate::apps::AppEntry;
use crate::audio::{default_source, DeviceEntry, SourceKind};
use crate::meter::METERS;
use crate::text::{decimal_text, joined};
use vstd::prelude::*;

verus! {

/// What the capture is pointed at.
#[derive(Clone, Copy, PartialEq, Eq, Structural, Debug)]
pub enum Source {
    /// The device number so-and-so.
    Device(usize),
    /// What one process plays, by its identifier.
    App(u32),
}

/// Something that a menu asks for.
#[derive(Clone, Copy, PartialEq, Eq, Structural, Debug)]
pub enum Action {
    SetDevice(usize),
    SetApp(u32),
    ResetLufs,
    ToggleCompensate,
    /// Switch the meter at this place on or off.
    Toggle(usize),
    Quit,
}

/// What is to be done outside for an action.
#[derive(Clone, Copy, PartialEq, Eq, Structural, Debug)]
pub enum Effect {
    /// Start capturing the source.
    Start,
    /// Reset the integrated loudness and the held peaks.
    ResetLufs,
    /// Close the program.
    Quit,
}

/// What to capture.
pub enum Request {
    /// The device number so-and-so.
    Device(usize),
    /// What one process plays.
    App { pid: u32, name: String },
    /// Nothing, for this reason.
    Refused(String),
}

/// What the engine is to do once a capture has started, or has failed to.
#[derive(Clone, Copy, PartialEq, Eq, Structural, Debug)]
pub enum Follow {
    /// Take in the capture with this sample rate; divide the gain of the endpoint back out
    /// or not.
    Attach { sample_rate: u32, compensate: bool },
    /// Take in nothing.
    Detach,
}

/// The state of the program; `D` is the handle of a device.
pub struct MetersApp<D> {
    pub devices: Vec<DeviceEntry<D>>,
    pub source: Source,
    /// Sample rate and channels of the running capture.
    pub running: Option<(u32, u16)>,
    pub error: Option<String>,
    /// Which meters are on, by their places.
    pub enabled: [bool; METERS],
    /// Divide the gain of the endpoint back out of loopback levels.
    pub compensate: bool,
}

/// The source that an action picks.
pub open spec fn picked(a: Action) -> Option<Source> {
    match a {
        Action::SetDevice(i) => Some(Source::Device(i)),
        Action::SetApp(pid) => Some(Source::App(pid)),
        _ => None,
    }
}

/// What is to be done outside for an action while `source` is captured.
pub open spec fn effect_of(a: Action, source: Source) -> Option<Effect> {
    match a {
        Action::SetDevice(_) | Action::SetApp(_) => if picked(a) == Some(source) {
            None
        } else {
            Some(Effect::Start)
        },
        Action::ResetLufs => Some(Effect::ResetLufs),
        Action::ToggleCompensate => Some(Effect::Start),
        Action::Toggle(_) => None,
        Action::Quit => Some(Effect::Quit),
    }
}

/// `b` is the state `a` after an action.
pub open spec fn is_applied<D>(a: MetersApp<D>, action: Action, b: MetersApp<D>) -> bool {
    &&& b.source == (match picked(action) {
        Some(source) => source,
        None => a.source,
    })
    &&& b.compensate == (if action == Action::ToggleCompensate {
        !a.compensate
    } else {
        a.compensate
    })
    &&& b.enabled@ == (match action {
        Action::Toggle(i) => a.enabled@.update(i as int, !a.enabled[i as int]),
        _ => a.enabled@,
    })
    &&& b.devices == a.devices
    &&& b.running == a.running
    &&& b.error == a.error
}

/// The name of the first application with the identifier `pid`, if there is one.
pub open spec fn name_of(apps: Seq<AppEntry>, pid: u32) -> Seq<char>
    decreases apps.len(),
{
    if apps.len() == 0 {
        "pid "@ + crate::text::decimal(pid as nat)
    } else if apps[0].pid == pid {
        apps[0].name@
    } else {
        name_of(apps.skip(1), pid)
    }
}

/// The name of an application, or its identifier when it is not listed.
pub fn app_name(apps: &Vec<AppEntry>, pid: u32) -> (name: String)
    ensures
        name@ == name_of(apps@, pid),
{
    let mut i: usize = 0;
    assert(apps@.skip(0) =~= apps@);
    while i < apps.len()
        invariant
            i <= apps@.len(),
            name_of(apps@, pid) == name_of(apps@.skip(i as int), pid),
        decreases apps@.len() - i,
    {
        if apps[i].pid == pid {
            return apps[i].name.clone();
        }
        assert(apps@.skip(i as int).skip(1) =~= apps@.skip(i + 1));
        i += 1;
    }
    joined("pid ", decimal_text(pid as u64).as_str())
}

impl<D> MetersApp<D> {
    /// The source is an output device that is captured by loopback. Only that carries the
    /// gain of the endpoint: an input does not, and a process is captured ahead of it.
    pub open spec fn loopback(self) -> bool {
        self.source matches Source::Device(i) && i < self.devices@.len()
            && self.devices@[i as int].kind == SourceKind::Loopback
    }

    /// The state at the start: the default output device by loopback, every meter on. `names`
    /// are the names of the devices.
    pub fn new(
        devices: Vec<DeviceEntry<D>>,
        names: &Vec<String>,
        default_name: &String,
    ) -> (app: Self)
        requires
            names@.len() == devices@.len(),
        ensures
            app.devices == devices,
            app.source matches Source::Device(selected) && crate::audio::is_selected(
                devices@,
                names@,
                default_name@,
                selected as int,
            ),
            app.running is None,
            app.error is None,
            forall|i: int| 0 <= i < METERS ==> #[trigger] app.enabled[i],
            app.compensate,
    {
        let selected = default_source(&devices, names, default_name);
        MetersApp {
            devices,
            source: Source::Device(selected),
            running: None,
            error: None,
            enabled: [true, true, true, true],
            compensate: true,
        }
    }

    /// Carries out an action as far as the state goes, and says what is to be done outside.
    pub fn apply(&mut self, action: Action) -> (effect: Option<Effect>)
        requires
            action matches Action::Toggle(i) ==> i < METERS,
        ensures
            is_applied(*old(self), action, *final(self)),
            effect == effect_of(action, old(self).source),
    {
        match action {
            Action::SetDevice(i) => {
                if self.source == Source::Device(i) {
                    return None;
                }
                self.source = Source::Device(i);
                Some(Effect::Start)
            },
            Action::SetApp(pid) => {
                if self.source == Source::App(pid) {
                    return None;
                }
                self.source = Source::App(pid);
                Some(Effect::Start)
            },
            Action::ToggleCompensate => {
                self.compensate = !self.compensate;
                Some(Effect::Start)
            },
            Action::ResetLufs => Some(Effect::ResetLufs),
            Action::Toggle(i) => {
                let on = self.enabled[i];
                self.enabled[i] = !on;
                None
            },
            Action::Quit => Some(Effect::Quit),
        }
    }

    /// What to capture now, given the applications that are listed. A fault shown so far is
    /// forgotten.
    pub fn start_selected(&mut self, apps: &Vec<AppEntry>) -> (request: Request)
        ensures
            match old(self).source {
                Source::Device(i) => if i < old(self).devices@.len() {
                    request == Request::Device(i)
                } else {
                    request matches Request::Refused(text) && text@ == "Устройства не найдены"@
                },
                Source::App(pid) => request matches Request::App { pid: p, name } && p == pid
                    && name@ == name_of(apps@, pid),
            },
            *final(self) == (MetersApp { error: None, ..*old(self) }),
    {
        self.error = None;
        match self.source {
            Source::Device(i) => if i < self.devices.len() {
                Request::Device(i)
            } else {
                Request::Refused("Устройства не найдены".to_owned())
            },
            Source::App(pid) => Request::App { pid, name: app_name(apps, pid) },
        }
    }

    /// Takes note of how a start came out: the sample rate and the channels, or the reason
    /// why there is no capture.
    pub fn started(&mut self, outcome: Result<(u32, u16), String>) -> (follow: Follow)
        ensures
            match outcome {
                Ok(running) => {
                    &&& follow == Follow::Attach {
                        sample_rate: running.0,
                        compensate: old(self).compensate && old(self).loopback(),
                    }
                    &&& *final(self) == (MetersApp { running: Some(running), ..*old(self) })
                },
                Err(e) => {
                    &&& follow == Follow::Detach
                    &&& *final(self) == (MetersApp { running: None, error: Some(e), ..*old(self) })
                },
            },
    {
        match outcome {
            Ok(running) => {
                let loopback = match self.source {
                    Source::Device(i) => i < self.devices.len() && self.devices[i].kind
                        == SourceKind::Loopback,
                    Source::App(_) => false,
                };
                self.running = Some(running);
                Follow::Attach { sample_rate: running.0, compensate: self.compensate && loopback }
            },
            Err(e) => {
                self.running = None;
                self.error = Some(e);
                Follow::Detach
            },
        }
    }

    /// Takes note of a fault that a running capture has reported.
    pub fn poll_stream_error(&mut self, fault: Option<String>)
        ensures
            fault is None ==> *final(self) == *old(self),
            fault matches Some(msg) ==> {
                &&& final(self).error matches Some(text) && text@ == "поток: "@ + msg@
                &&& *final(self) == (MetersApp { error: final(self).error, ..*old(self) })
            },
    {
        if let Some(msg) = fault {
            self.error = Some(joined("поток: ", msg.as_str()));
        }
    }
}

/// Switching a meter twice, or the compensation twice, leaves the state as it was.
pub proof fn toggling_twice_restores<D>(
    a: MetersApp<D>,
    action: Action,
    b: MetersApp<D>,
    c: MetersApp<D>,
)
    requires
        action == Action::ToggleCompensate || (action matches Action::Toggle(i) && i < METERS),
        is_applied(a, action, b),
        is_applied(b, action, c),
    ensures
        c == a,
{
    assert(c.enabled@ =~= a.enabled@);
    assert(c.enabled =~= a.enabled);
}

/// Picking the source that is captured already changes nothing and starts nothing.
pub proof fn picking_the_same_source_changes_nothing<D>(
    a: MetersApp<D>,
    action: Action,
    b: MetersApp<D>,
)
    requires
        picked(action) == Some(a.source),
        is_applied(a, action, b),
    ensures
        b == a,
        effect_of(action, a.source) is None,
{
    assert(b.enabled =~= a.enabled);
}

} // verus!
