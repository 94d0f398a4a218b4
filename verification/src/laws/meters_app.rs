//! Laws of the state behind the windows, and of the menu.

use crate::apps::AppEntry;
use crate::audio::DeviceEntry;
use crate::laws::text::spells;
use crate::level::Level;
use crate::menu::{Menu, MenuData};
use crate::meters_app::{Action, Effect, Follow, MetersApp, Request, Source};
use vstd::prelude::*;

verus! {

/// Picking a source captures it, and starts a capture unless it was captured already.
pub proof fn picking_a_source_captures_it<D>(
    app: &mut MetersApp<D>,
    source: Source,
    action: Action,
    effect: Option<Effect>,
)
    requires
        call_ensures(MetersApp::<D>::apply, (app, action), effect),
        source matches Source::Device(i) ==> action == Action::SetDevice(i),
        source matches Source::App(pid) ==> action == Action::SetApp(pid),
    ensures
        final(app).source == source,
        source == old(app).source ==> effect is None,
        source != old(app).source ==> effect == Some(Effect::Start),
        final(app).compensate == old(app).compensate,
        final(app).enabled == old(app).enabled,
        final(app).devices == old(app).devices,
        final(app).running == old(app).running,
        final(app).error == old(app).error,
{
    assert(final(app).enabled =~= old(app).enabled);
}

/// Any action but that of picking keeps the source; a switch flips itself alone; what resets,
/// and what quits, changes nothing here and is done outside.
pub proof fn other_actions_keep_the_source<D>(
    app: &mut MetersApp<D>,
    action: Action,
    effect: Option<Effect>,
    k: int,
)
    requires
        call_ensures(MetersApp::<D>::apply, (app, action), effect),
        !(action is SetDevice),
        !(action is SetApp),
        action matches Action::Toggle(i) ==> i < 4,
        0 <= k < 4,
    ensures
        final(app).source == old(app).source,
        final(app).devices == old(app).devices,
        final(app).running == old(app).running,
        final(app).error == old(app).error,
        final(app).compensate != old(app).compensate <==> action is ToggleCompensate,
        final(app).enabled[k] != old(app).enabled[k] <==> action == Action::Toggle(k as usize),
        effect == (match action {
            Action::ResetLufs => Some(Effect::ResetLufs),
            Action::ToggleCompensate => Some(Effect::Start),
            Action::Quit => Some(Effect::Quit),
            _ => None,
        }),
{
    assert(final(app).enabled@[k] == final(app).enabled[k]);
    assert(old(app).enabled@[k] == old(app).enabled[k]);
}

/// Flipping a switch twice restores it.
pub proof fn flipping_twice_restores<D>(
    app: &mut MetersApp<D>,
    again: &mut MetersApp<D>,
    action: Action,
    effect: Option<Effect>,
    effect2: Option<Effect>,
)
    requires
        call_ensures(MetersApp::<D>::apply, (app, action), effect),
        call_ensures(MetersApp::<D>::apply, (again, action), effect2),
        *old(again) == *final(app),
        action is ToggleCompensate || (action matches Action::Toggle(i) && i < 4),
    ensures
        *final(again) == *old(app),
        effect2 == effect,
{
    crate::meters_app::toggling_twice_restores(*old(app), action, *final(app), *final(again));
}

/// The name of an application that is listed is the one in the list, the first of its
/// identifier; otherwise it is the identifier.
pub proof fn applications_go_by_their_listed_name(
    apps: &Vec<AppEntry>,
    pid: u32,
    name: String,
)
    requires
        call_ensures(crate::meters_app::app_name, (apps, pid), name),
    ensures
        forall|i: int|
            0 <= i < apps@.len() && (#[trigger] apps@[i]).pid == pid && (forall|k: int|
                0 <= k < i ==> (#[trigger] apps@[k]).pid != pid) ==> name@ == apps@[i].name@,
        (forall|k: int| 0 <= k < apps@.len() ==> (#[trigger] apps@[k]).pid != pid) ==> is_pid_name(
            name@,
            pid,
        ),
{
    if exists|i: int| 0 <= i < apps@.len() && (#[trigger] apps@[i]).pid == pid {
        let i = lemma_first(apps@, pid);
        assert forall|j: int|
            0 <= j < apps@.len() && (#[trigger] apps@[j]).pid == pid && (forall|k: int|
                0 <= k < j ==> (#[trigger] apps@[k]).pid != pid) implies name@
            == apps@[j].name@ by {
            if j < i {
                assert(apps@[j].pid != pid);
            } else if i < j {
                assert(apps@[i].pid != pid);
            }
        }
    } else {
        lemma_none(apps@, pid);
        crate::laws::text::lemma_decimal(pid as nat);
        reveal_strlit("pid ");
        let d = crate::text::decimal(pid as nat);
        assert(name@.skip(4) =~= d);
        assert(name@.take(4) =~= "pid "@);
    }
}

/// `name` is `pid ` and the digits of `pid`.
pub open spec fn is_pid_name(name: Seq<char>, pid: u32) -> bool {
    &&& name.len() > 4
    &&& name.take(4) == "pid "@
    &&& spells(name.skip(4), pid as int)
}

/// `text` gives the identifier `pid` and says that the children of the process are captured too.
pub open spec fn is_pid_hint(text: Seq<char>, pid: u32) -> bool {
    exists|digits: Seq<char>| #[trigger]
        spells(digits, pid as int) && text == "pid "@ + digits
            + " — вместе с дочерними процессами"@
}

/// The first application with the identifier.
proof fn lemma_first(apps: Seq<AppEntry>, pid: u32) -> (i: int)
    requires
        exists|i: int| 0 <= i < apps.len() && (#[trigger] apps[i]).pid == pid,
    ensures
        0 <= i < apps.len(),
        apps[i].pid == pid,
        forall|k: int| 0 <= k < i ==> (#[trigger] apps[k]).pid != pid,
        crate::meters_app::name_of(apps, pid) == apps[i].name@,
    decreases apps.len(),
{
    if apps[0].pid == pid {
        0
    } else {
        let rest = apps.skip(1);
        let j = choose|j: int| 0 <= j < apps.len() && (#[trigger] apps[j]).pid == pid;
        assert(rest[j - 1] == apps[j]);
        let i = lemma_first(rest, pid);
        assert forall|k: int| 0 <= k < i + 1 implies (#[trigger] apps[k]).pid != pid by {
            if k > 0 {
                assert(rest[k - 1] == apps[k]);
            }
        }
        i + 1
    }
}

/// Without the identifier there is no name but it.
proof fn lemma_none(apps: Seq<AppEntry>, pid: u32)
    requires
        forall|k: int| 0 <= k < apps.len() ==> (#[trigger] apps[k]).pid != pid,
    ensures
        crate::meters_app::name_of(apps, pid) == "pid "@ + crate::text::decimal(pid as nat),
    decreases apps.len(),
{
    if apps.len() > 0 {
        let rest = apps.skip(1);
        assert forall|k: int| 0 <= k < rest.len() implies (#[trigger] rest[k]).pid != pid by {
            assert(rest[k] == apps[k + 1]);
        }
        lemma_none(rest, pid);
    }
}

/// What is captured is the source that was picked: a device that is there, or a process, under
/// the name that it is listed with. What is not there is refused.
pub proof fn what_was_picked_is_captured<D>(
    app: &mut MetersApp<D>,
    apps: &Vec<AppEntry>,
    request: Request,
    k: int,
)
    requires
        call_ensures(MetersApp::<D>::start_selected, (app, apps), request),
    ensures
        old(app).source matches Source::Device(i) ==> (if i < old(app).devices@.len() {
            request == Request::Device(i)
        } else {
            request is Refused && request->Refused_0@ == "Устройства не найдены"@
        }),
        old(app).source matches Source::App(pid) ==> request is App && request->pid == pid && (0
            <= k < apps@.len() && apps@[k].pid == pid && (forall|j: int|
            0 <= j < k ==> (#[trigger] apps@[j]).pid != pid) ==> request->name@ == apps@[k].name@),
        final(app).error is None,
        final(app).source == old(app).source,
        final(app).running == old(app).running,
{
    if let Source::App(pid) = old(app).source {
        if 0 <= k < apps@.len() && apps@[k].pid == pid {
            let i = lemma_first(apps@, pid);
            if forall|j: int| 0 <= j < k ==> (#[trigger] apps@[j]).pid != pid {
                if i < k {
                    assert(apps@[i].pid != pid);
                } else if k < i {
                    assert(apps@[k].pid != pid);
                }
            }
        }
    }
}

/// A gain is undone only where it has been applied: for an output device that is captured by
/// loopback, and only if compensation is on. A start that fails leaves nothing running and its
/// reason to be shown.
pub proof fn only_loopback_is_compensated<D>(
    app: &mut MetersApp<D>,
    outcome: Result<(u32, u16), String>,
    follow: Follow,
)
    requires
        call_ensures(MetersApp::<D>::started, (app, outcome), follow),
    ensures
        outcome matches Ok(r) ==> {
            &&& final(app).running == Some(r)
            &&& final(app).error == old(app).error
            &&& follow matches Follow::Attach { sample_rate, compensate } && sample_rate == r.0 && (
            compensate <==> old(app).compensate && (old(app).source matches Source::Device(i) && i
                < old(app).devices@.len() && old(app).devices@[i as int].kind is Loopback))
        },
        outcome matches Err(e) ==> {
            &&& follow is Detach
            &&& final(app).running is None
            &&& final(app).error == Some(e)
        },
        final(app).source == old(app).source,
        final(app).enabled == old(app).enabled,
        final(app).compensate == old(app).compensate,
{
}

/// At the start the first output of the default name is captured, by loopback, or else the
/// first source; every meter is on, and so is compensation.
pub proof fn the_default_output_is_captured_first<D>(
    devices: Vec<DeviceEntry<D>>,
    names: &Vec<String>,
    default_name: &String,
    app: MetersApp<D>,
    k: int,
)
    requires
        call_ensures(MetersApp::<D>::new, (devices, names, default_name), app),
        0 <= k < devices@.len(),
        devices@[k].kind is Loopback,
        names@[k]@ == default_name@,
        forall|j: int|
            0 <= j < k ==> !((#[trigger] devices@[j]).kind is Loopback && names@[j]@
                == default_name@),
        devices@.len() == names@.len(),
    ensures
        app.source == Source::Device(k as usize),
        app.devices == devices,
        app.compensate,
        app.enabled[0] && app.enabled[1] && app.enabled[2] && app.enabled[3],
        app.running is None,
        app.error is None,
{
    let n = devices@.len() as int;
    assert(crate::audio::is_default(devices@, names@, default_name@, k));
    let s = app.source->Device_0 as int;
    if s < k {
        assert(crate::audio::is_default(devices@, names@, default_name@, s));
        assert(devices@[s].kind is Loopback);
    } else if k < s {
        assert(!crate::audio::is_default(devices@, names@, default_name@, k));
    }
}

/// Every line of the menu does what it says: that of a source picks the source, and is marked if
/// and only if the source is captured; that of a meter flips its switch, and is marked if and
/// only if it is on.
pub proof fn lines_do_what_they_say(data: &MenuData, digits: &str, menu: Menu)
    requires
        call_ensures(crate::menu::menu_contents, (data, digits), menu),
    ensures
        menu.status@ == data.status@,
        menu.warning is Some <==> data.error is Some,
        menu.devices@.len() == data.devices@.len(),
        forall|i: int|
            0 <= i < menu.devices@.len() ==> {
                let line = #[trigger] menu.devices@[i];
                &&& line.label@ == data.devices@[i]@
                &&& line.action == Action::SetDevice(i as usize)
                &&& line.selected <==> data.source == Source::Device(i as usize)
            },
        menu.no_apps is Some <==> menu.apps@.len() == 0,
        menu.apps@.len() == data.apps@.len(),
        forall|i: int|
            0 <= i < menu.apps@.len() ==> {
                let line = #[trigger] menu.apps@[i];
                &&& line.label@ == data.apps@[i].1@
                &&& line.action == Action::SetApp(data.apps@[i].0)
                &&& line.selected <==> data.source == Source::App(data.apps@[i].0)
                &&& line.hint is Some && is_pid_hint(line.hint->0@, data.apps@[i].0)
            },
        menu.meters@.len() == 4,
        forall|i: int|
            0 <= i < 4 ==> {
                let line = #[trigger] menu.meters@[i];
                &&& line.action == Action::Toggle(i as usize)
                &&& line.selected <==> data.enabled[i]
            },
        menu.meters@[0].label@ == "Спектрограмма"@,
        menu.meters@[1].label@ == "Спектр"@,
        menu.meters@[2].label@ == "Громкость"@,
        menu.meters@[3].label@ == "Гониометр"@,
        menu.compensate.action is ToggleCompensate,
        menu.compensate.selected <==> data.compensate,
        menu.reset.action is ResetLufs,
        menu.reset.label@ == "Сброс LUFS-I"@,
        menu.quit.action is Quit,
        menu.quit.label@ == "Выход"@,
{
    assert forall|i: int| 0 <= i < menu.apps@.len() implies {
        let line = #[trigger] menu.apps@[i];
        &&& line.label@ == data.apps@[i].1@
        &&& line.action == Action::SetApp(data.apps@[i].0)
        &&& line.selected <==> data.source == Source::App(data.apps@[i].0)
        &&& line.hint is Some && is_pid_hint(line.hint->0@, data.apps@[i].0)
    } by {
        let d = crate::text::decimal(data.apps@[i].0 as nat);
        crate::laws::text::lemma_decimal(data.apps@[i].0 as nat);
        assert(spells(d, data.apps@[i].0 as int));
    }
    assert(crate::menu::is_meter_choice(*data, 0, menu.meters@[0]));
    assert(crate::menu::is_meter_choice(*data, 1, menu.meters@[1]));
    assert(crate::menu::is_meter_choice(*data, 2, menu.meters@[2]));
    assert(crate::menu::is_meter_choice(*data, 3, menu.meters@[3]));
}

/// The label of the compensation shows the digits of the gain while sound comes through, says
/// so when it does not, and says nothing of a gain that is not known.
pub proof fn the_compensation_shows_the_gain(data: &MenuData, digits: &str, menu: Menu)
    requires
        call_ensures(crate::menu::menu_contents, (data, digits), menu),
    ensures
        data.gain is None ==> menu.compensate.label@ == "Не зависеть от громкости Windows"@,
        data.gain is Some && !data.gain->0.nan() && data.gain->0.units() > 0
            ==> menu.compensate.label@ == "Не зависеть от громкости Windows ("@ + digits@
            + " dB)"@,
        data.gain is Some && !data.gain->0.nan() && data.gain->0.units() <= 0
            ==> menu.compensate.label@ == "Не зависеть от громкости Windows (звук выключен)"@,
        data.error matches Some(e) ==> menu.warning->0@ == "⚠ "@ + e@,
{
    crate::laws::numbers::lemma_zero();
}

/// The menu is made of what the program holds.
pub proof fn the_menu_shows_the_state<D>(
    app: &MetersApp<D>,
    apps: &Vec<AppEntry>,
    gain: Option<Level>,
    data: MenuData,
    i: int,
)
    requires
        call_ensures(MetersApp::<D>::menu_data, (app, apps, gain), data),
    ensures
        data.devices@.len() == app.devices@.len(),
        0 <= i < app.devices@.len() ==> data.devices@[i]@ == app.devices@[i].label@,
        data.apps@.len() == apps@.len(),
        0 <= i < apps@.len() ==> data.apps@[i].0 == apps@[i].pid && data.apps@[i].1@
            == apps@[i].name@,
        data.source == app.source,
        data.enabled == app.enabled,
        data.compensate == app.compensate,
        data.gain == gain,
        data.error is Some <==> app.error is Some,
        app.running is None ==> data.status@ == "нет захвата"@,
        app.running matches Some(r) ==> crate::laws::audio::is_status(data.status@, r.0, r.1),
{
    if let Some(r) = app.running {
        crate::laws::audio::lemma_status(r.0, r.1);
    }
}

/// A fault of a running capture is shown, and where there is none nothing changes.
pub proof fn a_fault_is_shown<D>(app: &mut MetersApp<D>, fault: Option<String>)
    requires
        call_ensures(MetersApp::<D>::poll_stream_error, (app, fault), ()),
    ensures
        fault is None ==> *final(app) == *old(app),
        fault is Some ==> final(app).error is Some && final(app).error->0@ == "поток: "@
            + fault->0@,
        final(app).source == old(app).source,
        final(app).running == old(app).running,
        final(app).enabled == old(app).enabled,
        final(app).compensate == old(app).compensate,
{
}

} // verus!
