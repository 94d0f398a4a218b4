//! Sources, captures, menus and windows, and the order of levels.

use sonora::apps::{
    base_name, list_apps, newest_first, process_name, AppEntry, Session, SessionLog,
};
use sonora::audio::{
    capture_status, default_source, deinterleave, device_name, list_devices, plan_capture,
    DeviceEntry, SampleType, SharedAudio, SourceKind, StreamConfig, StreamFormat, StreamPlan,
    MAX_BUFFERED_FRAMES,
};
use sonora::band::{rate_of_rows, twice_the_highest};
use sonora::color::{correlation_color, loudness_color, peak_color, Rgb};
use sonora::curve::{curve_steps, grid_frequencies, grid_label, strip_triangles};
use sonora::engine::wanted_size;
use sonora::level::{Level, Wide};
use sonora::menu::{menu_contents, Choice};
use sonora::meter::{
    drag_command, layout, loudness_readout, peak_readout, Drag, Meter, Panel, METERS,
};
use sonora::meters_app::{app_name, Action, Effect, Follow, MetersApp, Request, Source};
use sonora::process_capture::{
    check_activation, packet_frames, setup_error, started, wave_format, Activation, Event, Phase,
    Report, Setup, Step,
};
use sonora::spectrogram::{ring_slices, Slice};
use sonora::text::{decimal_text, joined};

fn level(x: f32) -> Level {
    Level { bits: x.to_bits() }
}

fn wide(x: f64) -> Wide {
    Wide { bits: x.to_bits() }
}

const SAMPLES: [f32; 22] = [
    0.0,
    -0.0,
    1.0,
    -1.0,
    0.5,
    0.99999994,
    1.0000001,
    1.5,
    2.0,
    -2.5,
    3.999,
    2047.0,
    16_777_215.0,
    1.0e10,
    -1.0e10,
    1.0e-9,
    1.0e-40,
    -1.0e-45,
    f32::MAX,
    f32::INFINITY,
    f32::NEG_INFINITY,
    f32::NAN,
];

#[test]
fn levels_are_ordered_as_the_numbers_are() {
    for a in SAMPLES {
        let la = level(a);
        assert_eq!(la.is_nan(), a.is_nan());
        assert_eq!(la.is_finite(), a.is_finite());
        assert_eq!(la.abs().bits, a.abs().to_bits());
        assert_eq!(la.floor(), a.floor() as usize, "{a}");
        assert_eq!(la.ceil(), a.ceil() as usize, "{a}");
        for b in SAMPLES {
            let lb = level(b);
            assert_eq!(la.above(lb), a > b, "{a} {b}");
            assert_eq!(la.at_most(lb), a <= b, "{a} {b}");
            let larger = f32::from_bits(la.larger(lb).bits);
            assert!(larger == a.max(b) || larger.is_nan() && a.max(b).is_nan(), "{a} {b}");
        }
        let bounded = f32::from_bits(la.clamped(level(-1.0), level(2.0)).bits);
        let expected = a.clamp(-1.0, 2.0);
        assert!(bounded == expected || bounded.is_nan() && expected.is_nan(), "{a}");
    }
}

#[test]
fn wide_quantities_are_ordered_as_the_numbers_are() {
    for a in SAMPLES {
        let a = a as f64 * 1.1;
        assert_eq!(wide(a).abs().bits, a.abs().to_bits());
        for b in SAMPLES {
            let b = b as f64 * 1.1;
            assert_eq!(wide(a).above(wide(b)), a > b, "{a} {b}");
            assert_eq!(wide(a).at_most(wide(b)), a <= b, "{a} {b}");
        }
        let bounded = f64::from_bits(wide(a).clamped(wide(-1.0), wide(4.0)).bits);
        let expected = a.clamp(-1.0, 4.0);
        assert!(bounded == expected || bounded.is_nan() && expected.is_nan(), "{a}");
    }
}

#[test]
fn whole_numbers_become_levels() {
    for n in [0usize, 1, 2, 3, 7, 100, 2_047, 4_095, 65_537, 16_777_215] {
        assert_eq!(Level::from_index(n).bits, (n as f32).to_bits());
        assert_eq!(level(n as f32).floor(), n);
    }
}

#[test]
fn numbers_in_decimal() {
    for n in [0u64, 1, 9, 10, 48_000, 192_000, u64::MAX] {
        assert_eq!(decimal_text(n), n.to_string());
    }
    assert_eq!(joined("a", "б"), "aб");
}

fn frame(x: usize) -> [Level; 2] {
    [level(x as f32), level(-(x as f32))]
}

#[test]
fn captured_frames_come_out_in_order() {
    let mut s = SharedAudio::new();
    s.push(&[frame(1), frame(2)]);
    s.push(&[frame(3)]);
    assert_eq!(s.drain(), vec![frame(1), frame(2), frame(3)]);
    assert!(s.drain().is_empty());
    assert!(SharedAudio::default().frames.is_empty());
}

#[test]
fn the_oldest_frames_give_way() {
    let mut s = SharedAudio::new();
    let first: Vec<[Level; 2]> = (0..MAX_BUFFERED_FRAMES).map(frame).collect();
    s.push(&first);
    s.push(&[frame(96_000), frame(96_001)]);
    let kept = s.drain();
    assert_eq!(kept.len(), 96_000);
    assert_eq!(kept[0], frame(2));
    assert_eq!(kept[95_999], frame(96_001));
}

#[test]
fn interleaved_samples_become_frames() {
    assert_eq!(deinterleave(&[1, 2, 3, 4], 2), vec![[1, 2], [3, 4]]);
    assert_eq!(deinterleave(&[1, 2, 3], 1), vec![[1, 1], [2, 2], [3, 3]]);
    // more channels: the first two; a frame that is not complete is left out
    assert_eq!(deinterleave(&[1, 2, 3, 4, 5, 6, 7, 8], 3), vec![[1, 2], [4, 5]]);
    assert!(deinterleave(&[1, 2, 3], 0).is_empty());
    assert!(deinterleave::<i16>(&[], 2).is_empty());
}

fn named(names: &[&str]) -> Vec<(String, u8)> {
    names.iter().enumerate().map(|(i, n)| (n.to_string(), i as u8)).collect()
}

fn some_devices() -> Vec<DeviceEntry<u8>> {
    list_devices(named(&["Speakers", "HDMI"]), named(&["HDMI", "Mic"]))
}

#[test]
fn outputs_come_before_inputs() {
    let entries = some_devices();
    let shown: Vec<(&str, u8, SourceKind)> =
        entries.iter().map(|e| (e.label.as_str(), e.device, e.kind)).collect();
    assert_eq!(
        shown,
        vec![
            ("Speakers · loopback", 0, SourceKind::Loopback),
            ("HDMI · loopback", 1, SourceKind::Loopback),
            ("HDMI · вход", 0, SourceKind::Input),
            ("Mic · вход", 1, SourceKind::Input),
        ]
    );
    assert_eq!(device_name(Some("Mic".to_string())), "Mic");
    assert_eq!(device_name(None), "Unknown");
}

fn some_names() -> Vec<String> {
    ["Speakers", "HDMI", "HDMI", "Mic"].iter().map(|n| n.to_string()).collect()
}

#[test]
fn the_default_output_is_picked() {
    let entries = some_devices();
    let names = some_names();
    assert_eq!(default_source(&entries, &names, &"HDMI".to_string()), 1);
    assert_eq!(default_source(&entries, &names, &"Speakers".to_string()), 0);
    // an input of that name does not count
    assert_eq!(default_source(&entries, &names, &"Mic".to_string()), 0);
    assert_eq!(default_source(&entries, &names, &String::new()), 0);
}

#[test]
fn stream_plans() {
    let proposed = |format| Ok(StreamConfig { format, sample_rate: 44_100, channels: 6 });
    let planned = |samples| Ok(StreamPlan { samples, sample_rate: 44_100, channels: 6 });
    assert_eq!(
        plan_capture(SourceKind::Input, proposed(StreamFormat::F32)),
        planned(SampleType::F32)
    );
    assert_eq!(
        plan_capture(SourceKind::Loopback, proposed(StreamFormat::I16)),
        planned(SampleType::I16)
    );
    assert_eq!(
        plan_capture(SourceKind::Loopback, proposed(StreamFormat::U16)),
        planned(SampleType::U16)
    );
    assert_eq!(
        plan_capture(SourceKind::Input, proposed(StreamFormat::I32)),
        planned(SampleType::I32)
    );
    assert_eq!(
        plan_capture(SourceKind::Input, proposed(StreamFormat::Other("F64".to_string()))),
        Err("unsupported sample format: F64".to_string())
    );
    assert_eq!(
        plan_capture(SourceKind::Loopback, Err("gone".to_string())),
        Err("default_output_config failed: gone".to_string())
    );
    assert_eq!(
        plan_capture(SourceKind::Input, Err("gone".to_string())),
        Err("default_input_config failed: gone".to_string())
    );
}

#[test]
fn the_status_of_a_capture() {
    assert_eq!(capture_status(Some((48_000, 2))), "48000 Hz · 2 ch");
    assert_eq!(capture_status(None), "нет захвата");
}

fn utf16(text: &str) -> Vec<u16> {
    text.encode_utf16().collect()
}

#[test]
fn the_name_of_a_process_is_the_end_of_its_path() {
    let name = |text: &str| process_name(&Some(utf16(text)));
    let raw = |units: &[u16]| process_name(&Some(units.to_vec()));
    assert_eq!(name("C:\\Program Files\\Музыка\\Плеер.exe"), Some("Плеер.exe".to_string()));
    assert_eq!(name("player.exe"), Some("player.exe".to_string()));
    assert_eq!(name("C:\\dir\\"), Some(String::new()));
    assert_eq!(name("a\\🎵.exe"), Some("🎵.exe".to_string()));
    // surrogates that do not pair up are replaced
    assert_eq!(raw(&[0x61, 0x5C, 0xD800, 0x62]), Some("\u{FFFD}b".to_string()));
    assert_eq!(raw(&[0xDC00, 0x62]), Some("\u{FFFD}b".to_string()));
    assert_eq!(raw(&[0x62, 0xD800]), Some("b\u{FFFD}".to_string()));
    assert_eq!(raw(&[0xD800, 0xD83C, 0xDFB5]), Some("\u{FFFD}🎵".to_string()));
    assert_eq!(process_name(&None), None);
    assert_eq!(base_name(&"x\\y".to_string()), "y");
    assert_eq!(base_name(&String::new()), "");
}

fn listed(entries: Vec<AppEntry>) -> Vec<(u32, String)> {
    entries.into_iter().map(|e| (e.pid, e.name)).collect()
}

fn session(first_seen: u64, pid: u32, path: &str) -> Session {
    Session { pid, image: Some(utf16(path)), first_seen }
}

#[test]
fn applications_are_listed_newest_first() {
    let sessions = vec![
        session(1, 4, "C:\\a\\alpha.exe"),
        session(5, 9, "C:\\b\\Zoom.exe"),
        session(3, 5, "D:\\beta.exe"),
        session(5, 2, "D:\\gamma.exe"),
    ];
    assert_eq!(newest_first(&sessions), vec![1, 3, 2, 0]);
    assert_eq!(
        listed(list_apps(77, &sessions)),
        vec![
            (9, "Zoom.exe".to_string()),
            (2, "gamma.exe".to_string()),
            (5, "beta.exe".to_string()),
            (4, "alpha.exe".to_string()),
        ]
    );
}

#[test]
fn processes_are_listed_once() {
    let sessions = vec![
        session(9, 0, "system"),
        Session { pid: 4, image: None, first_seen: 9 },
        session(2, 9, "C:\\b\\old.exe"),
        session(3, 4, "C:\\a\\alpha.exe"),
        session(4, 9, "C:\\b\\new.exe"),
        session(9, 77, "C:\\sonora.exe"),
    ];
    assert_eq!(
        listed(list_apps(77, &sessions)),
        vec![(9, "new.exe".to_string()), (4, "alpha.exe".to_string())]
    );
    assert!(list_apps(77, &Vec::new()).is_empty());
}

#[test]
fn the_log_remembers_when_sessions_came_up() {
    let mut log = SessionLog::new();
    let at = |pids: &[u32]| pids.iter().map(|&p| (p, Some(utf16("x\\p.exe")))).collect();
    let pids = |sessions: &Vec<Session>| -> Vec<u32> {
        list_apps(77, sessions).iter().map(|e| e.pid).collect()
    };
    assert_eq!(pids(&log.look(at(&[3, 8]))), vec![3, 8]);
    // 5 has come up
    let sessions = log.look(at(&[3, 5, 8]));
    assert_eq!(sessions.iter().map(|s| s.first_seen).collect::<Vec<u64>>(), vec![0, 1, 0]);
    assert_eq!(pids(&sessions), vec![5, 3, 8]);
    // 3 has gone
    assert_eq!(pids(&log.look(at(&[5, 8]))), vec![5, 8]);
    assert_eq!(log.first_seen(5), 1);
    // and come back
    assert_eq!(pids(&log.look(at(&[3, 5, 8]))), vec![3, 5, 8]);
    assert_eq!(log.looks, 4);
}

#[test]
fn the_wave_format() {
    let f = wave_format();
    assert_eq!((f.tag, f.channels, f.samples_per_sec), (3, 2, 48_000));
    assert_eq!((f.bytes_per_sec, f.block_align, f.bits_per_sample), (384_000, 8, 32));
}

#[test]
fn packets_become_frames() {
    let samples: Vec<Level> = [0.1, 0.2, 0.3, 0.4].iter().map(|&x| level(x)).collect();
    let silence = vec![[level(0.0), level(0.0)]; 2];
    assert_eq!(
        packet_frames(2, 0, Some(&samples)),
        vec![[level(0.1), level(0.2)], [level(0.3), level(0.4)]]
    );
    assert_eq!(
        packet_frames(1, 5, Some(&samples)),
        vec![[level(0.1), level(0.2)]]
    );
    assert_eq!(packet_frames(2, 2, Some(&samples)), silence);
    assert_eq!(packet_frames(2, 0, None), silence);
    assert!(packet_frames(0, 0, None).is_empty());
}

#[test]
fn a_capture_runs_until_it_is_told_to_stop() {
    let mut phase = Phase::start();
    let script = [
        (Step::ReadStopFlag, Event::StopFlag(false)),
        (Step::WaitForPackets, Event::WaitEnded(false)),
        (Step::ReadStopFlag, Event::StopFlag(false)),
        (Step::WaitForPackets, Event::WaitEnded(true)),
        (Step::FetchPacket, Event::Packet(Some(480))),
        (Step::Deliver(480), Event::Delivered),
        (Step::FetchPacket, Event::Packet(Some(0))),
        (Step::ReadStopFlag, Event::StopFlag(false)),
        (Step::WaitForPackets, Event::WaitEnded(true)),
        (Step::FetchPacket, Event::Packet(None)),
        (Step::ReadStopFlag, Event::StopFlag(true)),
    ];
    for (step, event) in script {
        assert_eq!(phase.step(), step);
        phase = phase.after(event);
    }
    assert_eq!(phase.step(), Step::Shutdown);
    assert_eq!(phase.after(Event::StopFlag(false)), Phase::Finished);
    // an event out of place changes nothing
    assert_eq!(Phase::Waiting.after(Event::Delivered), Phase::Waiting);
}

#[test]
fn what_is_said_when_a_capture_cannot_be_set_up() {
    let reason = "E".to_string();
    let said = |call| setup_error(call, &reason);
    assert_eq!(said(Setup::SpawnThread), "не удалось запустить поток захвата: E");
    assert_eq!(said(Setup::CreateEvent), "event: E");
    assert_eq!(said(Setup::Activate), "ActivateAudioInterfaceAsync: E");
    assert_eq!(said(Setup::GetActivateResult), "GetActivateResult: E");
    assert_eq!(said(Setup::CastClient), "cast IAudioClient: E");
    assert_eq!(said(Setup::Initialize), "IAudioClient::Initialize: E");
    assert_eq!(said(Setup::SetEventHandle), "SetEventHandle: E");
    assert_eq!(said(Setup::GetService), "GetService(IAudioCaptureClient): E");
    assert_eq!(said(Setup::Start), "Start: E");
    assert_eq!(check_activation(Activation::Ready), Ok(()));
    assert_eq!(
        check_activation(Activation::TimedOut),
        Err("активация process loopback не завершилась".to_string())
    );
    assert_eq!(
        check_activation(Activation::Refused("E".to_string())),
        Err("process loopback недоступен (E) — нужна Windows 10 сборки 20348 или новее".to_string())
    );
    assert_eq!(
        check_activation(Activation::Empty),
        Err("GetActivateResult вернул пусто".to_string())
    );
    assert_eq!(started(Report::Running), Ok((48_000, 2)));
    assert_eq!(started(Report::Failed("E".to_string())), Err("E".to_string()));
    assert_eq!(started(Report::Silent), Err("захват процесса не ответил".to_string()));
}

const ALL: [Meter; 4] = [Meter::Spectrogram, Meter::Spectrum, Meter::Loudness, Meter::Goniometer];

#[test]
fn the_meters() {
    for (i, meter) in ALL.into_iter().enumerate() {
        assert_eq!(meter.index(), i);
        assert_eq!(Meter::at(i), meter);
    }
    let titles: Vec<&str> = ALL.iter().map(|m| m.title()).collect();
    assert_eq!(titles, vec!["Спектрограмма", "Спектр", "Громкость", "Гониометр"]);
    let sizes: Vec<[u16; 2]> = ALL.iter().map(|m| m.default_size()).collect();
    assert_eq!(sizes, vec![[640, 260], [640, 220], [300, 190], [280, 340]]);
    assert_eq!(Meter::Spectrogram.panels(), vec![Panel::Spectrogram]);
    assert_eq!(Meter::Spectrum.panels(), vec![Panel::Spectrum]);
    assert_eq!(Meter::Loudness.panels(), vec![Panel::Loudness, Panel::Peaks]);
    assert_eq!(Meter::Goniometer.panels(), vec![Panel::Correlation, Panel::Goniometer]);
}

#[test]
fn the_first_meter_that_is_on_is_the_root() {
    let l = layout(&[true; METERS]);
    assert_eq!(l.root, Some(Meter::Spectrogram));
    assert_eq!(l.others, vec![Meter::Spectrum, Meter::Loudness, Meter::Goniometer]);
    let l = layout(&[false, true, false, true]);
    assert_eq!(l.root, Some(Meter::Spectrum));
    assert_eq!(l.others, vec![Meter::Goniometer]);
    let l = layout(&[false; METERS]);
    assert_eq!(l.root, None);
    assert!(l.others.is_empty());
}

#[test]
fn the_grip_goes_before_the_body() {
    assert_eq!(drag_command(true, true), Some(Drag::Resize));
    assert_eq!(drag_command(false, true), Some(Drag::Move));
    assert_eq!(drag_command(false, false), None);
}

#[test]
fn readouts() {
    let digits = || "  -23.0".to_string();
    assert_eq!(loudness_readout(level(-23.0), digits()), "  -23.0");
    assert_eq!(loudness_readout(level(f32::NEG_INFINITY), digits()), "  -∞  ");
    assert_eq!(peak_readout(level(-6.0), "-6".to_string()), "-6");
    assert_eq!(peak_readout(level(f32::NEG_INFINITY), digits()), "-∞");
    assert_eq!(peak_readout(level(f32::NAN), digits()), "-∞");
}

#[test]
fn bars_change_color_past_their_limits() {
    let red = Rgb { r: 240, g: 90, b: 80 };
    let yellow = Rgb { r: 240, g: 190, b: 70 };
    let green = Rgb { r: 90, g: 200, b: 120 };
    assert_eq!(loudness_color(level(-8.9)), red);
    assert_eq!(loudness_color(level(-9.0)), yellow);
    assert_eq!(loudness_color(level(-16.0)), green);
    assert_eq!(loudness_color(level(f32::NEG_INFINITY)), green);
    assert_eq!(peak_color(level(-0.5)), Rgb { r: 240, g: 80, b: 80 });
    assert_eq!(peak_color(level(-1.0)), yellow);
    assert_eq!(peak_color(level(-6.0)), green);
    assert_eq!(correlation_color(level(-0.01)), Rgb { r: 240, g: 100, b: 90 });
    assert_eq!(correlation_color(level(0.0)), green);
}

#[test]
fn the_size_that_a_surface_wants() {
    assert_eq!(wanted_size(512, 320, [512, 320]), None);
    assert_eq!(wanted_size(10, 9_000, [512, 320]), Some([64, 4_096]));
    assert_eq!(wanted_size(0, 320, [64, 320]), None);
}

#[test]
fn the_ring_is_shown_in_two_runs() {
    assert_eq!(ring_slices(0, 16), vec![Slice { from: 0, to: 16, left: 0 }]);
    assert_eq!(
        ring_slices(5, 16),
        vec![Slice { from: 5, to: 16, left: 0 }, Slice { from: 0, to: 5, left: 11 }]
    );
}

#[test]
fn the_grid_stops_at_the_highest_frequency() {
    assert_eq!(grid_frequencies(48_000), vec![100, 1_000, 10_000]);
    assert_eq!(grid_frequencies(20_000), vec![100, 1_000, 10_000]);
    assert_eq!(grid_frequencies(19_999), vec![100, 1_000]);
    assert_eq!(grid_frequencies(8_000), vec![100, 1_000]);
    assert!(grid_frequencies(0).is_empty());
    let labels: Vec<String> = [100, 1_000, 10_000].into_iter().map(grid_label).collect();
    assert_eq!(labels, vec!["100", "1k", "10k"]);
}

#[test]
fn an_axis_ends_at_20_khz_or_half_the_rate() {
    assert_eq!(twice_the_highest(48_000), 40_000);
    assert_eq!(twice_the_highest(40_000), 40_000);
    assert_eq!(twice_the_highest(11_025), 11_025);
    assert_eq!(twice_the_highest(0), 0);
    assert_eq!([0, 1, 2, 3].map(rate_of_rows), [2, 2, 2, 3]);
}

#[test]
fn the_curve_has_a_step_per_pixel() {
    assert_eq!(curve_steps(level(640.0)), 640);
    assert_eq!(curve_steps(level(640.2)), 641);
    assert_eq!(curve_steps(level(0.0)), 1);
    assert_eq!(curve_steps(level(f32::NAN)), 1);
}

#[test]
fn the_area_under_a_curve_is_a_strip() {
    assert!(strip_triangles(0).is_empty());
    assert!(strip_triangles(1).is_empty());
    assert_eq!(
        strip_triangles(3),
        vec![[0, 1, 2], [1, 2, 3], [2, 3, 4], [3, 4, 5]]
    );
}

fn some_app() -> MetersApp<u8> {
    MetersApp::new(some_devices(), &some_names(), &"HDMI".to_string())
}

fn some_apps() -> Vec<AppEntry> {
    vec![
        AppEntry { pid: 7, name: "a.exe".to_string() },
        AppEntry { pid: 8, name: "b.exe".to_string() },
    ]
}

#[test]
fn the_program_starts_with_the_default_output() {
    let app = some_app();
    assert_eq!(app.source, Source::Device(1));
    assert_eq!(app.enabled, [true; METERS]);
    assert!(app.compensate);
    assert_eq!(app.running, None);
    assert_eq!(app.error, None);
}

#[test]
fn actions_change_the_state() {
    let mut app = some_app();
    assert_eq!(app.apply(Action::SetDevice(1)), None);
    assert_eq!(app.apply(Action::SetDevice(3)), Some(Effect::Start));
    assert_eq!(app.source, Source::Device(3));
    assert_eq!(app.apply(Action::SetApp(7)), Some(Effect::Start));
    assert_eq!(app.apply(Action::SetApp(7)), None);
    assert_eq!(app.source, Source::App(7));
    assert_eq!(app.apply(Action::ResetLufs), Some(Effect::ResetLufs));
    assert_eq!(app.apply(Action::Quit), Some(Effect::Quit));
    assert_eq!(app.apply(Action::ToggleCompensate), Some(Effect::Start));
    assert!(!app.compensate);
    assert_eq!(app.apply(Action::ToggleCompensate), Some(Effect::Start));
    assert!(app.compensate);
    assert_eq!(app.apply(Action::Toggle(2)), None);
    assert_eq!(app.enabled, [true, true, false, true]);
    assert_eq!(app.apply(Action::Toggle(2)), None);
    assert_eq!(app.enabled, [true; METERS]);
}

#[test]
fn starting_the_source() {
    let mut app = some_app();
    app.error = Some("old".to_string());
    assert!(matches!(app.start_selected(&some_apps()), Request::Device(1)));
    assert_eq!(app.error, None);
    assert_eq!(
        app.started(Ok((48_000, 2))),
        Follow::Attach { sample_rate: 48_000, compensate: true }
    );
    assert_eq!(app.running, Some((48_000, 2)));

    // an input carries no gain of the endpoint
    app.apply(Action::SetDevice(2));
    assert!(matches!(app.start_selected(&some_apps()), Request::Device(2)));
    assert_eq!(
        app.started(Ok((44_100, 1))),
        Follow::Attach { sample_rate: 44_100, compensate: false }
    );

    // nor does a process
    app.apply(Action::SetApp(8));
    match app.start_selected(&some_apps()) {
        Request::App { pid, name } => assert_eq!((pid, name.as_str()), (8, "b.exe")),
        _ => panic!("an application was picked"),
    }
    assert_eq!(
        app.started(Ok((48_000, 2))),
        Follow::Attach { sample_rate: 48_000, compensate: false }
    );
    assert_eq!(app_name(&some_apps(), 9), "pid 9");

    app.apply(Action::SetDevice(40));
    match app.start_selected(&some_apps()) {
        Request::Refused(text) => {
            assert_eq!(text, "Устройства не найдены");
            assert_eq!(app.started(Err(text)), Follow::Detach);
        }
        _ => panic!("there is no such device"),
    }
    assert_eq!(app.running, None);
    assert_eq!(app.error, Some("Устройства не найдены".to_string()));
}

#[test]
fn loopback_is_left_alone_without_compensation() {
    let mut app = some_app();
    app.apply(Action::ToggleCompensate);
    assert_eq!(
        app.started(Ok((48_000, 2))),
        Follow::Attach { sample_rate: 48_000, compensate: false }
    );
}

#[test]
fn a_fault_of_the_stream_is_shown() {
    let mut app = some_app();
    app.poll_stream_error(None);
    assert_eq!(app.error, None);
    app.poll_stream_error(Some("unplugged".to_string()));
    assert_eq!(app.error, Some("поток: unplugged".to_string()));
}

fn shape(choices: &[Choice]) -> Vec<(&str, bool, Action)> {
    choices.iter().map(|c| (c.label.as_str(), c.selected, c.action)).collect()
}

#[test]
fn the_menu_marks_what_is_captured() {
    let mut app = some_app();
    app.running = Some((48_000, 2));
    app.enabled = [true, false, true, true];
    let menu = menu_contents(&app.menu_data(&some_apps(), Some(level(0.5))), "-6.0");
    assert_eq!(menu.status, "48000 Hz · 2 ch");
    assert_eq!(menu.warning, None);
    assert_eq!(
        shape(&menu.devices),
        vec![
            ("Speakers · loopback", false, Action::SetDevice(0)),
            ("HDMI · loopback", true, Action::SetDevice(1)),
            ("HDMI · вход", false, Action::SetDevice(2)),
            ("Mic · вход", false, Action::SetDevice(3)),
        ]
    );
    assert_eq!(menu.no_apps, None);
    assert_eq!(
        shape(&menu.apps),
        vec![("a.exe", false, Action::SetApp(7)), ("b.exe", false, Action::SetApp(8))]
    );
    assert_eq!(menu.apps[0].hint.as_deref(), Some("pid 7 — вместе с дочерними процессами"));
    assert_eq!(
        shape(&menu.meters),
        vec![
            ("Спектрограмма", true, Action::Toggle(0)),
            ("Спектр", false, Action::Toggle(1)),
            ("Громкость", true, Action::Toggle(2)),
            ("Гониометр", true, Action::Toggle(3)),
        ]
    );
    assert_eq!(menu.compensate.label, "Не зависеть от громкости Windows (-6.0 dB)");
    assert!(menu.compensate.selected);
    assert_eq!(menu.compensate.action, Action::ToggleCompensate);
    assert_eq!((menu.reset.label.as_str(), menu.reset.action), ("Сброс LUFS-I", Action::ResetLufs));
    assert_eq!((menu.quit.label.as_str(), menu.quit.action), ("Выход", Action::Quit));
}

#[test]
fn the_menu_without_a_capture() {
    let mut app = some_app();
    app.apply(Action::SetApp(8));
    app.error = Some("gone".to_string());
    app.compensate = false;
    let menu = menu_contents(&app.menu_data(&Vec::new(), Some(level(0.0))), "-inf");
    assert_eq!(menu.status, "нет захвата");
    assert_eq!(menu.warning.as_deref(), Some("⚠ gone"));
    assert!(menu.devices.iter().all(|c| !c.selected));
    assert_eq!(menu.no_apps.as_deref(), Some("Нет приложений со звуком"));
    assert!(menu.apps.is_empty());
    assert_eq!(menu.compensate.label, "Не зависеть от громкости Windows (звук выключен)");
    assert!(!menu.compensate.selected);
    let menu = menu_contents(&app.menu_data(&some_apps(), None), "");
    assert_eq!(menu.compensate.label, "Не зависеть от громкости Windows");
    assert!(menu.apps[1].selected && !menu.apps[0].selected);
}
