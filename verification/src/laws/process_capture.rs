//! Laws of capturing what one process plays.

use crate::level::Level;
use crate::process_capture::{Activation, Event, Phase, Report, Setup, Step, WaveFormat};
use vstd::prelude::*;

verus! {

/// The format that is asked for is that of stereo floating-point samples of 32 bits at 48 kHz,
/// and its sizes agree.
pub proof fn the_format_is_stereo_float(f: WaveFormat)
    requires
        call_ensures(crate::process_capture::wave_format, (), f),
    ensures
        f.tag == 3,
        f.channels == 2,
        f.samples_per_sec == 48_000,
        f.bits_per_sample == 32,
        f.block_align == 8,
        f.bytes_per_sec == 384_000,
{
}

/// A packet gives as many frames as it says: its samples in turn, left and right, or silence
/// where it is marked as silent, by the second bit of its flags, or has no samples.
pub proof fn a_packet_gives_its_samples_or_silence(
    count: u32,
    flags: u32,
    samples: Option<&[Level]>,
    frames: Vec<[Level; 2]>,
    i: int,
)
    requires
        call_ensures(crate::process_capture::packet_frames, (count, flags, samples), frames),
        samples matches Some(s) ==> s@.len() >= 2 * count,
        0 <= i < count,
    ensures
        frames@.len() == count,
        (flags as int / 2) % 2 == 1 || samples is None ==> frames@[i][0].bits == 0
            && frames@[i][1].bits == 0,
        (flags as int / 2) % 2 == 0 && samples is Some ==> frames@[i][0] == samples->0@[2 * i]
            && frames@[i][1] == samples->0@[2 * i + 1],
{
    assert((flags & 2 != 0) == ((flags / 2) % 2 == 1)) by (bit_vector);
    assert(frames@[i][0] == frames@[i][0]);
}

/// A capture looks at the stop flag, waits, and fetches packets until there are none; each that
/// holds frames is delivered before the next one is fetched. It is over when the stop flag is
/// found set, and stays so.
pub proof fn a_capture_takes_its_course(phase: Phase, event: Event, next: Phase, step: Step)
    requires
        call_ensures(Phase::after, (phase, event), next),
        call_ensures(Phase::step, (next,), step),
    ensures
        phase is Finished ==> next is Finished,
        next is Finished && !(phase is Finished) ==> phase is Checking && event == Event::StopFlag(
            true,
        ),
        phase is Checking && event == Event::StopFlag(true) ==> next is Finished,
        phase is Checking && event == Event::StopFlag(false) ==> next is Waiting,
        phase is Waiting && event == Event::WaitEnded(true) ==> next is Fetching,
        phase is Waiting && event == Event::WaitEnded(false) ==> next is Checking,
        phase is Fetching && event == Event::Packet(None) ==> next is Checking,
        phase is Fetching && event == Event::Packet(Some(0)) ==> next is Checking,
        phase is Fetching && event is Packet && event->Packet_0 is Some && event->Packet_0->0 > 0
            ==> next == Phase::Holding(event->Packet_0->0) && step == Step::Deliver(
            event->Packet_0->0,
        ),
        phase is Holding && event is Delivered ==> next is Fetching,
        !(phase is Checking) && event is StopFlag ==> next == phase,
        !(phase is Waiting) && event is WaitEnded ==> next == phase,
        !(phase is Fetching) && event is Packet ==> next == phase,
        !(phase is Holding) && event is Delivered ==> next == phase,
        next is Checking <==> step is ReadStopFlag,
        next is Waiting <==> step is WaitForPackets,
        next is Fetching <==> step is FetchPacket,
        next is Holding <==> step is Deliver,
        next is Finished <==> step is Shutdown,
{
}

/// A capture begins by looking at the stop flag.
pub proof fn a_capture_begins_with_the_stop_flag(phase: Phase, step: Step)
    requires
        call_ensures(Phase::start, (), phase),
        call_ensures(Phase::step, (phase,), step),
    ensures
        step is ReadStopFlag,
{
}

/// A muted endpoint has the gain zero, and one that is not has the gain of its level; where one
/// of the two could not be read and is needed, there is none.
pub proof fn a_muted_endpoint_has_no_gain<M: crate::math::Math>(
    m: &M,
    muted: Option<bool>,
    db: Option<Level>,
    gain: Option<Level>,
)
    requires
        call_ensures(crate::process_capture::endpoint_gain::<M>, (m, muted, db), gain),
    ensures
        muted is None ==> gain is None,
        muted == Some(true) ==> gain is Some && gain->0.bits == 0,
        muted == Some(false) && db is None ==> gain is None,
        muted == Some(false) && db is Some ==> gain is Some && call_ensures(
            M::gain,
            (m, db->0),
            gain->0,
        ),
{
}

/// A capture that has started runs in stereo at 48 kHz; one that has failed gives its reason.
pub proof fn a_started_capture_is_stereo(report: Report, r: Result<(u32, u16), String>)
    requires
        call_ensures(crate::process_capture::started, (report,), r),
    ensures
        report is Running ==> r is Ok && r->Ok_0.0 == 48_000 && r->Ok_0.1 == 2,
        report matches Report::Failed(e) ==> r is Err && r->Err_0 == e,
        report is Silent ==> r is Err && r->Err_0@ == "захват процесса не ответил"@,
{
}

/// A call that fails is named before its reason.
pub proof fn a_failed_call_is_named(call: Setup, reason: &String, text: String)
    requires
        call_ensures(crate::process_capture::setup_error, (call, reason), text),
    ensures
        call is SpawnThread ==> text@ == "не удалось запустить поток захвата: "@ + reason@,
        call is CreateEvent ==> text@ == "event: "@ + reason@,
        call is Activate ==> text@ == "ActivateAudioInterfaceAsync: "@ + reason@,
        call is GetActivateResult ==> text@ == "GetActivateResult: "@ + reason@,
        call is CastClient ==> text@ == "cast IAudioClient: "@ + reason@,
        call is Initialize ==> text@ == "IAudioClient::Initialize: "@ + reason@,
        call is SetEventHandle ==> text@ == "SetEventHandle: "@ + reason@,
        call is GetService ==> text@ == "GetService(IAudioCaptureClient): "@ + reason@,
        call is Start ==> text@ == "Start: "@ + reason@,
{
}

/// An activation comes out if and only if it completes with a client, and a refusal gives its
/// reason.
pub proof fn an_activation_comes_out_when_it_is_ready(a: Activation, r: Result<(), String>)
    requires
        call_ensures(crate::process_capture::check_activation, (a,), r),
    ensures
        r is Ok <==> a is Ready,
        a is TimedOut ==> r->Err_0@ == "активация process loopback не завершилась"@,
        a matches Activation::Refused(reason) ==> r->Err_0@ == "process loopback недоступен ("@
            + reason@ + ") — нужна Windows 10 сборки 20348 или новее"@,
        a is Empty ==> r->Err_0@ == "GetActivateResult вернул пусто"@,
{
}

} // verus!
