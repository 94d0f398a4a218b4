//! Capturing what one process plays: the format, the packets and the course of a capture.

use crate::level::{Level, ZERO};
use crate::math::Math;
use crate::text::joined;
use vstd::prelude::*;

verus! {

/// Sample rate that is asked for. A process capture cannot negotiate: the caller states a
/// format and the system converts.
pub const CAPTURE_RATE: u32 = 48_000;

/// Channels that are asked for.
pub const CAPTURE_CHANNELS: u16 = 2;

/// Tag of floating-point samples.
pub const FORMAT_IEEE_FLOAT: u16 = 3;

/// Bits of one sample.
pub const SAMPLE_BITS: u16 = 32;

/// Flag of a packet that holds silence.
pub const PACKET_SILENT: u32 = 2;

/// A wave format.
#[derive(Clone, Copy, PartialEq, Eq, Structural, Debug)]
pub struct WaveFormat {
    pub tag: u16,
    pub channels: u16,
    pub samples_per_sec: u32,
    pub bytes_per_sec: u32,
    pub block_align: u16,
    pub bits_per_sample: u16,
}

/// The format that is asked for.
pub fn wave_format() -> (f: WaveFormat)
    ensures
        f.tag == FORMAT_IEEE_FLOAT,
        f.channels == CAPTURE_CHANNELS,
        f.samples_per_sec == CAPTURE_RATE,
        f.bits_per_sample == SAMPLE_BITS,
        f.block_align == f.channels * (f.bits_per_sample / 8),
        f.bytes_per_sec == f.samples_per_sec * f.block_align,
{
    let block_align: u16 = CAPTURE_CHANNELS * 4;
    WaveFormat {
        tag: FORMAT_IEEE_FLOAT,
        channels: CAPTURE_CHANNELS,
        samples_per_sec: CAPTURE_RATE,
        bytes_per_sec: CAPTURE_RATE * block_align as u32,
        block_align,
        bits_per_sample: SAMPLE_BITS,
    }
}

/// The packet holds silence.
pub open spec fn is_silent(flags: u32) -> bool {
    flags & PACKET_SILENT != 0
}

/// The frames of a packet of `count` frames: silence where the packet is marked so or has
/// no samples, and the interleaved samples otherwise.
pub fn packet_frames(count: u32, flags: u32, samples: Option<&[Level]>) -> (frames: Vec<
    [Level; 2],
>)
    requires
        samples matches Some(s) ==> s@.len() >= 2 * count,
    ensures
        frames@.len() == count,
        is_silent(flags) || samples is None ==> forall|i: int|
            0 <= i < count ==> (#[trigger] frames@[i])[0] == (Level { bits: ZERO }) && frames@[i][1]
                == (Level { bits: ZERO }),
        !is_silent(flags) && samples is Some ==> forall|i: int|
            0 <= i < count ==> (#[trigger] frames@[i])[0] == samples->0@[2 * i] && frames@[i][1]
                == samples->0@[2 * i + 1],
{
    let silent = flags & PACKET_SILENT != 0;
    let n = count as usize;
    let mut frames: Vec<[Level; 2]> = Vec::new();
    let mut i: usize = 0;
    while i < n
        invariant
            i <= n,
            n == count,
            samples matches Some(s) ==> s@.len() >= 2 * count,
            silent == is_silent(flags),
            frames@.len() == i,
            silent || samples is None ==> forall|j: int|
                0 <= j < i ==> (#[trigger] frames@[j])[0] == (Level { bits: ZERO })
                    && frames@[j][1] == (Level { bits: ZERO }),
            !silent && samples is Some ==> forall|j: int|
                0 <= j < i ==> (#[trigger] frames@[j])[0] == samples->0@[2 * j]
                    && frames@[j][1] == samples->0@[2 * j + 1],
        decreases n - i,
    {
        let frame = match samples {
            Some(s) if !silent => {
                assert(s@.len() == s.len());
                [s[2 * i], s[2 * i + 1]]
            },
            _ => [Level { bits: ZERO }, Level { bits: ZERO }],
        };
        frames.push(frame);
        i += 1;
    }
    frames
}

/// Where a capture stands.
#[derive(Clone, Copy, PartialEq, Eq, Structural, Debug)]
pub enum Phase {
    /// About to look whether it should stop.
    Checking,
    /// Waiting for packets.
    Waiting,
    /// Fetching packets.
    Fetching,
    /// Holding a packet of this many frames.
    Holding(u32),
    /// Over.
    Finished,
}

/// What happened.
#[derive(Clone, Copy, PartialEq, Eq, Structural, Debug)]
pub enum Event {
    /// The stop flag was read.
    StopFlag(bool),
    /// The wait ended; true when packets are there, false on a timeout.
    WaitEnded(bool),
    /// A packet was asked for; the number of frames in it, or none on a failure.
    Packet(Option<u32>),
    /// The packet was passed on and released.
    Delivered,
}

/// What to do next.
#[derive(Clone, Copy, PartialEq, Eq, Structural, Debug)]
pub enum Step {
    ReadStopFlag,
    WaitForPackets,
    FetchPacket,
    /// Pass this many frames on and release the packet.
    Deliver(u32),
    /// Stop the client and release everything.
    Shutdown,
}

/// The phase after an event. An event that does not belong to the phase changes nothing.
pub open spec fn next_phase(phase: Phase, event: Event) -> Phase {
    match (phase, event) {
        (Phase::Checking, Event::StopFlag(true)) => Phase::Finished,
        (Phase::Checking, Event::StopFlag(false)) => Phase::Waiting,
        (Phase::Waiting, Event::WaitEnded(true)) => Phase::Fetching,
        (Phase::Waiting, Event::WaitEnded(false)) => Phase::Checking,
        (Phase::Fetching, Event::Packet(Some(n))) => if n > 0 {
            Phase::Holding(n)
        } else {
            Phase::Checking
        },
        (Phase::Fetching, Event::Packet(None)) => Phase::Checking,
        (Phase::Holding(_), Event::Delivered) => Phase::Fetching,
        _ => phase,
    }
}

/// What a phase asks for.
pub open spec fn step_of(phase: Phase) -> Step {
    match phase {
        Phase::Checking => Step::ReadStopFlag,
        Phase::Waiting => Step::WaitForPackets,
        Phase::Fetching => Step::FetchPacket,
        Phase::Holding(n) => Step::Deliver(n),
        Phase::Finished => Step::Shutdown,
    }
}

impl Phase {
    /// Where a capture starts.
    pub fn start() -> (p: Phase)
        ensures
            p == Phase::Checking,
    {
        Phase::Checking
    }

    /// What to do now.
    pub fn step(self) -> (s: Step)
        ensures
            s == step_of(self),
    {
        match self {
            Phase::Checking => Step::ReadStopFlag,
            Phase::Waiting => Step::WaitForPackets,
            Phase::Fetching => Step::FetchPacket,
            Phase::Holding(n) => Step::Deliver(n),
            Phase::Finished => Step::Shutdown,
        }
    }

    /// The phase after an event.
    pub fn after(self, event: Event) -> (p: Phase)
        ensures
            p == next_phase(self, event),
    {
        match (self, event) {
            (Phase::Checking, Event::StopFlag(stop)) => if stop {
                Phase::Finished
            } else {
                Phase::Waiting
            },
            (Phase::Waiting, Event::WaitEnded(ready)) => if ready {
                Phase::Fetching
            } else {
                Phase::Checking
            },
            (Phase::Fetching, Event::Packet(packet)) => match packet {
                Some(n) => if n > 0 {
                    Phase::Holding(n)
                } else {
                    Phase::Checking
                },
                None => Phase::Checking,
            },
            (Phase::Holding(_), Event::Delivered) => Phase::Fetching,
            _ => self,
        }
    }
}

/// The phase after some events.
pub open spec fn phase_after(phase: Phase, events: Seq<Event>) -> Phase
    decreases events.len(),
{
    if events.len() == 0 {
        phase
    } else {
        next_phase(phase_after(phase, events.drop_last()), events.last())
    }
}

/// Once over, a capture stays over.
pub proof fn finished_is_final(events: Seq<Event>)
    ensures
        phase_after(Phase::Finished, events) == Phase::Finished,
    decreases events.len(),
{
    if events.len() > 0 {
        finished_is_final(events.drop_last());
    }
}

/// A capture ends only when the stop flag was read and set; timeouts, failures and empty
/// packets do not end it.
pub proof fn only_the_stop_flag_ends_a_capture(phase: Phase, event: Event)
    requires
        phase != Phase::Finished,
        next_phase(phase, event) == Phase::Finished,
    ensures
        event == Event::StopFlag(true),
        phase == Phase::Checking,
{
}

/// Packets are fetched until there are none: each one that holds frames is delivered, and
/// then the next one is asked for.
pub proof fn packets_are_fetched_until_there_are_none(n: u32)
    ensures
        n > 0 ==> step_of(next_phase(Phase::Fetching, Event::Packet(Some(n)))) == Step::Deliver(n),
        n > 0 ==> next_phase(Phase::Holding(n), Event::Delivered) == Phase::Fetching,
        next_phase(Phase::Fetching, Event::Packet(Some(0))) == Phase::Checking,
{
}

/// The calls that set a capture up.
#[derive(Clone, Copy, PartialEq, Eq, Structural, Debug)]
pub enum Setup {
    SpawnThread,
    CreateEvent,
    Activate,
    GetActivateResult,
    CastClient,
    Initialize,
    SetEventHandle,
    GetService,
    Start,
}

/// What is said when a call fails, before the reason.
pub open spec fn setup_failure(call: Setup) -> Seq<char> {
    match call {
        Setup::SpawnThread => "не удалось запустить поток захвата: "@,
        Setup::CreateEvent => "event: "@,
        Setup::Activate => "ActivateAudioInterfaceAsync: "@,
        Setup::GetActivateResult => "GetActivateResult: "@,
        Setup::CastClient => "cast IAudioClient: "@,
        Setup::Initialize => "IAudioClient::Initialize: "@,
        Setup::SetEventHandle => "SetEventHandle: "@,
        Setup::GetService => "GetService(IAudioCaptureClient): "@,
        Setup::Start => "Start: "@,
    }
}

/// What is said when a call fails for the reason `reason`.
pub fn setup_error(call: Setup, reason: &String) -> (text: String)
    ensures
        text@ == setup_failure(call) + reason@,
{
    let front = match call {
        Setup::SpawnThread => "не удалось запустить поток захвата: ",
        Setup::CreateEvent => "event: ",
        Setup::Activate => "ActivateAudioInterfaceAsync: ",
        Setup::GetActivateResult => "GetActivateResult: ",
        Setup::CastClient => "cast IAudioClient: ",
        Setup::Initialize => "IAudioClient::Initialize: ",
        Setup::SetEventHandle => "SetEventHandle: ",
        Setup::GetService => "GetService(IAudioCaptureClient): ",
        Setup::Start => "Start: ",
    };
    joined(front, reason.as_str())
}

/// How the activation of a process capture came out.
pub enum Activation {
    /// It did not complete in time.
    TimedOut,
    /// It failed for this reason.
    Refused(String),
    /// It completed without a client.
    Empty,
    /// It completed.
    Ready,
}

/// What is said of an activation that failed.
pub open spec fn activation_failure(a: Activation) -> Option<Seq<char>> {
    match a {
        Activation::TimedOut => Some("активация process loopback не завершилась"@),
        Activation::Refused(reason) => Some(
            "process loopback недоступен ("@ + reason@
                + ") — нужна Windows 10 сборки 20348 или новее"@,
        ),
        Activation::Empty => Some("GetActivateResult вернул пусто"@),
        Activation::Ready => None,
    }
}

/// Whether an activation came out, and what to say if it did not.
pub fn check_activation(a: Activation) -> (r: Result<(), String>)
    ensures
        r is Ok <==> activation_failure(a) is None,
        r matches Err(text) ==> text@ == activation_failure(a)->0,
{
    match a {
        Activation::TimedOut => Err("активация process loopback не завершилась".to_owned()),
        Activation::Refused(reason) => {
            let front = joined("process loopback недоступен (", reason.as_str());
            Err(joined(front.as_str(), ") — нужна Windows 10 сборки 20348 или новее"))
        },
        Activation::Empty => Err("GetActivateResult вернул пусто".to_owned()),
        Activation::Ready => Ok(()),
    }
}

/// What the capture thread reported after it was started.
pub enum Report {
    Running,
    Failed(String),
    /// Nothing, in the time that it has.
    Silent,
}

/// The sample rate and the channels of a capture that was started, or what to say of one
/// that was not.
pub fn started(report: Report) -> (r: Result<(u32, u16), String>)
    ensures
        match report {
            Report::Running => r == Ok::<(u32, u16), String>((CAPTURE_RATE, CAPTURE_CHANNELS)),
            Report::Failed(e) => r == Err::<(u32, u16), String>(e),
            Report::Silent => r matches Err(text) && text@ == "захват процесса не ответил"@,
        },
{
    match report {
        Report::Running => Ok((CAPTURE_RATE, CAPTURE_CHANNELS)),
        Report::Failed(e) => Err(e),
        Report::Silent => Err("захват процесса не ответил".to_owned()),
    }
}

/// The gain that the endpoint applies, given whether it is muted and its level in decibels,
/// as far as they could be read. A muted endpoint has the gain zero, whatever its level.
pub fn endpoint_gain<M: Math>(m: &M, muted: Option<bool>, db: Option<Level>) -> (gain: Option<
    Level,
>)
    ensures
        gain is None <==> muted is None || muted == Some(false) && db is None,
        muted == Some(true) ==> gain == Some(Level { bits: ZERO }),
        muted == Some(false) && db is Some ==> call_ensures(M::gain, (m, db->0), gain->0),
{
    match muted {
        Some(true) => Some(Level { bits: ZERO }),
        Some(false) => match db {
            Some(level) => Some(m.gain(level)),
            None => None,
        },
        None => None,
    }
}

} // verus!
