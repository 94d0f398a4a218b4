//! Captured audio, and the sources it can come from.

use crate::level::Level;
use crate::text::{decimal_text, joined};
use vstd::prelude::*;

verus! {

/// About 2 s of stereo audio at 48 kHz: what a buffer holds at most, so that a stalled
/// reader cannot grow memory.
pub const MAX_BUFFERED_FRAMES: usize = 96_000;

/// Frames that were captured and not yet fetched.
pub struct SharedAudio {
    pub frames: Vec<[Level; 2]>,
}

impl SharedAudio {
    /// The buffer is within its bound.
    pub open spec fn wf(self) -> bool {
        self.frames@.len() <= MAX_BUFFERED_FRAMES
    }

    /// An empty buffer.
    pub fn new() -> (s: Self)
        ensures
            s.wf(),
            s.frames@ == Seq::<[Level; 2]>::empty(),
    {
        SharedAudio { frames: Vec::new() }
    }

    /// Appends captured frames; the oldest give way once there are too many.
    pub fn push(&mut self, frames: &[[Level; 2]])
        ensures
            final(self).wf(),
            final(self).frames@ == crate::window::last_of(
                old(self).frames@ + frames@,
                MAX_BUFFERED_FRAMES as int,
            ),
    {
        let mut i: usize = 0;
        while i < frames.len()
            invariant
                i <= frames@.len(),
                self.frames@ =~= old(self).frames@ + frames@.take(i as int),
            decreases frames@.len() - i,
        {
            self.frames.push(frames[i]);
            i += 1;
        }
        assert(self.frames@ =~= old(self).frames@ + frames@);
        let len = self.frames.len();
        if len > MAX_BUFFERED_FRAMES {
            let kept = self.frames.split_off(len - MAX_BUFFERED_FRAMES);
            self.frames = kept;
            assert(self.frames@ =~= crate::window::last_of(
                old(self).frames@ + frames@,
                MAX_BUFFERED_FRAMES as int,
            ));
        }
    }

    /// Takes everything captured since the last call.
    pub fn drain(&mut self) -> (frames: Vec<[Level; 2]>)
        ensures
            frames@ == old(self).frames@,
            final(self).frames@ == Seq::<[Level; 2]>::empty(),
            final(self).wf(),
    {
        let mut frames: Vec<[Level; 2]> = Vec::new();
        std::mem::swap(&mut frames, &mut self.frames);
        frames
    }
}

impl Default for SharedAudio {
    fn default() -> (s: Self)
        ensures
            s.wf(),
            s.frames@ == Seq::<[Level; 2]>::empty(),
    {
        SharedAudio::new()
    }
}

/// Frames pushed in pieces stay in order, and of all that arrive between two drains the
/// newest survive: none is lost while they fit.
pub proof fn pieces_are_kept_in_order(
    held: Seq<[Level; 2]>,
    a: Seq<[Level; 2]>,
    b: Seq<[Level; 2]>,
)
    ensures
        crate::window::last_of(
            crate::window::last_of(held + a, MAX_BUFFERED_FRAMES as int) + b,
            MAX_BUFFERED_FRAMES as int,
        ) == crate::window::last_of(held + (a + b), MAX_BUFFERED_FRAMES as int),
        held.len() + a.len() + b.len() <= MAX_BUFFERED_FRAMES ==> crate::window::last_of(
            held + (a + b),
            MAX_BUFFERED_FRAMES as int,
        ) == held + (a + b),
{
    crate::window::lemma_last_of_concat(held + a, b, MAX_BUFFERED_FRAMES as int);
    assert(held + a + b =~= held + (a + b));
}

/// The frames of interleaved samples: the first two channels of each, or the only one twice.
/// A frame that is not complete is left out, and without channels there are no frames.
pub open spec fn frames_of<T>(data: Seq<T>, channels: int) -> Seq<[T; 2]> {
    if channels == 0 {
        Seq::empty()
    } else {
        Seq::new(
            (data.len() / channels as nat) as nat,
            |i: int| frame_of(data, channels, i),
        )
    }
}

/// The frame number `i` of interleaved samples.
pub open spec fn frame_of<T>(data: Seq<T>, channels: int, i: int) -> [T; 2] {
    [
        data[i * channels],
        data[if channels > 1 {
            i * channels + 1
        } else {
            i * channels
        }],
    ]
}

/// Cuts interleaved samples into stereo frames.
pub fn deinterleave<T: Copy>(data: &[T], channels: u16) -> (frames: Vec<[T; 2]>)
    ensures
        frames@ == frames_of(data@, channels as int),
{
    let mut frames: Vec<[T; 2]> = Vec::new();
    let ch = channels as usize;
    if ch == 0 {
        return frames;
    }
    let n = data.len() / ch;
    let mut i: usize = 0;
    while i < n
        invariant
            i <= n,
            ch == channels,
            ch > 0,
            n == data@.len() / (ch as nat),
            data@.len() <= usize::MAX,
            frames@ =~= frames_of(data@, channels as int).take(i as int),
        decreases n - i,
    {
        proof {
            vstd::arithmetic::div_mod::lemma_fundamental_div_mod(data@.len() as int, ch as int);
            assert(i * ch + ch <= ch * n) by (nonlinear_arith)
                requires
                    0 <= i < n,
                    0 < ch,
            ;
        }
        let l = data[i * ch];
        let r = if ch > 1 {
            data[i * ch + 1]
        } else {
            l
        };
        let frame = [l, r];
        assert(frame == frame_of(data@, channels as int, i as int));
        frames.push(frame);
        i += 1;
    }
    frames
}

/// How a device is captured.
#[derive(Clone, Copy, PartialEq, Eq, Structural, Debug)]
pub enum SourceKind {
    /// An output device, by loopback: what the system plays.
    Loopback,
    /// An input device: a microphone, a line input or a virtual cable.
    Input,
}

/// One source that can be picked; `D` is the handle of the device.
pub struct DeviceEntry<D> {
    pub label: String,
    pub device: D,
    pub kind: SourceKind,
}

/// The name of a device, where it could be read.
pub fn device_name(described: Option<String>) -> (name: String)
    ensures
        name@ == (match described {
            Some(n) => n@,
            None => "Unknown"@,
        }),
{
    match described {
        Some(n) => n,
        None => "Unknown".to_owned(),
    }
}

/// The label of a source.
pub open spec fn label_of(name: Seq<char>, kind: SourceKind) -> Seq<char> {
    match kind {
        SourceKind::Loopback => name + " · loopback"@,
        SourceKind::Input => name + " · вход"@,
    }
}

/// `entry` stands for the device `device`.
pub open spec fn is_entry<D>(entry: DeviceEntry<D>, device: (String, D), kind: SourceKind) -> bool {
    &&& entry.label@ == label_of(device.0@, kind)
    &&& entry.device == device.1
    &&& entry.kind == kind
}

/// Appends an entry for each device.
fn append_entries<D>(out: &mut Vec<DeviceEntry<D>>, devices: Vec<(String, D)>, kind: SourceKind)
    ensures
        final(out)@.len() == old(out)@.len() + devices@.len(),
        forall|i: int| 0 <= i < old(out)@.len() ==> #[trigger] final(out)@[i] == old(out)@[i],
        forall|i: int|
            0 <= i < devices@.len() ==> is_entry(
                #[trigger] final(out)@[old(out)@.len() + i],
                devices@[i],
                kind,
            ),
{
    let mut rest = devices;
    let ghost start = out@.len();
    while rest.len() > 0
        invariant
            start == old(out)@.len(),
            rest@.len() <= devices@.len(),
            rest@ == devices@.skip(devices@.len() - rest@.len()),
            out@.len() == start + devices@.len() - rest@.len(),
            forall|i: int| 0 <= i < start ==> #[trigger] out@[i] == old(out)@[i],
            forall|i: int|
                0 <= i < devices@.len() - rest@.len() ==> is_entry(
                    #[trigger] out@[start + i],
                    devices@[i],
                    kind,
                ),
        decreases rest@.len(),
    {
        let (name, device) = rest.remove(0);
        let label = match kind {
            SourceKind::Loopback => joined(name.as_str(), " · loopback"),
            SourceKind::Input => joined(name.as_str(), " · вход"),
        };
        out.push(DeviceEntry { label, device, kind });
    }
}

/// All sources that can be picked: the output devices, by loopback, then the input devices.
pub fn list_devices<D>(outputs: Vec<(String, D)>, inputs: Vec<(String, D)>) -> (entries: Vec<
    DeviceEntry<D>,
>)
    ensures
        entries@.len() == outputs@.len() + inputs@.len(),
        forall|i: int|
            0 <= i < outputs@.len() ==> is_entry(
                #[trigger] entries@[i],
                outputs@[i],
                SourceKind::Loopback,
            ),
        forall|i: int|
            0 <= i < inputs@.len() ==> is_entry(
                #[trigger] entries@[outputs@.len() + i],
                inputs@[i],
                SourceKind::Input,
            ),
{
    let mut entries: Vec<DeviceEntry<D>> = Vec::new();
    let ghost outs = outputs@;
    append_entries(&mut entries, outputs, SourceKind::Loopback);
    let ghost before = entries@;
    append_entries(&mut entries, inputs, SourceKind::Input);
    proof {
        assert forall|i: int| 0 <= i < outs.len() implies is_entry(
            #[trigger] entries@[i],
            outs[i],
            SourceKind::Loopback,
        ) by {
            assert(before[0 + i] == entries@[i]);
        }
    }
    entries
}

/// The entry `i` is a loopback source with the name `name`.
pub open spec fn is_default<D>(
    entries: Seq<DeviceEntry<D>>,
    names: Seq<String>,
    name: Seq<char>,
    i: int,
) -> bool {
    entries[i].kind == SourceKind::Loopback && names[i]@ == name
}

/// `selected` is the first loopback source with the name `name`, or the first source where
/// there is none.
pub open spec fn is_selected<D>(
    entries: Seq<DeviceEntry<D>>,
    names: Seq<String>,
    name: Seq<char>,
    selected: int,
) -> bool {
    if exists|i: int| 0 <= i < entries.len() && is_default(entries, names, name, i) {
        &&& 0 <= selected < entries.len()
        &&& is_default(entries, names, name, selected)
        &&& forall|i: int| 0 <= i < selected ==> !is_default(entries, names, name, i)
    } else {
        selected == 0
    }
}

/// The source to start with: the first loopback source whose device has the name
/// `default_name`, or the first source. `names` are the names of the devices.
pub fn default_source<D>(
    entries: &Vec<DeviceEntry<D>>,
    names: &Vec<String>,
    default_name: &String,
) -> (selected: usize)
    requires
        names@.len() == entries@.len(),
    ensures
        is_selected(entries@, names@, default_name@, selected as int),
{
    let mut i: usize = 0;
    while i < entries.len()
        invariant
            i <= entries@.len(),
            names@.len() == entries@.len(),
            forall|j: int| 0 <= j < i ==> !is_default(entries@, names@, default_name@, j),
        decreases entries@.len() - i,
    {
        if entries[i].kind == SourceKind::Loopback && names[i] == *default_name {
            assert(is_default(entries@, names@, default_name@, i as int));
            return i;
        }
        i += 1;
    }
    0
}

/// The kind of samples that a device delivers.
pub enum StreamFormat {
    F32,
    I16,
    U16,
    I32,
    /// Another one, by its name.
    Other(String),
}

/// The kinds of samples that can be captured.
#[derive(Clone, Copy, PartialEq, Eq, Structural, Debug)]
pub enum SampleType {
    F32,
    I16,
    U16,
    I32,
}

/// The format that a device proposes.
pub struct StreamConfig {
    pub format: StreamFormat,
    pub sample_rate: u32,
    pub channels: u16,
}

/// A stream to be opened.
#[derive(Clone, Copy, PartialEq, Eq, Structural, Debug)]
pub struct StreamPlan {
    pub samples: SampleType,
    pub sample_rate: u32,
    pub channels: u16,
}

/// The samples to capture in the format `format`, if it is supported.
pub open spec fn sample_type(format: StreamFormat) -> Option<SampleType> {
    match format {
        StreamFormat::F32 => Some(SampleType::F32),
        StreamFormat::I16 => Some(SampleType::I16),
        StreamFormat::U16 => Some(SampleType::U16),
        StreamFormat::I32 => Some(SampleType::I32),
        StreamFormat::Other(_) => None,
    }
}

/// What is said when the format of a device cannot be read.
pub open spec fn config_failure(kind: SourceKind) -> Seq<char> {
    match kind {
        SourceKind::Loopback => "default_output_config failed: "@,
        SourceKind::Input => "default_input_config failed: "@,
    }
}

/// The stream to open for a source of the kind `kind`, given the format that its device
/// proposes or the reason why there is none.
pub fn plan_capture(kind: SourceKind, config: Result<StreamConfig, String>) -> (plan: Result<
    StreamPlan,
    String,
>)
    ensures
        match config {
            Err(e) => plan matches Err(text) && text@ == config_failure(kind) + e@,
            Ok(c) => match sample_type(c.format) {
                Some(samples) => plan == Ok::<StreamPlan, String>(
                    StreamPlan { samples, sample_rate: c.sample_rate, channels: c.channels },
                ),
                None => plan matches Err(text) && text@ == "unsupported sample format: "@
                    + c.format->Other_0@,
            },
        },
{
    let config = match config {
        Ok(c) => c,
        Err(e) => {
            let text = match kind {
                SourceKind::Loopback => joined("default_output_config failed: ", e.as_str()),
                SourceKind::Input => joined("default_input_config failed: ", e.as_str()),
            };
            return Err(text);
        },
    };
    let samples = match config.format {
        StreamFormat::F32 => SampleType::F32,
        StreamFormat::I16 => SampleType::I16,
        StreamFormat::U16 => SampleType::U16,
        StreamFormat::I32 => SampleType::I32,
        StreamFormat::Other(name) => {
            return Err(joined("unsupported sample format: ", name.as_str()));
        },
    };
    Ok(StreamPlan { samples, sample_rate: config.sample_rate, channels: config.channels })
}

/// How a running capture is described: `48000 Hz · 2 ch`.
pub open spec fn status_of(sample_rate: u32, channels: u16) -> Seq<char> {
    crate::text::decimal(sample_rate as nat) + " Hz · "@ + crate::text::decimal(channels as nat)
        + " ch"@
}

/// Describes the capture, given its sample rate and channels while there is one.
pub fn capture_status(running: Option<(u32, u16)>) -> (status: String)
    ensures
        status@ == (match running {
            Some(c) => status_of(c.0, c.1),
            None => "нет захвата"@,
        }),
{
    match running {
        Some((rate, channels)) => {
            let front = joined(decimal_text(rate as u64).as_str(), " Hz · ");
            let middle = joined(front.as_str(), decimal_text(channels as u64).as_str());
            joined(middle.as_str(), " ch")
        },
        None => "нет захвата".to_owned(),
    }
}

} // verus!
