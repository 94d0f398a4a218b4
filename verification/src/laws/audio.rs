//! Laws of captured audio and of the sources.

use crate::audio::{DeviceEntry, SharedAudio, SourceKind, StreamConfig, StreamPlan};
use crate::laws::analysis::newest;
use crate::laws::text::spells;
use crate::level::Level;
use vstd::prelude::*;

verus! {

/// What is captured comes out once and in order: of all frames pushed since the last drain a
/// drain gives the newest 96000, and leaves none behind.
pub proof fn captured_frames_come_out_once(
    first: &mut SharedAudio,
    second: &mut SharedAudio,
    third: &mut SharedAudio,
    a: &[[Level; 2]],
    b: &[[Level; 2]],
    out: Vec<[Level; 2]>,
)
    requires
        call_ensures(SharedAudio::push, (first, a), ()),
        call_ensures(SharedAudio::push, (second, b), ()),
        call_ensures(SharedAudio::drain, (third,), out),
        *old(second) == *final(first),
        *old(third) == *final(second),
    ensures
        out@ == newest(old(first).frames@ + a@ + b@, 96_000),
        final(third).frames@.len() == 0,
{
    let held = old(first).frames@;
    crate::audio::pieces_are_kept_in_order(held, a@, b@);
    assert(held + a@ + b@ =~= held + (a@ + b@));
    assert(out@ =~= newest(held + a@ + b@, 96_000));
}

/// Interleaved samples are cut into whole frames: the first two channels of each are left and
/// right, and a single channel is both.
pub proof fn frames_are_the_first_two_channels<T: Copy>(
    data: &[T],
    channels: u16,
    frames: Vec<[T; 2]>,
    i: int,
)
    requires
        call_ensures(crate::audio::deinterleave::<T>, (data, channels), frames),
        channels > 0,
    ensures
        frames@.len() * channels <= data@.len() < (frames@.len() + 1) * channels,
        0 <= i < frames@.len() ==> frames@[i][0] == data@[i * channels],
        0 <= i < frames@.len() && channels > 1 ==> frames@[i][1] == data@[i * channels + 1],
        0 <= i < frames@.len() && channels == 1 ==> frames@[i][1] == data@[i],
{
    let n = data@.len() as int;
    let c = channels as int;
    let q = n / c;
    vstd::arithmetic::div_mod::lemma_fundamental_div_mod(n, c);
    vstd::arithmetic::div_mod::lemma_mod_bound(n, c);
    vstd::arithmetic::div_mod::lemma_div_pos_is_pos(n, c);
    assert(frames@.len() == q);
    assert(q * c == c * q && (q + 1) * c == c * q + c) by (nonlinear_arith);
    if 0 <= i < q {
        assert(frames@[i] == crate::audio::frame_of(data@, c, i));
        assert(i * 1 == i);
    }
}

/// Without channels there are no frames.
pub proof fn without_channels_there_are_no_frames<T: Copy>(data: &[T], frames: Vec<[T; 2]>)
    requires
        call_ensures(crate::audio::deinterleave::<T>, (data, 0), frames),
    ensures
        frames@.len() == 0,
{
}

/// The outputs come first, by loopback, then the inputs, each labeled with its name and how it
/// is captured.
pub proof fn outputs_come_before_inputs<D>(
    outputs: Vec<(String, D)>,
    inputs: Vec<(String, D)>,
    entries: Vec<DeviceEntry<D>>,
    i: int,
)
    requires
        call_ensures(crate::audio::list_devices::<D>, (outputs, inputs), entries),
        0 <= i < entries@.len(),
    ensures
        entries@.len() == outputs@.len() + inputs@.len(),
        i < outputs@.len() ==> {
            &&& entries@[i].kind is Loopback
            &&& entries@[i].device == outputs@[i].1
            &&& entries@[i].label@ == outputs@[i].0@ + " · loopback"@
        },
        i >= outputs@.len() ==> {
            &&& entries@[i].kind is Input
            &&& entries@[i].device == inputs@[i - outputs@.len()].1
            &&& entries@[i].label@ == inputs@[i - outputs@.len()].0@ + " · вход"@
        },
{
    if i >= outputs@.len() {
        let k = i - outputs@.len();
        assert(crate::audio::is_entry(
            entries@[outputs@.len() + k],
            inputs@[k],
            SourceKind::Input,
        ));
    }
}

/// The source to start with is the first output of the given name, and the first source where
/// there is none.
pub proof fn the_first_output_of_the_name_is_picked<D>(
    entries: &Vec<DeviceEntry<D>>,
    names: &Vec<String>,
    name: &String,
    picked: usize,
    k: int,
)
    requires
        call_ensures(crate::audio::default_source::<D>, (entries, names, name), picked),
        entries@.len() == names@.len(),
    ensures
        0 <= k < entries@.len() && entries@[k].kind is Loopback && names@[k]@ == name@ ==> {
            &&& picked <= k
            &&& entries@[picked as int].kind is Loopback
            &&& names@[picked as int]@ == name@
        },
        picked > 0 ==> picked < entries@.len() && entries@[picked as int].kind is Loopback
            && names@[picked as int]@ == name@,
{
    if 0 <= k < entries@.len() && entries@[k].kind is Loopback && names@[k]@ == name@ {
        assert(crate::audio::is_default(entries@, names@, name@, k));
    }
}

/// A stream is opened with the format that its device proposes, if that can be captured.
pub proof fn a_stream_has_the_format_of_its_device(
    kind: SourceKind,
    config: Result<StreamConfig, String>,
    plan: Result<StreamPlan, String>,
)
    requires
        call_ensures(crate::audio::plan_capture, (kind, config), plan),
    ensures
        plan is Ok <==> config is Ok && !(config->Ok_0.format is Other),
        plan is Ok ==> {
            &&& plan->Ok_0.sample_rate == config->Ok_0.sample_rate
            &&& plan->Ok_0.channels == config->Ok_0.channels
            &&& plan->Ok_0.samples is F32 <==> config->Ok_0.format is F32
            &&& plan->Ok_0.samples is I16 <==> config->Ok_0.format is I16
            &&& plan->Ok_0.samples is U16 <==> config->Ok_0.format is U16
            &&& plan->Ok_0.samples is I32 <==> config->Ok_0.format is I32
        },
        config is Err && kind is Loopback ==> plan->Err_0@ == "default_output_config failed: "@
            + config->Err_0@,
        config is Err && kind is Input ==> plan->Err_0@ == "default_input_config failed: "@
            + config->Err_0@,
        config is Ok && config->Ok_0.format is Other ==> plan->Err_0@
            == "unsupported sample format: "@ + config->Ok_0.format->Other_0@,
{
}

/// `text` reads like `48000 Hz · 2 ch`.
pub open spec fn is_status(text: Seq<char>, rate: u32, channels: u16) -> bool {
    exists|a: Seq<char>, b: Seq<char>| #[trigger]
        spells(a, rate as int) && #[trigger] spells(b, channels as int) && text == a + " Hz · "@ + b
            + " ch"@
}

/// What a status reads like.
pub proof fn lemma_status(rate: u32, channels: u16)
    ensures
        is_status(crate::audio::status_of(rate, channels), rate, channels),
{
    crate::laws::text::lemma_decimal(rate as nat);
    crate::laws::text::lemma_decimal(channels as nat);
    let a = crate::text::decimal(rate as nat);
    let b = crate::text::decimal(channels as nat);
    assert(spells(a, rate as int) && spells(b, channels as int));
}

/// The status gives the sample rate and the channels of the capture that runs.
pub proof fn the_status_gives_rate_and_channels(running: Option<(u32, u16)>, status: String)
    requires
        call_ensures(crate::audio::capture_status, (running,), status),
    ensures
        running is None ==> status@ == "нет захвата"@,
        running matches Some(r) ==> is_status(status@, r.0, r.1),
{
    if let Some(r) = running {
        lemma_status(r.0, r.1);
    }
}

/// A device goes by its name, and one without a name is unknown.
pub proof fn a_device_goes_by_its_name(described: Option<String>, name: String)
    requires
        call_ensures(crate::audio::device_name, (described,), name),
    ensures
        described matches Some(n) ==> name@ == n@,
        described is None ==> name@ == "Unknown"@,
{
}

} // verus!
