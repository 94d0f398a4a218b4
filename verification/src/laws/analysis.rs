//! Laws of the analysis of a stream.

use crate::analysis::{Analyzer, Snapshot};
use crate::level::Level;
use crate::math::Math;
use vstd::arithmetic::power2::pow2;
use vstd::prelude::*;

verus! {

/// `db` is the reading of the peak `v`: -120 dB up to 1e-9, and from there on what the formula
/// for decibels gives for it.
pub open spec fn reads<M: Math>(m: &M, v: Level, db: Level) -> bool {
    let floor = Level { bits: 0x3089_705F };
    &&& !v.nan() && v.units() <= floor.units() ==> !db.nan() && db.units() == -120 * pow2(149)
    &&& v.nan() || v.units() > floor.units() ==> call_ensures(M::decibels, (m, v), db)
}

/// `v` is louder than the floor.
pub open spec fn is_above_floor(v: Level) -> bool {
    !v.nan() && v.units() > (Level { bits: 0x3089_705F }).units()
}

/// The formula for decibels rises with its argument, is negative below 1 and zero at 1, and
/// rises by `step` when its argument doubles.
pub open spec fn rises_like_a_logarithm<M: Math>(m: &M, step: int) -> bool {
    &&& forall|a: Level, b: Level, x: Level, y: Level| #[trigger]
        call_ensures(M::decibels, (m, a), x) && #[trigger] call_ensures(M::decibels, (m, b), y)
            && is_above_floor(a) && is_above_floor(b) && a.units() <= b.units() ==> x.units()
            <= y.units()
    &&& forall|a: Level, b: Level, x: Level, y: Level| #[trigger]
        call_ensures(M::decibels, (m, a), x) && #[trigger] call_ensures(M::decibels, (m, b), y)
            && is_above_floor(a) && b.units() == 2 * a.units() ==> y.units() == x.units() + step
    &&& forall|a: Level, x: Level| #[trigger]
        call_ensures(M::decibels, (m, a), x) && is_above_floor(a) ==> !x.nan() && (a.units()
            < pow2(149) ==> x.units() < 0) && (a.units() == pow2(149) ==> x.units() == 0)
}

/// A peak reads in decibels below full scale: full scale reads 0, less reads below 0, a larger
/// peak reads no lower, twice the peak reads higher by the same step everywhere, and up to 1e-9
/// the reading is -120.
pub proof fn peaks_read_in_decibels<M: Math>(
    m: &M,
    v: Level,
    w: Level,
    x: Level,
    y: Level,
    step: int,
)
    requires
        call_ensures(crate::analysis::to_db::<M>, (m, v), x),
        call_ensures(crate::analysis::to_db::<M>, (m, w), y),
        rises_like_a_logarithm(m, step),
    ensures
        reads(m, v, x),
        is_above_floor(v) && v.units() < pow2(149) ==> x.units() < 0,
        v.units() == pow2(149) && !v.nan() && is_above_floor(v) ==> x.units() == 0,
        is_above_floor(v) && is_above_floor(w) && v.units() <= w.units() ==> x.units()
            <= y.units(),
        is_above_floor(v) && !w.nan() && w.units() == 2 * v.units() ==> y.units() == x.units()
            + step,
        !v.nan() && v.units() <= (Level { bits: 0x3089_705F }).units() ==> x.units() == -120
            * pow2(149),
{
    crate::laws::numbers::lemma_whole_numbers();
    crate::laws::numbers::lemma_small_numbers();
}

/// The reading of a peak is an outcome of the formula for decibels, or the floor.
proof fn lemma_reads<M: Math>(m: &M, v: Level, db: Level)
    requires
        crate::analysis::is_db(m, v, db),
    ensures
        reads(m, v, db),
{
    crate::laws::numbers::lemma_whole_numbers();
    crate::laws::numbers::lemma_small_numbers();
}

/// What a buffer of at most `cap` items holds after `x` has come in.
pub open spec fn shifted<T>(items: Seq<T>, x: T, cap: int) -> Seq<T> {
    if items.len() < cap {
        items.push(x)
    } else {
        items.skip(1).push(x)
    }
}

/// A frame enters with both channels: the newest of the last 4096 mono samples is an outcome
/// of mixing the left with the right one, and the newest of the last 2048 points of the
/// goniometer is the frame itself.
pub proof fn a_frame_is_mixed_from_both_channels<M: Math>(
    m: &M,
    a: &mut Analyzer<M>,
    frame: [Level; 2],
)
    requires
        call_ensures(Analyzer::<M>::track_frame, (a, m, frame), ()),
        old(a).wf(),
    ensures
        final(a).mono@.len() > 0,
        call_ensures(M::mix, (m, frame[0], frame[1]), final(a).mono@.last()),
        final(a).mono@ == shifted(old(a).mono@, final(a).mono@.last(), 4096),
        final(a).gonio@ == shifted(old(a).gonio@, frame, 2048),
{
    let s = old(a).track();
    let t = final(a).track();
    let mixed = choose|mixed: Level| #[trigger]
        call_ensures(M::mix, (m, frame[0], frame[1]), mixed) && t.mono == crate::window::last_of(
            s.mono.push(mixed),
            4096,
        );
    assert(t.mono =~= shifted(s.mono, mixed, 4096));
    assert(t.gonio =~= shifted(s.gonio, frame, 2048));
}

/// `next` is the level of the bin `i` of `spectrum` after `prev`: no less than 1e-9 is measured,
/// a rise shows at once, and a fall covers the share `share` of the way.
pub open spec fn follows<M: Math>(
    m: &M,
    spectrum: M::Spectrum,
    i: int,
    prev: Level,
    share: Level,
    next: Level,
) -> bool {
    let floor = Level { bits: 0x3089_705F };
    exists|magnitude: Level, x: Level, db: Level|
        {
            &&& #[trigger] call_ensures(M::magnitude, (m, &spectrum, i as usize), magnitude)
            &&& #[trigger] call_ensures(M::decibels, (m, x), db)
            &&& if is_above_floor(magnitude) {
                x == magnitude
            } else {
                !x.nan() && x.units() == floor.units()
            }
            &&& if !db.nan() && !prev.nan() && db.units() > prev.units() {
                next == db
            } else {
                call_ensures(M::approach, (m, prev, db, share), next)
            }
        }
}

/// `next` is the smoothed spectrum after `prev`, when the last mono samples are `mono`: windowed
/// with the newest one at the end of the window and silence before the oldest one.
pub open spec fn is_followed<M: Math>(
    m: &M,
    mono: Seq<Level>,
    prev: Seq<Level>,
    share: Level,
    next: Seq<Level>,
) -> bool {
    exists|buffer: Vec<Level>, spectrum: M::Spectrum|
        {
            &&& #[trigger] call_ensures(M::transform, (m, &buffer), spectrum)
            &&& buffer@.len() == 4096
            &&& forall|k: int|
                #![trigger buffer@[4095 - k]]
                0 <= k < mono.len() ==> call_ensures(
                    M::windowed,
                    (m, mono[mono.len() - 1 - k], (4095 - k) as usize),
                    buffer@[4095 - k],
                )
            &&& forall|k: int|
                mono.len() <= k < 4096 ==> (#[trigger] buffer@[4095 - k]).bits == 0
            &&& forall|i: int|
                0 <= i < 2048 ==> follows(m, spectrum, i, prev[i], share, #[trigger] next[i])
        }
}

/// `b` holds the columns of `a` but for the first `gone`.
pub open spec fn same_columns(a: Seq<Vec<Level>>, gone: int, b: Seq<Vec<Level>>) -> bool {
    &&& b.len() == a.len() - gone
    &&& forall|i: int| 0 <= i < b.len() ==> (#[trigger] b[i])@ == a[i + gone]@
}

/// Columns with the same views are the same.
proof fn lemma_same_columns(a: Seq<Vec<Level>>, gone: int, b: Seq<Vec<Level>>)
    requires
        0 <= gone <= a.len(),
        crate::analysis::column_views(b) == crate::analysis::column_views(a).skip(gone),
    ensures
        same_columns(a, gone, b),
{
    let x = crate::analysis::column_views(a);
    let y = crate::analysis::column_views(b);
    assert(x.len() == a.len() && y.len() == b.len());
    assert forall|i: int| 0 <= i < b.len() implies (#[trigger] b[i])@ == a[i + gone]@ by {
        assert(y[i] == x[i + gone]);
    }
}

/// Every hop of samples there is a column: the last 4096 mono samples are windowed with the
/// newest one at the end of the window and silence before the oldest one, and each of the 2048
/// bins follows its own magnitude. Between hops nothing changes.
pub proof fn every_hop_is_a_column<M: Math>(m: &M, a: &mut Analyzer<M>, frame: [Level; 2])
    requires
        call_ensures(Analyzer::<M>::track_frame, (a, m, frame), ()),
        old(a).wf(),
    ensures
        final(a).spectrum_hop == old(a).spectrum_hop,
        final(a).release_coeff == old(a).release_coeff,
        old(a).since_spectrum + 1 < old(a).spectrum_hop ==> {
            &&& final(a).since_spectrum == old(a).since_spectrum + 1
            &&& final(a).smooth_db@ == old(a).smooth_db@
            &&& same_columns(old(a).columns@, 0, final(a).columns@)
        },
        old(a).since_spectrum + 1 >= old(a).spectrum_hop ==> {
            let mono = final(a).mono@;
            &&& final(a).since_spectrum == 0
            &&& final(a).columns@.len() > 0
            &&& final(a).columns@.last()@ == final(a).smooth_db@
            &&& same_columns(
                old(a).columns@,
                if old(a).columns@.len() < 1024 {
                    0
                } else {
                    1
                },
                final(a).columns@.drop_last(),
            )
            &&& final(a).smooth_db@.len() == 2048
            &&& is_followed(
                m,
                mono,
                old(a).smooth_db@,
                old(a).release_coeff,
                final(a).smooth_db@,
            )
        },
{
    let s = old(a).track();
    let t = final(a).track();
    assert(s.columns.len() == old(a).columns@.len());
    assert(t.columns.len() == final(a).columns@.len());
    if old(a).since_spectrum + 1 < old(a).spectrum_hop {
        assert(s.columns.skip(0) =~= s.columns);
        lemma_same_columns(old(a).columns@, 0, final(a).columns@);
    } else {
        assert(t.columns.last() == t.smooth);
        assert(t.columns[t.columns.len() - 1] == final(a).columns@[t.columns.len() - 1]@);
        let gone: int = if old(a).columns@.len() < 1024 {
            0
        } else {
            1
        };
        let rest = final(a).columns@.drop_last();
        assert(crate::analysis::column_views(rest) =~= t.columns.drop_last());
        assert(t.columns.drop_last() =~= s.columns.skip(gone));
        lemma_same_columns(old(a).columns@, gone, rest);
        let mono = t.mono;
        assert(mono.len() <= 4096);
        let (buffer, spectrum) = choose|buffer: Vec<Level>, spectrum: M::Spectrum|
            crate::analysis::is_buffer(m, mono, buffer@) && #[trigger] call_ensures(
                M::transform,
                (m, &buffer),
                spectrum,
            ) && forall|i: int|
                0 <= i < t.smooth.len() ==> #[trigger] crate::analysis::bin_follows(
                    m,
                    spectrum,
                    i,
                    s.smooth[i],
                    s.release,
                    t.smooth[i],
                );
        assert forall|k: int|
            #![trigger buffer@[4095 - k]]
            0 <= k < mono.len() implies call_ensures(
            M::windowed,
            (m, mono[mono.len() - 1 - k], (4095 - k) as usize),
            buffer@[4095 - k],
        ) by {
            let i = 4095 - k;
            assert(call_ensures(
                M::windowed,
                (m, mono[i - (4096 - mono.len())], i as usize),
                buffer@[i],
            ));
        }
        assert forall|i: int| 0 <= i < 2048 implies follows(
            m,
            spectrum,
            i,
            s.smooth[i],
            s.release,
            #[trigger] t.smooth[i],
        ) by {
            lemma_bin(m, spectrum, i, s.smooth[i], s.release, t.smooth[i]);
        }
        assert forall|k: int| mono.len() <= k < 4096 implies (
        #[trigger] buffer@[4095 - k]).bits == 0 by {
            let i = 4095 - k;
            assert(buffer@[i] == Level { bits: 0 });
        }
        assert(buffer@.len() == 4096);
        assert(is_followed(m, mono, s.smooth, s.release, t.smooth));
    }
}

/// How a bin follows its magnitude.
proof fn lemma_bin<M: Math>(
    m: &M,
    spectrum: M::Spectrum,
    i: int,
    prev: Level,
    share: Level,
    next: Level,
)
    requires
        crate::analysis::bin_follows(m, spectrum, i, prev, share, next),
    ensures
        follows(m, spectrum, i, prev, share, next),
{
    crate::laws::numbers::lemma_small_numbers();
    let floor = Level { bits: 0x3089_705F };
    let db = choose|db: Level| #[trigger]
        crate::analysis::is_bin_level(m, spectrum, i, db) && crate::analysis::is_smoothed(
            m,
            prev,
            db,
            share,
            next,
        );
    let magnitude = choose|magnitude: Level| #[trigger]
        call_ensures(M::magnitude, (m, &spectrum, i as usize), magnitude) && call_ensures(
            M::decibels,
            (m, magnitude.max_with(floor)),
            db,
        );
    let x = magnitude.max_with(floor);
    assert(call_ensures(M::decibels, (m, x), db));
}

/// `b` holds the same samples, spectrum and columns as `a`; the points of the goniometer may
/// differ.
pub open spec fn same_spectra<M: Math>(a: Analyzer<M>, b: Analyzer<M>) -> bool {
    &&& b.mono@ == a.mono@
    &&& b.smooth_db@ == a.smooth_db@
    &&& b.spectrum_hop == a.spectrum_hop
    &&& b.since_spectrum == a.since_spectrum
    &&& b.release_coeff == a.release_coeff
    &&& same_columns(a.columns@, 0, b.columns@)
}

/// The two channels weigh the same: where mixing does not depend on the order, a stream with
/// its channels swapped leaves the same mono samples, spectrum and columns.
pub proof fn swapped_channels_have_one_spectrum<M: Math>(
    m: &M,
    a: &mut Analyzer<M>,
    b: &mut Analyzer<M>,
    f: &[[Level; 2]],
    g: &[[Level; 2]],
)
    requires
        crate::math::spectrum_is_settled(m),
        forall|l: Level, r: Level, p: Level, q: Level| #[trigger]
            call_ensures(M::mix, (m, l, r), p) && #[trigger] call_ensures(M::mix, (m, r, l), q)
                ==> p == q,
        f@.len() == g@.len(),
        forall|i: int|
            0 <= i < f@.len() ==> (#[trigger] f@[i])[0] == g@[i][1] && f@[i][1] == g@[i][0],
        old(a).wf(),
        old(b).wf(),
        same_spectra(*old(a), *old(b)),
        call_ensures(Analyzer::<M>::process, (a, m, f), ()),
        call_ensures(Analyzer::<M>::process, (b, m, g), ()),
    ensures
        same_spectra(*final(a), *final(b)),
{
    let s = old(a).track();
    let z = old(b).track();
    let t = final(a).track();
    let w = final(b).track();
    assert(s.columns =~= z.columns) by {
        assert forall|i: int| 0 <= i < s.columns.len() implies s.columns[i] == z.columns[i] by {
            assert(old(b).columns@[i]@ == old(a).columns@[i + 0]@);
        }
    }
    lemma_swapped(m, s, z, f@, g@, t, w);
    assert(t.columns.skip(0) =~= t.columns);
    lemma_same_columns(final(a).columns@, 0, final(b).columns@);
}

/// Swapped streams, taken in from states that differ in the goniometer alone.
proof fn lemma_swapped<M: Math>(
    m: &M,
    s: crate::analysis::TrackState,
    z: crate::analysis::TrackState,
    f: Seq<[Level; 2]>,
    g: Seq<[Level; 2]>,
    t: crate::analysis::TrackState,
    w: crate::analysis::TrackState,
)
    requires
        crate::math::spectrum_is_settled(m),
        forall|l: Level, r: Level, p: Level, q: Level| #[trigger]
            call_ensures(M::mix, (m, l, r), p) && #[trigger] call_ensures(M::mix, (m, r, l), q)
                ==> p == q,
        f.len() == g.len(),
        forall|i: int| 0 <= i < f.len() ==> (#[trigger] f[i])[0] == g[i][1] && f[i][1] == g[i][0],
        s.wf(),
        z == (crate::analysis::TrackState { gonio: z.gonio, ..s }),
        crate::analysis::takes_samples(m, s, f, t),
        crate::analysis::takes_samples(m, z, g, w),
    ensures
        t.wf(),
        w == (crate::analysis::TrackState { gonio: w.gonio, ..t }),
    decreases f.len(),
{
    if f.len() > 0 {
        let u = choose|u: crate::analysis::TrackState|
            crate::analysis::takes_samples(m, s, f.drop_last(), u)
                && #[trigger] crate::analysis::takes_sample(m, u, f.last(), t);
        let v = choose|v: crate::analysis::TrackState|
            crate::analysis::takes_samples(m, z, g.drop_last(), v)
                && #[trigger] crate::analysis::takes_sample(m, v, g.last(), w);
        lemma_swapped(m, s, z, f.drop_last(), g.drop_last(), u, v);
        crate::analysis::sample_keeps_wf(m, u, f.last(), t);
        let i = f.len() - 1;
        assert(f[i][0] == g[i][1] && f[i][1] == g[i][0]);
        assert(t.mono == w.mono);
        if u.since + 1 >= u.hop {
            crate::analysis::lemma_spectrum_settled(
                m,
                t.mono,
                u.smooth,
                u.release,
                t.smooth,
                w.smooth,
            );
        }
        assert(w =~= (crate::analysis::TrackState { gonio: w.gonio, ..t }));
    }
}

/// The last `n` of `items`, or all of them.
pub open spec fn newest<T>(items: Seq<T>, n: int) -> Seq<T> {
    if items.len() <= n {
        items
    } else {
        items.subrange(items.len() - n, items.len() as int)
    }
}

/// `b` is `a` after `frames`: each frame is weighed in turn into the power ring and mixed into
/// the mono samples, the goniometer and the correlation hold the last frames, and the held peaks
/// are the largest. There are as many more columns as hops have passed since the last one, of
/// which the newest 1024 wait.
pub open spec fn has_taken<M: Math>(
    m: &M,
    a: Analyzer<M>,
    frames: Seq<[Level; 2]>,
    b: Analyzer<M>,
) -> bool {
    &&& b.gonio@ == newest(a.gonio@ + frames, 2048)
    &&& b.correlation.ring@ == newest(a.correlation.ring@ + frames, a.correlation.cap as int)
    &&& b.correlation.cap == a.correlation.cap
    &&& crate::laws::loudness::has_weighed(m, a.loudness, frames, b.loudness)
    &&& crate::laws::loudness::has_held(a.loudness, frames, b.loudness, 0)
    &&& crate::laws::loudness::has_held(a.loudness, frames, b.loudness, 1)
    &&& exists|mixed: Seq<Level>| #[trigger]
        are_mixed(m, frames, mixed) && b.mono@ == newest(a.mono@ + mixed, 4096)
    &&& b.since_spectrum == (a.since_spectrum + frames.len()) % (a.spectrum_hop as int)
    &&& b.columns@.len() == vstd::math::min(
        1024,
        a.columns@.len() + (a.since_spectrum + frames.len()) / (a.spectrum_hop as int),
    )
    &&& b.columns@.len() > 0 ==> b.columns@.last()@ == b.smooth_db@
    &&& b.sample_rate == a.sample_rate
    &&& b.spectrum_hop == a.spectrum_hop
    &&& b.release_coeff == a.release_coeff
}

/// What frames leave behind.
pub proof fn lemma_has_taken<M: Math>(
    m: &M,
    a: Analyzer<M>,
    frames: Seq<[Level; 2]>,
    b: Analyzer<M>,
)
    requires
        crate::analysis::is_processed(m, a, frames, b),
        a.wf(),
    ensures
        has_taken(m, a, frames, b),
{
    let s = a.track();
    let t = b.track();
    crate::analysis::goniometer_holds_the_last_frames(m, s, frames, t);
    assert(t.gonio =~= newest(s.gonio + frames, 2048));
    crate::analysis::columns_follow_the_sample_clock(m, s, frames, t);
    let emitted = choose|emitted: Seq<Seq<Level>>|
        emitted.len() == (s.since + frames.len()) / s.hop && t.columns
            == #[trigger] crate::window::last_of(s.columns + emitted, 1024);
    assert(s.columns.len() == a.columns@.len());
    assert(t.columns.len() == b.columns@.len());
    if t.columns.len() > 0 {
        assert(t.columns[t.columns.len() - 1] == b.columns@[t.columns.len() - 1]@);
    }
    crate::correlation::window_holds_the_last_frames(m, a.correlation@, frames, b.correlation@);
    assert(b.correlation@.frames =~= newest(
        a.correlation@.frames + frames,
        a.correlation.cap as int,
    ));
    crate::laws::loudness::lemma_has_weighed(m, a.loudness, frames, b.loudness);
    crate::laws::loudness::lemma_has_held(m, a.loudness, frames, b.loudness, 0);
    crate::laws::loudness::lemma_has_held(m, a.loudness, frames, b.loudness, 1);
    let mixed = lemma_mixed(m, s, frames, t);
    assert(are_mixed(m, frames, mixed));
}

/// `mixed` holds the frames, each mixed from its own two channels.
pub open spec fn are_mixed<M: Math>(m: &M, frames: Seq<[Level; 2]>, mixed: Seq<Level>) -> bool {
    &&& mixed.len() == frames.len()
    &&& forall|i: int|
        0 <= i < frames.len() ==> call_ensures(
            M::mix,
            (m, frames[i][0], frames[i][1]),
            #[trigger] mixed[i],
        )
}

/// The mono samples of a stream.
proof fn lemma_mixed<M: Math>(
    m: &M,
    s: crate::analysis::TrackState,
    frames: Seq<[Level; 2]>,
    t: crate::analysis::TrackState,
) -> (mixed: Seq<Level>)
    requires
        crate::analysis::takes_samples(m, s, frames, t),
        s.mono.len() <= 4096,
    ensures
        are_mixed(m, frames, mixed),
        t.mono == newest(s.mono + mixed, 4096),
    decreases frames.len(),
{
    if frames.len() == 0 {
        let none = Seq::<Level>::empty();
        assert(s.mono + none =~= s.mono);
        none
    } else {
        let u = choose|u: crate::analysis::TrackState|
            crate::analysis::takes_samples(m, s, frames.drop_last(), u)
                && #[trigger] crate::analysis::takes_sample(m, u, frames.last(), t);
        let earlier = lemma_mixed(m, s, frames.drop_last(), u);
        let x = choose|x: Level| #[trigger]
            call_ensures(M::mix, (m, frames.last()[0], frames.last()[1]), x) && t.mono
                == crate::window::last_of(u.mono.push(x), 4096);
        let mixed = earlier.push(x);
        assert forall|i: int| 0 <= i < frames.len() implies call_ensures(
            M::mix,
            (m, frames[i][0], frames[i][1]),
            #[trigger] mixed[i],
        ) by {
            if i < frames.len() - 1 {
                assert(earlier[i] == mixed[i]);
                assert(frames.drop_last()[i] == frames[i]);
            }
        }
        assert(s.mono + mixed =~= (s.mono + earlier).push(x));
        assert(t.mono =~= newest(s.mono + mixed, 4096));
        mixed
    }
}

/// Every meter takes in every frame, however many come at once.
pub proof fn a_stream_reaches_every_meter<M: Math>(
    m: &M,
    a: &mut Analyzer<M>,
    frames: &[[Level; 2]],
)
    requires
        call_ensures(Analyzer::<M>::process, (a, m, frames), ()),
        old(a).wf(),
    ensures
        has_taken(m, *old(a), frames@, *final(a)),
{
    lemma_has_taken(m, *old(a), frames@, *final(a));
}

/// The columns of a hop of `hop` samples at the rate `rate`, when `hz` columns per second are
/// asked for: at least one column per second and at most one per sample.
pub open spec fn is_hop_for<M: Math>(m: &M, rate: u32, hz: Level, hop: Level) -> bool {
    exists|h: Level, samples: Level| #[trigger]
        call_ensures(M::samples_per, (m, rate, h), samples) && (if !hz.nan() && hz.units() > pow2(
            149,
        ) {
            h == hz
        } else {
            !h.nan() && h.units() == pow2(149)
        }) && (if !samples.nan() && samples.units() > pow2(149) {
            hop == samples
        } else {
            !hop.nan() && hop.units() == pow2(149)
        })
}

/// `a` makes a column every `hop` samples, cut to whole ones, and a fall covers in one of them
/// the share of a release with a time constant of 0.04 s.
pub open spec fn is_paced<M: Math>(m: &M, a: Analyzer<M>, hz: Level) -> bool {
    exists|hop: Level| #[trigger]
        is_hop_for(m, a.sample_rate, hz, hop) && call_ensures(
            M::release,
            (m, hop, a.sample_rate, Level { bits: 0x3D23_D70A }),
            a.release_coeff,
        ) && a.spectrum_hop * pow2(149) <= hop.units() && (a.spectrum_hop < usize::MAX
            ==> hop.units() < (a.spectrum_hop + 1) * pow2(149))
}

/// How an analyzer is paced, as its hop and release show.
pub proof fn lemma_paced<M: Math>(
    m: &M,
    s: crate::analysis::TrackState,
    hz: Level,
    a: Analyzer<M>,
)
    requires
        crate::analysis::is_rated(m, s, a.sample_rate, hz, a.track()),
    ensures
        is_paced(m, a, hz),
{
    crate::laws::numbers::lemma_whole_numbers();
    let one = Level { bits: 0x3F80_0000 };
    let t = a.track();
    let hop = choose|hop: Level|
        crate::analysis::is_hop(m, a.sample_rate, hz, hop) && #[trigger] call_ensures(
            M::release,
            (m, hop, a.sample_rate, Level { bits: 0x3D23_D70A }),
            t.release,
        ) && t == (crate::analysis::TrackState {
            hop: hop.floor_index(),
            since: 0,
            release: t.release,
            ..s
        });
    let samples = choose|samples: Level| #[trigger]
        call_ensures(M::samples_per, (m, a.sample_rate, hz.max_with(one)), samples) && hop
            == samples.max_with(one);
    let h = hz.max_with(one);
    assert(call_ensures(M::samples_per, (m, a.sample_rate, h), samples));
    assert(is_hop_for(m, a.sample_rate, hz, hop));
    let p = pow2(149) as int;
    let u = hop.units();
    assert(!hop.nan() && u >= p);
    vstd::arithmetic::div_mod::lemma_fundamental_div_mod(u, p);
    vstd::arithmetic::div_mod::lemma_mod_bound(u, p);
    let q = u / p;
    assert(p * q <= u < p * (q + 1)) by (nonlinear_arith)
        requires
            u == p * q + u % p,
            0 <= u % p < p,
    ;
    let n = a.spectrum_hop as int;
    assert(n == t.hop && t.hop == hop.floor_index());
    assert(n <= q);
    assert(n * p <= q * p) by (nonlinear_arith)
        requires
            n <= q,
            p > 0,
    ;
    assert(q * p == p * q && (q + 1) * p == p * (q + 1)) by (nonlinear_arith);
    if n < usize::MAX {
        assert(n == q);
    }
}

/// Asking for a column rate paces the columns and their release anew, starts the clock, and
/// changes nothing else.
pub proof fn a_column_rate_paces_the_columns<M: Math>(m: &M, a: &mut Analyzer<M>, hz: Level)
    requires
        call_ensures(Analyzer::<M>::set_column_rate, (a, m, hz), ()),
    ensures
        is_paced(m, *final(a), hz),
        final(a).since_spectrum == 0,
        final(a).sample_rate == old(a).sample_rate,
        final(a).mono@ == old(a).mono@,
        final(a).gonio@ == old(a).gonio@,
        final(a).smooth_db@ == old(a).smooth_db@,
        same_columns(old(a).columns@, 0, final(a).columns@),
        final(a).loudness == old(a).loudness,
        final(a).correlation == old(a).correlation,
{
    let s = old(a).track();
    let t = final(a).track();
    lemma_paced(m, s, hz, *final(a));
    assert(t.mono == s.mono && t.gonio == s.gonio && t.smooth == s.smooth && t.columns
        == s.columns && t.since == 0);
    assert(s.columns.skip(0) =~= s.columns);
    lemma_same_columns(old(a).columns@, 0, final(a).columns@);
}

/// The meters of `a` are at rest, made for the sample rate `rate`, and their peaks fall by 20 dB
/// per second.
pub open spec fn is_silent_at<M: Math>(m: &M, a: Analyzer<M>, rate: u32) -> bool {
    &&& call_ensures(M::filters, (m, rate), a.loudness.filters)
    &&& call_ensures(
        M::peak_decay,
        (m, Level { bits: 0x41A0_0000 }, rate),
        a.loudness.peak_decay,
    )
    &&& (Level { bits: 0x41A0_0000 }).units() == 20 * pow2(149)
    &&& a.loudness.sum_st.units() == 0
    &&& a.loudness.sum_mom.units() == 0
    &&& a.loudness.since_hop == 0
    &&& a.correlation.sll.units() == 0
    &&& a.correlation.srr.units() == 0
    &&& a.correlation.slr.units() == 0
    &&& forall|c: int|
        0 <= c < 2 ==> (#[trigger] a.loudness.peak[c]).units() == 0
            && a.loudness.peak_hold[c].units() == 0
}

/// An analyzer at rest has heard nothing: 2048 bins at -120 dB, no samples, no points and no
/// columns, and makes 50 columns per second.
pub proof fn an_analyzer_at_rest<M: Math>(m: &M, rate: u32, a: Analyzer<M>)
    requires
        call_ensures(Analyzer::<M>::new, (m, rate), a),
        3 * rate <= usize::MAX,
    ensures
        a.sample_rate == rate,
        a.mono@.len() == 0,
        a.gonio@.len() == 0,
        a.columns@.len() == 0,
        a.since_spectrum == 0,
        a.smooth_db@.len() == 2048,
        forall|i: int|
            0 <= i < 2048 ==> (#[trigger] a.smooth_db@[i]).units() == -120 * pow2(149),
        is_paced(m, a, Level { bits: 0x4248_0000 }),
        (Level { bits: 0x4248_0000 }).units() == 50 * pow2(149),
        a.loudness.st_capacity == 3 * rate,
        a.loudness.power_ring@.len() == 0,
        a.loudness.block_powers@.len() == 0,
        a.loudness.integrated.bits == 0xFF80_0000,
        10 * a.loudness.mom_len <= 4 * rate < 10 * (a.loudness.mom_len + 1),
        10 * a.loudness.block_hop <= rate < 10 * (a.loudness.block_hop + 1),
        10 * a.correlation.cap <= 3 * rate < 10 * (a.correlation.cap + 1),
        a.correlation.ring@.len() == 0,
        is_silent_at(m, a, rate),
{
    crate::laws::numbers::lemma_zero();
    crate::laws::numbers::lemma_whole_numbers();
    vstd::arithmetic::power2::lemma2_to64();
    crate::laws::numbers::lemma_value(0x4248_0000, 50, 18);
    let t = a.track();
    lemma_paced(m, crate::analysis::fresh_track(), Level { bits: 0x4248_0000 }, a);
    assert(t.columns.len() == a.columns@.len());
    assert(t.columns.len() == 0 && t.mono.len() == 0 && t.gonio.len() == 0 && t.since == 0);
    assert(t.smooth == crate::analysis::fresh_track().smooth);
    assert(a.loudness@.powers.len() == 0 && a.loudness@.blocks.len() == 0);
    assert(a.correlation@.frames.len() == 0);
    lemma_silent(m, rate, a);
    assert(a.loudness@.mom_len == a.loudness.mom_len && a.loudness@.block_hop
        == a.loudness.block_hop && a.correlation@.cap == a.correlation.cap
        && a.loudness@.st_capacity == a.loudness.st_capacity);
}

/// What has heard nothing is silent.
pub proof fn lemma_silent<M: Math>(m: &M, rate: u32, a: Analyzer<M>)
    requires
        crate::analysis::is_fresh(m, rate, a.loudness@, a.correlation@),
    ensures
        is_silent_at(m, a, rate),
{
    crate::laws::numbers::lemma_zero();
    crate::laws::numbers::lemma_whole_numbers();
    let l = a.loudness@;
    let c = a.correlation@;
    assert(l.sum_st.bits == 0 && l.sum_mom.bits == 0 && c.sll.bits == 0 && c.srr.bits == 0
        && c.slr.bits == 0 && l.since_hop == 0);
    assert forall|i: int| 0 <= i < 2 implies (#[trigger] a.loudness.peak[i]).units() == 0
        && a.loudness.peak_hold[i].units() == 0 by {
        let p = l.peak[i];
        assert(p.bits == 0);
        assert(l.peak_hold[i].bits == 0);
    }
}

/// `snap` is read off `a`: each channel's own falling and held peak, the momentary and the
/// short-term loudness over their own windows, and the columns, oldest first.
pub open spec fn is_read<M: Math>(m: &M, a: Analyzer<M>, snap: Snapshot) -> bool {
    &&& reads(m, a.loudness.peak[0], snap.peak_db[0])
    &&& reads(m, a.loudness.peak[1], snap.peak_db[1])
    &&& reads(m, a.loudness.peak_hold[0], snap.peak_hold_db[0])
    &&& reads(m, a.loudness.peak_hold[1], snap.peak_hold_db[1])
    &&& snap.integrated == a.loudness.integrated
    &&& crate::laws::loudness::is_readout(
        m,
        a.loudness.sum_mom,
        vstd::math::min(a.loudness.power_ring@.len() as int, a.loudness.mom_len as int),
        snap.momentary,
    )
    &&& crate::laws::loudness::is_readout(
        m,
        a.loudness.sum_st,
        a.loudness.power_ring@.len() as int,
        snap.short_term,
    )
    &&& crate::laws::correlation::is_reading(m, a.correlation, snap.correlation)
    &&& snap.spectrum_db@ == a.smooth_db@
    &&& snap.gonio@ == a.gonio@
    &&& snap.sample_rate == a.sample_rate
    &&& snap.columns@.len() == a.columns@.len()
    &&& forall|i: int|
        0 <= i < snap.columns@.len() ==> (#[trigger] snap.columns@[i])@ == a.columns@[i]@
}

/// `b` is `a` with no columns waiting.
pub open spec fn is_emptied<M: Math>(a: Analyzer<M>, b: Analyzer<M>) -> bool {
    &&& b.columns@.len() == 0
    &&& b.mono@ == a.mono@
    &&& b.gonio@ == a.gonio@
    &&& b.smooth_db@ == a.smooth_db@
    &&& b.since_spectrum == a.since_spectrum
    &&& b.spectrum_hop == a.spectrum_hop
    &&& b.release_coeff == a.release_coeff
    &&& b.loudness == a.loudness
    &&& b.correlation == a.correlation
    &&& b.sample_rate == a.sample_rate
}

/// What a snapshot is read off, and what it leaves behind.
pub proof fn lemma_read<M: Math>(m: &M, a: Analyzer<M>, b: Analyzer<M>, snap: Snapshot)
    requires
        crate::analysis::is_snapshot(m, a, snap),
        crate::analysis::is_drained(a, b),
    ensures
        is_read(m, a, snap),
        is_emptied(a, b),
{
    crate::laws::numbers::lemma_zero();
    let s = a.track();
    let t = b.track();
    let l = a.loudness;
    assert forall|c: int| 0 <= c < 2 implies reads(m, l.peak[c], #[trigger] snap.peak_db[c])
        && reads(m, l.peak_hold[c], snap.peak_hold_db[c]) by {
        lemma_reads(m, l.peak[c], snap.peak_db[c]);
        lemma_reads(m, l.peak_hold[c], snap.peak_hold_db[c]);
    }
    assert(reads(m, l.peak[0], snap.peak_db[0]) && reads(m, l.peak[1], snap.peak_db[1]));
    crate::laws::correlation::lemma_reading(m, a.correlation, snap.correlation);
    let views = crate::analysis::column_views(snap.columns@);
    assert(views == s.columns);
    assert(views.len() == snap.columns@.len());
    assert(s.columns.len() == a.columns@.len());
    assert(t.columns.len() == b.columns@.len());
    assert forall|i: int| 0 <= i < snap.columns@.len() implies (#[trigger] snap.columns@[i])@
        == a.columns@[i]@ by {
        assert(views[i] == s.columns[i]);
    }
    assert(t.mono == s.mono && t.gonio == s.gonio && t.smooth == s.smooth && t.since == s.since
        && t.hop == s.hop && t.release == s.release);
}

/// A snapshot reads every meter of its own. It takes the columns along, oldest first, and leaves
/// all else as it is.
pub proof fn a_snapshot_reads_every_meter<M: Math>(m: &M, a: &mut Analyzer<M>, snap: Snapshot)
    requires
        call_ensures(Analyzer::<M>::snapshot, (a, m), snap),
        old(a).wf(),
    ensures
        is_read(m, *old(a), snap),
        is_emptied(*old(a), *final(a)),
{
    lemma_read(m, *old(a), *final(a), snap);
}

/// A reset forgets the blocks, the integrated loudness and the held peaks, and leaves the
/// windows, the spectrum, the correlation and the points as they are.
pub proof fn a_reset_leaves_the_rest<M: Math>(a: &mut Analyzer<M>)
    requires
        call_ensures(Analyzer::<M>::reset_integrated, (a,), ()),
    ensures
        final(a).loudness.block_powers@.len() == 0,
        final(a).loudness.integrated.bits == 0xFF80_0000,
        final(a).loudness.peak_hold[0].units() == 0,
        final(a).loudness.peak_hold[1].units() == 0,
        final(a).loudness.peak == old(a).loudness.peak,
        final(a).loudness.power_ring@ == old(a).loudness.power_ring@,
        final(a).loudness.sum_st == old(a).loudness.sum_st,
        final(a).loudness.sum_mom == old(a).loudness.sum_mom,
        final(a).correlation == old(a).correlation,
        final(a).smooth_db@ == old(a).smooth_db@,
        final(a).mono@ == old(a).mono@,
        final(a).gonio@ == old(a).gonio@,
        same_columns(old(a).columns@, 0, final(a).columns@),
        final(a).since_spectrum == old(a).since_spectrum,
        final(a).sample_rate == old(a).sample_rate,
{
    crate::laws::numbers::lemma_zero();
    let s = old(a).loudness@;
    let t = final(a).loudness@;
    assert(t.blocks.len() == 0 && t.integrated.bits == 0xFF80_0000 && t.peak == s.peak && t.powers
        == s.powers && t.sum_st == s.sum_st && t.sum_mom == s.sum_mom);
    let u = old(a).track();
    let v = final(a).track();
    assert(u.smooth == v.smooth && u.mono == v.mono && u.gonio == v.gonio && u.since == v.since);
    assert(u.columns.skip(0) =~= u.columns);
    lemma_same_columns(old(a).columns@, 0, final(a).columns@);
}

/// A copy of a snapshot holds what the snapshot holds.
pub proof fn a_copy_holds_the_same(snap: &Snapshot, copy: Snapshot)
    requires
        call_ensures(Snapshot::clone, (snap,), copy),
    ensures
        copy.spectrum_db@ == snap.spectrum_db@,
        copy.gonio@ == snap.gonio@,
        copy.columns@.len() == snap.columns@.len(),
        forall|i: int|
            0 <= i < snap.columns@.len() ==> (#[trigger] copy.columns@[i])@ == snap.columns@[i]@,
        copy.momentary == snap.momentary,
        copy.short_term == snap.short_term,
        copy.integrated == snap.integrated,
        copy.peak_db == snap.peak_db,
        copy.peak_hold_db == snap.peak_hold_db,
        copy.correlation == snap.correlation,
        copy.sample_rate == snap.sample_rate,
{
    let a = crate::analysis::column_views(snap.columns@);
    let b = crate::analysis::column_views(copy.columns@);
    assert(a.len() == snap.columns@.len() && b.len() == copy.columns@.len());
    assert forall|i: int| 0 <= i < snap.columns@.len() implies (#[trigger] copy.columns@[i])@
        == snap.columns@[i]@ by {
        assert(a[i] == b[i]);
    }
}

/// Frames count one by one for the spectrum too: where the formulas have one outcome each,
/// tracking one more frame after some is taking in all of them.
pub proof fn frames_count_one_by_one<M: Math>(
    m: &M,
    first: &mut Analyzer<M>,
    then: &mut Analyzer<M>,
    at_once: &mut Analyzer<M>,
    some: &[[Level; 2]],
    one: [Level; 2],
    all: &[[Level; 2]],
)
    requires
        crate::math::spectrum_is_settled(m),
        call_ensures(Analyzer::<M>::process, (first, m, some), ()),
        call_ensures(Analyzer::<M>::track_frame, (then, m, one), ()),
        call_ensures(Analyzer::<M>::process, (at_once, m, all), ()),
        old(first).wf(),
        *old(at_once) == *old(first),
        *old(then) == *final(first),
        all@ == some@.push(one),
    ensures
        same_spectra(*final(then), *final(at_once)),
        final(then).gonio@ == final(at_once).gonio@,
        some@.len() == 0 ==> same_spectra(*old(first), *final(first)),
{
    let s = old(first).track();
    let u = final(first).track();
    let t = final(then).track();
    let w = final(at_once).track();
    assert(all@.drop_last() =~= some@);
    assert(crate::analysis::takes_sample(m, u, all@.last(), t));
    assert(crate::analysis::takes_samples(m, s, all@, t));
    crate::analysis::samples_have_one_outcome(m, s, all@, t, w);
    assert(t.mono == w.mono && t.gonio == w.gonio && t.smooth == w.smooth && t.hop == w.hop
        && t.since == w.since && t.release == w.release);
    assert(t.columns.skip(0) =~= t.columns);
    lemma_same_columns(final(then).columns@, 0, final(at_once).columns@);
    if some@.len() == 0 {
        assert(u == s);
        assert(u.mono == s.mono && u.smooth == s.smooth && u.hop == s.hop && u.since == s.since
            && u.release == s.release);
        assert(s.columns.skip(0) =~= s.columns);
        lemma_same_columns(old(first).columns@, 0, final(first).columns@);
    }
}

/// An analyzer hands each stream on to its meters as it is: where the formulas have one outcome
/// each, its loudness and its correlation are those of meters of their own that take in the same
/// frames.
pub proof fn the_meters_hear_the_same_frames<M: Math>(
    m: &M,
    a: &mut Analyzer<M>,
    loudness: &mut crate::loudness::LoudnessMeter<M>,
    correlation: &mut crate::correlation::Correlation,
    frames: &[[Level; 2]],
)
    requires
        crate::math::loudness_is_settled(m),
        crate::math::correlation_is_settled(m),
        call_ensures(Analyzer::<M>::process, (a, m, frames), ()),
        call_ensures(crate::loudness::LoudnessMeter::<M>::process, (loudness, m, frames), ()),
        call_ensures(crate::correlation::Correlation::process::<M>, (correlation, m, frames), ()),
        old(a).wf(),
        *old(loudness) == old(a).loudness,
        *old(correlation) == old(a).correlation,
    ensures
        final(a).loudness.power_ring@ == final(loudness).power_ring@,
        final(a).loudness.sum_st == final(loudness).sum_st,
        final(a).loudness.sum_mom == final(loudness).sum_mom,
        final(a).loudness.block_powers@ == final(loudness).block_powers@,
        final(a).loudness.integrated == final(loudness).integrated,
        final(a).loudness.peak == final(loudness).peak,
        final(a).loudness.peak_hold == final(loudness).peak_hold,
        final(a).loudness.filters == final(loudness).filters,
        final(a).correlation.ring@ == final(correlation).ring@,
        final(a).correlation.sll == final(correlation).sll,
        final(a).correlation.srr == final(correlation).srr,
        final(a).correlation.slr == final(correlation).slr,
{
    let l = final(a).loudness@;
    let k = final(loudness)@;
    crate::loudness::frames_have_one_outcome(m, old(loudness)@, frames@, l, k);
    assert(l.powers == k.powers && l.sum_st == k.sum_st && l.sum_mom == k.sum_mom && l.blocks
        == k.blocks && l.integrated == k.integrated && l.peak == k.peak && l.peak_hold
        == k.peak_hold && l.filters == k.filters);
    let c = final(a).correlation@;
    let d = final(correlation)@;
    crate::correlation::pairs_have_one_outcome(m, old(correlation)@, frames@, c, d);
    assert(c.frames == d.frames && c.sll == d.sll && c.srr == d.srr && c.slr == d.slr);
}

} // verus!
