//! Laws of the loudness meter.

use crate::laws::analysis::newest;
use crate::level::{Level, Wide};
use crate::loudness::LoudnessMeter;
use crate::math::Math;
use vstd::arithmetic::power2::pow2;
use vstd::prelude::*;

verus! {

/// A meter at rest keeps 3 s of powers, reads the momentary loudness over 0.4 s and makes a
/// block every 0.1 s, each cut to whole samples; its peaks fall by 20 dB per second.
pub proof fn a_meter_at_rest<M: Math>(m: &M, rate: u32, meter: LoudnessMeter<M>)
    requires
        call_ensures(LoudnessMeter::<M>::new, (m, rate), meter),
        3 * rate <= usize::MAX,
    ensures
        meter.st_capacity == 3 * rate,
        10 * meter.mom_len <= 4 * rate < 10 * (meter.mom_len + 1),
        10 * meter.block_hop <= rate < 10 * (meter.block_hop + 1),
        meter.since_hop == 0,
        meter.power_ring@.len() == 0,
        meter.block_powers@.len() == 0,
        meter.sum_st.units() == 0,
        meter.sum_mom.units() == 0,
        meter.integrated.bits == 0xFF80_0000,
        forall|c: int|
            0 <= c < 2 ==> (#[trigger] meter.peak[c]).units() == 0 && meter.peak_hold[c].units()
                == 0,
        exists|db: Level|
            db.units() == 20 * pow2(149) && #[trigger] call_ensures(
                M::peak_decay,
                (m, db, rate),
                meter.peak_decay,
            ),
        call_ensures(M::filters, (m, rate), meter.filters),
{
    crate::laws::numbers::lemma_zero();
    crate::laws::numbers::lemma_whole_numbers();
}

/// The sum of the values of `powers`.
pub open spec fn sum_of(powers: Seq<Level>) -> int {
    powers.fold_left(0int, |sum: int, p: Level| sum + p.units())
}

/// `x` is a positive number.
pub open spec fn is_positive(x: Level) -> bool {
    !x.nan() && x.units() > 0
}

/// `x` is a finite number.
pub open spec fn is_finite(x: Level) -> bool {
    x.bits as int % 0x8000_0000 < 0x7F80_0000
}

/// `running` adds up `powers`, one after another, from zero.
pub open spec fn adds_up<M: Math>(m: &M, powers: Seq<Level>, running: Seq<Wide>) -> bool {
    &&& running.len() == powers.len() + 1
    &&& running[0].bits == 0
    &&& forall|i: int|
        #![trigger powers[i]]
        0 <= i < powers.len() ==> call_ensures(
            M::gather,
            (m, running[i], powers[i]),
            running[i + 1],
        )
}

/// `mean` is the mean of `powers`: all of them are added up, and the sum divided by how many
/// they are.
pub open spec fn is_mean_of<M: Math>(m: &M, powers: Seq<Level>, mean: Level) -> bool {
    exists|running: Seq<Wide>| #[trigger]
        adds_up(m, powers, running) && call_ensures(
            M::mean,
            (m, running.last(), powers.len() as usize),
            mean,
        )
}

/// Loudness and power are inverse to each other: `lufs(p)` is the loudness of the power `p`,
/// and the power of a loudness lies between the powers that are quieter and louder than it.
pub open spec fn are_inverse<M: Math>(m: &M, lufs: spec_fn(Level) -> int) -> bool {
    &&& forall|p: Level, l: Level| #[trigger]
        call_ensures(M::loudness, (m, p), l) && is_positive(p) && is_finite(p) ==> l.units()
            == lufs(p)
    &&& forall|l: Level, r: Level| #[trigger]
        call_ensures(M::power, (m, l), r) ==> !r.nan() && r.units() >= 0
    &&& forall|l: Level, r: Level, p: Level|
        #![trigger call_ensures(M::power, (m, l), r), lufs(p)]
        call_ensures(M::power, (m, l), r) && is_positive(p) ==> (p.units() > r.units() <==> lufs(p)
            > l.units())
}

/// The blocks of `blocks` that are louder than `bar`.
pub open spec fn louder(blocks: Seq<Level>, lufs: spec_fn(Level) -> int, bar: int) -> Seq<Level> {
    blocks.filter(|p: Level| is_positive(p) && lufs(p) > bar)
}

/// `bar` is an outcome of lowering the loudness of `mean` by 10 LU.
pub open spec fn is_ten_below<M: Math>(m: &M, mean: Level, bar: Level) -> bool {
    exists|l: Level| #[trigger]
        call_ensures(M::loudness, (m, mean), l) && call_ensures(
            M::minus,
            (m, l, Level { bits: 0x4120_0000 }),
            bar,
        ) && (Level { bits: 0x4120_0000 }).units() == 10 * pow2(149)
}

/// `loudness` is the integrated loudness of `blocks`: that of the mean over the blocks louder
/// than -70 LUFS that are also louder than 10 LU below the mean over all of those.
pub open spec fn is_gated_loudness<M: Math>(
    m: &M,
    blocks: Seq<Level>,
    loudness: Level,
    lufs: spec_fn(Level) -> int,
) -> bool {
    let first = louder(blocks, lufs, -70 * pow2(149));
    if first.len() == 0 {
        loudness.bits == 0xFF80_0000
    } else {
        exists|mean: Level| #[trigger]
            is_mean_of(m, first, mean) && (is_positive(mean) ==> exists|bar: Level| #[trigger]
                is_ten_below(m, mean, bar) && is_loudness_above(
                    m,
                    first,
                    bar.units(),
                    loudness,
                    lufs,
                ))
    }
}

/// `loudness` is that of the mean over the blocks of `blocks` louder than `bar`, and negative
/// infinity where there are none.
pub open spec fn is_loudness_above<M: Math>(
    m: &M,
    blocks: Seq<Level>,
    bar: int,
    loudness: Level,
    lufs: spec_fn(Level) -> int,
) -> bool {
    let counted = louder(blocks, lufs, bar);
    if counted.len() == 0 {
        loudness.bits == 0xFF80_0000
    } else {
        exists|gated: Level| #[trigger]
            is_mean_of(m, counted, gated) && (if is_positive(gated) {
                call_ensures(M::loudness, (m, gated), loudness)
            } else {
                !gated.nan() ==> loudness.bits == 0xFF80_0000
            })
    }
}

/// What is gathered from nothing is added up.
proof fn lemma_gathered<M: Math>(m: &M, powers: Seq<Level>, total: Wide) -> (running: Seq<Wide>)
    requires
        crate::loudness::gathered(m, Wide { bits: 0 }, powers, total),
    ensures
        adds_up(m, powers, running),
        running.last() == total,
    decreases powers.len(),
{
    if powers.len() > 0 {
        let before = choose|before: Wide|
            crate::loudness::gathered(m, Wide { bits: 0 }, powers.drop_last(), before)
                && #[trigger] call_ensures(M::gather, (m, before, powers.last()), total);
        let earlier = lemma_gathered(m, powers.drop_last(), before);
        let running = earlier.push(total);
        assert forall|i: int|
            #![trigger powers[i]]
            0 <= i < powers.len() implies call_ensures(
            M::gather,
            (m, running[i], powers[i]),
            running[i + 1],
        ) by {
            if i < powers.len() - 1 {
                assert(powers.drop_last()[i] == powers[i]);
            }
        }
        running
    } else {
        seq![total]
    }
}

/// A mean is that of what is added up.
proof fn lemma_mean<M: Math>(m: &M, powers: Seq<Level>, mean: Level)
    requires
        crate::loudness::is_mean(m, powers, mean),
    ensures
        is_mean_of(m, powers, mean),
{
    let total = choose|total: Wide|
        crate::loudness::gathered(m, Wide { bits: 0 }, powers, total) && #[trigger] call_ensures(
            M::mean,
            (m, total, powers.len() as usize),
            mean,
        );
    let running = lemma_gathered(m, powers, total);
    assert(adds_up(m, powers, running));
}

/// The blocks past the power of a loudness are those louder than it.
proof fn lemma_louder<M: Math>(
    m: &M,
    blocks: Seq<Level>,
    l: Level,
    r: Level,
    lufs: spec_fn(Level) -> int,
)
    requires
        are_inverse(m, lufs),
        call_ensures(M::power, (m, l), r),
    ensures
        crate::loudness::passing(blocks, r) == louder(blocks, lufs, l.units()),
{
    assert forall|p: Level| #[trigger] p.exceeds(r) == (is_positive(p) && lufs(p)
        > l.units()) by {
        assert(lufs(p) == lufs(p));
    }
    assert((|p: Level| p.exceeds(r)) =~= (|p: Level| is_positive(p) && lufs(p) > l.units()));
}

/// The gated loudness of blocks.
proof fn lemma_gated<M: Math>(
    m: &M,
    blocks: Seq<Level>,
    loudness: Level,
    lufs: spec_fn(Level) -> int,
)
    requires
        are_inverse(m, lufs),
        crate::loudness::is_integrated(m, blocks, loudness),
    ensures
        is_gated_loudness(m, blocks, loudness, lufs),
{
    crate::laws::numbers::lemma_zero();
    crate::laws::numbers::lemma_whole_numbers();
    let floor = Level { bits: 0xC28C_0000 };
    let absolute = choose|absolute: Level| #[trigger]
        call_ensures(M::power, (m, floor), absolute) && crate::loudness::is_gated(
            m,
            blocks,
            absolute,
            loudness,
        );
    lemma_louder(m, blocks, floor, absolute, lufs);
    let first = louder(blocks, lufs, -70 * pow2(149));
    if first.len() > 0 {
        let (mean, relative) = choose|mean: Level, relative: Level|
            crate::loudness::is_mean(m, first, mean)
                && #[trigger] crate::loudness::is_relative_gate(m, mean, relative) && ({
                let second = crate::loudness::passing(first, relative);
                if second.len() == 0 {
                    loudness == Level { bits: 0xFF80_0000 }
                } else {
                    exists|gated: Level|
                        crate::loudness::is_mean(m, second, gated)
                            && #[trigger] crate::loudness::is_loudness(m, gated, loudness)
                }
            });
        lemma_mean(m, first, mean);
        if is_positive(mean) {
            let (l, bar) = choose|l: Level, bar: Level|
                crate::loudness::is_loudness(m, mean, l) && #[trigger] call_ensures(
                    M::minus,
                    (m, l, Level { bits: 0x4120_0000 }),
                    bar,
                ) && #[trigger] call_ensures(M::power, (m, bar), relative);
            assert(is_ten_below(m, mean, bar));
            lemma_louder(m, first, bar, relative, lufs);
            let second = louder(first, lufs, bar.units());
            if second.len() > 0 {
                let gated = choose|gated: Level|
                    crate::loudness::is_mean(m, second, gated)
                        && #[trigger] crate::loudness::is_loudness(m, gated, loudness);
                lemma_mean(m, second, gated);
            }
        }
    }
}

/// The integrated loudness is gated twice: a block counts if and only if it is louder than
/// -70 LUFS and louder than 10 LU below the mean over all blocks louder than -70 LUFS.
pub proof fn integrated_loudness_is_gated_twice<M: Math>(
    m: &M,
    meter: &mut LoudnessMeter<M>,
    lufs: spec_fn(Level) -> int,
)
    requires
        call_ensures(LoudnessMeter::<M>::recompute_integrated, (meter, m), ()),
        are_inverse(m, lufs),
    ensures
        is_gated_loudness(m, old(meter).block_powers@, final(meter).integrated, lufs),
        final(meter).block_powers@ == old(meter).block_powers@,
{
    assert(final(meter)@.blocks == old(meter)@.blocks);
    lemma_gated(m, old(meter)@.blocks, final(meter).integrated, lufs);
}

/// Differences of levels up to 1000 are off by at most `eps`.
pub open spec fn subtracts_closely<M: Math>(m: &M, eps: int) -> bool {
    forall|a: Level, b: Level, r: Level| #[trigger]
        call_ensures(M::minus, (m, a, b), r) && vstd::math::abs(a.units()) <= 1000 * pow2(149)
            && vstd::math::abs(b.units()) <= 1000 * pow2(149) ==> !r.nan() && vstd::math::abs(
            r.units() - (a.units() - b.units()),
        ) <= eps
}

/// Where differences are off by at most `eps`, there is a bar within `eps` of 10 LU below the
/// mean over the blocks louder than -70 LUFS, and of these blocks just those louder than it
/// count: one that is more than 10 LU and `eps` below the mean does not, one that is less than
/// 10 LU less `eps` below it does.
pub proof fn what_counts_is_within_ten_of_the_mean<M: Math>(
    m: &M,
    meter: &mut LoudnessMeter<M>,
    lufs: spec_fn(Level) -> int,
    eps: int,
)
    requires
        call_ensures(LoudnessMeter::<M>::recompute_integrated, (meter, m), ()),
        are_inverse(m, lufs),
        subtracts_closely(m, eps),
        forall|p: Level|
            is_positive(p) && is_finite(p) ==> vstd::math::abs(#[trigger] lufs(p)) <= 1000 * pow2(
                149,
            ),
        louder(old(meter).block_powers@, lufs, -70 * pow2(149)).len() > 0,
    ensures
        exists|mean: Level|
            #![trigger lufs(mean)]
            is_mean_of(m, louder(old(meter).block_powers@, lufs, -70 * pow2(149)), mean) && (
            is_positive(mean) && is_finite(mean) ==> exists|bar: int| #[trigger]
                is_loudness_above(
                    m,
                    louder(old(meter).block_powers@, lufs, -70 * pow2(149)),
                    bar,
                    final(meter).integrated,
                    lufs,
                ) && vstd::math::abs(bar - (lufs(mean) - 10 * pow2(149))) <= eps && forall|
                p: Level,
            |
                #![trigger lufs(p)]
                old(meter).block_powers@.contains(p) && is_positive(p) && lufs(p) > -70 * pow2(149)
                    ==> {
                    let counted = louder(
                        louder(old(meter).block_powers@, lufs, -70 * pow2(149)),
                        lufs,
                        bar,
                    );
                    &&& lufs(p) < lufs(mean) - 10 * pow2(149) - eps ==> !counted.contains(p)
                    &&& lufs(p) > lufs(mean) - 10 * pow2(149) + eps ==> counted.contains(p)
                }),
{
    crate::laws::numbers::lemma_whole_numbers();
    integrated_loudness_is_gated_twice(m, meter, lufs);
    let blocks = old(meter).block_powers@;
    let loudness = final(meter).integrated;
    let first = louder(blocks, lufs, -70 * pow2(149));
    let mean = choose|mean: Level| #[trigger]
        is_mean_of(m, first, mean) && (is_positive(mean) ==> exists|bar: Level| #[trigger]
            is_ten_below(m, mean, bar) && is_loudness_above(
                m,
                first,
                bar.units(),
                loudness,
                lufs,
            ));
    assert(lufs(mean) == lufs(mean));
    if is_positive(mean) && is_finite(mean) {
        let bar = choose|bar: Level| #[trigger]
            is_ten_below(m, mean, bar) && is_loudness_above(
                m,
                first,
                bar.units(),
                loudness,
                lufs,
            );
        let b = bar.units();
        assert(vstd::math::abs(b - (lufs(mean) - 10 * pow2(149))) <= eps);
        assert forall|p: Level|
            #![trigger lufs(p)]
            blocks.contains(p) && is_positive(p) && lufs(p) > -70 * pow2(149) implies {
            let counted = louder(first, lufs, b);
            &&& lufs(p) < lufs(mean) - 10 * pow2(149) - eps ==> !counted.contains(p)
            &&& lufs(p) > lufs(mean) - 10 * pow2(149) + eps ==> counted.contains(p)
        } by {
            lemma_louder_contains(blocks, lufs, -70 * pow2(149), p);
            lemma_louder_contains(first, lufs, b, p);
        }
        assert(is_loudness_above(m, first, b, loudness, lufs));
    }
}

/// The louder blocks are those that are louder.
proof fn lemma_louder_contains(
    blocks: Seq<Level>,
    lufs: spec_fn(Level) -> int,
    bar: int,
    p: Level,
)
    ensures
        louder(blocks, lufs, bar).contains(p) <==> blocks.contains(p) && is_positive(p) && lufs(p)
            > bar,
{
    broadcast use vstd::seq_lib::group_filter_ensures;

    let f = |p: Level| is_positive(p) && lufs(p) > bar;
    let kept = blocks.filter(f);
    if kept.contains(p) {
        let i = kept.index_of(p);
        assert(f(kept[i]));
        blocks.lemma_filter_contains_rev(f, p);
    }
    if blocks.contains(p) && f(p) {
        let i = blocks.index_of(p);
        assert(kept.contains(blocks[i]));
    }
}

/// A frame enters the meter with both channels: the newest power in the ring is an outcome of
/// weighing the whole frame, and the filters move on with it.
pub proof fn a_frame_is_weighed_whole<M: Math>(
    m: &M,
    meter: &mut LoudnessMeter<M>,
    frame: [Level; 2],
)
    requires
        call_ensures(LoudnessMeter::<M>::absorb, (meter, m, frame), ()),
        old(meter)@.wf(),
        old(meter).st_capacity > 0,
    ensures
        final(meter).power_ring@.len() > 0,
        call_ensures(
            M::weigh,
            (m, &old(meter).filters, frame),
            (final(meter).filters, final(meter).power_ring@.last()),
        ),
        final(meter).power_ring@.drop_last() == if old(meter).power_ring@.len()
            < old(meter).st_capacity {
            old(meter).power_ring@
        } else {
            old(meter).power_ring@.skip(1)
        },
{
    let s = old(meter)@;
    let t = final(meter)@;
    let power = choose|power: Level| #[trigger]
        call_ensures(M::weigh, (m, &s.filters, frame), (t.filters, power))
            && crate::loudness::takes_power(m, s, power, t);
    assert(t.powers.last() == power);
    assert(t.powers.drop_last() =~= if s.powers.len() < s.st_capacity {
        s.powers
    } else {
        s.powers.skip(1)
    });
}

/// `peak` is the larger of `fallen` and the magnitude of `sample`, as far as they are numbers.
pub open spec fn is_larger_of(fallen: Level, sample: Level, peak: Level) -> bool {
    &&& !fallen.nan() && !sample.nan() ==> !peak.nan() && peak.units() == vstd::math::max(
        fallen.units(),
        vstd::math::abs(sample.units()) as int,
    )
    &&& fallen.nan() && !sample.nan() ==> !peak.nan() && peak.units() == vstd::math::abs(
        sample.units(),
    )
    &&& !fallen.nan() && sample.nan() ==> peak == fallen
}

/// Each channel has its own peaks. The falling peak is the larger of the magnitude of the
/// sample and an outcome of scaling the peak before by the decay, and the held peak is the
/// larger of the magnitude and the held peak before.
pub proof fn peaks_follow_their_channels<M: Math>(
    m: &M,
    meter: &mut LoudnessMeter<M>,
    frame: [Level; 2],
    c: int,
)
    requires
        call_ensures(LoudnessMeter::<M>::absorb, (meter, m, frame), ()),
        0 <= c < 2,
    ensures
        exists|fallen: Level| #[trigger]
            call_ensures(M::scale, (m, old(meter).peak[c], old(meter).peak_decay), fallen)
                && is_larger_of(fallen, frame[c], final(meter).peak[c]),
        is_larger_of(old(meter).peak_hold[c], frame[c], final(meter).peak_hold[c]),
        final(meter).peak_decay == old(meter).peak_decay,
{
    let s = old(meter)@;
    let t = final(meter)@;
    assert(crate::loudness::is_peak(m, s.peak[c], s.peak_decay, frame[c], t.peak[c]));
    lemma_magnitude(frame[c]);
}

/// A level without its sign has the magnitude of its value.
proof fn lemma_magnitude(x: Level)
    ensures
        x.unsigned().units() == vstd::math::abs(x.units()),
        x.unsigned().nan() == x.nan(),
{
}

/// The peaks of a frame, from those that have fallen.
pub proof fn peaks_are_held_per_channel<M: Math>(
    meter: &mut LoudnessMeter<M>,
    fallen: [Level; 2],
    frame: [Level; 2],
    c: int,
)
    requires
        call_ensures(LoudnessMeter::<M>::hold_peaks, (meter, fallen, frame), ()),
        0 <= c < 2,
    ensures
        is_larger_of(fallen[c], frame[c], final(meter).peak[c]),
        is_larger_of(old(meter).peak_hold[c], frame[c], final(meter).peak_hold[c]),
{
    lemma_magnitude(frame[c]);
    assert(final(meter).peak[c] == fallen[c].max_with(frame[c].unsigned()));
}

/// The held peak of the channel `c` of `b` is the largest magnitude of those of `frames` and the
/// one that `a` holds: no sample lies above it, and it is that of a sample or the one before.
pub open spec fn has_held<M: Math>(
    a: LoudnessMeter<M>,
    frames: Seq<[Level; 2]>,
    b: LoudnessMeter<M>,
    c: int,
) -> bool {
    !a.peak_hold[c].nan() ==> {
        &&& !b.peak_hold[c].nan()
        &&& b.peak_hold[c].units() >= a.peak_hold[c].units()
        &&& forall|i: int|
            0 <= i < frames.len() && !(#[trigger] frames[i])[c].nan() ==> b.peak_hold[c].units()
                >= vstd::math::abs(frames[i][c].units())
        &&& b.peak_hold[c] == a.peak_hold[c] || exists|i: int|
            0 <= i < frames.len() && b.peak_hold[c].units() == vstd::math::abs(
                (#[trigger] frames[i])[c].units(),
            )
    }
}

/// What peaks are held after frames.
pub proof fn lemma_has_held<M: Math>(
    m: &M,
    a: LoudnessMeter<M>,
    frames: Seq<[Level; 2]>,
    b: LoudnessMeter<M>,
    c: int,
)
    requires
        crate::loudness::takes_frames(m, a@, frames, b@),
        0 <= c < 2,
    ensures
        has_held(a, frames, b, c),
{
    let s = a@;
    let t = b@;
    assert(s.peak_hold == a.peak_hold && t.peak_hold == b.peak_hold);
    if !a.peak_hold[c].nan() {
        crate::loudness::held_peak_is_the_largest(m, s, frames, t, c);
        assert forall|i: int| 0 <= i < frames.len() && !(#[trigger] frames[i])[c].nan() implies
            t.peak_hold[c].units() >= vstd::math::abs(frames[i][c].units()) by {
            lemma_magnitude(frames[i][c]);
            assert(!frames[i][c].unsigned().exceeds(t.peak_hold[c]));
        }
        if t.peak_hold[c] != s.peak_hold[c] {
            let i = choose|i: int|
                0 <= i < frames.len() && t.peak_hold[c] == (#[trigger] frames[i])[c].unsigned();
            lemma_magnitude(frames[i][c]);
            assert(t.peak_hold[c].units() == vstd::math::abs(frames[i][c].units()));
        }
    }
}

/// The held peak of a channel is the largest magnitude that the channel has had since it was
/// forgotten.
pub proof fn held_peaks_are_the_largest<M: Math>(
    m: &M,
    meter: &mut LoudnessMeter<M>,
    frames: &[[Level; 2]],
    c: int,
)
    requires
        call_ensures(LoudnessMeter::<M>::process, (meter, m, frames), ()),
        0 <= c < 2,
    ensures
        has_held(*old(meter), frames@, *final(meter), c),
{
    lemma_has_held(m, *old(meter), frames@, *final(meter), c);
}

/// `filters` and `powers` come of weighing `frames` one after another.
pub open spec fn are_weighed_in_turn<M: Math>(
    m: &M,
    filters: Seq<M::Filters>,
    frames: Seq<[Level; 2]>,
    powers: Seq<Level>,
) -> bool {
    &&& powers.len() == frames.len()
    &&& filters.len() == frames.len() + 1
    &&& forall|i: int|
        0 <= i < frames.len() ==> call_ensures(
            M::weigh,
            (m, &filters[i], frames[i]),
            (filters[i + 1], #[trigger] powers[i]),
        )
}

/// The ring of `b` holds the newest powers: those of `a` and those of `frames`, each weighed with
/// the filters that the one before has left.
pub open spec fn has_weighed<M: Math>(
    m: &M,
    a: LoudnessMeter<M>,
    frames: Seq<[Level; 2]>,
    b: LoudnessMeter<M>,
) -> bool {
    exists|filters: Seq<M::Filters>, powers: Seq<Level>| #[trigger]
        are_weighed_in_turn(m, filters, frames, powers) && filters[0] == a.filters
            && filters.last() == b.filters && b.power_ring@ == newest(
            a.power_ring@ + powers,
            a.st_capacity as int,
        )
}

/// What the ring holds after frames.
pub proof fn lemma_has_weighed<M: Math>(
    m: &M,
    a: LoudnessMeter<M>,
    frames: Seq<[Level; 2]>,
    b: LoudnessMeter<M>,
)
    requires
        crate::loudness::takes_frames(m, a@, frames, b@),
        a@.wf(),
    ensures
        has_weighed(m, a, frames, b),
{
    let s = a@;
    let t = b@;
    crate::loudness::ring_holds_the_newest_powers(m, s, frames, t);
    let powers = choose|powers: Seq<Level>| #[trigger]
        crate::loudness::are_weighed(m, s.filters, frames, powers, t.filters) && t.powers
            == crate::window::last_of(s.powers + powers, s.st_capacity);
    let filters = lemma_weighed(m, s.filters, frames, powers, t.filters);
    assert(t.powers =~= newest(s.powers + powers, s.st_capacity));
    assert(are_weighed_in_turn(m, filters, frames, powers));
}

/// The ring holds the newest powers, those of the frames weighed in turn.
pub proof fn the_ring_holds_the_weighed_frames<M: Math>(
    m: &M,
    meter: &mut LoudnessMeter<M>,
    frames: &[[Level; 2]],
)
    requires
        call_ensures(LoudnessMeter::<M>::process, (meter, m, frames), ()),
        old(meter)@.wf(),
    ensures
        has_weighed(m, *old(meter), frames@, *final(meter)),
{
    lemma_has_weighed(m, *old(meter), frames@, *final(meter));
}

/// The filters on the way.
proof fn lemma_weighed<M: Math>(
    m: &M,
    from: M::Filters,
    frames: Seq<[Level; 2]>,
    powers: Seq<Level>,
    to: M::Filters,
) -> (filters: Seq<M::Filters>)
    requires
        crate::loudness::are_weighed(m, from, frames, powers, to),
    ensures
        are_weighed_in_turn(m, filters, frames, powers),
        filters[0] == from,
        filters.last() == to,
    decreases frames.len(),
{
    if frames.len() == 0 {
        seq![from]
    } else {
        let before = choose|before: M::Filters|
            crate::loudness::are_weighed(
                m,
                from,
                frames.drop_last(),
                powers.drop_last(),
                before,
            ) && #[trigger] call_ensures(
                M::weigh,
                (m, &before, frames.last()),
                (to, powers.last()),
            );
        let earlier = lemma_weighed(m, from, frames.drop_last(), powers.drop_last(), before);
        let filters = earlier.push(to);
        assert forall|i: int| 0 <= i < frames.len() implies call_ensures(
            M::weigh,
            (m, &filters[i], frames[i]),
            (filters[i + 1], #[trigger] powers[i]),
        ) by {
            if i < frames.len() - 1 {
                assert(powers.drop_last()[i] == powers[i]);
                assert(frames.drop_last()[i] == frames[i]);
            }
        }
        filters
    }
}

/// `to` is the sum after `from`, when `latest` comes in and, if `full`, `oldest` goes.
pub open spec fn is_sum_moved<M: Math>(
    m: &M,
    from: Wide,
    latest: Level,
    full: bool,
    oldest: Level,
    to: Wide,
) -> bool {
    exists|grown: Wide| #[trigger]
        call_ensures(M::gather, (m, from, latest), grown) && (if full {
            call_ensures(M::shed, (m, grown, oldest), to)
        } else {
            to == grown
        })
}

/// A frame moves both sums by its own power; what leaves a full window is its oldest power: that
/// of 3 s ago leaves the ring, and that of 0.4 s ago the momentary window.
pub proof fn a_frame_moves_both_sums<M: Math>(
    m: &M,
    meter: &mut LoudnessMeter<M>,
    frame: [Level; 2],
)
    requires
        call_ensures(LoudnessMeter::<M>::absorb, (meter, m, frame), ()),
        old(meter)@.wf(),
        old(meter).mom_len > 0,
    ensures
        is_sum_moved(
            m,
            old(meter).sum_st,
            final(meter).power_ring@.last(),
            old(meter).power_ring@.len() == old(meter).st_capacity,
            old(meter).power_ring@[0],
            final(meter).sum_st,
        ),
        is_sum_moved(
            m,
            old(meter).sum_mom,
            final(meter).power_ring@.last(),
            old(meter).power_ring@.len() >= old(meter).mom_len,
            old(meter).power_ring@[old(meter).power_ring@.len() - old(meter).mom_len],
            final(meter).sum_mom,
        ),
        final(meter).since_hop == if old(meter).since_hop + 1 >= old(meter).block_hop {
            0
        } else {
            old(meter).since_hop + 1
        },
{
    let s = old(meter)@;
    let t = final(meter)@;
    let power = choose|power: Level| #[trigger]
        call_ensures(M::weigh, (m, &s.filters, frame), (t.filters, power))
            && crate::loudness::takes_power(m, s, power, t);
    assert(t.powers.last() == power);
    assert(crate::loudness::is_moved(m, s.sum_st, power, s.leaves_short_term(power), t.sum_st));
    assert(crate::loudness::is_moved(m, s.sum_mom, power, s.leaves_momentary(power), t.sum_mom));
}

/// A positive power has the loudness of the formula, and no power is silence.
pub proof fn no_power_is_silence<M: Math>(m: &M, power: Level, loudness: Level)
    requires
        call_ensures(crate::loudness::loudness_from_power::<M>, (m, power), loudness),
    ensures
        is_positive(power) ==> call_ensures(M::loudness, (m, power), loudness),
        !power.nan() && power.units() <= 0 ==> loudness.bits == 0xFF80_0000,
{
    crate::laws::numbers::lemma_zero();
}

/// When a block falls due, the mean over the momentary window becomes the newest of at most
/// 36000 blocks, and the integrated loudness is that of the blocks then.
pub proof fn a_block_is_the_mean_of_its_window<M: Math>(
    m: &M,
    meter: &mut LoudnessMeter<M>,
    frame: [Level; 2],
    lufs: spec_fn(Level) -> int,
)
    requires
        call_ensures(LoudnessMeter::<M>::absorb, (meter, m, frame), ()),
        old(meter)@.wf(),
        are_inverse(m, lufs),
    ensures
        final(meter).block_powers@.len() <= 36000,
        old(meter).since_hop + 1 < old(meter).block_hop || final(meter).power_ring@.len() < old(
            meter,
        ).mom_len ==> final(meter).block_powers@ == old(meter).block_powers@
            && final(meter).integrated == old(meter).integrated,
        old(meter).since_hop + 1 >= old(meter).block_hop && final(meter).power_ring@.len() >= old(
            meter,
        ).mom_len ==> {
            &&& final(meter).block_powers@.len() > 0
            &&& call_ensures(
                M::mean,
                (m, final(meter).sum_mom, old(meter).mom_len),
                final(meter).block_powers@.last(),
            )
            &&& final(meter).block_powers@.drop_last() == if old(meter).block_powers@.len()
                < 36000 {
                old(meter).block_powers@
            } else {
                old(meter).block_powers@.skip(1)
            }
            &&& is_gated_loudness(m, final(meter).block_powers@, final(meter).integrated, lufs)
        },
{
    let s = old(meter)@;
    let t = final(meter)@;
    let power = choose|power: Level| #[trigger]
        call_ensures(M::weigh, (m, &s.filters, frame), (t.filters, power))
            && crate::loudness::takes_power(m, s, power, t);
    if s.since_hop + 1 >= s.block_hop && t.powers.len() >= s.mom_len {
        let block = choose|block: Level| #[trigger]
            call_ensures(M::mean, (m, t.sum_mom, s.mom_len as usize), block) && t.blocks
                == crate::window::last_of(s.blocks.push(block), 36000)
                && crate::loudness::is_integrated(m, t.blocks, t.integrated);
        assert(t.blocks.last() == block);
        assert(t.blocks.drop_last() =~= if s.blocks.len() < 36000 {
            s.blocks
        } else {
            s.blocks.skip(1)
        });
        lemma_gated(m, t.blocks, t.integrated, lufs);
    }
}

/// A block is made each time the block clock fires on a full momentary window: from a full
/// window on, as many as times the hop has passed, and none before the window is full.
pub proof fn blocks_are_a_hop_apart<M: Math>(
    m: &M,
    meter: &mut LoudnessMeter<M>,
    frames: &[[Level; 2]],
)
    requires
        call_ensures(LoudnessMeter::<M>::process, (meter, m, frames), ()),
        old(meter)@.wf(),
        old(meter).block_hop > 0,
    ensures
        final(meter).since_hop == (old(meter).since_hop + frames@.len()) % (
        old(meter).block_hop as int),
        old(meter).power_ring@.len() >= old(meter).mom_len ==> final(meter).block_powers@.len()
            == vstd::math::min(
            36_000,
            old(meter).block_powers@.len() + (old(meter).since_hop + frames@.len()) / (
            old(meter).block_hop as int),
        ),
        old(meter).power_ring@.len() + frames@.len() < old(meter).mom_len
            ==> final(meter).block_powers@.len() == old(meter).block_powers@.len(),
{
    let s = old(meter)@;
    let t = final(meter)@;
    crate::loudness::blocks_follow_the_sample_clock(m, s, frames@, t);
    let n = crate::loudness::blocks_added(
        s.since_hop,
        s.powers.len() as int,
        s.mom_len,
        s.block_hop,
        frames@.len() as int,
    );
    let added = choose|added: Seq<Level>|
        added.len() == n && t.blocks == #[trigger] crate::window::last_of(s.blocks + added, 36_000);
    if s.powers.len() >= s.mom_len {
        vstd::arithmetic::div_mod::lemma_fundamental_div_mod_converse(
            s.since_hop,
            s.block_hop,
            0,
            s.since_hop,
        );
    }
}

/// A readout over `n` powers with the sum `sum`.
pub open spec fn is_readout<M: Math>(m: &M, sum: Wide, n: int, loudness: Level) -> bool {
    if n == 0 {
        loudness.bits == 0xFF80_0000
    } else {
        exists|mean: Level| #[trigger]
            call_ensures(M::mean, (m, sum, n as usize), mean) && (if is_positive(mean) {
                call_ensures(M::loudness, (m, mean), loudness)
            } else {
                !mean.nan() ==> loudness.bits == 0xFF80_0000
            })
    }
}

/// The momentary loudness is that of the mean over the powers that have arrived, at most 0.4 s
/// of them, and the short-term loudness that over all that the ring holds.
pub proof fn readouts_are_means<M: Math>(
    m: &M,
    meter: &LoudnessMeter<M>,
    momentary: Level,
    short_term: Level,
)
    requires
        call_ensures(LoudnessMeter::<M>::momentary, (meter, m), momentary),
        call_ensures(LoudnessMeter::<M>::short_term, (meter, m), short_term),
    ensures
        is_readout(
            m,
            meter.sum_mom,
            if meter.power_ring@.len() < meter.mom_len {
                meter.power_ring@.len() as int
            } else {
                meter.mom_len as int
            },
            momentary,
        ),
        is_readout(m, meter.sum_st, meter.power_ring@.len() as int, short_term),
{
    crate::laws::numbers::lemma_zero();
}

/// The sums are exact, when `wide` gives their values.
pub open spec fn moves_exactly<M: Math>(m: &M, wide: spec_fn(Wide) -> int) -> bool {
    &&& forall|sum: Wide, p: Level, r: Wide| #[trigger]
        call_ensures(M::gather, (m, sum, p), r) ==> wide(r) == wide(sum) + p.units()
    &&& forall|sum: Wide, p: Level, r: Wide| #[trigger]
        call_ensures(M::shed, (m, sum, p), r) ==> wide(r) == wide(sum) - p.units()
}

/// The running total is the sum.
proof fn lemma_total_is_sum(powers: Seq<Level>)
    ensures
        crate::loudness::total(|p: Level| p.units(), powers) == sum_of(powers),
    decreases powers.len(),
{
    if powers.len() > 0 {
        lemma_total_is_sum(powers.drop_last());
    }
}

/// In exact arithmetic the two running sums are those over the ring and over its newest
/// 0.4 s, before and after any frames.
pub proof fn running_sums_are_those_of_the_windows<M: Math>(
    m: &M,
    meter: &mut LoudnessMeter<M>,
    frames: &[[Level; 2]],
    wide: spec_fn(Wide) -> int,
)
    requires
        call_ensures(LoudnessMeter::<M>::process, (meter, m, frames), ()),
        old(meter)@.wf(),
        moves_exactly(m, wide),
        wide(old(meter).sum_st) == sum_of(old(meter).power_ring@),
        wide(old(meter).sum_mom) == sum_of(
            newest(old(meter).power_ring@, old(meter).mom_len as int),
        ),
    ensures
        wide(final(meter).sum_st) == sum_of(final(meter).power_ring@),
        wide(final(meter).sum_mom) == sum_of(
            newest(final(meter).power_ring@, final(meter).mom_len as int),
        ),
        final(meter).power_ring@.len() == if old(meter).power_ring@.len() + frames@.len() < old(
            meter,
        ).st_capacity {
            (old(meter).power_ring@.len() + frames@.len()) as int
        } else {
            old(meter).st_capacity as int
        },
        final(meter).st_capacity == old(meter).st_capacity,
        final(meter).mom_len == old(meter).mom_len,
{
    let s = old(meter)@;
    let t = final(meter)@;
    let value = |p: Level| p.units();
    lemma_total_is_sum(s.powers);
    lemma_total_is_sum(s.momentary_window());
    lemma_total_is_sum(t.powers);
    assert(s.momentary_window() =~= newest(s.powers, s.mom_len));
    crate::loudness::running_sums_are_window_sums(m, s, frames@, t, value, wide);
    crate::loudness::ring_holds_the_newest_powers(m, s, frames@, t);
    lemma_lengths_stay(m, s, frames@, t);
    lemma_total_is_sum(t.momentary_window());
    assert(t.momentary_window() =~= newest(t.powers, t.mom_len));
}

/// The lengths of the windows stay.
proof fn lemma_lengths_stay<M: Math>(
    m: &M,
    s: crate::loudness::LoudnessState<M::Filters>,
    frames: Seq<[Level; 2]>,
    t: crate::loudness::LoudnessState<M::Filters>,
)
    requires
        crate::loudness::takes_frames(m, s, frames, t),
    ensures
        t.mom_len == s.mom_len,
        t.st_capacity == s.st_capacity,
        t.block_hop == s.block_hop,
    decreases frames.len(),
{
    if frames.len() > 0 {
        let u = choose|u: crate::loudness::LoudnessState<M::Filters>|
            crate::loudness::takes_frames(m, s, frames.drop_last(), u)
                && #[trigger] crate::loudness::takes_frame(m, u, frames.last(), t);
        lemma_lengths_stay(m, s, frames.drop_last(), u);
    }
}

/// A reset forgets the blocks, the integrated loudness and the held peaks, and nothing else.
pub proof fn a_reset_forgets_blocks_and_held_peaks<M: Math>(meter: &mut LoudnessMeter<M>)
    requires
        call_ensures(LoudnessMeter::<M>::reset_integrated, (meter,), ()),
    ensures
        final(meter).block_powers@.len() == 0,
        final(meter).integrated.bits == 0xFF80_0000,
        final(meter).peak_hold[0].units() == 0,
        final(meter).peak_hold[1].units() == 0,
        final(meter).peak == old(meter).peak,
        final(meter).power_ring@ == old(meter).power_ring@,
        final(meter).sum_st == old(meter).sum_st,
        final(meter).sum_mom == old(meter).sum_mom,
        final(meter).filters == old(meter).filters,
        final(meter).since_hop == old(meter).since_hop,
{
    crate::laws::numbers::lemma_zero();
    let s = old(meter)@;
    let t = final(meter)@;
    assert(t.powers == s.powers && t.blocks.len() == 0 && t.sum_st == s.sum_st && t.sum_mom
        == s.sum_mom && t.filters == s.filters && t.peak == s.peak && t.since_hop == s.since_hop
        && t.integrated == final(meter).integrated);
}

/// The samples in some tenths of a second are the whole ones.
pub proof fn samples_are_whole(rate: u32, tenths: u32, n: usize)
    requires
        call_ensures(crate::loudness::samples, (rate, tenths), n),
        rate * tenths <= usize::MAX,
    ensures
        10 * n <= rate * tenths < 10 * (n + 1),
{
    let x = rate * tenths;
    assert(0 <= x) by (nonlinear_arith)
        requires
            x == rate * tenths,
            rate >= 0,
            tenths >= 0,
    ;
}

/// A power goes to the end of the ring. What leaves the momentary window is the power that came
/// in as many powers ago as the window is long, and what leaves the ring is its oldest one, both
/// once there are so many.
pub proof fn the_oldest_powers_leave<M: Math>(
    meter: &mut LoudnessMeter<M>,
    power: Level,
    left: crate::loudness::Leavers,
)
    requires
        call_ensures(LoudnessMeter::<M>::push_power, (meter, power), left),
        old(meter)@.wf(),
        old(meter).mom_len > 0,
    ensures
        final(meter).power_ring@ == crate::laws::analysis::shifted(
            old(meter).power_ring@,
            power,
            old(meter).st_capacity as int,
        ),
        old(meter).power_ring@.len() < old(meter).mom_len ==> left.momentary is None,
        old(meter).power_ring@.len() >= old(meter).mom_len ==> left.momentary == Some(
            old(meter).power_ring@[old(meter).power_ring@.len() - old(meter).mom_len],
        ),
        old(meter).power_ring@.len() < old(meter).st_capacity ==> left.short_term is None,
        old(meter).power_ring@.len() == old(meter).st_capacity ==> left.short_term == Some(
            old(meter).power_ring@[0],
        ),
        final(meter).sum_st == old(meter).sum_st,
        final(meter).sum_mom == old(meter).sum_mom,
{
    let s = old(meter)@;
    let t = final(meter)@;
    assert(t.powers =~= crate::laws::analysis::shifted(s.powers, power, s.st_capacity));
    assert(t.sum_st == s.sum_st && t.sum_mom == s.sum_mom);
}

/// A block falls due when the hop is full, and only over a full momentary window.
pub proof fn a_block_falls_due_when_the_hop_is_full<M: Math>(
    meter: &mut LoudnessMeter<M>,
    due: bool,
)
    requires
        call_ensures(LoudnessMeter::<M>::advance_clock, (meter,), due),
        old(meter)@.wf(),
    ensures
        due <==> old(meter).since_hop + 1 >= old(meter).block_hop && old(meter).power_ring@.len()
            >= old(meter).mom_len,
        final(meter).since_hop == if old(meter).since_hop + 1 >= old(meter).block_hop {
            0
        } else {
            old(meter).since_hop + 1
        },
        final(meter).power_ring@ == old(meter).power_ring@,
        final(meter).block_powers@ == old(meter).block_powers@,
{
    let s = old(meter)@;
    let t = final(meter)@;
    assert(t.powers == s.powers && t.blocks == s.blocks && t.since_hop == final(meter).since_hop);
}

/// Frames count one by one: where the formulas have one outcome each, taking in some frames and
/// then one more is taking in all of them, and taking in none changes nothing.
pub proof fn frames_count_one_by_one<M: Math>(
    m: &M,
    first: &mut LoudnessMeter<M>,
    then: &mut LoudnessMeter<M>,
    at_once: &mut LoudnessMeter<M>,
    some: &[[Level; 2]],
    one: [Level; 2],
    all: &[[Level; 2]],
)
    requires
        crate::math::loudness_is_settled(m),
        call_ensures(LoudnessMeter::<M>::process, (first, m, some), ()),
        call_ensures(LoudnessMeter::<M>::absorb, (then, m, one), ()),
        call_ensures(LoudnessMeter::<M>::process, (at_once, m, all), ()),
        old(first)@.wf(),
        *old(at_once) == *old(first),
        *old(then) == *final(first),
        all@ == some@.push(one),
    ensures
        final(then).filters == final(at_once).filters,
        final(then).power_ring@ == final(at_once).power_ring@,
        final(then).sum_st == final(at_once).sum_st,
        final(then).sum_mom == final(at_once).sum_mom,
        final(then).since_hop == final(at_once).since_hop,
        final(then).block_powers@ == final(at_once).block_powers@,
        final(then).integrated == final(at_once).integrated,
        final(then).peak == final(at_once).peak,
        final(then).peak_hold == final(at_once).peak_hold,
        some@.len() == 0 ==> final(first)@ == old(first)@,
{
    let s = old(first)@;
    let u = final(first)@;
    let t = final(then)@;
    let w = final(at_once)@;
    assert(all@.drop_last() =~= some@);
    assert(crate::loudness::takes_frame(m, u, all@.last(), t));
    assert(crate::loudness::takes_frames(m, s, all@, t));
    crate::loudness::frames_have_one_outcome(m, s, all@, t, w);
    assert(t.filters == w.filters && t.powers == w.powers && t.sum_st == w.sum_st && t.sum_mom
        == w.sum_mom && t.since_hop == w.since_hop && t.blocks == w.blocks && t.integrated
        == w.integrated && t.peak == w.peak && t.peak_hold == w.peak_hold);
}

} // verus!
