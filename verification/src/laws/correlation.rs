//! Laws of the stereo correlation.

use crate::correlation::Correlation;
use crate::level::{Level, Wide};
use crate::math::Math;
use vstd::arithmetic::power2::pow2;
use vstd::prelude::*;

verus! {

/// `energy` is that of silence: at most 1e-20.
pub open spec fn is_silence(energy: Wide) -> bool {
    !energy.nan() && energy.units() <= (Wide { bits: 0x3BC7_9CA1_0C92_4223 }).units()
}

/// `value` is the narrowed form of `quotient`, or of the nearer one of -1 and 1 where the
/// quotient lies beyond it.
pub open spec fn is_narrowed<M: Math>(m: &M, quotient: Wide, value: Level) -> bool {
    &&& quotient.nan() || -pow2(1074) <= quotient.units() <= pow2(1074) ==> call_ensures(
        M::narrow,
        (m, quotient),
        value,
    )
    &&& !quotient.nan() && quotient.units() > pow2(1074) ==> call_ensures(
        M::narrow,
        (m, Wide { bits: 0x3FF0_0000_0000_0000 }),
        value,
    )
    &&& !quotient.nan() && quotient.units() < -pow2(1074) ==> call_ensures(
        M::narrow,
        (m, Wide { bits: 0xBFF0_0000_0000_0000 }),
        value,
    )
}

/// `value` is the correlation that the sums of `c` show: the quotient of the cross sum and the
/// geometric mean of the energies of the channels, and 0 for silence.
pub open spec fn is_reading<M: Math>(m: &M, c: Correlation, value: Level) -> bool {
    exists|energy: Wide| #[trigger]
        call_ensures(M::geometric_mean, (m, c.sll, c.srr), energy) && (if is_silence(energy) {
            !value.nan() && value.units() == 0
        } else {
            exists|quotient: Wide| #[trigger]
                call_ensures(M::ratio, (m, c.slr, energy), quotient) && is_narrowed(
                    m,
                    quotient,
                    value,
                )
        })
}

/// What a correlation shows, over its sums.
pub proof fn lemma_reading<M: Math>(m: &M, c: Correlation, value: Level)
    requires
        crate::correlation::is_correlation(m, c.sll, c.srr, c.slr, value),
    ensures
        is_reading(m, c, value),
{
    crate::laws::numbers::lemma_zero();
    crate::laws::numbers::lemma_wide_numbers();
    let low = Wide { bits: 0xBFF0_0000_0000_0000 };
    let high = Wide { bits: 0x3FF0_0000_0000_0000 };
    let energy = choose|energy: Wide| #[trigger]
        call_ensures(M::geometric_mean, (m, c.sll, c.srr), energy) && if energy.within(
            Wide { bits: 0x3BC7_9CA1_0C92_4223 },
        ) {
            value == Level { bits: 0 }
        } else {
            exists|ratio: Wide| #[trigger]
                call_ensures(M::ratio, (m, c.slr, energy), ratio) && call_ensures(
                    M::narrow,
                    (m, ratio.clamp_to(low, high)),
                    value,
                )
        };
    if !is_silence(energy) {
        let q = choose|ratio: Wide| #[trigger]
            call_ensures(M::ratio, (m, c.slr, energy), ratio) && call_ensures(
                M::narrow,
                (m, ratio.clamp_to(low, high)),
                value,
            );
        assert(call_ensures(M::ratio, (m, c.slr, energy), q) && is_narrowed(m, q, value));
    }
    assert(call_ensures(M::geometric_mean, (m, c.sll, c.srr), energy));
}

/// The reading is the quotient itself wherever that lies between -1 and 1: where the formulas
/// have one outcome each, it is that of narrowing the quotient of the cross sum and the
/// geometric mean of the energies, for every such quotient; and silence reads 0.
pub proof fn the_reading_is_the_quotient<M: Math>(
    m: &M,
    c: &Correlation,
    energy: Wide,
    quotient: Wide,
    value: Level,
)
    requires
        crate::math::correlation_is_settled(m),
        call_ensures(Correlation::value::<M>, (c, m), value),
        call_ensures(M::geometric_mean, (m, c.sll, c.srr), energy),
        call_ensures(M::ratio, (m, c.slr, energy), quotient),
    ensures
        is_silence(energy) ==> !value.nan() && value.units() == 0,
        !is_silence(energy) && !quotient.nan() && -pow2(1074) <= quotient.units() <= pow2(1074)
            ==> call_ensures(M::narrow, (m, quotient), value),
        !is_silence(energy) ==> is_narrowed(m, quotient, value),
{
    lemma_reading(m, *c, value);
}

/// Narrowing a quantity between -1 and 1 is off by at most `eps`, keeps the order, and keeps
/// -1 and 1.
pub open spec fn narrows_closely<M: Math>(m: &M, eps: int) -> bool {
    &&& forall|x: Wide, r: Level| #[trigger]
        call_ensures(M::narrow, (m, x), r) && !x.nan() && -pow2(1074) <= x.units() <= pow2(1074)
            ==> !r.nan() && vstd::math::abs(r.units() * pow2(925) - x.units()) <= eps && (x.units()
            == pow2(1074) ==> r.units() == pow2(149)) && (x.units() == -pow2(1074) ==> r.units()
            == -pow2(149))
    &&& forall|x: Wide, y: Wide, r: Level, q: Level| #[trigger]
        call_ensures(M::narrow, (m, x), r) && #[trigger] call_ensures(M::narrow, (m, y), q)
            && !x.nan() && !y.nan() && x.units() <= y.units() ==> r.units() <= q.units()
}

/// Where narrowing is off by at most `eps`, the reading is within `eps` of the quotient
/// wherever that lies between -1 and 1; a quotient from 1 on reads 1, one up to -1 reads -1,
/// and one that is more than `eps` short of 1 reads less than 1.
pub proof fn the_reading_is_close_to_the_quotient<M: Math>(
    m: &M,
    c: &Correlation,
    energy: Wide,
    quotient: Wide,
    value: Level,
    eps: int,
)
    requires
        crate::math::correlation_is_settled(m),
        narrows_closely(m, eps),
        call_ensures(Correlation::value::<M>, (c, m), value),
        call_ensures(M::geometric_mean, (m, c.sll, c.srr), energy),
        call_ensures(M::ratio, (m, c.slr, energy), quotient),
        !is_silence(energy),
        !quotient.nan(),
    ensures
        -pow2(1074) <= quotient.units() <= pow2(1074) ==> vstd::math::abs(
            value.units() * pow2(925) - quotient.units(),
        ) <= eps,
        quotient.units() >= pow2(1074) ==> value.units() == pow2(149),
        quotient.units() <= -pow2(1074) ==> value.units() == -pow2(149),
        -pow2(1074) <= quotient.units() < pow2(1074) - eps ==> value.units() < pow2(149),
        -pow2(1074) + eps < quotient.units() <= pow2(1074) ==> value.units() > -pow2(149),
{
    the_reading_is_the_quotient(m, c, energy, quotient, value);
    crate::laws::numbers::lemma_wide_numbers();
    vstd::arithmetic::power2::lemma_pow2_adds(149, 925);
    vstd::arithmetic::power2::lemma_pow2_pos(925);
    let k = pow2(925) as int;
    let n = pow2(149) as int;
    let v = value.units();
    assert(pow2(1074) == n * k);
    assert(v >= n ==> v * k >= n * k) by (nonlinear_arith)
        requires
            k > 0,
    ;
    assert(v <= -n ==> v * k <= -(n * k)) by (nonlinear_arith)
        requires
            k > 0,
    ;
}

/// Of two meters the one with the larger quotient reads no less.
pub proof fn the_reading_rises_with_the_quotient<M: Math>(
    m: &M,
    c: &Correlation,
    d: &Correlation,
    energy: Wide,
    energy2: Wide,
    quotient: Wide,
    quotient2: Wide,
    value: Level,
    value2: Level,
    eps: int,
)
    requires
        crate::math::correlation_is_settled(m),
        narrows_closely(m, eps),
        call_ensures(Correlation::value::<M>, (c, m), value),
        call_ensures(Correlation::value::<M>, (d, m), value2),
        call_ensures(M::geometric_mean, (m, c.sll, c.srr), energy),
        call_ensures(M::ratio, (m, c.slr, energy), quotient),
        call_ensures(M::geometric_mean, (m, d.sll, d.srr), energy2),
        call_ensures(M::ratio, (m, d.slr, energy2), quotient2),
        !is_silence(energy),
        !is_silence(energy2),
        !quotient.nan(),
        !quotient2.nan(),
        quotient.units() <= quotient2.units(),
    ensures
        value.units() <= value2.units(),
{
    crate::laws::numbers::lemma_wide_numbers();
    the_reading_is_the_quotient(m, c, energy, quotient, value);
    the_reading_is_the_quotient(m, d, energy2, quotient2, value2);
}

/// `to` is the sum of products after `from`, when the channels `x` and `y` come in and, from a
/// full window, those of the oldest frame go.
pub open spec fn is_moved_by<M: Math>(
    m: &M,
    from: Wide,
    x: Level,
    y: Level,
    full: bool,
    oldest: [Level; 2],
    a: int,
    b: int,
    to: Wide,
) -> bool {
    exists|grown: Wide| #[trigger]
        call_ensures(M::gather_product, (m, from, x, y), grown) && (if full {
            call_ensures(M::shed_product, (m, grown, oldest[a], oldest[b]), to)
        } else {
            to == grown
        })
}

/// One frame moves each sum by its own product: that of the left channel with itself, of the
/// right one with itself, and of the two. What leaves a full window is its oldest frame.
pub proof fn a_frame_moves_each_sum_by_its_own_product<M: Math>(
    m: &M,
    c: &mut Correlation,
    frame: [Level; 2],
)
    requires
        call_ensures(Correlation::absorb::<M>, (c, m, frame), ()),
        old(c)@.wf(),
        old(c).cap > 0,
    ensures
        final(c).ring@ == crate::laws::analysis::shifted(old(c).ring@, frame, old(c).cap as int),
        is_moved_by(
            m,
            old(c).sll,
            frame[0],
            frame[0],
            old(c).ring@.len() == old(c).cap,
            old(c).ring@[0],
            0,
            0,
            final(c).sll,
        ),
        is_moved_by(
            m,
            old(c).srr,
            frame[1],
            frame[1],
            old(c).ring@.len() == old(c).cap,
            old(c).ring@[0],
            1,
            1,
            final(c).srr,
        ),
        is_moved_by(
            m,
            old(c).slr,
            frame[0],
            frame[1],
            old(c).ring@.len() == old(c).cap,
            old(c).ring@[0],
            0,
            1,
            final(c).slr,
        ),
{
    let s = old(c)@;
    let t = final(c)@;
    assert(t.frames =~= crate::laws::analysis::shifted(s.frames, frame, s.cap));
    assert(crate::correlation::is_product_moved(m, s.sll, frame, s.leaves(frame), 0, 0, t.sll));
    assert(crate::correlation::is_product_moved(m, s.srr, frame, s.leaves(frame), 1, 1, t.srr));
    assert(crate::correlation::is_product_moved(m, s.slr, frame, s.leaves(frame), 0, 1, t.slr));
}

/// The products of the channels `a` and `b`, added up over `frames`.
pub open spec fn products(frames: Seq<[Level; 2]>, a: int, b: int) -> int {
    frames.fold_left(0int, |sum: int, f: [Level; 2]| sum + f[a].units() * f[b].units())
}

/// The total of the products is their sum.
proof fn lemma_total_is_products(frames: Seq<[Level; 2]>, a: int, b: int)
    ensures
        crate::correlation::product_total(|x: Level| x.units(), frames, a, b) == products(
            frames,
            a,
            b,
        ),
    decreases frames.len(),
{
    if frames.len() > 0 {
        lemma_total_is_products(frames.drop_last(), a, b);
    }
}

/// An empty window is 0.3 s long, cut to whole frames.
pub proof fn a_window_at_rest(rate: u32, c: Correlation)
    requires
        call_ensures(Correlation::new, (rate,), c),
        3 * rate <= usize::MAX,
    ensures
        10 * c.cap <= 3 * rate < 10 * (c.cap + 1),
        c.ring@.len() == 0,
        c.sll.units() == 0,
        c.srr.units() == 0,
        c.slr.units() == 0,
{
    crate::laws::numbers::lemma_zero();
    assert(c@.cap == c.cap && c@.frames == c.ring@ && c@.sll == c.sll && c@.srr == c.srr && c@.slr
        == c.slr);
}

/// The window holds the newest frames, and in exact arithmetic the three sums are those of the
/// squares of the left channel, of the right channel, and of their products over it.
pub proof fn sums_are_those_of_the_window<M: Math>(
    m: &M,
    c: &mut Correlation,
    frames: &[[Level; 2]],
    wide: spec_fn(Wide) -> int,
)
    requires
        call_ensures(Correlation::process::<M>, (c, m, frames), ()),
        old(c)@.wf(),
        forall|sum: Wide, a: Level, b: Level, r: Wide| #[trigger]
            call_ensures(M::gather_product, (m, sum, a, b), r) ==> wide(r) == wide(sum) + a.units()
                * b.units(),
        forall|sum: Wide, a: Level, b: Level, r: Wide| #[trigger]
            call_ensures(M::shed_product, (m, sum, a, b), r) ==> wide(r) == wide(sum) - a.units()
                * b.units(),
        wide(old(c).sll) == products(old(c).ring@, 0, 0),
        wide(old(c).srr) == products(old(c).ring@, 1, 1),
        wide(old(c).slr) == products(old(c).ring@, 0, 1),
    ensures
        final(c).cap == old(c).cap,
        final(c).ring@ == crate::laws::analysis::newest(
            old(c).ring@ + frames@,
            old(c).cap as int,
        ),
        wide(final(c).sll) == products(final(c).ring@, 0, 0),
        wide(final(c).srr) == products(final(c).ring@, 1, 1),
        wide(final(c).slr) == products(final(c).ring@, 0, 1),
{
    let s = old(c)@;
    let t = final(c)@;
    let level = |x: Level| x.units();
    lemma_total_is_products(s.frames, 0, 0);
    lemma_total_is_products(s.frames, 1, 1);
    lemma_total_is_products(s.frames, 0, 1);
    lemma_total_is_products(t.frames, 0, 0);
    lemma_total_is_products(t.frames, 1, 1);
    lemma_total_is_products(t.frames, 0, 1);
    crate::correlation::product_sums_are_window_sums(m, s, frames@, t, level, wide);
    crate::correlation::window_holds_the_last_frames(m, s, frames@, t);
    assert(t.frames =~= crate::laws::analysis::newest(s.frames + frames@, s.cap));
}

/// Frames count one by one: where the formulas have one outcome each, taking in some frames and
/// then one more is taking in all of them, and taking in none changes nothing.
pub proof fn frames_count_one_by_one<M: Math>(
    m: &M,
    first: &mut Correlation,
    then: &mut Correlation,
    at_once: &mut Correlation,
    some: &[[Level; 2]],
    one: [Level; 2],
    all: &[[Level; 2]],
)
    requires
        crate::math::correlation_is_settled(m),
        call_ensures(Correlation::process::<M>, (first, m, some), ()),
        call_ensures(Correlation::absorb::<M>, (then, m, one), ()),
        call_ensures(Correlation::process::<M>, (at_once, m, all), ()),
        old(first)@.wf(),
        *old(at_once) == *old(first),
        *old(then) == *final(first),
        all@ == some@.push(one),
    ensures
        final(then).ring@ == final(at_once).ring@,
        final(then).cap == final(at_once).cap,
        final(then).sll == final(at_once).sll,
        final(then).srr == final(at_once).srr,
        final(then).slr == final(at_once).slr,
        some@.len() == 0 ==> final(first)@ == old(first)@,
{
    let s = old(first)@;
    let u = final(first)@;
    let t = final(then)@;
    let w = final(at_once)@;
    assert(all@.drop_last() =~= some@);
    assert(crate::correlation::takes_pair(m, u, all@.last(), t));
    assert(crate::correlation::takes_pairs(m, s, all@, t));
    crate::correlation::pairs_have_one_outcome(m, s, all@, t, w);
}

} // verus!
