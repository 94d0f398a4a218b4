//! Reading a spectrum over a span of fractional bins.

use crate::analysis::{FLOOR_DB, ONE};
use crate::level::{Level, NEG_INFINITY, ZERO};
use crate::math::Math;
use vstd::arithmetic::power2::pow2;
use vstd::prelude::*;

verus! {

/// Longest spectrum whose bins a level can number exactly.
pub const MAX_BINS: usize = 0x100_0000;

/// Twice the highest frequency on an axis, in Hz.
pub const TWICE_F_MAX: u32 = 40_000;

/// Twice the highest frequency that an axis shows at the sample rate `rate`: that of 20 kHz,
/// or the rate itself where half of it lies below.
pub open spec fn axis_top(rate: u32) -> u32 {
    if rate < TWICE_F_MAX {
        rate
    } else {
        TWICE_F_MAX
    }
}

/// Twice the highest frequency that an axis shows.
pub fn twice_the_highest(rate: u32) -> (f: u32)
    ensures
        f == axis_top(rate),
{
    if rate < TWICE_F_MAX {
        rate
    } else {
        TWICE_F_MAX
    }
}

/// The sample rate that rows are made for: half of it is at least 1 Hz.
pub open spec fn row_rate(rate: u32) -> u32 {
    if rate < 2 {
        2
    } else {
        rate
    }
}

/// The sample rate that rows are made for.
pub fn rate_of_rows(rate: u32) -> (r: u32)
    ensures
        r == row_rate(rate),
{
    if rate < 2 {
        2
    } else {
        rate
    }
}

/// The largest of `levels`; negative infinity when there is none.
pub open spec fn peak_of(levels: Seq<Level>) -> Level
    decreases levels.len(),
{
    if levels.len() == 0 {
        Level { bits: NEG_INFINITY }
    } else {
        peak_of(levels.drop_last()).max_with(levels.last())
    }
}

/// The level whose value is the whole number `n`.
pub open spec fn is_whole(l: Level, n: int) -> bool {
    !l.nan() && !l.negative() && l.units() == n * pow2(149)
}

/// `db` is the linear interpolation of `spectrum` at the fractional bin `bin`, which counts
/// as the nearest bin where there is none.
pub open spec fn is_point<M: Math>(m: &M, spectrum: Seq<Level>, bin: Level, db: Level) -> bool {
    if spectrum.len() == 0 {
        db == Level { bits: FLOOR_DB }
    } else {
        exists|last: Level|
            #![trigger is_whole(last, spectrum.len() - 1)]
            is_whole(last, spectrum.len() - 1) && {
                let at = bin.clamp_to(Level { bits: ZERO }, last);
                let below = at.floor_index();
                let above = if below + 1 < spectrum.len() {
                    below + 1
                } else {
                    spectrum.len() - 1
                };
                call_ensures(
                    M::interpolate,
                    (m, spectrum[below], spectrum[above], at, below as usize),
                    db,
                )
            }
    }
}

/// `db` is the value of `spectrum` over the fractional bins from `lo` to `hi`: the
/// interpolated value in the middle of a span narrower than a bin, and the peak over every
/// bin it touches otherwise.
pub open spec fn is_band<M: Math>(
    m: &M,
    spectrum: Seq<Level>,
    lo: Level,
    hi: Level,
    db: Level,
) -> bool {
    if spectrum.len() == 0 {
        db == Level { bits: FLOOR_DB }
    } else {
        exists|last: Level|
            #![trigger is_whole(last, spectrum.len() - 1)]
            is_whole(last, spectrum.len() - 1) && {
                let from = lo.clamp_to(Level { bits: ZERO }, last);
                let to = hi.clamp_to(from, last);
                exists|span: Level| #[trigger]
                    call_ensures(M::minus, (m, to, from), span) && if (Level {
                        bits: ONE,
                    }).exceeds(span) {
                        exists|middle: Level| #[trigger]
                            call_ensures(M::midpoint, (m, from, to), middle) && is_point(
                                m,
                                spectrum,
                                middle,
                                db,
                            )
                    } else {
                        db == peak_of(touched(spectrum, from, to))
                    }
            }
    }
}

/// The bins of `spectrum` that the span from `from` to `to` touches.
pub open spec fn touched(spectrum: Seq<Level>, from: Level, to: Level) -> Seq<Level> {
    let first = from.floor_index();
    let end = if to.ceil_index() < spectrum.len() {
        to.ceil_index() + 1
    } else {
        spectrum.len() as int
    };
    if first < end {
        spectrum.subrange(first, end)
    } else {
        Seq::empty()
    }
}

/// The whole number `n` is not below zero.
proof fn lemma_whole_not_negative(last: Level, n: int)
    requires
        is_whole(last, n),
        n >= 0,
    ensures
        (Level { bits: ZERO }).within(last),
{
    vstd::arithmetic::power2::lemma2_to64();
    vstd::arithmetic::power2::lemma_pow2_pos(149);
    assert((Level { bits: ZERO }).units() == 0);
    assert(n * pow2(149) >= 0) by (nonlinear_arith)
        requires
            n >= 0,
            pow2(149) > 0,
    ;
}

/// What lies between 0 and `n` has no more than `n` wholes in it.
proof fn lemma_floor_within(at: Level, last: Level, n: int)
    requires
        is_whole(last, n),
        0 <= n <= usize::MAX,
        !at.exceeds(last),
    ensures
        0 <= at.floor_index() <= n,
{
    if !at.nan() && !at.negative() {
        let one = pow2(149) as int;
        vstd::arithmetic::power2::lemma_pow2_pos(149);
        vstd::arithmetic::div_mod::lemma_div_is_ordered(at.units(), n * one, one);
        vstd::arithmetic::div_mod::lemma_div_multiples_vanish(n, one);
        assert(n * one == one * n) by (nonlinear_arith);
        vstd::arithmetic::div_mod::lemma_div_pos_is_pos(at.units(), one);
    }
}

/// Linear interpolation of a spectrum at a fractional bin.
pub fn sample_spectrum<M: Math>(m: &M, spectrum: &Vec<Level>, bin: Level) -> (db: Level)
    requires
        spectrum@.len() <= MAX_BINS,
    ensures
        is_point(m, spectrum@, bin, db),
{
    if spectrum.len() == 0 {
        return Level { bits: FLOOR_DB };
    }
    let last = Level::from_index(spectrum.len() - 1);
    proof {
        assert(is_whole(last, spectrum@.len() - 1));
        lemma_whole_not_negative(last, spectrum@.len() - 1);
    }
    let at = bin.clamped(Level { bits: ZERO }, last);
    let below = at.floor();
    proof {
        lemma_floor_within(at, last, spectrum@.len() - 1);
    }
    let above = if below + 1 < spectrum.len() {
        below + 1
    } else {
        spectrum.len() - 1
    };
    m.interpolate(spectrum[below], spectrum[above], at, below)
}

/// The value of a spectrum over the fractional bins from `lo` to `hi`.
///
/// Spans wider than a bin take the peak, so a narrow tone stays visible where one row or
/// pixel covers many bins. Narrower spans interpolate instead of stair-stepping.
pub fn sample_band<M: Math>(m: &M, spectrum: &Vec<Level>, lo: Level, hi: Level) -> (db: Level)
    requires
        spectrum@.len() <= MAX_BINS,
    ensures
        is_band(m, spectrum@, lo, hi, db),
{
    if spectrum.len() == 0 {
        return Level { bits: FLOOR_DB };
    }
    let last = Level::from_index(spectrum.len() - 1);
    proof {
        assert(is_whole(last, spectrum@.len() - 1));
        lemma_whole_not_negative(last, spectrum@.len() - 1);
    }
    let from = lo.clamped(Level { bits: ZERO }, last);
    let to = if from.above(hi) {
        from
    } else if hi.above(last) {
        last
    } else {
        hi
    };
    let span = m.minus(to, from);
    if (Level { bits: ONE }).above(span) {
        let middle = m.midpoint(from, to);
        return sample_spectrum(m, spectrum, middle);
    }
    let first = from.floor();
    let top = to.ceil();
    let end = if top < spectrum.len() {
        top + 1
    } else {
        spectrum.len()
    };
    let mut peak = Level { bits: NEG_INFINITY };
    let mut i = first;
    proof {
        lemma_floor_within(from, last, spectrum@.len() - 1);
        assert(spectrum@.subrange(first as int, first as int) =~= Seq::empty());
    }
    while i < end
        invariant
            end <= spectrum@.len(),
            first <= i,
            first <= spectrum@.len(),
            i <= end || i == first,
            first < end ==> peak == peak_of(spectrum@.subrange(first as int, i as int)),
            first >= end ==> peak == (Level { bits: NEG_INFINITY }),
        decreases end - i,
    {
        proof {
            let next = spectrum@.subrange(first as int, i + 1);
            assert(next.drop_last() =~= spectrum@.subrange(first as int, i as int));
            assert(next.last() == spectrum@[i as int]);
        }
        peak = peak.larger(spectrum[i]);
        i += 1;
    }
    peak
}

/// The peak of some levels is a number that none of them exceeds, and one of them, or
/// negative infinity.
pub proof fn peak_is_the_largest(levels: Seq<Level>)
    ensures
        !peak_of(levels).nan(),
        forall|i: int| 0 <= i < levels.len() ==> !(#[trigger] levels[i]).exceeds(peak_of(levels)),
        peak_of(levels) == (Level { bits: NEG_INFINITY }) || levels.contains(peak_of(levels)),
    decreases levels.len(),
{
    if levels.len() > 0 {
        let rest = levels.drop_last();
        peak_is_the_largest(rest);
        assert forall|i: int| 0 <= i < levels.len() implies !(#[trigger] levels[i]).exceeds(
            peak_of(levels),
        ) by {
            if i < rest.len() {
                assert(rest[i] == levels[i]);
            }
        }
        assert(levels[levels.len() - 1] == levels.last());
        if peak_of(levels) == peak_of(rest) {
            if rest.contains(peak_of(rest)) {
                let i = choose|i: int| 0 <= i < rest.len() && rest[i] == peak_of(rest);
                assert(levels[i] == peak_of(levels));
            }
        } else {
            assert(levels[levels.len() - 1] == peak_of(levels));
        }
    }
}

/// There is one level for a whole number.
proof fn lemma_whole_unique(a: Level, b: Level, n: int)
    requires
        is_whole(a, n),
        is_whole(b, n),
    ensures
        a == b,
{
    if a.magnitude() < b.magnitude() {
        crate::level::lemma_scaled_increases(a.magnitude(), b.magnitude(), 23);
    } else if b.magnitude() < a.magnitude() {
        crate::level::lemma_scaled_increases(b.magnitude(), a.magnitude(), 23);
    }
}

/// A tone is not missed: a span that is not narrower than a bin reads no lower than any
/// bin it touches.
pub proof fn wide_band_misses_no_tone<M: Math>(
    m: &M,
    spectrum: Seq<Level>,
    last: Level,
    lo: Level,
    hi: Level,
    db: Level,
    bin: int,
)
    requires
        0 < spectrum.len() <= MAX_BINS,
        is_whole(last, spectrum.len() - 1),
        is_band(m, spectrum, lo, hi, db),
        ({
            let from = lo.clamp_to(Level { bits: ZERO }, last);
            let to = hi.clamp_to(from, last);
            &&& forall|span: Level|
                call_ensures(M::minus, (m, to, from), span) ==> !(Level { bits: ONE }).exceeds(span)
            &&& from.floor_index() <= bin <= to.ceil_index()
        }),
        bin < spectrum.len(),
    ensures
        !spectrum[bin].exceeds(db),
{
    let own = choose|own: Level|
        #![trigger is_whole(own, spectrum.len() - 1)]
        is_whole(own, spectrum.len() - 1) && {
            let from = lo.clamp_to(Level { bits: ZERO }, own);
            let to = hi.clamp_to(from, own);
            exists|span: Level| #[trigger]
                call_ensures(M::minus, (m, to, from), span) && if (Level { bits: ONE }).exceeds(
                    span,
                ) {
                    exists|middle: Level| #[trigger]
                        call_ensures(M::midpoint, (m, from, to), middle) && is_point(
                            m,
                            spectrum,
                            middle,
                            db,
                        )
                } else {
                    db == peak_of(touched(spectrum, from, to))
                }
        };
    lemma_whole_unique(own, last, spectrum.len() - 1);
    let from = lo.clamp_to(Level { bits: ZERO }, last);
    let to = hi.clamp_to(from, last);
    let bins = touched(spectrum, from, to);
    assert(db == peak_of(bins));
    peak_is_the_largest(bins);
    lemma_whole_not_negative(last, spectrum.len() - 1);
    lemma_floor_within(from, last, spectrum.len() - 1);
    assert(bins[bin - from.floor_index()] == spectrum[bin]);
}

} // verus!
