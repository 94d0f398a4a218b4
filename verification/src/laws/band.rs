//! Laws of reading a spectrum.

use crate::level::Level;
use crate::math::Math;
use vstd::arithmetic::power2::pow2;
use vstd::prelude::*;

verus! {

/// The number between `low` and `high` that is nearest to `x`.
pub open spec fn clip(x: int, low: int, high: int) -> int {
    if x < low {
        low
    } else if x > high {
        high
    } else {
        x
    }
}

/// Where a span that starts at `lo` starts within `n` bins.
pub open spec fn start(lo: Level, n: int) -> int {
    clip(lo.units(), 0, (n - 1) * pow2(149))
}

/// Where a span from `lo` to `hi` ends within `n` bins.
pub open spec fn end(lo: Level, hi: Level, n: int) -> int {
    clip(hi.units(), start(lo, n), (n - 1) * pow2(149))
}

/// The bin `j` is one of `n` bins, and touched by the span from `lo` to `hi`: it lies less than
/// a bin below the start and less than a bin above the end.
pub open spec fn touches(lo: Level, hi: Level, n: int, j: int) -> bool {
    &&& 0 <= j < n
    &&& (j + 1) * pow2(149) > start(lo, n)
    &&& (j - 1) * pow2(149) < end(lo, hi, n)
}

/// Differences are rounded, and 1 and the largest number below it are rounded to themselves:
/// a difference of at least 1 stays so, and one that is no more than that number stays below 1.
pub open spec fn rounds_about_one<M: Math>(m: &M) -> bool {
    forall|a: Level, b: Level, r: Level| #[trigger]
        call_ensures(M::minus, (m, a, b), r) && is_index(a) && is_index(b) ==> {
            &&& a.units() - b.units() >= pow2(149) ==> !r.nan() && r.units() >= pow2(149)
            &&& 0x100_0000 * (a.units() - b.units()) <= 0xFF_FFFF * pow2(149) ==> !r.nan()
                && r.units() < pow2(149)
        }
}

/// `x` numbers a bin, or lies between two.
pub open spec fn is_index(x: Level) -> bool {
    !x.nan() && 0 <= x.units() <= 0x100_0000 * pow2(149)
}

/// The span from `lo` to `hi` covers at least a bin of `n` bins.
pub open spec fn is_wide(lo: Level, hi: Level, n: int) -> bool {
    end(lo, hi, n) - start(lo, n) >= pow2(149)
}

/// The span from `lo` to `hi` covers less than a bin of `n` bins, by one part in 2^24 at least.
pub open spec fn is_narrow(lo: Level, hi: Level, n: int) -> bool {
    0x100_0000 * (end(lo, hi, n) - start(lo, n)) <= 0xFF_FFFF * pow2(149)
}

/// How the index of a level relates to its value.
pub proof fn lemma_indices(x: Level, n: int)
    requires
        !x.nan(),
        0 <= x.units() <= (n - 1) * pow2(149),
        1 <= n <= 0x100_0000,
    ensures
        0 <= x.floor_index() < n,
        x.floor_index() * pow2(149) <= x.units() < (x.floor_index() + 1) * pow2(149),
        0 <= x.ceil_index() < n,
        (x.ceil_index() - 1) * pow2(149) < x.units() <= x.ceil_index() * pow2(149),
        x.floor_index() <= x.ceil_index(),
{
    let p = pow2(149) as int;
    let u = x.units();
    vstd::arithmetic::power2::lemma_pow2_pos(149);
    if x.negative() {
        assert(u <= 0);
        assert(0 * p == 0 && 1 * p == p && -1 * p == -p);
        assert(x.floor_index() == 0 && x.ceil_index() == 0);
    } else {
        let q = u / p;
        vstd::arithmetic::div_mod::lemma_fundamental_div_mod(u, p);
        vstd::arithmetic::div_mod::lemma_mod_bound(u, p);
        assert(q * p <= u < (q + 1) * p && q >= 0) by (nonlinear_arith)
            requires
                u == p * q + u % p,
                0 <= u % p < p,
                u >= 0,
        ;
        assert(q <= n - 1) by (nonlinear_arith)
            requires
                q * p <= u,
                u <= (n - 1) * p,
                p > 0,
        ;
        let v = u + p - 1;
        let c = v / p;
        vstd::arithmetic::div_mod::lemma_fundamental_div_mod(v, p);
        vstd::arithmetic::div_mod::lemma_mod_bound(v, p);
        assert((c - 1) * p < u <= c * p && c >= 0) by (nonlinear_arith)
            requires
                u + p - 1 == p * c + v % p,
                0 <= v % p < p,
                u >= 0,
        ;
        assert(c <= n - 1) by (nonlinear_arith)
            requires
                (c - 1) * p < u,
                u <= (n - 1) * p,
                p > 0,
        ;
        assert(q <= c) by (nonlinear_arith)
            requires
                q * p <= u,
                u <= c * p,
                p > 0,
        ;
    }
}

/// What the reading of a span is, with its edges as levels and its bins as numbers.
proof fn lemma_span<M: Math>(m: &M, spectrum: Seq<Level>, lo: Level, hi: Level, db: Level) -> (r: (
    Level,
    Level,
))
    requires
        crate::band::is_band(m, spectrum, lo, hi, db),
        rounds_about_one(m),
        1 <= spectrum.len() <= 0x100_0000,
        !lo.nan(),
        !hi.nan(),
    ensures
        !r.0.nan(),
        !r.1.nan(),
        r.0.units() == start(lo, spectrum.len() as int),
        r.1.units() == end(lo, hi, spectrum.len() as int),
        is_wide(lo, hi, spectrum.len() as int) ==> db == crate::band::peak_of(
            crate::band::touched(spectrum, r.0, r.1),
        ),
        is_narrow(lo, hi, spectrum.len() as int) ==> exists|middle: Level| #[trigger]
            call_ensures(M::midpoint, (m, r.0, r.1), middle) && crate::band::is_point(
                m,
                spectrum,
                middle,
                db,
            ),
{
    crate::laws::numbers::lemma_zero();
    crate::laws::numbers::lemma_whole_numbers();
    crate::laws::numbers::lemma_small_numbers();
    let n = spectrum.len() as int;
    let one = Level { bits: 0x3F80_0000 };
    let last = choose|last: Level|
        #![trigger crate::band::is_whole(last, n - 1)]
        crate::band::is_whole(last, n - 1) && {
            let from = lo.clamp_to(Level { bits: 0 }, last);
            let to = hi.clamp_to(from, last);
            exists|span: Level| #[trigger]
                call_ensures(M::minus, (m, to, from), span) && if one.exceeds(span) {
                    exists|middle: Level| #[trigger]
                        call_ensures(M::midpoint, (m, from, to), middle) && crate::band::is_point(
                            m,
                            spectrum,
                            middle,
                            db,
                        )
                } else {
                    db == crate::band::peak_of(crate::band::touched(spectrum, from, to))
                }
        };
    let p = pow2(149) as int;
    assert((n - 1) * p >= 0) by (nonlinear_arith)
        requires
            n >= 1,
            p > 0,
    ;
    let from = lo.clamp_to(Level { bits: 0 }, last);
    let to = hi.clamp_to(from, last);
    assert(from.units() == start(lo, n));
    assert(to.units() == end(lo, hi, n));
    assert((n - 1) * p <= 0x100_0000 * p) by (nonlinear_arith)
        requires
            n <= 0x100_0000,
            p > 0,
    ;
    assert(is_index(from) && is_index(to));
    (from, to)
}

/// A span touches the bins from the whole number below its start to the one above its end.
proof fn lemma_touched(spectrum: Seq<Level>, lo: Level, hi: Level, from: Level, to: Level)
    requires
        1 <= spectrum.len() <= 0x100_0000,
        !from.nan(),
        !to.nan(),
        from.units() == start(lo, spectrum.len() as int),
        to.units() == end(lo, hi, spectrum.len() as int),
    ensures
        0 <= from.floor_index() < from.floor_index() + crate::band::touched(
            spectrum,
            from,
            to,
        ).len() <= spectrum.len(),
        crate::band::touched(spectrum, from, to) == spectrum.subrange(
            from.floor_index(),
            from.floor_index() + crate::band::touched(spectrum, from, to).len(),
        ),
        forall|j: int| #[trigger]
            touches(lo, hi, spectrum.len() as int, j) <==> from.floor_index() <= j
                < from.floor_index() + crate::band::touched(spectrum, from, to).len(),
{
    let n = spectrum.len() as int;
    let p = pow2(149) as int;
    vstd::arithmetic::power2::lemma_pow2_pos(149);
    assert((n - 1) * p >= 0) by (nonlinear_arith)
        requires
            n >= 1,
            p > 0,
    ;
    lemma_indices(from, n);
    lemma_indices(to, n);
    let a = from.floor_index();
    let c = to.ceil_index();
    let f = from.units();
    let t = to.units();
    assert(a <= c) by (nonlinear_arith)
        requires
            a * p <= f,
            f <= t,
            t <= c * p,
            p > 0,
    ;
    let bins = crate::band::touched(spectrum, from, to);
    assert(bins =~= spectrum.subrange(a, c + 1));
    assert forall|j: int| #[trigger] touches(lo, hi, n, j) <==> a <= j < a + bins.len() by {
        assert((j + 1) * p > f <==> j >= a) by (nonlinear_arith)
            requires
                a * p <= f < (a + 1) * p,
                p > 0,
        ;
        assert((j - 1) * p < t <==> j <= c) by (nonlinear_arith)
            requires
                (c - 1) * p < t <= c * p,
                p > 0,
        ;
    }
}

/// A span at least a bin wide reads the largest level of the bins that it touches, and of no
/// other bin: none of them is larger, and the reading is one of them, or negative infinity.
pub proof fn a_wide_span_reads_its_largest_bin<M: Math>(
    m: &M,
    spectrum: &Vec<Level>,
    lo: Level,
    hi: Level,
    db: Level,
)
    requires
        call_ensures(crate::band::sample_band::<M>, (m, spectrum, lo, hi), db),
        rounds_about_one(m),
        1 <= spectrum@.len() <= 0x100_0000,
        !lo.nan(),
        !hi.nan(),
        is_wide(lo, hi, spectrum@.len() as int),
    ensures
        is_largest(spectrum@, lo, hi, db),
{
    lemma_span_reading(m, spectrum@, lo, hi, db);
}

/// Two spectra that agree on the bins that a span at least a bin wide touches read the same
/// over it, whatever the other bins hold.
pub proof fn a_wide_span_reads_its_own_bins<M: Math>(
    m: &M,
    one: &Vec<Level>,
    other: &Vec<Level>,
    lo: Level,
    hi: Level,
    db: Level,
    db2: Level,
)
    requires
        call_ensures(crate::band::sample_band::<M>, (m, one, lo, hi), db),
        call_ensures(crate::band::sample_band::<M>, (m, other, lo, hi), db2),
        rounds_about_one(m),
        1 <= one@.len() <= 0x100_0000,
        other@.len() == one@.len(),
        !lo.nan(),
        !hi.nan(),
        is_wide(lo, hi, one@.len() as int),
        forall|j: int| #[trigger]
            touches(lo, hi, one@.len() as int, j) ==> one@[j] == other@[j],
    ensures
        db == db2,
{
    let (from, to) = lemma_span(m, one@, lo, hi, db);
    let (from2, to2) = lemma_span(m, other@, lo, hi, db2);
    lemma_touched(one@, lo, hi, from, to);
    lemma_touched(other@, lo, hi, from2, to2);
    let bins = crate::band::touched(one@, from, to);
    let bins2 = crate::band::touched(other@, from2, to2);
    let n = one@.len() as int;
    lemma_same_start(from, from2, n);
    let a = from.floor_index();
    let k = bins.len() as int;
    let k2 = bins2.len() as int;
    assert(touches(lo, hi, n, a + k - 1));
    assert(touches(lo, hi, n, a + k2 - 1));
    assert(k == k2);
    assert forall|i: int| 0 <= i < k implies bins[i] == bins2[i] by {
        assert(touches(lo, hi, n, a + i));
    }
    assert(bins =~= bins2);
}

/// Levels of one value have one index.
proof fn lemma_same_start(x: Level, y: Level, n: int)
    requires
        !x.nan(),
        !y.nan(),
        x.units() == y.units(),
        0 <= x.units() <= (n - 1) * pow2(149),
        1 <= n <= 0x100_0000,
    ensures
        x.floor_index() == y.floor_index(),
{
    lemma_indices(x, n);
    lemma_indices(y, n);
    vstd::arithmetic::power2::lemma_pow2_pos(149);
    let p = pow2(149) as int;
    let a = x.floor_index();
    let b = y.floor_index();
    assert(a == b) by (nonlinear_arith)
        requires
            a * p <= x.units() < (a + 1) * p,
            b * p <= x.units() < (b + 1) * p,
            p > 0,
    ;
}

/// `db` is what the spectrum reads at the fractional bin of the value `x`: an outcome of
/// interpolating, at that place, between the bin that it lies in and the next one.
pub open spec fn is_between_bins<M: Math>(
    m: &M,
    spectrum: Seq<Level>,
    x: int,
    db: Level,
) -> bool {
    exists|at: Level, k: int|
        {
            &&& 0 <= k < spectrum.len()
            &&& !at.nan()
            &&& at.units() == clip(x, 0, (spectrum.len() - 1) * pow2(149))
            &&& k * pow2(149) <= at.units() < (k + 1) * pow2(149)
            &&& #[trigger] call_ensures(
                M::interpolate,
                (
                    m,
                    spectrum[k],
                    spectrum[vstd::math::min(k + 1, spectrum.len() - 1)],
                    at,
                    k as usize,
                ),
                db,
            )
        }
}

/// How a point lies between two bins.
proof fn lemma_point<M: Math>(m: &M, spectrum: Seq<Level>, bin: Level, db: Level)
    requires
        crate::band::is_point(m, spectrum, bin, db),
        1 <= spectrum.len() <= 0x100_0000,
        !bin.nan(),
    ensures
        is_between_bins(m, spectrum, bin.units(), db),
{
    crate::laws::numbers::lemma_zero();
    vstd::arithmetic::power2::lemma_pow2_pos(149);
    let n = spectrum.len() as int;
    let last = choose|last: Level|
        #![trigger crate::band::is_whole(last, n - 1)]
        crate::band::is_whole(last, n - 1) && {
            let at = bin.clamp_to(Level { bits: 0 }, last);
            let below = at.floor_index();
            let above = if below + 1 < n {
                below + 1
            } else {
                n - 1
            };
            call_ensures(
                M::interpolate,
                (m, spectrum[below], spectrum[above], at, below as usize),
                db,
            )
        };
    let p = pow2(149) as int;
    assert((n - 1) * p >= 0) by (nonlinear_arith)
        requires
            n >= 1,
            p > 0,
    ;
    let at = bin.clamp_to(Level { bits: 0 }, last);
    lemma_indices(at, n);
    let k = at.floor_index();
    let next = vstd::math::min(k + 1, n - 1);
    assert(call_ensures(M::interpolate, (m, spectrum[k], spectrum[next], at, k as usize), db));
}

/// The reading at a fractional bin is an outcome of interpolating between the bin that it lies
/// in and the next one; past the ends it is that of the end, and of no bins it is -120 dB.
pub proof fn a_point_lies_between_two_bins<M: Math>(
    m: &M,
    spectrum: &Vec<Level>,
    bin: Level,
    db: Level,
)
    requires
        call_ensures(crate::band::sample_spectrum::<M>, (m, spectrum, bin), db),
        spectrum@.len() <= 0x100_0000,
        !bin.nan(),
    ensures
        spectrum@.len() == 0 ==> db.units() == -120 * pow2(149),
        spectrum@.len() > 0 ==> is_between_bins(m, spectrum@, bin.units(), db),
{
    crate::laws::numbers::lemma_whole_numbers();
    if spectrum@.len() > 0 {
        lemma_point(m, spectrum@, bin, db);
    }
}

/// `db` is what the spectrum reads at the middle of a span, between edges of the values `f`
/// and `t`.
pub open spec fn is_at_the_middle<M: Math>(
    m: &M,
    spectrum: Seq<Level>,
    f: int,
    t: int,
    db: Level,
) -> bool {
    exists|from: Level, to: Level, middle: Level| #[trigger]
        call_ensures(M::midpoint, (m, from, to), middle) && from.units() == f && to.units() == t && (
        !middle.nan() ==> is_between_bins(m, spectrum, middle.units(), db))
}

/// A span narrower than a bin reads what lies at its middle; and of no bins there is nothing to
/// read but -120 dB.
pub proof fn a_narrow_span_reads_its_middle<M: Math>(
    m: &M,
    spectrum: &Vec<Level>,
    lo: Level,
    hi: Level,
    db: Level,
)
    requires
        call_ensures(crate::band::sample_band::<M>, (m, spectrum, lo, hi), db),
        rounds_about_one(m),
        spectrum@.len() <= 0x100_0000,
        !lo.nan(),
        !hi.nan(),
    ensures
        spectrum@.len() == 0 ==> db.units() == -120 * pow2(149),
        spectrum@.len() > 0 && is_narrow(lo, hi, spectrum@.len() as int) ==> is_at_the_middle(
            m,
            spectrum@,
            start(lo, spectrum@.len() as int),
            end(lo, hi, spectrum@.len() as int),
            db,
        ),
{
    lemma_span_reading(m, spectrum@, lo, hi, db);
}

/// `db` is the reading of `spectrum` over the span from `lo` to `hi`.
pub open spec fn is_span_reading<M: Math>(
    m: &M,
    spectrum: Seq<Level>,
    lo: Level,
    hi: Level,
    db: Level,
) -> bool {
    let n = spectrum.len() as int;
    &&& n == 0 ==> !db.nan() && db.units() == -120 * pow2(149)
    &&& n > 0 && !lo.nan() && !hi.nan() && is_wide(lo, hi, n) ==> is_largest(
        spectrum,
        lo,
        hi,
        db,
    )
    &&& n > 0 && !lo.nan() && !hi.nan() && is_narrow(lo, hi, n) ==> is_at_the_middle(
        m,
        spectrum,
        start(lo, n),
        end(lo, hi, n),
        db,
    )
}

/// `db` is the largest level of the bins of `spectrum` that the span from `lo` to `hi` touches.
pub open spec fn is_largest(spectrum: Seq<Level>, lo: Level, hi: Level, db: Level) -> bool {
    let n = spectrum.len() as int;
    &&& !db.nan()
    &&& forall|j: int| #[trigger]
        touches(lo, hi, n, j) && !spectrum[j].nan() ==> spectrum[j].units() <= db.units()
    &&& db.bits == 0xFF80_0000 || exists|j: int| #[trigger]
        touches(lo, hi, n, j) && spectrum[j] == db
}

/// What a band reads.
pub proof fn lemma_span_reading<M: Math>(
    m: &M,
    spectrum: Seq<Level>,
    lo: Level,
    hi: Level,
    db: Level,
)
    requires
        crate::band::is_band(m, spectrum, lo, hi, db),
        rounds_about_one(m),
        spectrum.len() <= 0x100_0000,
    ensures
        is_span_reading(m, spectrum, lo, hi, db),
{
    crate::laws::numbers::lemma_whole_numbers();
    let n = spectrum.len() as int;
    if n > 0 && !lo.nan() && !hi.nan() {
        let (from, to) = lemma_span(m, spectrum, lo, hi, db);
        if is_wide(lo, hi, n) {
            lemma_touched(spectrum, lo, hi, from, to);
            let bins = crate::band::touched(spectrum, from, to);
            let a = from.floor_index();
            crate::band::peak_is_the_largest(bins);
            assert forall|j: int| #[trigger]
                touches(lo, hi, n, j) && !spectrum[j].nan() implies spectrum[j].units()
                <= db.units() by {
                assert(bins[j - a] == spectrum[j]);
            }
            if bins.contains(db) {
                let i = bins.index_of(db);
                assert(spectrum[a + i] == bins[i]);
                assert(touches(lo, hi, n, a + i));
            }
        }
        if is_narrow(lo, hi, n) {
            let middle = choose|middle: Level| #[trigger]
                call_ensures(M::midpoint, (m, from, to), middle) && crate::band::is_point(
                    m,
                    spectrum,
                    middle,
                    db,
                );
            if !middle.nan() {
                lemma_point(m, spectrum, middle, db);
            }
            assert(call_ensures(M::midpoint, (m, from, to), middle));
        }
    }
}

/// An axis reaches up to 20 kHz, or up to half the sample rate where that is less.
pub proof fn an_axis_reaches_twenty_kilohertz(rate: u32, top: u32)
    requires
        call_ensures(crate::band::twice_the_highest, (rate,), top),
    ensures
        top == vstd::math::min(rate as int, 40_000),
{
}

/// Rows are made for a sample rate of at least 2 Hz.
pub proof fn rows_are_made_for_two_hertz_at_least(rate: u32, r: u32)
    requires
        call_ensures(crate::band::rate_of_rows, (rate,), r),
    ensures
        r == vstd::math::max(rate as int, 2),
{
}

} // verus!
