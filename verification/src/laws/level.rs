//! Laws of levels: what their bit patterns are worth, and how they compare.

use crate::level::{Level, Wide};
use vstd::arithmetic::power2::pow2;
use vstd::prelude::*;

verus! {

/// The value of a level whose exponent is one higher is twice as large; up to the first
/// exponent the patterns count the units; the sign bit flips the sign; and of two patterns
/// without it the larger one is worth more.
pub proof fn patterns_are_worth_what_they_say(bits: u32, other: u32)
    requires
        bits < 0x8000_0000,
        other < 0x8000_0000,
    ensures
        bits <= 0x80_0000 ==> (Level { bits }).units() == bits,
        0x80_0000 <= bits < 0x7F80_0000 ==> (Level { bits: (bits + 0x80_0000) as u32 }).units()
            == 2 * (Level { bits }).units(),
        (Level { bits: (bits + 0x8000_0000) as u32 }).units() == -(Level { bits }).units(),
        bits < other ==> (Level { bits }).units() < (Level { bits: other }).units(),
        (Level { bits }).nan() <==> bits > 0x7F80_0000,
        (Level { bits: (bits + 0x8000_0000) as u32 }).nan() <==> bits > 0x7F80_0000,
{
    vstd::arithmetic::power2::lemma2_to64();
    Level::lemma_bits_are_ordered(Level { bits }, Level { bits: other });
    let p = pow2(23);
    assert(p == 0x80_0000);
    if bits == 0x80_0000 {
        assert(bits as nat / p == 1 && bits as nat % p == 0);
        assert(crate::level::scaled(bits as nat, 23) == p * pow2(0));
    } else if bits < 0x80_0000 {
        assert(bits as nat / p == 0);
    }
    if 0x80_0000 <= bits < 0x7F80_0000 {
        let e = bits as nat / p;
        let f = bits as nat % p;
        let next = (bits + 0x80_0000) as nat;
        assert(next / p == e + 1 && next % p == f);
        vstd::arithmetic::power2::lemma_pow2_unfold(e);
        let (a, b) = (p + f, pow2((e - 1) as nat));
        assert(a * (2 * b) == 2 * (a * b)) by (nonlinear_arith);
    }
}

/// Patterns with one exponent are equally spaced.
pub proof fn patterns_are_equally_spaced(bits: u32)
    requires
        bits < 0x7F80_0000,
        bits / 0x80_0000 == (bits + 2) / 0x80_0000,
    ensures
        (Level { bits: (bits + 2) as u32 }).units() - (Level { bits: (bits + 1) as u32 }).units()
            == (Level { bits: (bits + 1) as u32 }).units() - (Level { bits }).units(),
{
    vstd::arithmetic::power2::lemma2_to64();
    let p = pow2(23);
    let e = bits as nat / p;
    let f = bits as nat % p;
    assert((bits + 1) as nat / p == e && (bits + 1) as nat % p == f + 1);
    assert((bits + 2) as nat / p == e && (bits + 2) as nat % p == f + 2);
    if e > 0 {
        let q = pow2((e - 1) as nat);
        assert((p + (f + 1)) * q == (p + f) * q + q) by (nonlinear_arith);
        assert((p + (f + 2)) * q == (p + f) * q + 2 * q) by (nonlinear_arith);
    }
}

/// Comparing levels compares their values, and is false where one is not a number.
pub proof fn levels_compare_as_their_values(
    a: Level,
    b: Level,
    above: bool,
    at_most: bool,
    nan: bool,
    finite: bool,
)
    requires
        call_ensures(Level::above, (a, b), above),
        call_ensures(Level::at_most, (a, b), at_most),
        call_ensures(Level::is_nan, (a,), nan),
        call_ensures(Level::is_finite, (a,), finite),
    ensures
        nan <==> a.bits as int % 0x8000_0000 > 0x7F80_0000,
        finite <==> (a.bits as int) % 0x8000_0000 < 0x7F80_0000,
        a.nan() || b.nan() ==> !above && !at_most,
        !a.nan() && !b.nan() ==> (above <==> a.units() > b.units()) && (at_most <==> a.units()
            <= b.units()),
        !a.nan() && !b.nan() && a.bits < 0x8000_0000 && b.bits < 0x8000_0000 ==> (above <==> a.bits
            > b.bits),
{
    if a.bits < 0x8000_0000 && b.bits < 0x8000_0000 {
        Level::lemma_bits_are_ordered(b, a);
    }
}

/// The larger of two levels is one of them and no smaller than the other one; of one that is
/// not a number and another one it is the other one.
pub proof fn the_larger_is_one_of_the_two(a: Level, b: Level, l: Level)
    requires
        call_ensures(Level::larger, (a, b), l),
    ensures
        l == a || l == b,
        a.nan() ==> l == b,
        !a.nan() && b.nan() ==> l == a,
        !a.nan() && !b.nan() ==> l.units() == vstd::math::max(a.units(), b.units()),
{
}

/// A level cut to a range is itself within it, and the nearer end beyond it.
pub proof fn a_cut_level_is_the_nearest(x: Level, low: Level, high: Level, c: Level)
    requires
        call_ensures(Level::clamped, (x, low, high), c),
        !low.nan(),
        !high.nan(),
        low.units() <= high.units(),
    ensures
        x.nan() || low.units() <= x.units() <= high.units() ==> c == x,
        !x.nan() && x.units() < low.units() ==> c == low,
        !x.nan() && x.units() > high.units() ==> c == high,
{
}

/// Without its sign a level has the magnitude of its value.
pub proof fn without_its_sign(x: Level, a: Level)
    requires
        call_ensures(Level::abs, (x,), a),
    ensures
        a.units() == vstd::math::abs(x.units()),
        a.nan() == x.nan(),
        a.bits < 0x8000_0000,
        a.bits == x.bits as int % 0x8000_0000,
{
}

/// The index of a level is the whole number below it, or the one above it.
pub proof fn indices_are_the_whole_numbers_around(x: Level, floor: usize, ceil: usize)
    requires
        call_ensures(Level::floor, (x,), floor),
        call_ensures(Level::ceil, (x,), ceil),
        !x.nan(),
        x.units() <= 0xFF_FFFF * pow2(149),
    ensures
        x.units() >= 0 ==> floor * pow2(149) <= x.units() < (floor + 1) * pow2(149),
        x.units() >= 0 ==> (ceil - 1) * pow2(149) < x.units() <= ceil * pow2(149),
        x.units() <= 0 ==> floor == 0 && ceil == 0,
{
    if x.units() >= 0 {
        crate::laws::band::lemma_indices(x, 0x100_0000);
    }
    vstd::arithmetic::power2::lemma_pow2_pos(149);
    if x.units() == 0 {
        let p = pow2(149) as int;
        let f = floor as int;
        let c = ceil as int;
        assert(f == 0) by (nonlinear_arith)
            requires
                f * p <= 0,
                0 <= f,
                p > 0,
        ;
        assert(c == 0) by (nonlinear_arith)
            requires
                (c - 1) * p < 0,
                0 <= c,
                p > 0,
        ;
    }
}

/// The level of an index has its value, and so the index of that level is the index.
pub proof fn the_level_of_an_index_has_its_value(n: usize, l: Level, floor: usize, ceil: usize)
    requires
        call_ensures(Level::from_index, (n,), l),
        call_ensures(Level::floor, (l,), floor),
        call_ensures(Level::ceil, (l,), ceil),
        n < 0x100_0000,
    ensures
        !l.nan(),
        l.units() == n * pow2(149),
        floor == n,
        ceil == n,
{
    let p = pow2(149) as int;
    vstd::arithmetic::power2::lemma_pow2_pos(149);
    assert(0 <= n * p <= (0x100_0000 - 1) * p) by (nonlinear_arith)
        requires
            0 <= n < 0x100_0000,
            p > 0,
    ;
    crate::laws::band::lemma_indices(l, 0x100_0000);
    let f = floor as int;
    let c = ceil as int;
    assert(f == n) by (nonlinear_arith)
        requires
            f * p <= n * p < (f + 1) * p,
            p > 0,
    ;
    assert(c == n) by (nonlinear_arith)
        requires
            (c - 1) * p < n * p <= c * p,
            p > 0,
    ;
}

/// Comparing and cutting at double precision goes by the values too.
pub proof fn quantities_compare_as_their_values(
    a: Wide,
    b: Wide,
    above: bool,
    at_most: bool,
    unsigned: Wide,
)
    requires
        call_ensures(Wide::above, (a, b), above),
        call_ensures(Wide::at_most, (a, b), at_most),
        call_ensures(Wide::abs, (a,), unsigned),
    ensures
        a.nan() || b.nan() ==> !above && !at_most,
        !a.nan() && !b.nan() ==> (above <==> a.units() > b.units()) && (at_most <==> a.units()
            <= b.units()),
        unsigned.units() == vstd::math::abs(a.units()),
        unsigned.nan() == a.nan(),
        a.nan() <==> a.bits as int % 0x8000_0000_0000_0000 > 0x7FF0_0000_0000_0000,
{
}

/// A quantity cut to a range is itself within it, and the nearer end beyond it.
pub proof fn a_cut_quantity_is_the_nearest(x: Wide, low: Wide, high: Wide, c: Wide)
    requires
        call_ensures(Wide::clamped, (x, low, high), c),
        !low.nan(),
        !high.nan(),
        low.units() <= high.units(),
    ensures
        x.nan() || low.units() <= x.units() <= high.units() ==> c == x,
        !x.nan() && x.units() < low.units() ==> c == low,
        !x.nan() && x.units() > high.units() ==> c == high,
{
}

/// At double precision too, the next exponent doubles the value, the sign bit flips the sign,
/// and larger patterns without it are worth more.
pub proof fn wide_patterns_are_worth_what_they_say(bits: u64, other: u64)
    requires
        bits < 0x8000_0000_0000_0000,
        other < 0x8000_0000_0000_0000,
    ensures
        bits <= 0x10_0000_0000_0000 ==> (Wide { bits }).units() == bits,
        0x10_0000_0000_0000 <= bits < 0x7FF0_0000_0000_0000 ==> (Wide {
            bits: (bits + 0x10_0000_0000_0000) as u64,
        }).units() == 2 * (Wide { bits }).units(),
        (Wide { bits: (bits + 0x8000_0000_0000_0000) as u64 }).units() == -(Wide {
            bits,
        }).units(),
        bits < other ==> (Wide { bits }).units() < (Wide { bits: other }).units(),
{
    vstd::arithmetic::power2::lemma2_to64();
    vstd::arithmetic::power2::lemma2_to64_rest();
    let p = pow2(52);
    assert(p == 0x10_0000_0000_0000);
    if bits < other {
        crate::level::lemma_scaled_increases(bits as nat, other as nat, 52);
    }
    if bits == 0x10_0000_0000_0000 {
        assert(bits as nat / p == 1 && bits as nat % p == 0);
        assert(crate::level::scaled(bits as nat, 52) == p * pow2(0));
    } else if bits < 0x10_0000_0000_0000 {
        assert(bits as nat / p == 0);
    }
    if 0x10_0000_0000_0000 <= bits < 0x7FF0_0000_0000_0000 {
        let e = bits as nat / p;
        let f = bits as nat % p;
        let next = (bits + 0x10_0000_0000_0000) as nat;
        assert(next / p == e + 1 && next % p == f);
        vstd::arithmetic::power2::lemma_pow2_unfold(e);
        let (a, b) = (p + f, pow2((e - 1) as nat));
        assert(a * (2 * b) == 2 * (a * b)) by (nonlinear_arith);
    }
}

} // verus!
