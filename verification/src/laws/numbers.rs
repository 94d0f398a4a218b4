//! The values of bit patterns.

use crate::level::{Level, Wide};
use vstd::arithmetic::power2::pow2;
use vstd::prelude::*;

verus! {

/// The value of a positive pattern: its significand is `n` times a power of two, and the
/// exponents add up to that of the unit.
pub proof fn lemma_value(bits: u32, n: nat, k: nat)
    requires
        0x80_0000 <= bits < 0x7F80_0000,
        k <= 23,
        0x80_0000 + bits % 0x80_0000 == n * pow2(k),
        k + bits / 0x80_0000 == 150,
    ensures
        (Level { bits }).units() == n * pow2(149),
        !(Level { bits }).nan(),
        !(Level { bits }).negative(),
{
    vstd::arithmetic::power2::lemma2_to64();
    let e = (bits / 0x80_0000 - 1) as nat;
    vstd::arithmetic::power2::lemma_pow2_adds(k, e);
    assert(n * pow2(k) * pow2(e) == n * (pow2(k) * pow2(e))) by (nonlinear_arith);
    assert(e == ((bits as nat) / pow2(23) - 1) as nat);
}

/// The value of a negative pattern.
pub proof fn lemma_negative_value(bits: u32, n: nat, k: nat)
    requires
        0x8080_0000 <= bits < 0xFF80_0000,
        k <= 23,
        0x80_0000 + (bits - 0x8000_0000) % 0x80_0000 == n * pow2(k),
        k + (bits - 0x8000_0000) / 0x80_0000 == 150,
    ensures
        (Level { bits }).units() == -(n * pow2(149)),
        !(Level { bits }).nan(),
        (Level { bits }).negative(),
{
    lemma_value((bits - 0x8000_0000) as u32, n, k);
}

/// Zero is worth nothing.
pub proof fn lemma_zero()
    ensures
        (Level { bits: 0 }).units() == 0,
        !(Level { bits: 0 }).nan(),
        (Wide { bits: 0 }).units() == 0,
        !(Wide { bits: 0 }).nan(),
{
    vstd::arithmetic::power2::lemma_pow2_pos(23);
    vstd::arithmetic::power2::lemma_pow2_pos(52);
}

/// The patterns of 1, 10 and 20, and those of -1, -6, -9, -16, -20, -40, -60, -70, -100 and
/// -120.
pub proof fn lemma_whole_numbers()
    ensures
        (Level { bits: 0x3F80_0000 }).units() == pow2(149),
        (Level { bits: 0x4120_0000 }).units() == 10 * pow2(149),
        (Level { bits: 0x41A0_0000 }).units() == 20 * pow2(149),
        (Level { bits: 0xBF80_0000 }).units() == -(pow2(149) as int),
        (Level { bits: 0xC0C0_0000 }).units() == -6 * pow2(149),
        (Level { bits: 0xC110_0000 }).units() == -9 * pow2(149),
        (Level { bits: 0xC180_0000 }).units() == -16 * pow2(149),
        (Level { bits: 0xC1A0_0000 }).units() == -20 * pow2(149),
        (Level { bits: 0xC220_0000 }).units() == -40 * pow2(149),
        (Level { bits: 0xC270_0000 }).units() == -60 * pow2(149),
        (Level { bits: 0xC28C_0000 }).units() == -70 * pow2(149),
        (Level { bits: 0xC2C8_0000 }).units() == -100 * pow2(149),
        (Level { bits: 0xC2F0_0000 }).units() == -120 * pow2(149),
        pow2(149) > 0,
{
    vstd::arithmetic::power2::lemma2_to64();
    vstd::arithmetic::power2::lemma_pow2_pos(149);
    lemma_value(0x3F80_0000, 1, 23);
    lemma_value(0x4120_0000, 10, 20);
    lemma_value(0x41A0_0000, 20, 19);
    lemma_negative_value(0xBF80_0000, 1, 23);
    lemma_negative_value(0xC0C0_0000, 6, 21);
    lemma_negative_value(0xC110_0000, 9, 20);
    lemma_negative_value(0xC180_0000, 16, 19);
    lemma_negative_value(0xC1A0_0000, 20, 19);
    lemma_negative_value(0xC220_0000, 40, 18);
    lemma_negative_value(0xC270_0000, 60, 18);
    lemma_negative_value(0xC28C_0000, 70, 17);
    lemma_negative_value(0xC2C8_0000, 100, 17);
    lemma_negative_value(0xC2F0_0000, 120, 17);
}

/// The pattern of 1e-9 is that of a positive number below 1.
pub proof fn lemma_small_numbers()
    ensures
        !(Level { bits: 0x3089_705F }).nan(),
        !(Level { bits: 0x3F80_0000 }).nan(),
        0 < (Level { bits: 0x3089_705F }).units() < pow2(149),
{
    lemma_zero();
    lemma_whole_numbers();
    let one = Level { bits: 0x3F80_0000 };
    let small = Level { bits: 0x3089_705F };
    Level::lemma_bits_are_ordered(Level { bits: 0 }, small);
    Level::lemma_bits_are_ordered(small, one);
}

/// The patterns of 1, -1 and 1e-20 at double precision.
pub proof fn lemma_wide_numbers()
    ensures
        (Wide { bits: 0x3FF0_0000_0000_0000 }).units() == pow2(1074),
        (Wide { bits: 0xBFF0_0000_0000_0000 }).units() == -(pow2(1074) as int),
        !(Wide { bits: 0x3FF0_0000_0000_0000 }).nan(),
        !(Wide { bits: 0xBFF0_0000_0000_0000 }).nan(),
        !(Wide { bits: 0x3BC7_9CA1_0C92_4223 }).nan(),
        (Wide { bits: 0x3BC7_9CA1_0C92_4223 }).units() > 0,
        pow2(1074) > 0,
{
    vstd::arithmetic::power2::lemma2_to64();
    vstd::arithmetic::power2::lemma2_to64_rest();
    vstd::arithmetic::power2::lemma_pow2_pos(1074);
    vstd::arithmetic::power2::lemma_pow2_adds(52, 1022);
    lemma_zero();
    let one = 0x3FF0_0000_0000_0000nat;
    assert(one / pow2(52) == 1023);
    assert(one % pow2(52) == 0);
    assert(crate::level::scaled(one, 52) == pow2(1074));
    assert((Wide { bits: 0x3FF0_0000_0000_0000 }).magnitude() == one);
    assert((Wide { bits: 0xBFF0_0000_0000_0000 }).magnitude() == one);
    crate::level::lemma_scaled_increases(0, 0x3BC7_9CA1_0C92_4223, 52);
}

/// The patterns of 1.5, 4 and 8 at double precision, and that of 3.5.
pub proof fn lemma_scroll_numbers()
    ensures
        2 * (Wide { bits: 0x3FF8_0000_0000_0000 }).units() == 3 * pow2(1074),
        (Wide { bits: 0x4010_0000_0000_0000 }).units() == 4 * pow2(1074),
        (Wide { bits: 0x4020_0000_0000_0000 }).units() == 8 * pow2(1074),
        !(Wide { bits: 0x4010_0000_0000_0000 }).nan(),
        !(Wide { bits: 0x4020_0000_0000_0000 }).nan(),
        2 * (Level { bits: 0x4060_0000 }).units() == 7 * pow2(149),
        pow2(1074) > 0,
{
    vstd::arithmetic::power2::lemma2_to64();
    vstd::arithmetic::power2::lemma2_to64_rest();
    vstd::arithmetic::power2::lemma_pow2_pos(1074);
    vstd::arithmetic::power2::lemma_pow2_adds(51, 1022);
    vstd::arithmetic::power2::lemma_pow2_unfold(1074);
    vstd::arithmetic::power2::lemma_pow2_adds(52, 1024);
    vstd::arithmetic::power2::lemma_pow2_adds(52, 1025);
    vstd::arithmetic::power2::lemma_pow2_adds(2, 1074);
    vstd::arithmetic::power2::lemma_pow2_adds(3, 1074);
    let a = 0x3FF8_0000_0000_0000nat;
    assert(a / pow2(52) == 1023 && a % pow2(52) == pow2(51));
    assert(pow2(52) + pow2(51) == 3 * pow2(51));
    let (x, y) = (pow2(51), pow2(1022));
    assert((3 * x) * y == 3 * (x * y)) by (nonlinear_arith);
    assert(crate::level::scaled(a, 52) == 3 * pow2(1073));
    assert((Wide { bits: 0x3FF8_0000_0000_0000 }).magnitude() == a);
    let b = 0x4010_0000_0000_0000nat;
    assert(b / pow2(52) == 1025 && b % pow2(52) == 0);
    assert(crate::level::scaled(b, 52) == pow2(1076));
    assert((Wide { bits: 0x4010_0000_0000_0000 }).magnitude() == b);
    let c = 0x4020_0000_0000_0000nat;
    assert(c / pow2(52) == 1026 && c % pow2(52) == 0);
    assert(crate::level::scaled(c, 52) == pow2(1077));
    assert((Wide { bits: 0x4020_0000_0000_0000 }).magnitude() == c);
    let d = 0x4060_0000nat;
    assert(d / pow2(23) == 128 && d % pow2(23) == 0x60_0000);
    vstd::arithmetic::power2::lemma_pow2_adds(21, 127);
    vstd::arithmetic::power2::lemma_pow2_unfold(149);
    let (x, y) = (pow2(21), pow2(127));
    assert((7 * x) * y == 7 * (x * y)) by (nonlinear_arith);
    assert(pow2(23) + 0x60_0000 == 7 * pow2(21));
    assert(crate::level::scaled(d, 23) == 7 * pow2(148));
    assert((Level { bits: 0x4060_0000 }).magnitude() == d);
}

} // verus!
