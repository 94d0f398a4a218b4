//! Audio levels carried by their IEEE 754 bit patterns.
//!
//! The meters compare, clamp, hold and index by levels far more often than they do
//! arithmetic on them. [`Level`] (binary32) and [`Wide`] (binary64) hold the bits, so
//! that every comparison is exact and its meaning can be stated over the integers: the
//! value of a level is an integer number of units of 2^-149 (2^-1074 for [`Wide`]).

use vstd::arithmetic::power2::pow2;
use vstd::prelude::*;

verus! {

/// A single-precision level.
#[derive(Clone, Copy, PartialEq, Eq, Structural, Debug)]
pub struct Level {
    pub bits: u32,
}

/// A double-precision quantity: a running sum or a scroll position.
#[derive(Clone, Copy, PartialEq, Eq, Structural, Debug)]
pub struct Wide {
    pub bits: u64,
}

/// Bit pattern of zero, as a [`Level`].
pub const ZERO: u32 = 0;

/// Bit pattern of negative infinity, as a [`Level`]: the loudness of silence.
pub const NEG_INFINITY: u32 = 0xFF80_0000;

/// The sign bit of a [`Level`].
pub const LEVEL_SIGN: u32 = 0x8000_0000;

/// Bit pattern of infinity, as a [`Level`].
pub const LEVEL_INFINITY: u32 = 0x7F80_0000;

/// The sign bit of a [`Wide`].
pub const WIDE_SIGN: u64 = 0x8000_0000_0000_0000;

/// Bit pattern of infinity, as a [`Wide`].
pub const WIDE_INFINITY: u64 = 0x7FF0_0000_0000_0000;

/// Value of the non-negative number with exponent and fraction bits `magnitude`, in units
/// of the smallest subnormal, for a format with `fraction` fraction bits. An infinity
/// counts as the number one step above the largest finite one.
pub open spec fn scaled(magnitude: nat, fraction: nat) -> nat {
    let exponent = magnitude / pow2(fraction);
    let rest = magnitude % pow2(fraction);
    if exponent == 0 {
        rest
    } else {
        (pow2(fraction) + rest) * pow2((exponent - 1) as nat)
    }
}

/// `scaled` lies between the powers of two of its exponent.
proof fn lemma_scaled_bounds(magnitude: nat, fraction: nat)
    ensures
        scaled(magnitude, fraction) < pow2(fraction) * pow2(magnitude / pow2(fraction)),
        magnitude / pow2(fraction) > 0 ==> pow2(fraction) * pow2(
            (magnitude / pow2(fraction) - 1) as nat,
        ) <= scaled(magnitude, fraction),
{
    let p = pow2(fraction);
    vstd::arithmetic::power2::lemma_pow2_pos(fraction);
    let e = magnitude / p;
    let f = magnitude % p;
    assert(f < p);
    if e == 0 {
        vstd::arithmetic::power2::lemma2_to64();
        assert(p * pow2(0) == p);
    } else {
        let q = pow2((e - 1) as nat);
        vstd::arithmetic::power2::lemma_pow2_pos((e - 1) as nat);
        vstd::arithmetic::power2::lemma_pow2_unfold(e);
        assert((p + f) * q < p * (2 * q)) by (nonlinear_arith)
            requires
                f < p,
                q > 0,
        ;
        assert(p * q <= (p + f) * q) by (nonlinear_arith)
            requires
                0 <= f,
                q > 0,
        ;
    }
}

/// Of two non-negative numbers, the one with the larger bit pattern is larger.
pub proof fn lemma_scaled_increases(a: nat, b: nat, fraction: nat)
    requires
        a < b,
    ensures
        scaled(a, fraction) < scaled(b, fraction),
{
    let p = pow2(fraction);
    vstd::arithmetic::power2::lemma_pow2_pos(fraction);
    let (ea, eb) = (a / p, b / p);
    let (fa, fb) = (a % p, b % p);
    vstd::arithmetic::div_mod::lemma_div_is_ordered(a as int, b as int, p as int);
    vstd::arithmetic::div_mod::lemma_fundamental_div_mod(a as int, p as int);
    vstd::arithmetic::div_mod::lemma_fundamental_div_mod(b as int, p as int);
    if ea == eb {
        assert(fa < fb);
        if ea > 0 {
            let q = pow2((ea - 1) as nat);
            vstd::arithmetic::power2::lemma_pow2_pos((ea - 1) as nat);
            assert((p + fa) * q < (p + fb) * q) by (nonlinear_arith)
                requires
                    fa < fb,
                    q > 0,
            ;
        }
    } else {
        lemma_scaled_bounds(a, fraction);
        lemma_scaled_bounds(b, fraction);
        if ea < eb - 1 {
            vstd::arithmetic::power2::lemma_pow2_strictly_increases(ea, (eb - 1) as nat);
        }
        let (x, y) = (pow2(ea), pow2((eb - 1) as nat));
        assert(p * x <= p * y) by (nonlinear_arith)
            requires
                x <= y,
        ;
    }
}

impl Level {
    /// The sign bit is set.
    pub open spec fn negative(self) -> bool {
        self.bits >= LEVEL_SIGN
    }

    /// Exponent and fraction bits.
    pub open spec fn magnitude(self) -> nat {
        (if self.bits >= LEVEL_SIGN {
            self.bits - LEVEL_SIGN
        } else {
            self.bits as int
        }) as nat
    }

    /// Not a number.
    pub open spec fn nan(self) -> bool {
        self.magnitude() > LEVEL_INFINITY
    }

    /// The value, in units of 2^-149.
    pub open spec fn units(self) -> int {
        if self.negative() {
            -(scaled(self.magnitude(), 23) as int)
        } else {
            scaled(self.magnitude(), 23) as int
        }
    }

    /// `self > other`: false when either is not a number.
    pub open spec fn exceeds(self, other: Level) -> bool {
        !self.nan() && !other.nan() && self.units() > other.units()
    }

    /// The two have one value, or neither is a number.
    pub open spec fn alike(self, other: Level) -> bool {
        self.nan() == other.nan() && (!self.nan() ==> self.units() == other.units())
    }

    /// The values of the two differ in their signs alone, or neither is a number.
    pub open spec fn opposite(self, other: Level) -> bool {
        self.nan() == other.nan() && (!self.nan() ==> self.units() == -other.units())
    }

    /// The two have one value, with the sign flipped if `flip`, or neither is a number.
    pub open spec fn mirrors(self, other: Level, flip: bool) -> bool {
        if flip {
            self.opposite(other)
        } else {
            self.alike(other)
        }
    }

    /// Position of the bit pattern on the number line.
    spec fn place(self) -> int {
        if self.negative() {
            -(self.magnitude() as int)
        } else {
            self.magnitude() as int
        }
    }

    /// The places of two levels are ordered as their values are.
    proof fn lemma_place(a: Level, b: Level)
        ensures
            a.place() < b.place() <==> a.units() < b.units(),
    {
        vstd::arithmetic::power2::lemma2_to64();
        let (x, y) = (a.magnitude(), b.magnitude());
        assert(scaled(0, 23) == 0);
        if x > 0 {
            lemma_scaled_increases(0, x, 23);
        }
        if y > 0 {
            lemma_scaled_increases(0, y, 23);
        }
        if x < y {
            lemma_scaled_increases(x, y, 23);
        }
        if y < x {
            lemma_scaled_increases(y, x, 23);
        }
    }

    fn place_of(self) -> (p: i64)
        ensures
            p == self.place(),
    {
        if self.bits >= LEVEL_SIGN {
            -((self.bits - LEVEL_SIGN) as i64)
        } else {
            self.bits as i64
        }
    }

    /// Levels that are not negative are ordered as their bit patterns are.
    pub proof fn lemma_bits_are_ordered(a: Level, b: Level)
        requires
            !a.negative(),
            !b.negative(),
        ensures
            a.bits < b.bits <==> a.units() < b.units(),
    {
        Level::lemma_place(a, b);
    }

    /// Whether this is not a number.
    pub fn is_nan(self) -> (b: bool)
        ensures
            b == self.nan(),
    {
        if self.bits >= LEVEL_SIGN {
            self.bits - LEVEL_SIGN > LEVEL_INFINITY
        } else {
            self.bits > LEVEL_INFINITY
        }
    }

    /// Whether this is neither infinite nor not a number.
    pub fn is_finite(self) -> (b: bool)
        ensures
            b == (self.magnitude() < LEVEL_INFINITY),
    {
        if self.bits >= LEVEL_SIGN {
            self.bits - LEVEL_SIGN < LEVEL_INFINITY
        } else {
            self.bits < LEVEL_INFINITY
        }
    }

    /// `self > other`.
    pub fn above(self, other: Level) -> (b: bool)
        ensures
            b == self.exceeds(other),
    {
        proof {
            Level::lemma_place(other, self);
        }
        !self.is_nan() && !other.is_nan() && self.place_of() > other.place_of()
    }

    /// `self <= other`: false when either is not a number.
    pub open spec fn within(self, other: Level) -> bool {
        !self.nan() && !other.nan() && self.units() <= other.units()
    }

    /// `self <= other`.
    pub fn at_most(self, other: Level) -> (b: bool)
        ensures
            b == self.within(other),
    {
        proof {
            Level::lemma_place(other, self);
        }
        !self.is_nan() && !other.is_nan() && self.place_of() <= other.place_of()
    }

    /// The larger of the two; the other one when one of them is not a number.
    pub open spec fn max_with(self, other: Level) -> Level {
        if self.nan() || other.exceeds(self) {
            other
        } else {
            self
        }
    }

    /// The larger of the two.
    pub fn larger(self, other: Level) -> (m: Level)
        ensures
            m == self.max_with(other),
    {
        if self.is_nan() || other.above(self) {
            other
        } else {
            self
        }
    }

    /// The nearest level between `low` and `high`. What is not a number stays so.
    pub open spec fn clamp_to(self, low: Level, high: Level) -> Level {
        if low.exceeds(self) {
            low
        } else if self.exceeds(high) {
            high
        } else {
            self
        }
    }

    /// The nearest level between `low` and `high`.
    pub fn clamped(self, low: Level, high: Level) -> (c: Level)
        requires
            low.within(high),
        ensures
            c == self.clamp_to(low, high),
    {
        if low.above(self) {
            low
        } else if self.above(high) {
            high
        } else {
            self
        }
    }

    /// The level without its sign.
    pub open spec fn unsigned(self) -> Level {
        Level { bits: self.magnitude() as u32 }
    }

    /// The level without its sign.
    pub fn abs(self) -> (a: Level)
        ensures
            a == self.unsigned(),
            !a.negative(),
            a.magnitude() == self.magnitude(),
            a.units() == vstd::math::abs(self.units()),
    {
        if self.bits >= LEVEL_SIGN {
            Level { bits: self.bits - LEVEL_SIGN }
        } else {
            self
        }
    }

    /// The whole number below the level, as an index: none below zero, and none past the
    /// last index.
    pub open spec fn floor_index(self) -> int {
        if self.nan() || self.negative() {
            0
        } else if self.units() / (pow2(149) as int) > usize::MAX {
            usize::MAX as int
        } else {
            self.units() / (pow2(149) as int)
        }
    }

    /// The whole number above the level, as an index, with the limits of
    /// [`Level::floor_index`].
    pub open spec fn ceil_index(self) -> int {
        if self.nan() || self.negative() {
            0
        } else if (self.units() + pow2(149) - 1) / (pow2(149) as int) > usize::MAX {
            usize::MAX as int
        } else {
            (self.units() + pow2(149) - 1) / (pow2(149) as int)
        }
    }

    /// How a non-negative level divides into whole numbers: `a` times a power of two over
    /// another one.
    proof fn lemma_whole(self)
        requires
            !self.nan(),
            !self.negative(),
        ensures
            ({
                let e = self.bits / 0x80_0000;
                let a = 0x80_0000 + self.bits % 0x80_0000;
                let one = pow2(149) as int;
                &&& e < 127 ==> self.units() / one == 0 && ((self.units() + one - 1) / one == (
                if self.bits == 0 {
                    0int
                } else {
                    1int
                }))
                &&& 127 <= e <= 150 ==> {
                    let r = pow2((150 - e) as nat) as int;
                    &&& self.units() / one == a / r
                    &&& (self.units() + one - 1) / one == a / r + (if a % r == 0 {
                        0int
                    } else {
                        1int
                    })
                }
                &&& e >= 150 ==> {
                    let r = pow2((e - 150) as nat) as int;
                    &&& self.units() / one == a * r
                    &&& (self.units() + one - 1) / one == a * r
                }
            }),
    {
        vstd::arithmetic::power2::lemma2_to64();
        let e = (self.bits / 0x80_0000) as int;
        let f = (self.bits % 0x80_0000) as int;
        let a = 0x80_0000 + f;
        let one = pow2(149) as int;
        vstd::arithmetic::power2::lemma_pow2_pos(149);
        assert(pow2(23) == 0x80_0000);
        if e < 127 {
            lemma_scaled_bounds(self.bits as nat, 23);
            if e < 126 {
                vstd::arithmetic::power2::lemma_pow2_strictly_increases(e as nat, 126);
            }
            vstd::arithmetic::power2::lemma_pow2_adds(23, 126);
            assert(pow2(23) * pow2(e as nat) <= pow2(23) * pow2(126)) by (nonlinear_arith)
                requires
                    pow2(e as nat) <= pow2(126),
            ;
            assert(self.units() < one);
            if self.bits > 0 {
                assert(scaled(0, 23) == 0);
                lemma_scaled_increases(0, self.bits as nat, 23);
            }
            let u = self.units();
            vstd::arithmetic::div_mod::lemma_fundamental_div_mod_converse(u, one, 0, u);
            if self.bits == 0 {
                vstd::arithmetic::div_mod::lemma_fundamental_div_mod_converse(
                    one - 1,
                    one,
                    0,
                    one - 1,
                );
            } else {
                vstd::arithmetic::div_mod::lemma_fundamental_div_mod_converse(
                    u + one - 1,
                    one,
                    1,
                    u - 1,
                );
            }
        } else if e <= 150 {
            let q = pow2((e - 1) as nat) as int;
            let r = pow2((150 - e) as nat) as int;
            vstd::arithmetic::power2::lemma_pow2_pos((e - 1) as nat);
            vstd::arithmetic::power2::lemma_pow2_pos((150 - e) as nat);
            vstd::arithmetic::power2::lemma_pow2_adds((e - 1) as nat, (150 - e) as nat);
            assert(one == q * r);
            assert(self.units() == a * q);
            lemma_divide_by_product(a, q, r);
            if e == 150 {
                assert(r == 1 && a / r == a && a % r == 0 && a * r == a);
            }
        } else {
            let q = pow2((e - 1) as nat) as int;
            let r = pow2((e - 150) as nat) as int;
            vstd::arithmetic::power2::lemma_pow2_adds((e - 150) as nat, 149);
            assert(q == r * one);
            let v = a * r;
            assert(self.units() == one * v) by (nonlinear_arith)
                requires
                    self.units() == a * q,
                    q == r * one,
                    v == a * r,
            ;
            vstd::arithmetic::div_mod::lemma_fundamental_div_mod_converse(one * v, one, v, 0);
            vstd::arithmetic::div_mod::lemma_fundamental_div_mod_converse(
                one * v + one - 1,
                one,
                v,
                one - 1,
            );
        }
    }

    /// The whole number below the level, as an index.
    pub fn floor(self) -> (n: usize)
        ensures
            n == self.floor_index(),
    {
        if self.is_nan() || self.bits >= LEVEL_SIGN {
            return 0;
        }
        proof {
            self.lemma_whole();
        }
        let e: u32 = self.bits / 0x80_0000;
        let a: u64 = (0x80_0000 + self.bits % 0x80_0000) as u64;
        if e < 127 {
            0
        } else if e <= 150 {
            proof {
                vstd::bits::lemma_u64_shr_is_div(a, (150 - e) as u64);
                vstd::arithmetic::power2::lemma_pow2_pos((150 - e) as nat);
                vstd::arithmetic::div_mod::lemma_div_is_ordered_by_denominator(
                    a as int,
                    1,
                    pow2((150 - e) as nat) as int,
                );
            }
            (a >> ((150 - e) as u64)) as usize
        } else if e <= 190 {
            proof {
                let r = pow2((e - 150) as nat);
                vstd::arithmetic::power2::lemma2_to64();
                if e < 190 {
                    vstd::arithmetic::power2::lemma_pow2_strictly_increases((e - 150) as nat, 40);
                }
                vstd::arithmetic::power2::lemma_pow2_adds(24, 40);
                assert(a * r < pow2(64)) by (nonlinear_arith)
                    requires
                        a < 0x100_0000,
                        r <= pow2(40),
                        pow2(64) == 0x100_0000 * pow2(40),
                        pow2(40) > 0,
                ;
                vstd::arithmetic::power2::lemma2_to64_rest();
                vstd::bits::lemma_u64_shl_is_mul(a, (e - 150) as u64);
            }
            let n: u64 = a << ((e - 150) as u64);
            if n > usize::MAX as u64 {
                usize::MAX
            } else {
                n as usize
            }
        } else {
            proof {
                let r = pow2((e - 150) as nat);
                vstd::arithmetic::power2::lemma2_to64_rest();
                vstd::arithmetic::power2::lemma2_to64();
                if e > 191 {
                    vstd::arithmetic::power2::lemma_pow2_strictly_increases(41, (e - 150) as nat);
                }
                vstd::arithmetic::power2::lemma_pow2_adds(23, 41);
                assert(a * r >= pow2(64)) by (nonlinear_arith)
                    requires
                        a >= 0x80_0000,
                        r >= pow2(41),
                        pow2(64) == 0x80_0000 * pow2(41),
                ;
            }
            usize::MAX
        }
    }

    /// The whole number above the level, as an index.
    pub fn ceil(self) -> (n: usize)
        ensures
            n == self.ceil_index(),
    {
        if self.is_nan() || self.bits >= LEVEL_SIGN {
            return 0;
        }
        let below = self.floor();
        proof {
            self.lemma_whole();
        }
        let e: u32 = self.bits / 0x80_0000;
        let a: u64 = (0x80_0000 + self.bits % 0x80_0000) as u64;
        if e < 127 {
            if self.bits == 0 {
                0
            } else {
                1
            }
        } else if e < 150 {
            proof {
                vstd::arithmetic::power2::lemma2_to64();
                vstd::arithmetic::power2::lemma_pow2_strictly_increases((150 - e) as nat, 24);
                vstd::bits::lemma_u64_shl_is_mul(1, (150 - e) as u64);
                vstd::arithmetic::power2::lemma_pow2_pos((150 - e) as nat);
                vstd::arithmetic::div_mod::lemma_div_is_ordered_by_denominator(
                    a as int,
                    1,
                    pow2((150 - e) as nat) as int,
                );
            }
            let r: u64 = 1u64 << ((150 - e) as u64);
            if a % r == 0 {
                below
            } else {
                below + 1
            }
        } else {
            below
        }
    }

    /// The level whose value is the whole number `n`.
    pub fn from_index(n: usize) -> (l: Level)
        requires
            n < 0x100_0000,
        ensures
            !l.nan(),
            !l.negative(),
            l.units() == n * pow2(149),
    {
        proof {
            vstd::arithmetic::power2::lemma2_to64();
        }
        if n == 0 {
            return Level { bits: ZERO };
        }
        let mut e: u32 = 0;
        let mut p: u32 = 1;
        let m: u32 = n as u32;
        while 2 * p <= m
            invariant
                1 <= p <= m < 0x100_0000,
                p == pow2(e as nat),
                e < 24,
            decreases m - p,
        {
            proof {
                vstd::arithmetic::power2::lemma_pow2_unfold((e + 1) as nat);
                vstd::arithmetic::power2::lemma2_to64();
                if e + 1 >= 24 {
                    if e + 1 > 24 {
                        vstd::arithmetic::power2::lemma_pow2_strictly_increases(24, (e + 1) as nat);
                    }
                }
            }
            p = 2 * p;
            e = e + 1;
        }
        let ghost s = pow2((23 - e) as nat);
        proof {
            vstd::arithmetic::power2::lemma2_to64();
            vstd::arithmetic::power2::lemma_pow2_adds(e as nat, (23 - e) as nat);
            assert(m * s < 0x100_0000 && m * s >= 0x80_0000) by (nonlinear_arith)
                requires
                    p <= m < 2 * p,
                    p * s == 0x80_0000,
                    s > 0,
            ;
            vstd::bits::lemma_u32_shl_is_mul(m, (23 - e) as u32);
        }
        let v: u32 = m << (23 - e);
        let l = Level { bits: (e + 126) * 0x80_0000 + v };
        proof {
            let q = pow2((e + 126) as nat);
            vstd::arithmetic::power2::lemma_pow2_adds((23 - e) as nat, (e + 126) as nat);
            assert(l.bits / 0x80_0000 == e + 127);
            assert(l.bits % 0x80_0000 == v - 0x80_0000);
            assert((m * s) * q == m * (s * q)) by (nonlinear_arith);
        }
        l
    }
}

/// A multiple of `q` divided by a multiple of `q`, rounded either way.
proof fn lemma_divide_by_product(a: int, q: int, r: int)
    requires
        a >= 0,
        q > 0,
        r > 0,
    ensures
        (a * q) / (q * r) == a / r,
        (a * q + q * r - 1) / (q * r) == a / r + (if a % r == 0 {
            0int
        } else {
            1int
        }),
{
    let d = a / r;
    let m = a % r;
    vstd::arithmetic::div_mod::lemma_fundamental_div_mod(a, r);
    let one = q * r;
    assert(a * q == one * d + m * q && one > 0) by (nonlinear_arith)
        requires
            a == r * d + m,
            one == q * r,
            q > 0,
            r > 0,
    ;
    assert(0 <= m * q < one && (m > 0 ==> m * q >= 1)) by (nonlinear_arith)
        requires
            0 <= m < r,
            q > 0,
            one == q * r,
    ;
    assert(one * (d + 1) == one * d + one) by (nonlinear_arith);
    vstd::arithmetic::div_mod::lemma_fundamental_div_mod_converse(a * q, one, d, m * q);
    if m == 0 {
        assert(m * q == 0) by (nonlinear_arith)
            requires
                m == 0,
        ;
        vstd::arithmetic::div_mod::lemma_fundamental_div_mod_converse(
            a * q + one - 1,
            one,
            d,
            one - 1,
        );
    } else {
        vstd::arithmetic::div_mod::lemma_fundamental_div_mod_converse(
            a * q + one - 1,
            one,
            d + 1,
            m * q - 1,
        );
    }
}

impl Wide {
    /// The sign bit is set.
    pub open spec fn negative(self) -> bool {
        self.bits >= WIDE_SIGN
    }

    /// Exponent and fraction bits.
    pub open spec fn magnitude(self) -> nat {
        (if self.bits >= WIDE_SIGN {
            self.bits - WIDE_SIGN
        } else {
            self.bits as int
        }) as nat
    }

    /// Not a number.
    pub open spec fn nan(self) -> bool {
        self.magnitude() > WIDE_INFINITY
    }

    /// The value, in units of 2^-1074.
    pub open spec fn units(self) -> int {
        if self.negative() {
            -(scaled(self.magnitude(), 52) as int)
        } else {
            scaled(self.magnitude(), 52) as int
        }
    }

    /// `self > other`: false when either is not a number.
    pub open spec fn exceeds(self, other: Wide) -> bool {
        !self.nan() && !other.nan() && self.units() > other.units()
    }

    /// The two have one value, or neither is a number.
    pub open spec fn alike(self, other: Wide) -> bool {
        self.nan() == other.nan() && (!self.nan() ==> self.units() == other.units())
    }

    /// The values of the two differ in their signs alone, or neither is a number.
    pub open spec fn opposite(self, other: Wide) -> bool {
        self.nan() == other.nan() && (!self.nan() ==> self.units() == -other.units())
    }

    /// The two have one value, with the sign flipped if `flip`, or neither is a number.
    pub open spec fn mirrors(self, other: Wide, flip: bool) -> bool {
        if flip {
            self.opposite(other)
        } else {
            self.alike(other)
        }
    }

    /// Position of the bit pattern on the number line.
    spec fn place(self) -> int {
        if self.negative() {
            -(self.magnitude() as int)
        } else {
            self.magnitude() as int
        }
    }

    /// The places of two quantities are ordered as their values are.
    proof fn lemma_place(a: Wide, b: Wide)
        ensures
            a.place() < b.place() <==> a.units() < b.units(),
    {
        vstd::arithmetic::power2::lemma_pow2_pos(52);
        let (x, y) = (a.magnitude(), b.magnitude());
        assert(scaled(0, 52) == 0);
        if x > 0 {
            lemma_scaled_increases(0, x, 52);
        }
        if y > 0 {
            lemma_scaled_increases(0, y, 52);
        }
        if x < y {
            lemma_scaled_increases(x, y, 52);
        }
        if y < x {
            lemma_scaled_increases(y, x, 52);
        }
    }

    fn place_of(self) -> (p: i64)
        ensures
            p == self.place(),
    {
        if self.bits >= WIDE_SIGN {
            -((self.bits - WIDE_SIGN) as i64)
        } else {
            self.bits as i64
        }
    }

    fn is_nan(self) -> (b: bool)
        ensures
            b == self.nan(),
    {
        if self.bits >= WIDE_SIGN {
            self.bits - WIDE_SIGN > WIDE_INFINITY
        } else {
            self.bits > WIDE_INFINITY
        }
    }

    /// `self > other`.
    pub fn above(self, other: Wide) -> (b: bool)
        ensures
            b == self.exceeds(other),
    {
        proof {
            Wide::lemma_place(other, self);
        }
        !self.is_nan() && !other.is_nan() && self.place_of() > other.place_of()
    }

    /// `self <= other`: false when either is not a number.
    pub open spec fn within(self, other: Wide) -> bool {
        !self.nan() && !other.nan() && self.units() <= other.units()
    }

    /// `self <= other`.
    pub fn at_most(self, other: Wide) -> (b: bool)
        ensures
            b == self.within(other),
    {
        proof {
            Wide::lemma_place(other, self);
        }
        !self.is_nan() && !other.is_nan() && self.place_of() <= other.place_of()
    }

    /// The nearest quantity between `low` and `high`. What is not a number stays so.
    pub open spec fn clamp_to(self, low: Wide, high: Wide) -> Wide {
        if low.exceeds(self) {
            low
        } else if self.exceeds(high) {
            high
        } else {
            self
        }
    }

    /// The nearest quantity between `low` and `high`.
    pub fn clamped(self, low: Wide, high: Wide) -> (c: Wide)
        requires
            low.within(high),
        ensures
            c == self.clamp_to(low, high),
    {
        if low.above(self) {
            low
        } else if self.above(high) {
            high
        } else {
            self
        }
    }

    /// The quantity without its sign.
    pub open spec fn unsigned(self) -> Wide {
        Wide { bits: self.magnitude() as u64 }
    }

    /// The quantity without its sign.
    pub fn abs(self) -> (a: Wide)
        ensures
            a == self.unsigned(),
            !a.negative(),
            a.magnitude() == self.magnitude(),
            a.units() == vstd::math::abs(self.units()),
    {
        if self.bits >= WIDE_SIGN {
            Wide { bits: self.bits - WIDE_SIGN }
        } else {
            self
        }
    }
}

} // verus!
