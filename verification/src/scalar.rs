//! Single-precision numbers, held by their bit patterns.
//!
//! The library stores coordinates, colors and radii without computing with them; it only has
//! to compare them and to read off the whole part of one.  Both can be decided on the bit
//! pattern, and this module says what the pattern stands for and decides them.
use vstd::arithmetic::power2::pow2;
use vstd::prelude::*;

verus! {

/// A single-precision number in the binary interchange format: one sign bit, eight exponent
/// bits and twenty-three fraction bits.
///
/// The derived equality compares bit patterns; [`Scalar::equals`] compares numbers.
#[derive(Clone, Copy, Debug, PartialEq, Eq, Structural)]
pub struct Scalar {
    pub bits: u32,
}

/// The number that the thirty-one bits below the sign stand for, counted in units of two to
/// the power of -149, the smallest positive number of the format.  The pattern of an infinity
/// reads as a number larger than every finite one.
pub open spec fn magnitude_value(magnitude: int) -> int {
    let exponent = magnitude / 0x80_0000;
    let fraction = magnitude % 0x80_0000;
    if exponent == 0 {
        fraction
    } else {
        (0x80_0000 + fraction) * pow2((exponent - 1) as nat)
    }
}

impl Scalar {
    /// Whether the sign bit is set.
    pub open spec fn negative(self) -> bool {
        self.bits >= 0x8000_0000
    }

    /// The bits below the sign bit.
    pub open spec fn magnitude(self) -> int {
        if self.negative() {
            self.bits - 0x8000_0000
        } else {
            self.bits as int
        }
    }

    /// Whether the pattern stands for no number.
    pub open spec fn nan(self) -> bool {
        self.magnitude() > 0x7f80_0000
    }

    /// The number itself, counted in units of two to the power of -149.
    pub open spec fn value(self) -> int {
        if self.negative() {
            -magnitude_value(self.magnitude())
        } else {
            magnitude_value(self.magnitude())
        }
    }

    /// `self < other`; nothing is less than a pattern that is no number.
    pub open spec fn lt(self, other: Scalar) -> bool {
        !self.nan() && !other.nan() && self.value() < other.value()
    }

    /// `self <= other`.
    pub open spec fn le(self, other: Scalar) -> bool {
        !self.nan() && !other.nan() && self.value() <= other.value()
    }

    /// `self == other`, the two zeros being the same number.
    pub open spec fn same(self, other: Scalar) -> bool {
        !self.nan() && !other.nan() && self.value() == other.value()
    }

    /// The whole part as an unsigned number: negative numbers give zero, numbers that do not
    /// fit give the largest value, and a pattern that is no number gives zero.
    pub open spec fn whole(self) -> u32 {
        let units = magnitude_value(self.magnitude()) / pow2(149) as int;
        if self.nan() || self.negative() {
            0
        } else if units > u32::MAX {
            u32::MAX
        } else {
            units as u32
        }
    }

    /// The smaller of two numbers; where one is no number, the other.
    pub open spec fn smaller(self, other: Scalar) -> Scalar {
        if self.nan() {
            other
        } else if other.nan() || self.value() <= other.value() {
            self
        } else {
            other
        }
    }

    /// Zero.
    pub fn zero() -> (r: Scalar)
        ensures
            r.bits == 0,
            !r.nan(),
            r.value() == 0,
    {
        Scalar { bits: 0 }
    }

    fn rank(self) -> (r: i64)
        ensures
            self.negative() ==> r == -self.magnitude(),
            !self.negative() ==> r == self.magnitude(),
    {
        if self.bits >= 0x8000_0000 {
            0 - (self.bits - 0x8000_0000) as i64
        } else {
            self.bits as i64
        }
    }

    /// Whether the pattern stands for no number.
    pub fn is_nan(self) -> (r: bool)
        ensures
            r == self.nan(),
    {
        let magnitude: u32 = if self.bits >= 0x8000_0000 {
            self.bits - 0x8000_0000
        } else {
            self.bits
        };
        magnitude > 0x7f80_0000
    }

    /// Numeric `self < other`.
    pub fn less_than(self, other: Scalar) -> (r: bool)
        ensures
            r == self.lt(other),
    {
        proof {
            lemma_rank_orders(self, other);
        }
        !self.is_nan() && !other.is_nan() && self.rank() < other.rank()
    }

    /// Numeric `self <= other`.
    pub fn at_most(self, other: Scalar) -> (r: bool)
        ensures
            r == self.le(other),
    {
        proof {
            lemma_rank_orders(self, other);
            lemma_rank_orders(other, self);
        }
        !self.is_nan() && !other.is_nan() && self.rank() <= other.rank()
    }

    /// Numeric `self == other`.
    pub fn equals(self, other: Scalar) -> (r: bool)
        ensures
            r == self.same(other),
    {
        proof {
            lemma_rank_orders(self, other);
            lemma_rank_orders(other, self);
        }
        !self.is_nan() && !other.is_nan() && self.rank() == other.rank()
    }

    /// The smaller of two numbers; where one is no number, the other.
    pub fn min(self, other: Scalar) -> (r: Scalar)
        ensures
            r == self.smaller(other),
    {
        if self.is_nan() {
            other
        } else if other.is_nan() || self.at_most(other) {
            self
        } else {
            other
        }
    }

    /// The whole part as an unsigned number, clamped to the range of the type.
    pub fn to_u32(self) -> (r: u32)
        ensures
            r == self.whole(),
    {
        if self.bits >= 0x8000_0000 || self.bits > 0x7f80_0000 {
            return 0;
        }
        let exponent: u32 = self.bits / 0x80_0000;
        let significand: u64 = 0x80_0000 + (self.bits % 0x80_0000) as u64;
        proof {
            lemma_whole(self.bits as int);
        }
        if exponent < 127 {
            0
        } else if exponent < 150 {
            let shift: u64 = (150 - exponent) as u64;
            proof {
                vstd::bits::lemma_u64_shr_is_div(significand, shift);
                vstd::arithmetic::power2::lemma_pow2_pos(shift as nat);
                lemma_quotient_at_most(significand as int, pow2(shift as nat) as int);
            }
            (significand >> shift) as u32
        } else if exponent < 159 {
            let shift: u64 = (exponent - 150) as u64;
            proof {
                lemma_small_shift(significand as int, shift as nat);
                vstd::bits::lemma_u64_shl_is_mul(significand, shift);
            }
            (significand << shift) as u32
        } else {
            u32::MAX
        }
    }
}

/// Larger magnitudes stand for larger numbers.
pub proof fn lemma_magnitude_order(a: int, b: int)
    requires
        0 <= a < b,
    ensures
        magnitude_value(a) < magnitude_value(b),
    decreases b - a,
{
    if a + 1 < b {
        lemma_magnitude_order(a, b - 1);
        lemma_magnitude_step(b - 1);
    } else {
        lemma_magnitude_step(a);
    }
}

proof fn lemma_magnitude_step(a: int)
    requires
        0 <= a,
    ensures
        magnitude_value(a) < magnitude_value(a + 1),
{
    let e = a / 0x80_0000;
    let f = a % 0x80_0000;
    if f + 1 < 0x80_0000 {
        assert((a + 1) / 0x80_0000 == e && (a + 1) % 0x80_0000 == f + 1);
        if e > 0 {
            let p = pow2((e - 1) as nat) as int;
            vstd::arithmetic::power2::lemma_pow2_pos((e - 1) as nat);
            assert((0x80_0000 + f) * p < (0x80_0000 + (f + 1)) * p) by (nonlinear_arith)
                requires
                    p > 0,
            ;
        }
    } else {
        assert((a + 1) / 0x80_0000 == e + 1 && (a + 1) % 0x80_0000 == 0);
        if e == 0 {
            vstd::arithmetic::power2::lemma2_to64();
        } else {
            let p = pow2((e - 1) as nat) as int;
            vstd::arithmetic::power2::lemma_pow2_pos((e - 1) as nat);
            vstd::arithmetic::power2::lemma_pow2_unfold(e as nat);
            assert((0x80_0000 + f) * p < 0x80_0000 * (2 * p)) by (nonlinear_arith)
                requires
                    p > 0,
                    f == 0x7f_ffff,
            ;
        }
    }
}

/// The signed magnitude orders patterns as the numbers that they stand for are ordered.
proof fn lemma_rank_orders(a: Scalar, b: Scalar)
    ensures
        ({
            let ra = if a.negative() { -a.magnitude() } else { a.magnitude() };
            let rb = if b.negative() { -b.magnitude() } else { b.magnitude() };
            (ra < rb) == (a.value() < b.value()) && (ra == rb ==> a.value() == b.value())
        }),
{
    let ma = a.magnitude();
    let mb = b.magnitude();
    if ma < mb {
        lemma_magnitude_order(ma, mb);
    } else if mb < ma {
        lemma_magnitude_order(mb, ma);
    }
    if ma > 0 {
        lemma_magnitude_order(0, ma);
    }
    if mb > 0 {
        lemma_magnitude_order(0, mb);
    }
}

proof fn lemma_quotient_at_most(n: int, d: int)
    requires
        0 <= n,
        d >= 1,
    ensures
        0 <= n / d <= n,
{
    assert(0 <= n / d <= n) by (nonlinear_arith)
        requires
            0 <= n,
            d >= 1,
    ;
}

proof fn lemma_small_shift(s: int, k: nat)
    requires
        0 <= s < 0x100_0000,
        k <= 8,
    ensures
        0 <= s * pow2(k) < 0x1_0000_0000,
{
    vstd::arithmetic::power2::lemma2_to64();
    let p = pow2(k) as int;
    vstd::arithmetic::power2::lemma_pow2_pos(k);
    if k < 8 {
        vstd::arithmetic::power2::lemma_pow2_strictly_increases(k, 8);
    }
    assert(0 <= s * p < 0x1_0000_0000) by (nonlinear_arith)
        requires
            0 <= s < 0x100_0000,
            0 < p <= 0x100,
    ;
}

/// The whole part of a magnitude, by its exponent.
proof fn lemma_whole(m: int)
    requires
        0 <= m <= 0x7f80_0000,
    ensures
        ({
            let e = m / 0x80_0000;
            let s = 0x80_0000 + m % 0x80_0000;
            let units = magnitude_value(m) / pow2(149) as int;
            &&& e < 127 ==> units == 0
            &&& 127 <= e < 150 ==> units == s / pow2((150 - e) as nat) as int
            &&& 150 <= e ==> units == s * pow2((e - 150) as nat)
            &&& 159 <= e ==> units > u32::MAX
        }),
{
    let e = m / 0x80_0000;
    let s = 0x80_0000 + m % 0x80_0000;
    let one = pow2(149) as int;
    vstd::arithmetic::power2::lemma_pow2_pos(149);
    vstd::arithmetic::power2::lemma2_to64();
    if e < 127 {
        vstd::arithmetic::power2::lemma_pow2_adds(24, 125);
        if e == 0 {
            vstd::arithmetic::power2::lemma_pow2_pos(125);
            let q = pow2(125) as int;
            assert(0x100_0000 * q >= 0x100_0000) by (nonlinear_arith)
                requires
                    q >= 1,
            ;
            assert(magnitude_value(m) < one);
        } else {
            let p = pow2((e - 1) as nat) as int;
            let q = pow2(125) as int;
            vstd::arithmetic::power2::lemma_pow2_pos((e - 1) as nat);
            if e - 1 < 125 {
                vstd::arithmetic::power2::lemma_pow2_strictly_increases((e - 1) as nat, 125);
            }
            assert(s * p < 0x100_0000 * q) by (nonlinear_arith)
                requires
                    0 <= s < 0x100_0000,
                    0 < p <= q,
            ;
            assert(0 <= s * p) by (nonlinear_arith)
                requires
                    0 <= s,
                    0 < p,
            ;
        }
        vstd::arithmetic::div_mod::lemma_basic_div(magnitude_value(m), one);
    } else if e < 150 {
        let p = pow2((e - 1) as nat) as int;
        let k = pow2((150 - e) as nat) as int;
        vstd::arithmetic::power2::lemma_pow2_pos((e - 1) as nat);
        vstd::arithmetic::power2::lemma_pow2_pos((150 - e) as nat);
        vstd::arithmetic::power2::lemma_pow2_adds((e - 1) as nat, (150 - e) as nat);
        assert(((e - 1) as nat + (150 - e) as nat) as nat == 149);
        // s * p / (p * k) == s / k
        vstd::arithmetic::div_mod::lemma_div_denominator(s * p, p, k);
        vstd::arithmetic::div_mod::lemma_div_multiples_vanish(s, p);
        assert(s * p == p * s) by (nonlinear_arith);
    } else {
        let k = pow2((e - 150) as nat) as int;
        vstd::arithmetic::power2::lemma_pow2_pos((e - 150) as nat);
        vstd::arithmetic::power2::lemma_pow2_adds((e - 150) as nat, 149);
        assert(((e - 150) as nat + 149) as nat == (e - 1) as nat);
        assert(s * (k * one) == one * (s * k)) by (nonlinear_arith);
        vstd::arithmetic::div_mod::lemma_div_multiples_vanish(s * k, one);
        if e >= 159 {
            if e > 159 {
                vstd::arithmetic::power2::lemma_pow2_strictly_increases(9, (e - 150) as nat);
            }
            assert(s * k > 0xffff_ffff) by (nonlinear_arith)
                requires
                    s >= 0x80_0000,
                    k >= 512,
            ;
        }
    }
}

} // verus!
