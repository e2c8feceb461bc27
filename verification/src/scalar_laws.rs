//! How bit patterns stand for numbers.
use crate::scalar::{magnitude_value, Scalar};
use vstd::arithmetic::power2::{lemma2_to64, lemma_pow2_pos, lemma_pow2_unfold, pow2};
use vstd::prelude::*;

verus! {

/// The smallest patterns count units; from one exponent to the next every number doubles; and the patterns of
/// one exponent are evenly spaced.
pub proof fn patterns_count_units(magnitude: int)
    requires
        0 <= magnitude,
    ensures
        magnitude < 0x80_0000 ==> magnitude_value(magnitude) == magnitude,
        magnitude_value(0x80_0000) == 0x80_0000,
        magnitude >= 0x80_0000 ==> magnitude_value(magnitude + 0x80_0000) == 2 * magnitude_value(magnitude),
        magnitude / 0x80_0000 == (magnitude + 2) / 0x80_0000 ==> magnitude_value(magnitude + 2) - magnitude_value(
            magnitude + 1,
        ) == magnitude_value(magnitude + 1) - magnitude_value(magnitude),
{
    lemma2_to64();
    assert(magnitude_value(0x80_0000) == 0x80_0000 * pow2(0));
    let e = magnitude / 0x80_0000;
    let f = magnitude % 0x80_0000;
    if magnitude >= 0x80_0000 {
        assert((magnitude + 0x80_0000) / 0x80_0000 == e + 1 && (magnitude + 0x80_0000) % 0x80_0000 == f);
        lemma_pow2_unfold(e as nat);
        let p = pow2((e - 1) as nat) as int;
        assert((0x80_0000 + f) * (2 * p) == 2 * ((0x80_0000 + f) * p)) by (nonlinear_arith);
    }
    if e == (magnitude + 2) / 0x80_0000 {
        assert((magnitude + 1) / 0x80_0000 == e);
        assert((magnitude + 1) % 0x80_0000 == f + 1 && (magnitude + 2) % 0x80_0000 == f + 2);
        if e > 0 {
            let p = pow2((e - 1) as nat) as int;
            assert((0x80_0000 + (f + 2)) * p - (0x80_0000 + (f + 1)) * p == (0x80_0000 + (f + 1)) * p - (0x80_0000 + f)
                * p) by (nonlinear_arith);
        }
    }
}

/// The sign bit turns a number into its negative.
pub proof fn the_sign_negates(positive: Scalar, negative: Scalar)
    requires
        positive.bits < 0x8000_0000,
        negative.bits == positive.bits + 0x8000_0000,
    ensures
        negative.value() == -positive.value(),
        negative.nan() == positive.nan(),
        positive.nan() <==> positive.bits > 0x7f80_0000,
{
}

/// Numbers are ordered: of two numbers, either one is less than the other or they are the same, and never both.
/// With a pattern that is no number, nothing holds.
pub proof fn numbers_are_ordered(a: Scalar, b: Scalar, c: Scalar)
    ensures
        !a.lt(a),
        a.lt(b) ==> !b.lt(a) && !a.same(b),
        a.lt(b) && b.lt(c) ==> a.lt(c),
        a.same(b) ==> b.same(a),
        a.same(b) && b.same(c) ==> a.same(c),
        a.le(b) <==> a.lt(b) || a.same(b),
        !a.nan() && !b.nan() ==> a.lt(b) || a.same(b) || b.lt(a),
        a.nan() || b.nan() ==> !a.lt(b) && !a.le(b) && !a.same(b),
{
}

/// The smaller of two numbers is one of them, and not larger than either; a pattern that is no number does not
/// count.
pub proof fn the_smaller_is_one_of_both(a: Scalar, b: Scalar)
    ensures
        a.smaller(b) == a || a.smaller(b) == b,
        !a.nan() && !b.nan() ==> a.smaller(b).le(a) && a.smaller(b).le(b),
        a.nan() ==> a.smaller(b) == b,
        !a.nan() && b.nan() ==> a.smaller(b) == a,
{
}

/// The whole part of a number is the largest whole number that is not larger, as far as it fits: nothing is left
/// of what is negative or no number, and of what is too large the largest number.
pub proof fn whole_parts_are_rounded_down(number: Scalar)
    ensures
        number.nan() || number.negative() ==> number.whole() == 0,
        !number.nan() && !number.negative() && number.value() < 0x1_0000_0000 * pow2(149) ==> number.whole() * pow2(149)
            <= number.value() < (number.whole() + 1) * pow2(149),
        !number.nan() && !number.negative() && number.value() >= 0x1_0000_0000 * pow2(149) ==> number.whole()
            == u32::MAX,
{
    let pixel = pow2(149) as int;
    lemma_pow2_pos(149);
    if !number.nan() && !number.negative() {
        let value = number.value();
        let units = value / pixel;
        assert(value >= 0) by {
            let e = number.magnitude() / 0x80_0000;
            let f = number.magnitude() % 0x80_0000;
            if e > 0 {
                let p = pow2((e - 1) as nat) as int;
                lemma_pow2_pos((e - 1) as nat);
                assert((0x80_0000 + f) * p >= 0) by (nonlinear_arith)
                    requires
                        p > 0,
                        f >= 0,
                ;
            }
        }
        assert(units * pixel <= value < (units + 1) * pixel) by (nonlinear_arith)
            requires
                pixel > 0,
                units == value / pixel,
        ;
        assert(units >= 0) by (nonlinear_arith)
            requires
                pixel > 0,
                value >= 0,
                value < (units + 1) * pixel,
        ;
        assert(value < 0x1_0000_0000 * pixel ==> units <= u32::MAX) by (nonlinear_arith)
            requires
                pixel > 0,
                units * pixel <= value,
        ;
        assert(value >= 0x1_0000_0000 * pixel ==> units > u32::MAX) by (nonlinear_arith)
            requires
                pixel > 0,
                value < (units + 1) * pixel,
        ;
    }
}

} // verus!
