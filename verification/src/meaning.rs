//! What lengths amount to, once the numbers in them are given a value, and what the laws share.
use crate::geometry::Rect;
use crate::length::{Area, Length, Place};
use crate::scalar::Scalar;
use vstd::prelude::*;

verus! {

/// Whether `r` is the square root of an amount.
pub open spec fn is_root(r: real, amount: real) -> bool {
    r >= 0 as real && r * r == amount
}

/// The square root of an amount, where it has one.
pub open spec fn root(amount: real) -> real {
    choose|r: real| is_root(r, amount)
}

/// What a length amounts to: `v` gives each number its value.
pub open spec fn amount(length: Length, v: spec_fn(Scalar) -> real) -> real
    decreases length,
{
    match length {
        Length::Given(value) => v(value),
        Length::Whole(value) => value as int as real,
        Length::AppUnits(value) => (value as int as real) / (60 as real),
        Length::Sum(a, b) => amount(*a, v) + amount(*b, v),
        Length::Difference(a, b) => amount(*a, v) - amount(*b, v),
        Length::Product(a, b) => amount(*a, v) * amount(*b, v),
        Length::Quotient(a, b) => amount(*a, v) / amount(*b, v),
        Length::Negative(a) => -amount(*a, v),
        Length::Larger(a, b) => larger(amount(*a, v), amount(*b, v)),
        Length::Lesser(a, b) => lesser(amount(*a, v), amount(*b, v)),
        Length::SquareRoot(a) => root(amount(*a, v)),
    }
}

/// The larger of two amounts.
pub open spec fn larger(a: real, b: real) -> real {
    if a >= b {
        a
    } else {
        b
    }
}

/// The smaller of two amounts.
pub open spec fn lesser(a: real, b: real) -> real {
    if a <= b {
        a
    } else {
        b
    }
}

/// A point whose coordinates are amounts.
pub struct Spot {
    pub x: real,
    pub y: real,
}

/// A rectangle between two vertical and two horizontal lines.
pub struct Bounds {
    pub left: real,
    pub top: real,
    pub right: real,
    pub bottom: real,
}

/// Where a place lies.
pub open spec fn spot(place: Place, v: spec_fn(Scalar) -> real) -> Spot {
    Spot { x: amount(place.x, v), y: amount(place.y, v) }
}

/// What an area covers.
pub open spec fn bounds(area: Area, v: spec_fn(Scalar) -> real) -> Bounds {
    Bounds {
        left: amount(area.x, v),
        top: amount(area.y, v),
        right: amount(area.x, v) + amount(area.width, v),
        bottom: amount(area.y, v) + amount(area.height, v),
    }
}

/// What a rectangle covers.
pub open spec fn rect_bounds(rect: Rect, v: spec_fn(Scalar) -> real) -> Bounds {
    Bounds {
        left: v(rect.origin.x),
        top: v(rect.origin.y),
        right: v(rect.origin.x) + v(rect.size.width),
        bottom: v(rect.origin.y) + v(rect.size.height),
    }
}

/// What operations on lengths do to the amounts.
pub(crate) broadcast proof fn lemma_amount(length: Length, v: spec_fn(Scalar) -> real)
    ensures
        #[trigger] amount(length, v) == (match length {
            Length::Given(value) => v(value),
            Length::Whole(value) => value as int as real,
            Length::AppUnits(value) => (value as int as real) / (60 as real),
            Length::Sum(a, b) => amount(*a, v) + amount(*b, v),
            Length::Difference(a, b) => amount(*a, v) - amount(*b, v),
            Length::Product(a, b) => amount(*a, v) * amount(*b, v),
            Length::Quotient(a, b) => amount(*a, v) / amount(*b, v),
            Length::Negative(a) => -amount(*a, v),
            Length::Larger(a, b) => larger(amount(*a, v), amount(*b, v)),
            Length::Lesser(a, b) => lesser(amount(*a, v), amount(*b, v)),
            Length::SquareRoot(a) => root(amount(*a, v)),
        }),
{
}

/// Halves and thirds of an amount.
pub(crate) proof fn lemma_shares(a: real)
    ensures
        a * (2int as real) == a + a,
        a * (3int as real) == a + a + a,
        a / (2int as real) + a / (2int as real) == a,
        (-a) / (2int as real) == -(a / (2int as real)),
        a / (3int as real) + a / (3int as real) + a / (3int as real) == a,
        (a + a) / (3int as real) == a / (3int as real) + a / (3int as real),
{
    assert(a * (2int as real) == a + a) by (nonlinear_arith);
    assert(a * (3int as real) == a + a + a) by (nonlinear_arith);
    assert(a / (2int as real) + a / (2int as real) == a) by (nonlinear_arith);
    assert((-a) / (2int as real) == -(a / (2int as real))) by (nonlinear_arith);
    assert(a / (3int as real) + a / (3int as real) + a / (3int as real) == a) by (nonlinear_arith);
    assert((a + a) / (3int as real) == a / (3int as real) + a / (3int as real)) by (nonlinear_arith);
}

/// What two sequences hold together, one of them does.
pub(crate) proof fn lemma_either<A>(a: Seq<A>, b: Seq<A>, x: A)
    ensures
        (a + b).contains(x) <==> a.contains(x) || b.contains(x),
{
    if a.contains(x) {
        let i = choose|i: int| 0 <= i < a.len() && a[i] == x;
        assert((a + b)[i] == x);
    }
    if b.contains(x) {
        let i = choose|i: int| 0 <= i < b.len() && b[i] == x;
        assert((a + b)[a.len() + i] == x);
    }
}

} // verus!
