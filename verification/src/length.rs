//! Lengths that are computed from other lengths.
//!
//! The library decides which numbers a shape is made of; it does not round.  A length that has
//! to be computed is handed out as the expression for it, to be evaluated in single precision,
//! operation by operation, where the shape is drawn.
use crate::geometry::{Rect, Size2D};
use crate::scalar::Scalar;
use vstd::prelude::*;

verus! {

/// A number, or how to compute it.
#[derive(Debug)]
pub enum Length {
    /// A number that is given.
    Given(Scalar),
    /// A whole number.
    Whole(i64),
    /// A number of app units, in pixels.
    AppUnits(i32),
    Sum(Box<Length>, Box<Length>),
    Difference(Box<Length>, Box<Length>),
    Product(Box<Length>, Box<Length>),
    Quotient(Box<Length>, Box<Length>),
    Negative(Box<Length>),
    /// The larger of two numbers.
    Larger(Box<Length>, Box<Length>),
    /// The smaller of two numbers.
    Lesser(Box<Length>, Box<Length>),
    SquareRoot(Box<Length>),
}

/// The expression for a given number.
pub open spec fn of(value: Scalar) -> Length {
    Length::Given(value)
}

impl Length {
    /// `self + other`.
    pub open spec fn add(self, other: Length) -> Length {
        Length::Sum(Box::new(self), Box::new(other))
    }

    /// `self - other`.
    pub open spec fn sub(self, other: Length) -> Length {
        Length::Difference(Box::new(self), Box::new(other))
    }

    /// `self * other`.
    pub open spec fn mul(self, other: Length) -> Length {
        Length::Product(Box::new(self), Box::new(other))
    }

    /// `self / other`.
    pub open spec fn div(self, other: Length) -> Length {
        Length::Quotient(Box::new(self), Box::new(other))
    }

    /// `-self`.
    pub open spec fn neg(self) -> Length {
        Length::Negative(Box::new(self))
    }

    /// The larger of the two.
    pub open spec fn max(self, other: Length) -> Length {
        Length::Larger(Box::new(self), Box::new(other))
    }

    /// The smaller of the two.
    pub open spec fn min(self, other: Length) -> Length {
        Length::Lesser(Box::new(self), Box::new(other))
    }

    /// The square root.
    pub open spec fn sqrt(self) -> Length {
        Length::SquareRoot(Box::new(self))
    }

    /// The same expression once more.
    pub fn copy(&self) -> (r: Length)
        ensures
            r == *self,
        decreases *self,
    {
        match self {
            Length::Given(value) => Length::Given(*value),
            Length::Whole(value) => Length::Whole(*value),
            Length::AppUnits(value) => Length::AppUnits(*value),
            Length::Sum(a, b) => Length::Sum(Box::new(a.copy()), Box::new(b.copy())),
            Length::Difference(a, b) => Length::Difference(Box::new(a.copy()), Box::new(b.copy())),
            Length::Product(a, b) => Length::Product(Box::new(a.copy()), Box::new(b.copy())),
            Length::Quotient(a, b) => Length::Quotient(Box::new(a.copy()), Box::new(b.copy())),
            Length::Negative(a) => Length::Negative(Box::new(a.copy())),
            Length::Larger(a, b) => Length::Larger(Box::new(a.copy()), Box::new(b.copy())),
            Length::Lesser(a, b) => Length::Lesser(Box::new(a.copy()), Box::new(b.copy())),
            Length::SquareRoot(a) => Length::SquareRoot(Box::new(a.copy())),
        }
    }

    /// `self + other`.
    pub fn plus(&self, other: &Length) -> (r: Length)
        ensures
            r == self.add(*other),
    {
        Length::Sum(Box::new(self.copy()), Box::new(other.copy()))
    }

    /// `self - other`.
    pub fn minus(&self, other: &Length) -> (r: Length)
        ensures
            r == self.sub(*other),
    {
        Length::Difference(Box::new(self.copy()), Box::new(other.copy()))
    }

    /// `self * other`.
    pub fn times(&self, other: &Length) -> (r: Length)
        ensures
            r == self.mul(*other),
    {
        Length::Product(Box::new(self.copy()), Box::new(other.copy()))
    }

    /// `self / other`.
    pub fn over(&self, other: &Length) -> (r: Length)
        ensures
            r == self.div(*other),
    {
        Length::Quotient(Box::new(self.copy()), Box::new(other.copy()))
    }

    /// `-self`.
    pub fn negative(&self) -> (r: Length)
        ensures
            r == self.neg(),
    {
        Length::Negative(Box::new(self.copy()))
    }

    /// The larger of the two.
    pub fn larger(&self, other: &Length) -> (r: Length)
        ensures
            r == self.max(*other),
    {
        Length::Larger(Box::new(self.copy()), Box::new(other.copy()))
    }

    /// The smaller of the two.
    pub fn lesser(&self, other: &Length) -> (r: Length)
        ensures
            r == self.min(*other),
    {
        Length::Lesser(Box::new(self.copy()), Box::new(other.copy()))
    }

    /// The square root.
    pub fn square_root(&self) -> (r: Length)
        ensures
            r == self.sqrt(),
    {
        Length::SquareRoot(Box::new(self.copy()))
    }
}

/// A point with computed coordinates.
#[derive(Debug)]
pub struct Place {
    pub x: Length,
    pub y: Length,
}

/// A rectangle with computed origin and size.
#[derive(Debug)]
pub struct Area {
    pub x: Length,
    pub y: Length,
    pub width: Length,
    pub height: Length,
}

impl Place {
    /// The point, moved.
    pub open spec fn moved(self, x: Length, y: Length) -> Place {
        Place { x: self.x.add(x), y: self.y.add(y) }
    }

    /// The point, moved.
    pub fn moved_by(&self, x: &Length, y: &Length) -> (r: Place)
        ensures
            r == self.moved(*x, *y),
    {
        Place { x: self.x.plus(x), y: self.y.plus(y) }
    }

    /// The same point once more.
    pub fn copy(&self) -> (r: Place)
        ensures
            r == *self,
    {
        Place { x: self.x.copy(), y: self.y.copy() }
    }
}

impl Area {
    /// The given rectangle.
    pub open spec fn of_rect(rect: Rect) -> Area {
        Area {
            x: of(rect.origin.x),
            y: of(rect.origin.y),
            width: of(rect.size.width),
            height: of(rect.size.height),
        }
    }

    /// The right edge.
    pub open spec fn right(self) -> Length {
        self.x.add(self.width)
    }

    /// The bottom edge.
    pub open spec fn bottom(self) -> Length {
        self.y.add(self.height)
    }

    /// The given rectangle.
    pub fn from_rect(rect: &Rect) -> (r: Area)
        ensures
            r == Area::of_rect(*rect),
    {
        Area {
            x: Length::Given(rect.origin.x),
            y: Length::Given(rect.origin.y),
            width: Length::Given(rect.size.width),
            height: Length::Given(rect.size.height),
        }
    }

    /// The rectangle of a given size at a place.
    pub fn new(origin: &Place, width: &Length, height: &Length) -> (r: Area)
        ensures
            r == (Area { x: origin.x, y: origin.y, width: *width, height: *height }),
    {
        Area { x: origin.x.copy(), y: origin.y.copy(), width: width.copy(), height: height.copy() }
    }

    /// The right edge.
    pub fn max_x(&self) -> (r: Length)
        ensures
            r == self.right(),
    {
        self.x.plus(&self.width)
    }

    /// The bottom edge.
    pub fn max_y(&self) -> (r: Length)
        ensures
            r == self.bottom(),
    {
        self.y.plus(&self.height)
    }

    /// The same rectangle once more.
    pub fn copy(&self) -> (r: Area)
        ensures
            r == *self,
    {
        Area {
            x: self.x.copy(),
            y: self.y.copy(),
            width: self.width.copy(),
            height: self.height.copy(),
        }
    }
}

/// An extent with computed width and height.
#[derive(Debug)]
pub struct Extent {
    pub width: Length,
    pub height: Length,
}

impl Extent {
    /// The given size.
    pub open spec fn of_size(size: Size2D) -> Extent {
        Extent { width: of(size.width), height: of(size.height) }
    }

    /// The given size.
    pub fn from_size(size: &Size2D) -> (r: Extent)
        ensures
            r == Extent::of_size(*size),
    {
        Extent { width: Length::Given(size.width), height: Length::Given(size.height) }
    }
}

} // verus!
