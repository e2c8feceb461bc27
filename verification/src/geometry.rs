//! Points, rectangles and colors.
use crate::scalar::Scalar;
use vstd::prelude::*;

verus! {

/// A point in the plane.
#[derive(Clone, Copy, Debug, PartialEq, Eq, Structural)]
pub struct Point2D {
    pub x: Scalar,
    pub y: Scalar,
}

/// An extent in the plane.
#[derive(Clone, Copy, Debug, PartialEq, Eq, Structural)]
pub struct Size2D {
    pub width: Scalar,
    pub height: Scalar,
}

/// An axis-aligned rectangle.
#[derive(Clone, Copy, Debug, PartialEq, Eq, Structural)]
pub struct Rect {
    pub origin: Point2D,
    pub size: Size2D,
}

/// A color with an alpha channel.
#[derive(Clone, Copy, Debug, PartialEq, Eq, Structural)]
pub struct ColorF {
    pub r: Scalar,
    pub g: Scalar,
    pub b: Scalar,
    pub a: Scalar,
}

/// A color for each corner of a rectangle.
#[derive(Clone, Copy, Debug, PartialEq, Eq, Structural)]
pub struct CornerColors {
    pub top_left: ColorF,
    pub top_right: ColorF,
    pub bottom_right: ColorF,
    pub bottom_left: ColorF,
}

/// A size in device pixels.
#[derive(Clone, Copy, Debug, PartialEq, Eq, Structural)]
pub struct DeviceSize {
    pub width: u32,
    pub height: u32,
}

/// A rectangle in device pixels.
#[derive(Clone, Copy, Debug, PartialEq, Eq, Structural)]
pub struct DeviceRect {
    pub x: u32,
    pub y: u32,
    pub size: DeviceSize,
}

/// The part of the window that a frame covers.
#[derive(Clone, Copy, Debug, PartialEq, Eq, Structural)]
pub struct Viewport {
    pub x: i32,
    pub y: i32,
    pub width: i32,
    pub height: i32,
}

impl ColorF {
    /// White, without transparency.
    pub open spec fn all_white() -> ColorF {
        let one = Scalar { bits: 0x3f80_0000 };
        ColorF { r: one, g: one, b: one, a: one }
    }

    /// White, without transparency.
    pub fn white() -> (r: ColorF)
        ensures
            r == ColorF::all_white(),
    {
        let one = Scalar { bits: 0x3f80_0000 };
        ColorF { r: one, g: one, b: one, a: one }
    }
}

impl CornerColors {
    /// The same color at each corner.
    pub open spec fn all(color: ColorF) -> CornerColors {
        CornerColors {
            top_left: color,
            top_right: color,
            bottom_right: color,
            bottom_left: color,
        }
    }

    /// The same color at each corner.
    pub fn plain(color: ColorF) -> (r: CornerColors)
        ensures
            r == CornerColors::all(color),
    {
        CornerColors {
            top_left: color,
            top_right: color,
            bottom_right: color,
            bottom_left: color,
        }
    }

    /// One color at the two upper corners, one at the two lower ones.
    pub open spec fn stacked(upper: ColorF, lower: ColorF) -> CornerColors {
        CornerColors {
            top_left: upper,
            top_right: upper,
            bottom_right: lower,
            bottom_left: lower,
        }
    }
}

impl Size2D {
    /// The whole pixels that the size covers.
    pub open spec fn whole(self) -> DeviceSize {
        DeviceSize { width: self.width.whole(), height: self.height.whole() }
    }

    /// The whole pixels that the size covers.
    pub fn to_device(self) -> (r: DeviceSize)
        ensures
            r == self.whole(),
    {
        DeviceSize { width: self.width.to_u32(), height: self.height.to_u32() }
    }
}

} // verus!
