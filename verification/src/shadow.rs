//! Box shadows: the corners, sides and center that a shadow is drawn with.
use crate::display::{BoxShadowClipMode, BoxShadowDisplayItem};
use crate::geometry::{ColorF, CornerColors, Point2D, Rect, Size2D};
use crate::length::{of, Area, Length, Place};
use crate::scalar::Scalar;
use vstd::prelude::*;

verus! {

/// A rectangle that clips a figure, and the side of it that is cut off.
#[derive(Clone, Copy, Debug, PartialEq, Eq, Structural)]
pub struct BoxClip {
    pub rect: Rect,
    pub mode: BoxShadowClipMode,
}

/// One part of a box shadow.
#[derive(Debug)]
pub enum ShadowPart {
    /// A rounded, blurred corner between two points, drawn under a corner mask.
    Corner { outer: Place, inner: Place, clip: BoxClip },
    /// A rectangle with a color at each corner.
    Filled { area: Area, colors: CornerColors, clip: BoxClip },
}

/// The rectangle that a figure without bounds is clipped to: ten thousand pixels wide and high,
/// starting a thousand pixels before the origin.
pub open spec fn max_rect() -> Rect {
    Rect {
        origin: Point2D { x: Scalar { bits: 0xc47a_0000 }, y: Scalar { bits: 0xc47a_0000 } },
        size: Size2D { width: Scalar { bits: 0x461c_4000 }, height: Scalar { bits: 0x461c_4000 } },
    }
}

/// The rectangle that a figure without bounds is clipped to.
pub fn maximum_rect() -> (r: Rect)
    ensures
        r == max_rect(),
{
    Rect {
        origin: Point2D { x: Scalar { bits: 0xc47a_0000 }, y: Scalar { bits: 0xc47a_0000 } },
        size: Size2D { width: Scalar { bits: 0x461c_4000 }, height: Scalar { bits: 0x461c_4000 } },
    }
}

/// Whether a shadow is a plain rectangle: nothing blurs it, nothing spreads it, and the box does
/// not clip it.
pub open spec fn is_plain(info: BoxShadowDisplayItem) -> bool {
    let zero = Scalar { bits: 0 };
    &&& info.blur_radius.same(zero)
    &&& info.spread_radius.same(zero)
    &&& info.clip_mode == BoxShadowClipMode::Unclipped
}

/// The box, moved by the offset of its shadow.
pub open spec fn shadow_area(info: BoxShadowDisplayItem) -> Area {
    Area {
        x: of(info.box_bounds.origin.x).add(of(info.offset.x)),
        y: of(info.box_bounds.origin.y).add(of(info.offset.y)),
        width: of(info.box_bounds.size.width),
        height: of(info.box_bounds.size.height),
    }
}

/// How far a corner reaches along a side.
pub open spec fn side_radius(info: BoxShadowDisplayItem) -> Length {
    of(info.border_radius).add(of(info.blur_radius))
}

/// Twice the blur radius.
pub open spec fn blur_diameter(info: BoxShadowDisplayItem) -> Length {
    of(info.blur_radius).add(of(info.blur_radius))
}

/// The color with no opacity left.
pub open spec fn faded(color: ColorF) -> ColorF {
    ColorF { a: Scalar { bits: 0 }, ..color }
}

/// The four corners of a rectangle: top left, top right, bottom left, bottom right.
pub open spec fn corner_places(area: Area) -> Seq<Place> {
    seq![
        Place { x: area.x, y: area.y },
        Place { x: area.right(), y: area.y },
        Place { x: area.x, y: area.bottom() },
        Place { x: area.right(), y: area.bottom() },
    ]
}

/// The corners of a shadow: a corner mask reaches from each corner of the rectangle towards its
/// middle.  The box clips a corner only where it clips the shadow to the outside.
pub open spec fn shadow_corners(info: BoxShadowDisplayItem) -> Seq<ShadowPart> {
    let side = side_radius(info);
    let outer = corner_places(shadow_area(info));
    let clip = BoxClip {
        rect: if info.clip_mode == BoxShadowClipMode::Outset {
            info.box_bounds
        } else {
            max_rect()
        },
        mode: info.clip_mode,
    };
    seq![
        ShadowPart::Corner { outer: outer[0], inner: outer[0].moved(side, side), clip },
        ShadowPart::Corner { outer: outer[1], inner: outer[1].moved(side.neg(), side), clip },
        ShadowPart::Corner { outer: outer[2], inner: outer[2].moved(side, side.neg()), clip },
        ShadowPart::Corner { outer: outer[3], inner: outer[3].moved(side.neg(), side.neg()), clip },
    ]
}

/// The sides of a shadow, which fade towards the outside, and its center: top, right, bottom,
/// left, center.
pub open spec fn shadow_fill(info: BoxShadowDisplayItem) -> Seq<ShadowPart> {
    let area = shadow_area(info);
    let outer = corner_places(area);
    let side = side_radius(info);
    let blur = blur_diameter(info);
    let nothing = of(Scalar { bits: 0 });
    let across = area.width.sub(side.add(side));
    let down = area.height.sub(side.add(side));
    let color = info.color;
    let none = faded(color);
    let clip = BoxClip { rect: info.box_bounds, mode: info.clip_mode };
    let top = outer[0].moved(side, nothing);
    let right = outer[1].moved(blur.neg(), side);
    let bottom = outer[2].moved(side, blur.neg());
    let left = outer[0].moved(nothing, side);
    let center = outer[0].moved(blur, blur);
    seq![
        ShadowPart::Filled {
            area: Area { x: top.x, y: top.y, width: across, height: blur },
            colors: CornerColors {
                top_left: none,
                top_right: none,
                bottom_right: color,
                bottom_left: color,
            },
            clip,
        },
        ShadowPart::Filled {
            area: Area { x: right.x, y: right.y, width: blur, height: down },
            colors: CornerColors {
                top_left: color,
                top_right: none,
                bottom_right: none,
                bottom_left: color,
            },
            clip,
        },
        ShadowPart::Filled {
            area: Area { x: bottom.x, y: bottom.y, width: across, height: blur },
            colors: CornerColors {
                top_left: color,
                top_right: color,
                bottom_right: none,
                bottom_left: none,
            },
            clip,
        },
        ShadowPart::Filled {
            area: Area { x: left.x, y: left.y, width: blur, height: down },
            colors: CornerColors {
                top_left: none,
                top_right: color,
                bottom_right: color,
                bottom_left: none,
            },
            clip,
        },
        ShadowPart::Filled {
            area: Area {
                x: center.x,
                y: center.y,
                width: area.width.sub(blur.add(blur)),
                height: area.height.sub(blur.add(blur)),
            },
            colors: CornerColors::all(color),
            clip,
        },
    ]
}

/// The parts of a shadow in the order in which they are drawn.  A plain shadow is one rectangle
/// inside the clip of its item; any other is made of corners, sides and a center.
pub open spec fn shadow_parts(info: BoxShadowDisplayItem, clip: Rect) -> Seq<ShadowPart> {
    if is_plain(info) {
        seq![
            ShadowPart::Filled {
                area: shadow_area(info),
                colors: CornerColors::all(info.color),
                clip: BoxClip { rect: clip, mode: BoxShadowClipMode::Inset },
            },
        ]
    } else {
        shadow_corners(info) + shadow_fill(info)
    }
}

/// The parts of a box shadow in the order in which they are drawn.  `clip` is the rectangle that
/// the item is clipped to.
pub fn add_box_shadow(info: &BoxShadowDisplayItem, clip: &Rect) -> (parts: Vec<ShadowPart>)
    ensures
        parts@ == shadow_parts(*info, *clip),
{
    let rect = Area {
        x: Length::Given(info.box_bounds.origin.x).plus(&Length::Given(info.offset.x)),
        y: Length::Given(info.box_bounds.origin.y).plus(&Length::Given(info.offset.y)),
        width: Length::Given(info.box_bounds.size.width),
        height: Length::Given(info.box_bounds.size.height),
    };
    let mut parts: Vec<ShadowPart> = Vec::new();
    let zero = Scalar::zero();
    if info.blur_radius.equals(zero) && info.spread_radius.equals(zero) && info.clip_mode
        == BoxShadowClipMode::Unclipped {
        parts.push(
            ShadowPart::Filled {
                area: rect,
                colors: CornerColors::plain(info.color),
                clip: BoxClip { rect: *clip, mode: BoxShadowClipMode::Inset },
            },
        );
        assert(parts@ =~= shadow_parts(*info, *clip));
        return parts;
    }
    add_shadow_corners(info, &rect, &mut parts);
    add_shadow_fill(info, &rect, &mut parts);
    assert(parts@ =~= shadow_parts(*info, *clip));
    parts
}

/// The rectangle that clips a corner of a shadow.
fn corner_clip(info: &BoxShadowDisplayItem) -> (clip: BoxClip)
    ensures
        clip.mode == info.clip_mode,
        clip.rect == (if info.clip_mode == BoxShadowClipMode::Outset {
            info.box_bounds
        } else {
            max_rect()
        }),
{
    let rect = match info.clip_mode {
        BoxShadowClipMode::Outset => info.box_bounds,
        BoxShadowClipMode::Unclipped => maximum_rect(),
        BoxShadowClipMode::Inset => maximum_rect(),
    };
    BoxClip { rect, mode: info.clip_mode }
}

fn add_shadow_corners(info: &BoxShadowDisplayItem, rect: &Area, parts: &mut Vec<ShadowPart>)
    requires
        *rect == shadow_area(*info),
    ensures
        final(parts)@ == old(parts)@ + shadow_corners(*info),
{
    let side = Length::Given(info.border_radius).plus(&Length::Given(info.blur_radius));
    let back = side.negative();
    let clip = corner_clip(info);

    let tl_outer = Place { x: rect.x.copy(), y: rect.y.copy() };
    let tl_inner = tl_outer.moved_by(&side, &side);
    let tr_outer = Place { x: rect.max_x(), y: rect.y.copy() };
    let tr_inner = tr_outer.moved_by(&back, &side);
    let bl_outer = Place { x: rect.x.copy(), y: rect.max_y() };
    let bl_inner = bl_outer.moved_by(&side, &back);
    let br_outer = Place { x: rect.max_x(), y: rect.max_y() };
    let br_inner = br_outer.moved_by(&back, &back);

    parts.push(ShadowPart::Corner { outer: tl_outer, inner: tl_inner, clip });
    parts.push(ShadowPart::Corner { outer: tr_outer, inner: tr_inner, clip });
    parts.push(ShadowPart::Corner { outer: bl_outer, inner: bl_inner, clip });
    parts.push(ShadowPart::Corner { outer: br_outer, inner: br_inner, clip });
    assert(parts@ =~= old(parts)@ + shadow_corners(*info));
}

fn add_shadow_fill(info: &BoxShadowDisplayItem, rect: &Area, parts: &mut Vec<ShadowPart>)
    requires
        *rect == shadow_area(*info),
    ensures
        final(parts)@ == old(parts)@ + shadow_fill(*info),
{
    let color = info.color;
    let transparent = ColorF { r: color.r, g: color.g, b: color.b, a: Scalar::zero() };
    let clip = BoxClip { rect: info.box_bounds, mode: info.clip_mode };

    let side = Length::Given(info.border_radius).plus(&Length::Given(info.blur_radius));
    let blur = Length::Given(info.blur_radius).plus(&Length::Given(info.blur_radius));
    let back = blur.negative();
    let nothing = Length::Given(Scalar::zero());
    let twice_side = side.plus(&side);
    let twice_blur = blur.plus(&blur);
    let across = rect.width.minus(&twice_side);
    let down = rect.height.minus(&twice_side);

    let top_left = Place { x: rect.x.copy(), y: rect.y.copy() };
    let top_right = Place { x: rect.max_x(), y: rect.y.copy() };
    let bottom_left = Place { x: rect.x.copy(), y: rect.max_y() };

    parts.push(
        ShadowPart::Filled {
            area: Area::new(&top_left.moved_by(&side, &nothing), &across, &blur),
            colors: CornerColors {
                top_left: transparent,
                top_right: transparent,
                bottom_right: color,
                bottom_left: color,
            },
            clip,
        },
    );
    parts.push(
        ShadowPart::Filled {
            area: Area::new(&top_right.moved_by(&back, &side), &blur, &down),
            colors: CornerColors {
                top_left: color,
                top_right: transparent,
                bottom_right: transparent,
                bottom_left: color,
            },
            clip,
        },
    );
    parts.push(
        ShadowPart::Filled {
            area: Area::new(&bottom_left.moved_by(&side, &back), &across, &blur),
            colors: CornerColors {
                top_left: color,
                top_right: color,
                bottom_right: transparent,
                bottom_left: transparent,
            },
            clip,
        },
    );
    parts.push(
        ShadowPart::Filled {
            area: Area::new(&top_left.moved_by(&nothing, &side), &blur, &down),
            colors: CornerColors {
                top_left: transparent,
                top_right: color,
                bottom_right: color,
                bottom_left: transparent,
            },
            clip,
        },
    );
    parts.push(
        ShadowPart::Filled {
            area: Area::new(
                &top_left.moved_by(&blur, &blur),
                &rect.width.minus(&twice_blur),
                &rect.height.minus(&twice_blur),
            ),
            colors: CornerColors::plain(color),
            clip,
        },
    );
    assert(parts@ =~= old(parts)@ + shadow_fill(*info));
}

} // verus!
