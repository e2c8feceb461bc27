//! What a box shadow looks like.
use crate::display::{BoxShadowClipMode, BoxShadowDisplayItem};
use crate::geometry::{ColorF, CornerColors, Rect};
use crate::meaning::{bounds, lemma_amount, rect_bounds, spot, Bounds, Spot};
use crate::scalar::Scalar;
use crate::shadow::{max_rect, shadow_parts, BoxClip, ShadowPart};
use vstd::arithmetic::power2::{lemma2_to64, lemma_pow2_adds, pow2};
use vstd::prelude::*;

verus! {

/// Whether a shadow is blurred, spread or clipped by its box.
pub open spec fn soft(info: BoxShadowDisplayItem) -> bool {
    ||| info.blur_radius.nan() || info.blur_radius.value() != 0
    ||| info.spread_radius.nan() || info.spread_radius.value() != 0
    ||| info.clip_mode != BoxShadowClipMode::Unclipped
}

/// What clips a part of a shadow.
pub open spec fn clip_of(part: ShadowPart) -> BoxClip {
    match part {
        ShadowPart::Corner { clip, .. } => clip,
        ShadowPart::Filled { clip, .. } => clip,
    }
}

/// A shadow that is blurred, spread or clipped by its box has nine parts, four corners first, and
/// each of them is clipped in the way of the shadow.  The sides and the center are clipped by the box,
/// and so are the corners where the shadow lies outside of it; otherwise nothing cuts a corner off.
pub proof fn soft_shadows_are_clipped_their_way(info: BoxShadowDisplayItem, clip: Rect)
    requires
        soft(info),
    ensures
        ({
            let parts = shadow_parts(info, clip);
            &&& parts.len() == 9
            &&& forall|i: int| 0 <= i < 9 ==> clip_of(#[trigger] parts[i]).mode == info.clip_mode
            &&& forall|i: int| 0 <= i < 4 ==> (#[trigger] parts[i]) is Corner
            &&& forall|i: int|
                4 <= i < 9 ==> (#[trigger] parts[i]) is Filled && clip_of(parts[i]).rect == info.box_bounds
            &&& info.clip_mode == BoxShadowClipMode::Outset ==> forall|i: int|
                0 <= i < 4 ==> clip_of(#[trigger] parts[i]).rect == info.box_bounds
            &&& info.clip_mode != BoxShadowClipMode::Outset ==> forall|i: int|
                0 <= i < 4 ==> clip_of(#[trigger] parts[i]).rect == max_rect()
        }),
{
}

/// A shadow that is neither blurred nor spread nor clipped by its box is the box, moved and filled
/// with the color, inside the clip of the item.
pub proof fn plain_shadows_are_moved_boxes(info: BoxShadowDisplayItem, clip: Rect, v: spec_fn(Scalar) -> real)
    requires
        !soft(info),
    ensures
        ({
            let parts = shadow_parts(info, clip);
            let box_bounds = rect_bounds(info.box_bounds, v);
            &&& parts.len() == 1
            &&& parts[0] matches ShadowPart::Filled { area, colors, clip: cut } && {
                &&& bounds(area, v) == (Bounds {
                    left: box_bounds.left + v(info.offset.x),
                    top: box_bounds.top + v(info.offset.y),
                    right: box_bounds.right + v(info.offset.x),
                    bottom: box_bounds.bottom + v(info.offset.y),
                })
                &&& colors.top_left == info.color && colors.top_right == info.color
                &&& colors.bottom_left == info.color && colors.bottom_right == info.color
                &&& cut.rect == clip
                &&& cut.mode == BoxShadowClipMode::Inset
            }
        }),
{
    broadcast use lemma_amount;
}

/// Whether a part is the corner between two points.
pub open spec fn corner_between(part: ShadowPart, outer: Spot, inner: Spot, v: spec_fn(Scalar) -> real) -> bool {
    part matches ShadowPart::Corner { outer: o, inner: i, .. } && spot(o, v) == outer && spot(i, v) == inner
}

/// Whether a part fills a rectangle.
pub open spec fn fills(part: ShadowPart, within: Bounds, v: spec_fn(Scalar) -> real) -> bool {
    part matches ShadowPart::Filled { area, .. } && bounds(area, v) == within
}

/// Where the parts of a shadow lie: around the box, moved by the offset, the corners as far inside as
/// the border is round and blurred, the sides between the corners and twice the blur deep, the center
/// inside of the sides.
pub proof fn soft_shadows_surround_the_moved_box(info: BoxShadowDisplayItem, clip: Rect, v: spec_fn(Scalar) -> real)
    requires
        soft(info),
        v(Scalar { bits: 0 }) == 0 as real,
    ensures
        ({
            let parts = shadow_parts(info, clip);
            let box_bounds = rect_bounds(info.box_bounds, v);
            let left = box_bounds.left + v(info.offset.x);
            let top = box_bounds.top + v(info.offset.y);
            let right = box_bounds.right + v(info.offset.x);
            let bottom = box_bounds.bottom + v(info.offset.y);
            let reach = v(info.border_radius) + v(info.blur_radius);
            let deep = v(info.blur_radius) + v(info.blur_radius);
            &&& corner_between(parts[0], Spot { x: left, y: top }, Spot { x: left + reach, y: top + reach }, v)
            &&& corner_between(parts[1], Spot { x: right, y: top }, Spot { x: right - reach, y: top + reach }, v)
            &&& corner_between(parts[2], Spot { x: left, y: bottom }, Spot { x: left + reach, y: bottom - reach }, v)
            &&& corner_between(parts[3], Spot { x: right, y: bottom }, Spot { x: right - reach, y: bottom - reach }, v)
            &&& fills(
                parts[4],
                Bounds { left: left + reach, right: right - reach, top, bottom: top + deep },
                v,
            )
            &&& fills(
                parts[5],
                Bounds { left: right - deep, right, top: top + reach, bottom: bottom - reach },
                v,
            )
            &&& fills(
                parts[6],
                Bounds { left: left + reach, right: right - reach, top: bottom - deep, bottom },
                v,
            )
            &&& fills(
                parts[7],
                Bounds { left, right: left + deep, top: top + reach, bottom: bottom - reach },
                v,
            )
            &&& fills(
                parts[8],
                Bounds { left: left + deep, right: right - deep, top: top + deep, bottom: bottom - deep },
                v,
            )
        }),
{
    broadcast use lemma_amount;
}

/// Whether a color is another with nothing left of its opacity.
pub open spec fn fades(color: ColorF, from: ColorF) -> bool {
    &&& color.r == from.r && color.g == from.g && color.b == from.b
    &&& !color.a.nan() && color.a.value() == 0
}

/// The colors of a part that is filled.
pub open spec fn colors_of(part: ShadowPart) -> CornerColors
    recommends
        part is Filled,
{
    part->colors
}

/// Each side of a shadow fades towards the outside: at the border of the shadow nothing is left of its
/// color, towards the center all of it, and the center has that color everywhere.
pub proof fn soft_shadows_fade_outwards(info: BoxShadowDisplayItem, clip: Rect)
    requires
        soft(info),
    ensures
        ({
            let parts = shadow_parts(info, clip);
            let top = colors_of(parts[4]);
            let right = colors_of(parts[5]);
            let bottom = colors_of(parts[6]);
            let left = colors_of(parts[7]);
            let center = colors_of(parts[8]);
            let color = info.color;
            &&& fades(top.top_left, color) && fades(top.top_right, color)
            &&& top.bottom_left == color && top.bottom_right == color
            &&& fades(right.top_right, color) && fades(right.bottom_right, color)
            &&& right.top_left == color && right.bottom_left == color
            &&& fades(bottom.bottom_left, color) && fades(bottom.bottom_right, color)
            &&& bottom.top_left == color && bottom.top_right == color
            &&& fades(left.top_left, color) && fades(left.bottom_left, color)
            &&& left.top_right == color && left.bottom_right == color
            &&& center.top_left == color && center.top_right == color
            &&& center.bottom_left == color && center.bottom_right == color
        }),
{
}

/// The rectangle that a figure without bounds is clipped to reaches from a thousand pixels before the
/// origin to nine thousand behind it, in both directions.
pub proof fn the_largest_rectangle_is_ten_thousand_wide()
    ensures
        ({
            let pixel = pow2(149) as int;
            let r = max_rect();
            &&& !r.origin.x.nan() && r.origin.x.value() == -1000 * pixel
            &&& !r.origin.y.nan() && r.origin.y.value() == -1000 * pixel
            &&& !r.size.width.nan() && r.size.width.value() == 10000 * pixel
            &&& !r.size.height.nan() && r.size.height.value() == 10000 * pixel
        }),
{
    lemma_pow2_adds(14, 135);
    lemma_pow2_adds(10, 139);
    lemma2_to64();
    let start = max_rect().origin.x;
    let size = max_rect().size.width;
    assert(start.magnitude() / 0x80_0000 == 136 && start.magnitude() % 0x80_0000 == 0x7a_0000);
    assert(size.magnitude() / 0x80_0000 == 140 && size.magnitude() % 0x80_0000 == 0x1c_4000);
    assert(start.value() == -(0xfa_0000 * pow2(135)));
    assert(size.value() == 0x9c_4000 * pow2(139));
}

} // verus!
