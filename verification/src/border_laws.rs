//! What a border looks like.
use crate::border::{
    border_corners, border_edges, dash_at, dot_quarters, edge_shape, BorderColor, BorderCorner, BorderEdge,
    BorderEdgeDirection, EdgeShape,
};
use crate::display::{BorderDisplayItem, BorderSide, BorderStyle, BoxShadowClipMode};
use crate::geometry::{ColorF, Rect};
use crate::length::Area;
use crate::meaning::{amount, bounds, larger, lemma_amount, lemma_shares, lesser, rect_bounds, spot, Bounds, Spot};
use crate::scalar::Scalar;
use vstd::arithmetic::power2::{lemma2_to64, lemma_pow2_adds, lemma_pow2_pos, lemma_pow2_unfold, pow2};
use vstd::prelude::*;

verus! {

/// Each edge runs along its own side: it is as thick as that side is wide, lies at the border of the
/// rectangle, and reaches from corner to corner, where a corner takes as much as the wider of the
/// side that it meets and its own radius.
pub proof fn edges_lie_along_their_sides(rect: Rect, info: BorderDisplayItem, v: spec_fn(Scalar) -> real)
    ensures
        ({
            let edges = border_edges(rect, info);
            let all = rect_bounds(rect, v);
            let left = v(info.left.width);
            let top = v(info.top.width);
            let right = v(info.right.width);
            let bottom = v(info.bottom.width);
            &&& edges.len() == 4
            &&& bounds(edges[0].area, v) == (Bounds {
                left: all.left,
                right: all.left + left,
                top: all.top + larger(v(info.radius.top_left.height), top),
                bottom: all.bottom - larger(v(info.radius.bottom_left.height), bottom),
            })
            &&& bounds(edges[1].area, v) == (Bounds {
                left: all.left + larger(v(info.radius.top_left.width), left),
                right: all.right - larger(v(info.radius.top_right.width), right),
                top: all.top,
                bottom: all.top + top,
            })
            &&& bounds(edges[2].area, v) == (Bounds {
                left: all.right - right,
                right: all.right,
                top: all.top + larger(v(info.radius.top_right.height), top),
                bottom: all.bottom - larger(v(info.radius.bottom_right.height), bottom),
            })
            &&& bounds(edges[3].area, v) == (Bounds {
                left: all.left + larger(v(info.radius.bottom_left.width), left),
                right: all.right - larger(v(info.radius.bottom_right.width), right),
                top: all.bottom - bottom,
                bottom: all.bottom,
            })
        }),
{
    broadcast use lemma_amount;
}

/// Each corner lies between a corner of the rectangle and the point inside at which its two edges
/// begin.
pub proof fn corners_lie_between_the_edges(rect: Rect, info: BorderDisplayItem, v: spec_fn(Scalar) -> real)
    ensures
        ({
            let edges = border_edges(rect, info);
            let corners = border_corners(rect, info);
            let all = rect_bounds(rect, v);
            let left = bounds(edges[0].area, v);
            let top = bounds(edges[1].area, v);
            let right = bounds(edges[2].area, v);
            let bottom = bounds(edges[3].area, v);
            &&& corners.len() == 4
            &&& spot(corners[0].outer, v) == (Spot { x: all.left, y: all.top })
            &&& spot(corners[0].inner, v) == (Spot { x: top.left, y: left.top })
            &&& spot(corners[1].outer, v) == (Spot { x: all.right, y: all.top })
            &&& spot(corners[1].inner, v) == (Spot { x: top.right, y: right.top })
            &&& spot(corners[2].outer, v) == (Spot { x: all.right, y: all.bottom })
            &&& spot(corners[2].inner, v) == (Spot { x: bottom.right, y: right.bottom })
            &&& spot(corners[3].outer, v) == (Spot { x: all.left, y: all.bottom })
            &&& spot(corners[3].inner, v) == (Spot { x: bottom.left, y: left.bottom })
        }),
{
    broadcast use lemma_amount;
}

/// Each edge has the style of its own side and runs along it; each corner is as round, outside and
/// inside, as the border is there, and nothing clips it.
pub proof fn sides_keep_their_styles_and_radii(rect: Rect, info: BorderDisplayItem)
    ensures
        ({
            let edges = border_edges(rect, info);
            let corners = border_corners(rect, info);
            &&& edges[0].style == info.left.style && edges[0].direction == BorderEdgeDirection::Vertical
            &&& edges[1].style == info.top.style && edges[1].direction == BorderEdgeDirection::Horizontal
            &&& edges[2].style == info.right.style && edges[2].direction == BorderEdgeDirection::Vertical
            &&& edges[3].style == info.bottom.style && edges[3].direction == BorderEdgeDirection::Horizontal
            &&& corners[0].outer_radius == info.radius.top_left
            &&& corners[1].outer_radius == info.radius.top_right
            &&& corners[2].outer_radius == info.radius.bottom_right
            &&& corners[3].outer_radius == info.radius.bottom_left
            &&& corners[0].inner_radius == info.inner_radius.top_left
            &&& corners[1].inner_radius == info.inner_radius.top_right
            &&& corners[2].inner_radius == info.inner_radius.bottom_right
            &&& corners[3].inner_radius == info.inner_radius.bottom_left
            &&& forall|i: int| 0 <= i < 4 ==> (#[trigger] corners[i]).clip.mode == BoxShadowClipMode::Unclipped
        }),
{
}

/// Whether a side is shaded to look raised or sunken.
pub open spec fn shaded(side: BorderSide) -> bool {
    side.style == BorderStyle::Inset || side.style == BorderStyle::Outset
}

/// A side that is neither raised nor sunken is painted in its own color: its edge, and its part of
/// the two corners at its ends.
pub proof fn plain_sides_keep_their_colors(rect: Rect, info: BorderDisplayItem)
    ensures
        ({
            let edges = border_edges(rect, info);
            let corners = border_corners(rect, info);
            &&& !shaded(info.left) ==> {
                &&& edges[0].color == BorderColor::Plain(info.left.color)
                &&& corners[0].color0 == BorderColor::Plain(info.left.color)
                &&& corners[3].color0 == BorderColor::Plain(info.left.color)
            }
            &&& !shaded(info.top) ==> {
                &&& edges[1].color == BorderColor::Plain(info.top.color)
                &&& corners[0].color1 == BorderColor::Plain(info.top.color)
                &&& corners[1].color1 == BorderColor::Plain(info.top.color)
            }
            &&& !shaded(info.right) ==> {
                &&& edges[2].color == BorderColor::Plain(info.right.color)
                &&& corners[1].color0 == BorderColor::Plain(info.right.color)
                &&& corners[2].color0 == BorderColor::Plain(info.right.color)
            }
            &&& !shaded(info.bottom) ==> {
                &&& edges[3].color == BorderColor::Plain(info.bottom.color)
                &&& corners[2].color1 == BorderColor::Plain(info.bottom.color)
                &&& corners[3].color1 == BorderColor::Plain(info.bottom.color)
            }
        }),
{
}

/// The colors in which one side is painted: those of its edge, and of its part of two corners.
pub open spec fn side_colors(edges: Seq<BorderEdge>, corners: Seq<BorderCorner>, side: int) -> Seq<BorderColor> {
    if side == 0 {
        seq![edges[0].color, corners[0].color0, corners[3].color0]
    } else if side == 1 {
        seq![edges[1].color, corners[0].color1, corners[1].color1]
    } else if side == 2 {
        seq![edges[2].color, corners[1].color0, corners[2].color0]
    } else {
        seq![edges[3].color, corners[2].color1, corners[3].color1]
    }
}

/// The sides of a border: left, top, right, bottom.
pub open spec fn side_of(info: BorderDisplayItem, side: int) -> BorderSide {
    if side == 0 {
        info.left
    } else if side == 1 {
        info.top
    } else if side == 2 {
        info.right
    } else {
        info.bottom
    }
}

/// The colors of a side depend on that side alone: two borders that have it in common paint it in the
/// same colors, whatever their other sides and their rectangles are.
pub proof fn sides_are_colored_by_themselves(
    rect: Rect,
    info: BorderDisplayItem,
    other_rect: Rect,
    other: BorderDisplayItem,
    side: int,
)
    requires
        0 <= side < 4,
        side_of(info, side) == side_of(other, side),
    ensures
        side_colors(border_edges(rect, info), border_corners(rect, info), side) == side_colors(
            border_edges(other_rect, other),
            border_corners(other_rect, other),
            side,
        ),
{
}

/// Two borders that differ in the color of one side, which is not shaded, paint that side differently.
pub proof fn colors_of_sides_show(
    rect: Rect,
    info: BorderDisplayItem,
    other: BorderDisplayItem,
    side: int,
    place: int,
)
    requires
        0 <= side < 4,
        0 <= place < 3,
        !shaded(side_of(info, side)),
        !shaded(side_of(other, side)),
        side_of(info, side).color != side_of(other, side).color,
    ensures
        side_colors(border_edges(rect, info), border_corners(rect, info), side)[place] != side_colors(
            border_edges(rect, other),
            border_corners(rect, other),
            side,
        )[place],
{
    plain_sides_keep_their_colors(rect, info);
    plain_sides_keep_their_colors(rect, other);
}

/// Whether two borders have the same widths, styles and radii.
pub open spec fn same_but_colors(info: BorderDisplayItem, other: BorderDisplayItem) -> bool {
    &&& forall|side: int|
        0 <= side < 4 ==> (#[trigger] side_of(info, side)).width == side_of(other, side).width && side_of(
            info,
            side,
        ).style == side_of(other, side).style
    &&& info.radius == other.radius
    &&& info.inner_radius == other.inner_radius
}

/// Colors change nothing but colors: two borders that differ in their colors alone have the same edges and
/// corners otherwise.
pub proof fn colors_change_nothing_else(rect: Rect, info: BorderDisplayItem, other: BorderDisplayItem)
    requires
        same_but_colors(info, other),
    ensures
        forall|i: int|
            0 <= i < 4 ==> {
                let a = #[trigger] border_edges(rect, info)[i];
                let b = border_edges(rect, other)[i];
                a.area == b.area && a.direction == b.direction && a.style == b.style
            },
        forall|i: int|
            0 <= i < 4 ==> {
                let a = #[trigger] border_corners(rect, info)[i];
                let b = border_corners(rect, other)[i];
                &&& a.outer == b.outer && a.inner == b.inner
                &&& a.outer_radius == b.outer_radius && a.inner_radius == b.inner_radius
                &&& a.clip == b.clip
            },
{
    assert(side_of(info, 0) == info.left && side_of(info, 1) == info.top);
    assert(side_of(info, 2) == info.right && side_of(info, 3) == info.bottom);
}

/// The factor by which a shaded side that is not black is darkened: the left and the top side of a
/// sunken border and the right and the bottom side of a raised one keep two thirds of their light, the
/// other sides all of it.
pub open spec fn light_kept(style: BorderStyle, side: int) -> real {
    if (style == BorderStyle::Inset) == (side == 0 || side == 1) {
        (2 as real) / (3 as real)
    } else {
        1 as real
    }
}

/// A shaded side that has any red, green or blue is painted in its own color, darkened or not.
pub proof fn shaded_sides_are_darkened(
    rect: Rect,
    info: BorderDisplayItem,
    side: int,
    place: int,
    v: spec_fn(Scalar) -> real,
)
    requires
        0 <= side < 4,
        0 <= place < 3,
        shaded(side_of(info, side)),
        ({
            let color = side_of(info, side).color;
            ||| color.r.nan() || color.r.value() != 0
            ||| color.g.nan() || color.g.value() != 0
            ||| color.b.nan() || color.b.value() != 0
        }),
    ensures
        ({
            let side_of = side_of(info, side);
            side_colors(border_edges(rect, info), border_corners(rect, info), side)[place] matches BorderColor::Scaled {
                color,
                factor,
            } && color == side_of.color && amount(factor, v) == light_kept(side_of.style, side)
        }),
{
    broadcast use lemma_amount;
    reveal_with_fuel(amount, 3);
}

/// A black side that is shaded is painted gray, as opaque as it is: darker on the left and the top of a
/// raised border and on the right and the bottom of a sunken one, and lighter on the other sides.
pub proof fn black_sides_are_lightened(rect: Rect, info: BorderDisplayItem, side: int, place: int)
    requires
        0 <= side < 4,
        0 <= place < 3,
        shaded(side_of(info, side)),
        ({
            let color = side_of(info, side).color;
            &&& !color.r.nan() && color.r.value() == 0
            &&& !color.g.nan() && color.g.value() == 0
            &&& !color.b.nan() && color.b.value() == 0
        }),
    ensures
        ({
            let own = side_of(info, side);
            let lighter = (own.style == BorderStyle::Inset) == (side == 0 || side == 1);
            side_colors(border_edges(rect, info), border_corners(rect, info), side)[place] matches BorderColor::Plain(
                color,
            ) && {
                &&& color.a == own.color.a
                &&& color.r == color.g && color.g == color.b
                &&& near_tenths(color.r, if lighter {
                    7
                } else {
                    3
                })
            }
        }),
{
    lemma_gray();
}

/// Whether a number is so many tenths, as closely as twenty-four bits can tell.
pub open spec fn near_tenths(number: Scalar, tenths: int) -> bool {
    let unit = pow2(124) as int;
    let exact = tenths * pow2(149) as int;
    &&& !number.nan()
    &&& -5 * unit < 10 * number.value() - exact < 5 * unit
}

proof fn lemma_gray()
    ensures
        near_tenths(Scalar { bits: 0x3e99_999a }, 3),
        near_tenths(Scalar { bits: 0x3f33_3333 }, 7),
{
    lemma_powers();
    let low = Scalar { bits: 0x3e99_999a };
    let high = Scalar { bits: 0x3f33_3333 };
    let unit = pow2(124) as int;
    assert(low.magnitude() / 0x80_0000 == 125 && low.magnitude() % 0x80_0000 == 0x19_999a);
    assert(high.magnitude() / 0x80_0000 == 126 && high.magnitude() % 0x80_0000 == 0x33_3333);
    assert(low.value() == 0x99_999a * unit);
    assert(high.value() == 0xb3_3333 * (2 * unit));
    assert(pow2(149) as int == 0x200_0000 * unit);
}

proof fn lemma_powers()
    ensures
        pow2(125) == 2 * pow2(124),
        pow2(149) == 0x200_0000 * pow2(124),
        pow2(124) > 0,
{
    lemma_pow2_unfold(125);
    lemma_pow2_adds(25, 124);
    lemma2_to64();
    lemma_pow2_pos(124);
}

/// The length of an edge, along its direction.
pub open spec fn edge_length(rect: Rect, direction: BorderEdgeDirection) -> Scalar {
    match direction {
        BorderEdgeDirection::Horizontal => rect.size.width,
        BorderEdgeDirection::Vertical => rect.size.height,
    }
}

/// The thickness of an edge, across its direction.
pub open spec fn edge_thickness(rect: Rect, direction: BorderEdgeDirection) -> Scalar {
    match direction {
        BorderEdgeDirection::Horizontal => rect.size.height,
        BorderEdgeDirection::Vertical => rect.size.width,
    }
}

/// The part of an edge from one line across it to another, and from one line along it to another, both
/// counted from where the edge begins.
pub open spec fn edge_part(
    rect: Rect,
    direction: BorderEdgeDirection,
    from: real,
    to: real,
    near: real,
    far: real,
    v: spec_fn(Scalar) -> real,
) -> Bounds {
    let all = rect_bounds(rect, v);
    match direction {
        BorderEdgeDirection::Horizontal => Bounds {
            left: all.left + from,
            right: all.left + to,
            top: all.top + near,
            bottom: all.top + far,
        },
        BorderEdgeDirection::Vertical => Bounds {
            left: all.left + near,
            right: all.left + far,
            top: all.top + from,
            bottom: all.top + to,
        },
    }
}

/// How an edge is drawn, by its style: dashes are three times as long as they are thick, dots are as
/// long as they are thick and rounded by half of that, a double edge leaves its middle third free, and
/// every other edge is drawn whole.  An edge is drawn only in a color that shows.
pub proof fn edges_are_drawn_by_their_style(
    rect: Rect,
    direction: BorderEdgeDirection,
    color: ColorF,
    style: BorderStyle,
    v: spec_fn(Scalar) -> real,
)
    ensures
        ({
            let length = edge_length(rect, direction);
            let thickness = edge_thickness(rect, direction);
            let third = v(thickness) / (3int as real);
            let shape = edge_shape(rect, direction, color, style);
            let shows = color.a.nan() || color.a.value() > 0;
            &&& !shows ==> shape is Nothing
            &&& shows ==> match style {
                BorderStyle::Dashed => shape matches EdgeShape::Dashes { extent, step } && extent == length && amount(
                    step,
                    v,
                ) == v(thickness) + v(thickness) + v(thickness),
                BorderStyle::Dotted => shape matches EdgeShape::Dots { extent, width, mask_radius } && extent == length
                    && width == thickness && amount(mask_radius, v) + amount(mask_radius, v) == v(thickness),
                BorderStyle::Double => shape matches EdgeShape::Double { outer, inner } && bounds(outer, v)
                    == edge_part(rect, direction, 0 as real, v(length), 0 as real, third, v) && bounds(inner, v)
                    == edge_part(rect, direction, 0 as real, v(length), third + third, v(thickness), v),
                _ => shape is Solid,
            }
        }),
{
    broadcast use lemma_amount;
    lemma_shares(v(edge_thickness(rect, direction)));
}

/// A dash or a dot starts where it should along the edge, is as thick as the edge, and as long as it
/// should be or as there is room; the next one starts two lengths further.  There are none behind the
/// end of the edge.
pub proof fn dashes_follow_each_other(
    rect: Rect,
    direction: BorderEdgeDirection,
    extent: Scalar,
    step: Scalar,
    origin: Scalar,
    v: spec_fn(Scalar) -> real,
)
    requires
        !extent.nan(),
        !origin.nan(),
    ensures
        ({
            let dash = dash_at(rect, direction, extent, step, origin);
            let length = lesser(v(step), v(extent) - v(origin));
            &&& dash is Some <==> origin.value() < extent.value()
            &&& dash is Some ==> {
                &&& bounds(dash.unwrap().area, v) == edge_part(
                    rect,
                    direction,
                    v(origin),
                    v(origin) + length,
                    0 as real,
                    v(edge_thickness(rect, direction)),
                    v,
                )
                &&& amount(dash.unwrap().next, v) == v(origin) + v(step) + v(step)
            }
        }),
{
    broadcast use lemma_amount;
}

/// The four quarters of a dot reach from its corners to its middle, so that they cover it and do not
/// overlap.
pub proof fn quarters_meet_in_the_middle(dot: Area, v: spec_fn(Scalar) -> real)
    ensures
        ({
            let all = bounds(dot, v);
            let x = all.left + (all.right - all.left) / (2int as real);
            let y = all.top + (all.bottom - all.top) / (2int as real);
            let parts = dot_quarters(dot);
            &&& parts.len() == 4
            &&& bounds(parts[0], v) == (Bounds { left: all.left, top: all.top, right: x, bottom: y })
            &&& bounds(parts[1], v) == (Bounds { left: all.right, top: all.top, right: x, bottom: y })
            &&& bounds(parts[2], v) == (Bounds { left: all.right, top: all.bottom, right: x, bottom: y })
            &&& bounds(parts[3], v) == (Bounds { left: all.left, top: all.bottom, right: x, bottom: y })
        }),
{
    broadcast use lemma_amount;
    lemma_shares(amount(dot.width, v));
    lemma_shares(amount(dot.height, v));
}

} // verus!
