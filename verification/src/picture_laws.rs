//! What images, text, gradients and composites look like.
use crate::border::{border_corners, border_edges};
use crate::display::{BoxShadowClipMode, GlyphInstance, GradientStop, ItemView, SpecificView};
use crate::geometry::{ColorF, Point2D, Rect, Size2D};
use crate::length::Place;
use crate::meaning::{amount, bounds, is_root, lemma_amount, lemma_shares, rect_bounds, root, spot, Bounds, Spot};
use crate::picture::{
    area_between, band, composite_pixels, fits, glyph_corners, outline, stop_place, texture_area, tile_step,
    TextureCacheItem, TileStep,
};
use crate::plan::{draws, DrawPlan};
use crate::scalar::Scalar;
use crate::scalar_laws::whole_parts_are_rounded_down;
use crate::shadow::shadow_parts;
use vstd::arithmetic::power2::{lemma2_to64, lemma_pow2_adds, pow2};
use vstd::prelude::*;

verus! {

/// An image is drawn as one rectangle exactly if that is as wide and as high as the image is to appear.
/// One that is to appear narrower or lower, or wider or higher, is tiled.
pub proof fn images_fill_both_ways(rect: Rect, stretch_size: Size2D)
    ensures
        fits(rect, stretch_size) ==> rect.size.width.value() == stretch_size.width.value(),
        fits(rect, stretch_size) ==> rect.size.height.value() == stretch_size.height.value(),
        stretch_size.width.lt(rect.size.width) ==> !fits(rect, stretch_size),
        stretch_size.height.lt(rect.size.height) ==> !fits(rect, stretch_size),
        rect.size.width.lt(stretch_size.width) ==> !fits(rect, stretch_size),
        rect.size.height.lt(stretch_size.height) ==> !fits(rect, stretch_size),
        (stretch_size.width.nan() || stretch_size.height.nan()) ==> !fits(rect, stretch_size),
        (stretch_size == rect.size && !rect.size.width.nan() && !rect.size.height.nan()) ==> fits(
            rect,
            stretch_size,
        ),
{
}

/// Tiles are as large as the image is to appear, and lie side by side from the upper left corner of the
/// rectangle on: each starts where the one before it ends, inside the rectangle; a row that is full is
/// followed by the next one, and tiling ends below the rectangle.
pub proof fn tiles_lie_side_by_side(
    rect: Rect,
    stretch_size: Size2D,
    x_offset: Scalar,
    y_offset: Scalar,
    v: spec_fn(Scalar) -> real,
)
    requires
        !rect.size.width.nan() && !rect.size.height.nan() && !x_offset.nan() && !y_offset.nan(),
    ensures
        ({
            let all = rect_bounds(rect, v);
            match tile_step(rect, stretch_size, x_offset, y_offset) {
                TileStep::Done => y_offset.value() >= rect.size.height.value(),
                TileStep::NextRow { y_offset: next } => {
                    &&& y_offset.value() < rect.size.height.value()
                    &&& x_offset.value() >= rect.size.width.value()
                    &&& amount(next, v) == v(y_offset) + v(stretch_size.height)
                },
                TileStep::Draw { area, x_offset: next } => {
                    &&& y_offset.value() < rect.size.height.value()
                    &&& x_offset.value() < rect.size.width.value()
                    &&& bounds(area, v) == (Bounds {
                        left: all.left + v(x_offset),
                        top: all.top + v(y_offset),
                        right: all.left + amount(next, v),
                        bottom: all.top + v(y_offset) + v(stretch_size.height),
                    })
                    &&& amount(next, v) == v(x_offset) + v(stretch_size.width)
                },
            }
        }),
{
    broadcast use lemma_amount;
}

/// The part of a texture that an image takes, and the rectangle between two points, reach from the one
/// corner to the other.
pub proof fn areas_reach_from_corner_to_corner(
    image: TextureCacheItem,
    v0: Place,
    v1: Place,
    v: spec_fn(Scalar) -> real,
)
    ensures
        bounds(texture_area(image), v) == (Bounds {
            left: v(image.u0),
            top: v(image.v0),
            right: v(image.u1),
            bottom: v(image.v1),
        }),
        bounds(area_between(v0, v1), v) == (Bounds {
            left: spot(v0, v).x,
            top: spot(v0, v).y,
            right: spot(v1, v).x,
            bottom: spot(v1, v).y,
        }),
{
    broadcast use lemma_amount;
}

/// The outline of a rectangle goes around it: left to right, downwards, right to left.
pub proof fn outlines_go_around(rect: Rect, v: spec_fn(Scalar) -> real)
    ensures
        ({
            let all = rect_bounds(rect, v);
            let places = outline(rect);
            &&& places.len() == 4
            &&& spot(places[0], v) == (Spot { x: all.left, y: all.top })
            &&& spot(places[1], v) == (Spot { x: all.right, y: all.top })
            &&& spot(places[2], v) == (Spot { x: all.right, y: all.bottom })
            &&& spot(places[3], v) == (Spot { x: all.left, y: all.bottom })
        }),
{
    broadcast use lemma_amount;
}

/// The image of a glyph has as many device pixels as the texture cache says, in both directions, and lies
/// as many to the right of and above the point of the glyph; a blur moves it by half of what it adds.
pub proof fn glyphs_lie_at_their_points(
    glyph: GlyphInstance,
    image: TextureCacheItem,
    ratio: Scalar,
    blur_radius: i32,
    inflation: u32,
    v: spec_fn(Scalar) -> real,
)
    requires
        v(ratio) != 0 as real,
    ensures
        ({
            let corners = glyph_corners(glyph, image, ratio, blur_radius, inflation);
            let x0 = amount(corners.x0, v);
            let y0 = amount(corners.y0, v);
            let x1 = amount(corners.x1, v);
            let y1 = amount(corners.y1, v);
            let growth = (blur_radius as int as real) / (60int as real) * (inflation as int as real);
            let blur = growth / (2int as real);
            &&& blur + blur == growth
            &&& (x0 + blur - v(glyph.x)) * v(ratio) == image.x0 as int as real
            &&& (v(glyph.y) - (y0 + blur)) * v(ratio) == image.y0 as int as real
            &&& (x1 - x0) * v(ratio) == image.width as int as real
            &&& (y1 - y0) * v(ratio) == image.height as int as real
        }),
{
    broadcast use lemma_amount;
    reveal_with_fuel(amount, 6);
    let growth = (blur_radius as int as real) / (60int as real) * (inflation as int as real);
    lemma_shares(growth);
    lemma_quotient(image.x0 as int as real, v(ratio));
    lemma_quotient(image.y0 as int as real, v(ratio));
    lemma_quotient(image.width as int as real, v(ratio));
    lemma_quotient(image.height as int as real, v(ratio));
    let corners = glyph_corners(glyph, image, ratio, blur_radius, inflation);
    let blur = growth / (2int as real);
    assert(amount(corners.x0, v) == v(glyph.x) + (image.x0 as int as real) / v(ratio) - blur);
    assert(amount(corners.y0, v) == v(glyph.y) - (image.y0 as int as real) / v(ratio) - blur);
    assert(amount(corners.x0, v) + blur - v(glyph.x) == (image.x0 as int as real) / v(ratio));
    assert(v(glyph.y) - (amount(corners.y0, v) + blur) == (image.y0 as int as real) / v(ratio));
    assert(amount(corners.x1, v) - amount(corners.x0, v) == (image.width as int as real) / v(ratio));
    assert(amount(corners.y1, v) - amount(corners.y0, v) == (image.height as int as real) / v(ratio));
}

proof fn lemma_quotient(a: real, b: real)
    requires
        b != 0 as real,
    ensures
        (a / b) * b == a,
{
    assert((a / b) * b == a) by (nonlinear_arith)
        requires
            b != 0 as real,
    ;
}

/// A point, with its axes exchanged.
pub open spec fn turned(point: Point2D) -> Point2D {
    Point2D { x: point.y, y: point.x }
}

/// The point of a gradient line at an offset lies as far along the line as the offset says, on both axes:
/// offset zero is its start, offset one its end.  Exchanging the axes of the line exchanges those of the
/// point.
pub proof fn stops_lie_along_the_line(start: Point2D, end: Point2D, offset: Scalar, v: spec_fn(Scalar) -> real)
    ensures
        ({
            let at = spot(stop_place(start, end, offset), v);
            &&& at.x == v(start.x) + v(offset) * (v(end.x) - v(start.x))
            &&& at.y == v(start.y) + v(offset) * (v(end.y) - v(start.y))
            &&& v(offset) == 0 as real ==> at == (Spot { x: v(start.x), y: v(start.y) })
            &&& v(offset) == 1 as real ==> at == (Spot { x: v(end.x), y: v(end.y) })
        }),
        ({
            let at = stop_place(start, end, offset);
            let other = stop_place(turned(start), turned(end), offset);
            other.x == at.y && other.y == at.x
        }),
{
    broadcast use lemma_amount;
    reveal_with_fuel(amount, 4);
    lemma_zero_or_one(v(offset), v(end.x) - v(start.x));
    lemma_zero_or_one(v(offset), v(end.y) - v(start.y));
}

proof fn lemma_zero_or_one(a: real, b: real)
    ensures
        a == 0 as real ==> a * b == 0 as real,
        a == 1 as real ==> a * b == b,
{
    assert(a == 0 as real ==> a * b == 0 as real) by (nonlinear_arith);
    assert(a == 1 as real ==> a * b == b) by (nonlinear_arith);
}

/// A band lies between two stops: its first and last vertex, on both sides of the first stop, have the
/// color of that stop, the two others that of the second; the gradient line passes through the middle
/// between the two sides.
pub proof fn bands_lie_between_their_stops(
    start: Point2D,
    end: Point2D,
    stop0: GradientStop,
    stop1: GradientStop,
    v: spec_fn(Scalar) -> real,
)
    ensures
        ({
            let corners = band(start, end, stop0, stop1);
            let dx = v(end.x) - v(start.x);
            let dy = v(end.y) - v(start.y);
            &&& corners.len() == 4
            &&& corners[0].color == stop0.color && corners[3].color == stop0.color
            &&& corners[1].color == stop1.color && corners[2].color == stop1.color
            &&& spot(corners[0].place, v).x + spot(corners[3].place, v).x == (v(start.x) + v(stop0.offset) * dx) + (v(
                start.x,
            ) + v(stop0.offset) * dx)
            &&& spot(corners[0].place, v).y + spot(corners[3].place, v).y == (v(start.y) + v(stop0.offset) * dy) + (v(
                start.y,
            ) + v(stop0.offset) * dy)
            &&& spot(corners[1].place, v).x + spot(corners[2].place, v).x == (v(start.x) + v(stop1.offset) * dx) + (v(
                start.x,
            ) + v(stop1.offset) * dx)
            &&& spot(corners[1].place, v).y + spot(corners[2].place, v).y == (v(start.y) + v(stop1.offset) * dy) + (v(
                start.y,
            ) + v(stop1.offset) * dy)
        }),
{
    broadcast use lemma_amount;
    reveal_with_fuel(amount, 6);
}

/// A band is two thousand pixels wide, across the gradient line: from its first vertex to its last it runs
/// at a right angle to the line, to the same side at both stops.
pub proof fn bands_lie_across_the_line(
    start: Point2D,
    end: Point2D,
    stop0: GradientStop,
    stop1: GradientStop,
    length: real,
    v: spec_fn(Scalar) -> real,
)
    requires
        length > 0 as real,
        ({
            let dx = v(end.x) - v(start.x);
            let dy = v(end.y) - v(start.y);
            length * length == dx * dx + dy * dy
        }),
    ensures
        ({
            let corners = band(start, end, stop0, stop1);
            let dx = v(end.x) - v(start.x);
            let dy = v(end.y) - v(start.y);
            let wx = spot(corners[3].place, v).x - spot(corners[0].place, v).x;
            let wy = spot(corners[3].place, v).y - spot(corners[0].place, v).y;
            &&& spot(corners[2].place, v).x - spot(corners[1].place, v).x == wx
            &&& spot(corners[2].place, v).y - spot(corners[1].place, v).y == wy
            &&& wx * dx + wy * dy == 0 as real
            &&& dx * wy - dy * wx == (2000int as real) * length
        }),
{
    broadcast use lemma_amount;
    reveal_with_fuel(amount, 8);
    let dx = v(end.x) - v(start.x);
    let dy = v(end.y) - v(start.y);
    let square = dx * dx + dy * dy;
    let r = root(square);
    assert(is_root(length, square));
    assert(is_root(r, square));
    assert(r == length) by (nonlinear_arith)
        requires
            r >= 0 as real,
            length > 0 as real,
            r * r == length * length,
    ;
    let corners = band(start, end, stop0, stop1);
    let wx = spot(corners[3].place, v).x - spot(corners[0].place, v).x;
    let wy = spot(corners[3].place, v).y - spot(corners[0].place, v).y;
    let reach = 1000int as real;
    assert(wx == (-(dy / length)) * reach + (-(dy / length)) * reach);
    assert(wy == (dx / length) * reach + (dx / length) * reach);
    lemma_quotient(dx, length);
    lemma_quotient(dy, length);
    lemma_across(dx, dy, dx / length, dy / length, length, wx, wy);
}

proof fn lemma_across(dx: real, dy: real, nx: real, ny: real, length: real, wx: real, wy: real)
    requires
        nx * length == dx,
        ny * length == dy,
        length > 0 as real,
        length * length == dx * dx + dy * dy,
        wx == (-ny) * (1000int as real) + (-ny) * (1000int as real),
        wy == nx * (1000int as real) + nx * (1000int as real),
    ensures
        wx * dx + wy * dy == 0 as real,
        dx * wy - dy * wx == (2000int as real) * length,
{
    assert(wx == -(2000int as real) * ny) by (nonlinear_arith)
        requires
            wx == (-ny) * (1000int as real) + (-ny) * (1000int as real),
    ;
    assert(wy == (2000int as real) * nx) by (nonlinear_arith)
        requires
            wy == nx * (1000int as real) + nx * (1000int as real),
    ;
    assert(wx * dx + wy * dy == 0 as real) by (nonlinear_arith)
        requires
            wx == -(2000int as real) * ny,
            wy == (2000int as real) * nx,
            nx * length == dx,
            ny * length == dy,
    ;
    assert(nx * nx + ny * ny == 1 as real) by (nonlinear_arith)
        requires
            length > 0 as real,
            nx * length == dx,
            ny * length == dy,
            length * length == dx * dx + dy * dy,
    ;
    assert(dx * wy - dy * wx == (2000int as real) * (length * (nx * nx + ny * ny))) by (nonlinear_arith)
        requires
            wx == -(2000int as real) * ny,
            wy == (2000int as real) * nx,
            nx * length == dx,
            ny * length == dy,
    ;
    let one = nx * nx + ny * ny;
    assert(length * one == length) by (nonlinear_arith)
        requires
            one == 1 as real,
    ;
}

/// Whether a number of pixels is the whole part of a number.
pub open spec fn whole_part(pixels: u32, of: Scalar) -> bool {
    let pixel = pow2(149) as int;
    pixels * pixel <= of.value() < (pixels + 1) * pixel
}

/// Whether a number has a whole part that fits.
pub open spec fn has_whole_part(number: Scalar) -> bool {
    !number.nan() && !number.negative() && number.value() < (u32::MAX + 1) * (pow2(149) as int)
}

/// A composite covers whole device pixels: as many from the left and the top as its rectangle starts
/// behind them, and as many across and down as that is wide and high.
pub proof fn composites_cover_whole_pixels(origin: Point2D, size: Size2D)
    ensures
        ({
            let pixels = composite_pixels(origin, size);
            &&& has_whole_part(origin.x) ==> whole_part(pixels.x, origin.x)
            &&& has_whole_part(origin.y) ==> whole_part(pixels.y, origin.y)
            &&& has_whole_part(size.width) ==> whole_part(pixels.size.width, size.width)
            &&& has_whole_part(size.height) ==> whole_part(pixels.size.height, size.height)
            &&& (origin.x.nan() || origin.x.negative()) ==> pixels.x == 0
            &&& (origin.y.nan() || origin.y.negative()) ==> pixels.y == 0
        }),
{
    whole_parts_are_rounded_down(origin.x);
    whole_parts_are_rounded_down(origin.y);
    whole_parts_are_rounded_down(size.width);
    whole_parts_are_rounded_down(size.height);
}

/// Whether a number is one.
pub open spec fn is_one(number: Scalar) -> bool {
    !number.nan() && number.value() == pow2(149)
}

/// Whether a color is white and opaque.
pub open spec fn is_white(color: ColorF) -> bool {
    is_one(color.r) && is_one(color.g) && is_one(color.b) && is_one(color.a)
}

/// What a plan draws of each kind of item: an image as it is, not tinted, as one or tiled by its size; a
/// rectangle in its own color, both inside the clip; an iframe not at all; a gradient inside its rectangle
/// from each stop to the next; a border around its rectangle; a composite from its own target.
pub proof fn plans_follow_their_items(plan: DrawPlan, item: ItemView, clip: Rect)
    requires
        draws(plan, item, clip),
    ensures
        match item.item {
            SpecificView::Image(info) => plan matches DrawPlan::Image {
                image_id,
                stretch_size,
                single,
                color,
                clip: cut,
            } && {
                &&& image_id == info.image_id
                &&& stretch_size == info.stretch_size
                &&& single ==> item.rect.size.width.value() == info.stretch_size.width.value()
                &&& single ==> item.rect.size.height.value() == info.stretch_size.height.value()
                &&& info.stretch_size.width.lt(item.rect.size.width) ==> !single
                &&& info.stretch_size.height.lt(item.rect.size.height) ==> !single
                &&& is_white(color)
                &&& cut.rect == clip && cut.mode == BoxShadowClipMode::Inset
            },
            SpecificView::Text(_) => plan is Text,
            SpecificView::Rectangle(info) => plan matches DrawPlan::Rectangle { color, clip: cut } && {
                &&& color == info.color
                &&& cut.rect == clip && cut.mode == BoxShadowClipMode::Inset
            },
            SpecificView::Iframe(_) => plan is Nothing,
            SpecificView::Gradient(info) => plan matches DrawPlan::Gradient { within, bands } && {
                &&& within@ == outline(item.rect)
                &&& bands@.len() + 1 == info.stops.len()
                &&& forall|i: int|
                    0 <= i < bands@.len() ==> {
                        let vertices = (#[trigger] bands@[i]).vertices@;
                        &&& vertices.len() == 4
                        &&& vertices[0].color == info.stops[i].color && vertices[3].color == info.stops[i].color
                        &&& vertices[1].color == info.stops[i + 1].color && vertices[2].color == info.stops[i
                            + 1].color
                    }
            },
            SpecificView::BoxShadow(info) => plan matches DrawPlan::BoxShadow(parts) && parts@ == shadow_parts(
                info,
                clip,
            ),
            SpecificView::Border(info) => plan matches DrawPlan::Border(parts) && parts.edges@ == border_edges(
                item.rect,
                info,
            ) && parts.corners@ == border_corners(item.rect, info),
            SpecificView::Composite(info) => plan matches DrawPlan::Composite { target, blend_mode } && target
                == info.target && blend_mode == info.blend_mode,
        },
{
    lemma_pow2_adds(23, 126);
    lemma2_to64();
    let one = Scalar { bits: 0x3f80_0000 };
    assert(one.magnitude() / 0x80_0000 == 127 && one.magnitude() % 0x80_0000 == 0);
    assert(is_one(one));
}

} // verus!
