//! Images, text runs, gradients and composites: where their pieces lie.
use crate::display::{GlyphInstance, GradientDisplayItem, GradientStop};
use crate::geometry::{ColorF, DeviceRect, Point2D, Rect, Size2D};
use crate::ids::TextureId;
use crate::length::{of, Area, Length, Place};
use crate::scalar::Scalar;
use vstd::prelude::*;

verus! {

/// An image of the texture cache: its texture, its offset and size in pixels, and the part of
/// the texture that it takes.
#[derive(Clone, Copy, Debug, PartialEq, Eq, Structural)]
pub struct TextureCacheItem {
    pub texture_id: TextureId,
    pub x0: i32,
    pub y0: i32,
    pub width: u32,
    pub height: u32,
    pub u0: Scalar,
    pub v0: Scalar,
    pub u1: Scalar,
    pub v1: Scalar,
}

/// The part of the texture that an image takes.
pub open spec fn texture_area(image: TextureCacheItem) -> Area {
    Area {
        x: of(image.u0),
        y: of(image.v0),
        width: of(image.u1).sub(of(image.u0)),
        height: of(image.v1).sub(of(image.v0)),
    }
}

/// The rectangle between two points.
pub open spec fn area_between(v0: Place, v1: Place) -> Area {
    Area { x: v0.x, y: v0.y, width: v1.x.sub(v0.x), height: v1.y.sub(v0.y) }
}

impl TextureCacheItem {
    /// The part of the texture that the image takes.
    pub fn uv_area(&self) -> (r: Area)
        ensures
            r == texture_area(*self),
    {
        let u0 = Length::Given(self.u0);
        let v0 = Length::Given(self.v0);
        let width = Length::Given(self.u1).minus(&u0);
        let height = Length::Given(self.v1).minus(&v0);
        Area { x: u0, y: v0, width, height }
    }
}

/// The rectangle between two points.
pub fn span_area(v0: &Place, v1: &Place) -> (r: Area)
    ensures
        r == area_between(*v0, *v1),
{
    Area { x: v0.x.copy(), y: v0.y.copy(), width: v1.x.minus(&v0.x), height: v1.y.minus(&v0.y) }
}

/// The next step of tiling an image.
#[derive(Debug)]
pub enum TileStep {
    /// Every tile has been drawn.
    Done,
    /// The row has ended; the next one starts at `y_offset`.
    NextRow { y_offset: Length },
    /// A tile to draw, and where the next one of the row starts.
    Draw { area: Area, x_offset: Length },
}

/// Whether an image fills its rectangle at once.
pub open spec fn fits(rect: Rect, stretch_size: Size2D) -> bool {
    rect.size.width.same(stretch_size.width) && rect.size.height.same(stretch_size.height)
}

/// Tiles are drawn row by row, each as large as the image is to appear, as long as they start
/// inside the rectangle.
pub open spec fn tile_step(rect: Rect, stretch_size: Size2D, x_offset: Scalar, y_offset: Scalar) -> TileStep {
    if !y_offset.lt(rect.size.height) {
        TileStep::Done
    } else if !x_offset.lt(rect.size.width) {
        TileStep::NextRow { y_offset: of(y_offset).add(of(stretch_size.height)) }
    } else {
        TileStep::Draw {
            area: Area {
                x: of(rect.origin.x).add(of(x_offset)),
                y: of(rect.origin.y).add(of(y_offset)),
                width: of(stretch_size.width),
                height: of(stretch_size.height),
            },
            x_offset: of(x_offset).add(of(stretch_size.width)),
        }
    }
}

/// Whether an image fills its rectangle at once; otherwise it is tiled.
pub fn add_image(rect: &Rect, stretch_size: &Size2D) -> (single: bool)
    ensures
        single == fits(*rect, *stretch_size),
{
    rect.size.width.equals(stretch_size.width) && rect.size.height.equals(stretch_size.height)
}

/// The next step of tiling an image that has come to the given offsets.
pub fn next_tile(rect: &Rect, stretch_size: &Size2D, x_offset: Scalar, y_offset: Scalar) -> (step: TileStep)
    ensures
        step == tile_step(*rect, *stretch_size, x_offset, y_offset),
{
    let x = Length::Given(x_offset);
    let y = Length::Given(y_offset);
    let width = Length::Given(stretch_size.width);
    let height = Length::Given(stretch_size.height);
    if !y_offset.less_than(rect.size.height) {
        TileStep::Done
    } else if !x_offset.less_than(rect.size.width) {
        TileStep::NextRow { y_offset: y.plus(&height) }
    } else {
        TileStep::Draw {
            area: Area {
                x: Length::Given(rect.origin.x).plus(&x),
                y: Length::Given(rect.origin.y).plus(&y),
                width: width.copy(),
                height,
            },
            x_offset: x.plus(&width),
        }
    }
}

/// The corners of a glyph's image.
#[derive(Debug)]
pub struct GlyphCorners {
    pub x0: Length,
    pub y0: Length,
    pub x1: Length,
    pub y1: Length,
}

/// How much larger a blur makes a glyph at each side, the inflation being given for both.
pub open spec fn blur_offset(blur_radius: i32, inflation: u32) -> Length {
    Length::AppUnits(blur_radius).mul(Length::Whole(inflation as i64)).div(Length::Whole(2))
}

/// Where the image of a glyph lies: its offset from the glyph's point and its size are in
/// device pixels, and a blur moves it up and to the left.
pub open spec fn glyph_corners(
    glyph: GlyphInstance,
    image: TextureCacheItem,
    ratio: Scalar,
    blur_radius: i32,
    inflation: u32,
) -> GlyphCorners {
    let blur = blur_offset(blur_radius, inflation);
    let x0 = of(glyph.x).add(Length::Whole(image.x0 as i64).div(of(ratio))).sub(blur);
    let y0 = of(glyph.y).sub(Length::Whole(image.y0 as i64).div(of(ratio))).sub(blur);
    GlyphCorners {
        x0,
        y0,
        x1: x0.add(Length::Whole(image.width as i64).div(of(ratio))),
        y1: y0.add(Length::Whole(image.height as i64).div(of(ratio))),
    }
}

/// Where the image of a glyph lies.
pub fn place_glyph(
    glyph: &GlyphInstance,
    image: &TextureCacheItem,
    device_pixel_ratio: Scalar,
    blur_radius: i32,
    inflation: u32,
) -> (r: GlyphCorners)
    ensures
        r == glyph_corners(*glyph, *image, device_pixel_ratio, blur_radius, inflation),
{
    let ratio = Length::Given(device_pixel_ratio);
    let blur = Length::AppUnits(blur_radius).times(&Length::Whole(inflation as i64)).over(
        &Length::Whole(2),
    );
    let x0 = Length::Given(glyph.x).plus(&Length::Whole(image.x0 as i64).over(&ratio)).minus(&blur);
    let y0 = Length::Given(glyph.y).minus(&Length::Whole(image.y0 as i64).over(&ratio)).minus(&blur);
    let x1 = x0.plus(&Length::Whole(image.width as i64).over(&ratio));
    let y1 = y0.plus(&Length::Whole(image.height as i64).over(&ratio));
    GlyphCorners { x0, y0, x1, y1 }
}

/// A vertex of a gradient before clipping.
#[derive(Debug)]
pub struct GradientVertex {
    pub place: Place,
    pub color: ColorF,
}

/// The part of a gradient between two stops: a band across the gradient line.
#[derive(Debug)]
pub struct GradientBand {
    pub vertices: Vec<GradientVertex>,
}

/// How far a band reaches to each side of the gradient line.
pub const BAND_REACH: i64 = 1000;

/// The direction across a gradient, as a vector of length one.
pub open spec fn across(start: Point2D, end: Point2D) -> Place {
    let dx = of(end.x).sub(of(start.x));
    let dy = of(end.y).sub(of(start.y));
    let length = dx.mul(dx).add(dy.mul(dy)).sqrt();
    Place { x: dy.div(length).neg(), y: dx.div(length) }
}

/// The point of a gradient line at an offset.
pub open spec fn stop_place(start: Point2D, end: Point2D, offset: Scalar) -> Place {
    Place {
        x: of(start.x).add(of(offset).mul(of(end.x).sub(of(start.x)))),
        y: of(start.y).add(of(offset).mul(of(end.y).sub(of(start.y)))),
    }
}

/// The band between two stops: from the line across the first stop to the line across the
/// second, in their colors.
pub open spec fn band(start: Point2D, end: Point2D, stop0: GradientStop, stop1: GradientStop) -> Seq<
    GradientVertex,
> {
    let side = across(start, end);
    let reach = Length::Whole(BAND_REACH);
    let from = stop_place(start, end, stop0.offset);
    let to = stop_place(start, end, stop1.offset);
    seq![
        GradientVertex {
            place: Place { x: from.x.sub(side.x.mul(reach)), y: from.y.sub(side.y.mul(reach)) },
            color: stop0.color,
        },
        GradientVertex {
            place: Place { x: to.x.sub(side.x.mul(reach)), y: to.y.sub(side.y.mul(reach)) },
            color: stop1.color,
        },
        GradientVertex {
            place: Place { x: to.x.add(side.x.mul(reach)), y: to.y.add(side.y.mul(reach)) },
            color: stop1.color,
        },
        GradientVertex {
            place: Place { x: from.x.add(side.x.mul(reach)), y: from.y.add(side.y.mul(reach)) },
            color: stop0.color,
        },
    ]
}

/// The corners of a rectangle, around it.
pub open spec fn outline(rect: Rect) -> Seq<Place> {
    let area = Area::of_rect(rect);
    seq![
        Place { x: area.x, y: area.y },
        Place { x: area.right(), y: area.y },
        Place { x: area.right(), y: area.bottom() },
        Place { x: area.x, y: area.bottom() },
    ]
}

/// The corners of a rectangle, around it: the polygon that clips a gradient.
pub fn rect_outline(rect: &Rect) -> (r: Vec<Place>)
    ensures
        r@ == outline(*rect),
{
    let area = Area::from_rect(rect);
    let mut r: Vec<Place> = Vec::new();
    r.push(Place { x: area.x.copy(), y: area.y.copy() });
    r.push(Place { x: area.max_x(), y: area.y.copy() });
    r.push(Place { x: area.max_x(), y: area.max_y() });
    r.push(Place { x: area.x.copy(), y: area.max_y() });
    assert(r@ =~= outline(*rect));
    r
}

/// The bands of a gradient, one between each stop and the next; a gradient with one stop has none.
pub fn add_gradient(info: &GradientDisplayItem) -> (bands: Vec<GradientBand>)
    requires
        info.stops@.len() > 0,
    ensures
        bands@.len() == info.stops@.len() - 1,
        forall|i: int|
            0 <= i < bands@.len() ==> (#[trigger] bands@[i]).vertices@ == band(
                info.start_point,
                info.end_point,
                info.stops@[i],
                info.stops@[i + 1],
            ),
{
    let start = &info.start_point;
    let end = &info.end_point;
    let dx = Length::Given(end.x).minus(&Length::Given(start.x));
    let dy = Length::Given(end.y).minus(&Length::Given(start.y));
    let length = dx.times(&dx).plus(&dy.times(&dy)).square_root();
    let reach = Length::Whole(BAND_REACH);
    let side_x = dy.over(&length).negative().times(&reach);
    let side_y = dx.over(&length).times(&reach);

    let mut bands: Vec<GradientBand> = Vec::new();
    let mut i: usize = 0;
    while i < info.stops.len() - 1
        invariant
            info.stops@.len() > 0,
            i <= info.stops@.len() - 1,
            *start == info.start_point,
            *end == info.end_point,
            dx == of(end.x).sub(of(start.x)),
            dy == of(end.y).sub(of(start.y)),
            side_x == across(*start, *end).x.mul(Length::Whole(BAND_REACH)),
            side_y == across(*start, *end).y.mul(Length::Whole(BAND_REACH)),
            bands@.len() == i,
            forall|k: int|
                0 <= k < i ==> (#[trigger] bands@[k]).vertices@ == band(
                    info.start_point,
                    info.end_point,
                    info.stops@[k],
                    info.stops@[k + 1],
                ),
        decreases info.stops@.len() - i,
    {
        let stop0 = &info.stops[i];
        let stop1 = &info.stops[i + 1];
        let start_x = Length::Given(start.x).plus(&Length::Given(stop0.offset).times(&dx));
        let start_y = Length::Given(start.y).plus(&Length::Given(stop0.offset).times(&dy));
        let end_x = Length::Given(start.x).plus(&Length::Given(stop1.offset).times(&dx));
        let end_y = Length::Given(start.y).plus(&Length::Given(stop1.offset).times(&dy));
        let mut vertices: Vec<GradientVertex> = Vec::new();
        vertices.push(
            GradientVertex {
                place: Place { x: start_x.minus(&side_x), y: start_y.minus(&side_y) },
                color: stop0.color,
            },
        );
        vertices.push(
            GradientVertex {
                place: Place { x: end_x.minus(&side_x), y: end_y.minus(&side_y) },
                color: stop1.color,
            },
        );
        vertices.push(
            GradientVertex {
                place: Place { x: end_x.plus(&side_x), y: end_y.plus(&side_y) },
                color: stop1.color,
            },
        );
        vertices.push(
            GradientVertex {
                place: Place { x: start_x.plus(&side_x), y: start_y.plus(&side_y) },
                color: stop0.color,
            },
        );
        assert(vertices@ =~= band(*start, *end, *stop0, *stop1));
        bands.push(GradientBand { vertices });
        i = i + 1;
    }
    bands
}

/// The device pixels of a composite: the whole parts of where its rectangle starts, in device
/// pixels, and of its size.
pub open spec fn composite_pixels(origin: Point2D, size: Size2D) -> DeviceRect {
    DeviceRect { x: origin.x.whole(), y: origin.y.whole(), size: size.whole() }
}

/// The device pixels of a composite whose rectangle is put to `origin`.
pub fn add_composite(origin: &Point2D, size: &Size2D) -> (r: DeviceRect)
    ensures
        r == composite_pixels(*origin, *size),
{
    DeviceRect { x: origin.x.to_u32(), y: origin.y.to_u32(), size: size.to_device() }
}

/// A band starts where the one before it ends, in the same color: between two bands there is
/// neither a gap nor a jump.
pub proof fn bands_join(
    start: Point2D,
    end: Point2D,
    stop0: GradientStop,
    stop1: GradientStop,
    stop2: GradientStop,
)
    ensures
        band(start, end, stop0, stop1)[1] == band(start, end, stop1, stop2)[0],
        band(start, end, stop0, stop1)[2] == band(start, end, stop1, stop2)[3],
{
}

} // verus!
