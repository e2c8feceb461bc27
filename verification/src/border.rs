//! Borders: the edges and corners that a border is drawn with, and the dashes and dots of an
//! edge.
use crate::display::{BorderDisplayItem, BorderSide, BorderStyle, BoxShadowClipMode};
use crate::geometry::{ColorF, Point2D, Rect, Size2D};
use crate::length::{of, Area, Length, Place};
use crate::scalar::Scalar;
use crate::shadow::{max_rect, maximum_rect, BoxClip};
use crate::shapes::transparent;
use vstd::prelude::*;

verus! {

/// The way in which an edge runs.
#[derive(Clone, Copy, Debug, PartialEq, Eq, Structural)]
pub enum BorderEdgeDirection {
    Horizontal,
    Vertical,
}

/// The color of a border side: as it is, or with its red, green and blue multiplied.
#[derive(Debug)]
pub enum BorderColor {
    Plain(ColorF),
    Scaled { color: ColorF, factor: Length },
}

/// An edge of a border.
#[derive(Debug)]
pub struct BorderEdge {
    pub area: Area,
    pub direction: BorderEdgeDirection,
    pub color: BorderColor,
    pub style: BorderStyle,
}

/// A corner of a border, between an outer and an inner point: the colors of the two sides that
/// meet, the radii of the mask that rounds it, and what clips it.
#[derive(Debug)]
pub struct BorderCorner {
    pub outer: Place,
    pub inner: Place,
    pub color0: BorderColor,
    pub color1: BorderColor,
    pub outer_radius: Size2D,
    pub inner_radius: Size2D,
    pub clip: BoxClip,
}

/// A border in drawing order: the edges left, top, right and bottom, then the corners top left,
/// top right, bottom right and bottom left.
#[derive(Debug)]
pub struct BorderParts {
    pub edges: Vec<BorderEdge>,
    pub corners: Vec<BorderCorner>,
}

/// How an edge is drawn.
#[derive(Debug)]
pub enum EdgeShape {
    /// Not at all.
    Nothing,
    /// As one rectangle.
    Solid,
    /// As two rectangles, the outer one first.
    Double { outer: Area, inner: Area },
    /// As dashes along `extent`, each `step` long.
    Dashes { extent: Scalar, step: Length },
    /// As dots along `extent`, each `width` wide, under a mask with `mask_radius`.
    Dots { extent: Scalar, width: Scalar, mask_radius: Length },
}

/// One dash of an edge, and where the next one starts.
#[derive(Debug)]
pub struct Dash {
    pub area: Area,
    pub next: Length,
}

/// How many times as long as it is wide a dash is.
pub const BORDER_DASH_SIZE: i64 = 3;

/// Whether a color is more than black.
pub open spec fn colored(color: ColorF) -> bool {
    let zero = Scalar { bits: 0 };
    !color.r.same(zero) || !color.g.same(zero) || !color.b.same(zero)
}

/// Black, but for a little light, so that a raised or sunken black border can be seen.
pub open spec fn lightened(color: ColorF, light: Scalar) -> ColorF {
    ColorF { r: light, g: light, b: light, a: color.a }
}

/// The color that a raised or a sunken side is drawn in; every other style keeps its color.
pub open spec fn side_color(
    side: BorderSide,
    raised_factor: Length,
    sunken_factor: Length,
    raised_black: Scalar,
    sunken_black: Scalar,
) -> BorderColor {
    match side.style {
        BorderStyle::Inset => if colored(side.color) {
            BorderColor::Scaled { color: side.color, factor: sunken_factor }
        } else {
            BorderColor::Plain(lightened(side.color, sunken_black))
        },
        BorderStyle::Outset => if colored(side.color) {
            BorderColor::Scaled { color: side.color, factor: raised_factor }
        } else {
            BorderColor::Plain(lightened(side.color, raised_black))
        },
        _ => BorderColor::Plain(side.color),
    }
}

/// Two thirds.
pub open spec fn two_thirds() -> Length {
    Length::Whole(2).div(Length::Whole(3))
}

/// The color of the left or the top side: light where it is raised, dark where it is sunken.
pub open spec fn lit_color(side: BorderSide) -> BorderColor {
    side_color(
        side,
        Length::Whole(1),
        two_thirds(),
        Scalar { bits: 0x3e99_999a },
        Scalar { bits: 0x3f33_3333 },
    )
}

/// The color of the right or the bottom side: dark where it is raised, light where it is sunken.
pub open spec fn shaded_color(side: BorderSide) -> BorderColor {
    side_color(
        side,
        two_thirds(),
        Length::Whole(1),
        Scalar { bits: 0x3f33_3333 },
        Scalar { bits: 0x3e99_999a },
    )
}

/// The outer corners of a border: top left, top right, bottom right, bottom left.
pub open spec fn outer_corners(rect: Rect) -> Seq<Place> {
    let area = Area::of_rect(rect);
    seq![
        Place { x: area.x, y: area.y },
        Place { x: area.right(), y: area.y },
        Place { x: area.right(), y: area.bottom() },
        Place { x: area.x, y: area.bottom() },
    ]
}

/// The inner corners, in the same order: as far inside as the side is wide and the corner is
/// round.
pub open spec fn inner_corners(rect: Rect, info: BorderDisplayItem) -> Seq<Place> {
    let outer = outer_corners(rect);
    let left = of(info.left.width);
    let right = of(info.right.width);
    let top = of(info.top.width);
    let bottom = of(info.bottom.width);
    let radius = info.radius;
    seq![
        outer[0].moved(
            of(radius.top_left.width).max(left),
            of(radius.top_left.height).max(top),
        ),
        outer[1].moved(
            of(radius.top_right.width).max(right).neg(),
            of(radius.top_right.height).max(top),
        ),
        Place {
            x: outer[2].x.sub(of(radius.bottom_right.width).max(right)),
            y: outer[2].y.sub(of(radius.bottom_right.height).max(bottom)),
        },
        outer[3].moved(
            of(radius.bottom_left.width).max(left),
            of(radius.bottom_left.height).max(bottom).neg(),
        ),
    ]
}

/// The edges of a border: left, top, right, bottom.  Each runs between two inner corners.
pub open spec fn border_edges(rect: Rect, info: BorderDisplayItem) -> Seq<BorderEdge> {
    let outer = outer_corners(rect);
    let inner = inner_corners(rect, info);
    seq![
        BorderEdge {
            area: Area {
                x: outer[0].x,
                y: inner[0].y,
                width: of(info.left.width),
                height: inner[3].y.sub(inner[0].y),
            },
            direction: BorderEdgeDirection::Vertical,
            color: lit_color(info.left),
            style: info.left.style,
        },
        BorderEdge {
            area: Area {
                x: inner[0].x,
                y: outer[0].y,
                width: inner[1].x.sub(inner[0].x),
                height: outer[1].y.add(of(info.top.width)).sub(outer[0].y),
            },
            direction: BorderEdgeDirection::Horizontal,
            color: lit_color(info.top),
            style: info.top.style,
        },
        BorderEdge {
            area: Area {
                x: outer[2].x.sub(of(info.right.width)),
                y: inner[1].y,
                width: of(info.right.width),
                height: inner[2].y.sub(inner[1].y),
            },
            direction: BorderEdgeDirection::Vertical,
            color: shaded_color(info.right),
            style: info.right.style,
        },
        BorderEdge {
            area: Area {
                x: inner[3].x,
                y: outer[3].y.sub(of(info.bottom.width)),
                width: inner[2].x.sub(inner[3].x),
                height: outer[2].y.sub(outer[3].y).add(of(info.bottom.width)),
            },
            direction: BorderEdgeDirection::Horizontal,
            color: shaded_color(info.bottom),
            style: info.bottom.style,
        },
    ]
}

/// What clips the corner of a border: a box as large as can be, which cuts nothing off.
pub open spec fn unbounded_clip() -> BoxClip {
    BoxClip { rect: max_rect(), mode: BoxShadowClipMode::Unclipped }
}

/// The corners of a border: top left, top right, bottom right, bottom left.
pub open spec fn border_corners(rect: Rect, info: BorderDisplayItem) -> Seq<BorderCorner> {
    let outer = outer_corners(rect);
    let inner = inner_corners(rect, info);
    seq![
        BorderCorner {
            outer: outer[0],
            inner: inner[0],
            color0: lit_color(info.left),
            color1: lit_color(info.top),
            outer_radius: info.radius.top_left,
            inner_radius: info.inner_radius.top_left,
            clip: unbounded_clip(),
        },
        BorderCorner {
            outer: outer[1],
            inner: inner[1],
            color0: shaded_color(info.right),
            color1: lit_color(info.top),
            outer_radius: info.radius.top_right,
            inner_radius: info.inner_radius.top_right,
            clip: unbounded_clip(),
        },
        BorderCorner {
            outer: outer[2],
            inner: inner[2],
            color0: shaded_color(info.right),
            color1: shaded_color(info.bottom),
            outer_radius: info.radius.bottom_right,
            inner_radius: info.inner_radius.bottom_right,
            clip: unbounded_clip(),
        },
        BorderCorner {
            outer: outer[3],
            inner: inner[3],
            color0: lit_color(info.left),
            color1: shaded_color(info.bottom),
            outer_radius: info.radius.bottom_left,
            inner_radius: info.inner_radius.bottom_left,
            clip: unbounded_clip(),
        },
    ]
}

/// How an edge is drawn: not at all in a transparent color, otherwise by its style.  The length
/// of an edge is its size along its direction, its thickness the size across.
pub open spec fn edge_shape(
    rect: Rect,
    direction: BorderEdgeDirection,
    color: ColorF,
    style: BorderStyle,
) -> EdgeShape {
    let horizontal = direction == BorderEdgeDirection::Horizontal;
    let extent = if horizontal { rect.size.width } else { rect.size.height };
    let thickness = if horizontal { rect.size.height } else { rect.size.width };
    let area = Area::of_rect(rect);
    let third = of(thickness).div(Length::Whole(3));
    let two_down = of(thickness).mul(Length::Whole(2)).div(Length::Whole(3));
    if transparent(color) {
        EdgeShape::Nothing
    } else {
        match style {
            BorderStyle::Dashed => EdgeShape::Dashes {
                extent,
                step: of(thickness).mul(Length::Whole(BORDER_DASH_SIZE)),
            },
            BorderStyle::Dotted => EdgeShape::Dots {
                extent,
                width: thickness,
                mask_radius: of(thickness).div(Length::Whole(2)),
            },
            BorderStyle::Double => if horizontal {
                EdgeShape::Double {
                    outer: Area { height: third, ..area },
                    inner: Area { y: area.y.add(two_down), height: third, ..area },
                }
            } else {
                EdgeShape::Double {
                    outer: Area { width: third, ..area },
                    inner: Area { x: area.x.add(two_down), width: third, ..area },
                }
            },
            _ => EdgeShape::Solid,
        }
    }
}

/// The dash that starts at `origin`, if that is still on the edge: as long as a step, or as what
/// is left of the edge.  The next dash starts two steps further.
pub open spec fn dash_at(
    rect: Rect,
    direction: BorderEdgeDirection,
    extent: Scalar,
    step: Scalar,
    origin: Scalar,
) -> Option<Dash> {
    let area = Area::of_rect(rect);
    let length = of(step).min(of(extent).sub(of(origin)));
    if !origin.lt(extent) {
        None
    } else {
        Some(
            Dash {
                area: match direction {
                    BorderEdgeDirection::Horizontal => Area {
                        x: area.x.add(of(origin)),
                        width: length,
                        ..area
                    },
                    BorderEdgeDirection::Vertical => Area {
                        y: area.y.add(of(origin)),
                        height: length,
                        ..area
                    },
                },
                next: of(origin).add(of(step).add(of(step))),
            },
        )
    }
}

/// The quarters of a dot, each drawn from its corner towards the middle: top left, top right,
/// bottom right, bottom left.
pub open spec fn dot_quarters(dot: Area) -> Seq<Area> {
    let two = Length::Whole(2);
    let across = dot.width.div(two);
    let down = dot.height.div(two);
    let back = dot.width.neg().div(two);
    let up = dot.height.neg().div(two);
    seq![
        Area { x: dot.x, y: dot.y, width: across, height: down },
        Area { x: dot.right(), y: dot.y, width: back, height: down },
        Area { x: dot.right(), y: dot.bottom(), width: back, height: up },
        Area { x: dot.x, y: dot.bottom(), width: across, height: up },
    ]
}

impl BorderColor {
    /// The same color once more.
    pub fn copy(&self) -> (r: BorderColor)
        ensures
            r == *self,
    {
        match self {
            BorderColor::Plain(color) => BorderColor::Plain(*color),
            BorderColor::Scaled { color, factor } => BorderColor::Scaled {
                color: *color,
                factor: factor.copy(),
            },
        }
    }
}

impl BorderSide {
    /// The color that the side is drawn in.  A raised or a sunken side is scaled by the factor
    /// for it; where it is black, which scaling would not change, it gets a little light instead.
    pub fn border_color(
        &self,
        scale_factor_0: Length,
        scale_factor_1: Length,
        black_color_0: Scalar,
        black_color_1: Scalar,
    ) -> (r: BorderColor)
        ensures
            r == side_color(*self, scale_factor_0, scale_factor_1, black_color_0, black_color_1),
    {
        let zero = Scalar::zero();
        let colored = !self.color.r.equals(zero) || !self.color.g.equals(zero) || !self.color.b.equals(zero);
        match self.style {
            BorderStyle::Inset => {
                if colored {
                    BorderColor::Scaled { color: self.color, factor: scale_factor_1 }
                } else {
                    BorderColor::Plain(
                        ColorF { r: black_color_1, g: black_color_1, b: black_color_1, a: self.color.a },
                    )
                }
            },
            BorderStyle::Outset => {
                if colored {
                    BorderColor::Scaled { color: self.color, factor: scale_factor_0 }
                } else {
                    BorderColor::Plain(
                        ColorF { r: black_color_0, g: black_color_0, b: black_color_0, a: self.color.a },
                    )
                }
            },
            _ => BorderColor::Plain(self.color),
        }
    }

    fn lit(&self) -> (r: BorderColor)
        ensures
            r == lit_color(*self),
    {
        self.border_color(
            Length::Whole(1),
            Length::Whole(2).over(&Length::Whole(3)),
            Scalar { bits: 0x3e99_999a },
            Scalar { bits: 0x3f33_3333 },
        )
    }

    fn shaded(&self) -> (r: BorderColor)
        ensures
            r == shaded_color(*self),
    {
        self.border_color(
            Length::Whole(2).over(&Length::Whole(3)),
            Length::Whole(1),
            Scalar { bits: 0x3f33_3333 },
            Scalar { bits: 0x3e99_999a },
        )
    }
}

/// The edges and corners of a border.
pub fn add_border(rect: &Rect, info: &BorderDisplayItem) -> (parts: BorderParts)
    ensures
        parts.edges@ == border_edges(*rect, *info),
        parts.corners@ == border_corners(*rect, *info),
{
    let area = Area::from_rect(rect);
    let radius = &info.radius;
    let left_width = Length::Given(info.left.width);
    let right_width = Length::Given(info.right.width);
    let top_width = Length::Given(info.top.width);
    let bottom_width = Length::Given(info.bottom.width);

    let tl_outer = Place { x: area.x.copy(), y: area.y.copy() };
    let tl_inner = tl_outer.moved_by(
        &Length::Given(radius.top_left.width).larger(&left_width),
        &Length::Given(radius.top_left.height).larger(&top_width),
    );
    let tr_outer = Place { x: area.max_x(), y: area.y.copy() };
    let tr_inner = tr_outer.moved_by(
        &Length::Given(radius.top_right.width).larger(&right_width).negative(),
        &Length::Given(radius.top_right.height).larger(&top_width),
    );
    let bl_outer = Place { x: area.x.copy(), y: area.max_y() };
    let bl_inner = bl_outer.moved_by(
        &Length::Given(radius.bottom_left.width).larger(&left_width),
        &Length::Given(radius.bottom_left.height).larger(&bottom_width).negative(),
    );
    let br_outer = Place { x: area.max_x(), y: area.max_y() };
    let br_inner = Place {
        x: br_outer.x.minus(&Length::Given(radius.bottom_right.width).larger(&right_width)),
        y: br_outer.y.minus(&Length::Given(radius.bottom_right.height).larger(&bottom_width)),
    };

    let left_color = info.left.lit();
    let top_color = info.top.lit();
    let right_color = info.right.shaded();
    let bottom_color = info.bottom.shaded();

    let mut edges: Vec<BorderEdge> = Vec::new();
    edges.push(
        BorderEdge {
            area: Area {
                x: tl_outer.x.copy(),
                y: tl_inner.y.copy(),
                width: left_width.copy(),
                height: bl_inner.y.minus(&tl_inner.y),
            },
            direction: BorderEdgeDirection::Vertical,
            color: left_color.copy(),
            style: info.left.style,
        },
    );
    edges.push(
        BorderEdge {
            area: Area {
                x: tl_inner.x.copy(),
                y: tl_outer.y.copy(),
                width: tr_inner.x.minus(&tl_inner.x),
                height: tr_outer.y.plus(&top_width).minus(&tl_outer.y),
            },
            direction: BorderEdgeDirection::Horizontal,
            color: top_color.copy(),
            style: info.top.style,
        },
    );
    edges.push(
        BorderEdge {
            area: Area {
                x: br_outer.x.minus(&right_width),
                y: tr_inner.y.copy(),
                width: right_width.copy(),
                height: br_inner.y.minus(&tr_inner.y),
            },
            direction: BorderEdgeDirection::Vertical,
            color: right_color.copy(),
            style: info.right.style,
        },
    );
    edges.push(
        BorderEdge {
            area: Area {
                x: bl_inner.x.copy(),
                y: bl_outer.y.minus(&bottom_width),
                width: br_inner.x.minus(&bl_inner.x),
                height: br_outer.y.minus(&bl_outer.y).plus(&bottom_width),
            },
            direction: BorderEdgeDirection::Horizontal,
            color: bottom_color.copy(),
            style: info.bottom.style,
        },
    );
    assert(edges@ =~= border_edges(*rect, *info));

    let clip = BoxClip { rect: maximum_rect(), mode: BoxShadowClipMode::Unclipped };
    let mut corners: Vec<BorderCorner> = Vec::new();
    corners.push(
        BorderCorner {
            outer: tl_outer,
            inner: tl_inner,
            color0: left_color.copy(),
            color1: top_color.copy(),
            outer_radius: radius.top_left,
            inner_radius: info.inner_radius.top_left,
            clip,
        },
    );
    corners.push(
        BorderCorner {
            outer: tr_outer,
            inner: tr_inner,
            color0: right_color.copy(),
            color1: top_color,
            outer_radius: radius.top_right,
            inner_radius: info.inner_radius.top_right,
            clip,
        },
    );
    corners.push(
        BorderCorner {
            outer: br_outer,
            inner: br_inner,
            color0: right_color,
            color1: bottom_color.copy(),
            outer_radius: radius.bottom_right,
            inner_radius: info.inner_radius.bottom_right,
            clip,
        },
    );
    corners.push(
        BorderCorner {
            outer: bl_outer,
            inner: bl_inner,
            color0: left_color,
            color1: bottom_color,
            outer_radius: radius.bottom_left,
            inner_radius: info.inner_radius.bottom_left,
            clip,
        },
    );
    assert(corners@ =~= border_corners(*rect, *info));
    BorderParts { edges, corners }
}

/// How an edge is drawn.  `rect` and `color` are those of a [`BorderEdge`], evaluated.
pub fn add_border_edge(
    rect: &Rect,
    direction: BorderEdgeDirection,
    color: &ColorF,
    border_style: BorderStyle,
) -> (shape: EdgeShape)
    ensures
        shape == edge_shape(*rect, direction, *color, border_style),
{
    if color.a.at_most(Scalar::zero()) {
        return EdgeShape::Nothing;
    }
    let (extent, thickness) = match direction {
        BorderEdgeDirection::Horizontal => (rect.size.width, rect.size.height),
        BorderEdgeDirection::Vertical => (rect.size.height, rect.size.width),
    };
    let area = Area::from_rect(rect);
    let width = Length::Given(thickness);
    match border_style {
        BorderStyle::Dashed => {
            EdgeShape::Dashes { extent, step: width.times(&Length::Whole(BORDER_DASH_SIZE)) }
        },
        BorderStyle::Dotted => {
            EdgeShape::Dots { extent, width: thickness, mask_radius: width.over(&Length::Whole(2)) }
        },
        BorderStyle::Double => {
            let third = width.over(&Length::Whole(3));
            let two_down = width.times(&Length::Whole(2)).over(&Length::Whole(3));
            match direction {
                BorderEdgeDirection::Horizontal => EdgeShape::Double {
                    outer: Area {
                        x: area.x.copy(),
                        y: area.y.copy(),
                        width: area.width.copy(),
                        height: third.copy(),
                    },
                    inner: Area {
                        y: area.y.plus(&two_down),
                        x: area.x,
                        width: area.width,
                        height: third,
                    },
                },
                BorderEdgeDirection::Vertical => EdgeShape::Double {
                    outer: Area {
                        x: area.x.copy(),
                        y: area.y.copy(),
                        width: third.copy(),
                        height: area.height.copy(),
                    },
                    inner: Area {
                        x: area.x.plus(&two_down),
                        y: area.y,
                        width: third,
                        height: area.height,
                    },
                },
            }
        },
        _ => EdgeShape::Solid,
    }
}

/// The dash or dot of an edge that starts at `origin`, and where the next one starts; nothing
/// where the edge has ended.
pub fn next_dash(
    rect: &Rect,
    direction: BorderEdgeDirection,
    extent: Scalar,
    step: Scalar,
    origin: Scalar,
) -> (dash: Option<Dash>)
    ensures
        dash == dash_at(*rect, direction, extent, step, origin),
{
    if !origin.less_than(extent) {
        return None;
    }
    let start = Length::Given(origin);
    let stride = Length::Given(step);
    let length = stride.lesser(&Length::Given(extent).minus(&start));
    let area = Area::from_rect(rect);
    let area = match direction {
        BorderEdgeDirection::Horizontal => Area {
            x: area.x.plus(&start),
            y: area.y,
            width: length,
            height: area.height,
        },
        BorderEdgeDirection::Vertical => Area {
            x: area.x,
            y: area.y.plus(&start),
            width: area.width,
            height: length,
        },
    };
    Some(Dash { area, next: start.plus(&stride.plus(&stride)) })
}

/// The quarters of a dot.
pub fn quarters(dot: &Area) -> (r: Vec<Area>)
    ensures
        r@ == dot_quarters(*dot),
{
    let two = Length::Whole(2);
    let across = dot.width.over(&two);
    let down = dot.height.over(&two);
    let back = dot.width.negative().over(&two);
    let up = dot.height.negative().over(&two);
    let mut r: Vec<Area> = Vec::new();
    r.push(Area { x: dot.x.copy(), y: dot.y.copy(), width: across.copy(), height: down.copy() });
    r.push(Area { x: dot.max_x(), y: dot.y.copy(), width: back.copy(), height: down });
    r.push(Area { x: dot.max_x(), y: dot.max_y(), width: back, height: up.copy() });
    r.push(Area { x: dot.x.copy(), y: dot.max_y(), width: across, height: up });
    assert(r@ =~= dot_quarters(*dot));
    r
}

/// An edge in a transparent color is not drawn, whatever its style; every other edge is.
pub proof fn transparent_edges_draw_nothing(
    rect: Rect,
    direction: BorderEdgeDirection,
    color: ColorF,
    style: BorderStyle,
)
    ensures
        edge_shape(rect, direction, color, style) == EdgeShape::Nothing <==> transparent(color),
{
}

/// A raised border is a sunken one seen from the other side: the side that is lit in the one is
/// shaded in the other.
pub proof fn raised_is_sunken_from_behind(color: ColorF, width: Scalar)
    ensures
        lit_color(BorderSide { width, color, style: BorderStyle::Inset }) == shaded_color(
            BorderSide { width, color, style: BorderStyle::Outset },
        ),
        lit_color(BorderSide { width, color, style: BorderStyle::Outset }) == shaded_color(
            BorderSide { width, color, style: BorderStyle::Inset },
        ),
{
}

impl BorderEdgeDirection {
    /// The other direction.
    pub open spec fn turned(self) -> BorderEdgeDirection {
        match self {
            BorderEdgeDirection::Horizontal => BorderEdgeDirection::Vertical,
            BorderEdgeDirection::Vertical => BorderEdgeDirection::Horizontal,
        }
    }
}

/// A rectangle with its axes exchanged.
pub open spec fn turned_rect(rect: Rect) -> Rect {
    Rect {
        origin: Point2D { x: rect.origin.y, y: rect.origin.x },
        size: Size2D { width: rect.size.height, height: rect.size.width },
    }
}

/// An area with its axes exchanged.
pub open spec fn turned_area(area: Area) -> Area {
    Area { x: area.y, y: area.x, width: area.height, height: area.width }
}

/// The way in which an edge is drawn, with its axes exchanged.
pub open spec fn turned_shape(shape: EdgeShape) -> EdgeShape {
    match shape {
        EdgeShape::Double { outer, inner } => EdgeShape::Double {
            outer: turned_area(outer),
            inner: turned_area(inner),
        },
        other => other,
    }
}

/// A dash with its axes exchanged.
pub open spec fn turned_dash(dash: Option<Dash>) -> Option<Dash> {
    match dash {
        Some(dash) => Some(Dash { area: turned_area(dash.area), next: dash.next }),
        None => None,
    }
}

/// Both directions are drawn alike: an edge with its axes exchanged is drawn the same way, with the
/// axes exchanged, and so is each of its dashes and dots.
pub proof fn directions_are_drawn_alike(
    rect: Rect,
    direction: BorderEdgeDirection,
    color: ColorF,
    style: BorderStyle,
    extent: Scalar,
    step: Scalar,
    origin: Scalar,
)
    ensures
        edge_shape(turned_rect(rect), direction.turned(), color, style) == turned_shape(
            edge_shape(rect, direction, color, style),
        ),
        dash_at(turned_rect(rect), direction.turned(), extent, step, origin) == turned_dash(
            dash_at(rect, direction, extent, step, origin),
        ),
{
}

/// The quarters of a dot with its axes exchanged are its quarters with their axes exchanged; the two
/// that lie off the diagonal change places.
pub proof fn dots_are_drawn_alike(dot: Area)
    ensures
        ({
            let quarters = dot_quarters(dot);
            dot_quarters(turned_area(dot)) == seq![
                turned_area(quarters[0]),
                turned_area(quarters[3]),
                turned_area(quarters[2]),
                turned_area(quarters[1]),
            ]
        }),
{
    let quarters = dot_quarters(dot);
    assert(dot_quarters(turned_area(dot)) =~= seq![
        turned_area(quarters[0]),
        turned_area(quarters[3]),
        turned_area(quarters[2]),
        turned_area(quarters[1]),
    ]);
}

} // verus!
