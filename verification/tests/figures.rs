use render_backend::border::{
    add_border, add_border_edge, next_dash, quarters, BorderColor, BorderEdgeDirection, EdgeShape,
};
use render_backend::display::{
    BorderDisplayItem, BorderRadius, BorderSide, BorderStyle, BoxShadowClipMode, BoxShadowDisplayItem, ClipRegion,
    CompositeDisplayItem, DisplayItem, GlyphInstance, GradientDisplayItem, GradientStop, IframeDisplayItem,
    ImageDisplayItem, MixBlendMode, RectangleDisplayItem, SpecificDisplayItem, TextDisplayItem,
};
use render_backend::geometry::{ColorF, DeviceRect, DeviceSize, Point2D, Rect, Size2D};
use render_backend::ids::{FontId, ImageID, PipelineId, RenderTargetIndex, TextureId};
use render_backend::length::{Area, Length, Place};
use render_backend::picture::{
    add_composite, add_gradient, add_image, next_tile, place_glyph, rect_outline, span_area, TextureCacheItem, TileStep,
};
use render_backend::plan::DrawPlan;
use render_backend::scalar::Scalar;
use render_backend::shadow::{add_box_shadow, maximum_rect, ShadowPart};

fn s(value: f32) -> Scalar {
    Scalar { bits: value.to_bits() }
}

fn f(value: Scalar) -> f32 {
    f32::from_bits(value.bits)
}

fn eval(length: &Length) -> f32 {
    match length {
        Length::Given(value) => f(*value),
        Length::Whole(value) => *value as f32,
        Length::AppUnits(value) => *value as f32 / 60.0,
        Length::Sum(a, b) => eval(a) + eval(b),
        Length::Difference(a, b) => eval(a) - eval(b),
        Length::Product(a, b) => eval(a) * eval(b),
        Length::Quotient(a, b) => eval(a) / eval(b),
        Length::Negative(a) => -eval(a),
        Length::Larger(a, b) => eval(a).max(eval(b)),
        Length::Lesser(a, b) => eval(a).min(eval(b)),
        Length::SquareRoot(a) => eval(a).sqrt(),
    }
}

fn point(place: &Place) -> (f32, f32) {
    (eval(&place.x), eval(&place.y))
}

fn area(a: &Area) -> (f32, f32, f32, f32) {
    (eval(&a.x), eval(&a.y), eval(&a.width), eval(&a.height))
}

fn rect(x: f32, y: f32, width: f32, height: f32) -> Rect {
    Rect {
        origin: Point2D { x: s(x), y: s(y) },
        size: Size2D { width: s(width), height: s(height) },
    }
}

fn color(r: f32, a: f32) -> ColorF {
    ColorF { r: s(r), g: s(0.0), b: s(0.0), a: s(a) }
}

fn shadow(blur: f32, spread: f32, clip_mode: BoxShadowClipMode) -> BoxShadowDisplayItem {
    BoxShadowDisplayItem {
        box_bounds: rect(10.0, 20.0, 100.0, 80.0),
        offset: Point2D { x: s(1.0), y: s(2.0) },
        color: color(0.5, 1.0),
        blur_radius: s(blur),
        spread_radius: s(spread),
        border_radius: s(3.0),
        clip_mode,
    }
}

#[test]
fn plain_shadows_are_one_rectangle() {
    let clip = rect(0.0, 0.0, 5.0, 5.0);
    let parts = add_box_shadow(&shadow(0.0, 0.0, BoxShadowClipMode::Unclipped), &clip);
    assert_eq!(parts.len(), 1);
    match &parts[0] {
        ShadowPart::Filled { area: a, colors, clip: c } => {
            assert_eq!(area(a), (11.0, 22.0, 100.0, 80.0));
            assert_eq!(colors.bottom_left, color(0.5, 1.0));
            assert_eq!(c.rect, clip);
            assert_eq!(c.mode, BoxShadowClipMode::Inset);
        }
        other => panic!("{:?}", other),
    }
    for info in [
        shadow(1.0, 0.0, BoxShadowClipMode::Unclipped),
        shadow(0.0, 1.0, BoxShadowClipMode::Unclipped),
        shadow(0.0, 0.0, BoxShadowClipMode::Outset),
    ] {
        assert_eq!(add_box_shadow(&info, &clip).len(), 9);
    }
}

#[test]
fn shadow_corners_reach_inward() {
    let clip = rect(0.0, 0.0, 5.0, 5.0);
    for mode in [BoxShadowClipMode::Outset, BoxShadowClipMode::Inset, BoxShadowClipMode::Unclipped] {
        let info = shadow(4.0, 1.0, mode);
        let parts = add_box_shadow(&info, &clip);
        let expected = [
            ((11.0, 22.0), (18.0, 29.0)),
            ((111.0, 22.0), (104.0, 29.0)),
            ((11.0, 102.0), (18.0, 95.0)),
            ((111.0, 102.0), (104.0, 95.0)),
        ];
        for i in 0..4 {
            match &parts[i] {
                ShadowPart::Corner { outer, inner, clip } => {
                    assert_eq!((point(outer), point(inner)), expected[i]);
                    assert_eq!(clip.mode, mode);
                    if mode == BoxShadowClipMode::Outset {
                        assert_eq!(clip.rect, info.box_bounds);
                    } else {
                        assert_eq!(clip.rect, maximum_rect());
                    }
                }
                other => panic!("{:?}", other),
            }
        }
    }
    assert_eq!(maximum_rect(), rect(-1000.0, -1000.0, 10000.0, 10000.0));
}

#[test]
fn shadow_sides_fade_outward() {
    let info = shadow(4.0, 1.0, BoxShadowClipMode::Outset);
    let parts = add_box_shadow(&info, &rect(0.0, 0.0, 5.0, 5.0));
    let areas = [
        (18.0, 22.0, 86.0, 8.0),
        (103.0, 29.0, 8.0, 66.0),
        (18.0, 94.0, 86.0, 8.0),
        (11.0, 29.0, 8.0, 66.0),
        (19.0, 30.0, 84.0, 64.0),
    ];
    let alphas = [
        [0.0, 0.0, 1.0, 1.0],
        [1.0, 0.0, 0.0, 1.0],
        [1.0, 1.0, 0.0, 0.0],
        [0.0, 1.0, 1.0, 0.0],
        [1.0, 1.0, 1.0, 1.0],
    ];
    for i in 0..5 {
        match &parts[4 + i] {
            ShadowPart::Filled { area: a, colors, clip } => {
                assert_eq!(area(a), areas[i]);
                let found = [
                    f(colors.top_left.a),
                    f(colors.top_right.a),
                    f(colors.bottom_right.a),
                    f(colors.bottom_left.a),
                ];
                assert_eq!(found, alphas[i]);
                assert_eq!(colors.top_left.r, s(0.5));
                assert_eq!(clip.rect, info.box_bounds);
                assert_eq!(clip.mode, BoxShadowClipMode::Outset);
            }
            other => panic!("{:?}", other),
        }
    }
}

fn side(width: f32, style: BorderStyle, r: f32) -> BorderSide {
    BorderSide { width: s(width), color: color(r, 1.0), style }
}

fn radii(n: f32) -> BorderRadius {
    let size = Size2D { width: s(n), height: s(n + 1.0) };
    BorderRadius { top_left: size, top_right: size, bottom_left: size, bottom_right: size }
}

fn border(style: BorderStyle, r: f32) -> BorderDisplayItem {
    BorderDisplayItem {
        left: side(1.0, style, r),
        right: side(2.0, style, r),
        top: side(3.0, style, r),
        bottom: side(9.0, style, r),
        radius: radii(5.0),
        inner_radius: radii(4.0),
    }
}

fn painted(c: &BorderColor) -> (f32, f32) {
    match c {
        BorderColor::Plain(c) => (f(c.r), f(c.g)),
        BorderColor::Scaled { color, factor } => (f(color.r) * eval(factor), f(color.g) * eval(factor)),
    }
}

#[test]
fn borders_have_four_edges_and_corners() {
    let info = border(BorderStyle::Solid, 0.6);
    let parts = add_border(&rect(0.0, 0.0, 100.0, 50.0), &info);
    let areas: Vec<(f32, f32, f32, f32)> = parts.edges.iter().map(|e| area(&e.area)).collect();
    assert_eq!(
        areas,
        vec![
            (0.0, 6.0, 1.0, 35.0),
            (5.0, 0.0, 90.0, 3.0),
            (98.0, 6.0, 2.0, 35.0),
            (5.0, 41.0, 90.0, 9.0),
        ]
    );
    let directions: Vec<BorderEdgeDirection> = parts.edges.iter().map(|e| e.direction).collect();
    assert_eq!(
        directions,
        vec![
            BorderEdgeDirection::Vertical,
            BorderEdgeDirection::Horizontal,
            BorderEdgeDirection::Vertical,
            BorderEdgeDirection::Horizontal,
        ]
    );
    let corners: Vec<((f32, f32), (f32, f32))> =
        parts.corners.iter().map(|c| (point(&c.outer), point(&c.inner))).collect();
    assert_eq!(
        corners,
        vec![
            ((0.0, 0.0), (5.0, 6.0)),
            ((100.0, 0.0), (95.0, 6.0)),
            ((100.0, 50.0), (95.0, 41.0)),
            ((0.0, 50.0), (5.0, 41.0)),
        ]
    );
    assert_eq!(parts.corners[0].outer_radius, info.radius.top_left);
    assert_eq!(parts.corners[0].inner_radius, info.inner_radius.top_left);
    for corner in &parts.corners {
        assert_eq!(painted(&corner.color0), (0.6, 0.0));
    }
}

#[test]
fn raised_and_sunken_sides_are_shaded() {
    let factors = |style: BorderStyle, r: f32| -> Vec<(f32, f32)> {
        let parts = add_border(&rect(0.0, 0.0, 100.0, 50.0), &border(style, r));
        parts.edges.iter().map(|e| painted(&e.color)).collect()
    };
    let dark = 0.6 * (2.0f32 / 3.0);
    assert_eq!(factors(BorderStyle::Outset, 0.6), vec![(0.6, 0.0), (0.6, 0.0), (dark, 0.0), (dark, 0.0)]);
    assert_eq!(factors(BorderStyle::Inset, 0.6), vec![(dark, 0.0), (dark, 0.0), (0.6, 0.0), (0.6, 0.0)]);
    assert_eq!(factors(BorderStyle::Outset, 0.0), vec![(0.3, 0.3), (0.3, 0.3), (0.7, 0.7), (0.7, 0.7)]);
    assert_eq!(factors(BorderStyle::Inset, 0.0), vec![(0.7, 0.7), (0.7, 0.7), (0.3, 0.3), (0.3, 0.3)]);
    assert_eq!(factors(BorderStyle::Groove, 0.0), vec![(0.0, 0.0); 4]);
}

#[test]
fn edges_are_drawn_by_their_style() {
    let r = rect(1.0, 2.0, 30.0, 6.0);
    let horizontal = BorderEdgeDirection::Horizontal;
    let vertical = BorderEdgeDirection::Vertical;
    assert!(matches!(add_border_edge(&r, horizontal, &color(1.0, 0.0), BorderStyle::Solid), EdgeShape::Nothing));
    assert!(matches!(add_border_edge(&r, horizontal, &color(1.0, 0.5), BorderStyle::Solid), EdgeShape::Solid));
    match add_border_edge(&r, horizontal, &color(1.0, 1.0), BorderStyle::Dashed) {
        EdgeShape::Dashes { extent, step } => {
            assert_eq!(f(extent), 30.0);
            assert_eq!(eval(&step), 18.0);
        }
        other => panic!("{:?}", other),
    }
    match add_border_edge(&r, vertical, &color(1.0, 1.0), BorderStyle::Dotted) {
        EdgeShape::Dots { extent, width, mask_radius } => {
            assert_eq!(f(extent), 6.0);
            assert_eq!(f(width), 30.0);
            assert_eq!(eval(&mask_radius), 15.0);
        }
        other => panic!("{:?}", other),
    }
    match add_border_edge(&r, horizontal, &color(1.0, 1.0), BorderStyle::Double) {
        EdgeShape::Double { outer, inner } => {
            assert_eq!(area(&outer), (1.0, 2.0, 30.0, 2.0));
            assert_eq!(area(&inner), (1.0, 6.0, 30.0, 2.0));
        }
        other => panic!("{:?}", other),
    }
    match add_border_edge(&r, vertical, &color(1.0, 1.0), BorderStyle::Double) {
        EdgeShape::Double { outer, inner } => {
            assert_eq!(area(&outer), (1.0, 2.0, 10.0, 6.0));
            assert_eq!(area(&inner), (21.0, 2.0, 10.0, 6.0));
        }
        other => panic!("{:?}", other),
    }
}

#[test]
fn dashes_stop_at_the_end() {
    let r = rect(1.0, 2.0, 30.0, 6.0);
    let mut origin = s(0.0);
    let mut found = Vec::new();
    while let Some(dash) = next_dash(&r, BorderEdgeDirection::Horizontal, s(30.0), s(8.0), origin) {
        found.push(area(&dash.area));
        origin = s(eval(&dash.next));
    }
    assert_eq!(found, vec![(1.0, 2.0, 8.0, 6.0), (17.0, 2.0, 8.0, 6.0)]);
    let last = next_dash(&r, BorderEdgeDirection::Vertical, s(6.0), s(4.0), s(5.0)).unwrap();
    assert_eq!(area(&last.area), (1.0, 7.0, 30.0, 1.0));
    assert!(next_dash(&r, BorderEdgeDirection::Vertical, s(6.0), s(4.0), s(6.0)).is_none());
}

#[test]
fn dots_have_quarters() {
    let dot = Area {
        x: Length::Whole(10),
        y: Length::Whole(20),
        width: Length::Whole(4),
        height: Length::Whole(6),
    };
    let found: Vec<(f32, f32, f32, f32)> = quarters(&dot).iter().map(area).collect();
    assert_eq!(
        found,
        vec![
            (10.0, 20.0, 2.0, 3.0),
            (14.0, 20.0, -2.0, 3.0),
            (14.0, 26.0, -2.0, -3.0),
            (10.0, 26.0, 2.0, -3.0),
        ]
    );
}

fn gradient() -> GradientDisplayItem {
    let stop = |offset: f32, r: f32| GradientStop { offset: s(offset), color: color(r, 1.0) };
    GradientDisplayItem {
        start_point: Point2D { x: s(0.0), y: s(0.0) },
        end_point: Point2D { x: s(10.0), y: s(0.0) },
        stops: vec![stop(0.0, 0.0), stop(0.5, 0.25), stop(1.0, 1.0)],
    }
}

#[test]
fn gradients_are_made_of_bands() {
    let bands = add_gradient(&gradient());
    assert_eq!(bands.len(), 2);
    let places: Vec<(f32, f32)> = bands[0].vertices.iter().map(|v| point(&v.place)).collect();
    assert_eq!(places, vec![(0.0, -1000.0), (5.0, -1000.0), (5.0, 1000.0), (0.0, 1000.0)]);
    let colors: Vec<f32> = bands[0].vertices.iter().map(|v| f(v.color.r)).collect();
    assert_eq!(colors, vec![0.0, 0.25, 0.25, 0.0]);
    // The next band starts where this one ends.
    assert_eq!(point(&bands[1].vertices[0].place), places[1]);
    assert_eq!(point(&bands[1].vertices[3].place), places[2]);
    let outline: Vec<(f32, f32)> = rect_outline(&rect(1.0, 2.0, 3.0, 4.0)).iter().map(point).collect();
    assert_eq!(outline, vec![(1.0, 2.0), (4.0, 2.0), (4.0, 6.0), (1.0, 6.0)]);
}

#[test]
fn images_are_tiled_row_by_row() {
    let r = rect(100.0, 200.0, 25.0, 15.0);
    let stretch = Size2D { width: s(10.0), height: s(10.0) };
    assert!(!add_image(&r, &stretch));
    assert!(add_image(&r, &r.size));
    let (mut x, mut y) = (s(0.0), s(0.0));
    let mut tiles = Vec::new();
    loop {
        match next_tile(&r, &stretch, x, y) {
            TileStep::Done => break,
            TileStep::NextRow { y_offset } => {
                x = s(0.0);
                y = s(eval(&y_offset));
            }
            TileStep::Draw { area: a, x_offset } => {
                tiles.push(area(&a));
                x = s(eval(&x_offset));
            }
        }
    }
    let origins: Vec<(f32, f32)> = tiles.iter().map(|t| (t.0, t.1)).collect();
    assert_eq!(
        origins,
        vec![
            (100.0, 200.0),
            (110.0, 200.0),
            (120.0, 200.0),
            (100.0, 210.0),
            (110.0, 210.0),
            (120.0, 210.0),
        ]
    );
    assert_eq!(tiles[5], (120.0, 210.0, 10.0, 10.0));
}

fn image() -> TextureCacheItem {
    TextureCacheItem {
        texture_id: TextureId(1),
        x0: 2,
        y0: 8,
        width: 6,
        height: 10,
        u0: s(0.25),
        v0: s(0.5),
        u1: s(0.75),
        v1: s(1.0),
    }
}

#[test]
fn glyphs_are_placed() {
    let glyph = GlyphInstance { index: 1, x: s(100.0), y: s(50.0) };
    let c = place_glyph(&glyph, &image(), s(2.0), 0, 3);
    assert_eq!((eval(&c.x0), eval(&c.y0), eval(&c.x1), eval(&c.y1)), (101.0, 46.0, 104.0, 51.0));
    // A blur of two pixels, inflated threefold, moves the glyph by three pixels.
    let c = place_glyph(&glyph, &image(), s(2.0), 120, 3);
    assert_eq!((eval(&c.x0), eval(&c.y0)), (98.0, 43.0));
    assert_eq!((eval(&c.x1), eval(&c.y1)), (101.0, 48.0));
    assert_eq!(area(&image().uv_area()), (0.25, 0.5, 0.5, 0.5));
    let span = span_area(
        &Place { x: Length::Whole(1), y: Length::Whole(2) },
        &Place { x: Length::Whole(4), y: Length::Whole(1) },
    );
    assert_eq!(area(&span), (1.0, 2.0, 3.0, -1.0));
}

#[test]
fn composites_cover_whole_pixels() {
    let origin = Point2D { x: s(10.75), y: s(-4.0) };
    let size = Size2D { width: s(7.9), height: s(8.0) };
    assert_eq!(
        add_composite(&origin, &size),
        DeviceRect { x: 10, y: 0, size: DeviceSize { width: 7, height: 8 } }
    );
}

fn item(item: SpecificDisplayItem) -> DisplayItem {
    let r = rect(0.0, 0.0, 10.0, 20.0);
    DisplayItem { item, rect: r, clip: ClipRegion { main: r, complex: Vec::new() }, node_index: None }
}

#[test]
fn every_item_has_a_plan() {
    let clip = rect(0.0, 0.0, 5.0, 5.0);
    let text = |glyphs: Vec<GlyphInstance>| {
        item(SpecificDisplayItem::Text(TextDisplayItem {
            font_id: FontId(1),
            size: 60,
            blur_radius: 0,
            color: color(1.0, 1.0),
            glyphs,
        }))
    };
    assert!(!text(vec![]).is_drawable());
    let run = text(vec![GlyphInstance { index: 0, x: s(0.0), y: s(0.0) }]);
    assert!(run.is_drawable());
    assert!(matches!(run.plan(&clip), DrawPlan::Text));

    let mut short = gradient();
    short.stops.truncate(1);
    let mut short = item(SpecificDisplayItem::Gradient(short));
    assert!(short.is_drawable());
    match short.plan(&clip) {
        DrawPlan::Gradient { bands, .. } => assert!(bands.is_empty()),
        other => panic!("{:?}", other),
    }
    if let SpecificDisplayItem::Gradient(info) = &mut short.item {
        info.stops.clear();
    }
    assert!(!short.is_drawable());
    match item(SpecificDisplayItem::Gradient(gradient())).plan(&clip) {
        DrawPlan::Gradient { within, bands } => {
            assert_eq!(bands.len(), 2);
            assert_eq!(point(&within[2]), (10.0, 20.0));
        }
        other => panic!("{:?}", other),
    }

    let picture = item(SpecificDisplayItem::Image(ImageDisplayItem {
        image_id: ImageID(4),
        stretch_size: Size2D { width: s(10.0), height: s(20.0) },
    }));
    match picture.plan(&clip) {
        DrawPlan::Image { image_id, single, color: c, clip: box_clip, .. } => {
            assert_eq!(image_id, ImageID(4));
            assert!(single);
            assert_eq!(c, ColorF { r: s(1.0), g: s(1.0), b: s(1.0), a: s(1.0) });
            assert_eq!(box_clip.rect, clip);
            assert_eq!(box_clip.mode, BoxShadowClipMode::Inset);
        }
        other => panic!("{:?}", other),
    }
    match item(SpecificDisplayItem::Rectangle(RectangleDisplayItem { color: color(0.5, 1.0) })).plan(&clip) {
        DrawPlan::Rectangle { color: c, clip: box_clip } => {
            assert_eq!(c, color(0.5, 1.0));
            assert_eq!(box_clip.rect, clip);
            assert_eq!(box_clip.mode, BoxShadowClipMode::Inset);
        }
        other => panic!("{:?}", other),
    }
    let frame = item(SpecificDisplayItem::Iframe(IframeDisplayItem { iframe: PipelineId(0, 1) }));
    assert!(matches!(frame.plan(&clip), DrawPlan::Nothing));
    let info = shadow(1.0, 0.0, BoxShadowClipMode::Inset);
    match item(SpecificDisplayItem::BoxShadow(info)).plan(&clip) {
        DrawPlan::BoxShadow(parts) => assert_eq!(parts.len(), 9),
        other => panic!("{:?}", other),
    }
    match item(SpecificDisplayItem::Border(border(BorderStyle::Solid, 0.5))).plan(&clip) {
        DrawPlan::Border(parts) => {
            assert_eq!(parts.edges.len(), 4);
            assert_eq!(parts.corners.len(), 4);
            for corner in &parts.corners {
                assert_eq!(corner.clip.rect, rect(-1000.0, -1000.0, 10000.0, 10000.0));
                assert_eq!(corner.clip.mode, BoxShadowClipMode::Unclipped);
            }
        }
        other => panic!("{:?}", other),
    }
    let composite = CompositeDisplayItem { blend_mode: MixBlendMode::Hue, target: RenderTargetIndex(3) };
    match item(SpecificDisplayItem::Composite(composite)).plan(&clip) {
        DrawPlan::Composite { target, blend_mode } => {
            assert_eq!(target, RenderTargetIndex(3));
            assert_eq!(blend_mode, MixBlendMode::Hue);
        }
        other => panic!("{:?}", other),
    }
}

#[test]
fn edges_are_drawn_alike_in_both_directions() {
    let wide = rect(1.0, 2.0, 40.0, 9.0);
    let high = rect(2.0, 1.0, 9.0, 40.0);
    let ink = color(0.5, 1.0);
    let (across, down) = (BorderEdgeDirection::Horizontal, BorderEdgeDirection::Vertical);
    match (
        add_border_edge(&wide, across, &ink, BorderStyle::Double),
        add_border_edge(&high, down, &ink, BorderStyle::Double),
    ) {
        (EdgeShape::Double { inner: a, .. }, EdgeShape::Double { inner: b, .. }) => {
            assert_eq!(eval(&a.x), eval(&b.y));
            assert_eq!(eval(&a.y), eval(&b.x));
            assert_eq!(eval(&a.width), eval(&b.height));
            assert_eq!(eval(&a.height), eval(&b.width));
        }
        other => panic!("{:?}", other),
    }
    let a = next_dash(&wide, across, s(40.0), s(27.0), s(30.0)).unwrap();
    let b = next_dash(&high, down, s(40.0), s(27.0), s(30.0)).unwrap();
    assert_eq!((eval(&a.area.x), eval(&a.area.width)), (31.0, 10.0));
    assert_eq!((eval(&b.area.y), eval(&b.area.height)), (31.0, 10.0));
    assert_eq!(eval(&a.next), eval(&b.next));
}
