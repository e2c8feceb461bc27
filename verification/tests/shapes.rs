use render_backend::batch::{Primitive, Vertex};
use render_backend::geometry::{ColorF, CornerColors, Point2D, Rect, Size2D};
use render_backend::ids::TextureId;
use render_backend::scalar::Scalar;
use render_backend::shapes::{
    add_axis_aligned_gradient, add_masked_rectangle, add_polygon, add_rectangle, add_text, push_image_rect,
    push_masked_rectangle, push_rectangle, Corners, DrawItem, GlyphImage, MaskedRegion, Region,
};

fn s(value: f32) -> Scalar {
    Scalar { bits: value.to_bits() }
}

fn color(n: f32) -> ColorF {
    ColorF { r: s(n), g: s(n), b: s(n), a: s(1.0) }
}

fn clear() -> ColorF {
    ColorF { r: s(1.0), g: s(1.0), b: s(1.0), a: s(0.0) }
}

fn corners(x0: f32, y0: f32, x1: f32, y1: f32) -> Corners {
    Corners { x0: s(x0), y0: s(y0), x1: s(x1), y1: s(y1) }
}

fn rect(width: f32, height: f32) -> Rect {
    Rect {
        origin: Point2D { x: s(0.0), y: s(0.0) },
        size: Size2D { width: s(width), height: s(height) },
    }
}

fn region() -> Region {
    Region {
        pos: corners(1.0, 2.0, 3.0, 4.0),
        uv: corners(0.1, 0.2, 0.3, 0.4),
        muv: corners(0.5, 0.6, 0.7, 0.8),
        mask_texture_id: TextureId(9),
    }
}

fn positions(item: &DrawItem) -> Vec<(f32, f32)> {
    item.vertices.iter().map(|v| (f32::from_bits(v.x.bits), f32::from_bits(v.y.bits))).collect()
}

fn reds(item: &DrawItem) -> Vec<f32> {
    item.vertices.iter().map(|v| f32::from_bits(v.color.r.bits)).collect()
}

#[test]
fn gradients_color_their_corners() {
    let colors = CornerColors {
        top_left: color(0.0),
        top_right: color(0.25),
        bottom_right: color(0.5),
        bottom_left: color(0.75),
    };
    let mut items = Vec::new();
    add_axis_aligned_gradient(&mut items, &rect(2.0, 2.0), TextureId(4), &vec![region(), region()], &colors);
    assert_eq!(items.len(), 2);
    let item = &items[0];
    assert_eq!(item.color_texture_id, TextureId(4));
    assert_eq!(item.mask_texture_id, TextureId(9));
    assert_eq!(item.primitive, Primitive::Rectangles);
    assert_eq!(positions(item), vec![(1.0, 2.0), (3.0, 2.0), (1.0, 4.0), (3.0, 4.0)]);
    assert_eq!(reds(item), vec![0.0, 0.25, 0.75, 0.5]);
    assert_eq!(item.vertices[1].u, s(0.3));
    assert_eq!(item.vertices[1].v, s(0.2));
    assert_eq!(item.vertices[2].mu, s(0.5));
    assert_eq!(item.vertices[2].mv, s(0.8));
}

#[test]
fn rectangles_without_area_are_not_drawn() {
    for (width, height) in [(0.0, 2.0), (2.0, 0.0), (-0.0, 2.0)] {
        let mut items = Vec::new();
        add_rectangle(&mut items, &rect(width, height), TextureId(4), &vec![region()], &color(1.0));
        assert!(items.is_empty());
    }
    let mut items = Vec::new();
    add_rectangle(&mut items, &rect(2.0, 2.0), TextureId(4), &vec![region()], &color(0.5));
    assert_eq!(reds(&items[0]), vec![0.5; 4]);
}

#[test]
fn images_are_drawn_piece_by_piece() {
    let mut items = Vec::new();
    push_image_rect(&mut items, &color(1.0), TextureId(4), &vec![region(), region(), region()]);
    assert_eq!(items.len(), 3);
    assert_eq!(items[2].vertices[3].u, s(0.3));
    assert_eq!(items[2].vertices[3].mv, s(0.8));
}

#[test]
fn plain_and_masked_rectangles() {
    let mut items = Vec::new();
    push_rectangle(&mut items, &corners(1.0, 2.0, 3.0, 4.0), &color(0.5), TextureId(1), TextureId(2));
    push_masked_rectangle(
        &mut items,
        &corners(1.0, 2.0, 3.0, 4.0),
        &corners(0.5, 0.6, 0.7, 0.8),
        &color(0.5),
        TextureId(1),
        TextureId(3),
    );
    assert_eq!(items.len(), 2);
    assert_eq!(
        items[0].vertices[3],
        Vertex { x: s(3.0), y: s(4.0), color: color(0.5), u: s(0.0), v: s(0.0), mu: s(0.0), mv: s(0.0) }
    );
    assert_eq!(items[1].mask_texture_id, TextureId(3));
    assert_eq!(
        items[1].vertices[1],
        Vertex { x: s(3.0), y: s(2.0), color: color(0.5), u: s(0.0), v: s(0.0), mu: s(0.7), mv: s(0.6) }
    );
}

#[test]
fn masked_rectangles_need_two_colors() {
    let regions = vec![MaskedRegion { pos: corners(1.0, 2.0, 3.0, 4.0), muv: corners(0.5, 0.6, 0.7, 0.8) }];
    let mut items = Vec::new();
    add_masked_rectangle(&mut items, &clear(), &color(1.0), TextureId(1), TextureId(2), &regions);
    add_masked_rectangle(&mut items, &color(1.0), &clear(), TextureId(1), TextureId(2), &regions);
    assert!(items.is_empty());
    add_masked_rectangle(&mut items, &color(0.25), &color(0.75), TextureId(1), TextureId(2), &regions);
    assert_eq!(items.len(), 1);
    assert_eq!(reds(&items[0]), vec![0.25, 0.25, 0.75, 0.75]);
}

#[test]
fn polygons_need_three_vertices() {
    let v = Vertex { x: s(0.0), y: s(0.0), color: color(0.0), u: s(0.0), v: s(0.0), mu: s(0.0), mv: s(0.0) };
    let mut items = Vec::new();
    add_polygon(&mut items, TextureId(1), TextureId(2), vec![v, v]);
    add_polygon(&mut items, TextureId(1), TextureId(2), vec![]);
    assert!(items.is_empty());
    add_polygon(&mut items, TextureId(1), TextureId(2), vec![v, v, v]);
    assert_eq!(items[0].primitive, Primitive::TriangleFan);
    assert_eq!(items[0].vertices.len(), 3);
}

#[test]
fn text_is_grouped_by_texture() {
    let glyph = |texture: u32, width: u32, height: u32, x: f32| GlyphImage {
        texture_id: TextureId(texture),
        width,
        height,
        pos: corners(x, 0.0, x + 1.0, 1.0),
        uv: corners(0.1, 0.2, 0.3, 0.4),
    };
    let glyphs = vec![
        glyph(5, 1, 1, 0.0),
        glyph(6, 1, 1, 10.0),
        glyph(7, 0, 1, 20.0),
        glyph(7, 1, 0, 20.0),
        glyph(5, 1, 1, 30.0),
    ];
    let mut items = Vec::new();
    add_text(&mut items, &glyphs, &color(0.5), TextureId(2));
    assert_eq!(items.len(), 2);
    assert_eq!(items[0].color_texture_id, TextureId(5));
    assert_eq!(items[0].vertices.len(), 8);
    assert_eq!(items[0].primitive, Primitive::Glyphs);
    assert_eq!(items[0].mask_texture_id, TextureId(2));
    assert_eq!(positions(&items[0])[4], (30.0, 0.0));
    assert_eq!(items[1].color_texture_id, TextureId(6));
    assert_eq!(items[1].vertices.len(), 4);
}
