//! What the vertices of draw items show.
use crate::batch::{Primitive, Vertex};
use crate::geometry::{ColorF, CornerColors, Rect};
use crate::ids::TextureId;
use crate::shapes::{
    glyph_added, gradient_items, image_items, inked, masked_items, no_corners, polygon_items, quad_item, text_items,
    texture_place, Corners, DrawItemView, GlyphImage, MaskedRegion, Region,
};
use vstd::prelude::*;

verus! {

/// Whether a vertex lies at a corner of a rectangle, and shows the same corner of an image and of a
/// mask.
pub open spec fn at_corner(vertex: Vertex, right: bool, low: bool, pos: Corners, uv: Corners, muv: Corners) -> bool {
    &&& right ==> vertex.x == pos.x1 && vertex.u == uv.x1 && vertex.mu == muv.x1
    &&& !right ==> vertex.x == pos.x0 && vertex.u == uv.x0 && vertex.mu == muv.x0
    &&& low ==> vertex.y == pos.y1 && vertex.v == uv.y1 && vertex.mv == muv.y1
    &&& !low ==> vertex.y == pos.y0 && vertex.v == uv.y0 && vertex.mv == muv.y0
}

/// Whether four vertices, beginning at `from`, are the corners of a rectangle in their colors: top left,
/// top right, bottom left, bottom right.
pub open spec fn is_quad(
    vertices: Seq<Vertex>,
    from: int,
    pos: Corners,
    uv: Corners,
    muv: Corners,
    colors: CornerColors,
) -> bool {
    &&& 0 <= from && from + 4 <= vertices.len()
    &&& at_corner(vertices[from], false, false, pos, uv, muv) && vertices[from].color == colors.top_left
    &&& at_corner(vertices[from + 1], true, false, pos, uv, muv) && vertices[from + 1].color == colors.top_right
    &&& at_corner(vertices[from + 2], false, true, pos, uv, muv) && vertices[from + 2].color == colors.bottom_left
    &&& at_corner(vertices[from + 3], true, true, pos, uv, muv) && vertices[from + 3].color == colors.bottom_right
}

/// Whether corners lie all at the origin.
pub open spec fn at_origin(corners: Corners) -> bool {
    &&& !corners.x0.nan() && corners.x0.value() == 0
    &&& !corners.y0.nan() && corners.y0.value() == 0
    &&& !corners.x1.nan() && corners.x1.value() == 0
    &&& !corners.y1.nan() && corners.y1.value() == 0
}

/// A rectangle is drawn by its four corners, with its textures.
pub proof fn rectangles_are_drawn_by_their_corners(
    color_texture_id: TextureId,
    mask_texture_id: TextureId,
    pos: Corners,
    colors: CornerColors,
    uv: Corners,
    muv: Corners,
)
    ensures
        ({
            let item = quad_item(color_texture_id, mask_texture_id, pos, colors, uv, muv);
            &&& item.color_texture_id == color_texture_id
            &&& item.mask_texture_id == mask_texture_id
            &&& item.primitive == Primitive::Rectangles
            &&& item.vertices.len() == 4
            &&& is_quad(item.vertices, 0, pos, uv, muv, colors)
        }),
{
}

/// What is drawn without image coordinates has them all at the origin, and one color is the color of every
/// corner; of two colors, the first is above the second.
pub proof fn corners_and_colors(color: ColorF, lower: ColorF)
    ensures
        at_origin(no_corners()),
        ({
            let all = CornerColors::all(color);
            all.top_left == color && all.top_right == color && all.bottom_left == color && all.bottom_right == color
        }),
        ({
            let two = CornerColors::stacked(color, lower);
            two.top_left == color && two.top_right == color && two.bottom_left == lower && two.bottom_right == lower
        }),
{
}

/// An image is drawn piece by piece: each piece where it lies, with its part of the image and under its
/// own mask.
pub proof fn images_are_drawn_piece_by_piece(
    image_texture_id: TextureId,
    regions: Seq<Region>,
    colors: CornerColors,
)
    ensures
        ({
            let items = image_items(image_texture_id, regions, colors);
            &&& items.len() == regions.len()
            &&& forall|i: int|
                0 <= i < items.len() ==> {
                    let item = #[trigger] items[i];
                    &&& item.color_texture_id == image_texture_id
                    &&& item.mask_texture_id == regions[i].mask_texture_id
                    &&& item.primitive == Primitive::Rectangles
                    &&& item.vertices.len() == 4
                    &&& is_quad(item.vertices, 0, regions[i].pos, regions[i].uv, regions[i].muv, colors)
                }
        }),
{
}

/// A rectangle with a color at each corner is drawn as an image is, unless it has no width or no height.
pub proof fn flat_rectangles_are_not_drawn(
    rect: Rect,
    image_texture_id: TextureId,
    regions: Seq<Region>,
    colors: CornerColors,
)
    ensures
        ({
            let items = gradient_items(rect, image_texture_id, regions, colors);
            let flat = (!rect.size.width.nan() && rect.size.width.value() == 0) || (!rect.size.height.nan()
                && rect.size.height.value() == 0);
            &&& flat ==> items.len() == 0
            &&& !flat ==> items == image_items(image_texture_id, regions, colors)
        }),
{
}

/// A masked rectangle is drawn piece by piece, in the first color above and the second below, under the
/// mask and without an image; unless one of the colors does not show.
pub proof fn masked_rectangles_are_drawn_piece_by_piece(
    color0: ColorF,
    color1: ColorF,
    white_texture_id: TextureId,
    mask_texture_id: TextureId,
    regions: Seq<MaskedRegion>,
)
    ensures
        ({
            let items = masked_items(color0, color1, white_texture_id, mask_texture_id, regions);
            let hidden0 = !color0.a.nan() && color0.a.value() <= 0;
            let hidden1 = !color1.a.nan() && color1.a.value() <= 0;
            &&& hidden0 || hidden1 ==> items.len() == 0
            &&& !hidden0 && !hidden1 ==> items.len() == regions.len()
            &&& forall|i: int|
                0 <= i < items.len() ==> {
                    let item = #[trigger] items[i];
                    let colors = CornerColors {
                        top_left: color0,
                        top_right: color0,
                        bottom_left: color1,
                        bottom_right: color1,
                    };
                    &&& item.color_texture_id == white_texture_id
                    &&& item.mask_texture_id == mask_texture_id
                    &&& item.primitive == Primitive::Rectangles
                    &&& item.vertices.len() == 4
                    &&& is_quad(item.vertices, 0, regions[i].pos, no_corners(), regions[i].muv, colors)
                }
        }),
{
}

/// What clipping leaves of a polygon is drawn as it is, around its first vertex, if it has an area.
pub proof fn polygons_are_drawn_whole(
    image_texture_id: TextureId,
    mask_texture_id: TextureId,
    vertices: Seq<Vertex>,
)
    ensures
        ({
            let items = polygon_items(image_texture_id, mask_texture_id, vertices);
            &&& vertices.len() <= 2 ==> items.len() == 0
            &&& vertices.len() >= 3 ==> {
                &&& items.len() == 1
                &&& items[0].vertices == vertices
                &&& items[0].primitive == Primitive::TriangleFan
                &&& items[0].color_texture_id == image_texture_id
                &&& items[0].mask_texture_id == mask_texture_id
            }
        }),
{
}

/// Whether some items show a glyph: four of the vertices with its texture are its corners.
pub open spec fn shows_glyph(items: Seq<DrawItemView>, glyph: GlyphImage, color: ColorF) -> bool {
    exists|i: int, from: int|
        #![trigger items[i].vertices[from]]
        0 <= i < items.len() && items[i].color_texture_id == glyph.texture_id && is_quad(
            items[i].vertices,
            from,
            glyph.pos,
            glyph.uv,
            no_corners(),
            CornerColors { top_left: color, top_right: color, bottom_left: color, bottom_right: color },
        )
}

proof fn lemma_place(items: Seq<DrawItemView>, texture_id: TextureId, i: int)
    requires
        0 <= i <= items.len(),
    ensures
        i <= texture_place(items, texture_id, i) <= items.len(),
        texture_place(items, texture_id, i) < items.len() ==> items[texture_place(
            items,
            texture_id,
            i,
        )].color_texture_id == texture_id,
    decreases items.len() - i,
{
    if i < items.len() && items[i].color_texture_id != texture_id {
        lemma_place(items, texture_id, i + 1);
    }
}

/// Every glyph of a text run that has something to show is shown where it lies, with its own part of its
/// texture and in the color of the run.
pub proof fn glyphs_are_shown(
    glyphs: Seq<GlyphImage>,
    color: ColorF,
    mask_texture_id: TextureId,
    n: nat,
    g: int,
)
    requires
        0 <= g < n <= glyphs.len(),
        glyphs[g].width > 0,
        glyphs[g].height > 0,
    ensures
        shows_glyph(text_items(glyphs, color, mask_texture_id, n), glyphs[g], color),
    decreases n,
{
    let before = text_items(glyphs, color, mask_texture_id, (n - 1) as nat);
    let after = text_items(glyphs, color, mask_texture_id, n);
    let last = glyphs[n - 1];
    if inked(last) {
        assert(after == glyph_added(before, last, color, mask_texture_id));
        let place = texture_place(before, last.texture_id, 0);
        lemma_place(before, last.texture_id, 0);
        if g == n - 1 {
            if place < before.len() {
                let from = before[place].vertices.len() as int;
                let _ = after[place].vertices[from];
                assert(after[place].vertices.len() == from + 4);
            } else {
                let _ = after[place].vertices[0];
                assert(after[place].vertices.len() == 4);
            }
        } else {
            glyphs_are_shown(glyphs, color, mask_texture_id, (n - 1) as nat, g);
            let glyph = glyphs[g];
            let colors = CornerColors { top_left: color, top_right: color, bottom_left: color, bottom_right: color };
            let (i, from) = choose|i: int, from: int|
                #![trigger before[i].vertices[from]]
                0 <= i < before.len() && before[i].color_texture_id == glyph.texture_id && is_quad(
                    before[i].vertices,
                    from,
                    glyph.pos,
                    glyph.uv,
                    no_corners(),
                    colors,
                );
            assert(after[i].vertices.len() >= before[i].vertices.len());
            assert forall|k: int| 0 <= k < before[i].vertices.len() implies #[trigger] after[i].vertices[k]
                == before[i].vertices[k] by {}
            assert(is_quad(after[i].vertices, from, glyph.pos, glyph.uv, no_corners(), colors));
            let _ = after[i].vertices[from];
        }
    } else {
        glyphs_are_shown(glyphs, color, mask_texture_id, (n - 1) as nat, g);
    }
}

} // verus!
