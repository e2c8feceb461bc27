//! Draw items: the vertices of the shapes that display items are drawn with.
//!
//! The numbers come from outside: a rectangle has been evaluated and clipped before it gets
//! here, and each piece that the clip left of it is a [`Region`].
use crate::batch::{Primitive, Vertex};
use crate::geometry::{ColorF, CornerColors, Rect};
use crate::ids::TextureId;
use crate::scalar::Scalar;
use vstd::prelude::*;

verus! {

/// Two opposite corners of a rectangle.
#[derive(Clone, Copy, Debug, PartialEq, Eq, Structural)]
pub struct Corners {
    pub x0: Scalar,
    pub y0: Scalar,
    pub x1: Scalar,
    pub y1: Scalar,
}

/// A piece of a clipped rectangle: where it lies, what of the image it shows, what of the mask
/// covers it, and the texture of that mask.
#[derive(Clone, Copy, Debug, PartialEq, Eq, Structural)]
pub struct Region {
    pub pos: Corners,
    pub uv: Corners,
    pub muv: Corners,
    pub mask_texture_id: TextureId,
}

/// A piece of a clipped rectangle that shows no image.
#[derive(Clone, Copy, Debug, PartialEq, Eq, Structural)]
pub struct MaskedRegion {
    pub pos: Corners,
    pub muv: Corners,
}

/// A glyph of a text run: its image, and where it lies.
#[derive(Clone, Copy, Debug, PartialEq, Eq, Structural)]
pub struct GlyphImage {
    pub texture_id: TextureId,
    pub width: u32,
    pub height: u32,
    pub pos: Corners,
    pub uv: Corners,
}

/// Vertices that share their textures.
#[derive(Debug, PartialEq)]
pub struct DrawItem {
    pub color_texture_id: TextureId,
    pub mask_texture_id: TextureId,
    pub primitive: Primitive,
    pub vertices: Vec<Vertex>,
}

/// The contents of a [`DrawItem`].
#[verifier::ext_equal]
pub struct DrawItemView {
    pub color_texture_id: TextureId,
    pub mask_texture_id: TextureId,
    pub primitive: Primitive,
    pub vertices: Seq<Vertex>,
}

impl View for DrawItem {
    type V = DrawItemView;

    open spec fn view(&self) -> DrawItemView {
        DrawItemView {
            color_texture_id: self.color_texture_id,
            mask_texture_id: self.mask_texture_id,
            primitive: self.primitive,
            vertices: self.vertices@,
        }
    }
}

/// The contents of some draw items.
pub open spec fn item_views(items: Seq<DrawItem>) -> Seq<DrawItemView> {
    items.map_values(|item: DrawItem| item@)
}

/// The corners of the rectangle that is only the origin.
pub open spec fn no_corners() -> Corners {
    Corners {
        x0: Scalar { bits: 0 },
        y0: Scalar { bits: 0 },
        x1: Scalar { bits: 0 },
        y1: Scalar { bits: 0 },
    }
}

/// The four vertices of a rectangle: top left, top right, bottom left, bottom right.
pub open spec fn quad(pos: Corners, colors: CornerColors, uv: Corners, muv: Corners) -> Seq<Vertex> {
    seq![
        Vertex { x: pos.x0, y: pos.y0, color: colors.top_left, u: uv.x0, v: uv.y0, mu: muv.x0, mv: muv.y0 },
        Vertex { x: pos.x1, y: pos.y0, color: colors.top_right, u: uv.x1, v: uv.y0, mu: muv.x1, mv: muv.y0 },
        Vertex { x: pos.x0, y: pos.y1, color: colors.bottom_left, u: uv.x0, v: uv.y1, mu: muv.x0, mv: muv.y1 },
        Vertex { x: pos.x1, y: pos.y1, color: colors.bottom_right, u: uv.x1, v: uv.y1, mu: muv.x1, mv: muv.y1 },
    ]
}

/// A rectangle as a draw item.
pub open spec fn quad_item(
    color_texture_id: TextureId,
    mask_texture_id: TextureId,
    pos: Corners,
    colors: CornerColors,
    uv: Corners,
    muv: Corners,
) -> DrawItemView {
    DrawItemView {
        color_texture_id,
        mask_texture_id,
        primitive: Primitive::Rectangles,
        vertices: quad(pos, colors, uv, muv),
    }
}

/// The pieces of a rectangle with a color at each corner, one item each.  A rectangle without
/// width or height is not drawn.
pub open spec fn gradient_items(
    rect: Rect,
    image_texture_id: TextureId,
    regions: Seq<Region>,
    colors: CornerColors,
) -> Seq<DrawItemView> {
    let zero = Scalar { bits: 0 };
    if rect.size.width.same(zero) || rect.size.height.same(zero) {
        Seq::empty()
    } else {
        image_items(image_texture_id, regions, colors)
    }
}

/// The pieces of an image, one item each.
pub open spec fn image_items(image_texture_id: TextureId, regions: Seq<Region>, colors: CornerColors) -> Seq<
    DrawItemView,
> {
    regions.map_values(
        |region: Region|
            quad_item(
                image_texture_id,
                region.mask_texture_id,
                region.pos,
                colors,
                region.uv,
                region.muv,
            ),
    )
}

/// Whether a color is fully transparent, or less than that.
pub open spec fn transparent(color: ColorF) -> bool {
    color.a.le(Scalar { bits: 0 })
}

/// The pieces of a masked rectangle with one color at the top and one at the bottom, one item
/// each.  Where one of the colors is transparent nothing is drawn.
pub open spec fn masked_items(
    color0: ColorF,
    color1: ColorF,
    white_texture_id: TextureId,
    mask_texture_id: TextureId,
    regions: Seq<MaskedRegion>,
) -> Seq<DrawItemView> {
    if transparent(color0) || transparent(color1) {
        Seq::empty()
    } else {
        regions.map_values(
            |region: MaskedRegion|
                quad_item(
                    white_texture_id,
                    mask_texture_id,
                    region.pos,
                    CornerColors::stacked(color0, color1),
                    no_corners(),
                    region.muv,
                ),
        )
    }
}

/// The place of the first item with a texture at or after `i`, or the end.
pub open spec fn texture_place(items: Seq<DrawItemView>, texture_id: TextureId, i: int) -> int
    decreases items.len() - i,
{
    if i >= items.len() || items[i].color_texture_id == texture_id {
        i
    } else {
        texture_place(items, texture_id, i + 1)
    }
}

/// A glyph is added to the item of its texture, or to a new one.
pub open spec fn glyph_added(
    items: Seq<DrawItemView>,
    glyph: GlyphImage,
    color: ColorF,
    mask_texture_id: TextureId,
) -> Seq<DrawItemView> {
    let vertices = quad(glyph.pos, CornerColors::all(color), glyph.uv, no_corners());
    let place = texture_place(items, glyph.texture_id, 0);
    if place < items.len() {
        items.update(place, DrawItemView { vertices: items[place].vertices + vertices, ..items[place] })
    } else {
        items.push(
            DrawItemView {
                color_texture_id: glyph.texture_id,
                mask_texture_id,
                primitive: Primitive::Glyphs,
                vertices,
            },
        )
    }
}

/// Whether a glyph has anything to show.
pub open spec fn inked(glyph: GlyphImage) -> bool {
    glyph.width > 0 && glyph.height > 0
}

/// The first `n` glyphs of a run, one item for each texture, in the order in which the textures
/// are first met.  Glyphs without an area are left out.
pub open spec fn text_items(
    glyphs: Seq<GlyphImage>,
    color: ColorF,
    mask_texture_id: TextureId,
    n: nat,
) -> Seq<DrawItemView>
    decreases n,
{
    if n == 0 {
        Seq::empty()
    } else {
        let items = text_items(glyphs, color, mask_texture_id, (n - 1) as nat);
        if inked(glyphs[n - 1]) {
            glyph_added(items, glyphs[n - 1], color, mask_texture_id)
        } else {
            items
        }
    }
}

/// What is left of a polygon after clipping, as one item; two vertices or fewer are nothing.
pub open spec fn polygon_items(
    image_texture_id: TextureId,
    mask_texture_id: TextureId,
    vertices: Seq<Vertex>,
) -> Seq<DrawItemView> {
    if vertices.len() < 3 {
        Seq::empty()
    } else {
        seq![
            DrawItemView {
                color_texture_id: image_texture_id,
                mask_texture_id,
                primitive: Primitive::TriangleFan,
                vertices,
            },
        ]
    }
}

impl Corners {
    /// The corners of the rectangle that is only the origin.
    pub fn nothing() -> (r: Corners)
        ensures
            r == no_corners(),
    {
        Corners { x0: Scalar::zero(), y0: Scalar::zero(), x1: Scalar::zero(), y1: Scalar::zero() }
    }
}

/// The four vertices of a rectangle.
fn quad_vertices(pos: &Corners, colors: &CornerColors, uv: &Corners, muv: &Corners) -> (r: Vec<Vertex>)
    ensures
        r@ == quad(*pos, *colors, *uv, *muv),
{
    let mut r: Vec<Vertex> = Vec::new();
    r.push(Vertex { x: pos.x0, y: pos.y0, color: colors.top_left, u: uv.x0, v: uv.y0, mu: muv.x0, mv: muv.y0 });
    r.push(Vertex { x: pos.x1, y: pos.y0, color: colors.top_right, u: uv.x1, v: uv.y0, mu: muv.x1, mv: muv.y0 });
    r.push(Vertex { x: pos.x0, y: pos.y1, color: colors.bottom_left, u: uv.x0, v: uv.y1, mu: muv.x0, mv: muv.y1 });
    r.push(Vertex { x: pos.x1, y: pos.y1, color: colors.bottom_right, u: uv.x1, v: uv.y1, mu: muv.x1, mv: muv.y1 });
    assert(r@ =~= quad(*pos, *colors, *uv, *muv));
    r
}

/// Appends a rectangle.
fn push_quad(
    items: &mut Vec<DrawItem>,
    color_texture_id: TextureId,
    mask_texture_id: TextureId,
    pos: &Corners,
    colors: &CornerColors,
    uv: &Corners,
    muv: &Corners,
)
    ensures
        item_views(final(items)@) == item_views(old(items)@).push(
            quad_item(color_texture_id, mask_texture_id, *pos, *colors, *uv, *muv),
        ),
{
    let vertices = quad_vertices(pos, colors, uv, muv);
    items.push(DrawItem { color_texture_id, mask_texture_id, primitive: Primitive::Rectangles, vertices });
    assert(item_views(items@) =~= item_views(old(items)@).push(
        quad_item(color_texture_id, mask_texture_id, *pos, *colors, *uv, *muv),
    ));
}

/// A rectangle in one color, without image or mask coordinates.
pub fn push_rectangle(
    items: &mut Vec<DrawItem>,
    pos: &Corners,
    color: &ColorF,
    white_texture_id: TextureId,
    mask_texture_id: TextureId,
)
    ensures
        item_views(final(items)@) == item_views(old(items)@).push(
            quad_item(
                white_texture_id,
                mask_texture_id,
                *pos,
                CornerColors::all(*color),
                no_corners(),
                no_corners(),
            ),
        ),
{
    let nothing = Corners::nothing();
    let colors = CornerColors::plain(*color);
    push_quad(items, white_texture_id, mask_texture_id, pos, &colors, &nothing, &nothing);
}

/// A rectangle in one color under a mask.
pub fn push_masked_rectangle(
    items: &mut Vec<DrawItem>,
    pos: &Corners,
    muv: &Corners,
    color: &ColorF,
    white_texture_id: TextureId,
    mask_texture_id: TextureId,
)
    ensures
        item_views(final(items)@) == item_views(old(items)@).push(
            quad_item(white_texture_id, mask_texture_id, *pos, CornerColors::all(*color), no_corners(), *muv),
        ),
{
    let nothing = Corners::nothing();
    let colors = CornerColors::plain(*color);
    push_quad(items, white_texture_id, mask_texture_id, pos, &colors, &nothing, muv);
}

/// Appends the pieces of a rectangle, one item each.
fn push_regions(
    items: &mut Vec<DrawItem>,
    image_texture_id: TextureId,
    regions: &Vec<Region>,
    colors: &CornerColors,
)
    ensures
        item_views(final(items)@) == item_views(old(items)@) + image_items(
            image_texture_id,
            regions@,
            *colors,
        ),
{
    let ghost all = image_items(image_texture_id, regions@, *colors);
    let ghost before = item_views(items@);
    assert(before + all.take(0) =~= before);
    let mut i: usize = 0;
    while i < regions.len()
        invariant
            i <= regions@.len(),
            all == image_items(image_texture_id, regions@, *colors),
            item_views(items@) == before + all.take(i as int),
        decreases regions@.len() - i,
    {
        let region = &regions[i];
        push_quad(
            items,
            image_texture_id,
            region.mask_texture_id,
            &region.pos,
            colors,
            &region.uv,
            &region.muv,
        );
        i = i + 1;
        assert(all.take(i as int) =~= all.take(i - 1).push(all[i - 1]));
        assert(item_views(items@) =~= before + all.take(i as int));
    }
    assert(all.take(i as int) =~= all);
}

/// The pieces of an image in one color.
pub fn push_image_rect(
    items: &mut Vec<DrawItem>,
    color: &ColorF,
    image_texture_id: TextureId,
    regions: &Vec<Region>,
)
    ensures
        item_views(final(items)@) == item_views(old(items)@) + image_items(
            image_texture_id,
            regions@,
            CornerColors::all(*color),
        ),
{
    let colors = CornerColors::plain(*color);
    push_regions(items, image_texture_id, regions, &colors);
}

/// The pieces of a rectangle with a color at each corner.
pub fn add_axis_aligned_gradient(
    items: &mut Vec<DrawItem>,
    rect: &Rect,
    image_texture_id: TextureId,
    regions: &Vec<Region>,
    colors: &CornerColors,
)
    ensures
        item_views(final(items)@) == item_views(old(items)@) + gradient_items(
            *rect,
            image_texture_id,
            regions@,
            *colors,
        ),
{
    if rect.size.width.equals(Scalar::zero()) || rect.size.height.equals(Scalar::zero()) {
        assert(item_views(items@) =~= item_views(old(items)@) + Seq::empty());
        return;
    }
    push_regions(items, image_texture_id, regions, colors);
}

/// The pieces of a rectangle in one color.
pub fn add_rectangle(
    items: &mut Vec<DrawItem>,
    rect: &Rect,
    image_texture_id: TextureId,
    regions: &Vec<Region>,
    color: &ColorF,
)
    ensures
        item_views(final(items)@) == item_views(old(items)@) + gradient_items(
            *rect,
            image_texture_id,
            regions@,
            CornerColors::all(*color),
        ),
{
    let colors = CornerColors::plain(*color);
    add_axis_aligned_gradient(items, rect, image_texture_id, regions, &colors);
}

/// The pieces of a rectangle under a mask, with one color at the top and one at the bottom.
pub fn add_masked_rectangle(
    items: &mut Vec<DrawItem>,
    color0: &ColorF,
    color1: &ColorF,
    white_texture_id: TextureId,
    mask_texture_id: TextureId,
    regions: &Vec<MaskedRegion>,
)
    ensures
        item_views(final(items)@) == item_views(old(items)@) + masked_items(
            *color0,
            *color1,
            white_texture_id,
            mask_texture_id,
            regions@,
        ),
{
    let ghost before = item_views(items@);
    let ghost all = masked_items(*color0, *color1, white_texture_id, mask_texture_id, regions@);
    if color0.a.at_most(Scalar::zero()) || color1.a.at_most(Scalar::zero()) {
        assert(item_views(items@) =~= before + all);
        return;
    }
    let nothing = Corners::nothing();
    let colors = CornerColors {
        top_left: *color0,
        top_right: *color0,
        bottom_right: *color1,
        bottom_left: *color1,
    };
    assert(before + all.take(0) =~= before);
    let mut i: usize = 0;
    while i < regions.len()
        invariant
            i <= regions@.len(),
            all == masked_items(*color0, *color1, white_texture_id, mask_texture_id, regions@),
            !transparent(*color0) && !transparent(*color1),
            colors == CornerColors::stacked(*color0, *color1),
            nothing == no_corners(),
            item_views(items@) == before + all.take(i as int),
        decreases regions@.len() - i,
    {
        let region = &regions[i];
        push_quad(
            items,
            white_texture_id,
            mask_texture_id,
            &region.pos,
            &colors,
            &nothing,
            &region.muv,
        );
        i = i + 1;
        assert(all.take(i as int) =~= all.take(i - 1).push(all[i - 1]));
        assert(item_views(items@) =~= before + all.take(i as int));
    }
    assert(all.take(i as int) =~= all);
}

/// What is left of a polygon after clipping.
pub fn add_polygon(
    items: &mut Vec<DrawItem>,
    image_texture_id: TextureId,
    mask_texture_id: TextureId,
    vertices: Vec<Vertex>,
)
    ensures
        item_views(final(items)@) == item_views(old(items)@) + polygon_items(
            image_texture_id,
            mask_texture_id,
            vertices@,
        ),
{
    if vertices.len() >= 3 {
        items.push(
            DrawItem {
                color_texture_id: image_texture_id,
                mask_texture_id,
                primitive: Primitive::TriangleFan,
                vertices,
            },
        );
    }
    assert(item_views(items@) =~= item_views(old(items)@) + polygon_items(
        image_texture_id,
        mask_texture_id,
        vertices@,
    ));
}

/// A text run: one item for each texture that its glyphs come from.
pub fn add_text(
    items: &mut Vec<DrawItem>,
    glyphs: &Vec<GlyphImage>,
    color: &ColorF,
    mask_texture_id: TextureId,
)
    requires
        glyphs@.len() > 0,
    ensures
        item_views(final(items)@) == item_views(old(items)@) + text_items(
            glyphs@,
            *color,
            mask_texture_id,
            glyphs@.len(),
        ),
{
    let mut text: Vec<DrawItem> = Vec::new();
    let nothing = Corners::nothing();
    let colors = CornerColors::plain(*color);
    assert(item_views(text@) =~= Seq::empty());
    let mut i: usize = 0;
    while i < glyphs.len()
        invariant
            i <= glyphs@.len(),
            nothing == no_corners(),
            colors == CornerColors::all(*color),
            item_views(text@) == text_items(glyphs@, *color, mask_texture_id, i as nat),
        decreases glyphs@.len() - i,
    {
        let glyph = &glyphs[i];
        if glyph.width > 0 && glyph.height > 0 {
            let ghost before = item_views(text@);
            let mut place: usize = 0;
            while place < text.len() && text[place].color_texture_id != glyph.texture_id
                invariant
                    place <= text@.len(),
                    before == item_views(text@),
                    texture_place(before, glyph.texture_id, 0) == texture_place(
                        before,
                        glyph.texture_id,
                        place as int,
                    ),
                decreases text@.len() - place,
            {
                place = place + 1;
            }
            let mut vertices = quad_vertices(&glyph.pos, &colors, &glyph.uv, &nothing);
            if place < text.len() {
                text[place].vertices.append(&mut vertices);
            } else {
                text.push(
                    DrawItem {
                        color_texture_id: glyph.texture_id,
                        mask_texture_id,
                        primitive: Primitive::Glyphs,
                        vertices,
                    },
                );
            }
            assert(item_views(text@) =~= glyph_added(before, *glyph, *color, mask_texture_id));
        }
        i = i + 1;
    }
    items.append(&mut text);
    assert(item_views(items@) =~= item_views(old(items)@) + text_items(
        glyphs@,
        *color,
        mask_texture_id,
        glyphs@.len(),
    ));
}

/// The glyphs among the first `n` that have something to show.
pub open spec fn inked_count(glyphs: Seq<GlyphImage>, n: nat) -> nat
    decreases n,
{
    if n == 0 {
        0
    } else {
        inked_count(glyphs, (n - 1) as nat) + (if inked(glyphs[n - 1]) {
            1nat
        } else {
            0nat
        })
    }
}

/// The vertices of some draw items.
pub open spec fn vertex_count(items: Seq<DrawItemView>) -> nat
    decreases items.len(),
{
    if items.len() == 0 {
        0
    } else {
        vertex_count(items.drop_last()) + items.last().vertices.len()
    }
}

proof fn lemma_texture_place(items: Seq<DrawItemView>, texture_id: TextureId, i: int)
    requires
        0 <= i <= items.len(),
    ensures
        ({
            let place = texture_place(items, texture_id, i);
            &&& i <= place <= items.len()
            &&& place < items.len() ==> items[place].color_texture_id == texture_id
            &&& forall|k: int| i <= k < place ==> (#[trigger] items[k]).color_texture_id != texture_id
        }),
    decreases items.len() - i,
{
    if i < items.len() && items[i].color_texture_id != texture_id {
        lemma_texture_place(items, texture_id, i + 1);
    }
}

proof fn lemma_count_update(items: Seq<DrawItemView>, place: int, item: DrawItemView)
    requires
        0 <= place < items.len(),
    ensures
        vertex_count(items.update(place, item)) == vertex_count(items) - items[place].vertices.len()
            + item.vertices.len(),
    decreases items.len(),
{
    let updated = items.update(place, item);
    if place == items.len() - 1 {
        assert(updated.drop_last() =~= items.drop_last());
    } else {
        assert(updated.drop_last() =~= items.drop_last().update(place, item));
        lemma_count_update(items.drop_last(), place, item);
        assert(items.drop_last()[place] == items[place]);
    }
}

/// A text run has one draw item for each texture, and every glyph with something to show is
/// drawn once: the items hold four vertices for each of them.
pub proof fn text_is_drawn_once(
    glyphs: Seq<GlyphImage>,
    color: ColorF,
    mask_texture_id: TextureId,
    n: nat,
)
    requires
        n <= glyphs.len(),
    ensures
        ({
            let items = text_items(glyphs, color, mask_texture_id, n);
            &&& vertex_count(items) == 4 * inked_count(glyphs, n)
            &&& forall|i: int, j: int|
                0 <= i < j < items.len() ==> (#[trigger] items[i]).color_texture_id != (
                #[trigger] items[j]).color_texture_id
            &&& forall|i: int|
                0 <= i < items.len() ==> (#[trigger] items[i]).mask_texture_id == mask_texture_id
                    && items[i].primitive == Primitive::Glyphs
        }),
    decreases n,
{
    if n > 0 {
        text_is_drawn_once(glyphs, color, mask_texture_id, (n - 1) as nat);
        let items = text_items(glyphs, color, mask_texture_id, (n - 1) as nat);
        let glyph = glyphs[n - 1];
        if inked(glyph) {
            let next = glyph_added(items, glyph, color, mask_texture_id);
            let place = texture_place(items, glyph.texture_id, 0);
            lemma_texture_place(items, glyph.texture_id, 0);
            if place < items.len() {
                lemma_count_update(items, place, next[place]);
            } else {
                assert(next.drop_last() =~= items);
            }
        }
    }
}

} // verus!
