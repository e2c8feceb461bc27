//! The images that drawing a node needs.
use crate::border::border_corners;
use crate::display::{
    BorderDisplayItem, BorderRadius, BorderSide, BorderStyle, ClipRegion, DisplayItem, ItemView, SpecificDisplayItem,
    SpecificView, TextDisplayItem, TextView,
};
use crate::geometry::{Rect, Size2D};
use crate::ids::{DisplayItemKey, ImageID};
use crate::items::{get_item, holds};
use crate::length::{of, Extent, Length};
use crate::node::{AABBTreeNode, GlyphKey, RasterItem, ResourceList};
use crate::scalar::Scalar;
use crate::scene::FlatDrawList;
use vstd::prelude::*;

verus! {

/// Something that drawing an item needs.
#[derive(Debug)]
pub enum ResourceRequest {
    /// The mask of a rounded corner.
    Radius { outer: Extent, inner: Extent },
    /// The mask of a shadow's corner.
    ShadowCorner { blur_radius: Scalar, border_radius: Scalar },
    Image(ImageID),
    Glyph(GlyphKey),
}

/// The extent without size.
pub open spec fn no_extent() -> Extent {
    Extent { width: of(Scalar { bits: 0 }), height: of(Scalar { bits: 0 }) }
}

/// The mask of a corner with the given outer and inner radius.
pub open spec fn radius_request(outer: Size2D, inner: Extent) -> ResourceRequest {
    ResourceRequest::Radius { outer: Extent::of_size(outer), inner }
}

/// The masks of the four corners of a box, with the inner radii of a border or with none: top
/// left, top right, bottom left, bottom right.
pub open spec fn radius_requests(outer: BorderRadius, inner: Option<BorderRadius>) -> Seq<ResourceRequest> {
    match inner {
        Some(inner) => seq![
            radius_request(outer.top_left, Extent::of_size(inner.top_left)),
            radius_request(outer.top_right, Extent::of_size(inner.top_right)),
            radius_request(outer.bottom_left, Extent::of_size(inner.bottom_left)),
            radius_request(outer.bottom_right, Extent::of_size(inner.bottom_right)),
        ],
        None => seq![
            radius_request(outer.top_left, no_extent()),
            radius_request(outer.top_right, no_extent()),
            radius_request(outer.bottom_left, no_extent()),
            radius_request(outer.bottom_right, no_extent()),
        ],
    }
}

/// The masks of the first `n` rounded rectangles of a clip.
pub open spec fn clip_requests(clip: Seq<crate::display::ComplexClipRegion>, n: nat) -> Seq<ResourceRequest>
    decreases n,
{
    if n == 0 {
        Seq::empty()
    } else {
        clip_requests(clip, (n - 1) as nat) + radius_requests(clip[n - 1].radii, None)
    }
}

/// The mask of the dots of a border side, if it has dots: half as wide as the side.
pub open spec fn dot_request(side: BorderSide) -> Seq<ResourceRequest> {
    let half = of(side.width).div(Length::Whole(2));
    if side.style == BorderStyle::Dotted {
        seq![ResourceRequest::Radius { outer: Extent { width: half, height: half }, inner: no_extent() }]
    } else {
        Seq::empty()
    }
}

/// The key of a glyph of a text run.
pub open spec fn glyph_key(text: TextView, index: u32) -> GlyphKey {
    GlyphKey { font_id: text.font_id, size: text.size, blur_radius: text.blur_radius, index }
}

/// The glyphs of a text run.
pub open spec fn glyph_requests(text: TextView) -> Seq<ResourceRequest> {
    text.glyphs.map_values(
        |glyph: crate::display::GlyphInstance| ResourceRequest::Glyph(glyph_key(text, glyph.index)),
    )
}

/// What the content of an item needs.
pub open spec fn content_requests(item: SpecificView) -> Seq<ResourceRequest> {
    match item {
        SpecificView::Image(info) => seq![ResourceRequest::Image(info.image_id)],
        SpecificView::Text(info) => glyph_requests(info),
        SpecificView::BoxShadow(info) => seq![
            ResourceRequest::ShadowCorner {
                blur_radius: info.blur_radius,
                border_radius: info.border_radius,
            },
        ],
        SpecificView::Border(info) => radius_requests(info.radius, Some(info.inner_radius)) + dot_request(
            info.top,
        ) + dot_request(info.right) + dot_request(info.bottom) + dot_request(info.left),
        SpecificView::Rectangle(_)
        | SpecificView::Iframe(_)
        | SpecificView::Gradient(_)
        | SpecificView::Composite(_) => Seq::empty(),
    }
}

/// What an item needs: the masks of its clip, then what its content needs.
pub open spec fn item_requests(item: ItemView) -> Seq<ResourceRequest> {
    clip_requests(item.clip.complex, item.clip.complex.len()) + content_requests(item.item)
}

/// What the first `n` items of a node need.
pub open spec fn node_requests(
    keys: Seq<DisplayItemKey>,
    flat: Seq<FlatDrawList>,
    n: nat,
) -> Seq<ResourceRequest>
    decreases n,
{
    if n == 0 {
        Seq::empty()
    } else {
        let key = keys[n - 1];
        let item = flat[key.draw_list_index.0 as int].draw_list.items@[key.item_index.0 as int];
        node_requests(keys, flat, (n - 1) as nat) + item_requests(item@)
    }
}

fn nothing() -> (r: Extent)
    ensures
        r == no_extent(),
{
    Extent { width: Length::Given(Scalar::zero()), height: Length::Given(Scalar::zero()) }
}

fn push_radii(outer: &BorderRadius, inner: Option<&BorderRadius>, requests: &mut Vec<ResourceRequest>)
    ensures
        final(requests)@ == old(requests)@ + radius_requests(
            *outer,
            match inner {
                Some(radii) => Some(*radii),
                None => None,
            },
        ),
{
    let (top_left, top_right, bottom_left, bottom_right) = match inner {
        Some(radii) => (
            Extent::from_size(&radii.top_left),
            Extent::from_size(&radii.top_right),
            Extent::from_size(&radii.bottom_left),
            Extent::from_size(&radii.bottom_right),
        ),
        None => (nothing(), nothing(), nothing(), nothing()),
    };
    requests.push(
        ResourceRequest::Radius { outer: Extent::from_size(&outer.top_left), inner: top_left },
    );
    requests.push(
        ResourceRequest::Radius { outer: Extent::from_size(&outer.top_right), inner: top_right },
    );
    requests.push(
        ResourceRequest::Radius { outer: Extent::from_size(&outer.bottom_left), inner: bottom_left },
    );
    requests.push(
        ResourceRequest::Radius { outer: Extent::from_size(&outer.bottom_right), inner: bottom_right },
    );
    assert(requests@ =~= old(requests)@ + radius_requests(
        *outer,
        match inner {
            Some(radii) => Some(*radii),
            None => None,
        },
    ));
}

fn push_clip(clip: &ClipRegion, requests: &mut Vec<ResourceRequest>)
    ensures
        final(requests)@ == old(requests)@ + clip_requests(clip.complex@, clip.complex@.len()),
{
    let mut i: usize = 0;
    assert(requests@ =~= old(requests)@ + clip_requests(clip.complex@, 0));
    while i < clip.complex.len()
        invariant
            i <= clip.complex@.len(),
            requests@ == old(requests)@ + clip_requests(clip.complex@, i as nat),
        decreases clip.complex@.len() - i,
    {
        push_radii(&clip.complex[i].radii, None, requests);
        i = i + 1;
        assert(requests@ =~= old(requests)@ + clip_requests(clip.complex@, i as nat));
    }
}

fn push_dots(side: &BorderSide, requests: &mut Vec<ResourceRequest>)
    ensures
        final(requests)@ == old(requests)@ + dot_request(*side),
{
    if side.style == BorderStyle::Dotted {
        let half = Length::Given(side.width).over(&Length::Whole(2));
        requests.push(
            ResourceRequest::Radius {
                outer: Extent { width: half.copy(), height: half },
                inner: nothing(),
            },
        );
    }
    assert(requests@ =~= old(requests)@ + dot_request(*side));
}

fn push_glyphs(info: &TextDisplayItem, requests: &mut Vec<ResourceRequest>)
    ensures
        final(requests)@ == old(requests)@ + glyph_requests(info@),
{
    let ghost all = glyph_requests(info@);
    assert(requests@ =~= old(requests)@ + all.take(0));
    let mut i: usize = 0;
    while i < info.glyphs.len()
        invariant
            i <= info.glyphs@.len(),
            all == glyph_requests(info@),
            requests@ == old(requests)@ + all.take(i as int),
        decreases info.glyphs@.len() - i,
    {
        requests.push(
            ResourceRequest::Glyph(
                GlyphKey {
                    font_id: info.font_id,
                    size: info.size,
                    blur_radius: info.blur_radius,
                    index: info.glyphs[i].index,
                },
            ),
        );
        i = i + 1;
        assert(all.take(i as int) =~= all.take(i - 1).push(all[i - 1]));
        assert(requests@ =~= old(requests)@ + all.take(i as int));
    }
    assert(all.take(i as int) =~= all);
}

fn push_border(info: &BorderDisplayItem, requests: &mut Vec<ResourceRequest>)
    ensures
        final(requests)@ == old(requests)@ + content_requests(SpecificView::Border(*info)),
{
    push_radii(&info.radius, Some(&info.inner_radius), requests);
    push_dots(&info.top, requests);
    push_dots(&info.right, requests);
    push_dots(&info.bottom, requests);
    push_dots(&info.left, requests);
    assert(requests@ =~= old(requests)@ + content_requests(SpecificView::Border(*info)));
}

fn push_item(item: &DisplayItem, requests: &mut Vec<ResourceRequest>)
    ensures
        final(requests)@ == old(requests)@ + item_requests(item@),
{
    push_clip(&item.clip, requests);
    match &item.item {
        SpecificDisplayItem::Image(info) => {
            requests.push(ResourceRequest::Image(info.image_id));
        },
        SpecificDisplayItem::Text(info) => {
            push_glyphs(info, requests);
        },
        SpecificDisplayItem::Rectangle(_) => {},
        SpecificDisplayItem::Iframe(_) => {},
        SpecificDisplayItem::Gradient(_) => {},
        SpecificDisplayItem::Composite(_) => {},
        SpecificDisplayItem::BoxShadow(info) => {
            requests.push(
                ResourceRequest::ShadowCorner {
                    blur_radius: info.blur_radius,
                    border_radius: info.border_radius,
                },
            );
        },
        SpecificDisplayItem::Border(info) => {
            push_border(info, requests);
        },
    }
    assert(requests@ =~= old(requests)@ + item_requests(item@));
}

impl AABBTreeNode {
    /// What the items of the node need, item by item.
    pub fn build_resource_list(&self, flat_draw_lists: &Vec<FlatDrawList>) -> (requests: Vec<ResourceRequest>)
        requires
            forall|i: int|
                0 <= i < self.src_items@.len() ==> holds(flat_draw_lists@, #[trigger] self.src_items@[i]),
        ensures
            requests@ == node_requests(self.src_items@, flat_draw_lists@, self.src_items@.len()),
    {
        let mut requests: Vec<ResourceRequest> = Vec::new();
        let mut i: usize = 0;
        while i < self.src_items.len()
            invariant
                i <= self.src_items@.len(),
                forall|k: int|
                    0 <= k < self.src_items@.len() ==> holds(
                        flat_draw_lists@,
                        #[trigger] self.src_items@[k],
                    ),
                requests@ == node_requests(self.src_items@, flat_draw_lists@, i as nat),
            decreases self.src_items@.len() - i,
        {
            let display_item = get_item(flat_draw_lists, &self.src_items[i]);
            push_item(display_item, &mut requests);
            i = i + 1;
        }
        requests
    }
}

/// The masks among the first `n` requests that have to be made; `rasters` says which mask a
/// request for one stands for, if it needs any.
pub open spec fn listed_rasters(
    requests: Seq<ResourceRequest>,
    rasters: Seq<Option<RasterItem>>,
    n: nat,
) -> Seq<RasterItem>
    decreases n,
{
    if n == 0 {
        Seq::empty()
    } else {
        let rest = listed_rasters(requests, rasters, (n - 1) as nat);
        match (requests[n - 1], rasters[n - 1]) {
            (ResourceRequest::Radius { .. }, Some(item)) => rest.push(item),
            (ResourceRequest::ShadowCorner { .. }, Some(item)) => rest.push(item),
            _ => rest,
        }
    }
}

/// The images among the first `n` requests.
pub open spec fn listed_images(requests: Seq<ResourceRequest>, n: nat) -> Seq<ImageID>
    decreases n,
{
    if n == 0 {
        Seq::empty()
    } else {
        let rest = listed_images(requests, (n - 1) as nat);
        match requests[n - 1] {
            ResourceRequest::Image(image_id) => rest.push(image_id),
            _ => rest,
        }
    }
}

/// The glyphs among the first `n` requests.
pub open spec fn listed_glyphs(requests: Seq<ResourceRequest>, n: nat) -> Seq<GlyphKey>
    decreases n,
{
    if n == 0 {
        Seq::empty()
    } else {
        let rest = listed_glyphs(requests, (n - 1) as nat);
        match requests[n - 1] {
            ResourceRequest::Glyph(key) => rest.push(key),
            _ => rest,
        }
    }
}

impl ResourceList {
    /// Sorts requests by their kind.  `rasters` holds, for each request of a mask, the mask that
    /// it stands for, if it needs any.
    pub fn from_requests(requests: &Vec<ResourceRequest>, rasters: &Vec<Option<RasterItem>>) -> (list: ResourceList)
        requires
            rasters@.len() == requests@.len(),
        ensures
            list.rasters@ == listed_rasters(requests@, rasters@, requests@.len()),
            list.images@ == listed_images(requests@, requests@.len()),
            list.glyphs@ == listed_glyphs(requests@, requests@.len()),
    {
        let mut list = ResourceList { rasters: Vec::new(), images: Vec::new(), glyphs: Vec::new() };
        let mut i: usize = 0;
        while i < requests.len()
            invariant
                i <= requests@.len(),
                rasters@.len() == requests@.len(),
                list.rasters@ == listed_rasters(requests@, rasters@, i as nat),
                list.images@ == listed_images(requests@, i as nat),
                list.glyphs@ == listed_glyphs(requests@, i as nat),
            decreases requests@.len() - i,
        {
            match &requests[i] {
                ResourceRequest::Radius { .. } | ResourceRequest::ShadowCorner { .. } => {
                    if let Some(item) = rasters[i] {
                        list.rasters.push(item);
                    }
                },
                ResourceRequest::Image(image_id) => {
                    list.images.push(*image_id);
                },
                ResourceRequest::Glyph(key) => {
                    list.glyphs.push(*key);
                },
            }
            i = i + 1;
        }
        list
    }
}

/// The mask of every corner that a border is drawn with has been requested.
pub proof fn border_masks_are_requested(rect: Rect, info: BorderDisplayItem, c: int)
    requires
        0 <= c < border_corners(rect, info).len(),
    ensures
        ({
            let corner = border_corners(rect, info)[c];
            content_requests(SpecificView::Border(info)).contains(
                radius_request(corner.outer_radius, Extent::of_size(corner.inner_radius)),
            )
        }),
{
    let requests = content_requests(SpecificView::Border(info));
    let radii = radius_requests(info.radius, Some(info.inner_radius));
    // The corners go around the border; the masks are requested row by row.
    let place: int = if c == 2 {
        3
    } else if c == 3 {
        2
    } else {
        c
    };
    assert(requests[place] == radii[place]);
}

/// Every glyph of a text run has been requested.
pub proof fn glyphs_are_requested(text: TextView, g: int)
    requires
        0 <= g < text.glyphs.len(),
    ensures
        content_requests(SpecificView::Text(text)).contains(
            ResourceRequest::Glyph(glyph_key(text, text.glyphs[g].index)),
        ),
{
    assert(glyph_requests(text)[g] == ResourceRequest::Glyph(glyph_key(text, text.glyphs[g].index)));
}

} // verus!
