//! What drawing an item needs.
use crate::display::{BorderDisplayItem, BorderSide, BorderStyle, ComplexClipRegion, ItemView, SpecificView, TextView};
use crate::geometry::Size2D;
use crate::ids::{DisplayItemKey, ImageID};
use crate::images::{mask_choice, round_corner, run_images, MaskChoice};
use crate::length::{of, Extent};
use crate::meaning::{amount, lemma_amount, lemma_either, lemma_shares};
use crate::node::{GlyphKey, RasterItem};
use crate::resources::{
    clip_requests, content_requests, dot_request, item_requests, listed_glyphs, listed_images, listed_rasters,
    node_requests, radius_requests, ResourceRequest,
};
use crate::scalar::Scalar;
use crate::scene::FlatDrawList;
use vstd::prelude::*;

verus! {

/// Whether an extent is a given size.
pub open spec fn is_size(extent: Extent, size: Size2D) -> bool {
    extent.width == of(size.width) && extent.height == of(size.height)
}

/// Whether an extent has no size.
pub open spec fn is_nothing(extent: Extent, v: spec_fn(Scalar) -> real) -> bool {
    amount(extent.width, v) == 0 as real && amount(extent.height, v) == 0 as real
}

/// Whether a request asks for the mask of a rounded corner without a hole.
pub open spec fn asks_for_corner(request: ResourceRequest, size: Size2D, v: spec_fn(Scalar) -> real) -> bool {
    request matches ResourceRequest::Radius { outer, inner } && is_size(outer, size) && is_nothing(inner, v)
}

/// The clip of an item needs a mask for each corner of each of its rounded rectangles.
pub proof fn clip_corners_are_requested(item: ItemView, c: int, v: spec_fn(Scalar) -> real)
    requires
        0 <= c < item.clip.complex.len(),
        v(Scalar { bits: 0 }) == 0 as real,
    ensures
        ({
            let radii = item.clip.complex[c].radii;
            let requests = item_requests(item);
            &&& requests.len() >= 4 * item.clip.complex.len()
            &&& asks_for_corner(requests[4 * c], radii.top_left, v)
            &&& asks_for_corner(requests[4 * c + 1], radii.top_right, v)
            &&& asks_for_corner(requests[4 * c + 2], radii.bottom_left, v)
            &&& asks_for_corner(requests[4 * c + 3], radii.bottom_right, v)
        }),
{
    broadcast use lemma_amount;
    let clip = item.clip.complex;
    lemma_clip_requests(clip, clip.len(), c);
    let corners = radius_requests(clip[c].radii, None);
    let masks = clip_requests(clip, clip.len());
    assert(masks[4 * c + 0] == corners[0]);
    assert(masks[4 * c + 1] == corners[1]);
    assert(masks[4 * c + 2] == corners[2]);
    assert(masks[4 * c + 3] == corners[3]);
    assert forall|k: int| 0 <= k < 4 implies #[trigger] item_requests(item)[4 * c + k] == masks[4 * c + k] by {}
    assert(item_requests(item)[4 * c + 0] == masks[4 * c + 0]);
}

proof fn lemma_clip_requests(clip: Seq<ComplexClipRegion>, n: nat, c: int)
    requires
        0 <= c < n,
    ensures
        clip_requests(clip, n).len() == 4 * n,
        forall|k: int|
            0 <= k < 4 ==> clip_requests(clip, n)[4 * c + k] == #[trigger] radius_requests(clip[c].radii, None)[k],
    decreases n,
{
    if n == 1 {
        assert(clip_requests(clip, 0).len() == 0);
    } else {
        lemma_clip_requests(clip, (n - 1) as nat, if c < n - 1 {
            c
        } else {
            0
        });
    }
}

/// The content of an item needs no more than: an image its image, a text run its glyphs, a shadow its
/// corner, a border the masks of its four corners and one for each dotted side.
pub proof fn contents_need_no_more(item: SpecificView)
    ensures
        ({
            let requests = content_requests(item);
            match item {
                SpecificView::Image(info) => {
                    requests.len() == 1 && requests[0] == ResourceRequest::Image(info.image_id)
                },
                SpecificView::Text(info) => {
                    &&& requests.len() == info.glyphs.len()
                    &&& forall|g: int|
                        0 <= g < requests.len() ==> ((#[trigger] requests[g]) matches ResourceRequest::Glyph(key) && {
                            &&& key.font_id == info.font_id
                            &&& key.size == info.size
                            &&& key.blur_radius == info.blur_radius
                            &&& key.index == info.glyphs[g].index
                        })
                },
                SpecificView::BoxShadow(info) => {
                    &&& requests.len() == 1
                    &&& requests[0] matches ResourceRequest::ShadowCorner { blur_radius, border_radius } && blur_radius
                        == info.blur_radius && border_radius == info.border_radius
                },
                SpecificView::Border(info) => {
                    &&& requests.len() == 4 + dots(info.top) + dots(info.right) + dots(info.bottom) + dots(info.left)
                    &&& requests[0] matches ResourceRequest::Radius { outer, inner } && is_size(
                        outer,
                        info.radius.top_left,
                    ) && is_size(inner, info.inner_radius.top_left)
                    &&& requests[1] matches ResourceRequest::Radius { outer, inner } && is_size(
                        outer,
                        info.radius.top_right,
                    ) && is_size(inner, info.inner_radius.top_right)
                    &&& requests[2] matches ResourceRequest::Radius { outer, inner } && is_size(
                        outer,
                        info.radius.bottom_left,
                    ) && is_size(inner, info.inner_radius.bottom_left)
                    &&& requests[3] matches ResourceRequest::Radius { outer, inner } && is_size(
                        outer,
                        info.radius.bottom_right,
                    ) && is_size(inner, info.inner_radius.bottom_right)
                },
                _ => requests.len() == 0,
            }
        }),
{
}

/// The masks that the dots of a side need.
pub open spec fn dots(side: BorderSide) -> nat {
    if side.style == BorderStyle::Dotted {
        1
    } else {
        0
    }
}

/// Whether a request asks for the mask of the dots of a side: round, and as wide as the side.
pub open spec fn asks_for_dots(request: ResourceRequest, side: BorderSide, v: spec_fn(Scalar) -> real) -> bool {
    request matches ResourceRequest::Radius { outer, inner } && {
        &&& amount(outer.width, v) + amount(outer.width, v) == v(side.width)
        &&& amount(outer.height, v) + amount(outer.height, v) == v(side.width)
        &&& is_nothing(inner, v)
    }
}

/// Each dotted side of a border needs the mask of its dots, in the order top, right, bottom, left.
pub proof fn dots_are_requested(item: BorderDisplayItem, v: spec_fn(Scalar) -> real)
    requires
        v(Scalar { bits: 0 }) == 0 as real,
    ensures
        ({
            let requests = content_requests(SpecificView::Border(item));
            let top = 4 + dots(item.top);
            let right = top + dots(item.right);
            let bottom = right + dots(item.bottom);
            let left = bottom + dots(item.left);
            &&& requests.len() == left
            &&& item.top.style == BorderStyle::Dotted ==> asks_for_dots(requests[top - 1], item.top, v)
            &&& item.right.style == BorderStyle::Dotted ==> asks_for_dots(requests[right - 1], item.right, v)
            &&& item.bottom.style == BorderStyle::Dotted ==> asks_for_dots(requests[bottom - 1], item.bottom, v)
            &&& item.left.style == BorderStyle::Dotted ==> asks_for_dots(requests[left - 1], item.left, v)
        }),
{
    lemma_dots(item.top, v);
    lemma_dots(item.right, v);
    lemma_dots(item.bottom, v);
    lemma_dots(item.left, v);
}

proof fn lemma_dots(side: BorderSide, v: spec_fn(Scalar) -> real)
    requires
        v(Scalar { bits: 0 }) == 0 as real,
    ensures
        dot_request(side).len() == dots(side),
        side.style == BorderStyle::Dotted ==> asks_for_dots(dot_request(side)[0], side, v),
{
    broadcast use lemma_amount;
    lemma_shares(v(side.width));
}

/// What an item of a node needs, for its clip and for its content, the node needs, and nothing else.
pub proof fn nodes_need_what_their_items_need(
    keys: Seq<DisplayItemKey>,
    flat: Seq<FlatDrawList>,
    n: nat,
    request: ResourceRequest,
)
    requires
        n <= keys.len(),
    ensures
        node_requests(keys, flat, n).contains(request) <==> exists|i: int|
            0 <= i < n && {
                let key = #[trigger] keys[i];
                let item = flat[key.draw_list_index.0 as int].draw_list.items@[key.item_index.0 as int]@;
                clip_requests(item.clip.complex, item.clip.complex.len()).contains(request) || content_requests(
                    item.item,
                ).contains(request)
            },
    decreases n,
{
    if n > 0 {
        let m = (n - 1) as nat;
        nodes_need_what_their_items_need(keys, flat, m, request);
        let key = keys[n - 1];
        let item = flat[key.draw_list_index.0 as int].draw_list.items@[key.item_index.0 as int]@;
        let before = node_requests(keys, flat, m);
        let clip = clip_requests(item.clip.complex, item.clip.complex.len());
        let content = content_requests(item.item);
        lemma_either(clip, content, request);
        lemma_either(before, clip + content, request);
        assert(node_requests(keys, flat, n) == before + (clip + content));
    }
}

proof fn lemma_contains_push<A>(a: Seq<A>, y: A, x: A)
    ensures
        a.push(y).contains(x) <==> a.contains(x) || x == y,
{
    assert(a.push(y) =~= a + seq![y]);
    lemma_either(a, seq![y], x);
    assert(seq![y][0] == y);
}

/// A list names the images and the glyphs that are requested, and the masks that the requests for one stand
/// for, and nothing else.
pub proof fn lists_name_what_is_requested(
    requests: Seq<ResourceRequest>,
    rasters: Seq<Option<RasterItem>>,
    n: nat,
    image_id: ImageID,
    key: GlyphKey,
    item: RasterItem,
)
    requires
        n <= requests.len(),
        rasters.len() == requests.len(),
    ensures
        listed_images(requests, n).contains(image_id) <==> exists|i: int|
            0 <= i < n && #[trigger] requests[i] == ResourceRequest::Image(image_id),
        listed_glyphs(requests, n).contains(key) <==> exists|i: int|
            0 <= i < n && #[trigger] requests[i] == ResourceRequest::Glyph(key),
        listed_rasters(requests, rasters, n).contains(item) <==> exists|i: int|
            0 <= i < n && ((#[trigger] requests[i]) is Radius || requests[i] is ShadowCorner) && rasters[i] == Some(
                item,
            ),
    decreases n,
{
    if n > 0 {
        let m = (n - 1) as nat;
        lists_name_what_is_requested(requests, rasters, m, image_id, key, item);
        match requests[n - 1] {
            ResourceRequest::Image(other) => lemma_contains_push(listed_images(requests, m), other, image_id),
            ResourceRequest::Glyph(other) => lemma_contains_push(listed_glyphs(requests, m), other, key),
            _ => {
                match rasters[n - 1] {
                    Some(other) => lemma_contains_push(listed_rasters(requests, rasters, m), other, item),
                    None => {},
                }
            },
        }
    }
}

/// A mask that was noted is found, one that was not is missing, and where no mask is needed the dummy is
/// taken.
pub proof fn noted_masks_are_found(map: Map<RasterItem, ImageID>, item: RasterItem, image_id: ImageID)
    ensures
        mask_choice(map.insert(item, image_id), Some(item)) == MaskChoice::Cached(image_id),
        mask_choice(map.remove(item), Some(item)) == MaskChoice::Missing(item),
        mask_choice(map, None) is Dummy,
        forall|other: RasterItem|
            other != item ==> mask_choice(map.insert(item, image_id), Some(other)) == #[trigger] mask_choice(
                map,
                Some(other),
            ),
{
}

/// A round corner is as round across as it is down, and has no hole.
pub proof fn round_corners_are_round(radius: i32)
    ensures
        round_corner(radius) matches RasterItem::BorderRadius(op) && op.outer_radius_x == radius && op.outer_radius_y
            == radius && op.inner_radius_x == 0 && op.inner_radius_y == 0,
{
}

/// Whether a key is that of a glyph of a run.
pub open spec fn is_key_of(key: GlyphKey, text: TextView, g: int) -> bool {
    &&& key.font_id == text.font_id
    &&& key.size == text.size
    &&& key.blur_radius == text.blur_radius
    &&& key.index == text.glyphs[g].index
}

/// Whether a key is that of the first glyph of a run that has no image.
pub open spec fn is_first_missing(map: Map<GlyphKey, ImageID>, text: TextView, missing: GlyphKey, g: int) -> bool {
    &&& is_key_of(missing, text, g)
    &&& !map.contains_key(missing)
    &&& forall|h: int, key: GlyphKey| 0 <= h < g && #[trigger] is_key_of(key, text, h) ==> map.contains_key(key)
}

/// A text run has an image for each of its glyphs, in their order; where one is missing, the first that is
/// is named.
pub proof fn runs_have_an_image_for_each_glyph(map: Map<GlyphKey, ImageID>, text: TextView, n: nat)
    requires
        n <= text.glyphs.len(),
    ensures
        run_images(map, text, n) matches Ok(images) ==> images.len() == n,
        run_images(map, text, n) matches Ok(images) ==> forall|g: int, key: GlyphKey|
            0 <= g < n && #[trigger] is_key_of(key, text, g) ==> map.contains_key(key) && images[g] == map[key],
        run_images(map, text, n) is Err ==> exists|g: int|
            0 <= g < n && #[trigger] is_first_missing(map, text, run_images(map, text, n)->Err_0, g),
    decreases n,
{
    if n > 0 {
        runs_have_an_image_for_each_glyph(map, text, (n - 1) as nat);
        let own = GlyphKey {
            font_id: text.font_id,
            size: text.size,
            blur_radius: text.blur_radius,
            index: text.glyphs[n - 1].index,
        };
        assert(is_key_of(own, text, n - 1));
        match run_images(map, text, (n - 1) as nat) {
            Ok(images) => {
                assert forall|key: GlyphKey| #[trigger] is_key_of(key, text, n - 1) implies key == own by {}
                if map.contains_key(own) {
                    let all = images.push(map[own]);
                    assert(run_images(map, text, n) is Ok && run_images(map, text, n)->Ok_0 == all);
                    assert forall|g: int, key: GlyphKey| 0 <= g < n && #[trigger] is_key_of(
                        key,
                        text,
                        g,
                    ) implies map.contains_key(key) && all[g] == map[key] by {
                        if g < n - 1 {
                            assert(all[g] == images[g]);
                        } else {
                            assert(key == own);
                        }
                    }
                } else {
                    assert(run_images(map, text, n) is Err && run_images(map, text, n)->Err_0 == own);
                    assert(is_first_missing(map, text, own, n - 1));
                }
            },
            Err(missing) => {
                assert(run_images(map, text, n) is Err && run_images(map, text, n)->Err_0 == missing);
            },
        }
    }
}

} // verus!
