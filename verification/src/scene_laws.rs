//! What becomes of a scene and of the lists of a document.
use crate::batch::{RenderBatch, UpdateView};
use crate::display::DisplayList;
use crate::geometry::Point2D;
use crate::ids::{DrawListID, Epoch, NodeIndex, PipelineId, TextureId};
use crate::lists::{names, stale_ids, stale_keys};
use crate::meaning::{lemma_amount, lemma_either, spot, Spot};
use crate::node::AABBTreeNode;
use crate::phase_laws::own_list;
use crate::phases::{slot, slots};
use crate::scalar::Scalar;
use crate::scene::{all_destroyed, clamped, destroyed, index32, scrolled, target_textures, FlatView, TargetView};
use crate::tree::{all_placed, bound, offscreen, one_for_each};
use vstd::prelude::*;

verus! {

/// A count that fits into thirty-two bits is its own index.
pub proof fn small_counts_are_indices(n: nat)
    requires
        n <= u32::MAX,
    ensures
        index32(n) == n,
{
}

/// Scrolling moves the offset by the distance, in both directions.
pub proof fn scrolling_adds_the_distance(offset: Point2D, delta: Point2D, v: spec_fn(Scalar) -> real)
    ensures
        spot(scrolled(offset, delta), v) == (Spot { x: v(offset.x) + v(delta.x), y: v(offset.y) + v(delta.y) }),
{
    broadcast use lemma_amount;
}

/// An offset is kept where it does not lie past the start of the content, in each direction by itself; where
/// it does, or is no number, the content is put to its start.
pub proof fn scrolling_stops_at_the_start(offset: Point2D)
    ensures
        ({
            let kept = clamped(offset);
            &&& !offset.x.nan() && offset.x.value() <= 0 ==> kept.x == offset.x
            &&& offset.x.nan() || offset.x.value() > 0 ==> !kept.x.nan() && kept.x.value() == 0
            &&& !offset.y.nan() && offset.y.value() <= 0 ==> kept.y == offset.y
            &&& offset.y.nan() || offset.y.value() > 0 ==> !kept.y.nan() && kept.y.value() == 0
        }),
{
}

/// The batches of a tree.
pub open spec fn batches_of(node: AABBTreeNode) -> Seq<RenderBatch> {
    if node.compiled_node is Some {
        node.compiled_node.unwrap().batches@
    } else {
        Seq::empty()
    }
}

/// Clearing a tree destroys the batches that its nodes hold, every one of them and nothing else.
pub proof fn every_batch_is_destroyed(nodes: Seq<AABBTreeNode>, n: nat, update: UpdateView)
    requires
        n <= nodes.len(),
    ensures
        all_destroyed(nodes, n).contains(update) <==> update.op is Destroy && exists|i: int, b: int|
            0 <= i < n && 0 <= b < batches_of(nodes[i]).len() && (#[trigger] batches_of(nodes[i])[b]).batch_id
                == update.id,
    decreases n,
{
    if n > 0 {
        let m = (n - 1) as nat;
        every_batch_is_destroyed(nodes, m, update);
        let before = all_destroyed(nodes, m);
        let now = destroyed(nodes[n - 1]);
        let all = all_destroyed(nodes, n);
        assert(all == before + now);
        let held = batches_of(nodes[n - 1]);
        assert(now.len() == held.len());
        assert forall|b: int| 0 <= b < held.len() implies (#[trigger] now[b]).op is Destroy && now[b].id
            == held[b].batch_id by {}
        if all.contains(update) {
            let k = choose|k: int| 0 <= k < all.len() && all[k] == update;
            if k < before.len() {
                assert(before[k] == update);
                assert(before.contains(update));
            } else {
                let b = k - before.len();
                assert(now[b] == update);
                assert(batches_of(nodes[n - 1])[b].batch_id == update.id);
            }
        }
        if update.op is Destroy && exists|i: int, b: int|
            0 <= i < n && 0 <= b < batches_of(nodes[i]).len() && (#[trigger] batches_of(nodes[i])[b]).batch_id
                == update.id {
            let (i, b) = choose|i: int, b: int|
                0 <= i < n && 0 <= b < batches_of(nodes[i]).len() && (#[trigger] batches_of(nodes[i])[b]).batch_id
                    == update.id;
            if i < m {
                assert(before.contains(update));
                let k = choose|k: int| 0 <= k < before.len() && before[k] == update;
                assert(all[k] == update);
            } else {
                assert(now[b].op is Destroy && now[b].id == update.id);
                assert(now[b] == update);
                assert(all[before.len() + b] == update);
            }
        }
    }
}

/// The textures that are freed with a scene are those of its targets, every one of them and nothing else.
pub proof fn every_target_texture_is_freed(targets: Seq<TargetView>, n: nat, texture_id: TextureId)
    requires
        n <= targets.len(),
    ensures
        target_textures(targets, n).contains(texture_id) <==> exists|t: int|
            0 <= t < n && (#[trigger] targets[t]).texture_id == Some(texture_id),
    decreases n,
{
    if n > 0 {
        let m = (n - 1) as nat;
        every_target_texture_is_freed(targets, m, texture_id);
        let before = target_textures(targets, m);
        let all = target_textures(targets, n);
        match targets[n - 1].texture_id {
            Some(own) => {
                assert(all == before.push(own));
                if before.contains(texture_id) {
                    let k = choose|k: int| 0 <= k < before.len() && before[k] == texture_id;
                    assert(all[k] == texture_id);
                }
                assert(all[before.len() as int] == own);
                if all.contains(texture_id) && texture_id != own {
                    let k = choose|k: int| 0 <= k < all.len() && all[k] == texture_id;
                    assert(before[k] == texture_id);
                }
            },
            None => {},
        }
    }
}

/// Every target but the window needs a texture as large as it is, and gets its own; nothing else about the
/// targets changes.
pub proof fn targets_get_their_textures(targets: Seq<TargetView>, textures: Seq<TextureId>)
    requires
        targets.len() > 0,
        textures.len() == offscreen(targets).len(),
    ensures
        offscreen(targets).len() + 1 == targets.len(),
        forall|t: int| 1 <= t < targets.len() ==> offscreen(targets)[t - 1] == (#[trigger] targets[t]).size,
        bound(targets, textures).len() == targets.len(),
        bound(targets, textures)[0] == targets[0],
        forall|t: int|
            1 <= t < targets.len() ==> (#[trigger] bound(targets, textures)[t]).texture_id == Some(textures[t - 1])
                && bound(targets, textures)[t].size == targets[t].size && bound(targets, textures)[t].lists
                == targets[t].lists,
{
}

/// Placing the items of a scene tells each which node holds it, and changes nothing else.
pub proof fn items_are_placed_in_their_nodes(flat: Seq<FlatView>, placements: Seq<Vec<Option<NodeIndex>>>, l: int, i: int)
    requires
        one_for_each(flat, placements),
        0 <= l < flat.len(),
        0 <= i < flat[l].items.len(),
    ensures
        ({
            let after = all_placed(flat, placements);
            &&& after.len() == flat.len()
            &&& after[l].id == flat[l].id
            &&& after[l].draw_context == flat[l].draw_context
            &&& after[l].items.len() == flat[l].items.len()
            &&& after[l].items[i].node_index == placements[l]@[i]
            &&& after[l].items[i].item == flat[l].items[i].item
            &&& after[l].items[i].rect == flat[l].items[i].rect
            &&& after[l].items[i].clip == flat[l].items[i].clip
        }),
{
}

/// The display lists that are removed for a new generation of a pipeline are those of that pipeline that are
/// older, and the draw lists that are removed are those that one of them has for one of its phases.
pub proof fn older_lists_are_stale(
    display_lists: Map<u64, DisplayList>,
    pipeline_id: PipelineId,
    epoch: Epoch,
    key: u64,
    id: u64,
)
    ensures
        stale_keys(display_lists, pipeline_id, epoch).contains(key) <==> {
            &&& display_lists.contains_key(key)
            &&& display_lists[key].pipeline_id == pipeline_id
            &&& display_lists[key].epoch.0 < epoch.0
        },
        stale_ids(display_lists, pipeline_id, epoch).contains(id) <==> exists|other: u64, k: int| #[trigger]
            stale_keys(display_lists, pipeline_id, epoch).contains(other) && 0 <= k < 6 && #[trigger] own_list(
                display_lists[other],
                k,
            ) == Some(DrawListID(id)),
{
    let keys = stale_keys(display_lists, pipeline_id, epoch);
    if stale_ids(display_lists, pipeline_id, epoch).contains(id) {
        let other = choose|other: u64| #[trigger]
            keys.contains(other) && names(display_lists[other], id);
        lemma_named(display_lists[other], id);
        let k = choose|k: int| 0 <= k < 6 && #[trigger] own_list(display_lists[other], k) == Some(DrawListID(id));
        assert(keys.contains(other) && own_list(display_lists[other], k) == Some(DrawListID(id)));
    }
    if exists|other: u64, k: int| #[trigger]
        keys.contains(other) && 0 <= k < 6 && #[trigger] own_list(display_lists[other], k) == Some(DrawListID(id)) {
        let (other, k) = choose|other: u64, k: int| #[trigger]
            keys.contains(other) && 0 <= k < 6 && #[trigger] own_list(display_lists[other], k) == Some(
                DrawListID(id),
            );
        lemma_named(display_lists[other], id);
        assert(keys.contains(other) && names(display_lists[other], id));
    }
}

/// A display list names the draw lists that it has for its phases.
proof fn lemma_named(list: DisplayList, id: u64)
    ensures
        slots(list).contains(DrawListID(id)) <==> exists|k: int|
            0 <= k < 6 && #[trigger] own_list(list, k) == Some(DrawListID(id)),
{
    let x = DrawListID(id);
    let s0 = slot(list.background_and_borders_id);
    let s1 = slot(list.block_backgrounds_and_borders_id);
    let s2 = slot(list.floats_id);
    let s3 = slot(list.content_id);
    let s4 = slot(list.positioned_content_id);
    let s5 = slot(list.outlines_id);
    lemma_slot(list.background_and_borders_id, x);
    lemma_slot(list.block_backgrounds_and_borders_id, x);
    lemma_slot(list.floats_id, x);
    lemma_slot(list.content_id, x);
    lemma_slot(list.positioned_content_id, x);
    lemma_slot(list.outlines_id, x);
    lemma_either(s0, s1, x);
    lemma_either(s0 + s1, s2, x);
    lemma_either(s0 + s1 + s2, s3, x);
    lemma_either(s0 + s1 + s2 + s3, s4, x);
    lemma_either(s0 + s1 + s2 + s3 + s4, s5, x);
    assert(own_list(list, 0) == list.background_and_borders_id);
    assert(own_list(list, 1) == list.block_backgrounds_and_borders_id);
    assert(own_list(list, 2) == list.floats_id);
    assert(own_list(list, 3) == list.content_id);
    assert(own_list(list, 4) == list.positioned_content_id);
    assert(own_list(list, 5) == list.outlines_id);
}

proof fn lemma_slot(id: Option<DrawListID>, x: DrawListID)
    ensures
        slot(id).contains(x) <==> id == Some(x),
{
    if id is Some {
        assert(slot(id)[0] == id.unwrap());
    }
}

} // verus!
