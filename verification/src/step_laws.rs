//! What a node does with the items that it meets.
use crate::ids::{DisplayItemKey, NodeIndex, RenderTargetIndex};
use crate::meaning::lemma_either;
use crate::scene::FlatDrawList;
use crate::steps::{item_step, item_steps, NodeStep};
use vstd::prelude::*;

verus! {

/// The node that an item was placed in.
pub open spec fn placed_in(flat: Seq<FlatDrawList>, key: DisplayItemKey) -> Option<NodeIndex> {
    flat[key.draw_list_index.0 as int].draw_list.items@[key.item_index.0 as int].node_index
}

/// A node draws exactly those of the items that it meets that were placed in it and that their clip leaves
/// something of.  It closes the builder of a target exactly for an item that another node holds, that overlaps
/// it, and whose draw list is painted on that target; an item that no node holds does nothing.
pub proof fn steps_follow_the_items(
    flat: Seq<FlatDrawList>,
    node: NodeIndex,
    walk: Seq<DisplayItemKey>,
    clips_visible: Seq<bool>,
    overlaps: Seq<bool>,
    n: nat,
    key: DisplayItemKey,
    target: RenderTargetIndex,
)
    requires
        n <= walk.len(),
        clips_visible.len() == walk.len(),
        overlaps.len() == walk.len(),
    ensures
        item_steps(flat, node, walk, clips_visible, overlaps, n).contains(NodeStep::Draw(key)) <==> exists|i: int|
            0 <= i < n && #[trigger] walk[i] == key && placed_in(flat, key) == Some(node) && clips_visible[i],
        item_steps(flat, node, walk, clips_visible, overlaps, n).contains(NodeStep::Flush(target)) <==> exists|i: int|
            0 <= i < n && flat[(#[trigger] walk[i]).draw_list_index.0 as int].draw_context.render_target_index == target
                && placed_in(flat, walk[i]) is Some && placed_in(flat, walk[i]) != Some(node) && overlaps[i],
        item_steps(flat, node, walk, clips_visible, overlaps, n).len() <= n,
    decreases n,
{
    if n > 0 {
        let m = (n - 1) as nat;
        steps_follow_the_items(flat, node, walk, clips_visible, overlaps, m, key, target);
        let before = item_steps(flat, node, walk, clips_visible, overlaps, m);
        let now = item_step(flat, node, walk[n - 1], clips_visible[n - 1], overlaps[n - 1]);
        assert(item_steps(flat, node, walk, clips_visible, overlaps, n) == before + now);
        lemma_either(before, now, NodeStep::Draw(key));
        lemma_either(before, now, NodeStep::Flush(target));
        assert(now.len() <= 1);
        if now.len() == 1 {
            assert(now.contains(now[0]));
        }
        assert(now.contains(NodeStep::Draw(key)) <==> walk[n - 1] == key && placed_in(flat, key) == Some(node)
            && clips_visible[n - 1]);
        assert(now.contains(NodeStep::Flush(target)) <==> flat[walk[n
            - 1].draw_list_index.0 as int].draw_context.render_target_index == target && placed_in(flat, walk[n - 1])
            is Some && placed_in(flat, walk[n - 1]) != Some(node) && overlaps[n - 1]);
    }
}

} // verus!
