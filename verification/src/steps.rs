//! What compiling a node does with the items that it meets.
use crate::ids::{DisplayItemKey, NodeIndex, RenderTargetIndex};
use crate::items::{get_item_and_draw_context, holds, span, walk_meets_every_item, walkable, DisplayItemIterator};
use crate::node::AABBTreeNode;
use crate::scene::FlatDrawList;
use vstd::prelude::*;

verus! {

/// A step of compiling a node.
#[derive(Clone, Copy, Debug, PartialEq, Eq, Structural)]
pub enum NodeStep {
    /// An item of the node is drawn, with the builder of its target.
    Draw(DisplayItemKey),
    /// The builder of a target is closed.
    Flush(RenderTargetIndex),
}

/// The node that holds the item under a key, if one does.
pub open spec fn holder(flat: Seq<FlatDrawList>, key: DisplayItemKey) -> Option<NodeIndex> {
    flat[key.draw_list_index.0 as int].draw_list.items@[key.item_index.0 as int].node_index
}

/// The target that the item under a key is drawn into.
pub open spec fn target_of(flat: Seq<FlatDrawList>, key: DisplayItemKey) -> RenderTargetIndex {
    flat[key.draw_list_index.0 as int].draw_context.render_target_index
}

/// Whether an item is drawn when a node meets it: the node holds it, and its clip leaves
/// something of it.
pub open spec fn is_drawn(flat: Seq<FlatDrawList>, node: NodeIndex, key: DisplayItemKey, clip_visible: bool) -> bool {
    holder(flat, key) == Some(node) && clip_visible
}

/// Whether an item closes the builder of its target: another node holds it, and the two overlap.
pub open spec fn is_barrier(flat: Seq<FlatDrawList>, node: NodeIndex, key: DisplayItemKey, overlap: bool) -> bool {
    holder(flat, key) is Some && holder(flat, key) != Some(node) && overlap
}

/// What a node does with an item that it meets.
pub open spec fn item_step(
    flat: Seq<FlatDrawList>,
    node: NodeIndex,
    key: DisplayItemKey,
    clip_visible: bool,
    overlap: bool,
) -> Seq<NodeStep> {
    if is_drawn(flat, node, key, clip_visible) {
        seq![NodeStep::Draw(key)]
    } else if is_barrier(flat, node, key, overlap) {
        seq![NodeStep::Flush(target_of(flat, key))]
    } else {
        Seq::empty()
    }
}

/// What a node does with the first `n` items that it meets.
pub open spec fn item_steps(
    flat: Seq<FlatDrawList>,
    node: NodeIndex,
    walk: Seq<DisplayItemKey>,
    clips_visible: Seq<bool>,
    overlaps: Seq<bool>,
    n: nat,
) -> Seq<NodeStep>
    decreases n,
{
    if n == 0 {
        Seq::empty()
    } else {
        item_steps(flat, node, walk, clips_visible, overlaps, (n - 1) as nat) + item_step(
            flat,
            node,
            walk[n - 1],
            clips_visible[n - 1],
            overlaps[n - 1],
        )
    }
}

/// Whether the items of a node, if it has any, can be walked over.
pub open spec fn node_walkable(flat: Seq<FlatDrawList>, src_items: Seq<DisplayItemKey>) -> bool {
    src_items.len() > 0 ==> walkable(flat, src_items[0], src_items.last())
}

/// The keys that a node meets: everything from the first to the last of its items.
pub open spec fn node_walk(flat: Seq<FlatDrawList>, src_items: Seq<DisplayItemKey>) -> Seq<DisplayItemKey> {
    if src_items.len() == 0 {
        Seq::empty()
    } else {
        let first = src_items[0];
        let last = src_items.last();
        span(
            flat,
            first.draw_list_index.0 as int,
            first.item_index.0 as int,
            last.draw_list_index.0 as int,
            last.item_index.0 + 1,
        )
    }
}

/// There is an item under every key of a walk.
proof fn lemma_walk_holds(flat: Seq<FlatDrawList>, src_items: Seq<DisplayItemKey>, i: int)
    requires
        node_walkable(flat, src_items),
        0 <= i < node_walk(flat, src_items).len(),
    ensures
        holds(flat, node_walk(flat, src_items)[i]),
{
    let walk = node_walk(flat, src_items);
    walk_meets_every_item(flat, src_items[0], src_items.last(), walk[i]);
    assert(walk.contains(walk[i]));
}

impl AABBTreeNode {
    /// The keys that the node meets when it is compiled, in painting order.
    pub fn walk(&self, flat_draw_lists: &Vec<FlatDrawList>) -> (walk: Vec<DisplayItemKey>)
        requires
            node_walkable(flat_draw_lists@, self.src_items@),
        ensures
            walk@ == node_walk(flat_draw_lists@, self.src_items@),
            forall|i: int| 0 <= i < walk@.len() ==> holds(flat_draw_lists@, #[trigger] walk@[i]),
    {
        let mut walk: Vec<DisplayItemKey> = Vec::new();
        let ghost all = node_walk(flat_draw_lists@, self.src_items@);
        let mut keys = DisplayItemIterator::new(flat_draw_lists, &self.src_items);
        loop
            invariant
                keys.wf(),
                walk@ + keys.remaining() == all,
            ensures
                walk@ == all,
            decreases keys.remaining().len(),
        {
            let ghost before = keys.remaining();
            match keys.next() {
                None => {
                    assert(walk@ =~= walk@ + before);
                    break ;
                },
                Some(key) => {
                    let ghost done = walk@;
                    walk.push(key);
                    assert(walk@ + keys.remaining() =~= done + before);
                },
            }
        }
        proof {
            assert forall|i: int| 0 <= i < walk@.len() implies holds(flat_draw_lists@, #[trigger] walk@[i]) by {
                lemma_walk_holds(flat_draw_lists@, self.src_items@, i);
            }
        }
        walk
    }

    /// What is to be done to compile the node, in order.
    ///
    /// An item of the node is drawn if its clip leaves something of it, which `clips_visible` says
    /// of each item that the node meets.  An item of another node that overlaps this one, which
    /// `overlaps` says, closes the builder of its target, so that its place in painting order is
    /// kept free.
    pub fn compile(
        &self,
        flat_draw_lists: &Vec<FlatDrawList>,
        clips_visible: &Vec<bool>,
        overlaps: &Vec<bool>,
    ) -> (steps: Vec<NodeStep>)
        requires
            node_walkable(flat_draw_lists@, self.src_items@),
            clips_visible@.len() == node_walk(flat_draw_lists@, self.src_items@).len(),
            overlaps@.len() == node_walk(flat_draw_lists@, self.src_items@).len(),
        ensures
            steps@ == item_steps(
                flat_draw_lists@,
                self.node_index,
                node_walk(flat_draw_lists@, self.src_items@),
                clips_visible@,
                overlaps@,
                node_walk(flat_draw_lists@, self.src_items@).len(),
            ),
    {
        let walk = self.walk(flat_draw_lists);
        let mut steps: Vec<NodeStep> = Vec::new();
        let mut n: usize = 0;
        while n < walk.len()
            invariant
                n <= walk@.len(),
                clips_visible@.len() == walk@.len(),
                overlaps@.len() == walk@.len(),
                forall|i: int| 0 <= i < walk@.len() ==> holds(flat_draw_lists@, #[trigger] walk@[i]),
                steps@ == item_steps(
                    flat_draw_lists@,
                    self.node_index,
                    walk@,
                    clips_visible@,
                    overlaps@,
                    n as nat,
                ),
            decreases walk@.len() - n,
        {
            let key = walk[n];
            let (item, context) = get_item_and_draw_context(flat_draw_lists, &key);
            let ghost before = steps@;
            if let Some(index) = item.node_index {
                if index == self.node_index {
                    if clips_visible[n] {
                        steps.push(NodeStep::Draw(key));
                    }
                } else if overlaps[n] {
                    steps.push(NodeStep::Flush(context.render_target_index));
                }
            }
            assert(steps@ =~= before + item_step(
                flat_draw_lists@,
                self.node_index,
                key,
                clips_visible@[n as int],
                overlaps@[n as int],
            ));
            n = n + 1;
        }
        steps
    }
}

/// What is done with the first items stays as it is, however many more are met.
proof fn lemma_steps_prefix(
    flat: Seq<FlatDrawList>,
    node: NodeIndex,
    walk: Seq<DisplayItemKey>,
    clips_visible: Seq<bool>,
    overlaps: Seq<bool>,
    m: nat,
    n: nat,
)
    requires
        m <= n,
    ensures
        ({
            let few = item_steps(flat, node, walk, clips_visible, overlaps, m);
            let many = item_steps(flat, node, walk, clips_visible, overlaps, n);
            few.len() <= many.len() && forall|s: int| 0 <= s < few.len() ==> few[s] == many[s]
        }),
    decreases n,
{
    if m < n {
        lemma_steps_prefix(flat, node, walk, clips_visible, overlaps, m, (n - 1) as nat);
    }
}

/// Painting order is kept around the items of other nodes: where such an item lies between two
/// items that are drawn, and its node overlaps this one, its target is closed after the first of
/// them has been drawn and before the second is.
pub proof fn others_keep_their_place(
    flat: Seq<FlatDrawList>,
    node: NodeIndex,
    walk: Seq<DisplayItemKey>,
    clips_visible: Seq<bool>,
    overlaps: Seq<bool>,
    i: int,
    j: int,
    k: int,
)
    requires
        0 <= i < j < k < walk.len(),
        is_drawn(flat, node, walk[i], clips_visible[i]),
        is_barrier(flat, node, walk[j], overlaps[j]),
        is_drawn(flat, node, walk[k], clips_visible[k]),
    ensures
        ({
            let steps = item_steps(flat, node, walk, clips_visible, overlaps, walk.len());
            exists|a: int, b: int, c: int|
                #![trigger steps[a], steps[b], steps[c]]
                0 <= a < b < c < steps.len() && steps[a] == NodeStep::Draw(walk[i]) && steps[b]
                    == NodeStep::Flush(target_of(flat, walk[j])) && steps[c] == NodeStep::Draw(walk[k])
        }),
{
    let steps = item_steps(flat, node, walk, clips_visible, overlaps, walk.len());
    let a = item_steps(flat, node, walk, clips_visible, overlaps, i as nat).len() as int;
    let b = item_steps(flat, node, walk, clips_visible, overlaps, j as nat).len() as int;
    let c = item_steps(flat, node, walk, clips_visible, overlaps, k as nat).len() as int;
    let after_a = item_steps(flat, node, walk, clips_visible, overlaps, (i + 1) as nat);
    let after_b = item_steps(flat, node, walk, clips_visible, overlaps, (j + 1) as nat);
    let after_c = item_steps(flat, node, walk, clips_visible, overlaps, (k + 1) as nat);
    lemma_steps_prefix(flat, node, walk, clips_visible, overlaps, (i + 1) as nat, j as nat);
    lemma_steps_prefix(flat, node, walk, clips_visible, overlaps, (j + 1) as nat, k as nat);
    lemma_steps_prefix(flat, node, walk, clips_visible, overlaps, (i + 1) as nat, walk.len());
    lemma_steps_prefix(flat, node, walk, clips_visible, overlaps, (j + 1) as nat, walk.len());
    lemma_steps_prefix(flat, node, walk, clips_visible, overlaps, (k + 1) as nat, walk.len());
    assert(after_a[a] == NodeStep::Draw(walk[i]));
    assert(after_b[b] == NodeStep::Flush(target_of(flat, walk[j])));
    assert(after_c[c] == NodeStep::Draw(walk[k]));
    assert(steps[a] == NodeStep::Draw(walk[i]) && steps[b] == NodeStep::Flush(target_of(flat, walk[j]))
        && steps[c] == NodeStep::Draw(walk[k]));
}

/// An item is drawn exactly if the node meets it, holds it, and its clip leaves something of it.
pub proof fn own_items_are_drawn(
    flat: Seq<FlatDrawList>,
    node: NodeIndex,
    walk: Seq<DisplayItemKey>,
    clips_visible: Seq<bool>,
    overlaps: Seq<bool>,
    key: DisplayItemKey,
    n: nat,
)
    requires
        n <= walk.len(),
    ensures
        item_steps(flat, node, walk, clips_visible, overlaps, n).contains(NodeStep::Draw(key)) <==> exists|i: int|
            0 <= i < n && #[trigger] walk[i] == key && is_drawn(flat, node, key, clips_visible[i]),
    decreases n,
{
    let steps = item_steps(flat, node, walk, clips_visible, overlaps, n);
    if n > 0 {
        own_items_are_drawn(flat, node, walk, clips_visible, overlaps, key, (n - 1) as nat);
        let before = item_steps(flat, node, walk, clips_visible, overlaps, (n - 1) as nat);
        let step = item_step(flat, node, walk[n - 1], clips_visible[n - 1], overlaps[n - 1]);
        if before.contains(NodeStep::Draw(key)) {
            let s = before.index_of(NodeStep::Draw(key));
            assert(steps[s] == NodeStep::Draw(key));
        }
        if step.contains(NodeStep::Draw(key)) {
            assert(steps[before.len() as int] == NodeStep::Draw(key));
            assert(walk[n - 1] == key);
        }
        if steps.contains(NodeStep::Draw(key)) {
            let s = steps.index_of(NodeStep::Draw(key));
            if s < before.len() {
                assert(before[s] == NodeStep::Draw(key));
            } else {
                assert(step[s - before.len()] == NodeStep::Draw(key));
            }
        }
        if walk[n - 1] == key && is_drawn(flat, node, key, clips_visible[n - 1]) {
            assert(step[0] == NodeStep::Draw(key));
        }
    }
}

} // verus!
