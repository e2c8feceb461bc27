//! The order in which a node is drawn.
use crate::batch::{CompiledNode, DrawCommand};
use crate::builder::added;
use crate::compile::NodeCompiler;
use crate::frame::in_painting_order;
use crate::ids::{DisplayItemKey, NodeIndex, RenderTargetIndex};
use crate::items::walk_is_in_order;
use crate::scene::FlatDrawList;
use crate::steps::{item_step, item_steps, node_walk, node_walkable, target_of, NodeStep};
use crate::visible::on_target;
use vstd::prelude::*;

verus! {

/// What a step does to the commands of one target: drawing an item adds commands in the item's
/// place to the target of the item, and nothing to any other; closing a builder adds none.
pub open spec fn step_done(
    flat: Seq<FlatDrawList>,
    step: NodeStep,
    target: RenderTargetIndex,
    before: Seq<DrawCommand>,
    after: Seq<DrawCommand>,
) -> bool {
    match step {
        NodeStep::Draw(key) if target_of(flat, key) == target => added(before, after, key),
        _ => after == before,
    }
}

/// The node in the making, before the first step and after each: nothing is drawn into the target at
/// first, and then what the steps add.
pub open spec fn steps_done(
    flat: Seq<FlatDrawList>,
    steps: Seq<NodeStep>,
    target: RenderTargetIndex,
    states: Seq<NodeCompiler>,
) -> bool {
    &&& states.len() == steps.len() + 1
    &&& states[0].drawn(target).len() == 0
    &&& forall|s: int|
        0 <= s < steps.len() ==> step_done(
            flat,
            #[trigger] steps[s],
            target,
            states[s].drawn(target),
            states[s + 1].drawn(target),
        )
}

/// Items are drawn in the order in which the node meets them.
proof fn lemma_draws_in_order(
    flat: Seq<FlatDrawList>,
    node: NodeIndex,
    walk: Seq<DisplayItemKey>,
    clips_visible: Seq<bool>,
    overlaps: Seq<bool>,
    n: nat,
)
    requires
        n <= walk.len(),
        forall|i: int, j: int| 0 <= i < j < walk.len() ==> (#[trigger] walk[i]).before(#[trigger] walk[j]),
    ensures
        ({
            let steps = item_steps(flat, node, walk, clips_visible, overlaps, n);
            &&& forall|s: int|
                0 <= s < steps.len() ==> ((#[trigger] steps[s]) matches NodeStep::Draw(key) ==> walk.take(
                    n as int,
                ).contains(key))
            &&& forall|s: int, t: int|
                0 <= s < t < steps.len() && (#[trigger] steps[s]) is Draw && (#[trigger] steps[t]) is Draw
                    ==> steps[s]->Draw_0.before(steps[t]->Draw_0)
        }),
    decreases n,
{
    if n > 0 {
        let steps = item_steps(flat, node, walk, clips_visible, overlaps, n);
        let few = item_steps(flat, node, walk, clips_visible, overlaps, (n - 1) as nat);
        let step = item_step(flat, node, walk[n - 1], clips_visible[n - 1], overlaps[n - 1]);
        lemma_draws_in_order(flat, node, walk, clips_visible, overlaps, (n - 1) as nat);
        assert forall|s: int| 0 <= s < few.len() && (#[trigger] few[s]) is Draw implies exists|i: int|
            0 <= i < n - 1 && #[trigger] walk[i] == few[s]->Draw_0 by {
            let i = walk.take(n - 1).index_of(few[s]->Draw_0);
            assert(walk.take(n - 1)[i] == walk[i]);
        }
        assert forall|s: int| 0 <= s < steps.len() && (#[trigger] steps[s]) is Draw implies walk.take(
            n as int,
        ).contains(steps[s]->Draw_0) by {
            if s < few.len() {
                assert(steps[s] == few[s]);
                let i = choose|i: int| 0 <= i < n - 1 && #[trigger] walk[i] == few[s]->Draw_0;
                assert(walk.take(n as int)[i] == few[s]->Draw_0);
            } else {
                assert(steps[s] == step[s - few.len()]);
                assert(walk.take(n as int)[n - 1] == walk[n - 1]);
            }
        }
        assert forall|s: int, t: int|
            0 <= s < t < steps.len() && (#[trigger] steps[s]) is Draw && (
            #[trigger] steps[t]) is Draw implies steps[s]->Draw_0.before(steps[t]->Draw_0) by {
            assert(steps[s] == few[s]);
            if t < few.len() {
                assert(steps[t] == few[t]);
            } else {
                assert(steps[t] == step[t - few.len()]);
                let i = choose|i: int| 0 <= i < n - 1 && #[trigger] walk[i] == few[s]->Draw_0;
                assert(walk[i].before(walk[n - 1]));
            }
        }
    }
}

/// After some steps, the commands are in painting order, and none has a place that was not drawn.
proof fn lemma_drawn_in_order(
    flat: Seq<FlatDrawList>,
    steps: Seq<NodeStep>,
    target: RenderTargetIndex,
    states: Seq<NodeCompiler>,
    n: int,
)
    requires
        0 <= n <= steps.len(),
        steps_done(flat, steps, target, states),
        forall|s: int, t: int|
            0 <= s < t < steps.len() && (#[trigger] steps[s]) is Draw && (#[trigger] steps[t]) is Draw
                ==> steps[s]->Draw_0.before(steps[t]->Draw_0),
    ensures
        in_painting_order(states[n].drawn(target)),
        forall|c: int|
            0 <= c < states[n].drawn(target).len() ==> exists|s: int|
                0 <= s < n && #[trigger] steps[s] == NodeStep::Draw((#[trigger] states[n].drawn(target)[c]).sort_key),
    decreases n,
{
    if n > 0 {
        lemma_drawn_in_order(flat, steps, target, states, n - 1);
        let before = states[n - 1].drawn(target);
        let after = states[n].drawn(target);
        let step = steps[n - 1];
        assert(step_done(flat, step, target, before, states[n - 1 + 1].drawn(target)));
        assert forall|c: int| 0 <= c < after.len() implies exists|s: int|
            0 <= s < n && #[trigger] steps[s] == NodeStep::Draw((#[trigger] after[c]).sort_key) by {
            if c < before.len() {
                assert(after[c] == before[c]);
                let s = choose|s: int|
                    0 <= s < n - 1 && #[trigger] steps[s] == NodeStep::Draw(before[c].sort_key);
                assert(steps[s] == NodeStep::Draw(after[c].sort_key));
            } else {
                assert(steps[n - 1] == NodeStep::Draw(after[c].sort_key));
            }
        }
        assert forall|i: int, j: int| 0 <= i < j < after.len() implies !(#[trigger] after[j]).sort_key.before(
            (#[trigger] after[i]).sort_key,
        ) by {
            if j < before.len() {
                assert(after[i] == before[i] && after[j] == before[j]);
            } else {
                assert(steps[n - 1] == NodeStep::Draw(after[j].sort_key));
                if i < before.len() {
                    assert(after[i] == before[i]);
                    let s = choose|s: int|
                        0 <= s < n - 1 && #[trigger] steps[s] == NodeStep::Draw(before[i].sort_key);
                    assert(steps[s]->Draw_0.before(steps[n - 1]->Draw_0));
                }
            }
        }
    }
}

/// In a node whose steps have been done one after the other, and which was then finished, the
/// commands of each target come in painting order: none has a place before that of one in front of it.
pub proof fn nodes_are_drawn_in_order(
    flat: Seq<FlatDrawList>,
    node: NodeIndex,
    src_items: Seq<DisplayItemKey>,
    clips_visible: Seq<bool>,
    overlaps: Seq<bool>,
    target: RenderTargetIndex,
    states: Seq<NodeCompiler>,
    compiled: CompiledNode,
)
    requires
        node_walkable(flat, src_items),
        ({
            let walk = node_walk(flat, src_items);
            steps_done(flat, item_steps(flat, node, walk, clips_visible, overlaps, walk.len()), target, states)
        }),
        on_target(compiled.commands@, target.0 as int) == states.last().drawn(target),
    ensures
        in_painting_order(on_target(compiled.commands@, target.0 as int)),
{
    let walk = node_walk(flat, src_items);
    let steps = item_steps(flat, node, walk, clips_visible, overlaps, walk.len());
    assert forall|i: int, j: int| 0 <= i < j < walk.len() implies (#[trigger] walk[i]).before(
        #[trigger] walk[j],
    ) by {
        walk_is_in_order(flat, src_items[0], src_items.last(), i, j);
    }
    lemma_draws_in_order(flat, node, walk, clips_visible, overlaps, walk.len());
    lemma_drawn_in_order(flat, steps, target, states, steps.len() as int);
}

/// Adding commands in one place twice is adding them once: an item may be drawn with any number of
/// commands.
pub proof fn adding_goes_on(
    first: Seq<DrawCommand>,
    second: Seq<DrawCommand>,
    third: Seq<DrawCommand>,
    key: DisplayItemKey,
)
    requires
        added(first, second, key),
        added(second, third, key),
    ensures
        added(first, third, key),
{
    assert forall|c: int| first.len() <= c < third.len() implies (#[trigger] third[c]).sort_key == key by {
        if c < second.len() {
            assert(third[c] == second[c]);
        }
    }
}

} // verus!
