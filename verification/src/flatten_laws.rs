//! What flattening keeps.
use crate::display::{ItemView, RootStackingContext, StackingContext};
use crate::flatten::{
    background_item, children_flattened, composite_item, context_entered, context_left, flattened, iframes_flattened,
    list_added, lists_added, middle_added, root_entered, Adding, Flattening, IframeInfo, Sources,
};
use crate::ids::{DrawListID, DrawListIndex, RenderTargetIndex, TransformIndex};
use crate::phases::{collected, Phases};
use crate::scalar::Scalar;
use crate::scene::{index32, next_transform, DrawContext, FlatView, SceneView, TargetView, Transform};
use vstd::prelude::*;

verus! {

/// More draw lists may be painted on a target; nothing else about it changes.
pub open spec fn target_extends(a: TargetView, b: TargetView) -> bool {
    &&& b.size == a.size
    &&& b.texture_id == a.texture_id
    &&& a.lists.len() <= b.lists.len()
    &&& forall|i: int| 0 <= i < a.lists.len() ==> b.lists[i] == a.lists[i]
}

/// The target that a flat draw list names as its own is one of the scene, and lists it.
pub open spec fn painted(scene: SceneView, k: int) -> bool {
    let target = scene.flat[k].draw_context.render_target_index.0 as int;
    &&& target < scene.targets.len()
    &&& scene.targets[target].lists.contains(DrawListIndex(index32(k as nat)))
}

/// The scene has only grown, and every draw list that came to it is painted on the target that
/// it names.
pub open spec fn scene_extends(a: SceneView, b: SceneView) -> bool {
    &&& a.flat.len() <= b.flat.len()
    &&& forall|k: int| 0 <= k < a.flat.len() ==> #[trigger] b.flat[k] == a.flat[k]
    &&& a.transforms.len() <= b.transforms.len()
    &&& forall|i: int| 0 <= i < a.transforms.len() ==> #[trigger] b.transforms[i] == a.transforms[i]
    &&& a.targets.len() <= b.targets.len()
    &&& forall|t: int|
        0 <= t < a.targets.len() ==> target_extends(a.targets[t], #[trigger] b.targets[t])
    &&& forall|k: int| a.flat.len() <= k < b.flat.len() ==> #[trigger] painted(b, k)
}

/// Whether an item blends the target of some context into the one around it.
pub open spec fn is_composite(item: ItemView) -> bool {
    exists|context: StackingContext, target: RenderTargetIndex|
        context.isolated() && item == #[trigger] composite_item(context, target)
}

/// Whether an item fills the background of some document with a color that shows.
pub open spec fn is_background(item: ItemView) -> bool {
    exists|root: RootStackingContext|
        (Scalar { bits: 0 }).lt(root.background_color.a) && item == #[trigger] background_item(root)
}

/// The items of a draw list that came from no table.
pub open spec fn is_made_up(items: Seq<ItemView>) -> bool {
    &&& items.len() == 1
    &&& items[0].node_index is None
    &&& is_composite(items[0]) || is_background(items[0])
}

/// Draw lists have moved from the table to the scene: none was lost, made up, changed or taken
/// twice.  A flat draw list that came from no table holds one item, which is the composite of a
/// context or the background of a document, and which no node holds yet.
pub open spec fn lists_moved(a: Flattening, b: Flattening) -> bool {
    &&& forall|id: u64| #[trigger]
        b.lists.contains_key(id) ==> a.lists.contains_key(id) && b.lists[id] == a.lists[id]
    &&& forall|id: u64| #[trigger]
        a.lists.contains_key(id) && !b.lists.contains_key(id) ==> exists|k: int|
            a.scene.flat.len() <= k < b.scene.flat.len() && (#[trigger] b.scene.flat[k]).id == Some(
                DrawListID(id),
            )
    &&& forall|k: int|
        a.scene.flat.len() <= k < b.scene.flat.len() ==> match (#[trigger] b.scene.flat[k]).id {
            Some(id) => a.lists.contains_key(id.0) && !b.lists.contains_key(id.0)
                && b.scene.flat[k].items == a.lists[id.0],
            None => is_made_up(b.scene.flat[k].items),
        }
    &&& forall|j: int, k: int|
        a.scene.flat.len() <= j < k < b.scene.flat.len() && (#[trigger] b.scene.flat[j]).id is Some
            ==> b.scene.flat[j].id != (#[trigger] b.scene.flat[k]).id
}

/// Every flat draw list stands on exactly one target, once: on the one that its context names.
/// Nothing else stands on a target.
#[verifier::opaque]
pub open spec fn stands_once(flat: Seq<FlatView>, targets: Seq<TargetView>) -> bool {
    &&& forall|k: int|
        0 <= k < flat.len() ==> {
            let target = (#[trigger] flat[k]).draw_context.render_target_index.0 as int;
            target < targets.len() && exists|i: int|
                0 <= i < targets[target].lists.len() && (#[trigger] targets[target].lists[i]).0 == k
        }
    &&& forall|t: int, i: int|
        0 <= t < targets.len() && 0 <= i < targets[t].lists.len() ==> {
            let k = (#[trigger] targets[t].lists[i]).0 as int;
            k < flat.len() && flat[k].draw_context.render_target_index.0 == t
        }
    &&& forall|t: int, i: int, j: int|
        0 <= t < targets.len() && 0 <= i < j < targets[t].lists.len() ==> (#[trigger] targets[t].lists[i]).0 != (
        #[trigger] targets[t].lists[j]).0
}

/// The draw lists of each target are in painting order.
#[verifier::opaque]
pub open spec fn ascending(targets: Seq<TargetView>) -> bool {
    forall|t: int, i: int, j: int|
        0 <= t < targets.len() && 0 <= i < j < targets[t].lists.len() ==> (#[trigger] targets[t].lists[i]).0 < (
        #[trigger] targets[t].lists[j]).0
}

/// As many draw lists as an index can tell apart.
pub const MOST_LISTS: u64 = 0x1_0000_0000;

/// Where every draw list stood on one target, it still does, and the targets are still in painting
/// order; unless there are more lists than an index can tell apart.
pub open spec fn standing_kept(a: SceneView, b: SceneView) -> bool {
    b.flat.len() <= MOST_LISTS && stands_once(a.flat, a.targets) ==> {
        &&& stands_once(b.flat, b.targets)
        &&& ascending(a.targets) ==> ascending(b.targets)
    }
}

/// What holds from one moment of a flattening to a later one.
#[verifier::opaque]
pub open spec fn extends(a: Flattening, b: Flattening) -> bool {
    scene_extends(a.scene, b.scene) && lists_moved(a, b) && standing_kept(a.scene, b.scene)
}

/// A draw list that is pushed stands on the target that it names, behind the others.
proof fn lemma_standing_pushed(scene: SceneView, id: Option<DrawListID>, items: Seq<ItemView>, draw_context: DrawContext)
    requires
        scene.stack_ok(),
        draw_context.render_target_index == scene.stack.last(),
    ensures
        standing_kept(scene, scene.list_pushed(id, items, draw_context)),
{
    let next = scene.list_pushed(id, items, draw_context);
    let current = scene.stack.last().0 as int;
    let n = scene.flat.len() as int;
    assert(scene.stack[scene.stack.len() - 1].0 < scene.targets.len());
    if next.flat.len() <= MOST_LISTS && stands_once(scene.flat, scene.targets) {
        reveal(stands_once);
        let last = scene.targets[current].lists.len() as int;
        assert(next.targets[current].lists[last].0 == n);
        assert forall|k: int| 0 <= k < next.flat.len() implies {
            let target = (#[trigger] next.flat[k]).draw_context.render_target_index.0 as int;
            target < next.targets.len() && exists|i: int|
                0 <= i < next.targets[target].lists.len() && (#[trigger] next.targets[target].lists[i]).0 == k
        } by {
            let target = next.flat[k].draw_context.render_target_index.0 as int;
            if k < n {
                assert(next.flat[k] == scene.flat[k]);
                let i = choose|i: int|
                    0 <= i < scene.targets[target].lists.len() && (#[trigger] scene.targets[target].lists[i]).0 == k;
                assert(next.targets[target].lists[i].0 == k);
            }
        }
        assert forall|t: int, i: int| 0 <= t < next.targets.len() && 0 <= i < next.targets[t].lists.len() implies {
            let k = (#[trigger] next.targets[t].lists[i]).0 as int;
            k < next.flat.len() && next.flat[k].draw_context.render_target_index.0 == t
        } by {
            if t == current && i == last {
            } else {
                assert(next.targets[t].lists[i] == scene.targets[t].lists[i]);
            }
        }
        assert forall|t: int, i: int, j: int|
            0 <= t < next.targets.len() && 0 <= i < j < next.targets[t].lists.len() implies (
        #[trigger] next.targets[t].lists[i]).0 != (#[trigger] next.targets[t].lists[j]).0 by {
            assert(next.targets[t].lists[i] == scene.targets[t].lists[i]);
            if t == current && j == last {
            } else {
                assert(next.targets[t].lists[j] == scene.targets[t].lists[j]);
            }
        }
        if ascending(scene.targets) {
            reveal(ascending);
            assert forall|t: int, i: int, j: int|
                0 <= t < next.targets.len() && 0 <= i < j < next.targets[t].lists.len() implies (
            #[trigger] next.targets[t].lists[i]).0 < (#[trigger] next.targets[t].lists[j]).0 by {
                assert(next.targets[t].lists[i] == scene.targets[t].lists[i]);
                if t == current && j == last {
                } else {
                    assert(next.targets[t].lists[j] == scene.targets[t].lists[j]);
                }
            }
        }
    }
}

/// A new target has nothing on it.
proof fn lemma_standing_target(scene: SceneView, size: crate::geometry::DeviceSize)
    ensures
        standing_kept(scene, scene.target_pushed(size, None)),
{
    let next = scene.target_pushed(size, None);
    if stands_once(scene.flat, scene.targets) {
        reveal(stands_once);
        reveal(ascending);
        assert forall|t: int| 0 <= t < scene.targets.len() implies #[trigger] next.targets[t] == scene.targets[t] by {}
        assert forall|k: int| 0 <= k < next.flat.len() implies {
            let target = (#[trigger] next.flat[k]).draw_context.render_target_index.0 as int;
            target < next.targets.len() && exists|i: int|
                0 <= i < next.targets[target].lists.len() && (#[trigger] next.targets[target].lists[i]).0 == k
        } by {
            let target = next.flat[k].draw_context.render_target_index.0 as int;
            assert(scene.flat[k] == next.flat[k]);
            let i = choose|i: int|
                0 <= i < scene.targets[target].lists.len() && (#[trigger] scene.targets[target].lists[i]).0 == k;
            assert(next.targets[target].lists[i].0 == k);
        }
    }
}

/// The same for a part of the work that leaves the current target as it found it: after an
/// error nothing happens any more.
pub open spec fn kept(a: Flattening, b: Flattening) -> bool {
    &&& extends(a, b)
    &&& a.error is Some ==> b == a
    &&& b.error is None ==> b.scene.stack == a.scene.stack
}

proof fn lemma_extends_self(a: Flattening)
    ensures
        extends(a, a),
{
    reveal(extends);
}

proof fn lemma_extends_trans(a: Flattening, b: Flattening, c: Flattening)
    requires
        extends(a, b),
        extends(b, c),
    ensures
        extends(a, c),
{
    reveal(extends);
    assert forall|t: int| 0 <= t < a.scene.targets.len() implies target_extends(
        a.scene.targets[t],
        #[trigger] c.scene.targets[t],
    ) by {
        assert(target_extends(a.scene.targets[t], b.scene.targets[t]));
    }
    assert forall|k: int| a.scene.flat.len() <= k < c.scene.flat.len() implies #[trigger] painted(
        c.scene,
        k,
    ) by {
        if k < b.scene.flat.len() {
            assert(painted(b.scene, k));
            let t = b.scene.flat[k].draw_context.render_target_index.0 as int;
            assert(c.scene.flat[k] == b.scene.flat[k]);
            assert(target_extends(b.scene.targets[t], c.scene.targets[t]));
            let i = choose|i: int|
                0 <= i < b.scene.targets[t].lists.len() && b.scene.targets[t].lists[i]
                    == DrawListIndex(index32(k as nat));
            assert(c.scene.targets[t].lists[i] == DrawListIndex(index32(k as nat)));
        }
    }
    assert forall|id: u64| #[trigger] a.lists.contains_key(id) && !c.lists.contains_key(id) implies exists|
        k: int,
    |
        a.scene.flat.len() <= k < c.scene.flat.len() && (#[trigger] c.scene.flat[k]).id == Some(
            DrawListID(id),
        ) by {
        if b.lists.contains_key(id) {
        } else {
            let k = choose|k: int|
                a.scene.flat.len() <= k < b.scene.flat.len() && (#[trigger] b.scene.flat[k]).id == Some(
                    DrawListID(id),
                );
            assert(c.scene.flat[k] == b.scene.flat[k]);
        }
    }
    assert forall|k: int| a.scene.flat.len() <= k < c.scene.flat.len() implies match (
    #[trigger] c.scene.flat[k]).id {
        Some(id) => a.lists.contains_key(id.0) && !c.lists.contains_key(id.0)
            && c.scene.flat[k].items == a.lists[id.0],
        None => is_made_up(c.scene.flat[k].items),
    } by {
        if k < b.scene.flat.len() {
            assert(c.scene.flat[k] == b.scene.flat[k]);
        }
    }
    assert forall|j: int, k: int|
        a.scene.flat.len() <= j < k < c.scene.flat.len() && (#[trigger] c.scene.flat[j]).id
            is Some implies c.scene.flat[j].id != (#[trigger] c.scene.flat[k]).id by {
        if k < b.scene.flat.len() {
            assert(c.scene.flat[j] == b.scene.flat[j] && c.scene.flat[k] == b.scene.flat[k]);
        } else if j < b.scene.flat.len() {
            assert(c.scene.flat[j] == b.scene.flat[j]);
            let id = c.scene.flat[j].id.unwrap();
            assert(!b.lists.contains_key(id.0));
        }
    }
}

proof fn lemma_kept_trans(a: Flattening, b: Flattening, c: Flattening)
    requires
        kept(a, b),
        kept(b, c),
    ensures
        kept(a, c),
{
    lemma_extends_trans(a, b, c);
}

/// Growing keeps the waiting targets valid.
proof fn lemma_stack_ok(a: Flattening, b: Flattening)
    requires
        extends(a, b),
        a.scene.stack_ok(),
        b.scene.stack == a.scene.stack,
    ensures
        b.scene.stack_ok(),
{
    reveal(extends);
}

proof fn lemma_list_pushed(f: Flattening, items: Seq<ItemView>, draw_context: DrawContext)
    requires
        f.scene.stack_ok(),
        draw_context.render_target_index == f.scene.stack.last(),
        is_made_up(items),
    ensures
        ({
            let g = Flattening { scene: f.scene.list_pushed(None, items, draw_context), ..f };
            extends(f, g) && g.scene.stack_ok() && g.scene.stack == f.scene.stack
        }),
{
    reveal(extends);
    lemma_standing_pushed(f.scene, None, items, draw_context);
    let g = Flattening { scene: f.scene.list_pushed(None, items, draw_context), ..f };
    let t = f.scene.stack.last().0 as int;
    assert(f.scene.stack[f.scene.stack.len() - 1].0 < f.scene.targets.len());
    assert(g.scene.targets[t].lists.last() == DrawListIndex(index32(f.scene.flat.len())));
    assert(painted(g.scene, f.scene.flat.len() as int));
    assert forall|i: int| 0 <= i < f.scene.targets.len() implies target_extends(
        f.scene.targets[i],
        #[trigger] g.scene.targets[i],
    ) by {}
    assert(g.scene.stack_ok());
}

proof fn lemma_list_added(a: Adding, id: DrawListID, draw_context: DrawContext)
    requires
        a.f.error is None ==> a.f.scene.stack_ok() && draw_context.render_target_index
            == a.f.scene.stack.last(),
    ensures
        ({
            let b = list_added(a, id, draw_context);
            &&& kept(a.f, b.f)
            &&& b.f.error is None ==> b.f.scene.stack_ok()
            &&& b.f.error is None ==> a.f.lists.contains_key(id.0) && !b.f.lists.contains_key(id.0)
            &&& a.f.error is Some ==> b == a
        }),
{
    let b = list_added(a, id, draw_context);
    if a.f.error is Some || !a.f.lists.contains_key(id.0) {
        lemma_extends_self(a.f);
        reveal(extends);
    } else {
        reveal(extends);
        lemma_standing_pushed(a.f.scene, Some(id), a.f.lists[id.0], draw_context);
        let t = a.f.scene.stack.last().0 as int;
        assert(a.f.scene.stack[a.f.scene.stack.len() - 1].0 < a.f.scene.targets.len());
        let k = a.f.scene.flat.len() as int;
        assert(b.f.scene.flat[k].id == Some(DrawListID(id.0)));
        assert(b.f.scene.targets[t].lists.last() == DrawListIndex(index32(k as nat)));
        assert(painted(b.f.scene, k));
        assert forall|i: int| 0 <= i < a.f.scene.targets.len() implies target_extends(
            a.f.scene.targets[i],
            #[trigger] b.f.scene.targets[i],
        ) by {}
        assert forall|other: u64| #[trigger]
            a.f.lists.contains_key(other) && !b.f.lists.contains_key(other) implies exists|j: int|
            a.f.scene.flat.len() <= j < b.f.scene.flat.len() && (#[trigger] b.f.scene.flat[j]).id
                == Some(DrawListID(other)) by {
            assert(other == id.0);
        }
        assert(b.f.scene.stack_ok());
    }
}

/// Adding draw lists leaves everything else alone; iframes are found only in lists that were
/// taken.
pub(crate) proof fn lemma_lists_added(a: Adding, ids: Seq<DrawListID>, draw_context: DrawContext)
    requires
        a.f.error is None ==> a.f.scene.stack_ok() && draw_context.render_target_index
            == a.f.scene.stack.last(),
    ensures
        ({
            let b = lists_added(a, ids, draw_context);
            &&& kept(a.f, b.f)
            &&& b.f.error is None ==> b.f.scene.stack_ok()
            &&& a.f.error is Some ==> b == a
            &&& b.iframes.len() == a.iframes.len() || exists|id: u64| #[trigger]
                a.f.lists.contains_key(id) && !b.f.lists.contains_key(id)
        }),
    decreases ids.len(),
{
    let b = lists_added(a, ids, draw_context);
    if ids.len() == 0 {
        lemma_extends_self(a.f);
    } else {
        let c = lists_added(a, ids.drop_last(), draw_context);
        lemma_lists_added(a, ids.drop_last(), draw_context);
        lemma_list_added(c, ids.last(), draw_context);
        lemma_kept_trans(a.f, c.f, b.f);
        reveal(extends);
        if c.iframes.len() != a.iframes.len() {
            let id = choose|id: u64| #[trigger]
                a.f.lists.contains_key(id) && !c.f.lists.contains_key(id);
            assert(a.f.lists.contains_key(id) && !b.f.lists.contains_key(id));
        } else if b.iframes.len() != c.iframes.len() {
            assert(c.f.lists.contains_key(ids.last().0));
            assert(a.f.lists.contains_key(ids.last().0) && !b.f.lists.contains_key(ids.last().0));
        }
    }
}

/// Once something went wrong, no more lists are added.
pub(crate) proof fn lemma_lists_added_error(a: Adding, ids: Seq<DrawListID>, n: int, draw_context: DrawContext)
    requires
        0 <= n <= ids.len(),
        lists_added(a, ids.take(n), draw_context).f.error is Some,
    ensures
        lists_added(a, ids, draw_context) == lists_added(a, ids.take(n), draw_context),
    decreases ids.len(),
{
    if n == ids.len() {
        assert(ids.take(n) =~= ids);
    } else {
        assert(ids.drop_last().take(n) =~= ids.take(n));
        lemma_lists_added_error(a, ids.drop_last(), n, draw_context);
    }
}

/// The phases between the children, as one piece of work.
pub(crate) proof fn lemma_middle_added(a: Adding, phases: Phases, draw_context: DrawContext)
    requires
        a.f.error is None ==> a.f.scene.stack_ok() && draw_context.render_target_index
            == a.f.scene.stack.last(),
    ensures
        ({
            let b = middle_added(a, phases, draw_context);
            &&& kept(a.f, b.f)
            &&& b.f.error is None ==> b.f.scene.stack_ok()
            &&& a.f.error is Some ==> b == a
            &&& b.iframes.len() == a.iframes.len() || exists|id: u64| #[trigger]
                a.f.lists.contains_key(id) && !b.f.lists.contains_key(id)
        }),
{
    let b1 = lists_added(a, phases.block_background_and_borders, draw_context);
    let b2 = lists_added(b1, phases.floats, draw_context);
    let b3 = lists_added(b2, phases.content, draw_context);
    let b4 = lists_added(b3, phases.positioned_content, draw_context);
    lemma_lists_added(a, phases.block_background_and_borders, draw_context);
    lemma_lists_added(b1, phases.floats, draw_context);
    lemma_lists_added(b2, phases.content, draw_context);
    lemma_lists_added(b3, phases.positioned_content, draw_context);
    lemma_kept_trans(a.f, b1.f, b2.f);
    lemma_kept_trans(a.f, b2.f, b3.f);
    lemma_kept_trans(a.f, b3.f, b4.f);
    if b4.iframes.len() != a.iframes.len() {
        reveal(extends);
        lemma_kept_trans(b1.f, b2.f, b3.f);
        lemma_kept_trans(b1.f, b3.f, b4.f);
        lemma_kept_trans(b2.f, b3.f, b4.f);
        if b1.iframes.len() != a.iframes.len() {
            let id = choose|id: u64| #[trigger]
                a.f.lists.contains_key(id) && !b1.f.lists.contains_key(id);
            assert(a.f.lists.contains_key(id) && !b4.f.lists.contains_key(id));
        } else if b2.iframes.len() != b1.iframes.len() {
            let id = choose|id: u64| #[trigger]
                b1.f.lists.contains_key(id) && !b2.f.lists.contains_key(id);
            assert(a.f.lists.contains_key(id) && !b4.f.lists.contains_key(id));
        } else if b3.iframes.len() != b2.iframes.len() {
            let id = choose|id: u64| #[trigger]
                b2.f.lists.contains_key(id) && !b3.f.lists.contains_key(id);
            assert(a.f.lists.contains_key(id) && !b4.f.lists.contains_key(id));
        } else {
            let id = choose|id: u64| #[trigger]
                b3.f.lists.contains_key(id) && !b4.f.lists.contains_key(id);
            assert(a.f.lists.contains_key(id) && !b4.f.lists.contains_key(id));
        }
    }
}

proof fn lemma_transform_pushed(f: Flattening, transform: Transform)
    requires
        f.scene.stack_ok(),
    ensures
        ({
            let g = Flattening { scene: f.scene.transform_pushed(transform), ..f };
            extends(f, g) && g.scene.stack_ok()
        }),
{
    reveal(extends);
}

proof fn lemma_target_pushed(f: Flattening, size: crate::geometry::DeviceSize)
    requires
        f.scene.stack_ok(),
    ensures
        ({
            let g = Flattening { scene: f.scene.target_pushed(size, None), ..f };
            extends(f, g) && g.scene.stack_ok()
        }),
{
    reveal(extends);
    lemma_standing_target(f.scene, size);
}

/// Entering a context: the scene grows, its own target becomes current if it has one, and its
/// draw lists will name the current target.
pub(crate) proof fn lemma_entered(
    sources: Sources,
    context: StackingContext,
    root: Option<RootStackingContext>,
    transform: TransformIndex,
    f: Flattening,
)
    requires
        f.error is None,
        f.scene.stack_ok(),
    ensures
        ({
            let entered = root_entered(
                root,
                context_entered(sources.device_pixel_ratio, context, transform, f.scene),
            );
            let g = Flattening { scene: entered.scene, ..f };
            &&& extends(f, g)
            &&& g.scene.stack_ok()
            &&& entered.draw_context.render_target_index == g.scene.stack.last()
            &&& context.isolated() ==> g.scene.stack.drop_last() == f.scene.stack
            &&& !context.isolated() ==> g.scene.stack == f.scene.stack
        }),
{
    let ratio = sources.device_pixel_ratio;
    let entered = context_entered(ratio, context, transform, f.scene);
    let moved = Flattening {
        scene: f.scene.transform_pushed(
            Transform::Translate { parent: transform, offset: context.bounds.origin },
        ),
        ..f
    };
    lemma_transform_pushed(
        f,
        Transform::Translate { parent: transform, offset: context.bounds.origin },
    );
    let inside = Flattening { scene: entered.scene, ..f };
    if context.isolated() {
        let target = RenderTargetIndex(index32(moved.scene.targets.len()));
        let draw_context = DrawContext {
            render_target_index: f.scene.stack.last(),
            overflow: context.overflow,
            device_pixel_ratio: ratio,
            final_transform: next_transform(f.scene),
        };
        let items = seq![composite_item(context, target)];
        assert(is_composite(items[0]));
        lemma_list_pushed(moved, items, draw_context);
        let listed = Flattening { scene: moved.scene.list_pushed(None, items, draw_context), ..moved };
        let size = context.overflow.size.whole();
        lemma_target_pushed(listed, size);
        let pushed = Flattening { scene: listed.scene.target_pushed(size, None), ..listed };
        lemma_transform_pushed(pushed, Transform::Identity);
        lemma_extends_trans(f, moved, listed);
        lemma_extends_trans(f, listed, pushed);
        assert(inside == (Flattening { scene: pushed.scene.transform_pushed(Transform::Identity), ..pushed }));
        lemma_extends_trans(f, pushed, inside);
        assert(inside.scene.stack.drop_last() =~= f.scene.stack);
    } else {
        assert(inside == moved);
    }
    match root {
        None => {},
        Some(root) => {
            let noted = Flattening {
                scene: SceneView {
                    epochs: inside.scene.epochs.insert(root.pipeline_id.key(), root.epoch),
                    ..inside.scene
                },
                ..inside
            };
            assert(extends(inside, noted)) by {
                reveal(extends);
            }
            lemma_extends_trans(f, inside, noted);
            assert(noted.scene.stack_ok());
            if (Scalar { bits: 0 }).lt(root.background_color.a) {
                let items = seq![background_item(root)];
                assert(is_background(items[0]));
                lemma_list_pushed(noted, items, entered.draw_context);
                let filled = Flattening {
                    scene: noted.scene.list_pushed(None, items, entered.draw_context),
                    ..noted
                };
                lemma_extends_trans(f, noted, filled);
            }
        },
    }
}

/// A context is left as it was entered.
proof fn lemma_left(context: StackingContext, f: Flattening)
    ensures
        extends(f, context_left(context, f)),
{
    reveal(extends);
}

/// Flattening a context only adds to the scene, moves draw lists from the table to it, and
/// comes back to the target that was current.
pub(crate) proof fn lemma_flattened(
    depth: nat,
    sources: Sources,
    context: StackingContext,
    root: Option<RootStackingContext>,
    transform: TransformIndex,
    f: Flattening,
)
    requires
        f.error is None ==> f.scene.stack_ok(),
    ensures
        kept(f, flattened(depth, sources, context, root, transform, f)),
        ({
            let g = flattened(depth, sources, context, root, transform, f);
            g.error is None ==> g.scene.stack_ok()
        }),
    decreases depth, context, 1nat, 0nat,
{
    if f.error is Some {
        lemma_extends_self(f);
    } else {
        let entered = root_entered(
            root,
            context_entered(sources.device_pixel_ratio, context, transform, f.scene),
        );
        let inside = Flattening { scene: entered.scene, ..f };
        let inner = entered.draw_context.final_transform;
        let g = flattened(depth, sources, context, root, transform, f);
        lemma_entered(sources, context, root, transform, f);
        match collected(context.display_lists@, sources.display_lists, context.display_lists@.len()) {
            Err(error) => {
                assert(extends(inside, g)) by {
                    reveal(extends);
                }
                lemma_extends_trans(f, inside, g);
            },
            Ok(phases) => {
                let first = lists_added(
                    Adding { f: inside, iframes: Seq::empty() },
                    phases.background_and_borders,
                    entered.draw_context,
                );
                lemma_lists_added(
                    Adding { f: inside, iframes: Seq::empty() },
                    phases.background_and_borders,
                    entered.draw_context,
                );
                let n = context.children@.len();
                let below = children_flattened(depth, sources, context, true, inner, first.f, n);
                lemma_children_flattened(depth, sources, context, true, inner, first.f, n);
                lemma_kept_trans(inside, first.f, below);
                let middle = middle_added(Adding { f: below, ..first }, phases, entered.draw_context);
                lemma_middle_added(Adding { f: below, ..first }, phases, entered.draw_context);
                lemma_kept_trans(inside, below, middle.f);
                let above = children_flattened(depth, sources, context, false, inner, middle.f, n);
                lemma_children_flattened(depth, sources, context, false, inner, middle.f, n);
                lemma_kept_trans(inside, middle.f, above);
                let framed = iframes_flattened(
                    depth,
                    sources,
                    context,
                    middle.iframes,
                    above,
                    middle.iframes.len(),
                );
                lemma_iframes_flattened(
                    depth,
                    sources,
                    context,
                    middle.iframes,
                    above,
                    middle.iframes.len(),
                );
                lemma_kept_trans(inside, above, framed);
                let last = lists_added(Adding { f: framed, ..middle }, phases.outlines, entered.draw_context);
                lemma_lists_added(Adding { f: framed, ..middle }, phases.outlines, entered.draw_context);
                lemma_kept_trans(inside, framed, last.f);
                lemma_left(context, last.f);
                lemma_extends_trans(f, inside, last.f);
                lemma_extends_trans(f, last.f, g);
                if g.error is None {
                    lemma_stack_ok(f, g);
                }
            },
        }
    }
}

/// The same of the children of a context.
pub(crate) proof fn lemma_children_flattened(
    depth: nat,
    sources: Sources,
    context: StackingContext,
    below: bool,
    transform: TransformIndex,
    f: Flattening,
    n: nat,
)
    requires
        f.error is None ==> f.scene.stack_ok(),
    ensures
        kept(f, children_flattened(depth, sources, context, below, transform, f, n)),
        ({
            let g = children_flattened(depth, sources, context, below, transform, f, n);
            g.error is None ==> g.scene.stack_ok()
        }),
    decreases depth, context, 0nat, n,
{
    if n == 0 || n > context.children@.len() {
        lemma_extends_self(f);
    } else {
        lemma_children_flattened(depth, sources, context, below, transform, f, (n - 1) as nat);
        let g = children_flattened(depth, sources, context, below, transform, f, (n - 1) as nat);
        let child = context.children@[n - 1];
        if (child.z_index < 0) == below {
            lemma_flattened(depth, sources, child, None, transform, g);
            lemma_kept_trans(f, g, flattened(depth, sources, child, None, transform, g));
        }
    }
}

/// The same of the documents in a context's iframes.
pub(crate) proof fn lemma_iframes_flattened(
    depth: nat,
    sources: Sources,
    context: StackingContext,
    iframes: Seq<IframeInfo>,
    f: Flattening,
    n: nat,
)
    requires
        f.error is None ==> f.scene.stack_ok(),
    ensures
        kept(f, iframes_flattened(depth, sources, context, iframes, f, n)),
        ({
            let g = iframes_flattened(depth, sources, context, iframes, f, n);
            g.error is None ==> g.scene.stack_ok()
        }),
    decreases depth, context, 0nat, n,
{
    if n == 0 {
        lemma_extends_self(f);
    } else {
        lemma_iframes_flattened(depth, sources, context, iframes, f, (n - 1) as nat);
        let g = iframes_flattened(depth, sources, context, iframes, f, (n - 1) as nat);
        let info = iframes[n - 1];
        if g.error is Some || !sources.contexts.contains_key(info.id.key()) || depth == 0 {
        } else {
            let root = sources.contexts[info.id.key()];
            let moved = Transform::MoveTo { frame: info.frame, point: info.origin };
            let placed = Flattening { scene: g.scene.transform_pushed(moved), ..g };
            lemma_transform_pushed(g, moved);
            lemma_flattened(
                (depth - 1) as nat,
                sources,
                root.stacking_context,
                Some(root),
                next_transform(g.scene),
                placed,
            );
            let h = flattened(
                (depth - 1) as nat,
                sources,
                root.stacking_context,
                Some(root),
                next_transform(g.scene),
                placed,
            );
            lemma_extends_trans(g, placed, h);
            lemma_kept_trans(f, g, h);
        }
    }
}

/// Once something went wrong, no more children are flattened.
pub(crate) proof fn lemma_children_error(
    depth: nat,
    sources: Sources,
    context: StackingContext,
    below: bool,
    transform: TransformIndex,
    f: Flattening,
    m: nat,
    n: nat,
)
    requires
        m <= n <= context.children@.len(),
        children_flattened(depth, sources, context, below, transform, f, m).error is Some,
    ensures
        children_flattened(depth, sources, context, below, transform, f, n) == children_flattened(
            depth,
            sources,
            context,
            below,
            transform,
            f,
            m,
        ),
    decreases n,
{
    if m < n {
        lemma_children_error(depth, sources, context, below, transform, f, m, (n - 1) as nat);
        let g = children_flattened(depth, sources, context, below, transform, f, (n - 1) as nat);
        lemma_flattened(depth, sources, context.children@[n - 1], None, transform, g);
    }
}

/// Once something went wrong, no more iframes are entered.
pub(crate) proof fn lemma_iframes_error(
    depth: nat,
    sources: Sources,
    context: StackingContext,
    iframes: Seq<IframeInfo>,
    f: Flattening,
    m: nat,
    n: nat,
)
    requires
        m <= n,
        iframes_flattened(depth, sources, context, iframes, f, m).error is Some,
    ensures
        iframes_flattened(depth, sources, context, iframes, f, n) == iframes_flattened(
            depth,
            sources,
            context,
            iframes,
            f,
            m,
        ),
    decreases n,
{
    if m < n {
        lemma_iframes_error(depth, sources, context, iframes, f, m, (n - 1) as nat);
    }
}

/// Draw lists are only ever taken from the table.
pub(crate) proof fn lemma_fewer_lists(a: Flattening, b: Flattening)
    requires
        extends(a, b),
        a.lists.dom().finite(),
    ensures
        b.lists.dom().finite(),
        b.lists.dom().len() <= a.lists.dom().len(),
        (exists|id: u64| #[trigger] a.lists.contains_key(id) && !b.lists.contains_key(id))
            ==> b.lists.dom().len() < a.lists.dom().len(),
{
    reveal(extends);
    assert(b.lists.dom().subset_of(a.lists.dom()));
    vstd::set_lib::lemma_len_subset(b.lists.dom(), a.lists.dom());
    if exists|id: u64| #[trigger] a.lists.contains_key(id) && !b.lists.contains_key(id) {
        let id = choose|id: u64| #[trigger] a.lists.contains_key(id) && !b.lists.contains_key(id);
        assert(b.lists.dom().subset_of(a.lists.dom().remove(id)));
        vstd::set_lib::lemma_len_subset(b.lists.dom(), a.lists.dom().remove(id));
    }
}

/// Flattening a context only adds to a scene: what was there stays, every draw list that comes
/// to it is painted on the target that it names, and the target that was current is current
/// again.  The draw lists come from the table: none is lost, made up, changed or used twice.
pub proof fn flattening_only_adds(
    depth: nat,
    sources: Sources,
    context: StackingContext,
    root: Option<RootStackingContext>,
    transform: TransformIndex,
    f: Flattening,
)
    requires
        f.error is None,
        f.scene.stack_ok(),
    ensures
        ({
            let g = flattened(depth, sources, context, root, transform, f);
            &&& scene_extends(f.scene, g.scene)
            &&& lists_moved(f, g)
            &&& g.error is None ==> g.scene.stack == f.scene.stack
        }),
{
    reveal(extends);
    lemma_flattened(depth, sources, context, root, transform, f);
}

/// Where every draw list of a scene stands on exactly one target, once, and on the one that its
/// context names, the same holds after a context has been flattened; and where the draw lists of
/// each target are in painting order, they still are.  The scene may come to hold as many draw lists
/// as an index can tell apart.
pub proof fn lists_stand_on_one_target(
    depth: nat,
    sources: Sources,
    context: StackingContext,
    root: Option<RootStackingContext>,
    transform: TransformIndex,
    f: Flattening,
)
    requires
        f.error is None,
        f.scene.stack_ok(),
        stands_once(f.scene.flat, f.scene.targets),
        flattened(depth, sources, context, root, transform, f).scene.flat.len() <= MOST_LISTS,
    ensures
        ({
            let g = flattened(depth, sources, context, root, transform, f);
            &&& stands_once(g.scene.flat, g.scene.targets)
            &&& ascending(f.scene.targets) ==> ascending(g.scene.targets)
        }),
{
    reveal(extends);
    lemma_flattened(depth, sources, context, root, transform, f);
}

/// A scene without draw lists, whose targets are empty, is one to start from.
pub proof fn empty_targets_stand(flat: Seq<FlatView>, targets: Seq<TargetView>)
    requires
        flat.len() == 0,
        forall|t: int| 0 <= t < targets.len() ==> (#[trigger] targets[t]).lists.len() == 0,
    ensures
        stands_once(flat, targets),
        ascending(targets),
{
    reveal(stands_once);
    reveal(ascending);
}

/// Where no list of the table is empty, no draw list of the scene is: there is an item to come
/// to in each of them.
pub proof fn flattened_lists_have_items(
    depth: nat,
    sources: Sources,
    context: StackingContext,
    root: Option<RootStackingContext>,
    transform: TransformIndex,
    f: Flattening,
    k: int,
)
    requires
        f.error is None,
        f.scene.stack_ok(),
        forall|id: u64| #[trigger] f.lists.contains_key(id) ==> f.lists[id].len() > 0,
        f.scene.flat.len() <= k < flattened(depth, sources, context, root, transform, f).scene.flat.len(),
    ensures
        flattened(depth, sources, context, root, transform, f).scene.flat[k].items.len() > 0,
{
    flattening_only_adds(depth, sources, context, root, transform, f);
}

} // verus!
