//! The transforms of a flattened scene are described by earlier ones.
use crate::display::{RootStackingContext, StackingContext};
use crate::flatten::{
    children_flattened, context_entered, context_left, flattened, iframes_flattened, iframes_in, list_added, lists_added,
    middle_added, root_entered, Adding, Flattening, IframeInfo, Sources,
};
use crate::flatten_laws::{
    extends, lemma_children_flattened, lemma_entered, lemma_iframes_flattened, lemma_lists_added,
    lemma_middle_added,
};
use crate::ids::{DrawListID, TransformIndex};
use crate::phases::{collected, Phases};
use crate::scene::{next_transform, DrawContext, SceneView, Transform};
use vstd::prelude::*;

verus! {

/// Every transform of the table is described by transforms before it, and the draw lists are
/// placed by transforms of the table: the table can be evaluated from its start to its end.
pub open spec fn evaluable(scene: SceneView) -> bool {
    &&& forall|i: int|
        0 <= i < scene.transforms.len() ==> match #[trigger] scene.transforms[i] {
            Transform::Identity => true,
            Transform::Translate { parent, .. } => parent.0 < i,
            Transform::MoveTo { frame, .. } => frame.0 < i,
        }
    &&& forall|k: int|
        0 <= k < scene.flat.len() ==> (#[trigger] scene.flat[k]).draw_context.final_transform.0
            < scene.transforms.len()
}

/// The same, as long as the table is not longer than an index can count.
#[verifier::opaque]
spec fn sound(f: Flattening) -> bool {
    f.scene.transforms.len() <= usize::MAX ==> evaluable(f.scene)
}

/// A transform of the table, as long as the table is not longer than an index can count.
spec fn in_table(transform: TransformIndex, f: Flattening) -> bool {
    f.scene.transforms.len() <= usize::MAX ==> transform.0 < f.scene.transforms.len()
}

/// Iframes that are placed by one transform.
spec fn framed_by(iframes: Seq<IframeInfo>, frame: TransformIndex) -> bool {
    forall|i: int| 0 <= i < iframes.len() ==> (#[trigger] iframes[i]).frame == frame
}

proof fn lemma_in_table(transform: TransformIndex, a: Flattening, b: Flattening)
    requires
        in_table(transform, a),
        extends(a, b),
    ensures
        in_table(transform, b),
{
    reveal(extends);
}

proof fn lemma_iframes_in(items: Seq<crate::display::ItemView>, frame: TransformIndex)
    ensures
        framed_by(iframes_in(items, frame), frame),
    decreases items.len(),
{
    if items.len() > 0 {
        lemma_iframes_in(items.drop_last(), frame);
    }
}

proof fn lemma_lists_sound(a: Adding, ids: Seq<DrawListID>, draw_context: DrawContext)
    requires
        sound(a.f),
        a.f.error is None ==> in_table(draw_context.final_transform, a.f),
        framed_by(a.iframes, draw_context.final_transform),
    ensures
        ({
            let b = lists_added(a, ids, draw_context);
            &&& sound(b.f)
            &&& framed_by(b.iframes, draw_context.final_transform)
            &&& b.f.scene.transforms == a.f.scene.transforms
        }),
    decreases ids.len(),
{
    if ids.len() > 0 {
        lemma_lists_sound(a, ids.drop_last(), draw_context);
        let b = lists_added(a, ids.drop_last(), draw_context);
        let id = ids.last();
        let c = list_added(b, id, draw_context);
        reveal(sound);
        if b.f.error is None && b.f.lists.contains_key(id.0) {
            lemma_iframes_in(b.f.lists[id.0], draw_context.final_transform);
            if a.f.error is Some {
                lemma_error_stays(a, ids.drop_last(), draw_context);
            }
        }
    }
}

proof fn lemma_error_stays(a: Adding, ids: Seq<DrawListID>, draw_context: DrawContext)
    requires
        a.f.error is Some,
    ensures
        lists_added(a, ids, draw_context) == a,
    decreases ids.len(),
{
    if ids.len() > 0 {
        lemma_error_stays(a, ids.drop_last(), draw_context);
    }
}

proof fn lemma_middle_sound(a: Adding, phases: Phases, draw_context: DrawContext)
    requires
        sound(a.f),
        a.f.error is None ==> in_table(draw_context.final_transform, a.f),
        framed_by(a.iframes, draw_context.final_transform),
    ensures
        ({
            let b = middle_added(a, phases, draw_context);
            &&& sound(b.f)
            &&& framed_by(b.iframes, draw_context.final_transform)
        }),
{
    let b1 = lists_added(a, phases.block_background_and_borders, draw_context);
    let b2 = lists_added(b1, phases.floats, draw_context);
    let b3 = lists_added(b2, phases.content, draw_context);
    lemma_lists_sound(a, phases.block_background_and_borders, draw_context);
    if a.f.error is Some {
        lemma_error_stays(a, phases.block_background_and_borders, draw_context);
        lemma_error_stays(a, phases.floats, draw_context);
        lemma_error_stays(a, phases.content, draw_context);
        lemma_error_stays(a, phases.positioned_content, draw_context);
    } else {
        lemma_lists_sound(b1, phases.floats, draw_context);
        lemma_lists_sound(b2, phases.content, draw_context);
        lemma_lists_sound(b3, phases.positioned_content, draw_context);
    }
}

proof fn lemma_entered_sound(
    sources: Sources,
    context: StackingContext,
    root: Option<RootStackingContext>,
    transform: TransformIndex,
    f: Flattening,
)
    requires
        sound(f),
        f.error is None,
        f.scene.stack_ok(),
        in_table(transform, f),
    ensures
        ({
            let entered = root_entered(
                root,
                context_entered(sources.device_pixel_ratio, context, transform, f.scene),
            );
            let g = Flattening { scene: entered.scene, ..f };
            &&& sound(g)
            &&& in_table(entered.draw_context.final_transform, g)
        }),
{
    reveal(sound);
    let entered = root_entered(
        root,
        context_entered(sources.device_pixel_ratio, context, transform, f.scene),
    );
    let g = Flattening { scene: entered.scene, ..f };
    if g.scene.transforms.len() <= usize::MAX {
        assert(f.scene.transforms.len() < g.scene.transforms.len());
        assert(evaluable(f.scene));
        assert forall|k: int| 0 <= k < g.scene.flat.len() implies (
        #[trigger] g.scene.flat[k]).draw_context.final_transform.0 < g.scene.transforms.len() by {
            if k < f.scene.flat.len() {
                assert(g.scene.flat[k] == f.scene.flat[k]);
            }
        }
        assert forall|i: int| 0 <= i < g.scene.transforms.len() implies match (
        #[trigger] g.scene.transforms[i]) {
            Transform::Identity => true,
            Transform::Translate { parent, .. } => parent.0 < i,
            Transform::MoveTo { frame, .. } => frame.0 < i,
        } by {
            if i < f.scene.transforms.len() {
                assert(g.scene.transforms[i] == f.scene.transforms[i]);
            }
        }
    }
}

proof fn lemma_flattened_sound(
    depth: nat,
    sources: Sources,
    context: StackingContext,
    root: Option<RootStackingContext>,
    transform: TransformIndex,
    f: Flattening,
)
    requires
        sound(f),
        f.error is None ==> f.scene.stack_ok() && in_table(transform, f),
    ensures
        sound(flattened(depth, sources, context, root, transform, f)),
    decreases depth, context, 1nat, 0nat,
{
    if f.error is None {
        let entered = root_entered(
            root,
            context_entered(sources.device_pixel_ratio, context, transform, f.scene),
        );
        let inside = Flattening { scene: entered.scene, ..f };
        let draw_context = entered.draw_context;
        let inner = draw_context.final_transform;
        let g = flattened(depth, sources, context, root, transform, f);
        lemma_entered(sources, context, root, transform, f);
        lemma_entered_sound(sources, context, root, transform, f);
        match collected(context.display_lists@, sources.display_lists, context.display_lists@.len()) {
            Err(error) => {
                reveal(sound);
            },
            Ok(phases) => {
                let n = context.children@.len();
                let start = Adding { f: inside, iframes: Seq::empty() };
                let first = lists_added(start, phases.background_and_borders, draw_context);
                lemma_lists_added(start, phases.background_and_borders, draw_context);
                lemma_lists_sound(start, phases.background_and_borders, draw_context);
                lemma_in_table(inner, inside, first.f);

                let below = children_flattened(depth, sources, context, true, inner, first.f, n);
                lemma_children_flattened(depth, sources, context, true, inner, first.f, n);
                lemma_children_sound(depth, sources, context, true, inner, first.f, n);
                lemma_in_table(inner, first.f, below);

                let between = Adding { f: below, ..first };
                let middle = middle_added(between, phases, draw_context);
                lemma_middle_added(between, phases, draw_context);
                lemma_middle_sound(between, phases, draw_context);
                lemma_in_table(inner, below, middle.f);

                let above = children_flattened(depth, sources, context, false, inner, middle.f, n);
                lemma_children_flattened(depth, sources, context, false, inner, middle.f, n);
                lemma_children_sound(depth, sources, context, false, inner, middle.f, n);
                lemma_in_table(inner, middle.f, above);

                let framed = iframes_flattened(
                    depth,
                    sources,
                    context,
                    middle.iframes,
                    above,
                    middle.iframes.len(),
                );
                lemma_iframes_flattened(
                    depth,
                    sources,
                    context,
                    middle.iframes,
                    above,
                    middle.iframes.len(),
                );
                lemma_iframes_sound(
                    depth,
                    sources,
                    context,
                    middle.iframes,
                    inner,
                    above,
                    middle.iframes.len(),
                );
                lemma_in_table(inner, above, framed);

                let last = lists_added(Adding { f: framed, ..middle }, phases.outlines, draw_context);
                lemma_lists_sound(
                    Adding { f: framed, ..middle },
                    phases.outlines,
                    draw_context,
                );
                assert(g == context_left(context, last.f));
                reveal(sound);
            },
        }
    }
}

proof fn lemma_children_sound(
    depth: nat,
    sources: Sources,
    context: StackingContext,
    below: bool,
    transform: TransformIndex,
    f: Flattening,
    n: nat,
)
    requires
        sound(f),
        f.error is None ==> f.scene.stack_ok() && in_table(transform, f),
    ensures
        sound(children_flattened(depth, sources, context, below, transform, f, n)),
    decreases depth, context, 0nat, n,
{
    if n == 0 || n > context.children@.len() {
    } else {
        lemma_children_sound(depth, sources, context, below, transform, f, (n - 1) as nat);
        lemma_children_flattened(depth, sources, context, below, transform, f, (n - 1) as nat);
        let g = children_flattened(depth, sources, context, below, transform, f, (n - 1) as nat);
        let child = context.children@[n - 1];
        if (child.z_index < 0) == below {
            if g.error is None {
                lemma_in_table(transform, f, g);
            }
            lemma_flattened_sound(depth, sources, child, None, transform, g);
        }
    }
}

proof fn lemma_iframes_sound(
    depth: nat,
    sources: Sources,
    context: StackingContext,
    iframes: Seq<IframeInfo>,
    frame: TransformIndex,
    f: Flattening,
    n: nat,
)
    requires
        n <= iframes.len(),
        framed_by(iframes, frame),
        sound(f),
        f.error is None ==> f.scene.stack_ok() && in_table(frame, f),
    ensures
        sound(iframes_flattened(depth, sources, context, iframes, f, n)),
    decreases depth, context, 0nat, n,
{
    if n > 0 {
        lemma_iframes_sound(depth, sources, context, iframes, frame, f, (n - 1) as nat);
        lemma_iframes_flattened(depth, sources, context, iframes, f, (n - 1) as nat);
        let g = iframes_flattened(depth, sources, context, iframes, f, (n - 1) as nat);
        let info = iframes[n - 1];
        if g.error is Some || !sources.contexts.contains_key(info.id.key()) || depth == 0 {
        } else {
            let root = sources.contexts[info.id.key()];
            let moved = Transform::MoveTo { frame: info.frame, point: info.origin };
            let placed = Flattening { scene: g.scene.transform_pushed(moved), ..g };
            lemma_in_table(frame, f, g);
            assert(sound(placed)) by {
                reveal(sound);
                if placed.scene.transforms.len() <= usize::MAX {
                    assert forall|k: int| 0 <= k < placed.scene.flat.len() implies (
                    #[trigger] placed.scene.flat[k]).draw_context.final_transform.0
                        < placed.scene.transforms.len() by {
                        assert(placed.scene.flat[k] == g.scene.flat[k]);
                    }
                }
            }
            assert(placed.scene.stack_ok());
            lemma_flattened_sound(
                (depth - 1) as nat,
                sources,
                root.stacking_context,
                Some(root),
                next_transform(g.scene),
                placed,
            );
        }
    }
}

/// However contexts, targets and iframes are nested, the transforms of a flattened scene can be
/// evaluated in order, and every draw list is placed by one of them.
pub proof fn transforms_can_be_evaluated(
    depth: nat,
    sources: Sources,
    context: StackingContext,
    root: Option<RootStackingContext>,
    transform: TransformIndex,
    f: Flattening,
)
    requires
        f.error is None,
        f.scene.stack_ok(),
        evaluable(f.scene),
        transform.0 < f.scene.transforms.len(),
        flattened(depth, sources, context, root, transform, f).scene.transforms.len() <= usize::MAX,
    ensures
        evaluable(flattened(depth, sources, context, root, transform, f).scene),
{
    reveal(sound);
    lemma_flattened_sound(depth, sources, context, root, transform, f);
}

} // verus!
