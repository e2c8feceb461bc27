//! The epochs that a scene shows.
use crate::display::{RootStackingContext, StackingContext};
use crate::flatten::{
    children_flattened, context_entered, context_left, flattened, iframes_flattened, lists_added, middle_added,
    root_entered, Adding, Flattening, IframeInfo, Sources,
};
use crate::ids::{DrawListID, Epoch, TransformIndex};
use crate::phases::collected;
use crate::scene::{next_transform, DrawContext, Transform};
use vstd::prelude::*;

verus! {

/// Every document is kept under its own pipeline.
pub open spec fn contexts_ok(contexts: Map<u64, RootStackingContext>) -> bool {
    forall|key: u64| #[trigger] contexts.contains_key(key) ==> contexts[key].pipeline_id.key() == key
}

/// Pipelines that were noted stay noted, and an epoch that was not noted before is the one of the
/// document of its pipeline.
pub open spec fn epochs_noted(
    contexts: Map<u64, RootStackingContext>,
    before: Map<u64, Epoch>,
    after: Map<u64, Epoch>,
) -> bool {
    &&& forall|key: u64| #[trigger] before.contains_key(key) ==> after.contains_key(key)
    &&& forall|key: u64| #[trigger]
        after.contains_key(key) ==> {
            ||| before.contains_key(key) && after[key] == before[key]
            ||| contexts.contains_key(key) && after[key] == contexts[key].epoch
        }
}

proof fn lemma_noted_trans(
    contexts: Map<u64, RootStackingContext>,
    a: Map<u64, Epoch>,
    b: Map<u64, Epoch>,
    c: Map<u64, Epoch>,
)
    requires
        epochs_noted(contexts, a, b),
        epochs_noted(contexts, b, c),
    ensures
        epochs_noted(contexts, a, c),
{
}

/// Adding draw lists notes no epoch.
proof fn lemma_lists_note_nothing(a: Adding, ids: Seq<DrawListID>, draw_context: DrawContext)
    ensures
        lists_added(a, ids, draw_context).f.scene.epochs == a.f.scene.epochs,
    decreases ids.len(),
{
    if ids.len() > 0 {
        lemma_lists_note_nothing(a, ids.drop_last(), draw_context);
    }
}

proof fn lemma_noted(
    depth: nat,
    sources: Sources,
    context: StackingContext,
    root: Option<RootStackingContext>,
    transform: TransformIndex,
    f: Flattening,
)
    requires
        contexts_ok(sources.contexts),
        root matches Some(root) ==> sources.contexts.contains_key(root.pipeline_id.key())
            && sources.contexts[root.pipeline_id.key()].epoch == root.epoch,
    ensures
        ({
            let g = flattened(depth, sources, context, root, transform, f);
            &&& epochs_noted(sources.contexts, f.scene.epochs, g.scene.epochs)
            &&& f.error is None && root is Some ==> {
                let key = root.unwrap().pipeline_id.key();
                g.scene.epochs.contains_key(key) && g.scene.epochs[key] == root.unwrap().epoch
            }
        }),
    decreases depth, context, 1nat, 0nat,
{
    if f.error is None {
        let entered = root_entered(
            root,
            context_entered(sources.device_pixel_ratio, context, transform, f.scene),
        );
        let inside = Flattening { scene: entered.scene, ..f };
        let draw_context = entered.draw_context;
        let inner = draw_context.final_transform;
        let contexts = sources.contexts;
        assert(epochs_noted(contexts, f.scene.epochs, inside.scene.epochs));
        match collected(context.display_lists@, sources.display_lists, context.display_lists@.len()) {
            Err(error) => {},
            Ok(phases) => {
                let n = context.children@.len();
                let start = Adding { f: inside, iframes: Seq::empty() };
                let first = lists_added(start, phases.background_and_borders, draw_context);
                lemma_lists_note_nothing(start, phases.background_and_borders, draw_context);
                let below = children_flattened(depth, sources, context, true, inner, first.f, n);
                lemma_children_noted(depth, sources, context, true, inner, first.f, n);
                let b0 = Adding { f: below, ..first };
                let b1 = lists_added(b0, phases.block_background_and_borders, draw_context);
                let b2 = lists_added(b1, phases.floats, draw_context);
                let b3 = lists_added(b2, phases.content, draw_context);
                let middle = middle_added(b0, phases, draw_context);
                lemma_lists_note_nothing(b0, phases.block_background_and_borders, draw_context);
                lemma_lists_note_nothing(b1, phases.floats, draw_context);
                lemma_lists_note_nothing(b2, phases.content, draw_context);
                lemma_lists_note_nothing(b3, phases.positioned_content, draw_context);
                let above = children_flattened(depth, sources, context, false, inner, middle.f, n);
                lemma_children_noted(depth, sources, context, false, inner, middle.f, n);
                let count = middle.iframes.len();
                let framed = iframes_flattened(depth, sources, context, middle.iframes, above, count);
                lemma_iframes_noted(depth, sources, context, middle.iframes, above, count);
                let ends = Adding { f: framed, ..middle };
                lemma_lists_note_nothing(ends, phases.outlines, draw_context);
                let noted = inside.scene.epochs;
                lemma_noted_trans(contexts, noted, below.scene.epochs, above.scene.epochs);
                lemma_noted_trans(contexts, noted, above.scene.epochs, framed.scene.epochs);
                lemma_noted_trans(contexts, f.scene.epochs, noted, framed.scene.epochs);
                let last = lists_added(ends, phases.outlines, draw_context);
                let g = flattened(depth, sources, context, root, transform, f);
                assert(g == context_left(context, last.f));
                if let Some(root) = root {
                    assert(noted.contains_key(root.pipeline_id.key()));
                }
            },
        }
    }
}

proof fn lemma_children_noted(
    depth: nat,
    sources: Sources,
    context: StackingContext,
    below: bool,
    transform: TransformIndex,
    f: Flattening,
    n: nat,
)
    requires
        contexts_ok(sources.contexts),
    ensures
        epochs_noted(
            sources.contexts,
            f.scene.epochs,
            children_flattened(depth, sources, context, below, transform, f, n).scene.epochs,
        ),
    decreases depth, context, 0nat, n,
{
    if n == 0 || n > context.children@.len() {
    } else {
        lemma_children_noted(depth, sources, context, below, transform, f, (n - 1) as nat);
        let g = children_flattened(depth, sources, context, below, transform, f, (n - 1) as nat);
        let child = context.children@[n - 1];
        if (child.z_index < 0) == below {
            lemma_noted(depth, sources, child, None, transform, g);
            lemma_noted_trans(
                sources.contexts,
                f.scene.epochs,
                g.scene.epochs,
                flattened(depth, sources, child, None, transform, g).scene.epochs,
            );
        }
    }
}

proof fn lemma_iframes_noted(
    depth: nat,
    sources: Sources,
    context: StackingContext,
    iframes: Seq<IframeInfo>,
    f: Flattening,
    n: nat,
)
    requires
        contexts_ok(sources.contexts),
    ensures
        epochs_noted(
            sources.contexts,
            f.scene.epochs,
            iframes_flattened(depth, sources, context, iframes, f, n).scene.epochs,
        ),
    decreases depth, context, 0nat, n,
{
    if n > 0 {
        lemma_iframes_noted(depth, sources, context, iframes, f, (n - 1) as nat);
        let g = iframes_flattened(depth, sources, context, iframes, f, (n - 1) as nat);
        let info = iframes[n - 1];
        if g.error is Some || !sources.contexts.contains_key(info.id.key()) || depth == 0 {
        } else {
            let root = sources.contexts[info.id.key()];
            let moved = Transform::MoveTo { frame: info.frame, point: info.origin };
            let placed = Flattening { scene: g.scene.transform_pushed(moved), ..g };
            let next = next_transform(g.scene);
            lemma_noted((depth - 1) as nat, sources, root.stacking_context, Some(root), next, placed);
            lemma_noted_trans(
                sources.contexts,
                f.scene.epochs,
                g.scene.epochs,
                flattened((depth - 1) as nat, sources, root.stacking_context, Some(root), next, placed).scene.epochs,
            );
        }
    }
}

/// Flattening the root of a document notes its epoch under its pipeline, and every other epoch that
/// it notes is that of the document of its pipeline.  Documents are told apart by their pipelines:
/// one that is embedded under the pipeline of the root is the root.
pub proof fn epochs_are_those_of_the_documents(
    depth: nat,
    sources: Sources,
    root: RootStackingContext,
    transform: TransformIndex,
    f: Flattening,
)
    requires
        f.error is None,
        contexts_ok(sources.contexts),
        sources.contexts.contains_key(root.pipeline_id.key()),
        sources.contexts[root.pipeline_id.key()] == root,
    ensures
        ({
            let g = flattened(depth, sources, root.stacking_context, Some(root), transform, f);
            let key = root.pipeline_id.key();
            &&& g.scene.epochs.contains_key(key)
            &&& g.scene.epochs[key] == root.epoch
            &&& epochs_noted(sources.contexts, f.scene.epochs, g.scene.epochs)
        }),
{
    lemma_noted(depth, sources, root.stacking_context, Some(root), transform, f);
}

} // verus!
