//! Flattening fails only over something that is missing.
use crate::display::{DisplayList, RootStackingContext, StackingContext};
use crate::flatten::{
    children_flattened, context_entered, flattened, iframes_flattened, lists_added, root_entered, Adding, Flattening,
    IframeInfo, Sources,
};
use crate::ids::{DisplayListID, DrawListID, TransformIndex};
use crate::phases::{collected, SceneError};
use crate::scene::{next_transform, DrawContext, Transform};
use vstd::prelude::*;

verus! {

/// What is reported as missing is not there.
pub open spec fn truly_missing(sources: Sources, f: Flattening) -> bool {
    match f.error {
        None => true,
        Some(SceneError::MissingDisplayList(id)) => !sources.display_lists.contains_key(id.0),
        Some(SceneError::MissingDrawList(id)) => !f.lists.contains_key(id.0),
    }
}

proof fn lemma_collected_missing(
    ids: Seq<DisplayListID>,
    display_lists: Map<u64, DisplayList>,
    n: nat,
)
    ensures
        match collected(ids, display_lists, n) {
            Ok(_) => true,
            Err(SceneError::MissingDisplayList(id)) => !display_lists.contains_key(id.0),
            Err(SceneError::MissingDrawList(_)) => false,
        },
    decreases n,
{
    if n > 0 {
        lemma_collected_missing(ids, display_lists, (n - 1) as nat);
    }
}

/// Flattening fails only over something that is missing: a display list that the backend does
/// not hold, or a draw list that is not in the table, be it that it never was or that it has
/// been taken already.
pub proof fn errors_are_real(
    depth: nat,
    sources: Sources,
    context: StackingContext,
    root: Option<RootStackingContext>,
    transform: TransformIndex,
    f: Flattening,
)
    requires
        f.error is None,
    ensures
        truly_missing(sources, flattened(depth, sources, context, root, transform, f)),
{
    lemma_missing(depth, sources, context, root, transform, f);
}

proof fn lemma_lists_missing(sources: Sources, a: Adding, ids: Seq<DrawListID>, draw_context: DrawContext)
    requires
        truly_missing(sources, a.f),
    ensures
        truly_missing(sources, lists_added(a, ids, draw_context).f),
    decreases ids.len(),
{
    if ids.len() > 0 {
        lemma_lists_missing(sources, a, ids.drop_last(), draw_context);
    }
}

proof fn lemma_missing(
    depth: nat,
    sources: Sources,
    context: StackingContext,
    root: Option<RootStackingContext>,
    transform: TransformIndex,
    f: Flattening,
)
    requires
        truly_missing(sources, f),
    ensures
        truly_missing(sources, flattened(depth, sources, context, root, transform, f)),
    decreases depth, context, 1nat, 0nat,
{
    if f.error is None {
        let entered = root_entered(
            root,
            context_entered(sources.device_pixel_ratio, context, transform, f.scene),
        );
        let inside = Flattening { scene: entered.scene, ..f };
        let draw_context = entered.draw_context;
        let inner = draw_context.final_transform;
        lemma_collected_missing(
            context.display_lists@,
            sources.display_lists,
            context.display_lists@.len(),
        );
        match collected(context.display_lists@, sources.display_lists, context.display_lists@.len()) {
            Err(error) => {},
            Ok(phases) => {
                let n = context.children@.len();
                let start = Adding { f: inside, iframes: Seq::empty() };
                let first = lists_added(start, phases.background_and_borders, draw_context);
                lemma_lists_missing(sources, start, phases.background_and_borders, draw_context);
                let below = children_flattened(depth, sources, context, true, inner, first.f, n);
                lemma_children_missing(depth, sources, context, true, inner, first.f, n);
                let b0 = Adding { f: below, ..first };
                let b1 = lists_added(b0, phases.block_background_and_borders, draw_context);
                let b2 = lists_added(b1, phases.floats, draw_context);
                let b3 = lists_added(b2, phases.content, draw_context);
                let middle = lists_added(b3, phases.positioned_content, draw_context);
                lemma_lists_missing(sources, b0, phases.block_background_and_borders, draw_context);
                lemma_lists_missing(sources, b1, phases.floats, draw_context);
                lemma_lists_missing(sources, b2, phases.content, draw_context);
                lemma_lists_missing(sources, b3, phases.positioned_content, draw_context);
                let above = children_flattened(depth, sources, context, false, inner, middle.f, n);
                lemma_children_missing(depth, sources, context, false, inner, middle.f, n);
                let count = middle.iframes.len();
                let framed = iframes_flattened(depth, sources, context, middle.iframes, above, count);
                lemma_iframes_missing(depth, sources, context, middle.iframes, above, count);
                lemma_lists_missing(
                    sources,
                    Adding { f: framed, ..middle },
                    phases.outlines,
                    draw_context,
                );
            },
        }
    }
}

proof fn lemma_children_missing(
    depth: nat,
    sources: Sources,
    context: StackingContext,
    below: bool,
    transform: TransformIndex,
    f: Flattening,
    n: nat,
)
    requires
        truly_missing(sources, f),
    ensures
        truly_missing(sources, children_flattened(depth, sources, context, below, transform, f, n)),
    decreases depth, context, 0nat, n,
{
    if n == 0 || n > context.children@.len() {
    } else {
        lemma_children_missing(depth, sources, context, below, transform, f, (n - 1) as nat);
        let g = children_flattened(depth, sources, context, below, transform, f, (n - 1) as nat);
        let child = context.children@[n - 1];
        if (child.z_index < 0) == below {
            lemma_missing(depth, sources, child, None, transform, g);
        }
    }
}

proof fn lemma_iframes_missing(
    depth: nat,
    sources: Sources,
    context: StackingContext,
    iframes: Seq<IframeInfo>,
    f: Flattening,
    n: nat,
)
    requires
        truly_missing(sources, f),
    ensures
        truly_missing(sources, iframes_flattened(depth, sources, context, iframes, f, n)),
    decreases depth, context, 0nat, n,
{
    if n > 0 {
        lemma_iframes_missing(depth, sources, context, iframes, f, (n - 1) as nat);
        let g = iframes_flattened(depth, sources, context, iframes, f, (n - 1) as nat);
        let info = iframes[n - 1];
        if g.error is Some || !sources.contexts.contains_key(info.id.key()) || depth == 0 {
        } else {
            let root = sources.contexts[info.id.key()];
            let moved = Transform::MoveTo { frame: info.frame, point: info.origin };
            let placed = Flattening { scene: g.scene.transform_pushed(moved), ..g };
            lemma_missing(
                (depth - 1) as nat,
                sources,
                root.stacking_context,
                Some(root),
                next_transform(g.scene),
                placed,
            );
        }
    }
}

} // verus!
