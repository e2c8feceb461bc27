//! Iframes nest no deeper than there are draw lists, so a bound on the nesting that is as large
//! as the table of draw lists cuts nothing off.
use crate::display::{RootStackingContext, StackingContext};
use crate::flatten::{
    children_flattened, context_entered, flattened, iframes_flattened, lists_added, middle_added, root_entered, Adding,
    Flattening, IframeInfo, Sources,
};
use crate::flatten_laws::{
    kept, lemma_children_flattened, lemma_entered, lemma_fewer_lists, lemma_iframes_flattened, lemma_lists_added,
    lemma_middle_added,
};
use crate::ids::TransformIndex;
use crate::phases::collected;
use crate::scene::{next_transform, Transform};
use vstd::prelude::*;

verus! {

/// The table is finite and has no more lists than either bound.
spec fn bounded(f: Flattening, d: nat, e: nat) -> bool {
    f.lists.dom().finite() && f.lists.dom().len() <= d && f.lists.dom().len() <= e
}

proof fn lemma_bounded(a: Flattening, b: Flattening, d: nat, e: nat)
    requires
        bounded(a, d, e),
        kept(a, b),
    ensures
        bounded(b, d, e),
{
    lemma_fewer_lists(a, b);
}

/// What flattening makes of a context does not depend on the bound on the nesting of iframes, as
/// long as the bound is not smaller than the number of draw lists in the table.
pub proof fn nesting_is_not_cut(
    d: nat,
    e: nat,
    sources: Sources,
    context: StackingContext,
    root: Option<RootStackingContext>,
    transform: TransformIndex,
    f: Flattening,
)
    requires
        f.error is None ==> f.scene.stack_ok(),
        f.lists.dom().finite(),
        f.lists.dom().len() <= d,
        f.lists.dom().len() <= e,
    ensures
        flattened(d, sources, context, root, transform, f) == flattened(
            e,
            sources,
            context,
            root,
            transform,
            f,
        ),
    decreases d, context, 1nat, 0nat,
{
    if f.error is None {
        let entered = root_entered(
            root,
            context_entered(sources.device_pixel_ratio, context, transform, f.scene),
        );
        let inside = Flattening { scene: entered.scene, ..f };
        let draw_context = entered.draw_context;
        let inner = draw_context.final_transform;
        lemma_entered(sources, context, root, transform, f);
        match collected(context.display_lists@, sources.display_lists, context.display_lists@.len()) {
            Err(error) => {},
            Ok(phases) => {
                let n = context.children@.len();
                let start = Adding { f: inside, iframes: Seq::empty() };
                let first = lists_added(start, phases.background_and_borders, draw_context);
                lemma_lists_added(start, phases.background_and_borders, draw_context);
                lemma_bounded(inside, first.f, d, e);

                let below = children_flattened(d, sources, context, true, inner, first.f, n);
                lemma_children_flattened(d, sources, context, true, inner, first.f, n);
                lemma_children_nesting(d, e, sources, context, true, inner, first.f, n);
                lemma_bounded(first.f, below, d, e);

                let between = Adding { f: below, ..first };
                let middle = middle_added(between, phases, draw_context);
                lemma_middle_added(between, phases, draw_context);
                lemma_bounded(below, middle.f, d, e);

                let above = children_flattened(d, sources, context, false, inner, middle.f, n);
                lemma_children_flattened(d, sources, context, false, inner, middle.f, n);
                lemma_children_nesting(d, e, sources, context, false, inner, middle.f, n);
                lemma_bounded(middle.f, above, d, e);

                // An iframe was found in a list that has been taken.
                lemma_fewer_lists(inside, first.f);
                lemma_fewer_lists(first.f, below);
                lemma_fewer_lists(below, middle.f);
                lemma_fewer_lists(middle.f, above);
                assert(middle.iframes.len() > 0 ==> above.lists.dom().len() < inside.lists.dom().len());
                lemma_iframes_nesting(
                    d,
                    e,
                    sources,
                    context,
                    middle.iframes,
                    above,
                    middle.iframes.len(),
                );
            },
        }
    }
}

proof fn lemma_children_nesting(
    d: nat,
    e: nat,
    sources: Sources,
    context: StackingContext,
    below: bool,
    transform: TransformIndex,
    f: Flattening,
    n: nat,
)
    requires
        f.error is None ==> f.scene.stack_ok(),
        bounded(f, d, e),
    ensures
        children_flattened(d, sources, context, below, transform, f, n) == children_flattened(
            e,
            sources,
            context,
            below,
            transform,
            f,
            n,
        ),
    decreases d, context, 0nat, n,
{
    if n == 0 || n > context.children@.len() {
    } else {
        lemma_children_nesting(d, e, sources, context, below, transform, f, (n - 1) as nat);
        lemma_children_flattened(d, sources, context, below, transform, f, (n - 1) as nat);
        let g = children_flattened(d, sources, context, below, transform, f, (n - 1) as nat);
        lemma_bounded(f, g, d, e);
        let child = context.children@[n - 1];
        if (child.z_index < 0) == below {
            nesting_is_not_cut(d, e, sources, child, None, transform, g);
        }
    }
}

proof fn lemma_iframes_nesting(
    d: nat,
    e: nat,
    sources: Sources,
    context: StackingContext,
    iframes: Seq<IframeInfo>,
    f: Flattening,
    n: nat,
)
    requires
        f.error is None ==> f.scene.stack_ok(),
        f.lists.dom().finite(),
        n <= iframes.len(),
        iframes.len() > 0 ==> f.lists.dom().len() < d && f.lists.dom().len() < e,
    ensures
        iframes_flattened(d, sources, context, iframes, f, n) == iframes_flattened(
            e,
            sources,
            context,
            iframes,
            f,
            n,
        ),
    decreases d, context, 0nat, n,
{
    if n > 0 {
        lemma_iframes_nesting(d, e, sources, context, iframes, f, (n - 1) as nat);
        lemma_iframes_flattened(d, sources, context, iframes, f, (n - 1) as nat);
        let g = iframes_flattened(d, sources, context, iframes, f, (n - 1) as nat);
        lemma_fewer_lists(f, g);
        let info = iframes[n - 1];
        if g.error is Some || !sources.contexts.contains_key(info.id.key()) {
        } else {
            let root = sources.contexts[info.id.key()];
            let moved = Transform::MoveTo { frame: info.frame, point: info.origin };
            let placed = Flattening { scene: g.scene.transform_pushed(moved), ..g };
            assert(placed.scene.stack_ok());
            nesting_is_not_cut(
                (d - 1) as nat,
                (e - 1) as nat,
                sources,
                root.stacking_context,
                Some(root),
                next_transform(g.scene),
                placed,
            );
        }
    }
}

} // verus!
