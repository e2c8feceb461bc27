//! A document is painted completely and in painting order.
use crate::display::{ItemView, RootStackingContext, SpecificView, StackingContext};
use crate::flatten::{
    children_flattened, context_entered, context_left, flattened, iframes_flattened, iframes_in, list_added, lists_added,
    middle_added, root_entered, Adding, Flattening, IframeInfo, Sources,
};
use crate::flatten_laws::{
    lemma_children_flattened, lemma_entered, lemma_iframes_flattened, lemma_lists_added, lemma_middle_added,
};
use crate::ids::{DrawListID, PipelineId, TransformIndex};
use crate::phases::{collected, no_phases, Phases};
use crate::scene::{next_transform, DrawContext, FlatView, Transform};
use vstd::prelude::*;

verus! {

/// The phases of a context, if its display lists are there.
pub open spec fn phases_of(sources: Sources, context: StackingContext) -> Phases {
    match collected(context.display_lists@, sources.display_lists, context.display_lists@.len()) {
        Ok(phases) => phases,
        Err(_) => no_phases(),
    }
}

/// The documents that some items embed.
pub open spec fn embedded_in(items: Seq<ItemView>) -> Seq<PipelineId>
    decreases items.len(),
{
    if items.len() == 0 {
        Seq::empty()
    } else {
        match items.last().item {
            SpecificView::Iframe(info) => embedded_in(items.drop_last()).push(info.iframe),
            _ => embedded_in(items.drop_last()),
        }
    }
}

/// The documents that some draw lists embed.
pub open spec fn embedded(lists: Map<u64, Seq<ItemView>>, ids: Seq<DrawListID>) -> Seq<PipelineId>
    decreases ids.len(),
{
    if ids.len() == 0 {
        Seq::empty()
    } else {
        embedded(lists, ids.drop_last()) + embedded_in(lists[ids.last().0])
    }
}

/// The documents that a context embeds.  Outlines are painted after the documents, so what they
/// embed is not shown.
pub open spec fn documents_of(lists: Map<u64, Seq<ItemView>>, phases: Phases) -> Seq<PipelineId> {
    embedded(lists, phases.background_and_borders) + embedded(lists, phases.block_background_and_borders)
        + embedded(lists, phases.floats) + embedded(lists, phases.content) + embedded(
        lists,
        phases.positioned_content,
    )
}

/// The draw lists of a context in painting order: its backgrounds and borders, the children
/// below, its block backgrounds, floats, content and positioned content, the children above, the
/// documents that it embeds, and its outlines.  `lists` holds the items of the draw lists, and
/// `depth` bounds how deep documents are embedded in each other.
pub open spec fn painting_order(
    depth: nat,
    sources: Sources,
    lists: Map<u64, Seq<ItemView>>,
    context: StackingContext,
) -> Seq<DrawListID>
    decreases depth, context, 1nat, 0nat,
{
    let phases = phases_of(sources, context);
    let documents = documents_of(lists, phases);
    phases.background_and_borders + children_order(
        depth,
        sources,
        lists,
        context,
        true,
        context.children@.len(),
    ) + phases.block_background_and_borders + phases.floats + phases.content
        + phases.positioned_content + children_order(
        depth,
        sources,
        lists,
        context,
        false,
        context.children@.len(),
    ) + documents_order(depth, sources, lists, context, documents, documents.len()) + phases.outlines
}

/// The same of those of the first `n` children that lie below the content, or of the others.
pub open spec fn children_order(
    depth: nat,
    sources: Sources,
    lists: Map<u64, Seq<ItemView>>,
    context: StackingContext,
    below: bool,
    n: nat,
) -> Seq<DrawListID>
    decreases depth, context, 0nat, n,
{
    if n == 0 || n > context.children@.len() {
        Seq::empty()
    } else {
        let child = context.children@[n - 1];
        let rest = children_order(depth, sources, lists, context, below, (n - 1) as nat);
        if (child.z_index < 0) == below {
            rest + painting_order(depth, sources, lists, child)
        } else {
            rest
        }
    }
}

/// The same of the first `n` embedded documents.
pub open spec fn documents_order(
    depth: nat,
    sources: Sources,
    lists: Map<u64, Seq<ItemView>>,
    context: StackingContext,
    documents: Seq<PipelineId>,
    n: nat,
) -> Seq<DrawListID>
    decreases depth, context, 0nat, n,
{
    if n == 0 {
        Seq::empty()
    } else {
        let rest = documents_order(depth, sources, lists, context, documents, (n - 1) as nat);
        let key = documents[n - 1].key();
        if depth == 0 || !sources.contexts.contains_key(key) {
            rest
        } else {
            rest + painting_order((depth - 1) as nat, sources, lists, sources.contexts[key].stacking_context)
        }
    }
}

/// Every display list that a context, one of its descendants or a document embedded in one of
/// them names is there.
pub open spec fn complete(
    depth: nat,
    sources: Sources,
    lists: Map<u64, Seq<ItemView>>,
    context: StackingContext,
) -> bool
    decreases depth, context,
{
    &&& collected(context.display_lists@, sources.display_lists, context.display_lists@.len()) is Ok
    &&& forall|c: int|
        0 <= c < context.children@.len() ==> complete(depth, sources, lists, #[trigger] context.children@[c])
    &&& depth > 0 ==> forall|d: int|
        0 <= d < documents_of(lists, phases_of(sources, context)).len() ==> {
            let key = (#[trigger] documents_of(lists, phases_of(sources, context))[d]).key();
            sources.contexts.contains_key(key) ==> complete(
                (depth - 1) as nat,
                sources,
                lists,
                sources.contexts[key].stacking_context,
            )
        }
}

/// The draw lists are in the table, with the given items, each of them named once.
pub open spec fn available(lists: Map<u64, Seq<ItemView>>, f: Flattening, ids: Seq<DrawListID>) -> bool {
    &&& f.error is None
    &&& ids.no_duplicates()
    &&& forall|i: int|
        0 <= i < ids.len() ==> f.lists.contains_key((#[trigger] ids[i]).0) && f.lists[ids[i].0] == lists[ids[i].0]
}

/// The draw lists of a scene that came from the table, in the order of the scene.
pub open spec fn ids_of(flat: Seq<FlatView>) -> Seq<DrawListID>
    decreases flat.len(),
{
    if flat.len() == 0 {
        Seq::empty()
    } else {
        match flat.last().id {
            Some(id) => ids_of(flat.drop_last()).push(id),
            None => ids_of(flat.drop_last()),
        }
    }
}

/// The same, as one fact.
#[verifier::opaque]
spec fn stocked(lists: Map<u64, Seq<ItemView>>, f: Flattening, ids: Seq<DrawListID>) -> bool {
    available(lists, f, ids)
}

/// Some of the available draw lists have been painted, and the others still are available.
#[verifier::opaque]
spec fn painted_on(
    lists: Map<u64, Seq<ItemView>>,
    f: Flattening,
    g: Flattening,
    ids: Seq<DrawListID>,
    rest: Seq<DrawListID>,
) -> bool {
    &&& stocked(lists, g, rest)
    &&& ids_of(g.scene.flat) == ids_of(f.scene.flat) + ids
}

/// The documents of some iframes.
spec fn documents_in(iframes: Seq<IframeInfo>) -> Seq<PipelineId> {
    iframes.map_values(|info: IframeInfo| info.id)
}

proof fn lemma_painted_trans(
    lists: Map<u64, Seq<ItemView>>,
    f: Flattening,
    g: Flattening,
    h: Flattening,
    a: Seq<DrawListID>,
    b: Seq<DrawListID>,
    rest: Seq<DrawListID>,
)
    requires
        painted_on(lists, f, g, a, b + rest),
        painted_on(lists, g, h, b, rest),
    ensures
        painted_on(lists, f, h, a + b, rest),
{
    reveal(painted_on);
    assert(ids_of(f.scene.flat) + a + b =~= ids_of(f.scene.flat) + (a + b));
}

proof fn lemma_available(
    lists: Map<u64, Seq<ItemView>>,
    f: Flattening,
    g: Flattening,
    ids: Seq<DrawListID>,
    rest: Seq<DrawListID>,
)
    requires
        painted_on(lists, f, g, ids, rest),
    ensures
        stocked(lists, g, rest),
        g.error is None,
{
    reveal(painted_on);
    reveal(stocked);
}

proof fn lemma_embedded_in(items: Seq<ItemView>, frame: TransformIndex)
    ensures
        documents_in(iframes_in(items, frame)) == embedded_in(items),
    decreases items.len(),
{
    if items.len() > 0 {
        lemma_embedded_in(items.drop_last(), frame);
        assert(documents_in(iframes_in(items, frame)) =~= embedded_in(items));
    } else {
        assert(documents_in(iframes_in(items, frame)) =~= embedded_in(items));
    }
}

proof fn lemma_lists_painted(
    lists: Map<u64, Seq<ItemView>>,
    a: Adding,
    ids: Seq<DrawListID>,
    draw_context: DrawContext,
    rest: Seq<DrawListID>,
)
    requires
        stocked(lists, a.f, ids + rest),
    ensures
        ({
            let b = lists_added(a, ids, draw_context);
            painted_on(lists, a.f, b.f, ids, rest) && documents_in(b.iframes) == documents_in(a.iframes)
                + embedded(lists, ids)
        }),
    decreases ids.len(),
{
    reveal(painted_on);
    reveal(stocked);
    if ids.len() == 0 {
        assert(ids + rest =~= rest);
        assert(ids_of(a.f.scene.flat) + ids =~= ids_of(a.f.scene.flat));
        assert(documents_in(a.iframes) + embedded(lists, ids) =~= documents_in(a.iframes));
    } else {
        let id = ids.last();
        let most = ids.drop_last();
        assert(ids + rest =~= most + (seq![id] + rest));
        lemma_lists_painted(lists, a, most, draw_context, seq![id] + rest);
        let c = lists_added(a, most, draw_context);
        let b = list_added(c, id, draw_context);
        let left = seq![id] + rest;
        assert(left[0] == id);
        assert(c.f.lists.contains_key(id.0) && c.f.lists[id.0] == lists[id.0]);
        lemma_embedded_in(lists[id.0], draw_context.final_transform);
        let found = iframes_in(lists[id.0], draw_context.final_transform);
        assert(b.iframes == c.iframes + found);
        assert(documents_in(c.iframes + found) =~= documents_in(c.iframes) + documents_in(found));
        assert(documents_in(a.iframes) + embedded(lists, most) + embedded_in(lists[id.0])
            =~= documents_in(a.iframes) + embedded(lists, ids));
        assert forall|i: int| 0 <= i < rest.len() implies b.f.lists.contains_key((#[trigger] rest[i]).0)
            && b.f.lists[rest[i].0] == lists[rest[i].0] by {
            assert(left[i + 1] == rest[i]);
            assert(left[0] != left[i + 1]);
        }
        assert(rest.no_duplicates()) by {
            assert forall|i: int, j: int| 0 <= i < rest.len() && 0 <= j < rest.len() && i != j implies rest[i]
                != rest[j] by {
                assert(left[i + 1] == rest[i] && left[j + 1] == rest[j]);
            }
        }
        assert(b.f.scene.flat.drop_last() =~= c.f.scene.flat);
        assert(ids_of(b.f.scene.flat) =~= ids_of(a.f.scene.flat) + ids);
    }
}

/// Entering a context paints no list of the table.
proof fn lemma_entered_painted(
    lists: Map<u64, Seq<ItemView>>,
    sources: Sources,
    context: StackingContext,
    root: Option<RootStackingContext>,
    transform: TransformIndex,
    f: Flattening,
    rest: Seq<DrawListID>,
)
    requires
        stocked(lists, f, rest),
    ensures
        ({
            let entered = root_entered(
                root,
                context_entered(sources.device_pixel_ratio, context, transform, f.scene),
            );
            painted_on(lists, f, Flattening { scene: entered.scene, ..f }, Seq::empty(), rest)
        }),
{
    reveal(painted_on);
    reveal(stocked);
    let first = context_entered(sources.device_pixel_ratio, context, transform, f.scene);
    if context.isolated() {
        assert(first.scene.flat.drop_last() =~= f.scene.flat);
        assert(first.scene.flat.last().id is None);
    }
    assert(ids_of(first.scene.flat) == ids_of(f.scene.flat));
    let entered = root_entered(root, first);
    match root {
        None => {},
        Some(root) => {
            if entered.scene.flat.len() > first.scene.flat.len() {
                assert(entered.scene.flat.drop_last() =~= first.scene.flat);
                assert(entered.scene.flat.last().id is None);
            } else {
                assert(entered.scene.flat =~= first.scene.flat);
            }
        },
    }
    assert(ids_of(f.scene.flat) + Seq::empty() =~= ids_of(f.scene.flat));
    assert(ids_of(entered.scene.flat) == ids_of(f.scene.flat));
}

/// A document whose display lists are there, and which uses none of its draw lists twice, is
/// flattened without an error, and its draw lists are in the scene completely, in painting
/// order.
pub proof fn documents_are_painted_in_order(
    depth: nat,
    sources: Sources,
    context: StackingContext,
    root: Option<RootStackingContext>,
    transform: TransformIndex,
    f: Flattening,
)
    requires
        f.scene.stack_ok(),
        complete(depth, sources, f.lists, context),
        available(f.lists, f, painting_order(depth, sources, f.lists, context)),
    ensures
        ({
            let g = flattened(depth, sources, context, root, transform, f);
            &&& g.error is None
            &&& ids_of(g.scene.flat) == ids_of(f.scene.flat) + painting_order(
                depth,
                sources,
                f.lists,
                context,
            )
        }),
{
    let lists = f.lists;
    let rest = Seq::<DrawListID>::empty();
    let order = painting_order(depth, sources, lists, context);
    assert(order + rest =~= order);
    reveal(stocked);
    lemma_context_painted(lists, depth, sources, context, root, transform, f, rest);
    reveal(painted_on);
}

/// Nine sequences and a rest, put together from the left or from the right.
proof fn lemma_regroup(
    a: Seq<DrawListID>,
    b: Seq<DrawListID>,
    c: Seq<DrawListID>,
    d: Seq<DrawListID>,
    e: Seq<DrawListID>,
    f: Seq<DrawListID>,
    g: Seq<DrawListID>,
    h: Seq<DrawListID>,
    i: Seq<DrawListID>,
    rest: Seq<DrawListID>,
)
    ensures
        a + b + c + d + e + f + g + h + i + rest == a + (b + (c + (d + (e + (f + (g + (h + (i + rest)))))))),
{
    assert(a + b + c + d + e + f + g + h + i + rest =~= a + (b + (c + (d + (e + (f + (g + (h + (i
        + rest)))))))));
}

/// The documents that the lists of a context embed, phase by phase.
proof fn lemma_documents(
    lists: Map<u64, Seq<ItemView>>,
    phases: Phases,
    first: Adding,
    middle: Adding,
)
    requires
        documents_in(first.iframes) == Seq::<PipelineId>::empty() + embedded(lists, phases.background_and_borders),
        documents_in(middle.iframes) == documents_in(first.iframes) + embedded(
            lists,
            phases.block_background_and_borders,
        ) + embedded(lists, phases.floats) + embedded(lists, phases.content) + embedded(
            lists,
            phases.positioned_content,
        ),
    ensures
        documents_in(middle.iframes) == documents_of(lists, phases),
        middle.iframes.len() == documents_of(lists, phases).len(),
{
    assert(Seq::<PipelineId>::empty() + embedded(lists, phases.background_and_borders) =~= embedded(
        lists,
        phases.background_and_borders,
    ));
    assert(documents_in(middle.iframes).len() == middle.iframes.len());
}

#[verifier::rlimit(30)]
proof fn lemma_context_painted(
    lists: Map<u64, Seq<ItemView>>,
    depth: nat,
    sources: Sources,
    context: StackingContext,
    root: Option<RootStackingContext>,
    transform: TransformIndex,
    f: Flattening,
    rest: Seq<DrawListID>,
)
    requires
        f.error is None,
        f.scene.stack_ok(),
        complete(depth, sources, lists, context),
        stocked(lists, f, painting_order(depth, sources, lists, context) + rest),
    ensures
        painted_on(
            lists,
            f,
            flattened(depth, sources, context, root, transform, f),
            painting_order(depth, sources, lists, context),
            rest,
        ),
    decreases depth, context, 1nat, 0nat,
{
    let entered = root_entered(
        root,
        context_entered(sources.device_pixel_ratio, context, transform, f.scene),
    );
    let inside = Flattening { scene: entered.scene, ..f };
    let draw_context = entered.draw_context;
    let inner = draw_context.final_transform;
    let phases = phases_of(sources, context);
    let n = context.children@.len();
    let documents = documents_of(lists, phases);
    let under = children_order(depth, sources, lists, context, true, n);
    let over = children_order(depth, sources, lists, context, false, n);
    let within = documents_order(depth, sources, lists, context, documents, documents.len());

    // What is still to be painted after each step.
    let rest9 = rest;
    let rest8 = phases.outlines + rest9;
    let rest7 = within + rest8;
    let rest6 = over + rest7;
    let rest5 = phases.positioned_content + rest6;
    let rest4 = phases.content + rest5;
    let rest3 = phases.floats + rest4;
    let rest2 = phases.block_background_and_borders + rest3;
    let rest1 = under + rest2;
    let rest0 = phases.background_and_borders + rest1;
    lemma_regroup(
        phases.background_and_borders,
        under,
        phases.block_background_and_borders,
        phases.floats,
        phases.content,
        phases.positioned_content,
        over,
        within,
        phases.outlines,
        rest,
    );
    assert(painting_order(depth, sources, lists, context) + rest == rest0);

    lemma_entered(sources, context, root, transform, f);
    lemma_entered_painted(lists, sources, context, root, transform, f, rest0);
    lemma_available(lists, f, inside, Seq::empty(), rest0);
    let start = Adding { f: inside, iframes: Seq::empty() };
    let first = lists_added(start, phases.background_and_borders, draw_context);
    lemma_lists_added(start, phases.background_and_borders, draw_context);
    lemma_lists_painted(lists, start, phases.background_and_borders, draw_context, rest1);
    lemma_available(lists, inside, first.f, phases.background_and_borders, rest1);

    let below = children_flattened(depth, sources, context, true, inner, first.f, n);
    lemma_children_flattened(depth, sources, context, true, inner, first.f, n);
    lemma_children_painted(lists, depth, sources, context, true, inner, first.f, n, rest2);
    lemma_available(lists, first.f, below, under, rest2);

    let b0 = Adding { f: below, ..first };
    let b1 = lists_added(b0, phases.block_background_and_borders, draw_context);
    let b2 = lists_added(b1, phases.floats, draw_context);
    let b3 = lists_added(b2, phases.content, draw_context);
    let middle = middle_added(b0, phases, draw_context);
    lemma_middle_added(b0, phases, draw_context);
    lemma_lists_painted(lists, b0, phases.block_background_and_borders, draw_context, rest3);
    lemma_available(lists, below, b1.f, phases.block_background_and_borders, rest3);
    lemma_lists_painted(lists, b1, phases.floats, draw_context, rest4);
    lemma_available(lists, b1.f, b2.f, phases.floats, rest4);
    lemma_lists_painted(lists, b2, phases.content, draw_context, rest5);
    lemma_available(lists, b2.f, b3.f, phases.content, rest5);
    lemma_lists_painted(lists, b3, phases.positioned_content, draw_context, rest6);
    lemma_available(lists, b3.f, middle.f, phases.positioned_content, rest6);
    assert(documents_in(start.iframes) =~= Seq::<PipelineId>::empty());
    lemma_documents(lists, phases, first, middle);

    let above = children_flattened(depth, sources, context, false, inner, middle.f, n);
    lemma_children_flattened(depth, sources, context, false, inner, middle.f, n);
    lemma_children_painted(lists, depth, sources, context, false, inner, middle.f, n, rest7);
    lemma_available(lists, middle.f, above, over, rest7);

    let count = documents.len();
    let framed = iframes_flattened(depth, sources, context, middle.iframes, above, count);
    lemma_documents_painted(lists, depth, sources, context, middle.iframes, above, count, rest8);
    lemma_available(lists, above, framed, within, rest8);
    let last = lists_added(Adding { f: framed, ..middle }, phases.outlines, draw_context);
    lemma_lists_painted(lists, Adding { f: framed, ..middle }, phases.outlines, draw_context, rest9);

    let s1 = phases.background_and_borders;
    let s2 = s1 + under;
    let s3 = s2 + phases.block_background_and_borders;
    let s4 = s3 + phases.floats;
    let s5 = s4 + phases.content;
    let s6 = s5 + phases.positioned_content;
    let s7 = s6 + over;
    let s8 = s7 + within;
    let s9 = s8 + phases.outlines;
    lemma_painted_trans(lists, f, inside, first.f, Seq::empty(), s1, rest1);
    assert(Seq::<DrawListID>::empty() + s1 =~= s1);
    lemma_painted_trans(lists, f, first.f, below, s1, under, rest2);
    lemma_painted_trans(lists, f, below, b1.f, s2, phases.block_background_and_borders, rest3);
    lemma_painted_trans(lists, f, b1.f, b2.f, s3, phases.floats, rest4);
    lemma_painted_trans(lists, f, b2.f, b3.f, s4, phases.content, rest5);
    lemma_painted_trans(lists, f, b3.f, middle.f, s5, phases.positioned_content, rest6);
    lemma_painted_trans(lists, f, middle.f, above, s6, over, rest7);
    lemma_painted_trans(lists, f, above, framed, s7, within, rest8);
    lemma_painted_trans(lists, f, framed, last.f, s8, phases.outlines, rest9);
    assert(s9 == painting_order(depth, sources, lists, context));
    let g = flattened(depth, sources, context, root, transform, f);
    assert(g == context_left(context, last.f));
    reveal(painted_on);
    reveal(stocked);
}

proof fn lemma_children_painted(
    lists: Map<u64, Seq<ItemView>>,
    depth: nat,
    sources: Sources,
    context: StackingContext,
    below: bool,
    transform: TransformIndex,
    f: Flattening,
    n: nat,
    rest: Seq<DrawListID>,
)
    requires
        n <= context.children@.len(),
        f.error is None,
        f.scene.stack_ok(),
        complete(depth, sources, lists, context),
        stocked(lists, f, children_order(depth, sources, lists, context, below, n) + rest),
    ensures
        painted_on(
            lists,
            f,
            children_flattened(depth, sources, context, below, transform, f, n),
            children_order(depth, sources, lists, context, below, n),
            rest,
        ),
    decreases depth, context, 0nat, n,
{
    if n == 0 {
        reveal(painted_on);
        assert(children_order(depth, sources, lists, context, below, n) + rest =~= rest);
        assert(ids_of(f.scene.flat) + Seq::empty() =~= ids_of(f.scene.flat));
    } else {
        let m = (n - 1) as nat;
        let before = children_order(depth, sources, lists, context, below, m);
        let child = context.children@[n - 1];
        let g = children_flattened(depth, sources, context, below, transform, f, m);
        lemma_children_flattened(depth, sources, context, below, transform, f, m);
        if (child.z_index < 0) == below {
            let own = painting_order(depth, sources, lists, child);
            assert(before + own + rest =~= before + (own + rest));
            lemma_children_painted(lists, depth, sources, context, below, transform, f, m, own + rest);
            lemma_available(lists, f, g, before, own + rest);
            assert(complete(depth, sources, lists, child));
            lemma_context_painted(lists, depth, sources, child, None, transform, g, rest);
            lemma_painted_trans(
                lists,
                f,
                g,
                flattened(depth, sources, child, None, transform, g),
                before,
                own,
                rest,
            );
        } else {
            lemma_children_painted(lists, depth, sources, context, below, transform, f, m, rest);
        }
    }
}

proof fn lemma_documents_painted(
    lists: Map<u64, Seq<ItemView>>,
    depth: nat,
    sources: Sources,
    context: StackingContext,
    iframes: Seq<IframeInfo>,
    f: Flattening,
    n: nat,
    rest: Seq<DrawListID>,
)
    requires
        n <= iframes.len(),
        f.error is None,
        f.scene.stack_ok(),
        complete(depth, sources, lists, context),
        documents_in(iframes) == documents_of(lists, phases_of(sources, context)),
        stocked(
            lists,
            f,
            documents_order(depth, sources, lists, context, documents_in(iframes), n) + rest,
        ),
    ensures
        painted_on(
            lists,
            f,
            iframes_flattened(depth, sources, context, iframes, f, n),
            documents_order(depth, sources, lists, context, documents_in(iframes), n),
            rest,
        ),
    decreases depth, context, 0nat, n,
{
    let documents = documents_in(iframes);
    if n == 0 {
        reveal(painted_on);
        assert(documents_order(depth, sources, lists, context, documents, n) + rest =~= rest);
        assert(ids_of(f.scene.flat) + Seq::empty() =~= ids_of(f.scene.flat));
    } else {
        let m = (n - 1) as nat;
        let before = documents_order(depth, sources, lists, context, documents, m);
        let info = iframes[n - 1];
        let key = info.id.key();
        assert(documents[n - 1] == info.id);
        let g = iframes_flattened(depth, sources, context, iframes, f, m);
        lemma_iframes_flattened(depth, sources, context, iframes, f, m);
        if depth == 0 || !sources.contexts.contains_key(key) {
            lemma_documents_painted(lists, depth, sources, context, iframes, f, m, rest);
            lemma_available(lists, f, g, before, rest);
        } else {
            let root = sources.contexts[key];
            let own = painting_order((depth - 1) as nat, sources, lists, root.stacking_context);
            assert(before + own + rest =~= before + (own + rest));
            lemma_documents_painted(lists, depth, sources, context, iframes, f, m, own + rest);
            lemma_available(lists, f, g, before, own + rest);
            let moved = Transform::MoveTo { frame: info.frame, point: info.origin };
            let placed = Flattening { scene: g.scene.transform_pushed(moved), ..g };
            assert(placed.scene.stack_ok());
            assert(stocked(lists, placed, own + rest)) by {
                reveal(stocked);
            }
            assert(complete((depth - 1) as nat, sources, lists, root.stacking_context)) by {
                assert(documents_of(lists, phases_of(sources, context))[n - 1] == info.id);
            }
            lemma_context_painted(
                lists,
                (depth - 1) as nat,
                sources,
                root.stacking_context,
                Some(root),
                next_transform(g.scene),
                placed,
                rest,
            );
            let h = flattened(
                (depth - 1) as nat,
                sources,
                root.stacking_context,
                Some(root),
                next_transform(g.scene),
                placed,
            );
            assert(painted_on(lists, g, h, own, rest)) by {
                reveal(painted_on);
            }
            lemma_painted_trans(lists, f, g, h, before, own, rest);
        }
    }
}

} // verus!
