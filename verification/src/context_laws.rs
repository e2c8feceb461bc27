//! Each draw list is painted in the setting of its stacking context.
use crate::display::{
    ClipView, CompositeDisplayItem, ItemView, MixBlendMode, RectangleDisplayItem, RootStackingContext, SpecificView,
    StackingContext,
};
use crate::flatten::{
    background_item, children_flattened, composite_item, context_entered, context_left, flattened, iframes_flattened, iframes_in, list_added, lists_added,
    middle_added, root_entered, Adding, Flattening, IframeInfo, Sources,
};
use crate::flatten_laws::{
    extends, kept, lemma_children_flattened, lemma_entered, lemma_flattened, lemma_iframes_flattened,
    lemma_lists_added,
};
use crate::geometry::{DeviceSize, Point2D, Rect};
use crate::ids::{DrawListID, PipelineId, RenderTargetIndex, TextureId, TransformIndex};
use crate::painting_laws::phases_of;
use crate::phases::{collected, Phases};
use crate::scalar::Scalar;
use crate::scene::{index32, next_transform, DrawContext, SceneView, Transform};
use vstd::prelude::*;

verus! {

/// How something is placed, step by step.
pub enum Placement {
    /// Where it all starts.
    Start,
    /// At the origin of a render target.
    Origin,
    /// Moved, in the coordinates of another placement.
    Moved { within: Box<Placement>, by: Point2D },
    /// At the place of a point of another placement.
    At { within: Box<Placement>, point: Point2D },
}

/// How the transform `index` of a table places things, seen from the transform `start`.
pub open spec fn placement(transforms: Seq<Transform>, start: TransformIndex, index: TransformIndex) -> Placement
    decreases index.0,
{
    if index == start {
        Placement::Start
    } else {
        match transforms[index.0 as int] {
            Transform::Identity => Placement::Origin,
            Transform::Translate { parent, offset } => if parent.0 < index.0 {
                Placement::Moved { within: Box::new(placement(transforms, start, parent)), by: offset }
            } else {
                Placement::Start
            },
            Transform::MoveTo { frame, point } => if frame.0 < index.0 {
                Placement::At { within: Box::new(placement(transforms, start, frame)), point }
            } else {
                Placement::Start
            },
        }
    }
}

/// What the draw lists of a stacking context have in common: what they are clipped to, how many device
/// pixels a pixel has, which target they are painted on, and where.
pub struct Setting {
    pub overflow: Rect,
    pub device_pixel_ratio: Scalar,
    pub target: RenderTargetIndex,
    pub placement: Placement,
}

/// A flat draw list: its identifier, or the items that it was made with, and its setting.
pub struct Entry {
    pub id: Option<DrawListID>,
    pub made: Seq<ItemView>,
    pub setting: Setting,
}

/// The flat draw lists, and the sizes and the textures of the render targets.
#[verifier::ext_equal]
pub struct Painting {
    pub entries: Seq<Entry>,
    pub sizes: Seq<DeviceSize>,
    pub textures: Seq<Option<TextureId>>,
}

/// A flat draw list of a scene.
pub open spec fn entry_of(scene: SceneView, start: TransformIndex, k: int) -> Entry {
    let list = scene.flat[k];
    Entry {
        id: list.id,
        made: if list.id is None {
            list.items
        } else {
            Seq::empty()
        },
        setting: Setting {
            overflow: list.draw_context.overflow,
            device_pixel_ratio: list.draw_context.device_pixel_ratio,
            target: list.draw_context.render_target_index,
            placement: placement(scene.transforms, start, list.draw_context.final_transform),
        },
    }
}

/// The draw lists of a scene from the one at `first` on, and its render targets.
pub open spec fn painting_of(scene: SceneView, start: TransformIndex, first: nat) -> Painting {
    Painting {
        entries: Seq::new((scene.flat.len() - first) as nat, |k: int| entry_of(scene, start, first + k)),
        sizes: Seq::new(scene.targets.len(), |t: int| scene.targets[t].size),
        textures: Seq::new(scene.targets.len(), |t: int| scene.targets[t].texture_id),
    }
}

/// A document that is embedded, and where.
pub struct Embedding {
    pub document: PipelineId,
    pub at: Point2D,
}

/// The documents that some items embed.
pub open spec fn embeddings_in(items: Seq<ItemView>) -> Seq<Embedding>
    decreases items.len(),
{
    if items.len() == 0 {
        Seq::empty()
    } else {
        match items.last().item {
            SpecificView::Iframe(info) => embeddings_in(items.drop_last()).push(
                Embedding { document: info.iframe, at: items.last().rect.origin },
            ),
            _ => embeddings_in(items.drop_last()),
        }
    }
}

/// The documents that some draw lists embed.
pub open spec fn embeddings(lists: Map<u64, Seq<ItemView>>, ids: Seq<DrawListID>) -> Seq<Embedding>
    decreases ids.len(),
{
    if ids.len() == 0 {
        Seq::empty()
    } else {
        embeddings(lists, ids.drop_last()) + embeddings_in(lists[ids.last().0])
    }
}

/// The documents that a context embeds in anything but its outlines.
pub open spec fn embeddings_of(lists: Map<u64, Seq<ItemView>>, phases: Phases) -> Seq<Embedding> {
    embeddings(lists, phases.background_and_borders) + embeddings(lists, phases.block_background_and_borders)
        + embeddings(lists, phases.floats) + embeddings(lists, phases.content) + embeddings(
        lists,
        phases.positioned_content,
    )
}

/// A draw list that was made for one item, which fills the overflow of its context.
pub open spec fn with_item(p: Painting, item: SpecificView, setting: Setting) -> Painting {
    let made = seq![
        ItemView {
            item,
            rect: setting.overflow,
            clip: ClipView { main: setting.overflow, complex: Seq::empty() },
            node_index: None,
        },
    ];
    Painting { entries: p.entries.push(Entry { id: None, made, setting }), ..p }
}

/// Draw lists of the table, in one setting.
pub open spec fn with_lists(p: Painting, ids: Seq<DrawListID>, setting: Setting) -> Painting {
    Painting {
        entries: p.entries + ids.map_values(|id: DrawListID| Entry { id: Some(id), made: Seq::empty(), setting }),
        ..p
    }
}

/// The setting of a context that is painted with what is around it.
pub open spec fn outer_setting(
    sources: Sources,
    context: StackingContext,
    around: Placement,
    target: RenderTargetIndex,
) -> Setting {
    Setting {
        overflow: context.overflow,
        device_pixel_ratio: sources.device_pixel_ratio,
        target,
        placement: Placement::Moved { within: Box::new(around), by: context.bounds.origin },
    }
}

/// The setting of the draw lists of a context: a context that is blended is painted on the next target,
/// from its origin on.
pub open spec fn inner_setting(context: StackingContext, outer: Setting, targets: nat) -> Setting {
    if context.mix_blend_mode == MixBlendMode::Normal {
        outer
    } else {
        Setting { target: RenderTargetIndex(index32(targets)), placement: Placement::Origin, ..outer }
    }
}

/// What is painted before the first list of a context: where it is blended, its target onto the one
/// around it, and a background that shows.
pub open spec fn opening(
    context: StackingContext,
    root: Option<RootStackingContext>,
    outer: Setting,
    p: Painting,
) -> Painting {
    let inner = inner_setting(context, outer, p.sizes.len());
    let blended = if context.mix_blend_mode == MixBlendMode::Normal {
        p
    } else {
        let composite = SpecificView::Composite(
            CompositeDisplayItem { blend_mode: context.mix_blend_mode, target: inner.target },
        );
        let shown = with_item(p, composite, outer);
        Painting {
            sizes: shown.sizes.push(context.overflow.size.whole()),
            textures: shown.textures.push(None),
            ..shown
        }
    };
    match root {
        None => blended,
        Some(root) => if !root.background_color.a.nan() && root.background_color.a.value() > 0 {
            with_item(
                blended,
                SpecificView::Rectangle(RectangleDisplayItem { color: root.background_color }),
                inner,
            )
        } else {
            blended
        },
    }
}

/// What a context adds to a painting: each of its lists in its own setting, in painting order.
pub open spec fn context_painting(
    depth: nat,
    sources: Sources,
    lists: Map<u64, Seq<ItemView>>,
    context: StackingContext,
    root: Option<RootStackingContext>,
    around: Placement,
    target: RenderTargetIndex,
    p: Painting,
) -> Painting
    decreases depth, context, 1nat, 0nat,
{
    let outer = outer_setting(sources, context, around, target);
    let setting = inner_setting(context, outer, p.sizes.len());
    let phases = phases_of(sources, context);
    let documents = embeddings_of(lists, phases);
    let n = context.children@.len();
    let p0 = opening(context, root, outer, p);
    let p1 = with_lists(p0, phases.background_and_borders, setting);
    let p2 = children_painting(depth, sources, lists, context, true, setting, p1, n);
    let p3 = with_lists(p2, phases.block_background_and_borders, setting);
    let p4 = with_lists(p3, phases.floats, setting);
    let p5 = with_lists(p4, phases.content, setting);
    let p6 = with_lists(p5, phases.positioned_content, setting);
    let p7 = children_painting(depth, sources, lists, context, false, setting, p6, n);
    let p8 = documents_painting(depth, sources, lists, context, documents, setting, p7, documents.len());
    with_lists(p8, phases.outlines, setting)
}

/// The same of those of the first `n` children that lie below the content, or of the others: children
/// are placed in the coordinates of their parent.
pub open spec fn children_painting(
    depth: nat,
    sources: Sources,
    lists: Map<u64, Seq<ItemView>>,
    context: StackingContext,
    below: bool,
    setting: Setting,
    p: Painting,
    n: nat,
) -> Painting
    decreases depth, context, 0nat, n,
{
    if n == 0 || n > context.children@.len() {
        p
    } else {
        let rest = children_painting(depth, sources, lists, context, below, setting, p, (n - 1) as nat);
        let child = context.children@[n - 1];
        if (child.z_index < 0) == below {
            context_painting(
                depth,
                sources,
                lists,
                child,
                None,
                setting.placement,
                setting.target,
                rest,
            )
        } else {
            rest
        }
    }
}

/// The same of the first `n` embedded documents: each is placed where its iframe lies.
pub open spec fn documents_painting(
    depth: nat,
    sources: Sources,
    lists: Map<u64, Seq<ItemView>>,
    context: StackingContext,
    documents: Seq<Embedding>,
    setting: Setting,
    p: Painting,
    n: nat,
) -> Painting
    decreases depth, context, 0nat, n,
{
    if n == 0 {
        p
    } else {
        let rest = documents_painting(depth, sources, lists, context, documents, setting, p, (n - 1) as nat);
        let key = documents[n - 1].document.key();
        if depth == 0 || !sources.contexts.contains_key(key) {
            rest
        } else {
            let root = sources.contexts[key];
            context_painting(
                (depth - 1) as nat,
                sources,
                lists,
                root.stacking_context,
                Some(root),
                Placement::At { within: Box::new(setting.placement), point: documents[n - 1].at },
                setting.target,
                rest,
            )
        }
    }
}

/// Flattening paints every draw list in the setting of the stacking context that it belongs to: clipped to
/// the overflow of that context, on its target, and where the context lies.  The lists that are made for
/// the context, which blend its target into the one around it and fill the background of a document, are
/// clipped to that overflow too.  A context that is blended gets a target as large as its overflow, which has
/// no texture yet.
/// `root` is the root of a document where the context is that of one.
pub proof fn lists_are_painted_in_their_settings(
    depth: nat,
    sources: Sources,
    context: StackingContext,
    root: Option<RootStackingContext>,
    transform: TransformIndex,
    f: Flattening,
)
    requires
        root matches Some(root) ==> root.stacking_context == context,
        f.error is None,
        f.scene.stack_ok(),
        transform.0 < f.scene.transforms.len(),
        flattened(depth, sources, context, root, transform, f).error is None,
        flattened(depth, sources, context, root, transform, f).scene.transforms.len() <= usize::MAX,
    ensures
        painting_of(
            flattened(depth, sources, context, root, transform, f).scene,
            transform,
            f.scene.flat.len(),
        ) == context_painting(
            depth,
            sources,
            f.lists,
            context,
            root,
            Placement::Start,
            f.scene.stack.last(),
            painting_of(f.scene, transform, f.scene.flat.len()),
        ),
{
    let first = f.scene.flat.len();
    let p = painting_of(f.scene, transform, first);
    let g = flattened(depth, sources, context, root, transform, f);
    reveal(shows);
    lemma_context_shown(f.lists, transform, first, depth, sources, context, root, transform, f, p);
    assert(painting_of(g.scene, transform, first) =~= context_painting(
        depth,
        sources,
        f.lists,
        context,
        root,
        Placement::Start,
        f.scene.stack.last(),
        p,
    ));
}

/// Whether the draw lists of a painting from `from` on are clipped to a rectangle.
pub open spec fn clipped_to(p: Painting, from: int, overflow: Rect) -> bool {
    forall|k: int| from <= k < p.entries.len() ==> (#[trigger] p.entries[k]).setting.overflow == overflow
}

proof fn lemma_lists_clipped(p: Painting, from: int, ids: Seq<DrawListID>, setting: Setting)
    requires
        0 <= from <= p.entries.len(),
        clipped_to(p, from, setting.overflow),
    ensures
        clipped_to(with_lists(p, ids, setting), from, setting.overflow),
        from <= with_lists(p, ids, setting).entries.len(),
{
    let q = with_lists(p, ids, setting);
    assert forall|k: int| from <= k < q.entries.len() implies (#[trigger] q.entries[k]).setting.overflow
        == setting.overflow by {
        if k < p.entries.len() {
            assert(q.entries[k] == p.entries[k]);
        }
    }
}

/// Every draw list that is added for a context with no children and no embedded documents is clipped to the
/// overflow of that context, those included that blend it into the target around it and that fill its
/// background.
pub proof fn lists_of_a_context_are_clipped_to_its_overflow(
    depth: nat,
    sources: Sources,
    context: StackingContext,
    root: Option<RootStackingContext>,
    transform: TransformIndex,
    f: Flattening,
    k: int,
)
    requires
        root matches Some(root) ==> root.stacking_context == context,
        f.error is None,
        f.scene.stack_ok(),
        transform.0 < f.scene.transforms.len(),
        flattened(depth, sources, context, root, transform, f).error is None,
        flattened(depth, sources, context, root, transform, f).scene.transforms.len() <= usize::MAX,
        context.children@.len() == 0,
        embeddings_of(f.lists, phases_of(sources, context)).len() == 0,
        f.scene.flat.len() <= k < flattened(depth, sources, context, root, transform, f).scene.flat.len(),
    ensures
        flattened(depth, sources, context, root, transform, f).scene.flat[k].draw_context.overflow
            == context.overflow,
{
    lists_are_painted_in_their_settings(depth, sources, context, root, transform, f);
    let first = f.scene.flat.len();
    let g = flattened(depth, sources, context, root, transform, f);
    let p = painting_of(f.scene, transform, first);
    let outer = outer_setting(sources, context, Placement::Start, f.scene.stack.last());
    let setting = inner_setting(context, outer, p.sizes.len());
    let phases = phases_of(sources, context);
    let documents = embeddings_of(f.lists, phases);
    let p0 = opening(context, root, outer, p);
    let p1 = with_lists(p0, phases.background_and_borders, setting);
    let p3 = with_lists(p1, phases.block_background_and_borders, setting);
    let p4 = with_lists(p3, phases.floats, setting);
    let p5 = with_lists(p4, phases.content, setting);
    let p6 = with_lists(p5, phases.positioned_content, setting);
    let p8 = with_lists(p6, phases.outlines, setting);
    assert(children_painting(depth, sources, f.lists, context, true, setting, p1, 0) == p1);
    assert(children_painting(depth, sources, f.lists, context, false, setting, p6, 0) == p6);
    assert(documents_painting(depth, sources, f.lists, context, documents, setting, p6, 0) == p6);
    assert(painting_of(g.scene, transform, first) == p8);
    assert(p.entries.len() == 0);
    assert(clipped_to(p0, 0, context.overflow));
    lemma_lists_clipped(p0, 0, phases.background_and_borders, setting);
    lemma_lists_clipped(p1, 0, phases.block_background_and_borders, setting);
    lemma_lists_clipped(p3, 0, phases.floats, setting);
    lemma_lists_clipped(p4, 0, phases.content, setting);
    lemma_lists_clipped(p5, 0, phases.positioned_content, setting);
    lemma_lists_clipped(p6, 0, phases.outlines, setting);
    assert(painting_of(g.scene, transform, first).entries[k - first] == entry_of(g.scene, transform, k));
    assert(p8.entries[k - first].setting.overflow == context.overflow);
}

/// Whether a scene shows a painting: its draw lists from `first` on and its targets.
#[verifier::opaque]
spec fn shows(scene: SceneView, start: TransformIndex, first: nat, p: Painting) -> bool {
    &&& start.0 < scene.transforms.len()
    &&& scene.targets.len() == p.sizes.len()
    &&& scene.targets.len() == p.textures.len()
    &&& forall|t: int|
        0 <= t < p.sizes.len() ==> (#[trigger] scene.targets[t]).size == p.sizes[t] && scene.targets[t].texture_id
            == p.textures[t]
    &&& scene.flat.len() == first + p.entries.len()
    &&& forall|k: int|
        0 <= k < p.entries.len() ==> (#[trigger] p.entries[k]) == entry_of(scene, start, first + k)
            && scene.flat[first + k].draw_context.final_transform.0 < scene.transforms.len()
}

/// The table holds draw lists with the given items.
spec fn stock(lists: Map<u64, Seq<ItemView>>, f: Flattening) -> bool {
    forall|id: u64| #[trigger] f.lists.contains_key(id) ==> f.lists[id] == lists[id]
}

/// Whether draw lists with a context are painted in a setting.
spec fn sets(scene: SceneView, start: TransformIndex, draw_context: DrawContext, setting: Setting) -> bool {
    &&& draw_context.overflow == setting.overflow
    &&& draw_context.device_pixel_ratio == setting.device_pixel_ratio
    &&& draw_context.render_target_index == setting.target
    &&& draw_context.final_transform.0 < scene.transforms.len()
    &&& placement(scene.transforms, start, draw_context.final_transform) == setting.placement
}

/// Iframes in a frame.
spec fn framed(documents: Seq<Embedding>, frame: TransformIndex) -> Seq<IframeInfo> {
    documents.map_values(|d: Embedding| IframeInfo { id: d.document, frame, origin: d.at })
}

proof fn lemma_placement_kept(
    a: Seq<Transform>,
    b: Seq<Transform>,
    start: TransformIndex,
    index: TransformIndex,
)
    requires
        a.len() <= b.len(),
        forall|i: int| 0 <= i < a.len() ==> #[trigger] b[i] == a[i],
        index.0 < a.len(),
    ensures
        placement(b, start, index) == placement(a, start, index),
    decreases index.0,
{
    if index != start {
        assert(b[index.0 as int] == a[index.0 as int]);
        match a[index.0 as int] {
            Transform::Identity => {},
            Transform::Translate { parent, .. } => {
                if parent.0 < index.0 {
                    lemma_placement_kept(a, b, start, parent);
                }
            },
            Transform::MoveTo { frame, .. } => {
                if frame.0 < index.0 {
                    lemma_placement_kept(a, b, start, frame);
                }
            },
        }
    }
}

proof fn lemma_sets_kept(f: Flattening, g: Flattening, start: TransformIndex, draw_context: DrawContext, setting: Setting)
    requires
        extends(f, g),
        sets(f.scene, start, draw_context, setting),
    ensures
        sets(g.scene, start, draw_context, setting),
{
    reveal(extends);
    lemma_placement_kept(f.scene.transforms, g.scene.transforms, start, draw_context.final_transform);
}

proof fn lemma_stock_kept(lists: Map<u64, Seq<ItemView>>, f: Flattening, g: Flattening)
    requires
        extends(f, g),
        stock(lists, f),
    ensures
        stock(lists, g),
{
    reveal(extends);
}

proof fn lemma_transforms_kept(f: Flattening, g: Flattening)
    requires
        extends(f, g),
    ensures
        f.scene.transforms.len() <= g.scene.transforms.len(),
{
    reveal(extends);
}

proof fn lemma_list_shown(
    scene: SceneView,
    start: TransformIndex,
    first: nat,
    p: Painting,
    id: Option<DrawListID>,
    items: Seq<ItemView>,
    draw_context: DrawContext,
    setting: Setting,
)
    requires
        shows(scene, start, first, p),
        scene.stack_ok(),
        sets(scene, start, draw_context, setting),
    ensures
        ({
            let made = if id is None {
                items
            } else {
                Seq::empty()
            };
            shows(
                scene.list_pushed(id, items, draw_context),
                start,
                first,
                Painting { entries: p.entries.push(Entry { id, made, setting }), ..p },
            )
        }),
{
    reveal(shows);
    let next = scene.list_pushed(id, items, draw_context);
    let current = scene.stack.last().0 as int;
    assert(scene.stack[scene.stack.len() - 1].0 < scene.targets.len());
    let made = if id is None {
        items
    } else {
        Seq::empty()
    };
    let q = Painting { entries: p.entries.push(Entry { id, made, setting }), ..p };
    assert forall|t: int| 0 <= t < q.sizes.len() implies (#[trigger] next.targets[t]).size == q.sizes[t]
        && next.targets[t].texture_id == q.textures[t] by {
        assert(scene.targets[t].size == p.sizes[t]);
    }
    assert forall|k: int| 0 <= k < q.entries.len() implies (#[trigger] q.entries[k]) == entry_of(
        next,
        start,
        first + k,
    ) && next.flat[first + k].draw_context.final_transform.0 < next.transforms.len() by {
        if k < p.entries.len() {
            assert(q.entries[k] == p.entries[k]);
            assert(next.flat[first + k] == scene.flat[first + k]);
        }
    }
}

proof fn lemma_transform_shown(scene: SceneView, start: TransformIndex, first: nat, p: Painting, transform: Transform)
    requires
        shows(scene, start, first, p),
    ensures
        shows(scene.transform_pushed(transform), start, first, p),
{
    reveal(shows);
    let next = scene.transform_pushed(transform);
    assert forall|k: int| 0 <= k < p.entries.len() implies (#[trigger] p.entries[k]) == entry_of(
        next,
        start,
        first + k,
    ) && next.flat[first + k].draw_context.final_transform.0 < next.transforms.len() by {
        lemma_placement_kept(
            scene.transforms,
            next.transforms,
            start,
            scene.flat[first + k].draw_context.final_transform,
        );
    }
}

proof fn lemma_target_shown(scene: SceneView, start: TransformIndex, first: nat, p: Painting, size: DeviceSize)
    requires
        shows(scene, start, first, p),
    ensures
        shows(
            scene.target_pushed(size, None),
            start,
            first,
            Painting { sizes: p.sizes.push(size), textures: p.textures.push(None), ..p },
        ),
{
    reveal(shows);
    let next = scene.target_pushed(size, None);
    let q = Painting { sizes: p.sizes.push(size), textures: p.textures.push(None), ..p };
    assert forall|t: int| 0 <= t < q.sizes.len() implies (#[trigger] next.targets[t]).size == q.sizes[t]
        && next.targets[t].texture_id == q.textures[t] by {
        if t < p.sizes.len() {
            assert(scene.targets[t].size == p.sizes[t]);
        }
    }
    assert forall|k: int| 0 <= k < q.entries.len() implies (#[trigger] q.entries[k]) == entry_of(
        next,
        start,
        first + k,
    ) && next.flat[first + k].draw_context.final_transform.0 < next.transforms.len() by {
        assert(p.entries[k] == entry_of(scene, start, first + k));
    }
}

/// Epochs and waiting targets are no part of a painting.
proof fn lemma_same_shown(a: SceneView, b: SceneView, start: TransformIndex, first: nat, p: Painting)
    requires
        shows(a, start, first, p),
        b.flat == a.flat,
        b.transforms == a.transforms,
        b.targets == a.targets,
    ensures
        shows(b, start, first, p),
{
    reveal(shows);
    assert forall|k: int| 0 <= k < p.entries.len() implies (#[trigger] p.entries[k]) == entry_of(
        b,
        start,
        first + k,
    ) && b.flat[first + k].draw_context.final_transform.0 < b.transforms.len() by {
        assert(p.entries[k] == entry_of(a, start, first + k));
    }
}

/// Entering a context.
proof fn lemma_opening_shown(
    start: TransformIndex,
    first: nat,
    sources: Sources,
    context: StackingContext,
    root: Option<RootStackingContext>,
    transform: TransformIndex,
    f: Flattening,
    p: Painting,
)
    requires
        root matches Some(root) ==> root.stacking_context == context,
        f.error is None,
        f.scene.stack_ok(),
        shows(f.scene, start, first, p),
        transform.0 < f.scene.transforms.len(),
        root_entered(
            root,
            context_entered(sources.device_pixel_ratio, context, transform, f.scene),
        ).scene.transforms.len() <= usize::MAX,
    ensures
        ({
            let entered = root_entered(
                root,
                context_entered(sources.device_pixel_ratio, context, transform, f.scene),
            );
            let around = placement(f.scene.transforms, start, transform);
            let outer = outer_setting(sources, context, around, f.scene.stack.last());
            let setting = inner_setting(context, outer, p.sizes.len());
            &&& sets(entered.scene, start, entered.draw_context, setting)
            &&& shows(entered.scene, start, first, opening(context, root, outer, p))
        }),
{
    let ratio = sources.device_pixel_ratio;
    let around = placement(f.scene.transforms, start, transform);
    let outer = outer_setting(sources, context, around, f.scene.stack.last());
    let setting = inner_setting(context, outer, p.sizes.len());
    let step = Transform::Translate { parent: transform, offset: context.bounds.origin };
    let moved = f.scene.transform_pushed(step);
    let index = next_transform(f.scene);
    let draw_context = DrawContext {
        render_target_index: f.scene.stack.last(),
        overflow: context.overflow,
        device_pixel_ratio: ratio,
        final_transform: index,
    };
    let entered = context_entered(ratio, context, transform, f.scene);
    let both = root_entered(root, entered);
    assert(start.0 < f.scene.transforms.len() && f.scene.targets.len() == p.sizes.len()) by {
        reveal(shows);
    }
    assert(both.scene.transforms == entered.scene.transforms);
    assert(index.0 == f.scene.transforms.len());
    lemma_transform_shown(f.scene, start, first, p, step);
    lemma_placement_kept(f.scene.transforms, moved.transforms, start, transform);
    assert(moved.transforms[index.0 as int] == step);
    assert(sets(moved, start, draw_context, outer));
    let p1 = opening(context, None, outer, p);
    if context.isolated() {
        let target = RenderTargetIndex(index32(moved.targets.len()));
        let item = composite_item(context, target);
        let listed = moved.list_pushed(None, seq![item], draw_context);
        lemma_list_shown(moved, start, first, p, None, seq![item], draw_context, outer);
        let q = Painting { entries: p.entries.push(Entry { id: None, made: seq![item], setting: outer }), ..p };
        lemma_target_shown(listed, start, first, q, context.overflow.size.whole());
        let inside = listed.target_pushed(context.overflow.size.whole(), None);
        let q2 = Painting {
            sizes: q.sizes.push(context.overflow.size.whole()),
            textures: q.textures.push(None),
            ..q
        };
        lemma_transform_shown(inside, start, first, q2, Transform::Identity);
        assert(q2 == p1);
        let fresh = next_transform(inside);
        assert(fresh.0 == inside.transforms.len());
        assert(entered.scene.transforms[fresh.0 as int] == Transform::Identity);
        assert(sets(entered.scene, start, entered.draw_context, setting));
    } else {
        assert(p1 == p);
        assert(sets(entered.scene, start, entered.draw_context, setting));
    }
    assert(shows(entered.scene, start, first, p1));
    match root {
        None => {},
        Some(root) => {
            let noted = SceneView {
                epochs: entered.scene.epochs.insert(root.pipeline_id.key(), root.epoch),
                ..entered.scene
            };
            lemma_same_shown(entered.scene, noted, start, first, p1);
            if (Scalar { bits: 0 }).lt(root.background_color.a) {
                let item = background_item(root);
                lemma_entered(sources, context, None, transform, f);
                assert(noted.stack_ok());
                lemma_list_shown(noted, start, first, p1, None, seq![item], entered.draw_context, setting);
            }
        },
    }
}

proof fn lemma_framed_in(items: Seq<ItemView>, frame: TransformIndex)
    ensures
        iframes_in(items, frame) == framed(embeddings_in(items), frame),
    decreases items.len(),
{
    if items.len() > 0 {
        lemma_framed_in(items.drop_last(), frame);
    }
    assert(iframes_in(items, frame) =~= framed(embeddings_in(items), frame));
}

/// Adding draw lists of the table.
proof fn lemma_lists_shown(
    lists: Map<u64, Seq<ItemView>>,
    start: TransformIndex,
    first: nat,
    a: Adding,
    ids: Seq<DrawListID>,
    draw_context: DrawContext,
    setting: Setting,
    p: Painting,
    documents: Seq<Embedding>,
)
    requires
        a.f.error is None,
        lists_added(a, ids, draw_context).f.error is None,
        a.f.scene.stack_ok(),
        draw_context.render_target_index == a.f.scene.stack.last(),
        stock(lists, a.f),
        shows(a.f.scene, start, first, p),
        sets(a.f.scene, start, draw_context, setting),
        a.iframes == framed(documents, draw_context.final_transform),
    ensures
        ({
            let b = lists_added(a, ids, draw_context);
            &&& shows(b.f.scene, start, first, with_lists(p, ids, setting))
            &&& b.iframes == framed(documents + embeddings(lists, ids), draw_context.final_transform)
            &&& b.f.scene.stack == a.f.scene.stack
            &&& b.f.scene.stack_ok()
            &&& stock(lists, b.f)
            &&& sets(b.f.scene, start, draw_context, setting)
        }),
    decreases ids.len(),
{
    let frame = draw_context.final_transform;
    if ids.len() == 0 {
        assert(with_lists(p, ids, setting) =~= p);
        assert(documents + embeddings(lists, ids) =~= documents);
    } else {
        let most = ids.drop_last();
        let id = ids.last();
        let c = lists_added(a, most, draw_context);
        let b = lists_added(a, ids, draw_context);
        assert(b == list_added(c, id, draw_context));
        lemma_lists_shown(lists, start, first, a, most, draw_context, setting, p, documents);
        let q = with_lists(p, most, setting);
        assert(c.f.lists.contains_key(id.0));
        let items = c.f.lists[id.0];
        lemma_list_shown(c.f.scene, start, first, q, Some(id), items, draw_context, setting);
        let r = Painting { entries: q.entries.push(Entry { id: Some(id), made: Seq::empty(), setting }), ..q };
        assert(r =~= with_lists(p, ids, setting));
        lemma_framed_in(items, frame);
        assert(b.iframes =~= framed(documents + embeddings(lists, ids), frame));
        lemma_lists_added(a, ids, draw_context);
        assert(kept(a.f, b.f));
        lemma_stock_kept(lists, a.f, b.f);
        lemma_sets_kept(a.f, b.f, start, draw_context, setting);
    }
}

#[verifier::rlimit(40)]
proof fn lemma_context_shown(
    lists: Map<u64, Seq<ItemView>>,
    start: TransformIndex,
    first: nat,
    depth: nat,
    sources: Sources,
    context: StackingContext,
    root: Option<RootStackingContext>,
    transform: TransformIndex,
    f: Flattening,
    p: Painting,
)
    requires
        root matches Some(root) ==> root.stacking_context == context,
        f.error is None,
        f.scene.stack_ok(),
        stock(lists, f),
        shows(f.scene, start, first, p),
        transform.0 < f.scene.transforms.len(),
        flattened(depth, sources, context, root, transform, f).error is None,
        flattened(depth, sources, context, root, transform, f).scene.transforms.len() <= usize::MAX,
    ensures
        shows(
            flattened(depth, sources, context, root, transform, f).scene,
            start,
            first,
            context_painting(
                depth,
                sources,
                lists,
                context,
                root,
                placement(f.scene.transforms, start, transform),
                f.scene.stack.last(),
                p,
            ),
        ),
    decreases depth, context, 1nat, 0nat,
{
    let entered = root_entered(
        root,
        context_entered(sources.device_pixel_ratio, context, transform, f.scene),
    );
    let inside = Flattening { scene: entered.scene, ..f };
    let draw_context = entered.draw_context;
    let inner = draw_context.final_transform;
    let phases = phases_of(sources, context);
    let n = context.children@.len();
    let g = flattened(depth, sources, context, root, transform, f);
    assert(collected(context.display_lists@, sources.display_lists, context.display_lists@.len()) is Ok);

    let a0 = Adding { f: inside, iframes: Seq::empty() };
    let a1 = lists_added(a0, phases.background_and_borders, draw_context);
    let below = children_flattened(depth, sources, context, true, inner, a1.f, n);
    let a2 = Adding { f: below, ..a1 };
    let a3 = lists_added(a2, phases.block_background_and_borders, draw_context);
    let a4 = lists_added(a3, phases.floats, draw_context);
    let a5 = lists_added(a4, phases.content, draw_context);
    let a6 = lists_added(a5, phases.positioned_content, draw_context);
    assert(a6 == middle_added(a2, phases, draw_context));
    let above = children_flattened(depth, sources, context, false, inner, a6.f, n);
    let within = iframes_flattened(depth, sources, context, a6.iframes, above, a6.iframes.len());
    let a7 = Adding { f: within, ..a6 };
    let a8 = lists_added(a7, phases.outlines, draw_context);
    assert(g == context_left(context, a8.f));

    lemma_entered(sources, context, root, transform, f);
    lemma_lists_added(a0, phases.background_and_borders, draw_context);
    lemma_children_flattened(depth, sources, context, true, inner, a1.f, n);
    lemma_lists_added(a2, phases.block_background_and_borders, draw_context);
    lemma_lists_added(a3, phases.floats, draw_context);
    lemma_lists_added(a4, phases.content, draw_context);
    lemma_lists_added(a5, phases.positioned_content, draw_context);
    lemma_children_flattened(depth, sources, context, false, inner, a6.f, n);
    lemma_iframes_flattened(depth, sources, context, a6.iframes, above, a6.iframes.len());
    lemma_lists_added(a7, phases.outlines, draw_context);
    lemma_transforms_kept(within, a8.f);
    lemma_transforms_kept(above, within);
    lemma_transforms_kept(a6.f, above);
    lemma_transforms_kept(a5.f, a6.f);
    lemma_transforms_kept(a4.f, a5.f);
    lemma_transforms_kept(a3.f, a4.f);
    lemma_transforms_kept(below, a3.f);
    lemma_transforms_kept(a1.f, below);
    lemma_transforms_kept(inside, a1.f);

    let around = placement(f.scene.transforms, start, transform);
    let outer = outer_setting(sources, context, around, f.scene.stack.last());
    let setting = inner_setting(context, outer, p.sizes.len());
    let p0 = opening(context, root, outer, p);
    let p1 = with_lists(p0, phases.background_and_borders, setting);
    let p2 = children_painting(depth, sources, lists, context, true, setting, p1, n);
    let p3 = with_lists(p2, phases.block_background_and_borders, setting);
    let p4 = with_lists(p3, phases.floats, setting);
    let p5 = with_lists(p4, phases.content, setting);
    let p6 = with_lists(p5, phases.positioned_content, setting);
    let p7 = children_painting(depth, sources, lists, context, false, setting, p6, n);
    let documents = embeddings_of(lists, phases);
    let p8 = documents_painting(depth, sources, lists, context, documents, setting, p7, documents.len());

    lemma_opening_shown(start, first, sources, context, root, transform, f, p);
    lemma_stock_kept(lists, f, inside);
    let none = Seq::<Embedding>::empty();
    assert(a0.iframes =~= framed(none, inner));
    lemma_lists_shown(lists, start, first, a0, phases.background_and_borders, draw_context, setting, p0, none);
    let d1 = none + embeddings(lists, phases.background_and_borders);
    lemma_children_shown(lists, start, first, depth, sources, context, true, draw_context, setting, a1.f, p1, n);
    lemma_stock_kept(lists, a1.f, below);
    lemma_sets_kept(a1.f, below, start, draw_context, setting);
    lemma_lists_shown(lists, start, first, a2, phases.block_background_and_borders, draw_context, setting, p2, d1);
    let d3 = d1 + embeddings(lists, phases.block_background_and_borders);
    lemma_lists_shown(lists, start, first, a3, phases.floats, draw_context, setting, p3, d3);
    let d4 = d3 + embeddings(lists, phases.floats);
    lemma_lists_shown(lists, start, first, a4, phases.content, draw_context, setting, p4, d4);
    let d5 = d4 + embeddings(lists, phases.content);
    lemma_lists_shown(lists, start, first, a5, phases.positioned_content, draw_context, setting, p5, d5);
    let d6 = d5 + embeddings(lists, phases.positioned_content);
    assert(d1 =~= embeddings(lists, phases.background_and_borders));
    assert(d6 == documents);
    lemma_children_shown(lists, start, first, depth, sources, context, false, draw_context, setting, a6.f, p6, n);
    lemma_stock_kept(lists, a6.f, above);
    lemma_sets_kept(a6.f, above, start, draw_context, setting);
    lemma_documents_shown(
        lists,
        start,
        first,
        depth,
        sources,
        context,
        documents,
        draw_context,
        setting,
        above,
        p7,
        documents.len(),
    );
    assert(a6.iframes == framed(documents, inner));
    lemma_stock_kept(lists, above, within);
    lemma_sets_kept(above, within, start, draw_context, setting);
    lemma_lists_shown(lists, start, first, a7, phases.outlines, draw_context, setting, p8, documents);
    lemma_same_shown(a8.f.scene, g.scene, start, first, with_lists(p8, phases.outlines, setting));
}

proof fn lemma_children_shown(
    lists: Map<u64, Seq<ItemView>>,
    start: TransformIndex,
    first: nat,
    depth: nat,
    sources: Sources,
    context: StackingContext,
    below: bool,
    draw_context: DrawContext,
    setting: Setting,
    f: Flattening,
    p: Painting,
    n: nat,
)
    requires
        n <= context.children@.len(),
        f.error is None,
        f.scene.stack_ok(),
        draw_context.render_target_index == f.scene.stack.last(),
        stock(lists, f),
        shows(f.scene, start, first, p),
        sets(f.scene, start, draw_context, setting),
        children_flattened(depth, sources, context, below, draw_context.final_transform, f, n).error is None,
        children_flattened(depth, sources, context, below, draw_context.final_transform, f, n).scene.transforms.len()
            <= usize::MAX,
    ensures
        shows(
            children_flattened(depth, sources, context, below, draw_context.final_transform, f, n).scene,
            start,
            first,
            children_painting(depth, sources, lists, context, below, setting, p, n),
        ),
    decreases depth, context, 0nat, n,
{
    let inner = draw_context.final_transform;
    if n > 0 {
        let m = (n - 1) as nat;
        let g = children_flattened(depth, sources, context, below, inner, f, m);
        let h = children_flattened(depth, sources, context, below, inner, f, n);
        let child = context.children@[n - 1];
        lemma_children_flattened(depth, sources, context, below, inner, f, m);
        if (child.z_index < 0) == below {
            assert(h == flattened(depth, sources, child, None, inner, g));
            lemma_flattened(depth, sources, child, None, inner, g);
            lemma_transforms_kept(g, h);
            lemma_children_shown(lists, start, first, depth, sources, context, below, draw_context, setting, f, p, m);
            lemma_stock_kept(lists, f, g);
            lemma_sets_kept(f, g, start, draw_context, setting);
            let rest = children_painting(depth, sources, lists, context, below, setting, p, m);
            lemma_context_shown(lists, start, first, depth, sources, child, None, inner, g, rest);
        } else {
            lemma_children_shown(lists, start, first, depth, sources, context, below, draw_context, setting, f, p, m);
        }
    }
}

proof fn lemma_documents_shown(
    lists: Map<u64, Seq<ItemView>>,
    start: TransformIndex,
    first: nat,
    depth: nat,
    sources: Sources,
    context: StackingContext,
    documents: Seq<Embedding>,
    draw_context: DrawContext,
    setting: Setting,
    f: Flattening,
    p: Painting,
    n: nat,
)
    requires
        n <= documents.len(),
        f.error is None,
        f.scene.stack_ok(),
        draw_context.render_target_index == f.scene.stack.last(),
        stock(lists, f),
        shows(f.scene, start, first, p),
        sets(f.scene, start, draw_context, setting),
        ({
            let iframes = framed(documents, draw_context.final_transform);
            let h = iframes_flattened(depth, sources, context, iframes, f, n);
            h.error is None && h.scene.transforms.len() <= usize::MAX
        }),
    ensures
        ({
            let iframes = framed(documents, draw_context.final_transform);
            let h = iframes_flattened(depth, sources, context, iframes, f, n);
            shows(
                h.scene,
                start,
                first,
                documents_painting(depth, sources, lists, context, documents, setting, p, n),
            )
        }),
    decreases depth, context, 0nat, n,
{
    if n > 0 {
        let iframes = framed(documents, draw_context.final_transform);
        let m = (n - 1) as nat;
        let g = iframes_flattened(depth, sources, context, iframes, f, m);
        let h = iframes_flattened(depth, sources, context, iframes, f, n);
        let info = iframes[n - 1];
        lemma_iframes_flattened(depth, sources, context, iframes, f, m);
        let key = documents[n - 1].document.key();
        assert(info.id.key() == key);
        if g.error is Some || depth == 0 || !sources.contexts.contains_key(key) {
            assert(h == g);
            lemma_documents_shown(
                lists,
                start,
                first,
                depth,
                sources,
                context,
                documents,
                draw_context,
                setting,
                f,
                p,
                m,
            );
        } else {
            let root = sources.contexts[key];
            let step = Transform::MoveTo { frame: info.frame, point: info.origin };
            let index = next_transform(g.scene);
            let moved = Flattening { scene: g.scene.transform_pushed(step), ..g };
            assert(h == flattened((depth - 1) as nat, sources, root.stacking_context, Some(root), index, moved));
            lemma_flattened((depth - 1) as nat, sources, root.stacking_context, Some(root), index, moved);
            lemma_transforms_kept(moved, h);
            lemma_documents_shown(
                lists,
                start,
                first,
                depth,
                sources,
                context,
                documents,
                draw_context,
                setting,
                f,
                p,
                m,
            );
            let rest = documents_painting(depth, sources, lists, context, documents, setting, p, m);
            lemma_stock_kept(lists, f, g);
            lemma_sets_kept(f, g, start, draw_context, setting);
            lemma_transform_shown(g.scene, start, first, rest, step);
            lemma_placement_kept(g.scene.transforms, moved.scene.transforms, start, info.frame);
            assert(start.0 < g.scene.transforms.len()) by {
                reveal(shows);
            }
            assert(index.0 == g.scene.transforms.len());
            assert(moved.scene.transforms[index.0 as int] == step);
            lemma_context_shown(
                lists,
                start,
                first,
                (depth - 1) as nat,
                sources,
                root.stacking_context,
                Some(root),
                index,
                moved,
                rest,
            );
        }
    }
}

} // verus!
