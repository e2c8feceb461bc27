//! Flattening a tree of stacking contexts into draw lists in painting order.
use crate::display::{
    ClipRegion, ClipView, CompositeDisplayItem, DisplayItem, DisplayList, DrawList, ItemView, RectangleDisplayItem,
    RootStackingContext, SpecificDisplayItem, SpecificView, StackingContext,
};
use crate::flatten_laws::{
    lemma_children_error, lemma_children_flattened, lemma_entered, lemma_fewer_lists, lemma_iframes_error,
    lemma_iframes_flattened, lemma_lists_added, lemma_lists_added_error, lemma_middle_added,
};
use crate::geometry::Point2D;
use crate::ids::{DrawListID, PipelineId, RenderTargetIndex, TransformIndex};
use crate::phases::{collected, Phases, SceneError};
use crate::scalar::Scalar;
use crate::scene::{index32, next_transform, to_index32, DrawContext, Scene, SceneView, Transform};
use crate::tables;
use fnv::FnvHashMap;
use vstd::prelude::*;

verus! {

/// The stacking context that is flattened: one inside a document, or the root of one.
#[derive(Debug)]
pub enum StackingContextKind<'a> {
    Normal(&'a StackingContext),
    Root(&'a RootStackingContext),
}

impl<'a> StackingContextKind<'a> {
    /// The context itself.
    pub open spec fn context(self) -> StackingContext {
        match self {
            StackingContextKind::Normal(context) => *context,
            StackingContextKind::Root(root) => root.stacking_context,
        }
    }

    /// The root that the context is, if it is one.
    pub open spec fn root(self) -> Option<RootStackingContext> {
        match self {
            StackingContextKind::Normal(_) => None,
            StackingContextKind::Root(root) => Some(*root),
        }
    }
}

/// A document inside a document: the pipeline, and the place where the transform `frame` puts
/// `origin`.
#[derive(Clone, Copy, Debug, PartialEq, Eq, Structural)]
pub struct IframeInfo {
    pub id: PipelineId,
    pub frame: TransformIndex,
    pub origin: Point2D,
}

impl IframeInfo {
    /// The document `id` at the place where `frame` puts `origin`.
    pub fn new(id: PipelineId, frame: TransformIndex, origin: Point2D) -> (info: IframeInfo)
        ensures
            info == (IframeInfo { id, frame, origin }),
    {
        IframeInfo { id, frame, origin }
    }
}

/// What flattening reads but does not change.
pub struct Sources {
    pub display_lists: Map<u64, DisplayList>,
    pub contexts: Map<u64, RootStackingContext>,
    pub device_pixel_ratio: Scalar,
}

/// A scene in the making: what has been flattened, the draw lists that have not been taken
/// yet, and what went wrong, if anything did.
#[verifier::ext_equal]
pub struct Flattening {
    pub scene: SceneView,
    pub lists: Map<u64, Seq<ItemView>>,
    pub error: Option<SceneError>,
}

/// The same while the draw lists of one context are added: with the iframes found in them.
#[verifier::ext_equal]
pub struct Adding {
    pub f: Flattening,
    pub iframes: Seq<IframeInfo>,
}

/// The scene after a context was entered, and the context of its draw lists.
pub struct Entered {
    pub scene: SceneView,
    pub draw_context: DrawContext,
}

/// The contents of the draw lists of a table.
pub open spec fn list_views(lists: Map<u64, DrawList>) -> Map<u64, Seq<ItemView>> {
    lists.map_values(|list: DrawList| list@)
}

/// The iframes among some items of a list that `frame` transforms.
pub open spec fn iframes_in(items: Seq<ItemView>, frame: TransformIndex) -> Seq<IframeInfo>
    decreases items.len(),
{
    if items.len() == 0 {
        Seq::empty()
    } else {
        let rest = iframes_in(items.drop_last(), frame);
        match items.last().item {
            SpecificView::Iframe(info) => rest.push(
                IframeInfo { id: info.iframe, frame, origin: items.last().rect.origin },
            ),
            _ => rest,
        }
    }
}

/// The item that blends a context's own target into the one around it.
pub open spec fn composite_item(context: StackingContext, target: RenderTargetIndex) -> ItemView {
    ItemView {
        item: SpecificView::Composite(
            CompositeDisplayItem { blend_mode: context.mix_blend_mode, target },
        ),
        rect: context.overflow,
        clip: ClipView { main: context.overflow, complex: Seq::empty() },
        node_index: None,
    }
}

/// The item that fills a document's background.
pub open spec fn background_item(root: RootStackingContext) -> ItemView {
    ItemView {
        item: SpecificView::Rectangle(RectangleDisplayItem { color: root.background_color }),
        rect: root.stacking_context.overflow,
        clip: ClipView { main: root.stacking_context.overflow, complex: Seq::empty() },
        node_index: None,
    }
}

/// Entering a context: its origin moves the transform, and a context that is blended gets a
/// target of its own, in which coordinates start afresh.
pub open spec fn context_entered(
    ratio: Scalar,
    context: StackingContext,
    transform: TransformIndex,
    scene: SceneView,
) -> Entered {
    let moved = scene.transform_pushed(
        Transform::Translate { parent: transform, offset: context.bounds.origin },
    );
    let draw_context = DrawContext {
        render_target_index: scene.stack.last(),
        overflow: context.overflow,
        device_pixel_ratio: ratio,
        final_transform: next_transform(scene),
    };
    if context.isolated() {
        let target = RenderTargetIndex(index32(moved.targets.len()));
        let inside = moved.list_pushed(None, seq![composite_item(context, target)], draw_context)
            .target_pushed(context.overflow.size.whole(), None);
        Entered {
            scene: inside.transform_pushed(Transform::Identity),
            draw_context: DrawContext {
                render_target_index: target,
                final_transform: next_transform(inside),
                ..draw_context
            },
        }
    } else {
        Entered { scene: moved, draw_context }
    }
}

/// Entering the root of a document: its epoch is noted, and a background that is not fully
/// transparent is painted.
pub open spec fn root_entered(root: Option<RootStackingContext>, entered: Entered) -> Entered {
    match root {
        None => entered,
        Some(root) => {
            let noted = SceneView {
                epochs: entered.scene.epochs.insert(root.pipeline_id.key(), root.epoch),
                ..entered.scene
            };
            Entered {
                scene: if (Scalar { bits: 0 }).lt(root.background_color.a) {
                    noted.list_pushed(None, seq![background_item(root)], entered.draw_context)
                } else {
                    noted
                },
                ..entered
            }
        },
    }
}

/// One draw list is taken from the table and painted; that it is not there is an error.
pub open spec fn list_added(a: Adding, id: DrawListID, draw_context: DrawContext) -> Adding {
    if a.f.error is Some {
        a
    } else if !a.f.lists.contains_key(id.0) {
        Adding { f: Flattening { error: Some(SceneError::MissingDrawList(id)), ..a.f }, ..a }
    } else {
        let items = a.f.lists[id.0];
        Adding {
            f: Flattening {
                scene: a.f.scene.list_pushed(Some(id), items, draw_context),
                lists: a.f.lists.remove(id.0),
                error: None,
            },
            iframes: a.iframes + iframes_in(items, draw_context.final_transform),
        }
    }
}

/// Draw lists are added one after the other.
pub open spec fn lists_added(a: Adding, ids: Seq<DrawListID>, draw_context: DrawContext) -> Adding
    decreases ids.len(),
{
    if ids.len() == 0 {
        a
    } else {
        list_added(lists_added(a, ids.drop_last(), draw_context), ids.last(), draw_context)
    }
}

/// A context is left: the target around it is current again.
pub open spec fn context_left(context: StackingContext, f: Flattening) -> Flattening {
    if f.error is None && context.isolated() {
        Flattening { scene: SceneView { stack: f.scene.stack.drop_last(), ..f.scene }, ..f }
    } else {
        f
    }
}

/// The whole of a context, in painting order: its own backgrounds and borders, the children
/// below, block backgrounds, floats, content and positioned content, the children above, the
/// documents in its iframes, and its outlines.
///
/// Each iframe that is entered was found in a draw list that has been taken, so iframes nest
/// no deeper than there are draw lists to take; `depth` bounds the nesting.
pub open spec fn flattened(
    depth: nat,
    sources: Sources,
    context: StackingContext,
    root: Option<RootStackingContext>,
    transform: TransformIndex,
    f: Flattening,
) -> Flattening
    decreases depth, context, 1nat, 0nat,
{
    if f.error is Some {
        f
    } else {
        let entered = root_entered(
            root,
            context_entered(sources.device_pixel_ratio, context, transform, f.scene),
        );
        let inside = Flattening { scene: entered.scene, ..f };
        let inner = entered.draw_context.final_transform;
        match collected(context.display_lists@, sources.display_lists, context.display_lists@.len()) {
            Err(error) => Flattening { error: Some(error), ..inside },
            Ok(phases) => {
                let first = lists_added(
                    Adding { f: inside, iframes: Seq::empty() },
                    phases.background_and_borders,
                    entered.draw_context,
                );
                let below = children_flattened(
                    depth,
                    sources,
                    context,
                    true,
                    inner,
                    first.f,
                    context.children@.len(),
                );
                let middle = middle_added(Adding { f: below, ..first }, phases, entered.draw_context);
                let above = children_flattened(
                    depth,
                    sources,
                    context,
                    false,
                    inner,
                    middle.f,
                    context.children@.len(),
                );
                let framed = iframes_flattened(
                    depth,
                    sources,
                    context,
                    middle.iframes,
                    above,
                    middle.iframes.len(),
                );
                let last = lists_added(
                    Adding { f: framed, ..middle },
                    phases.outlines,
                    entered.draw_context,
                );
                context_left(context, last.f)
            },
        }
    }
}

/// The phases between the children below and the children above.
pub open spec fn middle_added(a: Adding, phases: Phases, draw_context: DrawContext) -> Adding {
    let a = lists_added(a, phases.block_background_and_borders, draw_context);
    let a = lists_added(a, phases.floats, draw_context);
    let a = lists_added(a, phases.content, draw_context);
    lists_added(a, phases.positioned_content, draw_context)
}

/// Of the first `n` children of a context, those below its content, or the others.
pub open spec fn children_flattened(
    depth: nat,
    sources: Sources,
    context: StackingContext,
    below: bool,
    transform: TransformIndex,
    f: Flattening,
    n: nat,
) -> Flattening
    decreases depth, context, 0nat, n,
{
    if n == 0 || n > context.children@.len() {
        f
    } else {
        let g = children_flattened(depth, sources, context, below, transform, f, (n - 1) as nat);
        let child = context.children@[n - 1];
        if (child.z_index < 0) == below {
            flattened(depth, sources, child, None, transform, g)
        } else {
            g
        }
    }
}

/// The documents of the first `n` iframes; an iframe whose document is not there draws
/// nothing.
pub open spec fn iframes_flattened(
    depth: nat,
    sources: Sources,
    context: StackingContext,
    iframes: Seq<IframeInfo>,
    f: Flattening,
    n: nat,
) -> Flattening
    decreases depth, context, 0nat, n,
{
    if n == 0 {
        f
    } else {
        let g = iframes_flattened(depth, sources, context, iframes, f, (n - 1) as nat);
        let info = iframes[n - 1];
        if g.error is Some || !sources.contexts.contains_key(info.id.key()) || depth == 0 {
            g
        } else {
            let root = sources.contexts[info.id.key()];
            flattened(
                (depth - 1) as nat,
                sources,
                root.stacking_context,
                Some(root),
                next_transform(g.scene),
                Flattening {
                    scene: g.scene.transform_pushed(
                        Transform::MoveTo { frame: info.frame, point: info.origin },
                    ),
                    ..g
                },
            )
        }
    }
}

/// Where a flattening stands: the scene, the table of draw lists, and how the last step ended.
pub open spec fn progress(scene: Scene, lists: Map<u64, DrawList>, r: Result<(), SceneError>) -> Flattening {
    Flattening {
        scene: scene@,
        lists: list_views(lists),
        error: match r {
            Ok(_) => None,
            Err(error) => Some(error),
        },
    }
}

/// What flattening reads, from the tables that hold it.
pub open spec fn sources(
    display_lists: Map<u64, DisplayList>,
    contexts: Map<u64, RootStackingContext>,
    device_pixel_ratio: Scalar,
) -> Sources {
    Sources { display_lists, contexts, device_pixel_ratio }
}

proof fn lemma_list_views_remove(lists: Map<u64, DrawList>, id: u64)
    ensures
        list_views(lists.remove(id)) == list_views(lists).remove(id),
{
    assert(list_views(lists.remove(id)) =~= list_views(lists).remove(id));
}

/// The iframes of a list, in item order.
fn push_iframes(items: &Vec<DisplayItem>, frame: TransformIndex, iframes: &mut Vec<IframeInfo>)
    ensures
        final(iframes)@ == old(iframes)@ + iframes_in(
            items@.map_values(|item: DisplayItem| item@),
            frame,
        ),
{
    let ghost views = items@.map_values(|item: DisplayItem| item@);
    let mut i: usize = 0;
    while i < items.len()
        invariant
            i <= items@.len(),
            views == items@.map_values(|item: DisplayItem| item@),
            iframes@ == old(iframes)@ + iframes_in(views.take(i as int), frame),
        decreases items@.len() - i,
    {
        let item = &items[i];
        assert(views.take(i + 1).drop_last() =~= views.take(i as int));
        assert(views.take(i + 1).last() == item@);
        match &item.item {
            SpecificDisplayItem::Iframe(info) => {
                iframes.push(IframeInfo::new(info.iframe, frame, item.rect.origin));
            },
            _ => {},
        }
        i = i + 1;
        assert(iframes@ =~= old(iframes)@ + iframes_in(views.take(i as int), frame));
    }
    assert(views.take(i as int) =~= views);
}

impl Scene {
    /// Takes a draw list from the table and paints it, and notes the iframes in it.
    pub fn add_draw_list(
        &mut self,
        draw_list_id: DrawListID,
        draw_context: &DrawContext,
        draw_lists: &mut FnvHashMap<u64, DrawList>,
        iframes: &mut Vec<IframeInfo>,
    ) -> (r: Result<(), SceneError>)
        requires
            old(self)@.stack_ok(),
        ensures
            ({
                let b = list_added(
                    Adding {
                        f: progress(*old(self), old(draw_lists)@, Ok(())),
                        iframes: old(iframes)@,
                    },
                    draw_list_id,
                    *draw_context,
                );
                &&& progress(*final(self), final(draw_lists)@, r) == b.f
                &&& final(iframes)@ == b.iframes
            }),
            final(self)@.stack_ok(),
            final(self).same_outside_view(*old(self)),
    {
        let ghost before = list_views(old(draw_lists)@);
        proof {
            lemma_list_views_remove(old(draw_lists)@, draw_list_id.0);
        }
        match tables::remove(draw_lists, &draw_list_id.0) {
            None => {
                assert(draw_lists@ =~= old(draw_lists)@);
                Err(SceneError::MissingDrawList(draw_list_id))
            },
            Some(draw_list) => {
                assert(before[draw_list_id.0] == draw_list@);
                push_iframes(&draw_list.items, draw_context.final_transform, iframes);
                self.push_draw_list(Some(draw_list_id), draw_list, draw_context);
                Ok(())
            },
        }
    }

    /// Adds draw lists one after the other, up to the first that is not there; nothing where
    /// the work has ended already.
    fn add_draw_lists(
        &mut self,
        status: Result<(), SceneError>,
        ids: &Vec<DrawListID>,
        draw_context: &DrawContext,
        draw_lists: &mut FnvHashMap<u64, DrawList>,
        iframes: &mut Vec<IframeInfo>,
    ) -> (r: Result<(), SceneError>)
        requires
            status is Ok ==> old(self)@.stack_ok() && draw_context.render_target_index == old(self)@.stack.last(),
        ensures
            ({
                let b = lists_added(
                    Adding {
                        f: progress(*old(self), old(draw_lists)@, status),
                        iframes: old(iframes)@,
                    },
                    ids@,
                    *draw_context,
                );
                &&& progress(*final(self), final(draw_lists)@, r) == b.f
                &&& final(iframes)@ == b.iframes
            }),
            final(self).same_outside_view(*old(self)),
    {
        let ghost start = Adding {
            f: progress(*old(self), old(draw_lists)@, status),
            iframes: old(iframes)@,
        };
        proof {
            lemma_lists_added(start, ids@, *draw_context);
        }
        if status.is_err() {
            return status;
        }
        let mut i: usize = 0;
        while i < ids.len()
            invariant
                i <= ids@.len(),
                start == (Adding {
                    f: progress(*old(self), old(draw_lists)@, status),
                    iframes: old(iframes)@,
                }),
                self@.stack_ok(),
                self.same_outside_view(*old(self)),
                (Adding { f: progress(*self, draw_lists@, Ok(())), iframes: iframes@ }) == lists_added(
                    start,
                    ids@.take(i as int),
                    *draw_context,
                ),
            decreases ids@.len() - i,
        {
            assert(ids@.take(i + 1).drop_last() =~= ids@.take(i as int));
            match self.add_draw_list(ids[i], draw_context, draw_lists, iframes) {
                Err(error) => {
                    proof {
                        lemma_lists_added_error(start, ids@, i + 1, *draw_context);
                    }
                    return Err(error);
                },
                Ok(()) => {},
            }
            i = i + 1;
        }
        assert(ids@.take(i as int) =~= ids@);
        Ok(())
    }

    /// Enters a context and, where it is one, the root of a document.
    fn enter(
        &mut self,
        kind: &StackingContextKind,
        transform: TransformIndex,
        device_pixel_ratio: Scalar,
    ) -> (draw_context: DrawContext)
        requires
            old(self)@.stack_ok(),
        ensures
            ({
                let entered = root_entered(
                    kind.root(),
                    context_entered(device_pixel_ratio, kind.context(), transform, old(self)@),
                );
                final(self)@ == entered.scene && draw_context == entered.draw_context
            }),
            final(self)@.stack_ok(),
            final(self).same_outside_view(*old(self)),
    {
        let stacking_context = match kind {
            StackingContextKind::Normal(stacking_context) => *stacking_context,
            StackingContextKind::Root(root) => &root.stacking_context,
        };
        let moved = self.push_transform(
            Transform::Translate { parent: transform, offset: stacking_context.bounds.origin },
        );
        let mut draw_context = DrawContext {
            render_target_index: self.current_render_target(),
            overflow: stacking_context.overflow,
            device_pixel_ratio,
            final_transform: moved,
        };
        if stacking_context.needs_render_target() {
            let size = stacking_context.overflow.size.to_device();
            let target = RenderTargetIndex(to_index32(self.render_targets.len()));
            let mut composite_draw_list = DrawList::new();
            let composite = DisplayItem {
                item: SpecificDisplayItem::Composite(
                    CompositeDisplayItem { blend_mode: stacking_context.mix_blend_mode, target },
                ),
                rect: stacking_context.overflow,
                clip: ClipRegion { main: stacking_context.overflow, complex: Vec::new() },
                node_index: None,
            };
            assert(composite@ == composite_item(*stacking_context, target));
            composite_draw_list.push(composite);
            assert(composite_draw_list@ =~= seq![composite_item(*stacking_context, target)]);
            self.push_draw_list(None, composite_draw_list, &draw_context);
            self.push_render_target(size, None);
            draw_context.final_transform = self.push_transform(Transform::Identity);
            draw_context.render_target_index = self.current_render_target();
        }
        match kind {
            StackingContextKind::Normal(_) => {},
            StackingContextKind::Root(root) => {
                self.pipeline_epoch_map.insert(root.pipeline_id.to_key(), root.epoch);
                if Scalar::zero().less_than(root.background_color.a) {
                    let mut root_draw_list = DrawList::new();
                    let background = DisplayItem {
                        item: SpecificDisplayItem::Rectangle(
                            RectangleDisplayItem { color: root.background_color },
                        ),
                        rect: stacking_context.overflow,
                        clip: ClipRegion { main: stacking_context.overflow, complex: Vec::new() },
                        node_index: None,
                    };
                    assert(background@ == background_item(**root));
                    root_draw_list.push(background);
                    assert(root_draw_list@ =~= seq![background_item(**root)]);
                    self.push_draw_list(None, root_draw_list, &draw_context);
                }
            },
        }
        draw_context
    }

    /// Flattens a stacking context and everything inside it, in painting order, onto the
    /// current render target.
    ///
    /// The draw lists move from the table to the scene.  A display list or a draw list that is
    /// not there ends the work; the scene and the table stay as they were at that moment.
    pub fn flatten_stacking_context(
        &mut self,
        stacking_context_kind: StackingContextKind,
        transform: TransformIndex,
        display_list_map: &FnvHashMap<u64, DisplayList>,
        draw_list_map: &mut FnvHashMap<u64, DrawList>,
        stacking_contexts: &FnvHashMap<u64, RootStackingContext>,
        device_pixel_ratio: Scalar,
    ) -> (r: Result<(), SceneError>)
        requires
            old(self)@.stack_ok(),
        ensures
            progress(*final(self), final(draw_list_map)@, r) == flattened(
                old(draw_list_map)@.dom().len(),
                sources(display_list_map@, stacking_contexts@, device_pixel_ratio),
                stacking_context_kind.context(),
                stacking_context_kind.root(),
                transform,
                progress(*old(self), old(draw_list_map)@, Ok(())),
            ),
            final(self).same_outside_view(*old(self)),
    {
        let ghost depth = draw_list_map@.dom().len();
        proof {
            tables::lemma_finite(draw_list_map);
        }
        self.flatten_at(
            stacking_context_kind,
            transform,
            display_list_map,
            draw_list_map,
            stacking_contexts,
            device_pixel_ratio,
            Ghost(depth),
        )
    }

    #[verifier::rlimit(30)]
    fn flatten_at(
        &mut self,
        kind: StackingContextKind,
        transform: TransformIndex,
        display_lists: &FnvHashMap<u64, DisplayList>,
        draw_lists: &mut FnvHashMap<u64, DrawList>,
        contexts: &FnvHashMap<u64, RootStackingContext>,
        device_pixel_ratio: Scalar,
        Ghost(depth): Ghost<nat>,
    ) -> (r: Result<(), SceneError>)
        requires
            old(self)@.stack_ok(),
            old(draw_lists)@.dom().finite(),
            old(draw_lists)@.dom().len() <= depth,
        ensures
            progress(*final(self), final(draw_lists)@, r) == flattened(
                depth,
                sources(display_lists@, contexts@, device_pixel_ratio),
                kind.context(),
                kind.root(),
                transform,
                progress(*old(self), old(draw_lists)@, Ok(())),
            ),
            final(self).same_outside_view(*old(self)),
        decreases depth, kind.context(), 1nat, 0nat,
    {
        let ghost all = sources(display_lists@, contexts@, device_pixel_ratio);
        let ghost f0 = progress(*self, draw_lists@, Ok(()));
        let ghost context = kind.context();
        proof {
            lemma_entered(all, context, kind.root(), transform, f0);
            assert(f0.lists.dom() =~= draw_lists@.dom());
        }
        let draw_context = self.enter(&kind, transform, device_pixel_ratio);
        let ghost f1 = progress(*self, draw_lists@, Ok(()));
        let stacking_context = match &kind {
            StackingContextKind::Normal(stacking_context) => *stacking_context,
            StackingContextKind::Root(root) => &root.stacking_context,
        };
        let lists = match stacking_context.collect_draw_lists(display_lists) {
            Ok(lists) => lists,
            Err(error) => {
                return Err(error);
            },
        };
        let ghost phases = lists@;
        let mut iframes: Vec<IframeInfo> = Vec::new();
        let ghost a1 = Adding { f: f1, iframes: iframes@ };
        assert(a1.iframes =~= Seq::empty());
        let ghost n = context.children@.len();
        let ghost inner = draw_context.final_transform;

        proof {
            lemma_lists_added(a1, phases.background_and_borders, draw_context);
            lemma_fewer_lists(f0, f1);
        }
        let r = self.add_draw_lists(
            Ok(()),
            &lists.background_and_borders,
            &draw_context,
            draw_lists,
            &mut iframes,
        );
        let ghost f2 = progress(*self, draw_lists@, r);
        let ghost a2 = Adding { f: f2, iframes: iframes@ };
        assert(a2 == lists_added(a1, phases.background_and_borders, draw_context));

        proof {
            lemma_children_flattened(depth, all, context, true, inner, f2, n);
            lemma_fewer_lists(f1, f2);
            assert(f2.lists.dom() =~= draw_lists@.dom());
        }
        let r = self.flatten_children(
            r,
            stacking_context,
            true,
            draw_context.final_transform,
            display_lists,
            draw_lists,
            contexts,
            device_pixel_ratio,
            Ghost(depth),
        );
        let ghost f3 = progress(*self, draw_lists@, r);
        let ghost a3 = Adding { f: f3, iframes: iframes@ };

        let ghost a4 = lists_added(a3, phases.block_background_and_borders, draw_context);
        let ghost a5 = lists_added(a4, phases.floats, draw_context);
        let ghost a6 = lists_added(a5, phases.content, draw_context);
        let ghost a7 = lists_added(a6, phases.positioned_content, draw_context);
        proof {
            lemma_fewer_lists(f2, f3);
            lemma_lists_added(a3, phases.block_background_and_borders, draw_context);
            lemma_lists_added(a4, phases.floats, draw_context);
            lemma_lists_added(a5, phases.content, draw_context);
            lemma_middle_added(a3, phases, draw_context);
        }
        let r = self.add_draw_lists(
            r,
            &lists.block_background_and_borders,
            &draw_context,
            draw_lists,
            &mut iframes,
        );
        assert(a4 == Adding { f: progress(*self, draw_lists@, r), iframes: iframes@ });
        let r = self.add_draw_lists(r, &lists.floats, &draw_context, draw_lists, &mut iframes);
        assert(a5 == Adding { f: progress(*self, draw_lists@, r), iframes: iframes@ });
        let r = self.add_draw_lists(r, &lists.content, &draw_context, draw_lists, &mut iframes);
        assert(a6 == Adding { f: progress(*self, draw_lists@, r), iframes: iframes@ });
        let r = self.add_draw_lists(
            r,
            &lists.positioned_content,
            &draw_context,
            draw_lists,
            &mut iframes,
        );
        assert(a7 == Adding { f: progress(*self, draw_lists@, r), iframes: iframes@ });
        assert(a7 == middle_added(a3, phases, draw_context));

        proof {
            lemma_children_flattened(depth, all, context, false, inner, a7.f, n);
            lemma_fewer_lists(f3, a7.f);
            assert(a7.f.lists.dom() =~= draw_lists@.dom());
        }
        let r = self.flatten_children(
            r,
            stacking_context,
            false,
            draw_context.final_transform,
            display_lists,
            draw_lists,
            contexts,
            device_pixel_ratio,
            Ghost(depth),
        );
        let ghost f8 = progress(*self, draw_lists@, r);

        proof {
            lemma_iframes_flattened(depth, all, context, iframes@, f8, iframes@.len());
            lemma_fewer_lists(a7.f, f8);
            assert(f8.lists.dom() =~= draw_lists@.dom());
            // An iframe was found in a list that has been taken, so there is room to go deeper.
            assert(iframes@.len() > 0 ==> f8.lists.dom().len() < depth);
        }
        let r = self.flatten_iframes(
            r,
            stacking_context,
            &iframes,
            display_lists,
            draw_lists,
            contexts,
            device_pixel_ratio,
            Ghost(depth),
        );
        let ghost f9 = progress(*self, draw_lists@, r);
        let ghost a9 = Adding { f: f9, iframes: iframes@ };
        proof {
            lemma_lists_added(a9, phases.outlines, draw_context);
        }
        let r = self.add_draw_lists(r, &lists.outlines, &draw_context, draw_lists, &mut iframes);
        let ghost f10 = progress(*self, draw_lists@, r);

        if r.is_ok() && stacking_context.needs_render_target() {
            self.pop_render_target();
        }
        assert(progress(*self, draw_lists@, r) == context_left(context, f10));
        r
    }

    /// Flattens the children of a context that lie below its content, or the others.
    fn flatten_children(
        &mut self,
        status: Result<(), SceneError>,
        context: &StackingContext,
        below: bool,
        transform: TransformIndex,
        display_lists: &FnvHashMap<u64, DisplayList>,
        draw_lists: &mut FnvHashMap<u64, DrawList>,
        contexts: &FnvHashMap<u64, RootStackingContext>,
        device_pixel_ratio: Scalar,
        Ghost(depth): Ghost<nat>,
    ) -> (r: Result<(), SceneError>)
        requires
            status is Ok ==> old(self)@.stack_ok(),
            old(draw_lists)@.dom().finite(),
            old(draw_lists)@.dom().len() <= depth,
        ensures
            progress(*final(self), final(draw_lists)@, r) == children_flattened(
                depth,
                sources(display_lists@, contexts@, device_pixel_ratio),
                *context,
                below,
                transform,
                progress(*old(self), old(draw_lists)@, status),
                context.children@.len(),
            ),
            final(self).same_outside_view(*old(self)),
        decreases depth, *context, 0nat, context.children@.len(),
    {
        let ghost all = sources(display_lists@, contexts@, device_pixel_ratio);
        let ghost start = progress(*self, draw_lists@, status);
        proof {
            lemma_children_flattened(depth, all, *context, below, transform, start, context.children@.len());
            assert(start.lists.dom() =~= draw_lists@.dom());
        }
        if status.is_err() {
            return status;
        }
        let mut i: usize = 0;
        while i < context.children.len()
            invariant
                i <= context.children@.len(),
                all == sources(display_lists@, contexts@, device_pixel_ratio),
                start == progress(*old(self), old(draw_lists)@, status),
                start.error is None,
                start.scene.stack_ok(),
                start.lists.dom().finite(),
                start.lists.dom().len() <= depth,
                self.same_outside_view(*old(self)),
                progress(*self, draw_lists@, Ok(())) == children_flattened(
                    depth,
                    all,
                    *context,
                    below,
                    transform,
                    start,
                    i as nat,
                ),
            decreases context.children@.len() - i,
        {
            let ghost g = progress(*self, draw_lists@, Ok(()));
            let child = &context.children[i];
            proof {
                lemma_children_flattened(depth, all, *context, below, transform, start, i as nat);
                lemma_fewer_lists(start, g);
                assert(g.lists.dom() =~= draw_lists@.dom());
            }
            if (child.z_index < 0) == below {
                match self.flatten_at(
                    StackingContextKind::Normal(child),
                    transform,
                    display_lists,
                    draw_lists,
                    contexts,
                    device_pixel_ratio,
                    Ghost(depth),
                ) {
                    Ok(()) => {},
                    Err(error) => {
                        proof {
                            lemma_children_error(
                                depth,
                                all,
                                *context,
                                below,
                                transform,
                                start,
                                (i + 1) as nat,
                                context.children@.len(),
                            );
                        }
                        return Err(error);
                    },
                }
            }
            i = i + 1;
        }
        Ok(())
    }

    /// Flattens the documents of a context's iframes.
    fn flatten_iframes(
        &mut self,
        status: Result<(), SceneError>,
        context: &StackingContext,
        iframes: &Vec<IframeInfo>,
        display_lists: &FnvHashMap<u64, DisplayList>,
        draw_lists: &mut FnvHashMap<u64, DrawList>,
        contexts: &FnvHashMap<u64, RootStackingContext>,
        device_pixel_ratio: Scalar,
        Ghost(depth): Ghost<nat>,
    ) -> (r: Result<(), SceneError>)
        requires
            status is Ok ==> old(self)@.stack_ok(),
            old(draw_lists)@.dom().finite(),
            iframes@.len() > 0 ==> old(draw_lists)@.dom().len() < depth,
        ensures
            progress(*final(self), final(draw_lists)@, r) == iframes_flattened(
                depth,
                sources(display_lists@, contexts@, device_pixel_ratio),
                *context,
                iframes@,
                progress(*old(self), old(draw_lists)@, status),
                iframes@.len(),
            ),
            final(self).same_outside_view(*old(self)),
        decreases depth, *context, 0nat, iframes@.len(),
    {
        let ghost all = sources(display_lists@, contexts@, device_pixel_ratio);
        let ghost start = progress(*self, draw_lists@, status);
        proof {
            lemma_iframes_flattened(depth, all, *context, iframes@, start, iframes@.len());
            assert(start.lists.dom() =~= draw_lists@.dom());
        }
        if status.is_err() {
            return status;
        }
        let mut i: usize = 0;
        while i < iframes.len()
            invariant
                i <= iframes@.len(),
                all == sources(display_lists@, contexts@, device_pixel_ratio),
                start == progress(*old(self), old(draw_lists)@, status),
                start.error is None,
                start.scene.stack_ok(),
                start.lists.dom().finite(),
                iframes@.len() > 0 ==> start.lists.dom().len() < depth,
                self.same_outside_view(*old(self)),
                progress(*self, draw_lists@, Ok(())) == iframes_flattened(
                    depth,
                    all,
                    *context,
                    iframes@,
                    start,
                    i as nat,
                ),
            decreases iframes@.len() - i,
        {
            let ghost g = progress(*self, draw_lists@, Ok(()));
            let info = &iframes[i];
            proof {
                lemma_iframes_flattened(depth, all, *context, iframes@, start, i as nat);
                lemma_fewer_lists(start, g);
                assert(g.lists.dom() =~= draw_lists@.dom());
            }
            match tables::get(contexts, &info.id.to_key()) {
                None => {},
                Some(root) => {
                    let placed = self.push_transform(
                        Transform::MoveTo { frame: info.frame, point: info.origin },
                    );
                    match self.flatten_at(
                        StackingContextKind::Root(root),
                        placed,
                        display_lists,
                        draw_lists,
                        contexts,
                        device_pixel_ratio,
                        Ghost((depth - 1) as nat),
                    ) {
                        Ok(()) => {},
                        Err(error) => {
                            proof {
                                lemma_iframes_error(
                                    depth,
                                    all,
                                    *context,
                                    iframes@,
                                    start,
                                    (i + 1) as nat,
                                    iframes@.len(),
                                );
                            }
                            return Err(error);
                        },
                    }
                },
            }
            i = i + 1;
        }
        Ok(())
    }
}

} // verus!
