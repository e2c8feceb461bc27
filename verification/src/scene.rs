//! The flattened scene: draw lists in painting order, render targets and transforms.
use crate::batch::{BatchUpdate, BatchUpdateList, BatchUpdateOp, UpdateOpView, UpdateView};
use crate::display::{DrawList, ItemView};
use crate::geometry::{DeviceSize, Point2D, Rect};
use crate::ids::{DrawListID, DrawListIndex, Epoch, RenderTargetIndex, TextureId, TransformIndex};
use crate::length::{of, Length, Place};
use crate::node::AABBTreeNode;
use crate::scalar::Scalar;
use std::collections::HashMap;
use vstd::prelude::*;

verus! {

/// A surface that draw lists are painted on.  The first target of a scene is the window and
/// has no texture.
#[derive(Debug, PartialEq)]
pub struct RenderTarget {
    pub size: DeviceSize,
    pub draw_list_indices: Vec<DrawListIndex>,
    pub texture_id: Option<TextureId>,
}

/// The contents of a [`RenderTarget`].
#[verifier::ext_equal]
pub struct TargetView {
    pub size: DeviceSize,
    pub lists: Seq<DrawListIndex>,
    pub texture_id: Option<TextureId>,
}

impl View for RenderTarget {
    type V = TargetView;

    open spec fn view(&self) -> TargetView {
        TargetView {
            size: self.size,
            lists: self.draw_list_indices@,
            texture_id: self.texture_id,
        }
    }
}

impl RenderTarget {
    /// A target on which nothing is painted yet.
    pub fn new(size: DeviceSize, texture_id: Option<TextureId>) -> (target: RenderTarget)
        ensures
            target@ == (TargetView { size, lists: Seq::empty(), texture_id }),
    {
        RenderTarget { size, draw_list_indices: Vec::new(), texture_id }
    }
}

/// A transform of the scene, described by the transforms that it is made from.
#[derive(Clone, Copy, Debug, PartialEq, Eq, Structural)]
pub enum Transform {
    /// The identity.
    Identity,
    /// `parent`, applied after a move by `offset`.
    Translate { parent: TransformIndex, offset: Point2D },
    /// A move to the place where `frame` puts `point`.
    MoveTo { frame: TransformIndex, point: Point2D },
}

/// How the items of a draw list are placed and clipped.
#[derive(Clone, Copy, Debug, PartialEq, Eq, Structural)]
pub struct DrawContext {
    pub render_target_index: RenderTargetIndex,
    pub overflow: Rect,
    pub device_pixel_ratio: Scalar,
    pub final_transform: TransformIndex,
}

/// A draw list of the flattened scene.
#[derive(Debug, PartialEq)]
pub struct FlatDrawList {
    pub id: Option<DrawListID>,
    pub draw_context: DrawContext,
    pub draw_list: DrawList,
}

/// The contents of a [`FlatDrawList`].
pub struct FlatView {
    pub id: Option<DrawListID>,
    pub draw_context: DrawContext,
    pub items: Seq<ItemView>,
}

impl View for FlatDrawList {
    type V = FlatView;

    open spec fn view(&self) -> FlatView {
        FlatView { id: self.id, draw_context: self.draw_context, items: self.draw_list@ }
    }
}

/// The scene that the frames are built from.
#[derive(Debug)]
pub struct Scene {
    pub pipeline_epoch_map: HashMap<u64, Epoch>,
    pub nodes: Vec<AABBTreeNode>,
    pub flat_draw_lists: Vec<FlatDrawList>,
    pub transforms: Vec<Transform>,
    pub scroll_offset: Point2D,
    pub render_targets: Vec<RenderTarget>,
    pub render_target_stack: Vec<RenderTargetIndex>,
    pub pending_updates: BatchUpdateList,
}

/// The part of a [`Scene`] that flattening builds.
#[verifier::ext_equal]
pub struct SceneView {
    pub epochs: Map<u64, Epoch>,
    pub flat: Seq<FlatView>,
    pub transforms: Seq<Transform>,
    pub targets: Seq<TargetView>,
    pub stack: Seq<RenderTargetIndex>,
}

impl View for Scene {
    type V = SceneView;

    open spec fn view(&self) -> SceneView {
        SceneView {
            epochs: self.pipeline_epoch_map@,
            flat: self.flat_draw_lists@.map_values(|list: FlatDrawList| list@),
            transforms: self.transforms@,
            targets: self.render_targets@.map_values(|target: RenderTarget| target@),
            stack: self.render_target_stack@,
        }
    }
}

impl SceneView {
    /// There is a current render target, and every target that is waiting to become the
    /// current one again is a target of the scene.
    pub open spec fn stack_ok(self) -> bool {
        &&& self.stack.len() > 0
        &&& forall|i: int| 0 <= i < self.stack.len() ==> (#[trigger] self.stack[i]).0 < self.targets.len()
    }

    /// A new target, which becomes the current one.
    pub open spec fn target_pushed(self, size: DeviceSize, texture_id: Option<TextureId>) -> SceneView {
        SceneView {
            targets: self.targets.push(TargetView { size, lists: Seq::empty(), texture_id }),
            stack: self.stack.push(RenderTargetIndex(index32(self.targets.len()))),
            ..self
        }
    }

    /// A draw list at the end of the painting order, painted on the current target.
    pub open spec fn list_pushed(
        self,
        id: Option<DrawListID>,
        items: Seq<ItemView>,
        draw_context: DrawContext,
    ) -> SceneView {
        let current = self.stack.last().0 as int;
        let target = self.targets[current];
        SceneView {
            flat: self.flat.push(FlatView { id, draw_context, items }),
            targets: self.targets.update(
                current,
                TargetView { lists: target.lists.push(DrawListIndex(index32(self.flat.len()))), ..target },
            ),
            ..self
        }
    }

    /// A transform at the end of the table.
    pub open spec fn transform_pushed(self, transform: Transform) -> SceneView {
        SceneView { transforms: self.transforms.push(transform), ..self }
    }
}

/// The place that the next transform of the table will take.
pub open spec fn next_transform(scene: SceneView) -> TransformIndex {
    TransformIndex(scene.transforms.len() as usize)
}

/// A count cut down to the thirty-two bits of an index.
pub open spec fn index32(n: nat) -> u32 {
    (n % 0x1_0000_0000) as u32
}

/// Cutting a count down to thirty-two bits changes no count that fits.
pub(crate) fn to_index32(n: usize) -> (index: u32)
    ensures
        index == index32(n as nat),
        index <= n,
{
    let wide: u64 = n as u64;
    assert(wide as u32 == wide % 0x1_0000_0000) by (bit_vector);
    wide as u32
}

/// A scroll offset moved by a distance.
pub open spec fn scrolled(offset: Point2D, delta: Point2D) -> Place {
    Place { x: of(offset.x).add(of(delta.x)), y: of(offset.y).add(of(delta.y)) }
}

/// A scroll offset that does not lie past the start of the content: neither coordinate is
/// positive.
pub open spec fn clamped(offset: Point2D) -> Point2D {
    let zero = Scalar { bits: 0 };
    Point2D { x: offset.x.smaller(zero), y: offset.y.smaller(zero) }
}

/// What clearing away a compiled node tells the renderer: its batches are no longer needed.
pub open spec fn destroyed(node: AABBTreeNode) -> Seq<UpdateView> {
    match node.compiled_node {
        Some(compiled) => compiled.batches@.map_values(
            |batch: crate::batch::RenderBatch| UpdateView { id: batch.batch_id, op: UpdateOpView::Destroy },
        ),
        None => Seq::empty(),
    }
}

/// The same for the first `n` nodes of a tree.
pub open spec fn all_destroyed(nodes: Seq<AABBTreeNode>, n: nat) -> Seq<UpdateView>
    decreases n,
{
    if n == 0 {
        Seq::empty()
    } else {
        all_destroyed(nodes, (n - 1) as nat) + destroyed(nodes[n - 1])
    }
}

/// The textures of the first `n` render targets.
pub open spec fn target_textures(targets: Seq<TargetView>, n: nat) -> Seq<TextureId>
    decreases n,
{
    if n == 0 {
        Seq::empty()
    } else {
        let rest = target_textures(targets, (n - 1) as nat);
        match targets[n - 1].texture_id {
            Some(texture_id) => rest.push(texture_id),
            None => rest,
        }
    }
}

impl Scene {
    /// An empty scene.
    pub fn new() -> (scene: Scene)
        ensures
            scene@ == (SceneView {
                epochs: Map::empty(),
                flat: Seq::empty(),
                transforms: Seq::empty(),
                targets: Seq::empty(),
                stack: Seq::empty(),
            }),
            scene.nodes@.len() == 0,
            scene.scroll_offset == (Point2D { x: Scalar { bits: 0 }, y: Scalar { bits: 0 } }),
            scene.pending_updates@ == Seq::<UpdateView>::empty(),
    {
        let scene = Scene {
            pipeline_epoch_map: HashMap::new(),
            nodes: Vec::new(),
            flat_draw_lists: Vec::new(),
            transforms: Vec::new(),
            scroll_offset: Point2D { x: Scalar::zero(), y: Scalar::zero() },
            render_targets: Vec::new(),
            render_target_stack: Vec::new(),
            pending_updates: BatchUpdateList::new(),
        };
        assert(scene@ =~= (SceneView {
            epochs: Map::empty(),
            flat: Seq::empty(),
            transforms: Seq::empty(),
            targets: Seq::empty(),
            stack: Seq::empty(),
        }));
        scene
    }

    /// Whether nothing but the batch updates of the scene differs from `other`.
    pub open spec fn same_but_updates(self, other: Scene) -> bool {
        &&& self@ == other@
        &&& self.nodes == other.nodes
        &&& self.scroll_offset == other.scroll_offset
    }

    /// Whether nothing but what flattening builds differs from `other`.
    pub open spec fn same_outside_view(self, other: Scene) -> bool {
        &&& self.nodes == other.nodes
        &&& self.scroll_offset == other.scroll_offset
        &&& self.pending_updates == other.pending_updates
    }

    /// Hands out the batch updates that have gathered, and starts over with none.
    pub fn pending_updates(&mut self) -> (updates: BatchUpdateList)
        ensures
            updates == old(self).pending_updates,
            final(self).pending_updates@ == Seq::<UpdateView>::empty(),
            final(self).same_but_updates(*old(self)),
    {
        let mut updates = BatchUpdateList::new();
        std::mem::swap(&mut updates, &mut self.pending_updates);
        updates
    }

    /// Clears the render targets and the epochs, and queues the destruction of the batches
    /// that the nodes hold.  The textures of the targets, in target order, are handed out to
    /// be freed.
    pub fn reset(&mut self) -> (freed: Vec<TextureId>)
        requires
            old(self).render_target_stack@.len() == 0,
        ensures
            final(self)@ == (SceneView { epochs: Map::empty(), targets: Seq::empty(), ..old(self)@ }),
            final(self).nodes == old(self).nodes,
            final(self).scroll_offset == old(self).scroll_offset,
            final(self).pending_updates@ == old(self).pending_updates@ + all_destroyed(
                old(self).nodes@,
                old(self).nodes@.len(),
            ),
            freed@ == target_textures(old(self)@.targets, old(self)@.targets.len()),
    {
        self.pipeline_epoch_map.clear();

        let mut i: usize = 0;
        while i < self.nodes.len()
            invariant
                i <= self.nodes@.len(),
                self.nodes == old(self).nodes,
                self.scroll_offset == old(self).scroll_offset,
                self@ == (SceneView { epochs: Map::empty(), ..old(self)@ }),
                self.pending_updates@ == old(self).pending_updates@ + all_destroyed(
                    old(self).nodes@,
                    i as nat,
                ),
            decreases self.nodes@.len() - i,
        {
            let ghost before = self.pending_updates@;
            if let Some(compiled_node) = &self.nodes[i].compiled_node {
                let mut j: usize = 0;
                while j < compiled_node.batches.len()
                    invariant
                        j <= compiled_node.batches@.len(),
                        i < self.nodes@.len(),
                        self.nodes == old(self).nodes,
                        self.nodes@[i as int].compiled_node == Some(*compiled_node),
                        self.scroll_offset == old(self).scroll_offset,
                        self@ == (SceneView { epochs: Map::empty(), ..old(self)@ }),
                        self.pending_updates@ == before + destroyed(self.nodes@[i as int]).take(j as int),
                    decreases compiled_node.batches@.len() - j,
                {
                    self.pending_updates.push(
                        BatchUpdate { id: compiled_node.batches[j].batch_id, op: BatchUpdateOp::Destroy },
                    );
                    j = j + 1;
                    assert(destroyed(self.nodes@[i as int]).take(j as int) =~= destroyed(
                        self.nodes@[i as int],
                    ).take(j - 1).push(destroyed(self.nodes@[i as int])[j - 1]));
                }
                assert(destroyed(self.nodes@[i as int]).take(j as int) =~= destroyed(
                    self.nodes@[i as int],
                ));
            }
            assert(self.pending_updates@ =~= before + destroyed(self.nodes@[i as int]));
            i = i + 1;
        }

        let mut freed: Vec<TextureId> = Vec::new();
        let mut t: usize = 0;
        while t < self.render_targets.len()
            invariant
                t <= self.render_targets@.len(),
                self@.targets == old(self)@.targets,
                freed@ == target_textures(old(self)@.targets, t as nat),
            decreases self.render_targets@.len() - t,
        {
            assert(self@.targets[t as int] == self.render_targets@[t as int]@);
            if let Some(texture_id) = self.render_targets[t].texture_id {
                freed.push(texture_id);
            }
            t = t + 1;
        }
        self.render_targets.clear();
        assert(self@ =~= (SceneView { epochs: Map::empty(), targets: Seq::empty(), ..old(self)@ }));
        freed
    }

    /// Adds a render target and makes it the current one.
    pub fn push_render_target(&mut self, size: DeviceSize, texture_id: Option<TextureId>)
        requires
            forall|i: int|
                0 <= i < old(self)@.stack.len() ==> (#[trigger] old(self)@.stack[i]).0 < old(self)@.targets.len(),
        ensures
            final(self)@ == old(self)@.target_pushed(size, texture_id),
            final(self)@.stack_ok(),
            final(self).same_outside_view(*old(self)),
    {
        let rt_index = RenderTargetIndex(to_index32(self.render_targets.len()));
        self.render_target_stack.push(rt_index);
        let render_target = RenderTarget::new(size, texture_id);
        self.render_targets.push(render_target);
        assert(self@ =~= old(self)@.target_pushed(size, texture_id));
    }

    /// The target that is being painted on.
    pub fn current_render_target(&self) -> (index: RenderTargetIndex)
        requires
            self@.stack.len() > 0,
        ensures
            index == self@.stack.last(),
    {
        self.render_target_stack[self.render_target_stack.len() - 1]
    }

    /// Goes back to the target that was current before the last push.
    pub fn pop_render_target(&mut self)
        requires
            old(self)@.stack.len() > 0,
        ensures
            final(self)@ == (SceneView { stack: old(self)@.stack.drop_last(), ..old(self)@ }),
            final(self).same_outside_view(*old(self)),
    {
        self.render_target_stack.pop();
    }

    /// Adds a draw list at the end of the painting order, on the current target.
    pub fn push_draw_list(&mut self, id: Option<DrawListID>, draw_list: DrawList, draw_context: &DrawContext)
        requires
            old(self)@.stack_ok(),
        ensures
            final(self)@ == old(self)@.list_pushed(id, draw_list@, *draw_context),
            final(self)@.stack_ok(),
            final(self).same_outside_view(*old(self)),
    {
        let current = self.current_render_target().0 as usize;
        let draw_list_index = DrawListIndex(to_index32(self.flat_draw_lists.len()));
        self.render_targets[current].draw_list_indices.push(draw_list_index);
        self.flat_draw_lists.push(FlatDrawList { id, draw_context: *draw_context, draw_list });
        assert(self@.flat =~= old(self)@.list_pushed(id, draw_list@, *draw_context).flat);
        assert(self@.targets =~= old(self)@.list_pushed(id, draw_list@, *draw_context).targets);
    }

    /// Adds a transform at the end of the table and returns its place.
    pub fn push_transform(&mut self, transform: Transform) -> (index: TransformIndex)
        ensures
            final(self)@ == old(self)@.transform_pushed(transform),
            index == next_transform(old(self)@),
            final(self).same_outside_view(*old(self)),
    {
        let index = TransformIndex(self.transforms.len());
        self.transforms.push(transform);
        index
    }

    /// Where the scroll offset would be moved by a distance.
    pub fn scrolled_by(&self, delta: &Point2D) -> (r: Place)
        ensures
            r == scrolled(self.scroll_offset, *delta),
    {
        Place {
            x: Length::Given(self.scroll_offset.x).plus(&Length::Given(delta.x)),
            y: Length::Given(self.scroll_offset.y).plus(&Length::Given(delta.y)),
        }
    }

    /// Moves the scroll offset, but never past the start of the content.
    pub fn scroll(&mut self, moved: Point2D)
        ensures
            final(self).scroll_offset == clamped(moved),
            final(self)@ == old(self)@,
            final(self).nodes == old(self).nodes,
            final(self).pending_updates == old(self).pending_updates,
    {
        self.scroll_offset = moved;
        self.scroll_offset.x = self.scroll_offset.x.min(Scalar::zero());
        self.scroll_offset.y = self.scroll_offset.y.min(Scalar::zero());
    }
}

/// Leaving a target that was just entered brings back the one before it.
pub proof fn pop_undoes_push(scene: SceneView, size: DeviceSize, texture_id: Option<TextureId>)
    ensures
        scene.target_pushed(size, texture_id).stack.drop_last() == scene.stack,
        scene.targets.len() <= u32::MAX ==> scene.target_pushed(size, texture_id).stack.last().0
            == scene.targets.len(),
{
    assert(scene.target_pushed(size, texture_id).stack.drop_last() =~= scene.stack);
}

/// However far it is moved, the scroll offset never lies past the start of the content, and it
/// always is a number.
pub proof fn scrolling_stays_inside(moved: Point2D)
    ensures
        clamped(moved).x.le(Scalar { bits: 0 }),
        clamped(moved).y.le(Scalar { bits: 0 }),
        clamped(clamped(moved)) == clamped(moved),
{
}

} // verus!
