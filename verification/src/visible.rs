//! The visible nodes of a scene: what is left to compile, the batches that the renderer has to
//! be told about, and the frame that they make.
use crate::batch::{
    BatchUpdate, BatchUpdateOp, CompiledNode, DrawCommand, MatrixMap, MatrixSlot, PaletteEntry, RenderBatch,
    UpdateOpView, UpdateView,
};
use crate::frame::{sort_commands, sorted_from, DrawLayer, Frame};
use crate::ids::BatchId;
use crate::node::{AABBTreeNode, ResourceList};
use crate::scene::{FlatView, Scene, TargetView};
use vstd::prelude::*;

verus! {

/// The commands that are drawn into one target.
pub open spec fn on_target(commands: Seq<DrawCommand>, target: int) -> Seq<DrawCommand> {
    commands.filter(|command: DrawCommand| command.render_target.0 == target)
}

/// What a node adds to a frame.
pub open spec fn visible_commands(node: AABBTreeNode) -> Seq<DrawCommand> {
    match node.compiled_node {
        Some(compiled) if node.is_visible => compiled.commands@,
        _ => Seq::empty(),
    }
}

/// What the first `n` nodes add to one target, in node order.
pub open spec fn target_commands(nodes: Seq<AABBTreeNode>, target: int, n: nat) -> Seq<DrawCommand>
    decreases n,
{
    if n == 0 {
        Seq::empty()
    } else {
        target_commands(nodes, target, (n - 1) as nat) + on_target(visible_commands(nodes[n - 1]), target)
    }
}

/// The first `n` targets on which something is visible.
pub open spec fn visible_targets(nodes: Seq<AABBTreeNode>, n: nat) -> Seq<int>
    decreases n,
{
    if n == 0 {
        Seq::empty()
    } else {
        let rest = visible_targets(nodes, (n - 1) as nat);
        if target_commands(nodes, n - 1, nodes.len()).len() > 0 {
            rest.push(n - 1)
        } else {
            rest
        }
    }
}

/// The layer of a target: its texture and size, and its commands in painting order.
pub open spec fn is_layer(layer: DrawLayer, target: TargetView, commands: Seq<DrawCommand>) -> bool {
    &&& layer.texture_id == target.texture_id
    &&& layer.size == target.size
    &&& sorted_from(commands, layer.commands@)
    &&& layer.commands@.len() == commands.len()
}

/// The matrices of a batch, after the first `n` slots were filled: the transform of each draw
/// list, moved by the scroll offset, in the slot that the list uses.
pub open spec fn palette(slots: Seq<MatrixSlot>, flat: Seq<FlatView>, n: nat) -> Seq<PaletteEntry>
    decreases n,
{
    if n == 0 {
        Seq::new(slots.len(), |i: int| PaletteEntry::Identity)
    } else {
        let slot = slots[n - 1];
        palette(slots, flat, (n - 1) as nat).update(
            slot.matrix_index as int,
            PaletteEntry::Scrolled(flat[slot.draw_list_index.0 as int].draw_context.final_transform),
        )
    }
}

/// The matrix updates of the first `n` batches of a node.
pub open spec fn uniform_updates(maps: Seq<MatrixMap>, flat: Seq<FlatView>, n: nat) -> Seq<UpdateView>
    decreases n,
{
    if n == 0 {
        Seq::empty()
    } else {
        let map = maps[n - 1];
        uniform_updates(maps, flat, (n - 1) as nat).push(
            UpdateView {
                id: map.batch_id,
                op: UpdateOpView::UpdateUniforms(palette(map.slots@, flat, map.slots@.len())),
            },
        )
    }
}

/// The matrix updates of a node.
pub open spec fn visible_uniforms(node: AABBTreeNode, flat: Seq<FlatView>) -> Seq<UpdateView> {
    match node.compiled_node {
        Some(compiled) if node.is_visible => uniform_updates(
            compiled.matrix_maps@,
            flat,
            compiled.matrix_maps@.len(),
        ),
        _ => Seq::empty(),
    }
}

/// The matrix updates of the first `n` nodes.
pub open spec fn all_uniforms(nodes: Seq<AABBTreeNode>, flat: Seq<FlatView>, n: nat) -> Seq<UpdateView>
    decreases n,
{
    if n == 0 {
        Seq::empty()
    } else {
        all_uniforms(nodes, flat, (n - 1) as nat) + visible_uniforms(nodes[n - 1], flat)
    }
}

/// The matrix slots of a batch name draw lists of the scene, and places in a palette that has
/// one place for each slot.
pub open spec fn slots_ok(slots: Seq<MatrixSlot>, lists: nat) -> bool {
    forall|s: int|
        0 <= s < slots.len() ==> (#[trigger] slots[s]).draw_list_index.0 < lists && slots[s].matrix_index
            < slots.len()
}

/// What a frame takes from a compiled node is in the scene: the targets of its commands, and what the
/// matrix slots of the batches that it has handed over name.
pub open spec fn compiled_shown(compiled: CompiledNode, targets: nat, lists: nat) -> bool {
    &&& forall|c: int|
        0 <= c < compiled.commands@.len() ==> (#[trigger] compiled.commands@[c]).render_target.0 < targets
    &&& forall|m: int|
        0 <= m < compiled.matrix_maps@.len() ==> slots_ok(
            (#[trigger] compiled.matrix_maps@[m]).slots@,
            lists,
        )
}

/// The same, with the batches that it has not handed over yet.
pub open spec fn compiled_ok(compiled: CompiledNode, targets: nat, lists: nat) -> bool {
    &&& compiled_shown(compiled, targets, lists)
    &&& forall|b: int|
        0 <= b < compiled.batches@.len() ==> slots_ok((#[trigger] compiled.batches@[b]).matrix_map@, lists)
}

/// Where a node is visible, it is compiled, and a frame can be made from it.
pub open spec fn node_shown(node: AABBTreeNode, targets: nat, lists: nat) -> bool {
    node.is_visible ==> match node.compiled_node {
        Some(compiled) => compiled_shown(compiled, targets, lists),
        None => false,
    }
}

/// Where a node is visible, it is compiled, and what it refers to is in the scene.
pub open spec fn node_ready(node: AABBTreeNode, targets: nat, lists: nat) -> bool {
    node.is_visible ==> match node.compiled_node {
        Some(compiled) => compiled_ok(compiled, targets, lists),
        None => false,
    }
}

/// The update that hands a batch to the renderer.
pub open spec fn created(batch: RenderBatch) -> UpdateView {
    UpdateView {
        id: batch.batch_id,
        op: UpdateOpView::Create(
            batch.vertices@,
            batch.indices@,
            batch.program_id,
            batch.color_texture_id,
            batch.mask_texture_id,
        ),
    }
}

/// The batches that the visible ones of the first `n` nodes still hold, handed to the renderer.
pub open spec fn all_created(nodes: Seq<AABBTreeNode>, n: nat) -> Seq<UpdateView>
    decreases n,
{
    if n == 0 {
        Seq::empty()
    } else {
        all_created(nodes, (n - 1) as nat) + (match nodes[n - 1].compiled_node {
            Some(compiled) if nodes[n - 1].is_visible => compiled.batches@.map_values(
                |batch: RenderBatch| created(batch),
            ),
            _ => Seq::empty(),
        })
    }
}

/// The contents of a [`MatrixMap`].
pub struct MapView {
    pub batch_id: BatchId,
    pub slots: Seq<MatrixSlot>,
}

impl View for MatrixMap {
    type V = MapView;

    open spec fn view(&self) -> MapView {
        MapView { batch_id: self.batch_id, slots: self.slots@ }
    }
}

/// The contents of some matrix maps.
pub open spec fn map_views(maps: Seq<MatrixMap>) -> Seq<MapView> {
    maps.map_values(|map: MatrixMap| map@)
}

/// The place of the first map of a batch at or after `i`, or the end.
pub open spec fn map_place(maps: Seq<MapView>, id: BatchId, i: int) -> int
    decreases maps.len() - i,
{
    if i >= maps.len() || maps[i].batch_id == id {
        i
    } else {
        map_place(maps, id, i + 1)
    }
}

/// The slots of a batch are noted; those that were noted for it before are forgotten.
pub open spec fn map_noted(maps: Seq<MapView>, id: BatchId, slots: Seq<MatrixSlot>) -> Seq<MapView> {
    let place = map_place(maps, id, 0);
    if place < maps.len() {
        maps.update(place, MapView { batch_id: id, slots })
    } else {
        maps.push(MapView { batch_id: id, slots })
    }
}

/// The slots of the first `n` batches are noted.
pub open spec fn maps_noted(maps: Seq<MapView>, batches: Seq<RenderBatch>, n: nat) -> Seq<MapView>
    decreases n,
{
    if n == 0 {
        maps
    } else {
        map_noted(
            maps_noted(maps, batches, (n - 1) as nat),
            batches[n - 1].batch_id,
            batches[n - 1].matrix_map@,
        )
    }
}

/// A node whose batches have been handed to the renderer: the node keeps their matrix slots.
pub open spec fn handed_over(before: AABBTreeNode, after: AABBTreeNode) -> bool {
    &&& after.node_index == before.node_index
    &&& after.is_visible == before.is_visible
    &&& after.src_items == before.src_items
    &&& after.resource_list == before.resource_list
    &&& match before.compiled_node {
        Some(compiled) if before.is_visible => {
            &&& after.compiled_node is Some
            &&& after.compiled_node.unwrap().batches@ == Seq::<RenderBatch>::empty()
            &&& after.compiled_node.unwrap().commands == compiled.commands
            &&& map_views(after.compiled_node.unwrap().matrix_maps@) == maps_noted(
                map_views(compiled.matrix_maps@),
                compiled.batches@,
                compiled.batches@.len(),
            )
        },
        _ => after.compiled_node == before.compiled_node,
    }
}

/// The same of every node of a tree.
pub open spec fn all_handed_over(before: Seq<AABBTreeNode>, after: Seq<AABBTreeNode>) -> bool {
    &&& after.len() == before.len()
    &&& forall|i: int| 0 <= i < before.len() ==> handed_over(before[i], #[trigger] after[i])
}

/// What the renderer is told of a frame: the batches that the nodes held before it, and then the
/// matrices of those that they have handed over.
pub open spec fn frame_updates(before: Seq<AABBTreeNode>, after: Seq<AABBTreeNode>, flat: Seq<FlatView>) -> Seq<
    UpdateView,
> {
    all_created(before, before.len()) + all_uniforms(after, flat, after.len())
}

/// The places of the nodes among the first `n` that are visible but not compiled.
pub open spec fn uncompiled(nodes: Seq<AABBTreeNode>, n: nat) -> Seq<usize>
    decreases n,
{
    if n == 0 {
        Seq::empty()
    } else {
        let rest = uncompiled(nodes, (n - 1) as nat);
        if nodes[n - 1].is_visible && nodes[n - 1].compiled_node is None {
            rest.push((n - 1) as usize)
        } else {
            rest
        }
    }
}

impl CompiledNode {
    /// Notes the matrix slots of a batch that the renderer now holds.
    fn note_matrix_map(&mut self, id: BatchId, slots: Vec<MatrixSlot>)
        ensures
            map_views(final(self).matrix_maps@) == map_noted(map_views(old(self).matrix_maps@), id, slots@),
            final(self).batches == old(self).batches,
            final(self).commands == old(self).commands,
    {
        let ghost maps = map_views(self.matrix_maps@);
        let mut place: usize = 0;
        while place < self.matrix_maps.len() && self.matrix_maps[place].batch_id != id
            invariant
                place <= self.matrix_maps@.len(),
                maps == map_views(self.matrix_maps@),
                map_place(maps, id, 0) == map_place(maps, id, place as int),
                *self == *old(self),
            decreases self.matrix_maps@.len() - place,
        {
            place = place + 1;
        }
        let map = MatrixMap { batch_id: id, slots };
        if place < self.matrix_maps.len() {
            self.matrix_maps.set(place, map);
        } else {
            self.matrix_maps.push(map);
        }
        assert(map_views(self.matrix_maps@) =~= map_noted(maps, id, slots@));
    }
}

impl Scene {
    /// The places of the nodes that are visible but not compiled, in node order: they need a
    /// resource list and then a compiled node.
    pub fn nodes_to_compile(&self) -> (r: Vec<usize>)
        ensures
            r@ == uncompiled(self.nodes@, self.nodes@.len()),
    {
        let mut r: Vec<usize> = Vec::new();
        let mut i: usize = 0;
        while i < self.nodes.len()
            invariant
                i <= self.nodes@.len(),
                r@ == uncompiled(self.nodes@, i as nat),
            decreases self.nodes@.len() - i,
        {
            if self.nodes[i].is_visible && self.nodes[i].compiled_node.is_none() {
                r.push(i);
            }
            i = i + 1;
        }
        r
    }

    /// Gives a node the list of the images that it needs.
    pub fn set_resource_list(&mut self, place: usize, resource_list: ResourceList)
        requires
            place < old(self).nodes@.len(),
        ensures
            final(self).nodes@ == old(self).nodes@.update(
                place as int,
                AABBTreeNode { resource_list: Some(resource_list), ..old(self).nodes@[place as int] },
            ),
            final(self)@ == old(self)@,
            final(self).scroll_offset == old(self).scroll_offset,
            final(self).pending_updates == old(self).pending_updates,
    {
        self.nodes[place].resource_list = Some(resource_list);
    }

    /// Gives a node what has been compiled for it.
    pub fn set_compiled_node(&mut self, place: usize, compiled_node: CompiledNode)
        requires
            place < old(self).nodes@.len(),
        ensures
            final(self).nodes@ == old(self).nodes@.update(
                place as int,
                AABBTreeNode { compiled_node: Some(compiled_node), ..old(self).nodes@[place as int] },
            ),
            final(self)@ == old(self)@,
            final(self).scroll_offset == old(self).scroll_offset,
            final(self).pending_updates == old(self).pending_updates,
    {
        self.nodes[place].compiled_node = Some(compiled_node);
    }

    /// Hands the batches of the visible nodes to the renderer and notes their matrix slots.
    pub fn update_batch_cache(&mut self)
        requires
            forall|i: int|
                0 <= i < old(self).nodes@.len() && (#[trigger] old(self).nodes@[i]).is_visible
                    ==> old(self).nodes@[i].compiled_node is Some,
        ensures
            final(self)@ == old(self)@,
            final(self).scroll_offset == old(self).scroll_offset,
            all_handed_over(old(self).nodes@, final(self).nodes@),
            final(self).pending_updates@ == old(self).pending_updates@ + all_created(
                old(self).nodes@,
                old(self).nodes@.len(),
            ),
    {
        let ghost nodes = self.nodes@;
        let mut i: usize = 0;
        while i < self.nodes.len()
            invariant
                i <= self.nodes@.len(),
                nodes == old(self).nodes@,
                self@ == old(self)@,
                self.scroll_offset == old(self).scroll_offset,
                self.nodes@.len() == nodes.len(),
                forall|k: int| 0 <= k < i ==> handed_over(nodes[k], #[trigger] self.nodes@[k]),
                forall|k: int| i <= k < nodes.len() ==> #[trigger] self.nodes@[k] == nodes[k],
                self.pending_updates@ == old(self).pending_updates@ + all_created(nodes, i as nat),
            decreases self.nodes@.len() - i,
        {
            let ghost before = self.pending_updates@;
            assert(self.nodes@[i as int] == nodes[i as int]);
            if self.nodes[i].is_visible {
                let mut compiled_node = self.nodes[i].compiled_node.take();
                if let Some(compiled) = &mut compiled_node {
                    self.hand_over(compiled);
                }
                self.nodes[i].compiled_node = compiled_node;
            }
            assert(self.pending_updates@ =~= old(self).pending_updates@ + all_created(
                nodes,
                (i + 1) as nat,
            ));
            assert(handed_over(nodes[i as int], self.nodes@[i as int]));
            i = i + 1;
        }
    }

    fn hand_over(&mut self, compiled: &mut CompiledNode)
        ensures
            final(self).same_but_updates(*old(self)),
            final(self).pending_updates@ == old(self).pending_updates@ + old(compiled).batches@.map_values(
                |batch: RenderBatch| created(batch),
            ),
            final(compiled).batches@ == Seq::<RenderBatch>::empty(),
            final(compiled).commands == old(compiled).commands,
            map_views(final(compiled).matrix_maps@) == maps_noted(
                map_views(old(compiled).matrix_maps@),
                old(compiled).batches@,
                old(compiled).batches@.len(),
            ),
    {
        let ghost all = compiled.batches@.map_values(|batch: RenderBatch| created(batch));
        let mut batches: Vec<RenderBatch> = Vec::new();
        std::mem::swap(&mut batches, &mut compiled.batches);
        for batch in iter: batches
            invariant
                iter.seq() == old(compiled).batches@,
                all == old(compiled).batches@.map_values(|batch: RenderBatch| created(batch)),
                compiled.batches@ == Seq::<RenderBatch>::empty(),
                self.same_but_updates(*old(self)),
                self.pending_updates@ == old(self).pending_updates@ + all.take(iter.index()),
                compiled.commands == old(compiled).commands,
                map_views(compiled.matrix_maps@) == maps_noted(
                    map_views(old(compiled).matrix_maps@),
                    old(compiled).batches@,
                    iter.index() as nat,
                ),
        {
            let ghost n = iter.index();
            assert(batch == old(compiled).batches@[n]);
            let update = BatchUpdate {
                id: batch.batch_id,
                op: BatchUpdateOp::Create(
                    batch.vertices,
                    batch.indices,
                    batch.program_id,
                    batch.color_texture_id,
                    batch.mask_texture_id,
                ),
            };
            assert(update@ == all[n]);
            self.pending_updates.push(update);
            compiled.note_matrix_map(batch.batch_id, batch.matrix_map);
            assert(all.take(n + 1) =~= all.take(n).push(all[n]));
            assert(self.pending_updates@ =~= old(self).pending_updates@ + all.take(n + 1));
        }
        assert(all.take(all.len() as int) =~= all);
    }

    /// Whether a frame can be made: every visible node is compiled, and what it refers to is in
    /// the scene.
    pub open spec fn ready(self) -> bool {
        forall|i: int|
            0 <= i < self.nodes@.len() ==> node_ready(
                #[trigger] self.nodes@[i],
                self@.targets.len(),
                self@.flat.len(),
            )
    }

    /// Whether the visible nodes can be collected into a frame, whatever batches they still hold.
    pub open spec fn showable(self) -> bool {
        forall|i: int|
            0 <= i < self.nodes@.len() ==> node_shown(
                #[trigger] self.nodes@[i],
                self@.targets.len(),
                self@.flat.len(),
            )
    }

    /// Whether a frame shows the scene: the epochs of its documents, and one layer for each target
    /// on which something is visible, in target order.
    pub open spec fn frame_shows(self, frame: Frame) -> bool {
        let nodes = self.nodes@;
        let targets = visible_targets(nodes, self@.targets.len());
        &&& frame.pipeline_epoch_map@ == self@.epochs
        &&& frame.layers@.len() == targets.len()
        &&& forall|l: int|
            0 <= l < targets.len() ==> is_layer(
                #[trigger] frame.layers@[l],
                self@.targets[targets[l]],
                target_commands(nodes, targets[l], nodes.len()),
            )
    }

    /// Whether a frame can be made.
    pub fn is_ready(&self) -> (r: bool)
        ensures
            r == self.ready(),
    {
        let targets = self.render_targets.len();
        let lists = self.flat_draw_lists.len();
        let mut i: usize = 0;
        while i < self.nodes.len()
            invariant
                i <= self.nodes@.len(),
                targets == self@.targets.len(),
                lists == self@.flat.len(),
                forall|k: int| 0 <= k < i ==> node_ready(#[trigger] self.nodes@[k], targets as nat, lists as nat),
            decreases self.nodes@.len() - i,
        {
            if self.nodes[i].is_visible {
                let ok = match &self.nodes[i].compiled_node {
                    Some(compiled) => compiled.refers_inside(targets, lists),
                    None => false,
                };
                if !ok {
                    assert(!node_ready(self.nodes@[i as int], targets as nat, lists as nat));
                    return false;
                }
            }
            i = i + 1;
        }
        true
    }

    /// Collects what the visible nodes draw into a frame: one layer for each target on which
    /// something is visible, in target order, each in painting order.  The matrices of the
    /// batches are sent along, with the transforms as the scroll offset moves them now.
    pub fn collect_and_sort_visible_batches(&mut self) -> (frame: Frame)
        requires
            old(self).showable(),
        ensures
            old(self).frame_shows(frame),
            final(self).pending_updates@ == old(self).pending_updates@ + all_uniforms(
                old(self).nodes@,
                old(self)@.flat,
                old(self).nodes@.len(),
            ),
            final(self).same_but_updates(*old(self)),
    {
        let mut frame = Frame::new(self.pipeline_epoch_map.clone());
        let ghost nodes = self.nodes@;
        let ghost targets = self@.targets;
        let ghost flat = self@.flat;

        let mut layers: Vec<DrawLayer> = Vec::new();
        let mut t: usize = 0;
        while t < self.render_targets.len()
            invariant
                t <= self.render_targets@.len(),
                *self == *old(self),
                targets == self@.targets,
                layers@.len() == t,
                forall|k: int|
                    0 <= k < t ==> (#[trigger] layers@[k]).texture_id == targets[k].texture_id && layers@[k].size
                        == targets[k].size && layers@[k].commands@ == Seq::<DrawCommand>::empty(),
            decreases self.render_targets@.len() - t,
        {
            assert(targets[t as int] == self.render_targets@[t as int]@);
            layers.push(
                DrawLayer::new(self.render_targets[t].texture_id, self.render_targets[t].size, Vec::new()),
            );
            t = t + 1;
        }

        let mut i: usize = 0;
        while i < self.nodes.len()
            invariant
                i <= self.nodes@.len(),
                nodes == self.nodes@,
                nodes == old(self).nodes@,
                self.same_but_updates(*old(self)),
                old(self).showable(),
                targets == old(self)@.targets,
                flat == old(self)@.flat,
                layers@.len() == targets.len(),
                forall|k: int|
                    0 <= k < targets.len() ==> (#[trigger] layers@[k]).texture_id == targets[k].texture_id
                        && layers@[k].size == targets[k].size && layers@[k].commands@ == target_commands(
                        nodes,
                        k,
                        i as nat,
                    ),
                self.pending_updates@ == old(self).pending_updates@ + all_uniforms(nodes, flat, i as nat),
            decreases self.nodes@.len() - i,
        {
            assert(node_shown(nodes[i as int], targets.len(), flat.len()));
            self.push_uniforms(i);
            if self.nodes[i].is_visible {
                if let Some(compiled_node) = &self.nodes[i].compiled_node {
                    sort_into_layers(&compiled_node.commands, &mut layers);
                }
            }
            assert(self.pending_updates@ =~= old(self).pending_updates@ + all_uniforms(
                nodes,
                flat,
                (i + 1) as nat,
            ));
            proof {
                assert forall|k: int| 0 <= k < targets.len() implies (#[trigger] layers@[k]).commands@
                    == target_commands(nodes, k, (i + 1) as nat) by {
                    if !(nodes[i as int].is_visible) {
                        lemma_on_nothing(k);
                        assert(layers@[k].commands@ =~= target_commands(nodes, k, (i + 1) as nat));
                    }
                }
            }
            i = i + 1;
        }

        let mut t: usize = 0;
        while t < layers.len()
            invariant
                t <= layers@.len(),
                layers@.len() == targets.len(),
                forall|k: int|
                    0 <= k < targets.len() ==> (#[trigger] layers@[k]).texture_id == targets[k].texture_id
                        && layers@[k].size == targets[k].size && layers@[k].commands@ == target_commands(
                        nodes,
                        k,
                        nodes.len(),
                    ),
                frame.pipeline_epoch_map@ == old(self)@.epochs,
                frame.layers@.len() == visible_targets(nodes, t as nat).len(),
                forall|l: int|
                    0 <= l < frame.layers@.len() ==> is_layer(
                        #[trigger] frame.layers@[l],
                        targets[visible_targets(nodes, t as nat)[l]],
                        target_commands(nodes, visible_targets(nodes, t as nat)[l], nodes.len()),
                    ),
            decreases layers@.len() - t,
        {
            let ghost before = visible_targets(nodes, t as nat);
            let layer = &layers[t];
            assert(layer.commands@ == target_commands(nodes, t as int, nodes.len()));
            if layer.commands.len() > 0 {
                let commands = sort_commands(&layer.commands);
                frame.add_layer(DrawLayer::new(layer.texture_id, layer.size, commands));
                assert(visible_targets(nodes, (t + 1) as nat) == before.push(t as int));
            } else {
                assert(visible_targets(nodes, (t + 1) as nat) == before);
            }
            t = t + 1;
        }
        frame
    }

    /// Makes a frame: the batches of the visible nodes are handed to the renderer, and only then
    /// their matrices and the commands that draw them are collected.
    pub fn build_frame(&mut self) -> (frame: Frame)
        requires
            old(self).ready(),
        ensures
            final(self).ready(),
            final(self).frame_shows(frame),
            final(self)@ == old(self)@,
            final(self).scroll_offset == old(self).scroll_offset,
            all_handed_over(old(self).nodes@, final(self).nodes@),
            final(self).pending_updates@ == old(self).pending_updates@ + frame_updates(
                old(self).nodes@,
                final(self).nodes@,
                old(self)@.flat,
            ),
    {
        let ghost targets = self@.targets.len();
        let ghost lists = self@.flat.len();
        assert forall|i: int| 0 <= i < self.nodes@.len() && (#[trigger] self.nodes@[i]).is_visible implies self.nodes@[i].compiled_node
            is Some by {
            assert(node_ready(self.nodes@[i], targets, lists));
        }
        self.update_batch_cache();
        proof {
            assert forall|i: int| 0 <= i < self.nodes@.len() implies node_ready(
                #[trigger] self.nodes@[i],
                targets,
                lists,
            ) by {
                assert(node_ready(old(self).nodes@[i], targets, lists));
                handing_over_keeps_ready(old(self).nodes@[i], self.nodes@[i], targets, lists);
            }
        }
        let frame = self.collect_and_sort_visible_batches();
        assert(self.pending_updates@ =~= old(self).pending_updates@ + frame_updates(
            old(self).nodes@,
            self.nodes@,
            old(self)@.flat,
        ));
        frame
    }

    /// Queues the matrices of the batches of one node, if it is visible.
    fn push_uniforms(&mut self, place: usize)
        requires
            place < old(self).nodes@.len(),
            node_shown(old(self).nodes@[place as int], old(self)@.targets.len(), old(self)@.flat.len()),
        ensures
            final(self).same_but_updates(*old(self)),
            final(self).pending_updates@ == old(self).pending_updates@ + visible_uniforms(
                old(self).nodes@[place as int],
                old(self)@.flat,
            ),
    {
        let ghost node = self.nodes@[place as int];
        let ghost flat = self@.flat;
        if self.nodes[place].is_visible {
            if let Some(compiled_node) = &self.nodes[place].compiled_node {
                let mut m: usize = 0;
                while m < compiled_node.matrix_maps.len()
                    invariant
                        m <= compiled_node.matrix_maps@.len(),
                        place < self.nodes@.len(),
                        self.nodes@[place as int].compiled_node == Some(*compiled_node),
                        self.same_but_updates(*old(self)),
                        flat == old(self)@.flat,
                        compiled_shown(*compiled_node, old(self)@.targets.len(), flat.len()),
                        self.pending_updates@ == old(self).pending_updates@ + uniform_updates(
                            compiled_node.matrix_maps@,
                            flat,
                            m as nat,
                        ),
                    decreases compiled_node.matrix_maps@.len() - m,
                {
                    let map = &compiled_node.matrix_maps[m];
                    assert(slots_ok(map.slots@, flat.len()));
                    let matrix_palette = self.matrix_palette(&map.slots);
                    let update = BatchUpdate {
                        id: map.batch_id,
                        op: BatchUpdateOp::UpdateUniforms(matrix_palette),
                    };
                    self.pending_updates.push(update);
                    m = m + 1;
                    assert(self.pending_updates@ =~= old(self).pending_updates@ + uniform_updates(
                        compiled_node.matrix_maps@,
                        flat,
                        m as nat,
                    ));
                }
            }
        }
        assert(self.pending_updates@ =~= old(self).pending_updates@ + visible_uniforms(node, flat));
    }

    /// The matrices of a batch with the given slots.
    pub fn matrix_palette(&self, slots: &Vec<MatrixSlot>) -> (r: Vec<PaletteEntry>)
        requires
            slots_ok(slots@, self@.flat.len()),
        ensures
            r@ == palette(slots@, self@.flat, slots@.len()),
    {
        let mut r: Vec<PaletteEntry> = Vec::new();
        let mut i: usize = 0;
        while i < slots.len()
            invariant
                i <= slots@.len(),
                r@ == Seq::new(i as nat, |k: int| PaletteEntry::Identity),
            decreases slots@.len() - i,
        {
            r.push(PaletteEntry::Identity);
            i = i + 1;
            assert(r@ =~= Seq::new(i as nat, |k: int| PaletteEntry::Identity));
        }
        let mut s: usize = 0;
        while s < slots.len()
            invariant
                s <= slots@.len(),
                slots_ok(slots@, self@.flat.len()),
                r@.len() == slots@.len(),
                r@ == palette(slots@, self@.flat, s as nat),
            decreases slots@.len() - s,
        {
            let slot = slots[s];
            let list = slot.draw_list_index.0 as usize;
            assert(self@.flat[list as int] == self.flat_draw_lists@[list as int]@);
            let transform = self.flat_draw_lists[list].draw_context.final_transform;
            r.set(slot.matrix_index as usize, PaletteEntry::Scrolled(transform));
            s = s + 1;
        }
        r
    }
}

/// Whether matrix slots name draw lists of a scene with so many, and places in their palette.
fn slots_inside(slots: &Vec<MatrixSlot>, lists: usize) -> (r: bool)
    ensures
        r == slots_ok(slots@, lists as nat),
{
    let mut s: usize = 0;
    while s < slots.len()
        invariant
            s <= slots@.len(),
            forall|k: int|
                0 <= k < s ==> (#[trigger] slots@[k]).draw_list_index.0 < lists && slots@[k].matrix_index
                    < slots@.len(),
        decreases slots@.len() - s,
    {
        if slots[s].draw_list_index.0 as usize >= lists || slots[s].matrix_index as usize >= slots.len() {
            assert(!slots_ok(slots@, lists as nat));
            return false;
        }
        s = s + 1;
    }
    true
}

impl CompiledNode {
    /// Whether what the node refers to is in a scene with so many targets and draw lists.
    fn refers_inside(&self, targets: usize, lists: usize) -> (r: bool)
        ensures
            r == compiled_ok(*self, targets as nat, lists as nat),
    {
        let mut c: usize = 0;
        while c < self.commands.len()
            invariant
                c <= self.commands@.len(),
                forall|k: int| 0 <= k < c ==> (#[trigger] self.commands@[k]).render_target.0 < targets,
            decreases self.commands@.len() - c,
        {
            if self.commands[c].render_target.0 as usize >= targets {
                return false;
            }
            c = c + 1;
        }
        let mut m: usize = 0;
        while m < self.matrix_maps.len()
            invariant
                m <= self.matrix_maps@.len(),
                forall|k: int|
                    0 <= k < m ==> slots_ok((#[trigger] self.matrix_maps@[k]).slots@, lists as nat),
            decreases self.matrix_maps@.len() - m,
        {
            if !slots_inside(&self.matrix_maps[m].slots, lists) {
                return false;
            }
            m = m + 1;
        }
        let mut b: usize = 0;
        while b < self.batches.len()
            invariant
                b <= self.batches@.len(),
                forall|k: int|
                    0 <= k < b ==> slots_ok((#[trigger] self.batches@[k]).matrix_map@, lists as nat),
            decreases self.batches@.len() - b,
        {
            if !slots_inside(&self.batches[b].matrix_map, lists) {
                return false;
            }
            b = b + 1;
        }
        true
    }
}

proof fn lemma_on_nothing(target: int)
    ensures
        on_target(Seq::empty(), target) == Seq::<DrawCommand>::empty(),
{
    reveal(Seq::filter);
}

/// Sorts commands by the target that they are drawn into.
fn sort_into_layers(commands: &Vec<DrawCommand>, layers: &mut Vec<DrawLayer>)
    requires
        forall|c: int|
            0 <= c < commands@.len() ==> (#[trigger] commands@[c]).render_target.0 < old(layers)@.len(),
    ensures
        final(layers)@.len() == old(layers)@.len(),
        forall|k: int|
            0 <= k < old(layers)@.len() ==> (#[trigger] final(layers)@[k]).texture_id == old(
                layers,
            )@[k].texture_id && final(layers)@[k].size == old(layers)@[k].size
                && final(layers)@[k].commands@ == old(layers)@[k].commands@ + on_target(commands@, k),
{
    proof {
        assert forall|k: int| 0 <= k < layers@.len() implies (#[trigger] layers@[k]).commands@ == old(
            layers,
        )@[k].commands@ + on_target(commands@.take(0), k) by {
            lemma_on_nothing(k);
            assert(commands@.take(0) =~= Seq::empty());
            assert(layers@[k].commands@ =~= old(layers)@[k].commands@ + Seq::empty());
        }
    }
    let mut c: usize = 0;
    while c < commands.len()
        invariant
            c <= commands@.len(),
            layers@.len() == old(layers)@.len(),
            forall|k: int|
                0 <= k < commands@.len() ==> (#[trigger] commands@[k]).render_target.0 < old(layers)@.len(),
            forall|k: int|
                0 <= k < layers@.len() ==> (#[trigger] layers@[k]).texture_id == old(layers)@[k].texture_id
                    && layers@[k].size == old(layers)@[k].size && layers@[k].commands@ == old(
                    layers,
                )@[k].commands@ + on_target(commands@.take(c as int), k),
        decreases commands@.len() - c,
    {
        let ghost before = layers@;
        let command = commands[c];
        let target = command.render_target.0 as usize;
        layers[target].commands.push(command);
        c = c + 1;
        proof {
            assert(commands@.take(c as int) =~= commands@.take(c - 1).push(command));
            assert forall|k: int| 0 <= k < layers@.len() implies (#[trigger] layers@[k]).texture_id
                == old(layers)@[k].texture_id && layers@[k].size == old(layers)@[k].size
                && layers@[k].commands@ == old(layers)@[k].commands@ + on_target(
                commands@.take(c as int),
                k,
            ) by {
                assert(before[k].commands@ == old(layers)@[k].commands@ + on_target(
                    commands@.take(c - 1),
                    k,
                ));
                commands@.take(c - 1).lemma_filter_push(
                    command,
                    |command: DrawCommand| command.render_target.0 == k,
                );
                assert(layers@[k].commands@ =~= old(layers)@[k].commands@ + on_target(
                    commands@.take(c as int),
                    k,
                ));
            }
        }
    }
    assert(commands@.take(c as int) =~= commands@);
}

/// Once the batches of the visible nodes have been handed to the renderer, there are none left
/// to hand over.
pub proof fn batches_are_handed_over_once(before: Seq<AABBTreeNode>, after: Seq<AABBTreeNode>, n: nat)
    requires
        n <= before.len(),
        all_handed_over(before, after),
        forall|i: int|
            0 <= i < before.len() && (#[trigger] before[i]).is_visible ==> before[i].compiled_node is Some,
    ensures
        all_created(after, n) == Seq::<UpdateView>::empty(),
    decreases n,
{
    if n > 0 {
        batches_are_handed_over_once(before, after, (n - 1) as nat);
        assert(handed_over(before[n - 1], after[n - 1]));
        assert(all_created(after, n) =~= Seq::<UpdateView>::empty());
    }
}

proof fn lemma_map_place(maps: Seq<MapView>, id: BatchId, i: int)
    requires
        0 <= i <= maps.len(),
    ensures
        i <= map_place(maps, id, i) <= maps.len(),
    decreases maps.len() - i,
{
    if i < maps.len() && maps[i].batch_id != id {
        lemma_map_place(maps, id, i + 1);
    }
}

proof fn lemma_maps_noted(maps: Seq<MapView>, batches: Seq<RenderBatch>, n: nat, lists: nat)
    requires
        n <= batches.len(),
        forall|m: int| 0 <= m < maps.len() ==> slots_ok((#[trigger] maps[m]).slots, lists),
        forall|b: int| 0 <= b < batches.len() ==> slots_ok((#[trigger] batches[b]).matrix_map@, lists),
    ensures
        forall|m: int|
            0 <= m < maps_noted(maps, batches, n).len() ==> slots_ok(
                (#[trigger] maps_noted(maps, batches, n)[m]).slots,
                lists,
            ),
    decreases n,
{
    if n > 0 {
        lemma_maps_noted(maps, batches, (n - 1) as nat, lists);
        let rest = maps_noted(maps, batches, (n - 1) as nat);
        lemma_map_place(rest, batches[n - 1].batch_id, 0);
        assert(slots_ok(batches[n - 1].matrix_map@, lists));
    }
}

/// Handing over the batches of a node that a frame can be made from leaves one that a frame can
/// be made from.
pub proof fn handing_over_keeps_ready(before: AABBTreeNode, after: AABBTreeNode, targets: nat, lists: nat)
    requires
        handed_over(before, after),
        node_ready(before, targets, lists),
    ensures
        node_ready(after, targets, lists),
{
    if before.is_visible {
        let old_node = before.compiled_node.unwrap();
        let new_node = after.compiled_node.unwrap();
        let maps = map_views(old_node.matrix_maps@);
        assert forall|m: int| 0 <= m < maps.len() implies slots_ok((#[trigger] maps[m]).slots, lists) by {
            assert(slots_ok(old_node.matrix_maps@[m].slots@, lists));
        }
        lemma_maps_noted(maps, old_node.batches@, old_node.batches@.len(), lists);
        assert forall|m: int| 0 <= m < new_node.matrix_maps@.len() implies slots_ok(
            (#[trigger] new_node.matrix_maps@[m]).slots@,
            lists,
        ) by {
            assert(map_views(new_node.matrix_maps@)[m].slots == new_node.matrix_maps@[m].slots@);
        }
    }
}

} // verus!
