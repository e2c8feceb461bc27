//! What a frame shows, and what the renderer is told of it.
use crate::batch::{
    CompiledNode, DrawCommand, DrawCommandInfo, MatrixMap, MatrixSlot, PaletteEntry, Primitive, RenderBatch,
    UpdateOpView, UpdateView,
};
use crate::builder::{batch_command, DrawCommandBuilder};
use crate::frame::{sorting_keeps_commands, DrawLayer, Frame};
use crate::ids::{BatchId, DisplayItemKey, RenderTargetIndex};
use crate::meaning::lemma_either;
use crate::node::AABBTreeNode;
use crate::scene::{FlatView, Scene, TargetView};
use crate::visible::{
    all_created, all_uniforms, created, is_layer, map_noted, map_place, on_target, palette, target_commands, uncompiled, uniform_updates,
    visible_commands, visible_targets, visible_uniforms, MapView,
};
use vstd::prelude::*;

verus! {

/// Whether a node shows what it was compiled to.
pub open spec fn shown(node: AABBTreeNode) -> bool {
    node.is_visible && node.compiled_node is Some
}

/// What a node was compiled to.
pub open spec fn compiled(node: AABBTreeNode) -> CompiledNode {
    node.compiled_node.unwrap()
}

/// What is drawn into a target are the commands of the nodes that are visible, those for that target and no
/// others.
pub proof fn visible_nodes_are_drawn(nodes: Seq<AABBTreeNode>, target: int, n: nat, command: DrawCommand)
    requires
        n <= nodes.len(),
    ensures
        target_commands(nodes, target, n).contains(command) <==> command.render_target.0 == target && exists|i: int|
            0 <= i < n && shown(#[trigger] nodes[i]) && compiled(nodes[i]).commands@.contains(command),
    decreases n,
{
    if n > 0 {
        let m = (n - 1) as nat;
        visible_nodes_are_drawn(nodes, target, m, command);
        let before = target_commands(nodes, target, m);
        let own = visible_commands(nodes[n - 1]);
        let now = on_target(own, target);
        let keep = |command: DrawCommand| command.render_target.0 == target;
        assert(target_commands(nodes, target, n) == before + now);
        lemma_either(before, now, command);
        assert(now.contains(command) <==> own.contains(command) && command.render_target.0 == target) by {
            if now.contains(command) {
                let k = choose|k: int| 0 <= k < now.len() && now[k] == command;
                own.lemma_filter_pred(keep, k);
                own.lemma_filter_contains_rev(keep, command);
            }
            if own.contains(command) && command.render_target.0 == target {
                let k = choose|k: int| 0 <= k < own.len() && own[k] == command;
                own.lemma_filter_contains(keep, k);
            }
        }
        assert(own.contains(command) ==> shown(nodes[n - 1]));
        assert(shown(nodes[n - 1]) ==> own == compiled(nodes[n - 1]).commands@);
    }
}

/// The targets that get a layer are those into which something is drawn, each once and in their order.
pub proof fn drawn_targets_get_a_layer(nodes: Seq<AABBTreeNode>, n: nat)
    ensures
        forall|l: int|
            0 <= l < visible_targets(nodes, n).len() ==> 0 <= (#[trigger] visible_targets(nodes, n)[l]) < n
                && target_commands(nodes, visible_targets(nodes, n)[l], nodes.len()).len() > 0,
        forall|t: int|
            0 <= t < n && (#[trigger] target_commands(nodes, t, nodes.len())).len() > 0 ==> visible_targets(
                nodes,
                n,
            ).contains(t),
        forall|k: int, l: int|
            0 <= k < l < visible_targets(nodes, n).len() ==> #[trigger] visible_targets(nodes, n)[k]
                < #[trigger] visible_targets(nodes, n)[l],
    decreases n,
{
    if n > 0 {
        drawn_targets_get_a_layer(nodes, (n - 1) as nat);
        let before = visible_targets(nodes, (n - 1) as nat);
        let all = visible_targets(nodes, n);
        if target_commands(nodes, n - 1, nodes.len()).len() > 0 {
            assert(all == before.push(n - 1));
            assert(all[before.len() as int] == n - 1);
            assert forall|t: int| 0 <= t < n && (#[trigger] target_commands(nodes, t, nodes.len())).len()
                > 0 implies all.contains(t) by {
                if t < n - 1 {
                    let k = choose|k: int| 0 <= k < before.len() && before[k] == t;
                    assert(all[k] == t);
                }
            }
        }
    }
}

/// Keys are ordered by their draw lists, and inside a draw list by their items: as the numbers are that have the
/// one above the other.
pub proof fn keys_are_ordered_by_list_and_item(a: DisplayItemKey, b: DisplayItemKey)
    ensures
        a.before(b) <==> a.draw_list_index.0 * 0x1_0000_0000 + a.item_index.0 < b.draw_list_index.0 * 0x1_0000_0000
            + b.item_index.0,
        !a.before(b) && !b.before(a) ==> a == b,
{
}

/// Whether a layer of a frame is that of a target: its texture and its size, and the commands for it.
pub open spec fn is_layer_of(layer: DrawLayer, target: TargetView, place: int) -> bool {
    &&& layer.texture_id == target.texture_id
    &&& layer.size == target.size
    &&& forall|c: int|
        0 <= c < layer.commands@.len() ==> (#[trigger] layer.commands@[c]).render_target.0 == place
}

/// A frame draws every command of a visible node, in the layer of its target, and nothing else.  Nothing comes
/// before what is painted earlier.
pub proof fn frames_draw_what_is_visible(scene: Scene, frame: Frame, i: int, command: DrawCommand)
    requires
        scene.frame_shows(frame),
        0 <= i < scene.nodes@.len(),
        shown(scene.nodes@[i]),
        compiled(scene.nodes@[i]).commands@.contains(command),
        command.render_target.0 < scene@.targets.len(),
    ensures
        exists|l: int|
            0 <= l < frame.layers@.len() && is_layer_of(
                #[trigger] frame.layers@[l],
                scene@.targets[command.render_target.0 as int],
                command.render_target.0 as int,
            ) && frame.layers@[l].commands@.contains(command),
{
    let nodes = scene.nodes@;
    let place = command.render_target.0 as int;
    let n = scene@.targets.len();
    visible_nodes_are_drawn(nodes, place, nodes.len(), command);
    let commands = target_commands(nodes, place, nodes.len());
    assert(commands.contains(command));
    drawn_targets_get_a_layer(nodes, n);
    let l = choose|l: int| 0 <= l < visible_targets(nodes, n).len() && visible_targets(nodes, n)[l] == place;
    let layer = frame.layers@[l];
    assert(is_layer(layer, scene@.targets[place], commands));
    sorting_keeps_commands(commands, layer.commands@, command);
    assert forall|c: int| 0 <= c < layer.commands@.len() implies (#[trigger] layer.commands@[c]).render_target.0
        == place by {
        sorting_keeps_commands(commands, layer.commands@, layer.commands@[c]);
        visible_nodes_are_drawn(nodes, place, nodes.len(), layer.commands@[c]);
    }
}

/// Every layer of a frame is that of a target, the layers follow the order of the targets, and what is drawn in
/// them are commands of visible nodes, in painting order.
pub proof fn frames_draw_nothing_else(scene: Scene, frame: Frame, l: int)
    requires
        scene.frame_shows(frame),
        0 <= l < frame.layers@.len(),
    ensures
        frame.pipeline_epoch_map@ == scene@.epochs,
        ({
            let targets = visible_targets(scene.nodes@, scene@.targets.len());
            let layer = frame.layers@[l];
            &&& 0 <= targets[l] < scene@.targets.len()
            &&& is_layer_of(layer, scene@.targets[targets[l]], targets[l])
            &&& layer.commands@.len() > 0
            &&& l + 1 < frame.layers@.len() ==> targets[l] < targets[l + 1]
            &&& forall|c: int|
                0 <= c < layer.commands@.len() ==> exists|i: int|
                    0 <= i < scene.nodes@.len() && shown(#[trigger] scene.nodes@[i]) && compiled(
                        scene.nodes@[i],
                    ).commands@.contains(#[trigger] layer.commands@[c])
            &&& forall|c: int, d: int|
                0 <= c < d < layer.commands@.len() ==> !(#[trigger] layer.commands@[d]).sort_key.before(
                    (#[trigger] layer.commands@[c]).sort_key,
                )
        }),
{
    let nodes = scene.nodes@;
    let n = scene@.targets.len();
    let targets = visible_targets(nodes, n);
    drawn_targets_get_a_layer(nodes, n);
    let place = targets[l];
    let commands = target_commands(nodes, place, nodes.len());
    let layer = frame.layers@[l];
    assert(is_layer(layer, scene@.targets[place], commands));
    assert forall|c: int| 0 <= c < layer.commands@.len() implies (#[trigger] layer.commands@[c]).render_target.0
        == place && exists|i: int|
        0 <= i < nodes.len() && shown(#[trigger] nodes[i]) && compiled(nodes[i]).commands@.contains(
            layer.commands@[c],
        ) by {
        sorting_keeps_commands(commands, layer.commands@, layer.commands@[c]);
        visible_nodes_are_drawn(nodes, place, nodes.len(), layer.commands@[c]);
    }
}

/// Whether each slot of a batch has a place of its own.
pub open spec fn slots_apart(slots: Seq<MatrixSlot>) -> bool {
    &&& forall|s: int| 0 <= s < slots.len() ==> (#[trigger] slots[s]).matrix_index < slots.len()
    &&& forall|s: int, t: int|
        0 <= s < t < slots.len() ==> (#[trigger] slots[s]).matrix_index != (#[trigger] slots[t]).matrix_index
}

/// The palette of a batch has, at the place of each slot, the transform of the draw list that uses it.
pub proof fn palettes_hold_the_transforms_of_their_lists(slots: Seq<MatrixSlot>, flat: Seq<FlatView>, n: nat)
    requires
        slots_apart(slots),
        n <= slots.len(),
    ensures
        palette(slots, flat, n).len() == slots.len(),
        forall|s: int|
            0 <= s < n ==> palette(slots, flat, n)[(#[trigger] slots[s]).matrix_index as int] == PaletteEntry::Scrolled(
                flat[slots[s].draw_list_index.0 as int].draw_context.final_transform,
            ),
        forall|p: int|
            0 <= p < slots.len() && (forall|s: int| 0 <= s < n ==> (#[trigger] slots[s]).matrix_index != p)
                ==> #[trigger] palette(slots, flat, n)[p] == PaletteEntry::Identity,
    decreases n,
{
    if n > 0 {
        palettes_hold_the_transforms_of_their_lists(slots, flat, (n - 1) as nat);
        let before = palette(slots, flat, (n - 1) as nat);
        let after = palette(slots, flat, n);
        let last = slots[n - 1];
        assert(last.matrix_index < slots.len());
        assert forall|s: int| 0 <= s < n implies after[(#[trigger] slots[s]).matrix_index as int]
            == PaletteEntry::Scrolled(
            flat[slots[s].draw_list_index.0 as int].draw_context.final_transform,
        ) by {
            if s < n - 1 {
                assert(slots[s].matrix_index != slots[n - 1].matrix_index);
                assert(slots[s].matrix_index < slots.len());
            }
        }
        assert forall|p: int|
            0 <= p < slots.len() && (forall|s: int| 0 <= s < n ==> (#[trigger] slots[s]).matrix_index
                != p) implies #[trigger] after[p] == PaletteEntry::Identity by {
            assert(slots[n - 1].matrix_index != p);
            assert(before[p] == PaletteEntry::Identity);
        }
    }
}

/// Each batch of a node that was handed over gets the palette of its own slots.
pub proof fn batches_get_their_own_palettes(maps: Seq<MatrixMap>, flat: Seq<FlatView>, n: nat, m: int)
    requires
        0 <= m < n <= maps.len(),
    ensures
        uniform_updates(maps, flat, n).len() == n,
        uniform_updates(maps, flat, n)[m].id == maps[m].batch_id,
        uniform_updates(maps, flat, n)[m].op == UpdateOpView::UpdateUniforms(
            palette(maps[m].slots@, flat, maps[m].slots@.len()),
        ),
    decreases n,
{
    if n > 1 {
        batches_get_their_own_palettes(maps, flat, (n - 1) as nat, if m < n - 1 {
            m
        } else {
            0
        });
    } else {
        assert(uniform_updates(maps, flat, 0).len() == 0);
    }
}

/// The palettes that the renderer is told of are those of the batches that the visible nodes have handed over,
/// and no others.
pub proof fn visible_batches_get_palettes(
    nodes: Seq<AABBTreeNode>,
    flat: Seq<FlatView>,
    n: nat,
    update: UpdateView,
)
    requires
        n <= nodes.len(),
    ensures
        all_uniforms(nodes, flat, n).contains(update) <==> exists|i: int, m: int|
            0 <= i < n && shown(nodes[i]) && 0 <= m < compiled(nodes[i]).matrix_maps@.len() && {
                let map = #[trigger] compiled(nodes[i]).matrix_maps@[m];
                update == (UpdateView {
                    id: map.batch_id,
                    op: UpdateOpView::UpdateUniforms(palette(map.slots@, flat, map.slots@.len())),
                })
            },
    decreases n,
{
    if n > 0 {
        let k = (n - 1) as nat;
        visible_batches_get_palettes(nodes, flat, k, update);
        let node = nodes[n - 1];
        let before = all_uniforms(nodes, flat, k);
        let now = visible_uniforms(node, flat);
        assert(all_uniforms(nodes, flat, n) == before + now);
        lemma_either(before, now, update);
        if shown(node) {
            let maps = compiled(node).matrix_maps@;
            assert(now == uniform_updates(maps, flat, maps.len()));
            if now.contains(update) {
                let m = choose|m: int| 0 <= m < now.len() && now[m] == update;
                if maps.len() > 0 {
                    batches_get_their_own_palettes(maps, flat, maps.len(), 0);
                    batches_get_their_own_palettes(maps, flat, maps.len(), m);
                    let map = compiled(nodes[n - 1]).matrix_maps@[m];
                    assert(update.id == map.batch_id);
                } else {
                    assert(uniform_updates(maps, flat, 0).len() == 0);
                }
            }
            assert forall|m: int| 0 <= m < maps.len() implies now.contains(
                UpdateView {
                    id: (#[trigger] maps[m]).batch_id,
                    op: UpdateOpView::UpdateUniforms(palette(maps[m].slots@, flat, maps[m].slots@.len())),
                },
            ) by {
                batches_get_their_own_palettes(maps, flat, maps.len(), m);
                assert(now[m] == (UpdateView {
                    id: maps[m].batch_id,
                    op: UpdateOpView::UpdateUniforms(palette(maps[m].slots@, flat, maps[m].slots@.len())),
                }));
            }
        } else {
            assert(now.len() == 0);
        }
    }
}

/// Whether an update hands a batch to the renderer as it is: its vertices and indices, its program, its
/// colors and its mask.
pub open spec fn creates(update: UpdateView, batch: RenderBatch) -> bool {
    update.id == batch.batch_id && (update.op matches UpdateOpView::Create(vertices, indices, program, color, mask) && {
        &&& vertices == batch.vertices@
        &&& indices == batch.indices@
        &&& program == batch.program_id
        &&& color == batch.color_texture_id
        &&& mask == batch.mask_texture_id
    })
}

/// The batches that are handed to the renderer are those that the visible nodes hold, as they are, and no
/// others.
pub proof fn visible_batches_are_created(nodes: Seq<AABBTreeNode>, n: nat, update: UpdateView)
    requires
        n <= nodes.len(),
    ensures
        all_created(nodes, n).contains(update) <==> exists|i: int, b: int|
            0 <= i < n && shown(nodes[i]) && 0 <= b < compiled(nodes[i]).batches@.len() && creates(
                update,
                #[trigger] compiled(nodes[i]).batches@[b],
            ),
    decreases n,
{
    if n > 0 {
        let k = (n - 1) as nat;
        visible_batches_are_created(nodes, k, update);
        let node = nodes[n - 1];
        let before = all_created(nodes, k);
        let all = all_created(nodes, n);
        if shown(node) {
            let batches = compiled(node).batches@;
            let now = batches.map_values(|batch: RenderBatch| created(batch));
            assert(all == before + now);
            lemma_either(before, now, update);
            if now.contains(update) {
                let b = choose|b: int| 0 <= b < now.len() && now[b] == update;
                assert(creates(update, compiled(nodes[n - 1]).batches@[b]));
            }
            assert forall|b: int| 0 <= b < batches.len() && creates(update, #[trigger] batches[b]) implies now.contains(
                update,
            ) by {
                assert(now[b] == update);
            }
        } else {
            assert(all =~= before);
        }
    }
}

/// The nodes that are compiled before a frame are those that are visible and were not compiled yet, in their
/// order.
pub proof fn visible_nodes_are_compiled(nodes: Seq<AABBTreeNode>, n: nat, place: usize)
    requires
        n <= nodes.len() <= usize::MAX,
    ensures
        uncompiled(nodes, n).contains(place) <==> place < n && nodes[place as int].is_visible
            && nodes[place as int].compiled_node is None,
        forall|k: int, l: int|
            0 <= k < l < uncompiled(nodes, n).len() ==> #[trigger] uncompiled(nodes, n)[k] < #[trigger] uncompiled(
                nodes,
                n,
            )[l] < n,
        forall|k: int| 0 <= k < uncompiled(nodes, n).len() ==> #[trigger] uncompiled(nodes, n)[k] < n,
    decreases n,
{
    if n > 0 {
        visible_nodes_are_compiled(nodes, (n - 1) as nat, place);
        let before = uncompiled(nodes, (n - 1) as nat);
        let all = uncompiled(nodes, n);
        if nodes[n - 1].is_visible && nodes[n - 1].compiled_node is None {
            let own = (n - 1) as usize;
            assert(all == before.push(own));
            assert(all[before.len() as int] == own);
            if before.contains(place) {
                let k = choose|k: int| 0 <= k < before.len() && before[k] == place;
                assert(all[k] == place);
            }
            if all.contains(place) && place != own {
                let k = choose|k: int| 0 <= k < all.len() && all[k] == place;
                assert(before[k] == place);
            }
        }
    }
}

/// Noting the slots of a batch makes them the slots of that batch, and leaves those of the others.
pub proof fn slots_are_noted(maps: Seq<MapView>, id: BatchId, slots: Seq<MatrixSlot>, other: MapView)
    requires
        forall|i: int, j: int|
            0 <= i < j < maps.len() ==> (#[trigger] maps[i]).batch_id != (#[trigger] maps[j]).batch_id,
    ensures
        map_noted(maps, id, slots).contains(MapView { batch_id: id, slots }),
        other.batch_id != id ==> (map_noted(maps, id, slots).contains(other) <==> maps.contains(other)),
        forall|i: int, j: int|
            0 <= i < j < map_noted(maps, id, slots).len() ==> (#[trigger] map_noted(maps, id, slots)[i]).batch_id != (
            #[trigger] map_noted(maps, id, slots)[j]).batch_id,
{
    let place = map_place(maps, id, 0);
    lemma_place(maps, id, 0);
    let after = map_noted(maps, id, slots);
    let new = MapView { batch_id: id, slots };
    assert(after[place] == new);
    if other.batch_id != id {
        if maps.contains(other) {
            let k = choose|k: int| 0 <= k < maps.len() && maps[k] == other;
            assert(after[k] == other);
        }
        if after.contains(other) {
            let k = choose|k: int| 0 <= k < after.len() && after[k] == other;
            assert(k != place);
            assert(maps[k] == other);
        }
    }
}

proof fn lemma_place(maps: Seq<MapView>, id: BatchId, i: int)
    requires
        0 <= i <= maps.len(),
    ensures
        i <= map_place(maps, id, i) <= maps.len(),
        map_place(maps, id, i) < maps.len() ==> maps[map_place(maps, id, i)].batch_id == id,
        forall|k: int| i <= k < map_place(maps, id, i) ==> (#[trigger] maps[k]).batch_id != id,
    decreases maps.len() - i,
{
    if i < maps.len() && maps[i].batch_id != id {
        lemma_place(maps, id, i + 1);
    }
}

/// Glyphs are drawn by the program for glyphs and everything else by the one for rectangles; a batch is drawn
/// by a command for its target, at its own place in painting order.
pub proof fn batches_are_drawn_by_their_commands(
    builder: DrawCommandBuilder,
    primitive: Primitive,
    target: RenderTargetIndex,
    batch: RenderBatch,
)
    ensures
        primitive is Glyphs ==> builder.program_of(primitive) == builder.glyph_program_id,
        !(primitive is Glyphs) ==> builder.program_of(primitive) == builder.quad_program_id,
        batch_command(target, batch).render_target == target,
        batch_command(target, batch).sort_key == batch.sort_key,
        batch_command(target, batch).info == DrawCommandInfo::Batch(batch.batch_id),
{
}

} // verus!
