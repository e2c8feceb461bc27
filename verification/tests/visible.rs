use render_backend::batch::{
    BatchUpdateOp, CompiledNode, DrawCommand, DrawCommandInfo, MatrixMap, MatrixSlot, PaletteEntry, RenderBatch,
};
use render_backend::display::DrawList;
use render_backend::frame::sort_commands;
use render_backend::geometry::{DeviceSize, Point2D, Rect, Size2D};
use render_backend::ids::{
    BatchId, DisplayItemKey, DrawListIndex, Epoch, NodeIndex, ProgramId, RenderTargetIndex, TextureId, TransformIndex,
};
use render_backend::node::{AABBTreeNode, ResourceList};
use render_backend::scalar::Scalar;
use render_backend::scene::{DrawContext, Scene, Transform};

fn rect() -> Rect {
    let z = Scalar { bits: 0 };
    Rect { origin: Point2D { x: z, y: z }, size: Size2D { width: z, height: z } }
}

fn command(target: u32, list: u32, item: u32, id: u64) -> DrawCommand {
    DrawCommand {
        render_target: RenderTargetIndex(target),
        sort_key: DisplayItemKey::new(list, item),
        info: DrawCommandInfo::Batch(BatchId(id)),
    }
}

fn node(index: u32, visible: bool, compiled: Option<CompiledNode>) -> AABBTreeNode {
    AABBTreeNode {
        node_index: NodeIndex(index),
        is_visible: visible,
        src_items: Vec::new(),
        resource_list: None,
        compiled_node: compiled,
    }
}

fn compiled(commands: Vec<DrawCommand>) -> CompiledNode {
    CompiledNode { batches: Vec::new(), commands, matrix_maps: Vec::new() }
}

fn scene(lists: u32) -> Scene {
    let mut scene = Scene::new();
    scene.push_render_target(DeviceSize { width: 8, height: 6 }, None);
    scene.push_render_target(DeviceSize { width: 4, height: 3 }, Some(TextureId(7)));
    for n in 0..lists {
        let final_transform = scene.push_transform(Transform::Identity);
        scene.push_draw_list(
            None,
            DrawList::new(),
            &DrawContext {
                render_target_index: RenderTargetIndex(1),
                overflow: rect(),
                device_pixel_ratio: Scalar { bits: 0 },
                final_transform,
            },
        );
        assert_eq!(final_transform, TransformIndex(n as usize));
    }
    scene.pop_render_target();
    scene.pop_render_target();
    scene
}

#[test]
fn sorting_is_stable() {
    let commands = vec![
        command(0, 2, 0, 1),
        command(0, 0, 5, 2),
        command(0, 2, 0, 3),
        command(0, 0, 1, 4),
        command(0, 1, 9, 5),
        command(0, 0, 5, 6),
    ];
    let sorted = sort_commands(&commands);
    let mut expected = commands.clone();
    expected.sort_by_key(|c| (c.sort_key.draw_list_index.0, c.sort_key.item_index.0));
    assert_eq!(sorted, expected);
    assert_eq!(sorted[1].info, DrawCommandInfo::Batch(BatchId(2)));
    assert_eq!(sorted[2].info, DrawCommandInfo::Batch(BatchId(6)));
}

#[test]
fn sorting_many() {
    let mut commands = Vec::new();
    let mut x: u32 = 12345;
    for n in 0..500 {
        x = x.wrapping_mul(1_103_515_245).wrapping_add(12345);
        commands.push(command(0, (x >> 16) % 7, (x >> 20) % 5, n));
    }
    let mut expected = commands.clone();
    expected.sort_by_key(|c| (c.sort_key.draw_list_index.0, c.sort_key.item_index.0));
    assert_eq!(sort_commands(&commands), expected);
}

#[test]
fn frames_hold_visible_layers() {
    let mut scene = scene(1);
    scene.pipeline_epoch_map.insert(3, Epoch(9));
    scene.nodes.push(node(0, true, Some(compiled(vec![command(1, 5, 0, 1), command(1, 2, 0, 2)]))));
    scene.nodes.push(node(1, false, Some(compiled(vec![command(0, 0, 0, 3)]))));
    scene.nodes.push(node(2, true, Some(compiled(vec![command(1, 2, 0, 4)]))));
    assert!(scene.is_ready());
    let frame = scene.collect_and_sort_visible_batches();
    assert_eq!(frame.pipeline_epoch_map.get(&3), Some(&Epoch(9)));
    assert_eq!(frame.layers.len(), 1);
    let layer = &frame.layers[0];
    assert_eq!(layer.texture_id, Some(TextureId(7)));
    assert_eq!(layer.size, DeviceSize { width: 4, height: 3 });
    assert_eq!(
        layer.commands,
        vec![command(1, 2, 0, 2), command(1, 2, 0, 4), command(1, 5, 0, 1)]
    );
}

#[test]
fn batches_are_handed_over_with_their_matrices() {
    let mut scene = scene(3);
    let slots = vec![
        MatrixSlot { draw_list_index: DrawListIndex(2), matrix_index: 1 },
        MatrixSlot { draw_list_index: DrawListIndex(0), matrix_index: 0 },
    ];
    let batch = RenderBatch {
        batch_id: BatchId(5),
        sort_key: DisplayItemKey::new(0, 0),
        program_id: ProgramId(1),
        color_texture_id: TextureId(2),
        mask_texture_id: TextureId(3),
        vertices: Vec::new(),
        indices: vec![0, 1, 2],
        matrix_map: slots.clone(),
    };
    let mut first = compiled(vec![command(0, 0, 0, 5)]);
    first.batches.push(batch);
    scene.nodes.push(node(0, true, Some(first)));
    scene.update_batch_cache();
    let updates = scene.pending_updates().updates;
    assert_eq!(updates.len(), 1);
    assert_eq!(updates[0].id, BatchId(5));
    assert_eq!(
        updates[0].op,
        BatchUpdateOp::Create(Vec::new(), vec![0, 1, 2], ProgramId(1), TextureId(2), TextureId(3))
    );
    let kept = scene.nodes[0].compiled_node.as_ref().unwrap();
    assert!(kept.batches.is_empty());
    assert_eq!(kept.matrix_maps, vec![MatrixMap { batch_id: BatchId(5), slots }]);

    // A second time there is nothing to hand over, but the matrices are sent with every frame.
    scene.update_batch_cache();
    assert!(scene.pending_updates.updates.is_empty());
    assert!(scene.is_ready());
    scene.collect_and_sort_visible_batches();
    let updates = scene.pending_updates().updates;
    assert_eq!(updates.len(), 1);
    assert_eq!(
        updates[0].op,
        BatchUpdateOp::UpdateUniforms(vec![
            PaletteEntry::Scrolled(TransformIndex(0)),
            PaletteEntry::Scrolled(TransformIndex(2)),
        ])
    );
    assert!(scene.pending_updates().updates.is_empty());
}

#[test]
fn noting_a_batch_again_replaces_it() {
    let mut scene = scene(1);
    let mut first = compiled(vec![]);
    first.matrix_maps.push(MatrixMap { batch_id: BatchId(5), slots: Vec::new() });
    first.batches.push(RenderBatch::new(
        BatchId(5),
        DisplayItemKey::new(0, 0),
        ProgramId(0),
        TextureId(0),
        TextureId(0),
    ));
    first.batches[0].matrix_map.push(MatrixSlot { draw_list_index: DrawListIndex(0), matrix_index: 0 });
    scene.nodes.push(node(0, true, Some(first)));
    scene.update_batch_cache();
    let maps = &scene.nodes[0].compiled_node.as_ref().unwrap().matrix_maps;
    assert_eq!(maps.len(), 1);
    assert_eq!(maps[0].slots.len(), 1);
}

#[test]
fn scenes_that_are_not_ready() {
    let mut a = scene(1);
    a.nodes.push(node(0, true, None));
    assert!(!a.is_ready());
    let mut b = scene(1);
    b.nodes.push(node(0, true, Some(compiled(vec![command(2, 0, 0, 1)]))));
    assert!(!b.is_ready());
    let mut c = scene(1);
    let mut n = compiled(vec![]);
    n.matrix_maps.push(MatrixMap {
        batch_id: BatchId(0),
        slots: vec![MatrixSlot { draw_list_index: DrawListIndex(1), matrix_index: 0 }],
    });
    c.nodes.push(node(0, true, Some(n)));
    assert!(!c.is_ready());
}

#[test]
fn resetting_destroys_what_was_not_handed_over() {
    let mut scene = scene(0);
    let mut n = compiled(vec![]);
    n.batches.push(RenderBatch::new(
        BatchId(8),
        DisplayItemKey::new(0, 0),
        ProgramId(0),
        TextureId(0),
        TextureId(0),
    ));
    scene.nodes.push(node(0, false, Some(n)));
    scene.nodes.push(node(1, false, None));
    assert_eq!(scene.reset(), vec![TextureId(7)]);
    let updates = scene.pending_updates().updates;
    assert_eq!(updates.len(), 1);
    assert_eq!(updates[0].id, BatchId(8));
    assert_eq!(updates[0].op, BatchUpdateOp::Destroy);
}

#[test]
fn visible_nodes_are_compiled_once() {
    let mut scene = scene(0);
    for n in 0..4 {
        scene.nodes.push(node(n, false, None));
    }
    scene.set_visible(&vec![true, false, true, true]);
    scene.set_compiled_node(2, compiled(vec![]));
    assert_eq!(scene.nodes_to_compile(), vec![0, 3]);
    scene.set_resource_list(0, ResourceList { rasters: Vec::new(), images: Vec::new(), glyphs: Vec::new() });
    assert!(scene.nodes[0].resource_list.is_some());
    assert_eq!(scene.nodes_to_compile(), vec![0, 3]);
}

#[test]
fn batches_are_created_before_their_matrices_are_sent() {
    let mut scene = scene(1);
    for n in 0..2 {
        let mut c = compiled(vec![command(0, 0, n, n as u64)]);
        c.batches.push(RenderBatch::new(
            BatchId(n as u64),
            DisplayItemKey::new(0, n),
            ProgramId(0),
            TextureId(0),
            TextureId(0),
        ));
        c.batches[0].matrix_map.push(MatrixSlot { draw_list_index: DrawListIndex(0), matrix_index: 0 });
        scene.nodes.push(node(n, true, Some(c)));
    }
    assert!(scene.is_ready());
    let frame = scene.build_frame();
    assert_eq!(frame.layers.len(), 1);
    assert_eq!(frame.layers[0].commands, vec![command(0, 0, 0, 0), command(0, 0, 1, 1)]);
    let updates = scene.pending_updates().updates;
    assert_eq!(updates.iter().map(|update| update.id.0).collect::<Vec<u64>>(), vec![0, 1, 0, 1]);
    for update in &updates[..2] {
        assert!(matches!(update.op, BatchUpdateOp::Create(..)));
    }
    for update in &updates[2..] {
        assert_eq!(
            update.op,
            BatchUpdateOp::UpdateUniforms(vec![PaletteEntry::Scrolled(TransformIndex(0))])
        );
    }
    // The next frame creates nothing.
    scene.build_frame();
    let updates = scene.pending_updates().updates;
    assert_eq!(updates.len(), 2);
    assert!(updates.iter().all(|update| matches!(update.op, BatchUpdateOp::UpdateUniforms(_))));
}

#[test]
fn batches_must_name_lists_of_the_scene() {
    let mut scene = scene(1);
    let mut c = compiled(vec![]);
    c.batches.push(RenderBatch::new(
        BatchId(1),
        DisplayItemKey::new(0, 0),
        ProgramId(0),
        TextureId(0),
        TextureId(0),
    ));
    c.batches[0].matrix_map.push(MatrixSlot { draw_list_index: DrawListIndex(1), matrix_index: 0 });
    scene.nodes.push(node(0, true, Some(c)));
    assert!(!scene.is_ready());
}

#[test]
fn collecting_does_not_look_at_batches_that_are_held() {
    let mut scene = scene(1);
    let mut c = compiled(vec![command(0, 0, 0, 1)]);
    c.batches.push(RenderBatch::new(
        BatchId(1),
        DisplayItemKey::new(0, 0),
        ProgramId(0),
        TextureId(0),
        TextureId(0),
    ));
    c.batches[0].matrix_map.push(MatrixSlot { draw_list_index: DrawListIndex(9), matrix_index: 0 });
    scene.nodes.push(node(0, true, Some(c)));
    let frame = scene.collect_and_sort_visible_batches();
    assert_eq!(frame.layers[0].commands, vec![command(0, 0, 0, 1)]);
    assert!(scene.pending_updates().updates.is_empty());
}
