use render_backend::backend::{ApiMsg, RenderBackend};
use render_backend::batch::{BatchUpdateOp, CompiledNode, DrawCommand, DrawCommandInfo, RenderBatch};
use render_backend::display::{
    ClipRegion, DisplayItem, DisplayListBuilder, DisplayListMode, DrawList, MixBlendMode, RectangleDisplayItem,
    SpecificDisplayItem, StackingContext,
};
use render_backend::geometry::{ColorF, DeviceSize, Point2D, Rect, Size2D, Viewport};
use render_backend::ids::{
    BatchId, DisplayItemKey, DisplayListID, DrawListID, Epoch, FontId, ImageID, NodeIndex, PipelineId, ProgramId,
    RenderTargetIndex, TextureId,
};
use render_backend::length::Length;
use render_backend::node::AABBTreeNode;
use render_backend::phases::SceneError;
use render_backend::run::{BackendError, ResultMsg, SceneBuild, Turn};
use render_backend::scalar::Scalar;
use render_backend::uploads::ImageFormat;

fn s(value: f32) -> Scalar {
    Scalar { bits: value.to_bits() }
}

fn rect() -> Rect {
    Rect {
        origin: Point2D { x: s(0.0), y: s(0.0) },
        size: Size2D { width: s(40.0), height: s(30.0) },
    }
}

fn color(a: f32) -> ColorF {
    ColorF { r: s(0.0), g: s(0.0), b: s(0.0), a: s(a) }
}

fn draw_list(items: u32) -> DrawList {
    let mut list = DrawList::new();
    for _ in 0..items {
        list.push(DisplayItem {
            item: SpecificDisplayItem::Rectangle(RectangleDisplayItem { color: color(1.0) }),
            rect: rect(),
            clip: ClipRegion { main: rect(), complex: Vec::new() },
            node_index: None,
        });
    }
    list
}

fn builder(counts: [u32; 6]) -> DisplayListBuilder {
    DisplayListBuilder {
        mode: DisplayListMode::Default,
        background_and_borders: draw_list(counts[0]),
        block_backgrounds_and_borders: draw_list(counts[1]),
        floats: draw_list(counts[2]),
        content: draw_list(counts[3]),
        positioned_content: draw_list(counts[4]),
        outlines: draw_list(counts[5]),
    }
}

fn context(lists: Vec<u64>) -> StackingContext {
    StackingContext {
        display_lists: lists.into_iter().map(DisplayListID).collect(),
        children: Vec::new(),
        bounds: rect(),
        overflow: rect(),
        z_index: 0,
        mix_blend_mode: MixBlendMode::Normal,
    }
}

fn backend() -> RenderBackend {
    RenderBackend::new(
        Viewport { x: 0, y: 0, width: 640, height: 480 },
        s(1.0),
        ProgramId(1),
        ProgramId(2),
        ImageID(1),
        ImageID(2),
    )
}

fn add(b: &mut RenderBackend, id: u64, pipeline: PipelineId, epoch: u32, counts: [u32; 6]) {
    let msg = ApiMsg::AddDisplayList(DisplayListID(id), pipeline, Epoch(epoch), builder(counts));
    assert!(matches!(b.run(msg), Ok(Turn::Wait)));
}

fn set_root(b: &mut RenderBackend, pipeline: PipelineId, epoch: u32, lists: Vec<u64>) -> Result<Turn, BackendError> {
    b.run(ApiMsg::SetRootStackingContext(context(lists), color(0.0), Epoch(epoch), pipeline))
}

fn painted(b: &RenderBackend) -> Vec<Option<u64>> {
    b.scene.flat_draw_lists.iter().map(|l| l.id.map(|id| id.0)).collect()
}

const ROOT: PipelineId = PipelineId(0, 0);

#[test]
fn fonts_and_images_are_kept() {
    let mut b = backend();
    assert!(matches!(b.run(ApiMsg::AddFont(FontId(3), vec![1, 2])), Ok(Turn::Wait)));
    assert_eq!(b.font_template(FontId(3)).unwrap().bytes, vec![1, 2]);
    assert!(b.font_template(FontId(4)).is_none());
    let msg = ApiMsg::AddImage(ImageID(7), 4, 5, ImageFormat::A8, vec![9]);
    assert!(matches!(b.run(msg), Ok(Turn::Wait)));
    let image = &b.image_templates[&7];
    assert_eq!((image.width, image.height, image.format), (4, 5, ImageFormat::A8));
    assert_eq!(image.bytes, vec![9]);
}

#[test]
fn empty_draw_lists_are_not_kept() {
    let mut b = backend();
    add(&mut b, 5, ROOT, 1, [1, 0, 2, 0, 0, 3]);
    let list = b.display_list_map[&5];
    assert_eq!(list.background_and_borders_id, Some(DrawListID(0)));
    assert_eq!(list.block_backgrounds_and_borders_id, None);
    assert_eq!(list.floats_id, Some(DrawListID(1)));
    assert_eq!(list.content_id, None);
    assert_eq!(list.positioned_content_id, None);
    assert_eq!(list.outlines_id, Some(DrawListID(2)));
    assert_eq!(list.pipeline_id, ROOT);
    assert_eq!(list.epoch, Epoch(1));
    assert_eq!(b.draw_list_map.len(), 3);
    assert_eq!(b.draw_list_map[&1].item_count(), 2);
    assert_eq!(b.add_draw_list(draw_list(0)), None);
    assert_eq!(b.add_draw_list(draw_list(1)), Some(DrawListID(3)));
    b.remove_draw_list(Some(DrawListID(3)));
    b.remove_draw_list(None);
    assert_eq!(b.draw_list_map.len(), 3);
}

#[test]
fn identifiers_run_out() {
    let mut b = backend();
    b.next_draw_list_id = u64::MAX - 5;
    let msg = ApiMsg::AddDisplayList(DisplayListID(1), ROOT, Epoch(1), builder([0; 6]));
    assert!(matches!(b.run(msg), Err(BackendError::OutOfIdentifiers)));
    b.next_draw_list_id = u64::MAX - 6;
    add(&mut b, 1, ROOT, 1, [1; 6]);
    assert_eq!(b.next_draw_list_id, u64::MAX);
}

#[test]
fn the_root_document_is_built() {
    let mut b = backend();
    add(&mut b, 5, ROOT, 1, [1, 0, 0, 1, 0, 0]);
    match set_root(&mut b, ROOT, 1, vec![5]) {
        Ok(Turn::Draw(SceneBuild::Built(freed))) => assert!(freed.is_empty()),
        other => panic!("{:?}", other),
    }
    assert_eq!(painted(&b), vec![Some(0), Some(1)]);
    assert!(b.draw_list_map.is_empty());
    assert!(b.scene.render_target_stack.is_empty());
    assert_eq!(b.scene.render_targets[0].size, DeviceSize { width: 640, height: 480 });
    assert_eq!(b.scene.pipeline_epoch_map[&0], Epoch(1));
}

#[test]
fn without_a_root_there_is_no_scene() {
    let mut b = backend();
    add(&mut b, 5, PipelineId(0, 1), 1, [1; 6]);
    match set_root(&mut b, PipelineId(0, 1), 1, vec![5]) {
        Ok(Turn::Draw(SceneBuild::Unbuilt)) => {}
        other => panic!("{:?}", other),
    }
    assert!(painted(&b).is_empty());
    assert_eq!(b.draw_list_map.len(), 6);
}

#[test]
fn lists_come_back_for_the_next_scene() {
    let mut b = backend();
    add(&mut b, 5, ROOT, 1, [1, 0, 0, 1, 0, 0]);
    assert!(set_root(&mut b, ROOT, 1, vec![5]).is_ok());
    assert!(set_root(&mut b, ROOT, 1, vec![5]).is_ok());
    assert_eq!(painted(&b), vec![Some(0), Some(1)]);
    // A scene that does not name the list leaves its draw lists in the table.
    assert!(set_root(&mut b, ROOT, 1, vec![]).is_ok());
    assert!(painted(&b).is_empty());
    assert_eq!(b.draw_list_map.len(), 2);
    b.return_draw_lists();
    assert_eq!(b.draw_list_map.len(), 2);
}

#[test]
fn older_generations_are_dropped() {
    let mut b = backend();
    add(&mut b, 5, ROOT, 1, [1, 0, 0, 1, 0, 0]);
    add(&mut b, 6, PipelineId(0, 1), 1, [1, 0, 0, 0, 0, 0]);
    assert!(set_root(&mut b, ROOT, 1, vec![5]).is_ok());
    add(&mut b, 7, ROOT, 2, [0, 1, 0, 0, 0, 0]);
    assert!(set_root(&mut b, ROOT, 2, vec![7]).is_ok());
    assert_eq!(painted(&b), vec![Some(3)]);
    assert!(!b.display_list_map.contains_key(&5));
    assert!(b.display_list_map.contains_key(&6));
    assert!(b.display_list_map.contains_key(&7));
    // What is left in the table belongs to the other pipeline.
    assert_eq!(b.draw_list_map.keys().copied().collect::<Vec<u64>>(), vec![2]);
}

#[test]
fn a_scene_over_missing_lists_fails() {
    let mut b = backend();
    match set_root(&mut b, ROOT, 1, vec![5]) {
        Err(BackendError::Scene(SceneError::MissingDisplayList(id))) => assert_eq!(id, DisplayListID(5)),
        other => panic!("{:?}", other),
    }
    let mut b = backend();
    add(&mut b, 5, ROOT, 1, [1; 6]);
    match set_root(&mut b, ROOT, 1, vec![5, 5]) {
        Err(BackendError::Scene(SceneError::MissingDrawList(id))) => assert_eq!(id, DrawListID(0)),
        other => panic!("{:?}", other),
    }
}

#[test]
fn scrolling_stops_at_the_start() {
    let mut b = backend();
    b.scroll(Point2D { x: s(-5.0), y: s(-7.0) });
    match b.run(ApiMsg::Scroll(Point2D { x: s(2.0), y: s(10.0) })) {
        Ok(Turn::Scroll(place)) => match (place.x, place.y) {
            (Length::Sum(a, b), Length::Sum(c, d)) => {
                assert!(matches!(*a, Length::Given(v) if v == s(-5.0)));
                assert!(matches!(*b, Length::Given(v) if v == s(2.0)));
                assert!(matches!(*c, Length::Given(v) if v == s(-7.0)));
                assert!(matches!(*d, Length::Given(v) if v == s(10.0)));
            }
            other => panic!("{:?}", other),
        },
        other => panic!("{:?}", other),
    }
    b.scroll(Point2D { x: s(-3.0), y: s(3.0) });
    assert_eq!(b.scene.scroll_offset, Point2D { x: s(-3.0), y: s(0.0) });
    b.scroll(Point2D { x: s(f32::NAN), y: s(-1.0) });
    assert_eq!(b.scene.scroll_offset, Point2D { x: s(0.0), y: s(-1.0) });
}

fn place(b: &mut RenderBackend) {
    assert!(b.scene.is_unplaced());
    let node = AABBTreeNode {
        node_index: NodeIndex(0),
        is_visible: false,
        src_items: vec![DisplayItemKey::new(0, 0)],
        resource_list: None,
        compiled_node: None,
    };
    let placements: Vec<Vec<Option<NodeIndex>>> = b
        .scene
        .flat_draw_lists
        .iter()
        .map(|l| vec![Some(NodeIndex(0)); l.draw_list.item_count()])
        .collect();
    let textures: Vec<TextureId> = b.scene.offscreen_sizes().iter().map(|_| TextureId(8)).collect();
    b.place_scene(&textures, vec![node], &placements);
}

#[test]
fn placed_items_stay_placed() {
    let mut b = backend();
    add(&mut b, 5, ROOT, 1, [2, 0, 0, 0, 0, 0]);
    assert!(set_root(&mut b, ROOT, 1, vec![5]).is_ok());
    place(&mut b);
    assert_eq!(b.scene.nodes.len(), 1);
    assert_eq!(b.scene.flat_draw_lists[0].draw_list.items[1].node_index, Some(NodeIndex(0)));
    assert!(!b.scene.is_unplaced());
    assert!(set_root(&mut b, ROOT, 1, vec![5]).is_ok());
    assert!(!b.scene.is_unplaced());
}

#[test]
fn frames_are_sent_after_updates() {
    let mut b = backend();
    add(&mut b, 5, ROOT, 1, [1, 0, 0, 0, 0, 0]);
    assert!(set_root(&mut b, ROOT, 1, vec![5]).is_ok());
    place(&mut b);
    b.scene.set_visible(&vec![true]);
    assert!(!b.scene.is_ready());
    let key = DisplayItemKey::new(0, 0);
    let batch = RenderBatch::new(BatchId(4), key, ProgramId(1), TextureId(1), TextureId(2));
    let command = DrawCommand {
        render_target: RenderTargetIndex(0),
        sort_key: key,
        info: DrawCommandInfo::Batch(BatchId(4)),
    };
    b.scene.set_compiled_node(
        0,
        CompiledNode { batches: vec![batch], commands: vec![command], matrix_maps: Vec::new() },
    );
    assert!(b.scene.is_ready());
    let messages = b.render(true);
    assert_eq!(messages.len(), 3);
    assert!(matches!(messages[0], ResultMsg::UpdateTextureCache));
    match &messages[1] {
        ResultMsg::UpdateBatches(list) => {
            assert_eq!(list.updates.len(), 2);
            assert!(matches!(list.updates[0].op, BatchUpdateOp::Create(..)));
            assert!(matches!(list.updates[1].op, BatchUpdateOp::UpdateUniforms(_)));
        }
        other => panic!("{:?}", other),
    }
    match &messages[2] {
        ResultMsg::NewFrame(frame) => {
            assert_eq!(frame.layers.len(), 1);
            assert_eq!(frame.layers[0].commands, vec![command]);
        }
        other => panic!("{:?}", other),
    }
    // The matrices are sent with every frame.
    assert_eq!(b.render(false).len(), 2);
    b.scene.set_visible(&vec![false]);
    let messages = b.render(false);
    assert_eq!(messages.len(), 1);
    match &messages[0] {
        ResultMsg::NewFrame(frame) => assert!(frame.layers.is_empty()),
        other => panic!("{:?}", other),
    }
}

#[test]
fn adding_a_list_is_undone_by_removing_it() {
    let mut b = backend();
    add(&mut b, 5, ROOT, 1, [1, 0, 2, 0, 0, 0]);
    let mut keys: Vec<u64> = b.draw_list_map.keys().cloned().collect();
    keys.sort();
    let id = b.add_draw_list(draw_list(3));
    assert!(matches!(id, Some(DrawListID(n)) if !keys.contains(&n)));
    assert_eq!(b.draw_list_map.len(), keys.len() + 1);
    b.remove_draw_list(id);
    let empty = b.add_draw_list(draw_list(0));
    assert_eq!(empty, None);
    b.remove_draw_list(empty);
    let mut left: Vec<u64> = b.draw_list_map.keys().cloned().collect();
    left.sort();
    assert_eq!(left, keys);
}
