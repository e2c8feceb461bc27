use fnv::FnvHashMap;
use render_backend::display::{
    ClipRegion, DisplayItem, DisplayList, DisplayListMode, DrawList, IframeDisplayItem, MixBlendMode,
    RectangleDisplayItem, RootStackingContext, SpecificDisplayItem, StackingContext,
};
use render_backend::flatten::StackingContextKind;
use render_backend::geometry::{ColorF, DeviceSize, Point2D, Rect, Size2D};
use render_backend::ids::{
    DisplayListID, DrawListID, DrawListIndex, Epoch, PipelineId, RenderTargetIndex, TextureId, TransformIndex,
};
use render_backend::phases::SceneError;
use render_backend::scalar::Scalar;
use render_backend::scene::{Scene, Transform};

fn s(value: f32) -> Scalar {
    Scalar { bits: value.to_bits() }
}

fn rect(x: f32, y: f32, width: f32, height: f32) -> Rect {
    Rect {
        origin: Point2D { x: s(x), y: s(y) },
        size: Size2D { width: s(width), height: s(height) },
    }
}

fn color(a: f32) -> ColorF {
    ColorF { r: s(0.1), g: s(0.2), b: s(0.3), a: s(a) }
}

fn item(item: SpecificDisplayItem, at: Rect) -> DisplayItem {
    DisplayItem { item, rect: at, clip: ClipRegion { main: at, complex: Vec::new() }, node_index: None }
}

fn filled() -> DrawList {
    let mut list = DrawList::new();
    list.push(item(
        SpecificDisplayItem::Rectangle(RectangleDisplayItem { color: color(1.0) }),
        rect(0.0, 0.0, 1.0, 1.0),
    ));
    list
}

fn framing(id: PipelineId, x: f32, y: f32) -> DrawList {
    let mut list = filled();
    list.push(item(
        SpecificDisplayItem::Iframe(IframeDisplayItem { iframe: id }),
        rect(x, y, 10.0, 10.0),
    ));
    list
}

fn display_list(ids: [Option<u64>; 6]) -> DisplayList {
    DisplayList {
        mode: DisplayListMode::Default,
        pipeline_id: PipelineId(0, 0),
        epoch: Epoch(1),
        background_and_borders_id: ids[0].map(DrawListID),
        block_backgrounds_and_borders_id: ids[1].map(DrawListID),
        floats_id: ids[2].map(DrawListID),
        content_id: ids[3].map(DrawListID),
        positioned_content_id: ids[4].map(DrawListID),
        outlines_id: ids[5].map(DrawListID),
    }
}

fn context(lists: Vec<u64>, z_index: i32, children: Vec<StackingContext>) -> StackingContext {
    StackingContext {
        display_lists: lists.into_iter().map(DisplayListID).collect(),
        children,
        bounds: rect(5.0, 6.0, 100.0, 50.0),
        overflow: rect(0.0, 0.0, 100.5, 50.25),
        z_index,
        mix_blend_mode: MixBlendMode::Normal,
    }
}

fn root(id: PipelineId, alpha: f32, stacking_context: StackingContext) -> RootStackingContext {
    RootStackingContext { pipeline_id: id, epoch: Epoch(4), background_color: color(alpha), stacking_context }
}

struct World {
    display: FnvHashMap<u64, DisplayList>,
    draw: FnvHashMap<u64, DrawList>,
    contexts: FnvHashMap<u64, RootStackingContext>,
    scene: Scene,
}

fn world() -> World {
    let mut scene = Scene::new();
    scene.push_render_target(DeviceSize { width: 800, height: 600 }, None);
    let identity = scene.push_transform(Transform::Identity);
    assert_eq!(identity, TransformIndex(0));
    World {
        display: FnvHashMap::default(),
        draw: FnvHashMap::default(),
        contexts: FnvHashMap::default(),
        scene,
    }
}

impl World {
    fn flatten(&mut self, kind: StackingContextKind) -> Result<(), SceneError> {
        self.scene.flatten_stacking_context(
            kind,
            TransformIndex(0),
            &self.display,
            &mut self.draw,
            &self.contexts,
            s(1.5),
        )
    }

    fn painted(&self) -> Vec<Option<u64>> {
        self.scene.flat_draw_lists.iter().map(|list| list.id.map(|id| id.0)).collect()
    }
}

#[test]
fn contexts_are_painted_in_order() {
    let mut w = world();
    for n in 0..12 {
        w.draw.insert(n, filled());
    }
    w.display.insert(1, display_list([Some(0), Some(1), Some(2), Some(3), Some(4), Some(5)]));
    w.display.insert(2, display_list([Some(6), None, None, None, None, Some(7)]));
    w.display.insert(3, display_list([None, None, None, Some(8), None, None]));
    let below = context(vec![2], -1, vec![]);
    let above = context(vec![3], 0, vec![]);
    let parent = context(vec![1], 0, vec![above, below]);
    assert_eq!(w.flatten(StackingContextKind::Normal(&parent)), Ok(()));
    assert_eq!(
        w.painted(),
        vec![Some(0), Some(6), Some(7), Some(1), Some(2), Some(3), Some(4), Some(8), Some(5)]
    );
    // The lists have moved out of the table, the others are still there.
    assert_eq!(w.draw.len(), 3);
    assert!(w.draw.contains_key(&9));
    // Every list is painted on the window.
    let indices: Vec<DrawListIndex> = (0..9).map(DrawListIndex).collect();
    assert_eq!(w.scene.render_targets[0].draw_list_indices, indices);
    assert_eq!(w.scene.render_target_stack, vec![RenderTargetIndex(0)]);
}

#[test]
fn transforms_name_earlier_ones() {
    let mut w = world();
    w.draw.insert(0, filled());
    w.draw.insert(1, filled());
    w.display.insert(1, display_list([Some(0), None, None, None, None, None]));
    w.display.insert(2, display_list([Some(1), None, None, None, None, None]));
    let child = context(vec![2], 0, vec![]);
    let parent = context(vec![1], 0, vec![child]);
    assert_eq!(w.flatten(StackingContextKind::Normal(&parent)), Ok(()));
    let offset = Point2D { x: s(5.0), y: s(6.0) };
    assert_eq!(
        w.scene.transforms,
        vec![
            Transform::Identity,
            Transform::Translate { parent: TransformIndex(0), offset },
            Transform::Translate { parent: TransformIndex(1), offset },
        ]
    );
    assert_eq!(w.scene.flat_draw_lists[0].draw_context.final_transform, TransformIndex(1));
    assert_eq!(w.scene.flat_draw_lists[1].draw_context.final_transform, TransformIndex(2));
    assert_eq!(w.scene.flat_draw_lists[1].draw_context.device_pixel_ratio, s(1.5));
}

#[test]
fn blended_contexts_get_a_target() {
    let mut w = world();
    w.draw.insert(0, filled());
    w.draw.insert(1, filled());
    w.display.insert(1, display_list([Some(0), None, None, None, None, Some(1)]));
    let mut blended = context(vec![1], 0, vec![]);
    blended.mix_blend_mode = MixBlendMode::Multiply;
    assert_eq!(w.flatten(StackingContextKind::Normal(&blended)), Ok(()));
    assert_eq!(w.painted(), vec![None, Some(0), Some(1)]);
    assert_eq!(w.scene.render_targets.len(), 2);
    let target = &w.scene.render_targets[1];
    assert_eq!(target.size, DeviceSize { width: 100, height: 50 });
    assert_eq!(target.texture_id, None);
    assert_eq!(target.draw_list_indices, vec![DrawListIndex(1), DrawListIndex(2)]);
    assert_eq!(w.scene.render_targets[0].draw_list_indices, vec![DrawListIndex(0)]);
    match &w.scene.flat_draw_lists[0].draw_list.items[0].item {
        SpecificDisplayItem::Composite(info) => {
            assert_eq!(info.blend_mode, MixBlendMode::Multiply);
            assert_eq!(info.target, RenderTargetIndex(1));
        }
        other => panic!("not a composite: {:?}", other),
    }
    // Inside the target coordinates start afresh.
    let inner = w.scene.flat_draw_lists[1].draw_context;
    assert_eq!(inner.render_target_index, RenderTargetIndex(1));
    assert_eq!(w.scene.transforms[inner.final_transform.0], Transform::Identity);
    assert_eq!(w.scene.render_target_stack, vec![RenderTargetIndex(0)]);

    assert_eq!(w.scene.offscreen_sizes(), vec![DeviceSize { width: 100, height: 50 }]);
    w.scene.bind_textures(&vec![TextureId(9)]);
    assert_eq!(w.scene.target_texture(RenderTargetIndex(1)), Some(TextureId(9)));
    assert_eq!(w.scene.target_texture(RenderTargetIndex(0)), None);
    assert_eq!(w.scene.target_texture(RenderTargetIndex(2)), None);
    w.scene.pop_render_target();
    assert_eq!(w.scene.reset(), vec![TextureId(9)]);
    assert!(w.scene.render_targets.is_empty());
}

#[test]
fn backgrounds_are_painted_unless_transparent() {
    for (alpha, lists) in [(0.5, 1), (0.0, 0), (-1.0, 0)] {
        let mut w = world();
        let document = root(PipelineId(2, 3), alpha, context(vec![], 0, vec![]));
        assert_eq!(w.flatten(StackingContextKind::Root(&document)), Ok(()));
        assert_eq!(w.painted().len(), lists);
        assert_eq!(w.scene.pipeline_epoch_map.get(&PipelineId(2, 3).to_key()), Some(&Epoch(4)));
        if lists == 1 {
            let list = &w.scene.flat_draw_lists[0].draw_list.items[0];
            assert_eq!(list.rect, rect(0.0, 0.0, 100.5, 50.25));
            assert_eq!(
                list.item,
                SpecificDisplayItem::Rectangle(RectangleDisplayItem { color: color(0.5) })
            );
        }
    }
}

#[test]
fn iframes_are_painted_before_outlines() {
    let mut w = world();
    let inner = PipelineId(1, 1);
    w.draw.insert(0, framing(inner, 30.0, 40.0));
    w.draw.insert(1, filled());
    w.draw.insert(2, filled());
    w.display.insert(1, display_list([None, None, None, Some(0), None, Some(1)]));
    w.display.insert(2, display_list([None, None, None, Some(2), None, None]));
    w.contexts.insert(inner.to_key(), root(inner, 0.0, context(vec![2], 0, vec![])));
    let outer = context(vec![1], 0, vec![]);
    assert_eq!(w.flatten(StackingContextKind::Normal(&outer)), Ok(()));
    assert_eq!(w.painted(), vec![Some(0), Some(2), Some(1)]);
    assert_eq!(
        w.scene.transforms[2],
        Transform::MoveTo { frame: TransformIndex(1), point: Point2D { x: s(30.0), y: s(40.0) } }
    );
    assert_eq!(
        w.scene.transforms[3],
        Transform::Translate {
            parent: TransformIndex(2),
            offset: Point2D { x: s(5.0), y: s(6.0) },
        }
    );
}

#[test]
fn iframes_without_a_document_draw_nothing() {
    let mut w = world();
    w.draw.insert(0, framing(PipelineId(1, 1), 0.0, 0.0));
    w.display.insert(1, display_list([None, None, None, Some(0), None, None]));
    assert_eq!(w.flatten(StackingContextKind::Normal(&context(vec![1], 0, vec![]))), Ok(()));
    assert_eq!(w.painted(), vec![Some(0)]);
}

#[test]
fn a_document_inside_itself_runs_out_of_lists() {
    let mut w = world();
    let id = PipelineId(0, 0);
    w.draw.insert(0, framing(id, 0.0, 0.0));
    w.display.insert(1, display_list([None, None, None, Some(0), None, None]));
    w.contexts.insert(id.to_key(), root(id, 0.0, context(vec![1], 0, vec![])));
    let document = root(id, 0.0, context(vec![1], 0, vec![]));
    assert_eq!(
        w.flatten(StackingContextKind::Root(&document)),
        Err(SceneError::MissingDrawList(DrawListID(0)))
    );
}

#[test]
fn missing_lists_are_reported() {
    let mut w = world();
    w.display.insert(1, display_list([Some(77), None, None, None, None, None]));
    assert_eq!(
        w.flatten(StackingContextKind::Normal(&context(vec![1], 0, vec![]))),
        Err(SceneError::MissingDrawList(DrawListID(77)))
    );
    let mut w = world();
    assert_eq!(
        w.flatten(StackingContextKind::Normal(&context(vec![3], 0, vec![]))),
        Err(SceneError::MissingDisplayList(DisplayListID(3)))
    );
}

#[test]
fn targets_are_entered_and_left() {
    let mut scene = Scene::new();
    let size = DeviceSize { width: 1, height: 2 };
    scene.push_render_target(size, None);
    scene.push_render_target(size, Some(TextureId(3)));
    assert_eq!(scene.current_render_target(), RenderTargetIndex(1));
    scene.pop_render_target();
    assert_eq!(scene.current_render_target(), RenderTargetIndex(0));
    assert_eq!(scene.render_targets.len(), 2);
}

#[test]
fn every_list_stands_on_one_target() {
    let mut w = world();
    for id in 1..=4 {
        w.draw.insert(id, filled());
    }
    w.display.insert(1, display_list([Some(1), None, None, None, None, Some(4)]));
    w.display.insert(2, display_list([Some(2), None, None, Some(3), None, None]));
    let mut child = context(vec![2], 0, vec![]);
    child.mix_blend_mode = MixBlendMode::Multiply;
    let outer = context(vec![1], 0, vec![child]);
    assert_eq!(w.flatten(StackingContextKind::Normal(&outer)), Ok(()));
    // The own lists of the context, the composite of the child, the lists of the child, the outline.
    assert_eq!(w.painted(), vec![Some(1), None, Some(2), Some(3), Some(4)]);
    let on: Vec<Vec<u32>> = w
        .scene
        .render_targets
        .iter()
        .map(|target| target.draw_list_indices.iter().map(|index| index.0).collect())
        .collect();
    assert_eq!(on, vec![vec![0, 1, 4], vec![2, 3]]);
    for (t, indices) in on.iter().enumerate() {
        for k in indices {
            let named = w.scene.flat_draw_lists[*k as usize].draw_context.render_target_index;
            assert_eq!(named, RenderTargetIndex(t as u32));
        }
    }
}

#[test]
fn documents_show_their_epochs() {
    let mut w = world();
    let (outer, inner) = (PipelineId(0, 0), PipelineId(0, 1));
    w.draw.insert(1, framing(inner, 0.0, 0.0));
    w.draw.insert(2, filled());
    w.display.insert(1, display_list([None, None, None, Some(1), None, None]));
    w.display.insert(2, display_list([None, None, None, Some(2), None, None]));
    let mut embedded = root(inner, 0.0, context(vec![2], 0, vec![]));
    embedded.epoch = Epoch(9);
    w.contexts.insert(inner.to_key(), embedded);
    w.contexts.insert(outer.to_key(), root(outer, 0.0, context(vec![1], 0, vec![])));
    let document = root(outer, 0.0, context(vec![1], 0, vec![]));
    assert_eq!(w.flatten(StackingContextKind::Root(&document)), Ok(()));
    assert_eq!(w.scene.pipeline_epoch_map.len(), 2);
    assert_eq!(w.scene.pipeline_epoch_map[&outer.to_key()], Epoch(4));
    assert_eq!(w.scene.pipeline_epoch_map[&inner.to_key()], Epoch(9));
}
