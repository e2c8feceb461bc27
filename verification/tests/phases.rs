use fnv::FnvHashMap;
use render_backend::display::{DisplayList, DisplayListMode, MixBlendMode, StackingContext};
use render_backend::geometry::{Point2D, Rect, Size2D};
use render_backend::ids::{DisplayListID, DrawListID, Epoch, PipelineId};
use render_backend::phases::{SceneError, StackingContextDrawLists};
use render_backend::scalar::Scalar;

fn zero_rect() -> Rect {
    let z = Scalar { bits: 0 };
    Rect { origin: Point2D { x: z, y: z }, size: Size2D { width: z, height: z } }
}

fn context(ids: Vec<u64>) -> StackingContext {
    StackingContext {
        display_lists: ids.into_iter().map(DisplayListID).collect(),
        children: Vec::new(),
        bounds: zero_rect(),
        overflow: zero_rect(),
        z_index: 0,
        mix_blend_mode: MixBlendMode::Normal,
    }
}

fn list(mode: DisplayListMode, first: u64) -> DisplayList {
    DisplayList {
        mode,
        pipeline_id: PipelineId(0, 0),
        epoch: Epoch(1),
        background_and_borders_id: Some(DrawListID(first)),
        block_backgrounds_and_borders_id: Some(DrawListID(first + 1)),
        floats_id: None,
        content_id: Some(DrawListID(first + 3)),
        positioned_content_id: Some(DrawListID(first + 4)),
        outlines_id: Some(DrawListID(first + 5)),
    }
}

fn ids(numbers: &[u64]) -> Vec<DrawListID> {
    numbers.iter().map(|n| DrawListID(*n)).collect()
}

#[test]
fn default_lists_keep_their_phases() {
    let mut lists: FnvHashMap<u64, DisplayList> = FnvHashMap::default();
    lists.insert(7, list(DisplayListMode::Default, 10));
    lists.insert(8, list(DisplayListMode::Default, 20));
    let r = context(vec![8, 7]).collect_draw_lists(&lists).unwrap();
    assert_eq!(r.background_and_borders, ids(&[20, 10]));
    assert_eq!(r.block_background_and_borders, ids(&[21, 11]));
    assert_eq!(r.floats, ids(&[]));
    assert_eq!(r.content, ids(&[23, 13]));
    assert_eq!(r.positioned_content, ids(&[24, 14]));
    assert_eq!(r.outlines, ids(&[25, 15]));
}

#[test]
fn pseudo_contexts_use_one_phase() {
    let mut lists: FnvHashMap<u64, DisplayList> = FnvHashMap::default();
    lists.insert(1, list(DisplayListMode::PseudoFloat, 10));
    lists.insert(2, list(DisplayListMode::PseudoPositionedContent, 20));
    let r = context(vec![1, 2]).collect_draw_lists(&lists).unwrap();
    assert_eq!(r.background_and_borders, ids(&[]));
    assert_eq!(r.floats, ids(&[10, 11, 13, 14, 15]));
    assert_eq!(r.positioned_content, ids(&[20, 21, 23, 24, 25]));
    assert_eq!(r.content, ids(&[]));
    assert_eq!(r.outlines, ids(&[]));
}

#[test]
fn the_first_missing_display_list_is_reported() {
    let mut lists: FnvHashMap<u64, DisplayList> = FnvHashMap::default();
    lists.insert(1, list(DisplayListMode::Default, 10));
    let r = context(vec![1, 5, 6]).collect_draw_lists(&lists);
    assert_eq!(r, Err(SceneError::MissingDisplayList(DisplayListID(5))));
}

#[test]
fn empty_slots_add_nothing() {
    let mut list = ids(&[1]);
    StackingContextDrawLists::push_draw_list_id(None, &mut list);
    assert_eq!(list, ids(&[1]));
    StackingContextDrawLists::push_draw_list_id(Some(DrawListID(2)), &mut list);
    assert_eq!(list, ids(&[1, 2]));
}

#[test]
fn only_blended_contexts_need_a_target() {
    let mut c = context(vec![]);
    assert!(!c.needs_render_target());
    for mode in [
        MixBlendMode::Multiply,
        MixBlendMode::Screen,
        MixBlendMode::Overlay,
        MixBlendMode::Darken,
        MixBlendMode::Lighten,
        MixBlendMode::ColorDodge,
        MixBlendMode::ColorBurn,
        MixBlendMode::HardLight,
        MixBlendMode::SoftLight,
        MixBlendMode::Difference,
        MixBlendMode::Exclusion,
        MixBlendMode::Hue,
        MixBlendMode::Saturation,
        MixBlendMode::Color,
        MixBlendMode::Luminosity,
    ] {
        c.mix_blend_mode = mode;
        assert!(c.needs_render_target());
    }
}
