use render_backend::display::{ClipRegion, DisplayItem, DrawList, IframeDisplayItem, SpecificDisplayItem};
use render_backend::geometry::{Point2D, Rect, Size2D};
use render_backend::ids::{DisplayItemKey, DrawListID, NodeIndex, PipelineId, RenderTargetIndex, TransformIndex};
use render_backend::items::{get_item, get_item_and_draw_context, has_item, is_walkable, DisplayItemIterator};
use render_backend::node::AABBTreeNode;
use render_backend::scalar::Scalar;
use render_backend::scene::{DrawContext, FlatDrawList};
use render_backend::steps::NodeStep;

fn rect() -> Rect {
    let z = Scalar { bits: 0 };
    Rect { origin: Point2D { x: z, y: z }, size: Size2D { width: z, height: z } }
}

fn list(number: u32, items: u32) -> FlatDrawList {
    let mut draw_list = DrawList::new();
    for i in 0..items {
        draw_list.push(DisplayItem {
            item: SpecificDisplayItem::Iframe(IframeDisplayItem { iframe: PipelineId(number, i) }),
            rect: rect(),
            clip: ClipRegion { main: rect(), complex: Vec::new() },
            node_index: None,
        });
    }
    assert_eq!(draw_list.item_count(), items as usize);
    FlatDrawList {
        id: Some(DrawListID(number as u64)),
        draw_context: DrawContext {
            render_target_index: RenderTargetIndex(number),
            overflow: rect(),
            device_pixel_ratio: Scalar { bits: 0 },
            final_transform: TransformIndex(0),
        },
        draw_list,
    }
}

fn walk(lists: &Vec<FlatDrawList>, items: Vec<(u32, u32)>) -> Vec<(u32, u32)> {
    let keys: Vec<DisplayItemKey> = items.into_iter().map(|(l, i)| DisplayItemKey::new(l, i)).collect();
    let mut iter = DisplayItemIterator::new(lists, &keys);
    let mut met = Vec::new();
    while let Some(key) = iter.next() {
        met.push((key.draw_list_index.0, key.item_index.0));
    }
    assert_eq!(iter.next(), None);
    met
}

#[test]
fn walks_over_lists() {
    let lists = vec![list(0, 2), list(1, 1), list(2, 3)];
    assert_eq!(walk(&lists, vec![(0, 1), (2, 1)]), vec![(0, 1), (1, 0), (2, 0), (2, 1)]);
    assert_eq!(walk(&lists, vec![(0, 0), (0, 0)]), vec![(0, 0)]);
    assert_eq!(
        walk(&lists, vec![(0, 0), (1, 0), (2, 2)]),
        vec![(0, 0), (0, 1), (1, 0), (2, 0), (2, 1), (2, 2)]
    );
}

#[test]
fn walks_over_nothing() {
    let lists = vec![list(0, 2)];
    assert_eq!(walk(&lists, vec![]), vec![]);
}

#[test]
fn walks_over_one_item() {
    let lists = vec![list(0, 2)];
    assert_eq!(walk(&lists, vec![(0, 1)]), vec![(0, 1)]);
}

#[test]
fn what_can_be_walked() {
    let lists = vec![list(0, 2), list(1, 0), list(2, 3)];
    let k = DisplayItemKey::new;
    assert!(is_walkable(&lists, &k(0, 0), &k(0, 1)));
    assert!(is_walkable(&lists, &k(2, 2), &k(2, 2)));
    assert!(!is_walkable(&lists, &k(0, 1), &k(0, 0)));
    assert!(!is_walkable(&lists, &k(0, 0), &k(0, 2)));
    assert!(!is_walkable(&lists, &k(0, 0), &k(2, 0)));
    assert!(!is_walkable(&lists, &k(0, 0), &k(3, 0)));
    assert!(has_item(&lists, &k(2, 2)));
    assert!(!has_item(&lists, &k(1, 0)));
    assert!(!has_item(&lists, &k(3, 0)));
}

#[test]
fn items_are_found_by_key() {
    let lists = vec![list(0, 2), list(1, 1)];
    let key = DisplayItemKey::new(0, 1);
    let item = get_item(&lists, &key);
    assert_eq!(
        item.item,
        SpecificDisplayItem::Iframe(IframeDisplayItem { iframe: PipelineId(0, 1) })
    );
    let (item, context) = get_item_and_draw_context(&lists, &DisplayItemKey::new(1, 0));
    assert_eq!(
        item.item,
        SpecificDisplayItem::Iframe(IframeDisplayItem { iframe: PipelineId(1, 0) })
    );
    assert_eq!(context.render_target_index, RenderTargetIndex(1));
}

#[test]
fn keys_are_ordered() {
    let k = DisplayItemKey::new;
    assert!(k(0, 5).is_before(&k(1, 0)));
    assert!(k(1, 0).is_before(&k(1, 1)));
    assert!(!k(1, 1).is_before(&k(1, 1)));
    assert!(!k(1, 0).is_before(&k(0, 9)));
}

#[test]
fn pipelines_have_their_own_numbers() {
    assert_eq!(PipelineId(0, 0).to_key(), 0);
    assert_eq!(PipelineId(1, 2).to_key(), 0x1_0000_0002);
    assert_ne!(PipelineId(1, 0).to_key(), PipelineId(0, 1).to_key());
}

fn node(index: u32, items: Vec<(u32, u32)>) -> AABBTreeNode {
    AABBTreeNode {
        node_index: NodeIndex(index),
        is_visible: true,
        src_items: items.into_iter().map(|(l, i)| DisplayItemKey::new(l, i)).collect(),
        resource_list: None,
        compiled_node: None,
    }
}

#[test]
fn own_items_are_drawn_if_they_show() {
    let mut lists = vec![list(0, 2), list(1, 3)];
    lists[0].draw_list.items[0].node_index = Some(NodeIndex(4));
    lists[0].draw_list.items[1].node_index = Some(NodeIndex(4));
    lists[1].draw_list.items[1].node_index = Some(NodeIndex(5));
    lists[1].draw_list.items[2].node_index = Some(NodeIndex(4));
    let node = node(4, vec![(0, 0), (0, 1), (1, 2)]);
    let met = node.walk(&lists);
    assert_eq!(
        met.iter().map(|key| (key.draw_list_index.0, key.item_index.0)).collect::<Vec<(u32, u32)>>(),
        vec![(0, 0), (0, 1), (1, 0), (1, 1), (1, 2)]
    );
    // The second item is clipped away, the third is in no node, and the fourth is elsewhere.
    let steps = node.compile(&lists, &vec![true, false, true, true, true], &vec![false; 5]);
    assert_eq!(
        steps,
        vec![NodeStep::Draw(DisplayItemKey::new(0, 0)), NodeStep::Draw(DisplayItemKey::new(1, 2))]
    );
}

#[test]
fn items_of_other_nodes_close_their_target() {
    let mut lists = vec![list(0, 2), list(1, 3)];
    for list in lists.iter_mut() {
        for item in list.draw_list.items.iter_mut() {
            item.node_index = Some(NodeIndex(4));
        }
    }
    lists[1].draw_list.items[1].node_index = Some(NodeIndex(5));
    let node = node(4, vec![(0, 1), (1, 2)]);
    // What overlaps the own items does not matter.
    let steps = node.compile(&lists, &vec![true; 4], &vec![true; 4]);
    assert_eq!(
        steps,
        vec![
            NodeStep::Draw(DisplayItemKey::new(0, 1)),
            NodeStep::Draw(DisplayItemKey::new(1, 0)),
            NodeStep::Flush(RenderTargetIndex(1)),
            NodeStep::Draw(DisplayItemKey::new(1, 2)),
        ]
    );
}

#[test]
fn a_node_without_items_does_nothing() {
    let lists = vec![list(0, 1)];
    let node = node(0, Vec::new());
    assert!(node.walk(&lists).is_empty());
    assert!(node.compile(&lists, &Vec::new(), &Vec::new()).is_empty());
}
