//! What can be drawn, walked over and shown.
use crate::display::{ItemView, SpecificView};
use crate::ids::{DisplayItemKey, DrawListIndex, DrawListItemIndex};
use crate::items::{holds, walkable};
use crate::plan::drawable;
use crate::scene::{FlatDrawList, Scene};
use crate::tree::unplaced;
use vstd::prelude::*;

verus! {

/// Every item can be drawn but a text run without glyphs and a gradient without stops.
pub proof fn only_empty_items_cannot_be_drawn(item: ItemView)
    ensures
        !drawable(item) <==> {
            ||| item.item matches SpecificView::Text(info) && info.glyphs.len() == 0
            ||| item.item matches SpecificView::Gradient(info) && info.stops.len() == 0
        },
{
}

/// Every item of a scene is there under its key, and nothing is there under any other; it can be walked from an
/// item to itself, and from the first item of a list to its last.
pub proof fn items_are_there_under_their_keys(flat: Seq<FlatDrawList>, list: u32, item: u32)
    ensures
        ({
            let key = DisplayItemKey { draw_list_index: DrawListIndex(list), item_index: DrawListItemIndex(item) };
            let first = DisplayItemKey { draw_list_index: DrawListIndex(list), item_index: DrawListItemIndex(0) };
            let there = list < flat.len() && item < flat[list as int].draw_list.items@.len();
            &&& holds(flat, key) <==> there
            &&& there && flat[list as int].draw_list.items@.len() <= u32::MAX ==> walkable(flat, key, key) && walkable(
                flat,
                first,
                key,
            )
            &&& !there ==> !walkable(flat, first, key) && !walkable(flat, key, first)
        }),
{
}

/// A scene of which nothing is visible is ready for a frame; one with a visible node that is not compiled, or that
/// draws into a target that is not there, is not.
pub proof fn hidden_scenes_are_ready(scene: Scene)
    ensures
        (forall|i: int| 0 <= i < scene.nodes@.len() ==> !(#[trigger] scene.nodes@[i]).is_visible) ==> scene.ready(),
        (exists|i: int|
            0 <= i < scene.nodes@.len() && (#[trigger] scene.nodes@[i]).is_visible && scene.nodes@[i].compiled_node
                is None) ==> !scene.ready(),
        (exists|i: int, c: int|
            0 <= i < scene.nodes@.len() && scene.nodes@[i].is_visible && scene.nodes@[i].compiled_node is Some && 0 <= c
                < scene.nodes@[i].compiled_node.unwrap().commands@.len() && (
            #[trigger] scene.nodes@[i].compiled_node.unwrap().commands@[c]).render_target.0 >= scene@.targets.len())
            ==> !scene.ready(),
{
}

/// What is ready for a frame can be shown; and a scene is unplaced until an item is held by a node.
pub proof fn ready_scenes_can_be_shown(scene: Scene, l: int, i: int)
    ensures
        scene.ready() ==> scene.showable(),
        0 <= l < scene@.flat.len() && 0 <= i < scene@.flat[l].items.len() && scene@.flat[l].items[i].node_index is Some
            ==> !unplaced(scene@.flat),
        (forall|m: int, k: int|
            0 <= m < scene@.flat.len() && 0 <= k < scene@.flat[m].items.len() ==> (
            #[trigger] scene@.flat[m].items[k]).node_index is None) ==> unplaced(scene@.flat),
{
}

} // verus!
