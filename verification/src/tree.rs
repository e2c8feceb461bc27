//! What a new scene needs from outside before it can be drawn: textures for its targets, and the
//! places of its items in the culling tree.
use crate::backend::RenderBackend;
use crate::display::{DisplayItem, ItemView};
use crate::geometry::DeviceSize;
use crate::ids::{NodeIndex, RenderTargetIndex, TextureId};
use crate::lists::{names, returned};
use crate::node::AABBTreeNode;
use crate::scene::{FlatView, Scene, SceneView, TargetView};
use vstd::prelude::*;

verus! {

/// The sizes of the targets after the first, which is the window.
pub open spec fn offscreen(targets: Seq<TargetView>) -> Seq<DeviceSize> {
    if targets.len() == 0 {
        Seq::empty()
    } else {
        targets.drop_first().map_values(|target: TargetView| target.size)
    }
}

/// The targets after the first get textures.
pub open spec fn bound(targets: Seq<TargetView>, textures: Seq<TextureId>) -> Seq<TargetView> {
    Seq::new(
        targets.len(),
        |t: int|
            if t == 0 {
                targets[t]
            } else {
                TargetView { texture_id: Some(textures[t - 1]), ..targets[t] }
            },
    )
}

/// Whether no item of a scene is held by a node yet.
pub open spec fn unplaced(flat: Seq<FlatView>) -> bool {
    forall|l: int, i: int|
        0 <= l < flat.len() && 0 <= i < flat[l].items.len() ==> (#[trigger] flat[l].items[i]).node_index is None
}

/// A place for each item of a scene.
pub open spec fn one_for_each(flat: Seq<FlatView>, placements: Seq<Vec<Option<NodeIndex>>>) -> bool {
    &&& placements.len() == flat.len()
    &&& forall|l: int|
        0 <= l < flat.len() ==> (#[trigger] placements[l])@.len() == flat[l].items.len()
}

/// An item in its node.
pub open spec fn placed(item: ItemView, node_index: Option<NodeIndex>) -> ItemView {
    ItemView { node_index, ..item }
}

/// The items of a list in their nodes.
pub open spec fn list_placed(list: FlatView, placements: Seq<Option<NodeIndex>>) -> FlatView {
    FlatView {
        items: Seq::new(list.items.len(), |i: int| placed(list.items[i], placements[i])),
        ..list
    }
}

/// The items of a scene in their nodes.
pub open spec fn all_placed(flat: Seq<FlatView>, placements: Seq<Vec<Option<NodeIndex>>>) -> Seq<FlatView> {
    Seq::new(flat.len(), |l: int| list_placed(flat[l], placements[l]@))
}

impl Scene {
    /// The sizes of the targets that need a texture, in target order.
    pub fn offscreen_sizes(&self) -> (sizes: Vec<DeviceSize>)
        ensures
            sizes@ == offscreen(self@.targets),
    {
        let mut sizes: Vec<DeviceSize> = Vec::new();
        let mut t: usize = 1;
        while t < self.render_targets.len()
            invariant
                1 <= t,
                t <= self.render_targets@.len() || t == 1,
                self.render_targets@.len() > 0 ==> sizes@ == offscreen(self@.targets).take(t - 1),
                self.render_targets@.len() == 0 ==> sizes@ == Seq::<DeviceSize>::empty(),
            decreases self.render_targets@.len() - t,
        {
            sizes.push(self.render_targets[t].size);
            t = t + 1;
            assert(sizes@ =~= offscreen(self@.targets).take(t - 1));
        }
        assert(sizes@ =~= offscreen(self@.targets));
        sizes
    }

    /// Gives the targets after the first their textures.
    pub fn bind_textures(&mut self, textures: &Vec<TextureId>)
        requires
            textures@.len() == offscreen(old(self)@.targets).len(),
        ensures
            final(self)@ == (SceneView { targets: bound(old(self)@.targets, textures@), ..old(self)@ }),
            final(self).same_outside_view(*old(self)),
    {
        let ghost targets = self@.targets;
        let mut t: usize = 1;
        while t < self.render_targets.len()
            invariant
                1 <= t,
                t <= self.render_targets@.len() || t == 1,
                targets == old(self)@.targets,
                self.render_targets@.len() == targets.len(),
                textures@.len() == offscreen(targets).len(),
                forall|k: int|
                    0 <= k < targets.len() ==> (#[trigger] self.render_targets@[k])@ == (if 0 < k < t {
                        bound(targets, textures@)[k]
                    } else {
                        targets[k]
                    }),
                self@ == (SceneView { targets: self@.targets, ..old(self)@ }),
                self.same_outside_view(*old(self)),
            decreases self.render_targets@.len() - t,
        {
            self.render_targets[t].texture_id = Some(textures[t - 1]);
            t = t + 1;
        }
        assert(self@.targets =~= bound(targets, textures@));
    }

    /// The texture of a target, if the scene has the target and the target has a texture.
    pub fn target_texture(&self, target: RenderTargetIndex) -> (r: Option<TextureId>)
        ensures
            r == (if target.0 < self@.targets.len() {
                self@.targets[target.0 as int].texture_id
            } else {
                None
            }),
    {
        let place = target.0 as usize;
        if place < self.render_targets.len() {
            assert(self@.targets[place as int] == self.render_targets@[place as int]@);
            self.render_targets[place].texture_id
        } else {
            None
        }
    }

    /// Whether no item of the scene is held by a node yet.
    pub fn is_unplaced(&self) -> (r: bool)
        ensures
            r == unplaced(self@.flat),
    {
        let ghost flat = self@.flat;
        let mut l: usize = 0;
        while l < self.flat_draw_lists.len()
            invariant
                l <= self.flat_draw_lists@.len(),
                flat == self@.flat,
                forall|k: int, i: int|
                    0 <= k < l && 0 <= i < flat[k].items.len() ==> (
                    #[trigger] flat[k].items[i]).node_index is None,
            decreases self.flat_draw_lists@.len() - l,
        {
            let items = &self.flat_draw_lists[l].draw_list.items;
            let mut i: usize = 0;
            while i < items.len()
                invariant
                    i <= items@.len(),
                    l < self.flat_draw_lists@.len(),
                    *items == self.flat_draw_lists@[l as int].draw_list.items,
                    flat == self@.flat,
                    forall|k: int| 0 <= k < i ==> (#[trigger] flat[l as int].items[k]).node_index is None,
                decreases items@.len() - i,
            {
                assert(flat[l as int].items[i as int] == items@[i as int]@);
                if items[i].node_index.is_some() {
                    return false;
                }
                i = i + 1;
            }
            l = l + 1;
        }
        true
    }

    /// Takes over a new culling tree: its nodes, and for each item the node that holds it, if one
    /// does.
    pub fn build_aabb_tree(&mut self, nodes: Vec<AABBTreeNode>, placements: &Vec<Vec<Option<NodeIndex>>>)
        requires
            unplaced(old(self)@.flat),
            one_for_each(old(self)@.flat, placements@),
        ensures
            final(self).nodes == nodes,
            final(self)@ == (SceneView { flat: all_placed(old(self)@.flat, placements@), ..old(self)@ }),
            final(self).scroll_offset == old(self).scroll_offset,
            final(self).pending_updates == old(self).pending_updates,
    {
        let ghost flat = self@.flat;
        self.nodes = nodes;
        let mut l: usize = 0;
        while l < self.flat_draw_lists.len()
            invariant
                l <= self.flat_draw_lists@.len(),
                flat == old(self)@.flat,
                self.flat_draw_lists@.len() == flat.len(),
                one_for_each(flat, placements@),
                forall|k: int|
                    0 <= k < flat.len() ==> (#[trigger] self.flat_draw_lists@[k])@ == (if k < l {
                        list_placed(flat[k], placements@[k]@)
                    } else {
                        flat[k]
                    }),
                self.nodes == nodes,
                self@ == (SceneView { flat: self@.flat, ..old(self)@ }),
                self.scroll_offset == old(self).scroll_offset,
                self.pending_updates == old(self).pending_updates,
            decreases self.flat_draw_lists@.len() - l,
        {
            assert(self.flat_draw_lists@[l as int]@ == flat[l as int]);
            assert(placements@[l as int]@.len() == flat[l as int].items.len());
            place_items(&mut self.flat_draw_lists[l].draw_list.items, &placements[l]);
            assert(self.flat_draw_lists@[l as int]@.items =~= list_placed(
                flat[l as int],
                placements@[l as int]@,
            ).items);
            l = l + 1;
        }
        assert(self@.flat =~= all_placed(flat, placements@));
    }

    /// Takes over which nodes are visible.
    pub fn set_visible(&mut self, visible: &Vec<bool>)
        requires
            visible@.len() == old(self).nodes@.len(),
        ensures
            final(self).nodes@ == Seq::new(
                old(self).nodes@.len(),
                |i: int| AABBTreeNode { is_visible: visible@[i], ..old(self).nodes@[i] },
            ),
            final(self)@ == old(self)@,
            final(self).scroll_offset == old(self).scroll_offset,
            final(self).pending_updates == old(self).pending_updates,
    {
        let ghost nodes = self.nodes@;
        let mut i: usize = 0;
        while i < self.nodes.len()
            invariant
                i <= self.nodes@.len(),
                nodes == old(self).nodes@,
                visible@.len() == nodes.len(),
                self.nodes@.len() == nodes.len(),
                forall|k: int|
                    0 <= k < nodes.len() ==> #[trigger] self.nodes@[k] == (if k < i {
                        AABBTreeNode { is_visible: visible@[k], ..nodes[k] }
                    } else {
                        nodes[k]
                    }),
                self@ == old(self)@,
                self.scroll_offset == old(self).scroll_offset,
                self.pending_updates == old(self).pending_updates,
            decreases self.nodes@.len() - i,
        {
            self.nodes[i].is_visible = visible[i];
            i = i + 1;
        }
        assert(self.nodes@ =~= Seq::new(
            nodes.len(),
            |i: int| AABBTreeNode { is_visible: visible@[i], ..nodes[i] },
        ));
    }
}

fn place_items(items: &mut Vec<DisplayItem>, placements: &Vec<Option<NodeIndex>>)
    requires
        placements@.len() == old(items)@.len(),
    ensures
        final(items)@.len() == old(items)@.len(),
        forall|i: int|
            0 <= i < old(items)@.len() ==> (#[trigger] final(items)@[i])@ == placed(
                old(items)@[i]@,
                placements@[i],
            ),
{
    let mut i: usize = 0;
    while i < items.len()
        invariant
            i <= items@.len(),
            items@.len() == old(items)@.len(),
            placements@.len() == items@.len(),
            forall|k: int|
                0 <= k < items@.len() ==> (#[trigger] items@[k])@ == (if k < i {
                    placed(old(items)@[k]@, placements@[k])
                } else {
                    old(items)@[k]@
                }),
        decreases items@.len() - i,
    {
        items[i].node_index = placements[i];
        i = i + 1;
    }
}

proof fn lemma_owned_alike(lists: Map<u64, Seq<ItemView>>, a: Seq<FlatView>, b: Seq<FlatView>, n: nat)
    requires
        a.len() == b.len(),
        n <= a.len(),
        forall|k: int|
            0 <= k < a.len() ==> (#[trigger] b[k]).id == a[k].id && b[k].items.len() == a[k].items.len(),
    ensures
        returned(lists, a, n).dom() == returned(lists, b, n).dom(),
        forall|id: u64| #[trigger]
            returned(lists, a, n).contains_key(id) ==> returned(lists, b, n)[id].len() == returned(
                lists,
                a,
                n,
            )[id].len(),
    decreases n,
{
    if n > 0 {
        lemma_owned_alike(lists, a, b, (n - 1) as nat);
        assert(b[n - 1].id == a[n - 1].id);
        assert(returned(lists, a, n).dom() =~= returned(lists, b, n).dom());
        let before = returned(lists, a, (n - 1) as nat);
        assert forall|id: u64| #[trigger] returned(lists, a, n).contains_key(id) implies returned(
            lists,
            b,
            n,
        )[id].len() == returned(lists, a, n)[id].len() by {
            if before.contains_key(id) {
            }
        }
    }
}

impl RenderBackend {
    /// Completes a scene that has been built: textures for its targets, and a culling tree that
    /// holds its items.
    pub fn place_scene(
        &mut self,
        textures: &Vec<TextureId>,
        nodes: Vec<AABBTreeNode>,
        placements: &Vec<Vec<Option<NodeIndex>>>,
    )
        requires
            old(self).wf(),
            textures@.len() == offscreen(old(self).scene@.targets).len(),
            unplaced(old(self).scene@.flat),
            one_for_each(old(self).scene@.flat, placements@),
        ensures
            final(self).wf(),
            final(self).scene.nodes == nodes,
            final(self).scene@ == (SceneView {
                targets: bound(old(self).scene@.targets, textures@),
                flat: all_placed(old(self).scene@.flat, placements@),
                ..old(self).scene@
            }),
            final(self).scene.scroll_offset == old(self).scene.scroll_offset,
            final(self).scene.pending_updates == old(self).scene.pending_updates,
            final(self).same_settings(*old(self)),
            final(self).same_resources(*old(self)),
            final(self).display_list_map == old(self).display_list_map,
            final(self).draw_list_map == old(self).draw_list_map,
            final(self).stacking_contexts == old(self).stacking_contexts,
            final(self).next_draw_list_id == old(self).next_draw_list_id,
    {
        self.scene.bind_textures(textures);
        self.scene.build_aabb_tree(nodes, placements);
        proof {
            let a = old(self).scene@.flat;
            let b = self.scene@.flat;
            assert forall|k: int| 0 <= k < a.len() implies (#[trigger] b[k]).id == a[k].id && b[k].items.len()
                == a[k].items.len() by {}
            lemma_owned_alike(self.lists(), a, b, a.len());
            assert forall|id: u64| #[trigger] self.owned_lists().contains_key(id) implies id
                < self.next_draw_list_id && self.owned_lists()[id].len() > 0 by {
                assert(old(self).owned_lists().dom().contains(id));
                assert(old(self).owned_lists().contains_key(id));
            }
            assert forall|key: u64, id: u64|
                #![trigger self.display_list_map@.contains_key(key), names(self.display_list_map@[key], id)]
                self.display_list_map@.contains_key(key) && names(
                    self.display_list_map@[key],
                    id,
                ) implies self.owned_lists().contains_key(id) by {
                assert(old(self).owned_lists().contains_key(id));
                assert(self.owned_lists().dom().contains(id));
            }
        }
    }
}

} // verus!
