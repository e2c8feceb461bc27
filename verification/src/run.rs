//! What the backend does with the messages of documents.
use crate::backend::{id_given, list_kept, ApiMsg, FontTemplate, ListTable, RenderBackend};
use crate::display::{DisplayList, DisplayListBuilder, ItemView, RootStackingContext, StackingContext};
use crate::epoch_laws::{contexts_ok, epochs_are_those_of_the_documents};
use crate::flatten::{flattened, list_views, progress, sources, Flattening, StackingContextKind};
use crate::flatten_laws::{
    ascending, empty_targets_stand, extends, lemma_flattened, lists_stand_on_one_target, stands_once, MOST_LISTS,
};
use crate::batch::BatchUpdateList;
use crate::frame::Frame;
use crate::geometry::{ColorF, DeviceSize, Point2D, Viewport};
use crate::length::Place;
use crate::visible::{all_handed_over, frame_updates};
use crate::ids::{DisplayListID, DrawListID, Epoch, PipelineId, TextureId, TransformIndex};
use crate::lists::{
    flattening_can_be_undone, named_ids, names, owned, references_ok, returned, stale_ids, stale_keys,
};
use crate::phases::{slot, slots, SceneError, StackingContextDrawLists};
use crate::scene::{
    all_destroyed, clamped, scrolled, target_textures, FlatDrawList, Scene, SceneView, Transform,
};
use crate::tables;
use crate::uploads::ImageResource;
use vstd::prelude::*;

verus! {

/// The draw lists of a display list that a document sends, in phase order.
pub open spec fn builder_lists(builder: DisplayListBuilder) -> Seq<Seq<ItemView>> {
    seq![
        builder.background_and_borders@,
        builder.block_backgrounds_and_borders@,
        builder.floats@,
        builder.content@,
        builder.positioned_content@,
        builder.outlines@,
    ]
}

/// The first `n` of some draw lists are kept.
pub open spec fn lists_kept(table: ListTable, lists: Seq<Seq<ItemView>>, n: nat) -> ListTable
    decreases n,
{
    if n == 0 {
        table
    } else {
        list_kept(lists_kept(table, lists, (n - 1) as nat), lists[n - 1])
    }
}

/// The identifier that one of some draw lists gets.
pub open spec fn kept_id(table: ListTable, lists: Seq<Seq<ItemView>>, i: nat) -> Option<DrawListID> {
    id_given(lists_kept(table, lists, i), lists[i as int])
}

/// The display list that the backend makes of one that a document sends.
pub open spec fn display_list_kept(
    table: ListTable,
    builder: DisplayListBuilder,
    pipeline_id: PipelineId,
    epoch: Epoch,
) -> DisplayList {
    let lists = builder_lists(builder);
    DisplayList {
        mode: builder.mode,
        pipeline_id,
        epoch,
        background_and_borders_id: kept_id(table, lists, 0),
        block_backgrounds_and_borders_id: kept_id(table, lists, 1),
        floats_id: kept_id(table, lists, 2),
        content_id: kept_id(table, lists, 3),
        positioned_content_id: kept_id(table, lists, 4),
        outlines_id: kept_id(table, lists, 5),
    }
}

/// Identifiers that are all different and lie in a range.
spec fn given_out(ids: Seq<DrawListID>, from: u64, to: u64) -> bool {
    &&& ids.no_duplicates()
    &&& forall|i: int| 0 <= i < ids.len() ==> from <= (#[trigger] ids[i]).0 < to
}

proof fn lemma_given_out(ids: Seq<DrawListID>, from: u64, to: u64, id: Option<DrawListID>, next: u64)
    requires
        given_out(ids, from, to),
        from <= to,
        id is None ==> next == to,
        id is Some ==> id == Some(DrawListID(to)) && next == to + 1,
    ensures
        given_out(ids + slot(id), from, next),
{
    let all = ids + slot(id);
    assert forall|i: int, j: int| 0 <= i < all.len() && 0 <= j < all.len() && i != j implies all[i] != all[j] by {
        if i < ids.len() {
            assert(ids[i].0 < to);
        }
        if j < ids.len() {
            assert(ids[j].0 < to);
        }
    }
}

/// Why a message cannot be dealt with.
#[derive(Clone, Copy, Debug, PartialEq, Eq, Structural)]
pub enum BackendError {
    /// There is no identifier left for a draw list.
    OutOfIdentifiers,
    /// The scene cannot be flattened.
    Scene(SceneError),
}

/// What became of the scene.
#[derive(Debug, PartialEq)]
pub enum SceneBuild {
    /// There is no root document, so there is no scene to build.
    Unbuilt,
    /// The scene has been built anew; these textures of the old one can be freed.
    Built(Vec<TextureId>),
}

/// What is to be done after a message.
#[derive(Debug)]
pub enum Turn {
    /// Nothing.
    Wait,
    /// The scene may have changed: place its items, then draw a frame.
    Draw(SceneBuild),
    /// Move the scroll offset to this place, then draw a frame.
    Scroll(Place),
}

/// What a turn says about the scene, if it is about the scene.
pub open spec fn build_result(r: Result<Turn, BackendError>) -> Option<Result<SceneBuild, SceneError>> {
    match r {
        Ok(Turn::Draw(build)) => Some(Ok(build)),
        Err(BackendError::Scene(error)) => Some(Err(error)),
        _ => None,
    }
}

/// The scene as flattening finds it: empty, with the window as its only target.
pub open spec fn scene_begun(scene: SceneView, viewport: Viewport) -> SceneView {
    SceneView {
        epochs: Map::empty(),
        targets: Seq::empty(),
        transforms: Seq::empty(),
        ..scene
    }.target_pushed(
        DeviceSize { width: viewport.width as u32, height: viewport.height as u32 },
        None,
    ).transform_pushed(Transform::Identity)
}

impl RenderBackend {
    /// The root document: the one of the pipeline zero.
    pub open spec fn root(self) -> Option<RootStackingContext> {
        if self.stacking_contexts@.contains_key(PipelineId(0, 0).key()) {
            Some(self.stacking_contexts@[PipelineId(0, 0).key()])
        } else {
            None
        }
    }

    /// The root document, flattened into an emptied scene.
    pub open spec fn scene_built(
        self,
        root: RootStackingContext,
        lists: Map<u64, Seq<ItemView>>,
        scene: SceneView,
    ) -> Flattening {
        flattened(
            lists.dom().len(),
            sources(self.display_list_map@, self.stacking_contexts@, self.device_pixel_ratio),
            root.stacking_context,
            Some(root),
            TransformIndex(0),
            Flattening { scene: scene_begun(scene, self.viewport), lists, error: None },
        )
    }

    /// How the scene is built from the draw lists in the table: the root document is flattened,
    /// the batches of the old scene are destroyed and the textures of its targets freed.
    /// Without a root document nothing happens.
    pub open spec fn build_outcome(
        self,
        lists: Map<u64, Seq<ItemView>>,
        scene: SceneView,
        old_scene: Scene,
        r: Result<SceneBuild, SceneError>,
    ) -> bool {
        &&& self.scene.nodes == old_scene.nodes
        &&& self.scene.scroll_offset == old_scene.scroll_offset
        &&& match self.root() {
            None => {
                &&& r matches Ok(SceneBuild::Unbuilt)
                &&& self.lists() == lists
                &&& self.scene@ == scene
                &&& self.scene.pending_updates == old_scene.pending_updates
            },
            Some(root) => {
                let f = self.scene_built(root, lists, scene);
                &&& self.lists() == f.lists
                &&& self.scene.pending_updates@ == old_scene.pending_updates@ + all_destroyed(
                    old_scene.nodes@,
                    old_scene.nodes@.len(),
                )
                &&& match f.error {
                    None => {
                        &&& r matches Ok(SceneBuild::Built(freed)) && freed@ == target_textures(
                            scene.targets,
                            scene.targets.len(),
                        )
                        &&& self.scene@ == (SceneView { stack: f.scene.stack.drop_last(), ..f.scene })
                    },
                    Some(error) => {
                        &&& r == Err::<SceneBuild, SceneError>(error)
                        &&& self.scene@ == f.scene
                    },
                }
            },
        }
    }

    /// Keeps a display list and its draw lists.  Whether there are identifiers left for them is
    /// for the caller to know.
    pub fn add_display_list(
        &mut self,
        id: DisplayListID,
        pipeline_id: PipelineId,
        epoch: Epoch,
        builder: DisplayListBuilder,
    )
        requires
            old(self).wf(),
            old(self).next_draw_list_id <= u64::MAX - 6,
        ensures
            final(self).wf(),
            ({
                let table = lists_kept(old(self).list_table(), builder_lists(builder), 6);
                final(self).lists() == table.lists && final(self).next_draw_list_id == table.next
            }),
            final(self).display_list_map@ == old(self).display_list_map@.insert(
                id.0,
                display_list_kept(old(self).list_table(), builder, pipeline_id, epoch),
            ),
            final(self).same_settings(*old(self)),
            final(self).same_resources(*old(self)),
            final(self).stacking_contexts == old(self).stacking_contexts,
            final(self).scene == old(self).scene,
    {
        let ghost lists = builder_lists(builder);
        let ghost table = self.list_table();
        let ghost first = self.next_draw_list_id;
        let ghost none = Seq::<DrawListID>::empty();
        proof {
            reveal_with_fuel(lists_kept, 7);
        }
        let background_and_borders_id = self.add_draw_list(builder.background_and_borders);
        let ghost ids1 = none + slot(background_and_borders_id);
        proof {
            lemma_given_out(none, first, first, background_and_borders_id, self.next_draw_list_id);
        }
        let ghost next1 = self.next_draw_list_id;
        let block_backgrounds_and_borders_id = self.add_draw_list(builder.block_backgrounds_and_borders);
        let ghost ids2 = ids1 + slot(block_backgrounds_and_borders_id);
        proof {
            lemma_given_out(ids1, first, next1, block_backgrounds_and_borders_id, self.next_draw_list_id);
        }
        let ghost next2 = self.next_draw_list_id;
        let floats_id = self.add_draw_list(builder.floats);
        let ghost ids3 = ids2 + slot(floats_id);
        proof {
            lemma_given_out(ids2, first, next2, floats_id, self.next_draw_list_id);
        }
        let ghost next3 = self.next_draw_list_id;
        let content_id = self.add_draw_list(builder.content);
        let ghost ids4 = ids3 + slot(content_id);
        proof {
            lemma_given_out(ids3, first, next3, content_id, self.next_draw_list_id);
        }
        let ghost next4 = self.next_draw_list_id;
        let positioned_content_id = self.add_draw_list(builder.positioned_content);
        let ghost ids5 = ids4 + slot(positioned_content_id);
        proof {
            lemma_given_out(ids4, first, next4, positioned_content_id, self.next_draw_list_id);
        }
        let ghost next5 = self.next_draw_list_id;
        let outlines_id = self.add_draw_list(builder.outlines);
        let ghost ids6 = ids5 + slot(outlines_id);
        proof {
            lemma_given_out(ids5, first, next5, outlines_id, self.next_draw_list_id);
        }
        let display_list = DisplayList {
            mode: builder.mode,
            pipeline_id,
            epoch,
            background_and_borders_id,
            block_backgrounds_and_borders_id,
            floats_id,
            content_id,
            positioned_content_id,
            outlines_id,
        };
        assert(slots(display_list) =~= ids6);
        assert(display_list == display_list_kept(table, builder, pipeline_id, epoch));
        let ghost before = *self;
        tables::insert(&mut self.display_list_map, id.0, display_list);
        proof {
            let base = old(self).display_list_map@;
            let all = self.display_list_map@;
            let lists = self.owned_lists();
            assert forall|other: u64| names(display_list, other) implies lists.contains_key(other)
                && first <= other by {
                let i = slots(display_list).index_of(DrawListID(other));
                assert(ids6[i].0 >= first);
            }
            assert forall|a: u64, b: u64, other: u64|
                #![trigger names(all[a], other), names(all[b], other)]
                all.contains_key(a) && all.contains_key(b) && names(all[a], other) && names(all[b], other) implies a
                == b by {
                if a != id.0 {
                    assert(base.contains_key(a) && names(base[a], other));
                    assert(old(self).owned_lists().contains_key(other));
                }
                if b != id.0 {
                    assert(base.contains_key(b) && names(base[b], other));
                    assert(old(self).owned_lists().contains_key(other));
                }
            }
        }
    }

    /// Puts the draw lists of the scene back into the table.
    pub fn return_draw_lists(&mut self)
        ensures
            final(self).lists() == owned(old(self).lists(), old(self).scene@.flat),
            final(self).scene@ == (SceneView { flat: Seq::empty(), ..old(self).scene@ }),
            final(self).scene.same_outside_view(old(self).scene),
            final(self).same_settings(*old(self)),
            final(self).same_resources(*old(self)),
            final(self).display_list_map == old(self).display_list_map,
            final(self).stacking_contexts == old(self).stacking_contexts,
            final(self).next_draw_list_id == old(self).next_draw_list_id,
    {
        let ghost flat = self.scene@.flat;
        let ghost lists = self.lists();
        let mut flat_draw_lists: Vec<FlatDrawList> = Vec::new();
        std::mem::swap(&mut flat_draw_lists, &mut self.scene.flat_draw_lists);
        assert(self.scene@ =~= (SceneView { flat: Seq::empty(), ..old(self).scene@ }));
        for flat_draw_list in iter: flat_draw_lists
            invariant
                iter.seq() == old(self).scene.flat_draw_lists@,
                flat == old(self).scene@.flat,
                lists == old(self).lists(),
                self.lists() == returned(lists, flat, iter.index() as nat),
                self.scene@ == (SceneView { flat: Seq::empty(), ..old(self).scene@ }),
                self.scene.same_outside_view(old(self).scene),
                self.same_settings(*old(self)),
                self.same_resources(*old(self)),
                self.display_list_map == old(self).display_list_map,
                self.stacking_contexts == old(self).stacking_contexts,
                self.next_draw_list_id == old(self).next_draw_list_id,
        {
            let ghost before = self.lists();
            assert(flat[iter.index()] == flat_draw_list@);
            if let Some(id) = flat_draw_list.id {
                tables::insert(&mut self.draw_list_map, id.0, flat_draw_list.draw_list);
                assert(self.lists() =~= before.insert(id.0, flat_draw_list@.items));
            }
        }
    }

    /// Drops draw lists from the table.
    fn remove_draw_lists(&mut self, ids: &Vec<DrawListID>)
        requires
            ids@.no_duplicates(),
            forall|i: int|
                0 <= i < ids@.len() ==> old(self).draw_list_map@.contains_key((#[trigger] ids@[i]).0),
        ensures
            final(self).draw_list_map@ == old(self).draw_list_map@.remove_keys(
                Set::new(|id: u64| ids@.contains(DrawListID(id))),
            ),
            final(self).next_draw_list_id == old(self).next_draw_list_id,
            final(self).same_but_lists(*old(self)),
    {
        let ghost base = self.draw_list_map@;
        assert(base =~= base.remove_keys(Set::new(|id: u64| ids@.take(0).contains(DrawListID(id)))));
        let mut i: usize = 0;
        while i < ids.len()
            invariant
                i <= ids@.len(),
                ids@.no_duplicates(),
                base == old(self).draw_list_map@,
                forall|k: int| 0 <= k < ids@.len() ==> base.contains_key((#[trigger] ids@[k]).0),
                self.draw_list_map@ == base.remove_keys(
                    Set::new(|id: u64| ids@.take(i as int).contains(DrawListID(id))),
                ),
                self.next_draw_list_id == old(self).next_draw_list_id,
                self.same_but_lists(*old(self)),
            decreases ids@.len() - i,
        {
            let id = ids[i];
            assert(!ids@.take(i as int).contains(id));
            assert(self.draw_list_map@.contains_key(id.0));
            self.remove_draw_list(Some(id));
            proof {
                let before = Set::new(|id: u64| ids@.take(i as int).contains(DrawListID(id)));
                let after = Set::new(|id: u64| ids@.take(i + 1).contains(DrawListID(id)));
                assert(ids@.take(i + 1) =~= ids@.take(i as int).push(id));
                assert forall|other: u64| #[trigger] after.contains(other) <==> before.contains(other)
                    || other == id.0 by {
                    if ids@.take(i as int).contains(DrawListID(other)) {
                        let k = ids@.take(i as int).index_of(DrawListID(other));
                        assert(ids@.take(i + 1)[k] == DrawListID(other));
                    }
                    if other == id.0 {
                        assert(ids@.take(i + 1)[i as int] == DrawListID(other));
                    }
                }
                assert(self.draw_list_map@ =~= base.remove_keys(after));
            }
            i = i + 1;
        }
        assert(ids@.take(i as int) =~= ids@);
    }

    /// Drops the display lists of the older generations of a pipeline, with their draw lists.
    pub fn remove_stale_lists(&mut self, pipeline_id: PipelineId, epoch: Epoch)
        requires
            references_ok(old(self).display_list_map@, old(self).lists()),
        ensures
            final(self).display_list_map@ == old(self).display_list_map@.remove_keys(
                stale_keys(old(self).display_list_map@, pipeline_id, epoch),
            ),
            final(self).lists() == old(self).lists().remove_keys(
                stale_ids(old(self).display_list_map@, pipeline_id, epoch),
            ),
            final(self).next_draw_list_id == old(self).next_draw_list_id,
            final(self).same_settings(*old(self)),
            final(self).same_resources(*old(self)),
            final(self).stacking_contexts == old(self).stacking_contexts,
            final(self).scene == old(self).scene,
    {
        let ghost base = self.display_list_map@;
        let ghost lists = self.draw_list_map@;
        let ghost stale_all = stale_keys(base, pipeline_id, epoch);
        let keys = tables::keys(&self.display_list_map);
        let ghost mut dropped = Set::<u64>::empty();
        assert(base =~= base.remove_keys(dropped));
        assert(lists =~= lists.remove_keys(named_ids(base, dropped)));
        let mut i: usize = 0;
        while i < keys.len()
            invariant
                i <= keys@.len(),
                keys@.no_duplicates(),
                forall|key: u64| keys@.contains(key) <==> base.contains_key(key),
                base == old(self).display_list_map@,
                lists == old(self).draw_list_map@,
                stale_all == stale_keys(base, pipeline_id, epoch),
                references_ok(base, list_views(lists)),
                forall|key: u64| #[trigger]
                    dropped.contains(key) <==> stale_all.contains(key) && keys@.take(i as int).contains(key),
                self.display_list_map@ == base.remove_keys(dropped),
                self.draw_list_map@ == lists.remove_keys(named_ids(base, dropped)),
                self.next_draw_list_id == old(self).next_draw_list_id,
                self.same_settings(*old(self)),
                self.same_resources(*old(self)),
                self.stacking_contexts == old(self).stacking_contexts,
                self.scene == old(self).scene,
            decreases keys@.len() - i,
        {
            let key = keys[i];
            assert(keys@.contains(key));
            assert(!keys@.take(i as int).contains(key));
            assert(!dropped.contains(key));
            let ghost before = dropped;
            let stale_list = match tables::get(&self.display_list_map, &key) {
                Some(display_list) => {
                    if display_list.pipeline_id == pipeline_id && display_list.epoch.0 < epoch.0 {
                        Some(*display_list)
                    } else {
                        None
                    }
                },
                None => None,
            };
            if let Some(display_list) = stale_list {
                tables::remove(&mut self.display_list_map, &key);
                let mut ids: Vec<DrawListID> = Vec::new();
                StackingContextDrawLists::push_all(&display_list, &mut ids);
                assert(ids@ =~= slots(base[key]));
                assert forall|k: int| 0 <= k < ids@.len() implies self.draw_list_map@.contains_key(
                    (#[trigger] ids@[k]).0,
                ) by {
                    let id = ids@[k].0;
                    assert(names(base[key], id)) by {
                        assert(slots(base[key])[k] == DrawListID(id));
                    }
                    assert(list_views(lists).contains_key(id));
                    if named_ids(base, before).contains(id) {
                        let other = choose|other: u64| #[trigger]
                            before.contains(other) && names(base[other], id);
                        assert(base.contains_key(other));
                        assert(other == key);
                    }
                }
                self.remove_draw_lists(&ids);
                proof {
                    dropped = dropped.insert(key);
                    let gone = Set::new(|id: u64| ids@.contains(DrawListID(id)));
                    assert forall|id: u64| #[trigger] named_ids(base, dropped).contains(id) <==> named_ids(
                        base,
                        before,
                    ).contains(id) || gone.contains(id) by {
                        if named_ids(base, dropped).contains(id) {
                            let other = choose|other: u64| #[trigger]
                                dropped.contains(other) && names(base[other], id);
                            if other != key {
                                assert(before.contains(other) && names(base[other], id));
                            }
                        }
                        if named_ids(base, before).contains(id) {
                            let other = choose|other: u64| #[trigger]
                                before.contains(other) && names(base[other], id);
                            assert(dropped.contains(other) && names(base[other], id));
                        }
                        if gone.contains(id) {
                            assert(dropped.contains(key) && names(base[key], id));
                        }
                    }
                    assert(self.draw_list_map@ =~= lists.remove_keys(named_ids(base, dropped)));
                    assert(self.display_list_map@ =~= base.remove_keys(dropped));
                }
            }
            proof {
                assert(keys@.take(i + 1) =~= keys@.take(i as int).push(key));
                assert forall|other: u64| #[trigger] dropped.contains(other) <==> stale_all.contains(other)
                    && keys@.take(i + 1).contains(other) by {
                    if keys@.take(i as int).contains(other) {
                        let k = keys@.take(i as int).index_of(other);
                        assert(keys@.take(i + 1)[k] == other);
                    }
                    if other == key {
                        assert(keys@.take(i + 1)[i as int] == other);
                    }
                }
            }
            i = i + 1;
        }
        proof {
            assert(keys@.take(i as int) =~= keys@);
            assert(dropped =~= stale_all);
            assert(self.lists() =~= old(self).lists().remove_keys(stale_ids(base, pipeline_id, epoch)));
        }
    }

    /// Builds the scene from the root document, if there is one.
    pub fn build_scene(&mut self) -> (r: Result<SceneBuild, SceneError>)
        requires
            old(self).scene@.stack.len() == 0,
        ensures
            final(self).build_outcome(old(self).lists(), old(self).scene@, old(self).scene, r),
            final(self).same_settings(*old(self)),
            final(self).same_resources(*old(self)),
            final(self).display_list_map == old(self).display_list_map,
            final(self).stacking_contexts == old(self).stacking_contexts,
            final(self).next_draw_list_id == old(self).next_draw_list_id,
            old(self).wf() && old(self).scene@.flat.len() == 0 && r is Ok ==> final(self).wf()
                && final(self).owned_lists() == old(self).owned_lists(),
    {
        let ghost lists = self.lists();
        let ghost scene = self.scene@;
        let root_pipeline_id = PipelineId(0, 0);
        match tables::get(&self.stacking_contexts, &root_pipeline_id.to_key()) {
            None => Ok(SceneBuild::Unbuilt),
            Some(root) => {
                let freed = self.scene.reset();
                self.scene.transforms.clear();
                let size = DeviceSize {
                    width: self.viewport.width as u32,
                    height: self.viewport.height as u32,
                };
                assert(self.scene@ =~= (SceneView {
                    epochs: Map::empty(),
                    targets: Seq::empty(),
                    transforms: Seq::empty(),
                    ..scene
                }));
                self.scene.push_render_target(size, None);
                let transform = self.scene.push_transform(Transform::Identity);
                assert(self.scene@ == scene_begun(scene, self.viewport));
                assert(transform == TransformIndex(0));
                let ghost f0 = progress(self.scene, self.draw_list_map@, Ok(()));
                assert(lists.dom() =~= self.draw_list_map@.dom());
                let r = self.scene.flatten_stacking_context(
                    StackingContextKind::Root(root),
                    transform,
                    &self.display_list_map,
                    &mut self.draw_list_map,
                    &self.stacking_contexts,
                    self.device_pixel_ratio,
                );
                let ghost f = progress(self.scene, self.draw_list_map@, r);
                proof {
                    assert(f == old(self).scene_built(*root, lists, scene));
                    lemma_flattened(
                        lists.dom().len(),
                        sources(self.display_list_map@, self.stacking_contexts@, self.device_pixel_ratio),
                        root.stacking_context,
                        Some(*root),
                        transform,
                        f0,
                    );
                }
                match r {
                    Err(error) => Err(error),
                    Ok(()) => {
                        self.scene.pop_render_target();
                        proof {
                            if old(self).wf() && scene.flat.len() == 0 {
                                reveal(extends);
                                flattening_can_be_undone(f0, f);
                            }
                        }
                        Ok(SceneBuild::Built(freed))
                    },
                }
            },
        }
    }

    /// Makes a stacking context the root of its pipeline.  The scene gives its draw lists back,
    /// older generations of the pipeline are dropped, and the scene is built anew.
    pub fn set_root_stacking_context(
        &mut self,
        stacking_context: StackingContext,
        background_color: ColorF,
        epoch: Epoch,
        pipeline_id: PipelineId,
    ) -> (r: Result<SceneBuild, SceneError>)
        requires
            old(self).wf(),
        ensures
            ({
                let display_lists = old(self).display_list_map@;
                let lists = old(self).owned_lists().remove_keys(
                    stale_ids(display_lists, pipeline_id, epoch),
                );
                &&& final(self).display_list_map@ == display_lists.remove_keys(
                    stale_keys(display_lists, pipeline_id, epoch),
                )
                &&& final(self).stacking_contexts@ == old(self).stacking_contexts@.insert(
                    pipeline_id.key(),
                    RootStackingContext { pipeline_id, epoch, background_color, stacking_context },
                )
                &&& final(self).build_outcome(
                    lists,
                    SceneView { flat: Seq::empty(), ..old(self).scene@ },
                    old(self).scene,
                    r,
                )
                &&& r is Ok ==> final(self).wf() && final(self).owned_lists() == lists
            }),
            final(self).same_settings(*old(self)),
            final(self).same_resources(*old(self)),
            final(self).next_draw_list_id == old(self).next_draw_list_id,
    {
        let ghost all = self.owned_lists();
        let ghost display_lists = self.display_list_map@;
        let ghost gone = stale_ids(display_lists, pipeline_id, epoch);
        self.return_draw_lists();
        self.remove_stale_lists(pipeline_id, epoch);
        let key = pipeline_id.to_key();
        tables::insert(
            &mut self.stacking_contexts,
            key,
            RootStackingContext { pipeline_id, epoch, background_color, stacking_context },
        );
        proof {
            assert(self.owned_lists() == self.lists());
            assert forall|other: u64, id: u64|
                #![trigger self.display_list_map@.contains_key(other), names(self.display_list_map@[other], id)]
                self.display_list_map@.contains_key(other) && names(
                    self.display_list_map@[other],
                    id,
                ) implies self.owned_lists().contains_key(id) by {
                assert(display_lists.contains_key(other) && names(display_lists[other], id));
                if gone.contains(id) {
                    let first = choose|first: u64| #[trigger]
                        stale_keys(display_lists, pipeline_id, epoch).contains(first) && names(
                            display_lists[first],
                            id,
                        );
                    assert(first == other);
                }
            }
            assert(self.wf());
        }
        self.build_scene()
    }

    /// Takes one message.
    pub fn run(&mut self, msg: ApiMsg) -> (r: Result<Turn, BackendError>)
        requires
            old(self).wf(),
        ensures
            r is Ok ==> final(self).wf(),
            final(self).same_settings(*old(self)),
            match msg {
                ApiMsg::AddFont(id, bytes) => {
                    &&& r matches Ok(Turn::Wait)
                    &&& final(self).font_templates@ == old(self).font_templates@.insert(
                        id.0 as u64,
                        FontTemplate { bytes },
                    )
                    &&& final(self).image_templates == old(self).image_templates
                    &&& final(self).same_but_resources(*old(self))
                },
                ApiMsg::AddImage(id, width, height, format, bytes) => {
                    &&& r matches Ok(Turn::Wait)
                    &&& final(self).image_templates@ == old(self).image_templates@.insert(
                        id.0,
                        ImageResource { bytes, width, height, format },
                    )
                    &&& final(self).font_templates == old(self).font_templates
                    &&& final(self).same_but_resources(*old(self))
                },
                ApiMsg::AddDisplayList(id, pipeline_id, epoch, builder) => {
                    &&& final(self).same_resources(*old(self))
                    &&& if old(self).next_draw_list_id > u64::MAX - 6 {
                        r == Err::<Turn, BackendError>(BackendError::OutOfIdentifiers) && *final(self) == *old(
                            self,
                        )
                    } else {
                        let table = lists_kept(old(self).list_table(), builder_lists(builder), 6);
                        &&& r matches Ok(Turn::Wait)
                        &&& final(self).lists() == table.lists
                        &&& final(self).next_draw_list_id == table.next
                        &&& final(self).display_list_map@ == old(self).display_list_map@.insert(
                            id.0,
                            display_list_kept(old(self).list_table(), builder, pipeline_id, epoch),
                        )
                        &&& final(self).stacking_contexts == old(self).stacking_contexts
                        &&& final(self).scene == old(self).scene
                    }
                },
                ApiMsg::SetRootStackingContext(stacking_context, background_color, epoch, pipeline_id) => {
                    let display_lists = old(self).display_list_map@;
                    let lists = old(self).owned_lists().remove_keys(
                        stale_ids(display_lists, pipeline_id, epoch),
                    );
                    &&& final(self).same_resources(*old(self))
                    &&& final(self).next_draw_list_id == old(self).next_draw_list_id
                    &&& final(self).display_list_map@ == display_lists.remove_keys(
                        stale_keys(display_lists, pipeline_id, epoch),
                    )
                    &&& final(self).stacking_contexts@ == old(self).stacking_contexts@.insert(
                        pipeline_id.key(),
                        RootStackingContext { pipeline_id, epoch, background_color, stacking_context },
                    )
                    &&& build_result(r) matches Some(built) && final(self).build_outcome(
                        lists,
                        SceneView { flat: Seq::empty(), ..old(self).scene@ },
                        old(self).scene,
                        built,
                    )
                    &&& r is Ok ==> final(self).owned_lists() == lists
                },
                ApiMsg::Scroll(delta) => {
                    &&& r matches Ok(Turn::Scroll(place)) && place == scrolled(
                        old(self).scene.scroll_offset,
                        delta,
                    )
                    &&& *final(self) == *old(self)
                },
            },
    {
        match msg {
            ApiMsg::AddFont(id, bytes) => {
                tables::insert(&mut self.font_templates, id.0 as u64, FontTemplate { bytes });
                Ok(Turn::Wait)
            },
            ApiMsg::AddImage(id, width, height, format, bytes) => {
                let image = ImageResource { bytes, width, height, format };
                tables::insert(&mut self.image_templates, id.0, image);
                Ok(Turn::Wait)
            },
            ApiMsg::AddDisplayList(id, pipeline_id, epoch, builder) => {
                if self.next_draw_list_id > u64::MAX - 6 {
                    return Err(BackendError::OutOfIdentifiers);
                }
                self.add_display_list(id, pipeline_id, epoch, builder);
                Ok(Turn::Wait)
            },
            ApiMsg::SetRootStackingContext(stacking_context, background_color, epoch, pipeline_id) => {
                match self.set_root_stacking_context(
                    stacking_context,
                    background_color,
                    epoch,
                    pipeline_id,
                ) {
                    Ok(build) => Ok(Turn::Draw(build)),
                    Err(error) => Err(BackendError::Scene(error)),
                }
            },
            ApiMsg::Scroll(delta) => Ok(Turn::Scroll(self.scene.scrolled_by(&delta))),
        }
    }

    /// Whether nothing but the fonts and the images differs from `other`.
    pub open spec fn same_but_resources(self, other: RenderBackend) -> bool {
        &&& self.glyph_to_image_map == other.glyph_to_image_map
        &&& self.raster_to_image_map == other.raster_to_image_map
        &&& self.display_list_map == other.display_list_map
        &&& self.draw_list_map == other.draw_list_map
        &&& self.stacking_contexts == other.stacking_contexts
        &&& self.next_draw_list_id == other.next_draw_list_id
        &&& self.scene == other.scene
    }

    /// Moves the scroll offset, but never past the start of the content.
    pub fn scroll(&mut self, moved: Point2D)
        ensures
            final(self).scene.scroll_offset == clamped(moved),
            final(self).scene@ == old(self).scene@,
            final(self).scene.nodes == old(self).scene.nodes,
            final(self).scene.pending_updates == old(self).scene.pending_updates,
            final(self).same_settings(*old(self)),
            final(self).same_resources(*old(self)),
            final(self).display_list_map == old(self).display_list_map,
            final(self).draw_list_map == old(self).draw_list_map,
            final(self).stacking_contexts == old(self).stacking_contexts,
            final(self).next_draw_list_id == old(self).next_draw_list_id,
            old(self).wf() ==> final(self).wf(),
    {
        self.scene.scroll(moved);
    }

    /// Draws a frame: what the renderer is sent, in order.  `texture_updates` says whether there
    /// are changes to the texture cache that the renderer has not been told about.
    pub fn render(&mut self, texture_updates: bool) -> (messages: Vec<ResultMsg>)
        requires
            old(self).scene.ready(),
        ensures
            ({
                let updates = old(self).scene.pending_updates@ + frame_updates(
                    old(self).scene.nodes@,
                    final(self).scene.nodes@,
                    old(self).scene@.flat,
                );
                let first: int = if texture_updates { 1 } else { 0 };
                let second: int = if updates.len() > 0 { first + 1 } else { first };
                &&& messages@.len() == second + 1
                &&& texture_updates ==> messages@[0] is UpdateTextureCache
                &&& updates.len() > 0 ==> (messages@[first] matches ResultMsg::UpdateBatches(sent) && sent@
                    == updates)
                &&& messages@[second] matches ResultMsg::NewFrame(frame) && final(self).scene.frame_shows(frame)
            }),
            final(self).scene.pending_updates@.len() == 0,
            final(self).scene.ready(),
            final(self).scene@ == old(self).scene@,
            final(self).scene.scroll_offset == old(self).scene.scroll_offset,
            all_handed_over(old(self).scene.nodes@, final(self).scene.nodes@),
            final(self).same_settings(*old(self)),
            final(self).same_resources(*old(self)),
            final(self).display_list_map == old(self).display_list_map,
            final(self).draw_list_map == old(self).draw_list_map,
            final(self).stacking_contexts == old(self).stacking_contexts,
            final(self).next_draw_list_id == old(self).next_draw_list_id,
            old(self).wf() ==> final(self).wf(),
    {
        let frame = self.scene.build_frame();
        let mut messages: Vec<ResultMsg> = Vec::new();
        if texture_updates {
            messages.push(ResultMsg::UpdateTextureCache);
        }
        let pending_update = self.scene.pending_updates();
        if pending_update.updates.len() > 0 {
            messages.push(ResultMsg::UpdateBatches(pending_update));
        }
        messages.push(ResultMsg::NewFrame(frame));
        messages
    }
}

/// In a scene that has just been built, every draw list stands on exactly one target, once: on the
/// one that its context names.  The draw lists of each target are in painting order.
pub proof fn built_scenes_are_in_order(
    backend: RenderBackend,
    lists: Map<u64, Seq<ItemView>>,
    scene: SceneView,
    old_scene: Scene,
    freed: Vec<TextureId>,
)
    requires
        scene.flat.len() == 0,
        scene.stack.len() == 0,
        backend.build_outcome(lists, scene, old_scene, Ok(SceneBuild::Built(freed))),
        backend.scene@.flat.len() <= MOST_LISTS,
    ensures
        stands_once(backend.scene@.flat, backend.scene@.targets),
        ascending(backend.scene@.targets),
{
    let begun = scene_begun(scene, backend.viewport);
    let root = backend.root().unwrap();
    empty_targets_stand(begun.flat, begun.targets);
    lists_stand_on_one_target(
        lists.dom().len(),
        sources(backend.display_list_map@, backend.stacking_contexts@, backend.device_pixel_ratio),
        root.stacking_context,
        Some(root),
        TransformIndex(0),
        Flattening { scene: begun, lists, error: None },
    );
}

/// A scene that has just been built shows the epoch of the root document under its pipeline, and under
/// every other pipeline that it shows the epoch of the document there.
pub proof fn built_scenes_show_their_epochs(
    backend: RenderBackend,
    lists: Map<u64, Seq<ItemView>>,
    scene: SceneView,
    old_scene: Scene,
    freed: Vec<TextureId>,
)
    requires
        contexts_ok(backend.stacking_contexts@),
        backend.build_outcome(lists, scene, old_scene, Ok(SceneBuild::Built(freed))),
    ensures
        ({
            let epochs = backend.scene@.epochs;
            let contexts = backend.stacking_contexts@;
            &&& epochs.contains_key(PipelineId(0, 0).key())
            &&& forall|key: u64| #[trigger]
                epochs.contains_key(key) ==> contexts.contains_key(key) && epochs[key] == contexts[key].epoch
        }),
{
    let begun = scene_begun(scene, backend.viewport);
    let root = backend.root().unwrap();
    assert(backend.stacking_contexts@.contains_key(PipelineId(0, 0).key()));
    epochs_are_those_of_the_documents(
        lists.dom().len(),
        sources(backend.display_list_map@, backend.stacking_contexts@, backend.device_pixel_ratio),
        root,
        TransformIndex(0),
        Flattening { scene: begun, lists, error: None },
    );
}

/// What the renderer is sent.
#[derive(Debug)]
pub enum ResultMsg {
    /// The changes to the texture cache.
    UpdateTextureCache,
    /// The changes to the batches.
    UpdateBatches(BatchUpdateList),
    /// A frame to draw.
    NewFrame(Frame),
}

} // verus!
