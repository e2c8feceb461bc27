//! The render backend: it keeps what documents send, builds the scene from it, and hands frames
//! to the renderer.
use crate::display::{DisplayList, DisplayListBuilder, DrawList, ItemView, RootStackingContext, StackingContext};
use crate::epoch_laws::contexts_ok;
use crate::flatten::list_views;
use crate::geometry::{ColorF, Point2D, Viewport};
use crate::ids::{DisplayListID, DrawListID, Epoch, FontId, ImageID, PipelineId, ProgramId};
use crate::images::{GlyphToImageMap, RasterToImageMap};
use crate::lists::{apart, lemma_owned_insert, lemma_returned, owned, references_ok};
use crate::scalar::Scalar;
use crate::scene::{Scene, SceneView};
use crate::tables;
use crate::uploads::{ImageFormat, ImageResource};
use fnv::FnvHashMap;
use vstd::prelude::*;

verus! {

/// A font that a document has sent.
#[derive(Debug, PartialEq)]
pub struct FontTemplate {
    pub bytes: Vec<u8>,
}

/// What documents ask of the backend.
#[derive(Debug)]
pub enum ApiMsg {
    AddFont(FontId, Vec<u8>),
    AddImage(ImageID, u32, u32, ImageFormat, Vec<u8>),
    AddDisplayList(DisplayListID, PipelineId, Epoch, DisplayListBuilder),
    SetRootStackingContext(StackingContext, ColorF, Epoch, PipelineId),
    Scroll(Point2D),
}

/// The backend.
#[derive(Debug)]
pub struct RenderBackend {
    pub viewport: Viewport,
    pub device_pixel_ratio: Scalar,
    pub quad_program_id: ProgramId,
    pub glyph_program_id: ProgramId,
    pub white_image_id: ImageID,
    pub dummy_mask_image_id: ImageID,
    pub font_templates: FnvHashMap<u64, FontTemplate>,
    pub image_templates: FnvHashMap<u64, ImageResource>,
    pub glyph_to_image_map: GlyphToImageMap,
    pub raster_to_image_map: RasterToImageMap,
    pub display_list_map: FnvHashMap<u64, DisplayList>,
    pub draw_list_map: FnvHashMap<u64, DrawList>,
    pub stacking_contexts: FnvHashMap<u64, RootStackingContext>,
    pub next_draw_list_id: u64,
    pub scene: Scene,
}

/// A table of draw lists, and the identifier that the next one will get.
pub struct ListTable {
    pub lists: Map<u64, Seq<ItemView>>,
    pub next: nat,
}

/// A draw list is kept under the next identifier; one without items is not kept.
pub open spec fn list_kept(table: ListTable, items: Seq<ItemView>) -> ListTable {
    if items.len() > 0 {
        ListTable { lists: table.lists.insert(table.next as u64, items), next: table.next + 1 }
    } else {
        table
    }
}

/// The identifier that a draw list gets.
pub open spec fn id_given(table: ListTable, items: Seq<ItemView>) -> Option<DrawListID> {
    if items.len() > 0 {
        Some(DrawListID(table.next as u64))
    } else {
        None
    }
}

/// A draw list is put into the table under its identifier, if it got one.
pub open spec fn list_stored(table: Map<u64, DrawList>, id: Option<DrawListID>, list: DrawList) -> Map<u64, DrawList> {
    match id {
        Some(id) => table.insert(id.0, list),
        None => table,
    }
}

/// A draw list is dropped from the table, if there is one to drop.
pub open spec fn list_dropped(table: Map<u64, DrawList>, id: Option<DrawListID>) -> Map<u64, DrawList> {
    match id {
        Some(id) => table.remove(id.0),
        None => table,
    }
}

/// Dropping a draw list that has just been added brings the table back: the identifier that it got
/// was not in use, and is there to be dropped.  A list without items got none.
pub proof fn adding_a_list_can_be_undone(backend: RenderBackend, list: DrawList)
    requires
        backend.wf(),
    ensures
        ({
            let id = id_given(backend.list_table(), list@);
            let table = backend.draw_list_map@;
            let stored = list_stored(table, id, list);
            &&& id is Some <==> list@.len() > 0
            &&& id matches Some(id) ==> !table.contains_key(id.0) && stored.contains_key(id.0)
            &&& list_dropped(stored, id) == table
        }),
{
    let id = id_given(backend.list_table(), list@);
    let table = backend.draw_list_map@;
    if let Some(id) = id {
        if table.contains_key(id.0) {
            assert(backend.lists().contains_key(id.0));
            lemma_returned(backend.lists(), backend.scene@.flat, backend.scene@.flat.len());
            assert(backend.owned_lists().contains_key(id.0));
        }
        assert(list_dropped(list_stored(table, Some(id), list), Some(id)) =~= table);
    }
}

impl RenderBackend {
    /// The contents of the draw lists in the table.
    pub open spec fn lists(self) -> Map<u64, Seq<ItemView>> {
        list_views(self.draw_list_map@)
    }

    /// The draw lists of the backend, those that the scene has taken included.
    pub open spec fn owned_lists(self) -> Map<u64, Seq<ItemView>> {
        owned(self.lists(), self.scene@.flat)
    }

    /// The table of draw lists.
    pub open spec fn list_table(self) -> ListTable {
        ListTable { lists: self.lists(), next: self.next_draw_list_id as nat }
    }

    /// The backend is in order: no target is being painted on, every draw list is in one place
    /// and has items, no identifier will be given out twice, the draw lists that display lists
    /// refer to are there, and every document is kept under its own pipeline.
    pub open spec fn wf(self) -> bool {
        &&& self.scene@.stack.len() == 0
        &&& apart(self.lists(), self.scene@.flat)
        &&& forall|id: u64| #[trigger]
            self.owned_lists().contains_key(id) ==> id < self.next_draw_list_id && self.owned_lists()[id].len() > 0
        &&& references_ok(self.display_list_map@, self.owned_lists())
        &&& contexts_ok(self.stacking_contexts@)
    }

    /// Whether nothing but the draw lists in the table differs from `other`.
    pub open spec fn same_but_lists(self, other: RenderBackend) -> bool {
        &&& self.same_settings(other)
        &&& self.same_resources(other)
        &&& self.display_list_map == other.display_list_map
        &&& self.stacking_contexts == other.stacking_contexts
        &&& self.scene == other.scene
    }

    /// Whether the viewport, the programs and the two fixed images are those of `other`.
    pub open spec fn same_settings(self, other: RenderBackend) -> bool {
        &&& self.viewport == other.viewport
        &&& self.device_pixel_ratio == other.device_pixel_ratio
        &&& self.quad_program_id == other.quad_program_id
        &&& self.glyph_program_id == other.glyph_program_id
        &&& self.white_image_id == other.white_image_id
        &&& self.dummy_mask_image_id == other.dummy_mask_image_id
    }

    /// Whether the fonts, the images and what the texture cache holds are those of `other`.
    pub open spec fn same_resources(self, other: RenderBackend) -> bool {
        &&& self.font_templates == other.font_templates
        &&& self.image_templates == other.image_templates
        &&& self.glyph_to_image_map == other.glyph_to_image_map
        &&& self.raster_to_image_map == other.raster_to_image_map
    }

    /// A backend that no document has sent anything to.
    pub fn new(
        viewport: Viewport,
        device_pixel_ratio: Scalar,
        quad_program_id: ProgramId,
        glyph_program_id: ProgramId,
        white_image_id: ImageID,
        dummy_mask_image_id: ImageID,
    ) -> (backend: RenderBackend)
        ensures
            backend.wf(),
            backend.viewport == viewport,
            backend.device_pixel_ratio == device_pixel_ratio,
            backend.quad_program_id == quad_program_id,
            backend.glyph_program_id == glyph_program_id,
            backend.white_image_id == white_image_id,
            backend.dummy_mask_image_id == dummy_mask_image_id,
            backend.font_templates@ == Map::<u64, FontTemplate>::empty(),
            backend.image_templates@ == Map::<u64, ImageResource>::empty(),
            backend.glyph_to_image_map@ == Map::<crate::node::GlyphKey, ImageID>::empty(),
            backend.raster_to_image_map@ == Map::<crate::node::RasterItem, ImageID>::empty(),
            backend.display_list_map@ == Map::<u64, DisplayList>::empty(),
            backend.draw_list_map@ == Map::<u64, DrawList>::empty(),
            backend.stacking_contexts@ == Map::<u64, RootStackingContext>::empty(),
            backend.scene@ == (SceneView {
                epochs: Map::empty(),
                flat: Seq::empty(),
                transforms: Seq::empty(),
                targets: Seq::empty(),
                stack: Seq::empty(),
            }),
            backend.scene.nodes@.len() == 0,
            backend.scene.scroll_offset == (Point2D { x: Scalar { bits: 0 }, y: Scalar { bits: 0 } }),
            backend.scene.pending_updates@.len() == 0,
    {
        RenderBackend {
            viewport,
            device_pixel_ratio,
            quad_program_id,
            glyph_program_id,
            white_image_id,
            dummy_mask_image_id,
            font_templates: FnvHashMap::default(),
            image_templates: FnvHashMap::default(),
            glyph_to_image_map: GlyphToImageMap::new(),
            raster_to_image_map: RasterToImageMap::new(),
            display_list_map: FnvHashMap::default(),
            draw_list_map: FnvHashMap::default(),
            stacking_contexts: FnvHashMap::default(),
            next_draw_list_id: 0,
            scene: Scene::new(),
        }
    }

    /// The font of a glyph, if a document has sent it.
    pub fn font_template(&self, font_id: FontId) -> (r: Option<&FontTemplate>)
        ensures
            match r {
                Some(font) => self.font_templates@.contains_key(font_id.0 as u64) && *font
                    == self.font_templates@[font_id.0 as u64],
                None => !self.font_templates@.contains_key(font_id.0 as u64),
            },
    {
        tables::get(&self.font_templates, &(font_id.0 as u64))
    }

    /// Drops a draw list from the table, if there is one to drop.
    pub fn remove_draw_list(&mut self, draw_list_id: Option<DrawListID>)
        requires
            draw_list_id matches Some(id) ==> old(self).draw_list_map@.contains_key(id.0),
        ensures
            final(self).draw_list_map@ == list_dropped(old(self).draw_list_map@, draw_list_id),
            final(self).next_draw_list_id == old(self).next_draw_list_id,
            final(self).same_but_lists(*old(self)),
    {
        if let Some(id) = draw_list_id {
            tables::remove(&mut self.draw_list_map, &id.0);
        }
    }

    /// Keeps a draw list under a new identifier; one without items is not kept.
    pub fn add_draw_list(&mut self, draw_list: DrawList) -> (id: Option<DrawListID>)
        requires
            old(self).next_draw_list_id < u64::MAX,
        ensures
            id == id_given(old(self).list_table(), draw_list@),
            final(self).draw_list_map@ == list_stored(old(self).draw_list_map@, id, draw_list),
            final(self).lists() == list_kept(old(self).list_table(), draw_list@).lists,
            final(self).next_draw_list_id == list_kept(old(self).list_table(), draw_list@).next,
            final(self).same_but_lists(*old(self)),
            old(self).wf() ==> final(self).wf(),
            old(self).wf() ==> final(self).owned_lists() == (match id {
                Some(id) => old(self).owned_lists().insert(id.0, draw_list@),
                None => old(self).owned_lists(),
            }),
    {
        if draw_list.item_count() > 0 {
            let id = DrawListID(self.next_draw_list_id);
            self.next_draw_list_id = self.next_draw_list_id + 1;
            tables::insert(&mut self.draw_list_map, id.0, draw_list);
            proof {
                assert(self.lists() =~= old(self).lists().insert(id.0, draw_list@));
                if old(self).wf() {
                    lemma_list_kept(*old(self), *self, id.0, draw_list@);
                }
            }
            Some(id)
        } else {
            None
        }
    }
}

/// Keeping a draw list under an identifier that has not been given out keeps the backend in
/// order.
proof fn lemma_list_kept(a: RenderBackend, b: RenderBackend, id: u64, items: Seq<ItemView>)
    requires
        a.wf(),
        b.same_but_lists(a),
        a.next_draw_list_id == id,
        b.next_draw_list_id == id + 1,
        b.lists() == a.lists().insert(id, items),
        items.len() > 0,
    ensures
        b.wf(),
        b.owned_lists() == a.owned_lists().insert(id, items),
{
    let flat = a.scene@.flat;
    lemma_returned(a.lists(), flat, flat.len());
    assert forall|k: int| 0 <= k < flat.len() implies (#[trigger] flat[k]).id != Some(DrawListID(id)) by {
        if flat[k].id == Some(DrawListID(id)) {
            assert(a.owned_lists().contains_key(id));
        }
    }
    lemma_owned_insert(a.lists(), flat, flat.len(), id, items);
}

} // verus!
