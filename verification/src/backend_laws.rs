//! What the backend makes of what documents send.
use crate::backend::{ListTable, RenderBackend};
use crate::context_laws::{context_painting, lists_are_painted_in_their_settings, painting_of, Painting, Placement};
use crate::display::{DisplayListBuilder, ItemView};
use crate::flatten::{flattened, sources, Flattening};
use crate::flatten_laws::{flattening_only_adds, target_extends};
use crate::geometry::DeviceSize;
use crate::ids::{DrawListID, Epoch, PipelineId, RenderTargetIndex, TextureId, TransformIndex};
use crate::length::Place;
use crate::phase_laws::own_list;
use crate::phases::SceneError;
use crate::run::{
    build_result, builder_lists, display_list_kept, lists_kept, scene_begun, BackendError, SceneBuild, Turn,
};
use crate::scene::{Scene, SceneView, Transform};
use crate::scene_laws::every_target_texture_is_freed;
use vstd::prelude::*;

verus! {

/// The draw list that a document sends for a phase, the phases counted in painting order.
pub open spec fn sent_list(builder: DisplayListBuilder, k: int) -> Seq<ItemView> {
    if k == 0 {
        builder.background_and_borders@
    } else if k == 1 {
        builder.block_backgrounds_and_borders@
    } else if k == 2 {
        builder.floats@
    } else if k == 3 {
        builder.content@
    } else if k == 4 {
        builder.positioned_content@
    } else {
        builder.outlines@
    }
}

/// Of a display list that a document sends, each draw list with items is kept under an identifier of its own,
/// which the display list has for the phase that it was sent for.  One without items is not kept, and what was
/// kept before stays as it is.
pub proof fn sent_lists_are_kept(
    table: ListTable,
    builder: DisplayListBuilder,
    pipeline_id: PipelineId,
    epoch: Epoch,
    k: int,
)
    requires
        0 <= k < 6,
        table.next + 6 <= u64::MAX,
        forall|id: u64| #[trigger] table.lists.contains_key(id) ==> id < table.next,
    ensures
        ({
            let list = display_list_kept(table, builder, pipeline_id, epoch);
            let after = lists_kept(table, builder_lists(builder), 6);
            &&& list.mode == builder.mode
            &&& list.pipeline_id == pipeline_id
            &&& list.epoch == epoch
            &&& own_list(list, k) is Some <==> sent_list(builder, k).len() > 0
            &&& own_list(list, k) matches Some(id) ==> {
                &&& table.next <= id.0 < after.next
                &&& after.lists.contains_key(id.0)
                &&& after.lists[id.0] == sent_list(builder, k)
            }
            &&& forall|j: int|
                0 <= j < 6 && j != k && own_list(list, k) is Some ==> #[trigger] own_list(list, j) != own_list(list, k)
            &&& forall|id: u64| #[trigger]
                table.lists.contains_key(id) ==> after.lists.contains_key(id) && after.lists[id] == table.lists[id]
            &&& forall|id: u64| #[trigger]
                after.lists.contains_key(id) ==> table.lists.contains_key(id) || exists|j: int|
                    0 <= j < 6 && #[trigger] own_list(list, j) == Some(DrawListID(id))
        }),
{
    reveal_with_fuel(lists_kept, 7);
    let list = display_list_kept(table, builder, pipeline_id, epoch);
    let lists = builder_lists(builder);
    let after = lists_kept(table, lists, 6);
    assert forall|id: u64| #[trigger] after.lists.contains_key(id) implies table.lists.contains_key(id) || exists|
        j: int,
    |
        0 <= j < 6 && #[trigger] own_list(list, j) == Some(DrawListID(id)) by {
        let _ = own_list(list, 0);
        let _ = own_list(list, 1);
        let _ = own_list(list, 2);
        let _ = own_list(list, 3);
        let _ = own_list(list, 4);
        let _ = own_list(list, 5);
    }
}

/// A scene that has just been built paints the document of the pipeline zero, from the origin of the window on:
/// its first target is as large as the viewport and has no texture.  The textures that are freed are those of
/// the targets of the scene before it.
pub proof fn built_scenes_paint_the_root_document(
    backend: RenderBackend,
    lists: Map<u64, Seq<ItemView>>,
    scene: SceneView,
    old_scene: Scene,
    freed: Vec<TextureId>,
    texture_id: TextureId,
)
    requires
        scene.flat.len() == 0,
        scene.stack.len() == 0,
        backend.build_outcome(lists, scene, old_scene, Ok(SceneBuild::Built(freed))),
    ensures
        backend.stacking_contexts@.contains_key(PipelineId(0, 0).key()),
        ({
            let root = backend.stacking_contexts@[PipelineId(0, 0).key()];
            let window = DeviceSize { width: backend.viewport.width as u32, height: backend.viewport.height as u32 };
            painting_of(backend.scene@, TransformIndex(0), 0) == context_painting(
                lists.dom().len(),
                sources(backend.display_list_map@, backend.stacking_contexts@, backend.device_pixel_ratio),
                lists,
                root.stacking_context,
                Some(root),
                Placement::Start,
                RenderTargetIndex(0),
                Painting { entries: Seq::empty(), sizes: seq![window], textures: seq![None] },
            )
        }),
        backend.scene@.transforms[0] == Transform::Identity,
        backend.scene@.targets[0].texture_id is None,
        freed@.contains(texture_id) <==> exists|t: int|
            0 <= t < scene.targets.len() && (#[trigger] scene.targets[t]).texture_id == Some(texture_id),
{
    let begun = scene_begun(scene, backend.viewport);
    let root = backend.root().unwrap();
    let read = sources(backend.display_list_map@, backend.stacking_contexts@, backend.device_pixel_ratio);
    let f = Flattening { scene: begun, lists, error: None };
    let depth = lists.dom().len();
    let g = flattened(depth, read, root.stacking_context, Some(root), TransformIndex(0), f);
    assert(backend.scene.transforms.len() == g.scene.transforms.len());
    assert(begun.stack_ok());
    lists_are_painted_in_their_settings(depth, read, root.stacking_context, Some(root), TransformIndex(0), f);
    let window = DeviceSize { width: backend.viewport.width as u32, height: backend.viewport.height as u32 };
    assert(painting_of(begun, TransformIndex(0), 0) =~= Painting { entries: Seq::empty(), sizes: seq![window], textures: seq![None] });
    assert(painting_of(backend.scene@, TransformIndex(0), 0) =~= painting_of(g.scene, TransformIndex(0), 0));
    flattening_only_adds(depth, read, root.stacking_context, Some(root), TransformIndex(0), f);
    assert(g.scene.transforms[0] == begun.transforms[0]);
    assert(target_extends(begun.targets[0], g.scene.targets[0]));
    every_target_texture_is_freed(scene.targets, scene.targets.len(), texture_id);
}

/// What is said to be the same of two backends is: the settings are the viewport, the device pixels of a pixel,
/// the programs and the two fixed images; the resources are the fonts, the images and what was made of them.
pub proof fn settings_and_resources_stay(a: RenderBackend, b: RenderBackend)
    ensures
        a.same_settings(b) ==> {
            &&& a.viewport == b.viewport
            &&& a.device_pixel_ratio == b.device_pixel_ratio
            &&& a.quad_program_id == b.quad_program_id
            &&& a.glyph_program_id == b.glyph_program_id
            &&& a.white_image_id == b.white_image_id
            &&& a.dummy_mask_image_id == b.dummy_mask_image_id
        },
        a.same_resources(b) ==> {
            &&& a.font_templates == b.font_templates
            &&& a.image_templates == b.image_templates
            &&& a.glyph_to_image_map == b.glyph_to_image_map
            &&& a.raster_to_image_map == b.raster_to_image_map
        },
        a.same_settings(b) && a.same_resources(b) && a.same_but_lists(b) && a.draw_list_map == b.draw_list_map
            && a.next_draw_list_id == b.next_draw_list_id ==> a == b,
        a.same_settings(b) && a.same_but_resources(b) && a.same_resources(b) ==> a == b,
{
}

/// The same of two scenes: what flattening builds and everything else make up the whole scene.
pub proof fn scenes_stay(a: Scene, b: Scene)
    ensures
        a.same_outside_view(b) ==> a.nodes == b.nodes && a.scroll_offset == b.scroll_offset && a.pending_updates
            == b.pending_updates,
        a.same_but_updates(b) ==> a.nodes == b.nodes && a.scroll_offset == b.scroll_offset && a@ == b@,
{
}

/// A turn tells of the scene exactly after a message that sets a document: what became of the scene, or what was
/// missing for it.
pub proof fn turns_tell_of_the_scene(build: SceneBuild, error: SceneError, place: Place)
    ensures
        build_result(Ok(Turn::Draw(build))) == Some(Ok::<SceneBuild, SceneError>(build)),
        build_result(Err(BackendError::Scene(error))) == Some(Err::<SceneBuild, SceneError>(error)),
        build_result(Ok(Turn::Wait)) is None,
        build_result(Ok(Turn::Scroll(place))) is None,
        build_result(Err(BackendError::OutOfIdentifiers)) is None,
{
}

} // verus!
