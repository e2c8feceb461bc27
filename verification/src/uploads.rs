//! Bringing the images that visible nodes need into the texture cache.
use crate::geometry::DeviceSize;
use crate::ids::ImageID;
use crate::images::{GlyphToImageMap, RasterToImageMap};
use crate::node::{AABBTreeNode, GlyphKey, RasterItem, ResourceList};
use crate::scene::Scene;
use crate::tables;
use crate::upload_laws::what_is_needed_is_made;
use fnv::FnvHashMap;
use vstd::prelude::*;

verus! {

/// The layout of an image's pixels.
#[derive(Clone, Copy, Debug, PartialEq, Eq, Structural)]
pub enum ImageFormat {
    Invalid,
    A8,
    RGB8,
    RGBA8,
}

/// An image that a document has sent.
#[derive(Debug, PartialEq)]
pub struct ImageResource {
    pub bytes: Vec<u8>,
    pub width: u32,
    pub height: u32,
    pub format: ImageFormat,
}

/// How the pixels of an image come into the texture cache; a blur radius is in app units.
#[derive(Debug, PartialEq)]
pub enum TextureInsertOp {
    Blit(Vec<u8>),
    Blur(Vec<u8>, DeviceSize, i32),
}

/// An image for the texture cache.
#[derive(Debug, PartialEq)]
pub struct TextureInsert {
    pub image_id: ImageID,
    pub x0: i32,
    pub y0: i32,
    pub width: u32,
    pub height: u32,
    pub format: ImageFormat,
    pub op: TextureInsertOp,
}

/// A glyph to rasterize.
#[derive(Clone, Copy, Debug, PartialEq, Eq, Structural)]
pub struct GlyphRasterJob {
    pub image_id: ImageID,
    pub glyph_key: GlyphKey,
}

/// A glyph that has been rasterized.
#[derive(Debug, PartialEq)]
pub struct RasterizedGlyph {
    pub left: i32,
    pub top: i32,
    pub width: u32,
    pub height: u32,
    pub bytes: Vec<u8>,
}

/// One thing to do to the texture cache.
#[derive(Clone, Copy, Debug, PartialEq, Eq, Structural)]
pub enum CacheStep {
    /// Have a mask generated.
    InsertRaster { image_id: ImageID, item: RasterItem },
    /// Upload an image unless the cache holds it.
    CheckImage(ImageID),
}

/// What a frame asks of the texture cache: steps to take in order, glyphs to rasterize, and how
/// many of the fresh image identifiers have been given out.
#[derive(Debug, PartialEq)]
pub struct CacheWork {
    pub steps: Vec<CacheStep>,
    pub jobs: Vec<GlyphRasterJob>,
    pub used: usize,
}

/// The work in the making, with the maps as they stand.
#[verifier::ext_equal]
pub struct Requested {
    pub rasters: Map<RasterItem, ImageID>,
    pub glyphs: Map<GlyphKey, ImageID>,
    pub steps: Seq<CacheStep>,
    pub jobs: Seq<GlyphRasterJob>,
    pub used: nat,
}

/// A mask is requested: one that has no image yet gets the next fresh identifier.
pub open spec fn raster_requested(r: Requested, item: RasterItem, fresh: Seq<ImageID>) -> Requested {
    if r.rasters.contains_key(item) {
        r
    } else {
        let image_id = fresh[r.used as int];
        Requested {
            rasters: r.rasters.insert(item, image_id),
            steps: r.steps.push(CacheStep::InsertRaster { image_id, item }),
            used: r.used + 1,
            ..r
        }
    }
}

/// A glyph is requested: one that has no image yet gets the next fresh identifier and is
/// rasterized.
pub open spec fn glyph_requested(r: Requested, key: GlyphKey, fresh: Seq<ImageID>) -> Requested {
    if r.glyphs.contains_key(key) {
        r
    } else {
        let image_id = fresh[r.used as int];
        Requested {
            glyphs: r.glyphs.insert(key, image_id),
            jobs: r.jobs.push(GlyphRasterJob { image_id, glyph_key: key }),
            used: r.used + 1,
            ..r
        }
    }
}

/// The first `n` masks are requested.
pub open spec fn rasters_requested(r: Requested, items: Seq<RasterItem>, fresh: Seq<ImageID>, n: nat) -> Requested
    decreases n,
{
    if n == 0 {
        r
    } else {
        raster_requested(rasters_requested(r, items, fresh, (n - 1) as nat), items[n - 1], fresh)
    }
}

/// The first `n` glyphs are requested.
pub open spec fn glyphs_requested(r: Requested, keys: Seq<GlyphKey>, fresh: Seq<ImageID>, n: nat) -> Requested
    decreases n,
{
    if n == 0 {
        r
    } else {
        glyph_requested(glyphs_requested(r, keys, fresh, (n - 1) as nat), keys[n - 1], fresh)
    }
}

/// Images are requested.
pub open spec fn images_requested(r: Requested, images: Seq<ImageID>) -> Requested {
    Requested {
        steps: r.steps + images.map_values(|image_id: ImageID| CacheStep::CheckImage(image_id)),
        ..r
    }
}

/// What a node needs is requested: masks, images, glyphs.
pub open spec fn list_requested(r: Requested, list: ResourceList, fresh: Seq<ImageID>) -> Requested {
    let r = rasters_requested(r, list.rasters@, fresh, list.rasters@.len());
    let r = images_requested(r, list.images@);
    glyphs_requested(r, list.glyphs@, fresh, list.glyphs@.len())
}

/// What a node needs is requested if the node is visible.
pub open spec fn node_requested(r: Requested, node: AABBTreeNode, fresh: Seq<ImageID>) -> Requested {
    match node.resource_list {
        Some(list) if node.is_visible => list_requested(r, list, fresh),
        _ => r,
    }
}

/// What the visible ones of the first `n` nodes need is requested, node by node.
pub open spec fn nodes_requested(r: Requested, nodes: Seq<AABBTreeNode>, fresh: Seq<ImageID>, n: nat) -> Requested
    decreases n,
{
    if n == 0 {
        r
    } else {
        node_requested(nodes_requested(r, nodes, fresh, (n - 1) as nat), nodes[n - 1], fresh)
    }
}

/// The most fresh identifiers that a node can use up.
pub open spec fn node_demand(node: AABBTreeNode) -> nat {
    match node.resource_list {
        Some(list) if node.is_visible => list.rasters@.len() + list.glyphs@.len(),
        _ => 0,
    }
}

/// The same for the first `n` nodes.
pub open spec fn demand(nodes: Seq<AABBTreeNode>, n: nat) -> nat
    decreases n,
{
    if n == 0 {
        0
    } else {
        demand(nodes, (n - 1) as nat) + node_demand(nodes[n - 1])
    }
}

/// Every visible node has a list of what it needs.
pub open spec fn listed(nodes: Seq<AABBTreeNode>) -> bool {
    forall|i: int|
        0 <= i < nodes.len() && (#[trigger] nodes[i]).is_visible ==> nodes[i].resource_list is Some
}

/// Whether a node is visible and needs a glyph.
pub open spec fn needs_glyph(node: AABBTreeNode, key: GlyphKey) -> bool {
    node.is_visible && node.resource_list is Some && node.resource_list.unwrap().glyphs@.contains(key)
}

/// Whether a node is visible and needs a mask.
pub open spec fn needs_raster(node: AABBTreeNode, item: RasterItem) -> bool {
    node.is_visible && node.resource_list is Some && node.resource_list.unwrap().rasters@.contains(item)
}

/// Whether a node is visible and needs an image.
pub open spec fn needs_image(node: AABBTreeNode, image_id: ImageID) -> bool {
    node.is_visible && node.resource_list is Some && node.resource_list.unwrap().images@.contains(image_id)
}

/// The glyphs that the visible ones of the first `n` nodes need.
pub open spec fn needed_glyphs(nodes: Seq<AABBTreeNode>, n: nat) -> Set<GlyphKey> {
    Set::new(|key: GlyphKey| exists|i: int| 0 <= i < n && needs_glyph(#[trigger] nodes[i], key))
}

/// The masks that they need.
pub open spec fn needed_rasters(nodes: Seq<AABBTreeNode>, n: nat) -> Set<RasterItem> {
    Set::new(|item: RasterItem| exists|i: int| 0 <= i < n && needs_raster(#[trigger] nodes[i], item))
}

/// The images that they need.
pub open spec fn needed_images(nodes: Seq<AABBTreeNode>, n: nat) -> Set<ImageID> {
    Set::new(|image_id: ImageID| exists|i: int| 0 <= i < n && needs_image(#[trigger] nodes[i], image_id))
}

/// The glyphs that are rasterized are those that are needed and had no image, each once.  Each gets a
/// fresh image, which the map now has for it; the map has nothing else that it did not have before.
pub open spec fn glyphs_made(
    before: Map<GlyphKey, ImageID>,
    after: Map<GlyphKey, ImageID>,
    jobs: Seq<GlyphRasterJob>,
    needed: Set<GlyphKey>,
    fresh: Seq<ImageID>,
) -> bool {
    &&& forall|key: GlyphKey| #[trigger]
        after.contains_key(key) <==> before.contains_key(key) || needed.contains(key)
    &&& forall|key: GlyphKey| #[trigger] before.contains_key(key) ==> after[key] == before[key]
    &&& forall|i: int, j: int|
        0 <= i < j < jobs.len() ==> (#[trigger] jobs[i]).glyph_key != (#[trigger] jobs[j]).glyph_key
    &&& forall|j: int|
        0 <= j < jobs.len() ==> {
            let job = #[trigger] jobs[j];
            &&& needed.contains(job.glyph_key)
            &&& !before.contains_key(job.glyph_key)
            &&& after[job.glyph_key] == job.image_id
            &&& fresh.contains(job.image_id)
        }
    &&& forall|key: GlyphKey| #[trigger]
        needed.contains(key) && !before.contains_key(key) ==> exists|j: int|
            0 <= j < jobs.len() && (#[trigger] jobs[j]).glyph_key == key
}

/// The same of masks: those that are generated are the ones that are needed and had no image, each
/// once.
pub open spec fn rasters_made(
    before: Map<RasterItem, ImageID>,
    after: Map<RasterItem, ImageID>,
    steps: Seq<CacheStep>,
    needed: Set<RasterItem>,
    fresh: Seq<ImageID>,
) -> bool {
    &&& forall|item: RasterItem| #[trigger]
        after.contains_key(item) <==> before.contains_key(item) || needed.contains(item)
    &&& forall|item: RasterItem| #[trigger] before.contains_key(item) ==> after[item] == before[item]
    &&& forall|i: int, j: int|
        0 <= i < j < steps.len() && (#[trigger] steps[i]) is InsertRaster && (#[trigger] steps[j]) is InsertRaster
            ==> steps[i]->item != steps[j]->item
    &&& forall|s: int|
        0 <= s < steps.len() ==> ((#[trigger] steps[s]) matches CacheStep::InsertRaster { image_id, item } ==> {
            &&& needed.contains(item)
            &&& !before.contains_key(item)
            &&& after[item] == image_id
            &&& fresh.contains(image_id)
        })
    &&& forall|item: RasterItem| #[trigger]
        needed.contains(item) && !before.contains_key(item) ==> exists|s: int|
            0 <= s < steps.len() && (#[trigger] steps[s]) is InsertRaster && steps[s]->item == item
}

/// The images that are looked at are those that are needed.
pub open spec fn images_checked(steps: Seq<CacheStep>, needed: Set<ImageID>) -> bool {
    forall|image_id: ImageID| #[trigger]
        needed.contains(image_id) <==> steps.contains(CacheStep::CheckImage(image_id))
}

/// The state of the work over given maps.
pub open spec fn requested(
    rasters: RasterToImageMap,
    glyphs: GlyphToImageMap,
    steps: Seq<CacheStep>,
    jobs: Seq<GlyphRasterJob>,
    used: usize,
) -> Requested {
    Requested { rasters: rasters@, glyphs: glyphs@, steps, jobs, used: used as nat }
}

proof fn lemma_demand(nodes: Seq<AABBTreeNode>, m: nat, n: nat)
    requires
        m <= n,
    ensures
        demand(nodes, m) <= demand(nodes, n),
    decreases n,
{
    if m < n {
        lemma_demand(nodes, m, (n - 1) as nat);
    }
}

impl Scene {
    /// The most fresh image identifiers that the visible nodes can use up; nothing where a
    /// visible node has no list of what it needs, or where the number does not fit.
    pub fn resource_demand(&self) -> (r: Option<usize>)
        ensures
            match r {
                Some(n) => listed(self.nodes@) && n == demand(self.nodes@, self.nodes@.len()),
                None => !listed(self.nodes@) || demand(self.nodes@, self.nodes@.len()) > usize::MAX,
            },
    {
        let mut total: usize = 0;
        let mut i: usize = 0;
        while i < self.nodes.len()
            invariant
                i <= self.nodes@.len(),
                total == demand(self.nodes@, i as nat),
                forall|k: int|
                    0 <= k < i && (#[trigger] self.nodes@[k]).is_visible ==> self.nodes@[k].resource_list is Some,
            decreases self.nodes@.len() - i,
        {
            proof {
                lemma_demand(self.nodes@, (i + 1) as nat, self.nodes@.len());
            }
            if self.nodes[i].is_visible {
                match &self.nodes[i].resource_list {
                    None => {
                        return None;
                    },
                    Some(list) => {
                        let rasters = list.rasters.len();
                        let glyphs = list.glyphs.len();
                        if rasters > usize::MAX - total || glyphs > usize::MAX - total - rasters {
                            return None;
                        }
                        total = total + rasters + glyphs;
                    },
                }
            }
            i = i + 1;
        }
        Some(total)
    }

    /// Goes through what the visible nodes need.  Masks and glyphs that have no image yet are
    /// given one from `fresh`, in order; masks are generated, glyphs rasterized, and images
    /// uploaded where the texture cache does not hold them.
    pub fn update_texture_cache_and_build_raster_jobs(
        &self,
        raster_to_image_map: &mut RasterToImageMap,
        glyph_to_image_map: &mut GlyphToImageMap,
        fresh: &Vec<ImageID>,
    ) -> (work: CacheWork)
        requires
            listed(self.nodes@),
            demand(self.nodes@, self.nodes@.len()) <= fresh@.len(),
        ensures
            requested(
                *final(raster_to_image_map),
                *final(glyph_to_image_map),
                work.steps@,
                work.jobs@,
                work.used,
            ) == nodes_requested(
                requested(
                    *old(raster_to_image_map),
                    *old(glyph_to_image_map),
                    Seq::empty(),
                    Seq::empty(),
                    0,
                ),
                self.nodes@,
                fresh@,
                self.nodes@.len(),
            ),
            work.used <= fresh@.len(),
            glyphs_made(
                old(glyph_to_image_map)@,
                final(glyph_to_image_map)@,
                work.jobs@,
                needed_glyphs(self.nodes@, self.nodes@.len()),
                fresh@,
            ),
            rasters_made(
                old(raster_to_image_map)@,
                final(raster_to_image_map)@,
                work.steps@,
                needed_rasters(self.nodes@, self.nodes@.len()),
                fresh@,
            ),
            images_checked(work.steps@, needed_images(self.nodes@, self.nodes@.len())),
    {
        let mut work = CacheWork { steps: Vec::new(), jobs: Vec::new(), used: 0 };
        let ghost start = requested(
            *raster_to_image_map,
            *glyph_to_image_map,
            work.steps@,
            work.jobs@,
            work.used,
        );
        assert(work.steps@ =~= Seq::empty());
        assert(work.jobs@ =~= Seq::empty());
        let mut i: usize = 0;
        while i < self.nodes.len()
            invariant
                i <= self.nodes@.len(),
                listed(self.nodes@),
                demand(self.nodes@, self.nodes@.len()) <= fresh@.len(),
                work.used <= demand(self.nodes@, i as nat),
                requested(
                    *raster_to_image_map,
                    *glyph_to_image_map,
                    work.steps@,
                    work.jobs@,
                    work.used,
                ) == nodes_requested(start, self.nodes@, fresh@, i as nat),
            decreases self.nodes@.len() - i,
        {
            proof {
                lemma_demand(self.nodes@, (i + 1) as nat, self.nodes@.len());
            }
            if self.nodes[i].is_visible {
                if let Some(list) = &self.nodes[i].resource_list {
                    request_list(list, raster_to_image_map, glyph_to_image_map, fresh, &mut work);
                }
            }
            i = i + 1;
        }
        proof {
            lemma_demand(self.nodes@, i as nat, self.nodes@.len());
            what_is_needed_is_made(start, self.nodes@, fresh@, self.nodes@.len());
        }
        work
    }
}

fn request_list(
    list: &ResourceList,
    rasters: &mut RasterToImageMap,
    glyphs: &mut GlyphToImageMap,
    fresh: &Vec<ImageID>,
    work: &mut CacheWork,
)
    requires
        old(work).used + list.rasters@.len() + list.glyphs@.len() <= fresh@.len(),
    ensures
        requested(
            *final(rasters),
            *final(glyphs),
            final(work).steps@,
            final(work).jobs@,
            final(work).used,
        ) == list_requested(
            requested(*old(rasters), *old(glyphs), old(work).steps@, old(work).jobs@, old(work).used),
            *list,
            fresh@,
        ),
        final(work).used <= old(work).used + list.rasters@.len() + list.glyphs@.len(),
{
    let ghost start = requested(*rasters, *glyphs, work.steps@, work.jobs@, work.used);
    let mut i: usize = 0;
    while i < list.rasters.len()
        invariant
            i <= list.rasters@.len(),
            old(work).used + list.rasters@.len() + list.glyphs@.len() <= fresh@.len(),
            work.used <= old(work).used + i,
            *glyphs == *old(glyphs),
            start == requested(
                *old(rasters),
                *old(glyphs),
                old(work).steps@,
                old(work).jobs@,
                old(work).used,
            ),
            requested(*rasters, *glyphs, work.steps@, work.jobs@, work.used) == rasters_requested(
                start,
                list.rasters@,
                fresh@,
                i as nat,
            ),
        decreases list.rasters@.len() - i,
    {
        let item = list.rasters[i];
        if rasters.get(&item).is_none() {
            assert(work.used < fresh.len());
            let image_id = fresh[work.used];
            work.used = work.used + 1;
            work.steps.push(CacheStep::InsertRaster { image_id, item });
            rasters.insert(&item, image_id);
        }
        i = i + 1;
    }
    let ghost made = requested(*rasters, *glyphs, work.steps@, work.jobs@, work.used);
    let ghost checks = list.images@.map_values(|image_id: ImageID| CacheStep::CheckImage(image_id));
    assert(made.steps =~= made.steps + checks.take(0));
    let mut i: usize = 0;
    while i < list.images.len()
        invariant
            i <= list.images@.len(),
            checks == list.images@.map_values(|image_id: ImageID| CacheStep::CheckImage(image_id)),
            made.rasters == rasters@,
            made.glyphs == glyphs@,
            made.jobs == work.jobs@,
            made.used == work.used,
            work.steps@ == made.steps + checks.take(i as int),
        decreases list.images@.len() - i,
    {
        work.steps.push(CacheStep::CheckImage(list.images[i]));
        i = i + 1;
        assert(checks.take(i as int) =~= checks.take(i - 1).push(checks[i - 1]));
        assert(work.steps@ =~= made.steps + checks.take(i as int));
    }
    assert(checks.take(i as int) =~= checks);
    let ghost checked = requested(*rasters, *glyphs, work.steps@, work.jobs@, work.used);
    assert(checked == images_requested(made, list.images@));
    let mut i: usize = 0;
    while i < list.glyphs.len()
        invariant
            i <= list.glyphs@.len(),
            old(work).used + list.rasters@.len() + list.glyphs@.len() <= fresh@.len(),
            work.used <= old(work).used + list.rasters@.len() + i,
            requested(*rasters, *glyphs, work.steps@, work.jobs@, work.used) == glyphs_requested(
                checked,
                list.glyphs@,
                fresh@,
                i as nat,
            ),
        decreases list.glyphs@.len() - i,
    {
        let key = list.glyphs[i];
        if glyphs.get(&key).is_none() {
            assert(work.used < fresh.len());
            let image_id = fresh[work.used];
            work.used = work.used + 1;
            work.jobs.push(GlyphRasterJob { image_id, glyph_key: key });
            glyphs.insert(&key, image_id);
        }
        i = i + 1;
    }
}

/// What has to be done about an image.
#[derive(Debug, PartialEq)]
pub enum ImageUpload {
    /// Nothing: the texture cache holds it.
    Cached,
    /// It has to be uploaded.
    Upload(TextureInsert),
    /// It has to be uploaded, but no document has sent it.
    Missing,
}

/// What has to be done about an image.  `exists` says whether the texture cache holds it.
pub fn image_upload(
    image_templates: &FnvHashMap<u64, ImageResource>,
    image_id: ImageID,
    exists: bool,
) -> (r: ImageUpload)
    ensures
        exists ==> r is Cached,
        !exists && !image_templates@.contains_key(image_id.0) ==> r is Missing,
        !exists && image_templates@.contains_key(image_id.0) ==> {
            let image = image_templates@[image_id.0];
            r matches ImageUpload::Upload(insert) && {
                &&& insert.image_id == image_id
                &&& insert.x0 == 0
                &&& insert.y0 == 0
                &&& insert.width == image.width
                &&& insert.height == image.height
                &&& insert.format == image.format
                &&& insert.op matches TextureInsertOp::Blit(bytes) && bytes@ == image.bytes@
            }
        },
{
    if exists {
        return ImageUpload::Cached;
    }
    match tables::get(image_templates, &image_id.0) {
        None => ImageUpload::Missing,
        Some(image) => {
            let bytes = image.bytes.clone();
            assert(bytes@ =~= image.bytes@);
            ImageUpload::Upload(
                TextureInsert {
                    image_id,
                    x0: 0,
                    y0: 0,
                    width: image.width,
                    height: image.height,
                    format: image.format,
                    op: TextureInsertOp::Blit(bytes),
                },
            )
        },
    }
}

/// How much a blur adds to the width and to the height of a glyph; nothing where there is no
/// blur.
pub open spec fn blur_growth(key: GlyphKey, blur_radius_px: u32, inflation: u32) -> int {
    if key.blur_radius == 0 {
        0
    } else {
        blur_radius_px * inflation
    }
}

/// The texture cache entry of a rasterized glyph.  A glyph without blur is copied; a blurred one
/// takes more room, by `inflation` times its blur radius in device pixels, and is blurred on the
/// way.  Nothing where the size does not fit.
pub fn glyph_upload(
    job: &GlyphRasterJob,
    result: RasterizedGlyph,
    blur_radius_px: u32,
    inflation: u32,
) -> (r: Option<TextureInsert>)
    ensures
        ({
            let growth = blur_growth(job.glyph_key, blur_radius_px, inflation);
            match r {
                None => result.width + growth > u32::MAX || result.height + growth > u32::MAX,
                Some(insert) => {
                    &&& insert.image_id == job.image_id
                    &&& insert.x0 == result.left
                    &&& insert.y0 == result.top
                    &&& insert.width == result.width + growth
                    &&& insert.height == result.height + growth
                    &&& insert.format == ImageFormat::A8
                    &&& insert.op == (if job.glyph_key.blur_radius == 0 {
                        TextureInsertOp::Blit(result.bytes)
                    } else {
                        TextureInsertOp::Blur(
                            result.bytes,
                            DeviceSize { width: result.width, height: result.height },
                            job.glyph_key.blur_radius,
                        )
                    })
                },
            }
        }),
{
    let blur_radius = job.glyph_key.blur_radius;
    let growth: u64 = if blur_radius == 0 {
        0
    } else {
        assert(blur_radius_px * inflation <= 0xffff_ffff * 0xffff_ffff) by (nonlinear_arith)
            requires
                blur_radius_px <= 0xffff_ffff,
                inflation <= 0xffff_ffff,
        ;
        blur_radius_px as u64 * inflation as u64
    };
    assert(growth == blur_growth(job.glyph_key, blur_radius_px, inflation));
    if growth > (u32::MAX - result.width) as u64 || growth > (u32::MAX - result.height) as u64 {
        return None;
    }
    let width: u32 = result.width + growth as u32;
    let height: u32 = result.height + growth as u32;
    let size = DeviceSize { width: result.width, height: result.height };
    let op = if blur_radius == 0 {
        TextureInsertOp::Blit(result.bytes)
    } else {
        TextureInsertOp::Blur(result.bytes, size, blur_radius)
    };
    Some(
        TextureInsert {
            image_id: job.image_id,
            x0: result.left,
            y0: result.top,
            width,
            height,
            format: ImageFormat::A8,
            op,
        },
    )
}

} // verus!
