//! What requesting images keeps.
use crate::ids::ImageID;
use crate::node::{AABBTreeNode, GlyphKey, RasterItem, ResourceList};
use crate::uploads::{
    blur_growth, demand, glyph_requested, glyphs_made, glyphs_requested, images_checked, images_requested, list_requested,
    needed_glyphs, needed_images, needed_rasters, needs_glyph, needs_image, needs_raster, node_requested,
    nodes_requested, raster_requested, rasters_made, rasters_requested, CacheStep, Requested,
};
use vstd::prelude::*;

verus! {

/// Masks and glyphs that have an image keep it, and what has been asked for stays asked for.
pub open spec fn grown(a: Requested, b: Requested) -> bool {
    &&& forall|item: RasterItem| #[trigger]
        a.rasters.contains_key(item) ==> b.rasters.contains_key(item) && b.rasters[item] == a.rasters[item]
    &&& forall|key: GlyphKey| #[trigger]
        a.glyphs.contains_key(key) ==> b.glyphs.contains_key(key) && b.glyphs[key] == a.glyphs[key]
    &&& a.steps.is_prefix_of(b.steps)
    &&& a.jobs.is_prefix_of(b.jobs)
    &&& a.used <= b.used
}

/// Everything on a list has an image.
pub open spec fn met(r: Requested, list: ResourceList) -> bool {
    &&& forall|i: int| 0 <= i < list.rasters@.len() ==> r.rasters.contains_key(#[trigger] list.rasters@[i])
    &&& forall|i: int| 0 <= i < list.glyphs@.len() ==> r.glyphs.contains_key(#[trigger] list.glyphs@[i])
}

/// No image stands for two things, and none of those still to be given out stands for anything.
pub open spec fn unshared(r: Requested, fresh: Seq<ImageID>) -> bool {
    &&& fresh.no_duplicates()
    &&& forall|a: RasterItem, b: RasterItem|
        #![trigger r.rasters[a], r.rasters[b]]
        r.rasters.contains_key(a) && r.rasters.contains_key(b) && a != b ==> r.rasters[a] != r.rasters[b]
    &&& forall|a: GlyphKey, b: GlyphKey|
        #![trigger r.glyphs[a], r.glyphs[b]]
        r.glyphs.contains_key(a) && r.glyphs.contains_key(b) && a != b ==> r.glyphs[a] != r.glyphs[b]
    &&& forall|a: RasterItem, b: GlyphKey|
        #![trigger r.rasters[a], r.glyphs[b]]
        r.rasters.contains_key(a) && r.glyphs.contains_key(b) ==> r.rasters[a] != r.glyphs[b]
    &&& forall|a: RasterItem, i: int|
        #![trigger r.rasters[a], fresh[i]]
        r.rasters.contains_key(a) && r.used <= i < fresh.len() ==> r.rasters[a] != fresh[i]
    &&& forall|a: GlyphKey, i: int|
        #![trigger r.glyphs[a], fresh[i]]
        r.glyphs.contains_key(a) && r.used <= i < fresh.len() ==> r.glyphs[a] != fresh[i]
}

proof fn lemma_grown_trans(a: Requested, b: Requested, c: Requested)
    requires
        grown(a, b),
        grown(b, c),
    ensures
        grown(a, c),
{
}

proof fn lemma_rasters(r: Requested, items: Seq<RasterItem>, fresh: Seq<ImageID>, n: nat)
    requires
        n <= items.len(),
    ensures
        ({
            let s = rasters_requested(r, items, fresh, n);
            &&& grown(r, s)
            &&& s.glyphs == r.glyphs
            &&& s.jobs == r.jobs
            &&& s.used <= r.used + n
            &&& forall|i: int| 0 <= i < n ==> s.rasters.contains_key(#[trigger] items[i])
            &&& unshared(r, fresh) && r.used + n <= fresh.len() ==> unshared(s, fresh)
            &&& (forall|i: int| 0 <= i < n ==> r.rasters.contains_key(#[trigger] items[i])) ==> s == r
        }),
    decreases n,
{
    if n > 0 {
        lemma_rasters(r, items, fresh, (n - 1) as nat);
        let p = rasters_requested(r, items, fresh, (n - 1) as nat);
        let s = raster_requested(p, items[n - 1], fresh);
        lemma_grown_trans(r, p, s);
        if unshared(r, fresh) && r.used + n <= fresh.len() {
            assert(unshared(s, fresh));
        }
    }
}

proof fn lemma_glyphs(r: Requested, keys: Seq<GlyphKey>, fresh: Seq<ImageID>, n: nat)
    requires
        n <= keys.len(),
    ensures
        ({
            let s = glyphs_requested(r, keys, fresh, n);
            &&& grown(r, s)
            &&& s.rasters == r.rasters
            &&& s.steps == r.steps
            &&& s.used <= r.used + n
            &&& forall|i: int| 0 <= i < n ==> s.glyphs.contains_key(#[trigger] keys[i])
            &&& unshared(r, fresh) && r.used + n <= fresh.len() ==> unshared(s, fresh)
            &&& (forall|i: int| 0 <= i < n ==> r.glyphs.contains_key(#[trigger] keys[i])) ==> s == r
        }),
    decreases n,
{
    if n > 0 {
        lemma_glyphs(r, keys, fresh, (n - 1) as nat);
        let p = glyphs_requested(r, keys, fresh, (n - 1) as nat);
        let s = glyph_requested(p, keys[n - 1], fresh);
        lemma_grown_trans(r, p, s);
        if unshared(r, fresh) && r.used + n <= fresh.len() {
            assert(unshared(s, fresh));
        }
    }
}

proof fn lemma_list(r: Requested, list: ResourceList, fresh: Seq<ImageID>)
    ensures
        ({
            let s = list_requested(r, list, fresh);
            &&& grown(r, s)
            &&& met(s, list)
            &&& s.used <= r.used + list.rasters@.len() + list.glyphs@.len()
            &&& unshared(r, fresh) && r.used + list.rasters@.len() + list.glyphs@.len() <= fresh.len()
                ==> unshared(s, fresh)
            &&& met(r, list) ==> s == images_requested(r, list.images@)
        }),
{
    let a = rasters_requested(r, list.rasters@, fresh, list.rasters@.len());
    let b = images_requested(a, list.images@);
    let c = glyphs_requested(b, list.glyphs@, fresh, list.glyphs@.len());
    lemma_rasters(r, list.rasters@, fresh, list.rasters@.len());
    assert(grown(a, b));
    assert(unshared(a, fresh) ==> unshared(b, fresh));
    lemma_glyphs(b, list.glyphs@, fresh, list.glyphs@.len());
    lemma_grown_trans(r, a, b);
    lemma_grown_trans(r, b, c);
}

/// Requesting what the visible nodes need takes no image away, and gives one to everything that
/// they need.
pub proof fn requests_are_met(r: Requested, nodes: Seq<AABBTreeNode>, fresh: Seq<ImageID>, n: nat)
    requires
        n <= nodes.len(),
    ensures
        ({
            let s = nodes_requested(r, nodes, fresh, n);
            &&& grown(r, s)
            &&& forall|i: int|
                0 <= i < n && (#[trigger] nodes[i]).is_visible && nodes[i].resource_list is Some ==> met(
                    s,
                    nodes[i].resource_list.unwrap(),
                )
        }),
    decreases n,
{
    if n > 0 {
        requests_are_met(r, nodes, fresh, (n - 1) as nat);
        let p = nodes_requested(r, nodes, fresh, (n - 1) as nat);
        let s = node_requested(p, nodes[n - 1], fresh);
        match nodes[n - 1].resource_list {
            Some(list) if nodes[n - 1].is_visible => {
                lemma_list(p, list, fresh);
            },
            _ => {},
        }
        lemma_grown_trans(r, p, s);
        assert forall|i: int|
            0 <= i < n && (#[trigger] nodes[i]).is_visible && nodes[i].resource_list is Some implies met(
            s,
            nodes[i].resource_list.unwrap(),
        ) by {
            if i < n - 1 {
                assert(met(p, nodes[i].resource_list.unwrap()));
            }
        }
    }
}

/// Where the fresh identifiers are all different and stand for nothing yet, no image ever stands
/// for two things.
pub proof fn images_are_not_shared(r: Requested, nodes: Seq<AABBTreeNode>, fresh: Seq<ImageID>, n: nat)
    requires
        n <= nodes.len(),
        unshared(r, fresh),
        r.used + demand(nodes, n) <= fresh.len(),
    ensures
        unshared(nodes_requested(r, nodes, fresh, n), fresh),
        nodes_requested(r, nodes, fresh, n).used <= r.used + demand(nodes, n),
    decreases n,
{
    if n > 0 {
        images_are_not_shared(r, nodes, fresh, (n - 1) as nat);
        let p = nodes_requested(r, nodes, fresh, (n - 1) as nat);
        match nodes[n - 1].resource_list {
            Some(list) if nodes[n - 1].is_visible => {
                lemma_list(p, list, fresh);
            },
            _ => {},
        }
    }
}

/// Once everything that the visible nodes need has an image, requesting it again gives out no
/// identifier and rasterizes nothing.
pub proof fn nothing_is_made_twice(r: Requested, nodes: Seq<AABBTreeNode>, fresh: Seq<ImageID>, n: nat)
    requires
        n <= nodes.len(),
        forall|i: int|
            0 <= i < n && (#[trigger] nodes[i]).is_visible && nodes[i].resource_list is Some ==> met(
                r,
                nodes[i].resource_list.unwrap(),
            ),
    ensures
        ({
            let s = nodes_requested(r, nodes, fresh, n);
            &&& s.rasters == r.rasters
            &&& s.glyphs == r.glyphs
            &&& s.jobs == r.jobs
            &&& s.used == r.used
            &&& forall|i: int|
                r.steps.len() <= i < s.steps.len() ==> (#[trigger] s.steps[i]) is CheckImage
        }),
    decreases n,
{
    if n > 0 {
        nothing_is_made_twice(r, nodes, fresh, (n - 1) as nat);
        requests_are_met(r, nodes, fresh, (n - 1) as nat);
        let p = nodes_requested(r, nodes, fresh, (n - 1) as nat);
        match nodes[n - 1].resource_list {
            Some(list) if nodes[n - 1].is_visible => {
                assert(met(r, list));
                lemma_list(p, list, fresh);
            },
            _ => {},
        }
    }
}

/// One more glyph is needed.
proof fn lemma_glyph_made(
    before: Map<GlyphKey, ImageID>,
    p: Requested,
    needed: Set<GlyphKey>,
    fresh: Seq<ImageID>,
    key: GlyphKey,
)
    requires
        glyphs_made(before, p.glyphs, p.jobs, needed, fresh),
        p.used < fresh.len(),
    ensures
        ({
            let s = glyph_requested(p, key, fresh);
            glyphs_made(before, s.glyphs, s.jobs, needed.insert(key), fresh)
        }),
{
    let s = glyph_requested(p, key, fresh);
    let more = needed.insert(key);
    if p.glyphs.contains_key(key) {
        if needed.contains(key) {
            assert(more =~= needed);
        }
    } else {
        assert(fresh.contains(fresh[p.used as int]));
        assert forall|k: GlyphKey| #[trigger] more.contains(k) && !before.contains_key(k) implies exists|j: int|
            0 <= j < s.jobs.len() && (#[trigger] s.jobs[j]).glyph_key == k by {
            if k == key {
                assert(s.jobs[p.jobs.len() as int].glyph_key == k);
            } else {
                assert(needed.contains(k) && !before.contains_key(k));
                let j = choose|j: int| 0 <= j < p.jobs.len() && (#[trigger] p.jobs[j]).glyph_key == k;
                assert(s.jobs[j].glyph_key == k);
            }
        }
        assert forall|j: int| 0 <= j < s.jobs.len() implies {
            let job = #[trigger] s.jobs[j];
            &&& more.contains(job.glyph_key)
            &&& !before.contains_key(job.glyph_key)
            &&& s.glyphs[job.glyph_key] == job.image_id
            &&& fresh.contains(job.image_id)
        } by {
            if j < p.jobs.len() {
                assert(s.jobs[j] == p.jobs[j]);
                assert(p.glyphs.contains_key(p.jobs[j].glyph_key));
            }
        }
    }
}

proof fn lemma_glyphs_made(
    before: Map<GlyphKey, ImageID>,
    r: Requested,
    needed: Set<GlyphKey>,
    fresh: Seq<ImageID>,
    keys: Seq<GlyphKey>,
    n: nat,
)
    requires
        n <= keys.len(),
        glyphs_made(before, r.glyphs, r.jobs, needed, fresh),
        r.used + n <= fresh.len(),
    ensures
        ({
            let s = glyphs_requested(r, keys, fresh, n);
            glyphs_made(before, s.glyphs, s.jobs, needed.union(keys.take(n as int).to_set()), fresh)
        }),
    decreases n,
{
    if n == 0 {
        assert(needed.union(keys.take(0).to_set()) =~= needed);
    } else {
        let p = glyphs_requested(r, keys, fresh, (n - 1) as nat);
        let some = needed.union(keys.take(n - 1).to_set());
        lemma_glyphs_made(before, r, needed, fresh, keys, (n - 1) as nat);
        lemma_glyphs(r, keys, fresh, (n - 1) as nat);
        lemma_glyph_made(before, p, some, fresh, keys[n - 1]);
        lemma_take_next(keys, n as int);
        assert(needed.union(keys.take(n as int).to_set()) =~= some.insert(keys[n - 1]));
    }
}

proof fn lemma_take_next<A>(all: Seq<A>, n: int)
    requires
        0 < n <= all.len(),
    ensures
        all.take(n).to_set() == all.take(n - 1).to_set().insert(all[n - 1]),
{
    let few = all.take(n - 1);
    let many = all.take(n);
    assert forall|a: A| many.to_set().contains(a) <==> few.to_set().insert(all[n - 1]).contains(a) by {
        if many.contains(a) {
            let i = many.index_of(a);
            if i < n - 1 {
                assert(few[i] == a);
            }
        }
        if few.contains(a) {
            let i = few.index_of(a);
            assert(many[i] == a);
        }
        assert(many[n - 1] == all[n - 1]);
    }
    assert(many.to_set() =~= few.to_set().insert(all[n - 1]));
}

/// One more mask is needed.
proof fn lemma_raster_made(
    before: Map<RasterItem, ImageID>,
    p: Requested,
    needed: Set<RasterItem>,
    fresh: Seq<ImageID>,
    item: RasterItem,
)
    requires
        rasters_made(before, p.rasters, p.steps, needed, fresh),
        p.used < fresh.len(),
    ensures
        ({
            let s = raster_requested(p, item, fresh);
            rasters_made(before, s.rasters, s.steps, needed.insert(item), fresh)
        }),
{
    let s = raster_requested(p, item, fresh);
    let more = needed.insert(item);
    if p.rasters.contains_key(item) {
        if needed.contains(item) {
            assert(more =~= needed);
        }
    } else {
        assert(fresh.contains(fresh[p.used as int]));
        assert forall|k: RasterItem| #[trigger] more.contains(k) && !before.contains_key(k) implies exists|j: int|
            0 <= j < s.steps.len() && (#[trigger] s.steps[j]) is InsertRaster && s.steps[j]->item == k by {
            if k == item {
                let last = s.steps[p.steps.len() as int];
                assert(last is InsertRaster && last->item == k);
            } else {
                assert(needed.contains(k) && !before.contains_key(k));
                let j = choose|j: int|
                    0 <= j < p.steps.len() && (#[trigger] p.steps[j]) is InsertRaster && p.steps[j]->item == k;
                assert(s.steps[j] == p.steps[j]);
            }
        }
        assert forall|j: int| 0 <= j < s.steps.len() implies ((#[trigger] s.steps[j]) matches CacheStep::InsertRaster {
            image_id,
            item: made,
        } ==> {
            &&& more.contains(made)
            &&& !before.contains_key(made)
            &&& s.rasters[made] == image_id
            &&& fresh.contains(image_id)
        }) by {
            if j < p.steps.len() {
                assert(s.steps[j] == p.steps[j]);
                if p.steps[j] is InsertRaster {
                    assert(p.rasters.contains_key(p.steps[j]->item));
                }
            }
        }
        assert forall|i: int, j: int|
            0 <= i < j < s.steps.len() && (#[trigger] s.steps[i]) is InsertRaster && (
            #[trigger] s.steps[j]) is InsertRaster implies s.steps[i]->item != s.steps[j]->item by {
            assert(s.steps[i] == p.steps[i]);
            assert(p.rasters.contains_key(p.steps[i]->item));
            if j < p.steps.len() {
                assert(s.steps[j] == p.steps[j]);
            }
        }
    }
}

proof fn lemma_rasters_made(
    before: Map<RasterItem, ImageID>,
    r: Requested,
    needed: Set<RasterItem>,
    images: Set<ImageID>,
    fresh: Seq<ImageID>,
    items: Seq<RasterItem>,
    n: nat,
)
    requires
        n <= items.len(),
        rasters_made(before, r.rasters, r.steps, needed, fresh),
        images_checked(r.steps, images),
        r.used + n <= fresh.len(),
    ensures
        ({
            let s = rasters_requested(r, items, fresh, n);
            &&& rasters_made(before, s.rasters, s.steps, needed.union(items.take(n as int).to_set()), fresh)
            &&& images_checked(s.steps, images)
        }),
    decreases n,
{
    if n == 0 {
        assert(needed.union(items.take(0).to_set()) =~= needed);
    } else {
        let p = rasters_requested(r, items, fresh, (n - 1) as nat);
        let s = rasters_requested(r, items, fresh, n);
        let some = needed.union(items.take(n - 1).to_set());
        lemma_rasters_made(before, r, needed, images, fresh, items, (n - 1) as nat);
        lemma_rasters(r, items, fresh, (n - 1) as nat);
        lemma_raster_made(before, p, some, fresh, items[n - 1]);
        lemma_take_next(items, n as int);
        assert(needed.union(items.take(n as int).to_set()) =~= some.insert(items[n - 1]));
        assert forall|image_id: ImageID| #[trigger]
            images.contains(image_id) <==> s.steps.contains(CacheStep::CheckImage(image_id)) by {
            let check = CacheStep::CheckImage(image_id);
            if p.steps.contains(check) {
                assert(s.steps[p.steps.index_of(check)] == check);
            }
            if s.steps.contains(check) {
                assert(p.steps[s.steps.index_of(check)] == check);
            }
        }
    }
}

/// Looking at images generates no mask.
proof fn lemma_images_checked(
    before: Map<RasterItem, ImageID>,
    r: Requested,
    needed: Set<RasterItem>,
    images: Set<ImageID>,
    fresh: Seq<ImageID>,
    more: Seq<ImageID>,
)
    requires
        rasters_made(before, r.rasters, r.steps, needed, fresh),
        images_checked(r.steps, images),
    ensures
        ({
            let s = images_requested(r, more);
            &&& rasters_made(before, s.rasters, s.steps, needed, fresh)
            &&& images_checked(s.steps, images.union(more.to_set()))
        }),
{
    let s = images_requested(r, more);
    let checks = more.map_values(|image_id: ImageID| CacheStep::CheckImage(image_id));
    assert forall|i: int| 0 <= i < s.steps.len() && (#[trigger] s.steps[i]) is InsertRaster implies i < r.steps.len()
        && s.steps[i] == r.steps[i] by {
        if i >= r.steps.len() {
            assert(s.steps[i] == checks[i - r.steps.len()]);
        }
    }
    assert forall|item: RasterItem| #[trigger]
        needed.contains(item) && !before.contains_key(item) implies exists|j: int|
        0 <= j < s.steps.len() && (#[trigger] s.steps[j]) is InsertRaster && s.steps[j]->item == item by {
        let j = choose|j: int|
            0 <= j < r.steps.len() && (#[trigger] r.steps[j]) is InsertRaster && r.steps[j]->item == item;
        assert(s.steps[j] == r.steps[j]);
    }
    assert forall|image_id: ImageID| #[trigger]
        images.union(more.to_set()).contains(image_id) <==> s.steps.contains(CacheStep::CheckImage(image_id)) by {
        let check = CacheStep::CheckImage(image_id);
        if images.contains(image_id) {
            assert(s.steps[r.steps.index_of(check)] == check);
        }
        if more.contains(image_id) {
            let i = more.index_of(image_id);
            assert(s.steps[r.steps.len() + i] == check);
        }
        if s.steps.contains(check) {
            let i = s.steps.index_of(check);
            if i < r.steps.len() {
                assert(r.steps[i] == check);
            } else {
                assert(checks[i - r.steps.len()] == check);
                assert(more[i - r.steps.len()] == image_id);
            }
        }
    }
}

/// What visible nodes need and what had no image is made, each thing once, and nothing else: the
/// jobs are the new glyphs, the masks that are generated the new masks, and every image that is
/// needed is looked at.  What is made gets a fresh image, and the maps hold it.
pub proof fn what_is_needed_is_made(r: Requested, nodes: Seq<AABBTreeNode>, fresh: Seq<ImageID>, n: nat)
    requires
        n <= nodes.len(),
        r.steps.len() == 0,
        r.jobs.len() == 0,
        r.used + demand(nodes, n) <= fresh.len(),
    ensures
        ({
            let s = nodes_requested(r, nodes, fresh, n);
            &&& glyphs_made(r.glyphs, s.glyphs, s.jobs, needed_glyphs(nodes, n), fresh)
            &&& rasters_made(r.rasters, s.rasters, s.steps, needed_rasters(nodes, n), fresh)
            &&& images_checked(s.steps, needed_images(nodes, n))
            &&& s.used <= r.used + demand(nodes, n)
        }),
    decreases n,
{
    if n == 0 {
        assert(needed_glyphs(nodes, n) =~= Set::empty());
        assert(needed_rasters(nodes, n) =~= Set::empty());
        assert(needed_images(nodes, n) =~= Set::empty());
    } else {
        what_is_needed_is_made(r, nodes, fresh, (n - 1) as nat);
        let p = nodes_requested(r, nodes, fresh, (n - 1) as nat);
        let node = nodes[n - 1];
        let glyphs = needed_glyphs(nodes, (n - 1) as nat);
        let rasters = needed_rasters(nodes, (n - 1) as nat);
        let images = needed_images(nodes, (n - 1) as nat);
        lemma_needed(nodes, n);
        match node.resource_list {
            Some(list) if node.is_visible => {
                let a = rasters_requested(p, list.rasters@, fresh, list.rasters@.len());
                let b = images_requested(a, list.images@);
                lemma_rasters(p, list.rasters@, fresh, list.rasters@.len());
                lemma_rasters_made(r.rasters, p, rasters, images, fresh, list.rasters@, list.rasters@.len());
                assert(list.rasters@.take(list.rasters@.len() as int) =~= list.rasters@);
                lemma_images_checked(
                    r.rasters,
                    a,
                    rasters.union(list.rasters@.to_set()),
                    images,
                    fresh,
                    list.images@,
                );
                lemma_glyphs(b, list.glyphs@, fresh, list.glyphs@.len());
                lemma_glyphs_made(r.glyphs, b, glyphs, fresh, list.glyphs@, list.glyphs@.len());
                assert(list.glyphs@.take(list.glyphs@.len() as int) =~= list.glyphs@);
                assert(needed_glyphs(nodes, n) =~= glyphs.union(list.glyphs@.to_set()));
                assert(needed_rasters(nodes, n) =~= rasters.union(list.rasters@.to_set()));
                assert(needed_images(nodes, n) =~= images.union(list.images@.to_set()));
            },
            _ => {
                assert(needed_glyphs(nodes, n) =~= glyphs);
                assert(needed_rasters(nodes, n) =~= rasters);
                assert(needed_images(nodes, n) =~= images);
            },
        }
    }
}

/// What the first nodes need is what all but the last need, and what the last needs.
proof fn lemma_needed(nodes: Seq<AABBTreeNode>, n: nat)
    requires
        0 < n <= nodes.len(),
    ensures
        forall|key: GlyphKey| #[trigger]
            needed_glyphs(nodes, n).contains(key) <==> needed_glyphs(nodes, (n - 1) as nat).contains(key)
                || needs_glyph(nodes[n - 1], key),
        forall|item: RasterItem| #[trigger]
            needed_rasters(nodes, n).contains(item) <==> needed_rasters(nodes, (n - 1) as nat).contains(item)
                || needs_raster(nodes[n - 1], item),
        forall|image_id: ImageID| #[trigger]
            needed_images(nodes, n).contains(image_id) <==> needed_images(nodes, (n - 1) as nat).contains(image_id)
                || needs_image(nodes[n - 1], image_id),
{
}

/// Asking again at once, with whatever fresh identifiers, makes nothing: no glyph is rasterized, no
/// mask generated, no identifier given out, and the maps stay as they are.
pub proof fn asking_again_makes_nothing(
    r: Requested,
    nodes: Seq<AABBTreeNode>,
    fresh: Seq<ImageID>,
    again: Seq<ImageID>,
)
    ensures
        ({
            let s = nodes_requested(r, nodes, fresh, nodes.len());
            let t = nodes_requested(
                Requested { steps: Seq::empty(), jobs: Seq::empty(), used: 0, ..s },
                nodes,
                again,
                nodes.len(),
            );
            &&& t.jobs.len() == 0
            &&& t.used == 0
            &&& t.glyphs == s.glyphs
            &&& t.rasters == s.rasters
            &&& forall|i: int| 0 <= i < t.steps.len() ==> (#[trigger] t.steps[i]) is CheckImage
        }),
{
    let s = nodes_requested(r, nodes, fresh, nodes.len());
    requests_are_met(r, nodes, fresh, nodes.len());
    let start = Requested { steps: Seq::empty(), jobs: Seq::empty(), used: 0, ..s };
    assert forall|i: int|
        0 <= i < nodes.len() && (#[trigger] nodes[i]).is_visible && nodes[i].resource_list is Some implies met(
        start,
        nodes[i].resource_list.unwrap(),
    ) by {
        assert(met(s, nodes[i].resource_list.unwrap()));
    }
    nothing_is_made_twice(start, nodes, again, nodes.len());
}

/// A glyph that is not blurred is as large as its image; a blur makes it larger in proportion to its radius.
pub proof fn glyphs_grow_with_their_blur(key: GlyphKey, blur_radius_px: u32, inflation: u32)
    ensures
        key.blur_radius == 0 ==> blur_growth(key, blur_radius_px, inflation) == 0,
        key.blur_radius != 0 ==> blur_growth(key, blur_radius_px, inflation) == blur_radius_px * inflation,
{
}

/// Each visible node asks for as many identifiers as it needs masks and glyphs, a hidden one for none.
pub proof fn visible_nodes_ask_for_identifiers(nodes: Seq<AABBTreeNode>, n: nat)
    requires
        n < nodes.len(),
    ensures
        demand(nodes, 0) == 0,
        !nodes[n as int].is_visible ==> demand(nodes, n + 1) == demand(nodes, n),
        nodes[n as int].is_visible && nodes[n as int].resource_list is Some ==> demand(nodes, n + 1) == demand(nodes, n)
            + nodes[n as int].resource_list.unwrap().rasters@.len() + nodes[n as int].resource_list.unwrap().glyphs@.len(),
{
}

} // verus!
