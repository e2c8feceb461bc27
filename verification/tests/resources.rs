use fnv::FnvHashMap;
use render_backend::display::{
    BorderDisplayItem, BorderRadius, BorderSide, BorderStyle, BoxShadowClipMode, BoxShadowDisplayItem, ClipRegion,
    ComplexClipRegion, DisplayItem, DrawList, GlyphInstance, ImageDisplayItem, SpecificDisplayItem, TextDisplayItem,
};
use render_backend::geometry::{ColorF, DeviceSize, Point2D, Rect, Size2D};
use render_backend::ids::{
    DisplayItemKey, FontId, ImageID, NodeIndex, RenderTargetIndex, TransformIndex,
};
use render_backend::images::{
    mask_for_border_radius, mask_for_corner, GlyphToImageMap, MaskChoice, RasterToImageMap,
};
use render_backend::length::{Extent, Length};
use render_backend::node::{
    AABBTreeNode, BorderRadiusRasterOp, BoxShadowCornerRasterOp, GlyphKey, RasterItem, ResourceList,
};
use render_backend::resources::ResourceRequest;
use render_backend::scalar::Scalar;
use render_backend::scene::{DrawContext, FlatDrawList, Scene};
use render_backend::uploads::{
    glyph_upload, image_upload, CacheStep, GlyphRasterJob, ImageFormat, ImageResource, ImageUpload, RasterizedGlyph,
    TextureInsertOp,
};

fn s(value: f32) -> Scalar {
    Scalar { bits: value.to_bits() }
}

fn rect() -> Rect {
    Rect {
        origin: Point2D { x: s(0.0), y: s(0.0) },
        size: Size2D { width: s(1.0), height: s(1.0) },
    }
}

fn white() -> ColorF {
    ColorF { r: s(1.0), g: s(1.0), b: s(1.0), a: s(1.0) }
}

fn radii(n: f32) -> BorderRadius {
    let size = |d: f32| Size2D { width: s(n + d), height: s(n + d) };
    BorderRadius { top_left: size(0.0), top_right: size(1.0), bottom_left: size(2.0), bottom_right: size(3.0) }
}

fn item(item: SpecificDisplayItem, rounded: Vec<f32>) -> DisplayItem {
    let complex = rounded.into_iter().map(|n| ComplexClipRegion { rect: rect(), radii: radii(n) }).collect();
    DisplayItem { item, rect: rect(), clip: ClipRegion { main: rect(), complex }, node_index: None }
}

fn flat(items: Vec<DisplayItem>) -> FlatDrawList {
    let mut draw_list = DrawList::new();
    for item in items {
        draw_list.push(item);
    }
    FlatDrawList {
        id: None,
        draw_context: DrawContext {
            render_target_index: RenderTargetIndex(0),
            overflow: rect(),
            device_pixel_ratio: s(1.0),
            final_transform: TransformIndex(0),
        },
        draw_list,
    }
}

fn node(keys: Vec<(u32, u32)>) -> AABBTreeNode {
    AABBTreeNode {
        node_index: NodeIndex(0),
        is_visible: true,
        src_items: keys.into_iter().map(|(l, i)| DisplayItemKey::new(l, i)).collect(),
        resource_list: None,
        compiled_node: None,
    }
}

fn number(length: &Length) -> f32 {
    match length {
        Length::Given(value) => f32::from_bits(value.bits),
        Length::Whole(value) => *value as f32,
        Length::Quotient(a, b) => number(a) / number(b),
        other => panic!("{:?}", other),
    }
}

fn size(extent: &Extent) -> (f32, f32) {
    (number(&extent.width), number(&extent.height))
}

fn outer_and_inner(request: &ResourceRequest) -> ((f32, f32), (f32, f32)) {
    match request {
        ResourceRequest::Radius { outer, inner } => (size(outer), size(inner)),
        other => panic!("{:?}", other),
    }
}

#[test]
fn clips_need_masks() {
    let image = ImageDisplayItem { image_id: ImageID(9), stretch_size: rect().size };
    let lists = vec![flat(vec![item(SpecificDisplayItem::Image(image), vec![1.0, 10.0])])];
    let requests = node(vec![(0, 0)]).build_resource_list(&lists);
    assert_eq!(requests.len(), 9);
    let found: Vec<((f32, f32), (f32, f32))> = requests[..8].iter().map(outer_and_inner).collect();
    let outers: Vec<f32> = found.iter().map(|r| r.0 .0).collect();
    assert_eq!(outers, vec![1.0, 2.0, 3.0, 4.0, 10.0, 11.0, 12.0, 13.0]);
    assert!(found.iter().all(|r| r.1 == (0.0, 0.0)));
    assert!(matches!(requests[8], ResourceRequest::Image(ImageID(9))));
}

#[test]
fn borders_need_masks_for_corners_and_dots() {
    let side = |width: f32, style: BorderStyle| BorderSide { width: s(width), color: white(), style };
    let info = BorderDisplayItem {
        left: side(4.0, BorderStyle::Dotted),
        right: side(6.0, BorderStyle::Solid),
        top: side(8.0, BorderStyle::Dotted),
        bottom: side(10.0, BorderStyle::Dashed),
        radius: radii(20.0),
        inner_radius: radii(15.0),
    };
    let lists = vec![flat(vec![item(SpecificDisplayItem::Border(info), vec![])])];
    let requests = node(vec![(0, 0)]).build_resource_list(&lists);
    let found: Vec<((f32, f32), (f32, f32))> = requests.iter().map(outer_and_inner).collect();
    assert_eq!(
        found,
        vec![
            ((20.0, 20.0), (15.0, 15.0)),
            ((21.0, 21.0), (16.0, 16.0)),
            ((22.0, 22.0), (17.0, 17.0)),
            ((23.0, 23.0), (18.0, 18.0)),
            ((4.0, 4.0), (0.0, 0.0)),
            ((2.0, 2.0), (0.0, 0.0)),
        ]
    );
}

#[test]
fn text_and_shadows_need_images() {
    let glyph = |index: u32| GlyphInstance { index, x: s(0.0), y: s(0.0) };
    let text = TextDisplayItem {
        font_id: FontId(3),
        size: 720,
        blur_radius: 60,
        color: white(),
        glyphs: vec![glyph(5), glyph(6)],
    };
    let shadow = BoxShadowDisplayItem {
        box_bounds: rect(),
        offset: rect().origin,
        color: white(),
        blur_radius: s(2.0),
        spread_radius: s(0.0),
        border_radius: s(4.0),
        clip_mode: BoxShadowClipMode::Unclipped,
    };
    let lists = vec![
        flat(vec![item(SpecificDisplayItem::Text(text), vec![])]),
        flat(vec![item(SpecificDisplayItem::BoxShadow(shadow), vec![])]),
    ];
    let requests = node(vec![(0, 0), (1, 0)]).build_resource_list(&lists);
    assert_eq!(requests.len(), 3);
    let key = |index: u32| GlyphKey { font_id: FontId(3), size: 720, blur_radius: 60, index };
    match (&requests[0], &requests[1]) {
        (ResourceRequest::Glyph(a), ResourceRequest::Glyph(b)) => {
            assert_eq!(*a, key(5));
            assert_eq!(*b, key(6));
        }
        other => panic!("{:?}", other),
    }
    match &requests[2] {
        ResourceRequest::ShadowCorner { blur_radius, border_radius } => {
            assert_eq!((*blur_radius, *border_radius), (s(2.0), s(4.0)));
        }
        other => panic!("{:?}", other),
    }
    let mask = RasterItem::BoxShadowCorner(BoxShadowCornerRasterOp { blur_radius: 120, border_radius: 240 });
    let list = ResourceList::from_requests(&requests, &vec![None, None, Some(mask)]);
    assert_eq!(list.glyphs, vec![key(5), key(6)]);
    assert_eq!(list.rasters, vec![mask]);
    assert!(list.images.is_empty());
    let list = ResourceList::from_requests(&requests, &vec![Some(mask), None, None]);
    assert!(list.rasters.is_empty());
}

fn round(outer: i32, inner: i32) -> RasterItem {
    RasterItem::BorderRadius(BorderRadiusRasterOp {
        outer_radius_x: outer,
        outer_radius_y: outer,
        inner_radius_x: inner,
        inner_radius_y: inner,
    })
}

#[test]
fn masks_have_images_of_their_own() {
    let mut map = RasterToImageMap::new();
    let corner = |a: i32, b: i32| {
        RasterItem::BoxShadowCorner(BoxShadowCornerRasterOp { blur_radius: a, border_radius: b })
    };
    let items = vec![round(60, 0), round(0, 60), round(-60, 0), corner(60, 0), corner(0, 60), corner(-1, -1)];
    for (n, item) in items.iter().enumerate() {
        assert_eq!(map.get(item), None);
        map.insert(item, ImageID(n as u64));
    }
    for (n, item) in items.iter().enumerate() {
        assert_eq!(map.get(item), Some(ImageID(n as u64)));
    }
    map.insert(&items[0], ImageID(50));
    assert_eq!(map.get(&items[0]), Some(ImageID(50)));
    assert_eq!(map.get(&items[1]), Some(ImageID(1)));
}

#[test]
fn masks_are_chosen() {
    let mut map = RasterToImageMap::new();
    map.insert(&round(120, 0), ImageID(8));
    assert_eq!(mask_for_border_radius(&map, s(0.0), 0), MaskChoice::Dummy);
    assert_eq!(mask_for_border_radius(&map, s(-0.0), 0), MaskChoice::Dummy);
    assert_eq!(mask_for_border_radius(&map, s(2.0), 120), MaskChoice::Cached(ImageID(8)));
    assert_eq!(mask_for_border_radius(&map, s(3.0), 180), MaskChoice::Missing(round(180, 0)));
    assert_eq!(mask_for_corner(&map, None), MaskChoice::Dummy);
    assert_eq!(mask_for_corner(&map, Some(round(120, 0))), MaskChoice::Cached(ImageID(8)));
    assert_eq!(mask_for_corner(&map, Some(round(120, 60))), MaskChoice::Missing(round(120, 60)));
}

#[test]
fn runs_find_their_images() {
    let mut map = GlyphToImageMap::new();
    let key = |index: u32| GlyphKey { font_id: FontId(3), size: -1, blur_radius: 60, index };
    map.insert(&key(5), ImageID(1));
    map.insert(&key(6), ImageID(2));
    let other = GlyphKey { font_id: FontId(4), ..key(5) };
    assert_eq!(map.get(&other), None);
    let glyph = |index: u32| GlyphInstance { index, x: s(0.0), y: s(0.0) };
    let mut text = TextDisplayItem {
        font_id: FontId(3),
        size: -1,
        blur_radius: 60,
        color: white(),
        glyphs: vec![glyph(6), glyph(5), glyph(6)],
    };
    assert_eq!(map.images_for(&text), Ok(vec![ImageID(2), ImageID(1), ImageID(2)]));
    text.glyphs.push(glyph(7));
    text.glyphs.push(glyph(8));
    assert_eq!(map.images_for(&text), Err(key(7)));
}

fn scene(lists: Vec<(bool, Option<ResourceList>)>) -> Scene {
    let mut scene = Scene::new();
    for (visible, resource_list) in lists {
        scene.nodes.push(AABBTreeNode {
            node_index: NodeIndex(0),
            is_visible: visible,
            src_items: Vec::new(),
            resource_list,
            compiled_node: None,
        });
    }
    scene
}

fn resources(rasters: Vec<RasterItem>, images: Vec<u64>, glyphs: Vec<u32>) -> ResourceList {
    ResourceList {
        rasters,
        images: images.into_iter().map(ImageID).collect(),
        glyphs: glyphs
            .into_iter()
            .map(|index| GlyphKey { font_id: FontId(1), size: 60, blur_radius: 0, index })
            .collect(),
    }
}

#[test]
fn images_are_made_once() {
    let scene = scene(vec![
        (true, Some(resources(vec![round(60, 0), round(60, 0)], vec![70, 71], vec![1, 2, 1]))),
        (false, Some(resources(vec![round(90, 0)], vec![72], vec![3]))),
        (true, Some(resources(vec![round(30, 0)], vec![70], vec![2]))),
    ]);
    assert_eq!(scene.resource_demand(), Some(7));
    let mut rasters = RasterToImageMap::new();
    let mut glyphs = GlyphToImageMap::new();
    let fresh: Vec<ImageID> = (100..107).map(ImageID).collect();
    let work = scene.update_texture_cache_and_build_raster_jobs(&mut rasters, &mut glyphs, &fresh);
    assert_eq!(work.used, 4);
    assert_eq!(
        work.steps,
        vec![
            CacheStep::InsertRaster { image_id: ImageID(100), item: round(60, 0) },
            CacheStep::CheckImage(ImageID(70)),
            CacheStep::CheckImage(ImageID(71)),
            CacheStep::InsertRaster { image_id: ImageID(103), item: round(30, 0) },
            CacheStep::CheckImage(ImageID(70)),
        ]
    );
    let key = |index: u32| GlyphKey { font_id: FontId(1), size: 60, blur_radius: 0, index };
    assert_eq!(
        work.jobs,
        vec![
            GlyphRasterJob { image_id: ImageID(101), glyph_key: key(1) },
            GlyphRasterJob { image_id: ImageID(102), glyph_key: key(2) },
        ]
    );
    assert_eq!(rasters.get(&round(30, 0)), Some(ImageID(103)));
    assert_eq!(rasters.get(&round(90, 0)), None);
    assert_eq!(glyphs.get(&key(2)), Some(ImageID(102)));

    let again = scene.update_texture_cache_and_build_raster_jobs(&mut rasters, &mut glyphs, &fresh);
    assert_eq!(again.used, 0);
    assert!(again.jobs.is_empty());
    assert!(again.steps.iter().all(|step| matches!(step, CacheStep::CheckImage(_))));
    assert_eq!(rasters.get(&round(60, 0)), Some(ImageID(100)));
}

#[test]
fn visible_nodes_need_a_list() {
    assert_eq!(scene(vec![(false, None)]).resource_demand(), Some(0));
    assert_eq!(scene(vec![(true, None)]).resource_demand(), None);
}

#[test]
fn images_are_uploaded_if_they_are_not_cached() {
    let mut templates: FnvHashMap<u64, ImageResource> = FnvHashMap::default();
    templates.insert(
        4,
        ImageResource { bytes: vec![1, 2, 3], width: 3, height: 1, format: ImageFormat::RGB8 },
    );
    assert_eq!(image_upload(&templates, ImageID(4), true), ImageUpload::Cached);
    assert_eq!(image_upload(&templates, ImageID(5), false), ImageUpload::Missing);
    match image_upload(&templates, ImageID(4), false) {
        ImageUpload::Upload(insert) => {
            assert_eq!((insert.image_id, insert.x0, insert.y0), (ImageID(4), 0, 0));
            assert_eq!((insert.width, insert.height), (3, 1));
            assert_eq!(insert.format, ImageFormat::RGB8);
            assert_eq!(insert.op, TextureInsertOp::Blit(vec![1, 2, 3]));
        }
        other => panic!("{:?}", other),
    }
}

#[test]
fn blurred_glyphs_take_more_room() {
    let job = |blur_radius: i32| GlyphRasterJob {
        image_id: ImageID(6),
        glyph_key: GlyphKey { font_id: FontId(1), size: 60, blur_radius, index: 2 },
    };
    let glyph = |width: u32| RasterizedGlyph { left: -1, top: 7, width, height: 5, bytes: vec![9] };
    let plain = glyph_upload(&job(0), glyph(4), 10, 3).unwrap();
    assert_eq!((plain.x0, plain.y0, plain.width, plain.height), (-1, 7, 4, 5));
    assert_eq!(plain.format, ImageFormat::A8);
    assert_eq!(plain.op, TextureInsertOp::Blit(vec![9]));
    let blurred = glyph_upload(&job(60), glyph(4), 10, 3).unwrap();
    assert_eq!((blurred.width, blurred.height), (34, 35));
    assert_eq!(
        blurred.op,
        TextureInsertOp::Blur(vec![9], DeviceSize { width: 4, height: 5 }, 60)
    );
    assert!(glyph_upload(&job(60), glyph(u32::MAX), 1, 1).is_none());
    assert!(glyph_upload(&job(60), glyph(1), u32::MAX, u32::MAX).is_none());
    assert!(glyph_upload(&job(0), glyph(u32::MAX), 1, 1).is_some());
}

#[test]
fn known_glyphs_are_not_rasterized() {
    let scene = scene(vec![
        (true, Some(resources(vec![], vec![], vec![5, 1]))),
        (true, Some(resources(vec![], vec![], vec![1, 6]))),
    ]);
    let key = |index: u32| GlyphKey { font_id: FontId(1), size: 60, blur_radius: 0, index };
    let mut rasters = RasterToImageMap::new();
    let mut glyphs = GlyphToImageMap::new();
    glyphs.insert(&key(1), ImageID(40));
    glyphs.insert(&key(9), ImageID(41));
    let fresh: Vec<ImageID> = (100..104).map(ImageID).collect();
    let work = scene.update_texture_cache_and_build_raster_jobs(&mut rasters, &mut glyphs, &fresh);
    assert_eq!(
        work.jobs,
        vec![
            GlyphRasterJob { image_id: ImageID(100), glyph_key: key(5) },
            GlyphRasterJob { image_id: ImageID(101), glyph_key: key(6) },
        ]
    );
    assert_eq!(glyphs.get(&key(1)), Some(ImageID(40)));
    assert_eq!(glyphs.get(&key(9)), Some(ImageID(41)));
    assert_eq!(glyphs.get(&key(5)), Some(ImageID(100)));
    assert_eq!(glyphs.get(&key(6)), Some(ImageID(101)));
    assert_eq!(glyphs.get(&key(7)), None);
}
