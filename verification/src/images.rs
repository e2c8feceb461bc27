//! Which image of the texture cache holds which mask or glyph.
use crate::display::{TextDisplayItem, TextView};
use crate::ids::ImageID;
use crate::node::{BorderRadiusRasterOp, BoxShadowCornerRasterOp, GlyphKey, RasterItem};
use crate::resources::glyph_key;
use crate::scalar::Scalar;
use crate::tables;
use fnv::FnvHashMap;
use vstd::prelude::*;

verus! {

/// A signed number, moved into the range of the unsigned ones.
pub open spec fn lifted(n: i32) -> int {
    n + 0x8000_0000
}

/// Two numbers in one, the second with thirty-two bits.
pub open spec fn packed(high: int, low: int) -> int {
    high * 0x1_0000_0000 + low
}

/// The number under which the mask of a rounded corner is kept.
pub open spec fn radius_number(op: BorderRadiusRasterOp) -> int {
    packed(
        packed(
            packed(lifted(op.outer_radius_x), lifted(op.outer_radius_y)),
            lifted(op.inner_radius_x),
        ),
        lifted(op.inner_radius_y),
    )
}

/// The number under which the mask of a shadow's corner is kept.
pub open spec fn corner_number(op: BoxShadowCornerRasterOp) -> int {
    packed(lifted(op.blur_radius), lifted(op.border_radius))
}

/// The number under which a glyph is kept.
pub open spec fn glyph_number(key: GlyphKey) -> int {
    packed(
        packed(packed(key.font_id.0 as int, lifted(key.size)), lifted(key.blur_radius)),
        key.index as int,
    )
}

fn lift(n: i32) -> (r: u128)
    ensures
        r == lifted(n),
        r < 0x1_0000_0000,
{
    (n as i64 + 0x8000_0000) as u128
}

fn pack(high: u128, low: u128) -> (r: u128)
    requires
        high < 0x1_0000_0000_0000_0000_0000_0000,
        low < 0x1_0000_0000,
    ensures
        r == packed(high as int, low as int),
{
    high * 0x1_0000_0000 + low
}

fn radius_key(op: &BorderRadiusRasterOp) -> (r: u128)
    ensures
        r == radius_number(*op),
{
    let outer = pack(lift(op.outer_radius_x), lift(op.outer_radius_y));
    pack(pack(outer, lift(op.inner_radius_x)), lift(op.inner_radius_y))
}

fn corner_key(op: &BoxShadowCornerRasterOp) -> (r: u64)
    ensures
        r == corner_number(*op),
{
    pack(lift(op.blur_radius), lift(op.border_radius)) as u64
}

fn glyph_table_key(key: &GlyphKey) -> (r: u128)
    ensures
        r == glyph_number(*key),
{
    let font = pack(key.font_id.0 as u128, lift(key.size));
    pack(pack(font, lift(key.blur_radius)), key.index as u128)
}

proof fn lemma_packed(h: int, l: int, k: int, m: int)
    requires
        0 <= l < 0x1_0000_0000,
        0 <= m < 0x1_0000_0000,
    ensures
        packed(h, l) == packed(k, m) ==> h == k && l == m,
{
}

proof fn lemma_packed_range(h: int, l: int, bound: int)
    requires
        0 <= h < bound,
        0 <= l < 0x1_0000_0000,
    ensures
        0 <= packed(h, l) < bound * 0x1_0000_0000,
{
}

proof fn lemma_radius_numbers(a: BorderRadiusRasterOp, b: BorderRadiusRasterOp)
    ensures
        radius_number(a) == radius_number(b) ==> a == b,
        0 <= radius_number(a) <= u128::MAX,
{
    let a2 = packed(lifted(a.outer_radius_x), lifted(a.outer_radius_y));
    let b2 = packed(lifted(b.outer_radius_x), lifted(b.outer_radius_y));
    let a3 = packed(a2, lifted(a.inner_radius_x));
    let b3 = packed(b2, lifted(b.inner_radius_x));
    lemma_packed(a3, lifted(a.inner_radius_y), b3, lifted(b.inner_radius_y));
    lemma_packed(a2, lifted(a.inner_radius_x), b2, lifted(b.inner_radius_x));
    lemma_packed(
        lifted(a.outer_radius_x),
        lifted(a.outer_radius_y),
        lifted(b.outer_radius_x),
        lifted(b.outer_radius_y),
    );
    lemma_packed_range(lifted(a.outer_radius_x), lifted(a.outer_radius_y), 0x1_0000_0000);
    lemma_packed_range(a2, lifted(a.inner_radius_x), 0x1_0000_0000_0000_0000);
    lemma_packed_range(a3, lifted(a.inner_radius_y), 0x1_0000_0000_0000_0000_0000_0000);
}

proof fn lemma_corner_numbers(a: BoxShadowCornerRasterOp, b: BoxShadowCornerRasterOp)
    ensures
        corner_number(a) == corner_number(b) ==> a == b,
        0 <= corner_number(a) <= u64::MAX,
{
    lemma_packed(lifted(a.blur_radius), lifted(a.border_radius), lifted(b.blur_radius), lifted(b.border_radius));
}

proof fn lemma_glyph_numbers(a: GlyphKey, b: GlyphKey)
    ensures
        glyph_number(a) == glyph_number(b) ==> a == b,
        0 <= glyph_number(a) <= u128::MAX,
{
    let a2 = packed(a.font_id.0 as int, lifted(a.size));
    let b2 = packed(b.font_id.0 as int, lifted(b.size));
    let a3 = packed(a2, lifted(a.blur_radius));
    let b3 = packed(b2, lifted(b.blur_radius));
    lemma_packed(a3, a.index as int, b3, b.index as int);
    lemma_packed(a2, lifted(a.blur_radius), b2, lifted(b.blur_radius));
    lemma_packed(a.font_id.0 as int, lifted(a.size), b.font_id.0 as int, lifted(b.size));
    lemma_packed_range(a.font_id.0 as int, lifted(a.size), 0x1_0000_0000);
    lemma_packed_range(a2, lifted(a.blur_radius), 0x1_0000_0000_0000_0000);
    lemma_packed_range(a3, a.index as int, 0x1_0000_0000_0000_0000_0000_0000);
}

/// The images of the generated masks.
#[derive(Debug)]
pub struct RasterToImageMap {
    pub radii: FnvHashMap<u128, ImageID>,
    pub corners: FnvHashMap<u64, ImageID>,
}

impl View for RasterToImageMap {
    type V = Map<RasterItem, ImageID>;

    open spec fn view(&self) -> Map<RasterItem, ImageID> {
        Map::new(
            |item: RasterItem|
                match item {
                    RasterItem::BorderRadius(op) => self.radii@.contains_key(radius_number(op) as u128),
                    RasterItem::BoxShadowCorner(op) => self.corners@.contains_key(
                        corner_number(op) as u64,
                    ),
                },
            |item: RasterItem|
                match item {
                    RasterItem::BorderRadius(op) => self.radii@[radius_number(op) as u128],
                    RasterItem::BoxShadowCorner(op) => self.corners@[corner_number(op) as u64],
                },
        )
    }
}

impl RasterToImageMap {
    /// A map without masks.
    pub fn new() -> (map: RasterToImageMap)
        ensures
            map@ == Map::<RasterItem, ImageID>::empty(),
    {
        let map = RasterToImageMap { radii: FnvHashMap::default(), corners: FnvHashMap::default() };
        assert(map@ =~= Map::<RasterItem, ImageID>::empty());
        map
    }

    /// The image of a mask.
    pub fn get(&self, item: &RasterItem) -> (image: Option<ImageID>)
        ensures
            image == (if self@.contains_key(*item) {
                Some(self@[*item])
            } else {
                None
            }),
    {
        let found = match item {
            RasterItem::BorderRadius(op) => tables::get(&self.radii, &radius_key(op)),
            RasterItem::BoxShadowCorner(op) => tables::get(&self.corners, &corner_key(op)),
        };
        match found {
            Some(image) => Some(*image),
            None => None,
        }
    }

    /// Notes the image of a mask.
    pub fn insert(&mut self, item: &RasterItem, image: ImageID)
        ensures
            final(self)@ == old(self)@.insert(*item, image),
    {
        match item {
            RasterItem::BorderRadius(op) => {
                tables::insert(&mut self.radii, radius_key(op), image);
            },
            RasterItem::BoxShadowCorner(op) => {
                tables::insert(&mut self.corners, corner_key(op), image);
            },
        }
        proof {
            assert forall|other: RasterItem| #[trigger] self@.contains_key(other) <==> old(self)@.insert(
                *item,
                image,
            ).contains_key(other) by {
                lemma_raster_items(*item, other);
            }
            assert forall|other: RasterItem| #[trigger] self@.contains_key(other) implies self@[other]
                == old(self)@.insert(*item, image)[other] by {
                lemma_raster_items(*item, other);
            }
            assert(self@ =~= old(self)@.insert(*item, image));
        }
    }
}

proof fn lemma_raster_items(a: RasterItem, b: RasterItem)
    ensures
        match (a, b) {
            (RasterItem::BorderRadius(a), RasterItem::BorderRadius(b)) => radius_number(a) as u128
                == radius_number(b) as u128 ==> a == b,
            (RasterItem::BoxShadowCorner(a), RasterItem::BoxShadowCorner(b)) => corner_number(a) as u64
                == corner_number(b) as u64 ==> a == b,
            _ => true,
        },
{
    match (a, b) {
        (RasterItem::BorderRadius(a), RasterItem::BorderRadius(b)) => {
            lemma_radius_numbers(a, b);
            lemma_radius_numbers(b, a);
        },
        (RasterItem::BoxShadowCorner(a), RasterItem::BoxShadowCorner(b)) => {
            lemma_corner_numbers(a, b);
            lemma_corner_numbers(b, a);
        },
        _ => {},
    }
}

/// The images of the glyphs.
#[derive(Debug)]
pub struct GlyphToImageMap {
    pub glyphs: FnvHashMap<u128, ImageID>,
}

impl View for GlyphToImageMap {
    type V = Map<GlyphKey, ImageID>;

    open spec fn view(&self) -> Map<GlyphKey, ImageID> {
        Map::new(
            |key: GlyphKey| self.glyphs@.contains_key(glyph_number(key) as u128),
            |key: GlyphKey| self.glyphs@[glyph_number(key) as u128],
        )
    }
}

impl GlyphToImageMap {
    /// A map without glyphs.
    pub fn new() -> (map: GlyphToImageMap)
        ensures
            map@ == Map::<GlyphKey, ImageID>::empty(),
    {
        let map = GlyphToImageMap { glyphs: FnvHashMap::default() };
        assert(map@ =~= Map::<GlyphKey, ImageID>::empty());
        map
    }

    /// The image of a glyph.
    pub fn get(&self, key: &GlyphKey) -> (image: Option<ImageID>)
        ensures
            image == (if self@.contains_key(*key) {
                Some(self@[*key])
            } else {
                None
            }),
    {
        match tables::get(&self.glyphs, &glyph_table_key(key)) {
            Some(image) => Some(*image),
            None => None,
        }
    }

    /// Notes the image of a glyph.
    pub fn insert(&mut self, key: &GlyphKey, image: ImageID)
        ensures
            final(self)@ == old(self)@.insert(*key, image),
    {
        tables::insert(&mut self.glyphs, glyph_table_key(key), image);
        proof {
            assert forall|other: GlyphKey| #[trigger] self@.contains_key(other) <==> old(self)@.insert(
                *key,
                image,
            ).contains_key(other) by {
                lemma_glyph_numbers(*key, other);
                lemma_glyph_numbers(other, *key);
            }
            assert forall|other: GlyphKey| #[trigger] self@.contains_key(other) implies self@[other]
                == old(self)@.insert(*key, image)[other] by {
                lemma_glyph_numbers(*key, other);
                lemma_glyph_numbers(other, *key);
            }
            assert(self@ =~= old(self)@.insert(*key, image));
        }
    }
}

/// The mask that a shape is drawn under.
#[derive(Clone, Copy, Debug, PartialEq, Eq, Structural)]
pub enum MaskChoice {
    /// The mask that hides nothing.
    Dummy,
    /// A mask of the texture cache.
    Cached(ImageID),
    /// A mask that should have been made, and was not.
    Missing(RasterItem),
}

/// The mask that stands for a raster item, or none where none is needed.
pub open spec fn mask_choice(map: Map<RasterItem, ImageID>, item: Option<RasterItem>) -> MaskChoice {
    match item {
        None => MaskChoice::Dummy,
        Some(item) => if map.contains_key(item) {
            MaskChoice::Cached(map[item])
        } else {
            MaskChoice::Missing(item)
        },
    }
}

/// A corner that is equally round in both directions, without a hole.
pub open spec fn round_corner(radius: i32) -> RasterItem {
    RasterItem::BorderRadius(
        BorderRadiusRasterOp {
            outer_radius_x: radius,
            outer_radius_y: radius,
            inner_radius_x: 0,
            inner_radius_y: 0,
        },
    )
}

/// The mask of a corner: of the given raster item, or the dummy where the corner needs none.
pub fn mask_for_corner(raster_to_image_map: &RasterToImageMap, item: Option<RasterItem>) -> (mask: MaskChoice)
    ensures
        mask == mask_choice(raster_to_image_map@, item),
{
    match item {
        None => MaskChoice::Dummy,
        Some(item) => {
            match raster_to_image_map.get(&item) {
                Some(image) => MaskChoice::Cached(image),
                None => MaskChoice::Missing(item),
            }
        },
    }
}

/// The mask of a clip with round corners: none for the radius zero.  `radius_units` is the
/// radius in app units.
pub fn mask_for_border_radius(
    raster_to_image_map: &RasterToImageMap,
    border_radius: Scalar,
    radius_units: i32,
) -> (mask: MaskChoice)
    ensures
        mask == (if border_radius.same(Scalar { bits: 0 }) {
            MaskChoice::Dummy
        } else {
            mask_choice(raster_to_image_map@, Some(round_corner(radius_units)))
        }),
{
    if border_radius.equals(Scalar::zero()) {
        return MaskChoice::Dummy;
    }
    let item = RasterItem::BorderRadius(
        BorderRadiusRasterOp {
            outer_radius_x: radius_units,
            outer_radius_y: radius_units,
            inner_radius_x: 0,
            inner_radius_y: 0,
        },
    );
    mask_for_corner(raster_to_image_map, Some(item))
}

/// The images of the first `n` glyphs of a text run, or the first glyph that has none.
pub open spec fn run_images(
    map: Map<GlyphKey, ImageID>,
    text: TextView,
    n: nat,
) -> Result<Seq<ImageID>, GlyphKey>
    decreases n,
{
    if n == 0 {
        Ok(Seq::empty())
    } else {
        match run_images(map, text, (n - 1) as nat) {
            Err(key) => Err(key),
            Ok(images) => {
                let key = glyph_key(text, text.glyphs[n - 1].index);
                if map.contains_key(key) {
                    Ok(images.push(map[key]))
                } else {
                    Err(key)
                }
            },
        }
    }
}

proof fn lemma_run_error(map: Map<GlyphKey, ImageID>, text: TextView, m: nat, n: nat)
    requires
        m <= n,
        run_images(map, text, m) is Err,
    ensures
        run_images(map, text, n) == run_images(map, text, m),
    decreases n,
{
    if m < n {
        lemma_run_error(map, text, m, (n - 1) as nat);
    }
}

impl GlyphToImageMap {
    /// The images of the glyphs of a text run, or the first glyph that has none.
    pub fn images_for(&self, info: &TextDisplayItem) -> (r: Result<Vec<ImageID>, GlyphKey>)
        ensures
            match run_images(self@, info@, info.glyphs@.len()) {
                Ok(images) => r matches Ok(v) && v@ == images,
                Err(key) => r == Err::<Vec<ImageID>, GlyphKey>(key),
            },
    {
        let mut images: Vec<ImageID> = Vec::new();
        let mut i: usize = 0;
        while i < info.glyphs.len()
            invariant
                i <= info.glyphs@.len(),
                run_images(self@, info@, i as nat) == Ok::<Seq<ImageID>, GlyphKey>(images@),
            decreases info.glyphs@.len() - i,
        {
            let key = GlyphKey {
                font_id: info.font_id,
                size: info.size,
                blur_radius: info.blur_radius,
                index: info.glyphs[i].index,
            };
            match self.get(&key) {
                Some(image) => {
                    images.push(image);
                },
                None => {
                    proof {
                        lemma_run_error(self@, info@, (i + 1) as nat, info.glyphs@.len());
                    }
                    return Err(key);
                },
            }
            i = i + 1;
        }
        Ok(images)
    }
}

} // verus!
