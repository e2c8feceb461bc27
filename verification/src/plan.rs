//! How a display item is drawn.
use crate::border::{add_border, border_corners, border_edges, BorderParts};
use crate::display::{BoxShadowClipMode, DisplayItem, ItemView, MixBlendMode, SpecificDisplayItem, SpecificView};
use crate::geometry::{ColorF, Rect, Size2D};
use crate::ids::{ImageID, RenderTargetIndex};
use crate::length::Place;
use crate::picture::{add_gradient, add_image, band, fits, outline, rect_outline, GradientBand};
use crate::shadow::{add_box_shadow, shadow_parts, BoxClip, ShadowPart};
use vstd::prelude::*;

verus! {

/// How a display item is drawn.
#[derive(Debug)]
pub enum DrawPlan {
    /// Not at all: an iframe is drawn by the items of its document.
    Nothing,
    /// As one image, or tiled, in a color that the image is multiplied with.
    Image { image_id: ImageID, stretch_size: Size2D, single: bool, color: ColorF, clip: BoxClip },
    /// As the glyphs of its run.
    Text,
    /// As a rectangle in one color.
    Rectangle { color: ColorF, clip: BoxClip },
    /// As bands that are clipped to an outline.
    Gradient { within: Vec<Place>, bands: Vec<GradientBand> },
    BoxShadow(Vec<ShadowPart>),
    Border(BorderParts),
    /// As the content of another target.
    Composite { target: RenderTargetIndex, blend_mode: MixBlendMode },
}

/// Whether an item has what drawing it takes: a text run a glyph, a gradient a stop.
pub open spec fn drawable(item: ItemView) -> bool {
    match item.item {
        SpecificView::Text(info) => info.glyphs.len() > 0,
        SpecificView::Gradient(info) => info.stops.len() > 0,
        _ => true,
    }
}

/// Whether a plan draws an item.  `clip` is what the item's clip and its draw list leave of it.
pub open spec fn draws(plan: DrawPlan, item: ItemView, clip: Rect) -> bool {
    match item.item {
        SpecificView::Image(info) => plan == (DrawPlan::Image {
            image_id: info.image_id,
            stretch_size: info.stretch_size,
            single: fits(item.rect, info.stretch_size),
            color: ColorF::all_white(),
            clip: BoxClip { rect: clip, mode: BoxShadowClipMode::Inset },
        }),
        SpecificView::Text(_) => plan is Text,
        SpecificView::Rectangle(info) => plan == (DrawPlan::Rectangle {
            color: info.color,
            clip: BoxClip { rect: clip, mode: BoxShadowClipMode::Inset },
        }),
        SpecificView::Iframe(_) => plan is Nothing,
        SpecificView::Gradient(info) => {
            plan matches DrawPlan::Gradient { within, bands } && {
                &&& within@ == outline(item.rect)
                &&& bands@.len() == info.stops.len() - 1
                &&& forall|i: int|
                    0 <= i < bands@.len() ==> (#[trigger] bands@[i]).vertices@ == band(
                        info.start_point,
                        info.end_point,
                        info.stops[i],
                        info.stops[i + 1],
                    )
            }
        },
        SpecificView::BoxShadow(info) => {
            plan matches DrawPlan::BoxShadow(parts) && parts@ == shadow_parts(info, clip)
        },
        SpecificView::Border(info) => {
            plan matches DrawPlan::Border(parts) && parts.edges@ == border_edges(item.rect, info)
                && parts.corners@ == border_corners(item.rect, info)
        },
        SpecificView::Composite(info) => plan == (DrawPlan::Composite {
            target: info.target,
            blend_mode: info.blend_mode,
        }),
    }
}

impl DisplayItem {
    /// Whether the item has what drawing it takes.
    pub fn is_drawable(&self) -> (r: bool)
        ensures
            r == drawable(self@),
    {
        match &self.item {
            SpecificDisplayItem::Text(info) => info.glyphs.len() > 0,
            SpecificDisplayItem::Gradient(info) => info.stops.len() > 0,
            _ => true,
        }
    }

    /// How the item is drawn.  `clip` is what its own clip and that of its draw list leave of it.
    pub fn plan(&self, clip: &Rect) -> (plan: DrawPlan)
        requires
            drawable(self@),
        ensures
            draws(plan, self@, *clip),
    {
        match &self.item {
            SpecificDisplayItem::Image(info) => DrawPlan::Image {
                image_id: info.image_id,
                stretch_size: info.stretch_size,
                single: add_image(&self.rect, &info.stretch_size),
                color: ColorF::white(),
                clip: BoxClip { rect: *clip, mode: BoxShadowClipMode::Inset },
            },
            SpecificDisplayItem::Text(_) => DrawPlan::Text,
            SpecificDisplayItem::Rectangle(info) => DrawPlan::Rectangle {
                color: info.color,
                clip: BoxClip { rect: *clip, mode: BoxShadowClipMode::Inset },
            },
            SpecificDisplayItem::Iframe(_) => DrawPlan::Nothing,
            SpecificDisplayItem::Gradient(info) => DrawPlan::Gradient {
                within: rect_outline(&self.rect),
                bands: add_gradient(info),
            },
            SpecificDisplayItem::BoxShadow(info) => DrawPlan::BoxShadow(add_box_shadow(info, clip)),
            SpecificDisplayItem::Border(info) => DrawPlan::Border(add_border(&self.rect, info)),
            SpecificDisplayItem::Composite(info) => DrawPlan::Composite {
                target: info.target,
                blend_mode: info.blend_mode,
            },
        }
    }
}

} // verus!
