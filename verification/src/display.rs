//! What documents hand to the backend: display items, draw lists, display lists and stacking
//! contexts.
use crate::geometry::{ColorF, Point2D, Rect, Size2D};
use crate::ids::{DisplayListID, DrawListID, Epoch, FontId, ImageID, NodeIndex, PipelineId, RenderTargetIndex};
use crate::scalar::Scalar;
use vstd::prelude::*;

verus! {

/// How a stacking context is blended into what lies below it.
#[derive(Clone, Copy, Debug, PartialEq, Eq, Structural)]
pub enum MixBlendMode {
    Normal,
    Multiply,
    Screen,
    Overlay,
    Darken,
    Lighten,
    ColorDodge,
    ColorBurn,
    HardLight,
    SoftLight,
    Difference,
    Exclusion,
    Hue,
    Saturation,
    Color,
    Luminosity,
}

/// The line style of one border side.
#[derive(Clone, Copy, Debug, PartialEq, Eq, Structural)]
pub enum BorderStyle {
    Blank,
    Solid,
    Double,
    Dotted,
    Dashed,
    Hidden,
    Groove,
    Ridge,
    Inset,
    Outset,
}

/// Which side of the box clips its shadow.
#[derive(Clone, Copy, Debug, PartialEq, Eq, Structural)]
pub enum BoxShadowClipMode {
    Unclipped,
    Outset,
    Inset,
}

/// How the draw lists of a display list take part in painting order.
#[derive(Clone, Copy, Debug, PartialEq, Eq, Structural)]
pub enum DisplayListMode {
    Default,
    PseudoFloat,
    PseudoPositionedContent,
}

/// The four corner radii of a box.
#[derive(Clone, Copy, Debug, PartialEq, Eq, Structural)]
pub struct BorderRadius {
    pub top_left: Size2D,
    pub top_right: Size2D,
    pub bottom_left: Size2D,
    pub bottom_right: Size2D,
}

/// One side of a border.
#[derive(Clone, Copy, Debug, PartialEq, Eq, Structural)]
pub struct BorderSide {
    pub width: Scalar,
    pub color: ColorF,
    pub style: BorderStyle,
}

/// A rounded rectangle that clips an item.
#[derive(Clone, Copy, Debug, PartialEq, Eq, Structural)]
pub struct ComplexClipRegion {
    pub rect: Rect,
    pub radii: BorderRadius,
}

/// The clip of an item: a rectangle, and rounded rectangles inside it.
#[derive(Debug, PartialEq)]
pub struct ClipRegion {
    pub main: Rect,
    pub complex: Vec<ComplexClipRegion>,
}

#[derive(Clone, Copy, Debug, PartialEq, Eq, Structural)]
pub struct ImageDisplayItem {
    pub image_id: ImageID,
    pub stretch_size: Size2D,
}

/// One positioned glyph of a text run.
#[derive(Clone, Copy, Debug, PartialEq, Eq, Structural)]
pub struct GlyphInstance {
    pub index: u32,
    pub x: Scalar,
    pub y: Scalar,
}

/// A text run; `size` and `blur_radius` are in app units.
#[derive(Debug, PartialEq)]
pub struct TextDisplayItem {
    pub font_id: FontId,
    pub size: i32,
    pub blur_radius: i32,
    pub color: ColorF,
    pub glyphs: Vec<GlyphInstance>,
}

#[derive(Clone, Copy, Debug, PartialEq, Eq, Structural)]
pub struct RectangleDisplayItem {
    pub color: ColorF,
}

#[derive(Clone, Copy, Debug, PartialEq, Eq, Structural)]
pub struct IframeDisplayItem {
    pub iframe: PipelineId,
}

#[derive(Clone, Copy, Debug, PartialEq, Eq, Structural)]
pub struct GradientStop {
    pub offset: Scalar,
    pub color: ColorF,
}

#[derive(Debug, PartialEq)]
pub struct GradientDisplayItem {
    pub start_point: Point2D,
    pub end_point: Point2D,
    pub stops: Vec<GradientStop>,
}

#[derive(Clone, Copy, Debug, PartialEq, Eq, Structural)]
pub struct BoxShadowDisplayItem {
    pub box_bounds: Rect,
    pub offset: Point2D,
    pub color: ColorF,
    pub blur_radius: Scalar,
    pub spread_radius: Scalar,
    pub border_radius: Scalar,
    pub clip_mode: BoxShadowClipMode,
}

/// A border; `inner_radius` holds the radii of its inner edge.
#[derive(Clone, Copy, Debug, PartialEq, Eq, Structural)]
pub struct BorderDisplayItem {
    pub left: BorderSide,
    pub right: BorderSide,
    pub top: BorderSide,
    pub bottom: BorderSide,
    pub radius: BorderRadius,
    pub inner_radius: BorderRadius,
}

/// Blends the content of another render target into this one.
#[derive(Clone, Copy, Debug, PartialEq, Eq, Structural)]
pub struct CompositeDisplayItem {
    pub blend_mode: MixBlendMode,
    pub target: RenderTargetIndex,
}

/// What an item draws.
#[derive(Debug, PartialEq)]
pub enum SpecificDisplayItem {
    Image(ImageDisplayItem),
    Text(TextDisplayItem),
    Rectangle(RectangleDisplayItem),
    Iframe(IframeDisplayItem),
    Gradient(GradientDisplayItem),
    BoxShadow(BoxShadowDisplayItem),
    Border(BorderDisplayItem),
    Composite(CompositeDisplayItem),
}

/// One drawing operation of a document.
#[derive(Debug, PartialEq)]
pub struct DisplayItem {
    pub item: SpecificDisplayItem,
    pub rect: Rect,
    pub clip: ClipRegion,
    pub node_index: Option<NodeIndex>,
}

/// A run of display items.
#[derive(Debug, PartialEq)]
pub struct DrawList {
    pub items: Vec<DisplayItem>,
}

/// A display list as the backend keeps it: the draw lists of its painting phases.
#[derive(Clone, Copy, Debug, PartialEq, Eq, Structural)]
pub struct DisplayList {
    pub mode: DisplayListMode,
    pub pipeline_id: PipelineId,
    pub epoch: Epoch,
    pub background_and_borders_id: Option<DrawListID>,
    pub block_backgrounds_and_borders_id: Option<DrawListID>,
    pub floats_id: Option<DrawListID>,
    pub content_id: Option<DrawListID>,
    pub positioned_content_id: Option<DrawListID>,
    pub outlines_id: Option<DrawListID>,
}

/// A display list as a document sends it.
#[derive(Debug, PartialEq)]
pub struct DisplayListBuilder {
    pub mode: DisplayListMode,
    pub background_and_borders: DrawList,
    pub block_backgrounds_and_borders: DrawList,
    pub floats: DrawList,
    pub content: DrawList,
    pub positioned_content: DrawList,
    pub outlines: DrawList,
}

/// A stacking context with its children.
#[derive(Debug)]
pub struct StackingContext {
    pub display_lists: Vec<DisplayListID>,
    pub children: Vec<StackingContext>,
    pub bounds: Rect,
    pub overflow: Rect,
    pub z_index: i32,
    pub mix_blend_mode: MixBlendMode,
}

/// The root stacking context of a pipeline.
#[derive(Debug)]
pub struct RootStackingContext {
    pub pipeline_id: PipelineId,
    pub epoch: Epoch,
    pub background_color: ColorF,
    pub stacking_context: StackingContext,
}

/// The contents of a [`ClipRegion`].
pub struct ClipView {
    pub main: Rect,
    pub complex: Seq<ComplexClipRegion>,
}

/// The contents of a [`TextDisplayItem`].
pub struct TextView {
    pub font_id: FontId,
    pub size: i32,
    pub blur_radius: i32,
    pub color: ColorF,
    pub glyphs: Seq<GlyphInstance>,
}

/// The contents of a [`GradientDisplayItem`].
pub struct GradientView {
    pub start_point: Point2D,
    pub end_point: Point2D,
    pub stops: Seq<GradientStop>,
}

/// The contents of a [`SpecificDisplayItem`].
pub enum SpecificView {
    Image(ImageDisplayItem),
    Text(TextView),
    Rectangle(RectangleDisplayItem),
    Iframe(IframeDisplayItem),
    Gradient(GradientView),
    BoxShadow(BoxShadowDisplayItem),
    Border(BorderDisplayItem),
    Composite(CompositeDisplayItem),
}

/// The contents of a [`DisplayItem`].
pub struct ItemView {
    pub item: SpecificView,
    pub rect: Rect,
    pub clip: ClipView,
    pub node_index: Option<NodeIndex>,
}

impl View for ClipRegion {
    type V = ClipView;

    open spec fn view(&self) -> ClipView {
        ClipView { main: self.main, complex: self.complex@ }
    }
}

impl View for TextDisplayItem {
    type V = TextView;

    open spec fn view(&self) -> TextView {
        TextView {
            font_id: self.font_id,
            size: self.size,
            blur_radius: self.blur_radius,
            color: self.color,
            glyphs: self.glyphs@,
        }
    }
}

impl View for GradientDisplayItem {
    type V = GradientView;

    open spec fn view(&self) -> GradientView {
        GradientView {
            start_point: self.start_point,
            end_point: self.end_point,
            stops: self.stops@,
        }
    }
}

impl View for SpecificDisplayItem {
    type V = SpecificView;

    open spec fn view(&self) -> SpecificView {
        match *self {
            SpecificDisplayItem::Image(info) => SpecificView::Image(info),
            SpecificDisplayItem::Text(info) => SpecificView::Text(info@),
            SpecificDisplayItem::Rectangle(info) => SpecificView::Rectangle(info),
            SpecificDisplayItem::Iframe(info) => SpecificView::Iframe(info),
            SpecificDisplayItem::Gradient(info) => SpecificView::Gradient(info@),
            SpecificDisplayItem::BoxShadow(info) => SpecificView::BoxShadow(info),
            SpecificDisplayItem::Border(info) => SpecificView::Border(info),
            SpecificDisplayItem::Composite(info) => SpecificView::Composite(info),
        }
    }
}

impl View for DisplayItem {
    type V = ItemView;

    open spec fn view(&self) -> ItemView {
        ItemView {
            item: self.item@,
            rect: self.rect,
            clip: self.clip@,
            node_index: self.node_index,
        }
    }
}

impl View for DrawList {
    type V = Seq<ItemView>;

    open spec fn view(&self) -> Seq<ItemView> {
        self.items@.map_values(|item: DisplayItem| item@)
    }
}

impl DrawList {
    /// A list without items.
    pub fn new() -> (list: DrawList)
        ensures
            list@ == Seq::<ItemView>::empty(),
    {
        let list = DrawList { items: Vec::new() };
        assert(list@ =~= Seq::<ItemView>::empty());
        list
    }

    /// Appends an item.
    pub fn push(&mut self, item: DisplayItem)
        ensures
            final(self)@ == old(self)@.push(item@),
    {
        self.items.push(item);
        assert(self@ =~= old(self)@.push(item@));
    }

    /// The number of items.
    pub fn item_count(&self) -> (n: usize)
        ensures
            n == self@.len(),
    {
        self.items.len()
    }
}

impl StackingContext {
    /// Whether the context is drawn into a render target of its own.
    pub open spec fn isolated(self) -> bool {
        self.mix_blend_mode != MixBlendMode::Normal
    }

    /// Whether the context is drawn into a render target of its own: every blend mode but the
    /// normal one needs the finished content of the context.
    pub fn needs_render_target(&self) -> (r: bool)
        ensures
            r == self.isolated(),
    {
        match self.mix_blend_mode {
            MixBlendMode::Normal => false,
            MixBlendMode::Multiply
            | MixBlendMode::Screen
            | MixBlendMode::Overlay
            | MixBlendMode::Darken
            | MixBlendMode::Lighten
            | MixBlendMode::ColorDodge
            | MixBlendMode::ColorBurn
            | MixBlendMode::HardLight
            | MixBlendMode::SoftLight
            | MixBlendMode::Difference
            | MixBlendMode::Exclusion
            | MixBlendMode::Hue
            | MixBlendMode::Saturation
            | MixBlendMode::Color
            | MixBlendMode::Luminosity => true,
        }
    }
}

} // verus!
