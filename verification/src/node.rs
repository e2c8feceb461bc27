//! Nodes of the culling tree.
use crate::batch::CompiledNode;
use crate::ids::{DisplayItemKey, FontId, ImageID, NodeIndex};
use vstd::prelude::*;

verus! {

/// A rounded corner to rasterize; the radii are in app units.
#[derive(Clone, Copy, Debug, PartialEq, Eq, Structural)]
pub struct BorderRadiusRasterOp {
    pub outer_radius_x: i32,
    pub outer_radius_y: i32,
    pub inner_radius_x: i32,
    pub inner_radius_y: i32,
}

/// The corner of a box shadow to rasterize; the radii are in app units.
#[derive(Clone, Copy, Debug, PartialEq, Eq, Structural)]
pub struct BoxShadowCornerRasterOp {
    pub blur_radius: i32,
    pub border_radius: i32,
}

/// A mask that is generated rather than uploaded.
#[derive(Clone, Copy, Debug, PartialEq, Eq, Structural)]
pub enum RasterItem {
    BorderRadius(BorderRadiusRasterOp),
    BoxShadowCorner(BoxShadowCornerRasterOp),
}

/// A glyph image; size and blur radius are in app units.
#[derive(Clone, Copy, Debug, PartialEq, Eq, Structural)]
pub struct GlyphKey {
    pub font_id: FontId,
    pub size: i32,
    pub blur_radius: i32,
    pub index: u32,
}

/// The images that drawing a node needs.
#[derive(Debug, PartialEq)]
pub struct ResourceList {
    pub rasters: Vec<RasterItem>,
    pub images: Vec<ImageID>,
    pub glyphs: Vec<GlyphKey>,
}

/// A node of the culling tree: the items that it holds, and what has been made of them.
#[derive(Debug, PartialEq)]
pub struct AABBTreeNode {
    pub node_index: NodeIndex,
    pub is_visible: bool,
    pub src_items: Vec<DisplayItemKey>,
    pub resource_list: Option<ResourceList>,
    pub compiled_node: Option<CompiledNode>,
}

} // verus!
