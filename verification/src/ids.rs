//! Identifiers and indices.
use vstd::prelude::*;

verus! {

/// A document pipeline.
#[derive(Clone, Copy, Debug, PartialEq, Eq, Structural)]
pub struct PipelineId(pub u32, pub u32);

/// The generation of a pipeline's content.
#[derive(Clone, Copy, Debug, PartialEq, Eq, Structural)]
pub struct Epoch(pub u32);

/// A display list, as named by the document that made it.
#[derive(Clone, Copy, Debug, PartialEq, Eq, Structural)]
pub struct DisplayListID(pub u64);

/// A draw list, named by the backend.
#[derive(Clone, Copy, Debug, PartialEq, Eq, Structural)]
pub struct DrawListID(pub u64);

/// An image in the texture cache.
#[derive(Clone, Copy, Debug, PartialEq, Eq, Structural)]
pub struct ImageID(pub u64);

/// A font.
#[derive(Clone, Copy, Debug, PartialEq, Eq, Structural)]
pub struct FontId(pub u32);

/// A texture of the device.
#[derive(Clone, Copy, Debug, PartialEq, Eq, Structural)]
pub struct TextureId(pub u32);

/// A shader program of the device.
#[derive(Clone, Copy, Debug, PartialEq, Eq, Structural)]
pub struct ProgramId(pub u32);

/// A batch of vertices.
#[derive(Clone, Copy, Debug, PartialEq, Eq, Structural)]
pub struct BatchId(pub u64);

/// The position of a render target in the scene.
#[derive(Clone, Copy, Debug, PartialEq, Eq, Structural)]
pub struct RenderTargetIndex(pub u32);

/// The position of a draw list in the flattened scene.
#[derive(Clone, Copy, Debug, PartialEq, Eq, Structural)]
pub struct DrawListIndex(pub u32);

/// The position of an item in its draw list.
#[derive(Clone, Copy, Debug, PartialEq, Eq, Structural)]
pub struct DrawListItemIndex(pub u32);

/// The position of a node in the culling tree.
#[derive(Clone, Copy, Debug, PartialEq, Eq, Structural)]
pub struct NodeIndex(pub u32);

/// The position of a transform in the scene's table.
#[derive(Clone, Copy, Debug, PartialEq, Eq, Structural)]
pub struct TransformIndex(pub usize);

/// The place of a display item in the flattened scene.
#[derive(Clone, Copy, Debug, PartialEq, Eq, Structural)]
pub struct DisplayItemKey {
    pub draw_list_index: DrawListIndex,
    pub item_index: DrawListItemIndex,
}

impl DisplayItemKey {
    /// Draw-list order first, then the order inside the list.
    pub open spec fn before(self, other: DisplayItemKey) -> bool {
        ||| self.draw_list_index.0 < other.draw_list_index.0
        ||| self.draw_list_index == other.draw_list_index && self.item_index.0 < other.item_index.0
    }

    /// The key of item `item_index` of list `draw_list_index`.
    pub fn new(draw_list_index: u32, item_index: u32) -> (key: DisplayItemKey)
        ensures
            key == (DisplayItemKey {
                draw_list_index: DrawListIndex(draw_list_index),
                item_index: DrawListItemIndex(item_index),
            }),
    {
        DisplayItemKey {
            draw_list_index: DrawListIndex(draw_list_index),
            item_index: DrawListItemIndex(item_index),
        }
    }
}

/// The number under which the backend's tables keep a pipeline.
pub open spec fn pipeline_number(id: PipelineId) -> int {
    id.0 * 0x1_0000_0000 + id.1
}

impl PipelineId {
    /// The number under which the backend's tables keep this pipeline.
    pub open spec fn key(self) -> u64 {
        pipeline_number(self) as u64
    }

    /// The number under which the backend's tables keep this pipeline.
    pub fn to_key(self) -> (key: u64)
        ensures
            key == self.key(),
            key == pipeline_number(self),
    {
        self.0 as u64 * 0x1_0000_0000 + self.1 as u64
    }
}

/// Different pipelines are kept under different numbers.
pub proof fn pipeline_keys_are_distinct(a: PipelineId, b: PipelineId)
    ensures
        a.key() == b.key() ==> a == b,
{
}

} // verus!
