//! Batches of vertices, draw commands, and the updates that the renderer is sent.
use crate::display::MixBlendMode;
use crate::geometry::{ColorF, DeviceRect};
use crate::ids::{BatchId, DisplayItemKey, DrawListIndex, ProgramId, RenderTargetIndex, TextureId, TransformIndex};
use crate::scalar::Scalar;
use vstd::prelude::*;

verus! {

/// A vertex: position, color, texture coordinates and mask coordinates.
#[derive(Clone, Copy, Debug, PartialEq, Eq, Structural)]
pub struct Vertex {
    pub x: Scalar,
    pub y: Scalar,
    pub color: ColorF,
    pub u: Scalar,
    pub v: Scalar,
    pub mu: Scalar,
    pub mv: Scalar,
}

/// How the vertices of a draw item form triangles.
#[derive(Clone, Copy, Debug, PartialEq, Eq, Structural)]
pub enum Primitive {
    Rectangles,
    TriangleFan,
    Glyphs,
}

/// The place in a batch's matrix palette that one draw list uses.
#[derive(Clone, Copy, Debug, PartialEq, Eq, Structural)]
pub struct MatrixSlot {
    pub draw_list_index: DrawListIndex,
    pub matrix_index: u8,
}

/// Vertices that are drawn by one call.
#[derive(Debug, PartialEq)]
pub struct RenderBatch {
    pub batch_id: BatchId,
    pub sort_key: DisplayItemKey,
    pub program_id: ProgramId,
    pub color_texture_id: TextureId,
    pub mask_texture_id: TextureId,
    pub vertices: Vec<Vertex>,
    pub indices: Vec<u16>,
    pub matrix_map: Vec<MatrixSlot>,
}

/// What a composite draws: the texture of another target, blended into a rectangle.
#[derive(Clone, Copy, Debug, PartialEq, Eq, Structural)]
pub struct CompositeInfo {
    pub blend_mode: MixBlendMode,
    pub rect: DeviceRect,
    pub color_texture_id: TextureId,
}

#[derive(Clone, Copy, Debug, PartialEq, Eq, Structural)]
pub enum DrawCommandInfo {
    Batch(BatchId),
    Composite(CompositeInfo),
}

/// One draw call, with the place in painting order that it takes in its target.
#[derive(Clone, Copy, Debug, PartialEq, Eq, Structural)]
pub struct DrawCommand {
    pub render_target: RenderTargetIndex,
    pub sort_key: DisplayItemKey,
    pub info: DrawCommandInfo,
}

/// The matrix slots of a batch that the renderer already holds.
#[derive(Debug, PartialEq)]
pub struct MatrixMap {
    pub batch_id: BatchId,
    pub slots: Vec<MatrixSlot>,
}

/// What a node of the culling tree draws.
#[derive(Debug, PartialEq)]
pub struct CompiledNode {
    pub batches: Vec<RenderBatch>,
    pub commands: Vec<DrawCommand>,
    pub matrix_maps: Vec<MatrixMap>,
}

/// One matrix of a palette: the identity, or a transform of the scene moved by the scroll
/// offset.
#[derive(Clone, Copy, Debug, PartialEq, Eq, Structural)]
pub enum PaletteEntry {
    Identity,
    Scrolled(TransformIndex),
}

/// What happens to a batch of the renderer.  `Create` holds vertices, indices, program, color
/// texture and mask texture.
#[derive(Debug, PartialEq)]
pub enum BatchUpdateOp {
    Create(Vec<Vertex>, Vec<u16>, ProgramId, TextureId, TextureId),
    UpdateUniforms(Vec<PaletteEntry>),
    Destroy,
}

#[derive(Debug, PartialEq)]
pub struct BatchUpdate {
    pub id: BatchId,
    pub op: BatchUpdateOp,
}

/// The updates that the renderer has not been sent yet.
#[derive(Debug, PartialEq)]
pub struct BatchUpdateList {
    pub updates: Vec<BatchUpdate>,
}

/// The contents of a [`BatchUpdateOp`].
pub enum UpdateOpView {
    Create(Seq<Vertex>, Seq<u16>, ProgramId, TextureId, TextureId),
    UpdateUniforms(Seq<PaletteEntry>),
    Destroy,
}

/// The contents of a [`BatchUpdate`].
pub struct UpdateView {
    pub id: BatchId,
    pub op: UpdateOpView,
}

impl View for BatchUpdate {
    type V = UpdateView;

    open spec fn view(&self) -> UpdateView {
        UpdateView {
            id: self.id,
            op: match self.op {
                BatchUpdateOp::Create(vertices, indices, program, color, mask) => {
                    UpdateOpView::Create(vertices@, indices@, program, color, mask)
                },
                BatchUpdateOp::UpdateUniforms(palette) => UpdateOpView::UpdateUniforms(palette@),
                BatchUpdateOp::Destroy => UpdateOpView::Destroy,
            },
        }
    }
}

impl View for BatchUpdateList {
    type V = Seq<UpdateView>;

    open spec fn view(&self) -> Seq<UpdateView> {
        self.updates@.map_values(|update: BatchUpdate| update@)
    }
}

impl BatchUpdateList {
    /// A list without updates.
    pub fn new() -> (list: BatchUpdateList)
        ensures
            list@ == Seq::<UpdateView>::empty(),
    {
        let list = BatchUpdateList { updates: Vec::new() };
        assert(list@ =~= Seq::<UpdateView>::empty());
        list
    }

    /// Appends an update.
    pub fn push(&mut self, update: BatchUpdate)
        ensures
            final(self)@ == old(self)@.push(update@),
    {
        self.updates.push(update);
        assert(self@ =~= old(self)@.push(update@));
    }
}

impl CompiledNode {
    /// A node that draws nothing.
    pub fn new() -> (node: CompiledNode)
        ensures
            node.batches@.len() == 0,
            node.commands@.len() == 0,
            node.matrix_maps@.len() == 0,
    {
        CompiledNode { batches: Vec::new(), commands: Vec::new(), matrix_maps: Vec::new() }
    }
}

} // verus!
