//! Every batch is drawn.
use crate::batch::{DrawCommand, DrawCommandInfo, MatrixSlot, RenderBatch, Vertex};
use crate::builder::{
    batch_commands, builder_batches, builder_commands, commands_of, pending, DrawCommandBuilder,
};
use crate::compile::node_drawn;
use crate::ids::{BatchId, DisplayItemKey, ProgramId, TextureId};
use vstd::prelude::*;

verus! {

/// Every batch of a builder, the one that is being filled included, is drawn by a command with its identifier
/// and its place in painting order, into the target of the builder; everything is drawn into that target.
pub proof fn builders_draw_every_batch(builder: DrawCommandBuilder, b: int)
    requires
        builder.wf(),
        0 <= b < builder_batches(builder).len(),
    ensures
        builder_commands(builder).contains(
            DrawCommand {
                render_target: builder.render_target_index,
                sort_key: builder_batches(builder)[b].sort_key,
                info: DrawCommandInfo::Batch(builder_batches(builder)[b].batch_id),
            },
        ),
        forall|c: int|
            0 <= c < builder_commands(builder).len() ==> (#[trigger] builder_commands(builder)[c]).render_target
                == builder.render_target_index,
{
    let target = builder.render_target_index;
    let done = builder.draw_commands@;
    let all = builder_commands(builder);
    let batch = builder_batches(builder)[b];
    let command = DrawCommand {
        render_target: target,
        sort_key: batch.sort_key,
        info: DrawCommandInfo::Batch(batch.batch_id),
    };
    if b < builder.batches@.len() {
        let drawing = batch_commands(done);
        assert(drawing == commands_of(target, builder.batches@));
        assert(drawing[b] == command);
        assert(drawing.contains(command));
        done.lemma_filter_contains_rev(|command: DrawCommand| command.info is Batch, command);
        let c = choose|c: int| 0 <= c < done.len() && done[c] == command;
        assert(all[c] == command);
    } else {
        assert(pending(builder.current_batch)[0] == batch);
        assert(all[done.len() as int] == command);
    }
}

/// Of the batches that a builder has, all but the last have been filled; the last is the one that is being
/// filled, if there is one.
pub proof fn builders_have_all_their_batches(builder: DrawCommandBuilder, b: int)
    ensures
        0 <= b < builder.batches@.len() ==> builder_batches(builder)[b] == builder.batches@[b],
        builder.current_batch matches Some(batch) ==> builder_batches(builder).len() == builder.batches@.len() + 1
            && builder_batches(builder).last() == batch,
        builder.current_batch is None ==> builder_batches(builder).len() == builder.batches@.len(),
{
}

/// A node draws each of its batches, in their order: the commands for batches name them one after the other, each
/// at its own place in painting order.
pub proof fn nodes_draw_every_batch(batches: Seq<RenderBatch>, commands: Seq<DrawCommand>, b: int)
    requires
        node_drawn(batches, commands),
        0 <= b < batches.len(),
    ensures
        exists|c: int|
            0 <= c < commands.len() && (#[trigger] commands[c]).info == DrawCommandInfo::Batch(batches[b].batch_id)
                && commands[c].sort_key == batches[b].sort_key,
{
    let drawing = batch_commands(commands);
    let command = drawing[b];
    assert(drawing.contains(command));
    commands.lemma_filter_contains_rev(|command: DrawCommand| command.info is Batch, command);
    let c = choose|c: int| 0 <= c < commands.len() && commands[c] == command;
    assert(commands[c].info == DrawCommandInfo::Batch(batches[b].batch_id));
}

/// A new batch has the identity, the program and the textures that it was made with, and nothing in it.
pub proof fn new_batches_are_empty(
    batch: RenderBatch,
    batch_id: BatchId,
    sort_key: DisplayItemKey,
    program_id: ProgramId,
    color_texture_id: TextureId,
    mask_texture_id: TextureId,
)
    requires
        batch.is_new(batch_id, sort_key, program_id, color_texture_id, mask_texture_id),
    ensures
        batch.batch_id == batch_id,
        batch.sort_key == sort_key,
        batch.program_id == program_id,
        batch.color_texture_id == color_texture_id,
        batch.mask_texture_id == mask_texture_id,
        batch.vertices@ == Seq::<Vertex>::empty(),
        batch.indices@ == Seq::<u16>::empty(),
        batch.matrix_map@ == Seq::<MatrixSlot>::empty(),
{
}

} // verus!
