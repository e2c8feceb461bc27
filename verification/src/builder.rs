//! Building the draw commands of one render target.
use crate::batch::{CompositeInfo, DrawCommand, DrawCommandInfo, Primitive, RenderBatch};
use crate::display::MixBlendMode;
use crate::geometry::DeviceRect;
use crate::ids::{BatchId, DisplayItemKey, ProgramId, RenderTargetIndex, TextureId};
use vstd::multiset::Multiset;
use vstd::prelude::*;

verus! {

impl RenderBatch {
    /// A batch without vertices.
    pub fn new(
        batch_id: BatchId,
        sort_key: DisplayItemKey,
        program_id: ProgramId,
        color_texture_id: TextureId,
        mask_texture_id: TextureId,
    ) -> (batch: RenderBatch)
        ensures
            batch.is_new(batch_id, sort_key, program_id, color_texture_id, mask_texture_id),
    {
        RenderBatch {
            batch_id,
            sort_key,
            program_id,
            color_texture_id,
            mask_texture_id,
            vertices: Vec::new(),
            indices: Vec::new(),
            matrix_map: Vec::new(),
        }
    }

    /// Whether the batch has this identity and nothing in it.
    pub open spec fn is_new(
        self,
        batch_id: BatchId,
        sort_key: DisplayItemKey,
        program_id: ProgramId,
        color_texture_id: TextureId,
        mask_texture_id: TextureId,
    ) -> bool {
        &&& self.batch_id == batch_id
        &&& self.sort_key == sort_key
        &&& self.program_id == program_id
        &&& self.color_texture_id == color_texture_id
        &&& self.mask_texture_id == mask_texture_id
        &&& self.vertices@.len() == 0
        &&& self.indices@.len() == 0
        &&& self.matrix_map@.len() == 0
    }
}

/// Collects draw items into batches and orders the commands that draw them.
#[derive(Debug, PartialEq)]
pub struct DrawCommandBuilder {
    pub quad_program_id: ProgramId,
    pub glyph_program_id: ProgramId,
    pub render_target_index: RenderTargetIndex,
    pub current_batch: Option<RenderBatch>,
    pub draw_commands: Vec<DrawCommand>,
    pub batches: Vec<RenderBatch>,
}

/// The command that draws a batch.
pub open spec fn batch_command(target: RenderTargetIndex, batch: RenderBatch) -> DrawCommand {
    DrawCommand {
        render_target: target,
        sort_key: batch.sort_key,
        info: DrawCommandInfo::Batch(batch.batch_id),
    }
}

/// The batch that is being filled, if there is one.
pub open spec fn pending(batch: Option<RenderBatch>) -> Seq<RenderBatch> {
    match batch {
        Some(batch) => seq![batch],
        None => Seq::empty(),
    }
}

/// The commands that draw batches, in their order.
pub open spec fn batch_commands(commands: Seq<DrawCommand>) -> Seq<DrawCommand> {
    commands.filter(|command: DrawCommand| command.info is Batch)
}

/// The commands of some batches, in their order.
pub open spec fn commands_of(target: RenderTargetIndex, batches: Seq<RenderBatch>) -> Seq<DrawCommand> {
    batches.map_values(|batch: RenderBatch| batch_command(target, batch))
}

/// Every batch is drawn by exactly one command, in the order in which the batches were filled,
/// and everything is drawn into one target.
pub open spec fn drawn_once(
    target: RenderTargetIndex,
    batches: Seq<RenderBatch>,
    commands: Seq<DrawCommand>,
) -> bool {
    &&& batch_commands(commands) == commands_of(target, batches)
    &&& forall|c: int| 0 <= c < commands.len() ==> (#[trigger] commands[c]).render_target == target
}

/// All batches of a builder, the one that is being filled included.
pub open spec fn builder_batches(builder: DrawCommandBuilder) -> Seq<RenderBatch> {
    builder.batches@ + pending(builder.current_batch)
}

/// The commands that draw them, and the composites between them.
pub open spec fn builder_commands(builder: DrawCommandBuilder) -> Seq<DrawCommand> {
    builder.draw_commands@ + commands_of(builder.render_target_index, pending(builder.current_batch))
}

/// The identifiers of some batches, each as often as it occurs.
pub open spec fn batch_ids(batches: Seq<RenderBatch>) -> Multiset<BatchId> {
    batches.map_values(|batch: RenderBatch| batch.batch_id).to_multiset()
}

/// The identifiers of two runs of batches together.
pub(crate) proof fn lemma_batch_ids_add(a: Seq<RenderBatch>, b: Seq<RenderBatch>)
    ensures
        batch_ids(a + b) == batch_ids(a).add(batch_ids(b)),
{
    let id = |batch: RenderBatch| batch.batch_id;
    assert((a + b).map_values(id) =~= a.map_values(id) + b.map_values(id));
    vstd::seq_lib::lemma_multiset_commutative(a.map_values(id), b.map_values(id));
}

/// One more batch brings its own identifier.
proof fn lemma_batch_ids_last(batches: Seq<RenderBatch>, batch: RenderBatch)
    ensures
        batch_ids(batches.push(batch)) == batch_ids(batches).insert(batch.batch_id),
{
    let id = |batch: RenderBatch| batch.batch_id;
    assert(batches.push(batch).map_values(id) =~= batches.map_values(id).push(batch.batch_id));
    vstd::seq_lib::to_multiset_build(batches.map_values(id), batch.batch_id);
}

/// Commands come behind those that were there before, all with one place in painting order.
pub open spec fn added(before: Seq<DrawCommand>, after: Seq<DrawCommand>, key: DisplayItemKey) -> bool {
    &&& before.is_prefix_of(after)
    &&& forall|c: int| before.len() <= c < after.len() ==> (#[trigger] after[c]).sort_key == key
}

impl DrawCommandBuilder {
    /// What has been built so far is in order.
    pub open spec fn wf(self) -> bool {
        drawn_once(self.render_target_index, self.batches@, self.draw_commands@)
    }

    /// Whether the target and the programs are those of `other`.
    pub open spec fn same_target(self, other: DrawCommandBuilder) -> bool {
        &&& self.quad_program_id == other.quad_program_id
        &&& self.glyph_program_id == other.glyph_program_id
        &&& self.render_target_index == other.render_target_index
    }

    /// The program that draws a primitive.
    pub open spec fn program_of(self, primitive: Primitive) -> ProgramId {
        match primitive {
            Primitive::Rectangles | Primitive::TriangleFan => self.quad_program_id,
            Primitive::Glyphs => self.glyph_program_id,
        }
    }

    /// A builder for one render target, with nothing in it.
    pub fn new(
        quad_program_id: ProgramId,
        glyph_program_id: ProgramId,
        render_target_index: RenderTargetIndex,
    ) -> (builder: DrawCommandBuilder)
        ensures
            builder.wf(),
            builder.quad_program_id == quad_program_id,
            builder.glyph_program_id == glyph_program_id,
            builder.render_target_index == render_target_index,
            builder.current_batch is None,
            builder.draw_commands@ == Seq::<DrawCommand>::empty(),
            builder.batches@ == Seq::<RenderBatch>::empty(),
    {
        let builder = DrawCommandBuilder {
            quad_program_id,
            glyph_program_id,
            render_target_index,
            current_batch: None,
            draw_commands: Vec::new(),
            batches: Vec::new(),
        };
        proof {
            reveal(Seq::filter);
            assert(batch_commands(builder.draw_commands@) =~= commands_of(
                render_target_index,
                builder.batches@,
            ));
        }
        builder
    }

    /// Closes the batch that is being filled: a command will draw it.
    fn flush(&mut self)
        requires
            old(self).wf(),
        ensures
            final(self).wf(),
            final(self).same_target(*old(self)),
            final(self).current_batch is None,
            final(self).batches@ == old(self).batches@ + pending(old(self).current_batch),
            final(self).draw_commands@ == old(self).draw_commands@ + commands_of(
                old(self).render_target_index,
                pending(old(self).current_batch),
            ),
    {
        let ghost commands = self.draw_commands@;
        let ghost batches = self.batches@;
        let ghost target = self.render_target_index;
        if let Some(current_batch) = self.current_batch.take() {
            let command = DrawCommand {
                render_target: self.render_target_index,
                sort_key: current_batch.sort_key,
                info: DrawCommandInfo::Batch(current_batch.batch_id),
            };
            self.draw_commands.push(command);
            self.batches.push(current_batch);
            proof {
                commands.lemma_filter_push(command, |command: DrawCommand| command.info is Batch);
                assert(commands_of(target, self.batches@) =~= commands_of(target, batches).push(command));
                assert(self.batches@ =~= batches + pending(Some(current_batch)));
                assert(self.draw_commands@ =~= commands + commands_of(
                    target,
                    pending(Some(current_batch)),
                ));
            }
        } else {
            assert(self.batches@ =~= batches + pending(None));
            assert(self.draw_commands@ =~= commands + commands_of(target, pending(None)));
        }
    }

    /// Adds a composite.  What has been collected so far is drawn before it.
    pub fn add_composite_item(
        &mut self,
        blend_mode: MixBlendMode,
        color_texture_id: TextureId,
        rect: DeviceRect,
        sort_key: &DisplayItemKey,
    )
        requires
            old(self).wf(),
        ensures
            final(self).wf(),
            final(self).same_target(*old(self)),
            final(self).current_batch is None,
            final(self).batches@ == old(self).batches@ + pending(old(self).current_batch),
            final(self).draw_commands@ == (old(self).draw_commands@ + commands_of(
                old(self).render_target_index,
                pending(old(self).current_batch),
            )).push(
                DrawCommand {
                    render_target: old(self).render_target_index,
                    sort_key: *sort_key,
                    info: DrawCommandInfo::Composite(
                        CompositeInfo { blend_mode, rect, color_texture_id },
                    ),
                },
            ),
            added(builder_commands(*old(self)), builder_commands(*final(self)), *sort_key),
            batch_ids(builder_batches(*final(self))) == batch_ids(builder_batches(*old(self))),
    {
        self.flush();
        let ghost commands = self.draw_commands@;
        let command = DrawCommand {
            render_target: self.render_target_index,
            sort_key: *sort_key,
            info: DrawCommandInfo::Composite(CompositeInfo { blend_mode, rect, color_texture_id }),
        };
        self.draw_commands.push(command);
        proof {
            commands.lemma_filter_push(command, |command: DrawCommand| command.info is Batch);
            assert(builder_commands(*self) =~= commands.push(command));
            assert(builder_batches(*self) =~= builder_batches(*old(self)));
        }
    }

    /// The program that draws a primitive.
    pub fn program_for(&self, primitive: Primitive) -> (program_id: ProgramId)
        ensures
            program_id == self.program_of(primitive),
    {
        match primitive {
            Primitive::Rectangles | Primitive::TriangleFan => self.quad_program_id,
            Primitive::Glyphs => self.glyph_program_id,
        }
    }

    /// Finds the batch that a draw item goes to, for the item to be added to it.
    ///
    /// `can_add` says whether the batch that is being filled takes the item; where it does not,
    /// or where there is none, that batch is closed and a new one is opened under
    /// `new_batch_id`.  Filling it leaves its identifier and its place in painting order alone.
    pub fn add_draw_item(
        &mut self,
        sort_key: &DisplayItemKey,
        color_texture_id: TextureId,
        mask_texture_id: TextureId,
        primitive: Primitive,
        can_add: bool,
        new_batch_id: BatchId,
    ) -> (batch: &mut RenderBatch)
        requires
            old(self).wf(),
        ensures
            final(self).current_batch == Some(*final(batch)),
            final(self).wf(),
            final(self).same_target(*old(self)),
            match old(self).current_batch {
                Some(current_batch) if can_add => {
                    &&& *batch == current_batch
                    &&& final(self).batches@ == old(self).batches@
                    &&& final(self).draw_commands@ == old(self).draw_commands@
                },
                _ => {
                    &&& batch.is_new(
                        new_batch_id,
                        *sort_key,
                        old(self).program_of(primitive),
                        color_texture_id,
                        mask_texture_id,
                    )
                    &&& final(self).batches@ == old(self).batches@ + pending(old(self).current_batch)
                    &&& final(self).draw_commands@ == old(self).draw_commands@ + commands_of(
                        old(self).render_target_index,
                        pending(old(self).current_batch),
                    )
                },
            },
            final(batch).sort_key == batch.sort_key && final(batch).batch_id == batch.batch_id ==> added(
                builder_commands(*old(self)),
                builder_commands(*final(self)),
                *sort_key,
            ),
            final(batch).batch_id == batch.batch_id ==> batch_ids(builder_batches(*final(self))) == (
            match old(self).current_batch {
                Some(_) if can_add => batch_ids(builder_batches(*old(self))),
                _ => batch_ids(builder_batches(*old(self))).insert(new_batch_id),
            }),
    {
        let program_id = self.program_for(primitive);
        let need_new_batch = self.current_batch.is_none() || !can_add;
        if need_new_batch {
            self.flush();
            let batch = RenderBatch::new(new_batch_id, *sort_key, program_id, color_texture_id, mask_texture_id);
            self.current_batch = Some(batch);
        }
        proof {
            let full = self.batches@;
            assert forall|batch: RenderBatch| #[trigger] batch_ids(full + pending(Some(batch))) == batch_ids(
                full,
            ).insert(batch.batch_id) by {
                lemma_batch_ids_last(full, batch);
                assert(full + pending(Some(batch)) =~= full.push(batch));
            }
            if !need_new_batch {
                assert(batch_ids(full + pending(self.current_batch)) == batch_ids(
                    builder_batches(*old(self)),
                ));
            }
        }
        self.current_batch.as_mut().unwrap()
    }

    /// Closes the builder: every batch, and the commands that draw them.
    pub fn finalize(self) -> (r: (Vec<RenderBatch>, Vec<DrawCommand>))
        requires
            self.wf(),
        ensures
            r.0@ == self.batches@ + pending(self.current_batch),
            r.1@ == self.draw_commands@ + commands_of(
                self.render_target_index,
                pending(self.current_batch),
            ),
            drawn_once(self.render_target_index, r.0@, r.1@),
    {
        let mut builder = self;
        builder.flush();
        (builder.batches, builder.draw_commands)
    }
}

} // verus!
