//! Collecting what is drawn of a node of the culling tree: batches and draw commands, with one
//! builder for each render target.
use crate::batch::{CompiledNode, DrawCommand, DrawCommandInfo, RenderBatch};
use crate::builder::{
    added, batch_commands, batch_ids, builder_batches, builder_commands, commands_of, drawn_once, lemma_batch_ids_add,
    DrawCommandBuilder,
};
use crate::ids::{BatchId, DisplayItemKey, ProgramId, RenderTargetIndex};
use crate::visible::on_target;
use vstd::multiset::Multiset;
use vstd::prelude::*;

verus! {

/// A node that is being compiled.
#[derive(Debug, PartialEq)]
pub struct NodeCompiler {
    pub quad_program_id: ProgramId,
    pub glyph_program_id: ProgramId,
    pub builders: Vec<DrawCommandBuilder>,
    pub compiled_node: CompiledNode,
}

/// The place of the first builder of a target at or after `i`, or the end.
pub open spec fn builder_place(builders: Seq<DrawCommandBuilder>, target: RenderTargetIndex, i: int) -> int
    decreases builders.len() - i,
{
    if i >= builders.len() || builders[i].render_target_index == target {
        i
    } else {
        builder_place(builders, target, i + 1)
    }
}

/// What the builder of a target has built, if there is one at or after `i`.
pub open spec fn built(builders: Seq<DrawCommandBuilder>, target: RenderTargetIndex, i: int) -> Seq<DrawCommand> {
    let place = builder_place(builders, target, i);
    if place < builders.len() {
        builder_commands(builders[place])
    } else {
        Seq::empty()
    }
}

/// The batches of the first `n` builders.
pub open spec fn all_batches(builders: Seq<DrawCommandBuilder>, n: nat) -> Seq<RenderBatch>
    decreases n,
{
    if n == 0 {
        Seq::empty()
    } else {
        all_batches(builders, (n - 1) as nat) + builder_batches(builders[n - 1])
    }
}

/// The commands of the first `n` builders.
pub open spec fn all_commands(builders: Seq<DrawCommandBuilder>, n: nat) -> Seq<DrawCommand>
    decreases n,
{
    if n == 0 {
        Seq::empty()
    } else {
        all_commands(builders, (n - 1) as nat) + builder_commands(builders[n - 1])
    }
}

/// Every batch of a node is drawn by exactly one command, in batch order.
pub open spec fn node_drawn(batches: Seq<RenderBatch>, commands: Seq<DrawCommand>) -> bool {
    let drawing = batch_commands(commands);
    &&& drawing.len() == batches.len()
    &&& forall|b: int|
        0 <= b < batches.len() ==> (#[trigger] drawing[b]).info == DrawCommandInfo::Batch(
            batches[b].batch_id,
        ) && drawing[b].sort_key == batches[b].sort_key
}

proof fn lemma_node_drawn(
    batches: Seq<RenderBatch>,
    commands: Seq<DrawCommand>,
    target: RenderTargetIndex,
    more_batches: Seq<RenderBatch>,
    more_commands: Seq<DrawCommand>,
)
    requires
        node_drawn(batches, commands),
        drawn_once(target, more_batches, more_commands),
    ensures
        node_drawn(batches + more_batches, commands + more_commands),
{
    Seq::filter_distributes_over_add(
        commands,
        more_commands,
        |command: DrawCommand| command.info is Batch,
    );
    let first = batch_commands(commands);
    let second = batch_commands(more_commands);
    assert(batch_commands(commands + more_commands) == first + second);
    assert(second == commands_of(target, more_batches));
}

impl NodeCompiler {
    /// The builders are in order, each has a target of its own, and what has been compiled is
    /// drawn once.
    pub open spec fn wf(self) -> bool {
        &&& forall|i: int| 0 <= i < self.builders@.len() ==> (#[trigger] self.builders@[i]).wf()
        &&& forall|i: int, j: int|
            0 <= i < j < self.builders@.len() ==> (#[trigger] self.builders@[i]).render_target_index != (
            #[trigger] self.builders@[j]).render_target_index
        &&& node_drawn(self.compiled_node.batches@, self.compiled_node.commands@)
        &&& self.compiled_node.matrix_maps@.len() == 0
    }

    /// Whether the programs are those of `other`.
    pub open spec fn same_programs(self, other: NodeCompiler) -> bool {
        &&& self.quad_program_id == other.quad_program_id
        &&& self.glyph_program_id == other.glyph_program_id
    }

    /// The place of the builder of a target, or the end where there is none.
    pub open spec fn place(self, target: RenderTargetIndex) -> int {
        builder_place(self.builders@, target, 0)
    }

    /// Everything that is drawn into a target so far, in order: what has been compiled, and what is
    /// with the builder of the target.
    pub open spec fn drawn(self, target: RenderTargetIndex) -> Seq<DrawCommand> {
        on_target(self.compiled_node.commands@, target.0 as int) + built(self.builders@, target, 0)
    }

    /// The identifiers of all batches of the node, those of its builders included.
    pub open spec fn ids(self) -> Multiset<BatchId> {
        batch_ids(self.compiled_node.batches@).add(
            batch_ids(all_batches(self.builders@, self.builders@.len())),
        )
    }

    /// Starts to compile a node.
    pub fn new(quad_program_id: ProgramId, glyph_program_id: ProgramId) -> (compiler: NodeCompiler)
        ensures
            compiler.wf(),
            compiler.quad_program_id == quad_program_id,
            compiler.glyph_program_id == glyph_program_id,
            compiler.builders@.len() == 0,
            compiler.compiled_node.batches@.len() == 0,
            compiler.compiled_node.commands@.len() == 0,
            forall|target: RenderTargetIndex| #[trigger] compiler.drawn(target) == Seq::<DrawCommand>::empty(),
            compiler.ids() == Multiset::<BatchId>::empty(),
    {
        let compiler = NodeCompiler {
            quad_program_id,
            glyph_program_id,
            builders: Vec::new(),
            compiled_node: CompiledNode::new(),
        };
        proof {
            reveal(Seq::filter);
            assert forall|target: RenderTargetIndex| #[trigger] compiler.drawn(target) == Seq::<
                DrawCommand,
            >::empty() by {
                assert(compiler.drawn(target) =~= Seq::<DrawCommand>::empty());
            }
            lemma_no_batches(compiler.compiled_node.batches@);
            lemma_no_batches(all_batches(compiler.builders@, 0));
            assert(compiler.ids() =~= Multiset::empty());
        }
        compiler
    }

    fn find_builder(&self, target: RenderTargetIndex) -> (place: usize)
        ensures
            place == self.place(target),
            place <= self.builders@.len(),
            place < self.builders@.len() ==> self.builders@[place as int].render_target_index == target,
            forall|i: int|
                0 <= i < place ==> (#[trigger] self.builders@[i]).render_target_index != target,
    {
        let mut place: usize = 0;
        while place < self.builders.len() && self.builders[place].render_target_index != target
            invariant
                place <= self.builders@.len(),
                self.place(target) == builder_place(self.builders@, target, place as int),
                forall|i: int|
                    0 <= i < place ==> (#[trigger] self.builders@[i]).render_target_index != target,
            decreases self.builders@.len() - place,
        {
            place = place + 1;
        }
        place
    }

    /// The builder of a target; a target that has none gets a new one.
    pub fn builder(&mut self, target: RenderTargetIndex) -> (builder: &mut DrawCommandBuilder)
        requires
            old(self).wf(),
        ensures
            builder.wf(),
            builder.render_target_index == target,
            ({
                let place = old(self).place(target);
                if place < old(self).builders@.len() {
                    &&& *builder == old(self).builders@[place]
                    &&& final(self).builders@ == old(self).builders@.update(place, *final(builder))
                } else {
                    &&& builder.quad_program_id == old(self).quad_program_id
                    &&& builder.glyph_program_id == old(self).glyph_program_id
                    &&& builder.current_batch is None
                    &&& builder.draw_commands@.len() == 0
                    &&& builder.batches@.len() == 0
                    &&& final(self).builders@ == old(self).builders@.push(*final(builder))
                }
            }),
            final(builder).wf() && final(builder).render_target_index == target ==> final(self).wf(),
            final(self).same_programs(*old(self)),
            final(self).compiled_node == old(self).compiled_node,
            ({
                let done = on_target(old(self).compiled_node.commands@, target.0 as int);
                &&& old(self).drawn(target) == done + builder_commands(*builder)
                &&& final(builder).render_target_index == target ==> final(self).drawn(target) == done
                    + builder_commands(*final(builder))
            }),
            final(builder).render_target_index == target ==> forall|key: DisplayItemKey| #[trigger]
                added(builder_commands(*builder), builder_commands(*final(builder)), key) ==> added(
                    old(self).drawn(target),
                    final(self).drawn(target),
                    key,
                ),
            final(builder).render_target_index == target ==> forall|other: RenderTargetIndex|
                other != target ==> #[trigger] final(self).drawn(other) == old(self).drawn(other),
            final(self).ids() == old(self).ids().sub(batch_ids(builder_batches(*builder))).add(
                batch_ids(builder_batches(*final(builder))),
            ),
            batch_ids(builder_batches(*builder)).subset_of(old(self).ids()),
            batch_ids(builder_batches(*final(builder))) == batch_ids(builder_batches(*builder)) ==> final(self).ids()
                == old(self).ids(),
            forall|id: BatchId|
                batch_ids(builder_batches(*final(builder))) == #[trigger] batch_ids(
                    builder_batches(*builder),
                ).insert(id) ==> final(self).ids() == old(self).ids().insert(id),
    {
        let place = self.find_builder(target);
        if place >= self.builders.len() {
            self.builders.push(DrawCommandBuilder::new(self.quad_program_id, self.glyph_program_id, target));
        }
        proof {
            if place >= old(self).builders@.len() {
                assert(self.builders@.drop_last() =~= old(self).builders@);
            }
            lemma_builder_replaced(old(self).builders@, self.builders@, target, place as int);
            if place >= old(self).builders@.len() {
                assert(builder_commands(self.builders@[place as int]) =~= Seq::<DrawCommand>::empty());
                lemma_no_batches(builder_batches(self.builders@[place as int]));
                lemma_builder_added(old(self).builders@, self.builders@);
            }
            assert forall|builder: DrawCommandBuilder| #[trigger] batch_ids(
                all_batches(self.builders@.update(place as int, builder), self.builders@.len()),
            ) == batch_ids(all_batches(self.builders@, self.builders@.len())).sub(
                batch_ids(builder_batches(self.builders@[place as int])),
            ).add(batch_ids(builder_batches(builder))) && batch_ids(
                builder_batches(self.builders@[place as int]),
            ).subset_of(batch_ids(all_batches(self.builders@, self.builders@.len()))) by {
                lemma_builder_changed(self.builders@, place as int, builder);
            }
            lemma_builder_changed(self.builders@, place as int, self.builders@[place as int]);
            lemma_ids_changed(
                batch_ids(self.compiled_node.batches@),
                batch_ids(all_batches(self.builders@, self.builders@.len())),
                batch_ids(builder_batches(self.builders@[place as int])),
            );
        }
        &mut self.builders[place]
    }

    /// Closes the builder of a target, if there is one: what it has collected is drawn before
    /// anything that comes to the target later.
    pub fn flush(&mut self, target: RenderTargetIndex)
        requires
            old(self).wf(),
        ensures
            final(self).wf(),
            final(self).same_programs(*old(self)),
            ({
                let place = old(self).place(target);
                if place < old(self).builders@.len() {
                    let builder = old(self).builders@[place];
                    &&& final(self).builders@ == old(self).builders@.remove(place)
                    &&& final(self).compiled_node.batches@ == old(self).compiled_node.batches@
                        + builder_batches(builder)
                    &&& final(self).compiled_node.commands@ == old(self).compiled_node.commands@
                        + builder_commands(builder)
                } else {
                    *final(self) == *old(self)
                }
            }),
            forall|other: RenderTargetIndex| #[trigger] final(self).drawn(other) == old(self).drawn(other),
            final(self).ids() == old(self).ids(),
    {
        let place = self.find_builder(target);
        if place < self.builders.len() {
            let builder = self.builders.remove(place);
            self.close(builder);
            proof {
                assert forall|other: RenderTargetIndex| #[trigger] self.drawn(other) == old(self).drawn(other) by {
                    lemma_flushed(*old(self), *self, place as int, other);
                }
                lemma_batch_ids_add(old(self).compiled_node.batches@, builder_batches(builder));
                lemma_builder_removed(old(self).builders@, place as int);
                assert(self.ids() =~= old(self).ids());
            }
        }
    }

    fn close(&mut self, builder: DrawCommandBuilder)
        requires
            builder.wf(),
            node_drawn(old(self).compiled_node.batches@, old(self).compiled_node.commands@),
        ensures
            final(self).same_programs(*old(self)),
            final(self).builders == old(self).builders,
            final(self).compiled_node.batches@ == old(self).compiled_node.batches@ + builder_batches(builder),
            final(self).compiled_node.commands@ == old(self).compiled_node.commands@ + builder_commands(
                builder,
            ),
            final(self).compiled_node.matrix_maps == old(self).compiled_node.matrix_maps,
            node_drawn(final(self).compiled_node.batches@, final(self).compiled_node.commands@),
    {
        let ghost batches_before = self.compiled_node.batches@;
        let ghost commands_before = self.compiled_node.commands@;
        let (batches, commands) = builder.finalize();
        proof {
            lemma_node_drawn(
                batches_before,
                commands_before,
                builder.render_target_index,
                batches@,
                commands@,
            );
        }
        let mut batches = batches;
        let mut commands = commands;
        self.compiled_node.batches.append(&mut batches);
        self.compiled_node.commands.append(&mut commands);
    }

    /// Ends the compilation: what is still with the builders is drawn last, builder by builder.
    pub fn finish(self) -> (compiled: CompiledNode)
        requires
            self.wf(),
        ensures
            compiled.batches@ == self.compiled_node.batches@ + all_batches(
                self.builders@,
                self.builders@.len(),
            ),
            compiled.commands@ == self.compiled_node.commands@ + all_commands(
                self.builders@,
                self.builders@.len(),
            ),
            compiled.matrix_maps@.len() == 0,
            node_drawn(compiled.batches@, compiled.commands@),
            forall|target: RenderTargetIndex| #[trigger]
                on_target(compiled.commands@, target.0 as int) == self.drawn(target),
            batch_ids(compiled.batches@) == self.ids(),
    {
        let ghost all = self.builders@;
        let ghost batches = self.compiled_node.batches@;
        let ghost commands = self.compiled_node.commands@;
        let mut compiler = self;
        let mut builders: Vec<DrawCommandBuilder> = Vec::new();
        std::mem::swap(&mut builders, &mut compiler.builders);
        assert(batches =~= batches + all_batches(all, 0));
        assert(commands =~= commands + all_commands(all, 0));
        for builder in iter: builders
            invariant
                iter.seq() == all,
                forall|i: int| 0 <= i < all.len() ==> (#[trigger] all[i]).wf(),
                node_drawn(compiler.compiled_node.batches@, compiler.compiled_node.commands@),
                compiler.compiled_node.matrix_maps@.len() == 0,
                compiler.compiled_node.batches@ == batches + all_batches(all, iter.index() as nat),
                compiler.compiled_node.commands@ == commands + all_commands(all, iter.index() as nat),
        {
            let ghost n = iter.index();
            assert(builder == all[n]);
            compiler.close(builder);
            assert(compiler.compiled_node.batches@ =~= batches + all_batches(all, (n + 1) as nat));
            assert(compiler.compiled_node.commands@ =~= commands + all_commands(all, (n + 1) as nat));
        }
        proof {
            assert forall|target: RenderTargetIndex| #[trigger] on_target(
                compiler.compiled_node.commands@,
                target.0 as int,
            ) == self.drawn(target) by {
                lemma_finished(self, target);
            }
            lemma_batch_ids_add(batches, all_batches(all, all.len()));
        }
        compiler.compiled_node
    }
}

/// Where the builder of a target stands.
proof fn lemma_place(builders: Seq<DrawCommandBuilder>, target: RenderTargetIndex, i: int)
    requires
        0 <= i <= builders.len(),
    ensures
        ({
            let place = builder_place(builders, target, i);
            &&& i <= place <= builders.len()
            &&& place < builders.len() ==> builders[place].render_target_index == target
            &&& forall|k: int| i <= k < place ==> (#[trigger] builders[k]).render_target_index != target
        }),
    decreases builders.len() - i,
{
    if i < builders.len() && builders[i].render_target_index != target {
        lemma_place(builders, target, i + 1);
    }
}

/// There is one place for the builder of a target.
proof fn lemma_is_place(builders: Seq<DrawCommandBuilder>, target: RenderTargetIndex, place: int)
    requires
        0 <= place <= builders.len(),
        place < builders.len() ==> builders[place].render_target_index == target,
        forall|k: int| 0 <= k < place ==> (#[trigger] builders[k]).render_target_index != target,
    ensures
        builder_place(builders, target, 0) == place,
{
    lemma_place(builders, target, 0);
}

/// A builder of one target draws into no other.
proof fn lemma_own_target(builder: DrawCommandBuilder, target: RenderTargetIndex)
    requires
        builder.wf(),
    ensures
        on_target(builder_commands(builder), target.0 as int) == (if builder.render_target_index == target {
            builder_commands(builder)
        } else {
            Seq::empty()
        }),
{
    let commands = builder_commands(builder);
    assert forall|c: int| 0 <= c < commands.len() implies (#[trigger] commands[c]).render_target
        == builder.render_target_index by {
        if c < builder.draw_commands@.len() {
            assert(commands[c] == builder.draw_commands@[c]);
        }
    }
    lemma_one_target(commands, builder.render_target_index, target);
}

proof fn lemma_one_target(commands: Seq<DrawCommand>, own: RenderTargetIndex, target: RenderTargetIndex)
    requires
        forall|c: int| 0 <= c < commands.len() ==> (#[trigger] commands[c]).render_target == own,
    ensures
        on_target(commands, target.0 as int) == (if own == target {
            commands
        } else {
            Seq::empty()
        }),
    decreases commands.len(),
{
    reveal(Seq::filter);
    if commands.len() > 0 {
        let rest = commands.drop_last();
        assert forall|c: int| 0 <= c < rest.len() implies (#[trigger] rest[c]).render_target == own by {
            assert(rest[c] == commands[c]);
        }
        lemma_one_target(rest, own, target);
        assert(commands[commands.len() - 1].render_target == own);
        assert(commands =~= rest.push(commands.last()));
    }
    assert(on_target(commands, target.0 as int) =~= (if own == target {
        commands
    } else {
        Seq::empty()
    }));
}

/// Changing the builder of one target, or adding it, changes what that target draws and nothing else.
proof fn lemma_builder_replaced(
    old_builders: Seq<DrawCommandBuilder>,
    builders: Seq<DrawCommandBuilder>,
    target: RenderTargetIndex,
    place: int,
)
    requires
        place == builder_place(old_builders, target, 0),
        0 <= place < builders.len(),
        builders[place].render_target_index == target,
        place < old_builders.len() ==> builders == old_builders,
        place >= old_builders.len() ==> builders.len() == old_builders.len() + 1 && builders.drop_last()
            == old_builders,
    ensures
        forall|builder: DrawCommandBuilder| #[trigger]
            builder_place(builders.update(place, builder), target, 0) == place || builder.render_target_index
                != target,
        forall|builder: DrawCommandBuilder, other: RenderTargetIndex|
            builder.render_target_index == target && other != target ==> #[trigger] built(
                builders.update(place, builder),
                other,
                0,
            ) == built(old_builders, other, 0),
{
    lemma_place(old_builders, target, 0);
    assert forall|k: int| 0 <= k < old_builders.len() implies #[trigger] builders[k] == old_builders[k] by {
        if place >= old_builders.len() {
            assert(builders.drop_last()[k] == builders[k]);
        }
    }
    assert forall|builder: DrawCommandBuilder| #[trigger]
        builder_place(builders.update(place, builder), target, 0) == place || builder.render_target_index
            != target by {
        if builder.render_target_index == target {
            lemma_is_place(builders.update(place, builder), target, place);
        }
    }
    assert forall|builder: DrawCommandBuilder, other: RenderTargetIndex|
        builder.render_target_index == target && other != target implies #[trigger] built(
        builders.update(place, builder),
        other,
        0,
    ) == built(old_builders, other, 0) by {
        let changed = builders.update(place, builder);
        lemma_place(old_builders, other, 0);
        lemma_place(changed, other, 0);
        let there = builder_place(old_builders, other, 0);
        let now = builder_place(changed, other, 0);
        if there < old_builders.len() {
            assert(changed[there] == old_builders[there]);
            lemma_is_place(changed, other, there);
        } else if now < changed.len() {
            assert(now < old_builders.len() && changed[now] == old_builders[now]);
        }
    }
}

proof fn lemma_on_target_add(a: Seq<DrawCommand>, b: Seq<DrawCommand>, target: int)
    ensures
        on_target(a + b, target) == on_target(a, target) + on_target(b, target),
{
    Seq::filter_distributes_over_add(a, b, |command: DrawCommand| command.render_target.0 == target);
}

/// Closing a builder changes nothing about what is drawn into any target.
proof fn lemma_flushed(a: NodeCompiler, b: NodeCompiler, place: int, other: RenderTargetIndex)
    requires
        a.wf(),
        0 <= place < a.builders@.len(),
        b.builders@ == a.builders@.remove(place),
        b.compiled_node.commands@ == a.compiled_node.commands@ + builder_commands(a.builders@[place]),
    ensures
        b.drawn(other) == a.drawn(other),
{
    let builder = a.builders@[place];
    lemma_on_target_add(a.compiled_node.commands@, builder_commands(builder), other.0 as int);
    lemma_own_target(builder, other);
    lemma_place(a.builders@, other, 0);
    lemma_place(b.builders@, other, 0);
    let there = builder_place(a.builders@, other, 0);
    let now = builder_place(b.builders@, other, 0);
    if builder.render_target_index == other {
        lemma_is_place(a.builders@, other, place);
        if now < b.builders@.len() {
            let k = if now < place { now } else { now + 1 };
            assert(b.builders@[now] == a.builders@[k]);
        }
        assert(b.drawn(other) =~= a.drawn(other));
    } else {
        if there < a.builders@.len() {
            let k = if there < place { there } else { there - 1 };
            assert(b.builders@[k] == a.builders@[there]);
            assert forall|i: int| 0 <= i < k implies (#[trigger] b.builders@[i]).render_target_index != other by {
                assert(b.builders@[i] == a.builders@[if i < place { i } else { i + 1 }]);
            }
            lemma_is_place(b.builders@, other, k);
        } else if now < b.builders@.len() {
            assert(b.builders@[now] == a.builders@[if now < place { now } else { now + 1 }]);
        }
        assert(b.drawn(other) =~= a.drawn(other));
    }
}

proof fn lemma_all_on_target(builders: Seq<DrawCommandBuilder>, target: RenderTargetIndex, n: nat)
    requires
        n <= builders.len(),
        forall|i: int| 0 <= i < builders.len() ==> (#[trigger] builders[i]).wf(),
        forall|i: int, j: int|
            0 <= i < j < builders.len() ==> (#[trigger] builders[i]).render_target_index != (
            #[trigger] builders[j]).render_target_index,
    ensures
        on_target(all_commands(builders, n), target.0 as int) == (if builder_place(builders, target, 0) < n {
            built(builders, target, 0)
        } else {
            Seq::empty()
        }),
    decreases n,
{
    lemma_place(builders, target, 0);
    if n == 0 {
        reveal(Seq::filter);
    } else {
        let builder = builders[n - 1];
        lemma_all_on_target(builders, target, (n - 1) as nat);
        lemma_on_target_add(all_commands(builders, (n - 1) as nat), builder_commands(builder), target.0 as int);
        lemma_own_target(builder, target);
        let place = builder_place(builders, target, 0);
        let all = on_target(all_commands(builders, n), target.0 as int);
        if builder.render_target_index == target {
            lemma_is_place(builders, target, n - 1);
            assert(all =~= builder_commands(builder));
        } else if place < n - 1 {
            assert(all =~= built(builders, target, 0));
        } else {
            assert(all =~= Seq::empty());
        }
    }
}

/// What is drawn into a target in the end is what was drawn into it all along.
proof fn lemma_finished(compiler: NodeCompiler, target: RenderTargetIndex)
    requires
        compiler.wf(),
    ensures
        on_target(
            compiler.compiled_node.commands@ + all_commands(compiler.builders@, compiler.builders@.len()),
            target.0 as int,
        ) == compiler.drawn(target),
{
    let builders = compiler.builders@;
    lemma_on_target_add(
        compiler.compiled_node.commands@,
        all_commands(builders, builders.len()),
        target.0 as int,
    );
    lemma_all_on_target(builders, target, builders.len());
    lemma_place(builders, target, 0);
}

proof fn lemma_no_batches(batches: Seq<RenderBatch>)
    requires
        batches.len() == 0,
    ensures
        batch_ids(batches) == Multiset::<BatchId>::empty(),
{
    let ids = batches.map_values(|batch: RenderBatch| batch.batch_id);
    ids.to_multiset_ensures();
    vstd::multiset::lemma_multiset_empty_len(ids.to_multiset());
}

/// What the builders but one have, and what that one has, is what all have.
proof fn lemma_builder_removed(builders: Seq<DrawCommandBuilder>, place: int)
    requires
        0 <= place < builders.len(),
    ensures
        batch_ids(all_batches(builders.remove(place), (builders.len() - 1) as nat)).add(
            batch_ids(builder_batches(builders[place])),
        ) == batch_ids(all_batches(builders, builders.len())),
    decreases builders.len(),
{
    let n = builders.len();
    let rest = builders.drop_last();
    let last = builders[n - 1];
    lemma_all_batches_prefix(builders, rest, (n - 1) as nat);
    lemma_batch_ids_add(all_batches(builders, (n - 1) as nat), builder_batches(last));
    if place == n - 1 {
        assert(builders.remove(place) =~= rest);
    } else {
        lemma_builder_removed(rest, place);
        let few = builders.remove(place);
        assert(few.drop_last() =~= rest.remove(place));
        assert(few[n - 2] == last);
        lemma_all_batches_prefix(few, rest.remove(place), (n - 2) as nat);
        lemma_batch_ids_add(all_batches(few, (n - 2) as nat), builder_batches(last));
        assert(batch_ids(all_batches(few, (n - 1) as nat)).add(batch_ids(builder_batches(builders[place])))
            =~= batch_ids(all_batches(builders, n)));
    }
}

proof fn lemma_all_batches_prefix(builders: Seq<DrawCommandBuilder>, rest: Seq<DrawCommandBuilder>, n: nat)
    requires
        n <= rest.len() <= builders.len(),
        forall|i: int| 0 <= i < rest.len() ==> #[trigger] rest[i] == builders[i],
    ensures
        all_batches(builders, n) == all_batches(rest, n),
    decreases n,
{
    if n > 0 {
        lemma_all_batches_prefix(builders, rest, (n - 1) as nat);
        assert(rest[n - 1] == builders[n - 1]);
    }
}

/// Changing one builder exchanges its batches.
proof fn lemma_builder_changed(builders: Seq<DrawCommandBuilder>, place: int, builder: DrawCommandBuilder)
    requires
        0 <= place < builders.len(),
    ensures
        ({
            let all = batch_ids(all_batches(builders, builders.len()));
            let own = batch_ids(builder_batches(builders[place]));
            &&& own.subset_of(all)
            &&& batch_ids(all_batches(builders.update(place, builder), builders.len())) == all.sub(own).add(
                batch_ids(builder_batches(builder)),
            )
        }),
{
    let changed = builders.update(place, builder);
    assert(changed.remove(place) =~= builders.remove(place));
    lemma_builder_removed(builders, place);
    lemma_builder_removed(changed, place);
    let all = batch_ids(all_batches(builders, builders.len()));
    let own = batch_ids(builder_batches(builders[place]));
    assert(batch_ids(all_batches(changed, builders.len())) =~= all.sub(own).add(
        batch_ids(builder_batches(builder)),
    ));
}

/// A builder without batches changes nothing.
proof fn lemma_builder_added(builders: Seq<DrawCommandBuilder>, more: Seq<DrawCommandBuilder>)
    requires
        more.len() == builders.len() + 1,
        more.drop_last() == builders,
        builder_batches(more.last()).len() == 0,
    ensures
        batch_ids(all_batches(more, more.len())) == batch_ids(all_batches(builders, builders.len())),
{
    lemma_all_batches_prefix(more, more.drop_last(), builders.len());
    assert(all_batches(more, more.len()) =~= all_batches(builders, builders.len()));
}

/// Exchanging a part of the one sum exchanges it in the other.
proof fn lemma_ids_changed(done: Multiset<BatchId>, all: Multiset<BatchId>, own: Multiset<BatchId>)
    requires
        own.subset_of(all),
    ensures
        own.subset_of(done.add(all)),
        forall|new: Multiset<BatchId>|
            #![trigger all.sub(own).add(new)]
            #![trigger done.add(all).sub(own).add(new)]
            done.add(all.sub(own).add(new)) == done.add(all).sub(own).add(new),
        done.add(all).sub(own).add(own) == done.add(all),
        forall|id: BatchId|
            done.add(all).sub(own).add(#[trigger] own.insert(id)) == done.add(all).insert(id),
{
    assert(done.add(all).sub(own).add(own) =~= done.add(all));
    assert forall|id: BatchId| done.add(all).sub(own).add(#[trigger] own.insert(id)) == done.add(all).insert(id) by {
        assert(done.add(all).sub(own).add(own.insert(id)) =~= done.add(all).insert(id));
    }
    assert forall|new: Multiset<BatchId>|
        #![trigger all.sub(own).add(new)]
        #![trigger done.add(all).sub(own).add(new)]
        done.add(all.sub(own).add(new)) == done.add(all).sub(own).add(new) by {
        assert(done.add(all.sub(own).add(new)) =~= done.add(all).sub(own).add(new));
    }
}

} // verus!
