//! Frames: the draw commands of the visible nodes, layer by layer and in painting order.
use crate::ids::{DisplayItemKey, Epoch, TextureId};
use crate::batch::DrawCommand;
use crate::geometry::DeviceSize;
use std::collections::HashMap;
use vstd::prelude::*;

verus! {

/// The commands for one render target.
#[derive(Debug, PartialEq)]
pub struct DrawLayer {
    pub texture_id: Option<TextureId>,
    pub size: DeviceSize,
    pub commands: Vec<DrawCommand>,
}

/// What the renderer draws: a layer for each render target on which something is visible.
#[derive(Debug)]
pub struct Frame {
    pub pipeline_epoch_map: HashMap<u64, Epoch>,
    pub layers: Vec<DrawLayer>,
}

impl DrawLayer {
    /// A layer of the given commands.
    pub fn new(texture_id: Option<TextureId>, size: DeviceSize, commands: Vec<DrawCommand>) -> (layer: DrawLayer)
        ensures
            layer == (DrawLayer { texture_id, size, commands }),
    {
        DrawLayer { texture_id, size, commands }
    }
}

impl Frame {
    /// A frame without layers.
    pub fn new(pipeline_epoch_map: HashMap<u64, Epoch>) -> (frame: Frame)
        ensures
            frame.pipeline_epoch_map == pipeline_epoch_map,
            frame.layers@ == Seq::<DrawLayer>::empty(),
    {
        Frame { pipeline_epoch_map, layers: Vec::new() }
    }

    /// Adds a layer on top of the others.
    pub fn add_layer(&mut self, layer: DrawLayer)
        ensures
            final(self).layers@ == old(self).layers@.push(layer),
            final(self).pipeline_epoch_map == old(self).pipeline_epoch_map,
    {
        self.layers.push(layer);
    }
}

/// The commands with a given place in painting order.
pub open spec fn with_key(commands: Seq<DrawCommand>, key: DisplayItemKey) -> Seq<DrawCommand> {
    commands.filter(|command: DrawCommand| command.sort_key == key)
}

/// No command comes before one that is painted earlier.
pub open spec fn in_painting_order(commands: Seq<DrawCommand>) -> bool {
    forall|i: int, j: int|
        0 <= i < j < commands.len() ==> !(#[trigger] commands[j]).sort_key.before(
            (#[trigger] commands[i]).sort_key,
        )
}

/// `b` holds the commands of `a` in painting order; those with the same place are in the order
/// that they had.
pub open spec fn sorted_from(a: Seq<DrawCommand>, b: Seq<DrawCommand>) -> bool {
    &&& in_painting_order(b)
    &&& forall|key: DisplayItemKey| #[trigger] with_key(b, key) == with_key(a, key)
}

proof fn lemma_with_key_push(commands: Seq<DrawCommand>, command: DrawCommand, key: DisplayItemKey)
    ensures
        with_key(commands.push(command), key) == (if command.sort_key == key {
            with_key(commands, key).push(command)
        } else {
            with_key(commands, key)
        }),
{
    let pred = |command: DrawCommand| command.sort_key == key;
    let all = commands.push(command);
    assert(all.drop_last() =~= commands);
    reveal(Seq::filter);
}

proof fn lemma_with_key_empty(commands: Seq<DrawCommand>, key: DisplayItemKey)
    requires
        forall|i: int| 0 <= i < commands.len() ==> (#[trigger] commands[i]).sort_key != key,
    ensures
        with_key(commands, key) == Seq::<DrawCommand>::empty(),
    decreases commands.len(),
{
    reveal(Seq::filter);
    if commands.len() > 0 {
        let rest = commands.drop_last();
        assert forall|i: int| 0 <= i < rest.len() implies (#[trigger] rest[i]).sort_key != key by {
            assert(commands[i].sort_key != key);
        }
        lemma_with_key_empty(rest, key);
        assert(commands[commands.len() - 1].sort_key != key);
    }
}

impl DisplayItemKey {
    /// Whether `self` is painted before `other`.
    pub fn is_before(&self, other: &DisplayItemKey) -> (r: bool)
        ensures
            r == self.before(*other),
    {
        if self.draw_list_index.0 < other.draw_list_index.0 {
            true
        } else if self.draw_list_index.0 > other.draw_list_index.0 {
            false
        } else {
            self.item_index.0 < other.item_index.0
        }
    }
}

/// Merges two runs that are in painting order; of commands with the same place, those of the
/// first run come first.
fn merge(first: &Vec<DrawCommand>, second: &Vec<DrawCommand>) -> (r: Vec<DrawCommand>)
    requires
        in_painting_order(first@),
        in_painting_order(second@),
        first@.len() + second@.len() <= usize::MAX,
    ensures
        r@.len() == first@.len() + second@.len(),
        in_painting_order(r@),
        forall|key: DisplayItemKey| #[trigger]
            with_key(r@, key) == with_key(first@, key) + with_key(second@, key),
{
    let mut r: Vec<DrawCommand> = Vec::new();
    let mut i: usize = 0;
    let mut j: usize = 0;
    proof {
        assert forall|key: DisplayItemKey| #[trigger]
            with_key(r@, key) == with_key(first@.take(0), key) + with_key(second@.take(0), key) by {
            lemma_with_key_empty(r@, key);
            lemma_with_key_empty(first@.take(0), key);
            lemma_with_key_empty(second@.take(0), key);
        }
    }
    while i < first.len() || j < second.len()
        invariant
            i <= first@.len(),
            j <= second@.len(),
            in_painting_order(first@),
            in_painting_order(second@),
            first@.len() + second@.len() <= usize::MAX,
            r@.len() == i + j,
            in_painting_order(r@),
            forall|m: int, n: int|
                0 <= m < r@.len() && i <= n < first@.len() ==> !(#[trigger] first@[n]).sort_key.before(
                    (#[trigger] r@[m]).sort_key,
                ),
            forall|m: int, n: int|
                0 <= m < r@.len() && j <= n < second@.len() ==> !(#[trigger] second@[n]).sort_key.before(
                    (#[trigger] r@[m]).sort_key,
                ),
            forall|m: int, n: int|
                0 <= m < j && i <= n < first@.len() ==> (#[trigger] second@[m]).sort_key.before(
                    (#[trigger] first@[n]).sort_key,
                ),
            forall|key: DisplayItemKey| #[trigger]
                with_key(r@, key) == with_key(first@.take(i as int), key) + with_key(
                    second@.take(j as int),
                    key,
                ),
        decreases first@.len() + second@.len() - i - j,
    {
        let ghost before = r@;
        if i < first.len() && (j >= second.len() || !second[j].sort_key.is_before(&first[i].sort_key)) {
            let command = first[i];
            r.push(command);
            proof {
                assert(first@.take(i + 1) =~= first@.take(i as int).push(command));
                assert forall|key: DisplayItemKey| #[trigger]
                    with_key(r@, key) == with_key(first@.take(i + 1), key) + with_key(
                        second@.take(j as int),
                        key,
                    ) by {
                    lemma_with_key_push(before, command, key);
                    lemma_with_key_push(first@.take(i as int), command, key);
                    if command.sort_key == key {
                        let taken = second@.take(j as int);
                        assert forall|m: int| 0 <= m < taken.len() implies (#[trigger] taken[m]).sort_key
                            != key by {
                            assert(second@[m].sort_key.before(first@[i as int].sort_key));
                        }
                        lemma_with_key_empty(taken, key);
                    }
                    assert(with_key(r@, key) =~= with_key(first@.take(i + 1), key) + with_key(
                        second@.take(j as int),
                        key,
                    ));
                }
            }
            i = i + 1;
        } else {
            let command = second[j];
            r.push(command);
            proof {
                assert(second@.take(j + 1) =~= second@.take(j as int).push(command));
                assert forall|key: DisplayItemKey| #[trigger]
                    with_key(r@, key) == with_key(first@.take(i as int), key) + with_key(
                        second@.take(j + 1),
                        key,
                    ) by {
                    lemma_with_key_push(before, command, key);
                    lemma_with_key_push(second@.take(j as int), command, key);
                    assert(with_key(r@, key) =~= with_key(first@.take(i as int), key) + with_key(
                        second@.take(j + 1),
                        key,
                    ));
                }
                assert forall|m: int, n: int| 0 <= m < j + 1 && i <= n < first@.len() implies (
                #[trigger] second@[m]).sort_key.before((#[trigger] first@[n]).sort_key) by {
                    if m == j {
                        assert(second@[j as int].sort_key.before(first@[i as int].sort_key));
                        if i < n {
                            assert(!first@[n].sort_key.before(first@[i as int].sort_key));
                        }
                    }
                }
            }
            j = j + 1;
        }
    }
    assert(first@.take(i as int) =~= first@);
    assert(second@.take(j as int) =~= second@);
    r
}

/// Puts commands into painting order; commands with the same place keep their order.
pub fn sort_commands(commands: &Vec<DrawCommand>) -> (r: Vec<DrawCommand>)
    ensures
        r@.len() == commands@.len(),
        sorted_from(commands@, r@),
{
    let r = sort_range(commands, 0, commands.len());
    assert(commands@.subrange(0, commands@.len() as int) =~= commands@);
    r
}

fn sort_range(commands: &Vec<DrawCommand>, from: usize, to: usize) -> (r: Vec<DrawCommand>)
    requires
        from <= to <= commands@.len(),
    ensures
        r@.len() == to - from,
        sorted_from(commands@.subrange(from as int, to as int), r@),
    decreases to - from,
{
    if to - from < 2 {
        let mut r: Vec<DrawCommand> = Vec::new();
        if from < to {
            r.push(commands[from]);
        }
        assert(r@ =~= commands@.subrange(from as int, to as int));
        return r;
    }
    let middle: usize = from + (to - from) / 2;
    let first = sort_range(commands, from, middle);
    let second = sort_range(commands, middle, to);
    let r = merge(&first, &second);
    proof {
        let left = commands@.subrange(from as int, middle as int);
        let right = commands@.subrange(middle as int, to as int);
        let whole = commands@.subrange(from as int, to as int);
        assert(whole =~= left + right);
        assert forall|key: DisplayItemKey| #[trigger] with_key(r@, key) == with_key(whole, key) by {
            let pred = |command: DrawCommand| command.sort_key == key;
            Seq::filter_distributes_over_add(left, right, pred);
            assert(with_key(first@, key) == with_key(left, key));
            assert(with_key(second@, key) == with_key(right, key));
        }
    }
    r
}

proof fn lemma_with_key_contains(commands: Seq<DrawCommand>, i: int)
    requires
        0 <= i < commands.len(),
    ensures
        with_key(commands, commands[i].sort_key).contains(commands[i]),
{
    let key = commands[i].sort_key;
    commands.lemma_filter_contains(|command: DrawCommand| command.sort_key == key, i);
}

proof fn lemma_with_key_members(commands: Seq<DrawCommand>, key: DisplayItemKey, command: DrawCommand)
    requires
        with_key(commands, key).contains(command),
    ensures
        commands.contains(command),
        command.sort_key == key,
{
    let pred = |command: DrawCommand| command.sort_key == key;
    let kept = with_key(commands, key);
    let i = kept.index_of(command);
    commands.lemma_filter_pred(pred, i);
    commands.lemma_filter_contains_rev(pred, command);
}

/// The command that is painted last has the last place of all.
proof fn lemma_last_place(a: Seq<DrawCommand>, b: Seq<DrawCommand>, c: Seq<DrawCommand>)
    requires
        sorted_from(a, b),
        sorted_from(a, c),
        b.len() > 0,
        c.len() > 0,
    ensures
        b.last().sort_key == c.last().sort_key,
{
    let p = b.last();
    let q = c.last();
    lemma_with_key_contains(b, b.len() - 1);
    lemma_with_key_contains(c, c.len() - 1);
    assert(with_key(b, p.sort_key) == with_key(c, p.sort_key));
    assert(with_key(b, q.sort_key) == with_key(c, q.sort_key));
    lemma_with_key_members(c, p.sort_key, p);
    lemma_with_key_members(b, q.sort_key, q);
    let i = c.index_of(p);
    let j = b.index_of(q);
    if i < c.len() - 1 {
        assert(!c[c.len() - 1].sort_key.before(c[i].sort_key));
    }
    if j < b.len() - 1 {
        assert(!b[b.len() - 1].sort_key.before(b[j].sort_key));
    }
}

proof fn lemma_nothing_left(a: Seq<DrawCommand>, b: Seq<DrawCommand>)
    requires
        sorted_from(a, b),
        b.len() == 0,
    ensures
        a.len() == 0,
{
    if a.len() > 0 {
        lemma_with_key_contains(a, 0);
        let key = a[0].sort_key;
        lemma_with_key_empty(b, key);
        assert(with_key(b, key) == with_key(a, key));
    }
}

/// There is only one way to put commands into painting order and keep the order of those with
/// the same place.
pub proof fn painting_order_is_unique(a: Seq<DrawCommand>, b: Seq<DrawCommand>, c: Seq<DrawCommand>)
    requires
        sorted_from(a, b),
        sorted_from(a, c),
    ensures
        b == c,
    decreases b.len(),
{
    if b.len() == 0 {
        lemma_nothing_left(a, b);
        if c.len() > 0 {
            lemma_with_key_contains(c, 0);
            let key = c[0].sort_key;
            lemma_with_key_empty(a, key);
            assert(with_key(c, key) == with_key(a, key));
        }
        assert(b =~= c);
    } else if c.len() == 0 {
        lemma_nothing_left(a, c);
        lemma_with_key_contains(b, 0);
        let key = b[0].sort_key;
        lemma_with_key_empty(a, key);
        assert(with_key(b, key) == with_key(a, key));
    } else {
        lemma_last_place(a, b, c);
        let key = b.last().sort_key;
        let b0 = b.drop_last();
        let c0 = c.drop_last();
        assert(b =~= b0.push(b.last()));
        assert(c =~= c0.push(c.last()));
        lemma_with_key_push(b0, b.last(), key);
        lemma_with_key_push(c0, c.last(), key);
        assert(with_key(b, key) == with_key(c, key));
        assert(with_key(b, key).last() == b.last());
        assert(with_key(c, key).last() == c.last());
        assert(b.last() == c.last());
        // Without the last command, both are the rest of the first one in order.
        assert forall|k: DisplayItemKey| #[trigger] with_key(c0, k) == with_key(b0, k) by {
            lemma_with_key_push(b0, b.last(), k);
            lemma_with_key_push(c0, c.last(), k);
            assert(with_key(b, k) == with_key(c, k));
            assert(with_key(b0, k) =~= with_key(c0, k)) by {
                if k == key {
                    assert(with_key(b0, k) =~= with_key(b, k).drop_last());
                    assert(with_key(c0, k) =~= with_key(c, k).drop_last());
                }
            }
        }
        assert(in_painting_order(b0)) by {
            assert forall|i: int, j: int| 0 <= i < j < b0.len() implies !(#[trigger] b0[j]).sort_key.before(
                (#[trigger] b0[i]).sort_key,
            ) by {
                assert(!b[j].sort_key.before(b[i].sort_key));
            }
        }
        assert(in_painting_order(c0)) by {
            assert forall|i: int, j: int| 0 <= i < j < c0.len() implies !(#[trigger] c0[j]).sort_key.before(
                (#[trigger] c0[i]).sort_key,
            ) by {
                assert(!c[j].sort_key.before(c[i].sort_key));
            }
        }
        painting_order_is_unique(b0, b0, c0);
        assert(b =~= c);
    }
}

/// Putting commands into painting order neither drops a command nor makes one up.
pub proof fn sorting_keeps_commands(a: Seq<DrawCommand>, b: Seq<DrawCommand>, command: DrawCommand)
    requires
        sorted_from(a, b),
    ensures
        a.contains(command) <==> b.contains(command),
{
    let key = command.sort_key;
    assert(with_key(b, key) == with_key(a, key));
    if a.contains(command) {
        let i = a.index_of(command);
        lemma_with_key_contains(a, i);
        lemma_with_key_members(b, key, command);
    }
    if b.contains(command) {
        let i = b.index_of(command);
        lemma_with_key_contains(b, i);
        lemma_with_key_members(a, key, command);
    }
}

} // verus!
