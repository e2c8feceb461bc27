//! What the renderer is told of a batch, and in which order.
use crate::batch::{CompiledNode, MatrixMap, RenderBatch, UpdateOpView, UpdateView};
use crate::builder::batch_ids;
use crate::compile::NodeCompiler;
use crate::ids::BatchId;
use crate::node::AABBTreeNode;
use crate::scene::FlatView;
use crate::visible::{
    all_created, all_handed_over, all_uniforms, created, frame_updates, handed_over, map_noted, map_place, map_views,
    maps_noted, palette, uniform_updates, visible_uniforms, MapView,
};
use vstd::multiset::Multiset;
use vstd::prelude::*;

verus! {

/// The batches that a node would hand over now.
pub open spec fn held(node: AABBTreeNode) -> Seq<RenderBatch> {
    match node.compiled_node {
        Some(compiled) if node.is_visible => compiled.batches@,
        _ => Seq::empty(),
    }
}

/// The batches that a visible node has handed over before.
pub open spec fn noted(node: AABBTreeNode) -> Seq<MapView> {
    match node.compiled_node {
        Some(compiled) if node.is_visible => map_views(compiled.matrix_maps@),
        _ => Seq::empty(),
    }
}

/// No two batches that the visible nodes hold or have handed over have the same identifier.
pub open spec fn batches_apart(nodes: Seq<AABBTreeNode>) -> bool {
    &&& forall|v: int, b: int, w: int, c: int|
        0 <= v < nodes.len() && 0 <= b < held(nodes[v]).len() && 0 <= w < nodes.len() && 0 <= c < held(
            nodes[w],
        ).len() && (v != w || b != c) ==> (#[trigger] held(nodes[v])[b]).batch_id != (#[trigger] held(
            nodes[w],
        )[c]).batch_id
    &&& forall|v: int, b: int, w: int, m: int|
        0 <= v < nodes.len() && 0 <= b < held(nodes[v]).len() && 0 <= w < nodes.len() && 0 <= m < noted(
            nodes[w],
        ).len() ==> (#[trigger] held(nodes[v])[b]).batch_id != (#[trigger] noted(nodes[w])[m]).batch_id
}

/// The one update of a batch is the one at a place.
pub open spec fn only_at(updates: Seq<UpdateView>, id: BatchId, place: int) -> bool {
    &&& 0 <= place < updates.len()
    &&& updates[place].id == id
    &&& forall|i: int| 0 <= i < updates.len() && (#[trigger] updates[i]).id == id ==> i == place
}

/// There is no update of a batch.
pub open spec fn nowhere(updates: Seq<UpdateView>, id: BatchId) -> bool {
    forall|i: int| 0 <= i < updates.len() ==> (#[trigger] updates[i]).id != id
}

proof fn lemma_nowhere_add(a: Seq<UpdateView>, b: Seq<UpdateView>, id: BatchId)
    requires
        nowhere(a, id),
        nowhere(b, id),
    ensures
        nowhere(a + b, id),
{
}

proof fn lemma_only_left(a: Seq<UpdateView>, b: Seq<UpdateView>, id: BatchId, place: int)
    requires
        only_at(a, id, place),
        nowhere(b, id),
    ensures
        only_at(a + b, id, place),
        (a + b)[place] == a[place],
{
}

proof fn lemma_only_right(a: Seq<UpdateView>, b: Seq<UpdateView>, id: BatchId, place: int)
    requires
        nowhere(a, id),
        only_at(b, id, place),
    ensures
        only_at(a + b, id, a.len() + place),
        (a + b)[a.len() + place] == b[place],
{
}

/// A batch that is held is created once.
proof fn lemma_created(nodes: Seq<AABBTreeNode>, v: int, b: int, n: nat)
    requires
        batches_apart(nodes),
        n <= nodes.len(),
        0 <= v < nodes.len(),
        0 <= b < held(nodes[v]).len(),
    ensures
        ({
            let updates = all_created(nodes, n);
            let batch = held(nodes[v])[b];
            if v < n {
                exists|place: int| #[trigger]
                    only_at(updates, batch.batch_id, place) && updates[place] == created(batch)
            } else {
                nowhere(updates, batch.batch_id)
            }
        }),
    decreases n,
{
    if n > 0 {
        lemma_created(nodes, v, b, (n - 1) as nat);
        let before = all_created(nodes, (n - 1) as nat);
        let node = nodes[n - 1];
        let now = held(node).map_values(|batch: RenderBatch| created(batch));
        let batch = held(nodes[v])[b];
        assert(all_created(nodes, n) =~= before + now);
        if v == n - 1 {
            assert forall|i: int| 0 <= i < now.len() && (#[trigger] now[i]).id == batch.batch_id implies i == b by {
                assert(now[i].id == held(nodes[n - 1])[i].batch_id);
            }
            assert(only_at(now, batch.batch_id, b));
            lemma_only_right(before, now, batch.batch_id, b);
        } else {
            assert forall|i: int| 0 <= i < now.len() implies (#[trigger] now[i]).id != batch.batch_id by {
                assert(now[i].id == held(nodes[n - 1])[i].batch_id);
            }
            if v < n {
                let place = choose|place: int| #[trigger]
                    only_at(before, batch.batch_id, place) && before[place] == created(batch);
                lemma_only_left(before, now, batch.batch_id, place);
            } else {
                lemma_nowhere_add(before, now, batch.batch_id);
            }
        }
    }
}

proof fn lemma_no_place(maps: Seq<MapView>, id: BatchId, i: int)
    requires
        0 <= i <= maps.len(),
        forall|m: int| 0 <= m < maps.len() ==> (#[trigger] maps[m]).batch_id != id,
    ensures
        map_place(maps, id, i) == maps.len(),
    decreases maps.len() - i,
{
    if i < maps.len() {
        lemma_no_place(maps, id, i + 1);
    }
}

/// The slots of batches with new identifiers are noted behind the others.
proof fn lemma_noted(maps: Seq<MapView>, batches: Seq<RenderBatch>, n: nat)
    requires
        n <= batches.len(),
        forall|b: int, c: int|
            0 <= b < batches.len() && 0 <= c < batches.len() && b != c ==> (#[trigger] batches[b]).batch_id != (
            #[trigger] batches[c]).batch_id,
        forall|b: int, m: int|
            0 <= b < batches.len() && 0 <= m < maps.len() ==> (#[trigger] batches[b]).batch_id != (
            #[trigger] maps[m]).batch_id,
    ensures
        maps_noted(maps, batches, n) == maps + batches.take(n as int).map_values(
            |batch: RenderBatch| MapView { batch_id: batch.batch_id, slots: batch.matrix_map@ },
        ),
    decreases n,
{
    let view = |batch: RenderBatch| MapView { batch_id: batch.batch_id, slots: batch.matrix_map@ };
    if n == 0 {
        assert(maps_noted(maps, batches, n) =~= maps + batches.take(0).map_values(view));
    } else {
        lemma_noted(maps, batches, (n - 1) as nat);
        let rest = maps_noted(maps, batches, (n - 1) as nat);
        let batch = batches[n - 1];
        assert forall|m: int| 0 <= m < rest.len() implies (#[trigger] rest[m]).batch_id != batch.batch_id by {
            if m < maps.len() {
                assert(rest[m] == maps[m]);
            } else {
                assert(rest[m].batch_id == batches[m - maps.len()].batch_id);
            }
        }
        lemma_no_place(rest, batch.batch_id, 0);
        assert(map_noted(rest, batch.batch_id, batch.matrix_map@) =~= maps + batches.take(n as int).map_values(
            view,
        ));
    }
}

/// The matrix updates of a node, one by one.
proof fn lemma_uniforms(maps: Seq<MatrixMap>, flat: Seq<FlatView>, n: nat)
    requires
        n <= maps.len(),
    ensures
        uniform_updates(maps, flat, n).len() == n,
        forall|i: int|
            0 <= i < n ==> (#[trigger] uniform_updates(maps, flat, n)[i]) == (UpdateView {
                id: maps[i].batch_id,
                op: UpdateOpView::UpdateUniforms(palette(maps[i].slots@, flat, maps[i].slots@.len())),
            }),
    decreases n,
{
    if n > 0 {
        lemma_uniforms(maps, flat, (n - 1) as nat);
    }
}

/// A batch that is handed over gets its matrices once.
proof fn lemma_matrices(
    before: Seq<AABBTreeNode>,
    after: Seq<AABBTreeNode>,
    flat: Seq<FlatView>,
    v: int,
    b: int,
    n: nat,
)
    requires
        batches_apart(before),
        all_handed_over(before, after),
        n <= before.len(),
        0 <= v < before.len(),
        0 <= b < held(before[v]).len(),
    ensures
        ({
            let updates = all_uniforms(after, flat, n);
            let batch = held(before[v])[b];
            if v < n {
                exists|place: int| #[trigger]
                    only_at(updates, batch.batch_id, place) && updates[place] == uniforms_of(batch, flat)
            } else {
                nowhere(updates, batch.batch_id)
            }
        }),
    decreases n,
{
    if n > 0 {
        lemma_matrices(before, after, flat, v, b, (n - 1) as nat);
        let earlier = all_uniforms(after, flat, (n - 1) as nat);
        let now = visible_uniforms(after[n - 1], flat);
        let batch = held(before[v])[b];
        let node = before[n - 1];
        assert(all_uniforms(after, flat, n) == earlier + now);
        let batches = held(node);
        let maps = noted(node);
        assert(handed_over(node, after[n - 1]));
        match node.compiled_node {
            Some(compiled) if node.is_visible => {
                let new_maps = after[n - 1].compiled_node.unwrap().matrix_maps@;
                assert forall|i: int, j: int|
                    0 <= i < batches.len() && 0 <= j < batches.len() && i != j implies (
                #[trigger] batches[i]).batch_id != (#[trigger] batches[j]).batch_id by {
                    assert(held(before[n - 1])[i].batch_id != held(before[n - 1])[j].batch_id);
                }
                assert forall|i: int, m: int|
                    0 <= i < batches.len() && 0 <= m < maps.len() implies (#[trigger] batches[i]).batch_id != (
                #[trigger] maps[m]).batch_id by {
                    assert(held(before[n - 1])[i].batch_id != noted(before[n - 1])[m].batch_id);
                }
                lemma_noted(maps, batches, batches.len());
                lemma_uniforms(new_maps, flat, new_maps.len());
                assert(batches.take(batches.len() as int) =~= batches);
                assert(new_maps.len() == maps.len() + batches.len()) by {
                    assert(map_views(new_maps).len() == new_maps.len());
                }
                assert forall|i: int| 0 <= i < now.len() implies (#[trigger] now[i]).id == (if i < maps.len() {
                    noted(before[n - 1])[i].batch_id
                } else {
                    held(before[n - 1])[i - maps.len()].batch_id
                }) by {
                    assert(map_views(new_maps)[i] == new_maps[i]@);
                }
                if v == n - 1 {
                    let place = maps.len() + b;
                    assert(map_views(new_maps)[place] == new_maps[place]@);
                    assert(now[place] == uniforms_of(batch, flat));
                    assert(only_at(now, batch.batch_id, place));
                    lemma_only_right(earlier, now, batch.batch_id, place);
                } else {
                    assert(nowhere(now, batch.batch_id));
                }
            },
            _ => {
                assert(now =~= Seq::empty());
                assert(v != n - 1);
            },
        }
        if v != n - 1 {
            if v < n {
                let place = choose|place: int| #[trigger]
                    only_at(earlier, batch.batch_id, place) && earlier[place] == uniforms_of(batch, flat);
                lemma_only_left(earlier, now, batch.batch_id, place);
            } else {
                lemma_nowhere_add(earlier, now, batch.batch_id);
            }
        }
    }
}

/// The update that sends the matrices of a batch.
pub open spec fn uniforms_of(batch: RenderBatch, flat: Seq<FlatView>) -> UpdateView {
    UpdateView {
        id: batch.batch_id,
        op: UpdateOpView::UpdateUniforms(palette(batch.matrix_map@, flat, batch.matrix_map@.len())),
    }
}

/// Of each batch that is handed over for a frame, the renderer is told twice and no more: first that
/// it is created, and then what its matrices are.
pub proof fn batches_are_created_before_they_are_used(
    before: Seq<AABBTreeNode>,
    after: Seq<AABBTreeNode>,
    flat: Seq<FlatView>,
    v: int,
    b: int,
)
    requires
        batches_apart(before),
        all_handed_over(before, after),
        0 <= v < before.len(),
        0 <= b < held(before[v]).len(),
    ensures
        ({
            let updates = frame_updates(before, after, flat);
            let batch = held(before[v])[b];
            exists|c: int, u: int|
                #![trigger updates[c], updates[u]]
                {
                    &&& 0 <= c < u < updates.len()
                    &&& updates[c] == created(batch)
                    &&& updates[u] == uniforms_of(batch, flat)
                    &&& forall|i: int|
                        0 <= i < updates.len() && (#[trigger] updates[i]).id == batch.batch_id ==> i == c || i == u
                }
        }),
{
    let updates = frame_updates(before, after, flat);
    let batch = held(before[v])[b];
    let first = all_created(before, before.len());
    let second = all_uniforms(after, flat, after.len());
    lemma_created(before, v, b, before.len());
    lemma_matrices(before, after, flat, v, b, after.len());
    let c = choose|place: int| #[trigger] only_at(first, batch.batch_id, place) && first[place] == created(batch);
    let u = choose|place: int| #[trigger]
        only_at(second, batch.batch_id, place) && second[place] == uniforms_of(batch, flat);
    assert(updates[c] == created(batch));
    assert(updates[first.len() + u] == uniforms_of(batch, flat));
    assert forall|i: int| 0 <= i < updates.len() && (#[trigger] updates[i]).id == batch.batch_id implies i == c || i
        == first.len() + u by {
        if i < first.len() {
            assert(updates[i] == first[i]);
        } else {
            assert(updates[i] == second[i - first.len()]);
        }
    }
}

/// How the batches of a node in the making change from one moment to the next: not at all, or by one
/// batch under the identifier that is given out.
pub open spec fn id_given_out(before: NodeCompiler, after: NodeCompiler, id: Option<BatchId>) -> bool {
    ||| after.ids() == before.ids()
    ||| id is Some && after.ids() == before.ids().insert(id.unwrap())
}

proof fn lemma_ids_given_out(states: Seq<NodeCompiler>, given: Seq<Option<BatchId>>, n: int)
    requires
        0 <= n <= given.len(),
        states.len() == given.len() + 1,
        states[0].ids() == Multiset::<BatchId>::empty(),
        forall|s: int| 0 <= s < given.len() ==> id_given_out(states[s], states[s + 1], #[trigger] given[s]),
        forall|s: int, t: int|
            0 <= s < t < given.len() && (#[trigger] given[s]) is Some ==> given[s] != (#[trigger] given[t]),
    ensures
        forall|id: BatchId| #[trigger] states[n].ids().count(id) <= 1,
        forall|id: BatchId| #[trigger]
            states[n].ids().count(id) > 0 ==> exists|s: int| 0 <= s < n && #[trigger] given[s] == Some(id),
    decreases n,
{
    if n > 0 {
        lemma_ids_given_out(states, given, n - 1);
        let before = states[n - 1].ids();
        let after = states[n].ids();
        assert(id_given_out(states[n - 1], states[n - 1 + 1], given[n - 1]));
        if after != before {
            let new = given[n - 1].unwrap();
            assert(before.count(new) == 0);
            assert forall|id: BatchId| #[trigger] after.count(id) > 0 implies exists|s: int|
                0 <= s < n && #[trigger] given[s] == Some(id) by {
                if id == new {
                    assert(given[n - 1] == Some(id));
                } else {
                    assert(before.count(id) > 0);
                }
            }
        } else {
            assert forall|id: BatchId| #[trigger] after.count(id) > 0 implies exists|s: int|
                0 <= s < n && #[trigger] given[s] == Some(id) by {
                assert(before.count(id) > 0);
            }
        }
    }
}

/// Where no identifier is given out twice, no two batches of a finished node have the same one, and
/// each has one that was given out for the node.
pub proof fn batches_have_identifiers_of_their_own(
    states: Seq<NodeCompiler>,
    given: Seq<Option<BatchId>>,
    compiled: CompiledNode,
)
    requires
        states.len() == given.len() + 1,
        states[0].ids() == Multiset::<BatchId>::empty(),
        forall|s: int| 0 <= s < given.len() ==> id_given_out(states[s], states[s + 1], #[trigger] given[s]),
        forall|s: int, t: int|
            0 <= s < t < given.len() && (#[trigger] given[s]) is Some ==> given[s] != (#[trigger] given[t]),
        batch_ids(compiled.batches@) == states.last().ids(),
    ensures
        forall|b: int, c: int|
            0 <= b < c < compiled.batches@.len() ==> (#[trigger] compiled.batches@[b]).batch_id != (
            #[trigger] compiled.batches@[c]).batch_id,
        forall|b: int|
            0 <= b < compiled.batches@.len() ==> given.contains(Some((#[trigger] compiled.batches@[b]).batch_id)),
{
    lemma_ids_given_out(states, given, given.len() as int);
    let ids = compiled.batches@.map_values(|batch: RenderBatch| batch.batch_id);
    ids.lemma_multiset_has_no_duplicates_conv();
    ids.to_multiset_ensures();
    assert forall|b: int, c: int| 0 <= b < c < compiled.batches@.len() implies (
    #[trigger] compiled.batches@[b]).batch_id != (#[trigger] compiled.batches@[c]).batch_id by {
        assert(ids[b] != ids[c]);
    }
    assert forall|b: int| 0 <= b < compiled.batches@.len() implies given.contains(
        Some((#[trigger] compiled.batches@[b]).batch_id),
    ) by {
        assert(ids[b] == compiled.batches@[b].batch_id);
        assert(ids.contains(ids[b]));
        assert(states.last().ids().count(ids[b]) > 0);
    }
}

/// Where the batches of each node have identifiers of their own, given out for that node alone and
/// not in use, the batches of all nodes are apart.
pub proof fn new_batches_are_apart(nodes: Seq<AABBTreeNode>, given: Seq<Set<BatchId>>)
    requires
        given.len() == nodes.len(),
        forall|v: int, w: int, id: BatchId|
            0 <= v < w < given.len() && #[trigger] given[v].contains(id) ==> !#[trigger] given[w].contains(id),
        forall|v: int, b: int|
            0 <= v < nodes.len() && 0 <= b < held(nodes[v]).len() ==> given[v].contains(
                (#[trigger] held(nodes[v])[b]).batch_id,
            ),
        forall|v: int, b: int, c: int|
            0 <= v < nodes.len() && 0 <= b < c < held(nodes[v]).len() ==> (#[trigger] held(nodes[v])[b]).batch_id != (
            #[trigger] held(nodes[v])[c]).batch_id,
        forall|v: int, w: int, m: int|
            0 <= v < given.len() && 0 <= w < nodes.len() && 0 <= m < noted(nodes[w]).len() ==> !(
            #[trigger] given[v]).contains((#[trigger] noted(nodes[w])[m]).batch_id),
    ensures
        batches_apart(nodes),
{
    assert forall|v: int, b: int, w: int, c: int|
        0 <= v < nodes.len() && 0 <= b < held(nodes[v]).len() && 0 <= w < nodes.len() && 0 <= c < held(
            nodes[w],
        ).len() && (v != w || b != c) implies (#[trigger] held(nodes[v])[b]).batch_id != (#[trigger] held(
        nodes[w],
    )[c]).batch_id by {
        let id = held(nodes[v])[b].batch_id;
        let other = held(nodes[w])[c].batch_id;
        assert(given[v].contains(id) && given[w].contains(other));
        if id == other && v < w {
            assert(!given[w].contains(id));
        } else if id == other && w < v {
            assert(given[w].contains(id) && !given[v].contains(id));
        }
    }
    assert forall|v: int, b: int, w: int, m: int|
        0 <= v < nodes.len() && 0 <= b < held(nodes[v]).len() && 0 <= w < nodes.len() && 0 <= m < noted(
            nodes[w],
        ).len() implies (#[trigger] held(nodes[v])[b]).batch_id != (#[trigger] noted(nodes[w])[m]).batch_id by {
        assert(given[v].contains(held(nodes[v])[b].batch_id));
    }
}

} // verus!
