//! The draw lists that the backend owns: those in its table, and those that the scene has taken
//! from it.
use crate::display::{DisplayList, ItemView};
use crate::flatten::Flattening;
use crate::flatten_laws::lists_moved;
use crate::ids::{DrawListID, Epoch, PipelineId};
use crate::phases::slots;
use crate::scene::FlatView;
use vstd::prelude::*;

verus! {

/// A table after the first `n` flat draw lists were put back into it.  Lists that never were in
/// a table are dropped.
pub open spec fn returned(lists: Map<u64, Seq<ItemView>>, flat: Seq<FlatView>, n: nat) -> Map<u64, Seq<ItemView>>
    decreases n,
{
    if n == 0 {
        lists
    } else {
        let rest = returned(lists, flat, (n - 1) as nat);
        match flat[n - 1].id {
            Some(id) => rest.insert(id.0, flat[n - 1].items),
            None => rest,
        }
    }
}

/// The lists in the table and in the scene.
pub open spec fn owned(lists: Map<u64, Seq<ItemView>>, flat: Seq<FlatView>) -> Map<u64, Seq<ItemView>> {
    returned(lists, flat, flat.len())
}

/// A list is in the table or in the scene, and once in the scene.
pub open spec fn apart(lists: Map<u64, Seq<ItemView>>, flat: Seq<FlatView>) -> bool {
    &&& forall|k: int|
        0 <= k < flat.len() ==> match (#[trigger] flat[k]).id {
            Some(id) => !lists.contains_key(id.0),
            None => true,
        }
    &&& forall|j: int, k: int|
        0 <= j < k < flat.len() && (#[trigger] flat[j]).id is Some ==> flat[j].id != (#[trigger] flat[k]).id
}

/// Whether a display list refers to a draw list.
pub open spec fn names(list: DisplayList, id: u64) -> bool {
    slots(list).contains(DrawListID(id))
}

/// Whether a display list is of an older generation of a pipeline.
pub open spec fn stale(list: DisplayList, pipeline_id: PipelineId, epoch: Epoch) -> bool {
    list.pipeline_id == pipeline_id && list.epoch.0 < epoch.0
}

/// The keys of the stale display lists.
pub open spec fn stale_keys(display_lists: Map<u64, DisplayList>, pipeline_id: PipelineId, epoch: Epoch) -> Set<
    u64,
> {
    Set::new(
        |key: u64| display_lists.contains_key(key) && stale(display_lists[key], pipeline_id, epoch),
    )
}

/// The draw lists of some display lists.
pub open spec fn named_ids(display_lists: Map<u64, DisplayList>, keys: Set<u64>) -> Set<u64> {
    Set::new(
        |id: u64| exists|key: u64| #[trigger] keys.contains(key) && names(display_lists[key], id),
    )
}

/// The draw lists of the stale display lists.
pub open spec fn stale_ids(display_lists: Map<u64, DisplayList>, pipeline_id: PipelineId, epoch: Epoch) -> Set<u64> {
    named_ids(display_lists, stale_keys(display_lists, pipeline_id, epoch))
}

/// Every draw list that a display list refers to is there, and only one display list refers to
/// it, once.
pub open spec fn references_ok(display_lists: Map<u64, DisplayList>, lists: Map<u64, Seq<ItemView>>) -> bool {
    &&& forall|key: u64, id: u64|
        #![trigger display_lists.contains_key(key), names(display_lists[key], id)]
        display_lists.contains_key(key) && names(display_lists[key], id) ==> lists.contains_key(id)
    &&& forall|key: u64| #[trigger]
        display_lists.contains_key(key) ==> slots(display_lists[key]).no_duplicates()
    &&& forall|a: u64, b: u64, id: u64|
        #![trigger names(display_lists[a], id), names(display_lists[b], id)]
        display_lists.contains_key(a) && display_lists.contains_key(b) && names(display_lists[a], id) && names(
            display_lists[b],
            id,
        ) ==> a == b
}

/// Putting flat draw lists back changes nothing under other identifiers.
pub(crate) proof fn lemma_returned(lists: Map<u64, Seq<ItemView>>, flat: Seq<FlatView>, n: nat)
    requires
        n <= flat.len(),
    ensures
        forall|id: u64| #[trigger]
            returned(lists, flat, n).contains_key(id) <==> lists.contains_key(id) || exists|k: int|
                0 <= k < n && (#[trigger] flat[k]).id == Some(DrawListID(id)),
        forall|id: u64|
            lists.contains_key(id) && (forall|k: int|
                0 <= k < n ==> (#[trigger] flat[k]).id != Some(DrawListID(id))) ==> #[trigger] returned(
                lists,
                flat,
                n,
            )[id] == lists[id],
    decreases n,
{
    if n > 0 {
        lemma_returned(lists, flat, (n - 1) as nat);
        let rest = returned(lists, flat, (n - 1) as nat);
        let all = returned(lists, flat, n);
        assert forall|id: u64| #[trigger] all.contains_key(id) <==> lists.contains_key(id) || exists|k: int|
            0 <= k < n && (#[trigger] flat[k]).id == Some(DrawListID(id)) by {
            if all.contains_key(id) && !lists.contains_key(id) {
                if rest.contains_key(id) {
                    let k = choose|k: int|
                        0 <= k < n - 1 && (#[trigger] flat[k]).id == Some(DrawListID(id));
                    assert(flat[k].id == Some(DrawListID(id)));
                } else {
                    assert(flat[n - 1].id == Some(DrawListID(id)));
                }
            }
            if exists|k: int| 0 <= k < n && (#[trigger] flat[k]).id == Some(DrawListID(id)) {
                let k = choose|k: int| 0 <= k < n && (#[trigger] flat[k]).id == Some(DrawListID(id));
                if k < n - 1 {
                    assert(rest.contains_key(id));
                }
            }
        }
    }
}

/// The items of a flat draw list come back under its identifier.
pub(crate) proof fn lemma_returned_items(lists: Map<u64, Seq<ItemView>>, flat: Seq<FlatView>, n: nat, k: int)
    requires
        0 <= k < n <= flat.len(),
        flat[k].id is Some,
        apart(lists, flat),
    ensures
        returned(lists, flat, n).contains_key(flat[k].id.unwrap().0),
        returned(lists, flat, n)[flat[k].id.unwrap().0] == flat[k].items,
    decreases n,
{
    if k < n - 1 {
        lemma_returned_items(lists, flat, (n - 1) as nat, k);
        assert(flat[k].id != flat[n - 1].id);
    }
}

/// Flattening only moves draw lists: put back, those that it took make the table what it was.
pub proof fn flattening_can_be_undone(a: Flattening, b: Flattening)
    requires
        lists_moved(a, b),
        a.scene.flat.len() == 0,
    ensures
        owned(b.lists, b.scene.flat) == a.lists,
        apart(b.lists, b.scene.flat),
{
    let flat = b.scene.flat;
    let n = flat.len();
    let back = owned(b.lists, flat);
    lemma_returned(b.lists, flat, n);
    assert(apart(b.lists, flat));
    assert forall|id: u64| #[trigger] back.contains_key(id) <==> a.lists.contains_key(id) by {
        if a.lists.contains_key(id) && !b.lists.contains_key(id) {
            let k = choose|k: int|
                a.scene.flat.len() <= k < b.scene.flat.len() && (#[trigger] b.scene.flat[k]).id == Some(
                    DrawListID(id),
                );
            assert(flat[k].id == Some(DrawListID(id)));
        }
        if back.contains_key(id) && !b.lists.contains_key(id) {
            let k = choose|k: int| 0 <= k < n && (#[trigger] flat[k]).id == Some(DrawListID(id));
            assert(a.lists.contains_key(flat[k].id.unwrap().0));
        }
    }
    assert forall|id: u64| #[trigger] back.contains_key(id) implies back[id] == a.lists[id] by {
        if b.lists.contains_key(id) {
            assert forall|k: int| 0 <= k < n implies (#[trigger] flat[k]).id != Some(DrawListID(id)) by {
                if flat[k].id == Some(DrawListID(id)) {
                    assert(!b.lists.contains_key(flat[k].id.unwrap().0));
                }
            }
        } else {
            let k = choose|k: int| 0 <= k < n && (#[trigger] flat[k]).id == Some(DrawListID(id));
            lemma_returned_items(b.lists, flat, n, k);
        }
    }
    assert(back =~= a.lists);
}

/// A list that is added to the table is owned, and the others still are.
pub(crate) proof fn lemma_owned_insert(
    lists: Map<u64, Seq<ItemView>>,
    flat: Seq<FlatView>,
    n: nat,
    id: u64,
    items: Seq<ItemView>,
)
    requires
        n <= flat.len(),
        forall|k: int| 0 <= k < flat.len() ==> (#[trigger] flat[k]).id != Some(DrawListID(id)),
    ensures
        returned(lists.insert(id, items), flat, n) == returned(lists, flat, n).insert(id, items),
    decreases n,
{
    if n > 0 {
        lemma_owned_insert(lists, flat, (n - 1) as nat, id, items);
        match flat[n - 1].id {
            Some(other) => {
                assert(other.0 != id) by {
                    assert(flat[n - 1].id != Some(DrawListID(id)));
                }
                let rest = returned(lists, flat, (n - 1) as nat);
                assert(rest.insert(id, items).insert(other.0, flat[n - 1].items) =~= rest.insert(
                    other.0,
                    flat[n - 1].items,
                ).insert(id, items));
            },
            None => {},
        }
    }
}

} // verus!
