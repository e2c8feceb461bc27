//! Which draw lists of a stacking context are painted in which phase.
use crate::display::{DisplayList, DisplayListMode};
use crate::ids::{DisplayListID, DrawListID};
use crate::phases::{collected, contribution, slot, slots, Phases, SceneError};
use vstd::prelude::*;

verus! {

/// The draw lists of a phase, the phases counted in painting order.
pub open spec fn in_phase(phases: Phases, k: int) -> Seq<DrawListID> {
    if k == 0 {
        phases.background_and_borders
    } else if k == 1 {
        phases.block_background_and_borders
    } else if k == 2 {
        phases.floats
    } else if k == 3 {
        phases.content
    } else if k == 4 {
        phases.positioned_content
    } else {
        phases.outlines
    }
}

/// The draw list that a display list has for a phase.
pub open spec fn own_list(list: DisplayList, k: int) -> Option<DrawListID> {
    if k == 0 {
        list.background_and_borders_id
    } else if k == 1 {
        list.block_backgrounds_and_borders_id
    } else if k == 2 {
        list.floats_id
    } else if k == 3 {
        list.content_id
    } else if k == 4 {
        list.positioned_content_id
    } else {
        list.outlines_id
    }
}

/// The draw lists that a display list has for the first `k` phases.
pub open spec fn own_lists(list: DisplayList, k: nat) -> Seq<DrawListID>
    decreases k,
{
    if k == 0 {
        Seq::empty()
    } else {
        let rest = own_lists(list, (k - 1) as nat);
        match own_list(list, k - 1) {
            Some(id) => rest.push(id),
            None => rest,
        }
    }
}

/// The phase in which a whole display list is painted, if it stands for a float or for positioned
/// content.
pub open spec fn only_phase(mode: DisplayListMode) -> Option<int> {
    match mode {
        DisplayListMode::Default => None,
        DisplayListMode::PseudoFloat => Some(2int),
        DisplayListMode::PseudoPositionedContent => Some(4int),
    }
}

/// What the first `n` display lists have for a phase.
pub open spec fn phase_lists(ids: Seq<DisplayListID>, display_lists: Map<u64, DisplayList>, n: nat, k: int) -> Seq<
    DrawListID,
>
    decreases n,
{
    if n == 0 {
        Seq::empty()
    } else {
        let rest = phase_lists(ids, display_lists, (n - 1) as nat, k);
        let list = display_lists[ids[n - 1].0];
        match only_phase(list.mode) {
            Some(phase) => if phase == k {
                rest + own_lists(list, 6)
            } else {
                rest
            },
            None => match own_list(list, k) {
                Some(id) => rest.push(id),
                None => rest,
            },
        }
    }
}

/// A draw list is painted in the phase that its display list has it for; those of a display list that
/// stands for a float are all painted among the floats, and those of one that stands for positioned
/// content among that, in phase order.  The display lists follow each other as the context names them.
pub proof fn lists_are_painted_in_their_phases(
    ids: Seq<DisplayListID>,
    display_lists: Map<u64, DisplayList>,
    n: nat,
    k: int,
)
    requires
        n <= ids.len(),
        collected(ids, display_lists, n) is Ok,
        0 <= k < 6,
    ensures
        in_phase(collected(ids, display_lists, n).unwrap(), k) == phase_lists(ids, display_lists, n, k),
    decreases n,
{
    if n > 0 {
        lists_are_painted_in_their_phases(ids, display_lists, (n - 1) as nat, k);
        let list = display_lists[ids[n - 1].0];
        let before = collected(ids, display_lists, (n - 1) as nat).unwrap();
        let after = collected(ids, display_lists, n).unwrap();
        let rest = phase_lists(ids, display_lists, (n - 1) as nat, k);
        lemma_own_lists(list);
        assert(after == before.join(contribution(list)));
        assert(in_phase(after, k) == in_phase(before, k) + in_phase(contribution(list), k));
        assert(rest + Seq::empty() =~= rest);
        match own_list(list, k) {
            Some(id) => {
                assert(rest + seq![id] =~= rest.push(id));
            },
            None => {},
        }
    }
}

proof fn lemma_own_lists(list: DisplayList)
    ensures
        own_lists(list, 6) == slots(list),
{
    reveal_with_fuel(own_lists, 2);
    let s1 = slot(list.background_and_borders_id);
    let s2 = s1 + slot(list.block_backgrounds_and_borders_id);
    let s3 = s2 + slot(list.floats_id);
    let s4 = s3 + slot(list.content_id);
    let s5 = s4 + slot(list.positioned_content_id);
    assert(own_lists(list, 0) =~= Seq::empty());
    assert(own_lists(list, 1) =~= s1);
    assert(own_lists(list, 2) =~= s2);
    assert(own_lists(list, 3) =~= s3);
    assert(own_lists(list, 4) =~= s4);
    assert(own_lists(list, 5) =~= s5);
    assert(own_lists(list, 6) =~= s5 + slot(list.outlines_id));
}

/// The phases of a context are there exactly if every display list that it names is; otherwise the first
/// that is missing is named.
pub proof fn missing_display_lists_are_named(ids: Seq<DisplayListID>, display_lists: Map<u64, DisplayList>, n: nat)
    requires
        n <= ids.len(),
    ensures
        match collected(ids, display_lists, n) {
            Ok(_) => forall|i: int| 0 <= i < n ==> display_lists.contains_key((#[trigger] ids[i]).0),
            Err(SceneError::MissingDisplayList(id)) => exists|i: int|
                0 <= i < n && #[trigger] ids[i] == id && !display_lists.contains_key(id.0) && forall|j: int|
                    0 <= j < i ==> display_lists.contains_key((#[trigger] ids[j]).0),
            Err(SceneError::MissingDrawList(_)) => false,
        },
    decreases n,
{
    if n > 0 {
        missing_display_lists_are_named(ids, display_lists, (n - 1) as nat);
        let id = ids[n - 1];
        if collected(ids, display_lists, (n - 1) as nat) is Ok && !display_lists.contains_key(id.0) {
            assert(ids[n - 1] == id && forall|j: int|
                0 <= j < n - 1 ==> display_lists.contains_key((#[trigger] ids[j]).0));
        }
    }
}

} // verus!
