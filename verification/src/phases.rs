//! The painting phases of a stacking context.
use crate::display::{DisplayList, DisplayListMode, StackingContext};
use crate::ids::{DisplayListID, DrawListID};
use crate::tables;
use fnv::FnvHashMap;
use vstd::prelude::*;

verus! {

/// Why a scene cannot be flattened: a stacking context names a display list that the backend
/// does not hold, or a display list a draw list that is not there to be taken.
#[derive(Clone, Copy, Debug, PartialEq, Eq, Structural)]
pub enum SceneError {
    MissingDisplayList(DisplayListID),
    MissingDrawList(DrawListID),
}

/// The draw lists of a stacking context, by the phase in which they are painted.
#[derive(Debug, PartialEq)]
pub struct StackingContextDrawLists {
    pub background_and_borders: Vec<DrawListID>,
    pub block_background_and_borders: Vec<DrawListID>,
    pub floats: Vec<DrawListID>,
    pub content: Vec<DrawListID>,
    pub positioned_content: Vec<DrawListID>,
    pub outlines: Vec<DrawListID>,
}

/// The contents of a [`StackingContextDrawLists`].
#[verifier::ext_equal]
pub struct Phases {
    pub background_and_borders: Seq<DrawListID>,
    pub block_background_and_borders: Seq<DrawListID>,
    pub floats: Seq<DrawListID>,
    pub content: Seq<DrawListID>,
    pub positioned_content: Seq<DrawListID>,
    pub outlines: Seq<DrawListID>,
}

impl View for StackingContextDrawLists {
    type V = Phases;

    open spec fn view(&self) -> Phases {
        Phases {
            background_and_borders: self.background_and_borders@,
            block_background_and_borders: self.block_background_and_borders@,
            floats: self.floats@,
            content: self.content@,
            positioned_content: self.positioned_content@,
            outlines: self.outlines@,
        }
    }
}

/// The identifier of a slot, or nothing where the slot is empty.
pub open spec fn slot(id: Option<DrawListID>) -> Seq<DrawListID> {
    match id {
        Some(id) => seq![id],
        None => Seq::empty(),
    }
}

/// Every draw list of a display list, in phase order.
pub open spec fn slots(list: DisplayList) -> Seq<DrawListID> {
    slot(list.background_and_borders_id) + slot(list.block_backgrounds_and_borders_id) + slot(
        list.floats_id,
    ) + slot(list.content_id) + slot(list.positioned_content_id) + slot(list.outlines_id)
}

/// No draw lists in any phase.
pub open spec fn no_phases() -> Phases {
    Phases {
        background_and_borders: Seq::empty(),
        block_background_and_borders: Seq::empty(),
        floats: Seq::empty(),
        content: Seq::empty(),
        positioned_content: Seq::empty(),
        outlines: Seq::empty(),
    }
}

/// What one display list adds to the phases: each draw list to its own phase, or all of them
/// to one phase where the list stands for a float or for positioned content.
pub open spec fn contribution(list: DisplayList) -> Phases {
    match list.mode {
        DisplayListMode::Default => Phases {
            background_and_borders: slot(list.background_and_borders_id),
            block_background_and_borders: slot(list.block_backgrounds_and_borders_id),
            floats: slot(list.floats_id),
            content: slot(list.content_id),
            positioned_content: slot(list.positioned_content_id),
            outlines: slot(list.outlines_id),
        },
        DisplayListMode::PseudoFloat => Phases { floats: slots(list), ..no_phases() },
        DisplayListMode::PseudoPositionedContent => Phases {
            positioned_content: slots(list),
            ..no_phases()
        },
    }
}

impl Phases {
    /// Phase by phase, the lists of `self` followed by those of `other`.
    pub open spec fn join(self, other: Phases) -> Phases {
        Phases {
            background_and_borders: self.background_and_borders + other.background_and_borders,
            block_background_and_borders: self.block_background_and_borders
                + other.block_background_and_borders,
            floats: self.floats + other.floats,
            content: self.content + other.content,
            positioned_content: self.positioned_content + other.positioned_content,
            outlines: self.outlines + other.outlines,
        }
    }

    /// The draw lists of all phases.
    pub open spec fn all(self) -> Seq<DrawListID> {
        self.background_and_borders + self.block_background_and_borders + self.floats
            + self.content + self.positioned_content + self.outlines
    }
}

/// The phases of the first `n` display lists, or the first one that is missing.
pub open spec fn collected(
    ids: Seq<DisplayListID>,
    display_lists: Map<u64, DisplayList>,
    n: nat,
) -> Result<Phases, SceneError>
    decreases n,
{
    if n == 0 {
        Ok(no_phases())
    } else {
        match collected(ids, display_lists, (n - 1) as nat) {
            Err(error) => Err(error),
            Ok(phases) => {
                let id = ids[n - 1];
                if display_lists.contains_key(id.0) {
                    Ok(phases.join(contribution(display_lists[id.0])))
                } else {
                    Err(SceneError::MissingDisplayList(id))
                }
            },
        }
    }
}

/// A missing display list stays missing, however many more lists are looked at.
proof fn lemma_collected_error(ids: Seq<DisplayListID>, display_lists: Map<u64, DisplayList>, m: nat, n: nat)
    requires
        m <= n,
        collected(ids, display_lists, m) is Err,
    ensures
        collected(ids, display_lists, n) == collected(ids, display_lists, m),
    decreases n,
{
    if m < n {
        lemma_collected_error(ids, display_lists, m, (n - 1) as nat);
    }
}

impl StackingContextDrawLists {
    /// No draw lists in any phase.
    pub fn new() -> (lists: StackingContextDrawLists)
        ensures
            lists@ == no_phases(),
    {
        StackingContextDrawLists {
            background_and_borders: Vec::new(),
            block_background_and_borders: Vec::new(),
            floats: Vec::new(),
            content: Vec::new(),
            positioned_content: Vec::new(),
            outlines: Vec::new(),
        }
    }

    /// Appends an identifier, if there is one.
    pub fn push_draw_list_id(id: Option<DrawListID>, list: &mut Vec<DrawListID>)
        ensures
            final(list)@ == old(list)@ + slot(id),
    {
        if let Some(id) = id {
            list.push(id);
        }
    }

    /// Appends every draw list of a display list.
    pub(crate) fn push_all(display_list: &DisplayList, list: &mut Vec<DrawListID>)
        ensures
            final(list)@ == old(list)@ + slots(*display_list),
    {
        Self::push_draw_list_id(display_list.background_and_borders_id, list);
        Self::push_draw_list_id(display_list.block_backgrounds_and_borders_id, list);
        Self::push_draw_list_id(display_list.floats_id, list);
        Self::push_draw_list_id(display_list.content_id, list);
        Self::push_draw_list_id(display_list.positioned_content_id, list);
        Self::push_draw_list_id(display_list.outlines_id, list);
        assert(list@ =~= old(list)@ + slots(*display_list));
    }
}

impl StackingContext {
    /// Sorts the draw lists of the context's display lists into painting phases.  A display
    /// list that the table does not hold is reported, the first one where there are several.
    pub fn collect_draw_lists(&self, display_lists: &FnvHashMap<u64, DisplayList>) -> (r: Result<
        StackingContextDrawLists,
        SceneError,
    >)
        ensures
            match collected(self.display_lists@, display_lists@, self.display_lists@.len()) {
                Ok(phases) => r matches Ok(lists) && lists@ == phases,
                Err(error) => r matches Err(e) && e == error,
            },
    {
        let mut result = StackingContextDrawLists::new();
        let mut i: usize = 0;
        while i < self.display_lists.len()
            invariant
                i <= self.display_lists@.len(),
                collected(self.display_lists@, display_lists@, i as nat) == Ok::<Phases, SceneError>(result@),
            decreases self.display_lists@.len() - i,
        {
            let ghost before = result@;
            let id = self.display_lists[i];
            match tables::get(display_lists, &id.0) {
                None => {
                    proof {
                        lemma_collected_error(
                            self.display_lists@,
                            display_lists@,
                            (i + 1) as nat,
                            self.display_lists@.len(),
                        );
                    }
                    return Err(SceneError::MissingDisplayList(id));
                },
                Some(display_list) => {
                    match display_list.mode {
                        DisplayListMode::Default => {
                            StackingContextDrawLists::push_draw_list_id(
                                display_list.background_and_borders_id,
                                &mut result.background_and_borders,
                            );
                            StackingContextDrawLists::push_draw_list_id(
                                display_list.block_backgrounds_and_borders_id,
                                &mut result.block_background_and_borders,
                            );
                            StackingContextDrawLists::push_draw_list_id(
                                display_list.floats_id,
                                &mut result.floats,
                            );
                            StackingContextDrawLists::push_draw_list_id(
                                display_list.content_id,
                                &mut result.content,
                            );
                            StackingContextDrawLists::push_draw_list_id(
                                display_list.positioned_content_id,
                                &mut result.positioned_content,
                            );
                            StackingContextDrawLists::push_draw_list_id(
                                display_list.outlines_id,
                                &mut result.outlines,
                            );
                        },
                        DisplayListMode::PseudoFloat => {
                            StackingContextDrawLists::push_all(display_list, &mut result.floats);
                        },
                        DisplayListMode::PseudoPositionedContent => {
                            StackingContextDrawLists::push_all(
                                display_list,
                                &mut result.positioned_content,
                            );
                        },
                    }
                    assert(result@ =~= before.join(contribution(*display_list)));
                },
            }
            i = i + 1;
        }
        Ok(result)
    }
}

} // verus!
