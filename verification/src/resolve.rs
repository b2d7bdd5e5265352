//! Duplicate resolution: for one slot's list of discovered candidates,
//! decide whether the header should be left alone or rewritten with one of
//! them, or report what further input (or fatal inconsistency) stops the
//! decision. The engine is a pure function of the candidate list, the
//! process-wide policy and the collaborator's answers for this slot.

use vstd::prelude::*;

use crate::entry::{DuplicateBehaviour, RegionEntry};

verus! {

/// What resolution concluded for one slot.
#[derive(Clone, Copy, PartialEq, Eq, Structural, Debug)]
pub enum Resolution {
    /// The header already records the right entry, or there is nothing to
    /// recover for this slot.
    NoAction,
    /// Overwrite the slot's header entry with this candidate.
    Adopt(RegionEntry),
}

/// Why one slot could not be resolved: either a fatal inconsistency of the
/// file, or a choice that only the caller can supply.
#[derive(Clone, Copy, PartialEq, Eq, Structural, Debug)]
pub enum ResolveFailure {
    /// More than one candidate matches the header entry: the file is
    /// inconsistent beyond safe repair.
    MultipleCurrent,
    /// A candidate fell through the current/untracked partition: the
    /// resolution cases do not cover the list.
    Unclassifiable,
    /// A duplicate-behaviour choice is needed for this slot, which has
    /// this many header-backed and untracked candidates.
    NeedsBehaviour { current: usize, untracked: usize },
    /// A 1-based choice among this many untracked candidates is needed.
    NeedsOrdinal { count: usize },
    /// The supplied ordinal was not between 1 and the untracked count.
    OrdinalOutOfRange,
}

/// How many candidates in the list match the header table.
pub open spec fn current_count(entries: Seq<RegionEntry>) -> int {
    entries.filter(|e: RegionEntry| e.is_current).len() as int
}

/// The candidates the header table does not record, in discovery order.
pub open spec fn untracked_of(entries: Seq<RegionEntry>) -> Seq<RegionEntry> {
    entries.filter(|e: RegionEntry| !e.is_current)
}

/// The behaviour that governs a slot with several candidates: the
/// process-wide policy when one is set; when none is, the choice is forced
/// unless both a current and untracked candidates exist, in which case the
/// collaborator's per-slot answer (if already supplied) decides.
pub open spec fn effective_behaviour(
    entries: Seq<RegionEntry>,
    policy: Option<DuplicateBehaviour>,
    behaviour_answer: Option<DuplicateBehaviour>,
) -> Option<DuplicateBehaviour> {
    match policy {
        Some(b) => Some(b),
        None => {
            if current_count(entries) == 1 && untracked_of(entries).len() > 0 {
                behaviour_answer
            } else if current_count(entries) == 1 {
                Some(DuplicateBehaviour::TakeCurrent)
            } else {
                Some(DuplicateBehaviour::TakeUntracked)
            }
        },
    }
}

/// The resolution decision for one slot's non-empty candidate list.
///
/// A single candidate is kept if current and adopted otherwise. With
/// several, at most one may be current; the governing behaviour then keeps
/// the current entry or adopts an untracked one, asking for an ordinal when
/// several untracked candidates compete.
pub open spec fn resolve_spec(
    entries: Seq<RegionEntry>,
    policy: Option<DuplicateBehaviour>,
    behaviour_answer: Option<DuplicateBehaviour>,
    ordinal_answer: Option<usize>,
) -> Result<Resolution, ResolveFailure>
    recommends
        entries.len() > 0,
{
    if entries.len() == 1 {
        if entries[0].is_current {
            Ok(Resolution::NoAction)
        } else {
            Ok(Resolution::Adopt(entries[0]))
        }
    } else if current_count(entries) > 1 {
        Err(ResolveFailure::MultipleCurrent)
    } else {
        let untracked = untracked_of(entries);
        match effective_behaviour(entries, policy, behaviour_answer) {
            None => Err(
                ResolveFailure::NeedsBehaviour {
                    current: current_count(entries) as usize,
                    untracked: untracked.len() as usize,
                },
            ),
            Some(behaviour) => {
                if current_count(entries) == 1 && behaviour == DuplicateBehaviour::TakeCurrent {
                    Ok(Resolution::NoAction)
                } else if untracked.len() == 1 && behaviour == DuplicateBehaviour::TakeUntracked {
                    Ok(Resolution::Adopt(untracked[0]))
                } else if untracked.len() > 1 {
                    match ordinal_answer {
                        None => Err(ResolveFailure::NeedsOrdinal { count: untracked.len() as usize }),
                        Some(ordinal) => if 1 <= ordinal && ordinal <= untracked.len() {
                            Ok(Resolution::Adopt(untracked[ordinal - 1]))
                        } else {
                            Err(ResolveFailure::OrdinalOutOfRange)
                        },
                    }
                } else {
                    Err(ResolveFailure::Unclassifiable)
                }
            },
        }
    }
}

/// Law: a slot whose only candidate is untracked is adopted, whatever the
/// policy and whatever answers were supplied.
pub proof fn lemma_single_untracked_always_adopted(
    entries: Seq<RegionEntry>,
    policy: Option<DuplicateBehaviour>,
    behaviour_answer: Option<DuplicateBehaviour>,
    ordinal_answer: Option<usize>,
)
    requires
        entries.len() == 1,
        !entries[0].is_current,
    ensures
        resolve_spec(entries, policy, behaviour_answer, ordinal_answer) == Ok::<
            Resolution,
            ResolveFailure,
        >(Resolution::Adopt(entries[0])),
{
}

/// Law: when exactly one candidate is current, the `TakeCurrent` behaviour
/// leaves the slot alone, however many untracked candidates exist.
pub proof fn lemma_take_current_keeps_header(
    entries: Seq<RegionEntry>,
    behaviour_answer: Option<DuplicateBehaviour>,
    ordinal_answer: Option<usize>,
)
    requires
        entries.len() > 1,
        current_count(entries) == 1,
    ensures
        resolve_spec(
            entries,
            Some(DuplicateBehaviour::TakeCurrent),
            behaviour_answer,
            ordinal_answer,
        ) == Ok::<Resolution, ResolveFailure>(Resolution::NoAction),
{
}

/// Law: when exactly one candidate is untracked and at most one is current,
/// the `TakeUntracked` behaviour adopts the untracked candidate.
pub proof fn lemma_take_untracked_adopts(
    entries: Seq<RegionEntry>,
    behaviour_answer: Option<DuplicateBehaviour>,
    ordinal_answer: Option<usize>,
)
    requires
        entries.len() > 1,
        current_count(entries) <= 1,
        untracked_of(entries).len() == 1,
    ensures
        resolve_spec(
            entries,
            Some(DuplicateBehaviour::TakeUntracked),
            behaviour_answer,
            ordinal_answer,
        ) == Ok::<Resolution, ResolveFailure>(Resolution::Adopt(untracked_of(entries)[0])),
{
}

/// Law: with several untracked candidates, at most one current candidate,
/// and a behaviour that does not keep the current entry, the supplied
/// 1-based ordinal picks among the untracked candidates in discovery order.
pub proof fn lemma_ordinal_picks_untracked(
    entries: Seq<RegionEntry>,
    policy: Option<DuplicateBehaviour>,
    behaviour_answer: Option<DuplicateBehaviour>,
    ordinal: usize,
)
    requires
        entries.len() > 1,
        current_count(entries) == 0,
        untracked_of(entries).len() > 1,
        1 <= ordinal <= untracked_of(entries).len(),
    ensures
        resolve_spec(entries, policy, behaviour_answer, Some(ordinal)) == Ok::<
            Resolution,
            ResolveFailure,
        >(Resolution::Adopt(untracked_of(entries)[ordinal - 1])),
{
}

/// Every untracked candidate is one of the slot's candidates.
pub proof fn lemma_untracked_are_candidates(entries: Seq<RegionEntry>)
    ensures
        forall|j: int|
            0 <= j < untracked_of(entries).len() ==> entries.contains(
                #[trigger] untracked_of(entries)[j],
            ),
    decreases entries.len(),
{
    reveal(Seq::filter);
    if entries.len() > 0 {
        lemma_untracked_are_candidates(entries.drop_last());
        let prev = untracked_of(entries.drop_last());
        let cur = untracked_of(entries);
        assert forall|j: int| 0 <= j < cur.len() implies entries.contains(cur[j]) by {
            if j < prev.len() {
                assert(prev[j] == cur[j]);
                assert(entries.drop_last().contains(prev[j]));
                let i = choose|i: int|
                    0 <= i < entries.drop_last().len() && entries.drop_last()[i] == prev[j];
                assert(entries[i] == cur[j]);
            } else {
                assert(cur[j] == entries.last());
                assert(entries[entries.len() - 1] == cur[j]);
            }
        }
    }
}

/// Whatever resolution adopts is one of the slot's own candidates.
pub proof fn lemma_resolve_adopt_member(
    entries: Seq<RegionEntry>,
    policy: Option<DuplicateBehaviour>,
    behaviour_answer: Option<DuplicateBehaviour>,
    ordinal_answer: Option<usize>,
    e: RegionEntry,
)
    requires
        resolve_spec(entries, policy, behaviour_answer, ordinal_answer) == Ok::<
            Resolution,
            ResolveFailure,
        >(Resolution::Adopt(e)),
    ensures
        entries.contains(e),
{
    lemma_untracked_are_candidates(entries);
    if entries.len() == 1 {
        assert(e == entries[0]);
        assert(entries.contains(entries[0]));
    }
}

/// Decides one slot, reporting the decision of `resolve_spec` exactly.
pub fn decide_slot(
    entries: &Vec<RegionEntry>,
    policy: Option<DuplicateBehaviour>,
    behaviour_answer: Option<DuplicateBehaviour>,
    ordinal_answer: Option<usize>,
) -> (r: Result<Resolution, ResolveFailure>)
    requires
        entries@.len() > 0,
    ensures
        r == resolve_spec(entries@, policy, behaviour_answer, ordinal_answer),
{
    if entries.len() == 1 {
        let e = entries[0];
        if e.is_current {
            Ok(Resolution::NoAction)
        } else {
            Ok(Resolution::Adopt(e))
        }
    } else {
        let mut currents: usize = 0;
        let mut untracked: Vec<RegionEntry> = Vec::new();
        let mut i: usize = 0;
        while i < entries.len()
            invariant
                i <= entries@.len(),
                currents == current_count(entries@.take(i as int)),
                currents <= i,
                untracked@ == untracked_of(entries@.take(i as int)),
            decreases entries@.len() - i,
        {
            let e = entries[i];
            proof {
                reveal(Seq::filter);
                assert(entries@.take(i + 1).drop_last() =~= entries@.take(i as int));
                assert(entries@.take(i + 1).last() == entries@[i as int]);
            }
            if e.is_current {
                currents = currents + 1;
            } else {
                untracked.push(e);
            }
            i = i + 1;
        }
        proof {
            assert(entries@.take(entries@.len() as int) =~= entries@);
        }
        if currents > 1 {
            return Err(ResolveFailure::MultipleCurrent);
        }
        let behaviour = match policy {
            Some(b) => Some(b),
            None => {
                if currents == 1 && untracked.len() > 0 {
                    behaviour_answer
                } else if currents == 1 {
                    Some(DuplicateBehaviour::TakeCurrent)
                } else {
                    Some(DuplicateBehaviour::TakeUntracked)
                }
            },
        };
        match behaviour {
            None => Err(
                ResolveFailure::NeedsBehaviour { current: currents, untracked: untracked.len() },
            ),
            Some(b) => {
                if currents == 1 && b == DuplicateBehaviour::TakeCurrent {
                    Ok(Resolution::NoAction)
                } else if untracked.len() == 1 && b == DuplicateBehaviour::TakeUntracked {
                    Ok(Resolution::Adopt(untracked[0]))
                } else if untracked.len() > 1 {
                    match ordinal_answer {
                        None => Err(ResolveFailure::NeedsOrdinal { count: untracked.len() }),
                        Some(ordinal) => if 1 <= ordinal && ordinal <= untracked.len() {
                            Ok(Resolution::Adopt(untracked[ordinal - 1]))
                        } else {
                            Err(ResolveFailure::OrdinalOutOfRange)
                        },
                    }
                } else {
                    Err(ResolveFailure::Unclassifiable)
                }
            },
        }
    }
}

} // verus!
