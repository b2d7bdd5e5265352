//! File orchestration: run discovery once over the whole buffer, resolve
//! every slot against the policy and the per-slot answers, and commit every
//! adopted candidate into the header table. The buffer is only modified
//! when every slot could be decided, so a run that stops for input or on a
//! fatal inconsistency leaves the file exactly as it was.

use vstd::prelude::*;

use crate::codec::{pack_bytes, set_header_entry, SECTOR_SIZE};
use crate::entry::{DuplicateBehaviour, RegionEntry};
use crate::resolve::{
    decide_slot, lemma_resolve_adopt_member, resolve_spec, Resolution, ResolveFailure,
};
use crate::scan::{discover_all_entries, lemma_entries_upto_offsets, num_sectors, slot_entries};

verus! {

/// Scripted per-slot answers for a non-interactive run: the first pair
/// whose slot index matches supplies the answer for that slot.
pub struct SlotAnswers {
    /// Duplicate-behaviour choices, per slot.
    pub behaviours: Vec<(u16, DuplicateBehaviour)>,
    /// 1-based ordinal choices among untracked candidates, per slot.
    pub ordinals: Vec<(u16, usize)>,
}

/// The first answer recorded for `slot`, if any.
pub open spec fn lookup_spec<T>(pairs: Seq<(u16, T)>, slot: int) -> Option<T>
    decreases pairs.len(),
{
    if pairs.len() == 0 {
        None
    } else if pairs[0].0 as int == slot {
        Some(pairs[0].1)
    } else {
        lookup_spec(pairs.drop_first(), slot)
    }
}

/// Finds the first answer recorded for `slot`, if any.
pub fn lookup_answer<T: Copy>(pairs: &Vec<(u16, T)>, slot: u16) -> (r: Option<T>)
    ensures
        r == lookup_spec(pairs@, slot as int),
{
    let mut i: usize = 0;
    proof {
        assert(pairs@.skip(0) =~= pairs@);
    }
    while i < pairs.len()
        invariant
            i <= pairs@.len(),
            lookup_spec(pairs@, slot as int) == lookup_spec(pairs@.skip(i as int), slot as int),
        decreases pairs@.len() - i,
    {
        let p = pairs[i];
        proof {
            assert(pairs@.skip(i as int)[0] == pairs@[i as int]);
            assert(pairs@.skip(i as int).drop_first() =~= pairs@.skip(i + 1));
        }
        if p.0 == slot {
            return Some(p.1);
        }
        i = i + 1;
    }
    proof {
        assert(pairs@.skip(pairs@.len() as int).len() == 0);
    }
    None
}

/// What recovery settles on for one slot: `None` to leave the header entry
/// alone, `Some(e)` to rewrite it with candidate `e` — or the failure that
/// resolution reported for this slot.
pub open spec fn slot_decision(
    bytes: Seq<u8>,
    decoded: Seq<Option<(i32, i32)>>,
    policy: Option<DuplicateBehaviour>,
    behaviours: Seq<(u16, DuplicateBehaviour)>,
    ordinals: Seq<(u16, usize)>,
    slot: int,
) -> Result<Option<RegionEntry>, ResolveFailure> {
    let es = slot_entries(bytes, decoded, slot);
    if es.len() == 0 {
        Ok(None)
    } else {
        match resolve_spec(es, policy, lookup_spec(behaviours, slot), lookup_spec(ordinals, slot)) {
            Ok(Resolution::NoAction) => Ok(None),
            Ok(Resolution::Adopt(e)) => Ok(Some(e)),
            Err(f) => Err(f),
        }
    }
}

/// Where recovery stopped, and why; the buffer was left untouched.
#[derive(Clone, Copy, PartialEq, Eq, Structural, Debug)]
pub struct SlotFault {
    /// The slot that could not be decided.
    pub slot: u16,
    /// What resolution reported for it.
    pub failure: ResolveFailure,
}

/// No slot has any decodable candidate anywhere in the buffer.
pub open spec fn no_candidates(bytes: Seq<u8>, decoded: Seq<Option<(i32, i32)>>) -> bool {
    forall|slot: int| 0 <= slot < 1024 ==> slot_entries(bytes, decoded, slot).len() == 0
}

/// Every slot's discovery result already agrees with the header table:
/// either nothing was found for it, or its sole candidate is exactly the
/// entry the header records.
pub open spec fn fully_recovered(bytes: Seq<u8>, decoded: Seq<Option<(i32, i32)>>) -> bool {
    forall|slot: int|
        0 <= slot < 1024 ==> ({
            let es = #[trigger] slot_entries(bytes, decoded, slot);
            es.len() == 0 || (es.len() == 1 && es[0].is_current)
        })
}

/// Law: on a buffer that is already fully recovered, discovery and
/// resolution decide "no action" for every slot, whatever the policy and
/// whatever answers were supplied. Running recovery a second time on an
/// already recovered file therefore changes nothing.
pub proof fn lemma_fully_recovered_all_no_action(
    bytes: Seq<u8>,
    decoded: Seq<Option<(i32, i32)>>,
    policy: Option<DuplicateBehaviour>,
    behaviours: Seq<(u16, DuplicateBehaviour)>,
    ordinals: Seq<(u16, usize)>,
)
    requires
        fully_recovered(bytes, decoded),
    ensures
        forall|slot: int|
            0 <= slot < 1024 ==> #[trigger] slot_decision(
                bytes,
                decoded,
                policy,
                behaviours,
                ordinals,
                slot,
            ) == Ok::<Option<RegionEntry>, ResolveFailure>(None),
{
    assert forall|slot: int| 0 <= slot < 1024 implies #[trigger] slot_decision(
        bytes,
        decoded,
        policy,
        behaviours,
        ordinals,
        slot,
    ) == Ok::<Option<RegionEntry>, ResolveFailure>(None) by {
        let es = slot_entries(bytes, decoded, slot);
        assert(es.len() == 0 || (es.len() == 1 && es[0].is_current));
    }
}

/// Runs one full recovery pass over an in-memory region file: discovery,
/// per-slot resolution, and the header rewrites for every adopted
/// candidate. `decoded` holds the collaborator's answer to each request
/// `decode_requests` listed for this buffer, in the same order. Returns the adopted candidates with their slots, in
/// ascending slot order — empty when no slot changed. When any slot
/// cannot be decided — more input is needed or the file is inconsistent —
/// the buffer is returned untouched together with the first such fault.
pub fn recover_buffer(
    bytes: &mut Vec<u8>,
    policy: Option<DuplicateBehaviour>,
    answers: &SlotAnswers,
    decoded: &Vec<Option<(i32, i32)>>,
) -> (r: Result<Vec<(u16, RegionEntry)>, SlotFault>)
    requires
        old(bytes)@.len() <= 0x1000000 * (SECTOR_SIZE as int),
    ensures
        final(bytes).len() == old(bytes).len(),
        forall|i: int| 4096 <= i < old(bytes)@.len() ==> final(bytes)@[i] == old(bytes)@[i],
        r is Ok ==> forall|slot: int|
            0 <= slot < 1024 ==> (#[trigger] slot_decision(
                old(bytes)@,
                decoded@,
                policy,
                answers.behaviours@,
                answers.ordinals@,
                slot,
            )) is Ok,
        r is Ok ==> forall|slot: int|
            0 <= slot < 1024 ==> match #[trigger] slot_decision(
                old(bytes)@,
                decoded@,
                policy,
                answers.behaviours@,
                answers.ordinals@,
                slot,
            ) {
                Ok(Some(e)) => final(bytes)@.subrange(4 * slot, 4 * slot + 4) == pack_bytes(
                    e.offset_sectors,
                    e.size_sectors,
                ),
                Ok(None) => final(bytes)@.subrange(4 * slot, 4 * slot + 4) == old(
                    bytes,
                )@.subrange(4 * slot, 4 * slot + 4),
                Err(_) => true,
            },
        r matches Ok(adopted) ==> forall|j: int|
            0 <= j < adopted@.len() ==> (#[trigger] adopted@[j]).0 < 1024 && slot_decision(
                old(bytes)@,
                decoded@,
                policy,
                answers.behaviours@,
                answers.ordinals@,
                adopted@[j].0 as int,
            ) == Ok::<Option<RegionEntry>, ResolveFailure>(Some(adopted@[j].1)),
        r matches Ok(adopted) ==> forall|j: int, k: int|
            #![trigger adopted@[j], adopted@[k]]
            0 <= j < k < adopted@.len() ==> adopted@[j].0 < adopted@[k].0,
        r matches Ok(adopted) ==> forall|slot: int|
            (0 <= slot < 1024 && (#[trigger] slot_decision(
                old(bytes)@,
                decoded@,
                policy,
                answers.behaviours@,
                answers.ordinals@,
                slot,
            )) matches Ok(Some(_))) ==> exists|j: int|
                0 <= j < adopted@.len() && ((#[trigger] adopted@[j]).0 as int) == slot,
        r matches Err(fault) ==> final(bytes)@ == old(bytes)@ && fault.slot < 1024
            && slot_decision(
            old(bytes)@,
            decoded@,
            policy,
            answers.behaviours@,
            answers.ordinals@,
            fault.slot as int,
        ) == Err::<Option<RegionEntry>, ResolveFailure>(fault.failure) && (forall|s: int|
            0 <= s < fault.slot ==> (#[trigger] slot_decision(
                old(bytes)@,
                decoded@,
                policy,
                answers.behaviours@,
                answers.ordinals@,
                s,
            )) is Ok),
        no_candidates(old(bytes)@, decoded@) ==> (r matches Ok(adopted) && adopted@.len() == 0
            && final(bytes)@ == old(bytes)@),
        fully_recovered(old(bytes)@, decoded@) ==> (r matches Ok(adopted) && adopted@.len() == 0
            && final(bytes)@ == old(bytes)@),
{
    let ghost bytes0 = bytes@;
    let ghost behs = answers.behaviours@;
    let ghost ords = answers.ordinals@;
    let ghost dec = decoded@;

    let entries_by_slot = discover_all_entries(bytes.as_slice(), decoded);

    let mut decisions: Vec<Option<RegionEntry>> = Vec::new();
    let mut slot: usize = 0;
    while slot < 1024
        invariant
            slot <= 1024,
            bytes@ == bytes0,
            behs == answers.behaviours@,
            ords == answers.ordinals@,
            dec == decoded@,
            entries_by_slot@.len() == 1024,
            forall|s: int| 0 <= s < 1024 ==> entries_by_slot@[s]@ == slot_entries(bytes0, dec, s),
            decisions@.len() == slot,
            forall|s: int|
                0 <= s < slot ==> #[trigger] slot_decision(bytes0, dec, policy, behs, ords, s) == Ok::<
                    Option<RegionEntry>,
                    ResolveFailure,
                >(decisions@[s]),
        decreases 1024 - slot,
    {
        let es = &entries_by_slot[slot];
        if es.len() == 0 {
            decisions.push(None);
        } else {
            let behaviour_answer = lookup_answer(&answers.behaviours, slot as u16);
            let ordinal_answer = lookup_answer(&answers.ordinals, slot as u16);
            match decide_slot(es, policy, behaviour_answer, ordinal_answer) {
                Ok(Resolution::NoAction) => {
                    decisions.push(None);
                },
                Ok(Resolution::Adopt(e)) => {
                    decisions.push(Some(e));
                },
                Err(failure) => {
                    proof {
                        assert(slot_entries(bytes0, dec, slot as int).len() > 0);
                        assert(!no_candidates(bytes0, dec));
                        if fully_recovered(bytes0, dec) {
                            assert(slot_entries(bytes0, dec, slot as int).len() == 1
                                && slot_entries(bytes0, dec, slot as int)[0].is_current);
                            assert(false);
                        }
                    }
                    return Err(SlotFault { slot: slot as u16, failure });
                },
            }
        }
        slot = slot + 1;
    }

    let mut adopted: Vec<(u16, RegionEntry)> = Vec::new();
    let mut slot: usize = 0;
    while slot < 1024
        invariant
            slot <= 1024,
            bytes@.len() == bytes0.len(),
            bytes0.len() <= 0x1000000 * (SECTOR_SIZE as int),
            decisions@.len() == 1024,
            forall|s: int|
                0 <= s < 1024 ==> #[trigger] slot_decision(bytes0, dec, policy, behs, ords, s) == Ok::<
                    Option<RegionEntry>,
                    ResolveFailure,
                >(decisions@[s]),
            forall|s: int|
                0 <= s < slot ==> match #[trigger] decisions@[s] {
                    Some(e) => bytes@.subrange(4 * s, 4 * s + 4) == pack_bytes(
                        e.offset_sectors,
                        e.size_sectors,
                    ),
                    None => bytes@.subrange(4 * s, 4 * s + 4) == bytes0.subrange(4 * s, 4 * s + 4),
                },
            forall|s: int|
                slot <= s < 1024 ==> #[trigger] bytes@.subrange(4 * s, 4 * s + 4)
                    == bytes0.subrange(
                    4 * s,
                    4 * s + 4,
                ),
            forall|i: int| 4096 <= i < bytes0.len() ==> bytes@[i] == bytes0[i],
            forall|j: int|
                0 <= j < adopted@.len() ==> ((#[trigger] adopted@[j]).0 as int) < slot
                    && decisions@[adopted@[j].0 as int] == Some(adopted@[j].1),
            forall|j: int, k: int|
                #![trigger adopted@[j], adopted@[k]]
                0 <= j < k < adopted@.len() ==> adopted@[j].0 < adopted@[k].0,
            forall|s: int|
                0 <= s < slot && (#[trigger] decisions@[s]) is Some ==> exists|j: int|
                    0 <= j < adopted@.len() && ((#[trigger] adopted@[j]).0 as int) == s,
            adopted@.len() == 0 ==> bytes@ == bytes0,
        decreases 1024 - slot,
    {
        let decision = decisions[slot];
        match decision {
            Some(e) => {
                proof {
                    let es = slot_entries(bytes0, dec, slot as int);
                    assert(slot_decision(bytes0, dec, policy, behs, ords, slot as int) == Ok::<
                        Option<RegionEntry>,
                        ResolveFailure,
                    >(Some(e)));
                    assert(es.len() > 0);
                    lemma_resolve_adopt_member(
                        es,
                        policy,
                        lookup_spec(behs, slot as int),
                        lookup_spec(ords, slot as int),
                        e,
                    );
                    let len = bytes0.len() as int;
                    let d = SECTOR_SIZE as int;
                    vstd::arithmetic::div_mod::lemma_fundamental_div_mod(len, d);
                    vstd::arithmetic::div_mod::lemma_mod_division_less_than_divisor(len, d);
                    assert(num_sectors(bytes0) <= 0x1000000);
                    lemma_entries_upto_offsets(bytes0, dec, slot as int, num_sectors(bytes0));
                    let j = choose|j: int| 0 <= j < es.len() && es[j] == e;
                    assert(2 <= e.offset_sectors as int && (e.offset_sectors as int) < num_sectors(
                        bytes0,
                    ));
                    if num_sectors(bytes0) <= 2 {
                        assert(es == Seq::<RegionEntry>::empty());
                        assert(false);
                    }
                    assert(bytes0.len() >= 3 * d);
                }
                let ghost before = bytes@;
                let ghost adopted_before = adopted@;
                set_header_entry(bytes, slot * 4, e.offset_sectors as usize, e.size_sectors);
                adopted.push((slot as u16, e));
                proof {
                    assert(adopted@ == adopted_before.push((slot as u16, e)));
                    assert forall|s: int|
                        0 <= s < slot + 1 && (#[trigger] decisions@[s]) is Some implies exists|
                        j: int,
                    |
                        0 <= j < adopted@.len() && ((#[trigger] adopted@[j]).0 as int) == s by {
                        if s == slot as int {
                            assert(((adopted@[adopted@.len() - 1]).0 as int) == s);
                        } else {
                            let j = choose|j: int|
                                0 <= j < adopted_before.len() && ((adopted_before[j]).0 as int)
                                    == s;
                            assert(((adopted@[j]).0 as int) == s);
                        }
                    }
                    assert forall|s: int|
                        0 <= s < 1024 && s != slot implies #[trigger] bytes@.subrange(
                        4 * s,
                        4 * s + 4,
                    ) == before.subrange(4 * s, 4 * s + 4) by {
                        assert(bytes@.subrange(4 * s, 4 * s + 4) =~= before.subrange(
                            4 * s,
                            4 * s + 4,
                        ));
                    }
                    assert(bytes@.subrange(4 * slot, 4 * slot + 4) == pack_bytes(
                        e.offset_sectors,
                        e.size_sectors,
                    ));
                }
            },
            None => {},
        }
        slot = slot + 1;
    }

    proof {
        if no_candidates(bytes0, dec) {
            assert forall|s: int| 0 <= s < 1024 implies !(decisions@[s] is Some) by {
                assert(slot_entries(bytes0, dec, s).len() == 0);
                assert(slot_decision(bytes0, dec, policy, behs, ords, s) == Ok::<
                    Option<RegionEntry>,
                    ResolveFailure,
                >(decisions@[s]));
            }
            assert(adopted@.len() == 0) by {
                if adopted@.len() > 0 {
                    assert(decisions@[adopted@[0].0 as int] == Some(adopted@[0].1));
                }
            }
        }
        if fully_recovered(bytes0, dec) {
            lemma_fully_recovered_all_no_action(bytes0, dec, policy, behs, ords);
            assert forall|s: int| 0 <= s < 1024 implies !(decisions@[s] is Some) by {
                assert(slot_decision(bytes0, dec, policy, behs, ords, s) == Ok::<
                    Option<RegionEntry>,
                    ResolveFailure,
                >(decisions@[s]));
            }
            assert(adopted@.len() == 0) by {
                if adopted@.len() > 0 {
                    assert(decisions@[adopted@[0].0 as int] == Some(adopted@[0].1));
                }
            }
        }
        assert forall|j: int| 0 <= j < adopted@.len() implies (#[trigger] adopted@[j]).0 < 1024
            && slot_decision(bytes0, dec, policy, behs, ords, adopted@[j].0 as int) == Ok::<
            Option<RegionEntry>,
            ResolveFailure,
        >(Some(adopted@[j].1)) by {
            assert(decisions@[adopted@[j].0 as int] == Some(adopted@[j].1));
        }
        assert forall|s: int|
            0 <= s < 1024 && (#[trigger] slot_decision(bytes0, dec, policy, behs, ords, s)) matches Ok(
                Some(_),
            ) implies exists|j: int|
            0 <= j < adopted@.len() && ((#[trigger] adopted@[j]).0 as int) == s by {
            assert(slot_decision(bytes0, dec, policy, behs, ords, s) == Ok::<
                Option<RegionEntry>,
                ResolveFailure,
            >(decisions@[s]));
            assert(decisions@[s] is Some);
        }
    }
    Ok(adopted)
}

} // verus!
