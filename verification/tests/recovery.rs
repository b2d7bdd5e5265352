use quartz_nbt::io::{read_nbt, write_nbt, Flavor};
use quartz_nbt::{NbtCompound, NbtTag};

use region_recover::codec::read_bigendian_u32;
use region_recover::entry::{DuplicateBehaviour, RegionEntry};
use region_recover::recover::{recover_buffer, SlotAnswers};
use region_recover::resolve::ResolveFailure;
use region_recover::scan::{decode_requests, discover_all_entries};

const SECTOR: usize = 4096;

fn no_answers() -> SlotAnswers {
    SlotAnswers { behaviours: Vec::new(), ordinals: Vec::new() }
}

/// Plays the decoder collaborator: answers every request the scanner
/// lists for `buf` with the chunk coordinates found in the payload.
fn decoder_answers(buf: &[u8]) -> Vec<Option<(i32, i32)>> {
    decode_requests(buf)
        .iter()
        .map(|request| decode_one(&buf[request.start..request.end], request.gzip))
        .collect()
}

fn decode_one(payload: &[u8], gzip: bool) -> Option<(i32, i32)> {
    let flavor = if gzip { Flavor::GzCompressed } else { Flavor::ZlibCompressed };
    let root = read_nbt(&mut std::io::Cursor::new(payload), flavor).ok()?.0;
    let level = match root.get::<_, &NbtTag>("Level") {
        Ok(NbtTag::Compound(inner)) => inner.clone(),
        Ok(_) => return None,
        Err(_) => root,
    };
    match (level.get::<_, &NbtTag>("xPos"), level.get::<_, &NbtTag>("zPos")) {
        (Ok(NbtTag::Int(x)), Ok(NbtTag::Int(z))) => Some((*x, *z)),
        _ => None,
    }
}

/// The `(slot, entry)` pair `recover_buffer` reports for adopting an
/// untracked one-sector payload at `offset_sectors`.
fn adoption(slot: usize, offset_sectors: u32) -> (u16, RegionEntry) {
    (slot as u16, RegionEntry { is_current: false, offset_sectors, size_sectors: 1 })
}

fn chunk_nbt(x: i32, z: i32) -> NbtCompound {
    let mut root = NbtCompound::new();
    root.insert("xPos", x);
    root.insert("zPos", z);
    root
}

fn chunk_nbt_nested(x: i32, z: i32) -> NbtCompound {
    let mut level = NbtCompound::new();
    level.insert("xPos", x);
    level.insert("zPos", z);
    let mut root = NbtCompound::new();
    root.insert("Level", level);
    root
}

/// Writes a compressed chunk payload at `sector`: 4-byte big-endian
/// length, 1-byte compression tag, then the compressed bytes.
fn put_payload(buf: &mut [u8], sector: usize, root: &NbtCompound, gzip: bool) {
    let mut data = Vec::new();
    let flavor = if gzip { Flavor::GzCompressed } else { Flavor::ZlibCompressed };
    write_nbt(&mut data, None, root, flavor).unwrap();
    let off = sector * SECTOR;
    buf[off..off + 4].copy_from_slice(&(data.len() as u32).to_be_bytes());
    buf[off + 4] = if gzip { 1 } else { 2 };
    buf[off + 5..off + 5 + data.len()].copy_from_slice(&data);
}

/// Writes the packed header entry for `slot` directly.
fn put_header(buf: &mut [u8], slot: usize, offset_sectors: u32, size_sectors: u8) {
    let packed = (offset_sectors << 8) | size_sectors as u32;
    buf[slot * 4..slot * 4 + 4].copy_from_slice(&packed.to_be_bytes());
}

fn header_of(buf: &[u8], slot: usize) -> (u32, u8) {
    let packed = read_bigendian_u32(buf, slot * 4);
    (packed >> 8, (packed & 0xff) as u8)
}

// chunk (5, 3) maps to slot 5 + (3 << 5)
const SLOT: usize = 5 + (3 << 5);

#[test]
fn scanner_groups_candidates_by_slot_in_sector_order() {
    let mut buf = vec![0u8; 30 * SECTOR];
    put_payload(&mut buf, 10, &chunk_nbt(5, 3), false);
    put_payload(&mut buf, 20, &chunk_nbt(5, 3), false);
    put_payload(&mut buf, 12, &chunk_nbt_nested(6, 3), true);
    let found = discover_all_entries(&buf, &decoder_answers(&buf));
    assert_eq!(found.len(), 1024);
    assert_eq!(found[SLOT].len(), 2);
    assert_eq!(found[SLOT][0].offset_sectors, 10);
    assert_eq!(found[SLOT][1].offset_sectors, 20);
    assert_eq!(found[SLOT][0].size_sectors, 1);
    assert!(!found[SLOT][0].is_current);
    // the gzip payload with a nested Level compound lands in its own slot
    assert_eq!(found[SLOT + 1].len(), 1);
    assert_eq!(found[SLOT + 1][0].offset_sectors, 12);
    for (slot, list) in found.iter().enumerate() {
        if slot != SLOT && slot != SLOT + 1 {
            assert!(list.is_empty());
        }
    }
}

#[test]
fn take_current_keeps_header_and_take_untracked_adopts_sector_twenty() {
    let mut buf = vec![0u8; 30 * SECTOR];
    put_payload(&mut buf, 10, &chunk_nbt(5, 3), false);
    put_payload(&mut buf, 20, &chunk_nbt(5, 3), false);
    put_header(&mut buf, SLOT, 10, 1);

    let mut current = buf.clone();
    let decoded = decoder_answers(&current);
    let r = recover_buffer(&mut current, Some(DuplicateBehaviour::TakeCurrent), &no_answers(), &decoded);
    assert_eq!(r, Ok(vec![]));
    assert_eq!(current, buf);

    let mut untracked = buf.clone();
    let decoded = decoder_answers(&untracked);
    let r =
        recover_buffer(&mut untracked, Some(DuplicateBehaviour::TakeUntracked), &no_answers(), &decoded);
    assert_eq!(r, Ok(vec![adoption(SLOT, 20)]));
    assert_eq!(header_of(&untracked, SLOT), (20, 1));
}

#[test]
fn a_dead_header_with_one_candidate_recovers_under_any_policy() {
    let mut buf = vec![0u8; 30 * SECTOR];
    // the header points at sector 9, where nothing decodable sits
    put_header(&mut buf, SLOT, 9, 1);
    put_payload(&mut buf, 15, &chunk_nbt(5, 3), false);

    for policy in [
        None,
        Some(DuplicateBehaviour::TakeCurrent),
        Some(DuplicateBehaviour::TakeUntracked),
    ] {
        let mut copy = buf.clone();
        let decoded = decoder_answers(&copy);
        let r = recover_buffer(&mut copy, policy, &no_answers(), &decoded);
        assert_eq!(r, Ok(vec![adoption(SLOT, 15)]));
        assert_eq!(header_of(&copy, SLOT), (15, 1));
    }
}

#[test]
fn ordinal_two_adopts_the_second_candidate_in_sector_order() {
    let mut buf = vec![0u8; 30 * SECTOR];
    put_payload(&mut buf, 12, &chunk_nbt(5, 3), false);
    put_payload(&mut buf, 22, &chunk_nbt(5, 3), false);
    // the header records nothing for this slot, so both are untracked

    let mut first_try = buf.clone();
    let decoded = decoder_answers(&first_try);
    let r = recover_buffer(&mut first_try, None, &no_answers(), &decoded);
    assert_eq!(
        r,
        Err(region_recover::recover::SlotFault {
            slot: SLOT as u16,
            failure: ResolveFailure::NeedsOrdinal { count: 2 },
        })
    );
    // a failed run leaves the buffer untouched
    assert_eq!(first_try, buf);

    let answers = SlotAnswers { behaviours: Vec::new(), ordinals: vec![(SLOT as u16, 2)] };
    let decoded = decoder_answers(&first_try);
    let r = recover_buffer(&mut first_try, None, &answers, &decoded);
    assert_eq!(r, Ok(vec![adoption(SLOT, 22)]));
    assert_eq!(header_of(&first_try, SLOT), (22, 1));
}

#[test]
fn ambiguous_slot_asks_for_a_behaviour_then_honours_it() {
    let mut buf = vec![0u8; 30 * SECTOR];
    put_payload(&mut buf, 10, &chunk_nbt(5, 3), false);
    put_payload(&mut buf, 20, &chunk_nbt(5, 3), false);
    put_header(&mut buf, SLOT, 10, 1);

    let decoded = decoder_answers(&buf);
    let r = recover_buffer(&mut buf, None, &no_answers(), &decoded);
    assert_eq!(
        r,
        Err(region_recover::recover::SlotFault {
            slot: SLOT as u16,
            failure: ResolveFailure::NeedsBehaviour { current: 1, untracked: 1 },
        })
    );

    let answers = SlotAnswers {
        behaviours: vec![(SLOT as u16, DuplicateBehaviour::TakeUntracked)],
        ordinals: Vec::new(),
    };
    let decoded = decoder_answers(&buf);
    let r = recover_buffer(&mut buf, None, &answers, &decoded);
    assert_eq!(r, Ok(vec![adoption(SLOT, 20)]));
    assert_eq!(header_of(&buf, SLOT), (20, 1));
}

#[test]
fn recovery_is_idempotent_on_a_recovered_file() {
    let mut buf = vec![0u8; 30 * SECTOR];
    put_payload(&mut buf, 10, &chunk_nbt(5, 3), false);

    let decoded = decoder_answers(&buf);
    let r = recover_buffer(&mut buf, None, &no_answers(), &decoded);
    assert_eq!(r, Ok(vec![adoption(SLOT, 10)]));
    assert_eq!(header_of(&buf, SLOT), (10, 1));

    // the file is now fully recovered: a second pass changes nothing
    let snapshot = buf.clone();
    let decoded = decoder_answers(&buf);
    let r = recover_buffer(&mut buf, None, &no_answers(), &decoded);
    assert_eq!(r, Ok(vec![]));
    assert_eq!(buf, snapshot);
}

#[test]
fn a_file_without_candidates_is_left_byte_for_byte_unchanged() {
    let mut buf = vec![0u8; 8 * SECTOR];
    // plausible-looking tags over undecodable bytes, and invalid tags
    buf[2 * SECTOR] = 0;
    buf[2 * SECTOR + 3] = 12;
    buf[2 * SECTOR + 4] = 2;
    for i in 0..64 {
        buf[3 * SECTOR + i] = 0xab;
    }
    let snapshot = buf.clone();
    let decoded = decoder_answers(&buf);
    let r = recover_buffer(&mut buf, None, &no_answers(), &decoded);
    assert_eq!(r, Ok(vec![]));
    assert_eq!(buf, snapshot);
}

#[test]
fn an_oversized_declared_length_is_skipped_without_a_decode() {
    let mut buf = vec![0u8; 6 * SECTOR];
    // sector 2 declares far more bytes than the file holds, with a valid tag
    buf[2 * SECTOR..2 * SECTOR + 4].copy_from_slice(&0xffff_ff00u32.to_be_bytes());
    buf[2 * SECTOR + 4] = 2;
    // sector 3 declares a length that overruns by a single byte
    let just_over = (buf.len() - 3 * SECTOR - 4) as u32;
    buf[3 * SECTOR..3 * SECTOR + 4].copy_from_slice(&just_over.to_be_bytes());
    buf[3 * SECTOR + 4] = 1;
    let found = discover_all_entries(&buf, &decoder_answers(&buf));
    for list in &found {
        assert!(list.is_empty());
    }
    let snapshot = buf.clone();
    let decoded = decoder_answers(&buf);
    let r = recover_buffer(&mut buf, None, &no_answers(), &decoded);
    assert_eq!(r, Ok(vec![]));
    assert_eq!(buf, snapshot);
}

#[test]
fn several_ambiguous_slots_are_answered_one_fault_at_a_time() {
    let mut buf = vec![0u8; 40 * SECTOR];
    // slot for (5, 3): two untracked candidates
    put_payload(&mut buf, 12, &chunk_nbt(5, 3), false);
    put_payload(&mut buf, 22, &chunk_nbt(5, 3), false);
    // slot for (7, 3): two untracked candidates
    put_payload(&mut buf, 14, &chunk_nbt(7, 3), false);
    put_payload(&mut buf, 24, &chunk_nbt(7, 3), false);

    let mut answers = SlotAnswers { behaviours: Vec::new(), ordinals: Vec::new() };
    let mut rounds = 0;
    let adopted = loop {
        let decoded = decoder_answers(&buf);
        match recover_buffer(&mut buf, None, &answers, &decoded) {
            Ok(adopted) => break adopted,
            Err(fault) => match fault.failure {
                ResolveFailure::NeedsOrdinal { count } => {
                    assert_eq!(count, 2);
                    answers.ordinals.push((fault.slot, 1));
                    rounds += 1;
                    assert!(rounds <= 2);
                }
                other => panic!("unexpected failure {:?}", other),
            },
        }
    };
    assert_eq!(rounds, 2);
    // reported in ascending slot order, with the adopted entries
    assert_eq!(adopted, vec![adoption(SLOT, 12), adoption(7 + (3 << 5), 14)]);
    assert_eq!(header_of(&buf, SLOT), (12, 1));
    assert_eq!(header_of(&buf, 7 + (3 << 5)), (14, 1));
}

#[test]
fn a_decodable_tree_without_coordinates_is_not_a_candidate() {
    let mut buf = vec![0u8; 6 * SECTOR];
    let mut root = NbtCompound::new();
    root.insert("something", 1i32);
    put_payload(&mut buf, 2, &root, false);
    let found = discover_all_entries(&buf, &decoder_answers(&buf));
    for list in &found {
        assert!(list.is_empty());
    }
}
