//! Entry discovery: walk the sector stream of a region-file buffer,
//! request a decode of every structurally plausible payload, and group the
//! successfully decoded candidates by the header slot their embedded chunk
//! coordinates map to, in ascending sector order.
//!
//! The payload decoder is a collaborator of the library, not part of it:
//! `decode_requests` lists the payload of every plausible sector, the
//! caller decodes each and answers with the chunk coordinates it found (or
//! nothing, for a payload that does not decode or lacks them), and
//! `discover_all_entries` turns the answers into per-slot candidate lists.
//! Keeping the decoder outside also keeps it outside the library's
//! no-panic guarantee, which matters here: the usual NBT decoders trust
//! 32-bit length prefixes of the decompressed stream and can panic on a
//! crafted payload, so the caller must contain such faults — say, by
//! running the decoder under an unwind guard — where the library's own
//! functions are verified never to need one.

use vstd::prelude::*;
use vstd::std_specs::vec::vec_index_mut;

use crate::codec::{be_u32_at, read_bigendian_u32, unpack_offset, unpack_size, SECTOR_SIZE};
use crate::coords::{slot_index, slot_index_spec};
use crate::entry::RegionEntry;

verus! {

/// Number of whole sectors the buffer holds.
pub open spec fn num_sectors(bytes: Seq<u8>) -> int {
    bytes.len() as int / (SECTOR_SIZE as int)
}

/// The payload length declared in `sector`'s 4-byte big-endian prefix.
pub open spec fn declared_len(bytes: Seq<u8>, sector: int) -> int {
    be_u32_at(bytes, sector * (SECTOR_SIZE as int)) as int
}

/// Whether `sector` begins a structurally plausible payload: the declared
/// length, together with the 4-byte length prefix and the tag byte, fits in
/// the remaining file, and the compression tag is gzip (1) or zlib (2).
/// Only a plausible payload is ever offered to the decoder.
pub open spec fn plausible_sector(bytes: Seq<u8>, sector: int) -> bool
    recommends
        2 <= sector < num_sectors(bytes),
{
    let off = sector * (SECTOR_SIZE as int);
    let tag = bytes[off + 4];
    declared_len(bytes, sector) + 5 <= bytes.len() - off && (tag == 1 || tag == 2)
}

/// The plausible sectors below `sector_end`, in ascending order.
pub open spec fn plausible_upto(bytes: Seq<u8>, sector_end: int) -> Seq<int>
    decreases sector_end,
{
    if sector_end <= 2 {
        Seq::empty()
    } else {
        let prev = plausible_upto(bytes, sector_end - 1);
        if plausible_sector(bytes, sector_end - 1) {
            prev.push(sector_end - 1)
        } else {
            prev
        }
    }
}

/// Every plausible sector of the buffer, in ascending order: one decode
/// request is issued for each, and the caller's answers are indexed the
/// same way.
pub open spec fn plausible_sectors(bytes: Seq<u8>) -> Seq<int> {
    plausible_upto(bytes, num_sectors(bytes))
}

/// One step of the sector walk extends the plausible list by at most one.
pub proof fn lemma_plausible_upto_step(bytes: Seq<u8>, sector: int)
    requires
        sector >= 2,
    ensures
        plausible_upto(bytes, sector + 1) == (if plausible_sector(bytes, sector) {
            plausible_upto(bytes, sector).push(sector)
        } else {
            plausible_upto(bytes, sector)
        }),
{
}

/// Everything listed for decoding is a plausible sector in `2..sector_end`.
pub proof fn lemma_plausible_upto_members(bytes: Seq<u8>, sector_end: int)
    ensures
        forall|j: int|
            0 <= j < plausible_upto(bytes, sector_end).len() ==> plausible_sector(
                bytes,
                #[trigger] plausible_upto(bytes, sector_end)[j],
            ) && 2 <= plausible_upto(bytes, sector_end)[j]
                && plausible_upto(bytes, sector_end)[j] < sector_end,
    decreases sector_end,
{
    if sector_end > 2 {
        lemma_plausible_upto_members(bytes, sector_end - 1);
        lemma_plausible_upto_step(bytes, sector_end - 1);
        let prev = plausible_upto(bytes, sector_end - 1);
        let cur = plausible_upto(bytes, sector_end);
        assert forall|j: int|
            0 <= j < cur.len() implies plausible_sector(bytes, #[trigger] cur[j]) && 2 <= cur[j]
            && cur[j] < sector_end by {
            if j < prev.len() {
                assert(cur[j] == prev[j]);
            }
        }
    }
}

/// Whole sectors covering a payload of `len_bytes` bytes, rounded up and
/// saturated at the widest count an 8-bit header field can record.
pub open spec fn size_sectors_of(len_bytes: int) -> u8 {
    let c = (len_bytes + (SECTOR_SIZE as int) - 1) / (SECTOR_SIZE as int);
    if c > 255 {
        255u8
    } else {
        c as u8
    }
}

/// The sector offset the header table currently records for `slot`.
pub open spec fn header_offset_of(bytes: Seq<u8>, slot: int) -> u32 {
    unpack_offset(be_u32_at(bytes, slot * 4))
}

/// The sector count the header table currently records for `slot`.
pub open spec fn header_size_of(bytes: Seq<u8>, slot: int) -> u8 {
    unpack_size(be_u32_at(bytes, slot * 4))
}

/// One payload the scanner needs the decoder's answer for: the byte range
/// holding `sector`'s compressed payload, and whether its tag named gzip
/// (true) or zlib (false).
#[derive(Clone, Copy, PartialEq, Eq, Structural, Debug)]
pub struct DecodeRequest {
    /// First byte of the compressed payload, just past the length and tag.
    pub start: usize,
    /// One past the last declared payload byte; never past the buffer end.
    pub end: usize,
    /// True for the gzip tag (1), false for the zlib tag (2).
    pub gzip: bool,
}

/// The request for one plausible sector's payload.
pub open spec fn request_for(bytes: Seq<u8>, sector: int) -> DecodeRequest {
    let off = sector * (SECTOR_SIZE as int);
    DecodeRequest {
        start: (off + 5) as usize,
        end: (off + 5 + declared_len(bytes, sector)) as usize,
        gzip: bytes[off + 4] == 1,
    }
}

/// Lists the decoder's work for one scan: the payload range and format of
/// every plausible sector, in ascending sector order. The library itself
/// never decodes; the caller answers each request with the chunk
/// coordinates it decoded (or `None`) and hands the answers, in the same
/// order, to `discover_all_entries`.
pub fn decode_requests(bytes: &[u8]) -> (r: Vec<DecodeRequest>)
    ensures
        r@.len() == plausible_sectors(bytes@).len(),
        forall|j: int|
            0 <= j < r@.len() ==> #[trigger] r@[j] == request_for(
                bytes@,
                plausible_sectors(bytes@)[j],
            ) && r@[j].start <= r@[j].end && r@[j].end <= bytes@.len(),
{
    let mut r: Vec<DecodeRequest> = Vec::new();
    let total = bytes.len();
    let n = total / SECTOR_SIZE;
    let mut sector_idx: usize = 2;
    while sector_idx < n
        invariant
            2 <= sector_idx,
            bytes@.len() == total,
            n == num_sectors(bytes@),
            sector_idx <= n || sector_idx == 2,
            r@.len() == plausible_upto(bytes@, sector_idx as int).len(),
            forall|j: int|
                0 <= j < r@.len() ==> #[trigger] r@[j] == request_for(
                    bytes@,
                    plausible_upto(bytes@, sector_idx as int)[j],
                ) && r@[j].start <= r@[j].end && r@[j].end <= bytes@.len(),
        decreases n - sector_idx,
    {
        proof {
            let len = bytes@.len() as int;
            let d = SECTOR_SIZE as int;
            vstd::arithmetic::div_mod::lemma_fundamental_div_mod(len, d);
            vstd::arithmetic::div_mod::lemma_mod_division_less_than_divisor(len, d);
            assert((sector_idx + 1) * d <= (len / d) * d) by (nonlinear_arith)
                requires
                    sector_idx + 1 <= len / d,
                    d > 0,
            ;
            assert((sector_idx + 1) * d <= len);
        }
        let byte_offset = sector_idx * SECTOR_SIZE;
        let declared = read_bigendian_u32(bytes, byte_offset);
        let tag = bytes[byte_offset + 4];
        let remaining = bytes.len() - byte_offset;
        let ghost r_before = r@;
        if (declared as u64) + 5 <= (remaining as u64) && (tag == 1 || tag == 2) {
            let start = byte_offset + 5;
            let end = start + declared as usize;
            r.push(DecodeRequest { start, end, gzip: tag == 1 });
        }
        proof {
            lemma_plausible_upto_step(bytes@, sector_idx as int);
            if plausible_sector(bytes@, sector_idx as int) {
                assert(r@ == r_before.push(
                    request_for(bytes@, sector_idx as int),
                ));
            }
        }
        sector_idx = sector_idx + 1;
    }
    proof {
        if num_sectors(bytes@) <= 2 {
            assert(plausible_sectors(bytes@) == Seq::<int>::empty());
            assert(plausible_upto(bytes@, 2) == Seq::<int>::empty());
        }
    }
    r
}

/// The candidate that `sector` contributes, given the decoder's answers
/// (one per plausible sector, in ascending sector order): the slot the
/// decoded coordinates map to, and the discovered entry. An implausible
/// sector gets no decode request and contributes nothing; neither does a
/// plausible one whose answer is `None` or missing.
pub open spec fn candidate_at(
    bytes: Seq<u8>,
    answers: Seq<Option<(i32, i32)>>,
    sector: int,
) -> Option<(int, RegionEntry)>
    recommends
        2 <= sector < num_sectors(bytes),
{
    if !plausible_sector(bytes, sector) {
        None
    } else {
        let idx = plausible_upto(bytes, sector).len() as int;
        let answer = if idx < answers.len() {
            answers[idx]
        } else {
            None
        };
        match answer {
            None => None,
            Some((x, z)) => {
                let slot = slot_index_spec(x, z) as int;
                let size = size_sectors_of(declared_len(bytes, sector));
                Some(
                    (
                        slot,
                        RegionEntry {
                            is_current: header_offset_of(bytes, slot) == sector as u32
                                && header_size_of(bytes, slot) == size,
                            offset_sectors: sector as u32,
                            size_sectors: size,
                        },
                    ),
                )
            },
        }
    }
}

/// The candidates for `slot` contributed by sectors below `sector_end`, in
/// ascending sector order.
pub open spec fn entries_upto(
    bytes: Seq<u8>,
    answers: Seq<Option<(i32, i32)>>,
    slot: int,
    sector_end: int,
) -> Seq<RegionEntry>
    decreases sector_end,
{
    if sector_end <= 2 {
        Seq::empty()
    } else {
        let prev = entries_upto(bytes, answers, slot, sector_end - 1);
        match candidate_at(bytes, answers, sector_end - 1) {
            Some((s, e)) => if s == slot {
                prev.push(e)
            } else {
                prev
            },
            None => prev,
        }
    }
}

/// All candidates discovered for `slot`, in ascending sector order.
pub open spec fn slot_entries(
    bytes: Seq<u8>,
    answers: Seq<Option<(i32, i32)>>,
    slot: int,
) -> Seq<RegionEntry> {
    entries_upto(bytes, answers, slot, num_sectors(bytes))
}

/// Law: a sector whose declared payload length overruns the end of the
/// file is never offered to the decoder — it appears in no decode request
/// — and contributes no candidate, whatever the decoder answered for the
/// other sectors.
pub proof fn lemma_oversized_declared_length_skipped(
    bytes: Seq<u8>,
    answers: Seq<Option<(i32, i32)>>,
    sector: int,
)
    requires
        2 <= sector < num_sectors(bytes),
        declared_len(bytes, sector) > bytes.len() - sector * (SECTOR_SIZE as int),
    ensures
        candidate_at(bytes, answers, sector) is None,
        forall|j: int|
            0 <= j < plausible_sectors(bytes).len() ==> #[trigger] plausible_sectors(bytes)[j]
                != sector,
{
    lemma_plausible_upto_members(bytes, num_sectors(bytes));
}

/// The discovery list for `slot` grows by one step of the sector walk:
/// sector `sector`'s candidate is appended when it maps to `slot`.
pub proof fn lemma_entries_upto_step(
    bytes: Seq<u8>,
    answers: Seq<Option<(i32, i32)>>,
    slot: int,
    sector: int,
)
    requires
        sector >= 2,
    ensures
        entries_upto(bytes, answers, slot, sector + 1) == (match candidate_at(
            bytes,
            answers,
            sector,
        ) {
            Some((s, e)) => if s == slot {
                entries_upto(bytes, answers, slot, sector).push(e)
            } else {
                entries_upto(bytes, answers, slot, sector)
            },
            None => entries_upto(bytes, answers, slot, sector),
        }),
{
}

/// Every candidate for `slot` among sectors below `sector_end` records a
/// sector offset in `2..sector_end`, exactly as scanned.
pub proof fn lemma_entries_upto_offsets(
    bytes: Seq<u8>,
    answers: Seq<Option<(i32, i32)>>,
    slot: int,
    sector_end: int,
)
    requires
        sector_end <= 0x1000000,
    ensures
        forall|j: int|
            0 <= j < entries_upto(bytes, answers, slot, sector_end).len() ==> 2 <= (
            #[trigger] entries_upto(bytes, answers, slot, sector_end)[j]).offset_sectors as int
                && (entries_upto(bytes, answers, slot, sector_end)[j].offset_sectors as int)
                < sector_end,
    decreases sector_end,
{
    if sector_end > 2 {
        lemma_entries_upto_offsets(bytes, answers, slot, sector_end - 1);
        lemma_entries_upto_step(bytes, answers, slot, sector_end - 1);
        let prev = entries_upto(bytes, answers, slot, sector_end - 1);
        let cur = entries_upto(bytes, answers, slot, sector_end);
        assert forall|j: int|
            0 <= j < cur.len() implies 2 <= (#[trigger] cur[j]).offset_sectors as int && (
        cur[j].offset_sectors as int) < sector_end by {
            if j < prev.len() {
                assert(cur[j] == prev[j]);
            } else {
                assert(cur[j].offset_sectors as int == sector_end - 1);
            }
        }
    }
}

/// Scans every payload sector and returns, for each of the 1024 header
/// slots, the candidates discovered for it in ascending sector order.
/// `answers` holds the decoder's answer to each request that
/// `decode_requests` listed for this same buffer, in the same order.
pub fn discover_all_entries(bytes: &[u8], answers: &Vec<Option<(i32, i32)>>) -> (r: Vec<
    Vec<RegionEntry>,
>)
    ensures
        r@.len() == 1024,
        forall|slot: int| 0 <= slot < 1024 ==> r@[slot]@ == slot_entries(bytes@, answers@, slot),
{
    let mut r: Vec<Vec<RegionEntry>> = Vec::new();
    let mut k: usize = 0;
    while k < 1024
        invariant
            k <= 1024,
            r@.len() == k,
            forall|slot: int| 0 <= slot < k ==> r@[slot]@ == Seq::<RegionEntry>::empty(),
        decreases 1024 - k,
    {
        r.push(Vec::new());
        k = k + 1;
    }

    let total = bytes.len();
    let n = total / SECTOR_SIZE;
    let mut sector_idx: usize = 2;
    let mut answer_idx: usize = 0;
    while sector_idx < n
        invariant
            2 <= sector_idx,
            bytes@.len() == total,
            n == num_sectors(bytes@),
            sector_idx <= n || sector_idx == 2,
            answer_idx <= sector_idx,
            answer_idx == plausible_upto(bytes@, sector_idx as int).len(),
            r@.len() == 1024,
            forall|slot: int| 0 <= slot < 1024 ==> r@[slot]@ == entries_upto(
                bytes@,
                answers@,
                slot,
                sector_idx as int,
            ),
        decreases n - sector_idx,
    {
        proof {
            let len = bytes@.len() as int;
            let d = SECTOR_SIZE as int;
            vstd::arithmetic::div_mod::lemma_fundamental_div_mod(len, d);
            vstd::arithmetic::div_mod::lemma_mod_division_less_than_divisor(len, d);
            assert((sector_idx + 1) * d <= (len / d) * d) by (nonlinear_arith)
                requires
                    sector_idx + 1 <= len / d,
                    d > 0,
            ;
            assert((sector_idx + 1) * d <= len);
        }
        let byte_offset = sector_idx * SECTOR_SIZE;
        let declared = read_bigendian_u32(bytes, byte_offset);
        let tag = bytes[byte_offset + 4];
        let remaining = bytes.len() - byte_offset;
        if (declared as u64) + 5 <= (remaining as u64) && (tag == 1 || tag == 2) {
            let answer: Option<(i32, i32)> = if answer_idx < answers.len() {
                answers[answer_idx]
            } else {
                None
            };
            match answer {
                Some((chunk_x, chunk_z)) => {
                    let slot = slot_index(chunk_x, chunk_z);
                    let c = ((declared as u64) + (SECTOR_SIZE as u64) - 1) / (SECTOR_SIZE as u64);
                    let size_sectors: u8 = if c > 255 {
                        255
                    } else {
                        c as u8
                    };
                    let packed = read_bigendian_u32(bytes, slot * 4);
                    let existing_offset = packed >> 8;
                    let existing_size = (packed & 0xff) as u8;
                    let is_current = existing_offset == sector_idx as u32 && existing_size
                        == size_sectors;
                    let entry = RegionEntry {
                        is_current,
                        offset_sectors: sector_idx as u32,
                        size_sectors,
                    };
                    proof {
                        assert(candidate_at(bytes@, answers@, sector_idx as int) == Some(
                            (slot as int, entry),
                        ));
                    }
                    let ghost r_before = r@;
                    let slot_list = vec_index_mut(&mut r, slot);
                    slot_list.push(entry);
                    proof {
                        assert forall|s: int| 0 <= s < 1024 implies r@[s]@ == entries_upto(
                            bytes@,
                            answers@,
                            s,
                            sector_idx + 1,
                        ) by {
                            lemma_entries_upto_step(bytes@, answers@, s, sector_idx as int);
                            if s == slot as int {
                                assert(r@[s]@ == r_before[s]@.push(entry));
                            } else {
                                assert(r@[s]@ == r_before[s]@);
                            }
                        }
                    }
                },
                None => {
                    proof {
                        assert(candidate_at(bytes@, answers@, sector_idx as int) is None);
                        assert forall|s: int| 0 <= s < 1024 implies r@[s]@ == entries_upto(
                            bytes@,
                            answers@,
                            s,
                            sector_idx + 1,
                        ) by {
                            lemma_entries_upto_step(bytes@, answers@, s, sector_idx as int);
                        }
                    }
                },
            }
            answer_idx = answer_idx + 1;
        } else {
            proof {
                assert(!plausible_sector(bytes@, sector_idx as int));
                assert forall|s: int| 0 <= s < 1024 implies r@[s]@ == entries_upto(
                    bytes@,
                    answers@,
                    s,
                    sector_idx + 1,
                ) by {
                    lemma_entries_upto_step(bytes@, answers@, s, sector_idx as int);
                }
            }
        }
        proof {
            lemma_plausible_upto_step(bytes@, sector_idx as int);
        }
        sector_idx = sector_idx + 1;
    }
    proof {
        if num_sectors(bytes@) <= 2 {
            assert forall|slot: int| 0 <= slot < 1024 implies r@[slot]@ == slot_entries(
                bytes@,
                answers@,
                slot,
            ) by {
                assert(entries_upto(bytes@, answers@, slot, num_sectors(bytes@))
                    == Seq::<RegionEntry>::empty());
                assert(entries_upto(bytes@, answers@, slot, 2) == Seq::<RegionEntry>::empty());
            }
        }
    }
    r
}

} // verus!
