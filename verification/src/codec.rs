//! Binary header codec: each of the 1024 header slots is a packed 4-byte
//! big-endian value `(offset_sectors << 8) | size_sectors`, where the sector
//! offset occupies the high 24 bits and the sector count the low 8 bits.

use vstd::prelude::*;

verus! {

/// Size in bytes of one region-file sector, the alignment unit for payloads.
pub const SECTOR_SIZE: usize = 4096;

/// The big-endian 32-bit value formed from four bytes.
pub open spec fn be_u32_of(b0: u8, b1: u8, b2: u8, b3: u8) -> u32 {
    ((b0 as u32) << 24) | ((b1 as u32) << 16) | ((b2 as u32) << 8) | (b3 as u32)
}

/// The big-endian 32-bit value stored at byte offset `off`.
pub open spec fn be_u32_at(bytes: Seq<u8>, off: int) -> u32
    recommends
        0 <= off,
        off + 4 <= bytes.len(),
{
    be_u32_of(bytes[off], bytes[off + 1], bytes[off + 2], bytes[off + 3])
}

/// The sector offset packed into a header word: its high 24 bits.
pub open spec fn unpack_offset(packed: u32) -> u32 {
    packed >> 8
}

/// The sector count packed into a header word: its low 8 bits.
pub open spec fn unpack_size(packed: u32) -> u8 {
    (packed & 0xff) as u8
}

/// The four bytes of a header slot holding `(offset_sectors, size_sectors)`.
pub open spec fn pack_bytes(offset_sectors: u32, size_sectors: u8) -> Seq<u8> {
    seq![
        ((offset_sectors >> 16) & 0xff) as u8,
        ((offset_sectors >> 8) & 0xff) as u8,
        (offset_sectors & 0xff) as u8,
        size_sectors,
    ]
}

/// Law: packing a 24-bit sector offset and an 8-bit sector count and then
/// unpacking the resulting four bytes gives the pair back unchanged.
pub proof fn lemma_pack_unpack_roundtrip(offset_sectors: u32, size_sectors: u8)
    requires
        offset_sectors < 0x1000000,
    ensures
        unpack_offset(be_u32_at(pack_bytes(offset_sectors, size_sectors), 0)) == offset_sectors,
        unpack_size(be_u32_at(pack_bytes(offset_sectors, size_sectors), 0)) == size_sectors,
{
    let b0 = ((offset_sectors >> 16) & 0xff) as u8;
    let b1 = ((offset_sectors >> 8) & 0xff) as u8;
    let b2 = (offset_sectors & 0xff) as u8;
    assert(be_u32_of(b0, b1, b2, size_sectors) >> 8 == offset_sectors) by (bit_vector)
        requires
            b0 == ((offset_sectors >> 16) & 0xff) as u8,
            b1 == ((offset_sectors >> 8) & 0xff) as u8,
            b2 == (offset_sectors & 0xff) as u8,
            offset_sectors < 0x1000000,
    ;
    assert((be_u32_of(b0, b1, b2, size_sectors) & 0xff) as u8 == size_sectors) by (bit_vector);
}

/// Reads the big-endian 32-bit value at byte offset `offset`.
pub fn read_bigendian_u32(bytes: &[u8], offset: usize) -> (r: u32)
    requires
        offset + 4 <= bytes@.len(),
    ensures
        r == be_u32_at(bytes@, offset as int),
{
    ((bytes[offset] as u32) << 24) | ((bytes[offset + 1] as u32) << 16) | (
    (bytes[offset + 2] as u32) << 8) | (bytes[offset + 3] as u32)
}

/// Writes the packed header word for `(sector_idx, size)` at byte offset
/// `header_offset`, leaving every other byte as it was. The round trip is
/// part of the contract: unpacking the written slot gives the pair back.
pub fn set_header_entry(bytes: &mut Vec<u8>, header_offset: usize, sector_idx: usize, size: u8)
    requires
        header_offset + 4 <= old(bytes).len(),
        sector_idx < 0x1000000,
    ensures
        final(bytes).len() == old(bytes).len(),
        final(bytes)@.subrange(header_offset as int, header_offset + 4) == pack_bytes(
            sector_idx as u32,
            size,
        ),
        forall|i: int|
            0 <= i < old(bytes).len() && !(header_offset <= i < header_offset + 4)
                ==> final(bytes)@[i] == old(bytes)@[i],
        unpack_offset(be_u32_at(final(bytes)@, header_offset as int)) == sector_idx as u32,
        unpack_size(be_u32_at(final(bytes)@, header_offset as int)) == size,
{
    let b0 = ((sector_idx >> 16) & 0xff) as u8;
    let b1 = ((sector_idx >> 8) & 0xff) as u8;
    let b2 = (sector_idx & 0xff) as u8;
    bytes.set(header_offset, b0);
    bytes.set(header_offset + 1, b1);
    bytes.set(header_offset + 2, b2);
    bytes.set(header_offset + 3, size);
    proof {
        let o = sector_idx as u32;
        assert(b0 == ((o >> 16) & 0xff) as u8 && b1 == ((o >> 8) & 0xff) as u8 && b2 == (o & 0xff)
            as u8) by (bit_vector)
            requires
                o == sector_idx as u32,
                sector_idx < 0x1000000,
                b0 == ((sector_idx >> 16) & 0xff) as u8,
                b1 == ((sector_idx >> 8) & 0xff) as u8,
                b2 == (sector_idx & 0xff) as u8,
        ;
        assert(bytes@.subrange(header_offset as int, header_offset + 4) =~= pack_bytes(o, size));
        lemma_pack_unpack_roundtrip(o, size);
        assert(be_u32_at(bytes@, header_offset as int) == be_u32_at(pack_bytes(o, size), 0));
    }
}

} // verus!
