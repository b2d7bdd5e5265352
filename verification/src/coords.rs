//! Coordinate/slot mapping: pure functions between absolute chunk
//! coordinates, region-relative chunk coordinates, and header-slot indices.
//! A region is 32 chunks on each side, so only the low 5 bits of each chunk
//! axis select the slot.

use vstd::prelude::*;

verus! {

/// The header-slot index a chunk belongs to: the low 5 bits of its X
/// coordinate, with the low 5 bits of its Z coordinate above them.
pub open spec fn slot_index_spec(chunk_x: i32, chunk_z: i32) -> u32 {
    ((chunk_x & 0x1f) as u32) | (((chunk_z & 0x1f) as u32) << 5)
}

/// Law: the slot index does not change when a chunk coordinate is moved by
/// a whole number of regions, that is by any multiple of 32 on either axis.
pub proof fn lemma_slot_index_translation(chunk_x: i32, chunk_z: i32, dx: i32, dz: i32)
    requires
        dx % 32 == 0,
        dz % 32 == 0,
        i32::MIN <= chunk_x + dx <= i32::MAX,
        i32::MIN <= chunk_z + dz <= i32::MAX,
    ensures
        slot_index_spec((chunk_x + dx) as i32, (chunk_z + dz) as i32) == slot_index_spec(
            chunk_x,
            chunk_z,
        ),
{
    assert(((chunk_x + dx) as i32) & 0x1f == chunk_x & 0x1f) by (bit_vector)
        requires
            dx % 32 == 0,
            i32::MIN <= chunk_x + dx <= i32::MAX,
    ;
    assert(((chunk_z + dz) as i32) & 0x1f == chunk_z & 0x1f) by (bit_vector)
        requires
            dz % 32 == 0,
            i32::MIN <= chunk_z + dz <= i32::MAX,
    ;
}

/// Computes the header-slot index for a chunk position.
pub fn slot_index(chunk_x: i32, chunk_z: i32) -> (r: usize)
    ensures
        r == slot_index_spec(chunk_x, chunk_z) as usize,
        r < 1024,
{
    let v: u32 = ((chunk_x & 0x1f) as u32) | (((chunk_z & 0x1f) as u32) << 5);
    proof {
        assert(((chunk_x & 0x1f) as u32) | (((chunk_z & 0x1f) as u32) << 5) < 1024u32)
            by (bit_vector);
    }
    v as usize
}

/// Recovers the absolute chunk position encoded by a header-slot index of
/// the region at `region_position` (units of whole regions on each axis).
pub fn chunk_position_from_entry_idx(region_position: (i32, i32), entry_idx: u16) -> (r: (
    i32,
    i32,
))
    requires
        entry_idx < 1024,
        -0x0400_0000 <= region_position.0 < 0x0400_0000,
        -0x0400_0000 <= region_position.1 < 0x0400_0000,
    ensures
        r.0 == region_position.0 * 32 + (entry_idx & 0x1f),
        r.1 == region_position.1 * 32 + (entry_idx >> 5),
{
    let entry_x = entry_idx & 0x1f;
    let entry_z = entry_idx >> 5;
    let rx = region_position.0;
    let rz = region_position.1;
    proof {
        assert(entry_x < 32 && entry_z < 32) by (bit_vector)
            requires
                entry_x == entry_idx & 0x1f,
                entry_z == entry_idx >> 5,
                entry_idx < 1024,
        ;
        assert(rx << 5 == rx * 32) by (bit_vector)
            requires
                -0x0400_0000 <= rx < 0x0400_0000,
        ;
        assert(rz << 5 == rz * 32) by (bit_vector)
            requires
                -0x0400_0000 <= rz < 0x0400_0000,
        ;
    }
    ((rx << 5) + (entry_x as i32), (rz << 5) + (entry_z as i32))
}

} // verus!
