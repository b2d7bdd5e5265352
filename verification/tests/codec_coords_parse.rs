use region_recover::codec::{read_bigendian_u32, set_header_entry};
use region_recover::coords::{chunk_position_from_entry_idx, slot_index};
use region_recover::entry::DuplicateBehaviour;
use region_recover::parse::{parse_duplicate_behaviour, parse_i32, parse_region_position};

#[test]
fn header_entry_roundtrips_through_the_codec() {
    let mut bytes = vec![0u8; 16];
    set_header_entry(&mut bytes, 4, 0x123456, 7);
    assert_eq!(&bytes[4..8], &[0x12, 0x34, 0x56, 0x07]);
    let packed = read_bigendian_u32(&bytes, 4);
    assert_eq!(packed >> 8, 0x123456);
    assert_eq!((packed & 0xff) as u8, 7);
    // the rest of the buffer is untouched
    assert_eq!(&bytes[0..4], &[0, 0, 0, 0]);
    assert_eq!(&bytes[8..16], &[0u8; 8]);
}

#[test]
fn header_entry_roundtrips_at_the_24_bit_edge() {
    let mut bytes = vec![0u8; 8];
    set_header_entry(&mut bytes, 0, 0xffffff, 255);
    let packed = read_bigendian_u32(&bytes, 0);
    assert_eq!(packed >> 8, 0xffffff);
    assert_eq!((packed & 0xff) as u8, 255);
}

#[test]
fn read_bigendian_u32_reads_network_order() {
    let bytes = vec![0xde, 0xad, 0xbe, 0xef];
    assert_eq!(read_bigendian_u32(&bytes, 0), 0xdead_beef);
}

#[test]
fn slot_index_uses_low_five_bits_of_each_axis() {
    assert_eq!(slot_index(5, 3), 5 + (3 << 5));
    assert_eq!(slot_index(0, 0), 0);
    assert_eq!(slot_index(31, 31), 1023);
    // negative coordinates wrap into the region
    assert_eq!(slot_index(-1, 0), 31);
    assert_eq!(slot_index(-32, -32), 0);
}

#[test]
fn slot_index_ignores_whole_region_translations() {
    let base = slot_index(5, 3);
    assert_eq!(slot_index(5 + 32, 3), base);
    assert_eq!(slot_index(5 - 64, 3), base);
    assert_eq!(slot_index(5, 3 + 96), base);
    assert_eq!(slot_index(5 - 32, 3 - 32), base);
}

#[test]
fn chunk_position_recovers_absolute_coordinates() {
    assert_eq!(chunk_position_from_entry_idx((2, -1), 33), (65, -31));
    assert_eq!(chunk_position_from_entry_idx((0, 0), 0), (0, 0));
    assert_eq!(chunk_position_from_entry_idx((-3, 4), 1023), (-96 + 31, 128 + 31));
}

#[test]
fn parse_i32_accepts_signed_decimals() {
    assert_eq!(parse_i32(b"123"), Some(123));
    assert_eq!(parse_i32(b"-5"), Some(-5));
    assert_eq!(parse_i32(b"+7"), Some(7));
    assert_eq!(parse_i32(b"0"), Some(0));
    assert_eq!(parse_i32(b"2147483647"), Some(i32::MAX));
    assert_eq!(parse_i32(b"-2147483648"), Some(i32::MIN));
}

#[test]
fn parse_i32_rejects_junk_and_overflow() {
    assert_eq!(parse_i32(b""), None);
    assert_eq!(parse_i32(b"-"), None);
    assert_eq!(parse_i32(b"12a"), None);
    assert_eq!(parse_i32(b"2147483648"), None);
    assert_eq!(parse_i32(b"-2147483649"), None);
    assert_eq!(parse_i32(b"99999999999999999999"), None);
}

#[test]
fn region_position_comes_from_the_second_and_third_fields() {
    assert_eq!(parse_region_position(b"r.1.-2.mca"), Some((1, -2)));
    assert_eq!(parse_region_position(b"r.0.0.mca"), Some((0, 0)));
    // the third field may run to the end of the name
    assert_eq!(parse_region_position(b"r.3.4"), Some((3, 4)));
}

#[test]
fn malformed_file_names_do_not_parse() {
    assert_eq!(parse_region_position(b"r.mca"), None);
    assert_eq!(parse_region_position(b"foo"), None);
    assert_eq!(parse_region_position(b"r..2.mca"), None);
    assert_eq!(parse_region_position(b"r.x.2.mca"), None);
}

#[test]
fn behaviour_keywords_parse_without_regard_to_case() {
    assert_eq!(parse_duplicate_behaviour(b"TakeCurrent"), Some(DuplicateBehaviour::TakeCurrent));
    assert_eq!(parse_duplicate_behaviour(b"takecurrent"), Some(DuplicateBehaviour::TakeCurrent));
    assert_eq!(
        parse_duplicate_behaviour(b"TAKEUNTRACKED"),
        Some(DuplicateBehaviour::TakeUntracked)
    );
    assert_eq!(parse_duplicate_behaviour(b"keep"), None);
    assert_eq!(parse_duplicate_behaviour(b""), None);
}
