use crc32c_fast::instructions::{
    crc32c_update_u16, crc32c_update_u32, crc32c_update_u64, crc32c_update_u8, load_u16_le,
    load_u32_le, load_u64_le,
};
use crc32c_fast::tables::{build_slice_tables, shift8_exec};

#[test]
fn byte_update_matches_known_registers() {
    assert_eq!(crc32c_update_u8(0, 0x31), 0xC288CAB2);
    assert_eq!(crc32c_update_u8(0xFFFF_FFFF, 0x31), 0x6F0A661C);
    assert_eq!(crc32c_update_u8(0, 0), 0);
}

#[test]
fn word_updates_match_known_registers() {
    assert_eq!(crc32c_update_u16(0xFFFF_FFFF, 0x3231), 0x8CAA3B9F);
    assert_eq!(crc32c_update_u32(0xFFFF_FFFF, 0x3433_3231), 0x09C50B11);
    assert_eq!(crc32c_update_u64(0xFFFF_FFFF, 0x3837_3635_3433_3231), 0x9F787F65);
    assert_eq!(crc32c_update_u64(0xFFFF_FFFF, 0x3837_3635_3433_3231) ^ 0xFFFF_FFFF, 0x6087809A);
}

#[test]
fn loads_are_little_endian() {
    let data = [0x01u8, 0x02, 0x03, 0x04, 0x05, 0x06, 0x07, 0x08, 0x09];
    assert_eq!(load_u16_le(&data, 1), 0x0302);
    assert_eq!(load_u32_le(&data, 0), 0x0403_0201);
    assert_eq!(load_u64_le(&data, 1), 0x0908_0706_0504_0302);
}

#[test]
fn tables_hold_known_entries() {
    let t = build_slice_tables();
    assert_eq!(t.len(), 2048);
    assert_eq!(t[0], 0);
    assert_eq!(t[1], 0xF26B8303);
    assert_eq!(t[0x80], 0x82F63B78);
    assert_eq!(t[0xff], 0xAD7D5351);
    let second_entries = [
        0xF26B8303u32, 0x13A29877, 0xA541927E, 0xDD45AAB8, 0x38116FAC, 0xEF306B19, 0x68032CC8,
        0x493C7D27,
    ];
    for (k, expected) in second_entries.iter().enumerate() {
        assert_eq!(t[k * 256 + 1], *expected, "table {k}");
    }
    assert_eq!(shift8_exec(1), 0xF26B8303);
}
