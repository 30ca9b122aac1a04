use crc32c_fast::crc32c;

/// Known-good CRC32C values shared by every backend's tests, chosen to
/// exercise each tail path: an 8-byte main-loop pass plus every combination
/// of the 4, 2 and 1 byte handlers.
const KNOWN: [(&[u8], u32); 10] = [
    (b"", 0x00000000),
    (b"1", 0x90F599E3),         // 1
    (b"12", 0x7355C460),        // 2
    (b"123", 0x107B2FB2),       // 2 + 1
    (b"1234", 0xF63AF4EE),      // 4
    (b"12345", 0x18D12335),     // 4 + 1
    (b"123456", 0x41357186),    // 4 + 2
    (b"1234567", 0x124297EA),   // 4 + 2 + 1
    (b"12345678", 0x6087809A),  // 8, main loop only
    (b"123456789", 0xE3069283), // 8 + 1
];

#[test]
fn public_api_known_vectors() {
    for (input, expected) in KNOWN {
        assert_eq!(
            crc32c(input),
            expected,
            "CRC32C public API mismatch for input: {input:?}"
        );
    }
}

#[test]
fn portable_known_crc32c_vectors() {
    let test_cases: [(&[u8], u32); 5] = [
        (b"", 0x00000000),
        (b"12", 0x7355C460),
        (b"123", 0x107B2FB2),
        (b"1234", 0xF63AF4EE),
        (b"123456789", 0xE3069283),
    ];

    for (input, expected) in test_cases {
        let result = crc32c_fast::portable::crc32c_u32(input);

        assert_eq!(
            result, expected,
            "Portable CRC32 mismatch for input: {:?}",
            input
        );
    }
}

#[test]
fn x86_64_known_crc32c_vectors() {
    for (input, expected) in KNOWN {
        let result = crc32c_fast::x86_64::crc32c_u32(input);

        assert_eq!(result, expected, "CRC32C mismatch for input: {input:?}");
    }
}

#[test]
fn aarch64_known_crc32c_vectors() {
    let test_cases: [(&[u8], u32); 10] = [
        (b"", 0x00000000),
        (b"1", 0x90F599E3), // 1 byte
        (b"12", 0x7355C460),
        (b"123", 0x107B2FB2),
        (b"1234", 0xF63AF4EE),
        (b"123456789", 0xE3069283),
        (b"12345", 0x18D12335),    // 5 bytes: 4 + 1
        (b"123456", 0x41357186),   // 6 bytes: 4 + 2
        (b"1234567", 0x124297EA),  // 7 bytes: 4 + 2 + 1
        (b"12345678", 0x6087809A), // 8 bytes: one word only
    ];

    for (input, expected) in test_cases {
        let result = crc32c_fast::aarch64::crc32c_u32(input);

        assert_eq!(result, expected, "CRC32C mismatch for input: {:?}", input);
    }
}

#[test]
fn all_backends_agree_on_every_short_length() {
    let data: Vec<u8> = (0..64u32).map(|i| (i * 37 + 11) as u8).collect();
    for len in 0..=data.len() {
        let slice = &data[..len];
        let expected = crc32c(slice);
        assert_eq!(crc32c_fast::portable::crc32c_u32(slice), expected, "portable, length {len}");
        assert_eq!(crc32c_fast::x86_64::crc32c_u32(slice), expected, "x86_64, length {len}");
        assert_eq!(crc32c_fast::aarch64::crc32c_u32(slice), expected, "aarch64, length {len}");
    }
}

#[test]
fn empty_input_has_zero_checksum() {
    assert_eq!(crc32c(&[]), 0);
    assert_eq!(crc32c_fast::x86_64::crc32c_u32(&[]), 0);
    assert_eq!(crc32c_fast::aarch64::crc32c_u32(&[]), 0);
    assert_eq!(crc32c_fast::portable::crc32c_u32(&[]), 0);
}

#[test]
fn portable_agrees_on_both_sides_of_the_short_input_bound() {
    let data: Vec<u8> = (0..600u32).map(|i| (i * 7 + 1) as u8).collect();
    let bound = crc32c_fast::portable::SHORT_INPUT_LEN;
    for len in (bound - 9)..(bound + 9) {
        let slice = &data[..len];
        assert_eq!(
            crc32c_fast::portable::crc32c_u32(slice),
            crc32c_fast::x86_64::crc32c_u32(slice),
            "length {len}"
        );
    }
}
