use crc32c_fast::crc32c;

fn xor(a: &[u8], b: &[u8]) -> Vec<u8> {
    a.iter().zip(b.iter()).map(|(x, y)| x ^ y).collect()
}

#[test]
fn checksum_is_linear_over_xor() {
    let a = b"hello world!";
    let b = b"HELLO WORLD?";
    let c = [0u8; 12];
    let combined = xor(&xor(a, b), &c);
    assert_eq!(crc32c(a), 0x49CB5777);
    assert_eq!(crc32c(b), 0x52B9D262);
    assert_eq!(crc32c(&c), 0x2B60B55D);
    assert_eq!(crc32c(&combined), 0x30123048);
    assert_eq!(crc32c(&combined), crc32c(a) ^ crc32c(b) ^ crc32c(&c));
}

#[test]
fn same_edit_keeps_a_collision() {
    let a = b"abcdefgh";
    let b = [0x77u8, 0x78, 0x79, 0x7a, 0xf7, 0xae, 0x68, 0x7b];
    assert_ne!(&a[..], &b[..]);
    assert_eq!(crc32c(a), 0x0A9421B7);
    assert_eq!(crc32c(&b), 0x0A9421B7);

    let edit = [0x5au8; 8];
    let a_edited = xor(a, &edit);
    let b_edited = xor(&b, &edit);
    assert_eq!(crc32c(&a_edited), 0xCF8E4119);
    assert_eq!(crc32c(&b_edited), 0xCF8E4119);
}

#[test]
fn single_bit_flip_changes_checksum() {
    assert_eq!(crc32c(b"123456789"), 0xE3069283);
    assert_eq!(crc32c(b"123456788"), 0x116D1180);

    let data: Vec<u8> = (0..40u32).map(|i| (i * 13 + 5) as u8).collect();
    let original = crc32c(&data);
    for index in 0..data.len() {
        for bit in 0..8 {
            let mut flipped = data.clone();
            flipped[index] ^= 1 << bit;
            assert_ne!(crc32c(&flipped), original, "flip at byte {index} bit {bit}");
        }
    }
}

#[test]
fn any_change_in_one_byte_changes_checksum() {
    let data = [0u8; 16];
    let original = crc32c(&data);
    for index in 0..data.len() {
        for value in 1..=255u8 {
            let mut changed = data;
            changed[index] = value;
            assert_ne!(crc32c(&changed), original, "byte {index} set to {value}");
        }
    }
}

#[test]
fn four_appended_bytes_can_keep_the_checksum() {
    let message = b"truncate";
    let extended = [
        0x74u8, 0x72, 0x75, 0x6e, 0x63, 0x61, 0x74, 0x65, 0x59, 0x89, 0xe2, 0x97,
    ];
    assert_eq!(&extended[..8], &message[..]);
    assert_eq!(crc32c(message), 0x62173D7C);
    assert_eq!(crc32c(&extended), 0x62173D7C);
}

#[test]
fn any_burst_of_32_bits_changes_checksum() {
    let data: Vec<u8> = (0..24u32).map(|i| (i * 29 + 3) as u8).collect();
    let original = crc32c(&data);
    let bursts: [u32; 5] = [0xFFFF_FFFF, 0x8000_0001, 0x00A5_5A00, 0x0000_0001, 0x1234_5678];
    for start_bit in 0..=(data.len() * 8 - 32) {
        for burst in bursts.iter() {
            let mut changed = data.clone();
            for k in 0..32 {
                if (burst >> k) & 1 == 1 {
                    let q = start_bit + k;
                    changed[q / 8] ^= 1 << (q % 8);
                }
            }
            assert_ne!(crc32c(&changed), original, "burst {burst:#x} at bit {start_bit}");
        }
    }
}

#[test]
fn misaligned_burst_across_five_bytes_changes_checksum() {
    let data = [0x10u8, 0x20, 0x30, 0x40, 0x50, 0x60, 0x70];
    let mut changed = data;
    changed[1] ^= 0x80;
    changed[5] ^= 0x40;
    // Flipped bits sit at positions 15 and 46: 32 consecutive positions,
    // spread over bytes 1 to 5.
    assert_eq!(crc32c(&data), 0xDB7E817D);
    assert_eq!(crc32c(&changed), 0x3861F0AF);
}

#[test]
fn changes_to_short_inputs_change_checksum() {
    let data = [0x00u8, 0x00, 0x00];
    let original = crc32c(&data);
    for pattern in 1..(1u32 << 24) {
        if pattern % 4099 != 1 {
            continue;
        }
        let changed = [
            (pattern & 0xff) as u8,
            ((pattern >> 8) & 0xff) as u8,
            ((pattern >> 16) & 0xff) as u8,
        ];
        assert_ne!(crc32c(&changed), original, "pattern {pattern:#x}");
    }
    assert_ne!(crc32c(&[0x00, 0x01]), crc32c(&[0x00, 0x00]));
}

#[test]
fn four_appended_bytes_reach_a_chosen_checksum() {
    let forged = [0x61u8, 0x62, 0x63, 0x64, 0x65, 0x66, 0x67, 0x68, 0xcf, 0x04, 0xdd, 0x05];
    assert_eq!(&forged[..8], b"abcdefgh");
    assert_eq!(crc32c(&forged), 0xDEAD_BEEF);
}
