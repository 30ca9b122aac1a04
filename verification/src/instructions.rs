//! Software models of the CRC32C instructions of x86_64 (SSE4.2 `crc32`) and
//! AArch64 (`crc32cb`, `crc32ch`, `crc32cw`, `crc32cx`): each folds an operand
//! of 1, 2, 4 or 8 bytes, taken little-endian, into the register, with no
//! inversion on the way in or out.
use vstd::prelude::*;
use crate::crc_model::{bit_step, byte_step, crc_update, lemma_crc_update_push, CASTAGNOLI_REFLECTED};

verus! {

/// `n` register steps taking the data bits of `d` from the lowest up.
pub open spec fn shift_bits(crc: u32, d: u32, n: nat) -> u32
    decreases n,
{
    if n == 0 {
        crc
    } else {
        shift_bits(bit_step(crc, d), d >> 1u32, (n - 1) as nat)
    }
}

/// The bytes of a 16-bit operand, lowest first.
pub open spec fn le_bytes_u16(v: u16) -> Seq<u8> {
    seq![v as u8, (v >> 8u16) as u8]
}

/// The bytes of a 32-bit operand, lowest first.
pub open spec fn le_bytes_u32(v: u32) -> Seq<u8> {
    seq![v as u8, (v >> 8u32) as u8, (v >> 16u32) as u8, (v >> 24u32) as u8]
}

/// The bytes of a 64-bit operand, lowest first.
pub open spec fn le_bytes_u64(v: u64) -> Seq<u8> {
    seq![
        v as u8,
        (v >> 8u64) as u8,
        (v >> 16u64) as u8,
        (v >> 24u64) as u8,
        (v >> 32u64) as u8,
        (v >> 40u64) as u8,
        (v >> 48u64) as u8,
        (v >> 56u64) as u8,
    ]
}

proof fn lemma_shift_bits_byte(crc: u32, byte: u8)
    ensures
        shift_bits(crc, byte as u32, 8) == byte_step(crc, byte),
{
    reveal_with_fuel(shift_bits, 9);
    assert(shift_bits(crc, byte as u32, 8) == byte_step(crc, byte)) by (bit_vector);
}

/// Folds one byte into the register, one bit at a time.
pub fn crc32c_update_u8(crc: u32, byte: u8) -> (r: u32)
    ensures
        r == byte_step(crc, byte),
{
    let mut acc = crc;
    let mut bits = byte as u32;
    let mut i: u32 = 0;
    while i < 8
        invariant
            i <= 8,
            shift_bits(acc, bits, (8 - i) as nat) == shift_bits(crc, byte as u32, 8),
        decreases 8 - i,
    {
        let feedback = (acc ^ bits) & 1;
        acc = acc >> 1;
        if feedback == 1 {
            acc = acc ^ CASTAGNOLI_REFLECTED;
        }
        bits = bits >> 1;
        i = i + 1;
    }
    proof {
        lemma_shift_bits_byte(crc, byte);
    }
    acc
}

/// Folds a 16-bit operand into the register.
pub fn crc32c_update_u16(crc: u32, v: u16) -> (r: u32)
    ensures
        r == crc_update(crc, le_bytes_u16(v)),
{
    let c0 = crc32c_update_u8(crc, v as u8);
    let c1 = crc32c_update_u8(c0, (v >> 8) as u8);
    proof {
        let e = Seq::<u8>::empty();
        lemma_crc_update_push(crc, e, v as u8);
        lemma_crc_update_push(crc, e.push(v as u8), (v >> 8u16) as u8);
        assert(e.push(v as u8).push((v >> 8u16) as u8) =~= le_bytes_u16(v));
    }
    c1
}

/// Folds a 32-bit operand into the register.
pub fn crc32c_update_u32(crc: u32, v: u32) -> (r: u32)
    ensures
        r == crc_update(crc, le_bytes_u32(v)),
{
    let c0 = crc32c_update_u8(crc, v as u8);
    let c1 = crc32c_update_u8(c0, (v >> 8) as u8);
    let c2 = crc32c_update_u8(c1, (v >> 16) as u8);
    let c3 = crc32c_update_u8(c2, (v >> 24) as u8);
    proof {
        let s0 = Seq::<u8>::empty().push(v as u8);
        let s1 = s0.push((v >> 8u32) as u8);
        let s2 = s1.push((v >> 16u32) as u8);
        let s3 = s2.push((v >> 24u32) as u8);
        lemma_crc_update_push(crc, Seq::<u8>::empty(), v as u8);
        lemma_crc_update_push(crc, s0, (v >> 8u32) as u8);
        lemma_crc_update_push(crc, s1, (v >> 16u32) as u8);
        lemma_crc_update_push(crc, s2, (v >> 24u32) as u8);
        assert(s3 =~= le_bytes_u32(v));
    }
    c3
}

/// Folds a 64-bit operand into the register.
pub fn crc32c_update_u64(crc: u32, v: u64) -> (r: u32)
    ensures
        r == crc_update(crc, le_bytes_u64(v)),
{
    let c0 = crc32c_update_u8(crc, v as u8);
    let c1 = crc32c_update_u8(c0, (v >> 8) as u8);
    let c2 = crc32c_update_u8(c1, (v >> 16) as u8);
    let c3 = crc32c_update_u8(c2, (v >> 24) as u8);
    let c4 = crc32c_update_u8(c3, (v >> 32) as u8);
    let c5 = crc32c_update_u8(c4, (v >> 40) as u8);
    let c6 = crc32c_update_u8(c5, (v >> 48) as u8);
    let c7 = crc32c_update_u8(c6, (v >> 56) as u8);
    proof {
        let s0 = Seq::<u8>::empty().push(v as u8);
        let s1 = s0.push((v >> 8u64) as u8);
        let s2 = s1.push((v >> 16u64) as u8);
        let s3 = s2.push((v >> 24u64) as u8);
        let s4 = s3.push((v >> 32u64) as u8);
        let s5 = s4.push((v >> 40u64) as u8);
        let s6 = s5.push((v >> 48u64) as u8);
        let s7 = s6.push((v >> 56u64) as u8);
        lemma_crc_update_push(crc, Seq::<u8>::empty(), v as u8);
        lemma_crc_update_push(crc, s0, (v >> 8u64) as u8);
        lemma_crc_update_push(crc, s1, (v >> 16u64) as u8);
        lemma_crc_update_push(crc, s2, (v >> 24u64) as u8);
        lemma_crc_update_push(crc, s3, (v >> 32u64) as u8);
        lemma_crc_update_push(crc, s4, (v >> 40u64) as u8);
        lemma_crc_update_push(crc, s5, (v >> 48u64) as u8);
        lemma_crc_update_push(crc, s6, (v >> 56u64) as u8);
        assert(s7 =~= le_bytes_u64(v));
    }
    c7
}

/// Loads the two bytes at `pos` as a little-endian 16-bit operand.
pub fn load_u16_le(data: &[u8], pos: usize) -> (v: u16)
    requires
        pos + 2 <= data@.len(),
    ensures
        le_bytes_u16(v) == data@.subrange(pos as int, pos + 2),
{
    let b0 = data[pos];
    let b1 = data[pos + 1];
    let v = (b0 as u16) | ((b1 as u16) << 8);
    assert(v as u8 == b0 && (v >> 8u16) as u8 == b1) by (bit_vector)
        requires
            v == (b0 as u16) | ((b1 as u16) << 8u16),
    ;
    assert(le_bytes_u16(v) =~= data@.subrange(pos as int, pos + 2));
    v
}

/// Loads the four bytes at `pos` as a little-endian 32-bit operand.
pub fn load_u32_le(data: &[u8], pos: usize) -> (v: u32)
    requires
        pos + 4 <= data@.len(),
    ensures
        le_bytes_u32(v) == data@.subrange(pos as int, pos + 4),
{
    let b0 = data[pos];
    let b1 = data[pos + 1];
    let b2 = data[pos + 2];
    let b3 = data[pos + 3];
    let v = (b0 as u32) | ((b1 as u32) << 8) | ((b2 as u32) << 16) | ((b3 as u32) << 24);
    assert(v as u8 == b0 && (v >> 8u32) as u8 == b1 && (v >> 16u32) as u8 == b2 && (v >> 24u32)
        as u8 == b3) by (bit_vector)
        requires
            v == (b0 as u32) | ((b1 as u32) << 8u32) | ((b2 as u32) << 16u32) | ((b3 as u32)
                << 24u32),
    ;
    assert(le_bytes_u32(v) =~= data@.subrange(pos as int, pos + 4));
    v
}

/// Loads the eight bytes at `pos` as a little-endian 64-bit operand.
pub fn load_u64_le(data: &[u8], pos: usize) -> (v: u64)
    requires
        pos + 8 <= data@.len(),
    ensures
        le_bytes_u64(v) == data@.subrange(pos as int, pos + 8),
{
    let b0 = data[pos];
    let b1 = data[pos + 1];
    let b2 = data[pos + 2];
    let b3 = data[pos + 3];
    let b4 = data[pos + 4];
    let b5 = data[pos + 5];
    let b6 = data[pos + 6];
    let b7 = data[pos + 7];
    let lo = (b0 as u64) | ((b1 as u64) << 8) | ((b2 as u64) << 16) | ((b3 as u64) << 24);
    let hi = (b4 as u64) | ((b5 as u64) << 8) | ((b6 as u64) << 16) | ((b7 as u64) << 24);
    let v = lo | (hi << 32);
    assert(v as u8 == b0 && (v >> 8u64) as u8 == b1 && (v >> 16u64) as u8 == b2 && (v >> 24u64)
        as u8 == b3 && (v >> 32u64) as u8 == b4 && (v >> 40u64) as u8 == b5 && (v >> 48u64) as u8
        == b6 && (v >> 56u64) as u8 == b7) by (bit_vector)
        requires
            lo == (b0 as u64) | ((b1 as u64) << 8u64) | ((b2 as u64) << 16u64) | ((b3 as u64)
                << 24u64),
            hi == (b4 as u64) | ((b5 as u64) << 8u64) | ((b6 as u64) << 16u64) | ((b7 as u64)
                << 24u64),
            v == lo | (hi << 32u64),
    ;
    assert(le_bytes_u64(v) =~= data@.subrange(pos as int, pos + 8));
    v
}

} // verus!
