//! The backend shaped after the SSE4.2 `crc32` instruction sequence: eight
//! bytes per `crc32 r64, m64`, then a 4-, 2- and 1-byte tail dispatched on the
//! low bits of the remaining length. The instructions are modelled in software
//! by [`crate::instructions`].
use vstd::prelude::*;
use crate::crc_model::{crc32c_spec, crc_update, lemma_crc_update_extend};
use crate::instructions::{
    crc32c_update_u16, crc32c_update_u32, crc32c_update_u64, crc32c_update_u8, load_u16_le,
    load_u32_le, load_u64_le,
};

verus! {

/// Computes CRC32C the way the SSE4.2 instruction sequence does: the main
/// loop folds eight bytes per step while at least eight remain; the tail then
/// folds four, two or one byte, testing bit 2, 1 and 0 of the remaining length
/// in that order, until nothing remains.
pub fn crc32c_u32(data: &[u8]) -> (checksum: u32)
    ensures
        checksum == crc32c_spec(data@),
{
    let mut acc: u32 = 0xFFFF_FFFF;
    let mut pos: usize = 0;
    let len = data.len();
    let mut remaining: usize = len;
    proof {
        assert(data@.take(0) =~= Seq::<u8>::empty());
    }
    while remaining >= 8
        invariant
            len == data@.len(),
            pos + remaining == len,
            acc == crc_update(0xFFFF_FFFFu32, data@.take(pos as int)),
        decreases remaining,
    {
        let word = load_u64_le(data, pos);
        proof {
            lemma_crc_update_extend(0xFFFF_FFFFu32, data@, pos as int, 8);
        }
        acc = crc32c_update_u64(acc, word);
        pos = pos + 8;
        remaining = remaining - 8;
    }
    while remaining != 0
        invariant
            remaining < 8,
            len == data@.len(),
            pos + remaining == len,
            acc == crc_update(0xFFFF_FFFFu32, data@.take(pos as int)),
        decreases remaining,
    {
        assert((remaining & 4 != 0 ==> remaining >= 4) && (remaining & 2 != 0 ==> remaining >= 2))
            by (bit_vector)
            requires
                remaining < 8,
        ;
        if remaining & 4 != 0 {
            let word = load_u32_le(data, pos);
            proof {
                lemma_crc_update_extend(0xFFFF_FFFFu32, data@, pos as int, 4);
            }
            acc = crc32c_update_u32(acc, word);
            pos = pos + 4;
            remaining = remaining - 4;
        } else if remaining & 2 != 0 {
            let half = load_u16_le(data, pos);
            proof {
                lemma_crc_update_extend(0xFFFF_FFFFu32, data@, pos as int, 2);
            }
            acc = crc32c_update_u16(acc, half);
            pos = pos + 2;
            remaining = remaining - 2;
        } else {
            let byte = data[pos];
            proof {
                lemma_crc_update_extend(0xFFFF_FFFFu32, data@, pos as int, 1);
                assert(data@.subrange(pos as int, pos + 1) =~= seq![byte]);
                crate::crc_model::lemma_crc_update_push(acc, Seq::<u8>::empty(), byte);
                assert(Seq::<u8>::empty().push(byte) =~= seq![byte]);
            }
            acc = crc32c_update_u8(acc, byte);
            pos = pos + 1;
            remaining = remaining - 1;
        }
    }
    proof {
        assert(data@.take(pos as int) =~= data@);
    }
    acc ^ 0xFFFF_FFFF
}

} // verus!
