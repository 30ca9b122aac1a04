//! The portable backend: eight bytes per iteration through eight table
//! lookups, then one byte at a time; short inputs skip the tables.
use vstd::prelude::*;
use crate::crc_model::{
    crc32c_spec, crc_update, le_word, lemma_byte_step_by_table, lemma_crc_update_concat,
    lemma_crc_update_eight, lemma_crc_update_push, slice_table_entry,
};
use crate::instructions::crc32c_update_u8;
use crate::tables::{build_slice_tables, lemma_table_value, tables_hold};

verus! {

/// Looks up entry `index` of table `k`.
fn lookup(t: &Vec<u32>, k: usize, index: u32) -> (r: u32)
    requires
        tables_hold(t@),
        k < 8,
        index < 256,
    ensures
        r == slice_table_entry(k as nat, index),
{
    proof {
        lemma_table_value(k as nat, index);
    }
    t[k * 256 + index as usize]
}

/// Inputs shorter than this are folded a byte at a time: building the tables
/// would cost more than it saves.
pub const SHORT_INPUT_LEN: usize = 512;

/// Folds every byte of `data` into the register one at a time.
fn crc32c_bytewise(data: &[u8]) -> (checksum: u32)
    ensures
        checksum == crc32c_spec(data@),
{
    let len = data.len();
    let mut crc: u32 = 0xFFFF_FFFF;
    let mut i: usize = 0;
    proof {
        assert(data@.take(0) =~= Seq::<u8>::empty());
    }
    while i < len
        invariant
            len == data@.len(),
            i <= len,
            crc == crc_update(0xFFFF_FFFFu32, data@.take(i as int)),
        decreases len - i,
    {
        let b = data[i];
        proof {
            lemma_crc_update_push(0xFFFF_FFFFu32, data@.take(i as int), b);
            assert(data@.take(i as int).push(b) =~= data@.take(i + 1));
        }
        crc = crc32c_update_u8(crc, b);
        i = i + 1;
    }
    proof {
        assert(data@.take(len as int) =~= data@);
    }
    crc ^ 0xFFFF_FFFF
}

/// Computes the CRC32C checksum of `data`: eight bytes per iteration through
/// eight table lookups, or a byte at a time for inputs shorter than
/// [`SHORT_INPUT_LEN`].
pub fn crc32c_u32(data: &[u8]) -> (checksum: u32)
    ensures
        checksum == crc32c_spec(data@),
{
    let len = data.len();
    if len < SHORT_INPUT_LEN {
        return crc32c_bytewise(data);
    }
    let t = build_slice_tables();
    let mut crc: u32 = 0xFFFF_FFFF;
    let mut i: usize = 0;
    proof {
        assert(data@.take(0) =~= Seq::<u8>::empty());
    }
    while len - i >= 8
        invariant
            len == data@.len(),
            i <= len,
            tables_hold(t@),
            crc == crc_update(0xFFFF_FFFFu32, data@.take(i as int)),
        decreases len - i,
    {
        let x = crc ^ le_word_at(data, i);
        let x0 = x & 0xff;
        let x1 = (x >> 8) & 0xff;
        let x2 = (x >> 16) & 0xff;
        let x3 = x >> 24;
        assert(x0 < 256 && x1 < 256 && x2 < 256 && x3 < 256) by (bit_vector)
            requires
                x0 == x & 0xff,
                x1 == (x >> 8) & 0xff,
                x2 == (x >> 16) & 0xff,
                x3 == x >> 24,
        ;
        let next = lookup(&t, 7, x0) ^ lookup(&t, 6, x1) ^ lookup(&t, 5, x2) ^ lookup(&t, 4, x3)
            ^ lookup(&t, 3, data[i + 4] as u32) ^ lookup(&t, 2, data[i + 5] as u32) ^ lookup(
            &t,
            1,
            data[i + 6] as u32,
        ) ^ lookup(&t, 0, data[i + 7] as u32);
        proof {
            let block = data@.subrange(i as int, i + 8);
            lemma_crc_update_eight(crc, block);
            lemma_crc_update_concat(0xFFFF_FFFFu32, data@.take(i as int), block);
            assert(data@.take(i as int) + block =~= data@.take(i + 8));
        }
        crc = next;
        i = i + 8;
    }
    while i < len
        invariant
            len == data@.len(),
            i <= len,
            tables_hold(t@),
            crc == crc_update(0xFFFF_FFFFu32, data@.take(i as int)),
        decreases len - i,
    {
        let b = data[i];
        let index = (crc ^ b as u32) & 0xff;
        assert(index < 256) by (bit_vector)
            requires
                index == (crc ^ b as u32) & 0xff,
        ;
        let next = (crc >> 8) ^ lookup(&t, 0, index);
        proof {
            lemma_byte_step_by_table(crc, b);
            lemma_crc_update_push(0xFFFF_FFFFu32, data@.take(i as int), b);
            assert(data@.take(i as int).push(b) =~= data@.take(i + 1));
        }
        crc = next;
        i = i + 1;
    }
    proof {
        assert(data@.take(len as int) =~= data@);
    }
    crc ^ 0xFFFF_FFFF
}

/// The four bytes at `pos` read as a little-endian word.
fn le_word_at(data: &[u8], pos: usize) -> (w: u32)
    requires
        pos + 4 <= data@.len(),
    ensures
        w == le_word(data@[pos as int], data@[pos + 1], data@[pos + 2], data@[pos + 3]),
{
    (data[pos] as u32) | ((data[pos + 1] as u32) << 8) | ((data[pos + 2] as u32) << 16) | ((
    data[pos + 3] as u32) << 24)
}

} // verus!
