//! The eight 256-entry lookup tables of the eight-bytes-at-a-time update.
use vstd::prelude::*;
use crate::crc_model::{
    lemma_shift8_split, shift8, shift8_n, slice_table_entry, zero_step, CASTAGNOLI_REFLECTED,
};

verus! {

/// Number of tables.
pub const TABLE_COUNT: usize = 8;

/// Entries per table.
pub const TABLE_LEN: usize = 256;

/// Entry `m` of the eight tables laid end to end: table `m / 256`, index
/// `m % 256`.
pub open spec fn table_value(m: int) -> u32 {
    slice_table_entry((m / 256) as nat, (m % 256) as u32)
}

/// `t` holds the eight tables laid end to end.
pub open spec fn tables_hold(t: Seq<u32>) -> bool {
    &&& t.len() == 2048
    &&& forall|m: int| 0 <= m < 2048 ==> #[trigger] t[m] == table_value(m)
}

/// Entry `j` of table `k` sits at `k * 256 + j`.
pub proof fn lemma_table_value(k: nat, j: u32)
    requires
        k < 8,
        j < 256,
    ensures
        table_value(k * 256 + j) == slice_table_entry(k, j),
{
    vstd::arithmetic::div_mod::lemma_fundamental_div_mod_converse(
        k * 256 + j,
        256,
        k as int,
        j as int,
    );
}

/// One register step with a zero data bit.
fn zero_step_exec(crc: u32) -> (r: u32)
    ensures
        r == zero_step(crc),
{
    if crc & 1 == 1 {
        (crc >> 1) ^ CASTAGNOLI_REFLECTED
    } else {
        crc >> 1
    }
}

/// Eight register steps with zero data bits.
pub fn shift8_exec(crc: u32) -> (r: u32)
    ensures
        r == shift8(crc),
{
    let mut c = zero_step_exec(crc);
    c = zero_step_exec(c);
    c = zero_step_exec(c);
    c = zero_step_exec(c);
    c = zero_step_exec(c);
    c = zero_step_exec(c);
    c = zero_step_exec(c);
    zero_step_exec(c)
}

/// Builds the tables: table 0 by eight register steps per entry, and each
/// later table from the one before it through table 0.
pub fn build_slice_tables() -> (t: Vec<u32>)
    ensures
        tables_hold(t@),
{
    let mut t: Vec<u32> = Vec::with_capacity(TABLE_COUNT * TABLE_LEN);
    let mut j: u32 = 0;
    while j < 256
        invariant
            j <= 256,
            t@.len() == j,
            forall|m: int| 0 <= m < t@.len() ==> #[trigger] t@[m] == table_value(m),
        decreases 256 - j,
    {
        proof {
            lemma_table_value(0, j);
            reveal_with_fuel(shift8_n, 2);
        }
        t.push(shift8_exec(j));
        j = j + 1;
    }
    let mut m: usize = 256;
    while m < 2048
        invariant
            256 <= m <= 2048,
            t@.len() == m,
            forall|i: int| 0 <= i < t@.len() ==> #[trigger] t@[i] == table_value(i),
        decreases 2048 - m,
    {
        let prev = t[m - 256];
        let low = prev & 0xff;
        assert(low < 256) by (bit_vector)
            requires
                low == prev & 0xff,
        ;
        let v = (prev >> 8) ^ t[low as usize];
        proof {
            let k = (m / 256) as nat;
            let jj = (m % 256) as u32;
            lemma_table_value(k, jj);
            lemma_table_value((k - 1) as nat, jj);
            lemma_table_value(0, low);
            assert(m == k * 256 + jj);
            assert(prev == shift8_n(jj, k));
            lemma_shift8_split(prev);
            reveal_with_fuel(shift8_n, 2);
            assert(t@[low as int] == shift8(low));
        }
        t.push(v);
        m = m + 1;
    }
    t
}

} // verus!
