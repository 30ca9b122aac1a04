//! The mathematical model of CRC32C that every backend is proved against.
use vstd::prelude::*;

verus! {

/// The Castagnoli polynomial 0x1EDC6F41 with its bits reversed, as used by
/// the least-significant-bit-first (reflected) register update.
pub const CASTAGNOLI_REFLECTED: u32 = 0x82F6_3B78;

/// One step of the reflected CRC register: shift one data bit (the low bit of
/// `bit`) into the register `crc`.
pub open spec fn bit_step(crc: u32, bit: u32) -> u32 {
    if (crc ^ bit) & 1u32 == 1u32 {
        (crc >> 1u32) ^ CASTAGNOLI_REFLECTED
    } else {
        crc >> 1u32
    }
}

/// Shifts the eight bits of `byte` into the register, least significant first.
pub open spec fn byte_step(crc: u32, byte: u8) -> u32 {
    let d = byte as u32;
    let c = bit_step(crc, d & 1u32);
    let c = bit_step(c, (d >> 1u32) & 1u32);
    let c = bit_step(c, (d >> 2u32) & 1u32);
    let c = bit_step(c, (d >> 3u32) & 1u32);
    let c = bit_step(c, (d >> 4u32) & 1u32);
    let c = bit_step(c, (d >> 5u32) & 1u32);
    let c = bit_step(c, (d >> 6u32) & 1u32);
    bit_step(c, (d >> 7u32) & 1u32)
}

/// The register update over a whole byte sequence, from the register value
/// `crc`, taking the bytes in order.
pub open spec fn crc_update(crc: u32, data: Seq<u8>) -> u32
    decreases data.len(),
{
    if data.len() == 0 {
        crc
    } else {
        byte_step(crc_update(crc, data.drop_last()), data.last())
    }
}

/// The CRC32C checksum: the register starts with all bits set, and the final
/// register value is inverted.
pub open spec fn crc32c_spec(data: Seq<u8>) -> u32 {
    crc_update(0xFFFF_FFFFu32, data) ^ 0xFFFF_FFFFu32
}

/// One register step with a zero data bit.
pub open spec fn zero_step(crc: u32) -> u32 {
    if crc & 1u32 == 1u32 {
        (crc >> 1u32) ^ CASTAGNOLI_REFLECTED
    } else {
        crc >> 1u32
    }
}

/// Eight register steps with zero data bits.
pub open spec fn shift8(crc: u32) -> u32 {
    zero_step(zero_step(zero_step(zero_step(zero_step(zero_step(zero_step(zero_step(crc))))))))
}

/// `n` rounds of eight zero-data register steps.
pub open spec fn shift8_n(crc: u32, n: nat) -> u32
    decreases n,
{
    if n == 0 {
        crc
    } else {
        shift8(shift8_n(crc, (n - 1) as nat))
    }
}

/// Entry `index` (meant to be below 256) of the table `k` used by the
/// eight-bytes-at-a-time update: the register `index` after `k + 1` rounds of
/// eight zero-data steps.
pub open spec fn slice_table_entry(k: nat, index: u32) -> u32 {
    shift8_n(index, k + 1)
}

/// Four bytes read as a little-endian word.
pub open spec fn le_word(b0: u8, b1: u8, b2: u8, b3: u8) -> u32 {
    (b0 as u32) | ((b1 as u32) << 8u32) | ((b2 as u32) << 16u32) | ((b3 as u32) << 24u32)
}

/// Appending one byte applies one more byte step.
pub proof fn lemma_crc_update_push(crc: u32, data: Seq<u8>, byte: u8)
    ensures
        crc_update(crc, data.push(byte)) == byte_step(crc_update(crc, data), byte),
{
    assert(data.push(byte).drop_last() =~= data);
}

/// Processing `a + b` in one pass gives the register that processing `b`
/// gives when it starts from the register left by `a`.
pub proof fn lemma_crc_update_concat(crc: u32, a: Seq<u8>, b: Seq<u8>)
    ensures
        crc_update(crc, a + b) == crc_update(crc_update(crc, a), b),
    decreases b.len(),
{
    if b.len() == 0 {
        assert(a + b =~= a);
    } else {
        lemma_crc_update_concat(crc, a, b.drop_last());
        assert((a + b).drop_last() =~= a + b.drop_last());
        assert((a + b).last() == b.last());
    }
}

/// Extending the processed prefix of `data` by the next `n` bytes.
pub proof fn lemma_crc_update_extend(crc: u32, data: Seq<u8>, pos: int, n: int)
    requires
        0 <= pos,
        0 <= n,
        pos + n <= data.len(),
    ensures
        crc_update(crc, data.take(pos + n)) == crc_update(
            crc_update(crc, data.take(pos)),
            data.subrange(pos, pos + n),
        ),
{
    lemma_crc_update_concat(crc, data.take(pos), data.subrange(pos, pos + n));
    assert(data.take(pos) + data.subrange(pos, pos + n) =~= data.take(pos + n));
}

/// A zero register stays zero.
pub proof fn lemma_shift8_zero()
    ensures
        shift8(0u32) == 0u32,
{
    assert(shift8(0u32) == 0u32) by (bit_vector);
}

/// Zero-data rounds are linear.
pub proof fn lemma_shift8_n_xor(a: u32, b: u32, n: nat)
    ensures
        shift8_n(a ^ b, n) == shift8_n(a, n) ^ shift8_n(b, n),
    decreases n,
{
    if n > 0 {
        lemma_shift8_n_xor(a, b, (n - 1) as nat);
        lemma_shift8_xor(shift8_n(a, (n - 1) as nat), shift8_n(b, (n - 1) as nat));
    }
}

/// Rounds compose by adding their counts.
pub proof fn lemma_shift8_n_add(c: u32, m: nat, n: nat)
    ensures
        shift8_n(shift8_n(c, m), n) == shift8_n(c, m + n),
    decreases n,
{
    if n > 0 {
        lemma_shift8_n_add(c, m, (n - 1) as nat);
        assert((m + n - 1) as nat + 1 == m + n);
    }
}

/// Splitting off the low byte of the register.
pub proof fn lemma_shift8_n_peel(v: u32, k: nat)
    requires
        k >= 1,
    ensures
        shift8_n(v, k) == shift8_n(v >> 8u32, (k - 1) as nat) ^ shift8_n(v & 0xffu32, k),
{
    let j = (k - 1) as nat;
    lemma_shift8_n_add(v, 1, j);
    lemma_shift8_n_add(v & 0xffu32, 1, j);
    assert(shift8_n(v, 0) == v);
    assert(shift8_n(v & 0xffu32, 0) == v & 0xffu32);
    assert(shift8_n(v, 1) == shift8(v));
    assert(shift8_n(v & 0xffu32, 1) == shift8(v & 0xffu32));
    lemma_shift8_split(v);
    lemma_shift8_n_xor(v >> 8u32, shift8(v & 0xffu32), j);
}

/// `k` rounds applied to a whole register equal the sum of table entries for
/// its four bytes.
pub proof fn lemma_shift8_n_by_bytes(v: u32, k: nat)
    requires
        k >= 4,
    ensures
        shift8_n(v, k) == slice_table_entry((k - 1) as nat, v & 0xffu32)
            ^ slice_table_entry((k - 2) as nat, (v >> 8u32) & 0xffu32)
            ^ slice_table_entry((k - 3) as nat, (v >> 16u32) & 0xffu32)
            ^ slice_table_entry((k - 4) as nat, v >> 24u32),
{
    let v1 = v >> 8u32;
    let v2 = v >> 16u32;
    let v3 = v >> 24u32;
    assert(v1 >> 8u32 == v2 && v2 >> 8u32 == v3 && v3 & 0xffu32 == v3) by (bit_vector)
        requires
            v1 == v >> 8u32,
            v2 == v >> 16u32,
            v3 == v >> 24u32,
    ;
    lemma_shift8_n_peel(v, k);
    lemma_shift8_n_peel(v1, (k - 1) as nat);
    lemma_shift8_n_peel(v2, (k - 2) as nat);
    assert(((k - 1) as nat - 1) as nat == (k - 2) as nat);
    assert(((k - 2) as nat - 1) as nat == (k - 3) as nat);
    let a = shift8_n(v & 0xffu32, k);
    let b = shift8_n(v1 & 0xffu32, (k - 1) as nat);
    let c = shift8_n(v2 & 0xffu32, (k - 2) as nat);
    let d = shift8_n(v3, (k - 3) as nat);
    let s = shift8_n(v, k);
    let s1 = shift8_n(v1, (k - 1) as nat);
    let s2 = shift8_n(v2, (k - 2) as nat);
    assert(s == a ^ b ^ c ^ d) by (bit_vector)
        requires
            s == s1 ^ a,
            s1 == s2 ^ b,
            s2 == d ^ c,
    ;
}

/// A byte followed by up to three more bytes `rest` in the higher bits.
proof fn lemma_shift8_absorb_low_byte(x: u32, b: u8, rest: u32)
    requires
        rest < 0x100_0000,
    ensures
        shift8(x ^ ((b as u32) | (rest << 8u32))) == shift8(x ^ (b as u32)) ^ rest,
{
    let hi = rest << 8u32;
    assert(x ^ ((b as u32) | hi) == (x ^ (b as u32)) ^ hi && hi >> 8u32 == rest && hi & 0xffu32
        == 0u32 && rest ^ 0u32 == rest) by (bit_vector)
        requires
            rest < 0x100_0000,
            hi == rest << 8u32,
    ;
    lemma_shift8_xor(x ^ (b as u32), hi);
    lemma_shift8_split(hi);
    lemma_shift8_zero();
}

/// Four bytes processed one at a time equal four zero-data rounds applied to
/// the register with the little-endian word of the bytes folded in.
pub proof fn lemma_crc_update_four(crc: u32, b0: u8, b1: u8, b2: u8, b3: u8)
    ensures
        crc_update(crc, seq![b0, b1, b2, b3]) == shift8_n(crc ^ le_word(b0, b1, b2, b3), 4),
{
    let w2 = (b2 as u32) | ((b3 as u32) << 8u32);
    let w1 = (b1 as u32) | (w2 << 8u32);
    assert(le_word(b0, b1, b2, b3) == (b0 as u32) | (w1 << 8u32) && w1 < 0x100_0000 && w2
        < 0x100_0000 && (b3 as u32) < 0x100_0000) by (bit_vector)
        requires
            w2 == (b2 as u32) | ((b3 as u32) << 8u32),
            w1 == (b1 as u32) | (w2 << 8u32),
    ;
    let s0 = seq![b0];
    let s1 = seq![b0, b1];
    let s2 = seq![b0, b1, b2];
    let s3 = seq![b0, b1, b2, b3];
    lemma_crc_update_push(crc, Seq::empty(), b0);
    assert(Seq::<u8>::empty().push(b0) =~= s0);
    lemma_crc_update_push(crc, s0, b1);
    assert(s0.push(b1) =~= s1);
    lemma_crc_update_push(crc, s1, b2);
    assert(s1.push(b2) =~= s2);
    lemma_crc_update_push(crc, s2, b3);
    assert(s2.push(b3) =~= s3);
    let c1 = byte_step(crc, b0);
    let c2 = byte_step(c1, b1);
    let c3 = byte_step(c2, b2);
    lemma_byte_step_absorbs_data(crc, b0);
    lemma_byte_step_absorbs_data(c1, b1);
    lemma_byte_step_absorbs_data(c2, b2);
    lemma_byte_step_absorbs_data(c3, b3);
    lemma_shift8_absorb_low_byte(crc, b0, w1);
    lemma_shift8_absorb_low_byte(c1, b1, w2);
    lemma_shift8_absorb_low_byte(c2, b2, b3 as u32);
    reveal_with_fuel(shift8_n, 5);
}

/// Eight bytes at a time through eight table lookups.
pub proof fn lemma_crc_update_eight(crc: u32, bytes: Seq<u8>)
    requires
        bytes.len() == 8,
    ensures
        ({
            let x = crc ^ le_word(bytes[0], bytes[1], bytes[2], bytes[3]);
            crc_update(crc, bytes) == slice_table_entry(7, x & 0xffu32)
                ^ slice_table_entry(6, (x >> 8u32) & 0xffu32)
                ^ slice_table_entry(5, (x >> 16u32) & 0xffu32)
                ^ slice_table_entry(4, x >> 24u32)
                ^ slice_table_entry(3, bytes[4] as u32)
                ^ slice_table_entry(2, bytes[5] as u32)
                ^ slice_table_entry(1, bytes[6] as u32)
                ^ slice_table_entry(0, bytes[7] as u32)
        }),
{
    let lo = seq![bytes[0], bytes[1], bytes[2], bytes[3]];
    let hi = seq![bytes[4], bytes[5], bytes[6], bytes[7]];
    assert(bytes =~= lo + hi);
    lemma_crc_update_concat(crc, lo, hi);
    let x = crc ^ le_word(bytes[0], bytes[1], bytes[2], bytes[3]);
    let h = le_word(bytes[4], bytes[5], bytes[6], bytes[7]);
    lemma_crc_update_four(crc, bytes[0], bytes[1], bytes[2], bytes[3]);
    let mid = shift8_n(x, 4);
    lemma_crc_update_four(mid, bytes[4], bytes[5], bytes[6], bytes[7]);
    lemma_shift8_n_xor(mid, h, 4);
    lemma_shift8_n_add(x, 4, 4);
    lemma_shift8_n_by_bytes(x, 8);
    lemma_shift8_n_by_bytes(h, 4);
    let b4 = bytes[4];
    let b5 = bytes[5];
    let b6 = bytes[6];
    let b7 = bytes[7];
    assert(h & 0xffu32 == b4 as u32 && (h >> 8u32) & 0xffu32 == b5 as u32 && (h >> 16u32)
        & 0xffu32 == b6 as u32 && h >> 24u32 == b7 as u32) by (bit_vector)
        requires
            h == le_word(b4, b5, b6, b7),
    ;
    let t7 = slice_table_entry(7, x & 0xffu32);
    let t6 = slice_table_entry(6, (x >> 8u32) & 0xffu32);
    let t5 = slice_table_entry(5, (x >> 16u32) & 0xffu32);
    let t4 = slice_table_entry(4, x >> 24u32);
    let t3 = slice_table_entry(3, b4 as u32);
    let t2 = slice_table_entry(2, b5 as u32);
    let t1 = slice_table_entry(1, b6 as u32);
    let t0 = slice_table_entry(0, b7 as u32);
    let r = crc_update(crc, bytes);
    let p = shift8_n(x, 8);
    let q = shift8_n(h, 4);
    assert(r == t7 ^ t6 ^ t5 ^ t4 ^ t3 ^ t2 ^ t1 ^ t0) by (bit_vector)
        requires
            r == p ^ q,
            p == t7 ^ t6 ^ t5 ^ t4,
            q == t3 ^ t2 ^ t1 ^ t0,
    ;
}

/// One byte through the first table.
pub proof fn lemma_byte_step_by_table(crc: u32, byte: u8)
    ensures
        byte_step(crc, byte) == (crc >> 8u32) ^ slice_table_entry(0, (crc ^ (byte as u32)) & 0xffu32),
{
    let x = crc ^ (byte as u32);
    lemma_byte_step_absorbs_data(crc, byte);
    lemma_shift8_split(x);
    assert(x >> 8u32 == crc >> 8u32) by (bit_vector)
        requires
            x == crc ^ (byte as u32),
    ;
    reveal_with_fuel(shift8_n, 2);
}

/// A data byte acts as if exclusive-ored into the low byte of the register.
pub proof fn lemma_byte_step_absorbs_data(crc: u32, byte: u8)
    ensures
        byte_step(crc, byte) == shift8(crc ^ (byte as u32)),
{
    assert(byte_step(crc, byte) == shift8(crc ^ (byte as u32))) by (bit_vector);
}

/// Eight zero-data steps are linear.
pub proof fn lemma_shift8_xor(a: u32, b: u32)
    ensures
        shift8(a ^ b) == shift8(a) ^ shift8(b),
{
    lemma_zero_step_xor(a, b);
    lemma_zero_step_xor(zero_step(a), zero_step(b));
    lemma_zero_step_xor(zero_step(zero_step(a)), zero_step(zero_step(b)));
    lemma_zero_step_xor(zero_step(zero_step(zero_step(a))), zero_step(zero_step(zero_step(b))));
    lemma_zero_step_xor(
        zero_step(zero_step(zero_step(zero_step(a)))),
        zero_step(zero_step(zero_step(zero_step(b)))),
    );
    lemma_zero_step_xor(
        zero_step(zero_step(zero_step(zero_step(zero_step(a))))),
        zero_step(zero_step(zero_step(zero_step(zero_step(b))))),
    );
    lemma_zero_step_xor(
        zero_step(zero_step(zero_step(zero_step(zero_step(zero_step(a)))))),
        zero_step(zero_step(zero_step(zero_step(zero_step(zero_step(b)))))),
    );
    lemma_zero_step_xor(
        zero_step(zero_step(zero_step(zero_step(zero_step(zero_step(zero_step(a))))))),
        zero_step(zero_step(zero_step(zero_step(zero_step(zero_step(zero_step(b))))))),
    );
}

/// One zero-data step is linear.
pub proof fn lemma_zero_step_xor(a: u32, b: u32)
    ensures
        zero_step(a ^ b) == zero_step(a) ^ zero_step(b),
{
    assert(zero_step(a ^ b) == zero_step(a) ^ zero_step(b)) by (bit_vector);
}

/// The high 24 bits of the register only shift down by a byte.
pub proof fn lemma_shift8_split(c: u32)
    ensures
        shift8(c) == (c >> 8u32) ^ shift8(c & 0xffu32),
{
    assert(shift8(c) == (c >> 8u32) ^ shift8(c & 0xffu32)) by (bit_vector);
}

/// Exclusive-or identities on registers.
pub proof fn lemma_xor_facts(a: u32, b: u32, c: u32)
    by (bit_vector)
    ensures
        a ^ 0u32 == a,
        0u32 ^ a == a,
        (a ^ b == 0u32) == (a == b),
        (a ^ c == b ^ c) ==> a == b,
        b != 0u32 ==> (a ^ b) ^ c != a ^ c,
        (a ^ b) ^ b == a,
        a ^ (b ^ a) == b,
        (c ^ a) ^ (c ^ b) == a ^ b,
        a ^ (b ^ c) == (a ^ b) ^ c,
{
}

/// Exclusive-or identities on bytes.
pub proof fn lemma_xor_facts_u8(x: u8, y: u8)
    by (bit_vector)
    ensures
        x ^ (x ^ y) == y,
        x ^ x == 0u8,
        (x ^ y == 0u8) == (x == y),
{
}

} // verus!
