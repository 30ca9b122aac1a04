//! What holds of CRC32C as a whole: it is linear over GF(2), so a deliberate
//! edit can keep or reach any checksum, and it detects every change confined
//! to a single byte position or to 32 consecutive bits.
use vstd::prelude::*;
use crate::bits::{
    feed_bits, lemma_crc_update_bits, lemma_feed_bits_concat, lemma_feed_window_nonzero,
    lemma_feed_zero_bits, lemma_zero_step_nonzero, to_bits,
};
use crate::crc_model::{
    byte_step, crc32c_spec, crc_update, le_word, lemma_byte_step_absorbs_data,
    lemma_crc_update_concat, lemma_crc_update_four, lemma_crc_update_push, lemma_shift8_xor,
    lemma_shift8_n_xor, lemma_xor_facts, lemma_xor_facts_u8, shift8, shift8_n, zero_step,
    CASTAGNOLI_REFLECTED,
};
use crate::instructions::le_bytes_u32;

verus! {

/// Byte-wise exclusive or of two sequences of equal length.
pub open spec fn xor_bytes(a: Seq<u8>, b: Seq<u8>) -> Seq<u8> {
    Seq::new(a.len(), |i: int| a[i] ^ b[i])
}

proof fn lemma_byte_step_xor(c1: u32, c2: u32, b1: u8, b2: u8)
    ensures
        byte_step(c1 ^ c2, b1 ^ b2) == byte_step(c1, b1) ^ byte_step(c2, b2),
{
    lemma_byte_step_absorbs_data(c1 ^ c2, b1 ^ b2);
    lemma_byte_step_absorbs_data(c1, b1);
    lemma_byte_step_absorbs_data(c2, b2);
    assert((c1 ^ c2) ^ ((b1 ^ b2) as u32) == (c1 ^ (b1 as u32)) ^ (c2 ^ (b2 as u32)))
        by (bit_vector);
    lemma_shift8_xor(c1 ^ (b1 as u32), c2 ^ (b2 as u32));
}

/// The register update is linear in the register and the data together: the
/// update of two exclusive-ored starts over two exclusive-ored inputs is the
/// exclusive or of the two updates.
pub proof fn lemma_crc_update_xor(c1: u32, c2: u32, x: Seq<u8>, y: Seq<u8>)
    requires
        x.len() == y.len(),
    ensures
        crc_update(c1 ^ c2, xor_bytes(x, y)) == crc_update(c1, x) ^ crc_update(c2, y),
    decreases x.len(),
{
    if x.len() > 0 {
        lemma_crc_update_xor(c1, c2, x.drop_last(), y.drop_last());
        assert(xor_bytes(x, y).drop_last() =~= xor_bytes(x.drop_last(), y.drop_last()));
        lemma_byte_step_xor(
            crc_update(c1, x.drop_last()),
            crc_update(c2, y.drop_last()),
            x.last(),
            y.last(),
        );
    }
}

/// CRC32C is linear: for three inputs of one length, the checksum of their
/// byte-wise exclusive or is the exclusive or of their checksums.
pub proof fn lemma_crc32c_linear(a: Seq<u8>, b: Seq<u8>, c: Seq<u8>)
    requires
        a.len() == b.len(),
        b.len() == c.len(),
    ensures
        crc32c_spec(xor_bytes(xor_bytes(a, b), c)) == crc32c_spec(a) ^ crc32c_spec(b)
            ^ crc32c_spec(c),
{
    let init = 0xFFFF_FFFFu32;
    lemma_crc_update_xor(init, init, a, b);
    lemma_crc_update_xor(init ^ init, init, xor_bytes(a, b), c);
    let ra = crc_update(init, a);
    let rb = crc_update(init, b);
    let rc = crc_update(init, c);
    assert((init ^ init) ^ init == init && ((ra ^ rb) ^ rc) ^ init == ((ra ^ init) ^ (rb ^ init))
        ^ (rc ^ init)) by (bit_vector)
        requires
            init == 0xFFFF_FFFFu32,
    ;
}

/// CRC32C is forgeable: two inputs of one length with the same checksum keep
/// equal checksums after the same bits are flipped in both.
pub proof fn lemma_crc32c_same_edit_keeps_collision(a: Seq<u8>, b: Seq<u8>, edit: Seq<u8>)
    requires
        a.len() == b.len(),
        a.len() == edit.len(),
        crc32c_spec(a) == crc32c_spec(b),
    ensures
        crc32c_spec(xor_bytes(a, edit)) == crc32c_spec(xor_bytes(b, edit)),
{
    let init = 0xFFFF_FFFFu32;
    lemma_crc_update_xor(init, 0, a, edit);
    lemma_crc_update_xor(init, 0, b, edit);
    let ra = crc_update(init, a);
    let rb = crc_update(init, b);
    lemma_xor_facts(init, 0, 0);
    lemma_xor_facts(ra, rb, init);
}

proof fn lemma_shift8_nonzero(c: u32)
    ensures
        (shift8(c) == 0) == (c == 0),
{
    lemma_zero_step_nonzero();
}

/// Zero bytes keep a zero register zero and a nonzero register nonzero.
proof fn lemma_crc_update_zero_bytes(c: u32, s: Seq<u8>)
    requires
        forall|k: int| 0 <= k < s.len() ==> s[k] == 0,
    ensures
        (crc_update(c, s) == 0) == (c == 0),
    decreases s.len(),
{
    if s.len() > 0 {
        lemma_crc_update_zero_bytes(c, s.drop_last());
        let r = crc_update(c, s.drop_last());
        lemma_byte_step_absorbs_data(r, 0);
        lemma_xor_facts(r, 0, 0);
        lemma_shift8_nonzero(r);
    }
}

/// CRC32C detects every change confined to one byte position, in particular
/// every single flipped bit: two inputs of one length that differ at exactly
/// one index have different checksums.
pub proof fn lemma_crc32c_detects_one_byte_change(a: Seq<u8>, b: Seq<u8>, i: int)
    requires
        a.len() == b.len(),
        0 <= i < a.len(),
        a[i] != b[i],
        forall|j: int| 0 <= j < a.len() && j != i ==> a[j] == b[j],
    ensures
        crc32c_spec(a) != crc32c_spec(b),
{
    let init = 0xFFFF_FFFFu32;
    let e = xor_bytes(a, b);
    assert forall|j: int| 0 <= j < a.len() implies #[trigger] xor_bytes(a, e)[j] == b[j] by {
        lemma_xor_facts_u8(a[j], b[j]);
    }
    assert(xor_bytes(a, e) =~= b);
    lemma_crc_update_xor(init, 0, a, e);
    lemma_xor_facts(init, 0, 0);
    // The register for `e` alone, from zero, is nonzero.
    let pre = e.take(i);
    let mid = e[i];
    let post = e.skip(i + 1);
    assert forall|k: int| 0 <= k < pre.len() implies pre[k] == 0 by {
        lemma_xor_facts_u8(a[k], a[k]);
    }
    assert forall|k: int| 0 <= k < post.len() implies post[k] == 0 by {
        lemma_xor_facts_u8(a[i + 1 + k], a[i + 1 + k]);
    }
    lemma_xor_facts_u8(a[i], b[i]);
    assert(mid != 0 ==> byte_step(0, mid) != 0) by (bit_vector);
    lemma_crc_update_zero_bytes(0, pre);
    lemma_crc_update_push(0, pre, mid);
    lemma_crc_update_concat(0, pre.push(mid), post);
    assert(pre.push(mid) + post =~= e);
    lemma_crc_update_zero_bytes(byte_step(0, mid), post);
    let ra = crc_update(init, a);
    let z = crc_update(0, e);
    lemma_xor_facts(ra, z, init);
}

proof fn lemma_shift8_n_nonzero(c: u32, n: nat)
    requires
        c != 0,
    ensures
        shift8_n(c, n) != 0,
    decreases n,
{
    if n > 0 {
        lemma_shift8_n_nonzero(c, (n - 1) as nat);
        lemma_shift8_nonzero(shift8_n(c, (n - 1) as nat));
    }
}

/// CRC32C detects every burst of at most 32 bits, single flipped bits
/// included: two distinct inputs of one length whose differing bits all lie
/// within the 32 consecutive positions from `p` on have different checksums.
/// Bit position `q` is bit `q % 8` of byte `q / 8`, the order in which the
/// register consumes the data.
pub proof fn lemma_crc32c_detects_burst(a: Seq<u8>, b: Seq<u8>, p: int)
    requires
        a.len() == b.len(),
        a != b,
        forall|q: int|
            0 <= q < a.len() * 8 && #[trigger] to_bits(a)[q] != to_bits(b)[q] ==> p <= q < p
                + 32,
    ensures
        crc32c_spec(a) != crc32c_spec(b),
{
    let init = 0xFFFF_FFFFu32;
    let n = a.len() as int;
    let e = xor_bytes(a, b);
    assert forall|j: int| 0 <= j < a.len() implies #[trigger] xor_bytes(a, e)[j] == b[j] by {
        lemma_xor_facts_u8(a[j], b[j]);
    }
    assert(xor_bytes(a, e) =~= b);
    lemma_crc_update_xor(init, 0, a, e);
    lemma_xor_facts(init, 0, 0);
    let bits = to_bits(e);
    // A set bit of `e` marks a differing bit of `a` and `b`.
    assert forall|q: int| 0 <= q < n * 8 implies #[trigger] bits[q] == (to_bits(a)[q] != to_bits(
        b,
    )[q]) by {
        vstd::arithmetic::div_mod::lemma_fundamental_div_mod(q, 8);
        let j = q / 8;
        let k = (q % 8) as u8;
        assert(0 <= j < n);
        let x = a[j];
        let y = b[j];
        assert(((x ^ y) >> k) & 1u8 == 1u8 <==> ((x >> k) & 1u8 == 1u8) != ((y >> k) & 1u8
            == 1u8)) by (bit_vector)
            requires
                k < 8u8,
        ;
    }
    // Some bit differs.
    if forall|j: int| 0 <= j < n ==> a[j] == b[j] {
        assert(a =~= b);
    }
    let d = choose|j: int| 0 <= j < n && a[j] != b[j];
    let x = a[d] ^ b[d];
    let y0 = a[d];
    let y1 = b[d];
    lemma_xor_facts_u8(y0, y1);
    assert(x != 0u8 ==> ((x >> 0u8) & 1u8 == 1u8 || (x >> 1u8) & 1u8 == 1u8 || (x >> 2u8) & 1u8
        == 1u8 || (x >> 3u8) & 1u8 == 1u8 || (x >> 4u8) & 1u8 == 1u8 || (x >> 5u8) & 1u8 == 1u8
        || (x >> 6u8) & 1u8 == 1u8 || (x >> 7u8) & 1u8 == 1u8)) by (bit_vector);
    let k: int = if (x >> 0u8) & 1u8 == 1u8 {
        0
    } else if (x >> 1u8) & 1u8 == 1u8 {
        1
    } else if (x >> 2u8) & 1u8 == 1u8 {
        2
    } else if (x >> 3u8) & 1u8 == 1u8 {
        3
    } else if (x >> 4u8) & 1u8 == 1u8 {
        4
    } else if (x >> 5u8) & 1u8 == 1u8 {
        5
    } else if (x >> 6u8) & 1u8 == 1u8 {
        6
    } else {
        7
    };
    let q0 = 8 * d + k;
    vstd::arithmetic::div_mod::lemma_fundamental_div_mod_converse(q0, 8, d, k);
    assert(bits[q0]);
    assert(p <= q0 < p + 32);
    // The window of at most 32 bits around the burst.
    let lo = if p < 0 {
        0
    } else {
        p
    };
    let hi = if p + 32 < n * 8 {
        p + 32
    } else {
        n * 8
    };
    let pre = bits.take(lo);
    let win = bits.subrange(lo, hi);
    let post = bits.skip(hi);
    assert forall|q: int| 0 <= q < pre.len() implies !pre[q] by {
        assert(bits[q] == (to_bits(a)[q] != to_bits(b)[q]));
    }
    assert forall|q: int| 0 <= q < post.len() implies !post[q] by {
        assert(bits[hi + q] == (to_bits(a)[hi + q] != to_bits(b)[hi + q]));
    }
    assert(win[q0 - lo]);
    assert(pre + win + post =~= bits);
    lemma_crc_update_bits(0u32, e);
    lemma_feed_bits_concat(0u32, pre + win, post);
    lemma_feed_bits_concat(0u32, pre, win);
    lemma_feed_zero_bits(0u32, pre);
    lemma_feed_window_nonzero(win, q0 - lo);
    lemma_feed_zero_bits(feed_bits(0u32, pre + win), post);
    let ra = crc_update(init, a);
    let z = crc_update(0, e);
    lemma_xor_facts(ra, z, init);
}

/// One zero-data register step run backwards.
pub open spec fn zero_step_back(y: u32) -> u32 {
    if y & 0x8000_0000u32 != 0u32 {
        ((y ^ CASTAGNOLI_REFLECTED) << 1u32) | 1u32
    } else {
        y << 1u32
    }
}

/// Eight zero-data register steps run backwards.
pub open spec fn shift8_back(y: u32) -> u32 {
    zero_step_back(
        zero_step_back(
            zero_step_back(
                zero_step_back(zero_step_back(zero_step_back(zero_step_back(zero_step_back(y))))),
            ),
        ),
    )
}

proof fn lemma_shift8_back(y: u32)
    ensures
        shift8(shift8_back(y)) == y,
{
    assert forall|v: u32| #[trigger] zero_step(zero_step_back(v)) == v by {
        assert(zero_step(zero_step_back(v)) == v) by (bit_vector);
    }
}

/// The register after a prefix and a four-byte suffix.
proof fn lemma_crc32c_four_byte_suffix(s: Seq<u8>, x: Seq<u8>)
    requires
        x.len() == 4,
    ensures
        crc32c_spec(s + x) == shift8_n(
            crc_update(0xFFFF_FFFFu32, s) ^ le_word(x[0], x[1], x[2], x[3]),
            4,
        ) ^ 0xFFFF_FFFFu32,
{
    lemma_crc_update_concat(0xFFFF_FFFFu32, s, x);
    assert(x =~= seq![x[0], x[1], x[2], x[3]]);
    lemma_crc_update_four(crc_update(0xFFFF_FFFFu32, s), x[0], x[1], x[2], x[3]);
}

/// CRC32C is trivially forgeable: after any prefix, exactly one four-byte
/// suffix gives any chosen checksum.
pub proof fn lemma_crc32c_four_byte_suffix_reaches_any_checksum(s: Seq<u8>, t: u32)
    ensures
        exists|x: Seq<u8>| x.len() == 4 && #[trigger] crc32c_spec(s + x) == t,
        forall|x: Seq<u8>, y: Seq<u8>|
            x.len() == 4 && y.len() == 4 && #[trigger] crc32c_spec(s + x) == t
                && #[trigger] crc32c_spec(s + y) == t ==> x == y,
{
    let init = 0xFFFF_FFFFu32;
    let r = crc_update(init, s);
    // Existence: run the four zero-data rounds backwards from the target.
    let target = t ^ init;
    let v = shift8_back(shift8_back(shift8_back(shift8_back(target))));
    lemma_shift8_back(shift8_back(shift8_back(shift8_back(target))));
    lemma_shift8_back(shift8_back(shift8_back(target)));
    lemma_shift8_back(shift8_back(target));
    lemma_shift8_back(target);
    reveal_with_fuel(shift8_n, 5);
    assert(shift8_n(v, 4) == target);
    let w = v ^ r;
    let x = le_bytes_u32(w);
    assert(le_word(w as u8, (w >> 8u32) as u8, (w >> 16u32) as u8, (w >> 24u32) as u8) == w)
        by (bit_vector);
    lemma_xor_facts(r, v, 0);
    lemma_xor_facts(t, init, 0);
    lemma_crc32c_four_byte_suffix(s, x);
    assert(crc32c_spec(s + x) == t);
    // Uniqueness: the four rounds are linear and keep nonzero values nonzero.
    assert forall|x1: Seq<u8>, y1: Seq<u8>|
        x1.len() == 4 && y1.len() == 4 && #[trigger] crc32c_spec(s + x1) == t
            && #[trigger] crc32c_spec(s + y1) == t implies x1 == y1 by {
        lemma_crc32c_four_byte_suffix(s, x1);
        lemma_crc32c_four_byte_suffix(s, y1);
        let wx = le_word(x1[0], x1[1], x1[2], x1[3]);
        let wy = le_word(y1[0], y1[1], y1[2], y1[3]);
        let px = shift8_n(r ^ wx, 4);
        let py = shift8_n(r ^ wy, 4);
        lemma_xor_facts(px, py, init);
        lemma_shift8_n_xor(r ^ wx, r ^ wy, 4);
        let dlt = (r ^ wx) ^ (r ^ wy);
        if dlt != 0 {
            lemma_shift8_n_nonzero(dlt, 4);
        }
        lemma_xor_facts(wx, wy, r);
        let (a0, a1, a2, a3) = (x1[0], x1[1], x1[2], x1[3]);
        let (b0, b1, b2, b3) = (y1[0], y1[1], y1[2], y1[3]);
        assert(le_word(a0, a1, a2, a3) == le_word(b0, b1, b2, b3) ==> a0 == b0 && a1 == b1
            && a2 == b2 && a3 == b3) by (bit_vector);
        assert(x1 =~= y1);
    }
}

} // verus!
