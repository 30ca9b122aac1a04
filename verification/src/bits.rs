//! The register update seen one data bit at a time: bit `q` of a byte
//! sequence is bit `q % 8` of byte `q / 8`, the order in which the reflected
//! register consumes them.
use vstd::prelude::*;
use crate::crc_model::{
    bit_step, byte_step, crc_update, lemma_xor_facts, lemma_zero_step_xor, zero_step,
};

verus! {

/// Bit `q` of `data`: bit `q % 8` of byte `q / 8`.
pub open spec fn data_bit(data: Seq<u8>, q: int) -> bool {
    (data[q / 8] >> ((q % 8) as u8)) & 1u8 == 1u8
}

/// The bits of `data` in the order the register consumes them.
pub open spec fn to_bits(data: Seq<u8>) -> Seq<bool> {
    Seq::new(data.len() * 8, |q: int| data_bit(data, q))
}

/// The bits of one byte, lowest first.
pub open spec fn byte_bits(b: u8) -> Seq<bool> {
    Seq::new(8, |k: int| (b >> (k as u8)) & 1u8 == 1u8)
}

/// A bit as a register value.
pub open spec fn bit_value(b: bool) -> u32 {
    if b {
        1u32
    } else {
        0u32
    }
}

/// The register update over a sequence of data bits.
pub open spec fn feed_bits(crc: u32, bits: Seq<bool>) -> u32
    decreases bits.len(),
{
    if bits.len() == 0 {
        crc
    } else {
        bit_step(feed_bits(crc, bits.drop_last()), bit_value(bits.last()))
    }
}

/// `n` zero-data register steps.
pub open spec fn zero_steps(crc: u32, n: nat) -> u32
    decreases n,
{
    if n == 0 {
        crc
    } else {
        zero_step(zero_steps(crc, (n - 1) as nat))
    }
}

/// The bits of `w` as a word, `w[i]` at bit `i`.
pub open spec fn bits_word(w: Seq<bool>) -> u32
    decreases w.len(),
{
    if w.len() == 0 {
        0u32
    } else {
        bits_word(w.drop_last()) | (if w.last() {
            1u32 << ((w.len() - 1) as u32)
        } else {
            0u32
        })
    }
}

proof fn lemma_feed_bits_push(crc: u32, bits: Seq<bool>, b: bool)
    ensures
        feed_bits(crc, bits.push(b)) == bit_step(feed_bits(crc, bits), bit_value(b)),
{
    assert(bits.push(b).drop_last() =~= bits);
}

/// Feeding `a + b` continues from the register that feeding `a` leaves.
pub proof fn lemma_feed_bits_concat(crc: u32, a: Seq<bool>, b: Seq<bool>)
    ensures
        feed_bits(crc, a + b) == feed_bits(feed_bits(crc, a), b),
    decreases b.len(),
{
    if b.len() == 0 {
        assert(a + b =~= a);
    } else {
        lemma_feed_bits_concat(crc, a, b.drop_last());
        assert((a + b).drop_last() =~= a + b.drop_last());
        assert((a + b).last() == b.last());
    }
}

/// A byte step is eight bit steps over the bits of the byte.
pub proof fn lemma_byte_step_bits(crc: u32, b: u8)
    ensures
        byte_step(crc, b) == feed_bits(crc, byte_bits(b)),
{
    let e = Seq::<bool>::empty();
    let s1 = e.push((b >> 0u8) & 1u8 == 1u8);
    let s2 = s1.push((b >> 1u8) & 1u8 == 1u8);
    let s3 = s2.push((b >> 2u8) & 1u8 == 1u8);
    let s4 = s3.push((b >> 3u8) & 1u8 == 1u8);
    let s5 = s4.push((b >> 4u8) & 1u8 == 1u8);
    let s6 = s5.push((b >> 5u8) & 1u8 == 1u8);
    let s7 = s6.push((b >> 6u8) & 1u8 == 1u8);
    let s8 = s7.push((b >> 7u8) & 1u8 == 1u8);
    assert(s8 =~= byte_bits(b));
    lemma_feed_bits_push(crc, e, (b >> 0u8) & 1u8 == 1u8);
    lemma_feed_bits_push(crc, s1, (b >> 1u8) & 1u8 == 1u8);
    lemma_feed_bits_push(crc, s2, (b >> 2u8) & 1u8 == 1u8);
    lemma_feed_bits_push(crc, s3, (b >> 3u8) & 1u8 == 1u8);
    lemma_feed_bits_push(crc, s4, (b >> 4u8) & 1u8 == 1u8);
    lemma_feed_bits_push(crc, s5, (b >> 5u8) & 1u8 == 1u8);
    lemma_feed_bits_push(crc, s6, (b >> 6u8) & 1u8 == 1u8);
    lemma_feed_bits_push(crc, s7, (b >> 7u8) & 1u8 == 1u8);
    let d = b as u32;
    assert(bit_value((b >> 0u8) & 1u8 == 1u8) == d & 1u32 && bit_value((b >> 1u8) & 1u8 == 1u8)
        == (d >> 1u32) & 1u32 && bit_value((b >> 2u8) & 1u8 == 1u8) == (d >> 2u32) & 1u32
        && bit_value((b >> 3u8) & 1u8 == 1u8) == (d >> 3u32) & 1u32 && bit_value(
        (b >> 4u8) & 1u8 == 1u8,
    ) == (d >> 4u32) & 1u32 && bit_value((b >> 5u8) & 1u8 == 1u8) == (d >> 5u32) & 1u32
        && bit_value((b >> 6u8) & 1u8 == 1u8) == (d >> 6u32) & 1u32 && bit_value(
        (b >> 7u8) & 1u8 == 1u8,
    ) == (d >> 7u32) & 1u32) by (bit_vector)
        requires
            d == b as u32,
    ;
}

proof fn lemma_to_bits_push(data: Seq<u8>, b: u8)
    ensures
        to_bits(data.push(b)) =~= to_bits(data) + byte_bits(b),
{
    let n = data.len() as int;
    let lhs = to_bits(data.push(b));
    let rhs = to_bits(data) + byte_bits(b);
    assert forall|q: int| 0 <= q < lhs.len() implies #[trigger] lhs[q] == rhs[q] by {
        if q < 8 * n {
            vstd::arithmetic::div_mod::lemma_fundamental_div_mod(q, 8);
            assert(q / 8 < n);
        } else {
            vstd::arithmetic::div_mod::lemma_fundamental_div_mod_converse(q, 8, n, q - 8 * n);
        }
    }
}

/// Processing bytes is processing their bits in order.
pub proof fn lemma_crc_update_bits(crc: u32, data: Seq<u8>)
    ensures
        crc_update(crc, data) == feed_bits(crc, to_bits(data)),
    decreases data.len(),
{
    if data.len() > 0 {
        let init = data.drop_last();
        lemma_crc_update_bits(crc, init);
        assert(init.push(data.last()) =~= data);
        lemma_to_bits_push(init, data.last());
        lemma_feed_bits_concat(crc, to_bits(init), byte_bits(data.last()));
        lemma_byte_step_bits(feed_bits(crc, to_bits(init)), data.last());
    } else {
        assert(to_bits(data) =~= Seq::<bool>::empty());
    }
}

/// A data bit acts as if exclusive-ored into the register before a zero-data
/// step.
proof fn lemma_bit_step_as_zero_step(x: u32, v: u32)
    requires
        v == 0u32 || v == 1u32,
    ensures
        bit_step(x, v) == zero_step(x ^ v),
{
    assert(bit_step(x, v) == zero_step(x ^ v)) by (bit_vector)
        requires
            v == 0u32 || v == 1u32,
    ;
}

proof fn lemma_zero_steps_xor(a: u32, b: u32, n: nat)
    ensures
        zero_steps(a ^ b, n) == zero_steps(a, n) ^ zero_steps(b, n),
    decreases n,
{
    if n > 0 {
        lemma_zero_steps_xor(a, b, (n - 1) as nat);
        lemma_zero_step_xor(zero_steps(a, (n - 1) as nat), zero_steps(b, (n - 1) as nat));
    }
}

proof fn lemma_zero_steps_succ(c: u32, n: nat)
    ensures
        zero_steps(c, n + 1) == zero_steps(zero_step(c), n),
    decreases n,
{
    if n > 0 {
        lemma_zero_steps_succ(c, (n - 1) as nat);
    } else {
        assert(zero_steps(c, 0) == c);
        assert(zero_steps(zero_step(c), 0) == zero_step(c));
    }
}

/// A single set bit at position `n` reaches the bottom after `n` steps.
proof fn lemma_zero_steps_single_bit(n: nat)
    requires
        n < 32,
    ensures
        zero_steps(1u32 << (n as u32), n) == 1u32,
    decreases n,
{
    if n == 0 {
        assert(1u32 << 0u32 == 1u32) by (bit_vector);
    } else {
        let m = (n - 1) as nat;
        let s = n as u32;
        let t = m as u32;
        assert(zero_step(1u32 << s) == 1u32 << t) by (bit_vector)
            requires
                s == t + 1u32,
                s < 32u32,
        ;
        lemma_zero_steps_succ(1u32 << s, m);
        lemma_zero_steps_single_bit(m);
    }
}

proof fn lemma_zero_steps_zero(n: nat)
    ensures
        zero_steps(0u32, n) == 0u32,
    decreases n,
{
    if n > 0 {
        lemma_zero_steps_zero((n - 1) as nat);
        lemma_zero_step_nonzero();
    }
}

/// Zero-data steps keep a zero register zero and a nonzero one nonzero.
pub proof fn lemma_zero_step_nonzero()
    ensures
        forall|x: u32| #[trigger] zero_step(x) == 0 <==> x == 0,
{
    assert forall|x: u32| #[trigger] zero_step(x) == 0 <==> x == 0 by {
        assert(zero_step(x) == 0 <==> x == 0) by (bit_vector);
    }
}

proof fn lemma_zero_steps_nonzero(c: u32, n: nat)
    requires
        c != 0,
    ensures
        zero_steps(c, n) != 0,
    decreases n,
{
    if n > 0 {
        lemma_zero_steps_nonzero(c, (n - 1) as nat);
        lemma_zero_step_nonzero();
    }
}

/// The word of a sequence of fewer than 32 bits has no bit at or above its
/// length.
proof fn lemma_bits_word_bound(w: Seq<bool>)
    requires
        w.len() < 32,
    ensures
        bits_word(w) >> (w.len() as u32) == 0u32,
    decreases w.len(),
{
    if w.len() > 0 {
        let prev = w.drop_last();
        lemma_bits_word_bound(prev);
        let bp = bits_word(prev);
        let s = prev.len() as u32;
        let l = if w.last() {
            1u32 << s
        } else {
            0u32
        };
        assert(w.len() as u32 == s + 1u32);
        assert((bp | l) >> (s + 1u32) == 0u32) by (bit_vector)
            requires
                bp >> s == 0u32,
                s < 31u32,
                l == 0u32 || l == 1u32 << s,
        ;
    } else {
        assert(0u32 >> 0u32 == 0u32) by (bit_vector);
    }
}

/// A sequence of at most 32 bits with a set bit has a nonzero word.
proof fn lemma_bits_word_nonzero(w: Seq<bool>, i: int)
    requires
        w.len() <= 32,
        0 <= i < w.len(),
        w[i],
    ensures
        bits_word(w) != 0u32,
    decreases w.len(),
{
    let prev = w.drop_last();
    let bp = bits_word(prev);
    let s = prev.len() as u32;
    let l = if w.last() {
        1u32 << s
    } else {
        0u32
    };
    assert(s < 32u32);
    if i == w.len() - 1 {
        assert(bp | (1u32 << s) != 0u32) by (bit_vector)
            requires
                s < 32u32,
        ;
    } else {
        lemma_bits_word_nonzero(prev, i);
        assert(bp != 0u32 ==> bp | l != 0u32) by (bit_vector);
    }
}

/// Feeding at most 32 bits is folding their word into the register and then
/// taking as many zero-data steps.
pub proof fn lemma_feed_bits_window(c: u32, w: Seq<bool>)
    requires
        w.len() <= 32,
    ensures
        feed_bits(c, w) == zero_steps(c ^ bits_word(w), w.len()),
    decreases w.len(),
{
    if w.len() == 0 {
        lemma_xor_facts(c, 0, 0);
    } else {
        let prev = w.drop_last();
        let m = prev.len();
        lemma_feed_bits_window(c, prev);
        lemma_bits_word_bound(prev);
        let bp = bits_word(prev);
        let s = m as u32;
        let l = if w.last() {
            1u32 << s
        } else {
            0u32
        };
        let v = bit_value(w.last());
        assert(s < 32u32);
        assert(bp | l == bp ^ l) by (bit_vector)
            requires
                s < 32u32,
                bp >> s == 0u32,
                l == 0u32 || l == 1u32 << s,
        ;
        lemma_xor_facts(c, bp, l);
        lemma_zero_steps_xor(c ^ bp, l, m + 1);
        if w.last() {
            lemma_zero_steps_single_bit(m);
        } else {
            lemma_zero_steps_zero(m);
        }
        assert(zero_steps(l, m) == v);
        let x = zero_steps(c ^ bp, m);
        lemma_zero_step_xor(x, v);
        lemma_bit_step_as_zero_step(x, v);
    }
}

/// Zero bits keep a zero register zero and a nonzero register nonzero.
pub proof fn lemma_feed_zero_bits(c: u32, bits: Seq<bool>)
    requires
        forall|k: int| 0 <= k < bits.len() ==> !bits[k],
    ensures
        (feed_bits(c, bits) == 0) == (c == 0),
    decreases bits.len(),
{
    if bits.len() > 0 {
        lemma_feed_zero_bits(c, bits.drop_last());
        let r = feed_bits(c, bits.drop_last());
        lemma_bit_step_as_zero_step(r, 0u32);
        lemma_xor_facts(r, 0, 0);
        lemma_zero_step_nonzero();
    }
}

/// Feeding a burst of at most 32 bits that holds a set bit into a zero
/// register leaves it nonzero.
pub proof fn lemma_feed_window_nonzero(w: Seq<bool>, i: int)
    requires
        w.len() <= 32,
        0 <= i < w.len(),
        w[i],
    ensures
        feed_bits(0u32, w) != 0u32,
{
    lemma_feed_bits_window(0u32, w);
    lemma_bits_word_nonzero(w, i);
    let bw = bits_word(w);
    lemma_xor_facts(bw, 0, 0);
    lemma_zero_steps_nonzero(0u32 ^ bw, w.len());
}

} // verus!
