//! Bit strings: the mathematical model behind every writer in this crate.
//!
//! A bit stream is a `Seq<bool>`, most significant bit first. Numbers are
//! related to their bits through `bit_of`, which is plain arithmetic on
//! naturals; the lemmas at the end of the file tie that arithmetic to the
//! shifts and masks that the executable code uses.

use vstd::arithmetic::div_mod::{lemma_div_denominator, lemma_small_mod};
use vstd::arithmetic::power2::{lemma2_to64, lemma_pow2_pos, lemma_pow2_unfold, pow2};
use vstd::bits::{lemma_u16_shr_is_div, lemma_u8_shr_is_div};
use vstd::prelude::*;

verus! {

/// Bit `i` of `v`, where bit 0 is the least significant one.
pub open spec fn bit_of(v: nat, i: nat) -> bool {
    (v / pow2(i)) % 2 == 1
}

/// The `n` low bits of `v`, most significant first.
pub open spec fn low_bits(v: nat, n: nat) -> Seq<bool> {
    Seq::new(n, |i: int| bit_of(v, (n - 1 - i) as nat))
}

/// The bits of a byte string, each byte most significant bit first.
pub open spec fn bytes_bits(s: Seq<u8>) -> Seq<bool> {
    Seq::new(8 * s.len(), |i: int| bit_of(s[i / 8] as nat, (7 - i % 8) as nat))
}

/// `n` zero bits.
pub open spec fn zeros(n: nat) -> Seq<bool> {
    Seq::new(n, |i: int| false)
}

/// `n` one bits.
pub open spec fn ones(n: nat) -> Seq<bool> {
    Seq::new(n, |i: int| true)
}

/// The sum of two bit strings of one length, bit by bit and without carry.
pub open spec fn xor_bits(a: Seq<bool>, b: Seq<bool>) -> Seq<bool> {
    Seq::new(a.len(), |i: int| a[i] != b[i])
}

/// The number that a bit string spells, most significant bit first.
pub open spec fn bits_value(bits: Seq<bool>) -> nat
    decreases bits.len(),
{
    if bits.len() == 0 {
        0
    } else {
        2 * bits_value(bits.drop_last()) + if bits.last() {
            1nat
        } else {
            0nat
        }
    }
}

/// How many zero bits bring a stream of `len` bits to a byte boundary.
pub open spec fn padding_len(len: nat) -> nat {
    ((8 - len % 8) % 8) as nat
}

/// A bit string cut into bytes, the last byte filled up with zero bits on
/// its low side.
pub open spec fn pack(bits: Seq<bool>) -> Seq<u8> {
    let padded = bits + zeros(padding_len(bits.len()));
    Seq::new(padded.len() / 8, |i: int| bits_value(padded.subrange(8 * i, 8 * i + 8)) as u8)
}

/// The two's complement image of a signed 32-bit number.
pub open spec fn twos32(v: int) -> nat {
    if v >= 0 {
        v as nat
    } else {
        (v + 0x1_0000_0000) as nat
    }
}

/// The signed number that a two's complement bit string spells.
pub open spec fn signed_value(bits: Seq<bool>) -> int {
    if bits.len() > 0 && bits[0] {
        bits_value(bits) - pow2(bits.len())
    } else {
        bits_value(bits) as int
    }
}

/// Bits above the width of a number are zero.
pub proof fn lemma_bit_of_small(v: nat, i: nat)
    requires
        v < pow2(i),
    ensures
        !bit_of(v, i),
{
    lemma_pow2_pos(i);
    vstd::arithmetic::div_mod::lemma_basic_div(v as int, pow2(i) as int);
}

/// Halving a number moves every bit one place down.
pub proof fn lemma_bit_of_half(v: nat, i: nat)
    ensures
        bit_of(v / 2, i) == bit_of(v, i + 1),
{
    lemma_pow2_pos(i);
    lemma_pow2_unfold(i + 1);
    lemma_div_denominator(v as int, 2, pow2(i) as int);
}

/// Dividing by a power of two moves every bit that many places down.
pub proof fn lemma_bit_of_shifted(v: nat, k: nat, i: nat)
    ensures
        bit_of(v / pow2(k), i) == bit_of(v, i + k),
{
    lemma_pow2_pos(i);
    lemma_pow2_pos(k);
    vstd::arithmetic::power2::lemma_pow2_adds(k, i);
    lemma_div_denominator(v as int, pow2(k) as int, pow2(i) as int);
}

/// The low bits of a number spell the number modulo the matching power of
/// two.
pub proof fn lemma_low_bits_value(v: nat, n: nat)
    ensures
        bits_value(low_bits(v, n)) == v % pow2(n),
    decreases n,
{
    lemma2_to64();
    if n == 0 {
        assert(low_bits(v, 0).len() == 0);
    } else {
        let s = low_bits(v, n);
        let m = (n - 1) as nat;
        assert(s.drop_last() =~= low_bits(v / 2, m)) by {
            assert forall|i: int| 0 <= i < m implies s.drop_last()[i] == low_bits(v / 2, m)[i] by {
                lemma_bit_of_half(v, (m - 1 - i) as nat);
            }
        }
        lemma_low_bits_value(v / 2, m);
        assert(s.last() == bit_of(v, 0));
        assert(pow2(0) == 1);
        assert(v / 1 == v);
        lemma_pow2_unfold(n);
        lemma_pow2_pos(m);
        vstd::arithmetic::div_mod::lemma_mod_breakdown(v as int, 2, pow2(m) as int);
    }
}

/// A bit string spells a number below two to its length.
pub proof fn lemma_bits_value_bound(bits: Seq<bool>)
    ensures
        bits_value(bits) < pow2(bits.len()),
    decreases bits.len(),
{
    lemma2_to64();
    if bits.len() > 0 {
        lemma_bits_value_bound(bits.drop_last());
        lemma_pow2_unfold(bits.len());
    }
}

/// Two bit strings of one length that spell one number are equal.
pub proof fn lemma_bits_value_injective(a: Seq<bool>, b: Seq<bool>)
    requires
        a.len() == b.len(),
        bits_value(a) == bits_value(b),
    ensures
        a == b,
    decreases a.len(),
{
    if a.len() > 0 {
        lemma_bits_value_injective(a.drop_last(), b.drop_last());
        assert(a =~= a.drop_last().push(a.last()));
        assert(b =~= b.drop_last().push(b.last()));
    } else {
        assert(a =~= b);
    }
}

/// Reading the bits of a byte string back gives the byte string.
pub proof fn lemma_pack_bytes_bits(s: Seq<u8>)
    ensures
        pack(bytes_bits(s)) == s,
{
    lemma_pack_after_bytes(s, Seq::empty());
    assert(bytes_bits(s) + Seq::<bool>::empty() =~= bytes_bits(s));
    assert(pack(Seq::<bool>::empty()) =~= Seq::<u8>::empty());
    assert(s + Seq::<u8>::empty() =~= s);
}

/// Whole bytes at the front of a bit string pass through `pack` unchanged.
pub proof fn lemma_pack_after_bytes(s: Seq<u8>, tail: Seq<bool>)
    ensures
        pack(bytes_bits(s) + tail) == s + pack(tail),
{
    let all = bytes_bits(s) + tail;
    let pad = zeros(padding_len(tail.len()));
    assert(padding_len(all.len()) == padding_len(tail.len()));
    let padded = all + pad;
    let tail_padded = tail + pad;
    let left = pack(all);
    let right = s + pack(tail);
    assert(left.len() == right.len());
    assert forall|i: int| 0 <= i < left.len() implies left[i] == right[i] by {
        let chunk = padded.subrange(8 * i, 8 * i + 8);
        if i < s.len() {
            assert(chunk =~= low_bits(s[i] as nat, 8));
            lemma_low_bits_value(s[i] as nat, 8);
            lemma2_to64();
            lemma_small_mod(s[i] as nat, 256);
        } else {
            let k = i - s.len();
            assert(chunk =~= tail_padded.subrange(8 * k, 8 * k + 8));
        }
    }
    assert(left =~= right);
}

/// The bits of a concatenation are the concatenation of the bits.
pub proof fn lemma_bytes_bits_concat(a: Seq<u8>, b: Seq<u8>)
    ensures
        bytes_bits(a + b) == bytes_bits(a) + bytes_bits(b),
{
    assert(bytes_bits(a + b) =~= bytes_bits(a) + bytes_bits(b));
}

/// `pack` of a byte-aligned bit string loses nothing: its bits are the
/// string again.
pub proof fn lemma_bytes_bits_pack(bits: Seq<bool>)
    requires
        bits.len() % 8 == 0,
    ensures
        bytes_bits(pack(bits)) == bits,
{
    let p = pack(bits);
    assert(bits + zeros(0) =~= bits);
    assert forall|i: int| 0 <= i < bits.len() implies bytes_bits(p)[i] == bits[i] by {
        let k = i / 8;
        let chunk = bits.subrange(8 * k, 8 * k + 8);
        lemma_bits_value_bound(chunk);
        lemma2_to64();
        let v = bits_value(chunk);
        assert(p[k] == v as u8);
        lemma_low_bits_value(v, 8);
        lemma_small_mod(v, 256);
        lemma_bits_value_injective(low_bits(v, 8), chunk);
        assert(low_bits(v, 8)[i % 8] == chunk[i % 8]);
    }
    assert(bytes_bits(p) =~= bits);
}

/// Only the part of a number below two to the `m` decides its `m` low bits.
pub proof fn lemma_bit_of_mod(v: nat, m: nat, i: nat)
    requires
        i < m,
    ensures
        bit_of(v % pow2(m), i) == bit_of(v, i),
{
    lemma_pow2_pos(m);
    let r = v % pow2(m);
    lemma_low_bits_value(r, m);
    lemma_low_bits_value(v, m);
    vstd::arithmetic::div_mod::lemma_mod_twice(v as int, pow2(m) as int);
    lemma_bits_value_injective(low_bits(r, m), low_bits(v, m));
    assert(low_bits(r, m)[m - 1 - i] == low_bits(v, m)[m - 1 - i]);
}

/// Only the part of a number below two to the `m` decides its `n` low bits,
/// for `n` up to `m`.
pub proof fn lemma_low_bits_mod(v: nat, m: nat, n: nat)
    requires
        n <= m,
    ensures
        low_bits(v % pow2(m), n) == low_bits(v, n),
{
    assert forall|i: int| 0 <= i < n implies low_bits(v % pow2(m), n)[i] == low_bits(v, n)[i] by {
        lemma_bit_of_mod(v, m, (n - 1 - i) as nat);
    }
    assert(low_bits(v % pow2(m), n) =~= low_bits(v, n));
}

/// The `a + b` low bits of a number are the `a` bits above its `b` lowest
/// ones, and then those `b`.
pub proof fn lemma_low_bits_split(v: nat, a: nat, b: nat)
    ensures
        low_bits(v, a + b) == low_bits(v / pow2(b), a) + low_bits(v, b),
{
    let whole = low_bits(v, a + b);
    let parts = low_bits(v / pow2(b), a) + low_bits(v, b);
    assert forall|i: int| 0 <= i < a + b implies whole[i] == parts[i] by {
        if i < a {
            lemma_bit_of_shifted(v, b, (a - 1 - i) as nat);
        }
    }
    assert(whole =~= parts);
}

/// Zero has zero bits only.
pub proof fn lemma_low_bits_zero(n: nat)
    ensures
        low_bits(0, n) == zeros(n),
{
    assert forall|i: int| 0 <= i < n implies low_bits(0, n)[i] == false by {
        lemma_pow2_pos((n - 1 - i) as nat);
        lemma_bit_of_small(0, (n - 1 - i) as nat);
    }
    assert(low_bits(0, n) =~= zeros(n));
}

/// The `n` low bytes of `v`, the highest first.
pub open spec fn be_bytes(v: nat, n: nat) -> Seq<u8> {
    Seq::new(n, |i: int| ((v / pow2((8 * (n - 1 - i)) as nat)) % 256) as u8)
}

/// The bits of the `n` low bytes of a number are its `8 * n` low bits.
pub proof fn lemma_be_bytes_bits(v: nat, n: nat)
    ensures
        bytes_bits(be_bytes(v, n)) == low_bits(v, 8 * n),
{
    let bytes = be_bytes(v, n);
    lemma2_to64();
    assert forall|i: int| 0 <= i < 8 * n implies bytes_bits(bytes)[i] == low_bits(v, 8 * n)[i] by {
        let k = i / 8;
        let j = (7 - i % 8) as nat;
        let shift = (8 * (n - 1 - k)) as nat;
        lemma_bit_of_mod(v / pow2(shift), 8, j);
        lemma_bit_of_shifted(v, shift, j);
    }
    assert(bytes_bits(bytes) =~= low_bits(v, 8 * n));
}

/// A shift to the right and a mask read one bit of a byte.
pub proof fn lemma_bit_of_u8(x: u8, j: u8)
    requires
        j < 8,
    ensures
        bit_of(x as nat, j as nat) == ((x >> j) & 1 == 1),
{
    lemma_u8_shr_is_div(x, j);
    let y = x >> j;
    assert((y & 1 == 1) == (y % 2 == 1)) by (bit_vector);
}

/// A shift to the right and a mask read one bit of a 16-bit word.
pub proof fn lemma_bit_of_u16(x: u16, j: u16)
    requires
        j < 16,
    ensures
        bit_of(x as nat, j as nat) == ((x >> j) & 1 == 1),
{
    lemma_u16_shr_is_div(x, j);
    let y = x >> j;
    assert((y & 1 == 1) == (y % 2 == 1)) by (bit_vector);
}

/// The two bytes of a 16-bit word, the high one first.
pub open spec fn be16(word: u16) -> Seq<u8> {
    seq![(word / 256) as u8, (word % 256) as u8]
}

/// The bits of the two bytes of a word are the sixteen bits of the word.
pub proof fn lemma_bytes_bits_be16(word: u16)
    ensures
        bytes_bits(be16(word)) == low_bits(word as nat, 16),
{
    lemma2_to64();
    lemma_low_bits_split(word as nat, 8, 8);
    lemma_low_bits_mod(word as nat, 8, 8);
    let high = (word / 256) as u8;
    let low = (word % 256) as u8;
    assert(bytes_bits(be16(word)) =~= low_bits(high as nat, 8) + low_bits(low as nat, 8));
}

/// A shift and a mask take a 16-bit word apart into its two bytes.
pub proof fn lemma_be16_split(word: u16)
    by (bit_vector)
    ensures
        ((word >> 8) as u8) == word / 256,
        ((word & 0xFF) as u8) == word % 256,
{
}

} // verus!
