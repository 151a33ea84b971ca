//! Bit windows over byte strings, and the two checksums computed from them.

use crate::bits::{
    be16, bytes_bits, lemma_bit_of_u16, lemma_bit_of_u8, lemma_bytes_bits_be16,
    lemma_low_bits_value, low_bits, xor_bits, zeros,
};
use vstd::arithmetic::power2::lemma2_to64;
use vstd::prelude::*;

verus! {

/// The windows of eight bits over a byte string, one for each bit offset:
/// the first window is the first byte, the last window is the last byte.
///
/// The byte string comes in two parts, `head` and then `tail`, so that a
/// message and its padding need not be copied together.
pub struct BitIterator<'a> {
    head: &'a [u8],
    tail: &'a [u8],
    head_pos: usize,
    tail_pos: usize,
    first: Option<u8>,
    last: Option<u8>,
    bit: u8,
}

proof fn lemma_window(first: u8, last: u8, bit: u8, j: u8)
    by (bit_vector)
    requires
        0 < bit < 8,
        j < 8,
    ensures
        ((((first << bit) | (last >> (8 - bit) as u8)) >> j) & 1 == 1) == (if j >= bit {
            (first >> (j - bit) as u8) & 1 == 1
        } else {
            (last >> (j + 8 - bit) as u8) & 1 == 1
        }),
{
}

impl<'a> BitIterator<'a> {
    /// The byte string that the windows lie over.
    pub closed spec fn stream(&self) -> Seq<u8> {
        self.head@ + self.tail@
    }

    spec fn fetched(&self) -> int {
        self.head_pos + self.tail_pos
    }

    spec fn at(&self) -> int {
        if self.last is Some {
            self.fetched() - 2
        } else if self.first is Some {
            self.fetched() - 1
        } else {
            self.fetched()
        }
    }

    /// The bit offset of the next window.
    pub closed spec fn offset(&self) -> nat {
        (8 * self.at() + self.bit) as nat
    }

    #[verifier::type_invariant]
    closed spec fn inv(&self) -> bool {
        let s = self.stream();
        let q = self.at();
        &&& self.head_pos <= self.head@.len()
        &&& self.tail_pos <= self.tail@.len()
        &&& self.tail_pos > 0 ==> self.head_pos == self.head@.len()
        &&& self.bit < 8
        &&& 0 <= q
        &&& self.first == if q < s.len() {
            Some(s[q])
        } else {
            None
        }
        &&& self.last == if q + 1 < s.len() {
            Some(s[q + 1])
        } else {
            None
        }
        &&& self.fetched() == if q + 2 <= s.len() {
            q + 2
        } else {
            s.len() as int
        }
        &&& self.last is None ==> self.bit <= 1
        &&& self.first is None ==> self.bit == 0
    }

    fn fetch(
        head: &'a [u8],
        tail: &'a [u8],
        head_pos: usize,
        tail_pos: usize,
    ) -> (out: (Option<u8>, usize, usize))
        requires
            head_pos <= head@.len(),
            tail_pos <= tail@.len(),
            tail_pos > 0 ==> head_pos == head@.len(),
        ensures
            out.1 <= head@.len(),
            out.2 <= tail@.len(),
            out.2 > 0 ==> out.1 == head@.len(),
            head_pos + tail_pos < (head@ + tail@).len() ==> out.0 == Some(
                (head@ + tail@)[head_pos + tail_pos],
            ) && out.1 + out.2 == head_pos + tail_pos + 1,
            head_pos + tail_pos >= (head@ + tail@).len() ==> out.0 is None && out.1 == head_pos
                && out.2 == tail_pos,
    {
        if head_pos < head.len() {
            (Some(head[head_pos]), head_pos + 1, tail_pos)
        } else if tail_pos < tail.len() {
            (Some(tail[tail_pos]), head_pos, tail_pos + 1)
        } else {
            (None, head_pos, tail_pos)
        }
    }

    /// The windows over `bytes`.
    pub fn new(bytes: &'a [u8]) -> (it: Self)
        ensures
            it.stream() == bytes@,
            it.offset() == 0,
    {
        let it = Self::chained(bytes, vstd::slice::slice_subrange(bytes, 0, 0));
        assert(bytes@ + bytes@.subrange(0, 0) =~= bytes@);
        it
    }

    /// The windows over `head` followed by `tail`.
    pub fn chained(head: &'a [u8], tail: &'a [u8]) -> (it: Self)
        ensures
            it.stream() == head@ + tail@,
            it.offset() == 0,
    {
        let (first, head_pos, tail_pos) = Self::fetch(head, tail, 0, 0);
        let (last, head_pos, tail_pos) = Self::fetch(head, tail, head_pos, tail_pos);
        Self { head, tail, head_pos, tail_pos, first, last, bit: 0 }
    }

    /// The next window, if the byte string has eight more bits from the
    /// offset on.
    pub fn next(&mut self) -> (window: Option<u8>)
        ensures
            final(self).stream() == old(self).stream(),
            match window {
                Some(w) => {
                    &&& old(self).offset() + 8 <= 8 * old(self).stream().len()
                    &&& low_bits(w as nat, 8) == bytes_bits(old(self).stream()).subrange(
                        old(self).offset() as int,
                        old(self).offset() as int + 8,
                    )
                    &&& final(self).offset() == old(self).offset() + 1
                },
                None => {
                    &&& old(self).offset() + 8 > 8 * old(self).stream().len()
                    &&& final(self).offset() == old(self).offset()
                },
            },
    {
        proof {
            use_type_invariant(&*self);
        }
        let ghost s = self.stream();
        let ghost off = self.offset();
        let first = match self.first {
            Some(first) => first,
            None => {
                return None;
            },
        };
        let ret = if self.bit == 0 {
            proof {
                assert(low_bits(first as nat, 8) =~= bytes_bits(s).subrange(
                    off as int,
                    off as int + 8,
                ));
            }
            first
        } else {
            let last = match self.last {
                Some(last) => last,
                None => {
                    return None;
                },
            };
            let ret = first << self.bit | last >> (8 - self.bit);
            proof {
                let want = bytes_bits(s).subrange(off as int, off as int + 8);
                assert forall|i: int| 0 <= i < 8 implies low_bits(ret as nat, 8)[i] == want[i] by {
                    let j = (7 - i) as u8;
                    lemma_window(first, last, self.bit, j);
                    lemma_bit_of_u8(ret, j);
                    if j >= self.bit {
                        lemma_bit_of_u8(first, (j - self.bit) as u8);
                    } else {
                        lemma_bit_of_u8(last, (j + 8 - self.bit) as u8);
                    }
                }
                assert(low_bits(ret as nat, 8) =~= want);
            }
            ret
        };
        if self.bit == 7 {
            let (last, head_pos, tail_pos) = Self::fetch(
                self.head,
                self.tail,
                self.head_pos,
                self.tail_pos,
            );
            *self = Self {
                head: self.head,
                tail: self.tail,
                head_pos,
                tail_pos,
                first: self.last,
                last,
                bit: 0,
            };
        } else {
            self.bit += 1;
        }
        Some(ret)
    }
}

/// Byte strings that windows of eight bits can be taken over.
pub trait BitIter: View<V = Seq<u8>> {
    /// The windows over the bytes.
    fn bit_iter<'a>(&'a self) -> (it: BitIterator<'a>)
        ensures
            it.stream() == self@,
            it.offset() == 0,
    ;
}

impl BitIter for [u8] {
    fn bit_iter<'a>(&'a self) -> (it: BitIterator<'a>) {
        BitIterator::new(self)
    }
}

/// One turn of an eight-bit shift register: the register moves one place
/// up, `bit` comes in at the bottom, and the polynomial is added if a one
/// went out at the top.
pub open spec fn crc8_step(rem: u8, bit: bool, poly: u8) -> u8 {
    let shifted = (rem << 1) | if bit {
        1u8
    } else {
        0u8
    };
    if rem & 0x80 == 0x80 {
        shifted ^ poly
    } else {
        shifted
    }
}

/// The register after `bits` have come in, one turn for each.
pub open spec fn crc8_shift(rem: u8, bits: Seq<bool>, poly: u8) -> u8
    decreases bits.len(),
{
    if bits.len() == 0 {
        rem
    } else {
        crc8_step(crc8_shift(rem, bits.drop_last(), poly), bits.last(), poly)
    }
}

/// The remainder of `bytes` followed by the byte `pad`: the register starts
/// with the first byte, and every later bit comes in.
pub open spec fn crc8(bytes: Seq<u8>, poly: u8, pad: u8) -> u8 {
    let stream = bytes.push(pad);
    crc8_shift(stream[0], bytes_bits(stream).skip(8), poly)
}

/// Bits that come in one after the other can come in in two runs.
pub proof fn lemma_crc8_shift_concat(rem: u8, a: Seq<bool>, b: Seq<bool>, poly: u8)
    ensures
        crc8_shift(rem, a + b, poly) == crc8_shift(crc8_shift(rem, a, poly), b, poly),
    decreases b.len(),
{
    if b.len() == 0 {
        assert(a + b =~= a);
    } else {
        assert((a + b).drop_last() =~= a + b.drop_last());
        lemma_crc8_shift_concat(rem, a, b.drop_last(), poly);
    }
}

proof fn lemma_crc8_step_linear(r1: u8, r2: u8, b1: bool, b2: bool, poly: u8)
    by (bit_vector)
    ensures
        crc8_step(r1 ^ r2, b1 != b2, poly) == crc8_step(r1, b1, poly) ^ crc8_step(r2, b2, poly),
{
}

proof fn lemma_crc8_step_quiet(byte: u8, k: u8, poly: u8)
    by (bit_vector)
    requires
        k < 8,
    ensures
        crc8_step(
            if k == 0 {
                0u8
            } else {
                byte >> (8 - k) as u8
            },
            (byte >> (7 - k) as u8) & 1 == 1,
            poly,
        ) == byte >> (7 - k) as u8,
        byte >> 0 == byte,
        byte ^ byte == 0,
        byte ^ 0 == byte,
{
}

/// The register is linear in what it holds and what comes in: a register
/// that starts with `r1 ^ r2` and takes the bitwise sum of two runs ends
/// with the sum of what `r1` makes of the one run and `r2` of the other.
pub proof fn lemma_crc8_shift_linear(r1: u8, r2: u8, s1: Seq<bool>, s2: Seq<bool>, poly: u8)
    requires
        s1.len() == s2.len(),
    ensures
        crc8_shift(r1 ^ r2, xor_bits(s1, s2), poly) == crc8_shift(r1, s1, poly) ^ crc8_shift(
            r2,
            s2,
            poly,
        ),
    decreases s1.len(),
{
    if s1.len() > 0 {
        assert(xor_bits(s1, s2).drop_last() =~= xor_bits(s1.drop_last(), s2.drop_last()));
        lemma_crc8_shift_linear(r1, r2, s1.drop_last(), s2.drop_last(), poly);
        lemma_crc8_step_linear(
            crc8_shift(r1, s1.drop_last(), poly),
            crc8_shift(r2, s2.drop_last(), poly),
            s1.last(),
            s2.last(),
            poly,
        );
    }
}

/// The first `k` of eight bits that come into an empty register are the top
/// `k` bits of the byte, whatever the polynomial.
proof fn lemma_crc8_shift_prefix(byte: u8, k: nat, poly: u8)
    requires
        k <= 8,
    ensures
        crc8_shift(0, low_bits(byte as nat, 8).take(k as int), poly) == if k == 0 {
            0u8
        } else {
            byte >> (8 - k) as u8
        },
    decreases k,
{
    let s = low_bits(byte as nat, 8);
    if k > 0 {
        let m = (k - 1) as nat;
        lemma_crc8_shift_prefix(byte, m, poly);
        assert(s.take(k as int).drop_last() =~= s.take(m as int));
        lemma_bit_of_u8(byte, (7 - m) as u8);
        lemma_crc8_step_quiet(byte, m as u8, poly);
    }
}

/// Eight bits that come into a register add the byte that they spell to
/// what eight zero bits would have left.
pub proof fn lemma_crc8_shift_byte(rem: u8, byte: u8, poly: u8)
    ensures
        crc8_shift(rem, low_bits(byte as nat, 8), poly) == crc8_shift(rem, zeros(8), poly) ^ byte,
        crc8_shift(0, low_bits(byte as nat, 8), poly) == byte,
{
    let s = low_bits(byte as nat, 8);
    lemma_crc8_shift_prefix(byte, 8, poly);
    assert(s.take(8) =~= s);
    lemma_crc8_step_quiet(byte, 0, poly);
    lemma_crc8_step_quiet(rem, 0, poly);
    lemma_crc8_shift_linear(rem, 0, zeros(8), s, poly);
    assert(xor_bits(zeros(8), s) =~= s);
}

/// The remainder is what the register holds after all bytes and the pad
/// have come into an empty register.
pub proof fn lemma_crc8_from_zero(bytes: Seq<u8>, poly: u8, pad: u8)
    ensures
        crc8(bytes, poly, pad) == crc8_shift(
            crc8_shift(0, bytes_bits(bytes), poly),
            low_bits(pad as nat, 8),
            poly,
        ),
{
    let stream = bytes.push(pad);
    let all = bytes_bits(stream);
    let head = low_bits(stream[0] as nat, 8);
    assert(all =~= head + all.skip(8));
    lemma_crc8_shift_concat(0, head, all.skip(8), poly);
    lemma_crc8_shift_byte(0, stream[0], poly);
    assert(crc8_shift(0, all, poly) == crc8(bytes, poly, pad));
    assert(all =~= bytes_bits(bytes) + low_bits(pad as nat, 8));
    lemma_crc8_shift_concat(0, bytes_bits(bytes), low_bits(pad as nat, 8), poly);
}

/// A message followed by its remainder has the remainder zero, whatever the
/// polynomial: with the remainder as the pad, and with the remainder as the
/// last byte before a zero pad.
pub proof fn lemma_crc8_self_check(bytes: Seq<u8>, poly: u8)
    ensures
        crc8(bytes, poly, crc8(bytes, poly, 0)) == 0,
        crc8(bytes.push(crc8(bytes, poly, 0)), poly, 0) == 0,
{
    let check = crc8(bytes, poly, 0);
    let reg = crc8_shift(0, bytes_bits(bytes), poly);
    lemma_crc8_from_zero(bytes, poly, 0);
    lemma_crc8_from_zero(bytes, poly, check);
    crate::bits::lemma_low_bits_zero(8);
    lemma_crc8_shift_byte(reg, check, poly);
    lemma_crc8_step_quiet(check, 0, poly);
    assert(crc8(bytes, poly, check) == 0);
    let longer = bytes.push(check);
    lemma_crc8_from_zero(longer, poly, 0);
    assert(bytes_bits(longer) =~= bytes_bits(bytes) + low_bits(check as nat, 8));
    lemma_crc8_shift_concat(0, bytes_bits(bytes), low_bits(check as nat, 8), poly);
    lemma_crc8_shift_byte(0, 0, poly);
}

/// The remainder of `bit_stream` followed by the byte `initial`, under the
/// polynomial `crc_polynomial` (its top term left out).
pub fn crc8_remainder(bit_stream: &[u8], crc_polynomial: u8, initial: u8) -> (crc: u8)
    ensures
        crc == crc8(bit_stream@, crc_polynomial, initial),
{
    let right_pad = [initial];
    let mut it = BitIterator::chained(bit_stream, right_pad.as_slice());
    let ghost stream = bit_stream@.push(initial);
    let ghost all = bytes_bits(stream);
    proof {
        assert(right_pad@.len() == 1);
        assert(right_pad@[0] == initial);
        assert(bit_stream@ + right_pad@ =~= stream);
    }
    let start = it.next();
    let mut res = start.unwrap();
    proof {
        assert(all.subrange(0, 8) =~= low_bits(stream[0] as nat, 8));
        lemma_bits_of_byte_unique(res, stream[0]);
        assert(all.skip(8).take(0) =~= Seq::<bool>::empty());
    }
    let mut window = it.next();
    while window.is_some()
        invariant
            it.stream() == stream,
            all == bytes_bits(stream),
            stream.len() >= 1,
            1 <= it.offset() <= 8 * stream.len() - 7,
            window is Some ==> it.offset() >= 2,
            window matches Some(w) ==> low_bits(w as nat, 8) == all.subrange(
                it.offset() - 1,
                it.offset() as int + 7,
            ),
            window is None ==> it.offset() + 8 > 8 * stream.len(),
            res == crc8_shift(
                stream[0],
                all.skip(8).take(
                    it.offset() - if window is Some {
                        2int
                    } else {
                        1int
                    },
                ),
                crc_polynomial,
            ),
        decreases
                8 * stream.len() - it.offset() + if window is Some {
                    1int
                } else {
                    0int
                },
    {
        let next = window.unwrap();
        let ghost done = all.skip(8).take(it.offset() - 2);
        let ghost bit = all[it.offset() as int + 6];
        let msb = res & 0b1000_0000;
        let low = next & 1;
        proof {
            lemma_bit_of_u8(next, 0);
            assert(next >> 0 == next) by (bit_vector);
            assert(low_bits(next as nat, 8)[7] == bit);
            assert(low == if bit {
                1u8
            } else {
                0u8
            }) by {
                assert(low == 0 || low == 1) by (bit_vector)
                    requires
                        low == next & 1,
                ;
            }
            assert(all.skip(8).take(it.offset() - 1).drop_last() =~= done);
        }
        res = (res << 1) | low;
        if msb == 0b1000_0000 {
            res ^= crc_polynomial;
        }
        window = it.next();
    }
    proof {
        assert(all.skip(8).take(it.offset() - 1) =~= all.skip(8));
    }
    res
}

proof fn lemma_bits_of_byte_unique(a: u8, b: u8)
    requires
        low_bits(a as nat, 8) == low_bits(b as nat, 8),
    ensures
        a == b,
{
    lemma_low_bits_value(a as nat, 8);
    lemma_low_bits_value(b as nat, 8);
    lemma2_to64();
}

/// The windows of sixteen bits over a byte string, one for each bit offset:
/// the first window is the first two bytes, the last window is the last
/// two.
pub struct BitIterator16<'a> {
    head: &'a [u8],
    tail: &'a [u8],
    head_pos: usize,
    tail_pos: usize,
    first: Option<u8>,
    second: Option<u8>,
    last: Option<u8>,
    bit: u8,
}

proof fn lemma_window16(first: u16, second: u16, last: u16, bit: u8, j: u16)
    by (bit_vector)
    requires
        0 < bit < 8,
        first < 256,
        second < 256,
        last < 256,
        j < 16,
    ensures
        ((((first << (8 + bit) as u16) | (second << bit) | (last >> (8 - bit) as u16)) >> j) & 1
            == 1) == (if j >= 8 + bit {
            (first >> (j - 8 - bit) as u16) & 1 == 1
        } else if j >= bit {
            (second >> (j - bit) as u16) & 1 == 1
        } else {
            (last >> (j + 8 - bit) as u16) & 1 == 1
        }),
{
}

proof fn lemma_window16_aligned(first: u16, second: u16, j: u16)
    by (bit_vector)
    requires
        first < 256,
        second < 256,
        j < 16,
    ensures
        ((((first << 8) | second) >> j) & 1 == 1) == (if j >= 8 {
            (first >> (j - 8) as u16) & 1 == 1
        } else {
            (second >> j) & 1 == 1
        }),
        ((first << 8) | second) == first * 256 + second,
{
}

impl<'a> BitIterator16<'a> {
    /// The byte string that the windows lie over.
    pub closed spec fn stream(&self) -> Seq<u8> {
        self.head@ + self.tail@
    }

    spec fn fetched(&self) -> int {
        self.head_pos + self.tail_pos
    }

    spec fn at(&self) -> int {
        if self.last is Some {
            self.fetched() - 3
        } else if self.second is Some {
            self.fetched() - 2
        } else if self.first is Some {
            self.fetched() - 1
        } else {
            self.fetched()
        }
    }

    /// The bit offset of the next window.
    pub closed spec fn offset(&self) -> nat {
        (8 * self.at() + self.bit) as nat
    }

    #[verifier::type_invariant]
    closed spec fn inv(&self) -> bool {
        let s = self.stream();
        let q = self.at();
        &&& self.head_pos <= self.head@.len()
        &&& self.tail_pos <= self.tail@.len()
        &&& self.tail_pos > 0 ==> self.head_pos == self.head@.len()
        &&& self.bit < 8
        &&& 0 <= q
        &&& self.first == if q < s.len() {
            Some(s[q])
        } else {
            None
        }
        &&& self.second == if q + 1 < s.len() {
            Some(s[q + 1])
        } else {
            None
        }
        &&& self.last == if q + 2 < s.len() {
            Some(s[q + 2])
        } else {
            None
        }
        &&& self.fetched() == if q + 3 <= s.len() {
            q + 3
        } else {
            s.len() as int
        }
        &&& self.last is None ==> self.bit <= 1
        &&& self.second is None ==> self.bit == 0
    }

    /// The windows over `bytes`.
    pub fn new(bytes: &'a [u8]) -> (it: Self)
        ensures
            it.stream() == bytes@,
            it.offset() == 0,
    {
        let it = Self::chained(bytes, vstd::slice::slice_subrange(bytes, 0, 0));
        assert(bytes@ + bytes@.subrange(0, 0) =~= bytes@);
        it
    }

    /// The windows over `head` followed by `tail`.
    pub fn chained(head: &'a [u8], tail: &'a [u8]) -> (it: Self)
        ensures
            it.stream() == head@ + tail@,
            it.offset() == 0,
    {
        let (first, head_pos, tail_pos) = BitIterator::fetch(head, tail, 0, 0);
        let (second, head_pos, tail_pos) = BitIterator::fetch(head, tail, head_pos, tail_pos);
        let (last, head_pos, tail_pos) = BitIterator::fetch(head, tail, head_pos, tail_pos);
        Self { head, tail, head_pos, tail_pos, first, second, last, bit: 0 }
    }

    /// The next window, if the byte string has sixteen more bits from the
    /// offset on.
    pub fn next(&mut self) -> (window: Option<u16>)
        ensures
            final(self).stream() == old(self).stream(),
            match window {
                Some(w) => {
                    &&& old(self).offset() + 16 <= 8 * old(self).stream().len()
                    &&& low_bits(w as nat, 16) == bytes_bits(old(self).stream()).subrange(
                        old(self).offset() as int,
                        old(self).offset() as int + 16,
                    )
                    &&& final(self).offset() == old(self).offset() + 1
                },
                None => {
                    &&& old(self).offset() + 16 > 8 * old(self).stream().len()
                    &&& final(self).offset() == old(self).offset()
                },
            },
    {
        proof {
            use_type_invariant(&*self);
        }
        let ghost s = self.stream();
        let ghost off = self.offset();
        let ghost want = bytes_bits(s).subrange(off as int, off as int + 16);
        let first = match self.first {
            Some(first) => first as u16,
            None => {
                return None;
            },
        };
        let second = match self.second {
            Some(second) => second as u16,
            None => {
                return None;
            },
        };
        let ret = if self.bit == 0 {
            let ret = first << 8 | second;
            proof {
                assert forall|i: int| 0 <= i < 16 implies low_bits(ret as nat, 16)[i]
                    == want[i] by {
                    let j = (15 - i) as u16;
                    lemma_window16_aligned(first, second, j);
                    lemma_bit_of_u16(ret, j);
                    if j >= 8 {
                        lemma_bit_of_u16(first, (j - 8) as u16);
                    } else {
                        lemma_bit_of_u16(second, j);
                    }
                }
                assert(low_bits(ret as nat, 16) =~= want);
            }
            ret
        } else {
            let last = match self.last {
                Some(last) => last as u16,
                None => {
                    return None;
                },
            };
            let ret = first << (8 + self.bit) | second << self.bit | last >> (8 - self.bit);
            proof {
                assert forall|i: int| 0 <= i < 16 implies low_bits(ret as nat, 16)[i]
                    == want[i] by {
                    let j = (15 - i) as u16;
                    lemma_window16(first, second, last, self.bit, j);
                    lemma_bit_of_u16(ret, j);
                    if j >= 8 + self.bit {
                        lemma_bit_of_u16(first, (j - 8 - self.bit) as u16);
                    } else if j >= self.bit {
                        lemma_bit_of_u16(second, (j - self.bit) as u16);
                    } else {
                        lemma_bit_of_u16(last, (j + 8 - self.bit) as u16);
                    }
                }
                assert(low_bits(ret as nat, 16) =~= want);
            }
            ret
        };
        if self.bit == 7 {
            let (last, head_pos, tail_pos) = BitIterator::fetch(
                self.head,
                self.tail,
                self.head_pos,
                self.tail_pos,
            );
            *self = Self {
                head: self.head,
                tail: self.tail,
                head_pos,
                tail_pos,
                first: self.second,
                second: self.last,
                last,
                bit: 0,
            };
        } else {
            self.bit += 1;
        }
        Some(ret)
    }
}

/// Byte strings that windows of sixteen bits can be taken over.
pub trait BitIter16: View<V = Seq<u8>> {
    /// The windows over the bytes.
    fn bit_iter16<'a>(&'a self) -> (it: BitIterator16<'a>)
        ensures
            it.stream() == self@,
            it.offset() == 0,
    ;
}

impl BitIter16 for [u8] {
    fn bit_iter16<'a>(&'a self) -> (it: BitIterator16<'a>) {
        BitIterator16::new(self)
    }
}

/// One turn of a sixteen-bit shift register: the register moves one place
/// up, `bit` comes in at the bottom, and the polynomial is added if a one
/// went out at the top.
pub open spec fn crc16_step(rem: u16, bit: bool, poly: u16) -> u16 {
    let shifted = (rem << 1) | if bit {
        1u16
    } else {
        0u16
    };
    if rem & 0x8000 == 0x8000 {
        shifted ^ poly
    } else {
        shifted
    }
}

/// The register after `bits` have come in, one turn for each.
pub open spec fn crc16_shift(rem: u16, bits: Seq<bool>, poly: u16) -> u16
    decreases bits.len(),
{
    if bits.len() == 0 {
        rem
    } else {
        crc16_step(crc16_shift(rem, bits.drop_last(), poly), bits.last(), poly)
    }
}

/// The remainder of `bytes` followed by the two bytes of `pad`: the
/// register starts with the first two bytes, and every later bit comes in.
pub open spec fn crc16(bytes: Seq<u8>, poly: u16, pad: u16) -> u16 {
    let stream = bytes + be16(pad);
    crc16_shift((stream[0] * 256 + stream[1]) as u16, bytes_bits(stream).skip(16), poly)
}

/// Bits that come in one after the other can come in in two runs.
pub proof fn lemma_crc16_shift_concat(rem: u16, a: Seq<bool>, b: Seq<bool>, poly: u16)
    ensures
        crc16_shift(rem, a + b, poly) == crc16_shift(crc16_shift(rem, a, poly), b, poly),
    decreases b.len(),
{
    if b.len() == 0 {
        assert(a + b =~= a);
    } else {
        assert((a + b).drop_last() =~= a + b.drop_last());
        lemma_crc16_shift_concat(rem, a, b.drop_last(), poly);
    }
}

proof fn lemma_crc16_step_linear(r1: u16, r2: u16, b1: bool, b2: bool, poly: u16)
    by (bit_vector)
    ensures
        crc16_step(r1 ^ r2, b1 != b2, poly) == crc16_step(r1, b1, poly) ^ crc16_step(r2, b2, poly),
{
}

proof fn lemma_crc16_step_quiet(word: u16, k: u16, poly: u16)
    by (bit_vector)
    requires
        k < 16,
    ensures
        crc16_step(
            if k == 0 {
                0u16
            } else {
                word >> (16 - k) as u16
            },
            (word >> (15 - k) as u16) & 1 == 1,
            poly,
        ) == word >> (15 - k) as u16,
        word >> 0 == word,
        word ^ word == 0,
        word ^ 0 == word,
{
}

/// The register is linear in what it holds and what comes in: a register
/// that starts with `r1 ^ r2` and takes the bitwise sum of two runs ends
/// with the sum of what `r1` makes of the one run and `r2` of the other.
pub proof fn lemma_crc16_shift_linear(r1: u16, r2: u16, s1: Seq<bool>, s2: Seq<bool>, poly: u16)
    requires
        s1.len() == s2.len(),
    ensures
        crc16_shift(r1 ^ r2, xor_bits(s1, s2), poly) == crc16_shift(r1, s1, poly) ^ crc16_shift(
            r2,
            s2,
            poly,
        ),
    decreases s1.len(),
{
    if s1.len() > 0 {
        assert(xor_bits(s1, s2).drop_last() =~= xor_bits(s1.drop_last(), s2.drop_last()));
        lemma_crc16_shift_linear(r1, r2, s1.drop_last(), s2.drop_last(), poly);
        lemma_crc16_step_linear(
            crc16_shift(r1, s1.drop_last(), poly),
            crc16_shift(r2, s2.drop_last(), poly),
            s1.last(),
            s2.last(),
            poly,
        );
    }
}

/// The first `k` of sixteen bits that come into an empty register are the
/// top `k` bits of the word, whatever the polynomial.
proof fn lemma_crc16_shift_prefix(word: u16, k: nat, poly: u16)
    requires
        k <= 16,
    ensures
        crc16_shift(0, low_bits(word as nat, 16).take(k as int), poly) == if k == 0 {
            0u16
        } else {
            word >> (16 - k) as u16
        },
    decreases k,
{
    let s = low_bits(word as nat, 16);
    if k > 0 {
        let m = (k - 1) as nat;
        lemma_crc16_shift_prefix(word, m, poly);
        assert(s.take(k as int).drop_last() =~= s.take(m as int));
        lemma_bit_of_u16(word, (15 - m) as u16);
        lemma_crc16_step_quiet(word, m as u16, poly);
    }
}

/// Sixteen bits that come into a register add the word that they spell to
/// what sixteen zero bits would have left.
pub proof fn lemma_crc16_shift_word(rem: u16, word: u16, poly: u16)
    ensures
        crc16_shift(rem, low_bits(word as nat, 16), poly) == crc16_shift(rem, zeros(16), poly)
            ^ word,
        crc16_shift(0, low_bits(word as nat, 16), poly) == word,
{
    let s = low_bits(word as nat, 16);
    lemma_crc16_shift_prefix(word, 16, poly);
    assert(s.take(16) =~= s);
    lemma_crc16_step_quiet(word, 0, poly);
    lemma_crc16_step_quiet(rem, 0, poly);
    lemma_crc16_shift_linear(rem, 0, zeros(16), s, poly);
    assert(xor_bits(zeros(16), s) =~= s);
}

/// The remainder is what the register holds after all bytes and the pad
/// have come into an empty register.
pub proof fn lemma_crc16_from_zero(bytes: Seq<u8>, poly: u16, pad: u16)
    ensures
        crc16(bytes, poly, pad) == crc16_shift(
            crc16_shift(0, bytes_bits(bytes), poly),
            low_bits(pad as nat, 16),
            poly,
        ),
{
    let stream = bytes + be16(pad);
    let all = bytes_bits(stream);
    let start = (stream[0] * 256 + stream[1]) as u16;
    lemma_bytes_bits_be16(start);
    lemma_bytes_bits_be16(pad);
    lemma_be16_joined(stream[0], stream[1]);
    assert(be16(start) =~= stream.take(2));
    assert(all =~= low_bits(start as nat, 16) + all.skip(16)) by {
        assert(all.take(16) =~= bytes_bits(stream.take(2)));
        assert(all =~= all.take(16) + all.skip(16));
    }
    lemma_crc16_shift_concat(0, low_bits(start as nat, 16), all.skip(16), poly);
    lemma_crc16_shift_word(0, start, poly);
    assert(crc16_shift(0, all, poly) == crc16(bytes, poly, pad));
    assert(all =~= bytes_bits(bytes) + low_bits(pad as nat, 16)) by {
        crate::bits::lemma_bytes_bits_concat(bytes, be16(pad));
    }
    lemma_crc16_shift_concat(0, bytes_bits(bytes), low_bits(pad as nat, 16), poly);
}

/// A message followed by its remainder has the remainder zero, whatever the
/// polynomial: with the remainder as the pad, and with the remainder as the
/// last two bytes before a zero pad.
pub proof fn lemma_crc16_self_check(bytes: Seq<u8>, poly: u16)
    ensures
        crc16(bytes, poly, crc16(bytes, poly, 0)) == 0,
        crc16(bytes + be16(crc16(bytes, poly, 0)), poly, 0) == 0,
{
    let check = crc16(bytes, poly, 0);
    let reg = crc16_shift(0, bytes_bits(bytes), poly);
    lemma_crc16_from_zero(bytes, poly, 0);
    lemma_crc16_from_zero(bytes, poly, check);
    crate::bits::lemma_low_bits_zero(16);
    lemma_crc16_shift_word(reg, check, poly);
    lemma_crc16_step_quiet(check, 0, poly);
    assert(crc16(bytes, poly, check) == 0);
    let longer = bytes + be16(check);
    lemma_crc16_from_zero(longer, poly, 0);
    crate::bits::lemma_bytes_bits_concat(bytes, be16(check));
    lemma_bytes_bits_be16(check);
    lemma_crc16_shift_concat(0, bytes_bits(bytes), low_bits(check as nat, 16), poly);
    lemma_crc16_shift_word(0, 0, poly);
}

proof fn lemma_be16_joined(high: u8, low: u8)
    ensures
        be16((high * 256 + low) as u16) == seq![high, low],
{
    let word = (high * 256 + low) as u16;
    assert(word == high * 256 + low);
    assert(word / 256 == high);
    assert(word % 256 == low);
    assert(be16(word) =~= seq![high, low]);
}

proof fn lemma_bits_of_word_unique(a: u16, b: u16)
    requires
        low_bits(a as nat, 16) == low_bits(b as nat, 16),
    ensures
        a == b,
{
    lemma_low_bits_value(a as nat, 16);
    lemma_low_bits_value(b as nat, 16);
    lemma2_to64();
}

/// The remainder of `bit_stream` followed by the two bytes of `initial`,
/// under the polynomial `crc_polynomial` (its top term left out).
pub fn crc16_remainder(bit_stream: &[u8], crc_polynomial: u16, initial: u16) -> (crc: u16)
    ensures
        crc == crc16(bit_stream@, crc_polynomial, initial),
{
    let right_pad = [
        #[verifier::truncate]
        ((initial >> 8) as u8),
        #[verifier::truncate]
        ((initial & 0xFF) as u8),
    ];
    let mut it = BitIterator16::chained(bit_stream, right_pad.as_slice());
    let ghost stream = bit_stream@ + be16(initial);
    let ghost all = bytes_bits(stream);
    let ghost first = (stream[0] * 256 + stream[1]) as u16;
    proof {
        crate::bits::lemma_be16_split(initial);
        assert(right_pad@.len() == 2);
        assert(right_pad@[0] == (initial / 256) as u8);
        assert(right_pad@[1] == (initial % 256) as u8);
        assert(right_pad@ =~= be16(initial));
    }
    let start = it.next();
    let mut res = start.unwrap();
    proof {
        lemma_bytes_bits_be16(first);
        lemma_be16_joined(stream[0], stream[1]);
        assert(be16(first) =~= stream.take(2));
        assert(all.subrange(0, 16) =~= bytes_bits(stream.take(2)));
        lemma_bits_of_word_unique(res, first);
        assert(all.skip(16).take(0) =~= Seq::<bool>::empty());
    }
    let mut window = it.next();
    while window.is_some()
        invariant
            it.stream() == stream,
            all == bytes_bits(stream),
            stream.len() >= 2,
            1 <= it.offset() <= 8 * stream.len() - 15,
            window is Some ==> it.offset() >= 2,
            window matches Some(w) ==> low_bits(w as nat, 16) == all.subrange(
                it.offset() - 1,
                it.offset() as int + 15,
            ),
            window is None ==> it.offset() + 16 > 8 * stream.len(),
            res == crc16_shift(
                first,
                all.skip(16).take(
                    it.offset() - if window is Some {
                        2int
                    } else {
                        1int
                    },
                ),
                crc_polynomial,
            ),
        decreases
                8 * stream.len() - it.offset() + if window is Some {
                    1int
                } else {
                    0int
                },
    {
        let next = window.unwrap();
        let ghost done = all.skip(16).take(it.offset() - 2);
        let ghost bit = all[it.offset() as int + 14];
        let msb = res & 0b1000_0000_0000_0000;
        let low = next & 1;
        proof {
            lemma_bit_of_u16(next, 0);
            assert(next >> 0 == next) by (bit_vector);
            assert(low_bits(next as nat, 16)[15] == bit);
            assert(low == if bit {
                1u16
            } else {
                0u16
            }) by {
                assert(low == 0 || low == 1) by (bit_vector)
                    requires
                        low == next & 1,
                ;
            }
            assert(all.skip(16).take(it.offset() - 1).drop_last() =~= done);
        }
        res = (res << 1) | low;
        if msb == 0b1000_0000_0000_0000 {
            res ^= crc_polynomial;
        }
        window = it.next();
    }
    proof {
        assert(all.skip(16).take(it.offset() - 1) =~= all.skip(16));
    }
    res
}

} // verus!
