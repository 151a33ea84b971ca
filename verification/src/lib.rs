//! Writers for the frames and metadata blocks of a lossless audio stream.
//!
//! Every writer appends to a [`ByteSink`]. Fields that do not end on a byte
//! boundary go through a [`BitSink`], which packs bits most significant bit
//! first. Each contract states the bytes, or the bits, that a call appends.

use vstd::prelude::*;

pub mod bits;
pub mod frames;
pub mod metadata;
pub mod utils;

use crate::bits::{bit_of, bytes_bits, lemma_bit_of_u8, low_bits, pack, padding_len, zeros};

verus! {

/// Something that takes bytes, one at a time, up to a bound.
pub trait ByteSink {
    /// The bytes taken so far, in the order of the calls.
    spec fn bytes(&self) -> Seq<u8>;

    /// How many more bytes the sink takes.
    spec fn room(&self) -> nat;

    /// Appends one byte.
    fn write(&mut self, next_byte: u8)
        requires
            old(self).room() > 0,
        ensures
            final(self).bytes() == old(self).bytes().push(next_byte),
            final(self).room() == old(self).room() - 1,
    ;
}

/// Something that takes bits, up to eight at a time.
///
/// `write(0b0001_0011, 3)` appends `011`, `write(0b0001_0011, 5)` appends
/// `10011`.
pub trait BitSink {
    /// The invariant of the implementation.
    spec fn wf(&self) -> bool;

    /// The bits taken so far, in the order of the calls.
    spec fn bits(&self) -> Seq<bool>;

    /// How many more bits the sink takes.
    spec fn room(&self) -> nat;

    /// Appends the `num_bits` low bits of `next_bits`, most significant
    /// first.
    fn write(&mut self, next_bits: u8, num_bits: u8)
        requires
            old(self).wf(),
            num_bits <= 8,
            num_bits <= old(self).room(),
        ensures
            final(self).wf(),
            final(self).bits() == old(self).bits() + low_bits(next_bits as nat, num_bits as nat),
            final(self).room() == old(self).room() - num_bits,
    ;
}

/// Writes `bytes` to `sink`, one after the other.
pub fn copy_into<BS: ByteSink>(bytes: &[u8], sink: &mut BS)
    requires
        bytes@.len() <= old(sink).room(),
    ensures
        final(sink).bytes() == old(sink).bytes() + bytes@,
        final(sink).room() == old(sink).room() - bytes@.len(),
{
    let mut i: usize = 0;
    while i < bytes.len()
        invariant
            i <= bytes@.len(),
            bytes@.len() <= old(sink).room(),
            sink.bytes() == old(sink).bytes() + bytes@.take(i as int),
            sink.room() == old(sink).room() - i,
        decreases bytes@.len() - i,
    {
        sink.write(bytes[i]);
        i += 1;
        proof {
            assert(bytes@.take(i as int) =~= bytes@.take(i - 1).push(bytes@[i - 1]));
        }
    }
    proof {
        assert(bytes@.take(i as int) =~= bytes@);
    }
}

/// An append-only byte buffer of capacity `N`.
pub struct BufferByteSink<const N: usize> {
    length: usize,
    buff: [u8; N],
}

impl<const N: usize> View for BufferByteSink<N> {
    type V = Seq<u8>;

    closed spec fn view(&self) -> Seq<u8> {
        self.buff@.subrange(0, self.length as int)
    }
}

impl<const N: usize> BufferByteSink<N> {
    #[verifier::type_invariant]
    closed spec fn inv(&self) -> bool {
        self.length <= N
    }

    /// An empty buffer.
    pub fn new() -> (sink: Self)
        ensures
            sink@ == Seq::<u8>::empty(),
            sink.room() == N,
    {
        Self { length: 0, buff: [0u8; N] }
    }

    /// The bytes written so far.
    pub fn as_slice(&self) -> (slice: &[u8])
        ensures
            slice@ == self@,
    {
        proof {
            use_type_invariant(self);
        }
        vstd::slice::slice_subrange(self.buff.as_slice(), 0, self.length)
    }

    /// Takes the last byte back.
    pub fn del_last(&mut self)
        requires
            old(self)@.len() > 0,
        ensures
            final(self)@ == old(self)@.drop_last(),
            final(self).room() == old(self).room() + 1,
    {
        proof {
            use_type_invariant(&*self);
        }
        self.length -= 1;
        assert(self@ =~= old(self)@.drop_last());
    }
}

impl<const N: usize> ByteSink for BufferByteSink<N> {
    open spec fn bytes(&self) -> Seq<u8> {
        self@
    }

    closed spec fn room(&self) -> nat {
        (N - self.length) as nat
    }

    fn write(&mut self, next_byte: u8) {
        proof {
            use_type_invariant(&*self);
        }
        self.buff[self.length] = next_byte;
        self.length += 1;
        assert(self@ =~= old(self)@.push(next_byte));
    }
}

/// Packs bits into the bytes of a byte sink, most significant bit first.
///
/// Up to seven bits wait for their byte to fill; [`BitSinkAdapter::flush`]
/// sends them on, with zero bits below them.
pub struct BitSinkAdapter<'a, BS: ByteSink> {
    bits: u8,
    buff: u8,
    sink: &'a mut BS,
}

/// The bits of the waiting byte after `n` bits of `v` have joined the `c`
/// bits of `buff`, and still fit.
proof fn lemma_merge(buff: u8, v: u8, c: u8, n: u8, s: u8, j: u8)
    by (bit_vector)
    requires
        c < 8,
        1 <= n <= 8,
        c + n <= 8,
        s == 8 - c - n,
        buff & (0xFFu8 >> c) == 0,
        j < 8,
    ensures
        (((buff | ((v & (0xFFu8 >> (8 - n) as u8)) << s)) >> j) & 1 == 1) == (if j >= 8 - c {
            (buff >> j) & 1 == 1
        } else if j >= s {
            (v >> (j - s) as u8) & 1 == 1
        } else {
            false
        }),
        c + n < 8 ==> (buff | ((v & (0xFFu8 >> (8 - n) as u8)) << s)) & (0xFFu8 >> (c + n) as u8)
            == 0,
{
}

/// The bits of the byte that fills and of the byte that waits after `n`
/// bits of `v` have joined the `c` bits of `buff`, and do not fit.
proof fn lemma_split(buff: u8, v: u8, c: u8, n: u8, over: u8, j: u8)
    by (bit_vector)
    requires
        c < 8,
        1 <= n <= 8,
        c + n > 8,
        over == c + n - 8,
        buff & (0xFFu8 >> c) == 0,
        j < 8,
    ensures
        (((buff | ((v & (0xFFu8 >> (8 - n) as u8)) >> over)) >> j) & 1 == 1) == (if j >= 8 - c {
            (buff >> j) & 1 == 1
        } else {
            (v >> (j + over) as u8) & 1 == 1
        }),
        ((((v & (0xFFu8 >> (8 - n) as u8)) << (8 - over) as u8) >> j) & 1 == 1) == (if j >= 8
            - over {
            (v >> (j - (8 - over)) as u8) & 1 == 1
        } else {
            false
        }),
        ((v & (0xFFu8 >> (8 - n) as u8)) << (8 - over) as u8) & (0xFFu8 >> over) == 0,
{
}

/// Below the `c` waiting bits, the waiting byte is zero.
proof fn lemma_low_zero(buff: u8, c: u8, j: u8)
    by (bit_vector)
    requires
        c < 8,
        buff & (0xFFu8 >> c) == 0,
        j < 8 - c,
    ensures
        (buff >> j) & 1 == 0,
{
}

impl<'a, BS: ByteSink> BitSinkAdapter<'a, BS> {
    /// The borrowed byte sink. What it holds at the end of the borrow is
    /// what the lender finds, so the contracts below speak of
    /// `final(self.inner())`.
    pub closed spec fn inner(&self) -> &'a mut BS {
        self.sink
    }

    /// The bits that wait for their byte to fill.
    pub closed spec fn pending(&self) -> Seq<bool> {
        Seq::new(self.bits as nat, |i: int| bit_of(self.buff as nat, (7 - i) as nat))
    }

    /// The byte sink holds the whole bytes of the stream, and fewer than
    /// eight bits wait: the stream is at a byte boundary if and only if no
    /// bit waits.
    pub proof fn lemma_stream_split(&self)
        requires
            self.wf(),
        ensures
            self.bits() == bytes_bits(self.inner().bytes()) + self.pending(),
            self.pending().len() < 8,
            self.pending().len() == self.bits().len() % 8,
    {
    }

    /// An adapter on `sink`, with no bit waiting. The stream begins with
    /// the bits of the bytes that `sink` holds already.
    pub fn new(sink: &'a mut BS) -> (adapter: Self)
        ensures
            adapter.wf(),
            adapter.bits() == bytes_bits(old(sink).bytes()),
            adapter.pending() == Seq::<bool>::empty(),
            adapter.room() == 8 * old(sink).room(),
            *final(adapter.inner()) == *final(sink),
    {
        let adapter = Self { bits: 0, buff: 0, sink };
        proof {
            assert(0u8 & (0xFFu8 >> 0u8) == 0) by (bit_vector);
            assert(adapter.bits() =~= bytes_bits(old(sink).bytes()));
            assert(adapter.pending() =~= Seq::<bool>::empty());
        }
        adapter
    }

    /// Sends the waiting bits on, filled up to a byte with zero bits, and
    /// ends the borrow of the byte sink. A stream that ends on a byte
    /// boundary arrives as it is: the bits of the bytes are the bits of the
    /// stream.
    pub fn flush(self)
        requires
            self.wf(),
        ensures
            final(self.inner()).bytes() == pack(self.bits()),
            8 * final(self.inner()).room() == self.room() - padding_len(self.bits().len()),
            self.bits().len() % 8 == 0 ==> bytes_bits(final(self.inner()).bytes()) == self.bits(),
    {
        let ghost before = self.sink.bytes();
        let ghost stream = self.bits();
        let ghost count = self.bits;
        let ghost byte = self.buff;
        proof {
            assert(stream.len() == 8 * before.len() + count);
            if stream.len() % 8 == 0 {
                crate::bits::lemma_bytes_bits_pack(stream);
            }
        }
        if self.bits != 0 {
            self.sink.write(self.buff);
            proof {
                let after = before.push(byte);
                let padded = stream + zeros(padding_len(stream.len()));
                assert(padded =~= bytes_bits(after)) by {
                    assert(padded.len() == 8 * after.len());
                    assert forall|i: int| 0 <= i < padded.len() implies padded[i] == bytes_bits(
                        after,
                    )[i] by {
                        if i >= 8 * before.len() + count {
                            let j = (7 - i % 8) as u8;
                            lemma_low_zero(byte, count, j);
                            lemma_bit_of_u8(byte, j);
                        }
                    }
                }
                crate::bits::lemma_pack_bytes_bits(after);
                assert(pack(stream) =~= pack(padded)) by {
                    assert(padded + zeros(padding_len(padded.len())) =~= padded);
                }
            }
        } else {
            proof {
                assert(stream =~= bytes_bits(before));
                crate::bits::lemma_pack_bytes_bits(before);
            }
        }
    }
}

impl<'a, BS: ByteSink> BitSink for BitSinkAdapter<'a, BS> {
    closed spec fn wf(&self) -> bool {
        &&& self.bits < 8
        &&& self.buff & (0xFFu8 >> self.bits) == 0
        &&& self.bits <= 8 * self.sink.room()
    }

    closed spec fn bits(&self) -> Seq<bool> {
        bytes_bits(self.sink.bytes()) + self.pending()
    }

    closed spec fn room(&self) -> nat {
        (8 * self.sink.room() - self.bits) as nat
    }

    fn write(&mut self, next_bits: u8, num_bits: u8)
        ensures
            *final(final(self).inner()) == *final(old(self).inner()),
    {
        if num_bits == 0 {
            assert(self.bits() + low_bits(next_bits as nat, 0) =~= self.bits());
            return;
        }
        let ghost before = self.sink.bytes();
        let ghost waiting = self.pending();
        let ghost added = low_bits(next_bits as nat, num_bits as nat);
        let ghost c = self.bits;
        let ghost old_buff = self.buff;
        let value = next_bits & (0xFFu8 >> (8 - num_bits));
        let filled = self.bits + num_bits;
        if filled > 8 {
            let over = filled - 8;
            let pushed = self.buff | (value >> over);
            let rest = value << (8 - over);
            self.sink.write(pushed);
            self.buff = rest;
            self.bits = over;
            proof {
                lemma_split(old_buff, next_bits, c, num_bits, over, 0);
                let after = before.push(pushed);
                let now = bytes_bits(after) + self.pending();
                let want = (bytes_bits(before) + waiting) + added;
                assert(now.len() == want.len());
                assert forall|i: int| 0 <= i < now.len() implies now[i] == want[i] by {
                    if i >= 8 * before.len() {
                        let t = i - 8 * before.len();
                        if t < 8 {
                            let j = (7 - t) as u8;
                            lemma_split(old_buff, next_bits, c, num_bits, over, j);
                            lemma_bit_of_u8(pushed, j);
                            lemma_bit_of_u8(old_buff, j);
                            if t >= c {
                                lemma_bit_of_u8(next_bits, (j + over) as u8);
                            }
                        } else {
                            let j = (15 - t) as u8;
                            lemma_split(old_buff, next_bits, c, num_bits, over, j);
                            lemma_bit_of_u8(rest, j);
                            lemma_bit_of_u8(next_bits, (j - (8 - over)) as u8);
                        }
                    }
                }
                assert(now =~= want);
            }
        } else {
            let shift = 8 - filled;
            let merged = self.buff | (value << shift);
            proof {
                lemma_merge(old_buff, next_bits, c, num_bits, shift, 0);
            }
            if filled == 8 {
                self.sink.write(merged);
                self.buff = 0;
                self.bits = 0;
                proof {
                    assert(0u8 & (0xFFu8 >> 0u8) == 0) by (bit_vector);
                }
            } else {
                self.buff = merged;
                self.bits = filled;
            }
            proof {
                let now = self.bits();
                let want = (bytes_bits(before) + waiting) + added;
                assert(now.len() == want.len());
                assert forall|i: int| 0 <= i < now.len() implies now[i] == want[i] by {
                    if i >= 8 * before.len() {
                        let t = i - 8 * before.len();
                        let j = (7 - t) as u8;
                        lemma_merge(old_buff, next_bits, c, num_bits, shift, j);
                        lemma_bit_of_u8(merged, j);
                        lemma_bit_of_u8(old_buff, j);
                        if t >= c {
                            lemma_bit_of_u8(next_bits, (j - shift) as u8);
                        }
                    }
                }
                assert(now =~= want);
            }
        }
    }
}

} // verus!
