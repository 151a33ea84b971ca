//! Stream information: what a decoder has to know before the first frame.

use crate::bits::{
    be_bytes, bytes_bits, lemma_be_bytes_bits, lemma_bytes_bits_concat, lemma_low_bits_mod,
    lemma_low_bits_split, lemma_pack_bytes_bits, low_bits, pack,
};
use crate::metadata::write_be;
use crate::ByteSink;
use vstd::arithmetic::power2::{lemma2_to64, lemma2_to64_rest, pow2};
use vstd::prelude::*;

verus! {

/// The stream information block. The sizes of the smallest and the largest
/// block and frame, and the number of samples, follow the stream as it is
/// written.
#[derive(Clone, Copy)]
pub struct StreamInfo {
    min_block_size: u16,
    max_block_size: u16,
    min_frame_size: u32,
    max_frame_size: u32,
    sample_rate: u32,
    channels: u8,
    bits_per_sample: u8,
    interchannel_sample_count: u64,
    md5_checksum: u128,
}

proof fn lemma_packed_word(sample_rate: u32, channels: u8, depth: u8, count: u64)
    by (bit_vector)
    requires
        sample_rate < 0x10_0000,
        channels < 8,
        depth < 32,
    ensures
        ((sample_rate << 12) | ((channels as u32) << 9) | ((depth as u32) << 4) | (((count >> 32)
            & 0xF) as u32)) == sample_rate * 4096 + channels * 512 + depth * 16 + (count
            / 0x1_0000_0000) % 16,
{
}

impl StreamInfo {
    #[verifier::type_invariant]
    closed spec fn inv(&self) -> bool {
        &&& self.sample_rate < 0x10_0000
        &&& 1 <= self.channels <= 8
        &&& 1 <= self.bits_per_sample <= 32
    }

    /// The size of the smallest block so far, in samples.
    pub closed spec fn min_block_size(&self) -> u16 {
        self.min_block_size
    }

    /// The size of the largest block so far, in samples.
    pub closed spec fn max_block_size(&self) -> u16 {
        self.max_block_size
    }

    /// The size of the smallest frame so far, in bytes.
    pub closed spec fn min_frame_size(&self) -> u32 {
        self.min_frame_size
    }

    /// The size of the largest frame so far, in bytes.
    pub closed spec fn max_frame_size(&self) -> u32 {
        self.max_frame_size
    }

    /// The sample rate in hertz; zero if it is not known.
    pub closed spec fn sample_rate(&self) -> u32 {
        self.sample_rate
    }

    /// The number of channels.
    pub closed spec fn channels(&self) -> u8 {
        self.channels
    }

    /// The number of bits of a sample.
    pub closed spec fn bits_per_sample(&self) -> u8 {
        self.bits_per_sample
    }

    /// The number of samples of one channel so far.
    pub closed spec fn total_samples(&self) -> u64 {
        self.interchannel_sample_count
    }

    /// The signature of the samples.
    pub closed spec fn md5(&self) -> u128 {
        self.md5_checksum
    }

    /// The fields of the payload, each in its width and one after the
    /// other: 272 bits.
    pub open spec fn payload_bits(&self) -> Seq<bool> {
        low_bits(self.min_block_size() as nat, 16) + low_bits(self.max_block_size() as nat, 16)
            + low_bits(self.min_frame_size() as nat, 24) + low_bits(
            self.max_frame_size() as nat,
            24,
        ) + low_bits(self.sample_rate() as nat, 20) + low_bits((self.channels() - 1) as nat, 3)
            + low_bits((self.bits_per_sample() - 1) as nat, 5) + low_bits(
            self.total_samples() as nat,
            36,
        ) + low_bits(self.md5() as nat, 128)
    }

    /// The 34 bytes of the payload.
    pub open spec fn payload(&self) -> Seq<u8> {
        pack(self.payload_bits())
    }

    /// The length of the payload in three bytes, and the payload.
    pub open spec fn encoding(&self) -> Seq<u8> {
        be_bytes(34, 3) + self.payload()
    }

    /// The information of a stream of which nothing is written yet: the
    /// smallest sizes are as large as they can be, the largest sizes and
    /// the number of samples are zero.
    pub fn new(sample_rate: u32, channels: u8, bits_per_sample: u8) -> (info: Self)
        requires
            sample_rate < 0x10_0000,
            1 <= channels <= 8,
            4 <= bits_per_sample <= 32,
        ensures
            info.min_block_size() == u16::MAX,
            info.max_block_size() == 0,
            info.min_frame_size() == u32::MAX,
            info.max_frame_size() == 0,
            info.sample_rate() == sample_rate,
            info.channels() == channels,
            info.bits_per_sample() == bits_per_sample,
            info.total_samples() == 0,
            info.md5() == 0,
    {
        Self {
            min_block_size: u16::MAX,
            max_block_size: u16::MIN,
            min_frame_size: u32::MAX,
            max_frame_size: u32::MIN,
            sample_rate,
            channels,
            bits_per_sample,
            interchannel_sample_count: 0,
            md5_checksum: 0,
        }
    }

    /// Takes note of a block of `size` samples: the smallest size does not
    /// grow, the largest does not shrink, and the samples are counted.
    pub fn added_block_with(&mut self, size: u16)
        requires
            old(self).total_samples() + size <= u64::MAX,
        ensures
            final(self).min_block_size() == if size < old(self).min_block_size() {
                size
            } else {
                old(self).min_block_size()
            },
            final(self).max_block_size() == if size > old(self).max_block_size() {
                size
            } else {
                old(self).max_block_size()
            },
            final(self).min_block_size() <= old(self).min_block_size(),
            final(self).max_block_size() >= old(self).max_block_size(),
            final(self).total_samples() == old(self).total_samples() + size,
            final(self).min_frame_size() == old(self).min_frame_size(),
            final(self).max_frame_size() == old(self).max_frame_size(),
            final(self).sample_rate() == old(self).sample_rate(),
            final(self).channels() == old(self).channels(),
            final(self).bits_per_sample() == old(self).bits_per_sample(),
            final(self).md5() == old(self).md5(),
    {
        proof {
            use_type_invariant(&*self);
        }
        if size < self.min_block_size {
            self.min_block_size = size;
        }
        if size > self.max_block_size {
            self.max_block_size = size;
        }
        self.interchannel_sample_count += size as u64;
    }

    /// Takes note of a frame of `size` bytes: the smallest size does not
    /// grow, the largest does not shrink.
    pub fn added_frame_with(&mut self, size: u32)
        ensures
            final(self).min_frame_size() == if size < old(self).min_frame_size() {
                size
            } else {
                old(self).min_frame_size()
            },
            final(self).max_frame_size() == if size > old(self).max_frame_size() {
                size
            } else {
                old(self).max_frame_size()
            },
            final(self).min_frame_size() <= old(self).min_frame_size(),
            final(self).max_frame_size() >= old(self).max_frame_size(),
            final(self).min_block_size() == old(self).min_block_size(),
            final(self).max_block_size() == old(self).max_block_size(),
            final(self).total_samples() == old(self).total_samples(),
            final(self).sample_rate() == old(self).sample_rate(),
            final(self).channels() == old(self).channels(),
            final(self).bits_per_sample() == old(self).bits_per_sample(),
            final(self).md5() == old(self).md5(),
    {
        proof {
            use_type_invariant(&*self);
        }
        if size < self.min_frame_size {
            self.min_frame_size = size;
        }
        if size > self.max_frame_size {
            self.max_frame_size = size;
        }
    }

    /// Writes the length of the payload and the payload.
    pub fn write<BS: ByteSink>(&self, sink: &mut BS)
        requires
            37 <= old(sink).room(),
        ensures
            final(sink).bytes() == old(sink).bytes() + self.encoding(),
            final(sink).room() == old(sink).room() - 37,
            self.encoding().len() == 37,
    {
        proof {
            use_type_invariant(self);
        }
        let word: u32 = (self.sample_rate << 12) | (((self.channels - 1) as u32) << 9) | (((
        self.bits_per_sample - 1) as u32) << 4) | (((self.interchannel_sample_count >> 32)
            & 0xF) as u32);
        write_be(sink, 34, 3);
        write_be(sink, self.min_block_size as u128, 2);
        write_be(sink, self.max_block_size as u128, 2);
        write_be(sink, self.min_frame_size as u128, 3);
        write_be(sink, self.max_frame_size as u128, 3);
        write_be(sink, word as u128, 4);
        write_be(sink, self.interchannel_sample_count as u128, 4);
        write_be(sink, self.md5_checksum, 16);
        proof {
            lemma_packed_word(
                self.sample_rate,
                (self.channels - 1) as u8,
                (self.bits_per_sample - 1) as u8,
                self.interchannel_sample_count,
            );
            self.lemma_payload(word);
            assert(sink.bytes() =~= old(sink).bytes() + self.encoding());
        }
    }

    proof fn lemma_payload(&self, word: u32)
        requires
            self.sample_rate < 0x10_0000,
            1 <= self.channels <= 8,
            1 <= self.bits_per_sample <= 32,
            word == self.sample_rate * 4096 + (self.channels - 1) * 512 + (self.bits_per_sample
                - 1) * 16 + (self.interchannel_sample_count / 0x1_0000_0000) % 16,
        ensures
            self.payload() == be_bytes(self.min_block_size as nat, 2) + be_bytes(
                self.max_block_size as nat,
                2,
            ) + be_bytes(self.min_frame_size as nat, 3) + be_bytes(self.max_frame_size as nat, 3)
                + be_bytes(word as nat, 4) + be_bytes(self.interchannel_sample_count as nat, 4)
                + be_bytes(self.md5_checksum as nat, 16),
            self.payload().len() == 34,
    {
        let b1 = be_bytes(self.min_block_size as nat, 2);
        let b2 = be_bytes(self.max_block_size as nat, 2);
        let b3 = be_bytes(self.min_frame_size as nat, 3);
        let b4 = be_bytes(self.max_frame_size as nat, 3);
        let b5 = be_bytes(word as nat, 4);
        let b6 = be_bytes(self.interchannel_sample_count as nat, 4);
        let b7 = be_bytes(self.md5_checksum as nat, 16);
        let bytes = b1 + b2 + b3 + b4 + b5 + b6 + b7;
        lemma_be_bytes_bits(self.min_block_size as nat, 2);
        lemma_be_bytes_bits(self.max_block_size as nat, 2);
        lemma_be_bytes_bits(self.min_frame_size as nat, 3);
        lemma_be_bytes_bits(self.max_frame_size as nat, 3);
        lemma_be_bytes_bits(word as nat, 4);
        lemma_be_bytes_bits(self.interchannel_sample_count as nat, 4);
        lemma_be_bytes_bits(self.md5_checksum as nat, 16);
        lemma_bytes_bits_concat(b1, b2);
        lemma_bytes_bits_concat(b1 + b2, b3);
        lemma_bytes_bits_concat(b1 + b2 + b3, b4);
        lemma_bytes_bits_concat(b1 + b2 + b3 + b4, b5);
        lemma_bytes_bits_concat(b1 + b2 + b3 + b4 + b5, b6);
        lemma_bytes_bits_concat(b1 + b2 + b3 + b4 + b5 + b6, b7);
        // the four fields that share eight bytes
        let rate = self.sample_rate as nat;
        let channels = (self.channels - 1) as nat;
        let depth = (self.bits_per_sample - 1) as nat;
        let count = self.interchannel_sample_count as nat;
        let w = word as nat;
        lemma2_to64();
        lemma2_to64_rest();
        lemma_low_bits_split(w, 20, 12);
        assert(w / pow2(12) == rate);
        lemma_low_bits_split(w, 3, 9);
        assert(w / pow2(9) == rate * 8 + channels);
        lemma_low_bits_mod(w / pow2(9), 3, 3);
        assert((w / pow2(9)) % pow2(3) == channels);
        lemma_low_bits_split(w, 5, 4);
        assert(w / pow2(4) == rate * 256 + channels * 32 + depth);
        lemma_low_bits_mod(w / pow2(4), 5, 5);
        assert((w / pow2(4)) % pow2(5) == depth);
        lemma_low_bits_mod(w, 4, 4);
        lemma_low_bits_mod(count / pow2(32), 4, 4);
        assert(w % pow2(4) == (count / pow2(32)) % pow2(4));
        lemma_low_bits_split(count, 4, 32);
        assert(low_bits(w, 32) + low_bits(count, 32) =~= low_bits(rate, 20) + low_bits(channels, 3)
            + low_bits(depth, 5) + low_bits(count, 36));
        assert(bytes_bits(bytes) =~= self.payload_bits());
        lemma_pack_bytes_bits(bytes);
    }
}

} // verus!
