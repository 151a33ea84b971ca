//! Frames: a header, one subframe for each channel, and a checksum.

use crate::bits::{be16, lemma_be16_split};
use crate::utils::{crc16, crc16_remainder};
use crate::{copy_into, BufferByteSink, ByteSink};
use vstd::prelude::*;

pub mod header;
pub mod sub_frame;

use header::{BitDepthBits, BlockSizeBits, ChannelBits, FrameHeader, SampleRateBits};
use sub_frame::{SubFrame, SubFrameType};

verus! {

/// One block of `BLOCK_SIZE` samples for each of `CHANNELS` channels.
pub struct Frame<const CHANNELS: usize, const BLOCK_SIZE: usize> {
    header: FrameHeader,
    subframes: [SubFrame<BLOCK_SIZE>; CHANNELS],
}

/// The bytes of the first `count` subframes, one after the other.
pub open spec fn subframes_encoding<const N: usize>(
    subframes: Seq<SubFrame<N>>,
    count: nat,
) -> Seq<u8>
    decreases count,
{
    if count == 0 {
        Seq::empty()
    } else {
        subframes_encoding(subframes, (count - 1) as nat) + subframes[count - 1].encoding()
    }
}

impl<const CHANNELS: usize, const BLOCK_SIZE: usize> Frame<CHANNELS, BLOCK_SIZE> {
    /// The header of the frame.
    pub closed spec fn header(&self) -> FrameHeader {
        self.header
    }

    /// The subframes of the frame, one for each channel.
    pub closed spec fn subframes(&self) -> Seq<SubFrame<BLOCK_SIZE>> {
        self.subframes@
    }

    /// The frame before its checksum: the header and the subframes.
    pub open spec fn data(&self) -> Seq<u8> {
        self.header().encoding() + subframes_encoding(self.subframes(), CHANNELS as nat)
    }

    /// The bytes of the frame: the header, the subframes, and the checksum
    /// of both, the high byte first.
    pub open spec fn encoding(&self) -> Seq<u8> {
        self.data() + be16(crc16(self.data(), 0x8005, 0))
    }

    /// A buffer of sixteen bytes, the bytes of the samples at their full
    /// depth, and eight more holds a frame of one channel whose subframe is
    /// a constant or plain samples. (No such bound holds for the fixed
    /// predictors: the Rice code of a large residual is long.)
    pub proof fn lemma_plain_data_len(&self)
        requires
            CHANNELS == 1,
            1 <= self.header().coded().len() <= 7,
            self.subframes()[0].encodable(),
            self.subframes()[0].kind() is Constant || self.subframes()[0].kind() is Verbatim,
        ensures
            self.data().len() <= 16 + (CHANNELS * BLOCK_SIZE * self.subframes()[0].depth() + 7) / 8
                + 8,
    {
        self.header().lemma_encoding_len();
        self.subframes()[0].lemma_plain_encoding_len();
        assert(subframes_encoding(self.subframes(), 1) =~= self.subframes()[0].encoding()) by {
            assert(subframes_encoding(self.subframes(), 0) =~= Seq::<u8>::empty());
        }
        assert(CHANNELS * BLOCK_SIZE == BLOCK_SIZE) by (nonlinear_arith)
            requires
                CHANNELS == 1,
        ;
    }

    /// Frame `frame_number` of a stream of blocks of one size, with the same
    /// samples in every channel.
    pub fn new(
        sample_rate: u32,
        channel_bits: ChannelBits,
        bit_depth: u8,
        frame_number: u64,
        sub_frame_header: SubFrameType,
        wasted_bits: u8,
        samples: [i32; BLOCK_SIZE],
    ) -> (frame: Self)
        requires
            1 <= BLOCK_SIZE <= 0xFFFF,
            frame_number < 0x10_0000_0000,
        ensures
            frame.header().boundary() is FixedBlockSize,
            frame.header().block_size() == BlockSizeBits::of(BLOCK_SIZE as u16),
            frame.header().sample_rate() == SampleRateBits::of(sample_rate),
            frame.header().channels() == channel_bits,
            frame.header().bit_depth() == BitDepthBits::of(bit_depth),
            frame.header().coded() == header::coded_number(frame_number as nat),
            forall|c: int|
                0 <= c < CHANNELS ==> {
                    &&& (#[trigger] frame.subframes()[c]).kind() == sub_frame_header
                    &&& frame.subframes()[c].wasted() == wasted_bits
                    &&& frame.subframes()[c].depth() == bit_depth
                    &&& frame.subframes()[c].samples() == samples@
                },
    {
        Self {
            header: FrameHeader::new_fixed_size(
                BLOCK_SIZE as u16,
                sample_rate,
                channel_bits,
                bit_depth,
                frame_number,
            ),
            subframes: [SubFrame::new(sub_frame_header, wasted_bits, bit_depth, samples); CHANNELS],
        }
    }

    /// Writes the frame, by way of a buffer of `MEM` bytes that has to hold
    /// the header and the subframes. Frames of one channel only can be
    /// written.
    pub fn write<BS: ByteSink, const MEM: usize>(&self, sink: &mut BS)
        requires
            CHANNELS == 1,
            forall|c: int| 0 <= c < CHANNELS ==> (#[trigger] self.subframes()[c]).encodable(),
            self.data().len() <= MEM,
            self.encoding().len() <= old(sink).room(),
        ensures
            final(sink).bytes() == old(sink).bytes() + self.encoding(),
            final(sink).room() == old(sink).room() - self.encoding().len(),
    {
        let mut buff: BufferByteSink<MEM> = BufferByteSink::new();
        self.header.write(&mut buff);
        let mut c: usize = 0;
        while c < CHANNELS
            invariant
                c <= CHANNELS,
                forall|k: int| 0 <= k < CHANNELS ==> (#[trigger] self.subframes()[k]).encodable(),
                self.data().len() <= MEM,
                buff@ == self.header.encoding() + subframes_encoding(self.subframes@, c as nat),
                buff@.len() + buff.room() == MEM,
            decreases CHANNELS - c,
        {
            proof {
                lemma_subframes_encoding_len(self.subframes@, (c + 1) as nat, CHANNELS as nat);
                assert(self.subframes()[c as int].encodable());
            }
            self.subframes[c].write(&mut buff);
            c += 1;
        }
        let crc = crc16_remainder(buff.as_slice(), 0b1000_0000_0000_0101, 0b0000_0000_0000_0000);
        proof {
            lemma_be16_split(crc);
        }
        copy_into(buff.as_slice(), sink);
        sink.write(#[verifier::truncate] ((crc >> 8) as u8));
        sink.write(#[verifier::truncate] ((crc & 0xFF) as u8));
        proof {
            assert(sink.bytes() =~= old(sink).bytes() + self.encoding());
        }
    }
}

/// More subframes take more bytes.
pub proof fn lemma_subframes_encoding_len<const N: usize>(
    subframes: Seq<SubFrame<N>>,
    fewer: nat,
    count: nat,
)
    requires
        fewer <= count,
    ensures
        subframes_encoding(subframes, fewer).len() <= subframes_encoding(subframes, count).len(),
    decreases count,
{
    if fewer < count {
        lemma_subframes_encoding_len(subframes, fewer, (count - 1) as nat);
    }
}

} // verus!
