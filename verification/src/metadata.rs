//! Metadata blocks: a byte with the kind of the block and whether it is the
//! last one, the length of the payload in three bytes, and the payload.

use crate::bits::be_bytes;
use crate::ByteSink;
use vstd::bits::lemma_u128_shr_is_div;
use vstd::prelude::*;

pub mod application;
pub mod padding;
pub mod seek_table;
pub mod stream_info;

use application::Application;
use padding::Padding;
use stream_info::StreamInfo;

verus! {

proof fn lemma_low_byte_u128(word: u128)
    by (bit_vector)
    ensures
        (word as u8) == word % 256,
{
}

/// Writes the `count` low bytes of `value`, the highest first.
pub fn write_be<BS: ByteSink>(sink: &mut BS, value: u128, count: usize)
    requires
        count <= 16,
        count <= old(sink).room(),
    ensures
        final(sink).bytes() == old(sink).bytes() + be_bytes(value as nat, count as nat),
        final(sink).room() == old(sink).room() - count,
{
    let ghost want = be_bytes(value as nat, count as nat);
    let mut i: usize = 0;
    while i < count
        invariant
            i <= count <= 16,
            count <= old(sink).room(),
            want == be_bytes(value as nat, count as nat),
            sink.bytes() == old(sink).bytes() + want.take(i as int),
            sink.room() == old(sink).room() - i,
        decreases count - i,
    {
        let shift: u128 = 8 * ((count - 1 - i) as u128);
        let part = value >> shift;
        let byte = #[verifier::truncate]
        (part as u8);
        sink.write(byte);
        proof {
            lemma_u128_shr_is_div(value, shift);
            lemma_low_byte_u128(part);
            assert(want.take(i + 1) =~= want.take(i as int).push(byte));
        }
        i += 1;
    }
    proof {
        assert(want.take(count as int) =~= want);
    }
}

/// The kind of a metadata block, with what the block holds where this
/// library can write it.
pub enum MetaDataBlockType<const N: usize> {
    StreamInfo(StreamInfo),
    Padding(Padding<N>),
    Application(Application<N>),
    SeekTable,
    VorbisComent,
    CueSheet,
    Picture,
}

impl<const N: usize> MetaDataBlockType<N> {
    /// The seven-bit code of the kind.
    pub open spec fn code(self) -> u8 {
        match self {
            MetaDataBlockType::StreamInfo(_) => 0,
            MetaDataBlockType::Padding(_) => 1,
            MetaDataBlockType::Application(_) => 2,
            MetaDataBlockType::SeekTable => 3,
            MetaDataBlockType::VorbisComent => 4,
            MetaDataBlockType::CueSheet => 5,
            MetaDataBlockType::Picture => 6,
        }
    }

    /// Stream information, padding and application blocks can be written.
    pub open spec fn implemented(self) -> bool {
        self.code() <= 2
    }

    /// The block can be written: its kind is implemented and its payload
    /// is shorter than two to the 24.
    pub open spec fn encodable(self) -> bool {
        match self {
            MetaDataBlockType::StreamInfo(_) => true,
            MetaDataBlockType::Padding(_) => N < 0x100_0000,
            MetaDataBlockType::Application(_) => N + 4 < 0x100_0000,
            _ => false,
        }
    }

    /// The length of the payload in three bytes, and the payload.
    pub open spec fn encoding(self) -> Seq<u8> {
        match self {
            MetaDataBlockType::StreamInfo(stream_info) => stream_info.encoding(),
            MetaDataBlockType::Padding(padding) => padding.encoding(),
            MetaDataBlockType::Application(application) => application.encoding(),
            _ => Seq::empty(),
        }
    }

    /// The seven-bit code of the kind.
    pub fn as_byte(&self) -> (code: u8)
        ensures
            code == self.code(),
            code <= 6,
    {
        match self {
            MetaDataBlockType::StreamInfo(_) => 0,
            MetaDataBlockType::Padding(_) => 1,
            MetaDataBlockType::Application(_) => 2,
            MetaDataBlockType::SeekTable => 3,
            MetaDataBlockType::VorbisComent => 4,
            MetaDataBlockType::CueSheet => 5,
            MetaDataBlockType::Picture => 6,
        }
    }

    /// Writes the length of the payload and the payload.
    pub fn write<BS: ByteSink>(&self, sink: &mut BS)
        requires
            self.encodable(),
            self.encoding().len() <= old(sink).room(),
        ensures
            final(sink).bytes() == old(sink).bytes() + self.encoding(),
            final(sink).room() == old(sink).room() - self.encoding().len(),
    {
        match self {
            MetaDataBlockType::StreamInfo(stream_info) => stream_info.write(sink),
            MetaDataBlockType::Padding(padding) => padding.write(sink),
            MetaDataBlockType::Application(application) => application.write(sink),
            _ => {},
        }
    }
}

/// A metadata block with its place in the stream: the last block before the
/// frames, or not.
pub struct MetaDataBlockHeader<const N: usize> {
    is_last: bool,
    block_type: MetaDataBlockType<N>,
}

impl<const N: usize> MetaDataBlockHeader<N> {
    /// Whether this is the last metadata block.
    pub closed spec fn is_last(&self) -> bool {
        self.is_last
    }

    /// The block.
    pub closed spec fn block(&self) -> MetaDataBlockType<N> {
        self.block_type
    }

    /// The bytes of the block: one byte with the last-block flag in its top
    /// bit and the kind below, then the length and the payload.
    pub open spec fn encoding(&self) -> Seq<u8> {
        seq![
            (if self.is_last() {
                128int
            } else {
                0int
            } + self.block().code()) as u8,
        ] + self.block().encoding()
    }

    /// A block, last or not.
    pub fn new(is_last: bool, block_type: MetaDataBlockType<N>) -> (header: Self)
        ensures
            header.is_last() == is_last,
            header.block() == block_type,
    {
        Self { is_last, block_type }
    }

    /// Writes the block.
    pub fn write<BS: ByteSink>(&self, sink: &mut BS)
        requires
            self.block().encodable(),
            self.encoding().len() <= old(sink).room(),
        ensures
            final(sink).bytes() == old(sink).bytes() + self.encoding(),
            final(sink).room() == old(sink).room() - self.encoding().len(),
    {
        let last_flag: u8 = if self.is_last {
            0b1000_0000
        } else {
            0b0000_0000
        };
        sink.write(last_flag + self.block_type.as_byte());
        self.block_type.write(sink);
        proof {
            assert(sink.bytes() =~= old(sink).bytes() + self.encoding());
        }
    }
}

} // verus!
