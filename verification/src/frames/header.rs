//! The frame header: the sync word, the tags that describe the block, the
//! coded frame or sample number, and a checksum.

use crate::bits::{be16, lemma_be16_split};
use crate::utils::{crc8, crc8_remainder};
use crate::{copy_into, BufferByteSink, ByteSink};
use vstd::arithmetic::power2::{lemma2_to64, lemma2_to64_rest, pow2};
use vstd::prelude::*;

verus! {

/// Whether all blocks of the stream have one size.
#[derive(Clone, Copy)]
pub enum Boundary {
    /// One size; the coded number counts frames.
    FixedBlockSize,
    /// Any size; the coded number counts samples.
    VariableBlockSize,
}

impl Boundary {
    /// The sync word, with the blocking strategy in its last bit.
    pub open spec fn sync(self) -> u16 {
        match self {
            Boundary::FixedBlockSize => 0xFFF8,
            Boundary::VariableBlockSize => 0xFFF9,
        }
    }

    /// The sync word, with the blocking strategy in its last bit.
    pub fn as_u16(&self) -> (word: u16)
        ensures
            word == self.sync(),
    {
        match self {
            Boundary::FixedBlockSize => 0xFFF8,
            Boundary::VariableBlockSize => 0xFFF9,
        }
    }
}

/// The tag of a block size. The two escapes carry the size less one, which
/// is written after the coded number.
#[derive(Clone, Copy)]
pub enum BlockSizeBits {
    B192,
    B576,
    B1152,
    B2304,
    B4608,
    Uncommon8Bit(u8),
    Uncommon16Bit(u16),
    B256,
    B512,
    B1024,
    B2048,
    B4096,
    B8192,
    B16384,
    B32768,
}

impl BlockSizeBits {
    /// The four-bit tag.
    pub open spec fn code(self) -> u8 {
        match self {
            BlockSizeBits::B192 => 1,
            BlockSizeBits::B576 => 2,
            BlockSizeBits::B1152 => 3,
            BlockSizeBits::B2304 => 4,
            BlockSizeBits::B4608 => 5,
            BlockSizeBits::B256 => 8,
            BlockSizeBits::B512 => 9,
            BlockSizeBits::B1024 => 10,
            BlockSizeBits::B2048 => 11,
            BlockSizeBits::B4096 => 12,
            BlockSizeBits::B8192 => 13,
            BlockSizeBits::B16384 => 14,
            BlockSizeBits::B32768 => 15,
            BlockSizeBits::Uncommon8Bit(_) => 6,
            BlockSizeBits::Uncommon16Bit(_) => 7,
        }
    }

    /// The block size that the tag stands for.
    pub open spec fn size(self) -> nat {
        match self {
            BlockSizeBits::B192 => 192,
            BlockSizeBits::B576 => 576,
            BlockSizeBits::B1152 => 1152,
            BlockSizeBits::B2304 => 2304,
            BlockSizeBits::B4608 => 4608,
            BlockSizeBits::B256 => 256,
            BlockSizeBits::B512 => 512,
            BlockSizeBits::B1024 => 1024,
            BlockSizeBits::B2048 => 2048,
            BlockSizeBits::B4096 => 4096,
            BlockSizeBits::B8192 => 8192,
            BlockSizeBits::B16384 => 16384,
            BlockSizeBits::B32768 => 32768,
            BlockSizeBits::Uncommon8Bit(less_one) => less_one as nat + 1,
            BlockSizeBits::Uncommon16Bit(less_one) => less_one as nat + 1,
        }
    }

    /// The bytes that follow the coded number.
    pub open spec fn trailer(self) -> Seq<u8> {
        match self {
            BlockSizeBits::Uncommon8Bit(less_one) => seq![less_one],
            BlockSizeBits::Uncommon16Bit(less_one) => be16(less_one),
            _ => Seq::empty(),
        }
    }

    /// The tag of a block size: its own tag if it has one, else the size
    /// less one in one byte if that fits, else in two.
    pub open spec fn of(block_size: u16) -> BlockSizeBits {
        if block_size == 192 {
            BlockSizeBits::B192
        } else if block_size == 576 {
            BlockSizeBits::B576
        } else if block_size == 1152 {
            BlockSizeBits::B1152
        } else if block_size == 2304 {
            BlockSizeBits::B2304
        } else if block_size == 4608 {
            BlockSizeBits::B4608
        } else if block_size == 256 {
            BlockSizeBits::B256
        } else if block_size == 512 {
            BlockSizeBits::B512
        } else if block_size == 1024 {
            BlockSizeBits::B1024
        } else if block_size == 2048 {
            BlockSizeBits::B2048
        } else if block_size == 4096 {
            BlockSizeBits::B4096
        } else if block_size == 8192 {
            BlockSizeBits::B8192
        } else if block_size == 16384 {
            BlockSizeBits::B16384
        } else if block_size == 32768 {
            BlockSizeBits::B32768
        } else if block_size <= 256 {
            BlockSizeBits::Uncommon8Bit((block_size - 1) as u8)
        } else {
            BlockSizeBits::Uncommon16Bit((block_size - 1) as u16)
        }
    }

    /// The tag of a block size stands for that size.
    pub proof fn lemma_of_size(block_size: u16)
        requires
            block_size >= 1,
        ensures
            BlockSizeBits::of(block_size).size() == block_size,
    {
    }

    /// The tag of `block_size`.
    pub fn from_u16(block_size: u16) -> (tag: Self)
        requires
            block_size >= 1,
        ensures
            tag == BlockSizeBits::of(block_size),
            tag.size() == block_size,
    {
        match block_size {
            192 => Self::B192,
            576 => Self::B576,
            1152 => Self::B1152,
            2304 => Self::B2304,
            4608 => Self::B4608,
            256 => Self::B256,
            512 => Self::B512,
            1024 => Self::B1024,
            2048 => Self::B2048,
            4096 => Self::B4096,
            8192 => Self::B8192,
            16384 => Self::B16384,
            32768 => Self::B32768,
            _ => if block_size <= 256 {
                Self::Uncommon8Bit((block_size - 1) as u8)
            } else {
                Self::Uncommon16Bit(block_size - 1)
            },
        }
    }

    /// The four-bit tag.
    pub fn as_u8(&self) -> (tag: u8)
        ensures
            tag == self.code(),
            tag < 16,
    {
        match self {
            BlockSizeBits::B192 => 1,
            BlockSizeBits::B576 => 2,
            BlockSizeBits::B1152 => 3,
            BlockSizeBits::B2304 => 4,
            BlockSizeBits::B4608 => 5,
            BlockSizeBits::B256 => 8,
            BlockSizeBits::B512 => 9,
            BlockSizeBits::B1024 => 10,
            BlockSizeBits::B2048 => 11,
            BlockSizeBits::B4096 => 12,
            BlockSizeBits::B8192 => 13,
            BlockSizeBits::B16384 => 14,
            BlockSizeBits::B32768 => 15,
            BlockSizeBits::Uncommon8Bit(_) => 6,
            BlockSizeBits::Uncommon16Bit(_) => 7,
        }
    }
}

/// The tag of a sample rate. The three escapes carry the rate, which is
/// written after the coded number and the block size: in hertz in one byte
/// or in two, or in tens of hertz in two bytes.
#[derive(Clone, Copy)]
pub enum SampleRateBits {
    SampleRateOnlyStoredInTheStreaminfoMetadataBlock,
    KHz88_2,
    KHz176_4,
    KHz192,
    KHz8,
    KHz16,
    KHz22_05,
    KHz24,
    KHz32,
    KHz44_1,
    KHz48,
    KHz96,
    Uncommon8Bit(u8),
    Uncommon16Bit(u16),
    Uncommon16BitDiv10(u16),
}

impl SampleRateBits {
    /// The four-bit tag.
    pub open spec fn code(self) -> u8 {
        match self {
            SampleRateBits::SampleRateOnlyStoredInTheStreaminfoMetadataBlock => 0,
            SampleRateBits::KHz88_2 => 1,
            SampleRateBits::KHz176_4 => 2,
            SampleRateBits::KHz192 => 3,
            SampleRateBits::KHz8 => 4,
            SampleRateBits::KHz16 => 5,
            SampleRateBits::KHz22_05 => 6,
            SampleRateBits::KHz24 => 7,
            SampleRateBits::KHz32 => 8,
            SampleRateBits::KHz44_1 => 9,
            SampleRateBits::KHz48 => 10,
            SampleRateBits::KHz96 => 11,
            SampleRateBits::Uncommon8Bit(_) => 12,
            SampleRateBits::Uncommon16Bit(_) => 13,
            SampleRateBits::Uncommon16BitDiv10(_) => 14,
        }
    }

    /// The sample rate in hertz that the tag stands for, if it stands for
    /// one.
    pub open spec fn hertz(self) -> Option<nat> {
        match self {
            SampleRateBits::SampleRateOnlyStoredInTheStreaminfoMetadataBlock => None,
            SampleRateBits::KHz88_2 => Some(88200),
            SampleRateBits::KHz176_4 => Some(176400),
            SampleRateBits::KHz192 => Some(192000),
            SampleRateBits::KHz8 => Some(8000),
            SampleRateBits::KHz16 => Some(16000),
            SampleRateBits::KHz22_05 => Some(22050),
            SampleRateBits::KHz24 => Some(24000),
            SampleRateBits::KHz32 => Some(32000),
            SampleRateBits::KHz44_1 => Some(44100),
            SampleRateBits::KHz48 => Some(48000),
            SampleRateBits::KHz96 => Some(96000),
            SampleRateBits::Uncommon8Bit(rate) => Some(rate as nat),
            SampleRateBits::Uncommon16Bit(rate) => Some(rate as nat),
            SampleRateBits::Uncommon16BitDiv10(tens) => Some(10 * tens as nat),
        }
    }

    /// The bytes that follow the coded number and the block size.
    pub open spec fn trailer(self) -> Seq<u8> {
        match self {
            SampleRateBits::Uncommon8Bit(rate) => seq![rate],
            SampleRateBits::Uncommon16Bit(rate) => be16(rate),
            SampleRateBits::Uncommon16BitDiv10(tens) => be16(tens),
            _ => Seq::empty(),
        }
    }

    /// The tag of a sample rate: its own tag if it has one; else the rate in
    /// one byte if that fits, else in two; else a tenth of it in two bytes,
    /// if it is a multiple of ten and that fits; else the tag that leaves
    /// the rate to the stream information.
    pub open spec fn of(sample_rate: u32) -> SampleRateBits {
        if sample_rate == 88200 {
            SampleRateBits::KHz88_2
        } else if sample_rate == 176400 {
            SampleRateBits::KHz176_4
        } else if sample_rate == 192000 {
            SampleRateBits::KHz192
        } else if sample_rate == 8000 {
            SampleRateBits::KHz8
        } else if sample_rate == 16000 {
            SampleRateBits::KHz16
        } else if sample_rate == 22050 {
            SampleRateBits::KHz22_05
        } else if sample_rate == 24000 {
            SampleRateBits::KHz24
        } else if sample_rate == 32000 {
            SampleRateBits::KHz32
        } else if sample_rate == 44100 {
            SampleRateBits::KHz44_1
        } else if sample_rate == 48000 {
            SampleRateBits::KHz48
        } else if sample_rate == 96000 {
            SampleRateBits::KHz96
        } else if sample_rate <= 255 {
            SampleRateBits::Uncommon8Bit(sample_rate as u8)
        } else if sample_rate < 65536 {
            SampleRateBits::Uncommon16Bit(sample_rate as u16)
        } else if sample_rate % 10 == 0 && sample_rate / 10 < 65536 {
            SampleRateBits::Uncommon16BitDiv10((sample_rate / 10) as u16)
        } else {
            SampleRateBits::SampleRateOnlyStoredInTheStreaminfoMetadataBlock
        }
    }

    /// The tag of a sample rate stands for that rate, or leaves it to the
    /// stream information; it leaves it there only if the rate is above
    /// 65 535 and not a multiple of ten below 655 360.
    pub proof fn lemma_of_hertz(sample_rate: u32)
        ensures
            SampleRateBits::of(sample_rate).hertz() matches Some(rate) ==> rate == sample_rate,
            SampleRateBits::of(sample_rate).hertz() is None <==> sample_rate >= 65536 && !(
            sample_rate % 10 == 0 && sample_rate < 655360),
    {
    }

    /// The tag of `sample_rate`.
    pub fn from_u32(sample_rate: u32) -> (tag: Self)
        ensures
            tag == SampleRateBits::of(sample_rate),
    {
        match sample_rate {
            88200 => Self::KHz88_2,
            176400 => Self::KHz176_4,
            192000 => Self::KHz192,
            8000 => Self::KHz8,
            16000 => Self::KHz16,
            22050 => Self::KHz22_05,
            24000 => Self::KHz24,
            32000 => Self::KHz32,
            44100 => Self::KHz44_1,
            48000 => Self::KHz48,
            96000 => Self::KHz96,
            _ => if sample_rate <= 255 {
                Self::Uncommon8Bit(sample_rate as u8)
            } else if sample_rate < 65536 {
                Self::Uncommon16Bit(sample_rate as u16)
            } else if sample_rate % 10 == 0 && sample_rate / 10 < 65536 {
                Self::Uncommon16BitDiv10((sample_rate / 10) as u16)
            } else {
                Self::SampleRateOnlyStoredInTheStreaminfoMetadataBlock
            },
        }
    }

    /// The four-bit tag.
    pub fn as_u8(&self) -> (tag: u8)
        ensures
            tag == self.code(),
            tag < 16,
    {
        match self {
            SampleRateBits::SampleRateOnlyStoredInTheStreaminfoMetadataBlock => 0,
            SampleRateBits::KHz88_2 => 1,
            SampleRateBits::KHz176_4 => 2,
            SampleRateBits::KHz192 => 3,
            SampleRateBits::KHz8 => 4,
            SampleRateBits::KHz16 => 5,
            SampleRateBits::KHz22_05 => 6,
            SampleRateBits::KHz24 => 7,
            SampleRateBits::KHz32 => 8,
            SampleRateBits::KHz44_1 => 9,
            SampleRateBits::KHz48 => 10,
            SampleRateBits::KHz96 => 11,
            SampleRateBits::Uncommon8Bit(_) => 12,
            SampleRateBits::Uncommon16Bit(_) => 13,
            SampleRateBits::Uncommon16BitDiv10(_) => 14,
        }
    }
}

/// The channels of a frame and how they are stored.
#[derive(Clone, Copy)]
pub enum ChannelBits {
    Mono,
    LeftRight,
    LeftRightCenter,
    FrontleftFrontrightBackleftBackright,
    FrontleftFrontrightFrontcenterBackleftBackright,
    FrontleftFrontrightFrontcenterLfeBackleftBackright,
    FrontleftFrontrightFrontcenterLfeBackcenterSideleftSideright,
    FrontleftFrontrightFrontcenterLfeBackleftBackrightSideleftSideright,
    LeftRightStoredAsLeftMinusSideAndStereo,
    LeftRightStoredAsSideMinusightAndStereo,
    LeftRightStoredAsMidMinusSideAndStereo,
}

impl ChannelBits {
    /// The four-bit tag.
    pub open spec fn code(self) -> u8 {
        match self {
            ChannelBits::Mono => 0,
            ChannelBits::LeftRight => 1,
            ChannelBits::LeftRightCenter => 2,
            ChannelBits::FrontleftFrontrightBackleftBackright => 3,
            ChannelBits::FrontleftFrontrightFrontcenterBackleftBackright => 4,
            ChannelBits::FrontleftFrontrightFrontcenterLfeBackleftBackright => 5,
            ChannelBits::FrontleftFrontrightFrontcenterLfeBackcenterSideleftSideright => 6,
            ChannelBits::FrontleftFrontrightFrontcenterLfeBackleftBackrightSideleftSideright => 7,
            ChannelBits::LeftRightStoredAsLeftMinusSideAndStereo => 8,
            ChannelBits::LeftRightStoredAsSideMinusightAndStereo => 9,
            ChannelBits::LeftRightStoredAsMidMinusSideAndStereo => 10,
        }
    }

    /// The four-bit tag.
    pub fn as_u8(&self) -> (tag: u8)
        ensures
            tag == self.code(),
            tag < 16,
    {
        match self {
            ChannelBits::Mono => 0,
            ChannelBits::LeftRight => 1,
            ChannelBits::LeftRightCenter => 2,
            ChannelBits::FrontleftFrontrightBackleftBackright => 3,
            ChannelBits::FrontleftFrontrightFrontcenterBackleftBackright => 4,
            ChannelBits::FrontleftFrontrightFrontcenterLfeBackleftBackright => 5,
            ChannelBits::FrontleftFrontrightFrontcenterLfeBackcenterSideleftSideright => 6,
            ChannelBits::FrontleftFrontrightFrontcenterLfeBackleftBackrightSideleftSideright => 7,
            ChannelBits::LeftRightStoredAsLeftMinusSideAndStereo => 8,
            ChannelBits::LeftRightStoredAsSideMinusightAndStereo => 9,
            ChannelBits::LeftRightStoredAsMidMinusSideAndStereo => 10,
        }
    }
}

/// The tag of a bit depth.
#[derive(Clone, Copy)]
pub enum BitDepthBits {
    BitDepthOnlyStoredInTheStreaminfoMetadataBlock,
    BitsPerSample8,
    BitsPerSample12,
    BitsPerSample16,
    BitsPerSample20,
    BitsPerSample24,
    BitsPerSample32,
}

impl BitDepthBits {
    /// The three-bit tag.
    pub open spec fn code(self) -> u8 {
        match self {
            BitDepthBits::BitDepthOnlyStoredInTheStreaminfoMetadataBlock => 0,
            BitDepthBits::BitsPerSample8 => 1,
            BitDepthBits::BitsPerSample12 => 2,
            BitDepthBits::BitsPerSample16 => 4,
            BitDepthBits::BitsPerSample20 => 5,
            BitDepthBits::BitsPerSample24 => 6,
            BitDepthBits::BitsPerSample32 => 7,
        }
    }

    /// The tag of a bit depth: its own tag if it has one, else the tag that
    /// leaves the depth to the stream information.
    pub open spec fn of(bit_depth: u8) -> BitDepthBits {
        if bit_depth == 8 {
            BitDepthBits::BitsPerSample8
        } else if bit_depth == 12 {
            BitDepthBits::BitsPerSample12
        } else if bit_depth == 16 {
            BitDepthBits::BitsPerSample16
        } else if bit_depth == 20 {
            BitDepthBits::BitsPerSample20
        } else if bit_depth == 24 {
            BitDepthBits::BitsPerSample24
        } else if bit_depth == 32 {
            BitDepthBits::BitsPerSample32
        } else {
            BitDepthBits::BitDepthOnlyStoredInTheStreaminfoMetadataBlock
        }
    }

    /// The tag of `bit_depth`.
    pub fn from_u8(bit_depth: u8) -> (tag: Self)
        ensures
            tag == BitDepthBits::of(bit_depth),
    {
        match bit_depth {
            8 => Self::BitsPerSample8,
            12 => Self::BitsPerSample12,
            16 => Self::BitsPerSample16,
            20 => Self::BitsPerSample20,
            24 => Self::BitsPerSample24,
            32 => Self::BitsPerSample32,
            _ => Self::BitDepthOnlyStoredInTheStreaminfoMetadataBlock,
        }
    }

    /// The three-bit tag.
    pub fn as_u8(&self) -> (tag: u8)
        ensures
            tag == self.code(),
            tag < 8,
    {
        match self {
            BitDepthBits::BitDepthOnlyStoredInTheStreaminfoMetadataBlock => 0,
            BitDepthBits::BitsPerSample8 => 1,
            BitDepthBits::BitsPerSample12 => 2,
            BitDepthBits::BitsPerSample16 => 4,
            BitDepthBits::BitsPerSample20 => 5,
            BitDepthBits::BitsPerSample24 => 6,
            BitDepthBits::BitsPerSample32 => 7,
        }
    }
}

/// How many bytes the code of `n` takes.
pub open spec fn coded_len(n: nat) -> nat {
    if n < 0x80 {
        1
    } else if n < 0x800 {
        2
    } else if n < 0x1_0000 {
        3
    } else if n < 0x20_0000 {
        4
    } else if n < 0x400_0000 {
        5
    } else if n < 0x8000_0000 {
        6
    } else {
        7
    }
}

/// The code of a number below two to the 36: a number below 128 is one
/// byte; a larger one is a first byte with as many leading one bits as the
/// code has bytes, a zero bit and the highest bits of the number, and then
/// bytes that begin with `10` and hold six bits each.
pub open spec fn coded_number(n: nat) -> Seq<u8> {
    let len = coded_len(n);
    if len == 1 {
        seq![n as u8]
    } else {
        Seq::new(
            len,
            |i: int|
                if i == 0 {
                    (256 - pow2((8 - len) as nat) + n / pow2((6 * (len - 1)) as nat)) as u8
                } else {
                    (128 + (n / pow2((6 * (len - 1 - i)) as nat)) % 64) as u8
                },
        )
    }
}

/// The code of a number, length by length.
pub proof fn lemma_coded_number(n: nat)
    requires
        n < 0x10_0000_0000,
    ensures
        coded_len(n) == 1 ==> coded_number(n) == seq![n as u8],
        coded_len(n) == 2 ==> coded_number(n) == seq![
            (0xC0 + n / 0x40) as u8,
            (128 + n % 64) as u8,
        ],
        coded_len(n) == 3 ==> coded_number(n) == seq![
            (0xE0 + n / 0x1000) as u8,
            (128 + (n / 0x40) % 64) as u8,
            (128 + n % 64) as u8,
        ],
        coded_len(n) == 4 ==> coded_number(n) == seq![
            (0xF0 + n / 0x4_0000) as u8,
            (128 + (n / 0x1000) % 64) as u8,
            (128 + (n / 0x40) % 64) as u8,
            (128 + n % 64) as u8,
        ],
        coded_len(n) == 5 ==> coded_number(n) == seq![
            (0xF8 + n / 0x100_0000) as u8,
            (128 + (n / 0x4_0000) % 64) as u8,
            (128 + (n / 0x1000) % 64) as u8,
            (128 + (n / 0x40) % 64) as u8,
            (128 + n % 64) as u8,
        ],
        coded_len(n) == 6 ==> coded_number(n) == seq![
            (0xFC + n / 0x4000_0000) as u8,
            (128 + (n / 0x100_0000) % 64) as u8,
            (128 + (n / 0x4_0000) % 64) as u8,
            (128 + (n / 0x1000) % 64) as u8,
            (128 + (n / 0x40) % 64) as u8,
            (128 + n % 64) as u8,
        ],
        coded_len(n) == 7 ==> coded_number(n) == seq![
            (0xFE + n / 0x10_0000_0000) as u8,
            (128 + (n / 0x4000_0000) % 64) as u8,
            (128 + (n / 0x100_0000) % 64) as u8,
            (128 + (n / 0x4_0000) % 64) as u8,
            (128 + (n / 0x1000) % 64) as u8,
            (128 + (n / 0x40) % 64) as u8,
            (128 + n % 64) as u8,
        ],
{
    lemma2_to64();
    lemma2_to64_rest();
    assert(n / pow2(0) == n) by {
        assert(n as int / 1 == n);
    }
    if coded_len(n) == 2 {
        let want = seq![
            (0xC0 + n / 0x40) as u8,
            (128 + n % 64) as u8,
        ];
        assert(coded_number(n).len() == 2);
        assert(coded_number(n)[0] == want[0]);
        assert(coded_number(n)[1] == want[1]);
        assert(coded_number(n) =~= want);
    }
    if coded_len(n) == 3 {
        let want = seq![
            (0xE0 + n / 0x1000) as u8,
            (128 + (n / 0x40) % 64) as u8,
            (128 + n % 64) as u8,
        ];
        assert(coded_number(n).len() == 3);
        assert(coded_number(n)[0] == want[0]);
        assert(coded_number(n)[1] == want[1]);
        assert(coded_number(n)[2] == want[2]);
        assert(coded_number(n) =~= want);
    }
    if coded_len(n) == 4 {
        let want = seq![
            (0xF0 + n / 0x4_0000) as u8,
            (128 + (n / 0x1000) % 64) as u8,
            (128 + (n / 0x40) % 64) as u8,
            (128 + n % 64) as u8,
        ];
        assert(coded_number(n).len() == 4);
        assert(coded_number(n)[0] == want[0]);
        assert(coded_number(n)[1] == want[1]);
        assert(coded_number(n)[2] == want[2]);
        assert(coded_number(n)[3] == want[3]);
        assert(coded_number(n) =~= want);
    }
    if coded_len(n) == 5 {
        let want = seq![
            (0xF8 + n / 0x100_0000) as u8,
            (128 + (n / 0x4_0000) % 64) as u8,
            (128 + (n / 0x1000) % 64) as u8,
            (128 + (n / 0x40) % 64) as u8,
            (128 + n % 64) as u8,
        ];
        assert(coded_number(n).len() == 5);
        assert(coded_number(n)[0] == want[0]);
        assert(coded_number(n)[1] == want[1]);
        assert(coded_number(n)[2] == want[2]);
        assert(coded_number(n)[3] == want[3]);
        assert(coded_number(n)[4] == want[4]);
        assert(coded_number(n) =~= want);
    }
    if coded_len(n) == 6 {
        let want = seq![
            (0xFC + n / 0x4000_0000) as u8,
            (128 + (n / 0x100_0000) % 64) as u8,
            (128 + (n / 0x4_0000) % 64) as u8,
            (128 + (n / 0x1000) % 64) as u8,
            (128 + (n / 0x40) % 64) as u8,
            (128 + n % 64) as u8,
        ];
        assert(coded_number(n).len() == 6);
        assert(coded_number(n)[0] == want[0]);
        assert(coded_number(n)[1] == want[1]);
        assert(coded_number(n)[2] == want[2]);
        assert(coded_number(n)[3] == want[3]);
        assert(coded_number(n)[4] == want[4]);
        assert(coded_number(n)[5] == want[5]);
        assert(coded_number(n) =~= want);
    }
    if coded_len(n) == 7 {
        let want = seq![
            (0xFE + n / 0x10_0000_0000) as u8,
            (128 + (n / 0x4000_0000) % 64) as u8,
            (128 + (n / 0x100_0000) % 64) as u8,
            (128 + (n / 0x4_0000) % 64) as u8,
            (128 + (n / 0x1000) % 64) as u8,
            (128 + (n / 0x40) % 64) as u8,
            (128 + n % 64) as u8,
        ];
        assert(coded_number(n).len() == 7);
        assert(coded_number(n)[0] == want[0]);
        assert(coded_number(n)[1] == want[1]);
        assert(coded_number(n)[2] == want[2]);
        assert(coded_number(n)[3] == want[3]);
        assert(coded_number(n)[4] == want[4]);
        assert(coded_number(n)[5] == want[5]);
        assert(coded_number(n)[6] == want[6]);
        assert(coded_number(n) =~= want);
    }
}

/// A frame number or a sample number in its code of one to seven bytes.
pub struct CodedNum {
    length: u8,
    code: [u8; 7],
}

proof fn lemma_coded_bytes(num: u64)
    by (bit_vector)
    requires
        num < 0x10_0000_0000,
    ensures
        (0x80u8 | (0x3Fu8 & (num as u8))) == 128 + num % 64,
        (0x80u8 | (0x3Fu8 & ((num >> 6) as u8))) == 128 + (num / 0x40) % 64,
        (0x80u8 | (0x3Fu8 & ((num >> 12) as u8))) == 128 + (num / 0x1000) % 64,
        (0x80u8 | (0x3Fu8 & ((num >> 18) as u8))) == 128 + (num / 0x4_0000) % 64,
        (0x80u8 | (0x3Fu8 & ((num >> 24) as u8))) == 128 + (num / 0x100_0000) % 64,
        (0x80u8 | (0x3Fu8 & ((num >> 30) as u8))) == 128 + (num / 0x4000_0000) % 64,
        num < 0x80 ==> (num as u8) == num,
        num < 0x800 ==> (0xC0u8 | (0x1Fu8 & ((num >> 6) as u8))) == 0xC0 + num / 0x40,
        num < 0x1_0000 ==> (0xE0u8 | (0x0Fu8 & ((num >> 12) as u8))) == 0xE0 + num / 0x1000,
        num < 0x20_0000 ==> (0xF0u8 | (0x07u8 & ((num >> 18) as u8))) == 0xF0 + num / 0x4_0000,
        num < 0x400_0000 ==> (0xF8u8 | (0x03u8 & ((num >> 24) as u8))) == 0xF8 + num
            / 0x100_0000,
        num < 0x8000_0000 ==> (0xFCu8 | (0x01u8 & ((num >> 30) as u8))) == 0xFC + num
            / 0x4000_0000,
        num / 0x10_0000_0000 == 0,
{
}

impl CodedNum {
    #[verifier::type_invariant]
    closed spec fn inv(&self) -> bool {
        1 <= self.length <= 7
    }

    /// The bytes of the code.
    pub closed spec fn bytes(&self) -> Seq<u8> {
        self.code@.take(self.length as int)
    }

    /// The code of `num`.
    pub fn new(num: u64) -> (coded: Self)
        requires
            num < 0x10_0000_0000,
        ensures
            coded.bytes() == coded_number(num as nat),
    {
        proof {
            lemma_coded_bytes(num);
        }
        let b0 = 0x80u8 | (0x3Fu8 & #[verifier::truncate] (num as u8));
        let b1 = 0x80u8 | (0x3Fu8 & #[verifier::truncate] ((num >> 6) as u8));
        let b2 = 0x80u8 | (0x3Fu8 & #[verifier::truncate] ((num >> 12) as u8));
        let b3 = 0x80u8 | (0x3Fu8 & #[verifier::truncate] ((num >> 18) as u8));
        let b4 = 0x80u8 | (0x3Fu8 & #[verifier::truncate] ((num >> 24) as u8));
        let b5 = 0x80u8 | (0x3Fu8 & #[verifier::truncate] ((num >> 30) as u8));
        let (length, code): (u8, [u8; 7]) = if num < 0x80 {
            (1, [#[verifier::truncate] (num as u8), 0, 0, 0, 0, 0, 0])
        } else if num < 0x800 {
            (2, [0xC0u8 | (0x1Fu8 & #[verifier::truncate] ((num >> 6) as u8)), b0, 0, 0, 0, 0, 0])
        } else if num < 0x1_0000 {
            (
                3,
                [0xE0u8 | (0x0Fu8 & #[verifier::truncate] ((num >> 12) as u8)), b1, b0, 0, 0, 0, 0],
            )
        } else if num < 0x20_0000 {
            (
                4,
                [
                    0xF0u8 | (0x07u8 & #[verifier::truncate] ((num >> 18) as u8)),
                    b2,
                    b1,
                    b0,
                    0,
                    0,
                    0,
                ],
            )
        } else if num < 0x400_0000 {
            (
                5,
                [
                    0xF8u8 | (0x03u8 & #[verifier::truncate] ((num >> 24) as u8)),
                    b3,
                    b2,
                    b1,
                    b0,
                    0,
                    0,
                ],
            )
        } else if num < 0x8000_0000 {
            (
                6,
                [
                    0xFCu8 | (0x01u8 & #[verifier::truncate] ((num >> 30) as u8)),
                    b4,
                    b3,
                    b2,
                    b1,
                    b0,
                    0,
                ],
            )
        } else {
            (7, [0xFEu8, b5, b4, b3, b2, b1, b0])
        };
        let coded = Self { length, code };
        proof {
            lemma_coded_number(num as nat);
            assert(coded.bytes() =~= coded_number(num as nat));
        }
        coded
    }

    /// Writes the code.
    pub fn write<BS: ByteSink>(&self, sink: &mut BS)
        requires
            self.bytes().len() <= old(sink).room(),
        ensures
            final(sink).bytes() == old(sink).bytes() + self.bytes(),
            final(sink).room() == old(sink).room() - self.bytes().len(),
    {
        proof {
            use_type_invariant(self);
        }
        let length = self.length as usize;
        let mut i: usize = 0;
        while i < length
            invariant
                i <= length <= 7,
                length == self.length,
                sink.bytes() == old(sink).bytes() + self.bytes().take(i as int),
                sink.room() == old(sink).room() - i,
                self.bytes().len() == length,
                length <= old(sink).room(),
            decreases length - i,
        {
            sink.write(self.code[i]);
            i += 1;
            proof {
                assert(self.bytes().take(i as int) =~= self.bytes().take(i - 1).push(
                    self.code@[i - 1],
                ));
            }
        }
        proof {
            assert(self.bytes().take(length as int) =~= self.bytes());
        }
    }
}

/// The header of a frame.
pub struct FrameHeader {
    boundary: Boundary,
    block_size_bits: BlockSizeBits,
    sample_rate_bits: SampleRateBits,
    channel_bits: ChannelBits,
    bit_depth_bits: BitDepthBits,
    coded_num: CodedNum,
}

impl FrameHeader {
    /// The blocking strategy.
    pub closed spec fn boundary(&self) -> Boundary {
        self.boundary
    }

    /// The tag of the block size.
    pub closed spec fn block_size(&self) -> BlockSizeBits {
        self.block_size_bits
    }

    /// The tag of the sample rate.
    pub closed spec fn sample_rate(&self) -> SampleRateBits {
        self.sample_rate_bits
    }

    /// The channels.
    pub closed spec fn channels(&self) -> ChannelBits {
        self.channel_bits
    }

    /// The tag of the bit depth.
    pub closed spec fn bit_depth(&self) -> BitDepthBits {
        self.bit_depth_bits
    }

    /// The code of the frame number or of the sample number.
    pub closed spec fn coded(&self) -> Seq<u8> {
        self.coded_num.bytes()
    }

    /// The header up to its checksum: the sync word, the byte of the block
    /// size and the sample rate, the byte of the channels and the bit depth
    /// (its last bit zero), the coded number, and what the escapes of the
    /// block size and of the sample rate carry.
    pub open spec fn body(&self) -> Seq<u8> {
        be16(self.boundary().sync()) + seq![
            (16 * self.block_size().code() + self.sample_rate().code()) as u8,
            (16 * self.channels().code() + 2 * self.bit_depth().code()) as u8,
        ] + self.coded() + self.block_size().trailer() + self.sample_rate().trailer()
    }

    /// The bytes of the header: the body and its checksum.
    pub open spec fn encoding(&self) -> Seq<u8> {
        self.body().push(crc8(self.body(), 0x07, 0))
    }

    /// The header of frame `frame_number` of a stream of blocks of one size.
    pub fn new_fixed_size(
        block_size: u16,
        sample_rate: u32,
        channel_bits: ChannelBits,
        bit_depth: u8,
        frame_number: u64,
    ) -> (header: Self)
        requires
            block_size >= 1,
            frame_number < 0x10_0000_0000,
        ensures
            header.boundary() is FixedBlockSize,
            header.block_size() == BlockSizeBits::of(block_size),
            header.sample_rate() == SampleRateBits::of(sample_rate),
            header.channels() == channel_bits,
            header.bit_depth() == BitDepthBits::of(bit_depth),
            header.coded() == coded_number(frame_number as nat),
    {
        Self {
            boundary: Boundary::FixedBlockSize,
            block_size_bits: BlockSizeBits::from_u16(block_size),
            sample_rate_bits: SampleRateBits::from_u32(sample_rate),
            channel_bits,
            bit_depth_bits: BitDepthBits::from_u8(bit_depth),
            coded_num: CodedNum::new(frame_number),
        }
    }

    /// The header of the frame that begins with sample `sample_number`, in a
    /// stream of blocks of any size.
    pub fn new_variable_size(
        block_size: u16,
        sample_rate: u32,
        channel_bits: ChannelBits,
        bit_depth: u8,
        sample_number: u64,
    ) -> (header: Self)
        requires
            block_size >= 1,
            sample_number < 0x10_0000_0000,
        ensures
            header.boundary() is VariableBlockSize,
            header.block_size() == BlockSizeBits::of(block_size),
            header.sample_rate() == SampleRateBits::of(sample_rate),
            header.channels() == channel_bits,
            header.bit_depth() == BitDepthBits::of(bit_depth),
            header.coded() == coded_number(sample_number as nat),
    {
        Self {
            boundary: Boundary::VariableBlockSize,
            block_size_bits: BlockSizeBits::from_u16(block_size),
            sample_rate_bits: SampleRateBits::from_u32(sample_rate),
            channel_bits,
            bit_depth_bits: BitDepthBits::from_u8(bit_depth),
            coded_num: CodedNum::new(sample_number),
        }
    }

    /// A header takes at most sixteen bytes.
    pub proof fn lemma_encoding_len(&self)
        requires
            1 <= self.coded().len() <= 7,
        ensures
            6 <= self.encoding().len() <= 16,
    {
    }

    /// Writes the header.
    pub fn write<BS: ByteSink>(&self, sink: &mut BS)
        requires
            self.encoding().len() <= old(sink).room(),
        ensures
            final(sink).bytes() == old(sink).bytes() + self.encoding(),
            final(sink).room() == old(sink).room() - self.encoding().len(),
    {
        proof {
            use_type_invariant(&self.coded_num);
        }
        let mut buff: BufferByteSink<16> = BufferByteSink::new();
        let sync = self.boundary.as_u16();
        proof {
            lemma_be16_split(sync);
        }
        buff.write(#[verifier::truncate] ((sync >> 8) as u8));
        buff.write(#[verifier::truncate] ((sync & 0xFF) as u8));
        buff.write(self.block_size_bits.as_u8() * 16 + self.sample_rate_bits.as_u8());
        buff.write(self.channel_bits.as_u8() * 16 + self.bit_depth_bits.as_u8() * 2);
        self.coded_num.write(&mut buff);
        match self.block_size_bits {
            BlockSizeBits::Uncommon8Bit(byte) => buff.write(byte),
            BlockSizeBits::Uncommon16Bit(bytes) => {
                proof {
                    lemma_be16_split(bytes);
                }
                buff.write(#[verifier::truncate] ((bytes >> 8) as u8));
                buff.write(#[verifier::truncate] ((bytes & 0xFF) as u8));
            },
            _ => (),
        }
        match self.sample_rate_bits {
            SampleRateBits::Uncommon8Bit(byte) => buff.write(byte),
            SampleRateBits::Uncommon16Bit(bytes) | SampleRateBits::Uncommon16BitDiv10(bytes) => {
                proof {
                    lemma_be16_split(bytes);
                }
                buff.write(#[verifier::truncate] ((bytes >> 8) as u8));
                buff.write(#[verifier::truncate] ((bytes & 0xFF) as u8));
            },
            _ => (),
        }
        proof {
            assert(buff@ =~= self.body());
        }
        let crc = crc8_remainder(buff.as_slice(), 0b0000_0111, 0b0000_0000);
        buff.write(crc);
        copy_into(buff.as_slice(), sink);
    }
}

} // verus!
