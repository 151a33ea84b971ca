use flac_writer::frames::header::{
    BitDepthBits, BlockSizeBits, Boundary, ChannelBits, CodedNum, FrameHeader, SampleRateBits,
};
use flac_writer::utils::crc8_remainder;
use flac_writer::{copy_into, BufferByteSink};

fn coded(num: u64) -> Vec<u8> {
    let mut sink: BufferByteSink<7> = BufferByteSink::new();
    CodedNum::new(num).write(&mut sink);
    sink.as_slice().to_vec()
}

#[test]
fn coded_number() {
    assert_eq!(coded(0x7F), vec![0x7F]);
    assert_eq!(coded(0x80), vec![0xC2, 0x80]);
    let six = coded(0x7FFF_FFFF);
    assert_eq!(six.len(), 6);
    assert_eq!(six[0], 0xFD);
    assert_eq!(six, vec![0xFD, 0xBF, 0xBF, 0xBF, 0xBF, 0xBF]);
}

#[test]
fn coded_number_at_every_length() {
    assert_eq!(coded(0), vec![0x00]);
    assert_eq!(coded(0x7FF), vec![0xDF, 0xBF]);
    assert_eq!(coded(0x800), vec![0xE0, 0xA0, 0x80]);
    assert_eq!(coded(0xFFFF), vec![0xEF, 0xBF, 0xBF]);
    assert_eq!(coded(0x1_0000), vec![0xF0, 0x90, 0x80, 0x80]);
    assert_eq!(coded(0x1F_FFFF), vec![0xF7, 0xBF, 0xBF, 0xBF]);
    assert_eq!(coded(0x20_0000), vec![0xF8, 0x88, 0x80, 0x80, 0x80]);
    assert_eq!(coded(0x3FF_FFFF), vec![0xFB, 0xBF, 0xBF, 0xBF, 0xBF]);
    assert_eq!(coded(0x400_0000), vec![0xFC, 0x84, 0x80, 0x80, 0x80, 0x80]);
    assert_eq!(coded(0x8000_0000), vec![0xFE, 0x82, 0x80, 0x80, 0x80, 0x80, 0x80]);
    assert_eq!(coded(0xF_FFFF_FFFF), vec![0xFE, 0xBF, 0xBF, 0xBF, 0xBF, 0xBF, 0xBF]);
}

#[test]
fn sync_words() {
    assert_eq!(Boundary::FixedBlockSize.as_u16(), 0xFFF8);
    assert_eq!(Boundary::VariableBlockSize.as_u16(), 0xFFF9);
}

#[test]
fn block_size_tags() {
    assert!(matches!(BlockSizeBits::from_u16(192), BlockSizeBits::B192));
    assert!(matches!(BlockSizeBits::from_u16(576), BlockSizeBits::B576));
    assert!(matches!(BlockSizeBits::from_u16(1152), BlockSizeBits::B1152));
    assert!(matches!(BlockSizeBits::from_u16(2304), BlockSizeBits::B2304));
    assert!(matches!(BlockSizeBits::from_u16(4608), BlockSizeBits::B4608));
    assert!(matches!(BlockSizeBits::from_u16(256), BlockSizeBits::B256));
    assert!(matches!(BlockSizeBits::from_u16(512), BlockSizeBits::B512));
    assert!(matches!(BlockSizeBits::from_u16(1024), BlockSizeBits::B1024));
    assert!(matches!(BlockSizeBits::from_u16(2048), BlockSizeBits::B2048));
    assert!(matches!(BlockSizeBits::from_u16(4096), BlockSizeBits::B4096));
    assert!(matches!(BlockSizeBits::from_u16(8192), BlockSizeBits::B8192));
    assert!(matches!(BlockSizeBits::from_u16(16384), BlockSizeBits::B16384));
    assert!(matches!(BlockSizeBits::from_u16(32768), BlockSizeBits::B32768));
    assert_eq!(BlockSizeBits::from_u16(192).as_u8(), 0b0001);
    assert_eq!(BlockSizeBits::from_u16(4608).as_u8(), 0b0101);
    assert_eq!(BlockSizeBits::from_u16(256).as_u8(), 0b1000);
    assert_eq!(BlockSizeBits::from_u16(4096).as_u8(), 0b1100);
    assert_eq!(BlockSizeBits::from_u16(32768).as_u8(), 0b1111);
}

#[test]
fn block_size_escapes_carry_the_size_less_one() {
    assert!(matches!(BlockSizeBits::from_u16(1), BlockSizeBits::Uncommon8Bit(0)));
    assert!(matches!(BlockSizeBits::from_u16(100), BlockSizeBits::Uncommon8Bit(99)));
    assert!(matches!(BlockSizeBits::from_u16(255), BlockSizeBits::Uncommon8Bit(254)));
    assert!(matches!(BlockSizeBits::from_u16(257), BlockSizeBits::Uncommon16Bit(256)));
    assert!(matches!(BlockSizeBits::from_u16(1000), BlockSizeBits::Uncommon16Bit(999)));
    assert!(matches!(BlockSizeBits::from_u16(65535), BlockSizeBits::Uncommon16Bit(65534)));
    assert_eq!(BlockSizeBits::from_u16(100).as_u8(), 0b0110);
    assert_eq!(BlockSizeBits::from_u16(1000).as_u8(), 0b0111);
}

#[test]
fn sample_rate_tags() {
    assert!(matches!(SampleRateBits::from_u32(88_200), SampleRateBits::KHz88_2));
    assert!(matches!(SampleRateBits::from_u32(176_400), SampleRateBits::KHz176_4));
    assert!(matches!(SampleRateBits::from_u32(192_000), SampleRateBits::KHz192));
    assert!(matches!(SampleRateBits::from_u32(8_000), SampleRateBits::KHz8));
    assert!(matches!(SampleRateBits::from_u32(16_000), SampleRateBits::KHz16));
    assert!(matches!(SampleRateBits::from_u32(22_050), SampleRateBits::KHz22_05));
    assert!(matches!(SampleRateBits::from_u32(24_000), SampleRateBits::KHz24));
    assert!(matches!(SampleRateBits::from_u32(32_000), SampleRateBits::KHz32));
    assert!(matches!(SampleRateBits::from_u32(44_100), SampleRateBits::KHz44_1));
    assert!(matches!(SampleRateBits::from_u32(48_000), SampleRateBits::KHz48));
    assert!(matches!(SampleRateBits::from_u32(96_000), SampleRateBits::KHz96));
    assert_eq!(SampleRateBits::from_u32(88_200).as_u8(), 0b0001);
    assert_eq!(SampleRateBits::from_u32(44_100).as_u8(), 0b1001);
    assert_eq!(SampleRateBits::from_u32(96_000).as_u8(), 0b1011);
}

#[test]
fn sample_rate_escapes() {
    assert!(matches!(SampleRateBits::from_u32(0), SampleRateBits::Uncommon8Bit(0)));
    assert!(matches!(SampleRateBits::from_u32(255), SampleRateBits::Uncommon8Bit(255)));
    assert!(matches!(SampleRateBits::from_u32(256), SampleRateBits::Uncommon16Bit(256)));
    assert!(matches!(SampleRateBits::from_u32(12_345), SampleRateBits::Uncommon16Bit(12_345)));
    assert!(matches!(SampleRateBits::from_u32(65_535), SampleRateBits::Uncommon16Bit(65_535)));
    assert!(matches!(SampleRateBits::from_u32(65_540), SampleRateBits::Uncommon16BitDiv10(6_554)));
    assert!(matches!(SampleRateBits::from_u32(88_210), SampleRateBits::Uncommon16BitDiv10(8_821)));
    assert!(matches!(
        SampleRateBits::from_u32(655_350),
        SampleRateBits::Uncommon16BitDiv10(65_535)
    ));
    assert_eq!(SampleRateBits::from_u32(12).as_u8(), 0b1100);
    assert_eq!(SampleRateBits::from_u32(12_345).as_u8(), 0b1101);
    assert_eq!(SampleRateBits::from_u32(88_210).as_u8(), 0b1110);
}

#[test]
fn sample_rate_falls_back_to_the_stream_information() {
    assert!(matches!(
        SampleRateBits::from_u32(65_537),
        SampleRateBits::SampleRateOnlyStoredInTheStreaminfoMetadataBlock
    ));
    assert!(matches!(
        SampleRateBits::from_u32(655_360),
        SampleRateBits::SampleRateOnlyStoredInTheStreaminfoMetadataBlock
    ));
    assert!(matches!(
        SampleRateBits::from_u32(u32::MAX),
        SampleRateBits::SampleRateOnlyStoredInTheStreaminfoMetadataBlock
    ));
    assert_eq!(SampleRateBits::from_u32(65_537).as_u8(), 0b0000);
}

#[test]
fn bit_depth_tags() {
    assert!(matches!(BitDepthBits::from_u8(8), BitDepthBits::BitsPerSample8));
    assert!(matches!(BitDepthBits::from_u8(12), BitDepthBits::BitsPerSample12));
    assert!(matches!(BitDepthBits::from_u8(16), BitDepthBits::BitsPerSample16));
    assert!(matches!(BitDepthBits::from_u8(20), BitDepthBits::BitsPerSample20));
    assert!(matches!(BitDepthBits::from_u8(24), BitDepthBits::BitsPerSample24));
    assert!(matches!(BitDepthBits::from_u8(32), BitDepthBits::BitsPerSample32));
    assert!(matches!(
        BitDepthBits::from_u8(13),
        BitDepthBits::BitDepthOnlyStoredInTheStreaminfoMetadataBlock
    ));
    assert_eq!(BitDepthBits::from_u8(8).as_u8(), 0b001);
    assert_eq!(BitDepthBits::from_u8(12).as_u8(), 0b010);
    assert_eq!(BitDepthBits::from_u8(16).as_u8(), 0b100);
    assert_eq!(BitDepthBits::from_u8(20).as_u8(), 0b101);
    assert_eq!(BitDepthBits::from_u8(24).as_u8(), 0b110);
    assert_eq!(BitDepthBits::from_u8(32).as_u8(), 0b111);
    assert_eq!(BitDepthBits::from_u8(0).as_u8(), 0b000);
}

#[test]
fn channel_tags() {
    assert_eq!(ChannelBits::Mono.as_u8(), 0b0000);
    assert_eq!(ChannelBits::LeftRight.as_u8(), 0b0001);
    assert_eq!(ChannelBits::LeftRightCenter.as_u8(), 0b0010);
    assert_eq!(ChannelBits::FrontleftFrontrightBackleftBackright.as_u8(), 0b0011);
    assert_eq!(
        ChannelBits::FrontleftFrontrightFrontcenterLfeBackleftBackrightSideleftSideright.as_u8(),
        0b0111
    );
    assert_eq!(ChannelBits::LeftRightStoredAsLeftMinusSideAndStereo.as_u8(), 0b1000);
    assert_eq!(ChannelBits::LeftRightStoredAsSideMinusightAndStereo.as_u8(), 0b1001);
    assert_eq!(ChannelBits::LeftRightStoredAsMidMinusSideAndStereo.as_u8(), 0b1010);
}

#[test]
fn frame_header_fixed_size_mono() {
    let header = FrameHeader::new_fixed_size(4096, 44_100, ChannelBits::Mono, 16, 0);
    let mut sink: BufferByteSink<16> = BufferByteSink::new();
    header.write(&mut sink);
    let bytes = sink.as_slice();
    assert_eq!(bytes.len(), 6);
    assert_eq!(&bytes[..5], &[0xFF, 0xF8, 0xC9, 0x08, 0x00]);
    assert_eq!(bytes[5], crc8_remainder(&bytes[..5], 0x07, 0x00));
    assert_eq!(bytes[5], 0x95);
}

#[test]
fn frame_header_variable_size_with_both_trailers() {
    let header =
        FrameHeader::new_variable_size(1000, 12_345, ChannelBits::LeftRight, 24, 0x1_2345);
    let mut sink: BufferByteSink<16> = BufferByteSink::new();
    header.write(&mut sink);
    assert_eq!(
        sink.as_slice(),
        &[0xFF, 0xF9, 0x7D, 0x1C, 0xF0, 0x92, 0x8D, 0x85, 0x03, 0xE7, 0x30, 0x39, 0x2A]
    );
}

#[test]
fn frame_header_with_one_byte_trailers() {
    let header = FrameHeader::new_fixed_size(100, 88_210, ChannelBits::Mono, 8, 5);
    let mut sink: BufferByteSink<16> = BufferByteSink::new();
    header.write(&mut sink);
    assert_eq!(sink.as_slice(), &[0xFF, 0xF8, 0x6E, 0x02, 0x05, 0x63, 0x22, 0x75, 0x42]);
}

#[test]
fn frame_header_of_the_longest_kind_fills_sixteen_bytes() {
    let header = FrameHeader::new_variable_size(
        1000,
        12_345,
        ChannelBits::LeftRightStoredAsMidMinusSideAndStereo,
        32,
        0xF_FFFF_FFFF,
    );
    let mut sink: BufferByteSink<16> = BufferByteSink::new();
    header.write(&mut sink);
    let bytes = sink.as_slice();
    assert_eq!(bytes.len(), 16);
    assert_eq!(&bytes[..4], &[0xFF, 0xF9, 0x7D, 0xAE]);
    assert_eq!(&bytes[4..11], &[0xFE, 0xBF, 0xBF, 0xBF, 0xBF, 0xBF, 0xBF]);
    assert_eq!(&bytes[11..15], &[0x03, 0xE7, 0x30, 0x39]);
    assert_eq!(bytes[15], crc8_remainder(&bytes[..15], 0x07, 0x00));
    assert_eq!(crc8_remainder(bytes, 0x07, 0x00), 0);
}

#[test]
fn frame_header_goes_after_what_the_sink_holds() {
    let header = FrameHeader::new_fixed_size(4096, 44_100, ChannelBits::Mono, 16, 0);
    let mut sink: BufferByteSink<16> = BufferByteSink::new();
    copy_into(&[0xAA, 0xBB], &mut sink);
    header.write(&mut sink);
    assert_eq!(sink.as_slice(), &[0xAA, 0xBB, 0xFF, 0xF8, 0xC9, 0x08, 0x00, 0x95]);
}
