use flac_writer::metadata::application::{AppId, Application};
use flac_writer::metadata::padding::Padding;
use flac_writer::metadata::seek_table::SeekPoint;
use flac_writer::metadata::stream_info::StreamInfo;
use flac_writer::metadata::{write_be, MetaDataBlockHeader, MetaDataBlockType};
use flac_writer::BufferByteSink;

#[test]
fn big_endian_bytes() {
    let mut sink: BufferByteSink<32> = BufferByteSink::new();
    write_be(&mut sink, 0x1122_3344_5566_7788_9900_AABB_CCDD_EEFF, 16);
    write_be(&mut sink, 0x1122_3344, 3);
    write_be(&mut sink, 0x1122_3344, 0);
    write_be(&mut sink, 7, 2);
    assert_eq!(
        sink.as_slice(),
        &[
            0x11, 0x22, 0x33, 0x44, 0x55, 0x66, 0x77, 0x88, 0x99, 0x00, 0xAA, 0xBB, 0xCC, 0xDD,
            0xEE, 0xFF, 0x22, 0x33, 0x44, 0x00, 0x07
        ]
    );
}

#[test]
fn stream_info_of_a_fresh_stream() {
    let info = StreamInfo::new(44_100, 2, 16);
    let mut sink: BufferByteSink<37> = BufferByteSink::new();
    info.write(&mut sink);
    assert_eq!(
        sink.as_slice(),
        &[
            0x00, 0x00, 0x22, 0xFF, 0xFF, 0x00, 0x00, 0xFF, 0xFF, 0xFF, 0x00, 0x00, 0x00, 0x0A,
            0xC4, 0x42, 0xF0, 0x00, 0x00, 0x00, 0x00, 0x00, 0x00, 0x00, 0x00, 0x00, 0x00, 0x00,
            0x00, 0x00, 0x00, 0x00, 0x00, 0x00, 0x00, 0x00, 0x00
        ]
    );
}

#[test]
fn stream_info_follows_blocks_and_frames() {
    let mut info = StreamInfo::new(44_100, 2, 16);
    info.added_block_with(4096);
    info.added_frame_with(9000);
    info.added_block_with(1000);
    info.added_frame_with(14);
    info.added_block_with(4096);
    info.added_frame_with(8000);
    let mut sink: BufferByteSink<37> = BufferByteSink::new();
    info.write(&mut sink);
    assert_eq!(
        sink.as_slice(),
        &[
            0x00, 0x00, 0x22, 0x03, 0xE8, 0x10, 0x00, 0x00, 0x00, 0x0E, 0x00, 0x23, 0x28, 0x0A,
            0xC4, 0x42, 0xF0, 0x00, 0x00, 0x23, 0xE8, 0x00, 0x00, 0x00, 0x00, 0x00, 0x00, 0x00,
            0x00, 0x00, 0x00, 0x00, 0x00, 0x00, 0x00, 0x00, 0x00
        ]
    );
}

fn extremes(info: &StreamInfo) -> (u16, u16, u32, u32) {
    let mut sink: BufferByteSink<37> = BufferByteSink::new();
    info.write(&mut sink);
    let b = sink.as_slice();
    (
        u16::from_be_bytes([b[3], b[4]]),
        u16::from_be_bytes([b[5], b[6]]),
        u32::from_be_bytes([0, b[7], b[8], b[9]]),
        u32::from_be_bytes([0, b[10], b[11], b[12]]),
    )
}

#[test]
fn stream_info_extremes_are_monotone() {
    let mut info = StreamInfo::new(48_000, 1, 24);
    let mut before = extremes(&info);
    for (block, frame) in [(4096u16, 5000u32), (4096, 7000), (16, 20), (65_535, 3), (1, 9_999_999)]
    {
        info.added_block_with(block);
        info.added_frame_with(frame);
        let after = extremes(&info);
        assert!(after.0 <= before.0);
        assert!(after.1 >= before.1);
        assert!(after.2 <= before.2);
        assert!(after.3 >= before.3);
        before = after;
    }
    assert_eq!(before, (1, 65_535, 3, 9_999_999));
}

#[test]
fn stream_info_with_the_largest_fields() {
    let mut info = StreamInfo::new(0xF_FFFF, 8, 32);
    info.added_block_with(16);
    info.added_block_with(65_535);
    info.added_frame_with(1);
    info.added_frame_with(0xAB_CDEF);
    let mut sink: BufferByteSink<37> = BufferByteSink::new();
    info.write(&mut sink);
    let bytes = sink.as_slice();
    assert_eq!(
        &bytes[..13],
        &[0x00, 0x00, 0x22, 0x00, 0x10, 0xFF, 0xFF, 0x00, 0x00, 0x01, 0xAB, 0xCD, 0xEF]
    );
    assert_eq!(&bytes[13..17], &[0xFF, 0xFF, 0xFF, 0xF0]);
    assert_eq!(&bytes[17..21], &[0x00, 0x01, 0x00, 0x0F]);
}

#[test]
fn padding_block() {
    let mut sink: BufferByteSink<16> = BufferByteSink::new();
    Padding::<5>.write(&mut sink);
    assert_eq!(sink.as_slice(), &[0x00, 0x00, 0x05, 0, 0, 0, 0, 0]);
}

#[test]
fn padding_block_of_no_bytes() {
    let mut sink: BufferByteSink<16> = BufferByteSink::new();
    Padding::<0>.write(&mut sink);
    assert_eq!(sink.as_slice(), &[0x00, 0x00, 0x00]);
}

#[test]
fn application_identifiers() {
    assert_eq!(AppId::FlacFile.id(), 0x4154_4348);
    assert_eq!(AppId::FlacRiffChunkStorage.id(), 0x7269_6666);
    assert_eq!(AppId::XBAT.id(), 0x7862_6174);
    assert_eq!(AppId::Xmcd.id(), 0x786D_6364);
    assert_eq!(AppId::Other(0xDEAD_BEEF).id(), 0xDEAD_BEEF);
}

#[test]
fn application_block() {
    let mut application: Application<3> = Application::new(AppId::FlacRiffChunkStorage);
    application.app_data = [1, 2, 3];
    let mut sink: BufferByteSink<16> = BufferByteSink::new();
    application.write(&mut sink);
    assert_eq!(sink.as_slice(), &[0x00, 0x00, 0x07, 0x72, 0x69, 0x66, 0x66, 1, 2, 3]);
}

#[test]
fn application_block_starts_with_zero_data() {
    let application: Application<2> = Application::new(AppId::Other(0x0102_0304));
    let mut sink: BufferByteSink<16> = BufferByteSink::new();
    application.write(&mut sink);
    assert_eq!(sink.as_slice(), &[0x00, 0x00, 0x06, 0x01, 0x02, 0x03, 0x04, 0, 0]);
}

#[test]
fn seek_point() {
    let point = SeekPoint::new(0x0102_0304_0506_0708, 0xA1A2_A3A4_A5A6_A7A8, 0x1234);
    let mut sink: BufferByteSink<18> = BufferByteSink::new();
    point.write(&mut sink);
    assert_eq!(
        sink.as_slice(),
        &[
            0x01, 0x02, 0x03, 0x04, 0x05, 0x06, 0x07, 0x08, 0xA1, 0xA2, 0xA3, 0xA4, 0xA5, 0xA6,
            0xA7, 0xA8, 0x12, 0x34
        ]
    );
}

#[test]
fn block_type_codes() {
    assert_eq!(MetaDataBlockType::<0>::StreamInfo(StreamInfo::new(0, 1, 4)).as_byte(), 0);
    assert_eq!(MetaDataBlockType::<0>::Padding(Padding::<0>).as_byte(), 1);
    assert_eq!(
        MetaDataBlockType::<0>::Application(Application::new(AppId::Xmcd)).as_byte(),
        2
    );
    assert_eq!(MetaDataBlockType::<0>::SeekTable.as_byte(), 3);
    assert_eq!(MetaDataBlockType::<0>::VorbisComent.as_byte(), 4);
    assert_eq!(MetaDataBlockType::<0>::CueSheet.as_byte(), 5);
    assert_eq!(MetaDataBlockType::<0>::Picture.as_byte(), 6);
}

#[test]
fn metadata_block_with_its_first_byte() {
    let block: MetaDataBlockHeader<4> =
        MetaDataBlockHeader::new(false, MetaDataBlockType::Padding(Padding::<4>));
    let mut sink: BufferByteSink<16> = BufferByteSink::new();
    block.write(&mut sink);
    assert_eq!(sink.as_slice(), &[0x01, 0x00, 0x00, 0x04, 0, 0, 0, 0]);
}

#[test]
fn last_metadata_block_has_its_top_bit_set() {
    let block: MetaDataBlockHeader<1> = MetaDataBlockHeader::new(
        true,
        MetaDataBlockType::Application(Application::new(AppId::XBAT)),
    );
    let mut sink: BufferByteSink<16> = BufferByteSink::new();
    block.write(&mut sink);
    assert_eq!(sink.as_slice(), &[0x82, 0x00, 0x00, 0x05, 0x78, 0x62, 0x61, 0x74, 0]);
}

#[test]
fn stream_info_block() {
    let info = StreamInfo::new(44_100, 2, 16);
    let block: MetaDataBlockHeader<0> =
        MetaDataBlockHeader::new(true, MetaDataBlockType::StreamInfo(info));
    let mut sink: BufferByteSink<38> = BufferByteSink::new();
    block.write(&mut sink);
    let bytes = sink.as_slice();
    assert_eq!(bytes.len(), 38);
    assert_eq!(&bytes[..4], &[0x80, 0x00, 0x00, 0x22]);
    assert_eq!(&bytes[14..18], &[0x0A, 0xC4, 0x42, 0xF0]);
}
