use flac_writer::frames::sub_frame::{
    residual_codeing, rice_code, signed_fold, unary_code, write_sample, Predictor,
    ResidualCodingMethod, RiceParams, SubFrame, SubFrameType,
};
use flac_writer::{BitSink, BitSinkAdapter, BufferByteSink, ByteSink};

#[test]
fn zig_zag_fold() {
    assert_eq!(signed_fold(0), 0);
    assert_eq!(signed_fold(-1), 1);
    assert_eq!(signed_fold(1), 2);
    assert_eq!(signed_fold(-2), 3);
    assert_eq!(signed_fold(2), 4);
    assert_eq!(signed_fold(i32::MAX), 4_294_967_294);
    assert_eq!(signed_fold(i32::MIN), 4_294_967_295);
}

#[test]
fn zig_zag_fold_has_an_inverse() {
    for n in [-1000i32, -3, -2, -1, 0, 1, 2, 3, 1000, i32::MIN, i32::MAX] {
        let u = signed_fold(n);
        let back = if u % 2 == 0 { (u / 2) as i64 } else { -(((u as i64) + 1) / 2) };
        assert_eq!(back, n as i64);
        if n >= 0 {
            assert_eq!(u as i64, 2 * (n as i64));
        } else {
            assert_eq!(u as i64, -2 * (n as i64) - 1);
        }
    }
}

#[test]
fn unary_code_in_chunks() {
    let mut sink: BufferByteSink<4> = BufferByteSink::new();
    let mut bit_sink = BitSinkAdapter::new(&mut sink);
    unary_code(20, &mut bit_sink);
    bit_sink.flush();
    assert_eq!(sink.as_slice(), &[0x00, 0x00, 0x08]);
}

#[test]
fn unary_code_of_zero_is_a_one_bit() {
    let mut sink: BufferByteSink<4> = BufferByteSink::new();
    let mut bit_sink = BitSinkAdapter::new(&mut sink);
    unary_code(0, &mut bit_sink);
    bit_sink.flush();
    assert_eq!(sink.as_slice(), &[0x80]);
}

#[test]
fn rice_code_is_quotient_and_remainder() {
    let mut sink: BufferByteSink<4> = BufferByteSink::new();
    let mut bit_sink = BitSinkAdapter::new(&mut sink);
    rice_code(3, 75, &mut bit_sink);
    bit_sink.flush();
    assert_eq!(sink.as_slice(), &[0x00, 0x58]);
}

#[test]
fn rice_code_with_parameter_zero_is_unary() {
    let mut sink: BufferByteSink<4> = BufferByteSink::new();
    let mut bit_sink = BitSinkAdapter::new(&mut sink);
    rice_code(0, 9, &mut bit_sink);
    bit_sink.flush();
    assert_eq!(sink.as_slice(), &[0x00, 0x40]);
}

#[test]
fn samples_in_twos_complement() {
    let mut sink: BufferByteSink<16> = BufferByteSink::new();
    let mut bit_sink = BitSinkAdapter::new(&mut sink);
    write_sample(-1, &mut bit_sink, 12, 0);
    write_sample(2047, &mut bit_sink, 12, 0);
    write_sample(-2048, &mut bit_sink, 12, 0);
    write_sample(5, &mut bit_sink, 12, 0);
    bit_sink.flush();
    assert_eq!(sink.as_slice(), &[0xFF, 0xF7, 0xFF, 0x80, 0x00, 0x05]);
}

#[test]
fn samples_of_every_width() {
    let mut sink: BufferByteSink<16> = BufferByteSink::new();
    let mut bit_sink = BitSinkAdapter::new(&mut sink);
    write_sample(0x1234_5678, &mut bit_sink, 32, 0);
    write_sample(-1, &mut bit_sink, 0, 0);
    write_sample(-2, &mut bit_sink, 32, 0);
    write_sample(-256, &mut bit_sink, 32, 8);
    bit_sink.flush();
    assert_eq!(
        sink.as_slice(),
        &[0x12, 0x34, 0x56, 0x78, 0xFF, 0xFF, 0xFF, 0xFE, 0xFF, 0xFF, 0xFF]
    );
}

#[test]
fn rice_parameter_field() {
    let mut sink: BufferByteSink<16> = BufferByteSink::new();
    let mut bit_sink = BitSinkAdapter::new(&mut sink);
    RiceParams::Param(2).write(&mut bit_sink, ResidualCodingMethod::Rice4Bits);
    RiceParams::Param(17).write(&mut bit_sink, ResidualCodingMethod::Rice5Bits);
    RiceParams::Escape(7).write(&mut bit_sink, ResidualCodingMethod::Rice4Bits);
    RiceParams::Escape(6).write(&mut bit_sink, ResidualCodingMethod::Rice5Bits);
    bit_sink.flush();
    // 0010 10001 1111 00111 11111 00110 and four zero bits
    assert_eq!(sink.as_slice(), &[0b0010_1000, 0b1111_1001, 0b1111_1110, 0b0110_0000]);
}

#[test]
fn method_tags() {
    assert_eq!(ResidualCodingMethod::Rice4Bits.as_u8(), 0b00);
    assert_eq!(ResidualCodingMethod::Rice5Bits.as_u8(), 0b01);
}

#[test]
fn residual_as_rice_code_and_raw() {
    let mut sink: BufferByteSink<16> = BufferByteSink::new();
    let mut bit_sink = BitSinkAdapter::new(&mut sink);
    residual_codeing(&RiceParams::Param(2), &mut bit_sink, 2);
    residual_codeing(&RiceParams::Param(2), &mut bit_sink, -3);
    residual_codeing(&RiceParams::Escape(4), &mut bit_sink, -3);
    bit_sink.flush();
    // 2 -> 4 -> 01 00; -3 -> 5 -> 01 01; -3 raw in four bits -> 1101
    assert_eq!(sink.as_slice(), &[0b0100_0101, 0b1101_0000]);
}

#[test]
fn subframe_type_tags() {
    assert_eq!(SubFrameType::Constant.as_u8(), 0b000_000);
    assert_eq!(SubFrameType::Verbatim.as_u8(), 0b000_001);
    assert_eq!(SubFrameType::FixedPredictorOrder0.as_u8(), 0b001_000);
    assert_eq!(SubFrameType::FixedPredictorOrder1.as_u8(), 0b001_001);
    assert_eq!(SubFrameType::FixedPredictorOrder2.as_u8(), 0b001_010);
    assert_eq!(SubFrameType::FixedPredictorOrder3.as_u8(), 0b001_011);
    assert_eq!(SubFrameType::FixedPredictorOrder4.as_u8(), 0b001_100);
    assert_eq!(SubFrameType::LinearPredictorOrder1.as_u8(), 0b100_000);
    assert_eq!(SubFrameType::LinearPredictorOrder10.as_u8(), 0b101_001);
    assert_eq!(SubFrameType::LinearPredictorOrder32.as_u8(), 0b111_111);
}

fn residuals<const ORDER: usize>(samples: &[i32]) -> Vec<i32> {
    let mut warm_up = [0i32; ORDER];
    warm_up.copy_from_slice(&samples[..ORDER]);
    let mut predictor = Predictor::new(warm_up);
    samples[ORDER..].iter().map(|&sample| predictor.next(sample)).collect()
}

#[test]
fn residuals_are_samples_less_predictions() {
    let samples = [5, 9, -3, 14, 2, 2, 100, -50];
    assert_eq!(residuals::<0>(&samples), vec![5, 9, -3, 14, 2, 2, 100, -50]);
    assert_eq!(residuals::<1>(&samples), vec![4, -12, 17, -12, 0, 98, -150]);
    assert_eq!(residuals::<2>(&samples), vec![-16, 29, -29, 12, 98, -248]);
    assert_eq!(residuals::<3>(&samples), vec![45, -58, 41, 86, -346]);
    assert_eq!(residuals::<4>(&samples), vec![-103, 99, 45, -432]);
}

#[test]
fn residuals_follow_the_formulas() {
    let s = [7i64, -2, 30, 31, 29, 1000, -1000, 0, 4];
    let samples: Vec<i32> = s.iter().map(|&x| x as i32).collect();
    let r2 = residuals::<2>(&samples);
    let r4 = residuals::<4>(&samples);
    for i in 2..s.len() {
        assert_eq!(r2[i - 2] as i64, s[i] - (2 * s[i - 1] - s[i - 2]));
    }
    for i in 4..s.len() {
        assert_eq!(
            r4[i - 4] as i64,
            s[i] - (4 * s[i - 1] - 6 * s[i - 2] + 4 * s[i - 3] - s[i - 4])
        );
    }
}

#[test]
fn predictions_of_large_samples_do_not_wrap() {
    let samples = [i32::MAX, i32::MAX, i32::MAX, i32::MAX, i32::MAX];
    assert_eq!(residuals::<4>(&samples), vec![0]);
    let samples = [i32::MIN, i32::MIN, i32::MIN, i32::MIN];
    assert_eq!(residuals::<3>(&samples), vec![0]);
}

fn encode<const N: usize>(sub_frame: &SubFrame<N>) -> Vec<u8> {
    let mut sink: BufferByteSink<64> = BufferByteSink::new();
    sub_frame.write(&mut sink);
    sink.as_slice().to_vec()
}

fn encode_with<const N: usize>(
    sub_frame: &SubFrame<N>,
    method: ResidualCodingMethod,
    params: RiceParams,
) -> Vec<u8> {
    let mut sink: BufferByteSink<64> = BufferByteSink::new();
    sub_frame.write_with(&mut sink, method, &params);
    sink.as_slice().to_vec()
}

#[test]
fn constant_subframe() {
    let sub_frame = SubFrame::new(SubFrameType::Constant, 0, 16, [42, 42, 42, 42]);
    assert_eq!(encode(&sub_frame), vec![0x00, 0x00, 0x2A]);
}

#[test]
fn constant_subframe_with_wasted_bits() {
    let sub_frame = SubFrame::new(SubFrameType::Constant, 3, 8, [-8]);
    assert_eq!(encode(&sub_frame), vec![0x01, 0x3F]);
}

#[test]
fn verbatim_subframe() {
    let sub_frame = SubFrame::new(SubFrameType::Verbatim, 0, 12, [-1, 2047, -2048, 5]);
    assert_eq!(encode(&sub_frame), vec![0x02, 0xFF, 0xF7, 0xFF, 0x80, 0x00, 0x05]);
}

#[test]
fn verbatim_subframe_with_wasted_bits() {
    let sub_frame = SubFrame::new(SubFrameType::Verbatim, 2, 16, [-4, 8, 1000, -32768]);
    assert_eq!(
        encode(&sub_frame),
        vec![0x03, 0x7F, 0xFF, 0x00, 0x08, 0x0F, 0xA8, 0x00, 0x00]
    );
}

#[test]
fn verbatim_subframe_without_samples() {
    let sub_frame: SubFrame<0> = SubFrame::new(SubFrameType::Verbatim, 0, 16, []);
    assert_eq!(encode(&sub_frame), vec![0x02]);
}

fn decode_verbatim(bytes: &[u8], bit_depth: u32, wasted_bits: u32, count: usize) -> Vec<i32> {
    let mut position = 8;
    if bytes[0] & 1 == 1 {
        while bytes[position / 8] >> (7 - position % 8) & 1 == 0 {
            position += 1;
        }
        position += 1;
    }
    let width = bit_depth - wasted_bits;
    let mut samples = Vec::new();
    for _ in 0..count {
        let mut value: i64 = 0;
        for _ in 0..width {
            value = 2 * value + (bytes[position / 8] >> (7 - position % 8) & 1) as i64;
            position += 1;
        }
        if value >= 1 << (width - 1) {
            value -= 1 << width;
        }
        samples.push((value << wasted_bits) as i32);
    }
    samples
}

#[test]
fn verbatim_subframe_decodes_to_its_samples() {
    let samples = [-32768, 32767, 0, -1, 1, 12345, -12345, 256];
    let sub_frame = SubFrame::new(SubFrameType::Verbatim, 0, 16, samples);
    assert_eq!(decode_verbatim(&encode(&sub_frame), 16, 0, 8), samples.to_vec());
    let samples = [-8_388_608, 8_388_607, 0, -1, 1];
    let sub_frame = SubFrame::new(SubFrameType::Verbatim, 0, 24, samples);
    assert_eq!(decode_verbatim(&encode(&sub_frame), 24, 0, 5), samples.to_vec());
    let samples = [i32::MIN, i32::MAX, 0, -1];
    let sub_frame = SubFrame::new(SubFrameType::Verbatim, 0, 32, samples);
    assert_eq!(decode_verbatim(&encode(&sub_frame), 32, 0, 4), samples.to_vec());
    let samples = [-64, 48, 16, -16];
    let sub_frame = SubFrame::new(SubFrameType::Verbatim, 4, 8, samples);
    assert_eq!(decode_verbatim(&encode(&sub_frame), 8, 4, 4), samples.to_vec());
}

#[test]
fn fixed_order_one_subframe() {
    let sub_frame = SubFrame::new(SubFrameType::FixedPredictorOrder1, 0, 8, [10, 12, 15, 19]);
    let bytes =
        encode_with(&sub_frame, ResidualCodingMethod::Rice4Bits, RiceParams::Param(2));
    assert_eq!(bytes[0], 0x12);
    assert_eq!(bytes[1], 0x0A);
    // 00 0000 0010, then 01 00, 01 10, 001 00, and one zero bit
    assert_eq!(bytes, vec![0x12, 0x0A, 0x00, 0x91, 0x88]);
}

#[test]
fn fixed_subframe_with_the_default_parameter() {
    let sub_frame = SubFrame::new(SubFrameType::FixedPredictorOrder1, 0, 8, [10, 12, 15, 19]);
    assert_eq!(encode(&sub_frame), vec![0x12, 0x0A, 0x01, 0x64, 0x9A, 0x80]);
    assert_eq!(
        encode(&sub_frame),
        encode_with(&sub_frame, ResidualCodingMethod::Rice4Bits, RiceParams::Param(5))
    );
}

#[test]
fn fixed_subframes_of_every_order() {
    let sub_frame = SubFrame::new(SubFrameType::FixedPredictorOrder0, 0, 8, [3, -3, 0, 100]);
    assert_eq!(
        encode_with(&sub_frame, ResidualCodingMethod::Rice4Bits, RiceParams::Param(1)),
        vec![
            0x10, 0x00, 0x44, 0x70, 0x00, 0x00, 0x00, 0x00, 0x00, 0x00, 0x00, 0x00, 0x00, 0x00,
            0x00, 0x00, 0x40
        ]
    );
    let sub_frame =
        SubFrame::new(SubFrameType::FixedPredictorOrder2, 0, 16, [100, 110, 125, 130, 120, 90]);
    assert_eq!(
        encode_with(&sub_frame, ResidualCodingMethod::Rice4Bits, RiceParams::Param(3)),
        vec![0x14, 0x00, 0x64, 0x00, 0x6E, 0x00, 0xD4, 0x58, 0xD0, 0xF0]
    );
    let sub_frame = SubFrame::new(
        SubFrameType::FixedPredictorOrder3,
        0,
        16,
        [1, 8, 27, 64, 125, 216, 340],
    );
    assert_eq!(
        encode_with(&sub_frame, ResidualCodingMethod::Rice5Bits, RiceParams::Param(0)),
        vec![
            0x16, 0x00, 0x01, 0x00, 0x08, 0x00, 0x1B, 0x40, 0x00, 0x01, 0x00, 0x08, 0x00, 0x40,
            0x80
        ]
    );
    let sub_frame = SubFrame::new(
        SubFrameType::FixedPredictorOrder4,
        0,
        16,
        [0, 1, 16, 81, 256, 625, 1296, 2400],
    );
    assert_eq!(
        encode_with(&sub_frame, ResidualCodingMethod::Rice5Bits, RiceParams::Param(17)),
        vec![
            0x18, 0x00, 0x00, 0x00, 0x01, 0x00, 0x10, 0x00, 0x51, 0x42, 0x30, 0x01, 0x84, 0x00,
            0x61, 0x00, 0x18, 0x40, 0x05, 0xC0
        ]
    );
}

#[test]
fn fixed_subframes_with_raw_residuals() {
    let sub_frame =
        SubFrame::new(SubFrameType::FixedPredictorOrder2, 0, 16, [100, 110, 125, 130, 120, 90]);
    assert_eq!(
        encode_with(&sub_frame, ResidualCodingMethod::Rice4Bits, RiceParams::Escape(7)),
        vec![0x14, 0x00, 0x64, 0x00, 0x6E, 0x03, 0xCE, 0x17, 0xB7, 0x1D, 0x80]
    );
    let sub_frame = SubFrame::new(SubFrameType::FixedPredictorOrder1, 1, 16, [2, -4, 6, -8]);
    assert_eq!(
        encode_with(&sub_frame, ResidualCodingMethod::Rice5Bits, RiceParams::Escape(6)),
        vec![0x13, 0x80, 0x01, 0x43, 0xE6, 0xE8, 0xAC, 0x80]
    );
}

#[test]
fn fixed_body_alone() {
    let sub_frame = SubFrame::new(SubFrameType::FixedPredictorOrder1, 0, 8, [10, 12, 15, 19]);
    let mut sink: BufferByteSink<16> = BufferByteSink::new();
    let mut bit_sink = BitSinkAdapter::new(&mut sink);
    bit_sink.write(0b1, 1);
    sub_frame.wirte_predictor::<1, _>(
        ResidualCodingMethod::Rice4Bits,
        &RiceParams::Param(2),
        &mut bit_sink,
    );
    bit_sink.flush();
    // a one bit, then the body of the subframe, one bit later than above
    assert_eq!(sink.as_slice(), &[0x85, 0x00, 0x48, 0xC4]);
}

#[test]
fn subframe_goes_after_what_the_sink_holds() {
    let sub_frame = SubFrame::new(SubFrameType::Constant, 0, 16, [42, 42, 42, 42]);
    let mut sink: BufferByteSink<8> = BufferByteSink::new();
    sink.write(0xEE);
    sub_frame.write(&mut sink);
    sink.write(0xDD);
    assert_eq!(sink.as_slice(), &[0xEE, 0x00, 0x00, 0x2A, 0xDD]);
}

#[test]
fn subframes_that_can_be_written() {
    assert!(SubFrame::new(SubFrameType::Constant, 0, 16, [42]).is_encodable());
    assert!(SubFrame::new(SubFrameType::Verbatim, 31, 32, [0, 1]).is_encodable());
    assert!(SubFrame::<0>::new(SubFrameType::Verbatim, 0, 4, []).is_encodable());
    assert!(SubFrame::new(SubFrameType::FixedPredictorOrder0, 0, 32, [i32::MIN, i32::MAX])
        .is_encodable());
    assert!(SubFrame::new(SubFrameType::FixedPredictorOrder4, 0, 16, [1, 2, 3, 4]).is_encodable());
    assert!(SubFrame::new(SubFrameType::FixedPredictorOrder1, 0, 32, [i32::MAX, 0]).is_encodable());
}

#[test]
fn subframes_that_cannot_be_written() {
    // as many wasted bits as the samples have, or more
    assert!(!SubFrame::new(SubFrameType::Verbatim, 16, 16, [0]).is_encodable());
    assert!(!SubFrame::new(SubFrameType::Verbatim, 17, 16, [0]).is_encodable());
    // samples of more than 32 bits
    assert!(!SubFrame::new(SubFrameType::Verbatim, 0, 33, [0]).is_encodable());
    // a constant without a sample
    assert!(!SubFrame::<0>::new(SubFrameType::Constant, 0, 16, []).is_encodable());
    // fewer samples than the predictor needs to warm up
    assert!(!SubFrame::new(SubFrameType::FixedPredictorOrder3, 0, 16, [1, 2]).is_encodable());
    // a residual of more than 32 bits
    assert!(!SubFrame::new(SubFrameType::FixedPredictorOrder1, 0, 32, [i32::MIN, i32::MAX])
        .is_encodable());
    let samples = [i32::MAX, i32::MIN, i32::MAX];
    assert!(!SubFrame::new(SubFrameType::FixedPredictorOrder2, 0, 32, samples).is_encodable());
    // the reserved kinds
    assert!(!SubFrame::new(SubFrameType::LinearPredictorOrder1, 0, 16, [0]).is_encodable());
    assert!(!SubFrame::new(SubFrameType::LinearPredictorOrder32, 0, 16, [0]).is_encodable());
}

#[test]
fn rice_parameters_that_can_be_written() {
    assert!(RiceParams::Param(0).is_valid(ResidualCodingMethod::Rice4Bits));
    assert!(RiceParams::Param(14).is_valid(ResidualCodingMethod::Rice4Bits));
    assert!(!RiceParams::Param(15).is_valid(ResidualCodingMethod::Rice4Bits));
    assert!(RiceParams::Param(30).is_valid(ResidualCodingMethod::Rice5Bits));
    assert!(!RiceParams::Param(31).is_valid(ResidualCodingMethod::Rice5Bits));
    assert!(RiceParams::Escape(0).is_valid(ResidualCodingMethod::Rice4Bits));
    assert!(RiceParams::Escape(31).is_valid(ResidualCodingMethod::Rice5Bits));
    assert!(!RiceParams::Escape(32).is_valid(ResidualCodingMethod::Rice4Bits));
}
