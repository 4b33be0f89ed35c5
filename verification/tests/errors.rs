use h264::bits::{BitReader, BitWriter};
use h264::cabac::{CabacDecoder, ContextState};
use h264::cavlc::{decode_residual_block, encode_residual_block, write_level};
use h264::deblock::{filter_picture, BlockMotion, MacroblockParameters, Parameters, Picture};
use h264::error::{Error, ExceededLimits, Fault};
use h264::frame::{
    validate_dimensions, ColorDescription, FieldOrder, FrameTiming, PixelFormat, Plane, Rational,
    Timestamp, VideoFrame,
};
use h264::framing::encode_avcc;
use h264::golomb::{write_reference_index, write_se, write_ue};
use h264::hrd::{EncoderHrd, HrdState};
use h264::levels::{level_at, negotiate_level, LevelPreference, LevelRequirements};
use h264::nal::{annex_b_nal_units, length_prefixed_nal_units, AvcDecoderConfigurationRecord};
use h264::option_map::OptionMap;
use h264::rate::RateControl;
use h264::settings::VideoEncoderSettings;
use h264::H264Encoder;

fn rational(numerator: i64, denominator: i64) -> Rational {
    Rational { numerator, denominator }
}

fn ticks(value: i64, numerator: i64, denominator: i64) -> Timestamp {
    Timestamp { value, time_base: rational(numerator, denominator) }
}

fn option_map(options: &[(&str, &str)]) -> OptionMap {
    let mut map = OptionMap::new();
    for (name, value) in options {
        map.insert(name.to_string(), value.to_string());
    }
    map
}

fn settings(options: &[(&str, &str)]) -> VideoEncoderSettings {
    VideoEncoderSettings {
        width: 16,
        height: 16,
        pixel_format: PixelFormat::Yuv420p8,
        time_base: rational(1, 25),
        bitrate: None,
        options: option_map(options),
    }
}

fn plane(width: usize, height: usize) -> Plane {
    Plane { data: vec![100; width * height], stride: width, width, height }
}

fn frame() -> VideoFrame {
    VideoFrame {
        format: PixelFormat::Yuv420p8,
        width: 16,
        height: 16,
        planes: vec![plane(16, 16), plane(8, 8), plane(8, 8)],
        timing: FrameTiming { pts: Some(ticks(0, 1, 25)), duration: Some(ticks(1, 1, 25)) },
        color: ColorDescription { primaries: None, transfer: None, matrix: None, full_range: None },
        field_order: FieldOrder::Progressive,
    }
}

fn refusal(settings: &VideoEncoderSettings) -> Error {
    H264Encoder::default().configure(settings).unwrap_err()
}

fn send_refusal(frame: VideoFrame) -> Error {
    let mut encoder = H264Encoder::default();
    encoder.configure(&settings(&[])).unwrap();
    encoder.send_frame(frame).unwrap_err()
}

#[test]
fn malformed_byte_streams_are_told_apart() {
    assert_eq!(
        annex_b_nal_units(&[1, 2, 3]).unwrap_err(),
        Error::InvalidData(Fault::NoStartCode)
    );
    assert_eq!(
        annex_b_nal_units(&[0, 0, 1]).unwrap_err(),
        Error::InvalidData(Fault::NoPayload)
    );
    assert_eq!(
        annex_b_nal_units(&[0, 0, 1, 0x80]).unwrap_err(),
        Error::InvalidData(Fault::ForbiddenZeroBit)
    );
}

#[test]
fn malformed_samples_are_told_apart() {
    assert_eq!(
        length_prefixed_nal_units(&[0], 5).unwrap_err(),
        Error::InvalidData(Fault::LengthSize)
    );
    assert_eq!(
        length_prefixed_nal_units(&[0], 2).unwrap_err(),
        Error::InvalidData(Fault::TruncatedLength)
    );
    assert_eq!(
        length_prefixed_nal_units(&[0, 0], 2).unwrap_err(),
        Error::InvalidData(Fault::ZeroLength)
    );
    assert_eq!(
        length_prefixed_nal_units(&[0, 2, 0x65], 2).unwrap_err(),
        Error::InvalidData(Fault::TruncatedUnit)
    );
    assert_eq!(
        length_prefixed_nal_units(&[0, 1, 0x80], 2).unwrap_err(),
        Error::InvalidData(Fault::ForbiddenZeroBit)
    );
}

#[test]
fn malformed_configuration_records_are_told_apart() {
    let parse = |data: &[u8]| AvcDecoderConfigurationRecord::parse(data).unwrap_err();
    assert_eq!(
        parse(&[2, 66, 0, 10, 0xff, 0xe0, 0]),
        Error::InvalidData(Fault::ConfigurationRecord)
    );
    assert_eq!(
        parse(&[1, 66, 0, 10, 0xff, 0xe1, 0]),
        Error::InvalidData(Fault::TruncatedSetLength)
    );
    assert_eq!(
        parse(&[1, 66, 0, 10, 0xff, 0xe1, 0, 3, 1]),
        Error::InvalidData(Fault::TruncatedSet)
    );
    assert_eq!(
        parse(&[1, 66, 0, 10, 0xff, 0xe1, 0, 0]),
        Error::InvalidData(Fault::EmptySet)
    );
    assert_eq!(
        parse(&[1, 66, 0, 10, 0xff, 0xe1, 0, 1, 0x67]),
        Error::InvalidData(Fault::TruncatedPictureCount)
    );
}

#[test]
fn parameter_sets_must_fit_their_record() {
    assert_eq!(
        encode_avcc(&[0x67, 1], &[0x68]).unwrap_err(),
        Error::InvalidData(Fault::ShortSequenceSet)
    );
    assert_eq!(
        encode_avcc(&vec![0x67; 65_536], &[0x68]).unwrap_err(),
        Error::InvalidData(Fault::LongSequenceSet)
    );
    assert_eq!(
        encode_avcc(&[0x67, 66, 0, 10], &vec![0x68; 65_536]).unwrap_err(),
        Error::InvalidData(Fault::LongPictureSet)
    );
}

#[test]
fn codes_have_their_limits() {
    let mut writer = BitWriter::new();
    assert_eq!(
        write_ue(&mut writer, u64::MAX).unwrap_err(),
        Error::InvalidData(Fault::UnsignedGolomb)
    );
    assert_eq!(
        write_se(&mut writer, i64::MIN).unwrap_err(),
        Error::InvalidData(Fault::SignedGolomb)
    );
    assert_eq!(
        write_reference_index(&mut writer, 2, 1).unwrap_err(),
        Error::InvalidData(Fault::ReferenceIndex)
    );
    assert!(writer.into_bytes().is_empty());
    assert_eq!(
        BitReader::new(&[]).read_bit().unwrap_err(),
        Error::InvalidData(Fault::EndOfData)
    );
}

#[test]
fn residual_blocks_have_their_limits() {
    let mut writer = BitWriter::new();
    assert_eq!(
        encode_residual_block(&mut writer, 0, &[0; 300]).unwrap_err(),
        Error::InvalidData(Fault::CoefficientCount)
    );
    assert_eq!(
        encode_residual_block(&mut writer, 0, &[0; 5]).unwrap_err(),
        Error::Unsupported(Fault::CoefficientCount)
    );
    assert_eq!(
        encode_residual_block(&mut writer, -1, &[1; 16]).unwrap_err(),
        Error::InvalidData(Fault::CoefficientToken)
    );
    assert_eq!(
        write_level(&mut writer, 1, 0, true).unwrap_err(),
        Error::InvalidData(Fault::TrailingLevel)
    );
    assert_eq!(
        write_level(&mut writer, i32::MAX, 0, false).unwrap_err(),
        Error::Unsupported(Fault::LevelRange)
    );
    assert_eq!(
        decode_residual_block(&mut BitReader::new(&[0x80]), 0, 5).unwrap_err(),
        Error::Unsupported(Fault::CoefficientCount)
    );
    assert_eq!(
        decode_residual_block(&mut BitReader::new(&[]), 0, 16).unwrap_err(),
        Error::InvalidData(Fault::EndOfData)
    );
    // One coefficient without a trailing one, then a level prefix that does not end.
    let data = [0b0001_0100, 0, 0, 0, 0, 0, 0];
    assert_eq!(
        decode_residual_block(&mut BitReader::new(&data), 0, 16).unwrap_err(),
        Error::InvalidData(Fault::LevelPrefix)
    );
}

#[test]
fn arithmetic_decoding_has_its_limits() {
    assert_eq!(
        ContextState::from_mn(0, 0, 52).unwrap_err(),
        Error::InvalidData(Fault::ContextQuantizer)
    );
    let mut misaligned = BitReader::new(&[0x80, 0x00]);
    misaligned.skip_bits(1).unwrap();
    assert_eq!(
        CabacDecoder::new(&mut misaligned).err(),
        Some(Error::InvalidData(Fault::AlignmentBit))
    );
    assert_eq!(
        CabacDecoder::new(&mut BitReader::new(&[0xff, 0x80])).err(),
        Some(Error::InvalidData(Fault::InitialOffset))
    );
    let mut bits = BitReader::new(&[0x00, 0x00]);
    let mut decoder = CabacDecoder::new(&mut bits).unwrap();
    let error = (0..64).find_map(|_| decoder.bypass().err());
    assert_eq!(error, Some(Error::InvalidData(Fault::ZeroPadding)));
}

#[test]
fn filtering_needs_a_parameter_for_each_macroblock() {
    let mut luma = vec![0; 256];
    let mut cb = vec![0; 64];
    let mut cr = vec![0; 64];
    let off =
        MacroblockParameters { parameters: None, slice_id: 0, filter_across_slice_boundaries: true };
    let mut picture = Picture {
        luma: &mut luma,
        cb: &mut cb,
        cr: &mut cr,
        coded_width: 16,
        coded_height: 16,
        luma_qp: &[26],
        chroma_qp_offset_cb: 0,
        chroma_qp_offset_cr: 0,
        macroblock_intra: &[true],
        transform_8x8: &[false],
        luma_nonzero: &[[0; 16]],
        motion: &[[BlockMotion::default(); 16]],
    };
    assert!(filter_picture(&mut picture, &[off]).is_ok());
    assert!(filter_picture(&mut picture, &[off, off]).is_err());
}

#[test]
fn dimensions_must_be_even_and_not_zero() {
    assert_eq!(
        validate_dimensions(0, 16).unwrap_err(),
        Error::InvalidData(Fault::ZeroDimensions)
    );
    assert_eq!(
        validate_dimensions(17, 16).unwrap_err(),
        Error::Unsupported(Fault::OddDimensions)
    );
    assert!(validate_dimensions(18, 20).is_ok());
}

#[test]
fn frames_must_match_the_sequence() {
    let mut other = frame();
    other.width = 18;
    assert_eq!(send_refusal(other), Error::InvalidData(Fault::FrameMismatch));
    let mut other = frame();
    other.field_order = FieldOrder::TopFieldFirst;
    assert_eq!(send_refusal(other), Error::Unsupported(Fault::Interlaced));
    let mut other = frame();
    other.planes.pop();
    assert_eq!(send_refusal(other), Error::InvalidData(Fault::PlaneCount));
    let mut other = frame();
    other.planes[1].width = 7;
    assert_eq!(send_refusal(other), Error::InvalidData(Fault::PlaneShape));
    let mut other = frame();
    other.planes[0].stride = usize::MAX;
    assert_eq!(send_refusal(other), Error::InvalidData(Fault::PlaneOverflow));
    let mut other = frame();
    other.planes[2].data.truncate(63);
    assert_eq!(send_refusal(other), Error::InvalidData(Fault::PlaneTruncated));
}

#[test]
fn the_encoder_must_be_configured_and_open() {
    let mut encoder = H264Encoder::default();
    let unset = Error::InvalidState(Fault::NotConfigured);
    assert_eq!(encoder.send_frame(frame()).unwrap_err(), unset);
    assert_eq!(encoder.receive_packet().unwrap_err(), unset);
    assert_eq!(encoder.receive_reconstructed_frame().unwrap_err(), unset);
    assert_eq!(encoder.flush().unwrap_err(), unset);
    encoder.configure(&settings(&[])).unwrap();
    encoder.flush().unwrap();
    assert_eq!(
        encoder.send_frame(frame()).unwrap_err(),
        Error::InvalidState(Fault::Flushed)
    );
}

#[test]
fn settings_that_do_not_go_together_are_told_apart() {
    for (options, fault) in [
        (vec![("speed", "1")], Fault::OptionName),
        (vec![("qp", "52")], Fault::OptionValue),
        (vec![("max_refs", "2")], Fault::InterOnly),
        (vec![("mode", "inter"), ("b_direct", "temporal")], Fault::TemporalOnly),
        (vec![("aq_strength", "1")], Fault::AdaptivePlain),
        (vec![("vbv_buffer_ms", "1000")], Fault::BufferWithoutRate),
        (
            vec![("mode", "inter"), ("b_frames", "1"), ("profile", "baseline")],
            Fault::ProfileBetween,
        ),
        (vec![("entropy", "cabac"), ("profile", "baseline")], Fault::ProfileArithmetic),
        (vec![("mode", "intra8"), ("profile", "main")], Fault::ProfileIntra8),
        (
            vec![
                ("mode", "intra4"),
                ("profile", "main"),
                ("qp", "0"),
                ("transform_bypass", "true"),
            ],
            Fault::ProfileBypass,
        ),
        (vec![("mode", "intra8"), ("qp", "0"), ("transform_bypass", "true")], Fault::BypassMode),
        (vec![("mode", "intra4"), ("transform_bypass", "true")], Fault::BypassQuantizer),
        (
            vec![("mode", "intra4"), ("profile", "main"), ("scaling_matrix", "jvt")],
            Fault::ProfileScaling,
        ),
        (
            vec![
                ("mode", "intra4"),
                ("qp", "0"),
                ("scaling_matrix", "jvt"),
                ("transform_bypass", "true"),
            ],
            Fault::BypassScaling,
        ),
    ] {
        assert_eq!(refusal(&settings(&options)), Error::Unsupported(fault), "{options:?}");
    }
}

#[test]
fn pictures_and_rates_have_their_limits() {
    let mut wished = settings(&[]);
    wished.pixel_format = PixelFormat::Rgb24;
    assert_eq!(refusal(&wished), Error::Unsupported(Fault::InputFormat));
    let mut wished = settings(&[]);
    wished.width = 16 * 40_000;
    assert_eq!(refusal(&wished), Error::Unsupported(Fault::TooManyMacroblocks));
    let mut wished = settings(&[]);
    wished.time_base = rational(0, 25);
    assert_eq!(refusal(&wished), Error::Unsupported(Fault::TimeBase));
    let mut wished = settings(&[]);
    wished.bitrate = Some(100_000);
    assert_eq!(refusal(&wished), Error::Unsupported(Fault::RatePlain));
    let mut wished = settings(&[("mode", "intra4")]);
    wished.bitrate = Some(0);
    assert_eq!(refusal(&wished), Error::Unsupported(Fault::RateUnit));
    let mut wished = settings(&[]);
    wished.time_base = rational(1, 1_000_000_000);
    assert_eq!(refusal(&wished), Error::Unsupported(Fault::NoLevel));
    assert_eq!(
        RateControl::new(u64::MAX, rational(i64::MAX, 1), 26, None).unwrap_err(),
        Error::Unsupported(Fault::FrameTarget)
    );
}

#[test]
fn levels_are_chosen_or_refused() {
    let requirements = LevelRequirements {
        width_in_macroblocks: 120,
        height_in_macroblocks: 68,
        macroblocks_per_frame: 120 * 68,
        decoded_picture_buffer_macroblocks: 120 * 68,
        frame_duration_ticks: 1,
        time_base: rational(1, 30),
        bitrate: None,
        cpb_size: None,
    };
    assert_eq!(
        negotiate_level(LevelPreference::Auto, requirements).unwrap().level_idc,
        40
    );
    assert_eq!(
        negotiate_level(LevelPreference::Exact(level_at(0)), requirements).unwrap_err(),
        Error::Unsupported(Fault::LevelTooLow {
            level: "1",
            limits: ExceededLimits {
                frame_size: true,
                dimensions: true,
                cadence: true,
                picture_buffer: true,
                bitrate: false,
                coded_buffer: false,
            },
        })
    );
    let mut encoder = H264Encoder::default();
    let mut wished = settings(&[]);
    wished.width = 176;
    wished.height = 144;
    wished.time_base = rational(1, 15);
    encoder.configure(&wished).unwrap();
    let mut fast = frame();
    fast.width = 176;
    fast.height = 144;
    fast.planes = vec![plane(176, 144), plane(88, 72), plane(88, 72)];
    assert_eq!(
        encoder.send_frame(fast).unwrap_err(),
        Error::Unsupported(Fault::FrameCadence)
    );
}

#[test]
fn buffers_of_a_decoder_have_their_limits() {
    let described = |bitrate, milliseconds, time_base| {
        EncoderHrd::new(bitrate, milliseconds, time_base, 0).unwrap_err()
    };
    assert_eq!(described(0, 1_000, rational(1, 25)), Error::Unsupported(Fault::RateUnit));
    assert_eq!(
        described(25_000, 1_000, rational(5_000_000_001, 2)),
        Error::Unsupported(Fault::TimeUnit)
    );
    assert_eq!(
        described(25_000, 1_000, rational(1, 5_000_000_000)),
        Error::Unsupported(Fault::TimeScale)
    );
    assert_eq!(
        described(u64::MAX, u64::MAX, rational(1, 25)),
        Error::Unsupported(Fault::BufferSize)
    );
    assert_eq!(
        described(u64::MAX, 1, rational(1, 25)),
        Error::Unsupported(Fault::RateRange)
    );
    assert_eq!(
        described(1, u64::MAX, rational(1, 25)),
        Error::Unsupported(Fault::BufferRange)
    );
    assert_eq!(
        described(1_000, 1_000_000, rational(1, 25)),
        Error::Unsupported(Fault::InitialDelay)
    );
    let hrd = EncoderHrd::new(25_000, 1_000, rational(1, 25), 0).unwrap();
    let mut state = HrdState::new(hrd);
    assert_eq!(
        state.remove_access_unit(true, Some(ticks(1, 1, 25)), 1_000_000).unwrap_err(),
        Error::InvalidData(Fault::BufferUnderflow)
    );
    assert!(state.remove_access_unit(true, Some(ticks(1, 1, 25)), 1_000).is_ok());
    assert_eq!(
        state.duration_clock_ticks(Some(ticks(1, 1, 0))).unwrap_err(),
        Error::InvalidData(Fault::DurationUnit)
    );
}

#[test]
fn planes_are_asked_for_only_where_something_is_filtered() {
    let off =
        MacroblockParameters { parameters: None, slice_id: 0, filter_across_slice_boundaries: true };
    let on = MacroblockParameters {
        parameters: Some(Parameters { offset_a: 0, offset_b: 0 }),
        ..off
    };
    let (mut luma, mut cb, mut cr) = (vec![7; 3], vec![8; 2], vec![9; 1]);
    let mut picture = Picture {
        luma: &mut luma,
        cb: &mut cb,
        cr: &mut cr,
        coded_width: 16,
        coded_height: 16,
        luma_qp: &[26],
        chroma_qp_offset_cb: 0,
        chroma_qp_offset_cr: 0,
        macroblock_intra: &[true],
        transform_8x8: &[false],
        luma_nonzero: &[[0; 16]],
        motion: &[[BlockMotion::default(); 16]],
    };
    assert!(filter_picture(&mut picture, &[off]).is_ok());
    assert_eq!(
        filter_picture(&mut picture, &[on, on]).unwrap_err(),
        Error::InvalidData(Fault::MacroblockMap)
    );
    assert_eq!((luma, cb, cr), (vec![7; 3], vec![8; 2], vec![9; 1]));
}

#[test]
fn the_first_wrong_setting_by_name_is_told() {
    let wrong = [("speed", "1"), ("qp", "52")];
    assert_eq!(refusal(&settings(&wrong)), Error::Unsupported(Fault::OptionValue));
    let wrong = [("qp", "52"), ("brightness", "1")];
    assert_eq!(refusal(&settings(&wrong)), Error::Unsupported(Fault::OptionName));
}

#[test]
fn a_name_has_one_value() {
    let mut map = OptionMap::new();
    for (name, value) in [("qp", "60"), ("mode", "inter"), ("q", "1"), ("qp", "20")] {
        map.insert(name.to_string(), value.to_string());
    }
    let copy = map.clone();
    for map in [&map, &copy] {
        let entries = map
            .entries()
            .iter()
            .map(|(name, value)| (name.as_str(), value.as_str()))
            .collect::<Vec<_>>();
        assert_eq!(entries, [("mode", "inter"), ("q", "1"), ("qp", "20")]);
    }
    assert!(OptionMap::default().entries().is_empty());
}
