//! Encodes pictures and sequences, and reads the packets back with a decoder of its own.

use h264::arithmetic::{Bin, BinCoder, CabacEncoder};
use h264::b_direct::{b_motion_state, temporal_direct_motion_vectors, temporal_direct_partition};
use h264::b_picture::commit_b_motion_history;
use h264::b_select::{BInterDecision, BSite};
use h264::bins::{
    BlockKind, CHROMA_MODE, INTRA_MODE, LARGE_LAST, LARGE_SIGNIFICANT, MOTION_X, MOTION_Y,
    PATTERN_CHROMA, PATTERN_LUMA, QP_DELTA, REFERENCE_INDEX, SKIP, SUB_TYPE_B,
    SUB_TYPE_P, TRANSFORM_SIZE, TYPE_B, TYPE_I, TYPE_P,
};
use h264::bits::BitReader;
use h264::cabac::{CabacDecoder, ContextState};
use h264::cavlc::decode_residual_block;
use h264::config::{AnalysisPreset, BDirectMode, Configuration};
use h264::contexts::{start_contexts, ContextTables};
use h264::deblock::luma_block_index;
use h264::encoder::Packet;
use h264::error::{Error, Fault};
use h264::frame::{
    padded_planes, ColorDescription, FieldOrder, FrameTiming, PixelFormat, Plane, Rational,
    Timestamp, VideoFrame,
};
use h264::inter_bins::{encode_cabac_b_macroblock_type, encode_cabac_b_sub_macroblock_type};
use h264::inter_predict::{blank_prediction, predict_partition};
use h264::interpolate::ReferencePlane;
use h264::intra::{intra4_prediction, intra8_prediction};
use h264::motion::{
    p_skip_motion, partition_motion_predictor, set_partition_motion, BlockMotions, InterPartition,
    MotionState, MotionVector,
};
use h264::nal::{
    length_prefixed_nal_units, nal_units_to_annex_b, remove_emulation_prevention,
    AvcDecoderConfigurationRecord, NalUnitType,
};
use h264::option_map::OptionMap;
use h264::p_select::{EncoderReference, InterDecision, PictureSite};
use h264::partitions::{
    b_inter_partitions, b_sub_partitions, direct_8x8_partition, macroblock_partitions,
    p_sub_partitions, DirectedPart,
};
use h264::picture::Planes;
use h264::quantizers::{adaptive_macroblock_qps, macroblock_qp_delta};
use h264::rate::RateControl;
use h264::scaling::{JVT_4X4_INTER, JVT_4X4_INTRA, JVT_8X8_INTER, JVT_8X8_INTRA};
use h264::settings::{CodecDescriptor, VideoEncoderSettings};
use h264::test_picture::moving_frame;
use h264::H264Encoder;

const PROFILE_BASELINE: u8 = 66;
const PROFILE_MAIN: u8 = 77;
const PROFILE_HIGH: u8 = 100;
const BASELINE_COMPATIBILITY: u8 = 0xc0;

#[derive(Clone, Copy)]
struct BDirectContext {
    mode: BDirectMode,
    picture_order_count: i32,
}

const SPATIAL: BDirectContext =
    BDirectContext { mode: BDirectMode::Spatial, picture_order_count: 0 };

struct Hrd {
    cpb_count: u64,
    bit_rate: u64,
    cpb_size: u64,
    cbr: bool,
    initial_cpb_removal_delay_length: u8,
    cpb_removal_delay_length: u8,
    dpb_output_delay_length: u8,
}

struct Vui {
    video_full_range: Option<bool>,
    colour_primaries: Option<u64>,
    transfer_characteristics: Option<u64>,
    matrix_coefficients: Option<u64>,
    num_units_in_tick: Option<u64>,
    time_scale: Option<u64>,
    fixed_frame_rate: Option<bool>,
    nal_hrd: Option<Hrd>,
}

struct Sps {
    profile_idc: u8,
    constraint_flags: u8,
    level_idc: u8,
    chroma_format_idc: u64,
    bit_depth_luma: u64,
    bit_depth_chroma: u64,
    qpprime_y_zero_transform_bypass: bool,
    scaling_matrix_present: bool,
    four_by_four: Vec<Vec<u8>>,
    eight_by_eight: Vec<Vec<u8>>,
    pic_order_cnt_type: u64,
    max_num_ref_frames: u64,
    coded_width: u64,
    coded_height: u64,
    width: u64,
    height: u64,
    vui: Option<Vui>,
}

struct Pps {
    entropy_coding_mode: bool,
    transform_8x8_mode: bool,
}

struct HrdTiming {
    sequence_parameter_set_id: Option<u64>,
    initial_cpb_removal_delay: Option<u64>,
    cpb_removal_delay: Option<u64>,
    dpb_output_delay: Option<u64>,
}

fn rational(numerator: i64, denominator: i64) -> Rational {
    Rational { numerator, denominator }
}

fn option_map(options: &[(&str, &str)]) -> OptionMap {
    let mut map = OptionMap::new();
    for (name, value) in options {
        map.insert(name.to_string(), value.to_string());
    }
    map
}

fn set_option(settings: &mut VideoEncoderSettings, name: &str, value: &str) {
    settings.options.insert(name.to_string(), value.to_string());
}

fn contexts() -> ContextTables {
    ContextTables::starting()
}

fn read_test_se(reader: &mut BitReader<'_>) -> i64 {
    let code = read_test_ue(reader) as i64;
    if code % 2 == 1 {
        (code + 1) / 2
    } else {
        -(code / 2)
    }
}

fn read_scaling_list(reader: &mut BitReader<'_>, size: usize, fallback: &[u8]) -> Vec<u8> {
    if !reader.read_bit().unwrap() {
        return fallback.to_vec();
    }
    let mut last = 8_i64;
    let mut next = 8_i64;
    let mut list = Vec::new();
    for index in 0..size {
        if next != 0 {
            next = (last + read_test_se(reader) + 256) % 256;
            if index == 0 && next == 0 {
                return fallback.to_vec();
            }
        }
        if next != 0 {
            last = next;
        }
        list.push(u8::try_from(last).unwrap());
    }
    list
}

fn read_hrd(reader: &mut BitReader<'_>) -> Hrd {
    let cpb_count = read_test_ue(reader) + 1;
    let bit_rate_scale = reader.read_bits(4).unwrap();
    let cpb_size_scale = reader.read_bits(4).unwrap();
    let bit_rate = (read_test_ue(reader) + 1) << (6 + bit_rate_scale);
    let cpb_size = (read_test_ue(reader) + 1) << (4 + cpb_size_scale);
    let cbr = reader.read_bit().unwrap();
    let initial = reader.read_bits(5).unwrap() as u8 + 1;
    let removal = reader.read_bits(5).unwrap() as u8 + 1;
    let output = reader.read_bits(5).unwrap() as u8 + 1;
    reader.skip_bits(5).unwrap();
    Hrd {
        cpb_count,
        bit_rate,
        cpb_size,
        cbr,
        initial_cpb_removal_delay_length: initial,
        cpb_removal_delay_length: removal,
        dpb_output_delay_length: output,
    }
}

fn read_vui(reader: &mut BitReader<'_>) -> Vui {
    let mut vui = Vui {
        video_full_range: None,
        colour_primaries: None,
        transfer_characteristics: None,
        matrix_coefficients: None,
        num_units_in_tick: None,
        time_scale: None,
        fixed_frame_rate: None,
        nal_hrd: None,
    };
    assert!(!reader.read_bit().unwrap());
    assert!(!reader.read_bit().unwrap());
    if reader.read_bit().unwrap() {
        reader.skip_bits(3).unwrap();
        vui.video_full_range = Some(reader.read_bit().unwrap());
        if reader.read_bit().unwrap() {
            vui.colour_primaries = Some(reader.read_bits(8).unwrap());
            vui.transfer_characteristics = Some(reader.read_bits(8).unwrap());
            vui.matrix_coefficients = Some(reader.read_bits(8).unwrap());
        }
    }
    assert!(!reader.read_bit().unwrap());
    if reader.read_bit().unwrap() {
        vui.num_units_in_tick = Some(reader.read_bits(32).unwrap());
        vui.time_scale = Some(reader.read_bits(32).unwrap());
        vui.fixed_frame_rate = Some(reader.read_bit().unwrap());
    }
    if reader.read_bit().unwrap() {
        vui.nal_hrd = Some(read_hrd(reader));
    }
    vui
}

fn parse_sps(unit: &[u8]) -> Result<Sps, Error> {
    assert_eq!(unit[0], 0x67);
    let rbsp = remove_emulation_prevention(&unit[1..]);
    let mut reader = BitReader::new(&rbsp);
    let profile_idc = reader.read_bits(8)? as u8;
    let constraint_flags = reader.read_bits(8)? as u8;
    let level_idc = reader.read_bits(8)? as u8;
    assert_eq!(read_test_ue(&mut reader), 0);
    let mut sps = Sps {
        profile_idc,
        constraint_flags,
        level_idc,
        chroma_format_idc: 1,
        bit_depth_luma: 8,
        bit_depth_chroma: 8,
        qpprime_y_zero_transform_bypass: false,
        scaling_matrix_present: false,
        four_by_four: Vec::new(),
        eight_by_eight: Vec::new(),
        pic_order_cnt_type: 0,
        max_num_ref_frames: 0,
        coded_width: 0,
        coded_height: 0,
        width: 0,
        height: 0,
        vui: None,
    };
    if profile_idc == PROFILE_HIGH {
        sps.chroma_format_idc = read_test_ue(&mut reader);
        sps.bit_depth_luma = read_test_ue(&mut reader) + 8;
        sps.bit_depth_chroma = read_test_ue(&mut reader) + 8;
        sps.qpprime_y_zero_transform_bypass = reader.read_bit()?;
        sps.scaling_matrix_present = reader.read_bit()?;
        if sps.scaling_matrix_present {
            for index in 0..6 {
                let fallback = if index < 3 { JVT_4X4_INTRA } else { JVT_4X4_INTER };
                sps.four_by_four.push(read_scaling_list(&mut reader, 16, &fallback));
            }
            for index in 0..2 {
                let fallback = if index == 0 { JVT_8X8_INTRA } else { JVT_8X8_INTER };
                sps.eight_by_eight.push(read_scaling_list(&mut reader, 64, &fallback));
            }
        }
    }
    assert_eq!(read_test_ue(&mut reader), 0);
    sps.pic_order_cnt_type = read_test_ue(&mut reader);
    if sps.pic_order_cnt_type == 0 {
        assert_eq!(read_test_ue(&mut reader), 0);
    }
    sps.max_num_ref_frames = read_test_ue(&mut reader);
    assert!(!reader.read_bit()?);
    sps.coded_width = 16 * (read_test_ue(&mut reader) + 1);
    sps.coded_height = 16 * (read_test_ue(&mut reader) + 1);
    assert!(reader.read_bit()?);
    reader.skip_bits(1)?;
    sps.width = sps.coded_width;
    sps.height = sps.coded_height;
    if reader.read_bit()? {
        let left = read_test_ue(&mut reader);
        let right = read_test_ue(&mut reader);
        let top = read_test_ue(&mut reader);
        let bottom = read_test_ue(&mut reader);
        sps.width -= 2 * (left + right);
        sps.height -= 2 * (top + bottom);
    }
    if reader.read_bit()? {
        sps.vui = Some(read_vui(&mut reader));
    }
    Ok(sps)
}

fn parse_pps(unit: &[u8]) -> Result<Pps, Error> {
    assert_eq!(unit[0], 0x68);
    let rbsp = remove_emulation_prevention(&unit[1..]);
    let mut reader = BitReader::new(&rbsp);
    assert_eq!(read_test_ue(&mut reader), 0);
    assert_eq!(read_test_ue(&mut reader), 0);
    let entropy_coding_mode = reader.read_bit()?;
    assert!(!reader.read_bit()?);
    assert_eq!(read_test_ue(&mut reader), 0);
    assert_eq!(read_test_ue(&mut reader), 0);
    assert_eq!(read_test_ue(&mut reader), 0);
    assert!(!reader.read_bit()?);
    assert_eq!(reader.read_bits(2)?, 0);
    for _ in 0..3 {
        assert_eq!(read_test_se(&mut reader), 0);
    }
    assert!(reader.read_bit()?);
    assert!(!reader.read_bit()?);
    assert!(!reader.read_bit()?);
    // What follows the common part is the eight-by-eight flag, unless only the stop bit is left.
    let rest = (0..reader.bits_remaining())
        .map(|_| reader.read_bit().unwrap())
        .collect::<Vec<_>>();
    let last = rest.iter().rposition(|&bit| bit).unwrap();
    Ok(Pps { entropy_coding_mode, transform_8x8_mode: last > 0 && rest[0] })
}

fn parse_hrd_sei(unit: &[u8], vui: &Vui) -> HrdTiming {
    assert_eq!(unit[0] & 0x1f, 6);
    let rbsp = remove_emulation_prevention(&unit[1..]);
    let hrd = vui.nal_hrd.as_ref().unwrap();
    let mut timing = HrdTiming {
        sequence_parameter_set_id: None,
        initial_cpb_removal_delay: None,
        cpb_removal_delay: None,
        dpb_output_delay: None,
    };
    let mut at = 0;
    while at + 2 < rbsp.len() {
        let kind = rbsp[at];
        let size = usize::from(rbsp[at + 1]);
        let payload = &rbsp[at + 2..at + 2 + size];
        let mut reader = BitReader::new(payload);
        if kind == 0 {
            timing.sequence_parameter_set_id = Some(read_test_ue(&mut reader));
            timing.initial_cpb_removal_delay =
                Some(reader.read_bits(hrd.initial_cpb_removal_delay_length).unwrap());
        } else {
            assert_eq!(kind, 1);
            timing.cpb_removal_delay =
                Some(reader.read_bits(hrd.cpb_removal_delay_length).unwrap());
            timing.dpb_output_delay = Some(reader.read_bits(hrd.dpb_output_delay_length).unwrap());
        }
        at += 2 + size;
    }
    timing
}

fn padded(frame: &VideoFrame, configuration: &Configuration) -> Planes {
    padded_planes(frame, configuration.macroblocks_wide, configuration.macroblocks_high)
}

fn select_inter_partitions(
    source: &Planes,
    references: &[EncoderReference],
    coded_width: usize,
    coded_height: usize,
    x: usize,
    y: usize,
    search_range: i32,
    motions: &[BlockMotions],
    address: usize,
    wide: usize,
) -> InterDecision {
    select_inter_partitions_with_analysis(
        source,
        references,
        coded_width,
        coded_height,
        x,
        y,
        search_range,
        AnalysisPreset::Full,
        motions,
        address,
        wide,
    )
}

fn select_inter_partitions_with_analysis(
    source: &Planes,
    references: &[EncoderReference],
    coded_width: usize,
    coded_height: usize,
    x: usize,
    y: usize,
    search_range: i32,
    analysis: AnalysisPreset,
    motions: &[BlockMotions],
    address: usize,
    wide: usize,
) -> InterDecision {
    assert_eq!(wide, coded_width / 16);
    assert_eq!(address, y * wide + x);
    PictureSite { source, wide, high: coded_height / 16, x, y, search_range, analysis, motions }
        .select_inter_partitions_with_analysis(references)
}

fn select_b_inter_partitions(
    source: &Planes,
    previous: &EncoderReference,
    future: &EncoderReference,
    coded_width: usize,
    coded_height: usize,
    x: usize,
    y: usize,
    search_range: i32,
    motions_l0: &[BlockMotions],
    motions_l1: &[BlockMotions],
    address: usize,
    wide: usize,
    direct: BDirectContext,
) -> BInterDecision {
    assert_eq!(wide, coded_width / 16);
    assert_eq!(address, y * wide + x);
    BSite {
        source,
        previous,
        future,
        wide,
        high: coded_height / 16,
        x,
        y,
        search_range,
        motions_l0,
        motions_l1,
        direct_mode: direct.mode,
        picture_order_count: direct.picture_order_count,
    }
    .select_b_inter_partitions_with_analysis(AnalysisPreset::Full)
}

fn copied(reference: &EncoderReference) -> EncoderReference {
    EncoderReference {
        planes: reference.planes.clone(),
        pic_order_count: reference.pic_order_count,
        motion_l0: reference.motion_l0.clone(),
        reference_l0_poc: reference.reference_l0_poc.clone(),
        macroblock_intra: reference.macroblock_intra.clone(),
    }
}

fn check_stream(avcc: &AvcDecoderConfigurationRecord, packet: &[u8], expected: &VideoFrame) {
    let sps = parse_sps(&avcc.sequence_parameter_sets[0]).unwrap();
    assert_eq!((sps.width as usize, sps.height as usize), (expected.width, expected.height));
    let annex_b = nal_units_to_annex_b(packet, 4).unwrap();
    assert_eq!(annex_b.len(), packet.len());
    let mut decoder = Decoder::new(avcc);
    let decoded = decoder.decode(packet);
    assert_shown(&decoded, decoder.wide, expected);
}

/// Decodes packets and compares the pictures, in the order in which they are shown.
fn check_sequence(
    avcc: &AvcDecoderConfigurationRecord,
    packets: &[Packet],
    expected: &[VideoFrame],
) {
    assert_eq!(packets.len(), expected.len());
    let mut decoder = Decoder::new(avcc);
    let mut decoded = packets
        .iter()
        .map(|packet| (packet.pts.unwrap().value, decoder.decode(&packet.data)))
        .collect::<Vec<_>>();
    decoded.sort_by_key(|(pts, _)| *pts);
    for ((_, picture), frame) in decoded.iter().zip(expected) {
        assert_shown(picture, decoder.wide, frame);
    }
}

fn decide(
    decoder: &mut CabacDecoder<'_, '_>,
    contexts: &mut [ContextState],
    slot: usize,
) -> u32 {
    u32::from(decoder.decision(&mut contexts[slot]).unwrap())
}

fn decode_b_macroblock_type(
    decoder: &mut CabacDecoder<'_, '_>,
    contexts: &mut [ContextState],
    increment: usize,
) -> u32 {
    if decide(decoder, contexts, TYPE_B + increment) == 0 {
        return 0;
    }
    if decide(decoder, contexts, TYPE_B + 3) == 0 {
        return 1 + decide(decoder, contexts, TYPE_B + 5);
    }
    let mut bits = decide(decoder, contexts, TYPE_B + 4);
    for _ in 0..3 {
        bits = 2 * bits + decide(decoder, contexts, TYPE_B + 5);
    }
    match bits {
        0..=7 => bits + 3,
        14 => 11,
        15 => 22,
        _ => 2 * bits + decide(decoder, contexts, TYPE_B + 5) - 4,
    }
}

fn decode_b_sub_macroblock_type(
    decoder: &mut CabacDecoder<'_, '_>,
    contexts: &mut [ContextState],
) -> u32 {
    if decide(decoder, contexts, SUB_TYPE_B) == 0 {
        return 0;
    }
    if decide(decoder, contexts, SUB_TYPE_B + 1) == 0 {
        return 1 + decide(decoder, contexts, SUB_TYPE_B + 3);
    }
    let mut kind = 3;
    if decide(decoder, contexts, SUB_TYPE_B + 2) == 1 {
        if decide(decoder, contexts, SUB_TYPE_B + 3) == 1 {
            return 11 + decide(decoder, contexts, SUB_TYPE_B + 3);
        }
        kind += 4;
    }
    kind += 2 * decide(decoder, contexts, SUB_TYPE_B + 3);
    kind + decide(decoder, contexts, SUB_TYPE_B + 3)
}

fn finished(bins: &[Bin]) -> Vec<u8> {
    let tables = contexts();
    let mut coder =
        BinCoder { encoder: CabacEncoder::new(), contexts: start_contexts(&tables.between, 26) };
    coder.encode_bins(bins);
    coder.encoder.terminate(true);
    coder.encoder.finish()
}

#[test]
fn encodes_deterministic_lossless_cropped_ipcm_idr() {
    let settings = settings(18, 20);
    let mut first = H264Encoder::default();
    let descriptor = first.configure(&settings).unwrap();
    let avcc = AvcDecoderConfigurationRecord::parse(&descriptor.configuration).unwrap();
    assert_eq!(avcc.length_size, 4);
    assert_eq!(avcc.sequence_parameter_sets.len(), 1);
    assert_eq!(avcc.picture_parameter_sets.len(), 1);
    let sps = parse_sps(&avcc.sequence_parameter_sets[0]).unwrap();
    assert_eq!((sps.width, sps.height), (18, 20));
    assert_eq!((sps.coded_width, sps.coded_height), (32, 32));

    let frame = patterned_frame(18, 20);
    first.send_frame(frame.clone()).unwrap();
    let packet = first.receive_packet().unwrap().unwrap();
    assert!(packet.key);
    assert_eq!(packet.pts, frame.timing.pts);
    assert_eq!(packet.duration, frame.timing.duration);
    let units = length_prefixed_nal_units(&packet.data, 4).unwrap();
    assert_eq!(units.len(), 1);
    assert_eq!(units[0].header.unit_type, NalUnitType::IdrSlice);

    let mut second = H264Encoder::default();
    second.configure(&settings).unwrap();
    second.send_frame(frame.clone()).unwrap();
    assert_eq!(packet.data, second.receive_packet().unwrap().unwrap().data);
    assert_eq!(
        first.receive_reconstructed_frame().unwrap(),
        Some(frame.clone())
    );

    check_stream(&avcc, &packet.data, &frame);
}

#[test]
fn cabac_ipcm_round_trips_cropped_multi_macroblock_idr() {
    let mut encoder_settings = settings(18, 20);
    set_option(&mut encoder_settings, "entropy", "cabac");
    let mut encoder = H264Encoder::default();
    let descriptor = encoder.configure(&encoder_settings).unwrap();
    let avcc = AvcDecoderConfigurationRecord::parse(&descriptor.configuration).unwrap();
    let sps = parse_sps(&avcc.sequence_parameter_sets[0]).unwrap();
    let pps = parse_pps(&avcc.picture_parameter_sets[0]).unwrap();
    assert_eq!(sps.profile_idc, PROFILE_MAIN);
    assert!(pps.entropy_coding_mode);

    let frame = patterned_frame(18, 20);
    encoder.send_frame(frame.clone()).unwrap();
    let packet = encoder.receive_packet().unwrap().unwrap();
    assert_frames_pixels_equal(
        &encoder.receive_reconstructed_frame().unwrap().unwrap(),
        &frame,
    );

    check_stream(&avcc, &packet.data, &frame);
}

#[test]
fn cabac_rejects_baseline_and_unknown_entropy_names() {
    let mut invalid = settings(16, 16);
    set_option(&mut invalid, "profile", "baseline");
    set_option(&mut invalid, "entropy", "cabac");
    assert!(H264Encoder::default().configure(&invalid).is_err());

    let mut invalid = settings(16, 16);
    set_option(&mut invalid, "entropy", "arithmetic");
    assert!(H264Encoder::default().configure(&invalid).is_err());
}

#[test]
fn signals_bt709_limited_range_in_vui() {
    let mut encoder_settings = settings(16, 16);
    set_option(&mut encoder_settings, "color", "bt709");
    let mut encoder = H264Encoder::default();
    let descriptor = encoder.configure(&encoder_settings).unwrap();
    let avcc = AvcDecoderConfigurationRecord::parse(&descriptor.configuration).unwrap();
    let vui = parse_sps(&avcc.sequence_parameter_sets[0])
        .unwrap()
        .vui
        .unwrap();
    assert_eq!(vui.video_full_range, Some(false));
    assert_eq!(vui.colour_primaries, Some(1));
    assert_eq!(vui.transfer_characteristics, Some(1));
    assert_eq!(vui.matrix_coefficients, Some(1));
}

#[test]
fn cabac_intra16_round_trips_residuals_qp_changes_and_scaling_matrices() {
    for (qp, adaptive, scaling_matrix) in
        [(12, false, "flat"), (38, true, "flat"), (27, false, "jvt")]
    {
        let frame = if adaptive {
            mixed_activity_frame(32, 32, 0)
        } else {
            patterned_frame(32, 32)
        };
        let mut encoder_settings = settings(32, 32);
        set_option(&mut encoder_settings, "mode", "intra16");
        set_option(&mut encoder_settings, "entropy", "cabac");
        set_option(&mut encoder_settings, "qp", &qp.to_string());
        set_option(&mut encoder_settings, "scaling_matrix", scaling_matrix);
        if adaptive {
            set_option(&mut encoder_settings, "aq_strength", "6");
        }
        let mut encoder = H264Encoder::default();
        let descriptor = encoder.configure(&encoder_settings).unwrap();
        let avcc = AvcDecoderConfigurationRecord::parse(&descriptor.configuration).unwrap();
        assert!(
            parse_pps(&avcc.picture_parameter_sets[0])
                .unwrap()
                .entropy_coding_mode
        );
        encoder.send_frame(frame).unwrap();
        let packet = encoder.receive_packet().unwrap().unwrap();
        let reconstruction = encoder.receive_reconstructed_frame().unwrap().unwrap();

        check_stream(&avcc, &packet.data, &reconstruction);
    }
}

#[test]
fn cabac_intra4_round_trips_prediction_residuals_and_lossless_bypass() {
    for (qp, adaptive, scaling_matrix, bypass) in [
        (12, false, "flat", false),
        (38, true, "flat", false),
        (27, false, "jvt", false),
        (0, false, "flat", true),
    ] {
        let frame = if adaptive {
            mixed_activity_frame(32, 32, 0)
        } else {
            patterned_frame(32, 32)
        };
        let mut encoder_settings = settings(32, 32);
        set_option(&mut encoder_settings, "mode", "intra4");
        set_option(&mut encoder_settings, "entropy", "cabac");
        set_option(&mut encoder_settings, "qp", &qp.to_string());
        set_option(&mut encoder_settings, "scaling_matrix", scaling_matrix);
        if adaptive {
            set_option(&mut encoder_settings, "aq_strength", "6");
        }
        if bypass {
            set_option(&mut encoder_settings, "transform_bypass", "true");
        }
        let mut encoder = H264Encoder::default();
        let descriptor = encoder.configure(&encoder_settings).unwrap();
        let avcc = AvcDecoderConfigurationRecord::parse(&descriptor.configuration).unwrap();
        encoder.send_frame(frame.clone()).unwrap();
        let packet = encoder.receive_packet().unwrap().unwrap();
        let reconstruction = encoder.receive_reconstructed_frame().unwrap().unwrap();
        if bypass {
            assert_frames_pixels_equal(&reconstruction, &frame);
        }

        check_stream(&avcc, &packet.data, &reconstruction);
    }
}

#[test]
fn cabac_intra8_round_trips_transform_contexts_aq_and_scaling_matrices() {
    for (qp, adaptive, scaling_matrix) in
        [(12, false, "flat"), (38, true, "flat"), (27, false, "jvt")]
    {
        let frame = if adaptive {
            mixed_activity_frame(32, 32, 0)
        } else {
            patterned_frame(32, 32)
        };
        let mut encoder_settings = settings(32, 32);
        set_option(&mut encoder_settings, "mode", "intra8");
        set_option(&mut encoder_settings, "entropy", "cabac");
        set_option(&mut encoder_settings, "qp", &qp.to_string());
        set_option(&mut encoder_settings, "scaling_matrix", scaling_matrix);
        if adaptive {
            set_option(&mut encoder_settings, "aq_strength", "6");
        }
        let mut encoder = H264Encoder::default();
        let descriptor = encoder.configure(&encoder_settings).unwrap();
        let avcc = AvcDecoderConfigurationRecord::parse(&descriptor.configuration).unwrap();
        assert_eq!(
            parse_sps(&avcc.sequence_parameter_sets[0])
                .unwrap()
                .profile_idc,
            PROFILE_HIGH
        );
        encoder.send_frame(frame).unwrap();
        let packet = encoder.receive_packet().unwrap().unwrap();
        let reconstruction = encoder.receive_reconstructed_frame().unwrap().unwrap();

        check_stream(&avcc, &packet.data, &reconstruction);
    }
}

#[test]
fn cabac_p_slices_round_trip_skip_partitions_references_and_residual_transforms() {
    for (profile, qp, bypass, scaling_matrix) in [
        ("main", 24, false, "flat"),
        ("high", 27, false, "jvt"),
        ("high", 0, true, "flat"),
    ] {
        let mut encoder_settings = settings(32, 32);
        set_option(&mut encoder_settings, "mode", "inter");
        set_option(&mut encoder_settings, "entropy", "cabac");
        set_option(&mut encoder_settings, "profile", profile);
        set_option(&mut encoder_settings, "qp", &qp.to_string());
        set_option(&mut encoder_settings, "max_refs", "2");
        set_option(&mut encoder_settings, "search_range", "8");
        set_option(&mut encoder_settings, "scaling_matrix", scaling_matrix);
        if bypass {
            set_option(&mut encoder_settings, "transform_bypass", "true");
        }

        let mut encoder = H264Encoder::default();
        let descriptor = encoder.configure(&encoder_settings).unwrap();
        let avcc = AvcDecoderConfigurationRecord::parse(&descriptor.configuration).unwrap();
        assert!(
            parse_pps(&avcc.picture_parameter_sets[0])
                .unwrap()
                .entropy_coding_mode
        );
        let first = frame_with_pts(patterned_frame(32, 32), 0);
        encoder.send_frame(first).unwrap();
        let mut packets = vec![encoder.receive_packet().unwrap().unwrap()];
        let mut reconstructions = vec![encoder.receive_reconstructed_frame().unwrap().unwrap()];
        let inputs = [
            frame_with_pts(reconstructions[0].clone(), 1),
            split_motion_frame(&reconstructions[0], true, 2),
            subpartition_motion_frame(&reconstructions[0], 3),
        ];
        for input in inputs {
            encoder.send_frame(input).unwrap();
            packets.push(encoder.receive_packet().unwrap().unwrap());
            reconstructions.push(encoder.receive_reconstructed_frame().unwrap().unwrap());
        }
        assert!(packets[0].key);
        assert!(
            packets[1..]
                .iter()
                .all(|packet| !packet.key)
        );

        check_sequence(&avcc, &packets, &reconstructions);
    }
}

#[test]
fn cabac_b_slices_round_trip_direct_partitioned_and_lossless_modes() {
    for (direct_mode, qp, bypass, scaling_matrix, adaptive) in [
        ("spatial", 24, false, "flat", true),
        ("temporal", 27, false, "jvt", false),
        ("spatial", 0, true, "flat", false),
    ] {
        let mut encoder_settings = settings(32, 16);
        for (name, value) in [
            ("mode", "inter"),
            ("entropy", "cabac"),
            ("profile", "high"),
            ("b_frames", "1"),
            ("max_refs", "2"),
            ("search_range", "8"),
            ("b_direct", direct_mode),
            ("scaling_matrix", scaling_matrix),
        ] {
            set_option(&mut encoder_settings, name, value);
        }
        set_option(&mut encoder_settings, "qp", &qp.to_string());
        if bypass {
            set_option(&mut encoder_settings, "transform_bypass", "true");
        }
        if adaptive {
            set_option(&mut encoder_settings, "aq_strength", "6");
        }

        let mut encoder = H264Encoder::default();
        let descriptor = encoder.configure(&encoder_settings).unwrap();
        let avcc = AvcDecoderConfigurationRecord::parse(&descriptor.configuration).unwrap();
        assert!(
            parse_pps(&avcc.picture_parameter_sets[0])
                .unwrap()
                .entropy_coding_mode
        );
        let first = frame_with_pts(patterned_frame(32, 16), 0);
        encoder.send_frame(first).unwrap();
        let idr_packet = encoder.receive_packet().unwrap().unwrap();
        let idr_reconstruction = encoder.receive_reconstructed_frame().unwrap().unwrap();
        let middle = if direct_mode == "temporal" {
            shifted_frame(&idr_reconstruction, 1, 0, 1)
        } else {
            subpartition_motion_frame(&idr_reconstruction, 1)
        };
        let future = shifted_frame(&idr_reconstruction, 2, 0, 2);
        encoder.send_frame(middle).unwrap();
        encoder.send_frame(future).unwrap();
        let future_packet = encoder.receive_packet().unwrap().unwrap();
        let b_packet = encoder.receive_packet().unwrap().unwrap();
        let future_reconstruction = encoder.receive_reconstructed_frame().unwrap().unwrap();
        let b_reconstruction = encoder.receive_reconstructed_frame().unwrap().unwrap();
        let packets = [idr_packet, future_packet, b_packet];

        check_sequence(
            &avcc,
            &packets,
            &[idr_reconstruction, b_reconstruction, future_reconstruction],
        );
    }
}

#[test]
fn cabac_b_type_trees_round_trip_every_inter_code() {
    for context_increment in 0..=2 {
        for macroblock_type in 0..=22 {
            let mut bins = Vec::new();
            encode_cabac_b_macroblock_type(&mut bins, macroblock_type, context_increment);
            let bytes = finished(&bins);
            let mut bits = BitReader::new(&bytes);
            let mut decoder = CabacDecoder::new(&mut bits).unwrap();
            let mut decoder_contexts = start_contexts(&contexts().between, 26);
            assert_eq!(
                decode_b_macroblock_type(&mut decoder, &mut decoder_contexts, context_increment),
                u32::from(macroblock_type)
            );
            assert!(decoder.terminate().unwrap());
        }
    }
    for sub_type in 0..=12 {
        let mut bins = Vec::new();
        encode_cabac_b_sub_macroblock_type(&mut bins, sub_type);
        let bytes = finished(&bins);
        let mut bits = BitReader::new(&bytes);
        let mut decoder = CabacDecoder::new(&mut bits).unwrap();
        let mut decoder_contexts = start_contexts(&contexts().between, 26);
        assert_eq!(
            decode_b_sub_macroblock_type(&mut decoder, &mut decoder_contexts),
            u32::from(sub_type)
        );
        assert!(decoder.terminate().unwrap());
    }
}

#[test]
fn rejects_invalid_format_dimensions_and_planes() {
    let mut encoder = H264Encoder::default();
    let mut invalid = settings(17, 16);
    assert!(encoder.configure(&invalid).is_err());
    invalid.width = 16;
    invalid.pixel_format = PixelFormat::Rgb24;
    assert!(encoder.configure(&invalid).is_err());

    for (name, value) in [
        ("gop_size", "0"),
        ("search_range", "65"),
        ("analysis", "slow"),
        ("scene_cut_threshold", "256"),
        ("max_refs", "0"),
        ("max_refs", "5"),
        ("b_frames", "4"),
        ("b_direct", "diagonal"),
        ("aq_strength", "13"),
        ("vbv_buffer_ms", "0"),
        ("vbv_buffer_ms", "60001"),
        ("profile", "extended"),
        ("level", "7"),
        ("frame_duration_ticks", "0"),
    ] {
        let mut invalid_option = settings(16, 16);
        set_option(&mut invalid_option, name, value);
        assert!(encoder.configure(&invalid_option).is_err());
    }
    let mut inter_only_option = settings(16, 16);
    set_option(&mut inter_only_option, "max_refs", "2");
    assert!(encoder.configure(&inter_only_option).is_err());
    let mut temporal_without_b = settings(16, 16);
    set_option(&mut temporal_without_b, "mode", "inter");
    set_option(&mut temporal_without_b, "b_direct", "temporal");
    assert!(encoder.configure(&temporal_without_b).is_err());
    let mut lossless_aq = settings(16, 16);
    set_option(&mut lossless_aq, "aq_strength", "1");
    assert!(encoder.configure(&lossless_aq).is_err());
    let mut vbv_without_bitrate = settings(16, 16);
    set_option(&mut vbv_without_bitrate, "vbv_buffer_ms", "1000");
    assert!(encoder.configure(&vbv_without_bitrate).is_err());
    let mut baseline_b = settings(16, 16);
    set_option(&mut baseline_b, "mode", "inter");
    set_option(&mut baseline_b, "b_frames", "1");
    set_option(&mut baseline_b, "profile", "baseline");
    assert!(encoder.configure(&baseline_b).is_err());
    let mut main_intra8 = settings(16, 16);
    set_option(&mut main_intra8, "mode", "intra8");
    set_option(&mut main_intra8, "profile", "main");
    assert!(encoder.configure(&main_intra8).is_err());

    let mut lossless_bitrate = settings(16, 16);
    lossless_bitrate.bitrate = Some(100_000);
    assert!(encoder.configure(&lossless_bitrate).is_err());
    let mut zero_bitrate = settings(16, 16);
    set_option(&mut zero_bitrate, "mode", "intra4");
    zero_bitrate.bitrate = Some(0);
    assert!(encoder.configure(&zero_bitrate).is_err());
    let mut negative_time_base = zero_bitrate;
    negative_time_base.bitrate = Some(100_000);
    negative_time_base.time_base = rational(-1, 25);
    assert!(encoder.configure(&negative_time_base).is_err());

    encoder.configure(&settings(16, 16)).unwrap();
    let mut frame = patterned_frame(16, 16);
    frame.planes[0].data.truncate(8);
    assert!(encoder.send_frame(frame).is_err());
}

#[test]
fn negotiates_baseline_and_main_profiles_and_keeps_avcc_consistent() {
    let baseline_descriptor = H264Encoder::default().configure(&settings(16, 16)).unwrap();
    let baseline_avcc =
        AvcDecoderConfigurationRecord::parse(&baseline_descriptor.configuration).unwrap();
    let baseline_sps = parse_sps(&baseline_avcc.sequence_parameter_sets[0]).unwrap();
    assert_eq!(baseline_sps.profile_idc, PROFILE_BASELINE);
    assert_eq!(baseline_sps.constraint_flags, BASELINE_COMPATIBILITY);
    assert_eq!(baseline_avcc.profile_indication, baseline_sps.profile_idc);
    assert_eq!(
        baseline_avcc.profile_compatibility,
        baseline_sps.constraint_flags
    );

    let mut automatic_main = settings(16, 16);
    set_option(&mut automatic_main, "mode", "inter");
    set_option(&mut automatic_main, "b_frames", "1");
    let main_descriptor = H264Encoder::default().configure(&automatic_main).unwrap();
    let main_avcc =
        AvcDecoderConfigurationRecord::parse(&main_descriptor.configuration).unwrap();
    let main_sps = parse_sps(&main_avcc.sequence_parameter_sets[0]).unwrap();
    assert_eq!(main_sps.profile_idc, PROFILE_MAIN);
    assert_eq!(main_sps.constraint_flags, 0);
    assert_eq!(main_avcc.profile_indication, main_sps.profile_idc);
    assert_eq!(main_avcc.profile_compatibility, 0);

    let mut explicit_main = settings(16, 16);
    set_option(&mut explicit_main, "profile", "main");
    let descriptor = H264Encoder::default().configure(&explicit_main).unwrap();
    let avcc = AvcDecoderConfigurationRecord::parse(&descriptor.configuration).unwrap();
    assert_eq!(
        parse_sps(&avcc.sequence_parameter_sets[0])
            .unwrap()
            .profile_idc,
        PROFILE_MAIN
    );
}

fn parameter_sets(settings: &VideoEncoderSettings) -> (Sps, AvcDecoderConfigurationRecord) {
    let descriptor = H264Encoder::default().configure(settings).unwrap();
    let avcc = AvcDecoderConfigurationRecord::parse(&descriptor.configuration).unwrap();
    let sps = parse_sps(&avcc.sequence_parameter_sets[0]).unwrap();
    (sps, avcc)
}

#[test]
fn negotiates_and_enforces_annex_a_levels() {
    let (level_one, avcc) = parameter_sets(&settings(16, 16));
    assert_eq!(level_one.level_idc, 10);
    assert_eq!(avcc.level_indication, level_one.level_idc);

    let mut level_one_b = settings(16, 16);
    set_option(&mut level_one_b, "mode", "intra4");
    level_one_b.bitrate = Some(100_000);
    let (level_one_b, avcc) = parameter_sets(&level_one_b);
    assert_eq!(level_one_b.level_idc, 11);
    assert_ne!(level_one_b.constraint_flags & 0x10, 0);
    assert_eq!(avcc.profile_compatibility, level_one_b.constraint_flags);

    let mut cif_thirty = settings(176, 144);
    cif_thirty.time_base = rational(1, 30);
    assert_eq!(parameter_sets(&cif_thirty).0.level_idc, 11);
    assert_eq!(parameter_sets(&cif_thirty).0.constraint_flags & 0x10, 0);

    let mut full_hd = settings(1_920, 1_080);
    full_hd.time_base = rational(1, 30);
    assert_eq!(parameter_sets(&full_hd).0.level_idc, 40);
    full_hd.time_base = rational(1, 60);
    assert_eq!(parameter_sets(&full_hd).0.level_idc, 42);

    let mut clock_based = settings(1_920, 1_080);
    clock_based.time_base = rational(1, 90_000);
    set_option(&mut clock_based, "frame_duration_ticks", "3000");
    assert_eq!(parameter_sets(&clock_based).0.level_idc, 40);

    let mut reference_heavy = settings(1_920, 1_080);
    reference_heavy.time_base = rational(1, 30);
    set_option(&mut reference_heavy, "mode", "inter");
    set_option(&mut reference_heavy, "max_refs", "4");
    set_option(&mut reference_heavy, "b_frames", "1");
    assert_eq!(parameter_sets(&reference_heavy).0.level_idc, 50);

    let mut large_cpb = settings(1_920, 1_080);
    large_cpb.time_base = rational(1, 30);
    set_option(&mut large_cpb, "mode", "intra4");
    set_option(&mut large_cpb, "vbv_buffer_ms", "2000");
    large_cpb.bitrate = Some(20_000_000);
    assert_eq!(parameter_sets(&large_cpb).0.level_idc, 41);

    let mut constrained = settings(1_920, 1_080);
    constrained.time_base = rational(1, 30);
    set_option(&mut constrained, "level", "3.2");
    let error = H264Encoder::default().configure(&constrained).unwrap_err();
    assert!(matches!(error, Error::Unsupported(Fault::LevelTooLow { level: "3.2", .. })));

    let mut explicit = settings(16, 16);
    set_option(&mut explicit, "level", "4.1");
    assert_eq!(parameter_sets(&explicit).0.level_idc, 41);

    let mut timed = settings(176, 144);
    timed.time_base = rational(1, 15);
    let mut encoder = H264Encoder::default();
    encoder.configure(&timed).unwrap();
    let too_fast = patterned_frame(176, 144);
    assert!(encoder.send_frame(too_fast).is_err());
    let mut conforming = patterned_frame(176, 144);
    conforming.timing.duration = Some(Timestamp {
        value: 1,
        time_base: rational(1, 15),
    });
    encoder.send_frame(conforming).unwrap();
}

#[test]
fn rate_control_tracks_packet_pressure_and_resets_on_reconfigure() {
    let time_base = rational(1, 25);
    let mut rate_control = RateControl::new(25_000, time_base, 26, None).unwrap();
    assert_eq!(rate_control.target_bits_per_frame, 1_000);
    for _ in 0..4 {
        rate_control.observe(4_000, None);
    }
    assert!(rate_control.current_qp > 26);
    assert_eq!(rate_control.buffer_fullness_bits, 4_000);
    let raised_qp = rate_control.current_qp;
    for _ in 0..12 {
        rate_control.observe(0, None);
    }
    assert!(rate_control.current_qp < raised_qp);
    assert_eq!(rate_control.buffer_fullness_bits, -4_000);

    let clock = rational(1, 90_000);
    let mut duration_aware = RateControl::new(25_000, clock, 26, None).unwrap();
    duration_aware.observe(
        4_000,
        Some(Timestamp {
            value: 3_600,
            time_base: clock,
        }),
    );
    assert_eq!(duration_aware.buffer_fullness_bits, 3_000);
    assert_eq!(duration_aware.buffer_capacity_bits, 8_000);

    let mut encoder_settings = settings(16, 16);
    set_option(&mut encoder_settings, "mode", "intra4");
    encoder_settings.bitrate = Some(25_000);
    let mut encoder = H264Encoder::default();
    encoder.configure(&encoder_settings).unwrap();
    for pts in 0..4 {
        encoder.send_frame(frame_with_pts(patterned_frame(16, 16), pts)).unwrap();
    }
    assert!(encoder.rate_control().unwrap().current_qp > 26);
    encoder.configure(&encoder_settings).unwrap();
    assert_eq!(encoder.rate_control().unwrap().current_qp, 26);
}

fn encode_sequence(
    bitrate: u64,
) -> (CodecDescriptor, Vec<Packet>, Vec<VideoFrame>, i64, i32) {
    let mut encoder_settings = settings(32, 32);
    set_option(&mut encoder_settings, "mode", "intra4");
    encoder_settings.bitrate = Some(bitrate);
    let mut encoder = H264Encoder::default();
    let descriptor = encoder.configure(&encoder_settings).unwrap();
    let mut packets = Vec::new();
    let mut reconstructions = Vec::new();
    let mut squared_error = 0;
    for pts in 0..10 {
        let frame = frame_with_pts(patterned_frame(32, 32), pts);
        encoder.send_frame(frame.clone()).unwrap();
        packets.push(encoder.receive_packet().unwrap().unwrap());
        let reconstruction = encoder.receive_reconstructed_frame().unwrap().unwrap();
        squared_error += luma_squared_error(&frame, &reconstruction);
        reconstructions.push(reconstruction);
    }
    let final_qp = encoder.rate_control().unwrap().current_qp;
    (
        descriptor,
        packets,
        reconstructions,
        squared_error,
        final_qp,
    )
}

#[test]
fn target_bitrate_changes_size_and_quality_with_conformant_reconstruction() {
    let (low_descriptor, low_packets, low_reconstructions, low_error, low_qp) =
        encode_sequence(10_000);
    let (high_descriptor, high_packets, high_reconstructions, high_error, high_qp) =
        encode_sequence(5_000_000);
    let low_bytes: usize = low_packets.iter().map(|packet| packet.data.len()).sum();
    let high_bytes: usize = high_packets.iter().map(|packet| packet.data.len()).sum();
    assert!(low_qp > high_qp, "low={low_qp}, high={high_qp}");
    assert!(low_bytes < high_bytes, "low={low_bytes}, high={high_bytes}");
    assert!(high_error < low_error, "low={low_error}, high={high_error}");

    for (descriptor, packets, reconstructions) in [
        (&low_descriptor, &low_packets, &low_reconstructions),
        (&high_descriptor, &high_packets, &high_reconstructions),
    ] {
        let avcc = AvcDecoderConfigurationRecord::parse(&descriptor.configuration).unwrap();
        check_sequence(&avcc, packets, reconstructions);
    }
}

#[test]
fn hrd_vbv_signals_and_schedules_reordered_picture_delays() {
    let mut encoder_settings = settings(32, 16);
    set_option(&mut encoder_settings, "mode", "inter");
    set_option(&mut encoder_settings, "b_frames", "1");
    set_option(&mut encoder_settings, "search_range", "0");
    set_option(&mut encoder_settings, "vbv_buffer_ms", "1000");
    encoder_settings.bitrate = Some(25_000);
    encoder_settings.time_base = rational(1, 90_000);
    let mut encoder = H264Encoder::default();
    let descriptor = encoder.configure(&encoder_settings).unwrap();
    let avcc = AvcDecoderConfigurationRecord::parse(&descriptor.configuration).unwrap();
    let sps = parse_sps(&avcc.sequence_parameter_sets[0]).unwrap();
    let vui = sps.vui.unwrap();
    assert_eq!(vui.num_units_in_tick, Some(1));
    assert_eq!(vui.time_scale, Some(180_000));
    assert_eq!(vui.fixed_frame_rate, Some(false));
    let hrd = vui.nal_hrd.as_ref().unwrap();
    assert_eq!(hrd.cpb_count, 1);
    assert!((25_000..25_064).contains(&hrd.bit_rate));
    assert!((25_000..25_016).contains(&hrd.cpb_size));
    assert!(!hrd.cbr);
    assert_eq!(hrd.initial_cpb_removal_delay_length, 24);
    assert_eq!(hrd.cpb_removal_delay_length, 24);
    assert_eq!(hrd.dpb_output_delay_length, 24);
    assert_eq!(
        encoder.rate_control().unwrap().buffer_capacity_bits,
        i128::from(hrd.cpb_size)
    );

    let first = frame_with_pts(patterned_frame(32, 16), 0);
    let middle = shifted_frame(&first, 1, 0, 1);
    let future = shifted_frame(&first, 2, 0, 2);
    encoder.send_frame(first).unwrap();
    let idr_packet = encoder.receive_packet().unwrap().unwrap();
    let idr_reconstruction = encoder.receive_reconstructed_frame().unwrap().unwrap();
    encoder.send_frame(middle).unwrap();
    encoder.send_frame(future).unwrap();
    let p_packet = encoder.receive_packet().unwrap().unwrap();
    let b_packet = encoder.receive_packet().unwrap().unwrap();
    let p_reconstruction = encoder.receive_reconstructed_frame().unwrap().unwrap();
    let b_reconstruction = encoder.receive_reconstructed_frame().unwrap().unwrap();

    let packets = [idr_packet, p_packet, b_packet];
    let expected_delays = [(0, 7_200), (7_200, 14_400), (14_400, 0)];
    for (index, (packet, (expected_cpb, expected_dpb))) in
        packets.iter().zip(expected_delays).enumerate()
    {
        let units = length_prefixed_nal_units(&packet.data, 4).unwrap();
        assert_eq!(units.len(), 2);
        assert_eq!(units[0].header.unit_type, NalUnitType::Sei);
        let timing = parse_hrd_sei(units[0].data, &vui);
        assert_eq!(timing.cpb_removal_delay, Some(expected_cpb));
        assert_eq!(timing.dpb_output_delay, Some(expected_dpb));
        if index == 0 {
            assert_eq!(timing.sequence_parameter_set_id, Some(0));
            assert_eq!(
                timing.initial_cpb_removal_delay,
                Some(u64::from(
                    encoder.hrd_state().unwrap().parameters.initial_cpb_removal_delay
                ))
            );
        } else {
            assert_eq!(timing.sequence_parameter_set_id, None);
        }
    }

    check_sequence(
        &avcc,
        &packets,
        &[idr_reconstruction, b_reconstruction, p_reconstruction],
    );
}

#[test]
fn hrd_vbv_rejects_an_access_unit_larger_than_the_cpb() {
    let mut undersized = settings(16, 16);
    set_option(&mut undersized, "mode", "intra4");
    set_option(&mut undersized, "vbv_buffer_ms", "1");
    undersized.bitrate = Some(1_000);
    let mut constrained = H264Encoder::default();
    constrained.configure(&undersized).unwrap();
    assert!(constrained.send_frame(patterned_frame(16, 16)).is_err());
    assert!(constrained.receive_packet().unwrap().is_none());
}

#[test]
fn flush_closes_input_until_reconfigured() {
    let mut encoder = H264Encoder::default();
    encoder.configure(&settings(16, 16)).unwrap();
    encoder.flush().unwrap();
    assert!(encoder.send_frame(patterned_frame(16, 16)).is_err());
    encoder.configure(&settings(16, 16)).unwrap();
    encoder.send_frame(patterned_frame(16, 16)).unwrap();
}

#[test]
fn intra16_mode_codes_full_residuals_and_reports_normative_reconstruction() {
    let mut settings = settings(32, 16);
    set_option(&mut settings, "mode", "intra16");
    let mut encoder = H264Encoder::default();
    let descriptor = encoder.configure(&settings).unwrap();
    let frame = constant_frame(32, 16, [128, 128, 128]);
    encoder.send_frame(frame.clone()).unwrap();
    let packet = encoder.receive_packet().unwrap().unwrap();
    assert!(
        packet.data.len() < 32,
        "flat Intra16 packet was not compact"
    );

    let avcc = AvcDecoderConfigurationRecord::parse(&descriptor.configuration).unwrap();
    check_stream(&avcc, &packet.data, &frame);
    let reconstructed = encoder.receive_reconstructed_frame().unwrap().unwrap();
    assert_frames_pixels_equal(&reconstructed, &frame);

    let mut encoder = H264Encoder::default();
    encoder.configure(&settings).unwrap();
    let patterned = patterned_frame(32, 16);
    encoder.send_frame(patterned.clone()).unwrap();
    let packet = encoder.receive_packet().unwrap().unwrap();
    let reconstructed = encoder.receive_reconstructed_frame().unwrap().unwrap();
    assert!(
        packet.data.len() < 384,
        "Intra16 packet did not compress luma"
    );
    assert_ne!(reconstructed.planes[0].data, patterned.planes[0].data);
    assert!(
        luma_squared_error(&patterned, &reconstructed)
            < luma_squared_error_from_constant(&patterned, 128)
    );
    check_stream(&avcc, &packet.data, &reconstructed);

}

#[test]
fn intra4_mode_round_trips_normative_reconstruction_and_is_deterministic() {
    let mut settings = settings(32, 32);
    set_option(&mut settings, "mode", "intra4");
    let frame = patterned_frame(32, 32);

    let mut encoder = H264Encoder::default();
    let descriptor = encoder.configure(&settings).unwrap();
    encoder.send_frame(frame.clone()).unwrap();
    let packet = encoder.receive_packet().unwrap().unwrap();
    let reconstructed = encoder.receive_reconstructed_frame().unwrap().unwrap();
    assert_ne!(reconstructed.planes[0].data, frame.planes[0].data);
    assert!(
        luma_squared_error(&frame, &reconstructed)
            < luma_squared_error_from_constant(&frame, 128)
    );

    let mut second = H264Encoder::default();
    second.configure(&settings).unwrap();
    second.send_frame(frame).unwrap();
    assert_eq!(packet.data, second.receive_packet().unwrap().unwrap().data);

    let avcc = AvcDecoderConfigurationRecord::parse(&descriptor.configuration).unwrap();
    check_stream(&avcc, &packet.data, &reconstructed);
}

#[test]
fn high_profile_intra8_round_trips_normative_reconstruction() {
    let mut settings = settings(32, 32);
    set_option(&mut settings, "mode", "intra8");
    let frame = patterned_frame(32, 32);

    let mut encoder = H264Encoder::default();
    let descriptor = encoder.configure(&settings).unwrap();
    let avcc = AvcDecoderConfigurationRecord::parse(&descriptor.configuration).unwrap();
    let sps = parse_sps(&avcc.sequence_parameter_sets[0]).unwrap();
    let pps = parse_pps(&avcc.picture_parameter_sets[0]).unwrap();
    assert_eq!(sps.profile_idc, PROFILE_HIGH);
    assert_eq!(sps.chroma_format_idc, 1);
    assert_eq!((sps.bit_depth_luma, sps.bit_depth_chroma), (8, 8));
    assert!(pps.transform_8x8_mode);
    assert_eq!(avcc.profile_indication, PROFILE_HIGH);

    encoder.send_frame(frame.clone()).unwrap();
    let packet = encoder.receive_packet().unwrap().unwrap();
    let reconstructed = encoder.receive_reconstructed_frame().unwrap().unwrap();
    assert_ne!(reconstructed.planes[0].data, frame.planes[0].data);
    assert!(
        luma_squared_error(&frame, &reconstructed)
            < luma_squared_error_from_constant(&frame, 128)
    );

    let mut repeat = H264Encoder::default();
    repeat.configure(&settings).unwrap();
    repeat.send_frame(frame).unwrap();
    assert_eq!(packet.data, repeat.receive_packet().unwrap().unwrap().data);

    check_stream(&avcc, &packet.data, &reconstructed);
}

#[test]
fn high_profile_inter_8x8_round_trips_p_and_b_pictures() {
    let mut settings = settings(32, 16);
    set_option(&mut settings, "mode", "inter");
    set_option(&mut settings, "profile", "high");
    set_option(&mut settings, "b_frames", "1");
    set_option(&mut settings, "search_range", "0");
    let frames = [
        frame_with_pts(constant_frame(32, 16, [64, 96, 160]), 0),
        frame_with_pts(constant_frame(32, 16, [150, 120, 140]), 1),
        frame_with_pts(constant_frame(32, 16, [192, 128, 128]), 2),
    ];

    let mut encoder = H264Encoder::default();
    let descriptor = encoder.configure(&settings).unwrap();
    let avcc = AvcDecoderConfigurationRecord::parse(&descriptor.configuration).unwrap();
    assert_eq!(
        parse_sps(&avcc.sequence_parameter_sets[0])
            .unwrap()
            .profile_idc,
        PROFILE_HIGH
    );
    assert!(
        parse_pps(&avcc.picture_parameter_sets[0])
            .unwrap()
            .transform_8x8_mode
    );
    for frame in &frames {
        encoder.send_frame(frame.clone()).unwrap();
    }
    encoder.flush().unwrap();
    let mut packets = Vec::new();
    let mut reconstructions = Vec::new();
    while let Some(packet) = encoder.receive_packet().unwrap() {
        packets.push(packet);
        reconstructions.push(encoder.receive_reconstructed_frame().unwrap().unwrap());
    }
    assert_eq!(packets.len(), frames.len());

    let mut display_order = packets
        .iter()
        .zip(&reconstructions)
        .map(|(packet, frame)| (packet.pts.unwrap().value, frame.clone()))
        .collect::<Vec<_>>();
    display_order.sort_by_key(|(pts, _)| *pts);
    let display_order = display_order
        .into_iter()
        .map(|(_, frame)| frame)
        .collect::<Vec<_>>();
    check_sequence(&avcc, &packets, &display_order);
}

#[test]
fn high_profile_transform_bypass_is_lossless_for_intra_p_and_b_pictures() {
    let mut intra_settings = settings(32, 32);
    set_option(&mut intra_settings, "mode", "intra4");
    set_option(&mut intra_settings, "qp", "0");
    set_option(&mut intra_settings, "transform_bypass", "true");
    let intra_frame = patterned_frame(32, 32);
    let mut intra_encoder = H264Encoder::default();
    let intra_descriptor = intra_encoder.configure(&intra_settings).unwrap();
    let intra_avcc =
        AvcDecoderConfigurationRecord::parse(&intra_descriptor.configuration).unwrap();
    let intra_sps = parse_sps(&intra_avcc.sequence_parameter_sets[0]).unwrap();
    assert_eq!(intra_sps.profile_idc, PROFILE_HIGH);
    assert!(intra_sps.qpprime_y_zero_transform_bypass);
    intra_encoder.send_frame(intra_frame.clone()).unwrap();
    let intra_packet = intra_encoder.receive_packet().unwrap().unwrap();
    let intra_reconstruction = intra_encoder
        .receive_reconstructed_frame()
        .unwrap()
        .unwrap();
    assert_frames_pixels_equal(&intra_reconstruction, &intra_frame);
    check_stream(&intra_avcc, &intra_packet.data, &intra_frame);

    let mut inter_settings = settings(32, 16);
    set_option(&mut inter_settings, "mode", "inter");
    set_option(&mut inter_settings, "qp", "0");
    set_option(&mut inter_settings, "transform_bypass", "true");
    set_option(&mut inter_settings, "b_frames", "1");
    set_option(&mut inter_settings, "search_range", "2");
    let first = frame_with_pts(patterned_frame(32, 16), 0);
    let frames = [
        first.clone(),
        shifted_frame(&first, 1, 0, 1),
        shifted_frame(&first, 2, 0, 2),
    ];
    let mut inter_encoder = H264Encoder::default();
    let inter_descriptor = inter_encoder.configure(&inter_settings).unwrap();
    let inter_avcc =
        AvcDecoderConfigurationRecord::parse(&inter_descriptor.configuration).unwrap();
    let inter_sps = parse_sps(&inter_avcc.sequence_parameter_sets[0]).unwrap();
    let inter_picture_pps = parse_pps(&inter_avcc.picture_parameter_sets[0]).unwrap();
    assert!(inter_sps.qpprime_y_zero_transform_bypass);
    assert!(!inter_picture_pps.transform_8x8_mode);
    for frame in &frames {
        inter_encoder.send_frame(frame.clone()).unwrap();
    }
    inter_encoder.flush().unwrap();
    let mut packets = Vec::new();
    let mut reconstructions = Vec::new();
    while let Some(packet) = inter_encoder.receive_packet().unwrap() {
        let reconstruction = inter_encoder
            .receive_reconstructed_frame()
            .unwrap()
            .unwrap();
        let expected = &frames[usize::try_from(packet.pts.unwrap().value).unwrap()];
        assert_frames_pixels_equal(&reconstruction, expected);
        packets.push(packet);
        reconstructions.push(reconstruction);
    }
    check_sequence(&inter_avcc, &packets, &frames);
}

#[test]
fn transform_bypass_rejects_incompatible_configurations() {
    for (mode, profile, qp) in [
        ("intra4", "main", "0"),
        ("intra8", "high", "0"),
        ("inter", "high", "1"),
    ] {
        let mut invalid = settings(16, 16);
        set_option(&mut invalid, "mode", mode);
        set_option(&mut invalid, "profile", profile);
        set_option(&mut invalid, "qp", qp);
        set_option(&mut invalid, "transform_bypass", "true");
        assert!(H264Encoder::default().configure(&invalid).is_err());
    }
}

#[test]
fn jvt_scaling_matrices_round_trip_all_transform_paths() {
    for mode in ["intra16", "intra4", "intra8"] {
        let mut encoder_settings = settings(32, 32);
        set_option(&mut encoder_settings, "mode", mode);
        set_option(&mut encoder_settings, "scaling_matrix", "jvt");
        let frame = patterned_frame(32, 32);
        let mut encoder = H264Encoder::default();
        let descriptor = encoder.configure(&encoder_settings).unwrap();
        let avcc = AvcDecoderConfigurationRecord::parse(&descriptor.configuration).unwrap();
        let sps = parse_sps(&avcc.sequence_parameter_sets[0]).unwrap();
        assert_eq!(sps.profile_idc, PROFILE_HIGH);
        assert!(sps.scaling_matrix_present);
        assert_eq!(sps.four_by_four[0], JVT_4X4_INTRA);
        assert_eq!(sps.four_by_four[3], JVT_4X4_INTER);
        assert_eq!(sps.eight_by_eight[0], JVT_8X8_INTRA);
        assert_eq!(sps.eight_by_eight[1], JVT_8X8_INTER);

        encoder.send_frame(frame).unwrap();
        let packet = encoder.receive_packet().unwrap().unwrap();
        let reconstruction = encoder.receive_reconstructed_frame().unwrap().unwrap();
        check_stream(&avcc, &packet.data, &reconstruction);
    }

    let mut encoder_settings = settings(32, 16);
    set_option(&mut encoder_settings, "mode", "inter");
    set_option(&mut encoder_settings, "b_frames", "1");
    set_option(&mut encoder_settings, "scaling_matrix", "jvt");
    set_option(&mut encoder_settings, "search_range", "0");
    let frames = [
        frame_with_pts(constant_frame(32, 16, [40, 80, 160]), 0),
        frame_with_pts(constant_frame(32, 16, [137, 111, 143]), 1),
        frame_with_pts(constant_frame(32, 16, [216, 144, 112]), 2),
    ];
    let mut encoder = H264Encoder::default();
    let descriptor = encoder.configure(&encoder_settings).unwrap();
    let avcc = AvcDecoderConfigurationRecord::parse(&descriptor.configuration).unwrap();
    for frame in &frames {
        encoder.send_frame(frame.clone()).unwrap();
    }
    encoder.flush().unwrap();
    let mut packets = Vec::new();
    let mut reconstructions = Vec::new();
    while let Some(packet) = encoder.receive_packet().unwrap() {
        packets.push(packet);
        reconstructions.push(encoder.receive_reconstructed_frame().unwrap().unwrap());
    }
    let mut display_order = packets
        .iter()
        .zip(&reconstructions)
        .map(|(packet, frame)| (packet.pts.unwrap().value, frame.clone()))
        .collect::<Vec<_>>();
    display_order.sort_by_key(|(pts, _)| *pts);
    let display_order = display_order
        .into_iter()
        .map(|(_, frame)| frame)
        .collect::<Vec<_>>();
    check_sequence(&avcc, &packets, &display_order);
}

#[test]
fn jvt_scaling_matrices_reject_non_high_and_bypass_modes() {
    for (profile, bypass) in [("main", false), ("high", true)] {
        let mut invalid = settings(16, 16);
        set_option(&mut invalid, "mode", "intra4");
        set_option(&mut invalid, "profile", profile);
        set_option(&mut invalid, "qp", "0");
        set_option(&mut invalid, "scaling_matrix", "jvt");
        set_option(&mut invalid, "transform_bypass", &bypass.to_string());
        assert!(H264Encoder::default().configure(&invalid).is_err());
    }
}

#[test]
fn configurable_qp_round_trips_for_compressed_intra_modes() {
    let frame = patterned_frame(16, 16);
    let mut errors = Vec::new();
    for (mode, qp) in [
        ("intra4", 12),
        ("intra4", 38),
        ("intra16", 12),
        ("intra16", 38),
        ("intra4", 0),
        ("intra16", 51),
        ("intra8", 12),
        ("intra8", 38),
    ] {
        let mut settings = settings(16, 16);
        set_option(&mut settings, "mode", mode);
        set_option(&mut settings, "qp", &qp.to_string());
        let mut encoder = H264Encoder::default();
        let descriptor = encoder.configure(&settings).unwrap();
        encoder.send_frame(frame.clone()).unwrap();
        let packet = encoder.receive_packet().unwrap().unwrap();
        let reconstructed = encoder.receive_reconstructed_frame().unwrap().unwrap();

        let avcc = AvcDecoderConfigurationRecord::parse(&descriptor.configuration).unwrap();
        check_stream(&avcc, &packet.data, &reconstructed);
        errors.push((mode, qp, luma_squared_error(&frame, &reconstructed)));
    }
    assert!(
        errors[0].2 < errors[1].2,
        "lower Intra4 QP should preserve more luma detail"
    );
    assert!(
        errors[2].2 < errors[3].2,
        "lower Intra16 QP should preserve more luma detail"
    );
    assert!(
        errors[6].2 < errors[7].2,
        "lower Intra8 QP should preserve more luma detail"
    );

    for invalid in ["-1", "52", "not-a-number"] {
        let mut settings = settings(16, 16);
        set_option(&mut settings, "qp", invalid);
        assert!(H264Encoder::default().configure(&settings).is_err());
    }
}

#[test]
fn adaptive_quantization_distinguishes_activity_and_wraps_qp_deltas() {
    let frame = mixed_activity_frame(32, 16, 0);
    let mut encoder_settings = settings(32, 16);
    set_option(&mut encoder_settings, "mode", "intra4");
    set_option(&mut encoder_settings, "aq_strength", "6");
    let mut encoder = H264Encoder::default();
    encoder.configure(&encoder_settings).unwrap();
    let configuration = &encoder.configuration().unwrap();
    let padded = padded(&frame, configuration);
    let qps = adaptive_macroblock_qps(
        &padded.luma,
        configuration.macroblocks_wide,
        configuration.macroblocks_high,
        configuration.qp,
        configuration.aq_strength,
    );
    assert_eq!(qps.len(), 2);
    assert!(qps[0] < configuration.qp, "{qps:?}");
    assert!(qps[1] > configuration.qp, "{qps:?}");
    assert_eq!(macroblock_qp_delta(51, 0), 1);
    assert_eq!(macroblock_qp_delta(0, 51), -1);
}

#[test]
fn adaptive_quantization_round_trips_intra_p_and_b_pictures() {
    let source = mixed_activity_frame(32, 16, 0);
    for mode in ["intra16", "intra4", "intra8"] {
        let mut encoder_settings = settings(32, 16);
        set_option(&mut encoder_settings, "mode", mode);
        set_option(&mut encoder_settings, "aq_strength", "6");
        let mut encoder = H264Encoder::default();
        let descriptor = encoder.configure(&encoder_settings).unwrap();
        encoder.send_frame(source.clone()).unwrap();
        let packet = encoder.receive_packet().unwrap().unwrap();
        let reconstruction = encoder.receive_reconstructed_frame().unwrap().unwrap();

        let avcc = AvcDecoderConfigurationRecord::parse(&descriptor.configuration).unwrap();
        check_stream(&avcc, &packet.data, &reconstruction);
    }

    let mut encoder_settings = settings(32, 16);
    set_option(&mut encoder_settings, "mode", "inter");
    set_option(&mut encoder_settings, "b_frames", "1");
    set_option(&mut encoder_settings, "search_range", "0");
    set_option(&mut encoder_settings, "aq_strength", "6");
    let mut encoder = H264Encoder::default();
    let descriptor = encoder.configure(&encoder_settings).unwrap();
    let mut middle = mixed_activity_frame(32, 16, 1);
    for plane in &mut middle.planes {
        for y in 0..plane.height {
            for sample in &mut plane.data[y * plane.stride..][..plane.width] {
                *sample = sample.saturating_add(37);
            }
        }
    }
    let future = frame_with_pts(source.clone(), 2);
    encoder.send_frame(source).unwrap();
    let idr_packet = encoder.receive_packet().unwrap().unwrap();
    let idr_reconstruction = encoder.receive_reconstructed_frame().unwrap().unwrap();
    encoder.send_frame(middle).unwrap();
    encoder.send_frame(future).unwrap();
    let p_packet = encoder.receive_packet().unwrap().unwrap();
    let b_packet = encoder.receive_packet().unwrap().unwrap();
    let p_reconstruction = encoder.receive_reconstructed_frame().unwrap().unwrap();
    let b_reconstruction = encoder.receive_reconstructed_frame().unwrap().unwrap();
    let packets = [idr_packet, p_packet, b_packet];
    let avcc = AvcDecoderConfigurationRecord::parse(&descriptor.configuration).unwrap();
    check_sequence(
        &avcc,
        &packets,
        &[idr_reconstruction, b_reconstruction, p_reconstruction],
    );
}

#[test]
fn inter_mode_encodes_motion_skip_and_periodic_idrs() {
    let mut settings = settings(32, 32);
    set_option(&mut settings, "mode", "inter");
    set_option(&mut settings, "gop_size", "3");
    set_option(&mut settings, "search_range", "4");
    let first = patterned_frame(32, 32);
    let second = shifted_frame(&first, 2, 0, 8);
    let third = frame_with_pts(second.clone(), 9);
    let fourth = shifted_frame(&first, 4, 2, 10);
    let frames = [first.clone(), second.clone(), third, fourth];

    let mut encoder = H264Encoder::default();
    let descriptor = encoder.configure(&settings).unwrap();
    let mut packets = Vec::new();
    let mut reconstructions = Vec::new();
    for frame in &frames {
        encoder.send_frame(frame.clone()).unwrap();
        packets.push(encoder.receive_packet().unwrap().unwrap());
        reconstructions.push(encoder.receive_reconstructed_frame().unwrap().unwrap());
    }
    assert_eq!(
        packets
            .iter()
            .map(|packet| packet.key)
            .collect::<Vec<_>>(),
        [true, false, false, true]
    );
    assert_eq!(packet_nal_type(&packets[0]), NalUnitType::IdrSlice);
    assert_eq!(packet_nal_type(&packets[1]), NalUnitType::CodedSlice);
    assert_eq!(packet_nal_type(&packets[2]), NalUnitType::CodedSlice);
    assert_eq!(packet_nal_type(&packets[3]), NalUnitType::IdrSlice);
    assert!(
        packets[2].data.len() < packets[1].data.len(),
        "an unchanged reference picture should collapse into P-skip runs"
    );

    let avcc = AvcDecoderConfigurationRecord::parse(&descriptor.configuration).unwrap();
    check_sequence(&avcc, &packets, &reconstructions);

    let mut repeat = H264Encoder::default();
    repeat.configure(&settings).unwrap();
    for (frame, expected_packet) in frames.iter().zip(&packets) {
        repeat.send_frame(frame.clone()).unwrap();
        let packet = repeat.receive_packet().unwrap().unwrap();
        assert_eq!(packet.data, expected_packet.data);
        assert_eq!(packet.key, expected_packet.key);
    }

    let mut zero_search_settings = settings.clone();
    set_option(&mut zero_search_settings, "search_range", "0");
    let mut zero_search = H264Encoder::default();
    zero_search.configure(&zero_search_settings).unwrap();
    zero_search.send_frame(first).unwrap();
    let _first_packet = zero_search.receive_packet().unwrap().unwrap();
    zero_search.send_frame(second).unwrap();
    let zero_search_packet = zero_search.receive_packet().unwrap().unwrap();
    assert!(
        packets[1].data.len() < zero_search_packet.data.len(),
        "integer motion search should reduce shifted-frame residual coding"
    );
}

#[test]
fn inter_mode_wraps_frame_num_and_preserves_cropped_dimensions() {
    let mut settings = settings(18, 20);
    set_option(&mut settings, "mode", "inter");
    set_option(&mut settings, "gop_size", "20");
    set_option(&mut settings, "search_range", "0");
    let mut encoder = H264Encoder::default();
    let descriptor = encoder.configure(&settings).unwrap();
    let mut packets = Vec::new();
    let mut reconstructions = Vec::new();
    for pts in 0..18 {
        let frame = frame_with_pts(constant_frame(18, 20, [128, 96, 160]), pts);
        encoder.send_frame(frame).unwrap();
        packets.push(encoder.receive_packet().unwrap().unwrap());
        reconstructions.push(encoder.receive_reconstructed_frame().unwrap().unwrap());
    }
    assert!(packets[0].key);
    assert!(
        packets[1..]
            .iter()
            .all(|packet| !packet.key)
    );
    assert!(
        reconstructions
            .iter()
            .all(|frame| (frame.width, frame.height) == (18, 20))
    );
    let avcc = AvcDecoderConfigurationRecord::parse(&descriptor.configuration).unwrap();
    check_sequence(&avcc, &packets, &reconstructions);
}

#[test]
fn inter_mode_selects_and_decodes_both_split_partition_shapes() {
    for (horizontal_split, expected_type) in [(true, 1), (false, 2)] {
        let mut settings = settings(16, 16);
        set_option(&mut settings, "mode", "inter");
        set_option(&mut settings, "gop_size", "10");
        set_option(&mut settings, "search_range", "4");
        let mut encoder = H264Encoder::default();
        let descriptor = encoder.configure(&settings).unwrap();
        encoder.send_frame(patterned_frame(16, 16)).unwrap();
        let idr_packet = encoder.receive_packet().unwrap().unwrap();
        let idr_reconstruction = encoder.receive_reconstructed_frame().unwrap().unwrap();
        let split_frame = split_motion_frame(&idr_reconstruction, horizontal_split, 8);

        let configuration = &encoder.configuration().unwrap();
        let source = padded(&split_frame, configuration);
        let decision = select_inter_partitions(
            &source,
            encoder.references(),
            16 * configuration.macroblocks_wide,
            16 * configuration.macroblocks_high,
            0,
            0,
            configuration.search_range,
            &[[None; 16]],
            0,
            1,
        );
        assert_eq!(decision.macroblock_type, expected_type);

        encoder.send_frame(split_frame).unwrap();
        let p_packet = encoder.receive_packet().unwrap().unwrap();
        let p_reconstruction = encoder.receive_reconstructed_frame().unwrap().unwrap();
        let packets = [idr_packet, p_packet];
        let reconstructions = [idr_reconstruction, p_reconstruction];
        let avcc = AvcDecoderConfigurationRecord::parse(&descriptor.configuration).unwrap();
        check_sequence(&avcc, &packets, &reconstructions);

    }
}

#[test]
fn inter_mode_can_insert_scene_cut_idrs() {
    let mut settings = settings(16, 16);
    set_option(&mut settings, "mode", "inter");
    set_option(&mut settings, "gop_size", "30");
    set_option(&mut settings, "scene_cut_threshold", "32");
    let frames = [
        frame_with_pts(constant_frame(16, 16, [16, 128, 128]), 0),
        frame_with_pts(constant_frame(16, 16, [240, 128, 128]), 1),
    ];
    let mut encoder = H264Encoder::default();
    let descriptor = encoder.configure(&settings).unwrap();
    let mut packets = Vec::new();
    let mut reconstructions = Vec::new();
    for frame in &frames {
        encoder.send_frame(frame.clone()).unwrap();
        packets.push(encoder.receive_packet().unwrap().unwrap());
        reconstructions.push(encoder.receive_reconstructed_frame().unwrap().unwrap());
    }
    assert!(
        packets
            .iter()
            .all(|packet| packet.key)
    );
    let avcc = AvcDecoderConfigurationRecord::parse(&descriptor.configuration).unwrap();
    check_sequence(&avcc, &packets, &reconstructions);

    set_option(&mut settings, "scene_cut_threshold", "0");
    let mut fixed_gop = H264Encoder::default();
    fixed_gop.configure(&settings).unwrap();
    for frame in frames {
        fixed_gop.send_frame(frame).unwrap();
    }
    assert!(
        fixed_gop
            .receive_packet()
            .unwrap()
            .unwrap()
            .key
    );
    assert!(
        !fixed_gop
            .receive_packet()
            .unwrap()
            .unwrap()
            .key
    );
}

#[test]
fn inter_mode_encodes_every_p8x8_subpartition_shape() {
    let mut settings = settings(16, 16);
    set_option(&mut settings, "mode", "inter");
    set_option(&mut settings, "search_range", "4");
    let mut encoder = H264Encoder::default();
    let descriptor = encoder.configure(&settings).unwrap();
    encoder.send_frame(patterned_frame(16, 16)).unwrap();
    let idr_packet = encoder.receive_packet().unwrap().unwrap();
    let idr_reconstruction = encoder.receive_reconstructed_frame().unwrap().unwrap();
    let partitioned = subpartition_motion_frame(&idr_reconstruction, 8);

    let configuration = &encoder.configuration().unwrap();
    let source = padded(&partitioned, configuration);
    let decision = select_inter_partitions(
        &source,
        encoder.references(),
        16,
        16,
        0,
        0,
        4,
        &[[None; 16]],
        0,
        1,
    );
    assert_eq!(decision.macroblock_type, 3);
    assert_eq!(decision.sub_macroblock_types, [0, 1, 2, 3]);

    encoder.send_frame(partitioned).unwrap();
    let p_packet = encoder.receive_packet().unwrap().unwrap();
    let p_reconstruction = encoder.receive_reconstructed_frame().unwrap().unwrap();
    let packets = [idr_packet, p_packet];
    let reconstructions = [idr_reconstruction, p_reconstruction];
    let avcc = AvcDecoderConfigurationRecord::parse(&descriptor.configuration).unwrap();
    check_sequence(&avcc, &packets, &reconstructions);
}

#[test]
fn inter_mode_refines_integer_search_to_quarter_pixel_motion() {
    let mut settings = settings(16, 16);
    set_option(&mut settings, "mode", "inter");
    set_option(&mut settings, "search_range", "2");
    let mut encoder = H264Encoder::default();
    let descriptor = encoder.configure(&settings).unwrap();
    encoder.send_frame(patterned_frame(16, 16)).unwrap();
    let idr_packet = encoder.receive_packet().unwrap().unwrap();
    let idr_reconstruction = encoder.receive_reconstructed_frame().unwrap().unwrap();
    let fractional =
        fractional_motion_frame(&idr_reconstruction, MotionVector { x: 1, y: 2 }, 8);

    let configuration = &encoder.configuration().unwrap();
    let source = padded(&fractional, configuration);
    let decision = select_inter_partitions(
        &source,
        encoder.references(),
        16,
        16,
        0,
        0,
        2,
        &[[None; 16]],
        0,
        1,
    );
    assert_eq!(decision.macroblock_type, 0);
    assert_eq!(decision.partitions[0].motion, MotionVector { x: 1, y: 2 });

    encoder.send_frame(fractional).unwrap();
    let p_packet = encoder.receive_packet().unwrap().unwrap();
    let p_reconstruction = encoder.receive_reconstructed_frame().unwrap().unwrap();
    let packets = [idr_packet, p_packet];
    let reconstructions = [idr_reconstruction, p_reconstruction];
    let avcc = AvcDecoderConfigurationRecord::parse(&descriptor.configuration).unwrap();
    check_sequence(&avcc, &packets, &reconstructions);
}

#[test]
fn inter_mode_selects_an_older_short_term_reference() {
    let mut settings = settings(16, 16);
    set_option(&mut settings, "mode", "inter");
    set_option(&mut settings, "max_refs", "2");
    set_option(&mut settings, "search_range", "0");
    let mut encoder = H264Encoder::default();
    let descriptor = encoder.configure(&settings).unwrap();

    let first = frame_with_pts(patterned_frame(16, 16), 0);
    encoder.send_frame(first).unwrap();
    let first_packet = encoder.receive_packet().unwrap().unwrap();
    let first_reconstruction = encoder.receive_reconstructed_frame().unwrap().unwrap();
    let second = frame_with_pts(constant_frame(16, 16, [220, 32, 224]), 1);
    encoder.send_frame(second).unwrap();
    let second_packet = encoder.receive_packet().unwrap().unwrap();
    let second_reconstruction = encoder.receive_reconstructed_frame().unwrap().unwrap();

    assert_eq!(encoder.references().len(), 2);
    let third = frame_with_pts(first_reconstruction.clone(), 2);
    let configuration = &encoder.configuration().unwrap();
    let source = padded(&third, configuration);
    let decision = select_inter_partitions(
        &source,
        encoder.references(),
        16,
        16,
        0,
        0,
        0,
        &[[None; 16]],
        0,
        1,
    );
    assert_eq!(decision.partitions[0].reference_index, 1);

    encoder.send_frame(third).unwrap();
    let third_packet = encoder.receive_packet().unwrap().unwrap();
    let third_reconstruction = encoder.receive_reconstructed_frame().unwrap().unwrap();
    assert_frames_pixels_equal(&third_reconstruction, &first_reconstruction);
    let packets = [first_packet, second_packet, third_packet];
    let reconstructions = [
        first_reconstruction,
        second_reconstruction,
        third_reconstruction,
    ];
    let avcc = AvcDecoderConfigurationRecord::parse(&descriptor.configuration).unwrap();
    check_sequence(&avcc, &packets, &reconstructions);
}

#[test]
fn inter_mode_reorders_and_round_trips_bidirectional_b_pictures() {
    let mut settings = settings(16, 16);
    set_option(&mut settings, "mode", "inter");
    set_option(&mut settings, "max_refs", "2");
    set_option(&mut settings, "b_frames", "1");
    set_option(&mut settings, "gop_size", "12");
    set_option(&mut settings, "search_range", "4");
    settings.bitrate = Some(1_000);
    let mut encoder = H264Encoder::default();
    let descriptor = encoder.configure(&settings).unwrap();
    let avcc = AvcDecoderConfigurationRecord::parse(&descriptor.configuration).unwrap();
    let sps = parse_sps(&avcc.sequence_parameter_sets[0]).unwrap();
    assert_eq!(sps.max_num_ref_frames, 2);
    assert!(sps.pic_order_cnt_type == 0);

    let first = frame_with_pts(patterned_frame(16, 16), 0);
    let middle = shifted_frame(&first, 1, 0, 1);
    let future = shifted_frame(&first, 2, 0, 2);
    encoder.send_frame(first).unwrap();
    let idr_packet = encoder.receive_packet().unwrap().unwrap();
    let idr_reconstruction = encoder.receive_reconstructed_frame().unwrap().unwrap();
    encoder.send_frame(middle).unwrap();
    assert!(encoder.receive_packet().unwrap().is_none());
    assert!(encoder.receive_reconstructed_frame().unwrap().is_none());
    encoder.send_frame(future).unwrap();
    let future_packet = encoder.receive_packet().unwrap().unwrap();
    let b_packet = encoder.receive_packet().unwrap().unwrap();
    let future_reconstruction = encoder.receive_reconstructed_frame().unwrap().unwrap();
    let b_reconstruction = encoder.receive_reconstructed_frame().unwrap().unwrap();
    assert!(encoder.rate_control().unwrap().current_qp > 26);

    assert_eq!(
        [
            idr_packet.pts.unwrap().value,
            future_packet.pts.unwrap().value,
            b_packet.pts.unwrap().value
        ],
        [0, 2, 1]
    );
    assert_eq!(
        [
            idr_packet.dts.unwrap().value,
            future_packet.dts.unwrap().value,
            b_packet.dts.unwrap().value
        ],
        [0, 1, 2]
    );
    let b_units = length_prefixed_nal_units(&b_packet.data, 4).unwrap();
    assert_eq!(b_units[0].header.reference_idc, 0);

    let decode_order_packets = [idr_packet, future_packet, b_packet];
    check_sequence(
        &avcc,
        &decode_order_packets,
        &[idr_reconstruction, b_reconstruction, future_reconstruction],
    );
}

#[test]
fn fast_analysis_round_trips_hierarchical_p_and_direct_b_pictures() {
    let mut settings = settings(32, 16);
    for (name, value) in [
        ("mode", "inter"),
        ("profile", "high"),
        ("entropy", "cabac"),
        ("analysis", "fast"),
        ("max_refs", "2"),
        ("b_frames", "1"),
        ("search_range", "8"),
    ] {
        set_option(&mut settings, name, value);
    }
    let mut encoder = H264Encoder::default();
    let descriptor = encoder.configure(&settings).unwrap();
    let first = frame_with_pts(patterned_frame(32, 16), 0);
    let middle = shifted_frame(&first, 1, 0, 1);
    let future = shifted_frame(&first, 2, 0, 2);
    encoder.send_frame(first).unwrap();
    let idr_packet = encoder.receive_packet().unwrap().unwrap();
    let idr_reconstruction = encoder.receive_reconstructed_frame().unwrap().unwrap();
    encoder.send_frame(middle).unwrap();
    encoder.send_frame(future).unwrap();
    let p_packet = encoder.receive_packet().unwrap().unwrap();
    let b_packet = encoder.receive_packet().unwrap().unwrap();
    let p_reconstruction = encoder.receive_reconstructed_frame().unwrap().unwrap();
    let b_reconstruction = encoder.receive_reconstructed_frame().unwrap().unwrap();
    let packets = [idr_packet, p_packet, b_packet];
    let avcc = AvcDecoderConfigurationRecord::parse(&descriptor.configuration).unwrap();
    check_sequence(
        &avcc,
        &packets,
        &[idr_reconstruction, b_reconstruction, p_reconstruction],
    );
}

#[test]
fn fast_analysis_splits_high_error_partial_motion_instead_of_leaving_ghosts() {
    let mut settings = settings(32, 16);
    for (name, value) in [
        ("mode", "inter"),
        ("profile", "high"),
        ("entropy", "cabac"),
        ("analysis", "fast"),
        ("search_range", "8"),
    ] {
        set_option(&mut settings, name, value);
    }
    let mut first = frame_with_pts(constant_frame(32, 16, [16, 128, 128]), 0);
    let first_stride = first.planes[0].stride;
    for y in 4..12 {
        for x in 0..8 {
            first.planes[0].data[y * first_stride + x] = 235;
        }
    }
    let mut encoder = H264Encoder::default();
    encoder.configure(&settings).unwrap();
    encoder.send_frame(first).unwrap();
    encoder.receive_packet().unwrap().unwrap();
    encoder.receive_reconstructed_frame().unwrap().unwrap();

    let mut moved = frame_with_pts(constant_frame(32, 16, [16, 128, 128]), 1);
    let moved_stride = moved.planes[0].stride;
    for y in 4..12 {
        for x in 8..16 {
            moved.planes[0].data[y * moved_stride + x] = 235;
        }
    }
    let configuration = &encoder.configuration().unwrap();
    let source = padded(&moved, configuration);
    let decision = select_inter_partitions_with_analysis(
        &source,
        encoder.references(),
        16 * configuration.macroblocks_wide,
        16 * configuration.macroblocks_high,
        0,
        0,
        configuration.search_range,
        AnalysisPreset::Fast,
        &[[None; 16]; 2],
        0,
        2,
    );
    assert_ne!(decision.macroblock_type, 0);
    assert!(decision.partitions.len() > 1);
}

#[test]
fn inter_mode_reorders_three_consecutive_b_pictures() {
    let mut settings = settings(16, 16);
    set_option(&mut settings, "mode", "inter");
    set_option(&mut settings, "b_frames", "3");
    set_option(&mut settings, "gop_size", "20");
    set_option(&mut settings, "search_range", "2");
    let mut encoder = H264Encoder::default();
    let descriptor = encoder.configure(&settings).unwrap();
    let first = frame_with_pts(patterned_frame(16, 16), 0);
    let frames = [
        first.clone(),
        shifted_frame(&first, 1, 0, 1),
        shifted_frame(&first, 2, 0, 2),
        shifted_frame(&first, 3, 0, 3),
        shifted_frame(&first, 4, 0, 4),
    ];
    let mut packets = Vec::new();
    let mut reconstructions = Vec::new();
    for (index, frame) in frames.into_iter().enumerate() {
        encoder.send_frame(frame).unwrap();
        while let Some(packet) = encoder.receive_packet().unwrap() {
            packets.push(packet);
            reconstructions.push(encoder.receive_reconstructed_frame().unwrap().unwrap());
        }
        if (1..=3).contains(&index) {
            assert_eq!(packets.len(), 1);
        }
    }
    assert_eq!(
        packets
            .iter()
            .map(|packet| packet.pts.unwrap().value)
            .collect::<Vec<_>>(),
        [0, 4, 1, 2, 3]
    );
    assert_eq!(
        packets
            .iter()
            .map(|packet| packet.dts.unwrap().value)
            .collect::<Vec<_>>(),
        [0, 1, 2, 3, 4]
    );
    let mut display_order = reconstructions.clone();
    display_order.sort_by_key(|frame| frame.timing.pts.unwrap().value);
    let avcc = AvcDecoderConfigurationRecord::parse(&descriptor.configuration).unwrap();
    check_sequence(&avcc, &packets, &display_order);
}

#[test]
fn delayed_b_input_drains_safely_at_flush_and_gop_boundaries() {
    let mut settings = settings(16, 16);
    set_option(&mut settings, "mode", "inter");
    set_option(&mut settings, "b_frames", "3");
    let mut draining = H264Encoder::default();
    draining.configure(&settings).unwrap();
    draining
        .send_frame(frame_with_pts(patterned_frame(16, 16), 0))
        .unwrap();
    draining.receive_packet().unwrap().unwrap();
    draining.receive_reconstructed_frame().unwrap().unwrap();
    for pts in 1..=3 {
        draining
            .send_frame(frame_with_pts(patterned_frame(16, 16), pts))
            .unwrap();
    }
    assert!(draining.receive_packet().unwrap().is_none());
    draining.flush().unwrap();
    let drained = std::iter::from_fn(|| draining.receive_packet().unwrap()).collect::<Vec<_>>();
    assert_eq!(
        drained
            .iter()
            .map(|packet| (packet.pts.unwrap().value, packet.dts.unwrap().value))
            .collect::<Vec<_>>(),
        [(1, 1), (2, 2), (3, 3)]
    );

    let mut boundary_settings = settings.clone();
    set_option(&mut boundary_settings, "gop_size", "2");
    let mut boundary = H264Encoder::default();
    boundary.configure(&boundary_settings).unwrap();
    for pts in 0..3 {
        boundary
            .send_frame(frame_with_pts(patterned_frame(16, 16), pts))
            .unwrap();
    }
    let boundary_packets =
        std::iter::from_fn(|| boundary.receive_packet().unwrap()).collect::<Vec<_>>();
    assert_eq!(boundary_packets.len(), 3);
    assert_eq!(
        boundary_packets
            .iter()
            .map(|packet| packet.pts.unwrap().value)
            .collect::<Vec<_>>(),
        [0, 1, 2]
    );
    assert!(!boundary_packets[1].key);
    assert!(boundary_packets[2].key);
}

#[test]
fn b_motion_selector_supports_direct_unidirectional_and_split_prediction() {
    let mut encoder_settings = settings(16, 16);
    set_option(&mut encoder_settings, "mode", "inter");
    set_option(&mut encoder_settings, "b_frames", "1");
    set_option(&mut encoder_settings, "search_range", "0");
    let mut encoder = H264Encoder::default();
    encoder.configure(&encoder_settings).unwrap();
    let configuration = &encoder.configuration().unwrap();
    let previous_frame = constant_frame(16, 16, [20, 80, 100]);
    let future_frame = constant_frame(16, 16, [220, 160, 180]);
    let previous = EncoderReference {
        planes: padded(&previous_frame, configuration),
        pic_order_count: 0,
        motion_l0: vec![[None; 16]],
        reference_l0_poc: vec![[None; 16]],
        macroblock_intra: vec![true],
    };
    let future = EncoderReference {
        planes: padded(&future_frame, configuration),
        pic_order_count: 4,
        motion_l0: vec![[None; 16]],
        reference_l0_poc: vec![[None; 16]],
        macroblock_intra: vec![true],
    };
    let horizontal_split = split_between_frames(&previous_frame, &future_frame, true);
    let vertical_split = split_between_frames(&previous_frame, &future_frame, false);
    for (source_frame, expected_type) in [
        (previous_frame.clone(), 1),
        (future_frame.clone(), 2),
        (constant_frame(16, 16, [120, 120, 140]), 0),
        (horizontal_split, 8),
        (vertical_split, 9),
    ] {
        let source = padded(&source_frame, configuration);
        let decision = select_b_inter_partitions(
            &source,
            &previous,
            &future,
            16,
            16,
            0,
            0,
            0,
            &[[None; 16]],
            &[[None; 16]],
            0,
            1,
            SPATIAL,
        );
        assert_eq!(decision.macroblock_type, expected_type);
        assert_eq!(decision.direct, expected_type == 0);
    }
}

#[test]
fn spatial_direct_uses_nonzero_neighbors_and_colocated_zero_overrides() {
    let previous_frame = constant_frame(32, 16, [20, 80, 100]);
    let future_frame = constant_frame(32, 16, [220, 160, 180]);
    let average = constant_frame(32, 16, [120, 120, 140]);
    let mut wide_encoder = H264Encoder::default();
    wide_encoder.configure(&settings(32, 16)).unwrap();
    let wide_configuration = &wide_encoder.configuration().unwrap();
    let previous = EncoderReference {
        planes: padded(&previous_frame, wide_configuration),
        pic_order_count: 0,
        motion_l0: vec![[None; 16]; 2],
        reference_l0_poc: vec![[None; 16]; 2],
        macroblock_intra: vec![true; 2],
    };
    let future_motion = Some(MotionState {
        vector: MotionVector { x: 8, y: 0 },
        reference_index: Some(0),
    });
    let future = EncoderReference {
        planes: padded(&future_frame, wide_configuration),
        pic_order_count: 4,
        motion_l0: vec![[future_motion; 16]; 2],
        reference_l0_poc: vec![[Some(0); 16]; 2],
        macroblock_intra: vec![false; 2],
    };
    let neighbor = Some(MotionState {
        vector: MotionVector { x: 4, y: 0 },
        reference_index: Some(0),
    });
    let decision = select_b_inter_partitions(
        &padded(&average, wide_configuration),
        &previous,
        &future,
        32,
        16,
        1,
        0,
        0,
        &[[neighbor; 16], [None; 16]],
        &[[neighbor; 16], [None; 16]],
        1,
        2,
        SPATIAL,
    );
    assert_eq!(decision.macroblock_type, 0);
    assert!(decision.direct);
    assert!(decision.partitions.iter().all(|partition| {
        partition
            .list0
            .is_some_and(|selected| selected.motion == MotionVector { x: 4, y: 0 })
            && partition
                .list1
                .is_some_and(|selected| selected.motion == MotionVector { x: 4, y: 0 })
    }));

    let mut future_with_colocated_zero = copied(&future);
    future_with_colocated_zero.motion_l0[1][luma_block_index(0, 0)] = Some(MotionState {
        vector: MotionVector { x: 0, y: 0 },
        reference_index: Some(0),
    });
    let (_, direct) = BSite {
        source: &padded(&average, wide_configuration),
        previous: &previous,
        future: &future_with_colocated_zero,
        wide: 2,
        high: 1,
        x: 1,
        y: 0,
        search_range: 0,
        motions_l0: &[[neighbor; 16], [None; 16]],
        motions_l1: &[[neighbor; 16], [None; 16]],
        direct_mode: BDirectMode::Spatial,
        picture_order_count: 0,
    }
    .select_direct_b_prediction()
    .unwrap();
    assert_eq!(
        direct.partitions[0].list0.unwrap().motion,
        MotionVector { x: 0, y: 0 }
    );
    assert!(direct.partitions[1..].iter().all(|partition| {
        partition
            .list0
            .is_some_and(|selected| selected.motion == MotionVector { x: 4, y: 0 })
    }));
}

#[test]
fn inter_mode_encodes_spatial_direct_b_skip_runs() {
    let mut settings = settings(32, 16);
    set_option(&mut settings, "mode", "inter");
    set_option(&mut settings, "max_refs", "2");
    set_option(&mut settings, "b_frames", "1");
    set_option(&mut settings, "search_range", "0");
    let mut encoder = H264Encoder::default();
    let descriptor = encoder.configure(&settings).unwrap();
    let stable = constant_frame(32, 16, [96, 128, 160]);

    encoder
        .send_frame(frame_with_pts(stable.clone(), 0))
        .unwrap();
    let idr_packet = encoder.receive_packet().unwrap().unwrap();
    let idr_reconstruction = encoder.receive_reconstructed_frame().unwrap().unwrap();
    encoder
        .send_frame(frame_with_pts(idr_reconstruction.clone(), 1))
        .unwrap();
    encoder
        .send_frame(frame_with_pts(idr_reconstruction.clone(), 2))
        .unwrap();
    let future_packet = encoder.receive_packet().unwrap().unwrap();
    let b_packet = encoder.receive_packet().unwrap().unwrap();
    let future_reconstruction = encoder.receive_reconstructed_frame().unwrap().unwrap();
    let b_reconstruction = encoder.receive_reconstructed_frame().unwrap().unwrap();

    let source = padded(&idr_reconstruction, &encoder.configuration().unwrap());
    let decision = select_b_inter_partitions(
        &source,
        &encoder.references()[1],
        &encoder.references()[0],
        32,
        16,
        0,
        0,
        0,
        &[[None; 16]; 2],
        &[[None; 16]; 2],
        0,
        2,
        SPATIAL,
    );
    assert!(decision.direct);

    let units = length_prefixed_nal_units(&b_packet.data, 4).unwrap();
    let rbsp = remove_emulation_prevention(&units[0].data[1..]);
    let mut bits = BitReader::new(&rbsp);
    assert_eq!(read_test_ue(&mut bits), 0); // first_mb_in_slice
    assert_eq!(read_test_ue(&mut bits), 1); // B slice
    assert_eq!(read_test_ue(&mut bits), 0); // PPS
    bits.skip_bits(8).unwrap(); // frame_num and POC LSB
    assert!(bits.read_bit().unwrap()); // spatial direct
    assert!(!bits.read_bit().unwrap()); // default reference counts
    assert!(!bits.read_bit().unwrap()); // list 0 modification
    assert!(!bits.read_bit().unwrap()); // list 1 modification
    assert_eq!(read_test_ue(&mut bits), 0); // slice_qp_delta
    assert_eq!(read_test_ue(&mut bits), 1); // deblocking disabled
    assert_eq!(read_test_ue(&mut bits), 2); // two skipped macroblocks

    let packets = [idr_packet, future_packet, b_packet];
    let avcc = AvcDecoderConfigurationRecord::parse(&descriptor.configuration).unwrap();
    check_sequence(
        &avcc,
        &packets,
        &[idr_reconstruction, b_reconstruction, future_reconstruction],
    );
}

#[test]
fn inter_mode_encodes_spatial_direct_residuals() {
    let mut settings = settings(16, 16);
    set_option(&mut settings, "mode", "inter");
    set_option(&mut settings, "max_refs", "2");
    set_option(&mut settings, "b_frames", "1");
    set_option(&mut settings, "search_range", "0");
    set_option(&mut settings, "qp", "0");
    let mut encoder = H264Encoder::default();
    let descriptor = encoder.configure(&settings).unwrap();

    encoder
        .send_frame(frame_with_pts(constant_frame(16, 16, [96, 128, 160]), 0))
        .unwrap();
    let idr_packet = encoder.receive_packet().unwrap().unwrap();
    let idr_reconstruction = encoder.receive_reconstructed_frame().unwrap().unwrap();
    let middle = frame_with_pts(constant_frame(16, 16, [120, 144, 176]), 1);
    encoder.send_frame(middle.clone()).unwrap();
    encoder
        .send_frame(frame_with_pts(idr_reconstruction.clone(), 2))
        .unwrap();
    let future_packet = encoder.receive_packet().unwrap().unwrap();
    let b_packet = encoder.receive_packet().unwrap().unwrap();
    let future_reconstruction = encoder.receive_reconstructed_frame().unwrap().unwrap();
    let b_reconstruction = encoder.receive_reconstructed_frame().unwrap().unwrap();

    let decision = select_b_inter_partitions(
        &padded(&middle, &encoder.configuration().unwrap()),
        &encoder.references()[1],
        &encoder.references()[0],
        16,
        16,
        0,
        0,
        0,
        &[[None; 16]],
        &[[None; 16]],
        0,
        1,
        SPATIAL,
    );
    assert!(decision.direct);

    let units = length_prefixed_nal_units(&b_packet.data, 4).unwrap();
    let rbsp = remove_emulation_prevention(&units[0].data[1..]);
    let mut bits = BitReader::new(&rbsp);
    assert_eq!(read_test_ue(&mut bits), 0);
    assert_eq!(read_test_ue(&mut bits), 1);
    assert_eq!(read_test_ue(&mut bits), 0);
    bits.skip_bits(8).unwrap();
    for expected in [true, false, false, false] {
        assert_eq!(bits.read_bit().unwrap(), expected);
    }
    assert_eq!(read_test_ue(&mut bits), 52); // slice_qp_delta = -26
    assert_eq!(read_test_ue(&mut bits), 1);
    assert_eq!(read_test_ue(&mut bits), 0); // no skipped macroblock
    assert_eq!(read_test_ue(&mut bits), 0); // B_Direct_16x16
    assert_ne!(read_test_ue(&mut bits), 0); // nonzero coded-block pattern

    let packets = [idr_packet, future_packet, b_packet];
    let avcc = AvcDecoderConfigurationRecord::parse(&descriptor.configuration).unwrap();
    check_sequence(
        &avcc,
        &packets,
        &[idr_reconstruction, b_reconstruction, future_reconstruction],
    );
}

#[test]
fn inter_mode_encodes_nonzero_spatial_direct_motion() {
    let mut settings = settings(32, 16);
    set_option(&mut settings, "mode", "inter");
    set_option(&mut settings, "max_refs", "2");
    set_option(&mut settings, "b_frames", "1");
    set_option(&mut settings, "search_range", "4");
    let mut encoder = H264Encoder::default();
    let descriptor = encoder.configure(&settings).unwrap();
    let first = frame_with_pts(patterned_frame(32, 16), 0);
    let middle = shifted_frame(&first, 1, 0, 1);
    let future = shifted_frame(&first, 2, 0, 2);

    encoder.send_frame(first).unwrap();
    let idr_packet = encoder.receive_packet().unwrap().unwrap();
    let idr_reconstruction = encoder.receive_reconstructed_frame().unwrap().unwrap();
    encoder.send_frame(middle.clone()).unwrap();
    encoder.send_frame(future).unwrap();
    let future_packet = encoder.receive_packet().unwrap().unwrap();
    let b_packet = encoder.receive_packet().unwrap().unwrap();
    let future_reconstruction = encoder.receive_reconstructed_frame().unwrap().unwrap();
    let b_reconstruction = encoder.receive_reconstructed_frame().unwrap().unwrap();

    let source = padded(&middle, &encoder.configuration().unwrap());
    let mut history_l0 = vec![[None; 16]; 2];
    let mut history_l1 = vec![[None; 16]; 2];
    let first_decision = select_b_inter_partitions(
        &source,
        &encoder.references()[1],
        &encoder.references()[0],
        32,
        16,
        0,
        0,
        4,
        &history_l0,
        &history_l1,
        0,
        2,
        SPATIAL,
    );
    commit_b_motion_history(&mut history_l0[0], &first_decision.partitions, false);
    commit_b_motion_history(&mut history_l1[0], &first_decision.partitions, true);
    let second_decision = select_b_inter_partitions(
        &source,
        &encoder.references()[1],
        &encoder.references()[0],
        32,
        16,
        1,
        0,
        4,
        &history_l0,
        &history_l1,
        1,
        2,
        SPATIAL,
    );
    assert!(second_decision.direct, "{second_decision:?}");
    assert!(second_decision.partitions.iter().any(|partition| {
        partition
            .list0
            .is_some_and(|selected| selected.motion != MotionVector { x: 0, y: 0 })
            || partition
                .list1
                .is_some_and(|selected| selected.motion != MotionVector { x: 0, y: 0 })
    }));

    let packets = [idr_packet, future_packet, b_packet];
    let avcc = AvcDecoderConfigurationRecord::parse(&descriptor.configuration).unwrap();
    check_sequence(
        &avcc,
        &packets,
        &[idr_reconstruction, b_reconstruction, future_reconstruction],
    );
}

#[test]
fn temporal_direct_scales_colocated_motion_and_requires_reference_identity() {
    assert_eq!(
        temporal_direct_motion_vectors(MotionVector { x: 8, y: -4 }, 2, 4, 0),
        (MotionVector { x: 4, y: -2 }, MotionVector { x: -4, y: 2 })
    );
    let mut encoder = H264Encoder::default();
    encoder.configure(&settings(16, 16)).unwrap();
    let configuration = &encoder.configuration().unwrap();
    let previous = EncoderReference {
        planes: padded(&patterned_frame(16, 16), configuration),
        pic_order_count: 0,
        motion_l0: vec![[None; 16]],
        reference_l0_poc: vec![[None; 16]],
        macroblock_intra: vec![true],
    };
    let colocated = Some(MotionState {
        vector: MotionVector { x: 8, y: -4 },
        reference_index: Some(0),
    });
    let mut future = EncoderReference {
        planes: previous.planes.clone(),
        pic_order_count: 4,
        motion_l0: vec![[colocated; 16]],
        reference_l0_poc: vec![[Some(0); 16]],
        macroblock_intra: vec![false],
    };
    let partition =
        temporal_direct_partition(&previous, &future, 0, direct_8x8_partition(0), 2).unwrap();
    assert_eq!(
        partition.list0.unwrap().motion,
        MotionVector { x: 4, y: -2 }
    );
    assert_eq!(
        partition.list1.unwrap().motion,
        MotionVector { x: -4, y: 2 }
    );
    future.reference_l0_poc[0].fill(Some(-2));
    assert!(
        temporal_direct_partition(&previous, &future, 0, direct_8x8_partition(0), 2).is_none()
    );
}

#[test]
fn inter_mode_encodes_temporal_direct_b_skip() {
    let mut settings = settings(16, 16);
    set_option(&mut settings, "mode", "inter");
    set_option(&mut settings, "max_refs", "2");
    set_option(&mut settings, "b_frames", "1");
    set_option(&mut settings, "b_direct", "temporal");
    set_option(&mut settings, "search_range", "4");
    let first = frame_with_pts(patterned_frame(16, 16), 0);
    let future = shifted_frame(&first, 2, 0, 2);
    let middle = temporal_direct_test_frame(&settings, &first, &future);
    let mut encoder = H264Encoder::default();
    let descriptor = encoder.configure(&settings).unwrap();

    encoder.send_frame(first).unwrap();
    let idr_packet = encoder.receive_packet().unwrap().unwrap();
    let idr_reconstruction = encoder.receive_reconstructed_frame().unwrap().unwrap();
    encoder.send_frame(middle.clone()).unwrap();
    encoder.send_frame(future).unwrap();
    let future_packet = encoder.receive_packet().unwrap().unwrap();
    let b_packet = encoder.receive_packet().unwrap().unwrap();
    let future_reconstruction = encoder.receive_reconstructed_frame().unwrap().unwrap();
    let b_reconstruction = encoder.receive_reconstructed_frame().unwrap().unwrap();

    let decision = select_b_inter_partitions(
        &padded(&middle, &encoder.configuration().unwrap()),
        &encoder.references()[1],
        &encoder.references()[0],
        16,
        16,
        0,
        0,
        4,
        &[[None; 16]],
        &[[None; 16]],
        0,
        1,
        BDirectContext {
            mode: BDirectMode::Temporal,
            picture_order_count: 2,
        },
    );
    assert!(decision.direct);
    assert!(decision.partitions.iter().any(|partition| {
        partition
            .list0
            .is_some_and(|selected| selected.motion != MotionVector { x: 0, y: 0 })
    }));

    let units = length_prefixed_nal_units(&b_packet.data, 4).unwrap();
    let rbsp = remove_emulation_prevention(&units[0].data[1..]);
    let mut bits = BitReader::new(&rbsp);
    assert_eq!(read_test_ue(&mut bits), 0);
    assert_eq!(read_test_ue(&mut bits), 1);
    assert_eq!(read_test_ue(&mut bits), 0);
    bits.skip_bits(8).unwrap();
    assert!(!bits.read_bit().unwrap()); // temporal direct
    for _ in 0..3 {
        assert!(!bits.read_bit().unwrap());
    }
    assert_eq!(read_test_ue(&mut bits), 0);
    assert_eq!(read_test_ue(&mut bits), 1);
    assert_eq!(read_test_ue(&mut bits), 1);

    let packets = [idr_packet, future_packet, b_packet];
    let avcc = AvcDecoderConfigurationRecord::parse(&descriptor.configuration).unwrap();
    check_sequence(
        &avcc,
        &packets,
        &[idr_reconstruction, b_reconstruction, future_reconstruction],
    );
}

#[test]
fn inter_mode_encodes_both_b_split_partition_shapes() {
    for (horizontal, expected_type) in [(true, 8), (false, 9)] {
        let mut settings = settings(16, 16);
        set_option(&mut settings, "mode", "inter");
        set_option(&mut settings, "max_refs", "2");
        set_option(&mut settings, "b_frames", "1");
        set_option(&mut settings, "search_range", "0");
        let mut encoder = H264Encoder::default();
        let descriptor = encoder.configure(&settings).unwrap();
        let previous = frame_with_pts(constant_frame(16, 16, [20, 80, 100]), 0);
        let future = frame_with_pts(constant_frame(16, 16, [220, 160, 180]), 2);
        let middle = frame_with_pts(split_between_frames(&previous, &future, horizontal), 1);
        encoder.send_frame(previous).unwrap();
        let idr_packet = encoder.receive_packet().unwrap().unwrap();
        let idr_reconstruction = encoder.receive_reconstructed_frame().unwrap().unwrap();
        encoder.send_frame(middle.clone()).unwrap();
        encoder.send_frame(future).unwrap();
        let future_packet = encoder.receive_packet().unwrap().unwrap();
        let b_packet = encoder.receive_packet().unwrap().unwrap();
        let future_reconstruction = encoder.receive_reconstructed_frame().unwrap().unwrap();
        let b_reconstruction = encoder.receive_reconstructed_frame().unwrap().unwrap();

        let configuration = &encoder.configuration().unwrap();
        let source = padded(&middle, configuration);
        let decision = select_b_inter_partitions(
            &source,
            &encoder.references()[1],
            &encoder.references()[0],
            16,
            16,
            0,
            0,
            0,
            &[[None; 16]],
            &[[None; 16]],
            0,
            1,
            SPATIAL,
        );
        assert_eq!(decision.macroblock_type, expected_type);

        let packets = [idr_packet, future_packet, b_packet];
        let avcc = AvcDecoderConfigurationRecord::parse(&descriptor.configuration).unwrap();
        check_sequence(
            &avcc,
            &packets,
            &[idr_reconstruction, b_reconstruction, future_reconstruction],
        );
    }
}

#[test]
fn inter_mode_encodes_every_b8x8_subpartition_shape() {
    let mut settings = settings(16, 16);
    set_option(&mut settings, "mode", "inter");
    set_option(&mut settings, "max_refs", "2");
    set_option(&mut settings, "b_frames", "1");
    set_option(&mut settings, "search_range", "4");
    let mut encoder = H264Encoder::default();
    let descriptor = encoder.configure(&settings).unwrap();
    encoder
        .send_frame(frame_with_pts(patterned_frame(16, 16), 0))
        .unwrap();
    let idr_packet = encoder.receive_packet().unwrap().unwrap();
    let idr_reconstruction = encoder.receive_reconstructed_frame().unwrap().unwrap();
    let middle = subpartition_motion_frame(&idr_reconstruction, 1);
    let future = frame_with_pts(idr_reconstruction.clone(), 2);
    encoder.send_frame(middle.clone()).unwrap();
    encoder.send_frame(future).unwrap();
    let future_packet = encoder.receive_packet().unwrap().unwrap();
    let b_packet = encoder.receive_packet().unwrap().unwrap();
    let future_reconstruction = encoder.receive_reconstructed_frame().unwrap().unwrap();
    let b_reconstruction = encoder.receive_reconstructed_frame().unwrap().unwrap();

    let configuration = &encoder.configuration().unwrap();
    let source = padded(&middle, configuration);
    let decision = select_b_inter_partitions(
        &source,
        &encoder.references()[1],
        &encoder.references()[0],
        16,
        16,
        0,
        0,
        4,
        &[[None; 16]],
        &[[None; 16]],
        0,
        1,
        SPATIAL,
    );
    assert_eq!(decision.macroblock_type, 22);
    assert_eq!(decision.sub_macroblock_types, [1, 4, 5, 11]);

    let packets = [idr_packet, future_packet, b_packet];
    let avcc = AvcDecoderConfigurationRecord::parse(&descriptor.configuration).unwrap();
    check_sequence(
        &avcc,
        &packets,
        &[idr_reconstruction, b_reconstruction, future_reconstruction],
    );
}

#[test]
fn inter_mode_encodes_mixed_direct_b8x8_submacroblocks() {
    let mut settings = settings(16, 16);
    set_option(&mut settings, "mode", "inter");
    set_option(&mut settings, "max_refs", "2");
    set_option(&mut settings, "b_frames", "1");
    set_option(&mut settings, "search_range", "4");
    let mut encoder = H264Encoder::default();
    let descriptor = encoder.configure(&settings).unwrap();
    encoder
        .send_frame(frame_with_pts(patterned_frame(16, 16), 0))
        .unwrap();
    let idr_packet = encoder.receive_packet().unwrap().unwrap();
    let idr_reconstruction = encoder.receive_reconstructed_frame().unwrap().unwrap();
    let middle = direct_subpartition_motion_frame(&idr_reconstruction, 1);
    let future = frame_with_pts(idr_reconstruction.clone(), 2);
    encoder.send_frame(middle.clone()).unwrap();
    encoder.send_frame(future).unwrap();
    let future_packet = encoder.receive_packet().unwrap().unwrap();
    let b_packet = encoder.receive_packet().unwrap().unwrap();
    let future_reconstruction = encoder.receive_reconstructed_frame().unwrap().unwrap();
    let b_reconstruction = encoder.receive_reconstructed_frame().unwrap().unwrap();

    let configuration = &encoder.configuration().unwrap();
    let decision = select_b_inter_partitions(
        &padded(&middle, configuration),
        &encoder.references()[1],
        &encoder.references()[0],
        16,
        16,
        0,
        0,
        4,
        &[[None; 16]],
        &[[None; 16]],
        0,
        1,
        SPATIAL,
    );
    assert_eq!(decision.macroblock_type, 22);
    assert_eq!(decision.sub_macroblock_types[0], 0);
    assert!(decision.partitions[0].direct);
    assert!(
        decision.sub_macroblock_types[1..]
            .iter()
            .all(|&kind| kind != 0)
    );

    let packets = [idr_packet, future_packet, b_packet];
    let avcc = AvcDecoderConfigurationRecord::parse(&descriptor.configuration).unwrap();
    check_sequence(
        &avcc,
        &packets,
        &[idr_reconstruction, b_reconstruction, future_reconstruction],
    );
}

fn settings(width: usize, height: usize) -> VideoEncoderSettings {
    VideoEncoderSettings {
        width,
        height,
        pixel_format: PixelFormat::Yuv420p8,
        time_base: rational(1, 25),
        bitrate: None,
        options: OptionMap::new(),
    }
}

fn read_test_ue(reader: &mut BitReader<'_>) -> u64 {
    let mut leading_zeroes = 0_u8;
    while !reader.read_bit().unwrap() {
        leading_zeroes += 1;
    }
    if leading_zeroes == 0 {
        0
    } else {
        (1_u64 << leading_zeroes) - 1 + reader.read_bits(leading_zeroes).unwrap()
    }
}

fn patterned_frame(width: usize, height: usize) -> VideoFrame {
    let dimensions = [
        (width, height),
        (width / 2, height / 2),
        (width / 2, height / 2),
    ];
    let planes = dimensions
        .into_iter()
        .enumerate()
        .map(|(component, (plane_width, plane_height))| {
            let stride = plane_width + 3;
            let mut data = vec![0; stride * plane_height];
            for y in 0..plane_height {
                for x in 0..plane_width {
                    data[y * stride + x] =
                        u8::try_from((x * 17 + y * 29 + component * 67) & 0xff).unwrap();
                }
            }
            Plane {
                data,
                stride,
                width: plane_width,
                height: plane_height,
            }
        })
        .collect();
    let time_base = rational(1, 25);
    VideoFrame {
        format: PixelFormat::Yuv420p8,
        width,
        height,
        planes,
        timing: FrameTiming {
            pts: Some(Timestamp {
                value: 7,
                time_base,
            }),
            duration: Some(Timestamp {
                value: 1,
                time_base,
            }),
        },
        color: ColorDescription { primaries: None, transfer: None, matrix: None, full_range: None },
        field_order: FieldOrder::Progressive,
    }
}

fn constant_frame(width: usize, height: usize, samples: [u8; 3]) -> VideoFrame {
    let mut frame = patterned_frame(width, height);
    for (plane, sample) in frame.planes.iter_mut().zip(samples) {
        plane.data.fill(sample);
    }
    frame
}

fn mixed_activity_frame(width: usize, height: usize, pts: i64) -> VideoFrame {
    let texture = patterned_frame(width, height);
    let mut output = constant_frame(width, height, [96, 128, 128]);
    for (destination, source) in output.planes.iter_mut().zip(&texture.planes) {
        for y in 0..destination.height {
            for x in destination.width / 2..destination.width {
                destination.data[y * destination.stride + x] =
                    source.data[y * source.stride + x];
            }
        }
    }
    frame_with_pts(output, pts)
}

fn shifted_frame(source: &VideoFrame, shift_x: usize, shift_y: usize, pts: i64) -> VideoFrame {
    let mut output = source.clone();
    for (component, (destination, source_plane)) in
        output.planes.iter_mut().zip(&source.planes).enumerate()
    {
        let divisor = if component == 0 { 1 } else { 2 };
        let shift_x = shift_x / divisor;
        let shift_y = shift_y / divisor;
        for y in 0..destination.height {
            for x in 0..destination.width {
                let source_x = x.saturating_sub(shift_x);
                let source_y = y.saturating_sub(shift_y);
                destination.data[y * destination.stride + x] =
                    source_plane.data[source_y * source_plane.stride + source_x];
            }
        }
    }
    frame_with_pts(output, pts)
}

fn temporal_direct_test_frame(
    settings: &VideoEncoderSettings,
    first: &VideoFrame,
    future: &VideoFrame,
) -> VideoFrame {
    let mut probe = H264Encoder::default();
    probe.configure(settings).unwrap();
    probe.send_frame(first.clone()).unwrap();
    probe.receive_packet().unwrap().unwrap();
    probe.receive_reconstructed_frame().unwrap().unwrap();
    probe.send_frame(frame_with_pts(first.clone(), 1)).unwrap();
    probe.send_frame(future.clone()).unwrap();

    let configuration = &probe.configuration().unwrap();
    let source = padded(first, configuration);
    let (_, direct) = BSite {
        source: &source,
        previous: &probe.references()[1],
        future: &probe.references()[0],
        wide: 1,
        high: 1,
        x: 0,
        y: 0,
        search_range: 0,
        motions_l0: &[[None; 16]],
        motions_l1: &[[None; 16]],
        direct_mode: BDirectMode::Temporal,
        picture_order_count: 2,
    }
    .select_direct_b_prediction()
    .unwrap();
    assert!(direct.partitions.iter().any(|partition| {
        partition
            .list0
            .is_some_and(|selected| selected.motion != MotionVector { x: 0, y: 0 })
    }));

    let mut output = first.clone();
    for (component, prediction) in
        [&direct.prediction.luma, &direct.prediction.cb, &direct.prediction.cr]
            .into_iter()
            .enumerate()
    {
        let width = if component == 0 { 16 } else { 8 };
        let plane = &mut output.planes[component];
        for y in 0..width {
            plane.data[y * plane.stride..y * plane.stride + width]
                .copy_from_slice(&prediction[y * width..(y + 1) * width]);
        }
    }
    frame_with_pts(output, 1)
}

fn split_between_frames(
    first: &VideoFrame,
    second: &VideoFrame,
    horizontal: bool,
) -> VideoFrame {
    let mut output = first.clone();
    for ((destination, first_plane), second_plane) in output
        .planes
        .iter_mut()
        .zip(&first.planes)
        .zip(&second.planes)
    {
        for y in 0..destination.height {
            for x in 0..destination.width {
                let use_first = if horizontal {
                    y < destination.height / 2
                } else {
                    x < destination.width / 2
                };
                let source = if use_first { first_plane } else { second_plane };
                destination.data[y * destination.stride + x] =
                    source.data[y * source.stride + x];
            }
        }
    }
    output
}

fn split_motion_frame(source: &VideoFrame, horizontal_split: bool, pts: i64) -> VideoFrame {
    let mut output = source.clone();
    let source_plane = &source.planes[0];
    let destination = &mut output.planes[0];
    for y in 0..destination.height {
        for x in 0..destination.width {
            let first_half = if horizontal_split {
                y < destination.height / 2
            } else {
                x < destination.width / 2
            };
            let source_x = if first_half {
                x.saturating_sub(3)
            } else {
                (x + 3).min(source_plane.width - 1)
            };
            destination.data[y * destination.stride + x] =
                source_plane.data[y * source_plane.stride + source_x];
        }
    }
    frame_with_pts(output, pts)
}

fn subpartition_motion_frame(source: &VideoFrame, pts: i64) -> VideoFrame {
    let mut output = source.clone();
    let source_plane = &source.planes[0];
    let destination = &mut output.planes[0];
    for y in 0..16 {
        for x in 0..16 {
            let sub_index = (y / 8) * 2 + x / 8;
            let local_x = x % 8;
            let local_y = y % 8;
            let displacement = match sub_index {
                0 => -3,
                1 => {
                    if local_y < 4 {
                        -3
                    } else {
                        3
                    }
                }
                2 => {
                    if local_x < 4 {
                        -3
                    } else {
                        3
                    }
                }
                3 => [-3, -1, 1, 3][(local_y / 4) * 2 + local_x / 4],
                _ => unreachable!("16x16 frame has four 8x8 blocks"),
            };
            let source_x = usize::try_from(
                (i32::try_from(x).expect("test coordinate fits") + displacement).clamp(0, 15),
            )
            .unwrap();
            destination.data[y * destination.stride + x] =
                source_plane.data[y * source_plane.stride + source_x];
        }
    }
    frame_with_pts(output, pts)
}

fn direct_subpartition_motion_frame(source: &VideoFrame, pts: i64) -> VideoFrame {
    let mut output = subpartition_motion_frame(source, pts);
    let output_stride = output.planes[0].stride;
    let destination = &mut output.planes[0].data;
    for y in 0..8 {
        for x in 0..8 {
            destination[y * output_stride + x] =
                source.planes[0].data[y * source.planes[0].stride + x];
        }
    }
    output
}

fn fractional_motion_frame(source: &VideoFrame, motion: MotionVector, pts: i64) -> VideoFrame {
    let mut output = source.clone();
    for (component, (destination, source_plane)) in
        output.planes.iter_mut().zip(&source.planes).enumerate()
    {
        let reference = ReferencePlane {
            samples: &source_plane.data,
            width: source_plane.width,
            height: source_plane.height,
        };
        for y in 0..destination.height {
            for x in 0..destination.width {
                destination.data[y * destination.stride + x] = if component == 0 {
                    reference
                        .luma_qpel(x as i64 * 4 + motion.x as i64, y as i64 * 4 + motion.y as i64)
                } else {
                    reference
                        .chroma_epel(x as i64 * 8 + motion.x as i64, y as i64 * 8 + motion.y as i64)
                };
            }
        }
    }
    frame_with_pts(output, pts)
}

fn frame_with_pts(mut frame: VideoFrame, pts: i64) -> VideoFrame {
    frame.timing.pts.as_mut().expect("test frame has PTS").value = pts;
    frame
}

fn packet_nal_type(packet: &Packet) -> NalUnitType {
    length_prefixed_nal_units(&packet.data, 4).unwrap()[0]
        .header
        .unit_type
}

fn luma_squared_error(source: &VideoFrame, reconstructed: &VideoFrame) -> i64 {
    let source = &source.planes[0];
    let reconstructed = &reconstructed.planes[0];
    (0..source.height)
        .flat_map(|y| {
            (0..source.width).map(move |x| {
                let difference = i64::from(source.data[y * source.stride + x])
                    - i64::from(reconstructed.data[y * reconstructed.stride + x]);
                difference * difference
            })
        })
        .sum()
}

fn luma_squared_error_from_constant(source: &VideoFrame, value: u8) -> i64 {
    let plane = &source.planes[0];
    (0..plane.height)
        .flat_map(|y| {
            (0..plane.width).map(move |x| {
                let difference = i64::from(plane.data[y * plane.stride + x]) - i64::from(value);
                difference * difference
            })
        })
        .sum()
}

fn assert_frames_pixels_equal(actual: &VideoFrame, expected: &VideoFrame) {
    assert_eq!(
        (actual.width, actual.height),
        (expected.width, expected.height)
    );
    for (actual, expected) in actual.planes.iter().zip(&expected.planes) {
        for y in 0..actual.height {
            assert_eq!(
                &actual.data[y * actual.stride..][..actual.width],
                &expected.data[y * expected.stride..][..expected.width]
            );
        }
    }
}

const ZIG_ZAG_4: [usize; 16] = [0, 1, 4, 8, 5, 2, 3, 6, 9, 12, 13, 10, 7, 11, 14, 15];

const ZIG_ZAG_8: [usize; 64] = [
    0, 1, 8, 16, 9, 2, 3, 10, 17, 24, 32, 25, 18, 11, 4, 5, 12, 19, 26, 33, 40, 48, 41, 34, 27, 20,
    13, 6, 7, 14, 21, 28, 35, 42, 49, 56, 57, 50, 43, 36, 29, 22, 15, 23, 30, 37, 44, 51, 58, 59,
    52, 45, 38, 31, 39, 46, 53, 60, 61, 54, 47, 55, 62, 63,
];

const NORM_4: [[i64; 3]; 6] =
    [[10, 16, 13], [11, 18, 14], [13, 20, 16], [14, 23, 18], [16, 25, 20], [18, 29, 23]];

const NORM_8: [[i64; 6]; 6] = [
    [20, 18, 32, 19, 25, 24],
    [22, 19, 35, 21, 28, 26],
    [26, 23, 42, 24, 33, 31],
    [28, 25, 45, 26, 35, 33],
    [32, 28, 51, 30, 40, 38],
    [36, 32, 58, 34, 46, 43],
];

const WEIGHTS_4: [[i64; 16]; 2] = [
    [6, 13, 13, 20, 20, 20, 28, 28, 28, 28, 32, 32, 32, 37, 37, 42],
    [10, 14, 14, 20, 20, 20, 24, 24, 24, 24, 27, 27, 27, 30, 30, 34],
];

const WEIGHTS_8: [[i64; 64]; 2] = [
    [
        6, 10, 10, 13, 11, 13, 16, 16, 16, 16, 18, 18, 18, 18, 18, 23, 23, 23, 23, 23, 23, 25, 25,
        25, 25, 25, 25, 25, 27, 27, 27, 27, 27, 27, 27, 27, 29, 29, 29, 29, 29, 29, 29, 31, 31, 31,
        31, 31, 31, 33, 33, 33, 33, 33, 36, 36, 36, 36, 38, 38, 38, 40, 40, 42,
    ],
    [
        9, 13, 13, 15, 13, 15, 17, 17, 17, 17, 19, 19, 19, 19, 19, 21, 21, 21, 21, 21, 21, 22, 22,
        22, 22, 22, 22, 22, 24, 24, 24, 24, 24, 24, 24, 24, 25, 25, 25, 25, 25, 25, 25, 27, 27, 27,
        27, 27, 27, 28, 28, 28, 28, 28, 30, 30, 30, 30, 32, 32, 32, 33, 33, 35,
    ],
];

const INTRA_PATTERNS: [u8; 48] = [
    47, 31, 15, 0, 23, 27, 29, 30, 7, 11, 13, 14, 39, 43, 45, 46, 16, 3, 5, 10, 12, 19, 21, 26, 28,
    35, 37, 42, 44, 1, 2, 4, 8, 17, 18, 20, 24, 6, 9, 22, 25, 32, 33, 34, 36, 40, 38, 41,
];

const INTER_PATTERNS: [u8; 48] = [
    0, 16, 1, 2, 4, 8, 32, 3, 5, 10, 12, 15, 47, 7, 11, 13, 14, 6, 9, 31, 35, 37, 42, 44, 33, 34,
    36, 40, 39, 43, 45, 46, 17, 18, 20, 24, 19, 21, 26, 28, 23, 27, 29, 30, 22, 25, 38, 41,
];

const CHROMA_QP: [i64; 22] =
    [29, 30, 31, 32, 32, 33, 34, 34, 35, 35, 36, 36, 37, 37, 37, 38, 38, 38, 39, 39, 39, 39];

const ABSENT: MotionState =
    MotionState { vector: MotionVector { x: 0, y: 0 }, reference_index: None };

fn clip(value: i64) -> u8 {
    value.clamp(0, 255) as u8
}

fn block_place(block: usize) -> (usize, usize) {
    ((block / 4 % 2) * 2 + block % 2, (block / 8) * 2 + block % 4 / 2)
}

fn block_number(x: usize, y: usize) -> usize {
    (y / 2) * 8 + (x / 2) * 4 + (y % 2) * 2 + x % 2
}

fn norm_4(qp: i64, place: usize) -> i64 {
    let row = NORM_4[(qp % 6) as usize];
    let kind = match (place / 4 % 2, place % 4 % 2) {
        (0, 0) => 0,
        (1, 1) => 1,
        _ => 2,
    };
    row[kind]
}

fn norm_8(qp: i64, place: usize) -> i64 {
    let (i, j) = (place / 8, place % 8);
    let kind = if i % 4 == 0 && j % 4 == 0 {
        0
    } else if i % 2 == 1 && j % 2 == 1 {
        1
    } else if i % 4 == 2 && j % 4 == 2 {
        2
    } else if (i % 4 == 0 && j % 2 == 1) || (i % 2 == 1 && j % 4 == 0) {
        3
    } else if (i % 4 == 0 && j % 4 == 2) || (i % 4 == 2 && j % 4 == 0) {
        4
    } else {
        5
    };
    NORM_8[(qp % 6) as usize][kind]
}

fn scaled(value: i64, shift: i64) -> i64 {
    if shift >= 0 {
        value << shift
    } else {
        (value + (1 << (-shift - 1))) >> -shift
    }
}

fn line_4(a: [i64; 4]) -> [i64; 4] {
    let e = a[0] + a[2];
    let f = a[0] - a[2];
    let g = (a[1] >> 1) - a[3];
    let h = a[1] + (a[3] >> 1);
    [e + h, f + g, f - g, e - h]
}

fn inverse_4(block: [i64; 16]) -> Vec<i64> {
    let mut rows = [0; 16];
    for y in 0..4 {
        let line = line_4([block[4 * y], block[4 * y + 1], block[4 * y + 2], block[4 * y + 3]]);
        rows[4 * y..4 * y + 4].copy_from_slice(&line);
    }
    let mut output = vec![0; 16];
    for x in 0..4 {
        let line = line_4([rows[x], rows[4 + x], rows[8 + x], rows[12 + x]]);
        for y in 0..4 {
            output[4 * y + x] = (line[y] + 32) >> 6;
        }
    }
    output
}

fn line_8(a: [i64; 8]) -> [i64; 8] {
    let e = [
        a[0] + a[4],
        -a[3] + a[5] - a[7] - (a[7] >> 1),
        a[0] - a[4],
        a[1] + a[7] - a[3] - (a[3] >> 1),
        (a[2] >> 1) - a[6],
        -a[1] + a[7] + a[5] + (a[5] >> 1),
        a[2] + (a[6] >> 1),
        a[3] + a[5] + a[1] + (a[1] >> 1),
    ];
    let f = [
        e[0] + e[6],
        e[1] + (e[7] >> 2),
        e[2] + e[4],
        e[3] + (e[5] >> 2),
        e[2] - e[4],
        (e[3] >> 2) - e[5],
        e[0] - e[6],
        e[7] - (e[1] >> 2),
    ];
    [
        f[0] + f[7],
        f[2] + f[5],
        f[4] + f[3],
        f[6] + f[1],
        f[6] - f[1],
        f[4] - f[3],
        f[2] - f[5],
        f[0] - f[7],
    ]
}

fn inverse_8(block: &[i64]) -> Vec<i64> {
    let mut rows = vec![0; 64];
    for y in 0..8 {
        let mut line = [0; 8];
        line.copy_from_slice(&block[8 * y..8 * y + 8]);
        rows[8 * y..8 * y + 8].copy_from_slice(&line_8(line));
    }
    let mut output = vec![0; 64];
    for x in 0..8 {
        let mut line = [0; 8];
        for y in 0..8 {
            line[y] = rows[8 * y + x];
        }
        let line = line_8(line);
        for y in 0..8 {
            output[8 * y + x] = (line[y] + 32) >> 6;
        }
    }
    output
}

fn chroma_qp(qp: i64) -> i64 {
    if qp < 30 {
        qp
    } else {
        CHROMA_QP[(qp - 30) as usize]
    }
}

fn place(
    plane: &mut [u8],
    stride: usize,
    x: usize,
    y: usize,
    side: usize,
    prediction: &[u8],
    residual: &[i64],
) {
    for row in 0..side {
        for column in 0..side {
            plane[(y + row) * stride + x + column] = clip(
                i64::from(prediction[row * side + column]) + residual[row * side + column],
            );
        }
    }
}

fn accumulated(residual: &mut [i64], side: usize, across: bool, down: bool) {
    for y in 0..side {
        for x in 0..side {
            if across && x > 0 {
                residual[y * side + x] += residual[y * side + x - 1];
            }
            if down && y > 0 {
                residual[y * side + x] += residual[(y - 1) * side + x];
            }
        }
    }
}

/// Where syntax elements come from.
enum Source<'r, 'd> {
    Codes(&'r mut BitReader<'d>),
    Symbols(Symbols<'r, 'd>),
}

struct Symbols<'r, 'd> {
    decoder: CabacDecoder<'r, 'd>,
    contexts: Vec<ContextState>,
}

impl Symbols<'_, '_> {
    fn read(&mut self, slot: usize) -> bool {
        self.decoder.decision(&mut self.contexts[slot]).unwrap()
    }

    fn bypass(&mut self) -> bool {
        self.decoder.bypass().unwrap()
    }

    fn golomb(&mut self, order: u32) -> i64 {
        let mut order = order;
        let mut value = 0;
        while self.bypass() {
            value += 1 << order;
            order += 1;
        }
        while order > 0 {
            order -= 1;
            value += i64::from(self.bypass()) << order;
        }
        value
    }

    fn signed(&mut self, size: i64) -> i64 {
        if self.bypass() {
            -size
        } else {
            size
        }
    }

    fn type_i(&mut self, increment: usize) -> u64 {
        if !self.read(TYPE_I + 3 + increment) {
            return 0;
        }
        if self.decoder.terminate().unwrap() {
            return 25;
        }
        let mut kind = 1;
        if self.read(TYPE_I + 6) {
            kind += 12;
        }
        if self.read(TYPE_I + 7) {
            kind += if self.read(TYPE_I + 8) { 8 } else { 4 };
        }
        if self.read(TYPE_I + 9) {
            kind += 2;
        }
        if self.read(TYPE_I + 10) {
            kind += 1;
        }
        kind
    }

    fn type_p(&mut self) -> u64 {
        assert!(!self.read(TYPE_P));
        if self.read(TYPE_P + 1) {
            if self.read(TYPE_P + 3) {
                1
            } else {
                2
            }
        } else if self.read(TYPE_P + 2) {
            3
        } else {
            0
        }
    }

    fn sub_type_p(&mut self) -> u8 {
        if self.read(SUB_TYPE_P) {
            0
        } else if !self.read(SUB_TYPE_P + 1) {
            1
        } else if self.read(SUB_TYPE_P + 2) {
            2
        } else {
            3
        }
    }

    fn type_b(&mut self, increment: usize) -> u8 {
        if !self.read(TYPE_B + increment) {
            return 0;
        }
        if !self.read(TYPE_B + 3) {
            return 1 + u8::from(self.read(TYPE_B + 5));
        }
        let mut digits = u8::from(self.read(TYPE_B + 4));
        for _ in 0..3 {
            digits = 2 * digits + u8::from(self.read(TYPE_B + 5));
        }
        match digits {
            0..=7 => 3 + digits,
            13 => panic!("unexpected macroblock type"),
            14 => 11,
            15 => 22,
            _ => 2 * digits - 4 + u8::from(self.read(TYPE_B + 5)),
        }
    }

    fn sub_type_b(&mut self) -> u8 {
        if !self.read(SUB_TYPE_B) {
            return 0;
        }
        if !self.read(SUB_TYPE_B + 1) {
            return 1 + u8::from(self.read(SUB_TYPE_B + 3));
        }
        let mut kind = 3;
        if self.read(SUB_TYPE_B + 2) {
            if self.read(SUB_TYPE_B + 3) {
                return 11 + u8::from(self.read(SUB_TYPE_B + 3));
            }
            kind += 4;
        }
        kind += 2 * u8::from(self.read(SUB_TYPE_B + 3));
        kind + u8::from(self.read(SUB_TYPE_B + 3))
    }

    fn difference(&mut self, base: usize, sum: i64) -> i64 {
        let increment = if sum < 3 {
            0
        } else if sum <= 32 {
            1
        } else {
            2
        };
        if !self.read(base + increment) {
            return 0;
        }
        let mut size = 1;
        while size < 9 && self.read(base + [3, 4, 5, 6, 6, 6, 6, 6][size as usize - 1]) {
            size += 1;
        }
        if size == 9 {
            size += self.golomb(3);
        }
        self.signed(size)
    }

    fn reference(&mut self, increment: usize) -> u8 {
        let mut index = 0;
        while self.read(REFERENCE_INDEX + [increment, 4, 5, 5, 5][usize::from(index)]) {
            index += 1;
        }
        index
    }

    fn quantizer_change(&mut self, changed: bool) -> i64 {
        if !self.read(QP_DELTA + usize::from(changed)) {
            return 0;
        }
        let mut code = 1;
        while self.read(QP_DELTA + if code == 1 { 2 } else { 3 }) {
            code += 1;
        }
        if code % 2 == 1 {
            (code + 1) / 2
        } else {
            -(code / 2)
        }
    }

    fn block(&mut self, kind: BlockKind, size: usize) -> Vec<i32> {
        let base = kind.first_slot();
        let mut levels = vec![0; size];
        let mut places = Vec::new();
        let mut ended = false;
        for place in 0..size - 1 {
            let (significant, last) = if kind == BlockKind::Luma8x8 {
                (usize::from(LARGE_SIGNIFICANT[place]), usize::from(LARGE_LAST[place]))
            } else {
                (place, place)
            };
            if !ended && self.read(base + 4 + significant) {
                places.push(place);
                ended = self.read(base + 19 + last);
            }
        }
        if !ended {
            places.push(size - 1);
        }
        let mut ones = 0;
        let mut more = 0;
        for &place in places.iter().rev() {
            let first = if more > 0 { 0 } else { (1 + ones).min(4) };
            let mut level = 1;
            if self.read(base + 34 + first) {
                level = 2;
                let cap = if kind == BlockKind::ChromaDc { 3 } else { 4 };
                let slot = base + 39 + more.min(cap);
                while level < 15 && self.read(slot) {
                    level += 1;
                }
                if level == 15 {
                    level += self.golomb(0);
                }
                more += 1;
            } else {
                ones += 1;
            }
            levels[place] = self.signed(level) as i32;
        }
        levels
    }
}

/// What later macroblocks need to know of the symbols of earlier ones.
#[derive(Clone)]
struct Neighbor {
    skipped: bool,
    direct: bool,
    whole: bool,
    chroma_mode: u8,
    pattern: u8,
    large: bool,
    luma_dc: bool,
    luma: [bool; 16],
    chroma_dc: [bool; 2],
    chroma: [bool; 8],
    far: [bool; 16],
    differences: [[(i64, i64); 16]; 2],
}

const FRESH: Neighbor = Neighbor {
    skipped: false,
    direct: false,
    whole: false,
    chroma_mode: 0,
    pattern: 0,
    large: false,
    luma_dc: false,
    luma: [false; 16],
    chroma_dc: [false; 2],
    chroma: [false; 8],
    far: [false; 16],
    differences: [[(0, 0); 16]; 2],
};

fn covered(part: InterPartition) -> Vec<usize> {
    let mut blocks = Vec::new();
    for y in part.block_y..part.block_y + part.block_height {
        for x in part.block_x..part.block_x + part.block_width {
            blocks.push(block_number(x, y));
        }
    }
    blocks
}

struct Levels {
    luma: Vec<Vec<i32>>,
    luma_dc: Vec<i32>,
    chroma_dc: [Vec<i32>; 2],
    chroma_ac: [Vec<Vec<i32>>; 2],
}

struct Decoder {
    wide: usize,
    high: usize,
    large: bool,
    bypass: bool,
    ordered: bool,
    weighted: bool,
    most: usize,
    order: i32,
    references: Vec<EncoderReference>,
    planes: Planes,
    luma_counts: Vec<[u8; 16]>,
    chroma_counts: Vec<[u8; 8]>,
    modes: Vec<[u8; 16]>,
    neighbors: Vec<Neighbor>,
    changed: bool,
    tables: Option<ContextTables>,
    qp: i64,
}

impl Decoder {
    fn new(avcc: &AvcDecoderConfigurationRecord) -> Decoder {
        let sps = parse_sps(&avcc.sequence_parameter_sets[0]).unwrap();
        let pps = parse_pps(&avcc.picture_parameter_sets[0]).unwrap();
        Decoder {
            wide: sps.coded_width as usize / 16,
            high: sps.coded_height as usize / 16,
            large: pps.transform_8x8_mode,
            bypass: sps.qpprime_y_zero_transform_bypass,
            ordered: sps.pic_order_cnt_type == 0,
            weighted: sps.scaling_matrix_present,
            most: sps.max_num_ref_frames as usize,
            order: 0,
            references: Vec::new(),
            planes: Planes { luma: Vec::new(), cb: Vec::new(), cr: Vec::new() },
            luma_counts: Vec::new(),
            chroma_counts: Vec::new(),
            modes: Vec::new(),
            neighbors: Vec::new(),
            changed: false,
            tables: if pps.entropy_coding_mode { Some(contexts()) } else { None },
            qp: 26,
        }
    }

    fn restart(&mut self) {
        let count = self.wide * self.high;
        self.planes = Planes {
            luma: vec![0; 256 * count],
            cb: vec![0; 64 * count],
            cr: vec![0; 64 * count],
        };
        self.luma_counts = vec![[0; 16]; count];
        self.chroma_counts = vec![[0; 8]; count];
        self.modes = vec![[2; 16]; count];
        self.neighbors = vec![FRESH; count];
        self.changed = false;
    }

    fn around(&self, address: usize) -> (bool, bool) {
        (address % self.wide > 0, address >= self.wide)
    }

    /// What is known of the macroblocks to the left and above, where they exist.
    fn beside<T>(&self, address: usize, look: impl Fn(&Neighbor) -> T) -> (Option<T>, Option<T>) {
        let (has_left, has_top) = self.around(address);
        (
            if has_left { Some(look(&self.neighbors[address - 1])) } else { None },
            if has_top { Some(look(&self.neighbors[address - self.wide])) } else { None },
        )
    }

    /// How many of the macroblocks to the left and above have a property.
    fn count_beside(&self, address: usize, look: impl Fn(&Neighbor) -> bool) -> usize {
        let (left, top) = self.beside(address, look);
        usize::from(left == Some(true)) + usize::from(top == Some(true))
    }

    /// What is known of the blocks to the left and above, where they exist.
    fn beside_block<T>(
        &self,
        address: usize,
        block: usize,
        look: impl Fn(&Neighbor, usize) -> T,
    ) -> (Option<T>, Option<T>) {
        let (x, y) = block_place(block);
        let (has_left, has_top) = self.around(address);
        let left = if x > 0 {
            Some(look(&self.neighbors[address], block_number(x - 1, y)))
        } else if has_left {
            Some(look(&self.neighbors[address - 1], block_number(3, y)))
        } else {
            None
        };
        let top = if y > 0 {
            Some(look(&self.neighbors[address], block_number(x, y - 1)))
        } else if has_top {
            Some(look(&self.neighbors[address - self.wide], block_number(x, 3)))
        } else {
            None
        };
        (left, top)
    }

    /// What is known of the chroma blocks to the left and above, where they exist.
    fn beside_chroma(
        &self,
        address: usize,
        plane: usize,
        block: usize,
    ) -> (Option<bool>, Option<bool>) {
        let (x, y) = (block % 2, block / 2);
        let (has_left, has_top) = self.around(address);
        let left = if x > 0 {
            Some(self.neighbors[address].chroma[4 * plane + 2 * y])
        } else if has_left {
            Some(self.neighbors[address - 1].chroma[4 * plane + 2 * y + 1])
        } else {
            None
        };
        let top = if y > 0 {
            Some(self.neighbors[address].chroma[4 * plane + x])
        } else if has_top {
            Some(self.neighbors[address - self.wide].chroma[4 * plane + 2 + x])
        } else {
            None
        };
        (left, top)
    }

    fn context(&self, left: Option<u8>, top: Option<u8>) -> i8 {
        match (left, top) {
            (Some(a), Some(b)) => ((a + b + 1) / 2) as i8,
            (Some(a), None) | (None, Some(a)) => a as i8,
            (None, None) => 0,
        }
    }

    fn luma_context(&self, address: usize, block: usize) -> i8 {
        let (x, y) = block_place(block);
        let (has_left, has_top) = self.around(address);
        let left = if x > 0 {
            Some(self.luma_counts[address][block_number(x - 1, y)])
        } else if has_left {
            Some(self.luma_counts[address - 1][block_number(3, y)])
        } else {
            None
        };
        let top = if y > 0 {
            Some(self.luma_counts[address][block_number(x, y - 1)])
        } else if has_top {
            Some(self.luma_counts[address - self.wide][block_number(x, 3)])
        } else {
            None
        };
        self.context(left, top)
    }

    fn chroma_context(&self, address: usize, plane: usize, block: usize) -> i8 {
        let (x, y) = (block % 2, block / 2);
        let (has_left, has_top) = self.around(address);
        let left = if x > 0 {
            Some(self.chroma_counts[address][4 * plane + 2 * y])
        } else if has_left {
            Some(self.chroma_counts[address - 1][4 * plane + 2 * y + 1])
        } else {
            None
        };
        let top = if y > 0 {
            Some(self.chroma_counts[address][4 * plane + x])
        } else if has_top {
            Some(self.chroma_counts[address - self.wide][4 * plane + 2 + x])
        } else {
            None
        };
        self.context(left, top)
    }

    fn residual(
        &mut self,
        source: &mut Source<'_, '_>,
        address: usize,
        pattern: u8,
        whole: bool,
        eight: bool,
        intra: bool,
    ) -> Levels {
        let mut levels = Levels {
            luma: vec![vec![0; 16]; 16],
            luma_dc: vec![0; 16],
            chroma_dc: [vec![0; 4], vec![0; 4]],
            chroma_ac: [vec![vec![0; 15]; 4], vec![vec![0; 15]; 4]],
        };
        match source {
            Source::Codes(reader) => {
                self.residual_codes(reader, address, pattern, whole, &mut levels);
            }
            Source::Symbols(symbols) => {
                self.residual_symbols(symbols, address, pattern, whole, eight, intra, &mut levels);
            }
        }
        levels
    }

    fn residual_codes(
        &mut self,
        reader: &mut BitReader<'_>,
        address: usize,
        pattern: u8,
        whole: bool,
        levels: &mut Levels,
    ) {
        if whole {
            let n_c = self.luma_context(address, 0);
            levels.luma_dc = decode_residual_block(reader, n_c, 16).unwrap().coefficients;
        }
        for block in 0..16 {
            if pattern >> (block / 4) & 1 == 1 {
                let n_c = self.luma_context(address, block);
                let size = if whole { 15 } else { 16 };
                let read = decode_residual_block(reader, n_c, size).unwrap();
                self.luma_counts[address][block] = read.total_coeff;
                let start = if whole { 1 } else { 0 };
                levels.luma[block][start..].copy_from_slice(&read.coefficients);
            }
        }
        if pattern / 16 > 0 {
            for plane in 0..2 {
                levels.chroma_dc[plane] =
                    decode_residual_block(reader, -1, 4).unwrap().coefficients;
            }
        }
        if pattern / 16 == 2 {
            for plane in 0..2 {
                for block in 0..4 {
                    let n_c = self.chroma_context(address, plane, block);
                    let read = decode_residual_block(reader, n_c, 15).unwrap();
                    self.chroma_counts[address][4 * plane + block] = read.total_coeff;
                    levels.chroma_ac[plane][block] = read.coefficients;
                }
            }
        }
    }

    fn residual_symbols(
        &mut self,
        symbols: &mut Symbols<'_, '_>,
        address: usize,
        pattern: u8,
        whole: bool,
        eight: bool,
        intra: bool,
        levels: &mut Levels,
    ) {
        let slot = |kind: BlockKind, (left, top): (Option<bool>, Option<bool>)| {
            kind.first_slot()
                + usize::from(left.unwrap_or(intra))
                + 2 * usize::from(top.unwrap_or(intra))
        };
        if whole {
            let at = slot(BlockKind::LumaDc, self.beside(address, |beside| beside.luma_dc));
            if symbols.read(at) {
                self.neighbors[address].luma_dc = true;
                levels.luma_dc = symbols.block(BlockKind::LumaDc, 16);
            }
        }
        for block in 0..16 {
            if pattern >> (block / 4) & 1 == 0 {
                continue;
            }
            if eight {
                self.neighbors[address].luma[block] = true;
                if block % 4 == 0 {
                    let large = symbols.block(BlockKind::Luma8x8, 64);
                    for (index, &level) in large.iter().enumerate() {
                        levels.luma[block + index % 4][index / 4] = level;
                    }
                }
                continue;
            }
            let (kind, start) =
                if whole { (BlockKind::LumaAc, 1) } else { (BlockKind::Luma4x4, 0) };
            let at =
                slot(kind, self.beside_block(address, block, |beside, block| beside.luma[block]));
            if symbols.read(at) {
                self.neighbors[address].luma[block] = true;
                let read = symbols.block(kind, 16 - start);
                levels.luma[block][start..].copy_from_slice(&read);
            }
        }
        if pattern / 16 > 0 {
            for plane in 0..2 {
                let at = slot(
                    BlockKind::ChromaDc,
                    self.beside(address, |beside| beside.chroma_dc[plane]),
                );
                if symbols.read(at) {
                    self.neighbors[address].chroma_dc[plane] = true;
                    levels.chroma_dc[plane] = symbols.block(BlockKind::ChromaDc, 4);
                }
            }
        }
        if pattern / 16 == 2 {
            for plane in 0..2 {
                for block in 0..4 {
                    let at =
                        slot(BlockKind::ChromaAc, self.beside_chroma(address, plane, block));
                    if symbols.read(at) {
                        self.neighbors[address].chroma[4 * plane + block] = true;
                        levels.chroma_ac[plane][block] = symbols.block(BlockKind::ChromaAc, 15);
                    }
                }
            }
        }
    }

    fn read_type_i(&mut self, source: &mut Source<'_, '_>, address: usize) -> u64 {
        let kind = match source {
            Source::Codes(reader) => read_test_ue(reader),
            Source::Symbols(symbols) => {
                symbols.type_i(self.count_beside(address, |beside| beside.whole))
            }
        };
        self.neighbors[address].whole = kind != 0;
        kind
    }

    fn read_large(&mut self, source: &mut Source<'_, '_>, address: usize) -> bool {
        let large = match source {
            Source::Codes(reader) => reader.read_bit().unwrap(),
            Source::Symbols(symbols) => symbols
                .read(TRANSFORM_SIZE + self.count_beside(address, |beside| beside.large)),
        };
        self.neighbors[address].large = large;
        large
    }

    fn read_mode(&self, source: &mut Source<'_, '_>, expected: u8) -> u8 {
        let rest = match source {
            Source::Codes(reader) => {
                if reader.read_bit().unwrap() {
                    return expected;
                }
                reader.read_bits(3).unwrap() as u8
            }
            Source::Symbols(symbols) => {
                if symbols.read(INTRA_MODE) {
                    return expected;
                }
                u8::from(symbols.read(INTRA_MODE + 1))
                    + 2 * u8::from(symbols.read(INTRA_MODE + 1))
                    + 4 * u8::from(symbols.read(INTRA_MODE + 1))
            }
        };
        if rest < expected {
            rest
        } else {
            rest + 1
        }
    }

    fn read_chroma_mode(&mut self, source: &mut Source<'_, '_>, address: usize) -> u8 {
        let mode = match source {
            Source::Codes(reader) => read_test_ue(reader) as u8,
            Source::Symbols(symbols) => {
                let increment = self.count_beside(address, |beside| beside.chroma_mode != 0);
                if !symbols.read(CHROMA_MODE + increment) {
                    0
                } else if !symbols.read(CHROMA_MODE + 3) {
                    1
                } else if !symbols.read(CHROMA_MODE + 3) {
                    2
                } else {
                    3
                }
            }
        };
        self.neighbors[address].chroma_mode = mode;
        mode
    }

    fn read_pattern(&mut self, source: &mut Source<'_, '_>, address: usize, codes: &[u8]) -> u8 {
        let pattern = match source {
            Source::Codes(reader) => codes[read_test_ue(reader) as usize],
            Source::Symbols(symbols) => {
                let (left, top) = self.beside(address, |beside| beside.pattern);
                let mut pattern = 0_u8;
                for quarter in 0..4 {
                    let before = if quarter % 2 == 1 {
                        pattern >> (quarter - 1) & 1 == 1
                    } else {
                        left.map_or(true, |found| found >> (quarter + 1) & 1 == 1)
                    };
                    let above = if quarter / 2 == 1 {
                        pattern >> (quarter - 2) & 1 == 1
                    } else {
                        top.map_or(true, |found| found >> (quarter + 2) & 1 == 1)
                    };
                    let slot = PATTERN_LUMA + usize::from(!before) + 2 * usize::from(!above);
                    pattern |= u8::from(symbols.read(slot)) << quarter;
                }
                let (left, top) = (left.unwrap_or(0) / 16, top.unwrap_or(0) / 16);
                let slot = PATTERN_CHROMA + usize::from(left > 0) + 2 * usize::from(top > 0);
                if symbols.read(slot) {
                    let slot =
                        PATTERN_CHROMA + 4 + usize::from(left == 2) + 2 * usize::from(top == 2);
                    pattern += if symbols.read(slot) { 32 } else { 16 };
                }
                pattern
            }
        };
        self.neighbors[address].pattern = pattern;
        pattern
    }

    fn read_reference(
        &mut self,
        source: &mut Source<'_, '_>,
        address: usize,
        part: InterPartition,
        active: usize,
    ) -> u8 {
        if active == 1 {
            return 0;
        }
        let index = match source {
            Source::Codes(reader) => match active {
                2 => u8::from(!reader.read_bit().unwrap()),
                _ => read_test_ue(reader) as u8,
            },
            Source::Symbols(symbols) => {
                let block = block_number(part.block_x, part.block_y);
                let (left, top) =
                    self.beside_block(address, block, |beside, block| beside.far[block]);
                symbols.reference(
                    usize::from(left == Some(true)) + 2 * usize::from(top == Some(true)),
                )
            }
        };
        for block in covered(part) {
            self.neighbors[address].far[block] = index > 0;
        }
        index
    }

    fn read_difference(
        &mut self,
        source: &mut Source<'_, '_>,
        address: usize,
        part: InterPartition,
        list: usize,
    ) -> (i64, i64) {
        let difference = match source {
            Source::Codes(reader) => (read_test_se(reader), read_test_se(reader)),
            Source::Symbols(symbols) => {
                let block = block_number(part.block_x, part.block_y);
                let (left, top) = self
                    .beside_block(address, block, |beside, block| beside.differences[list][block]);
                let (left, top) = (left.unwrap_or((0, 0)), top.unwrap_or((0, 0)));
                (
                    symbols.difference(MOTION_X, left.0.abs() + top.0.abs()),
                    symbols.difference(MOTION_Y, left.1.abs() + top.1.abs()),
                )
            }
        };
        for block in covered(part) {
            self.neighbors[address].differences[list][block] = difference;
        }
        difference
    }

    /// What the coefficient at a place of the scan counts.
    fn step_4(&self, qp: i64, index: usize, intra: bool) -> i64 {
        let weight = if self.weighted { WEIGHTS_4[usize::from(!intra)][index] } else { 16 };
        weight * norm_4(qp, ZIG_ZAG_4[index])
    }

    /// What the coefficient at a place of the large scan counts.
    fn step_8(&self, qp: i64, index: usize, intra: bool) -> i64 {
        let weight = if self.weighted { WEIGHTS_8[usize::from(!intra)][index] } else { 16 };
        weight * norm_8(qp, ZIG_ZAG_8[index])
    }

    fn residual_4(&self, levels: &[i32], intra: bool) -> Vec<i64> {
        let mut block = [0; 16];
        for (index, &level) in levels.iter().enumerate() {
            let spot = ZIG_ZAG_4[index];
            block[spot] = if self.bypass {
                i64::from(level)
            } else {
                scaled(i64::from(level) * self.step_4(self.qp, index, intra), self.qp / 6 - 4)
            };
        }
        if self.bypass {
            block.to_vec()
        } else {
            inverse_4(block)
        }
    }

    fn residual_8(&self, blocks: &[Vec<i32>], intra: bool) -> Vec<i64> {
        let mut block = vec![0; 64];
        for k in 0..16 {
            for (i, levels) in blocks.iter().enumerate() {
                let index = 4 * k + i;
                block[ZIG_ZAG_8[index]] = scaled(
                    i64::from(levels[k]) * self.step_8(self.qp, index, intra),
                    self.qp / 6 - 6,
                );
            }
        }
        inverse_8(&block)
    }

    fn chroma_residual(&self, levels: &Levels, plane: usize, mode: Option<u8>) -> Vec<i64> {
        let qp = chroma_qp(self.qp);
        let dc = levels.chroma_dc[plane].iter().map(|&level| i64::from(level)).collect::<Vec<_>>();
        let sums = [
            dc[0] + dc[1] + dc[2] + dc[3],
            dc[0] - dc[1] + dc[2] - dc[3],
            dc[0] + dc[1] - dc[2] - dc[3],
            dc[0] - dc[1] - dc[2] + dc[3],
        ];
        let mut output = vec![0; 64];
        for block in 0..4 {
            let mut coefficients = [0; 16];
            coefficients[0] = if self.bypass {
                dc[block]
            } else {
                ((sums[block] * self.step_4(qp, 0, mode.is_some())) << (qp / 6)) >> 5
            };
            for (index, &level) in levels.chroma_ac[plane][block].iter().enumerate() {
                let spot = ZIG_ZAG_4[index + 1];
                coefficients[spot] = if self.bypass {
                    i64::from(level)
                } else {
                    scaled(
                        i64::from(level) * self.step_4(qp, index + 1, mode.is_some()),
                        qp / 6 - 4,
                    )
                };
            }
            let samples =
                if self.bypass { coefficients.to_vec() } else { inverse_4(coefficients) };
            for i in 0..16 {
                output[(block / 2 * 4 + i / 4) * 8 + block % 2 * 4 + i % 4] = samples[i];
            }
        }
        if self.bypass {
            accumulated(&mut output, 8, mode == Some(1), mode == Some(2));
        }
        output
    }

    fn place_chroma(
        &mut self,
        address: usize,
        predictions: [Vec<u8>; 2],
        levels: &Levels,
        mode: Option<u8>,
    ) {
        let (x, y) = (address % self.wide * 8, address / self.wide * 8);
        let residuals =
            [self.chroma_residual(levels, 0, mode), self.chroma_residual(levels, 1, mode)];
        let stride = 8 * self.wide;
        place(&mut self.planes.cb, stride, x, y, 8, &predictions[0], &residuals[0]);
        place(&mut self.planes.cr, stride, x, y, 8, &predictions[1], &residuals[1]);
    }

    fn chroma_prediction(&self, address: usize, cr: bool, mode: u8) -> Vec<u8> {
        let plane = if cr { &self.planes.cr } else { &self.planes.cb };
        let stride = 8 * self.wide;
        let (x, y) = (address % self.wide * 8, address / self.wide * 8);
        let (has_left, has_top) = self.around(address);
        let top = |column: usize| i64::from(plane[(y - 1) * stride + x + column]);
        let left = |row: usize| i64::from(plane[(y + row) * stride + x - 1]);
        let mut output = vec![0; 64];
        for row in 0..8 {
            for column in 0..8 {
                output[row * 8 + column] = match mode {
                    0 => {
                        let (bx, by) = (column / 4 * 4, row / 4 * 4);
                        let above = (0..4).map(|i| if has_top { top(bx + i) } else { 0 });
                        let above: i64 = above.sum();
                        let before = (0..4).map(|i| if has_left { left(by + i) } else { 0 });
                        let before: i64 = before.sum();
                        let value = if bx == by {
                            match (has_top, has_left) {
                                (true, true) => (above + before + 4) >> 3,
                                (true, false) => (above + 2) >> 2,
                                (false, true) => (before + 2) >> 2,
                                (false, false) => 128,
                            }
                        } else if bx > by {
                            if has_top {
                                (above + 2) >> 2
                            } else if has_left {
                                (before + 2) >> 2
                            } else {
                                128
                            }
                        } else if has_left {
                            (before + 2) >> 2
                        } else if has_top {
                            (above + 2) >> 2
                        } else {
                            128
                        };
                        clip(value)
                    }
                    1 => left(row) as u8,
                    _ => top(column) as u8,
                };
            }
        }
        output
    }

    fn whole_prediction(&self, address: usize, mode: u8) -> Vec<u8> {
        let stride = 16 * self.wide;
        let (x, y) = (address % self.wide * 16, address / self.wide * 16);
        let (has_left, has_top) = self.around(address);
        let plane = &self.planes.luma;
        let top = |column: usize| i64::from(plane[(y - 1) * stride + x + column]);
        let left = |row: usize| i64::from(plane[(y + row) * stride + x - 1]);
        let above: i64 = (0..16).map(|i| if has_top { top(i) } else { 0 }).sum();
        let before: i64 = (0..16).map(|i| if has_left { left(i) } else { 0 }).sum();
        let mean = match (has_top, has_left) {
            (true, true) => (above + before + 16) >> 5,
            (true, false) => (above + 8) >> 4,
            (false, true) => (before + 8) >> 4,
            (false, false) => 128,
        };
        (0..256)
            .map(|i| match mode {
                0 => top(i % 16) as u8,
                1 => left(i / 16) as u8,
                2 => clip(mean),
                _ => panic!("unexpected mode"),
            })
            .collect()
    }

    fn expected_mode(&self, address: usize, block: usize) -> u8 {
        let (x, y) = block_place(block);
        let (has_left, has_top) = self.around(address);
        let left = if x > 0 {
            Some(self.modes[address][block_number(x - 1, y)])
        } else if has_left {
            Some(self.modes[address - 1][block_number(3, y)])
        } else {
            None
        };
        let top = if y > 0 {
            Some(self.modes[address][block_number(x, y - 1)])
        } else if has_top {
            Some(self.modes[address - self.wide][block_number(x, 3)])
        } else {
            None
        };
        match (left, top) {
            (Some(a), Some(b)) => a.min(b),
            _ => 2,
        }
    }

    fn step_quantizer(&mut self, source: &mut Source<'_, '_>) {
        let change = match source {
            Source::Codes(reader) => read_test_se(reader),
            Source::Symbols(symbols) => symbols.quantizer_change(self.changed),
        };
        self.changed = change != 0;
        self.qp = (self.qp + change + 52) % 52;
    }

    fn plain_macroblock(&mut self, source: &mut Source<'_, '_>, address: usize) {
        let samples = match source {
            Source::Codes(reader) => {
                while reader.bits_remaining() % 8 != 0 {
                    assert!(!reader.read_bit().unwrap());
                }
                (0..384).map(|_| reader.read_bits(8).unwrap() as u8).collect::<Vec<_>>()
            }
            Source::Symbols(symbols) => symbols.decoder.pcm_samples(384).unwrap(),
        };
        self.luma_counts[address] = [16; 16];
        self.chroma_counts[address] = [16; 8];
        self.changed = false;
        let (x, y) = (address % self.wide, address / self.wide);
        let stride = 8 * self.wide;
        place(&mut self.planes.luma, 2 * stride, 16 * x, 16 * y, 16, &samples[..256], &[0; 256]);
        place(&mut self.planes.cb, stride, 8 * x, 8 * y, 8, &samples[256..320], &[0; 64]);
        place(&mut self.planes.cr, stride, 8 * x, 8 * y, 8, &samples[320..], &[0; 64]);
    }

    fn intra_macroblock(&mut self, source: &mut Source<'_, '_>, address: usize) {
        let kind = self.read_type_i(source, address);
        if kind == 25 {
            return self.plain_macroblock(source, address);
        }
        let stride = 16 * self.wide;
        let (x, y) = (address % self.wide * 16, address / self.wide * 16);
        let (has_left, has_top) = self.around(address);
        if kind == 0 {
            let eight = self.large && self.read_large(source, address);
            let step = if eight { 4 } else { 1 };
            let mut block = 0;
            while block < 16 {
                let expected = self.expected_mode(address, block);
                let mode = self.read_mode(source, expected);
                for covered in block..block + step {
                    self.modes[address][covered] = mode;
                }
                block += step;
            }
            let chroma_mode = self.read_chroma_mode(source, address);
            let pattern = self.read_pattern(source, address, &INTRA_PATTERNS);
            if pattern != 0 {
                self.step_quantizer(source);
            } else {
                self.changed = false;
            }
            let levels = self.residual(source, address, pattern, false, eight, true);
            if eight {
                for group in 0..4 {
                    let mode = self.modes[address][4 * group];
                    let (gx, gy) = (x + group % 2 * 8, y + group / 2 * 8);
                    let prediction = intra8_prediction(
                        &self.planes.luma,
                        stride,
                        gx,
                        gy,
                        group,
                        mode,
                        has_top,
                        has_left,
                    )
                    .unwrap();
                    let residual = self.residual_8(&levels.luma[4 * group..4 * group + 4], true);
                    place(&mut self.planes.luma, stride, gx, gy, 8, &prediction, &residual);
                }
            } else {
                for block in 0..16 {
                    let mode = self.modes[address][block];
                    let (bx, by) = block_place(block);
                    let prediction = intra4_prediction(
                        &self.planes.luma,
                        stride,
                        x + 4 * bx,
                        y + 4 * by,
                        block,
                        mode,
                        has_top,
                        has_left,
                    )
                    .unwrap();
                    let mut residual = self.residual_4(&levels.luma[block], true);
                    if self.bypass {
                        accumulated(&mut residual, 4, mode == 1, mode == 0);
                    }
                    place(
                        &mut self.planes.luma,
                        stride,
                        x + 4 * bx,
                        y + 4 * by,
                        4,
                        &prediction,
                        &residual,
                    );
                }
            }
            let predictions = [
                self.chroma_prediction(address, false, chroma_mode),
                self.chroma_prediction(address, true, chroma_mode),
            ];
            self.place_chroma(address, predictions, &levels, Some(chroma_mode));
        } else {
            assert!((1..=24).contains(&kind));
            let mode = ((kind - 1) % 4) as u8;
            let chroma_marks = ((kind - 1) / 4 % 3) as u8;
            let luma_marks = if kind > 12 { 15 } else { 0 };
            let chroma_mode = self.read_chroma_mode(source, address);
            self.step_quantizer(source);
            let pattern = luma_marks + 16 * chroma_marks;
            self.neighbors[address].pattern = pattern;
            let levels = self.residual(source, address, pattern, true, false, true);
            let prediction = self.whole_prediction(address, mode);
            let mut grid = [0_i64; 16];
            for (index, &level) in levels.luma_dc.iter().enumerate() {
                grid[ZIG_ZAG_4[index]] = i64::from(level);
            }
            let sum = |a: [i64; 4]| {
                [
                    a[0] + a[1] + a[2] + a[3],
                    a[0] + a[1] - a[2] - a[3],
                    a[0] - a[1] - a[2] + a[3],
                    a[0] - a[1] + a[2] - a[3],
                ]
            };
            let mut rows = [0; 16];
            for i in 0..4 {
                let line = sum([grid[4 * i], grid[4 * i + 1], grid[4 * i + 2], grid[4 * i + 3]]);
                rows[4 * i..4 * i + 4].copy_from_slice(&line);
            }
            let mut means = [0; 16];
            for i in 0..4 {
                let line = sum([rows[i], rows[4 + i], rows[8 + i], rows[12 + i]]);
                for j in 0..4 {
                    means[4 * j + i] =
                        scaled(line[j] * self.step_4(self.qp, 0, true), self.qp / 6 - 6);
                }
            }
            for block in 0..16 {
                let (bx, by) = block_place(block);
                let mut coefficients = [0; 16];
                for index in 1..16 {
                    let spot = ZIG_ZAG_4[index];
                    coefficients[spot] = scaled(
                        i64::from(levels.luma[block][index]) * self.step_4(self.qp, index, true),
                        self.qp / 6 - 4,
                    );
                }
                coefficients[0] = means[4 * by + bx];
                let residual = inverse_4(coefficients);
                let part = (0..16)
                    .map(|i| prediction[(4 * by + i / 4) * 16 + 4 * bx + i % 4])
                    .collect::<Vec<_>>();
                place(
                    &mut self.planes.luma,
                    stride,
                    x + 4 * bx,
                    y + 4 * by,
                    4,
                    &part,
                    &residual,
                );
            }
            let predictions = [
                self.chroma_prediction(address, false, chroma_mode),
                self.chroma_prediction(address, true, chroma_mode),
            ];
            self.place_chroma(address, predictions, &levels, Some(chroma_mode));
        }
    }

    fn inter_rest(
        &mut self,
        source: Option<&mut Source<'_, '_>>,
        address: usize,
        prediction: Planes,
        may_be_large: bool,
    ) {
        let stride = 16 * self.wide;
        let (x, y) = (address % self.wide * 16, address / self.wide * 16);
        let mut eight = false;
        self.changed &= source.is_some();
        let levels = match source {
            None => Levels {
                luma: vec![vec![0; 16]; 16],
                luma_dc: vec![0; 16],
                chroma_dc: [vec![0; 4], vec![0; 4]],
                chroma_ac: [vec![vec![0; 15]; 4], vec![vec![0; 15]; 4]],
            },
            Some(source) => {
                let pattern = self.read_pattern(source, address, &INTER_PATTERNS);
                if self.large && may_be_large && pattern % 16 != 0 {
                    eight = self.read_large(source, address);
                }
                if pattern != 0 {
                    self.step_quantizer(source);
                } else {
                    self.changed = false;
                }
                self.residual(source, address, pattern, false, eight, false)
            }
        };
        if eight {
            for group in 0..4 {
                let part = (0..64)
                    .map(|i| {
                        prediction.luma
                            [(group / 2 * 8 + i / 8) * 16 + group % 2 * 8 + i % 8]
                    })
                    .collect::<Vec<_>>();
                let residual = self.residual_8(&levels.luma[4 * group..4 * group + 4], false);
                place(
                    &mut self.planes.luma,
                    stride,
                    x + group % 2 * 8,
                    y + group / 2 * 8,
                    8,
                    &part,
                    &residual,
                );
            }
        } else {
            for block in 0..16 {
                let (bx, by) = block_place(block);
                let part = (0..16)
                    .map(|i| prediction.luma[(4 * by + i / 4) * 16 + 4 * bx + i % 4])
                    .collect::<Vec<_>>();
                let residual = self.residual_4(&levels.luma[block], false);
                place(
                    &mut self.planes.luma,
                    stride,
                    x + 4 * bx,
                    y + 4 * by,
                    4,
                    &part,
                    &residual,
                );
            }
        }
        let Planes { cb, cr, .. } = prediction;
        self.place_chroma(address, [cb, cr], &levels, None);
    }

    fn predicted_part(
        &self,
        prediction: &mut Planes,
        address: usize,
        index: usize,
        partition: InterPartition,
        motion: MotionVector,
    ) {
        predict_partition(
            prediction,
            &self.references[index].planes,
            self.wide,
            self.high,
            address % self.wide,
            address / self.wide,
            partition,
            motion,
        );
    }

    fn read_vector(
        &mut self,
        source: &mut Source<'_, '_>,
        motions: &[BlockMotions],
        address: usize,
        partition: InterPartition,
        index: u8,
        list: usize,
    ) -> MotionVector {
        let expected =
            partition_motion_predictor(motions, address, self.wide, partition, index);
        let (x, y) = self.read_difference(source, address, partition, list);
        MotionVector { x: expected.x + x as i32, y: expected.y + y as i32 }
    }

    fn p_macroblock(
        &mut self,
        source: &mut Source<'_, '_>,
        address: usize,
        motions: &mut [BlockMotions],
        active: usize,
    ) {
        let kind = match source {
            Source::Codes(reader) => read_test_ue(reader),
            Source::Symbols(symbols) => symbols.type_p(),
        };
        let parts: Vec<Vec<InterPartition>> = match kind {
            0..=2 => macroblock_partitions(kind as u8).into_iter().map(|part| vec![part]).collect(),
            3 => (0..4)
                .map(|quarter| {
                    let sub = match source {
                        Source::Codes(reader) => read_test_ue(reader) as u8,
                        Source::Symbols(symbols) => symbols.sub_type_p(),
                    };
                    p_sub_partitions(quarter, sub)
                })
                .collect::<Vec<_>>(),
            _ => panic!("unexpected macroblock type"),
        };
        let mut indices = Vec::new();
        for (number, group) in parts.iter().enumerate() {
            let region = if kind == 3 { direct_8x8_partition(number) } else { group[0] };
            indices.push(self.read_reference(source, address, region, active));
        }
        let mut prediction = blank_prediction();
        let mut large = true;
        for (group, &index) in parts.iter().zip(&indices) {
            for &part in group {
                let vector = self.read_vector(source, motions, address, part, index, 0);
                set_partition_motion(
                    &mut motions[address],
                    part,
                    MotionState { vector, reference_index: Some(index) },
                );
                self.predicted_part(&mut prediction, address, usize::from(index), part, vector);
                large &= part.block_width >= 2 && part.block_height >= 2;
            }
        }
        self.inter_rest(Some(source), address, prediction, large);
    }

    fn mixed(
        &self,
        prediction: &mut Planes,
        address: usize,
        part: InterPartition,
        earlier: Option<MotionVector>,
        later: Option<MotionVector>,
    ) {
        let mut first = prediction.clone();
        let mut second = prediction.clone();
        if let Some(motion) = earlier {
            self.predicted_part(&mut first, address, 1, part, motion);
        }
        if let Some(motion) = later {
            self.predicted_part(&mut second, address, 0, part, motion);
        }
        let mix = |a: &[u8], b: &[u8]| {
            a.iter()
                .zip(b)
                .map(|(&a, &b)| match (earlier.is_some(), later.is_some()) {
                    (true, true) => ((u16::from(a) + u16::from(b) + 1) / 2) as u8,
                    (true, false) => a,
                    _ => b,
                })
                .collect::<Vec<_>>()
        };
        *prediction = Planes {
            luma: mix(&first.luma, &second.luma),
            cb: mix(&first.cb, &second.cb),
            cr: mix(&first.cr, &second.cr),
        };
    }

    fn b_macroblock(
        &mut self,
        mut source: Option<&mut Source<'_, '_>>,
        address: usize,
        motions: [&mut Vec<BlockMotions>; 2],
        mode: BDirectMode,
        order: i32,
    ) {
        let [motions_l0, motions_l1] = motions;
        let derived = BSite {
            source: &self.planes,
            previous: &self.references[1],
            future: &self.references[0],
            wide: self.wide,
            high: self.high,
            x: address % self.wide,
            y: address / self.wide,
            search_range: 0,
            motions_l0: motions_l0.as_slice(),
            motions_l1: motions_l1.as_slice(),
            direct_mode: mode,
            picture_order_count: order,
        }
        .select_direct_b_prediction()
        .map(|(_, decision)| decision.partitions);
        let kind = match source.as_deref_mut() {
            None => 0,
            Some(Source::Codes(reader)) => read_test_ue(reader) as u8,
            Some(Source::Symbols(symbols)) => {
                symbols.type_b(self.count_beside(address, |beside| !beside.direct))
            }
        };
        self.neighbors[address].direct = kind == 0;
        // Each part with its directions; no direction at all stands for a derived quarter.
        let mut parts: Vec<(InterPartition, Option<DirectedPart>)> = Vec::new();
        match kind {
            0 => {
                for quarter in 0..4 {
                    parts.push((direct_8x8_partition(quarter), None));
                }
            }
            1..=21 => {
                for part in b_inter_partitions(kind) {
                    parts.push((part.partition, Some(part)));
                }
            }
            22 => {
                let kinds = (0..4)
                    .map(|_| match source.as_deref_mut().unwrap() {
                        Source::Codes(reader) => read_test_ue(reader) as u8,
                        Source::Symbols(symbols) => symbols.sub_type_b(),
                    })
                    .collect::<Vec<_>>();
                for (quarter, &sub) in kinds.iter().enumerate() {
                    if sub == 0 {
                        parts.push((direct_8x8_partition(quarter), None));
                    } else {
                        for part in b_sub_partitions(quarter, sub) {
                            parts.push((part.partition, Some(part)));
                        }
                    }
                }
            }
            _ => panic!("unexpected macroblock type"),
        }
        let mut vectors: [Vec<Option<MotionVector>>; 2] = [Vec::new(), Vec::new()];
        for later in [false, true] {
            let list = usize::from(later);
            for (partition, directed) in &parts {
                let rows = if later { &mut *motions_l1 } else { &mut *motions_l0 };
                let state = match directed {
                    None => {
                        let quarter = partition.block_y / 2 * 2 + partition.block_x / 2;
                        let found = derived.as_ref().unwrap()[quarter];
                        b_motion_state(if later { found.list1 } else { found.list0 })
                    }
                    Some(part) => {
                        let used =
                            if later { part.direction.uses_l1() } else { part.direction.uses_l0() };
                        if used {
                            let vector = self.read_vector(
                                source.as_deref_mut().unwrap(),
                                rows.as_slice(),
                                address,
                                *partition,
                                0,
                                list,
                            );
                            MotionState { vector, reference_index: Some(0) }
                        } else {
                            ABSENT
                        }
                    }
                };
                set_partition_motion(&mut rows[address], *partition, state);
                vectors[list].push(state.reference_index.map(|_| state.vector));
            }
        }
        let mut prediction = blank_prediction();
        let mut large = true;
        for (index, (partition, _)) in parts.iter().enumerate() {
            self.mixed(
                &mut prediction,
                address,
                *partition,
                vectors[0][index],
                vectors[1][index],
            );
            large &= partition.block_width >= 2 && partition.block_height >= 2;
        }
        self.inter_rest(source, address, prediction, large);
    }

    fn decode(&mut self, packet: &[u8]) -> Planes {
        let units = length_prefixed_nal_units(packet, 4).unwrap();
        let unit = units.last().unwrap();
        let data = remove_emulation_prevention(&unit.data[1..]);
        let mut reader = BitReader::new(&data);
        let idr = unit.data[0] & 0x1f == 5;
        let reference = unit.data[0] >> 5 != 0;
        assert_eq!(read_test_ue(&mut reader), 0);
        let slice = read_test_ue(&mut reader);
        assert_eq!(read_test_ue(&mut reader), 0);
        reader.skip_bits(4).unwrap();
        if idr {
            read_test_ue(&mut reader);
        }
        let mut order = 0;
        if self.ordered {
            let low = reader.read_bits(4).unwrap() as i32;
            if idr {
                self.order = 0;
            }
            order = self.order - self.order.rem_euclid(16) + low;
            if order <= self.order - 8 {
                order += 16;
            } else if order > self.order + 8 {
                order -= 16;
            }
            if reference {
                self.order = order;
            }
        }
        let mut direct = BDirectMode::Spatial;
        if slice == 1 && !reader.read_bit().unwrap() {
            direct = BDirectMode::Temporal;
        }
        let mut active = 1;
        if slice != 2 {
            if reader.read_bit().unwrap() {
                active = read_test_ue(&mut reader) as usize + 1;
            }
            assert!(!reader.read_bit().unwrap());
        }
        if slice == 1 {
            assert!(!reader.read_bit().unwrap());
        }
        if idr {
            reader.skip_bits(2).unwrap();
        } else if reference {
            assert!(!reader.read_bit().unwrap());
        }
        if slice != 2 && self.tables.is_some() {
            assert_eq!(read_test_ue(&mut reader), 0);
        }
        self.qp = 26 + read_test_se(&mut reader);
        assert_eq!(read_test_ue(&mut reader), 1);

        let count = self.wide * self.high;
        self.restart();
        let mut motions: Vec<BlockMotions> = vec![[None; 16]; count];
        let mut motions_l1: Vec<BlockMotions> = vec![[None; 16]; count];
        let tables = self.tables.take();
        let mut source = match &tables {
            None => Source::Codes(&mut reader),
            Some(tables) => {
                let table = match slice {
                    0 => &tables.predicted,
                    1 => &tables.between,
                    _ => &tables.intra,
                };
                Source::Symbols(Symbols {
                    decoder: CabacDecoder::new(&mut reader).unwrap(),
                    contexts: start_contexts(table, self.qp as i32),
                })
            }
        };
        let mut run = None;
        for address in 0..count {
            let skipped = slice != 2
                && match &mut source {
                    Source::Codes(reader) => {
                        let left = run.unwrap_or_else(|| read_test_ue(reader));
                        run = left.checked_sub(1);
                        left > 0
                    }
                    Source::Symbols(symbols) => {
                        symbols.read(SKIP + self.count_beside(address, |beside| !beside.skipped))
                    }
                };
            self.neighbors[address].skipped = skipped;
            match (slice, skipped) {
                (0, true) => {
                    let vector = p_skip_motion(&motions, address, self.wide);
                    let whole = macroblock_partitions(0)[0];
                    set_partition_motion(
                        &mut motions[address],
                        whole,
                        MotionState { vector, reference_index: Some(0) },
                    );
                    let mut prediction = blank_prediction();
                    self.predicted_part(&mut prediction, address, 0, whole, vector);
                    self.inter_rest(None, address, prediction, true);
                }
                (0, false) => self.p_macroblock(&mut source, address, &mut motions, active),
                (1, _) => {
                    let given = if skipped { None } else { Some(&mut source) };
                    self.b_macroblock(
                        given,
                        address,
                        [&mut motions, &mut motions_l1],
                        direct,
                        order,
                    );
                }
                _ => self.intra_macroblock(&mut source, address),
            }
            if let Source::Symbols(symbols) = &mut source {
                assert_eq!(symbols.decoder.terminate().unwrap(), address + 1 == count);
            }
        }
        if tables.is_none() {
            assert!(reader.read_bit().unwrap());
            while reader.bits_remaining() > 0 {
                assert!(!reader.read_bit().unwrap());
            }
        }
        self.tables = tables;
        if reference {
            if idr {
                self.references.clear();
            }
            let orders = motions
                .iter()
                .map(|row| {
                    let mut orders = [None; 16];
                    for (block, motion) in row.iter().enumerate() {
                        orders[block] = motion
                            .and_then(|state| state.reference_index)
                            .map(|index| self.references[usize::from(index)].pic_order_count);
                    }
                    orders
                })
                .collect::<Vec<_>>();
            self.references.insert(
                0,
                EncoderReference {
                    planes: self.planes.clone(),
                    pic_order_count: order,
                    motion_l0: motions,
                    reference_l0_poc: orders,
                    macroblock_intra: vec![slice == 2; count],
                },
            );
            self.references.truncate(self.most.max(1));
        }
        self.planes.clone()
    }
}

fn named_settings(width: usize, height: usize, options: &[(&str, &str)]) -> VideoEncoderSettings {
    VideoEncoderSettings {
        width,
        height,
        pixel_format: PixelFormat::Yuv420p8,
        time_base: rational(1, 25),
        bitrate: None,
        options: option_map(options),
    }
}

fn textured(width: usize, height: usize, shift: usize, pts: i64) -> VideoFrame {
    let plane = |component: usize, width: usize, height: usize, shift: usize| {
        let mut data = vec![0; width * height];
        for y in 0..height {
            for x in 0..width {
                let wave = (x + shift) * 17 + y * 29 + component * 67;
                let detail = ((x + shift) * (y + 3) * 7) % 23;
                data[y * width + x] = ((wave + detail) % 256) as u8;
            }
        }
        Plane { data, stride: width, width, height }
    };
    VideoFrame {
        format: PixelFormat::Yuv420p8,
        width,
        height,
        planes: vec![
            plane(0, width, height, shift),
            plane(1, width / 2, height / 2, shift / 2),
            plane(2, width / 2, height / 2, shift / 2),
        ],
        timing: FrameTiming {
            pts: Some(Timestamp { value: pts, time_base: rational(1, 25) }),
            duration: Some(Timestamp { value: 1, time_base: rational(1, 25) }),
        },
        color: ColorDescription { primaries: None, transfer: None, matrix: None, full_range: None },
        field_order: FieldOrder::Progressive,
    }
}

fn smooth(width: usize, height: usize, shift: usize, pts: i64) -> VideoFrame {
    let mut frame = textured(width, height, 0, pts);
    for plane in &mut frame.planes {
        for y in 0..plane.height {
            for x in 0..plane.width {
                let wave = (x + shift) * 3 + y * 2;
                let bump = if (x + shift) % 13 < 4 && y % 11 < 5 { 60 } else { 0 };
                plane.data[y * plane.stride + x] = ((40 + wave + bump) % 256) as u8;
            }
        }
    }
    frame
}

fn assert_shown(decoded: &Planes, wide: usize, shown: &VideoFrame) {
    for (component, samples) in [&decoded.luma, &decoded.cb, &decoded.cr].into_iter().enumerate() {
        let stride = if component == 0 { 16 * wide } else { 8 * wide };
        let plane = &shown.planes[component];
        for y in 0..plane.height {
            assert_eq!(
                &samples[y * stride..][..plane.width],
                &plane.data[y * plane.stride..][..plane.width],
                "component {component}, row {y}"
            );
        }
    }
}

fn check(options: &[(&str, &str)], frames: Vec<VideoFrame>) -> Vec<Packet> {
    check_with("cavlc", options, frames.clone());
    let baseline = options.contains(&("profile", "baseline"));
    check_with(if baseline { "cavlc" } else { "cabac" }, options, frames)
}

fn check_with(entropy: &str, options: &[(&str, &str)], frames: Vec<VideoFrame>) -> Vec<Packet> {
    let mut encoder = H264Encoder::default();
    let mut options = options.to_vec();
    options.push(("entropy", entropy));
    let descriptor = encoder
        .configure(&named_settings(frames[0].width, frames[0].height, &options))
        .unwrap();
    let mut decoder =
        Decoder::new(&AvcDecoderConfigurationRecord::parse(&descriptor.configuration).unwrap());
    let mut packets = Vec::new();
    let count = frames.len();
    for (index, frame) in frames.into_iter().enumerate() {
        encoder.send_frame(frame).unwrap();
        if index + 1 == count {
            encoder.flush().unwrap();
        }
        while let Some(packet) = encoder.receive_packet().unwrap() {
            let shown = encoder.receive_reconstructed_frame().unwrap().unwrap();
            let decoded = decoder.decode(&packet.data);
            assert_shown(&decoded, decoder.wide, &shown);
            packets.push(packet);
        }
    }
    assert_eq!(packets.len(), count);
    packets
}

#[test]
fn intra16_pictures_decode_to_what_the_encoder_shows() {
    for qp in ["0", "12", "26", "38", "51"] {
        check(&[("mode", "intra16"), ("qp", qp)], vec![textured(34, 36, 0, 0)]);
        check(&[("mode", "intra16"), ("qp", qp)], vec![smooth(48, 32, 0, 0)]);
    }
}

#[test]
fn intra4_pictures_decode_to_what_the_encoder_shows() {
    for qp in ["0", "12", "26", "38", "51"] {
        check(&[("mode", "intra4"), ("qp", qp)], vec![textured(34, 36, 0, 0)]);
        check(&[("mode", "intra4"), ("qp", qp)], vec![smooth(48, 32, 0, 0)]);
    }
}

#[test]
fn intra8_pictures_decode_to_what_the_encoder_shows() {
    for qp in ["0", "12", "26", "38", "51"] {
        check(&[("mode", "intra8"), ("qp", qp)], vec![textured(34, 36, 0, 0)]);
        check(&[("mode", "intra8"), ("qp", qp)], vec![smooth(48, 32, 0, 0)]);
    }
}

#[test]
fn adapted_quantizers_decode_to_what_the_encoder_shows() {
    for mode in ["intra16", "intra4", "intra8"] {
        let mut frame = smooth(48, 32, 0, 0);
        let busy = textured(48, 32, 5, 0);
        for (plane, other) in frame.planes.iter_mut().zip(&busy.planes) {
            for y in 0..plane.height {
                for x in plane.width / 2..plane.width {
                    plane.data[y * plane.stride + x] = other.data[y * other.stride + x];
                }
            }
        }
        check(&[("mode", mode), ("aq_strength", "6")], vec![frame]);
    }
}

#[test]
fn weighted_pictures_decode_to_what_the_encoder_shows() {
    for mode in ["intra16", "intra4", "intra8"] {
        for qp in ["0", "20", "36", "51"] {
            let options =
                [("mode", mode), ("profile", "high"), ("qp", qp), ("scaling_matrix", "jvt")];
            check(&options, vec![textured(34, 36, 0, 0)]);
            check(&options, vec![smooth(48, 32, 0, 0)]);
        }
    }
}

#[test]
fn moving_pictures_decode_to_what_the_encoder_shows() {
    let frames = (0..6)
        .map(|index| moving_frame(66, 50, index, rational(1, 25)))
        .collect::<Vec<_>>();
    assert_eq!(frames[0].planes[0].data[16], 96);
    assert_eq!(frames[1].planes[0].data[0], 59);
    assert_eq!(frames[2].planes[0].data[66], 27);
    assert_eq!(frames[2].planes[1].data[0], 134);
    assert_eq!(frames[2].planes[2].data[34], 147);
    assert_eq!(frames[5].timing.pts.unwrap().value, 5);
    check(
        &[
            ("analysis", "fast"),
            ("aq_strength", "6"),
            ("b_frames", "2"),
            ("gop_size", "15"),
            ("max_refs", "2"),
            ("mode", "inter"),
            ("profile", "high"),
            ("scaling_matrix", "jvt"),
            ("search_range", "8"),
        ],
        frames,
    );
}

#[test]
fn lossless_pictures_decode_to_their_frames() {
    let frames = (0..5).map(|index| textured(34, 20, 2 * index, index as i64)).collect::<Vec<_>>();
    check(&[("mode", "intra4"), ("qp", "0"), ("transform_bypass", "true")], frames.clone());
    check(
        &[
            ("b_frames", "1"),
            ("mode", "inter"),
            ("qp", "0"),
            ("search_range", "4"),
            ("transform_bypass", "true"),
        ],
        frames,
    );
}

#[test]
fn predicted_pictures_decode_to_what_the_encoder_shows() {
    for profile in ["baseline", "main", "high"] {
        for references in ["1", "2", "3"] {
            let frames = (0..5)
                .map(|index| smooth(32, 28, 3 * index, index as i64))
                .chain((5..7).map(|index| textured(32, 28, 2 * index, index as i64)))
                .collect::<Vec<_>>();
            check(
                &[
                    ("max_refs", references),
                    ("mode", "inter"),
                    ("profile", profile),
                    ("qp", "22"),
                    ("search_range", "4"),
                ],
                frames,
            );
        }
    }
}

#[test]
fn unchanged_pictures_decode_to_what_the_encoder_shows() {
    let frames = (0..3).map(|index| smooth(48, 36, 0, index)).collect::<Vec<_>>();
    let packets = check(
        &[("mode", "inter"), ("qp", "0"), ("search_range", "2"), ("transform_bypass", "true")],
        frames,
    );
    assert!(packets[0].data.len() > 40);
    assert!(packets[2].data.len() < 40);
}

fn check_reordered(direct: &str, profile: &str, b_frames: &str) {
    let frames = (0..10)
        .map(|index| {
            if index % 3 == 2 {
                textured(32, 28, 2 * index, index as i64)
            } else {
                smooth(32, 28, 3 * index, index as i64)
            }
        })
        .collect::<Vec<_>>();
    let packets = check(
        &[
            ("b_direct", direct),
            ("b_frames", b_frames),
            ("max_refs", "2"),
            ("mode", "inter"),
            ("profile", profile),
            ("qp", "24"),
            ("search_range", "4"),
        ],
        frames,
    );
    assert!(packets.iter().any(|packet| packet.pts != packet.dts));
}

#[test]
fn reordered_pictures_decode_to_what_the_encoder_shows() {
    check_reordered("spatial", "main", "1");
    check_reordered("spatial", "high", "2");
    check_reordered("spatial", "high", "3");
}

#[test]
fn temporally_derived_pictures_decode_to_what_the_encoder_shows() {
    check_reordered("temporal", "main", "1");
    check_reordered("temporal", "high", "2");
    check_reordered("temporal", "high", "3");
}

#[test]
fn steady_motion_decodes_to_what_the_encoder_shows() {
    for direct in ["spatial", "temporal"] {
        let frames =
            (0..5).map(|index| smooth(64, 48, 2 * index, index as i64)).collect::<Vec<_>>();
        check(
            &[
                ("b_direct", direct),
                ("b_frames", "1"),
                ("max_refs", "2"),
                ("mode", "inter"),
                ("search_range", "8"),
            ],
            frames,
        );
    }
}
