use h264::arithmetic::{Bin, BinCoder, CabacEncoder};
use h264::bins::{
    encode_cabac_chroma_prediction_mode, encode_cabac_coded_block_pattern,
    encode_cabac_i_macroblock_type, encode_cabac_luma_mode, encode_cabac_macroblock_qp_delta,
    encode_cabac_residual_block, BlockKind, MOTION_X,
};
use h264::bits::{BitReader, BitWriter};
use h264::cabac::{CabacDecoder, ContextState};
use h264::config::AnalysisPreset;
use h264::encoder::Packet;
use h264::frame::{
    ColorDescription, FieldOrder, FrameTiming, PixelFormat, Plane, Rational, Timestamp, VideoFrame,
};
use h264::framing::{append_length_prefixed_nal, encode_avcc, make_nal};
use h264::golomb::{write_se, write_ue};
use h264::hrd::{greatest_common_divisor, EncoderHrd};
use h264::inter_bins::{
    encode_cabac_motion_difference, encode_cabac_p_macroblock_type,
    encode_cabac_p_sub_macroblock_type, encode_cabac_reference_index,
};
use h264::interpolate::ReferencePlane;
use h264::motion::{median3, MotionVector};
use h264::nal::{
    annex_b_nal_units, length_prefixed_nal_units, nal_units_to_annex_b,
    remove_emulation_prevention, AvcDecoderConfigurationRecord,
};
use h264::option_map::OptionMap;
use h264::quantizers::macroblock_qp_delta;
use h264::rate::RateControl;
use h264::search::{Measure, MotionSearch};
use h264::settings::{VideoEncoderSettings, CODEC_NAME, CODEC_TAG};
use h264::H264Encoder;

fn rational(numerator: i64, denominator: i64) -> Rational {
    Rational { numerator, denominator }
}

fn option_map(options: &[(&str, &str)]) -> OptionMap {
    let mut map = OptionMap::new();
    for (name, value) in options {
        map.insert(name.to_string(), value.to_string());
    }
    map
}

fn settings(options: &[(&str, &str)]) -> VideoEncoderSettings {
    VideoEncoderSettings {
        width: 18,
        height: 20,
        pixel_format: PixelFormat::Yuv420p8,
        time_base: rational(1, 25),
        bitrate: None,
        options: option_map(options),
    }
}

fn plane(width: usize, height: usize, phase: usize) -> Plane {
    let data = (0..width * height)
        .map(|place| ((place % width * 23 + place / width * 31 + phase * 57) % 256) as u8)
        .collect();
    Plane { data, stride: width, width, height }
}

fn frame(index: usize) -> VideoFrame {
    VideoFrame {
        format: PixelFormat::Yuv420p8,
        width: 18,
        height: 20,
        planes: vec![plane(18, 20, index), plane(9, 10, index + 1), plane(9, 10, index + 2)],
        timing: FrameTiming {
            pts: Some(Timestamp { value: index as i64, time_base: rational(1, 25) }),
            duration: Some(Timestamp { value: 1, time_base: rational(1, 25) }),
        },
        color: ColorDescription { primaries: None, transfer: None, matrix: None, full_range: None },
        field_order: FieldOrder::Progressive,
    }
}

fn sample(plane: &Plane, x: usize, y: usize) -> u8 {
    plane.data[y.min(plane.height - 1) * plane.stride + x.min(plane.width - 1)]
}

fn macroblock(frame: &VideoFrame, column: usize, row: usize) -> Vec<u8> {
    let mut samples = Vec::new();
    for (component, side) in [(0, 16), (1, 8), (2, 8)] {
        for y in 0..side {
            for x in 0..side {
                samples.push(sample(&frame.planes[component], column * side + x, row * side + y));
            }
        }
    }
    samples
}

fn read_ue(reader: &mut BitReader<'_>) -> u64 {
    let mut zeros = 0_u8;
    while !reader.read_bit().unwrap() {
        zeros += 1;
    }
    (1_u64 << zeros) - 1 + reader.read_bits(zeros).unwrap()
}

fn payload(packet: &Packet) -> Vec<u8> {
    let units = length_prefixed_nal_units(&packet.data, 4).unwrap();
    remove_emulation_prevention(&units[0].data[1..])
}

fn skip_idr_header(reader: &mut BitReader<'_>) {
    assert_eq!(read_ue(reader), 0);
    assert_eq!(read_ue(reader), 2);
    assert_eq!(read_ue(reader), 0);
    reader.skip_bits(4).unwrap();
    assert_eq!(read_ue(reader), 0);
    reader.skip_bits(2).unwrap();
    read_ue(reader);
    assert_eq!(read_ue(reader), 1);
}

fn encoded(options: &[(&str, &str)], frame: VideoFrame) -> Packet {
    let mut encoder = H264Encoder::default();
    encoder.configure(&settings(options)).unwrap();
    encoder.send_frame(frame).unwrap();
    encoder.receive_packet().unwrap().unwrap()
}

#[test]
fn plain_samples_are_read_back() {
    let data = payload(&encoded(&[], frame(3)));
    let mut reader = BitReader::new(&data);
    skip_idr_header(&mut reader);
    for row in 0..2 {
        for column in 0..2 {
            assert_eq!(read_ue(&mut reader), 25);
            reader.align_to_byte();
            let samples =
                (0..384).map(|_| reader.read_bits(8).unwrap() as u8).collect::<Vec<_>>();
            assert_eq!(samples, macroblock(&frame(3), column, row));
        }
    }
    assert!(reader.read_bit().unwrap());
}

#[test]
fn plain_samples_are_read_back_from_arithmetic_code() {
    let data = payload(&encoded(&[("entropy", "cabac")], frame(3)));
    let mut reader = BitReader::new(&data);
    skip_idr_header(&mut reader);
    let mut contexts = h264::cabac::initial_i_macroblock_contexts(26).unwrap();
    let mut decoder = CabacDecoder::new(&mut reader).unwrap();
    for row in 0..2 {
        for column in 0..2 {
            let slot = 3 + column + row;
            assert!(decoder.decision(&mut contexts[slot]).unwrap());
            assert!(decoder.terminate().unwrap());
            let samples = decoder.pcm_samples(384).unwrap();
            assert_eq!(samples, macroblock(&frame(3), column, row));
            assert_eq!(decoder.terminate().unwrap(), row == 1 && column == 1);
        }
    }
}

#[test]
fn symbols_are_read_back_from_arithmetic_code() {
    let start = (0..8)
        .map(|slot| ContextState {
            probability_state: slot * 7,
            most_probable_symbol: slot % 2 == 1,
        })
        .collect::<Vec<_>>();
    let bins = (0..400_u32)
        .map(|index| {
            let value = index * index % 7 < 3;
            match index % 5 {
                0 => Bin::Bypass(value),
                1 => Bin::Terminate(false),
                _ => Bin::Decision { slot: (index % 8) as u16, value },
            }
        })
        .collect::<Vec<_>>();
    let mut coder = BinCoder { encoder: CabacEncoder::new(), contexts: start.clone() };
    coder.encode_bins(&bins);
    coder.encode_bin(Bin::Terminate(true));
    let bytes = coder.encoder.finish();
    let mut reader = BitReader::new(&bytes);
    let mut decoder = CabacDecoder::new(&mut reader).unwrap();
    let mut contexts = start;
    for bin in bins {
        match bin {
            Bin::Decision { slot, value } => {
                assert_eq!(decoder.decision(&mut contexts[usize::from(slot)]).unwrap(), value);
            }
            Bin::Bypass(value) => assert_eq!(decoder.bypass().unwrap(), value),
            Bin::Terminate(value) => assert_eq!(decoder.terminate().unwrap(), value),
        }
    }
    assert!(decoder.terminate().unwrap());
    assert_eq!(contexts, coder.contexts);
}

#[test]
fn units_survive_their_framing() {
    let nal = make_nal(0x65, vec![0, 0, 0, 0, 0, 1, 2, 0, 0, 3]);
    assert_eq!(nal, [0x65, 0, 0, 3, 0, 0, 3, 0, 1, 2, 0, 0, 3, 3]);
    assert_eq!(remove_emulation_prevention(&nal)[1..], [0, 0, 0, 0, 0, 1, 2, 0, 0, 3]);
    let mut data = Vec::new();
    append_length_prefixed_nal(&mut data, &nal).unwrap();
    append_length_prefixed_nal(&mut data, &[0x06, 5]).unwrap();
    let units = length_prefixed_nal_units(&data, 4).unwrap();
    assert_eq!(units[0].data, nal.as_slice());
    assert_eq!(units[1].data, [0x06, 5]);
    let stream = nal_units_to_annex_b(&data, 4).unwrap();
    let units = annex_b_nal_units(&stream).unwrap();
    assert_eq!(units[0].data, nal.as_slice());
    assert_eq!(units[1].data, [0x06, 5]);
    let record = encode_avcc(&[0x67, 77, 1, 30], &[0x68, 9]).unwrap();
    let parsed = AvcDecoderConfigurationRecord::parse(&record).unwrap();
    assert_eq!(parsed.sequence_parameter_sets, [vec![0x67, 77, 1, 30]]);
    assert_eq!(parsed.picture_parameter_sets, [vec![0x68, 9]]);
    assert_eq!(
        (parsed.profile_indication, parsed.profile_compatibility, parsed.level_indication),
        (77, 1, 30)
    );
}

#[test]
fn codes_are_read_back() {
    let mut writer = BitWriter::new();
    for value in [0, 1, 2, 25, 1_000_000] {
        write_ue(&mut writer, value).unwrap();
    }
    for value in [0, 1, -1, 2, -2] {
        write_se(&mut writer, value).unwrap();
    }
    let bytes = writer.into_bytes();
    let mut reader = BitReader::new(&bytes);
    for value in [0, 1, 2, 25, 1_000_000, 0, 1, 2, 3, 4] {
        assert_eq!(read_ue(&mut reader), value);
    }
}

#[test]
fn frames_are_neither_lost_nor_made_up() {
    for b_frames in ["0", "1", "3"] {
        let mut encoder = H264Encoder::default();
        encoder
            .configure(&settings(&[
                ("b_frames", b_frames),
                ("gop_size", "5"),
                ("mode", "inter"),
                ("search_range", "1"),
            ]))
            .unwrap();
        let mut packets = Vec::new();
        let mut shown = Vec::new();
        for index in 0..9 {
            encoder.send_frame(frame(index)).unwrap();
            while let Some(packet) = encoder.receive_packet().unwrap() {
                shown.push(encoder.receive_reconstructed_frame().unwrap().unwrap());
                packets.push(packet);
            }
            assert!(encoder.receive_reconstructed_frame().unwrap().is_none());
            assert!(encoder.references().len() <= encoder.configuration().unwrap().max_references);
        }
        encoder.flush().unwrap();
        while let Some(packet) = encoder.receive_packet().unwrap() {
            shown.push(encoder.receive_reconstructed_frame().unwrap().unwrap());
            packets.push(packet);
        }
        assert_eq!(packets.len(), 9);
        assert!(packets[0].key);
        for (packet, picture) in packets.iter().zip(&shown) {
            assert_eq!(packet.pts, picture.timing.pts);
            assert_eq!(packet.duration, picture.timing.duration);
        }
        let decoded =
            packets.iter().map(|packet| packet.dts.unwrap().value).collect::<Vec<_>>();
        assert_eq!(decoded, (0..9).collect::<Vec<_>>());
        let mut times = packets.iter().map(|packet| packet.pts.unwrap().value).collect::<Vec<_>>();
        times.sort_unstable();
        assert_eq!(times, decoded);
    }
}

#[test]
fn descriptors_name_the_codec() {
    let descriptor = H264Encoder::default().configure(&settings(&[])).unwrap();
    assert_eq!(descriptor.codec_id, "video/h264");
    assert_eq!(descriptor.codec_id, CODEC_NAME);
    assert_eq!(&descriptor.codec_tag, b"avc1");
    assert_eq!(descriptor.codec_tag, CODEC_TAG);
}

#[test]
fn a_flat_picture_is_predicted_exactly() {
    let mut flat = frame(0);
    for plane in &mut flat.planes {
        plane.data.fill(77);
    }
    let mut encoder = H264Encoder::default();
    encoder.configure(&settings(&[("mode", "inter")])).unwrap();
    encoder.send_frame(flat.clone()).unwrap();
    let first = encoder.receive_packet().unwrap().unwrap();
    encoder.receive_reconstructed_frame().unwrap().unwrap();
    encoder.send_frame(flat).unwrap();
    let second = encoder.receive_packet().unwrap().unwrap();
    assert!(first.key && !second.key);
    assert!(second.data.len() < first.data.len());
}

#[test]
fn the_rate_is_followed_smoothly() {
    let mut control = RateControl::new(25_000, rational(1, 25), 26, None).unwrap();
    let mut last = control.current_qp;
    for bits in [9_000, 9_000, 9_000, 0, 0, 0, 0, 0, 0, 0, 0, 0] {
        control.observe(bits, None);
        assert!((control.current_qp - last).abs() <= 3);
        assert!(control.buffer_fullness_bits.abs() <= control.buffer_capacity_bits);
        last = control.current_qp;
    }
    assert_eq!(RateControl::bits_for_interval(25_000, 1, rational(1, 25)), Some(1_000));
}

#[test]
fn buffers_are_rounded_up_to_what_the_stream_can_say() {
    assert_eq!(greatest_common_divisor(84, 36), 12);
    assert_eq!(greatest_common_divisor(7, 0), 7);
    let hrd = EncoderHrd::new(25_000, 1_000, rational(1, 25), 0).unwrap();
    assert_eq!(hrd.signalled_bit_rate(), 25_024);
    assert_eq!(hrd.signalled_cpb_size(), 25_008);
    assert_eq!((hrd.num_units_in_tick, hrd.time_scale), (1, 50));
}

#[test]
fn quantizer_changes_take_the_short_way() {
    for previous in 0..52 {
        for desired in 0..52 {
            let delta = macroblock_qp_delta(previous, desired);
            assert!((-26..=25).contains(&delta));
            assert_eq!((previous + delta + 52) % 52, desired);
        }
    }
}

#[test]
fn medians_do_not_depend_on_order() {
    for (a, b, c) in [(1, 2, 3), (3, 1, 2), (2, 3, 1), (3, 2, 1), (1, 3, 2), (2, 1, 3)] {
        assert_eq!(median3(a, b, c), 2);
    }
    assert_eq!(median3(-5, 9, -5), -5);
}

#[test]
fn whole_steps_hit_samples() {
    let samples = (0..=255_u8).collect::<Vec<_>>();
    let plane = ReferencePlane { samples: &samples, width: 16, height: 16 };
    for y in 0..16_i64 {
        for x in 0..16_i64 {
            assert_eq!(i64::from(plane.luma_qpel(4 * x, 4 * y)), y * 16 + x);
            assert_eq!(i64::from(plane.chroma_epel(8 * x, 8 * y)), y * 16 + x);
        }
    }
    // Halfway between two columns of a slope of one step each.
    assert_eq!(plane.luma_qpel(4 * 5 + 2, 4 * 7), 118);
    // Outside, the nearest sample counts.
    assert_eq!(plane.luma_qpel(-400, -400), 0);
    assert_eq!(plane.luma_qpel(400, 400), 255);
}

#[test]
fn lossless_frames_come_back_in_coding_order() {
    let options = [
        ("b_frames", "2"),
        ("gop_size", "5"),
        ("mode", "inter"),
        ("qp", "0"),
        ("search_range", "2"),
        ("transform_bypass", "true"),
    ];
    for (options, order) in
        [(&options[..], [0, 3, 1, 2, 4, 5, 6]), (&[][..], [0, 1, 2, 3, 4, 5, 6])]
    {
        let mut encoder = H264Encoder::default();
        encoder.configure(&settings(options)).unwrap();
        let mut shown = Vec::new();
        for index in 0..7 {
            encoder.send_frame(frame(index)).unwrap();
        }
        encoder.flush().unwrap();
        while let Some(picture) = encoder.receive_reconstructed_frame().unwrap() {
            shown.push(picture);
        }
        assert_eq!(shown.len(), 7);
        for (picture, index) in shown.iter().zip(order) {
            assert_eq!(picture.timing.pts.unwrap().value, index as i64);
            let source = frame(index);
            for (plane, other) in picture.planes.iter().zip(&source.planes) {
                for y in 0..other.height {
                    assert_eq!(
                        &plane.data[y * plane.stride..][..other.width],
                        &other.data[y * other.stride..][..other.width]
                    );
                }
            }
        }
    }
}

#[test]
fn the_smallest_profile_that_will_do_is_chosen() {
    for (options, profile) in [
        (&[][..], 66),
        (&[("mode", "intra16")][..], 66),
        (&[("mode", "inter"), ("max_refs", "3")][..], 66),
        (&[("b_frames", "1"), ("mode", "inter")][..], 77),
        (&[("entropy", "cabac")][..], 77),
        (&[("mode", "intra8")][..], 100),
        (&[("mode", "intra16"), ("scaling_matrix", "jvt")][..], 100),
    ] {
        let mut encoder = H264Encoder::default();
        let descriptor = encoder.configure(&settings(options)).unwrap();
        assert_eq!(descriptor.configuration[1], profile);
    }
}

#[test]
fn rates_and_buffers_are_controlled_where_they_are_asked_for() {
    let mut plain = H264Encoder::default();
    plain.configure(&settings(&[("mode", "intra4")])).unwrap();
    assert!(plain.rate_control().is_none());
    assert!(plain.hrd_state().is_none());
    let mut rated = H264Encoder::default();
    let mut asked = settings(&[("mode", "intra4")]);
    asked.bitrate = Some(200_000);
    rated.configure(&asked).unwrap();
    assert!(rated.rate_control().is_some());
    assert!(rated.hrd_state().is_none());
    let mut buffered = H264Encoder::default();
    let mut asked = settings(&[("mode", "intra4"), ("vbv_buffer_ms", "1000")]);
    asked.bitrate = Some(200_000);
    buffered.configure(&asked).unwrap();
    assert!(buffered.rate_control().is_some());
    assert!(buffered.hrd_state().is_some());
}

fn values(bins: &[Bin]) -> Vec<bool> {
    bins.iter()
        .map(|bin| match bin {
            Bin::Decision { value, .. } | Bin::Bypass(value) | Bin::Terminate(value) => *value,
        })
        .collect()
}

fn assert_told_apart(words: &[Vec<bool>]) {
    for (index, word) in words.iter().enumerate() {
        for other in &words[index + 1..] {
            assert!(!word.starts_with(other) && !other.starts_with(word));
        }
    }
}

#[test]
fn residual_symbols_tell_blocks_apart() {
    let mut words = Vec::new();
    for levels in [
        [1, 0, 0, 0],
        [0, 0, 0, 1],
        [-1, 0, 0, 0],
        [2, 0, 0, 0],
        [14, 0, 0, 0],
        [15, 0, 0, 0],
        [16, 0, 0, 0],
        [-300, 0, 0, 7],
        [1, 1, 0, 0],
        [1, 1, 1, 1],
        [1, -1, 1, 1],
    ] {
        let mut bins = Vec::new();
        encode_cabac_residual_block(&mut bins, BlockKind::ChromaDc, &levels);
        words.push(values(&bins));
    }
    assert_told_apart(&words);
}

#[test]
fn syntax_symbols_tell_values_apart() {
    let differences = [0, 1, -1, 2, 8, -8, 9, 10, -17, 300].map(|difference| {
        let mut bins = Vec::new();
        encode_cabac_motion_difference(&mut bins, MOTION_X, 5, difference);
        values(&bins)
    });
    assert_told_apart(&differences);
    let changes = [0, 1, -1, 2, -2, 25, -26].map(|change| {
        let mut bins = Vec::new();
        encode_cabac_macroblock_qp_delta(&mut bins, change, 0);
        values(&bins)
    });
    assert_told_apart(&changes);
    let types = (0..=24)
        .map(|kind| {
            let mut bins = Vec::new();
            encode_cabac_i_macroblock_type(&mut bins, kind, 1);
            values(&bins)
        })
        .collect::<Vec<_>>();
    assert_told_apart(&types);
    let patterns = (0..48)
        .map(|pattern| {
            let mut bins = Vec::new();
            encode_cabac_coded_block_pattern(&mut bins, pattern, 15, 0);
            values(&bins)
        })
        .collect::<Vec<_>>();
    assert_told_apart(&patterns);
    let modes = (0..9)
        .map(|mode| {
            let mut bins = Vec::new();
            encode_cabac_luma_mode(&mut bins, mode, 4);
            values(&bins)
        })
        .collect::<Vec<_>>();
    assert_told_apart(&modes);
    let chroma_modes = (0..4)
        .map(|mode| {
            let mut bins = Vec::new();
            encode_cabac_chroma_prediction_mode(&mut bins, mode, 0);
            values(&bins)
        })
        .collect::<Vec<_>>();
    assert_told_apart(&chroma_modes);
    let indices = (0..4)
        .map(|index| {
            let mut bins = Vec::new();
            encode_cabac_reference_index(&mut bins, 0, index, 3);
            values(&bins)
        })
        .collect::<Vec<_>>();
    assert_told_apart(&indices);
    let types = (0..4)
        .map(|kind| {
            let mut bins = Vec::new();
            encode_cabac_p_macroblock_type(&mut bins, kind);
            values(&bins)
        })
        .collect::<Vec<_>>();
    assert_told_apart(&types);
    let types = (0..4)
        .map(|kind| {
            let mut bins = Vec::new();
            encode_cabac_p_sub_macroblock_type(&mut bins, kind);
            values(&bins)
        })
        .collect::<Vec<_>>();
    assert_told_apart(&types);
}

fn told(options: &[(&str, &str)], frames: Vec<VideoFrame>) -> (Vec<Vec<u8>>, Vec<Vec<u8>>) {
    let mut encoder = H264Encoder::default();
    encoder.configure(&settings(options)).unwrap();
    for frame in frames {
        encoder.send_frame(frame).unwrap();
    }
    encoder.flush().unwrap();
    let mut units = Vec::new();
    while let Some(packet) = encoder.receive_packet().unwrap() {
        units.push(packet.data);
    }
    let mut pictures = Vec::new();
    while let Some(picture) = encoder.receive_reconstructed_frame().unwrap() {
        let mut samples = Vec::new();
        for plane in &picture.planes {
            for y in 0..plane.height {
                samples.extend_from_slice(&plane.data[y * plane.stride..][..plane.width]);
            }
        }
        pictures.push(samples);
    }
    (units, pictures)
}

fn check_told(options: &[(&str, &str)], count: usize, at: usize) {
    let frames = || (0..count).map(frame).collect::<Vec<VideoFrame>>();
    let (units, pictures) = told(options, frames());
    assert_eq!(units.len(), count);
    let mut alike = 0;
    let mut apart = 0;
    for change in [0u8, 1, 40, 90] {
        let mut changed = frames();
        let luma = &mut changed[at].planes[0];
        for sample in luma.data.iter_mut().take(if change == 1 { 1 } else { 40 }) {
            *sample = sample.wrapping_add(change);
        }
        let (other_units, other_pictures) = told(options, changed);
        assert_eq!(other_pictures.len(), pictures.len());
        if units == other_units {
            assert_eq!(pictures, other_pictures);
            alike += 1;
        }
        if pictures != other_pictures {
            assert_ne!(units, other_units);
            apart += 1;
        }
    }
    assert!(alike >= 1);
    assert!(apart >= 1);
}

#[test]
fn units_tell_pictures_that_stand_alone() {
    for entropy in ["cavlc", "cabac"] {
        for mode in ["intra4", "intra8", "intra16"] {
            check_told(&[("entropy", entropy), ("mode", mode), ("qp", "40")], 1, 0);
        }
    }
}

#[test]
fn units_tell_predicted_pictures() {
    for entropy in ["cavlc", "cabac"] {
        check_told(
            &[
                ("entropy", entropy),
                ("gop_size", "5"),
                ("mode", "inter"),
                ("qp", "40"),
                ("search_range", "2"),
            ],
            2,
            1,
        );
    }
}

#[test]
fn units_tell_pictures_between_others() {
    for entropy in ["cavlc", "cabac"] {
        check_told(
            &[
                ("b_frames", "1"),
                ("entropy", entropy),
                ("gop_size", "5"),
                ("mode", "inter"),
                ("qp", "40"),
                ("search_range", "2"),
            ],
            3,
            1,
        );
    }
}

#[test]
fn annex_b_keeps_units_with_short_runs_of_zeros() {
    let units: [&[u8]; 4] =
        [&[0x65, 0, 0, 2, 9], &[0x41, 0, 0, 0, 5], &[0x67, 0, 0, 3], &[0x68, 0x80]];
    let mut stream = Vec::new();
    for unit in units {
        stream.extend_from_slice(&[0, 0, 0, 1]);
        stream.extend_from_slice(unit);
    }
    let found = annex_b_nal_units(&stream).unwrap();
    assert_eq!(found.iter().map(|unit| unit.data).collect::<Vec<_>>(), units);
}

#[test]
fn settings_without_a_mode_lose_nothing() {
    for options in [
        vec![],
        vec![("mode", "ipcm")],
        vec![("entropy", "cabac"), ("level", "4")],
        vec![("gop_size", "5"), ("color", "bt709"), ("mode", "ipcm"), ("profile", "high")],
    ] {
        let mut encoder = H264Encoder::default();
        encoder.configure(&settings(&options)).unwrap();
        let sent = frame(4);
        encoder.send_frame(sent.clone()).unwrap();
        let shown = encoder.receive_reconstructed_frame().unwrap().unwrap();
        assert_eq!(shown.timing, sent.timing);
        for (own, other) in shown.planes.iter().zip(&sent.planes) {
            assert_eq!(own.data, other.data);
        }
    }
}

#[test]
fn a_full_search_leaves_no_closer_whole_step() {
    let reference = (0..48 * 48)
        .map(|place: usize| (place % 48 * 37 + place / 48 * 59 + place * place % 101) as u8)
        .collect::<Vec<_>>();
    let source = (0..48 * 48)
        .map(|place: usize| (place % 48 * 41 + place / 48 * 53 + place * place % 89) as u8)
        .collect::<Vec<_>>();
    let plane = ReferencePlane { samples: &reference, width: 48, height: 48 };
    let search = MotionSearch {
        source: &source,
        reference: plane,
        x: 16,
        y: 20,
        width: 8,
        height: 4,
        predicted: MotionVector { x: 5, y: -3 },
        range: 3,
    };
    let sum = |motion: MotionVector| search.motion_sad_bounded(Measure::Quarter, motion, u64::MAX);
    let found = search.estimate_partition_motion(AnalysisPreset::Full);
    assert!(found.x.abs() <= 12 && found.y.abs() <= 12);
    for y in -3..=3 {
        for x in -3..=3 {
            assert!(sum(found) <= sum(MotionVector { x: 4 * x, y: 4 * y }));
        }
    }
}
