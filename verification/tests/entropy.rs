use h264::bins::{MOTION_X, QP_DELTA, SKIP, SLOT_COUNT, TYPE_I};
use h264::bits::{BitReader, BitWriter};
use h264::cabac::{CabacDecoder, ContextState, I_MACROBLOCK_CONTEXT_INIT};
use h264::cavlc::{decode_residual_block, encode_residual_block};
use h264::contexts::ContextTables;

#[test]
fn initializes_contexts_on_both_sides_of_the_mps_boundary() {
    assert_eq!(
        ContextState::from_mn(20, -15, 26).unwrap(),
        ContextState { probability_state: 46, most_probable_symbol: false }
    );
    assert_eq!(
        ContextState::from_mn(-3, 70, 26).unwrap(),
        ContextState { probability_state: 1, most_probable_symbol: true }
    );
}

#[test]
fn decodes_regular_bypass_and_termination_bins() {
    let mut bits = BitReader::new(&[0x12, 0x34, 0x56, 0x78, 0x9a, 0xbc]);
    let mut decoder = CabacDecoder::new(&mut bits).unwrap();
    let mut context = ContextState { probability_state: 10, most_probable_symbol: false };
    let regular = (0..12).map(|_| decoder.decision(&mut context).unwrap()).collect::<Vec<_>>();
    assert_eq!(
        regular,
        [false, false, false, false, false, false, false, false, false, true, false, false]
    );
    assert_eq!(
        (0..4).map(|_| decoder.bypass().unwrap()).collect::<Vec<_>>(),
        [true, true, false, true]
    );
    assert!(!decoder.terminate().unwrap());
    assert_eq!(context, ContextState { probability_state: 17, most_probable_symbol: false });
}

#[test]
fn rejects_zero_alignment_and_forbidden_initial_offsets() {
    let mut bad_alignment = BitReader::new(&[0x80, 0x00]);
    bad_alignment.skip_bits(1).unwrap();
    assert!(CabacDecoder::new(&mut bad_alignment).is_err());

    let mut forbidden_offset = BitReader::new(&[0xff, 0x80]);
    assert!(CabacDecoder::new(&mut forbidden_offset).is_err());
}

#[test]
fn bounds_implicit_zero_padding_for_truncated_cabac_data() {
    let mut bits = BitReader::new(&[0x00, 0x00]);
    let mut decoder = CabacDecoder::new(&mut bits).unwrap();
    let error = (0..64).find_map(|_| decoder.bypass().err());
    assert!(error.is_some());
}

#[test]
fn decodes_empty_and_trailing_one_blocks() {
    let mut empty = BitReader::new(&[0b1000_0000]);
    assert_eq!(decode_residual_block(&mut empty, 0, 16).unwrap().coefficients, [0; 16]);

    // coeff_token=(TotalCoeff 1, TrailingOnes 1), positive sign, total_zeros=0.
    let mut one = BitReader::new(&[0b0101_0000]);
    let decoded = decode_residual_block(&mut one, 0, 16).unwrap();
    assert_eq!(decoded.total_coeff, 1);
    assert_eq!(decoded.coefficients[0], 1);
    assert!(decoded.coefficients[1..].iter().all(|&value| value == 0));
}

#[test]
fn decodes_non_trailing_level_and_zero_run() {
    // TotalCoeff=1, TrailingOnes=0; level_prefix=0 becomes +2 for the first level.
    let mut level = BitReader::new(&[0b0001_0111]);
    let decoded = decode_residual_block(&mut level, 0, 16).unwrap();
    assert_eq!(decoded.coefficients[0], 2);

    // TotalCoeff=1, TrailingOnes=1, positive sign, total_zeros=3.
    let mut run = BitReader::new(&[0b0100_0110]);
    let decoded = decode_residual_block(&mut run, 0, 16).unwrap();
    assert_eq!(decoded.coefficients[3], 1);
    assert_eq!(decoded.coefficients.iter().sum::<i32>(), 1);
}

#[test]
fn encodes_residual_blocks_for_every_context_table() {
    for (n_c, coefficients) in [
        (0, vec![0, 2, 0, -1, 1, 0, 0, -7, 0, 0, 0, 0, 0, 0, 0, 3]),
        (2, vec![12, -20, 0, 0, 0, 1, -1, 1, 0, 0, 0, 0, 0, 0, 0, 0]),
        (4, vec![0, 0, 0, 0, 0, 0, 0, 0, 0, 0, 0, 0, 0, 0, 0, -2]),
        (8, vec![1; 16]),
        (3, vec![0, -3, 0, 1, 0, 0, 8, 0, -1, 0, 0, 2, 0, 0, 1]),
    ] {
        let mut writer = BitWriter::new();
        let total = encode_residual_block(&mut writer, n_c, &coefficients).unwrap();
        let bytes = writer.into_bytes();
        let decoded = decode_residual_block(
            &mut BitReader::new(&bytes),
            n_c,
            u8::try_from(coefficients.len()).unwrap(),
        )
        .unwrap();
        assert_eq!(decoded.coefficients, coefficients);
        assert_eq!(usize::from(total), coefficients.iter().filter(|&&v| v != 0).count());
    }

    let chroma = vec![3, 0, -2, 1];
    let mut writer = BitWriter::new();
    encode_residual_block(&mut writer, -1, &chroma).unwrap();
    let decoded = decode_residual_block(&mut BitReader::new(&writer.into_bytes()), -1, 4).unwrap();
    assert_eq!(decoded.coefficients, chroma);
}

#[test]
fn probabilities_start_from_the_pairs_of_their_kind_of_picture() {
    let tables = ContextTables::starting();
    assert_eq!(tables.intra[TYPE_I..][..11], I_MACROBLOCK_CONTEXT_INIT);
    for table in [&tables.intra, &tables.predicted, &tables.between] {
        assert_eq!(table.len(), SLOT_COUNT);
        assert_eq!(table[QP_DELTA..][..4], [(0, 41), (0, 63), (0, 63), (0, 63)]);
    }
    assert_eq!(tables.predicted[SKIP..][..3], [(23, 33), (23, 2), (21, 0)]);
    assert_eq!(tables.between[SKIP..][..3], [(18, 64), (9, 43), (29, 0)]);
    assert_eq!(tables.predicted[MOTION_X..], tables.between[MOTION_X..]);
    assert_eq!(tables.intra[SLOT_COUNT - 1], (-9, 92));
    assert_eq!(tables.predicted[SLOT_COUNT - 1], (-8, 76));
}
