use h264::inter_residual::select_inter_luma_residual;
use h264::intra::{intra4_prediction, intra8_prediction};
use h264::scaling::ScalingMatrixPreset;

#[test]
fn all_nine_intra4_predictions_are_available_with_complete_neighbors() {
    let stride = 32;
    let plane = (0..stride * stride)
        .map(|index| u8::try_from((index * 37 + index / stride * 13) & 0xff).unwrap())
        .collect::<Vec<_>>();
    for mode in 0..=8 {
        assert!(
            intra4_prediction(&plane, stride, 20, 20, 12, mode, true, true).is_some(),
            "mode {mode} rejected complete neighbor samples"
        );
    }
    assert!(intra4_prediction(&plane, stride, 0, 0, 0, 0, false, false).is_none());
    assert!(intra4_prediction(&plane, stride, 0, 0, 0, 1, false, false).is_none());
    assert!(intra4_prediction(&plane, stride, 0, 0, 0, 2, false, false).is_some());
}

#[test]
fn all_nine_intra8_predictions_are_available_with_complete_neighbors() {
    let stride = 48;
    let plane = (0..stride * stride)
        .map(|index| u8::try_from((index * 29 + index / stride * 17) & 0xff).unwrap())
        .collect::<Vec<_>>();
    for mode in 0..=8 {
        assert!(
            intra8_prediction(&plane, stride, 20, 20, 0, mode, true, true).is_some(),
            "mode {mode} rejected complete neighbor samples"
        );
    }
    assert!(intra8_prediction(&plane, stride, 0, 0, 0, 0, false, false).is_none());
    assert!(intra8_prediction(&plane, stride, 0, 0, 0, 1, false, false).is_none());
    assert!(intra8_prediction(&plane, stride, 0, 0, 0, 2, false, false).is_some());
    assert!(intra8_prediction(&plane, stride, 0, 0, 0, 3, false, false).is_none());
    assert!(intra8_prediction(&plane, stride, 0, 0, 0, 8, false, false).is_none());
}

#[test]
fn adaptive_inter_transform_selects_between_4x4_and_8x8() {
    let source = vec![152_u8; 16 * 16];
    let prediction = vec![96_u8; 16 * 16];
    let four_by_four = select_inter_luma_residual(
        &source,
        16,
        0,
        0,
        &prediction,
        26,
        false,
        false,
        ScalingMatrixPreset::Flat,
    );
    let adaptive = select_inter_luma_residual(
        &source,
        16,
        0,
        0,
        &prediction,
        26,
        true,
        false,
        ScalingMatrixPreset::Flat,
    );
    assert!(!four_by_four.uses_8x8());
    assert!(adaptive.uses_8x8());
    assert_ne!(adaptive.coded_block_pattern(), 0);

    let mut localized_source = prediction.clone();
    for y in 0..4 {
        localized_source[y * 16..y * 16 + 4].fill(152);
    }
    let localized = select_inter_luma_residual(
        &localized_source,
        16,
        0,
        0,
        &prediction,
        26,
        true,
        false,
        ScalingMatrixPreset::Flat,
    );
    assert!(!localized.uses_8x8());
}
