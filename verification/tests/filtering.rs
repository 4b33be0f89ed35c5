use h264::deblock::{
    filter_picture, filter_samples, motion_pairs_match, BlockMotion, MacroblockParameters,
    Parameters, Picture, ReferenceMotion,
};

#[test]
fn strong_filter_smooths_an_intra_boundary() {
    let mut plane = [90, 91, 92, 93, 99, 100, 101, 102];
    filter_samples(
        &mut plane,
        [3, 2, 1, 0],
        [4, 5, 6, 7],
        40,
        4,
        false,
        Parameters { offset_a: 0, offset_b: 0 },
    );
    assert_eq!(plane, [90, 92, 94, 95, 97, 98, 100, 102]);
}

#[test]
fn zero_threshold_leaves_an_edge_unchanged() {
    let mut plane = [0, 0, 0, 0, 255, 255, 255, 255];
    let original = plane;
    filter_samples(
        &mut plane,
        [3, 2, 1, 0],
        [4, 5, 6, 7],
        0,
        4,
        false,
        Parameters { offset_a: 0, offset_b: 0 },
    );
    assert_eq!(plane, original);
}

#[test]
fn eight_by_eight_transform_skips_internal_four_sample_edges() {
    let original = (0..16)
        .flat_map(|_| (0..16).map(|x| if x < 4 { 100 } else { 110 }))
        .collect::<Vec<_>>();
    let luma_qp = [40];
    let macroblock_intra = [true];
    let luma_nonzero = [[0; 16]];
    let motion = [[BlockMotion::default(); 16]];
    let params = Parameters { offset_a: 0, offset_b: 0 };
    let macroblock_parameters = [MacroblockParameters {
        parameters: Some(params),
        slice_id: 0,
        filter_across_slice_boundaries: true,
    }];

    let mut transformed = original.clone();
    let mut transformed_blue = vec![128; 64];
    let mut transformed_red = vec![128; 64];
    filter_picture(
        &mut Picture {
            luma: &mut transformed,
            cb: &mut transformed_blue,
            cr: &mut transformed_red,
            coded_width: 16,
            coded_height: 16,
            luma_qp: &luma_qp,
            chroma_qp_offset_cb: 0,
            chroma_qp_offset_cr: 0,
            macroblock_intra: &macroblock_intra,
            transform_8x8: &[true],
            luma_nonzero: &luma_nonzero,
            motion: &motion,
        },
        &macroblock_parameters,
    )
    .unwrap();
    assert_eq!(transformed, original);

    let mut four_by_four = original.clone();
    let mut four_by_four_blue = vec![128; 64];
    let mut four_by_four_red = vec![128; 64];
    filter_picture(
        &mut Picture {
            luma: &mut four_by_four,
            cb: &mut four_by_four_blue,
            cr: &mut four_by_four_red,
            coded_width: 16,
            coded_height: 16,
            luma_qp: &luma_qp,
            chroma_qp_offset_cb: 0,
            chroma_qp_offset_cr: 0,
            macroblock_intra: &macroblock_intra,
            transform_8x8: &[false],
            luma_nonzero: &luma_nonzero,
            motion: &motion,
        },
        &macroblock_parameters,
    )
    .unwrap();
    assert_ne!(four_by_four, original);
}

#[test]
fn bidirectional_motion_accepts_swapped_reference_lists() {
    let motion = |reference, x| ReferenceMotion { x, y: 0, index: None, reference: Some(reference) };
    let left = BlockMotion { list0: motion(10, 8), list1: motion(20, -4) };
    let swapped = BlockMotion { list0: motion(20, -4), list1: motion(10, 8) };
    assert!(motion_pairs_match(left, swapped));
    let changed = BlockMotion { list0: motion(20, 0), ..swapped };
    assert!(!motion_pairs_match(left, changed));
}

fn filtered_luma(filter_across_slice_boundaries: bool) -> Vec<u8> {
    let mut luma = (0..16)
        .flat_map(|_| (0..32).map(|x| if x < 16 { 100 } else { 110 }))
        .collect::<Vec<_>>();
    let mut cb = vec![128; 16 * 8];
    let mut cr = vec![128; 16 * 8];
    let luma_qp = [40; 2];
    let macroblock_intra = [true; 2];
    let transform_8x8 = [false; 2];
    let luma_nonzero = [[0; 16]; 2];
    let motion = [[BlockMotion::default(); 16]; 2];
    let parameters = Some(Parameters { offset_a: 0, offset_b: 0 });
    let macroblock_parameters = [
        MacroblockParameters { parameters, slice_id: 0, filter_across_slice_boundaries: true },
        MacroblockParameters { parameters, slice_id: 1, filter_across_slice_boundaries },
    ];
    filter_picture(
        &mut Picture {
            luma: &mut luma,
            cb: &mut cb,
            cr: &mut cr,
            coded_width: 32,
            coded_height: 16,
            luma_qp: &luma_qp,
            chroma_qp_offset_cb: 0,
            chroma_qp_offset_cr: 0,
            macroblock_intra: &macroblock_intra,
            transform_8x8: &transform_8x8,
            luma_nonzero: &luma_nonzero,
            motion: &motion,
        },
        &macroblock_parameters,
    )
    .unwrap();
    luma
}

#[test]
fn slice_boundary_filtering_obeys_disable_idc_two() {
    let original = (0..16)
        .flat_map(|_| (0..32).map(|x| if x < 16 { 100 } else { 110 }))
        .collect::<Vec<_>>();
    assert_eq!(filtered_luma(false), original);
    assert_ne!(filtered_luma(true), original);
}
