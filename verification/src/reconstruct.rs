//! Samples from predictions and levels.

use vstd::prelude::*;

use crate::deblock::{block_at, luma_block_index};
use crate::math::{clip_wide, lemma_powers_of_two, sample_of, thirty_second, two_to};
use crate::bits::power_of_two;
use crate::plane::{place_block, region_inside, with_region};
use crate::quant_tables::{scan, scan_4x4, scan_8x8};
use crate::quantize::{
    descale, descaled, inverse_quantized_coefficient, inverse_quantized_coefficient_8x8,
    level_scale, level_scale_4x4, quantizer, rescaled,
};
use crate::residual::{chroma_difference, mean_transform, summed, ChromaLevels, ChromaResidual};
use crate::transform::{
    hadamard_4x4, hadamard_block, ints, inverse_block, inverse_block_8, inverse_transform_4x4,
    inverse_transform_8x8, wide_ints, within,
};

verus! {

/// A prediction corrected by a residual.
pub open spec fn corrected(prediction: Seq<u8>, residual: Seq<int>) -> Seq<u8> {
    Seq::new(prediction.len(), |i: int| sample_of(prediction[i] + residual[i]))
}

/// The residual that levels of a four-by-four block, in scanning order, stand for.
pub open spec fn residual_4x4(levels: Seq<int>, qp: int, matrix: Seq<u8>) -> Seq<int> {
    inverse_block(
        Seq::new(16, |p: int| rescaled(4, levels[scan(4, p)], qp, p, matrix)),
    )
}

/// The residual that levels of an eight-by-eight block, in scanning order, stand for.
pub open spec fn residual_8x8(levels: Seq<int>, qp: int, matrix: Seq<u8>) -> Seq<int> {
    inverse_block_8(
        Seq::new(64, |p: int| rescaled(8, levels[scan(8, p)], qp, p, matrix)),
    )
}

/// The residual of a block whose mean is coded apart: `mean` is its scaled mean and `levels` are
/// its other levels, in scanning order.
pub open spec fn residual_with_mean(
    mean: int,
    levels: Seq<int>,
    qp: int,
    matrix: Seq<u8>,
) -> Seq<int> {
    inverse_block(
        Seq::new(
            16,
            |p: int|
                if p == 0 {
                    mean
                } else {
                    rescaled(4, levels[scan(4, p) - 1], qp, p, matrix)
                },
        ),
    )
}

/// Computes the residual that levels of a four-by-four block stand for.
pub fn inverse_quantized_transform_4x4(
    levels: &[i32; 16],
    qp: i32,
    scaling_list: &[u8; 16],
) -> (residual: [i64; 16])
    requires
        quantizer(qp as int),
    ensures
        wide_ints(residual@) == residual_4x4(ints(levels@), qp as int, scaling_list@),
        within(wide_ints(residual@), 0x1000_0000_0000_0000),
{
    let ghost expected = Seq::new(
        16,
        |p: int| rescaled(4, ints(levels@)[scan(4, p)], qp as int, p, scaling_list@),
    );
    let mut scaled: [i64; 16] = [0i64; 16];
    let mut p: usize = 0;
    while p < 16
        invariant
            p <= 16,
            quantizer(qp as int),
            expected == Seq::new(
                16,
                |p: int| rescaled(4, ints(levels@)[scan(4, p)], qp as int, p, scaling_list@),
            ),
            forall|j: int|
                0 <= j < p ==> (#[trigger] scaled@[j]) == expected[j] && -0x100_0000_0000_0000
                    <= scaled@[j] <= 0x100_0000_0000_0000,
        decreases 16 - p,
    {
        let position: usize = scan_4x4(p);
        assert(p as int / 4 * 4 + p as int % 4 == p);
        scaled[p] = inverse_quantized_coefficient(levels[position], qp, p / 4, p % 4, scaling_list);
        p = p + 1;
    }
    assert(wide_ints(scaled@) =~= expected);
    inverse_transform_4x4(&scaled)
}

/// Computes the residual of a block whose mean is coded apart.
fn inverse_transform_with_mean(
    mean: i64,
    levels: &[i32; 15],
    qp: i32,
    scaling_list: &[u8; 16],
) -> (residual: [i64; 16])
    requires
        quantizer(qp as int),
        -0x100_0000_0000_0000 <= mean <= 0x100_0000_0000_0000,
    ensures
        wide_ints(residual@) == residual_with_mean(
            mean as int,
            ints(levels@),
            qp as int,
            scaling_list@,
        ),
        within(wide_ints(residual@), 0x1000_0000_0000_0000),
{
    let ghost expected = Seq::new(
        16,
        |p: int|
            if p == 0 {
                mean as int
            } else {
                rescaled(4, ints(levels@)[scan(4, p) - 1], qp as int, p, scaling_list@)
            },
    );
    let mut scaled: [i64; 16] = [0i64; 16];
    scaled[0] = mean;
    let mut p: usize = 1;
    while p < 16
        invariant
            1 <= p <= 16,
            quantizer(qp as int),
            expected == Seq::new(
                16,
                |p: int|
                    if p == 0 {
                        mean as int
                    } else {
                        rescaled(4, ints(levels@)[scan(4, p) - 1], qp as int, p, scaling_list@)
                    },
            ),
            forall|j: int|
                0 <= j < p ==> (#[trigger] scaled@[j]) == expected[j] && -0x100_0000_0000_0000
                    <= scaled@[j] <= 0x100_0000_0000_0000,
        decreases 16 - p,
    {
        let position: usize = scan_4x4(p);
        assert(p as int / 4 * 4 + p as int % 4 == p);
        scaled[p] = inverse_quantized_coefficient(
            levels[position - 1],
            qp,
            p / 4,
            p % 4,
            scaling_list,
        );
        p = p + 1;
    }
    assert(wide_ints(scaled@) =~= expected);
    inverse_transform_4x4(&scaled)
}

/// Computes the residual that levels of an eight-by-eight block stand for.
pub fn inverse_quantized_transform_8x8(
    levels: &[i32; 64],
    qp: i32,
    scaling_list: &[u8; 64],
) -> (residual: [i64; 64])
    requires
        quantizer(qp as int),
    ensures
        wide_ints(residual@) == residual_8x8(ints(levels@), qp as int, scaling_list@),
        within(wide_ints(residual@), 0x1000_0000_0000_0000),
{
    let ghost expected = Seq::new(
        64,
        |p: int| rescaled(8, ints(levels@)[scan(8, p)], qp as int, p, scaling_list@),
    );
    let mut scaled: [i64; 64] = [0i64; 64];
    let mut p: usize = 0;
    while p < 64
        invariant
            p <= 64,
            quantizer(qp as int),
            expected == Seq::new(
                64,
                |p: int| rescaled(8, ints(levels@)[scan(8, p)], qp as int, p, scaling_list@),
            ),
            forall|j: int|
                0 <= j < p ==> (#[trigger] scaled@[j]) == expected[j] && -0x8_0000_0000_0000
                    <= scaled@[j] <= 0x8_0000_0000_0000,
        decreases 64 - p,
    {
        let position: usize = scan_8x8(p);
        assert(p as int / 8 * 8 + p as int % 8 == p);
        scaled[p] = inverse_quantized_coefficient_8x8(
            levels[position],
            qp,
            p / 8,
            p % 8,
            scaling_list,
        );
        p = p + 1;
    }
    assert(wide_ints(scaled@) =~= expected);
    inverse_transform_8x8(&scaled)
}

/// Reconstructs a luma block that is predicted with eight-by-eight samples.
pub fn reconstruct_intra8_luma_block(
    destination: &mut [u8],
    stride: usize,
    origin_x: usize,
    origin_y: usize,
    prediction: &[u8; 64],
    levels: &[i32; 64],
    qp: i32,
    scaling_list: &[u8; 64],
)
    requires
        region_inside(
            old(destination)@.len() as int,
            stride as int,
            origin_x as int,
            origin_y as int,
            8,
            8,
        ),
        quantizer(qp as int),
    ensures
        final(destination)@.len() == old(destination)@.len(),
        final(destination)@ == with_region(
            old(destination)@,
            stride as int,
            origin_x as int,
            origin_y as int,
            8,
            8,
            corrected(prediction@, residual_8x8(ints(levels@), qp as int, scaling_list@)),
        ),
{
    let residual: [i64; 64] = inverse_quantized_transform_8x8(levels, qp, scaling_list);
    let ghost expected = corrected(prediction@, wide_ints(residual@));
    let mut samples: [u8; 64] = [0u8; 64];
    let mut i: usize = 0;
    while i < 64
        invariant
            i <= 64,
            within(wide_ints(residual@), 0x1000_0000_0000_0000),
            expected == corrected(prediction@, wide_ints(residual@)),
            forall|j: int| 0 <= j < i ==> #[trigger] samples@[j] == expected[j],
        decreases 64 - i,
    {
        assert(wide_ints(residual@)[i as int] == residual@[i as int]);
        samples[i] = clip_wide(prediction[i] as i64 + residual[i]);
        i = i + 1;
    }
    assert(samples@ =~= expected);
    place_block(destination, stride, origin_x, origin_y, 8, samples.as_slice());
}

/// Reconstructs a luma block that is predicted with four-by-four samples.
pub fn reconstruct_intra4_luma_block(
    destination: &mut [u8],
    stride: usize,
    origin_x: usize,
    origin_y: usize,
    prediction: &[u8; 16],
    levels: &[i32; 16],
    qp: i32,
    scaling_list: &[u8; 16],
)
    requires
        region_inside(
            old(destination)@.len() as int,
            stride as int,
            origin_x as int,
            origin_y as int,
            4,
            4,
        ),
        quantizer(qp as int),
    ensures
        final(destination)@.len() == old(destination)@.len(),
        final(destination)@ == with_region(
            old(destination)@,
            stride as int,
            origin_x as int,
            origin_y as int,
            4,
            4,
            corrected(prediction@, residual_4x4(ints(levels@), qp as int, scaling_list@)),
        ),
{
    let residual: [i64; 16] = inverse_quantized_transform_4x4(levels, qp, scaling_list);
    let ghost expected = corrected(prediction@, wide_ints(residual@));
    let mut samples: [u8; 16] = [0u8; 16];
    let mut i: usize = 0;
    while i < 16
        invariant
            i <= 16,
            within(wide_ints(residual@), 0x1000_0000_0000_0000),
            expected == corrected(prediction@, wide_ints(residual@)),
            forall|j: int| 0 <= j < i ==> #[trigger] samples@[j] == expected[j],
        decreases 16 - i,
    {
        assert(wide_ints(residual@)[i as int] == residual@[i as int]);
        samples[i] = clip_wide(prediction[i] as i64 + residual[i]);
        i = i + 1;
    }
    assert(samples@ =~= expected);
    place_block(destination, stride, origin_x, origin_y, 4, samples.as_slice());
}

/// The residual of a macroblock from those of its sixteen blocks, in coding order.
pub open spec fn gathered_16(blocks: Seq<Seq<int>>) -> Seq<int> {
    Seq::new(
        256,
        |i: int| blocks[block_at(i % 16 / 4, i / 16 / 4)][i / 16 % 4 * 4 + i % 4],
    )
}

/// The residual of a macroblock from those of its four quarters.
pub open spec fn gathered_4(blocks: Seq<Seq<int>>) -> Seq<int> {
    Seq::new(256, |i: int| blocks[i / 128 * 2 + i % 16 / 8][i / 16 % 8 * 8 + i % 8])
}

/// The residual of a chroma macroblock from those of its four blocks.
pub open spec fn gathered_chroma(blocks: Seq<Seq<int>>) -> Seq<int> {
    Seq::new(64, |i: int| blocks[i / 32 * 2 + i % 8 / 4][i / 8 % 4 * 4 + i % 4])
}

/// Corrects the prediction of a macroblock by the residuals of its sixteen blocks.
pub fn correct_16(prediction: &[u8], blocks: &[[i64; 16]; 16]) -> (samples: Vec<u8>)
    requires
        prediction@.len() == 256,
        forall|b: int|
            0 <= b < 16 ==> within(wide_ints((#[trigger] blocks@[b])@), 0x1000_0000_0000_0000),
    ensures
        samples@ == corrected(
            prediction@,
            gathered_16(Seq::new(16, |b: int| wide_ints(blocks@[b]@))),
        ),
{
    let ghost all = Seq::new(16, |b: int| wide_ints(blocks@[b]@));
    let ghost expected = corrected(prediction@, gathered_16(all));
    let mut samples: Vec<u8> = Vec::with_capacity(256);
    let mut i: usize = 0;
    while i < 256
        invariant
            i <= 256,
            prediction@.len() == 256,
            samples@.len() == i,
            all == Seq::new(16, |b: int| wide_ints(blocks@[b]@)),
            expected == corrected(prediction@, gathered_16(all)),
            forall|b: int|
                0 <= b < 16 ==> within(wide_ints((#[trigger] blocks@[b])@), 0x1000_0000_0000_0000),
            forall|j: int| 0 <= j < i ==> #[trigger] samples@[j] == expected[j],
        decreases 256 - i,
    {
        let block: usize = luma_block_index(i % 16 / 4, i / 16 / 4);
        let place: usize = i / 16 % 4 * 4 + i % 4;
        assert(within(wide_ints(blocks@[block as int]@), 0x1000_0000_0000_0000));
        assert(wide_ints(blocks@[block as int]@)[place as int]
            == blocks@[block as int]@[place as int]);
        let sample: u8 = clip_wide(prediction[i] as i64 + blocks[block][place]);
        assert(sample == expected[i as int]);
        samples.push(sample);
        i = i + 1;
    }
    assert(samples@ =~= expected);
    samples
}

/// Corrects the prediction of a macroblock by the residuals of its four quarters.
pub fn correct_4(prediction: &[u8], blocks: &[[i64; 64]; 4]) -> (samples: Vec<u8>)
    requires
        prediction@.len() == 256,
        forall|b: int|
            0 <= b < 4 ==> within(wide_ints((#[trigger] blocks@[b])@), 0x1000_0000_0000_0000),
    ensures
        samples@ == corrected(
            prediction@,
            gathered_4(Seq::new(4, |b: int| wide_ints(blocks@[b]@))),
        ),
{
    let ghost all = Seq::new(4, |b: int| wide_ints(blocks@[b]@));
    let ghost expected = corrected(prediction@, gathered_4(all));
    let mut samples: Vec<u8> = Vec::with_capacity(256);
    let mut i: usize = 0;
    while i < 256
        invariant
            i <= 256,
            prediction@.len() == 256,
            samples@.len() == i,
            all == Seq::new(4, |b: int| wide_ints(blocks@[b]@)),
            expected == corrected(prediction@, gathered_4(all)),
            forall|b: int|
                0 <= b < 4 ==> within(wide_ints((#[trigger] blocks@[b])@), 0x1000_0000_0000_0000),
            forall|j: int| 0 <= j < i ==> #[trigger] samples@[j] == expected[j],
        decreases 256 - i,
    {
        let block: usize = i / 128 * 2 + i % 16 / 8;
        let place: usize = i / 16 % 8 * 8 + i % 8;
        assert(within(wide_ints(blocks@[block as int]@), 0x1000_0000_0000_0000));
        assert(wide_ints(blocks@[block as int]@)[place as int]
            == blocks@[block as int]@[place as int]);
        let sample: u8 = clip_wide(prediction[i] as i64 + blocks[block][place]);
        assert(sample == expected[i as int]);
        samples.push(sample);
        i = i + 1;
    }
    assert(samples@ =~= expected);
    samples
}

/// The scaled block means of a macroblock that is predicted as a whole.
pub open spec fn intra16_means(levels: Seq<int>, qp: int, matrix: Seq<u8>) -> Seq<int> {
    let natural = Seq::new(16, |p: int| levels[scan(4, p)]);
    let transformed = hadamard_block(natural);
    Seq::new(16, |b: int| descaled(transformed[b] * level_scale(4, qp, 0, matrix), qp, 6))
}

/// The residuals of the blocks of a macroblock that is predicted as a whole, in coding order.
pub open spec fn intra16_residuals(
    levels: Seq<int>,
    ac: Seq<Seq<int>>,
    qp: int,
    matrix: Seq<u8>,
) -> Seq<Seq<int>> {
    let means = intra16_means(levels, qp, matrix);
    Seq::new(
        16,
        |b: int|
            residual_with_mean(
                means[crate::residual::block_row(b) * 4 + crate::residual::block_column(b)],
                ac[b],
                qp,
                matrix,
            ),
    )
}

/// The numbers in the levels of sixteen blocks.
pub open spec fn ac_ints(ac: Seq<[i32; 15]>) -> Seq<Seq<int>> {
    Seq::new(ac.len(), |b: int| ints(ac[b]@))
}

/// Computes the scaled block means of a macroblock that is predicted as a whole.
fn intra16_scaled_means(levels: &[i32; 16], qp: i32, scaling_list: &[u8; 16]) -> (means: [i64; 16])
    requires
        quantizer(qp as int),
    ensures
        wide_ints(means@) == intra16_means(ints(levels@), qp as int, scaling_list@),
        within(wide_ints(means@), 0x100_0000_0000_0000),
{
    let ghost natural = Seq::new(16, |p: int| ints(levels@)[scan(4, p)]);
    let mut plain: [i64; 16] = [0i64; 16];
    let mut p: usize = 0;
    while p < 16
        invariant
            p <= 16,
            natural == Seq::new(16, |p: int| ints(levels@)[scan(4, p)]),
            forall|j: int|
                0 <= j < p ==> (#[trigger] plain@[j]) == natural[j] && -0x8000_0000 <= plain@[j]
                    <= 0x8000_0000,
        decreases 16 - p,
    {
        let position: usize = scan_4x4(p);
        plain[p] = levels[position] as i64;
        p = p + 1;
    }
    assert(wide_ints(plain@) =~= natural);
    assert(within(natural, 0x8000_0000)) by {
        assert forall|i: int| 0 <= i < 16 implies -0x8000_0000 <= #[trigger] natural[i]
            <= 0x8000_0000 by {
            assert(plain@[i] == natural[i]);
        }
    }
    let transformed: [i64; 16] = hadamard_4x4(&plain);
    let ghost spectrum = hadamard_block(natural);
    assert(within(spectrum, 16int * 0x8000_0000));
    let scale: i64 = level_scale_4x4(qp, 0, 0, scaling_list) as i64;
    let ghost expected = intra16_means(ints(levels@), qp as int, scaling_list@);
    let mut means: [i64; 16] = [0i64; 16];
    let mut b: usize = 0;
    while b < 16
        invariant
            b <= 16,
            quantizer(qp as int),
            0 <= scale <= 0x2000,
            scale == level_scale(4, qp as int, 0, scaling_list@),
            natural == Seq::new(16, |p: int| ints(levels@)[scan(4, p)]),
            spectrum == hadamard_block(natural),
            wide_ints(transformed@) == spectrum,
            within(spectrum, 16int * 0x8000_0000),
            expected == intra16_means(ints(levels@), qp as int, scaling_list@),
            forall|j: int|
                0 <= j < b ==> (#[trigger] means@[j]) == expected[j] && -0x100_0000_0000_0000
                    <= means@[j] <= 0x100_0000_0000_0000,
        decreases 16 - b,
    {
        let value: i64 = transformed[b];
        assert(value == spectrum[b as int]);
        assert(-0x1_0000_0000_0000 <= value * scale <= 0x1_0000_0000_0000) by (nonlinear_arith)
            requires
                -0x8_0000_0000 <= value <= 0x8_0000_0000,
                0 <= scale <= 0x2000,
        ;
        means[b] = descale(value * scale, qp, 6);
        b = b + 1;
    }
    assert(wide_ints(means@) =~= expected);
    means
}

/// Reconstructs a luma macroblock that is predicted as a whole.
pub fn reconstruct_intra16_luma(
    destination: &mut [u8],
    stride: usize,
    macroblock_x: usize,
    macroblock_y: usize,
    prediction: &[u8],
    levels: &[i32; 16],
    ac_levels: &[[i32; 15]; 16],
    qp: i32,
    scaling_list: &[u8; 16],
)
    requires
        region_inside(
            old(destination)@.len() as int,
            stride as int,
            macroblock_x * 16,
            macroblock_y * 16,
            16,
            16,
        ),
        macroblock_x * 16 <= usize::MAX,
        macroblock_y * 16 <= usize::MAX,
        prediction@.len() == 256,
        quantizer(qp as int),
    ensures
        final(destination)@.len() == old(destination)@.len(),
        final(destination)@ == with_region(
            old(destination)@,
            stride as int,
            macroblock_x * 16,
            macroblock_y * 16,
            16,
            16,
            corrected(
                prediction@,
                gathered_16(
                    intra16_residuals(
                        ints(levels@),
                        ac_ints(ac_levels@),
                        qp as int,
                        scaling_list@,
                    ),
                ),
            ),
        ),
{
    let means: [i64; 16] = intra16_scaled_means(levels, qp, scaling_list);
    let ghost mean_values = intra16_means(ints(levels@), qp as int, scaling_list@);
    let ghost expected = intra16_residuals(
        ints(levels@),
        ac_ints(ac_levels@),
        qp as int,
        scaling_list@,
    );
    let mut blocks: [[i64; 16]; 16] = [[0i64; 16]; 16];
    let mut b: usize = 0;
    while b < 16
        invariant
            b <= 16,
            quantizer(qp as int),
            wide_ints(means@) == mean_values,
            mean_values == intra16_means(ints(levels@), qp as int, scaling_list@),
            within(mean_values, 0x100_0000_0000_0000),
            expected == intra16_residuals(
                ints(levels@),
                ac_ints(ac_levels@),
                qp as int,
                scaling_list@,
            ),
            forall|j: int|
                0 <= j < b ==> wide_ints((#[trigger] blocks@[j])@) == expected[j] && within(
                    wide_ints(blocks@[j]@),
                    0x1000_0000_0000_0000,
                ),
        decreases 16 - b,
    {
        let (column, row) = crate::residual::luma_block_position(b);
        let place: usize = row * 4 + column;
        assert(means@[place as int] == mean_values[place as int]);
        blocks[b] = inverse_transform_with_mean(means[place], &ac_levels[b], qp, scaling_list);
        b = b + 1;
    }
    assert(Seq::new(16, |b: int| wide_ints(blocks@[b]@)) =~= expected);
    let samples: Vec<u8> = correct_16(prediction, &blocks);
    place_block(
        destination,
        stride,
        macroblock_x * 16,
        macroblock_y * 16,
        16,
        samples.as_slice(),
    );
}

/// The coded value at a place, row by row, of a lossless chroma macroblock.
pub open spec fn chroma_coded(levels: ChromaLevels, i: int) -> int {
    let block = i / 32 * 2 + i % 8 / 4;
    let position = scan(4, i / 8 % 4 * 4 + i % 4);
    if position == 0 {
        levels.dc[block]
    } else {
        levels.ac[block][position - 1]
    }
}

/// The coded values of a lossless chroma macroblock, row by row.
pub open spec fn chroma_coded_block(levels: ChromaLevels) -> Seq<int> {
    Seq::new(64, |i: int| chroma_coded(levels, i))
}

/// The residual of a chroma macroblock.
pub open spec fn chroma_residual(
    levels: ChromaLevels,
    qp: int,
    transform_bypass: bool,
    intra_mode: Option<u8>,
    matrix: Seq<u8>,
) -> Seq<int> {
    if transform_bypass {
        let coded = chroma_coded_block(levels);
        Seq::new(64, |i: int| summed(coded, 8, chroma_difference(intra_mode), i))
    } else {
        gathered_chroma(
            Seq::new(
                4,
                |b: int|
                    residual_with_mean(
                        chroma_mean(levels, qp, matrix, b),
                        levels.ac[b],
                        qp,
                        matrix,
                    ),
            ),
        )
    }
}

/// The scaled mean of a chroma block.
pub open spec fn chroma_mean(levels: ChromaLevels, qp: int, matrix: Seq<u8>, block: int) -> int {
    mean_transform(levels.dc[0], levels.dc[1], levels.dc[2], levels.dc[3], block) * level_scale(4, qp, 0, matrix) * power_of_two((qp / 6) as nat) / 32
}

/// Computes the scaled mean of a chroma block from the transformed levels.
fn chroma_scaled_mean(value: i64, qp: i32, scaling_list: &[u8; 16]) -> (mean: i64)
    requires
        quantizer(qp as int),
        -0x2_0000_0000 <= value <= 0x2_0000_0000,
    ensures
        mean == value * level_scale(4, qp as int, 0, scaling_list@) * power_of_two(
            (qp / 6) as nat,
        ) / 32,
        -0x100_0000_0000_0000 <= mean <= 0x100_0000_0000_0000,
{
    let scale: i64 = level_scale_4x4(qp, 0, 0, scaling_list) as i64;
    let power: i64 = two_to((qp / 6) as u8) as i64;
    assert(1 <= power <= 256) by {
        lemma_powers_of_two();
        crate::bits::lemma_power_monotonic((qp as int / 6) as nat, 8);
    }
    assert(-0x4000_0000_0000 <= value * scale <= 0x4000_0000_0000) by (nonlinear_arith)
        requires
            -0x2_0000_0000 <= value <= 0x2_0000_0000,
            0 <= scale <= 0x2000,
    ;
    let product: i64 = value * scale;
    assert(-0x40_0000_0000_0000 <= product * power <= 0x40_0000_0000_0000) by (nonlinear_arith)
        requires
            -0x4000_0000_0000 <= product <= 0x4000_0000_0000,
            1 <= power <= 256,
    ;
    thirty_second(product * power)
}

/// Corrects a chroma prediction by a residual.
fn correct_chroma(prediction: &[u8], residual: &[i64; 64]) -> (samples: Vec<u8>)
    requires
        prediction@.len() == 64,
        within(wide_ints(residual@), 0x1000_0000_0000_0000),
    ensures
        samples@ == corrected(prediction@, wide_ints(residual@)),
{
    let ghost expected = corrected(prediction@, wide_ints(residual@));
    let mut samples: Vec<u8> = Vec::with_capacity(64);
    let mut i: usize = 0;
    while i < 64
        invariant
            i <= 64,
            prediction@.len() == 64,
            samples@.len() == i,
            within(wide_ints(residual@), 0x1000_0000_0000_0000),
            expected == corrected(prediction@, wide_ints(residual@)),
            forall|j: int| 0 <= j < i ==> #[trigger] samples@[j] == expected[j],
        decreases 64 - i,
    {
        assert(wide_ints(residual@)[i as int] == residual@[i as int]);
        let sample: u8 = clip_wide(prediction[i] as i64 + residual[i]);
        samples.push(sample);
        i = i + 1;
    }
    assert(samples@ =~= expected);
    samples
}

/// Computes the residual of a lossless chroma macroblock.
fn bypass_residual(residual: &ChromaResidual, intra_mode: Option<u8>) -> (values: [i64; 64])
    ensures
        forall|qp: int, matrix: Seq<u8>|
            wide_ints(values@) == #[trigger] chroma_residual(
                residual@,
                qp,
                true,
                intra_mode,
                matrix,
            ),
        within(wide_ints(values@), 0x1000_0000_0000_0000),
{
    let across = match intra_mode {
        Some(mode) => mode == 1,
        None => false,
    };
    let down = match intra_mode {
        Some(mode) => mode == 2,
        None => false,
    };
    let ghost kind = chroma_difference(intra_mode);
    let ghost coded = chroma_coded_block(residual@);
    let mut values: [i64; 64] = [0i64; 64];
    let mut i: usize = 0;
    while i < 64
        invariant
            i <= 64,
            kind == chroma_difference(intra_mode),
            coded == chroma_coded_block(residual@),
            across == (kind is Across),
            down == (kind is Down),
            forall|j: int|
                0 <= j < i ==> (#[trigger] values@[j]) == summed(coded, 8, kind, j)
                    && -0x8000_0000 * (j + 1) <= values@[j] <= 0x8000_0000 * (j + 1),
        decreases 64 - i,
    {
        let block: usize = i / 32 * 2 + i % 8 / 4;
        let position: usize = scan_4x4(i / 8 % 4 * 4 + i % 4);
        let own: i64 = if position == 0 {
            residual.dc[block] as i64
        } else {
            residual.ac[block][position - 1] as i64
        };
        assert(own == coded[i as int]);
        let mut value: i64 = own;
        if across && i % 8 > 0 {
            assert(values@[i - 1] == summed(coded, 8, kind, i - 1));
            value = value + values[i - 1];
        } else if down && i >= 8 {
            assert(values@[i - 8] == summed(coded, 8, kind, i - 8));
            value = value + values[i - 8];
        }
        assert(value == summed(coded, 8, kind, i as int));
        values[i] = value;
        i = i + 1;
    }
    assert(wide_ints(values@) =~= Seq::new(64, |i: int| summed(coded, 8, kind, i)));
    values
}

/// Computes the residual of a transformed chroma macroblock.
fn transformed_residual(residual: &ChromaResidual, qp: i32, scaling_list: &[u8; 16]) -> (values: [i64;
    64])
    requires
        quantizer(qp as int),
    ensures
        forall|intra_mode: Option<u8>|
            wide_ints(values@) == #[trigger] chroma_residual(
                residual@,
                qp as int,
                false,
                intra_mode,
                scaling_list@,
            ),
        within(wide_ints(values@), 0x1000_0000_0000_0000),
{
    let d0: i64 = residual.dc[0] as i64;
    let d1: i64 = residual.dc[1] as i64;
    let d2: i64 = residual.dc[2] as i64;
    let d3: i64 = residual.dc[3] as i64;
    let means: [i64; 4] = [d0 + d1 + d2 + d3, d0 - d1 + d2 - d3, d0 + d1 - d2 - d3, d0 - d1 - d2
        + d3];
    let ghost expected = Seq::new(
        4,
        |b: int|
            residual_with_mean(
                chroma_mean(residual@, qp as int, scaling_list@, b),
                residual@.ac[b],
                qp as int,
                scaling_list@,
            ),
    );
    let mut blocks: [[i64; 16]; 4] = [[0i64; 16]; 4];
    let mut b: usize = 0;
    while b < 4
        invariant
            b <= 4,
            quantizer(qp as int),
            forall|j: int|
                0 <= j < 4 ==> (#[trigger] means@[j]) == mean_transform(
                    residual.dc@[0] as int,
                    residual.dc@[1] as int,
                    residual.dc@[2] as int,
                    residual.dc@[3] as int,
                    j,
                ) && -0x2_0000_0000 <= means@[j] <= 0x2_0000_0000,
            expected == Seq::new(
                4,
                |b: int|
                    residual_with_mean(
                        chroma_mean(residual@, qp as int, scaling_list@, b),
                        residual@.ac[b],
                        qp as int,
                        scaling_list@,
                    ),
            ),
            forall|j: int|
                0 <= j < b ==> wide_ints((#[trigger] blocks@[j])@) == expected[j] && within(
                    wide_ints(blocks@[j]@),
                    0x1000_0000_0000_0000,
                ),
        decreases 4 - b,
    {
        assert(-0x2_0000_0000 <= means@[b as int] <= 0x2_0000_0000);
        let mean: i64 = chroma_scaled_mean(means[b], qp, scaling_list);
        blocks[b] = inverse_transform_with_mean(mean, &residual.ac[b], qp, scaling_list);
        b = b + 1;
    }
    let ghost result = gathered_chroma(expected);
    let mut values: [i64; 64] = [0i64; 64];
    let mut i: usize = 0;
    while i < 64
        invariant
            i <= 64,
            result == gathered_chroma(expected),
            expected.len() == 4,
            forall|j: int|
                0 <= j < 4 ==> wide_ints((#[trigger] blocks@[j])@) == expected[j] && within(
                    wide_ints(blocks@[j]@),
                    0x1000_0000_0000_0000,
                ),
            forall|j: int|
                0 <= j < i ==> (#[trigger] values@[j]) == result[j] && -0x1000_0000_0000_0000
                    <= values@[j] <= 0x1000_0000_0000_0000,
        decreases 64 - i,
    {
        let block: usize = i / 32 * 2 + i % 8 / 4;
        let place: usize = i / 8 % 4 * 4 + i % 4;
        assert(wide_ints(blocks@[block as int]@) == expected[block as int]);
        assert(wide_ints(blocks@[block as int]@)[place as int]
            == blocks@[block as int]@[place as int]);
        values[i] = blocks[block][place];
        i = i + 1;
    }
    assert(wide_ints(values@) =~= result);
    values
}

/// Reconstructs a chroma plane of a macroblock.
pub fn reconstruct_chroma(
    destination: &mut [u8],
    stride: usize,
    macroblock_x: usize,
    macroblock_y: usize,
    prediction: &[u8],
    residual: &ChromaResidual,
    qp: i32,
    transform_bypass: bool,
    intra_mode: Option<u8>,
    scaling_list: &[u8; 16],
)
    requires
        region_inside(
            old(destination)@.len() as int,
            stride as int,
            macroblock_x * 8,
            macroblock_y * 8,
            8,
            8,
        ),
        macroblock_x * 8 <= usize::MAX,
        macroblock_y * 8 <= usize::MAX,
        prediction@.len() == 64,
        quantizer(qp as int),
    ensures
        final(destination)@.len() == old(destination)@.len(),
        final(destination)@ == with_region(
            old(destination)@,
            stride as int,
            macroblock_x * 8,
            macroblock_y * 8,
            8,
            8,
            corrected(
                prediction@,
                chroma_residual(
                    residual@,
                    qp as int,
                    transform_bypass,
                    intra_mode,
                    scaling_list@,
                ),
            ),
        ),
{
    let values: [i64; 64] = if transform_bypass {
        bypass_residual(residual, intra_mode)
    } else {
        transformed_residual(residual, qp, scaling_list)
    };
    assert(wide_ints(values@) == chroma_residual(
        residual@,
        qp as int,
        transform_bypass,
        intra_mode,
        scaling_list@,
    ));
    let samples: Vec<u8> = correct_chroma(prediction, &values);
    place_block(
        destination,
        stride,
        macroblock_x * 8,
        macroblock_y * 8,
        8,
        samples.as_slice(),
    );
}

} // verus!
