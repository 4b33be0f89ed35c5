//! How large the levels of the encoder are at most.

use vstd::prelude::*;

use crate::bits::power_of_two;
use crate::intra_coding::{block_levels_4, block_levels_8, BlockSite};
use crate::math::{magnitude, rounded_quotient};
use crate::picture::SiteModel;
use crate::quant_tables::{category, norm_adjust, NORM_ADJUST_4X4};
use crate::quantize::{lemma_quantized_bound, level_scale, quantizer, scaling_matrix};
use crate::residual::{
    block_means, chroma_difference, chroma_levels, chroma_levels_fit, chroma_mean_level,
    chroma_place, chroma_spectrum, difference, differences, intra16_ac_levels, intra16_dc_levels,
    levels_4x4, levels_8x8, mean_level, mean_transform, sum_of, Difference,
};
use crate::scaling::{
    matrix_4x4, matrix_8x8, ScalingMatrixPreset, FLAT_4X4, FLAT_8X8, JVT_4X4_INTER,
    JVT_4X4_INTRA, JVT_8X8_INTER, JVT_8X8_INTRA,
};
use crate::transform::{
    column_8, forward_block_8, forward_rows_8, hadamard_block, hadamard_rows, lemma_forward_8_bound,
    row_8, within,
};

verus! {

proof fn lemma_differences_bound(block: Seq<int>, width: int, kind: Difference)
    requires
        within(block, 255),
        0 < width,
    ensures
        within(differences(block, width, kind), 510),
{
    let all = differences(block, width, kind);
    assert forall|i: int| 0 <= i < all.len() implies -510 <= #[trigger] all[i] <= 510 by {
        assert(-255 <= block[i] <= 255);
        match kind {
            Difference::Plain => {},
            Difference::Across => {
                if i % width > 0 {
                    assert(i > 0) by {
                        if i == 0 {
                            assert(0int % width == 0) by (nonlinear_arith)
                                requires
                                    0 < width,
                            ;
                        }
                    }
                    assert(-255 <= block[i - 1] <= 255);
                }
            },
            Difference::Down => {
                if i >= width {
                    assert(-255 <= block[i - width] <= 255);
                }
            },
        }
    }
}

/// A transformed block of four by four is at most sixteen times as large.
pub proof fn lemma_hadamard_bound(block: Seq<int>, limit: int)
    requires
        block.len() == 16,
        within(block, limit),
    ensures
        within(hadamard_block(block), 16 * limit),
{
    let rows = hadamard_rows(block);
    assert forall|i: int| 0 <= i < 16 implies -(4 * limit) <= #[trigger] rows[i] <= 4 * limit by {
        assert(-limit <= block[i / 4 * 4] <= limit);
        assert(-limit <= block[i / 4 * 4 + 1] <= limit);
        assert(-limit <= block[i / 4 * 4 + 2] <= limit);
        assert(-limit <= block[i / 4 * 4 + 3] <= limit);
    }
    let all = hadamard_block(block);
    assert forall|i: int| 0 <= i < 16 implies -(16 * limit) <= #[trigger] all[i] <= 16 * limit by {
        assert(-(4 * limit) <= rows[i % 4] <= 4 * limit);
        assert(-(4 * limit) <= rows[i % 4 + 4] <= 4 * limit);
        assert(-(4 * limit) <= rows[i % 4 + 8] <= 4 * limit);
        assert(-(4 * limit) <= rows[i % 4 + 12] <= 4 * limit);
    }
}

/// A transformed block of eight by eight is at most a hundred times as large.
proof fn lemma_forward_bound(block: Seq<int>, limit: int)
    requires
        block.len() == 64,
        within(block, limit),
        4 <= limit,
    ensures
        within(forward_block_8(block), 100 * limit),
{
    let rows = forward_rows_8(block);
    assert forall|i: int| 0 <= i < 64 implies -(10 * limit) <= #[trigger] rows[i] <= 10 * limit by {
        let line = row_8(block, i / 8);
        assert forall|k: int| 0 <= k < line.len() implies -limit <= #[trigger] line[k] <= limit by {
            assert(-limit <= block[i / 8 * 8 + k] <= limit);
        }
        lemma_forward_8_bound(line, limit, i % 8);
    }
    let all = forward_block_8(block);
    assert forall|i: int| 0 <= i < 64 implies -(100 * limit) <= #[trigger] all[i] <= 100 * limit by {
        let line = column_8(rows, i % 8);
        assert forall|k: int| 0 <= k < line.len() implies -(10 * limit) <= #[trigger] line[k] <= 10
            * limit by {
            assert(-(10 * limit) <= rows[k * 8 + i % 8] <= 10 * limit);
        }
        lemma_forward_8_bound(line, 10 * limit, i / 8);
    }
}

/// The levels of a four-by-four block are bounded.
pub proof fn lemma_levels_4x4_bound(block: Seq<int>, qp: int, matrix: Seq<u8>)
    requires
        block.len() == 16,
        within(block, 255),
        quantizer(qp),
        scaling_matrix(matrix, 16),
    ensures
        within(levels_4x4(block, qp, matrix), 0x10_0000),
        levels_4x4(block, qp, matrix).len() == 16,
{
    lemma_hadamard_bound(block, 255);
    let transformed = hadamard_block(block);
    crate::quant_tables::law_scan_order(4);
    let all = levels_4x4(block, qp, matrix);
    assert forall|k: int| 0 <= k < 16 implies -0x10_0000 <= #[trigger] all[k] <= 0x10_0000 by {
        let place = crate::quant_tables::zig_zag(4, k);
        assert(0 <= place < 16);
        assert(-(16int * 255) <= transformed[place] <= 16int * 255);
        lemma_quantized_bound(4, transformed[place], qp, place, matrix);
    }
}

/// The levels of an eight-by-eight block are bounded.
pub proof fn lemma_levels_8x8_bound(block: Seq<int>, qp: int, matrix: Seq<u8>)
    requires
        block.len() == 64,
        within(block, 255),
        quantizer(qp),
        scaling_matrix(matrix, 64),
    ensures
        within(levels_8x8(block, qp, matrix), 0x10_0000),
        levels_8x8(block, qp, matrix).len() == 64,
{
    lemma_forward_bound(block, 255);
    let transformed = forward_block_8(block);
    crate::quant_tables::law_scan_order(8);
    let all = levels_8x8(block, qp, matrix);
    assert forall|k: int| 0 <= k < 64 implies -0x10_0000 <= #[trigger] all[k] <= 0x10_0000 by {
        let place = crate::quant_tables::zig_zag(8, k);
        assert(0 <= place < 64);
        assert(-(100int * 255) <= transformed[place] <= 100int * 255);
        lemma_quantized_bound(8, transformed[place], qp, place, matrix);
    }
}

/// A rounded quotient is no larger than what is divided.
proof fn lemma_quotient_bound(value: int, divisor: int)
    requires
        1 <= divisor,
    ensures
        magnitude(rounded_quotient(value, divisor)) <= magnitude(value),
{
    let size = magnitude(value);
    let quotient = (size + divisor / 2) / divisor;
    assert(0 <= quotient <= size) by (nonlinear_arith)
        requires
            quotient == (size + divisor / 2) / divisor,
            1 <= divisor,
            0 <= size,
    ;
}

/// Scaling matrices divide by nothing that is zero.
pub proof fn lemma_matrices(preset: ScalingMatrixPreset, intra: bool)
    ensures
        scaling_matrix(matrix_4x4(preset, intra), 16),
        scaling_matrix(matrix_8x8(preset, intra), 64),
{
    reveal(matrix_4x4);
    reveal(matrix_8x8);
    assert(forall|i: int| 0 <= i < 16 ==> #[trigger] FLAT_4X4@[i] >= 1);
    assert(forall|i: int| 0 <= i < 16 ==> #[trigger] JVT_4X4_INTRA@[i] >= 1);
    assert(forall|i: int| 0 <= i < 16 ==> #[trigger] JVT_4X4_INTER@[i] >= 1);
    assert(forall|i: int| 0 <= i < 64 ==> #[trigger] FLAT_8X8@[i] >= 1);
    assert(forall|i: int| 0 <= i < 64 ==> #[trigger] JVT_8X8_INTRA@[i] >= 1);
    assert(forall|i: int| 0 <= i < 64 ==> #[trigger] JVT_8X8_INTER@[i] >= 1);
}

/// The smallest coefficient that a level stands for is not zero.
proof fn lemma_scale_positive(qp: int, matrix: Seq<u8>)
    requires
        quantizer(qp),
        scaling_matrix(matrix, 16),
    ensures
        level_scale(4, qp, 0, matrix) >= 1,
{
    reveal(norm_adjust);
    assert(forall|r: int, c: int|
        0 <= r < 6 && 0 <= c < 3 ==> #[trigger] NORM_ADJUST_4X4[r][c] >= 1);
    let factor = norm_adjust(4, qp % 6, category(4, 0));
    let entry = matrix[0] as int;
    assert(entry >= 1);
    assert(factor >= 1) by {
        assert(0 <= category(4, 0) < 3);
        assert(NORM_ADJUST_4X4[qp % 6][category(4, 0)] >= 1);
    }
    assert(factor * entry >= 1) by (nonlinear_arith)
        requires
            factor >= 1,
            entry >= 1,
    ;
}

proof fn lemma_sum_within(values: Seq<int>, count: int, limit: int)
    requires
        0 <= count <= values.len(),
        within(values, limit),
    ensures
        -(count * limit) <= sum_of(values, count) <= count * limit,
    decreases count,
{
    if count > 0 {
        lemma_sum_within(values, count - 1, limit);
        assert(-limit <= values[count - 1] <= limit);
        assert((count - 1) * limit == count * limit - limit) by (nonlinear_arith);
    } else {
        assert(0 * limit == 0);
    }
}

/// The levels of the block means of a macroblock are bounded.
pub proof fn lemma_dc_bound(
    source: Seq<u8>,
    stride: int,
    x: int,
    y: int,
    prediction: Seq<u8>,
    qp: int,
    matrix: Seq<u8>,
)
    requires
        quantizer(qp),
        scaling_matrix(matrix, 16),
    ensures
        within(
            intra16_dc_levels(block_means(source, stride, x, y, prediction), qp, matrix),
            0x800_0000,
        ),
{
    let means = block_means(source, stride, x, y, prediction);
    assert forall|b: int| 0 <= b < 16 implies -16_320 <= #[trigger] means[b] <= 16_320 by {
        let block = difference(source, stride, x, y, prediction, 16, b % 4 * 4, b / 4 * 4, 4);
        lemma_sum_within(block, 16, 255);
        let sum = sum_of(block, 16);
        assert(-255 <= rounded_quotient(sum, 16) <= 255);
    }
    assert(within(means, 16_320));
    lemma_hadamard_bound(means, 16_320);
    let transformed = hadamard_block(means);
    crate::quant_tables::law_scan_order(4);
    lemma_scale_positive(qp, matrix);
    let scale = level_scale(4, qp, 0, matrix);
    let all = intra16_dc_levels(means, qp, matrix);
    assert forall|k: int| 0 <= k < 16 implies -0x800_0000 <= #[trigger] all[k] <= 0x800_0000 by {
        let place = crate::quant_tables::zig_zag(4, k);
        assert(0 <= place < 16);
        let value = transformed[place];
        assert(-261_120 <= value <= 261_120);
        lemma_mean_level_bound(value, qp, scale, matrix);
    }
}

proof fn lemma_mean_level_bound(value: int, qp: int, scale: int, matrix: Seq<u8>)
    requires
        -261_120 <= value <= 261_120,
        quantizer(qp),
        scale == level_scale(4, qp, 0, matrix),
        scale >= 1,
    ensures
        -0x800_0000 <= mean_level(value, qp, matrix) <= 0x800_0000,
{
    crate::math::lemma_powers_of_two();
    if qp >= 36 {
        let power = power_of_two((qp / 6 - 6) as nat) as int;
        assert(power >= 1);
        let divisor = 16 * scale * power;
        assert(divisor >= 1) by (nonlinear_arith)
            requires
                divisor == 16 * scale * power,
                scale >= 1,
                power >= 1,
        ;
        lemma_quotient_bound(value, divisor);
    } else {
        let power = power_of_two((6 - qp / 6) as nat) as int;
        assert(1 <= power <= 64);
        let product = value * power;
        assert(-16_711_680 <= product <= 16_711_680) by (nonlinear_arith)
            requires
                product == value * power,
                -261_120 <= value <= 261_120,
                1 <= power <= 64,
        ;
        lemma_quotient_bound(product, 16 * scale);
    }
}

/// The levels of chroma planes are bounded.
pub proof fn lemma_chroma_bound(
    source: Seq<u8>,
    stride: int,
    x: int,
    y: int,
    prediction: Seq<u8>,
    qp: int,
    bypass: bool,
    intra_mode: Option<u8>,
    matrix: Seq<u8>,
)
    requires
        quantizer(qp),
        scaling_matrix(matrix, 16),
    ensures
        ({
            let levels = chroma_levels(
                source,
                stride,
                x,
                y,
                prediction,
                qp,
                bypass,
                intra_mode,
                matrix,
            );
            &&& chroma_levels_fit(levels)
            &&& levels.dc.len() == 4
            &&& levels.ac.len() == 4
            &&& forall|b: int| 0 <= b < 4 ==> (#[trigger] levels.ac[b]).len() == 15
        }),
{
    let levels = chroma_levels(
        source,
        stride,
        x,
        y,
        prediction,
        qp,
        bypass,
        intra_mode,
        matrix,
    );
    if bypass {
        let plain = difference(source, stride, x, y, prediction, 8, 0, 0, 8);
        let kind = chroma_difference(intra_mode);
        let block = differences(plain, 8, kind);
        lemma_differences_bound(plain, 8, kind);
        crate::quant_tables::law_scan_order(4);
        assert forall|b: int| 0 <= b < 4 implies -0x800_0000 <= #[trigger] levels.dc[b]
            <= 0x800_0000 by {
            lemma_chroma_place(b, 0);
            assert(-510 <= block[chroma_place(b, 0)] <= 510);
        }
        assert forall|b: int| 0 <= b < 4 implies within(#[trigger] levels.ac[b], 0x800_0000) by {
            assert forall|k: int| 0 <= k < 15 implies -0x800_0000 <= #[trigger] levels.ac[b][k]
                <= 0x800_0000 by {
                lemma_chroma_place(b, k + 1);
                assert(-510 <= block[chroma_place(b, k + 1)] <= 510);
            }
        }
    } else {
        assert forall|b: int| 0 <= b < 4 implies -4_080 <= #[trigger] chroma_spectrum(
            source,
            stride,
            x,
            y,
            prediction,
            b,
        )[0] <= 4_080 by {
            lemma_hadamard_bound(
                difference(source, stride, x, y, prediction, 8, b % 2 * 4, b / 2 * 4, 4),
                255,
            );
        }
        lemma_scale_positive(qp, matrix);
        crate::math::lemma_powers_of_two();
        let power = power_of_two((qp / 6) as nat) as int;
        let scale = level_scale(4, qp, 0, matrix);
        assert(power >= 1);
        let divisor = 4 * scale * power;
        assert(divisor >= 1) by (nonlinear_arith)
            requires
                divisor == 4 * scale * power,
                scale >= 1,
                power >= 1,
        ;
        assert forall|b: int| 0 <= b < 4 implies -0x800_0000 <= #[trigger] levels.dc[b]
            <= 0x800_0000 by {
            let value = mean_transform(
                chroma_spectrum(source, stride, x, y, prediction, 0)[0],
                chroma_spectrum(source, stride, x, y, prediction, 1)[0],
                chroma_spectrum(source, stride, x, y, prediction, 2)[0],
                chroma_spectrum(source, stride, x, y, prediction, 3)[0],
                b,
            );
            lemma_quotient_bound(value * 32, divisor);
            assert(levels.dc[b] == chroma_mean_level(value, qp, matrix));
        }
        assert forall|b: int| 0 <= b < 4 implies within(#[trigger] levels.ac[b], 0x800_0000)
            && levels.ac[b].len() == 15 by {
            lemma_levels_4x4_bound(
                difference(source, stride, x, y, prediction, 8, b % 2 * 4, b / 2 * 4, 4),
                qp,
                matrix,
            );
        }
    }
}

proof fn lemma_chroma_place(block: int, position: int)
    requires
        0 <= block < 4,
        0 <= position < 16,
    ensures
        0 <= chroma_place(block, position) < 64,
{
    crate::quant_tables::law_scan_order(4);
    let place = crate::quant_tables::zig_zag(4, position);
    assert(0 <= place < 16);
}

/// The levels of a luma block that is predicted with four-by-four samples are bounded.
pub proof fn lemma_block_bound_4(site: SiteModel, spot: BlockSite)
    requires
        quantizer(site.qp),
    ensures
        within(block_levels_4(site, spot), 0x10_0000),
        block_levels_4(site, spot).len() == 16,
{
    let block = difference(spot.source, spot.stride, spot.x, spot.y, spot.prediction(), 4, 0, 0, 4);
    lemma_matrices(site.preset, true);
    if site.bypass {
        let kind = crate::residual::bypass_difference(spot.mode());
        lemma_differences_bound(block, 4, kind);
        crate::quant_tables::law_scan_order(4);
        let coded = differences(block, 4, kind);
        let all = block_levels_4(site, spot);
        assert forall|k: int| 0 <= k < 16 implies -0x10_0000 <= #[trigger] all[k] <= 0x10_0000 by {
            let place = crate::quant_tables::zig_zag(4, k);
            assert(0 <= place < 16);
            assert(-510 <= coded[place] <= 510);
        }
    } else {
        lemma_levels_4x4_bound(block, site.qp, matrix_4x4(site.preset, true));
    }
}

/// The levels of a luma block that is predicted with eight-by-eight samples are bounded.
pub proof fn lemma_block_bound_8(site: SiteModel, spot: BlockSite)
    requires
        quantizer(site.qp),
    ensures
        within(block_levels_8(site, spot), 0x10_0000),
        block_levels_8(site, spot).len() == 64,
{
    lemma_matrices(site.preset, true);
    lemma_levels_8x8_bound(
        difference(spot.source, spot.stride, spot.x, spot.y, spot.prediction(), 8, 0, 0, 8),
        site.qp,
        matrix_8x8(site.preset, true),
    );
}

/// The levels of a luma block of a macroblock that is predicted as a whole are bounded.
pub proof fn lemma_ac_bound(
    source: Seq<u8>,
    stride: int,
    x: int,
    y: int,
    prediction: Seq<u8>,
    qp: int,
    matrix: Seq<u8>,
    block: int,
)
    requires
        quantizer(qp),
        scaling_matrix(matrix, 16),
    ensures
        within(
            intra16_ac_levels(source, stride, x, y, prediction, qp, matrix, block),
            0x10_0000,
        ),
        intra16_ac_levels(source, stride, x, y, prediction, qp, matrix, block).len() == 15,
{
    lemma_levels_4x4_bound(
        difference(
            source,
            stride,
            x,
            y,
            prediction,
            16,
            crate::residual::block_column(block) * 4,
            crate::residual::block_row(block) * 4,
            4,
        ),
        qp,
        matrix,
    );
}

} // verus!
