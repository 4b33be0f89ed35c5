//! From source samples to levels, and from levels back to samples.

use vstd::prelude::*;

use crate::bits::power_of_two;
use crate::deblock::block_at;
use crate::math::{lemma_powers_of_two, round_div, rounded_quotient, two_to};
use crate::plane::{region_inside, sample_in};
use crate::quant_tables::{law_scan_order, zig_zag, zig_zag_4x4, zig_zag_8x8};
use crate::quantize::{
    lemma_quantized_bound, level_scale, level_scale_4x4, quantize_coefficient,
    quantize_coefficient_8x8, quantized, quantizer, scaling_matrix,
};
use crate::transform::{
    forward_block_8, forward_transform_4x4, forward_transform_8x8, hadamard_4x4, hadamard_block,
    ints, wide_ints, within,
};

verus! {

/// Chroma levels of one plane of a macroblock.
#[derive(Clone, Copy, Debug, PartialEq, Eq)]
pub struct ChromaResidual {
    /// Levels of the block means.
    pub dc: [i32; 4],
    /// The other levels of the four blocks.
    pub ac: [[i32; 15]; 4],
}

/// Chroma levels of one plane of a macroblock.
#[verifier::ext_equal]
pub struct ChromaLevels {
    /// Levels of the block means.
    pub dc: Seq<int>,
    /// The other levels of the four blocks.
    pub ac: Seq<Seq<int>>,
}

impl View for ChromaResidual {
    type V = ChromaLevels;

    open spec fn view(&self) -> ChromaLevels {
        ChromaLevels {
            dc: ints(self.dc@),
            ac: Seq::new(4, |b: int| ints(self.ac@[b]@)),
        }
    }
}

/// Whether all levels of a chroma plane have codes.
pub open spec fn chroma_levels_fit(levels: ChromaLevels) -> bool {
    &&& within(levels.dc, 0x800_0000)
    &&& forall|b: int| 0 <= b < levels.ac.len() ==> within(#[trigger] levels.ac[b], 0x800_0000)
}

/// In which direction lossless blocks code differences between neighbours.
#[derive(Clone, Copy, Debug, PartialEq, Eq, Structural)]
pub enum Difference {
    /// Samples are coded as they are.
    Plain,
    /// Each sample is coded as its difference from the one on its left.
    Across,
    /// Each sample is coded as its difference from the one above it.
    Down,
}

/// The source less the prediction, in the block of the given side at `(px, py)` of a macroblock
/// whose prediction is `width` samples wide and which stands at `(x, y)` in the source.
pub open spec fn difference(
    source: Seq<u8>,
    stride: int,
    x: int,
    y: int,
    prediction: Seq<u8>,
    width: int,
    px: int,
    py: int,
    side: int,
) -> Seq<int> {
    Seq::new(
        (side * side) as nat,
        |i: int|
            source[(y + (py + i / side)) * stride + (x + (px + i % side))] - prediction[(py + i
                / side) * width + (px + i % side)],
    )
}

/// A block of the given width with each sample replaced by its difference from a neighbour.
pub open spec fn differences(block: Seq<int>, width: int, kind: Difference) -> Seq<int> {
    Seq::new(
        block.len(),
        |i: int|
            block[i] - match kind {
                Difference::Plain => 0,
                Difference::Across => if i % width > 0 {
                    block[i - 1]
                } else {
                    0
                },
                Difference::Down => if i >= width {
                    block[i - width]
                } else {
                    0
                },
            },
    )
}

/// The sample at `i` of a block whose differences are given.
pub open spec fn summed(block: Seq<int>, width: int, kind: Difference, i: int) -> int
    decreases i,
{
    if i < 0 {
        0
    } else {
        block[i] + match kind {
            Difference::Plain => 0,
            Difference::Across => if i > 0 && i % width > 0 {
                summed(block, width, kind, i - 1)
            } else {
                0
            },
            Difference::Down => if i >= width && width > 0 {
                summed(block, width, kind, i - width)
            } else {
                0
            },
        }
    }
}

/// Summing the differences of a block gives the block back.
pub proof fn law_differences_summed(block: Seq<int>, width: int, kind: Difference, i: int)
    requires
        0 < width,
        0 <= i < block.len(),
    ensures
        summed(differences(block, width, kind), width, kind, i) == block[i],
    decreases i,
{
    match kind {
        Difference::Plain => {},
        Difference::Across => {
            if i % width > 0 {
                assert(i > 0) by {
                    if i == 0 {
                        vstd::arithmetic::div_mod::lemma_small_mod(0, width as nat);
                    }
                }
                law_differences_summed(block, width, kind, i - 1);
            }
        },
        Difference::Down => {
            if i >= width {
                law_differences_summed(block, width, kind, i - width);
            }
        },
    }
}

/// Whether every number is a difference of two samples.
pub open spec fn sample_differences(values: Seq<int>) -> bool {
    within(values, 255)
}

/// Reads the source less the prediction in a four-by-four block.
pub fn difference_4x4(
    source: &[u8],
    stride: usize,
    x: usize,
    y: usize,
    prediction: &[u8],
    width: usize,
    px: usize,
    py: usize,
) -> (residual: [i32; 16])
    requires
        width == 4 || width == 8 || width == 16,
        region_inside(
            source@.len() as int,
            stride as int,
            x as int,
            y as int,
            width as int,
            width as int,
        ),
        prediction@.len() == width * width,
        px + 4 <= width,
        py + 4 <= width,
    ensures
        ints(residual@) == difference(
            source@,
            stride as int,
            x as int,
            y as int,
            prediction@,
            width as int,
            px as int,
            py as int,
            4,
        ),
        sample_differences(ints(residual@)),
{
    let ghost expected = difference(
        source@,
        stride as int,
        x as int,
        y as int,
        prediction@,
        width as int,
        px as int,
        py as int,
        4,
    );
    let mut residual: [i32; 16] = [0i32; 16];
    let mut i: usize = 0;
    while i < 16
        invariant
            i <= 16,
            width == 4 || width == 8 || width == 16,
            region_inside(
                source@.len() as int,
                stride as int,
                x as int,
                y as int,
                width as int,
                width as int,
            ),
            prediction@.len() == width * width,
            px + 4 <= width,
            py + 4 <= width,
            expected == difference(
                source@,
                stride as int,
                x as int,
                y as int,
                prediction@,
                width as int,
                px as int,
                py as int,
                4,
            ),
            forall|j: int|
                0 <= j < i ==> (#[trigger] residual@[j]) == expected[j] && -255 <= residual@[j]
                    <= 255,
        decreases 16 - i,
    {
        let column: usize = px + i % 4;
        let row: usize = py + i / 4;
        let sample: u8 = sample_in(source, stride, x, y, width, width, column, row);
        assert(0 <= row * width + column < width * width && row * width <= 256)
            by (nonlinear_arith)
            requires
                0 <= row < width,
                0 <= column < width,
                width <= 16,
        ;
        residual[i] = sample as i32 - prediction[row * width + column] as i32;
        i = i + 1;
    }
    assert(ints(residual@) =~= expected);
    residual
}

/// Reads the source less the prediction in an eight-by-eight block.
fn difference_8x8(
    source: &[u8],
    stride: usize,
    x: usize,
    y: usize,
    prediction: &[u8],
) -> (residual: [i32; 64])
    requires
        region_inside(source@.len() as int, stride as int, x as int, y as int, 8, 8),
        prediction@.len() == 64,
    ensures
        ints(residual@) == difference(
            source@,
            stride as int,
            x as int,
            y as int,
            prediction@,
            8,
            0,
            0,
            8,
        ),
        sample_differences(ints(residual@)),
{
    let ghost expected = difference(
        source@,
        stride as int,
        x as int,
        y as int,
        prediction@,
        8,
        0,
        0,
        8,
    );
    let mut residual: [i32; 64] = [0i32; 64];
    let mut i: usize = 0;
    while i < 64
        invariant
            i <= 64,
            region_inside(source@.len() as int, stride as int, x as int, y as int, 8, 8),
            prediction@.len() == 64,
            expected == difference(
                source@,
                stride as int,
                x as int,
                y as int,
                prediction@,
                8,
                0,
                0,
                8,
            ),
            forall|j: int|
                0 <= j < i ==> (#[trigger] residual@[j]) == expected[j] && -255 <= residual@[j]
                    <= 255,
        decreases 64 - i,
    {
        let sample: u8 = sample_in(source, stride, x, y, 8, 8, i % 8, i / 8);
        residual[i] = sample as i32 - prediction[i] as i32;
        i = i + 1;
    }
    assert(ints(residual@) =~= expected);
    residual
}

/// The levels of a four-by-four block of differences, in scanning order.
pub open spec fn levels_4x4(block: Seq<int>, qp: int, matrix: Seq<u8>) -> Seq<int> {
    let transformed = hadamard_block(block);
    Seq::new(
        16,
        |k: int| quantized(4, transformed[zig_zag(4, k)], qp, zig_zag(4, k), matrix),
    )
}

/// The levels of an eight-by-eight block of differences, in scanning order.
pub open spec fn levels_8x8(block: Seq<int>, qp: int, matrix: Seq<u8>) -> Seq<int> {
    let transformed = forward_block_8(block);
    Seq::new(
        64,
        |k: int| quantized(8, transformed[zig_zag(8, k)], qp, zig_zag(8, k), matrix),
    )
}

/// A block in scanning order.
pub open spec fn scanned(side: int, block: Seq<int>) -> Seq<int> {
    Seq::new((side * side) as nat, |k: int| block[zig_zag(side, k)])
}

/// Quantizes a four-by-four block of differences.
pub fn quantize_block_4x4(residual: &[i32; 16], qp: i32, scaling_list: &[u8; 16]) -> (levels: [i32;
    16])
    requires
        quantizer(qp as int),
        scaling_matrix(scaling_list@, 16),
        sample_differences(ints(residual@)),
    ensures
        ints(levels@) == levels_4x4(ints(residual@), qp as int, scaling_list@),
        within(ints(levels@), 0x10_0000),
{
    let transformed: [i32; 16] = forward_transform_4x4(residual);
    let ghost block = ints(residual@);
    let ghost spectrum = hadamard_block(block);
    let ghost expected = levels_4x4(block, qp as int, scaling_list@);
    assert(within(ints(transformed@), 16int * 255));
    let mut levels: [i32; 16] = [0i32; 16];
    let mut k: usize = 0;
    while k < 16
        invariant
            k <= 16,
            quantizer(qp as int),
            scaling_matrix(scaling_list@, 16),
            spectrum == hadamard_block(block),
            ints(transformed@) == spectrum,
            within(spectrum, 16int * 255),
            expected == levels_4x4(block, qp as int, scaling_list@),
            forall|j: int|
                0 <= j < k ==> (#[trigger] levels@[j]) == expected[j] && -0x10_0000 <= levels@[j]
                    <= 0x10_0000,
        decreases 16 - k,
    {
        let place: usize = zig_zag_4x4(k);
        assert(transformed@[place as int] == spectrum[place as int]);
        proof {
            lemma_quantized_bound(
                4,
                spectrum[place as int],
                qp as int,
                place as int,
                scaling_list@,
            );
            assert(place as int / 4 * 4 + place as int % 4 == place);
        }
        levels[k] = quantize_coefficient(
            transformed[place],
            qp,
            place / 4,
            place % 4,
            scaling_list,
        );
        k = k + 1;
    }
    assert(ints(levels@) =~= expected);
    levels
}

/// Quantizes a luma block that is predicted with eight-by-eight samples.
pub fn quantize_intra8_luma_block(
    source: &[u8],
    stride: usize,
    origin_x: usize,
    origin_y: usize,
    prediction: &[u8; 64],
    qp: i32,
    scaling_list: &[u8; 64],
) -> (levels: [i32; 64])
    requires
        region_inside(
            source@.len() as int,
            stride as int,
            origin_x as int,
            origin_y as int,
            8,
            8,
        ),
        quantizer(qp as int),
        scaling_matrix(scaling_list@, 64),
    ensures
        ints(levels@) == levels_8x8(
            difference(
                source@,
                stride as int,
                origin_x as int,
                origin_y as int,
                prediction@,
                8,
                0,
                0,
                8,
            ),
            qp as int,
            scaling_list@,
        ),
        within(ints(levels@), 0x10_0000),
{
    let residual: [i32; 64] = difference_8x8(
        source,
        stride,
        origin_x,
        origin_y,
        prediction.as_slice(),
    );
    let transformed: [i32; 64] = forward_transform_8x8(&residual);
    let ghost block = ints(residual@);
    let ghost spectrum = forward_block_8(block);
    let ghost expected = levels_8x8(block, qp as int, scaling_list@);
    assert(within(ints(transformed@), 100int * 255));
    let mut levels: [i32; 64] = [0i32; 64];
    let mut k: usize = 0;
    while k < 64
        invariant
            k <= 64,
            quantizer(qp as int),
            scaling_matrix(scaling_list@, 64),
            spectrum == forward_block_8(block),
            ints(transformed@) == spectrum,
            within(spectrum, 100int * 255),
            expected == levels_8x8(block, qp as int, scaling_list@),
            forall|j: int|
                0 <= j < k ==> (#[trigger] levels@[j]) == expected[j] && -0x10_0000 <= levels@[j]
                    <= 0x10_0000,
        decreases 64 - k,
    {
        let place: usize = zig_zag_8x8(k);
        assert(transformed@[place as int] == spectrum[place as int]);
        proof {
            lemma_quantized_bound(
                8,
                spectrum[place as int],
                qp as int,
                place as int,
                scaling_list@,
            );
            assert(place as int / 8 * 8 + place as int % 8 == place);
        }
        levels[k] = quantize_coefficient_8x8(
            transformed[place],
            qp,
            place / 8,
            place % 8,
            scaling_list,
        );
        k = k + 1;
    }
    assert(ints(levels@) =~= expected);
    levels
}

/// How lossless blocks of a four-by-four prediction mode code their samples.
pub open spec fn bypass_difference(mode: int) -> Difference {
    if mode == 0 {
        Difference::Down
    } else if mode == 1 {
        Difference::Across
    } else {
        Difference::Plain
    }
}

/// Replaces each sample of a lossless block by its difference from the neighbour that the
/// prediction mode uses.
pub fn transform_bypass_differentials_4x4(residual: [i32; 16], mode: u8) -> (result: [i32; 16])
    requires
        within(ints(residual@), 0x3fff_ffff),
    ensures
        ints(result@) == differences(ints(residual@), 4, bypass_difference(mode as int)),
        sample_differences(ints(residual@)) ==> within(ints(result@), 510),
{
    let ghost block = ints(residual@);
    let ghost expected = differences(block, 4, bypass_difference(mode as int));
    let mut result: [i32; 16] = [0i32; 16];
    let mut i: usize = 0;
    while i < 16
        invariant
            i <= 16,
            block == ints(residual@),
            within(block, 0x3fff_ffff),
            expected == differences(block, 4, bypass_difference(mode as int)),
            forall|j: int| 0 <= j < i ==> #[trigger] result@[j] == expected[j],
            forall|j: int|
                0 <= j < i && sample_differences(block) ==> -510 <= #[trigger] result@[j] <= 510,
        decreases 16 - i,
    {
        assert(residual@[i as int] == block[i as int]);
        let mut value: i32 = residual[i];
        if mode == 0 && i >= 4 {
            assert(residual@[i - 4] == block[i - 4]);
            value = value - residual[i - 4];
        } else if mode == 1 && i % 4 > 0 {
            assert(residual@[i - 1] == block[i - 1]);
            value = value - residual[i - 1];
        }
        result[i] = value;
        i = i + 1;
    }
    assert(ints(result@) =~= expected);
    result
}

/// The levels of a luma block that is predicted with four-by-four samples.
pub open spec fn intra4_levels(
    block: Seq<int>,
    qp: int,
    transform_bypass: bool,
    mode: int,
    matrix: Seq<u8>,
) -> Seq<int> {
    if transform_bypass {
        scanned(4, differences(block, 4, bypass_difference(mode)))
    } else {
        levels_4x4(block, qp, matrix)
    }
}

/// Quantizes a luma block that is predicted with four-by-four samples.
pub fn quantize_intra4_luma_block(
    source: &[u8],
    stride: usize,
    origin_x: usize,
    origin_y: usize,
    prediction: &[u8; 16],
    qp: i32,
    transform_bypass: bool,
    mode: u8,
    scaling_list: &[u8; 16],
) -> (levels: [i32; 16])
    requires
        region_inside(
            source@.len() as int,
            stride as int,
            origin_x as int,
            origin_y as int,
            4,
            4,
        ),
        quantizer(qp as int),
        scaling_matrix(scaling_list@, 16),
    ensures
        ints(levels@) == intra4_levels(
            difference(
                source@,
                stride as int,
                origin_x as int,
                origin_y as int,
                prediction@,
                4,
                0,
                0,
                4,
            ),
            qp as int,
            transform_bypass,
            mode as int,
            scaling_list@,
        ),
        within(ints(levels@), 0x10_0000),
{
    let residual: [i32; 16] = difference_4x4(
        source,
        stride,
        origin_x,
        origin_y,
        prediction.as_slice(),
        4,
        0,
        0,
    );
    if transform_bypass {
        let plain: [i32; 16] = transform_bypass_differentials_4x4(residual, mode);
        let ghost block = differences(ints(residual@), 4, bypass_difference(mode as int));
        let mut levels: [i32; 16] = [0i32; 16];
        let mut k: usize = 0;
        while k < 16
            invariant
                k <= 16,
                ints(plain@) == block,
                within(block, 510),
                forall|j: int|
                    0 <= j < k ==> (#[trigger] levels@[j]) == scanned(4, block)[j] && -510
                        <= levels@[j] <= 510,
            decreases 16 - k,
        {
            let place: usize = zig_zag_4x4(k);
            assert(plain@[place as int] == block[place as int]);
            levels[k] = plain[place];
            k = k + 1;
        }
        assert(ints(levels@) =~= scanned(4, block));
        levels
    } else {
        quantize_block_4x4(&residual, qp, scaling_list)
    }
}

/// The sum of the first `count` numbers.
pub open spec fn sum_of(values: Seq<int>, count: int) -> int
    decreases count,
{
    if count <= 0 {
        0
    } else {
        sum_of(values, count - 1) + values[count - 1]
    }
}

/// The scaled means of the sixteen blocks of a macroblock of differences.
pub open spec fn block_means(
    source: Seq<u8>,
    stride: int,
    x: int,
    y: int,
    prediction: Seq<u8>,
) -> Seq<int> {
    Seq::new(
        16,
        |b: int|
            rounded_quotient(
                sum_of(
                    difference(
                        source,
                        stride,
                        x,
                        y,
                        prediction,
                        16,
                        b % 4 * 4,
                        b / 4 * 4,
                        4,
                    ),
                    16,
                ),
                16,
            ) * 64,
    )
}

/// The level of a transformed block mean.
pub open spec fn mean_level(transformed: int, qp: int, matrix: Seq<u8>) -> int {
    let scale = level_scale(4, qp, 0, matrix);
    if qp >= 36 {
        rounded_quotient(transformed, 16 * scale * power_of_two((qp / 6 - 6) as nat))
    } else {
        rounded_quotient(transformed * power_of_two((6 - qp / 6) as nat), 16 * scale)
    }
}

/// The levels of the block means of a macroblock, in scanning order.
pub open spec fn intra16_dc_levels(means: Seq<int>, qp: int, matrix: Seq<u8>) -> Seq<int> {
    let transformed = hadamard_block(means);
    Seq::new(16, |k: int| mean_level(transformed[zig_zag(4, k)], qp, matrix))
}

/// Quantizes a transformed block mean.
fn quantize_mean(transformed: i64, qp: i32, scaling_list: &[u8; 16]) -> (level: i32)
    requires
        quantizer(qp as int),
        scaling_matrix(scaling_list@, 16),
        -0x10_0000 <= transformed <= 0x10_0000,
    ensures
        level == mean_level(transformed as int, qp as int, scaling_list@),
        -0x800_0000 <= level <= 0x800_0000,
{
    let scale: i64 = level_scale_4x4(qp, 0, 0, scaling_list) as i64;
    assert(scaling_list@[0] >= 1);
    proof {
        lemma_powers_of_two();
    }
    if qp >= 36 {
        let power: i64 = two_to((qp / 6 - 6) as u8) as i64;
        assert(power == 1 || power == 2 || power == 4) by {
            let d = qp / 6 - 6;
            assert(d == 0 || d == 1 || d == 2);
        }
        assert(1 <= 16 * scale * power <= 0x1000_0000) by (nonlinear_arith)
            requires
                10 <= scale <= 0x2000,
                1 <= power <= 4,
        ;
        round_div(transformed, 16 * scale * power) as i32
    } else {
        let power: i64 = two_to((6 - qp / 6) as u8) as i64;
        assert(1 <= power <= 64) by {
            let d = 6 - qp / 6;
            assert(d == 1 || d == 2 || d == 3 || d == 4 || d == 5 || d == 6);
        }
        assert(-0x400_0000 <= transformed * power <= 0x400_0000) by (nonlinear_arith)
            requires
                -0x10_0000 <= transformed <= 0x10_0000,
                1 <= power <= 64,
        ;
        round_div(transformed * power, 16 * scale) as i32
    }
}

/// Quantizes the block means of a luma macroblock that is predicted as a whole.
pub fn quantize_intra16_luma_dc(
    source: &[u8],
    stride: usize,
    macroblock_x: usize,
    macroblock_y: usize,
    prediction: &[u8],
    qp: i32,
    scaling_list: &[u8; 16],
) -> (levels: [i32; 16])
    requires
        region_inside(
            source@.len() as int,
            stride as int,
            macroblock_x * 16,
            macroblock_y * 16,
            16,
            16,
        ),
        prediction@.len() == 256,
        quantizer(qp as int),
        scaling_matrix(scaling_list@, 16),
        macroblock_x * 16 <= usize::MAX,
        macroblock_y * 16 <= usize::MAX,
    ensures
        ints(levels@) == intra16_dc_levels(
            block_means(
                source@,
                stride as int,
                macroblock_x * 16,
                macroblock_y * 16,
                prediction@,
            ),
            qp as int,
            scaling_list@,
        ),
        within(ints(levels@), 0x800_0000),
{
    let x: usize = macroblock_x * 16;
    let y: usize = macroblock_y * 16;
    let ghost means = block_means(source@, stride as int, x as int, y as int, prediction@);
    let mut desired: [i64; 16] = [0i64; 16];
    let mut b: usize = 0;
    while b < 16
        invariant
            b <= 16,
            region_inside(source@.len() as int, stride as int, x as int, y as int, 16, 16),
            prediction@.len() == 256,
            means == block_means(source@, stride as int, x as int, y as int, prediction@),
            forall|j: int|
                0 <= j < b ==> (#[trigger] desired@[j]) == means[j] && -0x1_0000 <= desired@[j]
                    <= 0x1_0000,
        decreases 16 - b,
    {
        let residual: [i32; 16] = difference_4x4(
            source,
            stride,
            x,
            y,
            prediction,
            16,
            b % 4 * 4,
            b / 4 * 4,
        );
        let ghost block = ints(residual@);
        let mut sum: i64 = 0;
        let mut i: usize = 0;
        while i < 16
            invariant
                i <= 16,
                block == ints(residual@),
                sample_differences(block),
                sum == sum_of(block, i as int),
                -255 * i <= sum <= 255 * i,
            decreases 16 - i,
        {
            assert(residual@[i as int] == block[i as int]);
            sum = sum + residual[i] as i64;
            i = i + 1;
        }
        let mean: i64 = round_div(sum, 16);
        desired[b] = mean * 64;
        assert(-0x1_0000 <= mean * 64 <= 0x1_0000);
        b = b + 1;
    }
    assert(wide_ints(desired@) =~= means);
    assert(within(means, 0x1_0000)) by {
        assert forall|i: int| 0 <= i < 16 implies -0x1_0000 <= #[trigger] means[i]
            <= 0x1_0000 by {
            assert(desired@[i] == means[i]);
        }
    }
    let transformed: [i64; 16] = hadamard_4x4(&desired);
    let ghost spectrum = hadamard_block(means);
    assert(within(spectrum, 16int * 0x1_0000));
    let ghost expected = intra16_dc_levels(means, qp as int, scaling_list@);
    let mut levels: [i32; 16] = [0i32; 16];
    let mut k: usize = 0;
    while k < 16
        invariant
            k <= 16,
            quantizer(qp as int),
            scaling_matrix(scaling_list@, 16),
            spectrum == hadamard_block(means),
            wide_ints(transformed@) == spectrum,
            within(spectrum, 16int * 0x1_0000),
            expected == intra16_dc_levels(means, qp as int, scaling_list@),
            forall|j: int|
                0 <= j < k ==> (#[trigger] levels@[j]) == expected[j] && -0x800_0000 <= levels@[j]
                    <= 0x800_0000,
        decreases 16 - k,
    {
        let place: usize = zig_zag_4x4(k);
        assert(transformed@[place as int] == spectrum[place as int]);
        levels[k] = quantize_mean(transformed[place], qp, scaling_list);
        k = k + 1;
    }
    assert(ints(levels@) =~= expected);
    levels
}

/// The levels that follow the first one, in scanning order.
pub open spec fn later_levels(levels: Seq<int>) -> Seq<int> {
    levels.skip(1)
}

/// Copies all levels of a block but the first.
fn without_first(levels: &[i32; 16]) -> (rest: [i32; 15])
    ensures
        ints(rest@) == later_levels(ints(levels@)),
{
    let mut rest: [i32; 15] = [0i32; 15];
    let mut k: usize = 0;
    while k < 15
        invariant
            k <= 15,
            forall|j: int| 0 <= j < k ==> #[trigger] rest@[j] == levels@[j + 1],
        decreases 15 - k,
    {
        rest[k] = levels[k + 1];
        k = k + 1;
    }
    assert(ints(rest@) =~= later_levels(ints(levels@)));
    rest
}

/// Column and row of a luma block, in coding order, in units of blocks.
pub open spec fn block_column(index: int) -> int {
    (index / 4 % 2) * 2 + index % 4 % 2
}

/// Row of a luma block, in coding order, in units of blocks.
pub open spec fn block_row(index: int) -> int {
    (index / 4 / 2) * 2 + index % 4 / 2
}

/// The coding order of luma blocks and their places determine each other.
pub proof fn law_block_order(index: int, x: int, y: int)
    requires
        0 <= index < 16,
        0 <= x < 4,
        0 <= y < 4,
    ensures
        0 <= block_column(index) < 4,
        0 <= block_row(index) < 4,
        block_at(block_column(index), block_row(index)) == index,
        0 <= block_at(x, y) < 16,
        block_column(block_at(x, y)) == x,
        block_row(block_at(x, y)) == y,
{
    lemma_block_of_index(index);
    lemma_index_of_block(x, y);
}

proof fn lemma_block_of_index(index: int)
    requires
        0 <= index < 16,
    ensures
        0 <= block_column(index) < 4,
        0 <= block_row(index) < 4,
        block_at(block_column(index), block_row(index)) == index,
{
    let q = index / 4;
    let r = index % 4;
    assert(block_column(index) / 2 == q % 2 && block_column(index) % 2 == r % 2);
    assert(block_row(index) / 2 == q / 2 && block_row(index) % 2 == r / 2);
}

proof fn lemma_index_of_block(x: int, y: int)
    requires
        0 <= x < 4,
        0 <= y < 4,
    ensures
        0 <= block_at(x, y) < 16,
        block_column(block_at(x, y)) == x,
        block_row(block_at(x, y)) == y,
{
    let index = block_at(x, y);
    let q = (y / 2) * 2 + x / 2;
    let r = (y % 2) * 2 + x % 2;
    assert(index == 4 * q + r && 0 <= r < 4);
    assert(index / 4 == q && index % 4 == r);
    assert(q % 2 == x / 2 && q / 2 == y / 2);
    assert(r % 2 == x % 2 && r / 2 == y % 2);
}

/// Column and row of a luma block, in coding order, in units of blocks.
pub fn luma_block_position(index: usize) -> (position: (usize, usize))
    requires
        index < 16,
    ensures
        position.0 == block_column(index as int),
        position.1 == block_row(index as int),
        position.0 < 4,
        position.1 < 4,
{
    let group: usize = index / 4;
    let within_group: usize = index % 4;
    ((group % 2) * 2 + within_group % 2, (group / 2) * 2 + within_group / 2)
}

/// The levels other than the mean of a luma block of a macroblock that is predicted as a whole.
pub open spec fn intra16_ac_levels(
    source: Seq<u8>,
    stride: int,
    x: int,
    y: int,
    prediction: Seq<u8>,
    qp: int,
    matrix: Seq<u8>,
    block: int,
) -> Seq<int> {
    later_levels(
        levels_4x4(
            difference(
                source,
                stride,
                x,
                y,
                prediction,
                16,
                block_column(block) * 4,
                block_row(block) * 4,
                4,
            ),
            qp,
            matrix,
        ),
    )
}

/// Quantizes the levels other than the means of a luma macroblock that is predicted as a whole.
pub fn quantize_intra16_luma_ac(
    source: &[u8],
    stride: usize,
    macroblock_x: usize,
    macroblock_y: usize,
    prediction: &[u8],
    qp: i32,
    scaling_list: &[u8; 16],
) -> (output: [[i32; 15]; 16])
    requires
        region_inside(
            source@.len() as int,
            stride as int,
            macroblock_x * 16,
            macroblock_y * 16,
            16,
            16,
        ),
        prediction@.len() == 256,
        quantizer(qp as int),
        scaling_matrix(scaling_list@, 16),
        macroblock_x * 16 <= usize::MAX,
        macroblock_y * 16 <= usize::MAX,
    ensures
        forall|b: int|
            0 <= b < 16 ==> ints((#[trigger] output@[b])@) == intra16_ac_levels(
                source@,
                stride as int,
                macroblock_x * 16,
                macroblock_y * 16,
                prediction@,
                qp as int,
                scaling_list@,
                b,
            ) && within(ints(output@[b]@), 0x10_0000),
{
    let x: usize = macroblock_x * 16;
    let y: usize = macroblock_y * 16;
    let mut output: [[i32; 15]; 16] = [[0i32; 15]; 16];
    let mut b: usize = 0;
    while b < 16
        invariant
            b <= 16,
            x == macroblock_x * 16,
            y == macroblock_y * 16,
            region_inside(source@.len() as int, stride as int, x as int, y as int, 16, 16),
            prediction@.len() == 256,
            quantizer(qp as int),
            scaling_matrix(scaling_list@, 16),
            forall|j: int|
                0 <= j < b ==> ints((#[trigger] output@[j])@) == intra16_ac_levels(
                    source@,
                    stride as int,
                    x as int,
                    y as int,
                    prediction@,
                    qp as int,
                    scaling_list@,
                    j,
                ) && within(ints(output@[j]@), 0x10_0000),
        decreases 16 - b,
    {
        let (block_x, block_y) = luma_block_position(b);
        let residual: [i32; 16] = difference_4x4(
            source,
            stride,
            x,
            y,
            prediction,
            16,
            block_x * 4,
            block_y * 4,
        );
        let levels: [i32; 16] = quantize_block_4x4(&residual, qp, scaling_list);
        output[b] = without_first(&levels);
        b = b + 1;
    }
    output
}

/// How lossless chroma blocks code their samples.
pub open spec fn chroma_difference(intra_mode: Option<u8>) -> Difference {
    match intra_mode {
        Some(mode) => if mode == 1 {
            Difference::Across
        } else if mode == 2 {
            Difference::Down
        } else {
            Difference::Plain
        },
        None => Difference::Plain,
    }
}

/// The place, row by row, of the coefficient at a scanning position of a chroma block.
pub open spec fn chroma_place(block: int, position: int) -> int {
    let place = zig_zag(4, position);
    (block / 2 * 4 + place / 4) * 8 + block % 2 * 4 + place % 4
}

/// The transformed chroma block at `block`.
pub open spec fn chroma_spectrum(
    source: Seq<u8>,
    stride: int,
    x: int,
    y: int,
    prediction: Seq<u8>,
    block: int,
) -> Seq<int> {
    hadamard_block(
        difference(source, stride, x, y, prediction, 8, block % 2 * 4, block / 2 * 4, 4),
    )
}

/// Output `k` of the transform of the four chroma block means.
pub open spec fn mean_transform(a: int, b: int, c: int, d: int, k: int) -> int {
    if k == 0 {
        a + b + c + d
    } else if k == 1 {
        a - b + c - d
    } else if k == 2 {
        a + b - c - d
    } else {
        a - b - c + d
    }
}

/// The level of a transformed chroma block mean.
pub open spec fn chroma_mean_level(transformed: int, qp: int, matrix: Seq<u8>) -> int {
    rounded_quotient(
        transformed * 32,
        4 * level_scale(4, qp, 0, matrix) * power_of_two((qp / 6) as nat),
    )
}

/// The levels of a chroma plane of a macroblock.
pub open spec fn chroma_levels(
    source: Seq<u8>,
    stride: int,
    x: int,
    y: int,
    prediction: Seq<u8>,
    qp: int,
    transform_bypass: bool,
    intra_mode: Option<u8>,
    matrix: Seq<u8>,
) -> ChromaLevels {
    if transform_bypass {
        let block = differences(
            difference(source, stride, x, y, prediction, 8, 0, 0, 8),
            8,
            chroma_difference(intra_mode),
        );
        ChromaLevels {
            dc: Seq::new(4, |b: int| block[chroma_place(b, 0)]),
            ac: Seq::new(4, |b: int| Seq::new(15, |k: int| block[chroma_place(b, k + 1)])),
        }
    } else {
        ChromaLevels {
            dc: Seq::new(
                4,
                |b: int|
                    chroma_mean_level(
                        mean_transform(
                            chroma_spectrum(source, stride, x, y, prediction, 0)[0],
                            chroma_spectrum(source, stride, x, y, prediction, 1)[0],
                            chroma_spectrum(source, stride, x, y, prediction, 2)[0],
                            chroma_spectrum(source, stride, x, y, prediction, 3)[0],
                            b,
                        ),
                        qp,
                        matrix,
                    ),
            ),
            ac: Seq::new(
                4,
                |b: int|
                    later_levels(
                        levels_4x4(
                            difference(
                                source,
                                stride,
                                x,
                                y,
                                prediction,
                                8,
                                b % 2 * 4,
                                b / 2 * 4,
                                4,
                            ),
                            qp,
                            matrix,
                        ),
                    ),
            ),
        }
    }
}

/// Quantizes a transformed chroma block mean.
fn quantize_chroma_mean(transformed: i64, qp: i32, scaling_list: &[u8; 16]) -> (level: i32)
    requires
        quantizer(qp as int),
        scaling_matrix(scaling_list@, 16),
        -0x8_0000 <= transformed <= 0x8_0000,
    ensures
        level == chroma_mean_level(transformed as int, qp as int, scaling_list@),
        -0x200_0000 <= level <= 0x200_0000,
{
    let scale: i64 = level_scale_4x4(qp, 0, 0, scaling_list) as i64;
    assert(scaling_list@[0] >= 1);
    let power: i64 = two_to((qp / 6) as u8) as i64;
    assert(1 <= power <= 256) by {
        lemma_powers_of_two();
        crate::bits::lemma_power_monotonic((qp as int / 6) as nat, 8);
    }
    assert(1 <= 4 * scale * power <= 0x1000_0000) by (nonlinear_arith)
        requires
            10 <= scale <= 0x2000,
            1 <= power <= 256,
    ;
    round_div(transformed * 32, 4 * scale * power) as i32
}

/// Quantizes the block means of a chroma plane.
fn quantize_chroma_means(means: &[i64; 4], qp: i32, scaling_list: &[u8; 16]) -> (dc: [i32; 4])
    requires
        quantizer(qp as int),
        scaling_matrix(scaling_list@, 16),
        forall|b: int| 0 <= b < 4 ==> -0x2000 <= #[trigger] means@[b] <= 0x2000,
    ensures
        forall|b: int|
            0 <= b < 4 ==> #[trigger] dc@[b] == chroma_mean_level(
                mean_transform(
                    means@[0] as int,
                    means@[1] as int,
                    means@[2] as int,
                    means@[3] as int,
                    b,
                ),
                qp as int,
                scaling_list@,
            ),
        within(ints(dc@), 0x800_0000),
{
    assert(-0x2000 <= means@[0] <= 0x2000 && -0x2000 <= means@[1] <= 0x2000 && -0x2000 <= means@[2]
        <= 0x2000 && -0x2000 <= means@[3] <= 0x2000);
    [
        quantize_chroma_mean(means[0] + means[1] + means[2] + means[3], qp, scaling_list),
        quantize_chroma_mean(means[0] - means[1] + means[2] - means[3], qp, scaling_list),
        quantize_chroma_mean(means[0] + means[1] - means[2] - means[3], qp, scaling_list),
        quantize_chroma_mean(means[0] - means[1] - means[2] + means[3], qp, scaling_list),
    ]
}

/// Computes the levels of a lossless chroma plane of a macroblock.
fn bypass_chroma_residual(
    source: &[u8],
    stride: usize,
    x: usize,
    y: usize,
    prediction: &[u8],
    intra_mode: Option<u8>,
) -> (residual: ChromaResidual)
    requires
        region_inside(source@.len() as int, stride as int, x as int, y as int, 8, 8),
        prediction@.len() == 64,
    ensures
        forall|qp: int, matrix: Seq<u8>|
            residual@ == #[trigger] chroma_levels(
                source@,
                stride as int,
                x as int,
                y as int,
                prediction@,
                qp,
                true,
                intra_mode,
                matrix,
            ),
        chroma_levels_fit(residual@),
{
    let plain: [i32; 64] = difference_8x8(source, stride, x, y, prediction);
    let across = match intra_mode {
        Some(mode) => mode == 1,
        None => false,
    };
    let down = match intra_mode {
        Some(mode) => mode == 2,
        None => false,
    };
    let ghost block = ints(plain@);
    let ghost expected = differences(block, 8, chroma_difference(intra_mode));
    let mut coded: [i32; 64] = [0i32; 64];
    let mut i: usize = 0;
    while i < 64
        invariant
            i <= 64,
            block == ints(plain@),
            sample_differences(block),
            across == (chroma_difference(intra_mode) is Across),
            down == (chroma_difference(intra_mode) is Down),
            expected == differences(block, 8, chroma_difference(intra_mode)),
            forall|j: int| 0 <= j < i ==> #[trigger] coded@[j] == expected[j],
        decreases 64 - i,
    {
        assert(plain@[i as int] == block[i as int]);
        let mut value: i32 = plain[i];
        if across && i % 8 > 0 {
            assert(plain@[i - 1] == block[i - 1]);
            value = value - plain[i - 1];
        } else if down && i >= 8 {
            assert(plain@[i - 8] == block[i - 8]);
            value = value - plain[i - 8];
        }
        coded[i] = value;
        i = i + 1;
    }
    let mut dc: [i32; 4] = [0i32; 4];
    let mut ac: [[i32; 15]; 4] = [[0i32; 15]; 4];
    let mut b: usize = 0;
    while b < 4
        invariant
            b <= 4,
            forall|j: int| 0 <= j < 64 ==> #[trigger] coded@[j] == expected[j],
            forall|j: int| 0 <= j < b ==> #[trigger] dc@[j] == expected[chroma_place(j, 0)],
            forall|j: int, k: int|
                0 <= j < b && 0 <= k < 15 ==> #[trigger] ac@[j]@[k] == expected[chroma_place(
                    j,
                    k + 1,
                )],
        decreases 4 - b,
    {
        let first: usize = zig_zag_4x4(0);
        dc[b] = coded[(b / 2 * 4 + first / 4) * 8 + b % 2 * 4 + first % 4];
        let mut rest: [i32; 15] = [0i32; 15];
        let mut k: usize = 0;
        while k < 15
            invariant
                k <= 15,
                b < 4,
                forall|j: int| 0 <= j < 64 ==> #[trigger] coded@[j] == expected[j],
                forall|j: int|
                    0 <= j < k ==> #[trigger] rest@[j] == expected[chroma_place(b as int, j + 1)],
            decreases 15 - k,
        {
            let place: usize = zig_zag_4x4(k + 1);
            rest[k] = coded[(b / 2 * 4 + place / 4) * 8 + b % 2 * 4 + place % 4];
            k = k + 1;
        }
        ac[b] = rest;
        b = b + 1;
    }
    let residual = ChromaResidual { dc, ac };
    proof {
        let levels = chroma_levels(
            source@,
            stride as int,
            x as int,
            y as int,
            prediction@,
            0,
            true,
            intra_mode,
            Seq::empty(),
        );
        assert(residual@.dc =~= levels.dc);
        assert forall|j: int| 0 <= j < 4 implies #[trigger] residual@.ac[j] =~= levels.ac[j] by {}
        assert(residual@.ac =~= levels.ac);
        assert forall|place: int| 0 <= place < 64 implies -510 <= #[trigger] expected[place]
            <= 510 by {
            assert(block[place] == plain@[place]);
            if place % 8 > 0 {
                assert(block[place - 1] == plain@[place - 1]);
            }
            if place >= 8 {
                assert(block[place - 8] == plain@[place - 8]);
            }
        }
        assert forall|j: int, k: int| 0 <= j < 4 && 0 <= k < 16 implies 0 <= #[trigger] chroma_place(
            j,
            k,
        ) < 64 by {
            law_scan_order(4);
            assert(0 <= zig_zag(4, k) < 16);
        }
        assert forall|j: int| 0 <= j < 4 implies within(#[trigger] residual@.ac[j], 0x800_0000) by {
            assert(residual@.ac[j] =~= levels.ac[j]);
        }
    }
    residual
}

proof fn lemma_chroma_levels(
    residual: ChromaResidual,
    source: Seq<u8>,
    stride: int,
    x: int,
    y: int,
    prediction: Seq<u8>,
    qp: int,
    intra_mode: Option<u8>,
    matrix: Seq<u8>,
)
    requires
        forall|b: int|
            0 <= b < 4 ==> #[trigger] residual.dc@[b] == chroma_mean_level(
                mean_transform(
                    chroma_spectrum(source, stride, x, y, prediction, 0)[0],
                    chroma_spectrum(source, stride, x, y, prediction, 1)[0],
                    chroma_spectrum(source, stride, x, y, prediction, 2)[0],
                    chroma_spectrum(source, stride, x, y, prediction, 3)[0],
                    b,
                ),
                qp,
                matrix,
            ),
        within(ints(residual.dc@), 0x800_0000),
        forall|b: int|
            0 <= b < 4 ==> ints((#[trigger] residual.ac@[b])@) == later_levels(
                levels_4x4(
                    difference(
                        source,
                        stride,
                        x,
                        y,
                        prediction,
                        8,
                        b % 2 * 4,
                        b / 2 * 4,
                        4,
                    ),
                    qp,
                    matrix,
                ),
            ) && within(ints(residual.ac@[b]@), 0x10_0000),
    ensures
        residual@ == chroma_levels(
            source,
            stride,
            x,
            y,
            prediction,
            qp,
            false,
            intra_mode,
            matrix,
        ),
        chroma_levels_fit(residual@),
{
    let levels = chroma_levels(source, stride, x, y, prediction, qp, false, intra_mode, matrix);
    assert(residual@.dc =~= levels.dc);
    assert forall|b: int| 0 <= b < 4 implies #[trigger] residual@.ac[b] == levels.ac[b] by {
        assert(ints(residual.ac@[b]@) == levels.ac[b]);
    }
    assert(residual@.ac =~= levels.ac);
    assert forall|b: int| 0 <= b < 4 implies within(#[trigger] residual@.ac[b], 0x800_0000) by {
        assert(within(ints(residual.ac@[b]@), 0x10_0000));
    }
}

/// Quantizes a chroma plane of a macroblock.
pub fn quantize_chroma_residual(
    source: &[u8],
    stride: usize,
    macroblock_x: usize,
    macroblock_y: usize,
    prediction: &[u8],
    qp: i32,
    transform_bypass: bool,
    intra_mode: Option<u8>,
    scaling_list: &[u8; 16],
) -> (residual: ChromaResidual)
    requires
        region_inside(
            source@.len() as int,
            stride as int,
            macroblock_x * 8,
            macroblock_y * 8,
            8,
            8,
        ),
        prediction@.len() == 64,
        quantizer(qp as int),
        scaling_matrix(scaling_list@, 16),
        macroblock_x * 8 <= usize::MAX,
        macroblock_y * 8 <= usize::MAX,
    ensures
        residual@ == chroma_levels(
            source@,
            stride as int,
            macroblock_x * 8,
            macroblock_y * 8,
            prediction@,
            qp as int,
            transform_bypass,
            intra_mode,
            scaling_list@,
        ),
        chroma_levels_fit(residual@),
{
    let x: usize = macroblock_x * 8;
    let y: usize = macroblock_y * 8;
    if transform_bypass {
        return bypass_chroma_residual(source, stride, x, y, prediction, intra_mode);
    }
    let mut means: [i64; 4] = [0i64; 4];
    let mut ac: [[i32; 15]; 4] = [[0i32; 15]; 4];
    let mut b: usize = 0;
    while b < 4
        invariant
            b <= 4,
            region_inside(source@.len() as int, stride as int, x as int, y as int, 8, 8),
            prediction@.len() == 64,
            quantizer(qp as int),
            scaling_matrix(scaling_list@, 16),
            forall|j: int|
                0 <= j < b ==> (#[trigger] means@[j]) == chroma_spectrum(
                    source@,
                    stride as int,
                    x as int,
                    y as int,
                    prediction@,
                    j,
                )[0] && -0x2000 <= means@[j] <= 0x2000,
            forall|j: int|
                0 <= j < b ==> ints((#[trigger] ac@[j])@) == later_levels(
                    levels_4x4(
                        difference(
                            source@,
                            stride as int,
                            x as int,
                            y as int,
                            prediction@,
                            8,
                            j % 2 * 4,
                            j / 2 * 4,
                            4,
                        ),
                        qp as int,
                        scaling_list@,
                    ),
                ) && within(ints(ac@[j]@), 0x10_0000),
        decreases 4 - b,
    {
        let residual: [i32; 16] = difference_4x4(
            source,
            stride,
            x,
            y,
            prediction,
            8,
            b % 2 * 4,
            b / 2 * 4,
        );
        let transformed: [i32; 16] = forward_transform_4x4(&residual);
        assert(within(ints(transformed@), 16int * 255));
        assert(ints(transformed@)[0] == transformed@[0]);
        means[b] = transformed[0] as i64;
        let levels: [i32; 16] = quantize_block_4x4(&residual, qp, scaling_list);
        ac[b] = without_first(&levels);
        b = b + 1;
    }
    let dc: [i32; 4] = quantize_chroma_means(&means, qp, scaling_list);
    let residual = ChromaResidual { dc, ac };
    proof {
        lemma_chroma_levels(
            residual,
            source@,
            stride as int,
            x as int,
            y as int,
            prediction@,
            qp as int,
            intra_mode,
            scaling_list@,
        );
    }
    residual
}

} // verus!
