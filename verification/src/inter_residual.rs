//! Luma residuals of inter macroblocks.

use vstd::prelude::*;

use crate::deblock::block_at;
use crate::math::unit;
use crate::plane::{place_block, region, region_inside, sample_in, with_region};
use crate::quant_tables::{law_scan_order, scan, scan_4x4, zig_zag, zig_zag_4x4};
use crate::quantize::{quantizer, scaling_matrix};
use crate::reconstruct::{
    chroma_coded_block, chroma_residual, correct_16, correct_4, corrected, gathered_16, gathered_4,
    inverse_quantized_transform_4x4, inverse_quantized_transform_8x8, residual_4x4, residual_8x8,
};
use crate::residual::{
    block_column, block_row, chroma_difference, chroma_levels, chroma_place, difference,
    difference_4x4, differences, law_block_order, law_differences_summed, levels_4x4, levels_8x8,
    luma_block_position, quantize_block_4x4, quantize_intra8_luma_block, sample_differences,
    scanned, sum_of, ChromaLevels, ChromaResidual,
};
use crate::scaling::{matrix_4x4, matrix_8x8, ScalingMatrixPreset};
use crate::transform::{ints, wide_ints, within};

verus! {

/// Luma levels of an inter macroblock.
#[derive(Debug)]
pub enum InterLumaResidual {
    /// Sixteen transformed blocks of four by four samples, in coding order.
    FourByFour(Box<[[i32; 16]; 16]>),
    /// Sixteen lossless blocks of four by four samples, in coding order.
    BypassFourByFour(Box<[[i32; 16]; 16]>),
    /// Four transformed blocks of eight by eight samples.
    EightByEight(Box<[[i32; 64]; 4]>),
}

/// The numbers in the luma levels of an inter macroblock.
#[verifier::ext_equal]
pub enum LumaLevels {
    /// Transformed blocks of four by four samples.
    FourByFour(Seq<Seq<int>>),
    /// Lossless blocks of four by four samples.
    BypassFourByFour(Seq<Seq<int>>),
    /// Transformed blocks of eight by eight samples.
    EightByEight(Seq<Seq<int>>),
}

/// The numbers in sixteen blocks of sixteen levels.
pub open spec fn block_ints(levels: Seq<[i32; 16]>) -> Seq<Seq<int>> {
    Seq::new(levels.len(), |b: int| ints(levels[b]@))
}

/// The numbers in four blocks of 64 levels.
pub open spec fn quarter_ints(levels: Seq<[i32; 64]>) -> Seq<Seq<int>> {
    Seq::new(levels.len(), |b: int| ints(levels[b]@))
}

impl View for InterLumaResidual {
    type V = LumaLevels;

    open spec fn view(&self) -> LumaLevels {
        match self {
            InterLumaResidual::FourByFour(levels) => LumaLevels::FourByFour(
                block_ints((**levels)@),
            ),
            InterLumaResidual::BypassFourByFour(levels) => LumaLevels::BypassFourByFour(
                block_ints((**levels)@),
            ),
            InterLumaResidual::EightByEight(levels) => LumaLevels::EightByEight(
                quarter_ints((**levels)@),
            ),
        }
    }
}

/// Whether a list holds a number other than zero.
pub open spec fn any_nonzero(values: Seq<int>) -> bool {
    exists|i: int| 0 <= i < values.len() && #[trigger] values[i] != 0
}

/// Whether quarter `group` of a macroblock holds a level other than zero.
pub open spec fn group_coded(levels: LumaLevels, group: int) -> bool {
    match levels {
        LumaLevels::FourByFour(blocks) => blocks_coded(blocks, group),
        LumaLevels::BypassFourByFour(blocks) => blocks_coded(blocks, group),
        LumaLevels::EightByEight(blocks) => any_nonzero(blocks[group]),
    }
}

/// Whether one of the four blocks of quarter `group` holds a level other than zero.
pub open spec fn blocks_coded(blocks: Seq<Seq<int>>, group: int) -> bool {
    any_nonzero(blocks[4 * group]) || any_nonzero(blocks[4 * group + 1]) || any_nonzero(
        blocks[4 * group + 2],
    ) || any_nonzero(blocks[4 * group + 3])
}

/// Four flags as the bits of a number, the first one lowest.
pub open spec fn flag_bits(a: bool, b: bool, c: bool, d: bool) -> int {
    unit(a) + 2 * unit(b) + 4 * unit(c) + 8 * unit(d)
}

/// Which quarters of a macroblock hold levels other than zero, as bits.
pub open spec fn luma_pattern(levels: LumaLevels) -> int {
    flag_bits(
        group_coded(levels, 0),
        group_coded(levels, 1),
        group_coded(levels, 2),
        group_coded(levels, 3),
    )
}

/// Whether a list holds a number other than zero.
pub fn holds_nonzero(values: &[i32]) -> (result: bool)
    ensures
        result == any_nonzero(ints(values@)),
{
    let mut i: usize = 0;
    while i < values.len()
        invariant
            i <= values@.len(),
            forall|j: int| 0 <= j < i ==> #[trigger] values@[j] == 0,
        decreases values@.len() - i,
    {
        if values[i] != 0 {
            assert(ints(values@)[i as int] != 0);
            return true;
        }
        i = i + 1;
    }
    assert forall|j: int| 0 <= j < ints(values@).len() implies #[trigger] ints(values@)[j] == 0 by {
        assert(values@[j] == 0);
    }
    false
}

/// Four flags as the bits of a number, the first one lowest.
fn pack_flags(a: bool, b: bool, c: bool, d: bool) -> (bits: u8)
    ensures
        bits == flag_bits(a, b, c, d),
{
    let mut bits: u8 = 0;
    if a {
        bits = bits + 1;
    }
    if b {
        bits = bits + 2;
    }
    if c {
        bits = bits + 4;
    }
    if d {
        bits = bits + 8;
    }
    bits
}

/// Whether one of the four blocks of a quarter holds a level other than zero.
fn group_holds_nonzero(levels: &[[i32; 16]; 16], group: usize) -> (result: bool)
    requires
        group < 4,
    ensures
        result == blocks_coded(block_ints(levels@), group as int),
{
    holds_nonzero(levels[4 * group].as_slice()) || holds_nonzero(levels[4 * group + 1].as_slice())
        || holds_nonzero(levels[4 * group + 2].as_slice()) || holds_nonzero(
        levels[4 * group + 3].as_slice(),
    )
}

/// Which quarters of a macroblock hold levels other than zero, as bits.
pub fn luma_coded_block_pattern(levels: &[[i32; 16]; 16]) -> (pattern: u8)
    ensures
        pattern == luma_pattern(LumaLevels::FourByFour(block_ints(levels@))),
        pattern == luma_pattern(LumaLevels::BypassFourByFour(block_ints(levels@))),
        pattern < 16,
{
    pack_flags(
        group_holds_nonzero(levels, 0),
        group_holds_nonzero(levels, 1),
        group_holds_nonzero(levels, 2),
        group_holds_nonzero(levels, 3),
    )
}

impl InterLumaResidual {
    /// Whether all levels have codes.
    pub open spec fn fits(&self) -> bool {
        match self {
            InterLumaResidual::FourByFour(levels) => forall|b: int|
                0 <= b < 16 ==> within(ints((#[trigger] (**levels)@[b])@), 0x10_0000),
            InterLumaResidual::BypassFourByFour(levels) => forall|b: int|
                0 <= b < 16 ==> within(ints((#[trigger] (**levels)@[b])@), 0x10_0000),
            InterLumaResidual::EightByEight(levels) => forall|b: int|
                0 <= b < 4 ==> within(ints((#[trigger] (**levels)@[b])@), 0x10_0000),
        }
    }

    /// Whether the levels belong to blocks of eight by eight samples.
    pub fn uses_8x8(&self) -> (result: bool)
        ensures
            result == (self@ is EightByEight),
    {
        match self {
            InterLumaResidual::EightByEight(_) => true,
            _ => false,
        }
    }

    /// Which quarters of the macroblock hold levels other than zero, as bits.
    pub fn coded_block_pattern(&self) -> (pattern: u8)
        ensures
            pattern == luma_pattern(self@),
            pattern < 16,
    {
        match self {
            InterLumaResidual::FourByFour(levels) => luma_coded_block_pattern(levels),
            InterLumaResidual::BypassFourByFour(levels) => luma_coded_block_pattern(levels),
            InterLumaResidual::EightByEight(levels) => pack_flags(
                holds_nonzero(levels[0].as_slice()),
                holds_nonzero(levels[1].as_slice()),
                holds_nonzero(levels[2].as_slice()),
                holds_nonzero(levels[3].as_slice()),
            ),
        }
    }
}

/// Whether one of the four blocks of a chroma plane holds a level other than its mean.
pub open spec fn chroma_ac_coded(levels: ChromaLevels) -> bool {
    any_nonzero(levels.ac[0]) || any_nonzero(levels.ac[1]) || any_nonzero(levels.ac[2])
        || any_nonzero(levels.ac[3])
}

/// What the chroma planes of a macroblock code: nothing, the block means, or everything.
pub open spec fn chroma_pattern(cb: ChromaLevels, cr: ChromaLevels) -> int {
    if chroma_ac_coded(cb) || chroma_ac_coded(cr) {
        2
    } else {
        unit(any_nonzero(cb.dc) || any_nonzero(cr.dc))
    }
}

/// Whether one of the four blocks of a chroma plane holds a level other than its mean.
fn chroma_ac_holds_nonzero(residual: &ChromaResidual) -> (result: bool)
    ensures
        result == chroma_ac_coded(residual@),
{
    holds_nonzero(residual.ac[0].as_slice()) || holds_nonzero(residual.ac[1].as_slice())
        || holds_nonzero(residual.ac[2].as_slice()) || holds_nonzero(residual.ac[3].as_slice())
}

/// What the chroma planes of a macroblock code: nothing, the block means, or everything.
pub fn chroma_coded_block_pattern(residuals: &[ChromaResidual; 2]) -> (pattern: u8)
    ensures
        pattern == chroma_pattern(residuals@[0]@, residuals@[1]@),
        pattern <= 2,
{
    if chroma_ac_holds_nonzero(&residuals[0]) || chroma_ac_holds_nonzero(&residuals[1]) {
        2
    } else if holds_nonzero(residuals[0].dc.as_slice()) || holds_nonzero(
        residuals[1].dc.as_slice(),
    ) {
        1
    } else {
        0
    }
}

/// The difference between source and prediction in a luma block, in coding order.
pub open spec fn block_difference(
    source: Seq<u8>,
    stride: int,
    x: int,
    y: int,
    prediction: Seq<u8>,
    block: int,
) -> Seq<int> {
    difference(
        source,
        stride,
        x,
        y,
        prediction,
        16,
        block_column(block) * 4,
        block_row(block) * 4,
        4,
    )
}

/// The levels of sixteen transformed blocks.
pub open spec fn inter_levels(
    source: Seq<u8>,
    stride: int,
    x: int,
    y: int,
    prediction: Seq<u8>,
    qp: int,
    matrix: Seq<u8>,
) -> Seq<Seq<int>> {
    Seq::new(
        16,
        |b: int| levels_4x4(block_difference(source, stride, x, y, prediction, b), qp, matrix),
    )
}

/// The levels of sixteen lossless blocks.
pub open spec fn bypass_levels(
    source: Seq<u8>,
    stride: int,
    x: int,
    y: int,
    prediction: Seq<u8>,
) -> Seq<Seq<int>> {
    Seq::new(
        16,
        |b: int| scanned(4, block_difference(source, stride, x, y, prediction, b)),
    )
}

/// Quarter `group` of the prediction of a macroblock.
pub open spec fn quarter_of(prediction: Seq<u8>, group: int) -> Seq<u8> {
    Seq::new(
        64,
        |i: int| prediction[(group / 2 * 8 + i / 8) * 16 + (group % 2 * 8 + i % 8)],
    )
}

/// The levels of four transformed quarters.
pub open spec fn inter_levels_8x8(
    source: Seq<u8>,
    stride: int,
    x: int,
    y: int,
    prediction: Seq<u8>,
    qp: int,
    matrix: Seq<u8>,
) -> Seq<Seq<int>> {
    Seq::new(
        4,
        |g: int|
            levels_8x8(
                difference(
                    source,
                    stride,
                    x + g % 2 * 8,
                    y + g / 2 * 8,
                    quarter_of(prediction, g),
                    8,
                    0,
                    0,
                    8,
                ),
                qp,
                matrix,
            ),
    )
}

/// Quantizes sixteen blocks of a luma macroblock.
pub fn quantize_inter_luma_residual(
    source: &[u8],
    stride: usize,
    macroblock_x: usize,
    macroblock_y: usize,
    prediction: &[u8],
    qp: i32,
    scaling_list: &[u8; 16],
) -> (output: [[i32; 16]; 16])
    requires
        region_inside(
            source@.len() as int,
            stride as int,
            macroblock_x * 16,
            macroblock_y * 16,
            16,
            16,
        ),
        macroblock_x * 16 <= usize::MAX,
        macroblock_y * 16 <= usize::MAX,
        prediction@.len() == 256,
        quantizer(qp as int),
        scaling_matrix(scaling_list@, 16),
    ensures
        block_ints(output@) == inter_levels(
            source@,
            stride as int,
            macroblock_x * 16,
            macroblock_y * 16,
            prediction@,
            qp as int,
            scaling_list@,
        ),
        forall|b: int| 0 <= b < 16 ==> within(ints((#[trigger] output@[b])@), 0x10_0000),
{
    let x: usize = macroblock_x * 16;
    let y: usize = macroblock_y * 16;
    let ghost expected = inter_levels(
        source@,
        stride as int,
        x as int,
        y as int,
        prediction@,
        qp as int,
        scaling_list@,
    );
    let mut output: [[i32; 16]; 16] = [[0i32; 16]; 16];
    let mut b: usize = 0;
    while b < 16
        invariant
            b <= 16,
            region_inside(source@.len() as int, stride as int, x as int, y as int, 16, 16),
            prediction@.len() == 256,
            quantizer(qp as int),
            scaling_matrix(scaling_list@, 16),
            expected == inter_levels(
                source@,
                stride as int,
                x as int,
                y as int,
                prediction@,
                qp as int,
                scaling_list@,
            ),
            forall|j: int|
                0 <= j < b ==> ints((#[trigger] output@[j])@) == expected[j] && within(
                    ints(output@[j]@),
                    0x10_0000,
                ),
        decreases 16 - b,
    {
        let (block_x, block_y) = luma_block_position(b);
        let residual: [i32; 16] = difference_4x4(
            source,
            stride,
            x,
            y,
            prediction,
            16,
            block_x * 4,
            block_y * 4,
        );
        output[b] = quantize_block_4x4(&residual, qp, scaling_list);
        b = b + 1;
    }
    assert(block_ints(output@) =~= expected);
    output
}

/// Computes the levels of sixteen lossless blocks of a luma macroblock.
pub fn quantize_inter_luma_residual_bypass(
    source: &[u8],
    stride: usize,
    macroblock_x: usize,
    macroblock_y: usize,
    prediction: &[u8],
) -> (output: [[i32; 16]; 16])
    requires
        region_inside(
            source@.len() as int,
            stride as int,
            macroblock_x * 16,
            macroblock_y * 16,
            16,
            16,
        ),
        macroblock_x * 16 <= usize::MAX,
        macroblock_y * 16 <= usize::MAX,
        prediction@.len() == 256,
    ensures
        block_ints(output@) == bypass_levels(
            source@,
            stride as int,
            macroblock_x * 16,
            macroblock_y * 16,
            prediction@,
        ),
        forall|b: int| 0 <= b < 16 ==> within(ints((#[trigger] output@[b])@), 0x10_0000),
{
    let x: usize = macroblock_x * 16;
    let y: usize = macroblock_y * 16;
    let ghost expected = bypass_levels(source@, stride as int, x as int, y as int, prediction@);
    let mut output: [[i32; 16]; 16] = [[0i32; 16]; 16];
    let mut b: usize = 0;
    while b < 16
        invariant
            b <= 16,
            region_inside(source@.len() as int, stride as int, x as int, y as int, 16, 16),
            prediction@.len() == 256,
            expected == bypass_levels(source@, stride as int, x as int, y as int, prediction@),
            forall|j: int|
                0 <= j < b ==> ints((#[trigger] output@[j])@) == expected[j] && within(
                    ints(output@[j]@),
                    0x10_0000,
                ),
        decreases 16 - b,
    {
        let (block_x, block_y) = luma_block_position(b);
        let residual: [i32; 16] = difference_4x4(
            source,
            stride,
            x,
            y,
            prediction,
            16,
            block_x * 4,
            block_y * 4,
        );
        let ghost block = ints(residual@);
        let mut levels: [i32; 16] = [0i32; 16];
        let mut k: usize = 0;
        while k < 16
            invariant
                k <= 16,
                ints(residual@) == block,
                sample_differences(block),
                forall|j: int|
                    0 <= j < k ==> (#[trigger] levels@[j]) == scanned(4, block)[j] && -255
                        <= levels@[j] <= 255,
            decreases 16 - k,
        {
            let place: usize = zig_zag_4x4(k);
            assert(residual@[place as int] == block[place as int]);
            levels[k] = residual[place];
            k = k + 1;
        }
        assert(ints(levels@) =~= scanned(4, block));
        output[b] = levels;
        b = b + 1;
    }
    assert(block_ints(output@) =~= expected);
    output
}

/// Quantizes four quarters of a luma macroblock.
pub fn quantize_inter_luma_residual_8x8(
    source: &[u8],
    stride: usize,
    macroblock_x: usize,
    macroblock_y: usize,
    prediction: &[u8],
    qp: i32,
    scaling_list: &[u8; 64],
) -> (output: [[i32; 64]; 4])
    requires
        region_inside(
            source@.len() as int,
            stride as int,
            macroblock_x * 16,
            macroblock_y * 16,
            16,
            16,
        ),
        macroblock_x * 16 + 16 <= usize::MAX,
        macroblock_y * 16 + 16 <= usize::MAX,
        prediction@.len() == 256,
        quantizer(qp as int),
        scaling_matrix(scaling_list@, 64),
    ensures
        quarter_ints(output@) == inter_levels_8x8(
            source@,
            stride as int,
            macroblock_x * 16,
            macroblock_y * 16,
            prediction@,
            qp as int,
            scaling_list@,
        ),
        forall|b: int| 0 <= b < 4 ==> within(ints((#[trigger] output@[b])@), 0x10_0000),
{
    let x: usize = macroblock_x * 16;
    let y: usize = macroblock_y * 16;
    let ghost expected = inter_levels_8x8(
        source@,
        stride as int,
        x as int,
        y as int,
        prediction@,
        qp as int,
        scaling_list@,
    );
    let mut output: [[i32; 64]; 4] = [[0i32; 64]; 4];
    let mut g: usize = 0;
    while g < 4
        invariant
            g <= 4,
            region_inside(source@.len() as int, stride as int, x as int, y as int, 16, 16),
            x + 16 <= usize::MAX,
            y + 16 <= usize::MAX,
            prediction@.len() == 256,
            quantizer(qp as int),
            scaling_matrix(scaling_list@, 64),
            expected == inter_levels_8x8(
                source@,
                stride as int,
                x as int,
                y as int,
                prediction@,
                qp as int,
                scaling_list@,
            ),
            forall|j: int|
                0 <= j < g ==> ints((#[trigger] output@[j])@) == expected[j] && within(
                    ints(output@[j]@),
                    0x10_0000,
                ),
        decreases 4 - g,
    {
        let block_x: usize = g % 2 * 8;
        let block_y: usize = g / 2 * 8;
        let mut quarter: [u8; 64] = [0u8; 64];
        let mut i: usize = 0;
        while i < 64
            invariant
                i <= 64,
                g < 4,
                block_x == g % 2 * 8,
                block_y == g / 2 * 8,
                prediction@.len() == 256,
                forall|j: int|
                    0 <= j < i ==> #[trigger] quarter@[j] == quarter_of(prediction@, g as int)[j],
            decreases 64 - i,
        {
            quarter[i] = prediction[(block_y + i / 8) * 16 + (block_x + i % 8)];
            i = i + 1;
        }
        assert(quarter@ =~= quarter_of(prediction@, g as int));
        assert((y + block_y + 8) * stride <= (y + 16) * stride) by (nonlinear_arith)
            requires
                0 <= block_y <= 8,
                0 <= stride,
        ;
        output[g] = quantize_intra8_luma_block(
            source,
            stride,
            x + block_x,
            y + block_y,
            &quarter,
            qp,
            scaling_list,
        );
        g = g + 1;
    }
    assert(quarter_ints(output@) =~= expected);
    output
}

/// A lossless block, row by row, from its levels in scanning order.
pub open spec fn unscanned(levels: Seq<int>) -> Seq<int> {
    Seq::new(16, |p: int| levels[scan(4, p)])
}

/// The luma residual of an inter macroblock.
pub open spec fn inter_residual(levels: LumaLevels, qp: int, preset: ScalingMatrixPreset) -> Seq<
    int,
> {
    match levels {
        LumaLevels::FourByFour(blocks) => gathered_16(
            Seq::new(16, |b: int| residual_4x4(blocks[b], qp, matrix_4x4(preset, false))),
        ),
        LumaLevels::BypassFourByFour(blocks) => gathered_16(
            Seq::new(16, |b: int| unscanned(blocks[b])),
        ),
        LumaLevels::EightByEight(blocks) => gathered_4(
            Seq::new(4, |b: int| residual_8x8(blocks[b], qp, matrix_8x8(preset, false))),
        ),
    }
}

/// Corrects the prediction of an inter macroblock by its residual.
pub fn reconstruct_inter_luma_prediction(
    prediction: &[u8],
    levels: &InterLumaResidual,
    qp: i32,
    scaling_matrix: ScalingMatrixPreset,
) -> (samples: Vec<u8>)
    requires
        prediction@.len() == 256,
        quantizer(qp as int),
    ensures
        samples@ == corrected(
            prediction@,
            inter_residual(levels@, qp as int, scaling_matrix),
        ),
        samples@.len() == 256,
{
    match levels {
        InterLumaResidual::FourByFour(levels) => {
            let matrix: [u8; 16] = scaling_matrix.four_by_four(false);
            let ghost numbers = block_ints((**levels)@);
            let ghost expected = Seq::new(
                16,
                |b: int| residual_4x4(numbers[b], qp as int, matrix@),
            );
            let mut blocks: [[i64; 16]; 16] = [[0i64; 16]; 16];
            let mut b: usize = 0;
            while b < 16
                invariant
                    b <= 16,
                    quantizer(qp as int),
                    numbers == block_ints((**levels)@),
                    expected == Seq::new(
                        16,
                        |b: int| residual_4x4(numbers[b], qp as int, matrix@),
                    ),
                    forall|j: int|
                        0 <= j < b ==> wide_ints((#[trigger] blocks@[j])@) == expected[j] && within(
                            wide_ints(blocks@[j]@),
                            0x1000_0000_0000_0000,
                        ),
                decreases 16 - b,
            {
                blocks[b] = inverse_quantized_transform_4x4(&levels[b], qp, &matrix);
                b = b + 1;
            }
            assert(Seq::new(16, |b: int| wide_ints(blocks@[b]@)) =~= expected);
            correct_16(prediction, &blocks)
        },
        InterLumaResidual::BypassFourByFour(levels) => {
            let ghost numbers = block_ints((**levels)@);
            let ghost expected = Seq::new(16, |b: int| unscanned(numbers[b]));
            let mut blocks: [[i64; 16]; 16] = [[0i64; 16]; 16];
            let mut b: usize = 0;
            while b < 16
                invariant
                    b <= 16,
                    numbers == block_ints((**levels)@),
                    expected == Seq::new(16, |b: int| unscanned(numbers[b])),
                    forall|j: int|
                        0 <= j < b ==> wide_ints((#[trigger] blocks@[j])@) == expected[j] && within(
                            wide_ints(blocks@[j]@),
                            0x1000_0000_0000_0000,
                        ),
                decreases 16 - b,
            {
                let mut block: [i64; 16] = [0i64; 16];
                let mut p: usize = 0;
                while p < 16
                    invariant
                        p <= 16,
                        b < 16,
                        numbers == block_ints((**levels)@),
                        forall|j: int|
                            0 <= j < p ==> (#[trigger] block@[j]) == unscanned(numbers[b as int])[j]
                                && -0x8000_0000 <= block@[j] <= 0x8000_0000,
                    decreases 16 - p,
                {
                    let position: usize = scan_4x4(p);
                    block[p] = levels[b][position] as i64;
                    p = p + 1;
                }
                assert(wide_ints(block@) =~= unscanned(numbers[b as int]));
                blocks[b] = block;
                b = b + 1;
            }
            assert(Seq::new(16, |b: int| wide_ints(blocks@[b]@)) =~= expected);
            correct_16(prediction, &blocks)
        },
        InterLumaResidual::EightByEight(levels) => {
            let matrix: [u8; 64] = scaling_matrix.eight_by_eight(false);
            let ghost numbers = quarter_ints((**levels)@);
            let ghost expected = Seq::new(
                4,
                |b: int| residual_8x8(numbers[b], qp as int, matrix@),
            );
            let mut blocks: [[i64; 64]; 4] = [[0i64; 64]; 4];
            let mut b: usize = 0;
            while b < 4
                invariant
                    b <= 4,
                    quantizer(qp as int),
                    numbers == quarter_ints((**levels)@),
                    expected == Seq::new(
                        4,
                        |b: int| residual_8x8(numbers[b], qp as int, matrix@),
                    ),
                    forall|j: int|
                        0 <= j < b ==> wide_ints((#[trigger] blocks@[j])@) == expected[j] && within(
                            wide_ints(blocks@[j]@),
                            0x1000_0000_0000_0000,
                        ),
                decreases 4 - b,
            {
                blocks[b] = inverse_quantized_transform_8x8(&levels[b], qp, &matrix);
                b = b + 1;
            }
            assert(Seq::new(4, |b: int| wide_ints(blocks@[b]@)) =~= expected);
            correct_4(prediction, &blocks)
        },
    }
}

/// Reconstructs the luma samples of an inter macroblock.
pub fn reconstruct_inter_luma(
    destination: &mut [u8],
    stride: usize,
    macroblock_x: usize,
    macroblock_y: usize,
    prediction: &[u8],
    levels: &InterLumaResidual,
    qp: i32,
    scaling_matrix: ScalingMatrixPreset,
)
    requires
        region_inside(
            old(destination)@.len() as int,
            stride as int,
            macroblock_x * 16,
            macroblock_y * 16,
            16,
            16,
        ),
        macroblock_x * 16 <= usize::MAX,
        macroblock_y * 16 <= usize::MAX,
        prediction@.len() == 256,
        quantizer(qp as int),
    ensures
        final(destination)@.len() == old(destination)@.len(),
        final(destination)@ == with_region(
            old(destination)@,
            stride as int,
            macroblock_x * 16,
            macroblock_y * 16,
            16,
            16,
            corrected(prediction@, inter_residual(levels@, qp as int, scaling_matrix)),
        ),
{
    let samples: Vec<u8> = reconstruct_inter_luma_prediction(
        prediction,
        levels,
        qp,
        scaling_matrix,
    );
    place_block(
        destination,
        stride,
        macroblock_x * 16,
        macroblock_y * 16,
        16,
        samples.as_slice(),
    );
}

/// The squared distances between the source and reconstructed samples of a macroblock.
pub open spec fn squared_errors(
    source: Seq<u8>,
    stride: int,
    x: int,
    y: int,
    samples: Seq<u8>,
) -> Seq<int> {
    Seq::new(
        256,
        |i: int|
            {
                let d = source[(y + i / 16) * stride + (x + i % 16)] - samples[i];
                d * d
            },
    )
}

/// How many of the first `count` numbers are not zero.
pub open spec fn nonzero_count(values: Seq<int>, count: int) -> int
    decreases count,
{
    if count <= 0 {
        0
    } else {
        nonzero_count(values, count - 1) + unit(values[count - 1] != 0)
    }
}

/// How many numbers in the first `count` lists are not zero.
pub open spec fn nonzero_total(blocks: Seq<Seq<int>>, count: int) -> int
    decreases count,
{
    if count <= 0 {
        0
    } else {
        nonzero_total(blocks, count - 1) + nonzero_count(
            blocks[count - 1],
            blocks[count - 1].len() as int,
        )
    }
}

/// How many levels of a macroblock are not zero.
pub open spec fn coded_levels(levels: LumaLevels) -> int {
    match levels {
        LumaLevels::FourByFour(blocks) => nonzero_total(blocks, blocks.len() as int),
        LumaLevels::BypassFourByFour(blocks) => nonzero_total(blocks, blocks.len() as int),
        LumaLevels::EightByEight(blocks) => nonzero_total(blocks, blocks.len() as int),
    }
}

/// What coding a luma residual costs: the squared error and a price for each level.
pub open spec fn residual_cost(
    source: Seq<u8>,
    stride: int,
    x: int,
    y: int,
    prediction: Seq<u8>,
    levels: LumaLevels,
    qp: int,
    preset: ScalingMatrixPreset,
) -> int {
    sum_of(
        squared_errors(
            source,
            stride,
            x,
            y,
            corrected(prediction, inter_residual(levels, qp, preset)),
        ),
        256,
    ) + coded_levels(levels) * ((qp + 1) * (qp + 1))
}

/// Counts the numbers that are not zero.
pub fn count_nonzero(values: &[i32]) -> (count: u64)
    ensures
        count == nonzero_count(ints(values@), values@.len() as int),
        count <= values@.len(),
{
    let mut count: u64 = 0;
    let mut i: usize = 0;
    while i < values.len()
        invariant
            i <= values@.len(),
            count <= i,
            count == nonzero_count(ints(values@), i as int),
        decreases values@.len() - i,
    {
        assert(ints(values@)[i as int] == values@[i as int]);
        if values[i] != 0 {
            count = count + 1;
        }
        i = i + 1;
    }
    count
}

/// Counts the levels of a macroblock that are not zero.
fn count_levels(levels: &InterLumaResidual) -> (count: u64)
    ensures
        count == coded_levels(levels@),
        count <= 256,
{
    match levels {
        InterLumaResidual::FourByFour(levels) => count_block_levels(levels),
        InterLumaResidual::BypassFourByFour(levels) => count_block_levels(levels),
        InterLumaResidual::EightByEight(levels) => {
            let ghost blocks = quarter_ints((**levels)@);
            let mut count: u64 = 0;
            let mut b: usize = 0;
            while b < 4
                invariant
                    b <= 4,
                    blocks == quarter_ints((**levels)@),
                    count <= 64 * b,
                    count == nonzero_total(blocks, b as int),
                decreases 4 - b,
            {
                assert(blocks[b as int] == ints((**levels)@[b as int]@));
                count = count + count_nonzero(levels[b].as_slice());
                b = b + 1;
            }
            count
        },
    }
}

fn count_block_levels(levels: &[[i32; 16]; 16]) -> (count: u64)
    ensures
        count == nonzero_total(block_ints(levels@), 16),
        count <= 256,
{
    let ghost blocks = block_ints(levels@);
    let mut count: u64 = 0;
    let mut b: usize = 0;
    while b < 16
        invariant
            b <= 16,
            blocks == block_ints(levels@),
            count <= 16 * b,
            count == nonzero_total(blocks, b as int),
        decreases 16 - b,
    {
        assert(blocks[b as int] == ints(levels@[b as int]@));
        count = count + count_nonzero(levels[b].as_slice());
        b = b + 1;
    }
    count
}

/// What coding a luma residual costs: the squared error and a price for each level.
pub fn inter_luma_residual_cost(
    source: &[u8],
    stride: usize,
    macroblock_x: usize,
    macroblock_y: usize,
    prediction: &[u8],
    levels: &InterLumaResidual,
    qp: i32,
    scaling_matrix: ScalingMatrixPreset,
) -> (cost: u64)
    requires
        region_inside(
            source@.len() as int,
            stride as int,
            macroblock_x * 16,
            macroblock_y * 16,
            16,
            16,
        ),
        macroblock_x * 16 <= usize::MAX,
        macroblock_y * 16 <= usize::MAX,
        prediction@.len() == 256,
        quantizer(qp as int),
    ensures
        cost == residual_cost(
            source@,
            stride as int,
            macroblock_x * 16,
            macroblock_y * 16,
            prediction@,
            levels@,
            qp as int,
            scaling_matrix,
        ),
{
    let samples: Vec<u8> = reconstruct_inter_luma_prediction(
        prediction,
        levels,
        qp,
        scaling_matrix,
    );
    let x: usize = macroblock_x * 16;
    let y: usize = macroblock_y * 16;
    let ghost errors = squared_errors(source@, stride as int, x as int, y as int, samples@);
    let mut distortion: u64 = 0;
    let mut i: usize = 0;
    while i < 256
        invariant
            i <= 256,
            samples@.len() == 256,
            region_inside(source@.len() as int, stride as int, x as int, y as int, 16, 16),
            errors == squared_errors(source@, stride as int, x as int, y as int, samples@),
            distortion == sum_of(errors, i as int),
            distortion <= 65025 * i,
        decreases 256 - i,
    {
        let sample: u8 = sample_in(source, stride, x, y, 16, 16, i % 16, i / 16);
        let difference: i64 = sample as i64 - samples[i] as i64;
        assert(0 <= difference * difference <= 65025) by (nonlinear_arith)
            requires
                -255 <= difference <= 255,
        ;
        distortion = distortion + (difference * difference) as u64;
        i = i + 1;
    }
    let count: u64 = count_levels(levels);
    let step: u64 = (qp + 1) as u64;
    assert(0 <= step * step <= 2704) by (nonlinear_arith)
        requires
            1 <= step <= 52,
    ;
    let lambda: u64 = step * step;
    assert(0 <= count * lambda <= 256 * 2704) by (nonlinear_arith)
        requires
            0 <= count <= 256,
            0 <= lambda <= 2704,
    ;
    distortion + count * lambda
}

/// The luma levels chosen for an inter macroblock: lossless where the transform is bypassed, and
/// otherwise the cheaper of the allowed transforms, the larger one on a tie.
pub open spec fn selected_levels(
    source: Seq<u8>,
    stride: int,
    x: int,
    y: int,
    prediction: Seq<u8>,
    qp: int,
    transform_8x8_allowed: bool,
    transform_bypass: bool,
    preset: ScalingMatrixPreset,
) -> LumaLevels {
    let small = LumaLevels::FourByFour(
        inter_levels(source, stride, x, y, prediction, qp, matrix_4x4(preset, false)),
    );
    let large = LumaLevels::EightByEight(
        inter_levels_8x8(source, stride, x, y, prediction, qp, matrix_8x8(preset, false)),
    );
    if transform_bypass {
        LumaLevels::BypassFourByFour(bypass_levels(source, stride, x, y, prediction))
    } else if !transform_8x8_allowed {
        small
    } else if residual_cost(source, stride, x, y, prediction, large, qp, preset) <= residual_cost(
        source,
        stride,
        x,
        y,
        prediction,
        small,
        qp,
        preset,
    ) {
        large
    } else {
        small
    }
}

/// Chooses the luma levels of an inter macroblock.
pub fn select_inter_luma_residual(
    source: &[u8],
    stride: usize,
    macroblock_x: usize,
    macroblock_y: usize,
    prediction: &[u8],
    qp: i32,
    transform_8x8_allowed: bool,
    transform_bypass: bool,
    scaling_matrix: ScalingMatrixPreset,
) -> (levels: InterLumaResidual)
    requires
        region_inside(
            source@.len() as int,
            stride as int,
            macroblock_x * 16,
            macroblock_y * 16,
            16,
            16,
        ),
        macroblock_x * 16 + 16 <= usize::MAX,
        macroblock_y * 16 + 16 <= usize::MAX,
        prediction@.len() == 256,
        quantizer(qp as int),
    ensures
        levels@ == selected_levels(
            source@,
            stride as int,
            macroblock_x * 16,
            macroblock_y * 16,
            prediction@,
            qp as int,
            transform_8x8_allowed,
            transform_bypass,
            scaling_matrix,
        ),
        levels.fits(),
{
    if transform_bypass {
        let plain: [[i32; 16]; 16] = quantize_inter_luma_residual_bypass(
            source,
            stride,
            macroblock_x,
            macroblock_y,
            prediction,
        );
        return InterLumaResidual::BypassFourByFour(Box::new(plain));
    }
    let small_matrix: [u8; 16] = scaling_matrix.four_by_four(false);
    let small_levels: [[i32; 16]; 16] = quantize_inter_luma_residual(
        source,
        stride,
        macroblock_x,
        macroblock_y,
        prediction,
        qp,
        &small_matrix,
    );
    let small = InterLumaResidual::FourByFour(Box::new(small_levels));
    if !transform_8x8_allowed {
        return small;
    }
    let large_matrix: [u8; 64] = scaling_matrix.eight_by_eight(false);
    let large_levels: [[i32; 64]; 4] = quantize_inter_luma_residual_8x8(
        source,
        stride,
        macroblock_x,
        macroblock_y,
        prediction,
        qp,
        &large_matrix,
    );
    let large = InterLumaResidual::EightByEight(Box::new(large_levels));
    let small_cost: u64 = inter_luma_residual_cost(
        source,
        stride,
        macroblock_x,
        macroblock_y,
        prediction,
        &small,
        qp,
        scaling_matrix,
    );
    let large_cost: u64 = inter_luma_residual_cost(
        source,
        stride,
        macroblock_x,
        macroblock_y,
        prediction,
        &large,
        qp,
        scaling_matrix,
    );
    if large_cost <= small_cost {
        large
    } else {
        small
    }
}

/// Lossless luma levels give the source samples back, whatever the prediction was.
pub proof fn law_bypass_luma_lossless(
    source: Seq<u8>,
    stride: int,
    x: int,
    y: int,
    prediction: Seq<u8>,
    qp: int,
    preset: ScalingMatrixPreset,
)
    requires
        prediction.len() == 256,
    ensures
        corrected(
            prediction,
            inter_residual(
                LumaLevels::BypassFourByFour(bypass_levels(source, stride, x, y, prediction)),
                qp,
                preset,
            ),
        ) == region(source, stride, x, y, 16, 16),
{
    let levels = bypass_levels(source, stride, x, y, prediction);
    let residual = inter_residual(LumaLevels::BypassFourByFour(levels), qp, preset);
    law_scan_order(4);
    assert forall|i: int| 0 <= i < 256 implies corrected(prediction, residual)[i]
        == #[trigger] region(source, stride, x, y, 16, 16)[i] by {
        let column = i % 16;
        let row = i / 16;
        let block = block_at(column / 4, row / 4);
        let place = row % 4 * 4 + column % 4;
        law_block_order(block, column / 4, row / 4);
        assert(i % 16 / 4 == column / 4 && i / 16 / 4 == row / 4 && i / 16 % 4 == row % 4 && i % 4
            == column % 4);
        assert(zig_zag(4, scan(4, place)) == place);
        let parts = block_difference(source, stride, x, y, prediction, block);
        assert(place / 4 == row % 4 && place % 4 == column % 4);
        assert(block_column(block) * 4 + place % 4 == column);
        assert(block_row(block) * 4 + place / 4 == row);
        assert(residual[i] == parts[place]);
        assert(row * 16 + column == i);
    }
    assert(corrected(prediction, residual) =~= region(source, stride, x, y, 16, 16));
}

/// Lossless chroma levels give the source samples back, whatever the prediction was.
pub proof fn law_bypass_chroma_lossless(
    source: Seq<u8>,
    stride: int,
    x: int,
    y: int,
    prediction: Seq<u8>,
    qp: int,
    intra_mode: Option<u8>,
    matrix: Seq<u8>,
)
    requires
        prediction.len() == 64,
    ensures
        corrected(
            prediction,
            chroma_residual(
                chroma_levels(source, stride, x, y, prediction, qp, true, intra_mode, matrix),
                qp,
                true,
                intra_mode,
                matrix,
            ),
        ) == region(source, stride, x, y, 8, 8),
{
    let levels = chroma_levels(source, stride, x, y, prediction, qp, true, intra_mode, matrix);
    let kind = chroma_difference(intra_mode);
    let block = difference(source, stride, x, y, prediction, 8, 0, 0, 8);
    let coded = differences(block, 8, kind);
    law_scan_order(4);
    assert forall|i: int| 0 <= i < 64 implies #[trigger] chroma_coded_block(levels)[i]
        == coded[i] by {
        let b = i / 32 * 2 + i % 8 / 4;
        let place = i / 8 % 4 * 4 + i % 4;
        let position = scan(4, place);
        assert(zig_zag(4, position) == place);
        assert(chroma_place(b, position) == i) by {
            assert(place / 4 == i / 8 % 4 && place % 4 == i % 4);
            assert(b / 2 == i / 32 && b % 2 == i % 8 / 4);
        }
        if position == 0 {
            assert(levels.dc[b] == coded[chroma_place(b, 0)]);
        } else {
            assert(levels.ac[b][position - 1] == coded[chroma_place(b, position)]);
        }
    }
    assert(chroma_coded_block(levels) =~= coded);
    let result = chroma_residual(levels, qp, true, intra_mode, matrix);
    assert forall|i: int| 0 <= i < 64 implies corrected(prediction, result)[i] == #[trigger] region(
        source,
        stride,
        x,
        y,
        8,
        8,
    )[i] by {
        law_differences_summed(block, 8, kind, i);
        assert(result[i] == block[i]);
    }
    assert(corrected(prediction, result) =~= region(source, stride, x, y, 8, 8));
}

} // verus!
