//! Quantization and rescaling of transform coefficients.

use vstd::prelude::*;

use crate::bits::power_of_two;
use crate::math::{floor_div, lemma_powers_of_two, magnitude, two_to};
use crate::quant_tables::{
    category, coefficient_category, coefficient_category_8x8, lemma_multiplier, multiplier,
    multiplier_4x4, multiplier_8x8, norm_adjust, norm_adjust_4x4, norm_adjust_8x8,
};

verus! {

/// The step of a quantizer for the coefficient at a place of a block of side 4 or 8.
pub open spec fn quantizer_step(side: int, qp: int, place: int, matrix: Seq<u8>) -> int {
    power_of_two(
        ((if side == 4 {
            15int
        } else {
            16int
        }) + qp / 6) as nat,
    ) * matrix[place]
}

/// The level of a coefficient without its sign.
pub open spec fn quantized_size(
    side: int,
    coefficient: int,
    qp: int,
    place: int,
    matrix: Seq<u8>,
) -> int {
    let step = quantizer_step(side, qp, place, matrix);
    (magnitude(coefficient) * multiplier(side, qp % 6, category(side, place)) * 16 + step / 3)
        / step
}

/// The level of a coefficient.
pub open spec fn quantized(
    side: int,
    coefficient: int,
    qp: int,
    place: int,
    matrix: Seq<u8>,
) -> int {
    if coefficient < 0 {
        -quantized_size(side, coefficient, qp, place, matrix)
    } else {
        quantized_size(side, coefficient, qp, place, matrix)
    }
}

/// The factor by which levels at a place are scaled.
pub open spec fn level_scale(side: int, qp: int, place: int, matrix: Seq<u8>) -> int {
    norm_adjust(side, qp % 6, category(side, place)) * matrix[place]
}

/// A scaled value brought to the exponent of a quantizer.
pub open spec fn descaled(value: int, qp: int, base: int) -> int {
    let shift = qp / 6;
    if shift >= base {
        value * power_of_two((shift - base) as nat)
    } else {
        (value + power_of_two((base - 1 - shift) as nat)) / power_of_two((base - shift) as nat) as int
    }
}

/// The coefficient that a level stands for.
pub open spec fn rescaled(side: int, level: int, qp: int, place: int, matrix: Seq<u8>) -> int {
    descaled(
        level * level_scale(side, qp, place, matrix),
        qp,
        if side == 4 {
            4
        } else {
            6
        },
    )
}

/// Whether a quantizer exists.
pub open spec fn quantizer(qp: int) -> bool {
    0 <= qp <= 51
}

/// Whether a scaling matrix divides by nothing that is zero.
pub open spec fn scaling_matrix(matrix: Seq<u8>, count: int) -> bool {
    matrix.len() == count && forall|i: int| 0 <= i < count ==> #[trigger] matrix[i] >= 1
}

proof fn lemma_step(side: int, qp: int, place: int, matrix: Seq<u8>)
    requires
        side == 4 || side == 8,
        quantizer(qp),
        scaling_matrix(matrix, side * side),
        0 <= place < side * side,
    ensures
        0x8000 <= quantizer_step(side, qp, place, matrix) <= 0x1_0000_0000,
{
    let base: int = if side == 4 {
        15
    } else {
        16
    };
    let power = power_of_two((base + qp / 6) as nat);
    let entry = matrix[place];
    crate::bits::lemma_power_monotonic(15, (base + qp / 6) as nat);
    crate::bits::lemma_power_monotonic((base + qp / 6) as nat, 24);
    lemma_powers_of_two();
    assert(0x8000 <= power * entry <= 0x1_0000_0000) by (nonlinear_arith)
        requires
            0x8000 <= power <= 0x100_0000,
            1 <= entry <= 255,
    ;
}

proof fn lemma_category(side: int, place: int)
    requires
        side == 4 || side == 8,
        0 <= place < side * side,
    ensures
        0 <= category(side, place) < if side == 4 {
            3int
        } else {
            6int
        },
{
}

/// Coefficients of moderate size have levels of moderate size.
pub proof fn lemma_quantized_bound(
    side: int,
    coefficient: int,
    qp: int,
    place: int,
    matrix: Seq<u8>,
)
    requires
        side == 4 || side == 8,
        quantizer(qp),
        scaling_matrix(matrix, side * side),
        0 <= place < side * side,
        magnitude(coefficient) <= 0x1_0000,
    ensures
        0 <= quantized_size(side, coefficient, qp, place, matrix) <= 0x10_0000,
{
    lemma_step(side, qp, place, matrix);
    lemma_category(side, place);
    lemma_multiplier(side, qp % 6, category(side, place));
    let step = quantizer_step(side, qp, place, matrix);
    let factor = multiplier(side, qp % 6, category(side, place));
    let size = magnitude(coefficient);
    assert(0 <= size * factor * 16 <= 0x1_0000 * 21_000 * 16) by (nonlinear_arith)
        requires
            0 <= size <= 0x1_0000,
            0 <= factor <= 21_000,
    ;
    let top = size * factor * 16 + step / 3;
    assert(0 <= top / step <= 0x10_0000) by (nonlinear_arith)
        requires
            0 <= top <= 0x1_0000 * 21_000 * 16 + step / 3,
            0x8000 <= step,
    ;
}

/// Quantizes by an exact step.
fn quantize_with(size: i64, factor: i64, step: i64) -> (level: i64)
    requires
        0 <= size <= 0x8000_0000,
        0 <= factor <= 21_000,
        0x8000 <= step <= 0x1_0000_0000,
    ensures
        level == (size * factor * 16 + step as int / 3) / step as int,
        0 <= level <= 0x1000_0000_0000_0000,
{
    assert(0 <= size * factor <= 0x8000_0000 * 21_000) by (nonlinear_arith)
        requires
            0 <= size <= 0x8000_0000,
            0 <= factor <= 21_000,
    ;
    let top: i64 = size * factor * 16 + step / 3;
    assert(0 <= top as int / step as int <= top) by (nonlinear_arith)
        requires
            0 <= top,
            0x8000 <= step,
    ;
    top / step
}

/// Quantizes a coefficient of a four-by-four block.
pub fn quantize_coefficient(
    coefficient: i32,
    qp: i32,
    row: usize,
    column: usize,
    scaling_list: &[u8; 16],
) -> (level: i32)
    requires
        quantizer(qp as int),
        row < 4,
        column < 4,
        scaling_matrix(scaling_list@, 16),
        quantized_size(4, coefficient as int, qp as int, row * 4 + column, scaling_list@)
            <= i32::MAX,
    ensures
        level == quantized(4, coefficient as int, qp as int, row * 4 + column, scaling_list@),
{
    let kind: usize = coefficient_category(row, column);
    let factor: i64 = multiplier_4x4((qp % 6) as usize, kind);
    let entry: u8 = scaling_list[row * 4 + column];
    proof {
        lemma_step(4, qp as int, row * 4 + column, scaling_list@);
    }
    let power: i64 = two_to((15 + qp / 6) as u8) as i64;
    assert(power * entry == quantizer_step(4, qp as int, row * 4 + column, scaling_list@));
    let step: i64 = power * entry as i64;
    let size: i64 = if coefficient < 0 {
        -(coefficient as i64)
    } else {
        coefficient as i64
    };
    let level: i32 = quantize_with(size, factor, step) as i32;
    if coefficient < 0 {
        -level
    } else {
        level
    }
}

/// Quantizes a coefficient of an eight-by-eight block.
pub fn quantize_coefficient_8x8(
    coefficient: i32,
    qp: i32,
    row: usize,
    column: usize,
    scaling_list: &[u8; 64],
) -> (level: i32)
    requires
        quantizer(qp as int),
        row < 8,
        column < 8,
        scaling_matrix(scaling_list@, 64),
        quantized_size(8, coefficient as int, qp as int, row * 8 + column, scaling_list@)
            <= i32::MAX,
    ensures
        level == quantized(8, coefficient as int, qp as int, row * 8 + column, scaling_list@),
{
    let kind: usize = coefficient_category_8x8(row, column);
    let factor: i64 = multiplier_8x8((qp % 6) as usize, kind);
    let entry: u8 = scaling_list[row * 8 + column];
    proof {
        lemma_step(8, qp as int, row * 8 + column, scaling_list@);
    }
    let power: i64 = two_to((16 + qp / 6) as u8) as i64;
    assert(power * entry == quantizer_step(8, qp as int, row * 8 + column, scaling_list@));
    let step: i64 = power * entry as i64;
    let size: i64 = if coefficient < 0 {
        -(coefficient as i64)
    } else {
        coefficient as i64
    };
    let level: i32 = quantize_with(size, factor, step) as i32;
    if coefficient < 0 {
        -level
    } else {
        level
    }
}

/// The factor by which levels of a four-by-four block are scaled.
pub fn level_scale_4x4(qp: i32, row: usize, column: usize, scaling_list: &[u8; 16]) -> (scale: i32)
    requires
        quantizer(qp as int),
        row < 4,
        column < 4,
    ensures
        scale == level_scale(4, qp as int, row * 4 + column, scaling_list@),
        0 <= scale <= 0x2000,
        scaling_list@[row * 4 + column] >= 1 ==> scale >= 10,
{
    let kind: usize = coefficient_category(row, column);
    let factor: i64 = norm_adjust_4x4((qp % 6) as usize, kind);
    let entry: u8 = scaling_list[row * 4 + column];
    assert(0 <= factor * entry <= 0x2000 && (entry >= 1 ==> factor * entry >= 10))
        by (nonlinear_arith)
        requires
            10 <= factor <= 29,
            0 <= entry <= 255,
    ;
    (factor * entry as i64) as i32
}

/// The factor by which levels of an eight-by-eight block are scaled.
pub fn level_scale_8x8(qp: i32, row: usize, column: usize, scaling_list: &[u8; 64]) -> (scale: i32)
    requires
        quantizer(qp as int),
        row < 8,
        column < 8,
    ensures
        scale == level_scale(8, qp as int, row * 8 + column, scaling_list@),
        0 <= scale <= 0x4000,
{
    let kind: usize = coefficient_category_8x8(row, column);
    let factor: i64 = norm_adjust_8x8((qp % 6) as usize, kind);
    let entry: u8 = scaling_list[row * 8 + column];
    assert(0 <= factor * entry <= 0x4000) by (nonlinear_arith)
        requires
            10 <= factor <= 58,
            0 <= entry <= 255,
    ;
    (factor * entry as i64) as i32
}

/// Brings a scaled value to the exponent of a quantizer.
pub fn descale(value: i64, qp: i32, base: i32) -> (result: i64)
    requires
        quantizer(qp as int),
        4 <= base <= 6,
        -0x4_0000_0000_0000 <= value <= 0x4_0000_0000_0000,
    ensures
        result == descaled(value as int, qp as int, base as int),
        -16 * magnitude(value as int) - 32 <= result <= 16 * magnitude(value as int) + 32,
{
    let shift: i32 = qp / 6;
    proof {
        lemma_powers_of_two();
    }
    if shift >= base {
        let power: i64 = two_to((shift - base) as u8) as i64;
        assert(power == 1 || power == 2 || power == 4 || power == 8 || power == 16) by {
            let d = shift - base;
            assert(d == 0 || d == 1 || d == 2 || d == 3 || d == 4);
        }
        assert(-16 * magnitude(value as int) <= value * power <= 16 * magnitude(value as int))
            by (nonlinear_arith)
            requires
                1 <= power <= 16,
        ;
        value * power
    } else {
        let round: i64 = two_to((base - 1 - shift) as u8) as i64;
        let power: i64 = two_to((base - shift) as u8) as i64;
        assert(1 <= round <= 32 && 2 <= power <= 64) by {
            let d = base - shift;
            assert(d == 1 || d == 2 || d == 3 || d == 4 || d == 5 || d == 6);
        }
        floor_div(value + round, power)
    }
}

/// The coefficient that a level of a four-by-four block stands for.
pub fn inverse_quantized_coefficient(
    level: i32,
    qp: i32,
    row: usize,
    column: usize,
    scaling_list: &[u8; 16],
) -> (value: i64)
    requires
        quantizer(qp as int),
        row < 4,
        column < 4,
    ensures
        value == rescaled(4, level as int, qp as int, row * 4 + column, scaling_list@),
        -0x2_0000_0000_0000 <= value <= 0x2_0000_0000_0000,
{
    let scale: i64 = level_scale_4x4(qp, row, column, scaling_list) as i64;
    assert(-0x1000_0000_0000 <= level * scale <= 0x1000_0000_0000) by (nonlinear_arith)
        requires
            -0x8000_0000 <= level <= 0x7fff_ffff,
            0 <= scale <= 0x2000,
    ;
    descale(level as i64 * scale, qp, 4)
}

/// The coefficient that a level of an eight-by-eight block stands for.
pub fn inverse_quantized_coefficient_8x8(
    level: i32,
    qp: i32,
    row: usize,
    column: usize,
    scaling_list: &[u8; 64],
) -> (value: i64)
    requires
        quantizer(qp as int),
        row < 8,
        column < 8,
    ensures
        value == rescaled(8, level as int, qp as int, row * 8 + column, scaling_list@),
        -0x4_0000_0000_0000 <= value <= 0x4_0000_0000_0000,
{
    let scale: i64 = level_scale_8x8(qp, row, column, scaling_list) as i64;
    assert(-0x2000_0000_0000 <= level * scale <= 0x2000_0000_0000) by (nonlinear_arith)
        requires
            -0x8000_0000 <= level <= 0x7fff_ffff,
            0 <= scale <= 0x4000,
    ;
    descale(level as i64 * scale, qp, 6)
}

} // verus!
