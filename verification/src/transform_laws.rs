//! What holds of transforms and of quantization.

use vstd::prelude::*;

use crate::bits::power_of_two;
use crate::math::lemma_powers_of_two;
use crate::quant_tables::{
    category, multiplier, norm_adjust, zig_zag, MULTIPLIERS_4X4, MULTIPLIERS_8X8, ZIG_ZAG_4X4,
    ZIG_ZAG_8X8,
};
use crate::quantize::{quantized, quantizer, quantizer_step, rescaled, scaling_matrix};
use crate::scaling::{
    matrix_4x4, matrix_8x8, ScalingMatrixPreset, FLAT_8X8, JVT_8X8_INTER, JVT_8X8_INTRA,
};
use crate::transform::{
    column_8, forward_8, hadamard, hadamard_block, hadamard_rows, inverse_4, inverse_8,
    inverse_block, inverse_block_8, inverse_rows, inverse_rows_8, row_8,
};

verus! {

/// The outputs of the plain transform are the sums with no, one, two, and three changes of sign.
pub proof fn law_changes_of_sign(a: int, b: int, c: int, d: int)
    ensures
        hadamard(a, b, c, d, 0) == (a + b) + (c + d),
        hadamard(a, b, c, d, 1) == (a + b) - (c + d),
        hadamard(a, b, c, d, 2) == (a + d) - (b + c),
        hadamard(a, b, c, d, 3) == (a + c) - (b + d),
{
}

/// The plain transform of four numbers undoes itself, up to a factor of four.
pub proof fn law_plain_undone(a: int, b: int, c: int, d: int)
    ensures
        ({
            let h = |k: int| hadamard(a, b, c, d, k);
            &&& hadamard(h(0), h(1), h(2), h(3), 0) == 4 * a
            &&& hadamard(h(0), h(1), h(2), h(3), 1) == 4 * b
            &&& hadamard(h(0), h(1), h(2), h(3), 2) == 4 * c
            &&& hadamard(h(0), h(1), h(2), h(3), 3) == 4 * d
        }),
{
}

/// The plain transform of a block undoes itself, up to a factor of sixteen.
pub proof fn law_plain_block_undone(block: Seq<int>, place: int)
    requires
        block.len() == 16,
        0 <= place < 16,
    ensures
        hadamard_block(hadamard_block(block))[place] == 16 * block[place],
{
    let rows = hadamard_rows(block);
    let first = hadamard_block(block);
    let again = hadamard_rows(first);
    let r = place / 4;
    let c = place % 4;
    assert forall|i: int, j: int| 0 <= i < 4 && 0 <= j < 4 implies #[trigger] rows[4 * i + j]
        == hadamard(block[4 * i], block[4 * i + 1], block[4 * i + 2], block[4 * i + 3], j) by {
        assert((4 * i + j) / 4 * 4 == 4 * i && (4 * i + j) % 4 == j);
    }
    assert forall|i: int, j: int| 0 <= i < 4 && 0 <= j < 4 implies #[trigger] first[4 * i + j]
        == hadamard(rows[j], rows[j + 4], rows[j + 8], rows[j + 12], i) by {
        assert((4 * i + j) / 4 == i && (4 * i + j) % 4 == j);
    }
    // The rows of the second pass: four times the transform of the columns alone.
    let columns = |i: int, j: int| hadamard(block[j], block[4 + j], block[8 + j], block[12 + j], i);
    assert forall|i: int, j: int| 0 <= i < 4 && 0 <= j < 4 implies #[trigger] again[4 * i + j] == 4
        * columns(i, j) by {
        lemma_pass(block, rows, first, i, j);
        assert((4 * i + j) / 4 * 4 == 4 * i && (4 * i + j) % 4 == j);
    }
    assert(4 * r + c == place);
    assert(again[c] == again[4 * 0int + c] && again[c + 4] == again[4 * 1 + c] && again[c + 8] == again[4
        * 2 + c] && again[c + 12] == again[4 * 3 + c]);
    law_plain_undone(block[c], block[4 + c], block[8 + c], block[12 + c]);
    assert(hadamard_block(first)[place] == hadamard(
        again[c],
        again[c + 4],
        again[c + 8],
        again[c + 12],
        r,
    ));
    assert(hadamard(again[c], again[c + 4], again[c + 8], again[c + 12], r) == 4 * hadamard(
        columns(0, c),
        columns(1, c),
        columns(2, c),
        columns(3, c),
        r,
    ));
}

proof fn lemma_pass(block: Seq<int>, rows: Seq<int>, first: Seq<int>, i: int, j: int)
    requires
        block.len() == 16,
        0 <= i < 4,
        0 <= j < 4,
        forall|i: int, j: int|
            0 <= i < 4 && 0 <= j < 4 ==> #[trigger] rows[4 * i + j] == hadamard(
                block[4 * i],
                block[4 * i + 1],
                block[4 * i + 2],
                block[4 * i + 3],
                j,
            ),
        forall|i: int, j: int|
            0 <= i < 4 && 0 <= j < 4 ==> #[trigger] first[4 * i + j] == hadamard(
                rows[j],
                rows[j + 4],
                rows[j + 8],
                rows[j + 12],
                i,
            ),
    ensures
        hadamard(first[4 * i], first[4 * i + 1], first[4 * i + 2], first[4 * i + 3], j) == 4
            * hadamard(block[j], block[4 + j], block[8 + j], block[12 + j], i),
{
    assert forall|m: int| 0 <= m < 4 implies hadamard(
        #[trigger] rows[4 * m + 0],
        rows[4 * m + 1],
        rows[4 * m + 2],
        rows[4 * m + 3],
        j,
    ) == 4 * block[4 * m + j] by {
        law_plain_undone(block[4 * m], block[4 * m + 1], block[4 * m + 2], block[4 * m + 3]);
        assert(rows[4 * m + 1] == hadamard(
            block[4 * m],
            block[4 * m + 1],
            block[4 * m + 2],
            block[4 * m + 3],
            1,
        ));
        assert(rows[4 * m + 2] == hadamard(
            block[4 * m],
            block[4 * m + 1],
            block[4 * m + 2],
            block[4 * m + 3],
            2,
        ));
        assert(rows[4 * m + 3] == hadamard(
            block[4 * m],
            block[4 * m + 1],
            block[4 * m + 2],
            block[4 * m + 3],
            3,
        ));
    }
    assert(first[4 * i + 0] == hadamard(rows[0], rows[4], rows[8], rows[12], i));
    assert(first[4 * i + 1] == hadamard(rows[1], rows[5], rows[9], rows[13], i));
    assert(first[4 * i + 2] == hadamard(rows[2], rows[6], rows[10], rows[14], i));
    assert(first[4 * i + 3] == hadamard(rows[3], rows[7], rows[11], rows[15], i));
    let inner = |m: int|
        hadamard(rows[4 * m + 0], rows[4 * m + 1], rows[4 * m + 2], rows[4 * m + 3], j);
    assert(inner(0) == 4 * block[0 + j]) by {
        assert(rows[4 * 0int + 0] == rows[0]);
    }
    assert(inner(1) == 4 * block[4 + j]) by {
        assert(rows[4 * 1int + 0] == rows[4]);
    }
    assert(inner(2) == 4 * block[8 + j]) by {
        assert(rows[4 * 2int + 0] == rows[8]);
    }
    assert(inner(3) == 4 * block[12 + j]) by {
        assert(rows[4 * 3int + 0] == rows[12]);
    }
    assert(hadamard(first[4 * i], first[4 * i + 1], first[4 * i + 2], first[4 * i + 3], j)
        == hadamard(inner(0), inner(1), inner(2), inner(3), i));
}

/// The four-point inverse transform adds up four waves: one that is even, one that goes from two
/// halves over one to the opposite, one that goes from one over the opposite back to one, and one
/// that goes from a half over the opposite of one.
pub proof fn law_four_waves(a: int, b: int, c: int, d: int)
    ensures
        inverse_4(a, 2 * b, c, 2 * d, 0) == a + 2 * b + c + d,
        inverse_4(a, 2 * b, c, 2 * d, 1) == a + b - c - 2 * d,
        inverse_4(a, 2 * b, c, 2 * d, 2) == a - b - c + 2 * d,
        inverse_4(a, 2 * b, c, 2 * d, 3) == a - 2 * b + c - d,
{
}

/// Halves are rounded down: what an odd coefficient adds is what the next smaller even one adds
/// where it is halved.
pub proof fn law_four_halves(a: int, b: int, c: int, d: int)
    ensures
        inverse_4(a, b, c, d, 0) + inverse_4(a, b, c, d, 3) == 2 * (a + c),
        inverse_4(a, b, c, d, 1) + inverse_4(a, b, c, d, 2) == 2 * (a - c),
        inverse_4(a, b, c, 2 * d + 1, 0) == inverse_4(a, b, c, 2 * d, 0),
        inverse_4(a, 2 * b + 1, c, d, 1) == inverse_4(a, 2 * b, c, d, 1),
{
}

/// The eight-point inverse transform adds up eight waves, of which the even ones are mirrored about
/// the middle and the odd ones are turned about it.
pub proof fn law_eight_waves(t: Seq<int>)
    requires
        t.len() == 8,
    ensures
        ({
            let x = Seq::new(8, |i: int| 8 * t[i]);
            let even = |k: int| 8 * t[0] + (if k == 0 || k == 3 {
                8 * t[4]
            } else {
                -8 * t[4]
            }) + (if k == 0 {
                8 * t[2] + 4 * t[6]
            } else if k == 1 {
                4 * t[2] - 8 * t[6]
            } else if k == 2 {
                -4 * t[2] + 8 * t[6]
            } else {
                -8 * t[2] - 4 * t[6]
            });
            let odd = |k: int|
                if k == 0 {
                    12 * t[1] + 10 * t[3] + 6 * t[5] + 3 * t[7]
                } else if k == 1 {
                    10 * t[1] - 3 * t[3] - 12 * t[5] - 6 * t[7]
                } else if k == 2 {
                    6 * t[1] - 12 * t[3] + 3 * t[5] + 10 * t[7]
                } else {
                    3 * t[1] - 6 * t[3] + 10 * t[5] - 12 * t[7]
                };
            forall|k: int|
                0 <= k < 4 ==> #[trigger] inverse_8(x, k) == even(k) + odd(k) && inverse_8(x, 7 - k)
                    == even(k) - odd(k)
        }),
{
}

/// The eight-point transform measures eight waves, of which the even ones are mirrored about the
/// middle and the odd ones are turned about it.
pub proof fn law_eight_measures(t: Seq<int>)
    requires
        t.len() == 8,
    ensures
        ({
            let x = Seq::new(8, |i: int| 8 * t[i]);
            let sum = |i: int| t[i] + t[7 - i];
            let difference = |i: int| t[i] - t[7 - i];
            &&& forward_8(x, 0) == 8 * (sum(0) + sum(1) + sum(2) + sum(3))
            &&& forward_8(x, 4) == 8 * (sum(0) - sum(1) - sum(2) + sum(3))
            &&& forward_8(x, 2) == 8 * sum(0) + 4 * sum(1) - 4 * sum(2) - 8 * sum(3)
            &&& forward_8(x, 6) == 4 * sum(0) - 8 * sum(1) + 8 * sum(2) - 4 * sum(3)
            &&& forward_8(x, 1) == 12 * difference(0) + 10 * difference(1) + 6 * difference(2) + 3
                * difference(3)
            &&& forward_8(x, 3) == 10 * difference(0) - 3 * difference(1) - 12 * difference(2) - 6
                * difference(3)
            &&& forward_8(x, 5) == 6 * difference(0) - 12 * difference(1) + 3 * difference(2) + 10
                * difference(3)
            &&& forward_8(x, 7) == 3 * difference(0) - 6 * difference(1) + 10 * difference(2) - 12
                * difference(3)
        }),
{
}

/// A block that has nothing but its first coefficient is even: each sample of the residual is a
/// sixty-fourth of it, rounded to the nearest.
pub proof fn law_even_block(mean: int, place: int)
    requires
        0 <= place < 64,
    ensures
        place < 16 ==> inverse_block(Seq::new(16, |i: int| if i == 0 { mean } else { 0int }))[place]
            == (mean + 32) / 64,
        inverse_block_8(Seq::new(64, |i: int| if i == 0 { mean } else { 0int }))[place] == (mean + 32)
            / 64,
{
    let block = Seq::new(16, |i: int| if i == 0 { mean } else { 0int });
    let rows = inverse_rows(block);
    if place < 16 {
        assert forall|i: int| 0 <= i < 16 implies #[trigger] rows[i] == if i < 4 {
            mean
        } else {
            0
        } by {}
    }
    let large = Seq::new(64, |i: int| if i == 0 { mean } else { 0int });
    let moved = large.update(0, large[0] + 32);
    let wide = inverse_rows_8(moved);
    assert forall|i: int| 0 <= i < 64 implies #[trigger] wide[i] == if i < 8 {
        mean + 32
    } else {
        0
    } by {
        let row = row_8(moved, i / 8);
        assert forall|c: int| 0 <= c < 8 implies #[trigger] row[c] == if i / 8 == 0 && c == 0 {
            mean + 32
        } else {
            0
        } by {
            assert(row[c] == moved[i / 8 * 8 + c]);
        }
    }
    let column = column_8(wide, place % 8);
    assert forall|r: int| 0 <= r < 8 implies #[trigger] column[r] == if r == 0 {
        mean + 32
    } else {
        0
    } by {
        assert(column[r] == wide[r * 8 + place % 8]);
    }
}

/// A coefficient and its opposite have opposite levels, no coefficient has level zero, and a larger
/// one no smaller level.
pub proof fn law_levels_in_order(
    side: int,
    smaller: int,
    larger: int,
    qp: int,
    place: int,
    matrix: Seq<u8>,
)
    requires
        side == 4 || side == 8,
        quantizer(qp),
        scaling_matrix(matrix, side * side),
        0 <= place < side * side,
        0 <= smaller <= larger,
    ensures
        quantized(side, -smaller, qp, place, matrix) == -quantized(
            side,
            smaller,
            qp,
            place,
            matrix,
        ),
        quantized(side, 0, qp, place, matrix) == 0,
        0 <= quantized(side, smaller, qp, place, matrix) <= quantized(
            side,
            larger,
            qp,
            place,
            matrix,
        ),
{
    let step = quantizer_step(side, qp, place, matrix);
    lemma_positive_step(side, qp, place, matrix);
    let factor = multiplier(side, qp % 6, category(side, place));
    lemma_multipliers(side, qp % 6, category(side, place));
    lemma_category(side, place);
    assert(0 * factor == 0) by (nonlinear_arith);
    assert(smaller * factor * 16 <= larger * factor * 16 && 0 <= smaller * factor * 16)
        by (nonlinear_arith)
        requires
            0 <= smaller <= larger,
            0 <= factor,
    ;
    vstd::arithmetic::div_mod::lemma_div_is_ordered(
        smaller * factor * 16 + step / 3,
        larger * factor * 16 + step / 3,
        step,
    );
    vstd::arithmetic::div_mod::lemma_div_pos_is_pos(smaller * factor * 16 + step / 3, step);
    assert((0 + step / 3) / step == 0) by (nonlinear_arith)
        requires
            step >= 1,
    ;
}

/// A level counts the steps that a coefficient has, where two thirds of a step count as a whole one.
/// Steps double with every six quantizers, and are in proportion to the entry of the matrix.
pub proof fn law_steps(side: int, coefficient: int, qp: int, place: int, matrix: Seq<u8>)
    requires
        side == 4 || side == 8,
        quantizer(qp),
        scaling_matrix(matrix, side * side),
        0 <= place < side * side,
        0 <= coefficient,
    ensures
        ({
            let step = quantizer_step(side, qp, place, matrix);
            let size = 16 * (coefficient * multiplier(side, qp % 6, category(side, place)));
            let level = quantized(side, coefficient, qp, place, matrix);
            &&& step * level <= size + step / 3 < step * level + step
            &&& step >= matrix[place]
            &&& qp < 6 && side == 4 ==> step == 32768 * matrix[place]
            &&& qp < 6 && side == 8 ==> step == 65536 * matrix[place]
            &&& qp >= 6 ==> step == 2 * quantizer_step(side, qp - 6, place, matrix)
        }),
{
    let step = quantizer_step(side, qp, place, matrix);
    lemma_positive_step(side, qp, place, matrix);
    lemma_powers_of_two();
    let factor = multiplier(side, qp % 6, category(side, place));
    assert(16 * (coefficient * factor) == coefficient * factor * 16) by (nonlinear_arith);
    vstd::arithmetic::div_mod::lemma_fundamental_div_mod(
        coefficient * factor * 16 + step / 3,
        step,
    );
    vstd::arithmetic::div_mod::lemma_mod_bound(coefficient * factor * 16 + step / 3, step);
    if qp >= 6 {
        let base: int = if side == 4 {
            15
        } else {
            16
        };
        assert(qp / 6 == (qp - 6) / 6 + 1);
        let low = power_of_two((base + (qp - 6) / 6) as nat);
        assert(power_of_two((base + qp / 6) as nat) == 2 * low);
        let entry = matrix[place] as int;
        assert(2 * low * entry == 2 * (low * entry)) by (nonlinear_arith);
    }
}

proof fn lemma_positive_step(side: int, qp: int, place: int, matrix: Seq<u8>)
    requires
        side == 4 || side == 8,
        quantizer(qp),
        scaling_matrix(matrix, side * side),
        0 <= place < side * side,
    ensures
        quantizer_step(side, qp, place, matrix) >= matrix[place] >= 1,
{
    let base: int = if side == 4 {
        15
    } else {
        16
    };
    let power = power_of_two((base + qp / 6) as nat);
    crate::bits::lemma_power_monotonic(0, (base + qp / 6) as nat);
    let entry = matrix[place] as int;
    assert(power * entry >= entry) by (nonlinear_arith)
        requires
            power >= 1,
            entry >= 1,
    ;
}

proof fn lemma_category(side: int, place: int)
    requires
        side == 4 || side == 8,
    ensures
        0 <= category(side, place) < if side == 4 {
            3int
        } else {
            6int
        },
{
}

proof fn lemma_multipliers(side: int, remainder: int, kind: int)
    requires
        side == 4 || side == 8,
        0 <= remainder < 6,
    ensures
        0 <= kind < (if side == 4 {
            3int
        } else {
            6int
        }) ==> multiplier(side, remainder, kind) > 0,
{
    reveal(multiplier);
    if side == 4 {
        assert(forall|r: int, c: int|
            0 <= r < 6 && 0 <= c < 3 ==> #[trigger] MULTIPLIERS_4X4[r][c] > 0);
    } else {
        assert(forall|r: int, c: int|
            0 <= r < 6 && 0 <= c < 6 ==> #[trigger] MULTIPLIERS_8X8[r][c] > 0);
    }
}

/// What is multiplied with when levels are found and what levels are multiplied with belong
/// together: their product is the same for all quantizers, up to rounding.
pub proof fn law_factors_belong_together(side: int, remainder: int, kind: int)
    requires
        side == 4 || side == 8,
        0 <= remainder < 6,
        0 <= kind < if side == 4 {
            3int
        } else {
            6int
        },
    ensures
        ({
            let product = multiplier(side, remainder, kind) * norm_adjust(side, remainder, kind);
            let middle: int = if side == 4 {
                if kind == 0 {
                    131_072
                } else if kind == 1 {
                    83_886
                } else {
                    104_858
                }
            } else if kind == 0 {
                262_144
            } else if kind == 1 {
                205_696
            } else if kind == 2 {
                671_089
            } else if kind == 3 {
                232_210
            } else if kind == 4 {
                419_430
            } else {
                371_535
            };
            middle - 30 <= product <= middle + 30
        }),
{
    reveal(multiplier);
    reveal(norm_adjust);
    let a = multiplier(side, remainder, kind);
    let b = norm_adjust(side, remainder, kind);
    if side == 4 {
        if kind == 0 {
            assert(131042 <= a * b <= 131102) by (nonlinear_arith)
                requires
                    a == 13107 && b == 10 || a == 11916 && b == 11 || a == 10082 && b == 13 || a == 9362 && b == 14 || a == 8192 && b == 16 || a == 7282 && b == 18,
            ;
        } else if kind == 1 {
            assert(83856 <= a * b <= 83916) by (nonlinear_arith)
                requires
                    a == 5243 && b == 16 || a == 4660 && b == 18 || a == 4194 && b == 20 || a == 3647 && b == 23 || a == 3355 && b == 25 || a == 2893 && b == 29,
            ;
        } else {
            assert(104828 <= a * b <= 104888) by (nonlinear_arith)
                requires
                    a == 8066 && b == 13 || a == 7490 && b == 14 || a == 6554 && b == 16 || a == 5825 && b == 18 || a == 5243 && b == 20 || a == 4559 && b == 23,
            ;
        }
    } else {
        if kind == 0 {
            assert(262114 <= a * b <= 262174) by (nonlinear_arith)
                requires
                    a == 13107 && b == 20 || a == 11916 && b == 22 || a == 10082 && b == 26 || a == 9362 && b == 28 || a == 8192 && b == 32 || a == 7282 && b == 36,
            ;
        } else if kind == 1 {
            assert(205666 <= a * b <= 205726) by (nonlinear_arith)
                requires
                    a == 11428 && b == 18 || a == 10826 && b == 19 || a == 8943 && b == 23 || a == 8228 && b == 25 || a == 7346 && b == 28 || a == 6428 && b == 32,
            ;
        } else if kind == 2 {
            assert(671059 <= a * b <= 671119) by (nonlinear_arith)
                requires
                    a == 20972 && b == 32 || a == 19174 && b == 35 || a == 15978 && b == 42 || a == 14913 && b == 45 || a == 13159 && b == 51 || a == 11570 && b == 58,
            ;
        } else if kind == 3 {
            assert(232180 <= a * b <= 232240) by (nonlinear_arith)
                requires
                    a == 12222 && b == 19 || a == 11058 && b == 21 || a == 9675 && b == 24 || a == 8931 && b == 26 || a == 7740 && b == 30 || a == 6830 && b == 34,
            ;
        } else if kind == 4 {
            assert(419400 <= a * b <= 419460) by (nonlinear_arith)
                requires
                    a == 16777 && b == 25 || a == 14980 && b == 28 || a == 12710 && b == 33 || a == 11984 && b == 35 || a == 10486 && b == 40 || a == 9118 && b == 46,
            ;
        } else {
            assert(371505 <= a * b <= 371565) by (nonlinear_arith)
                requires
                    a == 15481 && b == 24 || a == 14290 && b == 26 || a == 11985 && b == 31 || a == 11259 && b == 33 || a == 9777 && b == 38 || a == 8640 && b == 43,
            ;
        }
    }
}

/// The factors of the first coefficient grow by a sixth of a doubling from quantizer to quantizer.
pub proof fn law_first_factors(remainder: int)
    requires
        0 <= remainder < 6,
    ensures
        ({
            let four = norm_adjust(4, remainder, 0);
            &&& remainder == 0 ==> four == 10
            &&& remainder == 1 ==> four == 11
            &&& remainder == 2 ==> four == 13
            &&& remainder == 3 ==> four == 14
            &&& remainder == 4 ==> four == 16
            &&& remainder == 5 ==> four == 18
            &&& norm_adjust(8, remainder, 0) == 2 * four
        }),
{
    reveal(norm_adjust);
}

/// With an even matrix a level stands for a coefficient that is in proportion to it and doubles with
/// every six quantizers.
pub proof fn law_even_scaling(level: int, qp: int, place: int, matrix: Seq<u8>)
    requires
        quantizer(qp),
        0 <= place < 16,
        matrix[place] == 16,
    ensures
        rescaled(4, level, qp, place, matrix) == level * norm_adjust(4, qp % 6, category(4, place))
            * power_of_two((qp / 6) as nat),
{
    lemma_powers_of_two();
    let norm = norm_adjust(4, qp % 6, category(4, place));
    let shift = qp / 6;
    let value = level * norm;
    assert(level * (norm * 16) == 16 * value) by (nonlinear_arith)
        requires
            value == level * norm,
    ;
    if shift >= 4 {
        assert(power_of_two(shift as nat) == 16 * power_of_two((shift - 4) as nat)) by {
            reveal_with_fuel(power_of_two, 6);
        }
        let rest = power_of_two((shift - 4) as nat) as int;
        assert(16 * value * rest == value * (16 * rest)) by (nonlinear_arith);
    } else if shift == 0 {
        assert((16 * value + 8) / 16 == value);
    } else if shift == 1 {
        assert((16 * value + 4) / 8 == value * 2);
    } else if shift == 2 {
        assert((16 * value + 2) / 4 == value * 4);
    } else {
        assert((16 * value + 1) / 2 == value * 8);
    }
}

/// Coefficients are scanned from the first one along diagonals, down to the left and up to the right
/// in turn.
pub proof fn law_zig_zag(side: int, position: int)
    requires
        side == 4 || side == 8,
        0 <= position < side * side - 1,
    ensures
        ({
            let row = |p: int| zig_zag(side, p) / side;
            let column = |p: int| zig_zag(side, p) % side;
            let r = row(position);
            let c = column(position);
            &&& zig_zag(side, 0) == 0 && zig_zag(side, 1) == 1
            &&& (r + c) % 2 == 1 && r < side - 1 && c > 0 ==> row(position + 1) == r + 1 && column(
                position + 1,
            ) == c - 1
            &&& (r + c) % 2 == 1 && r < side - 1 && c == 0 ==> row(position + 1) == r + 1 && column(
                position + 1,
            ) == c
            &&& (r + c) % 2 == 1 && r == side - 1 ==> row(position + 1) == r && column(position + 1)
                == c + 1
            &&& (r + c) % 2 == 0 && c < side - 1 && r > 0 ==> row(position + 1) == r - 1 && column(
                position + 1,
            ) == c + 1
            &&& (r + c) % 2 == 0 && c < side - 1 && r == 0 ==> row(position + 1) == r && column(
                position + 1,
            ) == c + 1
            &&& (r + c) % 2 == 0 && c == side - 1 ==> row(position + 1) == r + 1 && column(
                position + 1,
            ) == c
        }),
{
    reveal(zig_zag);
    if side == 4 {
        lemma_zig_zag_4();
        let a = ZIG_ZAG_4X4[position];
        let b = ZIG_ZAG_4X4[position + 1];
        assert((a.0 * 4 + a.1) / 4 == a.0 && (a.0 * 4 + a.1) % 4 == a.1);
        assert((b.0 * 4 + b.1) / 4 == b.0 && (b.0 * 4 + b.1) % 4 == b.1);
    } else {
        lemma_zig_zag_8();
        let a = ZIG_ZAG_8X8[position];
        let b = ZIG_ZAG_8X8[position + 1];
        assert((a.0 * 8 + a.1) / 8 == a.0 && (a.0 * 8 + a.1) % 8 == a.1);
        assert((b.0 * 8 + b.1) / 8 == b.0 && (b.0 * 8 + b.1) % 8 == b.1);
    }
}

/// The next place along the diagonals of a block.
spec fn follows(a: (usize, usize), b: (usize, usize), side: int) -> bool {
    let r = a.0 as int;
    let c = a.1 as int;
    &&& 0 <= r < side && 0 <= c < side && b.0 < side && b.1 < side
    &&& if (r + c) % 2 == 1 {
        if r == side - 1 {
            b.0 == r && b.1 == c + 1
        } else if c == 0 {
            b.0 == r + 1 && b.1 == c
        } else {
            b.0 == r + 1 && b.1 == c - 1
        }
    } else if c == side - 1 {
        b.0 == r + 1 && b.1 == c
    } else if r == 0 {
        b.0 == r && b.1 == c + 1
    } else {
        b.0 == r - 1 && b.1 == c + 1
    }
}

#[verifier::spinoff_prover]
proof fn lemma_zig_zag_4()
    ensures
        forall|p: int| 0 <= p < 15 ==> follows(#[trigger] ZIG_ZAG_4X4[p], ZIG_ZAG_4X4[p + 1], 4),
        ZIG_ZAG_4X4[0] == (0usize, 0usize) && ZIG_ZAG_4X4[1] == (0usize, 1usize),
{
}

#[verifier::spinoff_prover]
#[verifier::rlimit(40)]
proof fn lemma_zig_zag_8()
    ensures
        forall|p: int| 0 <= p < 63 ==> follows(#[trigger] ZIG_ZAG_8X8[p], ZIG_ZAG_8X8[p + 1], 8),
        ZIG_ZAG_8X8[0] == (0usize, 0usize) && ZIG_ZAG_8X8[1] == (0usize, 1usize),
{
}

/// Weights of four-by-four blocks depend only on the diagonal and do not fall from one to the next;
/// without weights all are sixteen.
pub proof fn law_weights_4(intra: bool, row: int, column: int)
    requires
        0 <= row < 4,
        0 <= column < 4,
    ensures
        ({
            let weight = matrix_4x4(ScalingMatrixPreset::Jvt, intra)[4 * row + column];
            let d = row + column;
            &&& matrix_4x4(ScalingMatrixPreset::Flat, intra)[4 * row + column] == 16
            &&& intra ==> weight == (if d == 0 {
                6u8
            } else if d == 1 {
                13
            } else if d == 2 {
                20
            } else if d == 3 {
                28
            } else if d == 4 {
                32
            } else if d == 5 {
                37
            } else {
                42
            })
            &&& !intra ==> weight == (if d == 0 {
                10u8
            } else if d == 1 {
                14
            } else if d == 2 {
                20
            } else if d == 3 {
                24
            } else if d == 4 {
                27
            } else if d == 5 {
                30
            } else {
                34
            })
        }),
{
    reveal(matrix_4x4);
}

/// Weights of eight-by-eight blocks are the same when rows and columns are exchanged, and do not
/// fall to the right or down; without weights all are sixteen.
pub proof fn law_weights_8(intra: bool, row: int, column: int)
    requires
        0 <= row < 8,
        0 <= column < 8,
    ensures
        ({
            let weights = matrix_8x8(ScalingMatrixPreset::Jvt, intra);
            &&& matrix_8x8(ScalingMatrixPreset::Flat, intra)[8 * row + column] == 16
            &&& weights[8 * row + column] == weights[8 * column + row]
            &&& column < 7 ==> weights[8 * row + column] <= weights[8 * row + column + 1]
            &&& weights[0] == (if intra {
                6u8
            } else {
                9u8
            }) && weights[63] == (if intra {
                42u8
            } else {
                35u8
            })
            &&& row + column >= 3 && row > 0 && column < 7 ==> weights[8 * row + column]
                == weights[8 * (row - 1) + column + 1]
        }),
{
    let i = 8 * row + column;
    assert(i / 8 == row && i % 8 == column);
    lemma_weights_at(intra, i);
    lemma_even_weights(intra, i);
    lemma_end_weights(intra);
}

#[verifier::spinoff_prover]
#[verifier::rlimit(60)]
proof fn lemma_weights_at(intra: bool, i: int)
    requires
        0 <= i < 64,
    ensures
        ({
            let weights = matrix_8x8(ScalingMatrixPreset::Jvt, intra);
            &&& weights[i] == weights[i % 8 * 8 + i / 8]
            &&& i % 8 < 7 ==> weights[i] <= weights[i + 1]
            &&& i / 8 + i % 8 >= 3 && i >= 8 && i % 8 < 7 ==> weights[i] == weights[i - 7]
        }),
{
    if intra {
        lemma_weights_8_intra();
        assert(matrix_8x8(ScalingMatrixPreset::Jvt, intra) == JVT_8X8_INTRA@) by {
            reveal(matrix_8x8);
        }
        let own = JVT_8X8_INTRA[i];
    } else {
        lemma_weights_8_inter();
        assert(matrix_8x8(ScalingMatrixPreset::Jvt, intra) == JVT_8X8_INTER@) by {
            reveal(matrix_8x8);
        }
        let own = JVT_8X8_INTER[i];
    }
}

#[verifier::spinoff_prover]
proof fn lemma_even_weights(intra: bool, i: int)
    requires
        0 <= i < 64,
    ensures
        matrix_8x8(ScalingMatrixPreset::Flat, intra)[i] == 16,
{
    reveal(matrix_8x8);
    assert(FLAT_8X8[i] == 16);
}

#[verifier::spinoff_prover]
proof fn lemma_end_weights(intra: bool)
    ensures
        ({
            let weights = matrix_8x8(ScalingMatrixPreset::Jvt, intra);
            &&& weights[0] == if intra {
                6u8
            } else {
                9u8
            }
            &&& weights[63] == if intra {
                42u8
            } else {
                35u8
            }
        }),
{
    reveal(matrix_8x8);
}

#[verifier::spinoff_prover]
#[verifier::rlimit(80)]
proof fn lemma_weights_8_intra()
    ensures
        forall|i: int|
            0 <= i < 64 ==> #[trigger] JVT_8X8_INTRA[i] == JVT_8X8_INTRA[i % 8 * 8 + i / 8] && (i % 8
                < 7 ==> JVT_8X8_INTRA[i] <= JVT_8X8_INTRA[i + 1]) && (i / 8 + i % 8 >= 3 && i >= 8
                && i % 8 < 7 ==> JVT_8X8_INTRA[i] == JVT_8X8_INTRA[i - 7]),
{
}

#[verifier::spinoff_prover]
#[verifier::rlimit(80)]
proof fn lemma_weights_8_inter()
    ensures
        forall|i: int|
            0 <= i < 64 ==> #[trigger] JVT_8X8_INTER[i] == JVT_8X8_INTER[i % 8 * 8 + i / 8] && (i % 8
                < 7 ==> JVT_8X8_INTER[i] <= JVT_8X8_INTER[i + 1]) && (i / 8 + i % 8 >= 3 && i >= 8
                && i % 8 < 7 ==> JVT_8X8_INTER[i] == JVT_8X8_INTER[i - 7]),
{
}

} // verus!
