//! What holds of the samples between those of a reference picture.

use vstd::prelude::*;

use crate::interpolate::ReferenceModel;

verus! {

/// The picture with left and right exchanged.
pub open spec fn mirrored(plane: ReferenceModel) -> ReferenceModel {
    ReferenceModel {
        samples: Seq::new(
            (plane.height * plane.width) as nat,
            |i: int|
                plane.samples[i / plane.width * plane.width + (plane.width - 1 - i % plane.width)],
        ),
        width: plane.width,
        height: plane.height,
    }
}

/// The picture with columns and rows exchanged.
pub open spec fn transposed(plane: ReferenceModel) -> ReferenceModel {
    ReferenceModel {
        samples: Seq::new(
            (plane.height * plane.width) as nat,
            |i: int| plane.samples[i % plane.height * plane.width + i / plane.height],
        ),
        width: plane.height,
        height: plane.width,
    }
}

/// A number between zero and 255, or the nearer of these.
pub open spec fn limited(value: int) -> int {
    if value < 0 {
        0
    } else if value > 255 {
        255
    } else {
        value
    }
}

/// Outside of the picture the nearest sample inside counts.
pub proof fn law_outside(plane: ReferenceModel, x: int, y: int)
    requires
        0 < plane.width,
        0 < plane.height,
    ensures
        x < 0 ==> plane.at(x, y) == plane.at(0, y),
        x >= plane.width ==> plane.at(x, y) == plane.at(plane.width - 1, y),
        y < 0 ==> plane.at(x, y) == plane.at(x, 0),
        y >= plane.height ==> plane.at(x, y) == plane.at(x, plane.height - 1),
        0 <= x < plane.width && 0 <= y < plane.height ==> plane.at(x, y) == plane.samples[y
            * plane.width + x],
{
    reveal(ReferenceModel::at);
}

proof fn lemma_place(column: int, row: int, columns: int, rows: int)
    requires
        0 <= column < columns,
        0 <= row < rows,
    ensures
        0 <= row * columns + column < rows * columns,
        (row * columns + column) / columns == row,
        (row * columns + column) % columns == column,
{
    vstd::arithmetic::div_mod::lemma_fundamental_div_mod_converse(
        row * columns + column,
        columns,
        row,
        column,
    );
    assert(0 <= row * columns + column < rows * columns) by (nonlinear_arith)
        requires
            0 <= column < columns,
            0 <= row < rows,
    ;
}

/// Mirroring the picture mirrors its samples, inside and outside.
pub proof fn law_mirrored_samples(plane: ReferenceModel, x: int, y: int)
    requires
        0 < plane.width,
        0 < plane.height,
    ensures
        mirrored(plane).at(plane.width - 1 - x, y) == plane.at(x, y),
{
    reveal(ReferenceModel::at);
    let column = crate::math::clamped(x, 0, plane.width - 1);
    let row = crate::math::clamped(y, 0, plane.height - 1);
    lemma_place(plane.width - 1 - column, row, plane.width, plane.height);
}

/// Transposing the picture transposes its samples, inside and outside.
pub proof fn law_transposed_samples(plane: ReferenceModel, x: int, y: int)
    requires
        0 < plane.width,
        0 < plane.height,
    ensures
        transposed(plane).at(y, x) == plane.at(x, y),
{
    reveal(ReferenceModel::at);
    let column = crate::math::clamped(x, 0, plane.width - 1);
    let row = crate::math::clamped(y, 0, plane.height - 1);
    lemma_place(row, column, plane.height, plane.width);
    assert(plane.width * plane.height == plane.height * plane.width) by (nonlinear_arith);
}

proof fn lemma_halves_mirrored(plane: ReferenceModel, x: int, y: int)
    requires
        0 < plane.width,
        0 < plane.height,
    ensures
        mirrored(plane).across(plane.width - 2 - x, y) == plane.across(x, y),
        mirrored(plane).half_right(plane.width - 2 - x, y) == plane.half_right(x, y),
        mirrored(plane).half_down(plane.width - 1 - x, y) == plane.half_down(x, y),
{
    let other = mirrored(plane);
    let last = plane.width - 1;
    assert forall|i: int, j: int| #[trigger] plane.at(i, j) == other.at(last - i, j) by {
        law_mirrored_samples(plane, i, j);
    }
    assert(plane.at(x - 2, y) == other.at((last - 1 - x) + 3, y));
    assert(plane.at(x - 1, y) == other.at((last - 1 - x) + 2, y));
    assert(plane.at(x, y) == other.at((last - 1 - x) + 1, y));
    assert(plane.at(x + 1, y) == other.at(last - 1 - x, y));
    assert(plane.at(x + 2, y) == other.at((last - 1 - x) - 1, y));
    assert(plane.at(x + 3, y) == other.at((last - 1 - x) - 2, y));
    assert(plane.at(x, y - 2) == other.at(last - x, y - 2));
    assert(plane.at(x, y - 1) == other.at(last - x, y - 1));
    assert(plane.at(x, y) == other.at(last - x, y));
    assert(plane.at(x, y + 1) == other.at(last - x, y + 1));
    assert(plane.at(x, y + 2) == other.at(last - x, y + 2));
    assert(plane.at(x, y + 3) == other.at(last - x, y + 3));
}

proof fn lemma_both_mirrored(plane: ReferenceModel, x: int, y: int)
    requires
        0 < plane.width,
        0 < plane.height,
    ensures
        mirrored(plane).half_both(plane.width - 2 - x, y) == plane.half_both(x, y),
{
    lemma_halves_mirrored(plane, x, y - 2);
    lemma_halves_mirrored(plane, x, y - 1);
    lemma_halves_mirrored(plane, x, y);
    lemma_halves_mirrored(plane, x, y + 1);
    lemma_halves_mirrored(plane, x, y + 2);
    lemma_halves_mirrored(plane, x, y + 3);
}

/// Where the picture is mirrored, a luma sample is found at the mirrored place: no direction along
/// a row is preferred.
pub proof fn law_mirrored_luma(plane: ReferenceModel, x_q4: int, y_q4: int)
    requires
        0 < plane.width,
        0 < plane.height,
    ensures
        mirrored(plane).luma_at(4 * (plane.width - 1) - x_q4, y_q4) == plane.luma_at(x_q4, y_q4),
{
    reveal(ReferenceModel::luma_at);
    let x = x_q4 / 4;
    let y = y_q4 / 4;
    let other_q4 = 4 * (plane.width - 1) - x_q4;
    let last = plane.width - 1;
    if x_q4 % 4 == 0 {
        assert(other_q4 / 4 == last - x && other_q4 % 4 == 0);
    } else {
        assert(other_q4 / 4 == last - 1 - x && other_q4 % 4 == 4 - x_q4 % 4);
    }
    law_mirrored_samples(plane, x, y);
    law_mirrored_samples(plane, x + 1, y);
    law_mirrored_samples(plane, x, y + 1);
    lemma_halves_mirrored(plane, x, y);
    lemma_halves_mirrored(plane, x, y + 1);
    lemma_halves_mirrored(plane, x + 1, y);
    lemma_both_mirrored(plane, x, y);
}

proof fn lemma_halves_transposed(plane: ReferenceModel, x: int, y: int)
    requires
        0 < plane.width,
        0 < plane.height,
    ensures
        transposed(plane).half_down(y, x) == plane.half_right(x, y),
        transposed(plane).half_right(y, x) == plane.half_down(x, y),
{
    let other = transposed(plane);
    assert forall|i: int, j: int| #[trigger] plane.at(i, j) == other.at(j, i) by {
        law_transposed_samples(plane, i, j);
    }
    assert(plane.at(x - 2, y) == other.at(y, x - 2));
    assert(plane.at(x - 1, y) == other.at(y, x - 1));
    assert(plane.at(x, y) == other.at(y, x));
    assert(plane.at(x + 1, y) == other.at(y, x + 1));
    assert(plane.at(x + 2, y) == other.at(y, x + 2));
    assert(plane.at(x + 3, y) == other.at(y, x + 3));
    assert(plane.at(x, y - 2) == other.at(y - 2, x));
    assert(plane.at(x, y - 1) == other.at(y - 1, x));
    assert(plane.at(x, y + 1) == other.at(y + 1, x));
    assert(plane.at(x, y + 2) == other.at(y + 2, x));
    assert(plane.at(x, y + 3) == other.at(y + 3, x));
}

#[verifier::spinoff_prover]
#[verifier::rlimit(40)]
proof fn lemma_both_transposed(plane: ReferenceModel, x: int, y: int)
    requires
        0 < plane.width,
        0 < plane.height,
    ensures
        transposed(plane).half_both(y, x) == plane.half_both(x, y),
{
    let other = transposed(plane);
    assert forall|i: int, j: int|
        -2 <= i <= 3 && -2 <= j <= 3 implies #[trigger] plane.at(x + i, y + j) == other.at(
        y + j,
        x + i,
    ) by {
        law_transposed_samples(plane, x + i, y + j);
    }
    lemma_row_of_six(plane, other, x, y, -2);
    lemma_row_of_six(plane, other, x, y, -1);
    lemma_row_of_six(plane, other, x, y, 0);
    lemma_row_of_six(plane, other, x, y, 1);
    lemma_row_of_six(plane, other, x, y, 2);
    lemma_row_of_six(plane, other, x, y, 3);
}

proof fn lemma_row_of_six(plane: ReferenceModel, other: ReferenceModel, x: int, y: int, j: int)
    requires
        -2 <= j <= 3,
        forall|i: int, k: int|
            -2 <= i <= 3 && -2 <= k <= 3 ==> #[trigger] plane.at(x + i, y + k) == other.at(
                y + k,
                x + i,
            ),
    ensures
        plane.across(x, y + j) == other.at(y + j, x - 2) - 5 * other.at(y + j, x - 1) + 20
            * other.at(y + j, x) + 20 * other.at(y + j, x + 1) - 5 * other.at(y + j, x + 2)
            + other.at(y + j, x + 3),
{
    assert(plane.at(x + (-2), y + j) == other.at(y + j, x + (-2)));
    assert(plane.at(x + (-1), y + j) == other.at(y + j, x + (-1)));
    assert(plane.at(x + 0, y + j) == other.at(y + j, x + 0));
    assert(plane.at(x + 1, y + j) == other.at(y + j, x + 1));
    assert(plane.at(x + 2, y + j) == other.at(y + j, x + 2));
    assert(plane.at(x + 3, y + j) == other.at(y + j, x + 3));
}

/// Where the picture is transposed, a luma sample is found at the transposed place: columns and
/// rows are treated alike.
pub proof fn law_transposed_luma(plane: ReferenceModel, x_q4: int, y_q4: int)
    requires
        0 < plane.width,
        0 < plane.height,
    ensures
        transposed(plane).luma_at(y_q4, x_q4) == plane.luma_at(x_q4, y_q4),
{
    reveal(ReferenceModel::luma_at);
    let x = x_q4 / 4;
    let y = y_q4 / 4;
    law_transposed_samples(plane, x, y);
    law_transposed_samples(plane, x + 1, y);
    law_transposed_samples(plane, x, y + 1);
    lemma_halves_transposed(plane, x, y);
    lemma_halves_transposed(plane, x + 1, y);
    lemma_halves_transposed(plane, x, y + 1);
    lemma_both_transposed(plane, x, y);
}

/// Halfway between two samples of a row the six nearest ones count, the middle two most and the
/// next two against it; their weights sum up to thirty-two.
pub proof fn law_half_way(plane: ReferenceModel, x: int, y: int)
    ensures
        ({
            let six = plane.at(x - 2, y) + plane.at(x + 3, y) - 5 * (plane.at(x - 1, y) + plane.at(
                x + 2,
                y,
            )) + 20 * (plane.at(x, y) + plane.at(x + 1, y));
            plane.luma_at(4 * x + 2, 4 * y) == limited((six + 16) / 32)
        }),
{
    reveal(ReferenceModel::luma_at);
    assert((4 * x + 2) / 4 == x && (4 * x + 2) % 4 == 2 && (4 * y) / 4 == y && (4 * y) % 4 == 0);
}

/// In the middle between four samples the thirty-six nearest ones count, each with the product of
/// its weights along the row and along the column, and rounding is done once.
pub proof fn law_half_way_both(plane: ReferenceModel, x: int, y: int)
    ensures
        ({
            let w = |i: int|
                if i == 0 || i == 1 {
                    20int
                } else if i == -1 || i == 2 {
                    -5int
                } else {
                    1int
                };
            let row = |j: int|
                w(-2) * plane.at(x - 2, y + j) + w(-1) * plane.at(x - 1, y + j) + w(0) * plane.at(
                    x,
                    y + j,
                ) + w(1) * plane.at(x + 1, y + j) + w(2) * plane.at(x + 2, y + j) + w(3) * plane.at(
                    x + 3,
                    y + j,
                );
            let all = w(-2) * row(-2) + w(-1) * row(-1) + w(0) * row(0) + w(1) * row(1) + w(2) * row(
                2,
            ) + w(3) * row(3);
            plane.luma_at(4 * x + 2, 4 * y + 2) == limited((all + 512) / 1024)
        }),
{
    reveal(ReferenceModel::luma_at);
    assert((4 * x + 2) / 4 == x && (4 * x + 2) % 4 == 2 && (4 * y + 2) / 4 == y && (4 * y + 2) % 4
        == 2);
    assert(y + 0 == y && y + (-1) == y - 1 && y + (-2) == y - 2);
}

/// A sample a quarter of a step away from whole and half steps is the rounded mean of the two
/// nearest samples at whole and half steps between which it lies: along the row or the column if
/// one of its coordinates is at a whole or half step, and else along the diagonal between two
/// samples halfway along the row and along the column.
pub proof fn law_quarter_way(plane: ReferenceModel, x: int, y: int)
    ensures
        ({
            let luma = |right: int, down: int| plane.luma_at(4 * x + right, 4 * y + down);
            let mean = |a: int, b: int| (a + b + 1) / 2;
            &&& luma(1, 0) == mean(luma(0, 0), luma(2, 0))
            &&& luma(3, 0) == mean(luma(2, 0), luma(4, 0))
            &&& luma(0, 1) == mean(luma(0, 0), luma(0, 2))
            &&& luma(0, 3) == mean(luma(0, 2), luma(0, 4))
            &&& luma(1, 2) == mean(luma(0, 2), luma(2, 2))
            &&& luma(3, 2) == mean(luma(2, 2), luma(4, 2))
            &&& luma(2, 1) == mean(luma(2, 0), luma(2, 2))
            &&& luma(2, 3) == mean(luma(2, 2), luma(2, 4))
            &&& luma(1, 1) == mean(luma(2, 0), luma(0, 2))
            &&& luma(3, 1) == mean(luma(2, 0), luma(4, 2))
            &&& luma(1, 3) == mean(luma(0, 2), luma(2, 4))
            &&& luma(3, 3) == mean(luma(4, 2), luma(2, 4))
        }),
{
    reveal(ReferenceModel::luma_at);
    lemma_quarters(x);
    lemma_quarters(y);
}

proof fn lemma_quarters(x: int)
    ensures
        (4 * x + 0) / 4 == x && (4 * x + 0) % 4 == 0,
        (4 * x + 1) / 4 == x && (4 * x + 1) % 4 == 1,
        (4 * x + 2) / 4 == x && (4 * x + 2) % 4 == 2,
        (4 * x + 3) / 4 == x && (4 * x + 3) % 4 == 3,
        (4 * x + 4) / 4 == x + 1 && (4 * x + 4) % 4 == 0,
{
}

/// Where a picture has one and the same sample everywhere, so has everything between.
pub proof fn law_flat_between(plane: ReferenceModel, value: u8, x: int, y: int)
    requires
        forall|i: int, j: int| #[trigger] plane.at(i, j) == value,
    ensures
        plane.luma_at(x, y) == value,
        plane.bilinear_at(x, y) == value,
        plane.chroma_at(x, y) == value,
{
    reveal(ReferenceModel::luma_at);
    reveal(ReferenceModel::bilinear_at);
    reveal(ReferenceModel::chroma_at);
    let v = value as int;
    lemma_four_weights(4, x % 4, y % 4, v);
    lemma_four_weights(8, x % 8, y % 8, v);
}

proof fn lemma_four_weights(side: int, right: int, down: int, v: int)
    ensures
        (side - right) * (side - down) * v + right * (side - down) * v + (side - right) * down * v
            + right * down * v == side * side * v,
{
    assert((side - right) * (side - down) * v + right * (side - down) * v + (side - right) * down
        * v + right * down * v == side * side * v) by (nonlinear_arith);
}

/// Between four samples a chroma sample is their mean, rounded to the nearest, each weighted by how
/// near it is: by the product of its distances from the opposite column and row, in eighths.
pub proof fn law_chroma_between(plane: ReferenceModel, x: int, y: int, right: int, down: int)
    requires
        0 <= right < 8,
        0 <= down < 8,
    ensures
        ({
            let chroma = plane.chroma_at(8 * x + right, 8 * y + down);
            let sum = (8 - right) * (8 - down) * plane.at(x, y) + right * (8 - down) * plane.at(
                x + 1,
                y,
            ) + (8 - right) * down * plane.at(x, y + 1) + right * down * plane.at(x + 1, y + 1);
            -32 <= sum - 64 * chroma < 32
        }),
{
    reveal(ReferenceModel::chroma_at);
    assert((8 * x + right) / 8 == x && (8 * x + right) % 8 == right);
    assert((8 * y + down) / 8 == y && (8 * y + down) % 8 == down);
}

/// Between four samples a quickly estimated luma sample is their mean, rounded to the nearest, each
/// weighted by how near it is: by the product of its distances from the opposite column and row, in
/// quarters.
pub proof fn law_estimate_between(plane: ReferenceModel, x: int, y: int, right: int, down: int)
    requires
        0 <= right < 4,
        0 <= down < 4,
    ensures
        ({
            let luma = plane.bilinear_at(4 * x + right, 4 * y + down);
            let sum = (4 - right) * (4 - down) * plane.at(x, y) + right * (4 - down) * plane.at(
                x + 1,
                y,
            ) + (4 - right) * down * plane.at(x, y + 1) + right * down * plane.at(x + 1, y + 1);
            -8 <= sum - 16 * luma < 8
        }),
{
    reveal(ReferenceModel::bilinear_at);
    assert((4 * x + right) / 4 == x && (4 * x + right) % 4 == right);
    assert((4 * y + down) / 4 == y && (4 * y + down) % 4 == down);
}

} // verus!
