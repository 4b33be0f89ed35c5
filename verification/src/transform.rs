//! Block transforms.

use vstd::prelude::*;

use crate::math::{halved, magnitude, quartered, sixty_fourth};

verus! {

/// Output `k` of the four-point Hadamard transform.
pub open spec fn hadamard(a: int, b: int, c: int, d: int, k: int) -> int {
    if k == 0 {
        a + b + c + d
    } else if k == 1 {
        a + b - c - d
    } else if k == 2 {
        a - b - c + d
    } else {
        a - b + c - d
    }
}

/// The rows of a four-by-four block transformed.
pub open spec fn hadamard_rows(block: Seq<int>) -> Seq<int> {
    Seq::new(
        16,
        |i: int|
            hadamard(
                block[i / 4 * 4],
                block[i / 4 * 4 + 1],
                block[i / 4 * 4 + 2],
                block[i / 4 * 4 + 3],
                i % 4,
            ),
    )
}

/// The columns of a four-by-four block transformed.
pub open spec fn hadamard_columns(block: Seq<int>) -> Seq<int> {
    Seq::new(
        16,
        |i: int|
            hadamard(block[i % 4], block[i % 4 + 4], block[i % 4 + 8], block[i % 4 + 12], i / 4),
    )
}

/// A four-by-four block transformed in both directions.
pub open spec fn hadamard_block(block: Seq<int>) -> Seq<int> {
    hadamard_columns(hadamard_rows(block))
}

/// Output `k` of the four-point inverse transform.
pub open spec fn inverse_4(a: int, b: int, c: int, d: int, k: int) -> int {
    if k == 0 {
        a + c + (b + d / 2)
    } else if k == 1 {
        a - c + (b / 2 - d)
    } else if k == 2 {
        a - c - (b / 2 - d)
    } else {
        a + c - (b + d / 2)
    }
}

/// The rows of a four-by-four block of scaled coefficients transformed back.
pub open spec fn inverse_rows(block: Seq<int>) -> Seq<int> {
    Seq::new(
        16,
        |i: int|
            inverse_4(
                block[i / 4 * 4],
                block[i / 4 * 4 + 1],
                block[i / 4 * 4 + 2],
                block[i / 4 * 4 + 3],
                i % 4,
            ),
    )
}

/// The residual that a four-by-four block of scaled coefficients stands for.
pub open spec fn inverse_block(block: Seq<int>) -> Seq<int> {
    let rows = inverse_rows(block);
    Seq::new(
        16,
        |i: int|
            (inverse_4(rows[i % 4], rows[i % 4 + 4], rows[i % 4 + 8], rows[i % 4 + 12], i / 4) + 32)
                / 64,
    )
}

/// Output `k` of the eight-point forward transform.
pub open spec fn forward_8(x: Seq<int>, k: int) -> int {
    let a0 = x[0] + x[7] + (x[3] + x[4]);
    let a1 = x[1] + x[6] + (x[2] + x[5]);
    let a2 = x[0] + x[7] - (x[3] + x[4]);
    let a3 = x[1] + x[6] - (x[2] + x[5]);
    let d07 = x[0] - x[7];
    let d16 = x[1] - x[6];
    let d25 = x[2] - x[5];
    let d34 = x[3] - x[4];
    let a4 = d16 + d25 + d07 + d07 / 2;
    let a5 = d07 - d34 - d25 - d25 / 2;
    let a6 = d07 + d34 - d16 - d16 / 2;
    let a7 = d16 - d25 + d34 + d34 / 2;
    if k == 0 {
        a0 + a1
    } else if k == 1 {
        a4 + a7 / 4
    } else if k == 2 {
        a2 + a3 / 2
    } else if k == 3 {
        a5 + a6 / 4
    } else if k == 4 {
        a0 - a1
    } else if k == 5 {
        a6 - a5 / 4
    } else if k == 6 {
        a2 / 2 - a3
    } else {
        a4 / 4 - a7
    }
}

/// Output `k` of the eight-point inverse transform.
pub open spec fn inverse_8(x: Seq<int>, k: int) -> int {
    let a0 = x[0] + x[4];
    let a2 = x[0] - x[4];
    let a4 = x[2] / 2 - x[6];
    let a6 = x[2] + x[6] / 2;
    let a1 = -x[3] + x[5] - x[7] - x[7] / 2;
    let a3 = x[1] + x[7] - x[3] - x[3] / 2;
    let a5 = -x[1] + x[7] + x[5] + x[5] / 2;
    let a7 = x[3] + x[5] + x[1] + x[1] / 2;
    let b0 = a0 + a6;
    let b2 = a2 + a4;
    let b4 = a2 - a4;
    let b6 = a0 - a6;
    let b1 = a1 + a7 / 4;
    let b7 = a7 - a1 / 4;
    let b3 = a3 + a5 / 4;
    let b5 = a3 / 4 - a5;
    if k == 0 {
        b0 + b7
    } else if k == 1 {
        b2 + b5
    } else if k == 2 {
        b4 + b3
    } else if k == 3 {
        b6 + b1
    } else if k == 4 {
        b6 - b1
    } else if k == 5 {
        b4 - b3
    } else if k == 6 {
        b2 - b5
    } else {
        b0 - b7
    }
}

/// Row `r` of an eight-by-eight block.
pub open spec fn row_8(block: Seq<int>, r: int) -> Seq<int> {
    Seq::new(8, |c: int| block[r * 8 + c])
}

/// Column `c` of an eight-by-eight block.
pub open spec fn column_8(block: Seq<int>, c: int) -> Seq<int> {
    Seq::new(8, |r: int| block[r * 8 + c])
}

/// The rows of an eight-by-eight block transformed.
pub open spec fn forward_rows_8(block: Seq<int>) -> Seq<int> {
    Seq::new(64, |i: int| forward_8(row_8(block, i / 8), i % 8))
}

/// An eight-by-eight block transformed in both directions.
pub open spec fn forward_block_8(block: Seq<int>) -> Seq<int> {
    let rows = forward_rows_8(block);
    Seq::new(64, |i: int| forward_8(column_8(rows, i % 8), i / 8))
}

/// The rows of an eight-by-eight block of scaled coefficients transformed back.
pub open spec fn inverse_rows_8(block: Seq<int>) -> Seq<int> {
    Seq::new(64, |i: int| inverse_8(row_8(block, i / 8), i % 8))
}

/// The residual that an eight-by-eight block of scaled coefficients stands for.
pub open spec fn inverse_block_8(block: Seq<int>) -> Seq<int> {
    let rows = inverse_rows_8(block.update(0, block[0] + 32));
    Seq::new(64, |i: int| inverse_8(column_8(rows, i % 8), i / 8) / 64)
}

/// The numbers in a list.
pub open spec fn ints(values: Seq<i32>) -> Seq<int> {
    Seq::new(values.len(), |i: int| values[i] as int)
}

/// The numbers in a list.
pub open spec fn wide_ints(values: Seq<i64>) -> Seq<int> {
    Seq::new(values.len(), |i: int| values[i] as int)
}

/// Whether every number is at most `limit` away from zero.
pub open spec fn within(values: Seq<int>, limit: int) -> bool {
    forall|i: int| 0 <= i < values.len() ==> -limit <= #[trigger] values[i] <= limit
}

/// The four-by-four Hadamard transform of wide numbers.
pub fn hadamard_4x4(block: &[i64; 16]) -> (output: [i64; 16])
    requires
        within(wide_ints(block@), 0x100_0000_0000_0000),
    ensures
        wide_ints(output@) == hadamard_block(wide_ints(block@)),
        forall|limit: int|
            #[trigger] within(wide_ints(block@), limit) ==> within(
                wide_ints(output@),
                16 * limit,
            ),
{
    let ghost input = wide_ints(block@);
    let mut rows: [i64; 16] = [0i64; 16];
    let mut row: usize = 0;
    while row < 4
        invariant
            row <= 4,
            input == wide_ints(block@),
            within(input, 0x100_0000_0000_0000),
            forall|i: int| 0 <= i < 4 * row ==> rows@[i] == #[trigger] hadamard_rows(input)[i],
        decreases 4 - row,
    {
        let base: usize = row * 4;
        let a: i64 = block[base];
        let b: i64 = block[base + 1];
        let c: i64 = block[base + 2];
        let d: i64 = block[base + 3];
        assert(a == input[base as int] && b == input[base + 1] && c == input[base + 2] && d
            == input[base + 3]);
        rows[base] = a + b + c + d;
        rows[base + 1] = a + b - c - d;
        rows[base + 2] = a - b - c + d;
        rows[base + 3] = a - b + c - d;
        assert forall|i: int| 0 <= i < 4 * (row + 1) implies rows@[i] == #[trigger] hadamard_rows(
            input,
        )[i] by {
            if i >= 4 * row {
                assert(i / 4 == row);
            }
        }
        row = row + 1;
    }
    let ghost middle = hadamard_rows(input);
    assert(wide_ints(rows@) =~= middle);
    assert forall|limit: int| within(input, limit) implies #[trigger] within(middle, 4 * limit) by {
        assert forall|i: int| 0 <= i < 16 implies -(4 * limit) <= #[trigger] middle[i] <= 4
            * limit by {
            let base = i / 4 * 4;
            assert(-limit <= input[base] <= limit && -limit <= input[base + 1] <= limit && -limit
                <= input[base + 2] <= limit && -limit <= input[base + 3] <= limit);
        }
    }
    assert(within(middle, 4int * 0x100_0000_0000_0000));
    let mut output: [i64; 16] = [0i64; 16];
    let mut column: usize = 0;
    while column < 4
        invariant
            column <= 4,
            middle == wide_ints(rows@),
            within(middle, 4int * 0x100_0000_0000_0000),
            forall|i: int|
                0 <= i < 16 && i % 4 < column ==> output@[i] == #[trigger] hadamard_columns(
                    middle,
                )[i],
        decreases 4 - column,
    {
        let a: i64 = rows[column];
        let b: i64 = rows[column + 4];
        let c: i64 = rows[column + 8];
        let d: i64 = rows[column + 12];
        assert(a == middle[column as int] && b == middle[column + 4] && c == middle[column + 8]
            && d == middle[column + 12]);
        output[column] = a + b + c + d;
        output[column + 4] = a + b - c - d;
        output[column + 8] = a - b - c + d;
        output[column + 12] = a - b + c - d;
        assert forall|i: int| 0 <= i < 16 && i % 4 < column + 1 implies output@[i]
            == #[trigger] hadamard_columns(middle)[i] by {
            if i % 4 == column {
                assert(i == column || i == column + 4 || i == column + 8 || i == column + 12);
            }
        }
        column = column + 1;
    }
    assert(wide_ints(output@) =~= hadamard_block(input));
    assert forall|limit: int| #[trigger] within(input, limit) implies within(
        wide_ints(output@),
        16 * limit,
    ) by {
        assert(within(middle, 4 * limit));
        let all = hadamard_block(input);
        assert forall|i: int| 0 <= i < 16 implies -(16 * limit) <= #[trigger] all[i] <= 16
            * limit by {
            let c = i % 4;
            assert(-(4 * limit) <= middle[c] <= 4 * limit && -(4 * limit) <= middle[c + 4] <= 4
                * limit && -(4 * limit) <= middle[c + 8] <= 4 * limit && -(4 * limit) <= middle[c
                + 12] <= 4 * limit);
        }
    }
    output
}

/// The four-by-four forward transform.
pub fn forward_transform_4x4(residual: &[i32; 16]) -> (output: [i32; 16])
    requires
        within(ints(residual@), 0x7ff_ffff),
    ensures
        ints(output@) == hadamard_block(ints(residual@)),
        forall|limit: int|
            #[trigger] within(ints(residual@), limit) ==> within(ints(output@), 16 * limit),
{
    let mut wide: [i64; 16] = [0i64; 16];
    let mut i: usize = 0;
    while i < 16
        invariant
            i <= 16,
            forall|j: int| 0 <= j < i ==> #[trigger] wide@[j] == residual@[j],
        decreases 16 - i,
    {
        wide[i] = residual[i] as i64;
        i = i + 1;
    }
    assert(wide_ints(wide@) =~= ints(residual@));
    let transformed: [i64; 16] = hadamard_4x4(&wide);
    assert(within(wide_ints(transformed@), 16int * 0x7ff_ffff));
    let mut output: [i32; 16] = [0i32; 16];
    let mut i: usize = 0;
    while i < 16
        invariant
            i <= 16,
            within(wide_ints(transformed@), 16int * 0x7ff_ffff),
            forall|j: int| 0 <= j < i ==> #[trigger] output@[j] == transformed@[j],
        decreases 16 - i,
    {
        assert(-16int * 0x7ff_ffff <= wide_ints(transformed@)[i as int] <= 16int * 0x7ff_ffff);
        output[i] = transformed[i] as i32;
        i = i + 1;
    }
    assert(ints(output@) =~= wide_ints(transformed@));
    output
}

/// One step of the four-point inverse transform.
fn inverse_transform_4(a: i64, b: i64, c: i64, d: i64) -> (output: [i64; 4])
    requires
        -0x1000_0000_0000_0000 <= a <= 0x1000_0000_0000_0000,
        -0x1000_0000_0000_0000 <= b <= 0x1000_0000_0000_0000,
        -0x1000_0000_0000_0000 <= c <= 0x1000_0000_0000_0000,
        -0x1000_0000_0000_0000 <= d <= 0x1000_0000_0000_0000,
    ensures
        forall|k: int|
            0 <= k < 4 ==> #[trigger] output@[k] == inverse_4(
                a as int,
                b as int,
                c as int,
                d as int,
                k,
            ),
        forall|limit: int|
            #![trigger within(wide_ints(output@), limit)]
            magnitude(a as int) * 4 <= limit && magnitude(b as int) * 4 <= limit && magnitude(
                c as int,
            ) * 4 <= limit && magnitude(d as int) * 4 <= limit ==> within(
                wide_ints(output@),
                limit,
            ),
{
    let e0: i64 = a + c;
    let e1: i64 = a - c;
    let e2: i64 = halved(b) - d;
    let e3: i64 = b + halved(d);
    [e0 + e3, e1 + e2, e1 - e2, e0 - e3]
}

/// The four-by-four inverse transform.
pub fn inverse_transform_4x4(scaled: &[i64; 16]) -> (output: [i64; 16])
    requires
        within(wide_ints(scaled@), 0x100_0000_0000_0000),
    ensures
        wide_ints(output@) == inverse_block(wide_ints(scaled@)),
        within(wide_ints(output@), 0x1000_0000_0000_0000),
{
    let ghost input = wide_ints(scaled@);
    let ghost expected = inverse_rows(input);
    let mut rows: [i64; 16] = [0i64; 16];
    let mut row: usize = 0;
    while row < 4
        invariant
            row <= 4,
            input == wide_ints(scaled@),
            expected == inverse_rows(input),
            within(input, 0x100_0000_0000_0000),
            forall|i: int|
                0 <= i < 4 * row ==> (#[trigger] rows@[i]) == expected[i]
                    && -0x400_0000_0000_0000 <= rows@[i] <= 0x400_0000_0000_0000,
        decreases 4 - row,
    {
        let base: usize = row * 4;
        assert(scaled@[base as int] == input[base as int] && scaled@[base + 1] == input[base + 1]
            && scaled@[base + 2] == input[base + 2] && scaled@[base + 3] == input[base + 3]);
        let step: [i64; 4] = inverse_transform_4(
            scaled[base],
            scaled[base + 1],
            scaled[base + 2],
            scaled[base + 3],
        );
        assert(within(wide_ints(step@), 0x400_0000_0000_0000));
        assert(wide_ints(step@)[0] == step@[0] && wide_ints(step@)[1] == step@[1] && wide_ints(
            step@,
        )[2] == step@[2] && wide_ints(step@)[3] == step@[3]);
        rows[base] = step[0];
        rows[base + 1] = step[1];
        rows[base + 2] = step[2];
        rows[base + 3] = step[3];
        row = row + 1;
    }
    assert(wide_ints(rows@) =~= expected);
    let ghost result = inverse_block(input);
    let mut output: [i64; 16] = [0i64; 16];
    let mut column: usize = 0;
    while column < 4
        invariant
            column <= 4,
            expected == inverse_rows(input),
            result == inverse_block(input),
            wide_ints(rows@) == expected,
            forall|i: int|
                0 <= i < 16 ==> -0x400_0000_0000_0000 <= #[trigger] rows@[i]
                    <= 0x400_0000_0000_0000,
            forall|i: int|
                0 <= i < 16 && i % 4 < column ==> (#[trigger] output@[i]) == result[i]
                    && -0x1000_0000_0000_0000 <= output@[i] <= 0x1000_0000_0000_0000,
        decreases 4 - column,
    {
        assert(rows@[column as int] == expected[column as int] && rows@[column + 4]
            == expected[column + 4] && rows@[column + 8] == expected[column + 8] && rows@[column
            + 12] == expected[column + 12]);
        let step: [i64; 4] = inverse_transform_4(
            rows[column],
            rows[column + 4],
            rows[column + 8],
            rows[column + 12],
        );
        assert(within(wide_ints(step@), 0x1000_0000_0000_0000));
        assert(wide_ints(step@)[0] == step@[0] && wide_ints(step@)[1] == step@[1] && wide_ints(
            step@,
        )[2] == step@[2] && wide_ints(step@)[3] == step@[3]);
        output[column] = sixty_fourth(step[0] + 32);
        output[column + 4] = sixty_fourth(step[1] + 32);
        output[column + 8] = sixty_fourth(step[2] + 32);
        output[column + 12] = sixty_fourth(step[3] + 32);
        column = column + 1;
    }
    assert(wide_ints(output@) =~= result);
    output
}

pub proof fn lemma_forward_8_bound(x: Seq<int>, limit: int, k: int)
    requires
        x.len() == 8,
        within(x, limit),
        4 <= limit,
        0 <= k < 8,
    ensures
        -(10 * limit) <= forward_8(x, k) <= 10 * limit,
{
    assert(-limit <= x[0] <= limit && -limit <= x[1] <= limit);
    assert(-limit <= x[2] <= limit && -limit <= x[3] <= limit);
    assert(-limit <= x[4] <= limit && -limit <= x[5] <= limit);
    assert(-limit <= x[6] <= limit && -limit <= x[7] <= limit);
}

/// The eight-point forward transform of wide numbers.
fn forward_wide_8(input: &[i64; 8]) -> (output: [i64; 8])
    requires
        within(wide_ints(input@), 0x800_0000),
    ensures
        forall|k: int| 0 <= k < 8 ==> #[trigger] output@[k] == forward_8(wide_ints(input@), k),
{
    let ghost x = wide_ints(input@);
    assert(input@[0] == x[0] && input@[1] == x[1] && input@[2] == x[2] && input@[3] == x[3]
        && input@[4] == x[4] && input@[5] == x[5] && input@[6] == x[6] && input@[7] == x[7]);
    let s07: i64 = input[0] + input[7];
    let s16: i64 = input[1] + input[6];
    let s25: i64 = input[2] + input[5];
    let s34: i64 = input[3] + input[4];
    let a0: i64 = s07 + s34;
    let a1: i64 = s16 + s25;
    let a2: i64 = s07 - s34;
    let a3: i64 = s16 - s25;
    let d07: i64 = input[0] - input[7];
    let d16: i64 = input[1] - input[6];
    let d25: i64 = input[2] - input[5];
    let d34: i64 = input[3] - input[4];
    let a4: i64 = d16 + d25 + d07 + halved(d07);
    let a5: i64 = d07 - d34 - d25 - halved(d25);
    let a6: i64 = d07 + d34 - d16 - halved(d16);
    let a7: i64 = d16 - d25 + d34 + halved(d34);
    let output: [i64; 8] = [
        a0 + a1,
        a4 + quartered(a7),
        a2 + halved(a3),
        a5 + quartered(a6),
        a0 - a1,
        a6 - quartered(a5),
        halved(a2) - a3,
        quartered(a4) - a7,
    ];
    assert forall|k: int| 0 <= k < 8 implies #[trigger] output@[k] == forward_8(x, k) by {
        assert(k == 0 || k == 1 || k == 2 || k == 3 || k == 4 || k == 5 || k == 6 || k == 7);
    }
    output
}

/// The eight-point forward transform.
pub fn forward_transform_8(input: &[i32; 8]) -> (output: [i32; 8])
    requires
        within(ints(input@), 0x800_0000),
    ensures
        forall|k: int| 0 <= k < 8 ==> #[trigger] output@[k] == forward_8(ints(input@), k),
        forall|limit: int|
            #[trigger] within(ints(input@), limit) && limit >= 4 ==> within(
                ints(output@),
                10 * limit,
            ),
{
    let ghost x = ints(input@);
    let line: [i64; 8] = [
        input[0] as i64,
        input[1] as i64,
        input[2] as i64,
        input[3] as i64,
        input[4] as i64,
        input[5] as i64,
        input[6] as i64,
        input[7] as i64,
    ];
    assert(wide_ints(line@) =~= x);
    let wide: [i64; 8] = forward_wide_8(&line);
    let mut output: [i32; 8] = [0i32; 8];
    let mut k: usize = 0;
    while k < 8
        invariant
            k <= 8,
            x == ints(input@),
            within(x, 0x800_0000),
            forall|j: int| 0 <= j < 8 ==> #[trigger] wide@[j] == forward_8(x, j),
            forall|j: int| 0 <= j < k ==> #[trigger] output@[j] == forward_8(x, j),
        decreases 8 - k,
    {
        proof {
            lemma_forward_8_bound(x, 0x800_0000, k as int);
        }
        output[k] = wide[k] as i32;
        k = k + 1;
    }
    assert forall|limit: int| #[trigger] within(x, limit) && limit >= 4 implies within(
        ints(output@),
        10 * limit,
    ) by {
        assert forall|k: int| 0 <= k < 8 implies -(10 * limit) <= #[trigger] ints(output@)[k] <= 10
            * limit by {
            lemma_forward_8_bound(x, limit, k);
            assert(ints(output@)[k] == output@[k]);
        }
    }
    output
}

/// The eight-by-eight forward transform.
pub fn forward_transform_8x8(residual: &[i32; 64]) -> (output: [i32; 64])
    requires
        within(ints(residual@), 0xc0_0000),
    ensures
        ints(output@) == forward_block_8(ints(residual@)),
        forall|limit: int|
            #[trigger] within(ints(residual@), limit) && 4 <= limit <= 0xc0_0000 ==> within(
                ints(output@),
                100 * limit,
            ),
{
    let ghost input = ints(residual@);
    let ghost expected = forward_rows_8(input);
    let mut rows: [i32; 64] = [0i32; 64];
    let mut row: usize = 0;
    while row < 8
        invariant
            row <= 8,
            input == ints(residual@),
            expected == forward_rows_8(input),
            within(input, 0xc0_0000),
            forall|i: int| 0 <= i < 8 * row ==> #[trigger] rows@[i] == expected[i],
            forall|limit: int, i: int|
                #![trigger within(input, limit), rows@[i]]
                within(input, limit) && limit >= 4 && 0 <= i < 8 * row ==> -(10 * limit) <= rows@[i]
                    <= 10 * limit,
        decreases 8 - row,
    {
        let line: [i32; 8] = [
            residual[row * 8],
            residual[row * 8 + 1],
            residual[row * 8 + 2],
            residual[row * 8 + 3],
            residual[row * 8 + 4],
            residual[row * 8 + 5],
            residual[row * 8 + 6],
            residual[row * 8 + 7],
        ];
        assert(ints(line@) =~= row_8(input, row as int));
        assert forall|limit: int| #[trigger] within(input, limit) implies within(
            ints(line@),
            limit,
        ) by {
            assert forall|i: int| 0 <= i < 8 implies -limit <= #[trigger] ints(line@)[i]
                <= limit by {
                assert(ints(line@)[i] == input[row * 8 + i]);
            }
        }
        let step: [i32; 8] = forward_transform_8(&line);
        let ghost before = rows@;
        let mut column: usize = 0;
        while column < 8
            invariant
                column <= 8,
                row < 8,
                forall|i: int| 0 <= i < 8 * row ==> #[trigger] rows@[i] == before[i],
                forall|i: int|
                    8 * row <= i < 8 * row + column ==> #[trigger] rows@[i] == step@[i - 8 * row],
            decreases 8 - column,
        {
            rows[row * 8 + column] = step[column];
            column = column + 1;
        }
        assert forall|i: int| 0 <= i < 8 * (row + 1) implies #[trigger] rows@[i]
            == expected[i] by {
            if i >= 8 * row {
                assert(i / 8 == row && i % 8 == i - 8 * row);
                assert(rows@[i] == step@[i - 8 * row]);
            } else {
                assert(rows@[i] == before[i]);
            }
        }
        assert forall|limit: int, i: int|
            #![trigger within(input, limit), rows@[i]]
            within(input, limit) && limit >= 4 && 0 <= i < 8 * (row + 1) implies -(10 * limit)
            <= rows@[i] <= 10 * limit by {
            if i >= 8 * row {
                assert(within(ints(step@), 10 * limit));
                assert(ints(step@)[i - 8 * row] == step@[i - 8 * row]);
            } else {
                assert(rows@[i] == before[i]);
            }
        }
        row = row + 1;
    }
    assert(ints(rows@) =~= expected);
    assert forall|limit: int| within(input, limit) && limit >= 4 implies #[trigger] within(
        expected,
        10 * limit,
    ) by {
        assert forall|i: int| 0 <= i < 64 implies -(10 * limit) <= #[trigger] expected[i] <= 10
            * limit by {
            assert(rows@[i] == expected[i]);
        }
    }
    assert(within(expected, 10int * 0xc0_0000));
    let ghost result = forward_block_8(input);
    let mut output: [i32; 64] = [0i32; 64];
    let mut column: usize = 0;
    while column < 8
        invariant
            column <= 8,
            result == forward_block_8(input),
            expected == forward_rows_8(input),
            ints(rows@) == expected,
            within(expected, 10int * 0xc0_0000),
            forall|i: int| 0 <= i < 64 && i % 8 < column ==> #[trigger] output@[i] == result[i],
            forall|limit: int, i: int|
                #![trigger within(expected, limit), output@[i]]
                within(expected, limit) && limit >= 4 && 0 <= i < 64 && i % 8 < column ==> -(10
                    * limit) <= output@[i] <= 10 * limit,
        decreases 8 - column,
    {
        let line: [i32; 8] = [
            rows[column],
            rows[8 + column],
            rows[16 + column],
            rows[24 + column],
            rows[32 + column],
            rows[40 + column],
            rows[48 + column],
            rows[56 + column],
        ];
        assert forall|r: int| 0 <= r < 8 implies #[trigger] ints(line@)[r] == expected[r * 8
            + column] by {
            assert(ints(rows@)[r * 8 + column] == rows@[r * 8 + column]);
        }
        assert(ints(line@) =~= column_8(expected, column as int));
        assert forall|limit: int| #[trigger] within(expected, limit) implies within(
            ints(line@),
            limit,
        ) by {
            assert forall|i: int| 0 <= i < 8 implies -limit <= #[trigger] ints(line@)[i]
                <= limit by {
                assert(ints(line@)[i] == expected[i * 8 + column]);
            }
        }
        let step: [i32; 8] = forward_transform_8(&line);
        let ghost before = output@;
        let mut row: usize = 0;
        while row < 8
            invariant
                row <= 8,
                column < 8,
                forall|i: int| 0 <= i < 64 && i % 8 != column ==> #[trigger] output@[i] == before[i],
                forall|i: int|
                    0 <= i < 8 * row && i % 8 == column ==> #[trigger] output@[i] == step@[i / 8],
            decreases 8 - row,
        {
            output[row * 8 + column] = step[row];
            row = row + 1;
        }
        assert forall|i: int| 0 <= i < 64 && i % 8 < column + 1 implies #[trigger] output@[i]
            == result[i] by {
            if i % 8 == column {
                assert(output@[i] == step@[i / 8]);
            } else {
                assert(output@[i] == before[i]);
            }
        }
        assert forall|limit: int, i: int|
            #![trigger within(expected, limit), output@[i]]
            within(expected, limit) && limit >= 4 && 0 <= i < 64 && i % 8 < column + 1 implies -(10
            * limit) <= output@[i] <= 10 * limit by {
            if i % 8 == column {
                assert(within(ints(step@), 10 * limit));
                assert(ints(step@)[i / 8] == step@[i / 8]);
                assert(output@[i] == step@[i / 8]);
            } else {
                assert(output@[i] == before[i]);
            }
        }
        column = column + 1;
    }
    assert(ints(output@) =~= result);
    assert forall|limit: int| #[trigger] within(input, limit) && 4 <= limit
        <= 0xc0_0000 implies within(ints(output@), 100 * limit) by {
        assert(within(expected, 10 * limit));
        assert forall|i: int| 0 <= i < 64 implies -(100 * limit) <= #[trigger] ints(output@)[i]
            <= 100 * limit by {
            assert(ints(output@)[i] == output@[i]);
        }
    }
    output
}

proof fn lemma_inverse_8_bound(x: Seq<int>, limit: int, k: int)
    requires
        x.len() == 8,
        within(x, limit),
        4 <= limit,
        0 <= k < 8,
    ensures
        -(16 * limit) <= inverse_8(x, k) <= 16 * limit,
{
    assert(-limit <= x[0] <= limit && -limit <= x[1] <= limit);
    assert(-limit <= x[2] <= limit && -limit <= x[3] <= limit);
    assert(-limit <= x[4] <= limit && -limit <= x[5] <= limit);
    assert(-limit <= x[6] <= limit && -limit <= x[7] <= limit);
}

/// The eight-point inverse transform.
pub fn inverse_transform_8(input: &[i64; 8]) -> (output: [i64; 8])
    requires
        within(wide_ints(input@), 0x100_0000_0000_0000),
    ensures
        forall|k: int| 0 <= k < 8 ==> #[trigger] output@[k] == inverse_8(wide_ints(input@), k),
        forall|limit: int|
            #[trigger] within(wide_ints(input@), limit) && limit >= 4 ==> within(
                wide_ints(output@),
                16 * limit,
            ),
{
    let ghost x = wide_ints(input@);
    assert(input@[0] == x[0] && input@[1] == x[1] && input@[2] == x[2] && input@[3] == x[3]
        && input@[4] == x[4] && input@[5] == x[5] && input@[6] == x[6] && input@[7] == x[7]);
    let a0: i64 = input[0] + input[4];
    let a2: i64 = input[0] - input[4];
    let a4: i64 = halved(input[2]) - input[6];
    let a6: i64 = input[2] + halved(input[6]);
    let b0: i64 = a0 + a6;
    let b2: i64 = a2 + a4;
    let b4: i64 = a2 - a4;
    let b6: i64 = a0 - a6;
    let a1: i64 = -input[3] + input[5] - input[7] - halved(input[7]);
    let a3: i64 = input[1] + input[7] - input[3] - halved(input[3]);
    let a5: i64 = -input[1] + input[7] + input[5] + halved(input[5]);
    let a7: i64 = input[3] + input[5] + input[1] + halved(input[1]);
    let b1: i64 = a1 + quartered(a7);
    let b7: i64 = a7 - quartered(a1);
    let b3: i64 = a3 + quartered(a5);
    let b5: i64 = quartered(a3) - a5;
    let output: [i64; 8] = [
        b0 + b7,
        b2 + b5,
        b4 + b3,
        b6 + b1,
        b6 - b1,
        b4 - b3,
        b2 - b5,
        b0 - b7,
    ];
    assert forall|k: int| 0 <= k < 8 implies #[trigger] output@[k] == inverse_8(x, k) by {
        assert(k == 0 || k == 1 || k == 2 || k == 3 || k == 4 || k == 5 || k == 6 || k == 7);
    }
    assert forall|limit: int| #[trigger] within(x, limit) && limit >= 4 implies within(
        wide_ints(output@),
        16 * limit,
    ) by {
        assert forall|k: int| 0 <= k < 8 implies -(16 * limit) <= #[trigger] wide_ints(output@)[k] <= 16
            * limit by {
            lemma_inverse_8_bound(x, limit, k);
            assert(wide_ints(output@)[k] == output@[k]);
        }
    }
    output
}

/// The eight-by-eight inverse transform.
pub fn inverse_transform_8x8(scaled: &[i64; 64]) -> (output: [i64; 64])
    requires
        within(wide_ints(scaled@), 0x8_0000_0000_0000),
    ensures
        wide_ints(output@) == inverse_block_8(wide_ints(scaled@)),
        within(wide_ints(output@), 0x1000_0000_0000_0000),
{
    let ghost input = wide_ints(scaled@).update(0, scaled@[0] + 32);
    let ghost expected = inverse_rows_8(input);
    assert forall|i: int| 0 <= i < 64 implies -0x10_0000_0000_0000 <= #[trigger] input[i]
        <= 0x10_0000_0000_0000 by {
        assert(-0x8_0000_0000_0000 <= wide_ints(scaled@)[i] <= 0x8_0000_0000_0000);
    }
    assert(within(input, 0x10_0000_0000_0000));
    let mut rows: [i64; 64] = [0i64; 64];
    let mut row: usize = 0;
    while row < 8
        invariant
            row <= 8,
            input == wide_ints(scaled@).update(0, scaled@[0] + 32),
            expected == inverse_rows_8(input),
            within(input, 0x10_0000_0000_0000),
            forall|i: int|
                0 <= i < 8 * row ==> (#[trigger] rows@[i]) == expected[i]
                    && -0x100_0000_0000_0000 <= rows@[i] <= 0x100_0000_0000_0000,
        decreases 8 - row,
    {
        assert(-0x10_0000_0000_0000 <= input[0] <= 0x10_0000_0000_0000);
        let first: i64 = if row == 0 {
            scaled[0] + 32
        } else {
            scaled[row * 8]
        };
        let line: [i64; 8] = [
            first,
            scaled[row * 8 + 1],
            scaled[row * 8 + 2],
            scaled[row * 8 + 3],
            scaled[row * 8 + 4],
            scaled[row * 8 + 5],
            scaled[row * 8 + 6],
            scaled[row * 8 + 7],
        ];
        assert(wide_ints(line@) =~= row_8(input, row as int));
        assert(within(wide_ints(line@), 0x10_0000_0000_0000)) by {
            assert forall|i: int| 0 <= i < 8 implies -0x10_0000_0000_0000
                <= #[trigger] wide_ints(line@)[i] <= 0x10_0000_0000_0000 by {
                assert(wide_ints(line@)[i] == input[row * 8 + i]);
            }
        }
        let step: [i64; 8] = inverse_transform_8(&line);
        assert(within(wide_ints(step@), 16int * 0x10_0000_0000_0000));
        let ghost before = rows@;
        let mut column: usize = 0;
        while column < 8
            invariant
                column <= 8,
                row < 8,
                forall|i: int| 0 <= i < 8 * row ==> #[trigger] rows@[i] == before[i],
                forall|i: int|
                    8 * row <= i < 8 * row + column ==> #[trigger] rows@[i] == step@[i - 8 * row],
            decreases 8 - column,
        {
            rows[row * 8 + column] = step[column];
            column = column + 1;
        }
        assert forall|i: int| 0 <= i < 8 * (row + 1) implies (#[trigger] rows@[i]) == expected[i]
            && -0x100_0000_0000_0000 <= rows@[i] <= 0x100_0000_0000_0000 by {
            if i >= 8 * row {
                assert(i / 8 == row && i % 8 == i - 8 * row);
                assert(wide_ints(step@)[i - 8 * row] == step@[i - 8 * row]);
            } else {
                assert(rows@[i] == before[i]);
            }
        }
        row = row + 1;
    }
    assert(wide_ints(rows@) =~= expected);
    let ghost result = inverse_block_8(wide_ints(scaled@));
    let mut output: [i64; 64] = [0i64; 64];
    let mut column: usize = 0;
    while column < 8
        invariant
            column <= 8,
            input == wide_ints(scaled@).update(0, scaled@[0] + 32),
            result == inverse_block_8(wide_ints(scaled@)),
            expected == inverse_rows_8(input),
            wide_ints(rows@) == expected,
            forall|i: int|
                0 <= i < 64 ==> -0x100_0000_0000_0000 <= #[trigger] rows@[i]
                    <= 0x100_0000_0000_0000,
            forall|i: int|
                0 <= i < 64 && i % 8 < column ==> (#[trigger] output@[i]) == result[i]
                    && -0x1000_0000_0000_0000 <= output@[i] <= 0x1000_0000_0000_0000,
        decreases 8 - column,
    {
        let line: [i64; 8] = [
            rows[column],
            rows[8 + column],
            rows[16 + column],
            rows[24 + column],
            rows[32 + column],
            rows[40 + column],
            rows[48 + column],
            rows[56 + column],
        ];
        assert forall|r: int| 0 <= r < 8 implies #[trigger] wide_ints(line@)[r] == expected[r * 8
            + column] && wide_ints(line@)[r] == rows@[r * 8 + column] by {
            assert(wide_ints(rows@)[r * 8 + column] == rows@[r * 8 + column]);
        }
        assert(wide_ints(line@) =~= column_8(expected, column as int));
        assert(within(wide_ints(line@), 0x100_0000_0000_0000)) by {
            assert forall|i: int| 0 <= i < 8 implies -0x100_0000_0000_0000
                <= #[trigger] wide_ints(line@)[i] <= 0x100_0000_0000_0000 by {
                assert(wide_ints(line@)[i] == rows@[i * 8 + column]);
            }
        }
        let step: [i64; 8] = inverse_transform_8(&line);
        assert(within(wide_ints(step@), 16int * 0x100_0000_0000_0000));
        let ghost before = output@;
        let mut row: usize = 0;
        while row < 8
            invariant
                row <= 8,
                column < 8,
                forall|i: int| 0 <= i < 64 && i % 8 != column ==> #[trigger] output@[i] == before[i],
                forall|i: int|
                    0 <= i < 8 * row && i % 8 == column ==> #[trigger] output@[i] == step@[i / 8]
                        as int / 64,
            decreases 8 - row,
        {
            output[row * 8 + column] = sixty_fourth(step[row]);
            row = row + 1;
        }
        assert forall|i: int| 0 <= i < 64 && i % 8 < column + 1 implies (#[trigger] output@[i])
            == result[i] && -0x1000_0000_0000_0000 <= output@[i] <= 0x1000_0000_0000_0000 by {
            if i % 8 == column {
                assert(wide_ints(step@)[i / 8] == step@[i / 8]);
                assert(output@[i] == step@[i / 8] as int / 64);
            } else {
                assert(output@[i] == before[i]);
            }
        }
        column = column + 1;
    }
    assert(wide_ints(output@) =~= result);
    output
}

} // verus!
