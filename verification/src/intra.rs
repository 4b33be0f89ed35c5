//! Intra prediction.

use vstd::prelude::*;

use crate::math::magnitude;
use crate::plane::{lemma_region_place, region_inside, sample_in};
use crate::residual::sum_of;

verus! {

/// The rounded mean of two samples.
pub open spec fn mean_of(a: int, b: int) -> int {
    (a + b + 1) / 2
}

/// The rounded mean of three samples, the middle one twice.
pub open spec fn smooth(a: int, b: int, c: int) -> int {
    (a + 2 * b + c + 2) / 4
}

/// The rounded mean of two samples, the second one three times.
pub open spec fn end_smooth(a: int, b: int) -> int {
    (a + 3 * b + 2) / 4
}

/// The rounded mean of two samples.
pub fn average(a: u8, b: u8) -> (mean: u8)
    ensures
        mean == mean_of(a as int, b as int),
{
    ((a as u16 + b as u16 + 1) / 2) as u8
}

/// The rounded mean of three samples, the middle one twice.
pub fn filter_1_2_1(a: u8, b: u8, c: u8) -> (mean: u8)
    ensures
        mean == smooth(a as int, b as int, c as int),
{
    ((a as u16 + 2 * b as u16 + c as u16 + 2) / 4) as u8
}

/// The rounded mean of two samples, the second one three times.
pub fn average_1_3(a: u8, b: u8) -> (mean: u8)
    ensures
        mean == end_smooth(a as int, b as int),
{
    ((a as u16 + 3 * b as u16 + 2) / 4) as u8
}

/// The numbers in a list of samples.
pub open spec fn sample_ints(samples: Seq<u8>) -> Seq<int> {
    Seq::new(samples.len(), |i: int| samples[i] as int)
}

/// The rounded mean of the neighbours that exist, or the middle of the range.
pub open spec fn dc_of(has_top: bool, top: Seq<u8>, has_left: bool, left: Seq<u8>) -> int {
    let top_sum = if has_top {
        sum_of(sample_ints(top), top.len() as int)
    } else {
        0
    };
    let left_sum = if has_left {
        sum_of(sample_ints(left), left.len() as int)
    } else {
        0
    };
    let count = (if has_top {
        top.len() as int
    } else {
        0
    }) + (if has_left {
        left.len() as int
    } else {
        0
    });
    if count == 0 {
        128
    } else {
        (top_sum + left_sum + count / 2) / count
    }
}

/// The sum of a list of samples.
fn sample_sum(samples: &[u8]) -> (sum: u32)
    requires
        samples@.len() <= 16,
    ensures
        sum == sum_of(sample_ints(samples@), samples@.len() as int),
        sum <= 255 * samples@.len(),
{
    let mut sum: u32 = 0;
    let mut i: usize = 0;
    while i < samples.len()
        invariant
            i <= samples@.len() <= 16,
            sum == sum_of(sample_ints(samples@), i as int),
            sum <= 255 * i,
        decreases samples@.len() - i,
    {
        assert(sample_ints(samples@)[i as int] == samples@[i as int]);
        sum = sum + samples[i] as u32;
        i = i + 1;
    }
    sum
}

/// The rounded mean of the neighbours that exist, or the middle of the range.
pub fn dc_value(top: Option<&[u8]>, left: Option<&[u8]>) -> (value: u8)
    requires
        top matches Some(samples) ==> samples@.len() <= 16,
        left matches Some(samples) ==> samples@.len() <= 16,
    ensures
        value == dc_of(
            top is Some,
            match top {
                Some(samples) => samples@,
                None => Seq::empty(),
            },
            left is Some,
            match left {
                Some(samples) => samples@,
                None => Seq::empty(),
            },
        ),
{
    let mut sum: u32 = 0;
    let mut count: u32 = 0;
    if let Some(samples) = top {
        sum = sample_sum(samples);
        count = samples.len() as u32;
    }
    if let Some(samples) = left {
        sum = sum + sample_sum(samples);
        count = count + samples.len() as u32;
    }
    if count == 0 {
        128
    } else {
        let mean: u32 = (sum + count / 2) / count;
        assert((sum + count as int / 2) / count as int <= 255) by (nonlinear_arith)
            requires
                0 < count,
                0 <= sum <= 255 * count,
        ;
        mean as u8
    }
}

/// A sample of a neighbouring line, or the corner before it.
pub open spec fn line_at(line: Seq<u8>, corner: u8, index: int) -> int {
    if index < 0 {
        corner as int
    } else {
        line[index] as int
    }
}

/// The sample at `(x, y)` of a block that is predicted in a diagonal direction. `top` holds twice
/// as many samples as `left`.
pub open spec fn diagonal(
    side: int,
    mode: int,
    top: Seq<u8>,
    left: Seq<u8>,
    corner: u8,
    x: int,
    y: int,
) -> int {
    if mode == 3 {
        if x == side - 1 && y == side - 1 {
            end_smooth(top[2 * side - 2] as int, top[2 * side - 1] as int)
        } else {
            smooth(top[x + y] as int, top[x + y + 1] as int, top[x + y + 2] as int)
        }
    } else if mode == 4 {
        if x > y {
            smooth(
                line_at(top, corner, x - y - 2),
                line_at(top, corner, x - y - 1),
                line_at(top, corner, x - y),
            )
        } else if x < y {
            smooth(
                line_at(left, corner, y - x - 2),
                line_at(left, corner, y - x - 1),
                line_at(left, corner, y - x),
            )
        } else {
            smooth(top[0] as int, corner as int, left[0] as int)
        }
    } else if mode == 5 {
        steep(top, left, corner, x, y)
    } else if mode == 6 {
        steep(left, top, corner, y, x)
    } else if mode == 7 {
        let start = x + y / 2;
        if y % 2 == 0 {
            mean_of(top[start] as int, top[start + 1] as int)
        } else {
            smooth(top[start] as int, top[start + 1] as int, top[start + 2] as int)
        }
    } else {
        let z = x + 2 * y;
        if z < 2 * side - 3 {
            if z % 2 == 0 {
                mean_of(left[z / 2] as int, left[z / 2 + 1] as int)
            } else {
                smooth(left[z / 2] as int, left[z / 2 + 1] as int, left[z / 2 + 2] as int)
            }
        } else if z == 2 * side - 3 {
            smooth(left[side - 2] as int, left[side - 1] as int, left[side - 1] as int)
        } else {
            left[side - 1] as int
        }
    }
}

/// The sample at `(u, v)` of a block that is predicted along a steep direction, where `near` is the
/// neighbouring line along `u` and `far` the one along `v`.
pub open spec fn steep(near: Seq<u8>, far: Seq<u8>, corner: u8, u: int, v: int) -> int {
    let z = 2 * u - v;
    if z >= 0 {
        if z % 2 == 0 {
            mean_of(line_at(near, corner, u - v / 2 - 1), line_at(near, corner, u - v / 2))
        } else {
            smooth(
                line_at(near, corner, u - v / 2 - 2),
                line_at(near, corner, u - v / 2 - 1),
                line_at(near, corner, u - v / 2),
            )
        }
    } else if z == -1 {
        smooth(far[0] as int, corner as int, near[0] as int)
    } else {
        smooth(
            line_at(far, corner, v - 2 * u - 1),
            line_at(far, corner, v - 2 * u - 2),
            line_at(far, corner, v - 2 * u - 3),
        )
    }
}

/// Whether the neighbours that a prediction mode needs exist.
pub open spec fn mode_available(mode: int, has_top: bool, has_left: bool) -> bool {
    if mode == 0 || mode == 3 || mode == 7 {
        has_top
    } else if mode == 1 || mode == 8 {
        has_left
    } else if mode == 4 || mode == 5 || mode == 6 {
        has_top && has_left
    } else {
        mode == 2
    }
}

/// The sample at place `i`, row by row, of a predicted block.
pub open spec fn block_sample(
    side: int,
    mode: int,
    has_top: bool,
    top: Seq<u8>,
    has_left: bool,
    left: Seq<u8>,
    corner: u8,
    i: int,
) -> int {
    if mode == 0 {
        top[i % side] as int
    } else if mode == 1 {
        left[i / side] as int
    } else if mode == 2 {
        dc_of(has_top, top.take(side), has_left, left)
    } else {
        diagonal(side, mode, top, left, corner, i % side, i / side)
    }
}

/// A predicted block, row by row, if the neighbours that its mode needs exist.
pub open spec fn block_predicted(
    side: int,
    mode: int,
    has_top: bool,
    top: Seq<u8>,
    has_left: bool,
    left: Seq<u8>,
    corner: u8,
) -> Option<Seq<u8>> {
    if mode_available(mode, has_top, has_left) {
        Some(
            Seq::new(
                (side * side) as nat,
                |i: int|
                    block_sample(side, mode, has_top, top, has_left, left, corner, i) as u8,
            ),
        )
    } else {
        None
    }
}

/// A sample of a neighbouring line, or the corner before it.
fn line_sample(line: &[u8], corner: u8, index: i32) -> (sample: u8)
    requires
        index < line@.len(),
    ensures
        sample == line_at(line@, corner, index as int),
{
    if index < 0 {
        corner
    } else {
        line[index as usize]
    }
}

/// The sample at `(u, v)` of a block that is predicted along a steep direction.
fn steep_sample(near: &[u8], far: &[u8], corner: u8, u: i32, v: i32) -> (sample: u8)
    requires
        4 <= near@.len(),
        4 <= far@.len(),
        0 <= u < 8,
        0 <= v < 8,
        u < near@.len(),
        v < far@.len(),
    ensures
        sample == steep(near@, far@, corner, u as int, v as int),
{
    let z: i32 = 2 * u - v;
    if z >= 0 {
        if z % 2 == 0 {
            average(
                line_sample(near, corner, u - v / 2 - 1),
                line_sample(near, corner, u - v / 2),
            )
        } else {
            filter_1_2_1(
                line_sample(near, corner, u - v / 2 - 2),
                line_sample(near, corner, u - v / 2 - 1),
                line_sample(near, corner, u - v / 2),
            )
        }
    } else if z == -1 {
        filter_1_2_1(far[0], corner, near[0])
    } else {
        filter_1_2_1(
            line_sample(far, corner, v - 2 * u - 1),
            line_sample(far, corner, v - 2 * u - 2),
            line_sample(far, corner, v - 2 * u - 3),
        )
    }
}

/// The sample at `(x, y)` of a block that is predicted in a diagonal direction.
fn diagonal_sample(
    side: usize,
    mode: u8,
    top: &[u8],
    left: &[u8],
    corner: u8,
    x: usize,
    y: usize,
) -> (sample: u8)
    requires
        side == 4 || side == 8,
        3 <= mode <= 8,
        top@.len() == 2 * side,
        left@.len() == side,
        x < side,
        y < side,
    ensures
        sample == diagonal(
            side as int,
            mode as int,
            top@,
            left@,
            corner,
            x as int,
            y as int,
        ),
{
    if mode == 3 {
        if x == side - 1 && y == side - 1 {
            average_1_3(top[2 * side - 2], top[2 * side - 1])
        } else {
            filter_1_2_1(top[x + y], top[x + y + 1], top[x + y + 2])
        }
    } else if mode == 4 {
        let column: i32 = x as i32;
        let row: i32 = y as i32;
        if x > y {
            filter_1_2_1(
                line_sample(top, corner, column - row - 2),
                line_sample(top, corner, column - row - 1),
                line_sample(top, corner, column - row),
            )
        } else if x < y {
            filter_1_2_1(
                line_sample(left, corner, row - column - 2),
                line_sample(left, corner, row - column - 1),
                line_sample(left, corner, row - column),
            )
        } else {
            filter_1_2_1(top[0], corner, left[0])
        }
    } else if mode == 5 {
        steep_sample(top, left, corner, x as i32, y as i32)
    } else if mode == 6 {
        steep_sample(left, top, corner, y as i32, x as i32)
    } else if mode == 7 {
        let start: usize = x + y / 2;
        if y % 2 == 0 {
            average(top[start], top[start + 1])
        } else {
            filter_1_2_1(top[start], top[start + 1], top[start + 2])
        }
    } else {
        let z: usize = x + 2 * y;
        if z < 2 * side - 3 {
            if z % 2 == 0 {
                average(left[z / 2], left[z / 2 + 1])
            } else {
                filter_1_2_1(left[z / 2], left[z / 2 + 1], left[z / 2 + 2])
            }
        } else if z == 2 * side - 3 {
            filter_1_2_1(left[side - 2], left[side - 1], left[side - 1])
        } else {
            left[side - 1]
        }
    }
}

/// Whether the neighbours that a prediction mode needs exist.
fn is_mode_available(mode: u8, has_top: bool, has_left: bool) -> (result: bool)
    ensures
        result == mode_available(mode as int, has_top, has_left),
{
    if mode == 0 || mode == 3 || mode == 7 {
        has_top
    } else if mode == 1 || mode == 8 {
        has_left
    } else if mode == 4 || mode == 5 || mode == 6 {
        has_top && has_left
    } else {
        mode == 2
    }
}

/// Predicts a block from its neighbours.
fn predict_block(
    side: usize,
    mode: u8,
    has_top: bool,
    top: &[u8],
    has_left: bool,
    left: &[u8],
    corner: u8,
) -> (samples: Vec<u8>)
    requires
        side == 4 || side == 8,
        mode_available(mode as int, has_top, has_left),
        top@.len() == 2 * side,
        left@.len() == side,
    ensures
        Some(samples@) == block_predicted(
            side as int,
            mode as int,
            has_top,
            top@,
            has_left,
            left@,
            corner,
        ),
        samples@.len() == side * side,
{
    let count: usize = side * side;
    let near: &[u8] = &top[0..side];
    assert(near@ =~= top@.take(side as int));
    let dc: u8 = dc_value(
        if has_top {
            Some(near)
        } else {
            None
        },
        if has_left {
            Some(left)
        } else {
            None
        },
    );
    let ghost expected = block_predicted(
        side as int,
        mode as int,
        has_top,
        top@,
        has_left,
        left@,
        corner,
    )->Some_0;
    assert(dc == dc_of(has_top, top@.take(side as int), has_left, left@));
    let mut samples: Vec<u8> = Vec::with_capacity(count);
    let mut y: usize = 0;
    while y < side
        invariant
            y <= side,
            side == 4 || side == 8,
            count == side * side,
            mode_available(mode as int, has_top, has_left),
            top@.len() == 2 * side,
            left@.len() == side,
            dc == dc_of(has_top, top@.take(side as int), has_left, left@),
            expected == block_predicted(
                side as int,
                mode as int,
                has_top,
                top@,
                has_left,
                left@,
                corner,
            )->Some_0,
            samples@.len() == y * side,
            forall|j: int| 0 <= j < samples@.len() ==> #[trigger] samples@[j] == expected[j],
        decreases side - y,
    {
        let mut x: usize = 0;
        while x < side
            invariant
                y < side,
                x <= side,
                side == 4 || side == 8,
                count == side * side,
                mode_available(mode as int, has_top, has_left),
                top@.len() == 2 * side,
                left@.len() == side,
                dc == dc_of(has_top, top@.take(side as int), has_left, left@),
                expected == block_predicted(
                    side as int,
                    mode as int,
                    has_top,
                    top@,
                    has_left,
                    left@,
                    corner,
                )->Some_0,
                samples@.len() == y * side + x,
                forall|j: int| 0 <= j < samples@.len() ==> #[trigger] samples@[j] == expected[j],
            decreases side - x,
        {
            let sample: u8 = if mode == 0 {
                top[x]
            } else if mode == 1 {
                left[y]
            } else if mode == 2 {
                dc
            } else {
                diagonal_sample(side, mode, top, left, corner, x, y)
            };
            proof {
                let i = y * side + x;
                vstd::arithmetic::div_mod::lemma_fundamental_div_mod_converse(
                    i,
                    side as int,
                    y as int,
                    x as int,
                );
                assert(0 <= i < side * side) by (nonlinear_arith)
                    requires
                        i == y * side + x,
                        0 <= y < side,
                        0 <= x < side,
                ;
                assert(sample == expected[i]);
            }
            samples.push(sample);
            x = x + 1;
        }
        assert((y + 1) * side == y * side + side) by (nonlinear_arith);
        y = y + 1;
    }
    assert(samples@ =~= expected);
    samples
}

/// The samples above a four-by-four block and to the right of those; the ones that are not there
/// yet repeat the last one above the block.
pub open spec fn top_line_4(
    plane: Seq<u8>,
    stride: int,
    x: int,
    y: int,
    block: int,
    has_top: bool,
) -> Seq<u8> {
    Seq::new(
        8,
        |i: int|
            if !has_top {
                0
            } else if i < 4 {
                plane[(y - 1) * stride + (x + i)]
            } else if block == 3 || block == 11 || (y % 16 != 0 && x % 16 + i >= 16) || x + i
                >= stride {
                plane[(y - 1) * stride + (x + 3)]
            } else {
                plane[(y - 1) * stride + (x + i)]
            },
    )
}

/// The samples to the left of a block.
pub open spec fn left_line(
    plane: Seq<u8>,
    stride: int,
    x: int,
    y: int,
    side: int,
    has_left: bool,
) -> Seq<u8> {
    Seq::new(
        side as nat,
        |i: int|
            if !has_left {
                0
            } else {
                plane[(y + i) * stride + (x - 1)]
            },
    )
}

/// The sample above and to the left of a block.
pub open spec fn corner_of(
    plane: Seq<u8>,
    stride: int,
    x: int,
    y: int,
    has_top: bool,
    has_left: bool,
) -> u8 {
    if has_top && has_left {
        plane[(y - 1) * stride + (x - 1)]
    } else {
        0
    }
}

/// The prediction of a four-by-four block in a mode, if its neighbours exist.
pub open spec fn intra4_predicted(
    plane: Seq<u8>,
    stride: int,
    x: int,
    y: int,
    block: int,
    mode: int,
    top_macroblock: bool,
    left_macroblock: bool,
) -> Option<Seq<u8>> {
    let has_top = y % 16 > 0 || top_macroblock;
    let has_left = x % 16 > 0 || left_macroblock;
    block_predicted(
        4,
        mode,
        has_top,
        top_line_4(plane, stride, x, y, block, has_top),
        has_left,
        left_line(plane, stride, x, y, 4, has_left),
        corner_of(plane, stride, x, y, has_top, has_left),
    )
}

/// Reads a sample of the row above `(x, y)`.
pub fn above(plane: &[u8], stride: usize, x: usize, y: usize) -> (sample: u8)
    requires
        x < stride,
        0 < y,
        y * stride <= plane@.len(),
    ensures
        sample == plane@[(y - 1) * stride + x],
{
    let ghost length = plane@.len() as int;
    assert((y - 1 + 1) * stride == y * stride) by (nonlinear_arith);
    sample_in(plane, stride, 0, y - 1, stride, 1, x, 0)
}

/// Reads the samples to the left of a block.
pub fn read_left(plane: &[u8], stride: usize, x: usize, y: usize, side: usize, has_left: bool) -> (line:
    Vec<u8>)
    requires
        side <= 16,
        has_left ==> x > 0,
        region_inside(
            plane@.len() as int,
            stride as int,
            x as int,
            y as int,
            side as int,
            side as int,
        ),
        y + side <= usize::MAX,
    ensures
        line@ == left_line(plane@, stride as int, x as int, y as int, side as int, has_left),
{
    let ghost expected = left_line(
        plane@,
        stride as int,
        x as int,
        y as int,
        side as int,
        has_left,
    );
    let mut line: Vec<u8> = Vec::with_capacity(side);
    let mut i: usize = 0;
    while i < side
        invariant
            i <= side <= 16,
            has_left ==> x > 0,
            region_inside(
                plane@.len() as int,
                stride as int,
                x as int,
                y as int,
                side as int,
                side as int,
            ),
            line@.len() == i,
            expected == left_line(
                plane@,
                stride as int,
                x as int,
                y as int,
                side as int,
                has_left,
            ),
            forall|j: int| 0 <= j < i ==> #[trigger] line@[j] == expected[j],
        decreases side - i,
    {
        if has_left {
            line.push(sample_in(plane, stride, x - 1, y, 1, side, 0, i));
        } else {
            line.push(0);
        }
        i = i + 1;
    }
    assert(line@ =~= expected);
    line
}

/// Reads the sample above and to the left of a block.
fn read_corner(
    plane: &[u8],
    stride: usize,
    x: usize,
    y: usize,
    has_top: bool,
    has_left: bool,
) -> (corner: u8)
    requires
        x <= stride,
        has_left ==> x > 0,
        has_top ==> y > 0,
        y * stride <= plane@.len(),
    ensures
        corner == corner_of(plane@, stride as int, x as int, y as int, has_top, has_left),
{
    if has_top && has_left {
        above(plane, stride, x - 1, y)
    } else {
        0
    }
}

/// Reads the samples above a four-by-four block and to the right of those.
fn read_top_4(
    plane: &[u8],
    stride: usize,
    x: usize,
    y: usize,
    block_index: usize,
    has_top: bool,
) -> (line: Vec<u8>)
    requires
        x + 4 <= stride,
        has_top ==> y > 0,
        y * stride <= plane@.len(),
        x + 8 <= usize::MAX,
    ensures
        line@ == top_line_4(
            plane@,
            stride as int,
            x as int,
            y as int,
            block_index as int,
            has_top,
        ),
{
    let ghost expected = top_line_4(
        plane@,
        stride as int,
        x as int,
        y as int,
        block_index as int,
        has_top,
    );
    let mut line: Vec<u8> = Vec::with_capacity(8);
    let mut i: usize = 0;
    while i < 8
        invariant
            i <= 8,
            x + 4 <= stride,
            has_top ==> y > 0,
            y * stride <= plane@.len(),
            x + 8 <= usize::MAX,
            line@.len() == i,
            expected == top_line_4(
                plane@,
                stride as int,
                x as int,
                y as int,
                block_index as int,
                has_top,
            ),
            forall|j: int| 0 <= j < i ==> #[trigger] line@[j] == expected[j],
        decreases 8 - i,
    {
        if !has_top {
            line.push(0);
        } else if i < 4 {
            line.push(above(plane, stride, x + i, y));
        } else if block_index == 3 || block_index == 11 || (y % 16 != 0 && x % 16 + i >= 16) || x
            + i >= stride {
            line.push(above(plane, stride, x + 3, y));
        } else {
            line.push(above(plane, stride, x + i, y));
        }
        i = i + 1;
    }
    assert(line@ =~= expected);
    line
}

/// Copies sixteen samples into an array.
fn to_array_16(samples: &[u8]) -> (array: [u8; 16])
    requires
        samples@.len() == 16,
    ensures
        array@ == samples@,
{
    let mut array: [u8; 16] = [0u8; 16];
    let mut i: usize = 0;
    while i < 16
        invariant
            i <= 16,
            samples@.len() == 16,
            forall|j: int| 0 <= j < i ==> #[trigger] array@[j] == samples@[j],
        decreases 16 - i,
    {
        array[i] = samples[i];
        i = i + 1;
    }
    assert(array@ =~= samples@);
    array
}

/// Copies 64 samples into an array.
fn to_array_64(samples: &[u8]) -> (array: [u8; 64])
    requires
        samples@.len() == 64,
    ensures
        array@ == samples@,
{
    let mut array: [u8; 64] = [0u8; 64];
    let mut i: usize = 0;
    while i < 64
        invariant
            i <= 64,
            samples@.len() == 64,
            forall|j: int| 0 <= j < i ==> #[trigger] array@[j] == samples@[j],
        decreases 64 - i,
    {
        array[i] = samples[i];
        i = i + 1;
    }
    assert(array@ =~= samples@);
    array
}

/// Predicts a four-by-four block in a mode, if its neighbours exist.
pub fn intra4_prediction(
    plane: &[u8],
    stride: usize,
    origin_x: usize,
    origin_y: usize,
    block_index: usize,
    mode: u8,
    top_macroblock_available: bool,
    left_macroblock_available: bool,
) -> (result: Option<[u8; 16]>)
    requires
        region_inside(
            plane@.len() as int,
            stride as int,
            origin_x as int,
            origin_y as int,
            4,
            4,
        ),
        top_macroblock_available ==> origin_y > 0,
        left_macroblock_available ==> origin_x > 0,
        origin_x + 8 <= usize::MAX,
    ensures
        match intra4_predicted(
            plane@,
            stride as int,
            origin_x as int,
            origin_y as int,
            block_index as int,
            mode as int,
            top_macroblock_available,
            left_macroblock_available,
        ) {
            Some(samples) => result matches Some(array) && array@ == samples,
            None => result is None,
        },
{
    let has_top = origin_y % 16 > 0 || top_macroblock_available;
    let has_left = origin_x % 16 > 0 || left_macroblock_available;
    if !is_mode_available(mode, has_top, has_left) {
        return None;
    }
    let length: usize = plane.len();
    proof {
        lemma_region_place(
            length as int,
            stride as int,
            origin_x as int,
            origin_y as int,
            4,
            4,
            0,
            3,
        );
        assert(origin_y * stride <= (origin_y + 4) * stride) by (nonlinear_arith)
            requires
                0 <= stride,
        ;
    }
    let top: Vec<u8> = read_top_4(plane, stride, origin_x, origin_y, block_index, has_top);
    let left: Vec<u8> = read_left(plane, stride, origin_x, origin_y, 4, has_left);
    let corner: u8 = read_corner(plane, stride, origin_x, origin_y, has_top, has_left);
    let samples: Vec<u8> = predict_block(
        4,
        mode,
        has_top,
        top.as_slice(),
        has_left,
        left.as_slice(),
        corner,
    );
    Some(to_array_16(samples.as_slice()))
}

/// The samples above an eight-by-eight block and to the right of those.
pub open spec fn top_line_8(
    plane: Seq<u8>,
    stride: int,
    x: int,
    y: int,
    group: int,
    has_top: bool,
) -> Seq<u8> {
    Seq::new(
        16,
        |i: int|
            if !has_top {
                0
            } else if i < 8 {
                plane[(y - 1) * stride + (x + i)]
            } else if group == 3 || x + i >= stride {
                plane[(y - 1) * stride + (x + 7)]
            } else {
                plane[(y - 1) * stride + (x + i)]
            },
    )
}

/// A neighbouring line smoothed along its length.
pub open spec fn smoothed_line(line: Seq<u8>, has_corner: bool, corner: u8) -> Seq<u8> {
    let last = line.len() - 1;
    Seq::new(
        line.len(),
        |i: int|
            (if i == 0 {
                if has_corner {
                    smooth(corner as int, line[0] as int, line[1] as int)
                } else {
                    end_smooth(line[1] as int, line[0] as int)
                }
            } else if i == last {
                end_smooth(line[last - 1] as int, line[last] as int)
            } else {
                smooth(line[i - 1] as int, line[i] as int, line[i + 1] as int)
            }) as u8,
    )
}

/// The prediction of an eight-by-eight block in a mode, if its neighbours exist.
pub open spec fn intra8_predicted(
    plane: Seq<u8>,
    stride: int,
    x: int,
    y: int,
    group: int,
    mode: int,
    top_macroblock: bool,
    left_macroblock: bool,
) -> Option<Seq<u8>> {
    let has_top = group / 2 > 0 || top_macroblock;
    let has_left = group % 2 != 0 || left_macroblock;
    let corner = corner_of(plane, stride, x, y, has_top, has_left);
    block_predicted(
        8,
        mode,
        has_top,
        smoothed_line(
            top_line_8(plane, stride, x, y, group, has_top),
            has_top && has_left,
            corner,
        ),
        has_left,
        smoothed_line(
            left_line(plane, stride, x, y, 8, has_left),
            has_top && has_left,
            corner,
        ),
        corner,
    )
}

/// Reads the samples above an eight-by-eight block and to the right of those.
fn read_top_8(
    plane: &[u8],
    stride: usize,
    x: usize,
    y: usize,
    group: usize,
    has_top: bool,
) -> (line: Vec<u8>)
    requires
        x + 8 <= stride,
        has_top ==> y > 0,
        y * stride <= plane@.len(),
        x + 16 <= usize::MAX,
    ensures
        line@ == top_line_8(
            plane@,
            stride as int,
            x as int,
            y as int,
            group as int,
            has_top,
        ),
{
    let ghost expected = top_line_8(
        plane@,
        stride as int,
        x as int,
        y as int,
        group as int,
        has_top,
    );
    let mut line: Vec<u8> = Vec::with_capacity(16);
    let mut i: usize = 0;
    while i < 16
        invariant
            i <= 16,
            x + 8 <= stride,
            has_top ==> y > 0,
            y * stride <= plane@.len(),
            x + 16 <= usize::MAX,
            line@.len() == i,
            expected == top_line_8(
                plane@,
                stride as int,
                x as int,
                y as int,
                group as int,
                has_top,
            ),
            forall|j: int| 0 <= j < i ==> #[trigger] line@[j] == expected[j],
        decreases 16 - i,
    {
        if !has_top {
            line.push(0);
        } else if i < 8 {
            line.push(above(plane, stride, x + i, y));
        } else if group == 3 || x + i >= stride {
            line.push(above(plane, stride, x + 7, y));
        } else {
            line.push(above(plane, stride, x + i, y));
        }
        i = i + 1;
    }
    assert(line@ =~= expected);
    line
}

/// Smooths a neighbouring line along its length.
fn smooth_line(line: &[u8], has_corner: bool, corner: u8) -> (result: Vec<u8>)
    requires
        2 <= line@.len() <= 16,
    ensures
        result@ == smoothed_line(line@, has_corner, corner),
{
    let ghost expected = smoothed_line(line@, has_corner, corner);
    let last: usize = line.len() - 1;
    let mut result: Vec<u8> = Vec::with_capacity(line.len());
    let mut i: usize = 0;
    while i < line.len()
        invariant
            i <= line@.len() <= 16,
            last == line@.len() - 1,
            1 <= last,
            result@.len() == i,
            expected == smoothed_line(line@, has_corner, corner),
            forall|j: int| 0 <= j < i ==> #[trigger] result@[j] == expected[j],
        decreases line@.len() - i,
    {
        if i == 0 {
            if has_corner {
                result.push(filter_1_2_1(corner, line[0], line[1]));
            } else {
                result.push(average_1_3(line[1], line[0]));
            }
        } else if i == last {
            result.push(average_1_3(line[last - 1], line[last]));
        } else {
            result.push(filter_1_2_1(line[i - 1], line[i], line[i + 1]));
        }
        i = i + 1;
    }
    assert(result@ =~= expected);
    result
}

/// Predicts an eight-by-eight block in a mode, if its neighbours exist.
pub fn intra8_prediction(
    plane: &[u8],
    stride: usize,
    origin_x: usize,
    origin_y: usize,
    group: usize,
    mode: u8,
    top_macroblock_available: bool,
    left_macroblock_available: bool,
) -> (result: Option<[u8; 64]>)
    requires
        region_inside(
            plane@.len() as int,
            stride as int,
            origin_x as int,
            origin_y as int,
            8,
            8,
        ),
        group / 2 > 0 || top_macroblock_available ==> origin_y > 0,
        group % 2 != 0 || left_macroblock_available ==> origin_x > 0,
        origin_x + 16 <= usize::MAX,
    ensures
        match intra8_predicted(
            plane@,
            stride as int,
            origin_x as int,
            origin_y as int,
            group as int,
            mode as int,
            top_macroblock_available,
            left_macroblock_available,
        ) {
            Some(samples) => result matches Some(array) && array@ == samples,
            None => result is None,
        },
{
    let has_top = group / 2 > 0 || top_macroblock_available;
    let has_left = group % 2 != 0 || left_macroblock_available;
    if !is_mode_available(mode, has_top, has_left) {
        return None;
    }
    let length: usize = plane.len();
    proof {
        lemma_region_place(
            length as int,
            stride as int,
            origin_x as int,
            origin_y as int,
            8,
            8,
            0,
            7,
        );
        assert(origin_y * stride <= (origin_y + 8) * stride) by (nonlinear_arith)
            requires
                0 <= stride,
        ;
    }
    let corner: u8 = read_corner(plane, stride, origin_x, origin_y, has_top, has_left);
    let raw_top: Vec<u8> = read_top_8(plane, stride, origin_x, origin_y, group, has_top);
    let raw_left: Vec<u8> = read_left(plane, stride, origin_x, origin_y, 8, has_left);
    let top: Vec<u8> = smooth_line(raw_top.as_slice(), has_top && has_left, corner);
    let left: Vec<u8> = smooth_line(raw_left.as_slice(), has_top && has_left, corner);
    let samples: Vec<u8> = predict_block(
        8,
        mode,
        has_top,
        top.as_slice(),
        has_left,
        left.as_slice(),
        corner,
    );
    Some(to_array_64(samples.as_slice()))
}

/// Where every neighbour exists, each of the nine modes predicts a block.
pub proof fn law_modes_available(mode: int)
    ensures
        mode_available(mode, true, true) <==> 0 <= mode <= 8,
{
}

/// The mean of the neighbours predicts every block.
pub proof fn law_mean_always_available(has_top: bool, has_left: bool)
    ensures
        mode_available(2, has_top, has_left),
{
}

/// The distances between the source and a predicted block.
pub open spec fn distances(
    source: Seq<u8>,
    stride: int,
    x: int,
    y: int,
    size: int,
    prediction: Seq<u8>,
) -> Seq<int> {
    Seq::new(
        (size * size) as nat,
        |i: int|
            magnitude(source[(y + i / size) * stride + (x + i % size)] - prediction[i]),
    )
}

/// The sum of the distances between the source and a predicted block.
pub open spec fn block_distance(
    source: Seq<u8>,
    stride: int,
    x: int,
    y: int,
    size: int,
    prediction: Seq<u8>,
) -> int {
    sum_of(distances(source, stride, x, y, size, prediction), size * size)
}

/// The sum of the distances between the source and a predicted block.
pub fn block_sad(
    source: &[u8],
    stride: usize,
    origin_x: usize,
    origin_y: usize,
    size: usize,
    prediction: &[u8],
) -> (sad: u64)
    requires
        region_inside(
            source@.len() as int,
            stride as int,
            origin_x as int,
            origin_y as int,
            size as int,
            size as int,
        ),
        1 <= size <= 16,
        prediction@.len() == size * size,
    ensures
        sad == block_distance(
            source@,
            stride as int,
            origin_x as int,
            origin_y as int,
            size as int,
            prediction@,
        ),
        sad <= 65280,
{
    let ghost all = distances(
        source@,
        stride as int,
        origin_x as int,
        origin_y as int,
        size as int,
        prediction@,
    );
    let count: usize = prediction.len();
    assert(size * size <= 256) by (nonlinear_arith)
        requires
            1 <= size <= 16,
    ;
    let mut sad: u64 = 0;
    let mut i: usize = 0;
    while i < count
        invariant
            i <= count,
            count == prediction@.len(),
            count == size * size,
            count <= 256,
            1 <= size <= 16,
            region_inside(
                source@.len() as int,
                stride as int,
                origin_x as int,
                origin_y as int,
                size as int,
                size as int,
            ),
            all == distances(
                source@,
                stride as int,
                origin_x as int,
                origin_y as int,
                size as int,
                prediction@,
            ),
            sad == sum_of(all, i as int),
            sad <= 255 * i,
        decreases count - i,
    {
        assert((i as int / (size as int)) < size && (i as int % (size as int)) < size)
            by (nonlinear_arith)
            requires
                0 <= i < size * size,
                1 <= size,
        ;
        let sample: u8 = sample_in(
            source,
            stride,
            origin_x,
            origin_y,
            size,
            size,
            i % size,
            i / size,
        );
        let other: u8 = prediction[i];
        let step: u8 = if sample >= other {
            sample - other
        } else {
            other - sample
        };
        assert(step == all[i as int]);
        sad = sad + step as u64;
        i = i + 1;
    }
    sad
}

} // verus!
