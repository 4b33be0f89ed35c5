//! Choosing the prediction of whole macroblocks.

use vstd::prelude::*;

use crate::intra::{
    above, block_distance, block_sad, dc_of, dc_value, left_line, read_left,
};
use crate::plane::region_inside;

verus! {

/// The samples above a block.
pub open spec fn above_line(
    plane: Seq<u8>,
    stride: int,
    x: int,
    y: int,
    count: int,
    has_top: bool,
) -> Seq<u8> {
    Seq::new(
        count as nat,
        |i: int|
            if !has_top {
                0
            } else {
                plane[(y - 1) * stride + (x + i)]
            },
    )
}

/// Reads the samples above a block.
fn read_above(plane: &[u8], stride: usize, x: usize, y: usize, count: usize, has_top: bool) -> (line:
    Vec<u8>)
    requires
        x + count <= stride,
        has_top ==> y > 0,
        y * stride <= plane@.len(),
    ensures
        line@ == above_line(plane@, stride as int, x as int, y as int, count as int, has_top),
{
    let ghost expected = above_line(
        plane@,
        stride as int,
        x as int,
        y as int,
        count as int,
        has_top,
    );
    let mut line: Vec<u8> = Vec::with_capacity(count);
    let mut i: usize = 0;
    while i < count
        invariant
            i <= count,
            x + count <= stride,
            has_top ==> y > 0,
            y * stride <= plane@.len(),
            line@.len() == i,
            expected == above_line(
                plane@,
                stride as int,
                x as int,
                y as int,
                count as int,
                has_top,
            ),
            forall|j: int| 0 <= j < i ==> #[trigger] line@[j] == expected[j],
        decreases count - i,
    {
        if has_top {
            line.push(above(plane, stride, x + i, y));
        } else {
            line.push(0);
        }
        i = i + 1;
    }
    assert(line@ =~= expected);
    line
}

/// A luma macroblock predicted as a whole: from above, from the left, or by the mean.
pub open spec fn luma16_predicted(
    plane: Seq<u8>,
    stride: int,
    x: int,
    y: int,
    has_top: bool,
    has_left: bool,
    mode: int,
) -> Seq<u8> {
    let top = above_line(plane, stride, x, y, 16, has_top);
    let left = left_line(plane, stride, x, y, 16, has_left);
    Seq::new(
        256,
        |i: int|
            if mode == 0 {
                top[i % 16]
            } else if mode == 1 {
                left[i / 16]
            } else {
                dc_of(has_top, top, has_left, left) as u8
            },
    )
}

/// The first of three costs that is smallest, among those whose candidates exist; the third always
/// does.
pub open spec fn first_smallest(
    has_first: bool,
    first: int,
    has_second: bool,
    second: int,
    third: int,
) -> int {
    if has_first && (!has_second || first <= second) && first <= third {
        0
    } else if has_second && second <= third {
        1
    } else {
        2
    }
}

/// The mode in which a luma macroblock is predicted.
pub open spec fn luma16_mode(
    source: Seq<u8>,
    plane: Seq<u8>,
    stride: int,
    x: int,
    y: int,
    has_top: bool,
    has_left: bool,
) -> int {
    first_smallest(
        has_top,
        block_distance(
            source,
            stride,
            x,
            y,
            16,
            luma16_predicted(plane, stride, x, y, has_top, has_left, 0),
        ),
        has_left,
        block_distance(
            source,
            stride,
            x,
            y,
            16,
            luma16_predicted(plane, stride, x, y, has_top, has_left, 1),
        ),
        block_distance(
            source,
            stride,
            x,
            y,
            16,
            luma16_predicted(plane, stride, x, y, has_top, has_left, 2),
        ),
    )
}

/// Fills a macroblock with a line above it.
fn fill_from_top(top: &[u8], count: usize) -> (samples: Vec<u8>)
    requires
        top@.len() == count,
        count == 8 || count == 16,
    ensures
        samples@ == Seq::new((count * count) as nat, |i: int| top@[i % (count as int)]),
{
    let ghost expected = Seq::new((count * count) as nat, |i: int| top@[i % (count as int)]);
    let total: usize = count * count;
    let mut samples: Vec<u8> = Vec::with_capacity(total);
    let mut i: usize = 0;
    while i < total
        invariant
            i <= total,
            total == count * count,
            top@.len() == count,
            count == 8 || count == 16,
            samples@.len() == i,
            expected == Seq::new((count * count) as nat, |i: int| top@[i % (count as int)]),
            forall|j: int| 0 <= j < i ==> #[trigger] samples@[j] == expected[j],
        decreases total - i,
    {
        samples.push(top[i % count]);
        i = i + 1;
    }
    assert(samples@ =~= expected);
    samples
}

/// Fills a macroblock with a line on its left.
fn fill_from_left(left: &[u8], count: usize) -> (samples: Vec<u8>)
    requires
        left@.len() == count,
        count == 8 || count == 16,
    ensures
        samples@ == Seq::new((count * count) as nat, |i: int| left@[i / (count as int)]),
{
    let ghost expected = Seq::new((count * count) as nat, |i: int| left@[i / (count as int)]);
    let total: usize = count * count;
    let mut samples: Vec<u8> = Vec::with_capacity(total);
    let mut i: usize = 0;
    while i < total
        invariant
            i <= total,
            total == count * count,
            left@.len() == count,
            count == 8 || count == 16,
            samples@.len() == i,
            expected == Seq::new((count * count) as nat, |i: int| left@[i / (count as int)]),
            forall|j: int| 0 <= j < i ==> #[trigger] samples@[j] == expected[j],
        decreases total - i,
    {
        samples.push(left[i / count]);
        i = i + 1;
    }
    assert(samples@ =~= expected);
    samples
}

/// Chooses the prediction of a luma macroblock that is predicted as a whole.
pub fn select_luma_prediction(
    source: &[u8],
    reconstructed: &[u8],
    stride: usize,
    macroblock_x: usize,
    macroblock_y: usize,
) -> (choice: (u8, Vec<u8>))
    requires
        region_inside(
            source@.len() as int,
            stride as int,
            macroblock_x * 16,
            macroblock_y * 16,
            16,
            16,
        ),
        region_inside(
            reconstructed@.len() as int,
            stride as int,
            macroblock_x * 16,
            macroblock_y * 16,
            16,
            16,
        ),
        macroblock_x * 16 + 16 <= usize::MAX,
        macroblock_y * 16 + 16 <= usize::MAX,
    ensures
        choice.0 == luma16_mode(
            source@,
            reconstructed@,
            stride as int,
            macroblock_x * 16,
            macroblock_y * 16,
            macroblock_y > 0,
            macroblock_x > 0,
        ),
        choice.1@ == luma16_predicted(
            reconstructed@,
            stride as int,
            macroblock_x * 16,
            macroblock_y * 16,
            macroblock_y > 0,
            macroblock_x > 0,
            choice.0 as int,
        ),
        choice.0 <= 2,
        choice.1@.len() == 256,
{
    let x: usize = macroblock_x * 16;
    let y: usize = macroblock_y * 16;
    let has_top = macroblock_y > 0;
    let has_left = macroblock_x > 0;
    assert(y * stride <= (y + 16) * stride) by (nonlinear_arith)
        requires
            0 <= stride,
    ;
    let top: Vec<u8> = read_above(reconstructed, stride, x, y, 16, has_top);
    let left: Vec<u8> = read_left(reconstructed, stride, x, y, 16, has_left);
    let vertical: Vec<u8> = fill_from_top(top.as_slice(), 16);
    let horizontal: Vec<u8> = fill_from_left(left.as_slice(), 16);
    let dc: u8 = dc_value(
        if has_top {
            Some(top.as_slice())
        } else {
            None
        },
        if has_left {
            Some(left.as_slice())
        } else {
            None
        },
    );
    let mean: Vec<u8> = vec![dc; 256];
    proof {
        let spec_x = x as int;
        let spec_y = y as int;
        assert(vertical@ =~= luma16_predicted(
            reconstructed@,
            stride as int,
            spec_x,
            spec_y,
            has_top,
            has_left,
            0,
        ));
        assert(horizontal@ =~= luma16_predicted(
            reconstructed@,
            stride as int,
            spec_x,
            spec_y,
            has_top,
            has_left,
            1,
        ));
        assert(mean@ =~= luma16_predicted(
            reconstructed@,
            stride as int,
            spec_x,
            spec_y,
            has_top,
            has_left,
            2,
        ));
    }
    let first: u64 = block_sad(source, stride, x, y, 16, vertical.as_slice());
    let second: u64 = block_sad(source, stride, x, y, 16, horizontal.as_slice());
    let third: u64 = block_sad(source, stride, x, y, 16, mean.as_slice());
    if has_top && (!has_left || first <= second) && first <= third {
        (0, vertical)
    } else if has_left && second <= third {
        (1, horizontal)
    } else {
        (2, mean)
    }
}

/// The sample at place `i`, row by row, of a chroma macroblock that is predicted by the means of
/// its neighbours.
pub open spec fn chroma_mean_sample(
    has_top: bool,
    top: Seq<u8>,
    has_left: bool,
    left: Seq<u8>,
    i: int,
) -> int {
    let column = i % 8 / 4;
    let row = i / 32;
    let use_top = has_top && (!has_left || row == 0 || column == 1);
    let use_left = has_left && (!has_top || column == 0 || row == 1);
    dc_of(
        use_top,
        top.subrange(column * 4, column * 4 + 4),
        use_left,
        left.subrange(row * 4, row * 4 + 4),
    )
}

/// A chroma macroblock predicted by means, from the left, or from above.
pub open spec fn chroma_predicted(
    plane: Seq<u8>,
    stride: int,
    x: int,
    y: int,
    has_top: bool,
    has_left: bool,
    mode: int,
) -> Seq<u8> {
    let top = above_line(plane, stride, x, y, 8, has_top);
    let left = left_line(plane, stride, x, y, 8, has_left);
    Seq::new(
        64,
        |i: int|
            if mode == 0 {
                chroma_mean_sample(has_top, top, has_left, left, i) as u8
            } else if mode == 1 {
                left[i / 8]
            } else {
                top[i % 8]
            },
    )
}

/// Predicts a chroma macroblock by the means of its neighbours.
pub fn predict_chroma_dc(top: Option<&[u8]>, left: Option<&[u8]>) -> (samples: Vec<u8>)
    requires
        top matches Some(line) ==> line@.len() == 8,
        left matches Some(line) ==> line@.len() == 8,
    ensures
        samples@.len() == 64,
        forall|top_line: Seq<u8>, left_line: Seq<u8>, i: int|
            0 <= i < 64 && (top matches Some(line) ==> line@ == top_line) && (left matches Some(line)
                ==> line@ == left_line) ==> samples@[i] == #[trigger] chroma_mean_sample(
                top is Some,
                top_line,
                left is Some,
                left_line,
                i,
            ),
{
    let mut values: [u8; 4] = [0u8; 4];
    let mut b: usize = 0;
    while b < 4
        invariant
            b <= 4,
            top matches Some(line) ==> line@.len() == 8,
            left matches Some(line) ==> line@.len() == 8,
            forall|top_line: Seq<u8>, left_line: Seq<u8>, i: int|
                0 <= i < 64 && i / 32 * 2 + i % 8 / 4 < b && (top matches Some(line) ==> line@
                    == top_line) && (left matches Some(line) ==> line@ == left_line) ==> values@[i
                    / 32 * 2 + i % 8 / 4] == #[trigger] chroma_mean_sample(
                    top is Some,
                    top_line,
                    left is Some,
                    left_line,
                    i,
                ),
        decreases 4 - b,
    {
        let column: usize = b % 2;
        let row: usize = b / 2;
        let use_top = top.is_some() && (left.is_none() || row == 0 || column == 1);
        let use_left = left.is_some() && (top.is_none() || column == 0 || row == 1);
        let near_top: Option<&[u8]> = match top {
            Some(line) => if use_top {
                Some(&line[column * 4..column * 4 + 4])
            } else {
                None
            },
            None => None,
        };
        let near_left: Option<&[u8]> = match left {
            Some(line) => if use_left {
                Some(&line[row * 4..row * 4 + 4])
            } else {
                None
            },
            None => None,
        };
        let value: u8 = dc_value(near_top, near_left);
        let ghost before = values@;
        values[b] = value;
        assert forall|top_line: Seq<u8>, left_line: Seq<u8>, i: int|
            0 <= i < 64 && i / 32 * 2 + i % 8 / 4 < b + 1 && (top matches Some(line) ==> line@
                == top_line) && (left matches Some(line) ==> line@ == left_line) implies values@[i
            / 32 * 2 + i % 8 / 4] == #[trigger] chroma_mean_sample(
            top is Some,
            top_line,
            left is Some,
            left_line,
            i,
        ) by {
            if i / 32 * 2 + i % 8 / 4 == b {
                assert(i / 32 == row && i % 8 / 4 == column);
            } else {
                assert(values@[i / 32 * 2 + i % 8 / 4] == before[i / 32 * 2 + i % 8 / 4]);
            }
        }
        b = b + 1;
    }
    let mut samples: Vec<u8> = Vec::with_capacity(64);
    let mut i: usize = 0;
    while i < 64
        invariant
            i <= 64,
            samples@.len() == i,
            forall|j: int| 0 <= j < i ==> #[trigger] samples@[j] == values@[j / 32 * 2 + j % 8 / 4],
        decreases 64 - i,
    {
        samples.push(values[i / 32 * 2 + i % 8 / 4]);
        i = i + 1;
    }
    samples
}

/// Predicts a chroma macroblock.
pub fn chroma_prediction(
    plane: &[u8],
    stride: usize,
    macroblock_x: usize,
    macroblock_y: usize,
    mode: u8,
) -> (samples: Vec<u8>)
    requires
        region_inside(
            plane@.len() as int,
            stride as int,
            macroblock_x * 8,
            macroblock_y * 8,
            8,
            8,
        ),
        macroblock_x * 8 + 8 <= usize::MAX,
        macroblock_y * 8 + 8 <= usize::MAX,
        mode <= 2,
        mode == 1 ==> macroblock_x > 0,
        mode == 2 ==> macroblock_y > 0,
    ensures
        samples@ == chroma_predicted(
            plane@,
            stride as int,
            macroblock_x * 8,
            macroblock_y * 8,
            macroblock_y > 0,
            macroblock_x > 0,
            mode as int,
        ),
        samples@.len() == 64,
{
    let x: usize = macroblock_x * 8;
    let y: usize = macroblock_y * 8;
    let has_top = macroblock_y > 0;
    let has_left = macroblock_x > 0;
    assert(y * stride <= (y + 8) * stride) by (nonlinear_arith)
        requires
            0 <= stride,
    ;
    let top: Vec<u8> = read_above(plane, stride, x, y, 8, has_top);
    let left: Vec<u8> = read_left(plane, stride, x, y, 8, has_left);
    let ghost expected = chroma_predicted(
        plane@,
        stride as int,
        x as int,
        y as int,
        has_top,
        has_left,
        mode as int,
    );
    if mode == 0 {
        let near_top: Option<&[u8]> = if has_top {
            Some(top.as_slice())
        } else {
            None
        };
        let near_left: Option<&[u8]> = if has_left {
            Some(left.as_slice())
        } else {
            None
        };
        let samples: Vec<u8> = predict_chroma_dc(near_top, near_left);
        assert((near_top is Some) == has_top && (near_left is Some) == has_left);
        assert forall|i: int| 0 <= i < 64 implies samples@[i] == #[trigger] expected[i] by {
            assert(samples@[i] == chroma_mean_sample(
                near_top is Some,
                top@,
                near_left is Some,
                left@,
                i,
            ));
        }
        assert(samples@ =~= expected);
        samples
    } else if mode == 1 {
        let samples: Vec<u8> = fill_from_left(left.as_slice(), 8);
        assert(samples@ =~= expected);
        samples
    } else {
        let samples: Vec<u8> = fill_from_top(top.as_slice(), 8);
        assert(samples@ =~= expected);
        samples
    }
}

/// The distance of both chroma planes from their prediction in a mode.
pub open spec fn chroma_mode_cost(
    source_cb: Seq<u8>,
    source_cr: Seq<u8>,
    cb: Seq<u8>,
    cr: Seq<u8>,
    stride: int,
    x: int,
    y: int,
    has_top: bool,
    has_left: bool,
    mode: int,
) -> int {
    block_distance(
        source_cb,
        stride,
        x,
        y,
        8,
        chroma_predicted(cb, stride, x, y, has_top, has_left, mode),
    ) + block_distance(
        source_cr,
        stride,
        x,
        y,
        8,
        chroma_predicted(cr, stride, x, y, has_top, has_left, mode),
    )
}

/// The mode in which chroma is predicted: the first of mean, left, and above that costs least.
pub open spec fn chroma_mode(
    source_cb: Seq<u8>,
    source_cr: Seq<u8>,
    cb: Seq<u8>,
    cr: Seq<u8>,
    stride: int,
    x: int,
    y: int,
    has_top: bool,
    has_left: bool,
) -> int {
    let mean = chroma_mode_cost(
        source_cb,
        source_cr,
        cb,
        cr,
        stride,
        x,
        y,
        has_top,
        has_left,
        0,
    );
    let left = chroma_mode_cost(
        source_cb,
        source_cr,
        cb,
        cr,
        stride,
        x,
        y,
        has_top,
        has_left,
        1,
    );
    let top = chroma_mode_cost(
        source_cb,
        source_cr,
        cb,
        cr,
        stride,
        x,
        y,
        has_top,
        has_left,
        2,
    );
    if (!has_left || mean <= left) && (!has_top || mean <= top) {
        0
    } else if has_left && (!has_top || left <= top) {
        1
    } else {
        2
    }
}

/// Predictions of both chroma planes in a mode, and their cost.
fn chroma_candidate(
    sources: [&[u8]; 2],
    reconstructed: [&[u8]; 2],
    stride: usize,
    macroblock_x: usize,
    macroblock_y: usize,
    mode: u8,
) -> (candidate: (Vec<u8>, Vec<u8>, u64))
    requires
        chroma_planes_hold(sources, reconstructed, stride, macroblock_x, macroblock_y),
        mode <= 2,
        mode == 1 ==> macroblock_x > 0,
        mode == 2 ==> macroblock_y > 0,
    ensures
        candidate.0@ == chroma_predicted(
            reconstructed@[0]@,
            stride as int,
            macroblock_x * 8,
            macroblock_y * 8,
            macroblock_y > 0,
            macroblock_x > 0,
            mode as int,
        ),
        candidate.1@ == chroma_predicted(
            reconstructed@[1]@,
            stride as int,
            macroblock_x * 8,
            macroblock_y * 8,
            macroblock_y > 0,
            macroblock_x > 0,
            mode as int,
        ),
        candidate.0@.len() == 64,
        candidate.1@.len() == 64,
        candidate.2 == chroma_mode_cost(
            sources@[0]@,
            sources@[1]@,
            reconstructed@[0]@,
            reconstructed@[1]@,
            stride as int,
            macroblock_x * 8,
            macroblock_y * 8,
            macroblock_y > 0,
            macroblock_x > 0,
            mode as int,
        ),
{
    let cb: Vec<u8> = chroma_prediction(reconstructed[0], stride, macroblock_x, macroblock_y, mode);
    let cr: Vec<u8> = chroma_prediction(reconstructed[1], stride, macroblock_x, macroblock_y, mode);
    let x: usize = macroblock_x * 8;
    let y: usize = macroblock_y * 8;
    let cost: u64 = block_sad(sources[0], stride, x, y, 8, cb.as_slice()) + block_sad(
        sources[1],
        stride,
        x,
        y,
        8,
        cr.as_slice(),
    );
    (cb, cr, cost)
}

/// Whether all chroma planes hold a macroblock.
pub open spec fn chroma_planes_hold(
    sources: [&[u8]; 2],
    reconstructed: [&[u8]; 2],
    stride: usize,
    macroblock_x: usize,
    macroblock_y: usize,
) -> bool {
    let x = macroblock_x * 8;
    let y = macroblock_y * 8;
    &&& region_inside(sources@[0]@.len() as int, stride as int, x, y, 8, 8)
    &&& region_inside(sources@[1]@.len() as int, stride as int, x, y, 8, 8)
    &&& region_inside(reconstructed@[0]@.len() as int, stride as int, x, y, 8, 8)
    &&& region_inside(reconstructed@[1]@.len() as int, stride as int, x, y, 8, 8)
    &&& x + 8 <= usize::MAX
    &&& y + 8 <= usize::MAX
}

/// Chooses the prediction of the chroma planes of a macroblock.
pub fn select_chroma_prediction(
    sources: [&[u8]; 2],
    reconstructed: [&[u8]; 2],
    stride: usize,
    macroblock_x: usize,
    macroblock_y: usize,
) -> (choice: (u8, Vec<u8>, Vec<u8>))
    requires
        chroma_planes_hold(sources, reconstructed, stride, macroblock_x, macroblock_y),
    ensures
        choice.0 == chroma_mode(
            sources@[0]@,
            sources@[1]@,
            reconstructed@[0]@,
            reconstructed@[1]@,
            stride as int,
            macroblock_x * 8,
            macroblock_y * 8,
            macroblock_y > 0,
            macroblock_x > 0,
        ),
        choice.1@ == chroma_predicted(
            reconstructed@[0]@,
            stride as int,
            macroblock_x * 8,
            macroblock_y * 8,
            macroblock_y > 0,
            macroblock_x > 0,
            choice.0 as int,
        ),
        choice.2@ == chroma_predicted(
            reconstructed@[1]@,
            stride as int,
            macroblock_x * 8,
            macroblock_y * 8,
            macroblock_y > 0,
            macroblock_x > 0,
            choice.0 as int,
        ),
        choice.0 <= 2,
        choice.1@.len() == 64,
        choice.2@.len() == 64,
{
    let (mean_cb, mean_cr, mean) = chroma_candidate(
        sources,
        reconstructed,
        stride,
        macroblock_x,
        macroblock_y,
        0,
    );
    let mut best: (u8, Vec<u8>, Vec<u8>) = (0, mean_cb, mean_cr);
    let mut best_cost: u64 = mean;
    if macroblock_x > 0 {
        let (cb, cr, cost) = chroma_candidate(
            sources,
            reconstructed,
            stride,
            macroblock_x,
            macroblock_y,
            1,
        );
        if cost < best_cost {
            best = (1, cb, cr);
            best_cost = cost;
        }
    }
    if macroblock_y > 0 {
        let (cb, cr, cost) = chroma_candidate(
            sources,
            reconstructed,
            stride,
            macroblock_x,
            macroblock_y,
            2,
        );
        if cost < best_cost {
            best = (2, cb, cr);
        }
    }
    best
}

} // verus!
