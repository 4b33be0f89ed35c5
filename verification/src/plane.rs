//! Rectangular regions of sample planes.

use vstd::prelude::*;

use crate::math::lemma_place_inside;

verus! {

/// The sample in column `x` and row `y`.
pub open spec fn pixel(plane: Seq<u8>, stride: int, x: int, y: int) -> int {
    plane[y * stride + x] as int
}

/// Whether a region of `width` by `height` samples at `(x, y)` lies inside a plane.
pub open spec fn region_inside(
    length: int,
    stride: int,
    x: int,
    y: int,
    width: int,
    height: int,
) -> bool {
    0 <= x && x + width <= stride && 0 <= y && 0 <= height && (y + height) * stride <= length
}

/// The region of `width` by `height` samples at `(x, y)`, row by row.
pub open spec fn region(
    plane: Seq<u8>,
    stride: int,
    x: int,
    y: int,
    width: int,
    height: int,
) -> Seq<u8> {
    Seq::new(
        (width * height) as nat,
        |i: int| plane[(y + i / width) * stride + (x + i % width)],
    )
}

/// `plane` with the region of `width` by `height` samples at `(x, y)` replaced.
#[verifier::opaque]
pub open spec fn with_region(
    plane: Seq<u8>,
    stride: int,
    x: int,
    y: int,
    width: int,
    height: int,
    samples: Seq<u8>,
) -> Seq<u8> {
    Seq::new(
        plane.len(),
        |p: int|
            if x <= p % stride < x + width && y <= p / stride < y + height {
                samples[(p / stride - y) * width + (p % stride - x)]
            } else {
                plane[p]
            },
    )
}

pub proof fn lemma_region_place(
    length: int,
    stride: int,
    x: int,
    y: int,
    width: int,
    height: int,
    column: int,
    row: int,
)
    requires
        region_inside(length, stride, x, y, width, height),
        0 <= column < width,
        0 <= row < height,
    ensures
        0 <= (y + row) * stride,
        0 <= (y + row) * stride + (x + column) < length,
        ((y + row) * stride + (x + column)) / stride == y + row,
        ((y + row) * stride + (x + column)) % stride == x + column,
        y + row + 1 <= length,
{
    lemma_place_inside(y + row, x + column, stride, y + height);
    vstd::arithmetic::div_mod::lemma_fundamental_div_mod_converse(
        (y + row) * stride + (x + column),
        stride,
        y + row,
        x + column,
    );
    assert(y + row + 1 <= (y + height) * stride) by (nonlinear_arith)
        requires
            0 <= y + row < y + height,
            1 <= stride,
    ;
}

/// Reads the sample at `(x + column, y + row)` of a region.
pub fn sample_in(
    plane: &[u8],
    stride: usize,
    x: usize,
    y: usize,
    width: usize,
    height: usize,
    column: usize,
    row: usize,
) -> (sample: u8)
    requires
        region_inside(
            plane@.len() as int,
            stride as int,
            x as int,
            y as int,
            width as int,
            height as int,
        ),
        column < width,
        row < height,
    ensures
        sample == plane@[(y + row) * stride + (x + column)],
        sample == pixel(plane@, stride as int, x + column, y + row),
{
    let length: usize = plane.len();
    proof {
        lemma_region_place(
            length as int,
            stride as int,
            x as int,
            y as int,
            width as int,
            height as int,
            column as int,
            row as int,
        );
    }
    plane[(y + row) * stride + (x + column)]
}

/// Replaces a region, given row by row.
pub fn place_region(
    plane: &mut [u8],
    stride: usize,
    x: usize,
    y: usize,
    width: usize,
    height: usize,
    samples: &[u8],
)
    requires
        region_inside(
            old(plane)@.len() as int,
            stride as int,
            x as int,
            y as int,
            width as int,
            height as int,
        ),
        samples@.len() == width * height,
    ensures
        final(plane)@.len() == old(plane)@.len(),
        final(plane)@ == with_region(
            old(plane)@,
            stride as int,
            x as int,
            y as int,
            width as int,
            height as int,
            samples@,
        ),
{
    let ghost before = plane@;
    let length: usize = plane.len();
    let count: usize = samples.len();
    proof {
        reveal(with_region);
        assert(width * height == height * width) by (nonlinear_arith);
    }
    let mut row: usize = 0;
    while row < height
        invariant
            row <= height,
            length == plane@.len(),
            length == before.len(),
            count == samples@.len(),
            count == height * width,
            region_inside(
                length as int,
                stride as int,
                x as int,
                y as int,
                width as int,
                height as int,
            ),
            forall|p: int|
                0 <= p < length ==> #[trigger] plane@[p] == if x <= p % (stride as int) < x + width
                    && y <= p / (stride as int) < y + row {
                    samples@[(p / (stride as int) - y) * width + (p % (stride as int) - x)]
                } else {
                    before[p]
                },
        decreases height - row,
    {
        let mut column: usize = 0;
        while column < width
            invariant
                row < height,
                column <= width,
                length == plane@.len(),
                length == before.len(),
                count == samples@.len(),
                count == height * width,
                region_inside(
                    length as int,
                    stride as int,
                    x as int,
                    y as int,
                    width as int,
                    height as int,
                ),
                forall|p: int|
                    0 <= p < length ==> #[trigger] plane@[p] == if x <= p % (stride as int) < x
                        + width && y <= p / (stride as int) < y + row || (x <= p % (stride as int)
                        < x + column && p / (stride as int) == y + row) {
                        samples@[(p / (stride as int) - y) * width + (p % (stride as int) - x)]
                    } else {
                        before[p]
                    },
            decreases width - column,
        {
            proof {
                lemma_region_place(
                    length as int,
                    stride as int,
                    x as int,
                    y as int,
                    width as int,
                    height as int,
                    column as int,
                    row as int,
                );
                lemma_place_inside(row as int, column as int, width as int, height as int);
            }
            let place: usize = (y + row) * stride + (x + column);
            let sample: u8 = samples[row * width + column];
            let ghost earlier = plane@;
            plane[place] = sample;
            assert forall|p: int| 0 <= p < length implies #[trigger] plane@[p] == if x <= p % (
            stride as int) < x + width && y <= p / (stride as int) < y + row || (x <= p % (
            stride as int) < x + column + 1 && p / (stride as int) == y + row) {
                samples@[(p / (stride as int) - y) * width + (p % (stride as int) - x)]
            } else {
                before[p]
            } by {
                if p != place {
                    assert(plane@[p] == earlier[p]);
                    if p / (stride as int) == y + row && p % (stride as int) == x + column {
                        vstd::arithmetic::div_mod::lemma_fundamental_div_mod(p, stride as int);
                        assert((stride as int) * (y + row) == (y + row) * stride)
                            by (nonlinear_arith);
                    }
                }
            }
            column = column + 1;
        }
        row = row + 1;
    }
    assert(plane@ =~= with_region(
        before,
        stride as int,
        x as int,
        y as int,
        width as int,
        height as int,
        samples@,
    ));
}

/// Replaces a square block, given row by row.
pub fn place_block(
    plane: &mut [u8],
    stride: usize,
    origin_x: usize,
    origin_y: usize,
    size: usize,
    samples: &[u8],
)
    requires
        region_inside(
            old(plane)@.len() as int,
            stride as int,
            origin_x as int,
            origin_y as int,
            size as int,
            size as int,
        ),
        samples@.len() == size * size,
    ensures
        final(plane)@.len() == old(plane)@.len(),
        final(plane)@ == with_region(
            old(plane)@,
            stride as int,
            origin_x as int,
            origin_y as int,
            size as int,
            size as int,
            samples@,
        ),
{
    place_region(plane, stride, origin_x, origin_y, size, size, samples);
}

/// Copies a region, row by row.
pub fn copy_region(
    plane: &[u8],
    stride: usize,
    x: usize,
    y: usize,
    width: usize,
    height: usize,
) -> (samples: Vec<u8>)
    requires
        region_inside(
            plane@.len() as int,
            stride as int,
            x as int,
            y as int,
            width as int,
            height as int,
        ),
        0 < width,
    ensures
        samples@ == region(
            plane@,
            stride as int,
            x as int,
            y as int,
            width as int,
            height as int,
        ),
{
    let mut samples: Vec<u8> = Vec::new();
    let mut row: usize = 0;
    while row < height
        invariant
            row <= height,
            0 < width,
            region_inside(
                plane@.len() as int,
                stride as int,
                x as int,
                y as int,
                width as int,
                height as int,
            ),
            samples@.len() == row * width,
            forall|i: int|
                0 <= i < samples@.len() ==> #[trigger] samples@[i] == plane@[(y + i / (
                width as int)) * stride + (x + i % (width as int))],
        decreases height - row,
    {
        let mut column: usize = 0;
        while column < width
            invariant
                row < height,
                column <= width,
                0 < width,
                region_inside(
                    plane@.len() as int,
                    stride as int,
                    x as int,
                    y as int,
                    width as int,
                    height as int,
                ),
                samples@.len() == row * width + column,
                forall|i: int|
                    0 <= i < samples@.len() ==> #[trigger] samples@[i] == plane@[(y + i / (
                    width as int)) * stride + (x + i % (width as int))],
            decreases width - column,
        {
            let sample: u8 = sample_in(plane, stride, x, y, width, height, column, row);
            proof {
                vstd::arithmetic::div_mod::lemma_fundamental_div_mod_converse(
                    row * width + column,
                    width as int,
                    row as int,
                    column as int,
                );
            }
            samples.push(sample);
            column = column + 1;
        }
        assert((row + 1) * width == row * width + width) by (nonlinear_arith);
        row = row + 1;
    }
    assert(row * width == width * height) by (nonlinear_arith)
        requires
            row == height,
    ;
    assert(samples@ =~= region(
        plane@,
        stride as int,
        x as int,
        y as int,
        width as int,
        height as int,
    ));
    samples
}

/// Reading a sample of a plane in which a region was replaced gives the new sample inside the
/// region and the old one outside.
pub proof fn law_region_replaced(
    plane: Seq<u8>,
    stride: int,
    x: int,
    y: int,
    width: int,
    height: int,
    samples: Seq<u8>,
    column: int,
    row: int,
)
    requires
        region_inside(plane.len() as int, stride, x, y, width, height),
        0 <= column < stride,
        0 <= row,
        (row + 1) * stride <= plane.len(),
    ensures
        pixel(with_region(plane, stride, x, y, width, height, samples), stride, column, row)
            == if x <= column < x + width && y <= row < y + height {
            samples[(row - y) * width + (column - x)] as int
        } else {
            pixel(plane, stride, column, row)
        },
{
    reveal(with_region);
    lemma_region_place(plane.len() as int, stride, 0, row, stride, 1, column, 0);
}

} // verus!
