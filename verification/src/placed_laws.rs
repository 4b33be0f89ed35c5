//! Where predicted parts come to stand, and which plane each of them is taken from.

use vstd::prelude::*;

use crate::b_direct::BSelectedPartition;
use crate::b_select::{mixed, with_b_prediction};
use crate::frame::{padded_samples, visible, FrameModel};
use crate::inter_predict::{partition_chroma, partition_luma, with_prediction};
use crate::interpolate::ReferenceModel;
use crate::motion::{vector_rate, InterPartition, MotionVector};
use crate::picture::Samples;
use crate::plane::{law_region_replaced, region_inside, with_region};
use crate::prediction_laws::{
    law_both_sides, law_cropping, law_moved_chroma, law_moved_luma, law_padding,
};

verus! {

/// A plane as samples are predicted from it.
pub open spec fn plane_of(samples: Seq<u8>, width: int, height: int) -> ReferenceModel {
    ReferenceModel { samples, width, height }
}

/// Setting the prediction of a part gives each of its luma samples the one of the reference picture
/// that the vector points at, and leaves every other luma sample as it was.
pub proof fn law_luma_placed(
    prediction: Samples,
    reference: Samples,
    wide: int,
    high: int,
    x: int,
    y: int,
    part: InterPartition,
    vector: MotionVector,
    column: int,
    row: int,
)
    requires
        part.inside(),
        prediction.luma.len() == 256,
        0 <= column < 16,
        0 <= row < 16,
    ensures
        ({
            let set = with_prediction(prediction, reference, wide, high, x, y, part, vector);
            let here = part.block_x <= column / 4 < part.block_x + part.block_width && part.block_y
                <= row / 4 < part.block_y + part.block_height;
            set.luma[16 * row + column] == if here {
                plane_of(reference.luma, 16 * wide, 16 * high).luma_at(
                    4 * (16 * x + column) + vector.x,
                    4 * (16 * y + row) + vector.y,
                ) as u8
            } else {
                prediction.luma[16 * row + column]
            }
        }),
{
    reveal(with_prediction);
    let from = plane_of(reference.luma, 16 * wide, 16 * high);
    let left = part.block_x * 4;
    let top = part.block_y * 4;
    law_region_replaced(
        prediction.luma,
        16,
        left,
        top,
        part.block_width * 4,
        part.block_height * 4,
        partition_luma(from, x, y, part, vector),
        column,
        row,
    );
    if left <= column < left + part.block_width * 4 && top <= row < top + part.block_height * 4 {
        law_moved_luma(from, x, y, part, vector, column - left, row - top);
        assert(4 * part.block_width == part.block_width * 4);
    }
}

/// Setting the prediction of a part gives each of its chroma samples the one of the same plane of
/// the reference picture that the vector points at, and leaves every other chroma sample as it was.
pub proof fn law_chroma_placed(
    prediction: Samples,
    reference: Samples,
    wide: int,
    high: int,
    x: int,
    y: int,
    part: InterPartition,
    vector: MotionVector,
    column: int,
    row: int,
)
    requires
        part.inside(),
        prediction.cb.len() == 64,
        prediction.cr.len() == 64,
        0 <= column < 8,
        0 <= row < 8,
    ensures
        ({
            let set = with_prediction(prediction, reference, wide, high, x, y, part, vector);
            let here = part.block_x <= column / 2 < part.block_x + part.block_width && part.block_y
                <= row / 2 < part.block_y + part.block_height;
            let right = 8 * (8 * x + column) + vector.x;
            let down = 8 * (8 * y + row) + vector.y;
            &&& set.cb[8 * row + column] == if here {
                plane_of(reference.cb, 8 * wide, 8 * high).chroma_at(right, down) as u8
            } else {
                prediction.cb[8 * row + column]
            }
            &&& set.cr[8 * row + column] == if here {
                plane_of(reference.cr, 8 * wide, 8 * high).chroma_at(right, down) as u8
            } else {
                prediction.cr[8 * row + column]
            }
        }),
{
    reveal(with_prediction);
    let blue = plane_of(reference.cb, 8 * wide, 8 * high);
    let red = plane_of(reference.cr, 8 * wide, 8 * high);
    let left = part.block_x * 2;
    let top = part.block_y * 2;
    law_region_replaced(
        prediction.cb,
        8,
        left,
        top,
        part.block_width * 2,
        part.block_height * 2,
        partition_chroma(blue, x, y, part, vector),
        column,
        row,
    );
    law_region_replaced(
        prediction.cr,
        8,
        left,
        top,
        part.block_width * 2,
        part.block_height * 2,
        partition_chroma(red, x, y, part, vector),
        column,
        row,
    );
    if left <= column < left + part.block_width * 2 && top <= row < top + part.block_height * 2 {
        law_moved_chroma(blue, x, y, part, vector, column - left, row - top);
        law_moved_chroma(red, x, y, part, vector, column - left, row - top);
        assert(2 * part.block_width == part.block_width * 2);
    }
}

/// A part with only one of its two motions is predicted as by that motion alone: an earlier motion
/// takes every plane from the earlier picture, a later one from the later picture.
pub proof fn law_one_side_placed(
    prediction: Samples,
    previous: Samples,
    future: Samples,
    wide: int,
    high: int,
    x: int,
    y: int,
    selected: BSelectedPartition,
)
    requires
        selected.list0 is Some || selected.list1 is Some,
    ensures
        ({
            let set = with_b_prediction(
                prediction,
                previous,
                future,
                wide,
                high,
                x,
                y,
                selected,
            );
            &&& selected.list1 is None ==> set == with_prediction(
                prediction,
                previous,
                wide,
                high,
                x,
                y,
                selected.list0->Some_0.partition,
                selected.list0->Some_0.motion,
            )
            &&& selected.list0 is None ==> set == with_prediction(
                prediction,
                future,
                wide,
                high,
                x,
                y,
                selected.list1->Some_0.partition,
                selected.list1->Some_0.motion,
            )
        }),
{
    reveal(with_prediction);
    reveal(with_b_prediction);
}

proof fn lemma_mixed_region(
    plane: Seq<u8>,
    stride: int,
    left: int,
    top: int,
    width: int,
    height: int,
    first: Seq<u8>,
    second: Seq<u8>,
    column: int,
    row: int,
)
    requires
        region_inside(plane.len() as int, stride, left, top, width, height),
        first.len() == width * height,
        second.len() == width * height,
        0 <= column < stride,
        0 <= row,
        (row + 1) * stride <= plane.len(),
    ensures
        ({
            let set = |samples: Seq<u8>|
                with_region(plane, stride, left, top, width, height, samples)[row * stride + column];
            set(mixed(Some(first), Some(second))) == (set(first) + set(second) + 1) / 2
        }),
{
    let both = mixed(Some(first), Some(second));
    law_region_replaced(plane, stride, left, top, width, height, both, column, row);
    law_region_replaced(plane, stride, left, top, width, height, first, column, row);
    law_region_replaced(plane, stride, left, top, width, height, second, column, row);
    if left <= column < left + width && top <= row < top + height {
        let i = (row - top) * width + (column - left);
        assert(0 <= i < width * height) by (nonlinear_arith)
            requires
                i == (row - top) * width + (column - left),
                0 <= column - left < width,
                0 <= row - top < height,
        ;
        law_both_sides(first, second, i);
    }
}

/// A part with both of its motions is predicted by the mean, rounded up, of what each of them alone
/// predicts, in every plane and at every place.
#[verifier::spinoff_prover]
#[verifier::rlimit(40)]
pub proof fn law_two_sides_placed(
    prediction: Samples,
    previous: Samples,
    future: Samples,
    wide: int,
    high: int,
    x: int,
    y: int,
    selected: BSelectedPartition,
    column: int,
    row: int,
)
    requires
        selected.fits(),
        selected.list0 is Some,
        selected.list1 is Some,
        prediction.luma.len() == 256,
        prediction.cb.len() == 64,
        prediction.cr.len() == 64,
        0 <= column,
        0 <= row,
    ensures
        ({
            let part = selected.list0->Some_0.partition;
            let a = with_prediction(
                prediction,
                previous,
                wide,
                high,
                x,
                y,
                part,
                selected.list0->Some_0.motion,
            );
            let b = with_prediction(
                prediction,
                future,
                wide,
                high,
                x,
                y,
                part,
                selected.list1->Some_0.motion,
            );
            let both = with_b_prediction(
                prediction,
                previous,
                future,
                wide,
                high,
                x,
                y,
                selected,
            );
            let luma = 16 * row + column;
            let chroma = 8 * row + column;
            &&& column < 16 && row < 16 ==> both.luma[luma] == (a.luma[luma] + b.luma[luma] + 1) / 2
            &&& column < 8 && row < 8 ==> both.cb[chroma] == (a.cb[chroma] + b.cb[chroma] + 1) / 2
            &&& column < 8 && row < 8 ==> both.cr[chroma] == (a.cr[chroma] + b.cr[chroma] + 1) / 2
        }),
{
    reveal(with_prediction);
    reveal(with_b_prediction);
    let part = selected.list0->Some_0.partition;
    let first = selected.list0->Some_0.motion;
    let second = selected.list1->Some_0.motion;
    reveal(partition_luma);
    reveal(partition_chroma);
    assert((part.block_width * 4) * (part.block_height * 4) >= 0 && (part.block_width * 2) * (
    part.block_height * 2) >= 0) by (nonlinear_arith)
        requires
            0 <= part.block_width,
            0 <= part.block_height,
    ;
    if column < 16 && row < 16 {
        lemma_mixed_region(
            prediction.luma,
            16,
            part.block_x * 4,
            part.block_y * 4,
            part.block_width * 4,
            part.block_height * 4,
            partition_luma(plane_of(previous.luma, 16 * wide, 16 * high), x, y, part, first),
            partition_luma(plane_of(future.luma, 16 * wide, 16 * high), x, y, part, second),
            column,
            row,
        );
    }
    if column < 8 && row < 8 {
        lemma_mixed_region(
            prediction.cb,
            8,
            part.block_x * 2,
            part.block_y * 2,
            part.block_width * 2,
            part.block_height * 2,
            partition_chroma(plane_of(previous.cb, 8 * wide, 8 * high), x, y, part, first),
            partition_chroma(plane_of(future.cb, 8 * wide, 8 * high), x, y, part, second),
            column,
            row,
        );
        lemma_mixed_region(
            prediction.cr,
            8,
            part.block_x * 2,
            part.block_y * 2,
            part.block_width * 2,
            part.block_height * 2,
            partition_chroma(plane_of(previous.cr, 8 * wide, 8 * high), x, y, part, first),
            partition_chroma(plane_of(future.cr, 8 * wide, 8 * high), x, y, part, second),
            column,
            row,
        );
    }
}

/// The planes of a frame keep their places when it is extended to whole macroblocks.
pub proof fn law_planes_padded(frame: FrameModel, wide: int, high: int, k: int, x: int, y: int)
    requires
        0 <= k < 3,
        0 <= x < frame.planes[k].width,
        0 <= y < frame.planes[k].height,
        frame.planes[k].width <= if k == 0 {
            16 * wide
        } else {
            8 * wide
        },
        frame.planes[k].height <= if k == 0 {
            16 * high
        } else {
            8 * high
        },
    ensures
        ({
            let whole = padded_samples(frame, wide, high);
            let sample = frame.planes[k].data[y * frame.planes[k].stride + x];
            &&& k == 0 ==> whole.luma[y * (16 * wide) + x] == sample
            &&& k == 1 ==> whole.cb[y * (8 * wide) + x] == sample
            &&& k == 2 ==> whole.cr[y * (8 * wide) + x] == sample
        }),
{
    reveal(padded_samples);
    if k == 0 {
        law_padding(frame.planes[k], 16 * wide, 16 * high, x, y);
    } else {
        law_padding(frame.planes[k], 8 * wide, 8 * high, x, y);
    }
}

/// The planes of a coded picture keep their places when the part of it that is seen is cut out.
pub proof fn law_planes_cropped(frame: FrameModel, coded: Samples, wide: int, x: int, y: int)
    requires
        0 <= x < frame.width,
        0 <= y < frame.height,
    ensures
        ({
            let seen = visible(frame, coded, wide);
            let half = frame.width / 2;
            &&& seen.planes.len() == 3
            &&& seen.planes[0].data[y * frame.width + x] == coded.luma[y * (16 * wide) + x]
            &&& x < half && y < frame.height / 2 ==> seen.planes[1].data[y * half + x]
                == coded.cb[y * (8 * wide) + x]
            &&& x < half && y < frame.height / 2 ==> seen.planes[2].data[y * half + x]
                == coded.cr[y * (8 * wide) + x]
            &&& seen.width == frame.width
            &&& seen.height == frame.height
        }),
{
    reveal(visible);
    law_cropping(coded.luma, 16 * wide, frame.width, frame.height, x, y);
    if x < frame.width / 2 && y < frame.height / 2 {
        law_cropping(coded.cb, 8 * wide, frame.width / 2, frame.height / 2, x, y);
        law_cropping(coded.cr, 8 * wide, frame.width / 2, frame.height / 2, x, y);
    }
}

/// A vector equal to its prediction costs nothing; each step away from it, along either axis, costs
/// one more, and both directions cost the same.
pub proof fn law_vector_cost(predicted: MotionVector, right: int, down: int)
    requires
        0 <= right,
        0 <= down,
        i32::MIN <= predicted.x - right,
        predicted.x + right <= i32::MAX,
        i32::MIN <= predicted.y - down,
        predicted.y + down <= i32::MAX,
    ensures
        vector_rate(
            MotionVector { x: (predicted.x + right) as i32, y: (predicted.y + down) as i32 },
            predicted,
        ) == right + down,
        vector_rate(
            MotionVector { x: (predicted.x - right) as i32, y: (predicted.y - down) as i32 },
            predicted,
        ) == right + down,
        vector_rate(
            MotionVector { x: (predicted.x + right) as i32, y: (predicted.y - down) as i32 },
            predicted,
        ) == right + down,
{
}

} // verus!
