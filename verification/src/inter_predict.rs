//! Predicting parts of macroblocks from reference pictures.

use vstd::prelude::*;

use crate::interpolate::{coordinate, law_whole_steps, ReferenceModel, ReferencePlane};
use crate::motion::{vector_fits, InterPartition, MotionVector};
use crate::picture::{planes_fit, Planes, Samples};
use crate::plane::{place_region, with_region};

verus! {

/// The luma of a reference picture.
pub open spec fn luma_reference(planes: Samples, wide: int, high: int) -> ReferenceModel {
    ReferenceModel { samples: planes.luma, width: 16 * wide, height: 16 * high }
}

/// A chroma plane of a reference picture.
pub open spec fn chroma_reference(samples: Seq<u8>, wide: int, high: int) -> ReferenceModel {
    ReferenceModel { samples, width: 8 * wide, height: 8 * high }
}

/// The luma samples of a partition as a vector predicts them, row by row.
#[verifier::opaque]
pub open spec fn partition_luma(
    reference: ReferenceModel,
    x: int,
    y: int,
    partition: InterPartition,
    vector: MotionVector,
) -> Seq<u8> {
    let width = partition.block_width * 4;
    Seq::new(
        (width * (partition.block_height * 4)) as nat,
        |i: int|
            reference.luma_at(
                (x * 16 + partition.block_x * 4 + i % width) * 4 + vector.x,
                (y * 16 + partition.block_y * 4 + i / width) * 4 + vector.y,
            ) as u8,
    )
}

/// The chroma samples of a partition as a vector predicts them, row by row.
#[verifier::opaque]
pub open spec fn partition_chroma(
    reference: ReferenceModel,
    x: int,
    y: int,
    partition: InterPartition,
    vector: MotionVector,
) -> Seq<u8> {
    let width = partition.block_width * 2;
    Seq::new(
        (width * (partition.block_height * 2)) as nat,
        |i: int|
            reference.chroma_at(
                (x * 8 + partition.block_x * 2 + i % width) * 8 + vector.x,
                (y * 8 + partition.block_y * 2 + i / width) * 8 + vector.y,
            ) as u8,
    )
}

/// A block of the reference picture, row by row.
pub open spec fn reference_block(
    reference: ReferenceModel,
    x: int,
    y: int,
    width: int,
    height: int,
) -> Seq<u8> {
    Seq::new((width * height) as nat, |i: int| reference.at(x + i % width, y + i / width) as u8)
}

/// Copies a block of the reference picture.
pub fn copy_integer_prediction(
    reference: &ReferencePlane<'_>,
    reference_x: i64,
    reference_y: i64,
    block_width: usize,
    block_height: usize,
) -> (samples: Vec<u8>)
    requires
        reference.valid(),
        coordinate(reference_x as int),
        coordinate(reference_y as int),
        0 < block_width <= 16,
        0 < block_height <= 16,
    ensures
        samples@ == reference_block(
            reference@,
            reference_x as int,
            reference_y as int,
            block_width as int,
            block_height as int,
        ),
{
    let ghost expected = reference_block(
        reference@,
        reference_x as int,
        reference_y as int,
        block_width as int,
        block_height as int,
    );
    assert(block_width * block_height <= 256) by (nonlinear_arith)
        requires
            block_width <= 16,
            block_height <= 16,
    ;
    let count: usize = block_width * block_height;
    let mut samples: Vec<u8> = Vec::with_capacity(count);
    let mut i: usize = 0;
    while i < count
        invariant
            i <= count <= 256,
            reference.valid(),
            coordinate(reference_x as int),
            coordinate(reference_y as int),
            0 < block_width <= 16,
            expected == reference_block(
                reference@,
                reference_x as int,
                reference_y as int,
                block_width as int,
                block_height as int,
            ),
            expected.len() == count,
            samples@.len() == i,
            forall|j: int| 0 <= j < i ==> #[trigger] samples@[j] == expected[j],
        decreases count - i,
    {
        assert(0 <= i as int / block_width as int <= i) by (nonlinear_arith)
            requires
                0 < block_width,
                0 <= i,
        ;
        let sample: u8 = reference.reference_sample(
            reference_x + (i % block_width) as i64,
            reference_y + (i / block_width) as i64,
        );
        samples.push(sample);
        i = i + 1;
    }
    assert(samples@ =~= expected);
    samples
}

/// Predicts the luma samples of a partition.
pub fn predict_luma_samples(
    reference: &ReferencePlane<'_>,
    macroblock_x: usize,
    macroblock_y: usize,
    partition: InterPartition,
    motion: MotionVector,
) -> (samples: Vec<u8>)
    requires
        reference.valid(),
        partition.inside(),
        vector_fits(motion),
        macroblock_x <= 0x1000_0000,
        macroblock_y <= 0x1000_0000,
    ensures
        samples@ == partition_luma(
            reference@,
            macroblock_x as int,
            macroblock_y as int,
            partition,
            motion,
        ),
        samples@.len() == (partition.block_width * 4) * (partition.block_height * 4),
{
    reveal(partition_luma);
    let ghost expected = partition_luma(
        reference@,
        macroblock_x as int,
        macroblock_y as int,
        partition,
        motion,
    );
    let width: usize = partition.block_width * 4;
    let height: usize = partition.block_height * 4;
    let x: i64 = macroblock_x as i64 * 16 + partition.block_x as i64 * 4;
    let y: i64 = macroblock_y as i64 * 16 + partition.block_y as i64 * 4;
    assert(0 <= width * height <= 256) by (nonlinear_arith)
        requires
            0 <= width <= 16,
            0 <= height <= 16,
    ;
    let across: i64 = motion.x as i64;
    let down: i64 = motion.y as i64;
    let column: i64 = crate::math::quartered(across);
    let row: i64 = crate::math::quartered(down);
    if across == column * 4 && down == row * 4 {
        let samples: Vec<u8> = copy_integer_prediction(
            reference,
            x + column,
            y + row,
            width,
            height,
        );
        proof {
            assert forall|i: int| 0 <= i < width * height implies #[trigger] samples@[i]
                == expected[i] by {
                law_whole_steps(
                    reference@,
                    x + column + i % (width as int),
                    y + row + i / (width as int),
                );
            }
            assert(samples@ =~= expected);
        }
        return samples;
    }
    let count: usize = width * height;
    let mut samples: Vec<u8> = Vec::with_capacity(count);
    let mut i: usize = 0;
    while i < count
        invariant
            i <= count <= 256,
            reference.valid(),
            width == partition.block_width * 4,
            0 < width <= 16,
            count == width * (partition.block_height * 4),
            x == macroblock_x * 16 + partition.block_x * 4,
            y == macroblock_y * 16 + partition.block_y * 4,
            0 <= x <= 0x20_0000_0000,
            0 <= y <= 0x20_0000_0000,
            across == motion.x,
            down == motion.y,
            vector_fits(motion),
            samples@.len() == i,
            forall|j: int|
                0 <= j < i ==> #[trigger] samples@[j] == reference@.luma_at(
                    (x + j % (width as int)) * 4 + across,
                    (y + j / (width as int)) * 4 + down,
                ) as u8,
        decreases count - i,
    {
        assert(0 <= i as int / width as int <= i) by (nonlinear_arith)
            requires
                0 < width,
                0 <= i,
        ;
        let sample: u8 = reference.luma_qpel(
            (x + (i % width) as i64) * 4 + across,
            (y + (i / width) as i64) * 4 + down,
        );
        samples.push(sample);
        i = i + 1;
    }
    assert(samples@ =~= expected);
    samples
}

/// Predicts the chroma samples of a partition.
pub fn predict_chroma_samples(
    reference: &ReferencePlane<'_>,
    macroblock_x: usize,
    macroblock_y: usize,
    partition: InterPartition,
    motion: MotionVector,
) -> (samples: Vec<u8>)
    requires
        reference.valid(),
        partition.inside(),
        vector_fits(motion),
        macroblock_x <= 0x1000_0000,
        macroblock_y <= 0x1000_0000,
    ensures
        samples@ == partition_chroma(
            reference@,
            macroblock_x as int,
            macroblock_y as int,
            partition,
            motion,
        ),
        samples@.len() == (partition.block_width * 2) * (partition.block_height * 2),
{
    reveal(partition_chroma);
    let ghost expected = partition_chroma(
        reference@,
        macroblock_x as int,
        macroblock_y as int,
        partition,
        motion,
    );
    let width: usize = partition.block_width * 2;
    let height: usize = partition.block_height * 2;
    let x: i64 = macroblock_x as i64 * 8 + partition.block_x as i64 * 2;
    let y: i64 = macroblock_y as i64 * 8 + partition.block_y as i64 * 2;
    assert(0 <= width * height <= 64) by (nonlinear_arith)
        requires
            0 <= width <= 8,
            0 <= height <= 8,
    ;
    let across: i64 = motion.x as i64;
    let down: i64 = motion.y as i64;
    let column: i64 = crate::math::eighth(across);
    let row: i64 = crate::math::eighth(down);
    if across == column * 8 && down == row * 8 {
        let samples: Vec<u8> = copy_integer_prediction(
            reference,
            x + column,
            y + row,
            width,
            height,
        );
        proof {
            assert forall|i: int| 0 <= i < width * height implies #[trigger] samples@[i]
                == expected[i] by {
                law_whole_steps(
                    reference@,
                    x + column + i % (width as int),
                    y + row + i / (width as int),
                );
            }
            assert(samples@ =~= expected);
        }
        return samples;
    }
    let count: usize = width * height;
    let mut samples: Vec<u8> = Vec::with_capacity(count);
    let mut i: usize = 0;
    while i < count
        invariant
            i <= count <= 64,
            reference.valid(),
            width == partition.block_width * 2,
            0 < width <= 8,
            count == width * (partition.block_height * 2),
            x == macroblock_x * 8 + partition.block_x * 2,
            y == macroblock_y * 8 + partition.block_y * 2,
            0 <= x <= 0x20_0000_0000,
            0 <= y <= 0x20_0000_0000,
            across == motion.x,
            down == motion.y,
            vector_fits(motion),
            samples@.len() == i,
            forall|j: int|
                0 <= j < i ==> #[trigger] samples@[j] == reference@.chroma_at(
                    (x + j % (width as int)) * 8 + across,
                    (y + j / (width as int)) * 8 + down,
                ) as u8,
        decreases count - i,
    {
        assert(0 <= i as int / width as int <= i) by (nonlinear_arith)
            requires
                0 < width,
                0 <= i,
        ;
        let sample: u8 = reference.chroma_epel(
            (x + (i % width) as i64) * 8 + across,
            (y + (i / width) as i64) * 8 + down,
        );
        samples.push(sample);
        i = i + 1;
    }
    assert(samples@ =~= expected);
    samples
}

/// The prediction of a macroblock after that of a partition is set.
#[verifier::opaque]
pub open spec fn with_prediction(
    prediction: Samples,
    reference: Samples,
    wide: int,
    high: int,
    x: int,
    y: int,
    partition: InterPartition,
    vector: MotionVector,
) -> Samples {
    Samples {
        luma: with_region(
            prediction.luma,
            16,
            partition.block_x * 4,
            partition.block_y * 4,
            partition.block_width * 4,
            partition.block_height * 4,
            partition_luma(luma_reference(reference, wide, high), x, y, partition, vector),
        ),
        cb: with_region(
            prediction.cb,
            8,
            partition.block_x * 2,
            partition.block_y * 2,
            partition.block_width * 2,
            partition.block_height * 2,
            partition_chroma(
                chroma_reference(reference.cb, wide, high),
                x,
                y,
                partition,
                vector,
            ),
        ),
        cr: with_region(
            prediction.cr,
            8,
            partition.block_x * 2,
            partition.block_y * 2,
            partition.block_width * 2,
            partition.block_height * 2,
            partition_chroma(
                chroma_reference(reference.cr, wide, high),
                x,
                y,
                partition,
                vector,
            ),
        ),
    }
}

/// Whether samples are those of one macroblock.
pub open spec fn macroblock_sized(prediction: Samples) -> bool {
    prediction.luma.len() == 256 && prediction.cb.len() == 64 && prediction.cr.len() == 64
}

/// A macroblock of which nothing is predicted yet.
pub open spec fn no_prediction() -> Samples {
    Samples {
        luma: Seq::new(256, |i: int| 0u8),
        cb: Seq::new(64, |i: int| 0u8),
        cr: Seq::new(64, |i: int| 0u8),
    }
}

/// A macroblock of which nothing is predicted yet.
pub fn blank_prediction() -> (prediction: Planes)
    ensures
        prediction@ == no_prediction(),
        macroblock_sized(prediction@),
{
    let prediction = Planes { luma: vec![0u8; 256], cb: vec![0u8; 64], cr: vec![0u8; 64] };
    assert(prediction.luma@ =~= no_prediction().luma);
    assert(prediction.cb@ =~= no_prediction().cb);
    assert(prediction.cr@ =~= no_prediction().cr);
    prediction
}

/// Whether a picture is small enough to be predicted from.
pub open spec fn predictable(planes: Samples, wide: int, high: int) -> bool {
    planes_fit(planes, wide, high) && wide <= 0x10_0000 && high <= 0x10_0000
}

/// Predicts a partition of a macroblock.
pub fn predict_partition(
    prediction: &mut Planes,
    reference: &Planes,
    macroblocks_wide: usize,
    macroblocks_high: usize,
    macroblock_x: usize,
    macroblock_y: usize,
    partition: InterPartition,
    motion: MotionVector,
)
    requires
        macroblock_sized(old(prediction)@),
        predictable(reference@, macroblocks_wide as int, macroblocks_high as int),
        macroblock_x < macroblocks_wide,
        macroblock_y < macroblocks_high,
        partition.inside(),
        vector_fits(motion),
    ensures
        macroblock_sized(final(prediction)@),
        final(prediction)@ == with_prediction(
            old(prediction)@,
            reference@,
            macroblocks_wide as int,
            macroblocks_high as int,
            macroblock_x as int,
            macroblock_y as int,
            partition,
            motion,
        ),
{
    reveal(with_prediction);
    let luma = ReferencePlane {
        samples: reference.luma.as_slice(),
        width: macroblocks_wide * 16,
        height: macroblocks_high * 16,
    };
    let cb = ReferencePlane {
        samples: reference.cb.as_slice(),
        width: macroblocks_wide * 8,
        height: macroblocks_high * 8,
    };
    let cr = ReferencePlane {
        samples: reference.cr.as_slice(),
        width: macroblocks_wide * 8,
        height: macroblocks_high * 8,
    };
    let luma_samples: Vec<u8> = predict_luma_samples(
        &luma,
        macroblock_x,
        macroblock_y,
        partition,
        motion,
    );
    place_region(
        prediction.luma.as_mut_slice(),
        16,
        partition.block_x * 4,
        partition.block_y * 4,
        partition.block_width * 4,
        partition.block_height * 4,
        luma_samples.as_slice(),
    );
    let cb_samples: Vec<u8> = predict_chroma_samples(
        &cb,
        macroblock_x,
        macroblock_y,
        partition,
        motion,
    );
    place_region(
        prediction.cb.as_mut_slice(),
        8,
        partition.block_x * 2,
        partition.block_y * 2,
        partition.block_width * 2,
        partition.block_height * 2,
        cb_samples.as_slice(),
    );
    let cr_samples: Vec<u8> = predict_chroma_samples(
        &cr,
        macroblock_x,
        macroblock_y,
        partition,
        motion,
    );
    place_region(
        prediction.cr.as_mut_slice(),
        8,
        partition.block_x * 2,
        partition.block_y * 2,
        partition.block_width * 2,
        partition.block_height * 2,
        cr_samples.as_slice(),
    );
}

} // verus!
