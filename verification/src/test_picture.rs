//! A moving test picture, with which encoders are timed.

use vstd::prelude::*;

use crate::frame::{
    plane_models, ColorDescription, FieldOrder, FrameModel, FrameTiming, PixelFormat, Plane,
    PlaneModel, Rational, Timestamp, VideoFrame,
};

verus! {

/// The luma sample at column `x` and row `y` of the picture with the given index: ramps that move
/// under a checkerboard.
pub open spec fn luma_pattern_sample(x: int, y: int, index: int) -> u8 {
    ((x * 3 + y * 5 + index * 11 + (x / 16 + y / 16 + index) % 2 * 48) % 256) as u8
}

/// The chroma sample at column `x` and row `y` of the picture with the given index, which ramps
/// that move `phase` per picture make.
pub open spec fn chroma_pattern_sample(x: int, y: int, index: int, phase: int) -> u8 {
    ((128 + x * 2 + y * 3 + index * phase) % 256) as u8
}

/// The samples of a plane, row by row.
pub open spec fn rows_of(width: int, height: int, sample: spec_fn(int, int) -> u8) -> Seq<u8> {
    Seq::new((width * height) as nat, |i: int| sample(i % width, i / width))
}

/// The luma plane of the picture with the given index.
pub open spec fn luma_pattern(width: int, height: int, index: int) -> PlaneModel {
    PlaneModel {
        data: rows_of(width, height, |x: int, y: int| luma_pattern_sample(x, y, index)),
        stride: width,
        width,
        height,
    }
}

/// A chroma plane of the picture with the given index.
pub open spec fn chroma_pattern(width: int, height: int, index: int, phase: int) -> PlaneModel {
    PlaneModel {
        data: rows_of(width, height, |x: int, y: int| chroma_pattern_sample(x, y, index, phase)),
        stride: width,
        width,
        height,
    }
}

/// The picture with the given index.
pub open spec fn moving_pattern(
    width: int,
    height: int,
    index: int,
    time_base: Rational,
) -> FrameModel {
    FrameModel {
        format: PixelFormat::Yuv420p8,
        width,
        height,
        planes: seq![
            luma_pattern(width, height, index),
            chroma_pattern(width / 2, height / 2, index, 3),
            chroma_pattern(width / 2, height / 2, index, 7),
        ],
        timing: FrameTiming {
            pts: Some(Timestamp { value: index as i64, time_base }),
            duration: Some(Timestamp { value: 1, time_base }),
        },
        color: ColorDescription { primaries: None, transfer: None, matrix: None, full_range: None },
        field_order: FieldOrder::Progressive,
    }
}

/// Whether the numbers from which the samples of a picture come all fit.
pub open spec fn pattern_fits(width: int, height: int, index: int) -> bool {
    &&& width * height <= usize::MAX
    &&& 128 + width * 3 + height * 5 + index * 11 <= usize::MAX
}

/// The place in a plane at which the sample of a column and row stands.
proof fn lemma_place(width: int, height: int, x: int, y: int)
    requires
        0 <= x < width,
        0 <= y < height,
    ensures
        (y * width + x) % width == x,
        (y * width + x) / width == y,
        0 <= y * width + x < width * height,
        (y + 1) * width == y * width + width,
{
    vstd::arithmetic::div_mod::lemma_fundamental_div_mod_converse(y * width + x, width, y, x);
    assert(0 <= y * width && y * width + width <= width * height && (y + 1) * width == y * width
        + width) by (nonlinear_arith)
        requires
            0 <= x < width,
            0 <= y < height,
    ;
}

/// Makes the luma plane of the picture with the given index.
fn luma_plane(width: usize, height: usize, index: usize) -> (plane: Plane)
    requires
        pattern_fits(width as int, height as int, index as int),
    ensures
        plane@ == luma_pattern(width as int, height as int, index as int),
{
    let mut data: Vec<u8> = Vec::new();
    let mut y: usize = 0;
    while y < height
        invariant
            pattern_fits(width as int, height as int, index as int),
            y <= height,
            data@.len() == y * width,
            forall|i: int|
                0 <= i < data@.len() ==> #[trigger] data@[i] == luma_pattern_sample(
                    i % (width as int),
                    i / (width as int),
                    index as int,
                ),
        decreases height - y,
    {
        let mut x: usize = 0;
        while x < width
            invariant
                pattern_fits(width as int, height as int, index as int),
                x <= width,
                y < height,
                data@.len() == y * width + x,
                forall|i: int|
                    0 <= i < data@.len() ==> #[trigger] data@[i] == luma_pattern_sample(
                        i % (width as int),
                        i / (width as int),
                        index as int,
                    ),
            decreases width - x,
        {
            proof {
                lemma_place(width as int, height as int, x as int, y as int);
            }
            let square: usize = (x / 16 + y / 16 + index) % 2 * 48;
            data.push(((x * 3 + y * 5 + index * 11 + square) % 256) as u8);
            x = x + 1;
        }
        assert((y + 1) * width == y * width + width) by (nonlinear_arith);
        y = y + 1;
    }
    assert(height * width == width * height) by (nonlinear_arith);
    assert(data@ =~= luma_pattern(width as int, height as int, index as int).data);
    Plane { data, stride: width, width, height }
}

/// Makes a chroma plane of the picture with the given index.
fn chroma_plane(width: usize, height: usize, index: usize, phase: usize) -> (plane: Plane)
    requires
        pattern_fits(width as int, height as int, index as int),
        phase <= 11,
    ensures
        plane@ == chroma_pattern(width as int, height as int, index as int, phase as int),
{
    assert(0 <= index * phase <= index * 11) by (nonlinear_arith)
        requires
            phase <= 11,
    ;
    let mut data: Vec<u8> = Vec::new();
    let mut y: usize = 0;
    while y < height
        invariant
            pattern_fits(width as int, height as int, index as int),
            0 <= index * phase <= index * 11,
            y <= height,
            data@.len() == y * width,
            forall|i: int|
                0 <= i < data@.len() ==> #[trigger] data@[i] == chroma_pattern_sample(
                    i % (width as int),
                    i / (width as int),
                    index as int,
                    phase as int,
                ),
        decreases height - y,
    {
        let mut x: usize = 0;
        while x < width
            invariant
                pattern_fits(width as int, height as int, index as int),
                0 <= index * phase <= index * 11,
                x <= width,
                y < height,
                data@.len() == y * width + x,
                forall|i: int|
                    0 <= i < data@.len() ==> #[trigger] data@[i] == chroma_pattern_sample(
                        i % (width as int),
                        i / (width as int),
                        index as int,
                        phase as int,
                    ),
            decreases width - x,
        {
            proof {
                lemma_place(width as int, height as int, x as int, y as int);
            }
            data.push(((128 + x * 2 + y * 3 + index * phase) % 256) as u8);
            x = x + 1;
        }
        assert((y + 1) * width == y * width + width) by (nonlinear_arith);
        y = y + 1;
    }
    assert(height * width == width * height) by (nonlinear_arith);
    assert(data@ =~= chroma_pattern(
        width as int,
        height as int,
        index as int,
        phase as int,
    ).data);
    Plane { data, stride: width, width, height }
}

/// Makes the picture with the given index.
pub fn moving_frame(width: usize, height: usize, index: usize, time_base: Rational) -> (frame:
    VideoFrame)
    requires
        pattern_fits(width as int, height as int, index as int),
    ensures
        frame@ == moving_pattern(width as int, height as int, index as int, time_base),
{
    assert((width / 2) * (height / 2) <= width * height) by (nonlinear_arith);
    let luma: Plane = luma_plane(width, height, index);
    let cb: Plane = chroma_plane(width / 2, height / 2, index, 3);
    let cr: Plane = chroma_plane(width / 2, height / 2, index, 7);
    let planes: Vec<Plane> = vec![luma, cb, cr];
    assert(plane_models(planes@) =~= moving_pattern(
        width as int,
        height as int,
        index as int,
        time_base,
    ).planes);
    VideoFrame {
        format: PixelFormat::Yuv420p8,
        width,
        height,
        planes,
        timing: FrameTiming {
            pts: Some(Timestamp { value: index as i64, time_base }),
            duration: Some(Timestamp { value: 1, time_base }),
        },
        color: ColorDescription { primaries: None, transfer: None, matrix: None, full_range: None },
        field_order: FieldOrder::Progressive,
    }
}

} // verus!
