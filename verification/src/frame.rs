//! Frames: what the encoder takes and what it gives back.

use vstd::prelude::*;

use crate::error::{Error, Fault};
use crate::math::magnitude;
use crate::picture::{lemma_plane_size, planes_fit, Planes, Samples};
use crate::residual::sum_of;

verus! {

/// How samples are laid out.
#[derive(Clone, Copy, Debug, PartialEq, Eq, Structural)]
pub enum PixelFormat {
    /// Eight-bit luma and two chroma planes of half the size in both directions.
    Yuv420p8,
    /// Interleaved eight-bit red, green, and blue.
    Rgb24,
}

/// Whether a frame holds fields.
#[derive(Clone, Copy, Debug, PartialEq, Eq, Structural)]
pub enum FieldOrder {
    /// The frame is a whole picture.
    Progressive,
    /// Nothing is known.
    Unspecified,
    /// The top field comes first.
    TopFieldFirst,
    /// The bottom field comes first.
    BottomFieldFirst,
}

/// A fraction.
#[derive(Clone, Copy, Debug, PartialEq, Eq, Structural)]
pub struct Rational {
    /// The upper part.
    pub numerator: i64,
    /// The lower part.
    pub denominator: i64,
}

/// A number of ticks.
#[derive(Clone, Copy, Debug, PartialEq, Eq, Structural)]
pub struct Timestamp {
    /// How many ticks.
    pub value: i64,
    /// How long a tick is, in seconds.
    pub time_base: Rational,
}

/// When a frame is shown, and for how long.
#[derive(Clone, Copy, Debug, PartialEq, Eq)]
pub struct FrameTiming {
    /// When it is shown.
    pub pts: Option<Timestamp>,
    /// For how long.
    pub duration: Option<Timestamp>,
}

/// How samples stand for colors, by their registered code points.
#[derive(Clone, Copy, Debug, PartialEq, Eq)]
pub struct ColorDescription {
    /// Color primaries.
    pub primaries: Option<u8>,
    /// Transfer characteristics.
    pub transfer: Option<u8>,
    /// Matrix coefficients.
    pub matrix: Option<u8>,
    /// Whether all sample values are used.
    pub full_range: Option<bool>,
}

/// A plane of samples.
#[derive(Debug, PartialEq, Eq)]
pub struct Plane {
    /// The samples, row by row.
    pub data: Vec<u8>,
    /// How far the starts of two rows are apart.
    pub stride: usize,
    /// How many samples of a row are seen.
    pub width: usize,
    /// How many rows there are.
    pub height: usize,
}

/// A plane of samples.
#[verifier::ext_equal]
pub struct PlaneModel {
    /// The samples, row by row.
    pub data: Seq<u8>,
    /// How far the starts of two rows are apart.
    pub stride: int,
    /// How many samples of a row are seen.
    pub width: int,
    /// How many rows there are.
    pub height: int,
}

/// A frame.
#[derive(Debug, PartialEq, Eq)]
pub struct VideoFrame {
    /// How samples are laid out.
    pub format: PixelFormat,
    /// How wide the picture is.
    pub width: usize,
    /// How high the picture is.
    pub height: usize,
    /// The planes.
    pub planes: Vec<Plane>,
    /// When the frame is shown.
    pub timing: FrameTiming,
    /// How samples stand for colors.
    pub color: ColorDescription,
    /// Whether the frame holds fields.
    pub field_order: FieldOrder,
}

/// A frame.
#[verifier::ext_equal]
pub struct FrameModel {
    /// How samples are laid out.
    pub format: PixelFormat,
    /// How wide the picture is.
    pub width: int,
    /// How high the picture is.
    pub height: int,
    /// The planes.
    pub planes: Seq<PlaneModel>,
    /// When the frame is shown.
    pub timing: FrameTiming,
    /// How samples stand for colors.
    pub color: ColorDescription,
    /// Whether the frame holds fields.
    pub field_order: FieldOrder,
}

impl View for Plane {
    type V = PlaneModel;

    open spec fn view(&self) -> PlaneModel {
        PlaneModel {
            data: self.data@,
            stride: self.stride as int,
            width: self.width as int,
            height: self.height as int,
        }
    }
}

/// The planes of a frame.
pub open spec fn plane_models(planes: Seq<Plane>) -> Seq<PlaneModel> {
    Seq::new(planes.len(), |i: int| planes[i]@)
}

impl View for VideoFrame {
    type V = FrameModel;

    open spec fn view(&self) -> FrameModel {
        FrameModel {
            format: self.format,
            width: self.width as int,
            height: self.height as int,
            planes: plane_models(self.planes@),
            timing: self.timing,
            color: self.color,
            field_order: self.field_order,
        }
    }
}

impl Clone for Plane {
    fn clone(&self) -> (copy: Self)
        ensures
            copy@ == self@,
    {
        let copy = Plane {
            data: self.data.clone(),
            stride: self.stride,
            width: self.width,
            height: self.height,
        };
        assert(copy.data@ =~= self.data@);
        copy
    }
}

impl Clone for VideoFrame {
    fn clone(&self) -> (copy: Self)
        ensures
            copy@ == self@,
    {
        let mut planes: Vec<Plane> = Vec::with_capacity(self.planes.len());
        let mut i: usize = 0;
        while i < self.planes.len()
            invariant
                i <= self.planes@.len(),
                planes@.len() == i,
                forall|j: int| 0 <= j < i ==> (#[trigger] planes@[j])@ == self.planes@[j]@,
            decreases self.planes@.len() - i,
        {
            let plane: Plane = self.planes[i].clone();
            planes.push(plane);
            i = i + 1;
        }
        assert(plane_models(planes@) =~= plane_models(self.planes@));
        VideoFrame {
            format: self.format,
            width: self.width,
            height: self.height,
            planes,
            timing: self.timing,
            color: self.color,
            field_order: self.field_order,
        }
    }
}

/// How many samples a plane of the given shape holds at least.
pub open spec fn samples_needed(stride: int, width: int, height: int) -> int {
    stride * (if height > 0 {
        height - 1
    } else {
        0
    }) + width
}

/// Why a plane does not hold `width` by `height` samples, if so.
pub open spec fn plane_fault(plane: PlaneModel, width: int, height: int) -> Option<Error> {
    if plane.width != width || plane.height != height || plane.stride < width {
        Some(Error::InvalidData(Fault::PlaneShape))
    } else if samples_needed(plane.stride, width, height) > usize::MAX {
        Some(Error::InvalidData(Fault::PlaneOverflow))
    } else if plane.data.len() < samples_needed(plane.stride, width, height) {
        Some(Error::InvalidData(Fault::PlaneTruncated))
    } else {
        None
    }
}

/// Success, or the given error.
pub open spec fn unless(fault: Option<Error>) -> Result<(), Error> {
    match fault {
        None => Ok(()),
        Some(error) => Err(error),
    }
}

/// Checks that a plane holds `width` by `height` samples.
///
/// # Errors
///
/// Returns an error when the plane has another shape or too few samples.
pub fn validate_plane(plane: &Plane, width: usize, height: usize) -> (result: Result<(), Error>)
    ensures
        result == unless(plane_fault(plane@, width as int, height as int)),
{
    if plane.width != width || plane.height != height || plane.stride < width {
        return Err(Error::InvalidData(Fault::PlaneShape));
    }
    let rows: usize = if height > 0 {
        height - 1
    } else {
        0
    };
    assert(0 <= plane.stride * rows) by (nonlinear_arith);
    let required: usize = match plane.stride.checked_mul(rows) {
        None => {
            return Err(Error::InvalidData(Fault::PlaneOverflow));
        },
        Some(offset) => match offset.checked_add(width) {
            None => {
                return Err(Error::InvalidData(Fault::PlaneOverflow));
            },
            Some(required) => required,
        },
    };
    if plane.data.len() < required {
        return Err(Error::InvalidData(Fault::PlaneTruncated));
    }
    Ok(())
}

/// Why an encoder cannot take pictures of some size, if so.
pub open spec fn dimensions_fault(width: int, height: int) -> Option<Error> {
    if width == 0 || height == 0 {
        Some(Error::InvalidData(Fault::ZeroDimensions))
    } else if width % 2 != 0 || height % 2 != 0 {
        Some(Error::Unsupported(Fault::OddDimensions))
    } else {
        None
    }
}

/// Checks that pictures of some size can be encoded.
///
/// # Errors
///
/// Returns an error when a side is zero or odd.
pub fn validate_dimensions(width: usize, height: usize) -> (result: Result<(), Error>)
    ensures
        result == unless(dimensions_fault(width as int, height as int)),
{
    if width == 0 || height == 0 {
        return Err(Error::InvalidData(Fault::ZeroDimensions));
    }
    if width % 2 != 0 || height % 2 != 0 {
        return Err(Error::Unsupported(Fault::OddDimensions));
    }
    Ok(())
}

/// Why a frame is not one of a sequence of the given size, if so.
pub open spec fn frame_fault(frame: FrameModel, width: int, height: int) -> Option<Error> {
    if frame.format != PixelFormat::Yuv420p8 || frame.width != width || frame.height != height {
        Some(Error::InvalidData(Fault::FrameMismatch))
    } else if frame.field_order != FieldOrder::Progressive && frame.field_order
        != FieldOrder::Unspecified {
        Some(Error::Unsupported(Fault::Interlaced))
    } else if frame.planes.len() != 3 {
        Some(Error::InvalidData(Fault::PlaneCount))
    } else if plane_fault(frame.planes[0], width, height) is Some {
        plane_fault(frame.planes[0], width, height)
    } else if plane_fault(frame.planes[1], width / 2, height / 2) is Some {
        plane_fault(frame.planes[1], width / 2, height / 2)
    } else {
        plane_fault(frame.planes[2], width / 2, height / 2)
    }
}

/// Checks that a frame is one of a sequence of the given size.
///
/// # Errors
///
/// Returns an error when its format, size, field order, or planes are others.
pub fn validate_frame(frame: &VideoFrame, width: usize, height: usize) -> (result: Result<
    (),
    Error,
>)
    ensures
        result == unless(frame_fault(frame@, width as int, height as int)),
{
    match frame.format {
        PixelFormat::Yuv420p8 => {},
        _ => {
            return Err(Error::InvalidData(Fault::FrameMismatch));
        },
    }
    if frame.width != width || frame.height != height {
        return Err(Error::InvalidData(Fault::FrameMismatch));
    }
    match frame.field_order {
        FieldOrder::Progressive | FieldOrder::Unspecified => {},
        _ => {
            return Err(Error::Unsupported(Fault::Interlaced));
        },
    }
    if frame.planes.len() != 3 {
        return Err(Error::InvalidData(Fault::PlaneCount));
    }
    if let Err(error) = validate_plane(&frame.planes[0], width, height) {
        return Err(error);
    }
    if let Err(error) = validate_plane(&frame.planes[1], width / 2, height / 2) {
        return Err(error);
    }
    validate_plane(&frame.planes[2], width / 2, height / 2)
}

/// The smaller of two numbers.
pub open spec fn least(a: int, b: int) -> int {
    if a <= b {
        a
    } else {
        b
    }
}

/// A plane whose last column and row are repeated up to the coded size.
pub open spec fn padded(plane: PlaneModel, coded_width: int, coded_height: int) -> Seq<u8> {
    Seq::new(
        (coded_width * coded_height) as nat,
        |i: int|
            plane.data[least(i / coded_width, plane.height - 1) * plane.stride + least(
                i % coded_width,
                plane.width - 1,
            )],
    )
}

/// The seen part of a coded plane.
pub open spec fn cropped(plane: Seq<u8>, coded_width: int, width: int, height: int) -> Seq<u8> {
    Seq::new((width * height) as nat, |i: int| plane[i / width * coded_width + i % width])
}

proof fn lemma_sample_held(plane: PlaneModel, x: int, y: int)
    requires
        0 <= x < plane.width,
        0 <= y < plane.height,
        plane.width <= plane.stride,
        plane.data.len() >= samples_needed(plane.stride, plane.width, plane.height),
    ensures
        0 <= y * plane.stride <= y * plane.stride + x < plane.data.len(),
{
    assert(0 <= y * plane.stride <= plane.stride * (plane.height - 1)) by (nonlinear_arith)
        requires
            0 <= y <= plane.height - 1,
            0 <= plane.stride,
    ;
}

/// Repeats the last column and row of a plane up to the coded size.
fn pad_plane(plane: &Plane, coded_width: usize, coded_height: usize) -> (output: Vec<u8>)
    requires
        0 < coded_width,
        plane_fault(plane@, plane.width as int, plane.height as int) is None,
        0 < plane.width,
        0 < plane.height,
        coded_width * coded_height <= usize::MAX,
    ensures
        output@ == padded(plane@, coded_width as int, coded_height as int),
{
    let count: usize = coded_width * coded_height;
    let ghost expected = padded(plane@, coded_width as int, coded_height as int);
    let mut output: Vec<u8> = Vec::with_capacity(count);
    let mut i: usize = 0;
    while i < count
        invariant
            i <= count,
            count == coded_width * coded_height,
            0 < coded_width,
            plane_fault(plane@, plane.width as int, plane.height as int) is None,
            0 < plane.width,
            0 < plane.height,
            expected == padded(plane@, coded_width as int, coded_height as int),
            output@.len() == i,
            forall|j: int| 0 <= j < i ==> #[trigger] output@[j] == expected[j],
        decreases count - i,
    {
        let mut y: usize = i / coded_width;
        let mut x: usize = i % coded_width;
        if y > plane.height - 1 {
            y = plane.height - 1;
        }
        if x > plane.width - 1 {
            x = plane.width - 1;
        }
        proof {
            assert(plane.data.len() == plane.data@.len());
            lemma_sample_held(plane@, x as int, y as int);
        }
        let sample: u8 = plane.data[y * plane.stride + x];
        output.push(sample);
        i = i + 1;
    }
    assert(output@ =~= expected);
    output
}

/// Whether a frame has three planes for a picture of even sides, and fits into macroblocks.
pub open spec fn frame_fits(frame: FrameModel, wide: int, high: int) -> bool {
    &&& 0 < frame.width <= 16 * wide
    &&& 0 < frame.height <= 16 * high
    &&& dimensions_fault(frame.width, frame.height) is None
    &&& frame_fault(frame, frame.width, frame.height) is None
}

/// The planes of a frame, extended to whole macroblocks.
#[verifier::opaque]
pub open spec fn padded_samples(frame: FrameModel, wide: int, high: int) -> Samples {
    Samples {
        luma: padded(frame.planes[0], 16 * wide, 16 * high),
        cb: padded(frame.planes[1], 8 * wide, 8 * high),
        cr: padded(frame.planes[2], 8 * wide, 8 * high),
    }
}

/// Extends the planes of a frame to whole macroblocks.
pub fn padded_planes(frame: &VideoFrame, macroblocks_wide: usize, macroblocks_high: usize) -> (
    planes: Planes)
    requires
        frame_fits(frame@, macroblocks_wide as int, macroblocks_high as int),
        (16 * macroblocks_wide) * (16 * macroblocks_high) <= usize::MAX,
    ensures
        planes@ == padded_samples(frame@, macroblocks_wide as int, macroblocks_high as int),
        planes_fit(planes@, macroblocks_wide as int, macroblocks_high as int),
{
    reveal(padded_samples);
    proof {
        lemma_plane_size(macroblocks_wide as int, macroblocks_high as int, 16);
        lemma_plane_size(macroblocks_wide as int, macroblocks_high as int, 8);
        assert((8 * macroblocks_wide) * (8 * macroblocks_high) <= (16 * macroblocks_wide) * (16
            * macroblocks_high)) by (nonlinear_arith)
            requires
                0 <= macroblocks_wide,
                0 <= macroblocks_high,
        ;
        assert(0 < (8 * macroblocks_wide) * (8 * macroblocks_high));
    }
    let ghost model = frame@;
    assert(model.planes[0] == frame.planes@[0]@);
    assert(model.planes[1] == frame.planes@[1]@);
    assert(model.planes[2] == frame.planes@[2]@);
    let luma: Vec<u8> = pad_plane(&frame.planes[0], macroblocks_wide * 16, macroblocks_high * 16);
    let cb: Vec<u8> = pad_plane(&frame.planes[1], macroblocks_wide * 8, macroblocks_high * 8);
    let cr: Vec<u8> = pad_plane(&frame.planes[2], macroblocks_wide * 8, macroblocks_high * 8);
    Planes { luma, cb, cr }
}

/// The seen part of coded planes, with everything else of the source frame.
#[verifier::opaque]
pub open spec fn visible(source: FrameModel, planes: Samples, wide: int) -> FrameModel {
    let width = source.width;
    let height = source.height;
    FrameModel {
        planes: seq![
            PlaneModel {
                data: cropped(planes.luma, 16 * wide, width, height),
                stride: width,
                width,
                height,
            },
            PlaneModel {
                data: cropped(planes.cb, 8 * wide, width / 2, height / 2),
                stride: width / 2,
                width: width / 2,
                height: height / 2,
            },
            PlaneModel {
                data: cropped(planes.cr, 8 * wide, width / 2, height / 2),
                stride: width / 2,
                width: width / 2,
                height: height / 2,
            },
        ],
        ..source
    }
}

/// Cuts the seen part out of a coded plane.
fn crop_plane(plane: &[u8], coded_width: usize, width: usize, height: usize) -> (result: Plane)
    requires
        0 < width <= coded_width,
        coded_width * height <= plane@.len(),
    ensures
        result@ == (PlaneModel {
            data: cropped(plane@, coded_width as int, width as int, height as int),
            stride: width as int,
            width: width as int,
            height: height as int,
        }),
{
    let length: usize = plane.len();
    assert(width * height <= coded_width * height) by (nonlinear_arith)
        requires
            width <= coded_width,
            0 <= height,
    ;
    let count: usize = width * height;
    let ghost expected = cropped(plane@, coded_width as int, width as int, height as int);
    let mut data: Vec<u8> = Vec::with_capacity(count);
    let mut i: usize = 0;
    while i < count
        invariant
            i <= count,
            count == width * height,
            0 < width <= coded_width,
            coded_width * height <= plane@.len(),
            plane@.len() == length,
            expected == cropped(plane@, coded_width as int, width as int, height as int),
            data@.len() == i,
            forall|j: int| 0 <= j < i ==> #[trigger] data@[j] == expected[j],
        decreases count - i,
    {
        let y: usize = i / width;
        let x: usize = i % width;
        proof {
            vstd::arithmetic::div_mod::lemma_fundamental_div_mod(i as int, width as int);
            assert(y < height) by (nonlinear_arith)
                requires
                    width * y + x == i,
                    i < width * height,
                    0 <= x,
                    0 < width,
            ;
            assert(0 <= y * coded_width && y * coded_width + coded_width <= coded_width * height)
                by (nonlinear_arith)
                requires
                    0 <= y < height,
                    0 <= coded_width,
            ;
        }
        let sample: u8 = plane[y * coded_width + x];
        data.push(sample);
        i = i + 1;
    }
    assert(data@ =~= expected);
    Plane { data, stride: width, width, height }
}

/// Cuts the seen part out of coded planes.
pub fn visible_frame(
    source: &VideoFrame,
    planes: &Planes,
    macroblocks_wide: usize,
    macroblocks_high: usize,
) -> (frame: VideoFrame)
    requires
        frame_fits(source@, macroblocks_wide as int, macroblocks_high as int),
        planes_fit(planes@, macroblocks_wide as int, macroblocks_high as int),
    ensures
        frame@ == visible(source@, planes@, macroblocks_wide as int),
{
    reveal(visible);
    proof {
        assert(planes.luma.len() == planes.luma@.len());
        lemma_plane_size(macroblocks_wide as int, macroblocks_high as int, 16);
        assert((16 * macroblocks_wide) * source.height <= (16 * macroblocks_wide) * (16
            * macroblocks_high)) by (nonlinear_arith)
            requires
                0 <= macroblocks_wide,
                source.height <= 16 * macroblocks_high,
        ;
        assert((8 * macroblocks_wide) * (source.height as int / 2) <= (8 * macroblocks_wide) * (8
            * macroblocks_high)) by (nonlinear_arith)
            requires
                0 <= macroblocks_wide,
                source.height <= 16 * macroblocks_high,
        ;
    }
    let width: usize = source.width;
    let height: usize = source.height;
    let luma: Plane = crop_plane(planes.luma.as_slice(), macroblocks_wide * 16, width, height);
    let cb: Plane = crop_plane(planes.cb.as_slice(), macroblocks_wide * 8, width / 2, height / 2);
    let cr: Plane = crop_plane(planes.cr.as_slice(), macroblocks_wide * 8, width / 2, height / 2);
    let frame = VideoFrame {
        format: source.format,
        width,
        height,
        planes: vec![luma, cb, cr],
        timing: source.timing,
        color: source.color,
        field_order: source.field_order,
    };
    assert(frame@.planes =~= visible(source@, planes@, macroblocks_wide as int).planes);
    frame
}

/// Extending a plane to whole macroblocks keeps the samples that are seen.
pub proof fn law_padding_keeps_samples(
    plane: PlaneModel,
    coded_width: int,
    coded_height: int,
    x: int,
    y: int,
)
    requires
        0 <= x < plane.width <= coded_width,
        0 <= y < plane.height <= coded_height,
    ensures
        cropped(
            padded(plane, coded_width, coded_height),
            coded_width,
            plane.width,
            plane.height,
        )[y * plane.width + x] == plane.data[y * plane.stride + x],
{
    vstd::arithmetic::div_mod::lemma_fundamental_div_mod_converse(
        y * plane.width + x,
        plane.width,
        y,
        x,
    );
    vstd::arithmetic::div_mod::lemma_fundamental_div_mod_converse(
        y * coded_width + x,
        coded_width,
        y,
        x,
    );
    crate::math::lemma_place_inside(y, x, plane.width, plane.height);
    crate::math::lemma_place_inside(y, x, coded_width, coded_height);
    assert(plane.height * plane.width == plane.width * plane.height) by (nonlinear_arith);
    assert(coded_height * coded_width == coded_width * coded_height) by (nonlinear_arith);
}

/// The distances between the seen samples of a plane and those of a coded plane.
pub open spec fn sample_distances(
    plane: PlaneModel,
    reference: Seq<u8>,
    coded_width: int,
) -> Seq<int> {
    Seq::new(
        (plane.width * plane.height) as nat,
        |i: int|
            magnitude(
                plane.data[i / plane.width * plane.stride + i % plane.width] - reference[i
                    / plane.width * coded_width + i % plane.width],
            ),
    )
}

/// Whether a frame differs so much from a coded picture that a new scene starts with it.
#[verifier::opaque]
pub open spec fn scene_cut(
    frame: FrameModel,
    threshold: int,
    reference: Seq<u8>,
    coded_width: int,
) -> bool {
    let plane = frame.planes[0];
    let all = sample_distances(plane, reference, coded_width);
    threshold != 0 && sum_of(all, all.len() as int) >= threshold * (plane.width * plane.height)
}

/// Whether a frame differs so much from a coded picture that a new scene starts with it.
pub fn scene_cut_detected(
    frame: &VideoFrame,
    threshold: u8,
    reference: &[u8],
    macroblocks_wide: usize,
    macroblocks_high: usize,
) -> (detected: bool)
    requires
        frame_fits(frame@, macroblocks_wide as int, macroblocks_high as int),
        reference@.len() == (16 * macroblocks_wide) * (16 * macroblocks_high),
        reference@.len() <= 0x1_0000_0000,
    ensures
        detected == scene_cut(
            frame@,
            threshold as int,
            reference@,
            16 * macroblocks_wide as int,
        ),
{
    reveal(scene_cut);
    if threshold == 0 {
        return false;
    }
    let length: usize = reference.len();
    let plane: &Plane = &frame.planes[0];
    assert(frame@.planes[0] == plane@);
    let width: usize = plane.width;
    let height: usize = plane.height;
    proof {
        lemma_plane_size(macroblocks_wide as int, macroblocks_high as int, 16);
        assert((16 * macroblocks_wide) * height <= (16 * macroblocks_wide) * (16
            * macroblocks_high)) by (nonlinear_arith)
            requires
                0 <= macroblocks_wide,
                height <= 16 * macroblocks_high,
        ;
        assert(width * height <= (16 * macroblocks_wide) * height) by (nonlinear_arith)
            requires
                width <= 16 * macroblocks_wide,
                0 <= height,
        ;
    }
    let coded_width: usize = macroblocks_wide * 16;
    let count: usize = width * height;
    let ghost all = sample_distances(plane@, reference@, coded_width as int);
    let mut sum: u64 = 0;
    let mut i: usize = 0;
    while i < count
        invariant
            i <= count,
            count == width * height,
            count <= 0x1_0000_0000,
            width == plane.width,
            height == plane.height,
            0 < width <= coded_width,
            coded_width * height <= reference@.len(),
            reference@.len() == length,
            plane_fault(plane@, width as int, height as int) is None,
            all == sample_distances(plane@, reference@, coded_width as int),
            all.len() == count,
            sum == sum_of(all, i as int),
            sum <= 255 * i,
        decreases count - i,
    {
        let y: usize = i / width;
        let x: usize = i % width;
        proof {
            vstd::arithmetic::div_mod::lemma_fundamental_div_mod(i as int, width as int);
            assert(y < height) by (nonlinear_arith)
                requires
                    width * y + x == i,
                    i < width * height,
                    0 <= x,
                    0 < width,
            ;
            assert(0 <= y * coded_width && y * coded_width + coded_width <= coded_width * height)
                by (nonlinear_arith)
                requires
                    0 <= y < height,
                    0 <= coded_width,
            ;
            assert(plane.data.len() == plane.data@.len());
            lemma_sample_held(plane@, x as int, y as int);
        }
        let own: u8 = plane.data[y * plane.stride + x];
        let other: u8 = reference[y * coded_width + x];
        let distance: u8 = if own >= other {
            own - other
        } else {
            other - own
        };
        assert(all[i as int] == distance);
        sum = sum + distance as u64;
        i = i + 1;
    }
    assert(0 <= threshold * count <= 255 * count) by (nonlinear_arith)
        requires
            0 <= threshold <= 255,
            0 <= count,
    ;
    sum >= threshold as u64 * count as u64
}

} // verus!
