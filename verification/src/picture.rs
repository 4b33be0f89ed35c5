//! The planes of a picture and the place of a macroblock in them.

use vstd::prelude::*;

use crate::deblock::{chroma_qp, chroma_quantizer};
use crate::plane::region_inside;
use crate::quantize::quantizer;
use crate::scaling::ScalingMatrixPreset;

verus! {

/// Samples of the luma plane and of both chroma planes, without gaps between rows.
#[derive(Debug, PartialEq, Eq)]
pub struct Planes {
    /// Luma samples.
    pub luma: Vec<u8>,
    /// Blue-difference samples.
    pub cb: Vec<u8>,
    /// Red-difference samples.
    pub cr: Vec<u8>,
}

/// The samples of three planes.
#[verifier::ext_equal]
pub struct Samples {
    /// Luma samples.
    pub luma: Seq<u8>,
    /// Blue-difference samples.
    pub cb: Seq<u8>,
    /// Red-difference samples.
    pub cr: Seq<u8>,
}

impl View for Planes {
    type V = Samples;

    open spec fn view(&self) -> Samples {
        Samples { luma: self.luma@, cb: self.cb@, cr: self.cr@ }
    }
}

impl Clone for Planes {
    fn clone(&self) -> (copy: Self)
        ensures
            copy@ == self@,
    {
        let copy = Planes {
            luma: self.luma.clone(),
            cb: self.cb.clone(),
            cr: self.cr.clone(),
        };
        assert(copy.luma@ =~= self.luma@);
        assert(copy.cb@ =~= self.cb@);
        assert(copy.cr@ =~= self.cr@);
        copy
    }
}

/// Whether planes hold a picture of `wide` by `high` macroblocks.
pub open spec fn planes_fit(planes: Samples, wide: int, high: int) -> bool {
    &&& 0 < wide
    &&& 0 < high
    &&& planes.luma.len() == (16 * wide) * (16 * high)
    &&& planes.cb.len() == (8 * wide) * (8 * high)
    &&& planes.cr.len() == (8 * wide) * (8 * high)
}

/// How many samples there are for `side` samples of each macroblock in both directions.
pub proof fn lemma_plane_size(wide: int, high: int, side: int)
    requires
        0 < wide,
        0 < high,
        0 < side,
    ensures
        side * wide <= (side * wide) * (side * high),
        side * high <= (side * wide) * (side * high),
        wide <= side * wide,
        high <= side * high,
        0 < wide * high <= (side * wide) * (side * high),
{
    assert(wide <= side * wide) by (nonlinear_arith)
        requires
            0 < wide,
            0 < side,
    ;
    assert(high <= side * high) by (nonlinear_arith)
        requires
            0 < high,
            0 < side,
    ;
    let across = side * wide;
    let down = side * high;
    assert(across <= across * down && down <= across * down) by (nonlinear_arith)
        requires
            0 < across,
            0 < down,
    ;
    assert(0 < wide * high <= across * down) by (nonlinear_arith)
        requires
            0 < wide <= across,
            0 < high <= down,
    ;
}

/// A macroblock lies inside the picture.
pub proof fn lemma_macroblock_inside(wide: int, high: int, x: int, y: int, side: int)
    requires
        0 <= x < wide,
        0 <= y < high,
        0 < side,
    ensures
        region_inside(
            (side * wide) * (side * high),
            side * wide,
            x * side,
            y * side,
            side,
            side,
        ),
        0 <= x * side,
        0 <= y * side,
        x * side + side <= side * wide,
        y * side + side <= side * high,
        0 <= y * wide + x < wide * high,
        (y * wide + x) % wide == x,
        (y * wide + x) / wide == y,
        side * wide <= (side * wide) * (side * high),
        side * high <= (side * wide) * (side * high),
        wide * high <= (side * wide) * (side * high),
{
    lemma_plane_size(wide, high, side);
    assert(0 <= x * side && x * side + side <= side * wide) by (nonlinear_arith)
        requires
            0 <= x < wide,
            0 < side,
    ;
    assert(0 <= y * side && y * side + side <= side * high) by (nonlinear_arith)
        requires
            0 <= y < high,
            0 < side,
    ;
    let stride = side * wide;
    let bottom = y * side + side;
    let rows = side * high;
    assert(bottom * stride <= stride * rows) by (nonlinear_arith)
        requires
            0 <= bottom <= rows,
            0 <= stride,
    ;
    crate::math::lemma_place_inside(y, x, wide, high);
    assert(high * wide == wide * high) by (nonlinear_arith);
    vstd::arithmetic::div_mod::lemma_fundamental_div_mod_converse(y * wide + x, wide, y, x);
}

/// A part of a region that lies inside a plane lies inside it too.
pub proof fn lemma_part_inside(
    length: int,
    stride: int,
    x: int,
    y: int,
    width: int,
    height: int,
    column: int,
    row: int,
    part_width: int,
    part_height: int,
)
    requires
        region_inside(length, stride, x, y, width, height),
        0 <= column,
        0 <= part_width,
        column + part_width <= width,
        0 <= row,
        0 <= part_height,
        row + part_height <= height,
    ensures
        region_inside(length, stride, x + column, y + row, part_width, part_height),
{
    assert((y + row + part_height) * stride <= (y + height) * stride) by (nonlinear_arith)
        requires
            0 <= y + row + part_height <= y + height,
            0 <= stride,
    ;
}

/// Where and how a macroblock is coded.
#[derive(Clone, Copy, Debug)]
pub struct Site<'a> {
    /// The source picture.
    pub source: &'a Planes,
    /// How many macroblocks stand side by side.
    pub wide: usize,
    /// How many macroblocks stand one above the other.
    pub high: usize,
    /// The column of the macroblock.
    pub x: usize,
    /// The row of the macroblock.
    pub y: usize,
    /// Its luma quantizer.
    pub qp: i32,
    /// Whether it is coded without loss.
    pub bypass: bool,
    /// Its scaling matrices.
    pub preset: ScalingMatrixPreset,
}

/// Where and how a macroblock is coded.
pub struct SiteModel {
    /// The source picture.
    pub source: Samples,
    /// How many macroblocks stand side by side.
    pub wide: int,
    /// The column of the macroblock.
    pub x: int,
    /// The row of the macroblock.
    pub y: int,
    /// Its luma quantizer.
    pub qp: int,
    /// Whether it is coded without loss.
    pub bypass: bool,
    /// Its scaling matrices.
    pub preset: ScalingMatrixPreset,
}

impl SiteModel {
    /// The number of the macroblock, row by row.
    pub open spec fn address(self) -> int {
        self.y * self.wide + self.x
    }
}

impl<'a> View for Site<'a> {
    type V = SiteModel;

    open spec fn view(&self) -> SiteModel {
        SiteModel {
            source: self.source@,
            wide: self.wide as int,
            x: self.x as int,
            y: self.y as int,
            qp: self.qp as int,
            bypass: self.bypass,
            preset: self.preset,
        }
    }
}

impl<'a> Site<'a> {
    /// Whether the macroblock lies inside the source picture.
    pub open spec fn valid(&self) -> bool {
        &&& planes_fit(self.source@, self.wide as int, self.high as int)
        &&& self.x < self.wide
        &&& self.y < self.high
        &&& quantizer(self.qp as int)
    }

    /// The macroblock's regions lie inside planes of the picture's size, whose sizes are machine
    /// integers.
    pub proof fn lemma_inside(&self)
        requires
            self.valid(),
        ensures
            region_inside(
                self.source.luma@.len() as int,
                16 * self.wide as int,
                self.x * 16,
                self.y * 16,
                16,
                16,
            ),
            region_inside(
                self.source.cb@.len() as int,
                8 * self.wide as int,
                self.x * 8,
                self.y * 8,
                8,
                8,
            ),
            16 * self.wide + 16 <= usize::MAX,
            self.wide * self.high <= usize::MAX,
            self.x * 16 + 16 <= 16 * self.wide,
            self.y * 16 + 16 <= usize::MAX,
            self.x * 8 + 8 <= 8 * self.wide,
            0 <= self.y * self.wide,
            0 <= self@.address() < self.wide * self.high,
            self@.address() % self.wide as int == self.x,
            self@.address() / self.wide as int == self.y,
    {
        lemma_macroblock_inside(
            self.wide as int,
            self.high as int,
            self.x as int,
            self.y as int,
            16,
        );
        lemma_macroblock_inside(self.wide as int, self.high as int, self.x as int, self.y as int, 8);
        assert(self.source.luma.len() == self.source.luma@.len());
        let across = 16 * self.wide;
        let down = 16 * self.high;
        assert(across * 16 <= across * down) by (nonlinear_arith)
            requires
                0 <= across,
                16 <= down,
        ;
        assert(0 <= self.y * self.wide) by (nonlinear_arith);
    }

    /// The number of the macroblock, row by row.
    pub fn address(&self) -> (address: usize)
        requires
            self.valid(),
        ensures
            address == self@.address(),
            address < self.wide * self.high,
            address as int % self.wide as int == self.x,
    {
        proof {
            self.lemma_inside();
        }
        self.y * self.wide + self.x
    }
}

/// The chroma quantizer that goes with a luma quantizer.
#[verifier::opaque]
pub open spec fn chroma_qp_of(luma_qp: int) -> int {
    chroma_quantizer(luma_qp, 0)
}

/// The chroma quantizer that goes with a luma quantizer.
pub fn encoder_chroma_qp(luma_qp: i32) -> (qp: i32)
    ensures
        qp == chroma_qp_of(luma_qp as int),
        quantizer(qp as int),
{
    reveal(chroma_qp_of);
    chroma_qp(luma_qp, 0)
}

} // verus!
