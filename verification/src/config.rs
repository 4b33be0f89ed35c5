//! How a sequence is encoded.

use vstd::prelude::*;

use crate::frame::{dimensions_fault, Rational};
use crate::quantize::quantizer;
use crate::scaling::ScalingMatrixPreset;

verus! {

/// The most macroblocks that a picture may have.
pub const MAX_MACROBLOCKS_PER_FRAME: usize = 36_864;

/// Which macroblocks the encoder uses.
#[derive(Clone, Copy, Debug, PartialEq, Eq, Structural)]
pub enum EncoderMode {
    /// Plain samples.
    Ipcm,
    /// Macroblocks that are predicted as a whole.
    Intra16,
    /// Macroblocks that are predicted in four-by-four blocks.
    Intra4,
    /// Macroblocks that are predicted in eight-by-eight blocks.
    Intra8,
    /// Macroblocks that are predicted from other pictures.
    Inter,
}

/// How thoroughly motion is searched.
#[derive(Clone, Copy, Debug, PartialEq, Eq, Structural)]
pub enum AnalysisPreset {
    /// A coarse search that is refined where it fails.
    Fast,
    /// A search of everything.
    Full,
}

/// How syntax elements become bits.
#[derive(Clone, Copy, Debug, PartialEq, Eq, Structural)]
pub enum EntropyCoding {
    /// Variable-length codes.
    Cavlc,
    /// Arithmetic coding.
    Cabac,
}

/// How motion is derived where none is coded.
#[derive(Clone, Copy, Debug, PartialEq, Eq, Structural)]
pub enum BDirectMode {
    /// From neighbouring blocks.
    Spatial,
    /// From the same place in a later picture.
    Temporal,
}

/// What a level allows.
#[derive(Clone, Copy, Debug, PartialEq, Eq)]
pub struct AvcLevel {
    /// Its name.
    pub name: &'static str,
    /// Its number in the stream.
    pub level_idc: u8,
    /// Whether it is told apart by a constraint flag.
    pub constraint_set3: bool,
    /// The most macroblocks in a second.
    pub max_macroblocks_per_second: u64,
    /// The most macroblocks in a picture.
    pub max_frame_size: usize,
    /// The most macroblocks that are kept for reference.
    pub max_dpb_macroblocks: usize,
    /// The most kilobits in a second.
    pub max_bitrate_kbps: u64,
    /// The largest buffer, in kilobits.
    pub max_cpb_kbits: u64,
}

/// What is checked of each frame against the level.
#[derive(Clone, Copy, Debug)]
pub struct LevelConfiguration {
    /// The level.
    pub level: AvcLevel,
    /// How many macroblocks a picture has.
    pub macroblocks_per_frame: usize,
    /// How long a frame lasts that does not say so.
    pub default_frame_duration_ticks: u64,
    /// The unit of that duration.
    pub time_base: Rational,
}

/// How a sequence is encoded.
#[derive(Clone, Copy, Debug)]
pub struct Configuration {
    /// How wide pictures are.
    pub width: usize,
    /// How high pictures are.
    pub height: usize,
    /// How many macroblocks stand side by side.
    pub macroblocks_wide: usize,
    /// How many macroblocks stand one above the other.
    pub macroblocks_high: usize,
    /// Which macroblocks are used.
    pub mode: EncoderMode,
    /// The quantizer.
    pub qp: i32,
    /// How many pictures lie between two that stand alone.
    pub gop_size: usize,
    /// How far motion is searched, in samples.
    pub search_range: i32,
    /// How thoroughly motion is searched.
    pub analysis: AnalysisPreset,
    /// The mean sample difference at which a new scene starts, or zero.
    pub scene_cut_threshold: u8,
    /// How many pictures are kept for reference.
    pub max_references: usize,
    /// How many pictures are predicted from both sides.
    pub b_frames: usize,
    /// How motion is derived where none is coded.
    pub b_direct_mode: BDirectMode,
    /// How much quantizers vary in a picture.
    pub aq_strength: u8,
    /// Whether pictures carry their display order.
    pub pic_order_cnt_type0: bool,
    /// Whether eight-by-eight transforms are used.
    pub transform_8x8_mode: bool,
    /// Whether coding is without loss.
    pub transform_bypass: bool,
    /// How syntax elements become bits.
    pub entropy_coding: EntropyCoding,
    /// The scaling matrices.
    pub scaling_matrix: ScalingMatrixPreset,
    /// What is checked of each frame.
    pub level: LevelConfiguration,
}

impl Configuration {
    /// Whether all settings are in their ranges and go together.
    pub open spec fn valid(&self) -> bool {
        &&& dimensions_fault(self.width as int, self.height as int) is None
        &&& self.width <= 16 * self.macroblocks_wide
        &&& self.height <= 16 * self.macroblocks_high
        &&& 0 < self.macroblocks_wide
        &&& 0 < self.macroblocks_high
        &&& self.macroblocks_wide * self.macroblocks_high <= 36_864
        &&& quantizer(self.qp as int)
        &&& 1 <= self.gop_size <= 1000
        &&& 0 <= self.search_range <= 64
        &&& 1 <= self.max_references <= 4
        &&& self.b_frames <= 3
        &&& self.aq_strength <= 12
        &&& self.b_frames != 0 ==> self.pic_order_cnt_type0 && self.max_references >= 2
    }

    /// The number of samples in the luma plane of a picture.
    pub proof fn lemma_sizes(&self)
        requires
            self.valid(),
        ensures
            (16 * self.macroblocks_wide) * (16 * self.macroblocks_high) <= 0x90_0000,
            (8 * self.macroblocks_wide) * (8 * self.macroblocks_high) <= 0x90_0000,
            self.macroblocks_wide <= 36_864,
            self.macroblocks_high <= 36_864,
            0 < self.macroblocks_wide * self.macroblocks_high,
    {
        let wide = self.macroblocks_wide as int;
        let high = self.macroblocks_high as int;
        assert((16 * wide) * (16 * high) == 256 * (wide * high)) by (nonlinear_arith);
        assert((8 * wide) * (8 * high) == 64 * (wide * high)) by (nonlinear_arith);
        crate::picture::lemma_plane_size(wide, high, 1);
    }
}

} // verus!
