//! Scaling matrices.

use vstd::prelude::*;

use crate::quantize::scaling_matrix;

verus! {

/// Which scaling matrices a sequence uses.
#[derive(Clone, Copy, Debug, PartialEq, Eq, Structural)]
pub enum ScalingMatrixPreset {
    /// All coefficients are scaled alike.
    Flat,
    /// High frequencies are scaled down.
    Jvt,
}

/// Equal weights for a four-by-four block.
pub const FLAT_4X4: [u8; 16] = [
    16, 16, 16, 16, 16, 16, 16, 16, 16, 16, 16, 16, 16, 16, 16, 16,
];

/// Equal weights for an eight-by-eight block.
pub const FLAT_8X8: [u8; 64] = [
    16, 16, 16, 16, 16, 16, 16, 16, 16, 16, 16, 16, 16, 16, 16, 16,
    16, 16, 16, 16, 16, 16, 16, 16, 16, 16, 16, 16, 16, 16, 16, 16,
    16, 16, 16, 16, 16, 16, 16, 16, 16, 16, 16, 16, 16, 16, 16, 16,
    16, 16, 16, 16, 16, 16, 16, 16, 16, 16, 16, 16, 16, 16, 16, 16,
];

/// Perceptual weights of intra four-by-four blocks.
pub const JVT_4X4_INTRA: [u8; 16] = [
    6, 13, 20, 28, 13, 20, 28, 32, 20, 28, 32, 37, 28, 32, 37, 42,
];
/// Perceptual weights of inter four-by-four blocks.
pub const JVT_4X4_INTER: [u8; 16] = [
    10, 14, 20, 24, 14, 20, 24, 27, 20, 24, 27, 30, 24, 27, 30, 34,
];
/// Perceptual weights of intra eight-by-eight blocks.
pub const JVT_8X8_INTRA: [u8; 64] = [
    6, 10, 13, 16, 18, 23, 25, 27, 10, 11, 16, 18, 23, 25, 27, 29, 13, 16, 18, 23, 25, 27, 29, 31,
    16, 18, 23, 25, 27, 29, 31, 33, 18, 23, 25, 27, 29, 31, 33, 36, 23, 25, 27, 29, 31, 33, 36, 38,
    25, 27, 29, 31, 33, 36, 38, 40, 27, 29, 31, 33, 36, 38, 40, 42,
];
/// Perceptual weights of inter eight-by-eight blocks.
pub const JVT_8X8_INTER: [u8; 64] = [
    9, 13, 15, 17, 19, 21, 22, 24, 13, 13, 17, 19, 21, 22, 24, 25, 15, 17, 19, 21, 22, 24, 25, 27,
    17, 19, 21, 22, 24, 25, 27, 28, 19, 21, 22, 24, 25, 27, 28, 30, 21, 22, 24, 25, 27, 28, 30, 32,
    22, 24, 25, 27, 28, 30, 32, 33, 24, 25, 27, 28, 30, 32, 33, 35,
];

/// The matrix of four-by-four blocks, row by row.
#[verifier::opaque]
pub open spec fn matrix_4x4(preset: ScalingMatrixPreset, intra: bool) -> Seq<u8> {
    match preset {
        ScalingMatrixPreset::Flat => FLAT_4X4@,
        ScalingMatrixPreset::Jvt => if intra {
            JVT_4X4_INTRA@
        } else {
            JVT_4X4_INTER@
        },
    }
}

/// The matrix of eight-by-eight blocks, row by row.
#[verifier::opaque]
pub open spec fn matrix_8x8(preset: ScalingMatrixPreset, intra: bool) -> Seq<u8> {
    match preset {
        ScalingMatrixPreset::Flat => FLAT_8X8@,
        ScalingMatrixPreset::Jvt => if intra {
            JVT_8X8_INTRA@
        } else {
            JVT_8X8_INTER@
        },
    }
}

impl ScalingMatrixPreset {
    /// The matrix of four-by-four blocks, row by row.
    pub fn four_by_four(self, intra: bool) -> (matrix: [u8; 16])
        ensures
            matrix@ == matrix_4x4(self, intra),
            scaling_matrix(matrix@, 16),
    {
        reveal(matrix_4x4);
        match self {
            ScalingMatrixPreset::Flat => FLAT_4X4,
            ScalingMatrixPreset::Jvt => if intra {
                JVT_4X4_INTRA
            } else {
                JVT_4X4_INTER
            },
        }
    }

    /// The matrix of eight-by-eight blocks, row by row.
    pub fn eight_by_eight(self, intra: bool) -> (matrix: [u8; 64])
        ensures
            matrix@ == matrix_8x8(self, intra),
            scaling_matrix(matrix@, 64),
    {
        reveal(matrix_8x8);
        match self {
            ScalingMatrixPreset::Flat => FLAT_8X8,
            ScalingMatrixPreset::Jvt => if intra {
                JVT_8X8_INTRA
            } else {
                JVT_8X8_INTER
            },
        }
    }
}

} // verus!
