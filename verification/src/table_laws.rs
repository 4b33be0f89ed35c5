//! The values of the tables that a decoder must share.

use vstd::prelude::*;

use crate::bins::{significant_slot, BlockKind};
use crate::cabac_tables::after_lps;
use crate::deblock::{chroma_quantizer, ALPHA, BETA, CHROMA_QP, TC0};
use crate::levels::level_entry;
use crate::quant_tables::norm_adjust;
use crate::scaling::{matrix_8x8, ScalingMatrixPreset, JVT_8X8_INTER, JVT_8X8_INTRA};

verus! {

/// How large a step across an edge may be that is filtered, and how large one beside it, for quantizers
/// from sixteen on.
#[verifier::spinoff_prover]
#[verifier::rlimit(40)]
pub proof fn law_threshold_values(qp: int)
    requires
        16 <= qp <= 51,
    ensures
        ({
            let across = seq![
                4int, 4int, 5int, 6int, 7int, 8int, 9int, 10int, 12int, 13int, 15int, 17int,
                20int, 22int, 25int, 28int, 32int, 36int, 40int, 45int, 50int, 56int, 63int,
                71int, 80int, 90int, 101int, 113int, 127int, 144int, 162int, 182int, 203int,
                226int, 255int, 255int,
            ];
            let beside = seq![
                2int, 2int, 2int, 3int, 3int, 3int, 3int, 4int, 4int, 4int, 6int, 6int, 7int,
                7int, 8int, 8int, 9int, 9int, 10int, 10int, 11int, 11int, 12int, 12int, 13int,
                13int, 14int, 14int, 15int, 15int, 16int, 16int, 17int, 17int, 18int, 18int,
            ];
            ALPHA[qp] == across[qp - 16] && BETA[qp] == beside[qp - 16]
        }),
{
}

/// How far samples are moved at most, for the three weaker strengths and quantizers from sixteen on.
#[verifier::spinoff_prover]
#[verifier::rlimit(60)]
pub proof fn law_move_values(qp: int)
    requires
        16 <= qp <= 51,
    ensures
        ({
            let weakest = seq![
                0int, 0int, 0int, 0int, 0int, 0int, 0int, 1int, 1int, 1int, 1int, 1int, 1int,
                1int, 1int, 1int, 1int, 2int, 2int, 2int, 2int, 3int, 3int, 3int, 4int, 4int,
                4int, 5int, 6int, 6int, 7int, 8int, 9int, 10int, 11int, 13int,
            ];
            let weaker = seq![
                0int, 0int, 0int, 0int, 0int, 1int, 1int, 1int, 1int, 1int, 1int, 1int, 1int,
                1int, 1int, 2int, 2int, 2int, 2int, 3int, 3int, 3int, 4int, 4int, 5int, 5int,
                6int, 7int, 8int, 8int, 10int, 11int, 12int, 13int, 15int, 17int,
            ];
            let weak = seq![
                0int, 1int, 1int, 1int, 1int, 1int, 1int, 1int, 1int, 1int, 1int, 2int, 2int,
                2int, 2int, 3int, 3int, 3int, 4int, 4int, 4int, 5int, 6int, 6int, 7int, 8int,
                9int, 10int, 11int, 13int, 14int, 16int, 18int, 20int, 23int, 25int,
            ];
            &&& TC0[0][qp] == weakest[qp - 16]
            &&& TC0[1][qp] == weaker[qp - 16]
            &&& TC0[2][qp] == weak[qp - 16]
        }),
{
}

/// The chroma quantizers that belong to the luma quantizers from thirty on.
pub proof fn law_chroma_values(luma: int)
    requires
        30 <= luma <= 51,
    ensures
        ({
            let values = seq![
                29int, 30int, 31int, 32int, 32int, 33int, 34int, 34int, 35int, 35int, 36int,
                36int, 37int, 37int, 37int, 38int, 38int, 38int, 39int, 39int, 39int, 39int,
            ];
            chroma_quantizer(luma, 0) == values[luma - 30]
        }),
{
    assert(CHROMA_QP[luma - 30] == CHROMA_QP[luma - 30]);
}

/// The states after the less probable symbol.
#[verifier::spinoff_prover]
#[verifier::rlimit(40)]
pub proof fn law_state_values(state: u8)
    requires
        state < 64,
    ensures
        ({
            let values = seq![
                0int, 0int, 1int, 2int, 2int, 4int, 4int, 5int, 6int, 7int, 8int, 9int, 9int,
                11int, 11int, 12int, 13int, 13int, 15int, 15int, 16int, 16int, 18int, 18int,
                19int, 19int, 21int, 21int, 22int, 22int, 23int, 24int, 24int, 25int, 26int,
                26int, 27int, 27int, 28int, 29int, 29int, 30int, 30int, 30int, 31int, 32int,
                32int, 33int, 33int, 33int, 34int, 34int, 35int, 35int, 35int, 36int, 36int,
                36int, 37int, 37int, 37int, 38int, 38int, 63int,
            ];
            after_lps(state) == values[state as int]
        }),
{
    reveal(after_lps);
}

/// Which positions of large blocks share the probability of being zero.
#[verifier::spinoff_prover]
#[verifier::rlimit(40)]
pub proof fn law_shared_positions(position: int)
    requires
        0 <= position < 63,
    ensures
        ({
            let values = seq![
                0int, 1int, 2int, 3int, 4int, 5int, 5int, 4int, 4int, 3int, 3int, 4int, 4int,
                4int, 5int, 5int, 4int, 4int, 4int, 4int, 3int, 3int, 6int, 7int, 7int, 7int,
                8int, 9int, 10int, 9int, 8int, 7int, 7int, 6int, 11int, 12int, 13int, 11int,
                6int, 7int, 8int, 9int, 14int, 10int, 9int, 8int, 6int, 11int, 12int, 13int,
                11int, 6int, 9int, 14int, 10int, 9int, 11int, 12int, 13int, 11int, 14int, 10int,
                12int,
            ];
            significant_slot(BlockKind::Luma8x8, position) == BlockKind::Luma8x8.base() + 4
                + values[position]
        }),
{
    reveal(significant_slot);
}

/// What levels are multiplied with, by the remainder of the quantizer and by the place: in small blocks
/// those of even rows and columns, of odd ones, and of the others.
pub proof fn law_factor_values_4(remainder: int)
    requires
        0 <= remainder < 6,
    ensures
        norm_adjust(4, remainder, 0) == seq![10int, 11int, 13int, 14int, 16int, 18int][remainder],
        norm_adjust(4, remainder, 1) == seq![16int, 18int, 20int, 23int, 25int, 29int][remainder],
        norm_adjust(4, remainder, 2) == seq![13int, 14int, 16int, 18int, 20int, 23int][remainder],
{
    reveal(norm_adjust);
}

/// What levels of large blocks are multiplied with, by the remainder of the quantizer and by the kind of
/// place.
pub proof fn law_factor_values_8(remainder: int)
    requires
        0 <= remainder < 6,
    ensures
        norm_adjust(8, remainder, 0) == seq![20int, 22int, 26int, 28int, 32int, 36int][remainder],
        norm_adjust(8, remainder, 1) == seq![18int, 19int, 23int, 25int, 28int, 32int][remainder],
        norm_adjust(8, remainder, 2) == seq![32int, 35int, 42int, 45int, 51int, 58int][remainder],
        norm_adjust(8, remainder, 3) == seq![19int, 21int, 24int, 26int, 30int, 34int][remainder],
        norm_adjust(8, remainder, 4) == seq![25int, 28int, 33int, 35int, 40int, 46int][remainder],
        norm_adjust(8, remainder, 5) == seq![24int, 26int, 31int, 33int, 38int, 43int][remainder],
{
    reveal(norm_adjust);
}

/// The weights of large blocks, by diagonal; the second place of the second row has a weight of its own.
pub proof fn law_weight_values(intra: bool, row: int, column: int)
    requires
        0 <= row < 8,
        0 <= column < 8,
    ensures
        ({
            let alone = seq![
                6int, 10int, 13int, 16int, 18int, 23int, 25int, 27int, 29int, 31int, 33int,
                36int, 38int, 40int, 42int,
            ];
            let other = seq![
                9int, 13int, 15int, 17int, 19int, 21int, 22int, 24int, 25int, 27int, 28int,
                30int, 32int, 33int, 35int,
            ];
            let weight = matrix_8x8(ScalingMatrixPreset::Jvt, intra)[8 * row + column] as int;
            &&& row == 1 && column == 1 ==> weight == (if intra {
                11int
            } else {
                13int
            })
            &&& row != 1 || column != 1 ==> weight == (if intra {
                alone[row + column]
            } else {
                other[row + column]
            })
        }),
{
    let i = 8 * row + column;
    assert(i / 8 == row && i % 8 == column);
    if intra {
        lemma_alone_weights();
        assert(matrix_8x8(ScalingMatrixPreset::Jvt, intra) == JVT_8X8_INTRA@) by {
            reveal(matrix_8x8);
        }
        let own = JVT_8X8_INTRA[i];
    } else {
        lemma_other_weights();
        assert(matrix_8x8(ScalingMatrixPreset::Jvt, intra) == JVT_8X8_INTER@) by {
            reveal(matrix_8x8);
        }
        let own = JVT_8X8_INTER[i];
    }
}

#[verifier::spinoff_prover]
#[verifier::rlimit(80)]
proof fn lemma_alone_weights()
    ensures
        forall|i: int|
            0 <= i < 64 ==> (#[trigger] JVT_8X8_INTRA[i]) as int == if i == 9 {
                11int
            } else {
                seq![6int, 10int, 13int, 16int, 18int, 23int, 25int, 27int, 29int, 31int, 33int, 36int, 38int, 40int, 42int][i / 8 + i % 8]
            },
{
}

#[verifier::spinoff_prover]
#[verifier::rlimit(80)]
proof fn lemma_other_weights()
    ensures
        forall|i: int|
            0 <= i < 64 ==> (#[trigger] JVT_8X8_INTER[i]) as int == if i == 9 {
                13int
            } else {
                seq![9int, 13int, 15int, 17int, 19int, 21int, 22int, 24int, 25int, 27int, 28int, 30int, 32int, 33int, 35int][i / 8 + i % 8]
            },
{
}

/// What the levels are called in the stream, and what they allow: macroblocks in a second, in a picture,
/// and in kept pictures, and kilobits in a second and in the buffer.
#[verifier::spinoff_prover]
#[verifier::rlimit(60)]
pub proof fn law_level_values(index: int)
    requires
        0 <= index < 20,
    ensures
        ({
            let numbers = seq![
                10int, 11int, 11int, 12int, 13int, 20int, 21int, 22int, 30int, 31int, 32int,
                40int, 41int, 42int, 50int, 51int, 52int, 60int, 61int, 62int,
            ];
            let speeds = seq![
                1485int, 1485int, 3000int, 6000int, 11880int, 11880int, 19800int, 20250int,
                40500int, 108000int, 216000int, 245760int, 245760int, 522240int, 589824int,
                983040int, 2073600int, 4177920int, 8355840int, 16711680int,
            ];
            let sizes = seq![
                99int, 99int, 396int, 396int, 396int, 396int, 792int, 1620int, 1620int, 3600int,
                5120int, 8192int, 8192int, 8704int, 22080int, 36864int, 36864int, 139264int,
                139264int, 139264int,
            ];
            let kept = seq![
                396int, 396int, 900int, 2376int, 2376int, 2376int, 4752int, 8100int, 8100int,
                18000int, 20480int, 32768int, 32768int, 34816int, 110400int, 184320int,
                184320int, 696320int, 696320int, 696320int,
            ];
            let rates = seq![
                64int, 128int, 192int, 384int, 768int, 2000int, 4000int, 4000int, 10000int,
                14000int, 20000int, 20000int, 50000int, 50000int, 135000int, 240000int,
                240000int, 240000int, 480000int, 800000int,
            ];
            let buffers = seq![
                175int, 350int, 500int, 1000int, 2000int, 2000int, 4000int, 4000int, 10000int,
                14000int, 20000int, 25000int, 62500int, 62500int, 135000int, 240000int,
                240000int, 240000int, 480000int, 800000int,
            ];
            let level = level_entry(index);
            &&& level.level_idc == numbers[index]
            &&& level.max_macroblocks_per_second == speeds[index]
            &&& level.max_frame_size == sizes[index]
            &&& level.max_dpb_macroblocks == kept[index]
            &&& level.max_bitrate_kbps == rates[index]
            &&& level.max_cpb_kbits == buffers[index]
            &&& level.constraint_set3 <==> index == 1
        }),
{
    reveal(level_entry);
}

} // verus!
