//! How macroblocks are divided into parts with motions of their own.

use vstd::prelude::*;

use crate::motion::{InterPartition, MotionPredictionKind};
use crate::residual::{block_column, block_row};

verus! {

/// A partition without a preferred neighbour.
pub open spec fn plain_partition(x: int, y: int, width: int, height: int) -> InterPartition {
    InterPartition {
        block_x: x as usize,
        block_y: y as usize,
        block_width: width as usize,
        block_height: height as usize,
        prediction_kind: MotionPredictionKind::Normal,
    }
}

/// Makes a partition without a preferred neighbour.
fn make_partition(x: usize, y: usize, width: usize, height: usize) -> (partition: InterPartition)
    ensures
        partition == plain_partition(x as int, y as int, width as int, height as int),
{
    InterPartition {
        block_x: x,
        block_y: y,
        block_width: width,
        block_height: height,
        prediction_kind: MotionPredictionKind::Normal,
    }
}

/// The upper or lower half of a macroblock.
pub open spec fn flat_half(second: bool) -> InterPartition {
    InterPartition {
        block_x: 0,
        block_y: if second {
            2
        } else {
            0
        },
        block_width: 4,
        block_height: 2,
        prediction_kind: if second {
            MotionPredictionKind::Bottom16x8
        } else {
            MotionPredictionKind::Top16x8
        },
    }
}

/// The left or right half of a macroblock.
pub open spec fn tall_half(second: bool) -> InterPartition {
    InterPartition {
        block_x: if second {
            2
        } else {
            0
        },
        block_y: 0,
        block_width: 2,
        block_height: 4,
        prediction_kind: if second {
            MotionPredictionKind::Right8x16
        } else {
            MotionPredictionKind::Left8x16
        },
    }
}

/// The parts of a macroblock that is whole, or divided across or down.
pub open spec fn macroblock_parts(shape: int) -> Seq<InterPartition> {
    if shape == 0 {
        seq![plain_partition(0, 0, 4, 4)]
    } else if shape == 1 {
        seq![flat_half(false), flat_half(true)]
    } else {
        seq![tall_half(false), tall_half(true)]
    }
}

/// The parts of quarter `quarter` of a macroblock that is whole, divided across, down, or both.
pub open spec fn quarter_parts(quarter: int, shape: int) -> Seq<InterPartition> {
    let x = quarter % 2 * 2;
    let y = quarter / 2 * 2;
    if shape == 0 {
        seq![plain_partition(x, y, 2, 2)]
    } else if shape == 1 {
        seq![plain_partition(x, y, 2, 1), plain_partition(x, y + 1, 2, 1)]
    } else if shape == 2 {
        seq![plain_partition(x, y, 1, 2), plain_partition(x + 1, y, 1, 2)]
    } else {
        seq![
            plain_partition(x, y, 1, 1),
            plain_partition(x + 1, y, 1, 1),
            plain_partition(x, y + 1, 1, 1),
            plain_partition(x + 1, y + 1, 1, 1),
        ]
    }
}

/// Whether all parts lie inside a macroblock, and there are one, two, or four of them.
pub open spec fn parts_inside(parts: Seq<InterPartition>) -> bool {
    &&& 1 <= parts.len() <= 4
    &&& forall|i: int| 0 <= i < parts.len() ==> (#[trigger] parts[i]).inside()
    &&& forall|i: int|
        0 <= i < parts.len() ==> {
            &&& (#[trigger] parts[i]).block_width == 1 || parts[i].block_width == 2
                || parts[i].block_width == 4
            &&& parts[i].block_height == 1 || parts[i].block_height == 2 || parts[i].block_height
                == 4
        }
}

/// How many of the parts cover a block.
pub open spec fn times_covered(parts: Seq<InterPartition>, block: int, count: int) -> int
    decreases count,
{
    if count <= 0 {
        0
    } else {
        times_covered(parts, block, count - 1) + crate::math::unit(parts[count - 1].covers(block))
    }
}

/// Each block of a macroblock belongs to exactly one of its parts.
pub proof fn law_macroblock_parts_cover(shape: int, block: int)
    requires
        0 <= shape < 3,
        0 <= block < 16,
    ensures
        times_covered(
            macroblock_parts(shape),
            block,
            macroblock_parts(shape).len() as int,
        ) == 1,
{
    reveal_with_fuel(times_covered, 3);
    crate::residual::law_block_order(block, block_column(block), block_row(block));
}

/// Each block of a quarter of a macroblock belongs to exactly one part of the quarter, and no block
/// of another quarter does.
pub proof fn law_quarter_parts_cover(quarter: int, shape: int, block: int)
    requires
        0 <= quarter < 4,
        0 <= shape < 4,
        0 <= block < 16,
    ensures
        times_covered(
            quarter_parts(quarter, shape),
            block,
            quarter_parts(quarter, shape).len() as int,
        ) == crate::math::unit(block / 4 == quarter),
{
    reveal_with_fuel(times_covered, 5);
    assert(quarter == 0 || quarter == 1 || quarter == 2 || quarter == 3);
    assert(block_column(block) == block % 2 + block / 4 % 2 * 2);
    assert(block_row(block) == block / 2 % 2 + block / 8 * 2);
}

/// The parts of a macroblock that is whole, or divided across or down.
pub fn macroblock_partitions(shape: u8) -> (parts: Vec<InterPartition>)
    requires
        shape < 3,
    ensures
        parts@ == macroblock_parts(shape as int),
        parts_inside(parts@),
{
    let parts: Vec<InterPartition> = if shape == 0 {
        vec![make_partition(0, 0, 4, 4)]
    } else if shape == 1 {
        vec![
            InterPartition {
                block_x: 0,
                block_y: 0,
                block_width: 4,
                block_height: 2,
                prediction_kind: MotionPredictionKind::Top16x8,
            },
            InterPartition {
                block_x: 0,
                block_y: 2,
                block_width: 4,
                block_height: 2,
                prediction_kind: MotionPredictionKind::Bottom16x8,
            },
        ]
    } else {
        vec![
            InterPartition {
                block_x: 0,
                block_y: 0,
                block_width: 2,
                block_height: 4,
                prediction_kind: MotionPredictionKind::Left8x16,
            },
            InterPartition {
                block_x: 2,
                block_y: 0,
                block_width: 2,
                block_height: 4,
                prediction_kind: MotionPredictionKind::Right8x16,
            },
        ]
    };
    assert(parts@ =~= macroblock_parts(shape as int));
    parts
}

/// The parts of a quarter of a macroblock.
pub fn p_sub_partitions(sub_index: usize, sub_type: u8) -> (parts: Vec<InterPartition>)
    requires
        sub_index < 4,
        sub_type < 4,
    ensures
        parts@ == quarter_parts(sub_index as int, sub_type as int),
        parts_inside(parts@),
{
    let x: usize = sub_index % 2 * 2;
    let y: usize = sub_index / 2 * 2;
    let parts: Vec<InterPartition> = if sub_type == 0 {
        vec![make_partition(x, y, 2, 2)]
    } else if sub_type == 1 {
        vec![make_partition(x, y, 2, 1), make_partition(x, y + 1, 2, 1)]
    } else if sub_type == 2 {
        vec![make_partition(x, y, 1, 2), make_partition(x + 1, y, 1, 2)]
    } else {
        vec![
            make_partition(x, y, 1, 1),
            make_partition(x + 1, y, 1, 1),
            make_partition(x, y + 1, 1, 1),
            make_partition(x + 1, y + 1, 1, 1),
        ]
    };
    assert(parts@ =~= quarter_parts(sub_index as int, sub_type as int));
    parts
}

/// From which pictures a part is predicted.
#[derive(Clone, Copy, Debug, PartialEq, Eq, Structural)]
pub enum BPrediction {
    /// From an earlier one.
    L0,
    /// From a later one.
    L1,
    /// From the mean of both.
    Bi,
}

/// A part of a macroblock and the pictures that it is predicted from.
pub struct DirectedPart {
    /// The part.
    pub partition: InterPartition,
    /// The pictures.
    pub direction: BPrediction,
}

impl BPrediction {
    /// Whether an earlier picture is used.
    pub open spec fn earlier(self) -> bool {
        self == BPrediction::L0 || self == BPrediction::Bi
    }

    /// Whether a later picture is used.
    pub open spec fn later(self) -> bool {
        self == BPrediction::L1 || self == BPrediction::Bi
    }

    /// Whether an earlier picture is used.
    pub fn uses_l0(self) -> (result: bool)
        ensures
            result == self.earlier(),
    {
        match self {
            BPrediction::L0 | BPrediction::Bi => true,
            BPrediction::L1 => false,
        }
    }

    /// Whether a later picture is used.
    pub fn uses_l1(self) -> (result: bool)
        ensures
            result == self.later(),
    {
        match self {
            BPrediction::L1 | BPrediction::Bi => true,
            BPrediction::L0 => false,
        }
    }
}

/// The pictures that the two halves of a macroblock are predicted from.
pub open spec fn directions(pair: int) -> (BPrediction, BPrediction) {
    if pair == 0 {
        (BPrediction::L0, BPrediction::L0)
    } else if pair == 1 {
        (BPrediction::L1, BPrediction::L1)
    } else if pair == 2 {
        (BPrediction::L0, BPrediction::L1)
    } else if pair == 3 {
        (BPrediction::L1, BPrediction::L0)
    } else if pair == 4 {
        (BPrediction::L0, BPrediction::Bi)
    } else if pair == 5 {
        (BPrediction::L1, BPrediction::Bi)
    } else if pair == 6 {
        (BPrediction::Bi, BPrediction::L0)
    } else if pair == 7 {
        (BPrediction::Bi, BPrediction::L1)
    } else {
        (BPrediction::Bi, BPrediction::Bi)
    }
}

/// The parts of a macroblock of a type from one to twenty-one.
pub open spec fn directed_parts(macroblock_type: int) -> Seq<DirectedPart> {
    if macroblock_type <= 3 {
        seq![
            DirectedPart {
                partition: plain_partition(0, 0, 4, 4),
                direction: if macroblock_type == 1 {
                    BPrediction::L0
                } else if macroblock_type == 2 {
                    BPrediction::L1
                } else {
                    BPrediction::Bi
                },
            },
        ]
    } else {
        let pair = directions((macroblock_type - 4) / 2);
        let parts = macroblock_parts(if macroblock_type % 2 == 0 { 1 } else { 2 });
        seq![
            DirectedPart { partition: parts[0], direction: pair.0 },
            DirectedPart { partition: parts[1], direction: pair.1 },
        ]
    }
}

/// The pictures that a quarter of a type from one to twelve is predicted from.
pub open spec fn quarter_direction(kind: int) -> BPrediction {
    if kind == 1 || kind == 4 || kind == 5 || kind == 10 {
        BPrediction::L0
    } else if kind == 2 || kind == 6 || kind == 7 || kind == 11 {
        BPrediction::L1
    } else {
        BPrediction::Bi
    }
}

/// How a quarter of a type from one to twelve is divided.
pub open spec fn quarter_shape(kind: int) -> int {
    if kind <= 3 {
        0
    } else if kind == 4 || kind == 6 || kind == 8 {
        1
    } else if kind <= 9 {
        2
    } else {
        3
    }
}

/// The parts of a quarter of a type from one to twelve.
pub open spec fn directed_quarter_parts(quarter: int, kind: int) -> Seq<DirectedPart> {
    let parts = quarter_parts(quarter, quarter_shape(kind));
    Seq::new(
        parts.len(),
        |i: int| DirectedPart { partition: parts[i], direction: quarter_direction(kind) },
    )
}

/// Whether all parts lie inside a macroblock, and there are one, two, or four of them.
pub open spec fn directed_inside(parts: Seq<DirectedPart>) -> bool {
    &&& 1 <= parts.len() <= 4
    &&& forall|i: int| 0 <= i < parts.len() ==> part_sized((#[trigger] parts[i]).partition)
}

/// Whether a part lies inside a macroblock and has sides of four, eight, or sixteen samples.
pub open spec fn part_sized(partition: InterPartition) -> bool {
    &&& partition.inside()
    &&& partition.block_width == 1 || partition.block_width == 2 || partition.block_width == 4
    &&& partition.block_height == 1 || partition.block_height == 2 || partition.block_height == 4
}

/// The pictures that the two halves of a macroblock are predicted from.
fn make_directions(pair: u8) -> (result: (BPrediction, BPrediction))
    requires
        pair <= 8,
    ensures
        result == directions(pair as int),
{
    if pair == 0 {
        (BPrediction::L0, BPrediction::L0)
    } else if pair == 1 {
        (BPrediction::L1, BPrediction::L1)
    } else if pair == 2 {
        (BPrediction::L0, BPrediction::L1)
    } else if pair == 3 {
        (BPrediction::L1, BPrediction::L0)
    } else if pair == 4 {
        (BPrediction::L0, BPrediction::Bi)
    } else if pair == 5 {
        (BPrediction::L1, BPrediction::Bi)
    } else if pair == 6 {
        (BPrediction::Bi, BPrediction::L0)
    } else if pair == 7 {
        (BPrediction::Bi, BPrediction::L1)
    } else {
        (BPrediction::Bi, BPrediction::Bi)
    }
}

/// The parts of a macroblock of a type from one to twenty-one.
pub fn b_inter_partitions(macroblock_type: u8) -> (parts: Vec<DirectedPart>)
    requires
        1 <= macroblock_type <= 21,
    ensures
        parts@ == directed_parts(macroblock_type as int),
        directed_inside(parts@),
{
    if macroblock_type <= 3 {
        let direction = if macroblock_type == 1 {
            BPrediction::L0
        } else if macroblock_type == 2 {
            BPrediction::L1
        } else {
            BPrediction::Bi
        };
        let parts: Vec<DirectedPart> = vec![
            DirectedPart { partition: make_partition(0, 0, 4, 4), direction },
        ];
        assert(parts@ =~= directed_parts(macroblock_type as int));
        return parts;
    }
    let (first, second) = make_directions((macroblock_type - 4) / 2);
    let shape: u8 = if macroblock_type % 2 == 0 {
        1
    } else {
        2
    };
    let halves: Vec<InterPartition> = macroblock_partitions(shape);
    let parts: Vec<DirectedPart> = vec![
        DirectedPart { partition: halves[0], direction: first },
        DirectedPart { partition: halves[1], direction: second },
    ];
    assert(parts@ =~= directed_parts(macroblock_type as int));
    parts
}

/// The parts of a quarter of a type from one to twelve.
pub fn b_sub_partitions(sub_index: usize, sub_type: u8) -> (parts: Vec<DirectedPart>)
    requires
        sub_index < 4,
        1 <= sub_type <= 12,
    ensures
        parts@ == directed_quarter_parts(sub_index as int, sub_type as int),
        directed_inside(parts@),
{
    let direction = if sub_type == 1 || sub_type == 4 || sub_type == 5 || sub_type == 10 {
        BPrediction::L0
    } else if sub_type == 2 || sub_type == 6 || sub_type == 7 || sub_type == 11 {
        BPrediction::L1
    } else {
        BPrediction::Bi
    };
    let shape: u8 = if sub_type <= 3 {
        0
    } else if sub_type == 4 || sub_type == 6 || sub_type == 8 {
        1
    } else if sub_type <= 9 {
        2
    } else {
        3
    };
    let plain: Vec<InterPartition> = p_sub_partitions(sub_index, shape);
    let ghost expected = directed_quarter_parts(sub_index as int, sub_type as int);
    let mut parts: Vec<DirectedPart> = Vec::with_capacity(plain.len());
    let mut i: usize = 0;
    while i < plain.len()
        invariant
            i <= plain@.len(),
            plain@ == quarter_parts(sub_index as int, shape as int),
            shape == quarter_shape(sub_type as int),
            direction == quarter_direction(sub_type as int),
            expected == directed_quarter_parts(sub_index as int, sub_type as int),
            parts@.len() == i,
            forall|j: int| 0 <= j < i ==> #[trigger] parts@[j] == expected[j],
        decreases plain@.len() - i,
    {
        parts.push(DirectedPart { partition: plain[i], direction });
        i = i + 1;
    }
    assert(parts@ =~= expected);
    parts
}

/// The quarter of a macroblock whose motion is derived.
pub open spec fn direct_quarter(quarter: int) -> InterPartition {
    plain_partition(quarter % 2 * 2, quarter / 2 * 2, 2, 2)
}

/// The quarter of a macroblock whose motion is derived.
pub fn direct_8x8_partition(sub_index: usize) -> (partition: InterPartition)
    requires
        sub_index < 4,
    ensures
        partition == direct_quarter(sub_index as int),
        part_sized(partition),
{
    make_partition(sub_index % 2 * 2, sub_index / 2 * 2, 2, 2)
}

/// The corner block that stands for a quarter, in one direction.
pub open spec fn corner_block(place: int, size: int) -> int {
    if size == 2 && place != 0 {
        place + 1
    } else {
        place
    }
}

/// The block in another picture that stands for a part.
pub fn direct_colocated_block(partition: InterPartition) -> (block: (usize, usize))
    requires
        partition.inside(),
    ensures
        block.0 == corner_block(partition.block_x as int, partition.block_width as int),
        block.1 == corner_block(partition.block_y as int, partition.block_height as int),
        block.0 < 4,
        block.1 < 4,
{
    let x: usize = if partition.block_width == 2 && partition.block_x != 0 {
        partition.block_x + 1
    } else {
        partition.block_x
    };
    let y: usize = if partition.block_height == 2 && partition.block_y != 0 {
        partition.block_y + 1
    } else {
        partition.block_y
    };
    (x, y)
}

/// The blocks that stand for the quarters of a macroblock are its corners.
pub proof fn law_corner_blocks(quarter: int)
    requires
        0 <= quarter < 4,
    ensures
        corner_block(direct_quarter(quarter).block_x as int, 2) == quarter % 2 * 3,
        corner_block(direct_quarter(quarter).block_y as int, 2) == quarter / 2 * 3,
{
}

} // verus!
