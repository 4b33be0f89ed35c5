//! Motion vectors: what pictures keep of them, and what they predict of others.

use vstd::prelude::*;

use crate::deblock::{block_at, luma_block_index};
use crate::math::magnitude;
use crate::neighbors::rows;
use crate::residual::{block_column, block_row, luma_block_position};

verus! {

/// A displacement in quarters of a sample.
#[derive(Clone, Copy, Debug, PartialEq, Eq, Structural)]
pub struct MotionVector {
    /// To the right.
    pub x: i32,
    /// Down.
    pub y: i32,
}

/// How a block is predicted from other pictures.
#[derive(Clone, Copy, Debug, PartialEq, Eq)]
pub struct MotionState {
    /// The displacement.
    pub vector: MotionVector,
    /// Which picture of the list it refers to, if any.
    pub reference_index: Option<u8>,
}

/// The motion of each block of a macroblock, in coding order.
pub type BlockMotions = [Option<MotionState>; 16];

/// The display order of the picture that each block of a macroblock refers to, in coding order.
pub type BlockOrders = [Option<i32>; 16];

/// Which neighbour predicts the motion of a partition before all others.
#[derive(Clone, Copy, Debug, PartialEq, Eq, Structural)]
pub enum MotionPredictionKind {
    /// No one in particular.
    Normal,
    /// The one above, for the upper half of a macroblock.
    Top16x8,
    /// The left one, for the lower half of a macroblock.
    Bottom16x8,
    /// The left one, for the left half of a macroblock.
    Left8x16,
    /// The one above and to the right, for the right half of a macroblock.
    Right8x16,
}

/// A part of a macroblock with a motion of its own, in blocks of four samples.
#[derive(Clone, Copy, Debug, PartialEq, Eq, Structural)]
pub struct InterPartition {
    /// Its first column.
    pub block_x: usize,
    /// Its first row.
    pub block_y: usize,
    /// How wide it is.
    pub block_width: usize,
    /// How high it is.
    pub block_height: usize,
    /// Which neighbour predicts its motion.
    pub prediction_kind: MotionPredictionKind,
}

/// The whole macroblock as one partition.
pub open spec fn whole_partition() -> InterPartition {
    InterPartition {
        block_x: 0,
        block_y: 0,
        block_width: 4,
        block_height: 4,
        prediction_kind: MotionPredictionKind::Normal,
    }
}

/// The whole macroblock as one partition.
pub fn make_whole_partition() -> (partition: InterPartition)
    ensures
        partition == whole_partition(),
{
    InterPartition {
        block_x: 0,
        block_y: 0,
        block_width: 4,
        block_height: 4,
        prediction_kind: MotionPredictionKind::Normal,
    }
}

impl InterPartition {
    /// Whether the partition lies inside a macroblock.
    pub open spec fn inside(self) -> bool {
        &&& 1 <= self.block_width
        &&& self.block_x + self.block_width <= 4
        &&& 1 <= self.block_height
        &&& self.block_y + self.block_height <= 4
    }

    /// Whether the partition covers a block of four by four samples.
    pub open spec fn covers(self, block: int) -> bool {
        &&& self.block_x <= block_column(block) < self.block_x + self.block_width
        &&& self.block_y <= block_row(block) < self.block_y + self.block_height
    }
}

/// Whether a vector leaves room for arithmetic.
pub open spec fn vector_fits(vector: MotionVector) -> bool {
    -0x100_0000 <= vector.x <= 0x100_0000 && -0x100_0000 <= vector.y <= 0x100_0000
}

/// Whether the motion of a block, if there is any, leaves room for arithmetic.
pub open spec fn motion_fits(motion: Option<MotionState>) -> bool {
    motion matches Some(state) ==> vector_fits(state.vector)
}

/// Whether the motions of the blocks of a macroblock leave room for arithmetic.
pub open spec fn row_fits(row: Seq<Option<MotionState>>) -> bool {
    forall|b: int| 0 <= b < row.len() ==> motion_fits(#[trigger] row[b])
}

/// Whether all motions of a picture leave room for arithmetic.
pub open spec fn motions_fit(motions: Seq<Seq<Option<MotionState>>>) -> bool {
    forall|a: int| 0 <= a < motions.len() ==> row_fits(#[trigger] motions[a])
}

/// Whether a vector is so short that it can be stretched to another distance in time.
pub open spec fn vector_small(vector: MotionVector) -> bool {
    -0x10_0000 <= vector.x <= 0x10_0000 && -0x10_0000 <= vector.y <= 0x10_0000
}

/// Whether the motion of a block, if there is any, is short.
pub open spec fn motion_small(motion: Option<MotionState>) -> bool {
    motion matches Some(state) ==> vector_small(state.vector)
}

/// Whether the motions of the blocks of a macroblock are short.
pub open spec fn row_small(row: Seq<Option<MotionState>>) -> bool {
    forall|b: int| 0 <= b < row.len() ==> motion_small(#[trigger] row[b])
}

/// Whether all motions of a picture are short.
pub open spec fn motions_small(motions: Seq<Seq<Option<MotionState>>>) -> bool {
    forall|a: int| 0 <= a < motions.len() ==> row_small(#[trigger] motions[a])
}

/// Short vectors leave room for arithmetic.
pub proof fn lemma_small_fits(motions: Seq<Seq<Option<MotionState>>>)
    requires
        motions_small(motions),
    ensures
        motions_fit(motions),
{
    assert forall|a: int| 0 <= a < motions.len() implies row_fits(#[trigger] motions[a]) by {
        lemma_small_row(motions[a]);
    }
}

/// Short vectors leave room for arithmetic.
pub proof fn lemma_small_row(row: Seq<Option<MotionState>>)
    requires
        row_small(row),
    ensures
        row_fits(row),
{
    assert forall|b: int| 0 <= b < row.len() implies motion_fits(#[trigger] row[b]) by {
        assert(motion_small(row[b]));
    }
}

/// The zero vector.
pub open spec fn no_vector() -> MotionVector {
    MotionVector { x: 0, y: 0 }
}

/// The motion of the block in column `x` and row `y` of a picture, given that of the macroblock
/// that is being coded.
pub open spec fn motion_entry(
    motions: Seq<Seq<Option<MotionState>>>,
    current: Seq<Option<MotionState>>,
    address: int,
    wide: int,
    x: int,
    y: int,
) -> Option<MotionState> {
    if 0 <= x < wide * 4 && 0 <= y < motions.len() as int / wide * 4 {
        let other = y / 4 * wide + x / 4;
        let block = block_at(x % 4, y % 4);
        if other == address {
            current[block]
        } else {
            motions[other][block]
        }
    } else {
        None
    }
}

/// The middle one of three numbers.
pub open spec fn median(a: int, b: int, c: int) -> int {
    if a <= b {
        if b <= c {
            b
        } else if a <= c {
            c
        } else {
            a
        }
    } else if a <= c {
        a
    } else if b <= c {
        c
    } else {
        b
    }
}

/// The middle one of three numbers.
pub fn median3(a: i32, b: i32, c: i32) -> (middle: i32)
    ensures
        middle == median(a as int, b as int, c as int),
{
    if a <= b {
        if b <= c {
            b
        } else if a <= c {
            c
        } else {
            a
        }
    } else if a <= c {
        a
    } else if b <= c {
        c
    } else {
        b
    }
}

/// The middle of three numbers does not depend on their order, and at least one of the others lies
/// on each side of it.
pub proof fn law_median(a: int, b: int, c: int)
    ensures
        median(a, b, c) == median(b, a, c),
        median(a, b, c) == median(a, c, b),
        median(a, b, c) == a || median(a, b, c) == b || median(a, b, c) == c,
        a <= b <= c ==> median(a, b, c) == b,
{
}

/// Whether the motion of a block refers to a picture.
pub open spec fn refers_to(motion: Option<MotionState>, reference_index: u8) -> bool {
    motion matches Some(state) && state.reference_index == Some(reference_index)
}

/// The vector of a motion, or zero.
pub open spec fn vector_of(motion: Option<MotionState>) -> MotionVector {
    match motion {
        Some(state) => state.vector,
        None => no_vector(),
    }
}

/// The neighbour that predicts the motion of a partition before all others, if it has one.
pub open spec fn preferred(
    kind: MotionPredictionKind,
    a: Option<MotionState>,
    b: Option<MotionState>,
    c: Option<MotionState>,
) -> Option<MotionState> {
    match kind {
        MotionPredictionKind::Top16x8 => b,
        MotionPredictionKind::Bottom16x8 | MotionPredictionKind::Left8x16 => a,
        MotionPredictionKind::Right8x16 => c,
        MotionPredictionKind::Normal => None,
    }
}

/// The vector that three neighbours predict.
pub open spec fn combined_vector(
    kind: MotionPredictionKind,
    a: Option<MotionState>,
    above: Option<MotionState>,
    aside: Option<MotionState>,
    reference_index: u8,
) -> MotionVector {
    let alone = above is None && aside is None && a is Some;
    let b = if alone {
        a
    } else {
        above
    };
    let c = if alone {
        a
    } else {
        aside
    };
    let first = preferred(kind, a, b, c);
    let a_refers = refers_to(a, reference_index);
    let b_refers = refers_to(b, reference_index);
    let c_refers = refers_to(c, reference_index);
    if refers_to(first, reference_index) {
        vector_of(first)
    } else if a_refers && !b_refers && !c_refers {
        vector_of(a)
    } else if !a_refers && b_refers && !c_refers {
        vector_of(b)
    } else if !a_refers && !b_refers && c_refers {
        vector_of(c)
    } else {
        MotionVector {
            x: median(
                vector_of(a).x as int,
                vector_of(b).x as int,
                vector_of(c).x as int,
            ) as i32,
            y: median(
                vector_of(a).y as int,
                vector_of(b).y as int,
                vector_of(c).y as int,
            ) as i32,
        }
    }
}

/// The vector that the neighbours of a partition predict.
#[verifier::opaque]
pub open spec fn predicted_vector(
    motions: Seq<Seq<Option<MotionState>>>,
    current: Seq<Option<MotionState>>,
    address: int,
    wide: int,
    partition: InterPartition,
    reference_index: u8,
) -> MotionVector {
    let x = address % wide * 4 + partition.block_x;
    let y = address / wide * 4 + partition.block_y;
    let a = motion_entry(motions, current, address, wide, x - 1, y);
    let b = motion_entry(motions, current, address, wide, x, y - 1);
    let right = motion_entry(motions, current, address, wide, x + partition.block_width, y - 1);
    let c = if right is Some {
        right
    } else {
        motion_entry(motions, current, address, wide, x - 1, y - 1)
    };
    combined_vector(partition.prediction_kind, a, b, c, reference_index)
}

/// The motion of the block in column `x` and row `y` of a picture, given that of the macroblock
/// that is being coded.
pub fn motion_at_with_current(
    motions: &[BlockMotions],
    current: &BlockMotions,
    current_address: usize,
    macroblocks_wide: usize,
    block_x: i64,
    block_y: i64,
) -> (motion: Option<MotionState>)
    requires
        0 < macroblocks_wide <= 0x1000_0000,
        motions@.len() <= 0x1000_0000,
    ensures
        motion == motion_entry(
            rows(motions@),
            current@,
            current_address as int,
            macroblocks_wide as int,
            block_x as int,
            block_y as int,
        ),
        motions_fit(rows(motions@)) && row_fits(current@) ==> motion_fits(motion),
        motions_small(rows(motions@)) && row_small(current@) ==> motion_small(motion),
{
    let wide: i64 = macroblocks_wide as i64;
    let high: i64 = (motions.len() / macroblocks_wide) as i64;
    proof {
        assert(0 <= motions@.len() as int / wide as int <= motions@.len()) by (nonlinear_arith)
            requires
                0 < wide,
        ;
    }
    if block_x < 0 || block_x >= wide * 4 || block_y < 0 || block_y >= high * 4 {
        return None;
    }
    let column: usize = (block_x / 4) as usize;
    let row: usize = (block_y / 4) as usize;
    let block: usize = luma_block_index((block_x % 4) as usize, (block_y % 4) as usize);
    proof {
        vstd::arithmetic::div_mod::lemma_fundamental_div_mod(motions@.len() as int, wide as int);
        crate::math::lemma_place_inside(row as int, column as int, wide as int, high as int);
        assert(high * wide == wide * high) by (nonlinear_arith);
    }
    let address: usize = row * macroblocks_wide + column;
    if address == current_address {
        current[block]
    } else {
        assert(rows(motions@)[address as int] == motions@[address as int]@);
        motions[address][block]
    }
}

/// Whether the motion of a block refers to a picture.
fn does_refer_to(motion: Option<MotionState>, reference_index: u8) -> (result: bool)
    ensures
        result == refers_to(motion, reference_index),
{
    match motion {
        Some(state) => match state.reference_index {
            Some(index) => index == reference_index,
            None => false,
        },
        None => false,
    }
}

/// The vector of a motion, or zero.
fn read_vector(motion: Option<MotionState>) -> (vector: MotionVector)
    ensures
        vector == vector_of(motion),
{
    match motion {
        Some(state) => state.vector,
        None => MotionVector { x: 0, y: 0 },
    }
}

/// The vector that three neighbours predict.
fn combine_vectors(
    kind: MotionPredictionKind,
    a: Option<MotionState>,
    above: Option<MotionState>,
    aside: Option<MotionState>,
    reference_index: u8,
) -> (vector: MotionVector)
    ensures
        vector == combined_vector(kind, a, above, aside, reference_index),
        motion_fits(a) && motion_fits(above) && motion_fits(aside) ==> vector_fits(vector),
        motion_small(a) && motion_small(above) && motion_small(aside) ==> vector_small(vector),
{
    let mut b: Option<MotionState> = above;
    let mut c: Option<MotionState> = aside;
    if above.is_none() && aside.is_none() && a.is_some() {
        b = a;
        c = a;
    }
    let first: Option<MotionState> = match kind {
        MotionPredictionKind::Top16x8 => b,
        MotionPredictionKind::Bottom16x8 | MotionPredictionKind::Left8x16 => a,
        MotionPredictionKind::Right8x16 => c,
        MotionPredictionKind::Normal => None,
    };
    if does_refer_to(first, reference_index) {
        return read_vector(first);
    }
    let a_refers = does_refer_to(a, reference_index);
    let b_refers = does_refer_to(b, reference_index);
    let c_refers = does_refer_to(c, reference_index);
    let a_vector: MotionVector = read_vector(a);
    let b_vector: MotionVector = read_vector(b);
    let c_vector: MotionVector = read_vector(c);
    if a_refers && !b_refers && !c_refers {
        a_vector
    } else if !a_refers && b_refers && !c_refers {
        b_vector
    } else if !a_refers && !b_refers && c_refers {
        c_vector
    } else {
        MotionVector {
            x: median3(a_vector.x, b_vector.x, c_vector.x),
            y: median3(a_vector.y, b_vector.y, c_vector.y),
        }
    }
}

/// The vector that the neighbours of a partition predict, given the motion of the macroblock that
/// is being coded.
pub fn partition_motion_predictor_with_current(
    current: &BlockMotions,
    motions: &[BlockMotions],
    address: usize,
    macroblocks_wide: usize,
    partition: InterPartition,
    reference_index: u8,
) -> (vector: MotionVector)
    requires
        0 < macroblocks_wide <= 0x1000_0000,
        motions@.len() <= 0x1000_0000,
        address < motions@.len(),
        partition.inside(),
    ensures
        vector == predicted_vector(
            rows(motions@),
            current@,
            address as int,
            macroblocks_wide as int,
            partition,
            reference_index,
        ),
        motions_fit(rows(motions@)) && row_fits(current@) ==> vector_fits(vector),
        motions_small(rows(motions@)) && row_small(current@) ==> vector_small(vector),
{
    reveal(predicted_vector);
    proof {
        assert(0 <= address as int / macroblocks_wide as int <= address) by (nonlinear_arith)
            requires
                0 < macroblocks_wide,
                0 <= address,
        ;
    }
    let x: i64 = ((address % macroblocks_wide) * 4 + partition.block_x) as i64;
    let y: i64 = ((address / macroblocks_wide) * 4 + partition.block_y) as i64;
    let a: Option<MotionState> = motion_at_with_current(
        motions,
        current,
        address,
        macroblocks_wide,
        x - 1,
        y,
    );
    let b: Option<MotionState> = motion_at_with_current(
        motions,
        current,
        address,
        macroblocks_wide,
        x,
        y - 1,
    );
    let right: Option<MotionState> = motion_at_with_current(
        motions,
        current,
        address,
        macroblocks_wide,
        x + partition.block_width as i64,
        y - 1,
    );
    let c: Option<MotionState> = if right.is_some() {
        right
    } else {
        motion_at_with_current(motions, current, address, macroblocks_wide, x - 1, y - 1)
    };
    combine_vectors(partition.prediction_kind, a, b, c, reference_index)
}

/// The vector that the neighbours of a partition predict.
pub fn partition_motion_predictor(
    motions: &[BlockMotions],
    address: usize,
    macroblocks_wide: usize,
    partition: InterPartition,
    reference_index: u8,
) -> (vector: MotionVector)
    requires
        0 < macroblocks_wide <= 0x1000_0000,
        motions@.len() <= 0x1000_0000,
        address < motions@.len(),
        partition.inside(),
    ensures
        vector == predicted_vector(
            rows(motions@),
            rows(motions@)[address as int],
            address as int,
            macroblocks_wide as int,
            partition,
            reference_index,
        ),
        motions_fit(rows(motions@)) ==> vector_fits(vector),
        motions_small(rows(motions@)) ==> vector_small(vector),
{
    assert(rows(motions@)[address as int] == motions@[address as int]@);
    partition_motion_predictor_with_current(
        &motions[address],
        motions,
        address,
        macroblocks_wide,
        partition,
        reference_index,
    )
}

/// The motion of a block that stands still in the first picture of the list.
pub open spec fn is_still(motion: Option<MotionState>) -> bool {
    motion matches Some(state) && state.vector == no_vector() && state.reference_index == Some(0u8)
}

/// The motion of a macroblock of which nothing is coded.
#[verifier::opaque]
pub open spec fn skip_vector(
    motions: Seq<Seq<Option<MotionState>>>,
    address: int,
    wide: int,
) -> MotionVector {
    let x = address % wide * 4;
    let y = address / wide * 4;
    let left = motion_entry(motions, motions[address], address, wide, x - 1, y);
    let top = motion_entry(motions, motions[address], address, wide, x, y - 1);
    if left is None || top is None || is_still(left) || is_still(top) {
        no_vector()
    } else {
        predicted_vector(motions, motions[address], address, wide, whole_partition(), 0)
    }
}

/// Whether a block stands still in the first picture of the list.
fn stands_still(motion: Option<MotionState>) -> (result: bool)
    ensures
        result == is_still(motion),
{
    match motion {
        Some(state) => match state.reference_index {
            Some(index) => index == 0 && state.vector.x == 0 && state.vector.y == 0,
            None => false,
        },
        None => false,
    }
}

/// The motion of a macroblock of which nothing is coded.
pub fn p_skip_motion(motions: &[BlockMotions], address: usize, macroblocks_wide: usize) -> (vector:
    MotionVector)
    requires
        0 < macroblocks_wide <= 0x1000_0000,
        motions@.len() <= 0x1000_0000,
        address < motions@.len(),
    ensures
        vector == skip_vector(rows(motions@), address as int, macroblocks_wide as int),
        motions_fit(rows(motions@)) ==> vector_fits(vector),
        motions_small(rows(motions@)) ==> vector_small(vector),
{
    reveal(skip_vector);
    proof {
        assert(0 <= address as int / macroblocks_wide as int <= address) by (nonlinear_arith)
            requires
                0 < macroblocks_wide,
                0 <= address,
        ;
    }
    assert(rows(motions@)[address as int] == motions@[address as int]@);
    let x: i64 = ((address % macroblocks_wide) * 4) as i64;
    let y: i64 = ((address / macroblocks_wide) * 4) as i64;
    let left: Option<MotionState> = motion_at_with_current(
        motions,
        &motions[address],
        address,
        macroblocks_wide,
        x - 1,
        y,
    );
    let top: Option<MotionState> = motion_at_with_current(
        motions,
        &motions[address],
        address,
        macroblocks_wide,
        x,
        y - 1,
    );
    if left.is_none() || top.is_none() || stands_still(left) || stands_still(top) {
        MotionVector { x: 0, y: 0 }
    } else {
        partition_motion_predictor(motions, address, macroblocks_wide, make_whole_partition(), 0)
    }
}

/// The motions of a macroblock after those of a partition are set.
pub open spec fn with_partition(
    row: Seq<Option<MotionState>>,
    partition: InterPartition,
    motion: MotionState,
) -> Seq<Option<MotionState>> {
    Seq::new(
        16,
        |b: int|
            if partition.covers(b) {
                Some(motion)
            } else {
                row[b]
            },
    )
}

/// Sets the motions of a partition.
pub fn set_partition_motion(
    motions: &mut BlockMotions,
    partition: InterPartition,
    motion: MotionState,
)
    requires
        partition.inside(),
    ensures
        final(motions)@ == with_partition(old(motions)@, partition, motion),
        row_fits(old(motions)@) && vector_fits(motion.vector) ==> row_fits(final(motions)@),
        row_small(old(motions)@) && vector_small(motion.vector) ==> row_small(final(motions)@),
{
    let ghost before = motions@;
    let ghost after = with_partition(before, partition, motion);
    let mut b: usize = 0;
    while b < 16
        invariant
            b <= 16,
            partition.inside(),
            before == old(motions)@,
            after == with_partition(before, partition, motion),
            forall|j: int| 0 <= j < b ==> #[trigger] motions@[j] == after[j],
            forall|j: int| b <= j < 16 ==> #[trigger] motions@[j] == before[j],
        decreases 16 - b,
    {
        let (x, y) = luma_block_position(b);
        if partition.block_x <= x && x < partition.block_x + partition.block_width
            && partition.block_y <= y && y < partition.block_y + partition.block_height {
            motions[b] = Some(motion);
        }
        b = b + 1;
    }
    assert(motions@ =~= after);
    assert forall|j: int|
        row_fits(before) && vector_fits(motion.vector) && 0 <= j < 16 implies motion_fits(
        #[trigger] motions@[j],
    ) by {
        assert(motion_fits(before[j]));
    }
    assert forall|j: int|
        row_small(before) && vector_small(motion.vector) && 0 <= j < 16 implies motion_small(
        #[trigger] motions@[j],
    ) by {
        assert(motion_small(before[j]));
    }
}

/// How much a vector differs from its prediction.
pub open spec fn vector_rate(motion: MotionVector, predicted: MotionVector) -> int {
    magnitude(motion.x - predicted.x) + magnitude(motion.y - predicted.y)
}

/// How much a vector differs from its prediction.
pub fn motion_difference_rate(motion: MotionVector, predicted: MotionVector) -> (rate: u64)
    requires
        vector_fits(motion),
        vector_fits(predicted),
    ensures
        rate == vector_rate(motion, predicted),
        rate <= 0x400_0000,
{
    let x: i32 = crate::math::absolute(motion.x - predicted.x);
    let y: i32 = crate::math::absolute(motion.y - predicted.y);
    x as u64 + y as u64
}

} // verus!
