//! What the motion of neighbours and of other pictures implies.

use vstd::prelude::*;

use crate::b_direct::{
    least_index, neighbour_index, spatial_part, spatial_vectors, stretched, temporal_vectors,
    time_scale,
};
use crate::deblock::block_at;
use crate::motion::{
    combined_vector, motion_entry, predicted_vector, skip_vector, vector_small, with_partition,
    InterPartition, MotionPredictionKind, MotionState, MotionVector,
};
use crate::p_select::ReferencePicture;

verus! {

/// A motion that refers to a picture of the list.
pub open spec fn refers(motion: Option<MotionState>, index: u8) -> bool {
    motion is Some && motion->Some_0.reference_index == Some(index)
}

/// A coordinate of a motion; a block without motion counts as one that does not move.
pub open spec fn right_of(motion: Option<MotionState>) -> int {
    if motion is Some {
        motion->Some_0.vector.x as int
    } else {
        0
    }
}

/// A coordinate of a motion; a block without motion counts as one that does not move.
pub open spec fn down_of(motion: Option<MotionState>) -> int {
    if motion is Some {
        motion->Some_0.vector.y as int
    } else {
        0
    }
}

/// Whether a number is the middle one of three: it is one of them, and two of them are no larger
/// and two no smaller.
pub open spec fn is_middle(m: int, a: int, b: int, c: int) -> bool {
    &&& m == a || m == b || m == c
    &&& a <= m && b <= m || a <= m && c <= m || b <= m && c <= m
    &&& a >= m && b >= m || a >= m && c >= m || b >= m && c >= m
}

/// The upper half of a macroblock follows the block above it, the lower half and the left half
/// follow the block to the left, and the right half follows the block above and to the right, each
/// if that block refers to the same picture.
pub proof fn law_followed_neighbour(
    left: Option<MotionState>,
    above: Option<MotionState>,
    aside: Option<MotionState>,
    index: u8,
)
    requires
        above is Some || aside is Some,
    ensures
        refers(above, index) ==> combined_vector(
            MotionPredictionKind::Top16x8,
            left,
            above,
            aside,
            index,
        ) == above->Some_0.vector,
        refers(left, index) ==> combined_vector(
            MotionPredictionKind::Bottom16x8,
            left,
            above,
            aside,
            index,
        ) == left->Some_0.vector,
        refers(left, index) ==> combined_vector(
            MotionPredictionKind::Left8x16,
            left,
            above,
            aside,
            index,
        ) == left->Some_0.vector,
        refers(aside, index) ==> combined_vector(
            MotionPredictionKind::Right8x16,
            left,
            above,
            aside,
            index,
        ) == aside->Some_0.vector,
{
}

/// Where just one neighbour refers to the same picture, it is followed; otherwise each coordinate is
/// the middle one of the three.
pub proof fn law_single_or_middle(
    left: Option<MotionState>,
    above: Option<MotionState>,
    aside: Option<MotionState>,
    index: u8,
)
    requires
        above is Some || aside is Some,
    ensures
        ({
            let found = combined_vector(MotionPredictionKind::Normal, left, above, aside, index);
            let by_left = refers(left, index);
            let by_above = refers(above, index);
            let by_aside = refers(aside, index);
            &&& by_left && !by_above && !by_aside ==> found == left->Some_0.vector
            &&& !by_left && by_above && !by_aside ==> found == above->Some_0.vector
            &&& !by_left && !by_above && by_aside ==> found == aside->Some_0.vector
            &&& by_left && by_above || by_left && by_aside || by_above && by_aside || !by_left
                && !by_above && !by_aside ==> {
                &&& is_middle(found.x as int, right_of(left), right_of(above), right_of(aside))
                &&& is_middle(found.y as int, down_of(left), down_of(above), down_of(aside))
            }
        }),
{
}

/// In the first row of a picture, where there is nothing above, the block to the left is followed,
/// whatever it refers to; without any neighbour nothing moves.
pub proof fn law_nothing_above(kind: MotionPredictionKind, left: Option<MotionState>, index: u8)
    ensures
        left is Some ==> combined_vector(kind, left, None, None, index) == left->Some_0.vector,
        left is None ==> combined_vector(kind, left, None, None, index) == (MotionVector {
            x: 0,
            y: 0,
        }),
{
}

/// Halves that cannot follow their neighbour, and other parts, are predicted alike.
pub proof fn law_other_halves(
    kind: MotionPredictionKind,
    left: Option<MotionState>,
    above: Option<MotionState>,
    aside: Option<MotionState>,
    index: u8,
)
    requires
        !refers(left, index) || kind == MotionPredictionKind::Top16x8 || kind
            == MotionPredictionKind::Right8x16,
        !refers(above, index) || kind != MotionPredictionKind::Top16x8,
        !refers(aside, index) || kind != MotionPredictionKind::Right8x16,
        above is Some || aside is Some,
    ensures
        combined_vector(kind, left, above, aside, index) == combined_vector(
            MotionPredictionKind::Normal,
            left,
            above,
            aside,
            index,
        ),
{
}

/// The neighbours of a part are the blocks to the left of its first row, above its first column,
/// and above and to the right of it, in whose place the one above and to the left counts if it has
/// no motion.
pub proof fn law_predicting_blocks(
    motions: Seq<Seq<Option<MotionState>>>,
    current: Seq<Option<MotionState>>,
    address: int,
    wide: int,
    part: InterPartition,
    index: u8,
)
    ensures
        ({
            let at = |right: int, down: int|
                motion_entry(
                    motions,
                    current,
                    address,
                    wide,
                    4 * (address % wide) + part.block_x + right,
                    4 * (address / wide) + part.block_y + down,
                );
            let found = predicted_vector(motions, current, address, wide, part, index);
            let aside = at(part.block_width as int, -1);
            &&& aside is Some ==> found == combined_vector(
                part.prediction_kind,
                at(-1, 0),
                at(0, -1),
                aside,
                index,
            )
            &&& aside is None ==> found == combined_vector(
                part.prediction_kind,
                at(-1, 0),
                at(0, -1),
                at(-1, -1),
                index,
            )
        }),
{
    reveal(predicted_vector);
    let x = 4 * (address % wide) + part.block_x;
    let y = 4 * (address / wide) + part.block_y;
    assert(x + (-1) == x - 1 && y + (-1) == y - 1 && x + 0 == x && y + 0 == y);
}

/// The motion at a place is that of the block there: of the macroblock that is being coded, if it
/// lies in it, and else of the macroblock in its row and column; outside of the picture there is
/// none.
pub proof fn law_motion_places(
    motions: Seq<Seq<Option<MotionState>>>,
    current: Seq<Option<MotionState>>,
    address: int,
    wide: int,
    column: int,
    row: int,
    right: int,
    down: int,
)
    requires
        0 < wide,
        0 <= right < 4,
        0 <= down < 4,
    ensures
        ({
            let found = motion_entry(
                motions,
                current,
                address,
                wide,
                4 * column + right,
                4 * row + down,
            );
            let block = 8 * (down / 2) + 4 * (right / 2) + 2 * (down % 2) + right % 2;
            let inside = 0 <= column < wide && 0 <= row < motions.len() as int / wide;
            &&& !inside ==> found is None
            &&& inside && row * wide + column == address ==> found == current[block]
            &&& inside && row * wide + column != address ==> found == motions[row * wide
                + column][block]
        }),
{
    assert((4 * column + right) / 4 == column && (4 * column + right) % 4 == right);
    assert((4 * row + down) / 4 == row && (4 * row + down) % 4 == down);
}

/// A macroblock of which nothing is coded does not move where it has no macroblock to the left or
/// above, or where one of these does not move in the first picture of the list; otherwise it moves
/// as its neighbours predict for that picture.
pub proof fn law_skipped_motion(motions: Seq<Seq<Option<MotionState>>>, address: int, wide: int)
    ensures
        ({
            let at = |right: int, down: int|
                motion_entry(
                    motions,
                    motions[address],
                    address,
                    wide,
                    4 * (address % wide) + right,
                    4 * (address / wide) + down,
                );
            let left = at(-1, 0);
            let above = at(0, -1);
            let found = skip_vector(motions, address, wide);
            let resting = |motion: Option<MotionState>|
                refers(motion, 0) && right_of(motion) == 0 && down_of(motion) == 0;
            let whole = InterPartition {
                block_x: 0,
                block_y: 0,
                block_width: 4,
                block_height: 4,
                prediction_kind: MotionPredictionKind::Normal,
            };
            if left is None || above is None || resting(left) || resting(above) {
                found.x == 0 && found.y == 0
            } else {
                found == predicted_vector(motions, motions[address], address, wide, whole, 0)
            }
        }),
{
    reveal(skip_vector);
    let x = 4 * (address % wide);
    let y = 4 * (address / wide);
    assert(x + (-1) == x - 1 && y + (-1) == y - 1 && x + 0 == x && y + 0 == y);
}

/// Setting the motion of a part sets that of all blocks in its rows and columns, and of no other.
#[verifier::spinoff_prover]
#[verifier::rlimit(40)]
pub proof fn law_part_set(
    row: Seq<Option<MotionState>>,
    part: InterPartition,
    motion: MotionState,
    right: int,
    down: int,
)
    requires
        0 <= right < 4,
        0 <= down < 4,
        part.inside(),
    ensures
        ({
            let block = 8 * (down / 2) + 4 * (right / 2) + 2 * (down % 2) + right % 2;
            let after = with_partition(row, part, motion);
            if part.block_x <= right < part.block_x + part.block_width && part.block_y <= down
                < part.block_y + part.block_height {
                after[block] == Some(motion)
            } else {
                after[block] == row[block]
            }
        }),
{
}

/// Between two pictures that are at most sixty-three apart, the motion of the later one is divided
/// in proportion to time: none of it at the earlier one, all of it at the later one, and half of it
/// halfway.
pub proof fn law_divided_by_time(motion: MotionVector, start: int, distance: int)
    requires
        vector_small(motion),
        1 <= distance <= 31,
    ensures
        ({
            let end = start + 2 * distance;
            let at_start = temporal_vectors(motion, start, end, start);
            let at_end = temporal_vectors(motion, end, end, start);
            let halfway = temporal_vectors(motion, start + distance, end, start);
            let zero = MotionVector { x: 0, y: 0 };
            &&& at_start.0 == zero && at_start.1.x == -motion.x && at_start.1.y == -motion.y
            &&& at_end.0 == motion && at_end.1 == zero
            &&& 2 * halfway.0.x == motion.x || 2 * halfway.0.x == motion.x + 1
            &&& 2 * halfway.0.y == motion.y || 2 * halfway.0.y == motion.y + 1
        }),
{
    let td = 2 * distance;
    let tx = (16_384 + td / 2) / td;
    assert(td * tx <= 16_384 + distance && 16_384 + distance - td < td * tx) by (nonlinear_arith)
        requires
            tx == (16_384 + distance) / td,
            td > 0,
    ;
    assert(2 * (distance * tx) == td * tx) by (nonlinear_arith)
        requires
            td == 2 * distance,
    ;
    assert(0 * tx == 0) by (nonlinear_arith);
    let end = start + td;
    assert(time_scale(start, end, start) == 0);
    assert(time_scale(end, end, start) == 256);
    assert(time_scale(start + distance, end, start) == 128);
}

/// The later a picture between two others, the more of the motion belongs to it.
pub proof fn law_more_with_time(first: int, second: int, end: int, start: int)
    requires
        first <= second,
        start < end,
    ensures
        time_scale(first, end, start) <= time_scale(second, end, start),
        -1024 <= time_scale(first, end, start) <= 1023,
{
    let td = crate::math::clamped(end - start, -128, 127);
    let tx = (16_384 + td / 2) / td;
    let early = crate::math::clamped(first - start, -128, 127);
    let late = crate::math::clamped(second - start, -128, 127);
    assert(0 <= tx) by (nonlinear_arith)
        requires
            tx == (16_384 + td / 2) / td,
            0 < td,
    ;
    assert(early * tx <= late * tx) by (nonlinear_arith)
        requires
            early <= late,
            0 <= tx,
    ;
}

/// Where both pictures are the same time away, a motion is kept as it is, and a motion is stretched
/// in proportion, rounded to the nearest.
pub proof fn law_stretched(scale: int, component: int)
    ensures
        -128 <= scale * component - 256 * stretched(scale, component) < 128,
        stretched(256, component) == component,
        stretched(0, component) == 0,
{
    assert(0 * component == 0) by (nonlinear_arith);
}

/// The picture that neighbours imply is the first of those that they refer to, if there is any.
pub proof fn law_first_reference(a: Option<u8>, b: Option<u8>)
    ensures
        least_index(a, b) is None <==> a is None && b is None,
        least_index(a, b) == a || least_index(a, b) == b,
        a matches Some(x) ==> least_index(a, b)->Some_0 <= x,
        b matches Some(x) ==> least_index(a, b)->Some_0 <= x,
        least_index(a, b) == least_index(b, a),
{
}

/// The motion that neighbours imply is used as it is, but for a part that rests in the later
/// picture: there a motion from the first picture of a list is none. A list that no neighbour uses
/// is not used.
pub proof fn law_resting_part(
    vectors: (Option<(u8, MotionVector)>, Option<(u8, MotionVector)>),
    future: ReferencePicture,
    address: int,
    part: InterPartition,
    resting: bool,
)
    requires
        resting == future.still(
            address,
            crate::partitions::corner_block(part.block_x as int, part.block_width as int),
            crate::partitions::corner_block(part.block_y as int, part.block_height as int),
        ),
    ensures
        ({
            let found = spatial_part(vectors, future, address, part);
            let zero = MotionVector { x: 0, y: 0 };
            &&& vectors.0 is None ==> found.list0 is None
            &&& vectors.1 is None ==> found.list1 is None
            &&& vectors.0 matches Some(v) ==> found.list0 is Some
                && found.list0->Some_0.reference_index == v.0 && found.list0->Some_0.motion == (
            if resting && v.0 == 0 {
                zero
            } else {
                v.1
            })
            &&& vectors.1 matches Some(v) ==> found.list1 is Some
                && found.list1->Some_0.reference_index == v.0 && found.list1->Some_0.motion == (
            if resting && v.0 == 0 {
                zero
            } else {
                v.1
            })
            &&& found.direct
        }),
{
}

/// A block rests if it is predicted from the first picture of the list and moves by at most a quarter
/// of a step each way.
pub proof fn law_resting_block(future: ReferencePicture, address: int, x: int, y: int)
    ensures
        ({
            let motion = future.motion_l0[address][block_at(x, y)];
            future.still(address, x, y) <==> {
                &&& address < future.macroblock_intra.len()
                &&& !future.macroblock_intra[address]
                &&& address < future.motion_l0.len()
                &&& refers(motion, 0)
                &&& -1 <= right_of(motion) <= 1
                &&& -1 <= down_of(motion) <= 1
            }
        }),
{
}

/// The pictures of both lists that neighbours imply are those that their neighbours refer to; where
/// none of them refers to any, the first one of each list.
pub proof fn law_implied_pictures(
    earlier: Seq<Seq<Option<MotionState>>>,
    later: Seq<Seq<Option<MotionState>>>,
    address: int,
    wide: int,
)
    ensures
        ({
            let found = spatial_vectors(earlier, later, address, wide);
            let first = neighbour_index(earlier, address, wide);
            let second = neighbour_index(later, address, wide);
            &&& first is None && second is None ==> found.0 is Some && found.1 is Some
                && found.0->Some_0.0 == 0 && found.1->Some_0.0 == 0
            &&& first is Some || second is Some ==> {
                &&& found.0 is Some <==> first is Some
                &&& found.1 is Some <==> second is Some
                &&& first matches Some(index) ==> found.0->Some_0.0 == index
                &&& second matches Some(index) ==> found.1->Some_0.0 == index
            }
        }),
{
    reveal(spatial_vectors);
}

} // verus!
