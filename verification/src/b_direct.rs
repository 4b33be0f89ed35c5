//! Motion that is derived instead of coded.

use vstd::prelude::*;

use crate::deblock::{block_at, luma_block_index};
use crate::math::{clamp, clamped, magnitude};
use crate::motion::{
    motion_at_with_current, motion_entry, motions_fit, motions_small, no_vector,
    partition_motion_predictor, predicted_vector, vector_fits, vector_small, whole_partition,
    make_whole_partition, BlockMotions, InterPartition, MotionState, MotionVector,
};
use crate::neighbors::rows;
use crate::p_select::{EncoderReference, ReferencePicture, SelectedPartition};
use crate::partitions::{corner_block, direct_colocated_block};

verus! {

/// A part of a macroblock with the motions that were chosen for it.
#[derive(Clone, Copy, Debug, PartialEq, Eq)]
pub struct BSelectedPartition {
    /// Its motion from an earlier picture.
    pub list0: Option<SelectedPartition>,
    /// Its motion from a later picture.
    pub list1: Option<SelectedPartition>,
    /// Whether the motions are derived.
    pub direct: bool,
}

impl BSelectedPartition {
    /// The part.
    pub open spec fn part(self) -> InterPartition {
        match self.list0 {
            Some(selected) => selected.partition,
            None => self.list1->Some_0.partition,
        }
    }

    /// The vector from an earlier picture.
    pub open spec fn earlier(self) -> Option<MotionVector> {
        match self.list0 {
            Some(selected) => Some(selected.motion),
            None => None,
        }
    }

    /// The vector from a later picture.
    pub open spec fn later(self) -> Option<MotionVector> {
        match self.list1 {
            Some(selected) => Some(selected.motion),
            None => None,
        }
    }

    /// Whether there is a motion, it leaves room for arithmetic, and the part lies inside.
    pub open spec fn fits(self) -> bool {
        &&& self.list0 is Some || self.list1 is Some
        &&& self.part().inside()
        &&& self.list0 matches Some(selected) ==> selected.partition == self.part() && vector_fits(
            selected.motion,
        ) && vector_fits(selected.predicted)
        &&& self.list1 matches Some(selected) ==> selected.partition == self.part() && vector_fits(
            selected.motion,
        ) && vector_fits(selected.predicted)
    }

    /// The part.
    pub fn partition(self) -> (partition: InterPartition)
        requires
            self.fits(),
        ensures
            partition == self.part(),
    {
        match self.list0 {
            Some(selected) => selected.partition,
            None => match self.list1 {
                Some(selected) => selected.partition,
                None => make_whole_partition(),
            },
        }
    }
}

impl ReferencePicture {
    /// Whether a macroblock is known to be predicted from other pictures.
    pub open spec fn is_inter(self, address: int) -> bool {
        address < self.macroblock_intra.len() && !self.macroblock_intra[address]
    }

    /// The motion of a block.
    pub open spec fn block_motion(self, address: int, x: int, y: int) -> Option<MotionState> {
        if address < self.motion_l0.len() {
            self.motion_l0[address][block_at(x, y)]
        } else {
            None
        }
    }

    /// The display order of the picture that a block refers to.
    pub open spec fn block_order(self, address: int, x: int, y: int) -> Option<i32> {
        if address < self.reference_l0_poc.len() {
            self.reference_l0_poc[address][block_at(x, y)]
        } else {
            None
        }
    }

    /// Whether a block stands almost still.
    pub open spec fn still(self, address: int, x: int, y: int) -> bool {
        self.is_inter(address) && (self.block_motion(address, x, y) matches Some(motion)
            && motion.reference_index == Some(0u8) && magnitude(motion.vector.x as int) <= 1
            && magnitude(motion.vector.y as int) <= 1)
    }

    /// The motion of a block and the display order of the picture that it refers to.
    pub open spec fn moved(self, address: int, x: int, y: int) -> Option<(MotionVector, i32)> {
        if !self.is_inter(address) {
            None
        } else {
            match (self.block_motion(address, x, y), self.block_order(address, x, y)) {
                (Some(motion), Some(order)) => if motion.reference_index is Some {
                    Some((motion.vector, order))
                } else {
                    None
                },
                _ => None,
            }
        }
    }
}

impl EncoderReference {
    /// The motion of a block.
    fn read_motion(&self, address: usize, block_x: usize, block_y: usize) -> (motion: Option<
        MotionState,
    >)
        requires
            block_x < 4,
            block_y < 4,
        ensures
            motion == self@.block_motion(address as int, block_x as int, block_y as int),
            motions_small(rows(self.motion_l0@)) ==> crate::motion::motion_small(motion),
    {
        if address < self.motion_l0.len() {
            assert(rows(self.motion_l0@)[address as int] == self.motion_l0@[address as int]@);
            assert(motions_small(rows(self.motion_l0@)) ==> crate::motion::row_small(
                rows(self.motion_l0@)[address as int],
            ));
            self.motion_l0[address][luma_block_index(block_x, block_y)]
        } else {
            None
        }
    }

    /// Whether a macroblock is known to be predicted from other pictures.
    fn known_inter(&self, address: usize) -> (result: bool)
        ensures
            result == self@.is_inter(address as int),
    {
        address < self.macroblock_intra.len() && !self.macroblock_intra[address]
    }

    /// Whether a block stands almost still.
    pub fn colocated_zero(&self, address: usize, block_x: usize, block_y: usize) -> (result: bool)
        requires
            block_x < 4,
            block_y < 4,
        ensures
            result == self@.still(address as int, block_x as int, block_y as int),
    {
        if !self.known_inter(address) {
            return false;
        }
        match self.read_motion(address, block_x, block_y) {
            Some(motion) => match motion.reference_index {
                Some(index) => index == 0 && motion.vector.x >= -1 && motion.vector.x <= 1
                    && motion.vector.y >= -1 && motion.vector.y <= 1,
                None => false,
            },
            None => false,
        }
    }

    /// The motion of a block and the display order of the picture that it refers to.
    pub fn colocated_motion(&self, address: usize, block_x: usize, block_y: usize) -> (motion: Option<
        (MotionVector, i32),
    >)
        requires
            block_x < 4,
            block_y < 4,
        ensures
            motion == self@.moved(address as int, block_x as int, block_y as int),
            motions_small(rows(self.motion_l0@)) ==> (motion matches Some(found) ==> vector_small(
                found.0,
            )),
    {
        if !self.known_inter(address) {
            return None;
        }
        let order: Option<i32> = if address < self.reference_l0_poc.len() {
            self.reference_l0_poc[address][luma_block_index(block_x, block_y)]
        } else {
            None
        };
        match self.read_motion(address, block_x, block_y) {
            Some(motion) => match order {
                Some(order) => if motion.reference_index.is_some() {
                    Some((motion.vector, order))
                } else {
                    None
                },
                None => None,
            },
            None => None,
        }
    }
}

/// How much of a motion between two pictures belongs to one between them, in parts of 256.
pub open spec fn time_scale(order: int, colocated_order: int, reference_order: int) -> int {
    let td = clamped(colocated_order - reference_order, -128, 127);
    let tb = clamped(order - reference_order, -128, 127);
    if td == 0 {
        256
    } else {
        let tx = if td > 0 {
            (16_384 + td / 2) / td
        } else {
            -((16_384 + (-td) / 2) / (-td))
        };
        clamped((tb * tx + 32) / 64, -1_024, 1_023)
    }
}

/// A coordinate of a motion that is stretched to another distance in time.
pub open spec fn stretched(scale: int, component: int) -> int {
    (scale * component + 128) / 256
}

/// The motions that a motion of a later picture implies.
pub open spec fn temporal_vectors(
    colocated: MotionVector,
    order: int,
    colocated_order: int,
    reference_order: int,
) -> (MotionVector, MotionVector) {
    let scale = time_scale(order, colocated_order, reference_order);
    let x = stretched(scale, colocated.x as int);
    let y = stretched(scale, colocated.y as int);
    (
        MotionVector { x: x as i32, y: y as i32 },
        MotionVector { x: (x - colocated.x) as i32, y: (y - colocated.y) as i32 },
    )
}

/// How much of a motion between two pictures belongs to one between them, in parts of 256.
fn find_time_scale(order: i32, colocated_order: i32, reference_order: i32) -> (scale: i64)
    ensures
        scale == time_scale(order as int, colocated_order as int, reference_order as int),
        -1_024 <= scale <= 1_023,
{
    let td: i64 = clamp(colocated_order as i64 - reference_order as i64, -128, 127);
    let tb: i64 = clamp(order as i64 - reference_order as i64, -128, 127);
    if td == 0 {
        return 256;
    }
    let size: i64 = if td > 0 {
        td
    } else {
        -td
    };
    assert(0 <= (16_384 + size as int / 2) / (size as int) <= 16_448) by (nonlinear_arith)
        requires
            1 <= size <= 128,
    ;
    let quotient: i64 = (16_384 + size / 2) / size;
    let tx: i64 = if td > 0 {
        quotient
    } else {
        -quotient
    };
    assert(-0x40_0000 <= tb * tx <= 0x40_0000) by (nonlinear_arith)
        requires
            -128 <= tb <= 127,
            -16_448 <= tx <= 16_448,
    ;
    clamp(crate::math::sixty_fourth(tb * tx + 32), -1_024, 1_023)
}

/// A coordinate of a motion that is stretched to another distance in time.
fn stretch(scale: i64, component: i32) -> (result: i32)
    requires
        -1_024 <= scale <= 1_023,
        -0x10_0000 <= component <= 0x10_0000,
    ensures
        result == stretched(scale as int, component as int),
        -0x40_0001 <= result <= 0x40_0001,
{
    assert(-0x4000_0000 <= scale * component <= 0x4000_0000) by (nonlinear_arith)
        requires
            -1_024 <= scale <= 1_023,
            -0x10_0000 <= component <= 0x10_0000,
    ;
    crate::math::sixteenth(crate::math::sixteenth(scale * component as i64 + 128)) as i32
}

/// The motions that a motion of a later picture implies.
pub fn temporal_direct_motion_vectors(
    colocated: MotionVector,
    picture_order_count: i32,
    colocated_picture_order_count: i32,
    reference_picture_order_count: i32,
) -> (vectors: (MotionVector, MotionVector))
    requires
        vector_small(colocated),
    ensures
        vectors == temporal_vectors(
            colocated,
            picture_order_count as int,
            colocated_picture_order_count as int,
            reference_picture_order_count as int,
        ),
        vector_fits(vectors.0),
        vector_fits(vectors.1),
{
    let scale: i64 = find_time_scale(
        picture_order_count,
        colocated_picture_order_count,
        reference_picture_order_count,
    );
    let x: i32 = stretch(scale, colocated.x);
    let y: i32 = stretch(scale, colocated.y);
    (MotionVector { x, y }, MotionVector { x: x - colocated.x, y: y - colocated.y })
}

/// The two motions that a later picture implies differ by the motion that they come from.
pub proof fn law_temporal_vectors(
    colocated: MotionVector,
    order: int,
    colocated_order: int,
    reference_order: int,
)
    requires
        vector_small(colocated),
    ensures
        ({
            let found = temporal_vectors(colocated, order, colocated_order, reference_order);
            found.0.x - found.1.x == colocated.x && found.0.y - found.1.y == colocated.y
        }),
{
    let scale = time_scale(order, colocated_order, reference_order);
    assert(-1_024 <= scale <= 1_023);
    let x = colocated.x as int;
    let y = colocated.y as int;
    assert(-0x4000_0000 <= scale * x <= 0x4000_0000 && -0x4000_0000 <= scale * y <= 0x4000_0000)
        by (nonlinear_arith)
        requires
            -1_024 <= scale <= 1_023,
            -0x10_0000 <= x <= 0x10_0000,
            -0x10_0000 <= y <= 0x10_0000,
    ;
}

/// A part that has the same vector as is predicted for it.
pub open spec fn as_predicted(partition: InterPartition, vector: MotionVector) -> SelectedPartition {
    SelectedPartition { partition, predicted: vector, motion: vector, reference_index: 0 }
}

/// The motion of a part that a later picture implies, unless that picture refers to a third one.
pub open spec fn temporal_part(
    previous: ReferencePicture,
    future: ReferencePicture,
    address: int,
    partition: InterPartition,
    order: int,
) -> Option<BSelectedPartition> {
    let moved = future.moved(
        address,
        corner_block(partition.block_x as int, partition.block_width as int),
        corner_block(partition.block_y as int, partition.block_height as int),
    );
    match moved {
        Some((colocated, reference_order)) => if reference_order != previous.pic_order_count {
            None
        } else {
            let vectors = temporal_vectors(
                colocated,
                order,
                future.pic_order_count,
                reference_order as int,
            );
            Some(
                BSelectedPartition {
                    list0: Some(as_predicted(partition, vectors.0)),
                    list1: Some(as_predicted(partition, vectors.1)),
                    direct: true,
                },
            )
        },
        None => Some(
            BSelectedPartition {
                list0: Some(as_predicted(partition, no_vector())),
                list1: Some(as_predicted(partition, no_vector())),
                direct: true,
            },
        ),
    }
}

/// The motion of a part that a later picture implies, unless that picture refers to a third one.
pub fn temporal_direct_partition(
    previous: &EncoderReference,
    future: &EncoderReference,
    address: usize,
    partition: InterPartition,
    picture_order_count: i32,
) -> (result: Option<BSelectedPartition>)
    requires
        partition.inside(),
        motions_small(rows(future.motion_l0@)),
    ensures
        result == temporal_part(
            previous@,
            future@,
            address as int,
            partition,
            picture_order_count as int,
        ),
        result matches Some(selected) ==> selected.fits() && selected.part() == partition,
{
    let (block_x, block_y) = direct_colocated_block(partition);
    let (motion_l0, motion_l1) = match future.colocated_motion(address, block_x, block_y) {
        Some((colocated, reference_order)) => {
            if reference_order != previous.pic_order_count {
                return None;
            }
            temporal_direct_motion_vectors(
                colocated,
                picture_order_count,
                future.pic_order_count,
                reference_order,
            )
        },
        None => (MotionVector { x: 0, y: 0 }, MotionVector { x: 0, y: 0 }),
    };
    Some(
        BSelectedPartition {
            list0: Some(
                SelectedPartition {
                    partition,
                    predicted: motion_l0,
                    motion: motion_l0,
                    reference_index: 0,
                },
            ),
            list1: Some(
                SelectedPartition {
                    partition,
                    predicted: motion_l1,
                    motion: motion_l1,
                    reference_index: 0,
                },
            ),
            direct: true,
        },
    )
}

/// The smaller one of two indices, if there are any.
pub open spec fn least_index(a: Option<u8>, b: Option<u8>) -> Option<u8> {
    match (a, b) {
        (Some(x), Some(y)) => if x <= y {
            a
        } else {
            b
        },
        (Some(_), None) => a,
        _ => b,
    }
}

/// The picture that a motion refers to.
pub open spec fn index_of(motion: Option<MotionState>) -> Option<u8> {
    match motion {
        Some(state) => state.reference_index,
        None => None,
    }
}

/// The first of the pictures that the neighbours of a macroblock refer to.
pub open spec fn neighbour_index(
    motions: Seq<Seq<Option<MotionState>>>,
    address: int,
    wide: int,
) -> Option<u8> {
    let x = address % wide * 4;
    let y = address / wide * 4;
    let row = motions[address];
    least_index(
        least_index(
            index_of(motion_entry(motions, row, address, wide, x - 1, y)),
            index_of(motion_entry(motions, row, address, wide, x, y - 1)),
        ),
        index_of(motion_entry(motions, row, address, wide, x + 4, y - 1)),
    )
}

/// The smaller one of two indices, if there are any.
fn pick_index(a: Option<u8>, b: Option<u8>) -> (index: Option<u8>)
    ensures
        index == least_index(a, b),
{
    match (a, b) {
        (Some(x), Some(y)) => if x <= y {
            a
        } else {
            b
        },
        (Some(_), None) => a,
        _ => b,
    }
}

/// The picture that a motion refers to.
fn read_index(motion: Option<MotionState>) -> (index: Option<u8>)
    ensures
        index == index_of(motion),
{
    match motion {
        Some(state) => state.reference_index,
        None => None,
    }
}

/// The first of the pictures that the neighbours of a macroblock refer to.
pub fn spatial_direct_reference_index(
    history: &[BlockMotions],
    address: usize,
    macroblocks_wide: usize,
) -> (index: Option<u8>)
    requires
        0 < macroblocks_wide <= 0x1000_0000,
        history@.len() <= 0x1000_0000,
        address < history@.len(),
    ensures
        index == neighbour_index(rows(history@), address as int, macroblocks_wide as int),
{
    proof {
        assert(0 <= address as int / macroblocks_wide as int <= address) by (nonlinear_arith)
            requires
                0 < macroblocks_wide,
                0 <= address,
        ;
    }
    assert(rows(history@)[address as int] == history@[address as int]@);
    let x: i64 = ((address % macroblocks_wide) * 4) as i64;
    let y: i64 = ((address / macroblocks_wide) * 4) as i64;
    let row: &BlockMotions = &history[address];
    let left: Option<MotionState> = motion_at_with_current(
        history,
        row,
        address,
        macroblocks_wide,
        x - 1,
        y,
    );
    let top: Option<MotionState> = motion_at_with_current(
        history,
        row,
        address,
        macroblocks_wide,
        x,
        y - 1,
    );
    let right: Option<MotionState> = motion_at_with_current(
        history,
        row,
        address,
        macroblocks_wide,
        x + 4,
        y - 1,
    );
    pick_index(pick_index(read_index(left), read_index(top)), read_index(right))
}

/// A picture of a list and a vector.
pub type IndexedVector = Option<(u8, MotionVector)>;

/// The vector that the neighbours of a macroblock predict for one of the pictures of a list.
pub open spec fn indexed_vector(
    motions: Seq<Seq<Option<MotionState>>>,
    address: int,
    wide: int,
    index: Option<u8>,
) -> IndexedVector {
    match index {
        Some(value) => Some(
            (
                value,
                predicted_vector(
                    motions,
                    motions[address],
                    address,
                    wide,
                    whole_partition(),
                    value,
                ),
            ),
        ),
        None => None,
    }
}

/// The motions that the neighbours of a macroblock imply.
#[verifier::opaque]
pub open spec fn spatial_vectors(
    motions_l0: Seq<Seq<Option<MotionState>>>,
    motions_l1: Seq<Seq<Option<MotionState>>>,
    address: int,
    wide: int,
) -> (IndexedVector, IndexedVector) {
    let index_l0 = neighbour_index(motions_l0, address, wide);
    let index_l1 = neighbour_index(motions_l1, address, wide);
    if index_l0 is None && index_l1 is None {
        (
            indexed_vector(motions_l0, address, wide, Some(0)),
            indexed_vector(motions_l1, address, wide, Some(0)),
        )
    } else {
        (
            indexed_vector(motions_l0, address, wide, index_l0),
            indexed_vector(motions_l1, address, wide, index_l1),
        )
    }
}

/// The vector that the neighbours of a macroblock predict for one of the pictures of a list.
fn find_indexed_vector(
    history: &[BlockMotions],
    address: usize,
    macroblocks_wide: usize,
    index: Option<u8>,
) -> (vector: IndexedVector)
    requires
        0 < macroblocks_wide <= 0x1000_0000,
        history@.len() <= 0x1000_0000,
        address < history@.len(),
        motions_fit(rows(history@)),
    ensures
        vector == indexed_vector(
            rows(history@),
            address as int,
            macroblocks_wide as int,
            index,
        ),
        vector matches Some(found) ==> vector_fits(found.1),
{
    match index {
        Some(value) => Some(
            (
                value,
                partition_motion_predictor(
                    history,
                    address,
                    macroblocks_wide,
                    make_whole_partition(),
                    value,
                ),
            ),
        ),
        None => None,
    }
}

/// The motions that the neighbours of a macroblock imply.
pub fn spatial_direct_motion(
    history_l0: &[BlockMotions],
    history_l1: &[BlockMotions],
    address: usize,
    macroblocks_wide: usize,
) -> (vectors: (IndexedVector, IndexedVector))
    requires
        0 < macroblocks_wide <= 0x1000_0000,
        history_l0@.len() <= 0x1000_0000,
        history_l1@.len() == history_l0@.len(),
        address < history_l0@.len(),
        motions_fit(rows(history_l0@)),
        motions_fit(rows(history_l1@)),
    ensures
        vectors == spatial_vectors(
            rows(history_l0@),
            rows(history_l1@),
            address as int,
            macroblocks_wide as int,
        ),
        vectors.0 is Some || vectors.1 is Some,
        vectors.0 matches Some(found) ==> vector_fits(found.1),
        vectors.1 matches Some(found) ==> vector_fits(found.1),
{
    reveal(spatial_vectors);
    let mut index_l0: Option<u8> = spatial_direct_reference_index(
        history_l0,
        address,
        macroblocks_wide,
    );
    let mut index_l1: Option<u8> = spatial_direct_reference_index(
        history_l1,
        address,
        macroblocks_wide,
    );
    if index_l0.is_none() && index_l1.is_none() {
        index_l0 = Some(0);
        index_l1 = Some(0);
    }
    (
        find_indexed_vector(history_l0, address, macroblocks_wide, index_l0),
        find_indexed_vector(history_l1, address, macroblocks_wide, index_l1),
    )
}

/// The motion of a part, given the one that neighbours imply.
pub open spec fn spatial_selected(
    partition: InterPartition,
    still: bool,
    vector: IndexedVector,
) -> Option<SelectedPartition> {
    match vector {
        Some((index, predicted)) => Some(
            SelectedPartition {
                partition,
                predicted,
                motion: if still && index == 0 {
                    no_vector()
                } else {
                    predicted
                },
                reference_index: index,
            },
        ),
        None => None,
    }
}

/// The motion of a part that neighbours imply, unless it stands still in a later picture.
pub open spec fn spatial_part(
    vectors: (IndexedVector, IndexedVector),
    future: ReferencePicture,
    address: int,
    partition: InterPartition,
) -> BSelectedPartition {
    let still = future.still(
        address,
        corner_block(partition.block_x as int, partition.block_width as int),
        corner_block(partition.block_y as int, partition.block_height as int),
    );
    BSelectedPartition {
        list0: spatial_selected(partition, still, vectors.0),
        list1: spatial_selected(partition, still, vectors.1),
        direct: true,
    }
}

/// The motion of a part, given the one that neighbours imply.
fn select_spatial(partition: InterPartition, still: bool, vector: IndexedVector) -> (selected: Option<
    SelectedPartition,
>)
    ensures
        selected == spatial_selected(partition, still, vector),
{
    match vector {
        Some((index, predicted)) => Some(
            SelectedPartition {
                partition,
                predicted,
                motion: if still && index == 0 {
                    MotionVector { x: 0, y: 0 }
                } else {
                    predicted
                },
                reference_index: index,
            },
        ),
        None => None,
    }
}

/// The motion of a part that neighbours imply, unless it stands still in a later picture.
pub fn spatial_direct_partition(
    vectors: (IndexedVector, IndexedVector),
    future: &EncoderReference,
    address: usize,
    partition: InterPartition,
) -> (selected: BSelectedPartition)
    requires
        partition.inside(),
        vectors.0 is Some || vectors.1 is Some,
        vectors.0 matches Some(found) ==> vector_fits(found.1),
        vectors.1 matches Some(found) ==> vector_fits(found.1),
    ensures
        selected == spatial_part(vectors, future@, address as int, partition),
        selected.fits(),
        selected.part() == partition,
{
    let (block_x, block_y) = direct_colocated_block(partition);
    let still = future.colocated_zero(address, block_x, block_y);
    BSelectedPartition {
        list0: select_spatial(partition, still, vectors.0),
        list1: select_spatial(partition, still, vectors.1),
        direct: true,
    }
}

/// What is kept of the motion of a part for its neighbours.
pub open spec fn b_state(selected: Option<SelectedPartition>) -> MotionState {
    match selected {
        Some(found) => MotionState { vector: found.motion, reference_index: Some(0) },
        None => MotionState { vector: no_vector(), reference_index: None },
    }
}

/// What is kept of the motion of a part for its neighbours.
pub fn b_motion_state(selected: Option<SelectedPartition>) -> (state: MotionState)
    ensures
        state == b_state(selected),
{
    match selected {
        Some(found) => MotionState { vector: found.motion, reference_index: Some(0) },
        None => MotionState { vector: MotionVector { x: 0, y: 0 }, reference_index: None },
    }
}

} // verus!
