//! Choosing how macroblocks are predicted from an earlier and a later picture.

use vstd::prelude::*;

use crate::b_direct::{
    b_motion_state, b_state, spatial_direct_motion, spatial_direct_partition, spatial_part,
    spatial_vectors, temporal_direct_partition, temporal_part, BSelectedPartition, IndexedVector,
};
use crate::config::{AnalysisPreset, BDirectMode};
use crate::inter_predict::{
    blank_prediction, chroma_reference, luma_reference, macroblock_sized, no_prediction,
    partition_chroma, partition_luma, predict_chroma_samples, predict_luma_samples, predictable,
};
use crate::interpolate::{ReferenceModel, ReferencePlane};
use crate::intra::{block_distance, block_sad};
use crate::motion::{
    motion_difference_rate, motions_fit, motions_small, partition_motion_predictor_with_current,
    predicted_vector, row_fits, set_partition_motion, vector_fits, vector_rate, with_partition,
    BlockMotions, InterPartition, MotionState, MotionVector,
};
use crate::neighbors::rows;
use crate::p_select::{
    prediction_region_sad, quarter_distance, EncoderReference, ReferencePicture, SelectedPartition,
};
use crate::partitions::{
    b_inter_partitions, b_sub_partitions, direct_8x8_partition, direct_quarter, directed_inside,
    directed_parts, directed_quarter_parts, part_sized, DirectedPart,
};
use crate::picture::{lemma_macroblock_inside, Planes, Samples};
use crate::plane::{place_region, with_region};
use crate::search::{MotionSearch, SearchModel};

verus! {

/// The mean of two blocks, or the one that there is.
pub open spec fn mixed(first: Option<Seq<u8>>, second: Option<Seq<u8>>) -> Seq<u8> {
    match (first, second) {
        (Some(a), Some(b)) => Seq::new(a.len(), |i: int| ((a[i] + b[i] + 1) / 2) as u8),
        (Some(a), None) => a,
        (None, Some(b)) => b,
        (None, None) => Seq::empty(),
    }
}

/// The luma samples of a part that a vector predicts, if there is one.
pub open spec fn luma_part(
    reference: ReferenceModel,
    x: int,
    y: int,
    partition: InterPartition,
    vector: Option<MotionVector>,
) -> Option<Seq<u8>> {
    match vector {
        Some(motion) => Some(partition_luma(reference, x, y, partition, motion)),
        None => None,
    }
}

/// The chroma samples of a part that a vector predicts, if there is one.
pub open spec fn chroma_part(
    reference: ReferenceModel,
    x: int,
    y: int,
    partition: InterPartition,
    vector: Option<MotionVector>,
) -> Option<Seq<u8>> {
    match vector {
        Some(motion) => Some(partition_chroma(reference, x, y, partition, motion)),
        None => None,
    }
}

/// The prediction of a macroblock after that of a part is set.
#[verifier::opaque]
pub open spec fn with_b_prediction(
    prediction: Samples,
    previous: Samples,
    future: Samples,
    wide: int,
    high: int,
    x: int,
    y: int,
    selected: BSelectedPartition,
) -> Samples {
    let partition = selected.part();
    Samples {
        luma: with_region(
            prediction.luma,
            16,
            partition.block_x * 4,
            partition.block_y * 4,
            partition.block_width * 4,
            partition.block_height * 4,
            mixed(
                luma_part(
                    luma_reference(previous, wide, high),
                    x,
                    y,
                    partition,
                    selected.earlier(),
                ),
                luma_part(luma_reference(future, wide, high), x, y, partition, selected.later()),
            ),
        ),
        cb: with_region(
            prediction.cb,
            8,
            partition.block_x * 2,
            partition.block_y * 2,
            partition.block_width * 2,
            partition.block_height * 2,
            mixed(
                chroma_part(
                    chroma_reference(previous.cb, wide, high),
                    x,
                    y,
                    partition,
                    selected.earlier(),
                ),
                chroma_part(
                    chroma_reference(future.cb, wide, high),
                    x,
                    y,
                    partition,
                    selected.later(),
                ),
            ),
        ),
        cr: with_region(
            prediction.cr,
            8,
            partition.block_x * 2,
            partition.block_y * 2,
            partition.block_width * 2,
            partition.block_height * 2,
            mixed(
                chroma_part(
                    chroma_reference(previous.cr, wide, high),
                    x,
                    y,
                    partition,
                    selected.earlier(),
                ),
                chroma_part(
                    chroma_reference(future.cr, wide, high),
                    x,
                    y,
                    partition,
                    selected.later(),
                ),
            ),
        ),
    }
}

/// The samples that there may be.
spec fn sample_view(samples: Option<Vec<u8>>) -> Option<Seq<u8>> {
    match samples {
        Some(found) => Some(found@),
        None => None,
    }
}

/// Mixes two blocks, or takes the one that there is.
fn mix(first: Option<Vec<u8>>, second: Option<Vec<u8>>, count: usize) -> (samples: Vec<u8>)
    requires
        first is Some || second is Some,
        first matches Some(found) ==> found@.len() == count,
        second matches Some(found) ==> found@.len() == count,
    ensures
        samples@ == mixed(sample_view(first), sample_view(second)),
        samples@.len() == count,
{
    match first {
        Some(a) => match second {
            Some(b) => {
                let mut samples: Vec<u8> = Vec::with_capacity(count);
                let mut i: usize = 0;
                while i < count
                    invariant
                        i <= count,
                        a@.len() == count,
                        b@.len() == count,
                        samples@.len() == i,
                        forall|j: int|
                            0 <= j < i ==> #[trigger] samples@[j] == ((a@[j] + b@[j] + 1)
                                / 2) as u8,
                    decreases count - i,
                {
                    let sample: u8 = ((a[i] as u16 + b[i] as u16 + 1) / 2) as u8;
                    samples.push(sample);
                    i = i + 1;
                }
                assert(samples@ =~= mixed(Some(a@), Some(b@)));
                samples
            },
            None => a,
        },
        None => match second {
            Some(b) => b,
            None => Vec::new(),
        },
    }
}

/// A macroblock that is to be predicted from an earlier and a later picture.
#[derive(Clone, Copy, Debug)]
pub struct BSite<'a> {
    /// The source picture.
    pub source: &'a Planes,
    /// The earlier picture.
    pub previous: &'a EncoderReference,
    /// The later picture.
    pub future: &'a EncoderReference,
    /// How many macroblocks stand side by side.
    pub wide: usize,
    /// How many macroblocks stand one above the other.
    pub high: usize,
    /// The column of the macroblock.
    pub x: usize,
    /// The row of the macroblock.
    pub y: usize,
    /// How far vectors may reach, in whole steps.
    pub search_range: i32,
    /// The motions of all macroblocks so far from earlier pictures.
    pub motions_l0: &'a [BlockMotions],
    /// The motions of all macroblocks so far from later pictures.
    pub motions_l1: &'a [BlockMotions],
    /// How motion is derived where none is coded.
    pub direct_mode: BDirectMode,
    /// The display order of the picture.
    pub picture_order_count: i32,
}

/// A macroblock that is to be predicted from an earlier and a later picture.
pub struct BModel {
    /// The source picture.
    pub source: Samples,
    /// The earlier picture.
    pub previous: ReferencePicture,
    /// The later picture.
    pub future: ReferencePicture,
    /// How many macroblocks stand side by side.
    pub wide: int,
    /// How many macroblocks stand one above the other.
    pub high: int,
    /// The column of the macroblock.
    pub x: int,
    /// The row of the macroblock.
    pub y: int,
    /// How far vectors may reach, in whole steps.
    pub search_range: int,
    /// The motions of all macroblocks so far from earlier pictures.
    pub motions_l0: Seq<Seq<Option<MotionState>>>,
    /// The motions of all macroblocks so far from later pictures.
    pub motions_l1: Seq<Seq<Option<MotionState>>>,
    /// How motion is derived where none is coded.
    pub direct_mode: BDirectMode,
    /// The display order of the picture.
    pub picture_order_count: int,
}

impl<'a> View for BSite<'a> {
    type V = BModel;

    open spec fn view(&self) -> BModel {
        BModel {
            source: self.source@,
            previous: self.previous@,
            future: self.future@,
            wide: self.wide as int,
            high: self.high as int,
            x: self.x as int,
            y: self.y as int,
            search_range: self.search_range as int,
            motions_l0: rows(self.motions_l0@),
            motions_l1: rows(self.motions_l1@),
            direct_mode: self.direct_mode,
            picture_order_count: self.picture_order_count as int,
        }
    }
}

impl<'a> BSite<'a> {
    /// Whether the macroblock lies inside all pictures.
    pub open spec fn valid(&self) -> bool {
        &&& predictable(self.source@, self.wide as int, self.high as int)
        &&& predictable(self.previous.planes@, self.wide as int, self.high as int)
        &&& predictable(self.future.planes@, self.wide as int, self.high as int)
        &&& motions_small(rows(self.future.motion_l0@))
        &&& self.x < self.wide
        &&& self.y < self.high
        &&& 0 <= self.search_range <= 64
        &&& self.motions_l0@.len() == self.wide * self.high
        &&& self.motions_l1@.len() == self.wide * self.high
        &&& self.motions_l0@.len() <= 0x1000_0000
        &&& motions_fit(rows(self.motions_l0@))
        &&& motions_fit(rows(self.motions_l1@))
    }
}

/// The motion that is tried for a macroblock.
#[derive(Debug)]
pub struct BTrial {
    /// The motions of its blocks so far from the earlier picture.
    pub motions_l0: BlockMotions,
    /// The motions of its blocks so far from the later picture.
    pub motions_l1: BlockMotions,
    /// Its prediction so far.
    pub prediction: Planes,
    /// How far the vectors are from the predicted ones.
    pub rate: u64,
    /// How many parts are predicted from both pictures.
    pub both: u64,
    /// The parts so far.
    pub selected: Vec<BSelectedPartition>,
}

/// The motion that is tried for a macroblock.
#[verifier::ext_equal]
pub struct BTrialModel {
    /// The motions of its blocks so far from the earlier picture.
    pub motions_l0: Seq<Option<MotionState>>,
    /// The motions of its blocks so far from the later picture.
    pub motions_l1: Seq<Option<MotionState>>,
    /// Its prediction so far.
    pub prediction: Samples,
    /// How far the vectors are from the predicted ones.
    pub rate: int,
    /// How many parts are predicted from both pictures.
    pub both: int,
    /// The parts so far.
    pub selected: Seq<BSelectedPartition>,
}

impl View for BTrial {
    type V = BTrialModel;

    open spec fn view(&self) -> BTrialModel {
        BTrialModel {
            motions_l0: self.motions_l0@,
            motions_l1: self.motions_l1@,
            prediction: self.prediction@,
            rate: self.rate as int,
            both: self.both as int,
            selected: self.selected@,
        }
    }
}

/// Whether all chosen parts are in order.
pub open spec fn all_b_fit(selected: Seq<BSelectedPartition>) -> bool {
    forall|i: int| 0 <= i < selected.len() ==> (#[trigger] selected[i]).fits()
}

impl BTrial {
    /// Whether the trial is in order.
    pub open spec fn valid(&self) -> bool {
        &&& row_fits(self.motions_l0@)
        &&& row_fits(self.motions_l1@)
        &&& macroblock_sized(self.prediction@)
        &&& all_b_fit(self.selected@)
        &&& self.selected@.len() <= 16
        &&& self.rate <= 0x800_0000 * self.selected@.len()
        &&& self.both <= self.selected@.len()
    }
}

/// How far a vector is from the predicted one, if there is one.
pub open spec fn selected_rate(selected: Option<SelectedPartition>) -> int {
    match selected {
        Some(found) => vector_rate(found.motion, found.predicted),
        None => 0,
    }
}

/// How a macroblock is predicted, and at what cost.
#[verifier::ext_equal]
pub struct BDecisionModel {
    /// What it costs.
    pub cost: int,
    /// How it is divided.
    pub macroblock_type: u8,
    /// Whether all motion is derived.
    pub direct: bool,
    /// How its quarters are divided.
    pub sub_macroblock_types: Seq<u8>,
    /// Its parts.
    pub partitions: Seq<BSelectedPartition>,
    /// Its prediction.
    pub prediction: Samples,
}

/// A macroblock whose quarters are divided on their own.
#[verifier::ext_equal]
pub struct BQuartersModel {
    /// What is chosen so far.
    pub trial: BTrialModel,
    /// How the quarters so far are divided.
    pub kinds: Seq<u8>,
    /// What it costs so far.
    pub cost: int,
}

impl BModel {
    /// The number of the macroblock, row by row.
    pub open spec fn address(self) -> int {
        self.y * self.wide + self.x
    }

    /// The search for the motion of a part.
    pub open spec fn search(
        self,
        reference: Samples,
        partition: InterPartition,
        predicted: MotionVector,
    ) -> SearchModel {
        SearchModel {
            source: self.source.luma,
            reference: luma_reference(reference, self.wide, self.high),
            x: self.x * 16 + partition.block_x * 4,
            y: self.y * 16 + partition.block_y * 4,
            width: partition.block_width * 4,
            height: partition.block_height * 4,
            predicted,
            range: self.search_range,
        }
    }

    /// The motion that is found for a part in one of the pictures.
    pub open spec fn chosen(
        self,
        reference: Samples,
        motions: Seq<Seq<Option<MotionState>>>,
        row: Seq<Option<MotionState>>,
        partition: InterPartition,
        analysis: AnalysisPreset,
    ) -> SelectedPartition {
        let predicted = predicted_vector(motions, row, self.address(), self.wide, partition, 0);
        SelectedPartition {
            partition,
            predicted,
            motion: self.search(reference, partition, predicted).found(analysis),
            reference_index: 0,
        }
    }

    /// The motions that are found for a part.
    pub open spec fn part_chosen(
        self,
        trial: BTrialModel,
        part: DirectedPart,
        analysis: AnalysisPreset,
    ) -> BSelectedPartition {
        BSelectedPartition {
            list0: if part.direction.earlier() {
                Some(
                    self.chosen(
                        self.previous.planes,
                        self.motions_l0,
                        trial.motions_l0,
                        part.partition,
                        analysis,
                    ),
                )
            } else {
                None
            },
            list1: if part.direction.later() {
                Some(
                    self.chosen(
                        self.future.planes,
                        self.motions_l1,
                        trial.motions_l1,
                        part.partition,
                        analysis,
                    ),
                )
            } else {
                None
            },
            direct: false,
        }
    }

    /// A trial after a part with its motions is added.
    pub open spec fn with_selected(
        self,
        trial: BTrialModel,
        selected: BSelectedPartition,
    ) -> BTrialModel {
        BTrialModel {
            motions_l0: with_partition(
                trial.motions_l0,
                selected.part(),
                b_state(selected.list0),
            ),
            motions_l1: with_partition(
                trial.motions_l1,
                selected.part(),
                b_state(selected.list1),
            ),
            prediction: with_b_prediction(
                trial.prediction,
                self.previous.planes,
                self.future.planes,
                self.wide,
                self.high,
                self.x,
                self.y,
                selected,
            ),
            rate: trial.rate + selected_rate(selected.list0) + selected_rate(selected.list1),
            both: trial.both + crate::math::unit(
                selected.list0 is Some && selected.list1 is Some,
            ),
            selected: trial.selected.push(selected),
        }
    }

    /// A trial after the first `count` of some parts.
    pub open spec fn with_parts(
        self,
        trial: BTrialModel,
        parts: Seq<DirectedPart>,
        analysis: AnalysisPreset,
        count: int,
    ) -> BTrialModel
        decreases count,
    {
        if count <= 0 {
            trial
        } else {
            let before = self.with_parts(trial, parts, analysis, count - 1);
            self.with_selected(before, self.part_chosen(before, parts[count - 1], analysis))
        }
    }

    /// A trial of which nothing is chosen yet.
    pub open spec fn fresh(self) -> BTrialModel {
        BTrialModel {
            motions_l0: self.motions_l0[self.address()],
            motions_l1: self.motions_l1[self.address()],
            prediction: no_prediction(),
            rate: 0,
            both: 0,
            selected: Seq::empty(),
        }
    }

    /// How far the source is from a prediction.
    pub open spec fn distance(self, prediction: Seq<u8>) -> int {
        block_distance(
            self.source.luma,
            16 * self.wide,
            self.x * 16,
            self.y * 16,
            16,
            prediction,
        )
    }

    /// A macroblock of a type from one to twenty-one.
    #[verifier::opaque]
    pub open spec fn shaped(self, macroblock_type: int, analysis: AnalysisPreset) -> BDecisionModel {
        let parts = directed_parts(macroblock_type);
        let trial = self.with_parts(self.fresh(), parts, analysis, parts.len() as int);
        BDecisionModel {
            cost: self.distance(trial.prediction.luma) + trial.rate * 2 + (parts.len() - 1) * 16
                + trial.both * 4,
            macroblock_type: macroblock_type as u8,
            direct: false,
            sub_macroblock_types: seq![0u8, 0u8, 0u8, 0u8],
            partitions: trial.selected,
            prediction: trial.prediction,
        }
    }

    /// The motions that neighbours or a later picture imply for a quarter.
    #[verifier::opaque]
    pub open spec fn direct_part(self, quarter: int) -> Option<BSelectedPartition> {
        match self.direct_mode {
            BDirectMode::Spatial => Some(
                spatial_part(
                    spatial_vectors(
                        self.motions_l0,
                        self.motions_l1,
                        self.address(),
                        self.wide,
                    ),
                    self.future,
                    self.address(),
                    direct_quarter(quarter),
                ),
            ),
            BDirectMode::Temporal => temporal_part(
                self.previous,
                self.future,
                self.address(),
                direct_quarter(quarter),
                self.picture_order_count,
            ),
        }
    }

    /// A trial after the derived motions of the first `count` quarters are added.
    pub open spec fn with_direct(self, count: int) -> Option<BTrialModel>
        decreases count,
    {
        if count <= 0 {
            Some(self.fresh())
        } else {
            match (self.with_direct(count - 1), self.direct_part(count - 1)) {
                (Some(trial), Some(selected)) => Some(self.with_selected(trial, selected)),
                _ => None,
            }
        }
    }

    /// A macroblock all of whose motion is derived.
    #[verifier::opaque]
    pub open spec fn direct(self) -> Option<BDecisionModel> {
        match self.with_direct(4) {
            Some(trial) => Some(
                BDecisionModel {
                    cost: self.distance(trial.prediction.luma),
                    macroblock_type: 0,
                    direct: true,
                    sub_macroblock_types: seq![0u8, 0u8, 0u8, 0u8],
                    partitions: trial.selected,
                    prediction: trial.prediction,
                },
            ),
            None => None,
        }
    }

    /// A trial in which a quarter is divided in some way; type zero derives its motion.
    pub open spec fn quarter_trial(self, before: BTrialModel, quarter: int, kind: int) -> BTrialModel {
        let start = BTrialModel { rate: 0, both: 0, selected: Seq::empty(), ..before };
        if kind == 0 {
            self.with_selected(start, self.direct_part(quarter)->Some_0)
        } else {
            let parts = directed_quarter_parts(quarter, kind);
            self.with_parts(start, parts, AnalysisPreset::Full, parts.len() as int)
        }
    }

    /// What it costs to divide a quarter in some way.
    pub open spec fn quarter_cost(self, before: BTrialModel, quarter: int, kind: int) -> int {
        let trial = self.quarter_trial(before, quarter, kind);
        quarter_distance(
            self.source.luma,
            16 * self.wide,
            self.x * 16,
            self.y * 16,
            trial.prediction.luma,
            quarter,
        ) + if kind == 0 {
            0
        } else {
            trial.rate * 2 + (directed_quarter_parts(quarter, kind).len() - 1) * 8 + trial.both * 4
        }
    }

    /// The first of the ways below `count` to divide a quarter that costs least.
    pub open spec fn quarter_kind(self, before: BTrialModel, quarter: int, count: int) -> int
        decreases count,
    {
        if count <= 1 {
            if self.direct_part(quarter) is Some {
                0
            } else {
                1
            }
        } else {
            let earlier = self.quarter_kind(before, quarter, count - 1);
            if self.quarter_cost(before, quarter, count - 1) < self.quarter_cost(
                before,
                quarter,
                earlier,
            ) {
                count - 1
            } else {
                earlier
            }
        }
    }

    /// A macroblock after its first `count` quarters are divided.
    pub open spec fn quartered(self, count: int) -> BQuartersModel
        decreases count,
    {
        if count <= 0 {
            BQuartersModel { trial: self.fresh(), kinds: Seq::empty(), cost: 32 }
        } else {
            let before = self.quartered(count - 1);
            let kind = self.quarter_kind(before.trial, count - 1, 13);
            let trial = self.quarter_trial(before.trial, count - 1, kind);
            BQuartersModel {
                trial: BTrialModel {
                    rate: 0,
                    both: 0,
                    selected: before.trial.selected + trial.selected,
                    ..trial
                },
                kinds: before.kinds.push(kind as u8),
                cost: before.cost + self.quarter_cost(before.trial, count - 1, kind),
            }
        }
    }

    /// A macroblock whose quarters are divided on their own.
    #[verifier::opaque]
    pub open spec fn quarters(self) -> BDecisionModel {
        let end = self.quartered(4);
        BDecisionModel {
            cost: end.cost,
            macroblock_type: 22,
            direct: false,
            sub_macroblock_types: end.kinds,
            partitions: end.trial.selected,
            prediction: end.trial.prediction,
        }
    }

    /// The cheapest macroblock of the types from one to `count`.
    pub open spec fn best_shaped(self, analysis: AnalysisPreset, count: int) -> BDecisionModel
        decreases count,
    {
        if count <= 1 {
            self.shaped(1, analysis)
        } else {
            b_cheaper(self.best_shaped(analysis, count - 1), self.shaped(count, analysis))
        }
    }

    /// How a macroblock is predicted.
    #[verifier::opaque]
    pub open spec fn decided(self, analysis: AnalysisPreset) -> BDecisionModel {
        match analysis {
            AnalysisPreset::Fast => match self.direct() {
                Some(direct) => if direct.cost <= 4096 {
                    direct
                } else {
                    b_cheaper(direct, self.best_shaped(analysis, 3))
                },
                None => self.best_shaped(analysis, 3),
            },
            AnalysisPreset::Full => {
                let coded = b_cheaper(self.best_shaped(analysis, 21), self.quarters());
                match self.direct() {
                    Some(direct) => b_cheaper(direct, coded),
                    None => coded,
                }
            },
        }
    }
}

/// The cheaper one of two decisions, the first one if they cost the same.
pub open spec fn b_cheaper(first: BDecisionModel, second: BDecisionModel) -> BDecisionModel {
    if second.cost < first.cost {
        second
    } else {
        first
    }
}

/// How a macroblock is predicted from an earlier and a later picture.
#[derive(Debug)]
pub struct BInterDecision {
    /// How it is divided.
    pub macroblock_type: u8,
    /// Whether all motion is derived.
    pub direct: bool,
    /// How its quarters are divided.
    pub sub_macroblock_types: [u8; 4],
    /// Its parts.
    pub partitions: Vec<BSelectedPartition>,
    /// Its prediction.
    pub prediction: Planes,
}

impl BInterDecision {
    /// The decision with its cost.
    pub open spec fn model(&self, cost: int) -> BDecisionModel {
        BDecisionModel {
            cost,
            macroblock_type: self.macroblock_type,
            direct: self.direct,
            sub_macroblock_types: self.sub_macroblock_types@,
            partitions: self.partitions@,
            prediction: self.prediction@,
        }
    }

    /// Whether the decision is in order.
    pub open spec fn valid(&self) -> bool {
        &&& self.macroblock_type <= 22
        &&& 1 <= self.partitions@.len() <= 16
        &&& all_b_fit(self.partitions@)
        &&& macroblock_sized(self.prediction@)
        &&& forall|q: int| 0 <= q < 4 ==> #[trigger] self.sub_macroblock_types@[q] <= 12
    }
}

impl<'a> BSite<'a> {
    /// The number of the macroblock, row by row.
    fn address(&self) -> (address: usize)
        requires
            self.valid(),
        ensures
            address == self@.address(),
            address < self.motions_l0@.len(),
    {
        proof {
            lemma_macroblock_inside(
                self.wide as int,
                self.high as int,
                self.x as int,
                self.y as int,
                16,
            );
            assert(0 <= self.y * self.wide) by (nonlinear_arith);
        }
        self.y * self.wide + self.x
    }

    /// Predicts the luma samples of a part, if there is a vector.
    fn predict_luma(&self, samples: &[u8], partition: InterPartition, vector: Option<MotionVector>) -> (
        result: Option<Vec<u8>>)
        requires
            self.valid(),
            samples@.len() == (16 * self.wide) * (16 * self.high),
            partition.inside(),
            vector matches Some(motion) ==> vector_fits(motion),
        ensures
            sample_view(result) == luma_part(
                ReferenceModel {
                    samples: samples@,
                    width: 16 * self.wide as int,
                    height: 16 * self.high as int,
                },
                self.x as int,
                self.y as int,
                partition,
                vector,
            ),
            result matches Some(found) ==> found@.len() == (partition.block_width * 4) * (
            partition.block_height * 4),
            result is Some == vector is Some,
    {
        match vector {
            Some(motion) => {
                let plane = ReferencePlane {
                    samples,
                    width: self.wide * 16,
                    height: self.high * 16,
                };
                Some(predict_luma_samples(&plane, self.x, self.y, partition, motion))
            },
            None => None,
        }
    }

    /// Predicts the chroma samples of a part, if there is a vector.
    fn predict_chroma(
        &self,
        samples: &[u8],
        partition: InterPartition,
        vector: Option<MotionVector>,
    ) -> (result: Option<Vec<u8>>)
        requires
            self.valid(),
            samples@.len() == (8 * self.wide) * (8 * self.high),
            partition.inside(),
            vector matches Some(motion) ==> vector_fits(motion),
        ensures
            sample_view(result) == chroma_part(
                chroma_reference(samples@, self.wide as int, self.high as int),
                self.x as int,
                self.y as int,
                partition,
                vector,
            ),
            result matches Some(found) ==> found@.len() == (partition.block_width * 2) * (
            partition.block_height * 2),
            result is Some == vector is Some,
    {
        match vector {
            Some(motion) => {
                let plane = ReferencePlane {
                    samples,
                    width: self.wide * 8,
                    height: self.high * 8,
                };
                Some(predict_chroma_samples(&plane, self.x, self.y, partition, motion))
            },
            None => None,
        }
    }

    /// Predicts a part of the macroblock.
    fn place_selected_b_prediction(&self, prediction: &mut Planes, selected: BSelectedPartition)
        requires
            self.valid(),
            selected.fits(),
            macroblock_sized(old(prediction)@),
        ensures
            macroblock_sized(final(prediction)@),
            final(prediction)@ == with_b_prediction(
                old(prediction)@,
                self@.previous.planes,
                self@.future.planes,
                self.wide as int,
                self.high as int,
                self.x as int,
                self.y as int,
                selected,
            ),
    {
        reveal(with_b_prediction);
        let partition: InterPartition = selected.partition();
        let earlier: Option<MotionVector> = match selected.list0 {
            Some(found) => Some(found.motion),
            None => None,
        };
        let later: Option<MotionVector> = match selected.list1 {
            Some(found) => Some(found.motion),
            None => None,
        };
        let across: usize = partition.block_width * 4;
        let down: usize = partition.block_height * 4;
        assert(0 <= across * down <= 256) by (nonlinear_arith)
            requires
                0 <= across <= 16,
                0 <= down <= 16,
        ;
        let half_across: usize = partition.block_width * 2;
        let half_down: usize = partition.block_height * 2;
        assert(0 <= half_across * half_down <= 64) by (nonlinear_arith)
            requires
                0 <= half_across <= 8,
                0 <= half_down <= 8,
        ;
        let luma: Vec<u8> = mix(
            self.predict_luma(self.previous.planes.luma.as_slice(), partition, earlier),
            self.predict_luma(self.future.planes.luma.as_slice(), partition, later),
            across * down,
        );
        place_region(
            prediction.luma.as_mut_slice(),
            16,
            partition.block_x * 4,
            partition.block_y * 4,
            across,
            down,
            luma.as_slice(),
        );
        let cb: Vec<u8> = mix(
            self.predict_chroma(self.previous.planes.cb.as_slice(), partition, earlier),
            self.predict_chroma(self.future.planes.cb.as_slice(), partition, later),
            half_across * half_down,
        );
        place_region(
            prediction.cb.as_mut_slice(),
            8,
            partition.block_x * 2,
            partition.block_y * 2,
            half_across,
            half_down,
            cb.as_slice(),
        );
        let cr: Vec<u8> = mix(
            self.predict_chroma(self.previous.planes.cr.as_slice(), partition, earlier),
            self.predict_chroma(self.future.planes.cr.as_slice(), partition, later),
            half_across * half_down,
        );
        place_region(
            prediction.cr.as_mut_slice(),
            8,
            partition.block_x * 2,
            partition.block_y * 2,
            half_across,
            half_down,
            cr.as_slice(),
        );
    }

    /// Finds the motion of a part in one of the pictures.
    fn select_b_partition_motion(
        &self,
        reference: &Planes,
        motions: &[BlockMotions],
        row: &BlockMotions,
        partition: InterPartition,
        analysis: AnalysisPreset,
    ) -> (selected: SelectedPartition)
        requires
            self.valid(),
            predictable(reference@, self.wide as int, self.high as int),
            motions@.len() == self.wide * self.high,
            motions_fit(rows(motions@)),
            row_fits(row@),
            part_sized(partition),
        ensures
            selected == self@.chosen(reference@, rows(motions@), row@, partition, analysis),
            vector_fits(selected.motion),
            vector_fits(selected.predicted),
            selected.partition == partition,
    {
        let address: usize = self.address();
        proof {
            lemma_macroblock_inside(
                self.wide as int,
                self.high as int,
                self.x as int,
                self.y as int,
                16,
            );
        }
        let predicted: MotionVector = partition_motion_predictor_with_current(
            row,
            motions,
            address,
            self.wide,
            partition,
            0,
        );
        let search = MotionSearch {
            source: self.source.luma.as_slice(),
            reference: ReferencePlane {
                samples: reference.luma.as_slice(),
                width: self.wide * 16,
                height: self.high * 16,
            },
            x: self.x * 16 + partition.block_x * 4,
            y: self.y * 16 + partition.block_y * 4,
            width: partition.block_width * 4,
            height: partition.block_height * 4,
            predicted,
            range: self.search_range,
        };
        assert(search@ == self@.search(reference@, partition, predicted));
        let motion: MotionVector = search.estimate_partition_motion(analysis);
        SelectedPartition { partition, predicted, motion, reference_index: 0 }
    }

    /// Finds the motions of a part.
    fn choose_part(&self, trial: &BTrial, part: &DirectedPart, analysis: AnalysisPreset) -> (selected:
        BSelectedPartition)
        requires
            self.valid(),
            trial.valid(),
            part_sized(part.partition),
        ensures
            selected == self@.part_chosen(trial@, *part, analysis),
            selected.fits(),
            selected.part() == part.partition,
    {
        let list0: Option<SelectedPartition> = if part.direction.uses_l0() {
            Some(
                self.select_b_partition_motion(
                    &self.previous.planes,
                    self.motions_l0,
                    &trial.motions_l0,
                    part.partition,
                    analysis,
                ),
            )
        } else {
            None
        };
        let list1: Option<SelectedPartition> = if part.direction.uses_l1() {
            Some(
                self.select_b_partition_motion(
                    &self.future.planes,
                    self.motions_l1,
                    &trial.motions_l1,
                    part.partition,
                    analysis,
                ),
            )
        } else {
            None
        };
        BSelectedPartition { list0, list1, direct: false }
    }

    /// Adds a part with its motions to a trial.
    fn add_selected(&self, trial: &mut BTrial, selected: BSelectedPartition)
        requires
            self.valid(),
            old(trial).valid(),
            old(trial).selected@.len() < 16,
            selected.fits(),
        ensures
            final(trial).valid(),
            final(trial)@ == self@.with_selected(old(trial)@, selected),
            final(trial).selected@.len() == old(trial).selected@.len() + 1,
    {
        let partition: InterPartition = selected.partition();
        self.place_selected_b_prediction(&mut trial.prediction, selected);
        let mut rate: u64 = 0;
        if let Some(found) = selected.list0 {
            rate = rate + motion_difference_rate(found.motion, found.predicted);
        }
        if let Some(found) = selected.list1 {
            rate = rate + motion_difference_rate(found.motion, found.predicted);
        }
        set_partition_motion(&mut trial.motions_l0, partition, b_motion_state(selected.list0));
        set_partition_motion(&mut trial.motions_l1, partition, b_motion_state(selected.list1));
        trial.rate = trial.rate + rate;
        if selected.list0.is_some() && selected.list1.is_some() {
            trial.both = trial.both + 1;
        }
        trial.selected.push(selected);
    }

    /// Adds parts with the motions that are found for them to a trial.
    fn try_parts(&self, trial: &mut BTrial, parts: &[DirectedPart], analysis: AnalysisPreset)
        requires
            self.valid(),
            old(trial).valid(),
            directed_inside(parts@),
            old(trial).selected@.len() + parts@.len() <= 16,
        ensures
            final(trial).valid(),
            final(trial)@ == self@.with_parts(
                old(trial)@,
                parts@,
                analysis,
                parts@.len() as int,
            ),
            final(trial).selected@.len() == old(trial).selected@.len() + parts@.len(),
    {
        let mut i: usize = 0;
        while i < parts.len()
            invariant
                i <= parts@.len(),
                self.valid(),
                trial.valid(),
                directed_inside(parts@),
                old(trial).selected@.len() + parts@.len() <= 16,
                trial.selected@.len() == old(trial).selected@.len() + i,
                trial@ == self@.with_parts(old(trial)@, parts@, analysis, i as int),
            decreases parts@.len() - i,
        {
            assert(part_sized(parts@[i as int].partition));
            let selected: BSelectedPartition = self.choose_part(trial, &parts[i], analysis);
            self.add_selected(trial, selected);
            i = i + 1;
        }
    }

    /// A trial of which nothing is chosen yet.
    fn start_trial(&self) -> (trial: BTrial)
        requires
            self.valid(),
        ensures
            trial@ == self@.fresh(),
            trial.valid(),
            trial.selected@.len() == 0,
    {
        let address: usize = self.address();
        let ghost l0 = rows(self.motions_l0@);
        let ghost l1 = rows(self.motions_l1@);
        assert(l0[address as int] == self.motions_l0@[address as int]@);
        assert(l1[address as int] == self.motions_l1@[address as int]@);
        let trial = BTrial {
            motions_l0: self.motions_l0[address],
            motions_l1: self.motions_l1[address],
            prediction: blank_prediction(),
            rate: 0,
            both: 0,
            selected: Vec::new(),
        };
        assert(trial.selected@ =~= Seq::<BSelectedPartition>::empty());
        trial
    }

    /// Measures how far the source is from a prediction.
    fn measure(&self, prediction: &[u8]) -> (sad: u64)
        requires
            self.valid(),
            prediction@.len() == 256,
        ensures
            sad == self@.distance(prediction@),
            sad <= 65280,
    {
        proof {
            lemma_macroblock_inside(
                self.wide as int,
                self.high as int,
                self.x as int,
                self.y as int,
                16,
            );
        }
        block_sad(
            self.source.luma.as_slice(),
            self.wide * 16,
            self.x * 16,
            self.y * 16,
            16,
            prediction,
        )
    }

    /// Tries a macroblock of a type from one to twenty-one.
    fn try_shape(&self, macroblock_type: u8, analysis: AnalysisPreset) -> (decision: (
        u64,
        BInterDecision,
    ))
        requires
            self.valid(),
            1 <= macroblock_type <= 21,
        ensures
            decision.1.model(decision.0 as int) == self@.shaped(macroblock_type as int, analysis),
            decision.1.valid(),
            decision.0 <= 0x10_0000_0000,
    {
        reveal(BModel::shaped);
        let parts: Vec<DirectedPart> = b_inter_partitions(macroblock_type);
        let mut trial: BTrial = self.start_trial();
        self.try_parts(&mut trial, parts.as_slice(), analysis);
        let sad: u64 = self.measure(trial.prediction.luma.as_slice());
        let cost: u64 = sad + trial.rate * 2 + (parts.len() as u64 - 1) * 16 + trial.both * 4;
        let decision = BInterDecision {
            macroblock_type,
            direct: false,
            sub_macroblock_types: [0u8; 4],
            partitions: trial.selected,
            prediction: trial.prediction,
        };
        assert(decision.sub_macroblock_types@ =~= seq![0u8, 0u8, 0u8, 0u8]);
        (cost, decision)
    }

    /// The motions that neighbours or a later picture imply for a quarter.
    fn derive_part(&self, quarter: usize) -> (result: Option<BSelectedPartition>)
        requires
            self.valid(),
            quarter < 4,
        ensures
            result == self@.direct_part(quarter as int),
            result matches Some(selected) ==> selected.fits(),
    {
        reveal(BModel::direct_part);
        let address: usize = self.address();
        let partition: InterPartition = direct_8x8_partition(quarter);
        match self.direct_mode {
            BDirectMode::Spatial => {
                let vectors: (IndexedVector, IndexedVector) = spatial_direct_motion(
                    self.motions_l0,
                    self.motions_l1,
                    address,
                    self.wide,
                );
                Some(spatial_direct_partition(vectors, self.future, address, partition))
            },
            BDirectMode::Temporal => temporal_direct_partition(
                self.previous,
                self.future,
                address,
                partition,
                self.picture_order_count,
            ),
        }
    }

    /// Tries a macroblock all of whose motion is derived.
    pub fn select_direct_b_prediction(&self) -> (decision: Option<(u64, BInterDecision)>)
        requires
            self.valid(),
        ensures
            match decision {
                Some(found) => self@.direct() == Some(found.1.model(found.0 as int))
                    && found.1.valid() && found.0 <= 65280,
                None => self@.direct() is None,
            },
    {
        reveal(BModel::direct);
        let mut trial: BTrial = self.start_trial();
        let mut quarter: usize = 0;
        while quarter < 4
            invariant
                quarter <= 4,
                self.valid(),
                trial.valid(),
                trial.selected@.len() == quarter,
                self@.with_direct(quarter as int) == Some(trial@),
            decreases 4 - quarter,
        {
            match self.derive_part(quarter) {
                Some(selected) => {
                    self.add_selected(&mut trial, selected);
                },
                None => {
                    proof {
                        self.lemma_no_direct(quarter as int);
                    }
                    return None;
                },
            }
            quarter = quarter + 1;
        }
        let cost: u64 = self.measure(trial.prediction.luma.as_slice());
        let decision = BInterDecision {
            macroblock_type: 0,
            direct: true,
            sub_macroblock_types: [0u8; 4],
            partitions: trial.selected,
            prediction: trial.prediction,
        };
        assert(decision.sub_macroblock_types@ =~= seq![0u8, 0u8, 0u8, 0u8]);
        Some((cost, decision))
    }

    /// Without the motion of one quarter the motion of the macroblock is not derived.
    proof fn lemma_no_direct(&self, quarter: int)
        requires
            0 <= quarter < 4,
            self@.direct_part(quarter) is None,
        ensures
            self@.direct() is None,
    {
        reveal(BModel::direct);
        let model = self@;
        assert(model.with_direct(quarter + 1) is None);
        if quarter + 1 < 4 {
            assert(model.with_direct(quarter + 2) is None);
        }
        if quarter + 2 < 4 {
            assert(model.with_direct(quarter + 3) is None);
        }
        if quarter + 3 < 4 {
            assert(model.with_direct(quarter + 4) is None);
        }
    }
}

/// A macroblock some of whose quarters are divided.
struct BQuarters {
    /// The motions of its blocks so far from the earlier picture.
    motions_l0: BlockMotions,
    /// The motions of its blocks so far from the later picture.
    motions_l1: BlockMotions,
    /// Its prediction so far.
    prediction: Planes,
    /// The parts so far.
    selected: Vec<BSelectedPartition>,
    /// How the quarters are divided.
    kinds: [u8; 4],
    /// What it costs so far.
    cost: u64,
}

impl BQuarters {
    /// What is chosen so far.
    spec fn trial(&self) -> BTrialModel {
        BTrialModel {
            motions_l0: self.motions_l0@,
            motions_l1: self.motions_l1@,
            prediction: self.prediction@,
            rate: 0,
            both: 0,
            selected: self.selected@,
        }
    }

    /// Whether the first `count` quarters are divided and everything is in order.
    spec fn valid(&self, count: int) -> bool {
        &&& row_fits(self.motions_l0@)
        &&& row_fits(self.motions_l1@)
        &&& macroblock_sized(self.prediction@)
        &&& all_b_fit(self.selected@)
        &&& count <= self.selected@.len() <= 4 * count
        &&& self.cost <= 32 + 0x1_0000_0000 * count
        &&& forall|q: int| 0 <= q < 4 ==> #[trigger] self.kinds@[q] <= 12
    }

    /// Whether the first `count` quarters are divided as the model says.
    spec fn holds(&self, model: BQuartersModel, count: int) -> bool {
        &&& model.trial == self.trial()
        &&& model.cost == self.cost
        &&& model.kinds.len() == count
        &&& forall|q: int| 0 <= q < count ==> #[trigger] self.kinds@[q] == model.kinds[q]
    }
}

impl<'a> BSite<'a> {
    /// A trial that starts from the quarters so far.
    fn start_quarter(&self, quarters: &BQuarters) -> (trial: BTrial)
        requires
            self.valid(),
            row_fits(quarters.motions_l0@),
            row_fits(quarters.motions_l1@),
            macroblock_sized(quarters.prediction@),
        ensures
            trial@ == (BTrialModel {
                rate: 0,
                both: 0,
                selected: Seq::empty(),
                ..quarters.trial()
            }),
            trial.valid(),
            trial.selected@.len() == 0,
    {
        let trial = BTrial {
            motions_l0: quarters.motions_l0,
            motions_l1: quarters.motions_l1,
            prediction: quarters.prediction.clone(),
            rate: 0,
            both: 0,
            selected: Vec::new(),
        };
        assert(trial.selected@ =~= Seq::<BSelectedPartition>::empty());
        trial
    }

    /// Measures how far the source is from a prediction in one quarter.
    fn measure_quarter(&self, prediction: &[u8], quarter: usize) -> (sad: u64)
        requires
            self.valid(),
            prediction@.len() == 256,
            quarter < 4,
        ensures
            sad == quarter_distance(
                self@.source.luma,
                16 * self@.wide,
                self@.x * 16,
                self@.y * 16,
                prediction@,
                quarter as int,
            ),
            sad <= 16320,
    {
        proof {
            lemma_macroblock_inside(
                self.wide as int,
                self.high as int,
                self.x as int,
                self.y as int,
                16,
            );
        }
        prediction_region_sad(
            self.source.luma.as_slice(),
            self.wide * 16,
            self.x * 16,
            self.y * 16,
            prediction,
            quarter,
        )
    }

    /// Tries to divide a quarter in some way, and says what it costs.
    fn try_quarter(&self, quarters: &BQuarters, quarter: usize, kind: u8) -> (result: (u64, BTrial))
        requires
            self.valid(),
            quarters.valid(quarter as int),
            quarter < 4,
            1 <= kind <= 12,
        ensures
            result.1@ == self@.quarter_trial(quarters.trial(), quarter as int, kind as int),
            result.0 == self@.quarter_cost(quarters.trial(), quarter as int, kind as int),
            result.1.valid(),
            1 <= result.1.selected@.len() <= 4,
            result.0 <= 0x1_0000_0000,
    {
        let parts: Vec<DirectedPart> = b_sub_partitions(quarter, kind);
        let mut trial: BTrial = self.start_quarter(quarters);
        self.try_parts(&mut trial, parts.as_slice(), AnalysisPreset::Full);
        let sad: u64 = self.measure_quarter(trial.prediction.luma.as_slice(), quarter);
        let cost: u64 = sad + (trial.rate * 2 + (parts.len() as u64 - 1) * 8 + trial.both * 4);
        (cost, trial)
    }

    /// Tries to derive the motion of a quarter, and says what it costs.
    fn try_direct_quarter(&self, quarters: &BQuarters, quarter: usize) -> (result: Option<
        (u64, BTrial),
    >)
        requires
            self.valid(),
            quarters.valid(quarter as int),
            quarter < 4,
        ensures
            match result {
                Some(found) => {
                    &&& self@.direct_part(quarter as int) is Some
                    &&& found.1@ == self@.quarter_trial(quarters.trial(), quarter as int, 0)
                    &&& found.0 == self@.quarter_cost(quarters.trial(), quarter as int, 0)
                    &&& found.1.valid()
                    &&& found.1.selected@.len() == 1
                    &&& found.0 <= 0x1_0000_0000
                },
                None => self@.direct_part(quarter as int) is None,
            },
    {
        match self.derive_part(quarter) {
            Some(selected) => {
                let mut trial: BTrial = self.start_quarter(quarters);
                self.add_selected(&mut trial, selected);
                let cost: u64 = self.measure_quarter(trial.prediction.luma.as_slice(), quarter);
                Some((cost, trial))
            },
            None => None,
        }
    }

    /// Finds the cheapest way to divide a quarter.
    fn best_quarter(&self, quarters: &BQuarters, quarter: usize) -> (result: (u8, u64, BTrial))
        requires
            self.valid(),
            quarters.valid(quarter as int),
            quarter < 4,
        ensures
            result.0 == self@.quarter_kind(quarters.trial(), quarter as int, 13),
            result.0 <= 12,
            result.2@ == self@.quarter_trial(quarters.trial(), quarter as int, result.0 as int),
            result.1 == self@.quarter_cost(quarters.trial(), quarter as int, result.0 as int),
            result.2.valid(),
            1 <= result.2.selected@.len() <= 4,
            result.1 <= 0x1_0000_0000,
    {
        let mut best: (u8, u64, BTrial) = match self.try_direct_quarter(quarters, quarter) {
            Some((cost, trial)) => (0, cost, trial),
            None => {
                let (cost, trial) = self.try_quarter(quarters, quarter, 1);
                (1, cost, trial)
            },
        };
        let mut kind: u8 = 1;
        while kind <= 12
            invariant
                1 <= kind <= 13,
                self.valid(),
                quarters.valid(quarter as int),
                quarter < 4,
                best.0 == self@.quarter_kind(quarters.trial(), quarter as int, kind as int),
                best.0 <= 12,
                best.2@ == self@.quarter_trial(quarters.trial(), quarter as int, best.0 as int),
                best.1 == self@.quarter_cost(quarters.trial(), quarter as int, best.0 as int),
                best.2.valid(),
                1 <= best.2.selected@.len() <= 4,
                best.1 <= 0x1_0000_0000,
            decreases 13 - kind,
        {
            let (cost, trial) = self.try_quarter(quarters, quarter, kind);
            if cost < best.1 {
                best = (kind, cost, trial);
            }
            kind = kind + 1;
        }
        best
    }

    /// Tries a macroblock whose quarters are divided on their own.
    pub fn select_b8x8_partitions(&self) -> (decision: (u64, BInterDecision))
        requires
            self.valid(),
        ensures
            decision.1.model(decision.0 as int) == self@.quarters(),
            decision.1.valid(),
            decision.0 <= 0x10_0000_0000,
    {
        reveal(BModel::quarters);
        let start: BTrial = self.start_trial();
        let mut quarters = BQuarters {
            motions_l0: start.motions_l0,
            motions_l1: start.motions_l1,
            prediction: start.prediction,
            selected: start.selected,
            kinds: [1u8; 4],
            cost: 32,
        };
        let mut quarter: usize = 0;
        while quarter < 4
            invariant
                quarter <= 4,
                self.valid(),
                quarters.valid(quarter as int),
                quarters.holds(self@.quartered(quarter as int), quarter as int),
            decreases 4 - quarter,
        {
            let ghost before = self@.quartered(quarter as int);
            let (kind, cost, trial) = self.best_quarter(&quarters, quarter);
            let ghost old_selected = quarters.selected@;
            let ghost new_selected = trial.selected@;
            let mut chosen: Vec<BSelectedPartition> = trial.selected;
            quarters.selected.append(&mut chosen);
            quarters.motions_l0 = trial.motions_l0;
            quarters.motions_l1 = trial.motions_l1;
            quarters.prediction = trial.prediction;
            quarters.kinds[quarter] = kind;
            quarters.cost = quarters.cost + cost;
            proof {
                let after = self@.quartered(quarter + 1);
                assert(quarters.selected@ =~= old_selected + new_selected);
                assert(after.trial.selected == old_selected + new_selected);
                assert(after.kinds == before.kinds.push(kind));
                assert forall|i: int| 0 <= i < quarters.selected@.len() implies (
                #[trigger] quarters.selected@[i]).fits() by {
                    if i < old_selected.len() {
                        assert(quarters.selected@[i] == old_selected[i]);
                    } else {
                        assert(quarters.selected@[i] == new_selected[i - old_selected.len()]);
                    }
                }
            }
            quarter = quarter + 1;
        }
        let decision = BInterDecision {
            macroblock_type: 22,
            direct: false,
            sub_macroblock_types: quarters.kinds,
            partitions: quarters.selected,
            prediction: quarters.prediction,
        };
        assert(decision.sub_macroblock_types@ =~= self@.quartered(4).kinds);
        (quarters.cost, decision)
    }

    /// Finds the cheapest macroblock of the types from one to `count`.
    fn best_shape(&self, analysis: AnalysisPreset, count: u8) -> (decision: (u64, BInterDecision))
        requires
            self.valid(),
            1 <= count <= 21,
        ensures
            decision.1.model(decision.0 as int) == self@.best_shaped(analysis, count as int),
            decision.1.valid(),
            decision.0 <= 0x10_0000_0000,
    {
        let mut best: (u64, BInterDecision) = self.try_shape(1, analysis);
        let mut kind: u8 = 2;
        while kind <= count
            invariant
                2 <= kind <= count + 1,
                count <= 21,
                self.valid(),
                best.1.model(best.0 as int) == self@.best_shaped(analysis, kind - 1),
                best.1.valid(),
                best.0 <= 0x10_0000_0000,
            decreases count + 1 - kind,
        {
            let found: (u64, BInterDecision) = self.try_shape(kind, analysis);
            if found.0 < best.0 {
                best = found;
            }
            kind = kind + 1;
        }
        best
    }

    /// Chooses how a macroblock is predicted.
    pub fn select_b_inter_partitions_with_analysis(&self, analysis: AnalysisPreset) -> (decision:
        BInterDecision)
        requires
            self.valid(),
        ensures
            decision.valid(),
            decision.model(self@.decided(analysis).cost) == self@.decided(analysis),
    {
        reveal(BModel::decided);
        let direct: Option<(u64, BInterDecision)> = self.select_direct_b_prediction();
        let best: (u64, BInterDecision) = match analysis {
            AnalysisPreset::Fast => {
                if let Some(found) = &direct {
                    if found.0 <= 4096 {
                        return match direct {
                            Some(found) => found.1,
                            None => self.best_shape(analysis, 3).1,
                        };
                    }
                }
                self.best_shape(analysis, 3)
            },
            AnalysisPreset::Full => {
                let shaped: (u64, BInterDecision) = self.best_shape(analysis, 21);
                let quarters: (u64, BInterDecision) = self.select_b8x8_partitions();
                if quarters.0 < shaped.0 {
                    quarters
                } else {
                    shaped
                }
            },
        };
        match direct {
            Some(found) => if best.0 < found.0 {
                best.1
            } else {
                found.1
            },
            None => best.1,
        }
    }
}

} // verus!
