//! Choosing how macroblocks are predicted from earlier pictures.

use vstd::prelude::*;

use crate::config::AnalysisPreset;
use crate::inter_predict::{
    blank_prediction, luma_reference, macroblock_sized, no_prediction, predict_partition,
    predictable, with_prediction,
};
use crate::interpolate::ReferencePlane;
use crate::intra::{block_distance, block_sad};
use crate::math::magnitude;
use crate::motion::{
    motion_difference_rate, motions_fit, partition_motion_predictor_with_current,
    predicted_vector, row_fits, set_partition_motion, vector_fits, vector_rate, vector_small, with_partition,
    BlockMotions, BlockOrders, InterPartition, MotionState, MotionVector,
};
use crate::neighbors::rows;
use crate::partitions::{
    macroblock_partitions, macroblock_parts, p_sub_partitions, parts_inside, quarter_parts,
};
use crate::picture::{lemma_macroblock_inside, Planes, Samples};
use crate::plane::{region_inside, sample_in};
use crate::residual::{difference, sum_of};
use crate::search::{MotionSearch, SearchModel};

verus! {

/// A part of a macroblock with the motion that was chosen for it.
#[derive(Clone, Copy, Debug, PartialEq, Eq, Structural)]
pub struct SelectedPartition {
    /// The part.
    pub partition: InterPartition,
    /// The vector that its neighbours predict.
    pub predicted: MotionVector,
    /// Its vector.
    pub motion: MotionVector,
    /// Which picture of the list it refers to.
    pub reference_index: u8,
}

/// A macroblock that is to be predicted from a reference picture.
#[derive(Clone, Copy, Debug)]
pub struct InterSite<'a> {
    /// The source picture.
    pub source: &'a Planes,
    /// The reference picture.
    pub reference: &'a Planes,
    /// Its place in the list.
    pub reference_index: u8,
    /// How many macroblocks stand side by side.
    pub wide: usize,
    /// How many macroblocks stand one above the other.
    pub high: usize,
    /// The column of the macroblock.
    pub x: usize,
    /// The row of the macroblock.
    pub y: usize,
    /// How far vectors may reach, in whole steps.
    pub search_range: i32,
    /// How thoroughly motion is searched.
    pub analysis: AnalysisPreset,
    /// The motions of all macroblocks so far.
    pub motions: &'a [BlockMotions],
}

/// A macroblock that is to be predicted from a reference picture.
pub struct InterModel {
    /// The source picture.
    pub source: Samples,
    /// The reference picture.
    pub reference: Samples,
    /// Its place in the list.
    pub reference_index: u8,
    /// How many macroblocks stand side by side.
    pub wide: int,
    /// How many macroblocks stand one above the other.
    pub high: int,
    /// The column of the macroblock.
    pub x: int,
    /// The row of the macroblock.
    pub y: int,
    /// How far vectors may reach, in whole steps.
    pub search_range: int,
    /// How thoroughly motion is searched.
    pub analysis: AnalysisPreset,
    /// The motions of all macroblocks so far.
    pub motions: Seq<Seq<Option<MotionState>>>,
}

impl<'a> View for InterSite<'a> {
    type V = InterModel;

    open spec fn view(&self) -> InterModel {
        InterModel {
            source: self.source@,
            reference: self.reference@,
            reference_index: self.reference_index,
            wide: self.wide as int,
            high: self.high as int,
            x: self.x as int,
            y: self.y as int,
            search_range: self.search_range as int,
            analysis: self.analysis,
            motions: rows(self.motions@),
        }
    }
}

impl<'a> InterSite<'a> {
    /// Whether the macroblock lies inside both pictures.
    pub open spec fn valid(&self) -> bool {
        &&& predictable(self.source@, self.wide as int, self.high as int)
        &&& predictable(self.reference@, self.wide as int, self.high as int)
        &&& self.x < self.wide
        &&& self.y < self.high
        &&& 0 <= self.search_range <= 64
        &&& self.motions@.len() == self.wide * self.high
        &&& self.motions@.len() <= 0x1000_0000
        &&& motions_fit(rows(self.motions@))
    }
}

/// The motion that is tried for a macroblock.
#[derive(Debug)]
pub struct Trial {
    /// The motions of its blocks so far.
    pub motions: BlockMotions,
    /// Its prediction so far.
    pub prediction: Planes,
    /// How far the vectors are from the predicted ones.
    pub rate: u64,
    /// The parts so far.
    pub selected: Vec<SelectedPartition>,
}

/// The motion that is tried for a macroblock.
#[verifier::ext_equal]
pub struct TrialModel {
    /// The motions of its blocks so far.
    pub motions: Seq<Option<MotionState>>,
    /// Its prediction so far.
    pub prediction: Samples,
    /// How far the vectors are from the predicted ones.
    pub rate: int,
    /// The parts so far.
    pub selected: Seq<SelectedPartition>,
}

impl View for Trial {
    type V = TrialModel;

    open spec fn view(&self) -> TrialModel {
        TrialModel {
            motions: self.motions@,
            prediction: self.prediction@,
            rate: self.rate as int,
            selected: self.selected@,
        }
    }
}

/// Whether a chosen part lies inside the macroblock and its vectors leave room for arithmetic.
pub open spec fn selected_fits(selected: SelectedPartition) -> bool {
    &&& selected.partition.inside()
    &&& vector_fits(selected.predicted)
    &&& vector_small(selected.motion)
}

/// Whether all chosen parts are in order.
pub open spec fn all_selected_fit(selected: Seq<SelectedPartition>) -> bool {
    forall|i: int| 0 <= i < selected.len() ==> selected_fits(#[trigger] selected[i])
}

/// Whether all chosen parts refer to a picture of the list.
pub open spec fn all_refer(selected: Seq<SelectedPartition>, index: u8) -> bool {
    forall|i: int| 0 <= i < selected.len() ==> (#[trigger] selected[i]).reference_index == index
}

impl Trial {
    /// Whether the trial is in order.
    pub open spec fn valid(&self) -> bool {
        &&& row_fits(self.motions@)
        &&& macroblock_sized(self.prediction@)
        &&& all_selected_fit(self.selected@)
        &&& self.rate <= 0x400_0000 * self.selected@.len()
        &&& self.selected@.len() <= 16
    }
}

impl InterModel {
    /// The number of the macroblock, row by row.
    pub open spec fn address(self) -> int {
        self.y * self.wide + self.x
    }

    /// The search for the motion of a part.
    pub open spec fn search(self, partition: InterPartition, predicted: MotionVector) -> SearchModel {
        SearchModel {
            source: self.source.luma,
            reference: luma_reference(self.reference, self.wide, self.high),
            x: self.x * 16 + partition.block_x * 4,
            y: self.y * 16 + partition.block_y * 4,
            width: partition.block_width * 4,
            height: partition.block_height * 4,
            predicted,
            range: self.search_range,
        }
    }

    /// A trial after one more part.
    pub open spec fn with_part(self, trial: TrialModel, partition: InterPartition) -> TrialModel {
        let predicted = predicted_vector(
            self.motions,
            trial.motions,
            self.address(),
            self.wide,
            partition,
            self.reference_index,
        );
        let motion = self.search(partition, predicted).found(self.analysis);
        TrialModel {
            motions: with_partition(
                trial.motions,
                partition,
                MotionState { vector: motion, reference_index: Some(self.reference_index) },
            ),
            prediction: with_prediction(
                trial.prediction,
                self.reference,
                self.wide,
                self.high,
                self.x,
                self.y,
                partition,
                motion,
            ),
            rate: trial.rate + vector_rate(motion, predicted),
            selected: trial.selected.push(
                SelectedPartition {
                    partition,
                    predicted,
                    motion,
                    reference_index: self.reference_index,
                },
            ),
        }
    }

    /// A trial after the first `count` of some parts.
    pub open spec fn with_parts(
        self,
        trial: TrialModel,
        parts: Seq<InterPartition>,
        count: int,
    ) -> TrialModel
        decreases count,
    {
        if count <= 0 {
            trial
        } else {
            self.with_part(self.with_parts(trial, parts, count - 1), parts[count - 1])
        }
    }
}

/// A trial of which nothing is chosen yet.
pub open spec fn fresh_trial() -> TrialModel {
    TrialModel {
        motions: Seq::new(16, |b: int| None),
        prediction: no_prediction(),
        rate: 0,
        selected: Seq::empty(),
    }
}

impl<'a> InterSite<'a> {
    /// The number of the macroblock, row by row.
    pub fn address(&self) -> (address: usize)
        requires
            self.valid(),
        ensures
            address == self@.address(),
            address < self.motions@.len(),
    {
        proof {
            lemma_macroblock_inside(
                self.wide as int,
                self.high as int,
                self.x as int,
                self.y as int,
                16,
            );
            assert(0 <= self.y * self.wide) by (nonlinear_arith);
        }
        self.y * self.wide + self.x
    }

    /// Adds a part with the motion that is found for it to a trial.
    fn try_part(&self, trial: &mut Trial, partition: InterPartition)
        requires
            self.valid(),
            old(trial).valid(),
            old(trial).selected@.len() < 16,
            partition.inside(),
            partition.block_width == 1 || partition.block_width == 2 || partition.block_width == 4,
            partition.block_height == 1 || partition.block_height == 2 || partition.block_height
                == 4,
        ensures
            final(trial).valid(),
            final(trial)@ == self@.with_part(old(trial)@, partition),
            all_refer(old(trial).selected@, self.reference_index) ==> all_refer(
                final(trial).selected@,
                self.reference_index,
            ),
    {
        let address: usize = self.address();
        let predicted: MotionVector = partition_motion_predictor_with_current(
            &trial.motions,
            self.motions,
            address,
            self.wide,
            partition,
            self.reference_index,
        );
        proof {
            lemma_macroblock_inside(
                self.wide as int,
                self.high as int,
                self.x as int,
                self.y as int,
                16,
            );
        }
        let search = MotionSearch {
            source: self.source.luma.as_slice(),
            reference: ReferencePlane {
                samples: self.reference.luma.as_slice(),
                width: self.wide * 16,
                height: self.high * 16,
            },
            x: self.x * 16 + partition.block_x * 4,
            y: self.y * 16 + partition.block_y * 4,
            width: partition.block_width * 4,
            height: partition.block_height * 4,
            predicted,
            range: self.search_range,
        };
        assert(search@ == self@.search(partition, predicted));
        let motion: MotionVector = search.estimate_partition_motion(self.analysis);
        let rate: u64 = motion_difference_rate(motion, predicted);
        predict_partition(
            &mut trial.prediction,
            self.reference,
            self.wide,
            self.high,
            self.x,
            self.y,
            partition,
            motion,
        );
        set_partition_motion(
            &mut trial.motions,
            partition,
            MotionState { vector: motion, reference_index: Some(self.reference_index) },
        );
        trial.rate = trial.rate + rate;
        trial.selected.push(
            SelectedPartition {
                partition,
                predicted,
                motion,
                reference_index: self.reference_index,
            },
        );
    }

    /// Adds parts with the motions that are found for them to a trial.
    fn try_parts(&self, trial: &mut Trial, parts: &[InterPartition])
        requires
            self.valid(),
            old(trial).valid(),
            parts_inside(parts@),
            old(trial).selected@.len() + parts@.len() <= 16,
        ensures
            final(trial).valid(),
            final(trial)@ == self@.with_parts(old(trial)@, parts@, parts@.len() as int),
            final(trial).selected@.len() == old(trial).selected@.len() + parts@.len(),
            all_refer(old(trial).selected@, self.reference_index) ==> all_refer(
                final(trial).selected@,
                self.reference_index,
            ),
    {
        let mut i: usize = 0;
        while i < parts.len()
            invariant
                i <= parts@.len(),
                self.valid(),
                trial.valid(),
                parts_inside(parts@),
                old(trial).selected@.len() + parts@.len() <= 16,
                trial.selected@.len() == old(trial).selected@.len() + i,
                trial@ == self@.with_parts(old(trial)@, parts@, i as int),
                all_refer(old(trial).selected@, self.reference_index) ==> all_refer(
                    trial.selected@,
                    self.reference_index,
                ),
            decreases parts@.len() - i,
        {
            let ghost before = trial@;
            self.try_part(trial, parts[i]);
            assert(trial@.selected.len() == before.selected.len() + 1);
            i = i + 1;
        }
    }
}

/// A trial of which nothing is chosen yet.
fn start_trial() -> (trial: Trial)
    ensures
        trial@ == fresh_trial(),
        trial.valid(),
{
    let motions: BlockMotions = [None; 16];
    let trial = Trial {
        motions,
        prediction: blank_prediction(),
        rate: 0,
        selected: Vec::new(),
    };
    assert(trial.motions@ =~= fresh_trial().motions);
    assert(trial.selected@ =~= fresh_trial().selected);
    trial
}

/// How a macroblock is predicted from earlier pictures.
#[derive(Debug)]
pub struct InterDecision {
    /// How it is divided.
    pub macroblock_type: u8,
    /// How its quarters are divided.
    pub sub_macroblock_types: [u8; 4],
    /// Its parts.
    pub partitions: Vec<SelectedPartition>,
    /// Its prediction.
    pub prediction: Planes,
}

/// How a macroblock is predicted from earlier pictures, and at what cost.
#[verifier::ext_equal]
pub struct DecisionModel {
    /// What it costs.
    pub cost: int,
    /// How it is divided.
    pub macroblock_type: u8,
    /// How its quarters are divided.
    pub sub_macroblock_types: Seq<u8>,
    /// Its parts.
    pub partitions: Seq<SelectedPartition>,
    /// Its prediction.
    pub prediction: Samples,
}

impl InterDecision {
    /// The decision with its cost.
    pub open spec fn model(&self, cost: int) -> DecisionModel {
        DecisionModel {
            cost,
            macroblock_type: self.macroblock_type,
            sub_macroblock_types: self.sub_macroblock_types@,
            partitions: self.partitions@,
            prediction: self.prediction@,
        }
    }

    /// Whether the decision is in order.
    pub open spec fn valid(&self) -> bool {
        &&& self.macroblock_type <= 3
        &&& 1 <= self.partitions@.len() <= 16
        &&& all_selected_fit(self.partitions@)
        &&& macroblock_sized(self.prediction@)
        &&& forall|q: int| 0 <= q < 4 ==> #[trigger] self.sub_macroblock_types@[q] <= 3
    }
}

/// The distances between the source and a prediction in one quarter of a macroblock.
pub open spec fn quarter_distance(
    source: Seq<u8>,
    stride: int,
    x: int,
    y: int,
    prediction: Seq<u8>,
    quarter: int,
) -> int {
    let parts = difference(
        source,
        stride,
        x,
        y,
        prediction,
        16,
        quarter % 2 * 8,
        quarter / 2 * 8,
        8,
    );
    sum_of(Seq::new(64, |i: int| magnitude(parts[i])), 64)
}

/// A macroblock whose quarters are divided on their own.
#[verifier::ext_equal]
pub struct QuartersModel {
    /// What is chosen so far.
    pub trial: TrialModel,
    /// How the quarters so far are divided.
    pub kinds: Seq<u8>,
    /// What it costs so far.
    pub cost: int,
}

impl InterModel {
    /// A macroblock that is whole, or divided across or down.
    #[verifier::opaque]
    pub open spec fn shaped(self, shape: int) -> DecisionModel {
        let parts = macroblock_parts(shape);
        let trial = self.with_parts(fresh_trial(), parts, parts.len() as int);
        DecisionModel {
            cost: block_distance(
                self.source.luma,
                16 * self.wide,
                self.x * 16,
                self.y * 16,
                16,
                trial.prediction.luma,
            ) + trial.rate * 2 + (parts.len() - 1) * 16,
            macroblock_type: shape as u8,
            sub_macroblock_types: seq![0u8, 0u8, 0u8, 0u8],
            partitions: trial.selected,
            prediction: trial.prediction,
        }
    }

    /// A trial in which a quarter is divided in some way.
    pub open spec fn quarter_trial(self, before: TrialModel, quarter: int, kind: int) -> TrialModel {
        let parts = quarter_parts(quarter, kind);
        self.with_parts(
            TrialModel { rate: 0, selected: Seq::empty(), ..before },
            parts,
            parts.len() as int,
        )
    }

    /// What it costs to divide a quarter in some way.
    pub open spec fn quarter_cost(self, before: TrialModel, quarter: int, kind: int) -> int {
        let trial = self.quarter_trial(before, quarter, kind);
        quarter_distance(
            self.source.luma,
            16 * self.wide,
            self.x * 16,
            self.y * 16,
            trial.prediction.luma,
            quarter,
        ) + trial.rate * 2 + (quarter_parts(quarter, kind).len() - 1) * 8
    }

    /// The first of the ways below `count` to divide a quarter that costs least.
    pub open spec fn quarter_kind(self, before: TrialModel, quarter: int, count: int) -> int
        decreases count,
    {
        if count <= 1 {
            0
        } else {
            let earlier = self.quarter_kind(before, quarter, count - 1);
            if self.quarter_cost(before, quarter, count - 1) < self.quarter_cost(
                before,
                quarter,
                earlier,
            ) {
                count - 1
            } else {
                earlier
            }
        }
    }

    /// A macroblock after its first `count` quarters are divided.
    pub open spec fn quartered(self, count: int) -> QuartersModel
        decreases count,
    {
        if count <= 0 {
            QuartersModel { trial: fresh_trial(), kinds: Seq::empty(), cost: 32 }
        } else {
            let before = self.quartered(count - 1);
            let kind = self.quarter_kind(before.trial, count - 1, 4);
            let trial = self.quarter_trial(before.trial, count - 1, kind);
            QuartersModel {
                trial: TrialModel {
                    motions: trial.motions,
                    prediction: trial.prediction,
                    rate: 0,
                    selected: before.trial.selected + trial.selected,
                },
                kinds: before.kinds.push(kind as u8),
                cost: before.cost + self.quarter_cost(before.trial, count - 1, kind),
            }
        }
    }

    /// A macroblock whose quarters are divided on their own.
    #[verifier::opaque]
    pub open spec fn quarters(self) -> DecisionModel {
        let end = self.quartered(4);
        DecisionModel {
            cost: end.cost,
            macroblock_type: 3,
            sub_macroblock_types: end.kinds,
            partitions: end.trial.selected,
            prediction: end.trial.prediction,
        }
    }

    /// How a macroblock is predicted from the reference picture.
    #[verifier::opaque]
    pub open spec fn decided(self) -> DecisionModel {
        let whole = self.shaped(0);
        if self.analysis == AnalysisPreset::Fast && whole.cost <= 4096 {
            whole
        } else {
            cheaper(cheaper(cheaper(whole, self.shaped(1)), self.shaped(2)), self.quarters())
        }
    }
}

/// The cheaper one of two decisions, the first one if they cost the same.
pub open spec fn cheaper(first: DecisionModel, second: DecisionModel) -> DecisionModel {
    if second.cost < first.cost {
        second
    } else {
        first
    }
}

impl<'a> InterSite<'a> {
    /// Tries a macroblock that is whole, or divided across or down.
    fn try_shape(&self, shape: u8) -> (decision: (u64, InterDecision))
        requires
            self.valid(),
            shape < 3,
        ensures
            decision.1.model(decision.0 as int) == self@.shaped(shape as int),
            decision.1.valid(),
            all_refer(decision.1.partitions@, self.reference_index),
            decision.0 <= 0x1_0000_0000,
    {
        reveal(InterModel::shaped);
        proof {
            lemma_macroblock_inside(
                self.wide as int,
                self.high as int,
                self.x as int,
                self.y as int,
                16,
            );
        }
        let parts: Vec<InterPartition> = macroblock_partitions(shape);
        let mut trial: Trial = start_trial();
        self.try_parts(&mut trial, parts.as_slice());
        let sad: u64 = block_sad(
            self.source.luma.as_slice(),
            self.wide * 16,
            self.x * 16,
            self.y * 16,
            16,
            trial.prediction.luma.as_slice(),
        );
        let cost: u64 = sad + trial.rate * 2 + (parts.len() as u64 - 1) * 16;
        let decision = InterDecision {
            macroblock_type: shape,
            sub_macroblock_types: [0u8; 4],
            partitions: trial.selected,
            prediction: trial.prediction,
        };
        assert(decision.sub_macroblock_types@ =~= seq![0u8, 0u8, 0u8, 0u8]);
        (cost, decision)
    }
}

/// Measures the distance between the source and a prediction in one quarter of a macroblock.
pub fn prediction_region_sad(
    source: &[u8],
    stride: usize,
    x: usize,
    y: usize,
    prediction: &[u8],
    quarter: usize,
) -> (sad: u64)
    requires
        region_inside(source@.len() as int, stride as int, x as int, y as int, 16, 16),
        prediction@.len() == 256,
        quarter < 4,
    ensures
        sad == quarter_distance(
            source@,
            stride as int,
            x as int,
            y as int,
            prediction@,
            quarter as int,
        ),
        sad <= 16320,
{
    let px: usize = quarter % 2 * 8;
    let py: usize = quarter / 2 * 8;
    let ghost parts = difference(
        source@,
        stride as int,
        x as int,
        y as int,
        prediction@,
        16,
        px as int,
        py as int,
        8,
    );
    let ghost all = Seq::new(64, |i: int| magnitude(parts[i]));
    let mut sum: u64 = 0;
    let mut i: usize = 0;
    while i < 64
        invariant
            i <= 64,
            px == quarter as int % 2 * 8,
            py == quarter as int / 2 * 8,
            quarter < 4,
            region_inside(source@.len() as int, stride as int, x as int, y as int, 16, 16),
            prediction@.len() == 256,
            parts == difference(
                source@,
                stride as int,
                x as int,
                y as int,
                prediction@,
                16,
                px as int,
                py as int,
                8,
            ),
            all == Seq::new(64, |i: int| magnitude(parts[i])),
            sum == sum_of(all, i as int),
            sum <= 255 * i,
        decreases 64 - i,
    {
        let column: usize = px + i % 8;
        let row: usize = py + i / 8;
        let own: u8 = sample_in(source, stride, x, y, 16, 16, column, row);
        let other: u8 = prediction[row * 16 + column];
        let distance: u64 = if own >= other {
            (own - other) as u64
        } else {
            (other - own) as u64
        };
        assert(parts[i as int] == own - other);
        assert(all[i as int] == distance);
        sum = sum + distance;
        i = i + 1;
    }
    sum
}

/// A macroblock some of whose quarters are divided.
struct Quarters {
    /// The motions of its blocks so far.
    motions: BlockMotions,
    /// Its prediction so far.
    prediction: Planes,
    /// The parts so far.
    selected: Vec<SelectedPartition>,
    /// How the quarters are divided.
    kinds: [u8; 4],
    /// What it costs so far.
    cost: u64,
}

impl Quarters {
    /// What is chosen so far.
    spec fn trial(&self) -> TrialModel {
        TrialModel {
            motions: self.motions@,
            prediction: self.prediction@,
            rate: 0,
            selected: self.selected@,
        }
    }

    /// Whether the first `count` quarters are divided and everything is in order.
    spec fn valid(&self, count: int) -> bool {
        &&& row_fits(self.motions@)
        &&& macroblock_sized(self.prediction@)
        &&& all_selected_fit(self.selected@)
        &&& count <= self.selected@.len() <= 4 * count
        &&& self.cost <= 32 + 0x2000_4000 * count
        &&& forall|q: int| 0 <= q < 4 ==> #[trigger] self.kinds@[q] <= 3
    }

    /// Whether the first `count` quarters are divided as the model says.
    spec fn holds(&self, model: QuartersModel, count: int) -> bool {
        &&& model.trial == self.trial()
        &&& model.cost == self.cost
        &&& model.kinds.len() == count
        &&& forall|q: int| 0 <= q < count ==> #[trigger] self.kinds@[q] == model.kinds[q]
    }
}

impl<'a> InterSite<'a> {
    /// Tries to divide a quarter in some way, and says what it costs.
    fn try_quarter(&self, quarters: &Quarters, quarter: usize, kind: u8) -> (result: (u64, Trial))
        requires
            self.valid(),
            quarters.valid(quarter as int),
            quarter < 4,
            kind < 4,
        ensures
            result.1@ == self@.quarter_trial(quarters.trial(), quarter as int, kind as int),
            result.0 == self@.quarter_cost(quarters.trial(), quarter as int, kind as int),
            result.1.valid(),
            all_refer(result.1.selected@, self.reference_index),
            1 <= result.1.selected@.len() <= 4,
            result.0 <= 0x2000_4000,
    {
        proof {
            lemma_macroblock_inside(
                self.wide as int,
                self.high as int,
                self.x as int,
                self.y as int,
                16,
            );
        }
        let parts: Vec<InterPartition> = p_sub_partitions(quarter, kind);
        let mut trial = Trial {
            motions: quarters.motions,
            prediction: quarters.prediction.clone(),
            rate: 0,
            selected: Vec::new(),
        };
        assert(trial@ == TrialModel { rate: 0, selected: Seq::empty(), ..quarters.trial() }) by {
            assert(trial.selected@ =~= Seq::<SelectedPartition>::empty());
        }
        self.try_parts(&mut trial, parts.as_slice());
        let sad: u64 = prediction_region_sad(
            self.source.luma.as_slice(),
            self.wide * 16,
            self.x * 16,
            self.y * 16,
            trial.prediction.luma.as_slice(),
            quarter,
        );
        let cost: u64 = sad + trial.rate * 2 + (parts.len() as u64 - 1) * 8;
        (cost, trial)
    }

    /// Finds the cheapest way to divide a quarter.
    fn best_quarter(&self, quarters: &Quarters, quarter: usize) -> (result: (u8, u64, Trial))
        requires
            self.valid(),
            quarters.valid(quarter as int),
            quarter < 4,
        ensures
            result.0 == self@.quarter_kind(quarters.trial(), quarter as int, 4),
            result.0 < 4,
            result.2@ == self@.quarter_trial(quarters.trial(), quarter as int, result.0 as int),
            result.1 == self@.quarter_cost(quarters.trial(), quarter as int, result.0 as int),
            result.2.valid(),
            all_refer(result.2.selected@, self.reference_index),
            1 <= result.2.selected@.len() <= 4,
            result.1 <= 0x2000_4000,
    {
        let (first_cost, first) = self.try_quarter(quarters, quarter, 0);
        let mut best: (u8, u64, Trial) = (0, first_cost, first);
        let mut kind: u8 = 1;
        while kind < 4
            invariant
                1 <= kind <= 4,
                self.valid(),
                quarters.valid(quarter as int),
                quarter < 4,
                best.0 == self@.quarter_kind(quarters.trial(), quarter as int, kind as int),
                best.0 < kind,
                best.2@ == self@.quarter_trial(quarters.trial(), quarter as int, best.0 as int),
                best.1 == self@.quarter_cost(quarters.trial(), quarter as int, best.0 as int),
                best.2.valid(),
                all_refer(best.2.selected@, self.reference_index),
                1 <= best.2.selected@.len() <= 4,
                best.1 <= 0x2000_4000,
            decreases 4 - kind,
        {
            let (cost, trial) = self.try_quarter(quarters, quarter, kind);
            if cost < best.1 {
                best = (kind, cost, trial);
            }
            kind = kind + 1;
        }
        best
    }

    /// Tries a macroblock whose quarters are divided on their own.
    pub fn select_p8x8_partitions(&self) -> (decision: (u64, InterDecision))
        requires
            self.valid(),
        ensures
            decision.1.model(decision.0 as int) == self@.quarters(),
            decision.1.valid(),
            all_refer(decision.1.partitions@, self.reference_index),
            decision.0 <= 0x1_0000_0000,
    {
        reveal(InterModel::quarters);
        let start: Trial = start_trial();
        let mut quarters = Quarters {
            motions: start.motions,
            prediction: start.prediction,
            selected: start.selected,
            kinds: [0u8; 4],
            cost: 32,
        };
        let mut quarter: usize = 0;
        while quarter < 4
            invariant
                quarter <= 4,
                self.valid(),
                quarters.valid(quarter as int),
                quarters.holds(self@.quartered(quarter as int), quarter as int),
                all_refer(quarters.selected@, self.reference_index),
            decreases 4 - quarter,
        {
            let ghost before = self@.quartered(quarter as int);
            let (kind, cost, trial) = self.best_quarter(&quarters, quarter);
            let ghost old_selected = quarters.selected@;
            let ghost new_selected = trial.selected@;
            let mut chosen: Vec<SelectedPartition> = trial.selected;
            quarters.selected.append(&mut chosen);
            quarters.motions = trial.motions;
            quarters.prediction = trial.prediction;
            quarters.kinds[quarter] = kind;
            quarters.cost = quarters.cost + cost;
            proof {
                let after = self@.quartered(quarter + 1);
                assert(quarters.selected@ =~= old_selected + new_selected);
                assert(after.trial.selected == old_selected + new_selected);
                assert(after.kinds == before.kinds.push(kind));
                assert forall|i: int| 0 <= i < quarters.selected@.len() implies selected_fits(
                    #[trigger] quarters.selected@[i],
                ) && quarters.selected@[i].reference_index == self.reference_index by {
                    if i < old_selected.len() {
                        assert(quarters.selected@[i] == old_selected[i]);
                    } else {
                        assert(quarters.selected@[i] == new_selected[i - old_selected.len()]);
                    }
                }
            }
            quarter = quarter + 1;
        }
        let decision = InterDecision {
            macroblock_type: 3,
            sub_macroblock_types: quarters.kinds,
            partitions: quarters.selected,
            prediction: quarters.prediction,
        };
        assert(decision.sub_macroblock_types@ =~= self@.quartered(4).kinds);
        (quarters.cost, decision)
    }

    /// Chooses how a macroblock is predicted from the reference picture.
    pub fn select_inter_partitions_for_reference(&self) -> (decision: (u64, InterDecision))
        requires
            self.valid(),
        ensures
            decision.1.model(decision.0 as int) == self@.decided(),
            decision.1.valid(),
            all_refer(decision.1.partitions@, self.reference_index),
            decision.0 <= 0x1_0000_0000,
    {
        reveal(InterModel::decided);
        let mut best: (u64, InterDecision) = self.try_shape(0);
        let fast = match self.analysis {
            AnalysisPreset::Fast => true,
            AnalysisPreset::Full => false,
        };
        if fast && best.0 <= 4096 {
            return best;
        }
        let across: (u64, InterDecision) = self.try_shape(1);
        if across.0 < best.0 {
            best = across;
        }
        let down: (u64, InterDecision) = self.try_shape(2);
        if down.0 < best.0 {
            best = down;
        }
        let quarters: (u64, InterDecision) = self.select_p8x8_partitions();
        if quarters.0 < best.0 {
            best = quarters;
        }
        best
    }
}

/// What pictures keep for later ones that refer to them.
#[derive(Debug)]
pub struct EncoderReference {
    /// The coded samples.
    pub planes: Planes,
    /// The display order of the picture.
    pub pic_order_count: i32,
    /// The motion of each macroblock's blocks.
    pub motion_l0: Vec<BlockMotions>,
    /// The display order of the pictures that each macroblock's blocks refer to.
    pub reference_l0_poc: Vec<BlockOrders>,
    /// Which macroblocks are predicted from their own picture.
    pub macroblock_intra: Vec<bool>,
}

/// What pictures keep for later ones that refer to them.
#[verifier::ext_equal]
pub struct ReferencePicture {
    /// The coded samples.
    pub planes: Samples,
    /// The display order of the picture.
    pub pic_order_count: int,
    /// The motion of each macroblock's blocks.
    pub motion_l0: Seq<Seq<Option<MotionState>>>,
    /// The display order of the pictures that each macroblock's blocks refer to.
    pub reference_l0_poc: Seq<Seq<Option<i32>>>,
    /// Which macroblocks are predicted from their own picture.
    pub macroblock_intra: Seq<bool>,
}

impl View for EncoderReference {
    type V = ReferencePicture;

    open spec fn view(&self) -> ReferencePicture {
        ReferencePicture {
            planes: self.planes@,
            pic_order_count: self.pic_order_count as int,
            motion_l0: rows(self.motion_l0@),
            reference_l0_poc: rows(self.reference_l0_poc@),
            macroblock_intra: self.macroblock_intra@,
        }
    }
}

/// The pictures of a list.
pub open spec fn pictures(references: Seq<EncoderReference>) -> Seq<ReferencePicture> {
    Seq::new(references.len(), |i: int| references[i]@)
}

/// A macroblock of a picture that may be predicted from several others.
pub struct PictureModel {
    /// The source picture.
    pub source: Samples,
    /// How many macroblocks stand side by side.
    pub wide: int,
    /// How many macroblocks stand one above the other.
    pub high: int,
    /// The column of the macroblock.
    pub x: int,
    /// The row of the macroblock.
    pub y: int,
    /// How far vectors may reach, in whole steps.
    pub search_range: int,
    /// How thoroughly motion is searched.
    pub analysis: AnalysisPreset,
    /// The motions of all macroblocks so far.
    pub motions: Seq<Seq<Option<MotionState>>>,
}

impl PictureModel {
    /// The macroblock with one of the reference pictures.
    pub open spec fn with_reference(self, reference: Samples, index: int) -> InterModel {
        InterModel {
            source: self.source,
            reference,
            reference_index: index as u8,
            wide: self.wide,
            high: self.high,
            x: self.x,
            y: self.y,
            search_range: self.search_range,
            analysis: self.analysis,
            motions: self.motions,
        }
    }

    /// The decision for one of the reference pictures, with the cost of naming it.
    pub open spec fn decided_from(self, references: Seq<ReferencePicture>, index: int) -> DecisionModel {
        let decision = self.with_reference(references[index].planes, index).decided();
        DecisionModel { cost: decision.cost + index * 4, ..decision }
    }

    /// The cheapest decision for the first `count` reference pictures.
    pub open spec fn best_reference(self, references: Seq<ReferencePicture>, count: int) -> DecisionModel
        decreases count,
    {
        if count <= 1 {
            self.decided_from(references, 0)
        } else {
            cheaper(
                self.best_reference(references, count - 1),
                self.decided_from(references, count - 1),
            )
        }
    }

    /// How many reference pictures are tried.
    pub open spec fn tried_references(self, references: Seq<ReferencePicture>) -> int {
        if self.analysis == AnalysisPreset::Fast {
            1
        } else {
            references.len() as int
        }
    }
}

/// A macroblock of a picture that may be predicted from several others.
#[derive(Clone, Copy, Debug)]
pub struct PictureSite<'a> {
    /// The source picture.
    pub source: &'a Planes,
    /// How many macroblocks stand side by side.
    pub wide: usize,
    /// How many macroblocks stand one above the other.
    pub high: usize,
    /// The column of the macroblock.
    pub x: usize,
    /// The row of the macroblock.
    pub y: usize,
    /// How far vectors may reach, in whole steps.
    pub search_range: i32,
    /// How thoroughly motion is searched.
    pub analysis: AnalysisPreset,
    /// The motions of all macroblocks so far.
    pub motions: &'a [BlockMotions],
}

impl<'a> View for PictureSite<'a> {
    type V = PictureModel;

    open spec fn view(&self) -> PictureModel {
        PictureModel {
            source: self.source@,
            wide: self.wide as int,
            high: self.high as int,
            x: self.x as int,
            y: self.y as int,
            search_range: self.search_range as int,
            analysis: self.analysis,
            motions: rows(self.motions@),
        }
    }
}

impl<'a> PictureSite<'a> {
    /// Whether the macroblock lies inside the picture.
    pub open spec fn valid(&self) -> bool {
        &&& predictable(self.source@, self.wide as int, self.high as int)
        &&& self.x < self.wide
        &&& self.y < self.high
        &&& 0 <= self.search_range <= 64
        &&& self.motions@.len() == self.wide * self.high
        &&& self.motions@.len() <= 0x1000_0000
        &&& motions_fit(rows(self.motions@))
    }
}

/// Whether reference pictures have the given size, and there are one to four of them.
pub open spec fn references_fit(references: Seq<EncoderReference>, wide: int, high: int) -> bool {
    &&& 1 <= references.len() <= 4
    &&& forall|i: int|
        0 <= i < references.len() ==> predictable(
            (#[trigger] references[i]).planes@,
            wide,
            high,
        )
}

impl<'a> PictureSite<'a> {
    /// Chooses how a macroblock is predicted from one of the reference pictures.
    fn try_reference(&self, reference: &Planes, index: u8) -> (decision: (u64, InterDecision))
        requires
            self.valid(),
            predictable(reference@, self.wide as int, self.high as int),
            index < 4,
        ensures
            ({
                let found = self@.with_reference(reference@, index as int).decided();
                decision.1.model(decision.0 as int) == DecisionModel {
                    cost: found.cost + index * 4,
                    ..found
                }
            }),
            decision.1.valid(),
            all_refer(decision.1.partitions@, index),
            decision.0 <= 0x1_0000_0010,
    {
        let site = InterSite {
            source: self.source,
            reference,
            reference_index: index,
            wide: self.wide,
            high: self.high,
            x: self.x,
            y: self.y,
            search_range: self.search_range,
            analysis: self.analysis,
            motions: self.motions,
        };
        assert(site@ == self@.with_reference(reference@, index as int));
        let (cost, decision) = site.select_inter_partitions_for_reference();
        (cost + index as u64 * 4, decision)
    }

    /// Chooses how a macroblock is predicted from the reference pictures.
    pub fn select_inter_partitions_with_analysis(&self, references: &[EncoderReference]) -> (decision:
        InterDecision)
        requires
            self.valid(),
            references_fit(references@, self.wide as int, self.high as int),
        ensures
            decision.valid(),
            exists|index: u8|
                index < references@.len() && #[trigger] all_refer(decision.partitions@, index),
            ({
                let list = pictures(references@);
                let best = self@.best_reference(list, self@.tried_references(list));
                decision.model(best.cost) == best
            }),
    {
        let ghost list = pictures(references@);
        let count: usize = match self.analysis {
            AnalysisPreset::Fast => 1,
            AnalysisPreset::Full => references.len(),
        };
        assert(list[0] == references@[0]@);
        let mut best: (u64, InterDecision) = self.try_reference(&references[0].planes, 0);
        let mut i: usize = 1;
        while i < count
            invariant
                1 <= i <= count,
                count <= references@.len(),
                self.valid(),
                references_fit(references@, self.wide as int, self.high as int),
                list == pictures(references@),
                best.1.valid(),
                exists|index: u8|
                    index < references@.len() && #[trigger] all_refer(best.1.partitions@, index),
                best.1.model(best.0 as int) == self@.best_reference(list, i as int),
            decreases count - i,
        {
            assert(list[i as int] == references@[i as int]@);
            let found: (u64, InterDecision) = self.try_reference(&references[i].planes, i as u8);
            if found.0 < best.0 {
                best = found;
            }
            i = i + 1;
        }
        best.1
    }
}

} // verus!
