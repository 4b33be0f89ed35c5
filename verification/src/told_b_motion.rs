//! What the bits of the motion of a macroblock tell that is predicted from an earlier and a later
//! picture.

use vstd::prelude::*;

use crate::b_direct::BSelectedPartition;
use crate::b_picture::{b_motion_bits, list_written, motion_in};
use crate::b_select::{BDecisionModel, BModel, BTrialModel};
use crate::config::AnalysisPreset;
use crate::golomb::{se_bits, ue_bits};
use crate::motion::MotionState;
use crate::p_picture::{kinds_written, vector_bits};
use crate::p_select::SelectedPartition;
use crate::partitions::{directed_parts, directed_quarter_parts, DirectedPart};
use crate::told_codes::{law_signed_told, law_unsigned_told, lemma_same_start};
use crate::told_motion::lemma_kinds_told;

verus! {

/// Whether two macroblocks differ in nothing but their sources.
pub open spec fn same_b_search(first: BModel, second: BModel) -> bool {
    second == (BModel { source: second.source, ..first })
}

/// What parts tell of one of the pictures.
pub open spec fn sided(selected: Seq<BSelectedPartition>, later: bool) -> Seq<
    (Option<SelectedPartition>, bool),
> {
    Seq::new(selected.len(), |i: int| (motion_in(selected[i], later), selected[i].direct))
}

/// The motions of the blocks of a trial from one of the pictures.
pub open spec fn row_of(trial: BTrialModel, later: bool) -> Seq<Option<MotionState>> {
    if later {
        trial.motions_l1
    } else {
        trial.motions_l0
    }
}

/// Whether two trials led to the same motion from one of the pictures.
pub open spec fn same_side(first: BTrialModel, second: BTrialModel, later: bool) -> bool {
    &&& row_of(first, later) == row_of(second, later)
    &&& sided(first.selected, later) == sided(second.selected, later)
}

/// The bits of one part from one of the pictures.
spec fn part_bits(selected: BSelectedPartition, later: bool) -> Seq<bool> {
    match motion_in(selected, later) {
        Some(found) => if selected.direct {
            Seq::empty()
        } else {
            vector_bits(found)
        },
        None => Seq::empty(),
    }
}

/// Parts that tell the same of a picture have the same bits.
proof fn lemma_list_alike(
    first: Seq<BSelectedPartition>,
    second: Seq<BSelectedPartition>,
    later: bool,
    count: int,
)
    requires
        sided(first, later) == sided(second, later),
        count <= first.len(),
    ensures
        list_written(first, later, count) == list_written(second, later, count),
    decreases count,
{
    if count > 0 {
        lemma_list_alike(first, second, later, count - 1);
        assert(sided(first, later).len() == first.len());
        assert(sided(second, later).len() == second.len());
        assert(sided(first, later)[count - 1] == sided(second, later)[count - 1]);
    }
}

/// The bits of parts do not depend on those behind them.
proof fn lemma_list_before(
    first: Seq<BSelectedPartition>,
    second: Seq<BSelectedPartition>,
    later: bool,
    count: int,
)
    requires
        count <= first.len(),
    ensures
        list_written(first + second, later, count) == list_written(first, later, count),
    decreases count,
{
    if count > 0 {
        lemma_list_before(first, second, later, count - 1);
        assert((first + second)[count - 1] == first[count - 1]);
    }
}

/// The bits of parts stand one behind the other.
proof fn lemma_list_joined(
    first: Seq<BSelectedPartition>,
    second: Seq<BSelectedPartition>,
    later: bool,
    count: int,
)
    requires
        0 <= count <= second.len(),
    ensures
        list_written(first + second, later, first.len() + count) == list_written(
            first,
            later,
            first.len() as int,
        ) + list_written(second, later, count),
    decreases count,
{
    let start = list_written(first, later, first.len() as int);
    if count == 0 {
        lemma_list_before(first, second, later, first.len() as int);
        assert(start + list_written(second, later, 0) =~= start);
    } else {
        lemma_list_joined(first, second, later, count - 1);
        assert((first + second)[first.len() + count - 1] == second[count - 1]);
        assert((start + list_written(second, later, count - 1)) + part_bits(
            second[count - 1],
            later,
        ) =~= start + list_written(second, later, count));
    }
}

/// The bits of all parts of a trial from one of the pictures.
spec fn side_bits(trial: BTrialModel, later: bool) -> Seq<bool> {
    list_written(trial.selected, later, trial.selected.len() as int)
}

/// One more part adds its bits.
proof fn lemma_selected_bits(
    model: BModel,
    trial: BTrialModel,
    selected: BSelectedPartition,
    later: bool,
)
    ensures
        side_bits(model.with_selected(trial, selected), later) == side_bits(trial, later)
            + part_bits(selected, later),
        sided(model.with_selected(trial, selected).selected, later) == sided(
            trial.selected,
            later,
        ).push((motion_in(selected, later), selected.direct)),
{
    let after = model.with_selected(trial, selected);
    let one = seq![selected];
    assert(after.selected =~= trial.selected + one);
    lemma_list_joined(trial.selected, one, later, 1);
    assert(list_written(one, later, 0) =~= Seq::empty());
    assert(list_written(one, later, 1) =~= part_bits(one[0], later));
    assert(sided(after.selected, later) =~= sided(trial.selected, later).push(
        (motion_in(selected, later), selected.direct),
    ));
}

/// The motion of one more part from one of the pictures is told by the bits of its vector.
proof fn lemma_part_told(
    first: BModel,
    second: BModel,
    before: BTrialModel,
    other: BTrialModel,
    part: DirectedPart,
    analysis: AnalysisPreset,
    later: bool,
    x: Seq<bool>,
    y: Seq<bool>,
)
    requires
        same_b_search(first, second),
        same_side(before, other, later),
        part_bits(first.part_chosen(before, part, analysis), later) + x == part_bits(
            second.part_chosen(other, part, analysis),
            later,
        ) + y,
    ensures
        same_side(
            first.with_selected(before, first.part_chosen(before, part, analysis)),
            second.with_selected(other, second.part_chosen(other, part, analysis)),
            later,
        ),
        x == y,
{
    let a = first.part_chosen(before, part, analysis);
    let b = second.part_chosen(other, part, analysis);
    assert(first.address() == second.address());
    assert(part.direction.earlier() || part.direction.later());
    assert(a.part() == part.partition);
    assert(b.part() == part.partition);
    match (motion_in(a, later), motion_in(b, later)) {
        (Some(m), Some(n)) => {
            assert(m.predicted == n.predicted);
            let c = se_bits(m.motion.y - m.predicted.y) + x;
            let d = se_bits(n.motion.y - n.predicted.y) + y;
            assert(vector_bits(m) + x =~= se_bits(m.motion.x - m.predicted.x) + c);
            assert(vector_bits(n) + y =~= se_bits(n.motion.x - n.predicted.x) + d);
            law_signed_told(m.motion.x - m.predicted.x, n.motion.x - n.predicted.x, c, d);
            law_signed_told(m.motion.y - m.predicted.y, n.motion.y - n.predicted.y, x, y);
            assert(m.motion == n.motion);
            assert(m == n);
        },
        _ => {
            assert(part_bits(a, later) + x =~= x);
            assert(part_bits(b, later) + y =~= y);
        },
    }
    lemma_selected_bits(first, before, a, later);
    lemma_selected_bits(second, other, b, later);
}

/// The motion of some parts from one of the pictures is told by the bits of their vectors.
proof fn lemma_side_told(
    first: BModel,
    second: BModel,
    trial: BTrialModel,
    other: BTrialModel,
    parts: Seq<DirectedPart>,
    analysis: AnalysisPreset,
    later: bool,
    count: int,
    x: Seq<bool>,
    y: Seq<bool>,
)
    requires
        same_b_search(first, second),
        same_side(trial, other, later),
        side_bits(first.with_parts(trial, parts, analysis, count), later) + x == side_bits(
            second.with_parts(other, parts, analysis, count),
            later,
        ) + y,
    ensures
        same_side(
            first.with_parts(trial, parts, analysis, count),
            second.with_parts(other, parts, analysis, count),
            later,
        ),
        x == y,
    decreases count,
{
    if count <= 0 {
        assert(sided(trial.selected, later).len() == trial.selected.len());
        assert(sided(other.selected, later).len() == other.selected.len());
        lemma_list_alike(trial.selected, other.selected, later, trial.selected.len() as int);
        lemma_same_start(side_bits(trial, later), x, side_bits(other, later), y);
    } else {
        let before = first.with_parts(trial, parts, analysis, count - 1);
        let other_before = second.with_parts(other, parts, analysis, count - 1);
        let part = parts[count - 1];
        let a = first.part_chosen(before, part, analysis);
        let b = second.part_chosen(other_before, part, analysis);
        lemma_selected_bits(first, before, a, later);
        lemma_selected_bits(second, other_before, b, later);
        let c = part_bits(a, later);
        let d = part_bits(b, later);
        assert((side_bits(before, later) + c) + x =~= side_bits(before, later) + (c + x));
        assert((side_bits(other_before, later) + d) + y =~= side_bits(other_before, later) + (d
            + y));
        lemma_side_told(
            first,
            second,
            trial,
            other,
            parts,
            analysis,
            later,
            count - 1,
            c + x,
            d + y,
        );
        lemma_part_told(first, second, before, other_before, part, analysis, later, x, y);
    }
}

/// A quarter is divided in one of thirteen ways.
pub proof fn lemma_kind(model: BModel, before: BTrialModel, quarter: int, count: int)
    requires
        count <= 13,
    ensures
        0 <= model.quarter_kind(before, quarter, count) < 13,
    decreases count,
{
    if count > 1 {
        lemma_kind(model, before, quarter, count - 1);
    }
}

/// Derived motion does not depend on the source.
pub proof fn lemma_direct_part(first: BModel, second: BModel, quarter: int)
    requires
        same_b_search(first, second),
    ensures
        first.direct_part(quarter) == second.direct_part(quarter),
{
    reveal(BModel::direct_part);
    assert(first.address() == second.address());
}

/// The motion of a quarter from one of the pictures is told by the bits of its vectors, where its
/// division is known.
proof fn lemma_quarter_side_told(
    first: BModel,
    second: BModel,
    before: BTrialModel,
    other: BTrialModel,
    quarter: int,
    kind: int,
    later: bool,
    x: Seq<bool>,
    y: Seq<bool>,
)
    requires
        same_b_search(first, second),
        row_of(before, later) == row_of(other, later),
        side_bits(first.quarter_trial(before, quarter, kind), later) + x == side_bits(
            second.quarter_trial(other, quarter, kind),
            later,
        ) + y,
    ensures
        same_side(
            first.quarter_trial(before, quarter, kind),
            second.quarter_trial(other, quarter, kind),
            later,
        ),
        x == y,
{
    let start = BTrialModel { rate: 0, both: 0, selected: Seq::empty(), ..before };
    let other_start = BTrialModel { rate: 0, both: 0, selected: Seq::empty(), ..other };
    assert(sided(start.selected, later) =~= sided(other_start.selected, later));
    if kind == 0 {
        lemma_direct_part(first, second, quarter);
        let selected = first.direct_part(quarter)->Some_0;
        lemma_selected_bits(first, start, selected, later);
        lemma_selected_bits(second, other_start, selected, later);
        lemma_same_start(
            side_bits(first.quarter_trial(before, quarter, kind), later),
            x,
            side_bits(second.quarter_trial(other, quarter, kind), later),
            y,
        );
    } else {
        let parts = directed_quarter_parts(quarter, kind);
        lemma_side_told(
            first,
            second,
            start,
            other_start,
            parts,
            AnalysisPreset::Full,
            later,
            parts.len() as int,
            x,
            y,
        );
    }
}

/// What parts tell of a picture stands one behind the other.
pub proof fn lemma_sided_joined(
    first: Seq<BSelectedPartition>,
    second: Seq<BSelectedPartition>,
    later: bool,
)
    ensures
        sided(first + second, later) == sided(first, later) + sided(second, later),
{
    assert(sided(first + second, later) =~= sided(first, later) + sided(second, later));
}

/// The division of the last quarter.
pub proof fn lemma_last_kind(first: BModel, second: BModel, count: int)
    requires
        1 <= count <= 4,
        first.quartered(count).kinds == second.quartered(count).kinds,
    ensures
        first.quartered(count - 1).kinds == second.quartered(count - 1).kinds,
        first.quarter_kind(first.quartered(count - 1).trial, count - 1, 13) == second.quarter_kind(
            second.quartered(count - 1).trial,
            count - 1,
            13,
        ),
        first.quartered(count).kinds.last() == first.quarter_kind(
            first.quartered(count - 1).trial,
            count - 1,
            13,
        ),
{
    let before = first.quartered(count - 1);
    let other = second.quartered(count - 1);
    lemma_kind(first, before.trial, count - 1, 13);
    lemma_kind(second, other.trial, count - 1, 13);
    assert(first.quartered(count).kinds.drop_last() =~= before.kinds);
    assert(second.quartered(count).kinds.drop_last() =~= other.kinds);
    let kind = first.quarter_kind(before.trial, count - 1, 13);
    let other_kind = second.quarter_kind(other.trial, count - 1, 13);
    assert(first.quartered(count).kinds == before.kinds.push(kind as u8));
    assert(second.quartered(count).kinds == other.kinds.push(other_kind as u8));
    assert(before.kinds.push(kind as u8).last() == kind as u8);
    assert(other.kinds.push(other_kind as u8).last() == other_kind as u8);
}

/// The motion of quarters from one of the pictures is told by the bits of their vectors, where
/// their division is known.
#[verifier::spinoff_prover]
#[verifier::rlimit(40)]
proof fn lemma_quarters_side_told(
    first: BModel,
    second: BModel,
    count: int,
    later: bool,
    x: Seq<bool>,
    y: Seq<bool>,
)
    requires
        0 <= count <= 4,
        same_b_search(first, second),
        first.quartered(count).kinds == second.quartered(count).kinds,
        side_bits(first.quartered(count).trial, later) + x == side_bits(
            second.quartered(count).trial,
            later,
        ) + y,
    ensures
        same_side(first.quartered(count).trial, second.quartered(count).trial, later),
        x == y,
    decreases count,
{
    assert(first.address() == second.address());
    if count <= 0 {
        lemma_same_start(
            side_bits(first.fresh(), later),
            x,
            side_bits(second.fresh(), later),
            y,
        );
    } else {
        let before = first.quartered(count - 1);
        let other = second.quartered(count - 1);
        let kind = first.quarter_kind(before.trial, count - 1, 13);
        lemma_last_kind(first, second, count);
        let a = first.quarter_trial(before.trial, count - 1, kind);
        let b = second.quarter_trial(other.trial, count - 1, kind);
        lemma_list_joined(before.trial.selected, a.selected, later, a.selected.len() as int);
        lemma_list_joined(other.trial.selected, b.selected, later, b.selected.len() as int);
        let c = side_bits(a, later);
        let d = side_bits(b, later);
        assert((side_bits(before.trial, later) + c) + x =~= side_bits(before.trial, later) + (c
            + x));
        assert((side_bits(other.trial, later) + d) + y =~= side_bits(other.trial, later) + (d
            + y));
        lemma_quarters_side_told(first, second, count - 1, later, c + x, d + y);
        lemma_quarter_side_told(
            first,
            second,
            before.trial,
            other.trial,
            count - 1,
            kind,
            later,
            x,
            y,
        );
        lemma_sided_joined(before.trial.selected, a.selected, later);
        lemma_sided_joined(other.trial.selected, b.selected, later);
    }
}

/// Parts that tell the same of both pictures are the same.
pub proof fn lemma_both_sides(first: Seq<BSelectedPartition>, second: Seq<BSelectedPartition>)
    requires
        sided(first, false) == sided(second, false),
        sided(first, true) == sided(second, true),
    ensures
        first == second,
{
    assert(sided(first, false).len() == first.len());
    assert(sided(second, false).len() == second.len());
    assert forall|i: int| 0 <= i < first.len() implies first[i] == second[i] by {
        assert(sided(first, false)[i] == sided(second, false)[i]);
        assert(sided(first, true)[i] == sided(second, true)[i]);
    }
    assert(first =~= second);
}

/// The same parts predict the same samples.
pub proof fn lemma_parts_predict(
    first: BModel,
    second: BModel,
    trial: BTrialModel,
    other: BTrialModel,
    parts: Seq<DirectedPart>,
    analysis: AnalysisPreset,
    count: int,
)
    requires
        0 <= count,
        same_b_search(first, second),
        trial.prediction == other.prediction,
        first.with_parts(trial, parts, analysis, count).selected == second.with_parts(
            other,
            parts,
            analysis,
            count,
        ).selected,
    ensures
        first.with_parts(trial, parts, analysis, count).prediction == second.with_parts(
            other,
            parts,
            analysis,
            count,
        ).prediction,
    decreases count,
{
    if count > 0 {
        let before = first.with_parts(trial, parts, analysis, count - 1);
        let other_before = second.with_parts(other, parts, analysis, count - 1);
        let a = first.with_parts(trial, parts, analysis, count).selected;
        let b = second.with_parts(other, parts, analysis, count).selected;
        assert(a.drop_last() =~= before.selected);
        assert(b.drop_last() =~= other_before.selected);
        assert(a.last() == b.last());
        lemma_parts_predict(first, second, trial, other, parts, analysis, count - 1);
    }
}

/// Each part is one of those that are chosen.
proof fn lemma_parts_count(
    model: BModel,
    trial: BTrialModel,
    parts: Seq<DirectedPart>,
    analysis: AnalysisPreset,
    count: int,
)
    requires
        0 <= count,
    ensures
        model.with_parts(trial, parts, analysis, count).selected.len() == trial.selected.len()
            + count,
    decreases count,
{
    if count > 0 {
        lemma_parts_count(model, trial, parts, analysis, count - 1);
    }
}

/// The same parts of quarters predict the same samples, where the division is the same.
#[verifier::spinoff_prover]
pub proof fn lemma_quarters_predict(first: BModel, second: BModel, count: int)
    requires
        0 <= count <= 4,
        same_b_search(first, second),
        first.quartered(count).kinds == second.quartered(count).kinds,
        first.quartered(count).trial.selected == second.quartered(count).trial.selected,
    ensures
        first.quartered(count).trial.prediction == second.quartered(count).trial.prediction,
    decreases count,
{
    if count > 0 {
        let before = first.quartered(count - 1);
        let other = second.quartered(count - 1);
        let kind = first.quarter_kind(before.trial, count - 1, 13);
        lemma_last_kind(first, second, count);
        let a = first.quarter_trial(before.trial, count - 1, kind);
        let b = second.quarter_trial(other.trial, count - 1, kind);
        let start = BTrialModel { rate: 0, both: 0, selected: Seq::empty(), ..before.trial };
        let other_start = BTrialModel { rate: 0, both: 0, selected: Seq::empty(), ..other.trial };
        let parts = directed_quarter_parts(count - 1, kind);
        if kind != 0 {
            lemma_parts_count(
                first,
                start,
                parts,
                AnalysisPreset::Full,
                parts.len() as int,
            );
            lemma_parts_count(
                second,
                other_start,
                parts,
                AnalysisPreset::Full,
                parts.len() as int,
            );
        }
        assert(a.selected.len() == b.selected.len());
        let all = first.quartered(count).trial.selected;
        assert(all == before.trial.selected + a.selected);
        assert(all == other.trial.selected + b.selected);
        let at = before.trial.selected.len() as int;
        assert(all.len() == at + a.selected.len());
        assert(all.len() == other.trial.selected.len() + b.selected.len());
        assert(other.trial.selected.len() == at);
        assert(all.take(at) =~= before.trial.selected);
        assert(all.take(at) =~= other.trial.selected);
        assert(all.skip(at) =~= a.selected);
        assert(all.skip(at) =~= b.selected);
        lemma_quarters_predict(first, second, count - 1);
        if kind == 0 {
            lemma_direct_part(first, second, count - 1);
        } else {
            lemma_parts_predict(
                first,
                second,
                start,
                other_start,
                parts,
                AnalysisPreset::Full,
                parts.len() as int,
            );
        }
    }
}

/// Macroblocks all of whose motion is derived do not depend on the source.
proof fn lemma_direct_alike(first: BModel, second: BModel, count: int)
    requires
        same_b_search(first, second),
    ensures
        first.with_direct(count) == second.with_direct(count),
    decreases count,
{
    assert(first.address() == second.address());
    if count > 0 {
        lemma_direct_alike(first, second, count - 1);
        lemma_direct_part(first, second, count - 1);
    }
}

/// What a decision comes from: a division.
pub open spec fn b_decision_from(
    model: BModel,
    analysis: AnalysisPreset,
    decision: BDecisionModel,
) -> bool {
    let shape = decision.macroblock_type as int;
    if shape == 0 {
        model.direct() == Some(decision)
    } else if shape == 22 {
        decision == model.quarters()
    } else {
        shape <= 21 && decision == model.shaped(shape, analysis)
    }
}

proof fn lemma_best_shaped(model: BModel, analysis: AnalysisPreset, count: int)
    requires
        count <= 21,
    ensures
        b_decision_from(model, analysis, model.best_shaped(analysis, count)),
    decreases count,
{
    reveal(BModel::shaped);
    if count > 1 {
        lemma_best_shaped(model, analysis, count - 1);
    }
}

/// A decision comes from a division; motion is derived as a whole where nothing is divided.
pub proof fn lemma_b_decision(model: BModel, analysis: AnalysisPreset)
    ensures
        b_decision_from(model, analysis, model.decided(analysis)),
        model.decided(analysis).direct <==> model.decided(analysis).macroblock_type == 0,
{
    reveal(BModel::decided);
    lemma_best_shaped(model, analysis, 3);
    lemma_best_shaped(model, analysis, 21);
    reveal(BModel::shaped);
    reveal(BModel::direct);
    reveal(BModel::quarters);
}

/// Decisions that derive all motion are alike.
pub proof fn lemma_direct_told(
    first: BModel,
    second: BModel,
    analysis: AnalysisPreset,
    decision: BDecisionModel,
    other: BDecisionModel,
)
    requires
        same_b_search(first, second),
        b_decision_from(first, analysis, decision),
        b_decision_from(second, analysis, other),
        decision.macroblock_type == 0,
        other.macroblock_type == 0,
    ensures
        decision.partitions == other.partitions,
        decision.prediction == other.prediction,
{
    reveal(BModel::direct);
    lemma_direct_alike(first, second, 4);
}

/// The number of quarters that are divided.
proof fn lemma_kinds_count(model: BModel, count: int)
    requires
        0 <= count,
    ensures
        model.quartered(count).kinds.len() == count,
    decreases count,
{
    if count > 0 {
        lemma_kinds_count(model, count - 1);
    }
}

/// All four quarters are divided.
pub proof fn lemma_four_kinds(model: BModel)
    ensures
        model.quarters().sub_macroblock_types.len() == 4,
{
    reveal(BModel::quarters);
    lemma_kinds_count(model, 4);
}

/// The motion of a macroblock that is divided is told by the bits of its vectors.
#[verifier::spinoff_prover]
proof fn lemma_lists_told(
    first: BModel,
    second: BModel,
    analysis: AnalysisPreset,
    decision: BDecisionModel,
    other: BDecisionModel,
    x: Seq<bool>,
    y: Seq<bool>,
)
    requires
        same_b_search(first, second),
        b_decision_from(first, analysis, decision),
        b_decision_from(second, analysis, other),
        decision.macroblock_type == other.macroblock_type,
        decision.macroblock_type != 0,
        decision.macroblock_type == 22 ==> decision.sub_macroblock_types
            == other.sub_macroblock_types,
        list_written(decision.partitions, false, decision.partitions.len() as int) + (list_written(
            decision.partitions,
            true,
            decision.partitions.len() as int,
        ) + x) == list_written(other.partitions, false, other.partitions.len() as int) + (
        list_written(other.partitions, true, other.partitions.len() as int) + y),
    ensures
        decision.partitions == other.partitions,
        decision.prediction == other.prediction,
        x == y,
{
    reveal(BModel::shaped);
    reveal(BModel::quarters);
    assert(first.address() == second.address());
    let c = list_written(decision.partitions, true, decision.partitions.len() as int) + x;
    let d = list_written(other.partitions, true, other.partitions.len() as int) + y;
    if decision.macroblock_type == 22 {
        lemma_quarters_side_told(first, second, 4, false, c, d);
        lemma_quarters_side_told(first, second, 4, true, x, y);
        lemma_both_sides(decision.partitions, other.partitions);
        lemma_quarters_predict(first, second, 4);
    } else {
        let parts = directed_parts(decision.macroblock_type as int);
        let count = parts.len() as int;
        let start = first.fresh();
        let other_start = second.fresh();
        lemma_side_told(
            first,
            second,
            start,
            other_start,
            parts,
            analysis,
            false,
            count,
            c,
            d,
        );
        lemma_side_told(
            first,
            second,
            start,
            other_start,
            parts,
            analysis,
            true,
            count,
            x,
            y,
        );
        lemma_both_sides(decision.partitions, other.partitions);
        lemma_parts_predict(first, second, start, other_start, parts, analysis, count);
    }
}

/// The motion of a macroblock is told by its bits, where the macroblocks before it are known.
#[verifier::spinoff_prover]
#[verifier::rlimit(40)]
pub proof fn lemma_b_motion_told(
    first: BModel,
    second: BModel,
    analysis: AnalysisPreset,
    decision: BDecisionModel,
    other: BDecisionModel,
    x: Seq<bool>,
    y: Seq<bool>,
)
    requires
        same_b_search(first, second),
        b_decision_from(first, analysis, decision),
        b_decision_from(second, analysis, other),
        decision.direct <==> decision.macroblock_type == 0,
        other.direct <==> other.macroblock_type == 0,
        b_motion_bits(decision) + x == b_motion_bits(other) + y,
    ensures
        decision.macroblock_type == other.macroblock_type,
        decision.partitions == other.partitions,
        decision.prediction == other.prediction,
        x == y,
{
    let kinds = if decision.macroblock_type == 22 {
        kinds_written(decision.sub_macroblock_types, 4)
    } else {
        Seq::empty()
    };
    let other_kinds = if other.macroblock_type == 22 {
        kinds_written(other.sub_macroblock_types, 4)
    } else {
        Seq::empty()
    };
    let count = decision.partitions.len() as int;
    let other_count = other.partitions.len() as int;
    let a = if decision.direct {
        x
    } else {
        list_written(decision.partitions, false, count) + (list_written(
            decision.partitions,
            true,
            count,
        ) + x)
    };
    let b = if other.direct {
        y
    } else {
        list_written(other.partitions, false, other_count) + (list_written(
            other.partitions,
            true,
            other_count,
        ) + y)
    };
    assert(b_motion_bits(decision) + x =~= ue_bits(decision.macroblock_type as nat) + (kinds + a));
    assert(b_motion_bits(other) + y =~= ue_bits(other.macroblock_type as nat) + (other_kinds + b));
    law_unsigned_told(
        decision.macroblock_type as nat,
        other.macroblock_type as nat,
        kinds + a,
        other_kinds + b,
    );
    if decision.macroblock_type == 22 {
        lemma_kinds_told(decision.sub_macroblock_types, other.sub_macroblock_types, 4, a, b);
        lemma_four_kinds(first);
        lemma_four_kinds(second);
        assert(decision.sub_macroblock_types =~= other.sub_macroblock_types);
    } else {
        assert(kinds + a =~= a);
        assert(other_kinds + b =~= b);
    }
    if decision.macroblock_type == 0 {
        lemma_direct_told(first, second, analysis, decision, other);
    } else {
        lemma_lists_told(first, second, analysis, decision, other, x, y);
    }
}

} // verus!
