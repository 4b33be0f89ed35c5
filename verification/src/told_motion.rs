//! What the bits of the motion of a macroblock tell that is predicted from earlier pictures.

use vstd::prelude::*;

use crate::golomb::{reference_index_bits, se_bits, ue_bits};
use crate::p_picture::{
    kinds_written, named_references, p_motion_bits, repeated, vector_bits, vectors_written,
};
use crate::p_select::{
    all_refer, fresh_trial, DecisionModel, InterModel, PictureModel, ReferencePicture,
    SelectedPartition, TrialModel,
};
use crate::motion::InterPartition;
use crate::partitions::{macroblock_parts, quarter_parts};
use crate::told_codes::{law_signed_told, law_unsigned_told, lemma_same_start};

verus! {

/// Whether two macroblocks differ in nothing but their sources.
pub open spec fn same_search(first: InterModel, second: InterModel) -> bool {
    second == (InterModel { source: second.source, ..first })
}

/// Whether two trials led to the same motion and prediction.
pub open spec fn same_trial(first: TrialModel, second: TrialModel) -> bool {
    &&& first.motions == second.motions
    &&& first.prediction == second.prediction
    &&& first.selected == second.selected
}

/// The bits of vectors do not depend on those behind them.
proof fn lemma_vectors_before(
    first: Seq<SelectedPartition>,
    second: Seq<SelectedPartition>,
    count: int,
)
    requires
        count <= first.len(),
    ensures
        vectors_written(first + second, count) == vectors_written(first, count),
    decreases count,
{
    if count > 0 {
        lemma_vectors_before(first, second, count - 1);
        assert((first + second)[count - 1] == first[count - 1]);
    }
}

/// The bits of vectors stand one behind the other.
proof fn lemma_vectors_joined(
    first: Seq<SelectedPartition>,
    second: Seq<SelectedPartition>,
    count: int,
)
    requires
        0 <= count <= second.len(),
    ensures
        vectors_written(first + second, first.len() + count) == vectors_written(
            first,
            first.len() as int,
        ) + vectors_written(second, count),
    decreases count,
{
    if count == 0 {
        lemma_vectors_before(first, second, first.len() as int);
        assert(vectors_written(first, first.len() as int) + vectors_written(second, 0)
            =~= vectors_written(first, first.len() as int));
    } else {
        lemma_vectors_joined(first, second, count - 1);
        let start = vectors_written(first, first.len() as int);
        assert((first + second)[first.len() + count - 1] == second[count - 1]);
        assert((start + vectors_written(second, count - 1)) + vector_bits(second[count - 1])
            =~= start + vectors_written(second, count));
    }
}

/// The bits of all vectors of a trial.
pub open spec fn trial_bits(trial: TrialModel) -> Seq<bool> {
    vectors_written(trial.selected, trial.selected.len() as int)
}

/// One more part adds its bits.
proof fn lemma_part_bits(model: InterModel, trial: TrialModel, partition: InterPartition)
    ensures
        trial_bits(model.with_part(trial, partition)) == trial_bits(trial) + vector_bits(
            model.with_part(trial, partition).selected.last(),
        ),
{
    let after = model.with_part(trial, partition);
    let one = seq![after.selected.last()];
    assert(after.selected =~= trial.selected + one);
    lemma_vectors_joined(trial.selected, one, 1);
    assert(vectors_written(one, 0) =~= Seq::empty());
    assert(vectors_written(one, 1) =~= vector_bits(one[0]));
}

/// The motion of some parts is told by the bits of their vectors.
proof fn lemma_parts_told(
    first: InterModel,
    second: InterModel,
    trial: TrialModel,
    other: TrialModel,
    parts: Seq<InterPartition>,
    count: int,
    x: Seq<bool>,
    y: Seq<bool>,
)
    requires
        same_search(first, second),
        same_trial(trial, other),
        trial_bits(first.with_parts(trial, parts, count)) + x == trial_bits(
            second.with_parts(other, parts, count),
        ) + y,
    ensures
        same_trial(
            first.with_parts(trial, parts, count),
            second.with_parts(other, parts, count),
        ),
        x == y,
    decreases count,
{
    if count <= 0 {
        lemma_same_start(trial_bits(trial), x, trial_bits(other), y);
    } else {
        let before = first.with_parts(trial, parts, count - 1);
        let other_before = second.with_parts(other, parts, count - 1);
        let partition = parts[count - 1];
        let after = first.with_part(before, partition);
        let other_after = second.with_part(other_before, partition);
        let a = after.selected.last();
        let b = other_after.selected.last();
        lemma_part_bits(first, before, partition);
        lemma_part_bits(second, other_before, partition);
        assert((trial_bits(before) + vector_bits(a)) + x =~= trial_bits(before) + (vector_bits(a)
            + x));
        assert((trial_bits(other_before) + vector_bits(b)) + y =~= trial_bits(other_before) + (
        vector_bits(b) + y));
        lemma_parts_told(
            first,
            second,
            trial,
            other,
            parts,
            count - 1,
            vector_bits(a) + x,
            vector_bits(b) + y,
        );
        assert(first.address() == second.address());
        assert(a.predicted == b.predicted);
        let c = se_bits(a.motion.y - a.predicted.y) + x;
        let d = se_bits(b.motion.y - b.predicted.y) + y;
        assert(vector_bits(a) + x =~= se_bits(a.motion.x - a.predicted.x) + c);
        assert(vector_bits(b) + y =~= se_bits(b.motion.x - b.predicted.x) + d);
        law_signed_told(a.motion.x - a.predicted.x, b.motion.x - b.predicted.x, c, d);
        law_signed_told(a.motion.y - a.predicted.y, b.motion.y - b.predicted.y, x, y);
        assert(a.motion == b.motion);
        assert(after.selected =~= other_after.selected);
    }
}

/// Parts refer to the picture that is searched.
proof fn lemma_parts_refer(
    model: InterModel,
    trial: TrialModel,
    parts: Seq<InterPartition>,
    count: int,
)
    requires
        0 <= count,
        all_refer(trial.selected, model.reference_index),
    ensures
        all_refer(model.with_parts(trial, parts, count).selected, model.reference_index),
        model.with_parts(trial, parts, count).selected.len() == trial.selected.len() + count,
    decreases count,
{
    if count > 0 {
        lemma_parts_refer(model, trial, parts, count - 1);
    }
}

/// A quarter is divided in one of four ways.
pub proof fn lemma_kind(model: InterModel, before: TrialModel, quarter: int, count: int)
    requires
        count <= 4,
    ensures
        0 <= model.quarter_kind(before, quarter, count) < 4,
    decreases count,
{
    if count > 1 {
        lemma_kind(model, before, quarter, count - 1);
    }
}

/// Quarters refer to the picture that is searched.
pub proof fn lemma_quarters_refer(model: InterModel, count: int)
    requires
        0 <= count <= 4,
    ensures
        all_refer(model.quartered(count).trial.selected, model.reference_index),
        model.quartered(count).trial.selected.len() >= count,
        model.quartered(count).kinds.len() == count,
    decreases count,
{
    if count > 0 {
        lemma_quarters_refer(model, count - 1);
        let before = model.quartered(count - 1);
        let kind = model.quarter_kind(before.trial, count - 1, 4);
        let parts = quarter_parts(count - 1, kind);
        let start = TrialModel { rate: 0, selected: Seq::empty(), ..before.trial };
        lemma_parts_refer(model, start, parts, parts.len() as int);
        let more = model.quarter_trial(before.trial, count - 1, kind).selected;
        let all = model.quartered(count).trial.selected;
        assert(all == before.trial.selected + more);
        assert forall|i: int| 0 <= i < all.len() implies (#[trigger] all[i]).reference_index
            == model.reference_index by {
            if i < before.trial.selected.len() {
                assert(all[i] == before.trial.selected[i]);
            } else {
                assert(all[i] == more[i - before.trial.selected.len()]);
            }
        }
    }
}

/// The motion of quarters is told by the bits of their vectors, where their division is known.
proof fn lemma_quarters_told(
    first: InterModel,
    second: InterModel,
    count: int,
    x: Seq<bool>,
    y: Seq<bool>,
)
    requires
        0 <= count <= 4,
        same_search(first, second),
        first.quartered(count).kinds == second.quartered(count).kinds,
        trial_bits(first.quartered(count).trial) + x == trial_bits(second.quartered(count).trial)
            + y,
    ensures
        same_trial(first.quartered(count).trial, second.quartered(count).trial),
        x == y,
    decreases count,
{
    if count <= 0 {
        lemma_same_start(
            trial_bits(fresh_trial()),
            x,
            trial_bits(fresh_trial()),
            y,
        );
    } else {
        let before = first.quartered(count - 1);
        let other = second.quartered(count - 1);
        let kind = first.quarter_kind(before.trial, count - 1, 4);
        let other_kind = second.quarter_kind(other.trial, count - 1, 4);
        lemma_kind(first, before.trial, count - 1, 4);
        lemma_kind(second, other.trial, count - 1, 4);
        let kinds = first.quartered(count).kinds;
        assert(kinds.drop_last() =~= before.kinds);
        assert(second.quartered(count).kinds.drop_last() =~= other.kinds);
        assert(kinds.last() == kind as u8 && second.quartered(count).kinds.last()
            == other_kind as u8);
        assert(kind == other_kind);
        let a = first.quarter_trial(before.trial, count - 1, kind);
        let b = second.quarter_trial(other.trial, count - 1, kind);
        lemma_vectors_joined(before.trial.selected, a.selected, a.selected.len() as int);
        lemma_vectors_joined(other.trial.selected, b.selected, b.selected.len() as int);
        assert((trial_bits(before.trial) + trial_bits(a)) + x =~= trial_bits(before.trial) + (
        trial_bits(a) + x));
        assert((trial_bits(other.trial) + trial_bits(b)) + y =~= trial_bits(other.trial) + (
        trial_bits(b) + y));
        lemma_quarters_told(first, second, count - 1, trial_bits(a) + x, trial_bits(b) + y);
        let parts = quarter_parts(count - 1, kind);
        lemma_parts_told(
            first,
            second,
            TrialModel { rate: 0, selected: Seq::empty(), ..before.trial },
            TrialModel { rate: 0, selected: Seq::empty(), ..other.trial },
            parts,
            parts.len() as int,
            x,
            y,
        );
    }
}

/// How quarters are divided is told by its codes.
pub proof fn lemma_kinds_told(
    first: Seq<u8>,
    second: Seq<u8>,
    count: int,
    x: Seq<bool>,
    y: Seq<bool>,
)
    requires
        kinds_written(first, count) + x == kinds_written(second, count) + y,
    ensures
        forall|i: int| 0 <= i < count ==> first[i] == second[i],
        x == y,
    decreases count,
{
    if count <= 0 {
        assert(kinds_written(first, count) + x =~= x);
        assert(kinds_written(second, count) + y =~= y);
    } else {
        let a = ue_bits(first[count - 1] as nat);
        let b = ue_bits(second[count - 1] as nat);
        assert(kinds_written(first, count) + x =~= kinds_written(first, count - 1) + (a + x));
        assert(kinds_written(second, count) + y =~= kinds_written(second, count - 1) + (b + y));
        lemma_kinds_told(first, second, count - 1, a + x, b + y);
        law_unsigned_told(first[count - 1] as nat, second[count - 1] as nat, x, y);
    }
}

/// Which picture is referred to is told by its code.
pub proof fn law_picture_told(
    first: nat,
    second: nat,
    active_minus1: nat,
    x: Seq<bool>,
    y: Seq<bool>,
)
    requires
        first <= active_minus1,
        second <= active_minus1,
        reference_index_bits(first, active_minus1) + x == reference_index_bits(
            second,
            active_minus1,
        ) + y,
    ensures
        first == second,
        x == y,
{
    if active_minus1 == 0 {
        assert(reference_index_bits(first, active_minus1) + x =~= x);
        assert(reference_index_bits(second, active_minus1) + y =~= y);
    } else if active_minus1 == 1 {
        let a = reference_index_bits(first, active_minus1);
        let b = reference_index_bits(second, active_minus1);
        lemma_same_start(a, x, b, y);
        assert(a[0] == (first == 0) && b[0] == (second == 0));
    } else {
        law_unsigned_told(first, second, x, y);
    }
}

/// Which picture is referred to is told by its codes, however often they stand.
proof fn lemma_repeated_told(
    first: nat,
    second: nat,
    active_minus1: nat,
    count: int,
    x: Seq<bool>,
    y: Seq<bool>,
)
    requires
        1 <= count,
        first <= active_minus1,
        second <= active_minus1,
        repeated(reference_index_bits(first, active_minus1), count) + x == repeated(
            reference_index_bits(second, active_minus1),
            count,
        ) + y,
    ensures
        first == second,
        x == y,
    decreases count,
{
    let a = reference_index_bits(first, active_minus1);
    let b = reference_index_bits(second, active_minus1);
    assert(repeated(a, count) + x =~= repeated(a, count - 1) + (a + x));
    assert(repeated(b, count) + y =~= repeated(b, count - 1) + (b + y));
    if count == 1 {
        assert(repeated(a, 0) + (a + x) =~= a + x);
        assert(repeated(b, 0) + (b + y) =~= b + y);
    } else {
        lemma_repeated_told(first, second, active_minus1, count - 1, a + x, b + y);
    }
    law_picture_told(first, second, active_minus1, x, y);
}

/// What a decision comes from: a reference picture, and a division.
pub open spec fn decision_from(
    model: PictureModel,
    references: Seq<ReferencePicture>,
    index: int,
    decision: DecisionModel,
) -> bool {
    let search = model.with_reference(references[index].planes, index);
    let shape = decision.macroblock_type as int;
    let chosen = if shape == 3 {
        search.quarters()
    } else {
        search.shaped(shape)
    };
    &&& 0 <= shape <= 3
    &&& decision.sub_macroblock_types == chosen.sub_macroblock_types
    &&& decision.partitions == chosen.partitions
    &&& decision.prediction == chosen.prediction
}

proof fn lemma_decided(model: PictureModel, references: Seq<ReferencePicture>, index: int)
    ensures
        decision_from(model, references, index, model.decided_from(references, index)),
{
    reveal(InterModel::decided);
    reveal(InterModel::shaped);
    reveal(InterModel::quarters);
}

/// A decision comes from one of the reference pictures.
pub proof fn lemma_decision(
    model: PictureModel,
    references: Seq<ReferencePicture>,
    count: int,
) -> (index: int)
    ensures
        0 <= index,
        index == 0 || index < count,
        decision_from(model, references, index, model.best_reference(references, count)),
    decreases count,
{
    if count <= 1 {
        lemma_decided(model, references, 0);
        0
    } else {
        let earlier = lemma_decision(model, references, count - 1);
        lemma_decided(model, references, count - 1);
        if model.decided_from(references, count - 1).cost < model.best_reference(
            references,
            count - 1,
        ).cost {
            count - 1
        } else {
            earlier
        }
    }
}

/// The parts of a decision refer to its picture.
pub proof fn lemma_decision_refers(
    model: PictureModel,
    references: Seq<ReferencePicture>,
    index: int,
    decision: DecisionModel,
)
    requires
        decision_from(model, references, index, decision),
    ensures
        decision.partitions.len() >= 1,
        all_refer(decision.partitions, index as u8),
        decision.macroblock_type == 3 ==> decision.sub_macroblock_types.len() == 4,
{
    reveal(InterModel::shaped);
    reveal(InterModel::quarters);
    let search = model.with_reference(references[index].planes, index);
    let shape = decision.macroblock_type as int;
    if shape == 3 {
        lemma_quarters_refer(search, 4);
    } else {
        let parts = macroblock_parts(shape);
        lemma_parts_refer(search, fresh_trial(), parts, parts.len() as int);
    }
}

/// The motion of a macroblock is told by its bits, where the macroblocks before it are known.
#[verifier::spinoff_prover]
#[verifier::rlimit(40)]
pub proof fn lemma_motion_told(
    first: PictureModel,
    second: PictureModel,
    references: Seq<ReferencePicture>,
    index: int,
    other_index: int,
    decision: DecisionModel,
    other: DecisionModel,
    x: Seq<bool>,
    y: Seq<bool>,
)
    requires
        second == (PictureModel { source: second.source, ..first }),
        references.len() <= 256,
        0 <= index < references.len(),
        0 <= other_index < references.len(),
        decision_from(first, references, index, decision),
        decision_from(second, references, other_index, other),
        p_motion_bits(decision, references.len() - 1) + x == p_motion_bits(
            other,
            references.len() - 1,
        ) + y,
    ensures
        decision.macroblock_type == other.macroblock_type,
        decision.partitions == other.partitions,
        decision.prediction == other.prediction,
        x == y,
{
    lemma_decision_refers(first, references, index, decision);
    lemma_decision_refers(second, references, other_index, other);
    let active = (references.len() - 1) as nat;
    assert(decision.partitions[0].reference_index == index as u8);
    assert(other.partitions[0].reference_index == other_index as u8);
    let kinds = if decision.macroblock_type == 3 {
        kinds_written(decision.sub_macroblock_types, 4)
    } else {
        Seq::empty()
    };
    let other_kinds = if other.macroblock_type == 3 {
        kinds_written(other.sub_macroblock_types, 4)
    } else {
        Seq::empty()
    };
    let named = repeated(
        reference_index_bits(index as nat, active),
        named_references(decision.macroblock_type as int),
    );
    let other_named = repeated(
        reference_index_bits(other_index as nat, active),
        named_references(other.macroblock_type as int),
    );
    let vectors = vectors_written(decision.partitions, decision.partitions.len() as int);
    let other_vectors = vectors_written(other.partitions, other.partitions.len() as int);
    let a = named + (vectors + x);
    let b = other_named + (other_vectors + y);
    assert(p_motion_bits(decision, references.len() - 1) + x =~= ue_bits(
        decision.macroblock_type as nat,
    ) + (kinds + a));
    assert(p_motion_bits(other, references.len() - 1) + y =~= ue_bits(
        other.macroblock_type as nat,
    ) + (other_kinds + b));
    law_unsigned_told(
        decision.macroblock_type as nat,
        other.macroblock_type as nat,
        kinds + a,
        other_kinds + b,
    );
    if decision.macroblock_type == 3 {
        lemma_kinds_told(decision.sub_macroblock_types, other.sub_macroblock_types, 4, a, b);
        assert(decision.sub_macroblock_types =~= other.sub_macroblock_types);
    } else {
        assert(kinds + a =~= a);
        assert(other_kinds + b =~= b);
    }
    lemma_repeated_told(
        index as nat,
        other_index as nat,
        active,
        named_references(decision.macroblock_type as int),
        vectors + x,
        other_vectors + y,
    );
    let search = first.with_reference(references[index].planes, index);
    let other_search = second.with_reference(references[index].planes, index);
    assert(same_search(search, other_search));
    reveal(InterModel::shaped);
    reveal(InterModel::quarters);
    if decision.macroblock_type == 3 {
        lemma_quarters_told(search, other_search, 4, x, y);
    } else {
        let parts = macroblock_parts(decision.macroblock_type as int);
        lemma_parts_told(
            search,
            other_search,
            fresh_trial(),
            fresh_trial(),
            parts,
            parts.len() as int,
            x,
            y,
        );
    }
}

/// Macroblocks that are whole and move alike are predicted alike.
pub proof fn lemma_whole_told(
    first: PictureModel,
    second: PictureModel,
    references: Seq<ReferencePicture>,
    decision: DecisionModel,
    other: DecisionModel,
)
    requires
        second == (PictureModel { source: second.source, ..first }),
        decision_from(first, references, 0, decision),
        decision_from(second, references, 0, other),
        decision.macroblock_type == 0,
        other.macroblock_type == 0,
        decision.partitions[0].motion == other.partitions[0].motion,
    ensures
        decision.partitions == other.partitions,
        decision.prediction == other.prediction,
{
    reveal(InterModel::shaped);
    let search = first.with_reference(references[0].planes, 0);
    let other_search = second.with_reference(references[0].planes, 0);
    let parts = macroblock_parts(0);
    reveal_with_fuel(InterModel::with_parts, 2);
    let a = search.with_part(fresh_trial(), parts[0]);
    let b = other_search.with_part(fresh_trial(), parts[0]);
    assert(search.with_parts(fresh_trial(), parts, 1) == a);
    assert(other_search.with_parts(fresh_trial(), parts, 1) == b);
    assert(search.address() == other_search.address());
    assert(a.selected[0] == decision.partitions[0]);
    assert(b.selected[0] == other.partitions[0]);
    assert(a.selected =~= b.selected);
}

} // verus!
