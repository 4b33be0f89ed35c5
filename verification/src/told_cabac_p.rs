//! What the unit of a picture tells that is predicted from earlier ones and written with
//! arithmetic codes.

use vstd::prelude::*;

use crate::arithmetic::Bin;
use crate::bins::{inner_bins, MOTION_X, MOTION_Y, SLOT_COUNT};
use crate::bits::bits_of;
use crate::cabac_inter::InterState;
use crate::cabac_p::{
    cabac_p_coded, cabac_p_macroblock, cabac_p_picture, differences_coded, p_blank,
    p_told_motion, sub_types_p, PMarked,
};
use crate::config::{AnalysisPreset, Configuration};
use crate::deblock::block_at;
use crate::frame::{padded_samples, FrameModel};
use crate::golomb::{se_bits, ue_bits};
use crate::inner_symbols::lemma_inner_joined;
use crate::inter_bins::{
    difference_coded, index_at, index_coded, indices_coded, motion_bins, reference_bins,
    reference_parts, refers_far, size_across, size_down, skip_slot, sub_type_p_bins, type_p_bins,
    vector_difference, Differences, Indices,
};
use crate::inter_coding::{inter_coded, InterCoded};
use crate::math::unit;
use crate::motion::{skip_vector, with_partition, whole_partition, InterPartition, MotionState};
use crate::neighbors::{left_entry, left_of, top_entry, top_of};
use crate::p_picture::{
    inter_site, p_decision, p_header, p_skipped, parts_large, picture_model, with_selected,
};
use crate::p_select::{
    all_refer, fresh_trial, DecisionModel, InterModel, PictureModel, ReferencePicture,
    SelectedPartition, TrialModel,
};
use crate::partitions::{macroblock_parts, quarter_parts};
use crate::picture::{Samples, SiteModel};
use crate::quantize::quantizer;
use crate::quantizers::adaptive_qps;
use crate::told_cabac::{lemma_bytes_read, lemma_headers_read};
use crate::told_cabac_inter::{
    lemma_pattern_adds, lemma_residual_adds, lemma_residual_inner, lemma_told_pattern_inner,
    lemma_told_pattern_read, lemma_told_residual_read,
};
use crate::told_codes::{law_signed_told, lemma_same_start};
use crate::told_inter::{
    coded_pattern, lemma_inter_alike, lemma_inter_sized, lemma_no_marks,
};
use crate::told_inter_symbols::{
    law_motion_read, law_reference_read, law_sub_type_p_read, law_type_p_read, lemma_motion_inner,
    lemma_reference_inner, lemma_types_inner,
};
use crate::told_motion::{
    decision_from, lemma_decision, lemma_decision_refers, lemma_kind, lemma_whole_told, same_search,
    same_trial,
};
use crate::told_pictures::{lemma_chroma_equal, lemma_quantizers, same_place};
use crate::told_symbols::{lemma_go_on, lemma_one, together};

verus! {

/// The vector differences of all parts.
pub open spec fn moved(
    state: Differences,
    address: int,
    wide: int,
    selected: Seq<SelectedPartition>,
) -> Differences {
    differences_coded(state, address, wide, selected, selected.len() as int)
}

proof fn lemma_moved_before(
    state: Differences,
    address: int,
    wide: int,
    first: Seq<SelectedPartition>,
    second: Seq<SelectedPartition>,
    count: int,
)
    requires
        count <= first.len(),
    ensures
        differences_coded(state, address, wide, first + second, count) == differences_coded(
            state,
            address,
            wide,
            first,
            count,
        ),
    decreases count,
{
    if count > 0 {
        lemma_moved_before(state, address, wide, first, second, count - 1);
        assert((first + second)[count - 1] == first[count - 1]);
    }
}

/// Vector differences follow each other.
pub proof fn lemma_moved_joined(
    state: Differences,
    address: int,
    wide: int,
    first: Seq<SelectedPartition>,
    second: Seq<SelectedPartition>,
    count: int,
)
    requires
        0 <= count <= second.len(),
    ensures
        differences_coded(state, address, wide, first + second, first.len() + count)
            == differences_coded(
            moved(state, address, wide, first),
            address,
            wide,
            second,
            count,
        ),
    decreases count,
{
    if count == 0 {
        lemma_moved_before(state, address, wide, first, second, first.len() as int);
    } else {
        lemma_moved_joined(state, address, wide, first, second, count - 1);
        assert((first + second)[first.len() + count - 1] == second[count - 1]);
    }
}

/// The symbols of one vector difference.
pub open spec fn difference_bins(
    state: Differences,
    address: int,
    wide: int,
    selected: SelectedPartition,
) -> Seq<Bin> {
    let part = selected.partition;
    let block = block_at(part.block_x as int, part.block_y as int);
    let left = left_entry(state.entries, address, block, wide);
    let top = top_entry(state.entries, address, block, wide);
    let difference = vector_difference(selected);
    motion_bins(
        MOTION_X as int,
        size_across(left) + size_across(top),
        difference.x as int,
    ) + motion_bins(MOTION_Y as int, size_down(left) + size_down(top), difference.y as int)
}

/// A vector difference adds its symbols.
pub proof fn lemma_difference_adds(
    state: Differences,
    address: int,
    wide: int,
    selected: SelectedPartition,
)
    ensures
        difference_coded(state, address, wide, selected).bins == state.bins + difference_bins(
            state,
            address,
            wide,
            selected,
        ),
{
    reveal(difference_coded);
    let part = selected.partition;
    let block = block_at(part.block_x as int, part.block_y as int);
    let left = left_entry(state.entries, address, block, wide);
    let top = top_entry(state.entries, address, block, wide);
    let difference = vector_difference(selected);
    let a = motion_bins(
        MOTION_X as int,
        size_across(left) + size_across(top),
        difference.x as int,
    );
    let b = motion_bins(MOTION_Y as int, size_down(left) + size_down(top), difference.y as int);
    assert(state.bins + a + b =~= state.bins + (a + b));
}

/// Vector differences add symbols.
pub proof fn lemma_moved_adds(
    state: Differences,
    address: int,
    wide: int,
    selected: Seq<SelectedPartition>,
    count: int,
) -> (more: Seq<Bin>)
    ensures
        differences_coded(state, address, wide, selected, count).bins == state.bins + more,
    decreases count,
{
    if count <= 0 {
        assert(state.bins =~= state.bins + Seq::empty());
        Seq::empty()
    } else {
        let more = lemma_moved_adds(state, address, wide, selected, count - 1);
        let before = differences_coded(state, address, wide, selected, count - 1);
        lemma_difference_adds(before, address, wide, selected[count - 1]);
        let last = difference_bins(before, address, wide, selected[count - 1]);
        assert((state.bins + more) + last =~= state.bins + (more + last));
        more + last
    }
}

/// A number is told by its difference from a known one, however it is cut to size.
proof fn lemma_difference_told(first: i32, second: i32, known: i32)
    requires
        (first - known) as i32 == (second - known) as i32,
    ensures
        first == second,
{
    assert((first - known) as i32 == (second - known) as i32 ==> first == second)
        by (bit_vector);
}

/// A vector is told by the symbols of its difference from the predicted one.
pub proof fn lemma_vector_read(
    state: Differences,
    address: int,
    wide: int,
    first: SelectedPartition,
    second: SelectedPartition,
    x: Seq<Bin>,
    y: Seq<Bin>,
)
    requires
        first.partition == second.partition,
        first.predicted == second.predicted,
        together(
            difference_bins(state, address, wide, first) + x,
            difference_bins(state, address, wide, second) + y,
        ),
    ensures
        first.motion == second.motion,
        together(x, y),
{
    let part = first.partition;
    let block = block_at(part.block_x as int, part.block_y as int);
    let left = left_entry(state.entries, address, block, wide);
    let top = top_entry(state.entries, address, block, wide);
    let across = size_across(left) + size_across(top);
    let down = size_down(left) + size_down(top);
    let m = vector_difference(first);
    let n = vector_difference(second);
    let a = motion_bins(MOTION_X as int, across, m.x as int);
    let b = motion_bins(MOTION_X as int, across, n.x as int);
    let c = motion_bins(MOTION_Y as int, down, m.y as int);
    let d = motion_bins(MOTION_Y as int, down, n.y as int);
    assert((a + c) + x =~= a + (c + x));
    assert((b + d) + y =~= b + (d + y));
    law_motion_read(MOTION_X as int, across, m.x as int, n.x as int, c + x, d + y);
    law_motion_read(MOTION_Y as int, down, m.y as int, n.y as int, x, y);
    lemma_difference_told(first.motion.x, second.motion.x, first.predicted.x);
    lemma_difference_told(first.motion.y, second.motion.y, first.predicted.y);
}

/// The motion of some parts is told by the symbols of their vectors.
proof fn lemma_parts_read(
    first: InterModel,
    second: InterModel,
    trial: TrialModel,
    other: TrialModel,
    parts: Seq<InterPartition>,
    count: int,
    state: Differences,
    x: Seq<Bin>,
    y: Seq<Bin>,
)
    requires
        same_search(first, second),
        same_trial(trial, other),
        together(
            moved(
                state,
                first.address(),
                first.wide,
                first.with_parts(trial, parts, count).selected,
            ).bins + x,
            moved(
                state,
                first.address(),
                first.wide,
                second.with_parts(other, parts, count).selected,
            ).bins + y,
        ),
    ensures
        same_trial(
            first.with_parts(trial, parts, count),
            second.with_parts(other, parts, count),
        ),
        together(x, y),
    decreases count,
{
    let address = first.address();
    let wide = first.wide;
    if count <= 0 {
        lemma_go_on(moved(state, address, wide, trial.selected).bins, x, y);
    } else {
        let before = first.with_parts(trial, parts, count - 1);
        let other_before = second.with_parts(other, parts, count - 1);
        let partition = parts[count - 1];
        let after = first.with_part(before, partition);
        let other_after = second.with_part(other_before, partition);
        let a = after.selected.last();
        let b = other_after.selected.last();
        assert(after.selected =~= before.selected + seq![a]);
        assert(other_after.selected =~= other_before.selected + seq![b]);
        lemma_moved_before(
            state,
            address,
            wide,
            before.selected,
            seq![a],
            before.selected.len() as int,
        );
        lemma_moved_before(
            state,
            address,
            wide,
            other_before.selected,
            seq![b],
            other_before.selected.len() as int,
        );
        let u = moved(state, address, wide, before.selected);
        let v = moved(state, address, wide, other_before.selected);
        assert(moved(state, address, wide, after.selected) == difference_coded(
            u,
            address,
            wide,
            a,
        ));
        assert(moved(state, address, wide, other_after.selected) == difference_coded(
            v,
            address,
            wide,
            b,
        ));
        lemma_difference_adds(u, address, wide, a);
        lemma_difference_adds(v, address, wide, b);
        let c = difference_bins(u, address, wide, a);
        let d = difference_bins(v, address, wide, b);
        assert((u.bins + c) + x =~= u.bins + (c + x));
        assert((v.bins + d) + y =~= v.bins + (d + y));
        lemma_parts_read(
            first,
            second,
            trial,
            other,
            parts,
            count - 1,
            state,
            c + x,
            d + y,
        );
        assert(first.address() == second.address());
        assert(a.predicted == b.predicted);
        lemma_vector_read(u, address, wide, a, b, x, y);
        assert(after.selected =~= other_after.selected);
    }
}

/// The motion of quarters is told by the symbols of their vectors, where their division is known.
#[verifier::spinoff_prover]
#[verifier::rlimit(40)]
proof fn lemma_quarters_read(
    first: InterModel,
    second: InterModel,
    count: int,
    state: Differences,
    x: Seq<Bin>,
    y: Seq<Bin>,
)
    requires
        0 <= count <= 4,
        same_search(first, second),
        first.quartered(count).kinds == second.quartered(count).kinds,
        together(
            moved(
                state,
                first.address(),
                first.wide,
                first.quartered(count).trial.selected,
            ).bins + x,
            moved(
                state,
                first.address(),
                first.wide,
                second.quartered(count).trial.selected,
            ).bins + y,
        ),
    ensures
        same_trial(first.quartered(count).trial, second.quartered(count).trial),
        together(x, y),
    decreases count,
{
    let address = first.address();
    let wide = first.wide;
    if count <= 0 {
        lemma_go_on(moved(state, address, wide, fresh_trial().selected).bins, x, y);
    } else {
        let before = first.quartered(count - 1);
        let other = second.quartered(count - 1);
        let kind = first.quarter_kind(before.trial, count - 1, 4);
        let other_kind = second.quarter_kind(other.trial, count - 1, 4);
        lemma_kind(first, before.trial, count - 1, 4);
        lemma_kind(second, other.trial, count - 1, 4);
        assert(first.quartered(count).kinds == before.kinds.push(kind as u8));
        assert(second.quartered(count).kinds == other.kinds.push(other_kind as u8));
        assert(first.quartered(count).kinds.drop_last() =~= before.kinds);
        assert(second.quartered(count).kinds.drop_last() =~= other.kinds);
        assert(before.kinds.push(kind as u8).last() == kind as u8);
        assert(other.kinds.push(other_kind as u8).last() == other_kind as u8);
        assert(kind == other_kind);
        let a = first.quarter_trial(before.trial, count - 1, kind);
        let b = second.quarter_trial(other.trial, count - 1, kind);
        let u = moved(state, address, wide, before.trial.selected);
        let v = moved(state, address, wide, other.trial.selected);
        lemma_moved_joined(
            state,
            address,
            wide,
            before.trial.selected,
            a.selected,
            a.selected.len() as int,
        );
        lemma_moved_joined(
            state,
            address,
            wide,
            other.trial.selected,
            b.selected,
            b.selected.len() as int,
        );
        assert(first.quartered(count).trial.selected == before.trial.selected + a.selected);
        assert(second.quartered(count).trial.selected == other.trial.selected + b.selected);
        let c = lemma_moved_adds(u, address, wide, a.selected, a.selected.len() as int);
        let d = lemma_moved_adds(v, address, wide, b.selected, b.selected.len() as int);
        assert((u.bins + c) + x =~= u.bins + (c + x));
        assert((v.bins + d) + y =~= v.bins + (d + y));
        lemma_quarters_read(first, second, count - 1, state, c + x, d + y);
        let parts = quarter_parts(count - 1, kind);
        lemma_parts_read(
            first,
            second,
            TrialModel { rate: 0, selected: Seq::empty(), ..before.trial },
            TrialModel { rate: 0, selected: Seq::empty(), ..other.trial },
            parts,
            parts.len() as int,
            u,
            x,
            y,
        );
    }
}

/// How quarters are divided is told by its symbols.
proof fn lemma_sub_types_read(
    first: Seq<u8>,
    second: Seq<u8>,
    count: int,
    x: Seq<Bin>,
    y: Seq<Bin>,
)
    requires
        forall|i: int| 0 <= i < count ==> #[trigger] first[i] <= 3,
        forall|i: int| 0 <= i < count ==> #[trigger] second[i] <= 3,
        together(sub_types_p(first, count) + x, sub_types_p(second, count) + y),
    ensures
        forall|i: int| 0 <= i < count ==> first[i] == second[i],
        together(x, y),
    decreases count,
{
    if count <= 0 {
        assert(sub_types_p(first, count) + x =~= x);
        assert(sub_types_p(second, count) + y =~= y);
    } else {
        let a = sub_type_p_bins(first[count - 1] as int);
        let b = sub_type_p_bins(second[count - 1] as int);
        assert(sub_types_p(first, count) + x =~= sub_types_p(first, count - 1) + (a + x));
        assert(sub_types_p(second, count) + y =~= sub_types_p(second, count - 1) + (b + y));
        lemma_sub_types_read(first, second, count - 1, a + x, b + y);
        law_sub_type_p_read(first[count - 1] as int, second[count - 1] as int, x, y);
    }
}

/// All parts refer to the same picture.
proof fn lemma_index_at(selected: Seq<SelectedPartition>, part: InterPartition, index: u8, from: int)
    requires
        selected.len() >= 1,
        0 <= from,
        all_refer(selected, index),
    ensures
        index_at(selected, part, from) == index,
    decreases selected.len() - from,
{
    if from < selected.len() {
        lemma_index_at(selected, part, index, from + 1);
    }
}

/// Which probability says whether a part refers to the nearest picture.
spec fn far(state: Indices, address: int, wide: int, part: InterPartition) -> int {
    let block = block_at(part.block_x as int, part.block_y as int);
    unit(refers_far(left_entry(state.entries, address, block, wide))) + 2 * unit(
        refers_far(top_entry(state.entries, address, block, wide)),
    )
}

/// Reference indices add symbols.
proof fn lemma_indices_adds(
    state: Indices,
    address: int,
    wide: int,
    parts: Seq<InterPartition>,
    selected: Seq<SelectedPartition>,
    active_minus1: int,
    count: int,
) -> (more: Seq<Bin>)
    ensures
        indices_coded(state, address, wide, parts, selected, active_minus1, count).bins
            == state.bins + more,
    decreases count,
{
    reveal(index_coded);
    if count <= 0 {
        assert(state.bins =~= state.bins + Seq::empty());
        Seq::empty()
    } else {
        let more = lemma_indices_adds(
            state,
            address,
            wide,
            parts,
            selected,
            active_minus1,
            count - 1,
        );
        let before = indices_coded(
            state,
            address,
            wide,
            parts,
            selected,
            active_minus1,
            count - 1,
        );
        let part = parts[count - 1];
        let last = reference_bins(
            index_at(selected, part, 0) as int,
            far(before, address, wide, part),
            active_minus1,
        );
        assert((state.bins + more) + last =~= state.bins + (more + last));
        more + last
    }
}

/// The picture that parts refer to is told by its symbols.
proof fn lemma_indices_read(
    state: Indices,
    address: int,
    wide: int,
    parts: Seq<InterPartition>,
    first: Seq<SelectedPartition>,
    second: Seq<SelectedPartition>,
    index: u8,
    other: u8,
    active_minus1: int,
    count: int,
    x: Seq<Bin>,
    y: Seq<Bin>,
)
    requires
        0 <= count,
        first.len() >= 1,
        second.len() >= 1,
        all_refer(first, index),
        all_refer(second, other),
        index <= active_minus1,
        other <= active_minus1,
        together(
            indices_coded(state, address, wide, parts, first, active_minus1, count).bins + x,
            indices_coded(state, address, wide, parts, second, active_minus1, count).bins + y,
        ),
    ensures
        count >= 1 ==> index == other,
        indices_coded(state, address, wide, parts, first, active_minus1, count) == indices_coded(
            state,
            address,
            wide,
            parts,
            second,
            active_minus1,
            count,
        ),
        together(x, y),
    decreases count,
{
    reveal(index_coded);
    if count <= 0 {
        lemma_go_on(state.bins, x, y);
    } else {
        let a = indices_coded(state, address, wide, parts, first, active_minus1, count - 1);
        let b = indices_coded(state, address, wide, parts, second, active_minus1, count - 1);
        let part = parts[count - 1];
        lemma_index_at(first, part, index, 0);
        lemma_index_at(second, part, other, 0);
        let c = reference_bins(index as int, far(a, address, wide, part), active_minus1);
        let d = reference_bins(other as int, far(b, address, wide, part), active_minus1);
        assert((a.bins + c) + x =~= a.bins + (c + x));
        assert((b.bins + d) + y =~= b.bins + (d + y));
        lemma_indices_read(
            state,
            address,
            wide,
            parts,
            first,
            second,
            index,
            other,
            active_minus1,
            count - 1,
            c + x,
            d + y,
        );
        law_reference_read(
            index as int,
            other as int,
            far(a, address, wide, part),
            active_minus1,
            x,
            y,
        );
    }
}

/// Quarters are divided in one of four ways.
proof fn lemma_kinds_fit(model: InterModel, count: int)
    requires
        0 <= count <= 4,
    ensures
        model.quartered(count).kinds.len() == count,
        forall|i: int| 0 <= i < count ==> #[trigger] model.quartered(count).kinds[i] <= 3,
    decreases count,
{
    if count > 0 {
        lemma_kinds_fit(model, count - 1);
        let before = model.quartered(count - 1);
        lemma_kind(model, before.trial, count - 1, 4);
        let kind = model.quarter_kind(before.trial, count - 1, 4);
        let kinds = model.quartered(count).kinds;
        assert(kinds == before.kinds.push(kind as u8));
        assert forall|i: int| 0 <= i < count implies #[trigger] kinds[i] <= 3 by {
            if i < count - 1 {
                assert(kinds[i] == before.kinds[i]);
            }
        }
    }
}

proof fn lemma_decision_kinds(
    model: PictureModel,
    references: Seq<ReferencePicture>,
    index: int,
    decision: DecisionModel,
)
    requires
        decision_from(model, references, index, decision),
        decision.macroblock_type == 3,
    ensures
        decision.sub_macroblock_types.len() == 4,
        forall|i: int| 0 <= i < 4 ==> #[trigger] decision.sub_macroblock_types[i] <= 3,
{
    reveal(InterModel::quarters);
    lemma_kinds_fit(model.with_reference(references[index].planes, index), 4);
}

/// The symbols of the type of a macroblock and those of its quarters.
spec fn typed_bins(decision: DecisionModel) -> Seq<Bin> {
    type_p_bins(decision.macroblock_type as int) + if decision.macroblock_type == 3 {
        sub_types_p(decision.sub_macroblock_types, 4)
    } else {
        Seq::empty()
    }
}

/// The reference indices of a macroblock.
spec fn indexed(
    state: PMarked,
    address: int,
    wide: int,
    decision: DecisionModel,
    active_minus1: int,
) -> Indices {
    let parts = reference_parts(decision.macroblock_type as int);
    indices_coded(
        Indices { bins: state.inter.marked.bins + typed_bins(decision), entries: state.indices },
        address,
        wide,
        parts,
        decision.partitions,
        active_minus1,
        parts.len() as int,
    )
}

proof fn lemma_motion_form(
    state: PMarked,
    address: int,
    wide: int,
    decision: DecisionModel,
    active_minus1: int,
)
    ensures
        ({
            let i = indexed(state, address, wide, decision, active_minus1);
            let m = moved(
                Differences { bins: i.bins, entries: state.differences },
                address,
                wide,
                decision.partitions,
            );
            p_told_motion(state, address, wide, decision, active_minus1) == (PMarked {
                inter: state.inter.with_bins(m.bins),
                indices: i.entries,
                differences: m.entries,
                motions: state.motions,
            })
        }),
{
    reveal(p_told_motion);
    let bins = state.inter.marked.bins;
    let kind = decision.macroblock_type as int;
    let subs = if kind == 3 {
        sub_types_p(decision.sub_macroblock_types, 4)
    } else {
        Seq::empty()
    };
    assert(bins + type_p_bins(kind) + subs =~= bins + typed_bins(decision));
}

/// The motion of a macroblock adds symbols.
proof fn lemma_motion_adds(
    state: PMarked,
    address: int,
    wide: int,
    decision: DecisionModel,
    active_minus1: int,
) -> (more: Seq<Bin>)
    ensures
        p_told_motion(state, address, wide, decision, active_minus1).inter.marked.bins
            == state.inter.marked.bins + more,
{
    lemma_motion_form(state, address, wide, decision, active_minus1);
    let bins = state.inter.marked.bins;
    let parts = reference_parts(decision.macroblock_type as int);
    let t = typed_bins(decision);
    let i = indexed(state, address, wide, decision, active_minus1);
    let a = lemma_indices_adds(
        Indices { bins: bins + t, entries: state.indices },
        address,
        wide,
        parts,
        decision.partitions,
        active_minus1,
        parts.len() as int,
    );
    let d = lemma_moved_adds(
        Differences { bins: i.bins, entries: state.differences },
        address,
        wide,
        decision.partitions,
        decision.partitions.len() as int,
    );
    assert(((bins + t) + a) + d =~= bins + (t + a + d));
    t + a + d
}

/// The motion of a macroblock is told by its symbols, where the macroblocks before it are known.
#[verifier::spinoff_prover]
#[verifier::rlimit(60)]
proof fn lemma_motion_read(
    state: PMarked,
    address: int,
    wide: int,
    first: PictureModel,
    second: PictureModel,
    references: Seq<ReferencePicture>,
    index: int,
    other_index: int,
    decision: DecisionModel,
    other: DecisionModel,
    x: Seq<Bin>,
    y: Seq<Bin>,
)
    requires
        second == (PictureModel { source: second.source, ..first }),
        address == first.y * first.wide + first.x,
        wide == first.wide,
        references.len() <= 256,
        0 <= index < references.len(),
        0 <= other_index < references.len(),
        decision_from(first, references, index, decision),
        decision_from(second, references, other_index, other),
        together(
            p_told_motion(
                state,
                address,
                wide,
                decision,
                references.len() - 1,
            ).inter.marked.bins + x,
            p_told_motion(
                state,
                address,
                wide,
                other,
                references.len() - 1,
            ).inter.marked.bins + y,
        ),
    ensures
        decision.macroblock_type == other.macroblock_type,
        decision.partitions == other.partitions,
        decision.prediction == other.prediction,
        p_told_motion(state, address, wide, decision, references.len() - 1) == p_told_motion(
            state,
            address,
            wide,
            other,
            references.len() - 1,
        ),
        together(x, y),
{
    lemma_decision_refers(first, references, index, decision);
    lemma_decision_refers(second, references, other_index, other);
    let active = references.len() - 1;
    let bins = state.inter.marked.bins;
    lemma_motion_form(state, address, wide, decision, active);
    lemma_motion_form(state, address, wide, other, active);
    let t = typed_bins(decision);
    let s = typed_bins(other);
    let parts = reference_parts(decision.macroblock_type as int);
    let other_parts = reference_parts(other.macroblock_type as int);
    let i = indexed(state, address, wide, decision, active);
    let j = indexed(state, address, wide, other, active);
    let a = lemma_indices_adds(
        Indices { bins: bins + t, entries: state.indices },
        address,
        wide,
        parts,
        decision.partitions,
        active,
        parts.len() as int,
    );
    let b = lemma_indices_adds(
        Indices { bins: bins + s, entries: state.indices },
        address,
        wide,
        other_parts,
        other.partitions,
        active,
        other_parts.len() as int,
    );
    let m = Differences { bins: i.bins, entries: state.differences };
    let n = Differences { bins: j.bins, entries: state.differences };
    let c = lemma_moved_adds(
        m,
        address,
        wide,
        decision.partitions,
        decision.partitions.len() as int,
    );
    let d = lemma_moved_adds(
        n,
        address,
        wide,
        other.partitions,
        other.partitions.len() as int,
    );
    assert((i.bins + c) + x =~= i.bins + (c + x));
    assert((j.bins + d) + y =~= j.bins + (d + y));
    assert(((bins + t) + a) + (c + x) =~= bins + (t + (a + (c + x))));
    assert(((bins + s) + b) + (d + y) =~= bins + (s + (b + (d + y))));
    lemma_go_on(bins, t + (a + (c + x)), s + (b + (d + y)));
    lemma_types_read(
        first,
        second,
        references,
        index,
        other_index,
        decision,
        other,
        a + (c + x),
        b + (d + y),
    );
    lemma_indices_read(
        Indices { bins: bins + t, entries: state.indices },
        address,
        wide,
        parts,
        decision.partitions,
        other.partitions,
        index as u8,
        other_index as u8,
        active,
        parts.len() as int,
        c + x,
        d + y,
    );
    assert(index == other_index);
    let search = first.with_reference(references[index].planes, index);
    let other_search = second.with_reference(references[index].planes, index);
    assert(same_search(search, other_search));
    assert(search.address() == address && search.wide == wide);
    reveal(InterModel::shaped);
    reveal(InterModel::quarters);
    if decision.macroblock_type == 3 {
        lemma_quarters_read(search, other_search, 4, m, x, y);
    } else {
        let shape = macroblock_parts(decision.macroblock_type as int);
        lemma_parts_read(
            search,
            other_search,
            fresh_trial(),
            fresh_trial(),
            shape,
            shape.len() as int,
            m,
            x,
            y,
        );
    }
}

/// The type of a macroblock and those of its quarters are told by their symbols.
proof fn lemma_types_read(
    first: PictureModel,
    second: PictureModel,
    references: Seq<ReferencePicture>,
    index: int,
    other_index: int,
    decision: DecisionModel,
    other: DecisionModel,
    x: Seq<Bin>,
    y: Seq<Bin>,
)
    requires
        decision_from(first, references, index, decision),
        decision_from(second, references, other_index, other),
        together(typed_bins(decision) + x, typed_bins(other) + y),
    ensures
        decision.macroblock_type == other.macroblock_type,
        decision.macroblock_type == 3 ==> decision.sub_macroblock_types
            == other.sub_macroblock_types,
        typed_bins(decision) == typed_bins(other),
        together(x, y),
{
    let kind = decision.macroblock_type as int;
    let other_kind = other.macroblock_type as int;
    let a = if kind == 3 {
        sub_types_p(decision.sub_macroblock_types, 4)
    } else {
        Seq::empty()
    };
    let b = if other_kind == 3 {
        sub_types_p(other.sub_macroblock_types, 4)
    } else {
        Seq::empty()
    };
    assert(typed_bins(decision) + x =~= type_p_bins(kind) + (a + x));
    assert(typed_bins(other) + y =~= type_p_bins(other_kind) + (b + y));
    law_type_p_read(kind, other_kind, a + x, b + y);
    if kind == 3 {
        lemma_decision_kinds(first, references, index, decision);
        lemma_decision_kinds(second, references, other_index, other);
        lemma_sub_types_read(
            decision.sub_macroblock_types,
            other.sub_macroblock_types,
            4,
            x,
            y,
        );
        assert(decision.sub_macroblock_types =~= other.sub_macroblock_types);
    } else {
        assert(a + x =~= x);
        assert(b + y =~= y);
    }
}

/// The symbols of the motion of a macroblock stand inside a picture.
proof fn lemma_motion_told_inner(
    state: PMarked,
    address: int,
    wide: int,
    decision: DecisionModel,
    active_minus1: int,
)
    requires
        inner_bins(state.inter.marked.bins),
    ensures
        inner_bins(
            p_told_motion(state, address, wide, decision, active_minus1).inter.marked.bins,
        ),
{
    lemma_motion_form(state, address, wide, decision, active_minus1);
    let kind = decision.macroblock_type as int;
    lemma_types_inner(kind, 0);
    lemma_sub_types_inner(decision.sub_macroblock_types, 4);
    let subs: Seq<Bin> = if kind == 3 {
        sub_types_p(decision.sub_macroblock_types, 4)
    } else {
        Seq::empty()
    };
    lemma_inner_joined(type_p_bins(kind), subs);
    lemma_inner_joined(state.inter.marked.bins, typed_bins(decision));
    let parts = reference_parts(kind);
    lemma_indices_inner(
        Indices { bins: state.inter.marked.bins + typed_bins(decision), entries: state.indices },
        address,
        wide,
        parts,
        decision.partitions,
        active_minus1,
        parts.len() as int,
    );
    let i = indexed(state, address, wide, decision, active_minus1);
    lemma_moved_inner(
        Differences { bins: i.bins, entries: state.differences },
        address,
        wide,
        decision.partitions,
        decision.partitions.len() as int,
    );
}

proof fn lemma_sub_types_inner(kinds: Seq<u8>, count: int)
    ensures
        inner_bins(sub_types_p(kinds, count)),
    decreases count,
{
    if count > 0 {
        lemma_sub_types_inner(kinds, count - 1);
        lemma_types_inner(kinds[count - 1] as int, 0);
        lemma_inner_joined(
            sub_types_p(kinds, count - 1),
            sub_type_p_bins(kinds[count - 1] as int),
        );
    }
}

proof fn lemma_indices_inner(
    state: Indices,
    address: int,
    wide: int,
    parts: Seq<InterPartition>,
    selected: Seq<SelectedPartition>,
    active_minus1: int,
    count: int,
)
    requires
        inner_bins(state.bins),
    ensures
        inner_bins(
            indices_coded(state, address, wide, parts, selected, active_minus1, count).bins,
        ),
    decreases count,
{
    reveal(index_coded);
    if count > 0 {
        lemma_indices_inner(state, address, wide, parts, selected, active_minus1, count - 1);
        let before = indices_coded(
            state,
            address,
            wide,
            parts,
            selected,
            active_minus1,
            count - 1,
        );
        let part = parts[count - 1];
        let index = index_at(selected, part, 0) as int;
        lemma_reference_inner(index, far(before, address, wide, part), active_minus1);
        lemma_inner_joined(
            before.bins,
            reference_bins(index, far(before, address, wide, part), active_minus1),
        );
    }
}

/// The symbols of a vector difference stand inside a picture.
pub proof fn lemma_difference_inner(
    state: Differences,
    address: int,
    wide: int,
    selected: SelectedPartition,
)
    requires
        inner_bins(state.bins),
    ensures
        inner_bins(difference_coded(state, address, wide, selected).bins),
{
    lemma_difference_adds(state, address, wide, selected);
    let part = selected.partition;
    let block = block_at(part.block_x as int, part.block_y as int);
    let left = left_entry(state.entries, address, block, wide);
    let top = top_entry(state.entries, address, block, wide);
    let difference = vector_difference(selected);
    let across = size_across(left) + size_across(top);
    let down = size_down(left) + size_down(top);
    lemma_motion_inner(MOTION_X as int, across, difference.x as int);
    lemma_motion_inner(MOTION_Y as int, down, difference.y as int);
    lemma_inner_joined(
        motion_bins(MOTION_X as int, across, difference.x as int),
        motion_bins(MOTION_Y as int, down, difference.y as int),
    );
    lemma_inner_joined(state.bins, difference_bins(state, address, wide, selected));
}

proof fn lemma_moved_inner(
    state: Differences,
    address: int,
    wide: int,
    selected: Seq<SelectedPartition>,
    count: int,
)
    requires
        inner_bins(state.bins),
    ensures
        inner_bins(differences_coded(state, address, wide, selected, count).bins),
    decreases count,
{
    if count > 0 {
        lemma_moved_inner(state, address, wide, selected, count - 1);
        lemma_difference_inner(
            differences_coded(state, address, wide, selected, count - 1),
            address,
            wide,
            selected[count - 1],
        );
    }
}

/// Whether eight-by-eight transforms may be named in a macroblock.
spec fn large_allowed(configuration: Configuration, decision: DecisionModel) -> bool {
    configuration.transform_8x8_mode && parts_large(decision.partitions)
}

/// What is coded of a macroblock.
spec fn macroblock_coded(
    configuration: Configuration,
    state: PMarked,
    site: SiteModel,
    decision: DecisionModel,
) -> InterCoded {
    inter_coded(
        site,
        state.inter.planes,
        decision.prediction,
        large_allowed(configuration, decision) && configuration.analysis == AnalysisPreset::Full,
    )
}

/// Whether a macroblock is not coded.
spec fn passed_over(
    configuration: Configuration,
    references: Seq<ReferencePicture>,
    state: PMarked,
    site: SiteModel,
) -> bool {
    let decision = p_decision(configuration, references, site, state.motions);
    p_skipped(
        decision,
        coded_pattern(macroblock_coded(configuration, state, site, decision)),
        skip_vector(state.motions, site.address(), site.wide),
    )
}

/// The symbol that says whether a macroblock is coded.
spec fn skip_bin(state: PMarked, address: int, wide: int, skip: bool) -> Bin {
    crate::bins::decision(
        skip_slot(
            left_of(state.inter.skipped, address, wide),
            top_of(state.inter.skipped, address, wide),
        ),
        skip,
    )
}

/// A picture after it is said that a macroblock is coded, and how it moves.
spec fn after_motion(
    references: Seq<ReferencePicture>,
    state: PMarked,
    site: SiteModel,
    decision: DecisionModel,
) -> PMarked {
    p_told_motion(
        PMarked { inter: state.inter.told_skip(site.address(), site.wide, false), ..state },
        site.address(),
        site.wide,
        decision,
        references.len() - 1,
    )
}

/// The symbols of a picture after a macroblock that is coded.
spec fn after_residual(
    configuration: Configuration,
    references: Seq<ReferencePicture>,
    state: PMarked,
    site: SiteModel,
) -> InterState {
    let decision = p_decision(configuration, references, site, state.motions);
    let coded = macroblock_coded(configuration, state, site, decision);
    after_motion(references, state, site, decision).inter.told_pattern(
        site.address(),
        site.wide,
        large_allowed(configuration, decision),
        coded,
        site.qp,
    ).told_residual(site.address(), site.wide, coded)
}

/// A macroblock that is coded, with what does not depend on its samples apart.
proof fn lemma_macroblock_form(
    configuration: Configuration,
    references: Seq<ReferencePicture>,
    state: PMarked,
    site: SiteModel,
)
    requires
        !passed_over(configuration, references, state, site),
    ensures
        ({
            let decision = p_decision(configuration, references, site, state.motions);
            let coded = macroblock_coded(configuration, state, site, decision);
            let moving = after_motion(references, state, site, decision);
            cabac_p_macroblock(configuration, references, state, site) == (PMarked {
                inter: InterState {
                    planes: coded.planes,
                    ..after_residual(configuration, references, state, site)
                },
                indices: moving.indices,
                differences: moving.differences,
                motions: state.motions.update(
                    site.address(),
                    with_selected(
                        state.motions[site.address()],
                        decision.partitions,
                        decision.partitions.len() as int,
                    ),
                ),
            })
        }),
{
    reveal(cabac_p_macroblock);
    reveal(p_told_motion);
}

/// A macroblock that is not coded.
proof fn lemma_passed_form(
    configuration: Configuration,
    references: Seq<ReferencePicture>,
    state: PMarked,
    site: SiteModel,
)
    requires
        passed_over(configuration, references, state, site),
    ensures
        ({
            let address = site.address();
            let decision = p_decision(configuration, references, site, state.motions);
            let coded = macroblock_coded(configuration, state, site, decision);
            let skip = skip_vector(state.motions, address, site.wide);
            cabac_p_macroblock(configuration, references, state, site) == (PMarked {
                inter: InterState {
                    planes: coded.planes,
                    ..state.inter.told_skip(address, site.wide, true).after_skip(address)
                },
                indices: state.indices.update(address, Seq::new(16, |b: int| Some(0u8))),
                differences: state.differences,
                motions: state.motions.update(
                    address,
                    with_partition(
                        state.motions[address],
                        whole_partition(),
                        MotionState { vector: skip, reference_index: Some(0) },
                    ),
                ),
            })
        }),
{
    reveal(cabac_p_macroblock);
}

/// The decision for a macroblock comes from one of the reference pictures.
proof fn lemma_p_decision(
    configuration: Configuration,
    references: Seq<ReferencePicture>,
    state: PMarked,
    site: SiteModel,
) -> (index: int)
    requires
        1 <= references.len() <= 256,
    ensures
        0 <= index < references.len(),
        decision_from(
            picture_model(configuration, site, state.motions),
            references,
            index,
            p_decision(configuration, references, site, state.motions),
        ),
        p_decision(configuration, references, site, state.motions).partitions.len() >= 1,
        p_decision(
            configuration,
            references,
            site,
            state.motions,
        ).partitions[0].reference_index == index,
{
    reveal(p_decision);
    let model = picture_model(configuration, site, state.motions);
    let index = lemma_decision(model, references, model.tried_references(references));
    lemma_decision_refers(
        model,
        references,
        index,
        p_decision(configuration, references, site, state.motions),
    );
    index
}

/// Macroblocks that are not coded are alike.
proof fn lemma_passed_read(
    configuration: Configuration,
    references: Seq<ReferencePicture>,
    state: PMarked,
    first: SiteModel,
    second: SiteModel,
)
    requires
        1 <= references.len() <= 256,
        same_place(first, second),
        quantizer(first.qp),
        quantizer(second.qp),
        passed_over(configuration, references, state, first),
        passed_over(configuration, references, state, second),
    ensures
        cabac_p_macroblock(configuration, references, state, first) == cabac_p_macroblock(
            configuration,
            references,
            state,
            second,
        ),
{
    lemma_passed_form(configuration, references, state, first);
    lemma_passed_form(configuration, references, state, second);
    let i = lemma_p_decision(configuration, references, state, first);
    let j = lemma_p_decision(configuration, references, state, second);
    let a = p_decision(configuration, references, first, state.motions);
    let b = p_decision(configuration, references, second, state.motions);
    lemma_whole_told(
        picture_model(configuration, first, state.motions),
        picture_model(configuration, second, state.motions),
        references,
        a,
        b,
    );
    let allowed = large_allowed(configuration, a) && configuration.analysis
        == AnalysisPreset::Full;
    let c = macroblock_coded(configuration, state, first, a);
    let d = macroblock_coded(configuration, state, second, b);
    lemma_inter_sized(first, state.inter.planes, a.prediction, allowed);
    lemma_inter_sized(second, state.inter.planes, a.prediction, allowed);
    lemma_no_marks(c.luma);
    lemma_no_marks(d.luma);
    lemma_chroma_equal(c.cb, c.cr, d.cb, d.cr);
    lemma_inter_alike(first, second, state.inter.planes, a.prediction, allowed);
}

/// Whether what is kept of a picture has its range.
spec fn state_sized(state: PMarked) -> bool {
    quantizer(state.inter.previous_qp)
}

/// A macroblock adds the symbol that says whether it is coded, and more only where it is.
proof fn lemma_macroblock_adds(
    configuration: Configuration,
    references: Seq<ReferencePicture>,
    state: PMarked,
    site: SiteModel,
) -> (more: Seq<Bin>)
    requires
        quantizer(site.qp),
        state_sized(state),
    ensures
        ({
            let after = cabac_p_macroblock(configuration, references, state, site);
            let skip = passed_over(configuration, references, state, site);
            &&& after.inter.marked.bins == state.inter.marked.bins + (seq![
                skip_bin(state, site.address(), site.wide, skip),
            ] + more)
            &&& skip ==> more.len() == 0
            &&& state_sized(after)
        }),
{
    let address = site.address();
    let wide = site.wide;
    let bins = state.inter.marked.bins;
    let decision = p_decision(configuration, references, site, state.motions);
    let coded = macroblock_coded(configuration, state, site, decision);
    lemma_inter_sized(
        site,
        state.inter.planes,
        decision.prediction,
        large_allowed(configuration, decision) && configuration.analysis == AnalysisPreset::Full,
    );
    if passed_over(configuration, references, state, site) {
        lemma_passed_form(configuration, references, state, site);
        let s = seq![skip_bin(state, address, wide, true)];
        assert(s + Seq::<Bin>::empty() =~= s);
        Seq::empty()
    } else {
        lemma_macroblock_form(configuration, references, state, site);
        let s = seq![skip_bin(state, address, wide, false)];
        let told = PMarked { inter: state.inter.told_skip(address, wide, false), ..state };
        let m = lemma_motion_adds(told, address, wide, decision, references.len() - 1);
        let moving = after_motion(references, state, site, decision);
        let allowed = large_allowed(configuration, decision);
        let p = lemma_pattern_adds(moving.inter, address, wide, allowed, coded, site.qp);
        let patterned = moving.inter.told_pattern(address, wide, allowed, coded, site.qp);
        let r = lemma_residual_adds(patterned, address, wide, coded);
        lemma_motion_form(told, address, wide, decision, references.len() - 1);
        assert((((bins + s) + m) + p) + r =~= bins + (s + (m + p + r)));
        m + p + r
    }
}

/// A macroblock that is coded is told by its symbols, where the macroblocks before it are known.
#[verifier::spinoff_prover]
#[verifier::rlimit(60)]
proof fn lemma_coded_read(
    configuration: Configuration,
    references: Seq<ReferencePicture>,
    state: PMarked,
    first: SiteModel,
    second: SiteModel,
    x: Seq<Bin>,
    y: Seq<Bin>,
)
    requires
        1 <= references.len() <= 256,
        same_place(first, second),
        quantizer(first.qp),
        quantizer(second.qp),
        state_sized(state),
        !passed_over(configuration, references, state, first),
        !passed_over(configuration, references, state, second),
        together(
            after_residual(configuration, references, state, first).marked.bins + x,
            after_residual(configuration, references, state, second).marked.bins + y,
        ),
    ensures
        cabac_p_macroblock(configuration, references, state, first) == cabac_p_macroblock(
            configuration,
            references,
            state,
            second,
        ),
        together(x, y),
{
    let address = first.address();
    let wide = first.wide;
    let i = lemma_p_decision(configuration, references, state, first);
    let j = lemma_p_decision(configuration, references, state, second);
    let a = p_decision(configuration, references, first, state.motions);
    let b = p_decision(configuration, references, second, state.motions);
    let full = configuration.analysis == AnalysisPreset::Full;
    let allowed = large_allowed(configuration, a);
    let c = macroblock_coded(configuration, state, first, a);
    let d = macroblock_coded(configuration, state, second, b);
    lemma_inter_sized(first, state.inter.planes, a.prediction, allowed && full);
    lemma_inter_sized(
        second,
        state.inter.planes,
        b.prediction,
        large_allowed(configuration, b) && full,
    );
    let told = PMarked { inter: state.inter.told_skip(address, wide, false), ..state };
    let u = after_motion(references, state, first, a);
    let v = after_motion(references, state, second, b);
    let p = u.inter.told_pattern(address, wide, allowed, c, first.qp);
    let q = v.inter.told_pattern(
        address,
        wide,
        large_allowed(configuration, b),
        d,
        second.qp,
    );
    let pa = lemma_pattern_adds(u.inter, address, wide, allowed, c, first.qp);
    let qa = lemma_pattern_adds(
        v.inter,
        address,
        wide,
        large_allowed(configuration, b),
        d,
        second.qp,
    );
    let r = lemma_residual_adds(p, address, wide, c);
    let s = lemma_residual_adds(q, address, wide, d);
    assert((p.marked.bins + r) + x =~= p.marked.bins + (r + x));
    assert((q.marked.bins + s) + y =~= q.marked.bins + (s + y));
    assert((u.inter.marked.bins + pa) + (r + x) =~= u.inter.marked.bins + (pa + (r + x)));
    assert((v.inter.marked.bins + qa) + (s + y) =~= v.inter.marked.bins + (qa + (s + y)));
    lemma_motion_read(
        told,
        address,
        wide,
        picture_model(configuration, first, state.motions),
        picture_model(configuration, second, state.motions),
        references,
        i,
        j,
        a,
        b,
        pa + (r + x),
        qa + (s + y),
    );
    lemma_motion_form(told, address, wide, a, references.len() - 1);
    lemma_told_pattern_read(
        u.inter,
        address,
        wide,
        allowed,
        c,
        d,
        first.qp,
        second.qp,
        r + x,
        s + y,
    );
    lemma_told_residual_read(p, address, wide, c, d, x, y);
    lemma_inter_alike(first, second, state.inter.planes, a.prediction, allowed && full);
    lemma_macroblock_form(configuration, references, state, first);
    lemma_macroblock_form(configuration, references, state, second);
}

/// A macroblock is told by its symbols, where the macroblocks before it are known.
proof fn lemma_macroblock_read(
    configuration: Configuration,
    references: Seq<ReferencePicture>,
    state: PMarked,
    first: SiteModel,
    second: SiteModel,
    x: Seq<Bin>,
    y: Seq<Bin>,
)
    requires
        1 <= references.len() <= 256,
        same_place(first, second),
        quantizer(first.qp),
        quantizer(second.qp),
        state_sized(state),
        together(
            cabac_p_macroblock(configuration, references, state, first).inter.marked.bins + x,
            cabac_p_macroblock(configuration, references, state, second).inter.marked.bins + y,
        ),
    ensures
        cabac_p_macroblock(configuration, references, state, first) == cabac_p_macroblock(
            configuration,
            references,
            state,
            second,
        ),
        together(x, y),
{
    let address = first.address();
    let wide = first.wide;
    let bins = state.inter.marked.bins;
    let skip = passed_over(configuration, references, state, first);
    let other = passed_over(configuration, references, state, second);
    let m = lemma_macroblock_adds(configuration, references, state, first);
    let n = lemma_macroblock_adds(configuration, references, state, second);
    let a = skip_bin(state, address, wide, skip);
    let b = skip_bin(state, address, wide, other);
    assert((bins + (seq![a] + m)) + x =~= bins + (seq![a] + (m + x)));
    assert((bins + (seq![b] + n)) + y =~= bins + (seq![b] + (n + y)));
    lemma_go_on(bins, seq![a] + (m + x), seq![b] + (n + y));
    lemma_one(a, b, m + x, n + y);
    assert(skip == other);
    if skip {
        assert(m + x =~= x);
        assert(n + y =~= y);
        lemma_passed_read(configuration, references, state, first, second);
    } else {
        lemma_macroblock_form(configuration, references, state, first);
        lemma_macroblock_form(configuration, references, state, second);
        lemma_coded_read(configuration, references, state, first, second, x, y);
    }
}

/// The symbols of a macroblock stand inside a picture.
proof fn lemma_macroblock_inner(
    configuration: Configuration,
    references: Seq<ReferencePicture>,
    state: PMarked,
    site: SiteModel,
)
    requires
        quantizer(site.qp),
        inner_bins(state.inter.marked.bins),
    ensures
        inner_bins(
            cabac_p_macroblock(configuration, references, state, site).inter.marked.bins,
        ),
{
    let address = site.address();
    let wide = site.wide;
    let decision = p_decision(configuration, references, site, state.motions);
    let coded = macroblock_coded(configuration, state, site, decision);
    let skip = passed_over(configuration, references, state, site);
    lemma_inter_sized(
        site,
        state.inter.planes,
        decision.prediction,
        large_allowed(configuration, decision) && configuration.analysis == AnalysisPreset::Full,
    );
    let s = seq![skip_bin(state, address, wide, skip)];
    assert(inner_bins(s));
    lemma_inner_joined(state.inter.marked.bins, s);
    if skip {
        lemma_passed_form(configuration, references, state, site);
    } else {
        lemma_macroblock_form(configuration, references, state, site);
        let told = PMarked { inter: state.inter.told_skip(address, wide, false), ..state };
        lemma_motion_told_inner(told, address, wide, decision, references.len() - 1);
        let moving = after_motion(references, state, site, decision);
        let allowed = large_allowed(configuration, decision);
        lemma_told_pattern_inner(moving.inter, address, wide, allowed, coded, site.qp);
        let patterned = moving.inter.told_pattern(address, wide, allowed, coded, site.qp);
        lemma_residual_inner(patterned, address, wide, coded);
    }
}

/// The symbols of a predicted picture stand inside it.
proof fn lemma_coded_inner(
    configuration: Configuration,
    references: Seq<ReferencePicture>,
    source: Samples,
    qps: Seq<int>,
    start: PMarked,
    count: int,
)
    requires
        inner_bins(start.inter.marked.bins),
        forall|a: int| 0 <= a < count ==> quantizer(#[trigger] qps[a]),
    ensures
        inner_bins(
            cabac_p_coded(configuration, references, source, qps, start, count).inter.marked.bins,
        ),
    decreases count,
{
    if count > 0 {
        lemma_coded_inner(configuration, references, source, qps, start, count - 1);
        assert(quantizer(qps[count - 1]));
        let before = cabac_p_coded(configuration, references, source, qps, start, count - 1);
        assert(inner_bins(seq![Bin::Terminate(false)]));
        lemma_inner_joined(before.inter.marked.bins, seq![Bin::Terminate(false)]);
        lemma_macroblock_inner(
            configuration,
            references,
            PMarked { inter: before.inter.going_on(count - 1), ..before },
            inter_site(configuration, source, qps, count - 1),
        );
    }
}

/// The macroblocks of a predicted picture are told by its symbols.
proof fn lemma_macroblocks_read(
    configuration: Configuration,
    references: Seq<ReferencePicture>,
    first: Samples,
    first_qps: Seq<int>,
    second: Samples,
    second_qps: Seq<int>,
    start: PMarked,
    count: int,
    x: Seq<Bin>,
    y: Seq<Bin>,
)
    requires
        1 <= references.len() <= 256,
        state_sized(start),
        forall|a: int| 0 <= a < count ==> quantizer(#[trigger] first_qps[a]),
        forall|a: int| 0 <= a < count ==> quantizer(#[trigger] second_qps[a]),
        together(
            cabac_p_coded(
                configuration,
                references,
                first,
                first_qps,
                start,
                count,
            ).inter.marked.bins + x,
            cabac_p_coded(
                configuration,
                references,
                second,
                second_qps,
                start,
                count,
            ).inter.marked.bins + y,
        ),
    ensures
        cabac_p_coded(configuration, references, first, first_qps, start, count)
            == cabac_p_coded(configuration, references, second, second_qps, start, count),
        state_sized(cabac_p_coded(configuration, references, first, first_qps, start, count)),
        together(x, y),
    decreases count,
{
    if count <= 0 {
        lemma_go_on(start.inter.marked.bins, x, y);
    } else {
        let address = count - 1;
        let before = cabac_p_coded(
            configuration,
            references,
            first,
            first_qps,
            start,
            address,
        );
        let other_before = cabac_p_coded(
            configuration,
            references,
            second,
            second_qps,
            start,
            address,
        );
        let state = PMarked { inter: before.inter.going_on(address), ..before };
        let other = PMarked { inter: other_before.inter.going_on(address), ..other_before };
        let a = inter_site(configuration, first, first_qps, address);
        let b = inter_site(configuration, second, second_qps, address);
        assert(quantizer(first_qps[address]) && quantizer(second_qps[address]));
        lemma_states_sized(configuration, references, first, first_qps, start, address);
        lemma_states_sized(configuration, references, second, second_qps, start, address);
        let more = lemma_macroblock_adds(configuration, references, state, a);
        let rest = lemma_macroblock_adds(configuration, references, other, b);
        let p = seq![
            skip_bin(
                state,
                a.address(),
                a.wide,
                passed_over(configuration, references, state, a),
            ),
        ] + more;
        let q = seq![
            skip_bin(
                other,
                b.address(),
                b.wide,
                passed_over(configuration, references, other, b),
            ),
        ] + rest;
        let gap: Seq<Bin> = if address > 0 {
            seq![Bin::Terminate(false)]
        } else {
            Seq::empty()
        };
        let u = before.inter.marked.bins;
        let v = other_before.inter.marked.bins;
        assert(state.inter.marked.bins =~= u + gap);
        assert(other.inter.marked.bins =~= v + gap);
        assert(((u + gap) + p) + x =~= u + (gap + (p + x)));
        assert(((v + gap) + q) + y =~= v + (gap + (q + y)));
        lemma_macroblocks_read(
            configuration,
            references,
            first,
            first_qps,
            second,
            second_qps,
            start,
            address,
            gap + (p + x),
            gap + (q + y),
        );
        lemma_macroblock_read(configuration, references, state, a, b, x, y);
    }
}

/// What is kept of a picture keeps its range.
proof fn lemma_states_sized(
    configuration: Configuration,
    references: Seq<ReferencePicture>,
    source: Samples,
    qps: Seq<int>,
    start: PMarked,
    count: int,
)
    requires
        state_sized(start),
        forall|a: int| 0 <= a < count ==> quantizer(#[trigger] qps[a]),
    ensures
        state_sized(cabac_p_coded(configuration, references, source, qps, start, count)),
    decreases count,
{
    if count > 0 {
        lemma_states_sized(configuration, references, source, qps, start, count - 1);
        assert(quantizer(qps[count - 1]));
        let before = cabac_p_coded(configuration, references, source, qps, start, count - 1);
        let _ = lemma_macroblock_adds(
            configuration,
            references,
            PMarked { inter: before.inter.going_on(count - 1), ..before },
            inter_site(configuration, source, qps, count - 1),
        );
    }
}

/// The quantizer of a predicted picture is told by its header.
proof fn lemma_header_told(
    frame_num: int,
    ordered: bool,
    lsb: int,
    active_minus1: int,
    first: int,
    second: int,
    x: Seq<bool>,
    y: Seq<bool>,
)
    requires
        p_header(frame_num, ordered, lsb, active_minus1, true, first) + x == p_header(
            frame_num,
            ordered,
            lsb,
            active_minus1,
            true,
            second,
        ) + y,
    ensures
        first == second,
{
    let start = ue_bits(0) + ue_bits(0) + ue_bits(0) + bits_of(frame_num as nat, 4) + (
    if ordered {
        bits_of(lsb as nat, 4)
    } else {
        Seq::empty()
    }) + seq![active_minus1 != 0] + (if active_minus1 != 0 {
        ue_bits(active_minus1 as nat)
    } else {
        Seq::empty()
    }) + seq![false, false] + ue_bits(0);
    assert(p_header(frame_num, ordered, lsb, active_minus1, true, first) + x =~= start + (se_bits(
        first - 26,
    ) + (ue_bits(1) + x)));
    assert(p_header(frame_num, ordered, lsb, active_minus1, true, second) + y =~= start + (se_bits(
        second - 26,
    ) + (ue_bits(1) + y)));
    lemma_same_start(
        start,
        se_bits(first - 26) + (ue_bits(1) + x),
        start,
        se_bits(second - 26) + (ue_bits(1) + y),
    );
    law_signed_told(first - 26, second - 26, ue_bits(1) + x, ue_bits(1) + y);
}

/// The unit of a picture that is predicted from earlier ones and written with arithmetic codes
/// tells all its coded samples and its motion: what two frames and quantizers lead to is the same
/// wherever the units and the earlier pictures are.
#[verifier::spinoff_prover]
#[verifier::rlimit(60)]
pub proof fn law_arithmetic_unit_tells_predicted_picture(
    table: Seq<(i8, i8)>,
    configuration: Configuration,
    first_qp: i32,
    second_qp: i32,
    first: FrameModel,
    second: FrameModel,
    references: Seq<ReferencePicture>,
    frame_num: int,
    pic_order_cnt_lsb: int,
)
    requires
        table.len() == SLOT_COUNT,
        configuration.macroblocks_wide > 0,
        configuration.macroblocks_high > 0,
        1 <= references.len() <= 256,
        quantizer(first_qp as int),
        quantizer(second_qp as int),
        cabac_p_picture(
            table,
            Configuration { qp: first_qp, ..configuration },
            first,
            references,
            frame_num,
            pic_order_cnt_lsb,
        ).nal == cabac_p_picture(
            table,
            Configuration { qp: second_qp, ..configuration },
            second,
            references,
            frame_num,
            pic_order_cnt_lsb,
        ).nal,
    ensures
        ({
            let a = cabac_p_picture(
                table,
                Configuration { qp: first_qp, ..configuration },
                first,
                references,
                frame_num,
                pic_order_cnt_lsb,
            );
            let b = cabac_p_picture(
                table,
                Configuration { qp: second_qp, ..configuration },
                second,
                references,
                frame_num,
                pic_order_cnt_lsb,
            );
            &&& a.coded_reconstruction == b.coded_reconstruction
            &&& a.motion_l0 == b.motion_l0
            &&& a.reference_l0_poc == b.reference_l0_poc
        }),
        first_qp == second_qp,
{
    reveal(cabac_p_picture);
    reveal(p_blank);
    let a = Configuration { qp: first_qp, ..configuration };
    let b = Configuration { qp: second_qp, ..configuration };
    let wide = configuration.macroblocks_wide as int;
    let high = configuration.macroblocks_high as int;
    let strength = configuration.aq_strength as int;
    let source = padded_samples(first, wide, high);
    let other = padded_samples(second, wide, high);
    let qps = adaptive_qps(source.luma, wide, high, first_qp as int, strength);
    let other_qps = adaptive_qps(other.luma, wide, high, second_qp as int, strength);
    lemma_quantizers(source.luma, wide, high, first_qp as int, strength);
    lemma_quantizers(other.luma, wide, high, second_qp as int, strength);
    let ordered = configuration.pic_order_cnt_type0;
    let active = references.len() - 1;
    let header = p_header(
        frame_num,
        ordered,
        pic_order_cnt_lsb,
        active,
        true,
        first_qp as int,
    );
    let other_header = p_header(
        frame_num,
        ordered,
        pic_order_cnt_lsb,
        active,
        true,
        second_qp as int,
    );
    let count = wide * high;
    let start = p_blank(references[0].planes, count, first_qp as int);
    let other_start = p_blank(references[0].planes, count, second_qp as int);
    let u = cabac_p_coded(a, references, source, qps, start, count).inter.marked.bins;
    let v = cabac_p_coded(
        b,
        references,
        other,
        other_qps,
        other_start,
        count,
    ).inter.marked.bins;
    lemma_coded_inner(a, references, source, qps, start, count);
    lemma_coded_inner(b, references, other, other_qps, other_start, count);
    let (rest, other_rest) = lemma_headers_read(
        0x41,
        header,
        other_header,
        table,
        first_qp as int,
        second_qp as int,
        u,
        v,
    );
    lemma_header_told(
        frame_num,
        ordered,
        pic_order_cnt_lsb,
        active,
        first_qp as int,
        second_qp as int,
        rest,
        other_rest,
    );
    lemma_bytes_read(header, table, first_qp as int, u, v);
    lemma_macroblocks_read(
        a,
        references,
        source,
        qps,
        other,
        other_qps,
        start,
        count,
        seq![Bin::Terminate(true)],
        seq![Bin::Terminate(true)],
    );
}

} // verus!
