//! What the unit of a picture tells that is predicted from an earlier and a later one and written
//! with arithmetic codes.

use vstd::prelude::*;

use crate::arithmetic::Bin;
use crate::b_direct::BSelectedPartition;
use crate::b_picture::{b_header, b_parts_large, motion_in, Surroundings};
use crate::b_select::{BDecisionModel, BModel, BTrialModel};
use crate::bins::{inner_bins, SLOT_COUNT};
use crate::bits::bits_of;
use crate::cabac_b::{
    b_blank, b_committed, b_marked_model, b_told_motion, cabac_b_coded, cabac_b_macroblock,
    cabac_b_picture, list_differences, sub_types_b, type_increment, BMarked,
};
use crate::cabac_inter::InterState;
use crate::config::{AnalysisPreset, BDirectMode, Configuration};
use crate::frame::{padded_samples, FrameModel};
use crate::golomb::{se_bits, ue_bits};
use crate::inner_symbols::lemma_inner_joined;
use crate::inter_bins::{
    difference_coded, skip_slot, sub_type_b_bins, type_b_bins, Differences,
};
use crate::inter_coding::{inter_coded, InterCoded};
use crate::neighbors::{left_of, top_of};
use crate::p_picture::inter_site;
use crate::partitions::{directed_parts, directed_quarter_parts, DirectedPart};
use crate::picture::{Samples, SiteModel};
use crate::quantize::quantizer;
use crate::quantizers::adaptive_qps;
use crate::told_b_motion::{
    b_decision_from, lemma_b_decision, lemma_both_sides, lemma_direct_part, lemma_direct_told,
    lemma_kind, lemma_last_kind, lemma_parts_predict, lemma_quarters_predict, lemma_sided_joined,
    row_of, same_b_search, same_side, sided,
};
use crate::told_cabac::{lemma_bytes_read, lemma_headers_read};
use crate::told_cabac_inter::{
    lemma_pattern_adds, lemma_residual_adds, lemma_residual_inner, lemma_told_pattern_inner,
    lemma_told_pattern_read, lemma_told_residual_read,
};
use crate::told_cabac_p::{
    difference_bins, lemma_difference_adds, lemma_difference_inner, lemma_vector_read,
};
use crate::told_codes::{law_signed_told, lemma_same_start};
use crate::told_inter::{
    coded_pattern, lemma_inter_alike, lemma_inter_sized, lemma_no_marks,
};
use crate::told_inter_symbols::{law_sub_type_b_read, law_type_b_read, lemma_types_inner};
use crate::told_pictures::{lemma_chroma_equal, lemma_quantizers, same_place};
use crate::told_symbols::{lemma_go_on, lemma_one, together};

verus! {

/// The vector differences of all parts from one of the pictures.
spec fn listed(
    state: Differences,
    address: int,
    wide: int,
    selected: Seq<BSelectedPartition>,
    later: bool,
) -> Differences {
    list_differences(state, address, wide, selected, later, selected.len() as int)
}

/// One more part from one of the pictures.
spec fn part_listed(
    state: Differences,
    address: int,
    wide: int,
    selected: BSelectedPartition,
    later: bool,
) -> Differences {
    match motion_in(selected, later) {
        Some(found) => if selected.direct {
            state
        } else {
            difference_coded(state, address, wide, found)
        },
        None => state,
    }
}

/// The symbols of one more part from one of the pictures.
spec fn part_bins(
    state: Differences,
    address: int,
    wide: int,
    selected: BSelectedPartition,
    later: bool,
) -> Seq<Bin> {
    match motion_in(selected, later) {
        Some(found) => if selected.direct {
            Seq::empty()
        } else {
            difference_bins(state, address, wide, found)
        },
        None => Seq::empty(),
    }
}

proof fn lemma_part_adds(
    state: Differences,
    address: int,
    wide: int,
    selected: BSelectedPartition,
    later: bool,
)
    ensures
        part_listed(state, address, wide, selected, later).bins == state.bins + part_bins(
            state,
            address,
            wide,
            selected,
            later,
        ),
{
    match motion_in(selected, later) {
        Some(found) => {
            lemma_difference_adds(state, address, wide, found);
        },
        None => {},
    }
    assert(state.bins + Seq::<Bin>::empty() =~= state.bins);
}

/// Parts that tell the same of a picture have the same symbols.
proof fn lemma_listed_alike(
    state: Differences,
    address: int,
    wide: int,
    first: Seq<BSelectedPartition>,
    second: Seq<BSelectedPartition>,
    later: bool,
    count: int,
)
    requires
        sided(first, later) == sided(second, later),
        count <= first.len(),
    ensures
        list_differences(state, address, wide, first, later, count) == list_differences(
            state,
            address,
            wide,
            second,
            later,
            count,
        ),
    decreases count,
{
    if count > 0 {
        lemma_listed_alike(state, address, wide, first, second, later, count - 1);
        assert(sided(first, later).len() == first.len());
        assert(sided(second, later).len() == second.len());
        assert(sided(first, later)[count - 1] == sided(second, later)[count - 1]);
    }
}

proof fn lemma_listed_before(
    state: Differences,
    address: int,
    wide: int,
    first: Seq<BSelectedPartition>,
    second: Seq<BSelectedPartition>,
    later: bool,
    count: int,
)
    requires
        count <= first.len(),
    ensures
        list_differences(state, address, wide, first + second, later, count) == list_differences(
            state,
            address,
            wide,
            first,
            later,
            count,
        ),
    decreases count,
{
    if count > 0 {
        lemma_listed_before(state, address, wide, first, second, later, count - 1);
        assert((first + second)[count - 1] == first[count - 1]);
    }
}

proof fn lemma_listed_joined(
    state: Differences,
    address: int,
    wide: int,
    first: Seq<BSelectedPartition>,
    second: Seq<BSelectedPartition>,
    later: bool,
    count: int,
)
    requires
        0 <= count <= second.len(),
    ensures
        list_differences(state, address, wide, first + second, later, first.len() + count)
            == list_differences(
            listed(state, address, wide, first, later),
            address,
            wide,
            second,
            later,
            count,
        ),
    decreases count,
{
    if count == 0 {
        lemma_listed_before(state, address, wide, first, second, later, first.len() as int);
    } else {
        lemma_listed_joined(state, address, wide, first, second, later, count - 1);
        assert((first + second)[first.len() + count - 1] == second[count - 1]);
    }
}

proof fn lemma_listed_adds(
    state: Differences,
    address: int,
    wide: int,
    selected: Seq<BSelectedPartition>,
    later: bool,
    count: int,
) -> (more: Seq<Bin>)
    ensures
        list_differences(state, address, wide, selected, later, count).bins == state.bins + more,
    decreases count,
{
    if count <= 0 {
        assert(state.bins =~= state.bins + Seq::empty());
        Seq::empty()
    } else {
        let more = lemma_listed_adds(state, address, wide, selected, later, count - 1);
        let before = list_differences(state, address, wide, selected, later, count - 1);
        lemma_part_adds(before, address, wide, selected[count - 1], later);
        let last = part_bins(before, address, wide, selected[count - 1], later);
        assert((state.bins + more) + last =~= state.bins + (more + last));
        more + last
    }
}

/// One more part stands behind those before it.
proof fn lemma_selected_listed(
    state: Differences,
    model: BModel,
    trial: BTrialModel,
    selected: BSelectedPartition,
    address: int,
    wide: int,
    later: bool,
)
    ensures
        listed(state, address, wide, model.with_selected(trial, selected).selected, later)
            == part_listed(
            listed(state, address, wide, trial.selected, later),
            address,
            wide,
            selected,
            later,
        ),
        sided(model.with_selected(trial, selected).selected, later) == sided(
            trial.selected,
            later,
        ).push((motion_in(selected, later), selected.direct)),
{
    let after = model.with_selected(trial, selected);
    assert(after.selected =~= trial.selected + seq![selected]);
    lemma_listed_before(
        state,
        address,
        wide,
        trial.selected,
        seq![selected],
        later,
        trial.selected.len() as int,
    );
    assert(sided(after.selected, later) =~= sided(trial.selected, later).push(
        (motion_in(selected, later), selected.direct),
    ));
}

/// The motion of one more part from one of the pictures is told by the symbols of its vector.
proof fn lemma_part_read(
    first: BModel,
    second: BModel,
    before: BTrialModel,
    other: BTrialModel,
    part: DirectedPart,
    analysis: AnalysisPreset,
    later: bool,
    state: Differences,
    x: Seq<Bin>,
    y: Seq<Bin>,
)
    requires
        same_b_search(first, second),
        same_side(before, other, later),
        together(
            part_bins(
                state,
                first.address(),
                first.wide,
                first.part_chosen(before, part, analysis),
                later,
            ) + x,
            part_bins(
                state,
                first.address(),
                first.wide,
                second.part_chosen(other, part, analysis),
                later,
            ) + y,
        ),
    ensures
        same_side(
            first.with_selected(before, first.part_chosen(before, part, analysis)),
            second.with_selected(other, second.part_chosen(other, part, analysis)),
            later,
        ),
        together(x, y),
{
    let address = first.address();
    let wide = first.wide;
    let a = first.part_chosen(before, part, analysis);
    let b = second.part_chosen(other, part, analysis);
    assert(first.address() == second.address());
    assert(part.direction.earlier() || part.direction.later());
    assert(a.part() == part.partition);
    assert(b.part() == part.partition);
    match (motion_in(a, later), motion_in(b, later)) {
        (Some(m), Some(n)) => {
            assert(m.predicted == n.predicted);
            lemma_vector_read(state, address, wide, m, n, x, y);
            assert(m == n);
        },
        _ => {
            assert(part_bins(state, address, wide, a, later) + x =~= x);
            assert(part_bins(state, address, wide, b, later) + y =~= y);
        },
    }
    lemma_selected_listed(state, first, before, a, address, wide, later);
    lemma_selected_listed(state, second, other, b, address, wide, later);
}

/// The motion of some parts from one of the pictures is told by the symbols of their vectors.
#[verifier::spinoff_prover]
#[verifier::rlimit(40)]
proof fn lemma_side_read(
    first: BModel,
    second: BModel,
    trial: BTrialModel,
    other: BTrialModel,
    parts: Seq<DirectedPart>,
    analysis: AnalysisPreset,
    later: bool,
    count: int,
    state: Differences,
    x: Seq<Bin>,
    y: Seq<Bin>,
)
    requires
        same_b_search(first, second),
        same_side(trial, other, later),
        together(
            listed(
                state,
                first.address(),
                first.wide,
                first.with_parts(trial, parts, analysis, count).selected,
                later,
            ).bins + x,
            listed(
                state,
                first.address(),
                first.wide,
                second.with_parts(other, parts, analysis, count).selected,
                later,
            ).bins + y,
        ),
    ensures
        same_side(
            first.with_parts(trial, parts, analysis, count),
            second.with_parts(other, parts, analysis, count),
            later,
        ),
        together(x, y),
    decreases count,
{
    let address = first.address();
    let wide = first.wide;
    if count <= 0 {
        assert(sided(trial.selected, later).len() == trial.selected.len());
        assert(sided(other.selected, later).len() == other.selected.len());
        lemma_listed_alike(
            state,
            address,
            wide,
            trial.selected,
            other.selected,
            later,
            trial.selected.len() as int,
        );
        lemma_go_on(listed(state, address, wide, trial.selected, later).bins, x, y);
    } else {
        let before = first.with_parts(trial, parts, analysis, count - 1);
        let other_before = second.with_parts(other, parts, analysis, count - 1);
        let part = parts[count - 1];
        let a = first.part_chosen(before, part, analysis);
        let b = second.part_chosen(other_before, part, analysis);
        lemma_selected_listed(state, first, before, a, address, wide, later);
        lemma_selected_listed(state, second, other_before, b, address, wide, later);
        let u = listed(state, address, wide, before.selected, later);
        let v = listed(state, address, wide, other_before.selected, later);
        lemma_part_adds(u, address, wide, a, later);
        lemma_part_adds(v, address, wide, b, later);
        let c = part_bins(u, address, wide, a, later);
        let d = part_bins(v, address, wide, b, later);
        assert((u.bins + c) + x =~= u.bins + (c + x));
        assert((v.bins + d) + y =~= v.bins + (d + y));
        lemma_side_read(
            first,
            second,
            trial,
            other,
            parts,
            analysis,
            later,
            count - 1,
            state,
            c + x,
            d + y,
        );
        assert(sided(before.selected, later).len() == before.selected.len());
        assert(sided(other_before.selected, later).len() == other_before.selected.len());
        lemma_listed_alike(
            state,
            address,
            wide,
            before.selected,
            other_before.selected,
            later,
            before.selected.len() as int,
        );
        assert(u == v);
        lemma_part_read(
            first,
            second,
            before,
            other_before,
            part,
            analysis,
            later,
            u,
            x,
            y,
        );
    }
}

/// The motion of a quarter from one of the pictures is told by the symbols of its vectors, where
/// its division is known.
proof fn lemma_quarter_side_read(
    first: BModel,
    second: BModel,
    before: BTrialModel,
    other: BTrialModel,
    quarter: int,
    kind: int,
    later: bool,
    state: Differences,
    x: Seq<Bin>,
    y: Seq<Bin>,
)
    requires
        same_b_search(first, second),
        row_of(before, later) == row_of(other, later),
        together(
            listed(
                state,
                first.address(),
                first.wide,
                first.quarter_trial(before, quarter, kind).selected,
                later,
            ).bins + x,
            listed(
                state,
                first.address(),
                first.wide,
                second.quarter_trial(other, quarter, kind).selected,
                later,
            ).bins + y,
        ),
    ensures
        same_side(
            first.quarter_trial(before, quarter, kind),
            second.quarter_trial(other, quarter, kind),
            later,
        ),
        together(x, y),
{
    let address = first.address();
    let wide = first.wide;
    let start = BTrialModel { rate: 0, both: 0, selected: Seq::empty(), ..before };
    let other_start = BTrialModel { rate: 0, both: 0, selected: Seq::empty(), ..other };
    assert(sided(start.selected, later) =~= sided(other_start.selected, later));
    if kind == 0 {
        lemma_direct_part(first, second, quarter);
        let selected = first.direct_part(quarter)->Some_0;
        lemma_selected_listed(state, first, start, selected, address, wide, later);
        lemma_selected_listed(state, second, other_start, selected, address, wide, later);
        lemma_go_on(
            listed(
                state,
                address,
                wide,
                first.quarter_trial(before, quarter, kind).selected,
                later,
            ).bins,
            x,
            y,
        );
    } else {
        let parts = directed_quarter_parts(quarter, kind);
        lemma_side_read(
            first,
            second,
            start,
            other_start,
            parts,
            AnalysisPreset::Full,
            later,
            parts.len() as int,
            state,
            x,
            y,
        );
    }
}

/// The motion of quarters from one of the pictures is told by the symbols of their vectors, where
/// their division is known.
#[verifier::spinoff_prover]
#[verifier::rlimit(60)]
proof fn lemma_quarters_side_read(
    first: BModel,
    second: BModel,
    count: int,
    later: bool,
    state: Differences,
    x: Seq<Bin>,
    y: Seq<Bin>,
)
    requires
        0 <= count <= 4,
        same_b_search(first, second),
        first.quartered(count).kinds == second.quartered(count).kinds,
        together(
            listed(
                state,
                first.address(),
                first.wide,
                first.quartered(count).trial.selected,
                later,
            ).bins + x,
            listed(
                state,
                first.address(),
                first.wide,
                second.quartered(count).trial.selected,
                later,
            ).bins + y,
        ),
    ensures
        same_side(first.quartered(count).trial, second.quartered(count).trial, later),
        together(x, y),
    decreases count,
{
    let address = first.address();
    let wide = first.wide;
    assert(first.address() == second.address());
    if count <= 0 {
        assert(first.fresh().selected =~= second.fresh().selected);
        lemma_go_on(listed(state, address, wide, first.fresh().selected, later).bins, x, y);
    } else {
        let before = first.quartered(count - 1);
        let other = second.quartered(count - 1);
        let kind = first.quarter_kind(before.trial, count - 1, 13);
        lemma_last_kind(first, second, count);
        let a = first.quarter_trial(before.trial, count - 1, kind);
        let b = second.quarter_trial(other.trial, count - 1, kind);
        let u = listed(state, address, wide, before.trial.selected, later);
        let v = listed(state, address, wide, other.trial.selected, later);
        lemma_listed_joined(
            state,
            address,
            wide,
            before.trial.selected,
            a.selected,
            later,
            a.selected.len() as int,
        );
        lemma_listed_joined(
            state,
            address,
            wide,
            other.trial.selected,
            b.selected,
            later,
            b.selected.len() as int,
        );
        assert(first.quartered(count).trial.selected == before.trial.selected + a.selected);
        assert(second.quartered(count).trial.selected == other.trial.selected + b.selected);
        let c = lemma_listed_adds(
            u,
            address,
            wide,
            a.selected,
            later,
            a.selected.len() as int,
        );
        let d = lemma_listed_adds(
            v,
            address,
            wide,
            b.selected,
            later,
            b.selected.len() as int,
        );
        assert((u.bins + c) + x =~= u.bins + (c + x));
        assert((v.bins + d) + y =~= v.bins + (d + y));
        lemma_quarters_side_read(first, second, count - 1, later, state, c + x, d + y);
        assert(sided(before.trial.selected, later).len() == before.trial.selected.len());
        assert(sided(other.trial.selected, later).len() == other.trial.selected.len());
        lemma_listed_alike(
            state,
            address,
            wide,
            before.trial.selected,
            other.trial.selected,
            later,
            before.trial.selected.len() as int,
        );
        assert(u == v);
        lemma_quarter_side_read(
            first,
            second,
            before.trial,
            other.trial,
            count - 1,
            kind,
            later,
            u,
            x,
            y,
        );
        lemma_sided_joined(before.trial.selected, a.selected, later);
        lemma_sided_joined(other.trial.selected, b.selected, later);
    }
}

/// The symbols of the type of a macroblock and those of its quarters.
spec fn typed_bins(decision: BDecisionModel, increment: int) -> Seq<Bin> {
    type_b_bins(decision.macroblock_type as int, increment) + if decision.macroblock_type == 22 {
        sub_types_b(decision.sub_macroblock_types, 4)
    } else {
        Seq::empty()
    }
}

/// How quarters are divided is told by its symbols.
proof fn lemma_sub_types_read(
    first: Seq<u8>,
    second: Seq<u8>,
    count: int,
    x: Seq<Bin>,
    y: Seq<Bin>,
)
    requires
        forall|i: int| 0 <= i < count ==> #[trigger] first[i] <= 12,
        forall|i: int| 0 <= i < count ==> #[trigger] second[i] <= 12,
        together(sub_types_b(first, count) + x, sub_types_b(second, count) + y),
    ensures
        forall|i: int| 0 <= i < count ==> first[i] == second[i],
        together(x, y),
    decreases count,
{
    if count <= 0 {
        assert(sub_types_b(first, count) + x =~= x);
        assert(sub_types_b(second, count) + y =~= y);
    } else {
        let a = sub_type_b_bins(first[count - 1] as int);
        let b = sub_type_b_bins(second[count - 1] as int);
        assert(sub_types_b(first, count) + x =~= sub_types_b(first, count - 1) + (a + x));
        assert(sub_types_b(second, count) + y =~= sub_types_b(second, count - 1) + (b + y));
        lemma_sub_types_read(first, second, count - 1, a + x, b + y);
        law_sub_type_b_read(first[count - 1] as int, second[count - 1] as int, x, y);
    }
}

/// Quarters are divided in one of thirteen ways.
proof fn lemma_kinds_fit(model: BModel, count: int)
    requires
        0 <= count <= 4,
    ensures
        model.quartered(count).kinds.len() == count,
        forall|i: int| 0 <= i < count ==> #[trigger] model.quartered(count).kinds[i] <= 12,
    decreases count,
{
    if count > 0 {
        lemma_kinds_fit(model, count - 1);
        let before = model.quartered(count - 1);
        lemma_kind(model, before.trial, count - 1, 13);
        let kind = model.quarter_kind(before.trial, count - 1, 13);
        let kinds = model.quartered(count).kinds;
        assert(kinds == before.kinds.push(kind as u8));
        assert forall|i: int| 0 <= i < count implies #[trigger] kinds[i] <= 12 by {
            if i < count - 1 {
                assert(kinds[i] == before.kinds[i]);
            }
        }
    }
}

proof fn lemma_quarter_kinds(model: BModel)
    ensures
        model.quarters().sub_macroblock_types.len() == 4,
        forall|i: int|
            0 <= i < 4 ==> #[trigger] model.quarters().sub_macroblock_types[i] <= 12,
{
    reveal(BModel::quarters);
    lemma_kinds_fit(model, 4);
}

/// The type of a macroblock and those of its quarters are told by their symbols.
#[verifier::spinoff_prover]
#[verifier::rlimit(40)]
proof fn lemma_types_read(
    first: BModel,
    second: BModel,
    analysis: AnalysisPreset,
    decision: BDecisionModel,
    other: BDecisionModel,
    increment: int,
    x: Seq<Bin>,
    y: Seq<Bin>,
)
    requires
        b_decision_from(first, analysis, decision),
        b_decision_from(second, analysis, other),
        together(typed_bins(decision, increment) + x, typed_bins(other, increment) + y),
    ensures
        decision.macroblock_type == other.macroblock_type,
        decision.macroblock_type == 22 ==> decision.sub_macroblock_types
            == other.sub_macroblock_types,
        typed_bins(decision, increment) == typed_bins(other, increment),
        together(x, y),
{
    let kind = decision.macroblock_type as int;
    let other_kind = other.macroblock_type as int;
    let a = if kind == 22 {
        sub_types_b(decision.sub_macroblock_types, 4)
    } else {
        Seq::empty()
    };
    let b = if other_kind == 22 {
        sub_types_b(other.sub_macroblock_types, 4)
    } else {
        Seq::empty()
    };
    lemma_two(type_b_bins(kind, increment), a, x);
    lemma_two(type_b_bins(other_kind, increment), b, y);
    law_type_b_read(kind, other_kind, increment, a + x, b + y);
    if kind == 22 {
        lemma_quarter_kinds(first);
        lemma_quarter_kinds(second);
        lemma_sub_types_read(
            decision.sub_macroblock_types,
            other.sub_macroblock_types,
            4,
            x,
            y,
        );
        assert(decision.sub_macroblock_types =~= other.sub_macroblock_types);
    } else {
        assert(a + x =~= x);
        assert(b + y =~= y);
    }
}

proof fn lemma_two(a: Seq<Bin>, b: Seq<Bin>, x: Seq<Bin>)
    ensures
        (a + b) + x == a + (b + x),
{
    assert((a + b) + x =~= a + (b + x));
}

/// The vector differences of a macroblock from the earlier picture.
spec fn earlier_listed(
    state: BMarked,
    address: int,
    wide: int,
    decision: BDecisionModel,
) -> Differences {
    listed(
        Differences {
            bins: state.inter.marked.bins + typed_bins(
                decision,
                type_increment(state.directs, address, wide),
            ),
            entries: state.differences_l0,
        },
        address,
        wide,
        decision.partitions,
        false,
    )
}

/// The vector differences of a macroblock from the later picture.
spec fn later_listed(
    state: BMarked,
    address: int,
    wide: int,
    decision: BDecisionModel,
) -> Differences {
    listed(
        Differences {
            bins: earlier_listed(state, address, wide, decision).bins,
            entries: state.differences_l1,
        },
        address,
        wide,
        decision.partitions,
        true,
    )
}

proof fn lemma_motion_form(
    state: BMarked,
    address: int,
    wide: int,
    decision: BDecisionModel,
)
    ensures
        b_told_motion(state, address, wide, decision) == (BMarked {
            inter: state.inter.with_bins(later_listed(state, address, wide, decision).bins),
            directs: state.directs.update(address, crate::cabac_b::all_direct(decision)),
            differences_l0: earlier_listed(state, address, wide, decision).entries,
            differences_l1: later_listed(state, address, wide, decision).entries,
            ..state
        }),
{
    reveal(b_told_motion);
    let bins = state.inter.marked.bins;
    let kind = decision.macroblock_type as int;
    let increment = type_increment(state.directs, address, wide);
    let subs = if kind == 22 {
        sub_types_b(decision.sub_macroblock_types, 4)
    } else {
        Seq::empty()
    };
    lemma_two(bins, type_b_bins(kind, increment), subs);
}

/// The motion of a macroblock adds symbols.
proof fn lemma_motion_adds(
    state: BMarked,
    address: int,
    wide: int,
    decision: BDecisionModel,
) -> (more: Seq<Bin>)
    ensures
        b_told_motion(state, address, wide, decision).inter.marked.bins
            == state.inter.marked.bins + more,
{
    lemma_motion_form(state, address, wide, decision);
    let bins = state.inter.marked.bins;
    let t = typed_bins(decision, type_increment(state.directs, address, wide));
    let count = decision.partitions.len() as int;
    let a = lemma_listed_adds(
        Differences { bins: bins + t, entries: state.differences_l0 },
        address,
        wide,
        decision.partitions,
        false,
        count,
    );
    let b = lemma_listed_adds(
        Differences {
            bins: earlier_listed(state, address, wide, decision).bins,
            entries: state.differences_l1,
        },
        address,
        wide,
        decision.partitions,
        true,
        count,
    );
    assert(((bins + t) + a) + b =~= bins + (t + a + b));
    t + a + b
}

/// The motion of a macroblock that is divided is told by the symbols of its vectors.
#[verifier::spinoff_prover]
#[verifier::rlimit(60)]
proof fn lemma_lists_read(
    first: BModel,
    second: BModel,
    analysis: AnalysisPreset,
    decision: BDecisionModel,
    other: BDecisionModel,
    m: Differences,
    entries: Seq<Seq<crate::motion::MotionVector>>,
    x: Seq<Bin>,
    y: Seq<Bin>,
)
    requires
        same_b_search(first, second),
        b_decision_from(first, analysis, decision),
        b_decision_from(second, analysis, other),
        decision.macroblock_type == other.macroblock_type,
        decision.macroblock_type != 0,
        decision.macroblock_type == 22 ==> decision.sub_macroblock_types
            == other.sub_macroblock_types,
        together(
            listed(
                Differences {
                    bins: listed(
                        m,
                        first.address(),
                        first.wide,
                        decision.partitions,
                        false,
                    ).bins,
                    entries,
                },
                first.address(),
                first.wide,
                decision.partitions,
                true,
            ).bins + x,
            listed(
                Differences {
                    bins: listed(m, first.address(), first.wide, other.partitions, false).bins,
                    entries,
                },
                first.address(),
                first.wide,
                other.partitions,
                true,
            ).bins + y,
        ),
    ensures
        decision.partitions == other.partitions,
        decision.prediction == other.prediction,
        together(x, y),
{
    reveal(BModel::shaped);
    reveal(BModel::quarters);
    let address = first.address();
    let wide = first.wide;
    assert(first.address() == second.address());
    let u = Differences {
        bins: listed(m, address, wide, decision.partitions, false).bins,
        entries,
    };
    let v = Differences {
        bins: listed(m, address, wide, other.partitions, false).bins,
        entries,
    };
    let c = lemma_listed_adds(
        u,
        address,
        wide,
        decision.partitions,
        true,
        decision.partitions.len() as int,
    );
    let d = lemma_listed_adds(
        v,
        address,
        wide,
        other.partitions,
        true,
        other.partitions.len() as int,
    );
    lemma_two(u.bins, c, x);
    lemma_two(v.bins, d, y);
    if decision.macroblock_type == 22 {
        lemma_quarters_side_read(first, second, 4, false, m, c + x, d + y);
        lemma_sides_bins(m, address, wide, decision.partitions, other.partitions);
        lemma_quarters_side_read(first, second, 4, true, u, x, y);
        lemma_both_sides(decision.partitions, other.partitions);
        lemma_quarters_predict(first, second, 4);
    } else {
        let parts = directed_parts(decision.macroblock_type as int);
        let count = parts.len() as int;
        let start = first.fresh();
        let other_start = second.fresh();
        lemma_side_read(
            first,
            second,
            start,
            other_start,
            parts,
            analysis,
            false,
            count,
            m,
            c + x,
            d + y,
        );
        lemma_sides_bins(m, address, wide, decision.partitions, other.partitions);
        lemma_side_read(
            first,
            second,
            start,
            other_start,
            parts,
            analysis,
            true,
            count,
            u,
            x,
            y,
        );
        lemma_both_sides(decision.partitions, other.partitions);
        lemma_parts_predict(first, second, start, other_start, parts, analysis, count);
    }
}

proof fn lemma_sides_bins(
    state: Differences,
    address: int,
    wide: int,
    first: Seq<BSelectedPartition>,
    second: Seq<BSelectedPartition>,
)
    requires
        sided(first, false) == sided(second, false),
    ensures
        listed(state, address, wide, first, false) == listed(state, address, wide, second, false),
{
    assert(sided(first, false).len() == first.len());
    assert(sided(second, false).len() == second.len());
    lemma_listed_alike(state, address, wide, first, second, false, first.len() as int);
}

/// The motion of a macroblock is told by its symbols, where the macroblocks before it are known.
#[verifier::spinoff_prover]
#[verifier::rlimit(60)]
proof fn lemma_motion_read(
    state: BMarked,
    address: int,
    wide: int,
    first: BModel,
    second: BModel,
    analysis: AnalysisPreset,
    decision: BDecisionModel,
    other: BDecisionModel,
    x: Seq<Bin>,
    y: Seq<Bin>,
)
    requires
        same_b_search(first, second),
        address == first.address(),
        wide == first.wide,
        b_decision_from(first, analysis, decision),
        b_decision_from(second, analysis, other),
        together(
            b_told_motion(state, address, wide, decision).inter.marked.bins + x,
            b_told_motion(state, address, wide, other).inter.marked.bins + y,
        ),
    ensures
        decision.macroblock_type == other.macroblock_type,
        decision.partitions == other.partitions,
        decision.prediction == other.prediction,
        b_told_motion(state, address, wide, decision) == b_told_motion(
            state,
            address,
            wide,
            other,
        ),
        together(x, y),
{
    let bins = state.inter.marked.bins;
    let increment = type_increment(state.directs, address, wide);
    lemma_motion_form(state, address, wide, decision);
    lemma_motion_form(state, address, wide, other);
    let t = typed_bins(decision, increment);
    let s = typed_bins(other, increment);
    let m = Differences { bins: bins + t, entries: state.differences_l0 };
    let n = Differences { bins: bins + s, entries: state.differences_l0 };
    let u = earlier_listed(state, address, wide, decision);
    let v = earlier_listed(state, address, wide, other);
    let a = lemma_listed_adds(
        m,
        address,
        wide,
        decision.partitions,
        false,
        decision.partitions.len() as int,
    );
    let b = lemma_listed_adds(
        n,
        address,
        wide,
        other.partitions,
        false,
        other.partitions.len() as int,
    );
    let c = lemma_listed_adds(
        Differences { bins: u.bins, entries: state.differences_l1 },
        address,
        wide,
        decision.partitions,
        true,
        decision.partitions.len() as int,
    );
    let d = lemma_listed_adds(
        Differences { bins: v.bins, entries: state.differences_l1 },
        address,
        wide,
        other.partitions,
        true,
        other.partitions.len() as int,
    );
    assert((((bins + t) + a) + c) + x =~= bins + (t + (a + (c + x))));
    assert((((bins + s) + b) + d) + y =~= bins + (s + (b + (d + y))));
    lemma_go_on(bins, t + (a + (c + x)), s + (b + (d + y)));
    lemma_types_read(
        first,
        second,
        analysis,
        decision,
        other,
        increment,
        a + (c + x),
        b + (d + y),
    );
    if decision.macroblock_type == 0 {
        lemma_direct_told(first, second, analysis, decision, other);
        lemma_go_on(later_listed(state, address, wide, decision).bins, x, y);
    } else {
        lemma_lists_read(
            first,
            second,
            analysis,
            decision,
            other,
            m,
            state.differences_l1,
            x,
            y,
        );
    }
}

proof fn lemma_sub_types_inner(kinds: Seq<u8>, count: int)
    ensures
        inner_bins(sub_types_b(kinds, count)),
    decreases count,
{
    if count > 0 {
        lemma_sub_types_inner(kinds, count - 1);
        lemma_types_inner(kinds[count - 1] as int, 0);
        lemma_inner_joined(
            sub_types_b(kinds, count - 1),
            sub_type_b_bins(kinds[count - 1] as int),
        );
    }
}

proof fn lemma_listed_inner(
    state: Differences,
    address: int,
    wide: int,
    selected: Seq<BSelectedPartition>,
    later: bool,
    count: int,
)
    requires
        inner_bins(state.bins),
    ensures
        inner_bins(list_differences(state, address, wide, selected, later, count).bins),
    decreases count,
{
    if count > 0 {
        lemma_listed_inner(state, address, wide, selected, later, count - 1);
        let before = list_differences(state, address, wide, selected, later, count - 1);
        match motion_in(selected[count - 1], later) {
            Some(found) => {
                lemma_difference_inner(before, address, wide, found);
            },
            None => {},
        }
    }
}

/// The symbols of the motion of a macroblock stand inside a picture.
proof fn lemma_motion_told_inner(
    state: BMarked,
    address: int,
    wide: int,
    decision: BDecisionModel,
)
    requires
        inner_bins(state.inter.marked.bins),
    ensures
        inner_bins(b_told_motion(state, address, wide, decision).inter.marked.bins),
{
    lemma_motion_form(state, address, wide, decision);
    let kind = decision.macroblock_type as int;
    let count = decision.partitions.len() as int;
    let increment = type_increment(state.directs, address, wide);
    lemma_types_inner(kind, increment);
    lemma_sub_types_inner(decision.sub_macroblock_types, 4);
    let subs: Seq<Bin> = if kind == 22 {
        sub_types_b(decision.sub_macroblock_types, 4)
    } else {
        Seq::empty()
    };
    lemma_inner_joined(type_b_bins(kind, increment), subs);
    let t = typed_bins(decision, increment);
    lemma_inner_joined(state.inter.marked.bins, t);
    let m = Differences { bins: state.inter.marked.bins + t, entries: state.differences_l0 };
    lemma_listed_inner(m, address, wide, decision.partitions, false, count);
    let u = earlier_listed(state, address, wide, decision);
    lemma_listed_inner(
        Differences { bins: u.bins, entries: state.differences_l1 },
        address,
        wide,
        decision.partitions,
        true,
        count,
    );
}

/// Whether eight-by-eight transforms may be named in a macroblock.
spec fn large_allowed(configuration: Configuration, decision: BDecisionModel) -> bool {
    configuration.transform_8x8_mode && b_parts_large(decision.partitions)
}

/// How a macroblock is predicted.
spec fn b_decision(
    configuration: Configuration,
    around: Surroundings,
    state: BMarked,
    site: SiteModel,
) -> BDecisionModel {
    b_marked_model(configuration, around, state, site).decided(configuration.analysis)
}

/// What is coded of a macroblock.
spec fn macroblock_coded(
    configuration: Configuration,
    state: BMarked,
    site: SiteModel,
    decision: BDecisionModel,
) -> InterCoded {
    inter_coded(
        site,
        state.inter.planes,
        decision.prediction,
        large_allowed(configuration, decision) && configuration.analysis == AnalysisPreset::Full,
    )
}

/// Whether a macroblock is not coded.
spec fn passed_over(
    configuration: Configuration,
    around: Surroundings,
    state: BMarked,
    site: SiteModel,
) -> bool {
    let decision = b_decision(configuration, around, state, site);
    decision.direct && coded_pattern(macroblock_coded(configuration, state, site, decision)) == 0
}

/// The symbol that says whether a macroblock is coded.
spec fn skip_bin(state: BMarked, address: int, wide: int, skip: bool) -> Bin {
    crate::bins::decision(
        skip_slot(
            left_of(state.inter.skipped, address, wide),
            top_of(state.inter.skipped, address, wide),
        ),
        skip,
    )
}

/// A picture after it is said that a macroblock is coded, and how it moves.
spec fn after_motion(state: BMarked, site: SiteModel, decision: BDecisionModel) -> BMarked {
    b_told_motion(
        BMarked { inter: state.inter.told_skip(site.address(), site.wide, false), ..state },
        site.address(),
        site.wide,
        decision,
    )
}

/// The symbols of a picture after a macroblock that is coded.
spec fn after_residual(
    configuration: Configuration,
    around: Surroundings,
    state: BMarked,
    site: SiteModel,
) -> InterState {
    let decision = b_decision(configuration, around, state, site);
    let coded = macroblock_coded(configuration, state, site, decision);
    after_motion(state, site, decision).inter.told_pattern(
        site.address(),
        site.wide,
        large_allowed(configuration, decision),
        coded,
        site.qp,
    ).told_residual(site.address(), site.wide, coded)
}

/// A macroblock that is coded, with what does not depend on its samples apart.
proof fn lemma_macroblock_form(
    configuration: Configuration,
    around: Surroundings,
    state: BMarked,
    site: SiteModel,
)
    requires
        !passed_over(configuration, around, state, site),
    ensures
        ({
            let decision = b_decision(configuration, around, state, site);
            let coded = macroblock_coded(configuration, state, site, decision);
            let moving = after_motion(state, site, decision);
            cabac_b_macroblock(configuration, around, state, site) == b_committed(
                BMarked {
                    inter: InterState {
                        planes: coded.planes,
                        ..after_residual(configuration, around, state, site)
                    },
                    ..moving
                },
                site.address(),
                decision.partitions,
            )
        }),
{
    reveal(cabac_b_macroblock);
    reveal(b_told_motion);
}

/// A macroblock that is not coded.
proof fn lemma_passed_form(
    configuration: Configuration,
    around: Surroundings,
    state: BMarked,
    site: SiteModel,
)
    requires
        passed_over(configuration, around, state, site),
    ensures
        ({
            let address = site.address();
            let decision = b_decision(configuration, around, state, site);
            let coded = macroblock_coded(configuration, state, site, decision);
            cabac_b_macroblock(configuration, around, state, site) == b_committed(
                BMarked {
                    inter: InterState {
                        planes: coded.planes,
                        ..state.inter.told_skip(address, site.wide, true).after_skip(address)
                    },
                    directs: state.directs.update(address, true),
                    ..state
                },
                address,
                decision.partitions,
            )
        }),
{
    reveal(cabac_b_macroblock);
}

/// Macroblocks that are not coded are alike.
proof fn lemma_passed_read(
    configuration: Configuration,
    around: Surroundings,
    state: BMarked,
    first: SiteModel,
    second: SiteModel,
)
    requires
        same_place(first, second),
        quantizer(first.qp),
        quantizer(second.qp),
        passed_over(configuration, around, state, first),
        passed_over(configuration, around, state, second),
    ensures
        cabac_b_macroblock(configuration, around, state, first) == cabac_b_macroblock(
            configuration,
            around,
            state,
            second,
        ),
{
    lemma_passed_form(configuration, around, state, first);
    lemma_passed_form(configuration, around, state, second);
    let analysis = configuration.analysis;
    let model = b_marked_model(configuration, around, state, first);
    let other_model = b_marked_model(configuration, around, state, second);
    lemma_b_decision(model, analysis);
    lemma_b_decision(other_model, analysis);
    let a = b_decision(configuration, around, state, first);
    let b = b_decision(configuration, around, state, second);
    lemma_direct_told(model, other_model, analysis, a, b);
    let allowed = large_allowed(configuration, a) && configuration.analysis
        == AnalysisPreset::Full;
    let c = macroblock_coded(configuration, state, first, a);
    let d = macroblock_coded(configuration, state, second, b);
    lemma_inter_sized(first, state.inter.planes, a.prediction, allowed);
    lemma_inter_sized(second, state.inter.planes, a.prediction, allowed);
    lemma_no_marks(c.luma);
    lemma_no_marks(d.luma);
    lemma_chroma_equal(c.cb, c.cr, d.cb, d.cr);
    lemma_inter_alike(first, second, state.inter.planes, a.prediction, allowed);
}

/// Whether what is kept of a picture has its range.
spec fn state_sized(state: BMarked) -> bool {
    quantizer(state.inter.previous_qp)
}

/// A macroblock adds the symbol that says whether it is coded, and more only where it is.
proof fn lemma_macroblock_adds(
    configuration: Configuration,
    around: Surroundings,
    state: BMarked,
    site: SiteModel,
) -> (more: Seq<Bin>)
    requires
        quantizer(site.qp),
        state_sized(state),
    ensures
        ({
            let after = cabac_b_macroblock(configuration, around, state, site);
            let skip = passed_over(configuration, around, state, site);
            &&& after.inter.marked.bins == state.inter.marked.bins + (seq![
                skip_bin(state, site.address(), site.wide, skip),
            ] + more)
            &&& skip ==> more.len() == 0
            &&& state_sized(after)
        }),
{
    let address = site.address();
    let wide = site.wide;
    let bins = state.inter.marked.bins;
    let decision = b_decision(configuration, around, state, site);
    let coded = macroblock_coded(configuration, state, site, decision);
    lemma_inter_sized(
        site,
        state.inter.planes,
        decision.prediction,
        large_allowed(configuration, decision) && configuration.analysis == AnalysisPreset::Full,
    );
    if passed_over(configuration, around, state, site) {
        lemma_passed_form(configuration, around, state, site);
        let s = seq![skip_bin(state, address, wide, true)];
        assert(s + Seq::<Bin>::empty() =~= s);
        Seq::empty()
    } else {
        lemma_macroblock_form(configuration, around, state, site);
        let s = seq![skip_bin(state, address, wide, false)];
        let told = BMarked { inter: state.inter.told_skip(address, wide, false), ..state };
        let m = lemma_motion_adds(told, address, wide, decision);
        let moving = after_motion(state, site, decision);
        let allowed = large_allowed(configuration, decision);
        let p = lemma_pattern_adds(moving.inter, address, wide, allowed, coded, site.qp);
        let patterned = moving.inter.told_pattern(address, wide, allowed, coded, site.qp);
        let r = lemma_residual_adds(patterned, address, wide, coded);
        lemma_motion_form(told, address, wide, decision);
        assert((((bins + s) + m) + p) + r =~= bins + (s + (m + p + r)));
        m + p + r
    }
}

/// A macroblock that is coded is told by its symbols, where the macroblocks before it are known.
#[verifier::spinoff_prover]
#[verifier::rlimit(60)]
proof fn lemma_coded_read(
    configuration: Configuration,
    around: Surroundings,
    state: BMarked,
    first: SiteModel,
    second: SiteModel,
    x: Seq<Bin>,
    y: Seq<Bin>,
)
    requires
        same_place(first, second),
        quantizer(first.qp),
        quantizer(second.qp),
        state_sized(state),
        !passed_over(configuration, around, state, first),
        !passed_over(configuration, around, state, second),
        together(
            after_residual(configuration, around, state, first).marked.bins + x,
            after_residual(configuration, around, state, second).marked.bins + y,
        ),
    ensures
        cabac_b_macroblock(configuration, around, state, first) == cabac_b_macroblock(
            configuration,
            around,
            state,
            second,
        ),
        together(x, y),
{
    let address = first.address();
    let wide = first.wide;
    let analysis = configuration.analysis;
    let model = b_marked_model(configuration, around, state, first);
    let other_model = b_marked_model(configuration, around, state, second);
    lemma_b_decision(model, analysis);
    lemma_b_decision(other_model, analysis);
    let a = b_decision(configuration, around, state, first);
    let b = b_decision(configuration, around, state, second);
    let full = configuration.analysis == AnalysisPreset::Full;
    let allowed = large_allowed(configuration, a);
    let c = macroblock_coded(configuration, state, first, a);
    let d = macroblock_coded(configuration, state, second, b);
    lemma_inter_sized(first, state.inter.planes, a.prediction, allowed && full);
    lemma_inter_sized(
        second,
        state.inter.planes,
        b.prediction,
        large_allowed(configuration, b) && full,
    );
    let told = BMarked { inter: state.inter.told_skip(address, wide, false), ..state };
    let u = after_motion(state, first, a);
    let v = after_motion(state, second, b);
    let p = u.inter.told_pattern(address, wide, allowed, c, first.qp);
    let q = v.inter.told_pattern(
        address,
        wide,
        large_allowed(configuration, b),
        d,
        second.qp,
    );
    let pa = lemma_pattern_adds(u.inter, address, wide, allowed, c, first.qp);
    let qa = lemma_pattern_adds(
        v.inter,
        address,
        wide,
        large_allowed(configuration, b),
        d,
        second.qp,
    );
    let r = lemma_residual_adds(p, address, wide, c);
    let s = lemma_residual_adds(q, address, wide, d);
    assert((p.marked.bins + r) + x =~= p.marked.bins + (r + x));
    assert((q.marked.bins + s) + y =~= q.marked.bins + (s + y));
    assert((u.inter.marked.bins + pa) + (r + x) =~= u.inter.marked.bins + (pa + (r + x)));
    assert((v.inter.marked.bins + qa) + (s + y) =~= v.inter.marked.bins + (qa + (s + y)));
    lemma_motion_read(
        told,
        address,
        wide,
        model,
        other_model,
        analysis,
        a,
        b,
        pa + (r + x),
        qa + (s + y),
    );
    lemma_motion_form(told, address, wide, a);
    lemma_told_pattern_read(
        u.inter,
        address,
        wide,
        allowed,
        c,
        d,
        first.qp,
        second.qp,
        r + x,
        s + y,
    );
    lemma_told_residual_read(p, address, wide, c, d, x, y);
    lemma_inter_alike(first, second, state.inter.planes, a.prediction, allowed && full);
    lemma_macroblock_form(configuration, around, state, first);
    lemma_macroblock_form(configuration, around, state, second);
}

/// A macroblock is told by its symbols, where the macroblocks before it are known.
proof fn lemma_macroblock_read(
    configuration: Configuration,
    around: Surroundings,
    state: BMarked,
    first: SiteModel,
    second: SiteModel,
    x: Seq<Bin>,
    y: Seq<Bin>,
)
    requires
        same_place(first, second),
        quantizer(first.qp),
        quantizer(second.qp),
        state_sized(state),
        together(
            cabac_b_macroblock(configuration, around, state, first).inter.marked.bins + x,
            cabac_b_macroblock(configuration, around, state, second).inter.marked.bins + y,
        ),
    ensures
        cabac_b_macroblock(configuration, around, state, first) == cabac_b_macroblock(
            configuration,
            around,
            state,
            second,
        ),
        together(x, y),
{
    let address = first.address();
    let wide = first.wide;
    let bins = state.inter.marked.bins;
    let skip = passed_over(configuration, around, state, first);
    let other = passed_over(configuration, around, state, second);
    let m = lemma_macroblock_adds(configuration, around, state, first);
    let n = lemma_macroblock_adds(configuration, around, state, second);
    let a = skip_bin(state, address, wide, skip);
    let b = skip_bin(state, address, wide, other);
    assert((bins + (seq![a] + m)) + x =~= bins + (seq![a] + (m + x)));
    assert((bins + (seq![b] + n)) + y =~= bins + (seq![b] + (n + y)));
    lemma_go_on(bins, seq![a] + (m + x), seq![b] + (n + y));
    lemma_one(a, b, m + x, n + y);
    assert(skip == other);
    if skip {
        assert(m + x =~= x);
        assert(n + y =~= y);
        lemma_passed_read(configuration, around, state, first, second);
    } else {
        lemma_macroblock_form(configuration, around, state, first);
        lemma_macroblock_form(configuration, around, state, second);
        lemma_coded_read(configuration, around, state, first, second, x, y);
    }
}

/// The symbols of a macroblock stand inside a picture.
proof fn lemma_macroblock_inner(
    configuration: Configuration,
    around: Surroundings,
    state: BMarked,
    site: SiteModel,
)
    requires
        quantizer(site.qp),
        inner_bins(state.inter.marked.bins),
    ensures
        inner_bins(
            cabac_b_macroblock(configuration, around, state, site).inter.marked.bins,
        ),
{
    let address = site.address();
    let wide = site.wide;
    let decision = b_decision(configuration, around, state, site);
    let coded = macroblock_coded(configuration, state, site, decision);
    let skip = passed_over(configuration, around, state, site);
    lemma_inter_sized(
        site,
        state.inter.planes,
        decision.prediction,
        large_allowed(configuration, decision) && configuration.analysis == AnalysisPreset::Full,
    );
    let s = seq![skip_bin(state, address, wide, skip)];
    assert(inner_bins(s));
    lemma_inner_joined(state.inter.marked.bins, s);
    if skip {
        lemma_passed_form(configuration, around, state, site);
    } else {
        lemma_macroblock_form(configuration, around, state, site);
        let told = BMarked { inter: state.inter.told_skip(address, wide, false), ..state };
        lemma_motion_told_inner(told, address, wide, decision);
        let moving = after_motion(state, site, decision);
        let allowed = large_allowed(configuration, decision);
        lemma_told_pattern_inner(moving.inter, address, wide, allowed, coded, site.qp);
        let patterned = moving.inter.told_pattern(address, wide, allowed, coded, site.qp);
        lemma_residual_inner(patterned, address, wide, coded);
    }
}

/// The symbols of a predicted picture stand inside it.
proof fn lemma_coded_inner(
    configuration: Configuration,
    around: Surroundings,
    source: Samples,
    qps: Seq<int>,
    start: BMarked,
    count: int,
)
    requires
        inner_bins(start.inter.marked.bins),
        forall|a: int| 0 <= a < count ==> quantizer(#[trigger] qps[a]),
    ensures
        inner_bins(
            cabac_b_coded(configuration, around, source, qps, start, count).inter.marked.bins,
        ),
    decreases count,
{
    if count > 0 {
        lemma_coded_inner(configuration, around, source, qps, start, count - 1);
        assert(quantizer(qps[count - 1]));
        let before = cabac_b_coded(configuration, around, source, qps, start, count - 1);
        assert(inner_bins(seq![Bin::Terminate(false)]));
        lemma_inner_joined(before.inter.marked.bins, seq![Bin::Terminate(false)]);
        lemma_macroblock_inner(
            configuration,
            around,
            BMarked { inter: before.inter.going_on(count - 1), ..before },
            inter_site(configuration, source, qps, count - 1),
        );
    }
}

/// The macroblocks of a predicted picture are told by its symbols.
proof fn lemma_macroblocks_read(
    configuration: Configuration,
    around: Surroundings,
    first: Samples,
    first_qps: Seq<int>,
    second: Samples,
    second_qps: Seq<int>,
    start: BMarked,
    count: int,
    x: Seq<Bin>,
    y: Seq<Bin>,
)
    requires
        state_sized(start),
        forall|a: int| 0 <= a < count ==> quantizer(#[trigger] first_qps[a]),
        forall|a: int| 0 <= a < count ==> quantizer(#[trigger] second_qps[a]),
        together(
            cabac_b_coded(
                configuration,
                around,
                first,
                first_qps,
                start,
                count,
            ).inter.marked.bins + x,
            cabac_b_coded(
                configuration,
                around,
                second,
                second_qps,
                start,
                count,
            ).inter.marked.bins + y,
        ),
    ensures
        cabac_b_coded(configuration, around, first, first_qps, start, count)
            == cabac_b_coded(configuration, around, second, second_qps, start, count),
        state_sized(cabac_b_coded(configuration, around, first, first_qps, start, count)),
        together(x, y),
    decreases count,
{
    if count <= 0 {
        lemma_go_on(start.inter.marked.bins, x, y);
    } else {
        let address = count - 1;
        let before = cabac_b_coded(
            configuration,
            around,
            first,
            first_qps,
            start,
            address,
        );
        let other_before = cabac_b_coded(
            configuration,
            around,
            second,
            second_qps,
            start,
            address,
        );
        let state = BMarked { inter: before.inter.going_on(address), ..before };
        let other = BMarked { inter: other_before.inter.going_on(address), ..other_before };
        let a = inter_site(configuration, first, first_qps, address);
        let b = inter_site(configuration, second, second_qps, address);
        assert(quantizer(first_qps[address]) && quantizer(second_qps[address]));
        lemma_states_sized(configuration, around, first, first_qps, start, address);
        lemma_states_sized(configuration, around, second, second_qps, start, address);
        let more = lemma_macroblock_adds(configuration, around, state, a);
        let rest = lemma_macroblock_adds(configuration, around, other, b);
        let p = seq![
            skip_bin(
                state,
                a.address(),
                a.wide,
                passed_over(configuration, around, state, a),
            ),
        ] + more;
        let q = seq![
            skip_bin(
                other,
                b.address(),
                b.wide,
                passed_over(configuration, around, other, b),
            ),
        ] + rest;
        let gap: Seq<Bin> = if address > 0 {
            seq![Bin::Terminate(false)]
        } else {
            Seq::empty()
        };
        let u = before.inter.marked.bins;
        let v = other_before.inter.marked.bins;
        assert(state.inter.marked.bins =~= u + gap);
        assert(other.inter.marked.bins =~= v + gap);
        assert(((u + gap) + p) + x =~= u + (gap + (p + x)));
        assert(((v + gap) + q) + y =~= v + (gap + (q + y)));
        lemma_macroblocks_read(
            configuration,
            around,
            first,
            first_qps,
            second,
            second_qps,
            start,
            address,
            gap + (p + x),
            gap + (q + y),
        );
        lemma_macroblock_read(configuration, around, state, a, b, x, y);
    }
}

/// What is kept of a picture keeps its range.
proof fn lemma_states_sized(
    configuration: Configuration,
    around: Surroundings,
    source: Samples,
    qps: Seq<int>,
    start: BMarked,
    count: int,
)
    requires
        state_sized(start),
        forall|a: int| 0 <= a < count ==> quantizer(#[trigger] qps[a]),
    ensures
        state_sized(cabac_b_coded(configuration, around, source, qps, start, count)),
    decreases count,
{
    if count > 0 {
        lemma_states_sized(configuration, around, source, qps, start, count - 1);
        assert(quantizer(qps[count - 1]));
        let before = cabac_b_coded(configuration, around, source, qps, start, count - 1);
        let _ = lemma_macroblock_adds(
            configuration,
            around,
            BMarked { inter: before.inter.going_on(count - 1), ..before },
            inter_site(configuration, source, qps, count - 1),
        );
    }
}

/// The quantizer of a predicted picture is told by its header.
proof fn lemma_header_told(
    frame_num: int,
    lsb: int,
    spatial: bool,
    first: int,
    second: int,
    x: Seq<bool>,
    y: Seq<bool>,
)
    requires
        b_header(frame_num, lsb, spatial, true, first) + x == b_header(
            frame_num,
            lsb,
            spatial,
            true,
            second,
        ) + y,
    ensures
        first == second,
{
    let start = ue_bits(0) + ue_bits(1) + ue_bits(0) + bits_of(frame_num as nat, 4) + bits_of(
        lsb as nat,
        4,
    ) + seq![spatial, false, false, false] + ue_bits(0);
    assert(b_header(frame_num, lsb, spatial, true, first) + x =~= start + (se_bits(first - 26) + (
    ue_bits(1) + x)));
    assert(b_header(frame_num, lsb, spatial, true, second) + y =~= start + (se_bits(second - 26)
        + (ue_bits(1) + y)));
    lemma_same_start(
        start,
        se_bits(first - 26) + (ue_bits(1) + x),
        start,
        se_bits(second - 26) + (ue_bits(1) + y),
    );
    law_signed_told(first - 26, second - 26, ue_bits(1) + x, ue_bits(1) + y);
}

/// The unit of a picture that is predicted from an earlier and a later one and written with
/// arithmetic codes tells all its coded samples: what two frames and quantizers lead to is the same
/// wherever the units and the surrounding pictures are.
#[verifier::spinoff_prover]
#[verifier::rlimit(60)]
pub proof fn law_arithmetic_unit_tells_picture_between(
    table: Seq<(i8, i8)>,
    configuration: Configuration,
    first_qp: i32,
    second_qp: i32,
    first: FrameModel,
    second: FrameModel,
    around: Surroundings,
    frame_num: int,
    pic_order_cnt_lsb: int,
)
    requires
        table.len() == SLOT_COUNT,
        configuration.macroblocks_wide > 0,
        configuration.macroblocks_high > 0,
        quantizer(first_qp as int),
        quantizer(second_qp as int),
        cabac_b_picture(
            table,
            Configuration { qp: first_qp, ..configuration },
            first,
            around,
            frame_num,
            pic_order_cnt_lsb,
        ).nal == cabac_b_picture(
            table,
            Configuration { qp: second_qp, ..configuration },
            second,
            around,
            frame_num,
            pic_order_cnt_lsb,
        ).nal,
    ensures
        ({
            let a = cabac_b_picture(
                table,
                Configuration { qp: first_qp, ..configuration },
                first,
                around,
                frame_num,
                pic_order_cnt_lsb,
            );
            let b = cabac_b_picture(
                table,
                Configuration { qp: second_qp, ..configuration },
                second,
                around,
                frame_num,
                pic_order_cnt_lsb,
            );
            a.coded_reconstruction == b.coded_reconstruction
        }),
        first_qp == second_qp,
{
    reveal(cabac_b_picture);
    reveal(b_blank);
    let a = Configuration { qp: first_qp, ..configuration };
    let b = Configuration { qp: second_qp, ..configuration };
    let wide = configuration.macroblocks_wide as int;
    let high = configuration.macroblocks_high as int;
    let strength = configuration.aq_strength as int;
    let source = padded_samples(first, wide, high);
    let other = padded_samples(second, wide, high);
    let qps = adaptive_qps(source.luma, wide, high, first_qp as int, strength);
    let other_qps = adaptive_qps(other.luma, wide, high, second_qp as int, strength);
    lemma_quantizers(source.luma, wide, high, first_qp as int, strength);
    lemma_quantizers(other.luma, wide, high, second_qp as int, strength);
    let spatial = configuration.b_direct_mode == BDirectMode::Spatial;
    let header = b_header(frame_num, pic_order_cnt_lsb, spatial, true, first_qp as int);
    let other_header = b_header(frame_num, pic_order_cnt_lsb, spatial, true, second_qp as int);
    let count = wide * high;
    let start = b_blank(around.previous.planes, count, first_qp as int);
    let other_start = b_blank(around.previous.planes, count, second_qp as int);
    let u = cabac_b_coded(a, around, source, qps, start, count).inter.marked.bins;
    let v = cabac_b_coded(
        b,
        around,
        other,
        other_qps,
        other_start,
        count,
    ).inter.marked.bins;
    lemma_coded_inner(a, around, source, qps, start, count);
    lemma_coded_inner(b, around, other, other_qps, other_start, count);
    let (rest, other_rest) = lemma_headers_read(
        0x01,
        header,
        other_header,
        table,
        first_qp as int,
        second_qp as int,
        u,
        v,
    );
    lemma_header_told(
        frame_num,
        pic_order_cnt_lsb,
        spatial,
        first_qp as int,
        second_qp as int,
        rest,
        other_rest,
    );
    lemma_bytes_read(header, table, first_qp as int, u, v);
    lemma_macroblocks_read(
        a,
        around,
        source,
        qps,
        other,
        other_qps,
        start,
        count,
        seq![Bin::Terminate(true)],
        seq![Bin::Terminate(true)],
    );
}

} // verus!
