//! What holds of the choice between predictions from both sides, and of quick searches.

use vstd::prelude::*;

use crate::b_direct::{temporal_part, temporal_vectors};
use crate::b_select::{BModel, BTrialModel};
use crate::config::AnalysisPreset;
use crate::motion::{InterPartition, MotionVector};
use crate::p_select::ReferencePicture;
use crate::partitions::{corner_block, directed_parts, DirectedPart};
use crate::search::{
    better, first_step, law_better_total, law_better_transitive, law_settled, no_candidate,
    Candidate, Measure, SearchModel,
};

verus! {

proof fn lemma_best_shaped(model: BModel, analysis: AnalysisPreset, count: int, kind: int)
    requires
        1 <= kind <= count,
    ensures
        model.best_shaped(analysis, count).cost <= model.shaped(kind, analysis).cost,
    decreases count,
{
    if count > 1 {
        if kind < count {
            lemma_best_shaped(model, analysis, count - 1, kind);
        }
    }
}

/// Where everything is searched, no type of macroblock is cheaper than the one that is chosen: neither
/// the derived one, nor one of the other types, nor one whose quarters are divided on their own.
pub proof fn law_cheapest_type(model: BModel, kind: int)
    requires
        1 <= kind <= 21,
    ensures
        ({
            let cost = model.decided(AnalysisPreset::Full).cost;
            &&& model.direct() matches Some(direct) ==> cost <= direct.cost
            &&& cost <= model.shaped(kind, AnalysisPreset::Full).cost
            &&& cost <= model.quarters().cost
        }),
{
    reveal(BModel::decided);
    lemma_best_shaped(model, AnalysisPreset::Full, 21, kind);
}

/// A quick search takes the derived macroblock where it is cheap, and else the cheapest of it and of
/// the whole ones.
pub proof fn law_quick_type(model: BModel, kind: int)
    requires
        1 <= kind <= 3,
    ensures
        ({
            let found = model.decided(AnalysisPreset::Fast);
            &&& model.direct() matches Some(direct) ==> found.cost <= direct.cost
            &&& model.direct() is Some && model.direct()->Some_0.cost <= 4096 ==> found
                == model.direct()->Some_0
            &&& model.direct() is None || model.direct()->Some_0.cost > 4096 ==> found.cost
                <= model.shaped(kind, AnalysisPreset::Fast).cost
        }),
{
    reveal(BModel::decided);
    lemma_best_shaped(model, AnalysisPreset::Fast, 3, kind);
}

/// A macroblock costs how far its prediction is from the source, twice what its vectors differ from
/// those that were expected, sixteen for a second part, and four for each part that is predicted from
/// both sides; a derived one costs only how far it is from the source.
pub proof fn law_type_cost(model: BModel, kind: int, analysis: AnalysisPreset)
    requires
        1 <= kind <= 21,
    ensures
        ({
            let parts = directed_parts(kind);
            let trial = model.with_parts(model.fresh(), parts, analysis, parts.len() as int);
            let extra: int = if kind <= 3 {
                0
            } else {
                16
            };
            &&& model.shaped(kind, analysis).cost == model.distance(trial.prediction.luma) + 2
                * trial.rate + 4 * trial.both + extra
            &&& model.direct() matches Some(direct) ==> direct.cost == model.distance(
                direct.prediction.luma,
            )
        }),
{
    reveal(BModel::shaped);
    reveal(BModel::direct);
}

/// The motion of a part is searched in the earlier picture, in the later one, or in both, as its type
/// says.
pub proof fn law_searched_pictures(
    model: BModel,
    trial: BTrialModel,
    part: DirectedPart,
    analysis: AnalysisPreset,
)
    ensures
        ({
            let found = model.part_chosen(trial, part, analysis);
            &&& found.list0 is Some <==> part.direction.earlier()
            &&& found.list1 is Some <==> part.direction.later()
            &&& found.list0 matches Some(selected) ==> {
                &&& selected.motion == model.search(
                    model.previous.planes,
                    part.partition,
                    selected.predicted,
                ).found(analysis)
                &&& selected.partition == part.partition
                &&& selected.reference_index == 0
            }
            &&& found.list1 matches Some(selected) ==> {
                &&& selected.motion == model.search(
                    model.future.planes,
                    part.partition,
                    selected.predicted,
                ).found(analysis)
                &&& selected.partition == part.partition
                &&& selected.reference_index == 0
            }
            &&& !found.direct
        }),
{
}

/// What the later picture implies for a part: nothing moves where it does not move there or stands
/// alone there; its motion is divided by time where it refers to the earlier picture; and nothing is
/// implied where it refers to another one.
pub proof fn law_implied_by_later(
    previous: ReferencePicture,
    future: ReferencePicture,
    address: int,
    part: InterPartition,
    order: int,
)
    ensures
        ({
            let moved = future.moved(
                address,
                corner_block(part.block_x as int, part.block_width as int),
                corner_block(part.block_y as int, part.block_height as int),
            );
            let found = temporal_part(previous, future, address, part, order);
            let zero = MotionVector { x: 0, y: 0 };
            &&& moved is None ==> found is Some && found->Some_0.list0->Some_0.motion == zero
                && found->Some_0.list1->Some_0.motion == zero
            &&& moved matches Some((vector, reference)) ==> {
                &&& reference != previous.pic_order_count ==> found is None
                &&& reference == previous.pic_order_count ==> {
                    let both = temporal_vectors(
                        vector,
                        order,
                        future.pic_order_count,
                        reference as int,
                    );
                    &&& found is Some
                    &&& found->Some_0.list0->Some_0.motion == both.0
                    &&& found->Some_0.list1->Some_0.motion == both.1
                }
            }
            &&& found matches Some(selected) ==> selected.list0 is Some && selected.list1 is Some
                && selected.direct && selected.list0->Some_0.reference_index == 0
                && selected.list1->Some_0.reference_index == 0
        }),
{
}

/// No way to divide a quarter is cheaper than the one that is chosen; deriving its motion is one of
/// them where that can be done.
pub proof fn law_cheapest_directed_quarter(
    model: BModel,
    before: BTrialModel,
    quarter: int,
    count: int,
    kind: int,
)
    requires
        2 <= count,
        (if model.direct_part(quarter) is Some {
            0int
        } else {
            1
        }) <= kind < count,
    ensures
        model.quarter_cost(before, quarter, model.quarter_kind(before, quarter, count))
            <= model.quarter_cost(before, quarter, kind),
    decreases count,
{
    reveal_with_fuel(BModel::quarter_kind, 3);
    if count > 2 {
        let least: int = if model.direct_part(quarter) is Some {
            0
        } else {
            1
        };
        if kind < count - 1 {
            law_cheapest_directed_quarter(model, before, quarter, count - 1, kind);
        }
    }
}

proof fn lemma_no_worse(a: Candidate, b: Candidate, c: Candidate)
    requires
        a == b || better(a, b),
        b == c || better(b, c),
    ensures
        a == c || better(a, c),
{
}

proof fn lemma_narrowed(search: SearchModel, best: Candidate, step: int)
    requires
        0 <= search.range <= 64,
    ensures
        search.narrowed(best, step) == best || better(search.narrowed(best, step), best),
    decreases step,
{
    if step > 0 {
        law_settled(search, best, step);
        lemma_narrowed(search, search.settled(best, step), step / 2);
        lemma_no_worse(
            search.narrowed(best, step),
            search.settled(best, step),
            best,
        );
    }
}

#[verifier::spinoff_prover]
#[verifier::rlimit(40)]
proof fn lemma_ringed(search: SearchModel, best: Candidate, step: int)
    ensures
        search.ringed(best, step) == best || better(search.ringed(best, step), best),
{
    reveal(SearchModel::ringed);
}

/// A quick search finds nothing worse than the vectors that it starts from: no motion, and the
/// expected motion in whole steps.
pub proof fn law_quick_search(search: SearchModel)
    requires
        0 <= search.range <= 64,
    ensures
        !better(
            search.candidate(Measure::SparseWhole, MotionVector { x: 0, y: 0 }),
            search.fast_best(),
        ),
        !better(
            search.candidate(Measure::SparseWhole, search.expected_whole()),
            search.fast_best(),
        ),
{
    reveal(SearchModel::fast_best);
    let still = search.candidate(Measure::SparseWhole, MotionVector { x: 0, y: 0 });
    let expected = search.candidate(Measure::SparseWhole, search.expected_whole());
    let one = search.tried(Measure::SparseWhole, no_candidate(), search.expected_whole());
    let first = search.tried(Measure::SparseWhole, one, MotionVector { x: 0, y: 0 });
    let middle = search.narrowed(first, first_step(search.range, 1));
    lemma_narrowed(search, first, first_step(search.range, 1));
    lemma_ringed(search, middle, 2);
    lemma_ringed(search, search.ringed(middle, 2), 1);
    let end = search.fast_best();
    lemma_no_worse(end, search.ringed(middle, 2), middle);
    lemma_no_worse(end, middle, first);
    law_better_total(still, first);
    law_better_total(expected, first);
    if better(still, end) && better(end, first) {
        law_better_transitive(still, end, first);
    }
    if better(expected, end) && better(end, first) {
        law_better_transitive(expected, end, first);
    }
    if better(expected, first) && better(first, one) {
        law_better_transitive(expected, first, one);
    }
}

} // verus!
