//! What searches compare, and what they try.

use vstd::prelude::*;

use crate::math::magnitude;
use crate::motion::MotionVector;
use crate::residual::sum_of;
use crate::search::{
    better, first_step, law_near_search, rounded_to_whole, Candidate, Measure, SearchModel,
};

verus! {

proof fn lemma_sum_of_same(values: Seq<int>, value: int, count: int)
    requires
        0 <= count <= values.len(),
        forall|i: int| 0 <= i < values.len() ==> #[trigger] values[i] == value,
    ensures
        sum_of(values, count) == value * count,
    decreases count,
{
    if count > 0 {
        lemma_sum_of_same(values, value, count - 1);
        assert(value * count == value * (count - 1) + value) by (nonlinear_arith);
    } else {
        assert(value * 0 == 0) by (nonlinear_arith);
    }
}

/// However few samples are compared, they stand for all: where each sample of the part is the same
/// distance away, the sum is that distance for each of its samples.
pub proof fn law_few_stand_for_all(
    search: SearchModel,
    measure: Measure,
    motion: MotionVector,
    apart: int,
)
    requires
        search.width == 4 || search.width == 8 || search.width == 16,
        search.height == 4 || search.height == 8 || search.height == 16,
        forall|x: int, y: int|
            search.x <= x < search.x + search.width && search.y <= y < search.y + search.height
                ==> magnitude(
                search.source[y * search.reference.width + x] - #[trigger] search.displaced(
                    measure,
                    motion,
                    x,
                    y,
                ),
            ) == apart,
    ensures
        search.sad(measure, motion) == apart * (search.width * search.height),
{
    reveal(SearchModel::sad);
    let step = search.step(measure);
    let columns = search.columns(measure);
    let rows = search.rows(measure);
    let all = search.distances(measure, motion);
    assert(step == 1 || step == 2 || step == 4);
    assert(columns * step == search.width && rows * step == search.height && 1 <= columns && 1
        <= rows) by (nonlinear_arith)
        requires
            search.width == 4 || search.width == 8 || search.width == 16,
            search.height == 4 || search.height == 8 || search.height == 16,
            step == 1 || step == 2 || step == 4,
            columns == search.width / step,
            rows == search.height / step,
    ;
    assert(0 <= columns * rows) by (nonlinear_arith)
        requires
            1 <= columns,
            1 <= rows,
    ;
    assert forall|i: int| 0 <= i < all.len() implies #[trigger] all[i] == step * step * apart by {
        let column = i % columns;
        let row = i / columns;
        assert(0 <= column < columns && 0 <= row < rows) by (nonlinear_arith)
            requires
                column == i % columns,
                row == i / columns,
                0 <= i < columns * rows,
                1 <= columns,
        ;
        assert(0 <= column * step < search.width && 0 <= row * step < search.height)
            by (nonlinear_arith)
            requires
                0 <= column < columns,
                0 <= row < rows,
                columns * step == search.width,
                rows * step == search.height,
                step >= 1,
        ;
        let x = search.x + i % columns * step;
        let y = search.y + i / columns * step;
        assert(magnitude(
            search.source[y * search.reference.width + x] - search.displaced(measure, motion, x, y),
        ) == apart);
    }
    lemma_sum_of_same(all, step * step * apart, all.len() as int);
    assert(step * step * apart * (columns * rows) == apart * (search.width * search.height))
        by (nonlinear_arith)
        requires
            columns * step == search.width,
            rows * step == search.height,
    ;
}

/// A vector is held against others by how far the source is, then by how far it is from the expected
/// vector, then by how long it is, each counted along both directions, and last by its place.
pub proof fn law_candidates(search: SearchModel, measure: Measure, motion: MotionVector)
    requires
        -0x1000_0000 <= motion.x <= 0x1000_0000,
        -0x1000_0000 <= motion.y <= 0x1000_0000,
        -0x1000_0000 <= search.predicted.x <= 0x1000_0000,
        -0x1000_0000 <= search.predicted.y <= 0x1000_0000,
    ensures
        ({
            let found = search.candidate(measure, motion);
            let size = |value: int|
                if value < 0 {
                    -value
                } else {
                    value
                };
            &&& found.x == motion.x && found.y == motion.y
            &&& found.rate == size(motion.x - search.predicted.x) + size(
                motion.y - search.predicted.y,
            )
            &&& found.displacement == size(motion.x as int) + size(motion.y as int)
        }),
{
}

/// A closer vector is better whatever else; of equally close ones the cheaper, of equally cheap ones
/// the shorter, then the upper, and then the one to the left.
pub proof fn law_better_by(a: Candidate, b: Candidate)
    ensures
        a.sad < b.sad ==> better(a, b),
        a.sad == b.sad && a.rate < b.rate ==> better(a, b),
        a.sad == b.sad && a.rate == b.rate && a.displacement < b.displacement ==> better(a, b),
        a.sad == b.sad && a.rate == b.rate && a.displacement == b.displacement && a.y < b.y
            ==> better(a, b),
        a.sad == b.sad && a.rate == b.rate && a.displacement == b.displacement && a.y == b.y && a.x
            < b.x ==> better(a, b),
        a.sad > b.sad ==> !better(a, b),
{
}

/// Around the best vector of whole steps all vectors are tried that are at most three quarters of a
/// step away each way and within reach, and none of them is better than the one that is found.
pub proof fn law_tried_around(search: SearchModel, centre: Candidate, x: int, y: int)
    requires
        0 <= search.range <= 64,
        -search.limit() <= centre.x <= search.limit(),
        -search.limit() <= centre.y <= search.limit(),
        centre.x - 3 <= x <= centre.x + 3,
        centre.y - 3 <= y <= centre.y + 3,
        -search.limit() <= x <= search.limit(),
        -search.limit() <= y <= search.limit(),
    ensures
        !better(
            search.candidate(Measure::Quarter, MotionVector { x: x as i32, y: y as i32 }),
            search.best_near(centre, search.near_count(centre)),
        ),
{
    let left = search.low(centre.x as int);
    let top = search.low(centre.y as int);
    let columns = search.high(centre.x as int) - left + 1;
    let rows = search.high(centre.y as int) - top + 1;
    let k = (y - top) * columns + (x - left);
    vstd::arithmetic::div_mod::lemma_fundamental_div_mod_converse(
        k,
        columns,
        y - top,
        x - left,
    );
    assert(0 <= k < columns * rows) by (nonlinear_arith)
        requires
            k == (y - top) * columns + (x - left),
            0 <= x - left < columns,
            0 <= y - top < rows,
    ;
    assert(search.near_vector(centre, k) == (MotionVector { x: x as i32, y: y as i32 }));
    law_near_search(search, centre, search.near_count(centre), k);
}

/// A vector is rounded to the nearest whole step, away from zero when two are equally near, and both
/// signs alike.
pub proof fn law_rounded(value: int)
    ensures
        rounded_to_whole(value) % 4 == 0,
        -2 <= rounded_to_whole(value) - value <= 2,
        rounded_to_whole(-value) == -rounded_to_whole(value),
        rounded_to_whole(4 * value + 2) == if value >= 0 {
            4 * value + 4
        } else {
            4 * value
        },
{
}

/// A quick search starts with a step that is more than half of the range, found by doubling the first
/// one no further than needed.
pub proof fn law_first_step(range: int, step: int)
    requires
        0 <= range,
        1 <= step,
    ensures
        first_step(range, step) > range / 2,
        first_step(range, step) == step || first_step(range, step) <= 2 * (range / 2),
    decreases range - step,
{
    if step <= range / 2 {
        law_first_step(range, step * 2);
    }
}

} // verus!
