//! What holds of blocks that are predicted from their neighbours.

use vstd::prelude::*;

use crate::intra::{
    block_predicted, block_sample, dc_of, intra4_predicted, intra8_predicted, mode_available,
    sample_ints, top_line_4, top_line_8, left_line, smoothed_line, corner_of,
};
use crate::intra_select::{above_line, chroma_mean_sample, chroma_predicted, luma16_predicted};
use crate::residual::sum_of;

verus! {

/// The neighbours of a block.
pub struct Neighbours {
    /// The samples above it, and as many again to the right of those.
    pub top: Seq<u8>,
    /// The samples to the left of it.
    pub left: Seq<u8>,
    /// The sample above and to the left of it.
    pub corner: u8,
}

impl Neighbours {
    /// Whether a block of some side has these neighbours.
    pub open spec fn fit(self, side: int) -> bool {
        &&& side == 4 || side == 8
        &&& self.top.len() == 2 * side
        &&& self.left.len() == side
    }

    /// The sample in column `x` and row `y` of the block that is predicted in a mode.
    pub open spec fn sample(self, side: int, mode: int, x: int, y: int) -> int {
        block_predicted(side, mode, true, self.top, true, self.left, self.corner)->Some_0[y * side
            + x] as int
    }
}

/// A weighted mean of three samples, rounded to the nearest.
pub open spec fn quarter_sum(a: u8, b: u8, c: u8) -> int {
    (a + b + b + c + 2) / 4
}

/// The mean of two samples, rounded to the nearest.
pub open spec fn half_sum(a: u8, b: u8) -> int {
    (a + b + 1) / 2
}

proof fn lemma_place(side: int, x: int, y: int)
    requires
        side == 4 || side == 8,
        0 <= x < side,
        0 <= y < side,
    ensures
        0 <= y * side + x < side * side,
        (y * side + x) % side == x,
        (y * side + x) / side == y,
{
    if side == 4 {
        assert(0 <= y * 4 + x < 16 && (y * 4 + x) % 4 == x && (y * 4 + x) / 4 == y);
    } else {
        assert(0 <= y * 8 + x < 64 && (y * 8 + x) % 8 == x && (y * 8 + x) / 8 == y);
    }
}

proof fn lemma_sample(n: Neighbours, side: int, mode: int, x: int, y: int)
    requires
        n.fit(side),
        0 <= mode <= 8,
        0 <= x < side,
        0 <= y < side,
    ensures
        n.sample(side, mode, x, y) == block_sample(
            side,
            mode,
            true,
            n.top,
            true,
            n.left,
            n.corner,
            y * side + x,
        ) as u8,
        (y * side + x) % side == x,
        (y * side + x) / side == y,
{
    lemma_place(side, x, y);
}

/// Straight down every row is the row above the block, and straight to the right every column is
/// the column to the left of it.
pub proof fn law_straight(n: Neighbours, side: int, x: int, y: int)
    requires
        n.fit(side),
        0 <= x < side,
        0 <= y < side,
    ensures
        n.sample(side, 0, x, y) == n.top[x],
        n.sample(side, 1, x, y) == n.left[y],
{
    lemma_sample(n, side, 0, x, y);
    lemma_sample(n, side, 1, x, y);
}

/// Down to the left, samples are carried along their diagonals; those of the first row and of the
/// last column are weighted means of three neighbours above, the last of which counts again at the
/// end.
pub proof fn law_down_left(n: Neighbours, side: int, x: int, y: int)
    requires
        n.fit(side),
        0 <= x < side,
        0 <= y < side,
    ensures
        x > 0 && y < side - 1 ==> n.sample(side, 3, x, y) == n.sample(side, 3, x - 1, y + 1),
        y == 0 ==> n.sample(side, 3, x, y) == quarter_sum(n.top[x], n.top[x + 1], n.top[x + 2]),
        x == side - 1 && y < side - 1 ==> n.sample(side, 3, x, y) == quarter_sum(
            n.top[side - 1 + y],
            n.top[side + y],
            n.top[side + 1 + y],
        ),
        x == side - 1 && y == side - 1 ==> n.sample(side, 3, x, y) == quarter_sum(
            n.top[2 * side - 2],
            n.top[2 * side - 1],
            n.top[2 * side - 1],
        ),
{
    lemma_sample(n, side, 3, x, y);
    if x > 0 && y < side - 1 {
        lemma_sample(n, side, 3, x - 1, y + 1);
    }
}

/// Down to the right, samples are carried along their diagonals; those of the first row come from
/// the row above, those of the first column from the column to the left, and the first one from
/// both sides of the corner.
pub proof fn law_down_right(n: Neighbours, side: int, x: int, y: int)
    requires
        n.fit(side),
        0 <= x < side,
        0 <= y < side,
    ensures
        x > 0 && y > 0 ==> n.sample(side, 4, x, y) == n.sample(side, 4, x - 1, y - 1),
        x == 0 && y == 0 ==> n.sample(side, 4, x, y) == quarter_sum(n.top[0], n.corner, n.left[0]),
        x == 1 && y == 0 ==> n.sample(side, 4, x, y) == quarter_sum(n.corner, n.top[0], n.top[1]),
        x > 1 && y == 0 ==> n.sample(side, 4, x, y) == quarter_sum(
            n.top[x - 2],
            n.top[x - 1],
            n.top[x],
        ),
        x == 0 && y == 1 ==> n.sample(side, 4, x, y) == quarter_sum(n.corner, n.left[0], n.left[1]),
        x == 0 && y > 1 ==> n.sample(side, 4, x, y) == quarter_sum(
            n.left[y - 2],
            n.left[y - 1],
            n.left[y],
        ),
{
    lemma_sample(n, side, 4, x, y);
    if x > 0 && y > 0 {
        lemma_sample(n, side, 4, x - 1, y - 1);
    }
}

/// Steeply down to the right, each row is the second one above it moved by one step; the first row
/// holds means of two neighbours above, the second one of three, and the first column of the rest
/// comes from the column to the left.
pub proof fn law_vertical_right(n: Neighbours, side: int, x: int, y: int)
    requires
        n.fit(side),
        0 <= x < side,
        0 <= y < side,
    ensures
        x > 0 && y > 1 ==> n.sample(side, 5, x, y) == n.sample(side, 5, x - 1, y - 2),
        x == 0 && y == 0 ==> n.sample(side, 5, x, y) == half_sum(n.corner, n.top[0]),
        x > 0 && y == 0 ==> n.sample(side, 5, x, y) == half_sum(n.top[x - 1], n.top[x]),
        x == 0 && y == 1 ==> n.sample(side, 5, x, y) == quarter_sum(n.left[0], n.corner, n.top[0]),
        x == 1 && y == 1 ==> n.sample(side, 5, x, y) == quarter_sum(n.corner, n.top[0], n.top[1]),
        x > 1 && y == 1 ==> n.sample(side, 5, x, y) == quarter_sum(
            n.top[x - 2],
            n.top[x - 1],
            n.top[x],
        ),
        x == 0 && y == 2 ==> n.sample(side, 5, x, y) == quarter_sum(n.left[1], n.left[0], n.corner),
        x == 0 && y > 2 ==> n.sample(side, 5, x, y) == quarter_sum(
            n.left[y - 1],
            n.left[y - 2],
            n.left[y - 3],
        ),
{
    lemma_sample(n, side, 5, x, y);
    if x > 0 && y > 1 {
        lemma_sample(n, side, 5, x - 1, y - 2);
    }
}

/// Flatly down to the right, each column is the second one before it moved by one step; the first
/// column holds means of two neighbours to the left, the second one of three, and the first row of
/// the rest comes from the row above.
pub proof fn law_horizontal_down(n: Neighbours, side: int, x: int, y: int)
    requires
        n.fit(side),
        0 <= x < side,
        0 <= y < side,
    ensures
        x > 1 && y > 0 ==> n.sample(side, 6, x, y) == n.sample(side, 6, x - 2, y - 1),
        x == 0 && y == 0 ==> n.sample(side, 6, x, y) == half_sum(n.corner, n.left[0]),
        x == 0 && y > 0 ==> n.sample(side, 6, x, y) == half_sum(n.left[y - 1], n.left[y]),
        x == 1 && y == 0 ==> n.sample(side, 6, x, y) == quarter_sum(n.top[0], n.corner, n.left[0]),
        x == 1 && y == 1 ==> n.sample(side, 6, x, y) == quarter_sum(n.corner, n.left[0], n.left[1]),
        x == 1 && y > 1 ==> n.sample(side, 6, x, y) == quarter_sum(
            n.left[y - 2],
            n.left[y - 1],
            n.left[y],
        ),
        x == 2 && y == 0 ==> n.sample(side, 6, x, y) == quarter_sum(n.top[1], n.top[0], n.corner),
        x > 2 && y == 0 ==> n.sample(side, 6, x, y) == quarter_sum(
            n.top[x - 1],
            n.top[x - 2],
            n.top[x - 3],
        ),
{
    lemma_sample(n, side, 6, x, y);
    if x > 1 && y > 0 {
        lemma_sample(n, side, 6, x - 2, y - 1);
    }
}

/// Steeply down to the left, each row is the second one above it moved back by one step; the first
/// row holds means of two neighbours above, the second one of three, and the last column of the
/// rest goes on to the right.
pub proof fn law_vertical_left(n: Neighbours, side: int, x: int, y: int)
    requires
        n.fit(side),
        0 <= x < side,
        0 <= y < side,
    ensures
        x < side - 1 && y > 1 ==> n.sample(side, 7, x, y) == n.sample(side, 7, x + 1, y - 2),
        y == 0 ==> n.sample(side, 7, x, y) == half_sum(n.top[x], n.top[x + 1]),
        y == 1 ==> n.sample(side, 7, x, y) == quarter_sum(n.top[x], n.top[x + 1], n.top[x + 2]),
        x == side - 1 && y % 2 == 0 ==> n.sample(side, 7, x, y) == half_sum(
            n.top[side - 1 + y / 2],
            n.top[side + y / 2],
        ),
        x == side - 1 && y % 2 == 1 ==> n.sample(side, 7, x, y) == quarter_sum(
            n.top[side - 1 + y / 2],
            n.top[side + y / 2],
            n.top[side + 1 + y / 2],
        ),
{
    lemma_sample(n, side, 7, x, y);
    if x < side - 1 && y > 1 {
        lemma_sample(n, side, 7, x + 1, y - 2);
    }
}

/// Flatly up to the right, each column is the second one before it moved up by one step; the first
/// column holds means of two neighbours to the left, the second one of three, and the last of the
/// neighbours fills the rest.
pub proof fn law_horizontal_up(n: Neighbours, side: int, x: int, y: int)
    requires
        n.fit(side),
        0 <= x < side,
        0 <= y < side,
    ensures
        x > 1 && y < side - 1 ==> n.sample(side, 8, x, y) == n.sample(side, 8, x - 2, y + 1),
        x == 0 && y < side - 1 ==> n.sample(side, 8, x, y) == half_sum(n.left[y], n.left[y + 1]),
        x == 1 && y < side - 2 ==> n.sample(side, 8, x, y) == quarter_sum(
            n.left[y],
            n.left[y + 1],
            n.left[y + 2],
        ),
        x == 1 && y == side - 2 ==> n.sample(side, 8, x, y) == quarter_sum(
            n.left[side - 2],
            n.left[side - 1],
            n.left[side - 1],
        ),
        y == side - 1 ==> n.sample(side, 8, x, y) == n.left[side - 1],
{
    lemma_sample(n, side, 8, x, y);
    if x > 1 && y < side - 1 {
        lemma_sample(n, side, 8, x - 2, y + 1);
    }
}

/// Exchanging the row above and the column to the left transposes the block, where straight and
/// flat directions are exchanged with each other.
pub proof fn law_exchanged_neighbours(n: Neighbours, m: Neighbours, side: int, x: int, y: int)
    requires
        n.fit(side),
        m.fit(side),
        n.corner == m.corner,
        n.left == m.top.take(side),
        m.left == n.top.take(side),
        0 <= x < side,
        0 <= y < side,
    ensures
        n.sample(side, 0, x, y) == m.sample(side, 1, y, x),
        n.sample(side, 1, x, y) == m.sample(side, 0, y, x),
        n.sample(side, 4, x, y) == m.sample(side, 4, y, x),
        n.sample(side, 5, x, y) == m.sample(side, 6, y, x),
        n.sample(side, 6, x, y) == m.sample(side, 5, y, x),
{
    lemma_sample(n, side, 0, x, y);
    lemma_sample(m, side, 1, y, x);
    lemma_sample(n, side, 1, x, y);
    lemma_sample(m, side, 0, y, x);
    lemma_sample(n, side, 4, x, y);
    lemma_sample(m, side, 4, y, x);
    lemma_sample(n, side, 5, x, y);
    lemma_sample(m, side, 6, y, x);
    lemma_sample(n, side, 6, x, y);
    lemma_sample(m, side, 5, y, x);
    assert forall|i: int| 0 <= i < side implies #[trigger] n.left[i] == m.top[i] by {}
    assert forall|i: int| 0 <= i < side implies #[trigger] m.left[i] == n.top[i] by {}
}

/// The sum of samples.
pub open spec fn total(line: Seq<u8>) -> int
    decreases line.len(),
{
    if line.len() == 0 {
        0
    } else {
        total(line.drop_last()) + line.last()
    }
}

proof fn lemma_total(line: Seq<u8>, count: int)
    requires
        0 <= count <= line.len(),
    ensures
        sum_of(sample_ints(line), count) == total(line.take(count)),
    decreases count,
{
    if count > 0 {
        lemma_total(line, count - 1);
        assert(line.take(count).drop_last() =~= line.take(count - 1));
    } else {
        assert(line.take(0) =~= Seq::<u8>::empty());
    }
}

/// Whether a number is the mean of some samples, rounded to the nearest, or 128 where there are
/// none.
pub open spec fn is_mean(mean: int, sum: int, count: int) -> bool {
    if count == 0 {
        mean == 128
    } else {
        -count <= 2 * (sum - count * mean) < count
    }
}

proof fn lemma_is_mean(has_top: bool, top: Seq<u8>, has_left: bool, left: Seq<u8>, side: int)
    requires
        top.len() == side,
        left.len() == side,
        side == 4 || side == 8 || side == 16,
    ensures
        ({
            let sum = (if has_top {
                total(top)
            } else {
                0
            }) + (if has_left {
                total(left)
            } else {
                0
            });
            let count = (if has_top {
                side
            } else {
                0
            }) + (if has_left {
                side
            } else {
                0
            });
            let mean = dc_of(has_top, top, has_left, left);
            &&& is_mean(mean, sum, count)
            &&& 0 <= mean <= 255
        }),
{
    lemma_total(top, side);
    lemma_total(left, side);
    assert(top.take(side) =~= top);
    assert(left.take(side) =~= left);
    lemma_total_range(top);
    lemma_total_range(left);
    let sum = (if has_top {
        total(top)
    } else {
        0
    }) + (if has_left {
        total(left)
    } else {
        0
    });
    if has_top || has_left {
        lemma_rounded(
            sum,
            if has_top && has_left {
                2 * side
            } else {
                side
            },
        );
    }
}

proof fn lemma_rounded(sum: int, count: int)
    requires
        count == 4 || count == 8 || count == 16 || count == 32,
        0 <= sum <= 255 * count,
    ensures
        is_mean((sum + count / 2) / count, sum, count),
        0 <= (sum + count / 2) / count <= 255,
{
    if count == 4 {
        assert(is_mean((sum + 2) / 4, sum, 4));
    } else if count == 8 {
        assert(is_mean((sum + 4) / 8, sum, 8));
    } else if count == 16 {
        assert(is_mean((sum + 8) / 16, sum, 16));
    } else {
        assert(is_mean((sum + 16) / 32, sum, 32));
    }
}

proof fn lemma_total_range(line: Seq<u8>)
    ensures
        0 <= total(line) <= 255 * line.len(),
    decreases line.len(),
{
    if line.len() > 0 {
        lemma_total_range(line.drop_last());
    }
}

/// Predicted by the mean, every sample is the mean of those neighbours that exist, rounded to the
/// nearest.
pub proof fn law_mean(
    side: int,
    has_top: bool,
    top: Seq<u8>,
    has_left: bool,
    left: Seq<u8>,
    corner: u8,
    i: int,
)
    requires
        side == 4 || side == 8,
        top.len() == 2 * side,
        left.len() == side,
        0 <= i < side * side,
    ensures
        ({
            let mean = block_predicted(side, 2, has_top, top, has_left, left, corner)->Some_0[i];
            let sum = (if has_top {
                total(top.take(side))
            } else {
                0
            }) + (if has_left {
                total(left)
            } else {
                0
            });
            let count = (if has_top {
                side
            } else {
                0
            }) + (if has_left {
                side
            } else {
                0
            });
            is_mean(mean as int, sum, count)
        }),
{
    lemma_is_mean(has_top, top.take(side), has_left, left, side);
}

proof fn lemma_flat_total(line: Seq<u8>, value: u8)
    requires
        forall|i: int| 0 <= i < line.len() ==> line[i] == value,
    ensures
        total(line) == value * line.len(),
    decreases line.len(),
{
    if line.len() > 0 {
        lemma_flat_total(line.drop_last(), value);
        assert(value * line.len() == value * (line.len() - 1) + value) by (nonlinear_arith);
    }
}

/// Where all neighbours are the same, every mode predicts a block of that same sample.
pub proof fn law_flat_neighbours(n: Neighbours, side: int, mode: int, x: int, y: int)
    requires
        n.fit(side),
        forall|i: int| 0 <= i < 2 * side ==> n.top[i] == n.corner,
        forall|i: int| 0 <= i < side ==> n.left[i] == n.corner,
        0 <= mode <= 8,
        0 <= x < side,
        0 <= y < side,
    ensures
        n.sample(side, mode, x, y) == n.corner,
{
    lemma_sample(n, side, mode, x, y);
    if mode == 2 {
        lemma_place(side, x, y);
        law_mean(side, true, n.top, true, n.left, n.corner, y * side + x);
        lemma_flat_total(n.top.take(side), n.corner);
        lemma_flat_total(n.left, n.corner);
        let v = n.corner as int;
        let mean = n.sample(side, mode, x, y);
        if side == 4 {
            assert(is_mean(mean, 8 * v, 8));
        } else {
            assert(is_mean(mean, 16 * v, 16));
        }
    }
}

/// Which neighbours a mode needs: those above to go straight down or to the left, those to the left
/// to go straight to the right or up, both for what lies between, and none for the mean.
pub proof fn law_needed_neighbours(
    side: int,
    mode: int,
    has_top: bool,
    top: Seq<u8>,
    has_left: bool,
    left: Seq<u8>,
    corner: u8,
)
    ensures
        block_predicted(side, mode, has_top, top, has_left, left, corner) is Some <==> {
            ||| mode == 2
            ||| has_top && (mode == 0 || mode == 3 || mode == 7)
            ||| has_left && (mode == 1 || mode == 8)
            ||| has_top && has_left && (mode == 4 || mode == 5 || mode == 6)
        },
{
}

/// A block is predicted from those neighbours that its mode needs, and from nothing else.
pub proof fn law_only_neighbours(
    side: int,
    mode: int,
    has_top: bool,
    has_left: bool,
    n: Neighbours,
    m: Neighbours,
)
    requires
        n.fit(side),
        m.fit(side),
        has_top ==> n.top == m.top,
        has_left ==> n.left == m.left,
        has_top && has_left ==> n.corner == m.corner,
    ensures
        block_predicted(side, mode, has_top, n.top, has_left, n.left, n.corner) == block_predicted(
            side,
            mode,
            has_top,
            m.top,
            has_left,
            m.left,
            m.corner,
        ),
{
    let first = block_predicted(side, mode, has_top, n.top, has_left, n.left, n.corner);
    let second = block_predicted(side, mode, has_top, m.top, has_left, m.left, m.corner);
    if mode_available(mode, has_top, has_left) {
        assert forall|i: int| 0 <= i < side * side implies #[trigger] first->Some_0[i]
            == second->Some_0[i] by {
            if mode == 2 {
                assert(n.left.len() == m.left.len());
                assert(n.top.take(side).len() == m.top.take(side).len());
            }
        }
        assert(first->Some_0 =~= second->Some_0);
    }
}

/// The neighbours of a four-by-four block are the samples around it in the picture. To the right of
/// those above, the last one counts on where the picture ends, or where the samples belong to
/// blocks that come later: after the fourth and the twelfth block, and beside a macroblock below
/// its first row.
pub proof fn law_intra4_neighbours(
    plane: Seq<u8>,
    stride: int,
    x: int,
    y: int,
    block: int,
    mode: int,
    top_macroblock: bool,
    left_macroblock: bool,
    n: Neighbours,
)
    requires
        n.fit(4),
        y % 16 > 0 || top_macroblock ==> {
            &&& forall|i: int| 0 <= i < 4 ==> n.top[i] == plane[(y - 1) * stride + (x + i)]
            &&& forall|i: int|
                4 <= i < 8 ==> n.top[i] == plane[(y - 1) * stride + (x + if x + i < stride && block
                    != 3 && block != 11 && (y % 16 == 0 || x % 16 + i < 16) {
                    i
                } else {
                    3
                })]
        },
        x % 16 > 0 || left_macroblock ==> forall|i: int|
            0 <= i < 4 ==> n.left[i] == plane[(y + i) * stride + (x - 1)],
        (y % 16 > 0 || top_macroblock) && (x % 16 > 0 || left_macroblock) ==> n.corner == plane[(y
            - 1) * stride + (x - 1)],
    ensures
        intra4_predicted(plane, stride, x, y, block, mode, top_macroblock, left_macroblock)
            == block_predicted(
            4,
            mode,
            y % 16 > 0 || top_macroblock,
            n.top,
            x % 16 > 0 || left_macroblock,
            n.left,
            n.corner,
        ),
{
    let has_top = y % 16 > 0 || top_macroblock;
    let has_left = x % 16 > 0 || left_macroblock;
    let m = Neighbours {
        top: top_line_4(plane, stride, x, y, block, has_top),
        left: left_line(plane, stride, x, y, 4, has_left),
        corner: corner_of(plane, stride, x, y, has_top, has_left),
    };
    if has_top {
        assert(n.top =~= m.top);
    }
    if has_left {
        assert(n.left =~= m.left);
    }
    law_only_neighbours(4, mode, has_top, has_left, n, m);
}

/// Whether `line` is a smoothed line of samples: weighted means of three, where at the ends without
/// a further neighbour the end itself counts in its place.
pub open spec fn smoothed_from(line: Seq<u8>, raw: Seq<u8>, corner: Option<u8>) -> bool {
    let last = raw.len() - 1;
    let before = match corner {
        Some(sample) => sample,
        None => raw[0],
    };
    &&& line.len() == raw.len()
    &&& line[0] == quarter_sum(before, raw[0], raw[1])
    &&& line[last] == quarter_sum(raw[last - 1], raw[last], raw[last])
    &&& forall|i: int|
        0 < i < last ==> #[trigger] line[i] == quarter_sum(raw[i - 1], raw[i], raw[i + 1])
}

/// The neighbours of an eight-by-eight block are the samples around it in the picture, smoothed
/// along their line, with the corner as it is. To the right of those above, the last one counts on
/// where the picture ends, and beside the last quarter of a macroblock.
pub proof fn law_intra8_neighbours(
    plane: Seq<u8>,
    stride: int,
    x: int,
    y: int,
    group: int,
    mode: int,
    top_macroblock: bool,
    left_macroblock: bool,
    raw: Neighbours,
    n: Neighbours,
)
    requires
        raw.fit(8),
        n.fit(8),
        0 <= group < 4,
        ({
            let has_top = group >= 2 || top_macroblock;
            let has_left = group == 1 || group == 3 || left_macroblock;
            let corner = if has_top && has_left {
                Some(raw.corner)
            } else {
                None
            };
            &&& has_top ==> {
                &&& forall|i: int| 0 <= i < 8 ==> raw.top[i] == plane[(y - 1) * stride + (x + i)]
                &&& forall|i: int|
                    8 <= i < 16 ==> raw.top[i] == plane[(y - 1) * stride + (x + if x + i < stride
                        && group != 3 {
                        i
                    } else {
                        7
                    })]
                &&& smoothed_from(n.top, raw.top, corner)
            }
            &&& has_left ==> {
                &&& forall|i: int| 0 <= i < 8 ==> raw.left[i] == plane[(y + i) * stride + (x - 1)]
                &&& smoothed_from(n.left, raw.left, corner)
            }
            &&& has_top && has_left ==> raw.corner == plane[(y - 1) * stride + (x - 1)]
            &&& n.corner == raw.corner
        }),
    ensures
        intra8_predicted(plane, stride, x, y, group, mode, top_macroblock, left_macroblock)
            == block_predicted(
            8,
            mode,
            group >= 2 || top_macroblock,
            n.top,
            group == 1 || group == 3 || left_macroblock,
            n.left,
            n.corner,
        ),
{
    let has_top = group >= 2 || top_macroblock;
    let has_left = group == 1 || group == 3 || left_macroblock;
    assert(has_top == (group / 2 > 0 || top_macroblock));
    assert(has_left == (group % 2 != 0 || left_macroblock));
    let corner = corner_of(plane, stride, x, y, has_top, has_left);
    let m = Neighbours {
        top: smoothed_line(
            top_line_8(plane, stride, x, y, group, has_top),
            has_top && has_left,
            corner,
        ),
        left: smoothed_line(
            left_line(plane, stride, x, y, 8, has_left),
            has_top && has_left,
            corner,
        ),
        corner,
    };
    if has_top {
        assert(raw.top =~= top_line_8(plane, stride, x, y, group, has_top));
        assert(n.top =~= m.top);
    }
    if has_left {
        assert(raw.left =~= left_line(plane, stride, x, y, 8, has_left));
        assert(n.left =~= m.left);
    }
    law_only_neighbours(8, mode, has_top, has_left, n, m);
}

/// A luma macroblock that is predicted as a whole repeats the row above it, the column to the left
/// of it, or the mean of those neighbours that exist.
pub proof fn law_whole_luma(
    plane: Seq<u8>,
    stride: int,
    x: int,
    y: int,
    has_top: bool,
    has_left: bool,
    column: int,
    row: int,
)
    requires
        0 <= column < 16,
        0 <= row < 16,
    ensures
        ({
            let sample = |mode: int|
                luma16_predicted(plane, stride, x, y, has_top, has_left, mode)[row * 16 + column];
            let top = Seq::new(16, |i: int| plane[(y - 1) * stride + (x + i)]);
            let left = Seq::new(16, |i: int| plane[(y + i) * stride + (x - 1)]);
            &&& has_top ==> sample(0) == plane[(y - 1) * stride + (x + column)]
            &&& has_left ==> sample(1) == plane[(y + row) * stride + (x - 1)]
            &&& has_top && has_left ==> is_mean(sample(2) as int, total(top) + total(left), 32)
            &&& has_top && !has_left ==> is_mean(sample(2) as int, total(top), 16)
            &&& !has_top && has_left ==> is_mean(sample(2) as int, total(left), 16)
            &&& !has_top && !has_left ==> sample(2) == 128
        }),
{
    let top = Seq::new(16, |i: int| plane[(y - 1) * stride + (x + i)]);
    let left = Seq::new(16, |i: int| plane[(y + i) * stride + (x - 1)]);
    let own_top = above_line(plane, stride, x, y, 16, has_top);
    let own_left = left_line(plane, stride, x, y, 16, has_left);
    if has_top {
        assert(top =~= own_top);
    }
    if has_left {
        assert(left =~= own_left);
    }
    lemma_is_mean(has_top, own_top, has_left, own_left, 16);
}

/// A chroma macroblock repeats the column to the left of it or the row above it, or each of its
/// quarters is the mean of its own four neighbours on a side: of those on both sides in the first
/// and the last quarter, of those above in the quarter to the right, and of those to the left in the
/// quarter below, as far as they exist; where the proper ones do not exist, the others count.
pub proof fn law_whole_chroma(
    plane: Seq<u8>,
    stride: int,
    x: int,
    y: int,
    has_top: bool,
    has_left: bool,
    column: int,
    row: int,
)
    requires
        0 <= column < 8,
        0 <= row < 8,
    ensures
        ({
            let sample = |mode: int|
                chroma_predicted(plane, stride, x, y, has_top, has_left, mode)[row * 8 + column];
            let right = column >= 4;
            let below = row >= 4;
            let top = Seq::new(
                4,
                |i: int|
                    plane[(y - 1) * stride + (x + if right {
                        4 + i
                    } else {
                        i
                    })],
            );
            let left = Seq::new(
                4,
                |i: int|
                    plane[(y + if below {
                        4 + i
                    } else {
                        i
                    }) * stride + (x - 1)],
            );
            let mean = sample(0) as int;
            &&& has_left ==> sample(1) == plane[(y + row) * stride + (x - 1)]
            &&& has_top ==> sample(2) == plane[(y - 1) * stride + (x + column)]
            &&& has_top && has_left && right == below ==> is_mean(
                mean,
                total(top) + total(left),
                8,
            )
            &&& has_top && (!has_left || right && !below) ==> is_mean(mean, total(top), 4)
            &&& has_left && (!has_top || !right && below) ==> is_mean(mean, total(left), 4)
            &&& !has_top && !has_left ==> mean == 128
        }),
{
    let i = row * 8 + column;
    assert(i % 8 == column && i / 8 == row && i / 32 == row / 4);
    let right = column >= 4;
    let below = row >= 4;
    let top = Seq::new(
        4,
        |i: int|
            plane[(y - 1) * stride + (x + if right {
                4 + i
            } else {
                i
            })],
    );
    let left = Seq::new(
        4,
        |i: int|
            plane[(y + if below {
                4 + i
            } else {
                i
            }) * stride + (x - 1)],
    );
    let own_top = above_line(plane, stride, x, y, 8, has_top).subrange(
        column / 4 * 4,
        column / 4 * 4 + 4,
    );
    let own_left = left_line(plane, stride, x, y, 8, has_left).subrange(row / 4 * 4, row / 4 * 4 + 4);
    if has_top {
        assert(top =~= own_top);
    }
    if has_left {
        assert(left =~= own_left);
    }
    let use_top = has_top && (!has_left || row / 4 == 0 || column / 4 == 1);
    let use_left = has_left && (!has_top || column / 4 == 0 || row / 4 == 1);
    assert(i % 8 / 4 == column / 4);
    lemma_is_mean(use_top, own_top, use_left, own_left, 4);
    assert(chroma_mean_sample(
        has_top,
        above_line(plane, stride, x, y, 8, has_top),
        has_left,
        left_line(plane, stride, x, y, 8, has_left),
        i,
    ) == dc_of(use_top, own_top, use_left, own_left));
}

} // verus!
