//! What holds of filtered edges.

use vstd::prelude::*;

use crate::deblock::{
    chroma_quantizer, edge_delta, edge_qp, edge_is_artifact, line_filtered, normal_side, replaced,
    same_motion, samples_at, strength_between, strong_side, BlockMotion, MacroblockMap, Parameters,
    ReferenceMotion, ALPHA, BETA, CHROMA_QP, TC0,
};

verus! {

/// Four places on each side of an edge, counted from it.
pub struct Line {
    /// Those on one side.
    pub p: Seq<int>,
    /// Those on the other side.
    pub q: Seq<int>,
}

impl Line {
    /// Whether these are eight places of a plane.
    pub open spec fn lies_in(self, plane: Seq<u8>) -> bool {
        &&& self.p.len() == 4
        &&& self.q.len() == 4
        &&& forall|i: int| 0 <= i < 4 ==> 0 <= #[trigger] self.p[i] < plane.len()
        &&& forall|i: int| 0 <= i < 4 ==> 0 <= #[trigger] self.q[i] < plane.len()
        &&& forall|i: int, j: int|
            0 <= i < j < 4 ==> #[trigger] self.p[i] != #[trigger] self.p[j]
        &&& forall|i: int, j: int|
            0 <= i < j < 4 ==> #[trigger] self.q[i] != #[trigger] self.q[j]
        &&& forall|i: int, j: int|
            0 <= i < 4 && 0 <= j < 4 ==> #[trigger] self.p[i] != #[trigger] self.q[j]
    }

    /// The plane after the line is filtered.
    pub open spec fn filtered(
        self,
        plane: Seq<u8>,
        qp: int,
        strength: int,
        chroma: bool,
        params: Parameters,
    ) -> Seq<u8> {
        line_filtered(plane, self.p, self.q, qp, strength, chroma, params)
    }

    /// A sample on one side.
    pub open spec fn near(self, plane: Seq<u8>, k: int) -> int {
        plane[self.p[k]] as int
    }

    /// A sample on the other side.
    pub open spec fn far(self, plane: Seq<u8>, k: int) -> int {
        plane[self.q[k]] as int
    }

    /// Whether the steps across the edge and beside it are smaller than two thresholds.
    pub open spec fn smooth_but_for_edge(self, plane: Seq<u8>, alpha: int, beta: int) -> bool {
        &&& -alpha < self.near(plane, 0) - self.far(plane, 0) < alpha
        &&& -beta < self.near(plane, 1) - self.near(plane, 0) < beta
        &&& -beta < self.far(plane, 1) - self.far(plane, 0) < beta
    }
}

/// A table index for a quantizer and an offset.
pub open spec fn index_of(qp: int, offset: int) -> int {
    if qp + offset < 0 {
        0
    } else if qp + offset > 51 {
        51
    } else {
        qp + offset
    }
}

/// A number between zero and 255, or the nearer of these.
pub open spec fn limited(value: int) -> int {
    if value < 0 {
        0
    } else if value > 255 {
        255
    } else {
        value
    }
}

/// Thresholds do not fall as quantizers rise: nothing is filtered below sixteen, the threshold of
/// the edge reaches 255, that of the sides eighteen, and the greatest moves reach 13, 17, and 25.
pub proof fn law_thresholds(low: int, high: int, strength: int)
    requires
        0 <= low <= high <= 51,
        1 <= strength <= 3,
    ensures
        0 <= ALPHA[low] <= ALPHA[high] <= 255,
        0 <= BETA[low] <= BETA[high] <= 18,
        0 <= TC0[strength - 1][low] <= TC0[strength - 1][high] <= 25,
        TC0[0][low] <= TC0[1][low] <= TC0[2][low],
        low < 16 ==> ALPHA[low] == 0 && BETA[low] == 0,
        low >= 16 ==> ALPHA[low] >= 4 && BETA[low] >= 2,
        ALPHA[51] == 255 && BETA[51] == 18 && TC0[0][51] == 13 && TC0[1][51] == 17 && TC0[2][51]
            == 25,
{
    lemma_edge_thresholds();
    lemma_moves();
    lemma_rising(low, high);
}

proof fn lemma_edge_thresholds()
    ensures
        forall|i: int| 0 <= i < 51 ==> #[trigger] ALPHA[i] <= ALPHA[i + 1],
        forall|i: int| 0 <= i < 51 ==> #[trigger] BETA[i] <= BETA[i + 1],
        forall|i: int| 0 <= i < 16 ==> #[trigger] ALPHA[i] == 0,
        forall|i: int| 0 <= i < 16 ==> #[trigger] BETA[i] == 0,
        ALPHA[16] == 4 && BETA[16] == 2,
        ALPHA[51] == 255 && BETA[51] == 18,
{
}

proof fn lemma_moves()
    ensures
        forall|i: int| 0 <= i < 51 ==> #[trigger] TC0[0][i] <= TC0[0][i + 1],
        forall|i: int| 0 <= i < 51 ==> #[trigger] TC0[1][i] <= TC0[1][i + 1],
        forall|i: int| 0 <= i < 51 ==> #[trigger] TC0[2][i] <= TC0[2][i + 1],
        forall|i: int| 0 <= i < 52 ==> #[trigger] TC0[0][i] <= TC0[1][i],
        forall|i: int| 0 <= i < 52 ==> #[trigger] TC0[1][i] <= TC0[2][i],
        TC0[0][0] == 0 && TC0[1][0] == 0 && TC0[2][0] == 0,
        TC0[0][51] == 13 && TC0[1][51] == 17 && TC0[2][51] == 25,
{
}

proof fn lemma_rising(low: int, high: int)
    requires
        0 <= low <= high <= 51,
    ensures
        0 <= ALPHA[low] <= ALPHA[high] <= 255,
        0 <= BETA[low] <= BETA[high] <= 18,
        0 <= TC0[0][low] <= TC0[0][high] <= 13,
        0 <= TC0[1][low] <= TC0[1][high] <= 17,
        0 <= TC0[2][low] <= TC0[2][high] <= 25,
        low >= 16 ==> ALPHA[low] >= 4 && BETA[low] >= 2,
    decreases high - low, 51 - high, low,
{
    lemma_edge_thresholds();
    lemma_moves();
    if low < high {
        lemma_rising(low, high - 1);
        lemma_rising(high - 1, high - 1);
        lemma_rising_end(high);
    } else {
        lemma_rising_end(high);
        lemma_rising_start(low);
    }
}

proof fn lemma_rising_end(i: int)
    requires
        0 <= i <= 51,
    ensures
        ALPHA[i] <= 255,
        BETA[i] <= 18,
        TC0[0][i] <= 13,
        TC0[1][i] <= 17,
        TC0[2][i] <= 25,
        i > 0 ==> ALPHA[i - 1] <= ALPHA[i] && BETA[i - 1] <= BETA[i] && TC0[0][i - 1] <= TC0[0][i]
            && TC0[1][i - 1] <= TC0[1][i] && TC0[2][i - 1] <= TC0[2][i],
    decreases 51 - i,
{
    lemma_edge_thresholds();
    lemma_moves();
    if i < 51 {
        lemma_rising_end(i + 1);
    }
}

proof fn lemma_rising_start(i: int)
    requires
        0 <= i <= 51,
    ensures
        0 <= ALPHA[i],
        0 <= BETA[i],
        0 <= TC0[0][i],
        0 <= TC0[1][i],
        0 <= TC0[2][i],
        i >= 16 ==> ALPHA[i] >= 4 && BETA[i] >= 2,
    decreases i,
{
    lemma_edge_thresholds();
    lemma_moves();
    if i > 0 {
        lemma_rising_start(i - 1);
        lemma_rising_end(i);
    }
}

/// A line is filtered only where it is smooth but for its edge; a step as large as a threshold is
/// taken for a part of the picture and kept. Beyond the third sample on each side nothing changes,
/// nor anywhere else.
pub proof fn law_only_small_steps(
    line: Line,
    plane: Seq<u8>,
    qp: int,
    strength: int,
    chroma: bool,
    params: Parameters,
    place: int,
)
    requires
        line.lies_in(plane),
        1 <= strength <= 4,
        0 <= place < plane.len(),
    ensures
        ({
            let after = line.filtered(plane, qp, strength, chroma, params);
            let alpha = ALPHA[index_of(qp, params.offset_a as int)] as int;
            let beta = BETA[index_of(qp, params.offset_b as int)] as int;
            &&& !line.smooth_but_for_edge(plane, alpha, beta) ==> after == plane
            &&& after.len() == plane.len()
            &&& !line.p.take(3).contains(place) && !line.q.take(3).contains(place) ==> after[place]
                == plane[place]
        }),
{
    assert(line.p.take(3)[0] == line.p[0] && line.p.take(3)[1] == line.p[1] && line.p.take(3)[2]
        == line.p[2]);
    assert(line.q.take(3)[0] == line.q[0] && line.q.take(3)[1] == line.q[1] && line.q.take(3)[2]
        == line.q[2]);
}

proof fn lemma_replaced(line: Line, plane: Seq<u8>, p: Seq<int>, q: Seq<int>)
    requires
        line.lies_in(plane),
    ensures
        ({
            let after = replaced(plane, line.p, line.q, p, q);
            &&& line.near(after, 0) == limited(p[0])
            &&& line.near(after, 1) == limited(p[1])
            &&& line.near(after, 2) == limited(p[2])
            &&& line.far(after, 0) == limited(q[0])
            &&& line.far(after, 1) == limited(q[1])
            &&& line.far(after, 2) == limited(q[2])
        }),
{
}

proof fn lemma_normal_filtered(
    line: Line,
    plane: Seq<u8>,
    qp: int,
    strength: int,
    chroma: bool,
    params: Parameters,
    alpha: int,
    beta: int,
    tc0: int,
)
    requires
        line.lies_in(plane),
        1 <= strength <= 3,
        alpha == ALPHA[index_of(qp, params.offset_a as int)],
        beta == BETA[index_of(qp, params.offset_b as int)],
        tc0 == TC0[strength - 1][index_of(qp, params.offset_a as int)],
        line.smooth_but_for_edge(plane, alpha, beta),
    ensures
        ({
            let p = samples_at(plane, line.p);
            let q = samples_at(plane, line.q);
            let delta = edge_delta(p, q, beta, tc0, chroma);
            line.filtered(plane, qp, strength, chroma, params) == replaced(
                plane,
                line.p,
                line.q,
                normal_side(p, q, delta, beta, tc0, chroma),
                normal_side(q, p, -delta, beta, tc0, chroma),
            )
        }),
{
    let p = samples_at(plane, line.p);
    let q = samples_at(plane, line.q);
    assert(p[0] == line.near(plane, 0) && p[1] == line.near(plane, 1));
    assert(q[0] == line.far(plane, 0) && q[1] == line.far(plane, 1));
    assert(edge_is_artifact(p, q, alpha, beta));
}

proof fn lemma_strong_filtered(
    line: Line,
    plane: Seq<u8>,
    qp: int,
    chroma: bool,
    params: Parameters,
    alpha: int,
    beta: int,
)
    requires
        line.lies_in(plane),
        alpha == ALPHA[index_of(qp, params.offset_a as int)],
        beta == BETA[index_of(qp, params.offset_b as int)],
        line.smooth_but_for_edge(plane, alpha, beta),
    ensures
        ({
            let p = samples_at(plane, line.p);
            let q = samples_at(plane, line.q);
            line.filtered(plane, qp, 4, chroma, params) == replaced(
                plane,
                line.p,
                line.q,
                strong_side(p, q, alpha, beta, chroma),
                strong_side(q, p, alpha, beta, chroma),
            )
        }),
{
    let p = samples_at(plane, line.p);
    let q = samples_at(plane, line.q);
    assert(p[0] == line.near(plane, 0) && p[1] == line.near(plane, 1));
    assert(q[0] == line.far(plane, 0) && q[1] == line.far(plane, 1));
    assert(edge_is_artifact(p, q, alpha, beta));
}

/// How the samples at an edge are moved by the normal filter: where `most` is the limit and both
/// thresholds are met.
pub open spec fn normal_edge_moved(
    line: Line,
    plane: Seq<u8>,
    after: Seq<u8>,
    beta: int,
    limit: int,
    chroma: bool,
    moved: int,
) -> bool {
    let p = |k: int| line.near(plane, k);
    let q = |k: int| line.far(plane, k);
    let most = limit + (if chroma {
        1
    } else {
        (if -beta < p(2) - p(0) < beta {
            1int
        } else {
            0
        }) + (if -beta < q(2) - q(0) < beta {
            1int
        } else {
            0
        })
    });
    let wanted = 4 * (q(0) - p(0)) - (q(1) - p(1));
    &&& line.near(after, 0) == limited(p(0) + moved)
    &&& line.far(after, 0) == limited(q(0) - moved)
    &&& -most <= moved <= most
    &&& moved < most ==> wanted + 4 < 8 * moved + 8
    &&& moved > -most ==> 8 * moved <= wanted + 4
}

proof fn lemma_normal_moved(line: Line, plane: Seq<u8>, beta: int, tc0: int, chroma: bool)
    requires
        line.lies_in(plane),
        0 <= tc0,
    ensures
        ({
            let p = samples_at(plane, line.p);
            let q = samples_at(plane, line.q);
            let delta = edge_delta(p, q, beta, tc0, chroma);
            normal_edge_moved(
                line,
                plane,
                replaced(
                    plane,
                    line.p,
                    line.q,
                    normal_side(p, q, delta, beta, tc0, chroma),
                    normal_side(q, p, -delta, beta, tc0, chroma),
                ),
                beta,
                tc0,
                chroma,
                delta,
            )
        }),
{
    let p = samples_at(plane, line.p);
    let q = samples_at(plane, line.q);
    let delta = edge_delta(p, q, beta, tc0, chroma);
    lemma_replaced(
        line,
        plane,
        normal_side(p, q, delta, beta, tc0, chroma),
        normal_side(q, p, -delta, beta, tc0, chroma),
    );
}

/// The filter of strengths one to three moves the samples at the edge by the same amount in
/// opposite directions: three eighths of the step between them when both sides are flat, and
/// generally half of it with an eighth of the step between their neighbours taken off, rounded to
/// the nearest and as far as a limit, and never out of the range of samples.
pub proof fn law_normal_edge(
    line: Line,
    plane: Seq<u8>,
    qp: int,
    strength: int,
    chroma: bool,
    params: Parameters,
) -> (moved: int)
    requires
        line.lies_in(plane),
        1 <= strength <= 3,
        line.smooth_but_for_edge(
            plane,
            ALPHA[index_of(qp, params.offset_a as int)] as int,
            BETA[index_of(qp, params.offset_b as int)] as int,
        ),
    ensures
        normal_edge_moved(
            line,
            plane,
            line.filtered(plane, qp, strength, chroma, params),
            BETA[index_of(qp, params.offset_b as int)] as int,
            TC0[strength - 1][index_of(qp, params.offset_a as int)] as int,
            chroma,
            moved,
        ),
{
    let alpha = ALPHA[index_of(qp, params.offset_a as int)] as int;
    let beta = BETA[index_of(qp, params.offset_b as int)] as int;
    let tc0 = TC0[strength - 1][index_of(qp, params.offset_a as int)] as int;
    lemma_rising(index_of(qp, params.offset_a as int), index_of(qp, params.offset_a as int));
    lemma_normal_filtered(line, plane, qp, strength, chroma, params, alpha, beta, tc0);
    let p = samples_at(plane, line.p);
    let q = samples_at(plane, line.q);
    let delta = edge_delta(p, q, beta, tc0, chroma);
    lemma_normal_moved(line, plane, beta, tc0, chroma);
    delta
}

/// Where both sides are flat, the filter of strengths one to three moves the samples at the edge
/// towards each other and not past each other, and keeps their sum.
pub proof fn law_normal_flat(
    line: Line,
    plane: Seq<u8>,
    qp: int,
    strength: int,
    chroma: bool,
    params: Parameters,
)
    requires
        line.lies_in(plane),
        1 <= strength <= 3,
        line.near(plane, 1) == line.near(plane, 0) && line.near(plane, 2) == line.near(plane, 0),
        line.far(plane, 1) == line.far(plane, 0) && line.far(plane, 2) == line.far(plane, 0),
    ensures
        ({
            let after = line.filtered(plane, qp, strength, chroma, params);
            let a = line.near(plane, 0);
            let b = line.far(plane, 0);
            &&& a <= b ==> a <= line.near(after, 0) <= b && a <= line.far(after, 0) <= b
            &&& a >= b ==> b <= line.near(after, 0) <= a && b <= line.far(after, 0) <= a
            &&& line.near(after, 0) + line.far(after, 0) == a + b
        }),
{
    let alpha = ALPHA[index_of(qp, params.offset_a as int)] as int;
    let beta = BETA[index_of(qp, params.offset_b as int)] as int;
    if line.smooth_but_for_edge(plane, alpha, beta) {
        let moved = law_normal_edge(line, plane, qp, strength, chroma, params);
        lemma_rising(index_of(qp, params.offset_a as int), index_of(qp, params.offset_a as int));
    } else {
        law_only_small_steps(line, plane, qp, strength, chroma, params, line.p[0]);
    }
}

/// How the samples beside an edge are moved by the normal filter, up to a limit.
pub open spec fn normal_sides_moved(
    line: Line,
    plane: Seq<u8>,
    after: Seq<u8>,
    beta: int,
    most: int,
    chroma: bool,
) -> bool {
    let p = |k: int| line.near(plane, k);
    let q = |k: int| line.far(plane, k);
    let edge = (p(0) + q(0) + 1) / 2;
    let p_moved = line.near(after, 1) - p(1);
    let q_moved = line.far(after, 1) - q(1);
    let p_wanted = p(2) + edge - 2 * p(1);
    let q_wanted = q(2) + edge - 2 * q(1);
    &&& line.near(after, 2) == p(2) && line.far(after, 2) == q(2)
    &&& chroma || !(-beta < p(2) - p(0) < beta) ==> p_moved == 0
    &&& chroma || !(-beta < q(2) - q(0) < beta) ==> q_moved == 0
    &&& !chroma && -beta < p(2) - p(0) < beta ==> {
        &&& -most <= p_moved <= most
        &&& p_moved < most ==> p_wanted < 2 * p_moved + 2
        &&& p_moved > -most ==> 2 * p_moved <= p_wanted
    }
    &&& !chroma && -beta < q(2) - q(0) < beta ==> {
        &&& -most <= q_moved <= most
        &&& q_moved < most ==> q_wanted < 2 * q_moved + 2
        &&& q_moved > -most ==> 2 * q_moved <= q_wanted
    }
}

#[verifier::spinoff_prover]
proof fn lemma_sides_moved(line: Line, plane: Seq<u8>, beta: int, tc0: int, chroma: bool)
    requires
        line.lies_in(plane),
        0 <= tc0,
    ensures
        ({
            let p = samples_at(plane, line.p);
            let q = samples_at(plane, line.q);
            let delta = edge_delta(p, q, beta, tc0, chroma);
            normal_sides_moved(
                line,
                plane,
                replaced(
                    plane,
                    line.p,
                    line.q,
                    normal_side(p, q, delta, beta, tc0, chroma),
                    normal_side(q, p, -delta, beta, tc0, chroma),
                ),
                beta,
                tc0,
                chroma,
            )
        }),
{
    let p = samples_at(plane, line.p);
    let q = samples_at(plane, line.q);
    let delta = edge_delta(p, q, beta, tc0, chroma);
    lemma_replaced(
        line,
        plane,
        normal_side(p, q, delta, beta, tc0, chroma),
        normal_side(q, p, -delta, beta, tc0, chroma),
    );
}

/// The filter of strengths one to three leaves the second luma sample on a side where the third one
/// is too far from the first, and moves it otherwise towards the mean of the third one and of the
/// edge, rounded down and as far as a limit; it leaves the third one, and in chroma both.
pub proof fn law_normal_sides(
    line: Line,
    plane: Seq<u8>,
    qp: int,
    strength: int,
    chroma: bool,
    params: Parameters,
)
    requires
        line.lies_in(plane),
        1 <= strength <= 3,
        line.smooth_but_for_edge(
            plane,
            ALPHA[index_of(qp, params.offset_a as int)] as int,
            BETA[index_of(qp, params.offset_b as int)] as int,
        ),
    ensures
        normal_sides_moved(
            line,
            plane,
            line.filtered(plane, qp, strength, chroma, params),
            BETA[index_of(qp, params.offset_b as int)] as int,
            TC0[strength - 1][index_of(qp, params.offset_a as int)] as int,
            chroma,
        ),
{
    let alpha = ALPHA[index_of(qp, params.offset_a as int)] as int;
    let beta = BETA[index_of(qp, params.offset_b as int)] as int;
    let tc0 = TC0[strength - 1][index_of(qp, params.offset_a as int)] as int;
    lemma_rising(index_of(qp, params.offset_a as int), index_of(qp, params.offset_a as int));
    lemma_normal_filtered(line, plane, qp, strength, chroma, params, alpha, beta, tc0);
    lemma_sides_moved(line, plane, beta, tc0, chroma);
}

/// Whether a sample is a weighted mean, rounded to the nearest.
pub open spec fn is_rounded(sample: int, sum: int, weight: int) -> bool {
    -weight <= 2 * (sum - weight * sample) < weight
}

/// How the samples beside an edge are smoothed by the strongest filter.
pub open spec fn strongly_smoothed(
    line: Line,
    plane: Seq<u8>,
    after: Seq<u8>,
    alpha: int,
    beta: int,
    chroma: bool,
) -> bool {
    let p = |k: int| line.near(plane, k);
    let q = |k: int| line.far(plane, k);
    let small = -(alpha / 4 + 2) < p(0) - q(0) < alpha / 4 + 2;
    &&& if !chroma && small && -beta < p(2) - p(0) < beta {
        &&& is_rounded(
            line.near(after, 0),
            p(2) + 2 * p(1) + 2 * p(0) + 2 * q(0) + q(1),
            8,
        )
        &&& is_rounded(line.near(after, 1), p(2) + p(1) + p(0) + q(0), 4)
        &&& is_rounded(line.near(after, 2), 2 * p(3) + 3 * p(2) + p(1) + p(0) + q(0), 8)
    } else {
        &&& is_rounded(line.near(after, 0), 2 * p(1) + p(0) + q(1), 4)
        &&& line.near(after, 1) == p(1)
        &&& line.near(after, 2) == p(2)
    }
    &&& if !chroma && small && -beta < q(2) - q(0) < beta {
        &&& is_rounded(
            line.far(after, 0),
            q(2) + 2 * q(1) + 2 * q(0) + 2 * p(0) + p(1),
            8,
        )
        &&& is_rounded(line.far(after, 1), q(2) + q(1) + q(0) + p(0), 4)
        &&& is_rounded(line.far(after, 2), 2 * q(3) + 3 * q(2) + q(1) + q(0) + p(0), 8)
    } else {
        &&& is_rounded(line.far(after, 0), 2 * q(1) + q(0) + p(1), 4)
        &&& line.far(after, 1) == q(1)
        &&& line.far(after, 2) == q(2)
    }
}

#[verifier::spinoff_prover]
#[verifier::rlimit(40)]
proof fn lemma_strongly_smoothed(
    line: Line,
    plane: Seq<u8>,
    alpha: int,
    beta: int,
    chroma: bool,
)
    requires
        line.lies_in(plane),
    ensures
        ({
            let p = samples_at(plane, line.p);
            let q = samples_at(plane, line.q);
            strongly_smoothed(
                line,
                plane,
                replaced(
                    plane,
                    line.p,
                    line.q,
                    strong_side(p, q, alpha, beta, chroma),
                    strong_side(q, p, alpha, beta, chroma),
                ),
                alpha,
                beta,
                chroma,
            )
        }),
{
    let p = samples_at(plane, line.p);
    let q = samples_at(plane, line.q);
    lemma_replaced(
        line,
        plane,
        strong_side(p, q, alpha, beta, chroma),
        strong_side(q, p, alpha, beta, chroma),
    );
}

/// The strongest filter replaces three luma samples on a side by weighted means over the edge where
/// the side is smooth and the step at the edge is small, and elsewhere, and in chroma, only the
/// first one, by a mean in which its neighbour counts twice.
pub proof fn law_strong_edge(
    line: Line,
    plane: Seq<u8>,
    qp: int,
    chroma: bool,
    params: Parameters,
)
    requires
        line.lies_in(plane),
        line.smooth_but_for_edge(
            plane,
            ALPHA[index_of(qp, params.offset_a as int)] as int,
            BETA[index_of(qp, params.offset_b as int)] as int,
        ),
    ensures
        strongly_smoothed(
            line,
            plane,
            line.filtered(plane, qp, 4, chroma, params),
            ALPHA[index_of(qp, params.offset_a as int)] as int,
            BETA[index_of(qp, params.offset_b as int)] as int,
            chroma,
        ),
{
    let alpha = ALPHA[index_of(qp, params.offset_a as int)] as int;
    let beta = BETA[index_of(qp, params.offset_b as int)] as int;
    lemma_strong_filtered(line, plane, qp, chroma, params, alpha, beta);
    lemma_strongly_smoothed(line, plane, alpha, beta, chroma);
}

/// The strongest filter treats both sides alike.
pub proof fn law_strong_mirrored(
    line: Line,
    plane: Seq<u8>,
    qp: int,
    chroma: bool,
    params: Parameters,
)
    requires
        line.lies_in(plane),
    ensures
        line.filtered(plane, qp, 4, chroma, params) == (Line { p: line.q, q: line.p }).filtered(
            plane,
            qp,
            4,
            chroma,
            params,
        ),
{
    assert(line.filtered(plane, qp, 4, chroma, params) =~= (Line {
        p: line.q,
        q: line.p,
    }).filtered(plane, qp, 4, chroma, params));
}

/// The strength between two blocks falls from four to zero: between macroblocks of which one stands
/// alone, inside of one that does, where a block has coefficients, where motion differs, and where
/// nothing does.
pub proof fn law_strengths(
    map: MacroblockMap,
    p_address: int,
    p_block: int,
    q_address: int,
    q_block: int,
    outer: bool,
)
    ensures
        ({
            let strength = strength_between(map, p_address, p_block, q_address, q_block, outer);
            let alone = map.intra[p_address] || map.intra[q_address];
            let coded = map.nonzero[p_address][p_block] > 0 || map.nonzero[q_address][q_block] > 0;
            let together = same_motion(
                map.motion[p_address][p_block],
                map.motion[q_address][q_block],
            );
            &&& strength == 4 <==> alone && outer
            &&& strength == 3 <==> alone && !outer
            &&& strength == 2 <==> !alone && coded
            &&& strength == 1 <==> !alone && !coded && !together
            &&& strength == 0 <==> !alone && !coded && together
        }),
{
}

/// Whether two vectors are nowhere a whole step apart.
pub open spec fn within_a_step(a: ReferenceMotion, b: ReferenceMotion) -> bool {
    -4 < a.x - b.x < 4 && -4 < a.y - b.y < 4
}

/// Blocks that are predicted from the first list alone move together where they refer to the same
/// entry and their vectors are nowhere a whole step apart. Blocks that use both lists move together
/// where they refer to the same two pictures, in either order, with vectors that are nowhere a whole
/// step apart. A block that uses both lists never moves together with one that uses one.
pub proof fn law_moves_together(a: BlockMotion, b: BlockMotion)
    ensures
        a.list1.reference is None && b.list1.reference is None ==> (same_motion(a, b)
            <==> a.list0.index == b.list0.index && within_a_step(a.list0, b.list0)),
        a.list0.reference is Some && a.list1.reference is Some && b.list0.reference is Some
            && b.list1.reference is Some ==> (same_motion(a, b) <==> {
            ||| a.list0.reference == b.list0.reference && a.list1.reference == b.list1.reference
                && within_a_step(a.list0, b.list0) && within_a_step(a.list1, b.list1)
            ||| a.list0.reference == b.list1.reference && a.list1.reference == b.list0.reference
                && within_a_step(a.list0, b.list1) && within_a_step(a.list1, b.list0)
        }),
        a.list0.reference is Some && a.list1.reference is Some && (b.list0.reference is None
            || b.list1.reference is None) ==> !same_motion(a, b),
{
}

/// Chroma quantizers are those of luma below thirty, fall behind from there, and end at 39; they
/// never fall, and never rise by more than one.
pub proof fn law_chroma_quantizer(luma_qp: int, offset: int)
    requires
        0 <= luma_qp + offset < 51,
    ensures
        luma_qp + offset < 30 ==> chroma_quantizer(luma_qp, offset) == luma_qp + offset,
        luma_qp + offset >= 30 ==> chroma_quantizer(luma_qp, offset) < luma_qp + offset,
        chroma_quantizer(luma_qp, offset) <= chroma_quantizer(luma_qp + 1, offset)
            <= chroma_quantizer(luma_qp, offset) + 1,
        chroma_quantizer(51, 0) == 39,
        chroma_quantizer(luma_qp, offset) == chroma_quantizer(luma_qp + offset, 0),
{
    assert(forall|i: int| 0 <= i < 21 ==> #[trigger] CHROMA_QP[i] <= CHROMA_QP[i + 1] <= CHROMA_QP[i]
        + 1);
    assert(forall|i: int| 0 <= i < 22 ==> #[trigger] CHROMA_QP[i] < 30 + i);
}

/// An edge is filtered with the mean of the quantizers of its macroblocks, rounded up.
pub proof fn law_edge_quantizer(map: MacroblockMap, p_address: int, q_address: int, offset: i32)
    ensures
        ({
            let luma = map.luma_qp[p_address] + map.luma_qp[q_address];
            let chroma = chroma_quantizer(map.luma_qp[p_address] as int, offset as int)
                + chroma_quantizer(map.luma_qp[q_address] as int, offset as int);
            &&& luma <= 2 * edge_qp(map, p_address, q_address, None) <= luma + 1
            &&& chroma <= 2 * edge_qp(map, p_address, q_address, Some(offset)) <= chroma + 1
        }),
{
}

} // verus!
