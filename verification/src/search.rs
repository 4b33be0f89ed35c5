//! Searching the motion of a part of a macroblock.

use vstd::prelude::*;

use crate::config::AnalysisPreset;
use crate::interpolate::{law_whole_steps, ReferenceModel, ReferencePlane};
use crate::math::{absolute, clamp, clamped, magnitude};
use crate::motion::{vector_fits, MotionVector};
use crate::residual::sum_of;

verus! {

/// How the source is compared with a displaced reference.
#[derive(Clone, Copy, Debug, PartialEq, Eq, Structural)]
pub enum Measure {
    /// All samples, displaced by whole steps.
    Whole,
    /// A few samples, displaced by whole steps.
    SparseWhole,
    /// All samples, displaced by quarters of a step.
    Quarter,
    /// A few samples, displaced by quarters of a step, from their four neighbours.
    SparseQuarter,
}

/// A part of a macroblock whose motion is searched.
#[derive(Clone, Copy, Debug)]
pub struct MotionSearch<'a> {
    /// The source luma plane, as large as the reference.
    pub source: &'a [u8],
    /// The reference luma plane.
    pub reference: ReferencePlane<'a>,
    /// The first column.
    pub x: usize,
    /// The first row.
    pub y: usize,
    /// How wide the part is.
    pub width: usize,
    /// How high the part is.
    pub height: usize,
    /// The vector that is expected.
    pub predicted: MotionVector,
    /// How far vectors may reach, in whole steps.
    pub range: i32,
}

/// A part of a macroblock whose motion is searched.
pub struct SearchModel {
    /// The source luma plane.
    pub source: Seq<u8>,
    /// The reference luma plane.
    pub reference: ReferenceModel,
    /// The first column.
    pub x: int,
    /// The first row.
    pub y: int,
    /// How wide the part is.
    pub width: int,
    /// How high the part is.
    pub height: int,
    /// The vector that is expected.
    pub predicted: MotionVector,
    /// How far vectors may reach, in whole steps.
    pub range: int,
}

/// A vector with what it costs.
#[derive(Clone, Copy, Debug, PartialEq, Eq, Structural)]
pub struct Candidate {
    /// How far the source is from the reference.
    pub sad: u64,
    /// How far the vector is from the expected one.
    pub rate: i32,
    /// How long the vector is.
    pub displacement: i32,
    /// How far it reaches down.
    pub y: i32,
    /// How far it reaches to the right.
    pub x: i32,
}

impl<'a> View for MotionSearch<'a> {
    type V = SearchModel;

    open spec fn view(&self) -> SearchModel {
        SearchModel {
            source: self.source@,
            reference: self.reference@,
            x: self.x as int,
            y: self.y as int,
            width: self.width as int,
            height: self.height as int,
            predicted: self.predicted,
            range: self.range as int,
        }
    }
}

/// Whether a candidate is better than another: by its costs, then by its place.
pub open spec fn better(a: Candidate, b: Candidate) -> bool {
    a.sad < b.sad || a.sad == b.sad && (a.rate < b.rate || a.rate == b.rate && (a.displacement
        < b.displacement || a.displacement == b.displacement && (a.y < b.y || a.y == b.y && a.x
        < b.x)))
}

/// Of any two candidates that differ exactly one is better.
pub proof fn law_better_total(a: Candidate, b: Candidate)
    ensures
        better(a, b) || better(b, a) || a == b,
        !(better(a, b) && better(b, a)),
        !better(a, a),
{
}

/// What is better than a better candidate is better.
pub proof fn law_better_transitive(a: Candidate, b: Candidate, c: Candidate)
    requires
        better(a, b),
        better(b, c),
    ensures
        better(a, c),
{
}

/// What every candidate is better than.
pub open spec fn no_candidate() -> Candidate {
    Candidate { sad: u64::MAX, rate: i32::MAX, displacement: i32::MAX, y: 0, x: 0 }
}

/// The sum of the first rows, up to the first one with which it exceeds a maximum.
pub open spec fn stopped_sum(
    values: Seq<int>,
    columns: int,
    rows: int,
    maximum: int,
    row: int,
) -> int
    decreases rows - row,
{
    let sum = sum_of(values, columns * (row + 1));
    if row + 1 >= rows || sum > maximum {
        sum
    } else {
        stopped_sum(values, columns, rows, maximum, row + 1)
    }
}

impl SearchModel {
    /// How far the compared samples are apart.
    pub open spec fn step(self, measure: Measure) -> int {
        match measure {
            Measure::Whole | Measure::Quarter => 1,
            Measure::SparseWhole | Measure::SparseQuarter => if self.width >= 16 && self.height
                >= 16 {
                4
            } else {
                2
            },
        }
    }

    /// The reference sample that a source sample is compared with.
    pub open spec fn displaced(self, measure: Measure, motion: MotionVector, x: int, y: int) -> int {
        match measure {
            Measure::Whole | Measure::SparseWhole => self.reference.at(
                x + motion.x as int / 4,
                y + motion.y as int / 4,
            ),
            Measure::Quarter => self.reference.luma_at(x * 4 + motion.x, y * 4 + motion.y),
            Measure::SparseQuarter => self.reference.bilinear_at(
                x * 4 + motion.x,
                y * 4 + motion.y,
            ),
        }
    }

    /// How many samples of a row are compared.
    pub open spec fn columns(self, measure: Measure) -> int {
        self.width / self.step(measure)
    }

    /// How many rows are compared.
    pub open spec fn rows(self, measure: Measure) -> int {
        self.height / self.step(measure)
    }

    /// The distances between the compared samples, weighted by how many they stand for.
    pub open spec fn distances(self, measure: Measure, motion: MotionVector) -> Seq<int> {
        let step = self.step(measure);
        let columns = self.columns(measure);
        Seq::new(
            (columns * self.rows(measure)) as nat,
            |i: int|
                {
                    let x = self.x + i % columns * step;
                    let y = self.y + i / columns * step;
                    step * step * magnitude(
                        self.source[y * self.reference.width + x] - self.displaced(
                            measure,
                            motion,
                            x,
                            y,
                        ),
                    )
                },
        )
    }

    /// How far the source is from the displaced reference.
    #[verifier::opaque]
    pub open spec fn sad(self, measure: Measure, motion: MotionVector) -> int {
        let all = self.distances(measure, motion);
        sum_of(all, all.len() as int)
    }

    /// A vector with what it costs.
    pub open spec fn candidate(self, measure: Measure, motion: MotionVector) -> Candidate {
        Candidate {
            sad: self.sad(measure, motion) as u64,
            rate: (magnitude(motion.x - self.predicted.x) + magnitude(
                motion.y - self.predicted.y,
            )) as i32,
            displacement: (magnitude(motion.x as int) + magnitude(motion.y as int)) as i32,
            y: motion.y,
            x: motion.x,
        }
    }

    /// The better one of a candidate and a vector.
    pub open spec fn tried(self, measure: Measure, best: Candidate, motion: MotionVector) -> Candidate {
        let candidate = self.candidate(measure, motion);
        if better(candidate, best) {
            candidate
        } else {
            best
        }
    }

    /// How far vectors may reach, in quarters of a step.
    pub open spec fn limit(self) -> int {
        self.range * 4
    }

    /// Vector number `k` of all those of whole steps, row by row.
    pub open spec fn whole_vector(self, k: int) -> MotionVector {
        let side = 2 * self.range + 1;
        MotionVector {
            x: ((k % side - self.range) * 4) as i32,
            y: ((k / side - self.range) * 4) as i32,
        }
    }

    /// The best of the first `count` vectors of whole steps.
    pub open spec fn best_whole(self, count: int) -> Candidate
        decreases count,
    {
        if count <= 0 {
            no_candidate()
        } else {
            self.tried(Measure::Whole, self.best_whole(count - 1), self.whole_vector(count - 1))
        }
    }

    /// The least coordinate that is tried around another one.
    pub open spec fn low(self, centre: int) -> int {
        if centre - 3 >= -self.limit() {
            centre - 3
        } else {
            -self.limit()
        }
    }

    /// The greatest coordinate that is tried around another one.
    pub open spec fn high(self, centre: int) -> int {
        if centre + 3 <= self.limit() {
            centre + 3
        } else {
            self.limit()
        }
    }

    /// Vector number `k` of those around a candidate, row by row.
    pub open spec fn near_vector(self, centre: Candidate, k: int) -> MotionVector {
        let columns = self.high(centre.x as int) - self.low(centre.x as int) + 1;
        MotionVector {
            x: (self.low(centre.x as int) + k % columns) as i32,
            y: (self.low(centre.y as int) + k / columns) as i32,
        }
    }

    /// How many vectors lie around a candidate.
    pub open spec fn near_count(self, centre: Candidate) -> int {
        (self.high(centre.x as int) - self.low(centre.x as int) + 1) * (self.high(centre.y as int)
            - self.low(centre.y as int) + 1)
    }

    /// The best of a candidate and the first `count` vectors around it.
    pub open spec fn best_near(self, centre: Candidate, count: int) -> Candidate
        decreases count,
    {
        if count <= 0 {
            centre
        } else {
            self.tried(
                Measure::Quarter,
                self.best_near(centre, count - 1),
                self.near_vector(centre, count - 1),
            )
        }
    }

    /// The best vector when everything is searched.
    #[verifier::opaque]
    pub open spec fn full_best(self) -> Candidate {
        let side = 2 * self.range + 1;
        let whole = self.best_whole(side * side);
        self.best_near(whole, self.near_count(whole))
    }

    /// The better one of a candidate and a vector, if the vector does not reach too far.
    pub open spec fn tried_inside(
        self,
        measure: Measure,
        best: Candidate,
        x: int,
        y: int,
    ) -> Candidate {
        if magnitude(x) <= self.limit() && magnitude(y) <= self.limit() {
            self.tried(measure, best, MotionVector { x: x as i32, y: y as i32 })
        } else {
            best
        }
    }

    /// The best of a candidate and its four neighbours.
    #[verifier::opaque]
    pub open spec fn crossed(self, best: Candidate, step: int) -> Candidate {
        let x = best.x as int;
        let y = best.y as int;
        let measure = Measure::SparseWhole;
        let above = self.tried_inside(measure, best, x, y - step * 4);
        let left = self.tried_inside(measure, above, x - step * 4, y);
        let right = self.tried_inside(measure, left, x + step * 4, y);
        self.tried_inside(measure, right, x, y + step * 4)
    }

    /// Trying neighbours keeps the candidate or finds a better one.
    pub proof fn lemma_crossed(self, best: Candidate, step: int)
        ensures
            self.crossed(best, step) == best || better(self.crossed(best, step), best),
    {
        reveal(SearchModel::crossed);
    }

    /// The candidate at which no neighbour is better.
    pub open spec fn settled(self, best: Candidate, step: int) -> Candidate
        decreases
                best.sad,
                best.rate as int + 0x8000_0000,
                best.displacement as int + 0x8000_0000,
                best.y as int + 0x8000_0000,
                best.x as int + 0x8000_0000,
    {
        proof {
            self.lemma_crossed(best, step);
        }
        let next = self.crossed(best, step);
        if next.x == best.x && next.y == best.y {
            next
        } else {
            self.settled(next, step)
        }
    }

    /// The candidate after searching with smaller and smaller steps.
    pub open spec fn narrowed(self, best: Candidate, step: int) -> Candidate
        decreases step,
    {
        if step <= 0 {
            best
        } else {
            self.narrowed(self.settled(best, step), step / 2)
        }
    }

    /// The best of a candidate and its eight neighbours.
    #[verifier::opaque]
    pub open spec fn ringed(self, best: Candidate, step: int) -> Candidate {
        let x = best.x as int;
        let y = best.y as int;
        let measure = Measure::SparseQuarter;
        let a = self.tried_inside(measure, best, x, y - step);
        let b = self.tried_inside(measure, a, x - step, y);
        let c = self.tried_inside(measure, b, x + step, y);
        let d = self.tried_inside(measure, c, x, y + step);
        let e = self.tried_inside(measure, d, x - step, y - step);
        let f = self.tried_inside(measure, e, x + step, y - step);
        let g = self.tried_inside(measure, f, x - step, y + step);
        self.tried_inside(measure, g, x + step, y + step)
    }

    /// The expected vector, in whole steps and within reach.
    pub open spec fn expected_whole(self) -> MotionVector {
        MotionVector {
            x: clamped(
                rounded_to_whole(self.predicted.x as int),
                -self.limit(),
                self.limit(),
            ) as i32,
            y: clamped(
                rounded_to_whole(self.predicted.y as int),
                -self.limit(),
                self.limit(),
            ) as i32,
        }
    }

    /// The best vector when a few are searched.
    #[verifier::opaque]
    pub open spec fn fast_best(self) -> Candidate {
        let measure = Measure::SparseWhole;
        let first = self.tried(
            measure,
            self.tried(measure, no_candidate(), self.expected_whole()),
            MotionVector { x: 0, y: 0 },
        );
        self.ringed(self.ringed(self.narrowed(first, first_step(self.range, 1)), 2), 1)
    }

    /// The vector that is found.
    pub open spec fn found(self, analysis: AnalysisPreset) -> MotionVector {
        let best = match analysis {
            AnalysisPreset::Full => self.full_best(),
            AnalysisPreset::Fast => self.fast_best(),
        };
        MotionVector { x: best.x, y: best.y }
    }
}

/// A coordinate rounded to whole steps.
pub open spec fn rounded_to_whole(value: int) -> int {
    if value >= 0 {
        (value + 2) / 4 * 4
    } else {
        -((2 - value) / 4 * 4)
    }
}

/// The first power of two above half of the range, from `step` on.
pub open spec fn first_step(range: int, step: int) -> int
    decreases range - step,
{
    if 1 <= step <= range / 2 {
        first_step(range, step * 2)
    } else {
        step
    }
}

/// Rounds a coordinate to whole steps.
pub fn round_to_integer_sample(value: i32) -> (rounded: i32)
    requires
        -0x1000_0000 <= value <= 0x1000_0000,
    ensures
        rounded == rounded_to_whole(value as int),
        rounded as int % 4 == 0,
{
    if value >= 0 {
        (value + 2) / 4 * 4
    } else {
        -((2 - value) / 4 * 4)
    }
}

/// Summing numbers that are not negative never gives less.
proof fn lemma_sum_grows(values: Seq<int>, less: int, more: int)
    requires
        0 <= less <= more <= values.len(),
        forall|i: int| 0 <= i < values.len() ==> 0 <= #[trigger] values[i],
    ensures
        0 <= sum_of(values, less) <= sum_of(values, more),
    decreases more,
{
    if more > less {
        lemma_sum_grows(values, less, more - 1);
    } else if less > 0 {
        lemma_sum_grows(values, less - 1, less - 1);
    }
}

/// A stopped sum tells whether the whole one exceeds the maximum, and is the whole one if not.
proof fn lemma_stopped(values: Seq<int>, columns: int, rows: int, maximum: int, row: int)
    requires
        0 < columns,
        0 <= row < rows,
        values.len() == columns * rows,
        forall|i: int| 0 <= i < values.len() ==> 0 <= #[trigger] values[i],
    ensures
        stopped_sum(values, columns, rows, maximum, row) <= maximum || sum_of(
            values,
            values.len() as int,
        ) <= maximum ==> stopped_sum(values, columns, rows, maximum, row) == sum_of(
            values,
            values.len() as int,
        ),
    decreases rows - row,
{
    assert(0 <= columns * (row + 1) <= columns * rows) by (nonlinear_arith)
        requires
            0 < columns,
            0 <= row < rows,
    ;
    lemma_sum_grows(values, columns * (row + 1), values.len() as int);
    if row + 1 < rows && sum_of(values, columns * (row + 1)) <= maximum {
        lemma_stopped(values, columns, rows, maximum, row + 1);
    }
}

impl<'a> MotionSearch<'a> {
    /// Whether the part lies inside the picture and the limits leave room for arithmetic.
    pub open spec fn valid(&self) -> bool {
        &&& self.reference.valid()
        &&& self.source@.len() == self.reference.width * self.reference.height
        &&& self.width == 4 || self.width == 8 || self.width == 16
        &&& self.height == 4 || self.height == 8 || self.height == 16
        &&& self.x + self.width <= self.reference.width
        &&& self.y + self.height <= self.reference.height
        &&& vector_fits(self.predicted)
        &&& 0 <= self.range <= 64
    }

    /// Reads the reference sample that a source sample is compared with.
    fn displaced_sample(&self, measure: Measure, motion: MotionVector, x: usize, y: usize) -> (sample:
        u8)
        requires
            self.valid(),
            vector_fits(motion),
            x < self.reference.width,
            y < self.reference.height,
        ensures
            sample == self@.displaced(measure, motion, x as int, y as int),
    {
        let across: i64 = motion.x as i64;
        let down: i64 = motion.y as i64;
        match measure {
            Measure::Whole | Measure::SparseWhole => self.reference.reference_sample(
                x as i64 + crate::math::quartered(across),
                y as i64 + crate::math::quartered(down),
            ),
            Measure::Quarter => self.reference.luma_qpel(
                x as i64 * 4 + across,
                y as i64 * 4 + down,
            ),
            Measure::SparseQuarter => self.reference.luma_bilinear_qpel(
                x as i64 * 4 + across,
                y as i64 * 4 + down,
            ),
        }
    }

    /// Compares the source with the displaced reference, row by row, until a maximum is exceeded.
    pub fn motion_sad_bounded(&self, measure: Measure, motion: MotionVector, maximum: u64) -> (sad:
        u64)
        requires
            self.valid(),
            vector_fits(motion),
        ensures
            sad == stopped_sum(
                self@.distances(measure, motion),
                self@.columns(measure),
                self@.rows(measure),
                maximum as int,
                0,
            ),
            sad <= maximum || self@.sad(measure, motion) <= maximum ==> sad == self@.sad(
                measure,
                motion,
            ),
            0 <= self@.sad(measure, motion) <= 0x10_0000,
    {
        reveal(SearchModel::sad);
        let sparse = match measure {
            Measure::Whole | Measure::Quarter => false,
            Measure::SparseWhole | Measure::SparseQuarter => true,
        };
        let step: usize = if !sparse {
            1
        } else if self.width >= 16 && self.height >= 16 {
            4
        } else {
            2
        };
        let columns: usize = self.width / step;
        let rows: usize = self.height / step;
        let scale: u64 = (step * step) as u64;
        let length: usize = self.source.len();
        let ghost all = self@.distances(measure, motion);
        proof {
            assert(step == self@.step(measure));
            assert(columns <= 16 && rows <= 16 && columns * step == self.width && rows * step
                == self.height && 1 <= columns && 1 <= rows) by (nonlinear_arith)
                requires
                    self.width == 4 || self.width == 8 || self.width == 16,
                    self.height == 4 || self.height == 8 || self.height == 16,
                    step == 1 || step == 2 || step == 4,
                    columns == self.width / step,
                    rows == self.height / step,
            ;
            assert(columns * rows <= 256) by (nonlinear_arith)
                requires
                    columns <= 16,
                    rows <= 16,
            ;
            assert(1 <= scale <= 16) by (nonlinear_arith)
                requires
                    scale == step * step,
                    1 <= step <= 4,
            ;
            assert(scale * 255 * 256 <= 0x10_0000);
            self.lemma_distances(measure, motion, scale as int);
        }
        let mut sum: u64 = 0;
        let mut row: usize = 0;
        while row < rows
            invariant
                row <= rows,
                self.valid(),
                vector_fits(motion),
                length == self.source@.len(),
                step == self@.step(measure),
                1 <= step <= 4,
                scale == step * step,
                1 <= scale <= 16,
                columns == self@.columns(measure),
                rows == self@.rows(measure),
                columns * step == self.width,
                rows * step == self.height,
                1 <= columns <= 16,
                1 <= rows <= 16,
                all == self@.distances(measure, motion),
                all.len() == columns * rows,
                self@.sad(measure, motion) == sum_of(all, all.len() as int),
                0 <= sum_of(all, all.len() as int) <= 0x10_0000,
                forall|i: int| 0 <= i < all.len() ==> 0 <= #[trigger] all[i] <= 255 * scale,
                sum == sum_of(all, columns * row),
                sum <= 255 * scale * (columns * row),
                stopped_sum(all, columns as int, rows as int, maximum as int, 0) == if row < rows {
                    stopped_sum(all, columns as int, rows as int, maximum as int, row as int)
                } else {
                    sum as int
                },
            decreases rows - row,
        {
            let mut column: usize = 0;
            while column < columns
                invariant
                    row < rows,
                    column <= columns,
                    self.valid(),
                    vector_fits(motion),
                    length == self.source@.len(),
                    step == self@.step(measure),
                    1 <= step <= 4,
                    scale == step * step,
                    1 <= scale <= 16,
                    columns == self@.columns(measure),
                    rows == self@.rows(measure),
                    columns * step == self.width,
                    rows * step == self.height,
                    1 <= columns <= 16,
                    1 <= rows <= 16,
                    all == self@.distances(measure, motion),
                    all.len() == columns * rows,
                    forall|i: int| 0 <= i < all.len() ==> 0 <= #[trigger] all[i] <= 255 * scale,
                    sum == sum_of(all, columns * row + column),
                    sum <= 255 * scale * (columns * row + column),
                decreases columns - column,
            {
                let ghost place = columns * row + column;
                proof {
                    assert(columns * row == row * columns) by (nonlinear_arith);
                    assert(columns * rows <= 256) by (nonlinear_arith)
                        requires
                            0 <= columns <= 16,
                            0 <= rows <= 16,
                    ;
                    vstd::arithmetic::div_mod::lemma_fundamental_div_mod_converse(
                        place,
                        columns as int,
                        row as int,
                        column as int,
                    );
                    assert(0 <= place < columns * rows) by (nonlinear_arith)
                        requires
                            place == columns * row + column,
                            0 <= column < columns,
                            0 <= row < rows,
                    ;
                    assert(column * step + step <= self.width && row * step + step <= self.height)
                        by (nonlinear_arith)
                        requires
                            column < columns,
                            row < rows,
                            columns * step == self.width,
                            rows * step == self.height,
                            1 <= step,
                    ;
                    assert(0 <= column * step && 0 <= row * step) by (nonlinear_arith)
                        requires
                            1 <= step,
                            0 <= column,
                            0 <= row,
                    ;
                }
                let x: usize = self.x + column * step;
                let y: usize = self.y + row * step;
                proof {
                    crate::math::lemma_place_inside(
                        y as int,
                        x as int,
                        self.reference.width as int,
                        self.reference.height as int,
                    );
                    assert(self.reference.height * self.reference.width == self.reference.width
                        * self.reference.height) by (nonlinear_arith);
                }
                let own: u8 = self.source[y * self.reference.width + x];
                let other: u8 = self.displaced_sample(measure, motion, x, y);
                let distance: u64 = if own >= other {
                    (own - other) as u64
                } else {
                    (other - own) as u64
                };
                assert(0 <= distance * scale <= 255 * scale) by (nonlinear_arith)
                    requires
                        0 <= distance <= 255,
                        0 <= scale,
                ;
                proof {
                    assert(all[place] == scale * distance) by {
                        assert(place % columns as int == column && place / columns as int == row);
                    }
                    assert(scale * distance == distance * scale) by (nonlinear_arith);
                    assert(255 * scale * (place + 1) == 255 * scale * place + 255 * scale)
                        by (nonlinear_arith);
                    assert(255 * scale * place <= 255 * 16 * 256) by (nonlinear_arith)
                        requires
                            0 <= scale <= 16,
                            0 <= place <= 256,
                    ;
                }
                sum = sum + distance * scale;
                column = column + 1;
            }
            assert(columns * (row + 1) == columns * row + columns) by (nonlinear_arith);
            if sum > maximum {
                proof {
                    lemma_stopped(all, columns as int, rows as int, maximum as int, 0);
                }
                return sum;
            }
            row = row + 1;
        }
        proof {
            lemma_stopped(all, columns as int, rows as int, maximum as int, 0);
        }
        sum
    }

    /// What is known of the distances.
    proof fn lemma_distances(&self, measure: Measure, motion: MotionVector, scale: int)
        requires
            self.valid(),
            vector_fits(motion),
            scale == self@.step(measure) * self@.step(measure),
            1 <= scale <= 16,
            1 <= self@.columns(measure) <= 16,
            1 <= self@.rows(measure) <= 16,
        ensures
            self@.distances(measure, motion).len() == self@.columns(measure) * self@.rows(measure),
            forall|i: int|
                0 <= i < self@.distances(measure, motion).len() ==> 0 <= #[trigger] self@.distances(
                    measure,
                    motion,
                )[i] <= 255 * scale,
            0 <= sum_of(
                self@.distances(measure, motion),
                self@.distances(measure, motion).len() as int,
            ) <= 0x10_0000,
    {
        let all = self@.distances(measure, motion);
        let columns = self@.columns(measure);
        let rows = self@.rows(measure);
        assert(0 <= columns * rows <= 256) by (nonlinear_arith)
            requires
                1 <= columns <= 16,
                1 <= rows <= 16,
        ;
        assert forall|i: int| 0 <= i < all.len() implies 0 <= #[trigger] all[i] <= 255 * scale by {
            let step = self@.step(measure);
            let x = self.x + i % columns * step;
            let y = self.y + i / columns * step;
            let own = self.source@[y * self.reference.width + x] as int;
            let other = self@.displaced(measure, motion, x, y);
            self.lemma_displaced(measure, motion, x, y);
            assert(0 <= scale * magnitude(own - other) <= 255 * scale) by (nonlinear_arith)
                requires
                    0 <= magnitude(own - other) <= 255,
                    0 <= scale,
            ;
        }
        lemma_sum_limit(all, all.len() as int, 255 * scale);
        assert(255 * scale * (columns * rows) <= 0x10_0000) by (nonlinear_arith)
            requires
                0 <= scale <= 16,
                0 <= columns * rows <= 256,
        ;
    }

    /// A displaced sample is a sample.
    proof fn lemma_displaced(&self, measure: Measure, motion: MotionVector, x: int, y: int)
        requires
            self.reference.valid(),
        ensures
            0 <= self@.displaced(measure, motion, x, y) <= 255,
    {
        crate::interpolate::lemma_samples(
            self.reference@,
            x + motion.x as int / 4,
            y + motion.y as int / 4,
        );
        crate::interpolate::lemma_samples(self.reference@, x * 4 + motion.x, y * 4 + motion.y);
    }

    /// Keeps the better one of a candidate and a vector.
    fn evaluate(&self, measure: Measure, best: &mut Candidate, motion: MotionVector)
        requires
            self.valid(),
            vector_fits(motion),
        ensures
            *final(best) == self@.tried(measure, *old(best), motion),
    {
        let sad: u64 = self.motion_sad_bounded(measure, motion, best.sad);
        let candidate = Candidate {
            sad,
            rate: absolute(motion.x - self.predicted.x) + absolute(motion.y - self.predicted.y),
            displacement: absolute(motion.x) + absolute(motion.y),
            y: motion.y,
            x: motion.x,
        };
        if is_better(candidate, *best) {
            *best = candidate;
        }
    }

    /// Keeps the better one of a candidate and a vector, if the vector does not reach too far.
    fn evaluate_inside(&self, measure: Measure, best: &mut Candidate, x: i32, y: i32)
        requires
            self.valid(),
            -0x1000 <= x <= 0x1000,
            -0x1000 <= y <= 0x1000,
            magnitude(old(best).x as int) <= self@.limit(),
            magnitude(old(best).y as int) <= self@.limit(),
        ensures
            *final(best) == self@.tried_inside(measure, *old(best), x as int, y as int),
            magnitude(final(best).x as int) <= self@.limit(),
            magnitude(final(best).y as int) <= self@.limit(),
    {
        let limit: i32 = self.range * 4;
        if absolute(x) <= limit && absolute(y) <= limit {
            self.evaluate(measure, best, MotionVector { x, y });
        }
    }

    /// Searches everything.
    pub fn estimate_partition_motion_full(&self) -> (vector: MotionVector)
        requires
            self.valid(),
        ensures
            vector == self@.found(AnalysisPreset::Full),
            magnitude(vector.x as int) <= self@.limit(),
            magnitude(vector.y as int) <= self@.limit(),
    {
        reveal(SearchModel::full_best);
        let side: i32 = 2 * self.range + 1;
        let limit: i32 = self.range * 4;
        assert(1 <= side * side <= 16641) by (nonlinear_arith)
            requires
                1 <= side <= 129,
        ;
        let count: i32 = side * side;
        let mut best = Candidate {
            sad: u64::MAX,
            rate: i32::MAX,
            displacement: i32::MAX,
            y: 0,
            x: 0,
        };
        let mut k: i32 = 0;
        while k < count
            invariant
                0 <= k <= count,
                self.valid(),
                side == 2 * self.range + 1,
                limit == self.range * 4,
                count == side * side,
                count <= 16641,
                best == self@.best_whole(k as int),
                magnitude(best.x as int) <= limit,
                magnitude(best.y as int) <= limit,
            decreases count - k,
        {
            assert(0 <= (k as int / side as int) && (k as int / side as int) < side) by (nonlinear_arith)
                requires
                    0 <= k < side * side,
                    1 <= side,
            ;
            let motion = MotionVector {
                x: (k % side - self.range) * 4,
                y: (k / side - self.range) * 4,
            };
            assert(motion == self@.whole_vector(k as int));
            self.evaluate(Measure::Whole, &mut best, motion);
            k = k + 1;
        }
        let centre: Candidate = best;
        let low_x: i32 = clamp(centre.x as i64 - 3, -(limit as i64), limit as i64) as i32;
        let high_x: i32 = clamp(centre.x as i64 + 3, -(limit as i64), limit as i64) as i32;
        let low_y: i32 = clamp(centre.y as i64 - 3, -(limit as i64), limit as i64) as i32;
        let high_y: i32 = clamp(centre.y as i64 + 3, -(limit as i64), limit as i64) as i32;
        let columns: i32 = high_x - low_x + 1;
        let rows: i32 = high_y - low_y + 1;
        assert(1 <= columns * rows <= 49) by (nonlinear_arith)
            requires
                1 <= columns <= 7,
                1 <= rows <= 7,
        ;
        let near: i32 = columns * rows;
        let mut n: i32 = 0;
        while n < near
            invariant
                0 <= n <= near,
                self.valid(),
                limit == self.range * 4,
                low_x == self@.low(centre.x as int),
                high_x == self@.high(centre.x as int),
                low_y == self@.low(centre.y as int),
                high_y == self@.high(centre.y as int),
                -limit <= low_x <= high_x <= limit,
                -limit <= low_y <= high_y <= limit,
                columns == high_x - low_x + 1,
                rows == high_y - low_y + 1,
                near == columns * rows,
                best == self@.best_near(centre, n as int),
                magnitude(best.x as int) <= limit,
                magnitude(best.y as int) <= limit,
            decreases near - n,
        {
            assert(0 <= (n as int / columns as int) && (n as int / columns as int) < rows) by (nonlinear_arith)
                requires
                    0 <= n < columns * rows,
                    1 <= columns,
            ;
            let motion = MotionVector { x: low_x + n % columns, y: low_y + n / columns };
            assert(motion == self@.near_vector(centre, n as int));
            self.evaluate(Measure::Quarter, &mut best, motion);
            n = n + 1;
        }
        MotionVector { x: best.x, y: best.y }
    }

    /// Keeps the best of a candidate and its four neighbours.
    fn cross(&self, best: &mut Candidate, step: i32)
        requires
            self.valid(),
            1 <= step <= 128,
            magnitude(old(best).x as int) <= self@.limit(),
            magnitude(old(best).y as int) <= self@.limit(),
        ensures
            *final(best) == self@.crossed(*old(best), step as int),
            magnitude(final(best).x as int) <= self@.limit(),
            magnitude(final(best).y as int) <= self@.limit(),
    {
        reveal(SearchModel::crossed);
        let x: i32 = best.x;
        let y: i32 = best.y;
        self.evaluate_inside(Measure::SparseWhole, best, x, y - step * 4);
        self.evaluate_inside(Measure::SparseWhole, best, x - step * 4, y);
        self.evaluate_inside(Measure::SparseWhole, best, x + step * 4, y);
        self.evaluate_inside(Measure::SparseWhole, best, x, y + step * 4);
    }

    /// Keeps the best of a candidate and its eight neighbours.
    fn ring(&self, best: &mut Candidate, step: i32)
        requires
            self.valid(),
            1 <= step <= 2,
            magnitude(old(best).x as int) <= self@.limit(),
            magnitude(old(best).y as int) <= self@.limit(),
        ensures
            *final(best) == self@.ringed(*old(best), step as int),
            magnitude(final(best).x as int) <= self@.limit(),
            magnitude(final(best).y as int) <= self@.limit(),
    {
        reveal(SearchModel::ringed);
        let x: i32 = best.x;
        let y: i32 = best.y;
        self.evaluate_inside(Measure::SparseQuarter, best, x, y - step);
        self.evaluate_inside(Measure::SparseQuarter, best, x - step, y);
        self.evaluate_inside(Measure::SparseQuarter, best, x + step, y);
        self.evaluate_inside(Measure::SparseQuarter, best, x, y + step);
        self.evaluate_inside(Measure::SparseQuarter, best, x - step, y - step);
        self.evaluate_inside(Measure::SparseQuarter, best, x + step, y - step);
        self.evaluate_inside(Measure::SparseQuarter, best, x - step, y + step);
        self.evaluate_inside(Measure::SparseQuarter, best, x + step, y + step);
    }

    /// Moves a candidate until no neighbour is better.
    fn settle(&self, best: &mut Candidate, step: i32)
        requires
            self.valid(),
            1 <= step <= 128,
            magnitude(old(best).x as int) <= self@.limit(),
            magnitude(old(best).y as int) <= self@.limit(),
        ensures
            *final(best) == self@.settled(*old(best), step as int),
            magnitude(final(best).x as int) <= self@.limit(),
            magnitude(final(best).y as int) <= self@.limit(),
    {
        let mut done = false;
        while !done
            invariant
                self.valid(),
                1 <= step <= 128,
                magnitude(best.x as int) <= self@.limit(),
                magnitude(best.y as int) <= self@.limit(),
                self@.settled(*old(best), step as int) == if done {
                    *best
                } else {
                    self@.settled(*best, step as int)
                },
            decreases
                    (if done {
                        0int
                    } else {
                        1
                    }),
                    best.sad,
                    best.rate as int + 0x8000_0000,
                    best.displacement as int + 0x8000_0000,
                    best.y as int + 0x8000_0000,
                    best.x as int + 0x8000_0000,
        {
            let centre: Candidate = *best;
            self.cross(best, step);
            proof {
                self@.lemma_crossed(centre, step as int);
            }
            if best.x == centre.x && best.y == centre.y {
                done = true;
            }
        }
    }

    /// Searches a few vectors around likely ones.
    pub fn estimate_partition_motion_fast(&self) -> (vector: MotionVector)
        requires
            self.valid(),
        ensures
            vector == self@.found(AnalysisPreset::Fast),
            magnitude(vector.x as int) <= self@.limit(),
            magnitude(vector.y as int) <= self@.limit(),
    {
        reveal(SearchModel::fast_best);
        let limit: i64 = self.range as i64 * 4;
        let x: i32 = clamp(round_to_integer_sample(self.predicted.x) as i64, -limit, limit) as i32;
        let y: i32 = clamp(round_to_integer_sample(self.predicted.y) as i64, -limit, limit) as i32;
        let mut best = Candidate {
            sad: u64::MAX,
            rate: i32::MAX,
            displacement: i32::MAX,
            y: 0,
            x: 0,
        };
        self.evaluate(Measure::SparseWhole, &mut best, MotionVector { x, y });
        self.evaluate(Measure::SparseWhole, &mut best, MotionVector { x: 0, y: 0 });
        let ghost first = best;
        let mut step: i32 = 1;
        while step <= self.range / 2
            invariant
                self.valid(),
                1 <= step <= 64,
                first_step(self@.range, 1) == first_step(self@.range, step as int),
            decreases 64 - step,
        {
            step = step * 2;
        }
        while step != 0
            invariant
                self.valid(),
                0 <= step <= 64,
                magnitude(best.x as int) <= self@.limit(),
                magnitude(best.y as int) <= self@.limit(),
                self@.narrowed(first, first_step(self@.range, 1)) == self@.narrowed(
                    best,
                    step as int,
                ),
            decreases step,
        {
            self.settle(&mut best, step);
            step = step / 2;
        }
        self.ring(&mut best, 2);
        self.ring(&mut best, 1);
        MotionVector { x: best.x, y: best.y }
    }

    /// Searches the motion of a part of a macroblock.
    pub fn estimate_partition_motion(&self, analysis: AnalysisPreset) -> (vector: MotionVector)
        requires
            self.valid(),
        ensures
            vector == self@.found(analysis),
            magnitude(vector.x as int) <= self@.limit(),
            magnitude(vector.y as int) <= self@.limit(),
    {
        match analysis {
            AnalysisPreset::Full => self.estimate_partition_motion_full(),
            AnalysisPreset::Fast => self.estimate_partition_motion_fast(),
        }
    }
}

/// None of the first vectors of whole steps is better than the best of them.
pub proof fn law_whole_search(search: SearchModel, count: int, k: int)
    requires
        0 <= k < count,
        0 <= search.range <= 64,
        vector_fits(search.predicted),
        count <= (2 * search.range + 1) * (2 * search.range + 1),
    ensures
        !better(
            search.candidate(Measure::Whole, search.whole_vector(k)),
            search.best_whole(count),
        ),
    decreases count,
{
    let tried = search.candidate(Measure::Whole, search.whole_vector(k));
    let last = search.candidate(Measure::Whole, search.whole_vector(count - 1));
    let earlier = search.best_whole(count - 1);
    if k < count - 1 {
        law_whole_search(search, count - 1, k);
        if better(last, earlier) && better(tried, last) {
            law_better_transitive(tried, last, earlier);
        }
    }
}

/// No vector that is tried around the best one of whole steps is better than the one that is
/// found, nor is the former.
pub proof fn law_near_search(search: SearchModel, centre: Candidate, count: int, k: int)
    requires
        0 <= k < count,
    ensures
        !better(
            search.candidate(Measure::Quarter, search.near_vector(centre, k)),
            search.best_near(centre, count),
        ),
        !better(centre, search.best_near(centre, count)),
    decreases count,
{
    let tried = search.candidate(Measure::Quarter, search.near_vector(centre, k));
    let last = search.candidate(Measure::Quarter, search.near_vector(centre, count - 1));
    let earlier = search.best_near(centre, count - 1);
    if k < count - 1 {
        law_near_search(search, centre, count - 1, k);
        if better(last, earlier) && better(tried, last) {
            law_better_transitive(tried, last, earlier);
        }
    } else if count > 1 {
        law_near_search(search, centre, count - 1, 0);
    }
    if better(last, earlier) && better(centre, last) {
        law_better_transitive(centre, last, earlier);
    }
}

impl<'a> MotionSearch<'a> {
    /// The sum of the distances is small.
    proof fn lemma_small_sad(&self, measure: Measure, motion: MotionVector)
        requires
            self.valid(),
            vector_fits(motion),
            measure == Measure::Whole || measure == Measure::Quarter,
        ensures
            0 <= self@.sad(measure, motion) <= 0x10_0000,
    {
        reveal(SearchModel::sad);
        self.lemma_distances(measure, motion, 1);
    }

    /// At whole steps both ways to compare all samples agree.
    proof fn lemma_whole_candidate(&self, right: int, down: int)
        requires
            self.valid(),
            -64 <= right <= 64,
            -64 <= down <= 64,
        ensures
            ({
                let motion = MotionVector { x: (4 * right) as i32, y: (4 * down) as i32 };
                self@.candidate(Measure::Whole, motion) == self@.candidate(Measure::Quarter, motion)
            }),
    {
        reveal(SearchModel::sad);
        let motion = MotionVector { x: (4 * right) as i32, y: (4 * down) as i32 };
        let whole = self@.distances(Measure::Whole, motion);
        let quarter = self@.distances(Measure::Quarter, motion);
        assert forall|x: int, y: int| #[trigger]
            self@.displaced(Measure::Whole, motion, x, y) == self@.displaced(
            Measure::Quarter,
            motion,
            x,
            y,
        ) by {
            law_whole_steps(self.reference@, x + right, y + down);
            assert(4 * (x + right) == x * 4 + motion.x && 4 * (y + down) == y * 4 + motion.y);
            assert(motion.x as int / 4 == right && motion.y as int / 4 == down);
        }
        assert(whole =~= quarter);
    }

    /// A vector of whole steps stays within reach.
    proof fn lemma_whole_vector(&self, k: int) -> (steps: (int, int))
        requires
            self.valid(),
            0 <= k < (2 * self.range + 1) * (2 * self.range + 1),
        ensures
            -self.range <= steps.0 <= self.range,
            -self.range <= steps.1 <= self.range,
            self@.whole_vector(k) == (MotionVector {
                x: (4 * steps.0) as i32,
                y: (4 * steps.1) as i32,
            }),
    {
        let side = 2 * self.range + 1;
        assert(0 <= k / side < side && 0 <= k % side < side) by (nonlinear_arith)
            requires
                0 <= k < side * side,
                1 <= side,
        ;
        (k % side - self.range, k / side - self.range)
    }

    /// The best of the first vectors of whole steps is one of them.
    proof fn lemma_best_whole(&self, count: int) -> (k: int)
        requires
            self.valid(),
            0 < count <= (2 * self.range + 1) * (2 * self.range + 1),
        ensures
            0 <= k < count,
            self@.best_whole(count) == self@.candidate(Measure::Whole, self@.whole_vector(k)),
        decreases count,
    {
        let (right, down) = self.lemma_whole_vector(count - 1);
        self.lemma_small_sad(Measure::Whole, self@.whole_vector(count - 1));
        if count == 1 {
            assert(self@.best_whole(0) == no_candidate());
            0
        } else {
            let earlier = self.lemma_best_whole(count - 1);
            let last = self@.candidate(Measure::Whole, self@.whole_vector(count - 1));
            if better(last, self@.best_whole(count - 1)) {
                count - 1
            } else {
                earlier
            }
        }
    }

    /// The best of a candidate and the first vectors around it is one of them, and within reach.
    proof fn lemma_best_near(&self, centre: Candidate, count: int)
        requires
            self.valid(),
            0 <= count <= self@.near_count(centre),
            magnitude(centre.x as int) <= self@.limit(),
            magnitude(centre.y as int) <= self@.limit(),
            centre == self@.candidate(
                Measure::Quarter,
                MotionVector { x: centre.x, y: centre.y },
            ),
        ensures
            ({
                let best = self@.best_near(centre, count);
                &&& best == self@.candidate(
                    Measure::Quarter,
                    MotionVector { x: best.x, y: best.y },
                )
                &&& magnitude(best.x as int) <= self@.limit()
                &&& magnitude(best.y as int) <= self@.limit()
            }),
        decreases count,
    {
        if count > 0 {
            self.lemma_best_near(centre, count - 1);
            let columns = self@.high(centre.x as int) - self@.low(centre.x as int) + 1;
            let rows = self@.high(centre.y as int) - self@.low(centre.y as int) + 1;
            let k = count - 1;
            assert(0 <= k / columns < rows && 0 <= k % columns < columns) by (nonlinear_arith)
                requires
                    0 <= k < columns * rows,
                    1 <= columns,
            ;
        }
    }
}

/// No vector of whole steps within reach is better than the one that is found when everything is
/// searched: none compares more closely with the source, and of those that compare as closely none
/// comes first.
pub proof fn law_full_search(search: MotionSearch<'_>, right: int, down: int)
    requires
        search.valid(),
        -search.range <= right <= search.range,
        -search.range <= down <= search.range,
    ensures
        ({
            let model = search@;
            let found = model.found(AnalysisPreset::Full);
            let other = MotionVector { x: (4 * right) as i32, y: (4 * down) as i32 };
            &&& magnitude(found.x as int) <= model.limit()
            &&& magnitude(found.y as int) <= model.limit()
            &&& model.sad(Measure::Quarter, found) <= model.sad(Measure::Quarter, other)
            &&& !better(
                model.candidate(Measure::Quarter, other),
                model.candidate(Measure::Quarter, found),
            )
        }),
{
    reveal(SearchModel::full_best);
    let model = search@;
    let other = MotionVector { x: (4 * right) as i32, y: (4 * down) as i32 };
    let side = 2 * model.range + 1;
    let total = side * side;
    let across = right + model.range;
    let k = (down + model.range) * side + across;
    assert(0 <= k < total && total >= 1) by (nonlinear_arith)
        requires
            k == (down + model.range) * side + across,
            total == side * side,
            0 <= across < side,
            0 <= down + model.range < side,
            1 <= side,
    ;
    vstd::arithmetic::div_mod::lemma_fundamental_div_mod_converse(
        k,
        side,
        down + model.range,
        across,
    );
    assert(model.whole_vector(k) == other);
    let whole = model.best_whole(total);
    let best_index = search.lemma_best_whole(total);
    let (best_right, best_down) = search.lemma_whole_vector(best_index);
    search.lemma_whole_candidate(best_right, best_down);
    search.lemma_whole_candidate(right, down);
    law_whole_search(model, total, k);
    let count = model.near_count(whole);
    assert(count >= 1) by (nonlinear_arith)
        requires
            count == (model.high(whole.x as int) - model.low(whole.x as int) + 1) * (model.high(
                whole.y as int,
            ) - model.low(whole.y as int) + 1),
            model.high(whole.x as int) >= model.low(whole.x as int),
            model.high(whole.y as int) >= model.low(whole.y as int),
    ;
    law_near_search(model, whole, count, 0);
    search.lemma_best_near(whole, count);
    let best = model.full_best();
    let tried = model.candidate(Measure::Quarter, other);
    law_better_total(best, whole);
    if better(tried, best) && better(best, whole) {
        law_better_transitive(tried, best, whole);
    }
    search.lemma_small_sad(Measure::Quarter, other);
    search.lemma_small_sad(Measure::Quarter, MotionVector { x: best.x, y: best.y });
}

/// A search with shrinking steps ends where no neighbour is better.
pub proof fn law_settled(search: SearchModel, best: Candidate, step: int)
    requires
        1 <= step,
        0 <= search.range <= 64,
    ensures
        ({
            let end = search.settled(best, step);
            search.crossed(end, step) == end && (end == best || better(end, best))
        }),
    decreases
            best.sad,
            best.rate as int + 0x8000_0000,
            best.displacement as int + 0x8000_0000,
            best.y as int + 0x8000_0000,
            best.x as int + 0x8000_0000,
{
    search.lemma_crossed(best, step);
    let next = search.crossed(best, step);
    if next.x == best.x && next.y == best.y {
        reveal(SearchModel::crossed);
    } else {
        law_settled(search, next, step);
    }
}

/// Whether a candidate is better than another.
fn is_better(a: Candidate, b: Candidate) -> (result: bool)
    ensures
        result == better(a, b),
{
    a.sad < b.sad || a.sad == b.sad && (a.rate < b.rate || a.rate == b.rate && (a.displacement
        < b.displacement || a.displacement == b.displacement && (a.y < b.y || a.y == b.y && a.x
        < b.x)))
}

proof fn lemma_sum_limit(values: Seq<int>, count: int, limit: int)
    requires
        0 <= count <= values.len(),
        0 <= limit,
        forall|i: int| 0 <= i < values.len() ==> 0 <= #[trigger] values[i] <= limit,
    ensures
        0 <= sum_of(values, count) <= limit * count,
    decreases count,
{
    if count > 0 {
        lemma_sum_limit(values, count - 1, limit);
        assert(limit * count == limit * (count - 1) + limit) by (nonlinear_arith);
    }
}

} // verus!
