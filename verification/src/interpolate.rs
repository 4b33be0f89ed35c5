//! Samples between the samples of a reference picture.

use vstd::prelude::*;

use crate::intra::{average, mean_of};
use crate::math::{
    clamp, clamped, clip_wide, eighth, lemma_place_inside, quartered, sixteenth, sixty_fourth,
    thirty_second,
};

verus! {

/// A plane of a reference picture.
#[derive(Clone, Copy, Debug)]
pub struct ReferencePlane<'a> {
    /// The samples, row by row.
    pub samples: &'a [u8],
    /// How wide the plane is.
    pub width: usize,
    /// How high the plane is.
    pub height: usize,
}

/// A plane of a reference picture.
pub struct ReferenceModel {
    /// The samples, row by row.
    pub samples: Seq<u8>,
    /// How wide the plane is.
    pub width: int,
    /// How high the plane is.
    pub height: int,
}

impl<'a> View for ReferencePlane<'a> {
    type V = ReferenceModel;

    open spec fn view(&self) -> ReferenceModel {
        ReferenceModel {
            samples: self.samples@,
            width: self.width as int,
            height: self.height as int,
        }
    }
}

/// A limit for coordinates that leaves room for arithmetic.
pub open spec fn coordinate(value: int) -> bool {
    -0x1000_0000_0000 <= value <= 0x1000_0000_0000
}

impl ReferenceModel {
    /// The sample at a place; outside of the plane, the nearest one inside.
    #[verifier::opaque]
    pub open spec fn at(self, x: int, y: int) -> int {
        self.samples[clamped(y, 0, self.height - 1) * self.width + clamped(x, 0, self.width - 1)] as int
    }

    /// Six samples of a row, weighted for the place halfway between the middle ones.
    pub open spec fn across(self, x: int, y: int) -> int {
        self.at(x - 2, y) - 5 * self.at(x - 1, y) + 20 * self.at(x, y) + 20 * self.at(x + 1, y) - 5
            * self.at(x + 2, y) + self.at(x + 3, y)
    }

    /// The sample half a step to the right.
    pub open spec fn half_right(self, x: int, y: int) -> int {
        clamped((self.across(x, y) + 16) / 32, 0, 255)
    }

    /// The sample half a step down.
    pub open spec fn half_down(self, x: int, y: int) -> int {
        clamped(
            (self.at(x, y - 2) - 5 * self.at(x, y - 1) + 20 * self.at(x, y) + 20 * self.at(x, y + 1)
                - 5 * self.at(x, y + 2) + self.at(x, y + 3) + 16) / 32,
            0,
            255,
        )
    }

    /// The sample half a step to the right and down.
    pub open spec fn half_both(self, x: int, y: int) -> int {
        clamped(
            (self.across(x, y - 2) - 5 * self.across(x, y - 1) + 20 * self.across(x, y) + 20
                * self.across(x, y + 1) - 5 * self.across(x, y + 2) + self.across(x, y + 3) + 512)
                / 1024,
            0,
            255,
        )
    }

    /// The luma sample at a place given in quarters of a step.
    #[verifier::opaque]
    pub open spec fn luma_at(self, x_q4: int, y_q4: int) -> int {
        let x = x_q4 / 4;
        let y = y_q4 / 4;
        let right = x_q4 % 4;
        let down = y_q4 % 4;
        if right == 0 && down == 0 {
            self.at(x, y)
        } else if down == 0 {
            if right == 1 {
                mean_of(self.at(x, y), self.half_right(x, y))
            } else if right == 2 {
                self.half_right(x, y)
            } else {
                mean_of(self.half_right(x, y), self.at(x + 1, y))
            }
        } else if right == 0 {
            if down == 1 {
                mean_of(self.at(x, y), self.half_down(x, y))
            } else if down == 2 {
                self.half_down(x, y)
            } else {
                mean_of(self.half_down(x, y), self.at(x, y + 1))
            }
        } else if right == 2 && down == 2 {
            self.half_both(x, y)
        } else if right == 2 {
            mean_of(
                self.half_both(x, y),
                self.half_right(
                    x,
                    if down == 1 {
                        y
                    } else {
                        y + 1
                    },
                ),
            )
        } else if down == 2 {
            mean_of(
                self.half_both(x, y),
                self.half_down(
                    if right == 1 {
                        x
                    } else {
                        x + 1
                    },
                    y,
                ),
            )
        } else {
            mean_of(
                self.half_right(
                    x,
                    if down == 1 {
                        y
                    } else {
                        y + 1
                    },
                ),
                self.half_down(
                    if right == 1 {
                        x
                    } else {
                        x + 1
                    },
                    y,
                ),
            )
        }
    }

    /// The luma sample at a place given in quarters of a step, weighted from its four neighbours.
    #[verifier::opaque]
    pub open spec fn bilinear_at(self, x_q4: int, y_q4: int) -> int {
        let x = x_q4 / 4;
        let y = y_q4 / 4;
        let right = x_q4 % 4;
        let down = y_q4 % 4;
        ((4 - right) * (4 - down) * self.at(x, y) + right * (4 - down) * self.at(x + 1, y) + (4
            - right) * down * self.at(x, y + 1) + right * down * self.at(x + 1, y + 1) + 8) / 16
    }

    /// The chroma sample at a place given in eighths of a step.
    #[verifier::opaque]
    pub open spec fn chroma_at(self, x_q8: int, y_q8: int) -> int {
        let x = x_q8 / 8;
        let y = y_q8 / 8;
        weighted(
            self.at(x, y),
            self.at(x + 1, y),
            self.at(x, y + 1),
            self.at(x + 1, y + 1),
            x_q8 % 8,
            y_q8 % 8,
        )
    }
}

/// The mean of four samples, weighted by a place between them in eighths.
pub open spec fn weighted(
    top_left: int,
    top_right: int,
    bottom_left: int,
    bottom_right: int,
    right: int,
    down: int,
) -> int {
    ((8 - right) * (8 - down) * top_left + right * (8 - down) * top_right + (8 - right) * down
        * bottom_left + right * down * bottom_right + 32) / 64
}

/// A weighted mean of samples is a sample.
proof fn lemma_weights(side: int, right: int, down: int, a: int, b: int, c: int, d: int)
    requires
        side == 4 || side == 8,
        0 <= right < side,
        0 <= down < side,
        0 <= a <= 255,
        0 <= b <= 255,
        0 <= c <= 255,
        0 <= d <= 255,
    ensures
        0 <= (side - right) * (side - down) * a <= 255 * 64,
        0 <= right * (side - down) * b <= 255 * 64,
        0 <= (side - right) * down * c <= 255 * 64,
        0 <= right * down * d <= 255 * 64,
        (side - right) * (side - down) * a + right * (side - down) * b + (side - right) * down * c
            + right * down * d <= 255 * (side * side),
{
    let p = (side - right) * (side - down);
    let q = right * (side - down);
    let r = (side - right) * down;
    let s = right * down;
    assert(p + q + r + s == side * side && 0 <= p && 0 <= q && 0 <= r && 0 <= s)
        by (nonlinear_arith)
        requires
            p == (side - right) * (side - down),
            q == right * (side - down),
            r == (side - right) * down,
            s == right * down,
            0 <= right < side,
            0 <= down < side,
    ;
    assert(side * side <= 64) by (nonlinear_arith)
        requires
            0 <= side <= 8,
    ;
    assert(0 <= p * a <= 255 * p && 0 <= q * b <= 255 * q && 0 <= r * c <= 255 * r && 0 <= s * d
        <= 255 * s) by (nonlinear_arith)
        requires
            0 <= p,
            0 <= q,
            0 <= r,
            0 <= s,
            0 <= a <= 255,
            0 <= b <= 255,
            0 <= c <= 255,
            0 <= d <= 255,
    ;
}

proof fn lemma_at(plane: ReferenceModel, x: int, y: int)
    ensures
        0 <= plane.at(x, y) <= 255,
{
    reveal(ReferenceModel::at);
}

proof fn lemma_halves(plane: ReferenceModel, x: int, y: int)
    ensures
        0 <= plane.half_right(x, y) <= 255,
        0 <= plane.half_down(x, y) <= 255,
        0 <= plane.half_both(x, y) <= 255,
{
}

/// All interpolated values are samples.
pub proof fn lemma_samples(plane: ReferenceModel, x: int, y: int)
    ensures
        0 <= plane.at(x, y) <= 255,
        0 <= plane.luma_at(x, y) <= 255,
        0 <= plane.bilinear_at(x, y) <= 255,
{
    let column = x / 4;
    let row = y / 4;
    lemma_at(plane, x, y);
    lemma_at(plane, column, row);
    lemma_at(plane, column + 1, row);
    lemma_at(plane, column, row + 1);
    lemma_at(plane, column + 1, row + 1);
    lemma_halves(plane, column, row);
    lemma_halves(plane, column + 1, row);
    lemma_halves(plane, column, row + 1);
    lemma_luma_sample(plane, x, y);
    reveal(ReferenceModel::bilinear_at);
    lemma_weights(
        4,
        x % 4,
        y % 4,
        plane.at(column, row),
        plane.at(column + 1, row),
        plane.at(column, row + 1),
        plane.at(column + 1, row + 1),
    );
}

proof fn lemma_luma_sample(plane: ReferenceModel, x: int, y: int)
    requires
        0 <= plane.at(x / 4, y / 4) <= 255,
        0 <= plane.at(x / 4 + 1, y / 4) <= 255,
        0 <= plane.at(x / 4, y / 4 + 1) <= 255,
        0 <= plane.half_right(x / 4, y / 4) <= 255,
        0 <= plane.half_right(x / 4, y / 4 + 1) <= 255,
        0 <= plane.half_down(x / 4, y / 4) <= 255,
        0 <= plane.half_down(x / 4 + 1, y / 4) <= 255,
        0 <= plane.half_both(x / 4, y / 4) <= 255,
    ensures
        0 <= plane.luma_at(x, y) <= 255,
{
    reveal(ReferenceModel::luma_at);
}

impl<'a> ReferencePlane<'a> {
    /// Whether the plane holds as many samples as it says.
    pub open spec fn valid(&self) -> bool {
        &&& 0 < self.width <= 0x1000_0000
        &&& 0 < self.height <= 0x1000_0000
        &&& self.samples@.len() == self.width * self.height
    }

    /// The sample at a place; outside of the plane, the nearest one inside.
    pub fn reference_sample(&self, x: i64, y: i64) -> (sample: u8)
        requires
            self.valid(),
        ensures
            sample == self@.at(x as int, y as int),
    {
        reveal(ReferenceModel::at);
        let column: usize = clamp(x, 0, self.width as i64 - 1) as usize;
        let row: usize = clamp(y, 0, self.height as i64 - 1) as usize;
        let length: usize = self.samples.len();
        proof {
            lemma_place_inside(row as int, column as int, self.width as int, self.height as int);
            assert(self.height * self.width == self.width * self.height) by (nonlinear_arith);
            assert(0 <= row * self.width) by (nonlinear_arith);
        }
        self.samples[row * self.width + column]
    }

    /// Six samples of a row, weighted for the place halfway between the middle ones.
    pub fn half_horizontal_raw(&self, x: i64, y: i64) -> (value: i64)
        requires
            self.valid(),
            coordinate(x as int),
        ensures
            value == self@.across(x as int, y as int),
            -2550 <= value <= 10710,
    {
        let a: i64 = self.reference_sample(x - 2, y) as i64;
        let b: i64 = self.reference_sample(x - 1, y) as i64;
        let c: i64 = self.reference_sample(x, y) as i64;
        let d: i64 = self.reference_sample(x + 1, y) as i64;
        let e: i64 = self.reference_sample(x + 2, y) as i64;
        let f: i64 = self.reference_sample(x + 3, y) as i64;
        a - 5 * b + 20 * c + 20 * d - 5 * e + f
    }

    /// The sample half a step to the right.
    pub fn half_horizontal(&self, x: i64, y: i64) -> (sample: u8)
        requires
            self.valid(),
            coordinate(x as int),
        ensures
            sample == self@.half_right(x as int, y as int),
    {
        clip_wide(thirty_second(self.half_horizontal_raw(x, y) + 16))
    }

    /// The sample half a step down.
    pub fn half_vertical(&self, x: i64, y: i64) -> (sample: u8)
        requires
            self.valid(),
            coordinate(y as int),
        ensures
            sample == self@.half_down(x as int, y as int),
    {
        let a: i64 = self.reference_sample(x, y - 2) as i64;
        let b: i64 = self.reference_sample(x, y - 1) as i64;
        let c: i64 = self.reference_sample(x, y) as i64;
        let d: i64 = self.reference_sample(x, y + 1) as i64;
        let e: i64 = self.reference_sample(x, y + 2) as i64;
        let f: i64 = self.reference_sample(x, y + 3) as i64;
        clip_wide(thirty_second(a - 5 * b + 20 * c + 20 * d - 5 * e + f + 16))
    }

    /// The sample half a step to the right and down.
    pub fn half_diagonal(&self, x: i64, y: i64) -> (sample: u8)
        requires
            self.valid(),
            coordinate(x as int),
            coordinate(y as int),
        ensures
            sample == self@.half_both(x as int, y as int),
    {
        let a: i64 = self.half_horizontal_raw(x, y - 2);
        let b: i64 = self.half_horizontal_raw(x, y - 1);
        let c: i64 = self.half_horizontal_raw(x, y);
        let d: i64 = self.half_horizontal_raw(x, y + 1);
        let e: i64 = self.half_horizontal_raw(x, y + 2);
        let f: i64 = self.half_horizontal_raw(x, y + 3);
        let sum: i64 = a - 5 * b + 20 * c + 20 * d - 5 * e + f + 512;
        let part: i64 = thirty_second(sum);
        clip_wide(thirty_second(part))
    }

    /// The luma sample at a place given in quarters of a step.
    pub fn luma_qpel(&self, x_q4: i64, y_q4: i64) -> (sample: u8)
        requires
            self.valid(),
            coordinate(x_q4 as int),
            coordinate(y_q4 as int),
        ensures
            sample == self@.luma_at(x_q4 as int, y_q4 as int),
    {
        reveal(ReferenceModel::luma_at);
        let x: i64 = quartered(x_q4);
        let y: i64 = quartered(y_q4);
        let right: i64 = x_q4 - x * 4;
        let down: i64 = y_q4 - y * 4;
        if right == 0 && down == 0 {
            return self.reference_sample(x, y);
        }
        if down == 0 {
            let half: u8 = self.half_horizontal(x, y);
            return if right == 1 {
                average(self.reference_sample(x, y), half)
            } else if right == 2 {
                half
            } else {
                average(half, self.reference_sample(x + 1, y))
            };
        }
        if right == 0 {
            let half: u8 = self.half_vertical(x, y);
            return if down == 1 {
                average(self.reference_sample(x, y), half)
            } else if down == 2 {
                half
            } else {
                average(half, self.reference_sample(x, y + 1))
            };
        }
        let row: i64 = if down == 3 {
            y + 1
        } else {
            y
        };
        let column: i64 = if right == 3 {
            x + 1
        } else {
            x
        };
        if right == 2 && down == 2 {
            self.half_diagonal(x, y)
        } else if right == 2 {
            average(self.half_diagonal(x, y), self.half_horizontal(x, row))
        } else if down == 2 {
            average(self.half_diagonal(x, y), self.half_vertical(column, y))
        } else {
            average(self.half_horizontal(x, row), self.half_vertical(column, y))
        }
    }

    /// The luma sample at a place given in quarters of a step, weighted from its four neighbours.
    pub fn luma_bilinear_qpel(&self, x_q4: i64, y_q4: i64) -> (sample: u8)
        requires
            self.valid(),
            coordinate(x_q4 as int),
            coordinate(y_q4 as int),
        ensures
            sample == self@.bilinear_at(x_q4 as int, y_q4 as int),
    {
        reveal(ReferenceModel::bilinear_at);
        let x: i64 = quartered(x_q4);
        let y: i64 = quartered(y_q4);
        let right: i64 = x_q4 - x * 4;
        let down: i64 = y_q4 - y * 4;
        let a: i64 = self.reference_sample(x, y) as i64;
        let b: i64 = self.reference_sample(x + 1, y) as i64;
        let c: i64 = self.reference_sample(x, y + 1) as i64;
        let d: i64 = self.reference_sample(x + 1, y + 1) as i64;
        proof {
            lemma_weights(
                4,
                right as int,
                down as int,
                a as int,
                b as int,
                c as int,
                d as int,
            );
            assert(0 <= (4 - right) * (4 - down) <= 16 && 0 <= right * (4 - down) <= 16 && 0 <= (4
                - right) * down <= 16 && 0 <= right * down <= 16) by (nonlinear_arith)
                requires
                    0 <= right < 4,
                    0 <= down < 4,
            ;
        }
        sixteenth(
            (4 - right) * (4 - down) * a + right * (4 - down) * b + (4 - right) * down * c + right
                * down * d + 8,
        ) as u8
    }

    /// The chroma sample at a place given in eighths of a step.
    pub fn chroma_epel(&self, x_q8: i64, y_q8: i64) -> (sample: u8)
        requires
            self.valid(),
            coordinate(x_q8 as int),
            coordinate(y_q8 as int),
        ensures
            sample == self@.chroma_at(x_q8 as int, y_q8 as int),
    {
        reveal(ReferenceModel::chroma_at);
        let x: i64 = eighth(x_q8);
        let y: i64 = eighth(y_q8);
        chroma_bilinear_sample(
            self.reference_sample(x, y),
            self.reference_sample(x + 1, y),
            self.reference_sample(x, y + 1),
            self.reference_sample(x + 1, y + 1),
            x_q8 - x * 8,
            y_q8 - y * 8,
        )
    }
}

/// The mean of four samples, weighted by a place between them in eighths.
pub fn chroma_bilinear_sample(
    top_left: u8,
    top_right: u8,
    bottom_left: u8,
    bottom_right: u8,
    fraction_x: i64,
    fraction_y: i64,
) -> (sample: u8)
    requires
        0 <= fraction_x < 8,
        0 <= fraction_y < 8,
    ensures
        sample == weighted(
            top_left as int,
            top_right as int,
            bottom_left as int,
            bottom_right as int,
            fraction_x as int,
            fraction_y as int,
        ),
{
    let a: i64 = top_left as i64;
    let b: i64 = top_right as i64;
    let c: i64 = bottom_left as i64;
    let d: i64 = bottom_right as i64;
    proof {
        lemma_weights(
            8,
            fraction_x as int,
            fraction_y as int,
            a as int,
            b as int,
            c as int,
            d as int,
        );
        assert(0 <= (8 - fraction_x) * (8 - fraction_y) <= 64 && 0 <= fraction_x * (8 - fraction_y)
            <= 64 && 0 <= (8 - fraction_x) * fraction_y <= 64 && 0 <= fraction_x * fraction_y
            <= 64) by (nonlinear_arith)
            requires
                0 <= fraction_x < 8,
                0 <= fraction_y < 8,
        ;
    }
    sixty_fourth(
        (8 - fraction_x) * (8 - fraction_y) * a + fraction_x * (8 - fraction_y) * b + (8
            - fraction_x) * fraction_y * c + fraction_x * fraction_y * d + 32,
    ) as u8
}

/// At whole steps the samples of the picture itself are found.
pub proof fn law_whole_steps(plane: ReferenceModel, x: int, y: int)
    requires
        0 < plane.width,
        0 < plane.height,
    ensures
        plane.luma_at(4 * x, 4 * y) == plane.at(x, y),
        plane.bilinear_at(4 * x, 4 * y) == plane.at(x, y),
        plane.chroma_at(8 * x, 8 * y) == plane.at(x, y),
{
    reveal(ReferenceModel::luma_at);
    reveal(ReferenceModel::bilinear_at);
    reveal(ReferenceModel::chroma_at);
    assert((4 * x) % 4 == 0 && (4 * x) / 4 == x && (4 * y) % 4 == 0 && (4 * y) / 4 == y);
    assert((8 * x) % 8 == 0 && (8 * x) / 8 == x && (8 * y) % 8 == 0 && (8 * y) / 8 == y);
    let own = plane.at(x, y);
    let right = plane.at(x + 1, y);
    let below = plane.at(x, y + 1);
    let across = plane.at(x + 1, y + 1);
    lemma_corner(4, (4 * x) % 4, (4 * y) % 4, own, right, below, across);
    lemma_corner(8, (8 * x) % 8, (8 * y) % 8, own, right, below, across);
}

proof fn lemma_corner(side: int, right: int, down: int, a: int, b: int, c: int, d: int)
    requires
        right == 0,
        down == 0,
    ensures
        (side - right) * (side - down) * a + right * (side - down) * b + (side - right) * down * c
            + right * down * d == side * side * a,
{
    assert((side - right) * (side - down) * a + right * (side - down) * b + (side - right) * down
        * c + right * down * d == side * side * a) by (nonlinear_arith)
        requires
            right == 0,
            down == 0,
    ;
}

/// Inside the picture a sample is the one that is stored at its place.
pub proof fn law_inside(plane: ReferenceModel, x: int, y: int)
    requires
        0 <= x < plane.width,
        0 <= y < plane.height,
    ensures
        plane.at(x, y) == plane.samples[y * plane.width + x],
{
    reveal(ReferenceModel::at);
}

} // verus!
