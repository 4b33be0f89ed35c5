//! Scanning orders and quantizer tables.

use vstd::prelude::*;

verus! {

/// Row and column of each coefficient of a four-by-four block, in scanning order.
pub const ZIG_ZAG_4X4: [(usize, usize); 16] = [
    (0, 0),
    (0, 1),
    (1, 0),
    (2, 0),
    (1, 1),
    (0, 2),
    (0, 3),
    (1, 2),
    (2, 1),
    (3, 0),
    (3, 1),
    (2, 2),
    (1, 3),
    (2, 3),
    (3, 2),
    (3, 3),
];

/// Row and column of each coefficient of an eight-by-eight block, in scanning order.
pub const ZIG_ZAG_8X8: [(usize, usize); 64] = [
    (0, 0),
    (0, 1),
    (1, 0),
    (2, 0),
    (1, 1),
    (0, 2),
    (0, 3),
    (1, 2),
    (2, 1),
    (3, 0),
    (4, 0),
    (3, 1),
    (2, 2),
    (1, 3),
    (0, 4),
    (0, 5),
    (1, 4),
    (2, 3),
    (3, 2),
    (4, 1),
    (5, 0),
    (6, 0),
    (5, 1),
    (4, 2),
    (3, 3),
    (2, 4),
    (1, 5),
    (0, 6),
    (0, 7),
    (1, 6),
    (2, 5),
    (3, 4),
    (4, 3),
    (5, 2),
    (6, 1),
    (7, 0),
    (7, 1),
    (6, 2),
    (5, 3),
    (4, 4),
    (3, 5),
    (2, 6),
    (1, 7),
    (2, 7),
    (3, 6),
    (4, 5),
    (5, 4),
    (6, 3),
    (7, 2),
    (7, 3),
    (6, 4),
    (5, 5),
    (4, 6),
    (3, 7),
    (4, 7),
    (5, 6),
    (6, 5),
    (7, 4),
    (7, 5),
    (6, 6),
    (5, 7),
    (6, 7),
    (7, 6),
    (7, 7),
];

/// Scanning position of each place of a four-by-four block, row by row.
pub const SCAN_4X4: [usize; 16] = [
    0, 1, 5, 6, 2, 4, 7, 12, 3, 8, 11, 13, 9, 10, 14, 15,
];

/// Scanning position of each place of an eight-by-eight block, row by row.
pub const SCAN_8X8: [usize; 64] = [
    0, 1, 5, 6, 14, 15, 27, 28, 2, 4, 7, 13, 16, 26, 29, 42,
    3, 8, 12, 17, 25, 30, 41, 43, 9, 11, 18, 24, 31, 40, 44, 53,
    10, 19, 23, 32, 39, 45, 52, 54, 20, 22, 33, 38, 46, 51, 55, 60,
    21, 34, 37, 47, 50, 56, 59, 61, 35, 36, 48, 49, 57, 58, 62, 63,
];

/// Level scales of four-by-four blocks, by quantizer remainder and coefficient category.
pub const NORM_ADJUST_4X4: [[i64; 3]; 6] = [
    [10, 16, 13],
    [11, 18, 14],
    [13, 20, 16],
    [14, 23, 18],
    [16, 25, 20],
    [18, 29, 23],
];

/// Level scales of eight-by-eight blocks, by quantizer remainder and coefficient category.
pub const NORM_ADJUST_8X8: [[i64; 6]; 6] = [
    [20, 18, 32, 19, 25, 24],
    [22, 19, 35, 21, 28, 26],
    [26, 23, 42, 24, 33, 31],
    [28, 25, 45, 26, 35, 33],
    [32, 28, 51, 30, 40, 38],
    [36, 32, 58, 34, 46, 43],
];

/// Quantizer multipliers of four-by-four blocks, by quantizer remainder and coefficient category.
pub const MULTIPLIERS_4X4: [[i64; 3]; 6] = [
    [13_107, 5_243, 8_066],
    [11_916, 4_660, 7_490],
    [10_082, 4_194, 6_554],
    [9_362, 3_647, 5_825],
    [8_192, 3_355, 5_243],
    [7_282, 2_893, 4_559],
];

/// Quantizer multipliers of eight-by-eight blocks, by quantizer remainder and coefficient category.
pub const MULTIPLIERS_8X8: [[i64; 6]; 6] = [
    [13_107, 11_428, 20_972, 12_222, 16_777, 15_481],
    [11_916, 10_826, 19_174, 11_058, 14_980, 14_290],
    [10_082, 8_943, 15_978, 9_675, 12_710, 11_985],
    [9_362, 8_228, 14_913, 8_931, 11_984, 11_259],
    [8_192, 7_346, 13_159, 7_740, 10_486, 9_777],
    [7_282, 6_428, 11_570, 6_830, 9_118, 8_640],
];

/// The place, row by row, of the coefficient at a scanning position of a block of side 4 or 8.
#[verifier::opaque]
pub open spec fn zig_zag(side: int, position: int) -> int {
    if side == 4 {
        ZIG_ZAG_4X4[position].0 * 4 + ZIG_ZAG_4X4[position].1
    } else {
        ZIG_ZAG_8X8[position].0 * 8 + ZIG_ZAG_8X8[position].1
    }
}

/// The scanning position of a place, row by row, of a block of side 4 or 8.
#[verifier::opaque]
pub open spec fn scan(side: int, place: int) -> int {
    if side == 4 {
        SCAN_4X4[place] as int
    } else {
        SCAN_8X8[place] as int
    }
}

/// The level scale of a category.
#[verifier::opaque]
pub open spec fn norm_adjust(side: int, remainder: int, category: int) -> int {
    if side == 4 {
        NORM_ADJUST_4X4[remainder][category] as int
    } else {
        NORM_ADJUST_8X8[remainder][category] as int
    }
}

/// The quantizer multiplier of a category.
#[verifier::opaque]
pub open spec fn multiplier(side: int, remainder: int, category: int) -> int {
    if side == 4 {
        MULTIPLIERS_4X4[remainder][category] as int
    } else {
        MULTIPLIERS_8X8[remainder][category] as int
    }
}

/// The category of a coefficient at a place, row by row, of a block of side 4 or 8.
pub open spec fn category(side: int, place: int) -> int {
    let row = place / side;
    let column = place % side;
    if side == 4 {
        if row % 2 == 0 && column % 2 == 0 {
            0
        } else if row % 2 == 1 && column % 2 == 1 {
            1
        } else {
            2
        }
    } else {
        let r = row % 4;
        let c = column % 4;
        if r % 2 == 1 && c % 2 == 1 {
            1
        } else if r % 2 != c % 2 {
            if r == 2 || c == 2 {
                5
            } else {
                3
            }
        } else if r == 0 && c == 0 {
            0
        } else if r == 2 && c == 2 {
            2
        } else {
            4
        }
    }
}

/// The scanning order visits every place once: position and place determine each other.
pub proof fn law_scan_order(side: int)
    requires
        side == 4 || side == 8,
    ensures
        forall|position: int|
            0 <= position < side * side ==> 0 <= #[trigger] zig_zag(side, position) < side * side
                && scan(side, zig_zag(side, position)) == position,
        forall|place: int|
            0 <= place < side * side ==> 0 <= #[trigger] scan(side, place) < side * side && zig_zag(
                side,
                scan(side, place),
            ) == place,
{
    reveal(zig_zag);
    reveal(scan);
    if side == 4 {
        lemma_scan_4x4();
    } else {
        lemma_scan_8x8();
    }
}

#[verifier::spinoff_prover]
proof fn lemma_scan_4x4()
    ensures
        forall|k: int|
            0 <= k < 16 ==> (#[trigger] ZIG_ZAG_4X4[k]).0 < 4 && ZIG_ZAG_4X4[k].1 < 4
                && SCAN_4X4[ZIG_ZAG_4X4[k].0 * 4 + ZIG_ZAG_4X4[k].1] == k,
        forall|p: int|
            0 <= p < 16 ==> (#[trigger] SCAN_4X4[p]) < 16 && ZIG_ZAG_4X4[SCAN_4X4[p] as int].0 * 4
                + ZIG_ZAG_4X4[SCAN_4X4[p] as int].1 == p,
{
}

#[verifier::spinoff_prover]
#[verifier::rlimit(40)]
proof fn lemma_scan_8x8()
    ensures
        forall|k: int|
            0 <= k < 64 ==> (#[trigger] ZIG_ZAG_8X8[k]).0 < 8 && ZIG_ZAG_8X8[k].1 < 8
                && SCAN_8X8[ZIG_ZAG_8X8[k].0 * 8 + ZIG_ZAG_8X8[k].1] == k,
        forall|p: int|
            0 <= p < 64 ==> (#[trigger] SCAN_8X8[p]) < 64 && ZIG_ZAG_8X8[SCAN_8X8[p] as int].0 * 8
                + ZIG_ZAG_8X8[SCAN_8X8[p] as int].1 == p,
{
}

/// The place, row by row, of the coefficient at a scanning position of a four-by-four block.
pub fn zig_zag_4x4(position: usize) -> (place: usize)
    requires
        position < 16,
    ensures
        place == zig_zag(4, position as int),
        place < 16,
{
    proof {
        reveal(zig_zag);
        lemma_scan_4x4();
    }
    let (row, column): (usize, usize) = ZIG_ZAG_4X4[position];
    row * 4 + column
}

/// The place, row by row, of the coefficient at a scanning position of an eight-by-eight block.
pub fn zig_zag_8x8(position: usize) -> (place: usize)
    requires
        position < 64,
    ensures
        place == zig_zag(8, position as int),
        place < 64,
{
    proof {
        reveal(zig_zag);
        lemma_scan_8x8();
    }
    let (row, column): (usize, usize) = ZIG_ZAG_8X8[position];
    row * 8 + column
}

/// The scanning position of a place, row by row, of a four-by-four block.
pub fn scan_4x4(place: usize) -> (position: usize)
    requires
        place < 16,
    ensures
        position == scan(4, place as int),
        position < 16,
        place > 0 ==> position > 0,
        place == 0 ==> position == 0,
{
    proof {
        reveal(scan);
        lemma_scan_4x4();
    }
    SCAN_4X4[place]
}

/// The scanning position of a place, row by row, of an eight-by-eight block.
pub fn scan_8x8(place: usize) -> (position: usize)
    requires
        place < 64,
    ensures
        position == scan(8, place as int),
        position < 64,
{
    proof {
        reveal(scan);
        lemma_scan_8x8();
    }
    SCAN_8X8[place]
}

/// The category of a coefficient of a four-by-four block.
pub fn coefficient_category(row: usize, column: usize) -> (result: usize)
    requires
        row < 4,
        column < 4,
    ensures
        result == category(4, row * 4 + column),
        result < 3,
{
    if row % 2 == 0 && column % 2 == 0 {
        0
    } else if row % 2 == 1 && column % 2 == 1 {
        1
    } else {
        2
    }
}

/// The category of a coefficient of an eight-by-eight block.
pub fn coefficient_category_8x8(row: usize, column: usize) -> (result: usize)
    requires
        row < 8,
        column < 8,
    ensures
        result == category(8, row * 8 + column),
        result < 6,
{
    let r: usize = row % 4;
    let c: usize = column % 4;
    if r % 2 == 1 && c % 2 == 1 {
        1
    } else if r % 2 != c % 2 {
        if r == 2 || c == 2 {
            5
        } else {
            3
        }
    } else if r == 0 && c == 0 {
        0
    } else if r == 2 && c == 2 {
        2
    } else {
        4
    }
}

/// The level scale of a category of four-by-four blocks.
pub fn norm_adjust_4x4(remainder: usize, kind: usize) -> (scale: i64)
    requires
        remainder < 6,
        kind < 3,
    ensures
        scale == norm_adjust(4, remainder as int, kind as int),
        10 <= scale <= 29,
{
    reveal(norm_adjust);
    assert(forall|r: int, c: int|
        0 <= r < 6 && 0 <= c < 3 ==> 10 <= #[trigger] NORM_ADJUST_4X4[r][c] <= 29);
    NORM_ADJUST_4X4[remainder][kind]
}

/// The level scale of a category of eight-by-eight blocks.
pub fn norm_adjust_8x8(remainder: usize, kind: usize) -> (scale: i64)
    requires
        remainder < 6,
        kind < 6,
    ensures
        scale == norm_adjust(8, remainder as int, kind as int),
        18 <= scale <= 58,
{
    reveal(norm_adjust);
    assert(forall|r: int, c: int|
        0 <= r < 6 && 0 <= c < 6 ==> 18 <= #[trigger] NORM_ADJUST_8X8[r][c] <= 58);
    NORM_ADJUST_8X8[remainder][kind]
}

/// Bounds of the quantizer multipliers.
pub proof fn lemma_multiplier(side: int, remainder: int, kind: int)
    requires
        side == 4 || side == 8,
        0 <= remainder < 6,
        0 <= kind < if side == 4 {
            3int
        } else {
            6int
        },
    ensures
        2_000 <= multiplier(side, remainder, kind) <= 21_000,
{
    reveal(multiplier);
    if side == 4 {
        assert(forall|r: int, c: int|
            0 <= r < 6 && 0 <= c < 3 ==> 2_000 <= #[trigger] MULTIPLIERS_4X4[r][c] <= 21_000);
    } else {
        assert(forall|r: int, c: int|
            0 <= r < 6 && 0 <= c < 6 ==> 2_000 <= #[trigger] MULTIPLIERS_8X8[r][c] <= 21_000);
    }
}

/// The quantizer multiplier of a category of four-by-four blocks.
pub fn multiplier_4x4(remainder: usize, kind: usize) -> (factor: i64)
    requires
        remainder < 6,
        kind < 3,
    ensures
        factor == multiplier(4, remainder as int, kind as int),
        2_000 <= factor <= 21_000,
{
    proof {
        reveal(multiplier);
        lemma_multiplier(4, remainder as int, kind as int);
    }
    MULTIPLIERS_4X4[remainder][kind]
}

/// The quantizer multiplier of a category of eight-by-eight blocks.
pub fn multiplier_8x8(remainder: usize, kind: usize) -> (factor: i64)
    requires
        remainder < 6,
        kind < 6,
    ensures
        factor == multiplier(8, remainder as int, kind as int),
        2_000 <= factor <= 21_000,
{
    proof {
        reveal(multiplier);
        lemma_multiplier(8, remainder as int, kind as int);
    }
    MULTIPLIERS_8X8[remainder][kind]
}

} // verus!
