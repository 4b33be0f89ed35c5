//! Probability tables of the arithmetic decoder.

use vstd::prelude::*;

verus! {

/// Width of the less probable symbol, by state and quarter of the range.
pub const RANGE_LPS: [[u16; 4]; 64] = [
    [128, 176, 208, 240],
    [128, 167, 197, 227],
    [128, 158, 187, 216],
    [123, 150, 178, 205],
    [116, 142, 169, 195],
    [111, 135, 160, 185],
    [105, 128, 152, 175],
    [100, 122, 144, 166],
    [95, 116, 137, 158],
    [90, 110, 130, 150],
    [85, 104, 123, 142],
    [81, 99, 117, 135],
    [77, 94, 111, 128],
    [73, 89, 105, 122],
    [69, 85, 100, 116],
    [66, 80, 95, 110],
    [62, 76, 90, 104],
    [59, 72, 86, 99],
    [56, 69, 81, 94],
    [53, 65, 77, 89],
    [51, 62, 73, 85],
    [48, 59, 69, 80],
    [46, 56, 66, 76],
    [43, 53, 63, 72],
    [41, 50, 59, 69],
    [39, 48, 56, 65],
    [37, 45, 54, 62],
    [35, 43, 51, 59],
    [33, 41, 48, 56],
    [32, 39, 46, 53],
    [30, 37, 43, 50],
    [29, 35, 41, 48],
    [27, 33, 39, 45],
    [26, 31, 37, 43],
    [24, 30, 35, 41],
    [23, 28, 33, 39],
    [22, 27, 32, 37],
    [21, 26, 30, 35],
    [20, 24, 29, 33],
    [19, 23, 27, 31],
    [18, 22, 26, 30],
    [17, 21, 25, 28],
    [16, 20, 23, 27],
    [15, 19, 22, 25],
    [14, 18, 21, 24],
    [14, 17, 20, 23],
    [13, 16, 19, 22],
    [12, 15, 18, 21],
    [12, 14, 17, 20],
    [11, 14, 16, 19],
    [11, 13, 15, 18],
    [10, 12, 15, 17],
    [10, 12, 14, 16],
    [9, 11, 13, 15],
    [9, 11, 12, 14],
    [8, 10, 12, 14],
    [8, 9, 11, 13],
    [7, 9, 11, 12],
    [7, 9, 10, 12],
    [7, 8, 10, 11],
    [6, 8, 9, 11],
    [6, 7, 9, 10],
    [6, 7, 8, 9],
    [2, 2, 2, 2],
];

/// State after the more probable symbol.
pub const TRANSITION_MPS: [u8; 64] = [
    1, 2, 3, 4, 5, 6, 7, 8, 9, 10, 11, 12, 13, 14, 15, 16, 17, 18, 19, 20, 21, 22, 23, 24, 25, 26,
    27, 28, 29, 30, 31, 32, 33, 34, 35, 36, 37, 38, 39, 40, 41, 42, 43, 44, 45, 46, 47, 48, 49, 50,
    51, 52, 53, 54, 55, 56, 57, 58, 59, 60, 61, 62, 62, 63,
];

/// State after the less probable symbol.
pub const TRANSITION_LPS: [u8; 64] = [
    0, 0, 1, 2, 2, 4, 4, 5, 6, 7, 8, 9, 9, 11, 11, 12, 13, 13, 15, 15, 16, 16, 18, 18, 19, 19, 21,
    21, 22, 22, 23, 24, 24, 25, 26, 26, 27, 27, 28, 29, 29, 30, 30, 30, 31, 32, 32, 33, 33, 33, 34,
    34, 35, 35, 35, 36, 36, 36, 37, 37, 37, 38, 38, 63,
];

/// Width of the less probable symbol in a state and a quarter of the range.
#[verifier::opaque]
pub open spec fn lps_width_at(state: int, quarter: int) -> int {
    RANGE_LPS[state][quarter] as int
}

/// State after the less probable symbol.
#[verifier::opaque]
pub open spec fn after_lps(state: u8) -> u8 {
    TRANSITION_LPS[state as int]
}

/// State after the more probable symbol.
#[verifier::opaque]
pub open spec fn after_mps(state: u8) -> u8 {
    TRANSITION_MPS[state as int]
}

/// Width of the less probable symbol in a state and a quarter of the range.
pub fn lps_width_of(state: u8, quarter: usize) -> (width: u16)
    requires
        state < 64,
        quarter < 4,
    ensures
        width == lps_width_at(state as int, quarter as int),
        2 <= width <= 240,
{
    reveal(lps_width_at);
    assert(forall|s: int, q: int|
        0 <= s < 64 && 0 <= q < 4 ==> 2 <= #[trigger] RANGE_LPS[s][q] <= 240);
    RANGE_LPS[state as usize][quarter]
}

/// State after the less probable symbol.
pub fn state_after_lps(state: u8) -> (next: u8)
    requires
        state < 64,
    ensures
        next == after_lps(state),
        next < 64,
{
    reveal(after_lps);
    assert(forall|s: int| 0 <= s < 64 ==> #[trigger] TRANSITION_LPS[s] < 64);
    TRANSITION_LPS[state as usize]
}

/// State after the more probable symbol.
pub fn state_after_mps(state: u8) -> (next: u8)
    requires
        state < 64,
    ensures
        next == after_mps(state),
        next < 64,
{
    reveal(after_mps);
    assert(forall|s: int| 0 <= s < 64 ==> #[trigger] TRANSITION_MPS[s] < 64);
    TRANSITION_MPS[state as usize]
}

} // verus!
