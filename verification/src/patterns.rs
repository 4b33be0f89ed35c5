//! Code numbers of coded block patterns.

use vstd::prelude::*;

verus! {

/// Patterns of macroblocks that are predicted block by block, in the order of their code numbers.
pub const INTRA4_CODED_BLOCK_PATTERN: [u8; 48] = [
    47, 31, 15, 0, 23, 27, 29, 30, 7, 11, 13, 14, 39, 43, 45, 46, 16, 3, 5, 10, 12, 19, 21, 26, 28,
    35, 37, 42, 44, 1, 2, 4, 8, 17, 18, 20, 24, 6, 9, 22, 25, 32, 33, 34, 36, 40, 38, 41,
];
/// Patterns of inter macroblocks, in the order of their code numbers.
pub const INTER_CODED_BLOCK_PATTERN: [u8; 48] = [
    0, 16, 1, 2, 4, 8, 32, 3, 5, 10, 12, 15, 47, 7, 11, 13, 14, 6, 9, 31, 35, 37, 42, 44, 33, 34,
    36, 40, 39, 43, 45, 46, 17, 18, 20, 24, 19, 21, 26, 28, 23, 27, 29, 30, 22, 25, 38, 41,
];

/// The pattern with a code number.
pub open spec fn pattern_of(intra: bool, code: int) -> int {
    if intra {
        INTRA4_CODED_BLOCK_PATTERN@[code] as int
    } else {
        INTER_CODED_BLOCK_PATTERN@[code] as int
    }
}

/// The code number of a pattern.
#[verifier::opaque]
pub open spec fn pattern_code(intra: bool, pattern: int) -> nat {
    choose|code: nat| code < 48 && #[trigger] pattern_of(intra, code as int) == pattern
}

/// No two code numbers stand for one pattern.
#[verifier::spinoff_prover]
pub proof fn law_patterns_differ(intra: bool, a: int, b: int)
    requires
        0 <= a < 48,
        0 <= b < 48,
        pattern_of(intra, a) == pattern_of(intra, b),
    ensures
        a == b,
{
    if intra {
        assert(forall|i: int, j: int|
            0 <= i < j < 48 ==> #[trigger] INTRA4_CODED_BLOCK_PATTERN@[i]
                != #[trigger] INTRA4_CODED_BLOCK_PATTERN@[j]);
    } else {
        assert(forall|i: int, j: int|
            0 <= i < j < 48 ==> #[trigger] INTER_CODED_BLOCK_PATTERN@[i]
                != #[trigger] INTER_CODED_BLOCK_PATTERN@[j]);
    }
}

/// Every pattern has a code number.
#[verifier::spinoff_prover]
proof fn lemma_pattern_found(intra: bool, pattern: int)
    requires
        0 <= pattern < 48,
    ensures
        exists|code: nat| code < 48 && #[trigger] pattern_of(intra, code as int) == pattern,
{
    if forall|code: nat| code < 48 ==> #[trigger] pattern_of(intra, code as int) != pattern {
        if intra {
            assert(pattern_of(true, 0) == 47 && pattern_of(true, 1) == 31 && pattern_of(true, 2)
                == 15 && pattern_of(true, 3) == 0 && pattern_of(true, 4) == 23 && pattern_of(
                true,
                5,
            ) == 27 && pattern_of(true, 6) == 29 && pattern_of(true, 7) == 30 && pattern_of(
                true,
                8,
            ) == 7 && pattern_of(true, 9) == 11 && pattern_of(true, 10) == 13 && pattern_of(
                true,
                11,
            ) == 14 && pattern_of(true, 12) == 39 && pattern_of(true, 13) == 43 && pattern_of(
                true,
                14,
            ) == 45 && pattern_of(true, 15) == 46);
            assert(pattern_of(true, 16) == 16 && pattern_of(true, 17) == 3 && pattern_of(true, 18)
                == 5 && pattern_of(true, 19) == 10 && pattern_of(true, 20) == 12 && pattern_of(
                true,
                21,
            ) == 19 && pattern_of(true, 22) == 21 && pattern_of(true, 23) == 26 && pattern_of(
                true,
                24,
            ) == 28 && pattern_of(true, 25) == 35 && pattern_of(true, 26) == 37 && pattern_of(
                true,
                27,
            ) == 42 && pattern_of(true, 28) == 44 && pattern_of(true, 29) == 1 && pattern_of(
                true,
                30,
            ) == 2 && pattern_of(true, 31) == 4);
            assert(pattern_of(true, 32) == 8 && pattern_of(true, 33) == 17 && pattern_of(true, 34)
                == 18 && pattern_of(true, 35) == 20 && pattern_of(true, 36) == 24 && pattern_of(
                true,
                37,
            ) == 6 && pattern_of(true, 38) == 9 && pattern_of(true, 39) == 22 && pattern_of(
                true,
                40,
            ) == 25 && pattern_of(true, 41) == 32 && pattern_of(true, 42) == 33 && pattern_of(
                true,
                43,
            ) == 34 && pattern_of(true, 44) == 36 && pattern_of(true, 45) == 40 && pattern_of(
                true,
                46,
            ) == 38 && pattern_of(true, 47) == 41);
        } else {
            assert(pattern_of(false, 0) == 0 && pattern_of(false, 1) == 16 && pattern_of(false, 2)
                == 1 && pattern_of(false, 3) == 2 && pattern_of(false, 4) == 4 && pattern_of(
                false,
                5,
            ) == 8 && pattern_of(false, 6) == 32 && pattern_of(false, 7) == 3 && pattern_of(
                false,
                8,
            ) == 5 && pattern_of(false, 9) == 10 && pattern_of(false, 10) == 12 && pattern_of(
                false,
                11,
            ) == 15 && pattern_of(false, 12) == 47 && pattern_of(false, 13) == 7 && pattern_of(
                false,
                14,
            ) == 11 && pattern_of(false, 15) == 13);
            assert(pattern_of(false, 16) == 14 && pattern_of(false, 17) == 6 && pattern_of(
                false,
                18,
            ) == 9 && pattern_of(false, 19) == 31 && pattern_of(false, 20) == 35 && pattern_of(
                false,
                21,
            ) == 37 && pattern_of(false, 22) == 42 && pattern_of(false, 23) == 44 && pattern_of(
                false,
                24,
            ) == 33 && pattern_of(false, 25) == 34 && pattern_of(false, 26) == 36 && pattern_of(
                false,
                27,
            ) == 40 && pattern_of(false, 28) == 39 && pattern_of(false, 29) == 43 && pattern_of(
                false,
                30,
            ) == 45 && pattern_of(false, 31) == 46);
            assert(pattern_of(false, 32) == 17 && pattern_of(false, 33) == 18 && pattern_of(
                false,
                34,
            ) == 20 && pattern_of(false, 35) == 24 && pattern_of(false, 36) == 19 && pattern_of(
                false,
                37,
            ) == 21 && pattern_of(false, 38) == 26 && pattern_of(false, 39) == 28 && pattern_of(
                false,
                40,
            ) == 23 && pattern_of(false, 41) == 27 && pattern_of(false, 42) == 29 && pattern_of(
                false,
                43,
            ) == 30 && pattern_of(false, 44) == 22 && pattern_of(false, 45) == 25 && pattern_of(
                false,
                46,
            ) == 38 && pattern_of(false, 47) == 41);
        }
        assert(false);
    }
}

/// The code number of a pattern stands for that pattern.
pub proof fn law_pattern_code(intra: bool, pattern: int)
    requires
        0 <= pattern < 48,
    ensures
        pattern_code(intra, pattern) < 48,
        pattern_of(intra, pattern_code(intra, pattern) as int) == pattern,
{
    reveal(pattern_code);
    lemma_pattern_found(intra, pattern);
}

/// Finds the code number of a pattern.
pub fn code_of_pattern(intra: bool, pattern: u8) -> (code: u64)
    requires
        pattern < 48,
    ensures
        code == pattern_code(intra, pattern as int),
        code < 48,
{
    let ghost found = pattern_code(intra, pattern as int) as int;
    proof {
        law_pattern_code(intra, pattern as int);
    }
    let mut code: usize = 0;
    while code < 47
        invariant
            code <= found < 48,
            found == pattern_code(intra, pattern as int),
            pattern_of(intra, found) == pattern,
        decreases 48 - code,
    {
        let entry: u8 = if intra {
            INTRA4_CODED_BLOCK_PATTERN[code]
        } else {
            INTER_CODED_BLOCK_PATTERN[code]
        };
        if entry == pattern {
            proof {
                law_patterns_differ(intra, code as int, found);
            }
            return code as u64;
        }
        assert(code != found);
        code = code + 1;
    }
    47
}

} // verus!
