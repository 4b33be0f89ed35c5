//! The residual code tables are prefix free.

use vstd::prelude::*;

use crate::residual_tables::{
    run_codes, run_lengths, token_codes, token_lengths, token_table, zeros_codes, zeros_lengths,
    CHROMA_DC_COEFF_TOKEN_BITS, CHROMA_DC_COEFF_TOKEN_LEN, CHROMA_DC_TOTAL_ZEROS_BITS,
    CHROMA_DC_TOTAL_ZEROS_LEN, COEFF_TOKEN_BITS, COEFF_TOKEN_LEN, RUN_BITS, RUN_LEN,
    TOTAL_ZEROS_BITS, TOTAL_ZEROS_LEN,
};

verus! {

/// How many sixteen-bit words start with a code of the given length.
pub open spec fn width(length: int) -> int {
    if length == 1 {
        32768
    } else if length == 2 {
        16384
    } else if length == 3 {
        8192
    } else if length == 4 {
        4096
    } else if length == 5 {
        2048
    } else if length == 6 {
        1024
    } else if length == 7 {
        512
    } else if length == 8 {
        256
    } else if length == 9 {
        128
    } else if length == 10 {
        64
    } else if length == 11 {
        32
    } else if length == 12 {
        16
    } else if length == 13 {
        8
    } else if length == 14 {
        4
    } else if length == 15 {
        2
    } else {
        1
    }
}

/// The first sixteen-bit word that starts with a code.
pub open spec fn low(length: u8, code: u16) -> int {
    if length == 1 {
        code * 32768
    } else if length == 2 {
        code * 16384
    } else if length == 3 {
        code * 8192
    } else if length == 4 {
        code * 4096
    } else if length == 5 {
        code * 2048
    } else if length == 6 {
        code * 1024
    } else if length == 7 {
        code * 512
    } else if length == 8 {
        code * 256
    } else if length == 9 {
        code * 128
    } else if length == 10 {
        code * 64
    } else if length == 11 {
        code * 32
    } else if length == 12 {
        code * 16
    } else if length == 13 {
        code * 8
    } else if length == 14 {
        code * 4
    } else if length == 15 {
        code * 2
    } else {
        code as int
    }
}

pub proof fn lemma_low(length: u8, code: u16)
    requires
        1 <= length <= 16,
    ensures
        low(length, code) == code * width(length as int),
{
    let factor = width(length as int);
    assert(code * factor == low(length, code)) by (nonlinear_arith)
        requires
            factor == width(length as int),
            1 <= length <= 16,
    ;
}

/// The first sixteen-bit word after those that start with a code.
pub open spec fn high(length: u8, code: u16) -> int {
    low(length, code) + width(length as int)
}

/// Whether no word starts with both of two codes.
pub open spec fn apart(
    first_length: u8,
    first_code: u16,
    second_length: u8,
    second_code: u16,
) -> bool {
    high(first_length, first_code) <= low(second_length, second_code) || high(
        second_length,
        second_code,
    ) <= low(first_length, first_code)
}

/// Whether no code of a table starts another, and every code fits its length.
pub open spec fn prefix_free(lengths: Seq<u8>, codes: Seq<u16>) -> bool {
    &&& lengths.len() == codes.len()
    &&& forall|k: int|
        0 <= k < lengths.len() ==> (#[trigger] lengths[k]) <= 16 && (lengths[k] > 0 ==> high(
            lengths[k],
            codes[k],
        ) <= 65536)
    &&& forall|j: int, k: int|
        0 <= j < k < lengths.len() && #[trigger] lengths[j] > 0 && #[trigger] lengths[k] > 0
            ==> apart(lengths[j], codes[j], lengths[k], codes[k])
}

#[verifier::spinoff_prover]
#[verifier::rlimit(60)]
proof fn lemma_chroma_token_table()
    ensures
        forall|k: int|
            0 <= k < 20 ==> (#[trigger] CHROMA_DC_COEFF_TOKEN_LEN[k]) <= 16 && (CHROMA_DC_COEFF_TOKEN_LEN[k] > 0 ==> high(CHROMA_DC_COEFF_TOKEN_LEN[k], CHROMA_DC_COEFF_TOKEN_BITS[k]) <= 65536),
        forall|j: int, k: int|
            0 <= j < k < 20 && #[trigger] CHROMA_DC_COEFF_TOKEN_LEN[j] > 0 && #[trigger] CHROMA_DC_COEFF_TOKEN_LEN[k] > 0 ==> apart(
                CHROMA_DC_COEFF_TOKEN_LEN[j],
                CHROMA_DC_COEFF_TOKEN_BITS[j],
                CHROMA_DC_COEFF_TOKEN_LEN[k],
                CHROMA_DC_COEFF_TOKEN_BITS[k],
            ),
{
}

#[verifier::spinoff_prover]
#[verifier::rlimit(60)]
proof fn lemma_sparse_token_table()
    ensures
        forall|k: int|
            0 <= k < 68 ==> (#[trigger] COEFF_TOKEN_LEN[0][k]) <= 16 && (COEFF_TOKEN_LEN[0][k] > 0 ==> high(COEFF_TOKEN_LEN[0][k], COEFF_TOKEN_BITS[0][k]) <= 65536),
        forall|j: int, k: int|
            0 <= j < k < 68 && #[trigger] COEFF_TOKEN_LEN[0][j] > 0 && #[trigger] COEFF_TOKEN_LEN[0][k] > 0 ==> apart(
                COEFF_TOKEN_LEN[0][j],
                COEFF_TOKEN_BITS[0][j],
                COEFF_TOKEN_LEN[0][k],
                COEFF_TOKEN_BITS[0][k],
            ),
{
}

#[verifier::spinoff_prover]
#[verifier::rlimit(60)]
proof fn lemma_light_token_table()
    ensures
        forall|k: int|
            0 <= k < 68 ==> (#[trigger] COEFF_TOKEN_LEN[1][k]) <= 16 && (COEFF_TOKEN_LEN[1][k] > 0 ==> high(COEFF_TOKEN_LEN[1][k], COEFF_TOKEN_BITS[1][k]) <= 65536),
        forall|j: int, k: int|
            0 <= j < k < 68 && #[trigger] COEFF_TOKEN_LEN[1][j] > 0 && #[trigger] COEFF_TOKEN_LEN[1][k] > 0 ==> apart(
                COEFF_TOKEN_LEN[1][j],
                COEFF_TOKEN_BITS[1][j],
                COEFF_TOKEN_LEN[1][k],
                COEFF_TOKEN_BITS[1][k],
            ),
{
}

#[verifier::spinoff_prover]
#[verifier::rlimit(60)]
proof fn lemma_dense_token_table()
    ensures
        forall|k: int|
            0 <= k < 68 ==> (#[trigger] COEFF_TOKEN_LEN[2][k]) <= 16 && (COEFF_TOKEN_LEN[2][k] > 0 ==> high(COEFF_TOKEN_LEN[2][k], COEFF_TOKEN_BITS[2][k]) <= 65536),
        forall|j: int, k: int|
            0 <= j < k < 68 && #[trigger] COEFF_TOKEN_LEN[2][j] > 0 && #[trigger] COEFF_TOKEN_LEN[2][k] > 0 ==> apart(
                COEFF_TOKEN_LEN[2][j],
                COEFF_TOKEN_BITS[2][j],
                COEFF_TOKEN_LEN[2][k],
                COEFF_TOKEN_BITS[2][k],
            ),
{
}

#[verifier::spinoff_prover]
#[verifier::rlimit(60)]
proof fn lemma_fixed_token_table()
    ensures
        forall|k: int|
            0 <= k < 68 ==> (#[trigger] COEFF_TOKEN_LEN[3][k]) <= 16 && (COEFF_TOKEN_LEN[3][k] > 0 ==> high(COEFF_TOKEN_LEN[3][k], COEFF_TOKEN_BITS[3][k]) <= 65536),
        forall|j: int, k: int|
            0 <= j < k < 68 && #[trigger] COEFF_TOKEN_LEN[3][j] > 0 && #[trigger] COEFF_TOKEN_LEN[3][k] > 0 ==> apart(
                COEFF_TOKEN_LEN[3][j],
                COEFF_TOKEN_BITS[3][j],
                COEFF_TOKEN_LEN[3][k],
                COEFF_TOKEN_BITS[3][k],
            ),
{
}

#[verifier::spinoff_prover]
#[verifier::rlimit(60)]
proof fn lemma_chroma_zeros_table()
    ensures
        forall|r: int, k: int|
            0 <= r < 3 && 0 <= k < 4 ==> (#[trigger] CHROMA_DC_TOTAL_ZEROS_LEN[r][k]) <= 16 && (CHROMA_DC_TOTAL_ZEROS_LEN[r][k] > 0 ==> high(
                CHROMA_DC_TOTAL_ZEROS_LEN[r][k],
                CHROMA_DC_TOTAL_ZEROS_BITS[r][k],
            ) <= 65536),
        forall|r: int, j: int, k: int|
            0 <= r < 3 && 0 <= j < k < 4 && #[trigger] CHROMA_DC_TOTAL_ZEROS_LEN[r][j] > 0 && #[trigger] CHROMA_DC_TOTAL_ZEROS_LEN[r][k] > 0
                ==> apart(CHROMA_DC_TOTAL_ZEROS_LEN[r][j], CHROMA_DC_TOTAL_ZEROS_BITS[r][j], CHROMA_DC_TOTAL_ZEROS_LEN[r][k], CHROMA_DC_TOTAL_ZEROS_BITS[r][k]),
{
}

#[verifier::spinoff_prover]
#[verifier::rlimit(60)]
proof fn lemma_zeros_table()
    ensures
        forall|r: int, k: int|
            0 <= r < 15 && 0 <= k < 16 ==> (#[trigger] TOTAL_ZEROS_LEN[r][k]) <= 16 && (TOTAL_ZEROS_LEN[r][k] > 0 ==> high(
                TOTAL_ZEROS_LEN[r][k],
                TOTAL_ZEROS_BITS[r][k],
            ) <= 65536),
        forall|r: int, j: int, k: int|
            0 <= r < 15 && 0 <= j < k < 16 && #[trigger] TOTAL_ZEROS_LEN[r][j] > 0 && #[trigger] TOTAL_ZEROS_LEN[r][k] > 0
                ==> apart(TOTAL_ZEROS_LEN[r][j], TOTAL_ZEROS_BITS[r][j], TOTAL_ZEROS_LEN[r][k], TOTAL_ZEROS_BITS[r][k]),
{
}

#[verifier::spinoff_prover]
#[verifier::rlimit(60)]
proof fn lemma_run_table()
    ensures
        forall|r: int, k: int|
            0 <= r < 7 && 0 <= k < 16 ==> (#[trigger] RUN_LEN[r][k]) <= 16 && (RUN_LEN[r][k] > 0 ==> high(
                RUN_LEN[r][k],
                RUN_BITS[r][k],
            ) <= 65536),
        forall|r: int, j: int, k: int|
            0 <= r < 7 && 0 <= j < k < 16 && #[trigger] RUN_LEN[r][j] > 0 && #[trigger] RUN_LEN[r][k] > 0
                ==> apart(RUN_LEN[r][j], RUN_BITS[r][j], RUN_LEN[r][k], RUN_BITS[r][k]),
{
}

#[verifier::spinoff_prover]
#[verifier::rlimit(40)]
pub proof fn lemma_token_prefix_free(n_c: int)
    ensures
        prefix_free(token_lengths(n_c), token_codes(n_c)),
{
    reveal(token_lengths);
    reveal(token_codes);
    if n_c == -1 {
        lemma_chroma_token_table();
    } else if token_table(n_c) == 0 {
        lemma_sparse_token_table();
    } else if token_table(n_c) == 1 {
        lemma_light_token_table();
    } else if token_table(n_c) == 2 {
        lemma_dense_token_table();
    } else {
        lemma_fixed_token_table();
    }
}

pub proof fn lemma_zeros_prefix_free(total: int, size: int)
    requires
        1 <= total <= if size == 4 {
            3int
        } else {
            15int
        },
    ensures
        prefix_free(zeros_lengths(total, size), zeros_codes(total, size)),
{
    reveal(zeros_lengths);
    reveal(zeros_codes);
    if size == 4 {
        lemma_chroma_zeros_table();
    } else {
        lemma_zeros_table();
    }
}

pub proof fn lemma_run_prefix_free(zeros_left: int)
    requires
        1 <= zeros_left,
    ensures
        prefix_free(run_lengths(zeros_left), run_codes(zeros_left)),
{
    reveal(run_lengths);
    reveal(run_codes);
    lemma_run_table();
}

pub proof fn lemma_run_longest(zeros_left: int, run: int)
    requires
        1 <= zeros_left,
        0 <= run < 16,
    ensures
        run_lengths(zeros_left)[run] <= 11,
        run_lengths(zeros_left).len() == 16,
{
    reveal(run_lengths);
    assert(forall|r: int, i: int| 0 <= r < 7 && 0 <= i < 16 ==> #[trigger] RUN_LEN[r]@[i] <= 11);
}

pub proof fn lemma_zeros_longest(total: int, size: int, zeros: int)
    requires
        1 <= total <= if size == 4 {
            3int
        } else {
            15int
        },
        0 <= zeros < zeros_lengths(total, size).len(),
    ensures
        zeros_lengths(total, size)[zeros] <= if size == 4 {
            3int
        } else {
            9int
        },
{
    reveal(zeros_lengths);
    if size == 4 {
        assert(forall|r: int, i: int|
            0 <= r < 3 && 0 <= i < 4 ==> #[trigger] CHROMA_DC_TOTAL_ZEROS_LEN[r]@[i] <= 3);
    } else {
        assert(forall|r: int, i: int|
            0 <= r < 15 && 0 <= i < 16 ==> #[trigger] TOTAL_ZEROS_LEN[r]@[i] <= 9);
    }
}

} // verus!
