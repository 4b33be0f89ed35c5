//! The code tables of residual blocks.

use vstd::prelude::*;

use crate::bits::{BitReader, BitWriter};
use crate::codes::{code_read, decode_vlc, entry_bits, stepped, write_entry, Step};
use crate::error::{Error, Fault};

verus! {

/// Code lengths of the coefficient counts, by context and by four times the count plus the trailing ones.
pub const COEFF_TOKEN_LEN: [[u8; 68]; 4] = [
    [
        1, 0, 0, 0, 6, 2, 0, 0, 8, 6, 3, 0, 9, 8, 7, 5, 10, 9, 8, 6, 11, 10, 9, 7, 13, 11, 10, 8,
        13, 13, 11, 9, 13, 13, 13, 10, 14, 14, 13, 11, 14, 14, 14, 13, 15, 15, 14, 14, 15, 15, 15,
        14, 16, 15, 15, 15, 16, 16, 16, 15, 16, 16, 16, 16, 16, 16, 16, 16,
    ],
    [
        2, 0, 0, 0, 6, 2, 0, 0, 6, 5, 3, 0, 7, 6, 6, 4, 8, 6, 6, 4, 8, 7, 7, 5, 9, 8, 8, 6, 11, 9,
        9, 6, 11, 11, 11, 7, 12, 11, 11, 9, 12, 12, 12, 11, 12, 12, 12, 11, 13, 13, 13, 12, 13, 13,
        13, 13, 13, 14, 13, 13, 14, 14, 14, 13, 14, 14, 14, 14,
    ],
    [
        4, 0, 0, 0, 6, 4, 0, 0, 6, 5, 4, 0, 6, 5, 5, 4, 7, 5, 5, 4, 7, 5, 5, 4, 7, 6, 6, 4, 7, 6,
        6, 4, 8, 7, 7, 5, 8, 8, 7, 6, 9, 8, 8, 7, 9, 9, 8, 8, 9, 9, 9, 8, 10, 9, 9, 9, 10, 10, 10,
        10, 10, 10, 10, 10, 10, 10, 10, 10,
    ],
    [
        6, 0, 0, 0, 6, 6, 0, 0, 6, 6, 6, 0, 6, 6, 6, 6, 6, 6, 6, 6, 6, 6, 6, 6, 6, 6, 6, 6, 6, 6,
        6, 6, 6, 6, 6, 6, 6, 6, 6, 6, 6, 6, 6, 6, 6, 6, 6, 6, 6, 6, 6, 6, 6, 6, 6, 6, 6, 6, 6, 6,
        6, 6, 6, 6, 6, 6, 6, 6,
    ],
];

/// Codes of the coefficient counts.
pub const COEFF_TOKEN_BITS: [[u16; 68]; 4] = [
    [
        1, 0, 0, 0, 5, 1, 0, 0, 7, 4, 1, 0, 7, 6, 5, 3, 7, 6, 5, 3, 7, 6, 5, 4, 15, 6, 5, 4, 11,
        14, 5, 4, 8, 10, 13, 4, 15, 14, 9, 4, 11, 10, 13, 12, 15, 14, 9, 12, 11, 10, 13, 8, 15, 1,
        9, 12, 11, 14, 13, 8, 7, 10, 9, 12, 4, 6, 5, 8,
    ],
    [
        3, 0, 0, 0, 11, 2, 0, 0, 7, 7, 3, 0, 7, 10, 9, 5, 7, 6, 5, 4, 4, 6, 5, 6, 7, 6, 5, 8, 15,
        6, 5, 4, 11, 14, 13, 4, 15, 10, 9, 4, 11, 14, 13, 12, 8, 10, 9, 8, 15, 14, 13, 12, 11, 10,
        9, 12, 7, 11, 6, 8, 9, 8, 10, 1, 7, 6, 5, 4,
    ],
    [
        15, 0, 0, 0, 15, 14, 0, 0, 11, 15, 13, 0, 8, 12, 14, 12, 15, 10, 11, 11, 11, 8, 9, 10, 9,
        14, 13, 9, 8, 10, 9, 8, 15, 14, 13, 13, 11, 14, 10, 12, 15, 10, 13, 12, 11, 14, 9, 12, 8,
        10, 13, 8, 13, 7, 9, 12, 9, 12, 11, 10, 5, 8, 7, 6, 1, 4, 3, 2,
    ],
    [
        3, 0, 0, 0, 0, 1, 0, 0, 4, 5, 6, 0, 8, 9, 10, 11, 12, 13, 14, 15, 16, 17, 18, 19, 20, 21,
        22, 23, 24, 25, 26, 27, 28, 29, 30, 31, 32, 33, 34, 35, 36, 37, 38, 39, 40, 41, 42, 43, 44,
        45, 46, 47, 48, 49, 50, 51, 52, 53, 54, 55, 56, 57, 58, 59, 60, 61, 62, 63,
    ],
];

/// Code lengths of the coefficient counts of a chroma DC block.
pub const CHROMA_DC_COEFF_TOKEN_LEN: [u8; 20] =
    [2, 0, 0, 0, 6, 1, 0, 0, 6, 6, 3, 0, 6, 7, 7, 6, 6, 8, 8, 7];
/// Codes of the coefficient counts of a chroma DC block.
pub const CHROMA_DC_COEFF_TOKEN_BITS: [u16; 20] =
    [1, 0, 0, 0, 7, 1, 0, 0, 4, 6, 1, 0, 3, 3, 2, 5, 2, 3, 2, 0];

/// Code lengths of the number of zeros, by coefficient count less one.
pub const TOTAL_ZEROS_LEN: [[u8; 16]; 15] = [
    [1, 3, 3, 4, 4, 5, 5, 6, 6, 7, 7, 8, 8, 9, 9, 9],
    [3, 3, 3, 3, 3, 4, 4, 4, 4, 5, 5, 6, 6, 6, 6, 0],
    [4, 3, 3, 3, 4, 4, 3, 3, 4, 5, 5, 6, 5, 6, 0, 0],
    [5, 3, 4, 4, 3, 3, 3, 4, 3, 4, 5, 5, 5, 0, 0, 0],
    [4, 4, 4, 3, 3, 3, 3, 3, 4, 5, 4, 5, 0, 0, 0, 0],
    [6, 5, 3, 3, 3, 3, 3, 3, 4, 3, 6, 0, 0, 0, 0, 0],
    [6, 5, 3, 3, 3, 2, 3, 4, 3, 6, 0, 0, 0, 0, 0, 0],
    [6, 4, 5, 3, 2, 2, 3, 3, 6, 0, 0, 0, 0, 0, 0, 0],
    [6, 6, 4, 2, 2, 3, 2, 5, 0, 0, 0, 0, 0, 0, 0, 0],
    [5, 5, 3, 2, 2, 2, 4, 0, 0, 0, 0, 0, 0, 0, 0, 0],
    [4, 4, 3, 3, 1, 3, 0, 0, 0, 0, 0, 0, 0, 0, 0, 0],
    [4, 4, 2, 1, 3, 0, 0, 0, 0, 0, 0, 0, 0, 0, 0, 0],
    [3, 3, 1, 2, 0, 0, 0, 0, 0, 0, 0, 0, 0, 0, 0, 0],
    [2, 2, 1, 0, 0, 0, 0, 0, 0, 0, 0, 0, 0, 0, 0, 0],
    [1, 1, 0, 0, 0, 0, 0, 0, 0, 0, 0, 0, 0, 0, 0, 0],
];

/// Codes of the number of zeros.
pub const TOTAL_ZEROS_BITS: [[u16; 16]; 15] = [
    [1, 3, 2, 3, 2, 3, 2, 3, 2, 3, 2, 3, 2, 3, 2, 1],
    [7, 6, 5, 4, 3, 5, 4, 3, 2, 3, 2, 3, 2, 1, 0, 0],
    [5, 7, 6, 5, 4, 3, 4, 3, 2, 3, 2, 1, 1, 0, 0, 0],
    [3, 7, 5, 4, 6, 5, 4, 3, 3, 2, 2, 1, 0, 0, 0, 0],
    [5, 4, 3, 7, 6, 5, 4, 3, 2, 1, 1, 0, 0, 0, 0, 0],
    [1, 1, 7, 6, 5, 4, 3, 2, 1, 1, 0, 0, 0, 0, 0, 0],
    [1, 1, 5, 4, 3, 3, 2, 1, 1, 0, 0, 0, 0, 0, 0, 0],
    [1, 1, 1, 3, 3, 2, 2, 1, 0, 0, 0, 0, 0, 0, 0, 0],
    [1, 0, 1, 3, 2, 1, 1, 1, 0, 0, 0, 0, 0, 0, 0, 0],
    [1, 0, 1, 3, 2, 1, 1, 0, 0, 0, 0, 0, 0, 0, 0, 0],
    [0, 1, 1, 2, 1, 3, 0, 0, 0, 0, 0, 0, 0, 0, 0, 0],
    [0, 1, 1, 1, 1, 0, 0, 0, 0, 0, 0, 0, 0, 0, 0, 0],
    [0, 1, 1, 1, 0, 0, 0, 0, 0, 0, 0, 0, 0, 0, 0, 0],
    [0, 1, 1, 0, 0, 0, 0, 0, 0, 0, 0, 0, 0, 0, 0, 0],
    [0, 1, 0, 0, 0, 0, 0, 0, 0, 0, 0, 0, 0, 0, 0, 0],
];

/// Code lengths of the number of zeros of a chroma DC block.
pub const CHROMA_DC_TOTAL_ZEROS_LEN: [[u8; 4]; 3] = [[1, 2, 3, 3], [1, 2, 2, 0], [1, 1, 0, 0]];
/// Codes of the number of zeros of a chroma DC block.
pub const CHROMA_DC_TOTAL_ZEROS_BITS: [[u16; 4]; 3] = [[1, 1, 1, 0], [1, 1, 0, 0], [1, 0, 0, 0]];

/// Code lengths of a run of zeros, by the zeros that are left less one.
pub const RUN_LEN: [[u8; 16]; 7] = [
    [1, 1, 0, 0, 0, 0, 0, 0, 0, 0, 0, 0, 0, 0, 0, 0],
    [1, 2, 2, 0, 0, 0, 0, 0, 0, 0, 0, 0, 0, 0, 0, 0],
    [2, 2, 2, 2, 0, 0, 0, 0, 0, 0, 0, 0, 0, 0, 0, 0],
    [2, 2, 2, 3, 3, 0, 0, 0, 0, 0, 0, 0, 0, 0, 0, 0],
    [2, 2, 3, 3, 3, 3, 0, 0, 0, 0, 0, 0, 0, 0, 0, 0],
    [2, 3, 3, 3, 3, 3, 3, 0, 0, 0, 0, 0, 0, 0, 0, 0],
    [3, 3, 3, 3, 3, 3, 3, 4, 5, 6, 7, 8, 9, 10, 11, 0],
];
/// Codes of a run of zeros.
pub const RUN_BITS: [[u16; 16]; 7] = [
    [1, 0, 0, 0, 0, 0, 0, 0, 0, 0, 0, 0, 0, 0, 0, 0],
    [1, 1, 0, 0, 0, 0, 0, 0, 0, 0, 0, 0, 0, 0, 0, 0],
    [3, 2, 1, 0, 0, 0, 0, 0, 0, 0, 0, 0, 0, 0, 0, 0],
    [3, 2, 1, 1, 0, 0, 0, 0, 0, 0, 0, 0, 0, 0, 0, 0],
    [3, 2, 3, 2, 1, 0, 0, 0, 0, 0, 0, 0, 0, 0, 0, 0],
    [3, 0, 1, 3, 2, 5, 4, 0, 0, 0, 0, 0, 0, 0, 0, 0],
    [7, 6, 5, 4, 3, 2, 1, 1, 1, 1, 1, 1, 1, 1, 1, 0],
];

/// The context table for a predicted coefficient count.
pub open spec fn token_table(n_c: int) -> int {
    if n_c <= 1 {
        0
    } else if n_c <= 3 {
        1
    } else if n_c <= 7 {
        2
    } else {
        3
    }
}

/// Code lengths of the coefficient counts in a context.
#[verifier::opaque]
pub open spec fn token_lengths(n_c: int) -> Seq<u8> {
    if n_c == -1 {
        CHROMA_DC_COEFF_TOKEN_LEN@
    } else {
        COEFF_TOKEN_LEN[token_table(n_c)]@
    }
}

/// Codes of the coefficient counts in a context.
#[verifier::opaque]
pub open spec fn token_codes(n_c: int) -> Seq<u16> {
    if n_c == -1 {
        CHROMA_DC_COEFF_TOKEN_BITS@
    } else {
        COEFF_TOKEN_BITS[token_table(n_c)]@
    }
}

/// Code lengths of the number of zeros.
#[verifier::opaque]
pub open spec fn zeros_lengths(total: int, size: int) -> Seq<u8> {
    if size == 4 {
        CHROMA_DC_TOTAL_ZEROS_LEN[total - 1]@
    } else {
        TOTAL_ZEROS_LEN[total - 1]@
    }
}

/// Codes of the number of zeros.
#[verifier::opaque]
pub open spec fn zeros_codes(total: int, size: int) -> Seq<u16> {
    if size == 4 {
        CHROMA_DC_TOTAL_ZEROS_BITS[total - 1]@
    } else {
        TOTAL_ZEROS_BITS[total - 1]@
    }
}

/// The table row for a number of zeros that are left.
pub open spec fn run_row(zeros_left: int) -> int {
    if zeros_left < 7 {
        zeros_left - 1
    } else {
        6
    }
}

/// Code lengths of a run of zeros.
#[verifier::opaque]
pub open spec fn run_lengths(zeros_left: int) -> Seq<u8> {
    RUN_LEN[run_row(zeros_left)]@
}

/// Codes of a run of zeros.
#[verifier::opaque]
pub open spec fn run_codes(zeros_left: int) -> Seq<u16> {
    RUN_BITS[run_row(zeros_left)]@
}

/// Reads the coefficient counts, as four times the count plus the trailing ones.
pub open spec fn token_read(bits: Seq<bool>, at: int, n_c: int) -> Step<int> {
    code_read(
        bits,
        at,
        token_lengths(n_c),
        token_codes(n_c),
        1,
        16,
        Fault::CoefficientTokenCode,
    )
}

/// Reads the number of zeros.
pub open spec fn zeros_read(bits: Seq<bool>, at: int, total: int, size: int) -> Step<int> {
    code_read(
        bits,
        at,
        zeros_lengths(total, size),
        zeros_codes(total, size),
        1,
        if size == 4 {
            3
        } else {
            9
        },
        Fault::TotalZerosCode,
    )
}

/// Reads a run of zeros.
pub open spec fn run_read(bits: Seq<bool>, at: int, zeros_left: int) -> Step<int> {
    code_read(
        bits,
        at,
        run_lengths(zeros_left),
        run_codes(zeros_left),
        1,
        11,
        Fault::RunBeforeCode,
    )
}

/// Writes the coefficient counts.
///
/// # Errors
///
/// Returns an error when the table has no code for them.
pub fn write_coeff_token(
    writer: &mut BitWriter,
    n_c: i8,
    total_coeff: u8,
    trailing_ones: u8,
) -> (result: Result<(), Error>)
    ensures
        match entry_bits(
            token_lengths(n_c as int),
            token_codes(n_c as int),
            4 * total_coeff + trailing_ones,
        ) {
            Some(bits) => result == Ok::<(), Error>(()) && final(writer)@ == old(writer)@ + bits,
            None => result == Err::<(), Error>(Error::InvalidData(Fault::CoefficientToken))
                && final(writer)@ == old(writer)@,
        },
{
    proof {
        reveal(token_lengths);
        reveal(token_codes);
    }
    let index: usize = 4 * total_coeff as usize + trailing_ones as usize;
    if n_c == -1 {
        let lengths: [u8; 20] = CHROMA_DC_COEFF_TOKEN_LEN;
        let codes: [u16; 20] = CHROMA_DC_COEFF_TOKEN_BITS;
        write_entry(writer, lengths.as_slice(), codes.as_slice(), index, Fault::CoefficientToken)
    } else {
        let table: usize = if n_c <= 1 {
            0
        } else if n_c <= 3 {
            1
        } else if n_c <= 7 {
            2
        } else {
            3
        };
        let lengths: [u8; 68] = COEFF_TOKEN_LEN[table];
        let codes: [u16; 68] = COEFF_TOKEN_BITS[table];
        proof {
            lemma_token_lengths(table as int);
        }
        write_entry(writer, lengths.as_slice(), codes.as_slice(), index, Fault::CoefficientToken)
    }
}

proof fn lemma_token_lengths(table: int)
    requires
        0 <= table < 4,
    ensures
        forall|i: int| 0 <= i < 68 ==> #[trigger] COEFF_TOKEN_LEN[table]@[i] <= 16,
{
    if table == 0 {
        assert(forall|i: int| 0 <= i < 68 ==> #[trigger] COEFF_TOKEN_LEN[0]@[i] <= 16);
    } else if table == 1 {
        assert(forall|i: int| 0 <= i < 68 ==> #[trigger] COEFF_TOKEN_LEN[1]@[i] <= 16);
    } else if table == 2 {
        assert(forall|i: int| 0 <= i < 68 ==> #[trigger] COEFF_TOKEN_LEN[2]@[i] <= 16);
    } else {
        assert(forall|i: int| 0 <= i < 68 ==> #[trigger] COEFF_TOKEN_LEN[3]@[i] <= 16);
    }
}

/// Writes the number of zeros.
///
/// # Errors
///
/// Returns an error when the table has no code for it.
pub fn write_total_zeros(
    writer: &mut BitWriter,
    total_coeff: u8,
    max_num_coeff: u8,
    total_zeros: u8,
) -> (result: Result<(), Error>)
    requires
        1 <= total_coeff <= if max_num_coeff == 4 {
            3int
        } else {
            15int
        },
    ensures
        match entry_bits(
            zeros_lengths(total_coeff as int, max_num_coeff as int),
            zeros_codes(total_coeff as int, max_num_coeff as int),
            total_zeros as int,
        ) {
            Some(bits) => result == Ok::<(), Error>(()) && final(writer)@ == old(writer)@ + bits,
            None => result == Err::<(), Error>(Error::InvalidData(Fault::TotalZeros)) && final(
                writer)@ == old(writer)@,
        },
{
    proof {
        reveal(zeros_lengths);
        reveal(zeros_codes);
    }
    let row: usize = (total_coeff - 1) as usize;
    if max_num_coeff == 4 {
        let lengths: [u8; 4] = CHROMA_DC_TOTAL_ZEROS_LEN[row];
        let codes: [u16; 4] = CHROMA_DC_TOTAL_ZEROS_BITS[row];
        proof {
            lemma_zeros_lengths(total_coeff as int, 4);
        }
        write_entry(
            writer,
            lengths.as_slice(),
            codes.as_slice(),
            total_zeros as usize,
            Fault::TotalZeros,
        )
    } else {
        let lengths: [u8; 16] = TOTAL_ZEROS_LEN[row];
        let codes: [u16; 16] = TOTAL_ZEROS_BITS[row];
        proof {
            lemma_zeros_lengths(total_coeff as int, 16);
        }
        write_entry(
            writer,
            lengths.as_slice(),
            codes.as_slice(),
            total_zeros as usize,
            Fault::TotalZeros,
        )
    }
}

proof fn lemma_zeros_lengths(total: int, size: int)
    requires
        1 <= total <= if size == 4 {
            3int
        } else {
            15int
        },
    ensures
        forall|i: int|
            0 <= i < zeros_lengths(total, size).len() ==> #[trigger] zeros_lengths(total, size)[i]
                <= 16,
{
    reveal(zeros_lengths);
    if size == 4 {
        assert(forall|r: int, i: int|
            0 <= r < 3 && 0 <= i < 4 ==> #[trigger] CHROMA_DC_TOTAL_ZEROS_LEN[r]@[i] <= 16);
    } else {
        assert(forall|r: int, i: int|
            0 <= r < 15 && 0 <= i < 16 ==> #[trigger] TOTAL_ZEROS_LEN[r]@[i] <= 16);
    }
}

/// Writes a run of zeros.
///
/// # Errors
///
/// Returns an error when the table has no code for it.
pub fn write_run_before(writer: &mut BitWriter, zeros_left: u8, run: u8) -> (result: Result<
    (),
    Error,
>)
    requires
        zeros_left >= 1,
    ensures
        match entry_bits(
            run_lengths(zeros_left as int),
            run_codes(zeros_left as int),
            run as int,
        ) {
            Some(bits) => result == Ok::<(), Error>(()) && final(writer)@ == old(writer)@ + bits,
            None => result == Err::<(), Error>(Error::InvalidData(Fault::RunBefore)) && final(
                writer)@ == old(writer)@,
        },
{
    proof {
        reveal(run_lengths);
        reveal(run_codes);
    }
    let row: usize = if zeros_left < 7 {
        (zeros_left - 1) as usize
    } else {
        6
    };
    let lengths: [u8; 16] = RUN_LEN[row];
    let codes: [u16; 16] = RUN_BITS[row];
    assert(forall|r: int, i: int| 0 <= r < 7 && 0 <= i < 16 ==> #[trigger] RUN_LEN[r]@[i] <= 16);
    write_entry(writer, lengths.as_slice(), codes.as_slice(), run as usize, Fault::RunBefore)
}

/// A run between two neighbouring coefficients is no longer than the zeros below the first one,
/// and the table has a code for it.
pub proof fn lemma_run_entry(zeros_left: int, run: int)
    requires
        1 <= zeros_left <= 14,
        0 <= run <= zeros_left,
    ensures
        entry_bits(run_lengths(zeros_left), run_codes(zeros_left), run) is Some,
{
    reveal(run_lengths);
    assert(forall|r: int, i: int|
        0 <= r < 7 && 0 <= i <= r + 1 ==> #[trigger] RUN_LEN[r]@[i] != 0);
    assert(forall|i: int| 0 <= i <= 14 ==> #[trigger] RUN_LEN[6]@[i] != 0);
}

/// A context for a block's own count has a code for every count, that of chroma means for every
/// count up to four.
pub proof fn lemma_token_entry(n_c: int, total: int, ones: int)
    requires
        0 <= n_c && total <= 16 || n_c == -1 && total <= 4,
        0 <= ones <= 3,
        ones <= total,
    ensures
        entry_bits(token_lengths(n_c), token_codes(n_c), 4 * total + ones) is Some,
{
    reveal(token_lengths);
    if n_c == -1 {
        assert(forall|i: int|
            0 <= i < 20 && i % 4 <= i / 4 ==> #[trigger] CHROMA_DC_COEFF_TOKEN_LEN@[i] != 0);
    } else if token_table(n_c) == 0 {
        assert(forall|i: int|
            0 <= i < 68 && i % 4 <= i / 4 ==> #[trigger] COEFF_TOKEN_LEN[0]@[i] != 0);
    } else if token_table(n_c) == 1 {
        assert(forall|i: int|
            0 <= i < 68 && i % 4 <= i / 4 ==> #[trigger] COEFF_TOKEN_LEN[1]@[i] != 0);
    } else if token_table(n_c) == 2 {
        assert(forall|i: int|
            0 <= i < 68 && i % 4 <= i / 4 ==> #[trigger] COEFF_TOKEN_LEN[2]@[i] != 0);
    } else {
        assert(forall|i: int|
            0 <= i < 68 && i % 4 <= i / 4 ==> #[trigger] COEFF_TOKEN_LEN[3]@[i] != 0);
    }
}

pub proof fn lemma_zeros_entry(total: int, size: int, zeros: int)
    requires
        size == 4 || size == 15 || size == 16,
        1 <= total < size,
        0 <= zeros <= size - total,
    ensures
        entry_bits(zeros_lengths(total, size), zeros_codes(total, size), zeros) is Some,
{
    reveal(zeros_lengths);
    if size == 4 {
        assert(forall|r: int, i: int|
            0 <= r < 3 && 0 <= i <= 3 - r ==> #[trigger] CHROMA_DC_TOTAL_ZEROS_LEN[r]@[i] != 0);
    } else {
        assert(forall|r: int, i: int|
            0 <= r < 15 && 0 <= i <= 15 - r ==> #[trigger] TOTAL_ZEROS_LEN[r]@[i] != 0);
    }
}

/// Reads the coefficient counts: how many there are, and how many are trailing ones.
pub fn decode_coeff_token(reader: &mut BitReader<'_>, n_c: i8) -> (result: Result<(u8, u8), Error>)
    requires
        old(reader).valid(),
    ensures
        ({
            let step = token_read(old(reader).all_bits(), old(reader).consumed(), n_c as int);
            &&& stepped(old(reader), final(reader), step, result)
            &&& result matches Ok(counts) ==> step.value == Ok::<int, Error>(
                4 * counts.0 + counts.1,
            ) && counts.1 < 4 && counts.0 <= 16
        }),
{
    proof {
        reveal(token_lengths);
        reveal(token_codes);
    }
    let found = if n_c == -1 {
        let lengths: [u8; 20] = CHROMA_DC_COEFF_TOKEN_LEN;
        let codes: [u16; 20] = CHROMA_DC_COEFF_TOKEN_BITS;
        decode_vlc(reader, lengths.as_slice(), codes.as_slice(), 16, Fault::CoefficientTokenCode)
    } else {
        let table: usize = if n_c <= 1 {
            0
        } else if n_c <= 3 {
            1
        } else if n_c <= 7 {
            2
        } else {
            3
        };
        let lengths: [u8; 68] = COEFF_TOKEN_LEN[table];
        let codes: [u16; 68] = COEFF_TOKEN_BITS[table];
        decode_vlc(reader, lengths.as_slice(), codes.as_slice(), 16, Fault::CoefficientTokenCode)
    };
    match found {
        Ok(index) => Ok(((index / 4) as u8, (index % 4) as u8)),
        Err(error) => Err(error),
    }
}

/// Reads the number of zeros.
pub fn decode_total_zeros(reader: &mut BitReader<'_>, total_coeff: u8, max_num_coeff: u8) -> (result:
    Result<u8, Error>)
    requires
        old(reader).valid(),
        1 <= total_coeff <= if max_num_coeff == 4 {
            3int
        } else {
            15int
        },
    ensures
        ({
            let step = zeros_read(
                old(reader).all_bits(),
                old(reader).consumed(),
                total_coeff as int,
                max_num_coeff as int,
            );
            &&& stepped(old(reader), final(reader), step, result)
            &&& result matches Ok(zeros) ==> step.value == Ok::<int, Error>(zeros as int) && zeros
                < 16
        }),
{
    proof {
        reveal(zeros_lengths);
        reveal(zeros_codes);
    }
    let row: usize = (total_coeff - 1) as usize;
    let found = if max_num_coeff == 4 {
        let lengths: [u8; 4] = CHROMA_DC_TOTAL_ZEROS_LEN[row];
        let codes: [u16; 4] = CHROMA_DC_TOTAL_ZEROS_BITS[row];
        decode_vlc(reader, lengths.as_slice(), codes.as_slice(), 3, Fault::TotalZerosCode)
    } else {
        let lengths: [u8; 16] = TOTAL_ZEROS_LEN[row];
        let codes: [u16; 16] = TOTAL_ZEROS_BITS[row];
        decode_vlc(reader, lengths.as_slice(), codes.as_slice(), 9, Fault::TotalZerosCode)
    };
    match found {
        Ok(index) => Ok(index as u8),
        Err(error) => Err(error),
    }
}

/// Reads a run of zeros.
pub fn decode_run_before(reader: &mut BitReader<'_>, zeros_left: u8) -> (result: Result<u8, Error>)
    requires
        old(reader).valid(),
        zeros_left >= 1,
    ensures
        ({
            let step = run_read(old(reader).all_bits(), old(reader).consumed(), zeros_left as int);
            &&& stepped(old(reader), final(reader), step, result)
            &&& result matches Ok(run) ==> step.value == Ok::<int, Error>(run as int) && run < 16
        }),
{
    proof {
        reveal(run_lengths);
        reveal(run_codes);
    }
    let row: usize = if zeros_left < 7 {
        (zeros_left - 1) as usize
    } else {
        6
    };
    let lengths: [u8; 16] = RUN_LEN[row];
    let codes: [u16; 16] = RUN_BITS[row];
    match decode_vlc(reader, lengths.as_slice(), codes.as_slice(), 11, Fault::RunBeforeCode) {
        Ok(index) => Ok(index as u8),
        Err(error) => Err(error),
    }
}

} // verus!
