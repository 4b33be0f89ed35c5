//! The words in which residual blocks are written.

use vstd::prelude::*;

use crate::bits::{bits_of, power_of_two};
use crate::cavlc::{
    descending, first_suffix_length, level_base, level_bits, level_code, levels_of, levels_written,
    next_suffix_length, ones_from, prefix_fits, prefix_from, prefixed_bits, residual_written,
    runs_written, trailing_ones,
};
use crate::codes::entry_bits;
use crate::error::Error;
use crate::math::{lemma_powers_of_two, magnitude};
use crate::residual_tables::{
    run_codes, run_lengths, token_codes, token_lengths, zeros_codes, zeros_lengths,
    COEFF_TOKEN_BITS, COEFF_TOKEN_LEN, RUN_BITS, RUN_LEN, TOTAL_ZEROS_BITS, TOTAL_ZEROS_LEN,
};

verus! {

/// The suffixes of the levels after one whose size is more than 3, 6, 12, 24, or 48, have one bit
/// more, where they had 1, 2, 3, 4, or 5; otherwise as many as before, but at least one.
pub proof fn law_suffix_grows(suffix_length: int, level: int)
    requires
        0 <= suffix_length <= 6,
    ensures
        ({
            let current: int = if suffix_length == 0 {
                1
            } else {
                suffix_length
            };
            let size: int = if level < 0 {
                -level
            } else {
                level
            };
            let grows = {
                ||| current == 1 && size > 3
                ||| current == 2 && size > 6
                ||| current == 3 && size > 12
                ||| current == 4 && size > 24
                ||| current == 5 && size > 48
            };
            next_suffix_length(suffix_length, level) == if grows {
                current + 1
            } else {
                current
            }
        }),
{
    lemma_powers_of_two();
}

/// The first level has a suffix of one bit in a block of more than ten coefficients of which fewer
/// than three are trailing ones, and otherwise none.
pub proof fn law_first_suffix(total: int, ones: int)
    ensures
        total >= 11 && ones <= 2 ==> first_suffix_length(total, ones) == 1,
        total <= 10 || ones >= 3 ==> first_suffix_length(total, ones) == 0,
{
}

/// A level that cannot be a one is written like the one that is a step nearer to zero; a one is not
/// written there.
pub proof fn law_first_level(level: int, suffix_length: int)
    ensures
        level > 1 ==> level_bits(level, suffix_length, true) == level_bits(
            level - 1,
            suffix_length,
            false,
        ),
        level < -1 ==> level_bits(level, suffix_length, true) == level_bits(
            level + 1,
            suffix_length,
            false,
        ),
        level == 1 || level == -1 ==> level_bits(level, suffix_length, true) is Err,
{
}

/// Some zeros, a one, and a number in some bits.
pub open spec fn word(zeros: int, value: int, size: int) -> Seq<bool> {
    Seq::new(zeros as nat, |i: int| false) + seq![true] + bits_of(value as nat, size as nat)
}

/// Levels are counted 1, -1, 2, -2, and so on. Without a suffix, the first fourteen are a one behind
/// as many zeros as were counted, the next sixteen have four bits behind fourteen zeros and a one,
/// and the following ones twelve bits behind fifteen zeros and a one.
#[verifier::spinoff_prover]
#[verifier::rlimit(40)]
pub proof fn law_level_words_plain(level: int)
    requires
        level != 0,
    ensures
        ({
            let count = if level > 0 {
                2 * (level - 1)
            } else {
                2 * (-level - 1) + 1
            };
            let bits = level_bits(level, 0, false);
            &&& count < 14 ==> bits == Ok::<Seq<bool>, Error>(word(count, 0, 0))
            &&& 14 <= count < 30 ==> bits == Ok::<Seq<bool>, Error>(word(14, count - 14, 4))
            &&& 30 <= count < 30 + 4096 ==> bits == Ok::<Seq<bool>, Error>(
                word(15, count - 30, 12),
            )
        }),
{
    lemma_powers_of_two();
    let count = level_code(level, false);
    if count < 30 + 4096 {
        let prefix: int = if count < 14 {
            count
        } else if count < 30 {
            14
        } else {
            15
        };
        let steps: int = if prefix < 15 {
            prefix
        } else {
            15
        };
        assert(steps * power_of_two(0) == steps) by (nonlinear_arith)
            requires
                power_of_two(0) == 1,
        ;
        lemma_prefix_found(count, 0, prefix);
        lemma_word(count, 0, prefix);
        assert(bits_of(0, 0) =~= Seq::<bool>::empty());
    }
}

/// Levels are counted 1, -1, 2, -2, and so on. With suffixes, the lower bits of the count are the
/// suffix and the rest of it says how many zeros come first, up to fourteen; the following ones have
/// twelve bits behind fifteen zeros and a one.
#[verifier::spinoff_prover]
#[verifier::rlimit(40)]
pub proof fn law_level_words_suffixed(level: int, suffix_length: int)
    requires
        level != 0,
        1 <= suffix_length <= 6,
    ensures
        ({
            let count = if level > 0 {
                2 * (level - 1)
            } else {
                2 * (-level - 1) + 1
            };
            let unit: int = if suffix_length == 1 {
                2
            } else if suffix_length == 2 {
                4
            } else if suffix_length == 3 {
                8
            } else if suffix_length == 4 {
                16
            } else if suffix_length == 5 {
                32
            } else {
                64
            };
            let bits = level_bits(level, suffix_length, false);
            &&& count < 15 * unit ==> bits == Ok::<Seq<bool>, Error>(
                word(count / unit, count % unit, suffix_length),
            )
            &&& 15 * unit <= count < 15 * unit + 4096 ==> bits == Ok::<Seq<bool>, Error>(
                word(15, count - 15 * unit, 12),
            )
        }),
{
    lemma_powers_of_two();
    let count = level_code(level, false);
    let unit = power_of_two(suffix_length as nat) as int;
    if count < 15 * unit + 4096 {
        let prefix: int = if count < 15 * unit {
            count / unit
        } else {
            15
        };
        assert(prefix <= 15 && (count < 15 * unit ==> prefix < 15 && prefix * unit <= count < prefix
            * unit + unit && count - prefix * unit == count % unit)) by (nonlinear_arith)
            requires
                0 <= count,
                unit == 2 || unit == 4 || unit == 8 || unit == 16 || unit == 32 || unit == 64,
                count < 15 * unit ==> prefix == count / unit,
                count >= 15 * unit ==> prefix == 15,
        ;
        lemma_prefix_found(count, suffix_length, prefix);
        lemma_word(count, suffix_length, prefix);
    }
}

proof fn lemma_word(count: int, suffix_length: int, prefix: int)
    requires
        0 <= prefix,
    ensures
        prefixed_bits(count, suffix_length, prefix) == word(
            prefix,
            count - level_base(prefix, suffix_length),
            crate::cavlc::suffix_size(prefix, suffix_length) as int,
        ),
{
    assert(Seq::new(prefix as nat, |i: int| false).push(true) =~= Seq::new(
        prefix as nat,
        |i: int| false,
    ) + seq![true]);
}

proof fn lemma_base_order(suffix_length: int, low: int, high: int)
    requires
        0 <= suffix_length <= 6,
        0 <= low < high <= 15,
    ensures
        level_base(low, suffix_length) + power_of_two(
            crate::cavlc::suffix_size(low, suffix_length),
        ) <= level_base(high, suffix_length),
{
    lemma_powers_of_two();
    let unit = power_of_two(suffix_length as nat) as int;
    assert(low * unit + unit <= high * unit) by (nonlinear_arith)
        requires
            low < high,
            1 <= unit,
    ;
}

proof fn lemma_prefix_found(count: int, suffix_length: int, prefix: int)
    requires
        0 <= suffix_length <= 6,
        0 <= prefix <= 15,
        prefix_fits(count, suffix_length, prefix),
    ensures
        prefix_from(count, suffix_length, 0) == prefix,
{
    lemma_prefix_found_from(count, suffix_length, prefix, 0);
}

proof fn lemma_prefix_found_from(count: int, suffix_length: int, prefix: int, from: int)
    requires
        0 <= suffix_length <= 6,
        0 <= from <= prefix <= 15,
        prefix_fits(count, suffix_length, prefix),
    ensures
        prefix_from(count, suffix_length, from) == prefix,
    decreases prefix - from,
{
    if from < prefix {
        lemma_base_order(suffix_length, from, prefix);
        lemma_prefix_found_from(count, suffix_length, prefix, from + 1);
    }
}

/// Trailing ones are the last coefficients that are not zero, up to three, as long as their size is
/// one.
pub proof fn law_trailing_ones(levels: Seq<int>)
    ensures
        ({
            let ones = trailing_ones(levels);
            &&& 0 <= ones <= 3
            &&& ones <= levels.len()
            &&& forall|i: int| 0 <= i < ones ==> #[trigger] levels[i] == 1 || levels[i] == -1
            &&& ones < 3 && ones < levels.len() ==> levels[ones] != 1 && levels[ones] != -1
        }),
{
    lemma_ones(levels, 0);
}

proof fn lemma_ones(levels: Seq<int>, from: int)
    requires
        0 <= from <= 3,
    ensures
        ({
            let end = from + ones_from(levels, from);
            &&& from <= end <= 3
            &&& from <= levels.len() ==> end <= levels.len()
            &&& forall|i: int| from <= i < end ==> #[trigger] levels[i] == 1 || levels[i] == -1
            &&& end < 3 && end < levels.len() ==> levels[end] != 1 && levels[end] != -1
        }),
    decreases 3 - from,
{
    if from < 3 && from < levels.len() && magnitude(levels[from]) == 1 {
        lemma_ones(levels, from + 1);
    }
}

/// The coefficients that are written are all that are not zero, the last one first.
pub proof fn law_last_first(coefficients: Seq<i32>)
    ensures
        ({
            let size = coefficients.len() as int;
            let places = descending(coefficients, size);
            &&& levels_of(coefficients).len() == places.len()
            &&& forall|i: int|
                0 <= i < places.len() ==> 0 <= #[trigger] places[i] < size
                    && coefficients[places[i]] != 0 && levels_of(coefficients)[i]
                    == coefficients[places[i]]
            &&& forall|i: int, j: int|
                0 <= i < j < places.len() ==> #[trigger] places[i] > #[trigger] places[j]
            &&& forall|k: int|
                0 <= k < size && #[trigger] coefficients[k] != 0 ==> places.contains(k)
        }),
{
    lemma_places(coefficients, coefficients.len() as int);
}

proof fn lemma_places(coefficients: Seq<i32>, end: int)
    requires
        0 <= end <= coefficients.len(),
    ensures
        ({
            let places = descending(coefficients, end);
            &&& forall|i: int|
                0 <= i < places.len() ==> 0 <= #[trigger] places[i] < end
                    && coefficients[places[i]] != 0
            &&& forall|i: int, j: int|
                0 <= i < j < places.len() ==> #[trigger] places[i] > #[trigger] places[j]
            &&& forall|k: int|
                0 <= k < end && #[trigger] coefficients[k] != 0 ==> places.contains(k)
        }),
    decreases end,
{
    if end > 0 {
        lemma_places(coefficients, end - 1);
        let places = descending(coefficients, end);
        let rest = descending(coefficients, end - 1);
        assert forall|k: int|
            0 <= k < end && #[trigger] coefficients[k] != 0 implies places.contains(k) by {
            if k == end - 1 {
                assert(places[0] == k);
            } else {
                assert(rest.contains(k));
                let i = choose|i: int| 0 <= i < rest.len() && rest[i] == k;
                if coefficients[end - 1] != 0 {
                    assert(places[i + 1] == k);
                }
            }
        }
    }
}

/// A block is written in this order: how many coefficients and trailing ones it has; the signs of
/// the trailing ones, a one for each that is negative; the other coefficients, last one first, each
/// with the suffix that the ones before it ask for; how many zeros stand before the last
/// coefficient, if there is room for any; and how many of them stand before each coefficient but
/// the first.
pub proof fn law_block_order(n_c: int, coefficients: Seq<i32>)
    requires
        coefficients.len() == 4 || coefficients.len() == 15 || coefficients.len() == 16,
        residual_written(n_c, coefficients).1 is Ok,
        levels_of(coefficients).len() > 0,
    ensures
        ({
            let size = coefficients.len() as int;
            let levels = levels_of(coefficients);
            let count = levels.len() as int;
            let ones = trailing_ones(levels);
            let places = descending(coefficients, size);
            let zeros = places[0] + 1 - count;
            residual_written(n_c, coefficients).0 == entry_bits(
                token_lengths(n_c),
                token_codes(n_c),
                4 * count + ones,
            )->Some_0 + Seq::new(ones as nat, |i: int| levels[i] < 0) + levels_written(
                levels,
                ones,
                ones,
                first_suffix_length(count, ones),
            ).0 + (if count < size {
                entry_bits(zeros_lengths(count, size), zeros_codes(count, size), zeros)->Some_0
            } else {
                Seq::empty()
            }) + runs_written(places, 0, zeros)
        }),
{
    reveal(residual_written);
    lemma_places_bound(coefficients, coefficients.len() as int);
}

proof fn lemma_places_bound(coefficients: Seq<i32>, end: int)
    requires
        0 <= end <= coefficients.len(),
    ensures
        descending(coefficients, end).len() <= end,
    decreases end,
{
    if end > 0 {
        lemma_places_bound(coefficients, end - 1);
    }
}

/// The levels from some one on are the first of them, written with its suffix, and the others with
/// the suffix that follows.
pub proof fn law_levels_in_turn(levels: Seq<int>, index: int, ones: int, suffix_length: int)
    requires
        0 <= index < levels.len(),
        levels_written(levels, index, ones, suffix_length).1 is Ok,
    ensures
        levels_written(levels, index, ones, suffix_length).0 == level_bits(
            levels[index],
            suffix_length,
            index == ones && ones < 3,
        )->Ok_0 + levels_written(
            levels,
            index + 1,
            ones,
            next_suffix_length(suffix_length, levels[index]),
        ).0,
{
}

/// How many coefficients there are is written in one of four tables, chosen by the count that is
/// expected: below two, below four, below eight, and from eight on.
pub proof fn law_token_tables(n_c: int)
    requires
        n_c >= 0,
    ensures
        n_c < 2 ==> token_lengths(n_c) == token_lengths(0) && token_codes(n_c) == token_codes(0),
        2 <= n_c < 4 ==> token_lengths(n_c) == token_lengths(2) && token_codes(n_c) == token_codes(
            2,
        ),
        4 <= n_c < 8 ==> token_lengths(n_c) == token_lengths(4) && token_codes(n_c) == token_codes(
            4,
        ),
        8 <= n_c ==> token_lengths(n_c) == token_lengths(8) && token_codes(n_c) == token_codes(8),
{
    reveal(token_lengths);
    reveal(token_codes);
}

/// From eight expected coefficients on, their number less one and that of the trailing ones are
/// written in four and in two bits, and no coefficients as a three in six bits.
pub proof fn law_token_words_many(count: int, ones: int)
    requires
        0 <= ones <= 3,
        ones <= count <= 16,
    ensures
        entry_bits(token_lengths(8), token_codes(8), 4 * count + ones) == Some(
            bits_of(
                if count == 0 {
                    3
                } else {
                    (4 * (count - 1) + ones) as nat
                },
                6,
            ),
        ),
{
    reveal(token_lengths);
    reveal(token_codes);
    assert(forall|i: int| 0 <= i < 68 && i != 1 && i != 2 && i != 3 && i != 6 && i != 7 && i != 11
        ==> #[trigger] COEFF_TOKEN_LEN[3]@[i] == 6);
    assert(forall|i: int| 4 <= i < 68 && i != 6 && i != 7 && i != 11 ==> #[trigger] COEFF_TOKEN_BITS[3]@[i] == i - 4);
}

/// Where more than six zeros are left, up to six of them are written as seven less their number in
/// three bits, and more as a one behind as many zeros as they are more than three.
pub proof fn law_run_words_many(zeros_left: int, run: int)
    requires
        zeros_left > 6,
        0 <= run <= 14,
    ensures
        run <= 6 ==> entry_bits(run_lengths(zeros_left), run_codes(zeros_left), run) == Some(
            bits_of((7 - run) as nat, 3),
        ),
        run >= 7 ==> entry_bits(run_lengths(zeros_left), run_codes(zeros_left), run) == Some(
            bits_of(1, (run - 3) as nat),
        ),
{
    reveal(run_lengths);
    reveal(run_codes);
    assert(forall|i: int| 0 <= i <= 6 ==> #[trigger] RUN_LEN[6]@[i] == 3);
    assert(forall|i: int| 7 <= i <= 14 ==> #[trigger] RUN_LEN[6]@[i] == i - 3);
    assert(forall|i: int| 0 <= i <= 6 ==> #[trigger] RUN_BITS[6]@[i] == 7 - i);
    assert(forall|i: int| 7 <= i <= 14 ==> #[trigger] RUN_BITS[6]@[i] == 1);
}

/// Before a single coefficient, no zeros are written as a one, and more of them as a three or a two
/// in one bit more for each two of them; fifteen of them as a one in nine bits.
pub proof fn law_zeros_words_single(zeros: int)
    requires
        0 <= zeros <= 15,
    ensures
        entry_bits(zeros_lengths(1, 16), zeros_codes(1, 16), zeros) == Some(
            if zeros == 0 {
                bits_of(1, 1)
            } else if zeros == 15 {
                bits_of(1, 9)
            } else {
                bits_of((2 + zeros % 2) as nat, (2 + (zeros + 1) / 2) as nat)
            },
        ),
{
    reveal(zeros_lengths);
    reveal(zeros_codes);
    assert(forall|i: int| 1 <= i <= 14 ==> #[trigger] TOTAL_ZEROS_LEN[0]@[i] == 2 + (i + 1) / 2);
    assert(forall|i: int| 1 <= i <= 14 ==> #[trigger] TOTAL_ZEROS_BITS[0]@[i] == 2 + i % 2);
}

/// How many coefficients there are, from as many as the trailing ones on, where fewer than two are expected: the lengths
/// and the values of the words.
#[verifier::spinoff_prover]
#[verifier::rlimit(60)]
pub proof fn law_token_words_few(count: int, ones: int)
    requires
        0 <= ones <= 3,
        ones <= count <= 16,
    ensures
        ({
            let lengths = if ones == 0 {
                seq![
                    1nat, 6nat, 8nat, 9nat, 10nat, 11nat, 13nat, 13nat, 13nat, 14nat, 14nat,
                    15nat, 15nat, 16nat, 16nat, 16nat, 16nat,
                ]
            } else if ones == 1 {
                seq![
                    2nat, 6nat, 8nat, 9nat, 10nat, 11nat, 13nat, 13nat, 14nat, 14nat, 15nat,
                    15nat, 15nat, 16nat, 16nat, 16nat,
                ]
            } else if ones == 2 {
                seq![
                    3nat, 7nat, 8nat, 9nat, 10nat, 11nat, 13nat, 13nat, 14nat, 14nat, 15nat,
                    15nat, 16nat, 16nat, 16nat,
                ]
            } else {
                seq![
                    5nat, 6nat, 7nat, 8nat, 9nat, 10nat, 11nat, 13nat, 14nat, 14nat, 15nat,
                    15nat, 16nat, 16nat,
                ]
            };
            let values = if ones == 0 {
                seq![
                    1nat, 5nat, 7nat, 7nat, 7nat, 7nat, 15nat, 11nat, 8nat, 15nat, 11nat, 15nat,
                    11nat, 15nat, 11nat, 7nat, 4nat,
                ]
            } else if ones == 1 {
                seq![
                    1nat, 4nat, 6nat, 6nat, 6nat, 6nat, 14nat, 10nat, 14nat, 10nat, 14nat, 10nat,
                    1nat, 14nat, 10nat, 6nat,
                ]
            } else if ones == 2 {
                seq![
                    1nat, 5nat, 5nat, 5nat, 5nat, 5nat, 13nat, 9nat, 13nat, 9nat, 13nat, 9nat,
                    13nat, 9nat, 5nat,
                ]
            } else {
                seq![
                    3nat, 3nat, 4nat, 4nat, 4nat, 4nat, 4nat, 12nat, 12nat, 8nat, 12nat, 8nat,
                    12nat, 8nat,
                ]
            };
            entry_bits(token_lengths(0), token_codes(0), 4 * count + ones) == Some(
                bits_of(values[count - ones], lengths[count - ones]),
            )
        }),
{
    reveal(token_lengths);
    reveal(token_codes);
}

/// How many coefficients there are, from as many as the trailing ones on, where two or three are expected: the lengths
/// and the values of the words.
#[verifier::spinoff_prover]
#[verifier::rlimit(60)]
pub proof fn law_token_words_some(count: int, ones: int)
    requires
        0 <= ones <= 3,
        ones <= count <= 16,
    ensures
        ({
            let lengths = if ones == 0 {
                seq![
                    2nat, 6nat, 6nat, 7nat, 8nat, 8nat, 9nat, 11nat, 11nat, 12nat, 12nat, 12nat,
                    13nat, 13nat, 13nat, 14nat, 14nat,
                ]
            } else if ones == 1 {
                seq![
                    2nat, 5nat, 6nat, 6nat, 7nat, 8nat, 9nat, 11nat, 11nat, 12nat, 12nat, 13nat,
                    13nat, 14nat, 14nat, 14nat,
                ]
            } else if ones == 2 {
                seq![
                    3nat, 6nat, 6nat, 7nat, 8nat, 9nat, 11nat, 11nat, 12nat, 12nat, 13nat, 13nat,
                    13nat, 14nat, 14nat,
                ]
            } else {
                seq![
                    4nat, 4nat, 5nat, 6nat, 6nat, 7nat, 9nat, 11nat, 11nat, 12nat, 13nat, 13nat,
                    13nat, 14nat,
                ]
            };
            let values = if ones == 0 {
                seq![
                    3nat, 11nat, 7nat, 7nat, 7nat, 4nat, 7nat, 15nat, 11nat, 15nat, 11nat, 8nat,
                    15nat, 11nat, 7nat, 9nat, 7nat,
                ]
            } else if ones == 1 {
                seq![
                    2nat, 7nat, 10nat, 6nat, 6nat, 6nat, 6nat, 14nat, 10nat, 14nat, 10nat, 14nat,
                    10nat, 11nat, 8nat, 6nat,
                ]
            } else if ones == 2 {
                seq![
                    3nat, 9nat, 5nat, 5nat, 5nat, 5nat, 13nat, 9nat, 13nat, 9nat, 13nat, 9nat,
                    6nat, 10nat, 5nat,
                ]
            } else {
                seq![
                    5nat, 4nat, 6nat, 8nat, 4nat, 4nat, 4nat, 12nat, 8nat, 12nat, 12nat, 8nat,
                    1nat, 4nat,
                ]
            };
            entry_bits(token_lengths(2), token_codes(2), 4 * count + ones) == Some(
                bits_of(values[count - ones], lengths[count - ones]),
            )
        }),
{
    reveal(token_lengths);
    reveal(token_codes);
}

/// How many coefficients there are, from as many as the trailing ones on, where four to seven are expected: the lengths
/// and the values of the words.
#[verifier::spinoff_prover]
#[verifier::rlimit(60)]
pub proof fn law_token_words_more(count: int, ones: int)
    requires
        0 <= ones <= 3,
        ones <= count <= 16,
    ensures
        ({
            let lengths = if ones == 0 {
                seq![
                    4nat, 6nat, 6nat, 6nat, 7nat, 7nat, 7nat, 7nat, 8nat, 8nat, 9nat, 9nat, 9nat,
                    10nat, 10nat, 10nat, 10nat,
                ]
            } else if ones == 1 {
                seq![
                    4nat, 5nat, 5nat, 5nat, 5nat, 6nat, 6nat, 7nat, 8nat, 8nat, 9nat, 9nat, 9nat,
                    10nat, 10nat, 10nat,
                ]
            } else if ones == 2 {
                seq![
                    4nat, 5nat, 5nat, 5nat, 6nat, 6nat, 7nat, 7nat, 8nat, 8nat, 9nat, 9nat,
                    10nat, 10nat, 10nat,
                ]
            } else {
                seq![
                    4nat, 4nat, 4nat, 4nat, 4nat, 5nat, 6nat, 7nat, 8nat, 8nat, 9nat, 10nat,
                    10nat, 10nat,
                ]
            };
            let values = if ones == 0 {
                seq![
                    15nat, 15nat, 11nat, 8nat, 15nat, 11nat, 9nat, 8nat, 15nat, 11nat, 15nat,
                    11nat, 8nat, 13nat, 9nat, 5nat, 1nat,
                ]
            } else if ones == 1 {
                seq![
                    14nat, 15nat, 12nat, 10nat, 8nat, 14nat, 10nat, 14nat, 14nat, 10nat, 14nat,
                    10nat, 7nat, 12nat, 8nat, 4nat,
                ]
            } else if ones == 2 {
                seq![
                    13nat, 14nat, 11nat, 9nat, 13nat, 9nat, 13nat, 10nat, 13nat, 9nat, 13nat,
                    9nat, 11nat, 7nat, 3nat,
                ]
            } else {
                seq![
                    12nat, 11nat, 10nat, 9nat, 8nat, 13nat, 12nat, 12nat, 12nat, 8nat, 12nat,
                    10nat, 6nat, 2nat,
                ]
            };
            entry_bits(token_lengths(4), token_codes(4), 4 * count + ones) == Some(
                bits_of(values[count - ones], lengths[count - ones]),
            )
        }),
{
    reveal(token_lengths);
    reveal(token_codes);
}

/// How many means of chroma blocks there are, from as many as the trailing ones on: the lengths and
/// the values of the words.
pub proof fn law_token_words_means(count: int, ones: int)
    requires
        0 <= ones <= 3,
        ones <= count <= 4,
    ensures
        ({
            let lengths = if ones == 0 {
                seq![2nat, 6nat, 6nat, 6nat, 6nat]
            } else if ones == 1 {
                seq![1nat, 6nat, 7nat, 8nat]
            } else if ones == 2 {
                seq![3nat, 7nat, 8nat]
            } else {
                seq![6nat, 7nat]
            };
            let values = if ones == 0 {
                seq![1nat, 7nat, 4nat, 3nat, 2nat]
            } else if ones == 1 {
                seq![1nat, 6nat, 3nat, 3nat]
            } else if ones == 2 {
                seq![1nat, 2nat, 2nat]
            } else {
                seq![5nat, 0nat]
            };
            entry_bits(token_lengths(-1), token_codes(-1), 4 * count + ones) == Some(
                bits_of(values[count - ones], lengths[count - ones]),
            )
        }),
{
    reveal(token_lengths);
    reveal(token_codes);
}

/// How many zeros stand before the last of two or more coefficients: the lengths and the values of
/// the words, by how many coefficients there are.
#[verifier::spinoff_prover]
#[verifier::rlimit(60)]
pub proof fn law_zeros_words(count: int, zeros: int)
    requires
        2 <= count <= 15,
        0 <= zeros <= 16 - count,
    ensures
        ({
            let lengths = if count == 2 {
                seq![3nat, 3nat, 3nat, 3nat, 3nat, 4nat, 4nat, 4nat, 4nat, 5nat, 5nat, 6nat, 6nat, 6nat, 6nat]
            } else if count == 3 {
                seq![4nat, 3nat, 3nat, 3nat, 4nat, 4nat, 3nat, 3nat, 4nat, 5nat, 5nat, 6nat, 5nat, 6nat]
            } else if count == 4 {
                seq![5nat, 3nat, 4nat, 4nat, 3nat, 3nat, 3nat, 4nat, 3nat, 4nat, 5nat, 5nat, 5nat]
            } else if count == 5 {
                seq![4nat, 4nat, 4nat, 3nat, 3nat, 3nat, 3nat, 3nat, 4nat, 5nat, 4nat, 5nat]
            } else if count == 6 {
                seq![6nat, 5nat, 3nat, 3nat, 3nat, 3nat, 3nat, 3nat, 4nat, 3nat, 6nat]
            } else if count == 7 {
                seq![6nat, 5nat, 3nat, 3nat, 3nat, 2nat, 3nat, 4nat, 3nat, 6nat]
            } else if count == 8 {
                seq![6nat, 4nat, 5nat, 3nat, 2nat, 2nat, 3nat, 3nat, 6nat]
            } else if count == 9 {
                seq![6nat, 6nat, 4nat, 2nat, 2nat, 3nat, 2nat, 5nat]
            } else if count == 10 {
                seq![5nat, 5nat, 3nat, 2nat, 2nat, 2nat, 4nat]
            } else if count == 11 {
                seq![4nat, 4nat, 3nat, 3nat, 1nat, 3nat]
            } else if count == 12 {
                seq![4nat, 4nat, 2nat, 1nat, 3nat]
            } else if count == 13 {
                seq![3nat, 3nat, 1nat, 2nat]
            } else if count == 14 {
                seq![2nat, 2nat, 1nat]
            } else {
                seq![1nat, 1nat]
            };
            let values = if count == 2 {
                seq![7nat, 6nat, 5nat, 4nat, 3nat, 5nat, 4nat, 3nat, 2nat, 3nat, 2nat, 3nat, 2nat, 1nat, 0nat]
            } else if count == 3 {
                seq![5nat, 7nat, 6nat, 5nat, 4nat, 3nat, 4nat, 3nat, 2nat, 3nat, 2nat, 1nat, 1nat, 0nat]
            } else if count == 4 {
                seq![3nat, 7nat, 5nat, 4nat, 6nat, 5nat, 4nat, 3nat, 3nat, 2nat, 2nat, 1nat, 0nat]
            } else if count == 5 {
                seq![5nat, 4nat, 3nat, 7nat, 6nat, 5nat, 4nat, 3nat, 2nat, 1nat, 1nat, 0nat]
            } else if count == 6 {
                seq![1nat, 1nat, 7nat, 6nat, 5nat, 4nat, 3nat, 2nat, 1nat, 1nat, 0nat]
            } else if count == 7 {
                seq![1nat, 1nat, 5nat, 4nat, 3nat, 3nat, 2nat, 1nat, 1nat, 0nat]
            } else if count == 8 {
                seq![1nat, 1nat, 1nat, 3nat, 3nat, 2nat, 2nat, 1nat, 0nat]
            } else if count == 9 {
                seq![1nat, 0nat, 1nat, 3nat, 2nat, 1nat, 1nat, 1nat]
            } else if count == 10 {
                seq![1nat, 0nat, 1nat, 3nat, 2nat, 1nat, 1nat]
            } else if count == 11 {
                seq![0nat, 1nat, 1nat, 2nat, 1nat, 3nat]
            } else if count == 12 {
                seq![0nat, 1nat, 1nat, 1nat, 1nat]
            } else if count == 13 {
                seq![0nat, 1nat, 1nat, 1nat]
            } else if count == 14 {
                seq![0nat, 1nat, 1nat]
            } else {
                seq![0nat, 1nat]
            };
            entry_bits(zeros_lengths(count, 16), zeros_codes(count, 16), zeros) == Some(
                bits_of(values[zeros], lengths[zeros]),
            )
        }),
{
    reveal(zeros_lengths);
    reveal(zeros_codes);
}

/// How many zeros stand before the last of the means of chroma blocks, and that blocks without their
/// means count like whole ones.
pub proof fn law_zeros_words_means(count: int, zeros: int)
    requires
        1 <= count <= 3,
        0 <= zeros <= 4 - count,
    ensures
        ({
            let word = if zeros == 0 {
                bits_of(1, 1)
            } else if count == 3 {
                bits_of(0, 1)
            } else if zeros == 1 {
                bits_of(1, 2)
            } else if count == 2 {
                bits_of(0, 2)
            } else if zeros == 2 {
                bits_of(1, 3)
            } else {
                bits_of(0, 3)
            };
            entry_bits(zeros_lengths(count, 4), zeros_codes(count, 4), zeros) == Some(word)
        }),
        zeros_lengths(count, 15) == zeros_lengths(count, 16) && zeros_codes(count, 15)
            == zeros_codes(count, 16),
{
    reveal(zeros_lengths);
    reveal(zeros_codes);
}

/// How many of the last six zeros stand before a coefficient: the lengths and the values of the
/// words, by how many zeros are left.
pub proof fn law_run_words(zeros_left: int, run: int)
    requires
        1 <= zeros_left <= 6,
        0 <= run <= zeros_left,
    ensures
        ({
            let lengths = if zeros_left == 1 {
                seq![1nat, 1nat]
            } else if zeros_left == 2 {
                seq![1nat, 2nat, 2nat]
            } else if zeros_left == 3 {
                seq![2nat, 2nat, 2nat, 2nat]
            } else if zeros_left == 4 {
                seq![2nat, 2nat, 2nat, 3nat, 3nat]
            } else if zeros_left == 5 {
                seq![2nat, 2nat, 3nat, 3nat, 3nat, 3nat]
            } else {
                seq![2nat, 3nat, 3nat, 3nat, 3nat, 3nat, 3nat]
            };
            let values = if zeros_left == 1 {
                seq![1nat, 0nat]
            } else if zeros_left == 2 {
                seq![1nat, 1nat, 0nat]
            } else if zeros_left == 3 {
                seq![3nat, 2nat, 1nat, 0nat]
            } else if zeros_left == 4 {
                seq![3nat, 2nat, 1nat, 1nat, 0nat]
            } else if zeros_left == 5 {
                seq![3nat, 2nat, 3nat, 2nat, 1nat, 0nat]
            } else {
                seq![3nat, 0nat, 1nat, 3nat, 2nat, 5nat, 4nat]
            };
            entry_bits(run_lengths(zeros_left), run_codes(zeros_left), run) == Some(
                bits_of(values[run], lengths[run]),
            )
        }),
{
    reveal(run_lengths);
    reveal(run_codes);
}

} // verus!
