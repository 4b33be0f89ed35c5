//! Context-adaptive variable-length coding of residual blocks.

use vstd::prelude::*;

use crate::bits::{
    bits_of, bits_value, lemma_bits_value_bound, lemma_power_monotonic, power_of_two, BitReader,
    BitWriter,
};
use crate::codes::{entry_bits, stepped, Step};
use crate::error::{Error, Fault};
use crate::math::{lemma_powers_of_two, magnitude, two_to, unit};
use crate::residual_tables::{
    decode_coeff_token, decode_run_before, decode_total_zeros, lemma_run_entry, lemma_zeros_entry,
    run_codes, run_lengths, run_read, token_codes, token_lengths, token_read, write_coeff_token,
    write_run_before, write_total_zeros, zeros_codes, zeros_lengths, zeros_read,
};

verus! {

/// A decoded residual block.
#[derive(Clone, Debug, PartialEq, Eq)]
pub struct ResidualBlock {
    /// Coefficients in scanning order.
    pub coefficients: Vec<i32>,
    /// How many coefficients are not zero.
    pub total_coeff: u8,
}

/// The places of the coefficients below `end` that are not zero, in descending order.
pub open spec fn descending(coefficients: Seq<i32>, end: int) -> Seq<int>
    decreases end,
{
    if end <= 0 {
        Seq::empty()
    } else if coefficients[end - 1] != 0 {
        seq![end - 1] + descending(coefficients, end - 1)
    } else {
        descending(coefficients, end - 1)
    }
}

/// The coefficients that are not zero, last one first.
pub open spec fn levels_of(coefficients: Seq<i32>) -> Seq<int> {
    let places = descending(coefficients, coefficients.len() as int);
    Seq::new(places.len(), |i: int| coefficients[places[i]] as int)
}

/// How many of the levels from `index` on are ones, before the first other level or a limit.
pub open spec fn ones_from(levels: Seq<int>, index: int) -> int
    decreases 3 - index,
{
    if index < 3 && index < levels.len() && magnitude(levels[index]) == 1 {
        1 + ones_from(levels, index + 1)
    } else {
        0
    }
}

/// How many trailing ones a list of levels has.
pub open spec fn trailing_ones(levels: Seq<int>) -> int {
    ones_from(levels, 0)
}

/// The number that stands for a level.
pub open spec fn level_code(level: int, first: bool) -> int {
    (if level > 0 {
        2 * level - 2
    } else {
        -2 * level - 1
    }) - 2 * unit(first)
}

/// The level that a number stands for.
pub open spec fn code_level(code: int) -> int {
    if code % 2 == 0 {
        (code + 2) / 2
    } else {
        -((code + 1) / 2)
    }
}

/// How many suffix bits follow a prefix.
pub open spec fn suffix_size(prefix: int, suffix_length: int) -> nat {
    (if prefix == 14 && suffix_length == 0 {
        4
    } else if prefix >= 15 {
        prefix - 3
    } else {
        suffix_length
    }) as nat
}

/// The smallest number that is written with a prefix.
pub open spec fn level_base(prefix: int, suffix_length: int) -> int {
    (if prefix < 15 {
        prefix
    } else {
        15
    }) * power_of_two(suffix_length as nat) + (if prefix >= 15 && suffix_length == 0 {
        15int
    } else {
        0int
    }) + (if prefix >= 16 {
        power_of_two((prefix - 3) as nat) - 4096
    } else {
        0
    })
}

/// Whether a number is written with a prefix.
pub open spec fn prefix_fits(code: int, suffix_length: int, prefix: int) -> bool {
    level_base(prefix, suffix_length) <= code < level_base(prefix, suffix_length) + power_of_two(
        suffix_size(prefix, suffix_length),
    )
}

/// The first prefix from `prefix` on with which a number is written, or 32.
pub open spec fn prefix_from(code: int, suffix_length: int, prefix: int) -> int
    decreases 32 - prefix,
{
    if prefix >= 32 {
        32
    } else if prefix_fits(code, suffix_length, prefix) {
        prefix
    } else {
        prefix_from(code, suffix_length, prefix + 1)
    }
}

/// The bits of a number with a given prefix.
pub open spec fn prefixed_bits(code: int, suffix_length: int, prefix: int) -> Seq<bool> {
    Seq::new(prefix as nat, |i: int| false).push(true) + bits_of(
        (code - level_base(prefix, suffix_length)) as nat,
        suffix_size(prefix, suffix_length),
    )
}

/// The bits of a level, or why it has none.
pub open spec fn level_bits(level: int, suffix_length: int, first: bool) -> Result<
    Seq<bool>,
    Error,
> {
    let code = level_code(level, first);
    if code < 0 {
        Err(Error::InvalidData(Fault::TrailingLevel))
    } else if prefix_from(code, suffix_length, 0) >= 32 {
        Err(Error::Unsupported(Fault::LevelRange))
    } else {
        Ok(prefixed_bits(code, suffix_length, prefix_from(code, suffix_length, 0)))
    }
}

/// The suffix length that follows a level.
pub open spec fn next_suffix_length(suffix_length: int, level: int) -> int {
    let current = if suffix_length == 0 {
        1
    } else {
        suffix_length
    };
    if magnitude(level) > 3 * power_of_two((current - 1) as nat) && current < 6 {
        current + 1
    } else {
        current
    }
}

/// The suffix length of the first level.
pub open spec fn first_suffix_length(total: int, ones: int) -> int {
    unit(total > 10 && ones < 3)
}

/// What is written of the levels from `index` on, and how writing ends.
pub open spec fn levels_written(levels: Seq<int>, index: int, ones: int, suffix_length: int) -> (
    Seq<bool>,
    Result<(), Error>,
)
    decreases levels.len() - index,
{
    if index >= levels.len() {
        (Seq::empty(), Ok(()))
    } else {
        match level_bits(levels[index], suffix_length, index == ones && ones < 3) {
            Err(error) => (Seq::empty(), Err(error)),
            Ok(bits) => {
                let rest = levels_written(
                    levels,
                    index + 1,
                    ones,
                    next_suffix_length(suffix_length, levels[index]),
                );
                (bits + rest.0, rest.1)
            },
        }
    }
}

/// What is written of the runs between the coefficients from `index` on.
pub open spec fn runs_written(places: Seq<int>, index: int, zeros_left: int) -> Seq<bool>
    decreases places.len() - index,
{
    if index + 1 >= places.len() || zeros_left == 0 {
        Seq::empty()
    } else {
        let run = places[index] - places[index + 1] - 1;
        entry_bits(run_lengths(zeros_left), run_codes(zeros_left), run)->Some_0
            + runs_written(places, index + 1, zeros_left - run)
    }
}

/// What is written of the signs of the trailing ones.
pub open spec fn signs_written(levels: Seq<int>, ones: int) -> Seq<bool> {
    Seq::new(ones as nat, |i: int| levels[i] < 0)
}

/// What is written of the number of zeros.
pub open spec fn zeros_written(total: int, size: int, zeros: int) -> Seq<bool> {
    if total == size {
        Seq::empty()
    } else {
        entry_bits(zeros_lengths(total, size), zeros_codes(total, size), zeros)->Some_0
    }
}

/// What is written of a residual block, and how writing ends.
#[verifier::opaque]
pub open spec fn residual_written(n_c: int, coefficients: Seq<i32>) -> (
    Seq<bool>,
    Result<u8, Error>,
) {
    let size = coefficients.len() as int;
    let places = descending(coefficients, size);
    let levels = levels_of(coefficients);
    let total = levels.len() as int;
    let ones = trailing_ones(levels);
    if size > 255 {
        (Seq::empty(), Err(Error::InvalidData(Fault::CoefficientCount)))
    } else if size != 4 && size != 15 && size != 16 {
        (Seq::empty(), Err(Error::Unsupported(Fault::CoefficientCount)))
    } else {
        match entry_bits(token_lengths(n_c), token_codes(n_c), 4 * total + ones) {
            None => (Seq::empty(), Err(Error::InvalidData(Fault::CoefficientToken))),
            Some(token) => if total == 0 {
                (token, Ok(0))
            } else {
                let signs = signs_written(levels, ones);
                let body = levels_written(levels, ones, ones, first_suffix_length(total, ones));
                match body.1 {
                    Err(error) => (token + signs + body.0, Err(error)),
                    Ok(_) => {
                        let zeros = places[0] + 1 - total;
                        (
                            token + signs + body.0 + zeros_written(total, size, zeros)
                                + runs_written(places, 0, zeros),
                            Ok(total as u8),
                        )
                    },
                }
            },
        }
    }
}

/// Reads a level prefix of which `count` zero bits are already read.
pub open spec fn prefix_read(bits: Seq<bool>, at: int, count: int) -> Step<int>
    decreases 32 - count,
{
    if at >= bits.len() {
        Step { at, value: Err(Error::InvalidData(Fault::EndOfData)) }
    } else if bits[at] {
        Step { at: at + 1, value: Ok(count) }
    } else if count >= 31 {
        Step { at: at + 1, value: Err(Error::InvalidData(Fault::LevelPrefix)) }
    } else {
        prefix_read(bits, at + 1, count + 1)
    }
}

/// Reads one level.
pub open spec fn level_read(bits: Seq<bool>, at: int, suffix_length: int, first: bool) -> Step<
    int,
> {
    let head = prefix_read(bits, at, 0);
    match head.value {
        Err(error) => Step { at: head.at, value: Err(error) },
        Ok(prefix) => {
            let size = suffix_size(prefix, suffix_length);
            if head.at + size > bits.len() {
                Step { at: head.at, value: Err(Error::InvalidData(Fault::EndOfData)) }
            } else {
                let suffix = bits_value(bits.subrange(head.at, head.at + size)) as int;
                Step {
                    at: head.at + size,
                    value: Ok(
                        code_level(level_base(prefix, suffix_length) + suffix + 2 * unit(first)),
                    ),
                }
            }
        },
    }
}

/// Reads the levels from `index` on.
pub open spec fn levels_read(
    bits: Seq<bool>,
    at: int,
    index: int,
    total: int,
    ones: int,
    suffix_length: int,
) -> Step<Seq<int>>
    decreases total - index,
{
    if index >= total {
        Step { at, value: Ok(Seq::empty()) }
    } else {
        let head = level_read(bits, at, suffix_length, index == ones && ones < 3);
        match head.value {
            Err(error) => Step { at: head.at, value: Err(error) },
            Ok(level) => {
                let rest = levels_read(
                    bits,
                    head.at,
                    index + 1,
                    total,
                    ones,
                    next_suffix_length(suffix_length, level),
                );
                match rest.value {
                    Err(error) => Step { at: rest.at, value: Err(error) },
                    Ok(levels) => Step { at: rest.at, value: Ok(seq![level] + levels) },
                }
            },
        }
    }
}

/// Reads the signs of the trailing ones from `index` on.
pub open spec fn signs_read(bits: Seq<bool>, at: int, index: int, ones: int) -> Step<Seq<int>>
    decreases ones - index,
{
    if index >= ones {
        Step { at, value: Ok(Seq::empty()) }
    } else if at >= bits.len() {
        Step { at, value: Err(Error::InvalidData(Fault::EndOfData)) }
    } else {
        let rest = signs_read(bits, at + 1, index + 1, ones);
        match rest.value {
            Err(error) => Step { at: rest.at, value: Err(error) },
            Ok(levels) => Step {
                at: rest.at,
                value: Ok(
                    seq![
                        if bits[at] {
                            -1int
                        } else {
                            1int
                        },
                    ] + levels,
                ),
            },
        }
    }
}

/// Reads `count` runs of zeros; what is left after them is the last run.
pub open spec fn runs_read(bits: Seq<bool>, at: int, count: int, zeros_left: int) -> Step<Seq<int>>
    decreases count,
{
    if count <= 0 {
        Step { at, value: Ok(seq![zeros_left]) }
    } else {
        let head = if zeros_left == 0 {
            Step { at, value: Ok(0) }
        } else {
            run_read(bits, at, zeros_left)
        };
        match head.value {
            Err(error) => Step { at: head.at, value: Err(error) },
            Ok(run) => if run > zeros_left {
                Step { at: head.at, value: Err(Error::InvalidData(Fault::RunRange)) }
            } else {
                let rest = runs_read(bits, head.at, count - 1, zeros_left - run);
                match rest.value {
                    Err(error) => Step { at: rest.at, value: Err(error) },
                    Ok(runs) => Step { at: rest.at, value: Ok(seq![run] + runs) },
                }
            },
        }
    }
}

/// Where the level `index` goes, or a place past every block.
pub open spec fn place_of(runs: Seq<int>, index: int) -> int
    decreases runs.len() - index,
{
    if index >= runs.len() {
        -1
    } else {
        place_of(runs, index + 1) + runs[index] + 1
    }
}

/// The block that holds the levels from `index` on at their places.
pub open spec fn placed(levels: Seq<int>, runs: Seq<int>, index: int, size: int) -> Seq<i32>
    decreases runs.len() - index,
{
    if index >= runs.len() {
        Seq::new(size as nat, |i: int| 0i32)
    } else {
        placed(levels, runs, index + 1, size).update(place_of(runs, index), levels[index] as i32)
    }
}

/// Reads a residual block: its coefficients and how many are not zero.
#[verifier::opaque]
pub open spec fn residual_read(bits: Seq<bool>, at: int, n_c: int, size: int) -> Step<
    (Seq<i32>, int),
> {
    let token = token_read(bits, at, n_c);
    if size != 4 && size != 15 && size != 16 {
        Step { at, value: Err(Error::Unsupported(Fault::CoefficientCount)) }
    } else {
        match token.value {
            Err(error) => Step { at: token.at, value: Err(error) },
            Ok(index) => {
                let total = index / 4;
                let ones = index % 4;
                if total > size || ones > total {
                    Step {
                        at: token.at,
                        value: Err(Error::InvalidData(Fault::CoefficientToken)),
                    }
                } else if total == 0 {
                    Step {
                        at: token.at,
                        value: Ok((Seq::new(size as nat, |i: int| 0i32), 0)),
                    }
                } else {
                    residual_body_read(bits, token.at, total, ones, size)
                }
            },
        }
    }
}

/// Reads what follows the coefficient counts of a residual block.
#[verifier::opaque]
pub open spec fn residual_body_read(
    bits: Seq<bool>,
    at: int,
    total: int,
    ones: int,
    size: int,
) -> Step<(Seq<i32>, int)> {
    let signs = signs_read(bits, at, 0, ones);
    match signs.value {
        Err(error) => Step { at: signs.at, value: Err(error) },
        Ok(first_levels) => {
            let body = levels_read(
                bits,
                signs.at,
                ones,
                total,
                ones,
                first_suffix_length(total, ones),
            );
            match body.value {
                Err(error) => Step { at: body.at, value: Err(error) },
                Ok(last_levels) => residual_tail_read(
                    bits,
                    body.at,
                    first_levels + last_levels,
                    size,
                ),
            }
        },
    }
}

/// Reads what follows the levels of a residual block.
#[verifier::opaque]
pub open spec fn residual_tail_read(bits: Seq<bool>, at: int, levels: Seq<int>, size: int) -> Step<
    (Seq<i32>, int),
> {
    let total = levels.len() as int;
    let zeros = if total == size {
        Step { at, value: Ok(0) }
    } else {
        zeros_read(bits, at, total, size)
    };
    match zeros.value {
        Err(error) => Step { at: zeros.at, value: Err(error) },
        Ok(count) => {
            let tail = runs_read(bits, zeros.at, total - 1, count);
            match tail.value {
                Err(error) => Step { at: tail.at, value: Err(error) },
                Ok(runs) => if place_of(runs, 0) >= size {
                    Step { at: tail.at, value: Err(Error::InvalidData(Fault::RunOverflow)) }
                } else {
                    Step { at: tail.at, value: Ok((placed(levels, runs, 0, size), total)) }
                },
            }
        },
    }
}

/// Writes one level.
///
/// # Errors
///
/// Returns an error for a trailing one where none is allowed, and for a level that is too large.
pub fn write_level(
    writer: &mut BitWriter,
    level: i32,
    suffix_length: u8,
    first_non_trailing: bool,
) -> (result: Result<(), Error>)
    requires
        suffix_length <= 6,
    ensures
        match level_bits(level as int, suffix_length as int, first_non_trailing) {
            Ok(bits) => result == Ok::<(), Error>(()) && final(writer)@ == old(writer)@ + bits,
            Err(error) => result == Err::<(), Error>(error) && final(writer)@ == old(writer)@,
        },
{
    let doubled: i64 = 2 * (level as i64);
    let adjusted: i64 = if level > 0 {
        doubled - 2
    } else {
        -doubled - 1
    };
    let code: i64 = if first_non_trailing {
        adjusted - 2
    } else {
        adjusted
    };
    if code < 0 {
        return Err(Error::InvalidData(Fault::TrailingLevel));
    }
    let mut prefix: u8 = 0;
    while prefix <= 31
        invariant
            0 <= code == level_code(level as int, first_non_trailing),
            suffix_length <= 6,
            prefix <= 32,
            writer@ == old(writer)@,
            prefix_from(code as int, suffix_length as int, 0) == prefix_from(
                code as int,
                suffix_length as int,
                prefix as int,
            ),
        decreases 32 - prefix,
    {
        let size: u8 = if prefix == 14 && suffix_length == 0 {
            4
        } else if prefix >= 15 {
            prefix - 3
        } else {
            suffix_length
        };
        let base: i64 = level_base_of(prefix, suffix_length);
        let limit: i64 = two_to(size) as i64;
        if code >= base && code - base < limit {
            let mut done: u8 = 0;
            assert(writer@ =~= old(writer)@ + Seq::new(0, |i: int| false));
            while done < prefix
                invariant
                    done <= prefix,
                    writer@ == old(writer)@ + Seq::new(done as nat, |i: int| false),
                decreases prefix - done,
            {
                writer.write_bit(false);
                done = done + 1;
                assert(writer@ =~= old(writer)@ + Seq::new(done as nat, |i: int| false));
            }
            writer.write_bit(true);
            writer.write_bits((code - base) as u64, size);
            assert(writer@ =~= old(writer)@ + prefixed_bits(
                code as int,
                suffix_length as int,
                prefix as int,
            ));
            return Ok(());
        }
        prefix = prefix + 1;
    }
    Err(Error::Unsupported(Fault::LevelRange))
}

/// The smallest number that is written with a prefix.
fn level_base_of(prefix: u8, suffix_length: u8) -> (base: i64)
    requires
        prefix <= 31,
        suffix_length <= 6,
    ensures
        base == level_base(prefix as int, suffix_length as int),
        0 <= base <= 0x2000_0000,
{
    let step: i64 = two_to(suffix_length) as i64;
    proof {
        reveal_with_fuel(power_of_two, 7);
        lemma_powers_of_two();
    }
    let factor: i64 = if prefix < 15 {
        prefix as i64
    } else {
        15
    };
    assert(0 <= factor * step <= 15 * 64) by (nonlinear_arith)
        requires
            0 <= factor <= 15,
            0 <= step <= 64,
    ;
    let mut base: i64 = factor * step;
    if prefix >= 15 && suffix_length == 0 {
        base = base + 15;
    }
    if prefix >= 16 {
        proof {
            lemma_power_monotonic((prefix - 3) as nat, 28);
            lemma_power_monotonic(12, (prefix - 3) as nat);
        }
        base = base + (two_to(prefix - 3) as i64 - 4096);
    }
    base
}

/// What is known of the places of the coefficients that are not zero.
pub proof fn lemma_descending(coefficients: Seq<i32>, end: int)
    requires
        0 <= end <= coefficients.len(),
    ensures
        descending(coefficients, end).len() <= end,
        forall|i: int|
            0 <= i < descending(coefficients, end).len() ==> {
                let place = #[trigger] descending(coefficients, end)[i];
                0 <= place < end && coefficients[place] != 0 && place >= descending(
                    coefficients,
                    end,
                ).len() - 1 - i
            },
        forall|i: int, j: int|
            0 <= i < j < descending(coefficients, end).len() ==> #[trigger] descending(
                coefficients,
                end,
            )[i] > #[trigger] descending(coefficients, end)[j],
        forall|place: int|
            0 <= place < end && #[trigger] coefficients[place] != 0 ==> descending(
                coefficients,
                end,
            ).contains(place),
    decreases end,
{
    if end > 0 {
        lemma_descending(coefficients, end - 1);
        let shorter = descending(coefficients, end - 1);
        let all = descending(coefficients, end);
        if coefficients[end - 1] != 0 {
            assert(all =~= seq![end - 1] + shorter);
            assert forall|place: int|
                0 <= place < end && #[trigger] coefficients[place] != 0 implies all.contains(
                place,
            ) by {
                if place == end - 1 {
                    assert(all[0] == place);
                } else {
                    assert(shorter.contains(place));
                    let i = choose|i: int| 0 <= i < shorter.len() && shorter[i] == place;
                    assert(all[i + 1] == place);
                }
            }
        }
    }
}

pub proof fn lemma_ones(levels: Seq<int>, index: int)
    requires
        0 <= index <= 3,
    ensures
        0 <= ones_from(levels, index) <= 3 - index,
        ones_from(levels, index) == 0 || index + ones_from(levels, index) <= levels.len(),
        forall|i: int|
            index <= i < index + ones_from(levels, index) ==> magnitude(#[trigger] levels[i]) == 1,
        index + ones_from(levels, index) < 3 && index + ones_from(levels, index) < levels.len()
            ==> magnitude(levels[index + ones_from(levels, index)]) != 1,
    decreases 3 - index,
{
    if index < 3 && index < levels.len() && magnitude(levels[index]) == 1 {
        lemma_ones(levels, index + 1);
    }
}

/// The suffix length that follows a level.
fn suffix_length_after(suffix_length: u8, level: i32) -> (next: u8)
    requires
        suffix_length <= 6,
    ensures
        next == next_suffix_length(suffix_length as int, level as int),
        1 <= next <= 6,
{
    let current: u8 = if suffix_length == 0 {
        1
    } else {
        suffix_length
    };
    let wide: i64 = level as i64;
    let size: i64 = if wide < 0 {
        -wide
    } else {
        wide
    };
    let limit: i64 = 3 * two_to(current - 1) as i64;
    if size > limit && current < 6 {
        current + 1
    } else {
        current
    }
}

/// The numbers in a list of levels.
pub open spec fn numbers(levels: Seq<i32>) -> Seq<int> {
    Seq::new(levels.len(), |i: int| levels[i] as int)
}

/// The numbers in a list of places.
pub open spec fn place_numbers(places: Seq<usize>) -> Seq<int> {
    Seq::new(places.len(), |i: int| places[i] as int)
}

/// The coefficients that are not zero, last one first: their places and their levels.
fn collect_levels(coefficients: &[i32]) -> (found: (Vec<usize>, Vec<i32>))
    ensures
        place_numbers(found.0@) == descending(coefficients@, coefficients@.len() as int),
        numbers(found.1@) == levels_of(coefficients@),
{
    let size: usize = coefficients.len();
    let ghost expected = descending(coefficients@, size as int);
    let mut places: Vec<usize> = Vec::new();
    let mut levels: Vec<i32> = Vec::new();
    let mut end: usize = size;
    assert(place_numbers(places@) + descending(coefficients@, end as int) =~= expected);
    while end > 0
        invariant
            end <= size == coefficients@.len(),
            places@.len() == levels@.len(),
            expected == descending(coefficients@, size as int),
            place_numbers(places@) + descending(coefficients@, end as int) == expected,
            forall|i: int|
                0 <= i < places@.len() ==> levels@[i] == coefficients@[#[trigger] places@[i] as int],
        decreases end,
    {
        let ghost before = place_numbers(places@);
        let ghost rest = descending(coefficients@, end - 1);
        end = end - 1;
        if coefficients[end] != 0 {
            places.push(end);
            levels.push(coefficients[end]);
            assert(place_numbers(places@) + rest =~= before + (seq![end as int] + rest));
        }
    }
    assert(place_numbers(places@) =~= expected);
    assert forall|i: int| 0 <= i < levels@.len() implies #[trigger] numbers(levels@)[i]
        == levels_of(coefficients@)[i] by {
        assert(place_numbers(places@)[i] == expected[i]);
        assert(levels@[i] == coefficients@[places@[i] as int]);
    }
    assert(numbers(levels@) =~= levels_of(coefficients@));
    (places, levels)
}

/// How many trailing ones a list of levels has.
fn count_ones(levels: &[i32]) -> (ones: u8)
    ensures
        ones == trailing_ones(numbers(levels@)),
        ones <= 3,
        ones <= levels@.len(),
{
    let ghost expected = numbers(levels@);
    let mut ones: u8 = 0;
    while ones < 3 && (ones as usize) < levels.len() && (levels[ones as usize] == 1
        || levels[ones as usize] == -1)
        invariant
            ones <= 3,
            ones <= levels@.len(),
            expected == numbers(levels@),
            trailing_ones(expected) == ones + ones_from(expected, ones as int),
        decreases 3 - ones,
    {
        ones = ones + 1;
    }
    ones
}

/// Writes the signs of the trailing ones.
fn write_signs(writer: &mut BitWriter, levels: &[i32], ones: u8)
    requires
        ones <= levels@.len(),
    ensures
        final(writer)@ == old(writer)@ + signs_written(numbers(levels@), ones as int),
{
    let ghost signs = signs_written(numbers(levels@), ones as int);
    let mut index: u8 = 0;
    assert(writer@ =~= old(writer)@ + signs.take(0));
    while index < ones
        invariant
            index <= ones <= levels@.len(),
            signs == signs_written(numbers(levels@), ones as int),
            writer@ == old(writer)@ + signs.take(index as int),
        decreases ones - index,
    {
        writer.write_bit(levels[index as usize] < 0);
        assert(signs.take(index + 1) =~= signs.take(index as int).push(signs[index as int]));
        index = index + 1;
        assert(writer@ =~= old(writer)@ + signs.take(index as int));
    }
    assert(signs.take(ones as int) =~= signs);
}

/// Writes the levels that follow the trailing ones.
fn write_levels(writer: &mut BitWriter, levels: &[i32], ones: u8) -> (result: Result<(), Error>)
    requires
        ones <= levels@.len(),
    ensures
        ({
            let written = levels_written(
                numbers(levels@),
                ones as int,
                ones as int,
                first_suffix_length(levels@.len() as int, ones as int),
            );
            &&& final(writer)@ == old(writer)@ + written.0
            &&& result == written.1
        }),
{
    let mut suffix_length: u8 = if levels.len() > 10 && ones < 3 {
        1
    } else {
        0
    };
    let ghost expected = numbers(levels@);
    let ghost body = levels_written(expected, ones as int, ones as int, suffix_length as int);
    let mut index: usize = ones as usize;
    while index < levels.len()
        invariant
            ones <= index <= levels@.len(),
            expected == numbers(levels@),
            suffix_length <= 6,
            ({
                let rest = levels_written(
                    expected,
                    index as int,
                    ones as int,
                    suffix_length as int,
                );
                &&& writer@ + rest.0 == old(writer)@ + body.0
                &&& rest.1 == body.1
            }),
            body == levels_written(
                expected,
                ones as int,
                ones as int,
                first_suffix_length(levels@.len() as int, ones as int),
            ),
        decreases levels@.len() - index,
    {
        let level: i32 = levels[index];
        assert(level == expected[index as int]);
        let ghost before = writer@;
        let ghost rest = levels_written(
            expected,
            index as int,
            ones as int,
            suffix_length as int,
        );
        if let Err(error) = write_level(
            writer,
            level,
            suffix_length,
            index == ones as usize && ones < 3,
        ) {
            assert(writer@ + Seq::<bool>::empty() =~= writer@);
            return Err(error);
        }
        suffix_length = suffix_length_after(suffix_length, level);
        index = index + 1;
        assert(writer@ + levels_written(
            expected,
            index as int,
            ones as int,
            suffix_length as int,
        ).0 =~= before + rest.0);
    }
    assert(writer@ + Seq::<bool>::empty() =~= writer@);
    Ok(())
}

/// Whether `places` are the descending places of coefficients in a block of at most sixteen.
spec fn are_places(places: Seq<usize>) -> bool {
    &&& 1 <= places.len() <= 16
    &&& forall|i: int|
        0 <= i < places.len() ==> (#[trigger] places[i]) < 16 && places[i] >= places.len() - 1 - i
    &&& forall|i: int, j: int|
        0 <= i < j < places.len() ==> #[trigger] places[i] > #[trigger] places[j]
}

/// Writes the runs of zeros between the coefficients.
fn write_runs(writer: &mut BitWriter, places: &[usize]) -> (result: Result<(), Error>)
    requires
        are_places(places@),
    ensures
        result == Ok::<(), Error>(()),
        final(writer)@ == old(writer)@ + runs_written(
            place_numbers(places@),
            0,
            places@[0] + 1 - places@.len(),
        ),
{
    let total: usize = places.len();
    let mut zeros_left: u8 = (places[0] + 1 - total) as u8;
    let ghost expected = place_numbers(places@);
    let ghost runs = runs_written(expected, 0, zeros_left as int);
    let mut index: usize = 0;
    while index + 1 < total && zeros_left != 0
        invariant
            index < total == places@.len(),
            are_places(places@),
            expected == place_numbers(places@),
            zeros_left == places@[index as int] - (total - 1 - index),
            writer@ + runs_written(expected, index as int, zeros_left as int) == old(writer)@
                + runs,
        decreases total - index,
    {
        let ghost before = writer@;
        let ghost left = zeros_left as int;
        assert(places@[index as int] > places@[index + 1]);
        let run: u8 = (places[index] - places[index + 1] - 1) as u8;
        proof {
            assert(places@[0] < 16);
            if index > 0 {
                assert(places@[0] > places@[index as int]);
            }
            lemma_run_entry(zeros_left as int, run as int);
        }
        if let Err(error) = write_run_before(writer, zeros_left, run) {
            return Err(error);
        }
        zeros_left = zeros_left - run;
        index = index + 1;
        assert(run == expected[index - 1] - expected[index as int] - 1);
        assert(writer@ + runs_written(expected, index as int, zeros_left as int) =~= before
            + runs_written(expected, index - 1, left));
    }
    assert(writer@ + Seq::<bool>::empty() =~= writer@);
    Ok(())
}

/// Writes a residual block and says how many of its coefficients are not zero.
///
/// # Errors
///
/// Returns an error for a block of an unsupported size, for counts that the context has no code
/// for, and for a level that is too large.
#[verifier::spinoff_prover]
#[verifier::rlimit(40)]
pub fn encode_residual_block(writer: &mut BitWriter, n_c: i8, coefficients: &[i32]) -> (result:
    Result<u8, Error>)
    ensures
        result == residual_written(n_c as int, coefficients@).1,
        final(writer)@ == old(writer)@ + residual_written(n_c as int, coefficients@).0,
{
    reveal(residual_written);
    let size: usize = coefficients.len();
    assert(writer@ =~= old(writer)@ + Seq::<bool>::empty());
    if size > 255 {
        return Err(Error::InvalidData(Fault::CoefficientCount));
    }
    if size != 4 && size != 15 && size != 16 {
        return Err(Error::Unsupported(Fault::CoefficientCount));
    }
    let (places, levels) = collect_levels(coefficients);
    let ghost expected_places = descending(coefficients@, size as int);
    let ghost expected_levels = levels_of(coefficients@);
    proof {
        lemma_descending(coefficients@, size as int);
        assert(place_numbers(places@).len() == expected_places.len());
        assert(numbers(levels@).len() == expected_levels.len());
        assert forall|i: int| 0 <= i < places@.len() implies (#[trigger] places@[i]) < 16
            && places@[i] >= places@.len() - 1 - i by {
            assert(place_numbers(places@)[i] == expected_places[i]);
        }
        assert forall|i: int, j: int| 0 <= i < j < places@.len() implies #[trigger] places@[i]
            > #[trigger] places@[j] by {
            assert(place_numbers(places@)[i] == expected_places[i]);
            assert(place_numbers(places@)[j] == expected_places[j]);
        }
    }
    let total: u8 = levels.len() as u8;
    let ones: u8 = count_ones(levels.as_slice());
    if let Err(error) = write_coeff_token(writer, n_c, total, ones) {
        return Err(error);
    }
    if total == 0 {
        return Ok(0);
    }
    write_signs(writer, levels.as_slice(), ones);
    if let Err(error) = write_levels(writer, levels.as_slice(), ones) {
        proof {
            let written = residual_written(n_c as int, coefficients@);
            assert(writer@ =~= old(writer)@ + written.0);
        }
        return Err(error);
    }
    let zeros: u8 = (places[0] + 1 - total as usize) as u8;
    assert(place_numbers(places@)[0] == expected_places[0]);
    let ghost before = writer@;
    if total as usize != size {
        proof {
            lemma_zeros_entry(total as int, size as int, zeros as int);
        }
        if let Err(error) = write_total_zeros(writer, total, size as u8, zeros) {
            return Err(error);
        }
    }
    assert(writer@ =~= before + zeros_written(total as int, size as int, zeros as int));
    if let Err(error) = write_runs(writer, places.as_slice()) {
        return Err(error);
    }
    proof {
        let written = residual_written(n_c as int, coefficients@);
        assert(writer@ =~= old(writer)@ + written.0);
    }
    Ok(total)
}

/// Reads a level prefix.
fn read_level_prefix(reader: &mut BitReader<'_>) -> (result: Result<u8, Error>)
    requires
        old(reader).valid(),
    ensures
        ({
            let step = prefix_read(old(reader).all_bits(), old(reader).consumed(), 0);
            &&& stepped(old(reader), final(reader), step, result)
            &&& result matches Ok(prefix) ==> step.value == Ok::<int, Error>(prefix as int)
                && prefix <= 31
        }),
{
    let ghost bits = reader.all_bits();
    let ghost step = prefix_read(bits, reader.consumed(), 0);
    let mut prefix: u8 = 0;
    loop
        invariant
            prefix <= 31,
            reader.valid(),
            bits == reader.all_bits(),
            bits == old(reader).all_bits(),
            step == prefix_read(bits, old(reader).consumed(), 0),
            step == prefix_read(bits, reader.consumed(), prefix as int),
        decreases 32 - prefix,
    {
        let ghost position = reader.consumed();
        assert(reader.remaining().len() == bits.len() - position);
        match reader.read_bit() {
            Ok(bit) => {
                assert(bit == bits[position]);
                if bit {
                    return Ok(prefix);
                }
            },
            Err(error) => {
                return Err(error);
            },
        }
        if prefix >= 31 {
            return Err(Error::InvalidData(Fault::LevelPrefix));
        }
        prefix = prefix + 1;
    }
}

/// Reads one level.
fn read_level(reader: &mut BitReader<'_>, suffix_length: u8, first: bool) -> (result: Result<
    i32,
    Error,
>)
    requires
        old(reader).valid(),
        suffix_length <= 6,
    ensures
        ({
            let step = level_read(
                old(reader).all_bits(),
                old(reader).consumed(),
                suffix_length as int,
                first,
            );
            &&& stepped(old(reader), final(reader), step, result)
            &&& result matches Ok(level) ==> step.value == Ok::<int, Error>(level as int)
        }),
{
    let prefix: u8 = match read_level_prefix(reader) {
        Ok(prefix) => prefix,
        Err(error) => {
            return Err(error);
        },
    };
    let size: u8 = if prefix == 14 && suffix_length == 0 {
        4
    } else if prefix >= 15 {
        prefix - 3
    } else {
        suffix_length
    };
    let ghost bits = reader.all_bits();
    let ghost position = reader.consumed();
    assert(reader.remaining().len() == bits.len() - position);
    let suffix: u64 = match reader.read_bits(size) {
        Ok(suffix) => suffix,
        Err(error) => {
            return Err(error);
        },
    };
    proof {
        let taken = bits.skip(position).take(size as int);
        assert(taken =~= bits.subrange(position, position + size));
        lemma_bits_value_bound(taken);
        lemma_power_monotonic(size as nat, 28);
        lemma_powers_of_two();
    }
    let base: i64 = level_base_of(prefix, suffix_length);
    let code: i64 = base + suffix as i64 + if first {
        2
    } else {
        0
    };
    let level: i64 = if code % 2 == 0 {
        (code + 2) / 2
    } else {
        -((code + 1) / 2)
    };
    Ok(level as i32)
}

/// Reads the signs of the trailing ones.
fn read_signs(reader: &mut BitReader<'_>, ones: u8) -> (result: Result<Vec<i32>, Error>)
    requires
        old(reader).valid(),
    ensures
        ({
            let step = signs_read(old(reader).all_bits(), old(reader).consumed(), 0, ones as int);
            &&& stepped(old(reader), final(reader), step, result)
            &&& result matches Ok(levels) ==> step.value == Ok::<Seq<int>, Error>(numbers(levels@))
                && levels@.len() == ones
        }),
{
    let ghost bits = reader.all_bits();
    let ghost step = signs_read(bits, reader.consumed(), 0, ones as int);
    let mut levels: Vec<i32> = Vec::new();
    let mut index: u8 = 0;
    proof {
        if let Ok(rest) = step.value {
            assert(numbers(levels@) + rest =~= rest);
        }
    }
    while index < ones
        invariant
            index <= ones,
            index == levels@.len(),
            reader.valid(),
            bits == reader.all_bits(),
            bits == old(reader).all_bits(),
            step == signs_read(bits, old(reader).consumed(), 0, ones as int),
            ({
                let rest = signs_read(bits, reader.consumed(), index as int, ones as int);
                &&& step.at == rest.at
                &&& step.value == joined(numbers(levels@), rest.value)
            }),
        decreases ones - index,
    {
        let ghost position = reader.consumed();
        let ghost before = numbers(levels@);
        let ghost tail = signs_read(bits, position + 1, index + 1, ones as int);
        assert(reader.remaining().len() == bits.len() - position);
        let bit = match reader.read_bit() {
            Ok(bit) => bit,
            Err(error) => {
                return Err(error);
            },
        };
        assert(bit == bits[position]);
        let level: i32 = if bit {
            -1
        } else {
            1
        };
        levels.push(level);
        assert(numbers(levels@) =~= before.push(level as int));
        proof {
            if let Ok(rest) = tail.value {
                assert(before + (seq![level as int] + rest) =~= numbers(levels@) + rest);
            }
        }
        index = index + 1;
    }
    assert(numbers(levels@) + Seq::<int>::empty() =~= numbers(levels@));
    Ok(levels)
}

/// A list followed by what a later step gives, unless that step failed.
pub open spec fn joined(found: Seq<int>, rest: Result<Seq<int>, Error>) -> Result<Seq<int>, Error> {
    match rest {
        Ok(rest) => Ok(found + rest),
        Err(error) => Err(error),
    }
}

/// Reads the levels that follow the trailing ones.
fn read_levels(reader: &mut BitReader<'_>, total: u8, ones: u8) -> (result: Result<
    Vec<i32>,
    Error,
>)
    requires
        old(reader).valid(),
        ones <= total,
    ensures
        ({
            let step = levels_read(
                old(reader).all_bits(),
                old(reader).consumed(),
                ones as int,
                total as int,
                ones as int,
                first_suffix_length(total as int, ones as int),
            );
            &&& stepped(old(reader), final(reader), step, result)
            &&& result matches Ok(levels) ==> step.value == Ok::<Seq<int>, Error>(numbers(levels@))
                && levels@.len() == total - ones
        }),
{
    let mut suffix_length: u8 = if total > 10 && ones < 3 {
        1
    } else {
        0
    };
    let ghost bits = reader.all_bits();
    let ghost step = levels_read(
        bits,
        reader.consumed(),
        ones as int,
        total as int,
        ones as int,
        suffix_length as int,
    );
    let mut levels: Vec<i32> = Vec::new();
    let mut index: u8 = ones;
    proof {
        if let Ok(rest) = step.value {
            assert(numbers(levels@) + rest =~= rest);
        }
    }
    while index < total
        invariant
            ones <= index <= total,
            index == ones + levels@.len(),
            suffix_length <= 6,
            reader.valid(),
            bits == reader.all_bits(),
            bits == old(reader).all_bits(),
            step == levels_read(
                bits,
                old(reader).consumed(),
                ones as int,
                total as int,
                ones as int,
                first_suffix_length(total as int, ones as int),
            ),
            ({
                let rest = levels_read(
                    bits,
                    reader.consumed(),
                    index as int,
                    total as int,
                    ones as int,
                    suffix_length as int,
                );
                &&& step.at == rest.at
                &&& step.value == joined(numbers(levels@), rest.value)
            }),
        decreases total - index,
    {
        let ghost before = numbers(levels@);
        let level: i32 = match read_level(reader, suffix_length, index == ones && ones < 3) {
            Ok(level) => level,
            Err(error) => {
                return Err(error);
            },
        };
        levels.push(level);
        assert(numbers(levels@) =~= before.push(level as int));
        suffix_length = suffix_length_after(suffix_length, level);
        index = index + 1;
        proof {
            let tail = levels_read(
                bits,
                reader.consumed(),
                index as int,
                total as int,
                ones as int,
                suffix_length as int,
            );
            if let Ok(rest) = tail.value {
                assert(before + (seq![level as int] + rest) =~= numbers(levels@) + rest);
            }
        }
    }
    assert(numbers(levels@) + Seq::<int>::empty() =~= numbers(levels@));
    Ok(levels)
}

/// Reads the runs of zeros; what is left after them is the last run.
fn read_runs(reader: &mut BitReader<'_>, count: u8, zeros: u8) -> (result: Result<Vec<u8>, Error>)
    requires
        old(reader).valid(),
    ensures
        ({
            let step = runs_read(
                old(reader).all_bits(),
                old(reader).consumed(),
                count as int,
                zeros as int,
            );
            &&& stepped(old(reader), final(reader), step, result)
            &&& result matches Ok(runs) ==> step.value == Ok::<Seq<int>, Error>(
                run_numbers(runs@),
            ) && runs@.len() == count + 1
        }),
{
    let ghost bits = reader.all_bits();
    let ghost step = runs_read(bits, reader.consumed(), count as int, zeros as int);
    let mut runs: Vec<u8> = Vec::new();
    let mut zeros_left: u8 = zeros;
    let mut done: u8 = 0;
    proof {
        if let Ok(rest) = step.value {
            assert(run_numbers(runs@) + rest =~= rest);
        }
    }
    while done < count
        invariant
            done <= count,
            done == runs@.len(),
            reader.valid(),
            bits == reader.all_bits(),
            bits == old(reader).all_bits(),
            step == runs_read(bits, old(reader).consumed(), count as int, zeros as int),
            ({
                let rest = runs_read(
                    bits,
                    reader.consumed(),
                    count - done,
                    zeros_left as int,
                );
                &&& step.at == rest.at
                &&& step.value == joined(run_numbers(runs@), rest.value)
            }),
        decreases count - done,
    {
        let ghost before = run_numbers(runs@);
        let run: u8 = if zeros_left == 0 {
            0
        } else {
            match decode_run_before(reader, zeros_left) {
                Ok(run) => run,
                Err(error) => {
                    return Err(error);
                },
            }
        };
        if run > zeros_left {
            return Err(Error::InvalidData(Fault::RunRange));
        }
        zeros_left = zeros_left - run;
        runs.push(run);
        done = done + 1;
        assert(run_numbers(runs@) =~= before.push(run as int));
        proof {
            let tail = runs_read(bits, reader.consumed(), count - done, zeros_left as int);
            if let Ok(rest) = tail.value {
                assert(before + (seq![run as int] + rest) =~= run_numbers(runs@) + rest);
            }
        }
    }
    let ghost before = run_numbers(runs@);
    runs.push(zeros_left);
    assert(run_numbers(runs@) =~= before + seq![zeros_left as int]);
    Ok(runs)
}

/// The numbers in a list of runs.
pub open spec fn run_numbers(runs: Seq<u8>) -> Seq<int> {
    Seq::new(runs.len(), |i: int| runs[i] as int)
}

proof fn lemma_places_ascend(runs: Seq<int>, low: int, high: int)
    requires
        0 <= low <= high <= runs.len(),
        forall|i: int| 0 <= i < runs.len() ==> #[trigger] runs[i] >= 0,
    ensures
        -1 <= place_of(runs, high) <= place_of(runs, low),
    decreases runs.len() - low,
{
    if low < runs.len() {
        if low < high {
            lemma_places_ascend(runs, low + 1, high);
        } else {
            lemma_places_ascend(runs, low + 1, low + 1);
        }
    }
}

/// Puts levels at their places in a block.
fn place_levels(levels: &[i32], runs: &[u8], size: u8) -> (result: Result<Vec<i32>, Error>)
    requires
        levels@.len() == runs@.len(),
        levels@.len() <= 255,
    ensures
        if place_of(run_numbers(runs@), 0) >= size {
            result == Err::<Vec<i32>, Error>(Error::InvalidData(Fault::RunOverflow))
        } else {
            result matches Ok(coefficients) && coefficients@ == placed(
                numbers(levels@),
                run_numbers(runs@),
                0,
                size as int,
            )
        },
{
    let mut coefficients: Vec<i32> = vec![0i32; size as usize];
    let ghost all = run_numbers(runs@);
    let ghost lv = numbers(levels@);
    let mut index: usize = levels.len();
    let mut place: i64 = -1;
    assert(coefficients@ =~= placed(lv, all, index as int, size as int));
    while index > 0
        invariant
            index <= levels@.len() == runs@.len(),
            levels@.len() <= 255,
            all == run_numbers(runs@),
            lv == numbers(levels@),
            place == place_of(all, index as int),
            -1 <= place < 256 * (levels@.len() - index),
            place < size,
            coefficients@.len() == size,
            coefficients@ == placed(lv, all, index as int, size as int),
        decreases index,
    {
        index = index - 1;
        place = place + runs[index] as i64 + 1;
        if place >= size as i64 {
            proof {
                lemma_places_ascend(all, 0, index as int);
            }
            return Err(Error::InvalidData(Fault::RunOverflow));
        }
        coefficients[place as usize] = levels[index];
    }
    Ok(coefficients)
}

/// Whether a block parsing step ended as `step` says.
pub open spec fn block_stepped(
    before: &BitReader<'_>,
    after: &BitReader<'_>,
    step: Step<(Seq<i32>, int)>,
    result: Result<ResidualBlock, Error>,
) -> bool {
    &&& stepped(before, after, step, result)
    &&& result matches Ok(block) ==> step.value == Ok::<(Seq<i32>, int), Error>(
        (block.coefficients@, block.total_coeff as int),
    )
}

/// Reads what follows the levels of a residual block.
fn read_residual_tail(reader: &mut BitReader<'_>, levels: &[i32], size: u8) -> (result: Result<
    ResidualBlock,
    Error,
>)
    requires
        old(reader).valid(),
        1 <= levels@.len() <= size,
        size == 4 || size == 15 || size == 16,
    ensures
        block_stepped(
            old(reader),
            final(reader),
            residual_tail_read(
                old(reader).all_bits(),
                old(reader).consumed(),
                numbers(levels@),
                size as int,
            ),
            result,
        ),
{
    reveal(residual_tail_read);
    let total: u8 = levels.len() as u8;
    let zeros: u8 = if total == size {
        0
    } else {
        match decode_total_zeros(reader, total, size) {
            Ok(zeros) => zeros,
            Err(error) => {
                return Err(error);
            },
        }
    };
    let runs: Vec<u8> = match read_runs(reader, total - 1, zeros) {
        Ok(runs) => runs,
        Err(error) => {
            return Err(error);
        },
    };
    match place_levels(levels, runs.as_slice(), size) {
        Ok(coefficients) => Ok(ResidualBlock { coefficients, total_coeff: total }),
        Err(error) => Err(error),
    }
}

/// Reads what follows the coefficient counts of a residual block.
fn read_residual_body(reader: &mut BitReader<'_>, total: u8, ones: u8, size: u8) -> (result: Result<
    ResidualBlock,
    Error,
>)
    requires
        old(reader).valid(),
        1 <= total <= size,
        ones <= total,
        size == 4 || size == 15 || size == 16,
    ensures
        block_stepped(
            old(reader),
            final(reader),
            residual_body_read(
                old(reader).all_bits(),
                old(reader).consumed(),
                total as int,
                ones as int,
                size as int,
            ),
            result,
        ),
{
    reveal(residual_body_read);
    let mut levels: Vec<i32> = match read_signs(reader, ones) {
        Ok(levels) => levels,
        Err(error) => {
            return Err(error);
        },
    };
    let last_levels: Vec<i32> = match read_levels(reader, total, ones) {
        Ok(levels) => levels,
        Err(error) => {
            return Err(error);
        },
    };
    let ghost first_levels = levels@;
    levels.extend_from_slice(last_levels.as_slice());
    assert(numbers(levels@) =~= numbers(first_levels) + numbers(last_levels@));
    read_residual_tail(reader, levels.as_slice(), size)
}

/// Reads a residual block.
///
/// # Errors
///
/// Returns an error for an unsupported block size and for bits that code no such block.
pub fn decode_residual_block(reader: &mut BitReader<'_>, n_c: i8, max_num_coeff: u8) -> (result:
    Result<ResidualBlock, Error>)
    requires
        old(reader).valid(),
    ensures
        block_stepped(
            old(reader),
            final(reader),
            residual_read(
                old(reader).all_bits(),
                old(reader).consumed(),
                n_c as int,
                max_num_coeff as int,
            ),
            result,
        ),
{
    reveal(residual_read);
    if max_num_coeff != 4 && max_num_coeff != 15 && max_num_coeff != 16 {
        return Err(Error::Unsupported(Fault::CoefficientCount));
    }
    let (total, ones): (u8, u8) = match decode_coeff_token(reader, n_c) {
        Ok(counts) => counts,
        Err(error) => {
            return Err(error);
        },
    };
    if total > max_num_coeff || ones > total {
        return Err(Error::InvalidData(Fault::CoefficientToken));
    }
    if total == 0 {
        let coefficients: Vec<i32> = vec![0i32; max_num_coeff as usize];
        assert(coefficients@ =~= Seq::new(max_num_coeff as nat, |i: int| 0i32));
        return Ok(ResidualBlock { coefficients, total_coeff: 0 });
    }
    read_residual_body(reader, total, ones, max_num_coeff)
}

} // verus!
