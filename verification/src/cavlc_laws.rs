//! Residual blocks read back as they were written.

use vstd::prelude::*;

use crate::bits::{
    bits_of, bits_value, law_bits_value_of_bits, lemma_bits_of_len, power_of_two,
};
use crate::cavlc::{
    code_level, descending, first_suffix_length, lemma_descending, lemma_ones, level_base,
    level_bits, level_code, level_read, levels_of, levels_read, levels_written, next_suffix_length,
    place_of, placed, prefix_fits, prefix_from, prefix_read, residual_body_read, residual_read,
    residual_tail_read, residual_written, runs_read, runs_written, signs_read, signs_written,
    suffix_size, trailing_ones, zeros_written,
};
use crate::code_tables::{
    high, lemma_low, lemma_run_longest, lemma_run_prefix_free, lemma_token_prefix_free, lemma_zeros_longest,
    lemma_zeros_prefix_free, low, prefix_free, width,
};
use crate::codes::{code_read, entry_bits, match_from, Step};
use crate::error::{Error, Fault};
use crate::math::magnitude;
use crate::residual_tables::{
    lemma_run_entry, lemma_zeros_entry, run_codes, run_lengths, token_codes, token_lengths,
    token_read, zeros_codes, zeros_lengths,
};

verus! {

/// Whether `bits` holds `part` at `at`.
pub open spec fn holds(bits: Seq<bool>, at: int, part: Seq<bool>) -> bool {
    &&& 0 <= at
    &&& at + part.len() <= bits.len()
    &&& bits.subrange(at, at + part.len()) == part
}

proof fn lemma_holds_split(bits: Seq<bool>, at: int, left: Seq<bool>, right: Seq<bool>)
    requires
        holds(bits, at, left + right),
    ensures
        holds(bits, at, left),
        holds(bits, at + left.len(), right),
{
    let whole = bits.subrange(at, at + left.len() + right.len());
    assert(whole == left + right);
    assert(bits.subrange(at, at + left.len()) =~= whole.take(left.len() as int));
    assert(whole.take(left.len() as int) =~= left);
    assert(bits.subrange(at + left.len(), at + left.len() + right.len()) =~= whole.skip(
        left.len() as int,
    ));
    assert(whole.skip(left.len() as int) =~= right);
}

proof fn lemma_width(length: int)
    requires
        1 <= length <= 16,
    ensures
        width(length) == power_of_two((16 - length) as nat),
{
    reveal_with_fuel(power_of_two, 17);
}

proof fn lemma_power_sum(left: nat, right: nat)
    ensures
        power_of_two(left + right) == power_of_two(left) * power_of_two(right),
        power_of_two(left) >= 1,
    decreases left,
{
    if left > 0 {
        lemma_power_sum((left - 1) as nat, right);
        let half = power_of_two((left - 1) as nat);
        let other = power_of_two(right);
        assert(power_of_two(left + right) == 2 * power_of_two((left - 1 + right) as nat));
        assert(2 * (half * other) == (2 * half) * other) by (nonlinear_arith);
    } else {
        assert(power_of_two(0) == 1);
    }
}

proof fn lemma_divide_by_one(code: nat)
    ensures
        code / power_of_two(0) == code,
{
    let one = power_of_two(0);
    assert(one == 1);
    assert(code / one == code) by (nonlinear_arith)
        requires
            one == 1,
    ;
}

proof fn lemma_prefix_value(code: nat, length: nat, count: nat)
    requires
        code < power_of_two(length),
        count <= length,
    ensures
        bits_value(bits_of(code, length).take(count as int)) == code / power_of_two(
            (length - count) as nat,
        ),
    decreases length,
{
    lemma_bits_of_len(code, length);
    if count == length {
        law_bits_value_of_bits(code, length);
        assert(bits_of(code, length).take(count as int) =~= bits_of(code, length));
        lemma_divide_by_one(code);
    } else {
        let half = code / 2;
        let shorter = (length - 1) as nat;
        lemma_bits_of_len(half, shorter);
        assert(power_of_two(length) == 2 * power_of_two(shorter));
        lemma_prefix_value(half, shorter, count);
        assert(bits_of(code, length).take(count as int) =~= bits_of(half, shorter).take(
            count as int,
        ));
        let power = power_of_two((shorter - count) as nat);
        lemma_power_sum((shorter - count) as nat, 0);
        assert(power_of_two((length - count) as nat) == 2 * power);
        assert((code / 2) / power == code / (2 * power)) by {
            vstd::arithmetic::div_mod::lemma_div_denominator(code as int, 2, power as int);
        }
    }
}

proof fn lemma_match_none(lengths: Seq<u8>, codes: Seq<u16>, length: int, code: int, index: int)
    requires
        0 <= index <= lengths.len(),
        forall|i: int|
            index <= i < lengths.len() ==> !(#[trigger] lengths[i] == length && codes[i] == code),
    ensures
        match_from(lengths, codes, length, code, index) == lengths.len(),
    decreases lengths.len() - index,
{
    if index < lengths.len() {
        lemma_match_none(lengths, codes, length, code, index + 1);
    }
}

proof fn lemma_match_only(
    lengths: Seq<u8>,
    codes: Seq<u16>,
    length: int,
    code: int,
    index: int,
    only: int,
)
    requires
        0 <= index <= only < lengths.len(),
        lengths[only] == length,
        codes[only] == code,
        forall|i: int|
            index <= i < only ==> !(#[trigger] lengths[i] == length && codes[i] == code),
    ensures
        match_from(lengths, codes, length, code, index) == only,
    decreases only - index,
{
    if index < only {
        lemma_match_only(lengths, codes, length, code, index + 1, only);
    }
}

/// A code shorter than that of an entry, made of the entry's first bits, belongs to no entry.
proof fn lemma_no_shorter(
    lengths: Seq<u8>,
    codes: Seq<u16>,
    entry: int,
    length: int,
    code: int,
    index: int,
)
    requires
        prefix_free(lengths, codes),
        0 <= entry < lengths.len(),
        0 <= index < lengths.len(),
        1 <= length <= lengths[entry],
        lengths[index] == length,
        codes[index] == code,
        code == codes[entry] as nat / power_of_two((lengths[entry] - length) as nat),
    ensures
        index == entry,
{
    let full = lengths[entry] as int;
    let ratio = power_of_two((full - length) as nat) as int;
    let value = codes[entry] as int;
    lemma_power_sum((full - length) as nat, (16 - full) as nat);
    lemma_width(length);
    lemma_width(full);
    let narrow = width(full);
    assert(width(length) == ratio * narrow);
    assert(code * ratio <= value < (code + 1) * ratio) by (nonlinear_arith)
        requires
            code == value / ratio,
            ratio >= 1,
            value >= 0,
    ;
    assert(code * (ratio * narrow) <= value * narrow && value * narrow < code * (ratio * narrow)
        + ratio * narrow) by (nonlinear_arith)
        requires
            code * ratio <= value < (code + 1) * ratio,
            narrow >= 1,
    ;
    lemma_low(lengths[index], codes[index]);
    lemma_low(lengths[entry], codes[entry]);
    assert(low(lengths[index], codes[index]) <= low(lengths[entry], codes[entry]));
    assert(low(lengths[entry], codes[entry]) < high(lengths[index], codes[index]));
    if index < entry {
        assert(lengths[index] > 0 && lengths[entry] > 0);
    } else if entry < index {
        assert(lengths[entry] > 0 && lengths[index] > 0);
    }
}

proof fn lemma_code_read_from(
    bits: Seq<bool>,
    start: int,
    lengths: Seq<u8>,
    codes: Seq<u16>,
    length: int,
    longest: int,
    fault: Fault,
    entry: int,
)
    requires
        prefix_free(lengths, codes),
        entry_bits(lengths, codes, entry) is Some,
        holds(bits, start, entry_bits(lengths, codes, entry)->Some_0),
        1 <= length <= lengths[entry] <= longest,
    ensures
        code_read(bits, start, lengths, codes, length, longest, fault) == (Step {
            at: start + lengths[entry],
            value: Ok::<int, Error>(entry),
        }),
    decreases lengths[entry] - length,
{
    let full = lengths[entry] as nat;
    let value = codes[entry] as nat;
    let part = bits_of(value, full);
    lemma_bits_of_len(value, full);
    lemma_width(full as int);
    lemma_low(lengths[entry], codes[entry]);
    lemma_power_sum(full, (16 - full) as nat);
    lemma_power_of_sixteen();
    assert(value < power_of_two(full)) by (nonlinear_arith)
        requires
            value * width(full as int) + width(full as int) <= 65536,
            power_of_two(full) * width(full as int) == 65536,
            width(full as int) >= 1,
    ;
    lemma_prefix_value(value, full, length as nat);
    assert(bits.subrange(start, start + length) =~= part.take(length));
    let code = bits_value(bits.subrange(start, start + length)) as int;
    if length < full {
        assert forall|i: int| 0 <= i < lengths.len() implies !(#[trigger] lengths[i] == length
            && codes[i] == code) by {
            if lengths[i] == length && codes[i] == code {
                lemma_no_shorter(lengths, codes, entry, length, code, i);
            }
        }
        lemma_match_none(lengths, codes, length, code, 0);
        lemma_code_read_from(bits, start, lengths, codes, length + 1, longest, fault, entry);
    } else {
        lemma_divide_by_one(value);
        assert forall|i: int| 0 <= i < entry implies !(#[trigger] lengths[i] == length && codes[i]
            == code) by {
            if lengths[i] == length && codes[i] == code {
                lemma_no_shorter(lengths, codes, entry, length, code, i);
            }
        }
        lemma_match_only(lengths, codes, length, code, 0, entry);
    }
}

proof fn lemma_power_of_sixteen()
    ensures
        power_of_two(16) == 65536,
{
    reveal_with_fuel(power_of_two, 17);
}

proof fn lemma_prefix_from(code: int, suffix_length: int, prefix: int)
    requires
        0 <= prefix <= 32,
    ensures
        prefix <= prefix_from(code, suffix_length, prefix) <= 32,
        prefix_from(code, suffix_length, prefix) < 32 ==> prefix_fits(
            code,
            suffix_length,
            prefix_from(code, suffix_length, prefix),
        ),
    decreases 32 - prefix,
{
    if prefix < 32 && !prefix_fits(code, suffix_length, prefix) {
        lemma_prefix_from(code, suffix_length, prefix + 1);
    }
}

proof fn lemma_prefix_read(bits: Seq<bool>, at: int, count: int, prefix: int)
    requires
        0 <= count <= prefix <= 31,
        0 <= at,
        at + (prefix - count) < bits.len(),
        forall|i: int| at <= i < at + (prefix - count) ==> !#[trigger] bits[i],
        bits[at + (prefix - count)],
    ensures
        prefix_read(bits, at, count) == (Step {
            at: at + (prefix - count) + 1,
            value: Ok::<int, Error>(prefix),
        }),
    decreases prefix - count,
{
    if count < prefix {
        assert(!bits[at]);
        lemma_prefix_read(bits, at + 1, count + 1, prefix);
    }
}

proof fn lemma_level_read(bits: Seq<bool>, at: int, level: int, suffix_length: int, first: bool)
    requires
        level != 0,
        0 <= suffix_length,
        level_bits(level, suffix_length, first) is Ok,
        holds(bits, at, level_bits(level, suffix_length, first)->Ok_0),
    ensures
        level_read(bits, at, suffix_length, first) == (Step {
            at: at + level_bits(level, suffix_length, first)->Ok_0.len(),
            value: Ok::<int, Error>(level),
        }),
{
    let code = level_code(level, first);
    lemma_prefix_from(code, suffix_length, 0);
    let prefix = prefix_from(code, suffix_length, 0);
    let zeros = Seq::new(prefix as nat, |i: int| false).push(true);
    let size = suffix_size(prefix, suffix_length);
    let rest = (code - level_base(prefix, suffix_length)) as nat;
    let suffix = bits_of(rest, size);
    assert(level_bits(level, suffix_length, first)->Ok_0 == zeros + suffix);
    lemma_holds_split(bits, at, zeros, suffix);
    let head = bits.subrange(at, at + zeros.len());
    assert forall|i: int| at <= i < at + prefix implies !#[trigger] bits[i] by {
        assert(head[i - at] == bits[i]);
    }
    assert(head[prefix] == bits[at + prefix]);
    lemma_prefix_read(bits, at, 0, prefix);
    law_bits_value_of_bits(rest, size);
    assert(code_level(code + 2 * crate::math::unit(first)) == level);
}

/// Whether every level is a coefficient.
spec fn all_nonzero(levels: Seq<int>) -> bool {
    forall|i: int| 0 <= i < levels.len() ==> #[trigger] levels[i] != 0
}

proof fn lemma_levels_read(
    bits: Seq<bool>,
    at: int,
    levels: Seq<int>,
    index: int,
    ones: int,
    suffix_length: int,
)
    requires
        0 <= index <= levels.len(),
        0 <= suffix_length,
        all_nonzero(levels),
        levels_written(levels, index, ones, suffix_length).1 is Ok,
        holds(bits, at, levels_written(levels, index, ones, suffix_length).0),
    ensures
        ({
            let step = levels_read(
                bits,
                at,
                index,
                levels.len() as int,
                ones,
                suffix_length,
            );
            &&& step.at == at + levels_written(levels, index, ones, suffix_length).0.len()
            &&& step.value == Ok::<Seq<int>, Error>(levels.skip(index))
        }),
    decreases levels.len() - index,
{
    if index < levels.len() {
        let level = levels[index];
        let first = index == ones && ones < 3;
        let part = level_bits(level, suffix_length, first)->Ok_0;
        let next = next_suffix_length(suffix_length, level);
        let rest = levels_written(levels, index + 1, ones, next);
        lemma_holds_split(bits, at, part, rest.0);
        lemma_level_read(bits, at, level, suffix_length, first);
        lemma_levels_read(bits, at + part.len(), levels, index + 1, ones, next);
        assert(levels.skip(index) =~= seq![level] + levels.skip(index + 1));
    } else {
        assert(levels.skip(index) =~= Seq::empty());
    }
}

proof fn lemma_signs_read(bits: Seq<bool>, at: int, levels: Seq<int>, index: int, ones: int)
    requires
        0 <= index <= ones <= levels.len(),
        forall|i: int| 0 <= i < ones ==> magnitude(#[trigger] levels[i]) == 1,
        holds(bits, at, signs_written(levels, ones).skip(index)),
    ensures
        signs_read(bits, at, index, ones) == (Step {
            at: at + (ones - index),
            value: Ok::<Seq<int>, Error>(levels.subrange(index, ones)),
        }),
    decreases ones - index,
{
    if index < ones {
        let signs = signs_written(levels, ones);
        assert(signs.skip(index) =~= seq![signs[index]] + signs.skip(index + 1));
        lemma_holds_split(bits, at, seq![signs[index]], signs.skip(index + 1));
        let head = bits.subrange(at, at + 1);
        assert(head[0] == bits[at]);
        assert(head == seq![signs[index]]);
        assert(bits[at] == (levels[index] < 0));
        assert(magnitude(levels[index]) == 1);
        lemma_signs_read(bits, at + 1, levels, index + 1, ones);
        assert(levels.subrange(index, ones) =~= seq![levels[index]] + levels.subrange(
            index + 1,
            ones,
        ));
    } else {
        assert(levels.subrange(index, ones) =~= Seq::empty());
    }
}

/// The runs of zeros below the coefficients from `index` on.
spec fn runs_of(places: Seq<int>, index: int) -> Seq<int> {
    Seq::new(
        (places.len() - index) as nat,
        |i: int|
            if index + i + 1 < places.len() {
                places[index + i] - places[index + i + 1] - 1
            } else {
                places[index + i]
            },
    )
}

/// Whether `places` are descending places in a block of at most sixteen coefficients.
spec fn descend(places: Seq<int>) -> bool {
    &&& 1 <= places.len() <= 16
    &&& forall|i: int|
        0 <= i < places.len() ==> places.len() - 1 - i <= #[trigger] places[i] < 16
    &&& forall|i: int, j: int|
        0 <= i < j < places.len() ==> #[trigger] places[i] > #[trigger] places[j]
}

proof fn lemma_runs_read(bits: Seq<bool>, at: int, places: Seq<int>, index: int, zeros_left: int)
    requires
        descend(places),
        0 <= index < places.len(),
        zeros_left == places[index] - (places.len() - 1 - index),
        holds(bits, at, runs_written(places, index, zeros_left)),
    ensures
        ({
            let step = runs_read(bits, at, places.len() - 1 - index, zeros_left);
            &&& step.at == at + runs_written(places, index, zeros_left).len()
            &&& step.value == Ok::<Seq<int>, Error>(runs_of(places, index))
        }),
    decreases places.len() - index,
{
    let all = runs_of(places, index);
    if index + 1 < places.len() {
        let run = places[index] - places[index + 1] - 1;
        assert(places[index] > places[index + 1]);
        assert(all =~= seq![run] + runs_of(places, index + 1));
        if zeros_left == 0 {
            assert(run == 0);
            assert(runs_written(places, index, zeros_left) =~= runs_written(
                places,
                index + 1,
                zeros_left,
            ));
            lemma_runs_read(bits, at, places, index + 1, zeros_left);
        } else {
            assert(places[0] < 16);
            if index > 0 {
                assert(places[0] > places[index]);
            }
            lemma_run_entry(zeros_left, run);
            lemma_run_prefix_free(zeros_left);
            let lengths = run_lengths(zeros_left);
            let codes = run_codes(zeros_left);
            let part = entry_bits(lengths, codes, run)->Some_0;
            let rest = runs_written(places, index + 1, zeros_left - run);
            lemma_holds_split(bits, at, part, rest);
            lemma_bits_of_len(codes[run] as nat, lengths[run] as nat);
            lemma_run_longest(zeros_left, run);
            lemma_code_read_from(
                bits,
                at,
                lengths,
                codes,
                1,
                11,
                Fault::RunBeforeCode,
                run,
            );
            lemma_runs_read(bits, at + part.len(), places, index + 1, zeros_left - run);
        }
    } else {
        assert(all =~= seq![zeros_left]);
    }
}

proof fn lemma_places_read(places: Seq<int>, index: int)
    requires
        0 <= index <= places.len(),
    ensures
        place_of(runs_of(places, 0), index) == if index < places.len() {
            places[index]
        } else {
            -1
        },
    decreases places.len() - index,
{
    if index < places.len() {
        lemma_places_read(places, index + 1);
    }
}

proof fn lemma_placed(coefficients: Seq<i32>, index: int)
    requires
        0 <= index <= descending(coefficients, coefficients.len() as int).len(),
    ensures
        ({
            let places = descending(coefficients, coefficients.len() as int);
            let block = placed(
                levels_of(coefficients),
                runs_of(places, 0),
                index,
                coefficients.len() as int,
            );
            let top = if index < places.len() {
                places[index]
            } else {
                -1
            };
            &&& block.len() == coefficients.len()
            &&& forall|p: int|
                0 <= p < coefficients.len() ==> #[trigger] block[p] == if p <= top {
                    coefficients[p]
                } else {
                    0
                }
        }),
    decreases descending(coefficients, coefficients.len() as int).len() - index,
{
    let size = coefficients.len() as int;
    let places = descending(coefficients, size);
    let levels = levels_of(coefficients);
    let runs = runs_of(places, 0);
    lemma_descending(coefficients, size);
    lemma_places_read(places, index);
    if index < places.len() {
        lemma_placed(coefficients, index + 1);
        let earlier = placed(levels, runs, index + 1, size);
        let block = placed(levels, runs, index, size);
        let place = places[index];
        assert(levels[index] == coefficients[place]);
        let below = if index + 1 < places.len() {
            places[index + 1]
        } else {
            -1
        };
        assert forall|p: int| 0 <= p < size implies #[trigger] block[p] == if p <= place {
            coefficients[p]
        } else {
            0
        } by {
            if p != place {
                assert(block[p] == earlier[p]);
                if below < p < place && coefficients[p] != 0 {
                    assert(places.contains(p));
                    let j = choose|j: int| 0 <= j < places.len() && places[j] == p;
                    if j < index {
                        assert(places[j] > places[index]);
                    } else if j > index + 1 {
                        assert(places[index + 1] > places[j]);
                    }
                }
            }
        }
    } else {
        let block = placed(levels, runs, index, size);
        assert forall|p: int| 0 <= p < size implies #[trigger] block[p] == 0 by {}
    }
}

proof fn lemma_tail_read(bits: Seq<bool>, at: int, coefficients: Seq<i32>)
    requires
        ({
            let size = coefficients.len() as int;
            let places = descending(coefficients, size);
            let total = places.len() as int;
            &&& size == 4 || size == 15 || size == 16
            &&& total > 0
            &&& holds(
                bits,
                at,
                zeros_written(total, size, places[0] + 1 - total) + runs_written(
                    places,
                    0,
                    places[0] + 1 - total,
                ),
            )
        }),
    ensures
        ({
            let size = coefficients.len() as int;
            let places = descending(coefficients, size);
            let total = places.len() as int;
            let zeros = places[0] + 1 - total;
            let step = residual_tail_read(bits, at, levels_of(coefficients), size);
            &&& step.at == at + zeros_written(total, size, zeros).len() + runs_written(
                places,
                0,
                zeros,
            ).len()
            &&& step.value == Ok::<(Seq<i32>, int), Error>((coefficients, total))
        }),
{
    reveal(residual_tail_read);
    let size = coefficients.len() as int;
    let places = descending(coefficients, size);
    let total = places.len() as int;
    let levels = levels_of(coefficients);
    let zeros = places[0] + 1 - total;
    let zero_bits = zeros_written(total, size, zeros);
    let run_bits = runs_written(places, 0, zeros);
    lemma_descending(coefficients, size);
    lemma_holds_split(bits, at, zero_bits, run_bits);
    assert(places[0] < size && places[0] >= total - 1);
    if total < size {
        lemma_zeros_entry(total, size, zeros);
        lemma_zeros_prefix_free(total, size);
        let lengths = zeros_lengths(total, size);
        let codes = zeros_codes(total, size);
        lemma_bits_of_len(codes[zeros] as nat, lengths[zeros] as nat);
        lemma_zeros_longest(total, size, zeros);
        lemma_code_read_from(
            bits,
            at,
            lengths,
            codes,
            1,
            if size == 4 {
                3
            } else {
                9
            },
            Fault::TotalZerosCode,
            zeros,
        );
    } else {
        assert(zeros == 0);
    }
    lemma_runs_read(bits, at + zero_bits.len(), places, 0, zeros);
    lemma_places_read(places, 0);
    lemma_placed(coefficients, 0);
    assert forall|p: int| 0 <= p < size && p > places[0] implies coefficients[p] == 0 by {
        if coefficients[p] != 0 {
            assert(places.contains(p));
            let j = choose|j: int| 0 <= j < places.len() && places[j] == p;
            if j > 0 {
                assert(places[0] > places[j]);
            }
        }
    }
    assert(placed(levels, runs_of(places, 0), 0, size) =~= coefficients);
}

/// What follows the coefficient counts of a residual block.
spec fn body_written(coefficients: Seq<i32>) -> Seq<bool> {
    let size = coefficients.len() as int;
    let places = descending(coefficients, size);
    let levels = levels_of(coefficients);
    let total = levels.len() as int;
    let ones = trailing_ones(levels);
    let zeros = places[0] + 1 - total;
    signs_written(levels, ones) + (levels_written(
        levels,
        ones,
        ones,
        first_suffix_length(total, ones),
    ).0 + (zeros_written(total, size, zeros) + runs_written(places, 0, zeros)))
}

proof fn lemma_body_read(bits: Seq<bool>, at: int, coefficients: Seq<i32>)
    requires
        ({
            let size = coefficients.len() as int;
            let levels = levels_of(coefficients);
            let total = levels.len() as int;
            let ones = trailing_ones(levels);
            &&& size == 4 || size == 15 || size == 16
            &&& total > 0
            &&& levels_written(levels, ones, ones, first_suffix_length(total, ones)).1 is Ok
            &&& holds(bits, at, body_written(coefficients))
        }),
    ensures
        ({
            let levels = levels_of(coefficients);
            let step = residual_body_read(
                bits,
                at,
                levels.len() as int,
                trailing_ones(levels),
                coefficients.len() as int,
            );
            &&& step.at == at + body_written(coefficients).len()
            &&& step.value == Ok::<(Seq<i32>, int), Error>((coefficients, levels.len() as int))
        }),
{
    reveal(residual_body_read);
    let size = coefficients.len() as int;
    let places = descending(coefficients, size);
    let levels = levels_of(coefficients);
    let total = levels.len() as int;
    let ones = trailing_ones(levels);
    lemma_descending(coefficients, size);
    lemma_ones(levels, 0);
    let signs = signs_written(levels, ones);
    let body = levels_written(levels, ones, ones, first_suffix_length(total, ones));
    let zeros = places[0] + 1 - total;
    let tail = zeros_written(total, size, zeros) + runs_written(places, 0, zeros);
    lemma_holds_split(bits, at, signs, body.0 + tail);
    assert(signs.skip(0) =~= signs);
    lemma_signs_read(bits, at, levels, 0, ones);
    let after_signs = at + ones;
    lemma_holds_split(bits, after_signs, body.0, tail);
    assert forall|i: int| 0 <= i < levels.len() implies #[trigger] levels[i] != 0 by {
        assert(coefficients[places[i]] != 0);
    }
    lemma_levels_read(bits, after_signs, levels, ones, ones, first_suffix_length(total, ones));
    assert(levels.subrange(0, ones) + levels.skip(ones) =~= levels);
    lemma_tail_read(bits, after_signs + body.0.len(), coefficients);
}

proof fn lemma_token_read(bits: Seq<bool>, at: int, n_c: int, entry: int)
    requires
        entry_bits(token_lengths(n_c), token_codes(n_c), entry) is Some,
        holds(bits, at, entry_bits(token_lengths(n_c), token_codes(n_c), entry)->Some_0),
    ensures
        token_read(bits, at, n_c) == (Step {
            at: at + entry_bits(token_lengths(n_c), token_codes(n_c), entry)->Some_0.len(),
            value: Ok::<int, Error>(entry),
        }),
{
    lemma_token_prefix_free(n_c);
    let lengths = token_lengths(n_c);
    let codes = token_codes(n_c);
    lemma_bits_of_len(codes[entry] as nat, lengths[entry] as nat);
    lemma_code_read_from(bits, at, lengths, codes, 1, 16, Fault::CoefficientTokenCode, entry);
}

proof fn lemma_written_shape(n_c: int, coefficients: Seq<i32>)
    requires
        residual_written(n_c, coefficients).1 is Ok,
    ensures
        ({
            let size = coefficients.len() as int;
            let levels = levels_of(coefficients);
            let total = levels.len() as int;
            let ones = trailing_ones(levels);
            let token = entry_bits(token_lengths(n_c), token_codes(n_c), 4 * total + ones);
            let written = residual_written(n_c, coefficients);
            &&& size == 4 || size == 15 || size == 16
            &&& token is Some
            &&& written.1 == Ok::<u8, Error>(total as u8)
            &&& total == 0 ==> written.0 == token->Some_0
            &&& total > 0 ==> written.0 == token->Some_0 + body_written(coefficients)
                && levels_written(levels, ones, ones, first_suffix_length(total, ones)).1 is Ok
        }),
{
    reveal(residual_written);
    let levels = levels_of(coefficients);
    let total = levels.len() as int;
    let ones = trailing_ones(levels);
    let token = entry_bits(token_lengths(n_c), token_codes(n_c), 4 * total + ones);
    if total > 0 {
        assert(residual_written(n_c, coefficients).0 =~= token->Some_0 + body_written(
            coefficients,
        ));
    }
}

proof fn lemma_read_shape(bits: Seq<bool>, at: int, n_c: int, size: int, total: int, ones: int)
    requires
        size == 4 || size == 15 || size == 16,
        token_read(bits, at, n_c).value == Ok::<int, Error>(4 * total + ones),
        0 <= ones <= 3,
        ones <= total <= size,
    ensures
        total == 0 ==> residual_read(bits, at, n_c, size) == (Step {
            at: token_read(bits, at, n_c).at,
            value: Ok::<(Seq<i32>, int), Error>((Seq::new(size as nat, |i: int| 0i32), 0)),
        }),
        total > 0 ==> residual_read(bits, at, n_c, size) == residual_body_read(
            bits,
            token_read(bits, at, n_c).at,
            total,
            ones,
            size,
        ),
{
    reveal(residual_read);
}

/// A residual block reads back as it was written, from anywhere in any stream, in the context that
/// it was written in.
pub proof fn law_residual_round_trip(bits: Seq<bool>, at: int, n_c: int, coefficients: Seq<i32>)
    requires
        residual_written(n_c, coefficients).1 is Ok,
        holds(bits, at, residual_written(n_c, coefficients).0),
    ensures
        ({
            let step = residual_read(bits, at, n_c, coefficients.len() as int);
            &&& step.at == at + residual_written(n_c, coefficients).0.len()
            &&& step.value == Ok::<(Seq<i32>, int), Error>(
                (coefficients, residual_written(n_c, coefficients).1->Ok_0 as int),
            )
        }),
{
    let size = coefficients.len() as int;
    let places = descending(coefficients, size);
    let levels = levels_of(coefficients);
    let total = levels.len() as int;
    let ones = trailing_ones(levels);
    lemma_descending(coefficients, size);
    lemma_ones(levels, 0);
    let entry = 4 * total + ones;
    let token = entry_bits(token_lengths(n_c), token_codes(n_c), entry)->Some_0;
    lemma_written_shape(n_c, coefficients);
    if total == 0 {
        lemma_token_read(bits, at, n_c, entry);
        lemma_read_shape(bits, at, n_c, size, total, ones);
        assert forall|p: int| 0 <= p < size implies coefficients[p] == 0 by {
            if coefficients[p] != 0 {
                assert(places.contains(p));
            }
        }
        assert(coefficients =~= Seq::new(size as nat, |i: int| 0i32));
    } else {
        lemma_holds_split(bits, at, token, body_written(coefficients));
        lemma_token_read(bits, at, n_c, entry);
        lemma_read_shape(bits, at, n_c, size, total, ones);
        lemma_body_read(bits, at + token.len(), coefficients);
    }
}

} // verus!
