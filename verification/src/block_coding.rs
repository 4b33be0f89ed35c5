//! Residual blocks whose levels always have a code.

use vstd::prelude::*;

use crate::bits::{power_of_two, BitWriter};
use crate::cavlc::{
    descending, encode_residual_block, first_suffix_length, lemma_descending, lemma_ones,
    level_base, level_bits, level_code, levels_of, levels_written, next_suffix_length, prefix_fits,
    prefix_from, residual_written, suffix_size, trailing_ones,
};
use crate::math::{lemma_powers_of_two, magnitude};
use crate::residual_tables::lemma_token_entry;
use crate::transform::{ints, within};

verus! {

/// The levels as machine integers.
pub open spec fn narrow(levels: Seq<int>) -> Seq<i32> {
    Seq::new(levels.len(), |i: int| levels[i] as i32)
}

/// The bits of a block of levels.
pub open spec fn block_bits(n_c: int, levels: Seq<int>) -> Seq<bool> {
    residual_written(n_c, narrow(levels)).0
}

/// How many levels of a block are not zero.
pub open spec fn block_total(levels: Seq<int>) -> u8 {
    descending(narrow(levels), levels.len() as int).len() as u8
}

/// Whether a block of `size` levels may be written where `n_c` coefficients are predicted.
pub open spec fn block_context(n_c: int, size: int) -> bool {
    if n_c == -1 {
        size == 4
    } else {
        0 <= n_c && (size == 15 || size == 16)
    }
}

/// The ranges of numbers that the prefixes stand for follow each other.
proof fn lemma_bases_follow(suffix_length: int, prefix: int)
    requires
        0 <= suffix_length <= 6,
        0 <= prefix < 31,
    ensures
        level_base(prefix + 1, suffix_length) == level_base(prefix, suffix_length) + power_of_two(
            suffix_size(prefix, suffix_length),
        ),
{
    lemma_powers_of_two();
    if prefix >= 16 {
        assert(power_of_two((prefix - 2) as nat) == 2 * power_of_two((prefix - 3) as nat));
    } else if prefix == 15 {
        assert(power_of_two(13) == 2 * power_of_two(12));
    }
    let width = power_of_two(suffix_length as nat) as int;
    assert((prefix + 1) * width == prefix * width + width) by (nonlinear_arith);
}

proof fn lemma_prefix_reached(code: int, suffix_length: int, prefix: int)
    requires
        0 <= suffix_length <= 6,
        0 <= prefix <= 31,
        level_base(prefix, suffix_length) <= code <= 0x1000_0000,
    ensures
        prefix_from(code, suffix_length, prefix) < 32,
    decreases 32 - prefix,
{
    lemma_powers_of_two();
    if !prefix_fits(code, suffix_length, prefix) {
        if prefix < 31 {
            lemma_bases_follow(suffix_length, prefix);
            lemma_prefix_reached(code, suffix_length, prefix + 1);
        } else {
            let width = power_of_two(suffix_length as nat) as int;
            assert(15 * width >= 15);
        }
    }
}

/// Every level of the encoder has a code.
proof fn lemma_level_coded(level: int, suffix_length: int, first: bool)
    requires
        0 <= suffix_length <= 6,
        level != 0,
        magnitude(level) <= 0x800_0000,
        first ==> magnitude(level) != 1,
    ensures
        level_bits(level, suffix_length, first) is Ok,
{
    let code = level_code(level, first);
    assert(0 * power_of_two(suffix_length as nat) == 0) by (nonlinear_arith);
    lemma_prefix_reached(code, suffix_length, 0);
}

proof fn lemma_levels_coded(levels: Seq<int>, index: int, ones: int, suffix_length: int)
    requires
        0 <= index,
        0 <= suffix_length <= 6,
        forall|i: int|
            0 <= i < levels.len() ==> #[trigger] levels[i] != 0 && magnitude(levels[i])
                <= 0x800_0000,
        ones < 3 && ones < levels.len() ==> magnitude(levels[ones]) != 1,
    ensures
        levels_written(levels, index, ones, suffix_length).1 is Ok,
    decreases levels.len() - index,
{
    if index < levels.len() {
        lemma_level_coded(levels[index], suffix_length, index == ones && ones < 3);
        lemma_levels_coded(
            levels,
            index + 1,
            ones,
            next_suffix_length(suffix_length, levels[index]),
        );
    }
}

/// A block of the encoder can always be written.
pub proof fn lemma_block_coded(n_c: int, levels: Seq<i32>)
    requires
        block_context(n_c, levels.len() as int),
        within(ints(levels), 0x800_0000),
    ensures
        residual_written(n_c, levels).1 == Ok::<u8, crate::error::Error>(
            descending(levels, levels.len() as int).len() as u8,
        ),
        descending(levels, levels.len() as int).len() <= 16,
{
    reveal(residual_written);
    lemma_descending(levels, levels.len() as int);
    let found = levels_of(levels);
    let places = descending(levels, levels.len() as int);
    lemma_ones(found, 0);
    let ones = trailing_ones(found);
    let total = found.len() as int;
    lemma_token_entry(n_c, total, ones);
    assert forall|i: int| 0 <= i < total implies #[trigger] found[i] != 0 && magnitude(found[i])
        <= 0x800_0000 by {
        assert(found[i] == levels[places[i]]);
        assert(ints(levels)[places[i]] == levels[places[i]]);
    }
    lemma_levels_coded(found, ones, ones, first_suffix_length(total, ones));
}

/// Writes a block of levels and says how many of them are not zero.
pub fn write_block(writer: &mut BitWriter, n_c: i8, levels: &[i32]) -> (total: u8)
    requires
        block_context(n_c as int, levels@.len() as int),
        within(ints(levels@), 0x800_0000),
    ensures
        final(writer)@ == old(writer)@ + block_bits(n_c as int, ints(levels@)),
        total == block_total(ints(levels@)),
        total <= 16,
{
    proof {
        assert(narrow(ints(levels@)) =~= levels@);
        lemma_block_coded(n_c as int, levels@);
    }
    match encode_residual_block(writer, n_c, levels) {
        Ok(total) => total,
        Err(_) => 0,
    }
}

} // verus!
