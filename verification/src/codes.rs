//! Code tables: writing an entry, and reading the code of one.

use vstd::prelude::*;

use crate::bits::{bits_of, bits_value, lemma_power_monotonic, power_of_two, BitReader, BitWriter};
use crate::error::{Error, Fault};

verus! {

/// What a parsing step gives, and where it leaves the reader.
pub struct Step<T> {
    /// The place of the next unread bit.
    pub at: int,
    /// The parsed value.
    pub value: Result<T, Error>,
}

/// The bits of entry `index` of a code table, if it has one.
pub open spec fn entry_bits(lengths: Seq<u8>, codes: Seq<u16>, index: int) -> Option<Seq<bool>> {
    if 0 <= index < lengths.len() && lengths[index] != 0 {
        Some(bits_of(codes[index] as nat, lengths[index] as nat))
    } else {
        None
    }
}

/// The first entry from `index` on with the given length and code, or the table's length.
pub open spec fn match_from(
    lengths: Seq<u8>,
    codes: Seq<u16>,
    length: int,
    code: int,
    index: int,
) -> int
    decreases lengths.len() - index,
{
    if index >= lengths.len() {
        lengths.len() as int
    } else if lengths[index] == length && codes[index] == code {
        index
    } else {
        match_from(lengths, codes, length, code, index + 1)
    }
}

/// Reads a code of a table whose first `length - 1` bits matched no entry.
pub open spec fn code_read(
    bits: Seq<bool>,
    start: int,
    lengths: Seq<u8>,
    codes: Seq<u16>,
    length: int,
    longest: int,
    fault: Fault,
) -> Step<int>
    decreases longest + 1 - length,
{
    if length > longest {
        Step { at: start + length - 1, value: Err(Error::InvalidData(fault)) }
    } else if start + length > bits.len() {
        Step { at: start + length - 1, value: Err(Error::InvalidData(Fault::EndOfData)) }
    } else {
        let code = bits_value(bits.subrange(start, start + length)) as int;
        let index = match_from(lengths, codes, length, code, 0);
        if index < lengths.len() {
            Step { at: start + length, value: Ok(index) }
        } else {
            code_read(bits, start, lengths, codes, length + 1, longest, fault)
        }
    }
}

/// Writes entry `index` of a code table.
pub fn write_entry(
    writer: &mut BitWriter,
    lengths: &[u8],
    codes: &[u16],
    index: usize,
    fault: Fault,
) -> (result: Result<(), Error>)
    requires
        lengths@.len() == codes@.len(),
        forall|i: int| 0 <= i < lengths@.len() ==> #[trigger] lengths@[i] <= 16,
    ensures
        match entry_bits(lengths@, codes@, index as int) {
            Some(bits) => result == Ok::<(), Error>(()) && final(writer)@ == old(writer)@ + bits,
            None => result == Err::<(), Error>(Error::InvalidData(fault)) && final(writer)@ == old(
                writer)@,
        },
{
    if index >= lengths.len() || lengths[index] == 0 {
        return Err(Error::InvalidData(fault));
    }
    writer.write_bits(codes[index] as u64, lengths[index]);
    Ok(())
}

/// The first entry of a code table with the given length and code.
pub fn find_entry(lengths: &[u8], codes: &[u16], length: u8, code: u32) -> (index: usize)
    requires
        lengths@.len() == codes@.len(),
    ensures
        index == match_from(lengths@, codes@, length as int, code as int, 0),
        index <= lengths@.len(),
{
    let mut index: usize = 0;
    while index < lengths.len() && !(lengths[index] == length && codes[index] as u32 == code)
        invariant
            index <= lengths@.len() == codes@.len(),
            match_from(lengths@, codes@, length as int, code as int, 0) == match_from(
                lengths@,
                codes@,
                length as int,
                code as int,
                index as int,
            ),
        decreases lengths@.len() - index,
    {
        index = index + 1;
    }
    index
}

/// Whether a parsing step ended as `step` says.
pub open spec fn stepped<T, U>(
    before: &BitReader<'_>,
    after: &BitReader<'_>,
    step: Step<T>,
    result: Result<U, Error>,
) -> bool {
    &&& after.valid()
    &&& after.all_bits() == before.all_bits()
    &&& after.consumed() == step.at
    &&& match step.value {
        Ok(_) => result is Ok,
        Err(error) => result == Err::<U, Error>(error),
    }
}

/// Reads a code of a table.
pub fn decode_vlc(
    reader: &mut BitReader<'_>,
    lengths: &[u8],
    codes: &[u16],
    max_length: u8,
    fault: Fault,
) -> (result: Result<usize, Error>)
    requires
        old(reader).valid(),
        lengths@.len() == codes@.len(),
        max_length <= 16,
    ensures
        ({
            let step = code_read(
                old(reader).all_bits(),
                old(reader).consumed(),
                lengths@,
                codes@,
                1,
                max_length as int,
                fault,
            );
            &&& stepped(old(reader), final(reader), step, result)
            &&& result matches Ok(index) ==> step.value == Ok::<int, Error>(index as int) && index
                < lengths@.len()
        }),
{
    let ghost bits = reader.all_bits();
    let ghost start = reader.consumed();
    let ghost step = code_read(bits, start, lengths@, codes@, 1, max_length as int, fault);
    let mut code: u32 = 0;
    let mut length: u8 = 1;
    assert(bits.subrange(start, start) =~= Seq::<bool>::empty());
    while length <= max_length
        invariant
            1 <= length <= max_length + 1,
            max_length <= 16,
            lengths@.len() == codes@.len(),
            reader.valid(),
            bits == reader.all_bits(),
            bits == old(reader).all_bits(),
            start == old(reader).consumed(),
            0 <= start,
            reader.consumed() == start + length - 1,
            code == bits_value(bits.subrange(start, start + length - 1)),
            code < power_of_two((length - 1) as nat),
            step == code_read(bits, start, lengths@, codes@, 1, max_length as int, fault),
            step == code_read(
                bits,
                start,
                lengths@,
                codes@,
                length as int,
                max_length as int,
                fault,
            ),
        decreases max_length + 1 - length,
    {
        let ghost position = reader.consumed();
        assert(reader.remaining().len() == bits.len() - position);
        let bit = match reader.read_bit() {
            Ok(bit) => bit,
            Err(error) => {
                return Err(error);
            },
        };
        proof {
            assert(bit == bits[position]);
            let grown = bits.subrange(start, start + length);
            assert(grown.drop_last() =~= bits.subrange(start, start + length - 1));
            lemma_power_monotonic((length - 1) as nat, 16);
            reveal_with_fuel(power_of_two, 17);
        }
        code = code * 2 + if bit {
            1
        } else {
            0
        };
        let index: usize = find_entry(lengths, codes, length, code);
        if index < lengths.len() {
            return Ok(index);
        }
        length = length + 1;
    }
    Err(Error::InvalidData(fault))
}

} // verus!
