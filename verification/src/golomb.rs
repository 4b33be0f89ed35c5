//! Exp-Golomb codes and the syntax elements that are written with them.

use vstd::prelude::*;

use crate::bits::{
    aligned, bits_of, bits_value, law_bits_value_of_bits, lemma_bits_of_len, lemma_power_monotonic,
    lemma_power_of_sixty_three, power_of_two, BitWriter,
};
use crate::error::{Error, Fault};

verus! {

/// How many binary digits `value` has.
pub open spec fn bit_length(value: nat) -> nat
    decreases value,
{
    if value == 0 {
        0
    } else {
        1 + bit_length(value / 2)
    }
}

/// `count` zero bits.
pub open spec fn zero_bits(count: nat) -> Seq<bool> {
    Seq::new(count, |i: int| false)
}

/// The unsigned Exp-Golomb code of `value`.
pub open spec fn ue_bits(value: nat) -> Seq<bool> {
    let digits = bit_length(value + 1);
    zero_bits((digits - 1) as nat) + bits_of(value + 1, digits)
}

/// The unsigned number that stands for the signed number `value`.
pub open spec fn signed_code(value: int) -> nat {
    if value <= 0 {
        (-2 * value) as nat
    } else {
        (2 * value - 1) as nat
    }
}

/// The signed Exp-Golomb code of `value`.
pub open spec fn se_bits(value: int) -> Seq<bool> {
    ue_bits(signed_code(value))
}

/// How many zero bits `bits` starts with.
pub open spec fn leading_zero_bits(bits: Seq<bool>) -> nat
    decreases bits.len(),
{
    if bits.len() == 0 || bits[0] {
        0
    } else {
        1 + leading_zero_bits(bits.skip(1))
    }
}

/// The number whose unsigned Exp-Golomb code `bits` starts with, and what follows the code.
pub open spec fn ue_decoded(bits: Seq<bool>) -> (int, Seq<bool>) {
    let zeros = leading_zero_bits(bits) as int;
    (bits_value(bits.subrange(zeros, 2 * zeros + 1)) - 1, bits.skip(2 * zeros + 1))
}

/// The signed number that an unsigned code number stands for.
pub open spec fn signed_value(code: int) -> int {
    if code % 2 == 0 {
        -(code / 2)
    } else {
        (code + 1) / 2
    }
}

/// The bits of a reference index in a list of `active_minus1 + 1` pictures.
pub open spec fn reference_index_bits(reference_index: nat, active_minus1: nat) -> Seq<bool> {
    if active_minus1 == 0 {
        Seq::empty()
    } else if active_minus1 == 1 {
        seq![reference_index == 0]
    } else {
        ue_bits(reference_index)
    }
}

proof fn lemma_bit_length(value: nat)
    requires
        value > 0,
    ensures
        bit_length(value) >= 1,
        power_of_two((bit_length(value) - 1) as nat) <= value < power_of_two(bit_length(value)),
    decreases value,
{
    if value / 2 > 0 {
        lemma_bit_length(value / 2);
        let digits = bit_length(value / 2);
        assert(power_of_two(digits) == 2 * power_of_two((digits - 1) as nat));
    } else {
        assert(bit_length(0) == 0);
        assert(power_of_two(0) == 1);
    }
    assert(power_of_two(bit_length(value)) == 2 * power_of_two((bit_length(value) - 1) as nat));
}

proof fn lemma_top_bit(value: nat, count: nat)
    requires
        count > 0,
        power_of_two((count - 1) as nat) <= value < power_of_two(count),
    ensures
        bits_of(value, count).len() == count,
        bits_of(value, count)[0],
    decreases count,
{
    lemma_bits_of_len(value, count);
    lemma_bits_of_len(value / 2, (count - 1) as nat);
    if count > 1 {
        assert(power_of_two((count - 1) as nat) == 2 * power_of_two((count - 2) as nat));
        assert(power_of_two(count) == 2 * power_of_two((count - 1) as nat));
        lemma_top_bit(value / 2, (count - 1) as nat);
    } else {
        reveal_with_fuel(power_of_two, 2);
        assert(value == 1);
    }
}

proof fn lemma_leading_zero_bits(count: nat, rest: Seq<bool>)
    requires
        rest.len() > 0,
        rest[0],
    ensures
        leading_zero_bits(zero_bits(count) + rest) == count,
    decreases count,
{
    let bits = zero_bits(count) + rest;
    if count > 0 {
        lemma_leading_zero_bits((count - 1) as nat, rest);
        assert(bits.skip(1) =~= zero_bits((count - 1) as nat) + rest);
    } else {
        assert(bits[0] == rest[0]);
    }
}

/// An unsigned Exp-Golomb code can be read back from the front of any stream that starts with it.
pub proof fn law_ue_round_trip(value: nat, tail: Seq<bool>)
    ensures
        ue_decoded(ue_bits(value) + tail) == (value as int, tail),
{
    let digits = bit_length(value + 1);
    lemma_bit_length(value + 1);
    lemma_top_bit(value + 1, digits);
    law_bits_value_of_bits(value + 1, digits);
    let body = bits_of(value + 1, digits);
    let zeros = (digits - 1) as nat;
    let bits = ue_bits(value) + tail;
    assert(bits =~= zero_bits(zeros) + (body + tail));
    lemma_leading_zero_bits(zeros, body + tail);
    assert(bits.subrange(zeros as int, 2 * zeros as int + 1) =~= body);
    assert(bits.skip(2 * zeros as int + 1) =~= tail);
}

/// A signed number can be read back from the front of any stream that starts with its code.
pub proof fn law_se_round_trip(value: int, tail: Seq<bool>)
    ensures
        signed_value(ue_decoded(se_bits(value) + tail).0) == value,
        ue_decoded(se_bits(value) + tail).1 == tail,
{
    law_ue_round_trip(signed_code(value), tail);
}

proof fn lemma_bit_length_of_word(value: nat)
    requires
        0 < value <= u64::MAX,
    ensures
        1 <= bit_length(value) <= 64,
{
    lemma_bit_length(value);
    if bit_length(value) > 64 {
        lemma_power_monotonic(64, (bit_length(value) - 1) as nat);
        lemma_power_of_sixty_three();
        assert(power_of_two(64) == 2 * power_of_two(63));
    }
}

/// Writes an unsigned Exp-Golomb code.
///
/// # Errors
///
/// Returns an error for the one value whose code number does not fit 64 bits.
pub fn write_ue(writer: &mut BitWriter, value: u64) -> (result: Result<(), Error>)
    ensures
        value < u64::MAX ==> result == Ok::<(), Error>(()) && final(writer)@ == old(writer)@
            + ue_bits(value as nat),
        value == u64::MAX ==> result == Err::<(), Error>(Error::InvalidData(Fault::UnsignedGolomb))
            && final(writer)@ == old(writer)@,
{
    if value == u64::MAX {
        return Err(Error::InvalidData(Fault::UnsignedGolomb));
    }
    let code: u64 = value + 1;
    let mut digits: u8 = 0;
    let mut rest: u64 = code;
    proof {
        lemma_bit_length_of_word(code as nat);
    }
    while rest > 0
        invariant
            digits + bit_length(rest as nat) == bit_length(code as nat),
            bit_length(code as nat) <= 64,
        decreases rest,
    {
        rest = rest / 2;
        digits = digits + 1;
    }
    writer.write_bits(0, digits - 1);
    proof {
        lemma_bits_of_zero((digits - 1) as nat);
    }
    writer.write_bits(code, digits);
    assert(writer@ =~= old(writer)@ + ue_bits(value as nat));
    Ok(())
}

/// The code of a number of 64 bits has at most 127 bits.
pub proof fn lemma_ue_length(value: nat)
    requires
        value < 0xffff_ffff_ffff_ffff,
    ensures
        1 <= ue_bits(value).len() <= 127,
{
    lemma_bit_length_of_word(value + 1);
    lemma_bit_length(value + 1);
    lemma_bits_of_len(value + 1, bit_length(value + 1));
}

proof fn lemma_bits_of_zero(count: nat)
    ensures
        bits_of(0, count) == zero_bits(count),
    decreases count,
{
    if count > 0 {
        lemma_bits_of_zero((count - 1) as nat);
    }
    assert(bits_of(0, count) =~= zero_bits(count));
}

/// Writes a signed Exp-Golomb code.
///
/// # Errors
///
/// Returns an error for the one value whose code number does not fit 64 bits.
pub fn write_se(writer: &mut BitWriter, value: i64) -> (result: Result<(), Error>)
    ensures
        value > i64::MIN ==> result == Ok::<(), Error>(()) && final(writer)@ == old(writer)@
            + se_bits(value as int),
        value == i64::MIN ==> result == Err::<(), Error>(Error::InvalidData(Fault::SignedGolomb))
            && final(writer)@ == old(writer)@,
{
    if value == i64::MIN {
        return Err(Error::InvalidData(Fault::SignedGolomb));
    }
    if value <= 0 {
        write_ue(writer, 2 * ((-value) as u64))
    } else {
        write_ue(writer, 2 * (value as u64) - 1)
    }
}

/// Writes a reference index.
///
/// # Errors
///
/// Returns an error when the index lies outside the active list.
pub fn write_reference_index(
    writer: &mut BitWriter,
    reference_index: u8,
    active_references_minus1: u32,
) -> (result: Result<(), Error>)
    ensures
        reference_index <= active_references_minus1 ==> result == Ok::<(), Error>(()) && final(writer)@ == old(writer)@ + reference_index_bits(
            reference_index as nat,
            active_references_minus1 as nat,
        ),
        reference_index > active_references_minus1 ==> result == Err::<(), Error>(
            Error::InvalidData(Fault::ReferenceIndex),
        ) && final(writer)@ == old(writer)@,
{
    if reference_index as u32 > active_references_minus1 {
        return Err(Error::InvalidData(Fault::ReferenceIndex));
    }
    if active_references_minus1 == 0 {
        assert(writer@ =~= old(writer)@ + Seq::<bool>::empty());
        Ok(())
    } else if active_references_minus1 == 1 {
        writer.write_bit(reference_index == 0);
        assert(writer@ =~= old(writer)@ + seq![reference_index == 0]);
        Ok(())
    } else {
        write_ue(writer, reference_index as u64)
    }
}

/// The bits of a payload once its stop bit and alignment are added.
pub open spec fn finished(bits: Seq<bool>) -> Seq<bool> {
    aligned(bits.push(true), false)
}

/// Ends a raw byte sequence payload with its stop bit and alignment.
pub fn finish_rbsp(writer: &mut BitWriter)
    ensures
        final(writer)@ == finished(old(writer)@),
{
    writer.write_bit(true);
    writer.align_to_byte();
}

} // verus!
