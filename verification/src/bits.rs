//! Bit-granular writing and reading, most significant bit first.

use vstd::prelude::*;

use crate::error::{Error, Fault};

verus! {

/// The lowest `count` binary digits of `value`, most significant first.
pub open spec fn bits_of(value: nat, count: nat) -> Seq<bool>
    decreases count,
{
    if count == 0 {
        Seq::empty()
    } else {
        bits_of(value / 2, (count - 1) as nat).push(value % 2 == 1)
    }
}

/// The number whose binary digits are `bits`, most significant first.
pub open spec fn bits_value(bits: Seq<bool>) -> nat
    decreases bits.len(),
{
    if bits.len() == 0 {
        0
    } else {
        2 * bits_value(bits.drop_last()) + if bits.last() { 1nat } else { 0nat }
    }
}

/// Two to the power `count`.
pub open spec fn power_of_two(count: nat) -> nat
    decreases count,
{
    if count == 0 {
        1
    } else {
        2 * power_of_two((count - 1) as nat)
    }
}

/// `bits` followed by as many copies of `fill` as complete the last byte.
pub open spec fn aligned(bits: Seq<bool>, fill: bool) -> Seq<bool> {
    bits + Seq::new(((8 - bits.len() % 8) % 8) as nat, |i: int| fill)
}

/// The bytes that hold `bits`, the last one completed with zero bits.
pub open spec fn packed(bits: Seq<bool>) -> Seq<u8> {
    Seq::new(
        aligned(bits, false).len() / 8,
        |k: int| bits_value(aligned(bits, false).subrange(8 * k, 8 * k + 8)) as u8,
    )
}

/// The bits of `data`, byte by byte.
pub open spec fn unpacked(data: Seq<u8>) -> Seq<bool> {
    Seq::new(8 * data.len(), |i: int| bits_of(data[i / 8] as nat, 8)[i % 8])
}

pub proof fn lemma_bits_of_len(value: nat, count: nat)
    ensures
        bits_of(value, count).len() == count,
    decreases count,
{
    if count > 0 {
        lemma_bits_of_len(value / 2, (count - 1) as nat);
    }
}

pub proof fn lemma_bits_value_bound(bits: Seq<bool>)
    ensures
        bits_value(bits) < power_of_two(bits.len()),
    decreases bits.len(),
{
    if bits.len() > 0 {
        lemma_bits_value_bound(bits.drop_last());
    }
}

/// Writing a value in enough digits and reading the digits back gives the value.
pub proof fn law_bits_value_of_bits(value: nat, count: nat)
    requires
        value < power_of_two(count),
    ensures
        bits_of(value, count).len() == count,
        bits_value(bits_of(value, count)) == value,
    decreases count,
{
    lemma_bits_of_len(value, count);
    if count > 0 {
        law_bits_value_of_bits(value / 2, (count - 1) as nat);
        assert(bits_of(value, count).drop_last() =~= bits_of(value / 2, (count - 1) as nat));
    }
}

/// Reading digits as a value and writing the value in as many digits gives the digits.
pub proof fn law_bits_of_bits_value(bits: Seq<bool>)
    ensures
        bits_of(bits_value(bits), bits.len()) == bits,
    decreases bits.len(),
{
    if bits.len() > 0 {
        law_bits_of_bits_value(bits.drop_last());
        assert(bits =~= bits.drop_last().push(bits.last()));
    } else {
        assert(bits =~= Seq::empty());
    }
}

/// Packing bits into bytes loses nothing: unpacking gives the bits back, completed with zero bits.
#[verifier::spinoff_prover]
pub proof fn law_unpack_packed(bits: Seq<bool>)
    ensures
        unpacked(packed(bits)) == aligned(bits, false),
{
    let all = aligned(bits, false);
    assert(all.len() % 8 == 0);
    assert(unpacked(packed(bits)).len() == all.len());
    assert forall|i: int| 0 <= i < all.len() implies unpacked(packed(bits))[i] == all[i] by {
        let k = i / 8;
        let piece = all.subrange(8 * k, 8 * k + 8);
        lemma_bits_value_bound(piece);
        lemma_power_of_eight();
        law_bits_of_bits_value(piece);
        assert(packed(bits)[k] == bits_value(piece));
        assert(piece[i % 8] == all[i]);
    }
    assert(unpacked(packed(bits)) =~= all);
}

pub proof fn lemma_power_of_eight()
    ensures
        power_of_two(8) == 256,
{
    reveal_with_fuel(power_of_two, 9);
}

/// Unpacking splits where the bytes split.
pub proof fn lemma_unpacked_concat(left: Seq<u8>, right: Seq<u8>)
    ensures
        unpacked(left + right) == unpacked(left) + unpacked(right),
{
    assert forall|i: int| 0 <= i < 8 * (left.len() + right.len()) implies
        unpacked(left + right)[i] == (unpacked(left) + unpacked(right))[i] by {
        if i >= 8 * left.len() {
            let j = i - 8 * left.len();
            assert(i / 8 == left.len() + j / 8);
            assert(i % 8 == j % 8);
        }
    }
    assert(unpacked(left + right) =~= unpacked(left) + unpacked(right));
}

/// A growing sequence of bits.
#[derive(Debug)]
pub struct BitWriter {
    bits: Vec<bool>,
}

impl View for BitWriter {
    type V = Seq<bool>;

    closed spec fn view(&self) -> Seq<bool> {
        self.bits@
    }
}

impl BitWriter {
    /// An empty writer.
    pub fn new() -> (writer: Self)
        ensures
            writer@ == Seq::<bool>::empty(),
    {
        BitWriter { bits: Vec::new() }
    }

    /// Appends one bit.
    pub fn write_bit(&mut self, bit: bool)
        ensures
            final(self)@ == old(self)@.push(bit),
    {
        self.bits.push(bit);
    }

    /// Appends the lowest `count` bits of `value`, most significant first.
    pub fn write_bits(&mut self, value: u64, count: u8)
        requires
            count <= 64,
        ensures
            final(self)@ == old(self)@ + bits_of(value as nat, count as nat),
    {
        let mut left: u8 = count;
        assert(bits_of((value >> count) as nat, 0) =~= Seq::<bool>::empty());
        assert(self@ =~= old(self)@ + bits_of((value >> count) as nat, 0));
        while left > 0
            invariant
                left <= count <= 64,
                self@ == old(self)@ + bits_of((value >> left) as nat, (count - left) as nat),
            decreases left,
        {
            let ghost before = self@;
            left = left - 1;
            let digit: u64 = (value >> left) & 1;
            self.bits.push(digit == 1);
            proof {
                assert(left < 64 ==> (value >> left) / 2 == value >> ((left + 1) as u8)
                    && (value >> left) & 1 == (value >> left) % 2) by (bit_vector);
                lemma_bits_of_len((value >> left) as nat, (count - left) as nat);
                assert(self@ =~= old(self)@ + bits_of((value >> left) as nat, (count - left) as nat));
            }
        }
        assert(value >> 0u8 == value) by (bit_vector);
    }

    /// Completes the last byte with zero bits.
    pub fn align_to_byte(&mut self)
        ensures
            final(self)@ == aligned(old(self)@, false),
    {
        self.align_to_byte_with(false);
    }

    /// Completes the last byte with copies of `fill`.
    pub fn align_to_byte_with(&mut self, fill: bool)
        ensures
            final(self)@ == aligned(old(self)@, fill),
    {
        let missing: usize = (8 - self.bits.len() % 8) % 8;
        let mut added: usize = 0;
        assert(self@ =~= old(self)@ + Seq::new(0, |i: int| fill));
        while added < missing
            invariant
                added <= missing,
                missing == (8 - old(self)@.len() % 8) % 8,
                self@ == old(self)@ + Seq::new(added as nat, |i: int| fill),
            decreases missing - added,
        {
            self.bits.push(fill);
            added = added + 1;
            assert(self@ =~= old(self)@ + Seq::new(added as nat, |i: int| fill));
        }
    }

    /// The bytes that hold the bits, the last one completed with zero bits.
    pub fn into_bytes(self) -> (bytes: Vec<u8>)
        ensures
            bytes@ == packed(self@),
    {
        let mut padded = self;
        padded.align_to_byte();
        let count: usize = padded.bits.len() / 8;
        let mut bytes: Vec<u8> = Vec::with_capacity(count);
        let mut k: usize = 0;
        while k < count
            invariant
                padded@ == aligned(self@, false),
                padded@.len() == 8 * count,
                8 * count <= usize::MAX,
                k <= count,
                bytes@.len() == k,
                forall|j: int| 0 <= j < k ==> #[trigger] bytes@[j] as int
                    == bits_value(padded@.subrange(8 * j, 8 * j + 8)),
            decreases count - k,
        {
            let mut byte: u8 = 0;
            let mut i: usize = 0;
            proof {
                lemma_power_of_eight();
                reveal_with_fuel(power_of_two, 9);
                assert(padded@.subrange(8 * k, 8 * k as int) =~= Seq::empty());
            }
            while i < 8
                invariant
                    padded@.len() == 8 * count,
                    8 * count <= usize::MAX,
                    k < count,
                    i <= 8,
                    byte == bits_value(padded@.subrange(8 * k as int, 8 * k + i)),
                decreases 8 - i,
            {
                let bit = padded.bits[8 * k + i];
                proof {
                    let piece = padded@.subrange(8 * k as int, 8 * k + i + 1);
                    assert(piece.drop_last() =~= padded@.subrange(8 * k as int, 8 * k + i));
                    lemma_bits_value_bound(padded@.subrange(8 * k as int, 8 * k + i));
                    reveal_with_fuel(power_of_two, 9);
                }
                byte = byte * 2 + if bit { 1 } else { 0 };
                i = i + 1;
            }
            bytes.push(byte);
            k = k + 1;
        }
        assert(bytes@ =~= packed(self@));
        bytes
    }
}

/// A position inside a sequence of bytes that is read bit by bit.
#[derive(Debug)]
pub struct BitReader<'a> {
    data: &'a [u8],
    position: usize,
}

impl<'a> BitReader<'a> {
    /// All bits of the data.
    pub closed spec fn all_bits(&self) -> Seq<bool> {
        unpacked(self.data@)
    }

    /// How many bits have been read.
    pub closed spec fn consumed(&self) -> int {
        self.position as int
    }

    /// The bits that are still unread.
    pub open spec fn remaining(&self) -> Seq<bool> {
        self.all_bits().skip(self.consumed())
    }

    /// Whether the position lies inside the data and the number of bits is representable.
    pub open spec fn valid(&self) -> bool {
        &&& 0 <= self.consumed() <= self.all_bits().len()
        &&& self.all_bits().len() <= usize::MAX
    }

    /// A reader at the first bit of `data`.
    pub fn new(data: &'a [u8]) -> (reader: Self)
        requires
            8 * data@.len() <= usize::MAX,
        ensures
            reader.valid(),
            reader.all_bits() == unpacked(data@),
            reader.consumed() == 0,
            reader.remaining() == unpacked(data@),
    {
        let reader = BitReader { data, position: 0 };
        assert(unpacked(data@).skip(0) =~= unpacked(data@));
        reader
    }

    /// The number of bits already read.
    pub fn bit_position(&self) -> (position: usize)
        requires
            self.valid(),
        ensures
            position == self.consumed(),
    {
        self.position
    }

    /// The number of bits still unread.
    pub fn bits_remaining(&self) -> (count: usize)
        requires
            self.valid(),
        ensures
            count == self.remaining().len(),
    {
        self.data.len() * 8 - self.position
    }

    /// Reads one bit.
    pub fn read_bit(&mut self) -> (result: Result<bool, Error>)
        requires
            old(self).valid(),
        ensures
            final(self).valid(),
            final(self).all_bits() == old(self).all_bits(),
            match result {
                Ok(bit) => old(self).remaining().len() > 0 && bit == old(self).remaining()[0]
                    && final(self).consumed() == old(self).consumed() + 1,
                Err(error) => old(self).remaining().len() == 0 && error == Error::InvalidData(
                    Fault::EndOfData,
                ) && final(self).consumed() == old(self).consumed(),
            },
    {
        if self.position >= self.data.len() * 8 {
            return Err(Error::InvalidData(Fault::EndOfData));
        }
        let byte: u8 = self.data[self.position / 8];
        let shift: u8 = (7 - self.position % 8) as u8;
        let bit: bool = (byte >> shift) & 1 == 1;
        proof {
            lemma_bit_of_byte(byte, shift);
        }
        self.position = self.position + 1;
        Ok(bit)
    }

    /// Reads `count` bits as one number, or nothing when fewer are left.
    pub fn read_bits(&mut self, count: u8) -> (result: Result<u64, Error>)
        requires
            old(self).valid(),
            count <= 64,
        ensures
            final(self).valid(),
            final(self).all_bits() == old(self).all_bits(),
            match result {
                Ok(value) => old(self).remaining().len() >= count && value == bits_value(
                    old(self).remaining().take(count as int),
                ) && final(self).consumed() == old(self).consumed() + count,
                Err(error) => old(self).remaining().len() < count && error == Error::InvalidData(
                    Fault::EndOfData,
                ) && final(self).consumed() == old(self).consumed(),
            },
    {
        if self.bits_remaining() < count as usize {
            return Err(Error::InvalidData(Fault::EndOfData));
        }
        let ghost start = self.remaining();
        let mut value: u64 = 0;
        let mut done: u8 = 0;
        while done < count
            invariant
                self.valid(),
                self.all_bits() == old(self).all_bits(),
                start == old(self).remaining(),
                start.len() >= count,
                done <= count <= 64,
                self.consumed() == old(self).consumed() + done,
                value == bits_value(start.take(done as int)),
            decreases count - done,
        {
            let ghost position = self.consumed();
            let bit: bool = match self.read_bit() {
                Ok(bit) => bit,
                Err(error) => {
                    return Err(error);
                },
            };
            proof {
                assert(start.take(done + 1).drop_last() =~= start.take(done as int));
                lemma_bits_value_bound(start.take(done as int));
                lemma_power_monotonic(done as nat, 63);
                lemma_power_of_sixty_three();
            }
            value = value * 2 + if bit { 1 } else { 0 };
            done = done + 1;
        }
        Ok(value)
    }

    /// Skips `count` bits, or nothing when fewer are left.
    pub fn skip_bits(&mut self, count: usize) -> (result: Result<(), Error>)
        requires
            old(self).valid(),
        ensures
            final(self).valid(),
            final(self).all_bits() == old(self).all_bits(),
            match result {
                Ok(_) => old(self).remaining().len() >= count && final(self).consumed() == old(
                    self,
                ).consumed() + count,
                Err(error) => old(self).remaining().len() < count && error == Error::InvalidData(
                    Fault::EndOfData,
                ) && final(self).consumed() == old(self).consumed(),
            },
    {
        if self.bits_remaining() < count {
            return Err(Error::InvalidData(Fault::EndOfData));
        }
        self.position = self.position + count;
        Ok(())
    }

    /// Moves to the next byte boundary, if the position is inside a byte.
    pub fn align_to_byte(&mut self)
        requires
            old(self).valid(),
        ensures
            final(self).valid(),
            final(self).all_bits() == old(self).all_bits(),
            final(self).consumed() == old(self).consumed() + (8 - old(self).consumed() % 8) % 8,
    {
        let missing: usize = (8 - self.position % 8) % 8;
        self.position = self.position + missing;
    }
}

#[verifier::spinoff_prover]
#[verifier::rlimit(40)]
proof fn lemma_bit_of_byte(byte: u8, shift: u8)
    requires
        shift < 8,
    ensures
        ((byte >> shift) & 1 == 1) == bits_of(byte as nat, 8)[7 - shift],
{
    reveal_with_fuel(bits_of, 9);
    lemma_bits_of_len(byte as nat, 8);
    assert((byte >> 0u8) & 1 == byte % 2 && (byte >> 1u8) & 1 == (byte / 2) % 2 && (byte >> 2u8) & 1
        == (byte / 4) % 2 && (byte >> 3u8) & 1 == (byte / 8) % 2 && (byte >> 4u8) & 1 == (byte / 16)
        % 2 && (byte >> 5u8) & 1 == (byte / 32) % 2 && (byte >> 6u8) & 1 == (byte / 64) % 2 && (byte
        >> 7u8) & 1 == (byte / 128) % 2) by (bit_vector);
}

pub proof fn lemma_power_monotonic(low: nat, high: nat)
    requires
        low <= high,
    ensures
        1 <= power_of_two(low) <= power_of_two(high),
    decreases high,
{
    if low < high {
        lemma_power_monotonic(low, (high - 1) as nat);
    } else if high > 0 {
        lemma_power_monotonic((low - 1) as nat, (high - 1) as nat);
    }
}

pub proof fn lemma_power_of_sixty_three()
    ensures
        power_of_two(63) == 0x8000_0000_0000_0000,
{
    reveal_with_fuel(power_of_two, 64);
}

} // verus!
