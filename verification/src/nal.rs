//! NAL units: headers, the two framings, emulation prevention, and the `avcC` record.

use std::ops::Range;
use vstd::prelude::*;

use crate::error::{Error, Fault};

verus! {

/// H.264 NAL unit type from the one-byte NAL header.
#[derive(Clone, Copy, Debug, PartialEq, Eq, Hash, Structural)]
#[non_exhaustive]
pub enum NalUnitType {
    /// Non-IDR coded slice.
    CodedSlice,
    /// Coded slice data partition A.
    DataPartitionA,
    /// Coded slice data partition B.
    DataPartitionB,
    /// Coded slice data partition C.
    DataPartitionC,
    /// IDR coded slice.
    IdrSlice,
    /// Supplemental enhancement information.
    Sei,
    /// Sequence parameter set.
    Sps,
    /// Picture parameter set.
    Pps,
    /// Access-unit delimiter.
    AccessUnitDelimiter,
    /// End of sequence.
    EndOfSequence,
    /// End of stream.
    EndOfStream,
    /// Filler data.
    Filler,
    /// Sequence parameter set extension.
    SpsExtension,
    /// Prefix NAL unit.
    Prefix,
    /// Subset sequence parameter set.
    SubsetSps,
    /// Other specified or reserved type.
    Other(u8),
}

/// The syntax value of a NAL unit type.
pub open spec fn unit_type_value(unit_type: NalUnitType) -> u8 {
    match unit_type {
        NalUnitType::CodedSlice => 1,
        NalUnitType::DataPartitionA => 2,
        NalUnitType::DataPartitionB => 3,
        NalUnitType::DataPartitionC => 4,
        NalUnitType::IdrSlice => 5,
        NalUnitType::Sei => 6,
        NalUnitType::Sps => 7,
        NalUnitType::Pps => 8,
        NalUnitType::AccessUnitDelimiter => 9,
        NalUnitType::EndOfSequence => 10,
        NalUnitType::EndOfStream => 11,
        NalUnitType::Filler => 12,
        NalUnitType::SpsExtension => 13,
        NalUnitType::Prefix => 14,
        NalUnitType::SubsetSps => 15,
        NalUnitType::Other(value) => value,
    }
}

/// The named type with the given syntax value, or `Other` where none has it.
pub open spec fn unit_type_of(value: u8) -> NalUnitType {
    if value == 1 {
        NalUnitType::CodedSlice
    } else if value == 2 {
        NalUnitType::DataPartitionA
    } else if value == 3 {
        NalUnitType::DataPartitionB
    } else if value == 4 {
        NalUnitType::DataPartitionC
    } else if value == 5 {
        NalUnitType::IdrSlice
    } else if value == 6 {
        NalUnitType::Sei
    } else if value == 7 {
        NalUnitType::Sps
    } else if value == 8 {
        NalUnitType::Pps
    } else if value == 9 {
        NalUnitType::AccessUnitDelimiter
    } else if value == 10 {
        NalUnitType::EndOfSequence
    } else if value == 11 {
        NalUnitType::EndOfStream
    } else if value == 12 {
        NalUnitType::Filler
    } else if value == 13 {
        NalUnitType::SpsExtension
    } else if value == 14 {
        NalUnitType::Prefix
    } else if value == 15 {
        NalUnitType::SubsetSps
    } else {
        NalUnitType::Other(value)
    }
}

impl NalUnitType {
    /// Maps the five-bit syntax value to a typed NAL kind.
    #[must_use]
    pub fn from_value(value: u8) -> (unit_type: Self)
        ensures
            unit_type == unit_type_of(value),
    {
        match value {
            1 => NalUnitType::CodedSlice,
            2 => NalUnitType::DataPartitionA,
            3 => NalUnitType::DataPartitionB,
            4 => NalUnitType::DataPartitionC,
            5 => NalUnitType::IdrSlice,
            6 => NalUnitType::Sei,
            7 => NalUnitType::Sps,
            8 => NalUnitType::Pps,
            9 => NalUnitType::AccessUnitDelimiter,
            10 => NalUnitType::EndOfSequence,
            11 => NalUnitType::EndOfStream,
            12 => NalUnitType::Filler,
            13 => NalUnitType::SpsExtension,
            14 => NalUnitType::Prefix,
            15 => NalUnitType::SubsetSps,
            other => NalUnitType::Other(other),
        }
    }

    /// Returns the five-bit syntax value.
    #[must_use]
    pub fn value(self) -> (value: u8)
        ensures
            value == unit_type_value(self),
    {
        match self {
            NalUnitType::CodedSlice => 1,
            NalUnitType::DataPartitionA => 2,
            NalUnitType::DataPartitionB => 3,
            NalUnitType::DataPartitionC => 4,
            NalUnitType::IdrSlice => 5,
            NalUnitType::Sei => 6,
            NalUnitType::Sps => 7,
            NalUnitType::Pps => 8,
            NalUnitType::AccessUnitDelimiter => 9,
            NalUnitType::EndOfSequence => 10,
            NalUnitType::EndOfStream => 11,
            NalUnitType::Filler => 12,
            NalUnitType::SpsExtension => 13,
            NalUnitType::Prefix => 14,
            NalUnitType::SubsetSps => 15,
            NalUnitType::Other(value) => value,
        }
    }
}

/// The type of a value has that value, and the value of a type leads back to it unless the type
/// is an `Other` that carries the value of a named type.
pub proof fn law_unit_type_round_trip(value: u8, unit_type: NalUnitType)
    ensures
        unit_type_value(unit_type_of(value)) == value,
        unit_type_of(unit_type_value(unit_type)) == unit_type <==> !(unit_type matches
            NalUnitType::Other(inner) && 1 <= inner <= 15),
{
}

/// Parsed NAL header.
#[derive(Clone, Copy, Debug, PartialEq, Eq, Hash, Structural)]
pub struct NalUnitHeader {
    /// Reference priority from `nal_ref_idc`.
    pub reference_idc: u8,
    /// NAL unit payload kind.
    pub unit_type: NalUnitType,
}

/// Whether the first byte of a NAL unit clears `forbidden_zero_bit`.
pub open spec fn header_allowed(byte: u8) -> bool {
    byte < 128
}

/// The header that an allowed first byte stands for.
pub open spec fn header_of(byte: u8) -> NalUnitHeader {
    NalUnitHeader {
        reference_idc: (byte as int / 32 % 4) as u8,
        unit_type: unit_type_of((byte as int % 32) as u8),
    }
}

impl NalUnitHeader {
    /// Parses the first byte of a NAL unit.
    ///
    /// # Errors
    ///
    /// Returns an error when `forbidden_zero_bit` is set.
    pub fn parse(byte: u8) -> (result: Result<Self, Error>)
        ensures
            header_allowed(byte) ==> result == Ok::<NalUnitHeader, Error>(header_of(byte)),
            !header_allowed(byte) ==> result == Err::<NalUnitHeader, Error>(
                Error::InvalidData(Fault::ForbiddenZeroBit),
            ),
    {
        assert((byte & 0x80 != 0) == (byte >= 128) && (byte >> 5) & 0x03 == byte / 32 % 4 && byte
            & 0x1f == byte % 32) by (bit_vector);
        if byte & 0x80 != 0 {
            return Err(Error::InvalidData(Fault::ForbiddenZeroBit));
        }
        Ok(
            NalUnitHeader {
                reference_idc: (byte >> 5) & 0x03,
                unit_type: NalUnitType::from_value(byte & 0x1f),
            },
        )
    }
}

/// One NAL unit without its Annex-B start code or `avcC` length field.
#[derive(Debug, PartialEq, Eq)]
pub struct NalUnit<'a> {
    /// Byte range in the supplied representation.
    pub source_range: Range<usize>,
    /// Parsed header.
    pub header: NalUnitHeader,
    /// Full NAL bytes including the one-byte header.
    pub data: &'a [u8],
}

impl Clone for NalUnit<'_> {
    fn clone(&self) -> (copy: Self)
        ensures
            copy == *self,
    {
        NalUnit {
            source_range: self.source_range.start..self.source_range.end,
            header: self.header,
            data: self.data,
        }
    }
}

/// Whether `unit` is the part `span` of `data`, with the header that its first byte stands for.
pub open spec fn unit_is(unit: NalUnit<'_>, data: Seq<u8>, span: (int, int)) -> bool {
    &&& 0 <= span.0 < span.1 <= data.len()
    &&& unit.source_range.start == span.0
    &&& unit.source_range.end == span.1
    &&& unit.data@ == data.subrange(span.0, span.1)
    &&& header_allowed(data[span.0])
    &&& unit.header == header_of(data[span.0])
}

/// Whether `units` are the parts `spans` of `data`, in order.
pub open spec fn units_are(units: Seq<NalUnit<'_>>, data: Seq<u8>, spans: Seq<(int, int)>) -> bool {
    &&& units.len() == spans.len()
    &&& forall|i: int| 0 <= i < spans.len() ==> #[trigger] unit_is(units[i], data, spans[i])
}

/// Whether a three-byte start code begins at `index`.
pub open spec fn short_code_at(data: Seq<u8>, index: int) -> bool {
    index + 3 <= data.len() && data[index] == 0 && data[index + 1] == 0 && data[index + 2] == 1
}

/// Whether a four-byte start code begins at `index`.
pub open spec fn long_code_at(data: Seq<u8>, index: int) -> bool {
    index + 4 <= data.len() && data[index] == 0 && data[index + 1] == 0 && data[index + 2] == 0
        && data[index + 3] == 1
}

/// The start codes of `data` from `index` on, each as its place and its length.
pub open spec fn start_codes(data: Seq<u8>, index: int) -> Seq<(int, int)>
    decreases data.len() - index,
{
    if index + 3 > data.len() {
        Seq::empty()
    } else if short_code_at(data, index) {
        seq![(index, 3int)] + start_codes(data, index + 3)
    } else if long_code_at(data, index) {
        seq![(index, 4int)] + start_codes(data, index + 4)
    } else {
        start_codes(data, index + 1)
    }
}

/// The end of `data[start..end]` once its trailing zero bytes are dropped.
pub open spec fn trimmed_end(data: Seq<u8>, start: int, end: int) -> int
    decreases end - start,
{
    if end > start && data[end - 1] == 0 {
        trimmed_end(data, start, end - 1)
    } else {
        end
    }
}

/// The part of `data` that follows the start code `codes[index]`.
pub open spec fn payload_span(data: Seq<u8>, codes: Seq<(int, int)>, index: int) -> (int, int) {
    let start = codes[index].0 + codes[index].1;
    let limit = if index + 1 < codes.len() {
        codes[index + 1].0
    } else {
        data.len() as int
    };
    (start, trimmed_end(data, start, limit))
}

/// The non-empty payloads after the first `count` start codes.
pub open spec fn payload_spans(data: Seq<u8>, codes: Seq<(int, int)>, count: int) -> Seq<(int, int)>
    decreases count,
{
    if count <= 0 {
        Seq::empty()
    } else {
        let earlier = payload_spans(data, codes, count - 1);
        let span = payload_span(data, codes, count - 1);
        if span.0 == span.1 {
            earlier
        } else {
            earlier.push(span)
        }
    }
}

/// The NAL units of an Annex-B stream, as parts of it.
pub open spec fn annex_b_spans(data: Seq<u8>) -> Seq<(int, int)> {
    let codes = start_codes(data, 0);
    payload_spans(data, codes, codes.len() as int)
}

/// Whether every part in `spans` starts with an allowed header.
pub open spec fn headers_allowed(data: Seq<u8>, spans: Seq<(int, int)>) -> bool {
    forall|i: int| 0 <= i < spans.len() ==> header_allowed(data[(#[trigger] spans[i]).0])
}

/// Splits Annex-B data into NAL units.
///
/// # Errors
///
/// Returns an error for a missing start code, empty payload, or invalid NAL header.
pub fn annex_b_nal_units(data: &[u8]) -> (result: Result<Vec<NalUnit<'_>>, Error>)
    ensures
        match result {
            Ok(units) => units_are(units@, data@, annex_b_spans(data@)) && units@.len() > 0,
            Err(Error::InvalidData(Fault::NoStartCode)) => start_codes(data@, 0).len() == 0,
            Err(Error::InvalidData(Fault::ForbiddenZeroBit)) => !headers_allowed(
                data@,
                annex_b_spans(data@),
            ),
            Err(Error::InvalidData(Fault::NoPayload)) => start_codes(data@, 0).len() > 0
                && annex_b_spans(data@).len() == 0,
            Err(_) => false,
        },
{
    let starts = find_start_codes(data);
    if starts.len() == 0 {
        return Err(Error::InvalidData(Fault::NoStartCode));
    }
    let ghost codes = start_codes(data@, 0);
    let mut units: Vec<NalUnit<'_>> = Vec::with_capacity(starts.len());
    let mut index: usize = 0;
    while index < starts.len()
        invariant
            codes == start_codes(data@, 0),
            codes_are(starts@, codes),
            codes_fit(data@, codes),
            index <= starts.len(),
            units_are(units@, data@, payload_spans(data@, codes, index as int)),
        decreases starts.len() - index,
    {
        assert(code_is(starts@[index as int], codes[index as int]));
        assert(code_fits(data@, codes, index as int));
        let mut end: usize = data.len();
        let start: usize = starts[index].0 + starts[index].1;
        if index + 1 < starts.len() {
            assert(code_is(starts@[index + 1], codes[index + 1]));
            end = starts[index + 1].0;
        }
        let ghost limit = end;
        while end > start && data[end - 1] == 0
            invariant
                start <= end <= limit <= data@.len(),
                trimmed_end(data@, start as int, limit as int) == trimmed_end(
                    data@,
                    start as int,
                    end as int,
                ),
            decreases end,
        {
            end = end - 1;
        }
        let ghost span = payload_span(data@, codes, index as int);
        assert(span == (start as int, end as int));
        if start != end {
            let ghost earlier = payload_spans(data@, codes, index as int);
            match NalUnitHeader::parse(data[start]) {
                Ok(header) => {
                    let unit = NalUnit { source_range: start..end, header, data: &data[start..end] };
                    let ghost before = units@;
                    units.push(unit);
                    proof {
                        assert forall|i: int| 0 <= i < earlier.push(span).len() implies
                            #[trigger] unit_is(units@[i], data@, earlier.push(span)[i]) by {
                            if i < earlier.len() {
                                assert(unit_is(before[i], data@, earlier[i]));
                            }
                        }
                    }
                },
                Err(error) => {
                    proof {
                        lemma_payload_spans_grow(data@, codes, index as int + 1, codes.len() as int);
                        let place = earlier.len() as int;
                        assert(payload_spans(data@, codes, index as int + 1)[place] == span);
                        assert(annex_b_spans(data@)[place] == span);
                    }
                    return Err(error);
                },
            }
        }
        index = index + 1;
    }
    if units.len() == 0 {
        return Err(Error::InvalidData(Fault::NoPayload));
    }
    Ok(units)
}

proof fn lemma_payload_spans_grow(data: Seq<u8>, codes: Seq<(int, int)>, low: int, high: int)
    requires
        0 <= low <= high,
    ensures
        payload_spans(data, codes, low).len() <= payload_spans(data, codes, high).len(),
        forall|i: int| 0 <= i < payload_spans(data, codes, low).len() ==> payload_spans(
            data,
            codes,
            high,
        )[i] == payload_spans(data, codes, low)[i],
    decreases high - low,
{
    if low < high {
        lemma_payload_spans_grow(data, codes, low, high - 1);
    }
}

/// Whether the machine-sized pair `code` stands for the pair `expected`.
pub open spec fn code_is(code: (usize, usize), expected: (int, int)) -> bool {
    code.0 == expected.0 && code.1 == expected.1
}

/// Whether the machine-sized pairs `codes` stand for the pairs `expected`.
pub open spec fn codes_are(codes: Seq<(usize, usize)>, expected: Seq<(int, int)>) -> bool {
    &&& codes.len() == expected.len()
    &&& forall|i: int| 0 <= i < expected.len() ==> code_is(#[trigger] codes[i], expected[i])
}

/// Whether the start code `codes[index]` lies inside `data`, before the next one.
pub open spec fn code_fits(data: Seq<u8>, codes: Seq<(int, int)>, index: int) -> bool {
    &&& 0 <= codes[index].0
    &&& 3 <= codes[index].1 <= 4
    &&& codes[index].0 + codes[index].1 <= data.len()
    &&& index + 1 < codes.len() ==> codes[index].0 + codes[index].1 <= codes[index + 1].0
        <= data.len()
}

/// Whether the start codes lie inside `data`, one after the other.
pub open spec fn codes_fit(data: Seq<u8>, codes: Seq<(int, int)>) -> bool {
    forall|i: int| 0 <= i < codes.len() ==> #[trigger] code_fits(data, codes, i)
}

proof fn lemma_start_codes_fit(data: Seq<u8>, index: int)
    requires
        0 <= index,
    ensures
        codes_fit(data, start_codes(data, index)),
        start_codes(data, index).len() > 0 ==> start_codes(data, index)[0].0 >= index,
    decreases data.len() - index,
{
    let codes = start_codes(data, index);
    if index + 3 <= data.len() {
        if short_code_at(data, index) || long_code_at(data, index) {
            let length: int = if short_code_at(data, index) {
                3
            } else {
                4
            };
            let rest = start_codes(data, index + length);
            lemma_start_codes_fit(data, index + length);
            assert forall|i: int| 0 <= i < codes.len() implies #[trigger] code_fits(data, codes, i) by {
                if i > 0 {
                    assert(code_fits(data, rest, i - 1));
                    assert(codes[i] == rest[i - 1]);
                } else if rest.len() > 0 {
                    assert(code_fits(data, rest, 0));
                }
            }
        } else {
            lemma_start_codes_fit(data, index + 1);
        }
    }
}

/// Finds the start codes of `data`, each as its place and its length.
pub fn find_start_codes(data: &[u8]) -> (starts: Vec<(usize, usize)>)
    ensures
        codes_are(starts@, start_codes(data@, 0)),
        codes_fit(data@, start_codes(data@, 0)),
{
    let mut starts: Vec<(usize, usize)> = Vec::new();
    let mut index: usize = 0;
    let ghost mut found: Seq<(int, int)> = Seq::empty();
    assert(found + start_codes(data@, 0) =~= start_codes(data@, 0));
    while index < data.len() && data.len() - index >= 3
        invariant
            index <= data.len(),
            codes_are(starts@, found),
            found + start_codes(data@, index as int) == start_codes(data@, 0),
        decreases data.len() - index,
    {
        let ghost rest = start_codes(data@, index as int);
        if data[index] == 0 && data[index + 1] == 0 && data[index + 2] == 1 {
            starts.push((index, 3));
            proof {
                let tail = start_codes(data@, index + 3);
                assert(found + (seq![(index as int, 3int)] + tail) =~= found.push(
                    (index as int, 3int),
                ) + tail);
                found = found.push((index as int, 3int));
            }
            index = index + 3;
        } else if data.len() - index >= 4 && data[index] == 0 && data[index + 1] == 0 && data[index
            + 2] == 0 && data[index + 3] == 1 {
            starts.push((index, 4));
            proof {
                let tail = start_codes(data@, index + 4);
                assert(found + (seq![(index as int, 4int)] + tail) =~= found.push(
                    (index as int, 4int),
                ) + tail);
                found = found.push((index as int, 4int));
            }
            index = index + 4;
        } else {
            index = index + 1;
        }
    }
    proof {
        assert(found + Seq::<(int, int)>::empty() =~= found);
        lemma_start_codes_fit(data@, 0);
    }
    starts
}

/// The big-endian number in `bytes`.
pub open spec fn big_endian(bytes: Seq<u8>) -> nat
    decreases bytes.len(),
{
    if bytes.len() == 0 {
        0
    } else {
        big_endian(bytes.drop_last()) * 256 + bytes.last() as nat
    }
}

/// Splits a length-prefixed sample from `offset` on, or says what is wrong with it.
pub open spec fn length_prefixed_spans(data: Seq<u8>, length_size: int, offset: int) -> Result<
    Seq<(int, int)>,
    Error,
>
    decreases data.len() - offset,
{
    if offset >= data.len() || length_size < 1 {
        Ok(Seq::empty())
    } else if offset + length_size > data.len() {
        Err(Error::InvalidData(Fault::TruncatedLength))
    } else {
        let start = offset + length_size;
        let end = start + big_endian(data.subrange(offset, start));
        if start == end {
            Err(Error::InvalidData(Fault::ZeroLength))
        } else if end > data.len() {
            Err(Error::InvalidData(Fault::TruncatedUnit))
        } else if !header_allowed(data[start]) {
            Err(Error::InvalidData(Fault::ForbiddenZeroBit))
        } else {
            match length_prefixed_spans(data, length_size, end) {
                Ok(rest) => Ok(seq![(start, end)] + rest),
                Err(error) => Err(error),
            }
        }
    }
}

/// What splitting a whole sample gives.
pub open spec fn sample_spans(data: Seq<u8>, length_size: u8) -> Result<Seq<(int, int)>, Error> {
    if 1 <= length_size <= 4 {
        length_prefixed_spans(data, length_size as int, 0)
    } else {
        Err(Error::InvalidData(Fault::LengthSize))
    }
}

/// What is left of splitting a sample once `found` units are known.
pub open spec fn joined(found: Seq<(int, int)>, rest: Result<Seq<(int, int)>, Error>) -> Result<
    Seq<(int, int)>,
    Error,
> {
    match rest {
        Ok(rest) => Ok(found + rest),
        Err(error) => Err(error),
    }
}

/// Splits an ISO-BMFF/`avcC` length-prefixed sample into NAL units.
///
/// # Errors
///
/// Returns an error for an invalid length width, truncation, empty NAL, or invalid header.
pub fn length_prefixed_nal_units(data: &[u8], length_size: u8) -> (result: Result<
    Vec<NalUnit<'_>>,
    Error,
>)
    ensures
        match sample_spans(data@, length_size) {
            Ok(spans) => result matches Ok(units) && units_are(units@, data@, spans),
            Err(error) => result matches Err(actual) && actual == error,
        },
{
    if length_size < 1 || length_size > 4 {
        return Err(Error::InvalidData(Fault::LengthSize));
    }
    let size: usize = length_size as usize;
    let mut units: Vec<NalUnit<'_>> = Vec::new();
    let mut offset: usize = 0;
    let ghost mut found: Seq<(int, int)> = Seq::empty();
    let ghost total = sample_spans(data@, length_size);
    proof {
        if let Ok(spans) = total {
            assert(found + spans =~= spans);
        }
    }
    while offset < data.len()
        invariant
            size == length_size,
            1 <= size <= 4,
            offset <= data.len(),
            units_are(units@, data@, found),
            total == sample_spans(data@, length_size),
            joined(found, length_prefixed_spans(data@, size as int, offset as int)) == total,
        decreases data.len() - offset,
    {
        if data.len() - offset < size {
            return Err(Error::InvalidData(Fault::TruncatedLength));
        }
        let start: usize = offset + size;
        let length_bytes: &[u8] = &data[offset..start];
        let length: usize = read_length(length_bytes);
        if length == 0 {
            return Err(Error::InvalidData(Fault::ZeroLength));
        }
        if data.len() - start < length {
            return Err(Error::InvalidData(Fault::TruncatedUnit));
        }
        let end: usize = start + length;
        let header = match NalUnitHeader::parse(data[start]) {
            Ok(header) => header,
            Err(error) => {
                return Err(error);
            },
        };
        let ghost before = units@;
        let ghost span = (start as int, end as int);
        units.push(NalUnit { source_range: start..end, header, data: &data[start..end] });
        proof {
            assert forall|i: int| 0 <= i < found.push(span).len() implies #[trigger] unit_is(
                units@[i],
                data@,
                found.push(span)[i],
            ) by {
                if i < found.len() {
                    assert(unit_is(before[i], data@, found[i]));
                }
            }
            if let Ok(rest) = length_prefixed_spans(data@, size as int, end as int) {
                assert(found + (seq![span] + rest) =~= found.push(span) + rest);
            }
            found = found.push(span);
        }
        offset = end;
    }
    assert(found + Seq::<(int, int)>::empty() =~= found);
    Ok(units)
}

/// Reads a big-endian number of at most four bytes.
fn read_length(bytes: &[u8]) -> (length: usize)
    requires
        bytes@.len() <= 4,
    ensures
        length == big_endian(bytes@),
{
    let mut length: usize = 0;
    let mut index: usize = 0;
    assert(bytes@.take(0) =~= Seq::empty());
    while index < bytes.len()
        invariant
            bytes@.len() <= 4,
            index <= bytes@.len(),
            length == big_endian(bytes@.take(index as int)),
            index == 0 ==> length == 0,
            index == 1 ==> length < 0x100,
            index == 2 ==> length < 0x1_0000,
            index == 3 ==> length < 0x100_0000,
        decreases bytes@.len() - index,
    {
        assert(bytes@.take(index + 1).drop_last() =~= bytes@.take(index as int));
        length = length * 256 + bytes[index] as usize;
        index = index + 1;
    }
    assert(bytes@.take(index as int) =~= bytes@);
    length
}

/// A four-byte start code.
pub open spec fn start_code() -> Seq<u8> {
    seq![0u8, 0u8, 0u8, 1u8]
}

/// The Annex-B form of the parts `spans[..count]` of `data`.
pub open spec fn annex_b_form(data: Seq<u8>, spans: Seq<(int, int)>, count: int) -> Seq<u8>
    decreases count,
{
    if count <= 0 {
        Seq::empty()
    } else {
        annex_b_form(data, spans, count - 1) + start_code() + data.subrange(
            spans[count - 1].0,
            spans[count - 1].1,
        )
    }
}

/// Converts length-prefixed NAL units into four-byte-start-code Annex-B form.
///
/// # Errors
///
/// Returns an error when the input sample is malformed or the output size overflows.
pub fn nal_units_to_annex_b(data: &[u8], length_size: u8) -> (result: Result<Vec<u8>, Error>)
    ensures
        match sample_spans(data@, length_size) {
            Ok(spans) => if annex_b_form(data@, spans, spans.len() as int).len() <= usize::MAX {
                result matches Ok(output) && output@ == annex_b_form(
                    data@,
                    spans,
                    spans.len() as int,
                )
            } else {
                result == Err::<Vec<u8>, Error>(Error::InvalidData(Fault::OutputOverflow))
            },
            Err(error) => result matches Err(actual) && actual == error,
        },
{
    let units = match length_prefixed_nal_units(data, length_size) {
        Ok(units) => units,
        Err(error) => {
            return Err(error);
        },
    };
    let ghost spans = sample_spans(data@, length_size)->Ok_0;
    let mut capacity: usize = 0;
    let mut index: usize = 0;
    while index < units.len()
        invariant
            units_are(units@, data@, spans),
            sample_spans(data@, length_size) == Ok::<Seq<(int, int)>, Error>(spans),
            index <= units@.len(),
            capacity == annex_b_form(data@, spans, index as int).len(),
        decreases units@.len() - index,
    {
        assert(unit_is(units@[index as int], data@, spans[index as int]));
        let length: usize = units[index].data.len();
        if length > usize::MAX - 4 || capacity > usize::MAX - (4 + length) {
            proof {
                lemma_annex_b_form_grows(data@, spans, index + 1, spans.len() as int);
            }
            return Err(Error::InvalidData(Fault::OutputOverflow));
        }
        capacity = capacity + (4 + length);
        index = index + 1;
    }
    let mut output: Vec<u8> = Vec::with_capacity(capacity);
    let mut index: usize = 0;
    while index < units.len()
        invariant
            units_are(units@, data@, spans),
            index <= units@.len(),
            output@ == annex_b_form(data@, spans, index as int),
        decreases units@.len() - index,
    {
        assert(unit_is(units@[index as int], data@, spans[index as int]));
        push_start_code(&mut output);
        output.extend_from_slice(units[index].data);
        index = index + 1;
    }
    Ok(output)
}

proof fn lemma_annex_b_form_grows(data: Seq<u8>, spans: Seq<(int, int)>, low: int, high: int)
    requires
        0 <= low <= high,
    ensures
        annex_b_form(data, spans, low).len() <= annex_b_form(data, spans, high).len(),
    decreases high - low,
{
    if low < high {
        lemma_annex_b_form_grows(data, spans, low, high - 1);
    }
}

/// Appends a four-byte start code.
fn push_start_code(output: &mut Vec<u8>)
    ensures
        final(output)@ == old(output)@ + start_code(),
{
    output.push(0);
    output.push(0);
    output.push(0);
    output.push(1);
    assert(output@ =~= old(output)@ + start_code());
}

/// What is left of `data` without emulation-prevention bytes, where `zeros` zero bytes came just
/// before it.
pub open spec fn unescaped(data: Seq<u8>, zeros: nat) -> Seq<u8>
    decreases data.len(),
{
    if data.len() == 0 {
        Seq::empty()
    } else if zeros >= 2 && data[0] == 3 {
        unescaped(data.skip(1), 0)
    } else {
        seq![data[0]] + unescaped(
            data.skip(1),
            if data[0] == 0 {
                zeros + 1
            } else {
                0
            },
        )
    }
}

/// Removes H.264 emulation-prevention bytes from an EBSP payload.
#[must_use]
pub fn remove_emulation_prevention(data: &[u8]) -> (output: Vec<u8>)
    ensures
        output@ == unescaped(data@, 0),
{
    let mut output: Vec<u8> = Vec::with_capacity(data.len());
    let mut zero_count: u8 = 0;
    let mut index: usize = 0;
    let ghost mut zeros: nat = 0;
    assert(data@.skip(0) =~= data@);
    assert(output@ + unescaped(data@, 0) =~= unescaped(data@, 0));
    while index < data.len()
        invariant
            index <= data@.len(),
            zero_count == if zeros < 255 { zeros } else { 255 },
            output@ + unescaped(data@.skip(index as int), zeros) == unescaped(data@, 0),
        decreases data@.len() - index,
    {
        let byte: u8 = data[index];
        let ghost rest = data@.skip(index as int);
        assert(rest.skip(1) =~= data@.skip(index + 1));
        index = index + 1;
        if zero_count >= 2 && byte == 0x03 {
            zero_count = 0;
            proof {
                zeros = 0;
            }
        } else {
            let ghost before = output@;
            output.push(byte);
            proof {
                let next = if byte == 0 {
                    zeros + 1
                } else {
                    0
                };
                let tail = unescaped(rest.skip(1), next);
                assert(before + (seq![byte] + tail) =~= output@ + tail);
                zeros = next;
            }
            if byte == 0 {
                if zero_count < 255 {
                    zero_count = zero_count + 1;
                }
            } else {
                zero_count = 0;
            }
        }
    }
    proof {
        assert(data@.skip(index as int).len() == 0);
        assert(output@ + Seq::<u8>::empty() =~= output@);
    }
    output
}

/// ISO/IEC 14496-15 AVC decoder configuration record (`avcC`).
#[derive(Clone, Debug, PartialEq, Eq)]
pub struct AvcDecoderConfigurationRecord {
    /// AVC profile indication copied from the active SPS.
    pub profile_indication: u8,
    /// Profile compatibility flags.
    pub profile_compatibility: u8,
    /// AVC level indication.
    pub level_indication: u8,
    /// Number of bytes in each sample NAL length field.
    pub length_size: u8,
    /// Sequence parameter-set NAL units, including NAL headers.
    pub sequence_parameter_sets: Vec<Vec<u8>>,
    /// Picture parameter-set NAL units, including NAL headers.
    pub picture_parameter_sets: Vec<Vec<u8>>,
}

/// The contents of a list of byte strings.
pub open spec fn contents(sets: Seq<Vec<u8>>) -> Seq<Seq<u8>> {
    Seq::new(sets.len(), |i: int| sets[i]@)
}

/// The Annex-B form of a list of NAL units.
pub open spec fn annex_b_of(units: Seq<Seq<u8>>) -> Seq<u8>
    decreases units.len(),
{
    if units.len() == 0 {
        Seq::empty()
    } else {
        annex_b_of(units.drop_last()) + start_code() + units.last()
    }
}

/// `count` parameter sets read from `data` at `offset`, with the place after them, or what is
/// wrong with them.
pub open spec fn parameter_sets_at(data: Seq<u8>, offset: int, count: nat) -> Result<
    (Seq<Seq<u8>>, int),
    Error,
>
    decreases count,
{
    if count == 0 {
        Ok((Seq::empty(), offset))
    } else if offset + 2 > data.len() {
        Err(Error::InvalidData(Fault::TruncatedSetLength))
    } else {
        let start = offset + 2;
        let end = start + data[offset] as int * 256 + data[offset + 1] as int;
        if end > data.len() {
            Err(Error::InvalidData(Fault::TruncatedSet))
        } else if start == end {
            Err(Error::InvalidData(Fault::EmptySet))
        } else {
            match parameter_sets_at(data, end, (count - 1) as nat) {
                Ok((sets, after)) => Ok((seq![data.subrange(start, end)] + sets, after)),
                Err(error) => Err(error),
            }
        }
    }
}

/// The two parameter-set lists of an `avcC` record, or what is wrong with it.
pub open spec fn record_sets(data: Seq<u8>) -> Result<(Seq<Seq<u8>>, Seq<Seq<u8>>), Error> {
    if data.len() < 7 || data[0] != 1 {
        Err(Error::InvalidData(Fault::ConfigurationRecord))
    } else {
        match parameter_sets_at(data, 6, data[5] as nat % 32) {
            Err(error) => Err(error),
            Ok((sequence, after)) => if after >= data.len() {
                Err(Error::InvalidData(Fault::TruncatedPictureCount))
            } else {
                match parameter_sets_at(data, after + 1, data[after] as nat) {
                    Err(error) => Err(error),
                    Ok((picture, _)) => Ok((sequence, picture)),
                }
            },
        }
    }
}

impl AvcDecoderConfigurationRecord {
    /// Parses an AVC decoder configuration record.
    ///
    /// # Errors
    ///
    /// Returns an error when the record or a parameter-set array is malformed.
    pub fn parse(data: &[u8]) -> (result: Result<Self, Error>)
        ensures
            match record_sets(data@) {
                Ok((sequence, picture)) => {
                    &&& result matches Ok(record)
                    &&& record.profile_indication == data@[1]
                    &&& record.profile_compatibility == data@[2]
                    &&& record.level_indication == data@[3]
                    &&& record.length_size == data@[4] as int % 4 + 1
                    &&& contents(record.sequence_parameter_sets@) == sequence
                    &&& contents(record.picture_parameter_sets@) == picture
                },
                Err(error) => result matches Err(actual) && actual == error,
            },
    {
        if data.len() < 7 || data[0] != 1 {
            return Err(Error::InvalidData(Fault::ConfigurationRecord));
        }
        let fifth: u8 = data[4];
        let sixth: u8 = data[5];
        assert(fifth & 0x03 == fifth % 4 && sixth & 0x1f == sixth % 32) by (bit_vector);
        let length_size: u8 = (fifth & 0x03) + 1;
        let sps_count: usize = (sixth & 0x1f) as usize;
        let (sequence_parameter_sets, after): (Vec<Vec<u8>>, usize) = match read_parameter_sets(
            data,
            6,
            sps_count,
        ) {
            Ok(read) => read,
            Err(error) => {
                return Err(error);
            },
        };
        if after >= data.len() {
            return Err(Error::InvalidData(Fault::TruncatedPictureCount));
        }
        let pps_count: usize = data[after] as usize;
        let (picture_parameter_sets, _): (Vec<Vec<u8>>, usize) = match read_parameter_sets(
            data,
            after + 1,
            pps_count,
        ) {
            Ok(read) => read,
            Err(error) => {
                return Err(error);
            },
        };
        Ok(
            AvcDecoderConfigurationRecord {
                profile_indication: data[1],
                profile_compatibility: data[2],
                level_indication: data[3],
                length_size,
                sequence_parameter_sets,
                picture_parameter_sets,
            },
        )
    }

    /// Produces Annex-B parameter-set bytes suitable for a byte-stream decoder.
    #[must_use]
    pub fn parameter_sets_annex_b(&self) -> (output: Vec<u8>)
        ensures
            output@ == annex_b_of(
                contents(self.sequence_parameter_sets@) + contents(self.picture_parameter_sets@),
            ),
    {
        let mut output: Vec<u8> = Vec::new();
        let ghost sequence = contents(self.sequence_parameter_sets@);
        let ghost picture = contents(self.picture_parameter_sets@);
        let mut index: usize = 0;
        assert(sequence.take(0).len() == 0);
        while index < self.sequence_parameter_sets.len()
            invariant
                sequence == contents(self.sequence_parameter_sets@),
                index <= sequence.len(),
                output@ == annex_b_of(sequence.take(index as int)),
            decreases sequence.len() - index,
        {
            assert(sequence.take(index + 1).drop_last() =~= sequence.take(index as int));
            push_start_code(&mut output);
            output.extend_from_slice(self.sequence_parameter_sets[index].as_slice());
            index = index + 1;
        }
        assert(sequence.take(index as int) =~= (sequence + picture).take(index as int));
        let mut index: usize = 0;
        while index < self.picture_parameter_sets.len()
            invariant
                sequence == contents(self.sequence_parameter_sets@),
                picture == contents(self.picture_parameter_sets@),
                index <= picture.len(),
                output@ == annex_b_of((sequence + picture).take(sequence.len() + index)),
            decreases picture.len() - index,
        {
            assert((sequence + picture).take(sequence.len() + index + 1).drop_last() =~= (sequence
                + picture).take(sequence.len() + index));
            push_start_code(&mut output);
            output.extend_from_slice(self.picture_parameter_sets[index].as_slice());
            index = index + 1;
        }
        assert((sequence + picture).take(sequence.len() + index) =~= sequence + picture);
        output
    }
}

/// Reads `count` parameter sets at `offset`, and says where they end.
pub fn read_parameter_sets(data: &[u8], offset: usize, count: usize) -> (result: Result<
    (Vec<Vec<u8>>, usize),
    Error,
>)
    requires
        offset <= data@.len(),
    ensures
        match parameter_sets_at(data@, offset as int, count as nat) {
            Ok((sets, after)) => result matches Ok(read) && contents(read.0@) == sets && read.1
                == after && after <= data@.len(),
            Err(error) => result matches Err(actual) && actual == error,
        },
{
    let mut sets: Vec<Vec<u8>> = Vec::with_capacity(count);
    let mut place: usize = offset;
    let mut done: usize = 0;
    let ghost total = parameter_sets_at(data@, offset as int, count as nat);
    proof {
        if let Ok((all, after)) = total {
            assert(contents(sets@) + all =~= all);
        }
    }
    while done < count
        invariant
            done <= count,
            place <= data@.len(),
            total == parameter_sets_at(data@, offset as int, count as nat),
            match parameter_sets_at(data@, place as int, (count - done) as nat) {
                Ok((rest, after)) => total == Ok::<(Seq<Seq<u8>>, int), Error>(
                    (contents(sets@) + rest, after),
                ),
                Err(error) => total == Err::<(Seq<Seq<u8>>, int), Error>(error),
            },
        decreases count - done,
    {
        if data.len() - place < 2 {
            return Err(Error::InvalidData(Fault::TruncatedSetLength));
        }
        let length: usize = data[place] as usize * 256 + data[place + 1] as usize;
        let start: usize = place + 2;
        if data.len() - start < length {
            return Err(Error::InvalidData(Fault::TruncatedSet));
        }
        if length == 0 {
            return Err(Error::InvalidData(Fault::EmptySet));
        }
        let end: usize = start + length;
        let ghost before = contents(sets@);
        sets.push(vstd::slice::slice_to_vec(&data[start..end]));
        proof {
            let set = data@.subrange(start as int, end as int);
            assert(contents(sets@) =~= before.push(set));
            if let Ok((rest, after)) = parameter_sets_at(
                data@,
                end as int,
                (count - done - 1) as nat,
            ) {
                assert(before + (seq![set] + rest) =~= contents(sets@) + rest);
            }
        }
        place = end;
        done = done + 1;
    }
    assert(contents(sets@) + Seq::<Seq<u8>>::empty() =~= contents(sets@));
    Ok((sets, place))
}

} // verus!
