//! Building NAL units, samples, and `avcC` records.

use vstd::prelude::*;

use crate::error::{Error, Fault};
use crate::nal::{
    annex_b_of, annex_b_spans, big_endian, header_allowed, length_prefixed_spans, long_code_at,
    parameter_sets_at, payload_span, payload_spans, record_sets, sample_spans, short_code_at,
    start_code, start_codes, trimmed_end, unescaped,
};

verus! {

/// Width of the NAL length field in the samples that the encoder emits.
pub const NAL_LENGTH_SIZE: u8 = 4;

/// `data` with emulation-prevention bytes, where `zeros` zero bytes were written just before it.
pub open spec fn escaped(data: Seq<u8>, zeros: nat) -> Seq<u8>
    decreases data.len(),
{
    if data.len() == 0 {
        Seq::empty()
    } else {
        let guard = zeros == 2 && data[0] <= 3;
        let before = if guard {
            0
        } else {
            zeros
        };
        let rest = escaped(
            data.skip(1),
            if data[0] == 0 {
                before + 1
            } else {
                0
            },
        );
        if guard {
            seq![3u8, data[0]] + rest
        } else {
            seq![data[0]] + rest
        }
    }
}

/// The NAL unit with the given header and payload.
pub open spec fn nal_of(header: u8, rbsp: Seq<u8>) -> Seq<u8> {
    seq![header] + escaped(rbsp, 0)
}

/// Builds a NAL unit from its header and its raw payload.
pub fn make_nal(header: u8, rbsp: Vec<u8>) -> (output: Vec<u8>)
    ensures
        output@ == nal_of(header, rbsp@),
{
    let mut output: Vec<u8> = Vec::with_capacity(rbsp.len());
    output.push(header);
    let mut zero_count: u8 = 0;
    let mut index: usize = 0;
    assert(rbsp@.skip(0) =~= rbsp@);
    assert(output@ + escaped(rbsp@, 0) =~= nal_of(header, rbsp@));
    while index < rbsp.len()
        invariant
            index <= rbsp@.len(),
            zero_count <= 2,
            output@ + escaped(rbsp@.skip(index as int), zero_count as nat) == nal_of(header, rbsp@),
        decreases rbsp@.len() - index,
    {
        let byte: u8 = rbsp[index];
        let ghost before = output@;
        let ghost zeros = zero_count as nat;
        let ghost rest = rbsp@.skip(index as int);
        assert(rest.skip(1) =~= rbsp@.skip(index + 1));
        if zero_count == 2 && byte <= 3 {
            output.push(3);
            zero_count = 0;
        }
        output.push(byte);
        if byte == 0 {
            zero_count = zero_count + 1;
        } else {
            zero_count = 0;
        }
        index = index + 1;
        assert(output@ + escaped(rest.skip(1), zero_count as nat) =~= before + escaped(rest, zeros));
    }
    assert(output@ + Seq::<u8>::empty() =~= output@);
    output
}

/// Whether `unit` nowhere holds two zero bytes that a byte of at most two follows.
pub open spec fn start_code_free(unit: Seq<u8>) -> bool {
    forall|i: int|
        0 <= i && i + 2 < unit.len() && #[trigger] unit[i] == 0 && unit[i + 1] == 0 ==> unit[i + 2]
            > 2
}

/// Escaping can be undone: what was escaped is what is left once the guards are removed.
pub proof fn law_unescape_escaped(data: Seq<u8>, zeros: nat)
    requires
        zeros <= 2,
    ensures
        unescaped(escaped(data, zeros), zeros) == data,
    decreases data.len(),
{
    reveal_with_fuel(unescaped, 3);
    if data.len() > 0 {
        let guard = zeros == 2 && data[0] <= 3;
        let before = if guard {
            0
        } else {
            zeros
        };
        let next: nat = if data[0] == 0 {
            before + 1
        } else {
            0
        };
        law_unescape_escaped(data.skip(1), next);
        let rest = escaped(data.skip(1), next);
        let all = escaped(data, zeros);
        assert(data =~= seq![data[0]] + data.skip(1));
        if guard {
            assert(all.skip(1) =~= seq![data[0]] + rest);
            assert(all.skip(1).skip(1) =~= rest);
        } else {
            assert(all.skip(1) =~= rest);
        }
    } else {
        assert(data =~= Seq::empty());
    }
}

/// A NAL unit with a non-zero header gives its header and payload back once its guards are removed.
pub proof fn law_unescape_nal(header: u8, rbsp: Seq<u8>)
    requires
        header != 0,
    ensures
        unescaped(nal_of(header, rbsp), 0) == seq![header] + rbsp,
{
    law_unescape_escaped(rbsp, 0);
    assert(nal_of(header, rbsp).skip(1) =~= escaped(rbsp, 0));
}

/// A NAL unit with a non-zero header holds no start code.
pub proof fn law_nal_start_code_free(header: u8, rbsp: Seq<u8>)
    requires
        header != 0,
    ensures
        start_code_free(nal_of(header, rbsp)),
{
    lemma_escaped_start_code_free(rbsp, 0);
    let unit = nal_of(header, rbsp);
    let tail = escaped(rbsp, 0);
    assert(zero_bytes(0) + tail =~= tail);
    assert forall|i: int|
        0 <= i && i + 2 < unit.len() && #[trigger] unit[i] == 0 && unit[i + 1] == 0 implies unit[i
        + 2] > 2 by {
        assert(unit[i] == tail[i - 1] && unit[i + 1] == tail[i] && unit[i + 2] == tail[i + 1]);
    }
}

spec fn zero_bytes(count: nat) -> Seq<u8> {
    Seq::new(count, |i: int| 0u8)
}

proof fn lemma_escaped_start_code_free(data: Seq<u8>, zeros: nat)
    requires
        zeros <= 2,
    ensures
        start_code_free(zero_bytes(zeros) + escaped(data, zeros)),
    decreases data.len(),
{
    let all = zero_bytes(zeros) + escaped(data, zeros);
    if data.len() > 0 {
        let guard = zeros == 2 && data[0] <= 3;
        let before = if guard {
            0
        } else {
            zeros
        };
        let next: nat = if data[0] == 0 {
            before + 1
        } else {
            0
        };
        let rest = escaped(data.skip(1), next);
        lemma_escaped_start_code_free(data.skip(1), next);
        let inner = zero_bytes(next) + rest;
        assert forall|i: int|
            0 <= i && i + 2 < all.len() && #[trigger] all[i] == 0 && all[i + 1] == 0 implies all[i
            + 2] > 2 by {
            let shift = all.len() - inner.len();
            if i >= shift {
                assert(all[i] == inner[i - shift] && all[i + 1] == inner[i + 1 - shift] && all[i
                    + 2] == inner[i + 2 - shift]);
            }
        }
    }
}

/// The four bytes of a length field.
pub open spec fn length_field(length: nat) -> Seq<u8> {
    seq![
        (length / 0x100_0000) as u8,
        (length / 0x1_0000 % 256) as u8,
        (length / 0x100 % 256) as u8,
        (length % 256) as u8,
    ]
}

/// Appends a NAL unit behind its four-byte length.
///
/// # Errors
///
/// Returns an error when the length does not fit.
pub fn append_length_prefixed_nal(output: &mut Vec<u8>, nal: &[u8]) -> (result: Result<(), Error>)
    ensures
        nal@.len() <= u32::MAX ==> result == Ok::<(), Error>(()) && final(output)@ == old(output)@
            + length_field(nal@.len()) + nal@,
        nal@.len() > u32::MAX ==> result == Err::<(), Error>(Error::InvalidData(Fault::LongUnit))
            && final(output)@ == old(output)@,
{
    let length: usize = nal.len();
    if length > u32::MAX as usize {
        return Err(Error::InvalidData(Fault::LongUnit));
    }
    output.push((length / 0x100_0000) as u8);
    output.push((length / 0x1_0000 % 256) as u8);
    output.push((length / 0x100 % 256) as u8);
    output.push((length % 256) as u8);
    assert(output@ =~= old(output)@ + length_field(nal@.len()));
    output.extend_from_slice(nal);
    Ok(())
}

/// The length-prefixed form of a list of NAL units.
pub open spec fn sample_of(units: Seq<Seq<u8>>) -> Seq<u8>
    decreases units.len(),
{
    if units.len() == 0 {
        Seq::empty()
    } else {
        length_field(units[0].len()) + units[0] + sample_of(units.skip(1))
    }
}

/// Whether a NAL unit can stand in a sample.
pub open spec fn sample_unit(unit: Seq<u8>) -> bool {
    0 < unit.len() <= u32::MAX && header_allowed(unit[0])
}

/// Splitting a sample gives back the units that it was built from.
pub proof fn law_sample_round_trip(units: Seq<Seq<u8>>)
    requires
        forall|i: int| 0 <= i < units.len() ==> sample_unit(#[trigger] units[i]),
    ensures
        sample_spans(sample_of(units), NAL_LENGTH_SIZE) matches Ok(spans) && parts_are(
            sample_of(units),
            spans,
            units,
        ),
{
    let data = sample_of(units);
    assert(Seq::<u8>::empty() + data =~= data);
    lemma_sample_round_trip(Seq::empty(), units);
}

/// Whether the parts `spans` of `data` are `units`.
pub open spec fn parts_are(data: Seq<u8>, spans: Seq<(int, int)>, units: Seq<Seq<u8>>) -> bool {
    &&& spans.len() == units.len()
    &&& forall|i: int|
        0 <= i < units.len() ==> data.subrange(spans[i].0, spans[i].1) == #[trigger] units[i]
}

proof fn lemma_big_endian_field(length: nat)
    requires
        length <= u32::MAX,
    ensures
        big_endian(length_field(length)) == length,
{
    let field = length_field(length);
    assert(field.drop_last() =~= seq![field[0], field[1], field[2]]);
    assert(field.drop_last().drop_last() =~= seq![field[0], field[1]]);
    assert(field.drop_last().drop_last().drop_last() =~= seq![field[0]]);
    assert(field.drop_last().drop_last().drop_last().drop_last() =~= Seq::<u8>::empty());
    reveal_with_fuel(big_endian, 5);
}

proof fn lemma_sample_round_trip(prefix: Seq<u8>, units: Seq<Seq<u8>>)
    requires
        forall|i: int| 0 <= i < units.len() ==> sample_unit(#[trigger] units[i]),
    ensures
        length_prefixed_spans(prefix + sample_of(units), 4, prefix.len() as int) matches Ok(spans)
            && parts_are(prefix + sample_of(units), spans, units),
    decreases units.len(),
{
    let data = prefix + sample_of(units);
    if units.len() > 0 {
        let unit = units[0];
        assert(sample_unit(unit));
        let field = length_field(unit.len());
        let offset = prefix.len() as int;
        let start = offset + 4;
        let end = start + unit.len();
        lemma_big_endian_field(unit.len());
        assert(data.subrange(offset, start) =~= field);
        assert(data.subrange(start, end) =~= unit);
        let longer = prefix + field + unit;
        assert(longer + sample_of(units.skip(1)) =~= data);
        assert forall|i: int| 0 <= i < units.skip(1).len() implies sample_unit(
            #[trigger] units.skip(1)[i],
        ) by {
            assert(sample_unit(units[i + 1]));
        }
        lemma_sample_round_trip(longer, units.skip(1));
        let rest = length_prefixed_spans(data, 4, end)->Ok_0;
        let spans = length_prefixed_spans(data, 4, offset)->Ok_0;
        assert(data[start] == unit[0]);
        assert(spans =~= seq![(start, end)] + rest);
        assert forall|i: int| 0 <= i < units.len() implies data.subrange(spans[i].0, spans[i].1)
            == #[trigger] units[i] by {
            if i > 0 {
                assert(units.skip(1)[i - 1] == units[i]);
            }
        }
    }
}

/// Whether a NAL unit survives the Annex-B framing: it holds no start code and does not end in a
/// zero byte.
pub open spec fn stream_unit(unit: Seq<u8>) -> bool {
    &&& unit.len() > 0
    &&& unit.last() != 0
    &&& forall|i: int| 0 <= i ==> !#[trigger] short_code_at(unit, i)
}

/// Splitting an Annex-B stream gives back the units that it was built from.
pub proof fn law_annex_b_round_trip(units: Seq<Seq<u8>>)
    requires
        forall|i: int| 0 <= i < units.len() ==> stream_unit(#[trigger] units[i]),
    ensures
        parts_are(annex_b_of(units), annex_b_spans(annex_b_of(units)), units),
{
    let data = annex_b_of(units);
    let codes = start_codes(data, 0);
    assert(units.take(0) =~= Seq::<Seq<u8>>::empty());
    assert(place_of(units, 0) == 0);
    lemma_stream_codes(units, 0);
    lemma_stream_spans(units, units.len() as int);
    assert forall|i: int| 0 <= i < units.len() implies data.subrange(
        annex_b_spans(data)[i].0,
        annex_b_spans(data)[i].1,
    ) == #[trigger] units[i] by {
        lemma_stream_layout(units, i);
    }
}

/// Where the start code of `units[index]` stands in the stream.
spec fn place_of(units: Seq<Seq<u8>>, index: int) -> int {
    annex_b_of(units.take(index)).len() as int
}

proof fn lemma_stream_layout(units: Seq<Seq<u8>>, index: int)
    requires
        0 <= index < units.len(),
    ensures
        place_of(units, index + 1) == place_of(units, index) + 4 + units[index].len(),
        place_of(units, index + 1) <= annex_b_of(units).len(),
        annex_b_of(units).subrange(place_of(units, index), place_of(units, index) + 4)
            == start_code(),
        annex_b_of(units).subrange(place_of(units, index) + 4, place_of(units, index + 1))
            == units[index],
    decreases units.len(),
{
    let data = annex_b_of(units);
    let shorter = units.drop_last();
    assert(units.take(index + 1).drop_last() =~= units.take(index));
    if index < shorter.len() {
        lemma_stream_layout(shorter, index);
        assert(shorter.take(index) =~= units.take(index));
        assert(shorter.take(index + 1) =~= units.take(index + 1));
        let early = annex_b_of(shorter);
        let place = place_of(units, index);
        let after = place_of(units, index + 1);
        assert(data.subrange(place, place + 4) =~= early.subrange(place, place + 4));
        assert(data.subrange(place + 4, after) =~= early.subrange(place + 4, after));
    } else {
        assert(units.take(index) =~= shorter);
        assert(units.take(index + 1) =~= units);
        let place = place_of(units, index);
        assert(data.subrange(place, place + 4) =~= start_code());
        assert(data.subrange(place + 4, data.len() as int) =~= units.last());
    }
}

proof fn lemma_skip_to(data: Seq<u8>, from: int, to: int)
    requires
        0 <= from <= to <= data.len(),
        forall|j: int| from <= j < to ==> !#[trigger] short_code_at(data, j),
        forall|j: int| from <= j < to ==> !#[trigger] long_code_at(data, j),
    ensures
        start_codes(data, from) == start_codes(data, to),
    decreases to - from,
{
    if from < to {
        lemma_skip_to(data, from + 1, to);
        assert(!short_code_at(data, from) && !long_code_at(data, from));
        if from + 3 > data.len() {
            assert(start_codes(data, to) =~= Seq::empty());
        }
    }
}

proof fn lemma_stream_codes(units: Seq<Seq<u8>>, index: int)
    requires
        0 <= index <= units.len(),
        forall|i: int| 0 <= i < units.len() ==> stream_unit(#[trigger] units[i]),
    ensures
        start_codes(annex_b_of(units), place_of(units, index)) == Seq::new(
            (units.len() - index) as nat,
            |i: int| (place_of(units, index + i), 4int),
        ),
    decreases units.len() - index,
{
    let data = annex_b_of(units);
    let place = place_of(units, index);
    if index < units.len() {
        let unit = units[index];
        assert(stream_unit(unit));
        lemma_stream_layout(units, index);
        lemma_stream_codes(units, index + 1);
        let after = place_of(units, index + 1);
        let head = data.subrange(place, place + 4);
        let body = data.subrange(place + 4, after);
        assert(data[place] == head[0] && data[place + 1] == head[1] && data[place + 2] == head[2]
            && data[place + 3] == head[3]);
        assert(long_code_at(data, place) && !short_code_at(data, place));
        assert(data[after - 1] == body[body.len() - 1]);
        assert forall|j: int| place + 4 <= j < after implies !#[trigger] short_code_at(data, j) by {
            lemma_no_code(data, place + 4, after, unit, j);
        }
        assert forall|j: int| place + 4 <= j < after implies !#[trigger] long_code_at(data, j) by {
            lemma_no_code(data, place + 4, after, unit, j);
        }
        lemma_skip_to(data, place + 4, after);
        assert(start_codes(data, place) =~= Seq::new(
            (units.len() - index) as nat,
            |i: int| (place_of(units, index + i), 4int),
        ));
    } else {
        assert(units.take(index) =~= units);
        assert(start_codes(data, place) =~= Seq::empty());
    }
}

proof fn lemma_no_code(data: Seq<u8>, from: int, to: int, unit: Seq<u8>, index: int)
    requires
        0 <= from <= index < to <= data.len(),
        data.subrange(from, to) == unit,
        stream_unit(unit),
    ensures
        !short_code_at(data, index),
        !long_code_at(data, index),
{
    let j = index - from;
    assert(data[index] == unit[j]);
    assert(data[to - 1] == unit.last());
    if j + 1 < unit.len() {
        assert(data[index + 1] == unit[j + 1]);
    }
    if j + 2 < unit.len() {
        assert(data[index + 2] == unit[j + 2]);
    }
    if j + 3 < unit.len() {
        assert(data[index + 3] == unit[j + 3]);
    }
    assert(!short_code_at(unit, j) && !short_code_at(unit, j + 1));
}

proof fn lemma_stream_spans(units: Seq<Seq<u8>>, count: int)
    requires
        0 <= count <= units.len(),
        forall|i: int| 0 <= i < units.len() ==> stream_unit(#[trigger] units[i]),
    ensures
        payload_spans(annex_b_of(units), start_codes(annex_b_of(units), 0), count) == Seq::new(
            count as nat,
            |i: int| (place_of(units, i) + 4, place_of(units, i + 1)),
        ),
    decreases count,
{
    let data = annex_b_of(units);
    let codes = start_codes(data, 0);
    let expected = Seq::new(
        count as nat,
        |i: int| (place_of(units, i) + 4, place_of(units, i + 1)),
    );
    assert(units.take(0) =~= Seq::<Seq<u8>>::empty());
    assert(place_of(units, 0) == 0);
    lemma_stream_codes(units, 0);
    if count > 0 {
        let index = count - 1;
        assert(stream_unit(units[index]));
        lemma_stream_spans(units, index);
        lemma_stream_layout(units, index);
        let place = place_of(units, index);
        let after = place_of(units, index + 1);
        let body = data.subrange(place + 4, after);
        assert(data[after - 1] == body[body.len() - 1]);
        assert(codes[index] == (place, 4int));
        if index + 1 < units.len() {
            assert(codes[index + 1].0 == after);
        } else {
            assert(units.take(index + 1) =~= units);
        }
        assert(trimmed_end(data, place + 4, after) == after);
        assert(payload_span(data, codes, index) == (place + 4, after));
    }
    assert(payload_spans(data, codes, count) =~= expected);
}

/// The two bytes of a parameter-set length.
pub open spec fn short_length_field(length: nat) -> Seq<u8> {
    seq![(length / 256) as u8, (length % 256) as u8]
}

/// The `avcC` record that holds one sequence and one picture parameter set.
pub open spec fn avcc_of(sps: Seq<u8>, pps: Seq<u8>) -> Seq<u8> {
    seq![1u8, sps[1], sps[2], sps[3], 0xffu8, 0xe1u8] + short_length_field(sps.len()) + sps + seq![
        1u8,
    ] + short_length_field(pps.len()) + pps
}

/// Builds an `avcC` record from one sequence and one picture parameter set.
///
/// # Errors
///
/// Returns an error when a parameter set is too short or too long for the record.
pub fn encode_avcc(sps: &[u8], pps: &[u8]) -> (result: Result<Vec<u8>, Error>)
    ensures
        match result {
            Ok(output) => 4 <= sps@.len() <= u16::MAX && pps@.len() <= u16::MAX && output@
                == avcc_of(sps@, pps@),
            Err(Error::InvalidData(Fault::ShortSequenceSet)) => sps@.len() < 4,
            Err(Error::InvalidData(Fault::LongSequenceSet)) => sps@.len() > u16::MAX,
            Err(Error::InvalidData(Fault::LongPictureSet)) => 4 <= sps@.len() <= u16::MAX
                && pps@.len() > u16::MAX,
            Err(_) => false,
        },
{
    if sps.len() < 4 {
        return Err(Error::InvalidData(Fault::ShortSequenceSet));
    }
    if sps.len() > u16::MAX as usize {
        return Err(Error::InvalidData(Fault::LongSequenceSet));
    }
    if pps.len() > u16::MAX as usize {
        return Err(Error::InvalidData(Fault::LongPictureSet));
    }
    let mut output: Vec<u8> = Vec::new();
    output.push(1);
    output.push(sps[1]);
    output.push(sps[2]);
    output.push(sps[3]);
    output.push(0xfc + (NAL_LENGTH_SIZE - 1));
    output.push(0xe1);
    output.push((sps.len() / 256) as u8);
    output.push((sps.len() % 256) as u8);
    output.extend_from_slice(sps);
    output.push(1);
    output.push((pps.len() / 256) as u8);
    output.push((pps.len() % 256) as u8);
    output.extend_from_slice(pps);
    assert(output@ =~= avcc_of(sps@, pps@));
    Ok(output)
}

/// Parsing the `avcC` record of two parameter sets gives the two sets back, a four-byte length
/// field, and the identifiers of the sequence set.
#[verifier::spinoff_prover]
#[verifier::rlimit(40)]
pub proof fn law_avcc_round_trip(sps: Seq<u8>, pps: Seq<u8>)
    requires
        4 <= sps.len() <= u16::MAX,
        0 < pps.len() <= u16::MAX,
    ensures
        record_sets(avcc_of(sps, pps)) == Ok::<(Seq<Seq<u8>>, Seq<Seq<u8>>), Error>(
            (seq![sps], seq![pps]),
        ),
        avcc_of(sps, pps)[1] == sps[1],
        avcc_of(sps, pps)[2] == sps[2],
        avcc_of(sps, pps)[3] == sps[3],
        avcc_of(sps, pps)[4] as int % 4 + 1 == NAL_LENGTH_SIZE,
{
    let data = avcc_of(sps, pps);
    reveal_with_fuel(parameter_sets_at, 2);
    let after = 8 + sps.len() as int;
    assert(data[6] == (sps.len() / 256) as u8 && data[7] == (sps.len() % 256) as u8);
    assert(data.subrange(8, after) =~= sps);
    assert(seq![sps] + Seq::<Seq<u8>>::empty() =~= seq![sps]);
    assert(parameter_sets_at(data, after, 0) == Ok::<(Seq<Seq<u8>>, int), Error>(
        (Seq::empty(), after),
    ));
    assert(data[after] == 1);
    assert(data[after + 1] == (pps.len() / 256) as u8 && data[after + 2] == (pps.len()
        % 256) as u8);
    assert(data.subrange(after + 3, after + 3 + pps.len()) =~= pps);
    assert(seq![pps] + Seq::<Seq<u8>>::empty() =~= seq![pps]);
    assert(parameter_sets_at(data, after + 3 + pps.len(), 0) == Ok::<(Seq<Seq<u8>>, int), Error>(
        (Seq::empty(), after + 3 + pps.len()),
    ));
}

/// A number in the extended form of SEI headers: a run of 255s and a remainder.
pub open spec fn extended_value(value: nat) -> Seq<u8>
    decreases value,
{
    if value >= 255 {
        seq![255u8] + extended_value((value - 255) as nat)
    } else {
        seq![value as u8]
    }
}

/// Appends a number in the extended form of SEI headers.
pub fn append_sei_extended_value(output: &mut Vec<u8>, value: usize)
    ensures
        final(output)@ == old(output)@ + extended_value(value as nat),
{
    let mut rest: usize = value;
    while rest >= 0xff
        invariant
            output@ + extended_value(rest as nat) == old(output)@ + extended_value(value as nat),
        decreases rest,
    {
        let ghost before = output@;
        output.push(0xff);
        assert(before + (seq![255u8] + extended_value((rest - 255) as nat)) =~= output@
            + extended_value((rest - 255) as nat));
        rest = rest - 0xff;
    }
    let ghost before = output@;
    output.push(rest as u8);
    assert(output@ =~= before + seq![rest as u8]);
}

/// A supplemental message with its type and length.
pub open spec fn sei_payload(payload_type: nat, payload: Seq<u8>) -> Seq<u8> {
    extended_value(payload_type) + extended_value(payload.len()) + payload
}

/// Appends a supplemental message.
pub fn append_sei_payload(rbsp: &mut Vec<u8>, payload_type: usize, payload: &[u8])
    ensures
        final(rbsp)@ == old(rbsp)@ + sei_payload(payload_type as nat, payload@),
{
    append_sei_extended_value(rbsp, payload_type);
    append_sei_extended_value(rbsp, payload.len());
    rbsp.extend_from_slice(payload);
    assert(rbsp@ =~= old(rbsp)@ + sei_payload(payload_type as nat, payload@));
}

} // verus!
