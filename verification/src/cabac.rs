//! Context-adaptive binary arithmetic decoding.

use vstd::prelude::*;

use crate::bits::{bits_value, lemma_bits_value_bound, lemma_power_of_eight, power_of_two, BitReader};
use crate::cabac_tables::{
    after_lps, after_mps, lps_width_at, lps_width_of, state_after_lps, state_after_mps,
};
use crate::error::{Error, Fault};
use crate::math::{clamped, sixteenth};

verus! {

/// Initial values of the contexts that code `mb_type` in I slices.
pub const I_MACROBLOCK_CONTEXT_INIT: [(i8, i8); 11] = [
    (20, -15),
    (2, 54),
    (3, 74),
    (20, -15),
    (2, 54),
    (3, 74),
    (-28, 127),
    (-23, 104),
    (-6, 53),
    (-1, 54),
    (7, 51),
];

/// One adaptive probability state.
#[derive(Clone, Copy, Debug, PartialEq, Eq, Structural)]
pub struct ContextState {
    /// How skewed the probability is.
    pub probability_state: u8,
    /// The symbol that is more probable.
    pub most_probable_symbol: bool,
}

impl ContextState {
    /// Whether the state is one of the 64 that exist.
    pub open spec fn valid(self) -> bool {
        self.probability_state < 64
    }
}

/// The initial state for a table pair and a quantizer.
pub open spec fn initial_state(m: int, n: int, slice_qp_y: int) -> ContextState {
    let value = clamped(m * slice_qp_y / 16 + n, 1, 126);
    if value <= 63 {
        ContextState { probability_state: (63 - value) as u8, most_probable_symbol: false }
    } else {
        ContextState { probability_state: (value - 64) as u8, most_probable_symbol: true }
    }
}

impl ContextState {
    /// Initializes a context from its table pair and the slice quantizer.
    ///
    /// # Errors
    ///
    /// Returns an error when the quantizer is out of range.
    pub fn from_mn(m: i8, n: i8, slice_qp_y: i32) -> (result: Result<Self, Error>)
        ensures
            0 <= slice_qp_y <= 51 ==> result == Ok::<ContextState, Error>(
                initial_state(m as int, n as int, slice_qp_y as int),
            ) && initial_state(m as int, n as int, slice_qp_y as int).valid(),
            !(0 <= slice_qp_y <= 51) ==> result == Err::<ContextState, Error>(
                Error::InvalidData(Fault::ContextQuantizer),
            ),
    {
        if slice_qp_y < 0 || slice_qp_y > 51 {
            return Err(Error::InvalidData(Fault::ContextQuantizer));
        }
        assert(-128 * 51 <= m * slice_qp_y <= 127 * 51) by (nonlinear_arith)
            requires
                -128 <= m <= 127,
                0 <= slice_qp_y <= 51,
        ;
        let sum: i64 = sixteenth((m as i32 * slice_qp_y) as i64) + n as i64;
        let value: i64 = crate::math::clamp(sum, 1, 126);
        if value <= 63 {
            Ok(ContextState { probability_state: (63 - value) as u8, most_probable_symbol: false })
        } else {
            Ok(ContextState { probability_state: (value - 64) as u8, most_probable_symbol: true })
        }
    }
}

/// Whether `contexts` are the initial states for table pairs.
pub open spec fn contexts_are(
    contexts: Seq<ContextState>,
    parameters: Seq<(i8, i8)>,
    slice_qp_y: int,
) -> bool {
    &&& contexts.len() == parameters.len()
    &&& forall|i: int|
        0 <= i < contexts.len() ==> #[trigger] contexts[i] == initial_state(
            parameters[i].0 as int,
            parameters[i].1 as int,
            slice_qp_y,
        )
}

/// Initializes the contexts that code `mb_type` in I slices.
///
/// # Errors
///
/// Returns an error when the quantizer is out of range.
pub fn initial_i_macroblock_contexts(slice_qp_y: i32) -> (result: Result<Vec<ContextState>, Error>)
    ensures
        0 <= slice_qp_y <= 51 ==> (result matches Ok(contexts) && contexts_are(
            contexts@,
            I_MACROBLOCK_CONTEXT_INIT@,
            slice_qp_y as int,
        )),
        !(0 <= slice_qp_y <= 51) ==> result == Err::<Vec<ContextState>, Error>(
            Error::InvalidData(Fault::ContextQuantizer),
        ),
{
    let parameters: [(i8, i8); 11] = I_MACROBLOCK_CONTEXT_INIT;
    initial_contexts(parameters.as_slice(), slice_qp_y)
}

/// Initializes a contiguous group of contexts from table pairs.
///
/// # Errors
///
/// Returns an error when the quantizer is out of range.
pub fn initial_contexts(parameters: &[(i8, i8)], slice_qp_y: i32) -> (result: Result<
    Vec<ContextState>,
    Error,
>)
    requires
        parameters@.len() > 0,
    ensures
        0 <= slice_qp_y <= 51 ==> (result matches Ok(contexts) && contexts_are(
            contexts@,
            parameters@,
            slice_qp_y as int,
        )),
        !(0 <= slice_qp_y <= 51) ==> result == Err::<Vec<ContextState>, Error>(
            Error::InvalidData(Fault::ContextQuantizer),
        ),
{
    let mut contexts: Vec<ContextState> = Vec::with_capacity(parameters.len());
    let mut index: usize = 0;
    while index < parameters.len()
        invariant
            index <= parameters@.len(),
            index > 0 ==> 0 <= slice_qp_y <= 51,
            contexts_are(contexts@, parameters@.take(index as int), slice_qp_y as int),
        decreases parameters@.len() - index,
    {
        let (m, n): (i8, i8) = parameters[index];
        match ContextState::from_mn(m, n, slice_qp_y) {
            Ok(context) => {
                contexts.push(context);
            },
            Err(error) => {
                return Err(error);
            },
        }
        index = index + 1;
    }
    assert(parameters@.take(index as int) =~= parameters@);
    Ok(contexts)
}

/// The registers of the arithmetic decoder and the bits that it reads.
#[verifier::ext_equal]
pub struct Engine {
    /// All bits of the stream.
    pub bits: Seq<bool>,
    /// The next bit to read.
    pub at: int,
    /// Width of the current interval.
    pub range: int,
    /// Place of the code inside the interval.
    pub offset: int,
    /// How many zero bits stood in for bits past the end.
    pub padding: int,
}

impl Engine {
    /// Whether the code lies inside a normalized interval.
    pub open spec fn ready(self) -> bool {
        256 <= self.range <= 510 && 0 <= self.offset < self.range
    }
}

/// What a step of the decoder leaves behind and gives.
pub struct Outcome<T> {
    /// The decoder after the step.
    pub engine: Engine,
    /// What the step gives.
    pub value: Result<T, Error>,
}

/// Reads the next bit; sixteen zero bits follow the end of the stream.
pub open spec fn coded(engine: Engine) -> Outcome<bool> {
    if engine.at < engine.bits.len() {
        Outcome {
            engine: Engine { at: engine.at + 1, ..engine },
            value: Ok(engine.bits[engine.at]),
        }
    } else if engine.padding >= 16 {
        Outcome { engine, value: Err(Error::InvalidData(Fault::ZeroPadding)) }
    } else {
        Outcome { engine: Engine { padding: engine.padding + 1, ..engine }, value: Ok(false) }
    }
}

/// Doubles the interval until it is wide enough.
pub open spec fn renormalized(engine: Engine) -> Outcome<()>
    decreases (if engine.range >= 256 { 0 } else { 256 - engine.range }),
{
    if engine.range >= 256 || engine.range <= 0 {
        Outcome { engine, value: Ok(()) }
    } else {
        let doubled = Engine { range: 2 * engine.range, ..engine };
        let read = coded(doubled);
        match read.value {
            Err(error) => Outcome { engine: read.engine, value: Err(error) },
            Ok(bit) => renormalized(
                Engine {
                    offset: 2 * engine.offset + crate::math::unit(bit),
                    ..read.engine
                },
            ),
        }
    }
}

/// The state after a symbol.
pub open spec fn adapted(context: ContextState, less_probable: bool) -> ContextState {
    if less_probable {
        ContextState {
            probability_state: after_lps(context.probability_state),
            most_probable_symbol: if context.probability_state == 0 {
                !context.most_probable_symbol
            } else {
                context.most_probable_symbol
            },
        }
    } else {
        ContextState { probability_state: after_mps(context.probability_state), ..context }
    }
}

/// Whether the code lies in the part of the interval of the less probable symbol.
pub open spec fn takes_less_probable(engine: Engine, context: ContextState) -> bool {
    engine.offset >= engine.range - lps_width(engine, context)
}

/// The part of the interval that the less probable symbol has.
pub open spec fn lps_width(engine: Engine, context: ContextState) -> int {
    lps_width_at(context.probability_state as int, (engine.range / 64) % 4)
}

/// Decodes a bin with a context; the second part is the context after it.
pub open spec fn decided(engine: Engine, context: ContextState) -> (Outcome<bool>, ContextState) {
    let width = lps_width(engine, context);
    let less = takes_less_probable(engine, context);
    let narrowed = if less {
        Engine { range: width, offset: engine.offset - (engine.range - width), ..engine }
    } else {
        Engine { range: engine.range - width, ..engine }
    };
    let bin = context.most_probable_symbol != less;
    let end = renormalized(narrowed);
    (
        Outcome {
            engine: end.engine,
            value: match end.value {
                Ok(_) => Ok(bin),
                Err(error) => Err(error),
            },
        },
        adapted(context, less),
    )
}

/// Decodes a bin without a context.
pub open spec fn bypassed(engine: Engine) -> Outcome<bool> {
    let read = coded(engine);
    match read.value {
        Err(error) => Outcome { engine: read.engine, value: Err(error) },
        Ok(bit) => {
            let offset = 2 * engine.offset + crate::math::unit(bit);
            if offset >= engine.range {
                Outcome {
                    engine: Engine { offset: offset - engine.range, ..read.engine },
                    value: Ok(true),
                }
            } else {
                Outcome { engine: Engine { offset, ..read.engine }, value: Ok(false) }
            }
        },
    }
}

/// Decodes the bin that ends a slice.
pub open spec fn terminated(engine: Engine) -> Outcome<bool> {
    let narrowed = Engine { range: engine.range - 2, ..engine };
    if narrowed.offset >= narrowed.range {
        Outcome { engine: narrowed, value: Ok(true) }
    } else {
        let end = renormalized(narrowed);
        Outcome {
            engine: end.engine,
            value: match end.value {
                Ok(_) => Ok(false),
                Err(error) => Err(error),
            },
        }
    }
}

/// Starts the registers from the next nine bits.
pub open spec fn started(bits: Seq<bool>, at: int, offset: int) -> Outcome<()> {
    if at + 9 > bits.len() {
        Outcome {
            engine: Engine { bits, at, range: 510, offset, padding: 0 },
            value: Err(Error::InvalidData(Fault::EndOfData)),
        }
    } else {
        let value = bits_value(bits.subrange(at, at + 9)) as int;
        let engine = Engine { bits, at: at + 9, range: 510, offset: value, padding: 0 };
        if value >= 510 {
            Outcome { engine, value: Err(Error::InvalidData(Fault::InitialOffset)) }
        } else {
            Outcome { engine, value: Ok(()) }
        }
    }
}

/// The place after the alignment bits, or why they are wrong.
pub open spec fn aligned_at(bits: Seq<bool>, at: int) -> Result<int, Error>
    decreases (8 - at % 8) % 8,
{
    if at % 8 == 0 {
        Ok(at)
    } else if at >= bits.len() {
        Err(Error::InvalidData(Fault::EndOfData))
    } else if !bits[at] {
        Err(Error::InvalidData(Fault::AlignmentBit))
    } else {
        aligned_at(bits, at + 1)
    }
}

/// Arithmetic decoder of one slice.
pub struct CabacDecoder<'reader, 'data> {
    bits: &'reader mut BitReader<'data>,
    range: u16,
    offset: u16,
    zero_padding_bits: u8,
}

impl<'reader, 'data> View for CabacDecoder<'reader, 'data> {
    type V = Engine;

    closed spec fn view(&self) -> Engine {
        Engine {
            bits: self.bits.all_bits(),
            at: self.bits.consumed(),
            range: self.range as int,
            offset: self.offset as int,
            padding: self.zero_padding_bits as int,
        }
    }
}

impl<'reader, 'data> CabacDecoder<'reader, 'data> {
    /// Whether the decoder's reader is valid.
    pub closed spec fn valid(&self) -> bool {
        self.bits.valid() && self.zero_padding_bits <= 16
    }

    /// Consumes the alignment bits and starts the registers.
    ///
    /// # Errors
    ///
    /// Returns an error for a zero alignment bit, a forbidden start value, and missing data.
    pub fn new(bits: &'reader mut BitReader<'data>) -> (result: Result<Self, Error>)
        requires
            old(bits).valid(),
        ensures
            match aligned_at(old(bits).all_bits(), old(bits).consumed()) {
                Err(error) => result matches Err(actual) && actual == error,
                Ok(at) => {
                    let start = started(old(bits).all_bits(), at, 0);
                    match start.value {
                        Err(error) => result matches Err(actual) && actual == error,
                        Ok(_) => result matches Ok(decoder) && decoder.valid() && decoder@
                            == start.engine && start.engine.ready(),
                    }
                },
            },
    {
        let ghost all = bits.all_bits();
        let ghost first = bits.consumed();
        while bits.bit_position() % 8 != 0
            invariant
                bits.valid(),
                bits.all_bits() == all,
                all == old(bits).all_bits(),
                first == old(bits).consumed(),
                aligned_at(all, first) == aligned_at(all, bits.consumed()),
            decreases (8 - bits.consumed() % 8) % 8,
        {
            let ghost position = bits.consumed();
            assert(bits.remaining().len() == all.len() - position);
            match bits.read_bit() {
                Ok(bit) => {
                    assert(bit == all[position]);
                    if !bit {
                        return Err(Error::InvalidData(Fault::AlignmentBit));
                    }
                },
                Err(error) => {
                    return Err(error);
                },
            }
        }
        let mut decoder = CabacDecoder { bits, range: 510, offset: 0, zero_padding_bits: 0 };
        match decoder.initialize_registers() {
            Ok(_) => Ok(decoder),
            Err(error) => Err(error),
        }
    }

    fn initialize_registers(&mut self) -> (result: Result<(), Error>)
        requires
            old(self).bits.valid(),
        ensures
            ({
                let start = started(old(self)@.bits, old(self)@.at, old(self)@.offset);
                &&& final(self).bits.valid()
                &&& final(self).zero_padding_bits == 0
                &&& final(self)@ == start.engine
                &&& result == start.value
                &&& result is Ok ==> final(self)@.ready()
            }),
    {
        self.range = 510;
        self.zero_padding_bits = 0;
        let ghost all = self.bits.all_bits();
        let ghost position = self.bits.consumed();
        assert(self.bits.remaining().len() == all.len() - position);
        match self.bits.read_bits(9) {
            Ok(value) => {
                proof {
                    let taken = all.skip(position).take(9);
                    assert(taken =~= all.subrange(position, position + 9));
                    lemma_bits_value_bound(taken);
                    lemma_power_of_eight();
                    assert(power_of_two(9) == 2 * power_of_two(8));
                }
                self.offset = value as u16;
                if self.offset >= 510 {
                    return Err(Error::InvalidData(Fault::InitialOffset));
                }
                Ok(())
            },
            Err(error) => Err(error),
        }
    }

    fn coded_bit(&mut self) -> (result: Result<bool, Error>)
        requires
            old(self).valid(),
        ensures
            final(self).valid(),
            final(self)@ == coded(old(self)@).engine,
            result == coded(old(self)@).value,
    {
        if self.bits.bits_remaining() > 0 {
            return self.bits.read_bit();
        }
        if self.zero_padding_bits >= 16 {
            return Err(Error::InvalidData(Fault::ZeroPadding));
        }
        self.zero_padding_bits = self.zero_padding_bits + 1;
        Ok(false)
    }

    fn renormalize(&mut self) -> (result: Result<(), Error>)
        requires
            old(self).valid(),
            1 <= old(self).range <= 510,
            old(self).offset < old(self).range,
        ensures
            final(self).valid(),
            final(self)@ == renormalized(old(self)@).engine,
            result == renormalized(old(self)@).value,
            result is Ok ==> final(self)@.ready(),
    {
        let ghost whole = renormalized(self@);
        while self.range < 256
            invariant
                self.valid(),
                1 <= self.range <= 510,
                self.offset < self.range,
                whole == renormalized(old(self)@),
                whole == renormalized(self@),
            decreases (if self.range >= 256 { 0 } else { 256 - self.range }),
        {
            let ghost before = self@;
            self.range = self.range * 2;
            let offset: u16 = self.offset;
            match self.coded_bit() {
                Ok(bit) => {
                    self.offset = offset * 2 + if bit {
                        1
                    } else {
                        0
                    };
                },
                Err(error) => {
                    return Err(error);
                },
            }
        }
        Ok(())
    }

    /// Decodes one bin with a context and updates the context.
    ///
    /// # Errors
    ///
    /// Returns an error when the data ends.
    pub fn decision(&mut self, context: &mut ContextState) -> (result: Result<bool, Error>)
        requires
            old(self).valid(),
            old(self)@.ready(),
            old(context).valid(),
        ensures
            final(self).valid(),
            final(context).valid(),
            final(self)@ == decided(old(self)@, *old(context)).0.engine,
            result == decided(old(self)@, *old(context)).0.value,
            *final(context) == decided(old(self)@, *old(context)).1,
            result is Ok ==> final(self)@.ready(),
    {
        let state: u8 = context.probability_state;
        let quarter: usize = ((self.range / 64) % 4) as usize;
        let width: u16 = lps_width_of(state, quarter);
        self.range = self.range - width;
        let bin;
        if self.offset >= self.range {
            self.offset = self.offset - self.range;
            self.range = width;
            bin = !context.most_probable_symbol;
            if context.probability_state == 0 {
                context.most_probable_symbol = !context.most_probable_symbol;
            }
            context.probability_state = state_after_lps(state);
        } else {
            context.probability_state = state_after_mps(state);
            bin = context.most_probable_symbol;
        }
        match self.renormalize() {
            Ok(_) => Ok(bin),
            Err(error) => Err(error),
        }
    }

    /// Decodes one bin without a context.
    ///
    /// # Errors
    ///
    /// Returns an error when the data ends.
    pub fn bypass(&mut self) -> (result: Result<bool, Error>)
        requires
            old(self).valid(),
            old(self)@.ready(),
        ensures
            final(self).valid(),
            final(self)@ == bypassed(old(self)@).engine,
            result == bypassed(old(self)@).value,
            final(self)@.ready(),
    {
        let offset: u16 = self.offset;
        match self.coded_bit() {
            Ok(bit) => {
                let doubled: u16 = offset * 2 + if bit {
                    1
                } else {
                    0
                };
                if doubled >= self.range {
                    self.offset = doubled - self.range;
                    Ok(true)
                } else {
                    self.offset = doubled;
                    Ok(false)
                }
            },
            Err(error) => Err(error),
        }
    }

    /// Decodes the bin that ends a slice.
    ///
    /// # Errors
    ///
    /// Returns an error when the data ends.
    pub fn terminate(&mut self) -> (result: Result<bool, Error>)
        requires
            old(self).valid(),
            old(self)@.ready(),
        ensures
            final(self).valid(),
            final(self)@ == terminated(old(self)@).engine,
            result == terminated(old(self)@).value,
            result == Ok::<bool, Error>(false) ==> final(self)@.ready(),
    {
        self.range = self.range - 2;
        if self.offset >= self.range {
            Ok(true)
        } else {
            match self.renormalize() {
                Ok(_) => Ok(false),
                Err(error) => Err(error),
            }
        }
    }

    /// Reads byte-aligned raw samples and starts the registers again.
    ///
    /// # Errors
    ///
    /// Returns an error when the data ends, or starts the registers at a forbidden value.
    pub fn pcm_samples(&mut self, count: usize) -> (result: Result<Vec<u8>, Error>)
        requires
            old(self).valid(),
        ensures
            final(self).valid(),
            final(self)@.bits == old(self)@.bits,
            ({
                let first = old(self)@.at + (8 - old(self)@.at % 8) % 8;
                let bits = old(self)@.bits;
                let start = started(bits, first + 8 * count, old(self)@.offset);
                if first + 8 * count > bits.len() {
                    result matches Err(error) && error == Error::InvalidData(Fault::EndOfData)
                } else {
                    &&& final(self)@ == start.engine
                    &&& match start.value {
                        Err(error) => result matches Err(actual) && actual == error,
                        Ok(_) => result matches Ok(samples) && samples@.len() == count && (forall|
                            i: int,
                        |
                            0 <= i < count ==> #[trigger] samples@[i] == bits_value(
                                bits.subrange(first + 8 * i, first + 8 * i + 8),
                            )) && final(self)@.ready(),
                    }
                }
            }),
    {
        let ghost bits = self.bits.all_bits();
        self.bits.align_to_byte();
        let ghost first = self.bits.consumed();
        let mut samples: Vec<u8> = Vec::with_capacity(count);
        let mut done: usize = 0;
        while done < count
            invariant
                done <= count,
                done == samples@.len(),
                self.valid(),
                self.bits.all_bits() == bits,
                bits == old(self)@.bits,
                first == old(self)@.at + (8 - old(self)@.at % 8) % 8,
                self.bits.consumed() == first + 8 * done,
                self.offset == old(self).offset,
                forall|i: int|
                    0 <= i < done ==> #[trigger] samples@[i] == bits_value(
                        bits.subrange(first + 8 * i, first + 8 * i + 8),
                    ),
            decreases count - done,
        {
            let ghost position = self.bits.consumed();
            assert(self.bits.remaining().len() == bits.len() - position);
            match self.bits.read_bits(8) {
                Ok(value) => {
                    proof {
                        let taken = bits.skip(position).take(8);
                        assert(taken =~= bits.subrange(position, position + 8));
                        lemma_bits_value_bound(taken);
                        lemma_power_of_eight();
                    }
                    samples.push(value as u8);
                },
                Err(error) => {
                    return Err(error);
                },
            }
            done = done + 1;
        }
        match self.initialize_registers() {
            Ok(_) => Ok(samples),
            Err(error) => Err(error),
        }
    }
}

} // verus!
