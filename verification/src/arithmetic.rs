//! The arithmetic encoder.

use vstd::prelude::*;

use crate::bits::{
    bits_of, bits_value, law_bits_of_bits_value, law_bits_value_of_bits, lemma_bits_of_len,
    lemma_bits_value_bound, packed, power_of_two, BitWriter,
};
use crate::cabac::{adapted, ContextState};
use crate::cabac_tables::{lps_width_at, lps_width_of, state_after_lps, state_after_mps};

verus! {

/// A symbol with two values.
#[derive(Clone, Copy, Debug, PartialEq, Eq, Structural)]
pub enum Bin {
    /// One that is coded with an adaptive probability.
    Decision {
        /// Which one.
        slot: u16,
        /// The value.
        value: bool,
    },
    /// One whose values are equally probable.
    Bypass(bool),
    /// One that ends the data where it is true.
    Terminate(bool),
}

/// The interval that symbols have narrowed: `range` wide from `low` on, in units that were halved
/// `count` times.
#[verifier::ext_equal]
pub struct Interval {
    /// Where it starts.
    pub low: nat,
    /// How wide it is.
    pub range: int,
    /// How often its unit was halved.
    pub count: nat,
}

/// The interval before any symbol.
pub open spec fn whole_interval() -> Interval {
    Interval { low: 0, range: 510, count: 0 }
}

impl Interval {
    /// Whether the interval is normalized and lies in the whole one.
    pub open spec fn valid(self) -> bool {
        256 <= self.range <= 510 && self.low + self.range <= power_of_two(9 + self.count)
    }
}

/// An interval in smaller units, so that it is wide enough.
pub open spec fn widened(interval: Interval) -> Interval
    decreases (if interval.range >= 256 { 0 } else { 256 - interval.range }),
{
    if interval.range >= 256 || interval.range <= 0 {
        interval
    } else {
        widened(
            Interval {
                low: 2 * interval.low,
                range: 2 * interval.range,
                count: interval.count + 1,
            },
        )
    }
}

/// The part of an interval that the less probable symbol has.
pub open spec fn less_width(interval: Interval, context: ContextState) -> int {
    lps_width_at(context.probability_state as int, (interval.range / 64) % 4)
}

/// The part of an interval that a symbol has, before it is widened.
pub open spec fn decision_part(interval: Interval, context: ContextState, value: bool) -> Interval {
    let width = less_width(interval, context);
    if value == context.most_probable_symbol {
        Interval { range: interval.range - width, ..interval }
    } else {
        Interval { low: (interval.low + interval.range - width) as nat, range: width, ..interval }
    }
}

/// The part of an interval that an equally probable symbol has.
pub open spec fn bypass_part(interval: Interval, value: bool) -> Interval {
    Interval {
        low: 2 * interval.low + if value {
            interval.range as nat
        } else {
            0
        },
        range: interval.range,
        count: interval.count + 1,
    }
}

/// The part of an interval that goes on, before it is widened, or that ends the data.
pub open spec fn terminate_part(interval: Interval, value: bool) -> Interval {
    if value {
        Interval { low: (interval.low + interval.range - 2) as nat, range: 2, ..interval }
    } else {
        Interval { range: interval.range - 2, ..interval }
    }
}

/// The encoder: an interval and the probabilities.
#[verifier::ext_equal]
pub struct Coding {
    /// The interval.
    pub interval: Interval,
    /// The probabilities.
    pub contexts: Seq<ContextState>,
}

/// The encoder after one more symbol.
pub open spec fn coded_bin(coding: Coding, bin: Bin) -> Coding {
    match bin {
        Bin::Decision { slot, value } => {
            let context = coding.contexts[slot as int];
            Coding {
                interval: widened(decision_part(coding.interval, context, value)),
                contexts: coding.contexts.update(
                    slot as int,
                    adapted(context, value != context.most_probable_symbol),
                ),
            }
        },
        Bin::Bypass(value) => Coding { interval: bypass_part(coding.interval, value), ..coding },
        Bin::Terminate(value) => Coding {
            interval: if value {
                terminate_part(coding.interval, true)
            } else {
                widened(terminate_part(coding.interval, false))
            },
            ..coding
        },
    }
}

/// The encoder after the first `count` symbols of a list.
pub open spec fn coded_bins(coding: Coding, bins: Seq<Bin>, count: int) -> Coding
    decreases count,
{
    if count <= 0 {
        coding
    } else {
        coded_bin(coded_bins(coding, bins, count - 1), bins[count - 1])
    }
}

/// The bits that end the data: the odd one of the two codes in the last interval.
pub open spec fn flushed_bits(interval: Interval) -> Seq<bool> {
    bits_of(2 * (interval.low / 2) + 1, 9 + interval.count)
}

/// The bytes that end the data.
pub open spec fn flushed(interval: Interval) -> Seq<u8> {
    packed(flushed_bits(interval))
}

/// Whether all probabilities are ones that exist.
pub open spec fn contexts_valid(contexts: Seq<ContextState>) -> bool {
    forall|i: int| 0 <= i < contexts.len() ==> (#[trigger] contexts[i]).valid()
}

/// The arithmetic encoder.
#[derive(Debug)]
pub struct CabacEncoder {
    /// The upper bits of the start of the interval.
    emitted: Vec<bool>,
    /// The lower nine bits of the start of the interval.
    low: u32,
    /// How wide the interval is.
    range: u32,
}

impl View for CabacEncoder {
    type V = Interval;

    closed spec fn view(&self) -> Interval {
        Interval {
            low: bits_value(self.emitted@) * 512 + self.low as nat,
            range: self.range as int,
            count: self.emitted@.len(),
        }
    }
}

proof fn lemma_push_value(bits: Seq<bool>, bit: bool)
    ensures
        bits_value(bits.push(bit)) == 2 * bits_value(bits) + if bit {
            1nat
        } else {
            0nat
        },
{
    assert(bits.push(bit).drop_last() =~= bits);
}

/// The value of bits is that of the first ones, moved up, and that of the rest.
pub proof fn lemma_split_value(bits: Seq<bool>, at: int)
    requires
        0 <= at <= bits.len(),
    ensures
        bits_value(bits) == bits_value(bits.take(at)) * power_of_two((bits.len() - at) as nat)
            + bits_value(bits.skip(at)),
    decreases bits.len() - at,
{
    if at == bits.len() {
        assert(bits.take(at) =~= bits);
        assert(bits.skip(at) =~= Seq::empty());
        let high = bits_value(bits);
        let power = power_of_two((bits.len() - at) as nat);
        assert(high * power == high) by (nonlinear_arith)
            requires
                power == 1,
        ;
    } else {
        let shorter = bits.drop_last();
        lemma_split_value(shorter, at);
        assert(shorter.take(at) =~= bits.take(at));
        assert(shorter.skip(at) =~= bits.skip(at).drop_last());
        assert(bits.skip(at).last() == bits.last());
        let high = bits_value(bits.take(at));
        let power = power_of_two((shorter.len() - at) as nat);
        assert(power_of_two((bits.len() - at) as nat) == 2 * power);
        assert(high * (2 * power) == 2 * (high * power)) by (nonlinear_arith);
    }
}

/// Bits that are all true have the largest value.
proof fn lemma_all_ones(bits: Seq<bool>)
    requires
        forall|i: int| 0 <= i < bits.len() ==> #[trigger] bits[i],
    ensures
        bits_value(bits) + 1 == power_of_two(bits.len()),
    decreases bits.len(),
{
    if bits.len() > 0 {
        assert(bits.last());
        lemma_all_ones(bits.drop_last());
    } else {
        assert(power_of_two(0) == 1);
    }
}

/// Bits that are all false have the value zero.
proof fn lemma_all_zeros(bits: Seq<bool>)
    requires
        forall|i: int| 0 <= i < bits.len() ==> !#[trigger] bits[i],
    ensures
        bits_value(bits) == 0,
    decreases bits.len(),
{
    if bits.len() > 0 {
        assert(!bits.last());
        lemma_all_zeros(bits.drop_last());
    }
}

/// Adds one to the number that bits stand for.
fn increment(bits: &mut Vec<bool>)
    requires
        bits_value(old(bits)@) + 1 < power_of_two(old(bits)@.len()),
    ensures
        final(bits)@.len() == old(bits)@.len(),
        bits_value(final(bits)@) == bits_value(old(bits)@) + 1,
{
    let ghost before = bits@;
    let mut at: usize = bits.len();
    while at > 0 && bits[at - 1]
        invariant
            at <= bits@.len(),
            bits@.len() == before.len(),
            bits_value(before) + 1 < power_of_two(before.len()),
            forall|i: int| 0 <= i < at ==> bits@[i] == before[i],
            forall|i: int| at <= i < bits@.len() ==> #[trigger] before[i] && !bits@[i],
        decreases at,
    {
        at = at - 1;
        bits.set(at, false);
    }
    proof {
        lemma_split_value(before, at as int);
        lemma_all_ones(before.skip(at as int));
        if at == 0 {
            assert(before.take(0) =~= Seq::empty());
            assert(bits_value(Seq::<bool>::empty()) == 0);
            assert(0 * power_of_two(before.len()) == 0) by (nonlinear_arith);
        }
        assert(at > 0);
    }
    bits.set(at - 1, true);
    proof {
        let after = bits@;
        lemma_split_value(after, at as int);
        assert forall|i: int| 0 <= i < after.skip(at as int).len() implies !#[trigger] after.skip(
            at as int,
        )[i] by {
            assert(before[at + i]);
        }
        lemma_all_zeros(after.skip(at as int));
        let power = power_of_two((before.len() - at) as nat);
        assert(before.take(at as int) =~= before.take(at - 1).push(false));
        assert(after.take(at as int) =~= before.take(at - 1).push(true));
        lemma_push_value(before.take(at - 1), false);
        lemma_push_value(before.take(at - 1), true);
        let high = bits_value(before.take(at as int));
        assert((high + 1) * power == high * power + power) by (nonlinear_arith);
    }
}

pub proof fn lemma_power_nine(count: nat)
    ensures
        power_of_two(9 + count) == 512 * power_of_two(count),
    decreases count,
{
    reveal_with_fuel(power_of_two, 10);
    if count > 0 {
        lemma_power_nine((count - 1) as nat);
        assert(power_of_two(9 + count) == 2 * power_of_two((9 + count - 1) as nat));
    }
}

/// A widened interval lies in the whole one, and is normalized.
pub proof fn lemma_widened(interval: Interval)
    requires
        0 < interval.range <= 510,
        interval.low + interval.range <= power_of_two(9 + interval.count),
    ensures
        widened(interval).valid(),
    decreases (if interval.range >= 256 { 0 } else { 256 - interval.range }),
{
    if interval.range < 256 {
        assert(power_of_two(9 + interval.count + 1) == 2 * power_of_two(9 + interval.count));
        lemma_widened(
            Interval {
                low: 2 * interval.low,
                range: 2 * interval.range,
                count: interval.count + 1,
            },
        );
    }
}

impl CabacEncoder {
    /// Whether the interval lies in the whole one, however wide it is.
    pub closed spec fn contained(&self) -> bool {
        &&& self.low < 512
        &&& 0 < self.range <= 510
        &&& self@.low + self@.range <= power_of_two(9 + self@.count)
    }

    /// Whether the encoder is ready for a symbol.
    pub open spec fn ready(&self) -> bool {
        self.contained() && 256 <= self@.range <= 510
    }

    /// An encoder that has seen no symbol.
    pub fn new() -> (encoder: Self)
        ensures
            encoder.ready(),
            encoder@ == whole_interval(),
    {
        let encoder = CabacEncoder { emitted: Vec::new(), low: 0, range: 510 };
        proof {
            reveal_with_fuel(power_of_two, 10);
            assert(encoder.emitted@ =~= Seq::empty());
        }
        encoder
    }

    /// Moves the start of the interval up and makes it narrower.
    fn narrow(&mut self, step: u32, range: u32)
        requires
            old(self).contained(),
            0 < range,
            step + range <= old(self)@.range,
        ensures
            final(self).contained(),
            final(self)@ == (Interval {
                low: old(self)@.low + step as nat,
                range: range as int,
                ..old(self)@
            }),
    {
        let low: u32 = self.low + step;
        if low >= 512 {
            proof {
                lemma_power_nine(self.emitted@.len());
                lemma_bits_value_bound(self.emitted@);
            }
            increment(&mut self.emitted);
            self.low = low - 512;
        } else {
            self.low = low;
        }
        self.range = range;
    }

    /// Halves the unit of the interval.
    fn double(&mut self)
        requires
            old(self).contained(),
        ensures
            final(self).low < 512,
            final(self)@ == (Interval {
                low: 2 * old(self)@.low,
                range: old(self)@.range,
                count: old(self)@.count + 1,
            }),
            final(self).range == old(self).range,
            power_of_two(9 + final(self)@.count) == 2 * power_of_two(9 + old(self)@.count),
    {
        let bit = self.low >= 256;
        proof {
            lemma_push_value(self.emitted@, bit);
        }
        self.emitted.push(bit);
        self.low = (self.low % 256) * 2;
    }

    /// Halves the unit of the interval until it is wide enough.
    fn renormalize(&mut self)
        requires
            old(self).contained(),
        ensures
            final(self).ready(),
            final(self)@ == widened(old(self)@),
    {
        let ghost start = self@;
        proof {
            lemma_widened(start);
        }
        while self.range < 256
            invariant
                self.contained(),
                widened(self@) == widened(start),
            decreases (if self.range >= 256 { 0 } else { 256 - self.range }),
        {
            self.double();
            self.range = self.range * 2;
        }
    }

    /// Encodes a symbol with an adaptive probability.
    pub fn decision(&mut self, context: &mut ContextState, value: bool)
        requires
            old(self).ready(),
            old(context).valid(),
        ensures
            final(self).ready(),
            final(self)@ == widened(decision_part(old(self)@, *old(context), value)),
            *final(context) == adapted(
                *old(context),
                value != old(context).most_probable_symbol,
            ),
            final(context).valid(),
    {
        let state: u8 = context.probability_state;
        let quarter: usize = ((self.range / 64) % 4) as usize;
        let width: u32 = lps_width_of(state, quarter) as u32;
        if value == context.most_probable_symbol {
            let rest: u32 = self.range - width;
            self.narrow(0, rest);
            context.probability_state = state_after_mps(state);
        } else {
            let step: u32 = self.range - width;
            self.narrow(step, width);
            if state == 0 {
                context.most_probable_symbol = !context.most_probable_symbol;
            }
            context.probability_state = state_after_lps(state);
        }
        self.renormalize();
    }

    /// Encodes a symbol whose values are equally probable.
    pub fn bypass(&mut self, value: bool)
        requires
            old(self).ready(),
        ensures
            final(self).ready(),
            final(self)@ == bypass_part(old(self)@, value),
    {
        self.double();
        let range: u32 = self.range;
        if value {
            self.range = range * 2;
            self.narrow_wide(range);
        }
    }

    /// Moves the start of an interval that is twice as wide as it may be to its middle.
    fn narrow_wide(&mut self, half: u32)
        requires
            old(self).low < 512,
            old(self).range == 2 * half,
            256 <= half <= 510,
            old(self)@.low + old(self)@.range <= power_of_two(9 + old(self)@.count),
        ensures
            final(self).ready(),
            final(self)@ == (Interval {
                low: old(self)@.low + half as nat,
                range: half as int,
                ..old(self)@
            }),
    {
        let low: u32 = self.low + half;
        if low >= 512 {
            proof {
                lemma_power_nine(self.emitted@.len());
                lemma_bits_value_bound(self.emitted@);
            }
            increment(&mut self.emitted);
            self.low = low - 512;
        } else {
            self.low = low;
        }
        self.range = half;
    }

    /// Encodes a symbol that ends the data where it is true.
    pub fn terminate(&mut self, value: bool)
        requires
            old(self).ready(),
        ensures
            final(self).contained(),
            !value ==> final(self).ready(),
            final(self)@ == (if value {
                terminate_part(old(self)@, true)
            } else {
                widened(terminate_part(old(self)@, false))
            }),
    {
        let rest: u32 = self.range - 2;
        if value {
            self.narrow(rest, 2);
        } else {
            self.narrow(0, rest);
            self.renormalize();
        }
    }

    /// Ends the data.
    pub fn finish(self) -> (bytes: Vec<u8>)
        requires
            self.contained(),
        ensures
            bytes@ == flushed(self@),
    {
        let ghost interval = self@;
        let mut writer = BitWriter::new();
        let mut index: usize = 0;
        while index < self.emitted.len()
            invariant
                index <= self.emitted@.len(),
                writer@ == self.emitted@.take(index as int),
            decreases self.emitted@.len() - index,
        {
            writer.write_bit(self.emitted[index]);
            index = index + 1;
            assert(writer@ =~= self.emitted@.take(index as int));
        }
        assert(self.emitted@.take(index as int) =~= self.emitted@);
        let last: u64 = 2 * (self.low / 2) as u64 + 1;
        writer.write_bits(last, 9);
        proof {
            let all = self.emitted@ + bits_of(last as nat, 9);
            lemma_bits_of_len(last as nat, 9);
            reveal_with_fuel(power_of_two, 10);
            law_bits_value_of_bits(last as nat, 9);
            lemma_split_value(all, self.emitted@.len() as int);
            assert(all.take(self.emitted@.len() as int) =~= self.emitted@);
            assert(all.skip(self.emitted@.len() as int) =~= bits_of(last as nat, 9));
            law_bits_of_bits_value(all);
            assert(interval.low == bits_value(self.emitted@) * 512 + self.low);
            assert(bits_value(all) == 2 * (interval.low / 2) + 1);
            assert(writer@ =~= all);
        }
        writer.into_bytes()
    }
}

/// The arithmetic encoder with its probabilities.
#[derive(Debug)]
pub struct BinCoder {
    /// The interval.
    pub encoder: CabacEncoder,
    /// The probabilities.
    pub contexts: Vec<ContextState>,
}

impl View for BinCoder {
    type V = Coding;

    open spec fn view(&self) -> Coding {
        Coding { interval: self.encoder@, contexts: self.contexts@ }
    }
}

/// Whether a symbol can be coded with so many probabilities.
pub open spec fn bin_fits(bin: Bin, slots: int) -> bool {
    bin matches Bin::Decision { slot, value } ==> slot < slots
}

/// Whether symbols can be coded with so many probabilities, and none but the last ends the data.
pub open spec fn bins_fit(bins: Seq<Bin>, slots: int) -> bool {
    &&& forall|i: int| 0 <= i < bins.len() ==> bin_fits(#[trigger] bins[i], slots)
    &&& forall|i: int| 0 <= i < bins.len() - 1 ==> #[trigger] bins[i] != Bin::Terminate(true)
}

impl BinCoder {
    /// Whether the encoder is ready for a symbol.
    pub open spec fn ready(&self) -> bool {
        self.encoder.ready() && contexts_valid(self.contexts@)
    }

    /// Encodes a symbol.
    pub fn encode_bin(&mut self, bin: Bin)
        requires
            old(self).ready(),
            bin_fits(bin, old(self).contexts@.len() as int),
        ensures
            final(self)@ == coded_bin(old(self)@, bin),
            final(self).contexts@.len() == old(self).contexts@.len(),
            contexts_valid(final(self).contexts@),
            final(self).encoder.contained(),
            bin != Bin::Terminate(true) ==> final(self).ready(),
    {
        match bin {
            Bin::Decision { slot, value } => {
                let mut context: ContextState = self.contexts[slot as usize];
                assert(self.contexts@[slot as int].valid());
                self.encoder.decision(&mut context, value);
                self.contexts.set(slot as usize, context);
            },
            Bin::Bypass(value) => {
                self.encoder.bypass(value);
            },
            Bin::Terminate(value) => {
                self.encoder.terminate(value);
            },
        }
    }

    /// Encodes symbols, one after the other.
    pub fn encode_bins(&mut self, bins: &[Bin])
        requires
            old(self).ready(),
            bins_fit(bins@, old(self).contexts@.len() as int),
        ensures
            final(self)@ == coded_bins(old(self)@, bins@, bins@.len() as int),
            final(self).contexts@.len() == old(self).contexts@.len(),
            contexts_valid(final(self).contexts@),
            final(self).encoder.contained(),
            bins@.len() == 0 || bins@.last() != Bin::Terminate(true) ==> final(self).ready(),
    {
        let ghost start = self@;
        let mut index: usize = 0;
        while index < bins.len()
            invariant
                index <= bins@.len(),
                bins_fit(bins@, self.contexts@.len() as int),
                self.contexts@.len() == old(self).contexts@.len(),
                self@ == coded_bins(start, bins@, index as int),
                contexts_valid(self.contexts@),
                self.encoder.contained(),
                index < bins@.len() || bins@.len() == 0 || bins@.last() != Bin::Terminate(true)
                    ==> self.ready(),
            decreases bins@.len() - index,
        {
            assert(bin_fits(bins@[index as int], self.contexts@.len() as int));
            self.encode_bin(bins[index]);
            index = index + 1;
        }
    }
}

} // verus!
