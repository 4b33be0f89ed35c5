//! What the arithmetic encoder writes, the arithmetic decoder reads back.

use vstd::prelude::*;

use crate::arithmetic::{
    bin_fits, bins_fit, coded_bin, coded_bins, contexts_valid, decision_part, flushed_bits,
    lemma_power_nine, lemma_split_value, less_width, terminate_part, whole_interval, widened, Bin,
    Coding, Interval,
};
use crate::bins::{inner_bin, inner_bins, SLOT_COUNT};
use crate::bits::{
    aligned, bits_value, law_bits_value_of_bits, law_unpack_packed, lemma_bits_value_bound,
    lemma_unpacked_concat, power_of_two, unpacked,
};
use crate::cabac::{
    adapted, aligned_at, bypassed, coded, decided, renormalized, started, terminated, ContextState,
    Engine,
};
use crate::cabac_intra::header_bytes;
use crate::cabac_tables::{
    after_lps, after_mps, lps_width_at, RANGE_LPS, TRANSITION_LPS, TRANSITION_MPS,
};
use crate::contexts::{initial_states, picture_bytes};
use crate::math::unit;
use crate::quantize::quantizer;

verus! {

/// Whether a decoder that reads symbols of the kinds in a list, from one on, gets their values.
pub open spec fn reads_back(
    engine: Engine,
    contexts: Seq<ContextState>,
    bins: Seq<Bin>,
    from: int,
) -> bool
    decreases bins.len() - from,
{
    if from >= bins.len() {
        true
    } else {
        match bins[from] {
            Bin::Decision { slot, value } => {
                let (read, context) = decided(engine, contexts[slot as int]);
                &&& read.value == Ok::<bool, crate::error::Error>(value)
                &&& reads_back(
                    read.engine,
                    contexts.update(slot as int, context),
                    bins,
                    from + 1,
                )
            },
            Bin::Bypass(value) => {
                let read = bypassed(engine);
                &&& read.value == Ok::<bool, crate::error::Error>(value)
                &&& reads_back(read.engine, contexts, bins, from + 1)
            },
            Bin::Terminate(value) => {
                let read = terminated(engine);
                &&& read.value == Ok::<bool, crate::error::Error>(value)
                &&& reads_back(read.engine, contexts, bins, from + 1)
            },
        }
    }
}

/// The decoder after it reads symbols of the kinds in a list, from one on.
pub open spec fn engine_after(
    engine: Engine,
    contexts: Seq<ContextState>,
    bins: Seq<Bin>,
    from: int,
) -> Engine
    decreases bins.len() - from,
{
    if from >= bins.len() {
        engine
    } else {
        match bins[from] {
            Bin::Decision { slot, value } => {
                let (read, context) = decided(engine, contexts[slot as int]);
                engine_after(read.engine, contexts.update(slot as int, context), bins, from + 1)
            },
            Bin::Bypass(value) => engine_after(bypassed(engine).engine, contexts, bins, from + 1),
            Bin::Terminate(value) => engine_after(
                terminated(engine).engine,
                contexts,
                bins,
                from + 1,
            ),
        }
    }
}

/// Whether a code of some number of bits lies in an interval.
spec fn holds(interval: Interval, code: nat, length: nat) -> bool {
    let power = power_of_two((length - 9 - interval.count) as nat);
    &&& 9 + interval.count <= length
    &&& interval.low * power <= code
    &&& code < (interval.low + interval.range) * power
}

/// Whether the registers of a decoder, which started at `base`, stand where an interval is.
spec fn mirrors(engine: Engine, interval: Interval, bits: Seq<bool>, base: int) -> bool {
    &&& engine.bits == bits
    &&& engine.at == base + 9 + interval.count
    &&& engine.range == interval.range
    &&& engine.offset == bits_value(bits.subrange(base, engine.at)) - interval.low
    &&& engine.padding == 0
}

/// A code that lies in an interval of twice the unit lies in the interval.
proof fn lemma_halved(interval: Interval, code: nat, length: nat)
    requires
        holds(
            Interval {
                low: 2 * interval.low,
                range: 2 * interval.range,
                count: interval.count + 1,
            },
            code,
            length,
        ),
    ensures
        holds(interval, code, length),
{
    let half = power_of_two((length - 10 - interval.count) as nat);
    let power = power_of_two((length - 9 - interval.count) as nat);
    assert(power == 2 * half);
    let low = interval.low as int;
    let end = interval.low + interval.range;
    assert(low * power == (2 * low) * half) by (nonlinear_arith)
        requires
            power == 2 * half,
    ;
    assert(end * power == (2 * end) * half) by (nonlinear_arith)
        requires
            power == 2 * half,
    ;
    assert(2 * interval.low + 2 * interval.range == 2 * end);
}

/// A code that lies in a part of an interval lies in the interval.
proof fn lemma_part_holds(whole: Interval, part: Interval, code: nat, length: nat)
    requires
        holds(part, code, length),
        part.count == whole.count,
        whole.low <= part.low,
        part.low + part.range <= whole.low + whole.range,
    ensures
        holds(whole, code, length),
{
    let power = power_of_two((length - 9 - whole.count) as nat);
    let low = whole.low as int;
    let inner = part.low as int;
    let end = whole.low + whole.range;
    let last = part.low + part.range;
    assert(low * power <= inner * power) by (nonlinear_arith)
        requires
            low <= inner,
            power >= 0,
    ;
    assert(last * power <= end * power) by (nonlinear_arith)
        requires
            last <= end,
            power >= 0,
    ;
}

/// A code that lies in a widened interval lies in the interval.
proof fn lemma_widened_holds(interval: Interval, code: nat, length: nat)
    requires
        0 < interval.range <= 510,
        holds(widened(interval), code, length),
    ensures
        holds(interval, code, length),
        widened(interval).count >= interval.count,
        256 <= widened(interval).range <= 510,
    decreases (if interval.range >= 256 { 0 } else { 256 - interval.range }),
{
    if interval.range < 256 {
        let doubled = Interval {
            low: 2 * interval.low,
            range: 2 * interval.range,
            count: interval.count + 1,
        };
        lemma_widened_holds(doubled, code, length);
        lemma_halved(interval, code, length);
    }
}

proof fn lemma_widths(state: int, quarter: int)
    requires
        0 <= state < 64,
        0 <= quarter < 4,
    ensures
        2 <= lps_width_at(state, quarter) <= 240,
{
    reveal(lps_width_at);
    assert(forall|s: int, q: int|
        0 <= s < 64 && 0 <= q < 4 ==> 2 <= #[trigger] RANGE_LPS[s][q] <= 240);
}

pub proof fn lemma_adapted_valid(context: ContextState, less: bool)
    requires
        context.valid(),
    ensures
        adapted(context, less).valid(),
{
    reveal(after_lps);
    reveal(after_mps);
    assert(forall|s: int| 0 <= s < 64 ==> #[trigger] TRANSITION_LPS[s] < 64);
    assert(forall|s: int| 0 <= s < 64 ==> #[trigger] TRANSITION_MPS[s] < 64);
}

/// A code that lies in the interval after a symbol lies in the interval before it.
proof fn lemma_bin_holds(coding: Coding, bin: Bin, code: nat, length: nat)
    requires
        256 <= coding.interval.range <= 510,
        contexts_valid(coding.contexts),
        bin_fits(bin, coding.contexts.len() as int),
        holds(coded_bin(coding, bin).interval, code, length),
    ensures
        holds(coding.interval, code, length),
{
    let interval = coding.interval;
    match bin {
        Bin::Decision { slot, value } => {
            let context = coding.contexts[slot as int];
            lemma_widths(context.probability_state as int, (interval.range / 64) % 4);
            let part = decision_part(interval, context, value);
            lemma_widened_holds(part, code, length);
            lemma_part_holds(interval, part, code, length);
        },
        Bin::Bypass(value) => {
            let doubled = Interval {
                low: 2 * interval.low,
                range: 2 * interval.range,
                count: interval.count + 1,
            };
            lemma_part_holds(doubled, coded_bin(coding, bin).interval, code, length);
            lemma_halved(interval, code, length);
        },
        Bin::Terminate(value) => {
            let part = terminate_part(interval, value);
            if !value {
                lemma_widened_holds(part, code, length);
            }
            lemma_part_holds(interval, part, code, length);
        },
    }
}

/// A symbol that does not end the data leaves a normalized interval and existing probabilities.
proof fn lemma_bin_normal(coding: Coding, bin: Bin)
    requires
        256 <= coding.interval.range <= 510,
        coding.interval.low + coding.interval.range <= power_of_two(9 + coding.interval.count),
        contexts_valid(coding.contexts),
        bin_fits(bin, coding.contexts.len() as int),
    ensures
        ({
            let next = coded_bin(coding, bin);
            &&& next.interval.low + next.interval.range <= power_of_two(9 + next.interval.count)
            &&& contexts_valid(next.contexts)
            &&& next.contexts.len() == coding.contexts.len()
            &&& bin != Bin::Terminate(true) ==> 256 <= next.interval.range <= 510
        }),
{
    let interval = coding.interval;
    match bin {
        Bin::Decision { slot, value } => {
            let context = coding.contexts[slot as int];
            lemma_widths(context.probability_state as int, (interval.range / 64) % 4);
            lemma_adapted_valid(context, value != context.most_probable_symbol);
            crate::arithmetic::lemma_widened(decision_part(interval, context, value));
        },
        Bin::Bypass(value) => {
            assert(power_of_two(9 + interval.count + 1) == 2 * power_of_two(9 + interval.count));
        },
        Bin::Terminate(value) => {
            if !value {
                crate::arithmetic::lemma_widened(terminate_part(interval, value));
            }
        },
    }
}

/// The first symbols of a list leave a normalized interval and existing probabilities.
proof fn lemma_bins_normal(coding: Coding, bins: Seq<Bin>, count: int)
    requires
        0 <= count <= bins.len(),
        coding.interval.valid(),
        contexts_valid(coding.contexts),
        bins_fit(bins, coding.contexts.len() as int),
    ensures
        ({
            let next = coded_bins(coding, bins, count);
            &&& next.interval.low + next.interval.range <= power_of_two(9 + next.interval.count)
            &&& contexts_valid(next.contexts)
            &&& next.contexts.len() == coding.contexts.len()
            &&& count == 0 || bins[count - 1] != Bin::Terminate(true) ==> 256
                <= next.interval.range <= 510
        }),
    decreases count,
{
    if count > 0 {
        lemma_bins_normal(coding, bins, count - 1);
        assert(bin_fits(bins[count - 1], coding.contexts.len() as int));
        if count > 1 {
            assert(bins[count - 2] != Bin::Terminate(true));
        }
        lemma_bin_normal(coded_bins(coding, bins, count - 1), bins[count - 1]);
    }
}

/// A code that lies in the last interval lies in those before it.
proof fn lemma_bins_hold(coding: Coding, bins: Seq<Bin>, count: int, code: nat, length: nat)
    requires
        0 <= count <= bins.len(),
        coding.interval.valid(),
        contexts_valid(coding.contexts),
        bins_fit(bins, coding.contexts.len() as int),
        holds(coded_bins(coding, bins, bins.len() as int).interval, code, length),
    ensures
        holds(coded_bins(coding, bins, count).interval, code, length),
    decreases bins.len() - count,
{
    if count < bins.len() {
        lemma_bins_hold(coding, bins, count + 1, code, length);
        lemma_bins_normal(coding, bins, count);
        assert(bin_fits(bins[count], coding.contexts.len() as int));
        if count > 0 {
            assert(bins[count - 1] != Bin::Terminate(true));
        }
        lemma_bin_holds(coded_bins(coding, bins, count), bins[count], code, length);
    }
}

/// Where a code lies in an interval, its first bits do.
proof fn lemma_top(bits: Seq<bool>, base: int, length: nat, interval: Interval)
    requires
        0 <= base,
        base + length <= bits.len(),
        holds(interval, bits_value(bits.subrange(base, base + length)), length),
    ensures
        ({
            let top = bits_value(bits.subrange(base, base + 9 + interval.count));
            interval.low <= top < interval.low + interval.range
        }),
{
    let all = bits.subrange(base, base + length);
    let at = 9 + interval.count as int;
    lemma_split_value(all, at);
    assert(all.take(at) =~= bits.subrange(base, base + at));
    lemma_bits_value_bound(all.skip(at));
    let power = power_of_two((length - at) as nat) as int;
    let top = bits_value(bits.subrange(base, base + at)) as int;
    let rest = bits_value(all.skip(at)) as int;
    let low = interval.low as int;
    let end = interval.low + interval.range;
    assert(low <= top) by (nonlinear_arith)
        requires
            low * power <= top * power + rest,
            rest < power,
            0 <= rest,
    ;
    assert(top < end) by (nonlinear_arith)
        requires
            top * power + rest < end * power,
            0 <= rest,
            0 < power,
    ;
}

/// One more bit doubles the number that the first bits stand for.
proof fn lemma_next_bit(bits: Seq<bool>, base: int, at: int)
    requires
        0 <= base <= at < bits.len(),
    ensures
        bits_value(bits.subrange(base, at + 1)) == 2 * bits_value(bits.subrange(base, at)) + unit(
            bits[at],
        ),
{
    assert(bits.subrange(base, at + 1).drop_last() =~= bits.subrange(base, at));
}

/// Renormalizing the registers of a decoder follows widening an interval.
proof fn lemma_renormalized(
    engine: Engine,
    interval: Interval,
    bits: Seq<bool>,
    base: int,
    length: nat,
)
    requires
        0 < interval.range <= 510,
        0 <= base,
        base + length <= bits.len(),
        9 + widened(interval).count <= length,
        mirrors(engine, interval, bits, base),
    ensures
        renormalized(engine).value is Ok,
        mirrors(renormalized(engine).engine, widened(interval), bits, base),
    decreases (if interval.range >= 256 { 0 } else { 256 - interval.range }),
{
    if interval.range < 256 {
        let doubled = Interval {
            low: 2 * interval.low,
            range: 2 * interval.range,
            count: interval.count + 1,
        };
        lemma_widened_count(doubled);
        lemma_next_bit(bits, base, engine.at);
        let read = coded(Engine { range: 2 * engine.range, ..engine });
        let next = Engine { offset: 2 * engine.offset + unit(bits[engine.at]), ..read.engine };
        lemma_renormalized(next, doubled, bits, base, length);
    }
}

/// Widening an interval does not make its unit larger.
proof fn lemma_widened_count(interval: Interval)
    requires
        0 < interval.range,
    ensures
        widened(interval).count >= interval.count,
    decreases (if interval.range >= 256 { 0 } else { 256 - interval.range }),
{
    if interval.range < 256 {
        lemma_widened_count(
            Interval {
                low: 2 * interval.low,
                range: 2 * interval.range,
                count: interval.count + 1,
            },
        );
    }
}

/// A decoder that stands where an interval is reads an adaptive symbol.
proof fn lemma_decision(
    engine: Engine,
    interval: Interval,
    context: ContextState,
    value: bool,
    bits: Seq<bool>,
    base: int,
    length: nat,
)
    requires
        256 <= interval.range <= 510,
        context.valid(),
        0 <= base,
        base + length <= bits.len(),
        mirrors(engine, interval, bits, base),
        holds(
            widened(decision_part(interval, context, value)),
            bits_value(bits.subrange(base, base + length)),
            length,
        ),
    ensures
        ({
            let (read, next) = decided(engine, context);
            &&& read.value == Ok::<bool, crate::error::Error>(value)
            &&& next == adapted(context, value != context.most_probable_symbol)
            &&& mirrors(read.engine, widened(decision_part(interval, context, value)), bits, base)
        }),
{
    let code = bits_value(bits.subrange(base, base + length));
    lemma_widths(context.probability_state as int, (interval.range / 64) % 4);
    let part = decision_part(interval, context, value);
    lemma_widened_holds(part, code, length);
    lemma_top(bits, base, length, part);
    let width = less_width(interval, context);
    let less = value != context.most_probable_symbol;
    let narrowed = if less {
        Engine { range: width, offset: engine.offset - (engine.range - width), ..engine }
    } else {
        Engine { range: engine.range - width, ..engine }
    };
    assert(mirrors(narrowed, part, bits, base));
    lemma_renormalized(narrowed, part, bits, base, length);
}

/// A decoder that stands where an interval is reads a symbol of any kind.
proof fn lemma_bin_read(
    engine: Engine,
    coding: Coding,
    bin: Bin,
    bits: Seq<bool>,
    base: int,
    length: nat,
)
    requires
        256 <= coding.interval.range <= 510,
        contexts_valid(coding.contexts),
        bin_fits(bin, coding.contexts.len() as int),
        0 <= base,
        base + length <= bits.len(),
        mirrors(engine, coding.interval, bits, base),
        holds(coded_bin(coding, bin).interval, bits_value(bits.subrange(base, base + length)), length),
    ensures
        match bin {
            Bin::Decision { slot, value } => {
                let (read, next) = decided(engine, coding.contexts[slot as int]);
                &&& read.value == Ok::<bool, crate::error::Error>(value)
                &&& coded_bin(coding, bin).contexts == coding.contexts.update(slot as int, next)
                &&& mirrors(read.engine, coded_bin(coding, bin).interval, bits, base)
            },
            Bin::Bypass(value) => {
                let read = bypassed(engine);
                &&& read.value == Ok::<bool, crate::error::Error>(value)
                &&& mirrors(read.engine, coded_bin(coding, bin).interval, bits, base)
            },
            Bin::Terminate(value) => {
                let read = terminated(engine);
                &&& read.value == Ok::<bool, crate::error::Error>(value)
                &&& !value ==> mirrors(read.engine, coded_bin(coding, bin).interval, bits, base)
                &&& value ==> read.engine.at == base + 9 + coded_bin(coding, bin).interval.count
            },
        },
{
    let interval = coding.interval;
    let code = bits_value(bits.subrange(base, base + length));
    match bin {
        Bin::Decision { slot, value } => {
            let context = coding.contexts[slot as int];
            lemma_decision(engine, interval, context, value, bits, base, length);
        },
        Bin::Bypass(value) => {
            lemma_top(bits, base, length, coded_bin(coding, bin).interval);
            lemma_next_bit(bits, base, engine.at);
        },
        Bin::Terminate(value) => {
            let part = terminate_part(interval, value);
            if value {
                lemma_top(bits, base, length, part);
            } else {
                lemma_widened_holds(part, code, length);
                lemma_top(bits, base, length, part);
                let narrowed = Engine { range: engine.range - 2, ..engine };
                lemma_renormalized(narrowed, part, bits, base, length);
            }
        },
    }
}

/// A decoder that stands where the interval after some symbols is reads the rest of them.
proof fn lemma_bins_read(
    engine: Engine,
    coding: Coding,
    bins: Seq<Bin>,
    from: int,
    bits: Seq<bool>,
    base: int,
    length: nat,
)
    requires
        0 <= from <= bins.len(),
        coding.interval.valid(),
        contexts_valid(coding.contexts),
        bins_fit(bins, coding.contexts.len() as int),
        0 <= base,
        base + length <= bits.len(),
        from == bins.len() || mirrors(engine, coded_bins(coding, bins, from).interval, bits, base),
        holds(
            coded_bins(coding, bins, bins.len() as int).interval,
            bits_value(bits.subrange(base, base + length)),
            length,
        ),
        bins.len() > 0 && bins.last() == Bin::Terminate(true),
        from == bins.len() ==> engine.at == base + 9 + coded_bins(
            coding,
            bins,
            from,
        ).interval.count,
    ensures
        reads_back(engine, coded_bins(coding, bins, from).contexts, bins, from),
        engine_after(engine, coded_bins(coding, bins, from).contexts, bins, from).at == base + 9
            + coded_bins(coding, bins, bins.len() as int).interval.count,
    decreases bins.len() - from,
{
    if from < bins.len() {
        let code = bits_value(bits.subrange(base, base + length));
        let here = coded_bins(coding, bins, from);
        lemma_bins_normal(coding, bins, from);
        if from > 0 {
            assert(bins[from - 1] != Bin::Terminate(true));
        }
        assert(bin_fits(bins[from], coding.contexts.len() as int));
        lemma_bins_hold(coding, bins, from + 1, code, length);
        lemma_bin_read(engine, here, bins[from], bits, base, length);
        let next = match bins[from] {
            Bin::Decision { slot, value } => decided(engine, here.contexts[slot as int]).0.engine,
            Bin::Bypass(value) => bypassed(engine).engine,
            Bin::Terminate(value) => terminated(engine).engine,
        };
        if bins[from] == Bin::Terminate(true) {
            assert(from + 1 == bins.len());
        } else {
            assert(from + 1 < bins.len());
        }
        lemma_bins_read(next, coding, bins, from + 1, bits, base, length);
    }
}

/// The arithmetic decoder reads back what the arithmetic encoder wrote, whatever bits stand before
/// and behind it: every symbol that is read with the probability that it was written with comes
/// back, and the decoder stops right behind the last bit.
pub proof fn law_symbols_read_back(
    contexts: Seq<ContextState>,
    bins: Seq<Bin>,
    bits: Seq<bool>,
    base: int,
)
    requires
        contexts_valid(contexts),
        bins_fit(bins, contexts.len() as int),
        bins.len() > 0,
        bins.last() == Bin::Terminate(true),
        0 <= base <= bits.len(),
        ({
            let end = coded_bins(
                Coding { interval: whole_interval(), contexts },
                bins,
                bins.len() as int,
            ).interval;
            flushed_bits(end).is_prefix_of(bits.skip(base))
        }),
    ensures
        started(bits, base, 0).value is Ok,
        reads_back(started(bits, base, 0).engine, contexts, bins, 0),
        engine_after(started(bits, base, 0).engine, contexts, bins, 0).at == base + flushed_bits(
            coded_bins(
                Coding { interval: whole_interval(), contexts },
                bins,
                bins.len() as int,
            ).interval,
        ).len(),
{
    let start = Coding { interval: whole_interval(), contexts };
    lemma_power_nine(0);
    assert(power_of_two(0) == 1);
    assert(start.interval.valid());
    let before = coded_bins(start, bins, bins.len() - 1);
    let end = coded_bins(start, bins, bins.len() as int).interval;
    lemma_bins_normal(start, bins, bins.len() as int);
    lemma_bins_normal(start, bins, bins.len() - 1);
    assert(end == terminate_part(before.interval, true));
    let length = 9 + end.count;
    let code = 2 * (end.low / 2) + 1;
    assert(code < power_of_two(length));
    law_bits_value_of_bits(code, length);
    assert(bits.subrange(base, base + length) =~= flushed_bits(end));
    assert(power_of_two((length - 9 - end.count) as nat) == 1);
    assert(end.low * 1 == end.low && (end.low + end.range) * 1 == end.low + end.range);
    assert(holds(end, code, length));
    lemma_bins_hold(start, bins, 0, code, length);
    lemma_top(bits, base, length, whole_interval());
    lemma_bins_read(started(bits, base, 0).engine, start, bins, 0, bits, base, length);
}

/// The alignment bits behind a slice header lead to its first whole byte.
proof fn lemma_aligned_at(bits: Seq<bool>, at: int, end: int)
    requires
        0 <= at <= end <= bits.len(),
        end % 8 == 0,
        end - at < 8,
        forall|i: int| at <= i < end ==> #[trigger] bits[i],
    ensures
        aligned_at(bits, at) == Ok::<int, crate::error::Error>(end),
    decreases end - at,
{
    if at < end {
        assert(at % 8 != 0);
        assert(bits[at]);
        lemma_aligned_at(bits, at + 1, end);
    }
}

/// A decoder that has read the header of a slice finds the start of the symbols of the picture
/// behind it, and reads all of them back, up to the one that ends the picture.
pub proof fn law_slice_read_back(
    header: Seq<bool>,
    table: Seq<(i8, i8)>,
    qp: int,
    bins: Seq<Bin>,
)
    requires
        table.len() == SLOT_COUNT,
        quantizer(qp),
        inner_bins(bins),
    ensures
        ({
            let bits = unpacked(header_bytes(header) + picture_bytes(table, qp, bins));
            &&& header.is_prefix_of(bits)
            &&& aligned_at(bits, header.len() as int) matches Ok(at) && {
                let start = started(bits, at, 0);
                &&& start.value is Ok
                &&& reads_back(
                    start.engine,
                    initial_states(table, qp),
                    bins.push(Bin::Terminate(true)),
                    0,
                )
            }
        }),
{
    reveal(picture_bytes);
    let all = bins.push(Bin::Terminate(true));
    let contexts = initial_states(table, qp);
    assert forall|i: int| 0 <= i < all.len() implies bin_fits(
        #[trigger] all[i],
        SLOT_COUNT as int,
    ) by {
        if i < bins.len() {
            assert(inner_bin(bins[i]));
        }
    }
    assert forall|i: int| 0 <= i < all.len() - 1 implies #[trigger] all[i] != Bin::Terminate(
        true,
    ) by {
        assert(inner_bin(bins[i]));
    }
    let end = coded_bins(
        Coding { interval: whole_interval(), contexts },
        all,
        all.len() as int,
    ).interval;
    let first = header_bytes(header);
    let second = picture_bytes(table, qp, bins);
    let bits = unpacked(first + second);
    lemma_unpacked_concat(first, second);
    law_unpack_packed(aligned(header, true));
    law_unpack_packed(flushed_bits(end));
    assert(aligned(aligned(header, true), false) =~= aligned(header, true));
    let base = aligned(header, true).len() as int;
    assert(bits.skip(base) =~= unpacked(second));
    assert(flushed_bits(end).is_prefix_of(aligned(flushed_bits(end), false)));
    assert forall|i: int| header.len() <= i < base implies #[trigger] bits[i] by {
        assert(bits[i] == aligned(header, true)[i]);
    }
    lemma_aligned_at(bits, header.len() as int, base);
    law_symbols_read_back(contexts, all, bits, base);
}

} // verus!
