//! What a stream says of the buffer of a decoder.

use vstd::prelude::*;

use crate::frame::{Rational, Timestamp};
use crate::hrd::{gcd, initial_delay, law_gcd, law_scaled, requested_size, EncoderHrd, HrdState, ScaledValue};
use crate::rate::ceiling;

verus! {

proof fn lemma_ceiling(value: int, divisor: int)
    requires
        0 <= value,
        0 < divisor,
    ensures
        value <= ceiling(value, divisor) * divisor,
        (ceiling(value, divisor) - 1) * divisor < value,
        0 <= ceiling(value, divisor),
{
    let up = ceiling(value, divisor);
    assert(value <= up * divisor && (up - 1) * divisor < value && 0 <= up) by (nonlinear_arith)
        requires
            up == (value + divisor - 1) / divisor,
            0 <= value,
            0 < divisor,
    ;
}

/// The wanted buffer is as large as what the rate sends in the wanted time, rounded up to whole
/// bits.
pub proof fn law_wanted_buffer(bitrate: int, milliseconds: int)
    requires
        0 < bitrate,
        0 < milliseconds,
    ensures
        bitrate * milliseconds <= 1000 * requested_size(bitrate, milliseconds) < bitrate
            * milliseconds + 1000,
{
    assert(0 < bitrate * milliseconds) by (nonlinear_arith)
        requires
            0 < bitrate,
            0 < milliseconds,
    ;
    lemma_ceiling(bitrate * milliseconds, 1000);
}

/// The first picture waits until the rate has filled the buffer, in ticks of a ninety-thousandth of
/// a second, rounded up.
pub proof fn law_first_wait(size: ScaledValue, rate: ScaledValue)
    requires
        rate.signalled > 0,
    ensures
        size.signalled * 90_000 <= initial_delay(size, rate) * rate.signalled,
        (initial_delay(size, rate) - 1) * rate.signalled < size.signalled * 90_000,
{
    lemma_ceiling(size.signalled * 90_000, rate.signalled as int);
}

/// A frame of a single unit of time lasts two ticks of the stream, and its rate and its buffer are
/// at least those that were asked for.
pub proof fn law_two_ticks(
    bitrate: int,
    milliseconds: int,
    time_base: Rational,
    b_frames: usize,
    hrd: EncoderHrd,
)
    requires
        EncoderHrd::described(bitrate, milliseconds, time_base, b_frames) == Ok::<
            EncoderHrd,
            crate::error::Error,
        >(hrd),
        0 < bitrate,
        0 < milliseconds,
    ensures
        hrd.bit_rate.signalled >= bitrate,
        hrd.cpb_size.signalled >= requested_size(bitrate, milliseconds),
        hrd.time_scale * time_base.numerator == 2 * time_base.denominator * hrd.num_units_in_tick,
        hrd.b_frames == b_frames,
        hrd.initial_cpb_removal_delay == initial_delay(hrd.cpb_size, hrd.bit_rate),
{
    let n = time_base.numerator as int;
    let d = time_base.denominator as int;
    assert(n as nat % 1 == 0 && d as nat % 1 == 0);
    law_gcd(n as nat, d as nat, 1);
    let g = gcd(n as nat, d as nat) as int;
    vstd::arithmetic::div_mod::lemma_fundamental_div_mod(n, g);
    vstd::arithmetic::div_mod::lemma_fundamental_div_mod(d, g);
    let units = n / g;
    let half = d / g;
    assert(half * 2 * n == 2 * d * units) by (nonlinear_arith)
        requires
            n == g * units,
            d == g * half,
    ;
    assert(n % g == 0 && d % g == 0);
    assert(hrd.num_units_in_tick == units);
    assert(hrd.time_scale == half * 2);
    let size = requested_size(bitrate, milliseconds);
    law_scaled(bitrate, 64, 0);
    law_scaled(size, 16, 0);
    law_first_wait(hrd.cpb_size, hrd.bit_rate);
    lemma_ceiling(hrd.cpb_size.signalled * 90_000, hrd.bit_rate.signalled as int);
}

/// A picture lasts as many ticks as its duration has, rounded up, and at least one; without a
/// duration, two.
pub proof fn law_ticks(state: HrdState, duration: Timestamp, ticks: int)
    requires
        state.valid(),
        duration.value > 0,
        state.ticks(Some(duration)) == Ok::<int, crate::error::Error>(ticks),
    ensures
        ({
            let product = (duration.value * duration.time_base.numerator)
                * state.parameters.time_scale;
            let unit = duration.time_base.denominator * state.parameters.num_units_in_tick;
            &&& ticks >= 1
            &&& product <= ticks * unit
            &&& ticks > 1 ==> (ticks - 1) * unit < product
        }),
        state.ticks(None) == Ok::<int, crate::error::Error>(2),
{
    let product = (duration.value * duration.time_base.numerator) * state.parameters.time_scale;
    let unit = duration.time_base.denominator * state.parameters.num_units_in_tick;
    assert(0 < product) by (nonlinear_arith)
        requires
            product == (duration.value * duration.time_base.numerator)
                * state.parameters.time_scale,
            0 < duration.value,
            0 < duration.time_base.numerator,
            0 < state.parameters.time_scale,
    ;
    assert(0 < unit) by (nonlinear_arith)
        requires
            unit == duration.time_base.denominator * state.parameters.num_units_in_tick,
            0 < duration.time_base.denominator,
            0 < state.parameters.num_units_in_tick,
    ;
    lemma_ceiling(product, unit);
    let up = ceiling(product, unit);
    assert(up >= 1) by (nonlinear_arith)
        requires
            product <= up * unit,
            0 < product,
            0 < unit,
    ;
}

/// A picture waits to be shown for one frame for each picture that is shown before it and has not
/// been decoded before it, beside as many frames as may be reordered; so the picture that starts a
/// period waits for just as many frames as may be reordered.
pub proof fn law_shown_later(state: HrdState, order: int, ticks: int)
    requires
        state.valid(),
        0 <= order,
        1 <= ticks,
    ensures
        state.output_delay(order + 2, ticks) >= state.output_delay(order, ticks),
        order / 2 >= state.decode_index ==> state.output_delay(order + 2, ticks)
            == state.output_delay(order, ticks) + ticks,
        order / 2 == state.decode_index ==> state.output_delay(order, ticks)
            == state.parameters.b_frames * ticks,
        order / 2 + state.parameters.b_frames <= state.decode_index ==> state.output_delay(
            order,
            ticks,
        ) == 0,
{
    let frames = order / 2 - state.decode_index + state.parameters.b_frames;
    assert((order + 2) / 2 == order / 2 + 1);
    assert((frames + 1) * ticks == frames * ticks + ticks) by (nonlinear_arith);
    assert(0 * ticks == 0) by (nonlinear_arith);
    if frames >= 0 {
        assert(0 <= frames * ticks) by (nonlinear_arith)
            requires
                0 <= frames,
                1 <= ticks,
        ;
    }
    if frames < 0 && frames + 1 >= 0 {
        assert(0 <= (frames + 1) * ticks) by (nonlinear_arith)
            requires
                0 <= frames + 1,
                1 <= ticks,
        ;
    }
}

/// A picture that starts a period finds the buffer full; any other finds what was left and what the
/// rate has sent since, as much as the buffer holds.
pub proof fn law_buffer_fills(state: HrdState, duration: Option<Timestamp>)
    requires
        state.valid(),
    ensures
        state.filled(true, duration) == Ok::<int, crate::error::Error>(
            state.parameters.cpb_size.signalled as int,
        ),
        state.ticks(duration) is Ok && state.arrived(state.ticks(duration)->Ok_0) is Some ==> {
            let sent = state.arrived(state.ticks(duration)->Ok_0)->Some_0;
            let size = state.parameters.cpb_size.signalled as int;
            let filled = state.filled(false, duration);
            &&& filled is Ok
            &&& state.cpb_fullness_bits + sent <= size ==> filled->Ok_0 == state.cpb_fullness_bits
                + sent
            &&& state.cpb_fullness_bits + sent > size ==> filled->Ok_0 == size
        },
{
}

/// The rate sends in some ticks what it sends in a second for each part of a second that they are,
/// rounded up to whole bits.
pub proof fn law_bits_sent(state: HrdState, ticks: int, bits: int)
    requires
        state.valid(),
        0 <= ticks,
        state.arrived(ticks) == Some(bits),
    ensures
        ({
            let product = (state.parameters.bit_rate.signalled * ticks)
                * state.parameters.num_units_in_tick;
            &&& product <= bits * state.parameters.time_scale
            &&& (bits - 1) * state.parameters.time_scale < product
        }),
{
    let product = (state.parameters.bit_rate.signalled * ticks)
        * state.parameters.num_units_in_tick;
    assert(0 <= product) by (nonlinear_arith)
        requires
            product == (state.parameters.bit_rate.signalled * ticks)
                * state.parameters.num_units_in_tick,
            0 <= state.parameters.bit_rate.signalled,
            0 <= ticks,
            0 <= state.parameters.num_units_in_tick,
    ;
    lemma_ceiling(product, state.parameters.time_scale as int);
}

/// A picture leaves the buffer exactly if it is all there, and takes its bits and nothing else with
/// it.
pub proof fn law_picture_leaves(
    state: HrdState,
    key: bool,
    duration: Option<Timestamp>,
    bits: int,
    filled: int,
)
    requires
        state.valid(),
        0 <= bits,
        0 <= filled <= u64::MAX,
        state.filled(key, duration) == Ok::<int, crate::error::Error>(filled),
    ensures
        state.removed(key, duration, bits).0 is None <==> bits <= filled,
        bits <= filled ==> state.removed(key, duration, bits).1 == (HrdState {
            cpb_fullness_bits: (filled - bits) as u64,
            ..state
        }),
        bits <= filled ==> state.removed(key, duration, bits).1.cpb_fullness_bits + bits == filled,
{
}

/// The delay that a picture says is that of all pictures since the period started, and a period
/// starts anew with nothing behind it.
pub proof fn law_period_counted(
    state: HrdState,
    key: bool,
    order: int,
    duration: Option<Timestamp>,
    ticks: int,
)
    requires
        state.valid(),
        state.announced(key, order, duration).0 is Ok,
        state.ticks(duration) == Ok::<int, crate::error::Error>(ticks),
        0 <= ticks,
        state.cpb_removal_delay + ticks < 0x100_0000,
        state.decode_index < i32::MAX,
    ensures
        ({
            let after = state.announced(key, order, duration).1;
            &&& key ==> after.cpb_removal_delay == ticks && after.decode_index == 1
            &&& !key ==> after.cpb_removal_delay == state.cpb_removal_delay + ticks
                && after.decode_index == state.decode_index + 1
            &&& after.cpb_fullness_bits == state.cpb_fullness_bits
            &&& after.parameters == state.parameters
        }),
{
}

} // verus!
