//! The buffer that a decoder needs, and what the stream says of it.

use vstd::arithmetic::power2::pow2;
use vstd::prelude::*;

use crate::bits::{bits_of, packed, BitWriter};
use crate::error::{Error, Fault};
use crate::frame::{FrameTiming, Rational, Timestamp};
use crate::framing::{make_nal, nal_of};
use crate::golomb::{finish_rbsp, finished, ue_bits, write_ue};
use crate::rate::{at_least_one, ceiling, divide_up};

verus! {

/// How many bits delays have in the stream.
pub const DELAY_BITS: u8 = 24;

/// The first delay that does not fit the stream.
pub const DELAY_MODULUS: u32 = 0x100_0000;

/// The greatest common divisor.
pub open spec fn gcd(left: nat, right: nat) -> nat
    decreases right,
{
    if right == 0 {
        left
    } else {
        gcd(right, left % right)
    }
}

/// The greatest common divisor divides both numbers, and every number that divides both divides it.
pub proof fn law_gcd(left: nat, right: nat, other: nat)
    requires
        left > 0 || right > 0,
        other > 0,
        left % other == 0,
        right % other == 0,
    ensures
        gcd(left, right) > 0,
        left % gcd(left, right) == 0,
        right % gcd(left, right) == 0,
        gcd(left, right) % other == 0,
    decreases right,
{
    if right == 0 {
        assert(left % left == 0) by (nonlinear_arith)
            requires
                left > 0,
        ;
        assert(0nat % left == 0) by (nonlinear_arith)
            requires
                left > 0,
        ;
    } else {
        let rest = left % right;
        lemma_remainder_divides(left as int, right as int, other as int);
        law_gcd(right, rest, other);
        let g = gcd(right, rest);
        let quotient = left / right;
        vstd::arithmetic::div_mod::lemma_fundamental_div_mod(left as int, right as int);
        vstd::arithmetic::div_mod::lemma_fundamental_div_mod(right as int, g as int);
        vstd::arithmetic::div_mod::lemma_fundamental_div_mod(rest as int, g as int);
        let a = (right / g) as int;
        let b = (rest / g) as int;
        assert(left == g * (a * quotient + b)) by (nonlinear_arith)
            requires
                left == right * quotient + rest,
                right == g * a,
                rest == g * b,
        ;
        vstd::arithmetic::div_mod::lemma_mod_multiples_basic(a * quotient + b, g as int);
        assert(left == (a * quotient + b) * g) by (nonlinear_arith)
            requires
                left == g * (a * quotient + b),
        ;
    }
}

proof fn lemma_remainder_divides(left: int, right: int, other: int)
    requires
        0 <= left,
        0 < right,
        0 < other,
        left % other == 0,
        right % other == 0,
    ensures
        (left % right) % other == 0,
{
    vstd::arithmetic::div_mod::lemma_fundamental_div_mod(left, right);
    vstd::arithmetic::div_mod::lemma_fundamental_div_mod(left, other);
    vstd::arithmetic::div_mod::lemma_fundamental_div_mod(right, other);
    let a = left / other;
    let b = right / other;
    let q = left / right;
    assert(left % right == (a - b * q) * other) by (nonlinear_arith)
        requires
            left == right * q + left % right,
            left == other * a,
            right == other * b,
    ;
    vstd::arithmetic::div_mod::lemma_mod_multiples_basic(a - b * q, other);
}

proof fn lemma_gcd_positive(left: nat, right: nat)
    requires
        left > 0 || right > 0,
    ensures
        0 < gcd(left, right),
        left > 0 ==> gcd(left, right) <= left,
    decreases right,
{
    vstd::arithmetic::div_mod::lemma_mod_multiples_basic(left as int, 1);
    vstd::arithmetic::div_mod::lemma_mod_multiples_basic(right as int, 1);
    law_gcd(left, right, 1);
    let g = gcd(left, right);
    if left > 0 && g > left {
        vstd::arithmetic::div_mod::lemma_small_mod(left, g);
    }
}

/// Finds the greatest common divisor.
pub fn greatest_common_divisor(left: u64, right: u64) -> (result: u64)
    ensures
        result == gcd(left as nat, right as nat),
{
    let mut a: u64 = left;
    let mut b: u64 = right;
    while b != 0
        invariant
            gcd(a as nat, b as nat) == gcd(left as nat, right as nat),
        decreases b,
    {
        let rest: u64 = a % b;
        a = b;
        b = rest;
    }
    a
}

/// A number in the form of the stream.
#[derive(Clone, Copy, Debug, PartialEq, Eq, Structural)]
pub struct ScaledValue {
    /// How often the unit is doubled.
    pub scale: u8,
    /// How many units there are, less one.
    pub value_minus1: u32,
    /// What the stream says.
    pub signalled: u64,
}

/// The form of a number in the stream, from some scale on.
#[verifier::opaque]
pub open spec fn scaled(value: int, base: int, scale: int) -> Option<ScaledValue>
    decreases 16 - scale,
{
    if scale >= 16 {
        None
    } else {
        let unit = base * pow2(scale as nat);
        let units = ceiling(value, unit);
        if units <= u32::MAX && units * unit <= u64::MAX {
            Some(
                ScaledValue {
                    scale: scale as u8,
                    value_minus1: (units - 1) as u32,
                    signalled: (units * unit) as u64,
                },
            )
        } else {
            scaled(value, base, scale + 1)
        }
    }
}

/// What the stream says is at least the number, and less than one unit more, in the smallest unit
/// that will do.
pub proof fn law_scaled(value: int, base: int, scale: int)
    requires
        1 <= value,
        1 <= base,
        0 <= scale,
    ensures
        scaled(value, base, scale) matches Some(found) ==> {
            &&& scale <= found.scale < 16
            &&& found.signalled == (found.value_minus1 + 1) * (base * pow2(found.scale as nat))
            &&& value <= found.signalled < value + base * pow2(found.scale as nat)
        },
    decreases 16 - scale,
{
    reveal(scaled);
    if scale < 16 {
        let unit = base * pow2(scale as nat);
        let units = ceiling(value, unit);
        vstd::arithmetic::power2::lemma_pow2_pos(scale as nat);
        assert(unit >= 1) by (nonlinear_arith)
            requires
                unit == base * pow2(scale as nat),
                base >= 1,
                pow2(scale as nat) >= 1,
        ;
        vstd::arithmetic::div_mod::lemma_fundamental_div_mod(value + unit - 1, unit);
        assert(unit * units == units * unit) by (nonlinear_arith);
        assert(units >= 1) by (nonlinear_arith)
            requires
                unit * units + (value + unit - 1) % unit == value + unit - 1,
                (value + unit - 1) % unit < unit,
                value >= 1,
                unit >= 1,
        ;
        law_scaled(value, base, scale + 1);
    }
}

/// Finds the form of a number in the stream, in units of sixteen or sixty-four.
fn scaled_hrd_value(value: u64, base: u64) -> (result: Option<ScaledValue>)
    requires
        1 <= value,
        1 <= base <= 64,
    ensures
        result == scaled(value as int, base as int, 0),
{
    let mut scale: u8 = 0;
    let mut unit: u64 = base;
    proof {
        vstd::arithmetic::power2::lemma2_to64();
    }
    while scale < 16
        invariant
            scale <= 16,
            1 <= value,
            1 <= base <= 64,
            unit == base * pow2(scale as nat),
            1 <= unit,
            scaled(value as int, base as int, 0) == scaled(value as int, base as int, scale as int),
        decreases 16 - scale,
    {
        proof {
            reveal(scaled);
            law_scaled(value as int, base as int, scale as int);
            vstd::arithmetic::power2::lemma2_to64();
            vstd::arithmetic::power2::lemma_pow2_strictly_increases(scale as nat, 16);
            vstd::arithmetic::power2::lemma_pow2_unfold((scale + 1) as nat);
            let power = pow2(scale as nat);
            assert(base * power <= 64 * 65536) by (nonlinear_arith)
                requires
                    1 <= base <= 64,
                    power <= 65536,
            ;
            assert(base * (2 * power) == 2 * (base * power)) by (nonlinear_arith);
        }
        let units: u128 = divide_up(value as u128, unit as u128);
        proof {
            let total = value + unit - 1;
            vstd::arithmetic::div_mod::lemma_fundamental_div_mod(total as int, unit as int);
            assert(1 <= units <= value) by (nonlinear_arith)
                requires
                    units == total / unit as int,
                    total == unit * units + total % unit as int,
                    0 <= total % unit as int,
                    total % unit as int <= unit - 1,
                    total == value + unit - 1,
                    unit >= 1,
                    value >= 1,
            ;
            assert(units * unit <= 0xffff_ffff_ffff_ffff * 0x40_0000) by (nonlinear_arith)
                requires
                    0 <= units <= 0xffff_ffff_ffff_ffff,
                    0 <= unit <= 0x40_0000,
            ;
        }
        if units <= u32::MAX as u128 && units * unit as u128 <= u64::MAX as u128 {
            return Some(
                ScaledValue {
                    scale,
                    value_minus1: (units - 1) as u32,
                    signalled: (units * unit as u128) as u64,
                },
            );
        }
        unit = unit * 2;
        scale = scale + 1;
    }
    reveal(scaled);
    None
}

/// What the stream says of the buffer.
#[derive(Clone, Copy, Debug)]
pub struct EncoderHrd {
    /// The rate.
    pub bit_rate: ScaledValue,
    /// The size of the buffer.
    pub cpb_size: ScaledValue,
    /// How long the first picture waits, in parts of 90000 of a second.
    pub initial_cpb_removal_delay: u32,
    /// How many units a tick has.
    pub num_units_in_tick: u32,
    /// How many units a second has.
    pub time_scale: u32,
    /// How many pictures are predicted from both sides.
    pub b_frames: usize,
}

/// How many bits a buffer for some milliseconds holds.
pub open spec fn requested_size(bitrate: int, milliseconds: int) -> int {
    at_least_one(ceiling(bitrate * milliseconds, 1000))
}

/// How long the first picture waits.
pub open spec fn initial_delay(size: ScaledValue, rate: ScaledValue) -> int {
    ceiling(size.signalled * 90_000, rate.signalled as int)
}

impl EncoderHrd {
    /// Whether everything is in range.
    pub open spec fn valid(&self) -> bool {
        &&& self.initial_cpb_removal_delay < DELAY_MODULUS
        &&& 1 <= self.num_units_in_tick
        &&& 1 <= self.time_scale
        &&& self.bit_rate.scale < 16
        &&& self.cpb_size.scale < 16
        &&& self.b_frames <= 3
    }

    /// The rate that the stream says.
    pub fn signalled_bit_rate(&self) -> (rate: u64)
        ensures
            rate == self.bit_rate.signalled,
    {
        self.bit_rate.signalled
    }

    /// The buffer size that the stream says.
    pub fn signalled_cpb_size(&self) -> (size: u64)
        ensures
            size == self.cpb_size.signalled,
    {
        self.cpb_size.signalled
    }

    /// Why the stream cannot describe a buffer, or its description.
    pub open spec fn described(
        bitrate: int,
        milliseconds: int,
        time_base: Rational,
        b_frames: usize,
    ) -> Result<EncoderHrd, Error> {
        let divisor = gcd(time_base.numerator as nat, time_base.denominator as nat) as int;
        let units = time_base.numerator as int / divisor;
        let seconds = (time_base.denominator as int / divisor) * 2;
        let size = requested_size(bitrate, milliseconds);
        if bitrate == 0 || time_base.numerator <= 0 || time_base.denominator <= 0 {
            Err(Error::Unsupported(Fault::RateUnit))
        } else if units > u32::MAX {
            Err(Error::Unsupported(Fault::TimeUnit))
        } else if seconds > u32::MAX {
            Err(Error::Unsupported(Fault::TimeScale))
        } else if size > u64::MAX {
            Err(Error::Unsupported(Fault::BufferSize))
        } else {
            match (scaled(bitrate, 64, 0), scaled(size, 16, 0)) {
                (None, _) => Err(Error::Unsupported(Fault::RateRange)),
                (Some(_), None) => Err(Error::Unsupported(Fault::BufferRange)),
                (Some(rate), Some(buffer)) => {
                    if initial_delay(buffer, rate) >= DELAY_MODULUS {
                        Err(Error::Unsupported(Fault::InitialDelay))
                    } else {
                        Ok(
                            EncoderHrd {
                                bit_rate: rate,
                                cpb_size: buffer,
                                initial_cpb_removal_delay: initial_delay(buffer, rate) as u32,
                                num_units_in_tick: units as u32,
                                time_scale: seconds as u32,
                                b_frames,
                            },
                        )
                    }
                },
            }
        }
    }

    /// Describes a buffer.
    ///
    /// # Errors
    ///
    /// Returns an error when the stream cannot describe it.
    pub fn new(bitrate: u64, buffer_milliseconds: u64, time_base: Rational, b_frames: usize) -> (
    result: Result<Self, Error>)
        requires
            b_frames <= 3,
        ensures
            result == EncoderHrd::described(
                bitrate as int,
                buffer_milliseconds as int,
                time_base,
                b_frames,
            ),
            result matches Ok(hrd) ==> hrd.valid(),
    {
        if bitrate == 0 || time_base.numerator <= 0 || time_base.denominator <= 0 {
            return Err(Error::Unsupported(Fault::RateUnit));
        }
        let numerator: u64 = time_base.numerator as u64;
        let denominator: u64 = time_base.denominator as u64;
        proof {
            lemma_gcd_positive(numerator as nat, denominator as nat);
            vstd::arithmetic::div_mod::lemma_mod_multiples_basic(numerator as int, 1);
            vstd::arithmetic::div_mod::lemma_mod_multiples_basic(denominator as int, 1);
            law_gcd(numerator as nat, denominator as nat, 1);
            let g = gcd(numerator as nat, denominator as nat);
            lemma_quotient_positive(numerator as int, g as int);
            lemma_quotient_positive(denominator as int, g as int);
        }
        let divisor: u64 = greatest_common_divisor(numerator, denominator);
        let units: u64 = numerator / divisor;
        if units > u32::MAX as u64 {
            return Err(Error::Unsupported(Fault::TimeUnit));
        }
        let half_seconds: u64 = denominator / divisor;
        if half_seconds > 0x7fff_ffff {
            return Err(Error::Unsupported(Fault::TimeScale));
        }
        let rate: u128 = bitrate as u128;
        let milliseconds: u128 = buffer_milliseconds as u128;
        assert(rate * milliseconds <= 0xffff_ffff_ffff_ffff * 0xffff_ffff_ffff_ffff)
            by (nonlinear_arith)
            requires
                0 <= rate <= 0xffff_ffff_ffff_ffff,
                0 <= milliseconds <= 0xffff_ffff_ffff_ffff,
        ;
        assert(rate * milliseconds == bitrate * buffer_milliseconds);
        let quotient: u128 = divide_up(rate * milliseconds, 1000);
        let size: u128 = if quotient < 1 {
            1
        } else {
            quotient
        };
        if size > u64::MAX as u128 {
            return Err(Error::Unsupported(Fault::BufferSize));
        }
        let bit_rate: ScaledValue = match scaled_hrd_value(bitrate, 64) {
            Some(found) => found,
            None => {
                return Err(Error::Unsupported(Fault::RateRange));
            },
        };
        let cpb_size: ScaledValue = match scaled_hrd_value(size as u64, 16) {
            Some(found) => found,
            None => {
                return Err(Error::Unsupported(Fault::BufferRange));
            },
        };
        proof {
            law_scaled(bitrate as int, 64, 0);
            law_scaled(size as int, 16, 0);
        }
        let delay: u128 = divide_up(
            cpb_size.signalled as u128 * 90_000,
            bit_rate.signalled as u128,
        );
        if delay >= DELAY_MODULUS as u128 {
            return Err(Error::Unsupported(Fault::InitialDelay));
        }
        Ok(
            EncoderHrd {
                bit_rate,
                cpb_size,
                initial_cpb_removal_delay: delay as u32,
                num_units_in_tick: units as u32,
                time_scale: (half_seconds * 2) as u32,
                b_frames,
            },
        )
    }
}

proof fn lemma_quotient_positive(value: int, divisor: int)
    requires
        value > 0,
        divisor > 0,
        value % divisor == 0,
    ensures
        value / divisor > 0,
{
    vstd::arithmetic::div_mod::lemma_fundamental_div_mod(value, divisor);
    assert(value / divisor > 0) by (nonlinear_arith)
        requires
            value == divisor * (value / divisor),
            value > 0,
            divisor > 0,
    ;
}

/// A value of a message, in steps of 255.
pub open spec fn extended_value(value: nat) -> Seq<u8>
    decreases value,
{
    if value >= 255 {
        seq![255u8] + extended_value((value - 255) as nat)
    } else {
        seq![value as u8]
    }
}

/// A message.
pub open spec fn sei_payload(payload_type: nat, payload: Seq<u8>) -> Seq<u8> {
    extended_value(payload_type) + extended_value(payload.len()) + payload
}

/// The message that starts a period of the buffer.
pub open spec fn buffering_payload(hrd: EncoderHrd) -> Seq<u8> {
    packed(
        finished(
            ue_bits(0) + bits_of(hrd.initial_cpb_removal_delay as nat, 24) + bits_of(0, 24),
        ),
    )
}

/// The message that says when a picture leaves the buffer and when it is shown.
pub open spec fn timing_payload(cpb_removal_delay: int, dpb_output_delay: int) -> Seq<u8> {
    packed(finished(bits_of(cpb_removal_delay as nat, 24) + bits_of(dpb_output_delay as nat, 24)))
}

/// The unit that says when a picture leaves the buffer and when it is shown.
#[verifier::opaque]
pub open spec fn hrd_sei(
    hrd: EncoderHrd,
    key: bool,
    cpb_removal_delay: int,
    dpb_output_delay: int,
) -> Seq<u8> {
    nal_of(
        0x06,
        (if key {
            sei_payload(0, buffering_payload(hrd))
        } else {
            Seq::empty()
        }) + sei_payload(1, timing_payload(cpb_removal_delay, dpb_output_delay)) + seq![0x80u8],
    )
}

/// Appends a value of a message.
fn append_sei_extended_value(output: &mut Vec<u8>, value: usize)
    ensures
        final(output)@ == old(output)@ + extended_value(value as nat),
{
    let mut rest: usize = value;
    while rest >= 0xff
        invariant
            output@ + extended_value(rest as nat) == old(output)@ + extended_value(value as nat),
        decreases rest,
    {
        let ghost before = output@;
        output.push(0xff);
        rest = rest - 0xff;
        assert(output@ + extended_value(rest as nat) =~= before + extended_value(
            (rest + 0xff) as nat,
        ));
    }
    output.push(rest as u8);
    assert(output@ =~= old(output)@ + extended_value(value as nat));
}

/// Appends a message.
fn append_sei_payload(output: &mut Vec<u8>, payload_type: usize, payload: Vec<u8>)
    ensures
        final(output)@ == old(output)@ + sei_payload(payload_type as nat, payload@),
{
    let mut rest: Vec<u8> = payload;
    append_sei_extended_value(output, payload_type);
    append_sei_extended_value(output, rest.len());
    output.append(&mut rest);
    assert(output@ =~= old(output)@ + sei_payload(payload_type as nat, payload@));
}

/// Writes the unit that says when a picture leaves the buffer and when it is shown.
pub fn encode_hrd_sei(
    hrd: &EncoderHrd,
    buffering_period: bool,
    cpb_removal_delay: u32,
    dpb_output_delay: u32,
) -> (sei: Vec<u8>)
    ensures
        sei@ == hrd_sei(
            *hrd,
            buffering_period,
            cpb_removal_delay as int,
            dpb_output_delay as int,
        ),
{
    reveal(hrd_sei);
    let mut rbsp: Vec<u8> = Vec::new();
    if buffering_period {
        let mut writer = BitWriter::new();
        let _ = write_ue(&mut writer, 0);
        writer.write_bits(hrd.initial_cpb_removal_delay as u64, DELAY_BITS);
        writer.write_bits(0, DELAY_BITS);
        assert(writer@ =~= ue_bits(0) + bits_of(hrd.initial_cpb_removal_delay as nat, 24)
            + bits_of(0, 24));
        finish_rbsp(&mut writer);
        append_sei_payload(&mut rbsp, 0, writer.into_bytes());
    }
    let mut writer = BitWriter::new();
    writer.write_bits(cpb_removal_delay as u64, DELAY_BITS);
    writer.write_bits(dpb_output_delay as u64, DELAY_BITS);
    assert(writer@ =~= bits_of(cpb_removal_delay as nat, 24) + bits_of(
        dpb_output_delay as nat,
        24,
    ));
    finish_rbsp(&mut writer);
    append_sei_payload(&mut rbsp, 1, writer.into_bytes());
    rbsp.push(0x80);
    assert(rbsp@ =~= (if buffering_period {
        sei_payload(0, buffering_payload(*hrd))
    } else {
        Seq::empty()
    }) + sei_payload(1, timing_payload(cpb_removal_delay as int, dpb_output_delay as int)) + seq![
        0x80u8,
    ]);
    make_nal(0x06, rbsp)
}

/// The buffer while pictures come and go.
#[derive(Clone, Copy, Debug)]
pub struct HrdState {
    /// What the stream says of it.
    pub parameters: EncoderHrd,
    /// How many ticks after the start of the period the next picture leaves.
    pub cpb_removal_delay: u32,
    /// How many pictures have left in the period.
    pub decode_index: i32,
    /// How many bits the buffer holds.
    pub cpb_fullness_bits: u64,
}

impl HrdState {
    /// Whether everything is in range.
    pub open spec fn valid(&self) -> bool {
        &&& self.parameters.valid()
        &&& self.cpb_removal_delay < DELAY_MODULUS
        &&& 0 <= self.decode_index
        &&& self.cpb_fullness_bits <= self.parameters.cpb_size.signalled
    }

    /// A full buffer.
    pub open spec fn full(parameters: EncoderHrd) -> HrdState {
        HrdState {
            parameters,
            cpb_removal_delay: 0,
            decode_index: 0,
            cpb_fullness_bits: parameters.cpb_size.signalled,
        }
    }

    /// Makes a full buffer.
    pub fn new(parameters: EncoderHrd) -> (state: Self)
        requires
            parameters.valid(),
        ensures
            state == HrdState::full(parameters),
            state.valid(),
    {
        HrdState {
            parameters,
            cpb_removal_delay: 0,
            decode_index: 0,
            cpb_fullness_bits: parameters.signalled_cpb_size(),
        }
    }

    /// How many ticks a picture lasts.
    pub open spec fn ticks(&self, duration: Option<Timestamp>) -> Result<int, Error> {
        match duration {
            Some(found) if found.value > 0 => {
                let product = (found.value * found.time_base.numerator)
                    * self.parameters.time_scale;
                let ticks = at_least_one(
                    ceiling(
                        product,
                        found.time_base.denominator * self.parameters.num_units_in_tick,
                    ),
                );
                if found.time_base.numerator <= 0 || found.time_base.denominator <= 0 {
                    Err(Error::InvalidData(Fault::DurationUnit))
                } else if product > u128::MAX || ticks > u32::MAX {
                    Err(Error::Unsupported(Fault::DurationRange))
                } else {
                    Ok(ticks)
                }
            },
            _ => Ok(2),
        }
    }

    /// The buffer at the start of a period, where a picture starts one.
    pub open spec fn entered(&self, key: bool) -> HrdState {
        if key {
            HrdState { cpb_removal_delay: 0, decode_index: 0, ..*self }
        } else {
            *self
        }
    }

    /// How many ticks a picture waits until it is shown.
    pub open spec fn output_delay(&self, picture_order_count: int, ticks: int) -> int {
        let frames = picture_order_count / 2 - self.decode_index + self.parameters.b_frames;
        (if frames < 0 {
            0
        } else {
            frames
        }) * ticks
    }

    /// The unit before a picture, and the buffer after it was written.
    pub open spec fn announced(
        &self,
        key: bool,
        picture_order_count: int,
        duration: Option<Timestamp>,
    ) -> (Result<Seq<u8>, Error>, HrdState) {
        let state = self.entered(key);
        match state.ticks(duration) {
            Err(error) => (Err(error), state),
            Ok(ticks) => {
                let delay = state.output_delay(picture_order_count, ticks);
                if delay >= DELAY_MODULUS {
                    (Err(Error::Unsupported(Fault::OutputDelay)), state)
                } else {
                    (
                        Ok(
                            hrd_sei(
                                state.parameters,
                                key,
                                state.cpb_removal_delay as int,
                                delay,
                            ),
                        ),
                        HrdState {
                            cpb_removal_delay: ((state.cpb_removal_delay + ticks)
                                % DELAY_MODULUS as int) as u32,
                            decode_index: (state.decode_index + 1) as i32,
                            ..state
                        },
                    )
                }
            },
        }
    }

    /// Counts the ticks that a picture lasts.
    ///
    /// # Errors
    ///
    /// Returns an error when the unit of the duration is not positive or the ticks do not fit.
    pub fn duration_clock_ticks(&self, duration: Option<Timestamp>) -> (result: Result<u32, Error>)
        requires
            self.parameters.valid(),
        ensures
            match result {
                Ok(ticks) => self.ticks(duration) == Ok::<int, Error>(ticks as int),
                Err(error) => self.ticks(duration) == Err::<int, Error>(error),
            },
    {
        let found: Timestamp = match duration {
            Some(found) => found,
            None => {
                return Ok(2);
            },
        };
        if found.value <= 0 {
            return Ok(2);
        }
        if found.time_base.numerator <= 0 || found.time_base.denominator <= 0 {
            return Err(Error::InvalidData(Fault::DurationUnit));
        }
        let value: u128 = found.value as u128;
        let numerator: u128 = found.time_base.numerator as u128;
        let denominator: u128 = found.time_base.denominator as u128;
        let units: u128 = self.parameters.num_units_in_tick as u128;
        proof {
            assert(value * numerator <= 0x7fff_ffff_ffff_ffff * 0x7fff_ffff_ffff_ffff)
                by (nonlinear_arith)
                requires
                    0 <= value <= 0x7fff_ffff_ffff_ffff,
                    0 <= numerator <= 0x7fff_ffff_ffff_ffff,
            ;
            assert(1 <= denominator * units <= 0x7fff_ffff_ffff_ffff * 0xffff_ffff)
                by (nonlinear_arith)
                requires
                    1 <= denominator <= 0x7fff_ffff_ffff_ffff,
                    1 <= units <= 0xffff_ffff,
            ;
            assert(value * numerator == found.value * found.time_base.numerator);
            assert(denominator * units == found.time_base.denominator
                * self.parameters.num_units_in_tick);
        }
        let divisor: u128 = denominator * units;
        match (value * numerator).checked_mul(self.parameters.time_scale as u128) {
            Some(product) => {
                let quotient: u128 = divide_up(product, divisor);
                let ticks: u128 = if quotient < 1 {
                    1
                } else {
                    quotient
                };
                if ticks > u32::MAX as u128 {
                    Err(Error::Unsupported(Fault::DurationRange))
                } else {
                    Ok(ticks as u32)
                }
            },
            None => Err(Error::Unsupported(Fault::DurationRange)),
        }
    }

    /// Writes the unit before a picture.
    ///
    /// # Errors
    ///
    /// Returns an error when the duration of the picture or its delay does not fit the stream.
    pub fn access_unit_sei(&mut self, key: bool, picture_order_count: i32, timing: FrameTiming) -> (
    result: Result<Vec<u8>, Error>)
        requires
            old(self).valid(),
            key || old(self).decode_index < 0x4000_0000,
            0 <= picture_order_count < 0x4000_0000,
        ensures
            final(self).valid(),
            *final(self) == old(self).announced(
                key,
                picture_order_count as int,
                timing.duration,
            ).1,
            match result {
                Ok(sei) => old(self).announced(
                    key,
                    picture_order_count as int,
                    timing.duration,
                ).0 == Ok::<Seq<u8>, Error>(sei@),
                Err(error) => old(self).announced(
                    key,
                    picture_order_count as int,
                    timing.duration,
                ).0 == Err::<Seq<u8>, Error>(error),
            },
    {
        if key {
            self.cpb_removal_delay = 0;
            self.decode_index = 0;
        }
        let ticks: u32 = match self.duration_clock_ticks(timing.duration) {
            Ok(ticks) => ticks,
            Err(error) => {
                return Err(error);
            },
        };
        let display_index: i32 = picture_order_count / 2;
        let frames: i32 = display_index - self.decode_index + self.parameters.b_frames as i32;
        let waiting: u64 = if frames < 0 {
            0
        } else {
            frames as u64
        };
        assert(waiting * ticks <= 0x8000_0000 * 0xffff_ffff) by (nonlinear_arith)
            requires
                0 <= waiting <= 0x8000_0000,
                0 <= ticks <= 0xffff_ffff,
        ;
        let delay: u64 = waiting * ticks as u64;
        if delay >= DELAY_MODULUS as u64 {
            return Err(Error::Unsupported(Fault::OutputDelay));
        }
        let sei: Vec<u8> = encode_hrd_sei(
            &self.parameters,
            key,
            self.cpb_removal_delay,
            delay as u32,
        );
        let removal: u64 = (self.cpb_removal_delay as u64 + ticks as u64) % DELAY_MODULUS as u64;
        self.cpb_removal_delay = removal as u32;
        self.decode_index = self.decode_index + 1;
        Ok(sei)
    }

    /// How many bits arrive while a picture lasts.
    pub open spec fn arrived(&self, ticks: int) -> Option<int> {
        let product = (self.parameters.bit_rate.signalled * ticks)
            * self.parameters.num_units_in_tick;
        let bits = ceiling(product, self.parameters.time_scale as int);
        if product > u128::MAX || bits > u64::MAX {
            None
        } else {
            Some(bits)
        }
    }

    /// What the buffer holds before a picture leaves it.
    pub open spec fn filled(&self, key: bool, duration: Option<Timestamp>) -> Result<int, Error> {
        if key {
            Ok(self.parameters.cpb_size.signalled as int)
        } else {
            match self.ticks(duration) {
                Err(error) => Err(error),
                Ok(ticks) => match self.arrived(ticks) {
                    None => Err(Error::Unsupported(Fault::ArrivalRange)),
                    Some(bits) => Ok(
                        if self.cpb_fullness_bits + bits > self.parameters.cpb_size.signalled {
                            self.parameters.cpb_size.signalled as int
                        } else {
                            self.cpb_fullness_bits + bits
                        },
                    ),
                },
            }
        }
    }

    /// Whether a picture can leave the buffer, and the buffer after that.
    pub open spec fn removed(&self, key: bool, duration: Option<Timestamp>, bits: int) -> (
        Option<Error>,
        HrdState,
    ) {
        match self.filled(key, duration) {
            Err(error) => (Some(error), *self),
            Ok(filled) => if bits > filled {
                (
                    Some(Error::InvalidData(Fault::BufferUnderflow)),
                    HrdState { cpb_fullness_bits: filled as u64, ..*self },
                )
            } else {
                (None, HrdState { cpb_fullness_bits: (filled - bits) as u64, ..*self })
            },
        }
    }

    /// Takes a picture out of the buffer.
    ///
    /// # Errors
    ///
    /// Returns an error when the picture has more bits than the buffer holds, or when the duration
    /// of the picture does not fit.
    pub fn remove_access_unit(
        &mut self,
        key: bool,
        duration: Option<Timestamp>,
        access_unit_bits: u64,
    ) -> (result: Result<(), Error>)
        requires
            old(self).valid(),
        ensures
            final(self).valid(),
            *final(self) == old(self).removed(key, duration, access_unit_bits as int).1,
            result == crate::frame::unless(
                old(self).removed(key, duration, access_unit_bits as int).0,
            ),
    {
        if key {
            self.cpb_fullness_bits = self.parameters.signalled_cpb_size();
        } else {
            let ticks: u32 = match self.duration_clock_ticks(duration) {
                Ok(ticks) => ticks,
                Err(error) => {
                    return Err(error);
                },
            };
            let rate: u128 = self.parameters.signalled_bit_rate() as u128;
            let count: u128 = ticks as u128;
            assert(rate * count <= 0xffff_ffff_ffff_ffff * 0xffff_ffff) by (nonlinear_arith)
                requires
                    0 <= rate <= 0xffff_ffff_ffff_ffff,
                    0 <= count <= 0xffff_ffff,
            ;
            assert(rate * count == self.parameters.bit_rate.signalled * ticks);
            let arrived: u128 = match (rate * count).checked_mul(
                self.parameters.num_units_in_tick as u128,
            ) {
                Some(product) => divide_up(product, self.parameters.time_scale as u128),
                None => {
                    return Err(Error::Unsupported(Fault::ArrivalRange));
                },
            };
            if arrived > u64::MAX as u128 {
                return Err(Error::Unsupported(Fault::ArrivalRange));
            }
            let filled: u128 = self.cpb_fullness_bits as u128 + arrived;
            let most: u64 = self.parameters.signalled_cpb_size();
            self.cpb_fullness_bits = if filled > most as u128 {
                most
            } else {
                filled as u64
            };
        }
        if access_unit_bits > self.cpb_fullness_bits {
            return Err(Error::InvalidData(Fault::BufferUnderflow));
        }
        self.cpb_fullness_bits = self.cpb_fullness_bits - access_unit_bits;
        Ok(())
    }
}

/// A buffer never holds more than its size nor less than nothing, and a picture leaves it exactly
/// when the buffer holds the whole of it.
pub proof fn law_buffer_holds(
    state: HrdState,
    key: bool,
    duration: Option<Timestamp>,
    bits: u64,
)
    requires
        state.valid(),
    ensures
        state.removed(key, duration, bits as int).1.cpb_fullness_bits
            <= state.parameters.cpb_size.signalled,
        match state.filled(key, duration) {
            Ok(filled) => if bits <= filled {
                &&& state.removed(key, duration, bits as int).0 is None
                &&& state.removed(key, duration, bits as int).1.cpb_fullness_bits + bits == filled
            } else {
                state.removed(key, duration, bits as int).0 is Some
            },
            Err(_) => state.removed(key, duration, bits as int).0 is Some,
        },
{
    if !key {
        if let Ok(ticks) = state.ticks(duration) {
            let product = (state.parameters.bit_rate.signalled * ticks)
                * state.parameters.num_units_in_tick;
            assert(product >= 0) by (nonlinear_arith)
                requires
                    product == (state.parameters.bit_rate.signalled * ticks)
                        * state.parameters.num_units_in_tick,
                    ticks >= 1,
                    state.parameters.bit_rate.signalled >= 0,
                    state.parameters.num_units_in_tick >= 0,
            ;
            assert(ceiling(product, state.parameters.time_scale as int) >= 0) by (nonlinear_arith)
                requires
                    product >= 0,
                    state.parameters.time_scale >= 1,
            ;
        }
    }
}

} // verus!
