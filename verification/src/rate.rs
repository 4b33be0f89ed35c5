//! How the quantizer follows the rate.

use vstd::prelude::*;

use crate::error::{Error, Fault};
use crate::frame::{Rational, Timestamp};
use crate::quantize::quantizer;

verus! {

/// How many frames the virtual buffer holds where no size is given.
pub const RATE_CONTROL_BUFFER_FRAMES: u64 = 8;

/// A quotient, rounded up.
pub open spec fn ceiling(value: int, divisor: int) -> int {
    (value + divisor - 1) / divisor
}

/// Divides, and rounds up.
pub fn divide_up(value: u128, divisor: u128) -> (result: u128)
    requires
        divisor > 0,
    ensures
        result == ceiling(value as int, divisor as int),
{
    let quotient: u128 = value / divisor;
    let rest: u128 = value % divisor;
    proof {
        let q = quotient as int;
        let r = rest as int;
        let d = divisor as int;
        vstd::arithmetic::div_mod::lemma_fundamental_div_mod(value as int, d);
        assert(value == q * d + r) by (nonlinear_arith)
            requires
                value == d * q + r,
        ;
        if r == 0 {
            vstd::arithmetic::div_mod::lemma_fundamental_div_mod_converse(
                value + d - 1,
                d,
                q,
                d - 1,
            );
        } else {
            assert((q + 1) * d == q * d + d) by (nonlinear_arith);
            vstd::arithmetic::div_mod::lemma_fundamental_div_mod_converse(
                value + d - 1,
                d,
                q + 1,
                r - 1,
            );
            assert(quotient < u128::MAX) by (nonlinear_arith)
                requires
                    value == quotient * divisor + rest,
                    rest > 0,
                    divisor > 0,
                    value <= u128::MAX,
            ;
        }
    }
    if rest == 0 {
        quotient
    } else {
        quotient + 1
    }
}

/// The larger of a number and one.
pub open spec fn at_least_one(value: int) -> int {
    if value < 1 {
        1
    } else {
        value
    }
}

/// How many bits come in some ticks, if that fits.
#[verifier::opaque]
pub open spec fn interval_bits(bitrate: int, ticks: int, time_base: Rational) -> Option<int> {
    let product = (bitrate * ticks) * time_base.numerator;
    let bits = at_least_one(ceiling(product, time_base.denominator as int));
    if ticks == 0 || time_base.numerator <= 0 || time_base.denominator <= 0 || product > u128::MAX
        || bits > u64::MAX {
        None
    } else {
        Some(bits)
    }
}

/// A number, or the nearer end of a range.
pub open spec fn clamped(value: int, low: int, high: int) -> int {
    if value < low {
        low
    } else if value > high {
        high
    } else {
        value
    }
}

/// A quantizer that follows the rate.
#[derive(Clone, Copy, Debug)]
pub struct RateControl {
    /// The bits in a second.
    pub bitrate: u64,
    /// The bits of a frame that does not say how long it lasts.
    pub target_bits_per_frame: u64,
    /// How many bits the virtual buffer holds.
    pub buffer_capacity_bits: i128,
    /// How far the virtual buffer is from being half full.
    pub buffer_fullness_bits: i128,
    /// The quantizer of the next picture.
    pub current_qp: i32,
    /// How many bits the virtual buffer always holds, if that is fixed.
    pub fixed_buffer_capacity_bits: Option<i128>,
}

/// How many steps the quantizer moves because of the size of a frame.
pub open spec fn size_step(bits: int, target: int) -> int {
    if bits >= target * 2 {
        2
    } else if bits * 4 >= target * 5 {
        1
    } else if bits * 2 <= target {
        -2
    } else if bits * 5 <= target * 4 {
        -1
    } else {
        0
    }
}

/// How many steps the quantizer moves because of the virtual buffer.
pub open spec fn pressure_step(fullness: int, target: int) -> int {
    if fullness > target * 2 {
        1
    } else if fullness < -(target * 2) {
        -1
    } else {
        0
    }
}

impl RateControl {
    /// Whether everything is in range.
    pub open spec fn valid(&self) -> bool {
        &&& quantizer(self.current_qp as int)
        &&& -0x1_0000_0000_0000_0000_0000 <= self.buffer_fullness_bits
            <= 0x1_0000_0000_0000_0000_0000
        &&& self.fixed_buffer_capacity_bits matches Some(bits) ==> 0 <= bits <= u64::MAX
    }

    /// How many bits a frame should have.
    pub open spec fn target(&self, duration: Option<Timestamp>) -> int {
        match duration {
            Some(found) if found.value > 0 => match interval_bits(
                self.bitrate as int,
                found.value as int,
                found.time_base,
            ) {
                Some(bits) => bits,
                None => self.target_bits_per_frame as int,
            },
            _ => self.target_bits_per_frame as int,
        }
    }

    /// How many bits the virtual buffer holds for frames of some size.
    pub open spec fn capacity(&self, target: int) -> int {
        match self.fixed_buffer_capacity_bits {
            Some(bits) => bits as int,
            None => target * 8,
        }
    }

    /// How far the virtual buffer is from being half full after a frame.
    pub open spec fn fullness_after(&self, bits: int, duration: Option<Timestamp>) -> int {
        let target = self.target(duration);
        let half = self.capacity(target) / 2;
        clamped(self.buffer_fullness_bits + bits - target, -half, half)
    }

    /// The quantizer after a frame.
    pub open spec fn qp_after(&self, bits: int, duration: Option<Timestamp>) -> int {
        let target = self.target(duration);
        clamped(
            self.current_qp + size_step(bits, target) + pressure_step(
                self.fullness_after(bits, duration),
                target,
            ),
            0,
            51,
        )
    }

    /// The control after a frame.
    pub open spec fn observed(&self, bits: int, duration: Option<Timestamp>) -> RateControl {
        RateControl {
            buffer_capacity_bits: self.capacity(self.target(duration)) as i128,
            buffer_fullness_bits: self.fullness_after(bits, duration) as i128,
            current_qp: self.qp_after(bits, duration) as i32,
            ..*self
        }
    }

    /// Whether a rate can be kept.
    pub open spec fn new_fault(bitrate: int, time_base: Rational) -> Option<Error> {
        if bitrate == 0 || time_base.numerator <= 0 || time_base.denominator <= 0 {
            Some(Error::Unsupported(Fault::RateUnit))
        } else if interval_bits(bitrate, 1, time_base) is None {
            Some(Error::Unsupported(Fault::FrameTarget))
        } else {
            None
        }
    }

    /// A control that has seen no frame.
    pub open spec fn fresh(
        bitrate: u64,
        time_base: Rational,
        initial_qp: i32,
        buffer_capacity_bits: Option<u64>,
    ) -> RateControl {
        let target = interval_bits(bitrate as int, 1, time_base)->0;
        let fixed = match buffer_capacity_bits {
            Some(bits) => Some(bits as i128),
            None => None,
        };
        RateControl {
            bitrate,
            target_bits_per_frame: target as u64,
            buffer_capacity_bits: match fixed {
                Some(bits) => bits,
                None => (target * 8) as i128,
            },
            buffer_fullness_bits: 0,
            current_qp: initial_qp,
            fixed_buffer_capacity_bits: fixed,
        }
    }

    /// Makes a control for a rate.
    ///
    /// # Errors
    ///
    /// Returns an error when the rate is zero, its unit is not positive, or a frame's share does
    /// not fit.
    pub fn new(
        bitrate: u64,
        time_base: Rational,
        initial_qp: i32,
        buffer_capacity_bits: Option<u64>,
    ) -> (result: Result<Self, Error>)
        requires
            quantizer(initial_qp as int),
        ensures
            match result {
                Ok(control) => {
                    &&& RateControl::new_fault(bitrate as int, time_base) is None
                    &&& control == RateControl::fresh(
                        bitrate,
                        time_base,
                        initial_qp,
                        buffer_capacity_bits,
                    )
                    &&& control.valid()
                },
                Err(error) => RateControl::new_fault(bitrate as int, time_base) == Some(error),
            },
    {
        if bitrate == 0 || time_base.numerator <= 0 || time_base.denominator <= 0 {
            return Err(Error::Unsupported(Fault::RateUnit));
        }
        let target: u64 = match Self::bits_for_interval(bitrate, 1, time_base) {
            Some(target) => target,
            None => {
                return Err(Error::Unsupported(Fault::FrameTarget));
            },
        };
        let fixed: Option<i128> = match buffer_capacity_bits {
            Some(bits) => Some(bits as i128),
            None => None,
        };
        let capacity: i128 = match fixed {
            Some(bits) => bits,
            None => target as i128 * 8,
        };
        Ok(
            RateControl {
                bitrate,
                target_bits_per_frame: target,
                buffer_capacity_bits: capacity,
                buffer_fullness_bits: 0,
                current_qp: initial_qp,
                fixed_buffer_capacity_bits: fixed,
            },
        )
    }

    /// Counts the bits that come in some ticks.
    pub fn bits_for_interval(bitrate: u64, ticks: u64, time_base: Rational) -> (bits: Option<u64>)
        ensures
            match bits {
                Some(found) => interval_bits(bitrate as int, ticks as int, time_base) == Some(
                    found as int,
                ),
                None => interval_bits(bitrate as int, ticks as int, time_base) is None,
            },
    {
        reveal(interval_bits);
        if ticks == 0 || time_base.numerator <= 0 || time_base.denominator <= 0 {
            return None;
        }
        let rate: u128 = bitrate as u128;
        let count: u128 = ticks as u128;
        assert(rate * count <= 0xffff_ffff_ffff_ffff * 0xffff_ffff_ffff_ffff) by (nonlinear_arith)
            requires
                0 <= rate <= 0xffff_ffff_ffff_ffff,
                0 <= count <= 0xffff_ffff_ffff_ffff,
        ;
        assert(rate * count == bitrate * ticks);
        match (rate * count).checked_mul(time_base.numerator as u128) {
            Some(product) => {
                let quotient: u128 = divide_up(product, time_base.denominator as u128);
                let bits: u128 = if quotient < 1 {
                    1
                } else {
                    quotient
                };
                if bits > u64::MAX as u128 {
                    None
                } else {
                    Some(bits as u64)
                }
            },
            None => None,
        }
    }

    /// Takes note of a frame.
    pub fn observe(&mut self, encoded_bits: u64, duration: Option<Timestamp>)
        requires
            old(self).valid(),
        ensures
            final(self).valid(),
            *final(self) == old(self).observed(encoded_bits as int, duration),
    {
        proof {
            reveal(interval_bits);
        }
        let mut target: u64 = self.target_bits_per_frame;
        if let Some(found) = duration {
            if found.value > 0 {
                if let Some(bits) = Self::bits_for_interval(
                    self.bitrate,
                    found.value as u64,
                    found.time_base,
                ) {
                    target = bits;
                }
            }
        }
        assert(target == self.target(duration));
        let goal: i128 = target as i128;
        let bits: i128 = encoded_bits as i128;
        let capacity: i128 = match self.fixed_buffer_capacity_bits {
            Some(fixed) => fixed,
            None => goal * 8,
        };
        let half: i128 = capacity / 2;
        let moved: i128 = self.buffer_fullness_bits + bits - goal;
        let fullness: i128 = if moved < -half {
            -half
        } else if moved > half {
            half
        } else {
            moved
        };
        let size_adjustment: i32 = if bits >= goal * 2 {
            2
        } else if bits * 4 >= goal * 5 {
            1
        } else if bits * 2 <= goal {
            -2
        } else if bits * 5 <= goal * 4 {
            -1
        } else {
            0
        };
        let pressure_adjustment: i32 = if fullness > goal * 2 {
            1
        } else if fullness < -(goal * 2) {
            -1
        } else {
            0
        };
        let qp: i32 = self.current_qp + size_adjustment + pressure_adjustment;
        self.buffer_capacity_bits = capacity;
        self.buffer_fullness_bits = fullness;
        self.current_qp = if qp < 0 {
            0
        } else if qp > 51 {
            51
        } else {
            qp
        };
    }
}

/// Large frames never lower the quantizer, and small ones never raise it, while the virtual buffer
/// is near its middle.
pub proof fn law_rate_is_followed(control: RateControl, bits: int, duration: Option<Timestamp>)
    requires
        control.valid(),
        0 <= bits,
        control.target(duration) > 0,
        pressure_step(control.fullness_after(bits, duration), control.target(duration)) == 0,
    ensures
        bits >= control.target(duration) ==> control.qp_after(bits, duration) >= control.current_qp,
        bits <= control.target(duration) ==> control.qp_after(bits, duration) <= control.current_qp,
{
}

/// The quantizer stays in its range, and moves by at most three steps at a time.
pub proof fn law_rate_is_smooth(control: RateControl, bits: int, duration: Option<Timestamp>)
    requires
        control.valid(),
    ensures
        quantizer(control.qp_after(bits, duration)),
        -3 <= control.qp_after(bits, duration) - control.current_qp <= 3,
{
}

/// The virtual buffer never holds more than half of its capacity above or below its middle.
pub proof fn law_rate_buffer_bounded(control: RateControl, bits: int, duration: Option<Timestamp>)
    requires
        control.valid(),
        control.target(duration) >= 0,
    ensures
        -(control.capacity(control.target(duration)) / 2) <= control.fullness_after(bits, duration)
            <= control.capacity(control.target(duration)) / 2,
{
}

} // verus!
