//! How the quantizer answers to the rate.

use vstd::prelude::*;

use crate::frame::{Rational, Timestamp};
use crate::rate::{interval_bits, RateControl};

verus! {

/// A number between zero and 51, or the nearer of these.
pub open spec fn in_range(qp: int) -> int {
    if qp < 0 {
        0
    } else if qp > 51 {
        51
    } else {
        qp
    }
}

/// The fuller the virtual buffer, the greater the quantizer: of two controls that differ only in how
/// full their buffers are, the fuller one has no smaller quantizer after a frame, nor an emptier
/// buffer.
pub proof fn law_fuller_buffer(
    emptier: RateControl,
    fuller: RateControl,
    bits: int,
    duration: Option<Timestamp>,
)
    requires
        emptier.valid(),
        fuller == (RateControl { buffer_fullness_bits: fuller.buffer_fullness_bits, ..emptier }),
        emptier.buffer_fullness_bits <= fuller.buffer_fullness_bits,
        emptier.target(duration) >= 0,
    ensures
        emptier.qp_after(bits, duration) <= fuller.qp_after(bits, duration),
        emptier.fullness_after(bits, duration) <= fuller.fullness_after(bits, duration),
{
    assert(emptier.target(duration) == fuller.target(duration));
}

/// The larger a frame, the greater the quantizer after it, and the fuller the virtual buffer.
pub proof fn law_larger_frame(
    control: RateControl,
    smaller: int,
    larger: int,
    duration: Option<Timestamp>,
)
    requires
        control.valid(),
        0 <= smaller <= larger,
        control.target(duration) > 0,
    ensures
        control.qp_after(smaller, duration) <= control.qp_after(larger, duration),
        control.fullness_after(smaller, duration) <= control.fullness_after(larger, duration),
{
}

/// After a frame of just its share, a buffer that is more than two shares above its middle raises
/// the quantizer by one, one that is more than two shares below lowers it by one, and any other
/// leaves it.
pub proof fn law_buffer_pressure(control: RateControl, duration: Option<Timestamp>)
    requires
        control.valid(),
        control.target(duration) > 0,
    ensures
        ({
            let share = control.target(duration);
            let full = control.fullness_after(share, duration);
            let qp = control.qp_after(share, duration);
            &&& full > 2 * share ==> qp == in_range(control.current_qp + 1)
            &&& full < -2 * share ==> qp == in_range(control.current_qp - 1)
            &&& -2 * share <= full <= 2 * share ==> qp == control.current_qp
        }),
{
}

/// While the buffer stays within two shares of its middle, the quantizer rises by two after a frame
/// of twice its share or more, by one from five quarters on, falls by two after one of half its
/// share or less, by one up to four fifths, and stays otherwise.
pub proof fn law_frame_size(control: RateControl, bits: int, duration: Option<Timestamp>)
    requires
        control.valid(),
        0 <= bits,
        control.target(duration) > 0,
        -2 * control.target(duration) <= control.fullness_after(bits, duration) <= 2
            * control.target(duration),
    ensures
        ({
            let share = control.target(duration);
            let qp = control.qp_after(bits, duration);
            let moved = |steps: int| in_range(control.current_qp + steps);
            &&& bits >= 2 * share ==> qp == moved(2)
            &&& bits < 2 * share && 4 * bits >= 5 * share ==> qp == moved(1)
            &&& 4 * bits < 5 * share && 5 * bits > 4 * share ==> qp == moved(0)
            &&& 5 * bits <= 4 * share && 2 * bits > share ==> qp == moved(-1)
            &&& 2 * bits <= share ==> qp == moved(-2)
        }),
{
}

/// The quantizer moves for the size of the frame and for the buffer at once.
pub proof fn law_moves_add_up(
    control: RateControl,
    relaxed: RateControl,
    bits: int,
    duration: Option<Timestamp>,
)
    requires
        control.valid(),
        relaxed.valid(),
        3 <= control.current_qp <= 48,
        relaxed == (RateControl { buffer_fullness_bits: relaxed.buffer_fullness_bits, ..control }),
        0 <= bits,
        control.target(duration) > 0,
        -2 * control.target(duration) <= relaxed.fullness_after(bits, duration) <= 2
            * control.target(duration),
    ensures
        ({
            let share = control.target(duration);
            let full = control.fullness_after(bits, duration);
            let without = relaxed.qp_after(bits, duration);
            &&& full > 2 * share ==> control.qp_after(bits, duration) == without + 1
            &&& full < -2 * share ==> control.qp_after(bits, duration) == without - 1
            &&& -2 * share <= full <= 2 * share ==> control.qp_after(bits, duration) == without
        }),
{
    assert(control.target(duration) == relaxed.target(duration));
}

/// The buffer takes in what a frame has more than its share and gives off what it has less, between
/// half of its capacity above and below its middle; where no capacity is given, it holds eight
/// shares.
pub proof fn law_buffer_balance(control: RateControl, bits: int, duration: Option<Timestamp>)
    requires
        control.valid(),
        0 <= bits,
        control.target(duration) > 0,
    ensures
        ({
            let share = control.target(duration);
            let half = match control.fixed_buffer_capacity_bits {
                Some(capacity) => capacity as int / 2,
                None => 4 * share,
            };
            let sum = control.buffer_fullness_bits + bits - share;
            let full = control.fullness_after(bits, duration);
            &&& -half <= sum <= half ==> full == sum
            &&& sum > half ==> full == half
            &&& sum < -half ==> full == -half
        }),
{
}

/// The share of a frame is what the rate sends while it is shown, rounded up to whole bits, and at
/// least one; without a duration, while it would be shown by default.
pub proof fn law_share(bitrate: int, ticks: int, time_base: Rational, bits: int)
    requires
        0 <= bitrate,
        0 <= ticks,
        interval_bits(bitrate, ticks, time_base) == Some(bits),
    ensures
        time_base.numerator > 0 && time_base.denominator > 0 && ticks > 0,
        bits >= 1,
        (bitrate * ticks) * time_base.numerator <= bits * time_base.denominator,
        bits > 1 ==> (bits - 1) * time_base.denominator < (bitrate * ticks) * time_base.numerator,
{
    reveal(interval_bits);
    let product = (bitrate * ticks) * time_base.numerator;
    let denominator = time_base.denominator as int;
    assert(0 <= product) by (nonlinear_arith)
        requires
            product == (bitrate * ticks) * time_base.numerator,
            0 <= bitrate,
            0 <= ticks,
            0 < time_base.numerator,
    ;
    let up = (product + denominator - 1) / denominator;
    assert(product <= up * denominator && (up - 1) * denominator < product) by (nonlinear_arith)
        requires
            up == (product + denominator - 1) / denominator,
            0 < denominator,
            0 <= product,
    ;
    if up < 1 {
        assert(product <= denominator) by (nonlinear_arith)
            requires
                product <= up * denominator,
                up < 1,
                0 < denominator,
        ;
    }
}

/// A frame that says how long it is shown has the share of that time, and any other the share of a
/// single tick.
pub proof fn law_share_of_frame(control: RateControl, duration: Timestamp, bits: int)
    requires
        duration.value > 0,
        interval_bits(control.bitrate as int, duration.value as int, duration.time_base) == Some(
            bits,
        ),
    ensures
        control.target(Some(duration)) == bits,
        control.target(None) == control.target_bits_per_frame,
{
}

/// A control starts with the given quantizer, with its buffer at the middle, and with the share of a
/// single tick for each frame.
pub proof fn law_fresh_control(
    bitrate: u64,
    time_base: Rational,
    initial_qp: i32,
    capacity: Option<u64>,
)
    requires
        RateControl::new_fault(bitrate as int, time_base) is None,
    ensures
        ({
            let control = RateControl::fresh(bitrate, time_base, initial_qp, capacity);
            &&& control.current_qp == initial_qp
            &&& control.buffer_fullness_bits == 0
            &&& control.bitrate == bitrate
            &&& interval_bits(bitrate as int, 1, time_base) == Some(
                control.target_bits_per_frame as int,
            )
            &&& capacity matches Some(bits) ==> control.buffer_capacity_bits == bits
            &&& capacity is None ==> control.buffer_capacity_bits == 8
                * control.target_bits_per_frame
        }),
{
    reveal(interval_bits);
}

} // verus!
