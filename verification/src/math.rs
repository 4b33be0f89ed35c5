//! Small integer helpers.

use vstd::prelude::*;

use crate::bits::{lemma_power_monotonic, power_of_two};

verus! {

/// `value` moved into `low..=high`.
pub open spec fn clamped(value: int, low: int, high: int) -> int {
    if value < low {
        low
    } else if value > high {
        high
    } else {
        value
    }
}

/// The distance of `value` from zero.
pub open spec fn magnitude(value: int) -> int {
    if value < 0 {
        -value
    } else {
        value
    }
}

/// One for `true`, zero for `false`.
pub open spec fn unit(condition: bool) -> int {
    if condition {
        1
    } else {
        0
    }
}

/// Moves `value` into `low..=high`.
pub fn clamp(value: i64, low: i64, high: i64) -> (result: i64)
    ensures
        result == clamped(value as int, low as int, high as int),
{
    if value < low {
        low
    } else if value > high {
        high
    } else {
        value
    }
}

/// The distance of `value` from zero.
pub fn absolute(value: i32) -> (result: i32)
    requires
        value > i32::MIN,
    ensures
        result == magnitude(value as int),
{
    if value < 0 {
        -value
    } else {
        value
    }
}

/// The distance of `value` from zero.
pub fn absolute_wide(value: i64) -> (result: i64)
    requires
        value > i64::MIN,
    ensures
        result == magnitude(value as int),
{
    if value < 0 {
        -value
    } else {
        value
    }
}

/// Half of `value`, rounded down.
pub fn halved(value: i64) -> (result: i64)
    ensures
        result == value as int / 2,
{
    assert((value >> 1u32) == value / 2) by (bit_vector);
    value >> 1u32
}

/// A quarter of `value`, rounded down.
pub fn quartered(value: i64) -> (result: i64)
    ensures
        result == value as int / 4,
{
    assert((value >> 2u32) == value / 4) by (bit_vector);
    value >> 2u32
}

/// An eighth of `value`, rounded down.
pub fn eighth(value: i64) -> (result: i64)
    ensures
        result == value as int / 8,
{
    assert((value >> 3u32) == value / 8) by (bit_vector);
    value >> 3u32
}

/// A sixteenth of `value`, rounded down.
pub fn sixteenth(value: i64) -> (result: i64)
    ensures
        result == value as int / 16,
{
    assert((value >> 4u32) == value / 16) by (bit_vector);
    value >> 4u32
}

/// A thirty-second of `value`, rounded down.
pub fn thirty_second(value: i64) -> (result: i64)
    ensures
        result == value as int / 32,
{
    assert((value >> 5u32) == value / 32) by (bit_vector);
    value >> 5u32
}

/// A sixty-fourth of `value`, rounded down.
pub fn sixty_fourth(value: i64) -> (result: i64)
    ensures
        result == value as int / 64,
{
    assert((value >> 6u32) == value / 64) by (bit_vector);
    value >> 6u32
}

/// The powers of two that fixed-point arithmetic uses.
pub proof fn lemma_powers_of_two()
    ensures
        power_of_two(0) == 1,
        power_of_two(1) == 2,
        power_of_two(2) == 4,
        power_of_two(3) == 8,
        power_of_two(4) == 16,
        power_of_two(5) == 32,
        power_of_two(6) == 64,
        power_of_two(7) == 128,
        power_of_two(8) == 256,
        power_of_two(12) == 4096,
        power_of_two(15) == 32768,
        power_of_two(16) == 65536,
        power_of_two(24) == 0x100_0000,
        power_of_two(28) == 0x1000_0000,
        power_of_two(32) == 0x1_0000_0000,
{
    reveal_with_fuel(power_of_two, 33);
}

/// Two to the power `count`.
pub fn two_to(count: u8) -> (power: u64)
    requires
        count <= 32,
    ensures
        power == power_of_two(count as nat),
        1 <= power <= 0x1_0000_0000,
{
    let mut power: u64 = 1;
    let mut done: u8 = 0;
    while done < count
        invariant
            done <= count <= 32,
            power == power_of_two(done as nat),
        decreases count - done,
    {
        proof {
            lemma_power_monotonic((done + 1) as nat, 32);
            lemma_powers_of_two();
        }
        power = power * 2;
        done = done + 1;
    }
    proof {
        lemma_power_monotonic(count as nat, 32);
        lemma_power_monotonic(0, count as nat);
        lemma_powers_of_two();
    }
    power
}

/// `value` divided by a positive number and rounded to the nearest integer, halves away from zero.
pub open spec fn rounded_quotient(value: int, divisor: int) -> int {
    if value >= 0 {
        (value + divisor / 2) / divisor
    } else {
        -((-value + divisor / 2) / divisor)
    }
}

/// Divides by a positive number and rounds to the nearest integer.
pub fn round_div(value: i64, divisor: i64) -> (quotient: i64)
    requires
        0 < divisor,
        i64::MIN / 2 <= value <= i64::MAX / 2,
    ensures
        quotient == rounded_quotient(value as int, divisor as int),
        -magnitude(value as int) - 1 <= quotient <= magnitude(value as int) + 1,
{
    let half: i64 = divisor / 2;
    let size: i64 = if value >= 0 {
        value
    } else {
        -value
    };
    let quotient: i64 = (size + half) / divisor;
    assert(0 <= (size + half) / divisor as int <= size + 1) by (nonlinear_arith)
        requires
            0 <= size,
            0 < divisor,
            0 <= half,
            2 * half <= divisor,
    ;
    if value >= 0 {
        quotient
    } else {
        -quotient
    }
}

/// `value` divided by a positive number and rounded down.
pub fn floor_div(value: i64, divisor: i64) -> (quotient: i64)
    requires
        0 < divisor < 0x1000_0000_0000_0000,
        -0x1000_0000_0000_0000 < value < 0x1000_0000_0000_0000,
    ensures
        quotient == value as int / divisor as int,
        -magnitude(value as int) <= quotient <= magnitude(value as int),
{
    if value >= 0 {
        assert(0 <= value as int / divisor as int <= value) by (nonlinear_arith)
            requires
                0 <= value,
                0 < divisor,
        ;
        value / divisor
    } else {
        let quotient: i64 = -((-value + (divisor - 1)) / divisor);
        assert(-((-value + (divisor - 1)) / divisor as int) == value as int / divisor as int)
            by (nonlinear_arith)
            requires
                value < 0,
                0 < divisor,
        ;
        assert(value <= value as int / divisor as int <= 0) by (nonlinear_arith)
            requires
                value < 0,
                0 < divisor,
        ;
        quotient
    }
}

/// The sample nearest to `value`.
pub open spec fn sample_of(value: int) -> u8 {
    clamped(value, 0, 255) as u8
}

/// Moves `value` into the range of a sample.
pub fn clip_sample(value: i32) -> (sample: u8)
    ensures
        sample == sample_of(value as int),
{
    if value < 0 {
        0
    } else if value > 255 {
        255
    } else {
        value as u8
    }
}

/// Moves `value` into the range of a sample.
pub fn clip_wide(value: i64) -> (sample: u8)
    ensures
        sample == sample_of(value as int),
{
    if value < 0 {
        0
    } else if value > 255 {
        255
    } else {
        value as u8
    }
}

/// A place inside the first `rows` rows of a plane lies before the end of those rows.
pub proof fn lemma_place_inside(y: int, x: int, stride: int, rows: int)
    requires
        0 <= y < rows,
        0 <= x < stride,
    ensures
        0 <= y * stride,
        0 <= y * stride + x < rows * stride,
        (y + 1) * stride == y * stride + stride,
{
    assert(0 <= y * stride && y * stride + stride <= rows * stride && (y + 1) * stride == y * stride
        + stride) by (nonlinear_arith)
        requires
            0 <= y < rows,
            0 <= x < stride,
    ;
}

} // verus!
