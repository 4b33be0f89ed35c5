//! What holds of codes, of headers, and of levels.

use vstd::prelude::*;

use crate::bits::{bits_of, power_of_two};
use crate::config::AvcLevel;
use crate::frame::Rational;
use crate::golomb::{bit_length, reference_index_bits, se_bits, ue_bits};
use crate::levels::{interval_allowed, level_entry, LevelRequirements};
use crate::nal::{header_allowed, header_of, unit_type_value, NalUnitType};

verus! {

proof fn lemma_length(value: nat, digits: nat)
    requires
        digits >= 1,
        power_of_two((digits - 1) as nat) <= value < power_of_two(digits),
    ensures
        bit_length(value) == digits,
    decreases digits,
{
    if digits == 1 {
        assert(power_of_two(0) == 1 && power_of_two(1) == 2) by {
            reveal_with_fuel(power_of_two, 2);
        }
        assert(value == 1);
        reveal_with_fuel(bit_length, 2);
    } else {
        let half = (digits - 1) as nat;
        assert(power_of_two(digits) == 2 * power_of_two(half));
        assert(power_of_two(half) == 2 * power_of_two((half - 1) as nat));
        lemma_length(value / 2, half);
    }
}

/// A number is written as one more than it, behind as many zeros as that has digits after its first:
/// a number from `2^k - 1` to `2^(k+1) - 2` has `2 k + 1` bits.
pub proof fn law_number_word(value: nat, k: nat)
    requires
        power_of_two(k) <= value + 1 < power_of_two(k + 1),
    ensures
        ue_bits(value) == Seq::new(k, |i: int| false) + bits_of(value + 1, k + 1),
        ue_bits(value).len() == 2 * k + 1,
{
    lemma_length(value + 1, k + 1);
    crate::bits::lemma_bits_of_len(value + 1, k + 1);
}

/// Signed numbers are counted 0, 1, -1, 2, -2, and so on, and written by their count.
pub proof fn law_signed_word(value: int)
    ensures
        se_bits(0) == ue_bits(0),
        value > 0 ==> se_bits(value) == ue_bits((2 * value - 1) as nat),
        value > 0 ==> se_bits(-value) == ue_bits((2 * value) as nat),
{
}

/// A picture of the list needs no bits where there is just one, a single bit where there are two, a
/// one for the first, and its number otherwise.
pub proof fn law_reference_word(index: nat, last: nat)
    ensures
        last == 0 ==> reference_index_bits(index, last).len() == 0,
        last == 1 && index == 0 ==> reference_index_bits(index, last) == seq![true],
        last == 1 && index == 1 ==> reference_index_bits(index, last) == seq![false],
        last > 1 ==> reference_index_bits(index, last) == ue_bits(index),
{
}

/// The first byte of a unit is its type, and thirty-two for each step of its importance.
pub proof fn law_header_byte(byte: u8)
    requires
        header_allowed(byte),
    ensures
        byte == 32 * header_of(byte).reference_idc + unit_type_value(header_of(byte).unit_type),
        header_of(byte).reference_idc < 4,
        header_of(0x65).unit_type == NalUnitType::IdrSlice,
        header_of(0x41).unit_type == NalUnitType::CodedSlice,
        header_of(0x67).unit_type == NalUnitType::Sps,
        header_of(0x68).unit_type == NalUnitType::Pps,
        header_of(0x06).unit_type == NalUnitType::Sei,
        !header_allowed((byte + 128) as u8),
{
}

/// Each level allows at least what the one before it allows, and something more.
pub proof fn law_levels_rise(index: int)
    requires
        0 <= index < 19,
    ensures
        ({
            let lower = level_entry(index);
            let higher = level_entry(index + 1);
            &&& lower.level_idc <= higher.level_idc
            &&& lower.max_macroblocks_per_second <= higher.max_macroblocks_per_second
            &&& lower.max_frame_size <= higher.max_frame_size
            &&& lower.max_dpb_macroblocks <= higher.max_dpb_macroblocks
            &&& lower.max_bitrate_kbps <= higher.max_bitrate_kbps
            &&& lower.max_cpb_kbits <= higher.max_cpb_kbits
            &&& lower.max_macroblocks_per_second < higher.max_macroblocks_per_second
                || lower.max_frame_size < higher.max_frame_size || lower.max_bitrate_kbps
                < higher.max_bitrate_kbps
        }),
{
    reveal(level_entry);
}

/// A level will do exactly if a picture has no more macroblocks than it allows, neither side of it is
/// longer than the root of eight times that, frames come slowly enough, and the kept pictures, the
/// rate, and the buffer are within their limits.
pub proof fn law_level_does(requirements: LevelRequirements, level: AvcLevel)
    requires
        requirements.width_in_macroblocks <= 0xffff,
        requirements.height_in_macroblocks <= 0xffff,
        level.max_frame_size <= 0x100_0000,
        level.max_bitrate_kbps <= 0x1000_0000,
        level.max_cpb_kbits <= 0x1000_0000,
    ensures
        requirements.exceeded(level).len() == 0 <==> {
            let r = requirements;
            &&& r.macroblocks_per_frame <= level.max_frame_size
            &&& r.width_in_macroblocks * r.width_in_macroblocks <= 8 * level.max_frame_size
            &&& r.height_in_macroblocks * r.height_in_macroblocks <= 8 * level.max_frame_size
            &&& interval_allowed(
                level,
                r.macroblocks_per_frame as int,
                r.frame_duration_ticks as int,
                r.time_base,
            )
            &&& r.decoded_picture_buffer_macroblocks <= level.max_dpb_macroblocks
            &&& r.bitrate is Some ==> r.bitrate->Some_0 <= 1000 * level.max_bitrate_kbps
            &&& r.cpb_size is Some ==> r.cpb_size->Some_0 <= 1000 * level.max_cpb_kbits
        },
{
    let w = requirements.width_in_macroblocks as int;
    let h = requirements.height_in_macroblocks as int;
    assert(0 <= w * w <= 0xffff * 0xffff && 0 <= h * h <= 0xffff * 0xffff) by (nonlinear_arith)
        requires
            0 <= w <= 0xffff,
            0 <= h <= 0xffff,
    ;
}

/// Frames come slowly enough exactly if the macroblocks of one are no more than the level allows in
/// the time that it lasts.
pub proof fn law_slowly_enough(level: AvcLevel, macroblocks: int, ticks: int, time_base: Rational)
    requires
        0 < ticks,
        0 < time_base.numerator,
        0 < time_base.denominator,
    ensures
        interval_allowed(level, macroblocks, ticks, time_base) <==> macroblocks
            * time_base.denominator <= (level.max_macroblocks_per_second * ticks)
            * time_base.numerator,
        !interval_allowed(level, macroblocks, 0, time_base),
        interval_allowed(level, macroblocks, ticks, time_base) ==> interval_allowed(
            level,
            macroblocks,
            ticks + 1,
            time_base,
        ),
{
    reveal(interval_allowed);
    let rate = level.max_macroblocks_per_second as int;
    let n = time_base.numerator as int;
    assert((rate * ticks) * n <= (rate * (ticks + 1)) * n) by (nonlinear_arith)
        requires
            0 <= rate,
            0 < ticks,
            0 < n,
    ;
}

} // verus!
