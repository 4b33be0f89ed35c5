//! The quantizers of macroblocks.

use vstd::prelude::*;

use crate::math::{clamp, clamped, magnitude, round_div, rounded_quotient};
use crate::picture::{lemma_macroblock_inside, lemma_plane_size};
use crate::plane::{region_inside, sample_in};
use crate::quantize::quantizer;
use crate::residual::sum_of;

verus! {

/// The change from one quantizer to the next as it is coded.
pub open spec fn qp_delta(previous: int, desired: int) -> int {
    let difference = desired - previous;
    if difference < -26 {
        difference + 52
    } else if difference > 25 {
        difference - 52
    } else {
        difference
    }
}

/// A coded change of the quantizer stays in its range, and gives the desired quantizer back.
pub proof fn law_qp_delta(previous: int, desired: int)
    requires
        quantizer(previous),
        quantizer(desired),
    ensures
        -26 <= qp_delta(previous, desired) <= 25,
        (previous + qp_delta(previous, desired) + 52) % 52 == desired,
        qp_delta(previous, desired) == 0 <==> previous == desired,
{
}

/// The change from one quantizer to the next as it is coded.
pub fn macroblock_qp_delta(previous_qp: i32, desired_qp: i32) -> (delta: i32)
    requires
        quantizer(previous_qp as int),
        quantizer(desired_qp as int),
    ensures
        delta == qp_delta(previous_qp as int, desired_qp as int),
        -26 <= delta <= 25,
{
    let difference: i32 = desired_qp - previous_qp;
    if difference < -26 {
        difference + 52
    } else if difference > 25 {
        difference - 52
    } else {
        difference
    }
}

/// The luma samples of a macroblock, row by row.
pub open spec fn macroblock_samples(luma: Seq<u8>, wide: int, x: int, y: int) -> Seq<int> {
    Seq::new(256, |i: int| luma[(y * 16 + i / 16) * (16 * wide) + (x * 16 + i % 16)] as int)
}

/// How far the samples of a macroblock are from their mean, in all.
#[verifier::opaque]
pub open spec fn activity(luma: Seq<u8>, wide: int, x: int, y: int) -> int {
    let samples = macroblock_samples(luma, wide, x, y);
    let mean = sum_of(samples, 256) / 256;
    sum_of(Seq::new(256, |i: int| magnitude(samples[i] - mean)), 256)
}

/// The activities of all macroblocks, row by row.
pub open spec fn activities(luma: Seq<u8>, wide: int, high: int) -> Seq<int> {
    Seq::new((wide * high) as nat, |a: int| activity(luma, wide, a % wide, a / wide))
}

/// The quantizer of a macroblock of some activity in a picture of some mean activity.
pub open spec fn adapted_qp(own: int, mean: int, base_qp: int, strength: int) -> int {
    let denominator = if own >= mean && own >= 1 {
        own
    } else if mean >= 1 {
        mean
    } else {
        1
    };
    clamped(base_qp + rounded_quotient(strength * (own - mean), denominator), 0, 51)
}

/// The quantizers of all macroblocks, row by row.
#[verifier::opaque]
pub open spec fn adaptive_qps(
    luma: Seq<u8>,
    wide: int,
    high: int,
    base_qp: int,
    strength: int,
) -> Seq<int> {
    if strength == 0 {
        Seq::new((wide * high) as nat, |a: int| base_qp)
    } else {
        let all = activities(luma, wide, high);
        let mean = sum_of(all, all.len() as int) / (all.len() as int);
        Seq::new((wide * high) as nat, |a: int| adapted_qp(all[a], mean, base_qp, strength))
    }
}

/// Measures how far the samples of a macroblock are from their mean, in all.
fn measure_activity(luma: &[u8], wide: usize, high: usize, x: usize, y: usize) -> (result: u64)
    requires
        luma@.len() == (16 * wide) * (16 * high),
        x < wide,
        y < high,
    ensures
        result == activity(luma@, wide as int, x as int, y as int),
        result <= 65280,
{
    reveal(activity);
    let length: usize = luma.len();
    proof {
        lemma_macroblock_inside(wide as int, high as int, x as int, y as int, 16);
    }
    let ghost samples = macroblock_samples(luma@, wide as int, x as int, y as int);
    let mut sum: u64 = 0;
    let mut i: usize = 0;
    while i < 256
        invariant
            i <= 256,
            luma@.len() == (16 * wide) * (16 * high),
            region_inside(luma@.len() as int, 16 * wide as int, x * 16, y * 16, 16, 16),
            16 * wide <= length,
            16 * high <= length,
            x * 16 + 16 <= 16 * wide,
            y * 16 + 16 <= 16 * high,
            samples == macroblock_samples(luma@, wide as int, x as int, y as int),
            sum == sum_of(samples, i as int),
            sum <= 255 * i,
        decreases 256 - i,
    {
        let sample: u8 = sample_in(luma, wide * 16, x * 16, y * 16, 16, 16, i % 16, i / 16);
        assert(samples[i as int] == sample);
        sum = sum + sample as u64;
        i = i + 1;
    }
    let mean: u64 = sum / 256;
    let ghost distances = Seq::new(256, |i: int| magnitude(samples[i] - mean));
    let mut total: u64 = 0;
    let mut j: usize = 0;
    while j < 256
        invariant
            j <= 256,
            luma@.len() == (16 * wide) * (16 * high),
            region_inside(luma@.len() as int, 16 * wide as int, x * 16, y * 16, 16, 16),
            16 * wide <= length,
            16 * high <= length,
            x * 16 + 16 <= 16 * wide,
            y * 16 + 16 <= 16 * high,
            samples == macroblock_samples(luma@, wide as int, x as int, y as int),
            mean <= 255,
            distances == Seq::new(256, |i: int| magnitude(samples[i] - mean)),
            total == sum_of(distances, j as int),
            total <= 255 * j,
        decreases 256 - j,
    {
        let sample: u64 = sample_in(luma, wide * 16, x * 16, y * 16, 16, 16, j % 16, j / 16) as u64;
        assert(samples[j as int] == sample);
        let distance: u64 = if sample >= mean {
            sample - mean
        } else {
            mean - sample
        };
        assert(distances[j as int] == distance);
        total = total + distance;
        j = j + 1;
    }
    total
}

/// Finds the quantizer of a macroblock of some activity.
fn adapt_qp(own: u64, mean: u64, base_qp: i32, strength: u8) -> (qp: i32)
    requires
        own <= 65280,
        mean <= 65280,
        quantizer(base_qp as int),
        strength <= 12,
    ensures
        qp == adapted_qp(own as int, mean as int, base_qp as int, strength as int),
        quantizer(qp as int),
{
    let mut denominator: u64 = own;
    if mean > denominator {
        denominator = mean;
    }
    if denominator < 1 {
        denominator = 1;
    }
    let difference: i64 = own as i64 - mean as i64;
    assert(-0x10_0000 <= strength * difference <= 0x10_0000) by (nonlinear_arith)
        requires
            0 <= strength <= 12,
            -65280 <= difference <= 65280,
    ;
    let offset: i64 = round_div(strength as i64 * difference, denominator as i64);
    clamp(base_qp as i64 + offset, 0, 51) as i32
}

proof fn lemma_sum_bound(values: Seq<int>, count: int, limit: int)
    requires
        0 <= count <= values.len(),
        0 <= limit,
        forall|i: int| 0 <= i < values.len() ==> 0 <= #[trigger] values[i] <= limit,
    ensures
        0 <= sum_of(values, count) <= limit * count,
    decreases count,
{
    if count > 0 {
        lemma_sum_bound(values, count - 1, limit);
        assert(limit * count == limit * (count - 1) + limit) by (nonlinear_arith);
    }
}

/// Chooses the quantizers of all macroblocks, finer ones where the picture is quiet.
pub fn adaptive_macroblock_qps(
    luma: &[u8],
    macroblocks_wide: usize,
    macroblocks_high: usize,
    base_qp: i32,
    strength: u8,
) -> (qps: Vec<i32>)
    requires
        luma@.len() == (16 * macroblocks_wide) * (16 * macroblocks_high),
        0 < macroblocks_wide,
        0 < macroblocks_high,
        quantizer(base_qp as int),
        strength <= 12,
        macroblocks_wide * macroblocks_high <= 0x1_0000_0000,
    ensures
        qps@.len() == macroblocks_wide * macroblocks_high,
        forall|a: int|
            0 <= a < qps@.len() ==> (#[trigger] qps@[a]) == adaptive_qps(
                luma@,
                macroblocks_wide as int,
                macroblocks_high as int,
                base_qp as int,
                strength as int,
            )[a] && quantizer(qps@[a] as int),
{
    reveal(adaptive_qps);
    let length: usize = luma.len();
    proof {
        lemma_plane_size(macroblocks_wide as int, macroblocks_high as int, 16);
    }
    let count: usize = macroblocks_wide * macroblocks_high;
    if strength == 0 {
        return vec![base_qp; count];
    }
    let ghost all = activities(luma@, macroblocks_wide as int, macroblocks_high as int);
    let mut found: Vec<u64> = Vec::new();
    let mut sum: u64 = 0;
    let mut address: usize = 0;
    while address < count
        invariant
            address <= count,
            count == macroblocks_wide * macroblocks_high,
            count <= 0x1_0000_0000,
            0 < macroblocks_wide,
            luma@.len() == (16 * macroblocks_wide) * (16 * macroblocks_high),
            all == activities(luma@, macroblocks_wide as int, macroblocks_high as int),
            found@.len() == address,
            forall|a: int|
                0 <= a < address ==> (#[trigger] found@[a]) == all[a] && found@[a] <= 65280,
            sum == sum_of(all, address as int),
            sum <= 65280 * address,
        decreases count - address,
    {
        let x: usize = address % macroblocks_wide;
        let y: usize = address / macroblocks_wide;
        assert(y < macroblocks_high) by {
            vstd::arithmetic::div_mod::lemma_fundamental_div_mod(
                address as int,
                macroblocks_wide as int,
            );
            if y >= macroblocks_high {
                assert(macroblocks_wide * y >= macroblocks_wide * macroblocks_high)
                    by (nonlinear_arith)
                    requires
                        y >= macroblocks_high,
                ;
            }
        }
        let own: u64 = measure_activity(luma, macroblocks_wide, macroblocks_high, x, y);
        assert(all[address as int] == own);
        found.push(own);
        sum = sum + own;
        address = address + 1;
    }
    let mean: u64 = sum / count as u64;
    proof {
        assert(mean <= 65280) by (nonlinear_arith)
            requires
                mean == sum / count as u64,
                sum <= 65280 * count,
                0 < count,
        ;
    }
    let mut qps: Vec<i32> = Vec::new();
    let mut next: usize = 0;
    while next < count
        invariant
            next <= count,
            found@.len() == count,
            all.len() == count,
            mean <= 65280,
            quantizer(base_qp as int),
            strength <= 12,
            qps@.len() == next,
            forall|a: int|
                0 <= a < count ==> (#[trigger] found@[a]) == all[a] && found@[a] <= 65280,
            forall|a: int|
                0 <= a < next ==> (#[trigger] qps@[a]) == adapted_qp(
                    all[a],
                    mean as int,
                    base_qp as int,
                    strength as int,
                ) && quantizer(qps@[a] as int),
        decreases count - next,
    {
        assert(found@[next as int] <= 65280);
        let qp: i32 = adapt_qp(found[next], mean, base_qp, strength);
        qps.push(qp);
        next = next + 1;
    }
    qps
}

/// Without adaptation every macroblock has the picture's quantizer.
pub proof fn law_no_adaptation(luma: Seq<u8>, wide: int, high: int, base_qp: int, address: int)
    requires
        0 <= address < wide * high,
    ensures
        adaptive_qps(luma, wide, high, base_qp, 0)[address] == base_qp,
{
    reveal(adaptive_qps);
}

/// Adaptation moves a quantizer by no more than its strength.
pub proof fn law_adaptation_bounded(own: int, mean: int, base_qp: int, strength: int)
    requires
        0 <= own,
        0 <= mean,
        quantizer(base_qp),
        0 <= strength,
    ensures
        base_qp - strength <= adapted_qp(own, mean, base_qp, strength) <= base_qp + strength,
{
    let denominator = if own >= mean && own >= 1 {
        own
    } else if mean >= 1 {
        mean
    } else {
        1
    };
    let size = magnitude(own - mean);
    let value = strength * (own - mean);
    assert(magnitude(value) <= strength * denominator) by (nonlinear_arith)
        requires
            value == strength * (own - mean),
            -denominator <= own - mean <= denominator,
            0 <= strength,
    ;
    let quotient = (magnitude(value) + denominator / 2) / denominator;
    assert(quotient <= strength) by (nonlinear_arith)
        requires
            quotient == (magnitude(value) + denominator / 2) / denominator,
            0 <= magnitude(value) <= strength * denominator,
            0 < denominator,
    ;
    assert(0 <= quotient) by (nonlinear_arith)
        requires
            quotient == (magnitude(value) + denominator / 2) / denominator,
            0 <= magnitude(value),
            0 < denominator,
    ;
}

} // verus!
