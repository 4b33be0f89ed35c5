//! What holds of residuals, of payloads, and of costs.

use vstd::prelude::*;

use crate::b_direct::{index_of, neighbour_index};
use crate::bits::{bits_of, power_of_two};
use crate::encoder::EncoderModel;
use crate::frame::FrameTiming;
use crate::framing::escaped;
use crate::golomb::finished;
use crate::idr::EncodedModel;
use crate::inter_residual::{coded_levels, inter_residual, residual_cost, LumaLevels};
use crate::intra::{block_distance, distances};
use crate::intra_select::{chroma_mode, chroma_mode_cost, luma16_mode, luma16_predicted};
use crate::motion::{motion_entry, MotionState};
use crate::p_select::{
    fresh_trial, quarter_distance, InterModel, PictureModel, ReferencePicture, TrialModel,
};
use crate::partitions::macroblock_parts;
use crate::prediction_laws::law_nearest;
use crate::quant_tables::{law_scan_order, zig_zag};
use crate::quantize::{level_scale, quantized, quantizer, scaling_matrix};
use crate::reconstruct::corrected;
use crate::residual::{
    block_means, bypass_difference, chroma_difference, chroma_mean_level, difference, levels_4x4,
    levels_8x8, mean_level, sum_of, Difference,
};
use crate::scaling::ScalingMatrixPreset;
use crate::transform::{forward_block_8, hadamard_block, hadamard_rows};
use crate::transform_laws::law_levels_in_order;

verus! {

/// Levels stand in scanning order, each found from the coefficient at its place, with the weight of
/// that place.
pub proof fn law_levels_placed(block: Seq<int>, large: Seq<int>, qp: int, matrix: Seq<u8>, k: int)
    ensures
        0 <= k < 16 ==> levels_4x4(block, qp, matrix)[k] == quantized(
            4,
            hadamard_block(block)[zig_zag(4, k)],
            qp,
            zig_zag(4, k),
            matrix,
        ),
        0 <= k < 64 ==> levels_8x8(large, qp, matrix)[k] == quantized(
            8,
            forward_block_8(large)[zig_zag(8, k)],
            qp,
            zig_zag(8, k),
            matrix,
        ),
{
}

/// A block that differs by the same everywhere has nothing but its first level, which counts all of
/// its samples.
pub proof fn law_even_difference(value: int, qp: int, matrix: Seq<u8>, k: int)
    requires
        quantizer(qp),
        scaling_matrix(matrix, 16),
        0 <= k < 16,
    ensures
        ({
            let levels = levels_4x4(Seq::new(16, |i: int| value), qp, matrix);
            &&& levels[0] == quantized(4, 16 * value, qp, 0, matrix)
            &&& k > 0 ==> levels[k] == 0
        }),
{
    let block = Seq::new(16, |i: int| value);
    let rows = hadamard_rows(block);
    let both = hadamard_block(block);
    assert forall|i: int| 0 <= i < 16 implies #[trigger] rows[i] == if i % 4 == 0 {
        4 * value
    } else {
        0
    } by {}
    assert forall|i: int| 0 <= i < 16 implies #[trigger] both[i] == if i == 0 {
        16 * value
    } else {
        0
    } by {
        if i % 4 == 0 {
            assert(rows[0] == 4 * value && rows[4] == 4 * value && rows[8] == 4 * value && rows[12]
                == 4 * value);
        }
    }
    law_scan_order(4);
    assert(zig_zag(4, 0) == 0) by {
        reveal(zig_zag);
    }
    let place = zig_zag(4, k);
    if k > 0 {
        assert(place != 0) by {
            assert(crate::quant_tables::scan(4, zig_zag(4, k)) == k);
            assert(crate::quant_tables::scan(4, zig_zag(4, 0)) == 0);
        }
        law_levels_in_order(4, 0, 0, qp, place, matrix);
    }
}

/// The means of luma blocks are coded sixty-fourfold, each the nearest to the mean of its sixteen
/// differences.
pub proof fn law_block_means(
    source: Seq<u8>,
    stride: int,
    x: int,
    y: int,
    prediction: Seq<u8>,
    column: int,
    row: int,
)
    requires
        0 <= column < 4,
        0 <= row < 4,
    ensures
        ({
            let sum = sum_of(
                difference(source, stride, x, y, prediction, 16, 4 * column, 4 * row, 4),
                16,
            );
            let mean = block_means(source, stride, x, y, prediction)[4 * row + column];
            &&& mean % 64 == 0
            &&& -8 <= sum - 16 * (mean / 64) <= 8
        }),
{
    let b = 4 * row + column;
    assert(b % 4 == column && b / 4 == row);
    let sum = sum_of(
        difference(source, stride, x, y, prediction, 16, 4 * column, 4 * row, 4),
        16,
    );
    law_nearest(sum, 16);
}

/// The level of a transformed mean is the nearest to what it is in steps, which are sixteen times the
/// factor of the first coefficient and double with every six quantizers from thirty-six on.
pub proof fn law_mean_level(transformed: int, qp: int, matrix: Seq<u8>)
    requires
        quantizer(qp),
        level_scale(4, qp, 0, matrix) > 0,
    ensures
        ({
            let scale = level_scale(4, qp, 0, matrix);
            let level = mean_level(transformed, qp, matrix);
            &&& qp < 36 ==> {
                let wanted = transformed * power_of_two((6 - qp / 6) as nat);
                -(16 * scale) <= 2 * (wanted - 16 * scale * level) <= 16 * scale
            }
            &&& qp >= 36 ==> {
                let step = 16 * scale * power_of_two((qp / 6 - 6) as nat);
                -step <= 2 * (transformed - step * level) <= step
            }
        }),
{
    let scale = level_scale(4, qp, 0, matrix);
    if qp < 36 {
        law_nearest(transformed * power_of_two((6 - qp / 6) as nat), 16 * scale);
    } else {
        let power = power_of_two((qp / 6 - 6) as nat) as int;
        crate::bits::lemma_power_monotonic(0, (qp / 6 - 6) as nat);
        assert(16 * scale * power > 0) by (nonlinear_arith)
            requires
                scale > 0,
                power >= 1,
        ;
        law_nearest(transformed, 16 * scale * power);
    }
}

/// The level of a transformed mean of chroma blocks is the nearest to eight times what it is in steps
/// of the first coefficient, which double with every six quantizers.
pub proof fn law_chroma_mean_level(transformed: int, qp: int, matrix: Seq<u8>)
    requires
        quantizer(qp),
        level_scale(4, qp, 0, matrix) > 0,
    ensures
        ({
            let step = 4 * level_scale(4, qp, 0, matrix) * power_of_two((qp / 6) as nat);
            let level = chroma_mean_level(transformed, qp, matrix);
            -step <= 2 * (32 * transformed - step * level) <= step
        }),
{
    let scale = level_scale(4, qp, 0, matrix);
    let power = power_of_two((qp / 6) as nat) as int;
    crate::bits::lemma_power_monotonic(0, (qp / 6) as nat);
    assert(4 * scale * power > 0) by (nonlinear_arith)
        requires
            scale > 0,
            power >= 1,
    ;
    law_nearest(transformed * 32, 4 * scale * power);
}

/// Without loss, samples that are predicted from above are coded by what they differ from the one
/// above, those that are predicted from the left by what they differ from the one to the left, and
/// all others as they are.
pub proof fn law_coded_differences(mode: int)
    ensures
        bypass_difference(0) == Difference::Down,
        bypass_difference(1) == Difference::Across,
        mode != 0 && mode != 1 ==> bypass_difference(mode) == Difference::Plain,
        chroma_difference(Some(1)) == Difference::Across,
        chroma_difference(Some(2)) == Difference::Down,
        chroma_difference(Some(0)) == Difference::Plain,
        chroma_difference(None) == Difference::Plain,
{
}

proof fn lemma_sum_of_sizes(values: Seq<int>, count: int)
    requires
        0 <= count <= values.len(),
        forall|i: int| 0 <= i < values.len() ==> 0 <= #[trigger] values[i],
    ensures
        0 <= sum_of(values, count),
        sum_of(values, count) == 0 <==> forall|i: int| 0 <= i < count ==> #[trigger] values[i] == 0,
    decreases count,
{
    if count > 0 {
        lemma_sum_of_sizes(values, count - 1);
        if sum_of(values, count) == 0 {
            assert(values[count - 1] == 0);
        }
    }
}

/// Two blocks are no distance apart exactly if all their samples are the same.
pub proof fn law_distance(
    source: Seq<u8>,
    stride: int,
    x: int,
    y: int,
    size: int,
    prediction: Seq<u8>,
)
    requires
        0 < size,
    ensures
        block_distance(source, stride, x, y, size, prediction) >= 0,
        block_distance(source, stride, x, y, size, prediction) == 0 <==> forall|column: int, row: int|
            0 <= column < size && 0 <= row < size ==> source[(y + row) * stride + (x + column)]
                == #[trigger] prediction[row * size + column],
{
    let all = distances(source, stride, x, y, size, prediction);
    let count = size * size;
    assert(0 <= count) by (nonlinear_arith)
        requires
            count == size * size,
            0 < size,
    ;
    lemma_sum_of_sizes(all, count);
    if forall|i: int| 0 <= i < count ==> #[trigger] all[i] == 0 {
        assert forall|column: int, row: int| 0 <= column < size && 0 <= row < size implies source[(y
            + row) * stride + (x + column)] == #[trigger] prediction[row * size + column] by {
            let i = row * size + column;
            vstd::arithmetic::div_mod::lemma_fundamental_div_mod_converse(i, size, row, column);
            assert(0 <= i < count) by (nonlinear_arith)
                requires
                    i == row * size + column,
                    count == size * size,
                    0 <= column < size,
                    0 <= row < size,
            ;
            assert(all[i] == 0);
        }
    }
    if forall|column: int, row: int|
        0 <= column < size && 0 <= row < size ==> source[(y + row) * stride + (x + column)]
            == #[trigger] prediction[row * size + column] {
        assert forall|i: int| 0 <= i < count implies #[trigger] all[i] == 0 by {
            let row = i / size;
            let column = i % size;
            vstd::arithmetic::div_mod::lemma_fundamental_div_mod(i, size);
            assert(0 <= row < size && 0 <= column < size && row * size + column == i)
                by (nonlinear_arith)
                requires
                    row == i / size,
                    column == i % size,
                    i == size * row + column,
                    0 <= i < size * size,
                    0 < size,
            ;
            assert(prediction[row * size + column] == prediction[i]);
        }
    }
}

/// A payload in which two zeros are nowhere followed by a byte of at most three needs no guards.
pub proof fn law_no_needless_guards(data: Seq<u8>, zeros: nat)
    requires
        zeros <= 2,
        forall|i: int|
            0 <= i && i + 2 < data.len() && #[trigger] data[i] == 0 && data[i + 1] == 0
                ==> data[i + 2] > 3,
        zeros == 2 && data.len() > 0 ==> data[0] > 3,
        zeros == 1 && data.len() > 1 && data[0] == 0 ==> data[1] > 3,
    ensures
        escaped(data, zeros) == data,
    decreases data.len(),
{
    if data.len() > 0 {
        let rest = data.skip(1);
        assert forall|i: int|
            0 <= i && i + 2 < rest.len() && #[trigger] rest[i] == 0 && rest[i + 1]
                == 0 implies rest[i + 2] > 3 by {
            assert(data[i + 1] == rest[i]);
        }
        let next: nat = if data[0] == 0 {
            zeros + 1
        } else {
            0
        };
        if next == 1 && rest.len() > 1 && rest[0] == 0 {
            assert(data[0] == 0 && data[1] == 0);
        }
        law_no_needless_guards(rest, next);
        assert(escaped(data, zeros) =~= data);
    }
}

/// A guard of three stands between two zeros and a byte of at most three.
pub proof fn law_guard(byte: u8, rest: Seq<u8>)
    requires
        byte <= 3,
    ensures
        ({
            let data = seq![0u8, 0u8, byte] + rest;
            let found = escaped(data, 0);
            found.len() >= 4 && found.subrange(0, 4) == seq![0u8, 0u8, 3u8, byte]
        }),
{
    let data = seq![0u8, 0u8, byte] + rest;
    assert(data.skip(1) =~= seq![0u8, byte] + rest);
    assert(data.skip(1).skip(1) =~= seq![byte] + rest);
    reveal_with_fuel(escaped, 4);
    assert(escaped(data, 0).subrange(0, 4) =~= seq![0u8, 0u8, 3u8, byte]);
}

/// The bits of a number come from the highest to the lowest.
pub proof fn law_highest_first(value: nat, count: nat, i: int)
    requires
        0 <= i < count,
    ensures
        bits_of(value, count).len() == count,
        bits_of(value, count)[i] <==> (value / power_of_two((count - 1 - i) as nat)) % 2 == 1,
    decreases count,
{
    crate::bits::lemma_bits_of_len(value, count);
    crate::bits::lemma_bits_of_len(value / 2, (count - 1) as nat);
    if i == count - 1 {
        assert(power_of_two(0) == 1);
        assert(value / 1 == value);
    } else {
        law_highest_first(value / 2, (count - 1) as nat, i);
        let power = power_of_two((count - 2 - i) as nat);
        crate::bits::lemma_power_monotonic(0, (count - 2 - i) as nat);
        assert(power_of_two((count - 1 - i) as nat) == 2 * power);
        vstd::arithmetic::div_mod::lemma_div_denominator(value as int, 2, power as int);
    }
}

/// A payload ends with a one and with zeros up to the next whole byte.
pub proof fn law_stop_bit(bits: Seq<bool>, i: int)
    requires
        0 <= i < finished(bits).len(),
    ensures
        finished(bits).len() % 8 == 0,
        bits.len() < finished(bits).len() <= bits.len() + 8,
        i < bits.len() ==> finished(bits)[i] == bits[i],
        i == bits.len() ==> finished(bits)[i],
        i > bits.len() ==> !finished(bits)[i],
{
}

/// A macroblock costs how far its prediction is from the source, twice what its vectors differ from
/// those that were expected, and sixteen for each part after the first.
pub proof fn law_macroblock_cost(model: InterModel, shape: int)
    requires
        0 <= shape < 3,
    ensures
        ({
            let parts = macroblock_parts(shape);
            let trial = model.with_parts(fresh_trial(), parts, parts.len() as int);
            let apart = block_distance(
                model.source.luma,
                16 * model.wide,
                16 * model.x,
                16 * model.y,
                16,
                trial.prediction.luma,
            );
            &&& shape == 0 ==> model.shaped(shape).cost == apart + 2 * trial.rate
            &&& shape != 0 ==> model.shaped(shape).cost == apart + 2 * trial.rate + 16
            &&& model.shaped(shape).prediction == trial.prediction
            &&& model.shaped(shape).partitions == trial.selected
        }),
{
    reveal(InterModel::shaped);
}

/// Naming a later picture of the list costs four for each one before it.
pub proof fn law_reference_cost(
    model: PictureModel,
    references: Seq<ReferencePicture>,
    index: int,
)
    ensures
        ({
            let alone = model.with_reference(references[index].planes, index).decided();
            &&& model.decided_from(references, index).cost == alone.cost + 4 * index
            &&& model.decided_from(references, index).prediction == alone.prediction
            &&& model.decided_from(references, index).partitions == alone.partitions
        }),
{
}

/// The quantizer and the buffer of a decoder are told of each packet with all its bits, and the packet
/// carries the times of its frame and the next time at which one is decoded.
pub proof fn law_packet_counted(
    encoder: EncoderModel,
    encoded: EncodedModel,
    timing: FrameTiming,
    key: bool,
    retain: bool,
    order: int,
    most: int,
)
    requires
        encoder.queued(encoded, timing, key, retain, order, most).fault is None,
        8 * encoder.framed(encoded.nal, timing, key, order)->Ok_0.0.len() <= u64::MAX,
    ensures
        ({
            let after = encoder.queued(encoded, timing, key, retain, order, most).state;
            let packet = after.packets.last();
            &&& after.packets.len() == encoder.packets.len() + 1
            &&& packet.pts == timing.pts
            &&& packet.duration == timing.duration
            &&& packet.key == key
            &&& packet.dts == encoder.decode_timestamps[0]
            &&& after.reconstructions == encoder.reconstructions.push(encoded.reconstructed)
            &&& encoder.rate_control matches Some(control) ==> after.rate_control == Some(
                control.observed(8 * packet.data.len() as int, timing.duration),
            )
        }),
{
    reveal(EncoderModel::queued);
}

/// The picture that is implied is the first of those that the macroblocks to the left, above, and above
/// to the right refer to.
pub proof fn law_implied_by(motions: Seq<Seq<Option<MotionState>>>, address: int, wide: int)
    ensures
        ({
            let x = 4 * (address % wide);
            let y = 4 * (address / wide);
            let row = motions[address];
            let left = index_of(motion_entry(motions, row, address, wide, x - 1, y));
            let above = index_of(motion_entry(motions, row, address, wide, x, y - 1));
            let aside = index_of(motion_entry(motions, row, address, wide, x + 4, y - 1));
            let found = neighbour_index(motions, address, wide);
            &&& found is None <==> left is None && above is None && aside is None
            &&& found == left || found == above || found == aside
            &&& left is Some ==> found->Some_0 <= left->Some_0
            &&& above is Some ==> found->Some_0 <= above->Some_0
            &&& aside is Some ==> found->Some_0 <= aside->Some_0
        }),
{
}

/// A macroblock whose quarters are divided on their own costs thirty-two and what its quarters cost; a
/// quarter costs how far its prediction is from the source, twice what its vectors differ from those
/// that were expected, and eight for each part after the first.
pub proof fn law_quarters_cost(model: InterModel, before: TrialModel, quarter: int, kind: int)
    requires
        0 <= quarter < 4,
        0 <= kind < 4,
    ensures
        ({
            let trial = model.quarter_trial(before, quarter, kind);
            let apart = quarter_distance(
                model.source.luma,
                16 * model.wide,
                16 * model.x,
                16 * model.y,
                trial.prediction.luma,
                quarter,
            );
            let more: int = if kind == 0 {
                0
            } else if kind == 3 {
                24
            } else {
                8
            };
            model.quarter_cost(before, quarter, kind) == apart + 2 * trial.rate + more
        }),
        model.quartered(0).cost == 32,
        ({
            let earlier = model.quartered(quarter);
            let chosen = model.quarter_kind(earlier.trial, quarter, 4);
            model.quartered(quarter + 1).cost == earlier.cost + model.quarter_cost(
                earlier.trial,
                quarter,
                chosen,
            )
        }),
        model.quarters().cost == model.quartered(4).cost,
{
    reveal(InterModel::quarters);
}

/// A residual costs the squares of what is left of it, and the square of the quantizer and one for each
/// level that is not zero.
pub proof fn law_residual_cost(
    source: Seq<u8>,
    stride: int,
    x: int,
    y: int,
    prediction: Seq<u8>,
    levels: LumaLevels,
    qp: int,
    preset: ScalingMatrixPreset,
    shown: Seq<u8>,
)
    requires
        shown == corrected(prediction, inter_residual(levels, qp, preset)),
    ensures
        ({
            let left = Seq::new(
                256,
                |i: int|
                    {
                        let d = source[(y + i / 16) * stride + (x + i % 16)] - shown[i];
                        d * d
                    },
            );
            residual_cost(source, stride, x, y, prediction, levels, qp, preset) == sum_of(left, 256)
                + coded_levels(levels) * ((qp + 1) * (qp + 1))
        }),
{
    let left = Seq::new(
        256,
        |i: int|
            {
                let d = source[(y + i / 16) * stride + (x + i % 16)] - shown[i];
                d * d
            },
    );
    assert(left =~= crate::inter_residual::squared_errors(source, stride, x, y, shown));
}

/// No mode of chroma that is available costs less than the one that is chosen, nor does one before it
/// cost as little.
pub proof fn law_cheapest_chroma(
    source_cb: Seq<u8>,
    source_cr: Seq<u8>,
    cb: Seq<u8>,
    cr: Seq<u8>,
    stride: int,
    x: int,
    y: int,
    has_top: bool,
    has_left: bool,
)
    ensures
        ({
            let cost = |mode: int|
                chroma_mode_cost(
                    source_cb,
                    source_cr,
                    cb,
                    cr,
                    stride,
                    x,
                    y,
                    has_top,
                    has_left,
                    mode,
                );
            let chosen = chroma_mode(
                source_cb,
                source_cr,
                cb,
                cr,
                stride,
                x,
                y,
                has_top,
                has_left,
            );
            &&& 0 <= chosen <= 2
            &&& chosen == 1 ==> has_left
            &&& chosen == 2 ==> has_top
            &&& cost(chosen) <= cost(0)
            &&& has_left ==> cost(chosen) <= cost(1)
            &&& has_top ==> cost(chosen) <= cost(2)
            &&& chosen != 0 ==> cost(chosen) < cost(0)
            &&& chosen == 2 && has_left ==> cost(chosen) < cost(1)
        }),
{
}

/// No mode of a whole luma macroblock that is available costs less than the one that is chosen.
pub proof fn law_cheapest_luma(
    source: Seq<u8>,
    plane: Seq<u8>,
    stride: int,
    x: int,
    y: int,
    has_top: bool,
    has_left: bool,
)
    ensures
        ({
            let cost = |mode: int|
                block_distance(
                    source,
                    stride,
                    x,
                    y,
                    16,
                    luma16_predicted(plane, stride, x, y, has_top, has_left, mode),
                );
            let chosen = luma16_mode(source, plane, stride, x, y, has_top, has_left);
            &&& 0 <= chosen <= 2
            &&& chosen == 0 ==> has_top
            &&& chosen == 1 ==> has_left
            &&& has_top ==> cost(chosen) <= cost(0)
            &&& has_left ==> cost(chosen) <= cost(1)
            &&& cost(chosen) <= cost(2)
        }),
{
}

} // verus!
