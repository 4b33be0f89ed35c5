//! What holds of predictions from other pictures, and of the choice between them.

use vstd::prelude::*;

use crate::b_select::mixed;
use crate::config::{AnalysisPreset, Configuration, EncoderMode};
use crate::encoder::{display_order, display_order_lsb, EncoderModel};
use crate::frame::{cropped, padded, sample_distances, scene_cut, FrameModel, PlaneModel};
use crate::inter_predict::{partition_chroma, partition_luma};
use crate::inter_residual::{residual_cost, selected_levels, LumaLevels};
use crate::interpolate::{law_whole_steps, ReferenceModel};
use crate::interpolate_laws::limited;
use crate::intra_select::first_smallest;
use crate::math::{magnitude, rounded_quotient};
use crate::motion::{InterPartition, MotionPredictionKind, MotionVector};
use crate::neighbors::{combined_count, left_entry, predicted_mode, top_entry};
use crate::p_picture::p_skipped;
use crate::p_select::{DecisionModel, InterModel, PictureModel, ReferencePicture, TrialModel};
use crate::partitions::{directed_parts, directed_quarter_parts, macroblock_parts, quarter_parts};
use crate::quantizers::{activity, adapted_qp, macroblock_samples};
use crate::reconstruct::corrected;
use crate::residual::{mean_transform, sum_of};
use crate::scaling::ScalingMatrixPreset;

verus! {

proof fn lemma_in_part(width: int, height: int, column: int, row: int)
    requires
        0 <= column < width,
        0 <= row < height,
    ensures
        0 <= row * width + column < width * height,
        (row * width + column) % width == column,
        (row * width + column) / width == row,
{
    vstd::arithmetic::div_mod::lemma_fundamental_div_mod_converse(
        row * width + column,
        width,
        row,
        column,
    );
    assert(0 <= row * width + column < width * height) by (nonlinear_arith)
        requires
            0 <= column < width,
            0 <= row < height,
    ;
}

/// A luma sample of a part is predicted by the sample of the reference picture at its place, moved
/// by the vector, which counts quarters of a step.
pub proof fn law_moved_luma(
    reference: ReferenceModel,
    x: int,
    y: int,
    part: InterPartition,
    vector: MotionVector,
    column: int,
    row: int,
)
    requires
        part.inside(),
        0 <= column < 4 * part.block_width,
        0 <= row < 4 * part.block_height,
    ensures
        partition_luma(reference, x, y, part, vector)[row * (4 * part.block_width) + column]
            == reference.luma_at(
            4 * (16 * x + 4 * part.block_x + column) + vector.x,
            4 * (16 * y + 4 * part.block_y + row) + vector.y,
        ) as u8,
{
    reveal(partition_luma);
    lemma_in_part(part.block_width * 4, part.block_height * 4, column, row);
    assert(4 * part.block_width == part.block_width * 4);
}

/// A chroma sample of a part is predicted by the sample of the reference picture at its place, moved
/// by the same vector, which there counts eighths of a step.
pub proof fn law_moved_chroma(
    reference: ReferenceModel,
    x: int,
    y: int,
    part: InterPartition,
    vector: MotionVector,
    column: int,
    row: int,
)
    requires
        part.inside(),
        0 <= column < 2 * part.block_width,
        0 <= row < 2 * part.block_height,
    ensures
        partition_chroma(reference, x, y, part, vector)[row * (2 * part.block_width) + column]
            == reference.chroma_at(
            8 * (8 * x + 2 * part.block_x + column) + vector.x,
            8 * (8 * y + 2 * part.block_y + row) + vector.y,
        ) as u8,
{
    reveal(partition_chroma);
    lemma_in_part(part.block_width * 2, part.block_height * 2, column, row);
    assert(2 * part.block_width == part.block_width * 2);
}

/// A vector of whole steps copies samples: four quarters move luma by one sample, eight of them
/// chroma by one.
pub proof fn law_copied(
    reference: ReferenceModel,
    x: int,
    y: int,
    part: InterPartition,
    right: int,
    down: int,
    column: int,
    row: int,
)
    requires
        0 < reference.width,
        0 < reference.height,
        part.inside(),
        -0x1000_0000 < right < 0x0800_0000,
        -0x1000_0000 < down < 0x0800_0000,
        0 <= column < 2 * part.block_width,
        0 <= row < 2 * part.block_height,
    ensures
        ({
            let luma = MotionVector { x: (4 * right) as i32, y: (4 * down) as i32 };
            let chroma = MotionVector { x: (8 * right) as i32, y: (8 * down) as i32 };
            &&& partition_luma(reference, x, y, part, luma)[row * (4 * part.block_width) + column]
                == reference.at(
                16 * x + 4 * part.block_x + column + right,
                16 * y + 4 * part.block_y + row + down,
            ) as u8
            &&& partition_chroma(reference, x, y, part, chroma)[row * (2 * part.block_width)
                + column] == reference.at(
                8 * x + 2 * part.block_x + column + right,
                8 * y + 2 * part.block_y + row + down,
            ) as u8
        }),
{
    let luma = MotionVector { x: (4 * right) as i32, y: (4 * down) as i32 };
    let chroma = MotionVector { x: (8 * right) as i32, y: (8 * down) as i32 };
    law_moved_luma(reference, x, y, part, luma, column, row);
    law_moved_chroma(reference, x, y, part, chroma, column, row);
    law_whole_steps(
        reference,
        16 * x + 4 * part.block_x + column + right,
        16 * y + 4 * part.block_y + row + down,
    );
    law_whole_steps(
        reference,
        8 * x + 2 * part.block_x + column + right,
        8 * y + 2 * part.block_y + row + down,
    );
}

/// A part that is predicted from both sides is the mean of both predictions, rounded up, and one
/// that is predicted from one side is that prediction.
pub proof fn law_both_sides(first: Seq<u8>, second: Seq<u8>, i: int)
    requires
        first.len() == second.len(),
        0 <= i < first.len(),
    ensures
        ({
            let both = mixed(Some(first), Some(second));
            &&& both.len() == first.len()
            &&& first[i] + second[i] <= 2 * both[i] <= first[i] + second[i] + 1
        }),
        mixed(Some(first), None) == first,
        mixed(None, Some(second)) == second,
        mixed(Some(first), Some(second)) == mixed(Some(second), Some(first)),
{
    assert(mixed(Some(first), Some(second)) =~= mixed(Some(second), Some(first)));
}

/// A prediction is corrected by adding the residual, within the range of samples.
pub proof fn law_corrected(prediction: Seq<u8>, residual: Seq<int>, i: int)
    requires
        0 <= i < prediction.len(),
        prediction.len() == residual.len(),
    ensures
        corrected(prediction, residual)[i] == limited(prediction[i] + residual[i]),
{
}

/// Inside of the frame a padded plane holds its samples; beyond it each sample repeats the one before
/// it in its row, and each row the one above it.
pub proof fn law_padding(plane: PlaneModel, coded_width: int, coded_height: int, x: int, y: int)
    requires
        0 < plane.width <= coded_width,
        0 < plane.height <= coded_height,
        0 <= x < coded_width,
        0 <= y < coded_height,
    ensures
        ({
            let all = padded(plane, coded_width, coded_height);
            &&& x < plane.width && y < plane.height ==> all[y * coded_width + x] == plane.data[y
                * plane.stride + x]
            &&& x >= plane.width ==> all[y * coded_width + x] == all[y * coded_width + x - 1]
            &&& y >= plane.height ==> all[y * coded_width + x] == all[(y - 1) * coded_width + x]
        }),
{
    lemma_in_part(coded_width, coded_height, x, y);
    if x >= plane.width {
        lemma_in_part(coded_width, coded_height, x - 1, y);
    }
    if y >= plane.height {
        lemma_in_part(coded_width, coded_height, x, y - 1);
    }
}

proof fn lemma_sum_bounds(values: Seq<int>, low: int, high: int, count: int)
    requires
        0 <= count <= values.len(),
        forall|i: int| 0 <= i < values.len() ==> low <= #[trigger] values[i] <= high,
    ensures
        low * count <= sum_of(values, count) <= high * count,
    decreases count,
{
    if count > 0 {
        lemma_sum_bounds(values, low, high, count - 1);
        assert(low * count == low * (count - 1) + low) by (nonlinear_arith);
        assert(high * count == high * (count - 1) + high) by (nonlinear_arith);
    } else {
        assert(low * 0 == 0 && high * 0 == 0) by (nonlinear_arith);
    }
}

/// A new scene starts where samples differ by the threshold on the mean: surely where all of them
/// differ by that much, surely not where all of them differ by less, and never without a threshold.
pub proof fn law_new_scene(
    frame: FrameModel,
    threshold: int,
    reference: Seq<u8>,
    coded_width: int,
)
    requires
        threshold >= 0,
        0 < frame.planes[0].width,
        0 < frame.planes[0].height,
    ensures
        ({
            let plane = frame.planes[0];
            let apart = |x: int, y: int|
                magnitude(
                    plane.data[y * plane.stride + x] - reference[y * coded_width + x],
                );
            let cut = scene_cut(frame, threshold, reference, coded_width);
            &&& threshold == 0 ==> !cut
            &&& threshold > 0 && (forall|x: int, y: int|
                0 <= x < plane.width && 0 <= y < plane.height ==> #[trigger] apart(x, y)
                    >= threshold) ==> cut
            &&& (forall|x: int, y: int|
                0 <= x < plane.width && 0 <= y < plane.height ==> #[trigger] apart(x, y)
                    < threshold) ==> !cut
        }),
{
    reveal(scene_cut);
    let plane = frame.planes[0];
    let count = plane.width * plane.height;
    let all = sample_distances(plane, reference, coded_width);
    let apart = |x: int, y: int|
        magnitude(plane.data[y * plane.stride + x] - reference[y * coded_width + x]);
    assert(count > 0) by (nonlinear_arith)
        requires
            count == plane.width * plane.height,
            plane.width > 0,
            plane.height > 0,
    ;
    assert forall|i: int| 0 <= i < all.len() implies 0 <= i % plane.width < plane.width && 0 <= i
        / plane.width < plane.height && #[trigger] all[i] == apart(i % plane.width, i / plane.width) by {
        assert(0 <= i % plane.width < plane.width && 0 <= i / plane.width < plane.height)
            by (nonlinear_arith)
            requires
                0 <= i < plane.width * plane.height,
                0 < plane.width,
        ;
    }
    if threshold > 0 && (forall|x: int, y: int|
        0 <= x < plane.width && 0 <= y < plane.height ==> #[trigger] apart(x, y) >= threshold) {
        lemma_sum_bounds(all, threshold, 255, count);
    }
    if forall|x: int, y: int|
        0 <= x < plane.width && 0 <= y < plane.height ==> #[trigger] apart(x, y) < threshold {
        lemma_sum_bounds(all, 0, threshold - 1, count);
        assert((threshold - 1) * count < threshold * count) by (nonlinear_arith)
            requires
                count > 0,
        ;
    }
}

/// A group of pictures starts where pictures are not predicted from others, where there is none to
/// predict from, where the group has as many frames as it may have, and where a new scene starts; and
/// nowhere else.
pub proof fn law_group_starts(encoder: EncoderModel, configuration: Configuration, frame: FrameModel)
    ensures
        configuration.mode != EncoderMode::Inter ==> encoder.starts_group(configuration, frame),
        encoder.references.len() == 0 ==> encoder.starts_group(configuration, frame),
        encoder.frames_since_idr >= configuration.gop_size ==> encoder.starts_group(
            configuration,
            frame,
        ),
        configuration.mode == EncoderMode::Inter && encoder.references.len() > 0
            && encoder.frames_since_idr < configuration.gop_size
            && configuration.scene_cut_threshold == 0 ==> !encoder.starts_group(
            configuration,
            frame,
        ),
{
    reveal(scene_cut);
}

/// Frames are shown two places apart, and four bits of their place are written.
pub proof fn law_display_places(index: int)
    requires
        index >= 0,
    ensures
        display_order(0) == 0,
        display_order(index + 1) == display_order(index) + 2,
        0 <= display_order_lsb(index) < 16,
        display_order_lsb(index) == display_order(index) % 16,
{
}

/// A macroblock that is divided across has an upper and a lower half, one that is divided down a left
/// and a right half; each half may follow the neighbour at its long side or at its free corner.
pub proof fn law_halves()
    ensures
        ({
            let whole = macroblock_parts(0);
            let flat = macroblock_parts(1);
            let tall = macroblock_parts(2);
            let is = |p: InterPartition, x: int, y: int, width: int, height: int|
                p.block_x == x && p.block_y == y && p.block_width == width && p.block_height
                    == height;
            &&& whole.len() == 1 && flat.len() == 2 && tall.len() == 2
            &&& is(whole[0], 0, 0, 4, 4) && whole[0].prediction_kind == MotionPredictionKind::Normal
            &&& is(flat[0], 0, 0, 4, 2) && flat[0].prediction_kind == MotionPredictionKind::Top16x8
            &&& is(flat[1], 0, 2, 4, 2) && flat[1].prediction_kind
                == MotionPredictionKind::Bottom16x8
            &&& is(tall[0], 0, 0, 2, 4) && tall[0].prediction_kind == MotionPredictionKind::Left8x16
            &&& is(tall[1], 2, 0, 2, 4) && tall[1].prediction_kind
                == MotionPredictionKind::Right8x16
        }),
{
}

/// The parts of a quarter come row by row, and all are of the same size: whole, half as high, half as
/// wide, or both.
pub proof fn law_quarters(quarter: int, shape: int, i: int)
    requires
        0 <= quarter < 4,
        0 <= shape < 4,
        0 <= i < quarter_parts(quarter, shape).len(),
    ensures
        ({
            let part = quarter_parts(quarter, shape)[i];
            let width: int = if shape == 2 || shape == 3 {
                1
            } else {
                2
            };
            let height: int = if shape == 1 || shape == 3 {
                1
            } else {
                2
            };
            let right: int = if width == 1 {
                i % 2
            } else {
                0
            };
            let below: int = if height == 2 {
                0
            } else if width == 1 {
                i / 2
            } else {
                i
            };
            let count: int = if shape == 0 {
                1
            } else if shape == 3 {
                4
            } else {
                2
            };
            &&& part.block_width == width && part.block_height == height
            &&& part.block_x == 2 * (quarter % 2) + right
            &&& part.block_y == 2 * (quarter / 2) + below
            &&& part.prediction_kind == MotionPredictionKind::Normal
            &&& quarter_parts(quarter, shape).len() == count
        }),
{
}

/// Of the types of macroblocks with pictures on both sides, the first three are whole and use the
/// earlier picture, the later one, and both; of the others the even ones are divided across and the
/// odd ones down, and two that follow each other use the same pictures.
pub proof fn law_directed_types(kind: int)
    requires
        1 <= kind <= 21,
    ensures
        ({
            let parts = directed_parts(kind);
            let earlier = |i: int| parts[i].direction.earlier();
            let later = |i: int| parts[i].direction.later();
            &&& kind <= 3 ==> parts.len() == 1 && parts[0].partition == macroblock_parts(0)[0]
                && earlier(0) == (kind != 2) && later(0) == (kind != 1)
            &&& kind > 3 ==> {
                let pair = (kind - 4) / 2;
                &&& parts.len() == 2
                &&& parts[0].partition == macroblock_parts(1 + kind % 2)[0]
                &&& parts[1].partition == macroblock_parts(1 + kind % 2)[1]
                &&& earlier(0) <==> pair != 1 && pair != 3 && pair != 5
                &&& later(0) <==> pair == 1 || pair == 3 || pair >= 5
                &&& earlier(1) <==> pair != 1 && pair != 2 && pair != 7
                &&& later(1) <==> pair != 0 && pair != 3 && pair != 6
            }
        }),
{
}

/// Of the types of quarters with pictures on both sides, three are whole, six are halved, and three
/// are quartered; each kind uses the earlier picture, the later one, and both in turn.
pub proof fn law_directed_quarters(quarter: int, kind: int, i: int)
    requires
        0 <= quarter < 4,
        1 <= kind <= 12,
        0 <= i < directed_quarter_parts(quarter, kind).len(),
    ensures
        ({
            let parts = directed_quarter_parts(quarter, kind);
            let shape: int = if kind <= 3 {
                0
            } else if kind >= 10 {
                3
            } else if kind % 2 == 0 {
                1
            } else {
                2
            };
            let turn: int = if kind <= 3 {
                kind - 1
            } else if kind >= 10 {
                kind - 10
            } else {
                (kind - 4) / 2
            };
            &&& parts.len() == quarter_parts(quarter, shape).len()
            &&& parts[i].partition == quarter_parts(quarter, shape)[i]
            &&& parts[i].direction.earlier() == (turn != 1)
            &&& parts[i].direction.later() == (turn != 0)
        }),
{
}

/// Macroblocks as lively as the picture keep its quantizer, livelier ones get no smaller and quieter
/// ones no greater one; the quietest lose the whole strength, the liveliest of a quiet picture gain it.
pub proof fn law_lively(own: int, mean: int, base_qp: int, strength: int)
    requires
        0 <= own,
        0 <= mean,
        0 <= base_qp <= 51,
        0 <= strength,
    ensures
        own == mean ==> adapted_qp(own, mean, base_qp, strength) == base_qp,
        own >= mean ==> adapted_qp(own, mean, base_qp, strength) >= base_qp,
        own <= mean ==> adapted_qp(own, mean, base_qp, strength) <= base_qp,
        own == 0 && mean > 0 && strength <= base_qp ==> adapted_qp(own, mean, base_qp, strength)
            == base_qp - strength,
        mean == 0 && own > 0 && base_qp + strength <= 51 ==> adapted_qp(
            own,
            mean,
            base_qp,
            strength,
        ) == base_qp + strength,
{
    let denominator = if own >= mean && own >= 1 {
        own
    } else if mean >= 1 {
        mean
    } else {
        1
    };
    let value = strength * (own - mean);
    assert(own >= mean ==> value >= 0) by (nonlinear_arith)
        requires
            value == strength * (own - mean),
            0 <= strength,
    ;
    assert(own <= mean ==> value <= 0) by (nonlinear_arith)
        requires
            value == strength * (own - mean),
            0 <= strength,
    ;
    let size = magnitude(value);
    assert((size + denominator / 2) / denominator >= 0 && (size == 0 ==> (size + denominator / 2)
        / denominator == 0)) by (nonlinear_arith)
        requires
            0 <= size,
            1 <= denominator,
    ;
    if own == 0 && mean > 0 || mean == 0 && own > 0 {
        assert(strength * (0 - mean) == -(strength * mean) && strength * (own - 0) == strength * own)
            by (nonlinear_arith);
        assert(0 <= strength * mean && 0 <= strength * own) by (nonlinear_arith)
            requires
                0 <= strength,
                0 <= mean,
                0 <= own,
        ;
        assert((size + denominator / 2) / denominator == strength) by (nonlinear_arith)
            requires
                size == strength * denominator,
                1 <= denominator,
                0 <= strength,
        ;
    }
}

/// A macroblock whose samples are all the same is not lively at all.
pub proof fn law_quiet(luma: Seq<u8>, wide: int, x: int, y: int, value: u8)
    requires
        forall|i: int|
            0 <= i < 256 ==> #[trigger] macroblock_samples(luma, wide, x, y)[i] == value,
    ensures
        activity(luma, wide, x, y) == 0,
{
    reveal(activity);
    let samples = macroblock_samples(luma, wide, x, y);
    lemma_sum_bounds(samples, value as int, value as int, 256);
    let mean = sum_of(samples, 256) / 256;
    let apart = Seq::new(256, |i: int| magnitude(samples[i] - mean));
    lemma_sum_bounds(apart, 0, 0, 256);
}

/// The four means of a chroma plane are taken together: their sum, the differences of its columns and
/// of its rows, and that of its diagonals; doing so twice gives four times each.
pub proof fn law_chroma_means(a: int, b: int, c: int, d: int)
    ensures
        ({
            let m = |k: int| mean_transform(a, b, c, d, k);
            &&& m(0) == (a + b) + (c + d)
            &&& m(1) == (a + c) - (b + d)
            &&& m(2) == (a + b) - (c + d)
            &&& m(3) == (a + d) - (b + c)
            &&& mean_transform(m(0), m(1), m(2), m(3), 0) == 4 * a
            &&& mean_transform(m(0), m(1), m(2), m(3), 1) == 4 * b
            &&& mean_transform(m(0), m(1), m(2), m(3), 2) == 4 * c
            &&& mean_transform(m(0), m(1), m(2), m(3), 3) == 4 * d
        }),
{
}

/// Division to the nearest treats both signs alike, and is off by at most a half.
pub proof fn law_nearest(value: int, divisor: int)
    requires
        0 < divisor,
    ensures
        rounded_quotient(-value, divisor) == -rounded_quotient(value, divisor),
        -divisor <= 2 * (value - divisor * rounded_quotient(value, divisor)) <= divisor,
{
    let size = magnitude(value);
    let up = (size + divisor / 2) / divisor;
    assert(-divisor <= 2 * (size - divisor * up) <= divisor) by (nonlinear_arith)
        requires
            up == (size + divisor / 2) / divisor,
            0 < divisor,
            0 <= size,
    ;
    assert(divisor * (-up) == -(divisor * up)) by (nonlinear_arith);
    assert((0 + divisor / 2) / divisor == 0) by (nonlinear_arith)
        requires
            0 < divisor,
    ;
}

/// Where everything is searched, no way to divide a macroblock is cheaper than the one that is
/// chosen; a quick search may also take the whole macroblock if it is cheap.
pub proof fn law_cheapest_parts(model: InterModel)
    ensures
        ({
            let cost = model.decided().cost;
            &&& cost <= model.shaped(0).cost
            &&& model.analysis == AnalysisPreset::Full || model.shaped(0).cost > 4096 ==> cost
                <= model.shaped(1).cost && cost <= model.shaped(2).cost && cost
                <= model.quarters().cost
            &&& model.decided() == model.shaped(0) || model.decided() == model.shaped(1)
                || model.decided() == model.shaped(2) || model.decided() == model.quarters()
        }),
{
    reveal(InterModel::decided);
}

/// No way to divide a quarter is cheaper than the one that is chosen.
pub proof fn law_cheapest_quarter(
    model: InterModel,
    before: TrialModel,
    quarter: int,
    count: int,
    kind: int,
)
    requires
        1 <= count,
        0 <= kind < count,
    ensures
        0 <= model.quarter_kind(before, quarter, count) < count,
        model.quarter_cost(before, quarter, model.quarter_kind(before, quarter, count))
            <= model.quarter_cost(before, quarter, kind),
    decreases count,
{
    if count > 1 {
        if kind < count - 1 {
            law_cheapest_quarter(model, before, quarter, count - 1, kind);
        } else {
            law_cheapest_quarter(model, before, quarter, count - 1, 0);
        }
    }
}

/// No reference picture that is tried leads to a cheaper prediction than the one that is chosen; where
/// everything is searched, all of them are tried.
pub proof fn law_cheapest_reference(
    model: PictureModel,
    references: Seq<ReferencePicture>,
    count: int,
    index: int,
)
    requires
        1 <= count,
        0 <= index < count,
    ensures
        model.best_reference(references, count).cost <= model.decided_from(references, index).cost,
        model.analysis == AnalysisPreset::Full ==> model.tried_references(references)
            == references.len(),
    decreases count,
{
    if count > 1 {
        if index < count - 1 {
            law_cheapest_reference(model, references, count - 1, index);
        } else {
            law_cheapest_reference(model, references, count - 1, 0);
        }
    }
}

/// Of the two transforms of a residual the one that costs less is chosen, where both are allowed.
pub proof fn law_cheapest_transform(
    source: Seq<u8>,
    stride: int,
    x: int,
    y: int,
    prediction: Seq<u8>,
    qp: int,
    preset: ScalingMatrixPreset,
)
    ensures
        ({
            let chosen = |large: bool|
                selected_levels(source, stride, x, y, prediction, qp, large, false, preset);
            let cost = |levels: LumaLevels|
                residual_cost(source, stride, x, y, prediction, levels, qp, preset);
            &&& cost(chosen(true)) <= cost(chosen(false))
            &&& chosen(false) is FourByFour
            &&& chosen(true) is FourByFour || chosen(true) is EightByEight
            &&& selected_levels(source, stride, x, y, prediction, qp, true, true, preset)
                is BypassFourByFour
        }),
{
}

/// The first of the smallest costs is chosen, among those that exist.
pub proof fn law_first_smallest(
    has_first: bool,
    first: int,
    has_second: bool,
    second: int,
    third: int,
)
    ensures
        ({
            let choice = first_smallest(has_first, first, has_second, second, third);
            let cost = if choice == 0 {
                first
            } else if choice == 1 {
                second
            } else {
                third
            };
            &&& 0 <= choice <= 2
            &&& choice == 0 ==> has_first
            &&& choice == 1 ==> has_second
            &&& has_first ==> cost <= first
            &&& has_second ==> cost <= second
            &&& cost <= third
            &&& choice == 1 && has_first ==> cost < first
            &&& choice == 2 ==> (has_first ==> cost < first) && (has_second ==> cost < second)
        }),
{
}

/// A macroblock needs no bits exactly if it is whole, refers to the first picture, moves as expected,
/// and has no residual.
pub proof fn law_no_bits(decision: DecisionModel, pattern: int, expected: MotionVector)
    ensures
        p_skipped(decision, pattern, expected) <==> {
            &&& pattern == 0
            &&& decision.macroblock_type == 0
            &&& decision.partitions[0].reference_index == 0
            &&& decision.partitions[0].motion.x == expected.x
            &&& decision.partitions[0].motion.y == expected.y
        },
{
}

/// As many coefficients are expected as the neighbours have on the mean, rounded up; a neighbour that
/// does not exist does not count.
pub proof fn law_expected_count(left: u8, top: u8)
    ensures
        left + top <= 2 * combined_count(Some(left), Some(top)) <= left + top + 1,
        combined_count(Some(left), None) == left,
        combined_count(None, Some(top)) == top,
        combined_count(None, None) == 0,
{
}

/// The mode that is expected is the smaller one of the neighbours, or that of the mean where one of
/// them does not exist.
pub proof fn law_expected_mode(modes: Seq<Seq<u8>>, address: int, block: int, wide: int)
    ensures
        ({
            let left = left_entry(modes, address, block, wide);
            let top = top_entry(modes, address, block, wide);
            let mode = predicted_mode(modes, address, block, wide);
            &&& left is None || top is None ==> mode == 2
            &&& left is Some && top is Some ==> mode <= left->Some_0 && mode <= top->Some_0 && (mode
                == left->Some_0 || mode == top->Some_0)
        }),
{
    reveal(predicted_mode);
}

/// The neighbours of a block are the blocks to the left of it and above it, in the same macroblock or
/// in the one beside it, where there is one.
pub proof fn law_neighbours<T>(
    entries: Seq<Seq<T>>,
    address: int,
    wide: int,
    column: int,
    row: int,
)
    requires
        0 < wide,
        0 <= address,
        0 <= column < 4,
        0 <= row < 4,
    ensures
        ({
            let index = |x: int, y: int| 8 * (y / 2) + 4 * (x / 2) + 2 * (y % 2) + x % 2;
            let left = left_entry(entries, address, index(column, row), wide);
            let top = top_entry(entries, address, index(column, row), wide);
            &&& column > 0 ==> left == Some(entries[address][index(column - 1, row)])
            &&& column == 0 && address % wide > 0 ==> left == Some(entries[address - 1][index(
                3,
                row,
            )])
            &&& column == 0 && address % wide == 0 ==> left is None
            &&& row > 0 ==> top == Some(entries[address][index(column, row - 1)])
            &&& row == 0 && address >= wide ==> top == Some(entries[address - wide][index(
                column,
                3,
            )])
            &&& row == 0 && address < wide ==> top is None
        }),
{
    let block = 8 * (row / 2) + 4 * (column / 2) + 2 * (row % 2) + column % 2;
    assert(crate::residual::block_column(block) == column);
    assert(crate::residual::block_row(block) == row);
}

/// A shown sample is the coded one at its place.
pub proof fn law_cropping(
    coded: Seq<u8>,
    coded_width: int,
    width: int,
    height: int,
    x: int,
    y: int,
)
    requires
        0 <= x < width,
        0 <= y < height,
    ensures
        cropped(coded, coded_width, width, height).len() == width * height,
        cropped(coded, coded_width, width, height)[y * width + x] == coded[y * coded_width + x],
{
    lemma_in_part(width, height, x, y);
    assert(0 <= width * height) by (nonlinear_arith)
        requires
            0 <= width,
            0 <= height,
    ;
}

} // verus!
