//! Pictures that come back as they were: those of plain samples, and those that bypass the
//! transform.

use vstd::prelude::*;

use crate::b_picture::{
    b_coded, b_macroblock, b_model, b_start, cavlc_b_picture, Surroundings,
};
use crate::b_select::{with_b_prediction, BModel, BTrialModel};
use crate::cabac_b::{
    b_blank, b_marked_model, b_told_motion, cabac_b_coded, cabac_b_macroblock, cabac_b_picture,
    BMarked,
};
use crate::cabac_intra::{
    cabac_coded, cabac_intra4_macroblock, cabac_predicted_idr, going_on, intra_start,
};
use crate::cabac_p::{
    cabac_p_coded, cabac_p_macroblock, cabac_p_picture, p_blank, p_told_motion, PMarked,
};
use crate::cabac_pcm::cabac_pcm_idr;
use crate::cavlc_intra::intra4_macroblock;
use crate::config::{Configuration, EncoderMode};
use crate::contexts::Tables;
use crate::deblock::block_at;
use crate::frame::{frame_fits, law_padding_keeps_samples, padded_samples, visible, FrameModel};
use crate::idr::{cavlc_idr, idr_coded, idr_site, uses_intra4};
use crate::inter_coding::{inter_coded, inter_luma_levels, inter_luma_plane};
use crate::inter_predict::{macroblock_sized, with_prediction};
use crate::inter_residual::{law_bypass_chroma_lossless, law_bypass_luma_lossless, unscanned};
use crate::intra_coding::{
    block_site_4, chroma_coded_intra, chroma_plane_coded, chroma_site_levels, luma_coded_4,
};
use crate::motion::InterPartition;
use crate::p_picture::{
    cavlc_p_picture, inter_site, p_coded, p_decision, p_macroblock, p_start, picture_model, PState,
};
use crate::p_select::{fresh_trial, InterModel, PictureModel, ReferencePicture, TrialModel};
use crate::partitions::{
    directed_parts, directed_quarter_parts, macroblock_parts, quarter_parts, DirectedPart,
};

use crate::picture::{chroma_qp_of, planes_fit, Samples, SiteModel};
use crate::pictures::{coded_b, coded_idr, coded_p};
use crate::plane::{region, with_region};
use crate::quant_tables::{law_scan_order, scan, zig_zag};
use crate::reconstruct::corrected;
use crate::residual::{
    block_column, block_row, bypass_difference, difference, differences, intra4_levels,
    law_block_order, law_differences_summed, summed,
};
use crate::scaling::matrix_4x4;

verus! {

/// Whether a frame is shown as another is: its samples, and when and how they are shown, are the
/// same. Only what lies between the rows of its planes may differ.
pub open spec fn same_picture(first: FrameModel, second: FrameModel) -> bool {
    &&& first == (FrameModel { planes: first.planes, ..second })
    &&& first.planes.len() == 3
    &&& second.planes.len() == 3
    &&& forall|c: int|
        0 <= c < 3 ==> (#[trigger] first.planes[c]).width == second.planes[c].width
            && first.planes[c].height == second.planes[c].height
    &&& forall|c: int, x: int, y: int|
        0 <= c < 3 && 0 <= x < second.planes[c].width && 0 <= y < second.planes[c].height
            ==> #[trigger] shown(first, c, x, y) == shown(second, c, x, y)
}

/// The sample in column `x` and row `y` of a plane of a frame.
pub open spec fn shown(frame: FrameModel, component: int, x: int, y: int) -> u8 {
    frame.planes[component].data[y * frame.planes[component].stride + x]
}

/// The number of the macroblock that a sample belongs to, for macroblocks of `side` by `side`
/// samples.
spec fn macroblock_of(place: int, wide: int, side: int) -> int {
    (place / (side * wide) / side) * wide + (place % (side * wide)) / side
}

/// Whether a plane agrees with the source in its first `count` macroblocks.
spec fn agrees(plane: Seq<u8>, source: Seq<u8>, wide: int, side: int, count: int) -> bool {
    &&& plane.len() == source.len()
    &&& forall|p: int|
        0 <= p < plane.len() && macroblock_of(p, wide, side) < count ==> #[trigger] plane[p]
            == source[p]
}

/// Whether all planes agree with the source in their first `count` macroblocks.
spec fn planes_agree(planes: Samples, source: Samples, wide: int, count: int) -> bool {
    &&& agrees(planes.luma, source.luma, wide, 16, count)
    &&& agrees(planes.cb, source.cb, wide, 8, count)
    &&& agrees(planes.cr, source.cr, wide, 8, count)
}

/// A sample of a macroblock lies in its rows and columns.
proof fn lemma_place(place: int, wide: int, side: int, x: int, y: int)
    requires
        side == 16 || side == 8,
        0 < wide,
        0 <= place,
        0 <= x < wide,
        macroblock_of(place, wide, side) == y * wide + x,
    ensures
        x * side <= place % (side * wide) < x * side + side,
        y * side <= place / (side * wide) < y * side + side,
{
    let stride = side * wide;
    let column = place % stride;
    let row = place / stride;
    assert(0 < stride);
    vstd::arithmetic::div_mod::lemma_fundamental_div_mod(place, stride);
    assert(0 <= column < stride);
    if side == 16 {
        assert(0 <= column / 16 < wide);
    } else {
        assert(0 <= column / 8 < wide);
    }
    vstd::arithmetic::div_mod::lemma_fundamental_div_mod_converse(
        macroblock_of(place, wide, side),
        wide,
        row / side,
        column / side,
    );
    vstd::arithmetic::div_mod::lemma_fundamental_div_mod_converse(y * wide + x, wide, y, x);
    assert(row / side == y && column / side == x);
    if side == 16 {
        assert(row / 16 == y && column / 16 == x);
        assert(x * side == 16 * x && y * side == 16 * y);
    } else {
        assert(row / 8 == y && column / 8 == x);
        assert(x * side == 8 * x && y * side == 8 * y);
    }
}

/// The number of the macroblock of a sample.
proof fn lemma_macroblock_bound(place: int, wide: int, high: int, side: int)
    requires
        side == 16 || side == 8,
        0 < wide,
        0 < high,
        0 <= place < (side * wide) * (side * high),
    ensures
        0 <= macroblock_of(place, wide, side) < wide * high,
{
    let stride = side * wide;
    let column = place % stride;
    let row = place / stride;
    assert(0 < stride);
    vstd::arithmetic::div_mod::lemma_fundamental_div_mod(place, stride);
    assert(row < side * high) by (nonlinear_arith)
        requires
            place < stride * (side * high),
            place == stride * row + column,
            0 <= column,
            0 < stride,
    ;
    vstd::arithmetic::div_mod::lemma_div_pos_is_pos(place, stride);
    assert(0 <= row / side < high && 0 <= column / side < wide) by {
        if side == 16 {
        }
    }
    let a = row / side;
    let b = column / side;
    assert(0 <= a * wide + b < wide * high) by (nonlinear_arith)
        requires
            0 <= a < high,
            0 <= b < wide,
    ;
}

/// A macroblock that is replaced by that of the source agrees with it.
proof fn lemma_agrees_step(
    plane: Seq<u8>,
    source: Seq<u8>,
    wide: int,
    side: int,
    x: int,
    y: int,
)
    requires
        side == 16 || side == 8,
        0 < wide,
        0 <= x < wide,
        0 <= y,
        agrees(plane, source, wide, side, y * wide + x),
    ensures
        agrees(
            with_region(
                plane,
                side * wide,
                x * side,
                y * side,
                side,
                side,
                region(source, side * wide, x * side, y * side, side, side),
            ),
            source,
            wide,
            side,
            y * wide + x + 1,
        ),
{
    reveal(with_region);
    let stride = side * wide;
    let samples = region(source, stride, x * side, y * side, side, side);
    let after = with_region(plane, stride, x * side, y * side, side, side, samples);
    assert forall|p: int|
        0 <= p < after.len() && macroblock_of(p, wide, side) < y * wide + x
            + 1 implies #[trigger] after[p] == source[p] by {
        let column = p % stride - x * side;
        let row = p / stride - y * side;
        if 0 <= column < side && 0 <= row < side {
            let i = row * side + column;
            if side == 16 {
                assert(i / 16 == row && i % 16 == column);
                assert(side * side == 256) by (nonlinear_arith)
                    requires
                        side == 16,
                ;
                assert(0 <= i < 256);
            } else {
                assert(i / 8 == row && i % 8 == column);
                assert(side * side == 64) by (nonlinear_arith)
                    requires
                        side == 8,
                ;
                assert(0 <= i < 64);
            }
            assert(samples[i] == source[(y * side + row) * stride + (x * side + column)]);
            vstd::arithmetic::div_mod::lemma_fundamental_div_mod(p, stride);
            assert((p / stride) * stride == stride * (p / stride)) by (nonlinear_arith);
        } else if macroblock_of(p, wide, side) == y * wide + x {
            lemma_place(p, wide, side, x, y);
        }
    }
}

/// A plane that agrees with the source in all macroblocks equals it.
proof fn lemma_agrees_all(plane: Seq<u8>, source: Seq<u8>, wide: int, high: int, side: int)
    requires
        side == 16 || side == 8,
        0 < wide,
        0 < high,
        source.len() == (side * wide) * (side * high),
        agrees(plane, source, wide, side, wide * high),
    ensures
        plane == source,
{
    assert forall|p: int| 0 <= p < plane.len() implies #[trigger] plane[p] == source[p] by {
        lemma_macroblock_bound(p, wide, high, side);
    }
    assert(plane =~= source);
}

/// Whether a sample lies in one of the first `count` four-by-four blocks of a macroblock.
spec fn in_blocks(place: int, site: SiteModel, count: int) -> bool {
    let column = place % (16 * site.wide) - site.x * 16;
    let row = place / (16 * site.wide) - site.y * 16;
    0 <= column < 16 && 0 <= row < 16 && block_at(column / 4, row / 4) < count
}

/// A sample after one more block that bypasses the transform.
proof fn lemma_block_bypassed(site: SiteModel, before: Seq<u8>, block: int, p: int)
    requires
        0 < site.wide,
        0 <= site.x < site.wide,
        0 <= site.y,
        0 <= block < 16,
        0 <= p < before.len(),
        before.len() == site.source.luma.len(),
    ensures
        ({
            let spot = block_site_4(site, before, block);
            let samples = region(spot.source, spot.stride, spot.x, spot.y, 4, 4);
            let after = with_region(before, spot.stride, spot.x, spot.y, 4, 4, samples);
            after[p] == if in_blocks(p, site, block + 1) && !in_blocks(p, site, block) {
                site.source.luma[p]
            } else {
                before[p]
            }
        }),
{
    reveal(with_region);
    let stride = 16 * site.wide;
    let spot = block_site_4(site, before, block);
    let column = p % stride - site.x * 16;
    let row = p / stride - site.y * 16;
    law_block_order(block, 0, 0);
    if 0 <= column < 16 && 0 <= row < 16 {
        law_block_order(block, column / 4, row / 4);
    }
    let inner = p % stride - spot.x;
    let line = p / stride - spot.y;
    if 0 <= inner < 4 && 0 <= line < 4 {
        let i = line * 4 + inner;
        assert(i / 4 == line && i % 4 == inner);
        let samples = region(site.source.luma, stride, spot.x, spot.y, 4, 4);
        assert(samples[i] == site.source.luma[(spot.y + line) * stride + (spot.x + inner)]);
        vstd::arithmetic::div_mod::lemma_fundamental_div_mod(p, stride);
        assert((p / stride) * stride == stride * (p / stride)) by (nonlinear_arith);
        assert(column / 4 == block_column(block) && row / 4 == block_row(block));
    }
}

/// Luma after some four-by-four blocks that bypass the transform: those blocks are as in the
/// source, and everything else is as before.
proof fn lemma_blocks_bypassed(site: SiteModel, plane: Seq<u8>, count: int)
    requires
        site.bypass,
        0 < site.wide,
        0 <= site.x < site.wide,
        0 <= site.y,
        0 <= count <= 16,
        plane.len() == site.source.luma.len(),
    ensures
        ({
            let after = luma_coded_4(site, plane, count).plane;
            &&& after.len() == plane.len()
            &&& forall|p: int|
                0 <= p < plane.len() ==> #[trigger] after[p] == if in_blocks(p, site, count) {
                    site.source.luma[p]
                } else {
                    plane[p]
                }
        }),
    decreases count,
{
    let after = luma_coded_4(site, plane, count).plane;
    if count > 0 {
        lemma_blocks_bypassed(site, plane, count - 1);
        let before = luma_coded_4(site, plane, count - 1).plane;
        assert(after.len() == before.len()) by {
            reveal(with_region);
        }
        assert forall|p: int| 0 <= p < plane.len() implies #[trigger] after[p] == if in_blocks(
            p,
            site,
            count,
        ) {
            site.source.luma[p]
        } else {
            plane[p]
        } by {
            lemma_block_bypassed(site, before, count - 1, p);
        }
    } else {
        assert forall|p: int| 0 <= p < plane.len() implies !#[trigger] in_blocks(p, site, 0) by {
            let column = p % (16 * site.wide) - site.x * 16;
            let row = p / (16 * site.wide) - site.y * 16;
            if 0 <= column < 16 && 0 <= row < 16 {
                law_block_order(0, column / 4, row / 4);
            }
        }
    }
}

/// The luma of a macroblock that is coded in four-by-four blocks without the transform agrees with
/// the source.
proof fn lemma_intra_luma(site: SiteModel, plane: Seq<u8>)
    requires
        site.bypass,
        0 < site.wide,
        0 <= site.x < site.wide,
        0 <= site.y,
        agrees(plane, site.source.luma, site.wide, 16, site.y * site.wide + site.x),
    ensures
        agrees(
            luma_coded_4(site, plane, 16).plane,
            site.source.luma,
            site.wide,
            16,
            site.y * site.wide + site.x + 1,
        ),
{
    lemma_blocks_bypassed(site, plane, 16);
    let after = luma_coded_4(site, plane, 16).plane;
    let stride = 16 * site.wide;
    assert forall|p: int|
        0 <= p < after.len() && macroblock_of(p, site.wide, 16) < site.y * site.wide + site.x
            + 1 implies #[trigger] after[p] == site.source.luma[p] by {
        let column = p % stride - site.x * 16;
        let row = p / stride - site.y * 16;
        if 0 <= column < 16 && 0 <= row < 16 {
            law_block_order(0, column / 4, row / 4);
        } else if macroblock_of(p, site.wide, 16) == site.y * site.wide + site.x {
            lemma_place(p, site.wide, 16, site.x, site.y);
        }
    }
}

/// A chroma plane of a macroblock that is coded without the transform agrees with the source.
proof fn lemma_chroma(
    site: SiteModel,
    source: Seq<u8>,
    plane: Seq<u8>,
    prediction: Seq<u8>,
    intra_mode: Option<u8>,
    intra: bool,
)
    requires
        site.bypass,
        0 < site.wide,
        0 <= site.x < site.wide,
        0 <= site.y,
        prediction.len() == 64,
        agrees(plane, source, site.wide, 8, site.y * site.wide + site.x),
    ensures
        agrees(
            chroma_plane_coded(
                site,
                plane,
                prediction,
                chroma_site_levels(site, source, prediction, intra_mode, intra),
                intra_mode,
                intra,
            ),
            source,
            site.wide,
            8,
            site.y * site.wide + site.x + 1,
        ),
{
    reveal(chroma_plane_coded);
    reveal(chroma_site_levels);
    law_bypass_chroma_lossless(
        source,
        8 * site.wide,
        site.x * 8,
        site.y * 8,
        prediction,
        chroma_qp_of(site.qp),
        intra_mode,
        matrix_4x4(site.preset, intra),
    );
    lemma_agrees_step(plane, source, site.wide, 8, site.x, site.y);
}

/// A macroblock that is predicted from other pictures and coded without the transform agrees with
/// the source.
proof fn lemma_inter_coded(
    site: SiteModel,
    planes: Samples,
    prediction: Samples,
    transform_8x8_allowed: bool,
)
    requires
        site.bypass,
        0 < site.wide,
        0 <= site.x < site.wide,
        0 <= site.y,
        macroblock_sized(prediction),
        planes_agree(planes, site.source, site.wide, site.y * site.wide + site.x),
    ensures
        planes_agree(
            inter_coded(site, planes, prediction, transform_8x8_allowed).planes,
            site.source,
            site.wide,
            site.y * site.wide + site.x + 1,
        ),
{
    reveal(inter_luma_levels);
    reveal(inter_luma_plane);
    law_bypass_luma_lossless(
        site.source.luma,
        16 * site.wide,
        site.x * 16,
        site.y * 16,
        prediction.luma,
        site.qp,
        site.preset,
    );
    lemma_agrees_step(planes.luma, site.source.luma, site.wide, 16, site.x, site.y);
    lemma_chroma(site, site.source.cb, planes.cb, prediction.cb, None, false);
    lemma_chroma(site, site.source.cr, planes.cr, prediction.cr, None, false);
}

/// The chroma of a macroblock that stands alone and is coded without the transform agrees with the
/// source.
proof fn lemma_intra_chroma(site: SiteModel, cb: Seq<u8>, cr: Seq<u8>)
    requires
        site.bypass,
        0 < site.wide,
        0 <= site.x < site.wide,
        0 <= site.y,
        agrees(cb, site.source.cb, site.wide, 8, site.y * site.wide + site.x),
        agrees(cr, site.source.cr, site.wide, 8, site.y * site.wide + site.x),
    ensures
        agrees(
            chroma_coded_intra(site, cb, cr).cb,
            site.source.cb,
            site.wide,
            8,
            site.y * site.wide + site.x + 1,
        ),
        agrees(
            chroma_coded_intra(site, cb, cr).cr,
            site.source.cr,
            site.wide,
            8,
            site.y * site.wide + site.x + 1,
        ),
{
    let mode = chroma_coded_intra(site, cb, cr).mode;
    let chosen = crate::intra_select::chroma_mode(
        site.source.cb,
        site.source.cr,
        cb,
        cr,
        8 * site.wide,
        site.x * 8,
        site.y * 8,
        site.y > 0,
        site.x > 0,
    );
    let first = crate::intra_select::chroma_predicted(
        cb,
        8 * site.wide,
        site.x * 8,
        site.y * 8,
        site.y > 0,
        site.x > 0,
        chosen,
    );
    let second = crate::intra_select::chroma_predicted(
        cr,
        8 * site.wide,
        site.x * 8,
        site.y * 8,
        site.y > 0,
        site.x > 0,
        chosen,
    );
    lemma_chroma(site, site.source.cb, cb, first, Some(mode), true);
    lemma_chroma(site, site.source.cr, cr, second, Some(mode), true);
}

/// The place of a macroblock in its picture.
proof fn lemma_address(address: int, wide: int)
    requires
        0 < wide,
        0 <= address,
    ensures
        0 <= address % wide < wide,
        0 <= address / wide,
        (address / wide) * wide + address % wide == address,
{
    vstd::arithmetic::div_mod::lemma_fundamental_div_mod(address, wide);
    vstd::arithmetic::div_mod::lemma_div_pos_is_pos(address, wide);
    assert((address / wide) * wide == wide * (address / wide)) by (nonlinear_arith);
}

/// The first macroblocks of a picture that stands alone agree with the source.
proof fn lemma_idr_agrees(
    configuration: Configuration,
    source: Samples,
    qps: Seq<int>,
    start: crate::cavlc_intra::CoderState,
    count: int,
)
    requires
        configuration.transform_bypass,
        uses_intra4(configuration.mode),
        configuration.macroblocks_wide > 0,
        0 <= count,
        planes_agree(start.planes, source, configuration.macroblocks_wide as int, 0),
    ensures
        planes_agree(
            idr_coded(configuration, source, qps, start, count).planes,
            source,
            configuration.macroblocks_wide as int,
            count,
        ),
    decreases count,
{
    if count > 0 {
        lemma_idr_agrees(configuration, source, qps, start, count - 1);
        let before = idr_coded(configuration, source, qps, start, count - 1);
        let site = idr_site(configuration, source, qps, count - 1);
        lemma_address(count - 1, site.wide);
        reveal(intra4_macroblock);
        lemma_intra_luma(site, before.planes.luma);
        lemma_intra_chroma(site, before.planes.cb, before.planes.cr);
    }
}

/// The first macroblocks of a picture that stands alone agree with the source.
proof fn lemma_cabac_idr_agrees(
    configuration: Configuration,
    source: Samples,
    qps: Seq<int>,
    start: crate::cabac_intra::IntraState,
    count: int,
)
    requires
        configuration.transform_bypass,
        uses_intra4(configuration.mode),
        configuration.macroblocks_wide > 0,
        0 <= count,
        planes_agree(start.planes, source, configuration.macroblocks_wide as int, 0),
    ensures
        planes_agree(
            cabac_coded(configuration, source, qps, start, count).planes,
            source,
            configuration.macroblocks_wide as int,
            count,
        ),
    decreases count,
{
    if count > 0 {
        lemma_cabac_idr_agrees(configuration, source, qps, start, count - 1);
        let before = going_on(
            cabac_coded(configuration, source, qps, start, count - 1),
            count - 1,
        );
        let site = idr_site(configuration, source, qps, count - 1);
        lemma_address(count - 1, site.wide);
        reveal(cabac_intra4_macroblock);
        lemma_intra_luma(site, before.planes.luma);
        lemma_intra_chroma(site, before.planes.cb, before.planes.cr);
    }
}

impl InterModel {
    proof fn lemma_part_sized(self, trial: TrialModel, partition: InterPartition)
        requires
            macroblock_sized(trial.prediction),
        ensures
            macroblock_sized(self.with_part(trial, partition).prediction),
    {
        reveal(with_prediction);
        reveal(with_region);
    }

    proof fn lemma_parts_sized(self, trial: TrialModel, parts: Seq<InterPartition>, count: int)
        requires
            macroblock_sized(trial.prediction),
        ensures
            macroblock_sized(self.with_parts(trial, parts, count).prediction),
        decreases count,
    {
        if count > 0 {
            self.lemma_parts_sized(trial, parts, count - 1);
            self.lemma_part_sized(self.with_parts(trial, parts, count - 1), parts[count - 1]);
        }
    }

    proof fn lemma_shaped_sized(self, shape: int)
        ensures
            macroblock_sized(self.shaped(shape).prediction),
    {
        reveal(InterModel::shaped);
        let parts = macroblock_parts(shape);
        self.lemma_parts_sized(fresh_trial(), parts, parts.len() as int);
    }

    proof fn lemma_quartered_sized(self, count: int)
        ensures
            macroblock_sized(self.quartered(count).trial.prediction),
        decreases count,
    {
        if count > 0 {
            self.lemma_quartered_sized(count - 1);
            let before = self.quartered(count - 1);
            let kind = self.quarter_kind(before.trial, count - 1, 4);
            let parts = quarter_parts(count - 1, kind);
            self.lemma_parts_sized(
                TrialModel { rate: 0, selected: Seq::empty(), ..before.trial },
                parts,
                parts.len() as int,
            );
        }
    }

    proof fn lemma_decided_sized(self)
        ensures
            macroblock_sized(self.decided().prediction),
    {
        reveal(InterModel::decided);
        reveal(InterModel::quarters);
        self.lemma_shaped_sized(0);
        self.lemma_shaped_sized(1);
        self.lemma_shaped_sized(2);
        self.lemma_quartered_sized(4);
    }
}

proof fn lemma_best_sized(model: PictureModel, references: Seq<ReferencePicture>, count: int)
    ensures
        macroblock_sized(model.best_reference(references, count).prediction),
    decreases count,
{
    if count <= 1 {
        model.with_reference(references[0].planes, 0).lemma_decided_sized();
    } else {
        lemma_best_sized(model, references, count - 1);
        model.with_reference(references[count - 1].planes, count - 1).lemma_decided_sized();
    }
}

/// The first macroblocks of a picture that is predicted from earlier ones agree with the source.
proof fn lemma_p_agrees(
    configuration: Configuration,
    references: Seq<ReferencePicture>,
    source: Samples,
    qps: Seq<int>,
    start: PState,
    count: int,
)
    requires
        configuration.transform_bypass,
        configuration.macroblocks_wide > 0,
        0 <= count,
        planes_agree(start.coder.planes, source, configuration.macroblocks_wide as int, 0),
    ensures
        planes_agree(
            p_coded(configuration, references, source, qps, start, count).coder.planes,
            source,
            configuration.macroblocks_wide as int,
            count,
        ),
    decreases count,
{
    if count > 0 {
        lemma_p_agrees(configuration, references, source, qps, start, count - 1);
        let before = p_coded(configuration, references, source, qps, start, count - 1);
        let site = inter_site(configuration, source, qps, count - 1);
        lemma_address(count - 1, site.wide);
        reveal(p_macroblock);
        reveal(p_decision);
        let decision = p_decision(configuration, references, site, before.motions);
        let model = picture_model(configuration, site, before.motions);
        lemma_best_sized(model, references, model.tried_references(references));
        lemma_inter_coded(site, before.coder.planes, decision.prediction, true);
        lemma_inter_coded(site, before.coder.planes, decision.prediction, false);
    }
}

/// The first macroblocks of a picture that is predicted from earlier ones agree with the source.
proof fn lemma_cabac_p_agrees(
    configuration: Configuration,
    references: Seq<ReferencePicture>,
    source: Samples,
    qps: Seq<int>,
    start: PMarked,
    count: int,
)
    requires
        configuration.transform_bypass,
        configuration.macroblocks_wide > 0,
        0 <= count,
        planes_agree(start.inter.planes, source, configuration.macroblocks_wide as int, 0),
    ensures
        planes_agree(
            cabac_p_coded(configuration, references, source, qps, start, count).inter.planes,
            source,
            configuration.macroblocks_wide as int,
            count,
        ),
    decreases count,
{
    if count > 0 {
        lemma_cabac_p_agrees(configuration, references, source, qps, start, count - 1);
        let earlier = cabac_p_coded(configuration, references, source, qps, start, count - 1);
        let before = PMarked { inter: earlier.inter.going_on(count - 1), ..earlier };
        let site = inter_site(configuration, source, qps, count - 1);
        lemma_address(count - 1, site.wide);
        reveal(cabac_p_macroblock);
        reveal(p_told_motion);
        reveal(p_decision);
        let decision = p_decision(configuration, references, site, before.motions);
        let model = picture_model(configuration, site, before.motions);
        lemma_best_sized(model, references, model.tried_references(references));
        lemma_inter_coded(site, before.inter.planes, decision.prediction, true);
        lemma_inter_coded(site, before.inter.planes, decision.prediction, false);
    }
}

impl BModel {
    proof fn lemma_selected_sized(
        self,
        trial: BTrialModel,
        selected: crate::b_direct::BSelectedPartition,
    )
        requires
            macroblock_sized(trial.prediction),
        ensures
            macroblock_sized(self.with_selected(trial, selected).prediction),
    {
        reveal(with_b_prediction);
        reveal(with_region);
    }

    proof fn lemma_parts_sized(
        self,
        trial: BTrialModel,
        parts: Seq<DirectedPart>,
        analysis: crate::config::AnalysisPreset,
        count: int,
    )
        requires
            macroblock_sized(trial.prediction),
        ensures
            macroblock_sized(self.with_parts(trial, parts, analysis, count).prediction),
        decreases count,
    {
        if count > 0 {
            self.lemma_parts_sized(trial, parts, analysis, count - 1);
            let before = self.with_parts(trial, parts, analysis, count - 1);
            self.lemma_selected_sized(
                before,
                self.part_chosen(before, parts[count - 1], analysis),
            );
        }
    }

    proof fn lemma_shaped_sized(self, count: int, analysis: crate::config::AnalysisPreset)
        ensures
            macroblock_sized(self.shaped(count, analysis).prediction),
    {
        reveal(BModel::shaped);
        let parts = directed_parts(count);
        self.lemma_parts_sized(self.fresh(), parts, analysis, parts.len() as int);
    }

    proof fn lemma_best_sized(self, analysis: crate::config::AnalysisPreset, count: int)
        ensures
            macroblock_sized(self.best_shaped(analysis, count).prediction),
        decreases count,
    {
        if count <= 1 {
            self.lemma_shaped_sized(1, analysis);
        } else {
            self.lemma_best_sized(analysis, count - 1);
            self.lemma_shaped_sized(count, analysis);
        }
    }

    proof fn lemma_direct_sized(self, count: int)
        ensures
            self.with_direct(count) matches Some(trial) ==> macroblock_sized(trial.prediction),
        decreases count,
    {
        if count > 0 {
            self.lemma_direct_sized(count - 1);
            if self.with_direct(count - 1) is Some && self.direct_part(count - 1) is Some {
                self.lemma_selected_sized(
                    self.with_direct(count - 1)->Some_0,
                    self.direct_part(count - 1)->Some_0,
                );
            }
        }
    }

    proof fn lemma_quartered_sized(self, count: int)
        ensures
            macroblock_sized(self.quartered(count).trial.prediction),
        decreases count,
    {
        if count > 0 {
            self.lemma_quartered_sized(count - 1);
            let before = self.quartered(count - 1);
            let kind = self.quarter_kind(before.trial, count - 1, 13);
            let start = BTrialModel { rate: 0, both: 0, selected: Seq::empty(), ..before.trial };
            if kind == 0 {
                self.lemma_selected_sized(start, self.direct_part(count - 1)->Some_0);
            } else {
                let parts = directed_quarter_parts(count - 1, kind);
                self.lemma_parts_sized(
                    start,
                    parts,
                    crate::config::AnalysisPreset::Full,
                    parts.len() as int,
                );
            }
        }
    }

    proof fn lemma_decided_sized(self, analysis: crate::config::AnalysisPreset)
        ensures
            macroblock_sized(self.decided(analysis).prediction),
    {
        reveal(BModel::decided);
        reveal(BModel::quarters);
        reveal(BModel::direct);
        self.lemma_direct_sized(4);
        self.lemma_best_sized(analysis, 3);
        self.lemma_best_sized(analysis, 21);
        self.lemma_quartered_sized(4);
    }
}

/// The first macroblocks of a picture that is predicted from both sides agree with the source.
proof fn lemma_b_agrees(
    configuration: Configuration,
    around: Surroundings,
    source: Samples,
    qps: Seq<int>,
    start: crate::b_picture::BState,
    count: int,
)
    requires
        configuration.transform_bypass,
        configuration.macroblocks_wide > 0,
        0 <= count,
        planes_agree(start.coder.planes, source, configuration.macroblocks_wide as int, 0),
    ensures
        planes_agree(
            b_coded(configuration, around, source, qps, start, count).coder.planes,
            source,
            configuration.macroblocks_wide as int,
            count,
        ),
    decreases count,
{
    if count > 0 {
        lemma_b_agrees(configuration, around, source, qps, start, count - 1);
        let before = b_coded(configuration, around, source, qps, start, count - 1);
        let site = inter_site(configuration, source, qps, count - 1);
        lemma_address(count - 1, site.wide);
        reveal(b_macroblock);
        let model = b_model(configuration, around, before, site);
        model.lemma_decided_sized(configuration.analysis);
        let prediction = model.decided(configuration.analysis).prediction;
        lemma_inter_coded(site, before.coder.planes, prediction, true);
        lemma_inter_coded(site, before.coder.planes, prediction, false);
    }
}

/// The first macroblocks of a picture that is predicted from both sides agree with the source.
proof fn lemma_cabac_b_agrees(
    configuration: Configuration,
    around: Surroundings,
    source: Samples,
    qps: Seq<int>,
    start: BMarked,
    count: int,
)
    requires
        configuration.transform_bypass,
        configuration.macroblocks_wide > 0,
        0 <= count,
        planes_agree(start.inter.planes, source, configuration.macroblocks_wide as int, 0),
    ensures
        planes_agree(
            cabac_b_coded(configuration, around, source, qps, start, count).inter.planes,
            source,
            configuration.macroblocks_wide as int,
            count,
        ),
    decreases count,
{
    if count > 0 {
        lemma_cabac_b_agrees(configuration, around, source, qps, start, count - 1);
        let earlier = cabac_b_coded(configuration, around, source, qps, start, count - 1);
        let before = BMarked { inter: earlier.inter.going_on(count - 1), ..earlier };
        let site = inter_site(configuration, source, qps, count - 1);
        lemma_address(count - 1, site.wide);
        reveal(cabac_b_macroblock);
        reveal(b_told_motion);
        let model = b_marked_model(configuration, around, before, site);
        model.lemma_decided_sized(configuration.analysis);
        let prediction = model.decided(configuration.analysis).prediction;
        lemma_inter_coded(site, before.inter.planes, prediction, true);
        lemma_inter_coded(site, before.inter.planes, prediction, false);
    }
}

/// The planes of a frame, extended to whole macroblocks, have the size of the picture.
pub proof fn lemma_padded_fit(frame: FrameModel, wide: int, high: int)
    requires
        0 < wide,
        0 < high,
    ensures
        planes_fit(padded_samples(frame, wide, high), wide, high),
{
    reveal(padded_samples);
    assert(0 <= (16 * wide) * (16 * high) && 0 <= (8 * wide) * (8 * high)) by (nonlinear_arith)
        requires
            0 < wide,
            0 < high,
    ;
}

/// Planes of the size of the picture agree with the source before the first macroblock.
proof fn lemma_nothing_agrees(planes: Samples, source: Samples, wide: int, high: int)
    requires
        planes_fit(planes, wide, high),
        planes_fit(source, wide, high),
    ensures
        planes_agree(planes, source, wide, 0),
{
    assert forall|p: int| 0 <= p < planes.luma.len() implies macroblock_of(p, wide, 16) >= 0 by {
        lemma_macroblock_bound(p, wide, high, 16);
    }
    assert forall|p: int| 0 <= p < planes.cb.len() implies macroblock_of(p, wide, 8) >= 0 by {
        lemma_macroblock_bound(p, wide, high, 8);
    }
}

/// Planes that agree with the source in all macroblocks equal it.
proof fn lemma_all_agree(planes: Samples, source: Samples, wide: int, high: int)
    requires
        planes_fit(source, wide, high),
        planes_agree(planes, source, wide, wide * high),
    ensures
        planes == source,
{
    lemma_agrees_all(planes.luma, source.luma, wide, high, 16);
    lemma_agrees_all(planes.cb, source.cb, wide, high, 8);
    lemma_agrees_all(planes.cr, source.cr, wide, high, 8);
    assert(planes =~= source);
}

/// What is seen of a frame that is extended to whole macroblocks is the frame.
pub proof fn law_visible_padded(frame: FrameModel, wide: int, high: int)
    requires
        frame_fits(frame, wide, high),
    ensures
        same_picture(visible(frame, padded_samples(frame, wide, high), wide), frame),
{
    reveal(padded_samples);
    reveal(visible);
    let seen = visible(frame, padded_samples(frame, wide, high), wide);
    assert forall|c: int, x: int, y: int|
        0 <= c < 3 && 0 <= x < frame.planes[c].width && 0 <= y
            < frame.planes[c].height implies #[trigger] shown(seen, c, x, y) == shown(
        frame,
        c,
        x,
        y,
    ) by {
        let side: int = if c == 0 {
            16
        } else {
            8
        };
        law_padding_keeps_samples(frame.planes[c], side * wide, side * high, x, y);
    }
}

/// A picture that stands alone and is made of plain samples comes back as the frame that it was
/// made of.
pub proof fn law_plain_lossless(
    tables: Tables,
    configuration: Configuration,
    frame: FrameModel,
    pic_order_cnt_lsb: int,
)
    requires
        configuration.mode == EncoderMode::Ipcm,
    ensures
        coded_idr(tables, configuration, frame, pic_order_cnt_lsb).reconstructed == frame,
        coded_idr(tables, configuration, frame, pic_order_cnt_lsb).coded_reconstruction
            == padded_samples(
            frame,
            configuration.macroblocks_wide as int,
            configuration.macroblocks_high as int,
        ),
{
    reveal(cavlc_idr);
    reveal(cabac_pcm_idr);
}

/// Where the transform is bypassed, a picture that stands alone comes back as the frame that it was
/// made of, however its syntax elements become bits.
pub proof fn law_lossless_idr(
    tables: Tables,
    configuration: Configuration,
    frame: FrameModel,
    pic_order_cnt_lsb: int,
)
    requires
        configuration.transform_bypass,
        uses_intra4(configuration.mode),
        configuration.macroblocks_wide > 0,
        configuration.macroblocks_high > 0,
        frame_fits(
            frame,
            configuration.macroblocks_wide as int,
            configuration.macroblocks_high as int,
        ),
    ensures
        coded_idr(tables, configuration, frame, pic_order_cnt_lsb).coded_reconstruction
            == padded_samples(
            frame,
            configuration.macroblocks_wide as int,
            configuration.macroblocks_high as int,
        ),
        same_picture(
            coded_idr(tables, configuration, frame, pic_order_cnt_lsb).reconstructed,
            frame,
        ),
{
    reveal(cavlc_idr);
    reveal(cabac_predicted_idr);
    let wide = configuration.macroblocks_wide as int;
    let high = configuration.macroblocks_high as int;
    let qp = configuration.qp as int;
    let source = padded_samples(frame, wide, high);
    let qps = crate::quantizers::adaptive_qps(
        source.luma,
        wide,
        high,
        qp,
        configuration.aq_strength as int,
    );
    lemma_padded_fit(frame, wide, high);
    law_visible_padded(frame, wide, high);
    assert(0 <= wide * high) by (nonlinear_arith)
        requires
            0 < wide,
            0 < high,
    ;
    let blank = crate::idr::blank_samples(wide, high);
    assert(planes_fit(blank, wide, high)) by {
        assert(0 <= (16 * wide) * (16 * high) && 0 <= (8 * wide) * (8 * high)) by (nonlinear_arith)
            requires
                0 < wide,
                0 < high,
        ;
    }
    lemma_nothing_agrees(blank, source, wide, high);
    let header = crate::idr::idr_header(configuration.pic_order_cnt_type0, pic_order_cnt_lsb, qp);
    let start = crate::idr::coder_start(header, wide, high, qp);
    lemma_idr_agrees(configuration, source, qps, start, wide * high);
    let end = idr_coded(configuration, source, qps, start, wide * high);
    lemma_all_agree(end.planes, source, wide, high);
    let first = intra_start(wide, high, qp);
    lemma_cabac_idr_agrees(configuration, source, qps, first, wide * high);
    let last = cabac_coded(configuration, source, qps, first, wide * high);
    lemma_all_agree(last.planes, source, wide, high);
}

/// Where the transform is bypassed, a picture that is predicted from earlier ones comes back as the
/// frame that it was made of, however its syntax elements become bits.
pub proof fn law_lossless_p(
    tables: Tables,
    configuration: Configuration,
    frame: FrameModel,
    references: Seq<ReferencePicture>,
    frame_num: int,
    pic_order_cnt_lsb: int,
)
    requires
        configuration.transform_bypass,
        frame_fits(
            frame,
            configuration.macroblocks_wide as int,
            configuration.macroblocks_high as int,
        ),
        planes_fit(
            references[0].planes,
            configuration.macroblocks_wide as int,
            configuration.macroblocks_high as int,
        ),
    ensures
        ({
            let coded = coded_p(
                tables,
                configuration,
                frame,
                references,
                frame_num,
                pic_order_cnt_lsb,
            );
            &&& coded.coded_reconstruction == padded_samples(
                frame,
                configuration.macroblocks_wide as int,
                configuration.macroblocks_high as int,
            )
            &&& same_picture(coded.reconstructed, frame)
        }),
{
    reveal(cavlc_p_picture);
    reveal(cabac_p_picture);
    reveal(p_start);
    reveal(p_blank);
    let wide = configuration.macroblocks_wide as int;
    let high = configuration.macroblocks_high as int;
    let qp = configuration.qp as int;
    let source = padded_samples(frame, wide, high);
    let qps = crate::quantizers::adaptive_qps(
        source.luma,
        wide,
        high,
        qp,
        configuration.aq_strength as int,
    );
    lemma_padded_fit(frame, wide, high);
    law_visible_padded(frame, wide, high);
    assert(0 <= wide * high) by (nonlinear_arith)
        requires
            0 < wide,
            0 < high,
    ;
    lemma_nothing_agrees(references[0].planes, source, wide, high);
    let header = crate::p_picture::p_header(
        frame_num,
        configuration.pic_order_cnt_type0,
        pic_order_cnt_lsb,
        references.len() - 1,
        false,
        qp,
    );
    let start = p_start(header, references[0].planes, wide, high, qp);
    lemma_p_agrees(configuration, references, source, qps, start, wide * high);
    let end = p_coded(configuration, references, source, qps, start, wide * high);
    lemma_all_agree(end.coder.planes, source, wide, high);
    let first = p_blank(references[0].planes, wide * high, qp);
    lemma_cabac_p_agrees(configuration, references, source, qps, first, wide * high);
    let last = cabac_p_coded(configuration, references, source, qps, first, wide * high);
    lemma_all_agree(last.inter.planes, source, wide, high);
}

/// Where the transform is bypassed, a picture that is predicted from both sides comes back as the
/// frame that it was made of, however its syntax elements become bits.
pub proof fn law_lossless_b(
    tables: Tables,
    configuration: Configuration,
    frame: FrameModel,
    around: Surroundings,
    frame_num: int,
    pic_order_cnt_lsb: int,
)
    requires
        configuration.transform_bypass,
        frame_fits(
            frame,
            configuration.macroblocks_wide as int,
            configuration.macroblocks_high as int,
        ),
        planes_fit(
            around.previous.planes,
            configuration.macroblocks_wide as int,
            configuration.macroblocks_high as int,
        ),
    ensures
        ({
            let coded = coded_b(
                tables,
                configuration,
                frame,
                around,
                frame_num,
                pic_order_cnt_lsb,
            );
            &&& coded.coded_reconstruction == padded_samples(
                frame,
                configuration.macroblocks_wide as int,
                configuration.macroblocks_high as int,
            )
            &&& same_picture(coded.reconstructed, frame)
        }),
{
    reveal(cavlc_b_picture);
    reveal(cabac_b_picture);
    reveal(b_start);
    reveal(b_blank);
    let wide = configuration.macroblocks_wide as int;
    let high = configuration.macroblocks_high as int;
    let qp = configuration.qp as int;
    let source = padded_samples(frame, wide, high);
    let qps = crate::quantizers::adaptive_qps(
        source.luma,
        wide,
        high,
        qp,
        configuration.aq_strength as int,
    );
    lemma_padded_fit(frame, wide, high);
    law_visible_padded(frame, wide, high);
    assert(0 <= wide * high) by (nonlinear_arith)
        requires
            0 < wide,
            0 < high,
    ;
    let planes = around.previous.planes;
    lemma_nothing_agrees(planes, source, wide, high);
    let header = crate::b_picture::b_header(
        frame_num,
        pic_order_cnt_lsb,
        configuration.b_direct_mode == crate::config::BDirectMode::Spatial,
        false,
        qp,
    );
    let start = b_start(header, planes, wide, high, qp);
    lemma_b_agrees(configuration, around, source, qps, start, wide * high);
    let end = b_coded(configuration, around, source, qps, start, wide * high);
    lemma_all_agree(end.coder.planes, source, wide, high);
    let first = b_blank(planes, wide * high, qp);
    lemma_cabac_b_agrees(configuration, around, source, qps, first, wide * high);
    let last = cabac_b_coded(configuration, around, source, qps, first, wide * high);
    lemma_all_agree(last.inter.planes, source, wide, high);
}

/// A four-by-four block that is restored from levels that bypass the transform.
pub open spec fn restored_block(prediction: Seq<u8>, levels: Seq<int>, mode: int) -> Seq<u8> {
    corrected(
        prediction,
        Seq::new(16, |i: int| summed(unscanned(levels), 4, bypass_difference(mode), i)),
    )
}

/// The levels of a four-by-four block that bypass the transform restore the source, whatever the
/// prediction and its mode were.
pub proof fn law_bypass_block_lossless(
    source: Seq<u8>,
    stride: int,
    x: int,
    y: int,
    prediction: Seq<u8>,
    qp: int,
    mode: int,
    matrix: Seq<u8>,
)
    requires
        prediction.len() == 16,
    ensures
        restored_block(
            prediction,
            intra4_levels(
                difference(source, stride, x, y, prediction, 4, 0, 0, 4),
                qp,
                true,
                mode,
                matrix,
            ),
            mode,
        ) == region(source, stride, x, y, 4, 4),
{
    let block = difference(source, stride, x, y, prediction, 4, 0, 0, 4);
    let kind = bypass_difference(mode);
    let coded = differences(block, 4, kind);
    let levels = intra4_levels(block, qp, true, mode, matrix);
    law_scan_order(4);
    assert forall|i: int| 0 <= i < 16 implies #[trigger] unscanned(levels)[i] == coded[i] by {
        assert(zig_zag(4, scan(4, i)) == i);
    }
    assert(unscanned(levels) =~= coded);
    let restored = restored_block(prediction, levels, mode);
    assert forall|i: int| 0 <= i < 16 implies #[trigger] restored[i] == region(
        source,
        stride,
        x,
        y,
        4,
        4,
    )[i] by {
        law_differences_summed(block, 4, kind, i);
    }
    assert(restored =~= region(source, stride, x, y, 4, 4));
}

} // verus!
