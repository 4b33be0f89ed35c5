//! What the bits of a picture tell of its samples.

use vstd::prelude::*;

use crate::bits::{aligned, bits_of, law_unpack_packed, packed, power_of_two};
use crate::block_coding::block_bits;
use crate::cavlc_intra::{
    any_block_nonzero, blockwise_head, intra16_macroblock, intra4_macroblock, intra8_macroblock,
    quarter_modes, whole_type, CoderState,
};
use crate::cavlc_syntax::{
    chroma_blocks_written, chroma_written, interleaved, luma_written, modes_fit, modes_written,
    quarter_marked, Written,
};
use crate::config::{Configuration, EncoderMode};
use crate::frame::{padded_samples, FrameModel};
use crate::framing::law_unescape_nal;
use crate::golomb::{finished, se_bits, ue_bits};
use crate::idr::{cavlc_idr, coder_start, idr_coded, idr_header, idr_macroblock, idr_site};
use crate::inter_residual::{
    any_nonzero, chroma_pattern, luma_pattern, LumaLevels,
};
use crate::intra_coding::{
    block_levels_4, block_levels_8, block_samples_4, block_site_4, block_site_8, chroma_coded_intra,
    chroma_plane_coded, chroma_site_levels, lemma_mode_chosen, luma_coded_16, luma_coded_4,
    luma_coded_8, BlockSite,
};
use crate::level_bounds::{
    lemma_ac_bound, lemma_block_bound_4, lemma_block_bound_8, lemma_chroma_bound, lemma_dc_bound,
    lemma_matrices,
};
use crate::lossless::law_bypass_block_lossless;
use crate::neighbors::means_count;
use crate::patterns::{law_pattern_code, pattern_code};
use crate::picture::{chroma_qp_of, Samples, SiteModel};
use crate::quantize::{descaled, quantizer, rescaled};
use crate::quantizers::{adaptive_qps, law_qp_delta, qp_delta};
use crate::reconstruct::{
    chroma_mean, chroma_residual, residual_4x4, residual_8x8, residual_with_mean,
};
use crate::residual::ChromaLevels;
use crate::scaling::{matrix_4x4, matrix_8x8};
use crate::told_codes::{
    chroma_sized, law_levels_told, law_signed_told, law_unsigned_told, lemma_chroma_told,
    lemma_luma_told, lemma_modes_told, lemma_same_start, luma_levels_fit, modes_agree,
    modes_beside,
};
use crate::transform::{inverse_block, inverse_block_8, within};

verus! {

/// Whether two macroblocks stand at the same place and are coded in the same way, whatever their
/// samples and quantizers are.
pub open spec fn same_place(first: SiteModel, second: SiteModel) -> bool {
    &&& first.wide == second.wide
    &&& first.x == second.x
    &&& first.y == second.y
    &&& first.bypass == second.bypass
    &&& first.preset == second.preset
}

/// Whether all levels are zero.
pub open spec fn all_zero(levels: Seq<int>) -> bool {
    forall|i: int| 0 <= i < levels.len() ==> #[trigger] levels[i] == 0
}

proof fn lemma_zero_descaled(qp: int, base: int)
    requires
        quantizer(qp),
        0 <= base,
    ensures
        descaled(0, qp, base) == 0,
{
    let shift = qp / 6;
    if shift < base {
        let less = (base - 1 - shift) as nat;
        let half = power_of_two(less) as int;
        crate::bits::lemma_power_monotonic(0, less);
        assert(power_of_two(0) == 1);
        assert(power_of_two((base - shift) as nat) == 2 * power_of_two(less));
        assert((0 + half) / (2 * half) == 0) by (nonlinear_arith)
            requires
                half >= 1,
        ;
    } else {
        let power = power_of_two((shift - base) as nat) as int;
        assert(0 * power == 0);
    }
}

proof fn lemma_zero_rescaled(side: int, level: int, qp: int, place: int, matrix: Seq<u8>)
    requires
        level == 0,
        quantizer(qp),
    ensures
        rescaled(side, level, qp, place, matrix) == 0,
{
    let scale = crate::quantize::level_scale(side, qp, place, matrix);
    assert(level * scale == 0) by (nonlinear_arith)
        requires
            level == 0,
    ;
    lemma_zero_descaled(
        qp,
        if side == 4 {
            4
        } else {
            6
        },
    );
}

/// Levels that are all zero stand for nothing.
pub proof fn lemma_zero_4x4(levels: Seq<int>, qp: int, matrix: Seq<u8>)
    requires
        levels.len() == 16,
        all_zero(levels),
        quantizer(qp),
    ensures
        residual_4x4(levels, qp, matrix) == Seq::new(16, |i: int| 0int),
{
    crate::quant_tables::law_scan_order(4);
    let scaled = Seq::new(
        16,
        |p: int| rescaled(4, levels[crate::quant_tables::scan(4, p)], qp, p, matrix),
    );
    assert forall|p: int| 0 <= p < 16 implies #[trigger] scaled[p] == 0 by {
        assert(0 <= crate::quant_tables::scan(4, p) < 16);
        lemma_zero_rescaled(4, levels[crate::quant_tables::scan(4, p)], qp, p, matrix);
    }
    lemma_zero_inverse(scaled);
}

proof fn lemma_zero_inverse(scaled: Seq<int>)
    requires
        scaled.len() == 16,
        all_zero(scaled),
    ensures
        inverse_block(scaled) == Seq::new(16, |i: int| 0int),
{
    let rows = crate::transform::inverse_rows(scaled);
    assert forall|i: int| 0 <= i < 16 implies #[trigger] rows[i] == 0 by {
        assert(scaled[i / 4 * 4] == 0 && scaled[i / 4 * 4 + 1] == 0);
        assert(scaled[i / 4 * 4 + 2] == 0 && scaled[i / 4 * 4 + 3] == 0);
    }
    assert forall|i: int| 0 <= i < 16 implies #[trigger] inverse_block(scaled)[i] == 0 by {
        assert(rows[i % 4] == 0 && rows[i % 4 + 4] == 0);
        assert(rows[i % 4 + 8] == 0 && rows[i % 4 + 12] == 0);
    }
    assert(inverse_block(scaled) =~= Seq::new(16, |i: int| 0int));
}

/// Levels of an eight-by-eight block that are all zero stand for nothing.
pub proof fn lemma_zero_8x8(levels: Seq<int>, qp: int, matrix: Seq<u8>)
    requires
        levels.len() == 64,
        all_zero(levels),
        quantizer(qp),
    ensures
        residual_8x8(levels, qp, matrix) == Seq::new(64, |i: int| 0int),
{
    crate::quant_tables::law_scan_order(8);
    let scaled = Seq::new(
        64,
        |p: int| rescaled(8, levels[crate::quant_tables::scan(8, p)], qp, p, matrix),
    );
    assert forall|p: int| 0 <= p < 64 implies #[trigger] scaled[p] == 0 by {
        assert(0 <= crate::quant_tables::scan(8, p) < 64);
        lemma_zero_rescaled(8, levels[crate::quant_tables::scan(8, p)], qp, p, matrix);
    }
    let first = scaled.update(0, scaled[0] + 32);
    let rows = crate::transform::inverse_rows_8(first);
    assert forall|i: int| 0 <= i < 64 implies #[trigger] rows[i] == if i < 8 {
        32int
    } else {
        0
    } by {
        let line = crate::transform::row_8(first, i / 8);
        assert forall|k: int| 0 <= k < 8 implies #[trigger] line[k] == if k == 0 && i < 8 {
            32int
        } else {
            0
        } by {
            assert(line[k] == first[i / 8 * 8 + k]);
        }
        lemma_inverse_of_first(line, i % 8);
    }
    let all = inverse_block_8(scaled);
    assert forall|i: int| 0 <= i < 64 implies #[trigger] all[i] == 0 by {
        let line = crate::transform::column_8(rows, i % 8);
        assert forall|k: int| 0 <= k < 8 implies #[trigger] line[k] == if k == 0 {
            32int
        } else {
            0
        } by {
            assert(line[k] == rows[k * 8 + i % 8]);
        }
        lemma_inverse_of_first(line, i / 8);
    }
    assert(all =~= Seq::new(64, |i: int| 0int));
}

/// What only has a first entry transforms back to copies of it.
proof fn lemma_inverse_of_first(line: Seq<int>, k: int)
    requires
        line.len() == 8,
        forall|i: int| 1 <= i < 8 ==> #[trigger] line[i] == 0,
        0 <= k < 8,
    ensures
        crate::transform::inverse_8(line, k) == line[0],
{
    assert(line[1] == 0 && line[2] == 0 && line[3] == 0 && line[4] == 0);
    assert(line[5] == 0 && line[6] == 0 && line[7] == 0);
}

proof fn lemma_zero_chroma(levels: ChromaLevels, qp: int, intra_mode: Option<u8>, matrix: Seq<u8>)
    requires
        chroma_sized(levels),
        all_zero(levels.dc),
        forall|b: int| 0 <= b < 4 ==> all_zero(#[trigger] levels.ac[b]),
        quantizer(qp),
    ensures
        chroma_residual(levels, qp, false, intra_mode, matrix) == Seq::new(64, |i: int| 0int),
{
    crate::quant_tables::law_scan_order(4);
    let blocks = Seq::new(
        4,
        |b: int|
            residual_with_mean(chroma_mean(levels, qp, matrix, b), levels.ac[b], qp, matrix),
    );
    assert forall|b: int| 0 <= b < 4 implies #[trigger] blocks[b] == Seq::new(16, |i: int| 0int) by {
        let mean = chroma_mean(levels, qp, matrix, b);
        assert(levels.dc[0] == 0 && levels.dc[1] == 0 && levels.dc[2] == 0 && levels.dc[3] == 0);
        let scale = crate::quantize::level_scale(4, qp, 0, matrix);
        let power = power_of_two((qp / 6) as nat) as int;
        assert(mean == 0 * scale * power / 32);
        assert(0 * scale == 0);
        assert(0 * power == 0);
        let scaled = Seq::new(
            16,
            |p: int|
                if p == 0 {
                    mean
                } else {
                    rescaled(
                        4,
                        levels.ac[b][crate::quant_tables::scan(4, p) - 1],
                        qp,
                        p,
                        matrix,
                    )
                },
        );
        assert forall|p: int| 0 <= p < 16 implies #[trigger] scaled[p] == 0 by {
            if p > 0 {
                lemma_later_place(p);
                let level = levels.ac[b][crate::quant_tables::scan(4, p) - 1];
                assert(all_zero(levels.ac[b]));
                assert(level == 0);
                lemma_zero_rescaled(4, level, qp, p, matrix);
            }
        }
        lemma_zero_inverse(scaled);
        assert(blocks[b] == inverse_block(scaled));
    }
    let all = chroma_residual(levels, qp, false, intra_mode, matrix);
    assert forall|i: int| 0 <= i < 64 implies #[trigger] all[i] == 0 by {
        assert(0 <= i / 32 * 2 + i % 8 / 4 < 4);
        assert(blocks[i / 32 * 2 + i % 8 / 4] == Seq::new(16, |i: int| 0int));
        assert(0 <= i / 8 % 4 * 4 + i % 4 < 16);
    }
    assert(all =~= Seq::new(64, |i: int| 0int));
}

/// Only the first place comes first in scanning order.
proof fn lemma_later_place(place: int)
    requires
        1 <= place < 16,
    ensures
        1 <= crate::quant_tables::scan(4, place) < 16,
{
    crate::quant_tables::law_scan_order(4);
    assert(crate::quant_tables::zig_zag(4, crate::quant_tables::scan(4, place)) == place);
    assert(crate::quant_tables::zig_zag(4, 0) == 0) by {
        reveal(crate::quant_tables::zig_zag);
    }
}

/// What is coded of the luma of a macroblock in four-by-four blocks has its size and its range.
pub proof fn lemma_luma_4(site: SiteModel, plane: Seq<u8>, count: int)
    requires
        quantizer(site.qp),
        0 <= count,
    ensures
        ({
            let coded = luma_coded_4(site, plane, count);
            &&& coded.modes.len() == count
            &&& coded.levels.len() == count
            &&& forall|b: int| 0 <= b < count ==> #[trigger] coded.modes[b] <= 8
            &&& forall|b: int|
                0 <= b < count ==> (#[trigger] coded.levels[b]).len() == 16 && within(
                    coded.levels[b],
                    0x800_0000,
                )
        }),
    decreases count,
{
    if count > 0 {
        lemma_luma_4(site, plane, count - 1);
        let before = luma_coded_4(site, plane, count - 1);
        let spot = block_site_4(site, before.plane, count - 1);
        lemma_mode_chosen(spot);
        lemma_block_bound_4(site, spot);
        let coded = luma_coded_4(site, plane, count);
        assert forall|b: int| 0 <= b < count implies #[trigger] coded.modes[b] <= 8 by {
            if b < count - 1 {
                assert(coded.modes[b] == before.modes[b]);
            }
        }
        assert forall|b: int| 0 <= b < count implies (#[trigger] coded.levels[b]).len() == 16
            && within(coded.levels[b], 0x800_0000) by {
            if b < count - 1 {
                assert(coded.levels[b] == before.levels[b]);
            } else {
                assert(coded.levels[b] == block_levels_4(site, spot));
            }
        }
    }
}

/// The same mode, levels, and quantizer give the same samples; without levels any quantizer does.
proof fn lemma_samples_4(
    first: SiteModel,
    second: SiteModel,
    a: BlockSite,
    b: BlockSite,
)
    requires
        same_place(first, second),
        quantizer(first.qp),
        quantizer(second.qp),
        a == (BlockSite { source: a.source, ..b }),
        a.side == 4,
        a.mode() == b.mode(),
        block_levels_4(first, a) == block_levels_4(second, b),
        first.qp == second.qp || all_zero(block_levels_4(first, a)),
    ensures
        block_samples_4(first, a) == block_samples_4(second, b),
{
    lemma_mode_chosen(a);
    lemma_mode_chosen(b);
    assert(a.predicted(a.mode()) == b.predicted(b.mode()));
    assert(a.prediction() == b.prediction());
    assert(a.prediction().len() == 16);
    let matrix = matrix_4x4(first.preset, true);
    if first.bypass {
        law_bypass_block_lossless(
            a.source,
            a.stride,
            a.x,
            a.y,
            a.prediction(),
            first.qp,
            a.mode(),
            matrix,
        );
        law_bypass_block_lossless(
            b.source,
            b.stride,
            b.x,
            b.y,
            b.prediction(),
            second.qp,
            b.mode(),
            matrix,
        );
    } else if first.qp != second.qp {
        lemma_block_bound_4(first, a);
        lemma_zero_4x4(block_levels_4(first, a), first.qp, matrix);
        lemma_zero_4x4(block_levels_4(first, a), second.qp, matrix);
    }
}

/// The same modes, levels, and quantizer give the same plane; without levels any quantizer does.
pub proof fn lemma_plane_4(first: SiteModel, second: SiteModel, plane: Seq<u8>, count: int)
    requires
        same_place(first, second),
        quantizer(first.qp),
        quantizer(second.qp),
        0 <= count <= 16,
        luma_coded_4(first, plane, 16).modes == luma_coded_4(second, plane, 16).modes,
        luma_coded_4(first, plane, 16).levels == luma_coded_4(second, plane, 16).levels,
        first.qp == second.qp || forall|b: int|
            0 <= b < 16 ==> all_zero(#[trigger] luma_coded_4(first, plane, 16).levels[b]),
    ensures
        luma_coded_4(first, plane, count).plane == luma_coded_4(second, plane, count).plane,
    decreases count,
{
    if count > 0 {
        let block = count - 1;
        lemma_plane_4(first, second, plane, block);
        let before = luma_coded_4(first, plane, block);
        let other = luma_coded_4(second, plane, block);
        let a = block_site_4(first, before.plane, block);
        let b = block_site_4(second, other.plane, block);
        lemma_kept_4(first, plane, count, 16);
        lemma_kept_4(second, plane, count, 16);
        lemma_luma_4(first, plane, block);
        lemma_luma_4(second, plane, block);
        lemma_mode_chosen(a);
        lemma_mode_chosen(b);
        assert(luma_coded_4(first, plane, 16).modes[block] == a.mode() as u8);
        assert(luma_coded_4(second, plane, 16).modes[block] == b.mode() as u8);
        assert(luma_coded_4(first, plane, 16).levels[block] == block_levels_4(first, a));
        assert(luma_coded_4(second, plane, 16).levels[block] == block_levels_4(second, b));
        lemma_samples_4(first, second, a, b);
    }
}

/// Modes and levels are kept when more blocks are coded.
proof fn lemma_kept_4(site: SiteModel, plane: Seq<u8>, count: int, end: int)
    requires
        quantizer(site.qp),
        0 <= count <= end,
    ensures
        forall|b: int|
            0 <= b < count ==> #[trigger] luma_coded_4(site, plane, end).modes[b] == luma_coded_4(
                site,
                plane,
                count,
            ).modes[b],
        forall|b: int|
            0 <= b < count ==> #[trigger] luma_coded_4(site, plane, end).levels[b] == luma_coded_4(
                site,
                plane,
                count,
            ).levels[b],
    decreases end - count,
{
    if count < end {
        lemma_kept_4(site, plane, count, end - 1);
        lemma_luma_4(site, plane, end - 1);
    }
}

/// What is coded of the luma of a macroblock in eight-by-eight blocks has its size and its range.
pub proof fn lemma_luma_8(site: SiteModel, plane: Seq<u8>, count: int)
    requires
        quantizer(site.qp),
        0 <= count,
    ensures
        ({
            let coded = luma_coded_8(site, plane, count);
            &&& coded.modes.len() == count
            &&& coded.levels.len() == count
            &&& forall|b: int| 0 <= b < count ==> #[trigger] coded.modes[b] <= 8
            &&& forall|b: int|
                0 <= b < count ==> (#[trigger] coded.levels[b]).len() == 64 && within(
                    coded.levels[b],
                    0x800_0000,
                )
        }),
    decreases count,
{
    if count > 0 {
        lemma_luma_8(site, plane, count - 1);
        let before = luma_coded_8(site, plane, count - 1);
        let spot = block_site_8(site, before.plane, count - 1);
        lemma_mode_chosen(spot);
        lemma_block_bound_8(site, spot);
        let coded = luma_coded_8(site, plane, count);
        assert forall|b: int| 0 <= b < count implies #[trigger] coded.modes[b] <= 8 by {
            if b < count - 1 {
                assert(coded.modes[b] == before.modes[b]);
            }
        }
        assert forall|b: int| 0 <= b < count implies (#[trigger] coded.levels[b]).len() == 64
            && within(coded.levels[b], 0x800_0000) by {
            if b < count - 1 {
                assert(coded.levels[b] == before.levels[b]);
            } else {
                assert(coded.levels[b] == block_levels_8(site, spot));
            }
        }
    }
}

proof fn lemma_kept_8(site: SiteModel, plane: Seq<u8>, count: int, end: int)
    requires
        quantizer(site.qp),
        0 <= count <= end,
    ensures
        forall|b: int|
            0 <= b < count ==> #[trigger] luma_coded_8(site, plane, end).modes[b] == luma_coded_8(
                site,
                plane,
                count,
            ).modes[b],
        forall|b: int|
            0 <= b < count ==> #[trigger] luma_coded_8(site, plane, end).levels[b] == luma_coded_8(
                site,
                plane,
                count,
            ).levels[b],
    decreases end - count,
{
    if count < end {
        lemma_kept_8(site, plane, count, end - 1);
        lemma_luma_8(site, plane, end - 1);
    }
}

/// The same modes, levels, and quantizer give the same plane; without levels any quantizer does.
pub proof fn lemma_plane_8(first: SiteModel, second: SiteModel, plane: Seq<u8>, count: int)
    requires
        same_place(first, second),
        quantizer(first.qp),
        quantizer(second.qp),
        0 <= count <= 4,
        luma_coded_8(first, plane, 4).modes == luma_coded_8(second, plane, 4).modes,
        luma_coded_8(first, plane, 4).levels == luma_coded_8(second, plane, 4).levels,
        first.qp == second.qp || forall|b: int|
            0 <= b < 4 ==> all_zero(#[trigger] luma_coded_8(first, plane, 4).levels[b]),
    ensures
        luma_coded_8(first, plane, count).plane == luma_coded_8(second, plane, count).plane,
    decreases count,
{
    if count > 0 {
        let block = count - 1;
        lemma_plane_8(first, second, plane, block);
        let before = luma_coded_8(first, plane, block);
        let other = luma_coded_8(second, plane, block);
        let a = block_site_8(first, before.plane, block);
        let b = block_site_8(second, other.plane, block);
        lemma_kept_8(first, plane, count, 4);
        lemma_kept_8(second, plane, count, 4);
        lemma_luma_8(first, plane, block);
        lemma_luma_8(second, plane, block);
        lemma_mode_chosen(a);
        lemma_mode_chosen(b);
        assert(luma_coded_8(first, plane, 4).modes[block] == a.mode() as u8);
        assert(luma_coded_8(second, plane, 4).modes[block] == b.mode() as u8);
        assert(luma_coded_8(first, plane, 4).levels[block] == block_levels_8(first, a));
        assert(luma_coded_8(second, plane, 4).levels[block] == block_levels_8(second, b));
        assert(a.predicted(a.mode()) == b.predicted(b.mode()));
        assert(a.prediction() == b.prediction());
        if first.qp != second.qp {
            let matrix = matrix_8x8(first.preset, true);
            lemma_block_bound_8(first, a);
            lemma_zero_8x8(block_levels_8(first, a), first.qp, matrix);
            lemma_zero_8x8(block_levels_8(first, a), second.qp, matrix);
        }
    }
}

/// The chroma quantizer of a macroblock exists.
pub proof fn lemma_chroma_quantizer(qp: int)
    requires
        quantizer(qp),
    ensures
        quantizer(chroma_qp_of(qp)),
{
    reveal(chroma_qp_of);
    assert(forall|i: int| 0 <= i < 22 ==> 0 <= #[trigger] crate::deblock::CHROMA_QP[i] <= 51);
}

/// The chroma levels of a macroblock have their size and their range.
pub proof fn lemma_chroma_sizes(site: SiteModel, cb: Seq<u8>, cr: Seq<u8>)
    requires
        quantizer(site.qp),
    ensures
        chroma_sized(chroma_coded_intra(site, cb, cr).cb_levels),
        chroma_sized(chroma_coded_intra(site, cb, cr).cr_levels),
        chroma_coded_intra(site, cb, cr).mode <= 2,
{
    reveal(chroma_site_levels);
    lemma_chroma_quantizer(site.qp);
    lemma_matrices(site.preset, true);
    let stride = 8 * site.wide;
    let x = site.x * 8;
    let y = site.y * 8;
    let coded = chroma_coded_intra(site, cb, cr);
    let mode = coded.mode as int;
    let qp = chroma_qp_of(site.qp);
    let matrix = matrix_4x4(site.preset, true);
    lemma_chroma_bound(
        site.source.cb,
        stride,
        x,
        y,
        crate::intra_select::chroma_predicted(
            cb,
            stride,
            x,
            y,
            site.y > 0,
            site.x > 0,
            mode,
        ),
        qp,
        site.bypass,
        Some(coded.mode),
        matrix,
    );
    lemma_chroma_bound(
        site.source.cr,
        stride,
        x,
        y,
        crate::intra_select::chroma_predicted(
            cr,
            stride,
            x,
            y,
            site.y > 0,
            site.x > 0,
            mode,
        ),
        qp,
        site.bypass,
        Some(coded.mode),
        matrix,
    );
}

/// Whether chroma levels are all zero.
pub open spec fn chroma_zero(levels: ChromaLevels) -> bool {
    &&& all_zero(levels.dc)
    &&& forall|b: int| 0 <= b < 4 ==> all_zero(#[trigger] levels.ac[b])
}

/// The same mode, levels, and quantizer give the same chroma plane; without levels any quantizer
/// does.
pub proof fn lemma_chroma_plane(
    first: SiteModel,
    second: SiteModel,
    plane: Seq<u8>,
    prediction: Seq<u8>,
    levels: ChromaLevels,
    mode: Option<u8>,
    intra: bool,
)
    requires
        same_place(first, second),
        quantizer(first.qp),
        quantizer(second.qp),
        chroma_sized(levels),
        first.qp == second.qp || chroma_zero(levels),
    ensures
        chroma_plane_coded(first, plane, prediction, levels, mode, intra) == chroma_plane_coded(
            second,
            plane,
            prediction,
            levels,
            mode,
            intra,
        ),
{
    reveal(chroma_plane_coded);
    if first.qp != second.qp && !first.bypass {
        let matrix = matrix_4x4(first.preset, intra);
        lemma_chroma_quantizer(first.qp);
        lemma_chroma_quantizer(second.qp);
        lemma_zero_chroma(levels, chroma_qp_of(first.qp), mode, matrix);
        lemma_zero_chroma(levels, chroma_qp_of(second.qp), mode, matrix);
    }
}

/// The same mode, levels, and quantizer give the same chroma.
pub proof fn lemma_chroma_alike(first: SiteModel, second: SiteModel, cb: Seq<u8>, cr: Seq<u8>)
    requires
        same_place(first, second),
        quantizer(first.qp),
        quantizer(second.qp),
        chroma_coded_intra(first, cb, cr).mode == chroma_coded_intra(second, cb, cr).mode,
        chroma_coded_intra(first, cb, cr).cb_levels == chroma_coded_intra(
            second,
            cb,
            cr,
        ).cb_levels,
        chroma_coded_intra(first, cb, cr).cr_levels == chroma_coded_intra(
            second,
            cb,
            cr,
        ).cr_levels,
        first.qp == second.qp || (chroma_zero(chroma_coded_intra(first, cb, cr).cb_levels)
            && chroma_zero(chroma_coded_intra(first, cb, cr).cr_levels)),
    ensures
        chroma_coded_intra(first, cb, cr).cb == chroma_coded_intra(second, cb, cr).cb,
        chroma_coded_intra(first, cb, cr).cr == chroma_coded_intra(second, cb, cr).cr,
{
    lemma_chroma_sizes(first, cb, cr);
    lemma_chroma_sizes(second, cb, cr);
    let coded = chroma_coded_intra(first, cb, cr);
    let mode = coded.mode as int;
    let stride = 8 * first.wide;
    let x = first.x * 8;
    let y = first.y * 8;
    lemma_chroma_plane(
        first,
        second,
        cb,
        crate::intra_select::chroma_predicted(
            cb,
            stride,
            x,
            y,
            first.y > 0,
            first.x > 0,
            mode,
        ),
        coded.cb_levels,
        Some(coded.mode),
        true,
    );
    lemma_chroma_plane(
        first,
        second,
        cr,
        crate::intra_select::chroma_predicted(
            cr,
            stride,
            x,
            y,
            first.y > 0,
            first.x > 0,
            mode,
        ),
        coded.cr_levels,
        Some(coded.mode),
        true,
    );
}

/// What luma levels add to the bits.
spec fn luma_tail(
    before: Written,
    address: int,
    wide: int,
    levels: Seq<Seq<int>>,
    pattern: int,
    count: int,
) -> Seq<bool> {
    luma_written(before, address, wide, levels, pattern, count).bits.skip(
        before.bits.len() as int,
    )
}

proof fn lemma_luma_tail(
    before: Written,
    address: int,
    wide: int,
    levels: Seq<Seq<int>>,
    pattern: int,
    count: int,
)
    ensures
        luma_written(before, address, wide, levels, pattern, count).bits == before.bits + luma_tail(
            before,
            address,
            wide,
            levels,
            pattern,
            count,
        ),
    decreases count,
{
    let all = luma_written(before, address, wide, levels, pattern, count).bits;
    if count > 0 {
        lemma_luma_tail(before, address, wide, levels, pattern, count - 1);
    }
    assert(all =~= before.bits + all.skip(before.bits.len() as int));
}

/// What chroma levels add to the bits.
spec fn chroma_tail(
    before: Written,
    address: int,
    wide: int,
    cb: ChromaLevels,
    cr: ChromaLevels,
    pattern: int,
) -> Seq<bool> {
    chroma_written(before, address, wide, cb, cr, pattern).bits.skip(before.bits.len() as int)
}

proof fn lemma_blocks_longer(
    before: Written,
    address: int,
    wide: int,
    cb: ChromaLevels,
    cr: ChromaLevels,
    count: int,
)
    ensures
        ({
            let all = chroma_blocks_written(before, address, wide, cb, cr, count).bits;
            &&& all.len() >= before.bits.len()
            &&& all.take(before.bits.len() as int) == before.bits
        }),
    decreases count,
{
    let all = chroma_blocks_written(before, address, wide, cb, cr, count).bits;
    if count > 0 {
        lemma_blocks_longer(before, address, wide, cb, cr, count - 1);
        let less = chroma_blocks_written(before, address, wide, cb, cr, count - 1).bits;
        assert(all.take(before.bits.len() as int) =~= less.take(before.bits.len() as int));
    } else {
        assert(all.take(before.bits.len() as int) =~= before.bits);
    }
}

proof fn lemma_chroma_tail(
    before: Written,
    address: int,
    wide: int,
    cb: ChromaLevels,
    cr: ChromaLevels,
    pattern: int,
)
    ensures
        chroma_written(before, address, wide, cb, cr, pattern).bits == before.bits + chroma_tail(
            before,
            address,
            wide,
            cb,
            cr,
            pattern,
        ),
{
    let all = chroma_written(before, address, wide, cb, cr, pattern).bits;
    let length = before.bits.len() as int;
    if pattern == 2 {
        let means = Written {
            bits: before.bits + block_bits(-1, cb.dc) + block_bits(-1, cr.dc),
            luma: before.luma,
            chroma: before.chroma,
        };
        lemma_blocks_longer(means, address, wide, cb, cr, 8);
        assert(all.take(length) =~= all.take(means.bits.len() as int).take(length));
        assert(means.bits.take(length) =~= before.bits);
    } else {
        assert(all.take(length) =~= before.bits);
    }
    assert(all =~= all.take(length) + all.skip(length));
}

/// A residual is told by its codes, where what precedes it and its patterns are known.
pub proof fn lemma_residual_told(
    before: Written,
    address: int,
    wide: int,
    size: int,
    first: Seq<Seq<int>>,
    second: Seq<Seq<int>>,
    marks: int,
    cb: ChromaLevels,
    cr: ChromaLevels,
    other_cb: ChromaLevels,
    other_cr: ChromaLevels,
    chroma_marks: int,
    x: Seq<bool>,
    y: Seq<bool>,
)
    requires
        size == 15 || size == 16,
        luma_levels_fit(first, size),
        luma_levels_fit(second, size),
        chroma_sized(cb),
        chroma_sized(cr),
        chroma_sized(other_cb),
        chroma_sized(other_cr),
        chroma_written(
            luma_written(before, address, wide, first, marks, 16),
            address,
            wide,
            cb,
            cr,
            chroma_marks,
        ).bits + x == chroma_written(
            luma_written(before, address, wide, second, marks, 16),
            address,
            wide,
            other_cb,
            other_cr,
            chroma_marks,
        ).bits + y,
    ensures
        forall|b: int|
            0 <= b < 16 && quarter_marked(marks, b) ==> #[trigger] first[b] == second[b],
        chroma_marks != 0 ==> cb.dc == other_cb.dc && cr.dc == other_cr.dc,
        chroma_marks == 2 ==> cb.ac == other_cb.ac && cr.ac == other_cr.ac,
        chroma_written(
            luma_written(before, address, wide, first, marks, 16),
            address,
            wide,
            cb,
            cr,
            chroma_marks,
        ) == chroma_written(
            luma_written(before, address, wide, second, marks, 16),
            address,
            wide,
            other_cb,
            other_cr,
            chroma_marks,
        ),
        x == y,
{
    let a = luma_written(before, address, wide, first, marks, 16);
    let b = luma_written(before, address, wide, second, marks, 16);
    let c = chroma_tail(a, address, wide, cb, cr, chroma_marks);
    let d = chroma_tail(b, address, wide, other_cb, other_cr, chroma_marks);
    lemma_chroma_tail(a, address, wide, cb, cr, chroma_marks);
    lemma_chroma_tail(b, address, wide, other_cb, other_cr, chroma_marks);
    assert((a.bits + c) + x =~= a.bits + (c + x));
    assert((b.bits + d) + y =~= b.bits + (d + y));
    lemma_luma_told(before, address, wide, size, first, second, marks, 16, c + x, d + y);
    lemma_chroma_told(a, address, wide, cb, cr, other_cb, other_cr, chroma_marks, x, y);
}

/// What follows the head of a macroblock.
pub proof fn lemma_residual_follows(
    state: CoderState,
    head: Seq<bool>,
    address: int,
    wide: int,
    levels: Seq<Seq<int>>,
    marks: int,
    cb: ChromaLevels,
    cr: ChromaLevels,
    chroma_marks: int,
) -> (rest: Seq<bool>)
    ensures
        chroma_written(
            luma_written(state.written(head), address, wide, levels, marks, 16),
            address,
            wide,
            cb,
            cr,
            chroma_marks,
        ).bits == state.bits + (head + rest),
{
    let before = state.written(head);
    let middle = luma_written(before, address, wide, levels, marks, 16);
    lemma_luma_tail(before, address, wide, levels, marks, 16);
    lemma_chroma_tail(middle, address, wide, cb, cr, chroma_marks);
    let rest = luma_tail(before, address, wide, levels, marks, 16) + chroma_tail(
        middle,
        address,
        wide,
        cb,
        cr,
        chroma_marks,
    );
    assert(chroma_written(middle, address, wide, cb, cr, chroma_marks).bits =~= state.bits + (head
        + rest));
    rest
}

/// A quantizer is told by its change.
pub proof fn lemma_quantizer_told(previous: int, first: int, second: int)
    requires
        quantizer(previous),
        quantizer(first),
        quantizer(second),
        qp_delta(previous, first) == qp_delta(previous, second),
    ensures
        first == second,
{
    law_qp_delta(previous, first);
    law_qp_delta(previous, second);
}

/// The head of a macroblock that is predicted block by block is told by its codes.
#[verifier::spinoff_prover]
#[verifier::rlimit(40)]
proof fn lemma_head_told(
    flag: Seq<bool>,
    first: Seq<Seq<u8>>,
    second: Seq<Seq<u8>>,
    address: int,
    wide: int,
    step: int,
    mode: int,
    other_mode: int,
    pattern: int,
    other_pattern: int,
    previous: int,
    qp: int,
    other_qp: int,
    x: Seq<bool>,
    y: Seq<bool>,
)
    requires
        modes_beside(first, second, address, step),
        0 < wide,
        step == 1 || step == 4,
        0 <= mode,
        0 <= other_mode,
        0 <= pattern < 48,
        0 <= other_pattern < 48,
        quantizer(previous),
        quantizer(qp),
        quantizer(other_qp),
        blockwise_head(
            flag,
            modes_written(first, address, wide, step, 16int / step),
            mode,
            pattern,
            qp_delta(previous, qp),
        ) + x == blockwise_head(
            flag,
            modes_written(second, address, wide, step, 16int / step),
            other_mode,
            other_pattern,
            qp_delta(previous, other_qp),
        ) + y,
    ensures
        modes_agree(first, second, address, 16),
        mode == other_mode,
        pattern == other_pattern,
        pattern != 0 ==> qp == other_qp,
        x == y,
{
    let a = modes_written(first, address, wide, step, 16int / step);
    let b = modes_written(second, address, wide, step, 16int / step);
    let delta = if pattern != 0 {
        se_bits(qp_delta(previous, qp))
    } else {
        Seq::empty()
    };
    let other_delta = if other_pattern != 0 {
        se_bits(qp_delta(previous, other_qp))
    } else {
        Seq::empty()
    };
    let u = ue_bits(pattern_code(true, pattern)) + (delta + x);
    let v = ue_bits(pattern_code(true, other_pattern)) + (other_delta + y);
    let start = ue_bits(0) + flag;
    assert(blockwise_head(flag, a, mode, pattern, qp_delta(previous, qp)) + x =~= start + (a + (
    ue_bits(mode as nat) + u)));
    assert(blockwise_head(flag, b, other_mode, other_pattern, qp_delta(previous, other_qp)) + y
        =~= start + (b + (ue_bits(other_mode as nat) + v)));
    lemma_same_start(
        start,
        a + (ue_bits(mode as nat) + u),
        start,
        b + (ue_bits(other_mode as nat) + v),
    );
    lemma_modes_told(
        first,
        second,
        address,
        wide,
        step,
        16int / step,
        ue_bits(mode as nat) + u,
        ue_bits(other_mode as nat) + v,
    );
    law_unsigned_told(mode as nat, other_mode as nat, u, v);
    law_unsigned_told(
        pattern_code(true, pattern),
        pattern_code(true, other_pattern),
        delta + x,
        other_delta + y,
    );
    law_pattern_code(true, pattern);
    law_pattern_code(true, other_pattern);
    if pattern != 0 {
        law_signed_told(qp_delta(previous, qp), qp_delta(previous, other_qp), x, y);
        lemma_quantizer_told(previous, qp, other_qp);
    } else {
        assert(delta + x =~= x);
        assert(other_delta + y =~= y);
    }
}

/// Levels in quarters that are not marked are zero.
pub proof fn lemma_marks_4(levels: Seq<Seq<int>>, block: int)
    requires
        levels.len() == 16,
        0 <= block < 16,
    ensures
        0 <= luma_pattern(LumaLevels::FourByFour(levels)) < 16,
        !quarter_marked(luma_pattern(LumaLevels::FourByFour(levels)), block) ==> all_zero(
            levels[block],
        ),
{
    let marks = luma_pattern(LumaLevels::FourByFour(levels));
    if !quarter_marked(marks, block) {
        let group = block / 4;
        assert(!crate::inter_residual::group_coded(LumaLevels::FourByFour(levels), group));
        assert(!any_nonzero(levels[4 * group]) && !any_nonzero(levels[4 * group + 1]));
        assert(!any_nonzero(levels[4 * group + 2]) && !any_nonzero(levels[4 * group + 3]));
        assert(block == 4 * group || block == 4 * group + 1 || block == 4 * group + 2 || block == 4
            * group + 3);
        lemma_not_any(levels[block]);
    }
}

/// Where no level is other than zero, all are zero.
pub proof fn lemma_not_any(levels: Seq<int>)
    requires
        !any_nonzero(levels),
    ensures
        all_zero(levels),
{
    assert forall|i: int| 0 <= i < levels.len() implies #[trigger] levels[i] == 0 by {
        if levels[i] != 0 {
            assert(any_nonzero(levels));
        }
    }
}

/// Levels that are all zero are alike.
pub proof fn lemma_zeros_equal(first: Seq<int>, second: Seq<int>)
    requires
        first.len() == second.len(),
        all_zero(first),
        all_zero(second),
    ensures
        first == second,
{
    assert forall|i: int| 0 <= i < first.len() implies first[i] == second[i] by {
        assert(first[i] == 0 && second[i] == 0);
    }
    assert(first =~= second);
}

/// Chroma levels that are told where they are marked are told.
pub proof fn lemma_chroma_equal(
    cb: ChromaLevels,
    cr: ChromaLevels,
    other_cb: ChromaLevels,
    other_cr: ChromaLevels,
)
    requires
        chroma_sized(cb),
        chroma_sized(cr),
        chroma_sized(other_cb),
        chroma_sized(other_cr),
        chroma_pattern(cb, cr) == chroma_pattern(other_cb, other_cr),
        chroma_pattern(cb, cr) != 0 ==> cb.dc == other_cb.dc && cr.dc == other_cr.dc,
        chroma_pattern(cb, cr) == 2 ==> cb.ac == other_cb.ac && cr.ac == other_cr.ac,
    ensures
        cb == other_cb,
        cr == other_cr,
        chroma_pattern(cb, cr) == 0 ==> chroma_zero(cb) && chroma_zero(cr),
        0 <= chroma_pattern(cb, cr) <= 2,
{
    let marks = chroma_pattern(cb, cr);
    if marks == 0 {
        lemma_not_any(cb.dc);
        lemma_not_any(cr.dc);
        lemma_not_any(other_cb.dc);
        lemma_not_any(other_cr.dc);
        lemma_zeros_equal(cb.dc, other_cb.dc);
        lemma_zeros_equal(cr.dc, other_cr.dc);
    }
    if marks != 2 {
        assert forall|b: int| 0 <= b < 4 implies cb.ac[b] == other_cb.ac[b] && all_zero(
            #[trigger] cb.ac[b],
        ) by {
            assert(!any_nonzero(cb.ac[b]) && !any_nonzero(other_cb.ac[b]));
            lemma_not_any(cb.ac[b]);
            lemma_not_any(other_cb.ac[b]);
            lemma_zeros_equal(cb.ac[b], other_cb.ac[b]);
        }
        assert forall|b: int| 0 <= b < 4 implies cr.ac[b] == other_cr.ac[b] && all_zero(
            #[trigger] cr.ac[b],
        ) by {
            assert(!any_nonzero(cr.ac[b]) && !any_nonzero(other_cr.ac[b]));
            lemma_not_any(cr.ac[b]);
            lemma_not_any(other_cr.ac[b]);
            lemma_zeros_equal(cr.ac[b], other_cr.ac[b]);
        }
        assert(cb.ac =~= other_cb.ac);
        assert(cr.ac =~= other_cr.ac);
    }
    assert(cb =~= other_cb);
    assert(cr =~= other_cr);
}

/// Whether what is kept of a picture has its size and its range.
pub open spec fn coder_sized(state: CoderState, count: int) -> bool {
    &&& state.modes.len() == count
    &&& modes_fit(state.modes)
    &&& forall|a: int| 0 <= a < count ==> (#[trigger] state.modes[a]).len() == 16
    &&& quantizer(state.previous_qp)
}

/// Whether a macroblock stands inside a picture of `count` macroblocks and has a quantizer.
pub open spec fn site_sized(site: SiteModel, count: int) -> bool {
    &&& 0 < site.wide
    &&& 0 <= site.address() < count
    &&& quantizer(site.qp)
}

/// Pictures whose modes differ in one macroblock stand beside each other.
pub proof fn lemma_modes_beside(
    modes: Seq<Seq<u8>>,
    address: int,
    first: Seq<u8>,
    second: Seq<u8>,
    step: int,
)
    requires
        0 <= address < modes.len(),
        modes_fit(modes),
        forall|a: int| 0 <= a < modes.len() ==> (#[trigger] modes[a]).len() == 16,
        step == 1 || step == 4,
        first.len() == 16,
        second.len() == 16,
        forall|b: int| 0 <= b < 16 ==> #[trigger] first[b] <= 8,
        forall|b: int| 0 <= b < 16 ==> #[trigger] second[b] <= 8,
        step == 4 ==> forall|b: int| 0 <= b < 16 ==> #[trigger] first[b] == first[b / 4 * 4],
        step == 4 ==> forall|b: int| 0 <= b < 16 ==> #[trigger] second[b] == second[b / 4 * 4],
    ensures
        modes_beside(modes.update(address, first), modes.update(address, second), address, step),
{
    reveal(modes_beside);
    let a = modes.update(address, first);
    let b = modes.update(address, second);
    assert forall|i: int, j: int| 0 <= i < a.len() && 0 <= j < a[i].len() implies #[trigger] a[i][j]
        <= 8 by {
        if i == address {
            assert(a[i][j] == first[j]);
        } else {
            assert(a[i][j] == modes[i][j]);
        }
    }
    assert forall|i: int, j: int| 0 <= i < b.len() && 0 <= j < b[i].len() implies #[trigger] b[i][j]
        <= 8 by {
        if i == address {
            assert(b[i][j] == second[j]);
        } else {
            assert(b[i][j] == modes[i][j]);
        }
    }
    assert forall|i: int| 0 <= i < 16 implies #[trigger] a[address][i] == a[address][i / step
        * step] by {
        assert(a[address][i] == first[i]);
        if step == 1 {
            assert(i / 1 * 1 == i);
        }
    }
    assert forall|i: int| 0 <= i < 16 implies #[trigger] b[address][i] == b[address][i / step
        * step] by {
        assert(b[address][i] == second[i]);
        if step == 1 {
            assert(i / 1 * 1 == i);
        }
    }
}

/// Modes that agree in all blocks are the same.
pub proof fn lemma_rows_agree(
    modes: Seq<Seq<u8>>,
    address: int,
    first: Seq<u8>,
    second: Seq<u8>,
)
    requires
        0 <= address < modes.len(),
        first.len() == 16,
        second.len() == 16,
        modes_agree(modes.update(address, first), modes.update(address, second), address, 16),
    ensures
        first == second,
{
    reveal(modes_agree);
    let a = modes.update(address, first);
    let b = modes.update(address, second);
    assert forall|i: int| 0 <= i < 16 implies first[i] == second[i] by {
        assert(a[address][i] == b[address][i]);
    }
    assert(first =~= second);
}

/// A macroblock that is predicted in four-by-four blocks is told by its bits, where the macroblocks
/// before it are known.
#[verifier::spinoff_prover]
#[verifier::rlimit(40)]
proof fn lemma_intra4_told(
    state: CoderState,
    first: SiteModel,
    second: SiteModel,
    large: bool,
    count: int,
    x: Seq<bool>,
    y: Seq<bool>,
)
    requires
        same_place(first, second),
        coder_sized(state, count),
        site_sized(first, count),
        site_sized(second, count),
        intra4_macroblock(state, first, large).bits + x == intra4_macroblock(
            state,
            second,
            large,
        ).bits + y,
    ensures
        intra4_macroblock(state, first, large) == intra4_macroblock(state, second, large),
        x == y,
{
    reveal(intra4_macroblock);
    let address = first.address();
    let wide = first.wide;
    let a = luma_coded_4(first, state.planes.luma, 16);
    let b = luma_coded_4(second, state.planes.luma, 16);
    let c = chroma_coded_intra(first, state.planes.cb, state.planes.cr);
    let d = chroma_coded_intra(second, state.planes.cb, state.planes.cr);
    lemma_luma_4(first, state.planes.luma, 16);
    lemma_luma_4(second, state.planes.luma, 16);
    lemma_chroma_sizes(first, state.planes.cb, state.planes.cr);
    lemma_chroma_sizes(second, state.planes.cb, state.planes.cr);
    let marks = luma_pattern(LumaLevels::FourByFour(a.levels));
    let other_marks = luma_pattern(LumaLevels::FourByFour(b.levels));
    let chroma_marks = chroma_pattern(c.cb_levels, c.cr_levels);
    let other_chroma = chroma_pattern(d.cb_levels, d.cr_levels);
    lemma_marks_4(a.levels, 0);
    lemma_marks_4(b.levels, 0);
    assert(0 <= chroma_marks <= 2 && 0 <= other_chroma <= 2);
    let flag = if large {
        seq![false]
    } else {
        Seq::empty()
    };
    let modes = state.modes.update(address, a.modes);
    let other_modes = state.modes.update(address, b.modes);
    let head = blockwise_head(
        flag,
        modes_written(modes, address, wide, 1, 16),
        c.mode as int,
        marks + 16 * chroma_marks,
        qp_delta(state.previous_qp, first.qp),
    );
    let other_head = blockwise_head(
        flag,
        modes_written(other_modes, address, wide, 1, 16),
        d.mode as int,
        other_marks + 16 * other_chroma,
        qp_delta(state.previous_qp, second.qp),
    );
    let rest = lemma_residual_follows(
        state,
        head,
        address,
        wide,
        a.levels,
        marks,
        c.cb_levels,
        c.cr_levels,
        chroma_marks,
    );
    let other_rest = lemma_residual_follows(
        state,
        other_head,
        address,
        wide,
        b.levels,
        other_marks,
        d.cb_levels,
        d.cr_levels,
        other_chroma,
    );
    assert((state.bits + (head + rest)) + x =~= state.bits + (head + (rest + x)));
    assert((state.bits + (other_head + other_rest)) + y =~= state.bits + (other_head + (other_rest
        + y)));
    lemma_same_start(
        state.bits,
        head + (rest + x),
        state.bits,
        other_head + (other_rest + y),
    );
    lemma_modes_beside(state.modes, address, a.modes, b.modes, 1);
    lemma_head_told(
        flag,
        modes,
        other_modes,
        address,
        wide,
        1,
        c.mode as int,
        d.mode as int,
        marks + 16 * chroma_marks,
        other_marks + 16 * other_chroma,
        state.previous_qp,
        first.qp,
        second.qp,
        rest + x,
        other_rest + y,
    );
    lemma_rows_agree(state.modes, address, a.modes, b.modes);
    assert(marks == other_marks && chroma_marks == other_chroma);
    assert(head == other_head) by {
        if marks + 16 * chroma_marks != 0 {
            assert(first.qp == second.qp);
        }
    }
    lemma_residual_told(
        state.written(head),
        address,
        wide,
        16,
        a.levels,
        b.levels,
        marks,
        c.cb_levels,
        c.cr_levels,
        d.cb_levels,
        d.cr_levels,
        chroma_marks,
        x,
        y,
    );
    assert forall|i: int| 0 <= i < 16 implies a.levels[i] == b.levels[i] by {
        lemma_marks_4(a.levels, i);
        lemma_marks_4(b.levels, i);
        if !quarter_marked(marks, i) {
            lemma_zeros_equal(a.levels[i], b.levels[i]);
        }
    }
    assert(a.levels =~= b.levels);
    lemma_chroma_equal(c.cb_levels, c.cr_levels, d.cb_levels, d.cr_levels);
    if first.qp != second.qp {
        assert forall|i: int| 0 <= i < 16 implies all_zero(#[trigger] a.levels[i]) by {
            lemma_marks_4(a.levels, i);
            assert(marks == 0);
            assert(!quarter_marked(marks, i));
        }
    }
    lemma_plane_4(first, second, state.planes.luma, 16);
    lemma_chroma_alike(first, second, state.planes.cb, state.planes.cr);
}

/// Levels of quarters that are not marked are zero.
pub proof fn lemma_marks_8(levels: Seq<Seq<int>>, group: int)
    requires
        levels.len() == 4,
        0 <= group < 4,
    ensures
        0 <= luma_pattern(LumaLevels::EightByEight(levels)) < 16,
        !quarter_marked(luma_pattern(LumaLevels::EightByEight(levels)), 4 * group) ==> all_zero(
            levels[group],
        ),
{
    let marks = luma_pattern(LumaLevels::EightByEight(levels));
    if !quarter_marked(marks, 4 * group) {
        assert(!crate::inter_residual::group_coded(LumaLevels::EightByEight(levels), group));
        lemma_not_any(levels[group]);
    }
}

/// Levels that are spread over four blocks keep their range.
pub proof fn lemma_interleaved_fits(levels: Seq<Seq<int>>)
    requires
        levels.len() == 4,
        forall|b: int|
            0 <= b < 4 ==> (#[trigger] levels[b]).len() == 64 && within(levels[b], 0x800_0000),
    ensures
        luma_levels_fit(interleaved(levels), 16),
{
    let spread = interleaved(levels);
    assert forall|b: int| 0 <= b < 16 implies (#[trigger] spread[b]).len() == 16 && within(
        spread[b],
        0x800_0000,
    ) by {
        assert forall|k: int| 0 <= k < 16 implies -0x800_0000 <= #[trigger] spread[b][k]
            <= 0x800_0000 by {
            assert(within(levels[b / 4], 0x800_0000));
            assert(levels[b / 4].len() == 64);
            assert(-0x800_0000 <= levels[b / 4][k * 4 + b % 4] <= 0x800_0000);
        }
    }
}

/// Levels that are spread over four blocks alike are alike.
pub proof fn lemma_gathered(first: Seq<Seq<int>>, second: Seq<Seq<int>>, group: int)
    requires
        first.len() == 4,
        second.len() == 4,
        0 <= group < 4,
        first[group].len() == 64,
        second[group].len() == 64,
        forall|b: int|
            4 * group <= b < 4 * group + 4 ==> #[trigger] interleaved(first)[b] == interleaved(
                second,
            )[b],
    ensures
        first[group] == second[group],
{
    assert forall|j: int| 0 <= j < 64 implies first[group][j] == second[group][j] by {
        let b = 4 * group + j % 4;
        let k = j / 4;
        assert(interleaved(first)[b] == interleaved(second)[b]);
        assert(b / 4 == group && b % 4 == j % 4);
        assert(k * 4 + b % 4 == j);
        assert(interleaved(first)[b][k] == first[group][j]);
        assert(interleaved(second)[b][k] == second[group][j]);
    }
    assert(first[group] =~= second[group]);
}

/// A macroblock that is predicted in eight-by-eight blocks is told by its bits, where the
/// macroblocks before it are known.
#[verifier::spinoff_prover]
#[verifier::rlimit(40)]
proof fn lemma_intra8_told(
    state: CoderState,
    first: SiteModel,
    second: SiteModel,
    count: int,
    x: Seq<bool>,
    y: Seq<bool>,
)
    requires
        same_place(first, second),
        coder_sized(state, count),
        site_sized(first, count),
        site_sized(second, count),
        intra8_macroblock(state, first).bits + x == intra8_macroblock(state, second).bits + y,
    ensures
        intra8_macroblock(state, first) == intra8_macroblock(state, second),
        x == y,
{
    reveal(intra8_macroblock);
    let address = first.address();
    let wide = first.wide;
    let a = luma_coded_8(first, state.planes.luma, 4);
    let b = luma_coded_8(second, state.planes.luma, 4);
    let c = chroma_coded_intra(first, state.planes.cb, state.planes.cr);
    let d = chroma_coded_intra(second, state.planes.cb, state.planes.cr);
    lemma_luma_8(first, state.planes.luma, 4);
    lemma_luma_8(second, state.planes.luma, 4);
    lemma_chroma_sizes(first, state.planes.cb, state.planes.cr);
    lemma_chroma_sizes(second, state.planes.cb, state.planes.cr);
    lemma_interleaved_fits(a.levels);
    lemma_interleaved_fits(b.levels);
    let marks = luma_pattern(LumaLevels::EightByEight(a.levels));
    let other_marks = luma_pattern(LumaLevels::EightByEight(b.levels));
    let chroma_marks = chroma_pattern(c.cb_levels, c.cr_levels);
    let other_chroma = chroma_pattern(d.cb_levels, d.cr_levels);
    lemma_marks_8(a.levels, 0);
    lemma_marks_8(b.levels, 0);
    assert(0 <= chroma_marks <= 2 && 0 <= other_chroma <= 2);
    let row = quarter_modes(a.modes);
    let other_row = quarter_modes(b.modes);
    let modes = state.modes.update(address, row);
    let other_modes = state.modes.update(address, other_row);
    let head = blockwise_head(
        seq![true],
        modes_written(modes, address, wide, 4, 4),
        c.mode as int,
        marks + 16 * chroma_marks,
        qp_delta(state.previous_qp, first.qp),
    );
    let other_head = blockwise_head(
        seq![true],
        modes_written(other_modes, address, wide, 4, 4),
        d.mode as int,
        other_marks + 16 * other_chroma,
        qp_delta(state.previous_qp, second.qp),
    );
    let rest = lemma_residual_follows(
        state,
        head,
        address,
        wide,
        interleaved(a.levels),
        marks,
        c.cb_levels,
        c.cr_levels,
        chroma_marks,
    );
    let other_rest = lemma_residual_follows(
        state,
        other_head,
        address,
        wide,
        interleaved(b.levels),
        other_marks,
        d.cb_levels,
        d.cr_levels,
        other_chroma,
    );
    assert((state.bits + (head + rest)) + x =~= state.bits + (head + (rest + x)));
    assert((state.bits + (other_head + other_rest)) + y =~= state.bits + (other_head + (other_rest
        + y)));
    lemma_same_start(
        state.bits,
        head + (rest + x),
        state.bits,
        other_head + (other_rest + y),
    );
    lemma_modes_beside(state.modes, address, row, other_row, 4);
    lemma_head_told(
        seq![true],
        modes,
        other_modes,
        address,
        wide,
        4,
        c.mode as int,
        d.mode as int,
        marks + 16 * chroma_marks,
        other_marks + 16 * other_chroma,
        state.previous_qp,
        first.qp,
        second.qp,
        rest + x,
        other_rest + y,
    );
    lemma_rows_agree(state.modes, address, row, other_row);
    assert forall|i: int| 0 <= i < 4 implies a.modes[i] == b.modes[i] by {
        assert(row[4 * i] == other_row[4 * i]);
    }
    assert(a.modes =~= b.modes);
    assert(marks == other_marks && chroma_marks == other_chroma);
    assert(head == other_head) by {
        if marks + 16 * chroma_marks != 0 {
            assert(first.qp == second.qp);
        }
    }
    lemma_residual_told(
        state.written(head),
        address,
        wide,
        16,
        interleaved(a.levels),
        interleaved(b.levels),
        marks,
        c.cb_levels,
        c.cr_levels,
        d.cb_levels,
        d.cr_levels,
        chroma_marks,
        x,
        y,
    );
    assert forall|i: int| 0 <= i < 4 implies a.levels[i] == b.levels[i] by {
        lemma_marks_8(a.levels, i);
        lemma_marks_8(b.levels, i);
        if !quarter_marked(marks, 4 * i) {
            lemma_zeros_equal(a.levels[i], b.levels[i]);
        } else {
            assert forall|k: int| 4 * i <= k < 4 * i + 4 implies #[trigger] interleaved(a.levels)[k]
                == interleaved(b.levels)[k] by {
                assert(quarter_marked(marks, k));
            }
            lemma_gathered(a.levels, b.levels, i);
        }
    }
    assert(a.levels =~= b.levels);
    lemma_chroma_equal(c.cb_levels, c.cr_levels, d.cb_levels, d.cr_levels);
    if first.qp != second.qp {
        assert forall|i: int| 0 <= i < 4 implies all_zero(#[trigger] a.levels[i]) by {
            lemma_marks_8(a.levels, i);
            assert(marks == 0);
            assert(!quarter_marked(marks, 4 * i));
        }
    }
    lemma_plane_8(first, second, state.planes.luma, 4);
    lemma_chroma_alike(first, second, state.planes.cb, state.planes.cr);
}

/// What is coded of the luma of a macroblock that is predicted as a whole has its size and its
/// range.
pub proof fn lemma_luma_16(site: SiteModel, plane: Seq<u8>)
    requires
        quantizer(site.qp),
    ensures
        ({
            let coded = luma_coded_16(site, plane);
            &&& coded.mode <= 2
            &&& coded.dc.len() == 16
            &&& within(coded.dc, 0x800_0000)
            &&& luma_levels_fit(coded.ac, 15)
        }),
{
    lemma_matrices(site.preset, true);
    let coded = luma_coded_16(site, plane);
    let stride = 16 * site.wide;
    let x = site.x * 16;
    let y = site.y * 16;
    let matrix = matrix_4x4(site.preset, true);
    let prediction = crate::intra_select::luma16_predicted(
        plane,
        stride,
        x,
        y,
        site.y > 0,
        site.x > 0,
        coded.mode as int,
    );
    lemma_dc_bound(site.source.luma, stride, x, y, prediction, site.qp, matrix);
    assert forall|b: int| 0 <= b < 16 implies (#[trigger] coded.ac[b]).len() == 15 && within(
        coded.ac[b],
        0x800_0000,
    ) by {
        lemma_ac_bound(site.source.luma, stride, x, y, prediction, site.qp, matrix, b);
    }
}

/// The bits of a macroblock that is predicted as a whole, up to the levels that are not means.
spec fn whole_head(state: CoderState, site: SiteModel) -> Seq<bool> {
    let luma = luma_coded_16(site, state.planes.luma);
    let chroma = chroma_coded_intra(site, state.planes.cb, state.planes.cr);
    ue_bits(
        whole_type(
            luma.mode as int,
            chroma_pattern(chroma.cb_levels, chroma.cr_levels),
            any_block_nonzero(luma.ac),
        ) as nat,
    ) + ue_bits(chroma.mode as nat) + se_bits(qp_delta(state.previous_qp, site.qp)) + block_bits(
        means_count(state.luma, site.address(), site.wide),
        luma.dc,
    )
}

/// The head of a macroblock that is predicted as a whole is told by its codes.
proof fn lemma_whole_head_told(
    state: CoderState,
    first: SiteModel,
    second: SiteModel,
    count: int,
    x: Seq<bool>,
    y: Seq<bool>,
)
    requires
        same_place(first, second),
        coder_sized(state, count),
        site_sized(first, count),
        site_sized(second, count),
        whole_head(state, first) + x == whole_head(state, second) + y,
    ensures
        ({
            let a = luma_coded_16(first, state.planes.luma);
            let b = luma_coded_16(second, state.planes.luma);
            let c = chroma_coded_intra(first, state.planes.cb, state.planes.cr);
            let d = chroma_coded_intra(second, state.planes.cb, state.planes.cr);
            &&& a.mode == b.mode
            &&& a.dc == b.dc
            &&& any_block_nonzero(a.ac) == any_block_nonzero(b.ac)
            &&& chroma_pattern(c.cb_levels, c.cr_levels) == chroma_pattern(
                d.cb_levels,
                d.cr_levels,
            )
            &&& c.mode == d.mode
            &&& first.qp == second.qp
        }),
        x == y,
{
    let a = luma_coded_16(first, state.planes.luma);
    let b = luma_coded_16(second, state.planes.luma);
    let c = chroma_coded_intra(first, state.planes.cb, state.planes.cr);
    let d = chroma_coded_intra(second, state.planes.cb, state.planes.cr);
    lemma_luma_16(first, state.planes.luma);
    lemma_luma_16(second, state.planes.luma);
    lemma_chroma_sizes(first, state.planes.cb, state.planes.cr);
    lemma_chroma_sizes(second, state.planes.cb, state.planes.cr);
    let marks = chroma_pattern(c.cb_levels, c.cr_levels);
    let other_marks = chroma_pattern(d.cb_levels, d.cr_levels);
    assert(0 <= marks <= 2 && 0 <= other_marks <= 2);
    let kind = whole_type(a.mode as int, marks, any_block_nonzero(a.ac));
    let other_kind = whole_type(b.mode as int, other_marks, any_block_nonzero(b.ac));
    let n_c = means_count(state.luma, first.address(), first.wide);
    let u = block_bits(n_c, a.dc) + x;
    let v = block_bits(n_c, b.dc) + y;
    let e = se_bits(qp_delta(state.previous_qp, first.qp)) + u;
    let f = se_bits(qp_delta(state.previous_qp, second.qp)) + v;
    assert(whole_head(state, first) + x =~= ue_bits(kind as nat) + (ue_bits(c.mode as nat) + e));
    assert(whole_head(state, second) + y =~= ue_bits(other_kind as nat) + (ue_bits(d.mode as nat)
        + f));
    law_unsigned_told(
        kind as nat,
        other_kind as nat,
        ue_bits(c.mode as nat) + e,
        ue_bits(d.mode as nat) + f,
    );
    law_unsigned_told(c.mode as nat, d.mode as nat, e, f);
    law_signed_told(
        qp_delta(state.previous_qp, first.qp),
        qp_delta(state.previous_qp, second.qp),
        u,
        v,
    );
    lemma_quantizer_told(state.previous_qp, first.qp, second.qp);
    reveal(means_count);
    law_levels_told(n_c, a.dc, b.dc, x, y);
}

/// A macroblock that is predicted as a whole is told by its bits, where the macroblocks before it
/// are known.
#[verifier::spinoff_prover]
#[verifier::rlimit(40)]
proof fn lemma_intra16_told(
    state: CoderState,
    first: SiteModel,
    second: SiteModel,
    count: int,
    x: Seq<bool>,
    y: Seq<bool>,
)
    requires
        same_place(first, second),
        coder_sized(state, count),
        site_sized(first, count),
        site_sized(second, count),
        intra16_macroblock(state, first).bits + x == intra16_macroblock(state, second).bits + y,
    ensures
        intra16_macroblock(state, first) == intra16_macroblock(state, second),
        x == y,
{
    reveal(intra16_macroblock);
    let address = first.address();
    let wide = first.wide;
    let a = luma_coded_16(first, state.planes.luma);
    let b = luma_coded_16(second, state.planes.luma);
    let c = chroma_coded_intra(first, state.planes.cb, state.planes.cr);
    let d = chroma_coded_intra(second, state.planes.cb, state.planes.cr);
    lemma_luma_16(first, state.planes.luma);
    lemma_luma_16(second, state.planes.luma);
    lemma_chroma_sizes(first, state.planes.cb, state.planes.cr);
    lemma_chroma_sizes(second, state.planes.cb, state.planes.cr);
    let marks: int = if any_block_nonzero(a.ac) {
        15
    } else {
        0
    };
    let other_marks: int = if any_block_nonzero(b.ac) {
        15
    } else {
        0
    };
    let chroma_marks = chroma_pattern(c.cb_levels, c.cr_levels);
    let other_chroma = chroma_pattern(d.cb_levels, d.cr_levels);
    let head = whole_head(state, first);
    let other_head = whole_head(state, second);
    let rest = lemma_residual_follows(
        state,
        head,
        address,
        wide,
        a.ac,
        marks,
        c.cb_levels,
        c.cr_levels,
        chroma_marks,
    );
    let other_rest = lemma_residual_follows(
        state,
        other_head,
        address,
        wide,
        b.ac,
        other_marks,
        d.cb_levels,
        d.cr_levels,
        other_chroma,
    );
    assert((state.bits + (head + rest)) + x =~= state.bits + (head + (rest + x)));
    assert((state.bits + (other_head + other_rest)) + y =~= state.bits + (other_head + (other_rest
        + y)));
    lemma_same_start(
        state.bits,
        head + (rest + x),
        state.bits,
        other_head + (other_rest + y),
    );
    lemma_whole_head_told(state, first, second, count, rest + x, other_rest + y);
    assert(head == other_head);
    lemma_residual_told(
        state.written(head),
        address,
        wide,
        15,
        a.ac,
        b.ac,
        marks,
        c.cb_levels,
        c.cr_levels,
        d.cb_levels,
        d.cr_levels,
        chroma_marks,
        x,
        y,
    );
    assert forall|i: int| 0 <= i < 16 implies a.ac[i] == b.ac[i] by {
        if marks == 0 {
            assert(!any_nonzero(a.ac[i]) && !any_nonzero(b.ac[i]));
            lemma_not_any(a.ac[i]);
            lemma_not_any(b.ac[i]);
            lemma_zeros_equal(a.ac[i], b.ac[i]);
        } else {
            assert(quarter_marked(15, i));
        }
    }
    assert(a.ac =~= b.ac);
    lemma_chroma_equal(c.cb_levels, c.cr_levels, d.cb_levels, d.cr_levels);
    lemma_chroma_alike(first, second, state.planes.cb, state.planes.cr);
}

/// A macroblock of a picture that stands alone leaves the bits before it as they are.
proof fn lemma_macroblock_follows(
    configuration: Configuration,
    state: CoderState,
    site: SiteModel,
) -> (more: Seq<bool>)
    requires
        configuration.mode != EncoderMode::Ipcm,
    ensures
        idr_macroblock(configuration, state, site).bits == state.bits + more,
{
    reveal(intra16_macroblock);
    reveal(intra4_macroblock);
    reveal(intra8_macroblock);
    let address = site.address();
    let chroma = chroma_coded_intra(site, state.planes.cb, state.planes.cr);
    let chroma_marks = chroma_pattern(chroma.cb_levels, chroma.cr_levels);
    if configuration.mode == EncoderMode::Intra16 {
        let luma = luma_coded_16(site, state.planes.luma);
        let head = whole_head(state, site);
        let rest = lemma_residual_follows(
            state,
            head,
            address,
            site.wide,
            luma.ac,
            if any_block_nonzero(luma.ac) {
                15
            } else {
                0
            },
            chroma.cb_levels,
            chroma.cr_levels,
            chroma_marks,
        );
        head + rest
    } else if configuration.mode == EncoderMode::Intra8 {
        let luma = luma_coded_8(site, state.planes.luma, 4);
        let marks = luma_pattern(LumaLevels::EightByEight(luma.levels));
        let head = blockwise_head(
            seq![true],
            modes_written(
                state.modes.update(address, quarter_modes(luma.modes)),
                address,
                site.wide,
                4,
                4,
            ),
            chroma.mode as int,
            marks + 16 * chroma_marks,
            qp_delta(state.previous_qp, site.qp),
        );
        let rest = lemma_residual_follows(
            state,
            head,
            address,
            site.wide,
            interleaved(luma.levels),
            marks,
            chroma.cb_levels,
            chroma.cr_levels,
            chroma_marks,
        );
        head + rest
    } else {
        let luma = luma_coded_4(site, state.planes.luma, 16);
        let marks = luma_pattern(LumaLevels::FourByFour(luma.levels));
        let head = blockwise_head(
            if configuration.transform_8x8_mode {
                seq![false]
            } else {
                Seq::empty()
            },
            modes_written(
                state.modes.update(address, luma.modes),
                address,
                site.wide,
                1,
                16,
            ),
            chroma.mode as int,
            marks + 16 * chroma_marks,
            qp_delta(state.previous_qp, site.qp),
        );
        let rest = lemma_residual_follows(
            state,
            head,
            address,
            site.wide,
            luma.levels,
            marks,
            chroma.cb_levels,
            chroma.cr_levels,
            chroma_marks,
        );
        head + rest
    }
}

/// What is kept of a picture keeps its size and its range.
proof fn lemma_macroblock_sized(
    configuration: Configuration,
    state: CoderState,
    site: SiteModel,
    count: int,
)
    requires
        configuration.mode != EncoderMode::Ipcm,
        coder_sized(state, count),
        site_sized(site, count),
    ensures
        coder_sized(idr_macroblock(configuration, state, site), count),
{
    reveal(intra16_macroblock);
    reveal(intra4_macroblock);
    reveal(intra8_macroblock);
    let address = site.address();
    let after = idr_macroblock(configuration, state, site);
    if configuration.mode != EncoderMode::Intra16 {
        let row = if configuration.mode == EncoderMode::Intra8 {
            quarter_modes(luma_coded_8(site, state.planes.luma, 4).modes)
        } else {
            luma_coded_4(site, state.planes.luma, 16).modes
        };
        lemma_luma_8(site, state.planes.luma, 4);
        lemma_luma_4(site, state.planes.luma, 16);
        assert(after.modes == state.modes.update(address, row));
        assert(row.len() == 16);
        assert forall|b: int| 0 <= b < 16 implies #[trigger] row[b] <= 8 by {
            if configuration.mode == EncoderMode::Intra8 {
                assert(luma_coded_8(site, state.planes.luma, 4).modes[b / 4] <= 8);
            }
        }
        assert forall|a: int, b: int|
            0 <= a < after.modes.len() && 0 <= b < after.modes[a].len() implies
            #[trigger] after.modes[a][b] <= 8 by {
            if a == address {
                assert(after.modes[a][b] == row[b]);
            } else {
                assert(after.modes[a][b] == state.modes[a][b]);
            }
        }
    }
}

/// The macroblocks of a picture that stands alone are told by its bits.
proof fn lemma_macroblocks_told(
    configuration: Configuration,
    first: Samples,
    first_qps: Seq<int>,
    second: Samples,
    second_qps: Seq<int>,
    start: CoderState,
    high: int,
    count: int,
    x: Seq<bool>,
    y: Seq<bool>,
)
    requires
        configuration.mode != EncoderMode::Ipcm,
        configuration.macroblocks_wide > 0,
        0 <= count <= configuration.macroblocks_wide * high,
        coder_sized(start, configuration.macroblocks_wide * high),
        forall|a: int|
            0 <= a < configuration.macroblocks_wide * high ==> quantizer(#[trigger] first_qps[a]),
        forall|a: int|
            0 <= a < configuration.macroblocks_wide * high ==> quantizer(
                #[trigger] second_qps[a],
            ),
        idr_coded(configuration, first, first_qps, start, count).bits + x == idr_coded(
            configuration,
            second,
            second_qps,
            start,
            count,
        ).bits + y,
    ensures
        idr_coded(configuration, first, first_qps, start, count) == idr_coded(
            configuration,
            second,
            second_qps,
            start,
            count,
        ),
        coder_sized(
            idr_coded(configuration, first, first_qps, start, count),
            configuration.macroblocks_wide * high,
        ),
        x == y,
    decreases count,
{
    if count <= 0 {
        lemma_same_start(start.bits, x, start.bits, y);
    } else {
        let all = configuration.macroblocks_wide * high;
        let address = count - 1;
        let wide = configuration.macroblocks_wide as int;
        let state = idr_coded(configuration, first, first_qps, start, address);
        let other = idr_coded(configuration, second, second_qps, start, address);
        let a = idr_site(configuration, first, first_qps, address);
        let b = idr_site(configuration, second, second_qps, address);
        vstd::arithmetic::div_mod::lemma_fundamental_div_mod(address, wide);
        assert(wide * (address / wide) == (address / wide) * wide) by (nonlinear_arith);
        assert(a.address() == address && b.address() == address);
        let more = lemma_macroblock_follows(configuration, state, a);
        let rest = lemma_macroblock_follows(configuration, other, b);
        assert((state.bits + more) + x =~= state.bits + (more + x));
        assert((other.bits + rest) + y =~= other.bits + (rest + y));
        lemma_macroblocks_told(
            configuration,
            first,
            first_qps,
            second,
            second_qps,
            start,
            high,
            address,
            more + x,
            rest + y,
        );
        assert(quantizer(first_qps[address]) && quantizer(second_qps[address]));
        if configuration.mode == EncoderMode::Intra16 {
            lemma_intra16_told(state, a, b, all, x, y);
        } else if configuration.mode == EncoderMode::Intra8 {
            lemma_intra8_told(state, a, b, all, x, y);
        } else {
            lemma_intra4_told(state, a, b, configuration.transform_8x8_mode, all, x, y);
        }
        lemma_macroblock_sized(configuration, state, a, all);
    }
}

/// Bits are told by the bytes that hold them, behind which a stop bit stands.
pub proof fn lemma_payload_told(first: Seq<bool>, second: Seq<bool>)
    requires
        packed(finished(first)) == packed(finished(second)),
    ensures
        first == second,
{
    let a = finished(first);
    let b = finished(second);
    law_unpack_packed(a);
    law_unpack_packed(b);
    assert(aligned(a, false) =~= a);
    assert(aligned(b, false) =~= b);
    assert(a == b);
    let m = first.len() as int;
    let n = second.len() as int;
    assert(a[m] && b[n]);
    if m < n {
        assert(!a[n]);
    } else if n < m {
        assert(!b[m]);
    }
    assert(a.take(m) =~= first);
    assert(b.take(n) =~= second);
}

/// The quantizers of all macroblocks exist.
pub proof fn lemma_quantizers(luma: Seq<u8>, wide: int, high: int, qp: int, strength: int)
    requires
        quantizer(qp),
    ensures
        forall|a: int|
            0 <= a < wide * high ==> quantizer(
                #[trigger] adaptive_qps(luma, wide, high, qp, strength)[a],
            ),
{
    reveal(adaptive_qps);
}

/// The unit of a picture that stands alone and is written with variable-length codes tells all its
/// coded samples: what two frames and quantizers lead to is the same wherever the units are.
pub proof fn law_unit_tells_picture(
    configuration: Configuration,
    first_qp: i32,
    second_qp: i32,
    first: FrameModel,
    second: FrameModel,
    pic_order_cnt_lsb: int,
)
    requires
        configuration.mode != EncoderMode::Ipcm,
        configuration.macroblocks_wide > 0,
        configuration.macroblocks_high > 0,
        quantizer(first_qp as int),
        quantizer(second_qp as int),
        cavlc_idr(
            Configuration { qp: first_qp, ..configuration },
            first,
            pic_order_cnt_lsb,
        ).nal == cavlc_idr(
            Configuration { qp: second_qp, ..configuration },
            second,
            pic_order_cnt_lsb,
        ).nal,
    ensures
        cavlc_idr(
            Configuration { qp: first_qp, ..configuration },
            first,
            pic_order_cnt_lsb,
        ).coded_reconstruction == cavlc_idr(
            Configuration { qp: second_qp, ..configuration },
            second,
            pic_order_cnt_lsb,
        ).coded_reconstruction,
        first_qp == second_qp,
{
    reveal(cavlc_idr);
    let a = Configuration { qp: first_qp, ..configuration };
    let b = Configuration { qp: second_qp, ..configuration };
    let wide = configuration.macroblocks_wide as int;
    let high = configuration.macroblocks_high as int;
    let strength = configuration.aq_strength as int;
    let source = padded_samples(first, wide, high);
    let other = padded_samples(second, wide, high);
    let qps = adaptive_qps(source.luma, wide, high, first_qp as int, strength);
    let other_qps = adaptive_qps(other.luma, wide, high, second_qp as int, strength);
    lemma_quantizers(source.luma, wide, high, first_qp as int, strength);
    lemma_quantizers(other.luma, wide, high, second_qp as int, strength);
    let ordered = configuration.pic_order_cnt_type0;
    let start = coder_start(
        idr_header(ordered, pic_order_cnt_lsb, first_qp as int),
        wide,
        high,
        first_qp as int,
    );
    let other_start = coder_start(
        idr_header(ordered, pic_order_cnt_lsb, second_qp as int),
        wide,
        high,
        second_qp as int,
    );
    let count = wide * high;
    let u = idr_coded(a, source, qps, start, count);
    let v = idr_coded(b, other, other_qps, other_start, count);
    law_unescape_nal(0x65, packed(finished(u.bits)));
    law_unescape_nal(0x65, packed(finished(v.bits)));
    let c = seq![0x65u8] + packed(finished(u.bits));
    let d = seq![0x65u8] + packed(finished(v.bits));
    assert(c.skip(1) =~= packed(finished(u.bits)));
    assert(d.skip(1) =~= packed(finished(v.bits)));
    lemma_payload_told(u.bits, v.bits);
    assert(0 <= count) by (nonlinear_arith)
        requires
            count == wide * high,
            0 < wide,
            0 < high,
    ;
    let rest = lemma_bits_follow(a, source, qps, start, count);
    let other_rest = lemma_bits_follow(b, other, other_qps, other_start, count);
    lemma_header_told(
        ordered,
        pic_order_cnt_lsb,
        first_qp as int,
        second_qp as int,
        rest,
        other_rest,
    );
    assert(start.modes.len() == count);
    assert forall|i: int, j: int| 0 <= i < start.modes.len() && 0 <= j < start.modes[i].len() implies
        #[trigger] start.modes[i][j] <= 8 by {}
    assert(u.bits + Seq::empty() =~= v.bits + Seq::empty());
    lemma_macroblocks_told(
        a,
        source,
        qps,
        other,
        other_qps,
        start,
        high,
        count,
        Seq::empty(),
        Seq::empty(),
    );
}

/// What follows the header of a picture that stands alone.
proof fn lemma_bits_follow(
    configuration: Configuration,
    source: Samples,
    qps: Seq<int>,
    start: CoderState,
    count: int,
) -> (rest: Seq<bool>)
    requires
        configuration.mode != EncoderMode::Ipcm,
        0 <= count,
    ensures
        idr_coded(configuration, source, qps, start, count).bits == start.bits + rest,
    decreases count,
{
    if count <= 0 {
        assert(start.bits =~= start.bits + Seq::empty());
        Seq::empty()
    } else {
        let rest = lemma_bits_follow(configuration, source, qps, start, count - 1);
        let state = idr_coded(configuration, source, qps, start, count - 1);
        let more = lemma_macroblock_follows(
            configuration,
            state,
            idr_site(configuration, source, qps, count - 1),
        );
        assert((start.bits + rest) + more =~= start.bits + (rest + more));
        rest + more
    }
}

/// The quantizer of a picture is told by its header.
pub proof fn lemma_header_told(
    ordered: bool,
    lsb: int,
    first: int,
    second: int,
    x: Seq<bool>,
    y: Seq<bool>,
)
    requires
        idr_header(ordered, lsb, first) + x == idr_header(ordered, lsb, second) + y,
    ensures
        first == second,
        x == y,
{
    let start = ue_bits(0) + ue_bits(2) + ue_bits(0) + bits_of(0, 4) + ue_bits(0) + (if ordered {
        bits_of(lsb as nat, 4)
    } else {
        Seq::empty()
    }) + seq![false, false];
    assert(idr_header(ordered, lsb, first) + x =~= start + (se_bits(first - 26) + (ue_bits(1) + x)));
    assert(idr_header(ordered, lsb, second) + y =~= start + (se_bits(second - 26) + (ue_bits(1)
        + y)));
    lemma_same_start(
        start,
        se_bits(first - 26) + (ue_bits(1) + x),
        start,
        se_bits(second - 26) + (ue_bits(1) + y),
    );
    law_signed_told(first - 26, second - 26, ue_bits(1) + x, ue_bits(1) + y);
    law_unsigned_told(1, 1, x, y);
}

} // verus!
