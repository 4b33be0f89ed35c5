//! What the bits of the residual of a macroblock tell that is predicted from other pictures.

use vstd::prelude::*;

use crate::cavlc_syntax::{interleaved, quarter_marked};
use crate::golomb::{se_bits, ue_bits};
use crate::inter_coding::{
    inter_coded, inter_luma_levels, inter_luma_plane, luma_blocks, InterCoded,
};
use crate::inter_residual::{
    block_difference, chroma_pattern, group_coded, inter_residual, luma_pattern, unscanned,
    LumaLevels,
};
use crate::intra_coding::chroma_site_levels;
use crate::level_bounds::{
    lemma_chroma_bound, lemma_levels_4x4_bound, lemma_levels_8x8_bound, lemma_matrices,
};
use crate::p_picture::inter_pattern_bits;
use crate::patterns::{law_pattern_code, pattern_code};
use crate::picture::{chroma_qp_of, Samples, SiteModel};
use crate::quantize::quantizer;
use crate::quantizers::qp_delta;
use crate::reconstruct::{residual_4x4, residual_8x8};
use crate::scaling::{matrix_4x4, matrix_8x8, ScalingMatrixPreset};
use crate::told_codes::{
    chroma_sized, law_signed_told, law_unsigned_told, lemma_same_start, luma_levels_fit,
};
use crate::told_pictures::{
    all_zero, chroma_zero, lemma_chroma_plane, lemma_chroma_quantizer, lemma_gathered,
    lemma_interleaved_fits, lemma_not_any, lemma_quantizer_told, lemma_zero_4x4, lemma_zero_8x8,
    lemma_zeros_equal, same_place,
};
use crate::transform::within;

verus! {

/// Whether luma levels have their size and their range.
pub open spec fn inter_fits(levels: LumaLevels) -> bool {
    match levels {
        LumaLevels::FourByFour(blocks) => luma_levels_fit(blocks, 16),
        LumaLevels::BypassFourByFour(blocks) => luma_levels_fit(blocks, 16),
        LumaLevels::EightByEight(blocks) => blocks.len() == 4 && forall|b: int|
            0 <= b < 4 ==> (#[trigger] blocks[b]).len() == 64 && within(blocks[b], 0x800_0000),
    }
}

/// The luma levels of a macroblock have their size and their range.
pub proof fn lemma_inter_fits(site: SiteModel, prediction: Seq<u8>, allowed: bool)
    requires
        quantizer(site.qp),
    ensures
        inter_fits(inter_luma_levels(site, prediction, allowed)),
        site.bypass <==> inter_luma_levels(site, prediction, allowed) is BypassFourByFour,
        inter_luma_levels(site, prediction, allowed) is EightByEight ==> allowed,
{
    reveal(inter_luma_levels);
    lemma_matrices(site.preset, false);
    let source = site.source.luma;
    let stride = 16 * site.wide;
    let x = site.x * 16;
    let y = site.y * 16;
    match inter_luma_levels(site, prediction, allowed) {
        LumaLevels::FourByFour(blocks) => {
            assert forall|b: int| 0 <= b < 16 implies (#[trigger] blocks[b]).len() == 16 && within(
                blocks[b],
                0x800_0000,
            ) by {
                lemma_levels_4x4_bound(
                    block_difference(source, stride, x, y, prediction, b),
                    site.qp,
                    matrix_4x4(site.preset, false),
                );
            }
        },
        LumaLevels::BypassFourByFour(blocks) => {
            crate::quant_tables::law_scan_order(4);
            assert forall|b: int| 0 <= b < 16 implies (#[trigger] blocks[b]).len() == 16 && within(
                blocks[b],
                0x800_0000,
            ) by {
                let plain = block_difference(source, stride, x, y, prediction, b);
                assert(within(plain, 255));
                assert forall|k: int| 0 <= k < 16 implies -0x800_0000 <= #[trigger] blocks[b][k]
                    <= 0x800_0000 by {
                    let place = crate::quant_tables::zig_zag(4, k);
                    assert(0 <= place < 16);
                    assert(-255 <= plain[place] <= 255);
                }
            }
        },
        LumaLevels::EightByEight(blocks) => {
            assert forall|b: int| 0 <= b < 4 implies (#[trigger] blocks[b]).len() == 64 && within(
                blocks[b],
                0x800_0000,
            ) by {
                lemma_levels_8x8_bound(
                    crate::residual::difference(
                        source,
                        stride,
                        x + b % 2 * 8,
                        y + b / 2 * 8,
                        crate::inter_residual::quarter_of(prediction, b),
                        8,
                        0,
                        0,
                        8,
                    ),
                    site.qp,
                    matrix_8x8(site.preset, false),
                );
            }
        },
    }
}

/// The blocks that carry luma levels have their size and their range.
pub proof fn lemma_blocks_fit(levels: LumaLevels)
    requires
        inter_fits(levels),
    ensures
        luma_levels_fit(luma_blocks(levels), 16),
        0 <= luma_pattern(levels) < 16,
{
    if let LumaLevels::EightByEight(blocks) = levels {
        lemma_interleaved_fits(blocks);
    }
}

/// Quarters that are marked are those that hold something.
proof fn lemma_marked(levels: LumaLevels, group: int)
    requires
        0 <= group < 4,
    ensures
        quarter_marked(luma_pattern(levels), 4 * group) == group_coded(levels, group),
        quarter_marked(luma_pattern(levels), 4 * group + 1) == group_coded(levels, group),
        quarter_marked(luma_pattern(levels), 4 * group + 2) == group_coded(levels, group),
        quarter_marked(luma_pattern(levels), 4 * group + 3) == group_coded(levels, group),
{
}

/// Whether luma levels are all zero.
pub open spec fn inter_zero(levels: LumaLevels) -> bool {
    match levels {
        LumaLevels::FourByFour(blocks) => forall|b: int|
            0 <= b < 16 ==> all_zero(#[trigger] blocks[b]),
        LumaLevels::BypassFourByFour(blocks) => forall|b: int|
            0 <= b < 16 ==> all_zero(#[trigger] blocks[b]),
        LumaLevels::EightByEight(blocks) => forall|b: int|
            0 <= b < 4 ==> all_zero(#[trigger] blocks[b]),
    }
}

proof fn lemma_unmarked_blocks(blocks: Seq<Seq<int>>, group: int, block: int)
    requires
        !crate::inter_residual::blocks_coded(blocks, group),
        4 * group <= block < 4 * group + 4,
    ensures
        all_zero(blocks[block]),
{
    assert(block == 4 * group || block == 4 * group + 1 || block == 4 * group + 2 || block == 4
        * group + 3);
    lemma_not_any(blocks[block]);
}

/// Levels without marks are zero.
pub proof fn lemma_no_marks(levels: LumaLevels)
    requires
        inter_fits(levels),
        luma_pattern(levels) == 0,
    ensures
        inter_zero(levels),
{
    lemma_marked(levels, 0);
    lemma_marked(levels, 1);
    lemma_marked(levels, 2);
    lemma_marked(levels, 3);
    match levels {
        LumaLevels::FourByFour(blocks) => {
            assert forall|b: int| 0 <= b < 16 implies all_zero(#[trigger] blocks[b]) by {
                assert(!group_coded(levels, b / 4));
                lemma_unmarked_blocks(blocks, b / 4, b);
            }
        },
        LumaLevels::BypassFourByFour(blocks) => {
            assert forall|b: int| 0 <= b < 16 implies all_zero(#[trigger] blocks[b]) by {
                assert(!group_coded(levels, b / 4));
                lemma_unmarked_blocks(blocks, b / 4, b);
            }
        },
        LumaLevels::EightByEight(blocks) => {
            assert forall|b: int| 0 <= b < 4 implies all_zero(#[trigger] blocks[b]) by {
                assert(!group_coded(levels, b));
                lemma_not_any(blocks[b]);
            }
        },
    }
}

proof fn lemma_blocks_equal(first: LumaLevels, second: LumaLevels, a: Seq<Seq<int>>, b: Seq<Seq<int>>)
    requires
        luma_levels_fit(a, 16),
        luma_levels_fit(b, 16),
        first == LumaLevels::FourByFour(a) || first == LumaLevels::BypassFourByFour(a),
        second == LumaLevels::FourByFour(b) || second == LumaLevels::BypassFourByFour(b),
        luma_pattern(first) == luma_pattern(second),
        forall|i: int|
            0 <= i < 16 && quarter_marked(luma_pattern(first), i) ==> #[trigger] a[i] == b[i],
    ensures
        a == b,
{
    assert forall|i: int| 0 <= i < 16 implies a[i] == b[i] by {
        if !quarter_marked(luma_pattern(first), i) {
            lemma_marked(first, i / 4);
            lemma_marked(second, i / 4);
            assert(i == 4 * (i / 4) || i == 4 * (i / 4) + 1 || i == 4 * (i / 4) + 2 || i == 4 * (i
                / 4) + 3);
            assert(!group_coded(first, i / 4) && !group_coded(second, i / 4));
            lemma_unmarked_blocks(a, i / 4, i);
            lemma_unmarked_blocks(b, i / 4, i);
            lemma_zeros_equal(a[i], b[i]);
        }
    }
    assert(a =~= b);
}

/// Levels that are told where they are marked are told.
pub proof fn lemma_luma_equal(first: LumaLevels, second: LumaLevels)
    requires
        inter_fits(first),
        inter_fits(second),
        first is EightByEight == second is EightByEight,
        first is BypassFourByFour == second is BypassFourByFour,
        luma_pattern(first) == luma_pattern(second),
        forall|b: int|
            0 <= b < 16 && quarter_marked(luma_pattern(first), b) ==> #[trigger] luma_blocks(
                first,
            )[b] == luma_blocks(second)[b],
    ensures
        first == second,
{
    match (first, second) {
        (LumaLevels::FourByFour(a), LumaLevels::FourByFour(b)) => {
            assert(luma_blocks(first) == a && luma_blocks(second) == b);
            lemma_blocks_equal(first, second, a, b);
        },
        (LumaLevels::BypassFourByFour(a), LumaLevels::BypassFourByFour(b)) => {
            assert(luma_blocks(first) == a && luma_blocks(second) == b);
            lemma_blocks_equal(first, second, a, b);
        },
        (LumaLevels::EightByEight(a), LumaLevels::EightByEight(b)) => {
            assert forall|g: int| 0 <= g < 4 implies a[g] == b[g] by {
                lemma_marked(first, g);
                lemma_marked(second, g);
                if group_coded(first, g) {
                    assert forall|k: int| 4 * g <= k < 4 * g + 4 implies #[trigger] interleaved(
                        a,
                    )[k] == interleaved(b)[k] by {
                        assert(k == 4 * g || k == 4 * g + 1 || k == 4 * g + 2 || k == 4 * g + 3);
                        assert(quarter_marked(luma_pattern(first), k));
                        assert(luma_blocks(first)[k] == luma_blocks(second)[k]);
                    }
                    lemma_gathered(a, b, g);
                } else {
                    lemma_not_any(a[g]);
                    lemma_not_any(b[g]);
                    lemma_zeros_equal(a[g], b[g]);
                }
            }
            assert(a =~= b);
        },
        _ => {},
    }
}

/// Levels that are all zero stand for nothing.
proof fn lemma_zero_residual(levels: LumaLevels, qp: int, preset: ScalingMatrixPreset)
    requires
        inter_fits(levels),
        inter_zero(levels),
        quantizer(qp),
    ensures
        inter_residual(levels, qp, preset) == Seq::new(256, |i: int| 0int),
{
    let all = inter_residual(levels, qp, preset);
    match levels {
        LumaLevels::FourByFour(blocks) => {
            let parts = Seq::new(
                16,
                |b: int| residual_4x4(blocks[b], qp, matrix_4x4(preset, false)),
            );
            assert forall|b: int| 0 <= b < 16 implies #[trigger] parts[b] == Seq::new(
                16,
                |i: int| 0int,
            ) by {
                lemma_zero_4x4(blocks[b], qp, matrix_4x4(preset, false));
            }
            assert forall|i: int| 0 <= i < 256 implies #[trigger] all[i] == 0 by {
                lemma_place_16(i);
                let b = crate::deblock::block_at(i % 16 / 4, i / 16 / 4);
                assert(parts[b] == Seq::new(16, |i: int| 0int));
            }
        },
        LumaLevels::BypassFourByFour(blocks) => {
            crate::quant_tables::law_scan_order(4);
            assert forall|i: int| 0 <= i < 256 implies #[trigger] all[i] == 0 by {
                lemma_place_16(i);
                let b = crate::deblock::block_at(i % 16 / 4, i / 16 / 4);
                let p = i / 16 % 4 * 4 + i % 4;
                assert(0 <= crate::quant_tables::scan(4, p) < 16);
                assert(all_zero(blocks[b]));
                assert(blocks[b].len() == 16);
                assert(unscanned(blocks[b])[p] == 0);
            }
        },
        LumaLevels::EightByEight(blocks) => {
            let parts = Seq::new(
                4,
                |b: int| residual_8x8(blocks[b], qp, matrix_8x8(preset, false)),
            );
            assert forall|b: int| 0 <= b < 4 implies #[trigger] parts[b] == Seq::new(
                64,
                |i: int| 0int,
            ) by {
                lemma_zero_8x8(blocks[b], qp, matrix_8x8(preset, false));
            }
            assert forall|i: int| 0 <= i < 256 implies #[trigger] all[i] == 0 by {
                let b = i / 128 * 2 + i % 16 / 8;
                assert(0 <= b < 4);
                assert(0 <= i / 16 % 8 * 8 + i % 8 < 64);
                assert(parts[b] == Seq::new(64, |i: int| 0int));
            }
        },
    }
    assert(all =~= Seq::new(256, |i: int| 0int));
}

proof fn lemma_place_16(i: int)
    requires
        0 <= i < 256,
    ensures
        0 <= crate::deblock::block_at(i % 16 / 4, i / 16 / 4) < 16,
        0 <= i / 16 % 4 * 4 + i % 4 < 16,
{
    let x = i % 16 / 4;
    let y = i / 16 / 4;
    assert(0 <= x < 4 && 0 <= y < 4);
    assert(0 <= crate::deblock::block_at(x, y) < 16);
}

/// The chroma levels of a macroblock that is predicted from other pictures have their size and
/// their range.
proof fn lemma_inter_chroma_sized(site: SiteModel, source: Seq<u8>, prediction: Seq<u8>)
    requires
        quantizer(site.qp),
    ensures
        chroma_sized(chroma_site_levels(site, source, prediction, None, false)),
{
    reveal(chroma_site_levels);
    lemma_chroma_quantizer(site.qp);
    lemma_matrices(site.preset, false);
    lemma_chroma_bound(
        source,
        8 * site.wide,
        site.x * 8,
        site.y * 8,
        prediction,
        chroma_qp_of(site.qp),
        site.bypass,
        None,
        matrix_4x4(site.preset, false),
    );
}

/// The pattern of a coded macroblock, with that of chroma in its upper part.
pub open spec fn coded_pattern(coded: InterCoded) -> int {
    luma_pattern(coded.luma) + 16 * chroma_pattern(coded.cb, coded.cr)
}

/// What is coded of a macroblock has its size and its range.
pub proof fn lemma_inter_sized(
    site: SiteModel,
    planes: Samples,
    prediction: Samples,
    allowed: bool,
)
    requires
        quantizer(site.qp),
    ensures
        ({
            let coded = inter_coded(site, planes, prediction, allowed);
            &&& inter_fits(coded.luma)
            &&& chroma_sized(coded.cb)
            &&& chroma_sized(coded.cr)
            &&& luma_levels_fit(luma_blocks(coded.luma), 16)
            &&& 0 <= luma_pattern(coded.luma) < 16
            &&& 0 <= chroma_pattern(coded.cb, coded.cr) <= 2
            &&& coded.luma is BypassFourByFour == site.bypass
            &&& coded.luma is EightByEight ==> allowed
        }),
{
    lemma_inter_fits(site, prediction.luma, allowed);
    lemma_blocks_fit(inter_luma_levels(site, prediction.luma, allowed));
    lemma_inter_chroma_sized(site, site.source.cb, prediction.cb);
    lemma_inter_chroma_sized(site, site.source.cr, prediction.cr);
}

/// The same prediction, levels, and quantizer give the same samples; without levels any quantizer
/// does.
pub proof fn lemma_inter_alike(
    first: SiteModel,
    second: SiteModel,
    planes: Samples,
    prediction: Samples,
    allowed: bool,
)
    requires
        same_place(first, second),
        quantizer(first.qp),
        quantizer(second.qp),
        ({
            let a = inter_coded(first, planes, prediction, allowed);
            let b = inter_coded(second, planes, prediction, allowed);
            &&& a.cb == b.cb
            &&& a.cr == b.cr
            &&& a.luma == b.luma || (inter_zero(a.luma) && inter_zero(b.luma))
            &&& first.qp == second.qp || (inter_zero(a.luma) && inter_zero(b.luma) && chroma_zero(
                a.cb,
            ) && chroma_zero(a.cr))
        }),
    ensures
        inter_coded(first, planes, prediction, allowed).planes == inter_coded(
            second,
            planes,
            prediction,
            allowed,
        ).planes,
{
    let a = inter_coded(first, planes, prediction, allowed);
    let b = inter_coded(second, planes, prediction, allowed);
    lemma_inter_sized(first, planes, prediction, allowed);
    lemma_inter_sized(second, planes, prediction, allowed);
    reveal(inter_luma_plane);
    if first.qp != second.qp || a.luma != b.luma {
        lemma_zero_residual(a.luma, first.qp, first.preset);
        lemma_zero_residual(b.luma, second.qp, second.preset);
    }
    lemma_chroma_plane(first, second, planes.cb, prediction.cb, a.cb, None, false);
    lemma_chroma_plane(first, second, planes.cr, prediction.cr, a.cr, None, false);
    assert(a.planes =~= b.planes);
}

/// What stands between the motion and the residual of a macroblock is told by its codes.
#[verifier::spinoff_prover]
#[verifier::rlimit(40)]
pub proof fn lemma_pattern_told(
    pattern: int,
    other_pattern: int,
    marks: int,
    other_marks: int,
    allowed: bool,
    large: bool,
    other_large: bool,
    previous: int,
    qp: int,
    other_qp: int,
    x: Seq<bool>,
    y: Seq<bool>,
)
    requires
        0 <= pattern < 48,
        0 <= other_pattern < 48,
        0 <= marks < 16,
        0 <= other_marks < 16,
        pattern % 16 == marks,
        other_pattern % 16 == other_marks,
        quantizer(previous),
        quantizer(qp),
        quantizer(other_qp),
        inter_pattern_bits(pattern, marks, allowed, large, qp_delta(previous, qp)) + x
            == inter_pattern_bits(
            other_pattern,
            other_marks,
            allowed,
            other_large,
            qp_delta(previous, other_qp),
        ) + y,
    ensures
        pattern == other_pattern,
        marks == other_marks,
        allowed && marks != 0 ==> large == other_large,
        pattern != 0 ==> qp == other_qp,
        x == y,
{
    let flag = if allowed && marks != 0 {
        seq![large]
    } else {
        Seq::empty()
    };
    let other_flag = if allowed && other_marks != 0 {
        seq![other_large]
    } else {
        Seq::empty()
    };
    let delta = if pattern != 0 {
        se_bits(qp_delta(previous, qp))
    } else {
        Seq::empty()
    };
    let other_delta = if other_pattern != 0 {
        se_bits(qp_delta(previous, other_qp))
    } else {
        Seq::empty()
    };
    assert(inter_pattern_bits(pattern, marks, allowed, large, qp_delta(previous, qp)) + x
        =~= ue_bits(pattern_code(false, pattern)) + (flag + (delta + x)));
    assert(inter_pattern_bits(
        other_pattern,
        other_marks,
        allowed,
        other_large,
        qp_delta(previous, other_qp),
    ) + y =~= ue_bits(pattern_code(false, other_pattern)) + (other_flag + (other_delta + y)));
    law_unsigned_told(
        pattern_code(false, pattern),
        pattern_code(false, other_pattern),
        flag + (delta + x),
        other_flag + (other_delta + y),
    );
    law_pattern_code(false, pattern);
    law_pattern_code(false, other_pattern);
    assert(pattern == other_pattern);
    lemma_same_start(flag, delta + x, other_flag, other_delta + y);
    if allowed && marks != 0 {
        assert(flag[0] == large && other_flag[0] == other_large);
    }
    if pattern != 0 {
        law_signed_told(qp_delta(previous, qp), qp_delta(previous, other_qp), x, y);
        lemma_quantizer_told(previous, qp, other_qp);
    } else {
        assert(delta + x =~= x);
        assert(other_delta + y =~= y);
    }
}

} // verus!
