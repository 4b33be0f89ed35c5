//! What the symbols of the residual of a macroblock tell that is predicted from other pictures,
//! where they are read one by one.

use vstd::prelude::*;

use crate::arithmetic::Bin;
use crate::bins::{decision, inner_bins, pattern_bins, qp_delta_bins, BlockKind};
use crate::cabac_inter::InterState;
use crate::cabac_intra::transform_slot;
use crate::cavlc_syntax::quarter_marked;
use crate::inner_symbols::{
    lemma_chroma_inner, lemma_inner_joined, lemma_large_inner, lemma_luma_inner,
    lemma_pattern_inner, lemma_qp_delta_inner,
};
use crate::inter_coding::{luma_blocks, InterCoded};
use crate::inter_residual::{
    any_nonzero, chroma_pattern, group_coded, luma_pattern, LumaLevels,
};
use crate::marks::{large_marked, luma_marked, pattern_or_outside, Marked};
use crate::neighbors::{left_of, top_of};
use crate::quantize::quantizer;
use crate::quantizers::qp_delta;
use crate::told_codes::chroma_sized;
use crate::told_inter::{
    coded_pattern, inter_fits, inter_zero, lemma_luma_equal, lemma_no_marks,
};
use crate::told_marks::{
    lemma_chroma_adds, lemma_chroma_read, lemma_large_adds, lemma_large_read, lemma_luma_adds,
    lemma_luma_read,
};
use crate::told_pictures::{chroma_zero, lemma_chroma_equal, lemma_quantizer_told};
use crate::told_symbols::{
    law_pattern_read, law_qp_delta_read, lemma_go_on, lemma_one, together,
};

verus! {

/// Whether what is coded of a macroblock has its size and its range.
pub open spec fn coded_sized(coded: InterCoded) -> bool {
    &&& inter_fits(coded.luma)
    &&& chroma_sized(coded.cb)
    &&& chroma_sized(coded.cr)
    &&& 0 <= luma_pattern(coded.luma) < 16
    &&& 0 <= chroma_pattern(coded.cb, coded.cr) <= 2
}

/// The symbols of the pattern of a macroblock.
spec fn near_bins(state: InterState, address: int, wide: int, coded: InterCoded) -> Seq<Bin> {
    pattern_bins(
        coded_pattern(coded),
        pattern_or_outside(left_of(state.marked.patterns, address, wide)),
        pattern_or_outside(top_of(state.marked.patterns, address, wide)),
    )
}

/// The symbol of the transform size of a macroblock, where there is one.
spec fn large_bins(
    state: InterState,
    address: int,
    wide: int,
    allowed: bool,
    coded: InterCoded,
) -> Seq<Bin> {
    if allowed && luma_pattern(coded.luma) != 0 {
        seq![
            decision(
                transform_slot(state.transforms, address, wide),
                coded.luma is EightByEight,
            ),
        ]
    } else {
        Seq::empty()
    }
}

/// The symbols of the change of the quantizer of a macroblock, where there is one.
spec fn change_bins(state: InterState, coded: InterCoded, qp: int) -> Seq<Bin> {
    if coded_pattern(coded) != 0 {
        qp_delta_bins(qp_delta(state.previous_qp, qp), state.previous_delta)
    } else {
        Seq::empty()
    }
}

/// The pattern, the transform size, and the quantizer of a macroblock add their symbols.
proof fn lemma_pattern_bins(
    state: InterState,
    address: int,
    wide: int,
    allowed: bool,
    coded: InterCoded,
    qp: int,
)
    requires
        coded_sized(coded),
    ensures
        state.told_pattern(address, wide, allowed, coded, qp).marked == (Marked {
            bins: state.marked.bins + (near_bins(state, address, wide, coded) + (large_bins(
                state,
                address,
                wide,
                allowed,
                coded,
            ) + change_bins(state, coded, qp))),
            patterns: state.marked.patterns.update(address, coded_pattern(coded) as u8),
            ..state.marked
        }),
{
    let after = state.told_pattern(address, wide, allowed, coded, qp).marked;
    let p = near_bins(state, address, wide, coded);
    let l = large_bins(state, address, wide, allowed, coded);
    let c = change_bins(state, coded, qp);
    let bins = state.marked.bins;
    assert(after.bins =~= bins + p + l + c);
    assert(bins + p + l + c =~= bins + (p + (l + c)));
}

/// The pattern, the transform size, and the quantizer of a macroblock add symbols.
pub proof fn lemma_pattern_adds(
    state: InterState,
    address: int,
    wide: int,
    allowed: bool,
    coded: InterCoded,
    qp: int,
) -> (more: Seq<Bin>)
    requires
        coded_sized(coded),
    ensures
        state.told_pattern(address, wide, allowed, coded, qp).marked.bins == state.marked.bins
            + more,
{
    lemma_pattern_bins(state, address, wide, allowed, coded, qp);
    near_bins(state, address, wide, coded) + (large_bins(state, address, wide, allowed, coded)
        + change_bins(state, coded, qp))
}

/// The symbols of the pattern, the transform size, and the quantizer of a macroblock stand inside
/// a picture.
pub proof fn lemma_told_pattern_inner(
    state: InterState,
    address: int,
    wide: int,
    allowed: bool,
    coded: InterCoded,
    qp: int,
)
    requires
        coded_sized(coded),
        inner_bins(state.marked.bins),
    ensures
        inner_bins(state.told_pattern(address, wide, allowed, coded, qp).marked.bins),
{
    lemma_pattern_bins(state, address, wide, allowed, coded, qp);
    let p = near_bins(state, address, wide, coded);
    let l = large_bins(state, address, wide, allowed, coded);
    let c = change_bins(state, coded, qp);
    lemma_pattern_inner(
        coded_pattern(coded),
        pattern_or_outside(left_of(state.marked.patterns, address, wide)),
        pattern_or_outside(top_of(state.marked.patterns, address, wide)),
    );
    lemma_qp_delta_inner(qp_delta(state.previous_qp, qp), state.previous_delta);
    assert(inner_bins(l));
    lemma_inner_joined(l, c);
    lemma_inner_joined(p, l + c);
    lemma_inner_joined(state.marked.bins, p + (l + c));
}

proof fn lemma_four(a: Seq<Bin>, b: Seq<Bin>, c: Seq<Bin>, d: Seq<Bin>, x: Seq<Bin>)
    ensures
        (a + (b + (c + d))) + x == a + (b + (c + (d + x))),
{
    assert((a + (b + (c + d))) + x =~= a + (b + (c + (d + x))));
}

/// The pattern, the transform size, and the quantizer of a macroblock are told by their symbols.
#[verifier::spinoff_prover]
#[verifier::rlimit(40)]
pub proof fn lemma_told_pattern_read(
    state: InterState,
    address: int,
    wide: int,
    allowed: bool,
    first: InterCoded,
    second: InterCoded,
    qp: int,
    other_qp: int,
    x: Seq<Bin>,
    y: Seq<Bin>,
)
    requires
        coded_sized(first),
        coded_sized(second),
        quantizer(state.previous_qp),
        quantizer(qp),
        quantizer(other_qp),
        together(
            state.told_pattern(address, wide, allowed, first, qp).marked.bins + x,
            state.told_pattern(address, wide, allowed, second, other_qp).marked.bins + y,
        ),
    ensures
        luma_pattern(first.luma) == luma_pattern(second.luma),
        chroma_pattern(first.cb, first.cr) == chroma_pattern(second.cb, second.cr),
        allowed && luma_pattern(first.luma) != 0 ==> first.luma is EightByEight
            == second.luma is EightByEight,
        coded_pattern(first) != 0 ==> qp == other_qp,
        state.told_pattern(address, wide, allowed, first, qp) == state.told_pattern(
            address,
            wide,
            allowed,
            second,
            other_qp,
        ),
        together(x, y),
{
    let bins = state.marked.bins;
    let p = near_bins(state, address, wide, first);
    let q = near_bins(state, address, wide, second);
    let l = large_bins(state, address, wide, allowed, first);
    let m = large_bins(state, address, wide, allowed, second);
    let c = change_bins(state, first, qp);
    let d = change_bins(state, second, other_qp);
    lemma_pattern_bins(state, address, wide, allowed, first, qp);
    lemma_pattern_bins(state, address, wide, allowed, second, other_qp);
    lemma_four(bins, p, l, c, x);
    lemma_four(bins, q, m, d, y);
    lemma_go_on(bins, p + (l + (c + x)), q + (m + (d + y)));
    law_pattern_read(
        coded_pattern(first),
        coded_pattern(second),
        pattern_or_outside(left_of(state.marked.patterns, address, wide)),
        pattern_or_outside(top_of(state.marked.patterns, address, wide)),
        l + (c + x),
        m + (d + y),
    );
    assert(coded_pattern(first) % 16 == luma_pattern(first.luma));
    assert(coded_pattern(second) % 16 == luma_pattern(second.luma));
    if allowed && luma_pattern(first.luma) != 0 {
        let slot = transform_slot(state.transforms, address, wide);
        lemma_one(
            decision(slot, first.luma is EightByEight),
            decision(slot, second.luma is EightByEight),
            c + x,
            d + y,
        );
    } else {
        assert(l + (c + x) =~= c + x);
        assert(m + (d + y) =~= d + y);
    }
    if coded_pattern(first) != 0 {
        law_qp_delta_read(
            qp_delta(state.previous_qp, qp),
            qp_delta(state.previous_qp, other_qp),
            state.previous_delta,
            x,
            y,
        );
        lemma_quantizer_told(state.previous_qp, qp, other_qp);
    } else {
        assert(c + x =~= x);
        assert(d + y =~= y);
    }
}

/// The symbols of luma levels.
spec fn luma_told(state: InterState, address: int, wide: int, coded: InterCoded) -> Marked {
    let marks = luma_pattern(coded.luma);
    match coded.luma {
        LumaLevels::FourByFour(blocks) => luma_marked(
            state.marked,
            address,
            wide,
            BlockKind::Luma4x4,
            blocks,
            marks,
            false,
            16,
        ),
        LumaLevels::BypassFourByFour(blocks) => luma_marked(
            state.marked,
            address,
            wide,
            BlockKind::Luma4x4,
            blocks,
            marks,
            false,
            16,
        ),
        LumaLevels::EightByEight(blocks) => large_marked(state.marked, address, blocks, marks, 4),
    }
}

proof fn lemma_luma_told_adds(
    state: InterState,
    address: int,
    wide: int,
    coded: InterCoded,
) -> (more: Seq<Bin>)
    ensures
        luma_told(state, address, wide, coded).bins == state.marked.bins + more,
{
    let marks = luma_pattern(coded.luma);
    match coded.luma {
        LumaLevels::FourByFour(blocks) => lemma_luma_adds(
            state.marked,
            address,
            wide,
            BlockKind::Luma4x4,
            blocks,
            marks,
            false,
            16,
        ),
        LumaLevels::BypassFourByFour(blocks) => lemma_luma_adds(
            state.marked,
            address,
            wide,
            BlockKind::Luma4x4,
            blocks,
            marks,
            false,
            16,
        ),
        LumaLevels::EightByEight(blocks) => lemma_large_adds(
            state.marked,
            address,
            blocks,
            marks,
            4,
        ),
    }
}

/// The residual of a macroblock adds symbols.
pub proof fn lemma_residual_adds(
    state: InterState,
    address: int,
    wide: int,
    coded: InterCoded,
) -> (more: Seq<Bin>)
    ensures
        state.told_residual(address, wide, coded).marked.bins == state.marked.bins + more,
{
    let luma = luma_told(state, address, wide, coded);
    let l = lemma_luma_told_adds(state, address, wide, coded);
    let c = lemma_chroma_adds(
        luma,
        address,
        wide,
        coded.cb,
        coded.cr,
        chroma_pattern(coded.cb, coded.cr),
        false,
    );
    assert((state.marked.bins + l) + c =~= state.marked.bins + (l + c));
    l + c
}

/// The symbols of the residual of a macroblock stand inside a picture.
pub proof fn lemma_residual_inner(
    state: InterState,
    address: int,
    wide: int,
    coded: InterCoded,
)
    requires
        coded_sized(coded),
        inner_bins(state.marked.bins),
    ensures
        inner_bins(state.told_residual(address, wide, coded).marked.bins),
{
    let marks = luma_pattern(coded.luma);
    match coded.luma {
        LumaLevels::FourByFour(blocks) => {
            lemma_luma_inner(
                state.marked,
                address,
                wide,
                BlockKind::Luma4x4,
                blocks,
                marks,
                false,
                16,
            );
        },
        LumaLevels::BypassFourByFour(blocks) => {
            lemma_luma_inner(
                state.marked,
                address,
                wide,
                BlockKind::Luma4x4,
                blocks,
                marks,
                false,
                16,
            );
        },
        LumaLevels::EightByEight(blocks) => {
            lemma_large_inner(state.marked, address, blocks, marks, 4);
        },
    }
    lemma_chroma_inner(
        luma_told(state, address, wide, coded),
        address,
        wide,
        coded.cb,
        coded.cr,
        chroma_pattern(coded.cb, coded.cr),
        false,
    );
}

/// Luma blocks without marks add nothing.
proof fn lemma_luma_silent(
    before: Marked,
    address: int,
    wide: int,
    kind: BlockKind,
    levels: Seq<Seq<int>>,
    outside: bool,
    count: int,
)
    requires
        count <= 16,
    ensures
        luma_marked(before, address, wide, kind, levels, 0, outside, count) == before,
    decreases count,
{
    if count > 0 {
        lemma_luma_silent(before, address, wide, kind, levels, outside, count - 1);
        assert(!quarter_marked(0, count - 1));
    }
}

/// Large luma blocks without marks add nothing.
proof fn lemma_large_silent(before: Marked, address: int, levels: Seq<Seq<int>>, count: int)
    requires
        count <= 4,
    ensures
        large_marked(before, address, levels, 0, count) == before,
    decreases count,
{
    if count > 0 {
        lemma_large_silent(before, address, levels, count - 1);
        assert(!quarter_marked(0, 4 * (count - 1)));
    }
}

proof fn lemma_luma_told_silent(state: InterState, address: int, wide: int, coded: InterCoded)
    requires
        luma_pattern(coded.luma) == 0,
    ensures
        luma_told(state, address, wide, coded) == state.marked,
{
    match coded.luma {
        LumaLevels::FourByFour(blocks) => {
            lemma_luma_silent(
                state.marked,
                address,
                wide,
                BlockKind::Luma4x4,
                blocks,
                false,
                16,
            );
        },
        LumaLevels::BypassFourByFour(blocks) => {
            lemma_luma_silent(
                state.marked,
                address,
                wide,
                BlockKind::Luma4x4,
                blocks,
                false,
                16,
            );
        },
        LumaLevels::EightByEight(blocks) => {
            lemma_large_silent(state.marked, address, blocks, 4);
        },
    }
}

proof fn lemma_marked_group(levels: LumaLevels, group: int)
    requires
        0 <= group < 4,
    ensures
        quarter_marked(luma_pattern(levels), 4 * group) == group_coded(levels, group),
        quarter_marked(luma_pattern(levels), 4 * group + 1) == group_coded(levels, group),
        quarter_marked(luma_pattern(levels), 4 * group + 2) == group_coded(levels, group),
        quarter_marked(luma_pattern(levels), 4 * group + 3) == group_coded(levels, group),
{
}

/// Luma levels are told by their symbols.
#[verifier::spinoff_prover]
#[verifier::rlimit(40)]
proof fn lemma_luma_told_read(
    state: InterState,
    address: int,
    wide: int,
    first: InterCoded,
    second: InterCoded,
    x: Seq<Bin>,
    y: Seq<Bin>,
)
    requires
        coded_sized(first),
        coded_sized(second),
        luma_pattern(first.luma) == luma_pattern(second.luma),
        luma_pattern(first.luma) != 0,
        first.luma is EightByEight == second.luma is EightByEight,
        first.luma is BypassFourByFour == second.luma is BypassFourByFour,
        together(
            luma_told(state, address, wide, first).bins + x,
            luma_told(state, address, wide, second).bins + y,
        ),
    ensures
        first.luma == second.luma,
        luma_told(state, address, wide, first) == luma_told(state, address, wide, second),
        together(x, y),
{
    let marks = luma_pattern(first.luma);
    match (first.luma, second.luma) {
        (LumaLevels::FourByFour(a), LumaLevels::FourByFour(b)) => {
            lemma_luma_read(
                state.marked,
                address,
                wide,
                BlockKind::Luma4x4,
                a,
                b,
                marks,
                false,
                16,
                x,
                y,
            );
            assert(luma_blocks(first.luma) == a && luma_blocks(second.luma) == b);
        },
        (LumaLevels::BypassFourByFour(a), LumaLevels::BypassFourByFour(b)) => {
            lemma_luma_read(
                state.marked,
                address,
                wide,
                BlockKind::Luma4x4,
                a,
                b,
                marks,
                false,
                16,
                x,
                y,
            );
            assert(luma_blocks(first.luma) == a && luma_blocks(second.luma) == b);
        },
        (LumaLevels::EightByEight(a), LumaLevels::EightByEight(b)) => {
            assert forall|g: int| 0 <= g < 4 && quarter_marked(marks, 4 * g) implies any_nonzero(
                #[trigger] a[g],
            ) by {
                lemma_marked_group(first.luma, g);
            }
            assert forall|g: int| 0 <= g < 4 && quarter_marked(marks, 4 * g) implies any_nonzero(
                #[trigger] b[g],
            ) by {
                lemma_marked_group(second.luma, g);
            }
            lemma_large_read(state.marked, address, a, b, marks, 4, x, y);
            let u = luma_blocks(first.luma);
            let v = luma_blocks(second.luma);
            assert forall|k: int| 0 <= k < 16 && quarter_marked(marks, k) implies #[trigger] u[k]
                == v[k] by {
                let g = k / 4;
                lemma_marked_group(first.luma, g);
                assert(k == 4 * g || k == 4 * g + 1 || k == 4 * g + 2 || k == 4 * g + 3);
                assert(quarter_marked(marks, 4 * g));
                assert(a[g] == b[g]);
                assert(u[k] =~= v[k]);
            }
        },
        _ => {},
    }
    lemma_luma_equal(first.luma, second.luma);
}

/// The residual of a macroblock is told by its symbols.
#[verifier::spinoff_prover]
#[verifier::rlimit(40)]
pub proof fn lemma_told_residual_read(
    state: InterState,
    address: int,
    wide: int,
    first: InterCoded,
    second: InterCoded,
    x: Seq<Bin>,
    y: Seq<Bin>,
)
    requires
        coded_sized(first),
        coded_sized(second),
        luma_pattern(first.luma) == luma_pattern(second.luma),
        chroma_pattern(first.cb, first.cr) == chroma_pattern(second.cb, second.cr),
        luma_pattern(first.luma) != 0 ==> first.luma is EightByEight
            == second.luma is EightByEight,
        first.luma is BypassFourByFour == second.luma is BypassFourByFour,
        together(
            state.told_residual(address, wide, first).marked.bins + x,
            state.told_residual(address, wide, second).marked.bins + y,
        ),
    ensures
        first.luma == second.luma || (inter_zero(first.luma) && inter_zero(second.luma)),
        luma_pattern(first.luma) == 0 ==> inter_zero(first.luma) && inter_zero(second.luma),
        first.cb == second.cb,
        first.cr == second.cr,
        chroma_pattern(first.cb, first.cr) == 0 ==> chroma_zero(first.cb) && chroma_zero(first.cr),
        state.told_residual(address, wide, first) == state.told_residual(address, wide, second),
        together(x, y),
{
    let a = luma_told(state, address, wide, first);
    let b = luma_told(state, address, wide, second);
    let marks = chroma_pattern(first.cb, first.cr);
    let c = lemma_chroma_adds(a, address, wide, first.cb, first.cr, marks, false);
    let d = lemma_chroma_adds(b, address, wide, second.cb, second.cr, marks, false);
    assert((a.bins + c) + x =~= a.bins + (c + x));
    assert((b.bins + d) + y =~= b.bins + (d + y));
    if luma_pattern(first.luma) == 0 {
        lemma_luma_told_silent(state, address, wide, first);
        lemma_luma_told_silent(state, address, wide, second);
        lemma_no_marks(first.luma);
        lemma_no_marks(second.luma);
    } else {
        lemma_luma_told_read(state, address, wide, first, second, c + x, d + y);
    }
    assert(a == b);
    lemma_chroma_read(
        a,
        address,
        wide,
        first.cb,
        first.cr,
        second.cb,
        second.cr,
        marks,
        false,
        x,
        y,
    );
    lemma_chroma_equal(first.cb, first.cr, second.cb, second.cr);
}

} // verus!
