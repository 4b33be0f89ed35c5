//! What the symbols of a picture tell that stands alone, where they are read one by one.

use vstd::prelude::*;

use crate::arithmetic::Bin;
use crate::arithmetic_laws::law_slice_read_back;
use crate::bins::{
    chroma_mode_bins, decision, inner_bin, inner_bins, luma_mode_bins, pattern_bins, qp_delta_bins,
    type_i_bins, BlockKind, SLOT_COUNT,
};
use crate::bits::unpacked;
use crate::cabac::{aligned_at, started};
use crate::cabac_intra::{
    blockwise_marked, cabac_coded, cabac_intra16_macroblock, cabac_intra4_macroblock,
    cabac_intra8_macroblock, cabac_macroblock, cabac_predicted_idr, chroma_mode_increment,
    going_on, header_bytes, intra_start, luma_modes_bins, transform_slot, IntraState,
};
use crate::cavlc_intra::{any_block_nonzero, quarter_modes, whole_type};
use crate::cavlc_syntax::{modes_fit, quarter_marked};
use crate::config::{Configuration, EncoderMode};
use crate::contexts::{initial_states, picture_bytes};
use crate::frame::{padded_samples, FrameModel};
use crate::framing::{law_unescape_nal, nal_of};
use crate::idr::{idr_header, idr_site};
use crate::inner_symbols::{
    lemma_chroma_inner, lemma_chroma_mode_inner, lemma_inner_joined, lemma_large_inner,
    lemma_luma_inner, lemma_luma_means_inner, lemma_luma_mode_inner, lemma_pattern_inner,
    lemma_qp_delta_inner, lemma_type_i_inner,
};
use crate::inter_residual::{
    any_nonzero, chroma_pattern, group_coded, luma_pattern, LumaLevels,
};
use crate::intra_coding::{
    chroma_coded_intra, luma_coded_16, luma_coded_4, luma_coded_8,
};
use crate::marks::{
    coded_slot, large_marked, luma_marked, luma_means_marked, marked_block_bins, pattern_or_outside,
    Marked,
};
use crate::math::unit;
use crate::neighbors::{left_of, predicted_mode, top_of};
use crate::picture::{Samples, SiteModel};
use crate::quantize::quantizer;
use crate::quantizers::{adaptive_qps, qp_delta};
use crate::told_codes::{
    lemma_predicted_alike, lemma_predicted_fits, modes_agree, modes_beside,
};
use crate::told_marks::{
    lemma_chroma_adds, lemma_chroma_read, lemma_large_adds, lemma_large_read, lemma_luma_adds,
    lemma_luma_read,
};
use crate::told_pictures::{
    all_zero, lemma_chroma_alike, lemma_chroma_equal, lemma_chroma_sizes, lemma_header_told,
    lemma_luma_16, lemma_luma_4, lemma_luma_8, lemma_marks_4, lemma_marks_8, lemma_modes_beside,
    lemma_not_any, lemma_plane_4, lemma_plane_8, lemma_quantizer_told, lemma_quantizers,
    lemma_rows_agree, lemma_zeros_equal, same_place, site_sized,
};
use crate::told_symbols::{
    law_chroma_mode_read, law_luma_mode_read, law_marked_block_read, law_pattern_read,
    law_qp_delta_read, law_type_i_read, lemma_go_on, lemma_read_together, together,
};

verus! {

proof fn lemma_next_mode_read(
    first: Seq<Seq<u8>>,
    second: Seq<Seq<u8>>,
    address: int,
    wide: int,
    step: int,
    block: int,
    x: Seq<Bin>,
    y: Seq<Bin>,
)
    requires
        modes_beside(first, second, address, step),
        modes_agree(first, second, address, block),
        0 < wide,
        step == 1 || step == 4,
        0 <= block,
        block + step <= 16,
        block % step == 0,
        together(
            luma_mode_bins(
                first[address][block] as int,
                predicted_mode(first, address, block, wide),
            ) + x,
            luma_mode_bins(
                second[address][block] as int,
                predicted_mode(second, address, block, wide),
            ) + y,
        ),
    ensures
        modes_agree(first, second, address, block + step),
        together(x, y),
{
    reveal(modes_beside);
    reveal(modes_agree);
    lemma_predicted_alike(first, second, address, block, wide);
    lemma_predicted_fits(first, address, block, wide);
    assert(first[address][block] <= 8 && second[address][block] <= 8) by {
        assert(first[address].len() == 16 && second[address].len() == 16);
    }
    law_luma_mode_read(
        first[address][block] as int,
        second[address][block] as int,
        predicted_mode(first, address, block, wide),
        x,
        y,
    );
    assert forall|i: int| 0 <= i < block + step implies #[trigger] first[address][i]
        == second[address][i] by {
        if i >= block {
            assert(i / step * step == block);
            assert(first[address][i] == first[address][i / step * step]);
            assert(second[address][i] == second[address][i / step * step]);
        }
    }
}

/// The prediction modes of a macroblock are told by their symbols.
proof fn lemma_modes_read(
    first: Seq<Seq<u8>>,
    second: Seq<Seq<u8>>,
    address: int,
    wide: int,
    step: int,
    count: int,
    x: Seq<Bin>,
    y: Seq<Bin>,
)
    requires
        modes_beside(first, second, address, step),
        0 < wide,
        step == 1 || step == 4,
        0 <= count <= 16int / step,
        together(
            luma_modes_bins(first, address, wide, step, count) + x,
            luma_modes_bins(second, address, wide, step, count) + y,
        ),
    ensures
        modes_agree(first, second, address, count * step),
        together(x, y),
    decreases count,
{
    assert(step == 1 ==> count * step == count && (count - 1) * step == count - 1);
    assert(step == 4 ==> count * step == 4 * count && (count - 1) * step == 4 * count - 4);
    if count <= 0 {
        reveal(modes_agree);
        assert(luma_modes_bins(first, address, wide, step, count) + x =~= x);
        assert(luma_modes_bins(second, address, wide, step, count) + y =~= y);
    } else {
        let block = (count - 1) * step;
        let c = luma_mode_bins(
            first[address][block] as int,
            predicted_mode(first, address, block, wide),
        );
        let d = luma_mode_bins(
            second[address][block] as int,
            predicted_mode(second, address, block, wide),
        );
        let a = luma_modes_bins(first, address, wide, step, count - 1);
        let b = luma_modes_bins(second, address, wide, step, count - 1);
        assert((a + c) + x =~= a + (c + x));
        assert((b + d) + y =~= b + (d + y));
        lemma_modes_read(first, second, address, wide, step, count - 1, c + x, d + y);
        lemma_next_mode_read(first, second, address, wide, step, block, x, y);
    }
}

/// The symbols of a macroblock that is predicted block by block, up to its residual.
spec fn head_bins(
    transform: Option<Bin>,
    modes: Seq<Bin>,
    chroma: Seq<Bin>,
    pattern: Seq<Bin>,
    delta: Seq<Bin>,
) -> Seq<Bin> {
    type_i_bins(0, 0) + ((match transform {
        Some(bin) => seq![bin],
        None => Seq::empty(),
    }) + (modes + (chroma + (pattern + delta))))
}

/// The symbols of the change of the quantizer, which only a macroblock that holds anything has.
spec fn change_bins(pattern: int, delta: int, previous: int) -> Seq<Bin> {
    if pattern != 0 {
        qp_delta_bins(delta, previous)
    } else {
        Seq::empty()
    }
}

/// The symbols of the pattern of a macroblock.
spec fn near_pattern_bins(before: Marked, address: int, wide: int, pattern: int) -> Seq<Bin> {
    pattern_bins(
        pattern,
        pattern_or_outside(left_of(before.patterns, address, wide)),
        pattern_or_outside(top_of(before.patterns, address, wide)),
    )
}

proof fn lemma_head(
    before: Marked,
    transform: Option<Bin>,
    modes: Seq<Bin>,
    chroma: Seq<Bin>,
    address: int,
    wide: int,
    pattern: u8,
    delta: int,
    previous: int,
)
    ensures
        blockwise_marked(
            before,
            transform,
            modes,
            chroma,
            address,
            wide,
            pattern,
            delta,
            previous,
        ) == (Marked {
            bins: before.bins + head_bins(
                transform,
                modes,
                chroma,
                near_pattern_bins(before, address, wide, pattern as int),
                change_bins(pattern as int, delta, previous),
            ),
            patterns: before.patterns.update(address, pattern),
            ..before
        }),
{
    let after = blockwise_marked(
        before,
        transform,
        modes,
        chroma,
        address,
        wide,
        pattern,
        delta,
        previous,
    );
    assert(after.bins =~= before.bins + head_bins(
        transform,
        modes,
        chroma,
        near_pattern_bins(before, address, wide, pattern as int),
        change_bins(pattern as int, delta, previous),
    ));
}

proof fn lemma_six(
    a: Seq<Bin>,
    b: Seq<Bin>,
    c: Seq<Bin>,
    d: Seq<Bin>,
    e: Seq<Bin>,
    f: Seq<Bin>,
    x: Seq<Bin>,
)
    ensures
        (a + (b + (c + (d + (e + f))))) + x == (a + b) + (c + (d + (e + (f + x)))),
{
    assert((a + (b + (c + (d + (e + f))))) + x =~= (a + b) + (c + (d + (e + (f + x)))));
}

proof fn lemma_three(a: Seq<Bin>, b: Seq<Bin>, c: Seq<Bin>, x: Seq<Bin>)
    ensures
        (a + (b + c)) + x == a + (b + (c + x)),
{
    assert((a + (b + c)) + x =~= a + (b + (c + x)));
}

/// The symbols of a macroblock up to its residual tell its modes, its pattern, and its quantizer.
#[verifier::spinoff_prover]
#[verifier::rlimit(40)]
proof fn lemma_head_read(
    before: Marked,
    transform: Option<Bin>,
    first: Seq<Seq<u8>>,
    second: Seq<Seq<u8>>,
    address: int,
    wide: int,
    step: int,
    mode: int,
    other_mode: int,
    increment: int,
    pattern: u8,
    other_pattern: u8,
    previous: int,
    qp: int,
    other_qp: int,
    previous_delta: int,
    x: Seq<Bin>,
    y: Seq<Bin>,
)
    requires
        modes_beside(first, second, address, step),
        0 < wide,
        step == 1 || step == 4,
        0 <= mode <= 3,
        0 <= other_mode <= 3,
        pattern < 48,
        other_pattern < 48,
        quantizer(previous),
        quantizer(qp),
        quantizer(other_qp),
        together(
            head_bins(
                transform,
                luma_modes_bins(first, address, wide, step, 16int / step),
                chroma_mode_bins(mode, increment),
                near_pattern_bins(before, address, wide, pattern as int),
                change_bins(pattern as int, qp_delta(previous, qp), previous_delta),
            ) + x,
            head_bins(
                transform,
                luma_modes_bins(second, address, wide, step, 16int / step),
                chroma_mode_bins(other_mode, increment),
                near_pattern_bins(before, address, wide, other_pattern as int),
                change_bins(other_pattern as int, qp_delta(previous, other_qp), previous_delta),
            ) + y,
        ),
    ensures
        modes_agree(first, second, address, 16),
        mode == other_mode,
        pattern == other_pattern,
        pattern != 0 ==> qp == other_qp,
        together(x, y),
{
    let t = match transform {
        Some(bin) => seq![bin],
        None => Seq::empty(),
    };
    let start = type_i_bins(0, 0) + t;
    let m = luma_modes_bins(first, address, wide, step, 16int / step);
    let n = luma_modes_bins(second, address, wide, step, 16int / step);
    let c = chroma_mode_bins(mode, increment);
    let d = chroma_mode_bins(other_mode, increment);
    let p = near_pattern_bins(before, address, wide, pattern as int);
    let q = near_pattern_bins(before, address, wide, other_pattern as int);
    let e = change_bins(pattern as int, qp_delta(previous, qp), previous_delta);
    let f = change_bins(other_pattern as int, qp_delta(previous, other_qp), previous_delta);
    lemma_six(type_i_bins(0, 0), t, m, c, p, e, x);
    lemma_six(type_i_bins(0, 0), t, n, d, q, f, y);
    lemma_go_on(start, m + (c + (p + (e + x))), n + (d + (q + (f + y))));
    assert(step == 1 ==> 16int / step * step == 16);
    assert(step == 4 ==> 16int / step * step == 16);
    lemma_modes_read(
        first,
        second,
        address,
        wide,
        step,
        16int / step,
        c + (p + (e + x)),
        d + (q + (f + y)),
    );
    law_chroma_mode_read(mode, other_mode, increment, p + (e + x), q + (f + y));
    law_pattern_read(
        pattern as int,
        other_pattern as int,
        pattern_or_outside(left_of(before.patterns, address, wide)),
        pattern_or_outside(top_of(before.patterns, address, wide)),
        e + x,
        f + y,
    );
    if pattern != 0 {
        law_qp_delta_read(
            qp_delta(previous, qp),
            qp_delta(previous, other_qp),
            previous_delta,
            x,
            y,
        );
        lemma_quantizer_told(previous, qp, other_qp);
    } else {
        assert(e + x =~= x);
        assert(f + y =~= y);
    }
}

/// Whether what is kept of a picture has its size and its range.
pub open spec fn intra_sized(state: IntraState, count: int) -> bool {
    &&& state.modes.len() == count
    &&& modes_fit(state.modes)
    &&& forall|a: int| 0 <= a < count ==> (#[trigger] state.modes[a]).len() == 16
    &&& quantizer(state.previous_qp)
}

/// The head of a macroblock that is predicted in four-by-four blocks.
spec fn head_4(state: IntraState, site: SiteModel, large: bool) -> Marked {
    let address = site.address();
    let wide = site.wide;
    let luma = luma_coded_4(site, state.planes.luma, 16);
    let chroma = chroma_coded_intra(site, state.planes.cb, state.planes.cr);
    let pattern = luma_pattern(LumaLevels::FourByFour(luma.levels)) + 16 * chroma_pattern(
        chroma.cb_levels,
        chroma.cr_levels,
    );
    blockwise_marked(
        state.marked,
        if large {
            Some(decision(transform_slot(state.transforms, address, wide), false))
        } else {
            None
        },
        luma_modes_bins(state.modes.update(address, luma.modes), address, wide, 1, 16),
        chroma_mode_bins(
            chroma.mode as int,
            chroma_mode_increment(state.chroma_modes, address, wide),
        ),
        address,
        wide,
        pattern as u8,
        qp_delta(state.previous_qp, site.qp),
        state.previous_delta,
    )
}

/// The head of a macroblock that is predicted in four-by-four blocks is told.
#[verifier::spinoff_prover]
#[verifier::rlimit(40)]
proof fn lemma_head_4_read(
    state: IntraState,
    first: SiteModel,
    second: SiteModel,
    large: bool,
    count: int,
    x: Seq<Bin>,
    y: Seq<Bin>,
)
    requires
        same_place(first, second),
        intra_sized(state, count),
        site_sized(first, count),
        site_sized(second, count),
        together(head_4(state, first, large).bins + x, head_4(state, second, large).bins + y),
    ensures
        ({
            let a = luma_coded_4(first, state.planes.luma, 16);
            let b = luma_coded_4(second, state.planes.luma, 16);
            let c = chroma_coded_intra(first, state.planes.cb, state.planes.cr);
            let d = chroma_coded_intra(second, state.planes.cb, state.planes.cr);
            let marks = luma_pattern(LumaLevels::FourByFour(a.levels));
            let chroma_marks = chroma_pattern(c.cb_levels, c.cr_levels);
            &&& a.modes == b.modes
            &&& c.mode == d.mode
            &&& marks == luma_pattern(LumaLevels::FourByFour(b.levels))
            &&& chroma_marks == chroma_pattern(d.cb_levels, d.cr_levels)
            &&& marks + 16 * chroma_marks != 0 ==> first.qp == second.qp
        }),
        head_4(state, first, large) == head_4(state, second, large),
        together(x, y),
{
    let address = first.address();
    let wide = first.wide;
    let a = luma_coded_4(first, state.planes.luma, 16);
    let b = luma_coded_4(second, state.planes.luma, 16);
    let c = chroma_coded_intra(first, state.planes.cb, state.planes.cr);
    let d = chroma_coded_intra(second, state.planes.cb, state.planes.cr);
    lemma_luma_4(first, state.planes.luma, 16);
    lemma_luma_4(second, state.planes.luma, 16);
    lemma_chroma_sizes(first, state.planes.cb, state.planes.cr);
    lemma_chroma_sizes(second, state.planes.cb, state.planes.cr);
    let marks = luma_pattern(LumaLevels::FourByFour(a.levels));
    let other_marks = luma_pattern(LumaLevels::FourByFour(b.levels));
    let chroma_marks = chroma_pattern(c.cb_levels, c.cr_levels);
    let other_chroma = chroma_pattern(d.cb_levels, d.cr_levels);
    lemma_marks_4(a.levels, 0);
    lemma_marks_4(b.levels, 0);
    assert(0 <= chroma_marks <= 2 && 0 <= other_chroma <= 2);
    let transform = if large {
        Some(decision(transform_slot(state.transforms, address, wide), false))
    } else {
        None
    };
    let modes = state.modes.update(address, a.modes);
    let other_modes = state.modes.update(address, b.modes);
    let increment = chroma_mode_increment(state.chroma_modes, address, wide);
    let pattern = (marks + 16 * chroma_marks) as u8;
    let other_pattern = (other_marks + 16 * other_chroma) as u8;
    let delta = qp_delta(state.previous_qp, first.qp);
    let other_delta = qp_delta(state.previous_qp, second.qp);
    let m = luma_modes_bins(modes, address, wide, 1, 16);
    let n = luma_modes_bins(other_modes, address, wide, 1, 16);
    let e = chroma_mode_bins(c.mode as int, increment);
    let f = chroma_mode_bins(d.mode as int, increment);
    lemma_head(
        state.marked,
        transform,
        m,
        e,
        address,
        wide,
        pattern,
        delta,
        state.previous_delta,
    );
    lemma_head(
        state.marked,
        transform,
        n,
        f,
        address,
        wide,
        other_pattern,
        other_delta,
        state.previous_delta,
    );
    let u = head_bins(
        transform,
        m,
        e,
        near_pattern_bins(state.marked, address, wide, pattern as int),
        change_bins(pattern as int, delta, state.previous_delta),
    );
    let v = head_bins(
        transform,
        n,
        f,
        near_pattern_bins(state.marked, address, wide, other_pattern as int),
        change_bins(other_pattern as int, other_delta, state.previous_delta),
    );
    let bins = state.marked.bins;
    assert((bins + u) + x =~= bins + (u + x));
    assert((bins + v) + y =~= bins + (v + y));
    lemma_go_on(bins, u + x, v + y);
    lemma_modes_beside(state.modes, address, a.modes, b.modes, 1);
    lemma_head_read(
        state.marked,
        transform,
        modes,
        other_modes,
        address,
        wide,
        1,
        c.mode as int,
        d.mode as int,
        increment,
        pattern,
        other_pattern,
        state.previous_qp,
        first.qp,
        second.qp,
        state.previous_delta,
        x,
        y,
    );
    lemma_rows_agree(state.modes, address, a.modes, b.modes);
}

/// A macroblock that is predicted in four-by-four blocks is told by its symbols, where the
/// macroblocks before it are known.
#[verifier::spinoff_prover]
#[verifier::rlimit(40)]
proof fn lemma_intra4_read(
    state: IntraState,
    first: SiteModel,
    second: SiteModel,
    large: bool,
    count: int,
    x: Seq<Bin>,
    y: Seq<Bin>,
)
    requires
        same_place(first, second),
        intra_sized(state, count),
        site_sized(first, count),
        site_sized(second, count),
        together(
            cabac_intra4_macroblock(state, first, large).marked.bins + x,
            cabac_intra4_macroblock(state, second, large).marked.bins + y,
        ),
    ensures
        cabac_intra4_macroblock(state, first, large) == cabac_intra4_macroblock(
            state,
            second,
            large,
        ),
        together(x, y),
{
    reveal(cabac_intra4_macroblock);
    let address = first.address();
    let wide = first.wide;
    let a = luma_coded_4(first, state.planes.luma, 16);
    let b = luma_coded_4(second, state.planes.luma, 16);
    let c = chroma_coded_intra(first, state.planes.cb, state.planes.cr);
    let d = chroma_coded_intra(second, state.planes.cb, state.planes.cr);
    lemma_luma_4(first, state.planes.luma, 16);
    lemma_luma_4(second, state.planes.luma, 16);
    lemma_chroma_sizes(first, state.planes.cb, state.planes.cr);
    lemma_chroma_sizes(second, state.planes.cb, state.planes.cr);
    let marks = luma_pattern(LumaLevels::FourByFour(a.levels));
    let other_marks = luma_pattern(LumaLevels::FourByFour(b.levels));
    let chroma_marks = chroma_pattern(c.cb_levels, c.cr_levels);
    let other_chroma = chroma_pattern(d.cb_levels, d.cr_levels);
    let kind = BlockKind::Luma4x4;
    let head = head_4(state, first, large);
    let other_head = head_4(state, second, large);
    let u = luma_marked(head, address, wide, kind, a.levels, marks, true, 16);
    let v = luma_marked(other_head, address, wide, kind, b.levels, other_marks, true, 16);
    let l = lemma_luma_adds(head, address, wide, kind, a.levels, marks, true, 16);
    let other_l = lemma_luma_adds(
        other_head,
        address,
        wide,
        kind,
        b.levels,
        other_marks,
        true,
        16,
    );
    let e = lemma_chroma_adds(u, address, wide, c.cb_levels, c.cr_levels, chroma_marks, true);
    let f = lemma_chroma_adds(v, address, wide, d.cb_levels, d.cr_levels, other_chroma, true);
    assert((u.bins + e) + x =~= u.bins + (e + x));
    assert((v.bins + f) + y =~= v.bins + (f + y));
    assert((head.bins + l) + (e + x) =~= head.bins + (l + (e + x)));
    assert((other_head.bins + other_l) + (f + y) =~= other_head.bins + (other_l + (f + y)));
    lemma_head_4_read(
        state,
        first,
        second,
        large,
        count,
        l + (e + x),
        other_l + (f + y),
    );
    lemma_luma_read(
        head,
        address,
        wide,
        kind,
        a.levels,
        b.levels,
        marks,
        true,
        16,
        e + x,
        f + y,
    );
    lemma_chroma_read(
        u,
        address,
        wide,
        c.cb_levels,
        c.cr_levels,
        d.cb_levels,
        d.cr_levels,
        chroma_marks,
        true,
        x,
        y,
    );
    assert forall|i: int| 0 <= i < 16 implies a.levels[i] == b.levels[i] by {
        lemma_marks_4(a.levels, i);
        lemma_marks_4(b.levels, i);
        if !quarter_marked(marks, i) {
            lemma_zeros_equal(a.levels[i], b.levels[i]);
        }
    }
    assert(a.levels =~= b.levels);
    lemma_chroma_equal(c.cb_levels, c.cr_levels, d.cb_levels, d.cr_levels);
    lemma_marks_4(a.levels, 0);
    if first.qp != second.qp {
        assert forall|i: int| 0 <= i < 16 implies all_zero(#[trigger] a.levels[i]) by {
            lemma_marks_4(a.levels, i);
            assert(marks == 0);
            assert(!quarter_marked(marks, i));
        }
    }
    lemma_plane_4(first, second, state.planes.luma, 16);
    lemma_chroma_alike(first, second, state.planes.cb, state.planes.cr);
}

/// The head of a macroblock that is predicted in eight-by-eight blocks.
spec fn head_8(state: IntraState, site: SiteModel) -> Marked {
    let address = site.address();
    let wide = site.wide;
    let luma = luma_coded_8(site, state.planes.luma, 4);
    let chroma = chroma_coded_intra(site, state.planes.cb, state.planes.cr);
    let pattern = luma_pattern(LumaLevels::EightByEight(luma.levels)) + 16 * chroma_pattern(
        chroma.cb_levels,
        chroma.cr_levels,
    );
    blockwise_marked(
        state.marked,
        Some(decision(transform_slot(state.transforms, address, wide), true)),
        luma_modes_bins(
            state.modes.update(address, quarter_modes(luma.modes)),
            address,
            wide,
            4,
            4,
        ),
        chroma_mode_bins(
            chroma.mode as int,
            chroma_mode_increment(state.chroma_modes, address, wide),
        ),
        address,
        wide,
        pattern as u8,
        qp_delta(state.previous_qp, site.qp),
        state.previous_delta,
    )
}

/// The head of a macroblock that is predicted in eight-by-eight blocks is told.
#[verifier::spinoff_prover]
#[verifier::rlimit(40)]
proof fn lemma_head_8_read(
    state: IntraState,
    first: SiteModel,
    second: SiteModel,
    count: int,
    x: Seq<Bin>,
    y: Seq<Bin>,
)
    requires
        same_place(first, second),
        intra_sized(state, count),
        site_sized(first, count),
        site_sized(second, count),
        together(head_8(state, first).bins + x, head_8(state, second).bins + y),
    ensures
        ({
            let a = luma_coded_8(first, state.planes.luma, 4);
            let b = luma_coded_8(second, state.planes.luma, 4);
            let c = chroma_coded_intra(first, state.planes.cb, state.planes.cr);
            let d = chroma_coded_intra(second, state.planes.cb, state.planes.cr);
            let marks = luma_pattern(LumaLevels::EightByEight(a.levels));
            let chroma_marks = chroma_pattern(c.cb_levels, c.cr_levels);
            &&& a.modes == b.modes
            &&& c.mode == d.mode
            &&& marks == luma_pattern(LumaLevels::EightByEight(b.levels))
            &&& chroma_marks == chroma_pattern(d.cb_levels, d.cr_levels)
            &&& marks + 16 * chroma_marks != 0 ==> first.qp == second.qp
        }),
        head_8(state, first) == head_8(state, second),
        together(x, y),
{
    let address = first.address();
    let wide = first.wide;
    let a = luma_coded_8(first, state.planes.luma, 4);
    let b = luma_coded_8(second, state.planes.luma, 4);
    let c = chroma_coded_intra(first, state.planes.cb, state.planes.cr);
    let d = chroma_coded_intra(second, state.planes.cb, state.planes.cr);
    lemma_luma_8(first, state.planes.luma, 4);
    lemma_luma_8(second, state.planes.luma, 4);
    lemma_chroma_sizes(first, state.planes.cb, state.planes.cr);
    lemma_chroma_sizes(second, state.planes.cb, state.planes.cr);
    let marks = luma_pattern(LumaLevels::EightByEight(a.levels));
    let other_marks = luma_pattern(LumaLevels::EightByEight(b.levels));
    let chroma_marks = chroma_pattern(c.cb_levels, c.cr_levels);
    let other_chroma = chroma_pattern(d.cb_levels, d.cr_levels);
    lemma_marks_8(a.levels, 0);
    lemma_marks_8(b.levels, 0);
    assert(0 <= chroma_marks <= 2 && 0 <= other_chroma <= 2);
    let transform = Some(decision(transform_slot(state.transforms, address, wide), true));
    let row = quarter_modes(a.modes);
    let other_row = quarter_modes(b.modes);
    let modes = state.modes.update(address, row);
    let other_modes = state.modes.update(address, other_row);
    let increment = chroma_mode_increment(state.chroma_modes, address, wide);
    let pattern = (marks + 16 * chroma_marks) as u8;
    let other_pattern = (other_marks + 16 * other_chroma) as u8;
    let delta = qp_delta(state.previous_qp, first.qp);
    let other_delta = qp_delta(state.previous_qp, second.qp);
    let m = luma_modes_bins(modes, address, wide, 4, 4);
    let n = luma_modes_bins(other_modes, address, wide, 4, 4);
    let e = chroma_mode_bins(c.mode as int, increment);
    let f = chroma_mode_bins(d.mode as int, increment);
    lemma_head(
        state.marked,
        transform,
        m,
        e,
        address,
        wide,
        pattern,
        delta,
        state.previous_delta,
    );
    lemma_head(
        state.marked,
        transform,
        n,
        f,
        address,
        wide,
        other_pattern,
        other_delta,
        state.previous_delta,
    );
    let u = head_bins(
        transform,
        m,
        e,
        near_pattern_bins(state.marked, address, wide, pattern as int),
        change_bins(pattern as int, delta, state.previous_delta),
    );
    let v = head_bins(
        transform,
        n,
        f,
        near_pattern_bins(state.marked, address, wide, other_pattern as int),
        change_bins(other_pattern as int, other_delta, state.previous_delta),
    );
    let bins = state.marked.bins;
    assert((bins + u) + x =~= bins + (u + x));
    assert((bins + v) + y =~= bins + (v + y));
    lemma_go_on(bins, u + x, v + y);
    lemma_modes_beside(state.modes, address, row, other_row, 4);
    lemma_head_read(
        state.marked,
        transform,
        modes,
        other_modes,
        address,
        wide,
        4,
        c.mode as int,
        d.mode as int,
        increment,
        pattern,
        other_pattern,
        state.previous_qp,
        first.qp,
        second.qp,
        state.previous_delta,
        x,
        y,
    );
    lemma_rows_agree(state.modes, address, row, other_row);
    assert forall|i: int| 0 <= i < 4 implies a.modes[i] == b.modes[i] by {
        assert(row[4 * i] == other_row[4 * i]);
    }
    assert(a.modes =~= b.modes);
}

/// Quarters that are marked hold something.
proof fn lemma_marked_holds(levels: Seq<Seq<int>>, group: int)
    requires
        0 <= group < 4,
        quarter_marked(luma_pattern(LumaLevels::EightByEight(levels)), 4 * group),
    ensures
        any_nonzero(levels[group]),
{
    assert(group_coded(LumaLevels::EightByEight(levels), group));
}

/// A macroblock that is predicted in eight-by-eight blocks is told by its symbols, where the
/// macroblocks before it are known.
#[verifier::spinoff_prover]
#[verifier::rlimit(40)]
proof fn lemma_intra8_read(
    state: IntraState,
    first: SiteModel,
    second: SiteModel,
    count: int,
    x: Seq<Bin>,
    y: Seq<Bin>,
)
    requires
        same_place(first, second),
        intra_sized(state, count),
        site_sized(first, count),
        site_sized(second, count),
        together(
            cabac_intra8_macroblock(state, first).marked.bins + x,
            cabac_intra8_macroblock(state, second).marked.bins + y,
        ),
    ensures
        cabac_intra8_macroblock(state, first) == cabac_intra8_macroblock(state, second),
        together(x, y),
{
    reveal(cabac_intra8_macroblock);
    let address = first.address();
    let wide = first.wide;
    let a = luma_coded_8(first, state.planes.luma, 4);
    let b = luma_coded_8(second, state.planes.luma, 4);
    let c = chroma_coded_intra(first, state.planes.cb, state.planes.cr);
    let d = chroma_coded_intra(second, state.planes.cb, state.planes.cr);
    lemma_luma_8(first, state.planes.luma, 4);
    lemma_luma_8(second, state.planes.luma, 4);
    lemma_chroma_sizes(first, state.planes.cb, state.planes.cr);
    lemma_chroma_sizes(second, state.planes.cb, state.planes.cr);
    let marks = luma_pattern(LumaLevels::EightByEight(a.levels));
    let other_marks = luma_pattern(LumaLevels::EightByEight(b.levels));
    let chroma_marks = chroma_pattern(c.cb_levels, c.cr_levels);
    let other_chroma = chroma_pattern(d.cb_levels, d.cr_levels);
    let head = head_8(state, first);
    let other_head = head_8(state, second);
    let u = large_marked(head, address, a.levels, marks, 4);
    let v = large_marked(other_head, address, b.levels, other_marks, 4);
    let l = lemma_large_adds(head, address, a.levels, marks, 4);
    let other_l = lemma_large_adds(other_head, address, b.levels, other_marks, 4);
    let e = lemma_chroma_adds(u, address, wide, c.cb_levels, c.cr_levels, chroma_marks, true);
    let f = lemma_chroma_adds(v, address, wide, d.cb_levels, d.cr_levels, other_chroma, true);
    assert((u.bins + e) + x =~= u.bins + (e + x));
    assert((v.bins + f) + y =~= v.bins + (f + y));
    assert((head.bins + l) + (e + x) =~= head.bins + (l + (e + x)));
    assert((other_head.bins + other_l) + (f + y) =~= other_head.bins + (other_l + (f + y)));
    lemma_head_8_read(state, first, second, count, l + (e + x), other_l + (f + y));
    assert forall|g: int| 0 <= g < 4 && quarter_marked(marks, 4 * g) implies any_nonzero(
        #[trigger] a.levels[g],
    ) by {
        lemma_marked_holds(a.levels, g);
    }
    assert forall|g: int| 0 <= g < 4 && quarter_marked(marks, 4 * g) implies any_nonzero(
        #[trigger] b.levels[g],
    ) by {
        lemma_marked_holds(b.levels, g);
    }
    lemma_large_read(head, address, a.levels, b.levels, marks, 4, e + x, f + y);
    lemma_chroma_read(
        u,
        address,
        wide,
        c.cb_levels,
        c.cr_levels,
        d.cb_levels,
        d.cr_levels,
        chroma_marks,
        true,
        x,
        y,
    );
    assert forall|i: int| 0 <= i < 4 implies a.levels[i] == b.levels[i] by {
        lemma_marks_8(a.levels, i);
        lemma_marks_8(b.levels, i);
        if !quarter_marked(marks, 4 * i) {
            lemma_zeros_equal(a.levels[i], b.levels[i]);
        }
    }
    assert(a.levels =~= b.levels);
    lemma_chroma_equal(c.cb_levels, c.cr_levels, d.cb_levels, d.cr_levels);
    lemma_marks_8(a.levels, 0);
    if first.qp != second.qp {
        assert forall|i: int| 0 <= i < 4 implies all_zero(#[trigger] a.levels[i]) by {
            lemma_marks_8(a.levels, i);
            assert(marks == 0);
            assert(!quarter_marked(marks, 4 * i));
        }
    }
    lemma_plane_8(first, second, state.planes.luma, 4);
    lemma_chroma_alike(first, second, state.planes.cb, state.planes.cr);
}

/// The symbols of a macroblock that is predicted as a whole, up to its luma means.
spec fn head_16(state: IntraState, site: SiteModel) -> Seq<Bin> {
    let luma = luma_coded_16(site, state.planes.luma);
    let chroma = chroma_coded_intra(site, state.planes.cb, state.planes.cr);
    type_i_bins(
        whole_type(
            luma.mode as int,
            chroma_pattern(chroma.cb_levels, chroma.cr_levels),
            any_block_nonzero(luma.ac),
        ),
        unit(site.x != 0) + unit(site.y != 0),
    ) + (chroma_mode_bins(
        chroma.mode as int,
        chroma_mode_increment(state.chroma_modes, site.address(), site.wide),
    ) + qp_delta_bins(qp_delta(state.previous_qp, site.qp), state.previous_delta))
}

/// The head of a macroblock that is predicted as a whole is told.
#[verifier::spinoff_prover]
#[verifier::rlimit(40)]
proof fn lemma_head_16_read(
    state: IntraState,
    first: SiteModel,
    second: SiteModel,
    count: int,
    x: Seq<Bin>,
    y: Seq<Bin>,
)
    requires
        same_place(first, second),
        intra_sized(state, count),
        site_sized(first, count),
        site_sized(second, count),
        together(head_16(state, first) + x, head_16(state, second) + y),
    ensures
        ({
            let a = luma_coded_16(first, state.planes.luma);
            let b = luma_coded_16(second, state.planes.luma);
            let c = chroma_coded_intra(first, state.planes.cb, state.planes.cr);
            let d = chroma_coded_intra(second, state.planes.cb, state.planes.cr);
            &&& a.mode == b.mode
            &&& any_block_nonzero(a.ac) == any_block_nonzero(b.ac)
            &&& chroma_pattern(c.cb_levels, c.cr_levels) == chroma_pattern(
                d.cb_levels,
                d.cr_levels,
            )
            &&& c.mode == d.mode
            &&& first.qp == second.qp
        }),
        head_16(state, first) == head_16(state, second),
        together(x, y),
{
    let a = luma_coded_16(first, state.planes.luma);
    let b = luma_coded_16(second, state.planes.luma);
    let c = chroma_coded_intra(first, state.planes.cb, state.planes.cr);
    let d = chroma_coded_intra(second, state.planes.cb, state.planes.cr);
    lemma_luma_16(first, state.planes.luma);
    lemma_luma_16(second, state.planes.luma);
    lemma_chroma_sizes(first, state.planes.cb, state.planes.cr);
    lemma_chroma_sizes(second, state.planes.cb, state.planes.cr);
    let marks = chroma_pattern(c.cb_levels, c.cr_levels);
    let other_marks = chroma_pattern(d.cb_levels, d.cr_levels);
    assert(0 <= marks <= 2 && 0 <= other_marks <= 2);
    let kind = whole_type(a.mode as int, marks, any_block_nonzero(a.ac));
    let other_kind = whole_type(b.mode as int, other_marks, any_block_nonzero(b.ac));
    let place = unit(first.x != 0) + unit(first.y != 0);
    let increment = chroma_mode_increment(state.chroma_modes, first.address(), first.wide);
    let p = type_i_bins(kind, place);
    let q = type_i_bins(other_kind, place);
    let m = chroma_mode_bins(c.mode as int, increment);
    let n = chroma_mode_bins(d.mode as int, increment);
    let e = qp_delta_bins(qp_delta(state.previous_qp, first.qp), state.previous_delta);
    let f = qp_delta_bins(qp_delta(state.previous_qp, second.qp), state.previous_delta);
    lemma_three(p, m, e, x);
    lemma_three(q, n, f, y);
    assert(head_16(state, first) == p + (m + e));
    assert(head_16(state, second) == q + (n + f));
    law_type_i_read(kind, other_kind, place, m + (e + x), n + (f + y));
    law_chroma_mode_read(c.mode as int, d.mode as int, increment, e + x, f + y);
    law_qp_delta_read(
        qp_delta(state.previous_qp, first.qp),
        qp_delta(state.previous_qp, second.qp),
        state.previous_delta,
        x,
        y,
    );
    lemma_quantizer_told(state.previous_qp, first.qp, second.qp);
}

/// The symbols of the luma means of a macroblock.
spec fn means_bins(before: Marked, address: int, wide: int, levels: Seq<int>) -> Seq<Bin> {
    marked_block_bins(
        BlockKind::LumaDc,
        coded_slot(
            BlockKind::LumaDc,
            left_of(before.luma_dc, address, wide),
            top_of(before.luma_dc, address, wide),
            true,
        ),
        levels,
    )
}

/// A macroblock that is predicted as a whole is told by its symbols, where the macroblocks before
/// it are known.
#[verifier::spinoff_prover]
#[verifier::rlimit(40)]
proof fn lemma_intra16_read(
    state: IntraState,
    first: SiteModel,
    second: SiteModel,
    count: int,
    x: Seq<Bin>,
    y: Seq<Bin>,
)
    requires
        same_place(first, second),
        intra_sized(state, count),
        site_sized(first, count),
        site_sized(second, count),
        together(
            cabac_intra16_macroblock(state, first).marked.bins + x,
            cabac_intra16_macroblock(state, second).marked.bins + y,
        ),
    ensures
        cabac_intra16_macroblock(state, first) == cabac_intra16_macroblock(state, second),
        together(x, y),
{
    reveal(cabac_intra16_macroblock);
    let address = first.address();
    let wide = first.wide;
    let a = luma_coded_16(first, state.planes.luma);
    let b = luma_coded_16(second, state.planes.luma);
    let c = chroma_coded_intra(first, state.planes.cb, state.planes.cr);
    let d = chroma_coded_intra(second, state.planes.cb, state.planes.cr);
    lemma_luma_16(first, state.planes.luma);
    lemma_luma_16(second, state.planes.luma);
    lemma_chroma_sizes(first, state.planes.cb, state.planes.cr);
    lemma_chroma_sizes(second, state.planes.cb, state.planes.cr);
    let marks: int = if any_block_nonzero(a.ac) {
        15
    } else {
        0
    };
    let other_marks: int = if any_block_nonzero(b.ac) {
        15
    } else {
        0
    };
    let chroma_marks = chroma_pattern(c.cb_levels, c.cr_levels);
    let other_chroma = chroma_pattern(d.cb_levels, d.cr_levels);
    let kind = BlockKind::LumaAc;
    let bins = state.marked.bins;
    let head = head_16(state, first);
    let other_head = head_16(state, second);
    let h = state.marked.plus(head);
    let i = state.marked.plus(other_head);
    lemma_joined_16(state, first);
    lemma_joined_16(state, second);
    let s = luma_means_marked(h, address, wide, a.dc);
    let t = luma_means_marked(i, address, wide, b.dc);
    let p = means_bins(h, address, wide, a.dc);
    let q = means_bins(i, address, wide, b.dc);
    let u = luma_marked(s, address, wide, kind, a.ac, marks, true, 16);
    let v = luma_marked(t, address, wide, kind, b.ac, other_marks, true, 16);
    let l = lemma_luma_adds(s, address, wide, kind, a.ac, marks, true, 16);
    let m = lemma_luma_adds(t, address, wide, kind, b.ac, other_marks, true, 16);
    let e = lemma_chroma_adds(u, address, wide, c.cb_levels, c.cr_levels, chroma_marks, true);
    let f = lemma_chroma_adds(v, address, wide, d.cb_levels, d.cr_levels, other_chroma, true);
    assert((u.bins + e) + x =~= u.bins + (e + x));
    assert((v.bins + f) + y =~= v.bins + (f + y));
    assert((s.bins + l) + (e + x) =~= s.bins + (l + (e + x)));
    assert((t.bins + m) + (f + y) =~= t.bins + (m + (f + y)));
    assert(s.bins + (l + (e + x)) =~= bins + (head + (p + (l + (e + x)))));
    assert(t.bins + (m + (f + y)) =~= bins + (other_head + (q + (m + (f + y)))));
    lemma_go_on(
        bins,
        head + (p + (l + (e + x))),
        other_head + (q + (m + (f + y))),
    );
    lemma_head_16_read(
        state,
        first,
        second,
        count,
        p + (l + (e + x)),
        q + (m + (f + y)),
    );
    law_marked_block_read(
        BlockKind::LumaDc,
        coded_slot(
            BlockKind::LumaDc,
            left_of(h.luma_dc, address, wide),
            top_of(h.luma_dc, address, wide),
            true,
        ),
        a.dc,
        b.dc,
        l + (e + x),
        m + (f + y),
    );
    lemma_luma_read(
        s,
        address,
        wide,
        kind,
        a.ac,
        b.ac,
        marks,
        true,
        16,
        e + x,
        f + y,
    );
    lemma_chroma_read(
        u,
        address,
        wide,
        c.cb_levels,
        c.cr_levels,
        d.cb_levels,
        d.cr_levels,
        chroma_marks,
        true,
        x,
        y,
    );
    assert forall|k: int| 0 <= k < 16 implies a.ac[k] == b.ac[k] by {
        if marks == 0 {
            assert(!any_nonzero(a.ac[k]) && !any_nonzero(b.ac[k]));
            lemma_not_any(a.ac[k]);
            lemma_not_any(b.ac[k]);
            lemma_zeros_equal(a.ac[k], b.ac[k]);
        } else {
            assert(quarter_marked(15, k));
        }
    }
    assert(a.ac =~= b.ac);
    lemma_chroma_equal(c.cb_levels, c.cr_levels, d.cb_levels, d.cr_levels);
    lemma_chroma_alike(first, second, state.planes.cb, state.planes.cr);
}

/// The head of a macroblock that is predicted as a whole, in the steps in which it is written.
proof fn lemma_joined_16(state: IntraState, site: SiteModel)
    ensures
        ({
            let luma = luma_coded_16(site, state.planes.luma);
            let chroma = chroma_coded_intra(site, state.planes.cb, state.planes.cr);
            state.marked.plus(head_16(state, site)) == state.marked.plus(
                type_i_bins(
                    whole_type(
                        luma.mode as int,
                        chroma_pattern(chroma.cb_levels, chroma.cr_levels),
                        any_block_nonzero(luma.ac),
                    ),
                    unit(site.x != 0) + unit(site.y != 0),
                ),
            ).plus(
                chroma_mode_bins(
                    chroma.mode as int,
                    chroma_mode_increment(state.chroma_modes, site.address(), site.wide),
                ),
            ).plus(qp_delta_bins(qp_delta(state.previous_qp, site.qp), state.previous_delta))
        }),
{
    let luma = luma_coded_16(site, state.planes.luma);
    let chroma = chroma_coded_intra(site, state.planes.cb, state.planes.cr);
    let p = type_i_bins(
        whole_type(
            luma.mode as int,
            chroma_pattern(chroma.cb_levels, chroma.cr_levels),
            any_block_nonzero(luma.ac),
        ),
        unit(site.x != 0) + unit(site.y != 0),
    );
    let m = chroma_mode_bins(
        chroma.mode as int,
        chroma_mode_increment(state.chroma_modes, site.address(), site.wide),
    );
    let e = qp_delta_bins(qp_delta(state.previous_qp, site.qp), state.previous_delta);
    assert(state.marked.bins + (p + (m + e)) =~= state.marked.bins + p + m + e);
}

/// A macroblock adds its symbols.
proof fn lemma_macroblock_adds(
    configuration: Configuration,
    state: IntraState,
    site: SiteModel,
) -> (more: Seq<Bin>)
    ensures
        cabac_macroblock(configuration, state, site).marked.bins == state.marked.bins + more,
{
    reveal(cabac_intra16_macroblock);
    reveal(cabac_intra8_macroblock);
    reveal(cabac_intra4_macroblock);
    let address = site.address();
    let wide = site.wide;
    let chroma = chroma_coded_intra(site, state.planes.cb, state.planes.cr);
    let chroma_marks = chroma_pattern(chroma.cb_levels, chroma.cr_levels);
    let bins = state.marked.bins;
    if configuration.mode == EncoderMode::Intra16 {
        let luma = luma_coded_16(site, state.planes.luma);
        let marks: int = if any_block_nonzero(luma.ac) {
            15
        } else {
            0
        };
        let head = head_16(state, site);
        lemma_joined_16(state, site);
        let h = state.marked.plus(head);
        let s = luma_means_marked(h, address, wide, luma.dc);
        let p = means_bins(h, address, wide, luma.dc);
        let u = luma_marked(s, address, wide, BlockKind::LumaAc, luma.ac, marks, true, 16);
        let l = lemma_luma_adds(
            s,
            address,
            wide,
            BlockKind::LumaAc,
            luma.ac,
            marks,
            true,
            16,
        );
        let e = lemma_chroma_adds(
            u,
            address,
            wide,
            chroma.cb_levels,
            chroma.cr_levels,
            chroma_marks,
            true,
        );
        assert(bins + head + p + l + e =~= bins + (head + p + l + e));
        head + p + l + e
    } else if configuration.mode == EncoderMode::Intra8 {
        let luma = luma_coded_8(site, state.planes.luma, 4);
        let marks = luma_pattern(LumaLevels::EightByEight(luma.levels));
        let h = head_8(state, site);
        let head = lemma_head_adds_8(state, site);
        let u = large_marked(h, address, luma.levels, marks, 4);
        let l = lemma_large_adds(h, address, luma.levels, marks, 4);
        let e = lemma_chroma_adds(
            u,
            address,
            wide,
            chroma.cb_levels,
            chroma.cr_levels,
            chroma_marks,
            true,
        );
        assert(bins + head + l + e =~= bins + (head + l + e));
        head + l + e
    } else {
        let large = configuration.transform_8x8_mode;
        let luma = luma_coded_4(site, state.planes.luma, 16);
        let marks = luma_pattern(LumaLevels::FourByFour(luma.levels));
        let h = head_4(state, site, large);
        let head = lemma_head_adds_4(state, site, large);
        let kind = BlockKind::Luma4x4;
        let u = luma_marked(h, address, wide, kind, luma.levels, marks, true, 16);
        let l = lemma_luma_adds(h, address, wide, kind, luma.levels, marks, true, 16);
        let e = lemma_chroma_adds(
            u,
            address,
            wide,
            chroma.cb_levels,
            chroma.cr_levels,
            chroma_marks,
            true,
        );
        assert(bins + head + l + e =~= bins + (head + l + e));
        head + l + e
    }
}

proof fn lemma_head_adds_4(state: IntraState, site: SiteModel, large: bool) -> (more: Seq<Bin>)
    ensures
        head_4(state, site, large).bins == state.marked.bins + more,
{
    let all = head_4(state, site, large).bins;
    let more = all.skip(state.marked.bins.len() as int);
    assert(all =~= state.marked.bins + more);
    more
}

proof fn lemma_head_adds_8(state: IntraState, site: SiteModel) -> (more: Seq<Bin>)
    ensures
        head_8(state, site).bins == state.marked.bins + more,
{
    let all = head_8(state, site).bins;
    let more = all.skip(state.marked.bins.len() as int);
    assert(all =~= state.marked.bins + more);
    more
}

/// What is kept of a picture keeps its size and its range.
proof fn lemma_macroblock_sized(
    configuration: Configuration,
    state: IntraState,
    site: SiteModel,
    count: int,
)
    requires
        intra_sized(state, count),
        site_sized(site, count),
    ensures
        intra_sized(cabac_macroblock(configuration, state, site), count),
{
    reveal(cabac_intra16_macroblock);
    reveal(cabac_intra4_macroblock);
    reveal(cabac_intra8_macroblock);
    let address = site.address();
    let after = cabac_macroblock(configuration, state, site);
    if configuration.mode != EncoderMode::Intra16 {
        let row = if configuration.mode == EncoderMode::Intra8 {
            quarter_modes(luma_coded_8(site, state.planes.luma, 4).modes)
        } else {
            luma_coded_4(site, state.planes.luma, 16).modes
        };
        lemma_luma_8(site, state.planes.luma, 4);
        lemma_luma_4(site, state.planes.luma, 16);
        assert(after.modes == state.modes.update(address, row));
        assert(row.len() == 16);
        assert forall|b: int| 0 <= b < 16 implies #[trigger] row[b] <= 8 by {
            if configuration.mode == EncoderMode::Intra8 {
                assert(luma_coded_8(site, state.planes.luma, 4).modes[b / 4] <= 8);
            }
        }
        assert forall|a: int, b: int|
            0 <= a < after.modes.len() && 0 <= b < after.modes[a].len() implies
            #[trigger] after.modes[a][b] <= 8 by {
            if a == address {
                assert(after.modes[a][b] == row[b]);
            } else {
                assert(after.modes[a][b] == state.modes[a][b]);
            }
        }
    }
}

/// The macroblocks of a picture that stands alone are told by its symbols.
pub proof fn lemma_macroblocks_read(
    configuration: Configuration,
    first: Samples,
    first_qps: Seq<int>,
    second: Samples,
    second_qps: Seq<int>,
    start: IntraState,
    high: int,
    count: int,
    x: Seq<Bin>,
    y: Seq<Bin>,
)
    requires
        configuration.macroblocks_wide > 0,
        0 <= count <= configuration.macroblocks_wide * high,
        intra_sized(start, configuration.macroblocks_wide * high),
        forall|a: int|
            0 <= a < configuration.macroblocks_wide * high ==> quantizer(#[trigger] first_qps[a]),
        forall|a: int|
            0 <= a < configuration.macroblocks_wide * high ==> quantizer(
                #[trigger] second_qps[a],
            ),
        together(
            cabac_coded(configuration, first, first_qps, start, count).marked.bins + x,
            cabac_coded(configuration, second, second_qps, start, count).marked.bins + y,
        ),
    ensures
        cabac_coded(configuration, first, first_qps, start, count) == cabac_coded(
            configuration,
            second,
            second_qps,
            start,
            count,
        ),
        intra_sized(
            cabac_coded(configuration, first, first_qps, start, count),
            configuration.macroblocks_wide * high,
        ),
        together(x, y),
    decreases count,
{
    if count <= 0 {
        lemma_go_on(start.marked.bins, x, y);
    } else {
        let all = configuration.macroblocks_wide * high;
        let address = count - 1;
        let wide = configuration.macroblocks_wide as int;
        let before = cabac_coded(configuration, first, first_qps, start, address);
        let other_before = cabac_coded(configuration, second, second_qps, start, address);
        let state = going_on(before, address);
        let other = going_on(other_before, address);
        let a = idr_site(configuration, first, first_qps, address);
        let b = idr_site(configuration, second, second_qps, address);
        vstd::arithmetic::div_mod::lemma_fundamental_div_mod(address, wide);
        assert(wide * (address / wide) == (address / wide) * wide) by (nonlinear_arith);
        assert(a.address() == address && b.address() == address);
        let more = lemma_macroblock_adds(configuration, state, a);
        let rest = lemma_macroblock_adds(configuration, other, b);
        let gap: Seq<Bin> = if address > 0 {
            seq![Bin::Terminate(false)]
        } else {
            Seq::empty()
        };
        assert(state.marked.bins =~= before.marked.bins + gap);
        assert(other.marked.bins =~= other_before.marked.bins + gap);
        assert((state.marked.bins + more) + x =~= before.marked.bins + (gap + (more + x)));
        assert((other.marked.bins + rest) + y =~= other_before.marked.bins + (gap + (rest + y)));
        lemma_macroblocks_read(
            configuration,
            first,
            first_qps,
            second,
            second_qps,
            start,
            high,
            address,
            gap + (more + x),
            gap + (rest + y),
        );
        assert(quantizer(first_qps[address]) && quantizer(second_qps[address]));
        assert(intra_sized(state, all));
        if configuration.mode == EncoderMode::Intra16 {
            lemma_intra16_read(state, a, b, all, x, y);
        } else if configuration.mode == EncoderMode::Intra8 {
            lemma_intra8_read(state, a, b, all, x, y);
        } else {
            lemma_intra4_read(state, a, b, configuration.transform_8x8_mode, all, x, y);
        }
        lemma_macroblock_sized(configuration, state, a, all);
    }
}

/// The symbols of luma prediction modes stand inside a picture.
proof fn lemma_modes_inner(
    modes: Seq<Seq<u8>>,
    address: int,
    wide: int,
    step: int,
    count: int,
)
    ensures
        inner_bins(luma_modes_bins(modes, address, wide, step, count)),
    decreases count,
{
    if count > 0 {
        lemma_modes_inner(modes, address, wide, step, count - 1);
        let block = (count - 1) * step;
        let last = luma_mode_bins(
            modes[address][block] as int,
            predicted_mode(modes, address, block, wide),
        );
        lemma_luma_mode_inner(
            modes[address][block] as int,
            predicted_mode(modes, address, block, wide),
        );
        lemma_inner_joined(luma_modes_bins(modes, address, wide, step, count - 1), last);
    }
}

/// The symbols of the head of a macroblock stand inside a picture.
proof fn lemma_head_inner(
    before: Marked,
    transform: Option<Bin>,
    modes: Seq<Bin>,
    mode: int,
    increment: int,
    address: int,
    wide: int,
    pattern: u8,
    delta: int,
    previous: int,
)
    requires
        inner_bins(before.bins),
        inner_bins(modes),
        0 <= increment <= 2,
        transform matches Some(bin) ==> inner_bin(bin),
    ensures
        inner_bins(
            blockwise_marked(
                before,
                transform,
                modes,
                chroma_mode_bins(mode, increment),
                address,
                wide,
                pattern,
                delta,
                previous,
            ).bins,
        ),
{
    let chroma = chroma_mode_bins(mode, increment);
    let near = near_pattern_bins(before, address, wide, pattern as int);
    let change = change_bins(pattern as int, delta, previous);
    let t = match transform {
        Some(bin) => seq![bin],
        None => Seq::empty(),
    };
    lemma_head(before, transform, modes, chroma, address, wide, pattern, delta, previous);
    lemma_type_i_inner(0, 0);
    lemma_chroma_mode_inner(mode, increment);
    lemma_pattern_inner(
        pattern as int,
        pattern_or_outside(left_of(before.patterns, address, wide)),
        pattern_or_outside(top_of(before.patterns, address, wide)),
    );
    lemma_qp_delta_inner(delta, previous);
    assert(inner_bins(t));
    lemma_inner_joined(near, change);
    lemma_inner_joined(chroma, near + change);
    lemma_inner_joined(modes, chroma + (near + change));
    lemma_inner_joined(t, modes + (chroma + (near + change)));
    lemma_inner_joined(type_i_bins(0, 0), t + (modes + (chroma + (near + change))));
    lemma_inner_joined(before.bins, head_bins(transform, modes, chroma, near, change));
}

/// The symbols of a macroblock stand inside a picture.
proof fn lemma_macroblock_inner(
    configuration: Configuration,
    state: IntraState,
    site: SiteModel,
)
    requires
        quantizer(site.qp),
        inner_bins(state.marked.bins),
    ensures
        inner_bins(cabac_macroblock(configuration, state, site).marked.bins),
{
    reveal(cabac_intra16_macroblock);
    reveal(cabac_intra8_macroblock);
    reveal(cabac_intra4_macroblock);
    let address = site.address();
    let wide = site.wide;
    let chroma = chroma_coded_intra(site, state.planes.cb, state.planes.cr);
    let chroma_marks = chroma_pattern(chroma.cb_levels, chroma.cr_levels);
    let increment = chroma_mode_increment(state.chroma_modes, address, wide);
    let delta = qp_delta(state.previous_qp, site.qp);
    lemma_chroma_sizes(site, state.planes.cb, state.planes.cr);
    if configuration.mode == EncoderMode::Intra16 {
        let luma = luma_coded_16(site, state.planes.luma);
        lemma_luma_16(site, state.planes.luma);
        let marks: int = if any_block_nonzero(luma.ac) {
            15
        } else {
            0
        };
        let place = unit(site.x != 0) + unit(site.y != 0);
        let kind = whole_type(luma.mode as int, chroma_marks, any_block_nonzero(luma.ac));
        let h = state.marked.plus(head_16(state, site));
        lemma_joined_16(state, site);
        lemma_type_i_inner(kind, place);
        lemma_chroma_mode_inner(chroma.mode as int, increment);
        lemma_qp_delta_inner(delta, state.previous_delta);
        lemma_inner_joined(
            chroma_mode_bins(chroma.mode as int, increment),
            qp_delta_bins(delta, state.previous_delta),
        );
        lemma_inner_joined(
            type_i_bins(kind, place),
            chroma_mode_bins(chroma.mode as int, increment) + qp_delta_bins(
                delta,
                state.previous_delta,
            ),
        );
        lemma_inner_joined(state.marked.bins, head_16(state, site));
        let s = luma_means_marked(h, address, wide, luma.dc);
        lemma_luma_means_inner(h, address, wide, luma.dc);
        lemma_luma_inner(s, address, wide, BlockKind::LumaAc, luma.ac, marks, true, 16);
        let u = luma_marked(s, address, wide, BlockKind::LumaAc, luma.ac, marks, true, 16);
        lemma_chroma_inner(
            u,
            address,
            wide,
            chroma.cb_levels,
            chroma.cr_levels,
            chroma_marks,
            true,
        );
    } else if configuration.mode == EncoderMode::Intra8 {
        let luma = luma_coded_8(site, state.planes.luma, 4);
        lemma_luma_8(site, state.planes.luma, 4);
        let marks = luma_pattern(LumaLevels::EightByEight(luma.levels));
        let modes = state.modes.update(address, quarter_modes(luma.modes));
        let h = head_8(state, site);
        lemma_modes_inner(modes, address, wide, 4, 4);
        lemma_head_inner(
            state.marked,
            Some(decision(transform_slot(state.transforms, address, wide), true)),
            luma_modes_bins(modes, address, wide, 4, 4),
            chroma.mode as int,
            increment,
            address,
            wide,
            (marks + 16 * chroma_marks) as u8,
            delta,
            state.previous_delta,
        );
        lemma_large_inner(h, address, luma.levels, marks, 4);
        let u = large_marked(h, address, luma.levels, marks, 4);
        lemma_chroma_inner(
            u,
            address,
            wide,
            chroma.cb_levels,
            chroma.cr_levels,
            chroma_marks,
            true,
        );
    } else {
        let large = configuration.transform_8x8_mode;
        let luma = luma_coded_4(site, state.planes.luma, 16);
        lemma_luma_4(site, state.planes.luma, 16);
        let marks = luma_pattern(LumaLevels::FourByFour(luma.levels));
        let modes = state.modes.update(address, luma.modes);
        let h = head_4(state, site, large);
        lemma_modes_inner(modes, address, wide, 1, 16);
        lemma_head_inner(
            state.marked,
            if large {
                Some(decision(transform_slot(state.transforms, address, wide), false))
            } else {
                None
            },
            luma_modes_bins(modes, address, wide, 1, 16),
            chroma.mode as int,
            increment,
            address,
            wide,
            (marks + 16 * chroma_marks) as u8,
            delta,
            state.previous_delta,
        );
        let kind = BlockKind::Luma4x4;
        lemma_luma_inner(h, address, wide, kind, luma.levels, marks, true, 16);
        let u = luma_marked(h, address, wide, kind, luma.levels, marks, true, 16);
        lemma_chroma_inner(
            u,
            address,
            wide,
            chroma.cb_levels,
            chroma.cr_levels,
            chroma_marks,
            true,
        );
    }
}

/// The symbols of a picture that stands alone stand inside it.
proof fn lemma_coded_inner(
    configuration: Configuration,
    source: Samples,
    qps: Seq<int>,
    start: IntraState,
    count: int,
)
    requires
        inner_bins(start.marked.bins),
        forall|a: int| 0 <= a < count ==> quantizer(#[trigger] qps[a]),
    ensures
        inner_bins(cabac_coded(configuration, source, qps, start, count).marked.bins),
    decreases count,
{
    if count > 0 {
        lemma_coded_inner(configuration, source, qps, start, count - 1);
        assert(quantizer(qps[count - 1]));
        let before = cabac_coded(configuration, source, qps, start, count - 1);
        let state = going_on(before, count - 1);
        assert(inner_bins(seq![Bin::Terminate(false)]));
        lemma_inner_joined(before.marked.bins, seq![Bin::Terminate(false)]);
        lemma_macroblock_inner(
            configuration,
            state,
            idr_site(configuration, source, qps, count - 1),
        );
    }
}

/// The symbols of two pictures go together where their headers and bytes are the same.
#[verifier::spinoff_prover]
#[verifier::rlimit(40)]
pub proof fn lemma_bytes_read(
    header: Seq<bool>,
    table: Seq<(i8, i8)>,
    qp: int,
    first: Seq<Bin>,
    second: Seq<Bin>,
)
    requires
        table.len() == SLOT_COUNT,
        quantizer(qp),
        inner_bins(first),
        inner_bins(second),
        header_bytes(header) + picture_bytes(table, qp, first) == header_bytes(header)
            + picture_bytes(table, qp, second),
    ensures
        together(first + seq![Bin::Terminate(true)], second + seq![Bin::Terminate(true)]),
{
    law_slice_read_back(header, table, qp, first);
    law_slice_read_back(header, table, qp, second);
    let bits = unpacked(header_bytes(header) + picture_bytes(table, qp, first));
    let at = aligned_at(bits, header.len() as int)->Ok_0;
    let a = first.push(Bin::Terminate(true));
    let b = second.push(Bin::Terminate(true));
    lemma_read_together(started(bits, at, 0).engine, initial_states(table, qp), a, b);
    assert(a =~= first + seq![Bin::Terminate(true)]);
    assert(b =~= second + seq![Bin::Terminate(true)]);
}

/// The bytes of a picture start with its header.
#[verifier::spinoff_prover]
#[verifier::rlimit(40)]
proof fn lemma_header_starts(
    header: Seq<bool>,
    table: Seq<(i8, i8)>,
    qp: int,
    bins: Seq<Bin>,
)
    requires
        table.len() == SLOT_COUNT,
        quantizer(qp),
        inner_bins(bins),
    ensures
        header.is_prefix_of(unpacked(header_bytes(header) + picture_bytes(table, qp, bins))),
{
    law_slice_read_back(header, table, qp, bins);
}

/// Units that are the same hold the same bytes, and start with the headers of both pictures.
#[verifier::spinoff_prover]
#[verifier::rlimit(40)]
pub proof fn lemma_headers_read(
    unit: u8,
    header: Seq<bool>,
    other_header: Seq<bool>,
    table: Seq<(i8, i8)>,
    qp: int,
    other_qp: int,
    first: Seq<Bin>,
    second: Seq<Bin>,
) -> (rest: (Seq<bool>, Seq<bool>))
    requires
        unit != 0,
        table.len() == SLOT_COUNT,
        quantizer(qp),
        quantizer(other_qp),
        inner_bins(first),
        inner_bins(second),
        nal_of(unit, header_bytes(header) + picture_bytes(table, qp, first)) == nal_of(
            unit,
            header_bytes(other_header) + picture_bytes(table, other_qp, second),
        ),
    ensures
        header_bytes(header) + picture_bytes(table, qp, first) == header_bytes(other_header)
            + picture_bytes(table, other_qp, second),
        header + rest.0 == other_header + rest.1,
{
    let bytes = header_bytes(header) + picture_bytes(table, qp, first);
    let other_bytes = header_bytes(other_header) + picture_bytes(table, other_qp, second);
    law_unescape_nal(unit, bytes);
    law_unescape_nal(unit, other_bytes);
    assert((seq![unit] + bytes).skip(1) =~= bytes);
    assert((seq![unit] + other_bytes).skip(1) =~= other_bytes);
    assert(bytes == other_bytes);
    lemma_header_starts(header, table, qp, first);
    lemma_header_starts(other_header, table, other_qp, second);
    let bits = unpacked(bytes);
    let rest = bits.skip(header.len() as int);
    let other_rest = bits.skip(other_header.len() as int);
    assert(bits =~= header + rest);
    assert(bits =~= other_header + other_rest);
    (rest, other_rest)
}

/// The unit of a picture that stands alone and is written with arithmetic codes tells all its coded
/// samples: what two frames and quantizers lead to is the same wherever the units are.
#[verifier::spinoff_prover]
#[verifier::rlimit(40)]
pub proof fn law_arithmetic_unit_tells_picture(
    table: Seq<(i8, i8)>,
    configuration: Configuration,
    first_qp: i32,
    second_qp: i32,
    first: FrameModel,
    second: FrameModel,
    pic_order_cnt_lsb: int,
)
    requires
        table.len() == SLOT_COUNT,
        configuration.macroblocks_wide > 0,
        configuration.macroblocks_high > 0,
        quantizer(first_qp as int),
        quantizer(second_qp as int),
        cabac_predicted_idr(
            table,
            Configuration { qp: first_qp, ..configuration },
            first,
            pic_order_cnt_lsb,
        ).nal == cabac_predicted_idr(
            table,
            Configuration { qp: second_qp, ..configuration },
            second,
            pic_order_cnt_lsb,
        ).nal,
    ensures
        cabac_predicted_idr(
            table,
            Configuration { qp: first_qp, ..configuration },
            first,
            pic_order_cnt_lsb,
        ).coded_reconstruction == cabac_predicted_idr(
            table,
            Configuration { qp: second_qp, ..configuration },
            second,
            pic_order_cnt_lsb,
        ).coded_reconstruction,
        first_qp == second_qp,
{
    reveal(cabac_predicted_idr);
    let a = Configuration { qp: first_qp, ..configuration };
    let b = Configuration { qp: second_qp, ..configuration };
    let wide = configuration.macroblocks_wide as int;
    let high = configuration.macroblocks_high as int;
    let strength = configuration.aq_strength as int;
    let source = padded_samples(first, wide, high);
    let other = padded_samples(second, wide, high);
    let qps = adaptive_qps(source.luma, wide, high, first_qp as int, strength);
    let other_qps = adaptive_qps(other.luma, wide, high, second_qp as int, strength);
    lemma_quantizers(source.luma, wide, high, first_qp as int, strength);
    lemma_quantizers(other.luma, wide, high, second_qp as int, strength);
    let ordered = configuration.pic_order_cnt_type0;
    let header = idr_header(ordered, pic_order_cnt_lsb, first_qp as int);
    let other_header = idr_header(ordered, pic_order_cnt_lsb, second_qp as int);
    let start = intra_start(wide, high, first_qp as int);
    let other_start = intra_start(wide, high, second_qp as int);
    let count = wide * high;
    assert(0 <= count) by (nonlinear_arith)
        requires
            count == wide * high,
            0 < wide,
            0 < high,
    ;
    let u = cabac_coded(a, source, qps, start, count).marked.bins;
    let v = cabac_coded(b, other, other_qps, other_start, count).marked.bins;
    lemma_coded_inner(a, source, qps, start, count);
    lemma_coded_inner(b, other, other_qps, other_start, count);
    let (rest, other_rest) = lemma_headers_read(
        0x65,
        header,
        other_header,
        table,
        first_qp as int,
        second_qp as int,
        u,
        v,
    );
    lemma_header_told(
        ordered,
        pic_order_cnt_lsb,
        first_qp as int,
        second_qp as int,
        rest,
        other_rest,
    );
    lemma_bytes_read(header, table, first_qp as int, u, v);
    assert forall|i: int, j: int| 0 <= i < start.modes.len() && 0 <= j < start.modes[i].len() implies
        #[trigger] start.modes[i][j] <= 8 by {}
    lemma_macroblocks_read(
        a,
        source,
        qps,
        other,
        other_qps,
        start,
        high,
        count,
        seq![Bin::Terminate(true)],
        seq![Bin::Terminate(true)],
    );
}

} // verus!
