//! What the symbols of residuals tell that are read one by one.

use vstd::prelude::*;

use crate::arithmetic::Bin;
use crate::bins::{block_bins, BlockKind};
use crate::cavlc_syntax::quarter_marked;
use crate::inter_residual::any_nonzero;
use crate::marks::{
    chroma_blocks_marked, chroma_marked, coded_slot, large_marked, luma_marked,
    marked_block_bins, means_marked, Marked,
};
use crate::neighbors::{left_chroma, left_entry, left_of, top_chroma, top_entry, top_of};
use crate::residual::ChromaLevels;
use crate::told_codes::chroma_sized;
use crate::told_symbols::{law_block_read, law_marked_block_read, lemma_go_on, together};

verus! {

/// Luma blocks add their symbols.
pub proof fn lemma_luma_adds(
    before: Marked,
    address: int,
    wide: int,
    kind: BlockKind,
    levels: Seq<Seq<int>>,
    pattern: int,
    outside: bool,
    count: int,
) -> (more: Seq<Bin>)
    ensures
        luma_marked(before, address, wide, kind, levels, pattern, outside, count).bins
            == before.bins + more,
    decreases count,
{
    if count <= 0 {
        assert(before.bins =~= before.bins + Seq::empty());
        Seq::empty()
    } else {
        let block = count - 1;
        let more = lemma_luma_adds(before, address, wide, kind, levels, pattern, outside, block);
        let state = luma_marked(before, address, wide, kind, levels, pattern, outside, block);
        if quarter_marked(pattern, block) {
            let slot = coded_slot(
                kind,
                left_entry(state.luma, address, block, wide),
                top_entry(state.luma, address, block, wide),
                outside,
            );
            let last = marked_block_bins(kind, slot, levels[block]);
            assert((before.bins + more) + last =~= before.bins + (more + last));
            more + last
        } else {
            more
        }
    }
}

/// Luma blocks are told by their symbols.
pub proof fn lemma_luma_read(
    before: Marked,
    address: int,
    wide: int,
    kind: BlockKind,
    first: Seq<Seq<int>>,
    second: Seq<Seq<int>>,
    pattern: int,
    outside: bool,
    count: int,
    x: Seq<Bin>,
    y: Seq<Bin>,
)
    requires
        forall|b: int| 0 <= b < count ==> (#[trigger] first[b]).len() == second[b].len(),
        together(
            luma_marked(before, address, wide, kind, first, pattern, outside, count).bins + x,
            luma_marked(before, address, wide, kind, second, pattern, outside, count).bins + y,
        ),
    ensures
        forall|b: int|
            0 <= b < count && quarter_marked(pattern, b) ==> #[trigger] first[b] == second[b],
        luma_marked(before, address, wide, kind, first, pattern, outside, count) == luma_marked(
            before,
            address,
            wide,
            kind,
            second,
            pattern,
            outside,
            count,
        ),
        together(x, y),
    decreases count,
{
    if count <= 0 {
        lemma_go_on(before.bins, x, y);
    } else {
        let block = count - 1;
        let a = luma_marked(before, address, wide, kind, first, pattern, outside, block);
        let b = luma_marked(before, address, wide, kind, second, pattern, outside, block);
        if quarter_marked(pattern, block) {
            let slot = coded_slot(
                kind,
                left_entry(a.luma, address, block, wide),
                top_entry(a.luma, address, block, wide),
                outside,
            );
            let other = coded_slot(
                kind,
                left_entry(b.luma, address, block, wide),
                top_entry(b.luma, address, block, wide),
                outside,
            );
            let c = marked_block_bins(kind, slot, first[block]);
            let d = marked_block_bins(kind, other, second[block]);
            assert((a.bins + c) + x =~= a.bins + (c + x));
            assert((b.bins + d) + y =~= b.bins + (d + y));
            lemma_luma_read(
                before,
                address,
                wide,
                kind,
                first,
                second,
                pattern,
                outside,
                block,
                c + x,
                d + y,
            );
            assert(slot == other);
            law_marked_block_read(kind, slot, first[block], second[block], x, y);
        } else {
            lemma_luma_read(
                before,
                address,
                wide,
                kind,
                first,
                second,
                pattern,
                outside,
                block,
                x,
                y,
            );
        }
    }
}

/// Large luma blocks add their symbols.
pub proof fn lemma_large_adds(
    before: Marked,
    address: int,
    levels: Seq<Seq<int>>,
    pattern: int,
    count: int,
) -> (more: Seq<Bin>)
    ensures
        large_marked(before, address, levels, pattern, count).bins == before.bins + more,
    decreases count,
{
    if count <= 0 {
        assert(before.bins =~= before.bins + Seq::empty());
        Seq::empty()
    } else {
        let group = count - 1;
        let more = lemma_large_adds(before, address, levels, pattern, group);
        if quarter_marked(pattern, 4 * group) {
            let last = block_bins(BlockKind::Luma8x8, levels[group]);
            assert((before.bins + more) + last =~= before.bins + (more + last));
            more + last
        } else {
            more
        }
    }
}

/// Large luma blocks are told by their symbols.
pub proof fn lemma_large_read(
    before: Marked,
    address: int,
    first: Seq<Seq<int>>,
    second: Seq<Seq<int>>,
    pattern: int,
    count: int,
    x: Seq<Bin>,
    y: Seq<Bin>,
)
    requires
        forall|g: int| 0 <= g < count ==> (#[trigger] first[g]).len() == second[g].len(),
        forall|g: int|
            0 <= g < count && quarter_marked(pattern, 4 * g) ==> any_nonzero(#[trigger] first[g]),
        forall|g: int|
            0 <= g < count && quarter_marked(pattern, 4 * g) ==> any_nonzero(
                #[trigger] second[g],
            ),
        together(
            large_marked(before, address, first, pattern, count).bins + x,
            large_marked(before, address, second, pattern, count).bins + y,
        ),
    ensures
        forall|g: int|
            0 <= g < count && quarter_marked(pattern, 4 * g) ==> #[trigger] first[g] == second[g],
        large_marked(before, address, first, pattern, count) == large_marked(
            before,
            address,
            second,
            pattern,
            count,
        ),
        together(x, y),
    decreases count,
{
    if count <= 0 {
        lemma_go_on(before.bins, x, y);
    } else {
        let group = count - 1;
        let a = large_marked(before, address, first, pattern, group);
        let b = large_marked(before, address, second, pattern, group);
        if quarter_marked(pattern, 4 * group) {
            let c = block_bins(BlockKind::Luma8x8, first[group]);
            let d = block_bins(BlockKind::Luma8x8, second[group]);
            assert((a.bins + c) + x =~= a.bins + (c + x));
            assert((b.bins + d) + y =~= b.bins + (d + y));
            lemma_large_read(before, address, first, second, pattern, group, c + x, d + y);
            law_block_read(BlockKind::Luma8x8, first[group], second[group], x, y);
        } else {
            lemma_large_read(before, address, first, second, pattern, group, x, y);
        }
    }
}

/// Which probability says whether a plane has chroma means.
spec fn means_slot(state: Marked, address: int, wide: int, plane: int, outside: bool) -> int {
    coded_slot(
        BlockKind::ChromaDc,
        match left_of(state.chroma_dc, address, wide) {
            Some(row) => Some(row[plane]),
            None => None,
        },
        match top_of(state.chroma_dc, address, wide) {
            Some(row) => Some(row[plane]),
            None => None,
        },
        outside,
    )
}

/// Chroma means add their symbols.
proof fn lemma_means_adds(
    before: Marked,
    address: int,
    wide: int,
    levels: Seq<ChromaLevels>,
    outside: bool,
    count: int,
) -> (more: Seq<Bin>)
    ensures
        means_marked(before, address, wide, levels, outside, count).bins == before.bins + more,
    decreases count,
{
    if count <= 0 {
        assert(before.bins =~= before.bins + Seq::empty());
        Seq::empty()
    } else {
        let plane = count - 1;
        let more = lemma_means_adds(before, address, wide, levels, outside, plane);
        let state = means_marked(before, address, wide, levels, outside, plane);
        let last = marked_block_bins(
            BlockKind::ChromaDc,
            means_slot(state, address, wide, plane, outside),
            levels[plane].dc,
        );
        assert((before.bins + more) + last =~= before.bins + (more + last));
        more + last
    }
}

/// Chroma means are told by their symbols.
proof fn lemma_means_read(
    before: Marked,
    address: int,
    wide: int,
    first: Seq<ChromaLevels>,
    second: Seq<ChromaLevels>,
    outside: bool,
    count: int,
    x: Seq<Bin>,
    y: Seq<Bin>,
)
    requires
        forall|p: int| 0 <= p < count ==> (#[trigger] first[p]).dc.len() == second[p].dc.len(),
        together(
            means_marked(before, address, wide, first, outside, count).bins + x,
            means_marked(before, address, wide, second, outside, count).bins + y,
        ),
    ensures
        forall|p: int| 0 <= p < count ==> (#[trigger] first[p]).dc == second[p].dc,
        means_marked(before, address, wide, first, outside, count) == means_marked(
            before,
            address,
            wide,
            second,
            outside,
            count,
        ),
        together(x, y),
    decreases count,
{
    if count <= 0 {
        lemma_go_on(before.bins, x, y);
    } else {
        let plane = count - 1;
        let a = means_marked(before, address, wide, first, outside, plane);
        let b = means_marked(before, address, wide, second, outside, plane);
        let slot = means_slot(a, address, wide, plane, outside);
        let other = means_slot(b, address, wide, plane, outside);
        let c = marked_block_bins(BlockKind::ChromaDc, slot, first[plane].dc);
        let d = marked_block_bins(BlockKind::ChromaDc, other, second[plane].dc);
        assert((a.bins + c) + x =~= a.bins + (c + x));
        assert((b.bins + d) + y =~= b.bins + (d + y));
        lemma_means_read(
            before,
            address,
            wide,
            first,
            second,
            outside,
            plane,
            c + x,
            d + y,
        );
        assert(slot == other);
        law_marked_block_read(
            BlockKind::ChromaDc,
            slot,
            first[plane].dc,
            second[plane].dc,
            x,
            y,
        );
    }
}

/// Which probability says whether a chroma block holds anything.
spec fn chroma_slot(state: Marked, address: int, wide: int, at: int, outside: bool) -> int {
    coded_slot(
        BlockKind::ChromaAc,
        left_chroma(state.chroma, address, at / 4, at % 4, wide),
        top_chroma(state.chroma, address, at / 4, at % 4, wide),
        outside,
    )
}

/// Chroma blocks add their symbols.
proof fn lemma_chroma_blocks_adds(
    before: Marked,
    address: int,
    wide: int,
    levels: Seq<ChromaLevels>,
    outside: bool,
    count: int,
) -> (more: Seq<Bin>)
    ensures
        chroma_blocks_marked(before, address, wide, levels, outside, count).bins == before.bins
            + more,
    decreases count,
{
    if count <= 0 {
        assert(before.bins =~= before.bins + Seq::empty());
        Seq::empty()
    } else {
        let at = count - 1;
        let more = lemma_chroma_blocks_adds(before, address, wide, levels, outside, at);
        let state = chroma_blocks_marked(before, address, wide, levels, outside, at);
        let last = marked_block_bins(
            BlockKind::ChromaAc,
            chroma_slot(state, address, wide, at, outside),
            levels[at / 4].ac[at % 4],
        );
        assert((before.bins + more) + last =~= before.bins + (more + last));
        more + last
    }
}

/// Chroma blocks are told by their symbols.
proof fn lemma_chroma_blocks_read(
    before: Marked,
    address: int,
    wide: int,
    first: Seq<ChromaLevels>,
    second: Seq<ChromaLevels>,
    outside: bool,
    count: int,
    x: Seq<Bin>,
    y: Seq<Bin>,
)
    requires
        count <= 8,
        forall|p: int, b: int|
            0 <= p < 2 && 0 <= b < 4 ==> (#[trigger] first[p].ac[b]).len()
                == second[p].ac[b].len(),
        together(
            chroma_blocks_marked(before, address, wide, first, outside, count).bins + x,
            chroma_blocks_marked(before, address, wide, second, outside, count).bins + y,
        ),
    ensures
        forall|i: int| #![trigger first[i / 4].ac[i % 4]]
            0 <= i < count ==> first[i / 4].ac[i % 4] == second[i / 4].ac[i % 4],
        chroma_blocks_marked(before, address, wide, first, outside, count)
            == chroma_blocks_marked(before, address, wide, second, outside, count),
        together(x, y),
    decreases count,
{
    if count <= 0 {
        lemma_go_on(before.bins, x, y);
    } else {
        let at = count - 1;
        let a = chroma_blocks_marked(before, address, wide, first, outside, at);
        let b = chroma_blocks_marked(before, address, wide, second, outside, at);
        let slot = chroma_slot(a, address, wide, at, outside);
        let other = chroma_slot(b, address, wide, at, outside);
        let u = first[at / 4].ac[at % 4];
        let v = second[at / 4].ac[at % 4];
        let c = marked_block_bins(BlockKind::ChromaAc, slot, u);
        let d = marked_block_bins(BlockKind::ChromaAc, other, v);
        assert((a.bins + c) + x =~= a.bins + (c + x));
        assert((b.bins + d) + y =~= b.bins + (d + y));
        lemma_chroma_blocks_read(
            before,
            address,
            wide,
            first,
            second,
            outside,
            at,
            c + x,
            d + y,
        );
        assert(slot == other);
        law_marked_block_read(BlockKind::ChromaAc, slot, u, v, x, y);
    }
}

/// The chroma blocks of a macroblock add their symbols.
pub proof fn lemma_chroma_adds(
    before: Marked,
    address: int,
    wide: int,
    cb: ChromaLevels,
    cr: ChromaLevels,
    pattern: int,
    outside: bool,
) -> (more: Seq<Bin>)
    ensures
        chroma_marked(before, address, wide, cb, cr, pattern, outside).bins == before.bins + more,
{
    let levels = seq![cb, cr];
    let first = if pattern != 0 {
        lemma_means_adds(before, address, wide, levels, outside, 2)
    } else {
        assert(before.bins =~= before.bins + Seq::empty());
        Seq::empty()
    };
    let means = if pattern != 0 {
        means_marked(before, address, wide, levels, outside, 2)
    } else {
        before
    };
    if pattern == 2 {
        let second = lemma_chroma_blocks_adds(means, address, wide, levels, outside, 8);
        assert((before.bins + first) + second =~= before.bins + (first + second));
        first + second
    } else {
        first
    }
}

/// The chroma levels of a macroblock are told by their symbols.
pub proof fn lemma_chroma_read(
    before: Marked,
    address: int,
    wide: int,
    cb: ChromaLevels,
    cr: ChromaLevels,
    other_cb: ChromaLevels,
    other_cr: ChromaLevels,
    pattern: int,
    outside: bool,
    x: Seq<Bin>,
    y: Seq<Bin>,
)
    requires
        chroma_sized(cb),
        chroma_sized(cr),
        chroma_sized(other_cb),
        chroma_sized(other_cr),
        together(
            chroma_marked(before, address, wide, cb, cr, pattern, outside).bins + x,
            chroma_marked(before, address, wide, other_cb, other_cr, pattern, outside).bins + y,
        ),
    ensures
        pattern != 0 ==> cb.dc == other_cb.dc && cr.dc == other_cr.dc,
        pattern == 2 ==> cb.ac == other_cb.ac && cr.ac == other_cr.ac,
        chroma_marked(before, address, wide, cb, cr, pattern, outside) == chroma_marked(
            before,
            address,
            wide,
            other_cb,
            other_cr,
            pattern,
            outside,
        ),
        together(x, y),
{
    let first = seq![cb, cr];
    let second = seq![other_cb, other_cr];
    if pattern == 0 {
        lemma_go_on(before.bins, x, y);
    } else {
        let a = means_marked(before, address, wide, first, outside, 2);
        let b = means_marked(before, address, wide, second, outside, 2);
        if pattern == 2 {
            let c = lemma_chroma_blocks_adds(a, address, wide, first, outside, 8);
            let d = lemma_chroma_blocks_adds(b, address, wide, second, outside, 8);
            assert((a.bins + c) + x =~= a.bins + (c + x));
            assert((b.bins + d) + y =~= b.bins + (d + y));
            lemma_means_read(
                before,
                address,
                wide,
                first,
                second,
                outside,
                2,
                c + x,
                d + y,
            );
            assert forall|p: int, k: int| 0 <= p < 2 && 0 <= k < 4 implies (
            #[trigger] first[p].ac[k]).len() == second[p].ac[k].len() by {
                assert(p == 0 || p == 1);
            }
            lemma_chroma_blocks_read(a, address, wide, first, second, outside, 8, x, y);
            assert forall|k: int| 0 <= k < 4 implies cb.ac[k] == other_cb.ac[k] by {
                assert(first[k / 4].ac[k % 4] == second[k / 4].ac[k % 4]);
            }
            assert forall|k: int| 0 <= k < 4 implies cr.ac[k] == other_cr.ac[k] by {
                let i = k + 4;
                assert(first[i / 4].ac[i % 4] == second[i / 4].ac[i % 4]);
            }
            assert(cb.ac =~= other_cb.ac);
            assert(cr.ac =~= other_cr.ac);
        } else {
            lemma_means_read(before, address, wide, first, second, outside, 2, x, y);
        }
        assert(first[0].dc == second[0].dc);
        assert(first[1].dc == second[1].dc);
    }
}

} // verus!
