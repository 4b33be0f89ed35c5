//! The symbols of syntax elements stand inside a picture: their probabilities exist, and they do
//! not end the data.

use vstd::prelude::*;

use crate::arithmetic::Bin;
use crate::bins::{
    block_bins, bypass_bits, chroma_mode_bins, chroma_pattern_bins, decision, golomb_bins,
    inner_bin, inner_bins, last_nonzero, last_slot, level_bins, levels_bins, luma_mode_bins,
    luma_pattern_bins, map_bins, mark_slot, more_slot, node_after, pattern_bins, qp_delta_bins,
    repeated_true, significant_slot, type_i_bins, unary_delta, BlockKind, LARGE_LAST,
    LARGE_SIGNIFICANT,
};
use crate::bits::power_of_two;
use crate::cavlc_syntax::quarter_marked;
use crate::marks::{
    chroma_blocks_marked, chroma_marked, large_marked, luma_marked, luma_means_marked,
    marked_block_bins, means_marked, Marked,
};
use crate::math::magnitude;
use crate::residual::ChromaLevels;
use crate::told_codes::chroma_sized;

verus! {

/// Symbols that stand inside a picture do so one behind the other.
pub proof fn lemma_inner_joined(first: Seq<Bin>, second: Seq<Bin>)
    requires
        inner_bins(first),
        inner_bins(second),
    ensures
        inner_bins(first + second),
{
    let all = first + second;
    assert forall|i: int| 0 <= i < all.len() implies inner_bin(#[trigger] all[i]) by {
        if i < first.len() {
            assert(all[i] == first[i]);
        } else {
            assert(all[i] == second[i - first.len()]);
        }
    }
}

/// The symbols of the type of a macroblock stand inside a picture.
pub proof fn lemma_type_i_inner(kind: int, increment: int)
    requires
        0 <= increment <= 2,
    ensures
        inner_bins(type_i_bins(kind, increment)),
{
}

/// The symbols of a chroma prediction mode stand inside a picture.
pub proof fn lemma_chroma_mode_inner(mode: int, increment: int)
    requires
        0 <= increment <= 2,
    ensures
        inner_bins(chroma_mode_bins(mode, increment)),
{
}

/// The symbols of a luma prediction mode stand inside a picture.
pub proof fn lemma_luma_mode_inner(mode: int, predicted: int)
    ensures
        inner_bins(luma_mode_bins(mode, predicted)),
{
}

proof fn lemma_unary_inner(index: int, code: int)
    ensures
        inner_bins(unary_delta(index, code)),
    decreases code - index,
{
    if index < code {
        lemma_unary_inner(index + 1, code);
        let first = seq![
            decision(crate::bins::QP_DELTA + if index == 1 { 2int } else { 3 }, true),
        ];
        assert(inner_bins(first));
        lemma_inner_joined(first, unary_delta(index + 1, code));
    }
}

/// The symbols of a change of the quantizer stand inside a picture.
pub proof fn lemma_qp_delta_inner(delta: int, previous: int)
    ensures
        inner_bins(qp_delta_bins(delta, previous)),
{
    lemma_unary_inner(1, 2 * delta - 1);
    lemma_unary_inner(1, -2 * delta);
}

/// The symbols of a pattern stand inside a picture.
pub proof fn lemma_pattern_inner(pattern: int, left: int, top: int)
    ensures
        inner_bins(pattern_bins(pattern, left, top)),
{
    reveal(luma_pattern_bins);
    reveal(chroma_pattern_bins);
    reveal(mark_slot);
    assert(inner_bins(luma_pattern_bins(pattern, left, top)));
    assert(inner_bins(chroma_pattern_bins(pattern / 16, left / 16, top / 16)));
    lemma_inner_joined(
        luma_pattern_bins(pattern, left, top),
        chroma_pattern_bins(pattern / 16, left / 16, top / 16),
    );
}

proof fn lemma_bypass_inner(value: int, count: nat)
    ensures
        inner_bins(bypass_bits(value, count)),
    decreases count,
{
    if count > 0 {
        lemma_bypass_inner(value / 2, (count - 1) as nat);
    }
}

/// The symbols of an Exp-Golomb code stand inside a picture.
pub proof fn lemma_golomb_inner(value: int, order: nat)
    ensures
        inner_bins(golomb_bins(value, order)),
    decreases value,
{
    if value >= power_of_two(order) && power_of_two(order) >= 1 {
        lemma_golomb_inner(value - power_of_two(order), order + 1);
        lemma_inner_joined(
            seq![Bin::Bypass(true)],
            golomb_bins(value - power_of_two(order), order + 1),
        );
    } else {
        lemma_bypass_inner(value, order);
        lemma_inner_joined(seq![Bin::Bypass(false)], bypass_bits(value, order));
    }
}

proof fn lemma_repeated_inner(slot: int, count: int)
    requires
        0 <= slot < 340,
    ensures
        inner_bins(repeated_true(slot, count)),
    decreases count,
{
    if count > 0 {
        lemma_repeated_inner(slot, count - 1);
    }
}

proof fn lemma_level_inner(base: int, node: int, level: int)
    requires
        0 <= base <= 330,
        0 <= node <= 7,
    ensures
        inner_bins(level_bins(base, node, level)),
{
    let size = magnitude(level);
    let slot = base + more_slot(node);
    lemma_repeated_inner(slot, size - 2);
    lemma_repeated_inner(slot, 13);
    lemma_golomb_inner(size - 15, 0);
    lemma_inner_joined(repeated_true(slot, size - 2), seq![decision(slot, false)]);
    lemma_inner_joined(repeated_true(slot, 13), golomb_bins(size - 15, 0));
    let first = seq![decision(base + crate::bins::one_slot(node), size > 1)];
    let middle: Seq<Bin> = if size <= 1 {
        Seq::empty()
    } else if size < 15 {
        repeated_true(slot, size - 2) + seq![decision(slot, false)]
    } else {
        repeated_true(slot, 13) + golomb_bins(size - 15, 0)
    };
    assert(inner_bins(first));
    lemma_inner_joined(first, middle);
    lemma_inner_joined(first + middle, seq![Bin::Bypass(level < 0)]);
}

proof fn lemma_levels_inner(base: int, levels: Seq<int>, node: int, count: int)
    requires
        0 <= base <= 330,
        0 <= node <= 7,
    ensures
        inner_bins(levels_bins(base, levels, node, count)),
    decreases count,
{
    if count > 0 {
        let level = levels[count - 1];
        if level == 0 {
            lemma_levels_inner(base, levels, node, count - 1);
        } else {
            let next = node_after(node, magnitude(level) > 1);
            lemma_level_inner(base, node, level);
            lemma_levels_inner(base, levels, next, count - 1);
            lemma_inner_joined(
                level_bins(base, node, level),
                levels_bins(base, levels, next, count - 1),
            );
        }
    }
}

/// Whether a block of a kind has a size that fits it.
pub open spec fn block_fits(kind: BlockKind, levels: Seq<int>) -> bool {
    levels.len() <= if kind == BlockKind::Luma8x8 {
        64int
    } else {
        16
    }
}

proof fn lemma_slots_inner(kind: BlockKind, position: int)
    requires
        0 <= position < 63,
        kind != BlockKind::Luma8x8 ==> position < 15,
    ensures
        0 <= significant_slot(kind, position) < 340,
        0 <= last_slot(kind, position) < 340,
{
    reveal(significant_slot);
    reveal(last_slot);
    assert(forall|i: int| 0 <= i < 63 ==> #[trigger] LARGE_SIGNIFICANT[i] < 15);
    assert(forall|i: int| 0 <= i < 63 ==> #[trigger] LARGE_LAST[i] < 9);
}

proof fn lemma_map_inner(kind: BlockKind, levels: Seq<int>, last: int, position: int)
    requires
        0 <= position,
        block_fits(kind, levels),
    ensures
        inner_bins(map_bins(kind, levels, last, position)),
    decreases levels.len() - position,
{
    if position < levels.len() - 1 {
        lemma_slots_inner(kind, position);
        lemma_map_inner(kind, levels, last, position + 1);
        let significant = levels[position] != 0;
        let here = seq![decision(significant_slot(kind, position), significant)];
        let ending = seq![decision(last_slot(kind, position), true)];
        let going = seq![decision(last_slot(kind, position), false)];
        let rest = map_bins(kind, levels, last, position + 1);
        assert(inner_bins(here) && inner_bins(ending) && inner_bins(going));
        lemma_inner_joined(here, rest);
        lemma_inner_joined(here, ending);
        lemma_inner_joined(here, going);
        lemma_inner_joined(here + going, rest);
    }
}

/// The symbols of a block stand inside a picture.
pub proof fn lemma_block_inner(kind: BlockKind, levels: Seq<int>)
    requires
        block_fits(kind, levels),
    ensures
        inner_bins(block_bins(kind, levels)),
{
    reveal(block_bins);
    let last = last_nonzero(levels, levels.len() as int);
    lemma_map_inner(kind, levels, last, 0);
    lemma_levels_inner(kind.base() + 34, levels, 0, last + 1);
    lemma_inner_joined(
        map_bins(kind, levels, last, 0),
        levels_bins(kind.base() + 34, levels, 0, last + 1),
    );
}

/// The symbols of a block, and whether it holds anything, stand inside a picture.
pub proof fn lemma_marked_inner(kind: BlockKind, slot: int, levels: Seq<int>)
    requires
        block_fits(kind, levels),
        0 <= slot < 340,
    ensures
        inner_bins(marked_block_bins(kind, slot, levels)),
{
    reveal(marked_block_bins);
    lemma_block_inner(kind, levels);
    let held = crate::inter_residual::any_nonzero(levels);
    let first = seq![decision(slot, held)];
    assert(inner_bins(first));
    lemma_inner_joined(first, block_bins(kind, levels));
    assert(first + Seq::<Bin>::empty() =~= first);
}

/// The symbols of luma blocks stand inside a picture.
pub proof fn lemma_luma_inner(
    before: Marked,
    address: int,
    wide: int,
    kind: BlockKind,
    levels: Seq<Seq<int>>,
    pattern: int,
    outside: bool,
    count: int,
)
    requires
        inner_bins(before.bins),
        forall|b: int| 0 <= b < count ==> (#[trigger] levels[b]).len() <= 16,
    ensures
        inner_bins(
            luma_marked(before, address, wide, kind, levels, pattern, outside, count).bins,
        ),
    decreases count,
{
    if count > 0 {
        let block = count - 1;
        lemma_luma_inner(before, address, wide, kind, levels, pattern, outside, block);
        let state = luma_marked(before, address, wide, kind, levels, pattern, outside, block);
        if quarter_marked(pattern, block) {
            let slot = crate::marks::coded_slot(
                kind,
                crate::neighbors::left_entry(state.luma, address, block, wide),
                crate::neighbors::top_entry(state.luma, address, block, wide),
                outside,
            );
            lemma_marked_inner(kind, slot, levels[block]);
            lemma_inner_joined(state.bins, marked_block_bins(kind, slot, levels[block]));
        }
    }
}

/// The symbols of large luma blocks stand inside a picture.
pub proof fn lemma_large_inner(
    before: Marked,
    address: int,
    levels: Seq<Seq<int>>,
    pattern: int,
    count: int,
)
    requires
        inner_bins(before.bins),
        forall|g: int| 0 <= g < count ==> (#[trigger] levels[g]).len() <= 64,
    ensures
        inner_bins(large_marked(before, address, levels, pattern, count).bins),
    decreases count,
{
    if count > 0 {
        let group = count - 1;
        lemma_large_inner(before, address, levels, pattern, group);
        let state = large_marked(before, address, levels, pattern, group);
        lemma_block_inner(BlockKind::Luma8x8, levels[group]);
        lemma_inner_joined(state.bins, block_bins(BlockKind::Luma8x8, levels[group]));
    }
}

/// The symbols of luma means stand inside a picture.
pub proof fn lemma_luma_means_inner(
    before: Marked,
    address: int,
    wide: int,
    levels: Seq<int>,
)
    requires
        inner_bins(before.bins),
        levels.len() <= 16,
    ensures
        inner_bins(luma_means_marked(before, address, wide, levels).bins),
{
    let slot = crate::marks::coded_slot(
        BlockKind::LumaDc,
        crate::neighbors::left_of(before.luma_dc, address, wide),
        crate::neighbors::top_of(before.luma_dc, address, wide),
        true,
    );
    lemma_marked_inner(BlockKind::LumaDc, slot, levels);
    lemma_inner_joined(before.bins, marked_block_bins(BlockKind::LumaDc, slot, levels));
}

proof fn lemma_means_inner(
    before: Marked,
    address: int,
    wide: int,
    levels: Seq<ChromaLevels>,
    outside: bool,
    count: int,
)
    requires
        inner_bins(before.bins),
        forall|p: int| 0 <= p < count ==> (#[trigger] levels[p]).dc.len() <= 16,
    ensures
        inner_bins(means_marked(before, address, wide, levels, outside, count).bins),
    decreases count,
{
    if count > 0 {
        let plane = count - 1;
        lemma_means_inner(before, address, wide, levels, outside, plane);
        let state = means_marked(before, address, wide, levels, outside, plane);
        let slot = crate::marks::coded_slot(
            BlockKind::ChromaDc,
            match crate::neighbors::left_of(state.chroma_dc, address, wide) {
                Some(row) => Some(row[plane]),
                None => None,
            },
            match crate::neighbors::top_of(state.chroma_dc, address, wide) {
                Some(row) => Some(row[plane]),
                None => None,
            },
            outside,
        );
        lemma_marked_inner(BlockKind::ChromaDc, slot, levels[plane].dc);
        lemma_inner_joined(
            state.bins,
            marked_block_bins(BlockKind::ChromaDc, slot, levels[plane].dc),
        );
    }
}

proof fn lemma_chroma_blocks_inner(
    before: Marked,
    address: int,
    wide: int,
    levels: Seq<ChromaLevels>,
    outside: bool,
    count: int,
)
    requires
        inner_bins(before.bins),
        count <= 8,
        forall|p: int, b: int|
            0 <= p < 2 && 0 <= b < 4 ==> (#[trigger] levels[p].ac[b]).len() <= 16,
    ensures
        inner_bins(chroma_blocks_marked(before, address, wide, levels, outside, count).bins),
    decreases count,
{
    if count > 0 {
        let plane = (count - 1) / 4;
        let block = (count - 1) % 4;
        lemma_chroma_blocks_inner(before, address, wide, levels, outside, count - 1);
        let state = chroma_blocks_marked(before, address, wide, levels, outside, count - 1);
        let slot = crate::marks::coded_slot(
            BlockKind::ChromaAc,
            crate::neighbors::left_chroma(state.chroma, address, plane, block, wide),
            crate::neighbors::top_chroma(state.chroma, address, plane, block, wide),
            outside,
        );
        lemma_marked_inner(BlockKind::ChromaAc, slot, levels[plane].ac[block]);
        lemma_inner_joined(
            state.bins,
            marked_block_bins(BlockKind::ChromaAc, slot, levels[plane].ac[block]),
        );
    }
}

/// The symbols of the chroma blocks of a macroblock stand inside a picture.
pub proof fn lemma_chroma_inner(
    before: Marked,
    address: int,
    wide: int,
    cb: ChromaLevels,
    cr: ChromaLevels,
    pattern: int,
    outside: bool,
)
    requires
        inner_bins(before.bins),
        chroma_sized(cb),
        chroma_sized(cr),
    ensures
        inner_bins(chroma_marked(before, address, wide, cb, cr, pattern, outside).bins),
{
    let levels = seq![cb, cr];
    assert forall|p: int, b: int| 0 <= p < 2 && 0 <= b < 4 implies (#[trigger] levels[p].ac[b]).len()
        <= 16 by {
        assert(p == 0 || p == 1);
    }
    lemma_means_inner(before, address, wide, levels, outside, 2);
    let means = if pattern != 0 {
        means_marked(before, address, wide, levels, outside, 2)
    } else {
        before
    };
    lemma_chroma_blocks_inner(means, address, wide, levels, outside, 8);
}

} // verus!
