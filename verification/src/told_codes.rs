//! What variable-length codes tell, whatever follows them.

use vstd::prelude::*;

use crate::bits::{bits_of, law_bits_value_of_bits, lemma_bits_of_len};
use crate::block_coding::{block_bits, block_context, lemma_block_coded, narrow};
use crate::cavlc_laws::law_residual_round_trip;
use crate::cavlc_syntax::{
    chroma_blocks_written, chroma_written, luma_written, mode_bits, modes_written, quarter_marked,
    Written,
};
use crate::golomb::{law_se_round_trip, law_ue_round_trip, se_bits, ue_bits};
use crate::neighbors::{chroma_count, luma_count, predicted_mode};
use crate::residual::{block_column, block_row, chroma_levels_fit, ChromaLevels};
use crate::transform::{ints, within};

verus! {

/// Bits that start alike go on alike.
pub proof fn lemma_same_start(first: Seq<bool>, x: Seq<bool>, second: Seq<bool>, y: Seq<bool>)
    requires
        first + x == second + y,
        first.len() == second.len(),
    ensures
        first == second,
        x == y,
{
    let length = first.len() as int;
    assert((first + x).take(length) =~= first);
    assert((second + y).take(length) =~= second);
    assert((first + x).skip(length) =~= x);
    assert((second + y).skip(length) =~= y);
}

/// An unsigned number is told by its code.
pub proof fn law_unsigned_told(first: nat, second: nat, x: Seq<bool>, y: Seq<bool>)
    requires
        ue_bits(first) + x == ue_bits(second) + y,
    ensures
        first == second,
        x == y,
{
    law_ue_round_trip(first, x);
    law_ue_round_trip(second, y);
}

/// A signed number is told by its code.
pub proof fn law_signed_told(first: int, second: int, x: Seq<bool>, y: Seq<bool>)
    requires
        se_bits(first) + x == se_bits(second) + y,
    ensures
        first == second,
        x == y,
{
    law_se_round_trip(first, x);
    law_se_round_trip(second, y);
}

/// The levels of a block are told by its code, where the predicted count is known.
pub proof fn law_levels_told(
    n_c: int,
    first: Seq<int>,
    second: Seq<int>,
    x: Seq<bool>,
    y: Seq<bool>,
)
    requires
        first.len() == second.len(),
        block_context(n_c, first.len() as int),
        within(first, 0x800_0000),
        within(second, 0x800_0000),
        block_bits(n_c, first) + x == block_bits(n_c, second) + y,
    ensures
        first == second,
        x == y,
{
    let a = narrow(first);
    let b = narrow(second);
    lemma_narrow(first);
    lemma_narrow(second);
    lemma_block_coded(n_c, a);
    lemma_block_coded(n_c, b);
    let bits = block_bits(n_c, first) + x;
    assert(bits.subrange(0, block_bits(n_c, first).len() as int) =~= block_bits(n_c, first));
    assert(bits.subrange(0, block_bits(n_c, second).len() as int) =~= block_bits(n_c, second)) by {
        assert(bits == block_bits(n_c, second) + y);
    }
    law_residual_round_trip(bits, 0, n_c, a);
    law_residual_round_trip(bits, 0, n_c, b);
    assert(a == b);
    assert(ints(a) == first && ints(b) == second);
    lemma_same_start(block_bits(n_c, first), x, block_bits(n_c, second), y);
}

proof fn lemma_narrow(levels: Seq<int>)
    requires
        within(levels, 0x800_0000),
    ensures
        ints(narrow(levels)) == levels,
        within(ints(narrow(levels)), 0x800_0000),
{
    assert forall|i: int| 0 <= i < levels.len() implies #[trigger] ints(narrow(levels))[i]
        == levels[i] by {
        assert(-0x800_0000 <= levels[i] <= 0x800_0000);
    }
    assert(ints(narrow(levels)) =~= levels);
}

/// A prediction mode is told by its code, where the predicted one is known.
pub proof fn law_mode_told(
    first: int,
    second: int,
    predicted: int,
    x: Seq<bool>,
    y: Seq<bool>,
)
    requires
        0 <= first <= 8,
        0 <= second <= 8,
        0 <= predicted <= 8,
        mode_bits(first, predicted) + x == mode_bits(second, predicted) + y,
    ensures
        first == second,
        x == y,
{
    let left = mode_bits(first, predicted) + x;
    let right = mode_bits(second, predicted) + y;
    let a = (if first > predicted {
        first - 1
    } else {
        first
    }) as nat;
    let b = (if second > predicted {
        second - 1
    } else {
        second
    }) as nat;
    assert(left[0] == (first == predicted));
    assert(right[0] == (second == predicted));
    lemma_bits_of_len(a, 3);
    lemma_bits_of_len(b, 3);
    lemma_same_start(mode_bits(first, predicted), x, mode_bits(second, predicted), y);
    if first != predicted {
        lemma_same_start(seq![false], bits_of(a, 3), seq![false], bits_of(b, 3));
        crate::math::lemma_powers_of_two();
        law_bits_value_of_bits(a, 3);
        law_bits_value_of_bits(b, 3);
        assert(a == b);
    }
}

/// What is known of the modes around a block that stands inside its macroblock comes before it.
pub proof fn lemma_predicted_alike(
    first: Seq<Seq<u8>>,
    second: Seq<Seq<u8>>,
    address: int,
    block: int,
    wide: int,
)
    requires
        0 <= address < first.len(),
        first.len() == second.len(),
        0 <= block < 16,
        0 < wide,
        forall|a: int| 0 <= a < first.len() && a != address ==> #[trigger] first[a] == second[a],
        forall|b: int| 0 <= b < block ==> #[trigger] first[address][b] == second[address][b],
    ensures
        predicted_mode(first, address, block, wide) == predicted_mode(
            second,
            address,
            block,
            wide,
        ),
{
    reveal(predicted_mode);
    let x = block_column(block);
    let y = block_row(block);
    assert(x > 0 ==> 0 <= crate::deblock::block_at(x - 1, y) < block);
    assert(y > 0 ==> 0 <= crate::deblock::block_at(x, y - 1) < block);
    if address % wide != 0 {
        assert(address >= 1) by {
            if address == 0 {
                assert(0int % wide == 0) by (nonlinear_arith)
                    requires
                        0 < wide,
                ;
            }
        }
        assert(first[address - 1] == second[address - 1]);
    }
    if address >= wide {
        assert(first[address - wide] == second[address - wide]);
    }
}

/// Modes of two pictures that differ in one macroblock at most.
#[verifier::opaque]
pub open spec fn modes_beside(
    first: Seq<Seq<u8>>,
    second: Seq<Seq<u8>>,
    address: int,
    step: int,
) -> bool {
    &&& 0 <= address < first.len()
    &&& first.len() == second.len()
    &&& crate::cavlc_syntax::modes_fit(first)
    &&& crate::cavlc_syntax::modes_fit(second)
    &&& forall|a: int| 0 <= a < first.len() ==> (#[trigger] first[a]).len() == 16
    &&& forall|a: int| 0 <= a < first.len() ==> (#[trigger] second[a]).len() == 16
    &&& forall|a: int| 0 <= a < first.len() && a != address ==> #[trigger] first[a] == second[a]
    &&& forall|b: int|
        0 <= b < 16 ==> #[trigger] first[address][b] == first[address][b / step * step]
    &&& forall|b: int|
        0 <= b < 16 ==> #[trigger] second[address][b] == second[address][b / step * step]
}

/// Whether the modes of a macroblock agree up to a block.
#[verifier::opaque]
pub open spec fn modes_agree(
    first: Seq<Seq<u8>>,
    second: Seq<Seq<u8>>,
    address: int,
    end: int,
) -> bool {
    forall|b: int| 0 <= b < end ==> #[trigger] first[address][b] == second[address][b]
}

proof fn lemma_next_mode(
    first: Seq<Seq<u8>>,
    second: Seq<Seq<u8>>,
    address: int,
    wide: int,
    step: int,
    block: int,
    x: Seq<bool>,
    y: Seq<bool>,
)
    requires
        modes_beside(first, second, address, step),
        modes_agree(first, second, address, block),
        0 < wide,
        step == 1 || step == 4,
        0 <= block,
        block + step <= 16,
        block % step == 0,
        mode_bits(
            first[address][block] as int,
            predicted_mode(first, address, block, wide),
        ) + x == mode_bits(
            second[address][block] as int,
            predicted_mode(second, address, block, wide),
        ) + y,
    ensures
        modes_agree(first, second, address, block + step),
        x == y,
{
    reveal(modes_beside);
    reveal(modes_agree);
    lemma_predicted_alike(first, second, address, block, wide);
    lemma_predicted_fits(first, address, block, wide);
    assert(first[address][block] <= 8 && second[address][block] <= 8) by {
        assert(first[address].len() == 16 && second[address].len() == 16);
    }
    law_mode_told(
        first[address][block] as int,
        second[address][block] as int,
        predicted_mode(first, address, block, wide),
        x,
        y,
    );
    assert forall|i: int| 0 <= i < block + step implies #[trigger] first[address][i]
        == second[address][i] by {
        if i >= block {
            assert(i / step * step == block);
            assert(first[address][i] == first[address][i / step * step]);
            assert(second[address][i] == second[address][i / step * step]);
        }
    }
}

/// The prediction modes of a macroblock are told by their codes.
pub proof fn lemma_modes_told(
    first: Seq<Seq<u8>>,
    second: Seq<Seq<u8>>,
    address: int,
    wide: int,
    step: int,
    count: int,
    x: Seq<bool>,
    y: Seq<bool>,
)
    requires
        modes_beside(first, second, address, step),
        0 < wide,
        step == 1 || step == 4,
        0 <= count <= 16int / step,
        modes_written(first, address, wide, step, count) + x == modes_written(
            second,
            address,
            wide,
            step,
            count,
        ) + y,
    ensures
        modes_agree(first, second, address, count * step),
        x == y,
    decreases count,
{
    assert(step == 1 ==> count * step == count && (count - 1) * step == count - 1);
    assert(step == 4 ==> count * step == 4 * count && (count - 1) * step == 4 * count - 4);
    if count <= 0 {
        reveal(modes_agree);
        assert(modes_written(first, address, wide, step, count) + x =~= x);
        assert(modes_written(second, address, wide, step, count) + y =~= y);
    } else {
        let block = (count - 1) * step;
        let c = mode_bits(
            first[address][block] as int,
            predicted_mode(first, address, block, wide),
        );
        let d = mode_bits(
            second[address][block] as int,
            predicted_mode(second, address, block, wide),
        );
        let a = modes_written(first, address, wide, step, count - 1);
        let b = modes_written(second, address, wide, step, count - 1);
        assert((a + c) + x =~= a + (c + x));
        assert((b + d) + y =~= b + (d + y));
        lemma_modes_told(first, second, address, wide, step, count - 1, c + x, d + y);
        lemma_next_mode(first, second, address, wide, step, block, x, y);
    }
}

/// A predicted mode exists.
pub proof fn lemma_predicted_fits(modes: Seq<Seq<u8>>, address: int, block: int, wide: int)
    requires
        0 <= address < modes.len(),
        0 <= block < 16,
        0 < wide,
        crate::cavlc_syntax::modes_fit(modes),
        forall|a: int| 0 <= a < modes.len() ==> (#[trigger] modes[a]).len() == 16,
    ensures
        0 <= predicted_mode(modes, address, block, wide) <= 8,
{
    reveal(predicted_mode);
    let x = block_column(block);
    let y = block_row(block);
    assert(x > 0 ==> 0 <= crate::deblock::block_at(x - 1, y) < 16);
    assert(0 <= crate::deblock::block_at(3, y) < 16);
    assert(y > 0 ==> 0 <= crate::deblock::block_at(x, y - 1) < 16);
    assert(0 <= crate::deblock::block_at(x, 3) < 16);
    assert(modes[address].len() == 16);
    if address % wide != 0 {
        assert(address >= 1) by {
            if address == 0 {
                assert(0int % wide == 0) by (nonlinear_arith)
                    requires
                        0 < wide,
                ;
            }
        }
        assert(modes[address - 1].len() == 16);
    }
    if address >= wide {
        assert(modes[address - wide].len() == 16);
    }
}

/// Whether the levels of sixteen blocks have codes.
pub open spec fn luma_levels_fit(levels: Seq<Seq<int>>, size: int) -> bool {
    &&& levels.len() == 16
    &&& forall|b: int|
        0 <= b < 16 ==> (#[trigger] levels[b]).len() == size && within(levels[b], 0x800_0000)
}

/// The luma levels of a macroblock are told by their codes.
pub proof fn lemma_luma_told(
    before: Written,
    address: int,
    wide: int,
    size: int,
    first: Seq<Seq<int>>,
    second: Seq<Seq<int>>,
    pattern: int,
    count: int,
    x: Seq<bool>,
    y: Seq<bool>,
)
    requires
        0 <= count <= 16,
        size == 15 || size == 16,
        luma_levels_fit(first, size),
        luma_levels_fit(second, size),
        luma_written(before, address, wide, first, pattern, count).bits + x == luma_written(
            before,
            address,
            wide,
            second,
            pattern,
            count,
        ).bits + y,
    ensures
        forall|b: int|
            0 <= b < count && quarter_marked(pattern, b) ==> #[trigger] first[b] == second[b],
        luma_written(before, address, wide, first, pattern, count) == luma_written(
            before,
            address,
            wide,
            second,
            pattern,
            count,
        ),
        x == y,
    decreases count,
{
    if count <= 0 {
        lemma_same_start(before.bits, x, before.bits, y);
    } else {
        let block = count - 1;
        let a = luma_written(before, address, wide, first, pattern, block);
        let b = luma_written(before, address, wide, second, pattern, block);
        if quarter_marked(pattern, block) {
            let c = block_bits(luma_count(a.luma, address, block, wide), first[block]);
            let d = block_bits(luma_count(b.luma, address, block, wide), second[block]);
            assert((a.bits + c) + x =~= a.bits + (c + x));
            assert((b.bits + d) + y =~= b.bits + (d + y));
            lemma_luma_told(
                before,
                address,
                wide,
                size,
                first,
                second,
                pattern,
                block,
                c + x,
                d + y,
            );
            reveal(luma_count);
            law_levels_told(
                luma_count(a.luma, address, block, wide),
                first[block],
                second[block],
                x,
                y,
            );
        } else {
            lemma_luma_told(
                before,
                address,
                wide,
                size,
                first,
                second,
                pattern,
                block,
                x,
                y,
            );
        }
    }
}

/// Whether chroma levels have the size of a macroblock.
pub open spec fn chroma_sized(levels: ChromaLevels) -> bool {
    &&& chroma_levels_fit(levels)
    &&& levels.dc.len() == 4
    &&& levels.ac.len() == 4
    &&& forall|b: int| 0 <= b < 4 ==> (#[trigger] levels.ac[b]).len() == 15
}

spec fn chroma_block(cb: ChromaLevels, cr: ChromaLevels, block: int) -> Seq<int> {
    if block < 4 {
        cb.ac[block]
    } else {
        cr.ac[block - 4]
    }
}

proof fn lemma_chroma_blocks_told(
    before: Written,
    address: int,
    wide: int,
    cb: ChromaLevels,
    cr: ChromaLevels,
    other_cb: ChromaLevels,
    other_cr: ChromaLevels,
    count: int,
    x: Seq<bool>,
    y: Seq<bool>,
)
    requires
        0 <= count <= 8,
        chroma_sized(cb),
        chroma_sized(cr),
        chroma_sized(other_cb),
        chroma_sized(other_cr),
        chroma_blocks_written(before, address, wide, cb, cr, count).bits + x
            == chroma_blocks_written(before, address, wide, other_cb, other_cr, count).bits + y,
    ensures
        forall|b: int|
            0 <= b < count ==> #[trigger] chroma_block(cb, cr, b) == chroma_block(
                other_cb,
                other_cr,
                b,
            ),
        chroma_blocks_written(before, address, wide, cb, cr, count) == chroma_blocks_written(
            before,
            address,
            wide,
            other_cb,
            other_cr,
            count,
        ),
        x == y,
    decreases count,
{
    if count <= 0 {
        lemma_same_start(before.bits, x, before.bits, y);
    } else {
        let block = count - 1;
        let a = chroma_blocks_written(before, address, wide, cb, cr, block);
        let b = chroma_blocks_written(before, address, wide, other_cb, other_cr, block);
        let u = chroma_block(cb, cr, block);
        let v = chroma_block(other_cb, other_cr, block);
        let c = block_bits(chroma_count(a.chroma, address, block / 4, block % 4, wide), u);
        let d = block_bits(chroma_count(b.chroma, address, block / 4, block % 4, wide), v);
        assert((a.bits + c) + x =~= a.bits + (c + x));
        assert((b.bits + d) + y =~= b.bits + (d + y));
        lemma_chroma_blocks_told(
            before,
            address,
            wide,
            cb,
            cr,
            other_cb,
            other_cr,
            block,
            c + x,
            d + y,
        );
        reveal(chroma_count);
        law_levels_told(
            chroma_count(a.chroma, address, block / 4, block % 4, wide),
            u,
            v,
            x,
            y,
        );
    }
}

/// The chroma levels of a macroblock are told by their codes.
pub proof fn lemma_chroma_told(
    before: Written,
    address: int,
    wide: int,
    cb: ChromaLevels,
    cr: ChromaLevels,
    other_cb: ChromaLevels,
    other_cr: ChromaLevels,
    pattern: int,
    x: Seq<bool>,
    y: Seq<bool>,
)
    requires
        chroma_sized(cb),
        chroma_sized(cr),
        chroma_sized(other_cb),
        chroma_sized(other_cr),
        chroma_written(before, address, wide, cb, cr, pattern).bits + x == chroma_written(
            before,
            address,
            wide,
            other_cb,
            other_cr,
            pattern,
        ).bits + y,
    ensures
        pattern != 0 ==> cb.dc == other_cb.dc && cr.dc == other_cr.dc,
        pattern == 2 ==> cb.ac == other_cb.ac && cr.ac == other_cr.ac,
        chroma_written(before, address, wide, cb, cr, pattern) == chroma_written(
            before,
            address,
            wide,
            other_cb,
            other_cr,
            pattern,
        ),
        x == y,
{
    if pattern == 0 {
        lemma_same_start(before.bits, x, before.bits, y);
    } else {
        let a = Written {
            bits: before.bits + block_bits(-1, cb.dc) + block_bits(-1, cr.dc),
            luma: before.luma,
            chroma: before.chroma,
        };
        let b = Written {
            bits: before.bits + block_bits(-1, other_cb.dc) + block_bits(-1, other_cr.dc),
            luma: before.luma,
            chroma: before.chroma,
        };
        let tail = if pattern == 2 {
            chroma_tail(a, address, wide, cb, cr, 8)
        } else {
            Seq::empty()
        };
        let other = if pattern == 2 {
            chroma_tail(b, address, wide, other_cb, other_cr, 8)
        } else {
            Seq::empty()
        };
        if pattern == 2 {
            lemma_chroma_tail(a, address, wide, cb, cr, 8);
            lemma_chroma_tail(b, address, wide, other_cb, other_cr, 8);
        }
        assert(chroma_written(before, address, wide, cb, cr, pattern).bits + x =~= before.bits + (
        block_bits(-1, cb.dc) + (block_bits(-1, cr.dc) + (tail + x))));
        assert(chroma_written(before, address, wide, other_cb, other_cr, pattern).bits + y
            =~= before.bits + (block_bits(-1, other_cb.dc) + (block_bits(-1, other_cr.dc) + (other
            + y))));
        lemma_same_start(
            before.bits,
            block_bits(-1, cb.dc) + (block_bits(-1, cr.dc) + (tail + x)),
            before.bits,
            block_bits(-1, other_cb.dc) + (block_bits(-1, other_cr.dc) + (other + y)),
        );
        law_levels_told(
            -1,
            cb.dc,
            other_cb.dc,
            block_bits(-1, cr.dc) + (tail + x),
            block_bits(-1, other_cr.dc) + (other + y),
        );
        law_levels_told(-1, cr.dc, other_cr.dc, tail + x, other + y);
        if pattern == 2 {
            lemma_chroma_blocks_told(
                a,
                address,
                wide,
                cb,
                cr,
                other_cb,
                other_cr,
                8,
                x,
                y,
            );
            assert forall|i: int| 0 <= i < 4 implies cb.ac[i] == other_cb.ac[i] by {
                assert(chroma_block(cb, cr, i) == chroma_block(other_cb, other_cr, i));
            }
            assert forall|i: int| 0 <= i < 4 implies cr.ac[i] == other_cr.ac[i] by {
                assert(chroma_block(cb, cr, i + 4) == chroma_block(other_cb, other_cr, i + 4));
            }
            assert(cb.ac =~= other_cb.ac);
            assert(cr.ac =~= other_cr.ac);
        } else {
            assert(tail + x =~= x);
            assert(other + y =~= y);
        }
    }
}

/// The bits of the first `count` chroma blocks of a macroblock.
spec fn chroma_tail(
    before: Written,
    address: int,
    wide: int,
    cb: ChromaLevels,
    cr: ChromaLevels,
    count: int,
) -> Seq<bool> {
    chroma_blocks_written(before, address, wide, cb, cr, count).bits.skip(
        before.bits.len() as int,
    )
}

proof fn lemma_chroma_tail(
    before: Written,
    address: int,
    wide: int,
    cb: ChromaLevels,
    cr: ChromaLevels,
    count: int,
)
    ensures
        chroma_blocks_written(before, address, wide, cb, cr, count).bits == before.bits
            + chroma_tail(before, address, wide, cb, cr, count),
    decreases count,
{
    let all = chroma_blocks_written(before, address, wide, cb, cr, count).bits;
    if count > 0 {
        lemma_chroma_tail(before, address, wide, cb, cr, count - 1);
    }
    assert(all =~= before.bits + all.skip(before.bits.len() as int));
}

} // verus!
