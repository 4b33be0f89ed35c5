//! What macroblocks write with variable-length codes.

use vstd::prelude::*;

use crate::bits::{bits_of, BitWriter};
use crate::block_coding::{block_bits, block_total, write_block};
use crate::neighbors::{
    chroma_count, chroma_nc, counts_fit, luma_count, luma_nc, predicted_intra4_mode,
    predicted_mode, rows, set_entry, with_entry,
};
use crate::residual::{chroma_levels_fit, ChromaLevels, ChromaResidual};
use crate::transform::{ints, within};

verus! {

/// The bits that are written so far, and the coefficient counts that predict later ones.
#[verifier::ext_equal]
pub struct Written {
    /// The bits.
    pub bits: Seq<bool>,
    /// The counts of each macroblock's luma blocks.
    pub luma: Seq<Seq<u8>>,
    /// The counts of each macroblock's chroma blocks.
    pub chroma: Seq<Seq<u8>>,
}

/// Whether the quarter that holds a luma block is marked in a pattern.
pub open spec fn quarter_marked(pattern: int, block: int) -> bool {
    if block < 4 {
        pattern % 2 == 1
    } else if block < 8 {
        pattern / 2 % 2 == 1
    } else if block < 12 {
        pattern / 4 % 2 == 1
    } else {
        pattern / 8 % 2 == 1
    }
}

/// Whether the quarter that holds a luma block is marked in a pattern.
pub fn is_quarter_marked(pattern: u8, block_index: usize) -> (result: bool)
    ensures
        result == quarter_marked(pattern as int, block_index as int),
{
    if block_index < 4 {
        pattern % 2 == 1
    } else if block_index < 8 {
        pattern / 2 % 2 == 1
    } else if block_index < 12 {
        pattern / 4 % 2 == 1
    } else {
        pattern / 8 % 2 == 1
    }
}

/// What is written after the first `count` luma blocks of a macroblock.
pub open spec fn luma_written(
    before: Written,
    address: int,
    wide: int,
    levels: Seq<Seq<int>>,
    pattern: int,
    count: int,
) -> Written
    decreases count,
{
    if count <= 0 {
        before
    } else {
        let block = count - 1;
        let state = luma_written(before, address, wide, levels, pattern, block);
        if quarter_marked(pattern, block) {
            Written {
                bits: state.bits + block_bits(
                    luma_count(state.luma, address, block, wide),
                    levels[block],
                ),
                luma: with_entry(state.luma, address, block, block_total(levels[block])),
                chroma: state.chroma,
            }
        } else {
            state
        }
    }
}

/// The numbers in the levels of blocks.
pub open spec fn block_numbers<const N: usize>(levels: Seq<[i32; N]>) -> Seq<Seq<int>> {
    Seq::new(levels.len(), |b: int| ints(levels[b]@))
}

/// Writes the luma blocks of a macroblock whose quarters are marked in a pattern.
pub fn write_luma_blocks<const N: usize>(
    writer: &mut BitWriter,
    luma_nonzero: &mut Vec<[u8; 16]>,
    address: usize,
    macroblocks_wide: usize,
    levels: &[[i32; N]; 16],
    pattern: u8,
)
    requires
        N == 15 || N == 16,
        address < old(luma_nonzero)@.len(),
        0 < macroblocks_wide,
        counts_fit(rows(old(luma_nonzero)@)),
        forall|b: int| 0 <= b < 16 ==> within(ints((#[trigger] levels@[b])@), 0x10_0000),
    ensures
        forall|chroma: Seq<Seq<u8>>|
            (Written {
                bits: final(writer)@,
                luma: rows(final(luma_nonzero)@),
                chroma,
            }) == #[trigger] luma_written(
                Written { bits: old(writer)@, luma: rows(old(luma_nonzero)@), chroma },
                address as int,
                macroblocks_wide as int,
                block_numbers(levels@),
                pattern as int,
                16,
            ),
        counts_fit(rows(final(luma_nonzero)@)),
        final(luma_nonzero)@.len() == old(luma_nonzero)@.len(),
{
    let ghost bits = writer@;
    let ghost luma = rows(luma_nonzero@);
    let ghost numbers = block_numbers(levels@);
    let mut block: usize = 0;
    while block < 16
        invariant
            block <= 16,
            N == 15 || N == 16,
            address < luma_nonzero@.len(),
            luma_nonzero@.len() == old(luma_nonzero)@.len(),
            0 < macroblocks_wide,
            counts_fit(rows(luma_nonzero@)),
            numbers == block_numbers(levels@),
            forall|b: int| 0 <= b < 16 ==> within(ints((#[trigger] levels@[b])@), 0x10_0000),
            forall|chroma: Seq<Seq<u8>>|
                (Written { bits: writer@, luma: rows(luma_nonzero@), chroma })
                    == #[trigger] luma_written(
                    Written { bits, luma, chroma },
                    address as int,
                    macroblocks_wide as int,
                    numbers,
                    pattern as int,
                    block as int,
                ),
        decreases 16 - block,
    {
        if is_quarter_marked(pattern, block) {
            let n_c: i8 = luma_nc(luma_nonzero.as_slice(), address, block, macroblocks_wide);
            assert(numbers[block as int] == ints(levels@[block as int]@));
            let total: u8 = write_block(writer, n_c, levels[block].as_slice());
            set_entry(luma_nonzero, address, block, total);
        }
        assert forall|chroma: Seq<Seq<u8>>|
            (Written { bits: writer@, luma: rows(luma_nonzero@), chroma })
                == #[trigger] luma_written(
                Written { bits, luma, chroma },
                address as int,
                macroblocks_wide as int,
                numbers,
                pattern as int,
                block + 1,
            ) by {
            let state = luma_written(
                Written { bits, luma, chroma },
                address as int,
                macroblocks_wide as int,
                numbers,
                pattern as int,
                block as int,
            );
        }
        block = block + 1;
    }
}

/// What is written after the first `count` chroma blocks of a macroblock, those of the first plane
/// before those of the second.
pub open spec fn chroma_blocks_written(
    before: Written,
    address: int,
    wide: int,
    cb: ChromaLevels,
    cr: ChromaLevels,
    count: int,
) -> Written
    decreases count,
{
    if count <= 0 {
        before
    } else {
        let block = count - 1;
        let state = chroma_blocks_written(before, address, wide, cb, cr, block);
        let levels = if block < 4 {
            cb.ac[block]
        } else {
            cr.ac[block - 4]
        };
        Written {
            bits: state.bits + block_bits(
                chroma_count(state.chroma, address, block / 4, block % 4, wide),
                levels,
            ),
            luma: state.luma,
            chroma: with_entry(state.chroma, address, block, block_total(levels)),
        }
    }
}

/// What is written after the chroma levels of a macroblock: nothing, the block means, or all.
pub open spec fn chroma_written(
    before: Written,
    address: int,
    wide: int,
    cb: ChromaLevels,
    cr: ChromaLevels,
    pattern: int,
) -> Written {
    let means = if pattern != 0 {
        Written {
            bits: before.bits + block_bits(-1, cb.dc) + block_bits(-1, cr.dc),
            luma: before.luma,
            chroma: before.chroma,
        }
    } else {
        before
    };
    if pattern == 2 {
        chroma_blocks_written(means, address, wide, cb, cr, 8)
    } else {
        means
    }
}

/// Writes the chroma levels of a macroblock.
pub fn write_chroma(
    writer: &mut BitWriter,
    chroma_nonzero: &mut Vec<[u8; 8]>,
    address: usize,
    macroblocks_wide: usize,
    residuals: &[ChromaResidual; 2],
    pattern: u8,
)
    requires
        address < old(chroma_nonzero)@.len(),
        0 < macroblocks_wide,
        counts_fit(rows(old(chroma_nonzero)@)),
        chroma_levels_fit(residuals@[0]@),
        chroma_levels_fit(residuals@[1]@),
    ensures
        forall|luma: Seq<Seq<u8>>|
            (Written {
                bits: final(writer)@,
                luma,
                chroma: rows(final(chroma_nonzero)@),
            }) == #[trigger] chroma_written(
                Written { bits: old(writer)@, luma, chroma: rows(old(chroma_nonzero)@) },
                address as int,
                macroblocks_wide as int,
                residuals@[0]@,
                residuals@[1]@,
                pattern as int,
            ),
        counts_fit(rows(final(chroma_nonzero)@)),
        final(chroma_nonzero)@.len() == old(chroma_nonzero)@.len(),
{
    let ghost cb = residuals@[0]@;
    let ghost cr = residuals@[1]@;
    if pattern != 0 {
        write_block(writer, -1, residuals[0].dc.as_slice());
        write_block(writer, -1, residuals[1].dc.as_slice());
    }
    if pattern != 2 {
        return;
    }
    let ghost bits = writer@;
    let ghost chroma = rows(chroma_nonzero@);
    let mut block: usize = 0;
    while block < 8
        invariant
            block <= 8,
            address < chroma_nonzero@.len(),
            chroma_nonzero@.len() == old(chroma_nonzero)@.len(),
            0 < macroblocks_wide,
            counts_fit(rows(chroma_nonzero@)),
            cb == residuals@[0]@,
            cr == residuals@[1]@,
            chroma_levels_fit(cb),
            chroma_levels_fit(cr),
            forall|luma: Seq<Seq<u8>>|
                (Written { bits: writer@, luma, chroma: rows(chroma_nonzero@) })
                    == #[trigger] chroma_blocks_written(
                    Written { bits, luma, chroma },
                    address as int,
                    macroblocks_wide as int,
                    cb,
                    cr,
                    block as int,
                ),
        decreases 8 - block,
    {
        let n_c: i8 = chroma_nc(
            chroma_nonzero.as_slice(),
            address,
            block / 4,
            block % 4,
            macroblocks_wide,
        );
        let ghost levels = if block < 4 {
            cb.ac[block as int]
        } else {
            cr.ac[block - 4]
        };
        assert(levels == ints(residuals@[block as int / 4].ac@[block as int % 4]@));
        assert(within(levels, 0x800_0000));
        let total: u8 = write_block(writer, n_c, residuals[block / 4].ac[block % 4].as_slice());
        set_entry(chroma_nonzero, address, block, total);
        assert forall|luma: Seq<Seq<u8>>|
            (Written { bits: writer@, luma, chroma: rows(chroma_nonzero@) })
                == #[trigger] chroma_blocks_written(
                Written { bits, luma, chroma },
                address as int,
                macroblocks_wide as int,
                cb,
                cr,
                block + 1,
            ) by {
            let state = chroma_blocks_written(
                Written { bits, luma, chroma },
                address as int,
                macroblocks_wide as int,
                cb,
                cr,
                block as int,
            );
        }
        block = block + 1;
    }
}

/// The bits of a block's prediction mode where another one is expected.
pub open spec fn mode_bits(mode: int, predicted: int) -> Seq<bool> {
    if mode == predicted {
        seq![true]
    } else {
        seq![false] + bits_of(
            (if mode > predicted {
                mode - 1
            } else {
                mode
            }) as nat,
            3,
        )
    }
}

/// The bits of the prediction modes of the first `count` of the blocks `0`, `step`, twice `step`
/// and so on of a macroblock.
pub open spec fn modes_written(
    modes: Seq<Seq<u8>>,
    address: int,
    wide: int,
    step: int,
    count: int,
) -> Seq<bool>
    decreases count,
{
    if count <= 0 {
        Seq::empty()
    } else {
        let block = (count - 1) * step;
        modes_written(modes, address, wide, step, count - 1) + mode_bits(
            modes[address][block] as int,
            predicted_mode(modes, address, block, wide),
        )
    }
}

/// Whether all entries are prediction modes.
pub open spec fn modes_fit(modes: Seq<Seq<u8>>) -> bool {
    forall|a: int, b: int|
        0 <= a < modes.len() && 0 <= b < modes[a].len() ==> #[trigger] modes[a][b] <= 8
}

/// Writes the prediction modes of the blocks of a macroblock, or of every fourth one of them.
pub fn write_modes(
    writer: &mut BitWriter,
    luma_modes: &[[u8; 16]],
    address: usize,
    macroblocks_wide: usize,
    step: usize,
)
    requires
        address < luma_modes@.len(),
        0 < macroblocks_wide,
        step == 1 || step == 4,
    ensures
        final(writer)@ == old(writer)@ + modes_written(
            rows(luma_modes@),
            address as int,
            macroblocks_wide as int,
            step as int,
            16int / step as int,
        ),
{
    let ghost bits = writer@;
    let ghost modes = rows(luma_modes@);
    let count: usize = if step == 1 {
        16
    } else {
        4
    };
    let mut done: usize = 0;
    assert(writer@ =~= bits + modes_written(
        modes,
        address as int,
        macroblocks_wide as int,
        step as int,
        0,
    ));
    while done < count
        invariant
            done <= count,
            step == 1 && count == 16 || step == 4 && count == 4,
            address < luma_modes@.len(),
            0 < macroblocks_wide,
            modes == rows(luma_modes@),
            writer@ == bits + modes_written(
                modes,
                address as int,
                macroblocks_wide as int,
                step as int,
                done as int,
            ),
        decreases count - done,
    {
        let ghost before = writer@;
        let block: usize = if step == 1 {
            done
        } else {
            done * 4
        };
        assert(block == done * step) by (nonlinear_arith)
            requires
                step == 1 && block == done || step == 4 && block == done * 4,
        ;
        let predicted: u8 = predicted_intra4_mode(luma_modes, address, block, macroblocks_wide);
        let mode: u8 = luma_modes[address][block];
        assert(modes[address as int][block as int] == mode);
        writer.write_bit(mode == predicted);
        if mode != predicted {
            let remaining: u8 = if mode > predicted {
                mode - 1
            } else {
                mode
            };
            writer.write_bits(remaining as u64, 3);
        }
        assert(writer@ =~= before + mode_bits(mode as int, predicted as int));
        done = done + 1;
        assert(writer@ =~= bits + modes_written(
            modes,
            address as int,
            macroblocks_wide as int,
            step as int,
            done as int,
        ));
    }
}

/// The levels of sixteen four-by-four blocks that carry the levels of four eight-by-eight blocks,
/// every fourth one each.
pub open spec fn interleaved(levels: Seq<Seq<int>>) -> Seq<Seq<int>> {
    Seq::new(16, |b: int| Seq::new(16, |k: int| levels[b / 4][k * 4 + b % 4]))
}

/// Spreads the levels of four eight-by-eight blocks over sixteen four-by-four blocks.
pub fn interleave(levels: &[[i32; 64]; 4]) -> (blocks: Box<[[i32; 16]; 16]>)
    requires
        forall|b: int| 0 <= b < 4 ==> within(ints((#[trigger] levels@[b])@), 0x10_0000),
    ensures
        block_numbers(blocks@) == interleaved(crate::inter_residual::quarter_ints(levels@)),
        forall|b: int| 0 <= b < 16 ==> within(ints((#[trigger] blocks@[b])@), 0x10_0000),
{
    let ghost expected = interleaved(crate::inter_residual::quarter_ints(levels@));
    let mut blocks: Box<[[i32; 16]; 16]> = Box::new([[0i32; 16]; 16]);
    let mut b: usize = 0;
    while b < 16
        invariant
            b <= 16,
            forall|j: int| 0 <= j < 4 ==> within(ints((#[trigger] levels@[j])@), 0x10_0000),
            expected == interleaved(crate::inter_residual::quarter_ints(levels@)),
            forall|j: int|
                0 <= j < b ==> ints((#[trigger] blocks@[j])@) == expected[j] && within(
                    ints(blocks@[j]@),
                    0x10_0000,
                ),
        decreases 16 - b,
    {
        let mut block: [i32; 16] = [0i32; 16];
        let mut k: usize = 0;
        while k < 16
            invariant
                k <= 16,
                b < 16,
                forall|j: int| 0 <= j < 4 ==> within(ints((#[trigger] levels@[j])@), 0x10_0000),
                expected == interleaved(crate::inter_residual::quarter_ints(levels@)),
                forall|j: int|
                    0 <= j < k ==> (#[trigger] block@[j]) == expected[b as int][j] && -0x10_0000
                        <= block@[j] <= 0x10_0000,
            decreases 16 - k,
        {
            let ghost own = ints(levels@[b as int / 4]@);
            assert(within(own, 0x10_0000));
            assert(own[k * 4 + b % 4] == levels@[b as int / 4]@[k * 4 + b % 4]);
            block[k] = levels[b / 4][k * 4 + b % 4];
            k = k + 1;
        }
        assert(ints(block@) =~= expected[b as int]);
        blocks[b] = block;
        b = b + 1;
    }
    assert(block_numbers(blocks@) =~= expected);
    blocks
}

} // verus!
