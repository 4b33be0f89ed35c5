//! What neighbouring blocks predict of a block.

use vstd::prelude::*;

use crate::deblock::{block_at, luma_block_index};
use crate::residual::{block_column, block_row, luma_block_position};

verus! {

/// The coefficient count that neighbouring counts predict.
pub open spec fn combined_count(left: Option<u8>, top: Option<u8>) -> int {
    match (left, top) {
        (Some(left), Some(top)) => (left + top + 1) / 2,
        (Some(value), None) => value as int,
        (None, Some(value)) => value as int,
        (None, None) => 0,
    }
}

/// Whether a count, if there is one, is that of a block.
pub open spec fn count_fits(count: Option<u8>) -> bool {
    count matches Some(value) ==> value <= 16
}

/// The coefficient count that neighbouring counts predict.
pub fn combined_nc(left: Option<u8>, top: Option<u8>) -> (count: i8)
    requires
        count_fits(left),
        count_fits(top),
    ensures
        count == combined_count(left, top),
        0 <= count <= 16,
{
    match (left, top) {
        (Some(left), Some(top)) => ((left + top + 1) / 2) as i8,
        (Some(value), None) => value as i8,
        (None, Some(value)) => value as i8,
        (None, None) => 0,
    }
}

/// The entries of the blocks of each macroblock.
pub open spec fn rows<T, const N: usize>(entries: Seq<[T; N]>) -> Seq<Seq<T>> {
    Seq::new(entries.len(), |a: int| entries[a]@)
}

/// `entries` with the entry of one block replaced.
pub open spec fn with_entry(entries: Seq<Seq<u8>>, address: int, block: int, value: u8) -> Seq<
    Seq<u8>,
> {
    entries.update(address, entries[address].update(block, value))
}

/// Whether all counts are those of blocks.
pub open spec fn counts_fit(nonzero: Seq<Seq<u8>>) -> bool {
    forall|a: int, b: int|
        0 <= a < nonzero.len() && 0 <= b < nonzero[a].len() ==> #[trigger] nonzero[a][b] <= 16
}

/// Replaces the entry of one block.
pub fn set_entry<const N: usize>(
    entries: &mut Vec<[u8; N]>,
    address: usize,
    block_index: usize,
    value: u8,
)
    requires
        address < old(entries)@.len(),
        block_index < N,
    ensures
        rows(final(entries)@) == with_entry(
            rows(old(entries)@),
            address as int,
            block_index as int,
            value,
        ),
        final(entries)@.len() == old(entries)@.len(),
        counts_fit(rows(old(entries)@)) && value <= 16 ==> counts_fit(rows(final(entries)@)),
{
    let ghost before = rows(entries@);
    let mut row: [u8; N] = entries[address];
    row[block_index] = value;
    entries.set(address, row);
    proof {
        let after = rows(entries@);
        assert(after[address as int] =~= before[address as int].update(block_index as int, value));
        assert(after =~= with_entry(before, address as int, block_index as int, value));
        assert forall|a: int, b: int|
            counts_fit(before) && value <= 16 && 0 <= a < after.len() && 0 <= b
                < after[a].len() implies #[trigger] after[a][b] <= 16 by {
            assert(a != address || b != block_index ==> after[a][b] == before[a][b]);
        }
    }
}

/// The entry of the block to the left of a luma block, if there is one.
pub open spec fn left_entry<T>(
    entries: Seq<Seq<T>>,
    address: int,
    block: int,
    wide: int,
) -> Option<T> {
    let x = block_column(block);
    let y = block_row(block);
    if x > 0 {
        Some(entries[address][block_at(x - 1, y)])
    } else if address % wide != 0 {
        Some(entries[address - 1][block_at(3, y)])
    } else {
        None
    }
}

/// The entry of the block above a luma block, if there is one.
pub open spec fn top_entry<T>(
    entries: Seq<Seq<T>>,
    address: int,
    block: int,
    wide: int,
) -> Option<T> {
    let x = block_column(block);
    let y = block_row(block);
    if y > 0 {
        Some(entries[address][block_at(x, y - 1)])
    } else if address >= wide {
        Some(entries[address - wide][block_at(x, 3)])
    } else {
        None
    }
}

/// The predicted coefficient count of a luma block.
#[verifier::opaque]
pub open spec fn luma_count(nonzero: Seq<Seq<u8>>, address: int, block: int, wide: int) -> int {
    combined_count(
        left_entry(nonzero, address, block, wide),
        top_entry(nonzero, address, block, wide),
    )
}

/// Reads the entry of the block to the left of a luma block, if there is one.
fn read_left_entry(
    entries: &[[u8; 16]],
    address: usize,
    block_index: usize,
    macroblocks_wide: usize,
) -> (entry: Option<u8>)
    requires
        address < entries@.len(),
        block_index < 16,
        0 < macroblocks_wide,
    ensures
        entry == left_entry(
            rows(entries@),
            address as int,
            block_index as int,
            macroblocks_wide as int,
        ),
        counts_fit(rows(entries@)) ==> count_fits(entry),
{
    let (block_x, block_y) = luma_block_position(block_index);
    if block_x > 0 {
        let index: usize = luma_block_index(block_x - 1, block_y);
        assert(counts_fit(rows(entries@)) ==> rows(entries@)[address as int][index as int] <= 16);
        Some(entries[address][index])
    } else if address % macroblocks_wide != 0 {
        proof {
            if address == 0 {
                vstd::arithmetic::div_mod::lemma_small_mod(0, macroblocks_wide as nat);
            }
        }
        let index: usize = luma_block_index(3, block_y);
        assert(counts_fit(rows(entries@)) ==> rows(entries@)[address - 1][index as int] <= 16);
        Some(entries[address - 1][index])
    } else {
        None
    }
}

/// Reads the entry of the block above a luma block, if there is one.
fn read_top_entry(
    entries: &[[u8; 16]],
    address: usize,
    block_index: usize,
    macroblocks_wide: usize,
) -> (entry: Option<u8>)
    requires
        address < entries@.len(),
        block_index < 16,
        0 < macroblocks_wide,
    ensures
        entry == top_entry(
            rows(entries@),
            address as int,
            block_index as int,
            macroblocks_wide as int,
        ),
        counts_fit(rows(entries@)) ==> count_fits(entry),
{
    let (block_x, block_y) = luma_block_position(block_index);
    if block_y > 0 {
        let index: usize = luma_block_index(block_x, block_y - 1);
        assert(counts_fit(rows(entries@)) ==> rows(entries@)[address as int][index as int] <= 16);
        Some(entries[address][index])
    } else if address >= macroblocks_wide {
        let index: usize = luma_block_index(block_x, 3);
        assert(counts_fit(rows(entries@)) ==> rows(entries@)[address - macroblocks_wide][index as int] <= 16);
        Some(entries[address - macroblocks_wide][index])
    } else {
        None
    }
}

/// The predicted coefficient count of a luma block.
pub fn luma_nc(
    nonzero: &[[u8; 16]],
    address: usize,
    block_index: usize,
    macroblocks_wide: usize,
) -> (count: i8)
    requires
        address < nonzero@.len(),
        block_index < 16,
        0 < macroblocks_wide,
        counts_fit(rows(nonzero@)),
    ensures
        count == luma_count(
            rows(nonzero@),
            address as int,
            block_index as int,
            macroblocks_wide as int,
        ),
        0 <= count <= 16,
{
    reveal(luma_count);
    combined_nc(
        read_left_entry(nonzero, address, block_index, macroblocks_wide),
        read_top_entry(nonzero, address, block_index, macroblocks_wide),
    )
}

/// The predicted coefficient count of the block means of a macroblock.
#[verifier::opaque]
pub open spec fn means_count(nonzero: Seq<Seq<u8>>, address: int, wide: int) -> int {
    combined_count(
        if address % wide > 0 {
            Some(nonzero[address - 1][5])
        } else {
            None
        },
        if address >= wide {
            Some(nonzero[address - wide][10])
        } else {
            None
        },
    )
}

/// The predicted coefficient count of the block means of a macroblock.
pub fn intra16_dc_nc(nonzero: &[[u8; 16]], address: usize, macroblocks_wide: usize) -> (count: i8)
    requires
        address < nonzero@.len(),
        0 < macroblocks_wide,
        counts_fit(rows(nonzero@)),
    ensures
        count == means_count(rows(nonzero@), address as int, macroblocks_wide as int),
        0 <= count <= 16,
{
    reveal(means_count);
    let left: Option<u8> = if address % macroblocks_wide > 0 {
        proof {
            if address == 0 {
                vstd::arithmetic::div_mod::lemma_small_mod(0, macroblocks_wide as nat);
            }
        }
        assert(rows(nonzero@)[address - 1][5] <= 16);
        Some(nonzero[address - 1][5])
    } else {
        None
    };
    let top: Option<u8> = if address >= macroblocks_wide {
        assert(rows(nonzero@)[address - macroblocks_wide][10] <= 16);
        Some(nonzero[address - macroblocks_wide][10])
    } else {
        None
    };
    combined_nc(left, top)
}

/// The predicted coefficient count of a chroma block.
#[verifier::opaque]
pub open spec fn chroma_count(
    nonzero: Seq<Seq<u8>>,
    address: int,
    component: int,
    block: int,
    wide: int,
) -> int {
    let x = block % 2;
    let y = block / 2;
    combined_count(
        if x > 0 {
            Some(nonzero[address][component * 4 + block - 1])
        } else if address % wide != 0 {
            Some(nonzero[address - 1][component * 4 + y * 2 + 1])
        } else {
            None
        },
        if y > 0 {
            Some(nonzero[address][component * 4 + block - 2])
        } else if address >= wide {
            Some(nonzero[address - wide][component * 4 + 2 + x])
        } else {
            None
        },
    )
}

/// The predicted coefficient count of a chroma block.
pub fn chroma_nc(
    nonzero: &[[u8; 8]],
    address: usize,
    component: usize,
    block_index: usize,
    macroblocks_wide: usize,
) -> (count: i8)
    requires
        address < nonzero@.len(),
        component < 2,
        block_index < 4,
        0 < macroblocks_wide,
        counts_fit(rows(nonzero@)),
    ensures
        count == chroma_count(
            rows(nonzero@),
            address as int,
            component as int,
            block_index as int,
            macroblocks_wide as int,
        ),
        0 <= count <= 16,
{
    reveal(chroma_count);
    let x: usize = block_index % 2;
    let y: usize = block_index / 2;
    let left: Option<u8> = if x > 0 {
        assert(rows(nonzero@)[address as int][component * 4 + block_index - 1] <= 16);
        Some(nonzero[address][component * 4 + block_index - 1])
    } else if address % macroblocks_wide != 0 {
        proof {
            if address == 0 {
                vstd::arithmetic::div_mod::lemma_small_mod(0, macroblocks_wide as nat);
            }
        }
        assert(rows(nonzero@)[address - 1][component * 4 + y * 2 + 1] <= 16);
        Some(nonzero[address - 1][component * 4 + y * 2 + 1])
    } else {
        None
    };
    let top: Option<u8> = if y > 0 {
        assert(rows(nonzero@)[address as int][component * 4 + block_index - 2] <= 16);
        Some(nonzero[address][component * 4 + block_index - 2])
    } else if address >= macroblocks_wide {
        assert(rows(nonzero@)[address - macroblocks_wide][component * 4 + 2 + x] <= 16);
        Some(nonzero[address - macroblocks_wide][component * 4 + 2 + x])
    } else {
        None
    };
    combined_nc(left, top)
}

/// The prediction mode that neighbouring modes predict.
#[verifier::opaque]
pub open spec fn predicted_mode(modes: Seq<Seq<u8>>, address: int, block: int, wide: int) -> int {
    match (left_entry(modes, address, block, wide), top_entry(modes, address, block, wide)) {
        (Some(left), Some(top)) => if left <= top {
            left as int
        } else {
            top as int
        },
        _ => 2,
    }
}

/// The prediction mode that neighbouring modes predict.
pub fn predicted_intra4_mode(
    modes: &[[u8; 16]],
    address: usize,
    block_index: usize,
    macroblocks_wide: usize,
) -> (mode: u8)
    requires
        address < modes@.len(),
        block_index < 16,
        0 < macroblocks_wide,
    ensures
        mode == predicted_mode(
            rows(modes@),
            address as int,
            block_index as int,
            macroblocks_wide as int,
        ),
{
    reveal(predicted_mode);
    let left: Option<u8> = read_left_entry(modes, address, block_index, macroblocks_wide);
    let top: Option<u8> = read_top_entry(modes, address, block_index, macroblocks_wide);
    match (left, top) {
        (Some(left), Some(top)) => if left <= top {
            left
        } else {
            top
        },
        _ => 2,
    }
}

/// The entry of the macroblock to the left, if there is one.
pub open spec fn left_of<T>(entries: Seq<T>, address: int, wide: int) -> Option<T> {
    if address % wide != 0 {
        Some(entries[address - 1])
    } else {
        None
    }
}

/// The entry of the macroblock above, if there is one.
pub open spec fn top_of<T>(entries: Seq<T>, address: int, wide: int) -> Option<T> {
    if address >= wide {
        Some(entries[address - wide])
    } else {
        None
    }
}

/// Reads the entry of the macroblock to the left, if there is one.
pub fn read_left_of<T: Copy>(entries: &[T], address: usize, wide: usize) -> (entry: Option<T>)
    requires
        address < entries@.len(),
        0 < wide,
    ensures
        entry == left_of(entries@, address as int, wide as int),
{
    if address % wide != 0 {
        proof {
            if address == 0 {
                vstd::arithmetic::div_mod::lemma_small_mod(0, wide as nat);
            }
        }
        Some(entries[address - 1])
    } else {
        None
    }
}

/// Reads the entry of the macroblock above, if there is one.
pub fn read_top_of<T: Copy>(entries: &[T], address: usize, wide: usize) -> (entry: Option<T>)
    requires
        address < entries@.len(),
        0 < wide,
    ensures
        entry == top_of(entries@, address as int, wide as int),
{
    if address >= wide {
        Some(entries[address - wide])
    } else {
        None
    }
}

/// Reads the entries of the blocks to the left of a luma block and above it, where there are any.
pub fn read_around<T: Copy>(
    entries: &[[T; 16]],
    address: usize,
    block_index: usize,
    wide: usize,
) -> (around: (Option<T>, Option<T>))
    requires
        address < entries@.len(),
        block_index < 16,
        0 < wide,
    ensures
        around.0 == left_entry(rows(entries@), address as int, block_index as int, wide as int),
        around.1 == top_entry(rows(entries@), address as int, block_index as int, wide as int),
{
    let (block_x, block_y) = luma_block_position(block_index);
    let left: Option<T> = if block_x > 0 {
        let index: usize = luma_block_index(block_x - 1, block_y);
        Some(entries[address][index])
    } else if address % wide != 0 {
        proof {
            if address == 0 {
                vstd::arithmetic::div_mod::lemma_small_mod(0, wide as nat);
            }
        }
        let index: usize = luma_block_index(3, block_y);
        Some(entries[address - 1][index])
    } else {
        None
    };
    let top: Option<T> = if block_y > 0 {
        let index: usize = luma_block_index(block_x, block_y - 1);
        Some(entries[address][index])
    } else if address >= wide {
        let index: usize = luma_block_index(block_x, 3);
        Some(entries[address - wide][index])
    } else {
        None
    };
    (left, top)
}

/// The entry of the block to the left of a chroma block, if there is one.
pub open spec fn left_chroma<T>(
    entries: Seq<Seq<T>>,
    address: int,
    component: int,
    block: int,
    wide: int,
) -> Option<T> {
    if block % 2 > 0 {
        Some(entries[address][component * 4 + block - 1])
    } else if address % wide != 0 {
        Some(entries[address - 1][component * 4 + (block / 2) * 2 + 1])
    } else {
        None
    }
}

/// The entry of the block above a chroma block, if there is one.
pub open spec fn top_chroma<T>(
    entries: Seq<Seq<T>>,
    address: int,
    component: int,
    block: int,
    wide: int,
) -> Option<T> {
    if block / 2 > 0 {
        Some(entries[address][component * 4 + block - 2])
    } else if address >= wide {
        Some(entries[address - wide][component * 4 + 2 + block % 2])
    } else {
        None
    }
}

/// Reads the entries of the blocks to the left of a chroma block and above it, where there are any.
pub fn read_around_chroma<T: Copy>(
    entries: &[[T; 8]],
    address: usize,
    component: usize,
    block: usize,
    wide: usize,
) -> (around: (Option<T>, Option<T>))
    requires
        address < entries@.len(),
        component < 2,
        block < 4,
        0 < wide,
    ensures
        around.0 == left_chroma(
            rows(entries@),
            address as int,
            component as int,
            block as int,
            wide as int,
        ),
        around.1 == top_chroma(
            rows(entries@),
            address as int,
            component as int,
            block as int,
            wide as int,
        ),
{
    let left: Option<T> = if block % 2 > 0 {
        Some(entries[address][component * 4 + block - 1])
    } else if address % wide != 0 {
        proof {
            if address == 0 {
                vstd::arithmetic::div_mod::lemma_small_mod(0, wide as nat);
            }
        }
        Some(entries[address - 1][component * 4 + (block / 2) * 2 + 1])
    } else {
        None
    };
    let top: Option<T> = if block / 2 > 0 {
        Some(entries[address][component * 4 + block - 2])
    } else if address >= wide {
        Some(entries[address - wide][component * 4 + 2 + block % 2])
    } else {
        None
    };
    (left, top)
}

} // verus!
