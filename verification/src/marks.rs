//! Residual blocks as symbols of the arithmetic encoder, and which of them hold anything.

use vstd::prelude::*;

use crate::arithmetic::Bin;
use crate::bins::{
    block_bins, decision, encode_cabac_coded_block_pattern, encode_cabac_residual_block, flag,
    inner_bins, pattern_bins, push_decision, BlockKind, SLOT_COUNT,
};
use crate::cavlc_syntax::{block_numbers, is_quarter_marked, quarter_marked};
use crate::inter_residual::{any_nonzero, holds_nonzero, quarter_ints};
use crate::math::unit;
use crate::neighbors::{
    left_chroma, left_entry, left_of, read_around, read_around_chroma, read_left_of, read_top_of,
    rows, top_chroma, top_entry, top_of,
};
use crate::residual::{chroma_levels_fit, ChromaLevels, ChromaResidual};
use crate::transform::{ints, within};

verus! {

/// Symbols so far, and which blocks hold anything.
#[derive(Debug)]
pub struct Symbols {
    /// The symbols.
    pub bins: Vec<Bin>,
    /// The patterns of the macroblocks.
    pub patterns: Vec<u8>,
    /// Whether the luma means of each macroblock hold anything.
    pub luma_dc: Vec<bool>,
    /// Whether the chroma means of each macroblock hold anything.
    pub chroma_dc: Vec<[bool; 2]>,
    /// Whether the luma blocks of each macroblock hold anything.
    pub luma: Vec<[bool; 16]>,
    /// Whether the chroma blocks of each macroblock hold anything, four for each plane.
    pub chroma: Vec<[bool; 8]>,
}

/// Symbols so far, and which blocks hold anything.
#[verifier::ext_equal]
pub struct Marked {
    /// The symbols.
    pub bins: Seq<Bin>,
    /// The patterns of the macroblocks.
    pub patterns: Seq<u8>,
    /// Whether the luma means of each macroblock hold anything.
    pub luma_dc: Seq<bool>,
    /// Whether the chroma means of each macroblock hold anything.
    pub chroma_dc: Seq<Seq<bool>>,
    /// Whether the luma blocks of each macroblock hold anything.
    pub luma: Seq<Seq<bool>>,
    /// Whether the chroma blocks of each macroblock hold anything.
    pub chroma: Seq<Seq<bool>>,
}

impl View for Symbols {
    type V = Marked;

    open spec fn view(&self) -> Marked {
        Marked {
            bins: self.bins@,
            patterns: self.patterns@,
            luma_dc: self.luma_dc@,
            chroma_dc: rows(self.chroma_dc@),
            luma: rows(self.luma@),
            chroma: rows(self.chroma@),
        }
    }
}

impl Marked {
    /// No symbols, and nothing held in `count` macroblocks.
    pub open spec fn blank(count: int) -> Marked {
        Marked {
            bins: Seq::empty(),
            patterns: Seq::new(count as nat, |a: int| 0u8),
            luma_dc: Seq::new(count as nat, |a: int| false),
            chroma_dc: Seq::new(count as nat, |a: int| Seq::new(2, |b: int| false)),
            luma: Seq::new(count as nat, |a: int| Seq::new(16, |b: int| false)),
            chroma: Seq::new(count as nat, |a: int| Seq::new(8, |b: int| false)),
        }
    }

    /// With more symbols.
    pub open spec fn plus(self, bins: Seq<Bin>) -> Marked {
        Marked { bins: self.bins + bins, ..self }
    }
}

/// Which probability says whether a block holds anything, by the blocks around it; `outside` stands
/// for blocks that do not exist.
pub open spec fn coded_slot(
    kind: BlockKind,
    left: Option<bool>,
    top: Option<bool>,
    outside: bool,
) -> int {
    kind.base() + unit(
        match left {
            Some(held) => held,
            None => outside,
        },
    ) + 2 * unit(
        match top {
            Some(held) => held,
            None => outside,
        },
    )
}

/// A block, and whether it holds anything.
#[verifier::opaque]
pub open spec fn marked_block_bins(kind: BlockKind, slot: int, levels: Seq<int>) -> Seq<Bin> {
    seq![decision(slot, any_nonzero(levels))] + if any_nonzero(levels) {
        block_bins(kind, levels)
    } else {
        Seq::empty()
    }
}

/// Finds which probability says whether a block holds anything.
fn find_coded_slot(kind: BlockKind, left: Option<bool>, top: Option<bool>, outside: bool) -> (slot:
    usize)
    ensures
        slot == coded_slot(kind, left, top, outside),
        slot < SLOT_COUNT,
{
    let a = match left {
        Some(held) => held,
        None => outside,
    };
    let b = match top {
        Some(held) => held,
        None => outside,
    };
    kind.first_slot() + flag(a) + 2 * flag(b)
}

/// Appends a block, and whether it holds anything.
fn push_marked_block(bins: &mut Vec<Bin>, kind: BlockKind, slot: usize, levels: &[i32]) -> (held:
    bool)
    requires
        slot < SLOT_COUNT,
        1 <= levels@.len() <= 16,
        within(ints(levels@), 0x800_0000),
        inner_bins(old(bins)@),
    ensures
        held == any_nonzero(ints(levels@)),
        final(bins)@ == old(bins)@ + marked_block_bins(kind, slot as int, ints(levels@)),
        inner_bins(final(bins)@),
{
    reveal(marked_block_bins);
    let held = holds_nonzero(levels);
    push_decision(bins, slot, held);
    if held {
        proof {
            let numbers = ints(levels@);
            assert forall|i: int| 0 <= i < levels@.len() implies #[trigger] levels@[i]
                > i32::MIN by {
                assert(numbers[i] == levels@[i]);
            }
            let place = choose|i: int| 0 <= i < numbers.len() && #[trigger] numbers[i] != 0;
            assert(levels@[place] != 0);
        }
        encode_cabac_residual_block(bins, kind, levels);
    }
    assert(bins@ =~= old(bins)@ + marked_block_bins(kind, slot as int, ints(levels@)));
    held
}

/// Entries with one of them replaced.
pub open spec fn with_mark(entries: Seq<Seq<bool>>, address: int, block: int, held: bool) -> Seq<
    Seq<bool>,
> {
    entries.update(address, entries[address].update(block, held))
}

/// Replaces an entry.
fn set_mark<const N: usize>(entries: &mut Vec<[bool; N]>, address: usize, block: usize, held: bool)
    requires
        address < old(entries)@.len(),
        block < N,
    ensures
        rows(final(entries)@) == with_mark(
            rows(old(entries)@),
            address as int,
            block as int,
            held,
        ),
        final(entries)@.len() == old(entries)@.len(),
{
    let ghost before = rows(entries@);
    let mut row: [bool; N] = entries[address];
    row[block] = held;
    entries.set(address, row);
    proof {
        let after = rows(entries@);
        assert(after[address as int] =~= before[address as int].update(block as int, held));
        assert(after =~= with_mark(before, address as int, block as int, held));
    }
}

/// Symbols after the first `count` luma blocks of a macroblock.
pub open spec fn luma_marked(
    before: Marked,
    address: int,
    wide: int,
    kind: BlockKind,
    levels: Seq<Seq<int>>,
    pattern: int,
    outside: bool,
    count: int,
) -> Marked
    decreases count,
{
    if count <= 0 {
        before
    } else {
        let block = count - 1;
        let state = luma_marked(before, address, wide, kind, levels, pattern, outside, block);
        if quarter_marked(pattern, block) {
            let slot = coded_slot(
                kind,
                left_entry(state.luma, address, block, wide),
                top_entry(state.luma, address, block, wide),
                outside,
            );
            Marked {
                bins: state.bins + marked_block_bins(kind, slot, levels[block]),
                luma: with_mark(state.luma, address, block, any_nonzero(levels[block])),
                ..state
            }
        } else {
            state
        }
    }
}

/// Symbols after the first `count` large luma blocks of a macroblock.
pub open spec fn large_marked(
    before: Marked,
    address: int,
    levels: Seq<Seq<int>>,
    pattern: int,
    count: int,
) -> Marked
    decreases count,
{
    if count <= 0 {
        before
    } else {
        let group = count - 1;
        let state = large_marked(before, address, levels, pattern, group);
        if quarter_marked(pattern, 4 * group) {
            Marked {
                bins: state.bins + block_bins(BlockKind::Luma8x8, levels[group]),
                luma: state.luma.update(
                    address,
                    Seq::new(
                        16,
                        |b: int|
                            if b / 4 == group {
                                true
                            } else {
                                state.luma[address][b]
                            },
                    ),
                ),
                ..state
            }
        } else {
            state
        }
    }
}

/// Symbols after the chroma means of the first `count` planes of a macroblock.
pub open spec fn means_marked(
    before: Marked,
    address: int,
    wide: int,
    levels: Seq<ChromaLevels>,
    outside: bool,
    count: int,
) -> Marked
    decreases count,
{
    if count <= 0 {
        before
    } else {
        let plane = count - 1;
        let state = means_marked(before, address, wide, levels, outside, plane);
        let slot = coded_slot(
            BlockKind::ChromaDc,
            match left_of(state.chroma_dc, address, wide) {
                Some(row) => Some(row[plane]),
                None => None,
            },
            match top_of(state.chroma_dc, address, wide) {
                Some(row) => Some(row[plane]),
                None => None,
            },
            outside,
        );
        Marked {
            bins: state.bins + marked_block_bins(BlockKind::ChromaDc, slot, levels[plane].dc),
            chroma_dc: with_mark(
                state.chroma_dc,
                address,
                plane,
                any_nonzero(levels[plane].dc),
            ),
            ..state
        }
    }
}

/// Symbols after the first `count` chroma blocks of a macroblock, four for each plane.
pub open spec fn chroma_blocks_marked(
    before: Marked,
    address: int,
    wide: int,
    levels: Seq<ChromaLevels>,
    outside: bool,
    count: int,
) -> Marked
    decreases count,
{
    if count <= 0 {
        before
    } else {
        let plane = (count - 1) / 4;
        let block = (count - 1) % 4;
        let state = chroma_blocks_marked(before, address, wide, levels, outside, count - 1);
        let slot = coded_slot(
            BlockKind::ChromaAc,
            left_chroma(state.chroma, address, plane, block, wide),
            top_chroma(state.chroma, address, plane, block, wide),
            outside,
        );
        Marked {
            bins: state.bins + marked_block_bins(
                BlockKind::ChromaAc,
                slot,
                levels[plane].ac[block],
            ),
            chroma: with_mark(
                state.chroma,
                address,
                4 * plane + block,
                any_nonzero(levels[plane].ac[block]),
            ),
            ..state
        }
    }
}

/// Symbols after the chroma blocks of a macroblock.
pub open spec fn chroma_marked(
    before: Marked,
    address: int,
    wide: int,
    cb: ChromaLevels,
    cr: ChromaLevels,
    pattern: int,
    outside: bool,
) -> Marked {
    let levels = seq![cb, cr];
    let means = if pattern != 0 {
        means_marked(before, address, wide, levels, outside, 2)
    } else {
        before
    };
    if pattern == 2 {
        chroma_blocks_marked(means, address, wide, levels, outside, 8)
    } else {
        means
    }
}

/// Symbols after the luma means of a macroblock.
pub open spec fn luma_means_marked(
    before: Marked,
    address: int,
    wide: int,
    levels: Seq<int>,
) -> Marked {
    let slot = coded_slot(
        BlockKind::LumaDc,
        left_of(before.luma_dc, address, wide),
        top_of(before.luma_dc, address, wide),
        true,
    );
    Marked {
        bins: before.bins + marked_block_bins(BlockKind::LumaDc, slot, levels),
        luma_dc: before.luma_dc.update(address, any_nonzero(levels)),
        ..before
    }
}

/// A pattern, or the one that stands for a macroblock that does not exist.
pub open spec fn pattern_or_outside(pattern: Option<u8>) -> int {
    match pattern {
        Some(found) => found as int,
        None => 15,
    }
}

/// Symbols after the pattern of a macroblock.
pub open spec fn pattern_marked(before: Marked, address: int, wide: int, pattern: u8) -> Marked {
    Marked {
        bins: before.bins + pattern_bins(
            pattern as int,
            pattern_or_outside(left_of(before.patterns, address, wide)),
            pattern_or_outside(top_of(before.patterns, address, wide)),
        ),
        patterns: before.patterns.update(address, pattern),
        ..before
    }
}

impl Symbols {
    /// Whether there are entries for `count` macroblocks, and the symbols stand inside a picture.
    pub open spec fn valid(&self, count: int) -> bool {
        &&& inner_bins(self.bins@)
        &&& self.patterns@.len() == count
        &&& self.luma_dc@.len() == count
        &&& self.chroma_dc@.len() == count
        &&& self.luma@.len() == count
        &&& self.chroma@.len() == count
    }

    /// No symbols, and nothing held in `count` macroblocks.
    pub fn new(count: usize) -> (symbols: Self)
        ensures
            symbols@ == Marked::blank(count as int),
            symbols.valid(count as int),
    {
        let symbols = Symbols {
            bins: Vec::new(),
            patterns: vec![0u8; count],
            luma_dc: vec![false; count],
            chroma_dc: vec![[false; 2]; count],
            luma: vec![[false; 16]; count],
            chroma: vec![[false; 8]; count],
        };
        proof {
            let blank = Marked::blank(count as int);
            assert(symbols@.bins =~= blank.bins);
            assert(symbols@.patterns =~= blank.patterns);
            assert(symbols@.luma_dc =~= blank.luma_dc);
            assert(symbols@.chroma_dc =~~= blank.chroma_dc);
            assert(symbols@.luma =~~= blank.luma);
            assert(symbols@.chroma =~~= blank.chroma);
        }
        symbols
    }

    /// Appends the luma blocks of a macroblock whose quarters are marked in a pattern.
    pub fn push_luma_blocks<const N: usize>(
        &mut self,
        address: usize,
        wide: usize,
        kind: BlockKind,
        levels: &[[i32; N]; 16],
        pattern: u8,
        outside: bool,
    )
        requires
            N == 15 || N == 16,
            old(self).valid(old(self).luma@.len() as int),
            address < old(self).luma@.len(),
            0 < wide,
            forall|b: int| 0 <= b < 16 ==> within(ints((#[trigger] levels@[b])@), 0x10_0000),
        ensures
            final(self)@ == luma_marked(
                old(self)@,
                address as int,
                wide as int,
                kind,
                block_numbers(levels@),
                pattern as int,
                outside,
                16,
            ),
            final(self).valid(old(self).luma@.len() as int),
    {
        let ghost start = self@;
        let ghost numbers = block_numbers(levels@);
        let ghost count = self.luma@.len() as int;
        let mut block: usize = 0;
        while block < 16
            invariant
                block <= 16,
                N == 15 || N == 16,
                self.valid(count),
                address < count,
                0 < wide,
                numbers == block_numbers(levels@),
                forall|b: int| 0 <= b < 16 ==> within(ints((#[trigger] levels@[b])@), 0x10_0000),
                self@ == luma_marked(
                    start,
                    address as int,
                    wide as int,
                    kind,
                    numbers,
                    pattern as int,
                    outside,
                    block as int,
                ),
            decreases 16 - block,
        {
            if is_quarter_marked(pattern, block) {
                let (left, top) = read_around(self.luma.as_slice(), address, block, wide);
                let slot: usize = find_coded_slot(kind, left, top, outside);
                proof {
                    assert(within(ints(levels@[block as int]@), 0x10_0000));
                    assert(numbers[block as int] == ints(levels@[block as int]@));
                    lemma_within(ints(levels@[block as int]@));
                }
                let held = push_marked_block(&mut self.bins, kind, slot, levels[block].as_slice());
                set_mark(&mut self.luma, address, block, held);
            }
            block = block + 1;
        }
    }

    /// Appends the large luma blocks of a macroblock whose quarters are marked in a pattern.
    pub fn push_large_blocks(&mut self, address: usize, levels: &[[i32; 64]; 4], pattern: u8)
        requires
            old(self).valid(old(self).luma@.len() as int),
            address < old(self).luma@.len(),
            forall|b: int| 0 <= b < 4 ==> within(ints((#[trigger] levels@[b])@), 0x10_0000),
            forall|b: int|
                0 <= b < 4 && quarter_marked(pattern as int, 4 * b) ==> any_nonzero(
                    ints((#[trigger] levels@[b])@),
                ),
        ensures
            final(self)@ == large_marked(
                old(self)@,
                address as int,
                quarter_ints(levels@),
                pattern as int,
                4,
            ),
            final(self).valid(old(self).luma@.len() as int),
    {
        let ghost start = self@;
        let ghost numbers = quarter_ints(levels@);
        let ghost count = self.luma@.len() as int;
        let mut group: usize = 0;
        while group < 4
            invariant
                group <= 4,
                self.valid(count),
                address < count,
                numbers == quarter_ints(levels@),
                forall|b: int| 0 <= b < 4 ==> within(ints((#[trigger] levels@[b])@), 0x10_0000),
                forall|b: int|
                    0 <= b < 4 && quarter_marked(pattern as int, 4 * b) ==> any_nonzero(
                        ints((#[trigger] levels@[b])@),
                    ),
                self@ == large_marked(start, address as int, numbers, pattern as int, group as int),
            decreases 4 - group,
        {
            if is_quarter_marked(pattern, 4 * group) {
                let ghost before = self@;
                proof {
                    let values = levels@[group as int]@;
                    let these = ints(values);
                    assert(within(these, 0x10_0000));
                    assert(numbers[group as int] == these);
                    assert forall|i: int| 0 <= i < values.len() implies #[trigger] values[i]
                        > i32::MIN by {
                        assert(these[i] == values[i]);
                    }
                    assert(any_nonzero(these));
                    let place = choose|i: int| 0 <= i < these.len() && #[trigger] these[i] != 0;
                    assert(values[place] != 0);
                }
                encode_cabac_residual_block(
                    &mut self.bins,
                    BlockKind::Luma8x8,
                    levels[group].as_slice(),
                );
                set_mark(&mut self.luma, address, 4 * group, true);
                set_mark(&mut self.luma, address, 4 * group + 1, true);
                set_mark(&mut self.luma, address, 4 * group + 2, true);
                set_mark(&mut self.luma, address, 4 * group + 3, true);
                proof {
                    let row = Seq::new(
                        16,
                        |b: int|
                            if b / 4 == group {
                                true
                            } else {
                                before.luma[address as int][b]
                            },
                    );
                    assert(self@.luma[address as int] =~= row);
                    assert(self@.luma =~= before.luma.update(address as int, row));
                }
            }
            group = group + 1;
        }
    }

    /// Appends the chroma means of a macroblock.
    fn push_chroma_means(
        &mut self,
        address: usize,
        wide: usize,
        residuals: &[ChromaResidual; 2],
        outside: bool,
    )
        requires
            old(self).valid(old(self).luma@.len() as int),
            address < old(self).luma@.len(),
            0 < wide,
            chroma_levels_fit(residuals@[0]@),
            chroma_levels_fit(residuals@[1]@),
        ensures
            final(self)@ == means_marked(
                old(self)@,
                address as int,
                wide as int,
                seq![residuals@[0]@, residuals@[1]@],
                outside,
                2,
            ),
            final(self).valid(old(self).luma@.len() as int),
    {
        let ghost start = self@;
        let ghost levels = seq![residuals@[0]@, residuals@[1]@];
        let ghost count = self.luma@.len() as int;
        let mut plane: usize = 0;
        while plane < 2
            invariant
                plane <= 2,
                self.valid(count),
                address < count,
                0 < wide,
                levels == seq![residuals@[0]@, residuals@[1]@],
                chroma_levels_fit(residuals@[0]@),
                chroma_levels_fit(residuals@[1]@),
                self@ == means_marked(
                    start,
                    address as int,
                    wide as int,
                    levels,
                    outside,
                    plane as int,
                ),
            decreases 2 - plane,
        {
            let left: Option<bool> = match read_left_of(self.chroma_dc.as_slice(), address, wide) {
                Some(row) => Some(row[plane]),
                None => None,
            };
            let top: Option<bool> = match read_top_of(self.chroma_dc.as_slice(), address, wide) {
                Some(row) => Some(row[plane]),
                None => None,
            };
            let slot: usize = find_coded_slot(BlockKind::ChromaDc, left, top, outside);
            proof {
                let entries = rows(self.chroma_dc@);
                if address as int % wide as int != 0 {
                    if address == 0 {
                        vstd::arithmetic::div_mod::lemma_small_mod(0, wide as nat);
                    }
                    assert(entries[address - 1] == self.chroma_dc@[address - 1]@);
                }
                if address >= wide {
                    assert(entries[address - wide] == self.chroma_dc@[address - wide]@);
                }
            }
            assert(levels[plane as int].dc == ints(residuals@[plane as int].dc@));
            let held = push_marked_block(
                &mut self.bins,
                BlockKind::ChromaDc,
                slot,
                residuals[plane].dc.as_slice(),
            );
            set_mark(&mut self.chroma_dc, address, plane, held);
            plane = plane + 1;
        }
    }

    /// Appends the chroma blocks of a macroblock without their means.
    fn push_chroma_blocks(
        &mut self,
        address: usize,
        wide: usize,
        residuals: &[ChromaResidual; 2],
        outside: bool,
    )
        requires
            old(self).valid(old(self).luma@.len() as int),
            address < old(self).luma@.len(),
            0 < wide,
            chroma_levels_fit(residuals@[0]@),
            chroma_levels_fit(residuals@[1]@),
        ensures
            final(self)@ == chroma_blocks_marked(
                old(self)@,
                address as int,
                wide as int,
                seq![residuals@[0]@, residuals@[1]@],
                outside,
                8,
            ),
            final(self).valid(old(self).luma@.len() as int),
    {
        let ghost start = self@;
        let ghost levels = seq![residuals@[0]@, residuals@[1]@];
        let ghost count = self.luma@.len() as int;
        let mut index: usize = 0;
        while index < 8
            invariant
                index <= 8,
                self.valid(count),
                address < count,
                0 < wide,
                levels == seq![residuals@[0]@, residuals@[1]@],
                chroma_levels_fit(residuals@[0]@),
                chroma_levels_fit(residuals@[1]@),
                self@ == chroma_blocks_marked(
                    start,
                    address as int,
                    wide as int,
                    levels,
                    outside,
                    index as int,
                ),
            decreases 8 - index,
        {
            let plane: usize = index / 4;
            let block: usize = index % 4;
            let (left, top) = read_around_chroma(
                self.chroma.as_slice(),
                address,
                plane,
                block,
                wide,
            );
            let slot: usize = find_coded_slot(BlockKind::ChromaAc, left, top, outside);
            proof {
                assert(levels[plane as int].ac[block as int] == ints(
                    residuals@[plane as int].ac@[block as int]@,
                ));
                assert(chroma_levels_fit(levels[plane as int]));
            }
            let held = push_marked_block(
                &mut self.bins,
                BlockKind::ChromaAc,
                slot,
                residuals[plane].ac[block].as_slice(),
            );
            set_mark(&mut self.chroma, address, 4 * plane + block, held);
            index = index + 1;
        }
    }

    /// Appends the chroma blocks of a macroblock.
    pub fn push_chroma(
        &mut self,
        address: usize,
        wide: usize,
        residuals: &[ChromaResidual; 2],
        pattern: u8,
        outside: bool,
    )
        requires
            old(self).valid(old(self).luma@.len() as int),
            address < old(self).luma@.len(),
            0 < wide,
            chroma_levels_fit(residuals@[0]@),
            chroma_levels_fit(residuals@[1]@),
        ensures
            final(self)@ == chroma_marked(
                old(self)@,
                address as int,
                wide as int,
                residuals@[0]@,
                residuals@[1]@,
                pattern as int,
                outside,
            ),
            final(self).valid(old(self).luma@.len() as int),
    {
        if pattern != 0 {
            self.push_chroma_means(address, wide, residuals, outside);
        }
        if pattern == 2 {
            self.push_chroma_blocks(address, wide, residuals, outside);
        }
    }

    /// Appends the luma means of a macroblock.
    pub fn push_luma_means(&mut self, address: usize, wide: usize, levels: &[i32; 16])
        requires
            old(self).valid(old(self).luma@.len() as int),
            address < old(self).luma@.len(),
            0 < wide,
            within(ints(levels@), 0x800_0000),
        ensures
            final(self)@ == luma_means_marked(
                old(self)@,
                address as int,
                wide as int,
                ints(levels@),
            ),
            final(self).valid(old(self).luma@.len() as int),
    {
        let left: Option<bool> = read_left_of(self.luma_dc.as_slice(), address, wide);
        let top: Option<bool> = read_top_of(self.luma_dc.as_slice(), address, wide);
        let slot: usize = find_coded_slot(BlockKind::LumaDc, left, top, true);
        let held = push_marked_block(&mut self.bins, BlockKind::LumaDc, slot, levels.as_slice());
        self.luma_dc.set(address, held);
    }

    /// Appends the pattern of a macroblock.
    pub fn push_pattern(&mut self, address: usize, wide: usize, pattern: u8)
        requires
            old(self).valid(old(self).luma@.len() as int),
            address < old(self).luma@.len(),
            0 < wide,
        ensures
            final(self)@ == pattern_marked(old(self)@, address as int, wide as int, pattern),
            final(self).valid(old(self).luma@.len() as int),
    {
        let left: u8 = match read_left_of(self.patterns.as_slice(), address, wide) {
            Some(found) => found,
            None => 15,
        };
        let top: u8 = match read_top_of(self.patterns.as_slice(), address, wide) {
            Some(found) => found,
            None => 15,
        };
        encode_cabac_coded_block_pattern(&mut self.bins, pattern, left, top);
        self.patterns.set(address, pattern);
    }
}

proof fn lemma_within(values: Seq<int>)
    requires
        within(values, 0x10_0000),
    ensures
        within(values, 0x800_0000),
{
}

} // verus!
