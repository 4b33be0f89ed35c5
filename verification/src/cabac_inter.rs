//! What all predicted pictures that are written with arithmetic coding have in common.

use vstd::prelude::*;

use crate::arithmetic::Bin;
use crate::bins::{
    decision, encode_cabac_macroblock_qp_delta, flag, push_decision, BlockKind, TRANSFORM_SIZE,
};
use crate::cabac_intra::{delta_marked, lemma_large_pattern, transform_slot};
use crate::cavlc_syntax::{block_numbers, quarter_marked};
use crate::inter_bins::{find_skip_slot, skip_slot};
use crate::inter_coding::InterCoded;
use crate::inter_residual::{
    any_nonzero, block_ints, chroma_pattern, luma_pattern, quarter_ints, InterLumaResidual,
    LumaLevels,
};
use crate::marks::{chroma_marked, large_marked, luma_marked, pattern_marked, Marked, Symbols};
use crate::neighbors::{left_of, read_left_of, read_top_of, top_of};
use crate::picture::{Planes, Samples};
use crate::quantize::quantizer;
use crate::quantizers::{macroblock_qp_delta, qp_delta};
use crate::residual::{chroma_levels_fit, ChromaResidual};
use crate::transform::ints;

verus! {

/// A predicted picture while it becomes symbols.
#[derive(Debug)]
pub struct InterCoder {
    /// Symbols, and which blocks hold anything.
    pub symbols: Symbols,
    /// The coded samples.
    pub planes: Planes,
    /// Which macroblocks are not coded.
    pub skipped: Vec<bool>,
    /// Which macroblocks have eight-by-eight transforms.
    pub transforms: Vec<bool>,
    /// The last quantizer that was written.
    pub previous_qp: i32,
    /// The last change of the quantizer.
    pub previous_delta: i32,
}

/// A predicted picture while it becomes symbols.
#[verifier::ext_equal]
pub struct InterState {
    /// Symbols, and which blocks hold anything.
    pub marked: Marked,
    /// The coded samples.
    pub planes: Samples,
    /// Which macroblocks are not coded.
    pub skipped: Seq<bool>,
    /// Which macroblocks have eight-by-eight transforms.
    pub transforms: Seq<bool>,
    /// The last quantizer that was written.
    pub previous_qp: int,
    /// The last change of the quantizer.
    pub previous_delta: int,
}

impl View for InterCoder {
    type V = InterState;

    open spec fn view(&self) -> InterState {
        InterState {
            marked: self.symbols@,
            planes: self.planes@,
            skipped: self.skipped@,
            transforms: self.transforms@,
            previous_qp: self.previous_qp as int,
            previous_delta: self.previous_delta as int,
        }
    }
}

impl InterState {
    /// With more symbols.
    pub open spec fn plus(self, bins: Seq<Bin>) -> InterState {
        InterState { marked: self.marked.plus(bins), ..self }
    }

    /// With other symbols.
    pub open spec fn with_bins(self, bins: Seq<Bin>) -> InterState {
        InterState { marked: Marked { bins, ..self.marked }, ..self }
    }

    /// After it is said whether a macroblock is coded.
    pub open spec fn told_skip(self, address: int, wide: int, skip: bool) -> InterState {
        self.plus(
            seq![
                decision(
                    skip_slot(
                        left_of(self.skipped, address, wide),
                        top_of(self.skipped, address, wide),
                    ),
                    skip,
                ),
            ],
        )
    }

    /// After a macroblock that is not coded.
    pub open spec fn after_skip(self, address: int) -> InterState {
        InterState { skipped: self.skipped.update(address, true), previous_delta: 0, ..self }
    }

    /// After the pattern, the transform size, and the quantizer of a macroblock.
    pub open spec fn told_pattern(
        self,
        address: int,
        wide: int,
        allowed: bool,
        coded: InterCoded,
        qp: int,
    ) -> InterState {
        let luma_marks = luma_pattern(coded.luma);
        let pattern = luma_marks + 16 * chroma_pattern(coded.cb, coded.cr);
        let large = coded.luma is EightByEight;
        let delta = qp_delta(self.previous_qp, qp);
        let first = pattern_marked(self.marked, address, wide, pattern as u8);
        let sized = if allowed && luma_marks != 0 {
            first.plus(seq![decision(transform_slot(self.transforms, address, wide), large)])
        } else {
            first
        };
        InterState {
            marked: delta_marked(sized, pattern, delta, self.previous_delta),
            transforms: if allowed && luma_marks != 0 {
                self.transforms.update(address, large)
            } else {
                self.transforms
            },
            previous_qp: if pattern != 0 {
                qp
            } else {
                self.previous_qp
            },
            previous_delta: if pattern != 0 {
                delta
            } else {
                0
            },
            ..self
        }
    }

    /// After the residual of a macroblock.
    pub open spec fn told_residual(self, address: int, wide: int, coded: InterCoded) -> InterState {
        let luma_marks = luma_pattern(coded.luma);
        let luma = match coded.luma {
            LumaLevels::FourByFour(blocks) => luma_marked(
                self.marked,
                address,
                wide,
                BlockKind::Luma4x4,
                blocks,
                luma_marks,
                false,
                16,
            ),
            LumaLevels::BypassFourByFour(blocks) => luma_marked(
                self.marked,
                address,
                wide,
                BlockKind::Luma4x4,
                blocks,
                luma_marks,
                false,
                16,
            ),
            LumaLevels::EightByEight(blocks) => large_marked(
                self.marked,
                address,
                blocks,
                luma_marks,
                4,
            ),
        };
        InterState {
            marked: chroma_marked(
                luma,
                address,
                wide,
                coded.cb,
                coded.cr,
                chroma_pattern(coded.cb, coded.cr),
                false,
            ),
            ..self
        }
    }

    /// A picture that goes on after its first `count` macroblocks.
    pub open spec fn going_on(self, count: int) -> InterState {
        if count > 0 {
            self.plus(seq![Bin::Terminate(false)])
        } else {
            self
        }
    }

    /// A picture without symbols, with the samples of another one.
    pub open spec fn blank(planes: Samples, count: int, qp: int) -> InterState {
        InterState {
            marked: Marked::blank(count),
            planes,
            skipped: Seq::new(count as nat, |a: int| false),
            transforms: Seq::new(count as nat, |a: int| false),
            previous_qp: qp,
            previous_delta: 0,
        }
    }
}

impl InterCoder {
    /// Whether there are entries for `count` macroblocks, and the quantizer is one.
    pub open spec fn sized(&self, count: int) -> bool {
        &&& self.symbols.valid(count)
        &&& self.skipped@.len() == count
        &&& self.transforms@.len() == count
        &&& quantizer(self.previous_qp as int)
    }

    /// A picture without symbols, with the samples of another one.
    pub fn start(planes: &Planes, count: usize, qp: i32) -> (coder: Self)
        requires
            quantizer(qp as int),
        ensures
            coder@ == InterState::blank(planes@, count as int, qp as int),
            coder.sized(count as int),
    {
        let coder = InterCoder {
            symbols: Symbols::new(count),
            planes: planes.clone(),
            skipped: vec![false; count],
            transforms: vec![false; count],
            previous_qp: qp,
            previous_delta: 0,
        };
        proof {
            let blank = InterState::blank(planes@, count as int, qp as int);
            assert(coder@.skipped =~= blank.skipped);
            assert(coder@.transforms =~= blank.transforms);
        }
        coder
    }

    /// Says that the picture goes on, unless it has just begun.
    pub fn go_on(&mut self, address: usize)
        requires
            old(self).sized(old(self).skipped@.len() as int),
        ensures
            final(self)@ == old(self)@.going_on(address as int),
            final(self).sized(old(self).skipped@.len() as int),
            final(self).planes == old(self).planes,
    {
        if address > 0 {
            let ghost before = self.symbols.bins@;
            self.symbols.bins.push(Bin::Terminate(false));
            assert(self.symbols.bins@ =~= before + seq![Bin::Terminate(false)]);
        }
    }

    /// Says whether a macroblock is coded.
    pub fn tell_skip(&mut self, address: usize, wide: usize, skip: bool)
        requires
            old(self).sized(old(self).skipped@.len() as int),
            address < old(self).skipped@.len(),
            0 < wide,
        ensures
            final(self)@ == (if skip {
                old(self)@.told_skip(address as int, wide as int, true).after_skip(address as int)
            } else {
                old(self)@.told_skip(address as int, wide as int, false)
            }),
            final(self).sized(old(self).skipped@.len() as int),
            final(self).planes == old(self).planes,
    {
        let left: Option<bool> = read_left_of(self.skipped.as_slice(), address, wide);
        let top: Option<bool> = read_top_of(self.skipped.as_slice(), address, wide);
        let slot: usize = find_skip_slot(left, top);
        let ghost before = self.symbols.bins@;
        push_decision(&mut self.symbols.bins, slot, skip);
        assert(self.symbols.bins@ =~= before + seq![decision(slot as int, skip)]);
        if skip {
            self.skipped.set(address, true);
            self.previous_delta = 0;
        }
    }

    /// Appends the pattern, the transform size, and the quantizer of a macroblock.
    pub fn tell_pattern(
        &mut self,
        address: usize,
        wide: usize,
        allowed: bool,
        large: bool,
        luma_marks: u8,
        chroma_marks: u8,
        qp: i32,
        Ghost(coded): Ghost<InterCoded>,
    )
        requires
            old(self).sized(old(self).skipped@.len() as int),
            address < old(self).skipped@.len(),
            0 < wide,
            quantizer(qp as int),
            luma_marks == luma_pattern(coded.luma),
            chroma_marks == chroma_pattern(coded.cb, coded.cr),
            large == (coded.luma is EightByEight),
            luma_marks <= 15,
            chroma_marks <= 2,
        ensures
            final(self)@ == old(self)@.told_pattern(
                address as int,
                wide as int,
                allowed,
                coded,
                qp as int,
            ),
            final(self).sized(old(self).skipped@.len() as int),
            final(self).planes == old(self).planes,
    {
        let pattern: u8 = luma_marks + chroma_marks * 16;
        self.symbols.push_pattern(address, wide, pattern);
        if allowed && luma_marks != 0 {
            let left = match read_left_of(self.transforms.as_slice(), address, wide) {
                Some(found) => found,
                None => false,
            };
            let top = match read_top_of(self.transforms.as_slice(), address, wide) {
                Some(found) => found,
                None => false,
            };
            let slot: usize = TRANSFORM_SIZE + flag(left) + flag(top);
            let ghost before = self.symbols.bins@;
            push_decision(&mut self.symbols.bins, slot, large);
            assert(self.symbols.bins@ =~= before + seq![decision(slot as int, large)]);
            self.transforms.set(address, large);
        }
        if pattern == 0 {
            self.previous_delta = 0;
        } else {
            let delta: i32 = macroblock_qp_delta(self.previous_qp, qp);
            encode_cabac_macroblock_qp_delta(&mut self.symbols.bins, delta, self.previous_delta);
            self.previous_delta = delta;
            self.previous_qp = qp;
        }
    }

    /// Appends the residual of a macroblock.
    pub fn encode_cabac_residuals(
        &mut self,
        address: usize,
        wide: usize,
        levels: &InterLumaResidual,
        residuals: &[ChromaResidual; 2],
        luma_marks: u8,
        chroma_marks: u8,
        Ghost(coded): Ghost<InterCoded>,
    )
        requires
            old(self).sized(old(self).skipped@.len() as int),
            address < old(self).skipped@.len(),
            0 < wide,
            levels.fits(),
            chroma_levels_fit(residuals@[0]@),
            chroma_levels_fit(residuals@[1]@),
            coded.luma == levels@,
            coded.cb == residuals@[0]@,
            coded.cr == residuals@[1]@,
            luma_marks == luma_pattern(coded.luma),
            chroma_marks == chroma_pattern(coded.cb, coded.cr),
        ensures
            final(self)@ == old(self)@.told_residual(address as int, wide as int, coded),
            final(self).sized(old(self).skipped@.len() as int),
            final(self).planes == old(self).planes,
    {
        match levels {
            InterLumaResidual::FourByFour(blocks) => {
                assert(block_numbers((**blocks)@) =~= block_ints((**blocks)@));
                self.symbols.push_luma_blocks(
                    address,
                    wide,
                    BlockKind::Luma4x4,
                    &**blocks,
                    luma_marks,
                    false,
                );
            },
            InterLumaResidual::BypassFourByFour(blocks) => {
                assert(block_numbers((**blocks)@) =~= block_ints((**blocks)@));
                self.symbols.push_luma_blocks(
                    address,
                    wide,
                    BlockKind::Luma4x4,
                    &**blocks,
                    luma_marks,
                    false,
                );
            },
            InterLumaResidual::EightByEight(blocks) => {
                proof {
                    let numbers = quarter_ints((**blocks)@);
                    assert forall|b: int|
                        0 <= b < 4 && quarter_marked(luma_marks as int, 4 * b) implies any_nonzero(
                        ints((#[trigger] (**blocks)@[b])@),
                    ) by {
                        lemma_large_pattern(numbers, b);
                        assert(numbers[b] == ints((**blocks)@[b]@));
                    }
                }
                self.symbols.push_large_blocks(address, &**blocks, luma_marks);
            },
        }
        self.symbols.push_chroma(address, wide, residuals, chroma_marks, false);
    }
}

} // verus!
