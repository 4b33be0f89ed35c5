//! Pictures that stand alone and are written with arithmetic coding.

use vstd::prelude::*;

use crate::arithmetic::Bin;
use crate::bins::{
    chroma_mode_bins, decision, encode_cabac_chroma_prediction_mode, encode_cabac_i_macroblock_type,
    encode_cabac_luma_mode, encode_cabac_macroblock_qp_delta, flag, luma_mode_bins, push_decision,
    qp_delta_bins, type_i_bins, BlockKind, TRANSFORM_SIZE,
};
use crate::bits::{aligned, packed, BitWriter};
use crate::cavlc_intra::{
    ac_holds_nonzero, any_block_nonzero, quarter_modes, spread_modes, whole_type,
};
use crate::cavlc_syntax::block_numbers;
use crate::config::{Configuration, EncoderMode};
use crate::contexts::{encode_picture_bins, picture_bytes};
use crate::frame::{
    frame_fits, padded_planes, padded_samples, visible, visible_frame, FrameModel, VideoFrame,
};
use crate::framing::{make_nal, nal_of};
use crate::idr::{
    blank_planes, blank_samples, idr_header, idr_site, motionless, no_motion, uses_intra4,
    write_idr_header, EncodedFrame, EncodedModel,
};
use crate::inter_residual::{
    block_ints, chroma_coded_block_pattern, chroma_pattern, luma_coded_block_pattern, luma_pattern,
    quarter_ints, InterLumaResidual, LumaLevels,
};
use crate::intra_coding::{
    chroma_coded_intra, code_intra16_luma, code_intra4_luma, code_intra8_luma, code_intra_chroma,
    luma_coded_16, luma_coded_4, luma_coded_8,
};
use crate::marks::{
    chroma_marked, large_marked, luma_marked, luma_means_marked, pattern_marked, Marked, Symbols,
};
use crate::math::unit;
use crate::neighbors::{
    left_of, predicted_intra4_mode, predicted_mode, read_left_of, read_top_of, rows, top_of,
};
use crate::picture::{lemma_plane_size, planes_fit, Planes, Samples, Site, SiteModel};
use crate::quantize::quantizer;
use crate::quantizers::{adaptive_macroblock_qps, adaptive_qps, macroblock_qp_delta, qp_delta};
use crate::reconstruct::ac_ints;

verus! {

/// A picture that stands alone while it becomes symbols.
#[derive(Debug)]
pub struct IntraCoder {
    /// Symbols, and which blocks hold anything.
    pub symbols: Symbols,
    /// The coded samples.
    pub planes: Planes,
    /// The prediction modes of each macroblock's luma blocks.
    pub luma_modes: Vec<[u8; 16]>,
    /// The chroma prediction modes of the macroblocks.
    pub chroma_modes: Vec<u8>,
    /// Which macroblocks have eight-by-eight transforms.
    pub transforms: Vec<bool>,
    /// The last quantizer that was written.
    pub previous_qp: i32,
    /// The last change of the quantizer.
    pub previous_delta: i32,
}

/// A picture that stands alone while it becomes symbols.
#[verifier::ext_equal]
pub struct IntraState {
    /// Symbols, and which blocks hold anything.
    pub marked: Marked,
    /// The coded samples.
    pub planes: Samples,
    /// The prediction modes of each macroblock's luma blocks.
    pub modes: Seq<Seq<u8>>,
    /// The chroma prediction modes of the macroblocks.
    pub chroma_modes: Seq<u8>,
    /// Which macroblocks have eight-by-eight transforms.
    pub transforms: Seq<bool>,
    /// The last quantizer that was written.
    pub previous_qp: int,
    /// The last change of the quantizer.
    pub previous_delta: int,
}

impl View for IntraCoder {
    type V = IntraState;

    open spec fn view(&self) -> IntraState {
        IntraState {
            marked: self.symbols@,
            planes: self.planes@,
            modes: rows(self.luma_modes@),
            chroma_modes: self.chroma_modes@,
            transforms: self.transforms@,
            previous_qp: self.previous_qp as int,
            previous_delta: self.previous_delta as int,
        }
    }
}

/// Which of the first probabilities a chroma prediction mode has, by the macroblocks around it.
pub open spec fn chroma_mode_increment(modes: Seq<u8>, address: int, wide: int) -> int {
    unit(left_of(modes, address, wide) matches Some(mode) && mode != 0) + unit(
        top_of(modes, address, wide) matches Some(mode) && mode != 0,
    )
}

/// Which probability a transform size has, by the macroblocks around it.
pub open spec fn transform_slot(transforms: Seq<bool>, address: int, wide: int) -> int {
    TRANSFORM_SIZE + unit(left_of(transforms, address, wide) == Some(true)) + unit(
        top_of(transforms, address, wide) == Some(true),
    )
}

/// The luma prediction modes of the first `count` of the blocks `0`, `step`, twice `step` and so on
/// of a macroblock.
pub open spec fn luma_modes_bins(
    modes: Seq<Seq<u8>>,
    address: int,
    wide: int,
    step: int,
    count: int,
) -> Seq<Bin>
    decreases count,
{
    if count <= 0 {
        Seq::empty()
    } else {
        let block = (count - 1) * step;
        luma_modes_bins(modes, address, wide, step, count - 1) + luma_mode_bins(
            modes[address][block] as int,
            predicted_mode(modes, address, block, wide),
        )
    }
}

/// Symbols after a change of the quantizer, which only a macroblock that holds anything has.
pub open spec fn delta_marked(before: Marked, pattern: int, delta: int, previous: int) -> Marked {
    if pattern != 0 {
        before.plus(qp_delta_bins(delta, previous))
    } else {
        before
    }
}

/// A picture after a macroblock that is predicted as a whole.
#[verifier::opaque]
pub open spec fn cabac_intra16_macroblock(state: IntraState, site: SiteModel) -> IntraState {
    let address = site.address();
    let wide = site.wide;
    let luma = luma_coded_16(site, state.planes.luma);
    let chroma = chroma_coded_intra(site, state.planes.cb, state.planes.cr);
    let luma_ac = any_block_nonzero(luma.ac);
    let chroma_marks = chroma_pattern(chroma.cb_levels, chroma.cr_levels);
    let delta = qp_delta(state.previous_qp, site.qp);
    let head = state.marked.plus(
        type_i_bins(
            whole_type(luma.mode as int, chroma_marks, luma_ac),
            unit(site.x != 0) + unit(site.y != 0),
        ),
    ).plus(
        chroma_mode_bins(
            chroma.mode as int,
            chroma_mode_increment(state.chroma_modes, address, wide),
        ),
    ).plus(qp_delta_bins(delta, state.previous_delta));
    IntraState {
        marked: chroma_marked(
            luma_marked(
                luma_means_marked(head, address, wide, luma.dc),
                address,
                wide,
                BlockKind::LumaAc,
                luma.ac,
                if luma_ac {
                    15
                } else {
                    0
                },
                true,
                16,
            ),
            address,
            wide,
            chroma.cb_levels,
            chroma.cr_levels,
            chroma_marks,
            true,
        ),
        planes: Samples { luma: luma.plane, cb: chroma.cb, cr: chroma.cr },
        chroma_modes: state.chroma_modes.update(address, chroma.mode),
        previous_qp: site.qp,
        previous_delta: delta,
        ..state
    }
}

/// Symbols of a macroblock that is predicted block by block, up to its residual.
pub open spec fn blockwise_marked(
    before: Marked,
    transform: Option<Bin>,
    modes: Seq<Bin>,
    chroma: Seq<Bin>,
    address: int,
    wide: int,
    pattern: u8,
    delta: int,
    previous: int,
) -> Marked {
    let start = before.plus(type_i_bins(0, 0));
    let sized = match transform {
        Some(bin) => start.plus(seq![bin]),
        None => start,
    };
    delta_marked(
        pattern_marked(sized.plus(modes).plus(chroma), address, wide, pattern),
        pattern as int,
        delta,
        previous,
    )
}

/// A picture after a macroblock that is predicted in four-by-four blocks.
#[verifier::opaque]
pub open spec fn cabac_intra4_macroblock(
    state: IntraState,
    site: SiteModel,
    transform_8x8_mode: bool,
) -> IntraState {
    let address = site.address();
    let wide = site.wide;
    let luma = luma_coded_4(site, state.planes.luma, 16);
    let chroma = chroma_coded_intra(site, state.planes.cb, state.planes.cr);
    let modes = state.modes.update(address, luma.modes);
    let luma_marks = luma_pattern(LumaLevels::FourByFour(luma.levels));
    let chroma_marks = chroma_pattern(chroma.cb_levels, chroma.cr_levels);
    let pattern = luma_marks + 16 * chroma_marks;
    let delta = qp_delta(state.previous_qp, site.qp);
    let head = blockwise_marked(
        state.marked,
        if transform_8x8_mode {
            Some(decision(transform_slot(state.transforms, address, wide), false))
        } else {
            None
        },
        luma_modes_bins(modes, address, wide, 1, 16),
        chroma_mode_bins(
            chroma.mode as int,
            chroma_mode_increment(state.chroma_modes, address, wide),
        ),
        address,
        wide,
        pattern as u8,
        delta,
        state.previous_delta,
    );
    IntraState {
        marked: chroma_marked(
            luma_marked(
                head,
                address,
                wide,
                BlockKind::Luma4x4,
                luma.levels,
                luma_marks,
                true,
                16,
            ),
            address,
            wide,
            chroma.cb_levels,
            chroma.cr_levels,
            chroma_marks,
            true,
        ),
        planes: Samples { luma: luma.plane, cb: chroma.cb, cr: chroma.cr },
        modes,
        chroma_modes: state.chroma_modes.update(address, chroma.mode),
        transforms: state.transforms,
        previous_qp: if pattern != 0 {
            site.qp
        } else {
            state.previous_qp
        },
        previous_delta: if pattern != 0 {
            delta
        } else {
            0
        },
    }
}

/// A picture after a macroblock that is predicted in eight-by-eight blocks.
#[verifier::opaque]
pub open spec fn cabac_intra8_macroblock(state: IntraState, site: SiteModel) -> IntraState {
    let address = site.address();
    let wide = site.wide;
    let luma = luma_coded_8(site, state.planes.luma, 4);
    let chroma = chroma_coded_intra(site, state.planes.cb, state.planes.cr);
    let modes = state.modes.update(address, quarter_modes(luma.modes));
    let luma_marks = luma_pattern(LumaLevels::EightByEight(luma.levels));
    let chroma_marks = chroma_pattern(chroma.cb_levels, chroma.cr_levels);
    let pattern = luma_marks + 16 * chroma_marks;
    let delta = qp_delta(state.previous_qp, site.qp);
    let head = blockwise_marked(
        state.marked,
        Some(decision(transform_slot(state.transforms, address, wide), true)),
        luma_modes_bins(modes, address, wide, 4, 4),
        chroma_mode_bins(
            chroma.mode as int,
            chroma_mode_increment(state.chroma_modes, address, wide),
        ),
        address,
        wide,
        pattern as u8,
        delta,
        state.previous_delta,
    );
    IntraState {
        marked: chroma_marked(
            large_marked(head, address, luma.levels, luma_marks, 4),
            address,
            wide,
            chroma.cb_levels,
            chroma.cr_levels,
            chroma_marks,
            true,
        ),
        planes: Samples { luma: luma.plane, cb: chroma.cb, cr: chroma.cr },
        modes,
        chroma_modes: state.chroma_modes.update(address, chroma.mode),
        transforms: state.transforms.update(address, true),
        previous_qp: if pattern != 0 {
            site.qp
        } else {
            state.previous_qp
        },
        previous_delta: if pattern != 0 {
            delta
        } else {
            0
        },
    }
}

/// A picture after one more macroblock.
pub open spec fn cabac_macroblock(
    configuration: Configuration,
    state: IntraState,
    site: SiteModel,
) -> IntraState {
    match configuration.mode {
        EncoderMode::Intra16 => cabac_intra16_macroblock(state, site),
        EncoderMode::Intra8 => cabac_intra8_macroblock(state, site),
        _ => cabac_intra4_macroblock(state, site, configuration.transform_8x8_mode),
    }
}

/// A picture that goes on after its first `count` macroblocks.
pub open spec fn going_on(state: IntraState, count: int) -> IntraState {
    if count > 0 {
        IntraState { marked: state.marked.plus(seq![Bin::Terminate(false)]), ..state }
    } else {
        state
    }
}

/// A picture after its first `count` macroblocks.
pub open spec fn cabac_coded(
    configuration: Configuration,
    source: Samples,
    qps: Seq<int>,
    start: IntraState,
    count: int,
) -> IntraState
    decreases count,
{
    if count <= 0 {
        start
    } else {
        cabac_macroblock(
            configuration,
            going_on(cabac_coded(configuration, source, qps, start, count - 1), count - 1),
            idr_site(configuration, source, qps, count - 1),
        )
    }
}

/// A picture without symbols.
pub open spec fn intra_start(wide: int, high: int, qp: int) -> IntraState {
    let count = (wide * high) as nat;
    IntraState {
        marked: Marked::blank(wide * high),
        planes: blank_samples(wide, high),
        modes: Seq::new(count, |a: int| Seq::new(16, |b: int| 2u8)),
        chroma_modes: Seq::new(count, |a: int| 0u8),
        transforms: Seq::new(count, |a: int| false),
        previous_qp: qp,
        previous_delta: 0,
    }
}

impl IntraCoder {
    /// Whether the picture has `wide` by `high` macroblocks and is in order.
    pub open spec fn valid(&self, wide: int, high: int) -> bool {
        &&& planes_fit(self.planes@, wide, high)
        &&& self.sized(wide * high)
        &&& quantizer(self.previous_qp as int)
    }

    /// Whether there are entries for `count` macroblocks.
    pub open spec fn sized(&self, count: int) -> bool {
        &&& self.symbols.valid(count)
        &&& self.luma_modes@.len() == count
        &&& self.chroma_modes@.len() == count
        &&& self.transforms@.len() == count
    }

    /// A picture without symbols.
    pub fn start(macroblocks_wide: usize, macroblocks_high: usize, qp: i32) -> (coder: Self)
        requires
            0 < macroblocks_wide,
            0 < macroblocks_high,
            (16 * macroblocks_wide) * (16 * macroblocks_high) <= usize::MAX,
            quantizer(qp as int),
        ensures
            coder@ == intra_start(macroblocks_wide as int, macroblocks_high as int, qp as int),
            coder.valid(macroblocks_wide as int, macroblocks_high as int),
    {
        proof {
            lemma_plane_size(macroblocks_wide as int, macroblocks_high as int, 16);
        }
        let count: usize = macroblocks_wide * macroblocks_high;
        let coder = IntraCoder {
            symbols: Symbols::new(count),
            planes: blank_planes(macroblocks_wide, macroblocks_high),
            luma_modes: vec![[2u8; 16]; count],
            chroma_modes: vec![0u8; count],
            transforms: vec![false; count],
            previous_qp: qp,
            previous_delta: 0,
        };
        proof {
            let start = intra_start(
                macroblocks_wide as int,
                macroblocks_high as int,
                qp as int,
            );
            assert(coder@.modes =~~= start.modes);
            assert(coder@.chroma_modes =~= start.chroma_modes);
            assert(coder@.transforms =~= start.transforms);
        }
        coder
    }

    /// Appends the chroma prediction mode of a macroblock.
    fn push_chroma_mode(&mut self, address: usize, wide: usize, mode: u8)
        requires
            mode <= 3,
            address < old(self).luma_modes@.len(),
            0 < wide,
            old(self).sized(old(self).luma_modes@.len() as int),
        ensures
            final(self)@ == (IntraState {
                marked: old(self)@.marked.plus(
                    chroma_mode_bins(
                        mode as int,
                        chroma_mode_increment(
                            old(self)@.chroma_modes,
                            address as int,
                            wide as int,
                        ),
                    ),
                ),
                chroma_modes: old(self)@.chroma_modes.update(address as int, mode),
                ..old(self)@
            }),
            final(self).sized(old(self).luma_modes@.len() as int),
            final(self).planes == old(self).planes,
            final(self).luma_modes == old(self).luma_modes,
            final(self).previous_qp == old(self).previous_qp,
    {
        let left = match read_left_of(self.chroma_modes.as_slice(), address, wide) {
            Some(found) => found != 0,
            None => false,
        };
        let top = match read_top_of(self.chroma_modes.as_slice(), address, wide) {
            Some(found) => found != 0,
            None => false,
        };
        encode_cabac_chroma_prediction_mode(&mut self.symbols.bins, mode, flag(left) + flag(top));
        self.chroma_modes.set(address, mode);
    }

    /// Appends the luma prediction modes of a macroblock, or every fourth one of them.
    fn push_luma_modes(&mut self, address: usize, wide: usize, step: usize)
        requires
            address < old(self).luma_modes@.len(),
            0 < wide,
            step == 1 || step == 4,
            old(self).sized(old(self).luma_modes@.len() as int),
        ensures
            final(self)@ == (IntraState {
                marked: old(self)@.marked.plus(
                    luma_modes_bins(
                        old(self)@.modes,
                        address as int,
                        wide as int,
                        step as int,
                        16int / step as int,
                    ),
                ),
                ..old(self)@
            }),
            final(self).sized(old(self).luma_modes@.len() as int),
            final(self).planes == old(self).planes,
            final(self).luma_modes == old(self).luma_modes,
            final(self).previous_qp == old(self).previous_qp,
    {
        let ghost before = self@.marked.bins;
        let ghost modes = rows(self.luma_modes@);
        let count: usize = if step == 1 {
            16
        } else {
            4
        };
        let mut done: usize = 0;
        assert(self@.marked.bins =~= before + luma_modes_bins(
            modes,
            address as int,
            wide as int,
            step as int,
            0,
        ));
        while done < count
            invariant
                done <= count,
                step == 1 && count == 16 || step == 4 && count == 4,
                address < self.luma_modes@.len(),
                0 < wide,
                modes == rows(self.luma_modes@),
                self@ == (IntraState {
                    marked: Marked {
                        bins: before + luma_modes_bins(
                            modes,
                            address as int,
                            wide as int,
                            step as int,
                            done as int,
                        ),
                        ..old(self)@.marked
                    },
                    ..old(self)@
                }),
                self.sized(old(self).luma_modes@.len() as int),
                self.planes == old(self).planes,
                self.luma_modes == old(self).luma_modes,
                self.previous_qp == old(self).previous_qp,
            decreases count - done,
        {
            let ghost step_bins = self.symbols.bins@;
            let block: usize = if step == 1 {
                done
            } else {
                done * 4
            };
            assert(block == done * step);
            let predicted: u8 = predicted_intra4_mode(
                self.luma_modes.as_slice(),
                address,
                block,
                wide,
            );
            let mode: u8 = self.luma_modes[address][block];
            assert(modes[address as int][block as int] == mode);
            encode_cabac_luma_mode(&mut self.symbols.bins, mode, predicted);
            done = done + 1;
            assert(self.symbols.bins@ =~= before + luma_modes_bins(
                modes,
                address as int,
                wide as int,
                step as int,
                done as int,
            ));
        }
    }

    /// Appends the part of a macroblock that is predicted block by block that precedes its
    /// residual.
    fn push_blockwise_head(
        &mut self,
        address: usize,
        wide: usize,
        transform: Option<bool>,
        step: usize,
        chroma_mode: u8,
        pattern: u8,
        delta: i32,
    )
        requires
            address < old(self).luma_modes@.len(),
            old(self).sized(old(self).luma_modes@.len() as int),
            0 < wide,
            step == 1 || step == 4,
            chroma_mode <= 3,
            -64 <= delta <= 64,
        ensures
            final(self)@ == (IntraState {
                marked: blockwise_marked(
                    old(self)@.marked,
                    match transform {
                        Some(large) => Some(
                            decision(
                                transform_slot(
                                    old(self)@.transforms,
                                    address as int,
                                    wide as int,
                                ),
                                large,
                            ),
                        ),
                        None => None,
                    },
                    luma_modes_bins(
                        old(self)@.modes,
                        address as int,
                        wide as int,
                        step as int,
                        16int / step as int,
                    ),
                    chroma_mode_bins(
                        chroma_mode as int,
                        chroma_mode_increment(
                            old(self)@.chroma_modes,
                            address as int,
                            wide as int,
                        ),
                    ),
                    address as int,
                    wide as int,
                    pattern,
                    delta as int,
                    old(self)@.previous_delta,
                ),
                chroma_modes: old(self)@.chroma_modes.update(address as int, chroma_mode),
                ..old(self)@
            }),
            final(self).sized(old(self).luma_modes@.len() as int),
            final(self).planes == old(self).planes,
            final(self).luma_modes == old(self).luma_modes,
            final(self).previous_qp == old(self).previous_qp,
    {
        let ghost first = self@.marked;
        encode_cabac_i_macroblock_type(&mut self.symbols.bins, 0, 0);
        assert(self@.marked =~= first.plus(type_i_bins(0, 0)));
        if let Some(large) = transform {
            let ghost start = self@.marked;
            let left = match read_left_of(self.transforms.as_slice(), address, wide) {
                Some(found) => found,
                None => false,
            };
            let top = match read_top_of(self.transforms.as_slice(), address, wide) {
                Some(found) => found,
                None => false,
            };
            let slot: usize = TRANSFORM_SIZE + flag(left) + flag(top);
            push_decision(&mut self.symbols.bins, slot, large);
            assert(self@.marked =~= start.plus(seq![decision(slot as int, large)]));
        }
        self.push_luma_modes(address, wide, step);
        self.push_chroma_mode(address, wide, chroma_mode);
        self.symbols.push_pattern(address, wide, pattern);
        if pattern != 0 {
            encode_cabac_macroblock_qp_delta(&mut self.symbols.bins, delta, self.previous_delta);
        }
    }
}

/// A quarter is marked in the pattern of large blocks exactly when its block holds anything.
pub proof fn lemma_large_pattern(levels: Seq<Seq<int>>, group: int)
    requires
        0 <= group < 4,
    ensures
        crate::cavlc_syntax::quarter_marked(
            luma_pattern(LumaLevels::EightByEight(levels)),
            4 * group,
        ) == crate::inter_residual::any_nonzero(levels[group]),
{
}

impl IntraCoder {
    /// Codes a macroblock that is predicted as a whole.
    pub fn encode_intra16_macroblock(&mut self, site: &Site<'_>)
        requires
            site.valid(),
            old(self).valid(site.wide as int, site.high as int),
        ensures
            final(self).valid(site.wide as int, site.high as int),
            final(self)@ == cabac_intra16_macroblock(old(self)@, site@),
    {
        reveal(cabac_intra16_macroblock);
        let address: usize = site.address();
        let delta: i32 = macroblock_qp_delta(self.previous_qp, site.qp);
        let (mode, dc, ac) = code_intra16_luma(site, self.planes.luma.as_mut_slice());
        let (chroma_mode, residuals) = code_intra_chroma(
            site,
            self.planes.cb.as_mut_slice(),
            self.planes.cr.as_mut_slice(),
        );
        let luma_ac = ac_holds_nonzero(&ac);
        let chroma_marks: u8 = chroma_coded_block_pattern(&residuals);
        let mut kind: u8 = 1 + mode + chroma_marks * 4;
        if luma_ac {
            kind = kind + 12;
        }
        encode_cabac_i_macroblock_type(
            &mut self.symbols.bins,
            kind,
            flag(site.x != 0) + flag(site.y != 0),
        );
        self.push_chroma_mode(address, site.wide, chroma_mode);
        encode_cabac_macroblock_qp_delta(&mut self.symbols.bins, delta, self.previous_delta);
        self.symbols.push_luma_means(address, site.wide, &dc);
        let marks: u8 = if luma_ac {
            15
        } else {
            0
        };
        self.symbols.push_luma_blocks(address, site.wide, BlockKind::LumaAc, &ac, marks, true);
        self.symbols.push_chroma(address, site.wide, &residuals, chroma_marks, true);
        self.previous_qp = site.qp;
        self.previous_delta = delta;
        assert(block_numbers(ac@) =~= ac_ints(ac@));
    }

    /// Replaces the luma prediction modes of a macroblock.
    fn set_modes(&mut self, address: usize, modes: [u8; 16])
        requires
            address < old(self).luma_modes@.len(),
            old(self).sized(old(self).luma_modes@.len() as int),
        ensures
            final(self)@ == (IntraState {
                modes: old(self)@.modes.update(address as int, modes@),
                ..old(self)@
            }),
            final(self).sized(old(self).luma_modes@.len() as int),
            final(self).planes == old(self).planes,
            final(self).previous_qp == old(self).previous_qp,
            final(self).previous_delta == old(self).previous_delta,
            final(self).symbols == old(self).symbols,
    {
        let ghost before = rows(self.luma_modes@);
        self.luma_modes.set(address, modes);
        assert(rows(self.luma_modes@) =~= before.update(address as int, modes@));
    }

    /// Notes the quantizer of a macroblock, if it was written.
    fn note_quantizer(&mut self, pattern: u8, qp: i32, delta: i32)
        ensures
            final(self)@ == (IntraState {
                previous_qp: if pattern != 0 {
                    qp as int
                } else {
                    old(self)@.previous_qp
                },
                previous_delta: if pattern != 0 {
                    delta as int
                } else {
                    0
                },
                ..old(self)@
            }),
            final(self).symbols == old(self).symbols,
            final(self).planes == old(self).planes,
            final(self).luma_modes == old(self).luma_modes,
            final(self).chroma_modes == old(self).chroma_modes,
            final(self).transforms == old(self).transforms,
    {
        if pattern != 0 {
            self.previous_qp = qp;
            self.previous_delta = delta;
        } else {
            self.previous_delta = 0;
        }
    }

    /// Codes a macroblock that is predicted in four-by-four blocks.
    pub fn encode_intra4_macroblock(&mut self, site: &Site<'_>, transform_8x8_mode: bool)
        requires
            site.valid(),
            old(self).valid(site.wide as int, site.high as int),
        ensures
            final(self).valid(site.wide as int, site.high as int),
            final(self)@ == cabac_intra4_macroblock(old(self)@, site@, transform_8x8_mode),
    {
        reveal(cabac_intra4_macroblock);
        let address: usize = site.address();
        let delta: i32 = macroblock_qp_delta(self.previous_qp, site.qp);
        let (modes, levels) = code_intra4_luma(site, self.planes.luma.as_mut_slice());
        self.set_modes(address, modes);
        let (chroma_mode, residuals) = code_intra_chroma(
            site,
            self.planes.cb.as_mut_slice(),
            self.planes.cr.as_mut_slice(),
        );
        let luma_marks: u8 = luma_coded_block_pattern(&levels);
        let chroma_marks: u8 = chroma_coded_block_pattern(&residuals);
        let pattern: u8 = luma_marks + chroma_marks * 16;
        let transform: Option<bool> = if transform_8x8_mode {
            Some(false)
        } else {
            None
        };
        self.push_blockwise_head(address, site.wide, transform, 1, chroma_mode, pattern, delta);
        self.symbols.push_luma_blocks(
            address,
            site.wide,
            BlockKind::Luma4x4,
            &levels,
            luma_marks,
            true,
        );
        self.symbols.push_chroma(address, site.wide, &residuals, chroma_marks, true);
        self.note_quantizer(pattern, site.qp, delta);
        assert(block_numbers(levels@) =~= block_ints(levels@));
    }

    /// Codes a macroblock that is predicted in eight-by-eight blocks.
    pub fn encode_intra8_macroblock(&mut self, site: &Site<'_>)
        requires
            site.valid(),
            old(self).valid(site.wide as int, site.high as int),
        ensures
            final(self).valid(site.wide as int, site.high as int),
            final(self)@ == cabac_intra8_macroblock(old(self)@, site@),
    {
        reveal(cabac_intra8_macroblock);
        let address: usize = site.address();
        let delta: i32 = macroblock_qp_delta(self.previous_qp, site.qp);
        let (quarters, levels) = code_intra8_luma(site, self.planes.luma.as_mut_slice());
        let modes: [u8; 16] = spread_modes(&quarters);
        self.set_modes(address, modes);
        let (chroma_mode, residuals) = code_intra_chroma(
            site,
            self.planes.cb.as_mut_slice(),
            self.planes.cr.as_mut_slice(),
        );
        let residual = InterLumaResidual::EightByEight(levels);
        let luma_marks: u8 = residual.coded_block_pattern();
        let chroma_marks: u8 = chroma_coded_block_pattern(&residuals);
        let pattern: u8 = luma_marks + chroma_marks * 16;
        self.push_blockwise_head(address, site.wide, Some(true), 4, chroma_mode, pattern, delta);
        if let InterLumaResidual::EightByEight(blocks) = &residual {
            proof {
                let numbers = quarter_ints((**blocks)@);
                assert forall|b: int|
                    0 <= b < 4 && crate::cavlc_syntax::quarter_marked(
                        luma_marks as int,
                        4 * b,
                    ) implies crate::inter_residual::any_nonzero(
                    crate::transform::ints((#[trigger] (**blocks)@[b])@),
                ) by {
                    lemma_large_pattern(numbers, b);
                    assert(numbers[b] == crate::transform::ints((**blocks)@[b]@));
                }
            }
            self.symbols.push_large_blocks(address, &**blocks, luma_marks);
        }
        self.symbols.push_chroma(address, site.wide, &residuals, chroma_marks, true);
        self.transforms.set(address, true);
        self.note_quantizer(pattern, site.qp, delta);
    }

    /// Codes a macroblock.
    fn encode_macroblock(&mut self, configuration: &Configuration, site: &Site<'_>)
        requires
            site.valid(),
            old(self).valid(site.wide as int, site.high as int),
        ensures
            final(self).valid(site.wide as int, site.high as int),
            final(self)@ == cabac_macroblock(*configuration, old(self)@, site@),
    {
        match configuration.mode {
            EncoderMode::Intra16 => self.encode_intra16_macroblock(site),
            EncoderMode::Intra8 => self.encode_intra8_macroblock(site),
            _ => self.encode_intra4_macroblock(site, configuration.transform_8x8_mode),
        }
    }

    /// Codes all macroblocks.
    fn encode_macroblocks(
        &mut self,
        configuration: &Configuration,
        source: &Planes,
        qps: &[i32],
        Ghost(all_qps): Ghost<Seq<int>>,
    )
        requires
            configuration.valid(),
            planes_fit(
                source@,
                configuration.macroblocks_wide as int,
                configuration.macroblocks_high as int,
            ),
            qps@.len() == configuration.macroblocks_wide * configuration.macroblocks_high,
            forall|a: int|
                0 <= a < qps@.len() ==> (#[trigger] qps@[a]) == all_qps[a] && quantizer(
                    qps@[a] as int,
                ),
            old(self).valid(
                configuration.macroblocks_wide as int,
                configuration.macroblocks_high as int,
            ),
        ensures
            final(self).valid(
                configuration.macroblocks_wide as int,
                configuration.macroblocks_high as int,
            ),
            final(self)@ == cabac_coded(
                *configuration,
                source@,
                all_qps,
                old(self)@,
                configuration.macroblocks_wide * configuration.macroblocks_high,
            ),
    {
        proof {
            configuration.lemma_sizes();
        }
        let wide: usize = configuration.macroblocks_wide;
        let high: usize = configuration.macroblocks_high;
        let count: usize = wide * high;
        let in_blocks = match configuration.mode {
            EncoderMode::Intra4 | EncoderMode::Inter => true,
            _ => false,
        };
        let bypass = configuration.transform_bypass && in_blocks;
        let ghost start = self@;
        let mut address: usize = 0;
        while address < count
            invariant
                address <= count,
                count == wide * high,
                0 < wide,
                wide == configuration.macroblocks_wide,
                high == configuration.macroblocks_high,
                bypass == (configuration.transform_bypass && uses_intra4(configuration.mode)),
                planes_fit(source@, wide as int, high as int),
                qps@.len() == count,
                forall|a: int|
                    0 <= a < count ==> (#[trigger] qps@[a]) == all_qps[a] && quantizer(
                        qps@[a] as int,
                    ),
                self.valid(wide as int, high as int),
                self@ == cabac_coded(*configuration, source@, all_qps, start, address as int),
            decreases count - address,
        {
            let x: usize = address % wide;
            let y: usize = address / wide;
            proof {
                vstd::arithmetic::div_mod::lemma_fundamental_div_mod(address as int, wide as int);
                assert(y < high) by (nonlinear_arith)
                    requires
                        wide * y + x == address,
                        address < wide * high,
                        0 <= x,
                        0 < wide,
                ;
            }
            let site = Site {
                source,
                wide,
                high,
                x,
                y,
                qp: qps[address],
                bypass,
                preset: configuration.scaling_matrix,
            };
            assert(site@ == idr_site(*configuration, source@, all_qps, address as int));
            let ghost before = self@;
            if address > 0 {
                self.symbols.bins.push(Bin::Terminate(false));
                assert(self@.marked.bins =~= before.marked.plus(
                    seq![Bin::Terminate(false)],
                ).bins);
            }
            assert(self@ == going_on(before, address as int));
            self.encode_macroblock(configuration, &site);
            address = address + 1;
        }
    }
}

/// The bytes of a slice header that arithmetic coding follows.
pub open spec fn header_bytes(header: Seq<bool>) -> Seq<u8> {
    packed(aligned(header, true))
}

/// An encoded picture that stands alone and whose macroblocks are predicted.
#[verifier::opaque]
pub open spec fn cabac_predicted_idr(
    table: Seq<(i8, i8)>,
    configuration: Configuration,
    frame: FrameModel,
    pic_order_cnt_lsb: int,
) -> EncodedModel {
    let wide = configuration.macroblocks_wide as int;
    let high = configuration.macroblocks_high as int;
    let qp = configuration.qp as int;
    let source = padded_samples(frame, wide, high);
    let qps = adaptive_qps(source.luma, wide, high, qp, configuration.aq_strength as int);
    let header = idr_header(configuration.pic_order_cnt_type0, pic_order_cnt_lsb, qp);
    let end = cabac_coded(configuration, source, qps, intra_start(wide, high, qp), wide * high);
    EncodedModel {
        nal: nal_of(0x65, header_bytes(header) + picture_bytes(table, qp, end.marked.bins)),
        reconstructed: visible(frame, end.planes, wide),
        coded_reconstruction: end.planes,
        motion_l0: no_motion(wide * high),
        reference_l0_poc: no_motion(wide * high),
        macroblock_intra: Seq::new((wide * high) as nat, |a: int| true),
    }
}

/// Encodes a picture that stands alone and whose macroblocks are predicted.
pub fn encode_cabac_predicted_idr(
    table: &[(i8, i8)],
    frame: &VideoFrame,
    configuration: &Configuration,
    pic_order_cnt_lsb: u8,
) -> (encoded: EncodedFrame)
    requires
        table@.len() == crate::bins::SLOT_COUNT,
        configuration.valid(),
        frame_fits(
            frame@,
            configuration.macroblocks_wide as int,
            configuration.macroblocks_high as int,
        ),
    ensures
        encoded@ == cabac_predicted_idr(
            table@,
            *configuration,
            frame@,
            pic_order_cnt_lsb as int,
        ),
        planes_fit(
            encoded.coded_reconstruction@,
            configuration.macroblocks_wide as int,
            configuration.macroblocks_high as int,
        ),
{
    reveal(cabac_predicted_idr);
    proof {
        configuration.lemma_sizes();
    }
    let wide: usize = configuration.macroblocks_wide;
    let high: usize = configuration.macroblocks_high;
    let count: usize = wide * high;
    let mut writer = BitWriter::new();
    write_idr_header(
        &mut writer,
        configuration.pic_order_cnt_type0,
        pic_order_cnt_lsb,
        configuration.qp,
    );
    let ghost header = idr_header(
        configuration.pic_order_cnt_type0,
        pic_order_cnt_lsb as int,
        configuration.qp as int,
    );
    assert(writer@ =~= header);
    writer.align_to_byte_with(true);
    let mut rbsp: Vec<u8> = writer.into_bytes();
    let source: Planes = padded_planes(frame, wide, high);
    let qps: Vec<i32> = adaptive_macroblock_qps(
        source.luma.as_slice(),
        wide,
        high,
        configuration.qp,
        configuration.aq_strength,
    );
    let ghost all_qps = adaptive_qps(
        source.luma@,
        wide as int,
        high as int,
        configuration.qp as int,
        configuration.aq_strength as int,
    );
    let mut coder: IntraCoder = IntraCoder::start(wide, high, configuration.qp);
    coder.encode_macroblocks(configuration, &source, qps.as_slice(), Ghost(all_qps));
    let symbols: Symbols = coder.symbols;
    let mut payload: Vec<u8> = encode_picture_bins(table, configuration.qp, symbols.bins);
    rbsp.append(&mut payload);
    let nal: Vec<u8> = make_nal(0x65, rbsp);
    let reconstructed: VideoFrame = visible_frame(frame, &coder.planes, wide, high);
    let (motion_l0, reference_l0_poc) = motionless(count);
    let macroblock_intra: Vec<bool> = vec![true; count];
    proof {
        assert(macroblock_intra@ =~= Seq::new((wide * high) as nat, |a: int| true));
    }
    EncodedFrame {
        nal,
        reconstructed,
        coded_reconstruction: coder.planes,
        motion_l0,
        reference_l0_poc,
        macroblock_intra,
    }
}

} // verus!
