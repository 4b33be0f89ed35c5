//! Intra macroblocks that are written with variable-length codes.

use vstd::prelude::*;

use crate::bits::{aligned, bits_of, BitWriter};
use crate::block_coding::{block_bits, write_block};
use crate::cavlc_syntax::{
    block_numbers, chroma_written, interleave, interleaved, luma_written, modes_fit,
    modes_written, write_chroma, write_luma_blocks, write_modes, Written,
};
use crate::golomb::{se_bits, ue_bits, write_se, write_ue};
use crate::inter_residual::{
    any_nonzero, block_ints, chroma_coded_block_pattern, chroma_pattern, holds_nonzero,
    luma_coded_block_pattern, luma_pattern, InterLumaResidual, LumaLevels,
};
use crate::intra_coding::{
    chroma_coded_intra, code_intra16_luma, code_intra4_luma, code_intra8_luma, code_intra_chroma,
    luma_coded_16, luma_coded_4, luma_coded_8,
};
use crate::math::unit;
use crate::neighbors::{counts_fit, intra16_dc_nc, means_count, rows};
use crate::patterns::{code_of_pattern, pattern_code};
use crate::picture::{planes_fit, Planes, Samples, Site, SiteModel};
use crate::plane::{copy_region, region, region_inside};
use crate::quantize::quantizer;
use crate::quantizers::{macroblock_qp_delta, qp_delta};
use crate::reconstruct::ac_ints;
use crate::transform::ints;

verus! {

/// A picture that is being written with variable-length codes.
#[derive(Debug)]
pub struct Coder {
    /// The bits so far.
    pub writer: BitWriter,
    /// The coded samples.
    pub planes: Planes,
    /// The prediction modes of each macroblock's luma blocks.
    pub luma_modes: Vec<[u8; 16]>,
    /// The coefficient counts of each macroblock's luma blocks.
    pub luma_nonzero: Vec<[u8; 16]>,
    /// The coefficient counts of each macroblock's chroma blocks, four for each plane.
    pub chroma_nonzero: Vec<[u8; 8]>,
    /// The last quantizer that was written.
    pub previous_qp: i32,
}

/// A picture that is being written with variable-length codes.
#[verifier::ext_equal]
pub struct CoderState {
    /// The bits so far.
    pub bits: Seq<bool>,
    /// The coded samples.
    pub planes: Samples,
    /// The prediction modes of each macroblock's luma blocks.
    pub modes: Seq<Seq<u8>>,
    /// The coefficient counts of each macroblock's luma blocks.
    pub luma: Seq<Seq<u8>>,
    /// The coefficient counts of each macroblock's chroma blocks.
    pub chroma: Seq<Seq<u8>>,
    /// The last quantizer that was written.
    pub previous_qp: int,
}

impl CoderState {
    /// What residual blocks depend on and change, after `bits` more are written.
    pub open spec fn written(self, bits: Seq<bool>) -> Written {
        Written { bits: self.bits + bits, luma: self.luma, chroma: self.chroma }
    }
}

impl View for Coder {
    type V = CoderState;

    open spec fn view(&self) -> CoderState {
        CoderState {
            bits: self.writer@,
            planes: self.planes@,
            modes: rows(self.luma_modes@),
            luma: rows(self.luma_nonzero@),
            chroma: rows(self.chroma_nonzero@),
            previous_qp: self.previous_qp as int,
        }
    }
}

impl Coder {
    /// Whether the picture has `wide` by `high` macroblocks and is in order.
    pub open spec fn valid(&self, wide: int, high: int) -> bool {
        &&& planes_fit(self.planes@, wide, high)
        &&& self.luma_modes@.len() == wide * high
        &&& self.luma_nonzero@.len() == wide * high
        &&& self.chroma_nonzero@.len() == wide * high
        &&& modes_fit(rows(self.luma_modes@))
        &&& counts_fit(rows(self.luma_nonzero@))
        &&& counts_fit(rows(self.chroma_nonzero@))
        &&& quantizer(self.previous_qp as int)
    }
}

/// What an intra macroblock leaves behind after its residual is written.
pub open spec fn coder_after(
    after: Written,
    planes: Samples,
    modes: Seq<Seq<u8>>,
    previous_qp: int,
) -> CoderState {
    CoderState {
        bits: after.bits,
        planes,
        modes,
        luma: after.luma,
        chroma: after.chroma,
        previous_qp,
    }
}

/// The bits of a macroblock that is predicted block by block, up to its residual.
pub open spec fn blockwise_head(
    flag: Seq<bool>,
    modes: Seq<bool>,
    chroma_mode: int,
    pattern: int,
    delta: int,
) -> Seq<bool> {
    ue_bits(0) + flag + modes + ue_bits(chroma_mode as nat) + ue_bits(pattern_code(true, pattern))
        + if pattern != 0 {
        se_bits(delta)
    } else {
        Seq::empty()
    }
}

/// A picture after a macroblock that is predicted in four-by-four blocks.
#[verifier::opaque]
pub open spec fn intra4_macroblock(state: CoderState, site: SiteModel, transform_8x8_mode: bool) -> CoderState {
    let address = site.address();
    let luma = luma_coded_4(site, state.planes.luma, 16);
    let chroma = chroma_coded_intra(site, state.planes.cb, state.planes.cr);
    let modes = state.modes.update(address, luma.modes);
    let luma_marks = luma_pattern(LumaLevels::FourByFour(luma.levels));
    let chroma_marks = chroma_pattern(chroma.cb_levels, chroma.cr_levels);
    let pattern = luma_marks + 16 * chroma_marks;
    let head = blockwise_head(
        if transform_8x8_mode {
            seq![false]
        } else {
            Seq::empty()
        },
        modes_written(modes, address, site.wide, 1, 16),
        chroma.mode as int,
        pattern,
        qp_delta(state.previous_qp, site.qp),
    );
    coder_after(
        chroma_written(
            luma_written(state.written(head), address, site.wide, luma.levels, luma_marks, 16),
            address,
            site.wide,
            chroma.cb_levels,
            chroma.cr_levels,
            chroma_marks,
        ),
        Samples { luma: luma.plane, cb: chroma.cb, cr: chroma.cr },
        modes,
        if pattern != 0 {
            site.qp
        } else {
            state.previous_qp
        },
    )
}

/// Each of four modes, four times.
pub open spec fn quarter_modes(modes: Seq<u8>) -> Seq<u8> {
    Seq::new(16, |b: int| modes[b / 4])
}

/// A picture after a macroblock that is predicted in eight-by-eight blocks.
#[verifier::opaque]
pub open spec fn intra8_macroblock(state: CoderState, site: SiteModel) -> CoderState {
    let address = site.address();
    let luma = luma_coded_8(site, state.planes.luma, 4);
    let chroma = chroma_coded_intra(site, state.planes.cb, state.planes.cr);
    let modes = state.modes.update(address, quarter_modes(luma.modes));
    let luma_marks = luma_pattern(LumaLevels::EightByEight(luma.levels));
    let chroma_marks = chroma_pattern(chroma.cb_levels, chroma.cr_levels);
    let pattern = luma_marks + 16 * chroma_marks;
    let head = blockwise_head(
        seq![true],
        modes_written(modes, address, site.wide, 4, 4),
        chroma.mode as int,
        pattern,
        qp_delta(state.previous_qp, site.qp),
    );
    coder_after(
        chroma_written(
            luma_written(
                state.written(head),
                address,
                site.wide,
                interleaved(luma.levels),
                luma_marks,
                16,
            ),
            address,
            site.wide,
            chroma.cb_levels,
            chroma.cr_levels,
            chroma_marks,
        ),
        Samples { luma: luma.plane, cb: chroma.cb, cr: chroma.cr },
        modes,
        if pattern != 0 {
            site.qp
        } else {
            state.previous_qp
        },
    )
}

/// Whether one of the blocks holds a level other than zero.
pub open spec fn any_block_nonzero(blocks: Seq<Seq<int>>) -> bool {
    exists|b: int| 0 <= b < blocks.len() && any_nonzero(#[trigger] blocks[b])
}

/// The type of a macroblock that is predicted as a whole.
pub open spec fn whole_type(mode: int, chroma_marks: int, luma_ac: bool) -> int {
    1 + mode + chroma_marks * 4 + unit(luma_ac) * 12
}

/// A picture after a macroblock that is predicted as a whole.
#[verifier::opaque]
pub open spec fn intra16_macroblock(state: CoderState, site: SiteModel) -> CoderState {
    let address = site.address();
    let luma = luma_coded_16(site, state.planes.luma);
    let chroma = chroma_coded_intra(site, state.planes.cb, state.planes.cr);
    let luma_ac = any_block_nonzero(luma.ac);
    let chroma_marks = chroma_pattern(chroma.cb_levels, chroma.cr_levels);
    let head = ue_bits(whole_type(luma.mode as int, chroma_marks, luma_ac) as nat) + ue_bits(
        chroma.mode as nat,
    ) + se_bits(qp_delta(state.previous_qp, site.qp)) + block_bits(
        means_count(state.luma, address, site.wide),
        luma.dc,
    );
    coder_after(
        chroma_written(
            luma_written(
                state.written(head),
                address,
                site.wide,
                luma.ac,
                if luma_ac {
                    15
                } else {
                    0
                },
                16,
            ),
            address,
            site.wide,
            chroma.cb_levels,
            chroma.cr_levels,
            chroma_marks,
        ),
        Samples { luma: luma.plane, cb: chroma.cb, cr: chroma.cr },
        state.modes,
        site.qp,
    )
}

impl Coder {
    /// Writes the part of a macroblock that is predicted block by block that precedes its
    /// residual.
    fn write_blockwise_head(
        &mut self,
        address: usize,
        wide: usize,
        flag: Option<bool>,
        step: usize,
        chroma_mode: u8,
        pattern: u8,
        delta: i32,
    )
        requires
            address < old(self).luma_modes@.len(),
            0 < wide,
            step == 1 || step == 4,
            pattern < 48,
        ensures
            final(self)@ == (CoderState {
                bits: old(self)@.bits + blockwise_head(
                    match flag {
                        Some(value) => seq![value],
                        None => Seq::empty(),
                    },
                    modes_written(
                        old(self)@.modes,
                        address as int,
                        wide as int,
                        step as int,
                        16int / step as int,
                    ),
                    chroma_mode as int,
                    pattern as int,
                    delta as int,
                ),
                ..old(self)@
            }),
            final(self).planes == old(self).planes,
            final(self).luma_modes == old(self).luma_modes,
            final(self).luma_nonzero == old(self).luma_nonzero,
            final(self).chroma_nonzero == old(self).chroma_nonzero,
            final(self).previous_qp == old(self).previous_qp,
    {
        let ghost bits = self@.bits;
        let _ = write_ue(&mut self.writer, 0);
        if let Some(value) = flag {
            self.writer.write_bit(value);
        }
        write_modes(&mut self.writer, self.luma_modes.as_slice(), address, wide, step);
        let _ = write_ue(&mut self.writer, chroma_mode as u64);
        let code: u64 = code_of_pattern(true, pattern);
        let _ = write_ue(&mut self.writer, code);
        if pattern != 0 {
            let _ = write_se(&mut self.writer, delta as i64);
        }
        proof {
            let head = blockwise_head(
                match flag {
                    Some(value) => seq![value],
                    None => Seq::empty(),
                },
                modes_written(
                    old(self)@.modes,
                    address as int,
                    wide as int,
                    step as int,
                    16int / step as int,
                ),
                chroma_mode as int,
                pattern as int,
                delta as int,
            );
            assert(self@.bits =~= bits + head);
        }
    }

    /// Codes a macroblock that is predicted in four-by-four blocks, and says whether its quantizer
    /// was written.
    pub fn encode_intra4_macroblock(&mut self, site: &Site<'_>, transform_8x8_mode: bool) -> (
        changed: bool)
        requires
            site.valid(),
            old(self).valid(site.wide as int, site.high as int),
        ensures
            final(self).valid(site.wide as int, site.high as int),
            final(self)@ == intra4_macroblock(old(self)@, site@, transform_8x8_mode),
    {
        reveal(intra4_macroblock);
        let address: usize = site.address();
        let delta: i32 = macroblock_qp_delta(self.previous_qp, site.qp);
        let (modes, levels) = code_intra4_luma(site, self.planes.luma.as_mut_slice());
        let ghost luma = luma_coded_4(site@, old(self)@.planes.luma, 16);
        let ghost modes_before = rows(self.luma_modes@);
        self.luma_modes.set(address, modes);
        proof {
            assert(rows(self.luma_modes@) =~= modes_before.update(address as int, luma.modes));
            assert forall|a: int, b: int|
                0 <= a < self.luma_modes@.len() && 0 <= b < rows(
                    self.luma_modes@,
                )[a].len() implies #[trigger] rows(self.luma_modes@)[a][b] <= 8 by {
                if a == address {
                    assert(modes@[b] <= 8);
                } else {
                    assert(modes_before[a][b] <= 8);
                }
            }
        }
        let (chroma_mode, residuals) = code_intra_chroma(
            site,
            self.planes.cb.as_mut_slice(),
            self.planes.cr.as_mut_slice(),
        );
        let luma_marks: u8 = luma_coded_block_pattern(&levels);
        let chroma_marks: u8 = chroma_coded_block_pattern(&residuals);
        let pattern: u8 = luma_marks + chroma_marks * 16;
        let flag: Option<bool> = if transform_8x8_mode {
            Some(false)
        } else {
            None
        };
        self.write_blockwise_head(address, site.wide, flag, 1, chroma_mode, pattern, delta);
        write_luma_blocks(
            &mut self.writer,
            &mut self.luma_nonzero,
            address,
            site.wide,
            &levels,
            luma_marks,
        );
        write_chroma(
            &mut self.writer,
            &mut self.chroma_nonzero,
            address,
            site.wide,
            &residuals,
            chroma_marks,
        );
        if pattern != 0 {
            self.previous_qp = site.qp;
        }
        assert(block_numbers(levels@) =~= block_ints(levels@));
        pattern != 0
    }

    /// Codes a macroblock that is predicted in eight-by-eight blocks, and says whether its
    /// quantizer was written.
    pub fn encode_intra8_macroblock(&mut self, site: &Site<'_>) -> (changed: bool)
        requires
            site.valid(),
            old(self).valid(site.wide as int, site.high as int),
        ensures
            final(self).valid(site.wide as int, site.high as int),
            final(self)@ == intra8_macroblock(old(self)@, site@),
    {
        reveal(intra8_macroblock);
        let address: usize = site.address();
        let delta: i32 = macroblock_qp_delta(self.previous_qp, site.qp);
        let (quarters, levels) = code_intra8_luma(site, self.planes.luma.as_mut_slice());
        let ghost luma = luma_coded_8(site@, old(self)@.planes.luma, 4);
        let modes: [u8; 16] = spread_modes(&quarters);
        let ghost modes_before = rows(self.luma_modes@);
        self.luma_modes.set(address, modes);
        proof {
            assert(rows(self.luma_modes@) =~= modes_before.update(
                address as int,
                quarter_modes(luma.modes),
            ));
            assert forall|a: int, b: int|
                0 <= a < self.luma_modes@.len() && 0 <= b < rows(
                    self.luma_modes@,
                )[a].len() implies #[trigger] rows(self.luma_modes@)[a][b] <= 8 by {
                if a == address {
                    assert(quarters@[b / 4] <= 8);
                    assert(modes@[b] == quarters@[b / 4]);
                } else {
                    assert(modes_before[a][b] <= 8);
                }
            }
        }
        let (chroma_mode, residuals) = code_intra_chroma(
            site,
            self.planes.cb.as_mut_slice(),
            self.planes.cr.as_mut_slice(),
        );
        let blocks: Box<[[i32; 16]; 16]> = interleave(&levels);
        let residual = InterLumaResidual::EightByEight(levels);
        let luma_marks: u8 = residual.coded_block_pattern();
        let chroma_marks: u8 = chroma_coded_block_pattern(&residuals);
        let pattern: u8 = luma_marks + chroma_marks * 16;
        self.write_blockwise_head(address, site.wide, Some(true), 4, chroma_mode, pattern, delta);
        write_luma_blocks(
            &mut self.writer,
            &mut self.luma_nonzero,
            address,
            site.wide,
            &blocks,
            luma_marks,
        );
        write_chroma(
            &mut self.writer,
            &mut self.chroma_nonzero,
            address,
            site.wide,
            &residuals,
            chroma_marks,
        );
        if pattern != 0 {
            self.previous_qp = site.qp;
        }
        pattern != 0
    }

    /// Codes a macroblock that is predicted as a whole.
    pub fn encode_intra16_macroblock(&mut self, site: &Site<'_>)
        requires
            site.valid(),
            old(self).valid(site.wide as int, site.high as int),
        ensures
            final(self).valid(site.wide as int, site.high as int),
            final(self)@ == intra16_macroblock(old(self)@, site@),
    {
        reveal(intra16_macroblock);
        let address: usize = site.address();
        let delta: i32 = macroblock_qp_delta(self.previous_qp, site.qp);
        let (mode, dc, ac) = code_intra16_luma(site, self.planes.luma.as_mut_slice());
        let ghost luma = luma_coded_16(site@, old(self)@.planes.luma);
        let (chroma_mode, residuals) = code_intra_chroma(
            site,
            self.planes.cb.as_mut_slice(),
            self.planes.cr.as_mut_slice(),
        );
        let luma_ac = ac_holds_nonzero(&ac);
        let chroma_marks: u8 = chroma_coded_block_pattern(&residuals);
        let mut kind: u8 = 1 + mode + chroma_marks * 4;
        if luma_ac {
            kind = kind + 12;
        }
        let ghost bits = self.writer@;
        let _ = write_ue(&mut self.writer, kind as u64);
        let _ = write_ue(&mut self.writer, chroma_mode as u64);
        let _ = write_se(&mut self.writer, delta as i64);
        let n_c: i8 = intra16_dc_nc(self.luma_nonzero.as_slice(), address, site.wide);
        write_block(&mut self.writer, n_c, dc.as_slice());
        proof {
            let head = ue_bits(kind as nat) + ue_bits(chroma_mode as nat) + se_bits(delta as int)
                + block_bits(n_c as int, luma.dc);
            assert(self.writer@ =~= bits + head);
        }
        let marks: u8 = if luma_ac {
            15
        } else {
            0
        };
        write_luma_blocks(
            &mut self.writer,
            &mut self.luma_nonzero,
            address,
            site.wide,
            &ac,
            marks,
        );
        write_chroma(
            &mut self.writer,
            &mut self.chroma_nonzero,
            address,
            site.wide,
            &residuals,
            chroma_marks,
        );
        self.previous_qp = site.qp;
        assert(block_numbers(ac@) =~= ac_ints(ac@));
    }

    /// Writes a macroblock as plain samples.
    pub fn encode_pcm_macroblock(&mut self, site: &Site<'_>)
        requires
            site.valid(),
            old(self).valid(site.wide as int, site.high as int),
        ensures
            final(self).valid(site.wide as int, site.high as int),
            final(self)@ == pcm_macroblock(old(self)@, site@),
    {
        reveal(pcm_macroblock);
        proof {
            site.lemma_inside();
        }
        let _ = write_ue(&mut self.writer, 25);
        self.writer.align_to_byte();
        let ghost start = self.writer@;
        write_pcm_plane_block(
            &mut self.writer,
            site.source.luma.as_slice(),
            site.wide * 16,
            site.x * 16,
            site.y * 16,
            16,
            16,
        );
        write_pcm_plane_block(
            &mut self.writer,
            site.source.cb.as_slice(),
            site.wide * 8,
            site.x * 8,
            site.y * 8,
            8,
            8,
        );
        write_pcm_plane_block(
            &mut self.writer,
            site.source.cr.as_slice(),
            site.wide * 8,
            site.x * 8,
            site.y * 8,
            8,
            8,
        );
        assert(self.writer@ =~= start + pcm_bits(site@));
    }
}

/// The bits of samples, eight each.
pub open spec fn sample_bits(samples: Seq<u8>, count: int) -> Seq<bool>
    decreases count,
{
    if count <= 0 {
        Seq::empty()
    } else {
        sample_bits(samples, count - 1) + bits_of(samples[count - 1] as nat, 8)
    }
}

/// The bits of the samples of a macroblock: luma, then each chroma plane, row by row.
pub open spec fn pcm_bits(site: SiteModel) -> Seq<bool> {
    sample_bits(
        region(site.source.luma, 16 * site.wide, site.x * 16, site.y * 16, 16, 16),
        256,
    ) + sample_bits(region(site.source.cb, 8 * site.wide, site.x * 8, site.y * 8, 8, 8), 64)
        + sample_bits(region(site.source.cr, 8 * site.wide, site.x * 8, site.y * 8, 8, 8), 64)
}

/// A picture after a macroblock that is written as plain samples.
#[verifier::opaque]
pub open spec fn pcm_macroblock(state: CoderState, site: SiteModel) -> CoderState {
    CoderState {
        bits: aligned(state.bits + ue_bits(25), false) + pcm_bits(site),
        ..state
    }
}

/// Writes a region of samples, row by row.
pub fn write_pcm_plane_block(
    writer: &mut BitWriter,
    plane: &[u8],
    stride: usize,
    origin_x: usize,
    origin_y: usize,
    width: usize,
    height: usize,
)
    requires
        region_inside(
            plane@.len() as int,
            stride as int,
            origin_x as int,
            origin_y as int,
            width as int,
            height as int,
        ),
        0 < width,
    ensures
        final(writer)@ == old(writer)@ + sample_bits(
            region(
                plane@,
                stride as int,
                origin_x as int,
                origin_y as int,
                width as int,
                height as int,
            ),
            width * height,
        ),
{
    let samples: Vec<u8> = copy_region(plane, stride, origin_x, origin_y, width, height);
    assert(0 <= width * height) by (nonlinear_arith);
    let ghost before = writer@;
    let mut i: usize = 0;
    assert(writer@ =~= before + sample_bits(samples@, 0));
    while i < samples.len()
        invariant
            i <= samples@.len(),
            writer@ == before + sample_bits(samples@, i as int),
        decreases samples@.len() - i,
    {
        let ghost so_far = writer@;
        writer.write_bits(samples[i] as u64, 8);
        i = i + 1;
        assert(writer@ =~= before + sample_bits(samples@, i as int));
    }
}

/// Repeats each of four modes four times.
pub fn spread_modes(quarters: &[u8; 4]) -> (modes: [u8; 16])
    ensures
        modes@ == quarter_modes(quarters@),
{
    let mut modes: [u8; 16] = [0u8; 16];
    let mut b: usize = 0;
    while b < 16
        invariant
            b <= 16,
            forall|j: int| 0 <= j < b ==> #[trigger] modes@[j] == quarters@[j / 4],
        decreases 16 - b,
    {
        modes[b] = quarters[b / 4];
        b = b + 1;
    }
    assert(modes@ =~= quarter_modes(quarters@));
    modes
}

/// Whether one of the blocks holds a level other than zero.
pub fn ac_holds_nonzero(blocks: &[[i32; 15]; 16]) -> (result: bool)
    ensures
        result == any_block_nonzero(ac_ints(blocks@)),
{
    let mut b: usize = 0;
    while b < 16
        invariant
            b <= 16,
            forall|j: int| 0 <= j < b ==> !any_nonzero(#[trigger] ac_ints(blocks@)[j]),
        decreases 16 - b,
    {
        assert(ac_ints(blocks@)[b as int] == ints(blocks@[b as int]@));
        if holds_nonzero(blocks[b].as_slice()) {
            return true;
        }
        b = b + 1;
    }
    false
}

} // verus!
