//! Pictures of plain samples in a stream with arithmetic coding.

use vstd::prelude::*;

use crate::arithmetic::{
    coded_bin, contexts_valid, flushed, whole_interval, Bin, BinCoder, CabacEncoder, Coding,
};
use crate::bins::{decision, flag, TYPE_I};
use crate::bits::{packed, BitWriter};
use crate::cabac::{ContextState, I_MACROBLOCK_CONTEXT_INIT};
use crate::cabac_intra::header_bytes;
use crate::cavlc_intra::{pcm_bits, write_pcm_plane_block};
use crate::config::Configuration;
use crate::contexts::initial_states;
use crate::frame::{frame_fits, padded_planes, padded_samples, FrameModel, VideoFrame};
use crate::framing::{make_nal, nal_of};
use crate::idr::{
    idr_header, motionless, no_motion, write_idr_header, EncodedFrame, EncodedModel,
};
use crate::math::unit;
use crate::picture::{planes_fit, Planes, Samples, Site, SiteModel};

verus! {

/// A picture of plain samples while it is written.
#[verifier::ext_equal]
pub struct PcmState {
    /// The bytes so far.
    pub bytes: Seq<u8>,
    /// The arithmetic encoder.
    pub coding: Coding,
}

/// Where the samples of a macroblock stand.
pub open spec fn pcm_site(source: Samples, wide: int, address: int) -> SiteModel {
    SiteModel {
        source,
        wide,
        x: address % wide,
        y: address / wide,
        qp: 0,
        bypass: false,
        preset: crate::scaling::ScalingMatrixPreset::Flat,
    }
}

/// A picture after one more macroblock: symbols that announce plain samples and end the arithmetic
/// code, the samples, and a new code that says whether the picture ends.
#[verifier::opaque]
pub open spec fn pcm_written(state: PcmState, site: SiteModel, ends: bool) -> PcmState {
    let slot = TYPE_I + 3 + unit(site.x != 0) + unit(site.y != 0);
    let announced = coded_bin(
        coded_bin(state.coding, decision(slot, true)),
        Bin::Terminate(true),
    );
    PcmState {
        bytes: state.bytes + flushed(announced.interval) + packed(pcm_bits(site)),
        coding: coded_bin(
            Coding { interval: whole_interval(), contexts: announced.contexts },
            Bin::Terminate(ends),
        ),
    }
}

/// A picture after its first `count` macroblocks, of `total`.
pub open spec fn pcm_coded(
    source: Samples,
    wide: int,
    total: int,
    start: PcmState,
    count: int,
) -> PcmState
    decreases count,
{
    if count <= 0 {
        start
    } else {
        pcm_written(
            pcm_coded(source, wide, total, start, count - 1),
            pcm_site(source, wide, count - 1),
            count == total,
        )
    }
}

/// An encoded picture of plain samples.
#[verifier::opaque]
pub open spec fn cabac_pcm_idr(
    configuration: Configuration,
    frame: FrameModel,
    pic_order_cnt_lsb: int,
) -> EncodedModel {
    let wide = configuration.macroblocks_wide as int;
    let high = configuration.macroblocks_high as int;
    let qp = configuration.qp as int;
    let source = padded_samples(frame, wide, high);
    let header = idr_header(configuration.pic_order_cnt_type0, pic_order_cnt_lsb, qp);
    let start = PcmState {
        bytes: header_bytes(header),
        coding: Coding {
            interval: whole_interval(),
            contexts: initial_states(I_MACROBLOCK_CONTEXT_INIT@, qp),
        },
    };
    let end = pcm_coded(source, wide, wide * high, start, wide * high);
    EncodedModel {
        nal: nal_of(0x65, end.bytes + flushed(end.coding.interval)),
        reconstructed: frame,
        coded_reconstruction: source,
        motion_l0: no_motion(wide * high),
        reference_l0_poc: no_motion(wide * high),
        macroblock_intra: Seq::new((wide * high) as nat, |a: int| true),
    }
}

/// A picture of plain samples while it is written.
struct PcmCoder {
    /// The bytes so far.
    bytes: Vec<u8>,
    /// The arithmetic encoder.
    coder: BinCoder,
}

impl PcmCoder {
    /// What is written so far.
    spec fn state(&self) -> PcmState {
        PcmState { bytes: self.bytes@, coding: self.coder@ }
    }

    /// Writes a macroblock.
    fn write(&mut self, site: &Site<'_>, ends: bool)
        requires
            site.valid(),
            old(self).coder.ready(),
            old(self).coder.contexts@.len() == 11,
        ensures
            final(self).state() == pcm_written(old(self).state(), site@, ends),
            final(self).coder.contexts@.len() == 11,
            contexts_valid(final(self).coder.contexts@),
            final(self).coder.encoder.contained(),
            !ends ==> final(self).coder.ready(),
    {
        reveal(pcm_written);
        proof {
            site.lemma_inside();
        }
        let ghost before = self.state();
        let slot: usize = TYPE_I + 3 + flag(site.x != 0) + flag(site.y != 0);
        self.coder.encode_bin(Bin::Decision { slot: slot as u16, value: true });
        self.coder.encode_bin(Bin::Terminate(true));
        let mut first = CabacEncoder::new();
        std::mem::swap(&mut first, &mut self.coder.encoder);
        let mut end: Vec<u8> = first.finish();
        let mut writer = BitWriter::new();
        write_pcm_plane_block(
            &mut writer,
            site.source.luma.as_slice(),
            site.wide * 16,
            site.x * 16,
            site.y * 16,
            16,
            16,
        );
        write_pcm_plane_block(
            &mut writer,
            site.source.cb.as_slice(),
            site.wide * 8,
            site.x * 8,
            site.y * 8,
            8,
            8,
        );
        write_pcm_plane_block(
            &mut writer,
            site.source.cr.as_slice(),
            site.wide * 8,
            site.x * 8,
            site.y * 8,
            8,
            8,
        );
        assert(writer@ =~= pcm_bits(site@));
        let mut samples: Vec<u8> = writer.into_bytes();
        let ghost ended = end@;
        let ghost plain = samples@;
        self.bytes.append(&mut end);
        self.bytes.append(&mut samples);
        assert(self.bytes@ =~= before.bytes + ended + plain);
        self.coder.encode_bin(Bin::Terminate(ends));
    }
}

/// Encodes a picture of plain samples.
pub fn encode_cabac_ipcm_idr(
    frame: &VideoFrame,
    configuration: &Configuration,
    pic_order_cnt_lsb: u8,
) -> (encoded: EncodedFrame)
    requires
        configuration.valid(),
        frame_fits(
            frame@,
            configuration.macroblocks_wide as int,
            configuration.macroblocks_high as int,
        ),
    ensures
        encoded@ == cabac_pcm_idr(*configuration, frame@, pic_order_cnt_lsb as int),
        planes_fit(
            encoded.coded_reconstruction@,
            configuration.macroblocks_wide as int,
            configuration.macroblocks_high as int,
        ),
{
    reveal(cabac_pcm_idr);
    proof {
        configuration.lemma_sizes();
    }
    let wide: usize = configuration.macroblocks_wide;
    let high: usize = configuration.macroblocks_high;
    let count: usize = wide * high;
    let mut writer = BitWriter::new();
    write_idr_header(
        &mut writer,
        configuration.pic_order_cnt_type0,
        pic_order_cnt_lsb,
        configuration.qp,
    );
    let ghost header = idr_header(
        configuration.pic_order_cnt_type0,
        pic_order_cnt_lsb as int,
        configuration.qp as int,
    );
    assert(writer@ =~= header);
    writer.align_to_byte_with(true);
    let bytes: Vec<u8> = writer.into_bytes();
    let source: Planes = padded_planes(frame, wide, high);
    let contexts: Vec<ContextState> = crate::contexts::start_contexts(
        I_MACROBLOCK_CONTEXT_INIT.as_slice(),
        configuration.qp,
    );
    let mut picture = PcmCoder {
        bytes,
        coder: BinCoder { encoder: CabacEncoder::new(), contexts },
    };
    let ghost start = picture.state();
    let mut address: usize = 0;
    while address < count
        invariant
            address <= count,
            count == wide * high,
            0 < wide,
            planes_fit(source@, wide as int, high as int),
            configuration.valid(),
            wide == configuration.macroblocks_wide,
            high == configuration.macroblocks_high,
            picture.state() == pcm_coded(
                source@,
                wide as int,
                count as int,
                start,
                address as int,
            ),
            picture.coder.contexts@.len() == 11,
            contexts_valid(picture.coder.contexts@),
            picture.coder.encoder.contained(),
            address < count ==> picture.coder.ready(),
        decreases count - address,
    {
        let x: usize = address % wide;
        let y: usize = address / wide;
        proof {
            vstd::arithmetic::div_mod::lemma_fundamental_div_mod(address as int, wide as int);
            assert(y < high) by (nonlinear_arith)
                requires
                    wide * y + x == address,
                    address < wide * high,
                    0 <= x,
                    0 < wide,
            ;
        }
        let site = Site {
            source: &source,
            wide,
            high,
            x,
            y,
            qp: 0,
            bypass: false,
            preset: crate::scaling::ScalingMatrixPreset::Flat,
        };
        assert(site@ == pcm_site(source@, wide as int, address as int));
        picture.write(&site, address + 1 == count);
        address = address + 1;
    }
    let PcmCoder { bytes, coder } = picture;
    let mut rbsp: Vec<u8> = bytes;
    let mut end: Vec<u8> = coder.encoder.finish();
    rbsp.append(&mut end);
    let nal: Vec<u8> = make_nal(0x65, rbsp);
    let (motion_l0, reference_l0_poc) = motionless(count);
    let macroblock_intra: Vec<bool> = vec![true; count];
    proof {
        assert(macroblock_intra@ =~= Seq::new((wide * high) as nat, |a: int| true));
    }
    EncodedFrame {
        nal,
        reconstructed: frame.clone(),
        coded_reconstruction: source,
        motion_l0,
        reference_l0_poc,
        macroblock_intra,
    }
}

} // verus!
