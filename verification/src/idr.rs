//! Pictures that stand alone.

use vstd::prelude::*;

use crate::bits::{bits_of, packed, BitWriter};
use crate::cavlc_intra::{
    intra16_macroblock, intra4_macroblock, intra8_macroblock, pcm_macroblock, Coder, CoderState,
};
use crate::config::{Configuration, EncoderMode};
use crate::frame::{
    frame_fits, padded_planes, padded_samples, visible, visible_frame, FrameModel, VideoFrame,
};
use crate::framing::{make_nal, nal_of};
use crate::golomb::{finish_rbsp, finished, se_bits, ue_bits, write_se, write_ue};
use crate::motion::{BlockMotions, BlockOrders};
use crate::neighbors::rows;
use crate::picture::{lemma_plane_size, planes_fit, Planes, Samples, Site, SiteModel};
use crate::quantize::quantizer;
use crate::quantizers::{adaptive_macroblock_qps, adaptive_qps};

verus! {

/// An encoded picture.
#[derive(Debug)]
pub struct EncodedFrame {
    /// The NAL unit that holds it.
    pub nal: Vec<u8>,
    /// The picture as a decoder shows it.
    pub reconstructed: VideoFrame,
    /// The picture as later ones refer to it.
    pub coded_reconstruction: Planes,
    /// The motion of each macroblock's blocks.
    pub motion_l0: Vec<BlockMotions>,
    /// The display order of the pictures that each macroblock's blocks refer to.
    pub reference_l0_poc: Vec<BlockOrders>,
    /// Which macroblocks are predicted from their own picture.
    pub macroblock_intra: Vec<bool>,
}

/// An encoded picture.
#[verifier::ext_equal]
pub struct EncodedModel {
    /// The NAL unit that holds it.
    pub nal: Seq<u8>,
    /// The picture as a decoder shows it.
    pub reconstructed: FrameModel,
    /// The picture as later ones refer to it.
    pub coded_reconstruction: Samples,
    /// The motion of each macroblock's blocks.
    pub motion_l0: Seq<Seq<Option<crate::motion::MotionState>>>,
    /// The display order of the pictures that each macroblock's blocks refer to.
    pub reference_l0_poc: Seq<Seq<Option<i32>>>,
    /// Which macroblocks are predicted from their own picture.
    pub macroblock_intra: Seq<bool>,
}

impl View for EncodedFrame {
    type V = EncodedModel;

    open spec fn view(&self) -> EncodedModel {
        EncodedModel {
            nal: self.nal@,
            reconstructed: self.reconstructed@,
            coded_reconstruction: self.coded_reconstruction@,
            motion_l0: rows(self.motion_l0@),
            reference_l0_poc: rows(self.reference_l0_poc@),
            macroblock_intra: self.macroblock_intra@,
        }
    }
}

/// The slice header of a picture that stands alone.
pub open spec fn idr_header(
    pic_order_cnt_type0: bool,
    pic_order_cnt_lsb: int,
    qp: int,
) -> Seq<bool> {
    ue_bits(0) + ue_bits(2) + ue_bits(0) + bits_of(0, 4) + ue_bits(0) + (if pic_order_cnt_type0 {
        bits_of(pic_order_cnt_lsb as nat, 4)
    } else {
        Seq::empty()
    }) + seq![false, false] + se_bits(qp - 26) + ue_bits(1)
}

/// Writes the slice header of a picture that stands alone.
pub fn write_idr_header(
    writer: &mut BitWriter,
    pic_order_cnt_type0: bool,
    pic_order_cnt_lsb: u8,
    qp: i32,
)
    requires
        quantizer(qp as int),
    ensures
        final(writer)@ == old(writer)@ + idr_header(
            pic_order_cnt_type0,
            pic_order_cnt_lsb as int,
            qp as int,
        ),
{
    let ghost before = writer@;
    let _ = write_ue(writer, 0);
    let _ = write_ue(writer, 2);
    let _ = write_ue(writer, 0);
    writer.write_bits(0, 4);
    let _ = write_ue(writer, 0);
    if pic_order_cnt_type0 {
        writer.write_bits(pic_order_cnt_lsb as u64, 4);
    }
    writer.write_bit(false);
    writer.write_bit(false);
    let _ = write_se(writer, (qp - 26) as i64);
    let _ = write_ue(writer, 1);
    assert(writer@ =~= before + idr_header(
        pic_order_cnt_type0,
        pic_order_cnt_lsb as int,
        qp as int,
    ));
}

/// Whether a configuration codes its pictures that stand alone in four-by-four blocks.
pub open spec fn uses_intra4(mode: EncoderMode) -> bool {
    mode == EncoderMode::Intra4 || mode == EncoderMode::Inter
}

/// Where and how a macroblock of a picture that stands alone is coded.
pub open spec fn idr_site(
    configuration: Configuration,
    source: Samples,
    qps: Seq<int>,
    address: int,
) -> SiteModel {
    let wide = configuration.macroblocks_wide as int;
    SiteModel {
        source,
        wide,
        x: address % wide,
        y: address / wide,
        qp: qps[address],
        bypass: configuration.transform_bypass && uses_intra4(configuration.mode),
        preset: configuration.scaling_matrix,
    }
}

/// A picture after one more macroblock.
pub open spec fn idr_macroblock(
    configuration: Configuration,
    state: CoderState,
    site: SiteModel,
) -> CoderState {
    match configuration.mode {
        EncoderMode::Ipcm => pcm_macroblock(state, site),
        EncoderMode::Intra16 => intra16_macroblock(state, site),
        EncoderMode::Intra8 => intra8_macroblock(state, site),
        EncoderMode::Intra4 | EncoderMode::Inter => intra4_macroblock(
            state,
            site,
            configuration.transform_8x8_mode,
        ),
    }
}

/// A picture after its first `count` macroblocks.
pub open spec fn idr_coded(
    configuration: Configuration,
    source: Samples,
    qps: Seq<int>,
    start: CoderState,
    count: int,
) -> CoderState
    decreases count,
{
    if count <= 0 {
        start
    } else {
        idr_macroblock(
            configuration,
            idr_coded(configuration, source, qps, start, count - 1),
            idr_site(configuration, source, qps, count - 1),
        )
    }
}

/// Samples that are all zero.
pub open spec fn blank_samples(wide: int, high: int) -> Samples {
    Samples {
        luma: Seq::new(((16 * wide) * (16 * high)) as nat, |i: int| 0u8),
        cb: Seq::new(((8 * wide) * (8 * high)) as nat, |i: int| 0u8),
        cr: Seq::new(((8 * wide) * (8 * high)) as nat, |i: int| 0u8),
    }
}

/// A picture of which only the slice header is written.
pub open spec fn coder_start(header: Seq<bool>, wide: int, high: int, qp: int) -> CoderState {
    let count = (wide * high) as nat;
    CoderState {
        bits: header,
        planes: blank_samples(wide, high),
        modes: Seq::new(count, |a: int| Seq::new(16, |b: int| 2u8)),
        luma: Seq::new(count, |a: int| Seq::new(16, |b: int| 0u8)),
        chroma: Seq::new(count, |a: int| Seq::new(8, |b: int| 0u8)),
        previous_qp: qp,
    }
}

/// What is kept of the motion of a picture without any.
pub open spec fn no_motion<T>(count: int) -> Seq<Seq<Option<T>>> {
    Seq::new(count as nat, |a: int| Seq::new(16, |b: int| None))
}

/// An encoded picture that stands alone.
#[verifier::opaque]
pub open spec fn cavlc_idr(
    configuration: Configuration,
    frame: FrameModel,
    pic_order_cnt_lsb: int,
) -> EncodedModel {
    let wide = configuration.macroblocks_wide as int;
    let high = configuration.macroblocks_high as int;
    let source = padded_samples(frame, wide, high);
    let qps = adaptive_qps(
        source.luma,
        wide,
        high,
        configuration.qp as int,
        configuration.aq_strength as int,
    );
    let coded = idr_coded(
        configuration,
        source,
        qps,
        coder_start(
            idr_header(
                configuration.pic_order_cnt_type0,
                pic_order_cnt_lsb,
                configuration.qp as int,
            ),
            wide,
            high,
            configuration.qp as int,
        ),
        wide * high,
    );
    EncodedModel {
        nal: nal_of(0x65, packed(finished(coded.bits))),
        reconstructed: if configuration.mode == EncoderMode::Ipcm {
            frame
        } else {
            visible(frame, coded.planes, wide)
        },
        coded_reconstruction: if configuration.mode == EncoderMode::Ipcm {
            source
        } else {
            coded.planes
        },
        motion_l0: no_motion(wide * high),
        reference_l0_poc: no_motion(wide * high),
        macroblock_intra: Seq::new((wide * high) as nat, |a: int| true),
    }
}

/// Planes whose samples are all zero.
pub fn blank_planes(macroblocks_wide: usize, macroblocks_high: usize) -> (planes: Planes)
    requires
        0 < macroblocks_wide,
        0 < macroblocks_high,
        (16 * macroblocks_wide) * (16 * macroblocks_high) <= usize::MAX,
    ensures
        planes@ == blank_samples(macroblocks_wide as int, macroblocks_high as int),
        planes_fit(planes@, macroblocks_wide as int, macroblocks_high as int),
{
    proof {
        lemma_plane_size(macroblocks_wide as int, macroblocks_high as int, 16);
        lemma_plane_size(macroblocks_wide as int, macroblocks_high as int, 8);
        assert((8 * macroblocks_wide) * (8 * macroblocks_high) <= (16 * macroblocks_wide) * (16
            * macroblocks_high)) by (nonlinear_arith)
            requires
                0 <= macroblocks_wide,
                0 <= macroblocks_high,
        ;
    }
    let luma: usize = (macroblocks_wide * 16) * (macroblocks_high * 16);
    let chroma: usize = (macroblocks_wide * 8) * (macroblocks_high * 8);
    let planes = Planes { luma: vec![0u8; luma], cb: vec![0u8; chroma], cr: vec![0u8; chroma] };
    proof {
        let blank = blank_samples(macroblocks_wide as int, macroblocks_high as int);
        assert(planes.luma@ =~= blank.luma);
        assert(planes.cb@ =~= blank.cb);
        assert(planes.cr@ =~= blank.cr);
    }
    planes
}

impl Coder {
    /// A picture of which only the slice header is written.
    pub fn start(writer: BitWriter, macroblocks_wide: usize, macroblocks_high: usize, qp: i32) -> (
        coder: Coder)
        requires
            0 < macroblocks_wide,
            0 < macroblocks_high,
            (16 * macroblocks_wide) * (16 * macroblocks_high) <= usize::MAX,
            quantizer(qp as int),
        ensures
            coder@ == coder_start(
                writer@,
                macroblocks_wide as int,
                macroblocks_high as int,
                qp as int,
            ),
            coder.valid(macroblocks_wide as int, macroblocks_high as int),
    {
        proof {
            lemma_plane_size(macroblocks_wide as int, macroblocks_high as int, 16);
        }
        let count: usize = macroblocks_wide * macroblocks_high;
        let planes: Planes = blank_planes(macroblocks_wide, macroblocks_high);
        let luma_modes: Vec<[u8; 16]> = vec![[2u8; 16]; count];
        let luma_nonzero: Vec<[u8; 16]> = vec![[0u8; 16]; count];
        let chroma_nonzero: Vec<[u8; 8]> = vec![[0u8; 8]; count];
        proof {
            let start = coder_start(
                writer@,
                macroblocks_wide as int,
                macroblocks_high as int,
                qp as int,
            );
            assert forall|a: int| 0 <= a < count implies #[trigger] rows(luma_modes@)[a]
                =~= start.modes[a] by {}
            assert forall|a: int| 0 <= a < count implies #[trigger] rows(luma_nonzero@)[a]
                =~= start.luma[a] by {}
            assert forall|a: int| 0 <= a < count implies #[trigger] rows(chroma_nonzero@)[a]
                =~= start.chroma[a] by {}
            assert(rows(luma_modes@) =~= start.modes);
            assert(rows(luma_nonzero@) =~= start.luma);
            assert(rows(chroma_nonzero@) =~= start.chroma);
            assert forall|a: int, b: int|
                0 <= a < count && 0 <= b < start.modes[a].len() implies #[trigger] rows(
                luma_modes@,
            )[a][b] <= 8 by {
                assert(start.modes[a][b] == 2);
            }
            assert forall|a: int, b: int|
                0 <= a < count && 0 <= b < start.luma[a].len() implies #[trigger] rows(
                luma_nonzero@,
            )[a][b] <= 16 by {
                assert(start.luma[a][b] == 0);
            }
            assert forall|a: int, b: int|
                0 <= a < count && 0 <= b < start.chroma[a].len() implies #[trigger] rows(
                chroma_nonzero@,
            )[a][b] <= 16 by {
                assert(start.chroma[a][b] == 0);
            }
        }
        Coder { writer, planes, luma_modes, luma_nonzero, chroma_nonzero, previous_qp: qp }
    }

    /// Codes a macroblock of a picture that stands alone.
    fn encode_idr_macroblock(&mut self, configuration: &Configuration, site: &Site<'_>)
        requires
            site.valid(),
            old(self).valid(site.wide as int, site.high as int),
        ensures
            final(self).valid(site.wide as int, site.high as int),
            final(self)@ == idr_macroblock(*configuration, old(self)@, site@),
    {
        match configuration.mode {
            EncoderMode::Ipcm => self.encode_pcm_macroblock(site),
            EncoderMode::Intra16 => self.encode_intra16_macroblock(site),
            EncoderMode::Intra8 => {
                self.encode_intra8_macroblock(site);
            },
            EncoderMode::Intra4 | EncoderMode::Inter => {
                self.encode_intra4_macroblock(site, configuration.transform_8x8_mode);
            },
        }
    }
}

/// A list of `count` macroblocks without motion.
pub fn motionless(count: usize) -> (motions: (Vec<BlockMotions>, Vec<BlockOrders>))
    ensures
        rows(motions.0@) == no_motion::<crate::motion::MotionState>(count as int),
        rows(motions.1@) == no_motion::<i32>(count as int),
{
    let motions: Vec<BlockMotions> = vec![[None; 16]; count];
    let orders: Vec<BlockOrders> = vec![[None; 16]; count];
    proof {
        assert forall|a: int| 0 <= a < count implies #[trigger] rows(motions@)[a] =~= no_motion(
            count as int,
        )[a] by {}
        assert forall|a: int| 0 <= a < count implies #[trigger] rows(orders@)[a] =~= no_motion(
            count as int,
        )[a] by {}
        assert(rows(motions@) =~= no_motion(count as int));
        assert(rows(orders@) =~= no_motion(count as int));
    }
    (motions, orders)
}

/// Encodes a picture that stands alone with variable-length codes.
pub fn encode_cavlc_idr(
    frame: &VideoFrame,
    configuration: &Configuration,
    pic_order_cnt_lsb: u8,
) -> (encoded: EncodedFrame)
    requires
        configuration.valid(),
        frame_fits(
            frame@,
            configuration.macroblocks_wide as int,
            configuration.macroblocks_high as int,
        ),
    ensures
        encoded@ == cavlc_idr(*configuration, frame@, pic_order_cnt_lsb as int),
        planes_fit(
            encoded.coded_reconstruction@,
            configuration.macroblocks_wide as int,
            configuration.macroblocks_high as int,
        ),
{
    reveal(cavlc_idr);
    proof {
        configuration.lemma_sizes();
    }
    let wide: usize = configuration.macroblocks_wide;
    let high: usize = configuration.macroblocks_high;
    let count: usize = wide * high;
    let mut writer = BitWriter::new();
    write_idr_header(
        &mut writer,
        configuration.pic_order_cnt_type0,
        pic_order_cnt_lsb,
        configuration.qp,
    );
    let ghost header = idr_header(
        configuration.pic_order_cnt_type0,
        pic_order_cnt_lsb as int,
        configuration.qp as int,
    );
    assert(writer@ =~= header);
    let source: Planes = padded_planes(frame, wide, high);
    let qps: Vec<i32> = adaptive_macroblock_qps(
        source.luma.as_slice(),
        wide,
        high,
        configuration.qp,
        configuration.aq_strength,
    );
    let ghost all_qps = adaptive_qps(
        source.luma@,
        wide as int,
        high as int,
        configuration.qp as int,
        configuration.aq_strength as int,
    );
    let in_blocks = match configuration.mode {
        EncoderMode::Intra4 | EncoderMode::Inter => true,
        _ => false,
    };
    let bypass = configuration.transform_bypass && in_blocks;
    let mut coder: Coder = Coder::start(writer, wide, high, configuration.qp);
    let ghost start = coder@;
    let mut address: usize = 0;
    while address < count
        invariant
            address <= count,
            count == wide * high,
            0 < wide,
            wide == configuration.macroblocks_wide,
            high == configuration.macroblocks_high,
            bypass == (configuration.transform_bypass && uses_intra4(configuration.mode)),
            planes_fit(source@, wide as int, high as int),
            qps@.len() == count,
            forall|a: int|
                0 <= a < count ==> (#[trigger] qps@[a]) == all_qps[a] && quantizer(qps@[a] as int),
            coder.valid(wide as int, high as int),
            coder@ == idr_coded(*configuration, source@, all_qps, start, address as int),
        decreases count - address,
    {
        let x: usize = address % wide;
        let y: usize = address / wide;
        proof {
            vstd::arithmetic::div_mod::lemma_fundamental_div_mod(address as int, wide as int);
            assert(y < high) by (nonlinear_arith)
                requires
                    wide * y + x == address,
                    address < wide * high,
                    0 <= x,
                    0 < wide,
            ;
        }
        let site = Site {
            source: &source,
            wide,
            high,
            x,
            y,
            qp: qps[address],
            bypass,
            preset: configuration.scaling_matrix,
        };
        assert(site@ == idr_site(*configuration, source@, all_qps, address as int));
        coder.encode_idr_macroblock(configuration, &site);
        address = address + 1;
    }
    let mut rest: Coder = coder;
    finish_rbsp(&mut rest.writer);
    let nal: Vec<u8> = make_nal(0x65, rest.writer.into_bytes());
    let ipcm = match configuration.mode {
        EncoderMode::Ipcm => true,
        _ => false,
    };
    let coded_reconstruction: Planes = if ipcm {
        source
    } else {
        rest.planes
    };
    let reconstructed: VideoFrame = if ipcm {
        frame.clone()
    } else {
        visible_frame(frame, &coded_reconstruction, wide, high)
    };
    let (motion_l0, reference_l0_poc) = motionless(count);
    let macroblock_intra: Vec<bool> = vec![true; count];
    proof {
        assert(macroblock_intra@ =~= Seq::new((wide * high) as nat, |a: int| true));
    }
    EncodedFrame {
        nal,
        reconstructed,
        coded_reconstruction,
        motion_l0,
        reference_l0_poc,
        macroblock_intra,
    }
}

} // verus!
