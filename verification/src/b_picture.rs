//! Pictures that are predicted from an earlier and a later one.

use vstd::prelude::*;

use crate::b_direct::{b_motion_state, b_state, BSelectedPartition};
use crate::b_select::{all_b_fit, BDecisionModel, BInterDecision, BModel, BSite};
use crate::bits::{bits_of, packed, BitWriter};
use crate::cavlc_intra::{coder_after, Coder, CoderState};
use crate::cavlc_syntax::{chroma_written, luma_written};
use crate::config::{AnalysisPreset, BDirectMode, Configuration};
use crate::frame::{
    frame_fits, padded_planes, padded_samples, visible, visible_frame, FrameModel, VideoFrame,
};
use crate::framing::{make_nal, nal_of};
use crate::golomb::{finish_rbsp, finished, se_bits, ue_bits, write_se, write_ue};
use crate::idr::{coder_start, motionless, no_motion, EncodedFrame, EncodedModel};
use crate::inter_coding::{code_inter, encode_inter_residuals, inter_coded, luma_blocks};
use crate::inter_predict::predictable;
use crate::inter_residual::{chroma_coded_block_pattern, chroma_pattern, luma_pattern};
use crate::motion::{
    motions_fit, motions_small, row_fits, set_partition_motion, with_partition, BlockMotions,
    MotionState,
};
use crate::neighbors::rows;
use crate::p_picture::{
    inter_pattern_bits, inter_site, kinds_written, vector_bits, with_last_run,
    write_inter_pattern, write_kinds, write_motion_difference,
};
use crate::p_select::{EncoderReference, ReferencePicture, SelectedPartition};
use crate::picture::{planes_fit, Planes, Samples, Site, SiteModel};
use crate::quantize::quantizer;
use crate::quantizers::{adaptive_macroblock_qps, adaptive_qps, macroblock_qp_delta, qp_delta};

verus! {

/// The slice header of a picture that is predicted from an earlier and a later one.
pub open spec fn b_header(
    frame_num: int,
    pic_order_cnt_lsb: int,
    spatial: bool,
    cabac: bool,
    qp: int,
) -> Seq<bool> {
    ue_bits(0) + ue_bits(1) + ue_bits(0) + bits_of(frame_num as nat, 4) + bits_of(
        pic_order_cnt_lsb as nat,
        4,
    ) + seq![spatial, false, false, false] + (if cabac {
        ue_bits(0)
    } else {
        Seq::empty()
    }) + se_bits(qp - 26) + ue_bits(1)
}

/// Writes the slice header of a picture that is predicted from an earlier and a later one.
pub fn write_b_header(
    writer: &mut BitWriter,
    frame_num: u8,
    pic_order_cnt_lsb: u8,
    spatial: bool,
    cabac: bool,
    qp: i32,
)
    requires
        quantizer(qp as int),
    ensures
        final(writer)@ == old(writer)@ + b_header(
            frame_num as int,
            pic_order_cnt_lsb as int,
            spatial,
            cabac,
            qp as int,
        ),
{
    let ghost before = writer@;
    let _ = write_ue(writer, 0);
    let _ = write_ue(writer, 1);
    let _ = write_ue(writer, 0);
    writer.write_bits(frame_num as u64, 4);
    writer.write_bits(pic_order_cnt_lsb as u64, 4);
    writer.write_bit(spatial);
    writer.write_bit(false);
    writer.write_bit(false);
    writer.write_bit(false);
    if cabac {
        let _ = write_ue(writer, 0);
    }
    let _ = write_se(writer, (qp - 26) as i64);
    let _ = write_ue(writer, 1);
    assert(writer@ =~= before + b_header(
        frame_num as int,
        pic_order_cnt_lsb as int,
        spatial,
        cabac,
        qp as int,
    ));
}

/// One of the two motions of a part.
pub open spec fn motion_in(selected: BSelectedPartition, later: bool) -> Option<SelectedPartition> {
    if later {
        selected.list1
    } else {
        selected.list0
    }
}

/// The bits of the coded vectors of the first `count` parts from one of the pictures.
pub open spec fn list_written(
    selected: Seq<BSelectedPartition>,
    later: bool,
    count: int,
) -> Seq<bool>
    decreases count,
{
    if count <= 0 {
        Seq::empty()
    } else {
        let last = selected[count - 1];
        list_written(selected, later, count - 1) + match motion_in(last, later) {
            Some(found) => if last.direct {
                Seq::empty()
            } else {
                vector_bits(found)
            },
            None => Seq::empty(),
        }
    }
}

/// The bits that say how a macroblock is predicted from an earlier and a later picture.
pub open spec fn b_motion_bits(decision: BDecisionModel) -> Seq<bool> {
    let count = decision.partitions.len() as int;
    ue_bits(decision.macroblock_type as nat) + (if decision.macroblock_type == 22 {
        kinds_written(decision.sub_macroblock_types, 4)
    } else {
        Seq::empty()
    }) + if decision.direct {
        Seq::empty()
    } else {
        list_written(decision.partitions, false, count) + list_written(
            decision.partitions,
            true,
            count,
        )
    }
}

/// Whether all parts are large enough for eight-by-eight transforms.
pub open spec fn b_parts_large(selected: Seq<BSelectedPartition>) -> bool {
    forall|i: int|
        0 <= i < selected.len() ==> (#[trigger] selected[i]).part().block_width >= 2
            && selected[i].part().block_height >= 2
}

/// The motions of a macroblock from one of the pictures after those of the first `count` parts are
/// set.
pub open spec fn with_b_selected(
    row: Seq<Option<MotionState>>,
    selected: Seq<BSelectedPartition>,
    later: bool,
    count: int,
) -> Seq<Option<MotionState>>
    decreases count,
{
    if count <= 0 {
        row
    } else {
        let last = selected[count - 1];
        with_partition(
            with_b_selected(row, selected, later, count - 1),
            last.part(),
            b_state(motion_in(last, later)),
        )
    }
}

/// A picture that is being written, with the motions of its macroblocks.
#[verifier::ext_equal]
pub struct BState {
    /// Bits, samples, and counts.
    pub coder: CoderState,
    /// The motions of each macroblock's blocks from the earlier picture.
    pub motions_l0: Seq<Seq<Option<MotionState>>>,
    /// The motions of each macroblock's blocks from the later picture.
    pub motions_l1: Seq<Seq<Option<MotionState>>>,
    /// How many macroblocks in a row are not coded.
    pub skip_run: int,
}

/// The pictures around the one that is being written.
pub struct Surroundings {
    /// The earlier picture.
    pub previous: ReferencePicture,
    /// The later picture.
    pub future: ReferencePicture,
    /// The display order of the picture.
    pub picture_order_count: int,
}

/// A macroblock that is to be predicted from an earlier and a later picture.
pub open spec fn b_model(
    configuration: Configuration,
    around: Surroundings,
    state: BState,
    site: SiteModel,
) -> BModel {
    BModel {
        source: site.source,
        previous: around.previous,
        future: around.future,
        wide: site.wide,
        high: configuration.macroblocks_high as int,
        x: site.x,
        y: site.y,
        search_range: configuration.search_range as int,
        motions_l0: state.motions_l0,
        motions_l1: state.motions_l1,
        direct_mode: configuration.b_direct_mode,
        picture_order_count: around.picture_order_count,
    }
}

/// A picture after one more macroblock.
#[verifier::opaque]
pub open spec fn b_macroblock(
    configuration: Configuration,
    around: Surroundings,
    state: BState,
    site: SiteModel,
) -> BState {
    let address = site.address();
    let decision = b_model(configuration, around, state, site).decided(configuration.analysis);
    let count = decision.partitions.len() as int;
    let allowed = configuration.transform_8x8_mode && b_parts_large(decision.partitions);
    let coded = inter_coded(
        site,
        state.coder.planes,
        decision.prediction,
        allowed && configuration.analysis == AnalysisPreset::Full,
    );
    let luma_marks = luma_pattern(coded.luma);
    let chroma_marks = chroma_pattern(coded.cb, coded.cr);
    let pattern = luma_marks + 16 * chroma_marks;
    let motions_l0 = state.motions_l0.update(
        address,
        with_b_selected(state.motions_l0[address], decision.partitions, false, count),
    );
    let motions_l1 = state.motions_l1.update(
        address,
        with_b_selected(state.motions_l1[address], decision.partitions, true, count),
    );
    if decision.direct && pattern == 0 {
        BState {
            coder: CoderState { planes: coded.planes, ..state.coder },
            motions_l0,
            motions_l1,
            skip_run: state.skip_run + 1,
        }
    } else {
        let head = ue_bits(state.skip_run as nat) + b_motion_bits(decision) + inter_pattern_bits(
            pattern,
            luma_marks,
            allowed,
            coded.luma is EightByEight,
            qp_delta(state.coder.previous_qp, site.qp),
        );
        BState {
            coder: coder_after(
                chroma_written(
                    luma_written(
                        state.coder.written(head),
                        address,
                        site.wide,
                        luma_blocks(coded.luma),
                        luma_marks,
                        16,
                    ),
                    address,
                    site.wide,
                    coded.cb,
                    coded.cr,
                    chroma_marks,
                ),
                coded.planes,
                state.coder.modes,
                if pattern != 0 {
                    site.qp
                } else {
                    state.coder.previous_qp
                },
            ),
            motions_l0,
            motions_l1,
            skip_run: 0,
        }
    }
}

/// A picture after its first `count` macroblocks.
pub open spec fn b_coded(
    configuration: Configuration,
    around: Surroundings,
    source: Samples,
    qps: Seq<int>,
    start: BState,
    count: int,
) -> BState
    decreases count,
{
    if count <= 0 {
        start
    } else {
        b_macroblock(
            configuration,
            around,
            b_coded(configuration, around, source, qps, start, count - 1),
            inter_site(configuration, source, qps, count - 1),
        )
    }
}

/// A picture of which only the slice header is written, with the samples of another one.
#[verifier::opaque]
pub open spec fn b_start(
    header: Seq<bool>,
    planes: Samples,
    wide: int,
    high: int,
    qp: int,
) -> BState {
    BState {
        coder: CoderState { planes, ..coder_start(header, wide, high, qp) },
        motions_l0: no_motion(wide * high),
        motions_l1: no_motion(wide * high),
        skip_run: 0,
    }
}

/// An encoded picture that is predicted from an earlier and a later one.
#[verifier::opaque]
pub open spec fn cavlc_b_picture(
    configuration: Configuration,
    frame: FrameModel,
    around: Surroundings,
    frame_num: int,
    pic_order_cnt_lsb: int,
) -> EncodedModel {
    let wide = configuration.macroblocks_wide as int;
    let high = configuration.macroblocks_high as int;
    let qp = configuration.qp as int;
    let source = padded_samples(frame, wide, high);
    let qps = adaptive_qps(source.luma, wide, high, qp, configuration.aq_strength as int);
    let header = b_header(
        frame_num,
        pic_order_cnt_lsb,
        configuration.b_direct_mode == BDirectMode::Spatial,
        false,
        qp,
    );
    let start = b_start(header, around.previous.planes, wide, high, qp);
    let end = b_coded(configuration, around, source, qps, start, wide * high);
    EncodedModel {
        nal: nal_of(0x01, packed(finished(with_last_run(end.coder.bits, end.skip_run)))),
        reconstructed: visible(frame, end.coder.planes, wide),
        coded_reconstruction: end.coder.planes,
        motion_l0: Seq::empty(),
        reference_l0_poc: Seq::empty(),
        macroblock_intra: Seq::empty(),
    }
}

/// Writes the coded vectors of parts from one of the pictures.
fn write_list(writer: &mut BitWriter, selected: &[BSelectedPartition], later: bool)
    requires
        all_b_fit(selected@),
    ensures
        final(writer)@ == old(writer)@ + list_written(selected@, later, selected@.len() as int),
{
    let ghost before = writer@;
    let mut i: usize = 0;
    assert(writer@ =~= before + list_written(selected@, later, 0));
    while i < selected.len()
        invariant
            i <= selected@.len(),
            all_b_fit(selected@),
            writer@ == before + list_written(selected@, later, i as int),
        decreases selected@.len() - i,
    {
        assert(selected@[i as int].fits());
        let last: BSelectedPartition = selected[i];
        let motion: Option<SelectedPartition> = if later {
            last.list1
        } else {
            last.list0
        };
        if let Some(found) = motion {
            if !last.direct {
                write_motion_difference(writer, found);
            }
        }
        i = i + 1;
        assert(writer@ =~= before + list_written(selected@, later, i as int));
    }
}

/// Writes how a macroblock is predicted from an earlier and a later picture.
fn write_b_motion(writer: &mut BitWriter, decision: &BInterDecision)
    requires
        decision.valid(),
    ensures
        forall|cost: int|
            final(writer)@ == old(writer)@ + #[trigger] b_motion_bits(decision.model(cost)),
{
    let ghost before = writer@;
    let _ = write_ue(writer, decision.macroblock_type as u64);
    if decision.macroblock_type == 22 {
        write_kinds(writer, &decision.sub_macroblock_types);
    }
    if !decision.direct {
        write_list(writer, decision.partitions.as_slice(), false);
        write_list(writer, decision.partitions.as_slice(), true);
    }
    assert forall|cost: int| writer@ == before + #[trigger] b_motion_bits(decision.model(cost)) by {
        assert(writer@ =~= before + b_motion_bits(decision.model(cost)));
    }
}

/// Whether all parts are large enough for eight-by-eight transforms.
pub fn are_b_parts_large(selected: &[BSelectedPartition]) -> (result: bool)
    requires
        all_b_fit(selected@),
    ensures
        result == b_parts_large(selected@),
{
    let mut i: usize = 0;
    while i < selected.len()
        invariant
            i <= selected@.len(),
            all_b_fit(selected@),
            forall|j: int|
                0 <= j < i ==> (#[trigger] selected@[j]).part().block_width >= 2
                    && selected@[j].part().block_height >= 2,
        decreases selected@.len() - i,
    {
        assert(selected@[i as int].fits());
        let partition = selected[i].partition();
        if partition.block_width < 2 || partition.block_height < 2 {
            assert(!b_parts_large(selected@));
            return false;
        }
        i = i + 1;
    }
    true
}

/// Sets the motions of parts from one of the pictures.
pub fn commit_b_motion_history(
    row: &mut BlockMotions,
    selected: &[BSelectedPartition],
    later: bool,
)
    requires
        all_b_fit(selected@),
        row_fits(old(row)@),
    ensures
        final(row)@ == with_b_selected(old(row)@, selected@, later, selected@.len() as int),
        row_fits(final(row)@),
{
    let mut i: usize = 0;
    while i < selected.len()
        invariant
            i <= selected@.len(),
            all_b_fit(selected@),
            row_fits(row@),
            row@ == with_b_selected(old(row)@, selected@, later, i as int),
        decreases selected@.len() - i,
    {
        assert(selected@[i as int].fits());
        let last: BSelectedPartition = selected[i];
        let motion: Option<SelectedPartition> = if later {
            last.list1
        } else {
            last.list0
        };
        set_partition_motion(row, last.partition(), b_motion_state(motion));
        i = i + 1;
    }
}

/// Replaces the motions of a macroblock.
pub fn replace_row(motions: &mut Vec<BlockMotions>, address: usize, row: BlockMotions)
    requires
        address < old(motions)@.len(),
        motions_fit(rows(old(motions)@)),
        row_fits(row@),
    ensures
        rows(final(motions)@) == rows(old(motions)@).update(address as int, row@),
        motions_fit(rows(final(motions)@)),
        final(motions)@.len() == old(motions)@.len(),
{
    let ghost before = rows(motions@);
    motions.set(address, row);
    proof {
        let after = rows(motions@);
        assert(after =~= before.update(address as int, row@));
        assert forall|a: int| 0 <= a < after.len() implies row_fits(#[trigger] after[a]) by {
            if a != address {
                assert(after[a] == before[a]);
            }
        }
    }
}

/// A picture that is being written, with the motions of its macroblocks.
#[derive(Debug)]
pub struct BCoder {
    /// Bits, samples, and counts.
    pub coder: Coder,
    /// The motions of each macroblock's blocks from the earlier picture.
    pub motions_l0: Vec<BlockMotions>,
    /// The motions of each macroblock's blocks from the later picture.
    pub motions_l1: Vec<BlockMotions>,
    /// How many macroblocks in a row are not coded.
    pub skip_run: u64,
}

impl View for BCoder {
    type V = BState;

    open spec fn view(&self) -> BState {
        BState {
            coder: self.coder@,
            motions_l0: rows(self.motions_l0@),
            motions_l1: rows(self.motions_l1@),
            skip_run: self.skip_run as int,
        }
    }
}

/// Whether pictures are large enough for one of `wide` by `high` macroblocks between them.
pub open spec fn surroundings_fit(
    previous: &EncoderReference,
    future: &EncoderReference,
    wide: int,
    high: int,
) -> bool {
    &&& predictable(previous.planes@, wide, high)
    &&& predictable(future.planes@, wide, high)
    &&& motions_small(rows(future.motion_l0@))
}

impl BCoder {
    /// Whether the picture has `wide` by `high` macroblocks and is in order.
    pub open spec fn valid(&self, wide: int, high: int) -> bool {
        &&& self.coder.valid(wide, high)
        &&& self.motions_l0@.len() == wide * high
        &&& self.motions_l1@.len() == wide * high
        &&& motions_fit(rows(self.motions_l0@))
        &&& motions_fit(rows(self.motions_l1@))
    }

    /// A picture of which only the slice header is written, with the samples of another one.
    pub fn start(
        writer: BitWriter,
        planes: &Planes,
        macroblocks_wide: usize,
        macroblocks_high: usize,
        qp: i32,
    ) -> (picture: BCoder)
        requires
            planes_fit(planes@, macroblocks_wide as int, macroblocks_high as int),
            (16 * macroblocks_wide) * (16 * macroblocks_high) <= usize::MAX,
            macroblocks_wide * macroblocks_high <= usize::MAX,
            quantizer(qp as int),
        ensures
            picture@ == b_start(
                writer@,
                planes@,
                macroblocks_wide as int,
                macroblocks_high as int,
                qp as int,
            ),
            picture.valid(macroblocks_wide as int, macroblocks_high as int),
            picture.skip_run == 0,
    {
        reveal(b_start);
        let mut coder: Coder = Coder::start(writer, macroblocks_wide, macroblocks_high, qp);
        coder.planes = planes.clone();
        proof {
            crate::picture::lemma_plane_size(macroblocks_wide as int, macroblocks_high as int, 1);
        }
        let count: usize = macroblocks_wide * macroblocks_high;
        let (motions_l0, _) = motionless(count);
        let (motions_l1, _) = motionless(count);
        let picture = BCoder { coder, motions_l0, motions_l1, skip_run: 0 };
        proof {
            assert(rows(picture.motions_l0@).len() == count);
            assert(rows(picture.motions_l1@).len() == count);
            assert forall|a: int| 0 <= a < count implies row_fits(
                #[trigger] rows(picture.motions_l0@)[a],
            ) by {
                assert(rows(picture.motions_l0@)[a] == no_motion::<MotionState>(count as int)[a]);
            }
            assert forall|a: int| 0 <= a < count implies row_fits(
                #[trigger] rows(picture.motions_l1@)[a],
            ) by {
                assert(rows(picture.motions_l1@)[a] == no_motion::<MotionState>(count as int)[a]);
            }
        }
        picture
    }

    /// Codes a macroblock.
    fn encode_b_macroblock(
        &mut self,
        configuration: &Configuration,
        previous: &EncoderReference,
        future: &EncoderReference,
        picture_order_count: i32,
        site: &Site<'_>,
    )
        requires
            configuration.valid(),
            site.valid(),
            site.wide == configuration.macroblocks_wide,
            site.high == configuration.macroblocks_high,
            old(self).valid(site.wide as int, site.high as int),
            surroundings_fit(previous, future, site.wide as int, site.high as int),
            old(self).skip_run < u64::MAX - 1,
        ensures
            final(self).valid(site.wide as int, site.high as int),
            final(self)@ == b_macroblock(
                *configuration,
                (Surroundings {
                    previous: previous@,
                    future: future@,
                    picture_order_count: picture_order_count as int,
                }),
                old(self)@,
                site@,
            ),
            final(self).skip_run <= old(self).skip_run + 1,
    {
        reveal(b_macroblock);
        let ghost before = self@;
        let ghost around = Surroundings {
            previous: previous@,
            future: future@,
            picture_order_count: picture_order_count as int,
        };
        let address: usize = site.address();
        proof {
            configuration.lemma_sizes();
        }
        let place = BSite {
            source: site.source,
            previous,
            future,
            wide: site.wide,
            high: site.high,
            x: site.x,
            y: site.y,
            search_range: configuration.search_range,
            motions_l0: self.motions_l0.as_slice(),
            motions_l1: self.motions_l1.as_slice(),
            direct_mode: configuration.b_direct_mode,
            picture_order_count,
        };
        assert(place@ == b_model(*configuration, around, before, site@));
        let decision: BInterDecision = place.select_b_inter_partitions_with_analysis(
            configuration.analysis,
        );
        let ghost model = place@.decided(configuration.analysis);
        assert(decision.model(model.cost) == model);
        let allowed = configuration.transform_8x8_mode && are_b_parts_large(
            decision.partitions.as_slice(),
        );
        let full = match configuration.analysis {
            AnalysisPreset::Full => true,
            AnalysisPreset::Fast => false,
        };
        let mut row_l0: BlockMotions = self.motions_l0[address];
        let mut row_l1: BlockMotions = self.motions_l1[address];
        assert(before.motions_l0[address as int] == row_l0@);
        assert(before.motions_l1[address as int] == row_l1@);
        commit_b_motion_history(&mut row_l0, decision.partitions.as_slice(), false);
        commit_b_motion_history(&mut row_l1, decision.partitions.as_slice(), true);
        let (luma_levels, chroma_residuals) = code_inter(
            site,
            &mut self.coder.planes,
            &decision.prediction,
            allowed && full,
        );
        replace_row(&mut self.motions_l0, address, row_l0);
        replace_row(&mut self.motions_l1, address, row_l1);
        let luma_marks: u8 = luma_levels.coded_block_pattern();
        let chroma_marks: u8 = chroma_coded_block_pattern(&chroma_residuals);
        let pattern: u8 = luma_marks + chroma_marks * 16;
        if decision.direct && pattern == 0 {
            self.skip_run = self.skip_run + 1;
            return;
        }
        let delta: i32 = macroblock_qp_delta(self.coder.previous_qp, site.qp);
        let ghost bits = self.coder.writer@;
        let run: u64 = self.skip_run;
        let _ = write_ue(&mut self.coder.writer, run);
        write_b_motion(&mut self.coder.writer, &decision);
        write_inter_pattern(
            &mut self.coder.writer,
            pattern,
            luma_marks,
            allowed,
            luma_levels.uses_8x8(),
            delta,
        );
        proof {
            let head = ue_bits(run as nat) + b_motion_bits(model) + inter_pattern_bits(
                pattern as int,
                luma_marks as int,
                allowed,
                luma_levels@ is EightByEight,
                delta as int,
            );
            assert(self.coder.writer@ =~= bits + head);
        }
        self.skip_run = 0;
        encode_inter_residuals(
            &mut self.coder.writer,
            &luma_levels,
            &chroma_residuals,
            luma_marks,
            chroma_marks,
            &mut self.coder.luma_nonzero,
            &mut self.coder.chroma_nonzero,
            address,
            site.wide,
        );
        if pattern != 0 {
            self.coder.previous_qp = site.qp;
        }
    }

    /// Codes all macroblocks.
    fn encode_b_macroblocks(
        &mut self,
        configuration: &Configuration,
        previous: &EncoderReference,
        future: &EncoderReference,
        picture_order_count: i32,
        source: &Planes,
        qps: &[i32],
        Ghost(all_qps): Ghost<Seq<int>>,
    )
        requires
            configuration.valid(),
            planes_fit(
                source@,
                configuration.macroblocks_wide as int,
                configuration.macroblocks_high as int,
            ),
            surroundings_fit(
                previous,
                future,
                configuration.macroblocks_wide as int,
                configuration.macroblocks_high as int,
            ),
            qps@.len() == configuration.macroblocks_wide * configuration.macroblocks_high,
            forall|a: int|
                0 <= a < qps@.len() ==> (#[trigger] qps@[a]) == all_qps[a] && quantizer(
                    qps@[a] as int,
                ),
            old(self).valid(
                configuration.macroblocks_wide as int,
                configuration.macroblocks_high as int,
            ),
            old(self).skip_run == 0,
        ensures
            final(self).valid(
                configuration.macroblocks_wide as int,
                configuration.macroblocks_high as int,
            ),
            final(self)@ == b_coded(
                *configuration,
                (Surroundings {
                    previous: previous@,
                    future: future@,
                    picture_order_count: picture_order_count as int,
                }),
                source@,
                all_qps,
                old(self)@,
                configuration.macroblocks_wide * configuration.macroblocks_high,
            ),
            final(self).skip_run <= 36_864,
    {
        proof {
            configuration.lemma_sizes();
        }
        let wide: usize = configuration.macroblocks_wide;
        let high: usize = configuration.macroblocks_high;
        let count: usize = wide * high;
        let ghost around = Surroundings {
            previous: previous@,
            future: future@,
            picture_order_count: picture_order_count as int,
        };
        let ghost start = self@;
        let mut address: usize = 0;
        while address < count
            invariant
                address <= count,
                count == wide * high,
                0 < wide,
                configuration.valid(),
                wide == configuration.macroblocks_wide,
                high == configuration.macroblocks_high,
                planes_fit(source@, wide as int, high as int),
                surroundings_fit(previous, future, wide as int, high as int),
                around == (Surroundings {
                    previous: previous@,
                    future: future@,
                    picture_order_count: picture_order_count as int,
                }),
                qps@.len() == count,
                forall|a: int|
                    0 <= a < count ==> (#[trigger] qps@[a]) == all_qps[a] && quantizer(
                        qps@[a] as int,
                    ),
                self.valid(wide as int, high as int),
                self.skip_run <= address,
                count <= 36_864,
                self@ == b_coded(
                    *configuration,
                    around,
                    source@,
                    all_qps,
                    start,
                    address as int,
                ),
            decreases count - address,
        {
            let x: usize = address % wide;
            let y: usize = address / wide;
            proof {
                vstd::arithmetic::div_mod::lemma_fundamental_div_mod(address as int, wide as int);
                assert(y < high) by (nonlinear_arith)
                    requires
                        wide * y + x == address,
                        address < wide * high,
                        0 <= x,
                        0 < wide,
                ;
            }
            let site = Site {
                source,
                wide,
                high,
                x,
                y,
                qp: qps[address],
                bypass: configuration.transform_bypass,
                preset: configuration.scaling_matrix,
            };
            assert(site@ == inter_site(*configuration, source@, all_qps, address as int));
            self.encode_b_macroblock(
                configuration,
                previous,
                future,
                picture_order_count,
                &site,
            );
            address = address + 1;
        }
    }
}

/// Encodes a picture that is predicted from an earlier and a later one with variable-length codes.
pub fn encode_cavlc_b_picture(
    frame: &VideoFrame,
    configuration: &Configuration,
    previous: &EncoderReference,
    future: &EncoderReference,
    frame_num: u8,
    pic_order_cnt_lsb: u8,
    picture_order_count: i32,
) -> (encoded: EncodedFrame)
    requires
        configuration.valid(),
        frame_fits(
            frame@,
            configuration.macroblocks_wide as int,
            configuration.macroblocks_high as int,
        ),
        surroundings_fit(
            previous,
            future,
            configuration.macroblocks_wide as int,
            configuration.macroblocks_high as int,
        ),
    ensures
        encoded@ == cavlc_b_picture(
            *configuration,
            frame@,
            (Surroundings {
                previous: previous@,
                future: future@,
                picture_order_count: picture_order_count as int,
            }),
            frame_num as int,
            pic_order_cnt_lsb as int,
        ),
        planes_fit(
            encoded.coded_reconstruction@,
            configuration.macroblocks_wide as int,
            configuration.macroblocks_high as int,
        ),
{
    reveal(cavlc_b_picture);
    proof {
        configuration.lemma_sizes();
    }
    let wide: usize = configuration.macroblocks_wide;
    let high: usize = configuration.macroblocks_high;
    let spatial = match configuration.b_direct_mode {
        BDirectMode::Spatial => true,
        BDirectMode::Temporal => false,
    };
    let mut writer = BitWriter::new();
    write_b_header(
        &mut writer,
        frame_num,
        pic_order_cnt_lsb,
        spatial,
        false,
        configuration.qp,
    );
    assert(writer@ =~= b_header(
        frame_num as int,
        pic_order_cnt_lsb as int,
        spatial,
        false,
        configuration.qp as int,
    ));
    let source: Planes = padded_planes(frame, wide, high);
    let qps: Vec<i32> = adaptive_macroblock_qps(
        source.luma.as_slice(),
        wide,
        high,
        configuration.qp,
        configuration.aq_strength,
    );
    let ghost all_qps = adaptive_qps(
        source.luma@,
        wide as int,
        high as int,
        configuration.qp as int,
        configuration.aq_strength as int,
    );
    let mut picture: BCoder = BCoder::start(
        writer,
        &previous.planes,
        wide,
        high,
        configuration.qp,
    );
    picture.encode_b_macroblocks(
        configuration,
        previous,
        future,
        picture_order_count,
        &source,
        qps.as_slice(),
        Ghost(all_qps),
    );
    let mut rest: Coder = picture.coder;
    if picture.skip_run != 0 {
        let _ = write_ue(&mut rest.writer, picture.skip_run);
    }
    finish_rbsp(&mut rest.writer);
    let nal: Vec<u8> = make_nal(0x01, rest.writer.into_bytes());
    let reconstructed: VideoFrame = visible_frame(frame, &rest.planes, wide, high);
    let encoded = EncodedFrame {
        nal,
        reconstructed,
        coded_reconstruction: rest.planes,
        motion_l0: Vec::new(),
        reference_l0_poc: Vec::new(),
        macroblock_intra: Vec::new(),
    };
    proof {
        assert(rows(encoded.motion_l0@) =~= Seq::<Seq<Option<MotionState>>>::empty());
        assert(rows(encoded.reference_l0_poc@) =~= Seq::<Seq<Option<i32>>>::empty());
        assert(encoded.macroblock_intra@ =~= Seq::<bool>::empty());
    }
    encoded
}

} // verus!
