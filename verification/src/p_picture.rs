//! Pictures that are predicted from earlier ones.

use vstd::prelude::*;

use crate::bits::{bits_of, packed, BitWriter};
use crate::cavlc_intra::{coder_after, Coder, CoderState};
use crate::cavlc_syntax::{chroma_written, luma_written};
use crate::config::{AnalysisPreset, Configuration};
use crate::frame::{
    frame_fits, padded_planes, padded_samples, visible, visible_frame, FrameModel, VideoFrame,
};
use crate::framing::{make_nal, nal_of};
use crate::golomb::{
    finish_rbsp, finished, reference_index_bits, se_bits, ue_bits, write_reference_index, write_se,
    write_ue,
};
use crate::idr::{coder_start, motionless, no_motion, EncodedFrame, EncodedModel};
use crate::inter_coding::{code_inter, encode_inter_residuals, inter_coded, luma_blocks};
use crate::inter_residual::{chroma_coded_block_pattern, chroma_pattern, luma_pattern};
use crate::motion::{
    lemma_small_fits, make_whole_partition, motions_small, p_skip_motion, row_small, set_partition_motion, skip_vector,
    vector_fits, whole_partition, with_partition, BlockMotions, BlockOrders, MotionState,
    MotionVector,
};
use crate::neighbors::rows;
use crate::p_select::{
    all_selected_fit, pictures, references_fit, DecisionModel, EncoderReference, InterDecision,
    PictureModel, PictureSite, ReferencePicture, SelectedPartition,
};
use crate::patterns::{code_of_pattern, pattern_code};
use crate::picture::{planes_fit, Planes, Samples, Site, SiteModel};
use crate::quantize::quantizer;
use crate::quantizers::{adaptive_macroblock_qps, adaptive_qps, macroblock_qp_delta, qp_delta};

verus! {

/// The slice header of a picture that is predicted from earlier ones, up to its quantizer.
pub open spec fn p_header(
    frame_num: int,
    pic_order_cnt_type0: bool,
    pic_order_cnt_lsb: int,
    active_minus1: int,
    cabac: bool,
    qp: int,
) -> Seq<bool> {
    ue_bits(0) + ue_bits(0) + ue_bits(0) + bits_of(frame_num as nat, 4) + (if pic_order_cnt_type0 {
        bits_of(pic_order_cnt_lsb as nat, 4)
    } else {
        Seq::empty()
    }) + seq![active_minus1 != 0] + (if active_minus1 != 0 {
        ue_bits(active_minus1 as nat)
    } else {
        Seq::empty()
    }) + seq![false, false] + (if cabac {
        ue_bits(0)
    } else {
        Seq::empty()
    }) + se_bits(qp - 26) + ue_bits(1)
}

/// Writes the slice header of a picture that is predicted from earlier ones.
#[verifier::spinoff_prover]
#[verifier::rlimit(40)]
pub fn write_p_header(
    writer: &mut BitWriter,
    frame_num: u8,
    pic_order_cnt_type0: bool,
    pic_order_cnt_lsb: u8,
    active_minus1: u32,
    cabac: bool,
    qp: i32,
)
    requires
        quantizer(qp as int),
    ensures
        final(writer)@ == old(writer)@ + p_header(
            frame_num as int,
            pic_order_cnt_type0,
            pic_order_cnt_lsb as int,
            active_minus1 as int,
            cabac,
            qp as int,
        ),
{
    let ghost before = writer@;
    let _ = write_ue(writer, 0);
    let _ = write_ue(writer, 0);
    let _ = write_ue(writer, 0);
    writer.write_bits(frame_num as u64, 4);
    let ghost start = ue_bits(0) + ue_bits(0) + ue_bits(0) + bits_of(frame_num as nat, 4);
    assert(writer@ =~= before + start);
    if pic_order_cnt_type0 {
        writer.write_bits(pic_order_cnt_lsb as u64, 4);
    }
    let ghost ordered = start + (if pic_order_cnt_type0 {
        bits_of(pic_order_cnt_lsb as nat, 4)
    } else {
        Seq::empty()
    });
    assert(writer@ =~= before + ordered);
    writer.write_bit(active_minus1 != 0);
    if active_minus1 != 0 {
        let _ = write_ue(writer, active_minus1 as u64);
    }
    let ghost counted = ordered + seq![active_minus1 != 0] + (if active_minus1 != 0 {
        ue_bits(active_minus1 as nat)
    } else {
        Seq::empty()
    });
    assert(writer@ =~= before + counted);
    writer.write_bit(false);
    writer.write_bit(false);
    if cabac {
        let _ = write_ue(writer, 0);
    }
    let ghost flagged = counted + seq![false, false] + (if cabac {
        ue_bits(0)
    } else {
        Seq::empty()
    });
    assert(writer@ =~= before + flagged);
    let _ = write_se(writer, (qp - 26) as i64);
    let _ = write_ue(writer, 1);
    assert(writer@ =~= before + (flagged + se_bits(qp - 26) + ue_bits(1)));
}

/// The bits of the first `count` ways in which quarters are divided.
pub open spec fn kinds_written(kinds: Seq<u8>, count: int) -> Seq<bool>
    decreases count,
{
    if count <= 0 {
        Seq::empty()
    } else {
        kinds_written(kinds, count - 1) + ue_bits(kinds[count - 1] as nat)
    }
}

/// The same bits, some times.
pub open spec fn repeated(bits: Seq<bool>, count: int) -> Seq<bool>
    decreases count,
{
    if count <= 0 {
        Seq::empty()
    } else {
        repeated(bits, count - 1) + bits
    }
}

/// The bits of a vector.
pub open spec fn vector_bits(selected: SelectedPartition) -> Seq<bool> {
    se_bits(selected.motion.x - selected.predicted.x) + se_bits(
        selected.motion.y - selected.predicted.y,
    )
}

/// The bits of the first `count` vectors.
pub open spec fn vectors_written(selected: Seq<SelectedPartition>, count: int) -> Seq<bool>
    decreases count,
{
    if count <= 0 {
        Seq::empty()
    } else {
        vectors_written(selected, count - 1) + vector_bits(selected[count - 1])
    }
}

/// How many parts of a macroblock name the picture that they refer to.
pub open spec fn named_references(macroblock_type: int) -> int {
    if macroblock_type == 0 {
        1
    } else if macroblock_type == 3 {
        4
    } else {
        2
    }
}

/// The bits that say how a macroblock is predicted from earlier pictures.
pub open spec fn p_motion_bits(decision: DecisionModel, active_minus1: int) -> Seq<bool> {
    ue_bits(decision.macroblock_type as nat) + (if decision.macroblock_type == 3 {
        kinds_written(decision.sub_macroblock_types, 4)
    } else {
        Seq::empty()
    }) + repeated(
        reference_index_bits(
            decision.partitions[0].reference_index as nat,
            active_minus1 as nat,
        ),
        named_references(decision.macroblock_type as int),
    ) + vectors_written(decision.partitions, decision.partitions.len() as int)
}

/// The bits between the motion and the residual of a macroblock.
pub open spec fn inter_pattern_bits(
    pattern: int,
    luma_marks: int,
    transform_8x8_allowed: bool,
    uses_8x8: bool,
    delta: int,
) -> Seq<bool> {
    ue_bits(pattern_code(false, pattern)) + (if transform_8x8_allowed && luma_marks != 0 {
        seq![uses_8x8]
    } else {
        Seq::empty()
    }) + if pattern != 0 {
        se_bits(delta)
    } else {
        Seq::empty()
    }
}

/// Whether all parts are large enough for eight-by-eight transforms.
pub open spec fn parts_large(selected: Seq<SelectedPartition>) -> bool {
    forall|i: int|
        0 <= i < selected.len() ==> (#[trigger] selected[i]).partition.block_width >= 2
            && selected[i].partition.block_height >= 2
}

/// The motions of a macroblock after those of the first `count` parts are set.
pub open spec fn with_selected(
    row: Seq<Option<MotionState>>,
    selected: Seq<SelectedPartition>,
    count: int,
) -> Seq<Option<MotionState>>
    decreases count,
{
    if count <= 0 {
        row
    } else {
        let last = selected[count - 1];
        with_partition(
            with_selected(row, selected, count - 1),
            last.partition,
            MotionState { vector: last.motion, reference_index: Some(last.reference_index) },
        )
    }
}

/// A picture that is being written, with the motion of its macroblocks.
#[verifier::ext_equal]
pub struct PState {
    /// Bits, samples, and counts.
    pub coder: CoderState,
    /// The motions of each macroblock's blocks.
    pub motions: Seq<Seq<Option<MotionState>>>,
    /// How many macroblocks in a row are not coded.
    pub skip_run: int,
}

/// The picture in which a macroblock is to be predicted.
pub open spec fn picture_model(
    configuration: Configuration,
    site: SiteModel,
    motions: Seq<Seq<Option<MotionState>>>,
) -> PictureModel {
    PictureModel {
        source: site.source,
        wide: site.wide,
        high: configuration.macroblocks_high as int,
        x: site.x,
        y: site.y,
        search_range: configuration.search_range as int,
        analysis: configuration.analysis,
        motions,
    }
}

/// How a macroblock is predicted from earlier pictures.
#[verifier::opaque]
pub open spec fn p_decision(
    configuration: Configuration,
    references: Seq<ReferencePicture>,
    site: SiteModel,
    motions: Seq<Seq<Option<MotionState>>>,
) -> DecisionModel {
    let model = picture_model(configuration, site, motions);
    model.best_reference(references, model.tried_references(references))
}

/// Whether a macroblock needs no bits: nothing is left of it, and its motion is the expected one.
pub open spec fn p_skipped(decision: DecisionModel, pattern: int, skip: MotionVector) -> bool {
    pattern == 0 && decision.macroblock_type == 0 && decision.partitions[0].reference_index == 0
        && decision.partitions[0].motion == skip
}

/// A picture after one more macroblock.
#[verifier::opaque]
pub open spec fn p_macroblock(
    configuration: Configuration,
    references: Seq<ReferencePicture>,
    state: PState,
    site: SiteModel,
) -> PState {
    let address = site.address();
    let decision = p_decision(configuration, references, site, state.motions);
    let allowed = configuration.transform_8x8_mode && parts_large(decision.partitions);
    let coded = inter_coded(
        site,
        state.coder.planes,
        decision.prediction,
        allowed && configuration.analysis == AnalysisPreset::Full,
    );
    let luma_marks = luma_pattern(coded.luma);
    let chroma_marks = chroma_pattern(coded.cb, coded.cr);
    let pattern = luma_marks + 16 * chroma_marks;
    let skip = skip_vector(state.motions, address, site.wide);
    if p_skipped(decision, pattern, skip) {
        PState {
            coder: CoderState { planes: coded.planes, ..state.coder },
            motions: state.motions.update(
                address,
                with_partition(
                    state.motions[address],
                    whole_partition(),
                    MotionState { vector: skip, reference_index: Some(0) },
                ),
            ),
            skip_run: state.skip_run + 1,
        }
    } else {
        let head = ue_bits(state.skip_run as nat) + p_motion_bits(
            decision,
            references.len() - 1,
        ) + inter_pattern_bits(
            pattern,
            luma_marks,
            allowed,
            coded.luma is EightByEight,
            qp_delta(state.coder.previous_qp, site.qp),
        );
        PState {
            coder: coder_after(
                chroma_written(
                    luma_written(
                        state.coder.written(head),
                        address,
                        site.wide,
                        luma_blocks(coded.luma),
                        luma_marks,
                        16,
                    ),
                    address,
                    site.wide,
                    coded.cb,
                    coded.cr,
                    chroma_marks,
                ),
                coded.planes,
                state.coder.modes,
                if pattern != 0 {
                    site.qp
                } else {
                    state.coder.previous_qp
                },
            ),
            motions: state.motions.update(
                address,
                with_selected(
                    state.motions[address],
                    decision.partitions,
                    decision.partitions.len() as int,
                ),
            ),
            skip_run: 0,
        }
    }
}

/// Where and how a macroblock of a predicted picture is coded.
pub open spec fn inter_site(
    configuration: Configuration,
    source: Samples,
    qps: Seq<int>,
    address: int,
) -> SiteModel {
    let wide = configuration.macroblocks_wide as int;
    SiteModel {
        source,
        wide,
        x: address % wide,
        y: address / wide,
        qp: qps[address],
        bypass: configuration.transform_bypass,
        preset: configuration.scaling_matrix,
    }
}

/// A picture after its first `count` macroblocks.
pub open spec fn p_coded(
    configuration: Configuration,
    references: Seq<ReferencePicture>,
    source: Samples,
    qps: Seq<int>,
    start: PState,
    count: int,
) -> PState
    decreases count,
{
    if count <= 0 {
        start
    } else {
        p_macroblock(
            configuration,
            references,
            p_coded(configuration, references, source, qps, start, count - 1),
            inter_site(configuration, source, qps, count - 1),
        )
    }
}

/// All bits of a picture, with those that tell of the macroblocks at its end that are not coded.
pub open spec fn with_last_run(bits: Seq<bool>, skip_run: int) -> Seq<bool> {
    if skip_run != 0 {
        bits + ue_bits(skip_run as nat)
    } else {
        bits
    }
}

/// The display order of the picture that a block refers to.
pub open spec fn order_of(motion: Option<MotionState>, references: Seq<ReferencePicture>) -> Option<
    i32,
> {
    match motion {
        Some(state) => match state.reference_index {
            Some(index) => if index < references.len() {
                Some(references[index as int].pic_order_count as i32)
            } else {
                None
            },
            None => None,
        },
        None => None,
    }
}

/// The display orders of the pictures that the blocks of a picture refer to.
pub open spec fn orders_of(
    motions: Seq<Seq<Option<MotionState>>>,
    references: Seq<ReferencePicture>,
) -> Seq<Seq<Option<i32>>> {
    Seq::new(
        motions.len(),
        |a: int| Seq::new(16, |b: int| order_of(motions[a][b], references)),
    )
}

/// A picture of which only the slice header is written, with the samples of another one.
#[verifier::opaque]
pub open spec fn p_start(
    header: Seq<bool>,
    planes: Samples,
    wide: int,
    high: int,
    qp: int,
) -> PState {
    PState {
        coder: CoderState { planes, ..coder_start(header, wide, high, qp) },
        motions: no_motion(wide * high),
        skip_run: 0,
    }
}

/// An encoded picture that is predicted from earlier ones.
#[verifier::opaque]
pub open spec fn cavlc_p_picture(
    configuration: Configuration,
    frame: FrameModel,
    references: Seq<ReferencePicture>,
    frame_num: int,
    pic_order_cnt_lsb: int,
) -> EncodedModel {
    let wide = configuration.macroblocks_wide as int;
    let high = configuration.macroblocks_high as int;
    let qp = configuration.qp as int;
    let source = padded_samples(frame, wide, high);
    let qps = adaptive_qps(source.luma, wide, high, qp, configuration.aq_strength as int);
    let header = p_header(
        frame_num,
        configuration.pic_order_cnt_type0,
        pic_order_cnt_lsb,
        references.len() - 1,
        false,
        qp,
    );
    let start = p_start(header, references[0].planes, wide, high, qp);
    let end = p_coded(configuration, references, source, qps, start, wide * high);
    EncodedModel {
        nal: nal_of(0x41, packed(finished(with_last_run(end.coder.bits, end.skip_run)))),
        reconstructed: visible(frame, end.coder.planes, wide),
        coded_reconstruction: end.coder.planes,
        motion_l0: end.motions,
        reference_l0_poc: orders_of(end.motions, references),
        macroblock_intra: Seq::new((wide * high) as nat, |a: int| false),
    }
}

/// Writes how quarters are divided.
pub fn write_kinds(writer: &mut BitWriter, kinds: &[u8; 4])
    ensures
        final(writer)@ == old(writer)@ + kinds_written(kinds@, 4),
{
    let ghost before = writer@;
    let mut i: usize = 0;
    assert(writer@ =~= before + kinds_written(kinds@, 0));
    while i < 4
        invariant
            i <= 4,
            writer@ == before + kinds_written(kinds@, i as int),
        decreases 4 - i,
    {
        let _ = write_ue(writer, kinds[i] as u64);
        i = i + 1;
        assert(writer@ =~= before + kinds_written(kinds@, i as int));
    }
}

/// Writes a vector as its difference from the predicted one.
pub fn write_motion_difference(writer: &mut BitWriter, selected: SelectedPartition)
    requires
        vector_fits(selected.motion),
        vector_fits(selected.predicted),
    ensures
        final(writer)@ == old(writer)@ + vector_bits(selected),
{
    let ghost before = writer@;
    let _ = write_se(writer, (selected.motion.x - selected.predicted.x) as i64);
    let _ = write_se(writer, (selected.motion.y - selected.predicted.y) as i64);
    assert(writer@ =~= before + vector_bits(selected));
}

/// Writes how a macroblock is predicted from earlier pictures.
fn write_p_motion(writer: &mut BitWriter, decision: &InterDecision, active_minus1: u32)
    requires
        decision.valid(),
        decision.partitions@[0].reference_index <= active_minus1,
    ensures
        forall|cost: int|
            final(writer)@ == old(writer)@ + #[trigger] p_motion_bits(
                decision.model(cost),
                active_minus1 as int,
            ),
{
    let ghost before = writer@;
    let ghost model = decision.model(0);
    let kind: u8 = decision.macroblock_type;
    let _ = write_ue(writer, kind as u64);
    if kind == 3 {
        write_kinds(writer, &decision.sub_macroblock_types);
    }
    let ghost head = ue_bits(kind as nat) + (if kind == 3 {
        kinds_written(model.sub_macroblock_types, 4)
    } else {
        Seq::empty()
    });
    assert(writer@ =~= before + head);
    let count: usize = if kind == 0 {
        1
    } else if kind == 3 {
        4
    } else {
        2
    };
    let index: u8 = decision.partitions[0].reference_index;
    let ghost index_bits = reference_index_bits(index as nat, active_minus1 as nat);
    let mut named: usize = 0;
    assert(writer@ =~= before + head + repeated(index_bits, 0));
    while named < count
        invariant
            named <= count,
            index <= active_minus1,
            index_bits == reference_index_bits(index as nat, active_minus1 as nat),
            writer@ == before + head + repeated(index_bits, named as int),
        decreases count - named,
    {
        let _ = write_reference_index(writer, index, active_minus1);
        named = named + 1;
        assert(writer@ =~= before + head + repeated(index_bits, named as int));
    }
    let ghost named_head = head + repeated(index_bits, count as int);
    let ghost parts = decision.partitions@;
    let mut i: usize = 0;
    assert(writer@ =~= before + named_head + vectors_written(parts, 0));
    while i < decision.partitions.len()
        invariant
            i <= decision.partitions@.len(),
            decision.valid(),
            parts == decision.partitions@,
            writer@ == before + named_head + vectors_written(parts, i as int),
        decreases decision.partitions@.len() - i,
    {
        assert(all_selected_fit(parts));
        assert(crate::p_select::selected_fits(parts[i as int]));
        write_motion_difference(writer, decision.partitions[i]);
        i = i + 1;
        assert(writer@ =~= before + named_head + vectors_written(parts, i as int));
    }
    assert forall|cost: int| writer@ == before + #[trigger] p_motion_bits(
        decision.model(cost),
        active_minus1 as int,
    ) by {
        assert(writer@ =~= before + p_motion_bits(decision.model(cost), active_minus1 as int));
    }
}

/// Writes what stands between the motion and the residual of a macroblock.
pub fn write_inter_pattern(
    writer: &mut BitWriter,
    pattern: u8,
    luma_marks: u8,
    transform_8x8_allowed: bool,
    uses_8x8: bool,
    delta: i32,
)
    requires
        pattern < 48,
    ensures
        final(writer)@ == old(writer)@ + inter_pattern_bits(
            pattern as int,
            luma_marks as int,
            transform_8x8_allowed,
            uses_8x8,
            delta as int,
        ),
{
    let ghost before = writer@;
    let code: u64 = code_of_pattern(false, pattern);
    let _ = write_ue(writer, code);
    if transform_8x8_allowed && luma_marks != 0 {
        writer.write_bit(uses_8x8);
    }
    if pattern != 0 {
        let _ = write_se(writer, delta as i64);
    }
    assert(writer@ =~= before + inter_pattern_bits(
        pattern as int,
        luma_marks as int,
        transform_8x8_allowed,
        uses_8x8,
        delta as int,
    ));
}

/// Whether all parts are large enough for eight-by-eight transforms.
pub fn are_parts_large(selected: &[SelectedPartition]) -> (result: bool)
    ensures
        result == parts_large(selected@),
{
    let mut i: usize = 0;
    while i < selected.len()
        invariant
            i <= selected@.len(),
            forall|j: int|
                0 <= j < i ==> (#[trigger] selected@[j]).partition.block_width >= 2
                    && selected@[j].partition.block_height >= 2,
        decreases selected@.len() - i,
    {
        if selected[i].partition.block_width < 2 || selected[i].partition.block_height < 2 {
            assert(!parts_large(selected@));
            return false;
        }
        i = i + 1;
    }
    true
}

/// A picture that is being written, with the motion of its macroblocks.
#[derive(Debug)]
pub struct PCoder {
    /// Bits, samples, and counts.
    pub coder: Coder,
    /// The motions of each macroblock's blocks.
    pub motions: Vec<BlockMotions>,
    /// How many macroblocks in a row are not coded.
    pub skip_run: u64,
}

impl View for PCoder {
    type V = PState;

    open spec fn view(&self) -> PState {
        PState {
            coder: self.coder@,
            motions: rows(self.motions@),
            skip_run: self.skip_run as int,
        }
    }
}

impl PCoder {
    /// Whether the picture has `wide` by `high` macroblocks and is in order.
    pub open spec fn valid(&self, wide: int, high: int) -> bool {
        &&& self.coder.valid(wide, high)
        &&& self.motions@.len() == wide * high
        &&& motions_small(rows(self.motions@))
    }

    /// Replaces the motions of a macroblock.
    fn set_motions(&mut self, address: usize, row: BlockMotions)
        requires
            address < old(self).motions@.len(),
            motions_small(rows(old(self).motions@)),
            row_small(row@),
        ensures
            rows(final(self).motions@) == rows(old(self).motions@).update(address as int, row@),
            motions_small(rows(final(self).motions@)),
            final(self).motions@.len() == old(self).motions@.len(),
            final(self).coder == old(self).coder,
            final(self).skip_run == old(self).skip_run,
    {
        let ghost before = rows(self.motions@);
        self.motions.set(address, row);
        proof {
            let after = rows(self.motions@);
            assert(after =~= before.update(address as int, row@));
            assert forall|a: int| 0 <= a < after.len() implies row_small(#[trigger] after[a]) by {
                if a != address {
                    assert(after[a] == before[a]);
                }
            }
        }
    }

    /// Codes a macroblock.
    #[verifier::spinoff_prover]
    #[verifier::rlimit(40)]
    fn encode_p_macroblock(
        &mut self,
        configuration: &Configuration,
        references: &[EncoderReference],
        site: &Site<'_>,
    )
        requires
            configuration.valid(),
            site.valid(),
            site.wide == configuration.macroblocks_wide,
            site.high == configuration.macroblocks_high,
            old(self).valid(site.wide as int, site.high as int),
            references_fit(references@, site.wide as int, site.high as int),
            old(self).skip_run < u64::MAX - 1,
        ensures
            final(self).valid(site.wide as int, site.high as int),
            final(self)@ == p_macroblock(
                *configuration,
                pictures(references@),
                old(self)@,
                site@,
            ),
            final(self).skip_run <= old(self).skip_run + 1,
    {
        reveal(p_macroblock);
        reveal(p_decision);
        let ghost before = self@;
        let ghost list = pictures(references@);
        let address: usize = site.address();
        proof {
            configuration.lemma_sizes();
            lemma_small_fits(before.motions);
        }
        let place = PictureSite {
            source: site.source,
            wide: site.wide,
            high: site.high,
            x: site.x,
            y: site.y,
            search_range: configuration.search_range,
            analysis: configuration.analysis,
            motions: self.motions.as_slice(),
        };
        assert(place@ == picture_model(*configuration, site@, before.motions));
        let decision: InterDecision = place.select_inter_partitions_with_analysis(references);
        let ghost model = p_decision(*configuration, list, site@, before.motions);
        assert(decision.model(model.cost) == model);
        let allowed = configuration.transform_8x8_mode && are_parts_large(
            decision.partitions.as_slice(),
        );
        let full = match configuration.analysis {
            AnalysisPreset::Full => true,
            AnalysisPreset::Fast => false,
        };
        let (luma_levels, chroma_residuals) = code_inter(
            site,
            &mut self.coder.planes,
            &decision.prediction,
            allowed && full,
        );
        let luma_marks: u8 = luma_levels.coded_block_pattern();
        let chroma_marks: u8 = chroma_coded_block_pattern(&chroma_residuals);
        let pattern: u8 = luma_marks + chroma_marks * 16;
        let skip: MotionVector = p_skip_motion(self.motions.as_slice(), address, site.wide);
        let mut row: BlockMotions = self.motions[address];
        assert(rows(self.motions@)[address as int] == row@);
        let first: SelectedPartition = decision.partitions[0];
        if pattern == 0 && decision.macroblock_type == 0 && first.reference_index == 0
            && first.motion.x == skip.x && first.motion.y == skip.y {
            self.skip_run = self.skip_run + 1;
            set_partition_motion(
                &mut row,
                make_whole_partition(),
                MotionState { vector: skip, reference_index: Some(0) },
            );
            self.set_motions(address, row);
            return;
        }
        let active_minus1: u32 = references.len() as u32 - 1;
        let delta: i32 = macroblock_qp_delta(self.coder.previous_qp, site.qp);
        let ghost bits = self.coder.writer@;
        let run: u64 = self.skip_run;
        let _ = write_ue(&mut self.coder.writer, run);
        write_p_motion(&mut self.coder.writer, &decision, active_minus1);
        write_inter_pattern(
            &mut self.coder.writer,
            pattern,
            luma_marks,
            allowed,
            luma_levels.uses_8x8(),
            delta,
        );
        proof {
            let head = ue_bits(run as nat) + p_motion_bits(model, active_minus1 as int)
                + inter_pattern_bits(
                pattern as int,
                luma_marks as int,
                allowed,
                luma_levels@ is EightByEight,
                delta as int,
            );
            assert(self.coder.writer@ =~= bits + head);
        }
        self.skip_run = 0;
        encode_inter_residuals(
            &mut self.coder.writer,
            &luma_levels,
            &chroma_residuals,
            luma_marks,
            chroma_marks,
            &mut self.coder.luma_nonzero,
            &mut self.coder.chroma_nonzero,
            address,
            site.wide,
        );
        if pattern != 0 {
            self.coder.previous_qp = site.qp;
        }
        set_selected(&mut row, decision.partitions.as_slice());
        self.set_motions(address, row);
    }

    /// A picture of which only the slice header is written, with the samples of another one.
    pub fn start(
        writer: BitWriter,
        planes: &Planes,
        macroblocks_wide: usize,
        macroblocks_high: usize,
        qp: i32,
    ) -> (picture: PCoder)
        requires
            planes_fit(planes@, macroblocks_wide as int, macroblocks_high as int),
            (16 * macroblocks_wide) * (16 * macroblocks_high) <= usize::MAX,
            macroblocks_wide * macroblocks_high <= usize::MAX,
            quantizer(qp as int),
        ensures
            picture@ == p_start(
                writer@,
                planes@,
                macroblocks_wide as int,
                macroblocks_high as int,
                qp as int,
            ),
            picture.valid(macroblocks_wide as int, macroblocks_high as int),
            picture.skip_run == 0,
    {
        reveal(p_start);
        let mut coder: Coder = Coder::start(writer, macroblocks_wide, macroblocks_high, qp);
        coder.planes = planes.clone();
        proof {
            crate::picture::lemma_plane_size(macroblocks_wide as int, macroblocks_high as int, 1);
        }
        let count: usize = macroblocks_wide * macroblocks_high;
        let (motions, _) = motionless(count);
        let picture = PCoder { coder, motions, skip_run: 0 };
        proof {
            assert(rows(picture.motions@).len() == count);
            assert forall|a: int| 0 <= a < count implies row_small(
                #[trigger] rows(picture.motions@)[a],
            ) by {
                assert(rows(picture.motions@)[a] == no_motion::<MotionState>(count as int)[a]);
            }
        }
        picture
    }

    /// Codes all macroblocks.
    fn encode_p_macroblocks(
        &mut self,
        configuration: &Configuration,
        references: &[EncoderReference],
        source: &Planes,
        qps: &[i32],
        Ghost(all_qps): Ghost<Seq<int>>,
    )
        requires
            configuration.valid(),
            planes_fit(
                source@,
                configuration.macroblocks_wide as int,
                configuration.macroblocks_high as int,
            ),
            references_fit(
                references@,
                configuration.macroblocks_wide as int,
                configuration.macroblocks_high as int,
            ),
            qps@.len() == configuration.macroblocks_wide * configuration.macroblocks_high,
            forall|a: int|
                0 <= a < qps@.len() ==> (#[trigger] qps@[a]) == all_qps[a] && quantizer(
                    qps@[a] as int,
                ),
            old(self).valid(
                configuration.macroblocks_wide as int,
                configuration.macroblocks_high as int,
            ),
            old(self).skip_run == 0,
        ensures
            final(self).valid(
                configuration.macroblocks_wide as int,
                configuration.macroblocks_high as int,
            ),
            final(self)@ == p_coded(
                *configuration,
                pictures(references@),
                source@,
                all_qps,
                old(self)@,
                configuration.macroblocks_wide * configuration.macroblocks_high,
            ),
            final(self).skip_run <= 36_864,
    {
        proof {
            configuration.lemma_sizes();
        }
        let wide: usize = configuration.macroblocks_wide;
        let high: usize = configuration.macroblocks_high;
        let count: usize = wide * high;
        let ghost list = pictures(references@);
        let ghost start = self@;
        let mut address: usize = 0;
        while address < count
            invariant
                address <= count,
                count == wide * high,
                0 < wide,
                configuration.valid(),
                wide == configuration.macroblocks_wide,
                high == configuration.macroblocks_high,
                planes_fit(source@, wide as int, high as int),
                references_fit(references@, wide as int, high as int),
                list == pictures(references@),
                qps@.len() == count,
                forall|a: int|
                    0 <= a < count ==> (#[trigger] qps@[a]) == all_qps[a] && quantizer(qps@[a] as int),
                self.valid(wide as int, high as int),
                self.skip_run <= address,
                count <= 36_864,
                self@ == p_coded(*configuration, list, source@, all_qps, start, address as int),
            decreases count - address,
        {
            let x: usize = address % wide;
            let y: usize = address / wide;
            proof {
                vstd::arithmetic::div_mod::lemma_fundamental_div_mod(address as int, wide as int);
                assert(y < high) by (nonlinear_arith)
                    requires
                        wide * y + x == address,
                        address < wide * high,
                        0 <= x,
                        0 < wide,
                ;
            }
            let site = Site {
                source,
                wide,
                high,
                x,
                y,
                qp: qps[address],
                bypass: configuration.transform_bypass,
                preset: configuration.scaling_matrix,
            };
            assert(site@ == inter_site(*configuration, source@, all_qps, address as int));
            self.encode_p_macroblock(configuration, references, &site);
            address = address + 1;
        }
    }
}

/// Sets the motions of parts.
pub fn set_selected(row: &mut BlockMotions, selected: &[SelectedPartition])
    requires
        all_selected_fit(selected@),
        row_small(old(row)@),
    ensures
        final(row)@ == with_selected(old(row)@, selected@, selected@.len() as int),
        row_small(final(row)@),
{
    let mut i: usize = 0;
    while i < selected.len()
        invariant
            i <= selected@.len(),
            all_selected_fit(selected@),
            row_small(row@),
            row@ == with_selected(old(row)@, selected@, i as int),
        decreases selected@.len() - i,
    {
        assert(crate::p_select::selected_fits(selected@[i as int]));
        let last: SelectedPartition = selected[i];
        set_partition_motion(
            row,
            last.partition,
            MotionState { vector: last.motion, reference_index: Some(last.reference_index) },
        );
        i = i + 1;
    }
}

/// Finds the display orders of the pictures that the blocks of a macroblock refer to.
fn find_orders(row: &BlockMotions, references: &[EncoderReference]) -> (orders: BlockOrders)
    ensures
        forall|b: int|
            0 <= b < 16 ==> #[trigger] orders@[b] == order_of(row@[b], pictures(references@)),
{
    let mut orders: BlockOrders = [None; 16];
    let mut b: usize = 0;
    while b < 16
        invariant
            b <= 16,
            forall|j: int|
                0 <= j < b ==> #[trigger] orders@[j] == order_of(row@[j], pictures(references@)),
        decreases 16 - b,
    {
        let index: Option<u8> = match row[b] {
            Some(state) => state.reference_index,
            None => None,
        };
        orders[b] = match index {
            Some(index) => if (index as usize) < references.len() {
                Some(references[index as usize].pic_order_count)
            } else {
                None
            },
            None => None,
        };
        b = b + 1;
    }
    orders
}

/// Finds the display orders of the pictures that the blocks of a picture refer to.
pub fn collect_orders(motions: &[BlockMotions], references: &[EncoderReference]) -> (orders: Vec<
    BlockOrders,
>)
    ensures
        rows(orders@) == orders_of(rows(motions@), pictures(references@)),
{
    let ghost expected = orders_of(rows(motions@), pictures(references@));
    let mut orders: Vec<BlockOrders> = Vec::with_capacity(motions.len());
    let mut a: usize = 0;
    while a < motions.len()
        invariant
            a <= motions@.len(),
            orders@.len() == a,
            expected == orders_of(rows(motions@), pictures(references@)),
            forall|j: int| 0 <= j < a ==> (#[trigger] orders@[j])@ == expected[j],
        decreases motions@.len() - a,
    {
        let row: BlockOrders = find_orders(&motions[a], references);
        assert(row@ =~= expected[a as int]);
        orders.push(row);
        a = a + 1;
    }
    assert(rows(orders@) =~= expected);
    orders
}

/// Encodes a picture that is predicted from earlier ones with variable-length codes.
pub fn encode_cavlc_p_picture(
    frame: &VideoFrame,
    configuration: &Configuration,
    references: &[EncoderReference],
    frame_num: u8,
    pic_order_cnt_lsb: u8,
) -> (encoded: EncodedFrame)
    requires
        configuration.valid(),
        frame_fits(
            frame@,
            configuration.macroblocks_wide as int,
            configuration.macroblocks_high as int,
        ),
        references_fit(
            references@,
            configuration.macroblocks_wide as int,
            configuration.macroblocks_high as int,
        ),
    ensures
        encoded@ == cavlc_p_picture(
            *configuration,
            frame@,
            pictures(references@),
            frame_num as int,
            pic_order_cnt_lsb as int,
        ),
        planes_fit(
            encoded.coded_reconstruction@,
            configuration.macroblocks_wide as int,
            configuration.macroblocks_high as int,
        ),
        motions_small(rows(encoded.motion_l0@)),
{
    reveal(cavlc_p_picture);
    proof {
        configuration.lemma_sizes();
    }
    let wide: usize = configuration.macroblocks_wide;
    let high: usize = configuration.macroblocks_high;
    let count: usize = wide * high;
    let ghost list = pictures(references@);
    let active_minus1: u32 = references.len() as u32 - 1;
    let mut writer = BitWriter::new();
    write_p_header(
        &mut writer,
        frame_num,
        configuration.pic_order_cnt_type0,
        pic_order_cnt_lsb,
        active_minus1,
        false,
        configuration.qp,
    );
    let ghost header = p_header(
        frame_num as int,
        configuration.pic_order_cnt_type0,
        pic_order_cnt_lsb as int,
        active_minus1 as int,
        false,
        configuration.qp as int,
    );
    assert(writer@ =~= header);
    let source: Planes = padded_planes(frame, wide, high);
    let qps: Vec<i32> = adaptive_macroblock_qps(
        source.luma.as_slice(),
        wide,
        high,
        configuration.qp,
        configuration.aq_strength,
    );
    let ghost all_qps = adaptive_qps(
        source.luma@,
        wide as int,
        high as int,
        configuration.qp as int,
        configuration.aq_strength as int,
    );
    assert(list[0] == references@[0]@);
    let mut picture: PCoder = PCoder::start(
        writer,
        &references[0].planes,
        wide,
        high,
        configuration.qp,
    );
    picture.encode_p_macroblocks(configuration, references, &source, qps.as_slice(), Ghost(all_qps));
    let mut rest: Coder = picture.coder;
    if picture.skip_run != 0 {
        let _ = write_ue(&mut rest.writer, picture.skip_run);
    }
    finish_rbsp(&mut rest.writer);
    let nal: Vec<u8> = make_nal(0x41, rest.writer.into_bytes());
    let reconstructed: VideoFrame = visible_frame(frame, &rest.planes, wide, high);
    let reference_l0_poc: Vec<BlockOrders> = collect_orders(picture.motions.as_slice(), references);
    let macroblock_intra: Vec<bool> = vec![false; count];
    proof {
        assert(macroblock_intra@ =~= Seq::new((wide * high) as nat, |a: int| false));
    }
    EncodedFrame {
        nal,
        reconstructed,
        coded_reconstruction: rest.planes,
        motion_l0: picture.motions,
        reference_l0_poc,
        macroblock_intra,
    }
}

} // verus!
