//! Pictures that are predicted from earlier ones and written with arithmetic coding.

use vstd::prelude::*;

use crate::arithmetic::Bin;
use crate::bins::inner_bins;
use crate::bits::BitWriter;
use crate::cabac_inter::{InterCoder, InterState};
use crate::cabac_intra::header_bytes;
use crate::config::{AnalysisPreset, Configuration};
use crate::contexts::{encode_picture_bins, picture_bytes};
use crate::frame::{
    frame_fits, padded_planes, padded_samples, visible, visible_frame, FrameModel, VideoFrame,
};
use crate::framing::{make_nal, nal_of};
use crate::idr::{motionless, no_motion, EncodedFrame, EncodedModel};
use crate::inter_bins::{
    difference_coded, encode_cabac_p_macroblock_type, encode_cabac_p_sub_macroblock_type,
    encode_cabac_partition_motion_difference, encode_cabac_reference_indices, indices_coded,
    reference_parts, sub_type_p_bins, type_p_bins, Differences, Indices,
};
use crate::inter_coding::{code_inter, inter_coded};
use crate::inter_residual::{chroma_coded_block_pattern, chroma_pattern, luma_pattern};
use crate::marks::Symbols;
use crate::motion::{
    lemma_small_fits, make_whole_partition, motions_small, p_skip_motion, row_small,
    set_partition_motion, skip_vector, whole_partition, with_partition, BlockMotions, BlockOrders,
    MotionState, MotionVector,
};
use crate::neighbors::rows;
use crate::p_picture::{
    are_parts_large, collect_orders, inter_site, orders_of, p_decision, p_header, p_skipped,
    parts_large, picture_model, set_selected, with_selected, write_p_header,
};
use crate::p_select::{
    all_selected_fit, pictures, references_fit, DecisionModel, EncoderReference, InterDecision,
    PictureSite, ReferencePicture, SelectedPartition,
};
use crate::picture::{planes_fit, Planes, Samples, Site, SiteModel};
use crate::quantize::quantizer;
use crate::quantizers::{adaptive_macroblock_qps, adaptive_qps};

verus! {

/// A picture while it becomes symbols, with the motion of its macroblocks.
#[derive(Debug)]
pub struct PSymbols {
    /// Symbols, samples, and quantizers.
    pub inter: InterCoder,
    /// The reference indices of each macroblock's blocks.
    pub indices: Vec<[Option<u8>; 16]>,
    /// The vector differences of each macroblock's blocks.
    pub differences: Vec<[MotionVector; 16]>,
    /// The motions of each macroblock's blocks.
    pub motions: Vec<BlockMotions>,
}

/// A picture while it becomes symbols, with the motion of its macroblocks.
#[verifier::ext_equal]
pub struct PMarked {
    /// Symbols, samples, and quantizers.
    pub inter: InterState,
    /// The reference indices of each macroblock's blocks.
    pub indices: Seq<Seq<Option<u8>>>,
    /// The vector differences of each macroblock's blocks.
    pub differences: Seq<Seq<MotionVector>>,
    /// The motions of each macroblock's blocks.
    pub motions: Seq<Seq<Option<MotionState>>>,
}

impl View for PSymbols {
    type V = PMarked;

    open spec fn view(&self) -> PMarked {
        PMarked {
            inter: self.inter@,
            indices: rows(self.indices@),
            differences: rows(self.differences@),
            motions: rows(self.motions@),
        }
    }
}

/// The types of the first `count` quarters of a macroblock.
pub open spec fn sub_types_p(kinds: Seq<u8>, count: int) -> Seq<Bin>
    decreases count,
{
    if count <= 0 {
        Seq::empty()
    } else {
        sub_types_p(kinds, count - 1) + sub_type_p_bins(kinds[count - 1] as int)
    }
}

/// Symbols and vector differences after those of the first `count` parts.
pub open spec fn differences_coded(
    state: Differences,
    address: int,
    wide: int,
    selected: Seq<SelectedPartition>,
    count: int,
) -> Differences
    decreases count,
{
    if count <= 0 {
        state
    } else {
        difference_coded(
            differences_coded(state, address, wide, selected, count - 1),
            address,
            wide,
            selected[count - 1],
        )
    }
}

/// A picture after it is said how a macroblock is predicted.
#[verifier::opaque]
pub open spec fn p_told_motion(
    state: PMarked,
    address: int,
    wide: int,
    decision: DecisionModel,
    active_minus1: int,
) -> PMarked {
    let kind = decision.macroblock_type as int;
    let typed = state.inter.marked.bins + type_p_bins(kind) + if kind == 3 {
        sub_types_p(decision.sub_macroblock_types, 4)
    } else {
        Seq::empty()
    };
    let indexed = indices_coded(
        Indices { bins: typed, entries: state.indices },
        address,
        wide,
        reference_parts(kind),
        decision.partitions,
        active_minus1,
        reference_parts(kind).len() as int,
    );
    let moved = differences_coded(
        Differences { bins: indexed.bins, entries: state.differences },
        address,
        wide,
        decision.partitions,
        decision.partitions.len() as int,
    );
    PMarked {
        inter: state.inter.with_bins(moved.bins),
        indices: indexed.entries,
        differences: moved.entries,
        motions: state.motions,
    }
}

/// A picture after one more macroblock.
#[verifier::opaque]
pub open spec fn cabac_p_macroblock(
    configuration: Configuration,
    references: Seq<ReferencePicture>,
    state: PMarked,
    site: SiteModel,
) -> PMarked {
    let address = site.address();
    let wide = site.wide;
    let decision = p_decision(configuration, references, site, state.motions);
    let allowed = configuration.transform_8x8_mode && parts_large(decision.partitions);
    let coded = inter_coded(
        site,
        state.inter.planes,
        decision.prediction,
        allowed && configuration.analysis == AnalysisPreset::Full,
    );
    let pattern = luma_pattern(coded.luma) + 16 * chroma_pattern(coded.cb, coded.cr);
    let skip = skip_vector(state.motions, address, wide);
    let skipped = p_skipped(decision, pattern, skip);
    let told = InterState { planes: coded.planes, ..state.inter }.told_skip(address, wide, skipped);
    if skipped {
        PMarked {
            inter: told.after_skip(address),
            indices: state.indices.update(address, Seq::new(16, |b: int| Some(0u8))),
            differences: state.differences,
            motions: state.motions.update(
                address,
                with_partition(
                    state.motions[address],
                    whole_partition(),
                    MotionState { vector: skip, reference_index: Some(0) },
                ),
            ),
        }
    } else {
        let moved = p_told_motion(
            PMarked { inter: told, ..state },
            address,
            wide,
            decision,
            references.len() - 1,
        );
        PMarked {
            inter: moved.inter.told_pattern(address, wide, allowed, coded, site.qp).told_residual(
                address,
                wide,
                coded,
            ),
            motions: state.motions.update(
                address,
                with_selected(
                    state.motions[address],
                    decision.partitions,
                    decision.partitions.len() as int,
                ),
            ),
            ..moved
        }
    }
}

/// A picture after its first `count` macroblocks.
pub open spec fn cabac_p_coded(
    configuration: Configuration,
    references: Seq<ReferencePicture>,
    source: Samples,
    qps: Seq<int>,
    start: PMarked,
    count: int,
) -> PMarked
    decreases count,
{
    if count <= 0 {
        start
    } else {
        let before = cabac_p_coded(configuration, references, source, qps, start, count - 1);
        cabac_p_macroblock(
            configuration,
            references,
            PMarked { inter: before.inter.going_on(count - 1), ..before },
            inter_site(configuration, source, qps, count - 1),
        )
    }
}

/// A picture without symbols, with the samples of another one.
#[verifier::opaque]
pub open spec fn p_blank(planes: Samples, count: int, qp: int) -> PMarked {
    PMarked {
        inter: InterState::blank(planes, count, qp),
        indices: Seq::new(count as nat, |a: int| Seq::new(16, |b: int| None)),
        differences: Seq::new(
            count as nat,
            |a: int| Seq::new(16, |b: int| MotionVector { x: 0, y: 0 }),
        ),
        motions: no_motion(count),
    }
}

/// An encoded picture that is predicted from earlier ones.
#[verifier::opaque]
pub open spec fn cabac_p_picture(
    table: Seq<(i8, i8)>,
    configuration: Configuration,
    frame: FrameModel,
    references: Seq<ReferencePicture>,
    frame_num: int,
    pic_order_cnt_lsb: int,
) -> EncodedModel {
    let wide = configuration.macroblocks_wide as int;
    let high = configuration.macroblocks_high as int;
    let qp = configuration.qp as int;
    let source = padded_samples(frame, wide, high);
    let qps = adaptive_qps(source.luma, wide, high, qp, configuration.aq_strength as int);
    let header = p_header(
        frame_num,
        configuration.pic_order_cnt_type0,
        pic_order_cnt_lsb,
        references.len() - 1,
        true,
        qp,
    );
    let end = cabac_p_coded(
        configuration,
        references,
        source,
        qps,
        p_blank(references[0].planes, wide * high, qp),
        wide * high,
    );
    EncodedModel {
        nal: nal_of(0x41, header_bytes(header) + picture_bytes(table, qp, end.inter.marked.bins)),
        reconstructed: visible(frame, end.inter.planes, wide),
        coded_reconstruction: end.inter.planes,
        motion_l0: end.motions,
        reference_l0_poc: orders_of(end.motions, references),
        macroblock_intra: Seq::new((wide * high) as nat, |a: int| false),
    }
}

/// Appends the types of the quarters of a macroblock.
fn push_sub_types_p(bins: &mut Vec<Bin>, kinds: &[u8; 4])
    requires
        forall|q: int| 0 <= q < 4 ==> #[trigger] kinds@[q] <= 3,
        inner_bins(old(bins)@),
    ensures
        final(bins)@ == old(bins)@ + sub_types_p(kinds@, 4),
        inner_bins(final(bins)@),
{
    let ghost before = bins@;
    let mut q: usize = 0;
    assert(bins@ =~= before + sub_types_p(kinds@, 0));
    while q < 4
        invariant
            q <= 4,
            forall|q: int| 0 <= q < 4 ==> #[trigger] kinds@[q] <= 3,
            inner_bins(bins@),
            bins@ == before + sub_types_p(kinds@, q as int),
        decreases 4 - q,
    {
        encode_cabac_p_sub_macroblock_type(bins, kinds[q]);
        q = q + 1;
        assert(bins@ =~= before + sub_types_p(kinds@, q as int));
    }
}

/// Appends the vector differences of the parts of a macroblock.
fn push_differences(
    bins: &mut Vec<Bin>,
    entries: &mut Vec<[MotionVector; 16]>,
    address: usize,
    wide: usize,
    selected: &[SelectedPartition],
)
    requires
        all_selected_fit(selected@),
        address < old(entries)@.len(),
        0 < wide,
        inner_bins(old(bins)@),
    ensures
        (Differences { bins: final(bins)@, entries: rows(final(entries)@) }) == differences_coded(
            Differences { bins: old(bins)@, entries: rows(old(entries)@) },
            address as int,
            wide as int,
            selected@,
            selected@.len() as int,
        ),
        inner_bins(final(bins)@),
        final(entries)@.len() == old(entries)@.len(),
{
    let ghost start = Differences { bins: bins@, entries: rows(entries@) };
    let mut i: usize = 0;
    while i < selected.len()
        invariant
            i <= selected@.len(),
            all_selected_fit(selected@),
            address < entries@.len(),
            entries@.len() == old(entries)@.len(),
            0 < wide,
            inner_bins(bins@),
            (Differences { bins: bins@, entries: rows(entries@) }) == differences_coded(
                start,
                address as int,
                wide as int,
                selected@,
                i as int,
            ),
        decreases selected@.len() - i,
    {
        assert(crate::p_select::selected_fits(selected@[i as int]));
        encode_cabac_partition_motion_difference(bins, entries, address, wide, selected[i]);
        i = i + 1;
    }
}

impl PSymbols {
    /// Whether the picture has `wide` by `high` macroblocks and is in order.
    pub open spec fn valid(&self, wide: int, high: int) -> bool {
        &&& planes_fit(self.inter.planes@, wide, high)
        &&& self.inter.sized(wide * high)
        &&& self.indices@.len() == wide * high
        &&& self.differences@.len() == wide * high
        &&& self.motions@.len() == wide * high
        &&& motions_small(rows(self.motions@))
    }

    /// A picture without symbols, with the samples of another one.
    pub fn start(planes: &Planes, macroblocks_wide: usize, macroblocks_high: usize, qp: i32) -> (
    picture: Self)
        requires
            planes_fit(planes@, macroblocks_wide as int, macroblocks_high as int),
            macroblocks_wide * macroblocks_high <= usize::MAX,
            quantizer(qp as int),
        ensures
            picture@ == p_blank(planes@, macroblocks_wide * macroblocks_high, qp as int),
            picture.valid(macroblocks_wide as int, macroblocks_high as int),
    {
        reveal(p_blank);
        proof {
            assert(0 <= macroblocks_wide * macroblocks_high) by (nonlinear_arith);
        }
        let count: usize = macroblocks_wide * macroblocks_high;
        let (motions, _) = motionless(count);
        let picture = PSymbols {
            inter: InterCoder::start(planes, count, qp),
            indices: vec![[None; 16]; count],
            differences: vec![[MotionVector { x: 0, y: 0 }; 16]; count],
            motions,
        };
        proof {
            let blank = p_blank(planes@, macroblocks_wide * macroblocks_high, qp as int);
            assert(picture@.indices =~~= blank.indices);
            assert(picture@.differences =~~= blank.differences);
            assert(rows(picture.motions@).len() == count);
            assert(picture.inter@.planes == planes@);
            assert forall|a: int| 0 <= a < count implies row_small(
                #[trigger] rows(picture.motions@)[a],
            ) by {
                assert(rows(picture.motions@)[a] == no_motion::<MotionState>(count as int)[a]);
            }
        }
        picture
    }

    /// Says how a macroblock is predicted.
    fn tell_motion(
        &mut self,
        address: usize,
        wide: usize,
        decision: &InterDecision,
        active_minus1: u32,
    )
        requires
            decision.valid(),
            old(self).inter.sized(old(self).indices@.len() as int),
            old(self).differences@.len() == old(self).indices@.len(),
            address < old(self).indices@.len(),
            0 < wide,
        ensures
            forall|cost: int|
                final(self)@ == p_told_motion(
                    old(self)@,
                    address as int,
                    wide as int,
                    #[trigger] decision.model(cost),
                    active_minus1 as int,
                ),
            final(self).inter.sized(old(self).indices@.len() as int),
            final(self).indices@.len() == old(self).indices@.len(),
            final(self).differences@.len() == old(self).indices@.len(),
            final(self).motions == old(self).motions,
            final(self).inter.planes == old(self).inter.planes,
    {
        reveal(p_told_motion);
        let ghost before = self@;
        encode_cabac_p_macroblock_type(
            &mut self.inter.symbols.bins,
            decision.macroblock_type,
        );
        if decision.macroblock_type == 3 {
            push_sub_types_p(&mut self.inter.symbols.bins, &decision.sub_macroblock_types);
        }
        let ghost typed = before.inter.marked.bins + type_p_bins(
            decision.macroblock_type as int,
        ) + if decision.macroblock_type == 3 {
            sub_types_p(decision.sub_macroblock_types@, 4)
        } else {
            Seq::empty()
        };
        assert(self.inter.symbols.bins@ =~= typed);
        encode_cabac_reference_indices(
            &mut self.inter.symbols.bins,
            &mut self.indices,
            address,
            wide,
            decision.macroblock_type,
            decision.partitions.as_slice(),
            active_minus1,
        );
        push_differences(
            &mut self.inter.symbols.bins,
            &mut self.differences,
            address,
            wide,
            decision.partitions.as_slice(),
        );
    }

    /// Replaces the motions of a macroblock.
    fn set_motions(&mut self, address: usize, row: BlockMotions)
        requires
            address < old(self).motions@.len(),
            motions_small(rows(old(self).motions@)),
            row_small(row@),
        ensures
            final(self)@ == (PMarked {
                motions: old(self)@.motions.update(address as int, row@),
                ..old(self)@
            }),
            motions_small(rows(final(self).motions@)),
            final(self).motions@.len() == old(self).motions@.len(),
            final(self).inter == old(self).inter,
            final(self).indices == old(self).indices,
            final(self).differences == old(self).differences,
    {
        let ghost before = rows(self.motions@);
        self.motions.set(address, row);
        proof {
            let after = rows(self.motions@);
            assert(after =~= before.update(address as int, row@));
            assert forall|a: int| 0 <= a < after.len() implies row_small(#[trigger] after[a]) by {
                if a != address {
                    assert(after[a] == before[a]);
                }
            }
        }
    }

    /// Notes that all blocks of a macroblock refer to the nearest picture.
    fn set_nearest(&mut self, address: usize)
        requires
            address < old(self).indices@.len(),
        ensures
            final(self)@ == (PMarked {
                indices: old(self)@.indices.update(
                    address as int,
                    Seq::new(16, |b: int| Some(0u8)),
                ),
                ..old(self)@
            }),
            final(self).indices@.len() == old(self).indices@.len(),
            final(self).inter == old(self).inter,
            final(self).motions == old(self).motions,
            final(self).differences == old(self).differences,
    {
        let ghost before = rows(self.indices@);
        let row: [Option<u8>; 16] = [Some(0u8); 16];
        assert(row@ =~= Seq::new(16, |b: int| Some(0u8)));
        self.indices.set(address, row);
        assert(rows(self.indices@) =~= before.update(address as int, row@));
    }

    /// Codes a macroblock.
    fn encode_macroblock(
        &mut self,
        configuration: &Configuration,
        references: &[EncoderReference],
        site: &Site<'_>,
    )
        requires
            configuration.valid(),
            site.valid(),
            site.wide == configuration.macroblocks_wide,
            site.high == configuration.macroblocks_high,
            old(self).valid(site.wide as int, site.high as int),
            references_fit(references@, site.wide as int, site.high as int),
        ensures
            final(self).valid(site.wide as int, site.high as int),
            final(self)@ == cabac_p_macroblock(
                *configuration,
                pictures(references@),
                old(self)@,
                site@,
            ),
    {
        reveal(cabac_p_macroblock);
        reveal(p_decision);
        let ghost before = self@;
        let ghost list = pictures(references@);
        let address: usize = site.address();
        proof {
            configuration.lemma_sizes();
            lemma_small_fits(before.motions);
        }
        let place = PictureSite {
            source: site.source,
            wide: site.wide,
            high: site.high,
            x: site.x,
            y: site.y,
            search_range: configuration.search_range,
            analysis: configuration.analysis,
            motions: self.motions.as_slice(),
        };
        assert(place@ == picture_model(*configuration, site@, before.motions));
        let decision: InterDecision = place.select_inter_partitions_with_analysis(references);
        let ghost model = p_decision(*configuration, list, site@, before.motions);
        assert(decision.model(model.cost) == model);
        let allowed = configuration.transform_8x8_mode && are_parts_large(
            decision.partitions.as_slice(),
        );
        let full = match configuration.analysis {
            AnalysisPreset::Full => true,
            AnalysisPreset::Fast => false,
        };
        let (luma_levels, chroma_residuals) = code_inter(
            site,
            &mut self.inter.planes,
            &decision.prediction,
            allowed && full,
        );
        let ghost coded = inter_coded(site@, before.inter.planes, decision.prediction@, allowed && full);
        let luma_marks: u8 = luma_levels.coded_block_pattern();
        let chroma_marks: u8 = chroma_coded_block_pattern(&chroma_residuals);
        let skip: MotionVector = p_skip_motion(self.motions.as_slice(), address, site.wide);
        let mut row: BlockMotions = self.motions[address];
        assert(rows(self.motions@)[address as int] == row@);
        let first: SelectedPartition = decision.partitions[0];
        let skipped = luma_marks == 0 && chroma_marks == 0 && decision.macroblock_type == 0
            && first.reference_index == 0 && first.motion.x == skip.x && first.motion.y == skip.y;
        self.inter.tell_skip(address, site.wide, skipped);
        if skipped {
            set_partition_motion(
                &mut row,
                make_whole_partition(),
                MotionState { vector: skip, reference_index: Some(0) },
            );
            self.set_nearest(address);
            self.set_motions(address, row);
            return;
        }
        let active_minus1: u32 = references.len() as u32 - 1;
        self.tell_motion(address, site.wide, &decision, active_minus1);
        assert(decision.model(model.cost) == model);
        self.inter.tell_pattern(
            address,
            site.wide,
            allowed,
            luma_levels.uses_8x8(),
            luma_marks,
            chroma_marks,
            site.qp,
            Ghost(coded),
        );
        self.inter.encode_cabac_residuals(
            address,
            site.wide,
            &luma_levels,
            &chroma_residuals,
            luma_marks,
            chroma_marks,
            Ghost(coded),
        );
        set_selected(&mut row, decision.partitions.as_slice());
        self.set_motions(address, row);
    }

    /// Codes all macroblocks.
    fn encode_macroblocks(
        &mut self,
        configuration: &Configuration,
        references: &[EncoderReference],
        source: &Planes,
        qps: &[i32],
        Ghost(all_qps): Ghost<Seq<int>>,
    )
        requires
            configuration.valid(),
            planes_fit(
                source@,
                configuration.macroblocks_wide as int,
                configuration.macroblocks_high as int,
            ),
            references_fit(
                references@,
                configuration.macroblocks_wide as int,
                configuration.macroblocks_high as int,
            ),
            qps@.len() == configuration.macroblocks_wide * configuration.macroblocks_high,
            forall|a: int|
                0 <= a < qps@.len() ==> (#[trigger] qps@[a]) == all_qps[a] && quantizer(
                    qps@[a] as int,
                ),
            old(self).valid(
                configuration.macroblocks_wide as int,
                configuration.macroblocks_high as int,
            ),
        ensures
            final(self).valid(
                configuration.macroblocks_wide as int,
                configuration.macroblocks_high as int,
            ),
            final(self)@ == cabac_p_coded(
                *configuration,
                pictures(references@),
                source@,
                all_qps,
                old(self)@,
                configuration.macroblocks_wide * configuration.macroblocks_high,
            ),
    {
        proof {
            configuration.lemma_sizes();
        }
        let wide: usize = configuration.macroblocks_wide;
        let high: usize = configuration.macroblocks_high;
        let count: usize = wide * high;
        let ghost start = self@;
        let mut address: usize = 0;
        while address < count
            invariant
                address <= count,
                count == wide * high,
                0 < wide,
                configuration.valid(),
                wide == configuration.macroblocks_wide,
                high == configuration.macroblocks_high,
                planes_fit(source@, wide as int, high as int),
                references_fit(references@, wide as int, high as int),
                qps@.len() == count,
                forall|a: int|
                    0 <= a < count ==> (#[trigger] qps@[a]) == all_qps[a] && quantizer(
                        qps@[a] as int,
                    ),
                self.valid(wide as int, high as int),
                self@ == cabac_p_coded(
                    *configuration,
                    pictures(references@),
                    source@,
                    all_qps,
                    start,
                    address as int,
                ),
            decreases count - address,
        {
            let x: usize = address % wide;
            let y: usize = address / wide;
            proof {
                vstd::arithmetic::div_mod::lemma_fundamental_div_mod(address as int, wide as int);
                assert(y < high) by (nonlinear_arith)
                    requires
                        wide * y + x == address,
                        address < wide * high,
                        0 <= x,
                        0 < wide,
                ;
            }
            let site = Site {
                source,
                wide,
                high,
                x,
                y,
                qp: qps[address],
                bypass: configuration.transform_bypass,
                preset: configuration.scaling_matrix,
            };
            assert(site@ == inter_site(*configuration, source@, all_qps, address as int));
            self.inter.go_on(address);
            self.encode_macroblock(configuration, references, &site);
            address = address + 1;
        }
    }
}

/// Encodes a picture that is predicted from earlier ones.
pub fn encode_cabac_p_picture(
    table: &[(i8, i8)],
    frame: &VideoFrame,
    configuration: &Configuration,
    references: &[EncoderReference],
    frame_num: u8,
    pic_order_cnt_lsb: u8,
) -> (encoded: EncodedFrame)
    requires
        table@.len() == crate::bins::SLOT_COUNT,
        configuration.valid(),
        frame_fits(
            frame@,
            configuration.macroblocks_wide as int,
            configuration.macroblocks_high as int,
        ),
        references_fit(
            references@,
            configuration.macroblocks_wide as int,
            configuration.macroblocks_high as int,
        ),
    ensures
        encoded@ == cabac_p_picture(
            table@,
            *configuration,
            frame@,
            pictures(references@),
            frame_num as int,
            pic_order_cnt_lsb as int,
        ),
        planes_fit(
            encoded.coded_reconstruction@,
            configuration.macroblocks_wide as int,
            configuration.macroblocks_high as int,
        ),
        motions_small(rows(encoded.motion_l0@)),
{
    reveal(cabac_p_picture);
    proof {
        configuration.lemma_sizes();
    }
    let wide: usize = configuration.macroblocks_wide;
    let high: usize = configuration.macroblocks_high;
    let count: usize = wide * high;
    let ghost list = pictures(references@);
    let active_minus1: u32 = references.len() as u32 - 1;
    let mut writer = BitWriter::new();
    write_p_header(
        &mut writer,
        frame_num,
        configuration.pic_order_cnt_type0,
        pic_order_cnt_lsb,
        active_minus1,
        true,
        configuration.qp,
    );
    let ghost header = p_header(
        frame_num as int,
        configuration.pic_order_cnt_type0,
        pic_order_cnt_lsb as int,
        active_minus1 as int,
        true,
        configuration.qp as int,
    );
    assert(writer@ =~= header);
    writer.align_to_byte_with(true);
    let mut rbsp: Vec<u8> = writer.into_bytes();
    let source: Planes = padded_planes(frame, wide, high);
    let qps: Vec<i32> = adaptive_macroblock_qps(
        source.luma.as_slice(),
        wide,
        high,
        configuration.qp,
        configuration.aq_strength,
    );
    let ghost all_qps = adaptive_qps(
        source.luma@,
        wide as int,
        high as int,
        configuration.qp as int,
        configuration.aq_strength as int,
    );
    assert(list[0] == references@[0]@);
    let mut picture: PSymbols = PSymbols::start(
        &references[0].planes,
        wide,
        high,
        configuration.qp,
    );
    picture.encode_macroblocks(configuration, references, &source, qps.as_slice(), Ghost(all_qps));
    let reference_l0_poc: Vec<BlockOrders> = collect_orders(picture.motions.as_slice(), references);
    let inter: InterCoder = picture.inter;
    let symbols: Symbols = inter.symbols;
    let mut payload: Vec<u8> = encode_picture_bins(table, configuration.qp, symbols.bins);
    rbsp.append(&mut payload);
    let nal: Vec<u8> = make_nal(0x41, rbsp);
    let reconstructed: VideoFrame = visible_frame(frame, &inter.planes, wide, high);
    let macroblock_intra: Vec<bool> = vec![false; count];
    proof {
        assert(macroblock_intra@ =~= Seq::new((wide * high) as nat, |a: int| false));
    }
    EncodedFrame {
        nal,
        reconstructed,
        coded_reconstruction: inter.planes,
        motion_l0: picture.motions,
        reference_l0_poc,
        macroblock_intra,
    }
}

} // verus!
