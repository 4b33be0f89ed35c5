//! Pictures that are predicted from both sides and written with arithmetic coding.

use vstd::prelude::*;

use crate::arithmetic::Bin;
use crate::b_direct::BSelectedPartition;
use crate::b_picture::{
    are_b_parts_large, b_header, b_parts_large, commit_b_motion_history, motion_in, replace_row,
    surroundings_fit, with_b_selected, write_b_header, Surroundings,
};
use crate::b_select::{all_b_fit, BDecisionModel, BInterDecision, BModel, BSite};
use crate::bins::{flag, inner_bins};
use crate::bits::BitWriter;
use crate::cabac_inter::{InterCoder, InterState};
use crate::cabac_intra::header_bytes;
use crate::config::{AnalysisPreset, BDirectMode, Configuration};
use crate::contexts::{encode_picture_bins, picture_bytes};
use crate::frame::{
    frame_fits, padded_planes, padded_samples, visible, visible_frame, FrameModel, VideoFrame,
};
use crate::framing::{make_nal, nal_of};
use crate::idr::{motionless, no_motion, EncodedFrame, EncodedModel};
use crate::inter_bins::{
    difference_coded, encode_cabac_b_macroblock_type, encode_cabac_b_sub_macroblock_type,
    encode_cabac_partition_motion_difference, sub_type_b_bins, type_b_bins, Differences,
};
use crate::inter_coding::{code_inter, inter_coded};
use crate::inter_residual::{chroma_coded_block_pattern, chroma_pattern, luma_pattern};
use crate::marks::Symbols;
use crate::math::unit;
use crate::motion::{motions_fit, row_fits, BlockMotions, MotionState, MotionVector};
use crate::neighbors::{left_of, read_left_of, read_top_of, rows, top_of};
use crate::p_picture::inter_site;
use crate::p_select::{EncoderReference, SelectedPartition};
use crate::picture::{planes_fit, Planes, Samples, Site, SiteModel};
use crate::quantize::quantizer;
use crate::quantizers::{adaptive_macroblock_qps, adaptive_qps};

verus! {

/// A picture while it becomes symbols, with the motion of its macroblocks.
#[derive(Debug)]
pub struct BSymbols {
    /// Symbols, samples, and quantizers.
    pub inter: InterCoder,
    /// Which macroblocks have only derived motion.
    pub directs: Vec<bool>,
    /// The vector differences of each macroblock's blocks from the earlier picture.
    pub differences_l0: Vec<[MotionVector; 16]>,
    /// The vector differences of each macroblock's blocks from the later picture.
    pub differences_l1: Vec<[MotionVector; 16]>,
    /// The motions of each macroblock's blocks from the earlier picture.
    pub motions_l0: Vec<BlockMotions>,
    /// The motions of each macroblock's blocks from the later picture.
    pub motions_l1: Vec<BlockMotions>,
}

/// A picture while it becomes symbols, with the motion of its macroblocks.
#[verifier::ext_equal]
pub struct BMarked {
    /// Symbols, samples, and quantizers.
    pub inter: InterState,
    /// Which macroblocks have only derived motion.
    pub directs: Seq<bool>,
    /// The vector differences of each macroblock's blocks from the earlier picture.
    pub differences_l0: Seq<Seq<MotionVector>>,
    /// The vector differences of each macroblock's blocks from the later picture.
    pub differences_l1: Seq<Seq<MotionVector>>,
    /// The motions of each macroblock's blocks from the earlier picture.
    pub motions_l0: Seq<Seq<Option<MotionState>>>,
    /// The motions of each macroblock's blocks from the later picture.
    pub motions_l1: Seq<Seq<Option<MotionState>>>,
}

impl View for BSymbols {
    type V = BMarked;

    open spec fn view(&self) -> BMarked {
        BMarked {
            inter: self.inter@,
            directs: self.directs@,
            differences_l0: rows(self.differences_l0@),
            differences_l1: rows(self.differences_l1@),
            motions_l0: rows(self.motions_l0@),
            motions_l1: rows(self.motions_l1@),
        }
    }
}

/// The types of the first `count` quarters of a macroblock.
pub open spec fn sub_types_b(kinds: Seq<u8>, count: int) -> Seq<Bin>
    decreases count,
{
    if count <= 0 {
        Seq::empty()
    } else {
        sub_types_b(kinds, count - 1) + sub_type_b_bins(kinds[count - 1] as int)
    }
}

/// Symbols and vector differences from one of the pictures after those of the first `count` parts.
pub open spec fn list_differences(
    state: Differences,
    address: int,
    wide: int,
    selected: Seq<BSelectedPartition>,
    later: bool,
    count: int,
) -> Differences
    decreases count,
{
    if count <= 0 {
        state
    } else {
        let last = selected[count - 1];
        let before = list_differences(state, address, wide, selected, later, count - 1);
        match motion_in(last, later) {
            Some(found) => if last.direct {
                before
            } else {
                difference_coded(before, address, wide, found)
            },
            None => before,
        }
    }
}

/// Which of the first probabilities a macroblock type has, by the macroblocks around it.
pub open spec fn type_increment(directs: Seq<bool>, address: int, wide: int) -> int {
    unit(left_of(directs, address, wide) == Some(false)) + unit(
        top_of(directs, address, wide) == Some(false),
    )
}

/// Whether all parts have derived motion.
pub open spec fn all_direct(decision: BDecisionModel) -> bool {
    decision.macroblock_type == 0 || (decision.macroblock_type == 22 && forall|i: int|
        0 <= i < decision.partitions.len() ==> (#[trigger] decision.partitions[i]).direct)
}

/// A picture after it is said how a macroblock is predicted.
#[verifier::opaque]
pub open spec fn b_told_motion(
    state: BMarked,
    address: int,
    wide: int,
    decision: BDecisionModel,
) -> BMarked {
    let kind = decision.macroblock_type as int;
    let count = decision.partitions.len() as int;
    let typed = state.inter.marked.bins + type_b_bins(
        kind,
        type_increment(state.directs, address, wide),
    ) + if kind == 22 {
        sub_types_b(decision.sub_macroblock_types, 4)
    } else {
        Seq::empty()
    };
    let earlier = list_differences(
        Differences { bins: typed, entries: state.differences_l0 },
        address,
        wide,
        decision.partitions,
        false,
        count,
    );
    let later = list_differences(
        Differences { bins: earlier.bins, entries: state.differences_l1 },
        address,
        wide,
        decision.partitions,
        true,
        count,
    );
    BMarked {
        inter: state.inter.with_bins(later.bins),
        directs: state.directs.update(address, all_direct(decision)),
        differences_l0: earlier.entries,
        differences_l1: later.entries,
        ..state
    }
}

/// A macroblock that is to be predicted from an earlier and a later picture.
pub open spec fn b_marked_model(
    configuration: Configuration,
    around: Surroundings,
    state: BMarked,
    site: SiteModel,
) -> BModel {
    BModel {
        source: site.source,
        previous: around.previous,
        future: around.future,
        wide: site.wide,
        high: configuration.macroblocks_high as int,
        x: site.x,
        y: site.y,
        search_range: configuration.search_range as int,
        motions_l0: state.motions_l0,
        motions_l1: state.motions_l1,
        direct_mode: configuration.b_direct_mode,
        picture_order_count: around.picture_order_count,
    }
}

/// A picture after the motions of a macroblock are set.
pub open spec fn b_committed(
    state: BMarked,
    address: int,
    selected: Seq<BSelectedPartition>,
) -> BMarked {
    let count = selected.len() as int;
    BMarked {
        motions_l0: state.motions_l0.update(
            address,
            with_b_selected(state.motions_l0[address], selected, false, count),
        ),
        motions_l1: state.motions_l1.update(
            address,
            with_b_selected(state.motions_l1[address], selected, true, count),
        ),
        ..state
    }
}

/// A picture after one more macroblock.
#[verifier::opaque]
pub open spec fn cabac_b_macroblock(
    configuration: Configuration,
    around: Surroundings,
    state: BMarked,
    site: SiteModel,
) -> BMarked {
    let address = site.address();
    let wide = site.wide;
    let decision = b_marked_model(configuration, around, state, site).decided(
        configuration.analysis,
    );
    let allowed = configuration.transform_8x8_mode && b_parts_large(decision.partitions);
    let coded = inter_coded(
        site,
        state.inter.planes,
        decision.prediction,
        allowed && configuration.analysis == AnalysisPreset::Full,
    );
    let pattern = luma_pattern(coded.luma) + 16 * chroma_pattern(coded.cb, coded.cr);
    let skipped = decision.direct && pattern == 0;
    let told = InterState { planes: coded.planes, ..state.inter }.told_skip(address, wide, skipped);
    if skipped {
        b_committed(
            BMarked {
                inter: told.after_skip(address),
                directs: state.directs.update(address, true),
                ..state
            },
            address,
            decision.partitions,
        )
    } else {
        let moved = b_committed(
            b_told_motion(BMarked { inter: told, ..state }, address, wide, decision),
            address,
            decision.partitions,
        );
        BMarked {
            inter: moved.inter.told_pattern(address, wide, allowed, coded, site.qp).told_residual(
                address,
                wide,
                coded,
            ),
            ..moved
        }
    }
}

/// A picture after its first `count` macroblocks.
pub open spec fn cabac_b_coded(
    configuration: Configuration,
    around: Surroundings,
    source: Samples,
    qps: Seq<int>,
    start: BMarked,
    count: int,
) -> BMarked
    decreases count,
{
    if count <= 0 {
        start
    } else {
        let before = cabac_b_coded(configuration, around, source, qps, start, count - 1);
        cabac_b_macroblock(
            configuration,
            around,
            BMarked { inter: before.inter.going_on(count - 1), ..before },
            inter_site(configuration, source, qps, count - 1),
        )
    }
}

/// A picture without symbols, with the samples of another one.
#[verifier::opaque]
pub open spec fn b_blank(planes: Samples, count: int, qp: int) -> BMarked {
    let still = Seq::new(
        count as nat,
        |a: int| Seq::new(16, |b: int| MotionVector { x: 0, y: 0 }),
    );
    BMarked {
        inter: InterState::blank(planes, count, qp),
        directs: Seq::new(count as nat, |a: int| false),
        differences_l0: still,
        differences_l1: still,
        motions_l0: no_motion(count),
        motions_l1: no_motion(count),
    }
}

/// An encoded picture that is predicted from both sides.
#[verifier::opaque]
pub open spec fn cabac_b_picture(
    table: Seq<(i8, i8)>,
    configuration: Configuration,
    frame: FrameModel,
    around: Surroundings,
    frame_num: int,
    pic_order_cnt_lsb: int,
) -> EncodedModel {
    let wide = configuration.macroblocks_wide as int;
    let high = configuration.macroblocks_high as int;
    let qp = configuration.qp as int;
    let source = padded_samples(frame, wide, high);
    let qps = adaptive_qps(source.luma, wide, high, qp, configuration.aq_strength as int);
    let header = b_header(
        frame_num,
        pic_order_cnt_lsb,
        configuration.b_direct_mode == BDirectMode::Spatial,
        true,
        qp,
    );
    let end = cabac_b_coded(
        configuration,
        around,
        source,
        qps,
        b_blank(around.previous.planes, wide * high, qp),
        wide * high,
    );
    EncodedModel {
        nal: nal_of(0x01, header_bytes(header) + picture_bytes(table, qp, end.inter.marked.bins)),
        reconstructed: visible(frame, end.inter.planes, wide),
        coded_reconstruction: end.inter.planes,
        motion_l0: Seq::empty(),
        reference_l0_poc: Seq::empty(),
        macroblock_intra: Seq::empty(),
    }
}

/// Appends the types of the quarters of a macroblock.
fn push_sub_types_b(bins: &mut Vec<Bin>, kinds: &[u8; 4])
    requires
        forall|q: int| 0 <= q < 4 ==> #[trigger] kinds@[q] <= 12,
        inner_bins(old(bins)@),
    ensures
        final(bins)@ == old(bins)@ + sub_types_b(kinds@, 4),
        inner_bins(final(bins)@),
{
    let ghost before = bins@;
    let mut q: usize = 0;
    assert(bins@ =~= before + sub_types_b(kinds@, 0));
    while q < 4
        invariant
            q <= 4,
            forall|q: int| 0 <= q < 4 ==> #[trigger] kinds@[q] <= 12,
            inner_bins(bins@),
            bins@ == before + sub_types_b(kinds@, q as int),
        decreases 4 - q,
    {
        encode_cabac_b_sub_macroblock_type(bins, kinds[q]);
        q = q + 1;
        assert(bins@ =~= before + sub_types_b(kinds@, q as int));
    }
}

/// Appends the vector differences of the parts of a macroblock from one of the pictures.
fn push_list_differences(
    bins: &mut Vec<Bin>,
    entries: &mut Vec<[MotionVector; 16]>,
    address: usize,
    wide: usize,
    selected: &[BSelectedPartition],
    later: bool,
)
    requires
        all_b_fit(selected@),
        address < old(entries)@.len(),
        0 < wide,
        inner_bins(old(bins)@),
    ensures
        (Differences { bins: final(bins)@, entries: rows(final(entries)@) }) == list_differences(
            Differences { bins: old(bins)@, entries: rows(old(entries)@) },
            address as int,
            wide as int,
            selected@,
            later,
            selected@.len() as int,
        ),
        inner_bins(final(bins)@),
        final(entries)@.len() == old(entries)@.len(),
{
    let ghost start = Differences { bins: bins@, entries: rows(entries@) };
    let mut i: usize = 0;
    while i < selected.len()
        invariant
            i <= selected@.len(),
            all_b_fit(selected@),
            address < entries@.len(),
            entries@.len() == old(entries)@.len(),
            0 < wide,
            inner_bins(bins@),
            (Differences { bins: bins@, entries: rows(entries@) }) == list_differences(
                start,
                address as int,
                wide as int,
                selected@,
                later,
                i as int,
            ),
        decreases selected@.len() - i,
    {
        assert(selected@[i as int].fits());
        let last: BSelectedPartition = selected[i];
        let motion: Option<SelectedPartition> = if later {
            last.list1
        } else {
            last.list0
        };
        if let Some(found) = motion {
            if !last.direct {
                encode_cabac_partition_motion_difference(bins, entries, address, wide, found);
            }
        }
        i = i + 1;
    }
}

/// Whether all parts have derived motion.
fn is_all_direct(decision: &BInterDecision) -> (result: bool)
    ensures
        forall|cost: int| result == all_direct(#[trigger] decision.model(cost)),
{
    if decision.macroblock_type == 0 {
        return true;
    }
    if decision.macroblock_type != 22 {
        return false;
    }
    let mut i: usize = 0;
    while i < decision.partitions.len()
        invariant
            i <= decision.partitions@.len(),
            decision.macroblock_type == 22,
            forall|j: int| 0 <= j < i ==> (#[trigger] decision.partitions@[j]).direct,
        decreases decision.partitions@.len() - i,
    {
        if !decision.partitions[i].direct {
            assert forall|cost: int| !all_direct(#[trigger] decision.model(cost)) by {
                assert(!decision.model(cost).partitions[i as int].direct);
            }
            return false;
        }
        i = i + 1;
    }
    true
}

impl BSymbols {
    /// Whether there are entries for `count` macroblocks.
    pub open spec fn sized(&self, count: int) -> bool {
        &&& self.inter.sized(count)
        &&& self.directs@.len() == count
        &&& self.differences_l0@.len() == count
        &&& self.differences_l1@.len() == count
        &&& self.motions_l0@.len() == count
        &&& self.motions_l1@.len() == count
        &&& motions_fit(rows(self.motions_l0@))
        &&& motions_fit(rows(self.motions_l1@))
    }

    /// Whether the picture has `wide` by `high` macroblocks and is in order.
    pub open spec fn valid(&self, wide: int, high: int) -> bool {
        &&& planes_fit(self.inter.planes@, wide, high)
        &&& self.sized(wide * high)
    }

    /// A picture without symbols, with the samples of another one.
    pub fn start(planes: &Planes, macroblocks_wide: usize, macroblocks_high: usize, qp: i32) -> (
    picture: Self)
        requires
            planes_fit(planes@, macroblocks_wide as int, macroblocks_high as int),
            macroblocks_wide * macroblocks_high <= usize::MAX,
            quantizer(qp as int),
        ensures
            picture@ == b_blank(planes@, macroblocks_wide * macroblocks_high, qp as int),
            picture.valid(macroblocks_wide as int, macroblocks_high as int),
    {
        reveal(b_blank);
        proof {
            assert(0 <= macroblocks_wide * macroblocks_high) by (nonlinear_arith);
        }
        let count: usize = macroblocks_wide * macroblocks_high;
        let (motions_l0, _) = motionless(count);
        let (motions_l1, _) = motionless(count);
        let picture = BSymbols {
            inter: InterCoder::start(planes, count, qp),
            directs: vec![false; count],
            differences_l0: vec![[MotionVector { x: 0, y: 0 }; 16]; count],
            differences_l1: vec![[MotionVector { x: 0, y: 0 }; 16]; count],
            motions_l0,
            motions_l1,
        };
        proof {
            let blank = b_blank(planes@, macroblocks_wide * macroblocks_high, qp as int);
            assert(picture@.directs =~= blank.directs);
            assert(picture@.differences_l0 =~~= blank.differences_l0);
            assert(picture@.differences_l1 =~~= blank.differences_l1);
            assert(picture.inter@.planes == planes@);
            assert(rows(picture.motions_l0@).len() == count);
            assert(rows(picture.motions_l1@).len() == count);
            assert forall|a: int| 0 <= a < count implies row_fits(
                #[trigger] rows(picture.motions_l0@)[a],
            ) by {
                assert(rows(picture.motions_l0@)[a] == no_motion::<MotionState>(count as int)[a]);
            }
            assert forall|a: int| 0 <= a < count implies row_fits(
                #[trigger] rows(picture.motions_l1@)[a],
            ) by {
                assert(rows(picture.motions_l1@)[a] == no_motion::<MotionState>(count as int)[a]);
            }
        }
        picture
    }

    /// Says how a macroblock is predicted.
    fn tell_motion(&mut self, address: usize, wide: usize, decision: &BInterDecision)
        requires
            decision.valid(),
            old(self).sized(old(self).directs@.len() as int),
            address < old(self).directs@.len(),
            0 < wide,
        ensures
            forall|cost: int|
                final(self)@ == b_told_motion(
                    old(self)@,
                    address as int,
                    wide as int,
                    #[trigger] decision.model(cost),
                ),
            final(self).sized(old(self).directs@.len() as int),
            final(self).inter.planes == old(self).inter.planes,
    {
        reveal(b_told_motion);
        let ghost before = self@;
        let left = match read_left_of(self.directs.as_slice(), address, wide) {
            Some(direct) => !direct,
            None => false,
        };
        let top = match read_top_of(self.directs.as_slice(), address, wide) {
            Some(direct) => !direct,
            None => false,
        };
        let increment: usize = flag(left) + flag(top);
        encode_cabac_b_macroblock_type(
            &mut self.inter.symbols.bins,
            decision.macroblock_type,
            increment,
        );
        if decision.macroblock_type == 22 {
            push_sub_types_b(&mut self.inter.symbols.bins, &decision.sub_macroblock_types);
        }
        let ghost typed = before.inter.marked.bins + type_b_bins(
            decision.macroblock_type as int,
            increment as int,
        ) + if decision.macroblock_type == 22 {
            sub_types_b(decision.sub_macroblock_types@, 4)
        } else {
            Seq::empty()
        };
        assert(self.inter.symbols.bins@ =~= typed);
        push_list_differences(
            &mut self.inter.symbols.bins,
            &mut self.differences_l0,
            address,
            wide,
            decision.partitions.as_slice(),
            false,
        );
        push_list_differences(
            &mut self.inter.symbols.bins,
            &mut self.differences_l1,
            address,
            wide,
            decision.partitions.as_slice(),
            true,
        );
        let direct = is_all_direct(decision);
        self.directs.set(address, direct);
    }

    /// Sets the motions of a macroblock.
    fn commit(&mut self, address: usize, selected: &[BSelectedPartition])
        requires
            all_b_fit(selected@),
            old(self).sized(old(self).directs@.len() as int),
            address < old(self).directs@.len(),
        ensures
            final(self)@ == b_committed(old(self)@, address as int, selected@),
            final(self).sized(old(self).directs@.len() as int),
            final(self).inter == old(self).inter,
    {
        let mut row_l0: BlockMotions = self.motions_l0[address];
        let mut row_l1: BlockMotions = self.motions_l1[address];
        assert(rows(self.motions_l0@)[address as int] == row_l0@);
        assert(rows(self.motions_l1@)[address as int] == row_l1@);
        commit_b_motion_history(&mut row_l0, selected, false);
        commit_b_motion_history(&mut row_l1, selected, true);
        replace_row(&mut self.motions_l0, address, row_l0);
        replace_row(&mut self.motions_l1, address, row_l1);
    }

    /// Codes a macroblock.
    fn encode_macroblock(
        &mut self,
        configuration: &Configuration,
        previous: &EncoderReference,
        future: &EncoderReference,
        picture_order_count: i32,
        site: &Site<'_>,
    )
        requires
            configuration.valid(),
            site.valid(),
            site.wide == configuration.macroblocks_wide,
            site.high == configuration.macroblocks_high,
            old(self).valid(site.wide as int, site.high as int),
            surroundings_fit(previous, future, site.wide as int, site.high as int),
        ensures
            final(self).valid(site.wide as int, site.high as int),
            final(self)@ == cabac_b_macroblock(
                *configuration,
                (Surroundings {
                    previous: previous@,
                    future: future@,
                    picture_order_count: picture_order_count as int,
                }),
                old(self)@,
                site@,
            ),
    {
        reveal(cabac_b_macroblock);
        let ghost before = self@;
        let ghost around = Surroundings {
            previous: previous@,
            future: future@,
            picture_order_count: picture_order_count as int,
        };
        let address: usize = site.address();
        proof {
            configuration.lemma_sizes();
        }
        let place = BSite {
            source: site.source,
            previous,
            future,
            wide: site.wide,
            high: site.high,
            x: site.x,
            y: site.y,
            search_range: configuration.search_range,
            motions_l0: self.motions_l0.as_slice(),
            motions_l1: self.motions_l1.as_slice(),
            direct_mode: configuration.b_direct_mode,
            picture_order_count,
        };
        assert(place@ == b_marked_model(*configuration, around, before, site@));
        let decision: BInterDecision = place.select_b_inter_partitions_with_analysis(
            configuration.analysis,
        );
        let ghost model = place@.decided(configuration.analysis);
        assert(decision.model(model.cost) == model);
        let allowed = configuration.transform_8x8_mode && are_b_parts_large(
            decision.partitions.as_slice(),
        );
        let full = match configuration.analysis {
            AnalysisPreset::Full => true,
            AnalysisPreset::Fast => false,
        };
        let (luma_levels, chroma_residuals) = code_inter(
            site,
            &mut self.inter.planes,
            &decision.prediction,
            allowed && full,
        );
        let ghost coded = inter_coded(
            site@,
            before.inter.planes,
            decision.prediction@,
            allowed && full,
        );
        let luma_marks: u8 = luma_levels.coded_block_pattern();
        let chroma_marks: u8 = chroma_coded_block_pattern(&chroma_residuals);
        let skipped = decision.direct && luma_marks == 0 && chroma_marks == 0;
        self.inter.tell_skip(address, site.wide, skipped);
        if skipped {
            self.directs.set(address, true);
            self.commit(address, decision.partitions.as_slice());
            return;
        }
        self.tell_motion(address, site.wide, &decision);
        assert(decision.model(model.cost) == model);
        self.commit(address, decision.partitions.as_slice());
        self.inter.tell_pattern(
            address,
            site.wide,
            allowed,
            luma_levels.uses_8x8(),
            luma_marks,
            chroma_marks,
            site.qp,
            Ghost(coded),
        );
        self.inter.encode_cabac_residuals(
            address,
            site.wide,
            &luma_levels,
            &chroma_residuals,
            luma_marks,
            chroma_marks,
            Ghost(coded),
        );
    }

    /// Codes all macroblocks.
    fn encode_macroblocks(
        &mut self,
        configuration: &Configuration,
        previous: &EncoderReference,
        future: &EncoderReference,
        picture_order_count: i32,
        source: &Planes,
        qps: &[i32],
        Ghost(all_qps): Ghost<Seq<int>>,
    )
        requires
            configuration.valid(),
            planes_fit(
                source@,
                configuration.macroblocks_wide as int,
                configuration.macroblocks_high as int,
            ),
            surroundings_fit(
                previous,
                future,
                configuration.macroblocks_wide as int,
                configuration.macroblocks_high as int,
            ),
            qps@.len() == configuration.macroblocks_wide * configuration.macroblocks_high,
            forall|a: int|
                0 <= a < qps@.len() ==> (#[trigger] qps@[a]) == all_qps[a] && quantizer(
                    qps@[a] as int,
                ),
            old(self).valid(
                configuration.macroblocks_wide as int,
                configuration.macroblocks_high as int,
            ),
        ensures
            final(self).valid(
                configuration.macroblocks_wide as int,
                configuration.macroblocks_high as int,
            ),
            final(self)@ == cabac_b_coded(
                *configuration,
                (Surroundings {
                    previous: previous@,
                    future: future@,
                    picture_order_count: picture_order_count as int,
                }),
                source@,
                all_qps,
                old(self)@,
                configuration.macroblocks_wide * configuration.macroblocks_high,
            ),
    {
        proof {
            configuration.lemma_sizes();
        }
        let wide: usize = configuration.macroblocks_wide;
        let high: usize = configuration.macroblocks_high;
        let count: usize = wide * high;
        let ghost around = Surroundings {
            previous: previous@,
            future: future@,
            picture_order_count: picture_order_count as int,
        };
        let ghost start = self@;
        let mut address: usize = 0;
        while address < count
            invariant
                address <= count,
                count == wide * high,
                0 < wide,
                configuration.valid(),
                wide == configuration.macroblocks_wide,
                high == configuration.macroblocks_high,
                planes_fit(source@, wide as int, high as int),
                surroundings_fit(previous, future, wide as int, high as int),
                around == (Surroundings {
                    previous: previous@,
                    future: future@,
                    picture_order_count: picture_order_count as int,
                }),
                qps@.len() == count,
                forall|a: int|
                    0 <= a < count ==> (#[trigger] qps@[a]) == all_qps[a] && quantizer(
                        qps@[a] as int,
                    ),
                self.valid(wide as int, high as int),
                self@ == cabac_b_coded(
                    *configuration,
                    around,
                    source@,
                    all_qps,
                    start,
                    address as int,
                ),
            decreases count - address,
        {
            let x: usize = address % wide;
            let y: usize = address / wide;
            proof {
                vstd::arithmetic::div_mod::lemma_fundamental_div_mod(address as int, wide as int);
                assert(y < high) by (nonlinear_arith)
                    requires
                        wide * y + x == address,
                        address < wide * high,
                        0 <= x,
                        0 < wide,
                ;
            }
            let site = Site {
                source,
                wide,
                high,
                x,
                y,
                qp: qps[address],
                bypass: configuration.transform_bypass,
                preset: configuration.scaling_matrix,
            };
            assert(site@ == inter_site(*configuration, source@, all_qps, address as int));
            self.inter.go_on(address);
            self.encode_macroblock(configuration, previous, future, picture_order_count, &site);
            address = address + 1;
        }
    }
}

/// Encodes a picture that is predicted from both sides.
pub fn encode_cabac_b_picture(
    table: &[(i8, i8)],
    frame: &VideoFrame,
    configuration: &Configuration,
    previous: &EncoderReference,
    future: &EncoderReference,
    frame_num: u8,
    pic_order_cnt_lsb: u8,
    picture_order_count: i32,
) -> (encoded: EncodedFrame)
    requires
        table@.len() == crate::bins::SLOT_COUNT,
        configuration.valid(),
        frame_fits(
            frame@,
            configuration.macroblocks_wide as int,
            configuration.macroblocks_high as int,
        ),
        surroundings_fit(
            previous,
            future,
            configuration.macroblocks_wide as int,
            configuration.macroblocks_high as int,
        ),
    ensures
        encoded@ == cabac_b_picture(
            table@,
            *configuration,
            frame@,
            (Surroundings {
                previous: previous@,
                future: future@,
                picture_order_count: picture_order_count as int,
            }),
            frame_num as int,
            pic_order_cnt_lsb as int,
        ),
        planes_fit(
            encoded.coded_reconstruction@,
            configuration.macroblocks_wide as int,
            configuration.macroblocks_high as int,
        ),
{
    reveal(cabac_b_picture);
    proof {
        configuration.lemma_sizes();
    }
    let wide: usize = configuration.macroblocks_wide;
    let high: usize = configuration.macroblocks_high;
    let spatial = match configuration.b_direct_mode {
        BDirectMode::Spatial => true,
        BDirectMode::Temporal => false,
    };
    let mut writer = BitWriter::new();
    write_b_header(
        &mut writer,
        frame_num,
        pic_order_cnt_lsb,
        spatial,
        true,
        configuration.qp,
    );
    assert(writer@ =~= b_header(
        frame_num as int,
        pic_order_cnt_lsb as int,
        spatial,
        true,
        configuration.qp as int,
    ));
    writer.align_to_byte_with(true);
    let mut rbsp: Vec<u8> = writer.into_bytes();
    let source: Planes = padded_planes(frame, wide, high);
    let qps: Vec<i32> = adaptive_macroblock_qps(
        source.luma.as_slice(),
        wide,
        high,
        configuration.qp,
        configuration.aq_strength,
    );
    let ghost all_qps = adaptive_qps(
        source.luma@,
        wide as int,
        high as int,
        configuration.qp as int,
        configuration.aq_strength as int,
    );
    let mut picture: BSymbols = BSymbols::start(&previous.planes, wide, high, configuration.qp);
    picture.encode_macroblocks(
        configuration,
        previous,
        future,
        picture_order_count,
        &source,
        qps.as_slice(),
        Ghost(all_qps),
    );
    let inter: InterCoder = picture.inter;
    let symbols: Symbols = inter.symbols;
    let mut payload: Vec<u8> = encode_picture_bins(table, configuration.qp, symbols.bins);
    rbsp.append(&mut payload);
    let nal: Vec<u8> = make_nal(0x01, rbsp);
    let reconstructed: VideoFrame = visible_frame(frame, &inter.planes, wide, high);
    let encoded = EncodedFrame {
        nal,
        reconstructed,
        coded_reconstruction: inter.planes,
        motion_l0: Vec::new(),
        reference_l0_poc: Vec::new(),
        macroblock_intra: Vec::new(),
    };
    proof {
        assert(rows(encoded.motion_l0@) =~= Seq::<Seq<Option<MotionState>>>::empty());
        assert(rows(encoded.reference_l0_poc@) =~= Seq::<Seq<Option<i32>>>::empty());
        assert(encoded.macroblock_intra@ =~= Seq::<bool>::empty());
    }
    encoded
}

} // verus!
