//! What the unit of a picture tells that is predicted from an earlier and a later one and written
//! with variable-length codes.

use vstd::prelude::*;

use crate::b_picture::{
    b_coded, b_header, b_macroblock, b_model, b_motion_bits, b_parts_large, b_start,
    cavlc_b_picture, BState, Surroundings,
};
use crate::b_select::BDecisionModel;
use crate::bits::{bits_of, packed};
use crate::config::{AnalysisPreset, BDirectMode, Configuration};
use crate::frame::{padded_samples, FrameModel};
use crate::framing::law_unescape_nal;
use crate::golomb::{finished, se_bits, ue_bits};
use crate::inter_coding::{inter_coded, luma_blocks, InterCoded};
use crate::inter_residual::{chroma_pattern, luma_pattern};
use crate::p_picture::{inter_pattern_bits, inter_site, with_last_run};
use crate::picture::{Samples, SiteModel};
use crate::quantize::quantizer;
use crate::quantizers::{adaptive_qps, qp_delta};
use crate::told_b_motion::{lemma_b_decision, lemma_b_motion_told, lemma_direct_told};
use crate::told_codes::{law_signed_told, law_unsigned_told, lemma_same_start};
use crate::told_inter::{
    coded_pattern, lemma_inter_alike, lemma_inter_sized, lemma_luma_equal, lemma_no_marks,
    lemma_pattern_told,
};
use crate::told_pictures::{
    lemma_chroma_equal, lemma_payload_told, lemma_quantizers, lemma_residual_follows,
    lemma_residual_told, same_place,
};

verus! {

/// Whether eight-by-eight transforms may be named in a macroblock.
spec fn large_allowed(configuration: Configuration, decision: BDecisionModel) -> bool {
    configuration.transform_8x8_mode && b_parts_large(decision.partitions)
}

/// How a macroblock is predicted.
spec fn b_decision(
    configuration: Configuration,
    around: Surroundings,
    site: SiteModel,
    state: BState,
) -> BDecisionModel {
    b_model(configuration, around, state, site).decided(configuration.analysis)
}

/// What is coded of a macroblock.
spec fn macroblock_coded(
    configuration: Configuration,
    state: BState,
    site: SiteModel,
    decision: BDecisionModel,
) -> InterCoded {
    inter_coded(
        site,
        state.coder.planes,
        decision.prediction,
        large_allowed(configuration, decision) && configuration.analysis == AnalysisPreset::Full,
    )
}

/// Whether a macroblock needs no bits.
spec fn passed_over(
    configuration: Configuration,
    around: Surroundings,
    state: BState,
    site: SiteModel,
) -> bool {
    let decision = b_decision(configuration, around, site, state);
    decision.direct && coded_pattern(macroblock_coded(configuration, state, site, decision)) == 0
}

/// The bits of a macroblock up to its residual.
spec fn macroblock_head(
    configuration: Configuration,
    around: Surroundings,
    state: BState,
    site: SiteModel,
) -> Seq<bool> {
    let decision = b_decision(configuration, around, site, state);
    let coded = macroblock_coded(configuration, state, site, decision);
    ue_bits(state.skip_run as nat) + b_motion_bits(decision)
        + inter_pattern_bits(
        coded_pattern(coded),
        luma_pattern(coded.luma),
        large_allowed(configuration, decision),
        coded.luma is EightByEight,
        qp_delta(state.coder.previous_qp, site.qp),
    )
}

/// Whether what is kept of a picture has its range.
spec fn state_sized(state: BState) -> bool {
    &&& quantizer(state.coder.previous_qp)
    &&& 0 <= state.skip_run
}

/// A macroblock that needs no bits adds none; another one adds the run before it and more.
proof fn lemma_macroblock_adds(
    configuration: Configuration,
    around: Surroundings,
    state: BState,
    site: SiteModel,
) -> (more: Seq<bool>)
    requires
        state_sized(state),
        quantizer(site.qp),
    ensures
        ({
            let after = b_macroblock(configuration, around, state, site);
            &&& state_sized(after)
            &&& passed_over(configuration, around, state, site) ==> after.coder.bits
                == state.coder.bits && after.skip_run == state.skip_run + 1
            &&& !passed_over(configuration, around, state, site) ==> after.coder.bits
                == state.coder.bits + (macroblock_head(configuration, around, state, site)
                + more)
        }),
{
    reveal(b_macroblock);
    let decision = b_decision(configuration, around, site, state);
    let coded = macroblock_coded(configuration, state, site, decision);
    lemma_residual_follows(
        state.coder,
        macroblock_head(configuration, around, state, site),
        site.address(),
        site.wide,
        luma_blocks(coded.luma),
        luma_pattern(coded.luma),
        coded.cb,
        coded.cr,
        chroma_pattern(coded.cb, coded.cr),
    )
}

/// Macroblocks that need no bits are alike.
proof fn lemma_passed_told(
    configuration: Configuration,
    around: Surroundings,
    state: BState,
    first: SiteModel,
    second: SiteModel,
)
    requires
        same_place(first, second),
        quantizer(first.qp),
        quantizer(second.qp),
        passed_over(configuration, around, state, first),
        passed_over(configuration, around, state, second),
    ensures
        b_macroblock(configuration, around, state, first) == b_macroblock(
            configuration,
            around,
            state,
            second,
        ),
{
    reveal(b_macroblock);
    let analysis = configuration.analysis;
    let model = b_model(configuration, around, state, first);
    let other_model = b_model(configuration, around, state, second);
    lemma_b_decision(model, analysis);
    lemma_b_decision(other_model, analysis);
    let a = b_decision(configuration, around, first, state);
    let b = b_decision(configuration, around, second, state);
    lemma_direct_told(model, other_model, analysis, a, b);
    let allowed = large_allowed(configuration, a) && configuration.analysis
        == AnalysisPreset::Full;
    let c = macroblock_coded(configuration, state, first, a);
    let d = macroblock_coded(configuration, state, second, b);
    lemma_inter_sized(first, state.coder.planes, a.prediction, allowed);
    lemma_inter_sized(second, state.coder.planes, a.prediction, allowed);
    lemma_no_marks(c.luma);
    lemma_no_marks(d.luma);
    lemma_chroma_equal(c.cb, c.cr, d.cb, d.cr);
    lemma_inter_alike(first, second, state.coder.planes, a.prediction, allowed);
}

proof fn lemma_joined(first: Seq<bool>, second: Seq<bool>, third: Seq<bool>, rest: Seq<bool>)
    ensures
        (first + second + third) + rest == first + (second + (third + rest)),
{
    assert((first + second + third) + rest =~= first + (second + (third + rest)));
}

/// What stands before the residual of a macroblock is told by its bits, where the macroblocks
/// before it are known.
#[verifier::spinoff_prover]
#[verifier::rlimit(40)]
proof fn lemma_macroblock_head_told(
    configuration: Configuration,
    around: Surroundings,
    state: BState,
    first: SiteModel,
    second: SiteModel,
    x: Seq<bool>,
    y: Seq<bool>,
)
    requires
        same_place(first, second),
        quantizer(first.qp),
        quantizer(second.qp),
        state_sized(state),
        macroblock_head(configuration, around, state, first) + x == macroblock_head(
            configuration,
            around,
            state,
            second,
        ) + y,
    ensures
        ({
            let a = b_decision(configuration, around, first, state);
            let b = b_decision(configuration, around, second, state);
            let c = macroblock_coded(configuration, state, first, a);
            let d = macroblock_coded(configuration, state, second, b);
            &&& a.macroblock_type == b.macroblock_type
            &&& a.partitions == b.partitions
            &&& a.prediction == b.prediction
            &&& luma_pattern(c.luma) == luma_pattern(d.luma)
            &&& chroma_pattern(c.cb, c.cr) == chroma_pattern(d.cb, d.cr)
            &&& luma_pattern(c.luma) != 0 ==> c.luma is EightByEight == d.luma is EightByEight
            &&& coded_pattern(c) != 0 ==> first.qp == second.qp
        }),
        macroblock_head(configuration, around, state, first) == macroblock_head(
            configuration,
            around,
            state,
            second,
        ),
        x == y,
{
    let analysis = configuration.analysis;
    let model = b_model(configuration, around, state, first);
    let other_model = b_model(configuration, around, state, second);
    lemma_b_decision(model, analysis);
    lemma_b_decision(other_model, analysis);
    let a = b_decision(configuration, around, first, state);
    let b = b_decision(configuration, around, second, state);
    let c = macroblock_coded(configuration, state, first, a);
    let d = macroblock_coded(configuration, state, second, b);
    let allowed = large_allowed(configuration, a);
    let full = configuration.analysis == AnalysisPreset::Full;
    lemma_inter_sized(first, state.coder.planes, a.prediction, allowed && full);
    lemma_inter_sized(
        second,
        state.coder.planes,
        b.prediction,
        large_allowed(configuration, b) && full,
    );
    let u = inter_pattern_bits(
        coded_pattern(c),
        luma_pattern(c.luma),
        allowed,
        c.luma is EightByEight,
        qp_delta(state.coder.previous_qp, first.qp),
    );
    let v = inter_pattern_bits(
        coded_pattern(d),
        luma_pattern(d.luma),
        large_allowed(configuration, b),
        d.luma is EightByEight,
        qp_delta(state.coder.previous_qp, second.qp),
    );
    let run = ue_bits(state.skip_run as nat);
    let head = macroblock_head(configuration, around, state, first);
    let other_head = macroblock_head(configuration, around, state, second);
    lemma_joined(run, b_motion_bits(a), u, x);
    lemma_joined(run, b_motion_bits(b), v, y);
    lemma_same_start(
        run,
        b_motion_bits(a) + (u + x),
        run,
        b_motion_bits(b) + (v + y),
    );
    lemma_b_motion_told(model, other_model, analysis, a, b, u + x, v + y);
    lemma_pattern_told(
        coded_pattern(c),
        coded_pattern(d),
        luma_pattern(c.luma),
        luma_pattern(d.luma),
        allowed,
        c.luma is EightByEight,
        d.luma is EightByEight,
        state.coder.previous_qp,
        first.qp,
        second.qp,
        x,
        y,
    );
    assert((head + x).len() == head.len() + x.len());
    assert((other_head + y).len() == other_head.len() + y.len());
    lemma_same_start(head, x, other_head, y);
}

/// A macroblock that is coded is told by its bits, where the macroblocks before it are known.
#[verifier::spinoff_prover]
#[verifier::rlimit(40)]
proof fn lemma_coded_told(
    configuration: Configuration,
    around: Surroundings,
    state: BState,
    first: SiteModel,
    second: SiteModel,
    x: Seq<bool>,
    y: Seq<bool>,
)
    requires
        same_place(first, second),
        quantizer(first.qp),
        quantizer(second.qp),
        state_sized(state),
        !passed_over(configuration, around, state, first),
        !passed_over(configuration, around, state, second),
        b_macroblock(configuration, around, state, first).coder.bits + x == b_macroblock(
            configuration,
            around,
            state,
            second,
        ).coder.bits + y,
    ensures
        b_macroblock(configuration, around, state, first) == b_macroblock(
            configuration,
            around,
            state,
            second,
        ),
        x == y,
{
    let head = macroblock_head(configuration, around, state, first);
    let other_head = macroblock_head(configuration, around, state, second);
    let rest = lemma_macroblock_adds(configuration, around, state, first);
    let other_rest = lemma_macroblock_adds(configuration, around, state, second);
    let bits = state.coder.bits;
    assert((bits + (head + rest)) + x =~= bits + (head + (rest + x)));
    assert((bits + (other_head + other_rest)) + y =~= bits + (other_head + (other_rest + y)));
    lemma_same_start(bits, head + (rest + x), bits, other_head + (other_rest + y));
    lemma_macroblock_head_told(
        configuration,
        around,
        state,
        first,
        second,
        rest + x,
        other_rest + y,
    );
    let a = b_decision(configuration, around, first, state);
    let b = b_decision(configuration, around, second, state);
    let allowed = large_allowed(configuration, a) && configuration.analysis
        == AnalysisPreset::Full;
    let c = macroblock_coded(configuration, state, first, a);
    let d = macroblock_coded(configuration, state, second, b);
    lemma_inter_sized(first, state.coder.planes, a.prediction, allowed);
    lemma_inter_sized(second, state.coder.planes, a.prediction, allowed);
    reveal(b_macroblock);
    let marks = luma_pattern(c.luma);
    let chroma_marks = chroma_pattern(c.cb, c.cr);
    lemma_residual_told(
        state.coder.written(head),
        first.address(),
        first.wide,
        16,
        luma_blocks(c.luma),
        luma_blocks(d.luma),
        marks,
        c.cb,
        c.cr,
        d.cb,
        d.cr,
        chroma_marks,
        x,
        y,
    );
    if marks == 0 {
        lemma_no_marks(c.luma);
        lemma_no_marks(d.luma);
    } else {
        lemma_luma_equal(c.luma, d.luma);
    }
    lemma_chroma_equal(c.cb, c.cr, d.cb, d.cr);
    lemma_inter_alike(first, second, state.coder.planes, a.prediction, allowed);
}

/// All bits of a picture.
spec fn picture_bits(
    configuration: Configuration,
    around: Surroundings,
    source: Samples,
    qps: Seq<int>,
    start: BState,
    count: int,
) -> Seq<bool> {
    let end = b_coded(configuration, around, source, qps, start, count);
    with_last_run(end.coder.bits, end.skip_run)
}

/// What is kept of a picture keeps its range.
proof fn lemma_states_sized(
    configuration: Configuration,
    around: Surroundings,
    source: Samples,
    qps: Seq<int>,
    start: BState,
    count: int,
)
    requires
        state_sized(start),
        forall|a: int| 0 <= a < count ==> quantizer(#[trigger] qps[a]),
    ensures
        state_sized(b_coded(configuration, around, source, qps, start, count)),
    decreases count,
{
    if count > 0 {
        lemma_states_sized(configuration, around, source, qps, start, count - 1);
        assert(quantizer(qps[count - 1]));
        let _ = lemma_macroblock_adds(
            configuration,
            around,
            b_coded(configuration, around, source, qps, start, count - 1),
            inter_site(configuration, source, qps, count - 1),
        );
    }
}

/// The bits of the first macroblocks of a picture start its bits.
proof fn lemma_bits_start(
    configuration: Configuration,
    around: Surroundings,
    source: Samples,
    qps: Seq<int>,
    start: BState,
    at: int,
    count: int,
) -> (rest: Seq<bool>)
    requires
        0 <= at <= count,
        state_sized(start),
        forall|a: int| 0 <= a < count ==> quantizer(#[trigger] qps[a]),
    ensures
        picture_bits(configuration, around, source, qps, start, count) == b_coded(
            configuration,
            around,
            source,
            qps,
            start,
            at,
        ).coder.bits + rest,
    decreases count - at,
{
    let state = b_coded(configuration, around, source, qps, start, at);
    let bits = state.coder.bits;
    if at == count {
        if state.skip_run != 0 {
            ue_bits(state.skip_run as nat)
        } else {
            assert(bits + Seq::empty() =~= bits);
            Seq::empty()
        }
    } else {
        let rest = lemma_bits_start(
            configuration,
            around,
            source,
            qps,
            start,
            at + 1,
            count,
        );
        lemma_states_sized(configuration, around, source, qps, start, at);
        assert(quantizer(qps[at]));
        let site = inter_site(configuration, source, qps, at);
        let more = lemma_macroblock_adds(configuration, around, state, site);
        if passed_over(configuration, around, state, site) {
            rest
        } else {
            let head = macroblock_head(configuration, around, state, site);
            assert((bits + (head + more)) + rest =~= bits + ((head + more) + rest));
            (head + more) + rest
        }
    }
}

/// Behind the bits so far stands a run that is at least as long as the one so far; it is longer
/// where the next macroblock needs no bits, and no longer where it does.
proof fn lemma_run_follows(
    configuration: Configuration,
    around: Surroundings,
    source: Samples,
    qps: Seq<int>,
    start: BState,
    at: int,
    count: int,
) -> (out: (nat, Seq<bool>))
    requires
        0 <= at <= count,
        state_sized(start),
        forall|a: int| 0 <= a < count ==> quantizer(#[trigger] qps[a]),
        at < count || b_coded(configuration, around, source, qps, start, at).skip_run > 0,
    ensures
        ({
            let state = b_coded(configuration, around, source, qps, start, at);
            let site = inter_site(configuration, source, qps, at);
            &&& picture_bits(configuration, around, source, qps, start, count)
                == state.coder.bits + (ue_bits(out.0) + out.1)
            &&& state.skip_run <= out.0
            &&& at < count ==> (passed_over(configuration, around, state, site) <==> state.skip_run
                < out.0)
        }),
    decreases count - at,
{
    let state = b_coded(configuration, around, source, qps, start, at);
    let bits = state.coder.bits;
    lemma_states_sized(configuration, around, source, qps, start, at);
    if at == count {
        let run = ue_bits(state.skip_run as nat);
        assert(run + Seq::empty() =~= run);
        (state.skip_run as nat, Seq::empty())
    } else {
        assert(quantizer(qps[at]));
        let site = inter_site(configuration, source, qps, at);
        let more = lemma_macroblock_adds(configuration, around, state, site);
        let after = b_coded(configuration, around, source, qps, start, at + 1);
        assert(after == b_macroblock(configuration, around, state, site));
        if passed_over(configuration, around, state, site) {
            lemma_run_follows(configuration, around, source, qps, start, at + 1, count)
        } else {
            let rest = lemma_bits_start(
                configuration,
                around,
                source,
                qps,
                start,
                at + 1,
                count,
            );
            let run = ue_bits(state.skip_run as nat);
            let head = macroblock_head(configuration, around, state, site);
            let tail = head.skip(run.len() as int);
            assert(head =~= run + tail);
            assert((bits + (head + more)) + rest =~= bits + (run + (tail + more + rest)));
            (state.skip_run as nat, tail + more + rest)
        }
    }
}

/// The macroblocks of a predicted picture are told by its bits.
proof fn lemma_macroblocks_told(
    configuration: Configuration,
    around: Surroundings,
    first: Samples,
    first_qps: Seq<int>,
    second: Samples,
    second_qps: Seq<int>,
    start: BState,
    at: int,
    count: int,
)
    requires
        configuration.macroblocks_wide > 0,
        0 <= at <= count,
        state_sized(start),
        forall|a: int| 0 <= a < count ==> quantizer(#[trigger] first_qps[a]),
        forall|a: int| 0 <= a < count ==> quantizer(#[trigger] second_qps[a]),
        picture_bits(configuration, around, first, first_qps, start, count) == picture_bits(
            configuration,
            around,
            second,
            second_qps,
            start,
            count,
        ),
    ensures
        b_coded(configuration, around, first, first_qps, start, at) == b_coded(
            configuration,
            around,
            second,
            second_qps,
            start,
            at,
        ),
    decreases at,
{
    if at > 0 {
        let address = at - 1;
        lemma_macroblocks_told(
            configuration,
            around,
            first,
            first_qps,
            second,
            second_qps,
            start,
            address,
            count,
        );
        let state = b_coded(configuration, around, first, first_qps, start, address);
        let a = inter_site(configuration, first, first_qps, address);
        let b = inter_site(configuration, second, second_qps, address);
        assert(quantizer(first_qps[address]) && quantizer(second_qps[address]));
        lemma_states_sized(configuration, around, first, first_qps, start, address);
        let (run, tail) = lemma_run_follows(
            configuration,
            around,
            first,
            first_qps,
            start,
            address,
            count,
        );
        let (other_run, other_tail) = lemma_run_follows(
            configuration,
            around,
            second,
            second_qps,
            start,
            address,
            count,
        );
        lemma_same_start(
            state.coder.bits,
            ue_bits(run) + tail,
            state.coder.bits,
            ue_bits(other_run) + other_tail,
        );
        law_unsigned_told(run, other_run, tail, other_tail);
        if passed_over(configuration, around, state, a) {
            lemma_passed_told(configuration, around, state, a, b);
        } else {
            let x = lemma_bits_start(
                configuration,
                around,
                first,
                first_qps,
                start,
                at,
                count,
            );
            let y = lemma_bits_start(
                configuration,
                around,
                second,
                second_qps,
                start,
                at,
                count,
            );
            lemma_coded_told(configuration, around, state, a, b, x, y);
        }
    }
}

/// The quantizer of a predicted picture is told by its header.
proof fn lemma_header_told(
    frame_num: int,
    lsb: int,
    spatial: bool,
    first: int,
    second: int,
    x: Seq<bool>,
    y: Seq<bool>,
)
    requires
        b_header(frame_num, lsb, spatial, false, first) + x == b_header(
            frame_num,
            lsb,
            spatial,
            false,
            second,
        ) + y,
    ensures
        first == second,
{
    let start = ue_bits(0) + ue_bits(1) + ue_bits(0) + bits_of(frame_num as nat, 4) + bits_of(
        lsb as nat,
        4,
    ) + seq![spatial, false, false, false];
    assert(b_header(frame_num, lsb, spatial, false, first) + x =~= start + (se_bits(first - 26) + (
    ue_bits(1) + x)));
    assert(b_header(frame_num, lsb, spatial, false, second) + y =~= start + (se_bits(second - 26)
        + (ue_bits(1) + y)));
    lemma_same_start(
        start,
        se_bits(first - 26) + (ue_bits(1) + x),
        start,
        se_bits(second - 26) + (ue_bits(1) + y),
    );
    law_signed_told(first - 26, second - 26, ue_bits(1) + x, ue_bits(1) + y);
}

/// The unit of a picture that is predicted from an earlier and a later one and written with
/// variable-length codes tells all its coded samples: what two frames and quantizers lead to is
/// the same wherever the units and the surrounding pictures are.
pub proof fn law_unit_tells_picture_between(
    configuration: Configuration,
    first_qp: i32,
    second_qp: i32,
    first: FrameModel,
    second: FrameModel,
    around: Surroundings,
    frame_num: int,
    pic_order_cnt_lsb: int,
)
    requires
        configuration.macroblocks_wide > 0,
        configuration.macroblocks_high > 0,
        quantizer(first_qp as int),
        quantizer(second_qp as int),
        cavlc_b_picture(
            Configuration { qp: first_qp, ..configuration },
            first,
            around,
            frame_num,
            pic_order_cnt_lsb,
        ).nal == cavlc_b_picture(
            Configuration { qp: second_qp, ..configuration },
            second,
            around,
            frame_num,
            pic_order_cnt_lsb,
        ).nal,
    ensures
        cavlc_b_picture(
            Configuration { qp: first_qp, ..configuration },
            first,
            around,
            frame_num,
            pic_order_cnt_lsb,
        ).coded_reconstruction == cavlc_b_picture(
            Configuration { qp: second_qp, ..configuration },
            second,
            around,
            frame_num,
            pic_order_cnt_lsb,
        ).coded_reconstruction,
        first_qp == second_qp,
{
    reveal(cavlc_b_picture);
    reveal(b_start);
    let a = Configuration { qp: first_qp, ..configuration };
    let b = Configuration { qp: second_qp, ..configuration };
    let wide = configuration.macroblocks_wide as int;
    let high = configuration.macroblocks_high as int;
    let strength = configuration.aq_strength as int;
    let source = padded_samples(first, wide, high);
    let other = padded_samples(second, wide, high);
    let qps = adaptive_qps(source.luma, wide, high, first_qp as int, strength);
    let other_qps = adaptive_qps(other.luma, wide, high, second_qp as int, strength);
    lemma_quantizers(source.luma, wide, high, first_qp as int, strength);
    lemma_quantizers(other.luma, wide, high, second_qp as int, strength);
    let spatial = configuration.b_direct_mode == BDirectMode::Spatial;
    let header = b_header(frame_num, pic_order_cnt_lsb, spatial, false, first_qp as int);
    let other_header = b_header(frame_num, pic_order_cnt_lsb, spatial, false, second_qp as int);
    let planes = around.previous.planes;
    let start = b_start(header, planes, wide, high, first_qp as int);
    let other_start = b_start(other_header, planes, wide, high, second_qp as int);
    let count = wide * high;
    let u = picture_bits(a, around, source, qps, start, count);
    let v = picture_bits(b, around, other, other_qps, other_start, count);
    law_unescape_nal(0x01, packed(finished(u)));
    law_unescape_nal(0x01, packed(finished(v)));
    let c = seq![0x01u8] + packed(finished(u));
    let d = seq![0x01u8] + packed(finished(v));
    assert(c.skip(1) =~= packed(finished(u)));
    assert(d.skip(1) =~= packed(finished(v)));
    lemma_payload_told(u, v);
    assert(0 <= count) by (nonlinear_arith)
        requires
            count == wide * high,
            0 < wide,
            0 < high,
    ;
    let rest = lemma_bits_start(a, around, source, qps, start, 0, count);
    let other_rest = lemma_bits_start(b, around, other, other_qps, other_start, 0, count);
    lemma_header_told(
        frame_num,
        pic_order_cnt_lsb,
        spatial,
        first_qp as int,
        second_qp as int,
        rest,
        other_rest,
    );
    lemma_macroblocks_told(a, around, source, qps, other, other_qps, start, count, count);
}

} // verus!
