//! What the unit of a picture tells that is predicted from earlier ones and written with
//! variable-length codes.

use vstd::prelude::*;

use crate::bits::{bits_of, packed};
use crate::config::{AnalysisPreset, Configuration};
use crate::frame::{padded_samples, FrameModel};
use crate::framing::law_unescape_nal;
use crate::golomb::{finished, se_bits, ue_bits};
use crate::inter_coding::{inter_coded, luma_blocks, InterCoded};
use crate::inter_residual::{chroma_pattern, luma_pattern};
use crate::motion::skip_vector;
use crate::p_picture::{
    cavlc_p_picture, inter_pattern_bits, inter_site, p_coded, p_decision, p_header, p_macroblock,
    p_motion_bits, p_skipped, p_start, parts_large, picture_model, with_last_run, PState,
};
use crate::p_select::{DecisionModel, ReferencePicture};
use crate::picture::{Samples, SiteModel};
use crate::quantize::quantizer;
use crate::quantizers::{adaptive_qps, qp_delta};
use crate::told_codes::{law_signed_told, law_unsigned_told, lemma_same_start};
use crate::told_inter::{
    coded_pattern, lemma_inter_alike, lemma_inter_sized, lemma_luma_equal, lemma_no_marks,
    lemma_pattern_told,
};
use crate::told_motion::{
    decision_from, lemma_decision, lemma_decision_refers, lemma_motion_told, lemma_whole_told,
};
use crate::told_pictures::{
    lemma_chroma_equal, lemma_payload_told, lemma_quantizers,
    lemma_residual_follows, lemma_residual_told, same_place,
};

verus! {

/// Whether eight-by-eight transforms may be named in a macroblock.
spec fn large_allowed(configuration: Configuration, decision: DecisionModel) -> bool {
    configuration.transform_8x8_mode && parts_large(decision.partitions)
}

/// What is coded of a macroblock.
spec fn macroblock_coded(
    configuration: Configuration,
    state: PState,
    site: SiteModel,
    decision: DecisionModel,
) -> InterCoded {
    inter_coded(
        site,
        state.coder.planes,
        decision.prediction,
        large_allowed(configuration, decision) && configuration.analysis == AnalysisPreset::Full,
    )
}

/// Whether a macroblock needs no bits.
spec fn passed_over(
    configuration: Configuration,
    references: Seq<ReferencePicture>,
    state: PState,
    site: SiteModel,
) -> bool {
    let decision = p_decision(configuration, references, site, state.motions);
    p_skipped(
        decision,
        coded_pattern(macroblock_coded(configuration, state, site, decision)),
        skip_vector(state.motions, site.address(), site.wide),
    )
}

/// The bits of a macroblock up to its residual.
spec fn macroblock_head(
    configuration: Configuration,
    references: Seq<ReferencePicture>,
    state: PState,
    site: SiteModel,
) -> Seq<bool> {
    let decision = p_decision(configuration, references, site, state.motions);
    let coded = macroblock_coded(configuration, state, site, decision);
    ue_bits(state.skip_run as nat) + p_motion_bits(decision, references.len() - 1)
        + inter_pattern_bits(
        coded_pattern(coded),
        luma_pattern(coded.luma),
        large_allowed(configuration, decision),
        coded.luma is EightByEight,
        qp_delta(state.coder.previous_qp, site.qp),
    )
}

/// Whether what is kept of a picture has its range.
spec fn state_sized(state: PState) -> bool {
    &&& quantizer(state.coder.previous_qp)
    &&& 0 <= state.skip_run
}

/// A macroblock that needs no bits adds none; another one adds the run before it and more.
proof fn lemma_macroblock_adds(
    configuration: Configuration,
    references: Seq<ReferencePicture>,
    state: PState,
    site: SiteModel,
) -> (more: Seq<bool>)
    requires
        state_sized(state),
        quantizer(site.qp),
    ensures
        ({
            let after = p_macroblock(configuration, references, state, site);
            &&& state_sized(after)
            &&& passed_over(configuration, references, state, site) ==> after.coder.bits
                == state.coder.bits && after.skip_run == state.skip_run + 1
            &&& !passed_over(configuration, references, state, site) ==> after.coder.bits
                == state.coder.bits + (macroblock_head(configuration, references, state, site)
                + more)
        }),
{
    reveal(p_macroblock);
    let decision = p_decision(configuration, references, site, state.motions);
    let coded = macroblock_coded(configuration, state, site, decision);
    lemma_residual_follows(
        state.coder,
        macroblock_head(configuration, references, state, site),
        site.address(),
        site.wide,
        luma_blocks(coded.luma),
        luma_pattern(coded.luma),
        coded.cb,
        coded.cr,
        chroma_pattern(coded.cb, coded.cr),
    )
}

/// The decision for a macroblock comes from one of the reference pictures.
proof fn lemma_p_decision(
    configuration: Configuration,
    references: Seq<ReferencePicture>,
    state: PState,
    site: SiteModel,
) -> (index: int)
    requires
        1 <= references.len() <= 256,
    ensures
        0 <= index < references.len(),
        decision_from(
            picture_model(configuration, site, state.motions),
            references,
            index,
            p_decision(configuration, references, site, state.motions),
        ),
        p_decision(configuration, references, site, state.motions).partitions.len() >= 1,
        p_decision(
            configuration,
            references,
            site,
            state.motions,
        ).partitions[0].reference_index == index,
{
    reveal(p_decision);
    let model = picture_model(configuration, site, state.motions);
    let index = lemma_decision(model, references, model.tried_references(references));
    lemma_decision_refers(
        model,
        references,
        index,
        p_decision(configuration, references, site, state.motions),
    );
    index
}

/// Macroblocks that need no bits are alike.
proof fn lemma_passed_told(
    configuration: Configuration,
    references: Seq<ReferencePicture>,
    state: PState,
    first: SiteModel,
    second: SiteModel,
)
    requires
        1 <= references.len() <= 256,
        same_place(first, second),
        quantizer(first.qp),
        quantizer(second.qp),
        passed_over(configuration, references, state, first),
        passed_over(configuration, references, state, second),
    ensures
        p_macroblock(configuration, references, state, first) == p_macroblock(
            configuration,
            references,
            state,
            second,
        ),
{
    reveal(p_macroblock);
    let i = lemma_p_decision(configuration, references, state, first);
    let j = lemma_p_decision(configuration, references, state, second);
    let a = p_decision(configuration, references, first, state.motions);
    let b = p_decision(configuration, references, second, state.motions);
    lemma_whole_told(
        picture_model(configuration, first, state.motions),
        picture_model(configuration, second, state.motions),
        references,
        a,
        b,
    );
    let allowed = large_allowed(configuration, a) && configuration.analysis
        == AnalysisPreset::Full;
    let c = macroblock_coded(configuration, state, first, a);
    let d = macroblock_coded(configuration, state, second, b);
    lemma_inter_sized(first, state.coder.planes, a.prediction, allowed);
    lemma_inter_sized(second, state.coder.planes, a.prediction, allowed);
    lemma_no_marks(c.luma);
    lemma_no_marks(d.luma);
    lemma_chroma_equal(c.cb, c.cr, d.cb, d.cr);
    lemma_inter_alike(first, second, state.coder.planes, a.prediction, allowed);
}

/// What stands before the residual of a macroblock is told by its bits, where the macroblocks
/// before it are known.
#[verifier::spinoff_prover]
#[verifier::rlimit(80)]
proof fn lemma_macroblock_head_told(
    configuration: Configuration,
    references: Seq<ReferencePicture>,
    state: PState,
    first: SiteModel,
    second: SiteModel,
    x: Seq<bool>,
    y: Seq<bool>,
)
    requires
        1 <= references.len() <= 256,
        same_place(first, second),
        quantizer(first.qp),
        quantizer(second.qp),
        state_sized(state),
        macroblock_head(configuration, references, state, first) + x == macroblock_head(
            configuration,
            references,
            state,
            second,
        ) + y,
    ensures
        ({
            let a = p_decision(configuration, references, first, state.motions);
            let b = p_decision(configuration, references, second, state.motions);
            let c = macroblock_coded(configuration, state, first, a);
            let d = macroblock_coded(configuration, state, second, b);
            &&& a.macroblock_type == b.macroblock_type
            &&& a.partitions == b.partitions
            &&& a.prediction == b.prediction
            &&& luma_pattern(c.luma) == luma_pattern(d.luma)
            &&& chroma_pattern(c.cb, c.cr) == chroma_pattern(d.cb, d.cr)
            &&& luma_pattern(c.luma) != 0 ==> c.luma is EightByEight == d.luma is EightByEight
            &&& coded_pattern(c) != 0 ==> first.qp == second.qp
        }),
        macroblock_head(configuration, references, state, first) == macroblock_head(
            configuration,
            references,
            state,
            second,
        ),
        x == y,
{
    let i = lemma_p_decision(configuration, references, state, first);
    let j = lemma_p_decision(configuration, references, state, second);
    let a = p_decision(configuration, references, first, state.motions);
    let b = p_decision(configuration, references, second, state.motions);
    let c = macroblock_coded(configuration, state, first, a);
    let d = macroblock_coded(configuration, state, second, b);
    let allowed = large_allowed(configuration, a);
    let full = configuration.analysis == AnalysisPreset::Full;
    lemma_inter_sized(first, state.coder.planes, a.prediction, allowed && full);
    lemma_inter_sized(
        second,
        state.coder.planes,
        b.prediction,
        large_allowed(configuration, b) && full,
    );
    let u = inter_pattern_bits(
        coded_pattern(c),
        luma_pattern(c.luma),
        allowed,
        c.luma is EightByEight,
        qp_delta(state.coder.previous_qp, first.qp),
    );
    let v = inter_pattern_bits(
        coded_pattern(d),
        luma_pattern(d.luma),
        large_allowed(configuration, b),
        d.luma is EightByEight,
        qp_delta(state.coder.previous_qp, second.qp),
    );
    let run = ue_bits(state.skip_run as nat);
    let active = references.len() - 1;
    let head = macroblock_head(configuration, references, state, first);
    let other_head = macroblock_head(configuration, references, state, second);
    assert(head + x =~= run + (p_motion_bits(a, active) + (u + x)));
    assert(other_head + y =~= run + (p_motion_bits(b, active) + (v + y)));
    lemma_same_start(
        run,
        p_motion_bits(a, active) + (u + x),
        run,
        p_motion_bits(b, active) + (v + y),
    );
    lemma_motion_told(
        picture_model(configuration, first, state.motions),
        picture_model(configuration, second, state.motions),
        references,
        i,
        j,
        a,
        b,
        u + x,
        v + y,
    );
    lemma_pattern_told(
        coded_pattern(c),
        coded_pattern(d),
        luma_pattern(c.luma),
        luma_pattern(d.luma),
        allowed,
        c.luma is EightByEight,
        d.luma is EightByEight,
        state.coder.previous_qp,
        first.qp,
        second.qp,
        x,
        y,
    );
    assert((head + x).len() == head.len() + x.len());
    assert((other_head + y).len() == other_head.len() + y.len());
    lemma_same_start(head, x, other_head, y);
}

/// A macroblock that is coded is told by its bits, where the macroblocks before it are known.
#[verifier::spinoff_prover]
#[verifier::rlimit(40)]
proof fn lemma_coded_told(
    configuration: Configuration,
    references: Seq<ReferencePicture>,
    state: PState,
    first: SiteModel,
    second: SiteModel,
    x: Seq<bool>,
    y: Seq<bool>,
)
    requires
        1 <= references.len() <= 256,
        same_place(first, second),
        quantizer(first.qp),
        quantizer(second.qp),
        state_sized(state),
        !passed_over(configuration, references, state, first),
        !passed_over(configuration, references, state, second),
        p_macroblock(configuration, references, state, first).coder.bits + x == p_macroblock(
            configuration,
            references,
            state,
            second,
        ).coder.bits + y,
    ensures
        p_macroblock(configuration, references, state, first) == p_macroblock(
            configuration,
            references,
            state,
            second,
        ),
        x == y,
{
    let head = macroblock_head(configuration, references, state, first);
    let other_head = macroblock_head(configuration, references, state, second);
    let rest = lemma_macroblock_adds(configuration, references, state, first);
    let other_rest = lemma_macroblock_adds(configuration, references, state, second);
    let bits = state.coder.bits;
    assert((bits + (head + rest)) + x =~= bits + (head + (rest + x)));
    assert((bits + (other_head + other_rest)) + y =~= bits + (other_head + (other_rest + y)));
    lemma_same_start(bits, head + (rest + x), bits, other_head + (other_rest + y));
    lemma_macroblock_head_told(
        configuration,
        references,
        state,
        first,
        second,
        rest + x,
        other_rest + y,
    );
    let a = p_decision(configuration, references, first, state.motions);
    let b = p_decision(configuration, references, second, state.motions);
    let allowed = large_allowed(configuration, a) && configuration.analysis
        == AnalysisPreset::Full;
    let c = macroblock_coded(configuration, state, first, a);
    let d = macroblock_coded(configuration, state, second, b);
    lemma_inter_sized(first, state.coder.planes, a.prediction, allowed);
    lemma_inter_sized(second, state.coder.planes, a.prediction, allowed);
    reveal(p_macroblock);
    let marks = luma_pattern(c.luma);
    let chroma_marks = chroma_pattern(c.cb, c.cr);
    lemma_residual_told(
        state.coder.written(head),
        first.address(),
        first.wide,
        16,
        luma_blocks(c.luma),
        luma_blocks(d.luma),
        marks,
        c.cb,
        c.cr,
        d.cb,
        d.cr,
        chroma_marks,
        x,
        y,
    );
    if marks == 0 {
        lemma_no_marks(c.luma);
        lemma_no_marks(d.luma);
    } else {
        lemma_luma_equal(c.luma, d.luma);
    }
    lemma_chroma_equal(c.cb, c.cr, d.cb, d.cr);
    lemma_inter_alike(first, second, state.coder.planes, a.prediction, allowed);
}

/// All bits of a picture.
spec fn picture_bits(
    configuration: Configuration,
    references: Seq<ReferencePicture>,
    source: Samples,
    qps: Seq<int>,
    start: PState,
    count: int,
) -> Seq<bool> {
    let end = p_coded(configuration, references, source, qps, start, count);
    with_last_run(end.coder.bits, end.skip_run)
}

/// What is kept of a picture keeps its range.
proof fn lemma_states_sized(
    configuration: Configuration,
    references: Seq<ReferencePicture>,
    source: Samples,
    qps: Seq<int>,
    start: PState,
    count: int,
)
    requires
        state_sized(start),
        forall|a: int| 0 <= a < count ==> quantizer(#[trigger] qps[a]),
    ensures
        state_sized(p_coded(configuration, references, source, qps, start, count)),
    decreases count,
{
    if count > 0 {
        lemma_states_sized(configuration, references, source, qps, start, count - 1);
        assert(quantizer(qps[count - 1]));
        let _ = lemma_macroblock_adds(
            configuration,
            references,
            p_coded(configuration, references, source, qps, start, count - 1),
            inter_site(configuration, source, qps, count - 1),
        );
    }
}

/// The bits of the first macroblocks of a picture start its bits.
proof fn lemma_bits_start(
    configuration: Configuration,
    references: Seq<ReferencePicture>,
    source: Samples,
    qps: Seq<int>,
    start: PState,
    at: int,
    count: int,
) -> (rest: Seq<bool>)
    requires
        0 <= at <= count,
        state_sized(start),
        forall|a: int| 0 <= a < count ==> quantizer(#[trigger] qps[a]),
    ensures
        picture_bits(configuration, references, source, qps, start, count) == p_coded(
            configuration,
            references,
            source,
            qps,
            start,
            at,
        ).coder.bits + rest,
    decreases count - at,
{
    let state = p_coded(configuration, references, source, qps, start, at);
    let bits = state.coder.bits;
    if at == count {
        if state.skip_run != 0 {
            ue_bits(state.skip_run as nat)
        } else {
            assert(bits + Seq::empty() =~= bits);
            Seq::empty()
        }
    } else {
        let rest = lemma_bits_start(
            configuration,
            references,
            source,
            qps,
            start,
            at + 1,
            count,
        );
        lemma_states_sized(configuration, references, source, qps, start, at);
        assert(quantizer(qps[at]));
        let site = inter_site(configuration, source, qps, at);
        let more = lemma_macroblock_adds(configuration, references, state, site);
        if passed_over(configuration, references, state, site) {
            rest
        } else {
            let head = macroblock_head(configuration, references, state, site);
            assert((bits + (head + more)) + rest =~= bits + ((head + more) + rest));
            (head + more) + rest
        }
    }
}

/// Behind the bits so far stands a run that is at least as long as the one so far; it is longer
/// where the next macroblock needs no bits, and no longer where it does.
proof fn lemma_run_follows(
    configuration: Configuration,
    references: Seq<ReferencePicture>,
    source: Samples,
    qps: Seq<int>,
    start: PState,
    at: int,
    count: int,
) -> (out: (nat, Seq<bool>))
    requires
        0 <= at <= count,
        state_sized(start),
        forall|a: int| 0 <= a < count ==> quantizer(#[trigger] qps[a]),
        at < count || p_coded(configuration, references, source, qps, start, at).skip_run > 0,
    ensures
        ({
            let state = p_coded(configuration, references, source, qps, start, at);
            let site = inter_site(configuration, source, qps, at);
            &&& picture_bits(configuration, references, source, qps, start, count)
                == state.coder.bits + (ue_bits(out.0) + out.1)
            &&& state.skip_run <= out.0
            &&& at < count ==> (passed_over(configuration, references, state, site) <==> state.skip_run
                < out.0)
        }),
    decreases count - at,
{
    let state = p_coded(configuration, references, source, qps, start, at);
    let bits = state.coder.bits;
    lemma_states_sized(configuration, references, source, qps, start, at);
    if at == count {
        let run = ue_bits(state.skip_run as nat);
        assert(run + Seq::empty() =~= run);
        (state.skip_run as nat, Seq::empty())
    } else {
        assert(quantizer(qps[at]));
        let site = inter_site(configuration, source, qps, at);
        let more = lemma_macroblock_adds(configuration, references, state, site);
        let after = p_coded(configuration, references, source, qps, start, at + 1);
        assert(after == p_macroblock(configuration, references, state, site));
        if passed_over(configuration, references, state, site) {
            lemma_run_follows(configuration, references, source, qps, start, at + 1, count)
        } else {
            let rest = lemma_bits_start(
                configuration,
                references,
                source,
                qps,
                start,
                at + 1,
                count,
            );
            let run = ue_bits(state.skip_run as nat);
            let head = macroblock_head(configuration, references, state, site);
            let tail = head.skip(run.len() as int);
            assert(head =~= run + tail);
            assert((bits + (head + more)) + rest =~= bits + (run + (tail + more + rest)));
            (state.skip_run as nat, tail + more + rest)
        }
    }
}

/// The macroblocks of a predicted picture are told by its bits.
proof fn lemma_macroblocks_told(
    configuration: Configuration,
    references: Seq<ReferencePicture>,
    first: Samples,
    first_qps: Seq<int>,
    second: Samples,
    second_qps: Seq<int>,
    start: PState,
    at: int,
    count: int,
)
    requires
        1 <= references.len() <= 256,
        configuration.macroblocks_wide > 0,
        0 <= at <= count,
        state_sized(start),
        forall|a: int| 0 <= a < count ==> quantizer(#[trigger] first_qps[a]),
        forall|a: int| 0 <= a < count ==> quantizer(#[trigger] second_qps[a]),
        picture_bits(configuration, references, first, first_qps, start, count) == picture_bits(
            configuration,
            references,
            second,
            second_qps,
            start,
            count,
        ),
    ensures
        p_coded(configuration, references, first, first_qps, start, at) == p_coded(
            configuration,
            references,
            second,
            second_qps,
            start,
            at,
        ),
    decreases at,
{
    if at > 0 {
        let address = at - 1;
        lemma_macroblocks_told(
            configuration,
            references,
            first,
            first_qps,
            second,
            second_qps,
            start,
            address,
            count,
        );
        let state = p_coded(configuration, references, first, first_qps, start, address);
        let a = inter_site(configuration, first, first_qps, address);
        let b = inter_site(configuration, second, second_qps, address);
        assert(quantizer(first_qps[address]) && quantizer(second_qps[address]));
        lemma_states_sized(configuration, references, first, first_qps, start, address);
        let (run, tail) = lemma_run_follows(
            configuration,
            references,
            first,
            first_qps,
            start,
            address,
            count,
        );
        let (other_run, other_tail) = lemma_run_follows(
            configuration,
            references,
            second,
            second_qps,
            start,
            address,
            count,
        );
        lemma_same_start(
            state.coder.bits,
            ue_bits(run) + tail,
            state.coder.bits,
            ue_bits(other_run) + other_tail,
        );
        law_unsigned_told(run, other_run, tail, other_tail);
        if passed_over(configuration, references, state, a) {
            lemma_passed_told(configuration, references, state, a, b);
        } else {
            let x = lemma_bits_start(
                configuration,
                references,
                first,
                first_qps,
                start,
                at,
                count,
            );
            let y = lemma_bits_start(
                configuration,
                references,
                second,
                second_qps,
                start,
                at,
                count,
            );
            lemma_coded_told(configuration, references, state, a, b, x, y);
        }
    }
}

/// The quantizer of a predicted picture is told by its header.
proof fn lemma_header_told(
    frame_num: int,
    ordered: bool,
    lsb: int,
    active_minus1: int,
    first: int,
    second: int,
    x: Seq<bool>,
    y: Seq<bool>,
)
    requires
        p_header(frame_num, ordered, lsb, active_minus1, false, first) + x == p_header(
            frame_num,
            ordered,
            lsb,
            active_minus1,
            false,
            second,
        ) + y,
    ensures
        first == second,
{
    let start = ue_bits(0) + ue_bits(0) + ue_bits(0) + bits_of(frame_num as nat, 4) + (
    if ordered {
        bits_of(lsb as nat, 4)
    } else {
        Seq::empty()
    }) + seq![active_minus1 != 0] + (if active_minus1 != 0 {
        ue_bits(active_minus1 as nat)
    } else {
        Seq::empty()
    }) + seq![false, false];
    assert(p_header(frame_num, ordered, lsb, active_minus1, false, first) + x =~= start + (se_bits(
        first - 26,
    ) + (ue_bits(1) + x)));
    assert(p_header(frame_num, ordered, lsb, active_minus1, false, second) + y =~= start + (se_bits(
        second - 26,
    ) + (ue_bits(1) + y)));
    lemma_same_start(
        start,
        se_bits(first - 26) + (ue_bits(1) + x),
        start,
        se_bits(second - 26) + (ue_bits(1) + y),
    );
    law_signed_told(first - 26, second - 26, ue_bits(1) + x, ue_bits(1) + y);
}

/// The unit of a picture that is predicted from earlier ones and written with variable-length
/// codes tells all its coded samples and its motion: what two frames and quantizers lead to is the
/// same wherever the units and the earlier pictures are.
pub proof fn law_unit_tells_predicted_picture(
    configuration: Configuration,
    first_qp: i32,
    second_qp: i32,
    first: FrameModel,
    second: FrameModel,
    references: Seq<ReferencePicture>,
    frame_num: int,
    pic_order_cnt_lsb: int,
)
    requires
        configuration.macroblocks_wide > 0,
        configuration.macroblocks_high > 0,
        1 <= references.len() <= 256,
        quantizer(first_qp as int),
        quantizer(second_qp as int),
        cavlc_p_picture(
            Configuration { qp: first_qp, ..configuration },
            first,
            references,
            frame_num,
            pic_order_cnt_lsb,
        ).nal == cavlc_p_picture(
            Configuration { qp: second_qp, ..configuration },
            second,
            references,
            frame_num,
            pic_order_cnt_lsb,
        ).nal,
    ensures
        ({
            let a = cavlc_p_picture(
                Configuration { qp: first_qp, ..configuration },
                first,
                references,
                frame_num,
                pic_order_cnt_lsb,
            );
            let b = cavlc_p_picture(
                Configuration { qp: second_qp, ..configuration },
                second,
                references,
                frame_num,
                pic_order_cnt_lsb,
            );
            &&& a.coded_reconstruction == b.coded_reconstruction
            &&& a.motion_l0 == b.motion_l0
            &&& a.reference_l0_poc == b.reference_l0_poc
        }),
        first_qp == second_qp,
{
    reveal(cavlc_p_picture);
    reveal(p_start);
    let a = Configuration { qp: first_qp, ..configuration };
    let b = Configuration { qp: second_qp, ..configuration };
    let wide = configuration.macroblocks_wide as int;
    let high = configuration.macroblocks_high as int;
    let strength = configuration.aq_strength as int;
    let source = padded_samples(first, wide, high);
    let other = padded_samples(second, wide, high);
    let qps = adaptive_qps(source.luma, wide, high, first_qp as int, strength);
    let other_qps = adaptive_qps(other.luma, wide, high, second_qp as int, strength);
    lemma_quantizers(source.luma, wide, high, first_qp as int, strength);
    lemma_quantizers(other.luma, wide, high, second_qp as int, strength);
    let ordered = configuration.pic_order_cnt_type0;
    let active = references.len() - 1;
    let header = p_header(
        frame_num,
        ordered,
        pic_order_cnt_lsb,
        active,
        false,
        first_qp as int,
    );
    let other_header = p_header(
        frame_num,
        ordered,
        pic_order_cnt_lsb,
        active,
        false,
        second_qp as int,
    );
    let start = p_start(header, references[0].planes, wide, high, first_qp as int);
    let other_start = p_start(other_header, references[0].planes, wide, high, second_qp as int);
    let count = wide * high;
    let u = picture_bits(a, references, source, qps, start, count);
    let v = picture_bits(b, references, other, other_qps, other_start, count);
    law_unescape_nal(0x41, packed(finished(u)));
    law_unescape_nal(0x41, packed(finished(v)));
    let c = seq![0x41u8] + packed(finished(u));
    let d = seq![0x41u8] + packed(finished(v));
    assert(c.skip(1) =~= packed(finished(u)));
    assert(d.skip(1) =~= packed(finished(v)));
    lemma_payload_told(u, v);
    assert(0 <= count) by (nonlinear_arith)
        requires
            count == wide * high,
            0 < wide,
            0 < high,
    ;
    let rest = lemma_bits_start(a, references, source, qps, start, 0, count);
    let other_rest = lemma_bits_start(b, references, other, other_qps, other_start, 0, count);
    lemma_header_told(
        frame_num,
        ordered,
        pic_order_cnt_lsb,
        active,
        first_qp as int,
        second_qp as int,
        rest,
        other_rest,
    );
    lemma_macroblocks_told(
        a,
        references,
        source,
        qps,
        other,
        other_qps,
        start,
        count,
        count,
    );
}

} // verus!
