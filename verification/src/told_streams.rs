//! What the packets of an encoder tell that predicts macroblocks.

use vstd::prelude::*;

use crate::b_picture::{cavlc_b_picture, Surroundings};
use crate::cabac_b::cabac_b_picture;
use crate::cabac_intra::cabac_predicted_idr;
use crate::cabac_p::cabac_p_picture;
use crate::config::{Configuration, EncoderMode, EntropyCoding};
use crate::encoder::{
    display_order, display_order_lsb, packet_data, EncoderModel, PendingModel,
};
use crate::frame::{visible, FrameModel, FrameTiming};
use crate::idr::{cavlc_idr, EncodedModel};
use crate::p_picture::cavlc_p_picture;
use crate::p_select::ReferencePicture;
use crate::picture::Samples;
use crate::pictures::{coded_b, coded_idr, coded_p};
use crate::quantize::quantizer;
use crate::settings::Setup;
use crate::told_b_pictures::law_unit_tells_picture_between;
use crate::told_cabac::law_arithmetic_unit_tells_picture;
use crate::told_cabac_b::law_arithmetic_unit_tells_picture_between;
use crate::told_cabac_p::law_arithmetic_unit_tells_predicted_picture;
use crate::told_pictures::law_unit_tells_picture;
use crate::told_predicted::law_unit_tells_predicted_picture;

verus! {

/// Whether two frames differ in nothing but their samples.
pub open spec fn framed_alike(first: FrameModel, second: FrameModel) -> bool {
    second == (FrameModel { planes: second.planes, ..first })
}

/// Whether two waiting frames differ in nothing but their samples.
pub open spec fn waits_alike(first: PendingModel, second: PendingModel) -> bool {
    &&& framed_alike(first.frame, second.frame)
    &&& first.pic_order_cnt_lsb == second.pic_order_cnt_lsb
    &&& first.picture_order_count == second.picture_order_count
}

/// Whether two encoders predict macroblocks in the same way, and differ in nothing but the samples
/// of the frames that wait: they have the same packets, show the same pictures, and refer to the
/// same ones.
pub open spec fn told_alike(
    first: EncoderModel,
    second: EncoderModel,
    configuration: Configuration,
) -> bool {
    &&& second == (EncoderModel { pending: second.pending, ..first })
    &&& first.pending.len() == second.pending.len()
    &&& forall|i: int|
        0 <= i < first.pending.len() ==> waits_alike(
            #[trigger] first.pending[i],
            second.pending[i],
        )
    &&& first.configuration == Some(configuration)
    &&& configuration.valid()
    &&& first.tables.valid()
    &&& configuration.mode != EncoderMode::Ipcm
    &&& first.references.len() <= 4
    &&& first.pending.len() > 0 ==> first.references.len() > 0
    &&& first.rate_control matches Some(control) ==> quantizer(control.current_qp as int)
}

/// Frames that differ in nothing but their samples show the same for the same coded samples.
proof fn lemma_shown_alike(first: FrameModel, second: FrameModel, planes: Samples, wide: int)
    requires
        framed_alike(first, second),
    ensures
        visible(first, planes, wide) == visible(second, planes, wide),
{
    reveal(visible);
}

/// What is encoded of a picture that stands alone is told by its unit.
proof fn lemma_idr_encoded(
    before: EncoderModel,
    configuration: Configuration,
    first: FrameModel,
    second: FrameModel,
)
    requires
        told_alike(before, before, configuration),
        framed_alike(first, second),
        coded_idr(before.tables, before.picture(configuration), first, 0).nal == coded_idr(
            before.tables,
            before.picture(configuration),
            second,
            0,
        ).nal,
    ensures
        coded_idr(before.tables, before.picture(configuration), first, 0) == coded_idr(
            before.tables,
            before.picture(configuration),
            second,
            0,
        ),
{
    let picture = before.picture(configuration);
    assert(picture == (Configuration { qp: picture.qp, ..configuration }));
    if configuration.entropy_coding == EntropyCoding::Cavlc {
        law_unit_tells_picture(configuration, picture.qp, picture.qp, first, second, 0);
    } else {
        law_arithmetic_unit_tells_picture(
            before.tables.intra,
            configuration,
            picture.qp,
            picture.qp,
            first,
            second,
            0,
        );
    }
    let a = coded_idr(before.tables, picture, first, 0);
    let b = coded_idr(before.tables, picture, second, 0);
    lemma_shown_alike(
        first,
        second,
        a.coded_reconstruction,
        configuration.macroblocks_wide as int,
    );
    reveal(cavlc_idr);
    reveal(cabac_predicted_idr);
    assert(a.reconstructed == b.reconstructed);
    assert(a =~= b);
}

/// What is encoded of a picture that is predicted from earlier ones is told by its unit.
proof fn lemma_p_encoded(
    before: EncoderModel,
    configuration: Configuration,
    first: FrameModel,
    second: FrameModel,
    lsb: int,
)
    requires
        told_alike(before, before, configuration),
        before.references.len() > 0,
        framed_alike(first, second),
        coded_p(
            before.tables,
            before.picture(configuration),
            first,
            before.references,
            before.next_frame_num,
            lsb,
        ).nal == coded_p(
            before.tables,
            before.picture(configuration),
            second,
            before.references,
            before.next_frame_num,
            lsb,
        ).nal,
    ensures
        coded_p(
            before.tables,
            before.picture(configuration),
            first,
            before.references,
            before.next_frame_num,
            lsb,
        ) == coded_p(
            before.tables,
            before.picture(configuration),
            second,
            before.references,
            before.next_frame_num,
            lsb,
        ),
{
    let picture = before.picture(configuration);
    assert(picture == (Configuration { qp: picture.qp, ..configuration }));
    let references = before.references;
    let number = before.next_frame_num;
    if configuration.entropy_coding == EntropyCoding::Cavlc {
        law_unit_tells_predicted_picture(
            configuration,
            picture.qp,
            picture.qp,
            first,
            second,
            references,
            number,
            lsb,
        );
    } else {
        law_arithmetic_unit_tells_predicted_picture(
            before.tables.predicted,
            configuration,
            picture.qp,
            picture.qp,
            first,
            second,
            references,
            number,
            lsb,
        );
    }
    let a = coded_p(before.tables, picture, first, references, number, lsb);
    let b = coded_p(before.tables, picture, second, references, number, lsb);
    lemma_shown_alike(
        first,
        second,
        a.coded_reconstruction,
        configuration.macroblocks_wide as int,
    );
    reveal(cavlc_p_picture);
    reveal(cabac_p_picture);
    assert(a.reconstructed == b.reconstructed);
    assert(a =~= b);
}

/// What is encoded of a picture that is predicted from both sides is told by its unit.
proof fn lemma_b_encoded(
    before: EncoderModel,
    configuration: Configuration,
    first: FrameModel,
    second: FrameModel,
    around: Surroundings,
    lsb: int,
)
    requires
        told_alike(before, before, configuration),
        framed_alike(first, second),
        coded_b(
            before.tables,
            before.picture(configuration),
            first,
            around,
            before.next_frame_num,
            lsb,
        ).nal == coded_b(
            before.tables,
            before.picture(configuration),
            second,
            around,
            before.next_frame_num,
            lsb,
        ).nal,
    ensures
        coded_b(
            before.tables,
            before.picture(configuration),
            first,
            around,
            before.next_frame_num,
            lsb,
        ) == coded_b(
            before.tables,
            before.picture(configuration),
            second,
            around,
            before.next_frame_num,
            lsb,
        ),
{
    let picture = before.picture(configuration);
    assert(picture == (Configuration { qp: picture.qp, ..configuration }));
    let number = before.next_frame_num;
    if configuration.entropy_coding == EntropyCoding::Cavlc {
        law_unit_tells_picture_between(
            configuration,
            picture.qp,
            picture.qp,
            first,
            second,
            around,
            number,
            lsb,
        );
    } else {
        law_arithmetic_unit_tells_picture_between(
            before.tables.between,
            configuration,
            picture.qp,
            picture.qp,
            first,
            second,
            around,
            number,
            lsb,
        );
    }
    let a = coded_b(before.tables, picture, first, around, number, lsb);
    let b = coded_b(before.tables, picture, second, around, number, lsb);
    lemma_shown_alike(
        first,
        second,
        a.coded_reconstruction,
        configuration.macroblocks_wide as int,
    );
    reveal(cavlc_b_picture);
    reveal(cabac_b_picture);
    assert(a.reconstructed == b.reconstructed);
    assert(a =~= b);
}

/// One more packet stands behind those before it.
proof fn lemma_queued_packet(
    before: EncoderModel,
    encoded: EncodedModel,
    timing: FrameTiming,
    key: bool,
    retain: bool,
    order: int,
    most: int,
)
    ensures
        ({
            let step = before.queued(encoded, timing, key, retain, order, most);
            step.fault is None ==> {
                &&& step.state.packets.len() == before.packets.len() + 1
                &&& step.state.packets.drop_last() == before.packets
                &&& step.state.packets.last().key == key
                &&& step.state.packets.last().data == packet_data(
                    before.announced(key, order, timing).0->Ok_0,
                    encoded.nal,
                )
                &&& step.state.pending == before.pending
                &&& step.state.configuration == before.configuration
                &&& retain && most >= 1 ==> step.state.references.len() > 0
                &&& !retain ==> step.state.references == before.references
            }
        }),
{
    reveal(EncoderModel::queued);
    let step = before.queued(encoded, timing, key, retain, order, most);
    if step.fault is None {
        assert(step.state.packets.drop_last() =~= before.packets);
    }
}

/// The unit of a picture is told by the data of its packet, where what precedes it is known.
proof fn lemma_unit_told(sei: Option<Seq<u8>>, first: Seq<u8>, second: Seq<u8>)
    requires
        packet_data(sei, first) == packet_data(sei, second),
    ensures
        first == second,
{
    let start = match sei {
        Some(unit) => crate::framing::length_field(unit.len()) + unit,
        None => Seq::empty(),
    };
    let at = start.len() as int + 4;
    assert(packet_data(sei, first).skip(at) =~= first);
    assert(packet_data(sei, second).skip(at) =~= second);
}

/// Encoders that are alike stay so where their pictures are.
proof fn lemma_queued_alike(
    first: EncoderModel,
    second: EncoderModel,
    configuration: Configuration,
    encoded: EncodedModel,
    timing: FrameTiming,
    key: bool,
    retain: bool,
    order: int,
)
    requires
        told_alike(first, second, configuration),
    ensures
        ({
            let most = configuration.max_references as int;
            let a = first.queued(encoded, timing, key, retain, order, most);
            let b = second.queued(encoded, timing, key, retain, order, most);
            a.fault is None && b.fault is None ==> told_alike(a.state, b.state, configuration)
        }),
{
    reveal(EncoderModel::queued);
    let most = configuration.max_references as int;
    let a = first.queued(encoded, timing, key, retain, order, most);
    let b = second.queued(encoded, timing, key, retain, order, most);
    if a.fault is None && b.fault is None {
        assert(b.state =~= EncoderModel { pending: b.state.pending, ..a.state });
    }
}

/// The units of two encoders that are alike are the same where their packets are.
proof fn lemma_packets_told(
    first: EncoderModel,
    second: EncoderModel,
    configuration: Configuration,
    encoded: EncodedModel,
    other: EncodedModel,
    timing: FrameTiming,
    key: bool,
    retain: bool,
    order: int,
    most: int,
)
    requires
        told_alike(first, second, configuration),
        first.queued(encoded, timing, key, retain, order, most).fault is None,
        second.queued(other, timing, key, retain, order, most).fault is None,
        first.queued(encoded, timing, key, retain, order, most).state.packets == second.queued(
            other,
            timing,
            key,
            retain,
            order,
            most,
        ).state.packets,
    ensures
        encoded.nal == other.nal,
{
    lemma_queued_packet(first, encoded, timing, key, retain, order, most);
    lemma_queued_packet(second, other, timing, key, retain, order, most);
    assert(first.announced(key, order, timing) == second.announced(key, order, timing));
    lemma_unit_told(first.announced(key, order, timing).0->Ok_0, encoded.nal, other.nal);
}

proof fn lemma_alike_itself(
    first: EncoderModel,
    second: EncoderModel,
    configuration: Configuration,
)
    requires
        told_alike(first, second, configuration),
    ensures
        told_alike(first, first, configuration),
{
}

/// A picture that stands alone and starts a group is told by its packet.
proof fn lemma_idr_told(
    first: EncoderModel,
    second: EncoderModel,
    configuration: Configuration,
    frame: FrameModel,
    other: FrameModel,
)
    requires
        told_alike(first, second, configuration),
        framed_alike(frame, other),
        first.sent_idr(configuration, frame).fault is None,
        second.sent_idr(configuration, other).fault is None,
        first.sent_idr(configuration, frame).state.packets == second.sent_idr(
            configuration,
            other,
        ).state.packets,
    ensures
        told_alike(
            first.sent_idr(configuration, frame).state,
            second.sent_idr(configuration, other).state,
            configuration,
        ),
{
    let picture = first.picture(configuration);
    let a = coded_idr(first.tables, picture, frame, 0);
    let b = coded_idr(first.tables, picture, other, 0);
    let most = configuration.max_references as int;
    assert(second.picture(configuration) == picture);
    lemma_packets_told(
        first,
        second,
        configuration,
        a,
        b,
        frame.timing,
        true,
        true,
        0,
        most,
    );
    lemma_alike_itself(first, second, configuration);
    lemma_idr_encoded(first, configuration, frame, other);
    lemma_queued_alike(first, second, configuration, a, frame.timing, true, true, 0);
}

/// A picture that is predicted from earlier ones is told by its packet.
proof fn lemma_p_told(
    first: EncoderModel,
    second: EncoderModel,
    configuration: Configuration,
    frame: FrameModel,
    other: FrameModel,
    lsb: int,
    order: int,
)
    requires
        told_alike(first, second, configuration),
        first.references.len() > 0,
        framed_alike(frame, other),
        first.sent_p(configuration, frame, lsb, order).fault is None,
        second.sent_p(configuration, other, lsb, order).fault is None,
        first.sent_p(configuration, frame, lsb, order).state.packets == second.sent_p(
            configuration,
            other,
            lsb,
            order,
        ).state.packets,
    ensures
        told_alike(
            first.sent_p(configuration, frame, lsb, order).state,
            second.sent_p(configuration, other, lsb, order).state,
            configuration,
        ),
{
    let picture = first.picture(configuration);
    let number = first.next_frame_num;
    let a = coded_p(first.tables, picture, frame, first.references, number, lsb);
    let b = coded_p(first.tables, picture, other, first.references, number, lsb);
    let most = configuration.max_references as int;
    assert(second.picture(configuration) == picture);
    lemma_packets_told(
        first,
        second,
        configuration,
        a,
        b,
        frame.timing,
        false,
        true,
        order,
        most,
    );
    lemma_alike_itself(first, second, configuration);
    lemma_p_encoded(first, configuration, frame, other, lsb);
    lemma_queued_alike(first, second, configuration, a, frame.timing, false, true, order);
}

/// The packet of a picture that is predicted from earlier ones.
proof fn lemma_p_packet(
    before: EncoderModel,
    configuration: Configuration,
    frame: FrameModel,
    lsb: int,
    order: int,
)
    requires
        configuration.valid(),
    ensures
        ({
            let step = before.sent_p(configuration, frame, lsb, order);
            step.fault is None ==> {
                &&& step.state.packets.len() == before.packets.len() + 1
                &&& step.state.packets.take(before.packets.len() as int) == before.packets
                &&& !step.state.packets.last().key
                &&& step.state.pending == before.pending
                &&& step.state.references.len() > 0
            }
        }),
{
    let encoded = coded_p(
        before.tables,
        before.picture(configuration),
        frame,
        before.references,
        before.next_frame_num,
        lsb,
    );
    lemma_queued_packet(
        before,
        encoded,
        frame.timing,
        false,
        true,
        order,
        configuration.max_references as int,
    );
    let step = before.sent_p(configuration, frame, lsb, order);
    if step.fault is None {
        assert(step.state.packets.take(before.packets.len() as int)
            =~= step.state.packets.drop_last());
    }
}

/// The packets of waiting frames that become pictures that are predicted from earlier ones.
proof fn lemma_drained_packets(before: EncoderModel, configuration: Configuration, count: int)
    requires
        0 <= count <= before.pending.len(),
        configuration.valid(),
    ensures
        ({
            let step = before.drained(configuration, count);
            step.fault is None ==> {
                &&& step.state.packets.len() == before.packets.len() + count
                &&& step.state.packets.take(before.packets.len() as int) == before.packets
            }
        }),
    decreases count,
{
    if count > 0 {
        let first = before.pending[0];
        let rest = before.without_first();
        lemma_p_packet(
            rest,
            configuration,
            first.frame,
            first.pic_order_cnt_lsb,
            first.picture_order_count,
        );
        let step = rest.sent_p(
            configuration,
            first.frame,
            first.pic_order_cnt_lsb,
            first.picture_order_count,
        );
        if step.fault is None {
            lemma_drained_packets(step.state, configuration, count - 1);
            let end = step.state.drained(configuration, count - 1);
            if end.fault is None {
                let at = before.packets.len() as int;
                assert(end.state.packets.take(at) =~= end.state.packets.take(at + 1).take(at));
            }
        }
    } else {
        assert(before.packets.take(before.packets.len() as int) =~= before.packets);
    }
}

/// The packets of waiting frames that become pictures that are predicted from both sides.
proof fn lemma_filled_packets(
    before: EncoderModel,
    configuration: Configuration,
    previous: ReferencePicture,
    future: ReferencePicture,
    count: int,
)
    requires
        0 <= count <= before.pending.len(),
    ensures
        ({
            let step = before.filled_in(configuration, previous, future, count);
            step.fault is None ==> {
                &&& step.state.packets.len() == before.packets.len() + count
                &&& step.state.packets.take(before.packets.len() as int) == before.packets
                &&& count > 0 ==> !step.state.packets.last().key
            }
        }),
    decreases count,
{
    if count > 0 {
        let first = before.pending[0];
        let rest = before.without_first();
        lemma_b_packet(rest, configuration, first, previous, future);
        let step = rest.sent_b(configuration, first, previous, future);
        if step.fault is None {
            lemma_filled_packets(step.state, configuration, previous, future, count - 1);
            let end = step.state.filled_in(configuration, previous, future, count - 1);
            if end.fault is None {
                let at = before.packets.len() as int;
                assert(end.state.packets.take(at) =~= end.state.packets.take(at + 1).take(at));
            }
        }
    } else {
        assert(before.packets.take(before.packets.len() as int) =~= before.packets);
    }
}

/// The packet of a picture that is predicted from both sides.
proof fn lemma_b_packet(
    before: EncoderModel,
    configuration: Configuration,
    waiting: PendingModel,
    previous: ReferencePicture,
    future: ReferencePicture,
)
    ensures
        ({
            let step = before.sent_b(configuration, waiting, previous, future);
            step.fault is None ==> {
                &&& step.state.packets.len() == before.packets.len() + 1
                &&& step.state.packets.take(before.packets.len() as int) == before.packets
                &&& !step.state.packets.last().key
                &&& step.state.pending == before.pending
                &&& step.state.references == before.references
            }
        }),
{
    let encoded = coded_b(
        before.tables,
        before.picture(configuration),
        waiting.frame,
        Surroundings { previous, future, picture_order_count: waiting.picture_order_count },
        before.next_frame_num,
        waiting.pic_order_cnt_lsb,
    );
    lemma_queued_packet(
        before,
        encoded,
        waiting.frame.timing,
        false,
        false,
        waiting.picture_order_count,
        configuration.max_references as int,
    );
    let step = before.sent_b(configuration, waiting, previous, future);
    if step.fault is None {
        assert(step.state.packets.take(before.packets.len() as int)
            =~= step.state.packets.drop_last());
    }
}

/// The first of the waiting frames leaves.
proof fn lemma_first_leaves(
    first: EncoderModel,
    second: EncoderModel,
    configuration: Configuration,
)
    requires
        told_alike(first, second, configuration),
        first.pending.len() > 0,
    ensures
        told_alike(first.without_first(), second.without_first(), configuration),
        waits_alike(first.pending[0], second.pending[0]),
{
    let a = first.without_first();
    let b = second.without_first();
    assert forall|i: int| 0 <= i < a.pending.len() implies waits_alike(
        #[trigger] a.pending[i],
        b.pending[i],
    ) by {
        assert(waits_alike(first.pending[i + 1], second.pending[i + 1]));
    }
    assert(b =~= EncoderModel { pending: b.pending, ..a });
}

/// Waiting frames that become pictures that are predicted from earlier ones are told by their
/// packets.
proof fn lemma_drained_told(
    first: EncoderModel,
    second: EncoderModel,
    configuration: Configuration,
    count: int,
)
    requires
        0 <= count <= first.pending.len(),
        told_alike(first, second, configuration),
        first.drained(configuration, count).fault is None,
        second.drained(configuration, count).fault is None,
        first.drained(configuration, count).state.packets == second.drained(
            configuration,
            count,
        ).state.packets,
    ensures
        told_alike(
            first.drained(configuration, count).state,
            second.drained(configuration, count).state,
            configuration,
        ),
    decreases count,
{
    if count > 0 {
        lemma_first_leaves(first, second, configuration);
        let a = first.without_first();
        let b = second.without_first();
        let p = first.pending[0];
        let q = second.pending[0];
        let lsb = p.pic_order_cnt_lsb;
        let order = p.picture_order_count;
        lemma_p_packet(a, configuration, p.frame, lsb, order);
        lemma_p_packet(b, configuration, q.frame, lsb, order);
        let c = a.sent_p(configuration, p.frame, lsb, order);
        let d = b.sent_p(configuration, q.frame, lsb, order);
        lemma_drained_packets(c.state, configuration, count - 1);
        lemma_drained_packets(d.state, configuration, count - 1);
        assert(c.state.packets == d.state.packets);
        lemma_p_told(a, b, configuration, p.frame, q.frame, lsb, order);
        lemma_drained_told(c.state, d.state, configuration, count - 1);
    }
}

/// Waiting frames that become pictures that are predicted from both sides are told by their
/// packets.
proof fn lemma_filled_told(
    first: EncoderModel,
    second: EncoderModel,
    configuration: Configuration,
    previous: ReferencePicture,
    future: ReferencePicture,
    count: int,
)
    requires
        0 <= count <= first.pending.len(),
        told_alike(first, second, configuration),
        first.filled_in(configuration, previous, future, count).fault is None,
        second.filled_in(configuration, previous, future, count).fault is None,
        first.filled_in(configuration, previous, future, count).state.packets == second.filled_in(
            configuration,
            previous,
            future,
            count,
        ).state.packets,
    ensures
        told_alike(
            first.filled_in(configuration, previous, future, count).state,
            second.filled_in(configuration, previous, future, count).state,
            configuration,
        ),
    decreases count,
{
    if count > 0 {
        lemma_first_leaves(first, second, configuration);
        let a = first.without_first();
        let b = second.without_first();
        let p = first.pending[0];
        let q = second.pending[0];
        let around = Surroundings {
            previous,
            future,
            picture_order_count: p.picture_order_count,
        };
        lemma_b_packet(a, configuration, p, previous, future);
        lemma_b_packet(b, configuration, q, previous, future);
        let c = a.sent_b(configuration, p, previous, future);
        let d = b.sent_b(configuration, q, previous, future);
        lemma_filled_packets(c.state, configuration, previous, future, count - 1);
        lemma_filled_packets(d.state, configuration, previous, future, count - 1);
        assert(c.state.packets == d.state.packets);
        let picture = a.picture(configuration);
        assert(b.picture(configuration) == picture);
        let number = a.next_frame_num;
        let lsb = p.pic_order_cnt_lsb;
        let u = coded_b(a.tables, picture, p.frame, around, number, lsb);
        let v = coded_b(a.tables, picture, q.frame, around, number, lsb);
        lemma_packets_told(
            a,
            b,
            configuration,
            u,
            v,
            p.frame.timing,
            false,
            false,
            p.picture_order_count,
            configuration.max_references as int,
        );
        lemma_alike_itself(a, b, configuration);
        lemma_b_encoded(a, configuration, p.frame, q.frame, around, lsb);
        lemma_queued_alike(
            a,
            b,
            configuration,
            u,
            p.frame.timing,
            false,
            false,
            p.picture_order_count,
        );
        lemma_filled_told(c.state, d.state, configuration, previous, future, count - 1);
    }
}

/// A frame that others have waited for, and those that have waited for it, are told by their
/// packets.
proof fn lemma_anchor_told(
    first: EncoderModel,
    second: EncoderModel,
    configuration: Configuration,
    frame: FrameModel,
    other: FrameModel,
)
    requires
        told_alike(first, second, configuration),
        first.references.len() > 0,
        framed_alike(frame, other),
        first.sent_anchor(configuration, frame).fault is None,
        second.sent_anchor(configuration, other).fault is None,
        first.sent_anchor(configuration, frame).state.packets == second.sent_anchor(
            configuration,
            other,
        ).state.packets,
    ensures
        told_alike(
            first.sent_anchor(configuration, frame).state,
            second.sent_anchor(configuration, other).state,
            configuration,
        ),
{
    let lsb = display_order_lsb(first.frames_since_idr);
    let order = display_order(first.frames_since_idr);
    lemma_p_packet(first, configuration, frame, lsb, order);
    lemma_p_packet(second, configuration, other, lsb, order);
    let a = first.sent_p(configuration, frame, lsb, order).state;
    let b = second.sent_p(configuration, other, lsb, order).state;
    let count = a.pending.len() as int;
    let previous = first.references[0];
    lemma_filled_packets(a, configuration, previous, a.references[0], count);
    lemma_filled_packets(b, configuration, previous, b.references[0], count);
    assert(a.packets == b.packets);
    lemma_p_told(first, second, configuration, frame, other, lsb, order);
    lemma_filled_told(a, b, configuration, previous, a.references[0], count);
}

/// The last packet of a frame that others have waited for, and those that have waited for it, does
/// not hold a picture that stands alone.
proof fn lemma_anchor_packet(before: EncoderModel, configuration: Configuration, frame: FrameModel)
    requires
        configuration.valid(),
    ensures
        ({
            let step = before.sent_anchor(configuration, frame);
            step.fault is None ==> !step.state.packets.last().key
        }),
{
    let lsb = display_order_lsb(before.frames_since_idr);
    let order = display_order(before.frames_since_idr);
    lemma_p_packet(before, configuration, frame, lsb, order);
    let step = before.sent_p(configuration, frame, lsb, order);
    if step.fault is None {
        lemma_filled_packets(
            step.state,
            configuration,
            before.references[0],
            step.state.references[0],
            step.state.pending.len() as int,
        );
    }
}

/// The last packet of a frame that starts a group holds a picture that stands alone.
proof fn lemma_idr_packet(before: EncoderModel, configuration: Configuration, frame: FrameModel)
    ensures
        ({
            let step = before.sent_idr(configuration, frame);
            step.fault is None ==> {
                &&& step.state.packets.len() == before.packets.len() + 1
                &&& step.state.packets.drop_last() == before.packets
                &&& step.state.packets.last().key
            }
        }),
{
    lemma_queued_packet(
        before,
        coded_idr(before.tables, before.picture(configuration), frame, 0),
        frame.timing,
        true,
        true,
        0,
        configuration.max_references as int,
    );
}

/// The packets of a frame that starts a group, where frames may wait.
proof fn lemma_group_packets(before: EncoderModel, configuration: Configuration, frame: FrameModel)
    requires
        configuration.valid(),
    ensures
        ({
            let step = before.sent_reordered(configuration, frame, true);
            step.fault is None ==> {
                &&& step.state.packets.len() > before.packets.len()
                &&& step.state.packets.last().key
            }
        }),
{
    let count = before.pending.len() as int;
    lemma_drained_packets(before, configuration, count);
    let drained = before.drained(configuration, count);
    if drained.fault is None {
        lemma_idr_packet(drained.state, configuration, frame);
    }
}

/// A frame is told by its packets, where frames may wait for later ones.
proof fn lemma_reordered_told(
    first: EncoderModel,
    second: EncoderModel,
    configuration: Configuration,
    frame: FrameModel,
    other: FrameModel,
    key: bool,
    other_key: bool,
)
    requires
        told_alike(first, second, configuration),
        !key ==> first.references.len() > 0,
        framed_alike(frame, other),
        first.sent_reordered(configuration, frame, key).fault is None,
        second.sent_reordered(configuration, other, other_key).fault is None,
        first.sent_reordered(configuration, frame, key).state.packets == second.sent_reordered(
            configuration,
            other,
            other_key,
        ).state.packets,
    ensures
        told_alike(
            first.sent_reordered(configuration, frame, key).state,
            second.sent_reordered(configuration, other, other_key).state,
            configuration,
        ),
{
    lemma_group_packets(first, configuration, frame);
    lemma_group_packets(second, configuration, other);
    lemma_anchor_packet(first, configuration, frame);
    lemma_anchor_packet(second, configuration, other);
    assert(key == other_key);
    if key {
        let count = first.pending.len() as int;
        let a = first.drained(configuration, count).state;
        let b = second.drained(configuration, count).state;
        lemma_idr_packet(a, configuration, frame);
        lemma_idr_packet(b, configuration, other);
        assert(a.packets == b.packets);
        lemma_drained_told(first, second, configuration, count);
        lemma_idr_told(a, b, configuration, frame, other);
    } else if first.pending.len() < configuration.b_frames {
        let a = first.put_back(frame);
        let b = second.put_back(other);
        assert forall|i: int| 0 <= i < a.pending.len() implies waits_alike(
            #[trigger] a.pending[i],
            b.pending[i],
        ) by {
            if i < first.pending.len() {
                assert(waits_alike(first.pending[i], second.pending[i]));
            }
        }
        assert(b =~= EncoderModel { pending: b.pending, ..a });
    } else {
        lemma_anchor_told(first, second, configuration, frame, other);
    }
}

/// A frame is told by its packets, where each is encoded at once.
proof fn lemma_at_once_told(
    first: EncoderModel,
    second: EncoderModel,
    configuration: Configuration,
    frame: FrameModel,
    other: FrameModel,
    key: bool,
    other_key: bool,
)
    requires
        told_alike(first, second, configuration),
        !key ==> first.references.len() > 0,
        framed_alike(frame, other),
        first.sent_at_once(configuration, frame, key).fault is None,
        second.sent_at_once(configuration, other, other_key).fault is None,
        first.sent_at_once(configuration, frame, key).state.packets == second.sent_at_once(
            configuration,
            other,
            other_key,
        ).state.packets,
    ensures
        told_alike(
            first.sent_at_once(configuration, frame, key).state,
            second.sent_at_once(configuration, other, other_key).state,
            configuration,
        ),
{
    let order = display_order(first.frames_since_idr);
    lemma_idr_packet(first, configuration, frame);
    lemma_idr_packet(second, configuration, other);
    lemma_p_packet(first, configuration, frame, 0, order);
    lemma_p_packet(second, configuration, other, 0, order);
    assert(key == other_key);
    if key {
        lemma_idr_told(first, second, configuration, frame, other);
    } else {
        lemma_p_told(first, second, configuration, frame, other, 0, order);
    }
}

/// An encoder that has just been configured is like itself, where it predicts macroblocks.
pub proof fn law_configured_told(before: EncoderModel, setup: Setup)
    requires
        setup.configuration.valid(),
        before.tables.valid(),
        setup.configuration.mode != EncoderMode::Ipcm,
        setup.rate_control matches Some(control) ==> control.valid(),
    ensures
        told_alike(
            EncoderModel::configured(before.tables, setup),
            EncoderModel::configured(before.tables, setup),
            setup.configuration,
        ),
{
}

/// Packets tell what is shown: where two encoders are alike and are sent frames that differ in
/// nothing but their samples, they stay alike, with the same pictures to show and to refer to, if
/// their packets are the same.
pub proof fn law_packets_tell(
    first: EncoderModel,
    second: EncoderModel,
    configuration: Configuration,
    frame: FrameModel,
    other: FrameModel,
)
    requires
        told_alike(first, second, configuration),
        framed_alike(frame, other),
        first.sent(frame).fault is None,
        second.sent(other).fault is None,
        first.sent(frame).state.packets == second.sent(other).state.packets,
    ensures
        told_alike(first.sent(frame).state, second.sent(other).state, configuration),
        first.sent(frame).state.reconstructions == second.sent(other).state.reconstructions,
{
    let a = EncoderModel {
        decode_timestamps: first.decode_timestamps.push(frame.timing.pts),
        ..first
    };
    let b = EncoderModel {
        decode_timestamps: second.decode_timestamps.push(other.timing.pts),
        ..second
    };
    assert(b =~= EncoderModel { pending: b.pending, ..a });
    assert(told_alike(a, b, configuration));
    let key = first.starts_group(configuration, frame);
    let other_key = second.starts_group(configuration, other);
    if configuration.mode != EncoderMode::Inter {
        let picture = a.picture(configuration);
        assert(b.picture(configuration) == picture);
        let c = coded_idr(a.tables, picture, frame, 0);
        let d = coded_idr(a.tables, picture, other, 0);
        lemma_packets_told(a, b, configuration, c, d, frame.timing, true, false, 0, 0);
        lemma_alike_itself(a, b, configuration);
        lemma_idr_encoded(a, configuration, frame, other);
        reveal(EncoderModel::queued);
        assert(second.sent(other).state =~= EncoderModel {
            pending: second.sent(other).state.pending,
            ..first.sent(frame).state
        });
    } else if configuration.b_frames == 0 {
        lemma_at_once_told(a, b, configuration, frame, other, key, other_key);
    } else {
        lemma_reordered_told(a, b, configuration, frame, other, key, other_key);
    }
}

/// Packets tell what is shown at the end, too.
pub proof fn law_last_packets_tell(
    first: EncoderModel,
    second: EncoderModel,
    configuration: Configuration,
)
    requires
        told_alike(first, second, configuration),
        first.ended().fault is None,
        second.ended().fault is None,
        first.ended().state.packets == second.ended().state.packets,
    ensures
        told_alike(first.ended().state, second.ended().state, configuration),
        first.ended().state.reconstructions == second.ended().state.reconstructions,
{
    lemma_drained_told(first, second, configuration, first.pending.len() as int);
}

} // verus!
