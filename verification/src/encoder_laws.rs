//! What holds of the encoder over any number of frames.

use vstd::multiset::Multiset;
use vstd::prelude::*;

use crate::b_picture::{cavlc_b_picture, Surroundings};
use crate::cabac_b::cabac_b_picture;
use crate::cabac_intra::cabac_predicted_idr;
use crate::cabac_p::cabac_p_picture;
use crate::cabac_pcm::cabac_pcm_idr;
use crate::config::Configuration;
use crate::contexts::Tables;
use crate::encoder::{packet_data, EncoderModel, PacketModel, PendingModel};
use crate::error::{Error, Fault};
use crate::frame::{visible, FrameModel, FrameTiming, Timestamp};
use crate::framing::{
    law_sample_round_trip, parts_are, sample_of, sample_unit, NAL_LENGTH_SIZE,
};
use crate::idr::{cavlc_idr, EncodedModel};
use crate::nal::sample_spans;
use crate::p_picture::cavlc_p_picture;
use crate::p_select::ReferencePicture;
use crate::pictures::{coded_b, coded_idr, coded_p};

verus! {

/// When packets are decoded.
pub open spec fn decode_times(packets: Seq<PacketModel>) -> Seq<Option<Timestamp>> {
    Seq::new(packets.len(), |i: int| packets[i].dts)
}

/// When packets are shown.
pub open spec fn packet_times(packets: Seq<PacketModel>) -> Seq<Option<Timestamp>> {
    Seq::new(packets.len(), |i: int| packets[i].pts)
}

/// When waiting frames are shown.
pub open spec fn waiting_times(pending: Seq<PendingModel>) -> Seq<Option<Timestamp>> {
    Seq::new(pending.len(), |i: int| pending[i].frame.timing.pts)
}

/// Whether each packet has its coded picture beside it.
pub open spec fn paired(encoder: EncoderModel) -> bool {
    &&& encoder.packets.len() == encoder.reconstructions.len()
    &&& forall|i: int|
        0 <= i < encoder.packets.len() ==> (#[trigger] encoder.packets[i]).pts
            == encoder.reconstructions[i].timing.pts && encoder.packets[i].duration
            == encoder.reconstructions[i].timing.duration
}

impl EncoderModel {
    /// The times of decoding that are given to packets and that are still to be given.
    pub open spec fn all_decode_times(self) -> Seq<Option<Timestamp>> {
        decode_times(self.packets) + self.decode_timestamps
    }

    /// When everything in the encoder is shown.
    pub open spec fn all_times(self) -> Multiset<Option<Timestamp>> {
        packet_times(self.packets).to_multiset().add(waiting_times(self.pending).to_multiset())
    }

    /// How many frames are in the encoder.
    pub open spec fn frames(self) -> nat {
        self.packets.len() + self.pending.len()
    }
}

/// The encoder after some pictures.
spec fn advanced(before: EncoderModel, after: EncoderModel) -> bool {
    &&& after.configuration == before.configuration
    &&& after.tables == before.tables
    &&& after.flushed == before.flushed
    &&& after.all_decode_times() == before.all_decode_times()
    &&& after.packets.len() >= before.packets.len()
    &&& paired(before) ==> paired(after)
}

proof fn lemma_packet_pushed(packets: Seq<PacketModel>, packet: PacketModel)
    ensures
        packet_times(packets.push(packet)).to_multiset() == packet_times(
            packets,
        ).to_multiset().insert(packet.pts),
        decode_times(packets.push(packet)) == decode_times(packets).push(packet.dts),
{
    broadcast use vstd::seq_lib::group_to_multiset_ensures;

    assert(packet_times(packets.push(packet)) =~= packet_times(packets).push(packet.pts));
    assert(decode_times(packets.push(packet)) =~= decode_times(packets).push(packet.dts));
}

proof fn lemma_first_waiting(pending: Seq<PendingModel>)
    requires
        pending.len() > 0,
    ensures
        waiting_times(pending.skip(1)).to_multiset().insert(pending[0].frame.timing.pts)
            == waiting_times(pending).to_multiset(),
{
    broadcast use vstd::seq_lib::group_to_multiset_ensures;

    let times = waiting_times(pending);
    assert(waiting_times(pending.skip(1)) =~= times.remove(0));
    assert(times.contains(times[0]));
    assert(times.to_multiset().remove(times[0]).insert(times[0]) =~= times.to_multiset());
}

proof fn lemma_waiting_pushed(pending: Seq<PendingModel>, last: PendingModel)
    ensures
        waiting_times(pending.push(last)).to_multiset() == waiting_times(
            pending,
        ).to_multiset().insert(last.frame.timing.pts),
{
    broadcast use vstd::seq_lib::group_to_multiset_ensures;

    assert(waiting_times(pending.push(last)) =~= waiting_times(pending).push(
        last.frame.timing.pts,
    ));
}

/// One more picture.
proof fn lemma_queued(
    before: EncoderModel,
    encoded: EncodedModel,
    timing: FrameTiming,
    key: bool,
    retain: bool,
    order: int,
    most: int,
)
    requires
        encoded.reconstructed.timing == timing,
    ensures
        ({
            let step = before.queued(encoded, timing, key, retain, order, most);
            step.fault is None ==> {
                &&& advanced(before, step.state)
                &&& step.state.all_times() == before.all_times().insert(timing.pts)
                &&& step.state.packets.len() == before.packets.len() + 1
                &&& step.state.packets.last().key == key
                &&& step.state.packets.drop_last() == before.packets
                &&& step.state.pending == before.pending
                &&& step.state.decode_timestamps == before.decode_timestamps.skip(1)
                &&& before.decode_timestamps.len() > 0
            }
        }),
{
    reveal(EncoderModel::queued);
    let step = before.queued(encoded, timing, key, retain, order, most);
    if step.fault is None {
        let packet = step.state.packets.last();
        assert(step.state.packets =~= before.packets.push(packet));
        assert(step.state.packets.drop_last() =~= before.packets);
        lemma_packet_pushed(before.packets, packet);
        assert(step.state.all_decode_times() =~= before.all_decode_times());
        assert(step.state.all_times() =~= before.all_times().insert(timing.pts));
    }
}

/// Coded pictures keep the times of their frames.
proof fn lemma_timing(
    tables: Tables,
    configuration: Configuration,
    frame: FrameModel,
    references: Seq<ReferencePicture>,
    around: Surroundings,
    frame_num: int,
    lsb: int,
)
    ensures
        coded_idr(tables, configuration, frame, lsb).reconstructed.timing == frame.timing,
        coded_p(tables, configuration, frame, references, frame_num, lsb).reconstructed.timing
            == frame.timing,
        coded_b(tables, configuration, frame, around, frame_num, lsb).reconstructed.timing
            == frame.timing,
{
    reveal(visible);
    reveal(cavlc_idr);
    reveal(cabac_pcm_idr);
    reveal(cabac_predicted_idr);
    reveal(cavlc_p_picture);
    reveal(cabac_p_picture);
    reveal(cavlc_b_picture);
    reveal(cabac_b_picture);
}

/// A picture that stands alone.
proof fn lemma_sent_idr(before: EncoderModel, configuration: Configuration, frame: FrameModel)
    ensures
        ({
            let step = before.sent_idr(configuration, frame);
            step.fault is None ==> {
                &&& advanced(before, step.state)
                &&& step.state.all_times() == before.all_times().insert(frame.timing.pts)
                &&& step.state.packets.len() == before.packets.len() + 1
                &&& step.state.packets.last().key
                &&& step.state.pending == before.pending
                &&& step.state.decode_timestamps == before.decode_timestamps.skip(1)
                &&& before.decode_timestamps.len() > 0
            }
        }),
{
    let picture = before.picture(configuration);
    let around = Surroundings {
        previous: before.references[0],
        future: before.references[0],
        picture_order_count: 0,
    };
    lemma_timing(before.tables, picture, frame, before.references, around, 0, 0);
    lemma_queued(
        before,
        coded_idr(before.tables, picture, frame, 0),
        frame.timing,
        true,
        true,
        0,
        configuration.max_references as int,
    );
}

/// A picture that is predicted from earlier ones.
proof fn lemma_sent_p(
    before: EncoderModel,
    configuration: Configuration,
    frame: FrameModel,
    lsb: int,
    order: int,
)
    ensures
        ({
            let step = before.sent_p(configuration, frame, lsb, order);
            step.fault is None ==> {
                &&& advanced(before, step.state)
                &&& step.state.all_times() == before.all_times().insert(frame.timing.pts)
                &&& step.state.packets.len() == before.packets.len() + 1
                &&& !step.state.packets.last().key
                &&& step.state.pending == before.pending
                &&& step.state.decode_timestamps == before.decode_timestamps.skip(1)
                &&& before.decode_timestamps.len() > 0
            }
        }),
{
    let picture = before.picture(configuration);
    let around = Surroundings {
        previous: before.references[0],
        future: before.references[0],
        picture_order_count: 0,
    };
    lemma_timing(
        before.tables,
        picture,
        frame,
        before.references,
        around,
        before.next_frame_num,
        lsb,
    );
    lemma_queued(
        before,
        coded_p(before.tables, picture, frame, before.references, before.next_frame_num, lsb),
        frame.timing,
        false,
        true,
        order,
        configuration.max_references as int,
    );
}

/// The first waiting frame leaves those that wait.
proof fn lemma_without_first(before: EncoderModel)
    requires
        before.pending.len() > 0,
    ensures
        before.without_first().all_times().insert(before.pending[0].frame.timing.pts)
            == before.all_times(),
        before.without_first().frames() + 1 == before.frames(),
{
    lemma_first_waiting(before.pending);
    assert(before.without_first().all_times().insert(before.pending[0].frame.timing.pts)
        =~= before.all_times());
}

/// Waiting frames become pictures that are predicted from earlier ones.
proof fn lemma_drained(before: EncoderModel, configuration: Configuration, count: int)
    requires
        0 <= count <= before.pending.len(),
    ensures
        ({
            let step = before.drained(configuration, count);
            step.fault is None ==> {
                &&& advanced(before, step.state)
                &&& step.state.all_times() == before.all_times()
                &&& step.state.packets.len() == before.packets.len() + count
                &&& step.state.pending == before.pending.skip(count)
                &&& step.state.decode_timestamps == before.decode_timestamps.skip(count)
                &&& before.decode_timestamps.len() >= count
            }
        }),
    decreases count,
{
    if count > 0 {
        let first = before.pending[0];
        let rest = before.without_first();
        lemma_without_first(before);
        lemma_sent_p(
            rest,
            configuration,
            first.frame,
            first.pic_order_cnt_lsb,
            first.picture_order_count,
        );
        let step = rest.sent_p(
            configuration,
            first.frame,
            first.pic_order_cnt_lsb,
            first.picture_order_count,
        );
        if step.fault is None {
            lemma_drained(step.state, configuration, count - 1);
            let end = step.state.drained(configuration, count - 1);
            if end.fault is None {
                assert(before.pending.skip(1).skip(count - 1) =~= before.pending.skip(count));
                assert(before.decode_timestamps.skip(1).skip(count - 1)
                    =~= before.decode_timestamps.skip(count));
            }
        }
    } else {
        assert(before.pending.skip(0) =~= before.pending);
        assert(before.decode_timestamps.skip(0) =~= before.decode_timestamps);
    }
}

/// Waiting frames become pictures that are predicted from both sides.
proof fn lemma_filled_in(
    before: EncoderModel,
    configuration: Configuration,
    previous: ReferencePicture,
    future: ReferencePicture,
    count: int,
)
    requires
        0 <= count <= before.pending.len(),
    ensures
        ({
            let step = before.filled_in(configuration, previous, future, count);
            step.fault is None ==> {
                &&& advanced(before, step.state)
                &&& step.state.all_times() == before.all_times()
                &&& step.state.packets.len() == before.packets.len() + count
                &&& step.state.pending == before.pending.skip(count)
                &&& step.state.decode_timestamps == before.decode_timestamps.skip(count)
                &&& before.decode_timestamps.len() >= count
            }
        }),
    decreases count,
{
    if count > 0 {
        let first = before.pending[0];
        let rest = before.without_first();
        lemma_without_first(before);
        let picture = rest.picture(configuration);
        let around = Surroundings {
            previous,
            future,
            picture_order_count: first.picture_order_count,
        };
        lemma_timing(
            rest.tables,
            picture,
            first.frame,
            rest.references,
            around,
            rest.next_frame_num,
            first.pic_order_cnt_lsb,
        );
        lemma_queued(
            rest,
            coded_b(
                rest.tables,
                picture,
                first.frame,
                around,
                rest.next_frame_num,
                first.pic_order_cnt_lsb,
            ),
            first.frame.timing,
            false,
            false,
            first.picture_order_count,
            configuration.max_references as int,
        );
        let step = rest.sent_b(configuration, first, previous, future);
        if step.fault is None {
            lemma_filled_in(step.state, configuration, previous, future, count - 1);
            let end = step.state.filled_in(configuration, previous, future, count - 1);
            if end.fault is None {
                assert(before.pending.skip(1).skip(count - 1) =~= before.pending.skip(count));
                assert(before.decode_timestamps.skip(1).skip(count - 1)
                    =~= before.decode_timestamps.skip(count));
            }
        }
    } else {
        assert(before.pending.skip(0) =~= before.pending);
        assert(before.decode_timestamps.skip(0) =~= before.decode_timestamps);
    }
}

/// The encoder that knows when one more frame is shown.
spec fn timed(before: EncoderModel, frame: FrameModel) -> EncoderModel {
    EncoderModel {
        decode_timestamps: before.decode_timestamps.push(frame.timing.pts),
        ..before
    }
}

/// The encoder after a frame that was found to be in order.
spec fn taken_well(before: EncoderModel, frame: FrameModel, after: EncoderModel) -> bool {
    &&& advanced(timed(before, frame), after)
    &&& after.all_times() == before.all_times().insert(frame.timing.pts)
    &&& after.frames() == before.frames() + 1
    &&& before.decode_timestamps.len() == before.pending.len() ==> after.decode_timestamps.len()
        == after.pending.len()
}

proof fn lemma_taken(before: EncoderModel, configuration: Configuration, frame: FrameModel)
    requires
        before.taken(configuration, frame).fault is None,
    ensures
        taken_well(before, frame, before.taken(configuration, frame).state),
{
    let start = timed(before, frame);
    let key = before.starts_group(configuration, frame);
    let picture = before.picture(configuration);
    let around = Surroundings {
        previous: before.references[0],
        future: before.references[0],
        picture_order_count: 0,
    };
    lemma_timing(before.tables, picture, frame, before.references, around, 0, 0);
    lemma_queued(
        start,
        coded_idr(before.tables, picture, frame, 0),
        frame.timing,
        true,
        false,
        0,
        0,
    );
    lemma_sent_idr(start, configuration, frame);
    let order = crate::encoder::display_order(start.frames_since_idr);
    let lsb = crate::encoder::display_order_lsb(start.frames_since_idr);
    lemma_sent_p(start, configuration, frame, 0, order);
    lemma_sent_p(start, configuration, frame, lsb, order);
    let count = start.pending.len() as int;
    lemma_drained(start, configuration, count);
    let drained = start.drained(configuration, count);
    if drained.fault is None {
        assert(start.pending.skip(count).len() == 0);
        lemma_sent_idr(drained.state, configuration, frame);
    }
    lemma_waiting_pushed(
        start.pending,
        PendingModel { frame, pic_order_cnt_lsb: lsb, picture_order_count: order },
    );
    assert(start.put_back(frame).all_times() =~= before.all_times().insert(frame.timing.pts));
    let anchor = start.sent_p(configuration, frame, lsb, order);
    if anchor.fault is None {
        lemma_filled_in(
            anchor.state,
            configuration,
            start.references[0],
            anchor.state.references[0],
            anchor.state.pending.len() as int,
        );
    }
}

proof fn lemma_sent(before: EncoderModel, frame: FrameModel)
    requires
        before.sent(frame).fault is None,
    ensures
        before.configuration is Some,
        taken_well(before, frame, before.sent(frame).state),
{
    lemma_taken(before, before.configuration->Some_0, frame);
}

/// No frame is lost and none is made up: each frame that is taken waits or becomes one packet, with
/// its own time.
pub proof fn law_frames_kept(before: EncoderModel, frame: FrameModel)
    requires
        before.sent(frame).fault is None,
    ensures
        before.sent(frame).state.frames() == before.frames() + 1,
        before.sent(frame).state.all_times() == before.all_times().insert(frame.timing.pts),
{
    lemma_sent(before, frame);
}

/// Packets are decoded at the times at which the frames are shown, in the order in which the frames
/// came.
pub proof fn law_decode_order(before: EncoderModel, frame: FrameModel)
    requires
        before.sent(frame).fault is None,
    ensures
        before.sent(frame).state.all_decode_times() == before.all_decode_times().push(
            frame.timing.pts,
        ),
{
    lemma_sent(before, frame);
    assert(timed(before, frame).all_decode_times() =~= before.all_decode_times().push(
        frame.timing.pts,
    ));
}

/// As many times of decoding are still to be given as frames wait, before and after each frame.
pub proof fn law_decode_times_suffice(before: EncoderModel, frame: FrameModel)
    requires
        before.decode_timestamps.len() == before.pending.len(),
        before.sent(frame).fault is None,
    ensures
        before.sent(frame).state.decode_timestamps.len()
            == before.sent(frame).state.pending.len(),
{
    lemma_sent(before, frame);
}

/// Each packet stands beside the coded picture of the same frame.
pub proof fn law_packets_paired(before: EncoderModel, frame: FrameModel)
    requires
        paired(before),
        before.sent(frame).fault is None,
    ensures
        paired(before.sent(frame).state),
{
    lemma_sent(before, frame);
    assert(paired(timed(before, frame)));
}

/// At the end no frame waits any more: each has become a packet with its own time, and its coded
/// picture stands beside it.
pub proof fn law_end_drains(before: EncoderModel)
    requires
        before.ended().fault is None,
    ensures
        before.ended().state.pending.len() == 0,
        before.ended().state.packets.len() == before.frames(),
        before.ended().state.all_times() == before.all_times(),
        before.ended().state.all_decode_times() == before.all_decode_times(),
        paired(before) ==> paired(before.ended().state),
        before.ended().state.flushed,
{
    lemma_drained(before, before.configuration->Some_0, before.pending.len() as int);
    let drained = before.drained(before.configuration->Some_0, before.pending.len() as int);
    assert(before.ended().state.all_times() =~= drained.state.all_times());
    assert(before.ended().state.all_decode_times() =~= drained.state.all_decode_times());
}

/// After the end no frame is taken until the encoder is configured again.
pub proof fn law_end_closes(before: EncoderModel, frame: FrameModel, setup: crate::settings::Setup)
    requires
        before.ended().fault is None,
    ensures
        before.ended().state.sent(frame).fault == Some(Error::InvalidState(Fault::Flushed)),
        before.ended().state.sent(frame).state == before.ended().state,
        !EncoderModel::configured(before.tables, setup).flushed,
{
    lemma_drained(before, before.configuration->Some_0, before.pending.len() as int);
}

/// The first picture after the encoder is configured stands alone.
pub proof fn law_first_stands_alone(before: EncoderModel, frame: FrameModel)
    requires
        before.references.len() == 0,
        before.sent(frame).fault is None,
    ensures
        before.sent(frame).state.packets.last().key,
{
    let configuration = before.configuration->Some_0;
    let start = timed(before, frame);
    lemma_sent_idr(start, configuration, frame);
    let count = start.pending.len() as int;
    lemma_drained(start, configuration, count);
    let drained = start.drained(configuration, count);
    if drained.fault is None {
        lemma_sent_idr(drained.state, configuration, frame);
    }
    let picture = before.picture(configuration);
    let around = Surroundings {
        previous: before.references[0],
        future: before.references[0],
        picture_order_count: 0,
    };
    lemma_timing(before.tables, picture, frame, before.references, around, 0, 0);
    lemma_queued(
        start,
        coded_idr(before.tables, picture, frame, 0),
        frame.timing,
        true,
        false,
        0,
        0,
    );
}

/// Whether the encoder keeps to the limits of its configuration.
pub open spec fn within_limits(encoder: EncoderModel, configuration: Configuration) -> bool {
    &&& encoder.references.len() <= configuration.max_references
    &&& encoder.pending.len() <= configuration.b_frames
    &&& encoder.frames_since_idr <= configuration.gop_size
    &&& 0 <= encoder.next_frame_num < 16
}

proof fn lemma_limits_queued(
    before: EncoderModel,
    encoded: EncodedModel,
    timing: FrameTiming,
    key: bool,
    retain: bool,
    order: int,
    most: int,
)
    requires
        before.references.len() <= most || !retain,
        0 <= most,
    ensures
        ({
            let step = before.queued(encoded, timing, key, retain, order, most);
            step.fault is None ==> {
                &&& step.state.references.len() <= (if retain {
                    most
                } else {
                    before.references.len() as int
                })
                &&& step.state.pending == before.pending
                &&& step.state.frames_since_idr == before.frames_since_idr
                &&& step.state.next_frame_num == before.next_frame_num
            }
        }),
{
    reveal(EncoderModel::queued);
}

proof fn lemma_limits_p(
    before: EncoderModel,
    configuration: Configuration,
    frame: FrameModel,
    lsb: int,
    order: int,
)
    requires
        before.references.len() <= configuration.max_references,
    ensures
        ({
            let step = before.sent_p(configuration, frame, lsb, order);
            step.fault is None ==> {
                &&& step.state.references.len() <= configuration.max_references
                &&& step.state.pending == before.pending
                &&& step.state.frames_since_idr == before.frames_since_idr
                &&& 0 <= step.state.next_frame_num < 16
            }
        }),
{
    let picture = before.picture(configuration);
    lemma_limits_queued(
        before,
        coded_p(before.tables, picture, frame, before.references, before.next_frame_num, lsb),
        frame.timing,
        false,
        true,
        order,
        configuration.max_references as int,
    );
}

proof fn lemma_limits_idr(before: EncoderModel, configuration: Configuration, frame: FrameModel)
    requires
        before.references.len() <= configuration.max_references,
    ensures
        ({
            let step = before.sent_idr(configuration, frame);
            step.fault is None ==> {
                &&& step.state.references.len() <= configuration.max_references
                &&& step.state.pending == before.pending
                &&& step.state.frames_since_idr == 1
                &&& step.state.next_frame_num == 1
            }
        }),
{
    lemma_limits_queued(
        before,
        coded_idr(before.tables, before.picture(configuration), frame, 0),
        frame.timing,
        true,
        true,
        0,
        configuration.max_references as int,
    );
}

proof fn lemma_limits_drained(before: EncoderModel, configuration: Configuration, count: int)
    requires
        0 <= count <= before.pending.len(),
        before.references.len() <= configuration.max_references,
        0 <= before.next_frame_num < 16,
    ensures
        ({
            let step = before.drained(configuration, count);
            step.fault is None ==> {
                &&& step.state.references.len() <= configuration.max_references
                &&& step.state.pending.len() == before.pending.len() - count
                &&& step.state.frames_since_idr == before.frames_since_idr
                &&& 0 <= step.state.next_frame_num < 16
            }
        }),
    decreases count,
{
    if count > 0 {
        let first = before.pending[0];
        let rest = before.without_first();
        lemma_limits_p(
            rest,
            configuration,
            first.frame,
            first.pic_order_cnt_lsb,
            first.picture_order_count,
        );
        let step = rest.sent_p(
            configuration,
            first.frame,
            first.pic_order_cnt_lsb,
            first.picture_order_count,
        );
        if step.fault is None {
            lemma_limits_drained(step.state, configuration, count - 1);
        }
    }
}

proof fn lemma_limits_filled_in(
    before: EncoderModel,
    configuration: Configuration,
    previous: ReferencePicture,
    future: ReferencePicture,
    count: int,
)
    requires
        0 <= count <= before.pending.len(),
    ensures
        ({
            let step = before.filled_in(configuration, previous, future, count);
            step.fault is None ==> {
                &&& step.state.references.len() <= before.references.len()
                &&& step.state.pending.len() == before.pending.len() - count
                &&& step.state.frames_since_idr == before.frames_since_idr
                &&& step.state.next_frame_num == before.next_frame_num
            }
        }),
    decreases count,
{
    if count > 0 {
        let first = before.pending[0];
        let rest = before.without_first();
        let around = Surroundings {
            previous,
            future,
            picture_order_count: first.picture_order_count,
        };
        lemma_limits_queued(
            rest,
            coded_b(
                rest.tables,
                rest.picture(configuration),
                first.frame,
                around,
                rest.next_frame_num,
                first.pic_order_cnt_lsb,
            ),
            first.frame.timing,
            false,
            false,
            first.picture_order_count,
            configuration.max_references as int,
        );
        let step = rest.sent_b(configuration, first, previous, future);
        if step.fault is None {
            lemma_limits_filled_in(step.state, configuration, previous, future, count - 1);
        }
    }
}

/// The encoder never keeps more pictures for reference, holds back more frames, or makes longer
/// groups than it was configured for.
pub proof fn law_limits_kept(before: EncoderModel, frame: FrameModel)
    requires
        before.configuration matches Some(configuration) && within_limits(before, configuration)
            && configuration.gop_size >= 1,
        before.sent(frame).fault is None,
    ensures
        within_limits(before.sent(frame).state, before.configuration->Some_0),
{
    let configuration = before.configuration->Some_0;
    let start = timed(before, frame);
    lemma_limits_queued(
        start,
        coded_idr(before.tables, before.picture(configuration), frame, 0),
        frame.timing,
        true,
        false,
        0,
        0,
    );
    lemma_limits_idr(start, configuration, frame);
    let order = crate::encoder::display_order(start.frames_since_idr);
    let lsb = crate::encoder::display_order_lsb(start.frames_since_idr);
    lemma_limits_p(start, configuration, frame, 0, order);
    lemma_limits_p(start, configuration, frame, lsb, order);
    let count = start.pending.len() as int;
    lemma_limits_drained(start, configuration, count);
    let drained = start.drained(configuration, count);
    if drained.fault is None {
        lemma_limits_idr(drained.state, configuration, frame);
    }
    let anchor = start.sent_p(configuration, frame, lsb, order);
    if anchor.fault is None {
        lemma_limits_filled_in(
            anchor.state,
            configuration,
            start.references[0],
            anchor.state.references[0],
            anchor.state.pending.len() as int,
        );
    }
}

/// A packet splits into the units that it was made of.
pub proof fn law_packet_splits(sei: Option<Seq<u8>>, nal: Seq<u8>)
    requires
        sei matches Some(unit) ==> sample_unit(unit),
        sample_unit(nal),
    ensures
        ({
            let units = match sei {
                Some(unit) => seq![unit, nal],
                None => seq![nal],
            };
            let data = packet_data(sei, nal);
            sample_spans(data, NAL_LENGTH_SIZE) matches Ok(spans) && parts_are(data, spans, units)
        }),
{
    let units = match sei {
        Some(unit) => seq![unit, nal],
        None => seq![nal],
    };
    reveal_with_fuel(sample_of, 3);
    match sei {
        Some(unit) => {
            assert(units.skip(1) =~= seq![nal]);
            assert(seq![nal].skip(1) =~= Seq::<Seq<u8>>::empty());
        },
        None => {
            assert(units.skip(1) =~= Seq::<Seq<u8>>::empty());
        },
    }
    assert(packet_data(sei, nal) =~= sample_of(units));
    law_sample_round_trip(units);
}

} // verus!
