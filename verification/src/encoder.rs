//! The encoder: frames go in, packets come out.

use std::collections::VecDeque;
use vstd::prelude::*;

use crate::b_picture::Surroundings;
use crate::config::{Configuration, EncoderMode};
use crate::contexts::{ContextTables, Tables};
use crate::error::{Error, Fault};
use crate::frame::{
    frame_fault, frame_fits, scene_cut, scene_cut_detected, unless, validate_frame, FrameModel,
    FrameTiming, Timestamp, VideoFrame,
};
use crate::framing::{append_length_prefixed_nal, length_field};
use crate::hrd::HrdState;
use crate::idr::{EncodedFrame, EncodedModel};
use crate::inter_predict::predictable;
use crate::levels::{frame_level_fault, saturated, validate_frame_level};
use crate::motion::{motions_small, BlockMotions, BlockOrders};
use crate::neighbors::rows;
use crate::p_select::{pictures, references_fit, EncoderReference, ReferencePicture};
use crate::picture::planes_fit;
use crate::pictures::{coded_b, coded_idr, coded_p, encode_b_picture, encode_idr, encode_p_picture};
use crate::rate::RateControl;
use crate::settings::{CodecDescriptor, Setup, VideoEncoderSettings, CODEC_NAME, CODEC_TAG};
use crate::starting_points::starting_tables;

verus! {

/// An encoded picture with its times.
#[derive(Clone, Debug)]
pub struct Packet {
    /// The stream that it belongs to.
    pub stream_id: u32,
    /// Its units, each behind its length.
    pub data: Vec<u8>,
    /// When it is shown.
    pub pts: Option<Timestamp>,
    /// When it is decoded.
    pub dts: Option<Timestamp>,
    /// How long it is shown.
    pub duration: Option<Timestamp>,
    /// Whether it stands alone.
    pub key: bool,
}

/// An encoded picture with its times.
#[verifier::ext_equal]
pub struct PacketModel {
    /// The stream that it belongs to.
    pub stream_id: u32,
    /// Its units, each behind its length.
    pub data: Seq<u8>,
    /// When it is shown.
    pub pts: Option<Timestamp>,
    /// When it is decoded.
    pub dts: Option<Timestamp>,
    /// How long it is shown.
    pub duration: Option<Timestamp>,
    /// Whether it stands alone.
    pub key: bool,
}

impl View for Packet {
    type V = PacketModel;

    open spec fn view(&self) -> PacketModel {
        PacketModel {
            stream_id: self.stream_id,
            data: self.data@,
            pts: self.pts,
            dts: self.dts,
            duration: self.duration,
            key: self.key,
        }
    }
}

/// A frame that waits for a later one.
#[derive(Debug)]
pub struct PendingBFrame {
    /// The frame.
    pub frame: VideoFrame,
    /// The lowest bits of its display order.
    pub pic_order_cnt_lsb: u8,
    /// Its display order.
    pub picture_order_count: i32,
}

/// A frame that waits for a later one.
#[verifier::ext_equal]
pub struct PendingModel {
    /// The frame.
    pub frame: FrameModel,
    /// The lowest bits of its display order.
    pub pic_order_cnt_lsb: int,
    /// Its display order.
    pub picture_order_count: int,
}

impl View for PendingBFrame {
    type V = PendingModel;

    open spec fn view(&self) -> PendingModel {
        PendingModel {
            frame: self.frame@,
            pic_order_cnt_lsb: self.pic_order_cnt_lsb as int,
            picture_order_count: self.picture_order_count as int,
        }
    }
}

/// What packets hold.
pub open spec fn packets_of(packets: Seq<Packet>) -> Seq<PacketModel> {
    Seq::new(packets.len(), |i: int| packets[i]@)
}

/// What frames hold.
pub open spec fn frames_of(frames: Seq<VideoFrame>) -> Seq<FrameModel> {
    Seq::new(frames.len(), |i: int| frames[i]@)
}

/// What waiting frames hold.
pub open spec fn pending_of(frames: Seq<PendingBFrame>) -> Seq<PendingModel> {
    Seq::new(frames.len(), |i: int| frames[i]@)
}

/// The display order of a picture, from the number of pictures since the last that stands alone.
pub open spec fn display_order(index: int) -> int {
    index * 2
}

/// The lowest bits of the display order of a picture.
pub open spec fn display_order_lsb(index: int) -> int {
    (index * 2) % 16
}

/// The display order of a picture, from the number of pictures since the last that stands alone.
pub fn picture_order_count(display_index_since_idr: usize) -> (count: i32)
    requires
        display_index_since_idr <= 0x3fff_ffff,
    ensures
        count == display_order(display_index_since_idr as int),
{
    (display_index_since_idr * 2) as i32
}

/// The lowest bits of the display order of a picture.
pub fn picture_order_count_lsb(display_index_since_idr: usize) -> (lsb: u8)
    requires
        display_index_since_idr <= 0x3fff_ffff,
    ensures
        lsb == display_order_lsb(display_index_since_idr as int),
{
    ((display_index_since_idr * 2) % 16) as u8
}

/// The encoder.
#[verifier::ext_equal]
pub struct EncoderModel {
    /// The starting points of arithmetic coding, if they are known.
    pub tables: Tables,
    /// How pictures are encoded.
    pub configuration: Option<Configuration>,
    /// The packets that wait to be taken.
    pub packets: Seq<PacketModel>,
    /// The coded pictures that wait to be taken.
    pub reconstructions: Seq<FrameModel>,
    /// The pictures that are kept for reference, the latest first.
    pub references: Seq<ReferencePicture>,
    /// The frames that wait for a later one.
    pub pending: Seq<PendingModel>,
    /// When the next pictures are decoded.
    pub decode_timestamps: Seq<Option<Timestamp>>,
    /// The control of the quantizer.
    pub rate_control: Option<RateControl>,
    /// The buffer of a decoder.
    pub hrd_state: Option<HrdState>,
    /// The number of the next picture.
    pub next_frame_num: int,
    /// How many pictures there are since the last that stands alone.
    pub frames_since_idr: int,
    /// Whether no more frames are taken.
    pub flushed: bool,
}

/// The encoder after some work, and why the work failed, if it did.
pub struct Step {
    /// The encoder.
    pub state: EncoderModel,
    /// Why the work failed.
    pub fault: Option<Error>,
}

/// The units of a packet, each behind its length.
pub open spec fn packet_data(sei: Option<Seq<u8>>, nal: Seq<u8>) -> Seq<u8> {
    (match sei {
        Some(unit) => length_field(unit.len()) + unit,
        None => Seq::empty(),
    }) + length_field(nal.len()) + nal
}

/// The pictures that are kept after one more.
pub open spec fn kept(
    references: Seq<ReferencePicture>,
    key: bool,
    newest: ReferencePicture,
    most: int,
) -> Seq<ReferencePicture> {
    let all = (if key {
        Seq::empty()
    } else {
        references
    }).insert(0, newest);
    if most < all.len() {
        all.take(most)
    } else {
        all
    }
}

impl EncoderModel {
    /// An encoder that has not been configured.
    pub open spec fn fresh(tables: Tables) -> EncoderModel {
        EncoderModel {
            tables,
            configuration: None,
            packets: Seq::empty(),
            reconstructions: Seq::empty(),
            references: Seq::empty(),
            pending: Seq::empty(),
            decode_timestamps: Seq::empty(),
            rate_control: None,
            hrd_state: None,
            next_frame_num: 0,
            frames_since_idr: 0,
            flushed: false,
        }
    }

    /// An encoder that has just been configured.
    pub open spec fn configured(tables: Tables, setup: Setup) -> EncoderModel {
        EncoderModel {
            configuration: Some(setup.configuration),
            rate_control: setup.rate_control,
            hrd_state: match setup.sequence.hrd {
                Some(hrd) => Some(HrdState::full(hrd)),
                None => None,
            },
            ..EncoderModel::fresh(tables)
        }
    }

    /// How the next picture is encoded: with the quantizer of the rate, if there is one.
    pub open spec fn picture(self, configuration: Configuration) -> Configuration {
        match self.rate_control {
            Some(control) => Configuration { qp: control.current_qp, ..configuration },
            None => configuration,
        }
    }

    /// The unit before a picture, if there is one, and the buffer after it was written.
    pub open spec fn announced(self, key: bool, order: int, timing: FrameTiming) -> (
        Result<Option<Seq<u8>>, Error>,
        Option<HrdState>,
    ) {
        match self.hrd_state {
            None => (Ok(None), None),
            Some(hrd) => match hrd.announced(key, order, timing.duration) {
                (Ok(sei), next) => (Ok(Some(sei)), Some(next)),
                (Err(error), next) => (Err(error), Some(next)),
            },
        }
    }

    /// The data of a packet, and the buffer of a decoder once the packet has left it.
    pub open spec fn framed(self, nal: Seq<u8>, timing: FrameTiming, key: bool, order: int) -> Result<
        (Seq<u8>, Option<HrdState>),
        Error,
    > {
        let (unit, told) = self.announced(key, order, timing);
        match unit {
            Err(error) => Err(error),
            Ok(sei) => {
                let data = packet_data(sei, nal);
                let bits = saturated(8int * data.len(), u64::MAX as int);
                if (sei matches Some(found) && found.len() > u32::MAX) || nal.len() > u32::MAX {
                    Err(Error::InvalidData(Fault::LongUnit))
                } else {
                    match told {
                        None => Ok((data, None)),
                        Some(hrd) => match hrd.removed(key, timing.duration, bits).0 {
                            Some(error) => Err(error),
                            None => Ok((data, Some(hrd.removed(key, timing.duration, bits).1))),
                        },
                    }
                }
            },
        }
    }

    /// The encoder after a picture is ready to be taken.
    #[verifier::opaque]
    pub open spec fn queued(
        self,
        encoded: EncodedModel,
        timing: FrameTiming,
        key: bool,
        retain: bool,
        order: int,
        most: int,
    ) -> Step {
        match self.framed(encoded.nal, timing, key, order) {
            Err(error) => Step { state: self, fault: Some(error) },
            Ok((data, buffer)) => {
                let bits = saturated(8int * data.len(), u64::MAX as int);
                if self.decode_timestamps.len() == 0 {
                    Step { state: self, fault: Some(Error::InvalidState(Fault::NoDecodeTime)) }
                } else {
                    Step {
                        state: EncoderModel {
                            packets: self.packets.push(
                                PacketModel {
                                    stream_id: 0,
                                    data,
                                    pts: timing.pts,
                                    dts: self.decode_timestamps[0],
                                    duration: timing.duration,
                                    key,
                                },
                            ),
                            decode_timestamps: self.decode_timestamps.skip(1),
                            references: if retain {
                                kept(
                                    self.references,
                                    key,
                                    ReferencePicture {
                                        planes: encoded.coded_reconstruction,
                                        pic_order_count: order,
                                        motion_l0: encoded.motion_l0,
                                        reference_l0_poc: encoded.reference_l0_poc,
                                        macroblock_intra: encoded.macroblock_intra,
                                    },
                                    most,
                                )
                            } else {
                                self.references
                            },
                            reconstructions: self.reconstructions.push(encoded.reconstructed),
                            rate_control: match self.rate_control {
                                Some(control) => Some(control.observed(bits, timing.duration)),
                                None => None,
                            },
                            hrd_state: buffer,
                            ..self
                        },
                        fault: None,
                    }
                }
            },
        }
    }

    /// The encoder after a frame that becomes a picture that stands alone and starts a group.
    pub open spec fn sent_idr(self, configuration: Configuration, frame: FrameModel) -> Step {
        let step = self.queued(
            coded_idr(self.tables, self.picture(configuration), frame, 0),
            frame.timing,
            true,
            true,
            0,
            configuration.max_references as int,
        );
        match step.fault {
            Some(_) => step,
            None => Step {
                state: EncoderModel { next_frame_num: 1, frames_since_idr: 1, ..step.state },
                fault: None,
            },
        }
    }

    /// The encoder after a frame that becomes a picture that is predicted from earlier ones.
    pub open spec fn sent_p(
        self,
        configuration: Configuration,
        frame: FrameModel,
        lsb: int,
        order: int,
    ) -> Step {
        let step = self.queued(
            coded_p(
                self.tables,
                self.picture(configuration),
                frame,
                self.references,
                self.next_frame_num,
                lsb,
            ),
            frame.timing,
            false,
            true,
            order,
            configuration.max_references as int,
        );
        match step.fault {
            Some(_) => step,
            None => Step {
                state: EncoderModel {
                    next_frame_num: (self.next_frame_num + 1) % 16,
                    ..step.state
                },
                fault: None,
            },
        }
    }

    /// The encoder without the first of the waiting frames.
    pub open spec fn without_first(self) -> EncoderModel {
        EncoderModel { pending: self.pending.skip(1), ..self }
    }

    /// The encoder after the first `count` waiting frames become pictures that are predicted from
    /// earlier ones.
    pub open spec fn drained(self, configuration: Configuration, count: int) -> Step
        decreases count,
    {
        if count <= 0 {
            Step { state: self, fault: None }
        } else {
            let first = self.pending[0];
            let step = self.without_first().sent_p(
                configuration,
                first.frame,
                first.pic_order_cnt_lsb,
                first.picture_order_count,
            );
            match step.fault {
                Some(_) => step,
                None => step.state.drained(configuration, count - 1),
            }
        }
    }

    /// The encoder after a waiting frame becomes a picture that is predicted from both sides.
    pub open spec fn sent_b(
        self,
        configuration: Configuration,
        first: PendingModel,
        previous: ReferencePicture,
        future: ReferencePicture,
    ) -> Step {
        self.queued(
            coded_b(
                self.tables,
                self.picture(configuration),
                first.frame,
                Surroundings {
                    previous,
                    future,
                    picture_order_count: first.picture_order_count,
                },
                self.next_frame_num,
                first.pic_order_cnt_lsb,
            ),
            first.frame.timing,
            false,
            false,
            first.picture_order_count,
            configuration.max_references as int,
        )
    }

    /// The encoder after the first `count` waiting frames become pictures that are predicted from
    /// both sides.
    pub open spec fn filled_in(
        self,
        configuration: Configuration,
        previous: ReferencePicture,
        future: ReferencePicture,
        count: int,
    ) -> Step
        decreases count,
    {
        if count <= 0 {
            Step { state: self, fault: None }
        } else {
            let step = self.without_first().sent_b(
                configuration,
                self.pending[0],
                previous,
                future,
            );
            match step.fault {
                Some(_) => step,
                None => step.state.filled_in(configuration, previous, future, count - 1),
            }
        }
    }

    /// The encoder after one more picture since the last that stands alone.
    pub open spec fn counted(self) -> EncoderModel {
        EncoderModel { frames_since_idr: self.frames_since_idr + 1, ..self }
    }

    /// The encoder after a frame that is encoded at once.
    pub open spec fn sent_at_once(
        self,
        configuration: Configuration,
        frame: FrameModel,
        key: bool,
    ) -> Step {
        if key {
            self.sent_idr(configuration, frame)
        } else {
            let step = self.sent_p(configuration, frame, 0, display_order(self.frames_since_idr));
            match step.fault {
                Some(_) => step,
                None => Step { state: step.state.counted(), fault: None },
            }
        }
    }

    /// The encoder after a frame that is put behind those that wait.
    pub open spec fn put_back(self, frame: FrameModel) -> EncoderModel {
        EncoderModel {
            pending: self.pending.push(
                PendingModel {
                    frame,
                    pic_order_cnt_lsb: display_order_lsb(self.frames_since_idr),
                    picture_order_count: display_order(self.frames_since_idr),
                },
            ),
            ..self
        }.counted()
    }

    /// The encoder after a frame that others have waited for.
    pub open spec fn sent_anchor(self, configuration: Configuration, frame: FrameModel) -> Step {
        let step = self.sent_p(
            configuration,
            frame,
            display_order_lsb(self.frames_since_idr),
            display_order(self.frames_since_idr),
        );
        match step.fault {
            Some(_) => step,
            None => {
                let filled = step.state.filled_in(
                    configuration,
                    self.references[0],
                    step.state.references[0],
                    step.state.pending.len() as int,
                );
                match filled.fault {
                    Some(_) => filled,
                    None => Step { state: filled.state.counted(), fault: None },
                }
            },
        }
    }

    /// The encoder after a frame, where frames may wait for later ones.
    pub open spec fn sent_reordered(
        self,
        configuration: Configuration,
        frame: FrameModel,
        key: bool,
    ) -> Step {
        if key {
            let drained = self.drained(configuration, self.pending.len() as int);
            match drained.fault {
                Some(_) => drained,
                None => drained.state.sent_idr(configuration, frame),
            }
        } else if self.pending.len() < configuration.b_frames {
            Step { state: self.put_back(frame), fault: None }
        } else {
            self.sent_anchor(configuration, frame)
        }
    }

    /// Whether a frame becomes a picture that stands alone.
    pub open spec fn starts_group(self, configuration: Configuration, frame: FrameModel) -> bool {
        ||| configuration.mode != EncoderMode::Inter
        ||| self.references.len() == 0
        ||| self.frames_since_idr >= configuration.gop_size
        ||| scene_cut(
            frame,
            configuration.scene_cut_threshold as int,
            self.references[0].planes.luma,
            16 * configuration.macroblocks_wide,
        )
    }

    /// The encoder after a frame that was found to be in order.
    pub open spec fn taken(self, configuration: Configuration, frame: FrameModel) -> Step {
        let timed = EncoderModel {
            decode_timestamps: self.decode_timestamps.push(frame.timing.pts),
            ..self
        };
        let key = self.starts_group(configuration, frame);
        if configuration.mode != EncoderMode::Inter {
            timed.queued(
                coded_idr(self.tables, self.picture(configuration), frame, 0),
                frame.timing,
                true,
                false,
                0,
                0,
            )
        } else if configuration.b_frames == 0 {
            timed.sent_at_once(configuration, frame, key)
        } else {
            timed.sent_reordered(configuration, frame, key)
        }
    }

    /// The encoder after a frame.
    pub open spec fn sent(self, frame: FrameModel) -> Step {
        match self.configuration {
            None => Step { state: self, fault: Some(Error::InvalidState(Fault::NotConfigured)) },
            Some(configuration) => if self.flushed {
                Step { state: self, fault: Some(Error::InvalidState(Fault::Flushed)) }
            } else if frame_fault(
                frame,
                configuration.width as int,
                configuration.height as int,
            ) is Some {
                Step {
                    state: self,
                    fault: frame_fault(
                        frame,
                        configuration.width as int,
                        configuration.height as int,
                    ),
                }
            } else if frame_level_fault(frame.timing, configuration.level) is Some {
                Step { state: self, fault: frame_level_fault(frame.timing, configuration.level) }
            } else {
                self.taken(configuration, frame)
            },
        }
    }

    /// The encoder after all waiting frames are encoded.
    pub open spec fn ended(self) -> Step {
        match self.configuration {
            None => Step { state: self, fault: Some(Error::InvalidState(Fault::NotConfigured)) },
            Some(configuration) => {
                let drained = self.drained(configuration, self.pending.len() as int);
                match drained.fault {
                    Some(_) => drained,
                    None => Step {
                        state: EncoderModel { flushed: true, ..drained.state },
                        fault: None,
                    },
                }
            },
        }
    }
}

/// A stateful, deterministic encoder.
///
/// Frames become pictures that stand alone, that are predicted from earlier ones, or that are
/// predicted from both sides, as the settings say; each picture is taken as a packet, and beside it
/// the frame that a decoder will show for it.
#[derive(Debug)]
pub struct H264Encoder {
    contexts: ContextTables,
    configuration: Option<Configuration>,
    packets: VecDeque<Packet>,
    reconstructions: VecDeque<VideoFrame>,
    references: Vec<EncoderReference>,
    pending_b_frames: VecDeque<PendingBFrame>,
    decode_timestamps: VecDeque<Option<Timestamp>>,
    rate_control: Option<RateControl>,
    hrd_state: Option<HrdState>,
    next_frame_num: u8,
    frames_since_idr: usize,
    flushed: bool,
}

impl View for H264Encoder {
    type V = EncoderModel;

    closed spec fn view(&self) -> EncoderModel {
        EncoderModel {
            tables: self.contexts@,
            configuration: self.configuration,
            packets: packets_of(self.packets@),
            reconstructions: frames_of(self.reconstructions@),
            references: pictures(self.references@),
            pending: pending_of(self.pending_b_frames@),
            decode_timestamps: self.decode_timestamps@,
            rate_control: self.rate_control,
            hrd_state: self.hrd_state,
            next_frame_num: self.next_frame_num as int,
            frames_since_idr: self.frames_since_idr as int,
            flushed: self.flushed,
        }
    }
}

impl Default for H264Encoder {
    fn default() -> (encoder: Self)
        ensures
            encoder.valid(),
            encoder@ == EncoderModel::fresh(starting_tables()),
    {
        H264Encoder::new()
    }
}

/// Copies the motion of a picture.
fn copy_motions(motions: &Vec<BlockMotions>) -> (copy: Vec<BlockMotions>)
    ensures
        copy@ == motions@,
{
    let mut copy: Vec<BlockMotions> = Vec::with_capacity(motions.len());
    let mut i: usize = 0;
    while i < motions.len()
        invariant
            i <= motions@.len(),
            copy@ == motions@.take(i as int),
        decreases motions@.len() - i,
    {
        copy.push(motions[i]);
        i = i + 1;
        assert(copy@ =~= motions@.take(i as int));
    }
    assert(motions@.take(i as int) =~= motions@);
    copy
}

/// Copies the display orders that a picture refers to.
fn copy_orders(orders: &Vec<BlockOrders>) -> (copy: Vec<BlockOrders>)
    ensures
        copy@ == orders@,
{
    let mut copy: Vec<BlockOrders> = Vec::with_capacity(orders.len());
    let mut i: usize = 0;
    while i < orders.len()
        invariant
            i <= orders@.len(),
            copy@ == orders@.take(i as int),
        decreases orders@.len() - i,
    {
        copy.push(orders[i]);
        i = i + 1;
        assert(copy@ =~= orders@.take(i as int));
    }
    assert(orders@.take(i as int) =~= orders@);
    copy
}

/// Copies a picture that is kept for reference.
fn copy_reference(reference: &EncoderReference) -> (copy: EncoderReference)
    ensures
        copy@ == reference@,
        copy.motion_l0@ == reference.motion_l0@,
{
    let macroblock_intra: Vec<bool> = reference.macroblock_intra.clone();
    assert(macroblock_intra@ =~= reference.macroblock_intra@);
    EncoderReference {
        planes: reference.planes.clone(),
        pic_order_count: reference.pic_order_count,
        motion_l0: copy_motions(&reference.motion_l0),
        reference_l0_poc: copy_orders(&reference.reference_l0_poc),
        macroblock_intra,
    }
}

/// Whether a picture can be referred to.
pub open spec fn reference_sound(reference: EncoderReference, wide: int, high: int) -> bool {
    predictable(reference.planes@, wide, high) && motions_small(rows(reference.motion_l0@))
}

/// Whether a waiting frame can be encoded.
pub open spec fn pending_sound(pending: PendingBFrame, wide: int, high: int) -> bool {
    frame_fits(pending.frame@, wide, high) && 0 <= pending.picture_order_count <= 2000
}

impl H264Encoder {
    /// Whether everything is in order for a configuration; `slack` says how many more pictures have
    /// left the buffer of a decoder than were counted.
    spec fn sound(&self, c: Configuration, slack: int) -> bool {
        &&& c.valid()
        &&& self.contexts@.valid()
        &&& self.references@.len() <= 4
        &&& forall|i: int|
            0 <= i < self.references@.len() ==> reference_sound(
                #[trigger] self.references@[i],
                c.macroblocks_wide as int,
                c.macroblocks_high as int,
            )
        &&& forall|i: int|
            0 <= i < self.pending_b_frames@.len() ==> pending_sound(
                #[trigger] self.pending_b_frames@[i],
                c.macroblocks_wide as int,
                c.macroblocks_high as int,
            )
        &&& self.pending_b_frames@.len() > 0 ==> self.references@.len() > 0 && c.mode
            == EncoderMode::Inter
        &&& self.pending_b_frames@.len() <= c.b_frames
        &&& self.rate_control matches Some(control) ==> control.valid()
        &&& self.hrd_state matches Some(hrd) ==> hrd.valid() && hrd.decode_index
            + self.pending_b_frames@.len() <= 2 * self.frames_since_idr + 1 + slack
        &&& self.next_frame_num < 16
        &&& self.frames_since_idr <= c.gop_size
    }

    /// Whether everything is in order.
    pub closed spec fn valid(&self) -> bool {
        &&& self.contexts@.valid()
        &&& self.configuration matches Some(c) ==> self.sound(c, 0)
    }

    /// An encoder that has not been configured.
    pub fn new() -> (encoder: Self)
        ensures
            encoder.valid(),
            encoder@ == EncoderModel::fresh(starting_tables()),
    {
        let encoder = H264Encoder {
            contexts: ContextTables::starting(),
            configuration: None,
            packets: VecDeque::new(),
            reconstructions: VecDeque::new(),
            references: Vec::new(),
            pending_b_frames: VecDeque::new(),
            decode_timestamps: VecDeque::new(),
            rate_control: None,
            hrd_state: None,
            next_frame_num: 0,
            frames_since_idr: 0,
            flushed: false,
        };
        assert(encoder@ =~= EncoderModel::fresh(starting_tables()));
        encoder
    }

    /// How pictures are encoded, once the encoder is configured.
    pub fn configuration(&self) -> (configuration: Option<Configuration>)
        ensures
            configuration == self@.configuration,
    {
        self.configuration
    }

    /// The control of the quantizer, if bits are limited.
    pub fn rate_control(&self) -> (rate_control: Option<RateControl>)
        ensures
            rate_control == self@.rate_control,
    {
        self.rate_control
    }

    /// The buffer of a decoder, if it is watched.
    pub fn hrd_state(&self) -> (hrd_state: Option<HrdState>)
        ensures
            hrd_state == self@.hrd_state,
    {
        self.hrd_state
    }

    /// The pictures that later ones may refer to, the latest first.
    pub fn references(&self) -> (references: &[EncoderReference])
        ensures
            pictures(references@) == self@.references,
    {
        self.references.as_slice()
    }

    /// Takes the frame that a decoder shows for the next picture.
    ///
    /// # Errors
    ///
    /// Returns an error when the encoder has not been configured.
    pub fn receive_reconstructed_frame(&mut self) -> (result: Result<Option<VideoFrame>, Error>)
        requires
            old(self).valid(),
        ensures
            final(self).valid(),
            match result {
                Err(error) => {
                    &&& old(self)@.configuration is None
                    &&& error == Error::InvalidState(Fault::NotConfigured)
                    &&& final(self)@ == old(self)@
                },
                Ok(None) => {
                    &&& old(self)@.configuration is Some
                    &&& old(self)@.reconstructions.len() == 0
                    &&& final(self)@ == old(self)@
                },
                Ok(Some(frame)) => {
                    &&& old(self)@.configuration is Some
                    &&& old(self)@.reconstructions.len() > 0
                    &&& frame@ == old(self)@.reconstructions[0]
                    &&& final(self)@ == (EncoderModel {
                        reconstructions: old(self)@.reconstructions.skip(1),
                        ..old(self)@
                    })
                },
            },
    {
        if self.configuration.is_none() {
            return Err(Error::InvalidState(Fault::NotConfigured));
        }
        let ghost before = self@;
        let frame: Option<VideoFrame> = self.reconstructions.pop_front();
        assert(frame is Some ==> self@.reconstructions =~= before.reconstructions.skip(1));
        Ok(frame)
    }

    /// Takes the next packet.
    ///
    /// # Errors
    ///
    /// Returns an error when the encoder has not been configured.
    pub fn receive_packet(&mut self) -> (result: Result<Option<Packet>, Error>)
        requires
            old(self).valid(),
        ensures
            final(self).valid(),
            match result {
                Err(error) => {
                    &&& old(self)@.configuration is None
                    &&& error == Error::InvalidState(Fault::NotConfigured)
                    &&& final(self)@ == old(self)@
                },
                Ok(None) => {
                    &&& old(self)@.configuration is Some
                    &&& old(self)@.packets.len() == 0
                    &&& final(self)@ == old(self)@
                },
                Ok(Some(packet)) => {
                    &&& old(self)@.configuration is Some
                    &&& old(self)@.packets.len() > 0
                    &&& packet@ == old(self)@.packets[0]
                    &&& final(self)@ == (EncoderModel {
                        packets: old(self)@.packets.skip(1),
                        ..old(self)@
                    })
                },
            },
    {
        if self.configuration.is_none() {
            return Err(Error::InvalidState(Fault::NotConfigured));
        }
        let ghost before = self@;
        let packet: Option<Packet> = self.packets.pop_front();
        assert(packet is Some ==> self@.packets =~= before.packets.skip(1));
        Ok(packet)
    }

    /// Sets the encoder up, and forgets everything that it did before.
    ///
    /// # Errors
    ///
    /// Returns an error when the settings do not go together.
    pub fn configure(&mut self, settings: &VideoEncoderSettings) -> (result: Result<
        CodecDescriptor,
        Error,
    >)
        requires
            old(self).valid(),
        ensures
            final(self).valid(),
            match settings.setup() {
                Err(error) => result == Err::<CodecDescriptor, Error>(error) && final(self)@
                    == old(self)@,
                Ok(setup) => {
                    &&& result matches Ok(descriptor)
                    &&& descriptor.configuration@ == setup.record()
                    &&& descriptor.codec_id == CODEC_NAME
                    &&& descriptor.codec_tag == CODEC_TAG
                    &&& final(self)@ == EncoderModel::configured(old(self)@.tables, setup)
                },
            },
    {
        let setup: Setup = match settings.plan() {
            Ok(setup) => setup,
            Err(error) => {
                return Err(error);
            },
        };
        let descriptor: CodecDescriptor = setup.descriptor();
        self.configuration = Some(setup.configuration);
        self.rate_control = setup.rate_control;
        self.hrd_state = match setup.sequence.hrd {
            Some(hrd) => Some(HrdState::new(hrd)),
            None => None,
        };
        self.packets.clear();
        self.reconstructions.clear();
        self.references.clear();
        self.pending_b_frames.clear();
        self.decode_timestamps.clear();
        self.next_frame_num = 0;
        self.frames_since_idr = 0;
        self.flushed = false;
        assert(self@ =~= EncoderModel::configured(old(self)@.tables, setup));
        Ok(descriptor)
    }
}

impl H264Encoder {
    /// How the next picture is encoded: with the quantizer of the rate, if there is one.
    fn picture_configuration(&self, configuration: &Configuration) -> (picture: Configuration)
        ensures
            picture == self@.picture(*configuration),
    {
        let mut picture: Configuration = *configuration;
        if let Some(control) = self.rate_control {
            picture.qp = control.current_qp;
        }
        picture
    }

    /// Keeps a picture for reference.
    fn keep(&mut self, reference: EncoderReference, key: bool, most: usize)
        ensures
            final(self)@ == (EncoderModel {
                references: kept(old(self)@.references, key, reference@, most as int),
                ..old(self)@
            }),
            final(self).references@.len() <= old(self).references@.len() + 1,
            final(self).references@.len() <= most,
            most > 0 ==> final(self).references@.len() > 0,
            most > 0 ==> final(self).references@[0] == reference,
            forall|i: int|
                0 < i < final(self).references@.len() ==> #[trigger] final(self).references@[i]
                    == old(self).references@[i - 1],
            final(self).contexts == old(self).contexts,
            final(self).configuration == old(self).configuration,
            final(self).packets == old(self).packets,
            final(self).reconstructions == old(self).reconstructions,
            final(self).pending_b_frames == old(self).pending_b_frames,
            final(self).decode_timestamps == old(self).decode_timestamps,
            final(self).rate_control == old(self).rate_control,
            final(self).hrd_state == old(self).hrd_state,
            final(self).next_frame_num == old(self).next_frame_num,
            final(self).frames_since_idr == old(self).frames_since_idr,
            final(self).flushed == old(self).flushed,
    {
        let ghost before = self@;
        if key {
            self.references.clear();
        }
        self.references.insert(0, reference);
        if most < self.references.len() {
            self.references.truncate(most);
        }
        assert(self@.references =~= kept(before.references, key, reference@, most as int));
    }

    /// Frames the unit of a picture, and tells the buffer of a decoder of it.
    fn frame_picture(
        &self,
        nal: &[u8],
        timing: FrameTiming,
        key: bool,
        picture_order_count: i32,
        Ghost(c): Ghost<Configuration>,
        Ghost(slack): Ghost<int>,
    ) -> (result: Result<(Vec<u8>, u64, Option<HrdState>), Error>)
        requires
            self.sound(c, slack),
            slack <= 4,
            0 <= picture_order_count <= 2000,
        ensures
            match result {
                Err(error) => self@.framed(nal@, timing, key, picture_order_count as int) == Err::<
                    (Seq<u8>, Option<HrdState>),
                    Error,
                >(error),
                Ok((data, bits, buffer)) => {
                    &&& self@.framed(nal@, timing, key, picture_order_count as int) == Ok::<
                        (Seq<u8>, Option<HrdState>),
                        Error,
                    >((data@, buffer))
                    &&& bits == saturated(8int * data@.len(), u64::MAX as int)
                    &&& buffer matches Some(hrd) ==> {
                        &&& hrd.valid()
                        &&& hrd.decode_index + self.pending_b_frames@.len() <= 2
                            * self.frames_since_idr + 2 + slack
                        &&& key ==> hrd.decode_index == 1
                    }
                },
            },
    {
        proof {
            c.lemma_sizes();
        }
        let mut next_hrd: Option<HrdState> = self.hrd_state;
        let mut data: Vec<u8> = Vec::new();
        let ghost mut unit: Option<Seq<u8>> = None;
        if let Some(hrd) = self.hrd_state {
            let mut state: HrdState = hrd;
            match state.access_unit_sei(key, picture_order_count, timing) {
                Ok(sei) => {
                    proof {
                        unit = Some(sei@);
                    }
                    if let Err(error) = append_length_prefixed_nal(&mut data, sei.as_slice()) {
                        return Err(error);
                    }
                },
                Err(error) => {
                    return Err(error);
                },
            }
            next_hrd = Some(state);
        }
        if let Err(error) = append_length_prefixed_nal(&mut data, nal) {
            return Err(error);
        }
        assert(data@ =~= packet_data(unit, nal@));
        let bits: u64 = match (data.len() as u64).checked_mul(8) {
            Some(bits) => bits,
            None => u64::MAX,
        };
        if let Some(hrd) = next_hrd {
            let mut state: HrdState = hrd;
            if let Err(error) = state.remove_access_unit(key, timing.duration, bits) {
                return Err(error);
            }
            next_hrd = Some(state);
        }
        Ok((data, bits, next_hrd))
    }

    /// Makes a picture ready to be taken.
    fn queue_encoded(
        &mut self,
        encoded: EncodedFrame,
        timing: FrameTiming,
        key: bool,
        retain_as_reference: bool,
        picture_order_count: i32,
        max_references: usize,
        Ghost(c): Ghost<Configuration>,
        Ghost(slack): Ghost<int>,
    ) -> (result: Result<(), Error>)
        requires
            old(self).sound(c, slack),
            slack <= 4,
            0 <= picture_order_count <= 2000,
            retain_as_reference ==> 1 <= max_references <= 4 && planes_fit(
                encoded.coded_reconstruction@,
                c.macroblocks_wide as int,
                c.macroblocks_high as int,
            ) && motions_small(rows(encoded.motion_l0@)),
        ensures
            final(self)@ == old(self)@.queued(
                encoded@,
                timing,
                key,
                retain_as_reference,
                picture_order_count as int,
                max_references as int,
            ).state,
            result == unless(
                old(self)@.queued(
                    encoded@,
                    timing,
                    key,
                    retain_as_reference,
                    picture_order_count as int,
                    max_references as int,
                ).fault,
            ),
            result is Err ==> *final(self) == *old(self),
            result is Ok ==> {
                &&& final(self).sound(c, slack + 1)
                &&& key ==> (final(self).hrd_state matches Some(hrd) ==> hrd.decode_index == 1)
                &&& retain_as_reference ==> final(self).references@.len() > 0
                &&& !retain_as_reference ==> final(self).references == old(self).references
            },
            final(self).contexts == old(self).contexts,
            final(self).configuration == old(self).configuration,
            final(self).pending_b_frames == old(self).pending_b_frames,
            final(self).next_frame_num == old(self).next_frame_num,
            final(self).frames_since_idr == old(self).frames_since_idr,
            final(self).flushed == old(self).flushed,
    {
        reveal(EncoderModel::queued);
        proof {
            c.lemma_sizes();
        }
        let ghost before = self@;
        let (data, bits, next_hrd) = match self.frame_picture(
            encoded.nal.as_slice(),
            timing,
            key,
            picture_order_count,
            Ghost(c),
            Ghost(slack),
        ) {
            Ok(framed) => framed,
            Err(error) => {
                return Err(error);
            },
        };
        if self.decode_timestamps.len() == 0 {
            return Err(Error::InvalidState(Fault::NoDecodeTime));
        }
        let dts: Option<Timestamp> = match self.decode_timestamps.pop_front() {
            Some(dts) => dts,
            None => None,
        };
        assert(self.decode_timestamps@ =~= before.decode_timestamps.skip(1));
        let packet = Packet {
            stream_id: 0,
            data,
            pts: timing.pts,
            dts,
            duration: timing.duration,
            key,
        };
        let ghost packets = packets_of(self.packets@);
        self.packets.push_back(packet);
        assert(packets_of(self.packets@) =~= packets.push(packet@));
        let EncodedFrame {
            nal: _,
            reconstructed,
            coded_reconstruction,
            motion_l0,
            reference_l0_poc,
            macroblock_intra,
        } = encoded;
        if retain_as_reference {
            let reference = EncoderReference {
                planes: coded_reconstruction,
                pic_order_count: picture_order_count,
                motion_l0,
                reference_l0_poc,
                macroblock_intra,
            };
            let ghost old_references = self.references@;
            self.keep(reference, key, max_references);
            proof {
                assert forall|i: int| 0 <= i < self.references@.len() implies reference_sound(
                    #[trigger] self.references@[i],
                    c.macroblocks_wide as int,
                    c.macroblocks_high as int,
                ) by {
                    if i > 0 {
                        assert(self.references@[i] == old_references[i - 1]);
                    }
                }
            }
        }
        let ghost frames = frames_of(self.reconstructions@);
        self.reconstructions.push_back(reconstructed);
        assert(frames_of(self.reconstructions@) =~= frames.push(reconstructed@));
        if let Some(control) = self.rate_control {
            let mut next: RateControl = control;
            next.observe(bits, timing.duration);
            self.rate_control = Some(next);
        }
        self.hrd_state = next_hrd;
        Ok(())
    }

    /// Encodes a frame as a picture that stands alone and starts a group.
    fn queue_idr_frame(
        &mut self,
        frame: &VideoFrame,
        configuration: &Configuration,
        Ghost(slack): Ghost<int>,
    ) -> (result: Result<(), Error>)
        requires
            old(self).sound(*configuration, slack),
            slack <= 4,
            old(self).pending_b_frames@.len() == 0,
            frame_fits(
                frame@,
                configuration.macroblocks_wide as int,
                configuration.macroblocks_high as int,
            ),
        ensures
            final(self)@ == old(self)@.sent_idr(*configuration, frame@).state,
            result == unless(old(self)@.sent_idr(*configuration, frame@).fault),
            result is Err ==> *final(self) == *old(self),
            result is Ok ==> final(self).sound(*configuration, 0),
            final(self).contexts == old(self).contexts,
            final(self).configuration == old(self).configuration,
    {
        let picture: Configuration = self.picture_configuration(configuration);
        let encoded: EncodedFrame = encode_idr(frame, &picture, 0, &self.contexts);
        match self.queue_encoded(
            encoded,
            frame.timing,
            true,
            true,
            0,
            configuration.max_references,
            Ghost(*configuration),
            Ghost(slack),
        ) {
            Ok(_) => {
                self.next_frame_num = 1;
                self.frames_since_idr = 1;
                Ok(())
            },
            Err(error) => Err(error),
        }
    }

    /// Encodes a frame as a picture that is predicted from earlier ones.
    fn queue_p_frame(
        &mut self,
        frame: &VideoFrame,
        configuration: &Configuration,
        pic_order_cnt_lsb: u8,
        picture_order_count: i32,
        Ghost(slack): Ghost<int>,
    ) -> (result: Result<(), Error>)
        requires
            old(self).sound(*configuration, slack),
            slack <= 4,
            configuration.mode == EncoderMode::Inter,
            old(self).references@.len() > 0,
            0 <= picture_order_count <= 2000,
            frame_fits(
                frame@,
                configuration.macroblocks_wide as int,
                configuration.macroblocks_high as int,
            ),
        ensures
            final(self)@ == old(self)@.sent_p(
                *configuration,
                frame@,
                pic_order_cnt_lsb as int,
                picture_order_count as int,
            ).state,
            result == unless(
                old(self)@.sent_p(
                    *configuration,
                    frame@,
                    pic_order_cnt_lsb as int,
                    picture_order_count as int,
                ).fault,
            ),
            result is Err ==> *final(self) == *old(self),
            result is Ok ==> final(self).sound(*configuration, slack + 1) && final(self).references@.len() > 0,
            final(self).contexts == old(self).contexts,
            final(self).configuration == old(self).configuration,
            final(self).pending_b_frames == old(self).pending_b_frames,
            final(self).frames_since_idr == old(self).frames_since_idr,
            final(self).flushed == old(self).flushed,
    {
        let picture: Configuration = self.picture_configuration(configuration);
        let number: u8 = self.next_frame_num;
        assert(references_fit(
            self.references@,
            configuration.macroblocks_wide as int,
            configuration.macroblocks_high as int,
        )) by {
            assert forall|i: int| 0 <= i < self.references@.len() implies predictable(
                (#[trigger] self.references@[i]).planes@,
                configuration.macroblocks_wide as int,
                configuration.macroblocks_high as int,
            ) by {
                assert(reference_sound(
                    self.references@[i],
                    configuration.macroblocks_wide as int,
                    configuration.macroblocks_high as int,
                ));
            }
        }
        let encoded: EncodedFrame = encode_p_picture(
            frame,
            &picture,
            self.references.as_slice(),
            number,
            pic_order_cnt_lsb,
            &self.contexts,
        );
        match self.queue_encoded(
            encoded,
            frame.timing,
            false,
            true,
            picture_order_count,
            configuration.max_references,
            Ghost(*configuration),
            Ghost(slack),
        ) {
            Ok(_) => {
                self.next_frame_num = (number + 1) % 16;
                Ok(())
            },
            Err(error) => Err(error),
        }
    }

    /// Encodes all waiting frames as pictures that are predicted from earlier ones.
    fn drain(&mut self, configuration: &Configuration) -> (result: Result<(), Error>)
        requires
            old(self).sound(*configuration, 0),
        ensures
            final(self)@ == old(self)@.drained(
                *configuration,
                old(self)@.pending.len() as int,
            ).state,
            result == unless(
                old(self)@.drained(*configuration, old(self)@.pending.len() as int).fault,
            ),
            final(self).sound(*configuration, 0),
            result is Ok ==> final(self).pending_b_frames@.len() == 0,
            final(self).contexts == old(self).contexts,
            final(self).configuration == old(self).configuration,
            final(self).flushed == old(self).flushed,
    {
        let ghost total = self@.drained(*configuration, self@.pending.len() as int);
        while self.pending_b_frames.len() > 0
            invariant
                self.sound(*configuration, 0),
                total == self@.drained(*configuration, self@.pending.len() as int),
                total == old(self)@.drained(*configuration, old(self)@.pending.len() as int),
                self.contexts == old(self).contexts,
                self.configuration == old(self).configuration,
                self.flushed == old(self).flushed,
            decreases self.pending_b_frames@.len(),
        {
            let ghost before = self@;
            let ghost waiting = self.pending_b_frames@;
            assert(pending_sound(
                waiting[0],
                configuration.macroblocks_wide as int,
                configuration.macroblocks_high as int,
            ));
            if let Some(first) = self.pending_b_frames.pop_front() {
                proof {
                    assert(self@.pending =~= before.pending.skip(1));
                    assert(self@ == before.without_first());
                    assert forall|i: int|
                        0 <= i < self.pending_b_frames@.len() implies pending_sound(
                        #[trigger] self.pending_b_frames@[i],
                        configuration.macroblocks_wide as int,
                        configuration.macroblocks_high as int,
                    ) by {
                        assert(self.pending_b_frames@[i] == waiting[i + 1]);
                    }
                    assert(self.sound(*configuration, -1));
                }
                if let Err(error) = self.queue_p_frame(
                    &first.frame,
                    configuration,
                    first.pic_order_cnt_lsb,
                    first.picture_order_count,
                    Ghost(-1int),
                ) {
                    return Err(error);
                }
            }
        }
        Ok(())
    }

    /// Encodes all waiting frames as pictures that are predicted from both sides.
    fn fill_in(
        &mut self,
        configuration: &Configuration,
        previous: &EncoderReference,
        future: &EncoderReference,
    ) -> (result: Result<(), Error>)
        requires
            old(self).sound(*configuration, 1),
            configuration.mode == EncoderMode::Inter,
            old(self).pending_b_frames@.len() > 0,
            reference_sound(
                *previous,
                configuration.macroblocks_wide as int,
                configuration.macroblocks_high as int,
            ),
            reference_sound(
                *future,
                configuration.macroblocks_wide as int,
                configuration.macroblocks_high as int,
            ),
        ensures
            final(self)@ == old(self)@.filled_in(
                *configuration,
                previous@,
                future@,
                old(self)@.pending.len() as int,
            ).state,
            result == unless(
                old(self)@.filled_in(
                    *configuration,
                    previous@,
                    future@,
                    old(self)@.pending.len() as int,
                ).fault,
            ),
            result is Err ==> final(self).sound(*configuration, 0),
            result is Ok ==> final(self).sound(*configuration, 1) && final(self).pending_b_frames@.len() == 0,
            final(self).contexts == old(self).contexts,
            final(self).configuration == old(self).configuration,
            final(self).frames_since_idr == old(self).frames_since_idr,
            final(self).flushed == old(self).flushed,
    {
        let ghost total = self@.filled_in(
            *configuration,
            previous@,
            future@,
            self@.pending.len() as int,
        );
        while self.pending_b_frames.len() > 0
            invariant
                self.sound(*configuration, 1),
                configuration.mode == EncoderMode::Inter,
                reference_sound(
                    *previous,
                    configuration.macroblocks_wide as int,
                    configuration.macroblocks_high as int,
                ),
                reference_sound(
                    *future,
                    configuration.macroblocks_wide as int,
                    configuration.macroblocks_high as int,
                ),
                total == self@.filled_in(
                    *configuration,
                    previous@,
                    future@,
                    self@.pending.len() as int,
                ),
                total == old(self)@.filled_in(
                    *configuration,
                    previous@,
                    future@,
                    old(self)@.pending.len() as int,
                ),
                self.contexts == old(self).contexts,
                self.configuration == old(self).configuration,
                self.frames_since_idr == old(self).frames_since_idr,
                self.flushed == old(self).flushed,
            decreases self.pending_b_frames@.len(),
        {
            let ghost before = self@;
            let ghost waiting = self.pending_b_frames@;
            assert(pending_sound(
                waiting[0],
                configuration.macroblocks_wide as int,
                configuration.macroblocks_high as int,
            ));
            if let Some(first) = self.pending_b_frames.pop_front() {
                proof {
                    assert(self@.pending =~= before.pending.skip(1));
                    assert(self@ == before.without_first());
                    assert forall|i: int|
                        0 <= i < self.pending_b_frames@.len() implies pending_sound(
                        #[trigger] self.pending_b_frames@[i],
                        configuration.macroblocks_wide as int,
                        configuration.macroblocks_high as int,
                    ) by {
                        assert(self.pending_b_frames@[i] == waiting[i + 1]);
                    }
                    assert(self.sound(*configuration, 0));
                }
                let picture: Configuration = self.picture_configuration(configuration);
                let encoded: EncodedFrame = encode_b_picture(
                    &first.frame,
                    &picture,
                    previous,
                    future,
                    self.next_frame_num,
                    first.pic_order_cnt_lsb,
                    first.picture_order_count,
                    &self.contexts,
                );
                if let Err(error) = self.queue_encoded(
                    encoded,
                    first.frame.timing,
                    false,
                    false,
                    first.picture_order_count,
                    configuration.max_references,
                    Ghost(*configuration),
                    Ghost(0int),
                ) {
                    return Err(error);
                }
            }
        }
        Ok(())
    }

    /// Encodes a frame at once.
    fn send_immediate_inter_frame(
        &mut self,
        frame: &VideoFrame,
        configuration: &Configuration,
        key: bool,
    ) -> (result: Result<(), Error>)
        requires
            old(self).sound(*configuration, 0),
            configuration.mode == EncoderMode::Inter,
            old(self).pending_b_frames@.len() == 0,
            !key ==> old(self).references@.len() > 0 && old(self).frames_since_idr
                < configuration.gop_size,
            frame_fits(
                frame@,
                configuration.macroblocks_wide as int,
                configuration.macroblocks_high as int,
            ),
        ensures
            final(self)@ == old(self)@.sent_at_once(*configuration, frame@, key).state,
            result == unless(old(self)@.sent_at_once(*configuration, frame@, key).fault),
            final(self).sound(*configuration, 0),
            final(self).contexts == old(self).contexts,
            final(self).configuration == old(self).configuration,
    {
        if key {
            return self.queue_idr_frame(frame, configuration, Ghost(0int));
        }
        let order: i32 = picture_order_count(self.frames_since_idr);
        match self.queue_p_frame(frame, configuration, 0, order, Ghost(0int)) {
            Ok(_) => {
                self.frames_since_idr = self.frames_since_idr + 1;
                Ok(())
            },
            Err(error) => Err(error),
        }
    }

    /// Encodes a frame that others have waited for, and those.
    fn send_anchor(&mut self, frame: &VideoFrame, configuration: &Configuration) -> (result: Result<
        (),
        Error,
    >)
        requires
            old(self).sound(*configuration, 0),
            configuration.mode == EncoderMode::Inter,
            old(self).pending_b_frames@.len() > 0,
            old(self).references@.len() > 0,
            old(self).frames_since_idr < configuration.gop_size,
            frame_fits(
                frame@,
                configuration.macroblocks_wide as int,
                configuration.macroblocks_high as int,
            ),
        ensures
            final(self)@ == old(self)@.sent_anchor(*configuration, frame@).state,
            result == unless(old(self)@.sent_anchor(*configuration, frame@).fault),
            final(self).sound(*configuration, 0),
            final(self).contexts == old(self).contexts,
            final(self).configuration == old(self).configuration,
    {
        assert(reference_sound(
            self.references@[0],
            configuration.macroblocks_wide as int,
            configuration.macroblocks_high as int,
        ));
        let previous: EncoderReference = copy_reference(&self.references[0]);
        assert(self@.references[0] == previous@);
        let lsb: u8 = picture_order_count_lsb(self.frames_since_idr);
        let order: i32 = picture_order_count(self.frames_since_idr);
        if let Err(error) = self.queue_p_frame(frame, configuration, lsb, order, Ghost(0int)) {
            return Err(error);
        }
        assert(reference_sound(
            self.references@[0],
            configuration.macroblocks_wide as int,
            configuration.macroblocks_high as int,
        ));
        let future: EncoderReference = copy_reference(&self.references[0]);
        assert(self@.references[0] == future@);
        if let Err(error) = self.fill_in(configuration, &previous, &future) {
            return Err(error);
        }
        self.frames_since_idr = self.frames_since_idr + 1;
        Ok(())
    }

    /// Encodes a frame, or lets it wait for a later one.
    fn send_reordered_inter_frame(
        &mut self,
        frame: VideoFrame,
        configuration: &Configuration,
        key: bool,
    ) -> (result: Result<(), Error>)
        requires
            old(self).sound(*configuration, 0),
            configuration.mode == EncoderMode::Inter,
            configuration.b_frames > 0,
            !key ==> old(self).references@.len() > 0 && old(self).frames_since_idr
                < configuration.gop_size,
            frame_fits(
                frame@,
                configuration.macroblocks_wide as int,
                configuration.macroblocks_high as int,
            ),
        ensures
            final(self)@ == old(self)@.sent_reordered(*configuration, frame@, key).state,
            result == unless(old(self)@.sent_reordered(*configuration, frame@, key).fault),
            final(self).sound(*configuration, 0),
            final(self).contexts == old(self).contexts,
            final(self).configuration == old(self).configuration,
    {
        if key {
            if let Err(error) = self.drain(configuration) {
                return Err(error);
            }
            return self.queue_idr_frame(&frame, configuration, Ghost(0int));
        }
        if self.pending_b_frames.len() < configuration.b_frames {
            let ghost before = self@;
            let ghost waiting = self.pending_b_frames@;
            let pending = PendingBFrame {
                frame,
                pic_order_cnt_lsb: picture_order_count_lsb(self.frames_since_idr),
                picture_order_count: picture_order_count(self.frames_since_idr),
            };
            self.pending_b_frames.push_back(pending);
            self.frames_since_idr = self.frames_since_idr + 1;
            proof {
                assert(self@.pending =~= before.pending.push(pending@));
                assert(self@ =~= before.put_back(frame@));
                assert forall|i: int|
                    0 <= i < self.pending_b_frames@.len() implies pending_sound(
                    #[trigger] self.pending_b_frames@[i],
                    configuration.macroblocks_wide as int,
                    configuration.macroblocks_high as int,
                ) by {
                    if i < waiting.len() {
                        assert(self.pending_b_frames@[i] == waiting[i]);
                    }
                }
            }
            return Ok(());
        }
        self.send_anchor(&frame, configuration)
    }

    /// Whether a frame becomes a picture that stands alone.
    fn is_key(&self, frame: &VideoFrame, configuration: &Configuration) -> (key: bool)
        requires
            self.sound(*configuration, 0),
            frame_fits(
                frame@,
                configuration.macroblocks_wide as int,
                configuration.macroblocks_high as int,
            ),
        ensures
            key == self@.starts_group(*configuration, frame@),
    {
        proof {
            configuration.lemma_sizes();
        }
        let inter = match configuration.mode {
            EncoderMode::Inter => true,
            _ => false,
        };
        if !inter || self.references.len() == 0 || self.frames_since_idr
            >= configuration.gop_size {
            return true;
        }
        assert(reference_sound(
            self.references@[0],
            configuration.macroblocks_wide as int,
            configuration.macroblocks_high as int,
        ));
        assert(self@.references[0] == self.references@[0]@);
        scene_cut_detected(
            frame,
            configuration.scene_cut_threshold,
            self.references[0].planes.luma.as_slice(),
            configuration.macroblocks_wide,
            configuration.macroblocks_high,
        )
    }

    /// Takes a frame that was found to be in order.
    fn take(&mut self, frame: VideoFrame, configuration: &Configuration) -> (result: Result<
        (),
        Error,
    >)
        requires
            old(self).sound(*configuration, 0),
            configuration.b_frames == 0 ==> old(self).pending_b_frames@.len() == 0,
            frame_fits(
                frame@,
                configuration.macroblocks_wide as int,
                configuration.macroblocks_high as int,
            ),
        ensures
            final(self)@ == old(self)@.taken(*configuration, frame@).state,
            result == unless(old(self)@.taken(*configuration, frame@).fault),
            final(self).sound(*configuration, 0),
            final(self).contexts == old(self).contexts,
            final(self).configuration == old(self).configuration,
    {
        let ghost before = self@;
        let key = self.is_key(&frame, configuration);
        self.decode_timestamps.push_back(frame.timing.pts);
        let ghost timed = EncoderModel {
            decode_timestamps: before.decode_timestamps.push(frame@.timing.pts),
            ..before
        };
        assert(self@ =~= timed);
        let inter = match configuration.mode {
            EncoderMode::Inter => true,
            _ => false,
        };
        if !inter {
            let picture: Configuration = self.picture_configuration(configuration);
            let encoded: EncodedFrame = encode_idr(&frame, &picture, 0, &self.contexts);
            return self.queue_encoded(
                encoded,
                frame.timing,
                true,
                false,
                0,
                0,
                Ghost(*configuration),
                Ghost(0int),
            );
        }
        if configuration.b_frames == 0 {
            return self.send_immediate_inter_frame(&frame, configuration, key);
        }
        self.send_reordered_inter_frame(frame, configuration, key)
    }

    /// Takes a frame.
    ///
    /// # Errors
    ///
    /// Returns an error when the encoder has not been configured or takes no more frames, when the
    /// frame is not one of the sequence or comes too soon for the level, and when a picture does
    /// not fit the stream or the buffer of a decoder.
    pub fn send_frame(&mut self, frame: VideoFrame) -> (result: Result<(), Error>)
        requires
            old(self).valid(),
        ensures
            final(self).valid(),
            final(self)@ == old(self)@.sent(frame@).state,
            result == unless(old(self)@.sent(frame@).fault),
    {
        let configuration: Configuration = match self.configuration {
            Some(configuration) => configuration,
            None => {
                return Err(Error::InvalidState(Fault::NotConfigured));
            },
        };
        if self.flushed {
            return Err(Error::InvalidState(Fault::Flushed));
        }
        if let Err(error) = validate_frame(&frame, configuration.width, configuration.height) {
            return Err(error);
        }
        if let Err(error) = validate_frame_level(frame.timing, configuration.level) {
            return Err(error);
        }
        self.take(frame, &configuration)
    }

    /// Encodes all waiting frames, and takes no more.
    ///
    /// # Errors
    ///
    /// Returns an error when the encoder has not been configured, and when a picture does not fit
    /// the stream or the buffer of a decoder.
    pub fn flush(&mut self) -> (result: Result<(), Error>)
        requires
            old(self).valid(),
        ensures
            final(self).valid(),
            final(self)@ == old(self)@.ended().state,
            result == unless(old(self)@.ended().fault),
    {
        let configuration: Configuration = match self.configuration {
            Some(configuration) => configuration,
            None => {
                return Err(Error::InvalidState(Fault::NotConfigured));
            },
        };
        if let Err(error) = self.drain(&configuration) {
            return Err(error);
        }
        self.flushed = true;
        Ok(())
    }
}

} // verus!
