//! What comes out of an encoder whose settings lose nothing.

use vstd::prelude::*;

use crate::b_picture::Surroundings;
use crate::config::{Configuration, EncoderMode};
use crate::encoder::{display_order, display_order_lsb, EncoderModel, PendingModel};
use crate::frame::{frame_fault, frame_fits, FrameModel, FrameTiming};
use crate::idr::{uses_intra4, EncodedModel};
use crate::lossless::{
    law_lossless_b, law_lossless_idr, law_lossless_p, law_plain_lossless, lemma_padded_fit,
    same_picture,
};
use crate::p_select::ReferencePicture;
use crate::picture::planes_fit;
use crate::settings::Setup;

verus! {

/// Whether pictures lose nothing: they hold plain samples, or the transform is bypassed.
pub open spec fn loses_nothing(configuration: Configuration) -> bool {
    ||| configuration.mode == EncoderMode::Ipcm
    ||| configuration.transform_bypass && uses_intra4(configuration.mode)
}

/// Whether the frames and pictures that are kept fit the configuration, and frames wait only where
/// there is a picture to refer to.
pub open spec fn fits_configuration(encoder: EncoderModel, configuration: Configuration) -> bool {
    &&& encoder.configuration == Some(configuration)
    &&& configuration.valid()
    &&& encoder.references.len() > 0 ==> planes_fit(
        encoder.references[0].planes,
        configuration.macroblocks_wide as int,
        configuration.macroblocks_high as int,
    )
    &&& encoder.pending.len() > 0 ==> encoder.references.len() > 0 && configuration.mode
        == EncoderMode::Inter
    &&& forall|i: int|
        0 <= i < encoder.pending.len() ==> frame_fits(
            (#[trigger] encoder.pending[i]).frame,
            configuration.macroblocks_wide as int,
            configuration.macroblocks_high as int,
        )
}

/// The frames that wait.
pub open spec fn waiting(pending: Seq<PendingModel>) -> Seq<FrameModel> {
    Seq::new(pending.len(), |i: int| pending[i].frame)
}

/// The frames that become pictures when one more frame is sent, in the order of the pictures.
pub open spec fn frames_coded(encoder: EncoderModel, frame: FrameModel) -> Seq<FrameModel> {
    match encoder.configuration {
        None => Seq::empty(),
        Some(configuration) => if configuration.mode != EncoderMode::Inter
            || configuration.b_frames == 0 {
            seq![frame]
        } else if encoder.starts_group(configuration, frame) {
            waiting(encoder.pending).push(frame)
        } else if encoder.pending.len() < configuration.b_frames {
            Seq::empty()
        } else {
            seq![frame] + waiting(encoder.pending)
        },
    }
}

/// Whether the coded pictures of an encoder are those of an earlier state, and behind them one for
/// each of the given frames, which shows the same samples at the same time.
pub open spec fn restored(
    before: EncoderModel,
    after: EncoderModel,
    frames: Seq<FrameModel>,
) -> bool {
    &&& after.reconstructions.len() == before.reconstructions.len() + frames.len()
    &&& forall|i: int|
        0 <= i < before.reconstructions.len() ==> #[trigger] after.reconstructions[i]
            == before.reconstructions[i]
    &&& forall|i: int|
        0 <= i < frames.len() ==> same_picture(
            after.reconstructions[before.reconstructions.len() + i],
            #[trigger] frames[i],
        )
}

/// An encoded picture that shows the samples of a frame.
spec fn faithful(encoded: EncodedModel, frame: FrameModel, configuration: Configuration) -> bool {
    &&& same_picture(encoded.reconstructed, frame)
    &&& planes_fit(
        encoded.coded_reconstruction,
        configuration.macroblocks_wide as int,
        configuration.macroblocks_high as int,
    )
}

/// One more picture.
proof fn lemma_one_more(
    before: EncoderModel,
    configuration: Configuration,
    frame: FrameModel,
    encoded: EncodedModel,
    timing: FrameTiming,
    key: bool,
    retain: bool,
    order: int,
    most: int,
)
    requires
        fits_configuration(before, configuration),
        faithful(encoded, frame, configuration),
        most >= 1 || !retain,
    ensures
        ({
            let step = before.queued(encoded, timing, key, retain, order, most);
            step.fault is None ==> {
                &&& restored(before, step.state, seq![frame])
                &&& fits_configuration(step.state, configuration)
                &&& step.state.pending == before.pending
                &&& step.state.tables == before.tables
                &&& retain ==> step.state.references.len() > 0
                &&& !retain ==> step.state.references == before.references
                &&& step.state.frames_since_idr == before.frames_since_idr
            }
        }),
{
    reveal(EncoderModel::queued);
}

proof fn lemma_idr_faithful(
    before: EncoderModel,
    configuration: Configuration,
    frame: FrameModel,
)
    requires
        fits_configuration(before, configuration),
        loses_nothing(configuration),
        frame_fits(
            frame,
            configuration.macroblocks_wide as int,
            configuration.macroblocks_high as int,
        ),
    ensures
        faithful(
            crate::pictures::coded_idr(before.tables, before.picture(configuration), frame, 0),
            frame,
            configuration,
        ),
{
    let picture = before.picture(configuration);
    lemma_padded_fit(
        frame,
        configuration.macroblocks_wide as int,
        configuration.macroblocks_high as int,
    );
    if configuration.mode == EncoderMode::Ipcm {
        law_plain_lossless(before.tables, picture, frame, 0);
    } else {
        law_lossless_idr(before.tables, picture, frame, 0);
    }
}

/// A frame becomes a picture that is predicted from earlier ones.
proof fn lemma_p_restored(
    before: EncoderModel,
    configuration: Configuration,
    frame: FrameModel,
    lsb: int,
    order: int,
)
    requires
        fits_configuration(before, configuration),
        configuration.transform_bypass,
        before.references.len() > 0,
        frame_fits(
            frame,
            configuration.macroblocks_wide as int,
            configuration.macroblocks_high as int,
        ),
    ensures
        ({
            let step = before.sent_p(configuration, frame, lsb, order);
            step.fault is None ==> {
                &&& restored(before, step.state, seq![frame])
                &&& fits_configuration(step.state, configuration)
                &&& step.state.pending == before.pending
                &&& step.state.references.len() > 0
                &&& step.state.tables == before.tables
            }
        }),
{
    let picture = before.picture(configuration);
    lemma_padded_fit(
        frame,
        configuration.macroblocks_wide as int,
        configuration.macroblocks_high as int,
    );
    law_lossless_p(before.tables, picture, frame, before.references, before.next_frame_num, lsb);
    let encoded = crate::pictures::coded_p(
        before.tables,
        picture,
        frame,
        before.references,
        before.next_frame_num,
        lsb,
    );
    lemma_one_more(
        before,
        configuration,
        frame,
        encoded,
        frame.timing,
        false,
        true,
        order,
        configuration.max_references as int,
    );
}

/// A frame becomes a picture that stands alone and starts a group.
proof fn lemma_idr_restored(before: EncoderModel, configuration: Configuration, frame: FrameModel)
    requires
        fits_configuration(before, configuration),
        loses_nothing(configuration),
        frame_fits(
            frame,
            configuration.macroblocks_wide as int,
            configuration.macroblocks_high as int,
        ),
    ensures
        ({
            let step = before.sent_idr(configuration, frame);
            step.fault is None ==> {
                &&& restored(before, step.state, seq![frame])
                &&& fits_configuration(step.state, configuration)
            }
        }),
{
    lemma_idr_faithful(before, configuration, frame);
    lemma_one_more(
        before,
        configuration,
        frame,
        crate::pictures::coded_idr(before.tables, before.picture(configuration), frame, 0),
        frame.timing,
        true,
        true,
        0,
        configuration.max_references as int,
    );
}

/// What is restored in two steps.
proof fn lemma_restored_twice(
    before: EncoderModel,
    between: EncoderModel,
    after: EncoderModel,
    first: Seq<FrameModel>,
    second: Seq<FrameModel>,
)
    requires
        restored(before, between, first),
        restored(between, after, second),
    ensures
        restored(before, after, first + second),
{
    let frames = first + second;
    assert forall|i: int| 0 <= i < before.reconstructions.len() implies #[trigger] after.reconstructions[i]
        == before.reconstructions[i] by {
        assert(between.reconstructions[i] == before.reconstructions[i]);
    }
    assert forall|i: int| 0 <= i < frames.len() implies same_picture(
        after.reconstructions[before.reconstructions.len() + i],
        #[trigger] frames[i],
    ) by {
        if i < first.len() {
            assert(frames[i] == first[i]);
            assert(after.reconstructions[before.reconstructions.len() + i]
                == between.reconstructions[before.reconstructions.len() + i]);
        } else {
            assert(frames[i] == second[i - first.len()]);
        }
    }
}

/// The first of the waiting frames leaves.
proof fn lemma_first_leaves(before: EncoderModel, configuration: Configuration)
    requires
        fits_configuration(before, configuration),
        before.pending.len() > 0,
    ensures
        fits_configuration(before.without_first(), configuration),
        waiting(before.pending) == seq![before.pending[0].frame] + waiting(
            before.without_first().pending,
        ),
{
    assert forall|i: int| 0 <= i < before.without_first().pending.len() implies frame_fits(
        (#[trigger] before.without_first().pending[i]).frame,
        configuration.macroblocks_wide as int,
        configuration.macroblocks_high as int,
    ) by {
        assert(before.without_first().pending[i] == before.pending[i + 1]);
    }
    assert(waiting(before.pending) =~= seq![before.pending[0].frame] + waiting(
        before.without_first().pending,
    ));
}

/// All waiting frames become pictures that are predicted from earlier ones.
proof fn lemma_drained_restored(before: EncoderModel, configuration: Configuration)
    requires
        fits_configuration(before, configuration),
        configuration.transform_bypass || before.pending.len() == 0,
    ensures
        ({
            let step = before.drained(configuration, before.pending.len() as int);
            step.fault is None ==> {
                &&& restored(before, step.state, waiting(before.pending))
                &&& fits_configuration(step.state, configuration)
                &&& step.state.pending.len() == 0
            }
        }),
    decreases before.pending.len(),
{
    if before.pending.len() > 0 {
        let first = before.pending[0];
        let rest = before.without_first();
        lemma_first_leaves(before, configuration);
        lemma_p_restored(
            rest,
            configuration,
            first.frame,
            first.pic_order_cnt_lsb,
            first.picture_order_count,
        );
        let step = rest.sent_p(
            configuration,
            first.frame,
            first.pic_order_cnt_lsb,
            first.picture_order_count,
        );
        if step.fault is None {
            lemma_drained_restored(step.state, configuration);
            let end = step.state.drained(configuration, step.state.pending.len() as int);
            if end.fault is None {
                assert(restored(before, step.state, seq![first.frame]));
                lemma_restored_twice(
                    before,
                    step.state,
                    end.state,
                    seq![first.frame],
                    waiting(step.state.pending),
                );
            }
        }
    }
}

/// All waiting frames become pictures that are predicted from both sides.
proof fn lemma_filled_restored(
    before: EncoderModel,
    configuration: Configuration,
    previous: ReferencePicture,
    future: ReferencePicture,
)
    requires
        fits_configuration(before, configuration),
        configuration.transform_bypass,
        planes_fit(
            previous.planes,
            configuration.macroblocks_wide as int,
            configuration.macroblocks_high as int,
        ),
    ensures
        ({
            let step = before.filled_in(
                configuration,
                previous,
                future,
                before.pending.len() as int,
            );
            step.fault is None ==> {
                &&& restored(before, step.state, waiting(before.pending))
                &&& fits_configuration(step.state, configuration)
            }
        }),
    decreases before.pending.len(),
{
    if before.pending.len() > 0 {
        let first = before.pending[0];
        let rest = before.without_first();
        let picture = rest.picture(configuration);
        let around = Surroundings {
            previous,
            future,
            picture_order_count: first.picture_order_count,
        };
        lemma_first_leaves(before, configuration);
        lemma_padded_fit(
            first.frame,
            configuration.macroblocks_wide as int,
            configuration.macroblocks_high as int,
        );
        law_lossless_b(
            rest.tables,
            picture,
            first.frame,
            around,
            rest.next_frame_num,
            first.pic_order_cnt_lsb,
        );
        lemma_one_more(
            rest,
            configuration,
            first.frame,
            crate::pictures::coded_b(
                rest.tables,
                picture,
                first.frame,
                around,
                rest.next_frame_num,
                first.pic_order_cnt_lsb,
            ),
            first.frame.timing,
            false,
            false,
            first.picture_order_count,
            configuration.max_references as int,
        );
        let step = rest.sent_b(configuration, first, previous, future);
        if step.fault is None {
            lemma_filled_restored(step.state, configuration, previous, future);
            let end = step.state.filled_in(
                configuration,
                previous,
                future,
                step.state.pending.len() as int,
            );
            if end.fault is None {
                assert(restored(before, step.state, seq![first.frame]));
                lemma_restored_twice(
                    before,
                    step.state,
                    end.state,
                    seq![first.frame],
                    waiting(step.state.pending),
                );
            }
        }
    }
}

/// A frame that others have waited for, and those that have waited for it.
proof fn lemma_anchor_restored(
    before: EncoderModel,
    configuration: Configuration,
    frame: FrameModel,
)
    requires
        fits_configuration(before, configuration),
        configuration.transform_bypass,
        before.references.len() > 0,
        frame_fits(
            frame,
            configuration.macroblocks_wide as int,
            configuration.macroblocks_high as int,
        ),
    ensures
        ({
            let step = before.sent_anchor(configuration, frame);
            step.fault is None ==> {
                &&& restored(before, step.state, seq![frame] + waiting(before.pending))
                &&& fits_configuration(step.state, configuration)
            }
        }),
{
    let lsb = display_order_lsb(before.frames_since_idr);
    let order = display_order(before.frames_since_idr);
    lemma_p_restored(before, configuration, frame, lsb, order);
    let step = before.sent_p(configuration, frame, lsb, order);
    if step.fault is None {
        lemma_filled_restored(
            step.state,
            configuration,
            before.references[0],
            step.state.references[0],
        );
        let filled = step.state.filled_in(
            configuration,
            before.references[0],
            step.state.references[0],
            step.state.pending.len() as int,
        );
        if filled.fault is None {
            lemma_restored_twice(
                before,
                step.state,
                filled.state,
                seq![frame],
                waiting(before.pending),
            );
        }
    }
}

/// A frame that was found to be in order.
proof fn lemma_taken_restored(before: EncoderModel, configuration: Configuration, frame: FrameModel)
    requires
        fits_configuration(before, configuration),
        loses_nothing(configuration),
        frame_fits(
            frame,
            configuration.macroblocks_wide as int,
            configuration.macroblocks_high as int,
        ),
    ensures
        ({
            let step = before.taken(configuration, frame);
            step.fault is None ==> {
                &&& restored(before, step.state, frames_coded(before, frame))
                &&& fits_configuration(step.state, configuration)
            }
        }),
{
    let timed = EncoderModel {
        decode_timestamps: before.decode_timestamps.push(frame.timing.pts),
        ..before
    };
    assert(fits_configuration(timed, configuration));
    let key = before.starts_group(configuration, frame);
    if configuration.mode != EncoderMode::Inter {
        lemma_idr_faithful(timed, configuration, frame);
        lemma_one_more(
            timed,
            configuration,
            frame,
            crate::pictures::coded_idr(timed.tables, timed.picture(configuration), frame, 0),
            frame.timing,
            true,
            false,
            0,
            0,
        );
    } else if configuration.b_frames == 0 {
        if key {
            lemma_idr_restored(timed, configuration, frame);
        } else {
            lemma_p_restored(
                timed,
                configuration,
                frame,
                0,
                display_order(timed.frames_since_idr),
            );
        }
    } else if key {
        lemma_drained_restored(timed, configuration);
        let drained = timed.drained(configuration, timed.pending.len() as int);
        if drained.fault is None {
            lemma_idr_restored(drained.state, configuration, frame);
            let step = drained.state.sent_idr(configuration, frame);
            if step.fault is None {
                lemma_restored_twice(
                    timed,
                    drained.state,
                    step.state,
                    waiting(before.pending),
                    seq![frame],
                );
                assert(waiting(before.pending) + seq![frame] =~= waiting(before.pending).push(
                    frame,
                ));
            }
        }
    } else if before.pending.len() < configuration.b_frames {
        let after = timed.put_back(frame);
        assert forall|i: int| 0 <= i < after.pending.len() implies frame_fits(
            (#[trigger] after.pending[i]).frame,
            configuration.macroblocks_wide as int,
            configuration.macroblocks_high as int,
        ) by {
            if i < before.pending.len() {
                assert(after.pending[i] == before.pending[i]);
            }
        }
    } else {
        lemma_anchor_restored(timed, configuration, frame);
    }
}

/// An encoder that has just been configured keeps nothing that does not fit.
pub proof fn law_configured_fits(before: EncoderModel, setup: Setup)
    requires
        setup.configuration.valid(),
    ensures
        fits_configuration(
            EncoderModel::configured(before.tables, setup),
            setup.configuration,
        ),
{
}

/// Where nothing is lost, each frame that becomes a picture when a frame is sent is given back with
/// all its samples and its times, and nothing else is given back.
pub proof fn law_frames_restored(
    before: EncoderModel,
    configuration: Configuration,
    frame: FrameModel,
)
    requires
        fits_configuration(before, configuration),
        loses_nothing(configuration),
        before.sent(frame).fault is None,
    ensures
        restored(before, before.sent(frame).state, frames_coded(before, frame)),
        fits_configuration(before.sent(frame).state, configuration),
{
    assert(frame_fault(frame, configuration.width as int, configuration.height as int) is None);
    lemma_taken_restored(before, configuration, frame);
}

/// Where nothing is lost, each frame that waits is given back with all its samples and its times at
/// the end.
pub proof fn law_waiting_restored(before: EncoderModel, configuration: Configuration)
    requires
        fits_configuration(before, configuration),
        loses_nothing(configuration),
        before.ended().fault is None,
    ensures
        restored(before, before.ended().state, waiting(before.pending)),
        fits_configuration(before.ended().state, configuration),
{
    lemma_drained_restored(before, configuration);
}

} // verus!
