//! Pictures, however their syntax elements become bits.

use vstd::prelude::*;

use crate::b_picture::{cavlc_b_picture, encode_cavlc_b_picture, surroundings_fit, Surroundings};
use crate::cabac_b::{cabac_b_picture, encode_cabac_b_picture};
use crate::cabac_intra::{cabac_predicted_idr, encode_cabac_predicted_idr};
use crate::cabac_p::{cabac_p_picture, encode_cabac_p_picture};
use crate::cabac_pcm::{cabac_pcm_idr, encode_cabac_ipcm_idr};
use crate::config::{Configuration, EncoderMode, EntropyCoding};
use crate::contexts::{ContextTables, Tables};
use crate::frame::{frame_fits, FrameModel, VideoFrame};
use crate::idr::{cavlc_idr, encode_cavlc_idr, EncodedFrame, EncodedModel};
use crate::motion::motions_small;
use crate::neighbors::rows;
use crate::p_picture::{cavlc_p_picture, encode_cavlc_p_picture};
use crate::p_select::{pictures, references_fit, EncoderReference, ReferencePicture};
use crate::picture::planes_fit;

verus! {

/// An encoded picture that stands alone.
pub open spec fn coded_idr(
    tables: Tables,
    configuration: Configuration,
    frame: FrameModel,
    pic_order_cnt_lsb: int,
) -> EncodedModel {
    if configuration.entropy_coding == EntropyCoding::Cavlc {
        cavlc_idr(configuration, frame, pic_order_cnt_lsb)
    } else if configuration.mode == EncoderMode::Ipcm {
        cabac_pcm_idr(configuration, frame, pic_order_cnt_lsb)
    } else {
        cabac_predicted_idr(tables.intra, configuration, frame, pic_order_cnt_lsb)
    }
}

/// An encoded picture that is predicted from earlier ones.
pub open spec fn coded_p(
    tables: Tables,
    configuration: Configuration,
    frame: FrameModel,
    references: Seq<ReferencePicture>,
    frame_num: int,
    pic_order_cnt_lsb: int,
) -> EncodedModel {
    if configuration.entropy_coding == EntropyCoding::Cavlc {
        cavlc_p_picture(configuration, frame, references, frame_num, pic_order_cnt_lsb)
    } else {
        cabac_p_picture(
            tables.predicted,
            configuration,
            frame,
            references,
            frame_num,
            pic_order_cnt_lsb,
        )
    }
}

/// An encoded picture that is predicted from both sides.
pub open spec fn coded_b(
    tables: Tables,
    configuration: Configuration,
    frame: FrameModel,
    around: Surroundings,
    frame_num: int,
    pic_order_cnt_lsb: int,
) -> EncodedModel {
    if configuration.entropy_coding == EntropyCoding::Cavlc {
        cavlc_b_picture(configuration, frame, around, frame_num, pic_order_cnt_lsb)
    } else {
        cabac_b_picture(
            tables.between,
            configuration,
            frame,
            around,
            frame_num,
            pic_order_cnt_lsb,
        )
    }
}

/// No motion is small.
proof fn lemma_no_motion(count: int)
    ensures
        motions_small(crate::idr::no_motion(count)),
{
}

proof fn lemma_idr_motion(
    tables: Tables,
    configuration: Configuration,
    frame: FrameModel,
    pic_order_cnt_lsb: int,
)
    ensures
        motions_small(coded_idr(tables, configuration, frame, pic_order_cnt_lsb).motion_l0),
{
    reveal(cavlc_idr);
    reveal(cabac_pcm_idr);
    reveal(cabac_predicted_idr);
    lemma_no_motion(configuration.macroblocks_wide * configuration.macroblocks_high);
}

/// Encodes a picture that stands alone.
pub fn encode_idr(
    frame: &VideoFrame,
    configuration: &Configuration,
    pic_order_cnt_lsb: u8,
    contexts: &ContextTables,
) -> (encoded: EncodedFrame)
    requires
        configuration.valid(),
        contexts@.valid(),
        frame_fits(
            frame@,
            configuration.macroblocks_wide as int,
            configuration.macroblocks_high as int,
        ),
    ensures
        encoded@ == coded_idr(
            contexts@,
            *configuration,
            frame@,
            pic_order_cnt_lsb as int,
        ),
        planes_fit(
            encoded.coded_reconstruction@,
            configuration.macroblocks_wide as int,
            configuration.macroblocks_high as int,
        ),
        motions_small(rows(encoded.motion_l0@)),
{
    proof {
        lemma_idr_motion(
            contexts@,
            *configuration,
            frame@,
            pic_order_cnt_lsb as int,
        );
    }
    let plain = match configuration.mode {
        EncoderMode::Ipcm => true,
        _ => false,
    };
    if let EntropyCoding::Cabac = configuration.entropy_coding {
        if plain {
            return encode_cabac_ipcm_idr(frame, configuration, pic_order_cnt_lsb);
        }
        return encode_cabac_predicted_idr(
            contexts.intra.as_slice(),
            frame,
            configuration,
            pic_order_cnt_lsb,
        );
    }
    encode_cavlc_idr(frame, configuration, pic_order_cnt_lsb)
}

/// Encodes a picture that is predicted from earlier ones.
pub fn encode_p_picture(
    frame: &VideoFrame,
    configuration: &Configuration,
    references: &[EncoderReference],
    frame_num: u8,
    pic_order_cnt_lsb: u8,
    contexts: &ContextTables,
) -> (encoded: EncodedFrame)
    requires
        configuration.valid(),
        configuration.mode == EncoderMode::Inter,
        contexts@.valid(),
        frame_fits(
            frame@,
            configuration.macroblocks_wide as int,
            configuration.macroblocks_high as int,
        ),
        references_fit(
            references@,
            configuration.macroblocks_wide as int,
            configuration.macroblocks_high as int,
        ),
    ensures
        encoded@ == coded_p(
            contexts@,
            *configuration,
            frame@,
            pictures(references@),
            frame_num as int,
            pic_order_cnt_lsb as int,
        ),
        planes_fit(
            encoded.coded_reconstruction@,
            configuration.macroblocks_wide as int,
            configuration.macroblocks_high as int,
        ),
        motions_small(rows(encoded.motion_l0@)),
{
    if let EntropyCoding::Cabac = configuration.entropy_coding {
        return encode_cabac_p_picture(
            contexts.predicted.as_slice(),
            frame,
            configuration,
            references,
            frame_num,
            pic_order_cnt_lsb,
        );
    }
    encode_cavlc_p_picture(frame, configuration, references, frame_num, pic_order_cnt_lsb)
}

/// Encodes a picture that is predicted from both sides.
pub fn encode_b_picture(
    frame: &VideoFrame,
    configuration: &Configuration,
    previous: &EncoderReference,
    future: &EncoderReference,
    frame_num: u8,
    pic_order_cnt_lsb: u8,
    picture_order_count: i32,
    contexts: &ContextTables,
) -> (encoded: EncodedFrame)
    requires
        configuration.valid(),
        configuration.mode == EncoderMode::Inter,
        contexts@.valid(),
        frame_fits(
            frame@,
            configuration.macroblocks_wide as int,
            configuration.macroblocks_high as int,
        ),
        surroundings_fit(
            previous,
            future,
            configuration.macroblocks_wide as int,
            configuration.macroblocks_high as int,
        ),
    ensures
        encoded@ == coded_b(
            contexts@,
            *configuration,
            frame@,
            (Surroundings {
                previous: previous@,
                future: future@,
                picture_order_count: picture_order_count as int,
            }),
            frame_num as int,
            pic_order_cnt_lsb as int,
        ),
        planes_fit(
            encoded.coded_reconstruction@,
            configuration.macroblocks_wide as int,
            configuration.macroblocks_high as int,
        ),
{
    if let EntropyCoding::Cabac = configuration.entropy_coding {
        return encode_cabac_b_picture(
            contexts.between.as_slice(),
            frame,
            configuration,
            previous,
            future,
            frame_num,
            pic_order_cnt_lsb,
            picture_order_count,
        );
    }
    encode_cavlc_b_picture(
        frame,
        configuration,
        previous,
        future,
        frame_num,
        pic_order_cnt_lsb,
        picture_order_count,
    )
}

} // verus!
