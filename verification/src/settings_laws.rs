//! What the settings of the encoder promise.

use vstd::prelude::*;

use crate::config::{Configuration, EncoderMode, EntropyCoding};
use crate::error::Fault;
use crate::lossless_streams::loses_nothing;
use crate::options::{Options, ProfilePreference};
use crate::parameter_sets::EncoderProfile;
use crate::scaling::ScalingMatrixPreset;
use crate::settings::{chosen_profile, profile_fault, Setup, VideoEncoderSettings};

verus! {

/// Whether a profile has fewer tools than another one.
pub open spec fn below(first: EncoderProfile, second: EncoderProfile) -> bool {
    match (first, second) {
        (EncoderProfile::Baseline, EncoderProfile::Main) => true,
        (EncoderProfile::Baseline, EncoderProfile::High) => true,
        (EncoderProfile::Main, EncoderProfile::High) => true,
        _ => false,
    }
}

/// Whether settings are refused because a profile lacks a tool.
pub open spec fn lacks_tool(fault: Option<Fault>) -> bool {
    ||| fault == Some(Fault::ProfileBetween)
    ||| fault == Some(Fault::ProfileArithmetic)
    ||| fault == Some(Fault::ProfileIntra8)
    ||| fault == Some(Fault::ProfileBypass)
    ||| fault == Some(Fault::ProfileScaling)
}

/// The named settings, where all of them can be read.
pub open spec fn named_options(settings: VideoEncoderSettings) -> Options {
    Options::all_named(settings.options@, settings.options@.len() as int)->Ok_0
}

/// A profile that is chosen without a wish is the smallest that will do: it lacks no tool that the
/// settings ask for, and each smaller one does.
pub proof fn law_smallest_profile(options: Options, bitrate: Option<u64>, other: EncoderProfile)
    requires
        options.profile == ProfilePreference::Auto,
    ensures
        !lacks_tool(profile_fault(options, chosen_profile(options), bitrate)),
        below(other, chosen_profile(options)) ==> profile_fault(options, other, bitrate) is Some,
{
}

/// Without a wish for a profile, pictures that are predicted from both sides and arithmetic coding
/// need the main profile, eight-by-eight prediction, coding without loss, and scaling matrices the
/// high one, and all else gets by with the baseline profile.
pub proof fn law_profile_by_tools(options: Options)
    requires
        options.profile == ProfilePreference::Auto,
    ensures
        chosen_profile(options) == EncoderProfile::High <==> options.mode == EncoderMode::Intra8
            || options.transform_bypass || options.scaling_matrix == ScalingMatrixPreset::Jvt,
        chosen_profile(options) == EncoderProfile::Baseline <==> options.mode
            != EncoderMode::Intra8 && !options.transform_bypass && options.scaling_matrix
            == ScalingMatrixPreset::Flat && options.b_frames == 0 && options.entropy_coding
            == EntropyCoding::Cavlc,
{
}

/// A stream whose settings are accepted names a profile that has all tools that its pictures use.
pub proof fn law_profile_has_tools(settings: VideoEncoderSettings, setup: Setup)
    requires
        settings.setup() == Ok::<Setup, crate::error::Error>(setup),
    ensures
        ({
            let configuration = setup.configuration;
            let profile = setup.sequence.profile;
            &&& configuration.b_frames != 0 ==> profile != EncoderProfile::Baseline
            &&& configuration.entropy_coding == EntropyCoding::Cabac ==> profile
                != EncoderProfile::Baseline
            &&& configuration.transform_8x8_mode ==> profile == EncoderProfile::High
            &&& configuration.transform_bypass ==> profile == EncoderProfile::High
            &&& configuration.scaling_matrix == ScalingMatrixPreset::Jvt ==> profile
                == EncoderProfile::High
        }),
{
}

/// What is said of the sequence agrees with how its pictures are encoded.
pub proof fn law_sequence_agrees(settings: VideoEncoderSettings, setup: Setup)
    requires
        settings.setup() == Ok::<Setup, crate::error::Error>(setup),
    ensures
        setup.sequence.width == setup.configuration.width == settings.width,
        setup.sequence.height == setup.configuration.height == settings.height,
        setup.sequence.macroblocks_wide == setup.configuration.macroblocks_wide,
        setup.sequence.macroblocks_high == setup.configuration.macroblocks_high,
        setup.sequence.max_references == setup.configuration.max_references,
        setup.sequence.pic_order_cnt_type0 == setup.configuration.pic_order_cnt_type0,
        setup.sequence.transform_bypass == setup.configuration.transform_bypass,
        setup.sequence.scaling_matrix == setup.configuration.scaling_matrix,
        setup.sequence.level == setup.configuration.level.level,
{
}

/// Settings that ask for no other macroblocks than plain samples, by name or by saying nothing of
/// them, lead to pictures that lose nothing; where they name nothing at all, the smallest profile
/// will do.
pub proof fn law_default_loses_nothing(settings: VideoEncoderSettings, setup: Setup)
    requires
        settings.setup() == Ok::<Setup, crate::error::Error>(setup),
        forall|i: int|
            0 <= i < settings.options@.len() && (#[trigger] settings.options@[i]).0 == "mode"@
                ==> settings.options@[i].1 == "ipcm"@,
    ensures
        setup.configuration.mode == EncoderMode::Ipcm,
        loses_nothing(setup.configuration),
        settings.options@.len() == 0 ==> setup.sequence.profile == EncoderProfile::Baseline,
{
    lemma_plain_named(settings.options@, settings.options@.len() as int);
}

/// As long as no other macroblocks are named, plain samples are used.
proof fn lemma_plain_named(list: Seq<(Seq<char>, Seq<char>)>, count: int)
    requires
        0 <= count <= list.len(),
        Options::all_named(list, count) is Ok,
        forall|i: int|
            0 <= i < list.len() && (#[trigger] list[i]).0 == "mode"@ ==> list[i].1 == "ipcm"@,
    ensures
        Options::all_named(list, count)->Ok_0.mode == EncoderMode::Ipcm,
    decreases count,
{
    if count > 0 {
        lemma_plain_named(list, count - 1);
        assert(list[count - 1].0 == "mode"@ ==> list[count - 1].1 == "ipcm"@);
    }
}

/// Where the transform is bypassed, pictures lose nothing, and the quantizer is zero throughout.
pub proof fn law_bypass_loses_nothing(settings: VideoEncoderSettings, setup: Setup)
    requires
        settings.setup() == Ok::<Setup, crate::error::Error>(setup),
        setup.configuration.transform_bypass,
    ensures
        loses_nothing(setup.configuration),
        setup.configuration.qp == 0,
        setup.configuration.aq_strength == 0,
        setup.rate_control is None,
{
}

/// The quantizer is controlled exactly where a rate is given, and the stream describes the buffer of
/// a decoder exactly where one is asked for.
pub proof fn law_rate_and_buffer(settings: VideoEncoderSettings, setup: Setup)
    requires
        settings.setup() == Ok::<Setup, crate::error::Error>(setup),
    ensures
        setup.rate_control is Some <==> settings.bitrate is Some,
        setup.sequence.hrd is Some <==> named_options(settings).vbv_buffer_milliseconds is Some,
        setup.sequence.hrd is Some ==> settings.bitrate is Some,
        setup.rate_control is Some ==> setup.configuration.mode != EncoderMode::Ipcm,
{
}

/// Pictures are reordered only where others are kept to predict them from both sides.
pub proof fn law_reordering(settings: VideoEncoderSettings, setup: Setup)
    requires
        settings.setup() == Ok::<Setup, crate::error::Error>(setup),
    ensures
        ({
            let configuration: Configuration = setup.configuration;
            &&& configuration.b_frames != 0 ==> configuration.mode == EncoderMode::Inter
                && configuration.max_references >= 2 && configuration.pic_order_cnt_type0
            &&& configuration.b_frames == 0 ==> !configuration.pic_order_cnt_type0
        }),
{
}

} // verus!
