//! How the encoder is set up.

use vstd::prelude::*;

use crate::config::{BDirectMode, Configuration, EncoderMode, EntropyCoding, LevelConfiguration};
use crate::error::{Error, Fault};
use crate::frame::{dimensions_fault, validate_dimensions, PixelFormat, Rational};
use crate::framing::{avcc_of, encode_avcc, law_avcc_round_trip, NAL_LENGTH_SIZE};
use crate::hrd::EncoderHrd;
use crate::levels::{negotiate_level, negotiated, LevelRequirements};
use crate::nal::record_sets;
use crate::option_map::OptionMap;
use crate::options::{read_options, Options, ProfilePreference};
use crate::parameter_sets::{
    encode_pps, encode_sps, law_identifiers, lemma_set_lengths, picture_set, EncoderProfile,
    SequenceConfiguration,
};
use crate::rate::{ceiling, RateControl};
use crate::scaling::ScalingMatrixPreset;

verus! {

/// What the encoder is asked for.
#[derive(Clone, Debug)]
pub struct VideoEncoderSettings {
    /// How wide pictures are.
    pub width: usize,
    /// How high pictures are.
    pub height: usize,
    /// How samples are laid out.
    pub pixel_format: PixelFormat,
    /// How long a tick is, in seconds.
    pub time_base: Rational,
    /// The bits in a second, if they are limited.
    pub bitrate: Option<u64>,
    /// Named settings.
    pub options: OptionMap,
}

/// What streams of this kind are called.
pub const CODEC_NAME: &'static str = "video/h264";

/// What containers call streams whose units stand behind their lengths: `avc1`.
pub const CODEC_TAG: [u8; 4] = [0x61, 0x76, 0x63, 0x31];

/// What a container stores of a stream.
#[derive(Clone, Debug)]
pub struct CodecDescriptor {
    /// What the stream is called.
    pub codec_id: &'static str,
    /// What containers call it.
    pub codec_tag: [u8; 4],
    /// The configuration record.
    pub configuration: Vec<u8>,
}

/// The macroblocks on a side.
pub open spec fn macroblocks_on(side: int) -> int {
    ceiling(side, 16)
}

/// Counts the macroblocks on a side.
fn count_macroblocks(side: usize) -> (count: usize)
    ensures
        count == macroblocks_on(side as int),
        side <= 16 * count < side + 16,
{
    if side % 16 == 0 {
        side / 16
    } else {
        side / 16 + 1
    }
}

/// How many pictures are kept for reference.
pub open spec fn kept_pictures(options: Options) -> int {
    let least: int = if options.b_frames == 0 {
        1
    } else {
        2
    };
    if options.max_references > least {
        options.max_references as int
    } else {
        least
    }
}

/// The profile.
pub open spec fn chosen_profile(options: Options) -> EncoderProfile {
    match options.profile {
        ProfilePreference::Auto => if options.mode == EncoderMode::Intra8
            || options.transform_bypass || options.scaling_matrix == ScalingMatrixPreset::Jvt {
            EncoderProfile::High
        } else if options.b_frames == 0 && options.entropy_coding == EntropyCoding::Cavlc {
            EncoderProfile::Baseline
        } else {
            EncoderProfile::Main
        },
        ProfilePreference::Baseline => EncoderProfile::Baseline,
        ProfilePreference::Main => EncoderProfile::Main,
        ProfilePreference::High => EncoderProfile::High,
    }
}

/// Whether settings do not go together, apart from the profile.
pub open spec fn options_fault(options: Options, bitrate: Option<u64>) -> Option<Fault> {
    if options.mode != EncoderMode::Inter && (options.max_references != 1 || options.b_frames
        != 0) {
        Some(Fault::InterOnly)
    } else if options.b_direct_mode == BDirectMode::Temporal && (options.mode != EncoderMode::Inter
        || options.b_frames == 0) {
        Some(Fault::TemporalOnly)
    } else if options.mode == EncoderMode::Ipcm && options.aq_strength != 0 {
        Some(Fault::AdaptivePlain)
    } else if options.vbv_buffer_milliseconds is Some && bitrate is None {
        Some(Fault::BufferWithoutRate)
    } else {
        None
    }
}

/// Whether settings do not go together with the profile.
pub open spec fn profile_fault(
    options: Options,
    profile: EncoderProfile,
    bitrate: Option<u64>,
) -> Option<Fault> {
    if profile == EncoderProfile::Baseline && options.b_frames != 0 {
        Some(Fault::ProfileBetween)
    } else if options.entropy_coding == EntropyCoding::Cabac && profile
        == EncoderProfile::Baseline {
        Some(Fault::ProfileArithmetic)
    } else if options.mode == EncoderMode::Intra8 && profile != EncoderProfile::High {
        Some(Fault::ProfileIntra8)
    } else if options.transform_bypass && profile != EncoderProfile::High {
        Some(Fault::ProfileBypass)
    } else if options.transform_bypass && options.mode != EncoderMode::Intra4 && options.mode
        != EncoderMode::Inter {
        Some(Fault::BypassMode)
    } else if options.transform_bypass && (options.qp != 0 || options.aq_strength != 0 || bitrate
        is Some) {
        Some(Fault::BypassQuantizer)
    } else if options.scaling_matrix == ScalingMatrixPreset::Jvt && profile
        != EncoderProfile::High {
        Some(Fault::ProfileScaling)
    } else if options.scaling_matrix == ScalingMatrixPreset::Jvt && options.transform_bypass {
        Some(Fault::BypassScaling)
    } else {
        None
    }
}

/// The buffer that a decoder needs, if one was asked for.
pub open spec fn chosen_buffer(
    options: Options,
    bitrate: Option<u64>,
    time_base: Rational,
) -> Result<Option<EncoderHrd>, Error> {
    match (options.vbv_buffer_milliseconds, bitrate) {
        (Some(milliseconds), Some(rate)) => match EncoderHrd::described(
            rate as int,
            milliseconds as int,
            time_base,
            options.b_frames,
        ) {
            Ok(hrd) => Ok(Some(hrd)),
            Err(error) => Err(error),
        },
        _ => Ok(None),
    }
}

/// The control of the quantizer, if a rate was asked for.
pub open spec fn chosen_control(
    options: Options,
    bitrate: Option<u64>,
    time_base: Rational,
    hrd: Option<EncoderHrd>,
) -> Result<Option<RateControl>, Error> {
    match bitrate {
        None => Ok(None),
        Some(rate) => if options.mode == EncoderMode::Ipcm {
            Err(Error::Unsupported(Fault::RatePlain))
        } else {
            match RateControl::new_fault(rate as int, time_base) {
                Some(error) => Err(error),
                None => Ok(
                    Some(
                        RateControl::fresh(
                            rate,
                            time_base,
                            options.qp,
                            match hrd {
                                Some(found) => Some(found.cpb_size.signalled),
                                None => None,
                            },
                        ),
                    ),
                ),
            }
        },
    }
}

/// What a sequence needs of a level.
pub open spec fn needs(
    options: Options,
    wide: int,
    high: int,
    time_base: Rational,
    bitrate: Option<u64>,
    hrd: Option<EncoderHrd>,
) -> LevelRequirements {
    let pictures = kept_pictures(options) + if options.b_frames != 0 {
        1int
    } else {
        0
    };
    LevelRequirements {
        width_in_macroblocks: wide as usize,
        height_in_macroblocks: high as usize,
        macroblocks_per_frame: (wide * high) as usize,
        decoded_picture_buffer_macroblocks: (wide * high * pictures) as usize,
        frame_duration_ticks: options.frame_duration_ticks,
        time_base,
        bitrate: match hrd {
            Some(found) => Some(found.bit_rate.signalled),
            None => bitrate,
        },
        cpb_size: match hrd {
            Some(found) => Some(found.cpb_size.signalled),
            None => None,
        },
    }
}

/// Whether eight-by-eight transforms are used.
pub open spec fn large_transforms(options: Options, profile: EncoderProfile) -> bool {
    options.mode == EncoderMode::Intra8 || (options.mode == EncoderMode::Inter && profile
        == EncoderProfile::High && !options.transform_bypass)
}

/// How the encoder is set up.
#[derive(Clone, Copy, Debug)]
pub struct Setup {
    /// How pictures are encoded.
    pub configuration: Configuration,
    /// What the stream says of the sequence.
    pub sequence: SequenceConfiguration,
    /// The control of the quantizer.
    pub rate_control: Option<RateControl>,
}

/// How the encoder is set up once everything is known.
pub open spec fn setup_of(
    width: usize,
    height: usize,
    time_base: Rational,
    options: Options,
    hrd: Option<EncoderHrd>,
    rate_control: Option<RateControl>,
    level: crate::config::AvcLevel,
) -> Setup {
    let wide = macroblocks_on(width as int) as usize;
    let high = macroblocks_on(height as int) as usize;
    let profile = chosen_profile(options);
    let kept = kept_pictures(options) as usize;
    Setup {
        configuration: Configuration {
            width,
            height,
            macroblocks_wide: wide,
            macroblocks_high: high,
            mode: options.mode,
            qp: options.qp,
            gop_size: options.gop_size,
            search_range: options.search_range,
            analysis: options.analysis,
            scene_cut_threshold: options.scene_cut_threshold,
            max_references: kept,
            b_frames: options.b_frames,
            b_direct_mode: options.b_direct_mode,
            aq_strength: options.aq_strength,
            pic_order_cnt_type0: options.b_frames != 0,
            transform_8x8_mode: large_transforms(options, profile),
            transform_bypass: options.transform_bypass,
            entropy_coding: options.entropy_coding,
            scaling_matrix: options.scaling_matrix,
            level: LevelConfiguration {
                level,
                macroblocks_per_frame: (wide * high) as usize,
                default_frame_duration_ticks: options.frame_duration_ticks,
                time_base,
            },
        },
        sequence: SequenceConfiguration {
            width,
            height,
            macroblocks_wide: wide,
            macroblocks_high: high,
            max_references: kept,
            pic_order_cnt_type0: options.b_frames != 0,
            hrd,
            profile,
            transform_bypass: options.transform_bypass,
            scaling_matrix: options.scaling_matrix,
            bt709: options.bt709,
            level,
        },
        rate_control,
    }
}

/// Whether pictures have a size that cannot be encoded.
pub open spec fn size_fault(width: int, height: int) -> Option<Error> {
    let count = macroblocks_on(width) * macroblocks_on(height);
    if count > usize::MAX {
        Some(Error::InvalidData(Fault::MacroblockCount))
    } else if count > 36_864 {
        Some(Error::Unsupported(Fault::TooManyMacroblocks))
    } else {
        None
    }
}

/// How the encoder is set up by settings that were read, or why it cannot be.
pub open spec fn planned(
    width: usize,
    height: usize,
    time_base: Rational,
    bitrate: Option<u64>,
    options: Options,
) -> Result<Setup, Error> {
    let wide = macroblocks_on(width as int);
    let high = macroblocks_on(height as int);
    match size_fault(width as int, height as int) {
        Some(error) => Err(error),
        None => if time_base.numerator <= 0 || time_base.denominator <= 0 {
            Err(Error::Unsupported(Fault::TimeBase))
        } else {
            match options_fault(options, bitrate) {
                Some(fault) => Err(Error::Unsupported(fault)),
                None => match profile_fault(options, chosen_profile(options), bitrate) {
                    Some(fault) => Err(Error::Unsupported(fault)),
                    None => match chosen_buffer(options, bitrate, time_base) {
                        Err(error) => Err(error),
                        Ok(hrd) => match chosen_control(options, bitrate, time_base, hrd) {
                            Err(error) => Err(error),
                            Ok(control) => match negotiated(
                                options.level,
                                needs(options, wide, high, time_base, bitrate, hrd),
                            ) {
                                Err(error) => Err(error),
                                Ok(level) => Ok(
                                    setup_of(
                                        width,
                                        height,
                                        time_base,
                                        options,
                                        hrd,
                                        control,
                                        level,
                                    ),
                                ),
                            },
                        },
                    },
                },
            }
        },
    }
}

impl VideoEncoderSettings {
    /// How the encoder is set up, or why it cannot be.
    pub open spec fn setup(&self) -> Result<Setup, Error> {
        match dimensions_fault(self.width as int, self.height as int) {
            Some(error) => Err(error),
            None => if self.pixel_format != PixelFormat::Yuv420p8 {
                Err(Error::Unsupported(Fault::InputFormat))
            } else {
                match Options::all_named(self.options@, self.options@.len() as int) {
                    Err(error) => Err(error),
                    Ok(options) => planned(
                        self.width,
                        self.height,
                        self.time_base,
                        self.bitrate,
                        options,
                    ),
                }
            },
        }
    }
}

impl Setup {
    /// Whether everything is in range.
    pub open spec fn valid(&self) -> bool {
        &&& self.configuration.valid()
        &&& self.sequence.valid()
        &&& self.rate_control matches Some(control) ==> control.valid()
    }

    /// The configuration record.
    pub open spec fn record(&self) -> Seq<u8> {
        avcc_of(
            self.sequence.unit(),
            picture_set(
                self.configuration.transform_8x8_mode,
                self.configuration.entropy_coding == EntropyCoding::Cabac,
            ),
        )
    }

    /// Writes what a container stores of the stream.
    pub fn descriptor(&self) -> (descriptor: CodecDescriptor)
        requires
            self.valid(),
        ensures
            descriptor.configuration@ == self.record(),
            descriptor.codec_id == CODEC_NAME,
            descriptor.codec_tag == CODEC_TAG,
    {
        let sps: Vec<u8> = encode_sps(&self.sequence);
        let pps: Vec<u8> = encode_pps(
            self.configuration.transform_8x8_mode,
            self.configuration.entropy_coding,
        );
        let configuration: Vec<u8> = match encode_avcc(sps.as_slice(), pps.as_slice()) {
            Ok(record) => record,
            Err(_) => Vec::new(),
        };
        CodecDescriptor { codec_id: CODEC_NAME, codec_tag: CODEC_TAG, configuration }
    }
}

/// Checks that settings go together, apart from the profile.
fn check_options(options: &Options, bitrate: Option<u64>) -> (fault: Option<Fault>)
    ensures
        fault == options_fault(*options, bitrate),
{
    if options.mode != EncoderMode::Inter && (options.max_references != 1 || options.b_frames
        != 0) {
        Some(Fault::InterOnly)
    } else if options.b_direct_mode == BDirectMode::Temporal && (options.mode != EncoderMode::Inter
        || options.b_frames == 0) {
        Some(Fault::TemporalOnly)
    } else if options.mode == EncoderMode::Ipcm && options.aq_strength != 0 {
        Some(Fault::AdaptivePlain)
    } else if options.vbv_buffer_milliseconds.is_some() && bitrate.is_none() {
        Some(Fault::BufferWithoutRate)
    } else {
        None
    }
}

/// Chooses the profile.
fn choose_profile(options: &Options) -> (profile: EncoderProfile)
    ensures
        profile == chosen_profile(*options),
{
    match options.profile {
        ProfilePreference::Auto => if options.mode == EncoderMode::Intra8
            || options.transform_bypass || options.scaling_matrix == ScalingMatrixPreset::Jvt {
            EncoderProfile::High
        } else if options.b_frames == 0 && options.entropy_coding == EntropyCoding::Cavlc {
            EncoderProfile::Baseline
        } else {
            EncoderProfile::Main
        },
        ProfilePreference::Baseline => EncoderProfile::Baseline,
        ProfilePreference::Main => EncoderProfile::Main,
        ProfilePreference::High => EncoderProfile::High,
    }
}

/// Checks that settings go together with the profile.
fn check_profile(options: &Options, profile: EncoderProfile, bitrate: Option<u64>) -> (fault:
    Option<Fault>)
    ensures
        fault == profile_fault(*options, profile, bitrate),
{
    if profile == EncoderProfile::Baseline && options.b_frames != 0 {
        Some(Fault::ProfileBetween)
    } else if options.entropy_coding == EntropyCoding::Cabac && profile
        == EncoderProfile::Baseline {
        Some(Fault::ProfileArithmetic)
    } else if options.mode == EncoderMode::Intra8 && profile != EncoderProfile::High {
        Some(Fault::ProfileIntra8)
    } else if options.transform_bypass && profile != EncoderProfile::High {
        Some(Fault::ProfileBypass)
    } else if options.transform_bypass && options.mode != EncoderMode::Intra4 && options.mode
        != EncoderMode::Inter {
        Some(Fault::BypassMode)
    } else if options.transform_bypass && (options.qp != 0 || options.aq_strength != 0
        || bitrate.is_some()) {
        Some(Fault::BypassQuantizer)
    } else if options.scaling_matrix == ScalingMatrixPreset::Jvt && profile
        != EncoderProfile::High {
        Some(Fault::ProfileScaling)
    } else if options.scaling_matrix == ScalingMatrixPreset::Jvt && options.transform_bypass {
        Some(Fault::BypassScaling)
    } else {
        None
    }
}

/// Describes the buffer that a decoder needs, if one was asked for.
fn choose_buffer(options: &Options, bitrate: Option<u64>, time_base: Rational) -> (result: Result<
    Option<EncoderHrd>,
    Error,
>)
    requires
        options.valid(),
    ensures
        result == chosen_buffer(*options, bitrate, time_base),
        result matches Ok(Some(hrd)) ==> hrd.valid(),
{
    if let Some(milliseconds) = options.vbv_buffer_milliseconds {
        if let Some(rate) = bitrate {
            return match EncoderHrd::new(rate, milliseconds, time_base, options.b_frames) {
                Ok(hrd) => Ok(Some(hrd)),
                Err(error) => Err(error),
            };
        }
    }
    Ok(None)
}

/// Makes the control of the quantizer, if a rate was asked for.
fn choose_control(
    options: &Options,
    bitrate: Option<u64>,
    time_base: Rational,
    hrd: Option<EncoderHrd>,
) -> (result: Result<Option<RateControl>, Error>)
    requires
        options.valid(),
    ensures
        result == chosen_control(*options, bitrate, time_base, hrd),
        result matches Ok(Some(control)) ==> control.valid(),
{
    let rate: u64 = match bitrate {
        None => {
            return Ok(None);
        },
        Some(rate) => rate,
    };
    if options.mode == EncoderMode::Ipcm {
        return Err(Error::Unsupported(Fault::RatePlain));
    }
    let size: Option<u64> = match hrd {
        Some(found) => Some(found.signalled_cpb_size()),
        None => None,
    };
    match RateControl::new(rate, time_base, options.qp, size) {
        Ok(control) => Ok(Some(control)),
        Err(error) => Err(error),
    }
}

/// Counts the pictures that are kept for reference.
fn count_kept(options: &Options) -> (count: usize)
    requires
        options.valid(),
    ensures
        count == kept_pictures(*options),
        1 <= count <= 4,
        options.b_frames != 0 ==> count >= 2,
{
    let least: usize = if options.b_frames == 0 {
        1
    } else {
        2
    };
    if options.max_references > least {
        options.max_references
    } else {
        least
    }
}

/// The lowest level has a number.
proof fn lemma_level_numbered(preference: crate::levels::LevelPreference, requirements: LevelRequirements)
    requires
        preference matches crate::levels::LevelPreference::Exact(level) ==> level.level_idc != 0,
    ensures
        negotiated(preference, requirements) matches Ok(level) ==> level.level_idc != 0,
{
    if preference is Auto {
        crate::levels::law_lowest_level(requirements, 0);
        reveal(crate::levels::level_entry);
    }
}

/// A level that has a name has a number.
proof fn lemma_wish_numbered(value: Seq<char>, index: int)
    requires
        0 <= index <= crate::levels::LEVEL_COUNT,
    ensures
        crate::options::named_level(value, index) matches Some(
            crate::levels::LevelPreference::Exact(level),
        ) ==> level.level_idc != 0,
    decreases crate::levels::LEVEL_COUNT - index,
{
    if index < crate::levels::LEVEL_COUNT {
        lemma_wish_numbered(value, index + 1);
        reveal(crate::levels::level_entry);
    }
}

proof fn lemma_options_numbered(list: Seq<(Seq<char>, Seq<char>)>, count: int)
    requires
        0 <= count,
    ensures
        Options::all_named(list, count) matches Ok(options) ==> (options.level matches
            crate::levels::LevelPreference::Exact(level) ==> level.level_idc != 0),
    decreases count,
{
    if count > 0 {
        lemma_options_numbered(list, count - 1);
        lemma_wish_numbered(list[count - 1].1, 0);
    }
}

/// Sets the encoder up by settings that were read.
fn plan(
    width: usize,
    height: usize,
    time_base: Rational,
    bitrate: Option<u64>,
    options: &Options,
) -> (result: Result<Setup, Error>)
    requires
        options.valid(),
        dimensions_fault(width as int, height as int) is None,
        options.level matches crate::levels::LevelPreference::Exact(level) ==> level.level_idc != 0,
    ensures
        result == planned(width, height, time_base, bitrate, *options),
        result matches Ok(setup) ==> setup.valid(),
{
    let wide: usize = count_macroblocks(width);
    let high: usize = count_macroblocks(height);
    let count: usize = match wide.checked_mul(high) {
        Some(count) => count,
        None => {
            return Err(Error::InvalidData(Fault::MacroblockCount));
        },
    };
    if count > 36_864 {
        return Err(Error::Unsupported(Fault::TooManyMacroblocks));
    }
    if time_base.numerator <= 0 || time_base.denominator <= 0 {
        return Err(Error::Unsupported(Fault::TimeBase));
    }
    if let Some(fault) = check_options(options, bitrate) {
        return Err(Error::Unsupported(fault));
    }
    let profile: EncoderProfile = choose_profile(options);
    if let Some(fault) = check_profile(options, profile, bitrate) {
        return Err(Error::Unsupported(fault));
    }
    let hrd: Option<EncoderHrd> = match choose_buffer(options, bitrate, time_base) {
        Ok(hrd) => hrd,
        Err(error) => {
            return Err(error);
        },
    };
    let rate_control: Option<RateControl> = match choose_control(options, bitrate, time_base, hrd) {
        Ok(control) => control,
        Err(error) => {
            return Err(error);
        },
    };
    let kept: usize = count_kept(options);
    let pictures: usize = if options.b_frames != 0 {
        kept + 1
    } else {
        kept
    };
    proof {
        assert(wide > 0 && high > 0);
        assert(0 < wide * high && wide <= wide * high && high <= wide * high) by (nonlinear_arith)
            requires
                wide > 0,
                high > 0,
        ;
        assert(count * pictures <= 36_864 * 5) by (nonlinear_arith)
            requires
                count <= 36_864,
                pictures <= 5,
        ;
    }
    let requirements = LevelRequirements {
        width_in_macroblocks: wide,
        height_in_macroblocks: high,
        macroblocks_per_frame: count,
        decoded_picture_buffer_macroblocks: count * pictures,
        frame_duration_ticks: options.frame_duration_ticks,
        time_base,
        bitrate: match hrd {
            Some(found) => Some(found.signalled_bit_rate()),
            None => bitrate,
        },
        cpb_size: match hrd {
            Some(found) => Some(found.signalled_cpb_size()),
            None => None,
        },
    };
    assert(requirements == needs(*options, wide as int, high as int, time_base, bitrate, hrd));
    proof {
        lemma_level_numbered(options.level, requirements);
    }
    let level: crate::config::AvcLevel = match negotiate_level(options.level, requirements) {
        Ok(level) => level,
        Err(error) => {
            return Err(error);
        },
    };
    let large = options.mode == EncoderMode::Intra8 || (options.mode == EncoderMode::Inter && profile
        == EncoderProfile::High && !options.transform_bypass);
    let setup = Setup {
        configuration: Configuration {
            width,
            height,
            macroblocks_wide: wide,
            macroblocks_high: high,
            mode: options.mode,
            qp: options.qp,
            gop_size: options.gop_size,
            search_range: options.search_range,
            analysis: options.analysis,
            scene_cut_threshold: options.scene_cut_threshold,
            max_references: kept,
            b_frames: options.b_frames,
            b_direct_mode: options.b_direct_mode,
            aq_strength: options.aq_strength,
            pic_order_cnt_type0: options.b_frames != 0,
            transform_8x8_mode: large,
            transform_bypass: options.transform_bypass,
            entropy_coding: options.entropy_coding,
            scaling_matrix: options.scaling_matrix,
            level: LevelConfiguration {
                level,
                macroblocks_per_frame: count,
                default_frame_duration_ticks: options.frame_duration_ticks,
                time_base,
            },
        },
        sequence: SequenceConfiguration {
            width,
            height,
            macroblocks_wide: wide,
            macroblocks_high: high,
            max_references: kept,
            pic_order_cnt_type0: options.b_frames != 0,
            hrd,
            profile,
            transform_bypass: options.transform_bypass,
            scaling_matrix: options.scaling_matrix,
            bt709: options.bt709,
            level,
        },
        rate_control,
    };
    Ok(setup)
}

impl VideoEncoderSettings {
    /// Sets the encoder up.
    ///
    /// # Errors
    ///
    /// Returns an error when settings are not known, are out of range, or do not go together.
    pub fn plan(&self) -> (result: Result<Setup, Error>)
        ensures
            result == self.setup(),
            result matches Ok(setup) ==> setup.valid(),
    {
        if let Err(error) = validate_dimensions(self.width, self.height) {
            return Err(error);
        }
        if self.pixel_format != PixelFormat::Yuv420p8 {
            return Err(Error::Unsupported(Fault::InputFormat));
        }
        let options: Options = match read_options(self.options.entries()) {
            Ok(options) => options,
            Err(error) => {
                return Err(error);
            },
        };
        proof {
            lemma_options_numbered(self.options@, self.options@.len() as int);
        }
        plan(self.width, self.height, self.time_base, self.bitrate, &options)
    }
}

/// Parsing the configuration record of a stream gives back its two parameter sets, a four-byte
/// length field, and the profile and the level that the stream was set up with.
pub proof fn law_record_read_back(setup: Setup)
    requires
        setup.valid(),
    ensures
        record_sets(setup.record()) == Ok::<(Seq<Seq<u8>>, Seq<Seq<u8>>), Error>(
            (
                seq![setup.sequence.unit()],
                seq![
                    picture_set(
                        setup.configuration.transform_8x8_mode,
                        setup.configuration.entropy_coding == EntropyCoding::Cabac,
                    ),
                ],
            ),
        ),
        setup.record()[1] == setup.sequence.profile.number(),
        setup.record()[2] == setup.sequence.flags(),
        setup.record()[3] == setup.sequence.level.level_idc,
        setup.record()[4] as int % 4 + 1 == NAL_LENGTH_SIZE,
{
    let cabac = setup.configuration.entropy_coding == EntropyCoding::Cabac;
    lemma_set_lengths(setup.sequence, setup.configuration.transform_8x8_mode, cabac);
    law_identifiers(setup.sequence);
    law_avcc_round_trip(
        setup.sequence.unit(),
        picture_set(setup.configuration.transform_8x8_mode, cabac),
    );
}

} // verus!
