//! The named settings of the encoder.

use vstd::prelude::*;
use vstd::string::StrSliceExecFns;

use crate::config::{AnalysisPreset, BDirectMode, EncoderMode, EntropyCoding};
use crate::error::{Error, Fault};
use crate::levels::{level_at, level_entry, LevelPreference, LEVEL_COUNT};
use crate::scaling::ScalingMatrixPreset;

verus! {

/// A wish for a profile.
#[derive(Clone, Copy, Debug, PartialEq, Eq, Structural)]
pub enum ProfilePreference {
    /// The smallest one that has the tools.
    Auto,
    /// The baseline profile.
    Baseline,
    /// The main profile.
    Main,
    /// The high profile.
    High,
}

/// The named settings.
#[derive(Clone, Copy, Debug)]
pub struct Options {
    /// Which macroblocks are used.
    pub mode: EncoderMode,
    /// The quantizer.
    pub qp: i32,
    /// How many pictures lie between two that stand alone.
    pub gop_size: usize,
    /// How far motion is searched, in samples.
    pub search_range: i32,
    /// How thoroughly motion is searched.
    pub analysis: AnalysisPreset,
    /// The mean sample difference at which a new scene starts, or zero.
    pub scene_cut_threshold: u8,
    /// How many pictures are kept for reference.
    pub max_references: usize,
    /// How many pictures are predicted from both sides.
    pub b_frames: usize,
    /// How motion is derived where none is coded.
    pub b_direct_mode: BDirectMode,
    /// How much quantizers vary in a picture.
    pub aq_strength: u8,
    /// How many milliseconds the buffer of a decoder holds.
    pub vbv_buffer_milliseconds: Option<u64>,
    /// The wish for a profile.
    pub profile: ProfilePreference,
    /// Whether coding is without loss.
    pub transform_bypass: bool,
    /// How syntax elements become bits.
    pub entropy_coding: EntropyCoding,
    /// The scaling matrices.
    pub scaling_matrix: ScalingMatrixPreset,
    /// The wish for a level.
    pub level: LevelPreference,
    /// How long a frame lasts that does not say so.
    pub frame_duration_ticks: u64,
    /// Whether samples stand for colors of high-definition television.
    pub bt709: bool,
}

/// Whether a character is a decimal digit.
pub open spec fn is_digit(c: char) -> bool {
    '0' <= c && c <= '9'
}

/// The value of decimal digits.
pub open spec fn digits_value(text: Seq<char>) -> int
    decreases text.len(),
{
    if text.len() == 0 {
        0
    } else {
        10 * digits_value(text.drop_last()) + (text.last() as int - '0' as int)
    }
}

/// Whether a text is one or more decimal digits.
pub open spec fn all_digits(text: Seq<char>) -> bool {
    text.len() > 0 && forall|i: int| 0 <= i < text.len() ==> is_digit(#[trigger] text[i])
}

/// The number that a text stands for: digits, behind a sign where one is allowed.
pub open spec fn number_of(text: Seq<char>, signed: bool) -> Option<int> {
    if text.len() > 0 && text[0] == '+' && all_digits(text.skip(1)) {
        Some(digits_value(text.skip(1)))
    } else if signed && text.len() > 0 && text[0] == '-' && all_digits(text.skip(1)) {
        Some(-digits_value(text.skip(1)))
    } else if all_digits(text) {
        Some(digits_value(text))
    } else {
        None
    }
}

/// The number that a text stands for, if it lies in a range.
pub open spec fn number_within(text: Seq<char>, signed: bool, low: int, high: int) -> Option<int> {
    match number_of(text, signed) {
        Some(value) if low <= value <= high => Some(value),
        _ => None,
    }
}

proof fn lemma_digits_grow(text: Seq<char>, count: int)
    requires
        0 <= count <= text.len(),
        forall|i: int| 0 <= i < text.len() ==> is_digit(#[trigger] text[i]),
    ensures
        0 <= digits_value(text.take(count)) <= digits_value(text),
    decreases text.len(),
{
    if text.len() > 0 {
        let shorter = text.drop_last();
        assert forall|i: int| 0 <= i < shorter.len() implies is_digit(#[trigger] shorter[i]) by {
            assert(shorter[i] == text[i]);
        }
        assert(is_digit(text[text.len() - 1]));
        lemma_digits_grow(shorter, 0);
        assert(shorter.take(0) =~= Seq::empty());
        if count == text.len() {
            assert(text.take(count) =~= text);
        } else {
            lemma_digits_grow(shorter, count);
            assert(shorter.take(count) =~= text.take(count));
        }
    } else {
        assert(text.take(count) =~= text);
    }
}

/// Whether two texts are the same.
pub(crate) fn same_text(left: &str, right: &str) -> (same: bool)
    ensures
        same == (left@ == right@),
{
    let length: usize = left.unicode_len();
    if length != right.unicode_len() {
        return false;
    }
    let mut i: usize = 0;
    while i < length
        invariant
            i <= length,
            length == left@.len(),
            length == right@.len(),
            forall|j: int| 0 <= j < i ==> left@[j] == right@[j],
        decreases length - i,
    {
        if left.get_char(i) != right.get_char(i) {
            return false;
        }
        i = i + 1;
    }
    assert(left@ =~= right@);
    true
}

/// Reads the digits of a text from some place on, if their value is no larger than `high`.
fn parse_digits(text: &str, start: usize, high: u64) -> (value: Option<u64>)
    requires
        start <= text@.len(),
    ensures
        match value {
            Some(found) => all_digits(text@.skip(start as int)) && found == digits_value(
                text@.skip(start as int),
            ) && found <= high,
            None => !all_digits(text@.skip(start as int)) || digits_value(
                text@.skip(start as int),
            ) > high,
        },
{
    let length: usize = text.unicode_len();
    let ghost rest = text@.skip(start as int);
    if start == length {
        return None;
    }
    let mut value: u128 = 0;
    let mut i: usize = start;
    let mut large = false;
    assert(rest.take(0) =~= Seq::empty());
    while i < length
        invariant
            start <= i <= length,
            length == text@.len(),
            rest == text@.skip(start as int),
            forall|j: int| 0 <= j < i - start ==> is_digit(#[trigger] rest[j]),
            large ==> digits_value(rest.take(i - start)) > high,
            !large ==> value == digits_value(rest.take(i - start)) && value <= high,
        decreases length - i,
    {
        let c: char = text.get_char(i);
        let ghost at = i - start;
        assert(rest[at] == c);
        if c < '0' || c > '9' {
            assert(!is_digit(rest[at]));
            return None;
        }
        let digit: u128 = c as u128 - '0' as u128;
        proof {
            let longer = rest.take(at + 1);
            assert(longer.drop_last() =~= rest.take(at));
            assert(longer.last() == c);
        }
        proof {
            lemma_digits_grow(rest.take(at), 0);
            assert(rest.take(at).take(0) =~= Seq::empty());
        }
        if !large {
            value = value * 10 + digit;
            if value > high as u128 {
                large = true;
            }
        }
        i = i + 1;
    }
    assert(rest.take(length - start) =~= rest);
    if large {
        None
    } else {
        Some(value as u64)
    }
}

/// Reads a number that may have a sign, if it lies between `low` and `high`.
fn parse_number(text: &str, signed: bool, low: u64, high: u64) -> (value: Option<u64>)
    ensures
        match value {
            Some(found) => number_within(text@, signed, low as int, high as int) == Some(
                found as int,
            ),
            None => number_within(text@, signed, low as int, high as int) is None,
        },
{
    let length: usize = text.unicode_len();
    if length == 0 {
        return None;
    }
    let first: char = text.get_char(0);
    let ghost rest = text@.skip(1);
    assert(text@.skip(0) =~= text@);
    if first == '+' {
        assert(!is_digit(text@[0]));
        return within(parse_digits(text, 1, high), low);
    }
    if signed && first == '-' {
        assert(!is_digit(text@[0]));
        let found: Option<u64> = parse_digits(text, 1, 0);
        proof {
            if all_digits(rest) {
                lemma_digits_grow(rest, 0);
            }
        }
        return within(found, low);
    }
    within(parse_digits(text, 0, high), low)
}

/// A number that is not too small.
fn within(value: Option<u64>, low: u64) -> (result: Option<u64>)
    ensures
        result == (match value {
            Some(found) if found >= low => Some(found),
            _ => None,
        }),
{
    match value {
        Some(found) => if found >= low {
            Some(found)
        } else {
            None
        },
        None => None,
    }
}

/// The first level from some index on that has a name.
pub open spec fn named_level(name: Seq<char>, index: int) -> Option<LevelPreference>
    decreases LEVEL_COUNT - index,
{
    if index >= LEVEL_COUNT {
        None
    } else if level_entry(index).name@ == name {
        Some(LevelPreference::Exact(level_entry(index)))
    } else {
        named_level(name, index + 1)
    }
}

/// The wish for a level that a text stands for.
pub open spec fn level_wish(value: Seq<char>) -> Option<LevelPreference> {
    if value == "auto"@ {
        Some(LevelPreference::Auto)
    } else {
        named_level(value, 0)
    }
}

/// Reads a wish for a level.
pub fn parse_level_preference(value: &str) -> (preference: Option<LevelPreference>)
    ensures
        preference == level_wish(value@),
{
    if same_text(value, "auto") {
        return Some(LevelPreference::Auto);
    }
    let mut index: usize = 0;
    while index < LEVEL_COUNT
        invariant
            index <= LEVEL_COUNT,
            value@ != "auto"@,
            named_level(value@, 0) == named_level(value@, index as int),
        decreases LEVEL_COUNT - index,
    {
        let level = level_at(index);
        if same_text(level.name, value) {
            return Some(LevelPreference::Exact(level));
        }
        index = index + 1;
    }
    None
}

/// The macroblocks that a text stands for.
pub open spec fn mode_of(value: Seq<char>) -> Option<EncoderMode> {
    if value == "ipcm"@ {
        Some(EncoderMode::Ipcm)
    } else if value == "intra16"@ {
        Some(EncoderMode::Intra16)
    } else if value == "intra4"@ {
        Some(EncoderMode::Intra4)
    } else if value == "intra8"@ {
        Some(EncoderMode::Intra8)
    } else if value == "inter"@ {
        Some(EncoderMode::Inter)
    } else {
        None
    }
}

/// Reads which macroblocks are used.
fn parse_mode(value: &str) -> (mode: Option<EncoderMode>)
    ensures
        mode == mode_of(value@),
{
    if same_text(value, "ipcm") {
        Some(EncoderMode::Ipcm)
    } else if same_text(value, "intra16") {
        Some(EncoderMode::Intra16)
    } else if same_text(value, "intra4") {
        Some(EncoderMode::Intra4)
    } else if same_text(value, "intra8") {
        Some(EncoderMode::Intra8)
    } else if same_text(value, "inter") {
        Some(EncoderMode::Inter)
    } else {
        None
    }
}

/// The profile that a text stands for.
pub open spec fn profile_of(value: Seq<char>) -> Option<ProfilePreference> {
    if value == "auto"@ {
        Some(ProfilePreference::Auto)
    } else if value == "baseline"@ {
        Some(ProfilePreference::Baseline)
    } else if value == "main"@ {
        Some(ProfilePreference::Main)
    } else if value == "high"@ {
        Some(ProfilePreference::High)
    } else {
        None
    }
}

/// Reads a wish for a profile.
fn parse_profile(value: &str) -> (profile: Option<ProfilePreference>)
    ensures
        profile == profile_of(value@),
{
    if same_text(value, "auto") {
        Some(ProfilePreference::Auto)
    } else if same_text(value, "baseline") {
        Some(ProfilePreference::Baseline)
    } else if same_text(value, "main") {
        Some(ProfilePreference::Main)
    } else if same_text(value, "high") {
        Some(ProfilePreference::High)
    } else {
        None
    }
}

/// Which of two texts a text is.
pub open spec fn choice_of(value: Seq<char>, no: Seq<char>, yes: Seq<char>) -> Option<bool> {
    if value == no {
        Some(false)
    } else if value == yes {
        Some(true)
    } else {
        None
    }
}

/// Reads one of two texts.
fn parse_choice(value: &str, no: &str, yes: &str) -> (choice: Option<bool>)
    ensures
        choice == choice_of(value@, no@, yes@),
{
    if same_text(value, no) {
        Some(false)
    } else if same_text(value, yes) {
        Some(true)
    } else {
        None
    }
}

/// What is left of settings after a value was read, or failed to be.
pub open spec fn or_bad_value(options: Option<Options>) -> Result<Options, Error> {
    match options {
        Some(found) => Ok(found),
        None => Err(Error::Unsupported(Fault::OptionValue)),
    }
}

impl Options {
    /// The settings before any was named.
    pub open spec fn initial() -> Options {
        Options {
            mode: EncoderMode::Ipcm,
            qp: 26,
            gop_size: 30,
            search_range: 8,
            analysis: AnalysisPreset::Full,
            scene_cut_threshold: 0,
            max_references: 1,
            b_frames: 0,
            b_direct_mode: BDirectMode::Spatial,
            aq_strength: 0,
            vbv_buffer_milliseconds: None,
            profile: ProfilePreference::Auto,
            transform_bypass: false,
            entropy_coding: EntropyCoding::Cavlc,
            scaling_matrix: ScalingMatrixPreset::Flat,
            level: LevelPreference::Auto,
            frame_duration_ticks: 1,
            bt709: false,
        }
    }

    /// Whether every setting is in its range.
    pub open spec fn valid(&self) -> bool {
        &&& 0 <= self.qp <= 51
        &&& 1 <= self.gop_size <= 1000
        &&& 0 <= self.search_range <= 64
        &&& 1 <= self.max_references <= 4
        &&& self.b_frames <= 3
        &&& self.aq_strength <= 12
        &&& self.frame_duration_ticks != 0
        &&& self.vbv_buffer_milliseconds matches Some(ms) ==> 1 <= ms <= 60_000
    }

    /// The settings of motion and of pictures after one more is named, if it is one of them.
    pub open spec fn with_motion(self, name: Seq<char>, value: Seq<char>) -> Option<Option<Options>> {
        if name == "gop_size"@ {
            Some(
                match number_within(value, false, 1, 1000) {
                    Some(found) => Some(Options { gop_size: found as usize, ..self }),
                    None => None,
                },
            )
        } else if name == "search_range"@ {
            Some(
                match number_within(value, true, 0, 64) {
                    Some(found) => Some(Options { search_range: found as i32, ..self }),
                    None => None,
                },
            )
        } else if name == "analysis"@ {
            Some(
                match choice_of(value, "fast"@, "full"@) {
                    Some(full) => Some(
                        Options {
                            analysis: if full {
                                AnalysisPreset::Full
                            } else {
                                AnalysisPreset::Fast
                            },
                            ..self
                        },
                    ),
                    None => None,
                },
            )
        } else if name == "scene_cut_threshold"@ {
            Some(
                match number_within(value, false, 0, 255) {
                    Some(found) => Some(Options { scene_cut_threshold: found as u8, ..self }),
                    None => None,
                },
            )
        } else if name == "max_refs"@ {
            Some(
                match number_within(value, false, 1, 4) {
                    Some(found) => Some(Options { max_references: found as usize, ..self }),
                    None => None,
                },
            )
        } else if name == "b_frames"@ {
            Some(
                match number_within(value, false, 0, 3) {
                    Some(found) => Some(Options { b_frames: found as usize, ..self }),
                    None => None,
                },
            )
        } else if name == "b_direct"@ {
            Some(
                match choice_of(value, "spatial"@, "temporal"@) {
                    Some(temporal) => Some(
                        Options {
                            b_direct_mode: if temporal {
                                BDirectMode::Temporal
                            } else {
                                BDirectMode::Spatial
                            },
                            ..self
                        },
                    ),
                    None => None,
                },
            )
        } else {
            None
        }
    }

    /// The settings of macroblocks and of bits after one more is named, if it is one of them.
    pub open spec fn with_coding(self, name: Seq<char>, value: Seq<char>) -> Option<Option<Options>> {
        if name == "mode"@ {
            Some(
                match mode_of(value) {
                    Some(mode) => Some(Options { mode, ..self }),
                    None => None,
                },
            )
        } else if name == "qp"@ {
            Some(
                match number_within(value, true, 0, 51) {
                    Some(found) => Some(Options { qp: found as i32, ..self }),
                    None => None,
                },
            )
        } else if name == "aq_strength"@ {
            Some(
                match number_within(value, false, 0, 12) {
                    Some(found) => Some(Options { aq_strength: found as u8, ..self }),
                    None => None,
                },
            )
        } else if name == "transform_bypass"@ {
            Some(
                match choice_of(value, "false"@, "true"@) {
                    Some(transform_bypass) => Some(Options { transform_bypass, ..self }),
                    None => None,
                },
            )
        } else if name == "entropy"@ {
            Some(
                match choice_of(value, "cavlc"@, "cabac"@) {
                    Some(cabac) => Some(
                        Options {
                            entropy_coding: if cabac {
                                EntropyCoding::Cabac
                            } else {
                                EntropyCoding::Cavlc
                            },
                            ..self
                        },
                    ),
                    None => None,
                },
            )
        } else if name == "scaling_matrix"@ {
            Some(
                match choice_of(value, "flat"@, "jvt"@) {
                    Some(jvt) => Some(
                        Options {
                            scaling_matrix: if jvt {
                                ScalingMatrixPreset::Jvt
                            } else {
                                ScalingMatrixPreset::Flat
                            },
                            ..self
                        },
                    ),
                    None => None,
                },
            )
        } else {
            None
        }
    }

    /// The settings of the sequence after one more is named, if it is one of them.
    pub open spec fn with_sequence(self, name: Seq<char>, value: Seq<char>) -> Option<
        Option<Options>,
    > {
        if name == "vbv_buffer_ms"@ {
            Some(
                match number_within(value, false, 1, 60_000) {
                    Some(found) => Some(
                        Options { vbv_buffer_milliseconds: Some(found as u64), ..self },
                    ),
                    None => None,
                },
            )
        } else if name == "profile"@ {
            Some(
                match profile_of(value) {
                    Some(profile) => Some(Options { profile, ..self }),
                    None => None,
                },
            )
        } else if name == "level"@ {
            Some(
                match level_wish(value) {
                    Some(level) => Some(Options { level, ..self }),
                    None => None,
                },
            )
        } else if name == "frame_duration_ticks"@ {
            Some(
                match number_within(value, false, 1, u64::MAX as int) {
                    Some(found) => Some(Options { frame_duration_ticks: found as u64, ..self }),
                    None => None,
                },
            )
        } else if name == "color"@ {
            Some(
                match choice_of(value, "unspecified"@, "bt709"@) {
                    Some(bt709) => Some(Options { bt709, ..self }),
                    None => None,
                },
            )
        } else {
            None
        }
    }

    /// The settings after one more is named.
    pub open spec fn named(self, name: Seq<char>, value: Seq<char>) -> Result<Options, Error> {
        match self.with_motion(name, value) {
            Some(found) => or_bad_value(found),
            None => match self.with_coding(name, value) {
                Some(found) => or_bad_value(found),
                None => match self.with_sequence(name, value) {
                    Some(found) => or_bad_value(found),
                    None => Err(Error::Unsupported(Fault::OptionName)),
                },
            },
        }
    }

    /// The settings after the first `count` of a list are named.
    pub open spec fn all_named(list: Seq<(Seq<char>, Seq<char>)>, count: int) -> Result<
        Options,
        Error,
    >
        decreases count,
    {
        if count <= 0 {
            Ok(Options::initial())
        } else {
            match Options::all_named(list, count - 1) {
                Ok(before) => before.named(list[count - 1].0, list[count - 1].1),
                Err(error) => Err(error),
            }
        }
    }

    /// The settings before any is named.
    pub fn new() -> (options: Self)
        ensures
            options == Options::initial(),
            options.valid(),
    {
        Options {
            mode: EncoderMode::Ipcm,
            qp: 26,
            gop_size: 30,
            search_range: 8,
            analysis: AnalysisPreset::Full,
            scene_cut_threshold: 0,
            max_references: 1,
            b_frames: 0,
            b_direct_mode: BDirectMode::Spatial,
            aq_strength: 0,
            vbv_buffer_milliseconds: None,
            profile: ProfilePreference::Auto,
            transform_bypass: false,
            entropy_coding: EntropyCoding::Cavlc,
            scaling_matrix: ScalingMatrixPreset::Flat,
            level: LevelPreference::Auto,
            frame_duration_ticks: 1,
            bt709: false,
        }
    }

    /// Takes a setting of motion and of pictures.
    fn set_motion(self, name: &str, value: &str) -> (result: Option<Option<Options>>)
        requires
            self.valid(),
        ensures
            result == self.with_motion(name@, value@),
            result matches Some(Some(options)) ==> options.valid(),
    {
        let mut next: Options = self;
        if same_text(name, "gop_size") {
            match parse_number(value, false, 1, 1000) {
                Some(found) => {
                    next.gop_size = found as usize;
                },
                None => {
                    return Some(None);
                },
            }
        } else if same_text(name, "search_range") {
            match parse_number(value, true, 0, 64) {
                Some(found) => {
                    next.search_range = found as i32;
                },
                None => {
                    return Some(None);
                },
            }
        } else if same_text(name, "analysis") {
            match parse_choice(value, "fast", "full") {
                Some(full) => {
                    next.analysis = if full {
                        AnalysisPreset::Full
                    } else {
                        AnalysisPreset::Fast
                    };
                },
                None => {
                    return Some(None);
                },
            }
        } else if same_text(name, "scene_cut_threshold") {
            match parse_number(value, false, 0, 255) {
                Some(found) => {
                    next.scene_cut_threshold = found as u8;
                },
                None => {
                    return Some(None);
                },
            }
        } else if same_text(name, "max_refs") {
            match parse_number(value, false, 1, 4) {
                Some(found) => {
                    next.max_references = found as usize;
                },
                None => {
                    return Some(None);
                },
            }
        } else if same_text(name, "b_frames") {
            match parse_number(value, false, 0, 3) {
                Some(found) => {
                    next.b_frames = found as usize;
                },
                None => {
                    return Some(None);
                },
            }
        } else if same_text(name, "b_direct") {
            match parse_choice(value, "spatial", "temporal") {
                Some(temporal) => {
                    next.b_direct_mode = if temporal {
                        BDirectMode::Temporal
                    } else {
                        BDirectMode::Spatial
                    };
                },
                None => {
                    return Some(None);
                },
            }
        } else {
            return None;
        }
        Some(Some(next))
    }

    /// Takes a setting of macroblocks and of bits.
    fn set_coding(self, name: &str, value: &str) -> (result: Option<Option<Options>>)
        requires
            self.valid(),
        ensures
            result == self.with_coding(name@, value@),
            result matches Some(Some(options)) ==> options.valid(),
    {
        let mut next: Options = self;
        if same_text(name, "mode") {
            match parse_mode(value) {
                Some(mode) => {
                    next.mode = mode;
                },
                None => {
                    return Some(None);
                },
            }
        } else if same_text(name, "qp") {
            match parse_number(value, true, 0, 51) {
                Some(found) => {
                    next.qp = found as i32;
                },
                None => {
                    return Some(None);
                },
            }
        } else if same_text(name, "aq_strength") {
            match parse_number(value, false, 0, 12) {
                Some(found) => {
                    next.aq_strength = found as u8;
                },
                None => {
                    return Some(None);
                },
            }
        } else if same_text(name, "transform_bypass") {
            match parse_choice(value, "false", "true") {
                Some(bypass) => {
                    next.transform_bypass = bypass;
                },
                None => {
                    return Some(None);
                },
            }
        } else if same_text(name, "entropy") {
            match parse_choice(value, "cavlc", "cabac") {
                Some(cabac) => {
                    next.entropy_coding = if cabac {
                        EntropyCoding::Cabac
                    } else {
                        EntropyCoding::Cavlc
                    };
                },
                None => {
                    return Some(None);
                },
            }
        } else if same_text(name, "scaling_matrix") {
            match parse_choice(value, "flat", "jvt") {
                Some(jvt) => {
                    next.scaling_matrix = if jvt {
                        ScalingMatrixPreset::Jvt
                    } else {
                        ScalingMatrixPreset::Flat
                    };
                },
                None => {
                    return Some(None);
                },
            }
        } else {
            return None;
        }
        Some(Some(next))
    }

    /// Takes a setting of the sequence.
    fn set_sequence(self, name: &str, value: &str) -> (result: Option<Option<Options>>)
        requires
            self.valid(),
        ensures
            result == self.with_sequence(name@, value@),
            result matches Some(Some(options)) ==> options.valid(),
    {
        let mut next: Options = self;
        if same_text(name, "vbv_buffer_ms") {
            match parse_number(value, false, 1, 60_000) {
                Some(found) => {
                    next.vbv_buffer_milliseconds = Some(found);
                },
                None => {
                    return Some(None);
                },
            }
        } else if same_text(name, "profile") {
            match parse_profile(value) {
                Some(profile) => {
                    next.profile = profile;
                },
                None => {
                    return Some(None);
                },
            }
        } else if same_text(name, "level") {
            match parse_level_preference(value) {
                Some(level) => {
                    next.level = level;
                },
                None => {
                    return Some(None);
                },
            }
        } else if same_text(name, "frame_duration_ticks") {
            match parse_number(value, false, 1, u64::MAX) {
                Some(found) => {
                    next.frame_duration_ticks = found;
                },
                None => {
                    return Some(None);
                },
            }
        } else if same_text(name, "color") {
            match parse_choice(value, "unspecified", "bt709") {
                Some(bt709) => {
                    next.bt709 = bt709;
                },
                None => {
                    return Some(None);
                },
            }
        } else {
            return None;
        }
        Some(Some(next))
    }

    /// Takes a named setting.
    ///
    /// # Errors
    ///
    /// Returns an error when there is no setting of that name or its value is none of those that
    /// are allowed.
    pub fn set(self, name: &str, value: &str) -> (result: Result<Options, Error>)
        requires
            self.valid(),
        ensures
            result == self.named(name@, value@),
            result matches Ok(options) ==> options.valid(),
    {
        let found: Option<Options> = match self.set_motion(name, value) {
            Some(found) => found,
            None => match self.set_coding(name, value) {
                Some(found) => found,
                None => match self.set_sequence(name, value) {
                    Some(found) => found,
                    None => {
                        return Err(Error::Unsupported(Fault::OptionName));
                    },
                },
            },
        };
        match found {
            Some(options) => Ok(options),
            None => Err(Error::Unsupported(Fault::OptionValue)),
        }
    }
}

/// The names and values of a list.
pub open spec fn texts(list: Seq<(String, String)>) -> Seq<(Seq<char>, Seq<char>)> {
    Seq::new(list.len(), |i: int| (list[i].0@, list[i].1@))
}

/// Takes a list of named settings, one after the other.
///
/// # Errors
///
/// Returns an error for the first one that is not known or whose value is not allowed.
pub fn read_options(list: &[(String, String)]) -> (result: Result<Options, Error>)
    ensures
        result == Options::all_named(texts(list@), list@.len() as int),
        result matches Ok(options) ==> options.valid(),
{
    let mut options: Options = Options::new();
    let mut i: usize = 0;
    while i < list.len()
        invariant
            i <= list@.len(),
            options.valid(),
            Options::all_named(texts(list@), i as int) == Ok::<Options, Error>(options),
        decreases list@.len() - i,
    {
        assert(texts(list@)[i as int] == (list@[i as int].0@, list@[i as int].1@));
        match options.set(list[i].0.as_str(), list[i].1.as_str()) {
            Ok(next) => {
                options = next;
            },
            Err(error) => {
                proof {
                    lemma_first_error(texts(list@), i + 1, list@.len() as int);
                }
                return Err(error);
            },
        }
        i = i + 1;
    }
    Ok(options)
}

proof fn lemma_first_error(list: Seq<(Seq<char>, Seq<char>)>, count: int, end: int)
    requires
        0 <= count <= end,
        Options::all_named(list, count) is Err,
    ensures
        Options::all_named(list, end) == Options::all_named(list, count),
    decreases end,
{
    if count < end {
        lemma_first_error(list, count, end - 1);
    }
}

} // verus!
