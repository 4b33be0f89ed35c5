//! What the levels of the codec allow, and which of them a sequence needs.

use vstd::prelude::*;

use crate::config::{AvcLevel, LevelConfiguration};
use crate::error::{Error, ExceededLimits, Fault};
use crate::frame::{FrameTiming, Rational};

verus! {

/// How many levels there are.
pub const LEVEL_COUNT: usize = 20;

impl AvcLevel {
    /// A level.
    pub open spec fn of(
        name: &'static str,
        level_idc: u8,
        constraint_set3: bool,
        max_macroblocks_per_second: u64,
        max_frame_size: usize,
        max_dpb_macroblocks: usize,
        max_bitrate_kbps: u64,
        max_cpb_kbits: u64,
    ) -> AvcLevel {
        AvcLevel {
            name,
            level_idc,
            constraint_set3,
            max_macroblocks_per_second,
            max_frame_size,
            max_dpb_macroblocks,
            max_bitrate_kbps,
            max_cpb_kbits,
        }
    }

    /// Makes a level.
    pub fn new(
        name: &'static str,
        level_idc: u8,
        constraint_set3: bool,
        max_macroblocks_per_second: u64,
        max_frame_size: usize,
        max_dpb_macroblocks: usize,
        max_bitrate_kbps: u64,
        max_cpb_kbits: u64,
    ) -> (level: AvcLevel)
        ensures
            level == AvcLevel::of(
                name,
                level_idc,
                constraint_set3,
                max_macroblocks_per_second,
                max_frame_size,
                max_dpb_macroblocks,
                max_bitrate_kbps,
                max_cpb_kbits,
            ),
    {
        AvcLevel {
            name,
            level_idc,
            constraint_set3,
            max_macroblocks_per_second,
            max_frame_size,
            max_dpb_macroblocks,
            max_bitrate_kbps,
            max_cpb_kbits,
        }
    }
}

/// The levels, from the lowest to the highest.
#[verifier::opaque]
pub open spec fn level_entry(index: int) -> AvcLevel {
    if index == 0 {
        AvcLevel::of("1", 10, false, 1_485, 99, 396, 64, 175)
    } else if index == 1 {
        AvcLevel::of("1b", 11, true, 1_485, 99, 396, 128, 350)
    } else if index == 2 {
        AvcLevel::of("1.1", 11, false, 3_000, 396, 900, 192, 500)
    } else if index == 3 {
        AvcLevel::of("1.2", 12, false, 6_000, 396, 2_376, 384, 1_000)
    } else if index == 4 {
        AvcLevel::of("1.3", 13, false, 11_880, 396, 2_376, 768, 2_000)
    } else if index == 5 {
        AvcLevel::of("2", 20, false, 11_880, 396, 2_376, 2_000, 2_000)
    } else if index == 6 {
        AvcLevel::of("2.1", 21, false, 19_800, 792, 4_752, 4_000, 4_000)
    } else if index == 7 {
        AvcLevel::of("2.2", 22, false, 20_250, 1_620, 8_100, 4_000, 4_000)
    } else if index == 8 {
        AvcLevel::of("3", 30, false, 40_500, 1_620, 8_100, 10_000, 10_000)
    } else if index == 9 {
        AvcLevel::of("3.1", 31, false, 108_000, 3_600, 18_000, 14_000, 14_000)
    } else if index == 10 {
        AvcLevel::of("3.2", 32, false, 216_000, 5_120, 20_480, 20_000, 20_000)
    } else if index == 11 {
        AvcLevel::of("4", 40, false, 245_760, 8_192, 32_768, 20_000, 25_000)
    } else if index == 12 {
        AvcLevel::of("4.1", 41, false, 245_760, 8_192, 32_768, 50_000, 62_500)
    } else if index == 13 {
        AvcLevel::of("4.2", 42, false, 522_240, 8_704, 34_816, 50_000, 62_500)
    } else if index == 14 {
        AvcLevel::of("5", 50, false, 589_824, 22_080, 110_400, 135_000, 135_000)
    } else if index == 15 {
        AvcLevel::of("5.1", 51, false, 983_040, 36_864, 184_320, 240_000, 240_000)
    } else if index == 16 {
        AvcLevel::of("5.2", 52, false, 2_073_600, 36_864, 184_320, 240_000, 240_000)
    } else if index == 17 {
        AvcLevel::of("6", 60, false, 4_177_920, 139_264, 696_320, 240_000, 240_000)
    } else if index == 18 {
        AvcLevel::of("6.1", 61, false, 8_355_840, 139_264, 696_320, 480_000, 480_000)
    } else {
        AvcLevel::of("6.2", 62, false, 16_711_680, 139_264, 696_320, 800_000, 800_000)
    }
}

/// Looks up a level.
pub fn level_at(index: usize) -> (level: AvcLevel)
    requires
        index < LEVEL_COUNT,
    ensures
        level == level_entry(index as int),
{
    reveal(level_entry);
    if index == 0 {
        AvcLevel::new("1", 10, false, 1_485, 99, 396, 64, 175)
    } else if index == 1 {
        AvcLevel::new("1b", 11, true, 1_485, 99, 396, 128, 350)
    } else if index == 2 {
        AvcLevel::new("1.1", 11, false, 3_000, 396, 900, 192, 500)
    } else if index == 3 {
        AvcLevel::new("1.2", 12, false, 6_000, 396, 2_376, 384, 1_000)
    } else if index == 4 {
        AvcLevel::new("1.3", 13, false, 11_880, 396, 2_376, 768, 2_000)
    } else if index == 5 {
        AvcLevel::new("2", 20, false, 11_880, 396, 2_376, 2_000, 2_000)
    } else if index == 6 {
        AvcLevel::new("2.1", 21, false, 19_800, 792, 4_752, 4_000, 4_000)
    } else if index == 7 {
        AvcLevel::new("2.2", 22, false, 20_250, 1_620, 8_100, 4_000, 4_000)
    } else if index == 8 {
        AvcLevel::new("3", 30, false, 40_500, 1_620, 8_100, 10_000, 10_000)
    } else if index == 9 {
        AvcLevel::new("3.1", 31, false, 108_000, 3_600, 18_000, 14_000, 14_000)
    } else if index == 10 {
        AvcLevel::new("3.2", 32, false, 216_000, 5_120, 20_480, 20_000, 20_000)
    } else if index == 11 {
        AvcLevel::new("4", 40, false, 245_760, 8_192, 32_768, 20_000, 25_000)
    } else if index == 12 {
        AvcLevel::new("4.1", 41, false, 245_760, 8_192, 32_768, 50_000, 62_500)
    } else if index == 13 {
        AvcLevel::new("4.2", 42, false, 522_240, 8_704, 34_816, 50_000, 62_500)
    } else if index == 14 {
        AvcLevel::new("5", 50, false, 589_824, 22_080, 110_400, 135_000, 135_000)
    } else if index == 15 {
        AvcLevel::new("5.1", 51, false, 983_040, 36_864, 184_320, 240_000, 240_000)
    } else if index == 16 {
        AvcLevel::new("5.2", 52, false, 2_073_600, 36_864, 184_320, 240_000, 240_000)
    } else if index == 17 {
        AvcLevel::new("6", 60, false, 4_177_920, 139_264, 696_320, 240_000, 240_000)
    } else if index == 18 {
        AvcLevel::new("6.1", 61, false, 8_355_840, 139_264, 696_320, 480_000, 480_000)
    } else {
        AvcLevel::new("6.2", 62, false, 16_711_680, 139_264, 696_320, 800_000, 800_000)
    }
}

/// What a sequence needs of a level.
#[derive(Clone, Copy, Debug)]
pub struct LevelRequirements {
    /// How many macroblocks stand side by side.
    pub width_in_macroblocks: usize,
    /// How many macroblocks stand one above the other.
    pub height_in_macroblocks: usize,
    /// How many macroblocks a picture has.
    pub macroblocks_per_frame: usize,
    /// How many macroblocks are kept for reference.
    pub decoded_picture_buffer_macroblocks: usize,
    /// How long a frame lasts.
    pub frame_duration_ticks: u64,
    /// The unit of that duration.
    pub time_base: Rational,
    /// The bits in a second, if they are limited.
    pub bitrate: Option<u64>,
    /// The bits in the buffer, if it is limited.
    pub cpb_size: Option<u64>,
}

/// A limit of a level.
#[derive(Clone, Copy, Debug, PartialEq, Eq, Structural)]
pub enum LevelLimit {
    /// How many macroblocks a picture may have.
    FrameSize,
    /// How many macroblocks may stand in a line.
    Dimensions,
    /// How many macroblocks may come in a second.
    Cadence,
    /// How many macroblocks may be kept for reference.
    PictureBuffer,
    /// How many bits may come in a second.
    Bitrate,
    /// How large the buffer may be.
    CodedBuffer,
}

/// A number, or the largest one that the machine has.
pub open spec fn saturated(value: int, largest: int) -> int {
    if value > largest {
        largest
    } else {
        value
    }
}

/// Whether a number in thousands is exceeded.
pub open spec fn exceeds_thousands(value: Option<u64>, thousands: u64) -> bool {
    value matches Some(found) && found > saturated(thousands * 1000, u64::MAX as int)
}

/// Whether frames of some duration come slowly enough for a level.
#[verifier::opaque]
pub open spec fn interval_allowed(
    level: AvcLevel,
    macroblocks: int,
    ticks: int,
    time_base: Rational,
) -> bool {
    &&& ticks != 0
    &&& time_base.numerator > 0
    &&& time_base.denominator > 0
    &&& macroblocks * time_base.denominator <= (level.max_macroblocks_per_second * ticks)
        * time_base.numerator
}

/// One limit, where it is exceeded.
pub open spec fn limit_if(exceeded: bool, limit: LevelLimit) -> Seq<LevelLimit> {
    if exceeded {
        seq![limit]
    } else {
        Seq::empty()
    }
}

impl LevelRequirements {
    /// Whether a picture is too wide or too high for a level.
    pub open spec fn too_long(&self, level: AvcLevel) -> bool {
        let most = saturated(level.max_frame_size * 8, usize::MAX as int);
        ||| saturated(self.width_in_macroblocks * self.width_in_macroblocks, usize::MAX as int)
            > most
        ||| saturated(self.height_in_macroblocks * self.height_in_macroblocks, usize::MAX as int)
            > most
    }

    /// The limits of a level that a sequence exceeds.
    pub open spec fn exceeded(&self, level: AvcLevel) -> Seq<LevelLimit> {
        limit_if(self.macroblocks_per_frame > level.max_frame_size, LevelLimit::FrameSize)
            + limit_if(self.too_long(level), LevelLimit::Dimensions) + limit_if(
            !interval_allowed(
                level,
                self.macroblocks_per_frame as int,
                self.frame_duration_ticks as int,
                self.time_base,
            ),
            LevelLimit::Cadence,
        ) + limit_if(
            self.decoded_picture_buffer_macroblocks > level.max_dpb_macroblocks,
            LevelLimit::PictureBuffer,
        ) + limit_if(exceeds_thousands(self.bitrate, level.max_bitrate_kbps), LevelLimit::Bitrate)
            + limit_if(
            exceeds_thousands(self.cpb_size, level.max_cpb_kbits),
            LevelLimit::CodedBuffer,
        )
    }

    /// Lists the limits of a level that a sequence exceeds.
    pub fn failures(&self, level: AvcLevel) -> (failures: Vec<LevelLimit>)
        ensures
            failures@ == self.exceeded(level),
    {
        let mut failures: Vec<LevelLimit> = Vec::new();
        if self.macroblocks_per_frame > level.max_frame_size {
            failures.push(LevelLimit::FrameSize);
        }
        let most: usize = saturating_product(level.max_frame_size, 8);
        if saturating_product(self.width_in_macroblocks, self.width_in_macroblocks) > most
            || saturating_product(self.height_in_macroblocks, self.height_in_macroblocks) > most {
            failures.push(LevelLimit::Dimensions);
        }
        if !level_allows_frame_interval(
            level,
            self.macroblocks_per_frame,
            self.frame_duration_ticks,
            self.time_base,
        ) {
            failures.push(LevelLimit::Cadence);
        }
        if self.decoded_picture_buffer_macroblocks > level.max_dpb_macroblocks {
            failures.push(LevelLimit::PictureBuffer);
        }
        if more_than_thousands(self.bitrate, level.max_bitrate_kbps) {
            failures.push(LevelLimit::Bitrate);
        }
        if more_than_thousands(self.cpb_size, level.max_cpb_kbits) {
            failures.push(LevelLimit::CodedBuffer);
        }
        assert(failures@ =~= self.exceeded(level));
        failures
    }
}

/// Which limits a list holds.
pub open spec fn limits_of(list: Seq<LevelLimit>) -> ExceededLimits {
    ExceededLimits {
        frame_size: list.contains(LevelLimit::FrameSize),
        dimensions: list.contains(LevelLimit::Dimensions),
        cadence: list.contains(LevelLimit::Cadence),
        picture_buffer: list.contains(LevelLimit::PictureBuffer),
        bitrate: list.contains(LevelLimit::Bitrate),
        coded_buffer: list.contains(LevelLimit::CodedBuffer),
    }
}

/// Whether a list holds a limit.
fn lists(list: &[LevelLimit], limit: LevelLimit) -> (listed: bool)
    ensures
        listed == list@.contains(limit),
{
    let mut i: usize = 0;
    while i < list.len()
        invariant
            i <= list@.len(),
            forall|j: int| 0 <= j < i ==> list@[j] != limit,
        decreases list.len() - i,
    {
        if list[i] == limit {
            assert(list@[i as int] == limit);
            return true;
        }
        i = i + 1;
    }
    false
}

/// Tells which limits a list holds.
fn listed_limits(list: &[LevelLimit]) -> (limits: ExceededLimits)
    ensures
        limits == limits_of(list@),
{
    ExceededLimits {
        frame_size: lists(list, LevelLimit::FrameSize),
        dimensions: lists(list, LevelLimit::Dimensions),
        cadence: lists(list, LevelLimit::Cadence),
        picture_buffer: lists(list, LevelLimit::PictureBuffer),
        bitrate: lists(list, LevelLimit::Bitrate),
        coded_buffer: lists(list, LevelLimit::CodedBuffer),
    }
}

/// Multiplies two numbers, up to the largest one that the machine has.
fn saturating_product(left: usize, right: usize) -> (product: usize)
    ensures
        product == saturated(left * right, usize::MAX as int),
{
    match left.checked_mul(right) {
        Some(product) => product,
        None => usize::MAX,
    }
}

/// Whether a number in thousands is exceeded.
fn more_than_thousands(value: Option<u64>, thousands: u64) -> (result: bool)
    ensures
        result == exceeds_thousands(value, thousands),
{
    let most: u64 = match thousands.checked_mul(1000) {
        Some(most) => most,
        None => u64::MAX,
    };
    match value {
        Some(found) => found > most,
        None => false,
    }
}

/// Whether frames of some duration come slowly enough for a level.
pub fn level_allows_frame_interval(
    level: AvcLevel,
    macroblocks_per_frame: usize,
    duration_ticks: u64,
    time_base: Rational,
) -> (result: bool)
    ensures
        result == interval_allowed(
            level,
            macroblocks_per_frame as int,
            duration_ticks as int,
            time_base,
        ),
{
    reveal(interval_allowed);
    if duration_ticks == 0 || time_base.numerator <= 0 || time_base.denominator <= 0 {
        return false;
    }
    let blocks: u128 = macroblocks_per_frame as u128;
    let denominator: u128 = time_base.denominator as u128;
    let rate: u128 = level.max_macroblocks_per_second as u128;
    let ticks: u128 = duration_ticks as u128;
    let numerator: u128 = time_base.numerator as u128;
    proof {
        assert(blocks * denominator <= 0xffff_ffff_ffff_ffff * 0x7fff_ffff_ffff_ffff)
            by (nonlinear_arith)
            requires
                0 <= blocks <= 0xffff_ffff_ffff_ffff,
                0 <= denominator <= 0x7fff_ffff_ffff_ffff,
        ;
        assert(rate * ticks <= 0xffff_ffff_ffff_ffff * 0xffff_ffff_ffff_ffff) by (nonlinear_arith)
            requires
                0 <= rate <= 0xffff_ffff_ffff_ffff,
                0 <= ticks <= 0xffff_ffff_ffff_ffff,
        ;
        assert(rate * ticks == level.max_macroblocks_per_second * duration_ticks);
        assert(blocks * denominator == macroblocks_per_frame * time_base.denominator);
    }
    let required: u128 = blocks * denominator;
    match (rate * ticks).checked_mul(numerator) {
        Some(capacity) => required <= capacity,
        None => true,
    }
}

/// A wish for a level.
#[derive(Clone, Copy, Debug)]
pub enum LevelPreference {
    /// The lowest one that will do.
    Auto,
    /// This one.
    Exact(AvcLevel),
}

/// The lowest level from some index on that a sequence does not exceed.
pub open spec fn lowest_level(requirements: LevelRequirements, index: int) -> Option<AvcLevel>
    decreases LEVEL_COUNT - index,
{
    if index >= LEVEL_COUNT {
        None
    } else if requirements.exceeded(level_entry(index)).len() == 0 {
        Some(level_entry(index))
    } else {
        lowest_level(requirements, index + 1)
    }
}

/// The level that is chosen for a sequence.
pub open spec fn negotiated(
    preference: LevelPreference,
    requirements: LevelRequirements,
) -> Result<AvcLevel, Error> {
    match preference {
        LevelPreference::Exact(level) => if requirements.exceeded(level).len() == 0 {
            Ok(level)
        } else {
            Err(
                Error::Unsupported(
                    Fault::LevelTooLow {
                        level: level.name,
                        limits: limits_of(requirements.exceeded(level)),
                    },
                ),
            )
        },
        LevelPreference::Auto => match lowest_level(requirements, 0) {
            Some(level) => Ok(level),
            None => Err(Error::Unsupported(Fault::NoLevel)),
        },
    }
}

/// Chooses a level for a sequence.
///
/// # Errors
///
/// Returns an error when the wanted level, or every level, is too low.
pub fn negotiate_level(preference: LevelPreference, requirements: LevelRequirements) -> (result:
    Result<AvcLevel, Error>)
    ensures
        result == negotiated(preference, requirements),
{
    if let LevelPreference::Exact(level) = preference {
        let failures: Vec<LevelLimit> = requirements.failures(level);
        if failures.len() == 0 {
            return Ok(level);
        }
        let limits: ExceededLimits = listed_limits(failures.as_slice());
        return Err(Error::Unsupported(Fault::LevelTooLow { level: level.name, limits }));
    }
    let mut index: usize = 0;
    while index < LEVEL_COUNT
        invariant
            index <= LEVEL_COUNT,
            preference is Auto,
            lowest_level(requirements, 0) == lowest_level(requirements, index as int),
        decreases LEVEL_COUNT - index,
    {
        let level: AvcLevel = level_at(index);
        if requirements.failures(level).len() == 0 {
            return Ok(level);
        }
        index = index + 1;
    }
    Err(Error::Unsupported(Fault::NoLevel))
}

/// A level that is chosen without a wish is the lowest that will do: the sequence exceeds no limit
/// of it, and some limit of each level below.
pub proof fn law_lowest_level(requirements: LevelRequirements, index: int)
    requires
        0 <= index <= LEVEL_COUNT,
    ensures
        match lowest_level(requirements, index) {
            Some(level) => exists|found: int|
                index <= found < LEVEL_COUNT && level == #[trigger] level_entry(found)
                    && requirements.exceeded(level).len() == 0 && forall|lower: int|
                    index <= lower < found ==> requirements.exceeded(
                        #[trigger] level_entry(lower),
                    ).len() != 0,
            None => forall|lower: int|
                index <= lower < LEVEL_COUNT ==> requirements.exceeded(
                    #[trigger] level_entry(lower),
                ).len() != 0,
        },
    decreases LEVEL_COUNT - index,
{
    if index < LEVEL_COUNT {
        if requirements.exceeded(level_entry(index)).len() == 0 {
            assert(level_entry(index) == level_entry(index));
        } else {
            law_lowest_level(requirements, index + 1);
        }
    }
}

/// How long a frame lasts, and the unit of that.
pub open spec fn frame_interval(timing: FrameTiming, configuration: LevelConfiguration) -> (
    int,
    Rational,
) {
    match timing.duration {
        Some(duration) if duration.value > 0 => (duration.value as int, duration.time_base),
        _ => (configuration.default_frame_duration_ticks as int, configuration.time_base),
    }
}

/// Whether a frame comes too soon for its level.
pub open spec fn frame_level_fault(timing: FrameTiming, configuration: LevelConfiguration) -> Option<
    Error,
> {
    let (ticks, time_base) = frame_interval(timing, configuration);
    if interval_allowed(
        configuration.level,
        configuration.macroblocks_per_frame as int,
        ticks,
        time_base,
    ) {
        None
    } else {
        Some(Error::Unsupported(Fault::FrameCadence))
    }
}

/// Checks that a frame does not come too soon for its level.
///
/// # Errors
///
/// Returns an error when it does.
pub fn validate_frame_level(timing: FrameTiming, configuration: LevelConfiguration) -> (result:
    Result<(), Error>)
    ensures
        result == crate::frame::unless(frame_level_fault(timing, configuration)),
{
    let mut ticks: u64 = configuration.default_frame_duration_ticks;
    let mut time_base: Rational = configuration.time_base;
    if let Some(duration) = timing.duration {
        if duration.value > 0 {
            ticks = duration.value as u64;
            time_base = duration.time_base;
        }
    }
    if level_allows_frame_interval(
        configuration.level,
        configuration.macroblocks_per_frame,
        ticks,
        time_base,
    ) {
        Ok(())
    } else {
        Err(Error::Unsupported(Fault::FrameCadence))
    }
}

} // verus!
