//! The errors that the library reports.

use vstd::prelude::*;

verus! {

/// Which limits of a level a sequence exceeds.
#[derive(Clone, Copy, Debug, PartialEq, Eq, Structural)]
pub struct ExceededLimits {
    /// How many macroblocks a picture may have.
    pub frame_size: bool,
    /// How many macroblocks may stand in a line.
    pub dimensions: bool,
    /// How many macroblocks may come in a second.
    pub cadence: bool,
    /// How many macroblocks may be kept for reference.
    pub picture_buffer: bool,
    /// How many bits may come in a second.
    pub bitrate: bool,
    /// How large the buffer may be.
    pub coded_buffer: bool,
}

/// What exactly was wrong, independent of how the failure is classified.
#[derive(Clone, Copy, Debug, PartialEq, Eq)]
pub enum Fault {
    /// A NAL header sets `forbidden_zero_bit`.
    ForbiddenZeroBit,
    /// An Annex-B stream holds no start code.
    NoStartCode,
    /// An Annex-B stream holds start codes but no payload byte.
    NoPayload,
    /// A sample's NAL length field is not one through four bytes wide.
    LengthSize,
    /// A length-prefixed sample ends inside a length field.
    TruncatedLength,
    /// A length field is zero.
    ZeroLength,
    /// A length-prefixed sample ends inside a NAL unit.
    TruncatedUnit,
    /// The Annex-B form of a sample would not fit in memory.
    OutputOverflow,
    /// An `avcC` record is too short or has the wrong version.
    ConfigurationRecord,
    /// An `avcC` record ends before its picture-parameter-set count.
    TruncatedPictureCount,
    /// An `avcC` record ends inside a parameter-set length.
    TruncatedSetLength,
    /// An `avcC` record ends inside a parameter set.
    TruncatedSet,
    /// An `avcC` record holds an empty parameter set.
    EmptySet,
    /// A read ran past the end of the data.
    EndOfData,
    /// An unsigned Exp-Golomb value does not fit its code.
    UnsignedGolomb,
    /// A signed Exp-Golomb value does not fit its code.
    SignedGolomb,
    /// A reference index lies outside the active list.
    ReferenceIndex,
    /// A sequence parameter set is too short to name its profile and level.
    ShortSequenceSet,
    /// A sequence parameter set does not fit the `avcC` length field.
    LongSequenceSet,
    /// A picture parameter set does not fit the `avcC` length field.
    LongPictureSet,
    /// A NAL unit does not fit a four-byte length field.
    LongUnit,
    /// The number of macroblocks of a picture does not fit in memory.
    MacroblockCount,
    /// A macroblock map does not match its picture.
    MacroblockMap,
    /// A residual block does not have 4, 15, or 16 coefficients.
    CoefficientCount,
    /// The table has no code for the coefficient counts of a residual block.
    CoefficientToken,
    /// The bits are no code for the coefficient counts of a residual block.
    CoefficientTokenCode,
    /// A level that must not be a trailing one is one.
    TrailingLevel,
    /// A level is too large to be coded.
    LevelRange,
    /// A level prefix is too long.
    LevelPrefix,
    /// The table has no code for a number of zeros.
    TotalZeros,
    /// The bits are no code for a number of zeros.
    TotalZerosCode,
    /// The table has no code for a run of zeros.
    RunBefore,
    /// The bits are no code for a run of zeros.
    RunBeforeCode,
    /// A run of zeros is longer than the zeros that are left.
    RunRange,
    /// The runs of a residual block lead past its end.
    RunOverflow,
    /// A context is initialized for a quantizer that does not exist.
    ContextQuantizer,
    /// An arithmetic decoder needs more zero bits than may follow the data.
    ZeroPadding,
    /// An arithmetic decoder starts outside its interval.
    InitialOffset,
    /// An alignment bit before arithmetic-coded data is zero.
    AlignmentBit,
    /// A side of the picture is zero.
    ZeroDimensions,
    /// A side of the picture is odd.
    OddDimensions,
    /// A frame is not one of the sequence.
    FrameMismatch,
    /// A frame holds fields.
    Interlaced,
    /// A frame has not three planes.
    PlaneCount,
    /// A plane has another shape.
    PlaneShape,
    /// A plane is larger than memory.
    PlaneOverflow,
    /// A plane has too few samples.
    PlaneTruncated,
    /// A sequence exceeds limits of the wanted level.
    LevelTooLow {
        /// The name of the level.
        level: &'static str,
        /// The limits that are exceeded.
        limits: ExceededLimits,
    },
    /// A sequence exceeds limits of all levels.
    NoLevel,
    /// A frame comes too soon for its level.
    FrameCadence,
    /// A rate is zero, or its unit is not positive.
    RateUnit,
    /// A frame's share of the rate does not fit.
    FrameTarget,
    /// A time unit does not fit the stream.
    TimeUnit,
    /// A time scale does not fit the stream.
    TimeScale,
    /// A buffer size does not fit.
    BufferSize,
    /// A rate cannot be written in the stream.
    RateRange,
    /// A buffer size cannot be written in the stream.
    BufferRange,
    /// The delay of the first picture does not fit the stream.
    InitialDelay,
    /// The delay until a picture is shown does not fit the stream.
    OutputDelay,
    /// The unit of a duration is not positive.
    DurationUnit,
    /// A duration does not fit the stream.
    DurationRange,
    /// The bits that arrive in some time do not fit.
    ArrivalRange,
    /// A picture has more bits than the buffer holds.
    BufferUnderflow,
    /// There is no setting of this name.
    OptionName,
    /// A setting has no such value.
    OptionValue,
    /// Input has another pixel format.
    InputFormat,
    /// A picture has too many macroblocks.
    TooManyMacroblocks,
    /// The unit of time is not positive.
    TimeBase,
    /// References or pictures between others are only for inter coding.
    InterOnly,
    /// Temporal derivation is only for pictures between others.
    TemporalOnly,
    /// Plain samples have no quantizers to vary.
    AdaptivePlain,
    /// A buffer needs a rate.
    BufferWithoutRate,
    /// The profile has no pictures between others.
    ProfileBetween,
    /// The profile has no arithmetic coding.
    ProfileArithmetic,
    /// The profile has no eight-by-eight prediction.
    ProfileIntra8,
    /// The profile has no coding without loss.
    ProfileBypass,
    /// These macroblocks cannot be coded without loss.
    BypassMode,
    /// Coding without loss needs the lowest quantizer everywhere.
    BypassQuantizer,
    /// The profile has no scaling matrices.
    ProfileScaling,
    /// Scaling matrices do nothing without loss.
    BypassScaling,
    /// Plain samples have no rate to keep.
    RatePlain,
    /// The encoder has not been configured.
    NotConfigured,
    /// The encoder takes no more frames.
    Flushed,
    /// There is no time at which the next picture is decoded.
    NoDecodeTime,
}

/// A failed operation, classified by who has to act on it.
#[derive(Clone, Copy, Debug, PartialEq, Eq)]
pub enum Error {
    /// The supplied data is malformed.
    InvalidData(Fault),
    /// The request is well formed but outside what the codec supports.
    Unsupported(Fault),
    /// The operation is not allowed in the current state.
    InvalidState(Fault),
}

} // verus!
