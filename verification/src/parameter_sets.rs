//! The parameter sets that describe a sequence and its pictures.

use vstd::prelude::*;

use crate::bits::{aligned, bits_of, bits_value, packed, BitWriter};
use crate::config::{AvcLevel, EntropyCoding};
use crate::framing::{escaped, make_nal, nal_of};
use crate::golomb::{
    finish_rbsp, finished, lemma_ue_length, se_bits, ue_bits, write_se, write_ue,
};
use crate::hrd::{EncoderHrd, DELAY_BITS};
use crate::scaling::ScalingMatrixPreset;

verus! {

/// A set of tools.
#[derive(Clone, Copy, Debug, PartialEq, Eq, Structural)]
pub enum EncoderProfile {
    /// Pictures that are predicted from earlier ones, with variable-length codes.
    Baseline,
    /// Also pictures that are predicted from both sides, and arithmetic coding.
    Main,
    /// Also eight-by-eight transforms and scaling matrices.
    High,
}

impl EncoderProfile {
    /// Its number in the stream.
    pub open spec fn number(self) -> u8 {
        match self {
            EncoderProfile::Baseline => 66,
            EncoderProfile::Main => 77,
            EncoderProfile::High => 100,
        }
    }

    /// Which other profiles the stream also follows.
    pub open spec fn flags(self) -> u8 {
        match self {
            EncoderProfile::Baseline => 0xc0,
            _ => 0,
        }
    }

    /// Its number in the stream.
    pub fn profile_idc(self) -> (number: u8)
        ensures
            number == self.number(),
    {
        match self {
            EncoderProfile::Baseline => 66,
            EncoderProfile::Main => 77,
            EncoderProfile::High => 100,
        }
    }

    /// Which other profiles the stream also follows.
    pub fn compatibility(self) -> (flags: u8)
        ensures
            flags == self.flags(),
    {
        match self {
            EncoderProfile::Baseline => 0xc0,
            EncoderProfile::Main => 0,
            EncoderProfile::High => 0,
        }
    }
}

/// What the stream says of a sequence.
#[derive(Clone, Copy, Debug)]
pub struct SequenceConfiguration {
    /// How wide pictures are.
    pub width: usize,
    /// How high pictures are.
    pub height: usize,
    /// How many macroblocks stand side by side.
    pub macroblocks_wide: usize,
    /// How many macroblocks stand one above the other.
    pub macroblocks_high: usize,
    /// How many pictures are kept for reference.
    pub max_references: usize,
    /// Whether pictures carry their display order.
    pub pic_order_cnt_type0: bool,
    /// The buffer that a decoder needs.
    pub hrd: Option<EncoderHrd>,
    /// The set of tools.
    pub profile: EncoderProfile,
    /// Whether coding is without loss.
    pub transform_bypass: bool,
    /// The scaling matrices.
    pub scaling_matrix: ScalingMatrixPreset,
    /// Whether samples stand for colors of high-definition television.
    pub bt709: bool,
    /// The level.
    pub level: AvcLevel,
}

impl SequenceConfiguration {
    /// Whether the visible part lies in the macroblocks, and everything is in range.
    pub open spec fn valid(&self) -> bool {
        &&& 0 < self.macroblocks_wide <= 36_864
        &&& 0 < self.macroblocks_high <= 36_864
        &&& self.width <= 16 * self.macroblocks_wide
        &&& self.height <= 16 * self.macroblocks_high
        &&& self.max_references <= 4
        &&& self.hrd matches Some(hrd) ==> hrd.valid()
        &&& self.level.level_idc != 0
    }

    /// The byte of flags behind the profile.
    pub open spec fn flags(&self) -> u8 {
        (self.profile.flags() + if self.level.constraint_set3 {
            0x10int
        } else {
            0
        }) as u8
    }

    /// Profile and level.
    pub open spec fn identifiers(&self) -> Seq<bool> {
        bits_of(self.profile.number() as nat, 8) + bits_of(self.flags() as nat, 8) + bits_of(
            self.level.level_idc as nat,
            8,
        )
    }

    /// What only the high profile says.
    pub open spec fn high_bits(&self) -> Seq<bool> {
        if self.profile == EncoderProfile::High {
            ue_bits(1) + ue_bits(0) + ue_bits(0) + seq![
                self.transform_bypass,
                self.scaling_matrix == ScalingMatrixPreset::Jvt,
            ] + if self.scaling_matrix == ScalingMatrixPreset::Jvt {
                Seq::new(8, |i: int| false)
            } else {
                Seq::empty()
            }
        } else {
            Seq::empty()
        }
    }

    /// How pictures are numbered.
    pub open spec fn order_bits(&self) -> Seq<bool> {
        ue_bits(0) + if self.pic_order_cnt_type0 {
            ue_bits(0) + ue_bits(0)
        } else {
            ue_bits(2)
        }
    }

    /// Which part of pictures is seen.
    pub open spec fn crop_bits(&self) -> Seq<bool> {
        let right = 16 * self.macroblocks_wide - self.width;
        let bottom = 16 * self.macroblocks_high - self.height;
        if right != 0 || bottom != 0 {
            seq![true] + ue_bits(0) + ue_bits((right / 2) as nat) + ue_bits(0) + ue_bits(
                (bottom / 2) as nat,
            )
        } else {
            seq![false]
        }
    }

    /// How large pictures are.
    pub open spec fn size_bits(&self) -> Seq<bool> {
        ue_bits(self.max_references as nat) + seq![false] + ue_bits(
            (self.macroblocks_wide - 1) as nat,
        ) + ue_bits((self.macroblocks_high - 1) as nat) + seq![true, true] + self.crop_bits()
    }

    /// What the stream says of colors.
    pub open spec fn color_bits(&self) -> Seq<bool> {
        seq![self.bt709] + if self.bt709 {
            bits_of(5, 3) + seq![false, true] + bits_of(1, 8) + bits_of(1, 8) + bits_of(1, 8)
        } else {
            Seq::empty()
        }
    }

    /// What the stream says of time and of the buffer.
    pub open spec fn buffer_bits(&self) -> Seq<bool> {
        match self.hrd {
            None => seq![false, false],
            Some(hrd) => seq![true] + bits_of(hrd.num_units_in_tick as nat, 32) + bits_of(
                hrd.time_scale as nat,
                32,
            ) + seq![false, true] + ue_bits(0) + bits_of(hrd.bit_rate.scale as nat, 4) + bits_of(
                hrd.cpb_size.scale as nat,
                4,
            ) + ue_bits(hrd.bit_rate.value_minus1 as nat) + ue_bits(
                hrd.cpb_size.value_minus1 as nat,
            ) + seq![false] + bits_of(23, 5) + bits_of(23, 5) + bits_of(23, 5) + bits_of(0, 5),
        }
    }

    /// What the stream says beyond the pictures themselves.
    pub open spec fn usage_bits(&self) -> Seq<bool> {
        let present = self.hrd is Some || self.bt709;
        seq![present] + if present {
            seq![false, false] + self.color_bits() + seq![false] + self.buffer_bits() + seq![false]
                + (if self.hrd is Some {
                seq![false]
            } else {
                Seq::empty()
            }) + seq![false, false]
        } else {
            Seq::empty()
        }
    }

    /// The bits of the parameter set.
    #[verifier::opaque]
    pub open spec fn bits(&self) -> Seq<bool> {
        self.identifiers() + ue_bits(0) + self.high_bits() + self.order_bits() + self.size_bits()
            + self.usage_bits()
    }

    /// The parameter set.
    pub open spec fn unit(&self) -> Seq<u8> {
        nal_of(0x67, packed(finished(self.bits())))
    }

    /// Writes what only the high profile says.
    fn write_high(&self, writer: &mut BitWriter)
        ensures
            final(writer)@ == old(writer)@ + self.high_bits(),
    {
        if self.profile == EncoderProfile::High {
            let _ = write_ue(writer, 1);
            let _ = write_ue(writer, 0);
            let _ = write_ue(writer, 0);
            writer.write_bit(self.transform_bypass);
            let present = self.scaling_matrix == ScalingMatrixPreset::Jvt;
            writer.write_bit(present);
            if present {
                let ghost before = writer@;
                let mut list: usize = 0;
                while list < 8
                    invariant
                        list <= 8,
                        writer@ == before + Seq::new(list as nat, |i: int| false),
                    decreases 8 - list,
                {
                    writer.write_bit(false);
                    list = list + 1;
                    assert(writer@ =~= before + Seq::new(list as nat, |i: int| false));
                }
            }
        }
        assert(writer@ =~= old(writer)@ + self.high_bits());
    }

    /// Writes which part of pictures is seen.
    fn write_crop(&self, writer: &mut BitWriter)
        requires
            self.valid(),
        ensures
            final(writer)@ == old(writer)@ + self.crop_bits(),
    {
        let right: usize = 16 * self.macroblocks_wide - self.width;
        let bottom: usize = 16 * self.macroblocks_high - self.height;
        if right != 0 || bottom != 0 {
            writer.write_bit(true);
            let _ = write_ue(writer, 0);
            let _ = write_ue(writer, (right / 2) as u64);
            let _ = write_ue(writer, 0);
            let _ = write_ue(writer, (bottom / 2) as u64);
        } else {
            writer.write_bit(false);
        }
        assert(writer@ =~= old(writer)@ + self.crop_bits());
    }

    /// Writes how large pictures are.
    fn write_size(&self, writer: &mut BitWriter)
        requires
            self.valid(),
        ensures
            final(writer)@ == old(writer)@ + self.size_bits(),
    {
        let _ = write_ue(writer, self.max_references as u64);
        writer.write_bit(false);
        let _ = write_ue(writer, (self.macroblocks_wide - 1) as u64);
        let _ = write_ue(writer, (self.macroblocks_high - 1) as u64);
        writer.write_bit(true);
        writer.write_bit(true);
        self.write_crop(writer);
        assert(writer@ =~= old(writer)@ + self.size_bits());
    }

    /// Writes what the stream says of colors.
    fn write_color(&self, writer: &mut BitWriter)
        ensures
            final(writer)@ == old(writer)@ + self.color_bits(),
    {
        writer.write_bit(self.bt709);
        if self.bt709 {
            writer.write_bits(5, 3);
            writer.write_bit(false);
            writer.write_bit(true);
            writer.write_bits(1, 8);
            writer.write_bits(1, 8);
            writer.write_bits(1, 8);
        }
        assert(writer@ =~= old(writer)@ + self.color_bits());
    }

    /// Writes what the stream says of time and of the buffer.
    fn write_buffer(&self, writer: &mut BitWriter)
        ensures
            final(writer)@ == old(writer)@ + self.buffer_bits(),
    {
        match self.hrd {
            None => {
                writer.write_bit(false);
                writer.write_bit(false);
            },
            Some(hrd) => {
                writer.write_bit(true);
                writer.write_bits(hrd.num_units_in_tick as u64, 32);
                writer.write_bits(hrd.time_scale as u64, 32);
                writer.write_bit(false);
                writer.write_bit(true);
                let _ = write_ue(writer, 0);
                writer.write_bits(hrd.bit_rate.scale as u64, 4);
                writer.write_bits(hrd.cpb_size.scale as u64, 4);
                let _ = write_ue(writer, hrd.bit_rate.value_minus1 as u64);
                let _ = write_ue(writer, hrd.cpb_size.value_minus1 as u64);
                writer.write_bit(false);
                writer.write_bits((DELAY_BITS - 1) as u64, 5);
                writer.write_bits((DELAY_BITS - 1) as u64, 5);
                writer.write_bits((DELAY_BITS - 1) as u64, 5);
                writer.write_bits(0, 5);
            },
        }
        assert(writer@ =~= old(writer)@ + self.buffer_bits());
    }

    /// Writes what the stream says beyond the pictures themselves.
    fn write_usage(&self, writer: &mut BitWriter)
        ensures
            final(writer)@ == old(writer)@ + self.usage_bits(),
    {
        let present = self.hrd.is_some() || self.bt709;
        writer.write_bit(present);
        if present {
            writer.write_bit(false);
            writer.write_bit(false);
            self.write_color(writer);
            writer.write_bit(false);
            self.write_buffer(writer);
            writer.write_bit(false);
            if self.hrd.is_some() {
                writer.write_bit(false);
            }
            writer.write_bit(false);
            writer.write_bit(false);
        }
        assert(writer@ =~= old(writer)@ + self.usage_bits());
    }
}

#[verifier::spinoff_prover]
#[verifier::rlimit(40)]
proof fn lemma_sequence_length(configuration: SequenceConfiguration)
    requires
        configuration.valid(),
    ensures
        24 <= configuration.bits().len() <= 3000,
{
    reveal(SequenceConfiguration::bits);
    let c = configuration;
    lemma_ue_length(0);
    lemma_ue_length(1);
    lemma_ue_length(2);
    lemma_ue_length(c.max_references as nat);
    lemma_ue_length((c.macroblocks_wide - 1) as nat);
    lemma_ue_length((c.macroblocks_high - 1) as nat);
    lemma_ue_length(((16 * c.macroblocks_wide - c.width) / 2) as nat);
    lemma_ue_length(((16 * c.macroblocks_high - c.height) / 2) as nat);
    crate::bits::lemma_bits_of_len(c.profile.number() as nat, 8);
    crate::bits::lemma_bits_of_len(c.flags() as nat, 8);
    crate::bits::lemma_bits_of_len(c.level.level_idc as nat, 8);
    crate::bits::lemma_bits_of_len(5, 3);
    crate::bits::lemma_bits_of_len(1, 8);
    crate::bits::lemma_bits_of_len(23, 5);
    crate::bits::lemma_bits_of_len(0, 5);
    if let Some(hrd) = c.hrd {
        crate::bits::lemma_bits_of_len(hrd.num_units_in_tick as nat, 32);
        crate::bits::lemma_bits_of_len(hrd.time_scale as nat, 32);
        crate::bits::lemma_bits_of_len(hrd.bit_rate.scale as nat, 4);
        crate::bits::lemma_bits_of_len(hrd.cpb_size.scale as nat, 4);
        lemma_ue_length(hrd.bit_rate.value_minus1 as nat);
        lemma_ue_length(hrd.cpb_size.value_minus1 as nat);
    }
    assert(c.identifiers().len() == 24);
    assert(c.high_bits().len() <= 400);
    assert(c.order_bits().len() <= 400);
    assert(c.crop_bits().len() <= 520);
    assert(c.size_bits().len() <= 920);
    assert(c.color_bits().len() <= 30);
    assert(c.buffer_bits().len() <= 500);
    assert(c.usage_bits().len() <= 540);
}

proof fn lemma_escaped_length(data: Seq<u8>, zeros: nat)
    ensures
        data.len() <= escaped(data, zeros).len() <= 2 * data.len(),
    decreases data.len(),
{
    if data.len() > 0 {
        let guard = zeros == 2 && data[0] <= 3;
        let before: nat = if guard {
            0
        } else {
            zeros
        };
        lemma_escaped_length(
            data.skip(1),
            if data[0] == 0 {
                before + 1
            } else {
                0
            },
        );
    }
}

/// Writes the parameter set of a sequence.
pub fn encode_sps(configuration: &SequenceConfiguration) -> (sps: Vec<u8>)
    requires
        configuration.valid(),
    ensures
        sps@ == configuration.unit(),
        4 <= sps@.len() <= 2000,
{
    let mut writer = BitWriter::new();
    let ghost c = *configuration;
    writer.write_bits(configuration.profile.profile_idc() as u64, 8);
    let level_flags: u8 = if configuration.level.constraint_set3 {
        0x10
    } else {
        0
    };
    let flags: u8 = configuration.profile.compatibility() + level_flags;
    writer.write_bits(flags as u64, 8);
    writer.write_bits(configuration.level.level_idc as u64, 8);
    let _ = write_ue(&mut writer, 0);
    configuration.write_high(&mut writer);
    let _ = write_ue(&mut writer, 0);
    if configuration.pic_order_cnt_type0 {
        let _ = write_ue(&mut writer, 0);
        let _ = write_ue(&mut writer, 0);
    } else {
        let _ = write_ue(&mut writer, 2);
    }
    configuration.write_size(&mut writer);
    configuration.write_usage(&mut writer);
    proof {
        reveal(SequenceConfiguration::bits);
        assert(writer@ =~= c.bits());
        lemma_sequence_length(c);
        lemma_escaped_length(packed(finished(c.bits())), 0);
    }
    finish_rbsp(&mut writer);
    make_nal(0x67, writer.into_bytes())
}

/// The bits of the parameter set of pictures.
pub open spec fn picture_set_bits(transform_8x8_mode: bool, cabac: bool) -> Seq<bool> {
    ue_bits(0) + ue_bits(0) + seq![cabac, false] + ue_bits(0) + ue_bits(0) + ue_bits(0) + seq![
        false,
    ] + bits_of(0, 2) + se_bits(0) + se_bits(0) + se_bits(0) + seq![true, false, false] + if transform_8x8_mode {
        seq![true, false] + se_bits(0)
    } else {
        Seq::empty()
    }
}

/// The parameter set of pictures.
pub open spec fn picture_set(transform_8x8_mode: bool, cabac: bool) -> Seq<u8> {
    nal_of(0x68, packed(finished(picture_set_bits(transform_8x8_mode, cabac))))
}

/// Writes the parameter set of pictures.
#[verifier::spinoff_prover]
#[verifier::rlimit(40)]
pub fn encode_pps(transform_8x8_mode: bool, entropy_coding: EntropyCoding) -> (pps: Vec<u8>)
    ensures
        pps@ == picture_set(transform_8x8_mode, entropy_coding == EntropyCoding::Cabac),
        1 <= pps@.len() <= 2000,
{
    let cabac = match entropy_coding {
        EntropyCoding::Cabac => true,
        EntropyCoding::Cavlc => false,
    };
    let mut writer = BitWriter::new();
    let _ = write_ue(&mut writer, 0);
    let _ = write_ue(&mut writer, 0);
    writer.write_bit(cabac);
    writer.write_bit(false);
    let _ = write_ue(&mut writer, 0);
    let _ = write_ue(&mut writer, 0);
    let _ = write_ue(&mut writer, 0);
    writer.write_bit(false);
    writer.write_bits(0, 2);
    let _ = write_se(&mut writer, 0);
    let _ = write_se(&mut writer, 0);
    let _ = write_se(&mut writer, 0);
    writer.write_bit(true);
    writer.write_bit(false);
    writer.write_bit(false);
    if transform_8x8_mode {
        writer.write_bit(true);
        writer.write_bit(false);
        let _ = write_se(&mut writer, 0);
    }
    proof {
        let bits = picture_set_bits(transform_8x8_mode, cabac);
        assert(writer@ =~= bits);
        lemma_ue_length(0);
        crate::bits::lemma_bits_of_len(0, 2);
        assert(bits.len() <= 2000);
        lemma_escaped_length(packed(finished(bits)), 0);
    }
    finish_rbsp(&mut writer);
    make_nal(0x68, writer.into_bytes())
}

/// How long parameter sets are.
pub proof fn lemma_set_lengths(
    configuration: SequenceConfiguration,
    transform_8x8_mode: bool,
    cabac: bool,
)
    requires
        configuration.valid(),
    ensures
        4 <= configuration.unit().len() <= 2000,
        1 <= picture_set(transform_8x8_mode, cabac).len() <= 2000,
{
    lemma_sequence_length(configuration);
    lemma_escaped_length(packed(finished(configuration.bits())), 0);
    let bits = picture_set_bits(transform_8x8_mode, cabac);
    lemma_ue_length(0);
    crate::bits::lemma_bits_of_len(0, 2);
    assert(bits.len() <= 2000);
    lemma_escaped_length(packed(finished(bits)), 0);
}

/// The parameter set of a sequence names its profile and its level in its first bytes, where the
/// configuration record finds them.
pub proof fn law_identifiers(configuration: SequenceConfiguration)
    requires
        configuration.valid(),
    ensures
        configuration.unit()[1] == configuration.profile.number(),
        configuration.unit()[2] == configuration.flags(),
        configuration.unit()[3] == configuration.level.level_idc,
{
    let c = configuration;
    let rest = ue_bits(0) + c.high_bits() + c.order_bits() + c.size_bits() + c.usage_bits();
    assert(c.bits() =~= c.identifiers() + rest) by {
        reveal(SequenceConfiguration::bits);
    }
    lemma_first_bytes(c.profile.number(), c.flags(), c.level.level_idc, rest);
    lemma_escaped_start(packed(finished(c.bits())));
}

/// The first three bytes of a payload that starts with them.
proof fn lemma_first_bytes(first: u8, second: u8, third: u8, rest: Seq<bool>)
    ensures
        ({
            let data = packed(
                finished(
                    bits_of(first as nat, 8) + bits_of(second as nat, 8) + bits_of(third as nat, 8)
                        + rest,
                ),
            );
            data.len() >= 3 && data[0] == first && data[1] == second && data[2] == third
        }),
{
    crate::bits::lemma_bits_of_len(first as nat, 8);
    crate::bits::lemma_bits_of_len(second as nat, 8);
    crate::bits::lemma_bits_of_len(third as nat, 8);
    crate::bits::lemma_power_of_eight();
    crate::bits::law_bits_value_of_bits(first as nat, 8);
    crate::bits::law_bits_value_of_bits(second as nat, 8);
    crate::bits::law_bits_value_of_bits(third as nat, 8);
    let bits = finished(
        bits_of(first as nat, 8) + bits_of(second as nat, 8) + bits_of(third as nat, 8) + rest,
    );
    let all = aligned(bits, false);
    assert(all.subrange(0, 8) =~= bits_of(first as nat, 8));
    assert(all.subrange(8, 16) =~= bits_of(second as nat, 8));
    assert(all.subrange(16, 24) =~= bits_of(third as nat, 8));
    let data = packed(bits);
    assert(data[0] == bits_value(all.subrange(8int * 0, 8int * 0 + 8)) as u8);
    assert(data[1] == bits_value(all.subrange(8int * 1, 8int * 1 + 8)) as u8);
    assert(data[2] == bits_value(all.subrange(8int * 2, 8int * 2 + 8)) as u8);
}

/// No guard stands before the third byte of a payload that does not start with zero.
proof fn lemma_escaped_start(data: Seq<u8>)
    requires
        data.len() >= 3,
        data[0] != 0,
    ensures
        escaped(data, 0).len() >= 3,
        escaped(data, 0)[0] == data[0],
        escaped(data, 0)[1] == data[1],
        escaped(data, 0)[2] == data[2],
{
    let one = data.skip(1);
    let two = one.skip(1);
    let three = two.skip(1);
    let zeros: nat = if data[1] == 0 {
        1
    } else {
        0
    };
    let more: nat = if data[2] == 0 {
        zeros + 1
    } else {
        0
    };
    assert(escaped(data, 0) == seq![data[0]] + escaped(one, 0));
    assert(escaped(one, 0) == seq![data[1]] + escaped(two, zeros));
    assert(escaped(two, zeros) == seq![data[2]] + escaped(three, more));
}

} // verus!
