//! How syntax elements become symbols of the arithmetic encoder.

use vstd::prelude::*;

use crate::arithmetic::Bin;
use crate::bits::power_of_two;
use crate::math::{magnitude, unit};

verus! {

/// How many adaptive probabilities there are.
pub const SLOT_COUNT: usize = 340;

/// The first probability of macroblock types in pictures that stand alone.
pub const TYPE_I: usize = 0;

/// The first probability of chroma prediction modes.
pub const CHROMA_MODE: usize = 11;

/// The first probability of luma prediction modes.
pub const INTRA_MODE: usize = 15;

/// The first probability of quantizer changes.
pub const QP_DELTA: usize = 17;

/// The first probability of the luma part of patterns.
pub const PATTERN_LUMA: usize = 21;

/// The first probability of the chroma part of patterns.
pub const PATTERN_CHROMA: usize = 25;

/// The first probability of transform sizes.
pub const TRANSFORM_SIZE: usize = 33;

/// The first probability of macroblocks that are not coded.
pub const SKIP: usize = 36;

/// The first probability of macroblock types in pictures that are predicted from earlier ones.
pub const TYPE_P: usize = 39;

/// The first probability of quarter types in pictures that are predicted from earlier ones.
pub const SUB_TYPE_P: usize = 43;

/// The first probability of macroblock types in pictures that are predicted from both sides.
pub const TYPE_B: usize = 46;

/// The first probability of quarter types in pictures that are predicted from both sides.
pub const SUB_TYPE_B: usize = 52;

/// The first probability of reference indices.
pub const REFERENCE_INDEX: usize = 56;

/// The first probability of horizontal vector differences.
pub const MOTION_X: usize = 62;

/// The first probability of vertical vector differences.
pub const MOTION_Y: usize = 69;

/// The first probability of residual blocks.
pub const RESIDUAL: usize = 76;

/// How many probabilities a kind of residual block has.
pub const RESIDUAL_SLOTS: usize = 44;

/// The kind of residual block.
#[derive(Clone, Copy, Debug, PartialEq, Eq, Structural)]
pub enum BlockKind {
    /// The means of luma blocks.
    LumaDc,
    /// Luma blocks without their means.
    LumaAc,
    /// Luma blocks of four by four.
    Luma4x4,
    /// The means of chroma blocks.
    ChromaDc,
    /// Chroma blocks without their means.
    ChromaAc,
    /// Luma blocks of eight by eight.
    Luma8x8,
}

impl BlockKind {
    /// The first probability of a kind.
    pub open spec fn base(self) -> int {
        match self {
            BlockKind::LumaDc => 76,
            BlockKind::LumaAc => 120,
            BlockKind::Luma4x4 => 164,
            BlockKind::ChromaDc => 208,
            BlockKind::ChromaAc => 252,
            BlockKind::Luma8x8 => 296,
        }
    }

    /// The first probability of a kind.
    pub fn first_slot(self) -> (slot: usize)
        ensures
            slot == self.base(),
            76 <= slot <= 296,
    {
        match self {
            BlockKind::LumaDc => RESIDUAL,
            BlockKind::LumaAc => RESIDUAL + RESIDUAL_SLOTS,
            BlockKind::Luma4x4 => RESIDUAL + 2 * RESIDUAL_SLOTS,
            BlockKind::ChromaDc => RESIDUAL + 3 * RESIDUAL_SLOTS,
            BlockKind::ChromaAc => RESIDUAL + 4 * RESIDUAL_SLOTS,
            BlockKind::Luma8x8 => RESIDUAL + 5 * RESIDUAL_SLOTS,
        }
    }
}

/// A symbol with an adaptive probability.
pub open spec fn decision(slot: int, value: bool) -> Bin {
    Bin::Decision { slot: slot as u16, value }
}

/// Whether a symbol stands inside a picture: its probability exists, and it does not end the data.
pub open spec fn inner_bin(bin: Bin) -> bool {
    match bin {
        Bin::Decision { slot, value } => slot < SLOT_COUNT,
        Bin::Bypass(value) => true,
        Bin::Terminate(value) => !value,
    }
}

/// Whether all symbols stand inside a picture.
pub open spec fn inner_bins(bins: Seq<Bin>) -> bool {
    forall|i: int| 0 <= i < bins.len() ==> inner_bin(#[trigger] bins[i])
}

/// Appends a symbol with an adaptive probability.
pub fn push_decision(bins: &mut Vec<Bin>, slot: usize, value: bool)
    requires
        slot < SLOT_COUNT,
        inner_bins(old(bins)@),
    ensures
        final(bins)@ == old(bins)@.push(decision(slot as int, value)),
        inner_bins(final(bins)@),
{
    bins.push(Bin::Decision { slot: slot as u16, value });
}

/// Appends a symbol whose values are equally probable.
pub fn push_bypass(bins: &mut Vec<Bin>, value: bool)
    requires
        inner_bins(old(bins)@),
    ensures
        final(bins)@ == old(bins)@.push(Bin::Bypass(value)),
        inner_bins(final(bins)@),
{
    bins.push(Bin::Bypass(value));
}

/// The type of a macroblock in a picture that stands alone.
pub open spec fn type_i_bins(kind: int, increment: int) -> Seq<Bin> {
    let code = kind - 1;
    let rest = code % 12;
    if kind == 0 {
        seq![decision(TYPE_I + 3 + increment, false)]
    } else {
        seq![
            decision(TYPE_I + 3 + increment, true),
            Bin::Terminate(false),
            decision(TYPE_I + 6, code >= 12),
            decision(TYPE_I + 7, rest >= 4),
        ] + (if rest >= 4 {
            seq![decision(TYPE_I + 8, rest >= 8)]
        } else {
            Seq::empty()
        }) + seq![decision(TYPE_I + 9, rest % 4 >= 2), decision(TYPE_I + 10, rest % 2 == 1)]
    }
}

/// Appends the type of a macroblock in a picture that stands alone.
pub fn encode_cabac_i_macroblock_type(bins: &mut Vec<Bin>, macroblock_type: u8, increment: usize)
    requires
        macroblock_type <= 24,
        increment <= 2,
        inner_bins(old(bins)@),
    ensures
        final(bins)@ == old(bins)@ + type_i_bins(macroblock_type as int, increment as int),
        inner_bins(final(bins)@),
{
    push_decision(bins, TYPE_I + 3 + increment, macroblock_type != 0);
    if macroblock_type == 0 {
        assert(bins@ =~= old(bins)@ + type_i_bins(macroblock_type as int, increment as int));
        return;
    }
    bins.push(Bin::Terminate(false));
    let code: u8 = macroblock_type - 1;
    push_decision(bins, TYPE_I + 6, code >= 12);
    let rest: u8 = code % 12;
    push_decision(bins, TYPE_I + 7, rest >= 4);
    if rest >= 4 {
        push_decision(bins, TYPE_I + 8, rest >= 8);
    }
    push_decision(bins, TYPE_I + 9, rest % 4 >= 2);
    push_decision(bins, TYPE_I + 10, rest % 2 == 1);
    assert(bins@ =~= old(bins)@ + type_i_bins(macroblock_type as int, increment as int));
}

/// A chroma prediction mode.
pub open spec fn chroma_mode_bins(mode: int, increment: int) -> Seq<Bin> {
    seq![decision(CHROMA_MODE + increment, mode != 0)] + (if mode != 0 {
        seq![decision(CHROMA_MODE + 3, mode != 1)]
    } else {
        Seq::empty()
    }) + if mode > 1 {
        seq![decision(CHROMA_MODE + 3, mode == 3)]
    } else {
        Seq::empty()
    }
}

/// Appends a chroma prediction mode.
pub fn encode_cabac_chroma_prediction_mode(bins: &mut Vec<Bin>, mode: u8, increment: usize)
    requires
        mode <= 3,
        increment <= 2,
        inner_bins(old(bins)@),
    ensures
        final(bins)@ == old(bins)@ + chroma_mode_bins(mode as int, increment as int),
        inner_bins(final(bins)@),
{
    push_decision(bins, CHROMA_MODE + increment, mode != 0);
    if mode != 0 {
        push_decision(bins, CHROMA_MODE + 3, mode != 1);
        if mode > 1 {
            push_decision(bins, CHROMA_MODE + 3, mode == 3);
        }
    }
    assert(bins@ =~= old(bins)@ + chroma_mode_bins(mode as int, increment as int));
}

/// A luma prediction mode, where another one is predicted.
pub open spec fn luma_mode_bins(mode: int, predicted: int) -> Seq<Bin> {
    let rest = mode - unit(mode > predicted);
    seq![decision(INTRA_MODE as int, mode == predicted)] + if mode == predicted {
        Seq::empty()
    } else {
        seq![
            decision(INTRA_MODE + 1, rest % 2 == 1),
            decision(INTRA_MODE + 1, rest / 2 % 2 == 1),
            decision(INTRA_MODE + 1, rest / 4 % 2 == 1),
        ]
    }
}

/// Appends a luma prediction mode, where another one is predicted.
pub fn encode_cabac_luma_mode(bins: &mut Vec<Bin>, mode: u8, predicted: u8)
    requires
        inner_bins(old(bins)@),
    ensures
        final(bins)@ == old(bins)@ + luma_mode_bins(mode as int, predicted as int),
        inner_bins(final(bins)@),
{
    push_decision(bins, INTRA_MODE, mode == predicted);
    if mode != predicted {
        let rest: u8 = if mode > predicted {
            mode - 1
        } else {
            mode
        };
        push_decision(bins, INTRA_MODE + 1, rest % 2 == 1);
        push_decision(bins, INTRA_MODE + 1, rest / 2 % 2 == 1);
        push_decision(bins, INTRA_MODE + 1, rest / 4 % 2 == 1);
    }
    assert(bins@ =~= old(bins)@ + luma_mode_bins(mode as int, predicted as int));
}

/// The rest of a unary number, from its `index`th symbol to the one before `code`.
pub open spec fn unary_delta(index: int, code: int) -> Seq<Bin>
    decreases code - index,
{
    if index >= code {
        seq![decision(QP_DELTA + if code == 1 { 2int } else { 3 }, false)]
    } else {
        seq![decision(QP_DELTA + if index == 1 { 2int } else { 3 }, true)] + unary_delta(
            index + 1,
            code,
        )
    }
}

/// A change of the quantizer.
pub open spec fn qp_delta_bins(delta: int, previous: int) -> Seq<Bin> {
    seq![decision(QP_DELTA + unit(previous != 0), delta != 0)] + if delta == 0 {
        Seq::empty()
    } else if delta > 0 {
        unary_delta(1, 2 * delta - 1)
    } else {
        unary_delta(1, -2 * delta)
    }
}

/// Appends a change of the quantizer.
pub fn encode_cabac_macroblock_qp_delta(bins: &mut Vec<Bin>, delta: i32, previous: i32)
    requires
        -64 <= delta <= 64,
        inner_bins(old(bins)@),
    ensures
        final(bins)@ == old(bins)@ + qp_delta_bins(delta as int, previous as int),
        inner_bins(final(bins)@),
{
    let first: usize = if previous != 0 {
        QP_DELTA + 1
    } else {
        QP_DELTA
    };
    push_decision(bins, first, delta != 0);
    if delta == 0 {
        assert(bins@ =~= old(bins)@ + qp_delta_bins(delta as int, previous as int));
        return;
    }
    let code: i32 = if delta > 0 {
        2 * delta - 1
    } else {
        -2 * delta
    };
    let ghost before = bins@;
    let mut index: i32 = 1;
    while index < code
        invariant
            1 <= index <= code <= 128,
            inner_bins(bins@),
            bins@ + unary_delta(index as int, code as int) == before + unary_delta(1, code as int),
        decreases code - index,
    {
        let ghost step = bins@;
        let slot: usize = if index == 1 {
            QP_DELTA + 2
        } else {
            QP_DELTA + 3
        };
        push_decision(bins, slot, true);
        index = index + 1;
        assert(bins@ + unary_delta(index as int, code as int) =~= step + unary_delta(
            index - 1,
            code as int,
        ));
    }
    let slot: usize = if code == 1 {
        QP_DELTA + 2
    } else {
        QP_DELTA + 3
    };
    push_decision(bins, slot, false);
    assert(bins@ =~= before + unary_delta(1, code as int));
    assert(bins@ =~= old(bins)@ + qp_delta_bins(delta as int, previous as int));
}

/// Which probability a mark in a pattern has, by whether the quarters around it are marked.
#[verifier::opaque]
pub open spec fn mark_slot(left: bool, top: bool) -> int {
    PATTERN_LUMA + unit(!left) + 2 * unit(!top)
}

/// The luma part of a pattern, where the patterns to the left and above are known.
#[verifier::opaque]
pub open spec fn luma_pattern_bins(pattern: int, left: int, top: int) -> Seq<Bin> {
    seq![
        decision(mark_slot(left / 2 % 2 == 1, top / 4 % 2 == 1), pattern % 2 == 1),
        decision(mark_slot(pattern % 2 == 1, top / 8 % 2 == 1), pattern / 2 % 2 == 1),
        decision(mark_slot(left / 8 % 2 == 1, pattern % 2 == 1), pattern / 4 % 2 == 1),
        decision(mark_slot(pattern / 4 % 2 == 1, pattern / 2 % 2 == 1), pattern / 8 % 2 == 1),
    ]
}

/// The chroma part of a pattern, where those to the left and above are known.
#[verifier::opaque]
pub open spec fn chroma_pattern_bins(chroma: int, left: int, top: int) -> Seq<Bin> {
    seq![decision(PATTERN_CHROMA + unit(left > 0) + 2 * unit(top > 0), chroma != 0)]
        + if chroma != 0 {
        seq![decision(PATTERN_CHROMA + 4 + unit(left == 2) + 2 * unit(top == 2), chroma == 2)]
    } else {
        Seq::empty()
    }
}

/// A pattern, where the patterns to the left and above are known.
pub open spec fn pattern_bins(pattern: int, left: int, top: int) -> Seq<Bin> {
    luma_pattern_bins(pattern, left, top) + chroma_pattern_bins(pattern / 16, left / 16, top / 16)
}

/// One for `true`, zero for `false`.
pub fn flag(condition: bool) -> (value: usize)
    ensures
        value == unit(condition),
{
    if condition {
        1
    } else {
        0
    }
}

/// Finds which probability a mark in a pattern has.
fn find_mark_slot(left: bool, top: bool) -> (slot: usize)
    ensures
        slot == mark_slot(left, top),
        slot < SLOT_COUNT,
{
    reveal(mark_slot);
    PATTERN_LUMA + flag(!left) + 2 * flag(!top)
}

/// Appends the luma part of a pattern.
fn push_luma_pattern(bins: &mut Vec<Bin>, pattern: u8, left: u8, top: u8)
    requires
        inner_bins(old(bins)@),
    ensures
        final(bins)@ == old(bins)@ + luma_pattern_bins(pattern as int, left as int, top as int),
        inner_bins(final(bins)@),
{
    reveal(luma_pattern_bins);
    let first = pattern % 2 == 1;
    let second = pattern / 2 % 2 == 1;
    let third = pattern / 4 % 2 == 1;
    let fourth = pattern / 8 % 2 == 1;
    push_decision(bins, find_mark_slot(left / 2 % 2 == 1, top / 4 % 2 == 1), first);
    push_decision(bins, find_mark_slot(first, top / 8 % 2 == 1), second);
    push_decision(bins, find_mark_slot(left / 8 % 2 == 1, first), third);
    push_decision(bins, find_mark_slot(third, second), fourth);
    assert(bins@ =~= old(bins)@ + luma_pattern_bins(pattern as int, left as int, top as int));
}

/// Appends the chroma part of a pattern.
fn push_chroma_pattern(bins: &mut Vec<Bin>, chroma: u8, left: u8, top: u8)
    requires
        inner_bins(old(bins)@),
    ensures
        final(bins)@ == old(bins)@ + chroma_pattern_bins(chroma as int, left as int, top as int),
        inner_bins(final(bins)@),
{
    reveal(chroma_pattern_bins);
    push_decision(bins, PATTERN_CHROMA + flag(left > 0) + 2 * flag(top > 0), chroma != 0);
    if chroma != 0 {
        push_decision(bins, PATTERN_CHROMA + 4 + flag(left == 2) + 2 * flag(top == 2), chroma == 2);
    }
    assert(bins@ =~= old(bins)@ + chroma_pattern_bins(chroma as int, left as int, top as int));
}

/// Appends a pattern, where the patterns to the left and above are known.
pub fn encode_cabac_coded_block_pattern(bins: &mut Vec<Bin>, pattern: u8, left: u8, top: u8)
    requires
        inner_bins(old(bins)@),
    ensures
        final(bins)@ == old(bins)@ + pattern_bins(pattern as int, left as int, top as int),
        inner_bins(final(bins)@),
{
    push_luma_pattern(bins, pattern, left, top);
    push_chroma_pattern(bins, pattern / 16, left / 16, top / 16);
    assert(bins@ =~= old(bins)@ + pattern_bins(pattern as int, left as int, top as int));
}

/// The lowest `count` binary digits of a number, the highest first.
pub open spec fn bypass_bits(value: int, count: nat) -> Seq<Bin>
    decreases count,
{
    if count == 0 {
        Seq::empty()
    } else {
        bypass_bits(value / 2, (count - 1) as nat).push(Bin::Bypass(value % 2 == 1))
    }
}

/// Appends the lowest `count` binary digits of a number, the highest first.
fn push_bypass_bits(bins: &mut Vec<Bin>, value: u64, count: u8)
    requires
        inner_bins(old(bins)@),
    ensures
        final(bins)@ == old(bins)@ + bypass_bits(value as int, count as nat),
        inner_bins(final(bins)@),
    decreases count,
{
    if count > 0 {
        push_bypass_bits(bins, value / 2, count - 1);
        push_bypass(bins, value % 2 == 1);
    }
    assert(bins@ =~= old(bins)@ + bypass_bits(value as int, count as nat));
}

/// An Exp-Golomb code of some order.
pub open spec fn golomb_bins(value: int, order: nat) -> Seq<Bin>
    decreases value,
{
    if value >= power_of_two(order) && power_of_two(order) >= 1 {
        seq![Bin::Bypass(true)] + golomb_bins(value - power_of_two(order), order + 1)
    } else {
        seq![Bin::Bypass(false)] + bypass_bits(value, order)
    }
}

/// Appends an Exp-Golomb code of some order.
pub fn encode_cabac_unsigned_bypass_order(bins: &mut Vec<Bin>, value: u32, order: u8)
    requires
        order <= 3,
        inner_bins(old(bins)@),
    ensures
        final(bins)@ == old(bins)@ + golomb_bins(value as int, order as nat),
        inner_bins(final(bins)@),
{
    let ghost before = bins@;
    let mut rest: u64 = value as u64;
    let mut suffix: u8 = order;
    let mut power: u64 = if order == 0 {
        1
    } else if order == 1 {
        2
    } else if order == 2 {
        4
    } else {
        8
    };
    proof {
        reveal_with_fuel(power_of_two, 4);
    }
    while rest >= power
        invariant
            rest <= value,
            order <= suffix <= 40,
            power == power_of_two(suffix as nat),
            1 <= power <= 0x2_0000_0000,
            rest >= power ==> power <= 0x1_0000_0000,
            suffix >= 34 ==> power > 0x1_0000_0000,
            suffix <= 34,
            inner_bins(bins@),
            bins@ + golomb_bins(rest as int, suffix as nat) == before + golomb_bins(
                value as int,
                order as nat,
            ),
        decreases rest,
    {
        let ghost step = bins@;
        let ghost held = rest as int;
        push_bypass(bins, true);
        rest = rest - power;
        proof {
            lemma_small_power(suffix as nat);
        }
        power = power * 2;
        suffix = suffix + 1;
        proof {
            lemma_small_power(suffix as nat);
            assert(bins@ + golomb_bins(rest as int, suffix as nat) =~= step + golomb_bins(
                held,
                (suffix - 1) as nat,
            ));
        }
    }
    let ghost step = bins@;
    push_bypass(bins, false);
    push_bypass_bits(bins, rest, suffix);
    assert(bins@ =~= step + golomb_bins(rest as int, suffix as nat));
}

proof fn lemma_small_power(count: nat)
    ensures
        count <= 32 ==> power_of_two(count) <= 0x1_0000_0000,
        count >= 33 ==> power_of_two(count) > 0x1_0000_0000,
    decreases count,
{
    reveal_with_fuel(power_of_two, 9);
    if count > 33 {
        lemma_small_power((count - 1) as nat);
    } else if count >= 8 {
        lemma_small_power_step(count);
    }
}

proof fn lemma_small_power_step(count: nat)
    requires
        8 <= count <= 33,
    ensures
        count <= 32 ==> power_of_two(count) <= 0x1_0000_0000,
        count >= 33 ==> power_of_two(count) > 0x1_0000_0000,
{
    reveal_with_fuel(power_of_two, 34);
}

/// How the magnitude of a level changes what is expected of the next one.
pub open spec fn node_after(node: int, large: bool) -> int {
    if large {
        if node < 4 {
            4
        } else if node < 7 {
            node + 1
        } else {
            7
        }
    } else if node < 3 {
        node + 1
    } else {
        node
    }
}

/// Which probability says whether a level is larger than one.
pub open spec fn one_slot(node: int) -> int {
    if node < 4 {
        node + 1
    } else {
        0
    }
}

/// Which probability says how much larger than one a level is.
pub open spec fn more_slot(node: int) -> int {
    if node < 4 {
        5
    } else {
        node + 2
    }
}

/// `count` symbols that are true.
pub open spec fn repeated_true(slot: int, count: int) -> Seq<Bin>
    decreases count,
{
    if count <= 0 {
        Seq::empty()
    } else {
        repeated_true(slot, count - 1).push(decision(slot, true))
    }
}

/// A level other than zero.
pub open spec fn level_bins(base: int, node: int, level: int) -> Seq<Bin> {
    let size = magnitude(level);
    let slot = base + more_slot(node);
    seq![decision(base + one_slot(node), size > 1)] + (if size <= 1 {
        Seq::empty()
    } else if size < 15 {
        repeated_true(slot, size - 2) + seq![decision(slot, false)]
    } else {
        repeated_true(slot, 13) + golomb_bins(size - 15, 0)
    }) + seq![Bin::Bypass(level < 0)]
}

/// The levels other than zero among the first `count`, the last one first.
pub open spec fn levels_bins(base: int, levels: Seq<int>, node: int, count: int) -> Seq<Bin>
    decreases count,
{
    if count <= 0 {
        Seq::empty()
    } else if levels[count - 1] == 0 {
        levels_bins(base, levels, node, count - 1)
    } else {
        level_bins(base, node, levels[count - 1]) + levels_bins(
            base,
            levels,
            node_after(node, magnitude(levels[count - 1]) > 1),
            count - 1,
        )
    }
}

/// Appends a level other than zero.
fn push_level(bins: &mut Vec<Bin>, base: usize, node: usize, level: i32)
    requires
        base + 10 <= SLOT_COUNT,
        node <= 7,
        level > i32::MIN,
        inner_bins(old(bins)@),
    ensures
        final(bins)@ == old(bins)@ + level_bins(base as int, node as int, level as int),
        inner_bins(final(bins)@),
{
    let size: u32 = if level < 0 {
        (-level) as u32
    } else {
        level as u32
    };
    let one: usize = if node < 4 {
        node + 1
    } else {
        0
    };
    push_decision(bins, base + one, size > 1);
    if size > 1 {
        let more: usize = if node < 4 {
            5
        } else {
            node + 2
        };
        let slot: usize = base + more;
        let most: u32 = if size < 15 {
            size - 2
        } else {
            13
        };
        let ghost before = bins@;
        let mut count: u32 = 0;
        assert(bins@ =~= before + repeated_true(slot as int, 0));
        while count < most
            invariant
                count <= most,
                slot < SLOT_COUNT,
                inner_bins(bins@),
                bins@ == before + repeated_true(slot as int, count as int),
            decreases most - count,
        {
            push_decision(bins, slot, true);
            count = count + 1;
            assert(bins@ =~= before + repeated_true(slot as int, count as int));
        }
        if size < 15 {
            push_decision(bins, slot, false);
        } else {
            encode_cabac_unsigned_bypass_order(bins, size - 15, 0);
        }
    }
    push_bypass(bins, level < 0);
    assert(bins@ =~= old(bins)@ + level_bins(base as int, node as int, level as int));
}

/// Appends the levels other than zero, the last one first.
pub fn encode_cabac_coefficient_levels(bins: &mut Vec<Bin>, base: usize, levels: &[i32])
    requires
        base + 10 <= SLOT_COUNT,
        forall|i: int| 0 <= i < levels@.len() ==> #[trigger] levels@[i] > i32::MIN,
        inner_bins(old(bins)@),
    ensures
        final(bins)@ == old(bins)@ + levels_bins(
            base as int,
            crate::transform::ints(levels@),
            0,
            levels@.len() as int,
        ),
        inner_bins(final(bins)@),
{
    let ghost before = bins@;
    let ghost numbers = crate::transform::ints(levels@);
    let mut node: usize = 0;
    let mut count: usize = levels.len();
    while count > 0
        invariant
            count <= levels@.len(),
            numbers == crate::transform::ints(levels@),
            base + 10 <= SLOT_COUNT,
            node <= 7,
            forall|i: int| 0 <= i < levels@.len() ==> #[trigger] levels@[i] > i32::MIN,
            inner_bins(bins@),
            bins@ + levels_bins(base as int, numbers, node as int, count as int) == before
                + levels_bins(base as int, numbers, 0, levels@.len() as int),
        decreases count,
    {
        let ghost step = bins@;
        let ghost from = node as int;
        let level: i32 = levels[count - 1];
        assert(numbers[count - 1] == level);
        if level != 0 {
            push_level(bins, base, node, level);
            let large = level > 1 || level < -1;
            node = if large {
                if node < 4 {
                    4
                } else if node < 7 {
                    node + 1
                } else {
                    7
                }
            } else if node < 3 {
                node + 1
            } else {
                node
            };
        }
        count = count - 1;
        assert(bins@ + levels_bins(base as int, numbers, node as int, count as int) =~= step
            + levels_bins(base as int, numbers, from, count + 1));
    }
    assert(bins@ =~= before + levels_bins(base as int, numbers, 0, levels@.len() as int));
}

/// Which probability says whether a level of an eight-by-eight block is zero.
pub const LARGE_SIGNIFICANT: [u8; 63] = [
    0, 1, 2, 3, 4, 5, 5, 4, 4, 3, 3, 4, 4, 4, 5, 5, 4, 4, 4, 4, 3, 3, 6, 7, 7, 7, 8, 9, 10, 9, 8, 7,
    7, 6, 11, 12, 13, 11, 6, 7, 8, 9, 14, 10, 9, 8, 6, 11, 12, 13, 11, 6, 9, 14, 10, 9, 11, 12, 13,
    11, 14, 10, 12,
];

/// Which probability says whether a level of an eight-by-eight block is the last one.
pub const LARGE_LAST: [u8; 63] = [
    0, 1, 1, 1, 1, 1, 1, 1, 1, 1, 1, 1, 1, 1, 1, 1, 2, 2, 2, 2, 2, 2, 2, 2, 2, 2, 2, 2, 2, 2, 2, 2,
    3, 3, 3, 3, 3, 3, 3, 3, 4, 4, 4, 4, 4, 4, 4, 4, 5, 5, 5, 5, 6, 6, 6, 6, 7, 7, 7, 7, 8, 8, 8,
];

/// Which probability says whether a level is zero.
#[verifier::opaque]
pub open spec fn significant_slot(kind: BlockKind, position: int) -> int {
    kind.base() + 4 + if kind == BlockKind::Luma8x8 {
        LARGE_SIGNIFICANT[position] as int
    } else {
        position
    }
}

/// Which probability says whether a level is the last one.
#[verifier::opaque]
pub open spec fn last_slot(kind: BlockKind, position: int) -> int {
    kind.base() + 19 + if kind == BlockKind::Luma8x8 {
        LARGE_LAST[position] as int
    } else {
        position
    }
}

/// Finds which probabilities say whether a level is zero and whether it is the last one.
fn find_slots(kind: BlockKind, position: usize) -> (slots: (usize, usize))
    requires
        position < 63,
        kind != BlockKind::Luma8x8 ==> position < 15,
    ensures
        slots.0 == significant_slot(kind, position as int),
        slots.1 == last_slot(kind, position as int),
        slots.0 < SLOT_COUNT,
        slots.1 < SLOT_COUNT,
{
    reveal(significant_slot);
    reveal(last_slot);
    let base: usize = kind.first_slot();
    if kind == BlockKind::Luma8x8 {
        assert(forall|i: int| 0 <= i < 63 ==> #[trigger] LARGE_SIGNIFICANT[i] < 15);
        assert(forall|i: int| 0 <= i < 63 ==> #[trigger] LARGE_LAST[i] < 9);
        (base + 4 + LARGE_SIGNIFICANT[position] as usize, base + 19 + LARGE_LAST[position] as usize)
    } else {
        (base + 4 + position, base + 19 + position)
    }
}

/// Where the last level other than zero stands among the first `count`.
pub open spec fn last_nonzero(levels: Seq<int>, count: int) -> int
    decreases count,
{
    if count <= 0 {
        -1
    } else if levels[count - 1] != 0 {
        count - 1
    } else {
        last_nonzero(levels, count - 1)
    }
}

/// Which levels are other than zero, from some position on.
pub open spec fn map_bins(kind: BlockKind, levels: Seq<int>, last: int, position: int) -> Seq<Bin>
    decreases levels.len() - position,
{
    if position >= levels.len() - 1 {
        Seq::empty()
    } else {
        let significant = levels[position] != 0;
        let here = seq![decision(significant_slot(kind, position), significant)];
        if !significant {
            here + map_bins(kind, levels, last, position + 1)
        } else if position == last {
            here + seq![decision(last_slot(kind, position), true)]
        } else {
            here + seq![decision(last_slot(kind, position), false)] + map_bins(
                kind,
                levels,
                last,
                position + 1,
            )
        }
    }
}

/// A block that holds a level other than zero.
#[verifier::opaque]
pub open spec fn block_bins(kind: BlockKind, levels: Seq<int>) -> Seq<Bin> {
    let last = last_nonzero(levels, levels.len() as int);
    map_bins(kind, levels, last, 0) + levels_bins(kind.base() + 34, levels, 0, last + 1)
}

/// Levels behind the last one that is other than zero say nothing.
proof fn lemma_levels_prefix(base: int, levels: Seq<int>, shorter: Seq<int>, node: int, count: int)
    requires
        0 <= count <= shorter.len() <= levels.len(),
        forall|i: int| 0 <= i < shorter.len() ==> shorter[i] == levels[i],
    ensures
        levels_bins(base, levels, node, count) == levels_bins(base, shorter, node, count),
    decreases count,
{
    if count > 0 {
        lemma_levels_prefix(base, levels, shorter, node, count - 1);
        lemma_levels_prefix(
            base,
            levels,
            shorter,
            node_after(node, magnitude(levels[count - 1]) > 1),
            count - 1,
        );
    }
}

proof fn lemma_last_nonzero(levels: Seq<int>, count: int, place: int)
    requires
        0 <= place < count <= levels.len(),
        levels[place] != 0,
    ensures
        place <= last_nonzero(levels, count) < count,
        levels[last_nonzero(levels, count)] != 0,
    decreases count,
{
    if levels[count - 1] == 0 {
        lemma_last_nonzero(levels, count - 1, place);
    }
}

/// Appends a block that holds a level other than zero.
pub fn encode_cabac_residual_block(bins: &mut Vec<Bin>, kind: BlockKind, levels: &[i32])
    requires
        1 <= levels@.len() <= 64,
        kind != BlockKind::Luma8x8 ==> levels@.len() <= 16,
        forall|i: int| 0 <= i < levels@.len() ==> #[trigger] levels@[i] > i32::MIN,
        exists|i: int| 0 <= i < levels@.len() && #[trigger] levels@[i] != 0,
        inner_bins(old(bins)@),
    ensures
        final(bins)@ == old(bins)@ + block_bins(kind, crate::transform::ints(levels@)),
        inner_bins(final(bins)@),
{
    reveal(block_bins);
    let ghost numbers = crate::transform::ints(levels@);
    let ghost total = levels@.len() as int;
    let length: usize = levels.len();
    let mut end: usize = length;
    proof {
        let place = choose|i: int| 0 <= i < levels@.len() && #[trigger] levels@[i] != 0;
        assert(numbers[place] != 0);
        lemma_last_nonzero(numbers, total, place);
    }
    let ghost last = last_nonzero(numbers, total);
    while end > 0 && levels[end - 1] == 0
        invariant
            end <= length,
            length == levels@.len(),
            numbers == crate::transform::ints(levels@),
            last_nonzero(numbers, end as int) == last,
            last >= 0,
        decreases end,
    {
        assert(numbers[end - 1] == levels@[end - 1]);
        end = end - 1;
    }
    proof {
        assert(end > 0);
        assert(numbers[end - 1] == levels@[end - 1]);
        assert(last == end - 1);
    }
    let ghost before = bins@;
    let mut position: usize = 0;
    let mut open = true;
    while open && position + 1 < length
        invariant
            position <= length <= 64,
            length == levels@.len(),
            kind != BlockKind::Luma8x8 ==> length <= 16,
            1 <= end <= length,
            last == end - 1,
            numbers == crate::transform::ints(levels@),
            inner_bins(bins@),
            open ==> bins@ + map_bins(kind, numbers, last, position as int) == before + map_bins(
                kind,
                numbers,
                last,
                0,
            ),
            !open ==> bins@ == before + map_bins(kind, numbers, last, 0),
            open ==> position < length,
        decreases length - position,
    {
        let ghost step = bins@;
        let (significant, final_one) = find_slots(kind, position);
        let holds = levels[position] != 0;
        assert(numbers[position as int] == levels@[position as int]);
        push_decision(bins, significant, holds);
        if holds {
            let ends = position + 1 == end;
            push_decision(bins, final_one, ends);
            if ends {
                open = false;
            }
        }
        if open {
            assert(bins@ + map_bins(kind, numbers, last, position + 1) =~= step + map_bins(
                kind,
                numbers,
                last,
                position as int,
            ));
        } else {
            assert(bins@ =~= step + map_bins(kind, numbers, last, position as int));
        }
        position = position + 1;
    }
    proof {
        if open {
            assert(map_bins(kind, numbers, last, position as int) =~= Seq::<Bin>::empty());
            assert(bins@ =~= before + map_bins(kind, numbers, last, 0));
        }
    }
    let ghost middle = bins@;
    let base: usize = kind.first_slot() + 34;
    let prefix: &[i32] = vstd::slice::slice_subrange(levels, 0, end);
    proof {
        let shorter = crate::transform::ints(prefix@);
        assert forall|i: int| 0 <= i < shorter.len() implies shorter[i] == numbers[i] by {
            assert(prefix@[i] == levels@[i]);
        }
        lemma_levels_prefix(base as int, numbers, shorter, 0, end as int);
        assert forall|i: int| 0 <= i < prefix@.len() implies #[trigger] prefix@[i] > i32::MIN by {
            assert(prefix@[i] == levels@[i]);
        }
    }
    encode_cabac_coefficient_levels(bins, base, prefix);
    assert(bins@ =~= before + block_bins(kind, numbers));
}

} // verus!
