//! How motion becomes symbols of the arithmetic encoder.

use vstd::prelude::*;

use crate::arithmetic::Bin;
use crate::bins::{
    decision, encode_cabac_unsigned_bypass_order, flag, golomb_bins, inner_bins, push_bypass,
    push_decision, MOTION_X, MOTION_Y, REFERENCE_INDEX, SKIP, SUB_TYPE_B, SUB_TYPE_P, TYPE_B,
    TYPE_P,
};
use crate::deblock::{block_at, luma_block_index};
use crate::math::{magnitude, unit};
use crate::motion::{vector_fits, InterPartition, MotionVector};
use crate::neighbors::{left_entry, read_around, rows, top_entry};
use crate::p_select::SelectedPartition;
use crate::partitions::{direct_quarter, direct_8x8_partition, macroblock_partitions, macroblock_parts};
use crate::residual::luma_block_position;

verus! {

/// The type of a macroblock that is predicted from earlier pictures.
pub open spec fn type_p_bins(kind: int) -> Seq<Bin> {
    seq![decision(TYPE_P as int, false)] + if kind == 0 {
        seq![decision(TYPE_P + 1, false), decision(TYPE_P + 2, false)]
    } else if kind == 1 {
        seq![decision(TYPE_P + 1, true), decision(TYPE_P + 3, true)]
    } else if kind == 2 {
        seq![decision(TYPE_P + 1, true), decision(TYPE_P + 3, false)]
    } else {
        seq![decision(TYPE_P + 1, false), decision(TYPE_P + 2, true)]
    }
}

/// Appends the type of a macroblock that is predicted from earlier pictures.
pub fn encode_cabac_p_macroblock_type(bins: &mut Vec<Bin>, macroblock_type: u8)
    requires
        macroblock_type <= 3,
        inner_bins(old(bins)@),
    ensures
        final(bins)@ == old(bins)@ + type_p_bins(macroblock_type as int),
        inner_bins(final(bins)@),
{
    push_decision(bins, TYPE_P, false);
    let split = macroblock_type == 1 || macroblock_type == 2;
    push_decision(bins, TYPE_P + 1, split);
    if split {
        push_decision(bins, TYPE_P + 3, macroblock_type == 1);
    } else {
        push_decision(bins, TYPE_P + 2, macroblock_type == 3);
    }
    assert(bins@ =~= old(bins)@ + type_p_bins(macroblock_type as int));
}

/// The type of a quarter that is predicted from earlier pictures.
pub open spec fn sub_type_p_bins(kind: int) -> Seq<Bin> {
    seq![decision(SUB_TYPE_P as int, kind == 0)] + (if kind != 0 {
        seq![decision(SUB_TYPE_P + 1, kind >= 2)]
    } else {
        Seq::empty()
    }) + if kind >= 2 {
        seq![decision(SUB_TYPE_P + 2, kind == 2)]
    } else {
        Seq::empty()
    }
}

/// Appends the type of a quarter that is predicted from earlier pictures.
pub fn encode_cabac_p_sub_macroblock_type(bins: &mut Vec<Bin>, sub_type: u8)
    requires
        sub_type <= 3,
        inner_bins(old(bins)@),
    ensures
        final(bins)@ == old(bins)@ + sub_type_p_bins(sub_type as int),
        inner_bins(final(bins)@),
{
    push_decision(bins, SUB_TYPE_P, sub_type == 0);
    if sub_type != 0 {
        push_decision(bins, SUB_TYPE_P + 1, sub_type >= 2);
        if sub_type >= 2 {
            push_decision(bins, SUB_TYPE_P + 2, sub_type == 2);
        }
    }
    assert(bins@ =~= old(bins)@ + sub_type_p_bins(sub_type as int));
}

/// The four binary digits of a long macroblock type.
pub open spec fn long_type(kind: int) -> int {
    if kind <= 10 {
        kind - 3
    } else if kind == 11 {
        14
    } else if kind == 22 {
        15
    } else {
        kind / 2 + 2
    }
}

/// The type of a macroblock that is predicted from both sides.
pub open spec fn type_b_bins(kind: int, increment: int) -> Seq<Bin> {
    let digits = long_type(kind);
    if kind == 0 {
        seq![decision(TYPE_B + increment, false)]
    } else if kind <= 2 {
        seq![
            decision(TYPE_B + increment, true),
            decision(TYPE_B + 3, false),
            decision(TYPE_B + 5, kind == 2),
        ]
    } else {
        seq![
            decision(TYPE_B + increment, true),
            decision(TYPE_B + 3, true),
            decision(TYPE_B + 4, digits / 8 % 2 == 1),
            decision(TYPE_B + 5, digits / 4 % 2 == 1),
            decision(TYPE_B + 5, digits / 2 % 2 == 1),
            decision(TYPE_B + 5, digits % 2 == 1),
        ] + if 12 <= kind <= 21 {
            seq![decision(TYPE_B + 5, kind % 2 == 1)]
        } else {
            Seq::empty()
        }
    }
}

/// Appends the type of a macroblock that is predicted from both sides.
pub fn encode_cabac_b_macroblock_type(bins: &mut Vec<Bin>, macroblock_type: u8, increment: usize)
    requires
        macroblock_type <= 22,
        increment <= 2,
        inner_bins(old(bins)@),
    ensures
        final(bins)@ == old(bins)@ + type_b_bins(macroblock_type as int, increment as int),
        inner_bins(final(bins)@),
{
    push_decision(bins, TYPE_B + increment, macroblock_type != 0);
    if macroblock_type != 0 {
        push_decision(bins, TYPE_B + 3, macroblock_type >= 3);
        if macroblock_type <= 2 {
            push_decision(bins, TYPE_B + 5, macroblock_type == 2);
        } else {
            let digits: u8 = if macroblock_type <= 10 {
                macroblock_type - 3
            } else if macroblock_type == 11 {
                14
            } else if macroblock_type == 22 {
                15
            } else {
                macroblock_type / 2 + 2
            };
            push_decision(bins, TYPE_B + 4, digits / 8 % 2 == 1);
            push_decision(bins, TYPE_B + 5, digits / 4 % 2 == 1);
            push_decision(bins, TYPE_B + 5, digits / 2 % 2 == 1);
            push_decision(bins, TYPE_B + 5, digits % 2 == 1);
            if 12 <= macroblock_type && macroblock_type <= 21 {
                push_decision(bins, TYPE_B + 5, macroblock_type % 2 == 1);
            }
        }
    }
    assert(bins@ =~= old(bins)@ + type_b_bins(macroblock_type as int, increment as int));
}

/// The value of a symbol.
pub open spec fn bin_value(bin: Bin) -> bool {
    match bin {
        Bin::Decision { slot, value } => value,
        Bin::Bypass(value) => value,
        Bin::Terminate(value) => value,
    }
}

/// The type of a macroblock that symbols start with, and how many of them say so.
pub open spec fn type_b_of(bins: Seq<Bin>) -> (int, int) {
    let digits = 8 * unit(bin_value(bins[2])) + 4 * unit(bin_value(bins[3])) + 2 * unit(
        bin_value(bins[4]),
    ) + unit(bin_value(bins[5]));
    if !bin_value(bins[0]) {
        (0, 1)
    } else if !bin_value(bins[1]) {
        (1 + unit(bin_value(bins[2])), 3)
    } else if digits < 8 {
        (digits + 3, 6)
    } else if digits == 14 {
        (11, 6)
    } else if digits == 15 {
        (22, 6)
    } else {
        (2 * (digits - 2) + unit(bin_value(bins[6])), 7)
    }
}

/// The symbols of a macroblock type tell it from all others, whatever follows.
pub proof fn law_type_b(kind: int, increment: int, rest: Seq<Bin>)
    requires
        0 <= kind <= 22,
        0 <= increment <= 2,
    ensures
        type_b_of(type_b_bins(kind, increment) + rest) == (
            kind,
            type_b_bins(kind, increment).len() as int,
        ),
{
    let bins = type_b_bins(kind, increment) + rest;
    let digits = long_type(kind);
    if kind > 2 {
        assert(bins[2] == decision(TYPE_B + 4, digits / 8 % 2 == 1));
        assert(bins[3] == decision(TYPE_B + 5, digits / 4 % 2 == 1));
        assert(bins[4] == decision(TYPE_B + 5, digits / 2 % 2 == 1));
        assert(bins[5] == decision(TYPE_B + 5, digits % 2 == 1));
        if 12 <= kind <= 21 {
            assert(bins[6] == decision(TYPE_B + 5, kind % 2 == 1));
        }
    }
}

/// The type of a quarter that is predicted from both sides.
pub open spec fn sub_type_b_bins(kind: int) -> Seq<Bin> {
    let rest = if kind >= 7 {
        kind - 7
    } else {
        kind - 3
    };
    if kind == 0 {
        seq![decision(SUB_TYPE_B as int, false)]
    } else if kind <= 2 {
        seq![
            decision(SUB_TYPE_B as int, true),
            decision(SUB_TYPE_B + 1, false),
            decision(SUB_TYPE_B + 3, kind == 2),
        ]
    } else if kind >= 11 {
        seq![
            decision(SUB_TYPE_B as int, true),
            decision(SUB_TYPE_B + 1, true),
            decision(SUB_TYPE_B + 2, true),
            decision(SUB_TYPE_B + 3, true),
            decision(SUB_TYPE_B + 3, kind == 12),
        ]
    } else {
        seq![
            decision(SUB_TYPE_B as int, true),
            decision(SUB_TYPE_B + 1, true),
            decision(SUB_TYPE_B + 2, kind >= 7),
        ] + (if kind >= 7 {
            seq![decision(SUB_TYPE_B + 3, false)]
        } else {
            Seq::empty()
        }) + seq![
            decision(SUB_TYPE_B + 3, rest / 2 % 2 == 1),
            decision(SUB_TYPE_B + 3, rest % 2 == 1),
        ]
    }
}

/// Appends the type of a quarter that is predicted from both sides.
pub fn encode_cabac_b_sub_macroblock_type(bins: &mut Vec<Bin>, sub_type: u8)
    requires
        sub_type <= 12,
        inner_bins(old(bins)@),
    ensures
        final(bins)@ == old(bins)@ + sub_type_b_bins(sub_type as int),
        inner_bins(final(bins)@),
{
    push_decision(bins, SUB_TYPE_B, sub_type != 0);
    if sub_type != 0 {
        push_decision(bins, SUB_TYPE_B + 1, sub_type >= 3);
        if sub_type <= 2 {
            push_decision(bins, SUB_TYPE_B + 3, sub_type == 2);
        } else {
            push_decision(bins, SUB_TYPE_B + 2, sub_type >= 7);
            if sub_type >= 7 {
                push_decision(bins, SUB_TYPE_B + 3, sub_type >= 11);
            }
            if sub_type >= 11 {
                push_decision(bins, SUB_TYPE_B + 3, sub_type == 12);
            } else {
                let rest: u8 = if sub_type >= 7 {
                    sub_type - 7
                } else {
                    sub_type - 3
                };
                push_decision(bins, SUB_TYPE_B + 3, rest / 2 % 2 == 1);
                push_decision(bins, SUB_TYPE_B + 3, rest % 2 == 1);
            }
        }
    }
    assert(bins@ =~= old(bins)@ + sub_type_b_bins(sub_type as int));
}

/// The type of a quarter that symbols start with, and how many of them say so.
pub open spec fn sub_type_b_of(bins: Seq<Bin>) -> (int, int) {
    if !bin_value(bins[0]) {
        (0, 1)
    } else if !bin_value(bins[1]) {
        (1 + unit(bin_value(bins[2])), 3)
    } else if !bin_value(bins[2]) {
        (3 + 2 * unit(bin_value(bins[3])) + unit(bin_value(bins[4])), 5)
    } else if bin_value(bins[3]) {
        (11 + unit(bin_value(bins[4])), 5)
    } else {
        (7 + 2 * unit(bin_value(bins[4])) + unit(bin_value(bins[5])), 6)
    }
}

/// The symbols of a quarter type tell it from all others, whatever follows.
pub proof fn law_sub_type_b(kind: int, rest: Seq<Bin>)
    requires
        0 <= kind <= 12,
    ensures
        sub_type_b_of(sub_type_b_bins(kind) + rest) == (
            kind,
            sub_type_b_bins(kind).len() as int,
        ),
{
}

/// Which probability a symbol of a reference index has.
pub open spec fn reference_slot(step: int, increment: int) -> int {
    if step == 0 {
        REFERENCE_INDEX + increment
    } else if step == 1 {
        REFERENCE_INDEX + 4
    } else {
        REFERENCE_INDEX + 5
    }
}

/// The first `count` symbols of a reference index that is not yet reached.
pub open spec fn reference_steps(increment: int, count: int) -> Seq<Bin>
    decreases count,
{
    if count <= 0 {
        Seq::empty()
    } else {
        reference_steps(increment, count - 1).push(
            decision(reference_slot(count - 1, increment), true),
        )
    }
}

/// A reference index in a list of `active_minus1 + 1` pictures.
pub open spec fn reference_bins(index: int, increment: int, active_minus1: int) -> Seq<Bin> {
    if active_minus1 == 0 {
        Seq::empty()
    } else {
        reference_steps(increment, index).push(decision(reference_slot(index, increment), false))
    }
}

/// Finds which probability a symbol of a reference index has.
fn find_reference_slot(step: u8, increment: usize) -> (slot: usize)
    requires
        increment <= 3,
    ensures
        slot == reference_slot(step as int, increment as int),
        slot < 62,
{
    if step == 0 {
        REFERENCE_INDEX + increment
    } else if step == 1 {
        REFERENCE_INDEX + 4
    } else {
        REFERENCE_INDEX + 5
    }
}

/// Appends a reference index in a list of `active_minus1 + 1` pictures.
pub fn encode_cabac_reference_index(
    bins: &mut Vec<Bin>,
    increment: usize,
    reference_index: u8,
    active_references_minus1: u32,
)
    requires
        increment <= 3,
        inner_bins(old(bins)@),
    ensures
        final(bins)@ == old(bins)@ + reference_bins(
            reference_index as int,
            increment as int,
            active_references_minus1 as int,
        ),
        inner_bins(final(bins)@),
{
    if active_references_minus1 == 0 {
        assert(bins@ =~= old(bins)@ + Seq::<Bin>::empty());
        return;
    }
    let ghost before = bins@;
    let mut step: u8 = 0;
    assert(bins@ =~= before + reference_steps(increment as int, 0));
    while step < reference_index
        invariant
            step <= reference_index,
            increment <= 3,
            inner_bins(bins@),
            bins@ == before + reference_steps(increment as int, step as int),
        decreases reference_index - step,
    {
        let slot: usize = find_reference_slot(step, increment);
        push_decision(bins, slot, true);
        step = step + 1;
        assert(bins@ =~= before + reference_steps(increment as int, step as int));
    }
    let slot: usize = find_reference_slot(step, increment);
    push_decision(bins, slot, false);
    assert(bins@ =~= before + reference_bins(
        reference_index as int,
        increment as int,
        active_references_minus1 as int,
    ));
}

/// Which probability a symbol of a vector difference has.
pub open spec fn motion_slot(base: int, size: int) -> int {
    if size < 4 {
        base + 2 + size
    } else {
        base + 6
    }
}

/// The symbols of a size that is not yet reached, up to `count`.
pub open spec fn motion_steps(base: int, count: int) -> Seq<Bin>
    decreases count,
{
    if count <= 1 {
        Seq::empty()
    } else {
        motion_steps(base, count - 1).push(decision(motion_slot(base, count - 1), true))
    }
}

/// Which of the first three probabilities a vector difference has, by the differences around it.
pub open spec fn motion_increment(sum: int) -> int {
    unit(sum > 2) + unit(sum > 32)
}

/// The size of a part of a vector difference that is not zero.
#[verifier::opaque]
pub open spec fn size_bins(base: int, size: int) -> Seq<Bin> {
    if size < 9 {
        motion_steps(base, size) + seq![decision(motion_slot(base, size), false)]
    } else {
        motion_steps(base, 9) + golomb_bins(size - 9, 3)
    }
}

/// A part of a vector difference.
pub open spec fn motion_bins(base: int, sum: int, difference: int) -> Seq<Bin> {
    let size = magnitude(difference);
    seq![decision(base + motion_increment(sum), size != 0)] + if size == 0 {
        Seq::empty()
    } else {
        size_bins(base, size) + seq![Bin::Bypass(difference < 0)]
    }
}

/// Appends the size of a part of a vector difference that is not zero.
fn push_size(bins: &mut Vec<Bin>, base: usize, size: u32)
    requires
        base <= MOTION_Y,
        1 <= size,
        inner_bins(old(bins)@),
    ensures
        final(bins)@ == old(bins)@ + size_bins(base as int, size as int),
        inner_bins(final(bins)@),
{
    reveal(size_bins);
    let ghost before = bins@;
    if size < 9 {
        push_motion_steps(bins, base, size);
        let slot: usize = if size < 4 {
            base + 2 + size as usize
        } else {
            base + 6
        };
        let ghost steps = motion_steps(base as int, size as int);
        push_decision(bins, slot, false);
        assert(bins@ =~= before + (steps + seq![decision(slot as int, false)]));
    } else {
        push_motion_steps(bins, base, 9);
        encode_cabac_unsigned_bypass_order(bins, size - 9, 3);
        let ghost steps = motion_steps(base as int, 9);
        let ghost rest = golomb_bins(size - 9, 3);
        assert(bins@ =~= before + (steps + rest));
    }
}

/// Appends the symbols of a size that is not yet reached, up to `most`.
fn push_motion_steps(bins: &mut Vec<Bin>, base: usize, most: u32)
    requires
        1 <= most <= 9,
        base <= MOTION_Y,
        inner_bins(old(bins)@),
    ensures
        final(bins)@ == old(bins)@ + motion_steps(base as int, most as int),
        inner_bins(final(bins)@),
{
    let ghost before = bins@;
    let mut reached: u32 = 1;
    assert(bins@ =~= before + motion_steps(base as int, 1));
    while reached < most
        invariant
            1 <= reached <= most <= 9,
            base <= MOTION_Y,
            inner_bins(bins@),
            bins@ == before + motion_steps(base as int, reached as int),
        decreases most - reached,
    {
        let slot: usize = if reached < 4 {
            base + 2 + reached as usize
        } else {
            base + 6
        };
        push_decision(bins, slot, true);
        reached = reached + 1;
        assert(bins@ =~= before + motion_steps(base as int, reached as int));
    }
}

/// Appends a part of a vector difference.
pub fn encode_cabac_motion_difference(bins: &mut Vec<Bin>, base: usize, sum: u64, difference: i32)
    requires
        base <= MOTION_Y,
        difference > i32::MIN,
        inner_bins(old(bins)@),
    ensures
        final(bins)@ == old(bins)@ + motion_bins(base as int, sum as int, difference as int),
        inner_bins(final(bins)@),
{
    let size: u32 = if difference < 0 {
        (-difference) as u32
    } else {
        difference as u32
    };
    push_decision(bins, base + flag(sum > 2) + flag(sum > 32), size != 0);
    if size != 0 {
        push_size(bins, base, size);
        push_bypass(bins, difference < 0);
    }
    assert(bins@ =~= old(bins)@ + motion_bins(base as int, sum as int, difference as int));
}

/// A row in which the entries of a part are replaced.
pub open spec fn with_covered<T>(row: Seq<T>, partition: InterPartition, value: T) -> Seq<T> {
    Seq::new(
        16,
        |b: int|
            if partition.covers(b) {
                value
            } else {
                row[b]
            },
    )
}

/// Replaces the entries of a part of a macroblock.
pub fn set_covered<T: Copy>(
    entries: &mut Vec<[T; 16]>,
    address: usize,
    partition: InterPartition,
    value: T,
)
    requires
        address < old(entries)@.len(),
        partition.inside(),
    ensures
        rows(final(entries)@) == rows(old(entries)@).update(
            address as int,
            with_covered(rows(old(entries)@)[address as int], partition, value),
        ),
        final(entries)@.len() == old(entries)@.len(),
{
    let ghost all = rows(entries@);
    let mut row: [T; 16] = entries[address];
    let ghost before = row@;
    let ghost after = with_covered(before, partition, value);
    let mut b: usize = 0;
    while b < 16
        invariant
            b <= 16,
            partition.inside(),
            after == with_covered(before, partition, value),
            forall|j: int| 0 <= j < b ==> #[trigger] row@[j] == after[j],
            forall|j: int| b <= j < 16 ==> #[trigger] row@[j] == before[j],
        decreases 16 - b,
    {
        let (x, y) = luma_block_position(b);
        if partition.block_x <= x && x < partition.block_x + partition.block_width
            && partition.block_y <= y && y < partition.block_y + partition.block_height {
            row[b] = value;
        }
        b = b + 1;
    }
    assert(row@ =~= after);
    entries.set(address, row);
    assert(rows(entries@) =~= all.update(address as int, after));
}

/// The horizontal size of a vector difference, if there is one.
pub open spec fn size_across(entry: Option<MotionVector>) -> int {
    match entry {
        Some(vector) => magnitude(vector.x as int),
        None => 0,
    }
}

/// The vertical size of a vector difference, if there is one.
pub open spec fn size_down(entry: Option<MotionVector>) -> int {
    match entry {
        Some(vector) => magnitude(vector.y as int),
        None => 0,
    }
}

/// Measures a vector difference, if there is one.
fn measure(entry: Option<MotionVector>) -> (sizes: (u64, u64))
    ensures
        sizes.0 == size_across(entry),
        sizes.1 == size_down(entry),
        sizes.0 <= 0x8000_0000,
        sizes.1 <= 0x8000_0000,
{
    match entry {
        Some(vector) => {
            let x: i64 = vector.x as i64;
            let y: i64 = vector.y as i64;
            (
                if x < 0 {
                    (-x) as u64
                } else {
                    x as u64
                },
                if y < 0 {
                    (-y) as u64
                } else {
                    y as u64
                },
            )
        },
        None => (0, 0),
    }
}

/// Symbols, with the vector differences of the blocks so far.
#[verifier::ext_equal]
pub struct Differences {
    /// The symbols.
    pub bins: Seq<Bin>,
    /// The vector differences of each macroblock's blocks.
    pub entries: Seq<Seq<MotionVector>>,
}

/// The difference between the vector of a part and its prediction.
pub open spec fn vector_difference(selected: SelectedPartition) -> MotionVector {
    MotionVector {
        x: (selected.motion.x - selected.predicted.x) as i32,
        y: (selected.motion.y - selected.predicted.y) as i32,
    }
}

/// Symbols and vector differences after those of one more part.
#[verifier::opaque]
pub open spec fn difference_coded(
    state: Differences,
    address: int,
    wide: int,
    selected: SelectedPartition,
) -> Differences {
    let part = selected.partition;
    let block = block_at(part.block_x as int, part.block_y as int);
    let left = left_entry(state.entries, address, block, wide);
    let top = top_entry(state.entries, address, block, wide);
    let difference = vector_difference(selected);
    Differences {
        bins: state.bins + motion_bins(
            MOTION_X as int,
            size_across(left) + size_across(top),
            difference.x as int,
        ) + motion_bins(
            MOTION_Y as int,
            size_down(left) + size_down(top),
            difference.y as int,
        ),
        entries: state.entries.update(
            address,
            with_covered(state.entries[address], part, difference),
        ),
    }
}

/// Appends the vector difference of a part.
pub fn encode_cabac_partition_motion_difference(
    bins: &mut Vec<Bin>,
    entries: &mut Vec<[MotionVector; 16]>,
    address: usize,
    wide: usize,
    selected: SelectedPartition,
)
    requires
        selected.partition.inside(),
        vector_fits(selected.motion),
        vector_fits(selected.predicted),
        address < old(entries)@.len(),
        0 < wide,
        inner_bins(old(bins)@),
    ensures
        (Differences { bins: final(bins)@, entries: rows(final(entries)@) }) == difference_coded(
            Differences { bins: old(bins)@, entries: rows(old(entries)@) },
            address as int,
            wide as int,
            selected,
        ),
        inner_bins(final(bins)@),
        final(entries)@.len() == old(entries)@.len(),
{
    reveal(difference_coded);
    let part: InterPartition = selected.partition;
    let block: usize = luma_block_index(part.block_x, part.block_y);
    let (left, top) = read_around(entries.as_slice(), address, block, wide);
    let (left_x, left_y) = measure(left);
    let (top_x, top_y) = measure(top);
    let difference = MotionVector {
        x: selected.motion.x - selected.predicted.x,
        y: selected.motion.y - selected.predicted.y,
    };
    encode_cabac_motion_difference(bins, MOTION_X, left_x + top_x, difference.x);
    encode_cabac_motion_difference(bins, MOTION_Y, left_y + top_y, difference.y);
    set_covered(entries, address, part, difference);
}

/// Symbols, with the reference indices of the blocks so far.
#[verifier::ext_equal]
pub struct Indices {
    /// The symbols.
    pub bins: Seq<Bin>,
    /// The reference indices of each macroblock's blocks.
    pub entries: Seq<Seq<Option<u8>>>,
}

/// Whether a block refers to another picture than the nearest.
pub open spec fn refers_far(entry: Option<Option<u8>>) -> bool {
    entry matches Some(Some(index)) && index > 0
}

/// The parts of a macroblock that name the pictures that they refer to.
pub open spec fn reference_parts(macroblock_type: int) -> Seq<InterPartition> {
    if macroblock_type == 3 {
        seq![direct_quarter(0), direct_quarter(1), direct_quarter(2), direct_quarter(3)]
    } else {
        macroblock_parts(macroblock_type)
    }
}

/// Lists the parts of a macroblock that name the pictures that they refer to.
pub fn p_reference_partitions(macroblock_type: u8) -> (parts: Vec<InterPartition>)
    requires
        macroblock_type <= 3,
    ensures
        parts@ == reference_parts(macroblock_type as int),
        forall|i: int| 0 <= i < parts@.len() ==> (#[trigger] parts@[i]).inside(),
{
    if macroblock_type == 3 {
        let parts: Vec<InterPartition> = vec![
            direct_8x8_partition(0),
            direct_8x8_partition(1),
            direct_8x8_partition(2),
            direct_8x8_partition(3),
        ];
        assert(parts@ =~= reference_parts(3));
        parts
    } else {
        macroblock_partitions(macroblock_type)
    }
}

/// The reference index of the first part, from some one on, that starts where a part does.
pub open spec fn index_at(
    selected: Seq<SelectedPartition>,
    part: InterPartition,
    from: int,
) -> u8
    decreases selected.len() - from,
{
    if from >= selected.len() {
        selected[0].reference_index
    } else if selected[from].partition.block_x == part.block_x && selected[from].partition.block_y
        == part.block_y {
        selected[from].reference_index
    } else {
        index_at(selected, part, from + 1)
    }
}

/// Finds the reference index of the first part that starts where a part does.
fn find_index(selected: &[SelectedPartition], part: InterPartition) -> (index: u8)
    requires
        selected@.len() > 0,
    ensures
        index == index_at(selected@, part, 0),
{
    let mut from: usize = 0;
    while from < selected.len()
        invariant
            from <= selected@.len(),
            selected@.len() > 0,
            index_at(selected@, part, 0) == index_at(selected@, part, from as int),
        decreases selected@.len() - from,
    {
        if selected[from].partition.block_x == part.block_x && selected[from].partition.block_y
            == part.block_y {
            return selected[from].reference_index;
        }
        from = from + 1;
    }
    selected[0].reference_index
}

/// Symbols and reference indices after those of one more part.
#[verifier::opaque]
pub open spec fn index_coded(
    state: Indices,
    address: int,
    wide: int,
    part: InterPartition,
    index: u8,
    active_minus1: int,
) -> Indices {
    let block = block_at(part.block_x as int, part.block_y as int);
    let increment = unit(refers_far(left_entry(state.entries, address, block, wide))) + 2 * unit(
        refers_far(top_entry(state.entries, address, block, wide)),
    );
    Indices {
        bins: state.bins + reference_bins(index as int, increment, active_minus1),
        entries: state.entries.update(
            address,
            with_covered(state.entries[address], part, Some(index)),
        ),
    }
}

/// Symbols and reference indices after those of the first `count` parts.
pub open spec fn indices_coded(
    state: Indices,
    address: int,
    wide: int,
    parts: Seq<InterPartition>,
    selected: Seq<SelectedPartition>,
    active_minus1: int,
    count: int,
) -> Indices
    decreases count,
{
    if count <= 0 {
        state
    } else {
        index_coded(
            indices_coded(state, address, wide, parts, selected, active_minus1, count - 1),
            address,
            wide,
            parts[count - 1],
            index_at(selected, parts[count - 1], 0),
            active_minus1,
        )
    }
}

/// Whether a block refers to another picture than the nearest.
fn is_far(entry: Option<Option<u8>>) -> (result: bool)
    ensures
        result == refers_far(entry),
{
    match entry {
        Some(Some(index)) => index > 0,
        _ => false,
    }
}

/// Appends the reference indices of a macroblock.
pub fn encode_cabac_reference_indices(
    bins: &mut Vec<Bin>,
    entries: &mut Vec<[Option<u8>; 16]>,
    address: usize,
    wide: usize,
    macroblock_type: u8,
    selected: &[SelectedPartition],
    active_minus1: u32,
)
    requires
        macroblock_type <= 3,
        selected@.len() > 0,
        address < old(entries)@.len(),
        0 < wide,
        inner_bins(old(bins)@),
    ensures
        (Indices { bins: final(bins)@, entries: rows(final(entries)@) }) == indices_coded(
            Indices { bins: old(bins)@, entries: rows(old(entries)@) },
            address as int,
            wide as int,
            reference_parts(macroblock_type as int),
            selected@,
            active_minus1 as int,
            reference_parts(macroblock_type as int).len() as int,
        ),
        inner_bins(final(bins)@),
        final(entries)@.len() == old(entries)@.len(),
{
    let parts: Vec<InterPartition> = p_reference_partitions(macroblock_type);
    let ghost start = Indices { bins: bins@, entries: rows(entries@) };
    let mut count: usize = 0;
    while count < parts.len()
        invariant
            count <= parts@.len(),
            selected@.len() > 0,
            address < entries@.len(),
            entries@.len() == old(entries)@.len(),
            0 < wide,
            forall|i: int| 0 <= i < parts@.len() ==> (#[trigger] parts@[i]).inside(),
            inner_bins(bins@),
            (Indices { bins: bins@, entries: rows(entries@) }) == indices_coded(
                start,
                address as int,
                wide as int,
                parts@,
                selected@,
                active_minus1 as int,
                count as int,
            ),
        decreases parts@.len() - count,
    {
        let part: InterPartition = parts[count];
        assert(parts@[count as int].inside());
        let index: u8 = find_index(selected, part);
        let block: usize = luma_block_index(part.block_x, part.block_y);
        let (left, top) = read_around(entries.as_slice(), address, block, wide);
        let increment: usize = flag(is_far(left)) + 2 * flag(is_far(top));
        proof {
            reveal(index_coded);
        }
        encode_cabac_reference_index(bins, increment, index, active_minus1);
        set_covered(entries, address, part, Some(index));
        count = count + 1;
    }
}

/// Which probability a macroblock that is not coded has, by the macroblocks around it.
pub open spec fn skip_slot(left: Option<bool>, top: Option<bool>) -> int {
    SKIP + unit(left == Some(false)) + unit(top == Some(false))
}

/// Finds which probability a macroblock that is not coded has.
pub fn find_skip_slot(left: Option<bool>, top: Option<bool>) -> (slot: usize)
    ensures
        slot == skip_slot(left, top),
        SKIP <= slot <= SKIP + 2,
{
    let a = match left {
        Some(skipped) => !skipped,
        None => false,
    };
    let b = match top {
        Some(skipped) => !skipped,
        None => false,
    };
    SKIP + flag(a) + flag(b)
}

} // verus!
