//! What the values of symbols tell, whatever follows them.

use vstd::prelude::*;

use crate::arithmetic::Bin;
use crate::bins::{
    block_bins, bypass_bits, chroma_mode_bins, chroma_pattern_bins, decision, golomb_bins,
    last_nonzero, level_bins, levels_bins, luma_mode_bins, luma_pattern_bins, map_bins,
    more_slot, node_after, pattern_bins, qp_delta_bins, repeated_true, type_i_bins, unary_delta,
    BlockKind, QP_DELTA,
};
use crate::bits::power_of_two;
use crate::inter_bins::{
    bin_value, motion_bins, motion_steps, reference_bins, reference_steps, size_bins,
    sub_type_p_bins, type_p_bins,
};
use crate::inter_residual::any_nonzero;
use crate::marks::marked_block_bins;
use crate::math::{magnitude, unit};
use crate::told_codes::lemma_same_start;

verus! {

/// The values of symbols.
pub open spec fn values(bins: Seq<Bin>) -> Seq<bool> {
    Seq::new(bins.len(), |i: int| bin_value(bins[i]))
}

/// `count` values that are true.
spec fn ones(count: int) -> Seq<bool> {
    Seq::new(count as nat, |i: int| true)
}

proof fn lemma_values_joined(first: Seq<Bin>, second: Seq<Bin>)
    ensures
        values(first + second) == values(first) + values(second),
{
    assert(values(first + second) =~= values(first) + values(second));
}

/// A run of true values that ends tells how long it is.
proof fn lemma_run(k: int, m: int, x: Seq<bool>, y: Seq<bool>)
    requires
        0 <= k,
        0 <= m,
        ones(k) + (seq![false] + x) == ones(m) + (seq![false] + y),
    ensures
        k == m,
        x == y,
{
    let left = ones(k) + (seq![false] + x);
    let right = ones(m) + (seq![false] + y);
    if k < m {
        assert(!left[k]);
        assert(right[k]);
    } else if m < k {
        assert(left[m]);
        assert(!right[m]);
    }
    lemma_same_start(ones(k), seq![false] + x, ones(m), seq![false] + y);
    lemma_same_start(seq![false], x, seq![false], y);
}

/// A run of true values that ends does not start with a longer one.
proof fn lemma_short_run(k: int, m: int, x: Seq<bool>, y: Seq<bool>)
    requires
        0 <= k < m,
    ensures
        ones(k) + (seq![false] + x) != ones(m) + y,
{
    assert(!(ones(k) + (seq![false] + x))[k]);
    assert((ones(m) + y)[k]);
}

/// Binary digits tell their number.
pub proof fn lemma_digits(first: int, second: int, count: nat)
    requires
        0 <= first < power_of_two(count),
        0 <= second < power_of_two(count),
        values(bypass_bits(first, count)) == values(bypass_bits(second, count)),
    ensures
        first == second,
    decreases count,
{
    reveal_with_fuel(power_of_two, 2);
    if count > 0 {
        let less = (count - 1) as nat;
        let a = bypass_bits(first / 2, less);
        let b = bypass_bits(second / 2, less);
        lemma_digit_count(first / 2, less);
        lemma_digit_count(second / 2, less);
        let u = values(bypass_bits(first, count));
        let v = values(bypass_bits(second, count));
        assert(u[less as int] == (first % 2 == 1));
        assert(v[less as int] == (second % 2 == 1));
        assert forall|i: int| 0 <= i < less implies values(a)[i] == values(b)[i] by {
            assert(u[i] == values(a)[i]);
            assert(v[i] == values(b)[i]);
        }
        assert(values(a) =~= values(b));
        lemma_digits(first / 2, second / 2, less);
    }
}

/// How many digits there are.
pub proof fn lemma_digit_count(value: int, count: nat)
    ensures
        bypass_bits(value, count).len() == count,
    decreases count,
{
    if count > 0 {
        lemma_digit_count(value / 2, (count - 1) as nat);
    }
}

/// An Exp-Golomb code tells its number.
proof fn lemma_golomb(first: int, second: int, order: nat, x: Seq<bool>, y: Seq<bool>)
    requires
        0 <= first,
        0 <= second,
        values(golomb_bins(first, order)) + x == values(golomb_bins(second, order)) + y,
    ensures
        first == second,
        x == y,
    decreases first + second,
{
    let power = power_of_two(order) as int;
    lemma_power_positive(order);
    let left = values(golomb_bins(first, order)) + x;
    let right = values(golomb_bins(second, order)) + y;
    if first >= power {
        let a = golomb_bins(first - power, order + 1);
        lemma_values_joined(seq![Bin::Bypass(true)], a);
        assert(left[0]);
        if second < power {
            assert(!right[0]);
        }
        let b = golomb_bins(second - power, order + 1);
        lemma_values_joined(seq![Bin::Bypass(true)], b);
        assert(left =~= values(seq![Bin::Bypass(true)]) + (values(a) + x));
        assert(right =~= values(seq![Bin::Bypass(true)]) + (values(b) + y));
        lemma_same_start(
            values(seq![Bin::Bypass(true)]),
            values(a) + x,
            values(seq![Bin::Bypass(true)]),
            values(b) + y,
        );
        lemma_golomb(first - power, second - power, order + 1, x, y);
    } else {
        let a = bypass_bits(first, order);
        assert(!left[0]);
        if second >= power {
            lemma_values_joined(
                seq![Bin::Bypass(true)],
                golomb_bins(second - power, order + 1),
            );
            assert(right[0]);
        }
        let b = bypass_bits(second, order);
        lemma_values_joined(seq![Bin::Bypass(false)], a);
        lemma_values_joined(seq![Bin::Bypass(false)], b);
        lemma_digit_count(first, order);
        lemma_digit_count(second, order);
        let c = values(seq![Bin::Bypass(false)]) + values(a);
        let d = values(seq![Bin::Bypass(false)]) + values(b);
        lemma_same_start(c, x, d, y);
        lemma_same_start(
            values(seq![Bin::Bypass(false)]),
            values(a),
            values(seq![Bin::Bypass(false)]),
            values(b),
        );
        lemma_digits(first, second, order);
    }
}

/// Powers of two are positive.
pub proof fn lemma_power_positive(order: nat)
    ensures
        power_of_two(order) >= 1,
    decreases order,
{
    reveal_with_fuel(power_of_two, 2);
    if order > 0 {
        lemma_power_positive((order - 1) as nat);
    }
}

proof fn lemma_repeated(slot: int, count: int)
    requires
        0 <= count,
    ensures
        values(repeated_true(slot, count)) == ones(count),
    decreases count,
{
    if count > 0 {
        lemma_repeated(slot, count - 1);
    }
    assert(values(repeated_true(slot, count)) =~= ones(count)) by {
        if count > 0 {
            let before = repeated_true(slot, count - 1);
            assert(values(before).len() == count - 1);
            assert forall|i: int| 0 <= i < count implies values(repeated_true(slot, count))[i] by {
                if i < count - 1 {
                    assert(values(before)[i]);
                }
            }
        }
    }
}

/// What says how large a level is that is larger than one.
spec fn size_values(size: int) -> Seq<bool> {
    if size < 15 {
        ones(size - 2) + seq![false]
    } else {
        ones(13) + values(golomb_bins(size - 15, 0))
    }
}

proof fn lemma_level_values(base: int, node: int, level: int)
    requires
        level != 0,
    ensures
        values(level_bins(base, node, level)) == seq![magnitude(level) > 1] + ((if magnitude(level)
            <= 1 {
            Seq::empty()
        } else {
            size_values(magnitude(level))
        }) + seq![level < 0]),
{
    let size = magnitude(level);
    let slot = base + more_slot(node);
    if 1 < size < 15 {
        lemma_repeated(slot, size - 2);
        lemma_values_joined(repeated_true(slot, size - 2), seq![decision(slot, false)]);
        assert(values(seq![decision(slot, false)]) =~= seq![false]);
    } else if size >= 15 {
        lemma_repeated(slot, 13);
        lemma_values_joined(repeated_true(slot, 13), golomb_bins(size - 15, 0));
    }
    assert(values(level_bins(base, node, level)) =~= seq![size > 1] + ((if size <= 1 {
        Seq::empty()
    } else {
        size_values(size)
    }) + seq![level < 0]));
}

proof fn lemma_size(first: int, second: int, x: Seq<bool>, y: Seq<bool>)
    requires
        first >= 2,
        second >= 2,
        size_values(first) + x == size_values(second) + y,
    ensures
        first == second,
        x == y,
{
    if first < 15 {
        assert(size_values(first) + x =~= ones(first - 2) + (seq![false] + x));
    } else {
        assert(size_values(first) + x =~= ones(13) + (values(golomb_bins(first - 15, 0)) + x));
    }
    if second < 15 {
        assert(size_values(second) + y =~= ones(second - 2) + (seq![false] + y));
    } else {
        assert(size_values(second) + y =~= ones(13) + (values(golomb_bins(second - 15, 0)) + y));
    }
    if first < 15 && second < 15 {
        lemma_run(first - 2, second - 2, x, y);
    } else if first < 15 {
        lemma_short_run(first - 2, 13, x, values(golomb_bins(second - 15, 0)) + y);
    } else if second < 15 {
        lemma_short_run(second - 2, 13, y, values(golomb_bins(first - 15, 0)) + x);
    } else {
        lemma_same_start(
            ones(13),
            values(golomb_bins(first - 15, 0)) + x,
            ones(13),
            values(golomb_bins(second - 15, 0)) + y,
        );
        lemma_golomb(first - 15, second - 15, 0, x, y);
    }
}

/// A level other than zero is told by its symbols.
proof fn lemma_level(base: int, node: int, first: int, second: int, x: Seq<bool>, y: Seq<bool>)
    requires
        first != 0,
        second != 0,
        values(level_bins(base, node, first)) + x == values(level_bins(base, node, second)) + y,
    ensures
        first == second,
        x == y,
{
    let a = magnitude(first);
    let b = magnitude(second);
    lemma_level_values(base, node, first);
    lemma_level_values(base, node, second);
    let left = values(level_bins(base, node, first)) + x;
    let right = values(level_bins(base, node, second)) + y;
    assert(left[0] == (a > 1));
    assert(right[0] == (b > 1));
    let after = seq![first < 0] + x;
    let other = seq![second < 0] + y;
    if a > 1 {
        assert(left =~= seq![true] + (size_values(a) + after));
        assert(right =~= seq![true] + (size_values(b) + other));
        lemma_same_start(seq![true], size_values(a) + after, seq![true], size_values(b) + other);
        lemma_size(a, b, after, other);
    } else {
        assert(left =~= seq![false] + after);
        assert(right =~= seq![false] + other);
        lemma_same_start(seq![false], after, seq![false], other);
    }
    assert(after[0] == (first < 0));
    assert(other[0] == (second < 0));
    lemma_same_start(seq![first < 0], x, seq![second < 0], y);
}

/// Whether two rows of levels are other than zero at the same places.
pub open spec fn alike(first: Seq<int>, second: Seq<int>, from: int, to: int) -> bool {
    forall|i: int| from <= i < to ==> (#[trigger] first[i] == 0) == (second[i] == 0)
}

/// Levels are told by their symbols, where their places are known.
proof fn lemma_levels(
    base: int,
    first: Seq<int>,
    second: Seq<int>,
    node: int,
    count: int,
    x: Seq<bool>,
    y: Seq<bool>,
)
    requires
        0 <= count <= first.len(),
        first.len() == second.len(),
        alike(first, second, 0, count),
        values(levels_bins(base, first, node, count)) + x == values(
            levels_bins(base, second, node, count),
        ) + y,
    ensures
        forall|i: int| 0 <= i < count ==> first[i] == second[i],
        x == y,
    decreases count,
{
    if count <= 0 {
        assert(values(levels_bins(base, first, node, count)) + x =~= x);
        assert(values(levels_bins(base, second, node, count)) + y =~= y);
    } else {
        let a = first[count - 1];
        let b = second[count - 1];
        assert((a == 0) == (b == 0));
        if a == 0 {
            lemma_levels(base, first, second, node, count - 1, x, y);
        } else {
            let next = node_after(node, magnitude(a) > 1);
            let other = node_after(node, magnitude(b) > 1);
            let c = levels_bins(base, first, next, count - 1);
            let d = levels_bins(base, second, other, count - 1);
            lemma_values_joined(level_bins(base, node, a), c);
            lemma_values_joined(level_bins(base, node, b), d);
            assert(values(levels_bins(base, first, node, count)) + x =~= values(
                level_bins(base, node, a),
            ) + (values(c) + x));
            assert(values(levels_bins(base, second, node, count)) + y =~= values(
                level_bins(base, node, b),
            ) + (values(d) + y));
            lemma_level(base, node, a, b, values(c) + x, values(d) + y);
            lemma_levels(base, first, second, next, count - 1, x, y);
        }
    }
}

/// Where the last level other than zero stands.
pub proof fn lemma_last(levels: Seq<int>, count: int)
    requires
        0 <= count <= levels.len(),
    ensures
        -1 <= last_nonzero(levels, count) < count,
        last_nonzero(levels, count) >= 0 ==> levels[last_nonzero(levels, count)] != 0,
        forall|i: int| last_nonzero(levels, count) < i < count ==> #[trigger] levels[i] == 0,
    decreases count,
{
    if count > 0 {
        lemma_last(levels, count - 1);
    }
}

/// The places of levels other than zero are told by their symbols.
proof fn lemma_map(
    kind: BlockKind,
    first: Seq<int>,
    second: Seq<int>,
    position: int,
    x: Seq<bool>,
    y: Seq<bool>,
)
    requires
        0 <= position < first.len(),
        first.len() == second.len(),
        alike(first, second, 0, position),
        position <= last_nonzero(first, first.len() as int),
        position <= last_nonzero(second, second.len() as int),
        values(map_bins(kind, first, last_nonzero(first, first.len() as int), position)) + x
            == values(map_bins(kind, second, last_nonzero(second, second.len() as int), position))
            + y,
    ensures
        alike(first, second, 0, first.len() as int),
        last_nonzero(first, first.len() as int) == last_nonzero(second, second.len() as int),
        x == y,
    decreases first.len() - position,
{
    let n = first.len() as int;
    let last = last_nonzero(first, n);
    let end = last_nonzero(second, n);
    lemma_last(first, n);
    lemma_last(second, n);
    let left = values(map_bins(kind, first, last, position)) + x;
    let right = values(map_bins(kind, second, end, position)) + y;
    if position >= n - 1 {
        assert(left =~= x);
        assert(right =~= y);
    } else {
        let significant = first[position] != 0;
        let a = map_bins(kind, first, last, position + 1);
        let b = map_bins(kind, second, end, position + 1);
        assert(left[0] == significant);
        assert(right[0] == (second[position] != 0));
        assert(alike(first, second, 0, position + 1));
        if !significant {
            assert(left =~= seq![false] + (values(a) + x));
            assert(right =~= seq![false] + (values(b) + y));
            lemma_same_start(seq![false], values(a) + x, seq![false], values(b) + y);
            lemma_map(kind, first, second, position + 1, x, y);
        } else {
            assert(left[1] == (position == last));
            assert(right[1] == (position == end));
            if position == last {
                assert(left =~= seq![true, true] + x);
                assert(right =~= seq![true, true] + y);
                lemma_same_start(seq![true, true], x, seq![true, true], y);
            } else {
                assert(left =~= seq![true, false] + (values(a) + x));
                assert(right =~= seq![true, false] + (values(b) + y));
                lemma_same_start(
                    seq![true, false],
                    values(a) + x,
                    seq![true, false],
                    values(b) + y,
                );
                lemma_map(kind, first, second, position + 1, x, y);
            }
        }
    }
}

/// The values of the symbols of a residual block that holds anything tell all its levels, and where
/// the symbols end, whatever follows.
pub proof fn law_block_told(
    kind: BlockKind,
    first: Seq<int>,
    second: Seq<int>,
    x: Seq<bool>,
    y: Seq<bool>,
)
    requires
        first.len() == second.len(),
        any_nonzero(first),
        any_nonzero(second),
        values(block_bins(kind, first)) + x == values(block_bins(kind, second)) + y,
    ensures
        first == second,
        x == y,
{
    reveal(block_bins);
    let n = first.len() as int;
    let last = last_nonzero(first, n);
    let end = last_nonzero(second, n);
    lemma_last(first, n);
    lemma_last(second, n);
    let base = kind.base() + 34;
    let a = levels_bins(base, first, 0, last + 1);
    let b = levels_bins(base, second, 0, end + 1);
    lemma_values_joined(map_bins(kind, first, last, 0), a);
    lemma_values_joined(map_bins(kind, second, end, 0), b);
    assert(values(block_bins(kind, first)) + x =~= values(map_bins(kind, first, last, 0)) + (values(
        a,
    ) + x));
    assert(values(block_bins(kind, second)) + y =~= values(map_bins(kind, second, end, 0)) + (
    values(b) + y));
    lemma_map(kind, first, second, 0, values(a) + x, values(b) + y);
    lemma_levels(base, first, second, 0, last + 1, x, y);
    assert(first =~= second);
}

/// A block and whether it holds anything are told by their symbols.
pub proof fn law_marked_block_told(
    kind: BlockKind,
    slot: int,
    first: Seq<int>,
    second: Seq<int>,
    x: Seq<bool>,
    y: Seq<bool>,
)
    requires
        first.len() == second.len(),
        values(marked_block_bins(kind, slot, first)) + x == values(
            marked_block_bins(kind, slot, second),
        ) + y,
    ensures
        first == second,
        x == y,
{
    reveal(marked_block_bins);
    let left = values(marked_block_bins(kind, slot, first)) + x;
    let right = values(marked_block_bins(kind, slot, second)) + y;
    assert(left[0] == any_nonzero(first));
    assert(right[0] == any_nonzero(second));
    if any_nonzero(first) {
        assert(left =~= seq![true] + (values(block_bins(kind, first)) + x));
        assert(right =~= seq![true] + (values(block_bins(kind, second)) + y));
        lemma_same_start(
            seq![true],
            values(block_bins(kind, first)) + x,
            seq![true],
            values(block_bins(kind, second)) + y,
        );
        law_block_told(kind, first, second, x, y);
    } else {
        assert(left =~= seq![false] + x);
        assert(right =~= seq![false] + y);
        lemma_same_start(seq![false], x, seq![false], y);
        assert(first =~= second) by {
            assert forall|i: int| 0 <= i < first.len() implies first[i] == second[i] by {
                assert(!(first[i] != 0));
                assert(!(second[i] != 0));
            }
        }
    }
}

/// The type of a macroblock in a picture that stands alone is told by its symbols.
pub proof fn law_type_i_told(
    first: int,
    second: int,
    increment: int,
    x: Seq<bool>,
    y: Seq<bool>,
)
    requires
        0 <= first <= 24,
        0 <= second <= 24,
        values(type_i_bins(first, increment)) + x == values(type_i_bins(second, increment)) + y,
    ensures
        first == second,
        x == y,
{
    let left = values(type_i_bins(first, increment)) + x;
    let right = values(type_i_bins(second, increment)) + y;
    let a = (first - 1) % 12;
    let b = (second - 1) % 12;
    assert(left[0] == (first != 0));
    assert(right[0] == (second != 0));
    if first != 0 {
        assert(left[2] == (first - 1 >= 12) && right[2] == (second - 1 >= 12));
        assert(left[3] == (a >= 4) && right[3] == (b >= 4));
        if a >= 4 {
            assert(left[4] == (a >= 8) && right[4] == (b >= 8));
            assert(left[5] == (a % 4 >= 2) && right[5] == (b % 4 >= 2));
            assert(left[6] == (a % 2 == 1) && right[6] == (b % 2 == 1));
        } else {
            assert(left[4] == (a % 4 >= 2) && right[4] == (b % 4 >= 2));
            assert(left[5] == (a % 2 == 1) && right[5] == (b % 2 == 1));
        }
    }
    lemma_same_start(
        values(type_i_bins(first, increment)),
        x,
        values(type_i_bins(second, increment)),
        y,
    );
}

/// A chroma prediction mode is told by its symbols.
pub proof fn law_chroma_mode_told(
    first: int,
    second: int,
    increment: int,
    x: Seq<bool>,
    y: Seq<bool>,
)
    requires
        0 <= first <= 3,
        0 <= second <= 3,
        values(chroma_mode_bins(first, increment)) + x == values(
            chroma_mode_bins(second, increment),
        ) + y,
    ensures
        first == second,
        x == y,
{
    let left = values(chroma_mode_bins(first, increment)) + x;
    let right = values(chroma_mode_bins(second, increment)) + y;
    assert(left[0] == (first != 0) && right[0] == (second != 0));
    if first != 0 {
        assert(left[1] == (first != 1) && right[1] == (second != 1));
        if first > 1 {
            assert(left[2] == (first == 3) && right[2] == (second == 3));
        }
    }
    lemma_same_start(
        values(chroma_mode_bins(first, increment)),
        x,
        values(chroma_mode_bins(second, increment)),
        y,
    );
}

/// A luma prediction mode is told by its symbols, where the predicted one is known.
pub proof fn law_luma_mode_told(
    first: int,
    second: int,
    predicted: int,
    x: Seq<bool>,
    y: Seq<bool>,
)
    requires
        0 <= first <= 8,
        0 <= second <= 8,
        0 <= predicted <= 8,
        values(luma_mode_bins(first, predicted)) + x == values(luma_mode_bins(second, predicted))
            + y,
    ensures
        first == second,
        x == y,
{
    let left = values(luma_mode_bins(first, predicted)) + x;
    let right = values(luma_mode_bins(second, predicted)) + y;
    let a = first - unit(first > predicted);
    let b = second - unit(second > predicted);
    assert(left[0] == (first == predicted) && right[0] == (second == predicted));
    if first != predicted {
        assert(left[1] == (a % 2 == 1) && right[1] == (b % 2 == 1));
        assert(left[2] == (a / 2 % 2 == 1) && right[2] == (b / 2 % 2 == 1));
        assert(left[3] == (a / 4 % 2 == 1) && right[3] == (b / 4 % 2 == 1));
        assert(a == b);
    }
    lemma_same_start(
        values(luma_mode_bins(first, predicted)),
        x,
        values(luma_mode_bins(second, predicted)),
        y,
    );
}

proof fn lemma_unary(index: int, code: int)
    requires
        1 <= index <= code,
    ensures
        values(unary_delta(index, code)) == ones(code - index) + seq![false],
    decreases code - index,
{
    if index < code {
        lemma_unary(index + 1, code);
        lemma_values_joined(
            seq![decision(QP_DELTA + if index == 1 { 2int } else { 3 }, true)],
            unary_delta(index + 1, code),
        );
    }
    assert(values(unary_delta(index, code)) =~= ones(code - index) + seq![false]);
}

/// A change of the quantizer is told by its symbols.
pub proof fn law_qp_delta_told(
    first: int,
    second: int,
    previous: int,
    x: Seq<bool>,
    y: Seq<bool>,
)
    requires
        values(qp_delta_bins(first, previous)) + x == values(qp_delta_bins(second, previous)) + y,
    ensures
        first == second,
        x == y,
{
    let left = values(qp_delta_bins(first, previous)) + x;
    let right = values(qp_delta_bins(second, previous)) + y;
    assert(left[0] == (first != 0) && right[0] == (second != 0));
    if first == 0 {
        assert(left =~= seq![false] + x);
        assert(right =~= seq![false] + y);
        lemma_same_start(seq![false], x, seq![false], y);
    } else {
        let a: int = if first > 0 {
            2 * first - 1
        } else {
            -2 * first
        };
        let b: int = if second > 0 {
            2 * second - 1
        } else {
            -2 * second
        };
        lemma_unary(1, a);
        lemma_unary(1, b);
        let start = seq![decision(QP_DELTA + unit(previous != 0), true)];
        lemma_values_joined(start, unary_delta(1, a));
        lemma_values_joined(start, unary_delta(1, b));
        assert(qp_delta_bins(first, previous) == start + unary_delta(1, a));
        assert(qp_delta_bins(second, previous) == start + unary_delta(1, b));
        assert(values(start) =~= seq![true]);
        assert(left =~= seq![true] + (ones(a - 1) + (seq![false] + x)));
        assert(right =~= seq![true] + (ones(b - 1) + (seq![false] + y)));
        lemma_same_start(
            seq![true],
            ones(a - 1) + (seq![false] + x),
            seq![true],
            ones(b - 1) + (seq![false] + y),
        );
        lemma_run(a - 1, b - 1, x, y);
    }
}

/// A pattern is told by its symbols, where the patterns around it are known.
pub proof fn law_pattern_told(
    first: int,
    second: int,
    left: int,
    top: int,
    x: Seq<bool>,
    y: Seq<bool>,
)
    requires
        0 <= first < 48,
        0 <= second < 48,
        values(pattern_bins(first, left, top)) + x == values(pattern_bins(second, left, top)) + y,
    ensures
        first == second,
        x == y,
{
    reveal(luma_pattern_bins);
    reveal(chroma_pattern_bins);
    let a = values(pattern_bins(first, left, top)) + x;
    let b = values(pattern_bins(second, left, top)) + y;
    assert(a[0] == (first % 2 == 1) && b[0] == (second % 2 == 1));
    assert(a[1] == (first / 2 % 2 == 1) && b[1] == (second / 2 % 2 == 1));
    assert(a[2] == (first / 4 % 2 == 1) && b[2] == (second / 4 % 2 == 1));
    assert(a[3] == (first / 8 % 2 == 1) && b[3] == (second / 8 % 2 == 1));
    assert(a[4] == (first / 16 != 0) && b[4] == (second / 16 != 0));
    if first / 16 != 0 {
        assert(a[5] == (first / 16 == 2) && b[5] == (second / 16 == 2));
    }
    lemma_same_start(
        values(pattern_bins(first, left, top)),
        x,
        values(pattern_bins(second, left, top)),
        y,
    );
}

/// The type of a macroblock that is predicted from earlier pictures is told by its symbols.
pub proof fn law_type_p_told(first: int, second: int, x: Seq<bool>, y: Seq<bool>)
    requires
        0 <= first <= 3,
        0 <= second <= 3,
        values(type_p_bins(first)) + x == values(type_p_bins(second)) + y,
    ensures
        first == second,
        x == y,
{
    lemma_same_start(values(type_p_bins(first)), x, values(type_p_bins(second)), y);
    let a = values(type_p_bins(first));
    let b = values(type_p_bins(second));
    assert(a[1] == (first == 1 || first == 2) && b[1] == (second == 1 || second == 2));
    assert(a[2] == (first == 1 || first == 3) && b[2] == (second == 1 || second == 3));
}

/// The type of a quarter that is predicted from earlier pictures is told by its symbols.
pub proof fn law_sub_type_p_told(first: int, second: int, x: Seq<bool>, y: Seq<bool>)
    requires
        0 <= first <= 3,
        0 <= second <= 3,
        values(sub_type_p_bins(first)) + x == values(sub_type_p_bins(second)) + y,
    ensures
        first == second,
        x == y,
{
    let a = values(sub_type_p_bins(first)) + x;
    let b = values(sub_type_p_bins(second)) + y;
    assert(a[0] == (first == 0) && b[0] == (second == 0));
    if first != 0 {
        assert(a[1] == (first >= 2) && b[1] == (second >= 2));
        if first >= 2 {
            assert(a[2] == (first == 2) && b[2] == (second == 2));
        }
    }
    lemma_same_start(values(sub_type_p_bins(first)), x, values(sub_type_p_bins(second)), y);
}

proof fn lemma_reference_steps(increment: int, count: int)
    requires
        0 <= count,
    ensures
        values(reference_steps(increment, count)) == ones(count),
    decreases count,
{
    if count > 0 {
        lemma_reference_steps(increment, count - 1);
        let before = reference_steps(increment, count - 1);
        let all = values(reference_steps(increment, count));
        assert(values(before).len() == count - 1);
        assert forall|i: int| 0 <= i < count implies all[i] by {
            if i < count - 1 {
                assert(values(before)[i]);
            }
        }
        assert(all =~= ones(count));
    } else {
        assert(values(reference_steps(increment, count)) =~= ones(count));
    }
}

/// A reference index is told by its symbols, where there is more than one picture to refer to.
pub proof fn law_reference_told(
    first: int,
    second: int,
    increment: int,
    active_minus1: int,
    x: Seq<bool>,
    y: Seq<bool>,
)
    requires
        0 <= first,
        0 <= second,
        active_minus1 > 0,
        values(reference_bins(first, increment, active_minus1)) + x == values(
            reference_bins(second, increment, active_minus1),
        ) + y,
    ensures
        first == second,
        x == y,
{
    lemma_reference_steps(increment, first);
    lemma_reference_steps(increment, second);
    let a = reference_steps(increment, first);
    let b = reference_steps(increment, second);
    assert(values(a).len() == first && values(b).len() == second);
    let left = values(reference_bins(first, increment, active_minus1)) + x;
    let right = values(reference_bins(second, increment, active_minus1)) + y;
    assert(left =~= values(a) + (seq![false] + x));
    assert(right =~= values(b) + (seq![false] + y));
    lemma_run(first, second, x, y);
}

proof fn lemma_motion_steps(base: int, count: int)
    requires
        1 <= count,
    ensures
        values(motion_steps(base, count)) == ones(count - 1),
    decreases count,
{
    if count > 1 {
        lemma_motion_steps(base, count - 1);
        let before = motion_steps(base, count - 1);
        let all = values(motion_steps(base, count));
        assert(values(before).len() == count - 2);
        assert forall|i: int| 0 <= i < count - 1 implies all[i] by {
            if i < count - 2 {
                assert(values(before)[i]);
            }
        }
        assert(all =~= ones(count - 1));
    } else {
        assert(values(motion_steps(base, count)) =~= ones(count - 1));
    }
}

/// What says how large a part of a vector difference is that is not zero.
spec fn part_values(size: int) -> Seq<bool> {
    if size < 9 {
        ones(size - 1) + seq![false]
    } else {
        ones(8) + values(golomb_bins(size - 9, 3))
    }
}

proof fn lemma_part_values(base: int, size: int)
    requires
        1 <= size,
    ensures
        values(size_bins(base, size)) == part_values(size),
{
    reveal(size_bins);
    if size < 9 {
        lemma_motion_steps(base, size);
        let steps = motion_steps(base, size);
        assert(values(steps).len() == size - 1);
        lemma_values_joined(
            steps,
            seq![decision(crate::inter_bins::motion_slot(base, size), false)],
        );
        assert(values(seq![decision(crate::inter_bins::motion_slot(base, size), false)])
            =~= seq![false]);
    } else {
        lemma_motion_steps(base, 9);
        lemma_values_joined(motion_steps(base, 9), golomb_bins(size - 9, 3));
    }
}

proof fn lemma_part(first: int, second: int, x: Seq<bool>, y: Seq<bool>)
    requires
        first >= 1,
        second >= 1,
        part_values(first) + x == part_values(second) + y,
    ensures
        first == second,
        x == y,
{
    if first < 9 {
        assert(part_values(first) + x =~= ones(first - 1) + (seq![false] + x));
    } else {
        assert(part_values(first) + x =~= ones(8) + (values(golomb_bins(first - 9, 3)) + x));
    }
    if second < 9 {
        assert(part_values(second) + y =~= ones(second - 1) + (seq![false] + y));
    } else {
        assert(part_values(second) + y =~= ones(8) + (values(golomb_bins(second - 9, 3)) + y));
    }
    if first < 9 && second < 9 {
        lemma_run(first - 1, second - 1, x, y);
    } else if first < 9 {
        lemma_short_run(first - 1, 8, x, values(golomb_bins(second - 9, 3)) + y);
    } else if second < 9 {
        lemma_short_run(second - 1, 8, y, values(golomb_bins(first - 9, 3)) + x);
    } else {
        lemma_same_start(
            ones(8),
            values(golomb_bins(first - 9, 3)) + x,
            ones(8),
            values(golomb_bins(second - 9, 3)) + y,
        );
        lemma_golomb(first - 9, second - 9, 3, x, y);
    }
}

/// A part of a vector difference is told by its symbols.
pub proof fn law_motion_told(
    base: int,
    sum: int,
    first: int,
    second: int,
    x: Seq<bool>,
    y: Seq<bool>,
)
    requires
        values(motion_bins(base, sum, first)) + x == values(motion_bins(base, sum, second)) + y,
    ensures
        first == second,
        x == y,
{
    let a = magnitude(first);
    let b = magnitude(second);
    let left = values(motion_bins(base, sum, first)) + x;
    let right = values(motion_bins(base, sum, second)) + y;
    assert(left[0] == (a != 0) && right[0] == (b != 0));
    if a == 0 {
        assert(left =~= seq![false] + x);
        assert(right =~= seq![false] + y);
        lemma_same_start(seq![false], x, seq![false], y);
    } else {
        let after = seq![first < 0] + x;
        let other = seq![second < 0] + y;
        lemma_part_values(base, a);
        lemma_part_values(base, b);
        assert(left =~= seq![true] + (values(size_bins(base, a)) + after));
        assert(right =~= seq![true] + (values(size_bins(base, b)) + other));
        lemma_same_start(
            seq![true],
            part_values(a) + after,
            seq![true],
            part_values(b) + other,
        );
        lemma_part(a, b, after, other);
        assert(after[0] == (first < 0));
        assert(other[0] == (second < 0));
        lemma_same_start(seq![first < 0], x, seq![second < 0], y);
    }
}

} // verus!
