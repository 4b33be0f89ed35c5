//! What symbols tell that are read one by one, where what is read decides which probability comes
//! next.

use vstd::prelude::*;

use crate::arithmetic::Bin;
use crate::arithmetic_laws::reads_back;
use crate::bins::{
    block_bins, bypass_bits, chroma_mode_bins, chroma_pattern_bins, decision, golomb_bins,
    last_nonzero, last_slot, level_bins, levels_bins, luma_mode_bins, luma_pattern_bins, map_bins,
    more_slot, node_after, one_slot, pattern_bins, qp_delta_bins, repeated_true,
    significant_slot, type_i_bins, unary_delta, BlockKind,
};
use crate::bits::power_of_two;
use crate::cabac::{bypassed, decided, terminated, ContextState, Engine};
use crate::inter_residual::any_nonzero;
use crate::marks::marked_block_bins;
use crate::math::{magnitude, unit};
use crate::symbol_laws::{
    alike, lemma_digit_count, lemma_digits, lemma_last, lemma_power_positive,
};

verus! {

/// Whether two symbols are read in the same way: with the same probability, or both without one.
pub open spec fn asked_alike(first: Bin, second: Bin) -> bool {
    match (first, second) {
        (Bin::Decision { slot: a, value: _ }, Bin::Decision { slot: b, value: _ }) => a == b,
        (Bin::Bypass(_), Bin::Bypass(_)) => true,
        (Bin::Terminate(_), Bin::Terminate(_)) => true,
        _ => false,
    }
}

/// Whether two lists of symbols can come from the same bits: where they are alike up to a symbol
/// that is read in the same way, that symbol has the same value.
#[verifier::opaque]
pub open spec fn together(first: Seq<Bin>, second: Seq<Bin>) -> bool {
    forall|k: int|
        0 <= k < first.len() && k < second.len() && #[trigger] first.take(k) == second.take(k)
            && asked_alike(first[k], second[k]) ==> first[k] == second[k]
}

/// Symbols that are read back from the same bits with the same probabilities go together.
proof fn lemma_reads_same(
    engine: Engine,
    contexts: Seq<ContextState>,
    first: Seq<Bin>,
    second: Seq<Bin>,
    from: int,
    k: int,
)
    requires
        0 <= from <= k < first.len(),
        k < second.len(),
        first.take(k) == second.take(k),
        asked_alike(first[k], second[k]),
        reads_back(engine, contexts, first, from),
        reads_back(engine, contexts, second, from),
    ensures
        first[k] == second[k],
    decreases k - from,
{
    if from < k {
        assert(first.take(k)[from] == second.take(k)[from]);
        assert(first.take(k)[from] == first[from]);
        assert(second.take(k)[from] == second[from]);
        match first[from] {
            Bin::Decision { slot, value } => {
                let (read, context) = decided(engine, contexts[slot as int]);
                lemma_reads_same(
                    read.engine,
                    contexts.update(slot as int, context),
                    first,
                    second,
                    from + 1,
                    k,
                );
            },
            Bin::Bypass(value) => {
                lemma_reads_same(
                    bypassed(engine).engine,
                    contexts,
                    first,
                    second,
                    from + 1,
                    k,
                );
            },
            Bin::Terminate(value) => {
                lemma_reads_same(
                    terminated(engine).engine,
                    contexts,
                    first,
                    second,
                    from + 1,
                    k,
                );
            },
        }
    }
}

/// Symbols that are read back from the same bits go together.
pub proof fn lemma_read_together(
    engine: Engine,
    contexts: Seq<ContextState>,
    first: Seq<Bin>,
    second: Seq<Bin>,
)
    requires
        reads_back(engine, contexts, first, 0),
        reads_back(engine, contexts, second, 0),
    ensures
        together(first, second),
{
    reveal(together);
    assert forall|k: int|
        0 <= k < first.len() && k < second.len() && #[trigger] first.take(k) == second.take(k)
            && asked_alike(first[k], second[k]) implies first[k] == second[k] by {
        lemma_reads_same(engine, contexts, first, second, 0, k);
    }
}

/// What follows the same symbols goes together.
pub proof fn lemma_go_on(start: Seq<Bin>, x: Seq<Bin>, y: Seq<Bin>)
    requires
        together(start + x, start + y),
    ensures
        together(x, y),
{
    reveal(together);
    let a = start + x;
    let b = start + y;
    let n = start.len() as int;
    assert forall|k: int|
        0 <= k < x.len() && k < y.len() && #[trigger] x.take(k) == y.take(k) && asked_alike(
            x[k],
            y[k],
        ) implies x[k] == y[k] by {
        assert(a.take(n + k) =~= start + x.take(k));
        assert(b.take(n + k) =~= start + y.take(k));
        assert(a[n + k] == x[k] && b[n + k] == y[k]);
        assert(a.take(n + k) == b.take(n + k));
    }
}

/// A symbol that is read in the same way has the same value.
pub proof fn lemma_one(first: Bin, second: Bin, x: Seq<Bin>, y: Seq<Bin>)
    requires
        asked_alike(first, second),
        together(seq![first] + x, seq![second] + y),
    ensures
        first == second,
        together(x, y),
{
    let a = seq![first] + x;
    let b = seq![second] + y;
    assert(first == second) by {
        reveal(together);
        assert(a.take(0) =~= b.take(0));
        assert(a[0] == first && b[0] == second);
    }
    lemma_go_on(seq![first], x, y);
}

/// Symbols that are read in the same ways have the same values.
pub proof fn lemma_fixed(first: Seq<Bin>, second: Seq<Bin>, x: Seq<Bin>, y: Seq<Bin>)
    requires
        first.len() == second.len(),
        forall|i: int| 0 <= i < first.len() ==> asked_alike(#[trigger] first[i], second[i]),
        together(first + x, second + y),
    ensures
        first == second,
        together(x, y),
    decreases first.len(),
{
    if first.len() == 0 {
        assert(first + x =~= x);
        assert(second + y =~= y);
        assert(first =~= second);
    } else {
        let a = first.skip(1);
        let b = second.skip(1);
        assert(first + x =~= seq![first[0]] + (a + x));
        assert(second + y =~= seq![second[0]] + (b + y));
        lemma_one(first[0], second[0], a + x, b + y);
        assert forall|i: int| 0 <= i < a.len() implies asked_alike(#[trigger] a[i], b[i]) by {
            assert(asked_alike(first[i + 1], second[i + 1]));
        }
        lemma_fixed(a, b, x, y);
        assert(first =~= seq![first[0]] + a);
        assert(second =~= seq![second[0]] + b);
    }
}

/// Binary digits are told.
proof fn lemma_digits_told(first: int, second: int, count: nat, x: Seq<Bin>, y: Seq<Bin>)
    requires
        0 <= first < power_of_two(count),
        0 <= second < power_of_two(count),
        together(bypass_bits(first, count) + x, bypass_bits(second, count) + y),
    ensures
        first == second,
        together(x, y),
{
    lemma_digit_count(first, count);
    lemma_digit_count(second, count);
    lemma_all_bypass(first, count);
    lemma_all_bypass(second, count);
    lemma_fixed(bypass_bits(first, count), bypass_bits(second, count), x, y);
    lemma_digits(first, second, count);
}

proof fn lemma_all_bypass(value: int, count: nat)
    ensures
        forall|i: int|
            0 <= i < bypass_bits(value, count).len() ==> (#[trigger] bypass_bits(
                value,
                count,
            )[i]) is Bypass,
    decreases count,
{
    if count > 0 {
        lemma_all_bypass(value / 2, (count - 1) as nat);
        let before = bypass_bits(value / 2, (count - 1) as nat);
        assert forall|i: int| 0 <= i < bypass_bits(value, count).len() implies (
        #[trigger] bypass_bits(value, count)[i]) is Bypass by {
            if i < before.len() {
                assert(bypass_bits(value, count)[i] == before[i]);
            }
        }
    }
}

/// An Exp-Golomb code is told.
pub proof fn lemma_golomb_told(first: int, second: int, order: nat, x: Seq<Bin>, y: Seq<Bin>)
    requires
        0 <= first,
        0 <= second,
        together(golomb_bins(first, order) + x, golomb_bins(second, order) + y),
    ensures
        first == second,
        together(x, y),
    decreases first + second,
{
    let power = power_of_two(order) as int;
    lemma_power_positive(order);
    let a = if first >= power {
        golomb_bins(first - power, order + 1)
    } else {
        bypass_bits(first, order)
    };
    let b = if second >= power {
        golomb_bins(second - power, order + 1)
    } else {
        bypass_bits(second, order)
    };
    assert(golomb_bins(first, order) + x =~= seq![Bin::Bypass(first >= power)] + (a + x));
    assert(golomb_bins(second, order) + y =~= seq![Bin::Bypass(second >= power)] + (b + y));
    lemma_one(Bin::Bypass(first >= power), Bin::Bypass(second >= power), a + x, b + y);
    if first >= power {
        lemma_golomb_told(first - power, second - power, order + 1, x, y);
    } else {
        lemma_digits_told(first, second, order, x, y);
    }
}

proof fn lemma_repeated_front(slot: int, count: int)
    requires
        0 < count,
    ensures
        repeated_true(slot, count) == seq![decision(slot, true)] + repeated_true(slot, count - 1),
    decreases count,
{
    if count > 1 {
        lemma_repeated_front(slot, count - 1);
        assert(repeated_true(slot, count) =~= seq![decision(slot, true)] + repeated_true(
            slot,
            count - 1,
        ));
    } else {
        assert(repeated_true(slot, 0) =~= Seq::empty());
        assert(repeated_true(slot, 1) =~= seq![decision(slot, true)] + repeated_true(slot, 0));
    }
}

/// What says how large a level is that is larger than one, after `done` of its symbols.
spec fn size_bins(slot: int, size: int, done: int) -> Seq<Bin> {
    if size < 15 {
        repeated_true(slot, size - 2 - done) + seq![decision(slot, false)]
    } else {
        repeated_true(slot, 13 - done) + golomb_bins(size - 15, 0)
    }
}

/// The size of a level is told.
proof fn lemma_size_told(
    slot: int,
    first: int,
    second: int,
    done: int,
    x: Seq<Bin>,
    y: Seq<Bin>,
)
    requires
        0 <= done <= 13,
        first >= 2 + done,
        second >= 2 + done,
        together(size_bins(slot, first, done) + x, size_bins(slot, second, done) + y),
    ensures
        first == second,
        together(x, y),
    decreases 13 - done,
{
    let a = size_bins(slot, first, done) + x;
    let b = size_bins(slot, second, done) + y;
    if done == 13 {
        assert(repeated_true(slot, 0) =~= Seq::empty());
        assert(a =~= golomb_bins(first - 15, 0) + x);
        assert(b =~= golomb_bins(second - 15, 0) + y);
        lemma_golomb_told(first - 15, second - 15, 0, x, y);
    } else {
        let more = first > 2 + done;
        let other = second > 2 + done;
        let u = if more {
            size_bins(slot, first, done + 1) + x
        } else {
            x
        };
        let v = if other {
            size_bins(slot, second, done + 1) + y
        } else {
            y
        };
        lemma_size_step(slot, first, done, x);
        lemma_size_step(slot, second, done, y);
        lemma_one(decision(slot, more), decision(slot, other), u, v);
        if more {
            lemma_size_told(slot, first, second, done + 1, x, y);
        }
    }
}

proof fn lemma_size_step(slot: int, size: int, done: int, x: Seq<Bin>)
    requires
        0 <= done < 13,
        size >= 2 + done,
    ensures
        size_bins(slot, size, done) + x == seq![decision(slot, size > 2 + done)] + (if size > 2
            + done {
            size_bins(slot, size, done + 1) + x
        } else {
            x
        }),
{
    if size < 15 {
        if size > 2 + done {
            lemma_repeated_front(slot, size - 2 - done);
        } else {
            assert(repeated_true(slot, 0) =~= Seq::empty());
        }
    } else {
        lemma_repeated_front(slot, 13 - done);
    }
    assert(size_bins(slot, size, done) + x =~= seq![decision(slot, size > 2 + done)] + (if size > 2
        + done {
        size_bins(slot, size, done + 1) + x
    } else {
        x
    }));
}

/// A level other than zero is told.
proof fn lemma_level_told(
    base: int,
    node: int,
    first: int,
    second: int,
    x: Seq<Bin>,
    y: Seq<Bin>,
)
    requires
        first != 0,
        second != 0,
        together(level_bins(base, node, first) + x, level_bins(base, node, second) + y),
    ensures
        first == second,
        together(x, y),
{
    let a = magnitude(first);
    let b = magnitude(second);
    let slot = base + more_slot(node);
    let u = seq![Bin::Bypass(first < 0)] + x;
    let v = seq![Bin::Bypass(second < 0)] + y;
    let c = if a > 1 {
        size_bins(slot, a, 0) + u
    } else {
        u
    };
    let d = if b > 1 {
        size_bins(slot, b, 0) + v
    } else {
        v
    };
    let p = decision(base + one_slot(node), a > 1);
    let q = decision(base + one_slot(node), b > 1);
    assert(level_bins(base, node, first) + x =~= seq![p] + c);
    assert(level_bins(base, node, second) + y =~= seq![q] + d);
    lemma_one(p, q, c, d);
    assert((a > 1) == (b > 1));
    if a > 1 {
        lemma_size_told(slot, a, b, 0, u, v);
    }
    lemma_one(Bin::Bypass(first < 0), Bin::Bypass(second < 0), x, y);
}

/// Levels are told, where their places are known.
proof fn lemma_levels_told(
    base: int,
    first: Seq<int>,
    second: Seq<int>,
    node: int,
    count: int,
    x: Seq<Bin>,
    y: Seq<Bin>,
)
    requires
        0 <= count <= first.len(),
        first.len() == second.len(),
        alike(first, second, 0, count),
        together(
            levels_bins(base, first, node, count) + x,
            levels_bins(base, second, node, count) + y,
        ),
    ensures
        forall|i: int| 0 <= i < count ==> first[i] == second[i],
        together(x, y),
    decreases count,
{
    if count <= 0 {
        assert(levels_bins(base, first, node, count) + x =~= x);
        assert(levels_bins(base, second, node, count) + y =~= y);
    } else {
        let a = first[count - 1];
        let b = second[count - 1];
        assert((a == 0) == (b == 0));
        if a == 0 {
            lemma_levels_told(base, first, second, node, count - 1, x, y);
        } else {
            let next = node_after(node, magnitude(a) > 1);
            let other = node_after(node, magnitude(b) > 1);
            let c = levels_bins(base, first, next, count - 1);
            let d = levels_bins(base, second, other, count - 1);
            assert(levels_bins(base, first, node, count) + x =~= level_bins(base, node, a) + (c
                + x));
            assert(levels_bins(base, second, node, count) + y =~= level_bins(base, node, b) + (d
                + y));
            lemma_level_told(base, node, a, b, c + x, d + y);
            lemma_levels_told(base, first, second, next, count - 1, x, y);
        }
    }
}

/// The places of levels other than zero are told.
proof fn lemma_map_told(
    kind: BlockKind,
    first: Seq<int>,
    second: Seq<int>,
    position: int,
    x: Seq<Bin>,
    y: Seq<Bin>,
)
    requires
        0 <= position < first.len(),
        first.len() == second.len(),
        alike(first, second, 0, position),
        position <= last_nonzero(first, first.len() as int),
        position <= last_nonzero(second, second.len() as int),
        together(
            map_bins(kind, first, last_nonzero(first, first.len() as int), position) + x,
            map_bins(kind, second, last_nonzero(second, second.len() as int), position) + y,
        ),
    ensures
        alike(first, second, 0, first.len() as int),
        last_nonzero(first, first.len() as int) == last_nonzero(second, second.len() as int),
        together(x, y),
    decreases first.len() - position,
{
    let n = first.len() as int;
    let last = last_nonzero(first, n);
    let end = last_nonzero(second, n);
    lemma_last(first, n);
    lemma_last(second, n);
    let left = map_bins(kind, first, last, position) + x;
    let right = map_bins(kind, second, end, position) + y;
    if position >= n - 1 {
        assert(left =~= x);
        assert(right =~= y);
    } else {
        let significant = first[position] != 0;
        let other = second[position] != 0;
        let a = map_bins(kind, first, last, position + 1) + x;
        let b = map_bins(kind, second, end, position + 1) + y;
        let slot = last_slot(kind, position);
        let c = if !significant {
            a
        } else {
            seq![decision(slot, position == last)] + (if position == last {
                x
            } else {
                a
            })
        };
        let d = if !other {
            b
        } else {
            seq![decision(slot, position == end)] + (if position == end {
                y
            } else {
                b
            })
        };
        let p = decision(significant_slot(kind, position), significant);
        let q = decision(significant_slot(kind, position), other);
        assert(left =~= seq![p] + c);
        assert(right =~= seq![q] + d);
        lemma_one(p, q, c, d);
        assert(significant == other);
        assert(alike(first, second, 0, position + 1));
        if !significant {
            lemma_map_told(kind, first, second, position + 1, x, y);
        } else {
            let u = if position == last {
                x
            } else {
                a
            };
            let v = if position == end {
                y
            } else {
                b
            };
            lemma_one(decision(slot, position == last), decision(slot, position == end), u, v);
            if position != last {
                lemma_map_told(kind, first, second, position + 1, x, y);
            }
        }
    }
}

/// The symbols of a residual block that holds anything tell all its levels, where they are read
/// one by one.
pub proof fn law_block_read(
    kind: BlockKind,
    first: Seq<int>,
    second: Seq<int>,
    x: Seq<Bin>,
    y: Seq<Bin>,
)
    requires
        first.len() == second.len(),
        any_nonzero(first),
        any_nonzero(second),
        together(block_bins(kind, first) + x, block_bins(kind, second) + y),
    ensures
        first == second,
        together(x, y),
{
    reveal(block_bins);
    let n = first.len() as int;
    let last = last_nonzero(first, n);
    let end = last_nonzero(second, n);
    lemma_last(first, n);
    lemma_last(second, n);
    let base = kind.base() + 34;
    let a = levels_bins(base, first, 0, last + 1);
    let b = levels_bins(base, second, 0, end + 1);
    assert(block_bins(kind, first) + x =~= map_bins(kind, first, last, 0) + (a + x));
    assert(block_bins(kind, second) + y =~= map_bins(kind, second, end, 0) + (b + y));
    lemma_map_told(kind, first, second, 0, a + x, b + y);
    lemma_levels_told(base, first, second, 0, last + 1, x, y);
    assert(first =~= second);
}

/// A block, and whether it holds anything, are told by their symbols, where they are read one by
/// one.
pub proof fn law_marked_block_read(
    kind: BlockKind,
    slot: int,
    first: Seq<int>,
    second: Seq<int>,
    x: Seq<Bin>,
    y: Seq<Bin>,
)
    requires
        first.len() == second.len(),
        together(
            marked_block_bins(kind, slot, first) + x,
            marked_block_bins(kind, slot, second) + y,
        ),
    ensures
        first == second,
        together(x, y),
{
    reveal(marked_block_bins);
    let held = any_nonzero(first);
    let other = any_nonzero(second);
    let a = if held {
        block_bins(kind, first) + x
    } else {
        x
    };
    let b = if other {
        block_bins(kind, second) + y
    } else {
        y
    };
    assert(marked_block_bins(kind, slot, first) + x =~= seq![decision(slot, held)] + a);
    assert(marked_block_bins(kind, slot, second) + y =~= seq![decision(slot, other)] + b);
    lemma_one(decision(slot, held), decision(slot, other), a, b);
    assert(held == other);
    if held {
        law_block_read(kind, first, second, x, y);
    } else {
        assert(first =~= second) by {
            assert forall|i: int| 0 <= i < first.len() implies first[i] == second[i] by {
                assert(!(first[i] != 0));
                assert(!(second[i] != 0));
            }
        }
    }
}

/// The type of a macroblock in a picture that stands alone is told by its symbols, where they are
/// read one by one.
pub proof fn law_type_i_read(
    first: int,
    second: int,
    increment: int,
    x: Seq<Bin>,
    y: Seq<Bin>,
)
    requires
        0 <= first <= 24,
        0 <= second <= 24,
        together(type_i_bins(first, increment) + x, type_i_bins(second, increment) + y),
    ensures
        first == second,
        together(x, y),
{
    let u = type_i_bins(first, increment);
    let v = type_i_bins(second, increment);
    let a = u.skip(1);
    let b = v.skip(1);
    assert(u + x =~= seq![u[0]] + (a + x));
    assert(v + y =~= seq![v[0]] + (b + y));
    lemma_one(u[0], v[0], a + x, b + y);
    assert((first != 0) == (second != 0));
    if first != 0 {
        let c = u.subrange(1, 4);
        let d = v.subrange(1, 4);
        assert(a + x =~= c + (u.skip(4) + x));
        assert(b + y =~= d + (v.skip(4) + y));
        lemma_fixed(c, d, u.skip(4) + x, v.skip(4) + y);
        let m = (first - 1) % 12;
        let n = (second - 1) % 12;
        assert(c[1] == u[2] && d[1] == v[2]);
        assert(c[2] == u[3] && d[2] == v[3]);
        assert((first - 1 >= 12) == (second - 1 >= 12));
        assert((m >= 4) == (n >= 4));
        lemma_fixed(u.skip(4), v.skip(4), x, y);
        if m >= 4 {
            assert(u.skip(4)[0] == u[4] && v.skip(4)[0] == v[4]);
            assert(u.skip(4)[1] == u[5] && v.skip(4)[1] == v[5]);
            assert(u.skip(4)[2] == u[6] && v.skip(4)[2] == v[6]);
            assert((m >= 8) == (n >= 8));
        } else {
            assert(u.skip(4)[0] == u[4] && v.skip(4)[0] == v[4]);
            assert(u.skip(4)[1] == u[5] && v.skip(4)[1] == v[5]);
        }
        assert((m % 4 >= 2) == (n % 4 >= 2));
        assert((m % 2 == 1) == (n % 2 == 1));
    } else {
        assert(a + x =~= x);
        assert(b + y =~= y);
    }
}

/// A chroma prediction mode is told by its symbols, where they are read one by one.
pub proof fn law_chroma_mode_read(
    first: int,
    second: int,
    increment: int,
    x: Seq<Bin>,
    y: Seq<Bin>,
)
    requires
        0 <= first <= 3,
        0 <= second <= 3,
        together(chroma_mode_bins(first, increment) + x, chroma_mode_bins(second, increment) + y),
    ensures
        first == second,
        together(x, y),
{
    let u = chroma_mode_bins(first, increment);
    let v = chroma_mode_bins(second, increment);
    assert(u + x =~= seq![u[0]] + (u.skip(1) + x));
    assert(v + y =~= seq![v[0]] + (v.skip(1) + y));
    lemma_one(u[0], v[0], u.skip(1) + x, v.skip(1) + y);
    assert((first != 0) == (second != 0));
    if first != 0 {
        assert(u.skip(1) + x =~= seq![u[1]] + (u.skip(2) + x));
        assert(v.skip(1) + y =~= seq![v[1]] + (v.skip(2) + y));
        lemma_one(u[1], v[1], u.skip(2) + x, v.skip(2) + y);
        assert((first != 1) == (second != 1));
        lemma_fixed(u.skip(2), v.skip(2), x, y);
        if first > 1 {
            assert(u.skip(2)[0] == u[2] && v.skip(2)[0] == v[2]);
        }
    } else {
        assert(u.skip(1) + x =~= x);
        assert(v.skip(1) + y =~= y);
    }
}

/// A luma prediction mode is told by its symbols, where the predicted one is known and they are
/// read one by one.
pub proof fn law_luma_mode_read(
    first: int,
    second: int,
    predicted: int,
    x: Seq<Bin>,
    y: Seq<Bin>,
)
    requires
        0 <= first <= 8,
        0 <= second <= 8,
        0 <= predicted <= 8,
        together(luma_mode_bins(first, predicted) + x, luma_mode_bins(second, predicted) + y),
    ensures
        first == second,
        together(x, y),
{
    let u = luma_mode_bins(first, predicted);
    let v = luma_mode_bins(second, predicted);
    assert(u + x =~= seq![u[0]] + (u.skip(1) + x));
    assert(v + y =~= seq![v[0]] + (v.skip(1) + y));
    lemma_one(u[0], v[0], u.skip(1) + x, v.skip(1) + y);
    assert((first == predicted) == (second == predicted));
    lemma_fixed(u.skip(1), v.skip(1), x, y);
    if first != predicted {
        let a = first - unit(first > predicted);
        let b = second - unit(second > predicted);
        assert(u.skip(1)[0] == u[1] && v.skip(1)[0] == v[1]);
        assert(u.skip(1)[1] == u[2] && v.skip(1)[1] == v[2]);
        assert(u.skip(1)[2] == u[3] && v.skip(1)[2] == v[3]);
        assert((a % 2 == 1) == (b % 2 == 1));
        assert((a / 2 % 2 == 1) == (b / 2 % 2 == 1));
        assert((a / 4 % 2 == 1) == (b / 4 % 2 == 1));
        assert(a == b);
    }
}

/// A unary number is told.
proof fn lemma_unary_told(index: int, first: int, second: int, x: Seq<Bin>, y: Seq<Bin>)
    requires
        1 <= index <= first,
        index <= second,
        together(unary_delta(index, first) + x, unary_delta(index, second) + y),
    ensures
        first == second,
        together(x, y),
    decreases first - index,
{
    let slot = crate::bins::QP_DELTA + if index == 1 {
        2int
    } else {
        3
    };
    let a = if index < first {
        unary_delta(index + 1, first) + x
    } else {
        x
    };
    let b = if index < second {
        unary_delta(index + 1, second) + y
    } else {
        y
    };
    assert(unary_delta(index, first) + x =~= seq![decision(slot, index < first)] + a);
    assert(unary_delta(index, second) + y =~= seq![decision(slot, index < second)] + b);
    lemma_one(decision(slot, index < first), decision(slot, index < second), a, b);
    if index < first {
        lemma_unary_told(index + 1, first, second, x, y);
    }
}

/// A change of the quantizer is told by its symbols, where they are read one by one.
pub proof fn law_qp_delta_read(
    first: int,
    second: int,
    previous: int,
    x: Seq<Bin>,
    y: Seq<Bin>,
)
    requires
        together(qp_delta_bins(first, previous) + x, qp_delta_bins(second, previous) + y),
    ensures
        first == second,
        together(x, y),
{
    let u = qp_delta_bins(first, previous);
    let v = qp_delta_bins(second, previous);
    assert(u + x =~= seq![u[0]] + (u.skip(1) + x));
    assert(v + y =~= seq![v[0]] + (v.skip(1) + y));
    lemma_one(u[0], v[0], u.skip(1) + x, v.skip(1) + y);
    assert((first != 0) == (second != 0));
    if first == 0 {
        assert(u.skip(1) + x =~= x);
        assert(v.skip(1) + y =~= y);
    } else {
        let a: int = if first > 0 {
            2 * first - 1
        } else {
            -2 * first
        };
        let b: int = if second > 0 {
            2 * second - 1
        } else {
            -2 * second
        };
        assert(u.skip(1) =~= unary_delta(1, a));
        assert(v.skip(1) =~= unary_delta(1, b));
        lemma_unary_told(1, a, b, x, y);
    }
}

/// The luma part of a pattern is told.
proof fn lemma_luma_pattern_told(
    first: int,
    second: int,
    left: int,
    top: int,
    x: Seq<Bin>,
    y: Seq<Bin>,
)
    requires
        together(luma_pattern_bins(first, left, top) + x, luma_pattern_bins(second, left, top) + y),
    ensures
        first % 2 == second % 2,
        first / 2 % 2 == second / 2 % 2,
        first / 4 % 2 == second / 4 % 2,
        first / 8 % 2 == second / 8 % 2,
        together(x, y),
{
    reveal(luma_pattern_bins);
    let u = luma_pattern_bins(first, left, top);
    let v = luma_pattern_bins(second, left, top);
    assert(u + x =~= seq![u[0]] + (seq![u[1]] + (seq![u[2]] + (seq![u[3]] + x))));
    assert(v + y =~= seq![v[0]] + (seq![v[1]] + (seq![v[2]] + (seq![v[3]] + y))));
    lemma_one(
        u[0],
        v[0],
        seq![u[1]] + (seq![u[2]] + (seq![u[3]] + x)),
        seq![v[1]] + (seq![v[2]] + (seq![v[3]] + y)),
    );
    assert((first % 2 == 1) == (second % 2 == 1));
    lemma_one(u[1], v[1], seq![u[2]] + (seq![u[3]] + x), seq![v[2]] + (seq![v[3]] + y));
    assert((first / 2 % 2 == 1) == (second / 2 % 2 == 1));
    lemma_one(u[2], v[2], seq![u[3]] + x, seq![v[3]] + y);
    assert((first / 4 % 2 == 1) == (second / 4 % 2 == 1));
    lemma_one(u[3], v[3], x, y);
    assert((first / 8 % 2 == 1) == (second / 8 % 2 == 1));
}

/// The chroma part of a pattern is told.
proof fn lemma_chroma_pattern_told(
    first: int,
    second: int,
    left: int,
    top: int,
    x: Seq<Bin>,
    y: Seq<Bin>,
)
    requires
        0 <= first <= 2,
        0 <= second <= 2,
        together(
            chroma_pattern_bins(first, left, top) + x,
            chroma_pattern_bins(second, left, top) + y,
        ),
    ensures
        first == second,
        together(x, y),
{
    reveal(chroma_pattern_bins);
    let u = chroma_pattern_bins(first, left, top);
    let v = chroma_pattern_bins(second, left, top);
    assert(u + x =~= seq![u[0]] + (u.skip(1) + x));
    assert(v + y =~= seq![v[0]] + (v.skip(1) + y));
    lemma_one(u[0], v[0], u.skip(1) + x, v.skip(1) + y);
    assert((first != 0) == (second != 0));
    lemma_fixed(u.skip(1), v.skip(1), x, y);
    if first != 0 {
        assert(u.skip(1)[0] == u[1] && v.skip(1)[0] == v[1]);
    }
}

/// A pattern is told by its symbols, where the patterns to the left and above are known and they
/// are read one by one.
pub proof fn law_pattern_read(
    first: int,
    second: int,
    left: int,
    top: int,
    x: Seq<Bin>,
    y: Seq<Bin>,
)
    requires
        0 <= first < 48,
        0 <= second < 48,
        together(pattern_bins(first, left, top) + x, pattern_bins(second, left, top) + y),
    ensures
        first == second,
        together(x, y),
{
    let a = chroma_pattern_bins(first / 16, left / 16, top / 16);
    let b = chroma_pattern_bins(second / 16, left / 16, top / 16);
    assert(pattern_bins(first, left, top) + x =~= luma_pattern_bins(first, left, top) + (a + x));
    assert(pattern_bins(second, left, top) + y =~= luma_pattern_bins(second, left, top) + (b + y));
    lemma_luma_pattern_told(first, second, left, top, a + x, b + y);
    lemma_chroma_pattern_told(first / 16, second / 16, left / 16, top / 16, x, y);
}

} // verus!
