//! What the symbols of motion tell that are read one by one.

use vstd::prelude::*;

use crate::arithmetic::Bin;
use crate::bins::{decision, golomb_bins, inner_bins};
use crate::inner_symbols::{lemma_golomb_inner, lemma_inner_joined};
use crate::inter_bins::{
    long_type, motion_bins, motion_increment, motion_slot, motion_steps, reference_bins,
    reference_slot, reference_steps, size_bins, sub_type_b_bins, sub_type_p_bins, type_b_bins,
    type_p_bins,
};
use crate::math::magnitude;
use crate::told_symbols::{lemma_fixed, lemma_golomb_told, lemma_one, together};

verus! {

/// The type of a macroblock in a picture that is predicted from earlier ones is told by its
/// symbols, where they are read one by one.
pub proof fn law_type_p_read(first: int, second: int, x: Seq<Bin>, y: Seq<Bin>)
    requires
        0 <= first <= 3,
        0 <= second <= 3,
        together(type_p_bins(first) + x, type_p_bins(second) + y),
    ensures
        first == second,
        together(x, y),
{
    let u = type_p_bins(first);
    let v = type_p_bins(second);
    assert(u + x =~= seq![u[0]] + (seq![u[1]] + (seq![u[2]] + x)));
    assert(v + y =~= seq![v[0]] + (seq![v[1]] + (seq![v[2]] + y)));
    lemma_one(
        u[0],
        v[0],
        seq![u[1]] + (seq![u[2]] + x),
        seq![v[1]] + (seq![v[2]] + y),
    );
    lemma_one(u[1], v[1], seq![u[2]] + x, seq![v[2]] + y);
    lemma_one(u[2], v[2], x, y);
}

/// The type of a quarter in a picture that is predicted from earlier ones is told by its symbols,
/// where they are read one by one.
pub proof fn law_sub_type_p_read(first: int, second: int, x: Seq<Bin>, y: Seq<Bin>)
    requires
        0 <= first <= 3,
        0 <= second <= 3,
        together(sub_type_p_bins(first) + x, sub_type_p_bins(second) + y),
    ensures
        first == second,
        together(x, y),
{
    let u = sub_type_p_bins(first);
    let v = sub_type_p_bins(second);
    assert(u + x =~= seq![u[0]] + (u.skip(1) + x));
    assert(v + y =~= seq![v[0]] + (v.skip(1) + y));
    lemma_one(u[0], v[0], u.skip(1) + x, v.skip(1) + y);
    assert((first == 0) == (second == 0));
    if first != 0 {
        assert(u.skip(1) + x =~= seq![u[1]] + (u.skip(2) + x));
        assert(v.skip(1) + y =~= seq![v[1]] + (v.skip(2) + y));
        lemma_one(u[1], v[1], u.skip(2) + x, v.skip(2) + y);
        assert((first >= 2) == (second >= 2));
        lemma_fixed(u.skip(2), v.skip(2), x, y);
        if first >= 2 {
            assert(u.skip(2)[0] == u[2] && v.skip(2)[0] == v[2]);
        }
    } else {
        assert(u.skip(1) + x =~= x);
        assert(v.skip(1) + y =~= y);
    }
}

/// The type of a macroblock in a picture that is predicted from both sides is told by its symbols,
/// where they are read one by one.
#[verifier::spinoff_prover]
#[verifier::rlimit(40)]
pub proof fn law_type_b_read(
    first: int,
    second: int,
    increment: int,
    x: Seq<Bin>,
    y: Seq<Bin>,
)
    requires
        0 <= first <= 22,
        0 <= second <= 22,
        together(type_b_bins(first, increment) + x, type_b_bins(second, increment) + y),
    ensures
        first == second,
        together(x, y),
{
    let u = type_b_bins(first, increment);
    let v = type_b_bins(second, increment);
    assert(u + x =~= seq![u[0]] + (u.skip(1) + x));
    assert(v + y =~= seq![v[0]] + (v.skip(1) + y));
    lemma_one(u[0], v[0], u.skip(1) + x, v.skip(1) + y);
    assert((first == 0) == (second == 0));
    if first == 0 {
        assert(u.skip(1) + x =~= x);
        assert(v.skip(1) + y =~= y);
    } else {
        assert(u.skip(1) + x =~= seq![u[1]] + (u.skip(2) + x));
        assert(v.skip(1) + y =~= seq![v[1]] + (v.skip(2) + y));
        lemma_one(u[1], v[1], u.skip(2) + x, v.skip(2) + y);
        assert((first <= 2) == (second <= 2));
        if first <= 2 {
            lemma_fixed(u.skip(2), v.skip(2), x, y);
            assert(u.skip(2)[0] == u[2] && v.skip(2)[0] == v[2]);
        } else {
            let a = u.subrange(2, 6);
            let b = v.subrange(2, 6);
            assert(u.skip(2) + x =~= a + (u.skip(6) + x));
            assert(v.skip(2) + y =~= b + (v.skip(6) + y));
            lemma_fixed(a, b, u.skip(6) + x, v.skip(6) + y);
            let m = long_type(first);
            let n = long_type(second);
            assert(a[0] == u[2] && b[0] == v[2]);
            assert(a[1] == u[3] && b[1] == v[3]);
            assert(a[2] == u[4] && b[2] == v[4]);
            assert(a[3] == u[5] && b[3] == v[5]);
            assert((m / 8 % 2 == 1) == (n / 8 % 2 == 1));
            assert((m / 4 % 2 == 1) == (n / 4 % 2 == 1));
            assert((m / 2 % 2 == 1) == (n / 2 % 2 == 1));
            assert((m % 2 == 1) == (n % 2 == 1));
            assert(0 <= m < 16 && 0 <= n < 16);
            assert(m == n);
            assert((12 <= first <= 21) == (12 <= second <= 21));
            lemma_fixed(u.skip(6), v.skip(6), x, y);
            if 12 <= first <= 21 {
                assert(u.skip(6)[0] == u[6] && v.skip(6)[0] == v[6]);
                assert((first % 2 == 1) == (second % 2 == 1));
            }
        }
    }
}

/// The type of a quarter in a picture that is predicted from both sides is told by its symbols,
/// where they are read one by one.
#[verifier::spinoff_prover]
#[verifier::rlimit(40)]
pub proof fn law_sub_type_b_read(first: int, second: int, x: Seq<Bin>, y: Seq<Bin>)
    requires
        0 <= first <= 12,
        0 <= second <= 12,
        together(sub_type_b_bins(first) + x, sub_type_b_bins(second) + y),
    ensures
        first == second,
        together(x, y),
{
    let u = sub_type_b_bins(first);
    let v = sub_type_b_bins(second);
    assert(u + x =~= seq![u[0]] + (u.skip(1) + x));
    assert(v + y =~= seq![v[0]] + (v.skip(1) + y));
    lemma_one(u[0], v[0], u.skip(1) + x, v.skip(1) + y);
    assert((first == 0) == (second == 0));
    if first == 0 {
        assert(u.skip(1) + x =~= x);
        assert(v.skip(1) + y =~= y);
    } else {
        assert(u.skip(1) + x =~= seq![u[1]] + (u.skip(2) + x));
        assert(v.skip(1) + y =~= seq![v[1]] + (v.skip(2) + y));
        lemma_one(u[1], v[1], u.skip(2) + x, v.skip(2) + y);
        assert((first <= 2) == (second <= 2));
        if first <= 2 {
            lemma_fixed(u.skip(2), v.skip(2), x, y);
            assert(u.skip(2)[0] == u[2] && v.skip(2)[0] == v[2]);
        } else {
            assert(u.skip(2) + x =~= seq![u[2]] + (u.skip(3) + x));
            assert(v.skip(2) + y =~= seq![v[2]] + (v.skip(3) + y));
            lemma_one(u[2], v[2], u.skip(3) + x, v.skip(3) + y);
            assert((first >= 7) == (second >= 7));
            if first >= 7 {
                assert(u.skip(3) + x =~= seq![u[3]] + (u.skip(4) + x));
                assert(v.skip(3) + y =~= seq![v[3]] + (v.skip(4) + y));
                lemma_one(u[3], v[3], u.skip(4) + x, v.skip(4) + y);
                assert((first >= 11) == (second >= 11));
                lemma_fixed(u.skip(4), v.skip(4), x, y);
                assert(u.skip(4)[0] == u[4] && v.skip(4)[0] == v[4]);
                if first < 11 {
                    assert(u.skip(4)[1] == u[5] && v.skip(4)[1] == v[5]);
                    let m = first - 7;
                    let n = second - 7;
                    assert((m / 2 % 2 == 1) == (n / 2 % 2 == 1));
                    assert((m % 2 == 1) == (n % 2 == 1));
                }
            } else {
                lemma_fixed(u.skip(3), v.skip(3), x, y);
                assert(u.skip(3)[0] == u[3] && v.skip(3)[0] == v[3]);
                assert(u.skip(3)[1] == u[4] && v.skip(3)[1] == v[4]);
                let m = first - 3;
                let n = second - 3;
                assert((m / 2 % 2 == 1) == (n / 2 % 2 == 1));
                assert((m % 2 == 1) == (n % 2 == 1));
            }
        }
    }
}

/// The symbols of a reference index after `done` of them.
spec fn index_rest(increment: int, index: int, done: int) -> Seq<Bin>
    decreases index - done,
{
    if done >= index {
        seq![decision(reference_slot(index, increment), false)]
    } else {
        seq![decision(reference_slot(done, increment), true)] + index_rest(
            increment,
            index,
            done + 1,
        )
    }
}

proof fn lemma_index_rest(increment: int, index: int, done: int)
    requires
        0 <= done <= index,
    ensures
        reference_steps(increment, done) + index_rest(increment, index, done) == reference_steps(
            increment,
            index,
        ).push(decision(reference_slot(index, increment), false)),
    decreases index - done,
{
    let all = reference_steps(increment, index).push(
        decision(reference_slot(index, increment), false),
    );
    if done < index {
        lemma_index_rest(increment, index, done + 1);
        let here = decision(reference_slot(done, increment), true);
        assert(reference_steps(increment, done + 1) == reference_steps(increment, done).push(here));
        assert(reference_steps(increment, done) + index_rest(increment, index, done)
            =~= reference_steps(increment, done + 1) + index_rest(increment, index, done + 1));
    } else {
        assert(reference_steps(increment, done) + index_rest(increment, index, done) =~= all);
    }
}

proof fn lemma_index_told(
    increment: int,
    first: int,
    second: int,
    done: int,
    x: Seq<Bin>,
    y: Seq<Bin>,
)
    requires
        0 <= done <= first,
        done <= second,
        together(
            index_rest(increment, first, done) + x,
            index_rest(increment, second, done) + y,
        ),
    ensures
        first == second,
        together(x, y),
    decreases first - done,
{
    let slot = reference_slot(done, increment);
    let a = if done < first {
        index_rest(increment, first, done + 1) + x
    } else {
        x
    };
    let b = if done < second {
        index_rest(increment, second, done + 1) + y
    } else {
        y
    };
    assert(index_rest(increment, first, done) + x =~= seq![decision(slot, done < first)] + a);
    assert(index_rest(increment, second, done) + y =~= seq![decision(slot, done < second)] + b);
    lemma_one(decision(slot, done < first), decision(slot, done < second), a, b);
    if done < first {
        lemma_index_told(increment, first, second, done + 1, x, y);
    }
}

/// A reference index is told by its symbols, where they are read one by one.
pub proof fn law_reference_read(
    first: int,
    second: int,
    increment: int,
    active_minus1: int,
    x: Seq<Bin>,
    y: Seq<Bin>,
)
    requires
        0 <= first <= active_minus1,
        0 <= second <= active_minus1,
        together(
            reference_bins(first, increment, active_minus1) + x,
            reference_bins(second, increment, active_minus1) + y,
        ),
    ensures
        first == second,
        together(x, y),
{
    if active_minus1 == 0 {
        assert(reference_bins(first, increment, active_minus1) + x =~= x);
        assert(reference_bins(second, increment, active_minus1) + y =~= y);
    } else {
        lemma_index_rest(increment, first, 0);
        lemma_index_rest(increment, second, 0);
        let a = index_rest(increment, first, 0);
        let b = index_rest(increment, second, 0);
        assert(reference_steps(increment, 0) + a =~= a);
        assert(reference_steps(increment, 0) + b =~= b);
        lemma_index_told(increment, first, second, 0, x, y);
    }
}

/// The symbols of the size of a vector difference after `done` of them.
spec fn size_rest(base: int, size: int, done: int) -> Seq<Bin>
    decreases 9 - done,
{
    if done >= 9 {
        golomb_bins(size - 9, 3)
    } else if done >= size {
        seq![decision(motion_slot(base, size), false)]
    } else {
        seq![decision(motion_slot(base, done), true)] + size_rest(base, size, done + 1)
    }
}

proof fn lemma_size_rest(base: int, size: int, done: int)
    requires
        1 <= done <= size,
        done <= 9,
    ensures
        motion_steps(base, done) + size_rest(base, size, done) == size_bins(base, size),
    decreases 9 - done,
{
    reveal(size_bins);
    if done < 9 && done < size {
        lemma_size_rest(base, size, done + 1);
        let here = decision(motion_slot(base, done), true);
        assert(motion_steps(base, done + 1) == motion_steps(base, done).push(here));
        assert(motion_steps(base, done) + size_rest(base, size, done) =~= motion_steps(
            base,
            done + 1,
        ) + size_rest(base, size, done + 1));
    } else {
        assert(motion_steps(base, done) + size_rest(base, size, done) =~= size_bins(base, size));
    }
}

proof fn lemma_size_read(
    base: int,
    first: int,
    second: int,
    done: int,
    x: Seq<Bin>,
    y: Seq<Bin>,
)
    requires
        1 <= done <= 9,
        done <= first,
        done <= second,
        together(size_rest(base, first, done) + x, size_rest(base, second, done) + y),
    ensures
        first == second,
        together(x, y),
    decreases 9 - done,
{
    if done >= 9 {
        lemma_golomb_told(first - 9, second - 9, 3, x, y);
    } else {
        let slot = motion_slot(base, done);
        let a = if done < first {
            size_rest(base, first, done + 1) + x
        } else {
            x
        };
        let b = if done < second {
            size_rest(base, second, done + 1) + y
        } else {
            y
        };
        assert(size_rest(base, first, done) + x =~= seq![decision(slot, done < first)] + a);
        assert(size_rest(base, second, done) + y =~= seq![decision(slot, done < second)] + b);
        lemma_one(decision(slot, done < first), decision(slot, done < second), a, b);
        if done < first {
            lemma_size_read(base, first, second, done + 1, x, y);
        }
    }
}

/// A vector difference is told by its symbols, where they are read one by one.
pub proof fn law_motion_read(
    base: int,
    sum: int,
    first: int,
    second: int,
    x: Seq<Bin>,
    y: Seq<Bin>,
)
    requires
        together(motion_bins(base, sum, first) + x, motion_bins(base, sum, second) + y),
    ensures
        first == second,
        together(x, y),
{
    let m = magnitude(first);
    let n = magnitude(second);
    let slot = base + motion_increment(sum);
    let c = seq![Bin::Bypass(first < 0)] + x;
    let d = seq![Bin::Bypass(second < 0)] + y;
    let a = if m == 0 {
        x
    } else {
        size_bins(base, m) + c
    };
    let b = if n == 0 {
        y
    } else {
        size_bins(base, n) + d
    };
    assert(motion_bins(base, sum, first) + x =~= seq![decision(slot, m != 0)] + a);
    assert(motion_bins(base, sum, second) + y =~= seq![decision(slot, n != 0)] + b);
    lemma_one(decision(slot, m != 0), decision(slot, n != 0), a, b);
    assert((m != 0) == (n != 0));
    if m != 0 {
        lemma_size_rest(base, m, 1);
        lemma_size_rest(base, n, 1);
        assert(motion_steps(base, 1) + size_rest(base, m, 1) =~= size_rest(base, m, 1));
        assert(motion_steps(base, 1) + size_rest(base, n, 1) =~= size_rest(base, n, 1));
        lemma_size_read(base, m, n, 1, c, d);
        lemma_one(Bin::Bypass(first < 0), Bin::Bypass(second < 0), x, y);
    }
}

/// The symbols of macroblock and quarter types stand inside a picture.
pub proof fn lemma_types_inner(kind: int, increment: int)
    requires
        0 <= increment <= 2,
    ensures
        inner_bins(type_p_bins(kind)),
        inner_bins(sub_type_p_bins(kind)),
        inner_bins(type_b_bins(kind, increment)),
        inner_bins(sub_type_b_bins(kind)),
{
}

proof fn lemma_steps_inner(increment: int, count: int)
    requires
        0 <= increment <= 3,
    ensures
        inner_bins(reference_steps(increment, count)),
    decreases count,
{
    if count > 0 {
        lemma_steps_inner(increment, count - 1);
    }
}

/// The symbols of a reference index stand inside a picture.
pub proof fn lemma_reference_inner(index: int, increment: int, active_minus1: int)
    requires
        0 <= increment <= 3,
    ensures
        inner_bins(reference_bins(index, increment, active_minus1)),
{
    lemma_steps_inner(increment, index);
}

proof fn lemma_motion_steps_inner(base: int, count: int)
    requires
        0 <= base <= 300,
    ensures
        inner_bins(motion_steps(base, count)),
    decreases count,
{
    if count > 1 {
        lemma_motion_steps_inner(base, count - 1);
    }
}

/// The symbols of a vector difference stand inside a picture.
pub proof fn lemma_motion_inner(base: int, sum: int, difference: int)
    requires
        0 <= base <= 300,
    ensures
        inner_bins(motion_bins(base, sum, difference)),
{
    reveal(size_bins);
    let size = magnitude(difference);
    lemma_motion_steps_inner(base, size);
    lemma_motion_steps_inner(base, 9);
    lemma_golomb_inner(size - 9, 3);
    lemma_inner_joined(motion_steps(base, 9), golomb_bins(size - 9, 3));
    if size != 0 {
        let last = seq![decision(motion_slot(base, size), false)];
        assert(inner_bins(last));
        lemma_inner_joined(motion_steps(base, size), last);
        lemma_inner_joined(size_bins(base, size), seq![Bin::Bypass(difference < 0)]);
    }
    let first = seq![decision(base + motion_increment(sum), size != 0)];
    assert(inner_bins(first));
    let rest: Seq<Bin> = if size == 0 {
        Seq::empty()
    } else {
        size_bins(base, size) + seq![Bin::Bypass(difference < 0)]
    };
    lemma_inner_joined(first, rest);
}

} // verus!
