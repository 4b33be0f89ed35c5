//! What holds of the probabilities of arithmetic coding.

use vstd::prelude::*;

use crate::bins::{last_slot, significant_slot, BlockKind};
use crate::bits::bits_value;
use crate::cabac::{
    adapted, bypassed, coded, decided, initial_state, renormalized, started, terminated,
    ContextState, Engine,
};
use crate::cabac_tables::{
    after_lps, after_mps, lps_width_at, RANGE_LPS, TRANSITION_LPS, TRANSITION_MPS,
};

verus! {

/// Where a probability starts, as a number from one to 126: how far it is from the middle, on the
/// side of its more probable symbol.
pub open spec fn place_of(state: ContextState) -> int {
    if state.most_probable_symbol {
        64 + state.probability_state
    } else {
        63 - state.probability_state
    }
}

/// A probability starts at the second number of its pair, moved by the first number for every
/// sixteen of the quantizer, rounded down, between one and 126.
pub proof fn law_start(m: int, n: int, qp: int)
    requires
        -128 <= m <= 127,
        -128 <= n <= 127,
        0 <= qp <= 51,
    ensures
        ({
            let place = place_of(initial_state(m, n, qp));
            &&& 1 <= place <= 126
            &&& place < 126 ==> m * qp < 16 * (place - n) + 16
            &&& place > 1 ==> 16 * (place - n) <= m * qp
        }),
        initial_state(m, n, qp).probability_state <= 62,
{
}

/// The more probable symbol makes itself more probable, step by step, up to the last but one state;
/// the less probable one makes itself more probable, and becomes the more probable one when both were
/// equal. The last state stays.
pub proof fn law_states_move(state: u8, symbol: bool)
    requires
        state < 64,
    ensures
        ({
            let context = ContextState { probability_state: state, most_probable_symbol: symbol };
            let more = adapted(context, false);
            let less = adapted(context, true);
            &&& more.most_probable_symbol == symbol
            &&& state < 62 ==> more.probability_state == state + 1
            &&& state >= 62 ==> more.probability_state == state
            &&& less.most_probable_symbol == (if state == 0 {
                !symbol
            } else {
                symbol
            })
            &&& 0 < state < 63 ==> less.probability_state < state
            &&& state == 0 || state == 63 ==> less.probability_state == state
        }),
{
    reveal(after_mps);
    reveal(after_lps);
    assert(forall|s: int| 0 <= s < 62 ==> #[trigger] TRANSITION_MPS[s] == s + 1);
    assert(forall|s: int| 0 < s < 63 ==> #[trigger] TRANSITION_LPS[s] < s);
}

/// After the less probable symbol, a more extreme state stays no less extreme, and never by more
/// than two steps.
pub proof fn law_less_probable_states(state: u8)
    requires
        state < 62,
    ensures
        after_lps(state) <= after_lps((state + 1) as u8) <= after_lps(state) + 2,
        after_lps(62) == 38,
{
    reveal(after_lps);
    assert(forall|s: int|
        0 <= s < 62 ==> #[trigger] TRANSITION_LPS[s] <= TRANSITION_LPS[s + 1] <= TRANSITION_LPS[s]
            + 2);
}

/// The less probable symbol takes with it about 51 of a thousand parts towards the whole interval:
/// its part is then 949 parts of what it was, and the rest of the greatest interval.
pub proof fn law_less_probable_part(state: u8)
    requires
        0 < state < 63,
    ensures
        ({
            let before = lps_width_at(state as int, 3);
            let after = lps_width_at(after_lps(state) as int, 3);
            -6500 <= 1000 * after - 949 * before - 24_480 <= 6500
        }),
{
    reveal(after_lps);
    reveal(lps_width_at);
    lemma_parts();
}

#[verifier::spinoff_prover]
#[verifier::rlimit(40)]
proof fn lemma_parts()
    ensures
        forall|s: int|
            0 < s < 63 ==> -6500 <= 1000 * RANGE_LPS[(#[trigger] TRANSITION_LPS[s]) as int][3] - 949
                * RANGE_LPS[s][3] - 24_480 <= 6500,
{
}

/// The part of the less probable symbol is in proportion to the middle of the quarter that the
/// interval lies in, but for the first three states, and shrinks by about 51 of a thousand parts
/// from state to state; in the first state it is half of the interval.
pub proof fn law_parts(state: int, quarter: int)
    requires
        0 <= state < 63,
        0 <= quarter < 4,
    ensures
        state >= 3 ==> -15 <= 9 * lps_width_at(state, quarter) - (9 + 2 * quarter) * lps_width_at(
            state,
            0,
        ) <= 15,
        state < 62 ==> -760 <= 1000 * lps_width_at(state + 1, 3) - 949 * lps_width_at(state, 3)
            <= 760,
        state < 62 ==> lps_width_at(state + 1, quarter) <= lps_width_at(state, quarter),
        quarter < 3 ==> lps_width_at(state, quarter) < lps_width_at(state, quarter + 1),
        lps_width_at(0, 3) == 240 && lps_width_at(0, 0) == 128,
        lps_width_at(63, quarter) == 2,
{
    lemma_quarters_at(state);
    lemma_falling_at(state);
    lemma_ends(quarter);
}

proof fn lemma_quarters_at(state: int)
    requires
        0 <= state < 63,
    ensures
        ({
            let w = |q: int| lps_width_at(state, q);
            &&& w(0) < w(1) < w(2) < w(3)
            &&& state >= 3 ==> -15 <= 9 * w(1) - 11 * w(0) <= 15
            &&& state >= 3 ==> -15 <= 9 * w(2) - 13 * w(0) <= 15
            &&& state >= 3 ==> -15 <= 9 * w(3) - 15 * w(0) <= 15
        }),
{
    reveal(lps_width_at);
    lemma_quarters();
    let row = RANGE_LPS[state];
}

proof fn lemma_falling_at(state: int)
    requires
        0 <= state < 63,
    ensures
        ({
            let w = |q: int| lps_width_at(state, q);
            let v = |q: int| lps_width_at(state + 1, q);
            state < 62 ==> {
                &&& v(0) <= w(0) && v(1) <= w(1) && v(2) <= w(2) && v(3) <= w(3)
                &&& -760 <= 1000 * v(3) - 949 * w(3) <= 760
            }
        }),
{
    reveal(lps_width_at);
    lemma_falling();
    let row = RANGE_LPS[state];
}

proof fn lemma_ends(quarter: int)
    requires
        0 <= quarter < 4,
    ensures
        lps_width_at(0, 3) == 240 && lps_width_at(0, 0) == 128,
        lps_width_at(63, quarter) == 2,
{
    reveal(lps_width_at);
}

#[verifier::spinoff_prover]
#[verifier::rlimit(40)]
proof fn lemma_quarters()
    ensures
        forall|s: int|
            3 <= s < 63 ==> {
                let w = #[trigger] RANGE_LPS[s];
                &&& -15 <= 9 * w[1] - 11 * w[0] <= 15
                &&& -15 <= 9 * w[2] - 13 * w[0] <= 15
                &&& -15 <= 9 * w[3] - 15 * w[0] <= 15
            },
        forall|s: int|
            0 <= s < 63 ==> {
                let w = #[trigger] RANGE_LPS[s];
                w[0] < w[1] < w[2] < w[3]
            },
{
}

#[verifier::spinoff_prover]
#[verifier::rlimit(60)]
proof fn lemma_falling()
    ensures
        forall|s: int|
            0 <= s < 62 ==> {
                let w = #[trigger] RANGE_LPS[s];
                let v = RANGE_LPS[s + 1];
                &&& v[0] <= w[0] && v[1] <= w[1] && v[2] <= w[2] && v[3] <= w[3]
                &&& -760 <= 1000 * v[3] - 949 * w[3] <= 760
            },
{
}

/// A decision gives the more probable symbol where the code lies in the lower part of the interval,
/// which is what the less probable one leaves, and the less probable one in the upper part.
pub proof fn law_decision(engine: Engine, context: ContextState)
    requires
        engine.ready(),
        context.valid(),
        decided(engine, context).0.value is Ok,
    ensures
        ({
            let part = lps_width_at(context.probability_state as int, engine.range / 64 - 4);
            let found = decided(engine, context).0.value->Ok_0;
            &&& engine.offset < engine.range - part ==> found == context.most_probable_symbol
                && decided(engine, context).1 == adapted(context, false) && decided(
                engine,
                context,
            ).0.engine == renormalized(
                Engine { range: engine.range - part, ..engine },
            ).engine
            &&& engine.offset >= engine.range - part ==> found != context.most_probable_symbol
                && decided(engine, context).1 == adapted(context, true) && decided(
                engine,
                context,
            ).0.engine == renormalized(
                Engine {
                    range: part,
                    offset: engine.offset - (engine.range - part),
                    ..engine
                },
            ).engine
        }),
{
    assert((engine.range / 64) % 4 == engine.range / 64 - 4);
}

/// A wide interval is left; a narrow one is doubled together with the code, to which the next bit is
/// added, until it is wide.
pub proof fn law_doubled(engine: Engine)
    requires
        0 < engine.range <= 510,
    ensures
        engine.range >= 256 ==> renormalized(engine).engine == engine,
        engine.range < 256 && engine.at < engine.bits.len() ==> renormalized(engine).engine
            == renormalized(
            Engine {
                range: 2 * engine.range,
                offset: 2 * engine.offset + (if engine.bits[engine.at] {
                    1int
                } else {
                    0
                }),
                at: engine.at + 1,
                ..engine
            },
        ).engine,
{
}

/// Without a probability both symbols have the same part: the code is doubled with the next bit and
/// held against the interval, which stays.
pub proof fn law_equal_parts(engine: Engine)
    requires
        engine.ready(),
        engine.at < engine.bits.len(),
    ensures
        ({
            let doubled = 2 * engine.offset + (if engine.bits[engine.at] {
                1int
            } else {
                0
            });
            let found = bypassed(engine);
            &&& found.value is Ok
            &&& found.engine.range == engine.range && found.engine.at == engine.at + 1
            &&& found.value->Ok_0 <==> doubled >= engine.range
            &&& found.engine.offset == (if doubled >= engine.range {
                doubled - engine.range
            } else {
                doubled
            })
        }),
{
}

/// The end has the two uppermost places of the interval.
pub proof fn law_end(engine: Engine)
    requires
        engine.ready(),
        terminated(engine).value is Ok,
    ensures
        terminated(engine).value->Ok_0 <==> engine.offset >= engine.range - 2,
        terminated(engine).value->Ok_0 ==> terminated(engine).engine.range == engine.range - 2,
        !terminated(engine).value->Ok_0 ==> terminated(engine).engine == renormalized(
            Engine { range: engine.range - 2, ..engine },
        ).engine,
{
}

/// In blocks of at most sixteen each position has a probability of its own; in larger ones, whether
/// a level is the last one shares its probability with ever fewer neighbours.
pub proof fn law_position_slots(kind: BlockKind, position: int)
    requires
        0 <= position < 63,
        kind != BlockKind::Luma8x8 ==> position < 15,
    ensures
        kind != BlockKind::Luma8x8 ==> significant_slot(kind, position) == kind.base() + 4 + position
            && last_slot(kind, position) == kind.base() + 19 + position,
        kind == BlockKind::Luma8x8 ==> last_slot(kind, position) == kind.base() + 19 + (
        if position == 0 {
            0
        } else if position < 16 {
            1
        } else if position < 32 {
            2
        } else if position < 40 {
            3
        } else if position < 48 {
            4
        } else if position < 52 {
            5
        } else if position < 56 {
            6
        } else if position < 60 {
            7
        } else {
            8int
        }),
{
    reveal(significant_slot);
    reveal(last_slot);
}

/// Decoding starts with nine bits as the code and an interval of 510, in which the code must lie.
pub proof fn law_registers(bits: Seq<bool>, at: int)
    requires
        0 <= at,
    ensures
        at + 9 <= bits.len() ==> {
            let code = bits_value(bits.subrange(at, at + 9));
            let found = started(bits, at, 0);
            &&& found.value is Ok <==> code < 510
            &&& found.engine.range == 510 && found.engine.offset == code
            &&& found.engine.at == at + 9 && found.engine.bits == bits && found.engine.padding == 0
        },
        at + 9 > bits.len() ==> started(bits, at, 0).value is Err,
{
}

/// Bits are read one after the other; behind the last one, sixteen zeros can be read and no more.
pub proof fn law_next_bit(engine: Engine)
    requires
        0 <= engine.at <= engine.bits.len(),
        0 <= engine.padding,
    ensures
        ({
            let read = coded(engine);
            &&& engine.at < engine.bits.len() ==> read.value is Ok && read.value->Ok_0
                == engine.bits[engine.at] && read.engine.at == engine.at + 1
            &&& engine.at == engine.bits.len() && engine.padding < 16 ==> read.value is Ok
                && !read.value->Ok_0 && read.engine.padding == engine.padding + 1
            &&& engine.at == engine.bits.len() && engine.padding >= 16 ==> read.value is Err
        }),
{
}

} // verus!
