//! Where the probabilities of the arithmetic encoder start.

use vstd::prelude::*;

use crate::arithmetic::{
    coded_bins, contexts_valid, flushed, whole_interval, Bin, BinCoder, CabacEncoder, Coding,
};
use crate::bins::{inner_bins, SLOT_COUNT};
use crate::cabac::{initial_contexts, initial_state, ContextState};
use crate::quantize::quantizer;

verus! {

/// The pairs of numbers from which the probabilities start, one pair for each slot of the symbols.
#[derive(Debug)]
pub struct ContextTables {
    /// For pictures that stand alone.
    pub intra: Vec<(i8, i8)>,
    /// For pictures that are predicted from earlier ones.
    pub predicted: Vec<(i8, i8)>,
    /// For pictures that are predicted from both sides.
    pub between: Vec<(i8, i8)>,
}

/// The pairs of numbers from which the probabilities start.
#[verifier::ext_equal]
pub struct Tables {
    /// For pictures that stand alone.
    pub intra: Seq<(i8, i8)>,
    /// For pictures that are predicted from earlier ones.
    pub predicted: Seq<(i8, i8)>,
    /// For pictures that are predicted from both sides.
    pub between: Seq<(i8, i8)>,
}

impl View for ContextTables {
    type V = Tables;

    open spec fn view(&self) -> Tables {
        Tables { intra: self.intra@, predicted: self.predicted@, between: self.between@ }
    }
}

impl Tables {
    /// Whether there is a pair for each slot.
    pub open spec fn valid(self) -> bool {
        &&& self.intra.len() == SLOT_COUNT
        &&& self.predicted.len() == SLOT_COUNT
        &&& self.between.len() == SLOT_COUNT
    }
}

/// Where the probabilities start for a quantizer.
pub open spec fn initial_states(table: Seq<(i8, i8)>, qp: int) -> Seq<ContextState> {
    Seq::new(table.len(), |i: int| initial_state(table[i].0 as int, table[i].1 as int, qp))
}

/// The bytes of the symbols of a picture, which end the data.
#[verifier::opaque]
pub open spec fn picture_bytes(table: Seq<(i8, i8)>, qp: int, bins: Seq<Bin>) -> Seq<u8> {
    let all = bins.push(Bin::Terminate(true));
    flushed(
        coded_bins(
            Coding { interval: whole_interval(), contexts: initial_states(table, qp) },
            all,
            all.len() as int,
        ).interval,
    )
}

/// Makes the probabilities for a quantizer.
pub fn start_contexts(table: &[(i8, i8)], qp: i32) -> (contexts: Vec<ContextState>)
    requires
        table@.len() > 0,
        quantizer(qp as int),
    ensures
        contexts@ == initial_states(table@, qp as int),
        contexts_valid(contexts@),
{
    match initial_contexts(table, qp) {
        Ok(contexts) => {
            proof {
                assert(contexts@ =~= initial_states(table@, qp as int));
                assert forall|i: int| 0 <= i < contexts@.len() implies (
                #[trigger] contexts@[i]).valid() by {}
            }
            contexts
        },
        Err(_) => Vec::new(),
    }
}

/// Encodes the symbols of a picture.
pub fn encode_picture_bins(table: &[(i8, i8)], qp: i32, bins: Vec<Bin>) -> (bytes: Vec<u8>)
    requires
        table@.len() == SLOT_COUNT,
        quantizer(qp as int),
        inner_bins(bins@),
    ensures
        bytes@ == picture_bytes(table@, qp as int, bins@),
{
    reveal(picture_bytes);
    let contexts: Vec<ContextState> = start_contexts(table, qp);
    let mut coder = BinCoder { encoder: CabacEncoder::new(), contexts };
    let mut all: Vec<Bin> = bins;
    all.push(Bin::Terminate(true));
    proof {
        assert forall|i: int| 0 <= i < all@.len() implies crate::arithmetic::bin_fits(
            #[trigger] all@[i],
            SLOT_COUNT as int,
        ) by {
            if i < bins@.len() {
                assert(crate::bins::inner_bin(bins@[i]));
            }
        }
        assert forall|i: int| 0 <= i < all@.len() - 1 implies #[trigger] all@[i]
            != Bin::Terminate(true) by {
            assert(crate::bins::inner_bin(bins@[i]));
        }
    }
    coder.encode_bins(all.as_slice());
    coder.encoder.finish()
}

} // verus!
