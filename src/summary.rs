//! The merged top view handed to subscribers.
use vstd::prelude::*;

use crate::level::OutLevel;
use crate::number::FinitePositiveF64;

verus! {

/// The spread of a summary: zero when a side is empty, else the price of the best ask
/// less the price of the best bid.
#[derive(Clone, Copy, Debug, PartialEq, Eq, Structural)]
pub enum Spread {
    Zero,
    Difference { ask: FinitePositiveF64, bid: FinitePositiveF64 },
}

/// The spread of a view with these asks and bids, each best first.
pub open spec fn spread_of(asks: Seq<OutLevel>, bids: Seq<OutLevel>) -> Spread {
    if asks.len() > 0 && bids.len() > 0 {
        Spread::Difference { ask: asks[0].price, bid: bids[0].price }
    } else {
        Spread::Zero
    }
}

/// The merged top view: asks and bids best first, and their spread.
#[derive(Clone, Debug, PartialEq)]
pub struct Summary {
    pub spread: Spread,
    pub asks: Vec<OutLevel>,
    pub bids: Vec<OutLevel>,
}

/// The spread of a view with these asks and bids, each best first.
pub fn spread(asks: &Vec<OutLevel>, bids: &Vec<OutLevel>) -> (r: Spread)
    ensures
        r == spread_of(asks@, bids@),
{
    if asks.len() > 0 && bids.len() > 0 {
        Spread::Difference { ask: asks[0].price, bid: bids[0].price }
    } else {
        Spread::Zero
    }
}

} // verus!
