//! The two sides of the book: sellers (asks) and buyers (bids).

use vstd::prelude::*;

verus! {

/// Side of an order. Asks offer to sell at or above their limit,
/// bids offer to buy at or below their limit.
#[derive(Debug, PartialEq, Eq, Clone, Copy, Structural)]
pub enum OrderSide {
    ASK,
    BID,
}

impl OrderSide {
    /// The opposite side: the side an incoming order trades against.
    pub fn neg(self) -> (r: OrderSide)
        ensures
            r == self.spec_neg(),
    {
        match self {
            OrderSide::ASK => OrderSide::BID,
            OrderSide::BID => OrderSide::ASK,
        }
    }

    /// What `neg` returns.
    pub open spec fn spec_neg(self) -> OrderSide {
        match self {
            OrderSide::ASK => OrderSide::BID,
            OrderSide::BID => OrderSide::ASK,
        }
    }
}

} // verus!
