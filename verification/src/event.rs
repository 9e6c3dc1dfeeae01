//! Events leaving the matching engine.

use vstd::prelude::*;

verus! {

/// Event published by a matcher and consumed by the risk engines.
#[derive(Clone, Copy, Debug, PartialEq, Eq, Structural)]
pub enum MatchingEngineEvent {
    /// `(order_id, filled_volume, filled_value)`: how much volume was
    /// filled and how much value was paid for it.
    Filled(u64, u64, u64),
    /// `(order_id)`: the order left the book without being fully filled.
    Canceled(u64),
}

/// Event destined for the persistence collaborator.
#[derive(Clone, Copy, Debug, PartialEq, Eq, Structural)]
pub enum DbEvent {
    Trade(Trade),
}

/// A completed exchange of volume against value between two participants.
/// If `volume` is positive the taker receives volume and pays value; if it
/// is negative the taker delivers that volume and receives that value.
#[derive(Clone, Copy, Debug, PartialEq, Eq, Structural)]
pub struct Trade {
    pub symbol: usize,
    pub volume: i64,
    pub value: i64,
    pub taker_participant: usize,
    pub maker_participant: usize,
}

} // verus!
