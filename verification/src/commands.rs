//! Commands entering the pipeline and the pessimistic-reservation formula.

use vstd::prelude::*;
use crate::asset::{AssetId, Symbol};
use crate::order_side::OrderSide;

verus! {

/// A command whose sender can be identified.
pub trait Command {
    fn sender(&self) -> &str;
}

/// Top-level command routed through risk into a matcher.
#[derive(Copy, Clone, Debug, PartialEq, Eq, Structural)]
pub enum OrderCommand {
    Trade(TradeCommand),
    Cancel(CancelCommand),
}

/// Request to admit a limit order.
#[derive(Copy, Clone, Debug, PartialEq, Eq, Structural)]
pub struct TradeCommand {
    pub id: u64,
    pub participant_id: u64,
    pub symbol: u64,
    pub side: OrderSide,
    pub volume: u64,
    pub limit: u64,
    pub immediate_or_cancel: bool,
}

/// Request to cancel a resting order.
#[derive(Copy, Clone, Debug, PartialEq, Eq, Structural)]
pub struct CancelCommand {
    pub symbol: u64,
    pub order_id: u64,
    pub participant_id: u64,
}

/// The worst-case debit a limit order can cause: which asset is reserved
/// and by how much. A bid may spend up to `volume * limit` of the base
/// asset; an ask delivers up to `volume` of the quote asset.
pub open spec fn spec_pessimistic(side: OrderSide, limit: u64, symbol: Symbol, volume: u64) -> (
    AssetId,
    u64,
) {
    match side {
        OrderSide::BID => (symbol.base_asset, (volume * limit) as u64),
        OrderSide::ASK => (symbol.quote_asset, volume),
    }
}

impl TradeCommand {
    /// Highest amount of value that could be spent: `(asset_id, value)`.
    pub fn pessimistic(&self, symbol: &Symbol) -> (r: (AssetId, u64))
        requires
            self.side == OrderSide::BID ==> self.volume * self.limit <= u64::MAX,
        ensures
            r == spec_pessimistic(self.side, self.limit, *symbol, self.volume),
    {
        match self.side {
            OrderSide::BID => (symbol.base_asset, self.volume * self.limit),
            OrderSide::ASK => (symbol.quote_asset, self.volume),
        }
    }

    /// Same formula as `pessimistic`, applied to a recorded order's
    /// side and limit over a given (for instance partially filled) volume.
    pub fn historic_pessimistic(side: OrderSide, limit: u64, symbol: &Symbol, volume: u64) -> (r: (
        AssetId,
        u64,
    ))
        requires
            side == OrderSide::BID ==> volume * limit <= u64::MAX,
        ensures
            r == spec_pessimistic(side, limit, *symbol, volume),
    {
        match side {
            OrderSide::BID => (symbol.base_asset, volume * limit),
            OrderSide::ASK => (symbol.quote_asset, volume),
        }
    }
}

} // verus!
