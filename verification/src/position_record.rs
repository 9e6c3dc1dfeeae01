//! Per-symbol position bookkeeping for derivative instruments.

use vstd::prelude::*;
use crate::order_side::OrderSide;

verus! {

/// A participant's open position in one symbol together with the volume
/// still pending on each side of the book.
pub struct PositionRecord {
    pub symbol: usize,
    pub direction: PositionDirection,
    pub volume: u64,
    /// Currency paid to open the position.
    pub paid_value: u64,
    pub profit: u64,
    pub pending_buy_volume: u64,
    pub pending_sell_volume: u64,
}

/// Whether the position gains when the price rises or falls.
pub enum PositionDirection {
    Long,
    Short,
}

impl PositionRecord {
    /// Note `volume` as pending on `side` of the book.
    pub fn pending_hold(&mut self, side: OrderSide, volume: u64)
        requires
            side == OrderSide::ASK ==> old(self).pending_sell_volume + volume <= u64::MAX,
            side == OrderSide::BID ==> old(self).pending_buy_volume + volume <= u64::MAX,
        ensures
            side == OrderSide::ASK ==> *final(self) == (PositionRecord {
                pending_sell_volume: (old(self).pending_sell_volume + volume) as u64,
                ..*old(self)
            }),
            side == OrderSide::BID ==> *final(self) == (PositionRecord {
                pending_buy_volume: (old(self).pending_buy_volume + volume) as u64,
                ..*old(self)
            }),
    {
        if side == OrderSide::ASK {
            self.pending_sell_volume = self.pending_sell_volume + volume;
        } else {
            self.pending_buy_volume = self.pending_buy_volume + volume;
        }
    }

    /// Release `volume` previously noted as pending on `side`.
    pub fn pending_release(&mut self, side: OrderSide, volume: u64)
        requires
            side == OrderSide::ASK ==> old(self).pending_sell_volume >= volume,
            side == OrderSide::BID ==> old(self).pending_buy_volume >= volume,
        ensures
            side == OrderSide::ASK ==> *final(self) == (PositionRecord {
                pending_sell_volume: (old(self).pending_sell_volume - volume) as u64,
                ..*old(self)
            }),
            side == OrderSide::BID ==> *final(self) == (PositionRecord {
                pending_buy_volume: (old(self).pending_buy_volume - volume) as u64,
                ..*old(self)
            }),
    {
        if side == OrderSide::ASK {
            self.pending_sell_volume = self.pending_sell_volume - volume;
        } else {
            self.pending_buy_volume = self.pending_buy_volume - volume;
        }
    }
}

} // verus!
