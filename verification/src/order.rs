//! A live order resting in (or crossing) the book.

use vstd::prelude::*;
use crate::commands::TradeCommand;
use crate::event::MatchingEngineEvent;
use crate::message::{risk_event_msg, Message, Payload};
use crate::order_side::OrderSide;

verus! {

/// An order alive inside one book. While it rests, `volume` is the
/// quantity still unfilled and stays strictly positive; the book drops the
/// order the moment it reaches zero.
#[derive(Debug, Clone, Copy)]
pub struct StandingOrder {
    pub limit: u64,
    pub volume: u64,
    pub side: OrderSide,
    pub id: u64,
    pub participant_id: u64,
}

impl PartialEq for StandingOrder {
    /// Orders are the same order exactly when their ids agree.
    fn eq(&self, other: &Self) -> (r: bool) {
        self.id == other.id
    }
}

impl vstd::std_specs::cmp::PartialEqSpecImpl for StandingOrder {
    open spec fn obeys_eq_spec() -> bool {
        true
    }

    open spec fn eq_spec(&self, other: &Self) -> bool {
        self.id == other.id
    }
}

/// How much trades when volumes `maker` and `taker` meet: the smaller of
/// the two.
pub open spec fn spec_traded(maker: u64, taker: u64) -> u64 {
    if maker <= taker {
        maker
    } else {
        taker
    }
}

impl StandingOrder {
    /// An order with the given identity and terms.
    pub fn new(id: u64, participant_id: u64, limit: u64, volume: u64, side: OrderSide) -> (r:
        StandingOrder)
        ensures
            r == (StandingOrder { limit, volume, side, id, participant_id }),
    {
        StandingOrder { limit, volume, side, id, participant_id }
    }

    /// The volume still unfilled.
    pub fn remaining_volume(&self) -> (r: u64)
        ensures
            r == self.volume,
    {
        self.volume
    }

    /// Fill this maker order as far as the taker's remaining volume
    /// allows, publish the maker's fill event, and return how much traded.
    /// `price` is the tick of the bucket this order rests in and prices
    /// the fill.
    pub fn fill(&mut self, taker: &StandingOrder, price: u64, con_tx: &mut Vec<Message>) -> (r:
        u64)
        requires
            spec_traded(old(self).volume, taker.volume) * price <= u64::MAX,
        ensures
            r == spec_traded(old(self).volume, taker.volume),
            *final(self) == (StandingOrder { volume: (old(self).volume - r) as u64, ..*old(self) }),
            final(con_tx)@.len() == old(con_tx)@.len() + 1,
            forall|k: int| 0 <= k < old(con_tx)@.len() ==> final(con_tx)@[k] == old(con_tx)@[k],
            risk_event_msg(
                final(con_tx)@[old(con_tx)@.len() as int],
                MatchingEngineEvent::Filled(old(self).id, r, (r * price) as u64),
            ),
    {
        if self.remaining_volume() <= taker.volume {
            let old_volume = self.remaining_volume();
            // Fill the order completely.
            self.volume = 0;
            self.notify(old_volume, old_volume * price, con_tx);
            // Return what did fit in.
            old_volume
        } else {
            // Fill as much as the taker asks for.
            self.volume = self.volume - taker.volume;
            self.notify(taker.volume, taker.volume * price, con_tx);
            // Everything the taker asked for fit in.
            taker.volume
        }
    }

    /// Whether the order has been completely filled.
    pub fn is_filled(&self) -> (r: bool)
        ensures
            r == (self.volume == 0),
    {
        self.remaining_volume() == 0
    }

    /// Whether an incoming order at `price` would match this resting one.
    pub fn matches_with(&self, price: u64) -> (r: bool)
        ensures
            r == self.spec_matches_with(price),
    {
        match self.side {
            // Ask orders want a higher price.
            OrderSide::ASK => self.limit <= price,
            // Bid orders want a lower price.
            OrderSide::BID => self.limit >= price,
        }
    }

    /// What `matches_with` returns.
    pub open spec fn spec_matches_with(&self, price: u64) -> bool {
        match self.side {
            OrderSide::ASK => self.limit <= price,
            OrderSide::BID => self.limit >= price,
        }
    }

    /// Tell the risk stage that `fill_volume` of this order traded for
    /// `fill_value`. Published whenever the order's state changes.
    pub fn notify(&self, fill_volume: u64, fill_value: u64, con_tx: &mut Vec<Message>)
        ensures
            final(con_tx)@.len() == old(con_tx)@.len() + 1,
            forall|k: int| 0 <= k < old(con_tx)@.len() ==> final(con_tx)@[k] == old(con_tx)@[k],
            risk_event_msg(
                final(con_tx)@[old(con_tx)@.len() as int],
                MatchingEngineEvent::Filled(self.id, fill_volume, fill_value),
            ),
    {
        let event = MatchingEngineEvent::Filled(self.id, fill_volume, fill_value);
        con_tx.push(Message::new("risk".to_string(), Payload::MatchingPayload(event)));
    }
}

impl From<TradeCommand> for StandingOrder {
    /// The live order a trade command asks the book to admit.
    fn from(value: TradeCommand) -> (r: StandingOrder) {
        StandingOrder::new(value.id, value.participant_id, value.limit, value.volume, value.side)
    }
}

impl vstd::std_specs::convert::FromSpecImpl<TradeCommand> for StandingOrder {
    open spec fn obeys_from_spec() -> bool {
        true
    }

    open spec fn from_spec(t: TradeCommand) -> StandingOrder {
        StandingOrder {
            limit: t.limit,
            volume: t.volume,
            side: t.side,
            id: t.id,
            participant_id: t.participant_id,
        }
    }
}

} // verus!
