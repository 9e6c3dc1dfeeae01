//! An order that tracks its own fill state and reports events for it.
//!
//! Unlike the book's resting orders, which carry only their remaining
//! volume, this record remembers how much of it has filled and for
//! what value, and can report that state as an event.

use vstd::prelude::*;
use rand::Rng;
use crate::order_side::OrderSide;
use crate::primitives::{Price, Value, Volume};

verus! {

/// What an order reports when its state changes: how much of it is
/// filled and for what value, or that it left the book early.
#[derive(Debug, Clone, Copy, PartialEq, Eq, Structural)]
pub enum OrderEvent {
    /// `(order_id, filled_volume, filled_value)`.
    Filled(u64, Volume, Value),
    /// `(order_id)`.
    Canceled(u64),
}

/// A client order with its running fill state.
#[derive(Debug, Clone, Copy)]
pub struct Order {
    pub limit: Price,
    pub volume: Volume,
    pub side: OrderSide,
    pub id: u64,
    pub filled_volume: Volume,
    pub filled_value: Value,
}

impl PartialEq for Order {
    /// Orders are the same order exactly when their ids agree.
    fn eq(&self, other: &Self) -> (r: bool) {
        self.id == other.id
    }
}

impl vstd::std_specs::cmp::PartialEqSpecImpl for Order {
    open spec fn obeys_eq_spec() -> bool {
        true
    }

    open spec fn eq_spec(&self, other: &Self) -> bool {
        self.id == other.id
    }
}

/// Relies on rand's thread-local generator: an arbitrary `u64` to
/// serve as a fresh order id. Nothing is promised of the value.
#[verifier::external_body]
fn random_order_id() -> u64 {
    rand::thread_rng().gen()
}

impl Order {
    /// The fill state never runs ahead of the order.
    pub open spec fn wf(&self) -> bool {
        self.filled_volume.0 <= self.volume.0
    }

    /// A fresh, unfilled order under a randomly drawn id.
    pub fn new(limit: Price, volume: Volume, side: OrderSide) -> (r: Order)
        ensures
            r.wf(),
            r.limit == limit,
            r.volume == volume,
            r.side == side,
            r.filled_volume == (Volume(0)),
            r.filled_value == (Value(0)),
    {
        Order {
            limit,
            volume,
            side,
            id: random_order_id(),
            filled_volume: Volume(0),
            filled_value: Value(0),
        }
    }

    /// The volume still unfilled.
    pub fn remaining_volume(&self) -> (r: Volume)
        requires
            self.wf(),
        ensures
            r.0 == self.volume.0 - self.filled_volume.0,
    {
        Volume(self.volume.get() - self.filled_volume.get())
    }

    /// Fill the order as far as `volume` allows at `price` and return
    /// how much fit in.
    pub fn fill(&mut self, volume: Volume, price: Price) -> (r: Volume)
        requires
            old(self).wf(),
            (old(self).volume.0 - old(self).filled_volume.0) * price.0 + old(self).filled_value.0
                <= u64::MAX,
            volume.0 * price.0 <= u64::MAX,
        ensures
            final(self).wf(),
            ({
                let remaining = old(self).volume.0 - old(self).filled_volume.0;
                let traded: int = if remaining <= volume.0 {
                    remaining
                } else {
                    volume.0 as int
                };
                &&& r.0 == traded
                &&& final(self).filled_volume.0 == old(self).filled_volume.0 + traded
                &&& final(self).filled_value.0 == old(self).filled_value.0 + traded * price.0
                &&& final(self).limit == old(self).limit
                &&& final(self).volume == old(self).volume
                &&& final(self).side == old(self).side
                &&& final(self).id == old(self).id
            }),
    {
        let remaining = self.remaining_volume();
        if remaining.get() <= volume.get() {
            // Fill the order completely.
            self.filled_volume = self.volume;
            self.filled_value = Value(self.filled_value.get() + remaining.get() * price.get());
            remaining
        } else {
            // Fill as much as was offered.
            proof {
                let rem: int = old(self).volume.0 - old(self).filled_volume.0;
                assert(volume.0 * price.0 <= rem * price.0) by (nonlinear_arith)
                    requires
                        volume.0 <= rem,
                        0 <= price.0,
                ;
            }
            self.filled_volume = Volume(self.filled_volume.get() + volume.get());
            self.filled_value = Value(self.filled_value.get() + volume.get() * price.get());
            volume
        }
    }

    /// Whether the order has been completely filled.
    pub fn is_filled(&self) -> (r: bool)
        requires
            self.wf(),
        ensures
            r == (self.filled_volume.0 == self.volume.0),
    {
        self.remaining_volume().get() == 0
    }

    /// Whether an incoming order at `price` would match this one.
    pub fn matches_with(&self, price: &Price) -> (r: bool)
        ensures
            r == match self.side {
                OrderSide::ASK => self.limit.0 <= price.0,
                OrderSide::BID => self.limit.0 >= price.0,
            },
    {
        match self.side {
            // Ask orders want a higher price.
            OrderSide::ASK => self.limit.get() <= price.get(),
            // Bid orders want a lower price.
            OrderSide::BID => self.limit.get() >= price.get(),
        }
    }

    /// Report the order's fill state. Produced whenever it changes.
    pub fn notify(&self) -> (r: OrderEvent)
        ensures
            r == OrderEvent::Filled(self.id, self.filled_volume, self.filled_value),
    {
        OrderEvent::Filled(self.id, self.filled_volume, self.filled_value)
    }

    /// Report that the order left the book before filling completely.
    pub fn cancel(&self) -> (r: OrderEvent)
        requires
            self.wf(),
            self.filled_volume.0 < self.volume.0,
        ensures
            r == OrderEvent::Canceled(self.id),
    {
        OrderEvent::Canceled(self.id)
    }
}

} // verus!
