//! One price level of the book: the FIFO queue of orders resting there.

use vstd::prelude::*;
use crate::order::StandingOrder;

verus! {

/// The queue of resting orders that all share one limit price, in arrival
/// order: the head is the oldest order and fills first.
pub struct OrderBucket {
    pub price: u64,
    pub queue: Vec<StandingOrder>,
}

impl PartialEq for OrderBucket {
    /// Buckets compare by the price level they stand for.
    fn eq(&self, other: &Self) -> (r: bool) {
        self.price == other.price
    }
}

impl vstd::std_specs::cmp::PartialEqSpecImpl for OrderBucket {
    open spec fn obeys_eq_spec() -> bool {
        true
    }

    open spec fn eq_spec(&self, other: &Self) -> bool {
        self.price == other.price
    }
}

impl PartialOrd for OrderBucket {
    /// Buckets order by price level.
    fn partial_cmp(&self, other: &Self) -> (r: Option<core::cmp::Ordering>) {
        if self.price < other.price {
            Some(core::cmp::Ordering::Less)
        } else if self.price == other.price {
            Some(core::cmp::Ordering::Equal)
        } else {
            Some(core::cmp::Ordering::Greater)
        }
    }
}

impl vstd::std_specs::cmp::PartialOrdSpecImpl for OrderBucket {
    open spec fn obeys_partial_cmp_spec() -> bool {
        true
    }

    open spec fn partial_cmp_spec(&self, other: &Self) -> Option<core::cmp::Ordering> {
        if self.price < other.price {
            Some(core::cmp::Ordering::Less)
        } else if self.price == other.price {
            Some(core::cmp::Ordering::Equal)
        } else {
            Some(core::cmp::Ordering::Greater)
        }
    }
}

impl OrderBucket {
    /// An empty bucket standing for price level `price`.
    pub fn new(price: u64) -> (r: OrderBucket)
        ensures
            r.price == price,
            r.queue@ == Seq::<StandingOrder>::empty(),
    {
        OrderBucket { price, queue: Vec::new() }
    }

    /// Append an order at the tail of the queue. Only orders whose limit
    /// is this bucket's price belong here.
    pub(crate) fn push_back(&mut self, order: StandingOrder)
        requires
            order.limit == old(self).price,
        ensures
            final(self).price == old(self).price,
            final(self).queue@ == old(self).queue@.push(order),
    {
        self.queue.push(order);
    }

    /// Drop the head of the queue; on an empty bucket this does nothing.
    pub(crate) fn pop_front(&mut self)
        ensures
            final(self).price == old(self).price,
            old(self).queue@.len() == 0 ==> final(self).queue@ == old(self).queue@,
            old(self).queue@.len() > 0 ==> final(self).queue@ == old(self).queue@.subrange(
                1,
                old(self).queue@.len() as int,
            ),
    {
        if self.queue.len() > 0 {
            self.queue.remove(0);
        }
    }

    /// Replace the head of the queue, after a partial fill shrank it.
    pub(crate) fn set_head(&mut self, order: StandingOrder)
        requires
            old(self).queue@.len() > 0,
        ensures
            final(self).price == old(self).price,
            final(self).queue@ == old(self).queue@.update(0, order),
    {
        self.queue[0] = order;
    }

    /// Whether no order rests at this price.
    pub fn is_empty(&self) -> (r: bool)
        ensures
            r == (self.queue@.len() == 0),
    {
        self.queue.len() == 0
    }

    /// Let an order join this price level at the back of the queue.
    pub fn insert_order(&mut self, order: StandingOrder)
        requires
            order.limit == old(self).price,
        ensures
            final(self).price == old(self).price,
            final(self).queue@ == old(self).queue@.push(order),
    {
        self.push_back(order);
    }
}

} // verus!
