//! The snapshot of an admitted order kept by the risk engine.

use vstd::prelude::*;
use crate::commands::TradeCommand;
use crate::order_side::OrderSide;

verus! {

/// What the risk engine remembers about an admitted order: enough to
/// recompute the pessimistic reservation for the volume still open.
#[derive(Clone, Copy, Debug, PartialEq, Eq, Structural)]
pub struct RiskOrder {
    pub limit: u64,
    pub volume: u64,
    pub side: OrderSide,
    pub id: u64,
}

impl RiskOrder {
    /// Record an order by its risk-relevant fields.
    pub fn new(id: u64, limit: u64, volume: u64, side: OrderSide) -> (r: RiskOrder)
        ensures
            r == (RiskOrder { limit, volume, side, id }),
    {
        RiskOrder { limit, volume, side, id }
    }
}

impl From<TradeCommand> for RiskOrder {
    /// The snapshot taken of a trade command on admission.
    fn from(value: TradeCommand) -> (r: RiskOrder) {
        RiskOrder::new(value.id, value.limit, value.volume, value.side)
    }
}

impl vstd::std_specs::convert::FromSpecImpl<TradeCommand> for RiskOrder {
    open spec fn obeys_from_spec() -> bool {
        true
    }

    open spec fn from_spec(t: TradeCommand) -> RiskOrder {
        RiskOrder { limit: t.limit, volume: t.volume, side: t.side, id: t.id }
    }
}

} // verus!
