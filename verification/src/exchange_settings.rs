//! Static configuration of one exchange instance.

use vstd::prelude::*;
use crate::asset::Symbol;

verus! {

/// Configuration supplied at startup: the tradable symbols, how many risk
/// shards to run, and two purely informational pacing intervals (in
/// microseconds) used by the optional persistence collaborator.
#[derive(PartialEq, Eq, Default, Clone)]
pub struct ExchangeSettings {
    pub symbols: Vec<Symbol>,
    pub risk_engine_shards: u64,
    pub db_sync_speed_micros: u64,
    pub db_min_recv_timeout_micros: u64,
}

} // verus!
