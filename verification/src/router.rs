//! Deterministic participant-to-shard routing.

use vstd::prelude::*;
use crate::exchange_settings::ExchangeSettings;

verus! {

/// The risk shard that serves a participant. Pure in its arguments, so a
/// participant's commands always reach the same shard for a fixed shard
/// count, which serializes all mutations of that participant's balances.
pub fn risk_router(settings: &ExchangeSettings, participant_id: &u64) -> (r: usize)
    requires
        settings.risk_engine_shards > 0,
    ensures
        r == (participant_id % settings.risk_engine_shards) as usize,
        settings.risk_engine_shards <= usize::MAX ==> r < settings.risk_engine_shards,
{
    (participant_id % settings.risk_engine_shards) as usize
}

} // verus!
