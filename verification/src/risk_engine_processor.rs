//! Drives one risk engine shard across its two input streams.
//!
//! The pre-stream carries order commands routed to this shard; the
//! post-stream carries matching events coming back from the matchers.
//! The processor validates each command and decides whether it may
//! travel on to its matcher; the queues and threads that carry it
//! there live outside the core.

use vstd::prelude::*;
use crate::commands::OrderCommand;
use crate::event::MatchingEngineEvent;
use crate::exchange_settings::ExchangeSettings;
use crate::order_book::{MAX_ORDER_VOLUME, MAX_PRICE};
use crate::participant::Participant;
use crate::risk_engine::{
    canceled_event_ok, fill_event_ok, spec_process_canceled, spec_process_command,
    spec_process_fill, RiskEngine, RiskEngineResult,
};

verus! {

/// Owns one risk engine shard.
pub struct RiskEngineProcessor {
    pub risk_engine: RiskEngine,
}

impl RiskEngineProcessor {
    /// The shard's engine is well formed.
    pub open spec fn wf(&self) -> bool {
        self.risk_engine.wf()
    }

    /// A shard over a fresh engine with no participants.
    pub fn new(settings: ExchangeSettings) -> (r: RiskEngineProcessor)
        ensures
            r.wf(),
            r.risk_engine.model().participants == Map::<u64, Map<usize, u64>>::empty(),
            r.risk_engine.model().orders == Map::<u64, (u64, u64, crate::risk_order::RiskOrder)>::empty(),
            r.risk_engine.settings == settings,
            r.risk_engine.model().symbols == settings.symbols@,
    {
        let risk_engine = RiskEngine::new(settings);
        RiskEngineProcessor { risk_engine }
    }

    /// Register a participant with this shard.
    pub fn add_participant(&mut self, part: Participant)
        requires
            old(self).wf(),
        ensures
            final(self).wf(),
            final(self).risk_engine.model() == (crate::risk_engine::RiskModel {
                participants: old(self).risk_engine.model().participants.insert(
                    part.id,
                    part.assets@,
                ),
                ..old(self).risk_engine.model()
            }),
    {
        self.risk_engine.add_participant(part);
    }

    /// Validate one command from the pre-stream. A command the engine
    /// accepts is returned so the caller can forward it to the matcher
    /// of its symbol; a rejected command is dropped here, as this
    /// design has no client-visible reject channel.
    pub fn run_pre(&mut self, order_command: OrderCommand) -> (forward: Option<OrderCommand>)
        requires
            old(self).wf(),
            match order_command {
                OrderCommand::Trade(t) => t.limit < MAX_PRICE && 0 < t.volume
                    <= MAX_ORDER_VOLUME,
                OrderCommand::Cancel(c) => true,
            },
        ensures
            final(self).wf(),
            final(self).risk_engine.model() == spec_process_command(
                old(self).risk_engine.model(),
                order_command,
            ).0,
            forward == if spec_process_command(old(self).risk_engine.model(), order_command).1
                == RiskEngineResult::ValidForMatchingEngine {
                Some(order_command)
            } else {
                Option::<OrderCommand>::None
            },
    {
        let result = self.risk_engine.process_command(order_command);
        match result {
            RiskEngineResult::ValidForMatchingEngine => Some(order_command),
            _ => None,
        }
    }

    /// Reconcile one event from the post-stream against the engine's
    /// reservations. The event must refer to an admitted order; an
    /// unknown order here is a broken invariant upstream.
    pub fn run_post(&mut self, event: MatchingEngineEvent)
        requires
            old(self).wf(),
            match event {
                MatchingEngineEvent::Filled(id, volume, value) => fill_event_ok(
                    old(self).risk_engine.model(),
                    id,
                    volume,
                    value,
                ),
                MatchingEngineEvent::Canceled(id) => canceled_event_ok(
                    old(self).risk_engine.model(),
                    id,
                ),
            },
        ensures
            final(self).wf(),
            final(self).risk_engine.model() == match event {
                MatchingEngineEvent::Filled(id, volume, value) => spec_process_fill(
                    old(self).risk_engine.model(),
                    id,
                    volume,
                    value,
                ),
                MatchingEngineEvent::Canceled(id) => spec_process_canceled(
                    old(self).risk_engine.model(),
                    id,
                ),
            },
    {
        self.risk_engine.process_matcher_event(event);
    }

    /// The matcher shard a command travels to when it passes risk:
    /// matchers are sharded by symbol.
    pub fn send_to_matching_engine(command: &OrderCommand) -> (r: u64)
        ensures
            r == match *command {
                OrderCommand::Trade(t) => t.symbol,
                OrderCommand::Cancel(c) => c.symbol,
            },
    {
        match command {
            OrderCommand::Trade(t) => t.symbol,
            OrderCommand::Cancel(c) => c.symbol,
        }
    }
}

} // verus!
