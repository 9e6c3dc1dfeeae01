//! The risk engine: pessimistic reservation before matching and
//! reconciliation of real fills and cancels afterwards.
//!
//! On admission the worst-case cost of an order is deducted from its
//! owner's balance and a snapshot of the order is recorded. Every fill
//! credits what the trade actually earned and refunds the difference
//! between the reservation and what was actually spent; a cancel
//! refunds the whole remaining reservation. Every path is a pairwise
//! transfer, so no value appears or disappears.

use vstd::prelude::*;
use std::collections::HashMap;
use crate::asset::{AssetId, Symbol, SymbolType};
use crate::commands::{spec_pessimistic, CancelCommand, OrderCommand, TradeCommand};
use crate::event::MatchingEngineEvent;
use crate::exchange_settings::ExchangeSettings;
use crate::order_book::{MAX_ORDER_VOLUME, MAX_PRICE};
use crate::order_side::OrderSide;
use crate::participant::Participant;
use crate::risk_order::RiskOrder;

verus! {

/// What the risk engine answers for a command.
#[derive(Debug, Clone, Copy, PartialEq, Eq, Structural)]
pub enum RiskEngineResult {
    ValidForMatchingEngine,
    InsufficientFunds,
    SymbolNotFound,
    UserNotFound,
    OrderNotFound,
    UnsupportedSymbolKind,
}

/// The engine as the contracts see it: balances per participant, the
/// recorded order snapshots, and the configured symbols.
#[verifier::ext_equal]
pub ghost struct RiskModel {
    /// For each participant id, the balance held per asset.
    pub participants: Map<u64, Map<AssetId, u64>>,
    /// For each admitted order id: owner, symbol, and the snapshot that
    /// still carries the unfilled volume.
    pub orders: Map<u64, (u64, u64, RiskOrder)>,
    /// The tradable symbols, indexed by symbol id.
    pub symbols: Seq<Symbol>,
}

/// The balances of each participant, forgetting everything else.
pub open spec fn assets_model(ps: Map<u64, Participant>) -> Map<u64, Map<AssetId, u64>> {
    ps.map_values(|p: Participant| p.assets@)
}

/// `assets_model` keeps the same participants and shows each one's
/// balances.
proof fn lemma_assets_model_at(ps: Map<u64, Participant>, pid: u64)
    ensures
        assets_model(ps).contains_key(pid) == ps.contains_key(pid),
        ps.contains_key(pid) ==> assets_model(ps)[pid] == ps[pid].assets@,
{
}

/// Every recorded order is one the engine could have admitted: its
/// owner exists, its symbol is configured, its remaining volume is
/// positive and bounded and its limit is on the ladder.
pub open spec fn wf_risk(m: RiskModel) -> bool {
    forall|id: u64| #[trigger]
        m.orders.contains_key(id) ==> {
            let (pid, sym_id, ord) = m.orders[id];
            &&& m.participants.contains_key(pid)
            &&& sym_id < m.symbols.len()
            &&& 0 < ord.volume <= MAX_ORDER_VOLUME
            &&& ord.limit < MAX_PRICE
        }
}

/// What a trade command does to the engine, and what it answers: reject
/// unknown symbols, non-spot symbols and unknown participants; then
/// reserve the pessimistic cost if the balance covers it and record
/// the order, or reject for insufficient funds.
pub open spec fn spec_process_trade(m: RiskModel, t: TradeCommand) -> (RiskModel,
    RiskEngineResult) {
    if t.symbol >= m.symbols.len() {
        (m, RiskEngineResult::SymbolNotFound)
    } else {
        let sym = m.symbols[t.symbol as int];
        if sym.symbol_type != SymbolType::ExchangePair {
            (m, RiskEngineResult::UnsupportedSymbolKind)
        } else if !m.participants.contains_key(t.participant_id) {
            (m, RiskEngineResult::UserNotFound)
        } else {
            let (pa, pv) = spec_pessimistic(t.side, t.limit, sym, t.volume);
            let assets = m.participants[t.participant_id];
            if assets.contains_key(pa) && assets[pa] >= pv {
                let m2 = RiskModel {
                    participants: m.participants.insert(
                        t.participant_id,
                        assets.insert(pa, (assets[pa] - pv) as u64),
                    ),
                    orders: m.orders.insert(
                        t.id,
                        (
                            t.participant_id,
                            t.symbol,
                            RiskOrder { limit: t.limit, volume: t.volume, side: t.side, id: t.id },
                        ),
                    ),
                    ..m
                };
                (m2, RiskEngineResult::ValidForMatchingEngine)
            } else {
                (m, RiskEngineResult::InsufficientFunds)
            }
        }
    }
}

/// What a cancel command does to the engine: nothing. It passes
/// through once its symbol and participant resolve; restitution only
/// happens on the post-trade cancel event.
pub open spec fn spec_process_cancel(m: RiskModel, c: CancelCommand) -> (RiskModel,
    RiskEngineResult) {
    if c.symbol >= m.symbols.len() {
        (m, RiskEngineResult::SymbolNotFound)
    } else {
        let sym = m.symbols[c.symbol as int];
        if sym.symbol_type != SymbolType::ExchangePair {
            (m, RiskEngineResult::UnsupportedSymbolKind)
        } else if !m.participants.contains_key(c.participant_id) {
            (m, RiskEngineResult::UserNotFound)
        } else {
            (m, RiskEngineResult::ValidForMatchingEngine)
        }
    }
}

/// What any command does to the engine, and what it answers.
pub open spec fn spec_process_command(m: RiskModel, command: OrderCommand) -> (RiskModel,
    RiskEngineResult) {
    match command {
        OrderCommand::Trade(t) => spec_process_trade(m, t),
        OrderCommand::Cancel(c) => spec_process_cancel(m, c),
    }
}

/// The rising leg of a fill: which asset the owner receives and how
/// much, and how much of the reservation was actually spent.
pub open spec fn spec_rising(side: OrderSide, sym: Symbol, volume: u64, value: u64) -> (
    AssetId,
    u64,
    u64,
) {
    match side {
        OrderSide::BID => (sym.quote_asset, volume, value),
        OrderSide::ASK => (sym.base_asset, value, volume),
    }
}

/// A fill event the engine can reconcile without dying: the order and
/// its owner are known, the touched balances exist, the fill does not
/// exceed the remaining volume, a bid never pays more than it
/// reserved, and no credit overflows. Anything else is a broken
/// invariant upstream and the process is expected to abort.
pub open spec fn fill_event_ok(m: RiskModel, id: u64, volume: u64, value: u64) -> bool {
    &&& m.orders.contains_key(id)
    &&& ({
        let (pid, sym_id, ord) = m.orders[id];
        let sym = m.symbols[sym_id as int];
        let (pa, pv) = spec_pessimistic(ord.side, ord.limit, sym, volume);
        let (ra, rv, fall) = spec_rising(ord.side, sym, volume, value);
        &&& 0 < volume <= ord.volume
        &&& m.participants.contains_key(pid)
        &&& sym_id < m.symbols.len()
        &&& ({
            let assets = m.participants[pid];
            &&& assets.contains_key(ra)
            &&& assets[ra] + rv <= u64::MAX
            &&& (pa == ra || assets.contains_key(pa))
            &&& (ord.side == OrderSide::BID ==> value <= volume * ord.limit)
            &&& ({
                let a1 = assets.insert(ra, (assets[ra] + rv) as u64);
                a1[pa] + pv - fall <= u64::MAX
            })
        })
    })
}

/// What reconciling a fill does to the engine: credit the rising leg,
/// refund the over-reservation for the filled portion, shrink the
/// recorded volume and delete the record when it reaches zero.
pub open spec fn spec_process_fill(m: RiskModel, id: u64, volume: u64, value: u64) -> RiskModel {
    let (pid, sym_id, ord) = m.orders[id];
    let sym = m.symbols[sym_id as int];
    let (pa, pv) = spec_pessimistic(ord.side, ord.limit, sym, volume);
    let (ra, rv, fall) = spec_rising(ord.side, sym, volume, value);
    let assets = m.participants[pid];
    let a1 = assets.insert(ra, (assets[ra] + rv) as u64);
    let a2 = a1.insert(pa, (a1[pa] + pv - fall) as u64);
    let ord2 = RiskOrder { volume: (ord.volume - volume) as u64, ..ord };
    RiskModel {
        participants: m.participants.insert(pid, a2),
        orders: if ord.volume == volume {
            m.orders.remove(id)
        } else {
            m.orders.insert(id, (pid, sym_id, ord2))
        },
        ..m
    }
}

/// A cancel event the engine can reconcile: the order and its owner
/// are known, the reserved asset exists and the refund fits.
pub open spec fn canceled_event_ok(m: RiskModel, id: u64) -> bool {
    &&& m.orders.contains_key(id)
    &&& ({
        let (pid, sym_id, ord) = m.orders[id];
        let sym = m.symbols[sym_id as int];
        let (pa, pv) = spec_pessimistic(ord.side, ord.limit, sym, ord.volume);
        &&& m.participants.contains_key(pid)
        &&& sym_id < m.symbols.len()
        &&& m.participants[pid].contains_key(pa)
        &&& m.participants[pid][pa] + pv <= u64::MAX
    })
}

/// What reconciling a cancel does to the engine: refund the whole
/// remaining reservation and delete the record.
pub open spec fn spec_process_canceled(m: RiskModel, id: u64) -> RiskModel {
    let (pid, sym_id, ord) = m.orders[id];
    let sym = m.symbols[sym_id as int];
    let (pa, pv) = spec_pessimistic(ord.side, ord.limit, sym, ord.volume);
    let assets = m.participants[pid];
    let a1 = assets.insert(pa, (assets[pa] + pv) as u64);
    RiskModel { participants: m.participants.insert(pid, a1), orders: m.orders.remove(id), ..m }
}

/// One shard of the risk engine: balances, recorded orders and the
/// exchange configuration.
pub struct RiskEngine {
    pub participants: HashMap<u64, Participant>,
    pub settings: ExchangeSettings,
    /// For each admitted order id: participant id, symbol id, snapshot.
    pub orders: HashMap<u64, (u64, u64, RiskOrder)>,
}

impl RiskEngine {
    /// The abstract state of the engine.
    pub open spec fn model(&self) -> RiskModel {
        RiskModel {
            participants: assets_model(self.participants@),
            orders: self.orders@,
            symbols: self.settings.symbols@,
        }
    }

    /// The engine is well formed (see `wf_risk`).
    pub open spec fn wf(&self) -> bool {
        wf_risk(self.model())
    }

    /// An engine with no participants and no recorded orders.
    pub fn new(settings: ExchangeSettings) -> (r: RiskEngine)
        ensures
            r.wf(),
            r.model().participants == Map::<u64, Map<AssetId, u64>>::empty(),
            r.model().orders == Map::<u64, (u64, u64, RiskOrder)>::empty(),
            r.settings == settings,
            r.model().symbols == settings.symbols@,
    {
        let r = RiskEngine { participants: HashMap::new(), settings, orders: HashMap::new() };
        proof {
            assert(assets_model(r.participants@) =~= Map::<u64, Map<AssetId, u64>>::empty());
        }
        r
    }

    /// Register a participant under its own id. An existing participant
    /// with the same id is replaced.
    pub fn add_participant(&mut self, part: Participant)
        requires
            old(self).wf(),
        ensures
            final(self).wf(),
            final(self).model() == (RiskModel {
                participants: old(self).model().participants.insert(part.id, part.assets@),
                ..old(self).model()
            }),
    {
        let pid = part.id;
        self.participants.insert(pid, part);
        proof {
            assert(assets_model(self.participants@) =~= assets_model(
                old(self).participants@,
            ).insert(pid, self.participants@[pid].assets@));
            assert(self.model() =~~= (RiskModel {
                participants: old(self).model().participants.insert(pid, part.assets@),
                ..old(self).model()
            }));
        }
    }

    /// Validate a command against balances. A trade that passes has its
    /// pessimistic cost reserved and its snapshot recorded; a cancel
    /// passes through untouched.
    pub fn process_command(&mut self, command: OrderCommand) -> (r: RiskEngineResult)
        requires
            old(self).wf(),
            match command {
                OrderCommand::Trade(t) => t.limit < MAX_PRICE && 0 < t.volume
                    <= MAX_ORDER_VOLUME,
                OrderCommand::Cancel(c) => true,
            },
        ensures
            final(self).wf(),
            final(self).model() == spec_process_command(old(self).model(), command).0,
            r == spec_process_command(old(self).model(), command).1,
    {
        match command {
            OrderCommand::Trade(t) => {
                if t.symbol >= self.settings.symbols.len() as u64 {
                    return RiskEngineResult::SymbolNotFound;
                }
                let symbol = self.settings.symbols[t.symbol as usize];
                if !matches!(symbol.symbol_type, SymbolType::ExchangePair) {
                    return RiskEngineResult::UnsupportedSymbolKind;
                }
                let mut user = match self.participants.remove(&t.participant_id) {
                    Some(u) => u,
                    None => {
                        return RiskEngineResult::UserNotFound;
                    },
                };
                proof {
                    lemma_assets_model_at(old(self).participants@, t.participant_id);
                    if t.side == OrderSide::BID {
                        assert(t.volume * t.limit <= MAX_ORDER_VOLUME * (MAX_PRICE - 1))
                            by (nonlinear_arith)
                            requires
                                t.volume <= MAX_ORDER_VOLUME,
                                t.limit <= MAX_PRICE - 1,
                        ;
                        assert(MAX_ORDER_VOLUME * (MAX_PRICE - 1) <= u64::MAX) by (nonlinear_arith);
                    }
                }
                let result = Self::place_exchange_order(&symbol, &mut user, t, &mut self.orders);
                self.participants.insert(t.participant_id, user);
                proof {
                    assert(self.participants@ =~= old(self).participants@.insert(
                        t.participant_id,
                        self.participants@[t.participant_id],
                    ));
                    assert(assets_model(self.participants@) =~= assets_model(
                        old(self).participants@,
                    ).insert(t.participant_id, self.participants@[t.participant_id].assets@));
                    assert(self.model() =~~= spec_process_trade(old(self).model(), t).0);
                }
                result
            },
            OrderCommand::Cancel(c) => {
                if c.symbol >= self.settings.symbols.len() as u64 {
                    return RiskEngineResult::SymbolNotFound;
                }
                let symbol = self.settings.symbols[c.symbol as usize];
                if !matches!(symbol.symbol_type, SymbolType::ExchangePair) {
                    return RiskEngineResult::UnsupportedSymbolKind;
                }
                if !self.participants.contains_key(&c.participant_id) {
                    return RiskEngineResult::UserNotFound;
                }
                RiskEngineResult::ValidForMatchingEngine
            },
        }
    }

    /// Reserve the pessimistic cost of `trade_command` against `user`'s
    /// balance and record the snapshot, or reject it.
    fn place_exchange_order(
        symbol: &Symbol,
        user: &mut Participant,
        trade_command: TradeCommand,
        orders: &mut HashMap<u64, (u64, u64, RiskOrder)>,
    ) -> (r: RiskEngineResult)
        requires
            trade_command.side == OrderSide::BID ==> trade_command.volume * trade_command.limit
                <= u64::MAX,
        ensures
            ({
                let (pa, pv) = spec_pessimistic(
                    trade_command.side,
                    trade_command.limit,
                    *symbol,
                    trade_command.volume,
                );
                if old(user).assets@.contains_key(pa) && old(user).assets@[pa] >= pv {
                    &&& r == RiskEngineResult::ValidForMatchingEngine
                    &&& final(user).assets@ == old(user).assets@.insert(
                        pa,
                        (old(user).assets@[pa] - pv) as u64,
                    )
                    &&& final(orders)@ == old(orders)@.insert(
                        trade_command.id,
                        (
                            trade_command.participant_id,
                            trade_command.symbol,
                            RiskOrder {
                                limit: trade_command.limit,
                                volume: trade_command.volume,
                                side: trade_command.side,
                                id: trade_command.id,
                            },
                        ),
                    )
                } else {
                    &&& r == RiskEngineResult::InsufficientFunds
                    &&& final(user).assets@ == old(user).assets@
                    &&& final(orders)@ == old(orders)@
                }
            }),
            final(user).id == old(user).id,
    {
        let (pessimistic_asset, pessimistic_value) = trade_command.pessimistic(symbol);
        match user.assets.get(&pessimistic_asset) {
            Some(user_asset) => {
                let balance = *user_asset;
                if balance >= pessimistic_value {
                    // Pessimistically reduce the assets by the highest
                    // possible amount.
                    user.assets.insert(pessimistic_asset, balance - pessimistic_value);
                    orders.insert(
                        trade_command.id,
                        (
                            trade_command.participant_id,
                            trade_command.symbol,
                            RiskOrder::from(trade_command),
                        ),
                    );
                    RiskEngineResult::ValidForMatchingEngine
                } else {
                    RiskEngineResult::InsufficientFunds
                }
            },
            None => RiskEngineResult::InsufficientFunds,
        }
    }

    /// Reconcile one event coming back from a matcher against the
    /// reservation recorded on admission. The event must refer to a
    /// recorded order (`fill_event_ok` / `canceled_event_ok`): an
    /// unknown order here means the matcher fired on something risk
    /// never admitted, which this engine rules out by contract.
    pub fn process_matcher_event(&mut self, event: MatchingEngineEvent)
        requires
            old(self).wf(),
            match event {
                MatchingEngineEvent::Filled(id, volume, value) => fill_event_ok(
                    old(self).model(),
                    id,
                    volume,
                    value,
                ),
                MatchingEngineEvent::Canceled(id) => canceled_event_ok(old(self).model(), id),
            },
        ensures
            final(self).wf(),
            final(self).model() == match event {
                MatchingEngineEvent::Filled(id, volume, value) => spec_process_fill(
                    old(self).model(),
                    id,
                    volume,
                    value,
                ),
                MatchingEngineEvent::Canceled(id) => spec_process_canceled(old(self).model(), id),
            },
    {
        match event {
            MatchingEngineEvent::Filled(id, volume, value) => {
                let (participant_id, symbol_id, mut order) = match self.orders.remove(&id) {
                    Some(rec) => rec,
                    None => {
                        proof {
                            assert(false);
                        }
                        return ;
                    },
                };
                proof {
                    lemma_assets_model_at(old(self).participants@, participant_id);
                }
                let mut participant = match self.participants.remove(&participant_id) {
                    Some(p) => p,
                    None => {
                        proof {
                            assert(false);
                        }
                        return ;
                    },
                };
                let symbol_count = self.settings.symbols.len();
                proof {
                    assert(symbol_id < symbol_count);
                }
                let symbol = self.settings.symbols[symbol_id as usize];
                proof {
                    if order.side == OrderSide::BID {
                        assert(volume * order.limit <= MAX_ORDER_VOLUME * (MAX_PRICE - 1))
                            by (nonlinear_arith)
                            requires
                                volume <= MAX_ORDER_VOLUME,
                                order.limit <= MAX_PRICE - 1,
                        ;
                        assert(MAX_ORDER_VOLUME * (MAX_PRICE - 1) <= u64::MAX)
                            by (nonlinear_arith);
                    }
                }
                // The pessimistic amount previously deducted for the
                // filled portion of the order.
                let (pessimistic_asset, pessimistic_value) = TradeCommand::historic_pessimistic(
                    order.side,
                    order.limit,
                    &symbol,
                    volume,
                );
                let (rising_asset, rising_value, falling_value) = match order.side {
                    OrderSide::BID => (symbol.quote_asset, volume, value),
                    OrderSide::ASK => (symbol.base_asset, value, volume),
                };
                let rising_balance = match participant.assets.get(&rising_asset) {
                    Some(b) => *b,
                    None => {
                        proof {
                            assert(false);
                        }
                        return ;
                    },
                };
                participant.assets.insert(rising_asset, rising_balance + rising_value);
                let pess_balance = match participant.assets.get(&pessimistic_asset) {
                    Some(b) => *b,
                    None => {
                        proof {
                            assert(false);
                        }
                        return ;
                    },
                };
                // Refund what was reserved but not actually spent.
                let difference = pessimistic_value - falling_value;
                participant.assets.insert(pessimistic_asset, pess_balance + difference);
                // Shrink the recorded volume; a fully filled order frees
                // its record.
                order.volume = order.volume - volume;
                if order.volume > 0 {
                    self.orders.insert(id, (participant_id, symbol_id, order));
                }
                self.participants.insert(participant_id, participant);
                proof {
                    let m0 = old(self).model();
                    assert(self.participants@ =~= old(self).participants@.insert(
                        participant_id,
                        self.participants@[participant_id],
                    ));
                    assert(assets_model(self.participants@) =~= assets_model(
                        old(self).participants@,
                    ).insert(participant_id, self.participants@[participant_id].assets@));
                    if order.volume > 0 {
                        assert(self.orders@ =~= m0.orders.insert(
                            id,
                            (participant_id, symbol_id, order),
                        ));
                    } else {
                        assert(self.orders@ =~= m0.orders.remove(id));
                    }
                    assert(self.model() =~~= spec_process_fill(m0, id, volume, value));
                }
            },
            MatchingEngineEvent::Canceled(id) => {
                // Hand the pessimistically removed assets back.
                let (participant_id, symbol_id, order) = match self.orders.remove(&id) {
                    Some(rec) => rec,
                    None => {
                        proof {
                            assert(false);
                        }
                        return ;
                    },
                };
                proof {
                    lemma_assets_model_at(old(self).participants@, participant_id);
                }
                let mut participant = match self.participants.remove(&participant_id) {
                    Some(p) => p,
                    None => {
                        proof {
                            assert(false);
                        }
                        return ;
                    },
                };
                let symbol_count = self.settings.symbols.len();
                proof {
                    assert(symbol_id < symbol_count);
                }
                let symbol = self.settings.symbols[symbol_id as usize];
                proof {
                    if order.side == OrderSide::BID {
                        assert(order.volume * order.limit <= MAX_ORDER_VOLUME * (MAX_PRICE - 1))
                            by (nonlinear_arith)
                            requires
                                order.volume <= MAX_ORDER_VOLUME,
                                order.limit <= MAX_PRICE - 1,
                        ;
                        assert(MAX_ORDER_VOLUME * (MAX_PRICE - 1) <= u64::MAX)
                            by (nonlinear_arith);
                    }
                }
                let (pessimistic_asset, pessimistic_value) = TradeCommand::historic_pessimistic(
                    order.side,
                    order.limit,
                    &symbol,
                    order.volume,
                );
                let pess_balance = match participant.assets.get(&pessimistic_asset) {
                    Some(b) => *b,
                    None => {
                        proof {
                            assert(false);
                        }
                        return ;
                    },
                };
                participant.assets.insert(pessimistic_asset, pess_balance + pessimistic_value);
                self.participants.insert(participant_id, participant);
                proof {
                    let m0 = old(self).model();
                    assert(self.participants@ =~= old(self).participants@.insert(
                        participant_id,
                        self.participants@[participant_id],
                    ));
                    assert(assets_model(self.participants@) =~= assets_model(
                        old(self).participants@,
                    ).insert(participant_id, self.participants@[participant_id].assets@));
                    assert(self.orders@ =~= m0.orders.remove(id));
                    assert(self.model() =~~= spec_process_canceled(m0, id));
                }
            },
        }
    }
}

} // verus!
