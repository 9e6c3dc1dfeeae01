//! Scenarios for the risk engine: reservation, reconciliation and the
//! router.

use exchange_core::asset::{Symbol, SymbolType};
use exchange_core::commands::{CancelCommand, OrderCommand, TradeCommand};
use exchange_core::event::MatchingEngineEvent;
use exchange_core::exchange_settings::ExchangeSettings;
use exchange_core::participant::Participant;
use exchange_core::risk_engine::{RiskEngine, RiskEngineResult};
use exchange_core::router::risk_router;
use exchange_core::OrderSide;

fn spot_settings() -> ExchangeSettings {
    ExchangeSettings {
        symbols: vec![Symbol {
            symbol_type: SymbolType::ExchangePair,
            base_asset: 0,
            quote_asset: 1,
        }],
        risk_engine_shards: 1,
        db_sync_speed_micros: 500,
        db_min_recv_timeout_micros: 100,
    }
}

fn participant(id: u64, base: u64, quote: u64) -> Participant {
    let mut p = Participant::new(id);
    p.assets.insert(0, base);
    p.assets.insert(1, quote);
    p
}

fn trade(id: u64, participant_id: u64, side: OrderSide, limit: u64, volume: u64) -> OrderCommand {
    OrderCommand::Trade(TradeCommand {
        id,
        participant_id,
        symbol: 0,
        side,
        volume,
        limit,
        immediate_or_cancel: false,
    })
}

fn balance(engine: &RiskEngine, pid: u64, asset: usize) -> u64 {
    *engine.participants.get(&pid).unwrap().assets.get(&asset).unwrap()
}

#[test]
fn ask_reserves_quote_by_volume() {
    // S1 (risk part): an ask for 10 reserves 10 of the quote asset.
    let mut e = RiskEngine::new(spot_settings());
    e.add_participant(participant(0, 1000, 1000));
    let r = e.process_command(trade(1, 0, OrderSide::ASK, 100, 10));
    assert!(matches!(r, RiskEngineResult::ValidForMatchingEngine));
    assert_eq!(balance(&e, 0, 1), 990);
    assert_eq!(balance(&e, 0, 0), 1000);
    assert!(e.orders.contains_key(&1));
}

#[test]
fn bid_reserves_base_by_volume_times_limit() {
    let mut e = RiskEngine::new(spot_settings());
    e.add_participant(participant(0, 1000, 1000));
    let r = e.process_command(trade(1, 0, OrderSide::BID, 50, 4));
    assert!(matches!(r, RiskEngineResult::ValidForMatchingEngine));
    assert_eq!(balance(&e, 0, 0), 800);
    assert_eq!(balance(&e, 0, 1), 1000);
}

#[test]
fn full_cross_settles_both_sides() {
    // S2: the ask participant delivers 10 quote and earns 1000 base;
    // the bid participant spends 1000 base and earns 10 quote.
    let mut e = RiskEngine::new(spot_settings());
    e.add_participant(participant(0, 1000, 1000));
    e.add_participant(participant(1, 1000, 1000));
    assert!(matches!(
        e.process_command(trade(1, 0, OrderSide::ASK, 100, 10)),
        RiskEngineResult::ValidForMatchingEngine
    ));
    assert!(matches!(
        e.process_command(trade(2, 1, OrderSide::BID, 100, 10)),
        RiskEngineResult::ValidForMatchingEngine
    ));
    // The matcher reports both legs of the cross.
    e.process_matcher_event(MatchingEngineEvent::Filled(1, 10, 1000));
    e.process_matcher_event(MatchingEngineEvent::Filled(2, 10, 1000));
    assert_eq!(balance(&e, 0, 1), 990);
    assert_eq!(balance(&e, 0, 0), 2000);
    assert_eq!(balance(&e, 1, 0), 0);
    assert_eq!(balance(&e, 1, 1), 1010);
    assert!(!e.orders.contains_key(&1));
    assert!(!e.orders.contains_key(&2));
}

#[test]
fn cancel_refunds_reservation_once() {
    // S4 (risk part): the post-trade cancel event refunds the 200 the
    // bid reserved, exactly once.
    let mut e = RiskEngine::new(spot_settings());
    e.add_participant(participant(0, 1000, 1000));
    e.process_command(trade(1, 0, OrderSide::BID, 50, 4));
    assert_eq!(balance(&e, 0, 0), 800);
    e.process_matcher_event(MatchingEngineEvent::Canceled(1));
    assert_eq!(balance(&e, 0, 0), 1000);
    assert!(!e.orders.contains_key(&1));
}

#[test]
fn pessimistic_reservation_is_refunded_after_fills() {
    // S6 (risk part): the bid reserves 15 * 101 = 1515 and gets the
    // 10 it over-reserved back once the real fills arrive.
    let mut e = RiskEngine::new(spot_settings());
    e.add_participant(participant(0, 1000, 1000));
    e.add_participant(participant(1, 2000, 1000));
    e.process_command(trade(1, 0, OrderSide::ASK, 100, 10));
    e.process_command(trade(2, 0, OrderSide::ASK, 101, 10));
    e.process_command(trade(3, 1, OrderSide::BID, 101, 15));
    assert_eq!(balance(&e, 1, 0), 2000 - 1515);
    // Maker fills for both asks, then the taker's aggregated fill.
    e.process_matcher_event(MatchingEngineEvent::Filled(1, 10, 1000));
    e.process_matcher_event(MatchingEngineEvent::Filled(2, 5, 505));
    e.process_matcher_event(MatchingEngineEvent::Filled(3, 15, 1505));
    assert_eq!(balance(&e, 1, 0), 2000 - 1515 + 10);
    assert_eq!(balance(&e, 1, 1), 1015);
    assert_eq!(balance(&e, 0, 0), 1000 + 1000 + 505);
    assert_eq!(balance(&e, 0, 1), 980);
    // The half-filled ask still holds its residual reservation.
    assert_eq!(e.orders.get(&2).unwrap().2.volume, 5);
    assert!(!e.orders.contains_key(&1));
    assert!(!e.orders.contains_key(&3));
}

#[test]
fn risk_totals_are_conserved() {
    // P5 on a concrete run: balances plus reservations per asset stay
    // what they were seeded with, through admissions, fills and a
    // cancel event.
    let mut e = RiskEngine::new(spot_settings());
    e.add_participant(participant(0, 1000, 1000));
    e.add_participant(participant(1, 2000, 1000));
    e.process_command(trade(1, 0, OrderSide::ASK, 100, 10));
    e.process_command(trade(2, 1, OrderSide::BID, 100, 10));
    e.process_matcher_event(MatchingEngineEvent::Filled(1, 10, 1000));
    e.process_matcher_event(MatchingEngineEvent::Filled(2, 10, 1000));
    e.process_command(trade(3, 1, OrderSide::BID, 50, 4));
    e.process_matcher_event(MatchingEngineEvent::Canceled(3));
    let total = |asset: usize| -> u64 {
        let held: u64 = e
            .participants
            .values()
            .map(|p| p.assets.get(&asset).copied().unwrap_or(0))
            .sum();
        let reserved: u64 = e
            .orders
            .values()
            .map(|(_, _, o)| match o.side {
                OrderSide::BID => {
                    if asset == 0 {
                        o.volume * o.limit
                    } else {
                        0
                    }
                }
                OrderSide::ASK => {
                    if asset == 1 {
                        o.volume
                    } else {
                        0
                    }
                }
            })
            .sum();
        held + reserved
    };
    assert_eq!(total(0), 3000);
    assert_eq!(total(1), 2000);
}

#[test]
fn unknown_symbol_is_rejected() {
    let mut e = RiskEngine::new(spot_settings());
    e.add_participant(participant(0, 1000, 1000));
    let mut t = trade(1, 0, OrderSide::ASK, 100, 10);
    if let OrderCommand::Trade(ref mut tc) = t {
        tc.symbol = 7;
    }
    assert!(matches!(e.process_command(t), RiskEngineResult::SymbolNotFound));
}

#[test]
fn non_spot_symbol_refuses_work() {
    let mut settings = spot_settings();
    settings.symbols.push(Symbol {
        symbol_type: SymbolType::FuturesContract,
        base_asset: 0,
        quote_asset: 1,
    });
    let mut e = RiskEngine::new(settings);
    e.add_participant(participant(0, 1000, 1000));
    let mut t = trade(1, 0, OrderSide::ASK, 100, 10);
    if let OrderCommand::Trade(ref mut tc) = t {
        tc.symbol = 1;
    }
    assert!(matches!(e.process_command(t), RiskEngineResult::UnsupportedSymbolKind));
}

#[test]
fn unknown_participant_is_rejected() {
    let mut e = RiskEngine::new(spot_settings());
    assert!(matches!(
        e.process_command(trade(1, 9, OrderSide::ASK, 100, 10)),
        RiskEngineResult::UserNotFound
    ));
}

#[test]
fn insufficient_funds_is_rejected_and_harmless() {
    let mut e = RiskEngine::new(spot_settings());
    e.add_participant(participant(0, 100, 100));
    let r = e.process_command(trade(1, 0, OrderSide::BID, 50, 4));
    assert!(matches!(r, RiskEngineResult::InsufficientFunds));
    assert_eq!(balance(&e, 0, 0), 100);
    assert!(!e.orders.contains_key(&1));
}

#[test]
fn cancel_command_passes_through() {
    let mut e = RiskEngine::new(spot_settings());
    e.add_participant(participant(0, 1000, 1000));
    let r = e.process_command(OrderCommand::Cancel(CancelCommand {
        symbol: 0,
        order_id: 42,
        participant_id: 0,
    }));
    assert!(matches!(r, RiskEngineResult::ValidForMatchingEngine));
    assert_eq!(balance(&e, 0, 0), 1000);
}

#[test]
fn router_is_stable_and_pure() {
    // P6: the shard of a participant is a pure function of the id and
    // the shard count, so it never moves between runs.
    let s = ExchangeSettings {
        symbols: Vec::new(),
        risk_engine_shards: 4,
        db_sync_speed_micros: 0,
        db_min_recv_timeout_micros: 0,
    };
    for pid in 0u64..64 {
        let first = risk_router(&s, &pid);
        assert_eq!(first, (pid % 4) as usize);
        assert_eq!(risk_router(&s, &pid), first);
    }
}
