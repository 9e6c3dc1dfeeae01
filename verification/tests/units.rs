//! Unit tests for the small building blocks.

use exchange_core::asset::{Symbol, SymbolType};
use exchange_core::bit_set::BitSet;
use exchange_core::commands::TradeCommand;
use exchange_core::event::MatchingEngineEvent;
use exchange_core::message::{Message, Payload};
use exchange_core::order::StandingOrder;
use exchange_core::order_record::{Order, OrderEvent};
use exchange_core::position_record::{PositionDirection, PositionRecord};
use exchange_core::primitives::{Price, Value, Volume};
use exchange_core::risk_order::RiskOrder;
use exchange_core::OrderSide;

#[test]
fn order_side_negates() {
    assert_eq!(OrderSide::ASK.neg(), OrderSide::BID);
    assert_eq!(OrderSide::BID.neg(), OrderSide::ASK);
}

#[test]
fn pessimistic_formula() {
    let sym = Symbol { symbol_type: SymbolType::ExchangePair, base_asset: 0, quote_asset: 1 };
    let bid = TradeCommand {
        id: 1,
        participant_id: 0,
        symbol: 0,
        side: OrderSide::BID,
        volume: 4,
        limit: 50,
        immediate_or_cancel: false,
    };
    assert_eq!(bid.pessimistic(&sym), (0, 200));
    let ask = TradeCommand { side: OrderSide::ASK, ..bid };
    assert_eq!(ask.pessimistic(&sym), (1, 4));
    assert_eq!(TradeCommand::historic_pessimistic(OrderSide::BID, 50, &sym, 3), (0, 150));
    assert_eq!(TradeCommand::historic_pessimistic(OrderSide::ASK, 50, &sym, 3), (1, 3));
}

#[test]
fn standing_order_fill_and_match() {
    let mut maker = StandingOrder::new(1, 0, 100, 10, OrderSide::ASK);
    assert!(maker.matches_with(100));
    assert!(maker.matches_with(150));
    assert!(!maker.matches_with(99));
    let taker = StandingOrder::new(2, 0, 100, 4, OrderSide::BID);
    let mut out: Vec<Message> = Vec::new();
    let traded = maker.fill(&taker, 100, &mut out);
    assert_eq!(traded, 4);
    assert_eq!(maker.remaining_volume(), 6);
    assert!(!maker.is_filled());
    assert_eq!(out.len(), 1);
    assert_eq!(out[0].channel, "risk");
    match out[0].payload {
        Payload::MatchingPayload(MatchingEngineEvent::Filled(id, v, val)) => {
            assert_eq!((id, v, val), (1, 4, 400));
        }
        _ => panic!("expected a fill event"),
    }
    // Orders compare by identity, not by remaining volume.
    assert_eq!(maker, StandingOrder::new(1, 9, 1, 1, OrderSide::BID));
}

#[test]
fn risk_order_snapshots_a_trade() {
    let t = TradeCommand {
        id: 7,
        participant_id: 3,
        symbol: 0,
        side: OrderSide::BID,
        volume: 5,
        limit: 20,
        immediate_or_cancel: false,
    };
    let r = RiskOrder::from(t);
    assert_eq!(r, RiskOrder::new(7, 20, 5, OrderSide::BID));
}

#[test]
fn primitives_keep_units_straight() {
    assert_eq!(Volume(3) * Price(7), Value(21));
    assert_eq!(Price(7) * Volume(3), Value(21));
    assert_eq!(Price(2) + Price(3), Price(5));
    assert_eq!(Volume(9) - Volume(4), Volume(5));
    assert_eq!(Value(10) + Value(1), Value(11));
    assert_eq!(Value(10) - Value(1), Value(9));
    assert_eq!(Price(5).get(), 5);
    assert_eq!(Volume(6).get(), 6);
    assert_eq!(Value(7).get(), 7);
}

#[test]
fn bit_set_roundtrip() {
    let mut b = BitSet::with_capacity(70);
    assert_eq!(b.first(), None);
    assert_eq!(b.get(0), Some(false));
    assert_eq!(b.get(70), None);
    b.set(33, true);
    b.set(64, true);
    assert_eq!(b.get(33), Some(true));
    assert_eq!(b.get(34), Some(false));
    assert_eq!(b.first(), Some(33));
    b.set(33, false);
    assert_eq!(b.first(), Some(64));
    b.set(64, false);
    assert_eq!(b.first(), None);
}

#[test]
fn position_record_tracks_pending_volume() {
    let mut r = PositionRecord {
        symbol: 0,
        direction: PositionDirection::Long,
        volume: 0,
        paid_value: 0,
        profit: 0,
        pending_buy_volume: 0,
        pending_sell_volume: 0,
    };
    r.pending_hold(OrderSide::ASK, 5);
    r.pending_hold(OrderSide::BID, 3);
    assert_eq!(r.pending_sell_volume, 5);
    assert_eq!(r.pending_buy_volume, 3);
    r.pending_release(OrderSide::ASK, 2);
    assert_eq!(r.pending_sell_volume, 3);
}

#[test]
fn order_record_tracks_fill_state() {
    let mut o = Order::new(Price(100), Volume(10), OrderSide::ASK);
    assert_eq!(o.remaining_volume(), Volume(10));
    assert!(!o.is_filled());
    assert!(o.matches_with(&Price(100)));
    assert!(!o.matches_with(&Price(99)));
    let traded = o.fill(Volume(4), Price(100));
    assert_eq!(traded, Volume(4));
    assert_eq!(o.remaining_volume(), Volume(6));
    assert_eq!(o.notify(), OrderEvent::Filled(o.id, Volume(4), Value(400)));
    assert_eq!(o.cancel(), OrderEvent::Canceled(o.id));
    let traded = o.fill(Volume(9), Price(100));
    assert_eq!(traded, Volume(6));
    assert!(o.is_filled());
    assert_eq!(o.notify(), OrderEvent::Filled(o.id, Volume(10), Value(1000)));
}

#[test]
fn message_wraps_payload() {
    let m = Message::new(
        "risk".to_string(),
        Payload::MatchingPayload(MatchingEngineEvent::Canceled(4)),
    );
    assert_eq!(m.channel, "risk");
    assert!(matches!(
        m.payload,
        Payload::MatchingPayload(MatchingEngineEvent::Canceled(4))
    ));
}
