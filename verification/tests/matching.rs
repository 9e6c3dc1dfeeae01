//! End-to-end scenarios for the matching core.

use exchange_core::commands::{CancelCommand, OrderCommand, TradeCommand};
use exchange_core::event::MatchingEngineEvent;
use exchange_core::exchange_settings::ExchangeSettings;
use exchange_core::message::{Message, Payload};
use exchange_core::order_book::{MAX_ORDER_VOLUME, MAX_PRICE};
use exchange_core::order_book_processor::OrderBookProcessor;
use exchange_core::OrderSide;

fn settings() -> ExchangeSettings {
    ExchangeSettings {
        symbols: Vec::new(),
        risk_engine_shards: 1,
        db_sync_speed_micros: 500,
        db_min_recv_timeout_micros: 100,
    }
}

fn trade(id: u64, side: OrderSide, limit: u64, volume: u64) -> OrderCommand {
    OrderCommand::Trade(TradeCommand {
        id,
        participant_id: 0,
        symbol: 0,
        side,
        volume,
        limit,
        immediate_or_cancel: false,
    })
}

fn cancel(order_id: u64) -> OrderCommand {
    OrderCommand::Cancel(CancelCommand { symbol: 0, order_id, participant_id: 0 })
}

fn fills(messages: &[Message]) -> Vec<(u64, u64, u64)> {
    let mut out = Vec::new();
    for m in messages {
        assert_eq!(m.channel, "risk");
        match m.payload {
            Payload::MatchingPayload(MatchingEngineEvent::Filled(id, v, val)) => {
                out.push((id, v, val))
            }
            _ => panic!("unexpected payload"),
        }
    }
    out
}

#[test]
fn ask_rests_and_sets_best_ask() {
    // S1: a lone ask rests; nothing crosses and the best ask tightens.
    let mut p = OrderBookProcessor::new(0, settings());
    let out = p.run(&vec![trade(1, OrderSide::ASK, 100, 10)]);
    assert!(out.is_empty());
    assert_eq!(p.book.min_ask_price, 100);
    assert_eq!(p.book.max_bid_price, 0);
    assert!(p.book.order_is_live(1));
}

#[test]
fn full_cross_empties_book() {
    // S2: an exactly matching bid crosses the resting ask completely.
    let mut p = OrderBookProcessor::new(0, settings());
    let out = p.run(&vec![
        trade(1, OrderSide::ASK, 100, 10),
        trade(2, OrderSide::BID, 100, 10),
    ]);
    assert_eq!(fills(&out), vec![(1, 10, 1000), (2, 10, 1000)]);
    // The book is empty: no ask and no bid rests anywhere, which is
    // what the sentinel best prices stand for. The ask mark itself is
    // corrected lazily by the next scan that passes it.
    assert!(p.book.bucket_array.iter().all(|b| b.queue.is_empty()));
    assert_eq!(p.book.max_bid_price, 0);
    assert!(p.book.min_ask_price <= MAX_PRICE);
    assert!(!p.book.order_is_live(1));
    assert!(!p.book.order_is_live(2));
}

#[test]
fn partial_fill_leaves_residual_maker() {
    // S3: a bid for 12 consumes one ask whole and part of the next.
    let mut p = OrderBookProcessor::new(0, settings());
    let out = p.run(&vec![
        trade(1, OrderSide::ASK, 100, 10),
        trade(2, OrderSide::ASK, 100, 5),
        trade(3, OrderSide::BID, 100, 12),
    ]);
    assert_eq!(fills(&out), vec![(1, 10, 1000), (2, 2, 200), (3, 12, 1200)]);
    assert!(!p.book.order_is_live(1));
    assert!(p.book.order_is_live(2));
    assert!(!p.book.order_is_live(3));
    assert_eq!(p.book.bucket_array[100].queue.len(), 1);
    assert_eq!(p.book.bucket_array[100].queue[0].volume, 3);
}

#[test]
fn cancel_is_idempotent() {
    // S4: the second cancel of the same id is a no-op.
    let mut p = OrderBookProcessor::new(0, settings());
    p.run(&vec![trade(1, OrderSide::BID, 50, 4)]);
    assert!(p.book.order_is_live(1));
    let out1 = p.run(&vec![cancel(1)]);
    assert!(out1.is_empty());
    let bests = (p.book.min_ask_price, p.book.max_bid_price);
    let out2 = p.run(&vec![cancel(1)]);
    assert!(out2.is_empty());
    assert!(!p.book.order_is_live(1));
    assert_eq!((p.book.min_ask_price, p.book.max_bid_price), bests);
    assert_eq!(p.book.bucket_array[50].queue.len(), 0);
}

#[test]
fn no_match_below_ask_limit() {
    // S5: a bid below the best ask rests; the book stays uncrossed.
    let mut p = OrderBookProcessor::new(0, settings());
    let out = p.run(&vec![
        trade(1, OrderSide::ASK, 100, 1),
        trade(2, OrderSide::BID, 99, 1),
    ]);
    assert!(out.is_empty());
    assert_eq!(p.book.min_ask_price, 100);
    assert_eq!(p.book.max_bid_price, 99);
    assert!(p.book.order_is_live(1));
    assert!(p.book.order_is_live(2));
}

#[test]
fn price_priority_walks_the_ladder() {
    // S6 (matcher part): a bid for 15 at 101 takes the cheaper ask
    // first, then half of the dearer one.
    let mut p = OrderBookProcessor::new(0, settings());
    let out = p.run(&vec![
        trade(1, OrderSide::ASK, 100, 10),
        trade(2, OrderSide::ASK, 101, 10),
        trade(3, OrderSide::BID, 101, 15),
    ]);
    assert_eq!(fills(&out), vec![(1, 10, 1000), (2, 5, 505), (3, 15, 1505)]);
    assert!(p.book.order_is_live(2));
    assert_eq!(p.book.bucket_array[101].queue[0].volume, 5);
}

#[test]
fn time_priority_fills_oldest_first() {
    // Two asks at one price: a crossing bid of the first ask's size
    // fills only the first-rested ask.
    let mut p = OrderBookProcessor::new(0, settings());
    let out = p.run(&vec![
        trade(1, OrderSide::ASK, 100, 7),
        trade(2, OrderSide::ASK, 100, 9),
        trade(3, OrderSide::BID, 100, 7),
    ]);
    assert_eq!(fills(&out), vec![(1, 7, 700), (3, 7, 700)]);
    assert!(!p.book.order_is_live(1));
    assert!(p.book.order_is_live(2));
    assert_eq!(p.book.bucket_array[100].queue[0].id, 2);
    assert_eq!(p.book.bucket_array[100].queue[0].volume, 9);
}

#[test]
fn duplicate_order_id_is_dropped() {
    let mut p = OrderBookProcessor::new(0, settings());
    let out = p.run(&vec![
        trade(1, OrderSide::ASK, 100, 10),
        trade(1, OrderSide::ASK, 90, 5),
    ]);
    assert!(out.is_empty());
    // The second command was dropped whole: the best ask still stands
    // at the first order's limit.
    assert_eq!(p.book.min_ask_price, 100);
    assert_eq!(p.book.bucket_array[90].queue.len(), 0);
    assert_eq!(p.book.bucket_array[100].queue.len(), 1);
}

#[test]
fn price_out_of_range_is_dropped() {
    let mut p = OrderBookProcessor::new(0, settings());
    let out = p.run(&vec![trade(1, OrderSide::BID, MAX_PRICE, 10)]);
    assert!(out.is_empty());
    assert!(!p.book.order_is_live(1));
}

#[test]
fn zero_and_oversized_volume_are_dropped() {
    let mut p = OrderBookProcessor::new(0, settings());
    let out = p.run(&vec![
        trade(1, OrderSide::BID, 100, 0),
        trade(2, OrderSide::BID, 100, MAX_ORDER_VOLUME + 1),
    ]);
    assert!(out.is_empty());
    assert!(!p.book.order_is_live(1));
    assert!(!p.book.order_is_live(2));
}

#[test]
fn lazy_best_mark_recovers_after_cancel() {
    // Cancel empties the best ask bucket without rescanning; the next
    // crossing bid walks past the stale mark and finds the real ask.
    let mut p = OrderBookProcessor::new(0, settings());
    let out = p.run(&vec![
        trade(1, OrderSide::ASK, 100, 5),
        trade(2, OrderSide::ASK, 103, 5),
        cancel(1),
        trade(3, OrderSide::BID, 103, 5),
    ]);
    assert_eq!(fills(&out), vec![(2, 5, 515), (3, 5, 515)]);
    // The mark advanced tick by tick up to the ask it finally found.
    assert_eq!(p.book.min_ask_price, 103);
}

#[test]
fn fresh_book_hands_out_sequential_ids() {
    let mut p = OrderBookProcessor::new(0, settings());
    assert_eq!(p.book.increment_id(), 0);
    assert_eq!(p.book.increment_id(), 1);
    assert_eq!(p.book.increment_id(), 2);
}

#[test]
fn ask_at_the_bid_sentinel_tick_is_dropped() {
    // Tick 0 doubles as the "no bid" sentinel, so an ask can never
    // rest there without crossing the book; the matcher refuses it.
    let mut p = OrderBookProcessor::new(0, settings());
    let out = p.run(&vec![trade(1, OrderSide::ASK, 0, 5)]);
    assert!(out.is_empty());
    assert!(!p.book.order_is_live(1));
    // A bid at tick 0 is fine.
    p.run(&vec![trade(2, OrderSide::BID, 0, 5)]);
    assert!(p.book.order_is_live(2));
    assert_eq!(p.book.max_bid_price, 0);
}

#[test]
fn book_never_crosses() {
    // P1 on a concrete run: after every command the best bid stays
    // strictly below the best ask.
    let mut p = OrderBookProcessor::new(0, settings());
    let cmds = vec![
        trade(1, OrderSide::ASK, 100, 10),
        trade(2, OrderSide::BID, 99, 10),
        trade(3, OrderSide::BID, 100, 4),
        cancel(2),
        trade(4, OrderSide::ASK, 99, 20),
        trade(5, OrderSide::BID, 101, 1),
    ];
    for c in &cmds {
        let mut out = Vec::new();
        p.process(c, &mut out);
        assert!(p.book.max_bid_price < p.book.min_ask_price);
    }
}

#[test]
fn volume_is_conserved_over_a_run() {
    // P3 on a concrete run: admitted volume equals resting volume plus
    // withdrawn volume plus event-reported volume (counting maker and
    // taker sides separately).
    let mut p = OrderBookProcessor::new(0, settings());
    let cmds = vec![
        trade(1, OrderSide::ASK, 100, 10),
        trade(2, OrderSide::ASK, 101, 4),
        trade(3, OrderSide::BID, 100, 6),
        cancel(2),
        trade(4, OrderSide::BID, 101, 9),
    ];
    let out = p.run(&cmds);
    let admitted: u64 = 10 + 4 + 6 + 9;
    let withdrawn: u64 = 4;
    let event_volume: u64 = fills(&out).iter().map(|f| f.1).sum();
    let resting: u64 = p
        .book
        .bucket_array
        .iter()
        .map(|b| b.queue.iter().map(|o| o.volume).sum::<u64>())
        .sum();
    assert_eq!(resting + withdrawn + event_volume, admitted);
}
