//! The limit order book: a bucketed price ladder with FIFO queues, best
//! price tracking on both sides, and price-time-priority matching.
//!
//! The book keeps every live order in the bucket of its limit price and
//! finds it again by id through `order_map`. The two best-price marks
//! bound where liquidity can rest: asks only at `min_ask_price` and
//! above, bids only at `max_bid_price` and below, and the two never
//! cross. A cancel may leave a best mark pointing at an empty bucket;
//! the matching scan tolerates that and advances lazily.

use vstd::prelude::*;
use std::collections::HashMap;
use crate::commands::TradeCommand;
use crate::event::MatchingEngineEvent;
use crate::exchange_settings::ExchangeSettings;
use crate::message::{msgs_extended, risk_event_msg, Message};
use crate::order::StandingOrder;
use crate::order_bucket::OrderBucket;
use crate::order_side::OrderSide;

verus! {

/// Number of price ticks on the ladder. Valid limits are `0 .. MAX_PRICE`.
pub const MAX_PRICE: u64 = 2000;

/// Largest admissible order volume: keeps every fill value, and the sum
/// of fill values of one taker, below `u64::MAX` (it equals
/// `u64::MAX / MAX_PRICE` rounded down).
pub const MAX_ORDER_VOLUME: u64 = 9_223_372_036_854_775;

/// The book as the contracts see it: the queue at every tick, the id
/// index, and the two best-price marks.
#[verifier::ext_equal]
pub ghost struct BookModel {
    /// For each tick, the resting orders in arrival order.
    pub queues: Seq<Seq<StandingOrder>>,
    /// Which tick each live order id rests at.
    pub ids: Map<u64, u64>,
    /// No ask rests below this tick; `MAX_PRICE` when no ask exists.
    pub min_ask: int,
    /// No bid rests above this tick; 0 when no bid exists.
    pub max_bid: int,
}

/// Outcome of matching a taker against the ladder: the book that is
/// left, the maker fill events in order, the taker volume that did not
/// cross, and the total value the crossed volume traded for.
#[verifier::ext_equal]
pub ghost struct MatchResult {
    pub book: BookModel,
    pub fills: Seq<MatchingEngineEvent>,
    pub remaining: int,
    pub filled_value: int,
}

/// Outcome of admitting a trade command: the book that is left and all
/// events published, maker fills first, then the aggregated taker fill
/// if anything crossed.
#[verifier::ext_equal]
pub ghost struct InsertResult {
    pub book: BookModel,
    pub events: Seq<MatchingEngineEvent>,
}

/// The order at slot `i` of tick `p` is consistent with the book around
/// it: it rests in the bucket of its own limit, its volume is positive
/// and bounded, it respects the best-price marks of its side, and the id
/// index points back at its tick.
pub open spec fn order_slot_ok(m: BookModel, p: int, i: int) -> bool {
    let o = m.queues[p][i];
    &&& o.limit == p
    &&& 0 < o.volume <= MAX_ORDER_VOLUME
    &&& (o.side == OrderSide::ASK ==> m.min_ask <= p)
    &&& (o.side == OrderSide::BID ==> p <= m.max_bid)
    &&& m.ids.contains_key(o.id)
    &&& m.ids[o.id] == p
}

/// Every slot of every queue is consistent (see `order_slot_ok`).
pub open spec fn orders_ok(m: BookModel) -> bool {
    forall|p: int, i: int|
        0 <= p < m.queues.len() && 0 <= i < m.queues[p].len() ==> #[trigger] order_slot_ok(m, p, i)
}

/// No two slots hold the same order id.
pub open spec fn ids_unique(m: BookModel) -> bool {
    forall|p1: int, i1: int, p2: int, i2: int|
        #![trigger m.queues[p1][i1].id, m.queues[p2][i2].id]
        0 <= p1 < m.queues.len() && 0 <= i1 < m.queues[p1].len() && 0 <= p2 < m.queues.len() && 0
            <= i2 < m.queues[p2].len() && (p1 != p2 || i1 != i2) ==> m.queues[p1][i1].id
            != m.queues[p2][i2].id
}

/// Every id in the index is found at the tick the index names.
pub open spec fn ids_live(m: BookModel) -> bool {
    forall|id: u64| #[trigger]
        m.ids.contains_key(id) ==> {
            let p = m.ids[id] as int;
            &&& 0 <= p < m.queues.len()
            &&& exists|i: int| 0 <= i < m.queues[p].len() && #[trigger] m.queues[p][i].id == id
        }
}

/// Well-formedness of a book model. Includes the no-crossed-book
/// invariant: the best bid is strictly below the best ask at every
/// observable point.
pub open spec fn wf_model(m: BookModel) -> bool {
    &&& m.queues.len() == MAX_PRICE
    &&& 0 <= m.max_bid
    &&& m.max_bid < m.min_ask
    &&& m.min_ask <= MAX_PRICE
    &&& orders_ok(m)
    &&& ids_unique(m)
    &&& ids_live(m)
}

/// The tick an incoming order of side `side` would match against next.
pub open spec fn opposite_best(m: BookModel, side: OrderSide) -> int {
    if side == OrderSide::BID {
        m.min_ask
    } else {
        m.max_bid
    }
}

/// How far the matching scan can still travel towards the taker's limit.
pub open spec fn price_measure(m: BookModel, side: OrderSide, limit: u64) -> int {
    if side == OrderSide::BID {
        limit + 1 - m.min_ask
    } else {
        m.max_bid + 1 - limit
    }
}

/// Length of the queue the scan looks at next (0 when out of range).
pub open spec fn best_queue_len(m: BookModel, side: OrderSide) -> int {
    let p = opposite_best(m, side);
    if 0 <= p < m.queues.len() {
        m.queues[p].len() as int
    } else {
        0
    }
}

/// One complete matching scan, accumulator style: `q` is the taker
/// volume still open, `fills` the maker fill events already emitted and
/// `fv` the value already traded. Walks the ladder from the best
/// opposite price towards the taker's limit, always consuming the head
/// of the current bucket (time priority), advancing one tick when a
/// bucket is exhausted (price priority), and stopping when the taker is
/// done or the limit would be violated.
pub open spec fn spec_match(
    m: BookModel,
    side: OrderSide,
    limit: u64,
    q: int,
    fills: Seq<MatchingEngineEvent>,
    fv: int,
) -> MatchResult
    decreases price_measure(m, side, limit), best_queue_len(m, side), q,
{
    let p = opposite_best(m, side);
    if q <= 0 {
        MatchResult { book: m, fills, remaining: q, filled_value: fv }
    } else if (side == OrderSide::BID && p > limit) || (side == OrderSide::ASK && p < limit) {
        MatchResult { book: m, fills, remaining: q, filled_value: fv }
    } else if !(0 <= p < m.queues.len()) {
        MatchResult { book: m, fills, remaining: q, filled_value: fv }
    } else if m.queues[p].len() == 0 {
        if side == OrderSide::BID {
            spec_match(BookModel { min_ask: m.min_ask + 1, ..m }, side, limit, q, fills, fv)
        } else if p == 0 {
            MatchResult { book: m, fills, remaining: q, filled_value: fv }
        } else {
            spec_match(BookModel { max_bid: m.max_bid - 1, ..m }, side, limit, q, fills, fv)
        }
    } else {
        let maker = m.queues[p][0];
        if maker.volume <= q {
            let traded = maker.volume as int;
            let ev = MatchingEngineEvent::Filled(maker.id, maker.volume, (traded * p) as u64);
            let m2 = BookModel {
                queues: m.queues.update(p, m.queues[p].subrange(1, m.queues[p].len() as int)),
                ids: m.ids.remove(maker.id),
                ..m
            };
            spec_match(m2, side, limit, q - traded, fills.push(ev), fv + traded * p)
        } else {
            let ev = MatchingEngineEvent::Filled(maker.id, q as u64, (q * p) as u64);
            let shrunk = StandingOrder { volume: (maker.volume - q) as u64, ..maker };
            let m2 = BookModel {
                queues: m.queues.update(p, m.queues[p].update(0, shrunk)),
                ..m
            };
            MatchResult {
                book: m2,
                fills: fills.push(ev),
                remaining: 0,
                filled_value: fv + q * p,
            }
        }
    }
}

/// What admitting `trade` does to a book: match first, then rest the
/// residual (tightening the same-side best mark), and emit the maker
/// fills followed by one aggregated taker fill if anything crossed.
pub open spec fn spec_insert(m: BookModel, trade: TradeCommand) -> InsertResult {
    let r = spec_match(m, trade.side, trade.limit, trade.volume as int, Seq::empty(), 0);
    let filled = trade.volume - r.remaining;
    let events = if filled > 0 {
        r.fills.push(MatchingEngineEvent::Filled(trade.id, filled as u64, r.filled_value as u64))
    } else {
        r.fills
    };
    if r.remaining > 0 {
        let rest = StandingOrder {
            limit: trade.limit,
            volume: r.remaining as u64,
            side: trade.side,
            id: trade.id,
            participant_id: trade.participant_id,
        };
        let book = BookModel {
            queues: r.book.queues.update(
                trade.limit as int,
                r.book.queues[trade.limit as int].push(rest),
            ),
            ids: r.book.ids.insert(trade.id, trade.limit),
            min_ask: if trade.side == OrderSide::ASK && trade.limit < r.book.min_ask {
                trade.limit as int
            } else {
                r.book.min_ask
            },
            max_bid: if trade.side == OrderSide::BID && trade.limit > r.book.max_bid {
                trade.limit as int
            } else {
                r.book.max_bid
            },
        };
        InsertResult { book, events }
    } else {
        InsertResult { book: r.book, events }
    }
}

/// What cancelling `id` does to a book: nothing when the id is not
/// live, otherwise the order leaves its queue and the id index. The
/// best-price marks are left alone; the matching scan corrects them
/// lazily.
pub open spec fn spec_cancel(m: BookModel, id: u64) -> BookModel {
    if !m.ids.contains_key(id) {
        m
    } else {
        let p = m.ids[id] as int;
        if 0 <= p < m.queues.len() && exists|i: int|
            0 <= i < m.queues[p].len() && #[trigger] m.queues[p][i].id == id {
            let i = choose|i: int| 0 <= i < m.queues[p].len() && #[trigger] m.queues[p][i].id == id;
            BookModel {
                queues: m.queues.update(p, m.queues[p].remove(i)),
                ids: m.ids.remove(id),
                ..m
            }
        } else {
            BookModel { ids: m.ids.remove(id), ..m }
        }
    }
}

/// Removing any one slot from a well-formed book, together with its id,
/// leaves a well-formed book.
proof fn lemma_remove_slot(m: BookModel, p: int, j: int)
    requires
        wf_model(m),
        0 <= p < m.queues.len(),
        0 <= j < m.queues[p].len(),
    ensures
        wf_model(
            BookModel {
                queues: m.queues.update(p, m.queues[p].remove(j)),
                ids: m.ids.remove(m.queues[p][j].id),
                ..m
            },
        ),
{
    let id = m.queues[p][j].id;
    let m2 = BookModel {
        queues: m.queues.update(p, m.queues[p].remove(j)),
        ids: m.ids.remove(id),
        ..m
    };
    assert(order_slot_ok(m, p, j));
    assert forall|pp: int, ii: int|
        0 <= pp < m2.queues.len() && 0 <= ii < m2.queues[pp].len() implies #[trigger] order_slot_ok(
        m2,
        pp,
        ii,
    ) by {
        if pp == p {
            let oi: int = if ii < j {
                ii
            } else {
                ii + 1
            };
            assert(m2.queues[pp][ii] == m.queues[p][oi]);
            assert(order_slot_ok(m, p, oi));
            assert(m.queues[p][oi].id != m.queues[p][j].id);
        } else {
            assert(m2.queues[pp][ii] == m.queues[pp][ii]);
            assert(order_slot_ok(m, pp, ii));
            assert(m.queues[pp][ii].id != m.queues[p][j].id);
        }
    }
    assert forall|p1: int, i1: int, p2: int, i2: int|
        0 <= p1 < m2.queues.len() && 0 <= i1 < m2.queues[p1].len() && 0 <= p2 < m2.queues.len() && 0
            <= i2 < m2.queues[p2].len() && (p1 != p2 || i1 != i2) implies m2.queues[p1][i1].id
        != m2.queues[p2][i2].id by {
        let o1: int = if p1 == p && i1 >= j {
            i1 + 1
        } else {
            i1
        };
        let o2: int = if p2 == p && i2 >= j {
            i2 + 1
        } else {
            i2
        };
        assert(m2.queues[p1][i1] == m.queues[p1][o1]);
        assert(m2.queues[p2][i2] == m.queues[p2][o2]);
        assert(m.queues[p1][o1].id != m.queues[p2][o2].id);
    }
    assert forall|k: u64| #[trigger] m2.ids.contains_key(k) implies {
        let pk = m2.ids[k] as int;
        &&& 0 <= pk < m2.queues.len()
        &&& exists|i: int| 0 <= i < m2.queues[pk].len() && #[trigger] m2.queues[pk][i].id == k
    } by {
        assert(m.ids.contains_key(k));
        let pk = m.ids[k] as int;
        let iw = choose|i: int| 0 <= i < m.queues[pk].len() && #[trigger] m.queues[pk][i].id == k;
        if pk == p {
            assert(m.queues[p][iw].id == k && m.queues[p][j].id == id && k != id);
            assert(iw != j);
            let ni: int = if iw < j {
                iw
            } else {
                iw - 1
            };
            assert(m2.queues[pk][ni].id == k);
        } else {
            assert(m2.queues[pk][iw].id == k);
        }
    }
}

/// What any matching scan guarantees about how it ends: the open
/// volume never grows or turns negative, and volume is left over only
/// when the scan ran past the taker's limit, so a residual never
/// crosses the book.
pub proof fn lemma_spec_match_exit(
    m: BookModel,
    side: OrderSide,
    limit: u64,
    q: int,
    fills: Seq<MatchingEngineEvent>,
    fv: int,
)
    requires
        m.queues.len() == MAX_PRICE,
        0 <= m.max_bid < MAX_PRICE,
        side == OrderSide::BID ==> 0 <= m.min_ask,
        limit < MAX_PRICE,
        side == OrderSide::ASK ==> 1 <= limit,
        0 <= q,
    ensures
        ({
            let r = spec_match(m, side, limit, q, fills, fv);
            &&& 0 <= r.remaining <= q
            &&& (r.remaining > 0 && side == OrderSide::BID ==> r.book.min_ask > limit)
            &&& (r.remaining > 0 && side == OrderSide::ASK ==> r.book.max_bid < limit)
        }),
    decreases price_measure(m, side, limit), best_queue_len(m, side), q,
{
    let p = opposite_best(m, side);
    if q <= 0 {
    } else if (side == OrderSide::BID && p > limit) || (side == OrderSide::ASK && p < limit) {
    } else if !(0 <= p < m.queues.len()) {
    } else if m.queues[p].len() == 0 {
        if side == OrderSide::BID {
            lemma_spec_match_exit(
                BookModel { min_ask: m.min_ask + 1, ..m },
                side,
                limit,
                q,
                fills,
                fv,
            );
        } else if p == 0 {
        } else {
            lemma_spec_match_exit(
                BookModel { max_bid: m.max_bid - 1, ..m },
                side,
                limit,
                q,
                fills,
                fv,
            );
        }
    } else {
        let maker = m.queues[p][0];
        if maker.volume <= q {
            let traded = maker.volume as int;
            let ev = MatchingEngineEvent::Filled(maker.id, maker.volume, (traded * p) as u64);
            let m2 = BookModel {
                queues: m.queues.update(p, m.queues[p].subrange(1, m.queues[p].len() as int)),
                ids: m.ids.remove(maker.id),
                ..m
            };
            lemma_spec_match_exit(m2, side, limit, q - traded, fills.push(ev), fv + traded * p);
        } else {
        }
    }
}

/// When the bucket at the best ask is empty, the ask mark may advance
/// one tick towards a bid taker's limit.
proof fn lemma_advance_bid(m: BookModel, limit: u64)
    requires
        wf_model(m),
        m.min_ask <= limit < MAX_PRICE,
        m.queues[m.min_ask].len() == 0,
    ensures
        wf_model(BookModel { min_ask: m.min_ask + 1, ..m }),
{
    let m2 = BookModel { min_ask: m.min_ask + 1, ..m };
    assert forall|p: int, i: int|
        0 <= p < m2.queues.len() && 0 <= i < m2.queues[p].len() implies #[trigger] order_slot_ok(
        m2,
        p,
        i,
    ) by {
        assert(order_slot_ok(m, p, i));
        assert(p != m.min_ask);
    }
    assert(ids_unique(m2)) by {
        assert(m2.queues == m.queues);
    }
    assert(ids_live(m2)) by {
        assert(m2.queues == m.queues && m2.ids == m.ids);
    }
}

/// When the bucket at the best bid is empty, the bid mark may advance
/// one tick towards an ask taker's limit.
proof fn lemma_advance_ask(m: BookModel, limit: u64)
    requires
        wf_model(m),
        1 <= limit <= m.max_bid,
        m.queues[m.max_bid].len() == 0,
    ensures
        wf_model(BookModel { max_bid: m.max_bid - 1, ..m }),
{
    let m2 = BookModel { max_bid: m.max_bid - 1, ..m };
    assert forall|p: int, i: int|
        0 <= p < m2.queues.len() && 0 <= i < m2.queues[p].len() implies #[trigger] order_slot_ok(
        m2,
        p,
        i,
    ) by {
        assert(order_slot_ok(m, p, i));
        assert(p != m.max_bid);
    }
    assert(ids_unique(m2)) by {
        assert(m2.queues == m.queues);
    }
    assert(ids_live(m2)) by {
        assert(m2.queues == m.queues && m2.ids == m.ids);
    }
}

/// A partial fill shrinks the head of a queue without changing its
/// identity; the book stays well formed.
proof fn lemma_shrink_head(m: BookModel, p: int, v: u64)
    requires
        wf_model(m),
        0 <= p < m.queues.len(),
        m.queues[p].len() > 0,
        0 < v <= m.queues[p][0].volume,
    ensures
        wf_model(
            BookModel {
                queues: m.queues.update(
                    p,
                    m.queues[p].update(0, StandingOrder { volume: v, ..m.queues[p][0] }),
                ),
                ..m
            },
        ),
{
    let shrunk = StandingOrder { volume: v, ..m.queues[p][0] };
    let m2 = BookModel { queues: m.queues.update(p, m.queues[p].update(0, shrunk)), ..m };
    assert(order_slot_ok(m, p, 0));
    assert forall|pp: int, ii: int|
        0 <= pp < m2.queues.len() && 0 <= ii < m2.queues[pp].len() implies #[trigger] order_slot_ok(
        m2,
        pp,
        ii,
    ) by {
        assert(order_slot_ok(m, pp, ii));
        assert(m2.queues[pp][ii].id == m.queues[pp][ii].id);
    }
    assert forall|p1: int, i1: int, p2: int, i2: int|
        0 <= p1 < m2.queues.len() && 0 <= i1 < m2.queues[p1].len() && 0 <= p2 < m2.queues.len() && 0
            <= i2 < m2.queues[p2].len() && (p1 != p2 || i1 != i2) implies m2.queues[p1][i1].id
        != m2.queues[p2][i2].id by {
        assert(m2.queues[p1][i1].id == m.queues[p1][i1].id);
        assert(m2.queues[p2][i2].id == m.queues[p2][i2].id);
        assert(m.queues[p1][i1].id != m.queues[p2][i2].id);
    }
    assert forall|k: u64| #[trigger] m2.ids.contains_key(k) implies {
        let pk = m2.ids[k] as int;
        &&& 0 <= pk < m2.queues.len()
        &&& exists|i: int| 0 <= i < m2.queues[pk].len() && #[trigger] m2.queues[pk][i].id == k
    } by {
        assert(m.ids.contains_key(k));
        let pk = m.ids[k] as int;
        let iw = choose|i: int| 0 <= i < m.queues[pk].len() && #[trigger] m.queues[pk][i].id == k;
        assert(m2.queues[pk][iw].id == k);
    }
}

/// Resting a fresh order at its limit, tightening the same-side best
/// mark, keeps the book well formed. The order must not cross: an ask
/// rests strictly above the best bid and a bid strictly below the best
/// ask.
proof fn lemma_rest(m: BookModel, o: StandingOrder)
    requires
        wf_model(m),
        !m.ids.contains_key(o.id),
        0 < o.volume <= MAX_ORDER_VOLUME,
        o.limit < MAX_PRICE,
        o.side == OrderSide::ASK ==> m.max_bid < o.limit,
        o.side == OrderSide::BID ==> o.limit < m.min_ask,
    ensures
        wf_model(
            BookModel {
                queues: m.queues.update(o.limit as int, m.queues[o.limit as int].push(o)),
                ids: m.ids.insert(o.id, o.limit),
                min_ask: if o.side == OrderSide::ASK && o.limit < m.min_ask {
                    o.limit as int
                } else {
                    m.min_ask
                },
                max_bid: if o.side == OrderSide::BID && o.limit > m.max_bid {
                    o.limit as int
                } else {
                    m.max_bid
                },
            },
        ),
{
    let pl = o.limit as int;
    let m2 = BookModel {
        queues: m.queues.update(pl, m.queues[pl].push(o)),
        ids: m.ids.insert(o.id, o.limit),
        min_ask: if o.side == OrderSide::ASK && o.limit < m.min_ask {
            o.limit as int
        } else {
            m.min_ask
        },
        max_bid: if o.side == OrderSide::BID && o.limit > m.max_bid {
            o.limit as int
        } else {
            m.max_bid
        },
    };
    let nl = m.queues[pl].len() as int;
    assert forall|pp: int, ii: int|
        0 <= pp < m2.queues.len() && 0 <= ii < m2.queues[pp].len() implies #[trigger] order_slot_ok(
        m2,
        pp,
        ii,
    ) by {
        if pp == pl && ii == nl {
            assert(m2.queues[pp][ii] == o);
        } else {
            assert(m2.queues[pp][ii] == m.queues[pp][ii]);
            assert(order_slot_ok(m, pp, ii));
            assert(m.queues[pp][ii].id != o.id);
        }
    }
    assert forall|p1: int, i1: int, p2: int, i2: int|
        0 <= p1 < m2.queues.len() && 0 <= i1 < m2.queues[p1].len() && 0 <= p2 < m2.queues.len() && 0
            <= i2 < m2.queues[p2].len() && (p1 != p2 || i1 != i2) implies m2.queues[p1][i1].id
        != m2.queues[p2][i2].id by {
        if p1 == pl && i1 == nl {
            assert(order_slot_ok(m, p2, i2));
            assert(m.queues[p2][i2].id != o.id);
        } else if p2 == pl && i2 == nl {
            assert(order_slot_ok(m, p1, i1));
            assert(m.queues[p1][i1].id != o.id);
        } else {
            assert(m2.queues[p1][i1].id == m.queues[p1][i1].id);
            assert(m2.queues[p2][i2].id == m.queues[p2][i2].id);
            assert(m.queues[p1][i1].id != m.queues[p2][i2].id);
        }
    }
    assert forall|k: u64| #[trigger] m2.ids.contains_key(k) implies {
        let pk = m2.ids[k] as int;
        &&& 0 <= pk < m2.queues.len()
        &&& exists|i: int| 0 <= i < m2.queues[pk].len() && #[trigger] m2.queues[pk][i].id == k
    } by {
        if k == o.id {
            assert(m2.queues[pl][nl].id == k);
        } else {
            assert(m.ids.contains_key(k));
            let pk = m.ids[k] as int;
            let iw = choose|i: int|
                0 <= i < m.queues[pk].len() && #[trigger] m.queues[pk][i].id == k;
            assert(m2.queues[pk][iw].id == k);
        }
    }
}

/// Total volume resting in one queue.
pub open spec fn queue_volume(q: Seq<StandingOrder>) -> int
    decreases q.len(),
{
    if q.len() == 0 {
        0
    } else {
        q[0].volume + queue_volume(q.subrange(1, q.len() as int))
    }
}

/// Total volume resting on the first `n` ticks of a ladder.
pub open spec fn ladder_volume_upto(qs: Seq<Seq<StandingOrder>>, n: int) -> int
    decreases n,
{
    if n <= 0 {
        0
    } else {
        ladder_volume_upto(qs, n - 1) + queue_volume(qs[n - 1])
    }
}

/// Total volume resting anywhere in the book.
pub open spec fn book_volume(m: BookModel) -> int {
    ladder_volume_upto(m.queues, m.queues.len() as int)
}

/// Total volume reported by a sequence of fill events.
pub open spec fn fills_volume(evs: Seq<MatchingEngineEvent>) -> int
    decreases evs.len(),
{
    if evs.len() == 0 {
        0
    } else {
        (match evs[0] {
            MatchingEngineEvent::Filled(_, v, _) => v as int,
            MatchingEngineEvent::Canceled(_) => 0,
        }) + fills_volume(evs.subrange(1, evs.len() as int))
    }
}

proof fn lemma_fills_volume_push(evs: Seq<MatchingEngineEvent>, e: MatchingEngineEvent)
    ensures
        fills_volume(evs.push(e)) == fills_volume(evs) + (match e {
            MatchingEngineEvent::Filled(_, v, _) => v as int,
            MatchingEngineEvent::Canceled(_) => 0,
        }),
    decreases evs.len(),
{
    reveal_with_fuel(fills_volume, 2);
    if evs.len() == 0 {
        assert(evs.push(e)[0] == e);
        assert(evs.push(e).subrange(1, 1) =~= Seq::<MatchingEngineEvent>::empty());
    } else {
        assert(evs.push(e)[0] == evs[0]);
        assert(evs.push(e).subrange(1, evs.len() as int + 1) =~= evs.subrange(
            1,
            evs.len() as int,
        ).push(e));
        lemma_fills_volume_push(evs.subrange(1, evs.len() as int), e);
    }
}

proof fn lemma_queue_volume_push(q: Seq<StandingOrder>, o: StandingOrder)
    ensures
        queue_volume(q.push(o)) == queue_volume(q) + o.volume,
    decreases q.len(),
{
    reveal_with_fuel(queue_volume, 2);
    if q.len() == 0 {
        assert(q.push(o)[0] == o);
        assert(q.push(o).subrange(1, 1) =~= Seq::<StandingOrder>::empty());
    } else {
        assert(q.push(o)[0] == q[0]);
        assert(q.push(o).subrange(1, q.len() as int + 1) =~= q.subrange(1, q.len() as int).push(o));
        lemma_queue_volume_push(q.subrange(1, q.len() as int), o);
    }
}

proof fn lemma_queue_volume_remove(q: Seq<StandingOrder>, i: int)
    requires
        0 <= i < q.len(),
    ensures
        queue_volume(q.remove(i)) == queue_volume(q) - q[i].volume,
    decreases q.len(),
{
    if i == 0 {
        assert(q.remove(0) =~= q.subrange(1, q.len() as int));
    } else {
        assert(q.remove(i)[0] == q[0]);
        assert(q.remove(i).subrange(1, q.len() as int - 1) =~= q.subrange(1, q.len() as int).remove(
            i - 1,
        ));
        lemma_queue_volume_remove(q.subrange(1, q.len() as int), i - 1);
    }
}

proof fn lemma_queue_volume_update0(q: Seq<StandingOrder>, o: StandingOrder)
    requires
        q.len() > 0,
    ensures
        queue_volume(q.update(0, o)) == queue_volume(q) - q[0].volume + o.volume,
{
    assert(q.update(0, o)[0] == o);
    assert(q.update(0, o).subrange(1, q.len() as int) =~= q.subrange(1, q.len() as int));
}

proof fn lemma_ladder_volume_update(qs: Seq<Seq<StandingOrder>>, p: int, nq: Seq<StandingOrder>, n: int)
    requires
        0 <= p < n <= qs.len(),
    ensures
        ladder_volume_upto(qs.update(p, nq), n) == ladder_volume_upto(qs, n) - queue_volume(qs[p])
            + queue_volume(nq),
    decreases n,
{
    if n - 1 == p {
        assert(forall|k: int| 0 <= k < p ==> qs.update(p, nq)[k] == qs[k]);
        lemma_ladder_volume_same(qs.update(p, nq), qs, p);
    } else {
        assert(qs.update(p, nq)[n - 1] == qs[n - 1]);
        lemma_ladder_volume_update(qs, p, nq, n - 1);
    }
}

proof fn lemma_ladder_volume_same(qs1: Seq<Seq<StandingOrder>>, qs2: Seq<Seq<StandingOrder>>, n: int)
    requires
        forall|k: int| 0 <= k < n ==> qs1[k] == qs2[k],
    ensures
        ladder_volume_upto(qs1, n) == ladder_volume_upto(qs2, n),
    decreases n,
{
    if n > 0 {
        lemma_ladder_volume_same(qs1, qs2, n - 1);
    }
}

/// The matching scan conserves volume: whatever the fill events report
/// as traded is exactly what left the book, and exactly what the taker
/// got filled.
pub proof fn lemma_spec_match_conserves(
    m: BookModel,
    side: OrderSide,
    limit: u64,
    q: int,
    fills: Seq<MatchingEngineEvent>,
    fv: int,
)
    requires
        m.queues.len() == MAX_PRICE,
        0 <= m.max_bid < MAX_PRICE,
        side == OrderSide::BID ==> 0 <= m.min_ask,
        limit < MAX_PRICE,
        0 <= q,
    ensures
        ({
            let r = spec_match(m, side, limit, q, fills, fv);
            &&& r.book.queues.len() == m.queues.len()
            &&& book_volume(r.book) == book_volume(m) - (q - r.remaining)
            &&& fills_volume(r.fills) == fills_volume(fills) + (q - r.remaining)
        }),
    decreases price_measure(m, side, limit), best_queue_len(m, side), q,
{
    let p = opposite_best(m, side);
    if q <= 0 {
    } else if (side == OrderSide::BID && p > limit) || (side == OrderSide::ASK && p < limit) {
    } else if !(0 <= p < m.queues.len()) {
    } else if m.queues[p].len() == 0 {
        if side == OrderSide::BID {
            lemma_spec_match_conserves(
                BookModel { min_ask: m.min_ask + 1, ..m },
                side,
                limit,
                q,
                fills,
                fv,
            );
        } else if p == 0 {
        } else {
            lemma_spec_match_conserves(
                BookModel { max_bid: m.max_bid - 1, ..m },
                side,
                limit,
                q,
                fills,
                fv,
            );
        }
    } else {
        let maker = m.queues[p][0];
        if maker.volume <= q {
            let traded = maker.volume as int;
            let ev = MatchingEngineEvent::Filled(maker.id, maker.volume, (traded * p) as u64);
            let m2 = BookModel {
                queues: m.queues.update(p, m.queues[p].subrange(1, m.queues[p].len() as int)),
                ids: m.ids.remove(maker.id),
                ..m
            };
            assert(m.queues[p].subrange(1, m.queues[p].len() as int) =~= m.queues[p].remove(0));
            lemma_queue_volume_remove(m.queues[p], 0);
            lemma_ladder_volume_update(
                m.queues,
                p,
                m.queues[p].subrange(1, m.queues[p].len() as int),
                m.queues.len() as int,
            );
            lemma_fills_volume_push(fills, ev);
            lemma_spec_match_conserves(m2, side, limit, q - traded, fills.push(ev), fv + traded * p);
        } else {
            let ev = MatchingEngineEvent::Filled(maker.id, q as u64, (q * p) as u64);
            let shrunk = StandingOrder { volume: (maker.volume - q) as u64, ..maker };
            lemma_queue_volume_update0(m.queues[p], shrunk);
            lemma_ladder_volume_update(
                m.queues,
                p,
                m.queues[p].update(0, shrunk),
                m.queues.len() as int,
            );
            lemma_fills_volume_push(fills, ev);
        }
    }
}

/// Law: admitting one order conserves volume. The volume that comes in
/// with the command is afterwards accounted for exactly once as book
/// volume or as event volume, counting the maker events on one side
/// and the aggregated taker event on the other.
pub proof fn lemma_insert_conservation(m: BookModel, trade: TradeCommand)
    requires
        wf_model(m),
        trade.limit < MAX_PRICE,
        0 < trade.volume,
        trade.side == OrderSide::ASK ==> trade.limit >= 1,
    ensures
        ({
            let r = spec_insert(m, trade);
            book_volume(r.book) + fills_volume(r.events) == book_volume(m) + trade.volume
        }),
{
    let r = spec_match(m, trade.side, trade.limit, trade.volume as int, Seq::empty(), 0);
    lemma_spec_match_conserves(m, trade.side, trade.limit, trade.volume as int, Seq::empty(), 0);
    lemma_spec_match_exit(m, trade.side, trade.limit, trade.volume as int, Seq::empty(), 0);
    let filled = trade.volume - r.remaining;
    if filled > 0 {
        lemma_fills_volume_push(
            r.fills,
            MatchingEngineEvent::Filled(trade.id, filled as u64, r.filled_value as u64),
        );
    }
    if r.remaining > 0 {
        let rest = StandingOrder {
            limit: trade.limit,
            volume: r.remaining as u64,
            side: trade.side,
            id: trade.id,
            participant_id: trade.participant_id,
        };
        lemma_queue_volume_push(r.book.queues[trade.limit as int], rest);
        lemma_ladder_volume_update(
            r.book.queues,
            trade.limit as int,
            r.book.queues[trade.limit as int].push(rest),
            r.book.queues.len() as int,
        );
    }
}

/// The matching scan leaves a well-formed book and never invents live
/// ids.
pub proof fn lemma_spec_match_wf(
    m: BookModel,
    side: OrderSide,
    limit: u64,
    q: int,
    fills: Seq<MatchingEngineEvent>,
    fv: int,
)
    requires
        wf_model(m),
        limit < MAX_PRICE,
        side == OrderSide::ASK ==> 1 <= limit,
        0 <= q,
    ensures
        ({
            let r = spec_match(m, side, limit, q, fills, fv);
            &&& wf_model(r.book)
            &&& forall|k: u64|
                r.book.ids.contains_key(k) ==> #[trigger] m.ids.contains_key(k)
        }),
    decreases price_measure(m, side, limit), best_queue_len(m, side), q,
{
    let p = opposite_best(m, side);
    if q <= 0 {
    } else if (side == OrderSide::BID && p > limit) || (side == OrderSide::ASK && p < limit) {
    } else if !(0 <= p < m.queues.len()) {
    } else if m.queues[p].len() == 0 {
        if side == OrderSide::BID {
            lemma_advance_bid(m, limit);
            let ma = BookModel { min_ask: m.min_ask + 1, ..m };
            lemma_spec_match_wf(ma, side, limit, q, fills, fv);
            let r = spec_match(m, side, limit, q, fills, fv);
            assert forall|k: u64| r.book.ids.contains_key(k) implies m.ids.contains_key(k) by {
                assert(ma.ids.contains_key(k));
            }
        } else if p == 0 {
        } else {
            lemma_advance_ask(m, limit);
            let ma = BookModel { max_bid: m.max_bid - 1, ..m };
            lemma_spec_match_wf(ma, side, limit, q, fills, fv);
            let r = spec_match(m, side, limit, q, fills, fv);
            assert forall|k: u64| r.book.ids.contains_key(k) implies m.ids.contains_key(k) by {
                assert(ma.ids.contains_key(k));
            }
        }
    } else {
        let maker = m.queues[p][0];
        if maker.volume <= q {
            let traded = maker.volume as int;
            let ev = MatchingEngineEvent::Filled(maker.id, maker.volume, (traded * p) as u64);
            let m2 = BookModel {
                queues: m.queues.update(p, m.queues[p].subrange(1, m.queues[p].len() as int)),
                ids: m.ids.remove(maker.id),
                ..m
            };
            assert(m.queues[p].subrange(1, m.queues[p].len() as int) =~= m.queues[p].remove(0));
            lemma_remove_slot(m, p, 0);
            lemma_spec_match_wf(m2, side, limit, q - traded, fills.push(ev), fv + traded * p);
            let r = spec_match(m, side, limit, q, fills, fv);
            assert forall|k: u64| r.book.ids.contains_key(k) implies m.ids.contains_key(k) by {
                assert(m2.ids.contains_key(k));
            }
        } else {
            let shrunk = StandingOrder { volume: (maker.volume - q) as u64, ..maker };
            lemma_shrink_head(m, p, (maker.volume - q) as u64);
        }
    }
}

/// Admitting an order through `spec_insert` leaves a well-formed book.
pub proof fn lemma_insert_wf(m: BookModel, trade: TradeCommand)
    requires
        wf_model(m),
        trade.limit < MAX_PRICE,
        0 < trade.volume <= MAX_ORDER_VOLUME,
        trade.side == OrderSide::ASK ==> trade.limit >= 1,
        !m.ids.contains_key(trade.id),
    ensures
        wf_model(spec_insert(m, trade).book),
{
    let r = spec_match(m, trade.side, trade.limit, trade.volume as int, Seq::empty(), 0);
    lemma_spec_match_wf(m, trade.side, trade.limit, trade.volume as int, Seq::empty(), 0);
    lemma_spec_match_exit(m, trade.side, trade.limit, trade.volume as int, Seq::empty(), 0);
    if r.remaining > 0 {
        let rest = StandingOrder {
            limit: trade.limit,
            volume: r.remaining as u64,
            side: trade.side,
            id: trade.id,
            participant_id: trade.participant_id,
        };
        lemma_rest(r.book, rest);
    }
}

/// Cancelling through `spec_cancel` leaves a well-formed book.
pub proof fn lemma_cancel_wf(m: BookModel, id: u64)
    requires
        wf_model(m),
    ensures
        wf_model(spec_cancel(m, id)),
{
    if m.ids.contains_key(id) {
        let p = m.ids[id] as int;
        let i = choose|i: int| 0 <= i < m.queues[p].len() && #[trigger] m.queues[p][i].id == id;
        assert(m.queues[p][i].id == id);
        assert(order_slot_ok(m, p, i));
        lemma_remove_slot(m, p, i);
    }
}

/// The volume reported by two event batches together is the sum of
/// what each reports.
pub proof fn lemma_fills_volume_concat(a: Seq<MatchingEngineEvent>, b: Seq<MatchingEngineEvent>)
    ensures
        fills_volume(a + b) == fills_volume(a) + fills_volume(b),
    decreases a.len(),
{
    reveal_with_fuel(fills_volume, 2);
    if a.len() == 0 {
        assert(a + b =~= b);
    } else {
        assert((a + b)[0] == a[0]);
        assert((a + b).subrange(1, (a + b).len() as int) =~= a.subrange(1, a.len() as int) + b);
        lemma_fills_volume_concat(a.subrange(1, a.len() as int), b);
    }
}

/// Law: no crossed book. In every well-formed book — and every book
/// operation here both assumes and re-establishes well-formedness —
/// the best bid sits strictly below the best ask.
pub proof fn lemma_no_crossed_book(m: BookModel)
    requires
        wf_model(m),
    ensures
        m.max_bid < m.min_ask,
{
}

/// Law: time priority. Whenever a bid arrives whose size equals what
/// the oldest ask at the best price still carries, exactly that ask
/// fills, whole; every younger order at the same price — and the rest
/// of the book — is left untouched, only shifted up the queue.
pub proof fn lemma_time_priority(m: BookModel, limit: u64, q: u64)
    requires
        wf_model(m),
        0 <= m.min_ask <= limit < MAX_PRICE,
        m.queues[m.min_ask].len() > 0,
        q == m.queues[m.min_ask][0].volume,
    ensures
        ({
            let p = m.min_ask;
            let head = m.queues[p][0];
            let r = spec_match(m, OrderSide::BID, limit, q as int, Seq::empty(), 0);
            &&& r.remaining == 0
            &&& r.fills =~= seq![
                MatchingEngineEvent::Filled(head.id, head.volume, (head.volume * p) as u64),
            ]
            &&& r.book.queues[p] == m.queues[p].subrange(1, m.queues[p].len() as int)
            &&& forall|pp: int| 0 <= pp < MAX_PRICE && pp != p ==> r.book.queues[pp] == m.queues[pp]
        }),
{
    let p = m.min_ask;
    let head = m.queues[p][0];
    assert(order_slot_ok(m, p, 0));
    let ev = MatchingEngineEvent::Filled(head.id, head.volume, ((head.volume as int) * p) as u64);
    let m2 = BookModel {
        queues: m.queues.update(p, m.queues[p].subrange(1, m.queues[p].len() as int)),
        ids: m.ids.remove(head.id),
        ..m
    };
    let r = spec_match(m, OrderSide::BID, limit, q as int, Seq::empty(), 0);
    assert(r == spec_match(m2, OrderSide::BID, limit, 0, Seq::empty().push(ev), (head.volume as int) * p));
    assert(r.fills =~= seq![ev]);
}

/// The remaining volume of the live order with this id, or 0 when the
/// id is not live.
pub open spec fn live_order_volume(m: BookModel, id: u64) -> int {
    if m.ids.contains_key(id) && 0 <= m.ids[id] < m.queues.len() {
        let p = m.ids[id] as int;
        if exists|i: int| 0 <= i < m.queues[p].len() && #[trigger] m.queues[p][i].id == id {
            let i = choose|i: int| 0 <= i < m.queues[p].len() && #[trigger] m.queues[p][i].id == id;
            m.queues[p][i].volume as int
        } else {
            0
        }
    } else {
        0
    }
}

/// Law: a cancel takes exactly the cancelled order's remaining volume
/// out of the book and emits nothing.
pub proof fn lemma_cancel_conservation(m: BookModel, id: u64)
    requires
        wf_model(m),
    ensures
        book_volume(spec_cancel(m, id)) == book_volume(m) - live_order_volume(m, id),
{
    if m.ids.contains_key(id) {
        let p = m.ids[id] as int;
        let i = choose|i: int| 0 <= i < m.queues[p].len() && #[trigger] m.queues[p][i].id == id;
        lemma_queue_volume_remove(m.queues[p], i);
        lemma_ladder_volume_update(m.queues, p, m.queues[p].remove(i), m.queues.len() as int);
    }
}

/// Law: cancelling is idempotent. Cancelling the same id twice leaves
/// exactly the book that one cancel leaves, because the first cancel
/// removes the id from the index and an unknown id is a no-op.
pub proof fn lemma_cancel_idempotent(m: BookModel, id: u64)
    ensures
        spec_cancel(spec_cancel(m, id), id) == spec_cancel(m, id),
{
    let m1 = spec_cancel(m, id);
    if m.ids.contains_key(id) {
        assert(!m1.ids.contains_key(id));
    }
}

/// A book with every tick empty and the best marks at their sentinels.
pub open spec fn empty_book_model() -> BookModel {
    BookModel {
        queues: Seq::new(MAX_PRICE as nat, |p: int| Seq::empty()),
        ids: Map::empty(),
        min_ask: MAX_PRICE as int,
        max_bid: 0,
    }
}

/// A limit order book for one symbol.
pub struct OrderBook {
    /// Symbol which is traded here.
    pub symbol_id: usize,
    /// Maximum price allowed on this orderbook.
    pub max_price: u64,
    /// Lowest tick an ask may rest at; `MAX_PRICE` when no asks exist.
    pub min_ask_price: u64,
    /// Highest tick a bid may rest at; 0 when no bids exist.
    pub max_bid_price: u64,
    /// Finds each live order's tick by its id.
    pub order_map: HashMap<u64, u64>,
    /// Next order id handed out by `increment_id`.
    pub highest_id: u64,
    /// One bucket per tick, addressable by price.
    pub bucket_array: Vec<OrderBucket>,
    pub settings: ExchangeSettings,
}

impl OrderBook {
    /// The abstract state of the book.
    pub open spec fn model(&self) -> BookModel {
        BookModel {
            queues: self.bucket_array@.map_values(|b: OrderBucket| b.queue@),
            ids: self.order_map@,
            min_ask: self.min_ask_price as int,
            max_bid: self.max_bid_price as int,
        }
    }

    /// Representation invariant: the ladder has one bucket per tick and
    /// each bucket carries its own tick as price.
    pub open spec fn rep_ok(&self) -> bool {
        &&& self.bucket_array@.len() == MAX_PRICE
        &&& self.max_price == MAX_PRICE
        &&& forall|p: int| 0 <= p < MAX_PRICE ==> #[trigger] self.bucket_array@[p].price == p
    }

    /// The book is well formed: representation and model agree and the
    /// model satisfies the book invariants.
    pub open spec fn wf(&self) -> bool {
        &&& self.rep_ok()
        &&& wf_model(self.model())
        &&& self.model().min_ask == self.min_ask_price as int
        &&& self.model().max_bid == self.max_bid_price as int
    }

    /// An empty book for `symbol_id`.
    pub fn new(symbol_id: usize, settings: ExchangeSettings) -> (r: OrderBook)
        ensures
            r.wf(),
            r.model() == empty_book_model(),
            r.spec_highest_id() == 0,
            r.symbol_id == symbol_id,
            r.settings == settings,
    {
        let mut bucket_array: Vec<OrderBucket> = Vec::new();
        let mut price: u64 = 0;
        while price < MAX_PRICE
            invariant
                price <= MAX_PRICE,
                bucket_array@.len() == price,
                forall|p: int|
                    #![trigger bucket_array@[p]]
                    0 <= p < price ==> bucket_array@[p].price == p && bucket_array@[p].queue@.len()
                        == 0,
            decreases MAX_PRICE - price,
        {
            bucket_array.push(OrderBucket::new(price));
            price = price + 1;
        }
        let r = OrderBook {
            symbol_id,
            max_price: MAX_PRICE,
            min_ask_price: MAX_PRICE,
            max_bid_price: 0,
            order_map: HashMap::new(),
            highest_id: 0,
            bucket_array,
            settings,
        };
        proof {
            assert forall|p: int| 0 <= p < MAX_PRICE implies r.model().queues[p]
                == empty_book_model().queues[p] by {
                assert(r.model().queues[p] == r.bucket_array@[p].queue@);
                assert(r.bucket_array@[p].queue@ =~= Seq::<StandingOrder>::empty());
                assert(empty_book_model().queues[p] =~= Seq::<StandingOrder>::empty());
            }
            assert(r.model().queues =~= empty_book_model().queues);
            assert(r.model() =~~= empty_book_model());
            assert forall|p: int, i: int|
                0 <= p < r.model().queues.len() && 0 <= i < r.model().queues[p].len() implies #[trigger] order_slot_ok(
                r.model(),
                p,
                i,
            ) by {
                assert(r.model().queues[p].len() == 0);
            }
        }
        r
    }

    /// Whether an order with this id currently rests in the book.
    pub fn order_is_live(&self, id: u64) -> (r: bool)
        requires
            self.wf(),
        ensures
            r == self.model().ids.contains_key(id),
    {
        self.order_map.contains_key(&id)
    }

    /// Try to instantly match an incoming order against resting
    /// liquidity on the opposite side, consuming heads first (time
    /// priority) from the best opposite price inward (price priority).
    /// Publishes one fill event per maker match and, if anything
    /// crossed, one aggregated fill event for the taker. On return the
    /// order's volume is what did not cross.
    fn match_order(&mut self, con_tx: &mut Vec<Message>, order: &mut StandingOrder)
        requires
            old(self).wf(),
            old(order).limit < MAX_PRICE,
            old(order).volume <= MAX_ORDER_VOLUME,
            old(order).side == OrderSide::ASK ==> old(order).limit >= 1,
        ensures
            final(self).wf(),
            ({
                let r = spec_match(
                    old(self).model(),
                    old(order).side,
                    old(order).limit,
                    old(order).volume as int,
                    Seq::empty(),
                    0,
                );
                let filled = old(order).volume - r.remaining;
                let events = if filled > 0 {
                    r.fills.push(
                        MatchingEngineEvent::Filled(
                            old(order).id,
                            filled as u64,
                            r.filled_value as u64,
                        ),
                    )
                } else {
                    r.fills
                };
                &&& final(self).model() == r.book
                &&& *final(order) == (StandingOrder { volume: r.remaining as u64, ..*old(order) })
                &&& msgs_extended(old(con_tx)@, final(con_tx)@, events)
            }),
            forall|k: u64|
                final(self).model().ids.contains_key(k) ==> old(self).model().ids.contains_key(k),
            final(self).spec_highest_id() == old(self).spec_highest_id(),
    {
        let ghost m0 = self.model();
        let ghost side = order.side;
        let ghost limit0 = order.limit;
        let ghost v0 = order.volume;
        let ghost msgs0 = con_tx@;
        let ghost mut fills: Seq<MatchingEngineEvent> = Seq::empty();
        let mut filled_value: u64 = 0;
        let original_volume = order.volume;
        while order.volume > 0
            invariant
                self.wf(),
                order.side == side,
                order.limit == limit0,
                order.id == old(order).id,
                order.participant_id == old(order).participant_id,
                limit0 < MAX_PRICE,
                side == OrderSide::ASK ==> limit0 >= 1,
                order.volume <= v0,
                v0 <= MAX_ORDER_VOLUME,
                original_volume == v0,
                filled_value as int <= (v0 - order.volume) * (MAX_PRICE - 1),
                msgs_extended(msgs0, con_tx@, fills),
                spec_match(m0, side, limit0, v0 as int, Seq::empty(), 0) == spec_match(
                    self.model(),
                    side,
                    limit0,
                    order.volume as int,
                    fills,
                    filled_value as int,
                ),
                forall|k: u64|
                    self.model().ids.contains_key(k) ==> #[trigger] m0.ids.contains_key(k),
                self.spec_highest_id() == old(self).spec_highest_id(),
                m0 == old(self).model(),
                msgs0 == old(con_tx)@,
            ensures
                self.wf(),
                order.side == side && order.limit == limit0 && order.id == old(order).id
                    && order.participant_id == old(order).participant_id,
                msgs_extended(msgs0, con_tx@, fills),
                spec_match(m0, side, limit0, v0 as int, Seq::empty(), 0) == (MatchResult {
                    book: self.model(),
                    fills: fills,
                    remaining: order.volume as int,
                    filled_value: filled_value as int,
                }),
                order.volume <= v0,
                forall|k: u64|
                    self.model().ids.contains_key(k) ==> #[trigger] m0.ids.contains_key(k),
                self.spec_highest_id() == old(self).spec_highest_id(),
            decreases
                    price_measure(self.model(), side, limit0),
                    best_queue_len(self.model(), side),
                    order.volume,
        {
            let best_price: u64 = match order.side {
                OrderSide::ASK => {
                    if self.max_bid_price < order.limit {
                        break ;
                    }
                    self.max_bid_price
                },
                OrderSide::BID => {
                    if self.min_ask_price > order.limit {
                        break ;
                    }
                    self.min_ask_price
                },
            };
            let ghost m_pre = self.model();
            let ghost q_pre = order.volume as int;
            let ghost fills_pre = fills;
            let ghost fv_pre = filled_value as int;
            proof {
                assert(opposite_best(m_pre, side) == best_price as int);
                assert(0 <= best_price < MAX_PRICE);
            }
            let pi = best_price as usize;
            if self.bucket_array[pi].is_empty() {
                // The best mark points at an exhausted bucket (a lazy
                // cancel may leave one): advance one tick toward the
                // taker's limit and look again.
                match order.side {
                    OrderSide::ASK => {
                        self.max_bid_price = self.max_bid_price - 1;
                    },
                    OrderSide::BID => {
                        self.min_ask_price = self.min_ask_price + 1;
                    },
                }
                proof {
                    if side == OrderSide::BID {
                        lemma_advance_bid(m_pre, limit0);
                        assert(self.model() =~~= (BookModel {
                            min_ask: m_pre.min_ask + 1,
                            ..m_pre
                        }));
                    } else {
                        lemma_advance_ask(m_pre, limit0);
                        assert(self.model() =~~= (BookModel {
                            max_bid: m_pre.max_bid - 1,
                            ..m_pre
                        }));
                    }
                    assert(spec_match(m_pre, side, limit0, q_pre, fills_pre, fv_pre) == spec_match(
                        self.model(),
                        side,
                        limit0,
                        order.volume as int,
                        fills,
                        filled_value as int,
                    ));
                }
            } else {
                // Fill the head of the best bucket: the oldest resting
                // order at the best price trades first.
                let mut maker = self.bucket_array[pi].queue[0];
                proof {
                    assert(m_pre.queues[pi as int] == self.bucket_array@[pi as int].queue@);
                    assert(order_slot_ok(m_pre, pi as int, 0));
                    assert(maker.volume * best_price <= MAX_ORDER_VOLUME * (MAX_PRICE - 1))
                        by (nonlinear_arith)
                        requires
                            maker.volume <= MAX_ORDER_VOLUME,
                            best_price <= MAX_PRICE - 1,
                    ;
                    assert(order.volume * best_price <= MAX_ORDER_VOLUME * (MAX_PRICE - 1))
                        by (nonlinear_arith)
                        requires
                            order.volume <= MAX_ORDER_VOLUME,
                            best_price <= MAX_PRICE - 1,
                    ;
                }
                let traded = maker.fill(order, best_price, con_tx);
                proof {
                    fills = fills.push(
                        MatchingEngineEvent::Filled(
                            maker.id,
                            traded,
                            (traded * best_price as int) as u64,
                        ),
                    );
                }
                if maker.is_filled() {
                    let maker_id = maker.id;
                    let bref = &mut self.bucket_array[pi];
                    bref.pop_front();
                    self.order_map.remove(&maker_id);
                    proof {
                        let m2 = BookModel {
                            queues: m_pre.queues.update(
                                pi as int,
                                m_pre.queues[pi as int].subrange(
                                    1,
                                    m_pre.queues[pi as int].len() as int,
                                ),
                            ),
                            ids: m_pre.ids.remove(maker_id),
                            ..m_pre
                        };
                        assert(m_pre.queues[pi as int].remove(0) =~= m_pre.queues[pi
                            as int].subrange(1, m_pre.queues[pi as int].len() as int));
                        lemma_remove_slot(m_pre, pi as int, 0);
                        assert(self.model().queues =~= m2.queues) by {
                            assert forall|p: int| 0 <= p < MAX_PRICE implies self.model().queues[p]
                                == m2.queues[p] by {
                                assert(self.model().queues[p] == self.bucket_array@[p].queue@);
                            }
                        }
                        assert(self.model() =~~= m2);
                    }
                } else {
                    let bref = &mut self.bucket_array[pi];
                    bref.set_head(maker);
                    proof {
                        let shrunk = StandingOrder {
                            volume: (m_pre.queues[pi as int][0].volume - q_pre) as u64,
                            ..m_pre.queues[pi as int][0]
                        };
                        let m2 = BookModel {
                            queues: m_pre.queues.update(
                                pi as int,
                                m_pre.queues[pi as int].update(0, shrunk),
                            ),
                            ..m_pre
                        };
                        lemma_shrink_head(m_pre, pi as int, maker.volume);
                        assert(self.model().queues =~= m2.queues) by {
                            assert forall|p: int| 0 <= p < MAX_PRICE implies self.model().queues[p]
                                == m2.queues[p] by {
                                assert(self.model().queues[p] == self.bucket_array@[p].queue@);
                            }
                        }
                        assert(self.model() =~~= m2);
                    }
                }
                order.volume = order.volume - traded;
                proof {
                    let mp: int = MAX_PRICE - 1;
                    assert(traded * best_price <= traded * mp) by (nonlinear_arith)
                        requires
                            best_price <= mp,
                            0 <= traded,
                    ;
                    assert(fv_pre + traded * mp <= (v0 - q_pre + traded) * mp) by (nonlinear_arith)
                        requires
                            fv_pre <= (v0 - q_pre) * mp,
                    ;
                    assert(v0 - q_pre + traded == v0 - order.volume);
                    assert((v0 - order.volume) * mp <= v0 * mp) by (nonlinear_arith)
                        requires
                            0 <= order.volume,
                            0 <= mp,
                    ;
                    assert(v0 * mp <= MAX_ORDER_VOLUME * mp) by (nonlinear_arith)
                        requires
                            v0 <= MAX_ORDER_VOLUME,
                            0 <= mp,
                    ;
                    assert(MAX_ORDER_VOLUME * mp <= u64::MAX) by (nonlinear_arith)
                        requires
                            mp == MAX_PRICE - 1,
                    ;
                }
                filled_value = filled_value + traded * best_price;
                proof {
                    assert(spec_match(m_pre, side, limit0, q_pre, fills_pre, fv_pre) == spec_match(
                        self.model(),
                        side,
                        limit0,
                        order.volume as int,
                        fills,
                        filled_value as int,
                    ));
                }
            }
        }
        // Tell the taker how much of it crossed, in one aggregated event.
        if original_volume - order.volume > 0 {
            let ghost fills_done = fills;
            let taker_filled = original_volume - order.volume;
            order.notify(taker_filled, filled_value, con_tx);
            proof {
                fills = fills.push(
                    MatchingEngineEvent::Filled(order.id, taker_filled, filled_value),
                );
                assert(msgs_extended(msgs0, con_tx@, fills)) by {
                    assert(forall|k: int|
                        0 <= k < fills_done.len() ==> risk_event_msg(
                            #[trigger] con_tx@[msgs0.len() + k],
                            fills_done[k],
                        ));
                }
            }
        }
    }

    /// Admit a trade command: match it against the opposite side and
    /// rest whatever did not cross at its limit, tightening the
    /// same-side best mark. The command's id must not be live in this
    /// book, its limit must be on the ladder and its volume positive
    /// and bounded; an ask must rest above tick 0, which the bid
    /// sentinel occupies.
    pub fn insert_order(&mut self, trade: &TradeCommand, con_tx: &mut Vec<Message>)
        requires
            old(self).wf(),
            trade.limit < MAX_PRICE,
            0 < trade.volume <= MAX_ORDER_VOLUME,
            trade.side == OrderSide::ASK ==> trade.limit >= 1,
            !old(self).model().ids.contains_key(trade.id),
        ensures
            final(self).wf(),
            final(self).model() == spec_insert(old(self).model(), *trade).book,
            msgs_extended(old(con_tx)@, final(con_tx)@, spec_insert(old(self).model(), *trade).events),
            final(self).spec_highest_id() == old(self).spec_highest_id(),
    {
        let mut order = StandingOrder::new(
            trade.id,
            trade.participant_id,
            trade.limit,
            trade.volume,
            trade.side,
        );
        let ghost m0 = self.model();
        self.match_order(con_tx, &mut order);
        let ghost r = spec_match(m0, trade.side, trade.limit, trade.volume as int, Seq::empty(), 0);
        proof {
            lemma_spec_match_exit(m0, trade.side, trade.limit, trade.volume as int, Seq::empty(), 0);
        }
        if !order.is_filled() {
            match order.side {
                OrderSide::ASK => {
                    if order.limit < self.min_ask_price {
                        self.min_ask_price = order.limit;
                    }
                },
                OrderSide::BID => {
                    if order.limit > self.max_bid_price {
                        self.max_bid_price = order.limit;
                    }
                },
            }
            let id = order.id;
            let limit = order.limit;
            self.order_map.insert(id, limit);
            let bref = &mut self.bucket_array[limit as usize];
            bref.insert_order(order);
            proof {
                lemma_rest(r.book, order);
                let target = spec_insert(m0, *trade).book;
                assert(self.model().queues =~= target.queues) by {
                    assert forall|p: int| 0 <= p < MAX_PRICE implies self.model().queues[p]
                        == target.queues[p] by {
                        assert(self.model().queues[p] == self.bucket_array@[p].queue@);
                    }
                }
                assert(self.model() =~~= target);
            }
        }
    }

    /// Cancel the order with this id. Unknown ids are a no-op, so a
    /// repeated cancel changes nothing. The best-price marks are not
    /// rescanned; the matching scan corrects them lazily.
    pub fn cancel_order(&mut self, id: u64)
        requires
            old(self).wf(),
        ensures
            final(self).wf(),
            final(self).model() == spec_cancel(old(self).model(), id),
            final(self).spec_highest_id() == old(self).spec_highest_id(),
    {
        let price: u64 = match self.order_map.get(&id) {
            None => {
                return ;
            },
            Some(pr) => *pr,
        };
        let pi = price as usize;
        proof {
            assert(self.model().ids.contains_key(id));
            assert(0 <= price < MAX_PRICE);
        }
        let ghost m = self.model();
        let mut j: usize = 0;
        while j < self.bucket_array[pi].queue.len() && self.bucket_array[pi].queue[j].id != id
            invariant
                *self == *old(self),
                self.wf(),
                0 <= price < MAX_PRICE,
                pi == price as usize,
                j <= self.bucket_array@[pi as int].queue@.len(),
                forall|k: int|
                    0 <= k < j ==> #[trigger] self.bucket_array@[pi as int].queue@[k].id != id,
            decreases self.bucket_array@[pi as int].queue@.len() - j,
        {
            j = j + 1;
        }
        proof {
            let iw = choose|i: int|
                0 <= i < m.queues[pi as int].len() && #[trigger] m.queues[pi as int][i].id == id;
            assert(m.queues[pi as int] == self.bucket_array@[pi as int].queue@);
            assert(j < self.bucket_array@[pi as int].queue@.len() && self.bucket_array@[pi
                as int].queue@[j as int].id == id) by {
                if j == self.bucket_array@[pi as int].queue@.len() {
                    assert(self.bucket_array@[pi as int].queue@[iw].id != id);
                }
            }
        }
        self.order_map.remove(&id);
        let bref = &mut self.bucket_array[pi];
        bref.queue.remove(j);
        proof {
            let m2 = BookModel {
                queues: m.queues.update(pi as int, m.queues[pi as int].remove(j as int)),
                ids: m.ids.remove(id),
                ..m
            };
            assert(self.model().queues =~= m2.queues) by {
                assert forall|p: int| 0 <= p < MAX_PRICE implies self.model().queues[p]
                    == m2.queues[p] by {
                    if p == pi as int {
                        assert(self.model().queues[p] == self.bucket_array@[p].queue@);
                    }
                }
            }
            assert(self.model() =~~= m2);
            lemma_remove_slot(m, pi as int, j as int);
            // The cancelled slot the specification chooses is the one the
            // scan found: ids are unique in a well-formed book.
            let ic = choose|i: int|
                0 <= i < m.queues[pi as int].len() && #[trigger] m.queues[pi as int][i].id == id;
            assert(ic == j as int) by {
                if ic != j as int {
                    assert(m.queues[pi as int][ic].id != m.queues[pi as int][j as int].id);
                }
            }
            assert(spec_cancel(m, id) == m2);
        }
    }

    /// The next order id `increment_id` will hand out.
    pub open spec fn spec_highest_id(&self) -> u64 {
        self.highest_id
    }

    /// Hand out the next order id.
    pub fn increment_id(&mut self) -> (r: u64)
        requires
            old(self).spec_highest_id() < u64::MAX,
        ensures
            r == old(self).spec_highest_id(),
            final(self).spec_highest_id() == old(self).spec_highest_id() + 1,
            final(self).wf() == old(self).wf(),
            final(self).model() == old(self).model(),
    {
        self.highest_id = self.highest_id + 1;
        self.highest_id - 1
    }
}

} // verus!
