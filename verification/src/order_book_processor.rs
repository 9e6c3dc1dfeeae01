//! Drives one order book from a stream of typed commands.
//!
//! The processor is the matcher's decision core: it applies commands in
//! the order received, never reorders, and publishes the resulting fill
//! events. The transport that feeds it commands and carries its events
//! away lives outside the core.

use vstd::prelude::*;
use crate::commands::{OrderCommand, TradeCommand};
use crate::event::MatchingEngineEvent;
use crate::exchange_settings::ExchangeSettings;
use crate::message::{lemma_msgs_extended_trans, msgs_extended, Message};
use crate::order_book::{
    spec_cancel, spec_insert, BookModel, OrderBook, MAX_ORDER_VOLUME, MAX_PRICE,
};
use crate::order_side::OrderSide;

verus! {

/// Whether the matcher admits this trade command: the limit must be on
/// the ladder (an ask above the bid sentinel at tick 0), the volume
/// positive and bounded, and the id not already live in the book.
/// Anything else is dropped with the book unchanged.
pub open spec fn trade_admissible(m: BookModel, t: TradeCommand) -> bool {
    &&& t.limit < MAX_PRICE
    &&& 0 < t.volume <= MAX_ORDER_VOLUME
    &&& (t.side == OrderSide::ASK ==> t.limit >= 1)
    &&& !m.ids.contains_key(t.id)
}

/// What one command does to a book: an admissible trade matches and
/// rests, an inadmissible one is dropped, and a cancel removes its
/// order. Only trades emit events.
pub open spec fn spec_step(m: BookModel, cmd: OrderCommand) -> (BookModel, Seq<
    MatchingEngineEvent,
>) {
    match cmd {
        OrderCommand::Trade(t) => if trade_admissible(m, t) {
            let r = spec_insert(m, t);
            (r.book, r.events)
        } else {
            (m, Seq::empty())
        },
        OrderCommand::Cancel(c) => (spec_cancel(m, c.order_id), Seq::empty()),
    }
}

/// What a whole command stream does to a book, with all events in the
/// order they were published.
pub open spec fn spec_run(m: BookModel, cmds: Seq<OrderCommand>) -> (BookModel, Seq<
    MatchingEngineEvent,
>)
    decreases cmds.len(),
{
    if cmds.len() == 0 {
        (m, Seq::empty())
    } else {
        let (m1, e1) = spec_step(m, cmds[0]);
        let (m2, e2) = spec_run(m1, cmds.subrange(1, cmds.len() as int));
        (m2, e1 + e2)
    }
}

/// The net volume a command stream pushes into a book along a run:
/// each admitted trade adds its volume, each effective cancel takes
/// the cancelled order's remaining volume back out.
pub open spec fn spec_run_intake(m: BookModel, cmds: Seq<OrderCommand>) -> int
    decreases cmds.len(),
{
    if cmds.len() == 0 {
        0
    } else {
        let delta = match cmds[0] {
            OrderCommand::Trade(t) => if trade_admissible(m, t) {
                t.volume as int
            } else {
                0
            },
            OrderCommand::Cancel(c) => -crate::order_book::live_order_volume(m, c.order_id),
        };
        delta + spec_run_intake(spec_step(m, cmds[0]).0, cmds.subrange(1, cmds.len() as int))
    }
}

/// One processor step leaves a well-formed book.
pub proof fn lemma_step_wf(m: BookModel, cmd: OrderCommand)
    requires
        crate::order_book::wf_model(m),
    ensures
        crate::order_book::wf_model(spec_step(m, cmd).0),
{
    match cmd {
        OrderCommand::Trade(t) => {
            if trade_admissible(m, t) {
                crate::order_book::lemma_insert_wf(m, t);
            }
        },
        OrderCommand::Cancel(c) => {
            crate::order_book::lemma_cancel_wf(m, c.order_id);
        },
    }
}

/// Law: a whole run of commands keeps the book well formed, so at
/// every observable point between commands the best bid sits strictly
/// below the best ask — the book is never crossed.
pub proof fn lemma_run_wf(m: BookModel, cmds: Seq<OrderCommand>)
    requires
        crate::order_book::wf_model(m),
    ensures
        crate::order_book::wf_model(spec_run(m, cmds).0),
    decreases cmds.len(),
{
    if cmds.len() > 0 {
        lemma_step_wf(m, cmds[0]);
        lemma_run_wf(spec_step(m, cmds[0]).0, cmds.subrange(1, cmds.len() as int));
    }
}

/// Law: volume is conserved over any closed run of commands. Whatever
/// volume the admitted trades brought in is afterwards accounted for
/// exactly once: still resting in the book, withdrawn by a cancel, or
/// reported by the fill events (maker fills on one side, the
/// aggregated taker fill on the other).
pub proof fn lemma_run_conservation(m: BookModel, cmds: Seq<OrderCommand>)
    requires
        crate::order_book::wf_model(m),
    ensures
        ({
            let (m2, evs) = spec_run(m, cmds);
            crate::order_book::book_volume(m2) + crate::order_book::fills_volume(evs)
                == crate::order_book::book_volume(m) + spec_run_intake(m, cmds)
        }),
    decreases cmds.len(),
{
    if cmds.len() > 0 {
        let (m1, e1) = spec_step(m, cmds[0]);
        let rest = cmds.subrange(1, cmds.len() as int);
        match cmds[0] {
            OrderCommand::Trade(t) => {
                if trade_admissible(m, t) {
                    crate::order_book::lemma_insert_conservation(m, t);
                }
            },
            OrderCommand::Cancel(c) => {
                crate::order_book::lemma_cancel_conservation(m, c.order_id);
            },
        }
        lemma_step_wf(m, cmds[0]);
        lemma_run_conservation(m1, rest);
        crate::order_book::lemma_fills_volume_concat(e1, spec_run(m1, rest).1);
    }
}

/// Owns exactly one order book for one symbol and applies commands to
/// it in arrival order.
pub struct OrderBookProcessor {
    pub symbol_id: usize,
    pub settings: ExchangeSettings,
    /// The one book this processor drives.
    pub book: OrderBook,
}

impl OrderBookProcessor {
    /// The book is well formed.
    pub open spec fn wf(&self) -> bool {
        self.book.wf()
    }

    /// A processor over a fresh, empty book.
    pub fn new(symbol_id: usize, settings: ExchangeSettings) -> (r: OrderBookProcessor)
        ensures
            r.wf(),
            r.book.model() == crate::order_book::empty_book_model(),
            r.book.spec_highest_id() == 0,
            r.symbol_id == symbol_id,
            r.settings == settings,
    {
        let book = OrderBook::new(symbol_id, settings.clone());
        OrderBookProcessor { symbol_id, settings, book }
    }

    /// Apply one command to the book, appending any fill events to
    /// `con_tx`. Inadmissible trades (price off the ladder, zero or
    /// oversized volume, duplicate id) are dropped with the book
    /// unchanged; a cancel of an unknown id is a no-op.
    pub fn process(&mut self, command: &OrderCommand, con_tx: &mut Vec<Message>)
        requires
            old(self).wf(),
        ensures
            final(self).wf(),
            final(self).book.model() == spec_step(old(self).book.model(), *command).0,
            msgs_extended(
                old(con_tx)@,
                final(con_tx)@,
                spec_step(old(self).book.model(), *command).1,
            ),
            final(self).symbol_id == old(self).symbol_id,
            final(self).settings == old(self).settings,
    {
        match command {
            OrderCommand::Trade(trade) => {
                let admissible = trade.limit < MAX_PRICE && 0 < trade.volume && trade.volume
                    <= MAX_ORDER_VOLUME && (match trade.side {
                    OrderSide::ASK => trade.limit >= 1,
                    OrderSide::BID => true,
                }) && !self.book.order_is_live(trade.id);
                if admissible {
                    self.book.insert_order(trade, con_tx);
                }
            },
            OrderCommand::Cancel(cancel) => {
                self.book.cancel_order(cancel.order_id);
            },
        }
    }

    /// Apply a batch of commands in order and return every event they
    /// produced, in publication order.
    pub fn run(&mut self, commands: &Vec<OrderCommand>) -> (out: Vec<Message>)
        requires
            old(self).wf(),
        ensures
            final(self).wf(),
            final(self).book.model() == spec_run(old(self).book.model(), commands@).0,
            msgs_extended(Seq::empty(), out@, spec_run(old(self).book.model(), commands@).1),
    {
        let ghost m0 = self.book.model();
        let mut out: Vec<Message> = Vec::new();
        let ghost mut evs: Seq<MatchingEngineEvent> = Seq::empty();
        let mut i: usize = 0;
        proof {
            assert(commands@.subrange(0, commands@.len() as int) =~= commands@);
            let (mr, er) = spec_run(m0, commands@);
            assert(Seq::<MatchingEngineEvent>::empty() + er =~= er);
        }
        while i < commands.len()
            invariant
                self.wf(),
                i <= commands@.len(),
                msgs_extended(Seq::empty(), out@, evs),
                spec_run(m0, commands@) == (
                    {
                        let (mr, er) = spec_run(
                            self.book.model(),
                            commands@.subrange(i as int, commands@.len() as int),
                        );
                        (mr, evs + er)
                    }
                ),
            decreases commands@.len() - i,
        {
            let ghost m_pre = self.book.model();
            let ghost rest_pre = commands@.subrange(i as int, commands@.len() as int);
            let ghost step = spec_step(m_pre, commands@[i as int]);
            let ghost out_pre = out@;
            self.process(&commands[i], &mut out);
            proof {
                let evs_pre = evs;
                evs = evs + step.1;
                lemma_msgs_extended_trans(Seq::empty(), out_pre, out@, evs_pre, step.1);
                assert(rest_pre[0] == commands@[i as int]);
                assert(rest_pre.subrange(1, rest_pre.len() as int) =~= commands@.subrange(
                    i + 1,
                    commands@.len() as int,
                ));
                let (mr, er) = spec_run(
                    self.book.model(),
                    commands@.subrange(i + 1, commands@.len() as int),
                );
                assert(spec_run(m_pre, rest_pre) == (mr, step.1 + er));
                assert((evs_pre + step.1) + er =~= evs_pre + (step.1 + er));
            }
            i = i + 1;
        }
        proof {
            assert(commands@.subrange(i as int, commands@.len() as int).len() == 0);
            assert(spec_run(
                self.book.model(),
                commands@.subrange(i as int, commands@.len() as int),
            ).1 == Seq::<MatchingEngineEvent>::empty());
            assert(evs + Seq::<MatchingEngineEvent>::empty() == evs);
        }
        out
    }
}

} // verus!
