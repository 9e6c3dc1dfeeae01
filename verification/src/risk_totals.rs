//! Conservation of value across the risk engine.
//!
//! The running total of an asset — everything participants hold plus
//! everything still reserved for open orders — never changes on
//! admission or on a post-trade cancel, and over a matched pair of
//! fill events (the maker's and the taker's leg of one trade) the two
//! shifts cancel out. No command path mints or destroys value.

use vstd::prelude::*;
use crate::asset::AssetId;
use crate::commands::{spec_pessimistic, OrderCommand};
use crate::order_book::{MAX_ORDER_VOLUME, MAX_PRICE};
use crate::order_side::OrderSide;
use crate::risk_engine::{
    canceled_event_ok, fill_event_ok, spec_process_canceled, spec_process_command,
    spec_process_fill, spec_rising, wf_risk, RiskModel,
};
use vstd::set::fold::{lemma_finite_set_induct, lemma_fold_empty, lemma_fold_insert};

verus! {

/// Sum of `f` over all elements of a finite set.
pub open spec fn sum_over<A>(s: Set<A>, f: spec_fn(A) -> int) -> int {
    s.fold(0, |acc: int, x: A| acc + f(x))
}

proof fn lemma_sum_empty<A>(f: spec_fn(A) -> int)
    ensures
        sum_over(Set::<A>::empty(), f) == 0,
{
    lemma_fold_empty(0int, |acc: int, x: A| acc + f(x));
}

proof fn lemma_sum_insert<A>(s: Set<A>, f: spec_fn(A) -> int, x: A)
    requires
        s.finite(),
        !s.contains(x),
    ensures
        sum_over(s.insert(x), f) == sum_over(s, f) + f(x),
{
    lemma_fold_insert(s, 0int, |acc: int, x: A| acc + f(x), x);
}

proof fn lemma_sum_remove<A>(s: Set<A>, f: spec_fn(A) -> int, x: A)
    requires
        s.finite(),
        s.contains(x),
    ensures
        sum_over(s, f) == sum_over(s.remove(x), f) + f(x),
{
    assert(s.remove(x).insert(x) =~= s);
    lemma_sum_insert(s.remove(x), f, x);
}

/// Two summands that agree on every element of the set sum alike.
proof fn lemma_sum_congruent<A>(s: Set<A>, f1: spec_fn(A) -> int, f2: spec_fn(A) -> int)
    requires
        s.finite(),
        forall|x: A| s.contains(x) ==> #[trigger] f1(x) == f2(x),
    ensures
        sum_over(s, f1) == sum_over(s, f2),
{
    let pred = |s2: Set<A>|
        (forall|x: A| s2.contains(x) ==> #[trigger] f1(x) == f2(x)) ==> sum_over(s2, f1)
            == sum_over(s2, f2);
    assert(pred(Set::<A>::empty())) by {
        lemma_sum_empty(f1);
        lemma_sum_empty(f2);
    }
    assert forall|s2: Set<A>, x: A| pred(s2) && s2.finite() && !s2.contains(x) implies #[trigger] pred(
        s2.insert(x),
    ) by {
        if forall|y: A| s2.insert(x).contains(y) ==> #[trigger] f1(y) == f2(y) {
            assert(forall|y: A| s2.contains(y) ==> #[trigger] f1(y) == f2(y));
            lemma_sum_insert(s2, f1, x);
            lemma_sum_insert(s2, f2, x);
            assert(f1(x) == f2(x));
        }
    }
    lemma_finite_set_induct(s, pred);
}

/// Changing the summand at one element shifts the sum by the change
/// at that element.
proof fn lemma_sum_update_one<A>(s: Set<A>, f1: spec_fn(A) -> int, f2: spec_fn(A) -> int, x: A)
    requires
        s.finite(),
        s.contains(x),
        forall|y: A| s.contains(y) && y != x ==> #[trigger] f1(y) == f2(y),
    ensures
        sum_over(s, f1) == sum_over(s, f2) + f1(x) - f2(x),
{
    lemma_sum_remove(s, f1, x);
    lemma_sum_remove(s, f2, x);
    lemma_sum_congruent(s.remove(x), f1, f2);
}

/// A participant's balance in one asset; 0 when it never held it.
pub open spec fn balance_of(assets: Map<AssetId, u64>, a: AssetId) -> int {
    if assets.contains_key(a) {
        assets[a] as int
    } else {
        0
    }
}

/// Everything participants hold of asset `a`.
pub open spec fn balances_total(m: RiskModel, a: AssetId) -> int {
    sum_over(m.participants.dom(), |pid: u64| balance_of(m.participants[pid], a))
}

/// What one recorded order still reserves of asset `a`.
pub open spec fn reservation_of(m: RiskModel, id: u64, a: AssetId) -> int {
    let (pid, sym_id, ord) = m.orders[id];
    let (pa, pv) = spec_pessimistic(ord.side, ord.limit, m.symbols[sym_id as int], ord.volume);
    if pa == a {
        pv as int
    } else {
        0
    }
}

/// Everything still reserved of asset `a` for open orders.
pub open spec fn reservations_total(m: RiskModel, a: AssetId) -> int {
    sum_over(m.orders.dom(), |id: u64| reservation_of(m, id, a))
}

/// The conserved quantity: balances plus outstanding reservations.
pub open spec fn risk_total(m: RiskModel, a: AssetId) -> int {
    balances_total(m, a) + reservations_total(m, a)
}

/// The engine's maps are finite (they are views of hash maps).
pub open spec fn finite_model(m: RiskModel) -> bool {
    m.participants.dom().finite() && m.orders.dom().finite()
}

/// Law: processing a command conserves every asset's total. A rejected
/// command changes nothing; an accepted trade moves the pessimistic
/// cost from the owner's balance into the outstanding reservations.
pub proof fn lemma_process_command_conserves(m: RiskModel, command: OrderCommand, a: AssetId)
    requires
        wf_risk(m),
        finite_model(m),
        match command {
            OrderCommand::Trade(t) => !m.orders.contains_key(t.id) && t.limit < MAX_PRICE && 0
                < t.volume <= MAX_ORDER_VOLUME,
            OrderCommand::Cancel(c) => true,
        },
    ensures
        risk_total(spec_process_command(m, command).0, a) == risk_total(m, a),
{
    let m2 = spec_process_command(m, command).0;
    match command {
        OrderCommand::Trade(t) => {
            if m2 != m {
                let sym = m.symbols[t.symbol as int];
                let (pa, pv) = spec_pessimistic(t.side, t.limit, sym, t.volume);
                let assets = m.participants[t.participant_id];
                // Balances: only the owner's balance in `pa` moved.
                let f1 = |pid: u64| balance_of(m2.participants[pid], a);
                let f2 = |pid: u64| balance_of(m.participants[pid], a);
                assert(m2.participants.dom() =~= m.participants.dom());
                lemma_sum_update_one(m.participants.dom(), f1, f2, t.participant_id);
                // Reservations: one new record, the others unchanged.
                let g1 = |id: u64| reservation_of(m2, id, a);
                let g2 = |id: u64| reservation_of(m, id, a);
                assert(m2.orders.dom() =~= m.orders.dom().insert(t.id));
                lemma_sum_congruent(m.orders.dom(), g1, g2);
                lemma_sum_insert(m.orders.dom(), g1, t.id);
                assert(g1(t.id) == if pa == a {
                    pv as int
                } else {
                    0
                });
                assert(f1(t.participant_id) - f2(t.participant_id) == if pa == a {
                    -(pv as int)
                } else {
                    0
                });
            }
        },
        OrderCommand::Cancel(c) => {
        },
    }
}

/// Law: reconciling a post-trade cancel conserves every asset's total:
/// the refund to the owner's balance is exactly the reservation that
/// the deleted record gave up.
pub proof fn lemma_canceled_event_conserves(m: RiskModel, id: u64, a: AssetId)
    requires
        wf_risk(m),
        finite_model(m),
        canceled_event_ok(m, id),
    ensures
        risk_total(spec_process_canceled(m, id), a) == risk_total(m, a),
{
    let m2 = spec_process_canceled(m, id);
    let (pid, sym_id, ord) = m.orders[id];
    let sym = m.symbols[sym_id as int];
    let (pa, pv) = spec_pessimistic(ord.side, ord.limit, sym, ord.volume);
    let f1 = |p: u64| balance_of(m2.participants[p], a);
    let f2 = |p: u64| balance_of(m.participants[p], a);
    assert(m2.participants.dom() =~= m.participants.dom());
    lemma_sum_update_one(m.participants.dom(), f1, f2, pid);
    let g1 = |i: u64| reservation_of(m2, i, a);
    let g2 = |i: u64| reservation_of(m, i, a);
    assert(m2.orders.dom() =~= m.orders.dom().remove(id));
    lemma_sum_remove(m.orders.dom(), g2, id);
    lemma_sum_congruent(m.orders.dom().remove(id), g1, g2);
    assert(f1(pid) - f2(pid) == if pa == a {
        pv as int
    } else {
        0
    });
}

/// How one fill event shifts an asset's total: the filled side's
/// account rises by what the trade earned and the reservation gives up
/// what the trade actually spent. The shift is `+rv` on the rising
/// asset and `-fall` on the reserved one.
pub proof fn lemma_fill_event_shift(m: RiskModel, id: u64, volume: u64, value: u64, a: AssetId)
    requires
        wf_risk(m),
        finite_model(m),
        fill_event_ok(m, id, volume, value),
    ensures
        ({
            let (pid, sym_id, ord) = m.orders[id];
            let sym = m.symbols[sym_id as int];
            let (pa, pv) = spec_pessimistic(ord.side, ord.limit, sym, volume);
            let (ra, rv, fall) = spec_rising(ord.side, sym, volume, value);
            risk_total(spec_process_fill(m, id, volume, value), a) == risk_total(m, a) + (
            if ra == a {
                rv as int
            } else {
                0
            }) - (
            if pa == a {
                fall as int
            } else {
                0
            })
        }),
{
    let m2 = spec_process_fill(m, id, volume, value);
    let (pid, sym_id, ord) = m.orders[id];
    let sym = m.symbols[sym_id as int];
    let (pa, pv) = spec_pessimistic(ord.side, ord.limit, sym, volume);
    let (ra, rv, fall) = spec_rising(ord.side, sym, volume, value);
    let assets = m.participants[pid];
    let a1 = assets.insert(ra, (assets[ra] + rv) as u64);
    let a2 = a1.insert(pa, (a1[pa] + pv - fall) as u64);
    // The multiplication in a bid's reservation never overflows, so
    // the truncating casts in the model are exact.
    assert(ord.volume * ord.limit <= MAX_ORDER_VOLUME * (MAX_PRICE - 1)) by (nonlinear_arith)
        requires
            ord.volume <= MAX_ORDER_VOLUME,
            ord.limit <= MAX_PRICE - 1,
            0 <= ord.volume,
            0 <= ord.limit,
    ;
    assert(volume * ord.limit <= ord.volume * ord.limit) by (nonlinear_arith)
        requires
            volume <= ord.volume,
            0 <= ord.limit,
    ;
    assert((ord.volume - volume) * ord.limit == ord.volume * ord.limit - volume * ord.limit)
        by (nonlinear_arith);
    assert(MAX_ORDER_VOLUME * (MAX_PRICE - 1) <= u64::MAX) by (nonlinear_arith);
    // Balances: only the owner's row changed.
    let f1 = |p: u64| balance_of(m2.participants[p], a);
    let f2 = |p: u64| balance_of(m.participants[p], a);
    assert(m2.participants.dom() =~= m.participants.dom());
    lemma_sum_update_one(m.participants.dom(), f1, f2, pid);
    assert(f1(pid) - f2(pid) == (if ra == a {
        rv as int
    } else {
        0
    }) + (if pa == a {
        pv - fall
    } else {
        0
    }));
    // Reservations: only this order's record changed (or vanished).
    let g1 = |i: u64| reservation_of(m2, i, a);
    let g2 = |i: u64| reservation_of(m, i, a);
    if ord.volume == volume {
        assert(m2.orders.dom() =~= m.orders.dom().remove(id));
        lemma_sum_remove(m.orders.dom(), g2, id);
        lemma_sum_congruent(m.orders.dom().remove(id), g1, g2);
        assert(g2(id) == if pa == a {
            pv as int
        } else {
            0
        });
    } else {
        assert(m2.orders.dom() =~= m.orders.dom());
        lemma_sum_update_one(m.orders.dom(), g1, g2, id);
        assert(g2(id) - g1(id) == if pa == a {
            pv as int
        } else {
            0
        });
    }
}

/// Law: over a matched pair of fill events — the maker's and the
/// taker's leg of one trade, equal volume and value, opposite sides on
/// the same symbol — every asset's total is conserved: what one side's
/// fill pays out, the other side's fill takes in.
pub proof fn lemma_matched_fills_conserve(
    m: RiskModel,
    bid_id: u64,
    ask_id: u64,
    volume: u64,
    value: u64,
    a: AssetId,
)
    requires
        wf_risk(m),
        finite_model(m),
        fill_event_ok(m, bid_id, volume, value),
        m.orders[bid_id].2.side == OrderSide::BID,
        ({
            let m1 = spec_process_fill(m, bid_id, volume, value);
            &&& wf_risk(m1)
            &&& fill_event_ok(m1, ask_id, volume, value)
            &&& m1.orders[ask_id].2.side == OrderSide::ASK
            &&& m1.orders[ask_id].1 == m.orders[bid_id].1
        }),
    ensures
        ({
            let m1 = spec_process_fill(m, bid_id, volume, value);
            let m2 = spec_process_fill(m1, ask_id, volume, value);
            risk_total(m2, a) == risk_total(m, a)
        }),
{
    let m1 = spec_process_fill(m, bid_id, volume, value);
    lemma_fill_event_shift(m, bid_id, volume, value, a);
    assert(m1.participants.dom() =~= m.participants.dom());
    lemma_fill_event_shift(m1, ask_id, volume, value, a);
    assert(m1.symbols == m.symbols);
}

} // verus!
