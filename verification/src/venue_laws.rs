//! What the simulated exchanges do with orders and quotes.
use vstd::prelude::*;
use crate::account_laws;
use crate::cash_laws;
use crate::decimal;
use crate::fill_simulator;
use crate::margin;
use crate::match_laws;
use crate::paper_exchange;
use crate::position_laws;
use crate::strmap;
use crate::text;
use crate::decimal::Decimal;
use crate::exchange::{Fill, OrderInput, PlaceOrderResult};
use crate::fill_simulator::PendingOrder;
use crate::margin::LedgerView;
use crate::mock_exchange::{MockView, OrderFailMode};
use crate::paper_exchange::PaperView;
use crate::types::{ExchangeOrderId, InstrumentId, OrderSide, Price, Quote, TimeInForce};

verus! {

/// One in units.
pub open spec fn unit() -> int {
    decimal::pow10(28)
}

/// An order for a perpetual is refused just where it goes on margin and free cash is less than
/// its notional over the leverage and the fees of a way in and a way out, where no step is
/// rounded and the leverage is positive.
pub proof fn law_margin_orders_are_covered<E>(v: PaperView<E>, order: OrderInput)
    requires
        text::finishes_with(order.instrument@, "-PERP"@),
        v.ledger.free@.valid(),
        v.ledger.leverage_of(order.instrument)@.valid(),
        decimal::units(v.ledger.leverage_of(order.instrument)) > 0,
        v.ledger.position(order.instrument) matches Some(p) ==> p.qty@.valid(),
        account_laws::needs_exactly(
            order.price.0,
            order.qty.0,
            v.ledger.leverage_of(order.instrument),
            v.ledger.fee_rate,
        ),
    ensures
        v.refusal(order) matches Some(why) && {
            let n = decimal::units(order.price.0) * decimal::units(order.qty.0);
            let l = decimal::units(v.ledger.leverage_of(order.instrument));
            let f = decimal::units(v.ledger.fee_rate);
            let reduces = order.reduce_only || (v.ledger.position(order.instrument) matches Some(p)
                && decimal::units(p.qty) * account_laws::way(order.side) < 0);
            why is Some <==> !reduces && decimal::units(v.ledger.free) * unit() * unit() * l < n * unit()
                * unit() + 2 * n * f * l
        },
{
    let leverage = v.ledger.leverage_of(order.instrument);
    account_laws::law_reducing_needs_no_margin(
        v.ledger,
        order.instrument,
        order.side,
        order.reduce_only,
    );
    account_laws::law_margin_needed(v.ledger, order.instrument, order.price.0, order.qty.0);
    decimal::lemma_pow10_positive(28);
    let need = v.ledger.needed(order.instrument, order.price.0, order.qty.0)->0;
    decimal::law_order_by_units(v.ledger.free, need);
    let (a, b, k, l) = (decimal::units(v.ledger.free), decimal::units(need), unit(), decimal::units(leverage));
    let w = k * k * l;
    assert(w > 0) by (nonlinear_arith)
        requires
            w == k * k * l,
            k > 0,
            l > 0,
    ;
    assert((a < b) == (a * w < b * w)) by (nonlinear_arith)
        requires
            w > 0,
    ;
    assert(a * k * k * l == a * w && b * k * k * l == b * w) by (nonlinear_arith)
        requires
            w == k * k * l,
    ;
}

/// An order for anything else is refused just where the balance that it takes from does not
/// cover it, where its price is not rounded.
pub proof fn law_spot_orders_are_covered<E>(v: PaperView<E>, order: OrderInput)
    requires
        !text::finishes_with(order.instrument@, "-PERP"@),
        match_laws::sound(v.sim.balances),
        order.qty.0@.valid(),
        decimal::multiplies_exactly(order.price.0, order.qty.0),
    ensures
        v.refusal(order) matches Some(why) && match order.side {
            OrderSide::Buy => why is Some <==> match_laws::amount(v.sim.balances, "USDC"@) * unit()
                < decimal::units(order.price.0) * decimal::units(order.qty.0),
            OrderSide::Sell => why is Some <==> match_laws::amount(
                v.sim.balances,
                fill_simulator::base_of(order.instrument@),
            ) < decimal::units(order.qty.0),
        },
{
    match_laws::law_funds_cover_orders(
        v.sim.balances,
        order.instrument@,
        order.side,
        order.price.0,
        order.qty.0,
    );
}

/// An order that must be filled at once is filled just where there is a quote and its price is
/// acceptable: a purchase at the ask where that is not above its limit, a sale at the bid where
/// that is not below it.
pub proof fn law_instant_price_keeps_limit<E>(v: PaperView<E>, order: OrderInput)
    requires
        order.price.0@.valid(),
        strmap::lookup(v.quotes, order.instrument@) matches Some(q) ==> q.bid.0@.valid() && q.ask.0@.valid(),
    ensures
        match strmap::lookup(v.quotes, order.instrument@) {
            None => v.instant_price(order) is None,
            Some(q) => match order.side {
                OrderSide::Buy => v.instant_price(order) == (if decimal::units(q.ask.0) <= decimal::units(
                    order.price.0,
                ) {
                    Some(q.ask)
                } else {
                    None
                }),
                OrderSide::Sell => v.instant_price(order) == (if decimal::units(q.bid.0) >= decimal::units(
                    order.price.0,
                ) {
                    Some(q.bid)
                } else {
                    None
                }),
            },
        },
{
    if let Some(q) = strmap::lookup(v.quotes, order.instrument@) {
        decimal::law_order_by_units(order.price.0, q.ask.0);
        decimal::law_order_by_units(q.bid.0, order.price.0);
    }
}

/// An order for anything but a perpetual that is filled at once is paid: a purchase costs the
/// price of the fill times its quantity and brings the quantity, a sale the other way round. No
/// position changes. This is so where no step is rounded.
pub proof fn law_instant_spot_fill_is_paid<E>(v: PaperView<E>, order: OrderInput, px: Price)
    requires
        !text::finishes_with(order.instrument@, "-PERP"@),
        match_laws::sound(v.sim.balances),
        order.qty.0@.valid(),
        px.0@.valid(),
        fill_simulator::base_of(order.instrument@) != "USDC"@,
        decimal::multiplies_exactly(px.0, order.qty.0),
        ({
            let n = decimal::times(Some(px.0), Some(order.qty.0))->0;
            let b = v.sim.balances;
            let base = fill_simulator::base_of(order.instrument@);
            match order.side {
                OrderSide::Buy => decimal::subtracts_exactly(fill_simulator::held(b, "USDC"@), n)
                    && decimal::adds_exactly(fill_simulator::held(b, base), order.qty.0),
                OrderSide::Sell => decimal::adds_exactly(fill_simulator::held(b, "USDC"@), n)
                    && decimal::subtracts_exactly(fill_simulator::held(b, base), order.qty.0),
            }
        }),
    ensures
        v.filled_at(order, px) matches Some(w) && {
            let base = fill_simulator::base_of(order.instrument@);
            let d = match_laws::way(order.side);
            &&& match_laws::amount(w.sim.balances, "USDC"@) * unit() == match_laws::amount(
                v.sim.balances,
                "USDC"@,
            ) * unit() - d * decimal::units(px.0) * decimal::units(order.qty.0)
            &&& match_laws::amount(w.sim.balances, base) == match_laws::amount(v.sim.balances, base) + d
                * decimal::units(order.qty.0)
            &&& w.ledger == v.ledger
            &&& w.sim.buys == v.sim.buys
            &&& w.sim.sells == v.sim.sells
        },
{
    let n = decimal::times(Some(px.0), Some(order.qty.0))->0;
    match_laws::law_swap_is_paid(v.sim.balances, order.instrument@, order.side, n, order.qty.0);
    let w = v.filled_at(order, px)->0;
    let (a, b) = (
        match_laws::amount(v.sim.balances, "USDC"@),
        match_laws::amount(w.sim.balances, "USDC"@),
    );
    let (d, x, k) = (match_laws::way(order.side), decimal::units(n), unit());
    let (p, q) = (decimal::units(px.0), decimal::units(order.qty.0));
    assert(b * k == a * k - d * p * q) by (nonlinear_arith)
        requires
            b == a - d * x,
            x * k == p * q,
    ;
}

/// An order for a perpetual that is filled at once is booked on the position of its instrument,
/// without a fee, at the price of the fill: cash is conserved, the quantity grows by a purchase
/// and shrinks by a sale, and no balance changes. This is so where no step is rounded.
pub proof fn law_instant_perpetual_fill_is_booked<E>(v: PaperView<E>, order: OrderInput, px: Price)
    requires
        text::finishes_with(order.instrument@, "-PERP"@),
        cash_laws::sound(v.ledger),
        order.qty.0@.valid(),
        order.qty.0.m() > 0,
        v.filled_at(order, px) is Some,
        cash_laws::fills_exactly(
            v.ledger,
            order.instrument,
            order.side,
            px.0,
            order.qty.0,
            decimal::zero(),
        ),
    ensures
        ({
            let w = v.filled_at(order, px)->0;
            let s = v.ledger.settlement(order.instrument, order.side, px.0, order.qty.0, decimal::zero())->0;
            &&& w.sim.balances == v.sim.balances
            &&& decimal::units(w.ledger.free) + decimal::units(w.ledger.reserved()->0) == decimal::units(
                v.ledger.free,
            ) + decimal::units(v.ledger.reserved()->0) + decimal::units(s.realized)
            &&& decimal::units(cash_laws::held_qty(w.ledger, order.instrument)) == decimal::units(
                cash_laws::held_qty(v.ledger, order.instrument),
            ) + account_laws::way(order.side) * decimal::units(order.qty.0)
        }),
{
    broadcast use crate::decimal::lemma_of_view;

    decimal::lemma_units_sign(decimal::zero());
    cash_laws::law_fill_conserves_cash(
        v.ledger,
        order.instrument,
        order.side,
        px.0,
        order.qty.0,
        decimal::zero(),
    );
}

/// The lines of a side.
pub open spec fn lines<E>(v: PaperView<E>, side: OrderSide) -> fill_simulator::Queues {
    match side {
        OrderSide::Buy => v.sim.buys,
        OrderSide::Sell => v.sim.sells,
    }
}

/// The order stands in a line, with the whole of its quantity still to be filled.
pub open spec fn stands_for(p: PendingOrder, order: OrderInput, id: ExchangeOrderId) -> bool {
    &&& p.client_id == order.client_id
    &&& p.exchange_order_id == id
    &&& p.side == order.side
    &&& p.price == order.price
    &&& p.remaining_qty == order.qty
    &&& p.instrument == order.instrument
}

/// An order that waits stands in the line of its side and instrument, with its price and the
/// whole of its quantity still to be filled, in its place; all other lines are as they were, and
/// nothing is paid.
pub proof fn law_waiting_order_stands_in_line<E>(
    v: PaperView<E>,
    order: OrderInput,
    id: ExchangeOrderId,
    side: OrderSide,
    key: Seq<char>,
)
    requires
        order.price.0@.valid(),
        match_laws::in_line(
            order.side,
            fill_simulator::queue(lines(v, order.side), order.instrument@),
        ),
    ensures
        ({
            let w = v.waiting(order, id);
            let before = fill_simulator::queue(lines(v, order.side), order.instrument@);
            let after = fill_simulator::queue(lines(w, order.side), order.instrument@);
            &&& match_laws::in_line(order.side, after)
            &&& after.len() == before.len() + 1
            &&& exists|i: int|
                0 <= i < after.len() && stands_for(#[trigger] after[i], order, id) && after.remove(i)
                    == before
            &&& side != order.side || key != order.instrument@ ==> fill_simulator::queue(
                lines(w, side),
                key,
            ) == fill_simulator::queue(lines(v, side), key)
            &&& w.sim.balances == v.sim.balances
            &&& w.ledger == v.ledger
        }),
{
    let before = fill_simulator::queue(lines(v, order.side), order.instrument@);
    let pending = PendingOrder {
        client_id: order.client_id,
        exchange_order_id: id,
        instrument: order.instrument,
        side: order.side,
        price: order.price,
        qty: order.qty,
        remaining_qty: order.qty,
        created_at: v.time,
    };
    match_laws::law_new_order_takes_its_place(order.side, before, pending);
    let after = fill_simulator::queued(order.side, before, pending);
    let w = v.waiting(order, id);
    assert(fill_simulator::queue(lines(w, order.side), order.instrument@) == after);
    let at = choose|at: int| 0 <= at <= before.len() && #[trigger] before.insert(at, pending) == after;
    assert(after[at] == pending);
    assert(after.remove(at) =~= before);
    assert(stands_for(after[at], order, id));
}

proof fn lemma_marks(s: Seq<(String, Quote)>, n: nat)
    requires
        n <= s.len(),
        strmap::distinct_keys(s),
        paper_exchange::marks_of(s, n) is Some,
    ensures
        forall|i: int|
            0 <= i < n ==> (paper_exchange::marks_of(s, n)->0).contains_key((#[trigger] s[i]).0@)
                && Some((paper_exchange::marks_of(s, n)->0)[s[i].0@]) == s[i].1.mid_of(),
        forall|key: Seq<char>| #[trigger]
            (paper_exchange::marks_of(s, n)->0).contains_key(key) ==> exists|i: int|
                0 <= i < n && (#[trigger] s[i]).0@ == key,
    decreases n,
{
    if n > 0 {
        lemma_marks(s, (n - 1) as nat);
        let (a, b) = (
            paper_exchange::marks_of(s, (n - 1) as nat)->0,
            paper_exchange::marks_of(s, n)->0,
        );
        assert forall|i: int| 0 <= i < n implies b.contains_key((#[trigger] s[i]).0@) && Some(b[s[i].0@])
            == s[i].1.mid_of() by {
            if i < n - 1 {
                assert(s[i].0@ != s[n - 1].0@);
                assert(a.contains_key(s[i].0@));
            }
        }
        assert forall|key: Seq<char>| #[trigger] b.contains_key(key) implies exists|i: int|
            0 <= i < n && (#[trigger] s[i]).0@ == key by {
            if key == s[n - 1].0@ {
                assert(s[n - 1].0@ == key);
            } else {
                assert(a.contains_key(key));
            }
        }
    }
}

/// Every instrument with a quote is marked at the middle of its last quote, as far from the bid
/// as from the ask, and no other is marked. This is so where no middle is rounded.
pub proof fn law_marks_are_middles(s: Seq<(String, Quote)>, i: int)
    requires
        strmap::distinct_keys(s),
        paper_exchange::marks_of(s, s.len()) is Some,
        0 <= i < s.len(),
        s[i].1.bid.0@.valid(),
        s[i].1.ask.0@.valid(),
        decimal::adds_exactly(s[i].1.bid.0, s[i].1.ask.0),
        decimal::divides_exactly(
            decimal::plus(Some(s[i].1.bid.0), Some(s[i].1.ask.0))->0,
            Decimal::lit(2, 0),
        ),
    ensures
        ({
            let m = paper_exchange::marks_of(s, s.len())->0;
            &&& m.contains_key(s[i].0@)
            &&& 2 * decimal::units(m[s[i].0@]) == decimal::units(s[i].1.bid.0) + decimal::units(
                s[i].1.ask.0,
            )
            &&& forall|key: Seq<char>| #[trigger]
                m.contains_key(key) ==> exists|j: int| 0 <= j < s.len() && (#[trigger] s[j]).0@ == key
        }),
{
    lemma_marks(s, s.len());
    position_laws::law_middle_is_halfway(s[i].1.bid.0, s[i].1.ask.0);
}

/// Of several quotes of an instrument the last counts, and the others keep theirs.
pub proof fn law_last_quote_counts(s: Seq<(String, Quote)>, more: Seq<Quote>, key: Seq<char>)
    requires
        strmap::distinct_keys(s),
    ensures
        strmap::distinct_keys(paper_exchange::quotes_after(s, more)),
        (forall|i: int| 0 <= i < more.len() ==> (#[trigger] more[i]).instrument@ != key)
            ==> strmap::lookup(paper_exchange::quotes_after(s, more), key) == strmap::lookup(s, key),
        forall|i: int|
            0 <= i < more.len() && (#[trigger] more[i]).instrument@ == key && (forall|j: int|
                i < j < more.len() ==> (#[trigger] more[j]).instrument@ != key) ==> strmap::lookup(
                paper_exchange::quotes_after(s, more),
                key,
            ) == Some(more[i]),
    decreases more.len(),
{
    if more.len() > 0 {
        let t = more.drop_last();
        law_last_quote_counts(s, t, key);
        let before = paper_exchange::quotes_after(s, t);
        strmap::lemma_put(before, more.last().instrument.0, more.last());
        let after = paper_exchange::quotes_after(s, more);
        if forall|i: int| 0 <= i < more.len() ==> (#[trigger] more[i]).instrument@ != key {
            assert(more[more.len() - 1].instrument@ != key);
            assert forall|i: int| 0 <= i < t.len() implies (#[trigger] t[i]).instrument@ != key by {
                assert(t[i] == more[i]);
            }
        }
        assert forall|i: int|
            0 <= i < more.len() && (#[trigger] more[i]).instrument@ == key && (forall|j: int|
                i < j < more.len() ==> (#[trigger] more[j]).instrument@ != key) implies strmap::lookup(
            after,
            key,
        ) == Some(more[i]) by {
            if i < more.len() - 1 {
                assert(more[more.len() - 1].instrument@ != key);
                assert(t[i] == more[i]);
                assert forall|j: int| i < j < t.len() implies (#[trigger] t[j]).instrument@ != key by {
                    assert(t[j] == more[j]);
                }
                assert(strmap::lookup(before, key) == Some(t[i]));
            }
        }
    }
}

proof fn lemma_wound_up(v: LedgerView, instrument: InstrumentId, mark: Decimal)
    requires
        strmap::distinct_keys(v.positions),
        margin::wound_up(v, instrument, mark) is Some,
        v.position(instrument) matches Some(p) ==> p.qty@.valid(),
    ensures
        ({
            let w = margin::wound_up(v, instrument, mark)->0;
            &&& strmap::distinct_keys(w.positions)
            &&& w.position(instrument) matches Some(p) ==> p.qty.m() == 0
            &&& forall|other: InstrumentId|
                other@ != instrument@ ==> #[trigger] w.position(other) == v.position(other)
        }),
{
    if let Some(p) = v.position(instrument) {
        if p.qty.m() != 0 {
            margin::law_liquidation_leaves_flat(v, instrument, mark);
            let side = if p.qty.m() > 0 {
                OrderSide::Sell
            } else {
                OrderSide::Buy
            };
            let s = v.settlement(instrument, side, mark, decimal::magnitude(p.qty), decimal::zero())->0;
            strmap::lemma_put(v.positions, instrument.0, s.purse.position);
        }
    }
}

/// After the positions that are due are closed at their marks, nothing is held of any of them,
/// and what is held of the others is as it was.
pub proof fn law_due_positions_are_closed(
    v: LedgerView,
    list: Seq<InstrumentId>,
    marks: Map<Seq<char>, Decimal>,
    n: nat,
)
    requires
        n <= list.len(),
        strmap::distinct_keys(v.positions),
        forall|i: int| 0 <= i < list.len() ==> marks.contains_key((#[trigger] list[i])@),
        forall|i: int, j: int| 0 <= i < j < list.len() ==> (#[trigger] list[i])@ != (#[trigger] list[j])@,
        forall|id: InstrumentId|
            (#[trigger] v.position(id)) matches Some(p) ==> p.qty@.valid(),
        paper_exchange::closed_out(v, list, marks, n) is Some,
    ensures
        ({
            let w = paper_exchange::closed_out(v, list, marks, n)->0;
            &&& strmap::distinct_keys(w.positions)
            &&& forall|i: int|
                0 <= i < n ==> (w.position(#[trigger] list[i]) matches Some(p) ==> p.qty.m() == 0)
            &&& forall|id: InstrumentId|
                (forall|i: int| 0 <= i < n ==> (#[trigger] list[i])@ != id@) ==> #[trigger] w.position(id)
                    == v.position(id)
        }),
    decreases n,
{
    if n > 0 {
        let m = (n - 1) as nat;
        law_due_positions_are_closed(v, list, marks, m);
        let u = paper_exchange::closed_out(v, list, marks, m)->0;
        let w = paper_exchange::closed_out(v, list, marks, n)->0;
        let last = list[n - 1];
        assert(marks.contains_key(list[n - 1]@));
        assert forall|i: int| 0 <= i < m implies (#[trigger] list[i])@ != last@ by {
            assert(list[i]@ != list[n - 1]@);
        }
        assert(u.position(last) == v.position(last));
        lemma_wound_up(u, last, marks[last@]);
        assert forall|i: int| 0 <= i < n implies (w.position(#[trigger] list[i]) matches Some(p)
            ==> p.qty.m() == 0) by {
            if i < n - 1 {
                assert(w.position(list[i]) == u.position(list[i]));
            }
        }
        assert forall|id: InstrumentId|
            (forall|i: int| 0 <= i < n ==> (#[trigger] list[i])@ != id@) implies #[trigger] w.position(id)
            == v.position(id) by {
            assert(list[n - 1]@ != id@);
            assert(u.position(id) == v.position(id));
        }
    }
}

/// Fills of perpetuals go to the ledger of margin, one after the other, and fills of anything
/// else leave it alone.
pub proof fn law_ledger_takes_perpetuals(v: LedgerView, fill: Fill)
    ensures
        !text::finishes_with(fill.instrument@, "-PERP"@) ==> paper_exchange::ledger_after(v, seq![fill], 1)
            == v && paper_exchange::ledger_fits(v, seq![fill], 1),
        text::finishes_with(fill.instrument@, "-PERP"@) ==> (match v.settlement(
            fill.instrument,
            fill.side,
            fill.price.0,
            fill.qty.0,
            fill.fee.amount,
        ) {
            Some(s) => paper_exchange::ledger_after(v, seq![fill], 1) == v.with_purse(
                fill.instrument,
                s.purse,
            ) && paper_exchange::ledger_fits(v, seq![fill], 1),
            None => !paper_exchange::ledger_fits(v, seq![fill], 1),
        }),
{
    reveal_with_fuel(paper_exchange::ledger_after, 2);
    reveal_with_fuel(paper_exchange::ledger_fits, 2);
    assert(seq![fill][0] == fill);
}

/// A fresh paper exchange has the balances that it is given and as much free cash as the common
/// currency among them, and neither orders nor positions.
pub proof fn law_paper_exchange_starts_empty<E>(source: E, balances: Map<Seq<char>, Decimal>, now: i64)
    requires
        match_laws::sound(balances),
    ensures
        ({
            let v = PaperView::<E>::opened(source, balances, now);
            &&& v.sim.balances == balances
            &&& decimal::units(v.ledger.free) == match_laws::amount(balances, "USDC"@)
            &&& v.ledger.positions.len() == 0
            &&& forall|key: Seq<char>| #[trigger]
                fill_simulator::queue(v.sim.buys, key).len() == 0
            &&& forall|key: Seq<char>| #[trigger]
                fill_simulator::queue(v.sim.sells, key).len() == 0
            &&& v.fills.len() == 0
        }),
{
    broadcast use crate::decimal::lemma_of_view;

    decimal::lemma_units_sign(decimal::zero());
}

/// The mock exchange refuses an order just where it is told to: all orders that must be filled
/// at once, or those that the balances do not cover; where it is told to take all, it does.
pub proof fn law_mock_refuses_as_told(v: MockView, order: OrderInput)
    requires
        match_laws::sound(v.balances),
        order.qty.0@.valid(),
        decimal::multiplies_exactly(order.price.0, order.qty.0),
    ensures
        v.refusal(order) matches Some(why) && match v.knobs.order_fail_mode {
            OrderFailMode::AlwaysSucceed => why is None,
            OrderFailMode::IocAlwaysReject => why is Some <==> order.tif == TimeInForce::Ioc,
            OrderFailMode::FailOnInsufficientBalance => why is Some <==> match order.side {
                OrderSide::Buy => match_laws::amount(v.balances, "USDC"@) * unit() < decimal::units(
                    order.price.0,
                ) * decimal::units(order.qty.0),
                OrderSide::Sell => match_laws::amount(
                    v.balances,
                    fill_simulator::base_of(order.instrument@),
                ) < decimal::units(order.qty.0),
            },
        },
{
    match_laws::law_funds_cover_orders(
        v.balances,
        order.instrument@,
        order.side,
        order.price.0,
        order.qty.0,
    );
}

/// An order that the mock exchange fills at once is paid at its own price, and the fill says so;
/// one that it only takes moves nothing. This is so where no step is rounded.
pub proof fn law_mock_fill_is_paid(v: MockView, w: MockView, order: OrderInput, reply: PlaceOrderResult)
    requires
        v.took(w, order, reply),
        v.take_fits(order),
        v.refusal(order) == Some(None::<Seq<char>>),
        match_laws::sound(v.balances),
        order.qty.0@.valid(),
        order.price.0@.valid(),
        fill_simulator::base_of(order.instrument@) != "USDC"@,
        decimal::multiplies_exactly(order.price.0, order.qty.0),
        ({
            let n = decimal::times(Some(order.price.0), Some(order.qty.0))->0;
            let b = v.balances;
            let base = fill_simulator::base_of(order.instrument@);
            match order.side {
                OrderSide::Buy => decimal::subtracts_exactly(fill_simulator::held(b, "USDC"@), n)
                    && decimal::adds_exactly(fill_simulator::held(b, base), order.qty.0),
                OrderSide::Sell => decimal::adds_exactly(fill_simulator::held(b, "USDC"@), n)
                    && decimal::subtracts_exactly(fill_simulator::held(b, base), order.qty.0),
            }
        }),
    ensures
        if w.fills.len() > v.fills.len() {
            let base = fill_simulator::base_of(order.instrument@);
            let d = match_laws::way(order.side);
            let f = w.fills.last();
            &&& w.fills.drop_last() == v.fills
            &&& f.side == order.side && f.price == order.price && f.qty == order.qty && f.instrument
                == order.instrument && f.client_id == Some(order.client_id) && decimal::units(f.fee.amount)
                == 0
            &&& match_laws::amount(w.balances, "USDC"@) * unit() == match_laws::amount(
                v.balances,
                "USDC"@,
            ) * unit() - d * decimal::units(order.price.0) * decimal::units(order.qty.0)
            &&& match_laws::amount(w.balances, base) == match_laws::amount(v.balances, base) + d
                * decimal::units(order.qty.0)
            &&& reply matches PlaceOrderResult::Accepted { filled_qty, avg_fill_px, .. } && filled_qty
                == Some(order.qty) && avg_fill_px == Some(order.price)
        } else {
            &&& w.balances == v.balances
            &&& w.fills == v.fills
            &&& reply matches PlaceOrderResult::Accepted { filled_qty: None, avg_fill_px: None, .. }
        },
        order.tif == TimeInForce::Ioc && !(v.knobs.order_fail_mode is IocAlwaysReject) ==> w.fills.len()
            == v.fills.len() + 1,
        w.next_oid == v.next_oid + 1,
{
    broadcast use crate::decimal::lemma_of_view;

    decimal::lemma_units_sign(decimal::zero());
    if v.at_once(order) {
        let n = decimal::times(Some(order.price.0), Some(order.qty.0))->0;
        match_laws::law_swap_is_paid(v.balances, order.instrument@, order.side, n, order.qty.0);
        let (a, b) = (match_laws::amount(v.balances, "USDC"@), match_laws::amount(w.balances, "USDC"@));
        let (d, x, k) = (match_laws::way(order.side), decimal::units(n), unit());
        let (p, q) = (decimal::units(order.price.0), decimal::units(order.qty.0));
        assert(b * k == a * k - d * p * q) by (nonlinear_arith)
            requires
                b == a - d * x,
                x * k == p * q,
        ;
    }
}

/// A quote of the mock exchange is around the middle price of its coin, as far below it as above,
/// five ten-thousandths of it to either side, where no product is rounded.
pub proof fn law_mock_quote_is_around_the_middle(v: MockView, instrument: InstrumentId)
    requires
        v.mids.contains_key(fill_simulator::base_of(instrument@)),
        ({
            let mid = v.mids[fill_simulator::base_of(instrument@)];
            &&& mid@.valid()
            &&& decimal::multiplies_exactly(mid, Decimal::lit(9995, 4))
            &&& decimal::multiplies_exactly(mid, Decimal::lit(10005, 4))
        }),
    ensures
        v.quote_for(instrument) matches Some(Some(q)) && {
            let mid = decimal::units(v.mids[fill_simulator::base_of(instrument@)]);
            &&& q.instrument == instrument
            &&& 10_000 * (mid - decimal::units(q.bid.0)) == 5 * mid
            &&& 10_000 * (decimal::units(q.ask.0) - mid) == 5 * mid
        },
{
    broadcast use crate::decimal::lemma_of_view, crate::decimal::lemma_view_of;

    reveal(decimal::sum_of);
    reveal(decimal::difference_of);
    let mid = v.mids[fill_simulator::base_of(instrument@)];
    let (lo, hi, s) = (Decimal::lit(9995, 4), Decimal::lit(10005, 4), Decimal::lit(5, 4));
    assert(lo@ == (decimal::DecimalView { mantissa: 9995, scale: 4 }));
    assert(hi@ == (decimal::DecimalView { mantissa: 10005, scale: 4 }));
    assert(s@ == (decimal::DecimalView { mantissa: 5, scale: 4 }));
    assert(decimal::one()@ == (decimal::DecimalView { mantissa: 1, scale: 0 }));
    assert(decimal::pow10(4) == 10_000 && decimal::pow10(0) == 1) by {
        reveal_with_fuel(decimal::pow10, 5);
    }
    assert(decimal::one()@.at_scale(4) == 10_000);
    assert(s@.at_scale(4) == 5);
    assert(decimal::minus(Some(decimal::one()), Some(s)) == Some(lo));
    assert(decimal::plus(Some(decimal::one()), Some(s)) == Some(hi));
    decimal::lemma_pow10_adds(24, 4);
    decimal::lemma_pow10_positive(24);
    let (k, t, m) = (unit(), decimal::pow10(24), decimal::units(mid));
    assert(k == t * 10_000);
    assert(decimal::units(lo) == 9995 * t && decimal::units(hi) == 10005 * t);
    let q = v.quote_for(instrument)->0->0;
    let (b, a) = (decimal::units(q.bid.0), decimal::units(q.ask.0));
    assert(10_000 * (m - b) == 5 * m && 10_000 * (a - m) == 5 * m) by (nonlinear_arith)
        requires
            t > 0,
            k == t * 10_000,
            b * k == m * (9995 * t),
            a * k == m * (10005 * t),
    ;
}

} // verus!
