//! What the main loop sends, books and tells: what was meant, once, and to whom it belongs.
use vstd::prelude::*;
use crate::decimal;
use crate::order_manager;
use crate::position_laws;
use crate::runner;
use crate::state;
use crate::strmap;
use crate::types;
use crate::commands::PlaceOrder;
use crate::context::Strategy;
use crate::decimal::Decimal;
use crate::events::Event;
use crate::exchange::{Fill, OrderInput, PlaceOrderResult};
use crate::order_manager::OrderBook;
use crate::runner::{Prepared, RunnerView, TradingStats};
use crate::state::StateView;
use crate::types::{ClientOrderId, ExchangeHealth, ExchangeInstance, ExchangeOrderId, InstrumentId, InstrumentKind, OrderSide, Position, PositionSnapshot, Qty, Quote, SyncMechanism};

verus! {

/// One in units.
pub open spec fn unit() -> int {
    decimal::pow10(28)
}

/// The distance of two numbers.
pub open spec fn apart(x: int, y: int) -> int {
    if x < y {
        y - x
    } else {
        x - y
    }
}

proof fn lemma_steps(steps: Decimal)
    requires
        steps@.valid(),
    ensures
        ({
            let n = types::nearest_whole(steps@);
            &&& decimal::fits(n)
            &&& 2 * apart(n * unit(), decimal::units(steps)) <= unit()
        }),
        ({
            let f = steps.m() / decimal::pow10(steps.s());
            &&& decimal::fits(f)
            &&& 0 <= decimal::units(steps) - f * unit() < unit()
        }),
{
    let (m, s) = (steps.m(), steps.s());
    let p = decimal::pow10(s);
    let u = decimal::pow10((28 - s) as nat);
    let k = unit();
    decimal::lemma_pow10_positive(s);
    decimal::lemma_pow10_positive((28 - s) as nat);
    decimal::lemma_pow10_adds((28 - s) as nat, s);
    assert(u * p == k);
    let a = if m < 0 {
        -m
    } else {
        m
    };
    vstd::arithmetic::div_mod::lemma_fundamental_div_mod(a, p);
    vstd::arithmetic::div_mod::lemma_fundamental_div_mod(m, p);
    let (w, r) = (a / p, a % p);
    let n = types::nearest_whole(steps@);
    let b = if m < 0 {
        -n
    } else {
        n
    };
    assert(b == w || b == w + 1);
    assert(w >= 0) by (nonlinear_arith)
        requires
            a == p * w + r,
            0 <= r < p,
            a >= 0,
    ;
    assert(w <= a) by (nonlinear_arith)
        requires
            a == p * w + r,
            p >= 1,
            r >= 0,
            w >= 0,
    ;
    assert(b <= a) by {
        if b == w + 1 {
            assert(r > 0);
            assert(w + 1 <= a) by (nonlinear_arith)
                requires
                    a == p * w + r,
                    p >= 1,
                    r >= 1,
                    w >= 0,
            ;
        }
    }
    assert(2 * apart(b * p, a) <= p) by (nonlinear_arith)
        requires
            a == p * w + r,
            0 <= r < p,
            b == w && 2 * r <= p || b == w + 1 && 2 * r >= p,
    ;
    let bp = b * p;
    assert(apart(bp * u, a * u) == apart(bp, a) * u) by (nonlinear_arith)
        requires
            u >= 1,
    ;
    assert(2 * (apart(bp, a) * u) <= p * u) by (nonlinear_arith)
        requires
            2 * apart(bp, a) <= p,
            u >= 1,
    ;
    assert(bp * u == b * k) by (nonlinear_arith)
        requires
            bp == b * p,
            u * p == k,
    ;
    assert(p * u == k) by (nonlinear_arith)
        requires
            u * p == k,
    ;
    if m < 0 {
        assert(n * k == -(b * k)) by (nonlinear_arith)
            requires
                b == -n,
        ;
        assert(m * u == -(a * u)) by (nonlinear_arith)
            requires
                a == -m,
        ;
    }
    let (f, g) = (m / p, m % p);
    assert(m * u - f * k == g * u) by (nonlinear_arith)
        requires
            m == p * f + g,
            u * p == k,
    ;
    assert(0 <= g * u < k) by (nonlinear_arith)
        requires
            0 <= g < p,
            u >= 1,
            u * p == k,
    ;
    assert(decimal::fits(f)) by (nonlinear_arith)
        requires
            m == p * f + g,
            0 <= g < p,
            p >= 1,
            decimal::fits(m),
    ;
}

/// A price is brought to the nearest step: the result is a whole number of steps, and no further
/// from the price than half of one. This is so where neither the quotient nor the product is
/// rounded.
pub proof fn law_price_is_on_nearest_tick(price: Decimal, tick: Decimal)
    requires
        price@.valid(),
        tick@.valid(),
        decimal::units(tick) > 0,
        decimal::divides_exactly(price, tick),
        decimal::multiplies_exactly(
            Decimal::lit(types::nearest_whole((decimal::over(Some(price), Some(tick))->0)@), 0),
            tick,
        ),
    ensures
        types::on_tick(price, tick) matches Some(p) && (exists|n: int|
            decimal::units(p) == #[trigger] (n * decimal::units(tick))) && 2 * apart(
            decimal::units(p),
            decimal::units(price),
        ) <= decimal::units(tick),
{
    broadcast use crate::decimal::lemma_of_view;

    decimal::lemma_units_sign(tick);
    decimal::lemma_pow10_positive(28);
    let steps = decimal::over(Some(price), Some(tick))->0;
    lemma_steps(steps);
    let n = types::nearest_whole(steps@);
    let whole = Decimal::lit(n, 0);
    assert(whole@ == (decimal::DecimalView { mantissa: n, scale: 0 }));
    let (k, t, u, x) = (unit(), decimal::units(tick), decimal::units(steps), decimal::units(price));
    let p = decimal::units(types::on_tick(price, tick)->0);
    assert(decimal::units(whole) == n * k);
    assert(p == n * t) by (nonlinear_arith)
        requires
            k > 0,
            p * k == (n * k) * t,
    ;
    lemma_scaled(n, k, u, t, x, p);
    assert(p == n * decimal::units(tick));
}

proof fn lemma_scaled(n: int, k: int, u: int, t: int, x: int, p: int)
    requires
        k > 0,
        t > 0,
        u * t == x * k,
        p == n * t,
        2 * apart(n * k, u) <= k,
    ensures
        2 * apart(p, x) <= t,
{
    let nk = n * k;
    assert(apart(nk, u) * t == apart(p, x) * k) by (nonlinear_arith)
        requires
            nk == n * k,
            p == n * t,
            u * t == x * k,
            t > 0,
            k > 0,
    ;
    let (d, e) = (apart(nk, u), apart(p, x));
    assert(2 * e <= t) by (nonlinear_arith)
        requires
            d * t == e * k,
            2 * d <= k,
            t > 0,
            k > 0,
    ;
}

/// A quantity is cut down to whole steps: the result is a whole number of steps, not more than
/// the quantity, and less than a step below it. This is so where neither the quotient nor the
/// product is rounded.
pub proof fn law_quantity_is_cut_to_lots(qty: Decimal, lot: Decimal)
    requires
        qty@.valid(),
        lot@.valid(),
        decimal::units(lot) > 0,
        decimal::divides_exactly(qty, lot),
        ({
            let steps = decimal::over(Some(qty), Some(lot))->0;
            decimal::multiplies_exactly(
                Decimal::lit(steps.m() / decimal::pow10(steps.s()), 0),
                lot,
            )
        }),
    ensures
        types::on_lot(qty, lot) matches Some(q) && (exists|n: int|
            decimal::units(q) == #[trigger] (n * decimal::units(lot))) && 0 <= decimal::units(qty)
            - decimal::units(q) < decimal::units(lot),
{
    broadcast use crate::decimal::lemma_of_view;

    decimal::lemma_units_sign(lot);
    decimal::lemma_pow10_positive(28);
    let steps = decimal::over(Some(qty), Some(lot))->0;
    lemma_steps(steps);
    let n = steps.m() / decimal::pow10(steps.s());
    let whole = Decimal::lit(n, 0);
    assert(whole@ == (decimal::DecimalView { mantissa: n, scale: 0 }));
    let (k, t, u, x) = (unit(), decimal::units(lot), decimal::units(steps), decimal::units(qty));
    let q = decimal::units(types::on_lot(qty, lot)->0);
    assert(decimal::units(whole) == n * k);
    assert(q == n * t) by (nonlinear_arith)
        requires
            k > 0,
            q * k == (n * k) * t,
    ;
    let nk = n * k;
    assert((u - nk) * t == (x - q) * k) by (nonlinear_arith)
        requires
            nk == n * k,
            q == n * t,
            u * t == x * k,
    ;
    let (d, e) = (u - nk, x - q);
    assert(0 <= e < t) by (nonlinear_arith)
        requires
            d * t == e * k,
            0 <= d < k,
            t > 0,
            k > 0,
    ;
    assert(q == n * decimal::units(lot));
}

/// An order goes out as it was asked for: on its side, under its id, for its instrument and with
/// its terms, on the market of the instrument. Only its price and quantity are brought to the
/// steps of the instrument, and not even those where there are no steps.
pub proof fn law_order_is_sent_as_meant(state: StateView, cmd: PlaceOrder, input: OrderInput)
    requires
        runner::prepared(state, cmd) == Prepared::Ready(input),
    ensures
        input.side == cmd.side,
        input.client_id == cmd.client_id,
        input.instrument == cmd.instrument,
        input.tif == cmd.tif,
        input.post_only == cmd.post_only,
        input.reduce_only == cmd.reduce_only,
        strmap::lookup(state.instruments, cmd.instrument@) matches Some(meta) && {
            &&& input.market_index == meta.market_index
            &&& types::on_tick(cmd.price.0, meta.tick_size) == Some(input.price.0)
            &&& types::on_lot(cmd.qty.0, meta.lot_size) == Some(input.qty.0)
            &&& meta.tick_size.m() == 0 ==> input.price == cmd.price
            &&& meta.lot_size.m() == 0 ==> input.qty == cmd.qty
        },
{
}

/// An order that is about to be sent is tracked with the terms that it is sent with, open and
/// with nothing filled.
pub proof fn law_sent_order_is_tracked(book: OrderBook, input: OrderInput, now: i64, other: ClientOrderId)
    requires
        book.sound(),
    ensures
        runner::followed(book, input, now).order(input.client_id) matches Some(o) && {
            &&& o.side == input.side
            &&& o.instrument == input.instrument
            &&& o.price == input.price
            &&& o.requested_qty == input.qty
            &&& decimal::units(o.filled_qty.0) == 0
            &&& !o.status.terminal()
        },
        other@ != input.client_id@ ==> runner::followed(book, input, now).order(other) == book.order(
            other,
        ),
{
    broadcast use crate::decimal::lemma_of_view;

    decimal::lemma_units_sign(decimal::zero());
    strmap::lemma_put(
        book.orders,
        input.client_id.0,
        order_manager::fresh_order(
            input.client_id,
            input.instrument,
            input.side,
            input.price,
            input.qty,
            now,
        ),
    );
}

/// Every order of a batch is either sent or refused as unknown: none is lost and none is both,
/// and what is sent keeps the order of the batch.
pub proof fn law_batch_is_accounted_for(state: StateView, orders: Seq<PlaceOrder>)
    requires
        runner::all_round(state, orders),
    ensures
        runner::sendable(state, orders).len() + runner::unknown_of(state, orders).len() == orders.len(),
        runner::inputs_of(state, orders).len() == runner::sendable(state, orders).len(),
        forall|i: int|
            0 <= i < runner::inputs_of(state, orders).len() ==> runner::prepared(
                state,
                runner::sendable(state, orders)[i],
            ) == Prepared::Ready(#[trigger] runner::inputs_of(state, orders)[i]),
        forall|i: int|
            0 <= i < orders.len() ==> (#[trigger] runner::prepared(state, orders[i]) is Ready
                ==> runner::sendable(state, orders).contains(orders[i])) && (runner::prepared(
                state,
                orders[i],
            ) is Unknown ==> runner::unknown_of(state, orders).contains(orders[i])),
    decreases orders.len(),
{
    if orders.len() > 0 {
        let t = orders.drop_last();
        assert forall|i: int| 0 <= i < t.len() implies !((#[trigger] runner::prepared(state, t[i])) is TooLarge) by {
            assert(t[i] == orders[i]);
            assert(!(runner::prepared(state, orders[i]) is TooLarge));
        }
        law_batch_is_accounted_for(state, t);
        let last = orders.last();
        assert(orders[orders.len() - 1] == last);
        assert(!(runner::prepared(state, orders[orders.len() - 1]) is TooLarge));
        let (a, b) = (runner::sendable(state, t), runner::sendable(state, orders));
        let (c, d) = (runner::unknown_of(state, t), runner::unknown_of(state, orders));
        assert forall|i: int| 0 <= i < runner::inputs_of(state, orders).len() implies runner::prepared(
            state,
            b[i],
        ) == Prepared::Ready(#[trigger] runner::inputs_of(state, orders)[i]) by {
            if i < runner::inputs_of(state, t).len() {
                assert(runner::prepared(state, a[i]) == Prepared::Ready(runner::inputs_of(state, t)[i]));
                assert(b[i] == a[i]);
            }
        }
        assert forall|i: int| 0 <= i < orders.len() implies (#[trigger] runner::prepared(state, orders[i]) is Ready
            ==> b.contains(orders[i])) && (runner::prepared(state, orders[i]) is Unknown ==> d.contains(
            orders[i],
        )) by {
            if i < t.len() {
                assert(t[i] == orders[i]);
                let _same = runner::prepared(state, t[i]);
                if runner::prepared(state, t[i]) is Ready {
                    assert(a.contains(t[i]));
                    let j = choose|j: int| 0 <= j < a.len() && a[j] == t[i];
                    assert(b[j] == t[i]);
                }
                if runner::prepared(state, t[i]) is Unknown {
                    assert(c.contains(t[i]));
                    let j = choose|j: int| 0 <= j < c.len() && c[j] == t[i];
                    assert(d[j] == t[i]);
                }
            } else {
                if runner::prepared(state, last) is Ready {
                    assert(b[a.len() as int] == last);
                } else {
                    assert(d[c.len() as int] == last);
                }
            }
        }
    }
}

/// The figures of a run grow with every fill: by its notional, its fee, and by one, where no step
/// is rounded.
pub proof fn law_figures_add_up(stats: TradingStats, fill: Fill)
    requires
        stats.volume_traded@.valid(),
        stats.total_fees@.valid(),
        fill.fee.amount@.valid(),
        stats.orders_filled < u32::MAX,
        decimal::multiplies_exactly(fill.qty.0, fill.price.0),
        decimal::adds_exactly(
            stats.volume_traded,
            decimal::times(Some(fill.qty.0), Some(fill.price.0))->0,
        ),
        decimal::adds_exactly(stats.total_fees, fill.fee.amount),
    ensures
        stats.with_fill(fill) matches Some(n) && {
            &&& decimal::units(n.volume_traded) * unit() == decimal::units(stats.volume_traded) * unit()
                + decimal::units(fill.qty.0) * decimal::units(fill.price.0)
            &&& decimal::units(n.total_fees) == decimal::units(stats.total_fees) + decimal::units(
                fill.fee.amount,
            )
            &&& n.orders_filled == stats.orders_filled + 1
            &&& n.orders_placed == stats.orders_placed
            &&& n.realized_pnl == stats.realized_pnl
        },
{
    let notional = decimal::times(Some(fill.qty.0), Some(fill.price.0))->0;
    decimal::law_exact_sum(stats.volume_traded, notional);
    decimal::law_exact_sum(stats.total_fees, fill.fee.amount);
    let (a, b, k) = (decimal::units(stats.volume_traded), decimal::units(notional), unit());
    assert((a + b) * k == a * k + b * k) by (nonlinear_arith);
}

/// What a fill adds to a position: its quantity, less the fee where that is taken from a spot
/// purchase in the asset that is bought, where the difference is not rounded.
pub proof fn law_net_quantity(state: StateView, fill: Fill)
    requires
        fill.qty.0@.valid(),
        fill.fee.amount@.valid(),
        0 <= decimal::units(fill.fee.amount) <= decimal::units(fill.qty.0),
        decimal::subtracts_exactly(fill.qty.0, fill.fee.amount),
    ensures
        runner::net_of(state, fill) matches Some(net) && net@.valid() && decimal::units(net) == decimal::units(
            fill.qty.0,
        ) - (match strmap::lookup(state.instruments, fill.instrument@) {
            Some(meta) => if meta.kind == InstrumentKind::Spot && fill.side == OrderSide::Buy
                && fill.fee.asset@ == meta.base_asset@ {
                decimal::units(fill.fee.amount)
            } else {
                0
            },
            None => 0,
        }),
{
    broadcast use crate::decimal::lemma_of_view;

    decimal::lemma_units_sign(decimal::zero());
    decimal::law_exact_difference(fill.qty.0, fill.fee.amount);
    let net = decimal::minus(Some(fill.qty.0), Some(fill.fee.amount))->0;
    decimal::law_order_by_units(net, decimal::zero());
}

/// A new fill of a tracked order is booked on its instrument: the position grows by the net
/// quantity of a purchase and shrinks by that of a sale, is worth what it was and what was filled
/// against its price, and bears the fee. No other position changes. This is so where no step is
/// rounded.
pub proof fn law_fill_is_booked(
    state: StateView,
    client_id: ClientOrderId,
    fill: Fill,
    now: i64,
    other: InstrumentId,
)
    requires
        strmap::distinct_keys(state.positions),
        state.orders.counts(client_id, fill.trade_id),
        position_laws::sound(state.booked(fill.instrument)),
        state.booked(fill.instrument).total_fees@.valid(),
        fill.price.0@.valid(),
        fill.fee.amount@.valid(),
        decimal::adds_exactly(state.booked(fill.instrument).total_fees, fill.fee.amount),
        runner::net_of(state, fill) matches Some(net) && net@.valid() && net.m() > 0
            && position_laws::books_exactly(state.booked(fill.instrument), fill.side, net, fill.price.0),
        runner::fill_booked(state, client_id, fill, now) is Some,
    ensures
        ({
            let (after, told) = runner::fill_booked(state, client_id, fill, now)->0;
            let net = runner::net_of(state, fill)->0;
            let (p, n) = (state.booked(fill.instrument), after.booked(fill.instrument));
            let q = position_laws::way(fill.side) * decimal::units(net);
            &&& told == Some(Qty(net))
            &&& decimal::units(n.qty) == decimal::units(p.qty) + q
            &&& forall|x: int| #[trigger]
                position_laws::worth(n, x) == position_laws::worth(p, x) + q * (x - decimal::units(
                    fill.price.0,
                ))
            &&& decimal::units(n.total_fees) == decimal::units(p.total_fees) + decimal::units(
                fill.fee.amount,
            )
            &&& other@ != fill.instrument@ ==> after.booked(other) == state.booked(other)
            &&& after.quotes == state.quotes
            &&& after.instruments == state.instruments
            &&& after.inventory == state.inventory
        }),
{
    let net = runner::net_of(state, fill)->0;
    let p = state.booked(fill.instrument);
    position_laws::law_fill_is_worth_its_price(p, fill.side, net, fill.price.0);
    let n = state::position_filled(p, fill.side, net, fill.price.0)->0;
    decimal::law_exact_sum(p.total_fees, fill.fee.amount);
    decimal::lemma_units_sign(fill.fee.amount);
    let book = state.orders.filled(client_id, fill.trade_id, fill.qty, fill.price, now)->0;
    let next = StateView { orders: book, ..state };
    let mid = next.with_position(fill.instrument, n);
    strmap::lemma_put(state.positions, fill.instrument.0, n);
    assert(mid.booked(fill.instrument) == n);
    let (after, _told) = runner::fill_booked(state, client_id, fill, now)->0;
    if fill.fee.amount.m() != 0 {
        let m = Position {
            total_fees: decimal::plus(Some(n.total_fees), Some(fill.fee.amount))->0,
            ..n
        };
        strmap::lemma_put(mid.positions, fill.instrument.0, m);
        assert(after.booked(fill.instrument) == m);
        assert forall|x: int| #[trigger] position_laws::worth(m, x) == position_laws::worth(p, x)
            + position_laws::way(fill.side) * decimal::units(net) * (x - decimal::units(fill.price.0)) by {
            assert(position_laws::worth(n, x) == position_laws::worth(m, x));
        }
    } else {
        assert(after == mid);
    }
}

/// The event that tells of a fill says what was filled, of which order, and what it cost.
pub proof fn law_fill_is_told(instance: ExchangeInstance, client_id: ClientOrderId, fill: Fill, net_qty: Qty)
    ensures
        ({
            let e = runner::fill_event(instance, client_id, fill, net_qty);
            &&& e.side == fill.side && e.price == fill.price && e.qty == fill.qty && e.net_qty == net_qty
            &&& e.fee == fill.fee && e.ts == fill.ts && e.instrument == fill.instrument
            &&& e.trade_id == fill.trade_id && e.client_id == client_id
            &&& e.exchange == instance.exchange_id
        }),
{
}

/// The strategy that asked for an order learns what became of it, by its id and for its
/// instrument: taken under the number that the exchange gave, or refused for its reason. One that
/// looks at the whole account also learns what was filled at once.
pub proof fn law_reply_is_told(
    mechanism: SyncMechanism,
    cmd: PlaceOrder,
    result: PlaceOrderResult,
    now: i64,
)
    ensures
        ({
            let s = runner::single_events(mechanism, cmd, result, now);
            match result {
                PlaceOrderResult::Accepted { exchange_order_id, filled_qty, avg_fill_px } => {
                    &&& s.len() >= 1
                    &&& s[0] matches Event::OrderAccepted(a) && a.client_id == cmd.client_id
                        && a.instrument == cmd.instrument && a.exchange_order_id == exchange_order_id
                        && a.ts == now
                    &&& s.len() == 2 <==> mechanism == SyncMechanism::Snapshot && filled_qty is Some
                        && avg_fill_px is Some
                    &&& s.len() == 2 ==> (s[1] matches Event::OrderCompleted(c) && c.client_id
                        == cmd.client_id && c.instrument == cmd.instrument && Some(c.filled_qty)
                        == filled_qty && c.avg_fill_px == avg_fill_px)
                    &&& s.len() <= 2
                },
                PlaceOrderResult::Rejected { reason } => {
                    &&& s.len() == 1
                    &&& s[0] matches Event::OrderRejected(r) && r.client_id == cmd.client_id
                        && r.instrument == cmd.instrument && r.reason == reason && r.ts == now
                },
            }
        }),
        ({
            let e = runner::batch_event(mechanism, cmd, result, now);
            let s = runner::single_events(mechanism, cmd, result, now);
            e == s.last()
        }),
{
}

/// An order that is refused is no longer tracked, and one that is taken is, under the number that
/// the exchange gave it.
pub proof fn law_reply_is_booked(book: OrderBook, cmd: PlaceOrder, result: PlaceOrderResult, now: i64)
    requires
        book.sound(),
        book.order(cmd.client_id) is Some,
    ensures
        ({
            let n = runner::book_replied(book, cmd, result, now);
            match result {
                PlaceOrderResult::Accepted { exchange_order_id: Some(e), .. } => {
                    &&& n.order(cmd.client_id) matches Some(o) && o.exchange_order_id == Some(e)
                    &&& strmap::lookup(n.by_exchange, e@) == Some(cmd.client_id)
                },
                PlaceOrderResult::Accepted { exchange_order_id: None, .. } => n.order(cmd.client_id) is Some,
                PlaceOrderResult::Rejected { .. } => n.order(cmd.client_id) is None,
            }
        }),
{
    let o = book.order(cmd.client_id)->0;
    match result {
        PlaceOrderResult::Accepted { exchange_order_id, .. } => {
            let taken = types::LiveOrder {
                status: types::OrderStatus::Accepted,
                ts_last_update: now,
                exchange_order_id: if exchange_order_id is Some {
                    exchange_order_id
                } else {
                    o.exchange_order_id
                },
                ..o
            };
            strmap::lemma_put(book.orders, cmd.client_id.0, taken);
            if let Some(e) = exchange_order_id {
                strmap::lemma_put(book.by_exchange, e.0, cmd.client_id);
            }
        },
        PlaceOrderResult::Rejected { .. } => {
            strmap::lemma_without(book.orders, cmd.client_id@);
        },
    }
}

/// A fill belongs to the order that it names; one that names none belongs to the order that the
/// exchange took under its number.
pub proof fn law_fill_finds_its_order(
    book: OrderBook,
    client_id: ClientOrderId,
    e: ExchangeOrderId,
    now: i64,
    fill: Fill,
)
    requires
        book.sound(),
        book.order(client_id) is Some,
    ensures
        fill.client_id matches Some(c) ==> runner::owner_of(book, fill) == Some(c),
        fill.client_id is None && fill.exchange_order_id == Some(e) ==> runner::owner_of(
            book.accepted(client_id, Some(e), now),
            fill,
        ) == Some(client_id),
        fill.client_id is None && fill.exchange_order_id is None ==> runner::owner_of(book, fill) is None,
{
    strmap::lemma_put(book.by_exchange, e.0, client_id);
}

/// The cancel of an order goes to the market of its instrument, with the number that the exchange
/// gave it; an order that is not tracked is not canceled.
pub proof fn law_cancel_names_the_order(state: StateView, client_id: ClientOrderId)
    ensures
        runner::cancel_of(state, client_id) matches Some(c) ==> (state.orders.order(client_id) matches Some(
            o,
        ) && c.instrument == o.instrument && c.exchange_order_id == o.exchange_order_id
            && (strmap::lookup(state.instruments, o.instrument@) matches Some(m) && c.market_index
            == m.market_index)),
        state.orders.order(client_id) matches Some(o) ==> (strmap::lookup(
            state.instruments,
            o.instrument@,
        ) is Some ==> runner::cancel_of(state, client_id) is Some),
{
}

/// The end of an order is told just once all that was asked for is filled, with what was filled.
pub proof fn law_end_is_told_when_filled(
    book: OrderBook,
    instance: ExchangeInstance,
    client_id: ClientOrderId,
    now: i64,
)
    requires
        book.order(client_id) matches Some(o) ==> o.requested_qty.0@.valid() && o.filled_qty.0@.valid(),
    ensures
        runner::end_of(book, instance, client_id, now) is Some <==> (book.order(client_id) matches Some(o)
            && decimal::units(o.filled_qty.0) >= decimal::units(o.requested_qty.0)),
        runner::end_of(book, instance, client_id, now) matches Some(e) ==> (e matches Event::OrderCompleted(
            c,
        ) && (book.order(client_id) matches Some(o) && c.filled_qty == o.filled_qty && c.avg_fill_px
            == o.avg_fill_px && c.client_id == client_id && c.instrument == o.instrument)),
{
    if let Some(o) = book.order(client_id) {
        decimal::law_order_by_units(o.filled_qty.0, o.requested_qty.0);
    }
}

/// A quote is told with its own bid and ask.
pub proof fn law_quote_is_told(instance: ExchangeInstance, quote: Quote)
    ensures
        ({
            let e = runner::quote_event(instance, quote);
            &&& e.bid == quote.bid && e.ask == quote.ask && e.instrument == quote.instrument
            &&& e.ts == quote.ts && e.exchange == instance.exchange_id
        }),
{
}

/// What the exchange reports of a position is what is held from then on; what was realized and
/// the fees stay, and so do the positions that are not reported.
pub proof fn law_snapshot_sets_position(state: StateView, s: PositionSnapshot, other: InstrumentId)
    requires
        strmap::distinct_keys(state.positions),
    ensures
        ({
            let after = runner::snapshots_applied(state, seq![s]);
            let (p, n) = (state.booked(s.instrument), after.booked(s.instrument));
            &&& n.qty == s.qty && n.avg_entry_px == s.avg_entry_px && n.unrealized_pnl == s.unrealized_pnl
            &&& n.realized_pnl == p.realized_pnl && n.total_fees == p.total_fees
            &&& other@ != s.instrument@ ==> after.booked(other) == state.booked(other)
        }),
{
    let row = seq![s];
    assert(row.drop_last() =~= Seq::empty());
    assert(row.last() == s);
    reveal_with_fuel(runner::snapshots_applied, 2);
    let n = Position {
        qty: s.qty,
        avg_entry_px: s.avg_entry_px,
        unrealized_pnl: s.unrealized_pnl,
        ..state.booked(s.instrument)
    };
    strmap::lemma_put(state.positions, s.instrument.0, n);
}

/// A command that is put off is tried again just when the wait is over.
pub proof fn law_retry_comes_after_the_wait(now: i64, wait: u64)
    ensures
        runner::retry_time(now, wait) matches Some(t) ==> t - now == wait,
        runner::retry_time(now, wait) is None <==> now + wait > i64::MAX,
{
}

/// Only an exchange that is down, or a poll that can never succeed, halts an exchange, and only
/// an answer with something in it makes it active again; the others keep their health.
pub proof fn law_polls_tell_health<S: Strategy>(
    v: RunnerView<S>,
    instance: ExchangeInstance,
    health: ExchangeHealth,
    other: ExchangeInstance,
)
    ensures
        v.with_health(instance, health).engine.state.health_of(instance) == health,
        !other.is_same(&instance) ==> v.with_health(instance, health).engine.state.health_of(other)
            == v.engine.state.health_of(other),
{
    state::law_instance_keys_distinct(instance, other);
}

} // verus!
