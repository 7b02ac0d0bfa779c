//! What a position is worth: at a quote, after a fill, and when it is closed.
use vstd::prelude::*;
use crate::decimal;
use crate::state;
use crate::strmap;
use crate::types;
use crate::decimal::Decimal;
use crate::state::StateView;
use crate::types::{InstrumentId, OrderSide, Position, Quote};

verus! {

/// One in units.
pub open spec fn unit() -> int {
    decimal::pow10(28)
}

/// The entry price in units; nothing is paid for a flat position.
pub open spec fn entry_units(p: Position) -> int {
    match p.avg_entry_px {
        Some(e) => decimal::units(e.0),
        None => 0,
    }
}

/// What a position has realized and would still realize if it was closed at the price `x`, in
/// units of units.
pub open spec fn worth(p: Position, x: int) -> int {
    decimal::units(p.realized_pnl) * unit() + decimal::units(p.qty) * (x - entry_units(p))
}

/// A position that is not flat has an entry price, and all numbers are within the limits.
pub open spec fn sound(p: Position) -> bool {
    &&& p.qty@.valid()
    &&& p.realized_pnl@.valid()
    &&& p.avg_entry_px matches Some(e) ==> e.0@.valid()
    &&& p.qty.m() == 0 <==> p.avg_entry_px is None
}

/// No step of adding to a position is rounded.
pub open spec fn averages_exactly(held: Decimal, entry: Decimal, qty: Decimal, price: Decimal) -> bool {
    let before = decimal::times(Some(entry), Some(held))->0;
    let more = decimal::times(Some(price), Some(qty))->0;
    &&& decimal::multiplies_exactly(entry, held)
    &&& decimal::multiplies_exactly(price, qty)
    &&& decimal::adds_exactly(before, more)
    &&& decimal::adds_exactly(held, qty)
    &&& decimal::divides_exactly(
        decimal::plus(Some(before), Some(more))->0,
        decimal::plus(Some(held), Some(qty))->0,
    )
}

/// The profit of a quantity between two prices is not rounded, nor is its sum with another
/// number, with the one sign or the other.
pub open spec fn profits_exactly(from: Decimal, to: Decimal, qty: Decimal, other: Decimal) -> bool {
    let gain = decimal::minus(Some(to), Some(from))->0;
    let profit = decimal::times(Some(gain), Some(qty))->0;
    &&& decimal::subtracts_exactly(to, from)
    &&& decimal::multiplies_exactly(gain, qty)
    &&& decimal::adds_exactly(other, profit)
    &&& decimal::adds_exactly(other, decimal::negated(profit))
}

/// No step of a fill is rounded.
pub open spec fn books_exactly(p: Position, side: OrderSide, qty: Decimal, price: Decimal) -> bool {
    let held = decimal::magnitude(p.qty);
    let step = if side == OrderSide::Buy {
        qty
    } else {
        decimal::negated(qty)
    };
    &&& decimal::adds_exactly(p.qty, step)
    &&& p.avg_entry_px matches Some(e) ==> if (p.qty.m() > 0) == (side == OrderSide::Buy) {
        averages_exactly(held, e.0, qty, price)
    } else {
        profits_exactly(e.0, price, decimal::smaller(qty, held), p.realized_pnl)
    }
}

/// One for a buy and minus one for a sell.
pub open spec fn way(side: OrderSide) -> int {
    match side {
        OrderSide::Buy => 1,
        OrderSide::Sell => -1,
    }
}

proof fn lemma_average(q: int, h: int, y: int, a: int, c: int, g: int, d: int)
    requires
        d == 1 || d == -1,
        q == d * h,
        g * (h + y) == a * h + c * y,
    ensures
        (q + d * y) * g == q * a + d * y * c,
{
    assert((d * h + d * y) * g == d * (g * (h + y))) by (nonlinear_arith);
    assert(d * (a * h + c * y) == d * h * a + d * y * c) by (nonlinear_arith);
}

/// A fill changes what a position is worth, at every price, by what the filled quantity is worth
/// there against the price that it was filled at. The quantity grows by what is bought and
/// shrinks by what is sold. Adding to a position realizes nothing, closing a part of it keeps
/// its entry price, and a position that is opened or turned around was entered at the price of
/// the fill. All of this where no step is rounded.
pub proof fn law_fill_is_worth_its_price(p: Position, side: OrderSide, qty: Decimal, price: Decimal)
    requires
        sound(p),
        qty@.valid(),
        qty.m() > 0,
        price@.valid(),
        books_exactly(p, side, qty, price),
    ensures
        state::position_filled(p, side, qty, price) matches Some(n) && {
            let (old, new) = (decimal::units(p.qty), decimal::units(n.qty));
            &&& sound(n)
            &&& new == old + way(side) * decimal::units(qty)
            &&& forall|x: int| #[trigger]
                worth(n, x) == worth(p, x) + way(side) * decimal::units(qty) * (x - decimal::units(
                    price,
                ))
            &&& old * way(side) >= 0 ==> n.realized_pnl == p.realized_pnl
            &&& (old > 0 && 0 < new < old) || (old < 0 && old < new < 0) ==> n.avg_entry_px
                == p.avg_entry_px
            &&& (old <= 0 && new > 0) || (old >= 0 && new < 0) ==> (n.avg_entry_px matches Some(e)
                && e.0 == price)
            &&& n.total_fees == p.total_fees
        },
{
    broadcast use crate::decimal::lemma_of_view, crate::decimal::lemma_view_of;

    let k = unit();
    let d = way(side);
    let held = decimal::magnitude(p.qty);
    let step = state::signed(side, qty);
    decimal::lemma_pow10_positive(28);
    decimal::lemma_units_sign(p.qty);
    decimal::lemma_units_sign(qty);
    decimal::lemma_units_sign(held);
    decimal::law_exact_sum(p.qty, step);
    let new_qty = decimal::plus(Some(p.qty), Some(step))->0;
    decimal::lemma_units_sign(new_qty);
    let (q, y, c, r, h) = (
        decimal::units(p.qty),
        decimal::units(qty),
        decimal::units(price),
        decimal::units(p.realized_pnl),
        decimal::units(held),
    );
    let n0 = decimal::units(new_qty);
    assert(n0 == q + d * y) by (nonlinear_arith)
        requires
            d == 1 && n0 == q + y || d == -1 && n0 == q - y,
    ;
    assert(q * d >= 0 <==> (q == 0 || (q > 0) == (d > 0))) by (nonlinear_arith)
        requires
            d == 1 || d == -1,
    ;
    match p.avg_entry_px {
        None => {
            let n = state::position_filled(p, side, qty, price)->0;
            assert forall|x: int| #[trigger] worth(n, x) == worth(p, x) + d * y * (x - c) by {
                assert(0 * (x - 0) == 0 && n0 == d * y);
            }
        },
        Some(e) => {
            let a = decimal::units(e.0);
            if (p.qty.m() > 0) == (side == OrderSide::Buy) {
                let before = decimal::times(Some(e.0), Some(held))->0;
                let more = decimal::times(Some(price), Some(qty))->0;
                decimal::law_exact_sum(before, more);
                decimal::law_exact_sum(held, qty);
                let notional = decimal::plus(Some(before), Some(more))->0;
                let size = decimal::plus(Some(held), Some(qty))->0;
                decimal::lemma_units_sign(size);
                let avg = decimal::over(Some(notional), Some(size))->0;
                let n = state::position_filled(p, side, qty, price)->0;
                let (b, m, t, s, g) = (
                    decimal::units(before),
                    decimal::units(more),
                    decimal::units(notional),
                    decimal::units(size),
                    decimal::units(avg),
                );
                assert((b + m) * k == b * k + m * k) by (nonlinear_arith);
                lemma_average(q, h, y, a, c, g, d);
                assert forall|x: int| #[trigger] worth(n, x) == worth(p, x) + d * y * (x - c) by {
                    assert(n0 * (x - g) == n0 * x - n0 * g && q * (x - a) == q * x - q * a && d * y
                        * (x - c) == d * y * x - d * y * c && (q + d * y) * x == q * x + d * y * x)
                        by (nonlinear_arith);
                }
            } else {
                let part = decimal::smaller(qty, held);
                decimal::law_order_by_units(held, qty);
                decimal::law_order_by_units(qty, held);
                decimal::law_exact_difference(price, e.0);
                let gain = decimal::minus(Some(price), Some(e.0))->0;
                let plain = decimal::times(Some(gain), Some(part))->0;
                decimal::lemma_times_one(plain);
                let turn = if p.qty.m() > 0 {
                    decimal::one()
                } else {
                    decimal::negated(decimal::one())
                };
                let profit = decimal::times(Some(plain), Some(turn))->0;
                decimal::law_exact_sum(p.realized_pnl, profit);
                let n = state::position_filled(p, side, qty, price)->0;
                assert(state::fill_profit(p, e.0, new_qty, qty, price) == Some(profit));
                let r2 = decimal::units(n.realized_pnl);
                let (f, w, z) = (decimal::units(profit), decimal::units(part), decimal::units(plain));
                assert(r2 == r + f);
                assert(r2 * k == r * k - d * ((c - a) * w)) by (nonlinear_arith)
                    requires
                        r2 == r + f,
                        f == -d * z,
                        z * k == (c - a) * w,
                ;
                assert forall|x: int| #[trigger] worth(n, x) == worth(p, x) + d * y * (x - c) by {
                    if n0 == 0 || (n0 > 0) == (q > 0) {
                        assert(w == y);
                        let a2 = entry_units(n);
                        assert(n0 * (x - a2) == n0 * (x - a)) by (nonlinear_arith)
                            requires
                                n0 == 0 || a2 == a,
                        ;
                        assert(-(d * ((c - a) * y)) + (q + d * y) * (x - a) == q * (x - a) + d * y * (x
                            - c)) by (nonlinear_arith);
                    } else {
                        assert(w == h && entry_units(n) == c);
                        assert(-(d * ((c - a) * h)) + (q + d * y) * (x - c) == q * (x - a) + d * y * (x
                            - c)) by (nonlinear_arith)
                            requires
                                q == -(d * h),
                        ;
                    }
                }
            }
        },
    }
}

/// The middle of two prices is as far from the one as from the other, where neither step is
/// rounded.
pub proof fn law_middle_is_halfway(bid: Decimal, ask: Decimal)
    requires
        bid@.valid(),
        ask@.valid(),
        decimal::adds_exactly(bid, ask),
        decimal::divides_exactly(decimal::plus(Some(bid), Some(ask))->0, Decimal::lit(2, 0)),
    ensures
        types::halfway(bid, ask) matches Some(mid) && mid@.valid() && decimal::units(ask)
            - decimal::units(mid) == decimal::units(mid) - decimal::units(bid),
{
    broadcast use crate::decimal::lemma_of_view, crate::decimal::lemma_view_of;

    decimal::lemma_pow10_positive(28);
    decimal::law_exact_sum(bid, ask);
    let mid = types::halfway(bid, ask)->0;
    let two = Decimal::lit(2, 0);
    assert(two@ == (decimal::DecimalView { mantissa: 2, scale: 0 }));
    assert(decimal::units(two) == 2 * unit());
    let (m, b, a, k) = (decimal::units(mid), decimal::units(bid), decimal::units(ask), unit());
    assert(2 * m == a + b) by (nonlinear_arith)
        requires
            k > 0,
            m * (2 * k) == (b + a) * k,
    ;
}

/// No step of marking a position is rounded.
pub open spec fn marks_exactly(p: Position, q: Quote) -> bool {
    let mid = types::halfway(q.bid.0, q.ask.0)->0;
    &&& decimal::adds_exactly(q.bid.0, q.ask.0)
    &&& decimal::divides_exactly(
        decimal::plus(Some(q.bid.0), Some(q.ask.0))->0,
        Decimal::lit(2, 0),
    )
    &&& p.avg_entry_px matches Some(e) ==> decimal::subtracts_exactly(mid, e.0)
        && decimal::multiplies_exactly(decimal::minus(Some(mid), Some(e.0))->0, p.qty)
}

/// The profit that a quote gives to a position is its quantity, with its sign, times the way
/// from the entry price to the middle of the quote: a short gains as the price falls. Nothing
/// else changes. This is so where no step is rounded.
pub proof fn law_held_profit(p: Position, q: Quote)
    requires
        sound(p),
        p.qty.m() != 0,
        q.bid.0@.valid(),
        q.ask.0@.valid(),
        marks_exactly(p, q),
    ensures
        state::position_marked(p, Some(q)) matches Some(m) && {
            let way = decimal::units(q.bid.0) + decimal::units(q.ask.0) - 2 * entry_units(p);
            &&& m == (Position { unrealized_pnl: m.unrealized_pnl, ..p })
            &&& m.unrealized_pnl matches Some(u) && {
                &&& u@.valid()
                &&& 2 * (decimal::units(u) * unit()) == decimal::units(p.qty) * way
                &&& decimal::units(u) > 0 <==> (decimal::units(p.qty) > 0 && way > 0) || (
                decimal::units(p.qty) < 0 && way < 0)
                &&& decimal::units(u) < 0 <==> (decimal::units(p.qty) > 0 && way < 0) || (
                decimal::units(p.qty) < 0 && way > 0)
            }
        },
{
    law_middle_is_halfway(q.bid.0, q.ask.0);
    decimal::lemma_pow10_positive(28);
    decimal::lemma_units_sign(p.qty);
    let mid = types::halfway(q.bid.0, q.ask.0)->0;
    let e = p.avg_entry_px->0;
    decimal::law_exact_difference(mid, e.0);
    let way = decimal::units(q.bid.0) + decimal::units(q.ask.0) - 2 * entry_units(p);
    let gain = decimal::units(decimal::minus(Some(mid), Some(e.0))->0);
    let u = decimal::units((state::position_marked(p, Some(q))->0).unrealized_pnl->0);
    let (k, n) = (unit(), decimal::units(p.qty));
    assert(way == 2 * gain);
    assert(2 * (u * k) == n * way) by (nonlinear_arith)
        requires
            way == 2 * gain,
            u * k == gain * n,
    ;
    assert((u > 0 <==> (n > 0 && way > 0) || (n < 0 && way < 0)) && (u < 0 <==> (n > 0 && way < 0)
        || (n < 0 && way > 0))) by (nonlinear_arith)
        requires
            2 * (u * k) == n * way,
            k > 0,
    ;
}

/// Without a quote, or flat, a position keeps the profit that it has.
pub proof fn law_nothing_to_mark(p: Position, quote: Option<Quote>)
    requires
        quote is None || p.avg_entry_px is None,
    ensures
        state::position_marked(p, quote) == Some(p),
{
}

/// Closing a whole position at the middle of a quote realizes just the profit that marking it at
/// that quote showed, where no step is rounded.
pub proof fn law_closing_realizes_held_profit(p: Position, q: Quote)
    requires
        sound(p),
        p.qty.m() != 0,
        q.bid.0@.valid(),
        q.ask.0@.valid(),
        marks_exactly(p, q),
        books_exactly(
            p,
            if p.qty.m() > 0 {
                OrderSide::Sell
            } else {
                OrderSide::Buy
            },
            decimal::magnitude(p.qty),
            types::halfway(q.bid.0, q.ask.0)->0,
        ),
    ensures
        ({
            let side = if p.qty.m() > 0 {
                OrderSide::Sell
            } else {
                OrderSide::Buy
            };
            let mid = types::halfway(q.bid.0, q.ask.0)->0;
            &&& state::position_marked(p, Some(q)) matches Some(m)
            &&& m.unrealized_pnl matches Some(u)
            &&& state::position_filled(p, side, decimal::magnitude(p.qty), mid) matches Some(n)
            &&& n.qty.m() == 0
            &&& n.unrealized_pnl is None
            &&& decimal::units(n.realized_pnl) == decimal::units(p.realized_pnl) + decimal::units(u)
        }),
{
    broadcast use crate::decimal::lemma_of_view, crate::decimal::lemma_view_of;

    let side = if p.qty.m() > 0 {
        OrderSide::Sell
    } else {
        OrderSide::Buy
    };
    let mid = types::halfway(q.bid.0, q.ask.0)->0;
    let size = decimal::magnitude(p.qty);
    decimal::lemma_pow10_positive(28);
    decimal::lemma_units_sign(p.qty);
    decimal::lemma_units_sign(size);
    law_middle_is_halfway(q.bid.0, q.ask.0);
    law_held_profit(p, q);
    law_fill_is_worth_its_price(p, side, size, mid);
    let n = state::position_filled(p, side, size, mid)->0;
    let u = decimal::units((state::position_marked(p, Some(q))->0).unrealized_pnl->0);
    decimal::lemma_units_sign(n.qty);
    let (x, k) = (decimal::units(mid), unit());
    let way = decimal::units(q.bid.0) + decimal::units(q.ask.0) - 2 * entry_units(p);
    let (a, b, d) = (decimal::units(n.realized_pnl), decimal::units(p.realized_pnl), decimal::units(p.qty));
    assert(worth(n, x) == worth(p, x) + crate::position_laws::way(side) * decimal::units(size) * (x - x));
    assert(0 * (x - entry_units(n)) == 0);
    assert(crate::position_laws::way(side) * decimal::units(size) * 0 == 0) by (nonlinear_arith);
    assert(a == b + u) by (nonlinear_arith)
        requires
            k > 0,
            a * k == b * k + d * (x - entry_units(p)),
            2 * (u * k) == d * way,
            way == 2 * (x - entry_units(p)),
    ;
}

/// What is held of an instrument is shown with the profit that its own quote gives it, and
/// without a quote as it was booked.
pub proof fn law_state_marks_at_its_quote(v: StateView, instrument: InstrumentId, p: Position)
    requires
        strmap::lookup(v.positions, instrument@) == Some(p),
        sound(p),
        p.qty.m() != 0,
        strmap::lookup(v.quotes, instrument@) matches Some(q) ==> q.bid.0@.valid()
            && q.ask.0@.valid() && marks_exactly(p, q),
    ensures
        match strmap::lookup(v.quotes, instrument@) {
            Some(q) => v.marked(instrument) matches Some(m) && m.qty == p.qty && m.avg_entry_px
                == p.avg_entry_px && m.realized_pnl == p.realized_pnl && m.total_fees == p.total_fees
                && (m.unrealized_pnl matches Some(u) && 2 * (decimal::units(u) * unit())
                == decimal::units(p.qty) * (decimal::units(q.bid.0) + decimal::units(q.ask.0) - 2
                * entry_units(p))),
            None => v.marked(instrument) == Some(p),
        },
{
    match strmap::lookup(v.quotes, instrument@) {
        Some(q) => {
            law_held_profit(p, q);
        },
        None => {},
    }
}

/// A quote that is taken is the one by which its instrument is marked from then on, and the
/// others keep theirs.
pub proof fn law_last_quote_counts(v: StateView, quote: Quote, other: InstrumentId)
    requires
        strmap::distinct_keys(v.quotes),
    ensures
        ({
            let w = StateView { quotes: strmap::put(v.quotes, quote.instrument.0, quote), ..v };
            strmap::lookup(w.quotes, other@) == (if other@ == quote.instrument@ {
                Some(quote)
            } else {
                strmap::lookup(v.quotes, other@)
            })
        }),
{
    strmap::lemma_put(v.quotes, quote.instrument.0, quote);
}

} // verus!
