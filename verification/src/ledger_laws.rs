//! What fills and reservations do to balances, and fills to orders.
use vstd::prelude::*;
use crate::decimal;
use crate::inventory;
use crate::order_manager;
use crate::strmap;
use crate::decimal::Decimal;
use crate::inventory::{Accounts, AssetAccount, InventoryView, Reservation};
use crate::order_manager::OrderBook;
use crate::types::{AssetId, ClientOrderId, ExchangeOrderId, Fee, LiveOrder, OrderSide, OrderStatus, Price, Qty, StrategyId, TradeId};

verus! {

/// One in units.
pub open spec fn unit() -> int {
    decimal::pow10(28)
}

/// A number, or nothing where it is less than nothing.
pub open spec fn at_least_nothing(x: int) -> int {
    if x < 0 {
        0
    } else {
        x
    }
}

/// What is held of an asset, in units.
pub open spec fn total(s: Accounts, asset: AssetId) -> int {
    decimal::units(inventory::account(s, asset).total)
}

/// No asset is listed twice, and all numbers are within the limits.
pub open spec fn sound(s: Accounts) -> bool {
    &&& strmap::distinct_keys(s)
    &&& forall|asset: AssetId|
        {
            let a = #[trigger] inventory::account(s, asset);
            a.total@.valid() && a.reserved@.valid()
        }
}

/// The fee where it is taken in an asset, in units.
pub open spec fn fee_in(fee: Fee, asset: AssetId) -> int {
    if fee.asset@ == asset@ {
        decimal::units(fee.amount)
    } else {
        0
    }
}

/// Only the accounts of two assets changed, and nothing that is set aside.
pub open spec fn only_totals(s: Accounts, t: Accounts, base: AssetId, quote: AssetId) -> bool {
    &&& forall|asset: AssetId| #[trigger]
        inventory::account(t, asset).reserved == inventory::account(s, asset).reserved
    &&& forall|asset: AssetId|
        asset@ != base@ && asset@ != quote@ ==> #[trigger] inventory::account(t, asset)
            == inventory::account(s, asset)
}

proof fn lemma_credited(s: Accounts, asset: AssetId, amount: Decimal)
    requires
        sound(s),
        amount@.valid(),
        decimal::adds_exactly(inventory::account(s, asset).total, amount),
    ensures
        inventory::credited(s, asset, Some(amount)) matches Some(t) && {
            &&& sound(t)
            &&& only_totals(s, t, asset, asset)
            &&& total(t, asset) == total(s, asset) + decimal::units(amount)
        },
{
    let a = inventory::account(s, asset);
    decimal::law_exact_sum(a.total, amount);
    let t = inventory::credited(s, asset, Some(amount))->0;
    let b = AssetAccount { total: decimal::plus(Some(a.total), Some(amount))->0, ..a };
    strmap::lemma_put(s, asset.0, b);
    assert forall|x: AssetId| #[trigger] inventory::account(t, x) == (if x@ == asset@ {
        b
    } else {
        inventory::account(s, x)
    }) by {}
    assert forall|x: AssetId|
        {
            let c = #[trigger] inventory::account(t, x);
            c.total@.valid() && c.reserved@.valid()
        } by {
        let c = inventory::account(s, x);
    }
    assert forall|x: AssetId| #[trigger]
        inventory::account(t, x).reserved == inventory::account(s, x).reserved by {
        if x@ == asset@ {
            assert(inventory::account(s, x) == a);
        }
    }
}

proof fn lemma_debited(s: Accounts, asset: AssetId, amount: Decimal)
    requires
        sound(s),
        amount@.valid(),
        decimal::subtracts_exactly(inventory::account(s, asset).total, amount),
    ensures
        inventory::debited(s, asset, Some(amount)) matches Some(t) && {
            &&& sound(t)
            &&& only_totals(s, t, asset, asset)
            &&& total(t, asset) == at_least_nothing(total(s, asset) - decimal::units(amount))
        },
{
    broadcast use crate::decimal::lemma_of_view;

    decimal::lemma_units_sign(decimal::zero());
    let a = inventory::account(s, asset);
    decimal::law_exact_difference(a.total, amount);
    let left = decimal::minus(Some(a.total), Some(amount))->0;
    decimal::law_order_by_units(left, decimal::zero());
    let t = inventory::debited(s, asset, Some(amount))->0;
    let b = AssetAccount { total: decimal::larger(left, decimal::zero()), ..a };
    strmap::lemma_put(s, asset.0, b);
    assert forall|x: AssetId| #[trigger] inventory::account(t, x) == (if x@ == asset@ {
        b
    } else {
        inventory::account(s, x)
    }) by {}
    assert forall|x: AssetId|
        {
            let c = #[trigger] inventory::account(t, x);
            c.total@.valid() && c.reserved@.valid()
        } by {
        let c = inventory::account(s, x);
    }
    assert forall|x: AssetId| #[trigger]
        inventory::account(t, x).reserved == inventory::account(s, x).reserved by {
        if x@ == asset@ {
            assert(inventory::account(s, x) == a);
        }
    }
}

/// No step of a trade is rounded.
pub open spec fn trades_exactly(
    s: Accounts,
    side: OrderSide,
    base: AssetId,
    quote: AssetId,
    qty: Decimal,
    price: Decimal,
    fee: Fee,
) -> bool {
    let (a, b) = (inventory::account(s, base).total, inventory::account(s, quote).total);
    let paid = decimal::times(Some(qty), Some(price))->0;
    &&& decimal::multiplies_exactly(qty, price)
    &&& match side {
        OrderSide::Buy => {
            &&& if fee.asset@ == base@ {
                &&& decimal::subtracts_exactly(qty, fee.amount)
                &&& decimal::adds_exactly(a, decimal::minus(Some(qty), Some(fee.amount))->0)
            } else {
                decimal::adds_exactly(a, qty)
            }
            &&& if fee.asset@ == quote@ {
                &&& decimal::adds_exactly(paid, fee.amount)
                &&& decimal::subtracts_exactly(b, decimal::plus(Some(paid), Some(fee.amount))->0)
            } else {
                decimal::subtracts_exactly(b, paid)
            }
        },
        OrderSide::Sell => {
            &&& if fee.asset@ == base@ {
                &&& decimal::adds_exactly(qty, fee.amount)
                &&& decimal::subtracts_exactly(a, decimal::plus(Some(qty), Some(fee.amount))->0)
            } else {
                decimal::subtracts_exactly(a, qty)
            }
            &&& if fee.asset@ == quote@ {
                &&& decimal::subtracts_exactly(paid, fee.amount)
                &&& decimal::adds_exactly(b, decimal::minus(Some(paid), Some(fee.amount))->0)
            } else {
                decimal::adds_exactly(b, paid)
            }
        },
    }
}

/// A purchase brings the quantity and costs the quantity times the price, a sale the other way
/// round, and the fee is lost in the asset that it is taken in; nothing that is held becomes less
/// than nothing, and what is set aside does not change, nor does any other asset. This is so
/// where no step is rounded.
pub proof fn law_trade_moves_both_assets(
    s: Accounts,
    side: OrderSide,
    base: AssetId,
    quote: AssetId,
    qty: Decimal,
    price: Decimal,
    fee: Fee,
)
    requires
        sound(s),
        qty@.valid(),
        price@.valid(),
        fee.amount@.valid(),
        base@ != quote@,
        decimal::units(qty) * decimal::units(price) >= 0,
        side == OrderSide::Sell ==> fee_in(fee, quote) * unit() <= decimal::units(qty) * decimal::units(
            price,
        ),
        trades_exactly(s, side, base, quote, qty, price, fee),
    ensures
        inventory::traded(s, side, base, quote, qty, price, fee) matches Some(t) && {
            let (q, n) = (decimal::units(qty), decimal::units(qty) * decimal::units(price));
            let (f, g) = (fee_in(fee, base), fee_in(fee, quote) * unit());
            &&& sound(t)
            &&& only_totals(s, t, base, quote)
            &&& match side {
                OrderSide::Buy => {
                    &&& total(t, base) == total(s, base) + q - f
                    &&& total(t, quote) * unit() == at_least_nothing(total(s, quote) * unit() - n - g)
                },
                OrderSide::Sell => {
                    &&& total(t, base) == at_least_nothing(total(s, base) - q - f)
                    &&& total(t, quote) * unit() == total(s, quote) * unit() + n - g
                },
            }
        },
{
    broadcast use crate::decimal::lemma_of_view;

    decimal::lemma_pow10_positive(28);
    decimal::lemma_units_sign(decimal::zero());
    let paid = decimal::times(Some(qty), Some(price))->0;
    let (n, k) = (decimal::units(paid), unit());
    let (g, b) = (fee_in(fee, quote), total(s, quote));
    match side {
        OrderSide::Buy => {
            let got = if fee.asset@ == base@ {
                decimal::law_exact_difference(qty, fee.amount);
                decimal::minus(Some(qty), Some(fee.amount))->0
            } else {
                qty
            };
            lemma_credited(s, base, got);
            let t = inventory::credited(s, base, Some(got))->0;
            assert(inventory::account(t, quote) == inventory::account(s, quote));
            let cost = if fee.asset@ == quote@ {
                decimal::law_exact_sum(paid, fee.amount);
                decimal::plus(Some(paid), Some(fee.amount))->0
            } else {
                paid
            };
            lemma_debited(t, quote, cost);
            let u = inventory::debited(t, quote, Some(cost))->0;
            assert(inventory::account(u, base) == inventory::account(t, base));
            let c = decimal::units(cost);
            assert(c == n + g);
            assert(at_least_nothing(b - c) * k == at_least_nothing(b * k - n * k - g * k)) by (nonlinear_arith)
                requires
                    c == n + g,
                    k > 0,
            ;
            lemma_two_steps(s, t, u, base, quote);
        },
        OrderSide::Sell => {
            let given = if fee.asset@ == base@ {
                decimal::law_exact_sum(qty, fee.amount);
                decimal::plus(Some(qty), Some(fee.amount))->0
            } else {
                qty
            };
            lemma_debited(s, base, given);
            let t = inventory::debited(s, base, Some(given))->0;
            assert(inventory::account(t, quote) == inventory::account(s, quote));
            let got = if fee.asset@ == quote@ {
                decimal::law_exact_difference(paid, fee.amount);
                decimal::minus(Some(paid), Some(fee.amount))->0
            } else {
                paid
            };
            let c = decimal::units(got);
            assert(c == n - g);
            assert(c >= 0) by (nonlinear_arith)
                requires
                    c == n - g,
                    k > 0,
                    g * k <= n * k,
            ;
            decimal::law_order_by_units(got, decimal::zero());
            assert(decimal::larger(got, decimal::zero()) == got);
            lemma_credited(t, quote, got);
            let u = inventory::credited(t, quote, Some(got))->0;
            assert(inventory::account(u, base) == inventory::account(t, base));
            assert((b + c) * k == b * k + n * k - g * k) by (nonlinear_arith)
                requires
                    c == n - g,
            ;
            lemma_two_steps(s, t, u, base, quote);
        },
    }
}

proof fn lemma_two_steps(s: Accounts, t: Accounts, u: Accounts, base: AssetId, quote: AssetId)
    requires
        only_totals(s, t, base, base),
        only_totals(t, u, quote, quote),
    ensures
        only_totals(s, u, base, quote),
{
    assert forall|x: AssetId| #[trigger]
        inventory::account(u, x).reserved == inventory::account(s, x).reserved by {
        assert(inventory::account(t, x).reserved == inventory::account(s, x).reserved);
    }
    assert forall|x: AssetId| x@ != base@ && x@ != quote@ implies #[trigger] inventory::account(u, x)
        == inventory::account(s, x) by {
        assert(inventory::account(t, x) == inventory::account(s, x));
    }
}

/// An amount is refused to an order just where it is more than what is held and not set aside;
/// otherwise so much more is set aside, and nothing is spent. This is so where no step is rounded.
pub proof fn law_reservation_needs_funds(v: InventoryView, asset: AssetId, amount: Decimal)
    requires
        amount@.valid(),
        ({
            let a = inventory::account(v.accounts, asset);
            &&& a.total@.valid()
            &&& a.reserved@.valid()
            &&& decimal::subtracts_exactly(a.total, a.reserved)
            &&& decimal::adds_exactly(a.reserved, amount)
        }),
    ensures
        ({
            let a = inventory::account(v.accounts, asset);
            &&& v.short(asset, amount) <==> decimal::units(a.total) - decimal::units(a.reserved)
                < decimal::units(amount)
            &&& v.account_reserved(asset, amount) matches Some(b) && b.total == a.total && decimal::units(
                b.reserved,
            ) == decimal::units(a.reserved) + decimal::units(amount)
        }),
{
    let a = inventory::account(v.accounts, asset);
    decimal::law_exact_difference(a.total, a.reserved);
    decimal::law_exact_sum(a.reserved, amount);
    decimal::law_order_by_units(decimal::minus(Some(a.total), Some(a.reserved))->0, amount);
}

/// When a fraction of an order is filled, that fraction of what is set aside for it is set free:
/// of its reservation as much less is left, and of the account as much less is set aside, but
/// never less than nothing. This is so where no step is rounded.
pub proof fn law_part_of_reservation_is_freed(
    r: Reservation,
    a: AssetAccount,
    asset: AssetId,
    fraction: Decimal,
)
    requires
        r.asset@ == asset@,
        r.amount@.valid(),
        a.reserved@.valid(),
        decimal::multiplies_exactly(r.amount, fraction),
        decimal::subtracts_exactly(r.amount, decimal::times(Some(r.amount), Some(fraction))->0),
        decimal::subtracts_exactly(a.reserved, decimal::times(Some(r.amount), Some(fraction))->0),
    ensures
        inventory::all_shrunk(seq![r], Some(a), asset, fraction) matches Some(s) && {
            let (m, f) = (decimal::units(r.amount), decimal::units(fraction));
            &&& s.reservations.len() == 1
            &&& s.reservations[0].asset == r.asset
            &&& decimal::units(s.reservations[0].amount) * unit() == m * (unit() - f)
            &&& s.account matches Some(b) && b.total == a.total && decimal::units(b.reserved) * unit()
                == at_least_nothing(decimal::units(a.reserved) * unit() - m * f)
        },
{
    broadcast use crate::decimal::lemma_of_view;

    decimal::lemma_pow10_positive(28);
    decimal::lemma_units_sign(decimal::zero());
    let rs = seq![r];
    assert(rs.drop_last() =~= Seq::empty());
    assert(rs.last() == r);
    reveal_with_fuel(inventory::all_shrunk, 2);
    let freed = decimal::times(Some(r.amount), Some(fraction))->0;
    decimal::law_exact_difference(r.amount, freed);
    decimal::law_exact_difference(a.reserved, freed);
    let left = decimal::minus(Some(a.reserved), Some(freed))->0;
    decimal::law_order_by_units(left, decimal::zero());
    let (m, f, k, x, y) = (
        decimal::units(r.amount),
        decimal::units(fraction),
        unit(),
        decimal::units(freed),
        decimal::units(a.reserved),
    );
    assert((m - x) * k == m * (k - f) && at_least_nothing(y - x) * k == at_least_nothing(y * k - m * f))
        by (nonlinear_arith)
        requires
            x * k == m * f,
            k > 0,
    ;
    let s = inventory::all_shrunk(rs, Some(a), asset, fraction)->0;
    assert(s.reservations =~= seq![inventory::shrunk(r, asset, fraction)->0]);
}

/// A strategy may use an amount unless it has a budget for the asset that is less.
pub proof fn law_budget_bounds_strategy(
    v: InventoryView,
    strategy_id: StrategyId,
    asset: AssetId,
    amount: Decimal,
)
    requires
        amount@.valid(),
        strmap::lookup(v.allocations, strategy_id@) matches Some(a) ==> (strmap::lookup(
            a.budgets.list(),
            asset@,
        ) matches Some(b) ==> b@.valid()),
    ensures
        !v.affords(strategy_id, asset, amount) <==> (strmap::lookup(v.allocations, strategy_id@) matches Some(
            a,
        ) && (strmap::lookup(a.budgets.list(), asset@) matches Some(b) && decimal::units(b)
            < decimal::units(amount))),
{
    if let Some(a) = strmap::lookup(v.allocations, strategy_id@) {
        if let Some(b) = strmap::lookup(a.budgets.list(), asset@) {
            decimal::law_order_by_units(b, amount);
        }
    }
}

/// The average price of an order in units; nothing before its first fill.
pub open spec fn average(o: LiveOrder) -> int {
    match o.avg_fill_px {
        Some(p) => decimal::units(p.0),
        None => 0,
    }
}

/// No step of a fill of an order is rounded.
pub open spec fn fills_exactly(o: LiveOrder, qty: Decimal, px: Decimal) -> bool {
    let before = match o.avg_fill_px {
        Some(p) => p.0,
        None => decimal::zero(),
    };
    let filled = decimal::plus(Some(o.filled_qty.0), Some(qty))->0;
    let had = decimal::minus(Some(filled), Some(qty))->0;
    let a = decimal::times(Some(before), Some(had))->0;
    let b = decimal::times(Some(px), Some(qty))->0;
    &&& decimal::adds_exactly(o.filled_qty.0, qty)
    &&& decimal::subtracts_exactly(filled, qty)
    &&& decimal::multiplies_exactly(before, had)
    &&& decimal::multiplies_exactly(px, qty)
    &&& decimal::adds_exactly(a, b)
    &&& decimal::divides_exactly(decimal::plus(Some(a), Some(b))->0, filled)
}

/// A fill adds its quantity to what is filled of an order, and its notional to what was paid: the
/// average price times the quantity is the sum over the fills. The order is done once all that
/// was asked for is filled, and not before. This is so where no step is rounded.
pub proof fn law_order_averages_its_fills(o: LiveOrder, qty: Qty, px: Price, now: i64)
    requires
        o.filled_qty.0@.valid(),
        o.filled_qty.0.m() >= 0,
        o.requested_qty.0@.valid(),
        o.avg_fill_px matches Some(p) ==> p.0@.valid(),
        qty.0@.valid(),
        qty.0.m() > 0,
        fills_exactly(o, qty.0, px.0),
    ensures
        order_manager::order_filled(o, qty, px, now) matches Some(n) && {
            let (f, q) = (decimal::units(o.filled_qty.0), decimal::units(qty.0));
            &&& decimal::units(n.filled_qty.0) == f + q
            &&& average(n) * (f + q) == average(o) * f + decimal::units(px.0) * q
            &&& n.status == OrderStatus::Filled <==> f + q >= decimal::units(o.requested_qty.0)
            &&& n.status == OrderStatus::PartiallyFilled <==> f + q < decimal::units(o.requested_qty.0)
            &&& n.client_id == o.client_id
            &&& n.exchange_order_id == o.exchange_order_id
            &&& n.side == o.side
            &&& n.price == o.price
            &&& n.instrument == o.instrument
            &&& n.requested_qty == o.requested_qty
            &&& n.ts_last_update == now
        },
{
    broadcast use crate::decimal::lemma_of_view;

    decimal::lemma_pow10_positive(28);
    decimal::lemma_units_sign(decimal::zero());
    decimal::lemma_units_sign(qty.0);
    decimal::lemma_units_sign(o.filled_qty.0);
    let before = match o.avg_fill_px {
        Some(p) => p.0,
        None => decimal::zero(),
    };
    decimal::law_exact_sum(o.filled_qty.0, qty.0);
    let filled = decimal::plus(Some(o.filled_qty.0), Some(qty.0))->0;
    decimal::lemma_units_sign(filled);
    decimal::law_exact_difference(filled, qty.0);
    let had = decimal::minus(Some(filled), Some(qty.0))->0;
    let a = decimal::times(Some(before), Some(had))->0;
    let b = decimal::times(Some(px.0), Some(qty.0))->0;
    decimal::law_exact_sum(a, b);
    decimal::law_order_by_units(filled, o.requested_qty.0);
    let n = order_manager::order_filled(o, qty, px, now)->0;
    let (x, y, k) = (decimal::units(a), decimal::units(b), unit());
    assert((x + y) * k == x * k + y * k) by (nonlinear_arith);
}

/// A fill of a tracked order, unless it was seen before, fills that order and no other, and is
/// seen from then on.
pub proof fn law_fill_reaches_its_order(
    book: OrderBook,
    client_id: ClientOrderId,
    trade_id: TradeId,
    qty: Qty,
    px: Price,
    now: i64,
    other: ClientOrderId,
)
    requires
        book.sound(),
        book.filled(client_id, trade_id, qty, px, now) is Some,
    ensures
        ({
            let n = book.filled(client_id, trade_id, qty, px, now)->0;
            &&& book.seen.contains(trade_id@) ==> n == book
            &&& n.seen.contains(trade_id@)
            &&& other@ != client_id@ ==> n.order(other) == book.order(other)
            &&& !book.seen.contains(trade_id@) ==> (match book.order(client_id) {
                Some(o) => n.order(client_id) is Some && n.order(client_id)
                    == order_manager::order_filled(o, qty, px, now),
                None => n.order(client_id) is None,
            })
        }),
{
    let n = book.filled(client_id, trade_id, qty, px, now)->0;
    if !book.seen.contains(trade_id@) {
        let m = n.seen.len() as int;
        assert(n.seen[m - 1] == trade_id@);
        if let Some(o) = book.order(client_id) {
            strmap::lemma_put(
                book.orders,
                client_id.0,
                order_manager::order_filled(o, qty, px, now)->0,
            );
        }
    }
}

/// An order is tracked as it was asked for, with nothing filled.
pub proof fn law_fresh_order_is_open(
    book: OrderBook,
    o: LiveOrder,
    other: ClientOrderId,
)
    requires
        book.sound(),
        o == order_manager::fresh_order(
            o.client_id,
            o.instrument,
            o.side,
            o.price,
            o.requested_qty,
            o.ts_created,
        ),
    ensures
        decimal::units(o.filled_qty.0) == 0,
        o.avg_fill_px is None,
        o.exchange_order_id is None,
        o.status == OrderStatus::New,
        o.ts_last_update == o.ts_created,
        book.created(o).order(o.client_id) == Some(o),
        other@ != o.client_id@ ==> book.created(o).order(other) == book.order(other),
{
    broadcast use crate::decimal::lemma_of_view;

    decimal::lemma_units_sign(decimal::zero());
    strmap::lemma_put(book.orders, o.client_id.0, o);
}

/// An order that the exchange took keeps what it was asked for and what was filled, and is known
/// by the number that the exchange gave it, where it gave one.
pub proof fn law_accepted_order_keeps_its_terms(
    book: OrderBook,
    client_id: ClientOrderId,
    exchange_order_id: Option<ExchangeOrderId>,
    now: i64,
)
    requires
        book.sound(),
        book.order(client_id) is Some,
    ensures
        ({
            let (o, n) = (
                book.order(client_id)->0,
                book.accepted(client_id, exchange_order_id, now).order(client_id),
            );
            n matches Some(a) && {
                &&& a.status == OrderStatus::Accepted
                &&& a.exchange_order_id == (match exchange_order_id {
                    Some(e) => Some(e),
                    None => o.exchange_order_id,
                })
                &&& a.side == o.side
                &&& a.price == o.price
                &&& a.requested_qty == o.requested_qty
                &&& a.filled_qty == o.filled_qty
                &&& a.avg_fill_px == o.avg_fill_px
                &&& a.instrument == o.instrument
            }
        }),
{
    let o = book.order(client_id)->0;
    let taken = LiveOrder {
        status: OrderStatus::Accepted,
        ts_last_update: now,
        exchange_order_id: if exchange_order_id is Some {
            exchange_order_id
        } else {
            o.exchange_order_id
        },
        ..o
    };
    strmap::lemma_put(book.orders, client_id.0, taken);
}

} // verus!
