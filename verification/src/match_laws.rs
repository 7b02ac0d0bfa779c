//! What a simulated fill does: whom it serves, at which price, and what it moves.
use vstd::prelude::*;
use crate::decimal;
use crate::fill_simulator;
use crate::text;
use crate::decimal::Decimal;
use crate::exchange::Fill;
use crate::fill_simulator::{Balances, PendingOrder, Queues, SimulatorView};
use crate::types::{OrderSide, Price, Quote};

verus! {

/// One in units.
pub open spec fn unit() -> int {
    decimal::pow10(28)
}

/// One for a buy and minus one for a sell.
pub open spec fn way(side: OrderSide) -> int {
    match side {
        OrderSide::Buy => 1,
        OrderSide::Sell => -1,
    }
}

/// The balance of an asset in units; nothing where there is none.
pub open spec fn amount(b: Balances, asset: Seq<char>) -> int {
    if b.contains_key(asset) {
        decimal::units(b[asset])
    } else {
        0
    }
}

/// All balances are within the limits.
pub open spec fn sound(b: Balances) -> bool {
    forall|asset: Seq<char>| #[trigger] b.contains_key(asset) ==> b[asset]@.valid()
}

proof fn lemma_gained(b: Balances, asset: Seq<char>, more: Decimal)
    requires
        sound(b),
        more@.valid(),
        decimal::adds_exactly(fill_simulator::held(b, asset), more),
    ensures
        fill_simulator::gained(Some(b), asset, Some(more)) matches Some(c) && {
            &&& sound(c)
            &&& c == b.insert(asset, c[asset])
            &&& amount(c, asset) == amount(b, asset) + decimal::units(more)
        },
{
    broadcast use crate::decimal::lemma_of_view;

    decimal::lemma_units_sign(decimal::zero());
    decimal::law_exact_sum(fill_simulator::held(b, asset), more);
    let c = fill_simulator::gained(Some(b), asset, Some(more))->0;
    assert(c =~= b.insert(asset, c[asset]));
}

proof fn lemma_lost(b: Balances, asset: Seq<char>, less: Decimal)
    requires
        sound(b),
        less@.valid(),
        decimal::subtracts_exactly(fill_simulator::held(b, asset), less),
    ensures
        fill_simulator::lost(Some(b), asset, Some(less)) matches Some(c) && {
            &&& sound(c)
            &&& c == b.insert(asset, c[asset])
            &&& amount(c, asset) == amount(b, asset) - decimal::units(less)
        },
{
    broadcast use crate::decimal::lemma_of_view;

    decimal::lemma_units_sign(decimal::zero());
    decimal::law_exact_difference(fill_simulator::held(b, asset), less);
    let c = fill_simulator::lost(Some(b), asset, Some(less))->0;
    assert(c =~= b.insert(asset, c[asset]));
}

/// No step of a spot fill is rounded: the price of it, the fee, and both balances.
pub open spec fn moves_exactly(b: Balances, fill: Fill, base: Seq<char>) -> bool {
    let usdc = fill_simulator::held(b, "USDC"@);
    let other = fill_simulator::held(b, base);
    let (qty, fee) = (fill.qty.0, fill.fee.amount);
    let paid = decimal::times(Some(fill.price.0), Some(qty))->0;
    &&& decimal::multiplies_exactly(fill.price.0, qty)
    &&& match fill.side {
        OrderSide::Buy => {
            &&& decimal::subtracts_exactly(usdc, paid)
            &&& if fill.fee.asset@ == base {
                &&& decimal::subtracts_exactly(qty, fee)
                &&& decimal::adds_exactly(other, decimal::minus(Some(qty), Some(fee))->0)
            } else {
                decimal::adds_exactly(other, qty)
            }
            &&& fill.fee.asset@ == "USDC"@ ==> decimal::subtracts_exactly(
                decimal::minus(Some(usdc), Some(paid))->0,
                fee,
            )
        },
        OrderSide::Sell => {
            &&& decimal::subtracts_exactly(other, qty)
            &&& if fill.fee.asset@ == "USDC"@ {
                &&& decimal::subtracts_exactly(paid, fee)
                &&& decimal::adds_exactly(usdc, decimal::minus(Some(paid), Some(fee))->0)
            } else {
                decimal::adds_exactly(usdc, paid)
            }
            &&& fill.fee.asset@ == base ==> decimal::subtracts_exactly(
                decimal::minus(Some(other), Some(qty))->0,
                fee,
            )
        },
    }
}

/// The fee of a fill in an asset, in units.
pub open spec fn fee_in(fill: Fill, asset: Seq<char>) -> int {
    if fill.fee.asset@ == asset {
        decimal::units(fill.fee.amount)
    } else {
        0
    }
}

/// A spot fill moves what it says: a purchase costs its price times its quantity in the common
/// currency and brings the quantity of the base asset, a sale the other way round, and the fee
/// leaves the asset that it is taken in. So at the price of the fill both balances together
/// lose just the fee. No other balance changes. This is so where no step is rounded.
pub proof fn law_spot_fill_is_paid(b: Balances, fill: Fill)
    requires
        sound(b),
        fill.price.0@.valid(),
        fill.qty.0@.valid(),
        fill.fee.amount@.valid(),
        !text::finishes_with(fill.instrument@, "-PERP"@),
        fill_simulator::base_of(fill.instrument@) != "USDC"@,
        moves_exactly(b, fill, fill_simulator::base_of(fill.instrument@)),
    ensures
        fill_simulator::booked(b, fill) matches Some(c) && {
            let base = fill_simulator::base_of(fill.instrument@);
            let (p, q) = (decimal::units(fill.price.0), decimal::units(fill.qty.0));
            let (f, g) = (fee_in(fill, "USDC"@), fee_in(fill, base));
            &&& sound(c)
            &&& amount(c, "USDC"@) * unit() == amount(b, "USDC"@) * unit() - way(fill.side) * p * q - f
                * unit()
            &&& amount(c, base) == amount(b, base) + way(fill.side) * q - g
            &&& amount(c, "USDC"@) * unit() + p * amount(c, base) == amount(b, "USDC"@) * unit() + p
                * amount(b, base) - f * unit() - p * g
            &&& forall|other: Seq<char>|
                other != "USDC"@ && other != base ==> (#[trigger] c.contains_key(other)
                    <==> b.contains_key(other)) && amount(c, other) == amount(b, other)
        },
{
    let base = fill_simulator::base_of(fill.instrument@);
    let u = "USDC"@;
    let (qty, fee) = (fill.qty.0, fill.fee.amount);
    let paid = decimal::times(Some(fill.price.0), Some(qty))->0;
    let k = unit();
    let (p, q, n) = (decimal::units(fill.price.0), decimal::units(qty), decimal::units(paid));
    let (f, g) = (fee_in(fill, u), fee_in(fill, base));
    let (x, y) = (amount(b, u), amount(b, base));
    let d = way(fill.side);
    match fill.side {
        OrderSide::Buy => {
            lemma_lost(b, u, paid);
            let b1 = fill_simulator::lost(Some(b), u, Some(paid))->0;
            let received = if fill.fee.asset@ == base {
                decimal::law_exact_difference(qty, fee);
                decimal::minus(Some(qty), Some(fee))->0
            } else {
                qty
            };
            assert(fill_simulator::held(b1, base) == fill_simulator::held(b, base));
            lemma_gained(b1, base, received);
            let b2 = fill_simulator::gained(Some(b1), base, Some(received))->0;
            if fill.fee.asset@ == u {
                lemma_lost(b2, u, fee);
            }
        },
        OrderSide::Sell => {
            let received = if fill.fee.asset@ == u {
                decimal::law_exact_difference(paid, fee);
                decimal::minus(Some(paid), Some(fee))->0
            } else {
                paid
            };
            lemma_gained(b, u, received);
            let b1 = fill_simulator::gained(Some(b), u, Some(received))->0;
            assert(fill_simulator::held(b1, base) == fill_simulator::held(b, base));
            lemma_lost(b1, base, qty);
            let b2 = fill_simulator::lost(Some(b1), base, Some(qty))->0;
            if fill.fee.asset@ == base {
                lemma_lost(b2, base, fee);
            }
        },
    }
    let c = fill_simulator::booked(b, fill)->0;
    let (v, w) = (amount(c, u), amount(c, base));
    assert(v == x - d * n - f && w == y + d * q - g) by (nonlinear_arith)
        requires
            d == 1 && v == x - n - f && w == y + q - g || d == -1 && v == x + n - f && w == y - q - g,
    ;
    assert(v * k == x * k - d * p * q - f * k) by (nonlinear_arith)
        requires
            v == x - d * n - f,
            n * k == p * q,
    ;
    assert(p * w == p * y + d * p * q - p * g) by (nonlinear_arith)
        requires
            w == y + d * q - g,
    ;
}

/// A fill of a perpetual leaves the balances alone.
pub proof fn law_perpetuals_move_no_balance(b: Balances, fill: Fill)
    requires
        text::finishes_with(fill.instrument@, "-PERP"@),
    ensures
        fill_simulator::booked(b, fill) == Some(b),
{
}

/// A swap without a fee costs the notional and brings the quantity, or the other way round, and
/// touches no other balance, where no step is rounded.
pub proof fn law_swap_is_paid(
    b: Balances,
    instrument: Seq<char>,
    side: OrderSide,
    notional: Decimal,
    qty: Decimal,
)
    requires
        sound(b),
        notional@.valid(),
        qty@.valid(),
        fill_simulator::base_of(instrument) != "USDC"@,
        match side {
            OrderSide::Buy => decimal::subtracts_exactly(fill_simulator::held(b, "USDC"@), notional)
                && decimal::adds_exactly(
                fill_simulator::held(b, fill_simulator::base_of(instrument)),
                qty,
            ),
            OrderSide::Sell => decimal::adds_exactly(fill_simulator::held(b, "USDC"@), notional)
                && decimal::subtracts_exactly(
                fill_simulator::held(b, fill_simulator::base_of(instrument)),
                qty,
            ),
        },
    ensures
        fill_simulator::swapped(b, instrument, side, Some(notional), qty) matches Some(c) && {
            let base = fill_simulator::base_of(instrument);
            &&& sound(c)
            &&& amount(c, "USDC"@) == amount(b, "USDC"@) - way(side) * decimal::units(notional)
            &&& amount(c, base) == amount(b, base) + way(side) * decimal::units(qty)
            &&& forall|other: Seq<char>|
                other != "USDC"@ && other != base ==> (#[trigger] c.contains_key(other)
                    <==> b.contains_key(other)) && amount(c, other) == amount(b, other)
        },
{
    let base = fill_simulator::base_of(instrument);
    let u = "USDC"@;
    match side {
        OrderSide::Buy => {
            lemma_lost(b, u, notional);
            let b1 = fill_simulator::lost(Some(b), u, Some(notional))->0;
            assert(fill_simulator::held(b1, base) == fill_simulator::held(b, base));
            lemma_gained(b1, base, qty);
        },
        OrderSide::Sell => {
            lemma_gained(b, u, notional);
            let b1 = fill_simulator::gained(Some(b), u, Some(notional))->0;
            assert(fill_simulator::held(b1, base) == fill_simulator::held(b, base));
            lemma_lost(b1, base, qty);
        },
    }
}

/// The fee of a fill is the rate times what it is taken of: the quantity of a spot purchase, and
/// the notional of any other fill. Without a rate there is none. This is so where no step is
/// rounded.
pub proof fn law_fee_is_a_share(
    rate: Decimal,
    instrument: Seq<char>,
    side: OrderSide,
    qty: Decimal,
    price: Decimal,
)
    requires
        rate@.valid(),
        rate.m() != 0 ==> if text::finishes_with(instrument, "-SPOT"@) && side == OrderSide::Buy {
            decimal::multiplies_exactly(qty, rate)
        } else {
            decimal::multiplies_exactly(qty, price) && decimal::multiplies_exactly(
                decimal::times(Some(qty), Some(price))->0,
                rate,
            )
        },
    ensures
        fill_simulator::fee_amount(rate, instrument, side, qty, price) matches Some(fee) && {
            let (q, p, r) = (decimal::units(qty), decimal::units(price), decimal::units(rate));
            if text::finishes_with(instrument, "-SPOT"@) && side == OrderSide::Buy {
                decimal::units(fee) * unit() == q * r
            } else {
                decimal::units(fee) * unit() * unit() == q * p * r
            }
        },
        text::finishes_with(instrument, "-SPOT"@) && side == OrderSide::Buy && decimal::units(rate) != 0
            ==> fill_simulator::fee_asset(rate, instrument, side) == fill_simulator::base_of(instrument),
        !text::finishes_with(instrument, "-SPOT"@) || side == OrderSide::Sell || decimal::units(rate)
            == 0 ==> fill_simulator::fee_asset(rate, instrument, side) == "USDC"@,
{
    broadcast use crate::decimal::lemma_of_view;

    decimal::lemma_units_sign(rate);
    decimal::lemma_units_sign(decimal::zero());
    let k = unit();
    let (q, p, r) = (decimal::units(qty), decimal::units(price), decimal::units(rate));
    let fee = decimal::units(fill_simulator::fee_amount(rate, instrument, side, qty, price)->0);
    if rate.m() == 0 {
        assert(0 * k == 0 && 0 * k * k == 0 && q * 0 == 0 && q * p * 0 == 0) by (nonlinear_arith);
    } else if text::finishes_with(instrument, "-SPOT"@) && side == OrderSide::Buy {
    } else {
        let n = decimal::units(decimal::times(Some(qty), Some(price))->0);
        assert(fee * k * k == q * p * r) by (nonlinear_arith)
            requires
                n * k == q * p,
                fee * k == n * r,
        ;
    }
}

/// The asset of an instrument is what its name has before the kind.
pub proof fn law_base_is_named(base: Seq<char>, kind: Seq<char>)
    requires
        !kind.contains('-'),
    ensures
        fill_simulator::base_of(base + seq!['-'] + kind) == base,
    decreases kind.len(),
{
    let name = base + seq!['-'] + kind;
    assert(name[base.len() as int] == '-');
    assert(name.contains('-'));
    if kind.len() == 0 {
        assert(name.last() == '-');
        assert(name.drop_last() =~= base);
    } else {
        assert(name.last() == kind.last());
        assert(kind.contains(kind.last())) by {
            assert(kind[kind.len() - 1] == kind.last());
        }
        assert(name.drop_last() =~= base + seq!['-'] + kind.drop_last());
        assert(!kind.drop_last().contains('-')) by {
            if kind.drop_last().contains('-') {
                let i = choose|i: int| 0 <= i < kind.drop_last().len() && kind.drop_last()[i] == '-';
                assert(kind[i] == '-');
            }
        }
        law_base_is_named(base, kind.drop_last());
    }
}

/// A purchase is refused for want of funds just where its price times its quantity is more than
/// the balance in the common currency, and a sale where its quantity is more than the balance of
/// the base asset. This is so where the price is not rounded.
pub proof fn law_funds_cover_orders(
    b: Balances,
    instrument: Seq<char>,
    side: OrderSide,
    price: Decimal,
    qty: Decimal,
)
    requires
        sound(b),
        qty@.valid(),
        decimal::multiplies_exactly(price, qty),
    ensures
        fill_simulator::shortage_of(b, instrument, side, price, qty) matches Some(why) && match side {
            OrderSide::Buy => why is Some <==> amount(b, "USDC"@) * unit() < decimal::units(price)
                * decimal::units(qty),
            OrderSide::Sell => why is Some <==> amount(b, fill_simulator::base_of(instrument))
                < decimal::units(qty),
        },
{
    broadcast use crate::decimal::lemma_of_view;

    decimal::lemma_units_sign(decimal::zero());
    decimal::lemma_pow10_positive(28);
    let asset = match side {
        OrderSide::Buy => "USDC"@,
        OrderSide::Sell => fill_simulator::base_of(instrument),
    };
    let have = fill_simulator::held(b, asset);
    let cost = decimal::times(Some(price), Some(qty))->0;
    decimal::law_order_by_units(have, cost);
    decimal::law_order_by_units(have, qty);
    let (h, c, k) = (decimal::units(have), decimal::units(cost), unit());
    assert((h < c) == (h * k < c * k)) by (nonlinear_arith)
        requires
            k > 0,
    ;
}

/// An order may be filled at a price: a purchase no dearer than its limit, a sale no cheaper.
pub open spec fn acceptable(order: PendingOrder, px: Decimal) -> bool {
    match order.side {
        OrderSide::Buy => decimal::units(px) <= decimal::units(order.price.0),
        OrderSide::Sell => decimal::units(px) >= decimal::units(order.price.0),
    }
}

/// The orders of a queue are of its side, with the better price in front, and their prices are
/// within the limits.
pub open spec fn in_line(side: OrderSide, s: Seq<PendingOrder>) -> bool {
    &&& fill_simulator::priced(s)
    &&& forall|i: int| 0 <= i < s.len() ==> (#[trigger] s[i]).side == side
    &&& forall|i: int, j: int|
        0 <= i < j < s.len() ==> way(side) * decimal::units((#[trigger] s[i]).price.0) >= way(side)
            * decimal::units((#[trigger] s[j]).price.0)
}

proof fn lemma_in_line(side: OrderSide, s: Seq<PendingOrder>)
    requires
        fill_simulator::priced(s),
        forall|i: int| 0 <= i < s.len() ==> (#[trigger] s[i]).side == side,
    ensures
        in_line(side, s) <==> fill_simulator::sorted(side, s),
{
    let d = way(side);
    assert forall|i: int, j: int| 0 <= i < j < s.len() implies (fill_simulator::ahead(
        side,
        #[trigger] s[j].price.0,
        #[trigger] s[i].price.0,
    ) <==> d * decimal::units(s[i].price.0) < d * decimal::units(s[j].price.0)) by {
        let (x, y) = (s[i].price.0, s[j].price.0);
        decimal::law_order_by_units(x, y);
        decimal::law_order_by_units(y, x);
        let (a, b) = (decimal::units(x), decimal::units(y));
        assert((d * a < d * b) == (d == 1 && a < b || d == -1 && b < a)) by (nonlinear_arith)
            requires
                d == 1 || d == -1,
        ;
    }
}

/// A new order stands behind every order with a better price and in front of the others, and the
/// line keeps its order.
pub proof fn law_new_order_takes_its_place(side: OrderSide, s: Seq<PendingOrder>, order: PendingOrder)
    requires
        in_line(side, s),
        order.side == side,
        order.price.0@.valid(),
    ensures
        ({
            let t = fill_simulator::queued(side, s, order);
            &&& in_line(side, t)
            &&& t.len() == s.len() + 1
            &&& exists|at: int|
                0 <= at <= s.len() && #[trigger] s.insert(at, order) == t && (forall|i: int|
                    0 <= i < s.len() ==> (i < at <==> way(side) * decimal::units((
                    #[trigger] s[i]).price.0) > way(side) * decimal::units(order.price.0)))
        }),
{
    let t = fill_simulator::queued(side, s, order);
    let at = fill_simulator::place_from(side, s, order.price.0, 0);
    let d = way(side);
    lemma_in_line(side, s);
    fill_simulator::lemma_place(side, s, order.price.0, 0);
    fill_simulator::lemma_queued_sorted(side, s, order);
    assert forall|i: int| 0 <= i < t.len() implies (#[trigger] t[i]).side == side by {
        if i < at {
            assert(t[i] == s[i]);
        } else if i > at {
            assert(t[i] == s[i - 1]);
        }
    }
    lemma_in_line(side, t);
    assert forall|i: int| 0 <= i < s.len() implies (i < at <==> d * decimal::units((
    #[trigger] s[i]).price.0) > d * decimal::units(order.price.0)) by {
        let (x, y) = (s[i].price.0, order.price.0);
        decimal::law_order_by_units(x, y);
        decimal::law_order_by_units(y, x);
        let (a, b) = (decimal::units(x), decimal::units(y));
        assert((d * a > d * b) == (d == 1 && a > b || d == -1 && b > a)) by (nonlinear_arith)
            requires
                d == 1 || d == -1,
        ;
        if i >= at {
            let z = s[at].price.0;
            decimal::law_order_by_units(z, y);
            decimal::law_order_by_units(y, z);
            let c = decimal::units(z);
            assert(d * c >= d * a);
            assert((d * c >= d * a) == (d == 1 && c >= a || d == -1 && c <= a)) by (nonlinear_arith)
                requires
                    d == 1 || d == -1,
            ;
        }
    }
    assert(s.insert(at, order) == t);
}

/// A quote fills just those of the waiting orders that its price is acceptable to, each at that
/// price, the better limit first.
pub proof fn law_quote_fills_what_it_reaches(side: OrderSide, s: Seq<PendingOrder>, px: Price)
    requires
        in_line(side, s),
        px.0@.valid(),
    ensures
        ({
            let h = fill_simulator::hits(side, s, px);
            &&& h.len() <= s.len()
            &&& forall|i: int| 0 <= i < h.len() ==> #[trigger] h[i] == (s[i], px)
            &&& forall|i: int|
                0 <= i < s.len() ==> (acceptable(#[trigger] s[i], px.0) <==> i < h.len())
        }),
{
    lemma_in_line(side, s);
    fill_simulator::law_reached_orders_are_in_front(side, s, px.0);
    fill_simulator::lemma_reached(side, s, px.0, 0);
    let h = fill_simulator::hits(side, s, px);
    assert forall|i: int| 0 <= i < s.len() implies (acceptable(#[trigger] s[i], px.0) <==> i < h.len()) by {
        decimal::law_order_by_units(s[i].price.0, px.0);
        decimal::law_order_by_units(px.0, s[i].price.0);
        assert(fill_simulator::reached(side, s[i].price.0, px.0) <==> i < fill_simulator::reached_from(
            side,
            s,
            px.0,
            0,
        ));
    }
}

/// All queues of both sides are in line, and each instrument has its own.
pub open spec fn all_in_line(v: SimulatorView) -> bool {
    &&& forall|key: Seq<char>| #[trigger]
        v.buys.contains_key(key) ==> in_line(OrderSide::Buy, v.buys[key])
    &&& forall|key: Seq<char>| #[trigger]
        v.sells.contains_key(key) ==> in_line(OrderSide::Sell, v.sells[key])
}

/// No fill is worse than the limit of its order: a purchase is filled at the ask of a quote and
/// not above its limit, a sale at the bid and not below it.
pub proof fn law_fills_keep_limits(v: SimulatorView, quotes: Seq<(String, Quote)>, n: int)
    requires
        0 <= n <= quotes.len(),
        all_in_line(v),
        forall|i: int|
            0 <= i < quotes.len() ==> (#[trigger] quotes[i]).1.bid.0@.valid() && quotes[i].1.ask.0@.valid(),
    ensures
        forall|j: int|
            0 <= j < v.filled(quotes, n).len() ==> {
                let (order, px) = #[trigger] v.filled(quotes, n)[j];
                &&& acceptable(order, px.0)
                &&& exists|i: int|
                    0 <= i < n && px == (if order.side == OrderSide::Buy {
                        (#[trigger] quotes[i]).1.ask
                    } else {
                        quotes[i].1.bid
                    })
            },
    decreases n,
{
    if n > 0 {
        law_fills_keep_limits(v, quotes, n - 1);
        let (key, q) = (quotes[n - 1].0@, quotes[n - 1].1);
        let (a, b) = (fill_simulator::queue(v.buys, key), fill_simulator::queue(v.sells, key));
        assert(in_line(OrderSide::Buy, a) && in_line(OrderSide::Sell, b));
        law_quote_fills_what_it_reaches(OrderSide::Buy, a, q.ask);
        law_quote_fills_what_it_reaches(OrderSide::Sell, b, q.bid);
        let (h, l) = (
            fill_simulator::hits(OrderSide::Buy, a, q.ask),
            fill_simulator::hits(OrderSide::Sell, b, q.bid),
        );
        let before = v.filled(quotes, n - 1);
        assert forall|j: int| 0 <= j < v.filled(quotes, n).len() implies ({
            let (order, px) = #[trigger] v.filled(quotes, n)[j];
            &&& acceptable(order, px.0)
            &&& exists|i: int|
                0 <= i < n && px == (if order.side == OrderSide::Buy {
                    (#[trigger] quotes[i]).1.ask
                } else {
                    quotes[i].1.bid
                })
        }) by {
            if j < before.len() {
                assert(v.filled(quotes, n)[j] == before[j]);
            } else if j < before.len() + h.len() {
                let i = j - before.len();
                assert(v.filled(quotes, n)[j] == h[i]);
                assert(acceptable(a[i], q.ask.0));
                assert(px_of(quotes[n - 1].1, OrderSide::Buy) == q.ask);
            } else {
                let i = j - before.len() - h.len();
                assert(v.filled(quotes, n)[j] == l[i]);
                assert(acceptable(b[i], q.bid.0));
                assert(px_of(quotes[n - 1].1, OrderSide::Sell) == q.bid);
            }
        }
    }
}

/// The side of a quote that an order meets.
pub open spec fn px_of(q: Quote, side: OrderSide) -> Price {
    match side {
        OrderSide::Buy => q.ask,
        OrderSide::Sell => q.bid,
    }
}

/// After the quotes just those orders wait on that found no acceptable price: the queue of an
/// instrument with a quote loses from its front all orders that the quote is acceptable to, and
/// no other.
pub proof fn law_reached_orders_are_gone(
    side: OrderSide,
    q: Queues,
    quotes: Map<Seq<char>, Quote>,
    key: Seq<char>,
)
    requires
        q.contains_key(key),
        in_line(side, q[key]),
        quotes.contains_key(key) ==> px_of(quotes[key], side).0@.valid(),
    ensures
        ({
            let left = SimulatorView::left(side, q, quotes);
            let gone = q[key].len() - left[key].len();
            &&& left.dom() == q.dom()
            &&& 0 <= gone
            &&& left[key] == q[key].subrange(gone, q[key].len() as int)
            &&& !quotes.contains_key(key) ==> gone == 0
            &&& quotes.contains_key(key) ==> forall|i: int|
                0 <= i < q[key].len() ==> (acceptable(#[trigger] q[key][i], px_of(quotes[key], side).0)
                    <==> i < gone)
        }),
{
    let left = SimulatorView::left(side, q, quotes);
    assert(left.dom() =~= q.dom());
    if quotes.contains_key(key) {
        law_quote_fills_what_it_reaches(side, q[key], px_of(quotes[key], side));
        fill_simulator::lemma_reached(side, q[key], px_of(quotes[key], side).0, 0);
    } else {
        assert(q[key].subrange(0, q[key].len() as int) =~= q[key]);
    }
}

/// A fill is of the whole of what was left of its order, on its side, under its ids and at the
/// price that it met, and its fee is the share that the rate gives, where that is not rounded.
pub proof fn law_fill_serves_its_order(fill: Fill, order: PendingOrder, px: Price, rate: Decimal, now: i64)
    requires
        fill_simulator::is_fill(fill, order, px, rate, now),
        rate@.valid(),
        decimal::multiplies_exactly(order.remaining_qty.0, rate),
        decimal::multiplies_exactly(order.remaining_qty.0, px.0),
        decimal::multiplies_exactly(
            decimal::times(Some(order.remaining_qty.0), Some(px.0))->0,
            rate,
        ),
    ensures
        fill.side == order.side,
        fill.qty == order.remaining_qty,
        fill.price == px,
        fill.instrument == order.instrument,
        fill.client_id == Some(order.client_id),
        fill.exchange_order_id == Some(order.exchange_order_id),
        fill.ts == now,
        ({
            let (q, p, r) = (
                decimal::units(order.remaining_qty.0),
                decimal::units(px.0),
                decimal::units(rate),
            );
            if text::finishes_with(order.instrument@, "-SPOT"@) && order.side == OrderSide::Buy {
                decimal::units(fill.fee.amount) * unit() == q * r
            } else {
                decimal::units(fill.fee.amount) * unit() * unit() == q * p * r
            }
        }),
{
    law_fee_is_a_share(rate, order.instrument@, order.side, order.remaining_qty.0, px.0);
}

} // verus!
