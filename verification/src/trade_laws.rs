//! What the trades of a run conserve: quantity, result and fees.
use vstd::prelude::*;
use crate::decimal;
use crate::performance;
use crate::decimal::Decimal;
use crate::events::OrderFilledEvent;
use crate::performance::{ClosedTrade, OpenTrade};
use crate::types::OrderSide;

verus! {

/// One for a buy and minus one for a sell.
pub open spec fn direction(side: OrderSide) -> int {
    match side {
        OrderSide::Buy => 1,
        OrderSide::Sell => -1,
    }
}

/// The same as a number.
pub open spec fn direction_number(side: OrderSide) -> Decimal {
    match side {
        OrderSide::Buy => decimal::one(),
        OrderSide::Sell => decimal::negated(decimal::one()),
    }
}

/// No step of opening is rounded.
pub open spec fn opens_exactly(
    o: OpenTrade,
    sign: Decimal,
    price: Decimal,
    qty: Decimal,
    fee: Decimal,
) -> bool {
    let held = decimal::magnitude(o.qty);
    let size = decimal::plus(Some(held), Some(qty))->0;
    let step = decimal::times(Some(sign), Some(qty))->0;
    let before = decimal::times(Some(o.avg_entry), Some(held))->0;
    let more = decimal::times(Some(price), Some(qty))->0;
    &&& decimal::adds_exactly(held, qty)
    &&& decimal::multiplies_exactly(sign, qty)
    &&& decimal::adds_exactly(o.qty, step)
    &&& decimal::adds_exactly(o.fee_pool, fee)
    &&& decimal::multiplies_exactly(o.avg_entry, held)
    &&& decimal::multiplies_exactly(price, qty)
    &&& decimal::adds_exactly(before, more)
    &&& decimal::divides_exactly(decimal::plus(Some(before), Some(more))->0, size)
}

/// No step of closing is rounded.
pub open spec fn closes_exactly(
    o: OpenTrade,
    sign: Decimal,
    price: Decimal,
    qty: Decimal,
    fee: Decimal,
) -> bool {
    let held = decimal::magnitude(o.qty);
    let part = decimal::smaller(qty, held);
    let of_fill = decimal::over(Some(part), Some(qty))->0;
    let of_held = decimal::over(Some(part), Some(held))->0;
    let close_fee = decimal::times(Some(fee), Some(of_fill))->0;
    let open_fee = decimal::times(Some(o.fee_pool), Some(of_held))->0;
    let (high, low) = if o.qty.m() > 0 {
        (price, o.avg_entry)
    } else {
        (o.avg_entry, price)
    };
    let gain = decimal::minus(Some(high), Some(low))->0;
    let gross = decimal::times(Some(gain), Some(part))->0;
    let fees = decimal::plus(Some(open_fee), Some(close_fee))->0;
    let step = decimal::times(Some(sign), Some(part))->0;
    &&& decimal::divides_exactly(part, qty)
    &&& decimal::multiplies_exactly(fee, of_fill)
    &&& decimal::divides_exactly(part, held)
    &&& decimal::multiplies_exactly(o.fee_pool, of_held)
    &&& decimal::subtracts_exactly(high, low)
    &&& decimal::multiplies_exactly(gain, part)
    &&& decimal::adds_exactly(open_fee, close_fee)
    &&& decimal::subtracts_exactly(gross, fees)
    &&& decimal::multiplies_exactly(sign, part)
    &&& decimal::adds_exactly(o.qty, step)
    &&& decimal::subtracts_exactly(o.fee_pool, open_fee)
    &&& decimal::subtracts_exactly(qty, part)
    &&& decimal::subtracts_exactly(fee, close_fee)
}

/// No step of a fill is rounded.
pub open spec fn fills_exactly(o: OpenTrade, fill: OrderFilledEvent) -> bool {
    let sign = direction_number(fill.side);
    if o.qty.m() == 0 || o.sides_with(sign) {
        opens_exactly(o, sign, fill.price.0, fill.qty.0, fill.fee.amount)
    } else {
        &&& closes_exactly(o, sign, fill.price.0, fill.qty.0, fill.fee.amount)
        &&& o.closed(sign, fill.price.0, fill.qty.0, fill.fee.amount, fill.ts) matches Some(c) ==> (
        c.rest_qty.m() > 0 ==> opens_exactly(
            c.open,
            sign,
            fill.price.0,
            c.rest_qty,
            c.rest_fee,
        ))
    }
}

/// No step of the fills is rounded.
pub open spec fn all_exact(fills: Seq<OrderFilledEvent>) -> bool
    decreases fills.len(),
{
    fills.len() > 0 ==> all_exact(fills.drop_last()) && (performance::trades_of(
        fills.drop_last(),
    ) matches Some(p) ==> fills_exactly(p.0, fills.last()))
}

/// Fills of something, with numbers within the limits.
pub open spec fn real_fills(fills: Seq<OrderFilledEvent>) -> bool {
    forall|i: int|
        0 <= i < fills.len() ==> {
            let f = #[trigger] fills[i];
            &&& f.qty.0@.valid()
            &&& f.qty.0.m() > 0
            &&& f.price.0@.valid()
            &&& f.fee.amount@.valid()
        }
}

/// What was bought less what was sold, in units.
pub open spec fn net_qty(fills: Seq<OrderFilledEvent>) -> int
    decreases fills.len(),
{
    if fills.len() == 0 {
        0
    } else {
        net_qty(fills.drop_last()) + direction(fills.last().side) * decimal::units(
            fills.last().qty.0,
        )
    }
}

/// What the sales brought less what the purchases cost, in units of units.
pub open spec fn proceeds(fills: Seq<OrderFilledEvent>) -> int
    decreases fills.len(),
{
    if fills.len() == 0 {
        0
    } else {
        let f = fills.last();
        proceeds(fills.drop_last()) - direction(f.side) * (decimal::units(f.price.0)
            * decimal::units(f.qty.0))
    }
}

/// The fees of the fills, in units.
pub open spec fn fees_paid(fills: Seq<OrderFilledEvent>) -> int
    decreases fills.len(),
{
    if fills.len() == 0 {
        0
    } else {
        fees_paid(fills.drop_last()) + decimal::units(fills.last().fee.amount)
    }
}

/// The results of the trades before fees, in units.
pub open spec fn gross_of(trades: Seq<ClosedTrade>) -> int
    decreases trades.len(),
{
    if trades.len() == 0 {
        0
    } else {
        gross_of(trades.drop_last()) + decimal::units(trades.last().gross_pnl)
    }
}

/// The fees of the trades, in units.
pub open spec fn fees_of(trades: Seq<ClosedTrade>) -> int
    decreases trades.len(),
{
    if trades.len() == 0 {
        0
    } else {
        fees_of(trades.drop_last()) + decimal::units(trades.last().fees)
    }
}

/// A position with numbers within the limits; a flat one has no fees left.
pub open spec fn sound(o: OpenTrade) -> bool {
    &&& o.qty@.valid()
    &&& o.avg_entry@.valid()
    &&& o.fee_pool@.valid()
    &&& o.qty.m() == 0 ==> decimal::units(o.fee_pool) == 0
}

/// What a position cost, in units of units; less than nothing for a short one.
pub open spec fn cost(o: OpenTrade) -> int {
    decimal::units(o.qty) * decimal::units(o.avg_entry)
}

proof fn lemma_cancel(k: int, a: int, b: int)
    requires
        k > 0,
        a * k == b * k,
    ensures
        a == b,
{
    assert(a == b) by (nonlinear_arith)
        requires
            k > 0,
            a * k == b * k,
    ;
}

proof fn lemma_direction(side: OrderSide)
    ensures
        decimal::units(direction_number(side)) == direction(side) * decimal::pow10(28),
        direction_number(side).m() > 0 <==> side is Buy,
        direction_number(side).m() < 0 <==> side is Sell,
{
    broadcast use crate::decimal::lemma_of_view, crate::decimal::lemma_view_of;

    decimal::lemma_units_sign(decimal::zero());
    assert(decimal::one()@ == (crate::decimal::DecimalView { mantissa: 1, scale: 0 }));
    assert(decimal::negated(decimal::one())@ == (crate::decimal::DecimalView {
        mantissa: -1,
        scale: 0,
    }));
}

/// Opening adds the quantity, the cost and the fee.
proof fn lemma_opened(
    o: OpenTrade,
    side: OrderSide,
    price: Decimal,
    qty: Decimal,
    fee: Decimal,
    ts: i64,
)
    requires
        sound(o),
        price@.valid(),
        qty@.valid(),
        qty.m() > 0,
        fee@.valid(),
        o.qty.m() == 0 || o.sides_with(direction_number(side)),
        opens_exactly(o, direction_number(side), price, qty, fee),
        o.opened(direction_number(side), price, qty, fee, ts) is Some,
    ensures
        ({
            let n = o.opened(direction_number(side), price, qty, fee, ts)->0;
            let d = direction(side);
            &&& sound(n)
            &&& decimal::units(n.qty) == decimal::units(o.qty) + d * decimal::units(qty)
            &&& decimal::units(n.fee_pool) == decimal::units(o.fee_pool) + decimal::units(fee)
            &&& cost(n) == cost(o) + d * (decimal::units(price) * decimal::units(qty))
        }),
{
    let n = o.opened(direction_number(side), price, qty, fee, ts)->0;
    let sign = direction_number(side);
    let d = direction(side);
    let k = decimal::pow10(28);
    let held = decimal::magnitude(o.qty);
    let size = decimal::plus(Some(held), Some(qty))->0;
    let step = decimal::times(Some(sign), Some(qty))->0;
    let before = decimal::times(Some(o.avg_entry), Some(held))->0;
    let more = decimal::times(Some(price), Some(qty))->0;
    decimal::lemma_pow10_positive(28);
    decimal::lemma_units_sign(o.qty);
    decimal::lemma_units_sign(qty);
    lemma_direction(side);
    decimal::law_exact_sum(held, qty);
    decimal::law_exact_sum(o.qty, step);
    decimal::law_exact_sum(o.fee_pool, fee);
    decimal::law_exact_sum(before, more);
    decimal::lemma_units_sign(size);
    decimal::lemma_units_sign(n.qty);
    let (h, q, a, p) = (
        decimal::units(held),
        decimal::units(qty),
        decimal::units(o.avg_entry),
        decimal::units(price),
    );
    let (b, m, z, uo) = (
        decimal::units(before),
        decimal::units(more),
        decimal::units(n.avg_entry),
        decimal::units(o.qty),
    );
    assert(decimal::units(step) == d * q) by {
        assert((d * k) * q == (d * q) * k) by (nonlinear_arith);
        lemma_cancel(k, decimal::units(step), d * q);
    }
    assert(z * (h + q) == a * h + p * q) by {
        assert((b + m) * k == b * k + m * k) by (nonlinear_arith);
    }
    assert(uo == d * h) by (nonlinear_arith)
        requires
            d == 1 && uo >= 0 && h == uo || d == -1 && uo <= 0 && h == -uo,
    ;
    assert((uo + d * q) * z == uo * a + d * (p * q)) by (nonlinear_arith)
        requires
            uo == d * h,
            z * (h + q) == a * h + p * q,
    ;
    assert(uo + d * q != 0) by (nonlinear_arith)
        requires
            uo == d * h,
            h >= 0,
            q > 0,
            d == 1 || d == -1,
    ;
}

/// Closing takes quantity, cost and fees away and makes of them a trade.
proof fn lemma_closed(
    o: OpenTrade,
    side: OrderSide,
    price: Decimal,
    qty: Decimal,
    fee: Decimal,
    ts: i64,
)
    requires
        sound(o),
        price@.valid(),
        qty@.valid(),
        qty.m() > 0,
        fee@.valid(),
        o.qty.m() != 0,
        !o.sides_with(direction_number(side)),
        closes_exactly(o, direction_number(side), price, qty, fee),
        o.closed(direction_number(side), price, qty, fee, ts) is Some,
    ensures
        ({
            let c = o.closed(direction_number(side), price, qty, fee, ts)->0;
            let d = direction(side);
            let part = decimal::units(c.trade.qty);
            &&& sound(c.open)
            &&& c.rest_qty@.valid()
            &&& c.rest_fee@.valid()
            &&& part > 0
            &&& decimal::units(c.open.qty) == decimal::units(o.qty) + d * part
            &&& decimal::units(c.rest_qty) == decimal::units(qty) - part
            &&& decimal::units(c.rest_qty) >= 0
            &&& c.rest_qty.m() > 0 ==> c.open.qty.m() == 0
            &&& c.rest_qty.m() <= 0 ==> decimal::units(c.rest_fee) == 0
            &&& decimal::units(c.trade.fees) + decimal::units(c.open.fee_pool) + decimal::units(
                c.rest_fee,
            ) == decimal::units(o.fee_pool) + decimal::units(fee)
            &&& decimal::units(c.trade.gross_pnl) * decimal::pow10(28) == cost(c.open) - cost(o) - d
                * (decimal::units(price) * part)
            &&& decimal::units(c.trade.net_pnl) == decimal::units(c.trade.gross_pnl)
                - decimal::units(c.trade.fees)
        }),
{
    let sign = direction_number(side);
    let c = o.closed(sign, price, qty, fee, ts)->0;
    let d = direction(side);
    let k = decimal::pow10(28);
    let held = decimal::magnitude(o.qty);
    let part = decimal::smaller(qty, held);
    let of_fill = decimal::over(Some(part), Some(qty))->0;
    let of_held = decimal::over(Some(part), Some(held))->0;
    let close_fee = decimal::times(Some(fee), Some(of_fill))->0;
    let open_fee = decimal::times(Some(o.fee_pool), Some(of_held))->0;
    let (high, low) = if o.qty.m() > 0 {
        (price, o.avg_entry)
    } else {
        (o.avg_entry, price)
    };
    let gain = decimal::minus(Some(high), Some(low))->0;
    let gross = decimal::times(Some(gain), Some(part))->0;
    let step = decimal::times(Some(sign), Some(part))->0;
    let left = decimal::plus(Some(o.qty), Some(step))->0;
    decimal::lemma_pow10_positive(28);
    decimal::lemma_units_sign(o.qty);
    decimal::lemma_units_sign(qty);
    decimal::lemma_units_sign(held);
    decimal::law_order_by_units(qty, held);
    decimal::law_order_by_units(held, qty);
    lemma_direction(side);
    decimal::law_exact_difference(high, low);
    decimal::law_exact_sum(open_fee, close_fee);
    decimal::law_exact_difference(gross, decimal::plus(Some(open_fee), Some(close_fee))->0);
    decimal::law_exact_sum(o.qty, step);
    decimal::law_exact_difference(o.fee_pool, open_fee);
    decimal::law_exact_difference(qty, part);
    decimal::law_exact_difference(fee, close_fee);
    decimal::lemma_units_sign(left);
    decimal::lemma_units_sign(c.rest_qty);
    let (h, q, x, a, p, uo) = (
        decimal::units(held),
        decimal::units(qty),
        decimal::units(part),
        decimal::units(o.avg_entry),
        decimal::units(price),
        decimal::units(o.qty),
    );
    assert(c.trade.qty == part);
    assert(x > 0 && x <= q && x <= h);
    assert(decimal::units(step) == d * x) by {
        assert((d * k) * x == (d * x) * k) by (nonlinear_arith);
        lemma_cancel(k, decimal::units(step), d * x);
    }
    assert(uo == -(d * h)) by (nonlinear_arith)
        requires
            d == 1 && uo < 0 && h == -uo || d == -1 && uo > 0 && h == uo,
    ;
    assert(decimal::units(left) == d * (x - h)) by (nonlinear_arith)
        requires
            decimal::units(left) == uo + d * x,
            uo == -(d * h),
    ;
    assert((decimal::units(left) == 0) == (x == h)) by (nonlinear_arith)
        requires
            decimal::units(left) == d * (x - h),
            d == 1 || d == -1,
    ;
    // All of the fees go with what is closed as a whole.
    if x == h {
        lemma_whole_share(k, x, decimal::units(of_held), decimal::units(o.fee_pool), decimal::units(open_fee));
    }
    if x == q {
        lemma_whole_share(k, x, decimal::units(of_fill), decimal::units(fee), decimal::units(close_fee));
    }
    let g = decimal::units(gain);
    assert(g * x == d * (a * x) - d * (p * x)) by (nonlinear_arith)
        requires
            d == 1 && g == a - p || d == -1 && g == p - a,
    ;
    assert(cost(c.open) == (uo + d * x) * a) by {
        if decimal::units(left) == 0 {
            assert(0 * decimal::units(c.open.avg_entry) == 0);
            assert(0 * a == 0);
        }
    }
    assert((uo + d * x) * a == uo * a + d * (a * x)) by (nonlinear_arith);
}

proof fn lemma_whole_share(k: int, x: int, ratio: int, whole: int, share: int)
    requires
        k > 0,
        x > 0,
        ratio * x == x * k,
        share * k == whole * ratio,
    ensures
        share == whole,
{
    assert(ratio == k) by (nonlinear_arith)
        requires
            x > 0,
            ratio * x == x * k,
    ;
    lemma_cancel(k, share, whole);
}

/// A fill conserves quantity, result and fees between the position and the trades.
pub proof fn law_fill_conserves(o: OpenTrade, fill: OrderFilledEvent)
    requires
        sound(o),
        real_fills(seq![fill]),
        fills_exactly(o, fill),
        o.filled(fill) is Some,
    ensures
        ({
            let (n, trades) = o.filled(fill)->0;
            let d = direction(fill.side);
            let q = decimal::units(fill.qty.0);
            &&& sound(n)
            &&& trades.len() <= 1
            &&& decimal::units(n.qty) == decimal::units(o.qty) + d * q
            &&& fees_of(trades) + decimal::units(n.fee_pool) == decimal::units(o.fee_pool)
                + decimal::units(fill.fee.amount)
            &&& gross_of(trades) * decimal::pow10(28) == cost(n) - cost(o) - d * (decimal::units(
                fill.price.0,
            ) * q)
            &&& trades.len() > 0 ==> {
                let t = trades[0];
                &&& decimal::units(t.net_pnl) == decimal::units(t.gross_pnl) - decimal::units(
                    t.fees,
                )
                &&& t.exit_ts_ms == fill.ts
                &&& t.entry_ts_ms == (match o.open_ts_ms {
                    Some(ts) => ts,
                    None => fill.ts,
                })
            }
            &&& n.open_ts_ms is None || n.open_ts_ms == o.open_ts_ms || n.open_ts_ms == Some(fill.ts)
        }),
{
    let side = fill.side;
    let sign = direction_number(side);
    let d = direction(side);
    let (price, qty, fee, ts) = (fill.price.0, fill.qty.0, fill.fee.amount, fill.ts);
    assert(seq![fill][0] == fill);
    let (n, trades) = o.filled(fill)->0;
    if o.qty.m() == 0 || o.sides_with(sign) {
        lemma_opened(o, side, price, qty, fee, ts);
        assert(0 * decimal::pow10(28) == 0);
    } else {
        lemma_closed(o, side, price, qty, fee, ts);
        let c = o.closed(sign, price, qty, fee, ts)->0;
        let (p, q, x, r) = (
            decimal::units(price),
            decimal::units(qty),
            decimal::units(c.trade.qty),
            decimal::units(c.rest_qty),
        );
        decimal::lemma_units_sign(c.rest_qty);
        assert(trades =~= seq![c.trade]);
        assert(trades.drop_last() =~= Seq::empty());
        assert(gross_of(trades.drop_last()) == 0 && fees_of(trades.drop_last()) == 0);
        assert(d * (p * q) == d * (p * x) + d * (p * r) && d * q == d * x + d * r)
            by (nonlinear_arith)
            requires
                r == q - x,
        ;
        if c.rest_qty.m() > 0 {
            lemma_opened(c.open, side, price, c.rest_qty, c.rest_fee, ts);
        } else {
            assert(r == 0);
            assert(p * 0 == 0 && d * 0 == 0) by (nonlinear_arith);
        }
    }
}

/// The trades of fills in time conserve quantity, result and fees: with the position that is
/// still open they account for everything that was bought and sold and for every fee. Each
/// result is what is left of the gross one after the fees, no trade ends before it begins, and
/// none ends before an earlier one. Where as much was bought as sold, the trades alone account
/// for all of it. All of this where no step is rounded.
pub proof fn law_trades_conserve(fills: Seq<OrderFilledEvent>)
    requires
        real_fills(fills),
        performance::in_order(fills),
        all_exact(fills),
        performance::trades_of(fills) is Some,
    ensures
        ({
            let (o, trades) = performance::trades_of(fills)->0;
            &&& sound(o)
            &&& decimal::units(o.qty) == net_qty(fills)
            &&& fees_of(trades) + decimal::units(o.fee_pool) == fees_paid(fills)
            &&& gross_of(trades) * decimal::pow10(28) == cost(o) + proceeds(fills)
            &&& net_qty(fills) == 0 ==> fees_of(trades) == fees_paid(fills) && gross_of(trades)
                * decimal::pow10(28) == proceeds(fills)
            &&& forall|i: int|
                0 <= i < trades.len() ==> {
                    let t = #[trigger] trades[i];
                    &&& decimal::units(t.net_pnl) == decimal::units(t.gross_pnl) - decimal::units(
                        t.fees,
                    )
                    &&& t.entry_ts_ms <= t.exit_ts_ms
                    &&& t.exit_ts_ms <= fills.last().ts
                }
            &&& forall|i: int, j: int|
                0 <= i < j < trades.len() ==> (#[trigger] trades[i]).exit_ts_ms <= (
                #[trigger] trades[j]).exit_ts_ms
            &&& o.open_ts_ms matches Some(ts) ==> fills.len() > 0 && ts <= fills.last().ts
        }),
    decreases fills.len(),
{
    let k = decimal::pow10(28);
    let (o, trades) = performance::trades_of(fills)->0;
    if fills.len() == 0 {
        broadcast use crate::decimal::lemma_of_view;

        decimal::lemma_units_sign(decimal::zero());
        assert(0 * k == 0);
        assert(0 * decimal::units(o.avg_entry) == 0);
    } else {
        let rest = fills.drop_last();
        let f = fills.last();
        assert forall|i: int| 0 <= i < rest.len() implies {
            let g = #[trigger] rest[i];
            &&& g.qty.0@.valid()
            &&& g.qty.0.m() > 0
            &&& g.price.0@.valid()
            &&& g.fee.amount@.valid()
        } by {
            assert(rest[i] == fills[i]);
        }
        assert forall|i: int, j: int| 0 <= i < j < rest.len() implies (#[trigger] rest[i]).ts <= (
        #[trigger] rest[j]).ts by {
            assert(fills[i].ts <= fills[j].ts);
        }
        law_trades_conserve(rest);
        let (before, earlier) = performance::trades_of(rest)->0;
        assert(fills[fills.len() - 1] == f);
        law_fill_conserves(before, f);
        let (n, more) = before.filled(f)->0;
        assert(trades == earlier + more && o == n);
        if rest.len() > 0 {
            assert(rest.last() == fills[fills.len() - 2]);
            assert(rest.last().ts <= f.ts);
        }
        lemma_sums(earlier, more);
        assert((gross_of(earlier) + gross_of(more)) * k == gross_of(earlier) * k + gross_of(more)
            * k) by (nonlinear_arith);
        assert forall|i: int| 0 <= i < trades.len() implies {
            let t = #[trigger] trades[i];
            &&& decimal::units(t.net_pnl) == decimal::units(t.gross_pnl) - decimal::units(t.fees)
            &&& t.entry_ts_ms <= t.exit_ts_ms
            &&& t.exit_ts_ms <= f.ts
        } by {
            if i < earlier.len() {
                assert(trades[i] == earlier[i]);
            } else {
                assert(trades[i] == more[0]);
            }
        }
        assert forall|i: int, j: int| 0 <= i < j < trades.len() implies (
        #[trigger] trades[i]).exit_ts_ms <= (#[trigger] trades[j]).exit_ts_ms by {
            assert(trades[i] == earlier[i]);
            if j < earlier.len() {
                assert(trades[j] == earlier[j]);
            } else {
                assert(trades[j] == more[0]);
            }
        }
    }
    if net_qty(fills) == 0 {
        decimal::lemma_units_sign(o.qty);
        assert(0 * decimal::units(o.avg_entry) == 0);
    }
}

proof fn lemma_sums(a: Seq<ClosedTrade>, b: Seq<ClosedTrade>)
    requires
        b.len() <= 1,
    ensures
        gross_of(a + b) == gross_of(a) + gross_of(b),
        fees_of(a + b) == fees_of(a) + fees_of(b),
{
    if b.len() == 0 {
        assert(a + b =~= a);
    } else {
        assert((a + b).drop_last() =~= a);
        assert((a + b).last() == b[0]);
        assert(b.drop_last() =~= Seq::empty());
        assert(gross_of(b.drop_last()) == 0 && fees_of(b.drop_last()) == 0);
    }
}

/// No two fills are of the same time.
pub open spec fn distinct_times(s: Seq<OrderFilledEvent>) -> bool {
    forall|i: int, j: int| 0 <= i < j < s.len() ==> (#[trigger] s[i]).ts != (#[trigger] s[j]).ts
}

proof fn lemma_by_time_distinct(s: Seq<OrderFilledEvent>)
    requires
        distinct_times(s),
    ensures
        distinct_times(performance::by_time(s)),
    decreases s.len(),
{
    broadcast use vstd::seq_lib::group_to_multiset_ensures;

    if s.len() > 0 {
        let front = s.drop_last();
        let x = s.last();
        assert(distinct_times(front));
        lemma_by_time_distinct(front);
        performance::law_by_time(front);
        performance::law_by_time(s);
        let rest = performance::by_time(front);
        performance::lemma_place(rest, x.ts);
        let at = performance::place(rest, x.ts);
        let t = rest.insert(at, x);
        assert forall|i: int| 0 <= i < rest.len() implies (#[trigger] rest[i]).ts != x.ts by {
            assert(rest.contains(rest[i]));
            assert(front.to_multiset().count(rest[i]) > 0);
            assert(front.contains(rest[i]));
            let j = choose|j: int| 0 <= j < front.len() && front[j] == rest[i];
            assert(s[j].ts != s[s.len() - 1].ts);
        }
        assert forall|i: int, j: int| 0 <= i < j < t.len() implies (#[trigger] t[i]).ts != (
        #[trigger] t[j]).ts by {
            let a = if i < at {
                i
            } else {
                i - 1
            };
            let b = if j < at {
                j
            } else {
                j - 1
            };
            if i != at {
                assert(t[i] == rest[a]);
            }
            if j != at {
                assert(t[j] == rest[b]);
            }
        }
    }
}

proof fn lemma_one_order(a: Seq<OrderFilledEvent>, b: Seq<OrderFilledEvent>)
    requires
        performance::in_order(a),
        performance::in_order(b),
        distinct_times(a),
        distinct_times(b),
        a.to_multiset() == b.to_multiset(),
    ensures
        a == b,
    decreases a.len(),
{
    broadcast use vstd::seq_lib::group_to_multiset_ensures;

    assert(a.len() == a.to_multiset().len());
    assert(b.len() == b.to_multiset().len());
    if a.len() == 0 {
        assert(a =~= b);
    } else {
        let n = a.len() as int;
        assert(a.contains(a[n - 1]) && b.contains(b[n - 1]));
        assert(b.to_multiset().count(a.last()) > 0);
        assert(a.to_multiset().count(b.last()) > 0);
        assert(b.contains(a.last()) && a.contains(b.last()));
        let i = choose|i: int| 0 <= i < n && b[i] == a.last();
        let j = choose|j: int| 0 <= j < n && a[j] == b.last();
        if i < n - 1 {
            assert(b[i].ts <= b[n - 1].ts && b[i].ts != b[n - 1].ts);
            if j < n - 1 {
                assert(a[j].ts <= a[n - 1].ts);
            }
        }
        assert(a.last() == b.last());
        let (x, y) = (a.drop_last(), b.drop_last());
        assert(a =~= x.push(a.last()) && b =~= y.push(b.last()));
        assert(x.to_multiset() =~= a.to_multiset().remove(a.last()));
        assert(y.to_multiset() =~= b.to_multiset().remove(b.last()));
        assert forall|i: int, j: int| 0 <= i < j < x.len() implies (#[trigger] x[i]).ts <= (
        #[trigger] x[j]).ts && x[i].ts != x[j].ts by {
            assert(a[i].ts <= a[j].ts && a[i].ts != a[j].ts);
        }
        assert forall|i: int, j: int| 0 <= i < j < y.len() implies (#[trigger] y[i]).ts <= (
        #[trigger] y[j]).ts && y[i].ts != y[j].ts by {
            assert(b[i].ts <= b[j].ts && b[i].ts != b[j].ts);
        }
        lemma_one_order(x, y);
    }
}

/// Fills of distinct times give the same trades in whatever order they are handed over.
pub proof fn law_trades_do_not_hang_on_order(a: Seq<OrderFilledEvent>, b: Seq<OrderFilledEvent>)
    requires
        distinct_times(a),
        distinct_times(b),
        a.to_multiset() == b.to_multiset(),
    ensures
        performance::by_time(a) == performance::by_time(b),
        performance::trades_of(performance::by_time(a)) == performance::trades_of(
            performance::by_time(b),
        ),
{
    performance::law_by_time(a);
    performance::law_by_time(b);
    lemma_by_time_distinct(a);
    lemma_by_time_distinct(b);
    lemma_one_order(performance::by_time(a), performance::by_time(b));
}

} // verus!
