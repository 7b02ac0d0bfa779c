//! What a margin account is worth, and when an order is admitted or a position liquidated.
use vstd::prelude::*;
use crate::cash_laws;
use crate::decimal;
use crate::margin;
use crate::strmap;
use crate::decimal::Decimal;
use crate::margin::{IsolatedPosition, LedgerView};
use crate::types::{InstrumentId, OrderSide};

verus! {

/// One in units.
pub open spec fn unit() -> int {
    decimal::pow10(28)
}

/// One for a buy and minus one for a sell.
pub open spec fn way(side: OrderSide) -> int {
    match side {
        OrderSide::Buy => 1,
        OrderSide::Sell => -1,
    }
}

/// What a position would realize if it was closed at the price `x`, in units of units: the
/// quantity, with its sign, times the way of the price.
pub open spec fn gain(p: IsolatedPosition, x: int) -> int {
    decimal::units(p.qty) * (x - decimal::units(p.avg_entry_px))
}

/// What a position has realized and would still realize at the price `x`.
pub open spec fn worth(p: IsolatedPosition, x: int) -> int {
    decimal::units(p.realized_pnl) * unit() + gain(p, x)
}

/// The numbers that the worth of a position rests on are within the limits.
pub open spec fn numbers(p: IsolatedPosition) -> bool {
    &&& p.qty@.valid()
    &&& p.avg_entry_px@.valid()
    &&& p.realized_pnl@.valid()
}

/// The average of two prices is not rounded.
pub open spec fn averages_exactly(held: Decimal, entry: Decimal, more: Decimal, price: Decimal) -> bool {
    let a = decimal::times(Some(held), Some(entry))->0;
    let b = decimal::times(Some(more), Some(price))->0;
    &&& decimal::multiplies_exactly(held, entry)
    &&& decimal::multiplies_exactly(more, price)
    &&& decimal::adds_exactly(a, b)
    &&& decimal::adds_exactly(held, more)
    &&& decimal::divides_exactly(
        decimal::plus(Some(a), Some(b))->0,
        decimal::plus(Some(held), Some(more))->0,
    )
}

/// The profit of a closed quantity is not rounded, nor its sum with what was realized.
pub open spec fn profits_exactly(p: IsolatedPosition, part: Decimal, price: Decimal) -> bool {
    let (to, from) = if p.qty.m() > 0 {
        (price, p.avg_entry_px)
    } else {
        (p.avg_entry_px, price)
    };
    let gain = decimal::minus(Some(to), Some(from))->0;
    &&& decimal::subtracts_exactly(to, from)
    &&& decimal::multiplies_exactly(gain, part)
    &&& decimal::adds_exactly(p.realized_pnl, decimal::times(Some(gain), Some(part))->0)
}

/// No step of a fill that the worth of a position rests on is rounded.
pub open spec fn books_exactly(p: IsolatedPosition, side: OrderSide, qty: Decimal, price: Decimal) -> bool {
    let held = decimal::magnitude(p.qty);
    let step = if side == OrderSide::Buy {
        qty
    } else {
        decimal::negated(qty)
    };
    if p.qty.m() == 0 || (p.qty.m() > 0) == (side == OrderSide::Buy) {
        &&& averages_exactly(held, p.avg_entry_px, qty, price)
        &&& decimal::adds_exactly(p.qty, step)
    } else {
        let part = decimal::smaller(qty, held);
        let rest = decimal::minus(Some(qty), Some(part))->0;
        &&& profits_exactly(p, part, price)
        &&& decimal::subtracts_exactly(qty, part)
        &&& if p.qty.m() > 0 {
            decimal::subtracts_exactly(p.qty, part)
        } else {
            decimal::adds_exactly(p.qty, part)
        }
        // What turns a position around opens a new one.
        &&& decimal::units(rest) > 0 ==> decimal::multiplies_exactly(rest, price)
            && decimal::divides_exactly(decimal::times(Some(rest), Some(price))->0, rest)
    }
}

proof fn lemma_average(q: int, h: int, y: int, a: int, c: int, g: int, d: int)
    requires
        d == 1 || d == -1,
        q == d * h,
        g * (h + y) == a * h + c * y,
    ensures
        (q + d * y) * g == q * a + d * y * c,
{
    assert((d * h + d * y) * g == d * (g * (h + y))) by (nonlinear_arith);
    assert(d * (a * h + c * y) == d * h * a + d * y * c) by (nonlinear_arith);
}

proof fn lemma_grown(
    p: IsolatedPosition,
    free: Option<Decimal>,
    side: OrderSide,
    qty: Decimal,
    price: Decimal,
    leverage: Decimal,
)
    requires
        numbers(p),
        p.qty.m() == 0 || (p.qty.m() > 0) == (side == OrderSide::Buy),
        qty@.valid(),
        qty.m() > 0,
        price@.valid(),
        averages_exactly(decimal::magnitude(p.qty), p.avg_entry_px, qty, price),
        margin::increased(p, free, margin::signed_fill(side, qty), price, leverage) is Some,
        decimal::adds_exactly(p.qty, margin::signed_fill(side, qty)),
    ensures
        ({
            let n = (margin::increased(p, free, margin::signed_fill(side, qty), price, leverage)->0).position;
            let (q, y, c) = (decimal::units(p.qty), decimal::units(qty), decimal::units(price));
            &&& numbers(n)
            &&& n.realized_pnl == p.realized_pnl
            &&& decimal::units(n.qty) == q + way(side) * y
            &&& forall|x: int| #[trigger] gain(n, x) == gain(p, x) + way(side) * y * (x - c)
        }),
{
    broadcast use crate::decimal::lemma_of_view, crate::decimal::lemma_view_of;

    let d = way(side);
    let k = unit();
    let s = margin::signed_fill(side, qty);
    let held = decimal::magnitude(p.qty);
    decimal::lemma_pow10_positive(28);
    decimal::lemma_units_sign(qty);
    decimal::lemma_units_sign(p.qty);
    decimal::lemma_units_sign(held);
    decimal::law_exact_sum(p.qty, s);
    assert(decimal::magnitude(s) == qty) by {
        assert(decimal::negated(qty)@ == (decimal::DecimalView { mantissa: -qty.m(), scale: qty.s() }));
        assert(decimal::negated(decimal::negated(qty)) == qty);
    }
    let n = (margin::increased(p, free, s, price, leverage)->0).position;
    let a = decimal::times(Some(held), Some(p.avg_entry_px))->0;
    let b = decimal::times(Some(qty), Some(price))->0;
    decimal::law_exact_sum(a, b);
    decimal::law_exact_sum(held, qty);
    let size = decimal::plus(Some(held), Some(qty))->0;
    decimal::lemma_units_sign(size);
    let (q, h, y, e, c, g) = (
        decimal::units(p.qty),
        decimal::units(held),
        decimal::units(qty),
        decimal::units(p.avg_entry_px),
        decimal::units(price),
        decimal::units(n.avg_entry_px),
    );
    let (u, v) = (decimal::units(a), decimal::units(b));
    assert((u + v) * k == u * k + v * k) by (nonlinear_arith);
    assert(h * e == e * h && y * c == c * y) by (nonlinear_arith);
    assert(d * h == q && d * y == decimal::units(s)) by (nonlinear_arith)
        requires
            d == 1 && q == h && decimal::units(s) == y || d == -1 && q == -h && decimal::units(s) == -y,
    ;
    lemma_average(q, h, y, e, c, g, d);
    let n0 = decimal::units(n.qty);
    assert forall|x: int| #[trigger] gain(n, x) == gain(p, x) + d * y * (x - c) by {
        assert(n0 * (x - g) == n0 * x - n0 * g && q * (x - e) == q * x - q * e && d * y * (x - c) == d
            * y * x - d * y * c && (q + d * y) * x == q * x + d * y * x) by (nonlinear_arith);
    }
    decimal::lemma_units_sign(decimal::zero());
}

proof fn lemma_shrunk(
    p: IsolatedPosition,
    free: Option<Decimal>,
    side: OrderSide,
    part: Decimal,
    price: Decimal,
)
    requires
        numbers(p),
        p.qty.m() != 0,
        (p.qty.m() > 0) == (side == OrderSide::Sell),
        part@.valid(),
        part.m() > 0,
        decimal::units(part) <= decimal::units(decimal::magnitude(p.qty)),
        price@.valid(),
        profits_exactly(p, part, price),
        if p.qty.m() > 0 {
            decimal::subtracts_exactly(p.qty, part)
        } else {
            decimal::adds_exactly(p.qty, part)
        },
        margin::reduced(p, free, part, price) is Some,
    ensures
        ({
            let n = (margin::reduced(p, free, part, price)->0).position;
            let profit = margin::closing_profit(p, part, price)->0;
            let (q, y, c) = (decimal::units(p.qty), decimal::units(part), decimal::units(price));
            &&& numbers(n)
            &&& margin::closing_profit(p, part, price) is Some
            &&& decimal::units(n.realized_pnl) == decimal::units(p.realized_pnl) + decimal::units(profit)
            &&& decimal::units(profit) * unit() == -(way(side) * y * (c - decimal::units(p.avg_entry_px)))
            &&& decimal::units(n.qty) == q + way(side) * y
            &&& n.qty.m() != 0 ==> n.avg_entry_px == p.avg_entry_px
            &&& n.qty.m() == 0 ==> n.avg_entry_px == decimal::zero()
            &&& forall|x: int| #[trigger] worth(n, x) == worth(p, x) + way(side) * y * (x - c)
        }),
{
    broadcast use crate::decimal::lemma_of_view;

    let d = way(side);
    let k = unit();
    let n = (margin::reduced(p, free, part, price)->0).position;
    let (to, from) = if p.qty.m() > 0 {
        (price, p.avg_entry_px)
    } else {
        (p.avg_entry_px, price)
    };
    decimal::lemma_pow10_positive(28);
    decimal::lemma_units_sign(p.qty);
    decimal::lemma_units_sign(part);
    decimal::lemma_units_sign(decimal::zero());
    decimal::law_exact_difference(to, from);
    let step = decimal::minus(Some(to), Some(from))->0;
    let profit = decimal::times(Some(step), Some(part))->0;
    decimal::law_exact_sum(p.realized_pnl, profit);
    if p.qty.m() > 0 {
        decimal::law_exact_difference(p.qty, part);
    } else {
        decimal::law_exact_sum(p.qty, part);
    }
    decimal::lemma_units_sign(n.qty);
    let (q, y, c, e, f, g) = (
        decimal::units(p.qty),
        decimal::units(part),
        decimal::units(price),
        decimal::units(p.avg_entry_px),
        decimal::units(profit),
        decimal::units(step),
    );
    assert(f * k == -(d * y * (c - e))) by (nonlinear_arith)
        requires
            f * k == g * y,
            d == -1 && g == c - e || d == 1 && g == e - c,
    ;
    let (r, r2, n0) = (
        decimal::units(p.realized_pnl),
        decimal::units(n.realized_pnl),
        decimal::units(n.qty),
    );
    assert(n0 == q + d * y) by (nonlinear_arith)
        requires
            d == -1 && n0 == q - y || d == 1 && n0 == q + y,
    ;
    assert((r + f) * k == r * k + f * k) by (nonlinear_arith);
    assert forall|x: int| #[trigger] worth(n, x) == worth(p, x) + d * y * (x - c) by {
        let e2 = decimal::units(n.avg_entry_px);
        assert(n0 * (x - e2) == n0 * (x - e)) by (nonlinear_arith)
            requires
                n0 == 0 || e2 == e,
        ;
        assert((q + d * y) * (x - e) - d * y * (c - e) == q * (x - e) + d * y * (x - c))
            by (nonlinear_arith);
    }
}

/// A fill changes what a position is worth, at every price, by what the filled quantity is worth
/// there against the price that it was filled at. What it realizes is what it adds to the
/// realized profit of the position: nothing where the position grows. All of this where no step
/// is rounded.
pub proof fn law_fill_is_worth_its_price(
    p: IsolatedPosition,
    free: Option<Decimal>,
    side: OrderSide,
    qty: Decimal,
    price: Decimal,
    leverage: Decimal,
)
    requires
        numbers(p),
        qty@.valid(),
        qty.m() > 0,
        price@.valid(),
        books_exactly(p, side, qty, price),
        margin::settled(p, free, margin::signed_fill(side, qty), price, leverage) is Some,
    ensures
        ({
            let s = margin::settled(p, free, margin::signed_fill(side, qty), price, leverage)->0;
            let n = s.purse.position;
            let (q, y) = (decimal::units(p.qty), way(side) * decimal::units(qty));
            &&& numbers(n)
            &&& decimal::units(n.qty) == q + y
            &&& decimal::units(n.realized_pnl) == decimal::units(p.realized_pnl) + decimal::units(
                s.realized,
            )
            &&& q * way(side) >= 0 ==> decimal::units(s.realized) == 0
            &&& (q > 0 && 0 < q + y < q) || (q < 0 && q < q + y < 0) ==> n.avg_entry_px
                == p.avg_entry_px
            &&& (q <= 0 && q + y > 0) || (q >= 0 && q + y < 0) ==> decimal::units(n.avg_entry_px)
                == decimal::units(price)
            &&& forall|x: int| #[trigger]
                worth(n, x) == worth(p, x) + y * (x - decimal::units(price))
        }),
{
    broadcast use crate::decimal::lemma_of_view, crate::decimal::lemma_view_of;

    let d = way(side);
    let signed = margin::signed_fill(side, qty);
    let held = decimal::magnitude(p.qty);
    decimal::lemma_pow10_positive(28);
    decimal::lemma_units_sign(p.qty);
    decimal::lemma_units_sign(qty);
    decimal::lemma_units_sign(held);
    decimal::lemma_units_sign(signed);
    decimal::lemma_units_sign(decimal::zero());
    assert(decimal::magnitude(signed) == qty) by {
        assert(decimal::negated(qty)@ == (decimal::DecimalView { mantissa: -qty.m(), scale: qty.s() }));
        assert(decimal::negated(decimal::negated(qty)) == qty);
    }
    let s = margin::settled(p, free, signed, price, leverage)->0;
    let n = s.purse.position;
    let (q, u, c) = (decimal::units(p.qty), decimal::units(qty), decimal::units(price));
    let y = d * u;
    assert(q * d >= 0 <==> (q == 0 || (q > 0) == (d > 0))) by (nonlinear_arith)
        requires
            d == 1 || d == -1,
    ;
    assert(y == decimal::units(signed)) by (nonlinear_arith)
        requires
            y == d * u,
            d == 1 && decimal::units(signed) == u || d == -1 && decimal::units(signed) == -u,
    ;
    if p.qty.m() == 0 || (p.qty.m() > 0) == (side == OrderSide::Buy) {
        assert(margin::grows(p.qty, signed));
        lemma_grown(p, free, side, qty, price, leverage);
        if q == 0 {
            let (g, e) = (decimal::units(n.avg_entry_px), decimal::units(p.avg_entry_px));
            assert(gain(n, c) == gain(p, c) + y * (c - c));
            assert(y * 0 == 0 && 0 * (c - e) == 0);
            assert(g == c) by (nonlinear_arith)
                requires
                    y * (c - g) == 0,
                    y != 0,
            ;
        }
        assert forall|x: int| #[trigger] worth(n, x) == worth(p, x) + y * (x - c) by {
            assert(gain(n, x) == gain(p, x) + y * (x - c));
        }
    } else {
        let part = decimal::smaller(qty, held);
        decimal::law_order_by_units(held, qty);
        decimal::law_order_by_units(qty, held);
        decimal::lemma_units_sign(part);
        lemma_shrunk(p, free, side, part, price);
        decimal::law_exact_difference(qty, part);
        let rest = decimal::minus(Some(qty), Some(part))->0;
        decimal::lemma_units_sign(rest);
        let purse = margin::reduced(p, free, part, price)->0;
        let m = purse.position;
        let w = decimal::units(part);
        if rest.m() > 0 {
            assert(w == decimal::units(held));
            decimal::lemma_units_sign(m.qty);
            assert(d * w == -q) by (nonlinear_arith)
                requires
                    d == 1 && q == -w || d == -1 && q == w,
            ;
            assert(m.qty.m() == 0);
            lemma_flat_average(m, rest, price);
            lemma_grown(m, Some(purse.free), side, rest, price, leverage);
            let v = decimal::units(rest);
            assert(d * v == y - d * w) by (nonlinear_arith)
                requires
                    v == u - w,
                    y == d * u,
            ;
            assert forall|x: int| #[trigger] worth(n, x) == worth(p, x) + y * (x - c) by {
                assert(worth(m, x) == worth(p, x) + d * w * (x - c));
                assert(gain(n, x) == gain(m, x) + d * v * (x - c));
                assert(d * w * (x - c) + d * v * (x - c) == y * (x - c)) by (nonlinear_arith)
                    requires
                        d * v == y - d * w,
                ;
            }
            let g = decimal::units(n.avg_entry_px);
            assert(gain(n, c) == gain(m, c) + d * v * (c - c));
            assert(0 * (c - decimal::units(m.avg_entry_px)) == 0 && d * v * 0 == 0);
            let n0 = decimal::units(n.qty);
            assert(d * v != 0) by (nonlinear_arith)
                requires
                    d == 1 || d == -1,
                    v > 0,
            ;
            assert(g == c) by (nonlinear_arith)
                requires
                    n0 * (c - g) == 0,
                    n0 != 0,
            ;
        } else {
            assert(w == u);
            assert(n == m);
            decimal::lemma_units_sign(n.qty);
            assert forall|x: int| #[trigger] worth(n, x) == worth(p, x) + y * (x - c) by {
                assert(worth(m, x) == worth(p, x) + d * w * (x - c));
            }
        }
    }
}

proof fn lemma_flat_average(m: IsolatedPosition, rest: Decimal, price: Decimal)
    requires
        m.qty@.valid(),
        m.qty.m() == 0,
        m.avg_entry_px == decimal::zero(),
        rest@.valid(),
        rest.m() > 0,
        price@.valid(),
        decimal::multiplies_exactly(rest, price),
        decimal::divides_exactly(decimal::times(Some(rest), Some(price))->0, rest),
    ensures
        averages_exactly(decimal::magnitude(m.qty), m.avg_entry_px, rest, price),
{
    broadcast use crate::decimal::lemma_of_view, crate::decimal::lemma_view_of;

    reveal(decimal::sum_of);
    decimal::lemma_units_sign(decimal::zero());
    decimal::law_exact_product(m.qty, m.avg_entry_px);
    let a = decimal::times(Some(m.qty), Some(m.avg_entry_px))->0;
    let b = decimal::times(Some(rest), Some(price))->0;
    decimal::lemma_pow10_positive(28);
    decimal::lemma_units_sign(m.qty);
    let k = unit();
    assert(decimal::units(a) == 0) by (nonlinear_arith)
        requires
            decimal::units(a) * k == decimal::units(m.qty) * decimal::units(m.avg_entry_px),
            decimal::units(m.qty) == 0,
            k > 0,
    ;
    decimal::lemma_units_sign(a);
    assert(decimal::plus(Some(a), Some(b)) == Some(b));
    assert(decimal::plus(Some(m.qty), Some(rest)) == Some(rest));
}

/// The profit that the first `n` positions hold at their marks, long or short: the sum of their
/// gains, in units of units.
pub open spec fn profit_total(
    positions: Seq<(String, IsolatedPosition)>,
    marks: Map<Seq<char>, Decimal>,
    n: int,
) -> int
    decreases n,
{
    if n <= 0 {
        0
    } else {
        let e = positions[n - 1];
        profit_total(positions, marks, n - 1) + (if marks.contains_key(e.0@) {
            gain(e.1, decimal::units(marks[e.0@]))
        } else {
            0
        })
    }
}

/// No step of the held profit of the first `n` positions is rounded.
pub open spec fn shows_exactly(v: LedgerView, marks: Map<Seq<char>, Decimal>, n: nat) -> bool
    decreases n,
{
    n > 0 ==> shows_exactly(v, marks, (n - 1) as nat) && {
        let (key, p) = v.positions[n - 1];
        let way = decimal::minus(Some(marks[key@]), Some(p.avg_entry_px))->0;
        marks.contains_key(key@) && p.qty.m() != 0 ==> {
            &&& decimal::subtracts_exactly(marks[key@], p.avg_entry_px)
            &&& decimal::multiplies_exactly(p.qty, way)
            &&& decimal::adds_exactly(
                v.unrealized(marks, (n - 1) as nat)->0,
                decimal::times(Some(p.qty), Some(way))->0,
            )
        }
    }
}

/// The numbers of a ledger and its marks are within the limits, and no instrument is listed
/// twice.
pub open spec fn sound(v: LedgerView, marks: Map<Seq<char>, Decimal>) -> bool {
    &&& cash_laws::sound(v)
    &&& forall|i: int| 0 <= i < v.positions.len() ==> numbers((#[trigger] v.positions[i]).1)
    &&& forall|key: Seq<char>| #[trigger] marks.contains_key(key) ==> marks[key]@.valid()
}

proof fn lemma_held(v: LedgerView, marks: Map<Seq<char>, Decimal>, n: nat)
    requires
        sound(v, marks),
        n <= v.positions.len(),
        shows_exactly(v, marks, n),
    ensures
        v.unrealized(marks, n) matches Some(u) && u@.valid() && decimal::units(u) * unit()
            == profit_total(v.positions, marks, n as int),
    decreases n,
{
    broadcast use crate::decimal::lemma_of_view;

    decimal::lemma_units_sign(decimal::zero());
    if n > 0 {
        lemma_held(v, marks, (n - 1) as nat);
        let (key, p) = v.positions[n - 1];
        let before = v.unrealized(marks, (n - 1) as nat)->0;
        decimal::lemma_units_sign(p.qty);
        if marks.contains_key(key@) && p.qty.m() != 0 {
            let mark = marks[key@];
            decimal::law_exact_difference(mark, p.avg_entry_px);
            let way = decimal::minus(Some(mark), Some(p.avg_entry_px))->0;
            let held = decimal::times(Some(p.qty), Some(way))->0;
            decimal::law_exact_sum(before, held);
            let (a, b, k) = (decimal::units(before), decimal::units(held), unit());
            assert((a + b) * k == a * k + b * k) by (nonlinear_arith);
        } else {
            decimal::law_exact_sum(before, decimal::zero());
            assert(0 * (decimal::units(marks[key@]) - decimal::units(p.avg_entry_px)) == 0);
        }
    } else {
        assert(0 * unit() == 0);
    }
}

/// The held profit of an account is the sum over all positions with a mark, long or short, of
/// the quantity with its sign times the way from the entry price to the mark, where no step is
/// rounded.
pub proof fn law_total_held_profit(v: LedgerView, marks: Map<Seq<char>, Decimal>)
    requires
        sound(v, marks),
        shows_exactly(v, marks, v.positions.len()),
    ensures
        v.unrealized(marks, v.positions.len()) matches Some(u) && u@.valid() && decimal::units(u)
            * unit() == profit_total(v.positions, marks, v.positions.len() as int),
{
    lemma_held(v, marks, v.positions.len());
}

/// No step of the equity is rounded.
pub open spec fn weighs_exactly(v: LedgerView, marks: Map<Seq<char>, Decimal>) -> bool {
    let margins = decimal::total(cash_laws::margins(v))->0;
    let cash = decimal::plus(Some(v.free), Some(margins))->0;
    &&& shows_exactly(v, marks, v.positions.len())
    &&& decimal::totals_exactly(cash_laws::margins(v))
    &&& decimal::adds_exactly(v.free, margins)
    &&& decimal::adds_exactly(cash, v.unrealized(marks, v.positions.len())->0)
}

/// The equity of an account is its free cash, the margins of its positions and the profit that
/// they hold, where no step is rounded.
pub proof fn law_equity(v: LedgerView, marks: Map<Seq<char>, Decimal>)
    requires
        sound(v, marks),
        weighs_exactly(v, marks),
    ensures
        v.equity(marks) matches Some(e) && e@.valid() && decimal::units(e) * unit() == (decimal::units(
            v.free,
        ) + decimal::units_total(cash_laws::margins(v))) * unit() + profit_total(
            v.positions,
            marks,
            v.positions.len() as int,
        ),
{
    lemma_held(v, marks, v.positions.len());
    let all = cash_laws::margins(v);
    assert forall|i: int| 0 <= i < all.len() implies (#[trigger] all[i])@.valid() by {
        assert(v.positions[i].1.isolated_margin_reserved@.valid());
    }
    decimal::law_exact_total(all);
    assert(v.reserved() == decimal::total(all));
    let margins = decimal::total(all)->0;
    decimal::law_exact_sum(v.free, margins);
    let cash = decimal::plus(Some(v.free), Some(margins))->0;
    let held = v.unrealized(marks, v.positions.len())->0;
    decimal::law_exact_sum(cash, held);
    let (a, b, k) = (decimal::units(cash), decimal::units(held), unit());
    assert((a + b) * k == a * k + b * k) by (nonlinear_arith);
}

proof fn lemma_total_same(
    s: Seq<(String, IsolatedPosition)>,
    t: Seq<(String, IsolatedPosition)>,
    marks: Map<Seq<char>, Decimal>,
    n: int,
)
    requires
        0 <= n <= s.len(),
        n <= t.len(),
        forall|i: int| 0 <= i < n ==> #[trigger] s[i] == t[i],
    ensures
        profit_total(s, marks, n) == profit_total(t, marks, n),
    decreases n,
{
    if n > 0 {
        lemma_total_same(s, t, marks, n - 1);
        assert(s[n - 1] == t[n - 1]);
    }
}

proof fn lemma_total_update(
    s: Seq<(String, IsolatedPosition)>,
    marks: Map<Seq<char>, Decimal>,
    n: int,
    at: int,
    p: IsolatedPosition,
)
    requires
        0 <= at < n <= s.len(),
        marks.contains_key(s[at].0@),
    ensures
        profit_total(s.update(at, (s[at].0, p)), marks, n) == profit_total(s, marks, n) - gain(
            s[at].1,
            decimal::units(marks[s[at].0@]),
        ) + gain(p, decimal::units(marks[s[at].0@])),
    decreases n,
{
    let t = s.update(at, (s[at].0, p));
    if at == n - 1 {
        lemma_total_same(s, t, marks, n - 1);
    } else {
        lemma_total_update(s, marks, n - 1, at, p);
        assert(t[n - 1] == s[n - 1]);
    }
}

/// The position that a fill on a ledger finds.
pub open spec fn found(v: LedgerView, instrument: InstrumentId) -> IsolatedPosition {
    match v.position(instrument) {
        Some(p) => p,
        None => IsolatedPosition::empty(),
    }
}

/// All that is asked of a fill whose equity is followed: sound numbers, and no rounding.
pub open spec fn followed(
    v: LedgerView,
    instrument: InstrumentId,
    side: OrderSide,
    price: Decimal,
    qty: Decimal,
    fee: Decimal,
    marks: Map<Seq<char>, Decimal>,
) -> bool {
    let w = v.with_purse(instrument, (v.settlement(instrument, side, price, qty, fee)->0).purse);
    &&& sound(v, marks)
    &&& qty@.valid()
    &&& qty.m() > 0
    &&& price@.valid()
    &&& fee@.valid()
    &&& v.settlement(instrument, side, price, qty, fee) is Some
    &&& cash_laws::fills_exactly(v, instrument, side, price, qty, fee)
    &&& books_exactly(found(v, instrument), side, qty, price)
    &&& weighs_exactly(v, marks)
    &&& weighs_exactly(w, marks)
}

/// A fill at the mark price of its instrument changes the equity of an account by the fee and by
/// nothing else, where no step is rounded.
pub proof fn law_fill_at_mark_keeps_equity(
    v: LedgerView,
    instrument: InstrumentId,
    side: OrderSide,
    price: Decimal,
    qty: Decimal,
    fee: Decimal,
    marks: Map<Seq<char>, Decimal>,
)
    requires
        followed(v, instrument, side, price, qty, fee, marks),
        marks.contains_key(instrument@),
        decimal::units(marks[instrument@]) == decimal::units(price),
    ensures
        ({
            let s = v.settlement(instrument, side, price, qty, fee)->0;
            let w = v.with_purse(instrument, s.purse);
            &&& sound(w, marks)
            &&& v.equity(marks) is Some
            &&& w.equity(marks) is Some
            &&& decimal::units(w.equity(marks)->0) == decimal::units(v.equity(marks)->0)
                - decimal::units(fee)
        }),
{
    broadcast use crate::decimal::lemma_of_view;

    let s = v.settlement(instrument, side, price, qty, fee)->0;
    let w = v.with_purse(instrument, s.purse);
    let p = v.charged(instrument, fee)->0;
    let q = found(v, instrument);
    let k = unit();
    let x = decimal::units(price);
    decimal::lemma_pow10_positive(28);
    decimal::lemma_units_sign(decimal::zero());
    cash_laws::law_fill_conserves_cash(v, instrument, side, price, qty, fee);
    strmap::lemma_put(v.positions, instrument.0, s.purse.position);
    strmap::lemma_map_of(v.positions, instrument@);
    strmap::lemma_key_index(v.positions, instrument@);
    let at = strmap::key_index(v.positions, instrument@);
    if at < v.positions.len() {
        assert(numbers(v.positions[at].1));
    }
    assert(numbers(q) && numbers(p));
    law_fill_is_worth_its_price(
        p,
        decimal::minus(Some(v.free), Some(fee)),
        side,
        qty,
        price,
        v.leverage_of(instrument),
    );
    let n = s.purse.position;
    assert(worth(n, x) == worth(p, x) + way(side) * decimal::units(qty) * (x - x));
    assert(way(side) * decimal::units(qty) * 0 == 0) by (nonlinear_arith);
    let (r, r2, f) = (
        decimal::units(p.realized_pnl),
        decimal::units(n.realized_pnl),
        decimal::units(s.realized),
    );
    assert(gain(n, x) == gain(p, x) - f * k) by {
        assert((r + f) * k == r * k + f * k) by (nonlinear_arith);
    }
    // The ledger afterwards.
    assert forall|i: int| 0 <= i < w.positions.len() implies numbers((#[trigger] w.positions[i]).1) by {
        if i < v.positions.len() {
            assert(numbers(v.positions[i].1));
        }
    }
    let (a, b) = (v.positions, w.positions);
    let (m, l) = (a.len() as int, b.len() as int);
    assert(profit_total(b, marks, l) == profit_total(a, marks, m) - f * k) by {
        if at < a.len() {
            assert(b == a.update(at, (a[at].0, n)));
            lemma_total_update(a, marks, m, at, n);
        } else {
            assert(b == a.push((instrument.0, n)));
            lemma_total_same(a, b, marks, m);
            assert(b[m].0@ == instrument@);
            assert(gain(p, x) == 0) by {
                assert(0 * (x - decimal::units(p.avg_entry_px)) == 0);
            }
        }
    }
    law_equity(v, marks);
    law_equity(w, marks);
    let all = cash_laws::margins(v);
    let aft = cash_laws::margins(w);
    assert forall|i: int| 0 <= i < all.len() implies (#[trigger] all[i])@.valid() by {
        assert(v.positions[i].1.isolated_margin_reserved@.valid());
    }
    assert forall|i: int| 0 <= i < aft.len() implies (#[trigger] aft[i])@.valid() by {
        assert(w.positions[i].1.isolated_margin_reserved@.valid());
    }
    decimal::law_exact_total(all);
    decimal::law_exact_total(aft);
    assert(v.reserved() == decimal::total(all) && w.reserved() == decimal::total(aft));
    let (e, e2, c) = (
        decimal::units(v.equity(marks)->0),
        decimal::units(w.equity(marks)->0),
        decimal::units(fee),
    );
    let (g, g2) = (
        decimal::units(v.free) + decimal::units_total(all),
        decimal::units(w.free) + decimal::units_total(aft),
    );
    let (t, t2) = (profit_total(a, marks, m), profit_total(b, marks, l));
    assert(e2 == e - c) by (nonlinear_arith)
        requires
            k > 0,
            e * k == g * k + t,
            e2 * k == g2 * k + t2,
            t2 == t - f * k,
            g2 == g + f - c,
    ;
}

/// A fill without a fee at the mark of its instrument leads from one ledger to the next.
pub open spec fn trade_step(
    v: LedgerView,
    w: LedgerView,
    order: (InstrumentId, OrderSide, Decimal),
    marks: Map<Seq<char>, Decimal>,
) -> bool {
    let price = marks[order.0@];
    &&& marks.contains_key(order.0@)
    &&& followed(v, order.0, order.1, price, order.2, decimal::zero(), marks)
    &&& w == v.with_purse(
        order.0,
        (v.settlement(order.0, order.1, price, order.2, decimal::zero())->0).purse,
    )
}

/// A flat position keeps no margin.
pub open spec fn frees_margin(v: LedgerView) -> bool {
    forall|i: int|
        0 <= i < v.positions.len() ==> ((#[trigger] v.positions[i]).1.qty.m() == 0
            ==> v.positions[i].1.isolated_margin_reserved.m() == 0)
}

proof fn lemma_trades(
    states: Seq<LedgerView>,
    orders: Seq<(InstrumentId, OrderSide, Decimal)>,
    marks: Map<Seq<char>, Decimal>,
    n: int,
)
    requires
        0 <= n <= orders.len(),
        states.len() == orders.len() + 1,
        sound(states[0], marks),
        weighs_exactly(states[0], marks),
        frees_margin(states[0]),
        forall|i: int|
            0 <= i < orders.len() ==> #[trigger] trade_step(states[i], states[i + 1], orders[i], marks),
    ensures
        sound(states[n], marks),
        weighs_exactly(states[n], marks),
        frees_margin(states[n]),
        states[n].equity(marks) is Some,
        decimal::units(states[n].equity(marks)->0) == decimal::units(states[0].equity(marks)->0),
    decreases n,
{
    law_equity(states[0], marks);
    if n > 0 {
        lemma_trades(states, orders, marks, n - 1);
        assert(trade_step(states[n - 1], states[n - 1 + 1], orders[n - 1], marks));
        let (v, w, o) = (states[n - 1], states[n], orders[n - 1]);
        let price = marks[o.0@];
        decimal::lemma_units_sign(decimal::zero());
        law_fill_at_mark_keeps_equity(v, o.0, o.1, price, o.2, decimal::zero(), marks);
        cash_laws::law_fill_conserves_cash(v, o.0, o.1, price, o.2, decimal::zero());
        let s = v.settlement(o.0, o.1, price, o.2, decimal::zero())->0;
        strmap::lemma_put(v.positions, o.0.0, s.purse.position);
        strmap::lemma_key_index(v.positions, o.0@);
        assert(w.position(o.0) == Some(s.purse.position));
        assert forall|i: int|
            0 <= i < w.positions.len() && (#[trigger] w.positions[i]).1.qty.m() == 0 implies w.positions[i].1.isolated_margin_reserved.m()
            == 0 by {
            if i < v.positions.len() && i != strmap::key_index(v.positions, o.0@) {
                assert(w.positions[i] == v.positions[i]);
            } else {
                assert(w.positions[i].1 == s.purse.position);
            }
        }
    }
}

proof fn lemma_nothing_held(v: LedgerView, marks: Map<Seq<char>, Decimal>, n: int)
    requires
        sound(v, marks),
        frees_margin(v),
        0 <= n <= v.positions.len(),
        forall|i: int| 0 <= i < v.positions.len() ==> (#[trigger] v.positions[i]).1.qty.m() == 0,
    ensures
        profit_total(v.positions, marks, n) == 0,
        decimal::units_total(cash_laws::margins(v).subrange(0, n)) == 0,
    decreases n,
{
    let all = cash_laws::margins(v);
    if n > 0 {
        lemma_nothing_held(v, marks, n - 1);
        let e = v.positions[n - 1];
        assert(numbers(e.1) && e.1.isolated_margin_reserved@.valid());
        decimal::lemma_units_sign(e.1.qty);
        decimal::lemma_units_sign(e.1.isolated_margin_reserved);
        assert(0 * (decimal::units(marks[e.0@]) - decimal::units(e.1.avg_entry_px)) == 0);
        assert(all.subrange(0, n).drop_last() =~= all.subrange(0, n - 1));
        assert(all.subrange(0, n).last() == e.1.isolated_margin_reserved);
    }
}

/// Closing everything at the marks turns the equity into cash: when trades at the marks, without
/// fees, have left every position flat, free cash is the equity that there was before them, where
/// no step is rounded.
pub proof fn law_closing_out_gives_equity(
    states: Seq<LedgerView>,
    orders: Seq<(InstrumentId, OrderSide, Decimal)>,
    marks: Map<Seq<char>, Decimal>,
)
    requires
        states.len() == orders.len() + 1,
        sound(states[0], marks),
        weighs_exactly(states[0], marks),
        frees_margin(states[0]),
        forall|i: int|
            0 <= i < orders.len() ==> #[trigger] trade_step(states[i], states[i + 1], orders[i], marks),
        forall|i: int|
            0 <= i < states.last().positions.len() ==> (
            #[trigger] states.last().positions[i]).1.qty.m() == 0,
    ensures
        states[0].equity(marks) matches Some(e) && decimal::units(states.last().free) == decimal::units(e),
{
    let n = orders.len() as int;
    lemma_trades(states, orders, marks, n);
    let w = states.last();
    assert(w == states[n]);
    lemma_nothing_held(w, marks, w.positions.len() as int);
    let all = cash_laws::margins(w);
    assert(all.subrange(0, w.positions.len() as int) =~= all);
    law_equity(w, marks);
    law_equity(states[0], marks);
    decimal::lemma_pow10_positive(28);
    let (e, f, k) = (decimal::units(w.equity(marks)->0), decimal::units(w.free), unit());
    assert(e == f) by (nonlinear_arith)
        requires
            k > 0,
            e * k == (f + 0) * k + 0,
    ;
}

/// The margin that a growing position takes is the notional of the fill over the leverage, where
/// no step is rounded.
pub proof fn law_margin_taken(
    p: IsolatedPosition,
    free: Option<Decimal>,
    signed_qty: Decimal,
    price: Decimal,
    leverage: Decimal,
)
    requires
        signed_qty@.valid(),
        p.isolated_margin_reserved@.valid(),
        decimal::multiplies_exactly(price, decimal::magnitude(signed_qty)),
        ({
            let notional = decimal::times(Some(price), Some(decimal::magnitude(signed_qty)))->0;
            &&& decimal::divides_exactly(notional, leverage)
            &&& decimal::adds_exactly(
                p.isolated_margin_reserved,
                decimal::over(Some(notional), Some(leverage))->0,
            )
        }),
        margin::increased(p, free, signed_qty, price, leverage) is Some,
    ensures
        ({
            let n = (margin::increased(p, free, signed_qty, price, leverage)->0).position;
            let size = if decimal::units(signed_qty) < 0 {
                -decimal::units(signed_qty)
            } else {
                decimal::units(signed_qty)
            };
            (decimal::units(n.isolated_margin_reserved) - decimal::units(p.isolated_margin_reserved))
                * decimal::units(leverage) == decimal::units(price) * size
        }),
{
    decimal::lemma_units_sign(signed_qty);
    let notional = decimal::times(Some(price), Some(decimal::magnitude(signed_qty)))->0;
    let margin = decimal::over(Some(notional), Some(leverage))->0;
    decimal::law_exact_sum(p.isolated_margin_reserved, margin);
}

/// Closing a part of a position releases the same part of its margin, where no step is rounded.
pub proof fn law_margin_released(p: IsolatedPosition, free: Option<Decimal>, part: Decimal, price: Decimal)
    requires
        p.qty@.valid(),
        p.isolated_margin_reserved@.valid(),
        decimal::divides_exactly(part, decimal::magnitude(p.qty)),
        ({
            let share = decimal::over(Some(part), Some(decimal::magnitude(p.qty)))->0;
            &&& decimal::multiplies_exactly(p.isolated_margin_reserved, share)
            &&& decimal::subtracts_exactly(
                p.isolated_margin_reserved,
                decimal::times(Some(p.isolated_margin_reserved), Some(share))->0,
            )
        }),
        margin::reduced(p, free, part, price) matches Some(purse) && purse.position.qty.m() != 0,
    ensures
        ({
            let n = (margin::reduced(p, free, part, price)->0).position;
            let size = if decimal::units(p.qty) < 0 {
                -decimal::units(p.qty)
            } else {
                decimal::units(p.qty)
            };
            let before = decimal::units(p.isolated_margin_reserved);
            (before - decimal::units(n.isolated_margin_reserved)) * size == before * decimal::units(part)
        }),
{
    decimal::lemma_units_sign(p.qty);
    decimal::lemma_pow10_positive(28);
    let held = decimal::magnitude(p.qty);
    let share = decimal::over(Some(part), Some(held))->0;
    let released = decimal::times(Some(p.isolated_margin_reserved), Some(share))->0;
    decimal::law_exact_difference(p.isolated_margin_reserved, released);
    let (m, x, r, h, y, k) = (
        decimal::units(p.isolated_margin_reserved),
        decimal::units(share),
        decimal::units(released),
        decimal::units(held),
        decimal::units(part),
        unit(),
    );
    assert(r * h == m * y) by (nonlinear_arith)
        requires
            k > 0,
            r * k == m * x,
            x * h == y * k,
    ;
}

/// No step of the margin that an order needs is rounded.
pub open spec fn needs_exactly(price: Decimal, qty: Decimal, leverage: Decimal, fee_rate: Decimal) -> bool {
    let notional = decimal::times(Some(price), Some(qty))->0;
    let fee = decimal::times(Some(notional), Some(fee_rate))->0;
    &&& decimal::multiplies_exactly(price, qty)
    &&& decimal::divides_exactly(notional, leverage)
    &&& decimal::multiplies_exactly(notional, fee_rate)
    &&& decimal::multiplies_exactly(fee, Decimal::lit(2, 0))
    &&& decimal::adds_exactly(
        decimal::over(Some(notional), Some(leverage))->0,
        decimal::times(Some(fee), Some(Decimal::lit(2, 0)))->0,
    )
}

/// The margin that an order needs is its notional over the leverage, and the fees of a way in
/// and a way out, where no step is rounded.
pub proof fn law_margin_needed(v: LedgerView, instrument: InstrumentId, price: Decimal, qty: Decimal)
    requires
        needs_exactly(price, qty, v.leverage_of(instrument), v.fee_rate),
    ensures
        v.needed(instrument, price, qty) matches Some(r) && {
            let notional = decimal::units(price) * decimal::units(qty);
            let (l, f) = (decimal::units(v.leverage_of(instrument)), decimal::units(v.fee_rate));
            &&& r@.valid()
            &&& decimal::units(r) * unit() * unit() * l == notional * unit() * unit() + 2 * notional * f * l
        },
{
    broadcast use crate::decimal::lemma_of_view;

    let leverage = v.leverage_of(instrument);
    let notional = decimal::times(Some(price), Some(qty))->0;
    let fee = decimal::times(Some(notional), Some(v.fee_rate))->0;
    let two = Decimal::lit(2, 0);
    assert(two@ == (decimal::DecimalView { mantissa: 2, scale: 0 }));
    assert(decimal::units(two) == 2 * unit());
    let (a, b) = (
        decimal::over(Some(notional), Some(leverage))->0,
        decimal::times(Some(fee), Some(two))->0,
    );
    decimal::law_exact_sum(a, b);
    decimal::lemma_pow10_positive(28);
    let (n, x, y, z, l, f, k) = (
        decimal::units(notional),
        decimal::units(a),
        decimal::units(b),
        decimal::units(fee),
        decimal::units(leverage),
        decimal::units(v.fee_rate),
        unit(),
    );
    let pq = decimal::units(price) * decimal::units(qty);
    assert(y == 2 * z) by (nonlinear_arith)
        requires
            k > 0,
            y * k == z * (2 * k),
    ;
    assert(x * k * k * l == pq * k * k) by (nonlinear_arith)
        requires
            x * l == n * k,
            n * k == pq,
    ;
    assert(y * k * k * l == 2 * pq * f * l) by (nonlinear_arith)
        requires
            y == 2 * z,
            z * k == n * f,
            n * k == pq,
    ;
    assert((x + y) * k * k * l == x * k * k * l + y * k * k * l) by (nonlinear_arith);
}

/// An order needs no margin just where it only reduces, or where it goes against what is held:
/// a sale of what is held long, a purchase of what is held short.
pub proof fn law_reducing_needs_no_margin(
    v: LedgerView,
    instrument: InstrumentId,
    side: OrderSide,
    reduce_only: bool,
)
    requires
        v.position(instrument) matches Some(p) ==> p.qty@.valid(),
    ensures
        v.needs_no_margin(instrument, side, reduce_only) <==> reduce_only || (v.position(instrument) matches Some(
            p,
        ) && decimal::units(p.qty) * way(side) < 0),
{
    if let Some(p) = v.position(instrument) {
        decimal::lemma_units_sign(p.qty);
        let (q, d) = (decimal::units(p.qty), way(side));
        assert(q * d < 0 <==> (d == 1 && q < 0) || (d == -1 && q > 0)) by (nonlinear_arith)
            requires
                d == 1 || d == -1,
        ;
    }
}

/// No step of the liquidation price is rounded.
pub open spec fn liquidates_exactly(p: IsolatedPosition) -> bool {
    let held = decimal::magnitude(p.qty);
    let way = if p.qty.m() > 0 {
        decimal::one()
    } else {
        decimal::negated(decimal::one())
    };
    let notional = decimal::times(Some(held), Some(p.avg_entry_px))->0;
    let kept = decimal::times(Some(notional), Some(p.maintenance_margin_rate))->0;
    let left = decimal::minus(Some(p.isolated_margin_reserved), Some(kept))->0;
    let turned = decimal::times(Some(way), Some(left))->0;
    let share = decimal::over(Some(turned), Some(held))->0;
    let rate = decimal::times(Some(p.maintenance_margin_rate), Some(way))->0;
    let divisor = decimal::minus(Some(decimal::one()), Some(rate))->0;
    let away = decimal::over(Some(share), Some(divisor))->0;
    &&& decimal::multiplies_exactly(held, p.avg_entry_px)
    &&& decimal::multiplies_exactly(notional, p.maintenance_margin_rate)
    &&& decimal::subtracts_exactly(p.isolated_margin_reserved, kept)
    &&& decimal::multiplies_exactly(way, left)
    &&& decimal::divides_exactly(turned, held)
    &&& decimal::subtracts_exactly(decimal::one(), rate)
    &&& decimal::divides_exactly(share, divisor)
    &&& decimal::subtracts_exactly(p.avg_entry_px, away)
}

/// A position is liquidated at just those marks at which its margin and the profit that it holds
/// together are no more than what must be maintained: `margin + qty * (mark - entry) <= rate *
/// |qty| * mark`. This is so for a rate below one, where no step is rounded.
pub proof fn law_liquidated_when_margin_is_used_up(p: IsolatedPosition, mark: Decimal)
    requires
        numbers(p),
        p.qty.m() != 0,
        p.isolated_margin_reserved@.valid(),
        p.maintenance_margin_rate@.valid(),
        0 <= decimal::units(p.maintenance_margin_rate) < unit(),
        mark@.valid(),
        liquidates_exactly(p),
    ensures
        p.liquidated_at(mark) matches Some(b) && {
            let (q, x) = (decimal::units(p.qty), decimal::units(mark));
            let size = if q < 0 {
                -q
            } else {
                q
            };
            let m = decimal::units(p.isolated_margin_reserved);
            b <==> unit() * (unit() * m + gain(p, x)) <= decimal::units(p.maintenance_margin_rate) * size * x
        },
{
    broadcast use crate::decimal::lemma_of_view, crate::decimal::lemma_view_of;

    let k = unit();
    let held = decimal::magnitude(p.qty);
    let turn = p.sign();
    let rate = p.maintenance_margin_rate;
    decimal::lemma_pow10_positive(28);
    decimal::lemma_units_sign(p.qty);
    decimal::lemma_units_sign(decimal::one());
    assert(decimal::one()@ == (decimal::DecimalView { mantissa: 1, scale: 0 }));
    decimal::lemma_times_one(rate);
    let notional = decimal::times(Some(held), Some(p.avg_entry_px))->0;
    let kept = decimal::times(Some(notional), Some(rate))->0;
    decimal::law_exact_difference(p.isolated_margin_reserved, kept);
    let left = decimal::minus(Some(p.isolated_margin_reserved), Some(kept))->0;
    let turned = decimal::times(Some(turn), Some(left))->0;
    let share = decimal::over(Some(turned), Some(held))->0;
    let r2 = decimal::times(Some(rate), Some(turn))->0;
    decimal::law_exact_difference(decimal::one(), r2);
    let divisor = decimal::minus(Some(decimal::one()), Some(r2))->0;
    decimal::lemma_units_sign(divisor);
    let away = decimal::over(Some(share), Some(divisor))->0;
    decimal::law_exact_difference(p.avg_entry_px, away);
    let price = decimal::minus(Some(p.avg_entry_px), Some(away))->0;
    let (e, r, m, q, x) = (
        decimal::units(p.avg_entry_px),
        decimal::units(rate),
        decimal::units(p.isolated_margin_reserved),
        decimal::units(held),
        decimal::units(mark),
    );
    let s: int = if p.qty.m() > 0 {
        1
    } else {
        -1
    };
    let (a, t, d, y) = (
        decimal::units(left),
        decimal::units(turned),
        decimal::units(divisor),
        decimal::units(away),
    );
    assert(t == s * a) by (nonlinear_arith)
        requires
            k > 0,
            s == 1 && t * k == k * a || s == -1 && t * k == (-k) * a,
    ;
    assert(d == k - s * r) by (nonlinear_arith)
        requires
            s == 1 && d == k - r || s == -1 && d == k + r,
    ;
    assert(d > 0);
    margin::lemma_liquidation(
        k,
        q,
        e,
        r,
        m,
        decimal::units(notional),
        decimal::units(kept),
        a,
        decimal::units(share),
        d,
        y,
        s,
    );
    let z = decimal::units(price);
    assert(z == e - y);
    decimal::law_order_by_units(price, mark);
    decimal::law_order_by_units(mark, price);
    // How far the two sides are apart grows with the distance of the mark.
    let held_units = decimal::units(p.qty);
    assert(held_units == s * q) by (nonlinear_arith)
        requires
            s == 1 && held_units == q || s == -1 && held_units == -q,
    ;
    let lhs = k * (k * m + held_units * (x - e));
    let rhs = r * q * x;
    let sq = s * q;
    assert(lhs == k * (k * m + -(sq * y)) + k * sq * (x - z)) by (nonlinear_arith)
        requires
            lhs == k * (k * m + sq * (x - e)),
            z == e - y,
    ;
    assert(r * q * z + k * sq * (x - z) - r * q * x == (k * sq - r * q) * (x - z)) by (nonlinear_arith);
    let sd = s * d;
    assert(sd == s * k - r) by (nonlinear_arith)
        requires
            sd == s * d,
            d == k - s * r,
            s == 1 || s == -1,
    ;
    assert(k * sq - r * q == q * sd) by (nonlinear_arith)
        requires
            sd == s * k - r,
            sq == s * q,
    ;
    assert(lhs <= rhs <==> (s == 1 && x <= z) || (s == -1 && x >= z)) by (nonlinear_arith)
        requires
            lhs - rhs == q * sd * (x - z),
            q > 0,
            s == 1 && sd > 0 || s == -1 && sd < 0,
    ;
}

/// A position is held and is liquidated at its mark.
pub open spec fn due(v: LedgerView, marks: Map<Seq<char>, Decimal>, i: int) -> bool {
    let (key, p) = v.positions[i];
    p.qty.m() != 0 && marks.contains_key(key@) && p.liquidated_at(marks[key@]) == Some(true)
}

/// The instruments to be liquidated are those of the positions that are liquidated at their
/// marks, long or short, each once.
pub proof fn law_liquidations_are_found(v: LedgerView, marks: Map<Seq<char>, Decimal>, n: nat)
    requires
        n <= v.positions.len(),
        v.liquidations(marks, n) is Some,
    ensures
        forall|i: int|
            0 <= i < n && #[trigger] due(v, marks, i) ==> (v.liquidations(marks, n)->0).contains(
                InstrumentId(v.positions[i].0),
            ),
        forall|id: InstrumentId| #[trigger]
            (v.liquidations(marks, n)->0).contains(id) ==> exists|i: int|
                0 <= i < n && #[trigger] due(v, marks, i) && InstrumentId(v.positions[i].0) == id,
        (v.liquidations(marks, n)->0).len() <= n,
    decreases n,
{
    if n > 0 {
        let m = (n - 1) as nat;
        law_liquidations_are_found(v, marks, m);
        let (a, b) = (v.liquidations(marks, m)->0, v.liquidations(marks, n)->0);
        let last = InstrumentId(v.positions[n - 1].0);
        if due(v, marks, n - 1) {
            assert(b == a.push(last));
            assert(b[a.len() as int] == last);
        } else {
            assert(b == a);
        }
        assert forall|i: int| 0 <= i < n && #[trigger] due(v, marks, i) implies b.contains(
            InstrumentId(v.positions[i].0),
        ) by {
            let id = InstrumentId(v.positions[i].0);
            if i < n - 1 {
                assert(a.contains(id));
                let j = choose|j: int| 0 <= j < a.len() && a[j] == id;
                assert(b[j] == id);
            }
        }
        assert forall|id: InstrumentId| #[trigger] b.contains(id) implies exists|i: int|
            0 <= i < n && #[trigger] due(v, marks, i) && InstrumentId(v.positions[i].0) == id by {
            let j = choose|j: int| 0 <= j < b.len() && b[j] == id;
            if j < a.len() {
                assert(a[j] == id);
                assert(a.contains(id));
            } else {
                assert(due(v, marks, n - 1));
            }
        }
    } else {
        assert((v.liquidations(marks, n)->0).len() == 0);
    }
}

} // verus!
