//! What is reported says what happened: numbers, trades, figures and positions.
use vstd::prelude::*;
use crate::account_syncer;
use crate::backtest;
use crate::decimal;
use crate::performance;
use crate::text;
use crate::trade_syncer;
use crate::wasm_api;
use crate::account_syncer::PositionInfo;
use crate::backtest::{BacktestFill, BacktestResult};
use crate::decimal::{Decimal, DecimalView};
use crate::events::OrderFilledEvent;
use crate::exchange::Fill;
use crate::performance::{BacktestClosedTrade, ClosedTrade, Drawdown, EquityPoint, OpenTrade};
use crate::trade_syncer::UpstreamTrade;
use crate::types::{OrderSide, Position, PositionSnapshot, Quote};
use crate::wasm_api::JsPricePoint;

verus! {

/// One in units.
pub open spec fn unit() -> int {
    decimal::pow10(28)
}

/// The number that a numeral denotes: an optional sign, digits, and optional digits after a
/// point.
pub open spec fn denoted(s: Seq<char>) -> Option<DecimalView> {
    let negative = s.len() > 0 && s[0] == '-';
    let body = if negative {
        s.subrange(1, s.len() as int)
    } else {
        s
    };
    let dot = text::first_index(body, '.', 0);
    let whole = text::digits_value(body.subrange(0, dot));
    let rest = if dot < body.len() {
        body.subrange(dot + 1, body.len() as int)
    } else {
        Seq::empty()
    };
    match (whole, text::digits_value(rest)) {
        (Some(a), Some(b)) => {
            let m = a * decimal::pow10(rest.len()) + b;
            Some(
                DecimalView {
                    mantissa: if negative {
                        -m
                    } else {
                        m
                    },
                    scale: rest.len(),
                },
            )
        },
        _ => None,
    }
}

pub proof fn lemma_only_digits(n: nat)
    ensures
        text::digits(n).len() > 0,
        forall|i: int| 0 <= i < text::digits(n).len() ==> text::digit_value(#[trigger] text::digits(n)[i]) is Some,
    decreases n,
{
    text::lemma_digit(n % 10);
    if n >= 10 {
        lemma_only_digits(n / 10);
        let (a, b) = (text::digits(n / 10), text::digits(n));
        assert forall|i: int| 0 <= i < b.len() implies text::digit_value(#[trigger] b[i]) is Some by {
            if i < a.len() {
                assert(b[i] == a[i]);
            }
        }
    }
}

pub proof fn lemma_padded(n: nat, width: nat)
    ensures
        text::padded_digits(n, width).len() == width,
        text::digits_value(text::padded_digits(n, width)) == Some((n % (decimal::pow10(width) as nat)) as nat),
    decreases width,
{
    decimal::lemma_pow10_positive(width);
    if width > 0 {
        let w = (width - 1) as nat;
        lemma_padded(n / 10, w);
        text::lemma_digit(n % 10);
        decimal::lemma_pow10_positive(w);
        let s = text::padded_digits(n, width);
        assert(s.drop_last() =~= text::padded_digits(n / 10, w));
        let p = decimal::pow10(w);
        vstd::arithmetic::div_mod::lemma_mod_breakdown(n as int, 10, p);
        assert(10 * p == decimal::pow10(width));
    }
}

pub proof fn lemma_no_dot_before(s: Seq<char>, at: int, from: int)
    requires
        0 <= from <= at <= s.len(),
        at < s.len() ==> s[at] == '.',
        forall|i: int| from <= i < at ==> s[i] != '.',
    ensures
        text::first_index(s, '.', from) == at,
    decreases at - from,
{
    if from < at {
        lemma_no_dot_before(s, at, from + 1);
    }
}

/// The text of a number denotes that number, with all of its digits.
pub proof fn law_number_reads_back(v: DecimalView)
    requires
        v.valid(),
    ensures
        denoted(decimal::decimal_text(v)) == Some(v),
{
    reveal_strlit("-");
    reveal_strlit("");
    reveal_strlit(".");
    let a: nat = if v.mantissa < 0 {
        (-v.mantissa) as nat
    } else {
        v.mantissa as nat
    };
    decimal::lemma_pow10_positive(v.scale);
    let p = decimal::pow10(v.scale) as nat;
    let (w, r) = (a / p, a % p);
    vstd::arithmetic::div_mod::lemma_fundamental_div_mod(a as int, p as int);
    let s = decimal::decimal_text(v);
    let d = text::digits(w);
    lemma_only_digits(w);
    text::lemma_digits_read_back(w);
    lemma_padded(r, v.scale);
    let f = text::padded_digits(r, v.scale);
    let body = if v.scale == 0 {
        d
    } else {
        d + seq!['.'] + f
    };
    assert forall|i: int| 0 <= i < d.len() implies d[i] != '.' && d[i] != '-' by {
        assert(text::digit_value(d[i]) is Some);
    }
    assert(body[0] == d[0]);
    assert("-"@ =~= seq!['-'] && "."@ =~= seq!['.'] && ""@ =~= Seq::<char>::empty());
    if v.mantissa < 0 {
        assert(s =~= seq!['-'] + body);
        assert(s.subrange(1, s.len() as int) =~= body);
    } else {
        assert(s =~= body);
    }
    let n = d.len() as int;
    assert forall|i: int| 0 <= i < n implies body[i] != '.' by {
        assert(body[i] == d[i]);
    }
    lemma_no_dot_before(body, n, 0);
    assert(body.subrange(0, n) =~= d);
    assert(r % p == r) by {
        vstd::arithmetic::div_mod::lemma_small_mod(r, p);
    }
    assert(w * p + r == a) by (nonlinear_arith)
        requires
            a == p * w + r,
    ;
    if v.scale > 0 {
        assert(body.subrange(n + 1, body.len() as int) =~= f);
    } else {
        assert(text::digits_value(Seq::<char>::empty()) == Some(0nat));
        assert(p == 1);
    }
}

/// Different numbers, and equal ones with different digits, have different texts.
pub proof fn law_texts_are_told_apart(a: DecimalView, b: DecimalView)
    requires
        a.valid(),
        b.valid(),
        decimal::decimal_text(a) == decimal::decimal_text(b),
    ensures
        a == b,
{
    law_number_reads_back(a);
    law_number_reads_back(b);
}

/// A trade that closes a position says what happened: it was long just where the position was,
/// it went from the entry price of the position to the price of the fill, with the smaller of the
/// two quantities, and its gross result is that quantity times the way of the price, with the
/// sign of the position. This is so where no step is rounded.
pub proof fn law_closed_trade_says_what_happened(
    o: OpenTrade,
    side: OrderSide,
    price: Decimal,
    qty: Decimal,
    fee: Decimal,
    ts: i64,
)
    requires
        o.qty@.valid(),
        o.avg_entry@.valid(),
        price@.valid(),
        qty@.valid(),
        decimal::units(qty) > 0,
        (decimal::units(o.qty) > 0 && side == OrderSide::Sell) || (decimal::units(o.qty) < 0 && side
            == OrderSide::Buy),
        ({
            let (to, from) = if o.qty.m() > 0 {
                (price, o.avg_entry)
            } else {
                (o.avg_entry, price)
            };
            &&& decimal::subtracts_exactly(to, from)
            &&& decimal::multiplies_exactly(
                decimal::minus(Some(to), Some(from))->0,
                decimal::smaller(qty, decimal::magnitude(o.qty)),
            )
        }),
        o.closed(
            match side {
                OrderSide::Buy => decimal::one(),
                OrderSide::Sell => decimal::negated(decimal::one()),
            },
            price,
            qty,
            fee,
            ts,
        ) is Some,
    ensures
        ({
            let sign = match side {
                OrderSide::Buy => decimal::one(),
                OrderSide::Sell => decimal::negated(decimal::one()),
            };
            let t = (o.closed(sign, price, qty, fee, ts)->0).trade;
            let (q, n) = (decimal::units(o.qty), decimal::units(t.qty));
            let way = decimal::units(price) - decimal::units(o.avg_entry);
            &&& t.long <==> q > 0
            &&& t.entry_price == o.avg_entry
            &&& t.exit_price == price
            &&& t.exit_ts_ms == ts
            &&& 0 < n <= decimal::units(qty)
            &&& n == decimal::units(qty) || n == q || n == -q
            &&& n <= (if q < 0 {
                -q
            } else {
                q
            })
            &&& decimal::units(t.gross_pnl) * unit() == (if q > 0 {
                way * n
            } else {
                -(way * n)
            })
        }),
{
    let held = decimal::magnitude(o.qty);
    decimal::lemma_units_sign(o.qty);
    decimal::lemma_units_sign(qty);
    decimal::lemma_units_sign(held);
    decimal::law_order_by_units(held, qty);
    let (to, from) = if o.qty.m() > 0 {
        (price, o.avg_entry)
    } else {
        (o.avg_entry, price)
    };
    decimal::law_exact_difference(to, from);
    let part = decimal::smaller(qty, held);
    let n = decimal::units(part);
    let (a, b) = (decimal::units(price), decimal::units(o.avg_entry));
    assert((b - a) * n == -((a - b) * n)) by (nonlinear_arith);
}

/// One more trade counts as won just where it earned more than nothing after its fees, as lost
/// where it earned less, and as neither where it earned nothing.
pub proof fn law_trades_are_counted(trades: Seq<ClosedTrade>, t: ClosedTrade)
    requires
        t.net_pnl@.valid(),
    ensures
        performance::wins(trades.push(t)) == performance::wins(trades) + (if decimal::units(t.net_pnl) > 0 {
            1nat
        } else {
            0nat
        }),
        performance::losses(trades.push(t)) == performance::losses(trades) + (if decimal::units(t.net_pnl)
            < 0 {
            1nat
        } else {
            0nat
        }),
        performance::wins(Seq::<ClosedTrade>::empty()) == 0,
        performance::losses(Seq::<ClosedTrade>::empty()) == 0,
{
    decimal::lemma_units_sign(t.net_pnl);
    assert(trades.push(t).drop_last() =~= trades);
}

/// A share of the starting balance is the amount over it; there is none without a balance above
/// zero. This is so where the quotient is not rounded.
pub proof fn law_share_of_balance(amount: Decimal, balance: Decimal)
    requires
        balance@.valid(),
        decimal::units(balance) > 0 ==> decimal::divides_exactly(amount, balance),
    ensures
        performance::part_of(amount, None) == Some(None::<Decimal>),
        decimal::units(balance) <= 0 ==> performance::part_of(amount, Some(balance)) == Some(
            None::<Decimal>,
        ),
        decimal::units(balance) > 0 ==> (performance::part_of(amount, Some(balance)) matches Some(Some(q))
            && decimal::units(q) * decimal::units(balance) == decimal::units(amount) * unit()),
{
    decimal::lemma_units_sign(balance);
}

/// The figures of a run are the shares of its result and its fees, its worst fall, and how many
/// trades it closed, won and lost.
pub proof fn law_figures_of_a_run(
    balance: Decimal,
    curve: Seq<EquityPoint>,
    trades: Seq<ClosedTrade>,
    fill_count: usize,
    total_volume: Decimal,
    total_fees: Decimal,
    net_pnl: Decimal,
)
    requires
        balance@.valid(),
        decimal::units(balance) > 0,
        decimal::divides_exactly(net_pnl, balance),
        decimal::divides_exactly(total_fees, balance),
        performance::drawdown_of(curve) is Some,
        trades.len() <= usize::MAX,
        curve.len() > 0,
    ensures
        performance::figures_of(
            Some(balance),
            curve,
            trades,
            fill_count,
            total_volume,
            total_fees,
            net_pnl,
        ) matches Some(f) && {
            let b = decimal::units(balance);
            &&& f.period_return matches Some(x) && decimal::units(x) * b == decimal::units(net_pnl) * unit()
            &&& f.fee_drag matches Some(x) && decimal::units(x) * b == decimal::units(total_fees) * unit()
            &&& f.max_drawdown_usdc == (performance::drawdown_of(curve)->0).worst
            &&& f.max_drawdown == (performance::drawdown_of(curve)->0).ratio
            &&& f.winning_trade_count == performance::wins(trades)
            &&& f.losing_trade_count == performance::losses(trades)
            &&& f.closed_trade_count == trades.len()
            &&& f.fill_count == fill_count
            &&& f.net_pnl == net_pnl
            &&& f.total_fees == total_fees
            &&& f.total_volume == total_volume
            &&& f.span_ms matches Some(n) ==> curve[0].ts_ms + n == curve.last().ts_ms
            &&& f.span_ms is None <==> curve.last().ts_ms <= curve[0].ts_ms
        },
{
    decimal::lemma_units_sign(balance);
    performance::law_wins_and_losses(trades);
}

/// A fall that is worse than all before is measured as a part of the peak that it fell from,
/// where that is above zero and the quotient is not rounded.
pub proof fn law_fall_is_a_part_of_its_peak(d: Drawdown, equity: Decimal)
    requires
        d.worst@.valid(),
        equity@.valid(),
        d.peak matches Some(p) && p@.valid() && decimal::units(p) > 0 && decimal::subtracts_exactly(
            p,
            equity,
        ) && decimal::divides_exactly(decimal::minus(Some(p), Some(equity))->0, p) && decimal::units(p)
            - decimal::units(equity) > decimal::units(d.worst) && decimal::units(equity) < decimal::units(
            p,
        ),
    ensures
        d.with(equity) matches Some(n) && {
            let p = decimal::units(d.peak->0);
            &&& n.peak == d.peak
            &&& decimal::units(n.worst) == p - decimal::units(equity)
            &&& n.ratio matches Some(r) && decimal::units(r) * p == (p - decimal::units(equity)) * unit()
        },
{
    let p = d.peak->0;
    decimal::law_order_by_units(equity, p);
    decimal::lemma_units_sign(p);
    decimal::law_exact_difference(p, equity);
    decimal::law_order_by_units(d.worst, decimal::minus(Some(p), Some(equity))->0);
}

/// The volume of fills in units of units: the sum of quantity times price.
pub open spec fn turnover(fills: Seq<OrderFilledEvent>) -> int
    decreases fills.len(),
{
    if fills.len() == 0 {
        0
    } else {
        turnover(fills.drop_last()) + decimal::units(fills.last().qty.0) * decimal::units(
            fills.last().price.0,
        )
    }
}

/// No step of the volume is rounded.
pub open spec fn turns_over_exactly(fills: Seq<OrderFilledEvent>) -> bool
    decreases fills.len(),
{
    fills.len() > 0 ==> {
        let f = fills.last();
        &&& turns_over_exactly(fills.drop_last())
        &&& decimal::multiplies_exactly(f.qty.0, f.price.0)
        &&& decimal::adds_exactly(
            backtest::volume_of(fills.drop_last())->0,
            decimal::times(Some(f.qty.0), Some(f.price.0))->0,
        )
    }
}

/// The volume of a run is the sum over its fills, bought or sold, of quantity times price, where
/// no step is rounded.
pub proof fn law_volume_adds_up(fills: Seq<OrderFilledEvent>)
    requires
        turns_over_exactly(fills),
    ensures
        backtest::volume_of(fills) matches Some(v) && v@.valid() && decimal::units(v) * unit() == turnover(
            fills,
        ),
    decreases fills.len(),
{
    broadcast use crate::decimal::lemma_of_view;

    decimal::lemma_units_sign(decimal::zero());
    if fills.len() > 0 {
        law_volume_adds_up(fills.drop_last());
        let before = backtest::volume_of(fills.drop_last())->0;
        let f = fills.last();
        let n = decimal::times(Some(f.qty.0), Some(f.price.0))->0;
        decimal::law_exact_sum(before, n);
        let (a, b, k) = (decimal::units(before), decimal::units(n), unit());
        assert((a + b) * k == a * k + b * k) by (nonlinear_arith);
    } else {
        assert(0 * unit() == 0);
    }
}

/// The fees and the results of several positions are their sums, where no sum is rounded.
pub proof fn law_positions_add_up(s: Seq<Position>, p: Position)
    requires
        performance::fees_of(s) matches Some(f) && f@.valid() && p.total_fees@.valid()
            && decimal::adds_exactly(f, p.total_fees),
        performance::pnl_of(s) matches Some(e) && e@.valid() && (p.pnl() matches Some(x) && x@.valid()
            && decimal::adds_exactly(e, x)),
    ensures
        performance::fees_of(s.push(p)) matches Some(f) && decimal::units(f) == decimal::units(
            performance::fees_of(s)->0,
        ) + decimal::units(p.total_fees),
        performance::pnl_of(s.push(p)) matches Some(e) && decimal::units(e) == decimal::units(
            performance::pnl_of(s)->0,
        ) + decimal::units(p.pnl()->0),
{
    assert(s.push(p).drop_last() =~= s);
    decimal::law_exact_sum(performance::fees_of(s)->0, p.total_fees);
    decimal::law_exact_sum(performance::pnl_of(s)->0, p.pnl()->0);
}

/// A trade that is reported upstream says what was filled: the side by its name, and the numbers
/// of the fill, which can be read back; its notional is the price times the quantity, where that
/// is not rounded.
pub proof fn law_upstream_trade_says_what_was_filled(t: UpstreamTrade, fill: Fill)
    requires
        trade_syncer::reports(t, fill),
        fill.price.0@.valid(),
        fill.qty.0@.valid(),
        fill.fee.amount@.valid(),
        decimal::multiplies_exactly(fill.price.0, fill.qty.0),
    ensures
        t.side@ == "BUY"@ <==> fill.side == OrderSide::Buy,
        t.side@ == "SELL"@ <==> fill.side == OrderSide::Sell,
        denoted(t.qty@) == Some(fill.qty.0@),
        denoted(t.price@) == Some(fill.price.0@),
        denoted(t.fee@) == Some(fill.fee.amount@),
        denoted(t.quote_notional@) matches Some(n) && n.valid() && n.at_scale(28) * unit()
            == decimal::units(fill.price.0) * decimal::units(fill.qty.0),
        t.trade_id@ == fill.trade_id@,
        t.instrument_id@ == fill.instrument@,
        t.fee_currency@ == fill.fee.asset@,
        t.ts_event == fill.ts,
        fill.client_id matches Some(c) ==> t.client_order_id@ == c@,
        fill.exchange_order_id matches Some(e) ==> t.venue_order_id@ == e@,
{
    reveal_strlit("BUY");
    reveal_strlit("SELL");
    assert("BUY"@.len() == 3 && "SELL"@.len() == 4);
    law_number_reads_back(fill.qty.0@);
    law_number_reads_back(fill.price.0@);
    law_number_reads_back(fill.fee.amount@);
    law_number_reads_back((decimal::times(Some(fill.price.0), Some(fill.qty.0))->0)@);
}

/// A position that is reported upstream says what is held, with numbers that can be read back.
pub proof fn law_upstream_position_says_what_is_held(row: PositionInfo, p: PositionSnapshot)
    requires
        account_syncer::shows_position(row, p),
        p.qty@.valid(),
        p.avg_entry_px matches Some(px) ==> px.0@.valid(),
        p.unrealized_pnl matches Some(u) ==> u@.valid(),
    ensures
        row.instrument_id@ == p.instrument@,
        denoted(row.qty@) == Some(p.qty@),
        p.avg_entry_px matches Some(px) ==> denoted(row.entry_px@) == Some(px.0@),
        p.unrealized_pnl matches Some(u) ==> denoted(row.unrealized_pnl@) == Some(u@),
{
    law_number_reads_back(p.qty@);
    if let Some(px) = p.avg_entry_px {
        law_number_reads_back(px.0@);
    }
    if let Some(u) = p.unrealized_pnl {
        law_number_reads_back(u@);
    }
}

/// A row of closed trades says what the trade was, with numbers that can be read back.
pub proof fn law_trade_row_says_what_the_trade_was(row: BacktestClosedTrade, t: ClosedTrade)
    requires
        performance::shows_trade(row, t),
        t.qty@.valid(),
        t.entry_price@.valid(),
        t.exit_price@.valid(),
        t.gross_pnl@.valid(),
        t.fees@.valid(),
        t.net_pnl@.valid(),
    ensures
        row.side@ == "LONG"@ <==> t.long,
        row.side@ == "SHORT"@ <==> !t.long,
        denoted(row.qty@) == Some(t.qty@),
        denoted(row.entry_price@) == Some(t.entry_price@),
        denoted(row.exit_price@) == Some(t.exit_price@),
        denoted(row.gross_pnl@) == Some(t.gross_pnl@),
        denoted(row.fees@) == Some(t.fees@),
        denoted(row.net_pnl@) == Some(t.net_pnl@),
        row.entry_ts_ms == t.entry_ts_ms,
        row.exit_ts_ms == t.exit_ts_ms,
{
    reveal_strlit("LONG");
    reveal_strlit("SHORT");
    assert("LONG"@.len() == 4 && "SHORT"@.len() == 5);
    law_number_reads_back(t.qty@);
    law_number_reads_back(t.entry_price@);
    law_number_reads_back(t.exit_price@);
    law_number_reads_back(t.gross_pnl@);
    law_number_reads_back(t.fees@);
    law_number_reads_back(t.net_pnl@);
}

/// A row of fills says what was filled, with numbers that can be read back.
pub proof fn law_fill_row_says_what_was_filled(row: BacktestFill, fill: OrderFilledEvent)
    requires
        backtest::shows(row, fill),
        fill.price.0@.valid(),
        fill.qty.0@.valid(),
    ensures
        row.side@ == "Buy"@ <==> fill.side == OrderSide::Buy,
        row.side@ == "Sell"@ <==> fill.side == OrderSide::Sell,
        denoted(row.price@) == Some(fill.price.0@),
        denoted(row.qty@) == Some(fill.qty.0@),
        row.ts_ms == fill.ts,
{
    reveal_strlit("Buy");
    reveal_strlit("Sell");
    assert("Buy"@.len() == 3 && "Sell"@.len() == 4);
    law_number_reads_back(fill.price.0@);
    law_number_reads_back(fill.qty.0@);
}

/// The result of a run says what is held in the end, what was realized, the fees and the volume,
/// with numbers that can be read back, and has a row for every fill.
pub proof fn law_result_says_what_the_run_came_to(
    r: BacktestResult,
    p: Position,
    fills: Seq<OrderFilledEvent>,
    volume: Decimal,
    net: Decimal,
    reason: Option<Seq<char>>,
)
    requires
        backtest::is_result(r, p, fills, volume, net, reason),
        p.qty@.valid(),
        p.realized_pnl@.valid(),
        p.total_fees@.valid(),
        volume@.valid(),
        net@.valid(),
        p.unrealized_pnl matches Some(u) ==> u@.valid(),
    ensures
        denoted(r.final_position_qty@) == Some(p.qty@),
        denoted(r.realized_pnl@) == Some(p.realized_pnl@),
        denoted(r.total_fees@) == Some(p.total_fees@),
        denoted(r.total_volume@) == Some(volume@),
        denoted(r.net_pnl@) == Some(net@),
        p.unrealized_pnl matches Some(u) ==> (r.unrealized_pnl matches Some(t) && denoted(t@) == Some(u@)),
        r.trade_count == fills.len(),
        r.fills@.len() == fills.len(),
        forall|i: int|
            0 <= i < fills.len() ==> (#[trigger] r.fills@[i]).ts_ms == fills[i].ts && (r.fills@[i].side@
                == "Buy"@ <==> fills[i].side == OrderSide::Buy),
{
    reveal_strlit("Buy");
    reveal_strlit("Sell");
    assert("Buy"@.len() == 3 && "Sell"@.len() == 4);
    law_number_reads_back(p.qty@);
    law_number_reads_back(p.realized_pnl@);
    law_number_reads_back(p.total_fees@);
    law_number_reads_back(volume@);
    law_number_reads_back(net@);
    if let Some(u) = p.unrealized_pnl {
        law_number_reads_back(u@);
    }
}

/// A price that is replayed is quoted one apart, as far below it as above, where neither step is
/// rounded.
pub proof fn law_replayed_price_is_in_the_middle(q: Quote, instrument: Seq<char>, price: Decimal, ts: i64)
    requires
        wasm_api::shows(q, instrument, (price, ts)),
        price@.valid(),
        decimal::subtracts_exactly(price, Decimal::lit(5, 1)),
        decimal::adds_exactly(price, Decimal::lit(5, 1)),
    ensures
        decimal::units(q.ask.0) - decimal::units(q.bid.0) == unit(),
        decimal::units(q.ask.0) - decimal::units(price) == decimal::units(price) - decimal::units(q.bid.0),
        q.ts == ts,
        q.instrument@ == instrument,
{
    broadcast use crate::decimal::lemma_of_view, crate::decimal::lemma_view_of;

    reveal(decimal::quotient_of);
    let (ten, two, half) = (Decimal::lit(10, 1), Decimal::lit(2, 0), Decimal::lit(5, 1));
    assert(ten@ == (DecimalView { mantissa: 10, scale: 1 }));
    assert(two@ == (DecimalView { mantissa: 2, scale: 0 }));
    assert(half@ == (DecimalView { mantissa: 5, scale: 1 }));
    assert(decimal::over(Some(ten), Some(two)) == Some(half));
    decimal::law_exact_difference(price, half);
    decimal::law_exact_sum(price, half);
    decimal::lemma_pow10_adds(27, 1);
    assert(decimal::pow10(1) == 10) by {
        reveal_with_fuel(decimal::pow10, 2);
    }
    assert(decimal::units(half) == 5 * decimal::pow10(27));
}

/// The points that are replayed are those that are numbers, in their order, each with its time.
pub proof fn law_points_are_replayed(points: Seq<JsPricePoint>, n: nat)
    requires
        n < points.len(),
    ensures
        wasm_api::numbers(points, 0).len() == 0,
        match decimal::decimal_parsed(points[n as int].price@) {
            Some(v) => wasm_api::numbers(points, n + 1) == wasm_api::numbers(points, n).push(
                (Decimal::of(v), points[n as int].ts_ms),
            ),
            None => wasm_api::numbers(points, n + 1) == wasm_api::numbers(points, n),
        },
{
}

} // verus!
