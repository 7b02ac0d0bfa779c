//! How well a run did: the trades that were closed, the equity over time and the worst fall.
use vstd::prelude::*;
use vstd::string::*;
use crate::decimal;
use crate::backtest;
use crate::backtest::total_volume;
use crate::decimal::{Decimal, sum, difference, product, quotient};
use crate::events::OrderFilledEvent;
use crate::text::same_text;
use crate::types::{InstrumentId, OrderSide, Position, now_ms};

verus! {

/// A point of the equity curve, for reading.
#[derive(Debug)]
pub struct BacktestEquityPoint {
    pub ts_ms: i64,
    pub equity: String,
    pub net_pnl: String,
    pub price: Option<String>,
}

/// A trade that was closed, for reading.
#[derive(Debug)]
pub struct BacktestClosedTrade {
    pub entry_ts_ms: i64,
    pub exit_ts_ms: i64,
    pub side: String,
    pub qty: String,
    pub entry_price: String,
    pub exit_price: String,
    pub gross_pnl: String,
    pub fees: String,
    pub net_pnl: String,
}

/// What a run is measured against, for reading.
#[derive(Debug)]
pub struct PerformanceBenchmark {
    pub start_ts_ms: Option<i64>,
    pub end_ts_ms: Option<i64>,
    pub duration_ms: Option<i64>,
    pub quote_count: usize,
    pub starting_balance_usdc: Option<String>,
    pub ending_balance_usdc: Option<String>,
    pub instrument: Option<String>,
}

/// A trade that was closed.
#[derive(Debug, Clone, Copy)]
pub struct ClosedTrade {
    pub entry_ts_ms: i64,
    pub exit_ts_ms: i64,
    /// Bought first and sold later.
    pub long: bool,
    pub qty: Decimal,
    pub entry_price: Decimal,
    pub exit_price: Decimal,
    pub gross_pnl: Decimal,
    /// The shares of the fees of opening and closing.
    pub fees: Decimal,
    pub net_pnl: Decimal,
}

/// A position that is being traded.
#[derive(Debug, Clone, Copy)]
pub struct OpenTrade {
    /// Long above zero and short below.
    pub qty: Decimal,
    pub avg_entry: Decimal,
    pub open_ts_ms: Option<i64>,
    /// The fees of opening that no closed trade has taken its share of.
    pub fee_pool: Decimal,
}

impl OpenTrade {
    /// Nothing is open.
    pub open spec fn none() -> OpenTrade {
        OpenTrade { qty: decimal::zero(), avg_entry: decimal::zero(), open_ts_ms: None, fee_pool: decimal::zero() }
    }

    /// The position is on the side of `sign`.
    pub open spec fn sides_with(self, sign: Decimal) -> bool {
        (self.qty.m() > 0 && sign.m() > 0) || (self.qty.m() < 0 && sign.m() < 0)
    }

    /// The position after `qty` more was bought or sold on its own side.
    pub open spec fn opened(
        self,
        sign: Decimal,
        price: Decimal,
        qty: Decimal,
        fee: Decimal,
        ts: i64,
    ) -> Option<OpenTrade> {
        let held = decimal::magnitude(self.qty);
        match (
            decimal::plus(Some(held), Some(qty)),
            decimal::plus(Some(self.qty), decimal::times(Some(sign), Some(qty))),
            decimal::plus(Some(self.fee_pool), Some(fee)),
        ) {
            (Some(abs), Some(qty_after), Some(fee_pool)) => {
                let entry = if abs.m() > 0 {
                    decimal::over(
                        decimal::plus(
                            decimal::times(Some(self.avg_entry), Some(held)),
                            decimal::times(Some(price), Some(qty)),
                        ),
                        Some(abs),
                    )
                } else {
                    Some(decimal::zero())
                };
                match entry {
                    Some(avg_entry) => Some(
                        OpenTrade {
                            qty: qty_after,
                            avg_entry,
                            open_ts_ms: if self.open_ts_ms is Some {
                                self.open_ts_ms
                            } else {
                                Some(ts)
                            },
                            fee_pool,
                        },
                    ),
                    None => None,
                }
            },
            _ => None,
        }
    }

    /// What closing does.
    pub open spec fn closed(
        self,
        sign: Decimal,
        price: Decimal,
        qty: Decimal,
        fee: Decimal,
        ts: i64,
    ) -> Option<Closing> {
        let held = decimal::magnitude(self.qty);
        let part = decimal::smaller(qty, held);
        let close_fee = decimal::times(Some(fee), decimal::over(Some(part), Some(qty)));
        let open_fee = if held.m() > 0 {
            decimal::times(Some(self.fee_pool), decimal::over(Some(part), Some(held)))
        } else {
            Some(decimal::zero())
        };
        let gross = decimal::times(
            if self.qty.m() > 0 {
                decimal::minus(Some(price), Some(self.avg_entry))
            } else {
                decimal::minus(Some(self.avg_entry), Some(price))
            },
            Some(part),
        );
        let fees = decimal::plus(open_fee, close_fee);
        match (gross, fees, decimal::minus(gross, fees)) {
            (Some(gross_pnl), Some(fees), Some(net_pnl)) => match (
                decimal::plus(Some(self.qty), decimal::times(Some(sign), Some(part))),
                decimal::minus(Some(self.fee_pool), open_fee),
                decimal::minus(Some(qty), Some(part)),
                decimal::minus(Some(fee), close_fee),
            ) {
                (Some(left), Some(pool), Some(rest_qty), Some(rest_fee)) => Some(
                    Closing {
                        open: if left.m() == 0 {
                            OpenTrade {
                                qty: left,
                                avg_entry: decimal::zero(),
                                open_ts_ms: None,
                                fee_pool: decimal::zero(),
                            }
                        } else {
                            OpenTrade { qty: left, fee_pool: pool, ..self }
                        },
                        trade: ClosedTrade {
                            entry_ts_ms: match self.open_ts_ms {
                                Some(t) => t,
                                None => ts,
                            },
                            exit_ts_ms: ts,
                            long: self.qty.m() > 0,
                            qty: part,
                            entry_price: self.avg_entry,
                            exit_price: price,
                            gross_pnl,
                            fees,
                            net_pnl,
                        },
                        rest_qty,
                        rest_fee,
                    },
                ),
                _ => None,
            },
            _ => None,
        }
    }

    /// The position after a fill and the trades that the fill closes. What is left over when
    /// all is closed opens a position on the other side.
    pub open spec fn filled(self, fill: OrderFilledEvent) -> Option<(OpenTrade, Seq<ClosedTrade>)> {
        let sign = match fill.side {
            OrderSide::Buy => decimal::one(),
            OrderSide::Sell => decimal::negated(decimal::one()),
        };
        if fill.qty.0.m() <= 0 {
            Some((self, Seq::empty()))
        } else if self.qty.m() == 0 || self.sides_with(sign) {
            match self.opened(sign, fill.price.0, fill.qty.0, fill.fee.amount, fill.ts) {
                Some(o) => Some((o, Seq::empty())),
                None => None,
            }
        } else {
            match self.closed(sign, fill.price.0, fill.qty.0, fill.fee.amount, fill.ts) {
                Some(c) => if c.rest_qty.m() > 0 {
                    match c.open.opened(sign, fill.price.0, c.rest_qty, c.rest_fee, fill.ts) {
                        Some(o) => Some((o, seq![c.trade])),
                        None => None,
                    }
                } else {
                    Some((c.open, seq![c.trade]))
                },
                None => None,
            }
        }
    }
}

/// What closing does: the position that stays open, the trade, and what is left of the fill.
#[derive(Debug, Clone, Copy)]
pub struct Closing {
    pub open: OpenTrade,
    pub trade: ClosedTrade,
    pub rest_qty: Decimal,
    pub rest_fee: Decimal,
}

/// When part of a fill is left over after closing, nothing is open any more: the left-over
/// part never closes again.
pub proof fn law_left_over_finds_nothing_open(
    o: OpenTrade,
    sign: Decimal,
    price: Decimal,
    qty: Decimal,
    fee: Decimal,
    ts: i64,
)
    requires
        o.qty@.valid(),
        qty@.valid(),
        qty.m() > 0,
        o.qty.m() != 0,
        sign == decimal::one() || sign == decimal::negated(decimal::one()),
        !o.sides_with(sign),
    ensures
        o.closed(sign, price, qty, fee, ts) matches Some(c) ==> c.rest_qty.m() <= 0
            || c.open.qty.m() == 0,
{
    broadcast use crate::decimal::lemma_of_view, crate::decimal::lemma_view_of;

    let held = decimal::magnitude(o.qty);
    let part = decimal::smaller(qty, held);
    if part == qty {
        decimal::law_difference_with_itself(qty);
    }
    reveal(crate::decimal::product_of);
    reveal(crate::decimal::sum_of);
    assert(decimal::one()@ == (crate::decimal::DecimalView { mantissa: 1, scale: 0 }));
    assert(decimal::negated(decimal::one())@ == (crate::decimal::DecimalView { mantissa: -1, scale: 0 }));
    let h = held@;
    assert(h.mantissa == if o.qty.m() < 0 {
        -o.qty.m()
    } else {
        o.qty.m()
    });
    assert(h.scale == o.qty.s());
    if part != qty {
        assert(part == held);
        let p = decimal::times(Some(sign), Some(held))->0;
        assert(1 * h.mantissa == h.mantissa);
        assert(-1 * h.mantissa == -h.mantissa);
        assert(p@ == (crate::decimal::DecimalView { mantissa: -o.qty.m(), scale: h.scale }));
        assert(crate::decimal::pow10(0) == 1);
        assert(o.qty@.at_scale(h.scale) == o.qty.m() * 1);
        assert(p@.at_scale(h.scale) == -o.qty.m() * 1);
        assert(decimal::plus(Some(o.qty), Some(p))->0.m() == 0);
    }
}

/// The fills from the earliest to the latest; those of the same time stay in their order.
pub open spec fn by_time(s: Seq<OrderFilledEvent>) -> Seq<OrderFilledEvent>
    decreases s.len(),
{
    if s.len() == 0 {
        s
    } else {
        let rest = by_time(s.drop_last());
        rest.insert(place(rest, s.last().ts), s.last())
    }
}

/// Behind the last fill that is not later.
pub open spec fn place(s: Seq<OrderFilledEvent>, ts: i64) -> int
    decreases s.len(),
{
    if s.len() == 0 || s.last().ts <= ts {
        s.len() as int
    } else {
        place(s.drop_last(), ts)
    }
}

/// No fill comes before an earlier one.
pub open spec fn in_order(s: Seq<OrderFilledEvent>) -> bool {
    forall|i: int, j: int| 0 <= i < j < s.len() ==> (#[trigger] s[i]).ts <= (#[trigger] s[j]).ts
}

/// Where a fill is put in.
pub proof fn lemma_place(s: Seq<OrderFilledEvent>, ts: i64)
    requires
        in_order(s),
    ensures
        0 <= place(s, ts) <= s.len(),
        forall|i: int| 0 <= i < place(s, ts) ==> (#[trigger] s[i]).ts <= ts,
        forall|i: int| place(s, ts) <= i < s.len() ==> (#[trigger] s[i]).ts > ts,
    decreases s.len(),
{
    if s.len() > 0 {
        if s.last().ts > ts {
            let t = s.drop_last();
            assert forall|i: int, j: int| 0 <= i < j < t.len() implies (#[trigger] t[i]).ts <= (
            #[trigger] t[j]).ts by {
                assert(s[i].ts <= s[j].ts);
            }
            lemma_place(t, ts);
            assert forall|i: int| 0 <= i < place(s, ts) implies (#[trigger] s[i]).ts <= ts by {
                assert(t[i] == s[i]);
            }
            assert forall|i: int| place(s, ts) <= i < s.len() implies (#[trigger] s[i]).ts > ts by {
                if i < t.len() {
                    assert(t[i] == s[i]);
                }
            }
        } else {
            assert forall|i: int| 0 <= i < s.len() implies (#[trigger] s[i]).ts <= ts by {
                if i < s.len() - 1 {
                    assert(s[i].ts <= s[s.len() - 1].ts);
                }
            }
        }
    }
}

/// The fills are put in order, and each is still there once.
pub proof fn law_by_time(s: Seq<OrderFilledEvent>)
    ensures
        in_order(by_time(s)),
        by_time(s).len() == s.len(),
        by_time(s).to_multiset() == s.to_multiset(),
    decreases s.len(),
{
    broadcast use vstd::seq_lib::group_to_multiset_ensures;

    if s.len() > 0 {
        let rest = by_time(s.drop_last());
        let x = s.last();
        law_by_time(s.drop_last());
        lemma_place(rest, x.ts);
        let at = place(rest, x.ts);
        let t = rest.insert(at, x);
        assert forall|i: int, j: int| 0 <= i < j < t.len() implies (#[trigger] t[i]).ts <= (
        #[trigger] t[j]).ts by {
            let a = if i < at {
                i
            } else {
                i - 1
            };
            let b = if j < at {
                j
            } else {
                j - 1
            };
            if i != at {
                assert(t[i] == rest[a]);
            }
            if j != at {
                assert(t[j] == rest[b]);
            }
            if i != at && j != at {
                assert(rest[a].ts <= rest[b].ts);
            }
        }
        assert(s =~= s.drop_last().push(x));
        vstd::seq_lib::to_multiset_insert(rest, at, x);
    }
}

/// The trades that fills in order close.
pub open spec fn trades_of(s: Seq<OrderFilledEvent>) -> Option<(OpenTrade, Seq<ClosedTrade>)>
    decreases s.len(),
{
    if s.len() == 0 {
        Some((OpenTrade::none(), Seq::empty()))
    } else {
        match trades_of(s.drop_last()) {
            Some((open, trades)) => match open.filled(s.last()) {
                Some((next, more)) => Some((next, trades + more)),
                None => None,
            },
            None => None,
        }
    }
}

fn open_more(
    o: &OpenTrade,
    sign: Decimal,
    price: Decimal,
    qty: Decimal,
    fee: Decimal,
    ts: i64,
) -> (r: Option<OpenTrade>)
    ensures
        r == o.opened(sign, price, qty, fee, ts),
{
    let held = o.qty.abs();
    match (
        held.checked_add(qty),
        sum(Some(o.qty), product(Some(sign), Some(qty))),
        o.fee_pool.checked_add(fee),
    ) {
        (Some(abs), Some(qty_after), Some(fee_pool)) => {
            let entry = if abs.is_positive() {
                quotient(
                    sum(
                        product(Some(o.avg_entry), Some(held)),
                        product(Some(price), Some(qty)),
                    ),
                    Some(abs),
                )
            } else {
                Some(Decimal::zero())
            };
            match entry {
                Some(avg_entry) => Some(
                    OpenTrade {
                        qty: qty_after,
                        avg_entry,
                        open_ts_ms: match o.open_ts_ms {
                            Some(t) => Some(t),
                            None => Some(ts),
                        },
                        fee_pool,
                    },
                ),
                None => None,
            }
        },
        _ => None,
    }
}

fn close_part(
    o: &OpenTrade,
    sign: Decimal,
    price: Decimal,
    qty: Decimal,
    fee: Decimal,
    ts: i64,
) -> (r: Option<Closing>)
    ensures
        r == o.closed(sign, price, qty, fee, ts),
{
    let held = o.qty.abs();
    let part = qty.min(held);
    let close_fee = product(Some(fee), quotient(Some(part), Some(qty)));
    let open_fee = if held.is_positive() {
        product(Some(o.fee_pool), quotient(Some(part), Some(held)))
    } else {
        Some(Decimal::zero())
    };
    let long = o.qty.is_positive();
    let gross = product(
        if long {
            difference(Some(price), Some(o.avg_entry))
        } else {
            difference(Some(o.avg_entry), Some(price))
        },
        Some(part),
    );
    let fees = sum(open_fee, close_fee);
    match (gross, fees, difference(gross, fees)) {
        (Some(gross_pnl), Some(fees), Some(net_pnl)) => match (
            sum(Some(o.qty), product(Some(sign), Some(part))),
            difference(Some(o.fee_pool), open_fee),
            difference(Some(qty), Some(part)),
            difference(Some(fee), close_fee),
        ) {
            (Some(left), Some(pool), Some(rest_qty), Some(rest_fee)) => Some(
                Closing {
                    open: if left.is_zero() {
                        OpenTrade {
                            qty: left,
                            avg_entry: Decimal::zero(),
                            open_ts_ms: None,
                            fee_pool: Decimal::zero(),
                        }
                    } else {
                        OpenTrade {
                            qty: left,
                            fee_pool: pool,
                            avg_entry: o.avg_entry,
                            open_ts_ms: o.open_ts_ms,
                        }
                    },
                    trade: ClosedTrade {
                        entry_ts_ms: match o.open_ts_ms {
                            Some(t) => t,
                            None => ts,
                        },
                        exit_ts_ms: ts,
                        long,
                        qty: part,
                        entry_price: o.avg_entry,
                        exit_price: price,
                        gross_pnl,
                        fees,
                        net_pnl,
                    },
                    rest_qty,
                    rest_fee,
                },
            ),
            _ => None,
        },
        _ => None,
    }
}

fn sort_by_time(fills: &Vec<OrderFilledEvent>) -> (r: Vec<OrderFilledEvent>)
    ensures
        r@ == by_time(fills@),
{
    let mut out: Vec<OrderFilledEvent> = Vec::new();
    let mut i: usize = 0;
    assert(fills@.subrange(0, 0) =~= Seq::empty());
    assert(out@ =~= by_time(Seq::empty()));
    while i < fills.len()
        invariant
            i <= fills@.len(),
            out@ == by_time(fills@.subrange(0, i as int)),
        decreases fills@.len() - i,
    {
        let fill = fills[i].clone();
        assert(fills@.subrange(0, i + 1).drop_last() =~= fills@.subrange(0, i as int));
        let mut at: usize = out.len();
        assert(out@.subrange(0, at as int) =~= out@);
        while at > 0 && out[at - 1].ts > fill.ts
            invariant
                at <= out@.len(),
                place(out@.subrange(0, at as int), fill.ts) == place(out@, fill.ts),
            decreases at,
        {
            assert(out@.subrange(0, at as int).drop_last() =~= out@.subrange(0, at - 1));
            at = at - 1;
        }
        assert(place(out@.subrange(0, at as int), fill.ts) == at) by {
            let t = out@.subrange(0, at as int);
            if at > 0 {
                assert(t.last() == out@[at - 1]);
            }
        }
        out.insert(at, fill);
        i = i + 1;
    }
    assert(fills@.subrange(0, fills@.len() as int) =~= fills@);
    out
}

/// The trades that the fills close, in the order of time, where no step is too large.
pub fn closed_trades_of(fills: &Vec<OrderFilledEvent>) -> (r: Option<Vec<ClosedTrade>>)
    ensures
        match trades_of(by_time(fills@)) {
            Some((_, trades)) => r matches Some(v) && v@ == trades,
            None => r is None,
        },
{
    let ordered = sort_by_time(fills);
    let mut open = OpenTrade {
        qty: Decimal::zero(),
        avg_entry: Decimal::zero(),
        open_ts_ms: None,
        fee_pool: Decimal::zero(),
    };
    let mut trades: Vec<ClosedTrade> = Vec::new();
    let mut failed = false;
    let mut i: usize = 0;
    assert(ordered@.subrange(0, 0) =~= Seq::empty());
    assert(trades@ =~= Seq::empty());
    while i < ordered.len()
        invariant
            i <= ordered@.len(),
            failed ==> trades_of(ordered@.subrange(0, i as int)) is None,
            !failed ==> trades_of(ordered@.subrange(0, i as int)) == Some((open, trades@)),
        decreases ordered@.len() - i,
    {
        let fill = &ordered[i];
        assert(ordered@.subrange(0, i + 1).drop_last() =~= ordered@.subrange(0, i as int));
        let ghost before = trades@;
        if !failed {
            let sign = match fill.side {
                OrderSide::Buy => Decimal::one(),
                OrderSide::Sell => Decimal::one().negate(),
            };
            if fill.qty.0.is_positive() {
                let same_side = (open.qty.is_positive() && sign.is_positive()) || (
                open.qty.is_negative() && sign.is_negative());
                if open.qty.is_zero() || same_side {
                    match open_more(
                        &open,
                        sign,
                        fill.price.0,
                        fill.qty.0,
                        fill.fee.amount,
                        fill.ts,
                    ) {
                        Some(o) => {
                            open = o;
                            assert(trades@ =~= before + Seq::empty());
                        },
                        None => {
                            failed = true;
                        },
                    }
                } else {
                    match close_part(
                        &open,
                        sign,
                        fill.price.0,
                        fill.qty.0,
                        fill.fee.amount,
                        fill.ts,
                    ) {
                        Some(c) => {
                            trades.push(c.trade);
                            assert(trades@ =~= before + seq![c.trade]);
                            if c.rest_qty.is_positive() {
                                match open_more(
                                    &c.open,
                                    sign,
                                    fill.price.0,
                                    c.rest_qty,
                                    c.rest_fee,
                                    fill.ts,
                                ) {
                                    Some(o) => {
                                        open = o;
                                    },
                                    None => {
                                        failed = true;
                                    },
                                }
                            } else {
                                open = c.open;
                            }
                        },
                        None => {
                            failed = true;
                        },
                    }
                }
            } else {
                assert(trades@ =~= before + Seq::empty());
            }
        }
        i = i + 1;
    }
    assert(ordered@.subrange(0, ordered@.len() as int) =~= ordered@);
    if failed {
        None
    } else {
        Some(trades)
    }
}

/// The row shows the trade.
pub open spec fn shows_trade(row: BacktestClosedTrade, t: ClosedTrade) -> bool {
    &&& row.entry_ts_ms == t.entry_ts_ms
    &&& row.exit_ts_ms == t.exit_ts_ms
    &&& row.side@ == (if t.long {
        "LONG"@
    } else {
        "SHORT"@
    })
    &&& row.qty@ == decimal::decimal_text(t.qty@)
    &&& row.entry_price@ == decimal::decimal_text(t.entry_price@)
    &&& row.exit_price@ == decimal::decimal_text(t.exit_price@)
    &&& row.gross_pnl@ == decimal::decimal_text(t.gross_pnl@)
    &&& row.fees@ == decimal::decimal_text(t.fees@)
    &&& row.net_pnl@ == decimal::decimal_text(t.net_pnl@)
}

fn trade_row(t: &ClosedTrade) -> (r: BacktestClosedTrade)
    ensures
        shows_trade(r, *t),
{
    BacktestClosedTrade {
        entry_ts_ms: t.entry_ts_ms,
        exit_ts_ms: t.exit_ts_ms,
        side: if t.long {
            "LONG".to_owned()
        } else {
            "SHORT".to_owned()
        },
        qty: t.qty.to_string(),
        entry_price: t.entry_price.to_string(),
        exit_price: t.exit_price.to_string(),
        gross_pnl: t.gross_pnl.to_string(),
        fees: t.fees.to_string(),
        net_pnl: t.net_pnl.to_string(),
    }
}

/// The rows show the trades.
pub open spec fn show_trades(rows: Seq<BacktestClosedTrade>, trades: Seq<ClosedTrade>) -> bool {
    rows.len() == trades.len() && forall|i: int|
        0 <= i < trades.len() ==> shows_trade(#[trigger] rows[i], trades[i])
}

/// The trades that the fills close, for reading, where no step is too large.
pub fn try_build_closed_trades(fills: &Vec<OrderFilledEvent>) -> (r: Option<
    Vec<BacktestClosedTrade>,
>)
    ensures
        match trades_of(by_time(fills@)) {
            Some((_, trades)) => r matches Some(v) && show_trades(v@, trades),
            None => r is None,
        },
{
    match closed_trades_of(fills) {
        Some(trades) => {
            let mut rows: Vec<BacktestClosedTrade> = Vec::new();
            let mut i: usize = 0;
            while i < trades.len()
                invariant
                    i <= trades@.len(),
                    rows@.len() == i,
                    forall|k: int| 0 <= k < i ==> shows_trade(#[trigger] rows@[k], trades@[k]),
                decreases trades@.len() - i,
            {
                rows.push(trade_row(&trades[i]));
                i = i + 1;
            }
            Some(rows)
        },
        None => None,
    }
}

/// The trades that the fills close, for reading.
pub fn build_closed_trades(fills: &Vec<OrderFilledEvent>) -> (r: Vec<BacktestClosedTrade>)
    requires
        trades_of(by_time(fills@)) is Some,
    ensures
        show_trades(r@, (trades_of(by_time(fills@))->0).1),
{
    try_build_closed_trades(fills).unwrap()
}

/// A point of the equity curve.
#[derive(Debug, Clone, Copy)]
pub struct EquityPoint {
    pub ts_ms: i64,
    pub equity: Decimal,
    pub net_pnl: Decimal,
    pub price: Option<Decimal>,
}

/// The worst fall so far.
#[derive(Debug, Clone, Copy)]
pub struct Drawdown {
    /// The highest equity so far.
    pub peak: Option<Decimal>,
    pub worst: Decimal,
    /// The worst fall as a part of the peak it fell from, where that is above zero.
    pub ratio: Option<Decimal>,
}

impl Drawdown {
    /// No fall yet.
    pub open spec fn none() -> Drawdown {
        Drawdown { peak: None, worst: decimal::zero(), ratio: None }
    }

    /// The worst fall after one more point.
    pub open spec fn with(self, equity: Decimal) -> Option<Drawdown> {
        let top = match self.peak {
            Some(p) if decimal::lt(equity, p) => p,
            _ => equity,
        };
        match decimal::minus(Some(top), Some(equity)) {
            Some(fall) => if decimal::lt(self.worst, fall) {
                if top.m() > 0 {
                    match decimal::over(Some(fall), Some(top)) {
                        Some(ratio) => Some(
                            Drawdown { peak: Some(top), worst: fall, ratio: Some(ratio) },
                        ),
                        None => None,
                    }
                } else {
                    Some(Drawdown { peak: Some(top), worst: fall, ratio: None })
                }
            } else {
                Some(Drawdown { peak: Some(top), ..self })
            },
            None => None,
        }
    }
}

/// The worst fall of a curve.
pub open spec fn drawdown_of(curve: Seq<EquityPoint>) -> Option<Drawdown>
    decreases curve.len(),
{
    if curve.len() == 0 {
        Some(Drawdown::none())
    } else {
        match drawdown_of(curve.drop_last()) {
            Some(d) => d.with(curve.last().equity),
            None => None,
        }
    }
}

/// A longer curve never has a smaller worst fall, and its peak is never below the equity.
pub proof fn law_worst_fall_grows(d: Drawdown, equity: Decimal)
    ensures
        d.with(equity) matches Some(next) ==> {
            &&& decimal::le(d.worst, next.worst)
            &&& next.peak matches Some(p) && decimal::le(equity, p)
        },
{
}

/// No difference between two points of the curve needs rounding.
pub open spec fn falls_exactly(curve: Seq<EquityPoint>) -> bool {
    forall|i: int, j: int|
        0 <= i <= j < curve.len() ==> decimal::subtracts_exactly(
            (#[trigger] curve[i]).equity,
            (#[trigger] curve[j]).equity,
        )
}

/// How far the curve falls from one point to another.
pub open spec fn fall_between(curve: Seq<EquityPoint>, i: int, j: int) -> int {
    decimal::units(curve[i].equity) - decimal::units(curve[j].equity)
}

/// The worst fall is the greatest drop over all pairs of a point and a later one: none is
/// greater, and where there is any drop one pair falls just as far. The peak is the highest
/// point. All of this where no difference is rounded.
pub proof fn law_worst_fall_over_pairs(curve: Seq<EquityPoint>)
    requires
        forall|i: int| 0 <= i < curve.len() ==> (#[trigger] curve[i]).equity@.valid(),
        falls_exactly(curve),
        drawdown_of(curve) is Some,
    ensures
        ({
            let d = drawdown_of(curve)->0;
            &&& d.worst@.valid()
            &&& decimal::units(d.worst) >= 0
            &&& forall|i: int, j: int|
                0 <= i <= j < curve.len() ==> #[trigger] fall_between(curve, i, j)
                    <= decimal::units(d.worst)
            &&& decimal::units(d.worst) > 0 ==> exists|i: int, j: int|
                0 <= i <= j < curve.len() && #[trigger] fall_between(curve, i, j)
                    == decimal::units(d.worst)
            &&& curve.len() == 0 ==> d.peak is None
            &&& curve.len() > 0 ==> d.peak is Some && (exists|i: int|
                0 <= i < curve.len() && (#[trigger] curve[i]).equity == d.peak->0)
            &&& forall|i: int|
                0 <= i < curve.len() ==> decimal::units((#[trigger] curve[i]).equity)
                    <= decimal::units(d.peak->0)
        }),
    decreases curve.len(),
{
    broadcast use crate::decimal::lemma_of_view;

    let n = curve.len() as int;
    if n == 0 {
        assert(0 * decimal::pow10(28) == 0);
    } else {
        let rest = curve.drop_last();
        assert forall|i: int| 0 <= i < rest.len() implies (#[trigger] rest[i]).equity@.valid() by {
            assert(rest[i] == curve[i]);
        }
        assert forall|i: int, j: int| 0 <= i <= j < rest.len() implies decimal::subtracts_exactly(
            (#[trigger] rest[i]).equity,
            (#[trigger] rest[j]).equity,
        ) by {
            assert(rest[i] == curve[i] && rest[j] == curve[j]);
        }
        law_worst_fall_over_pairs(rest);
        let before = drawdown_of(rest)->0;
        let d = drawdown_of(curve)->0;
        let last = curve[n - 1].equity;
        let top = d.peak->0;
        // The place of the peak.
        let at = if before.peak is Some && before.peak->0 == top {
            let i = choose|i: int| 0 <= i < rest.len() && (#[trigger] rest[i]).equity == top;
            assert(curve[i] == rest[i]);
            i
        } else {
            n - 1
        };
        assert(0 <= at < n && curve[at].equity == top);
        assert(curve[n - 1] == curve.last());
        decimal::law_exact_difference(curve[at].equity, curve[n - 1].equity);
        let fall = decimal::minus(Some(top), Some(last))->0;
        decimal::law_order_by_units(before.worst, fall);
        if before.peak is Some {
            decimal::law_order_by_units(last, before.peak->0);
            decimal::law_order_by_units(before.peak->0, last);
        }
        assert(fall_between(curve, at, n - 1) == decimal::units(fall));
        assert forall|i: int| 0 <= i < n implies decimal::units((#[trigger] curve[i]).equity)
            <= decimal::units(top) by {
            if i < n - 1 {
                assert(rest[i] == curve[i]);
            }
        }
        assert forall|i: int, j: int| 0 <= i <= j < n implies #[trigger] fall_between(curve, i, j)
            <= decimal::units(d.worst) by {
            if j < n - 1 {
                assert(fall_between(rest, i, j) == fall_between(curve, i, j));
            } else {
                assert(decimal::units(curve[i].equity) <= decimal::units(top));
            }
        }
        if decimal::units(d.worst) > 0 && d.worst == before.worst {
            let (i, j) = choose|i: int, j: int|
                0 <= i <= j < rest.len() && #[trigger] fall_between(rest, i, j) == decimal::units(
                    before.worst,
                );
            assert(fall_between(curve, i, j) == fall_between(rest, i, j));
        }
    }
}

/// The worst fall of a curve, where no step is too large.
pub fn max_drawdown(curve: &Vec<EquityPoint>) -> (r: Option<Drawdown>)
    ensures
        r == drawdown_of(curve@),
{
    let mut d = Drawdown { peak: None, worst: Decimal::zero(), ratio: None };
    let mut failed = false;
    let mut i: usize = 0;
    assert(curve@.subrange(0, 0) =~= Seq::empty());
    while i < curve.len()
        invariant
            i <= curve@.len(),
            failed ==> drawdown_of(curve@.subrange(0, i as int)) is None,
            !failed ==> drawdown_of(curve@.subrange(0, i as int)) == Some(d),
        decreases curve@.len() - i,
    {
        assert(curve@.subrange(0, i + 1).drop_last() =~= curve@.subrange(0, i as int));
        if !failed {
            let equity = curve[i].equity;
            let top = match d.peak {
                Some(p) => if equity.below(p) {
                    p
                } else {
                    equity
                },
                None => equity,
            };
            match top.checked_sub(equity) {
                Some(fall) => {
                    if d.worst.below(fall) {
                        if top.is_positive() {
                            match fall.checked_div(top) {
                                Some(ratio) => {
                                    d = Drawdown {
                                        peak: Some(top),
                                        worst: fall,
                                        ratio: Some(ratio),
                                    };
                                },
                                None => {
                                    failed = true;
                                },
                            }
                        } else {
                            d = Drawdown { peak: Some(top), worst: fall, ratio: None };
                        }
                    } else {
                        d.peak = Some(top);
                    }
                },
                None => {
                    failed = true;
                },
            }
        }
        i = i + 1;
    }
    assert(curve@.subrange(0, curve@.len() as int) =~= curve@);
    if failed {
        None
    } else {
        Some(d)
    }
}

/// How many trades won.
pub open spec fn wins(trades: Seq<ClosedTrade>) -> nat
    decreases trades.len(),
{
    if trades.len() == 0 {
        0
    } else {
        wins(trades.drop_last()) + (if trades.last().net_pnl.m() > 0 {
            1nat
        } else {
            0nat
        })
    }
}

/// How many trades lost.
pub open spec fn losses(trades: Seq<ClosedTrade>) -> nat
    decreases trades.len(),
{
    if trades.len() == 0 {
        0
    } else {
        losses(trades.drop_last()) + (if trades.last().net_pnl.m() < 0 {
            1nat
        } else {
            0nat
        })
    }
}

/// No trade both wins and loses.
pub proof fn law_wins_and_losses(trades: Seq<ClosedTrade>)
    ensures
        wins(trades) + losses(trades) <= trades.len(),
    decreases trades.len(),
{
    if trades.len() > 0 {
        law_wins_and_losses(trades.drop_last());
    }
}

/// A part of the starting balance, where that is above zero.
pub open spec fn part_of(amount: Decimal, balance: Option<Decimal>) -> Option<Option<Decimal>> {
    match balance {
        Some(b) if b.m() > 0 => match decimal::over(Some(amount), Some(b)) {
            Some(q) => Some(Some(q)),
            None => None,
        },
        _ => Some(None),
    }
}

/// How long a curve spans, where its last point is later than its first.
pub open spec fn span_of(curve: Seq<EquityPoint>) -> Option<int> {
    if curve.len() > 0 && curve.last().ts_ms > curve[0].ts_ms {
        Some(curve.last().ts_ms - curve[0].ts_ms)
    } else {
        None
    }
}

/// The figures of a run. A ratio is a part of one.
#[derive(Debug, Clone, Copy)]
pub struct PerformanceFigures {
    /// The profit as a part of the starting balance.
    pub period_return: Option<Decimal>,
    /// How long the equity was followed.
    pub span_ms: Option<u64>,
    pub max_drawdown: Option<Decimal>,
    pub max_drawdown_usdc: Decimal,
    pub closed_trade_count: usize,
    pub winning_trade_count: usize,
    pub losing_trade_count: usize,
    pub fill_count: usize,
    pub total_fees: Decimal,
    pub total_volume: Decimal,
    pub net_pnl: Decimal,
    /// The fees as a part of the starting balance.
    pub fee_drag: Option<Decimal>,
}

/// The figures that a curve, closed trades and totals give.
pub open spec fn figures_of(
    balance: Option<Decimal>,
    curve: Seq<EquityPoint>,
    trades: Seq<ClosedTrade>,
    fill_count: usize,
    total_volume: Decimal,
    total_fees: Decimal,
    net_pnl: Decimal,
) -> Option<PerformanceFigures> {
    match (part_of(net_pnl, balance), drawdown_of(curve), part_of(total_fees, balance)) {
        (Some(period_return), Some(d), Some(fee_drag)) => Some(
            PerformanceFigures {
                period_return,
                span_ms: match span_of(curve) {
                    Some(n) => Some(n as u64),
                    None => None,
                },
                max_drawdown: d.ratio,
                max_drawdown_usdc: d.worst,
                closed_trade_count: trades.len() as usize,
                winning_trade_count: wins(trades) as usize,
                losing_trade_count: losses(trades) as usize,
                fill_count,
                total_fees,
                total_volume,
                net_pnl,
                fee_drag,
            },
        ),
        _ => None,
    }
}

fn part(amount: Decimal, balance: Option<Decimal>) -> (r: Option<Option<Decimal>>)
    ensures
        r == part_of(amount, balance),
{
    match balance {
        Some(b) => if b.is_positive() {
            match amount.checked_div(b) {
                Some(q) => Some(Some(q)),
                None => None,
            }
        } else {
            Some(None)
        },
        None => Some(None),
    }
}

/// The figures that a curve, closed trades and totals give, where no step is too large.
pub fn calculate_metrics(
    balance: Option<Decimal>,
    curve: &Vec<EquityPoint>,
    trades: &Vec<ClosedTrade>,
    fill_count: usize,
    total_volume: Decimal,
    total_fees: Decimal,
    net_pnl: Decimal,
) -> (r: Option<PerformanceFigures>)
    ensures
        r == figures_of(balance, curve@, trades@, fill_count, total_volume, total_fees, net_pnl),
{
    let mut won: usize = 0;
    let mut lost: usize = 0;
    let mut i: usize = 0;
    assert(trades@.subrange(0, 0) =~= Seq::empty());
    while i < trades.len()
        invariant
            i <= trades@.len(),
            won <= i,
            lost <= i,
            won == wins(trades@.subrange(0, i as int)),
            lost == losses(trades@.subrange(0, i as int)),
        decreases trades@.len() - i,
    {
        assert(trades@.subrange(0, i + 1).drop_last() =~= trades@.subrange(0, i as int));
        if trades[i].net_pnl.is_positive() {
            won = won + 1;
        }
        if trades[i].net_pnl.is_negative() {
            lost = lost + 1;
        }
        i = i + 1;
    }
    assert(trades@.subrange(0, trades@.len() as int) =~= trades@);
    let span_ms: Option<u64> = if curve.len() > 0 && curve[curve.len() - 1].ts_ms > curve[0].ts_ms {
        Some((curve[curve.len() - 1].ts_ms as i128 - curve[0].ts_ms as i128) as u64)
    } else {
        None
    };
    match (part(net_pnl, balance), max_drawdown(curve), part(total_fees, balance)) {
        (Some(period_return), Some(d), Some(fee_drag)) => Some(
            PerformanceFigures {
                period_return,
                span_ms,
                max_drawdown: d.ratio,
                max_drawdown_usdc: d.worst,
                closed_trade_count: trades.len(),
                winning_trade_count: won,
                losing_trade_count: lost,
                fill_count,
                total_fees,
                total_volume,
                net_pnl,
                fee_drag,
            },
        ),
        _ => None,
    }
}

/// The fees of several positions.
pub open spec fn fees_of(s: Seq<Position>) -> Option<Decimal>
    decreases s.len(),
{
    if s.len() == 0 {
        Some(decimal::zero())
    } else {
        decimal::plus(fees_of(s.drop_last()), Some(s.last().total_fees))
    }
}

/// What several positions have earned.
pub open spec fn pnl_of(s: Seq<Position>) -> Option<Decimal>
    decreases s.len(),
{
    if s.len() == 0 {
        Some(decimal::zero())
    } else {
        decimal::plus(pnl_of(s.drop_last()), s.last().pnl())
    }
}

/// Follows the equity of a run.
#[derive(Debug)]
pub struct PerformanceTracker {
    pub mode: String,
    pub scope: String,
    pub run_started_at_ms: Option<i64>,
    pub starting_balance_usdc: Option<Decimal>,
    pub instrument: Option<InstrumentId>,
    pub equity_curve: Vec<EquityPoint>,
    pub quote_count: usize,
}

/// The point of the curve at a time: what the account is worth by what it started with and what
/// it earned.
pub open spec fn point_of(
    balance: Decimal,
    ts_ms: i64,
    price: Option<Decimal>,
    net_pnl: Decimal,
) -> Option<EquityPoint> {
    match decimal::plus(Some(balance), Some(net_pnl)) {
        Some(equity) => Some(EquityPoint { ts_ms, equity, net_pnl, price }),
        None => None,
    }
}

/// A run on a real or a paper account.
pub open spec fn live_like(mode: Seq<char>) -> bool {
    mode == "live"@ || mode == "paper"@
}

impl PerformanceTracker {
    /// A tracker of a run that begins.
    pub fn new_at(
        mode: &str,
        starting_balance_usdc: Option<Decimal>,
        instrument: Option<InstrumentId>,
        now: i64,
    ) -> (r: PerformanceTracker)
        ensures
            r.mode@ == mode@,
            r.scope@ == (if live_like(mode@) {
                "current_run"@
            } else {
                "backtest_window"@
            }),
            r.run_started_at_ms == (if live_like(mode@) {
                Some(now)
            } else {
                None
            }),
            r.starting_balance_usdc == starting_balance_usdc,
            r.instrument == instrument,
            r.equity_curve@.len() == 0,
            r.quote_count == 0,
    {
        let live = same_text(mode, "live") || same_text(mode, "paper");
        PerformanceTracker {
            mode: mode.to_owned(),
            scope: if live {
                "current_run".to_owned()
            } else {
                "backtest_window".to_owned()
            },
            run_started_at_ms: if live {
                Some(now)
            } else {
                None
            },
            starting_balance_usdc,
            instrument,
            equity_curve: Vec::new(),
            quote_count: 0,
        }
    }

    /// A tracker of a run that begins now.
    pub fn new(
        mode: &str,
        starting_balance_usdc: Option<Decimal>,
        instrument: Option<InstrumentId>,
    ) -> (r: PerformanceTracker)
        ensures
            r.mode@ == mode@,
            r.scope@ == (if live_like(mode@) {
                "current_run"@
            } else {
                "backtest_window"@
            }),
            r.run_started_at_ms is Some <==> live_like(mode@),
            r.starting_balance_usdc == starting_balance_usdc,
            r.instrument == instrument,
            r.equity_curve@.len() == 0,
            r.quote_count == 0,
    {
        let now: i64 = now_ms();
        PerformanceTracker::new_at(mode, starting_balance_usdc, instrument, now)
    }

    /// Sets the instrument, where none is set.
    pub fn set_instrument(&mut self, instrument: InstrumentId)
        ensures
            *final(self) == (PerformanceTracker {
                instrument: if old(self).instrument is Some {
                    old(self).instrument
                } else {
                    Some(instrument)
                },
                ..*old(self)
            }),
    {
        if self.instrument.is_none() {
            self.instrument = Some(instrument);
        }
    }

    /// Adds a point to the curve; without a starting balance it is only counted. Changes
    /// nothing and says `false` where the equity is too large.
    pub fn try_record_equity_point(&mut self, ts_ms: i64, price: Option<Decimal>, net_pnl: Decimal) -> (r:
        bool)
        requires
            old(self).quote_count < usize::MAX,
        ensures
            final(self).mode == old(self).mode,
            final(self).scope == old(self).scope,
            final(self).run_started_at_ms == old(self).run_started_at_ms,
            final(self).starting_balance_usdc == old(self).starting_balance_usdc,
            final(self).instrument == old(self).instrument,
            match old(self).starting_balance_usdc {
                None => {
                    &&& r
                    &&& final(self).quote_count == old(self).quote_count + 1
                    &&& final(self).equity_curve@ == old(self).equity_curve@
                },
                Some(balance) => match point_of(balance, ts_ms, price, net_pnl) {
                    Some(point) => {
                        &&& r
                        &&& final(self).quote_count == old(self).quote_count + 1
                        &&& final(self).equity_curve@ == old(self).equity_curve@.push(point)
                    },
                    None => {
                        &&& !r
                        &&& final(self).quote_count == old(self).quote_count
                        &&& final(self).equity_curve@ == old(self).equity_curve@
                    },
                },
            },
    {
        match self.starting_balance_usdc {
            None => {
                self.quote_count = self.quote_count + 1;
                true
            },
            Some(balance) => match balance.checked_add(net_pnl) {
                Some(equity) => {
                    self.quote_count = self.quote_count + 1;
                    self.equity_curve.push(EquityPoint { ts_ms, equity, net_pnl, price });
                    true
                },
                None => false,
            },
        }
    }

    /// Adds a point to the curve; without a starting balance it is only counted.
    pub fn record_equity_point(&mut self, ts_ms: i64, price: Option<Decimal>, net_pnl: Decimal)
        requires
            old(self).quote_count < usize::MAX,
            old(self).starting_balance_usdc matches Some(b) ==> decimal::plus(
                Some(b),
                Some(net_pnl),
            ) is Some,
        ensures
            final(self).mode == old(self).mode,
            final(self).scope == old(self).scope,
            final(self).run_started_at_ms == old(self).run_started_at_ms,
            final(self).starting_balance_usdc == old(self).starting_balance_usdc,
            final(self).instrument == old(self).instrument,
            final(self).quote_count == old(self).quote_count + 1,
            final(self).equity_curve@ == (match old(self).starting_balance_usdc {
                None => old(self).equity_curve@,
                Some(b) => old(self).equity_curve@.push(point_of(b, ts_ms, price, net_pnl)->0),
            }),
    {
        let _done = self.try_record_equity_point(ts_ms, price, net_pnl);
    }

    /// The figures of the run, where no step is too large.
    pub fn try_metrics(&self, fills: &Vec<OrderFilledEvent>, positions: &Vec<Position>) -> (r: Option<
        PerformanceFigures,
    >)
        ensures
            r == (match (
                trades_of(by_time(fills@)),
                backtest::volume_of(fills@),
                fees_of(positions@),
                pnl_of(positions@),
            ) {
                (Some((_, trades)), Some(volume), Some(fees), Some(pnl)) => figures_of(
                    self.starting_balance_usdc,
                    self.equity_curve@,
                    trades,
                    fills@.len() as usize,
                    volume,
                    fees,
                    pnl,
                ),
                _ => None,
            }),
    {
        let mut fees: Option<Decimal> = Some(Decimal::zero());
        let mut pnl: Option<Decimal> = Some(Decimal::zero());
        let mut i: usize = 0;
        assert(positions@.subrange(0, 0) =~= Seq::empty());
        while i < positions.len()
            invariant
                i <= positions@.len(),
                fees == fees_of(positions@.subrange(0, i as int)),
                pnl == pnl_of(positions@.subrange(0, i as int)),
            decreases positions@.len() - i,
        {
            assert(positions@.subrange(0, i + 1).drop_last() =~= positions@.subrange(0, i as int));
            fees = sum(fees, Some(positions[i].total_fees));
            pnl = sum(pnl, positions[i].try_current_pnl());
            i = i + 1;
        }
        assert(positions@.subrange(0, positions@.len() as int) =~= positions@);
        match (closed_trades_of(fills), total_volume(fills), fees, pnl) {
            (Some(trades), Some(volume), Some(fees), Some(pnl)) => calculate_metrics(
                self.starting_balance_usdc,
                &self.equity_curve,
                &trades,
                fills.len(),
                volume,
                fees,
                pnl,
            ),
            _ => None,
        }
    }

    /// The curve, for reading.
    pub fn equity_curve(&self) -> (r: Vec<BacktestEquityPoint>)
        ensures
            r@.len() == self.equity_curve@.len(),
            forall|i: int|
                0 <= i < r@.len() ==> shows_point(#[trigger] r@[i], self.equity_curve@[i]),
    {
        let mut rows: Vec<BacktestEquityPoint> = Vec::new();
        let mut i: usize = 0;
        while i < self.equity_curve.len()
            invariant
                i <= self.equity_curve@.len(),
                rows@.len() == i,
                forall|k: int|
                    0 <= k < i ==> shows_point(#[trigger] rows@[k], self.equity_curve@[k]),
            decreases self.equity_curve@.len() - i,
        {
            rows.push(point_row(&self.equity_curve[i]));
            i = i + 1;
        }
        rows
    }

    /// The last point of the curve, for reading.
    pub fn latest_equity(&self) -> (r: Option<BacktestEquityPoint>)
        ensures
            match r {
                Some(row) => self.equity_curve@.len() > 0 && shows_point(
                    row,
                    self.equity_curve@.last(),
                ),
                None => self.equity_curve@.len() == 0,
            },
    {
        if self.equity_curve.len() > 0 {
            Some(point_row(&self.equity_curve[self.equity_curve.len() - 1]))
        } else {
            None
        }
    }

    /// The trades that the fills close, for reading, where no step is too large.
    pub fn closed_trades(&self, fills: &Vec<OrderFilledEvent>) -> (r: Option<
        Vec<BacktestClosedTrade>,
    >)
        ensures
            match trades_of(by_time(fills@)) {
                Some((_, trades)) => r matches Some(v) && show_trades(v@, trades),
                None => r is None,
            },
    {
        try_build_closed_trades(fills)
    }

    /// The bench frames the run: its times, its balances and its instrument.
    pub open spec fn frames(&self, bench: PerformanceBenchmark, net_pnl: Decimal) -> bool {
        let curve = self.equity_curve@;
        &&& bench.quote_count == self.quote_count
        &&& if curve.len() > 0 {
            &&& bench.start_ts_ms == Some(curve[0].ts_ms)
            &&& bench.end_ts_ms == Some(curve.last().ts_ms)
            &&& bench.duration_ms == (if curve.last().ts_ms >= curve[0].ts_ms {
                Some((curve.last().ts_ms - curve[0].ts_ms) as i64)
            } else {
                None
            })
        } else {
            bench.start_ts_ms is None && bench.end_ts_ms is None && bench.duration_ms is None
        }
        &&& backtest::shows_number(bench.starting_balance_usdc, self.starting_balance_usdc)
        &&& backtest::shows_number(
            bench.ending_balance_usdc,
            match self.starting_balance_usdc {
                Some(b) => decimal::plus(Some(b), Some(net_pnl)),
                None => None,
            },
        )
        &&& match (bench.instrument, self.instrument) {
            (Some(s), Some(i)) => s@ == i@,
            (None, None) => true,
            _ => false,
        }
    }

    /// The time that the curve spans fits in a number of milliseconds.
    pub open spec fn span_fits(&self) -> bool {
        self.equity_curve@.len() > 0 ==> self.equity_curve@.last().ts_ms - self.equity_curve@[0].ts_ms
            <= i64::MAX
    }

    /// What the run is measured against, where the balance at its end is not too large.
    pub fn benchmark(&self, net_pnl: Decimal) -> (r: Option<PerformanceBenchmark>)
        requires
            self.span_fits(),
        ensures
            match self.starting_balance_usdc {
                Some(b) if decimal::plus(Some(b), Some(net_pnl)) is None => r is None,
                _ => r matches Some(bench) && self.frames(bench, net_pnl),
            },
    {
        let ending = match self.starting_balance_usdc {
            Some(b) => match b.checked_add(net_pnl) {
                Some(e) => Some(e),
                None => {
                    return None;
                },
            },
            None => None,
        };
        let n: usize = self.equity_curve.len();
        let (start_ts_ms, end_ts_ms, duration_ms): (Option<i64>, Option<i64>, Option<i64>) = if n
            > 0 {
            let first: i64 = self.equity_curve[0].ts_ms;
            let last: i64 = self.equity_curve[n - 1].ts_ms;
            (
                Some(first),
                Some(last),
                if last >= first {
                    Some((last as i128 - first as i128) as i64)
                } else {
                    None
                },
            )
        } else {
            (None, None, None)
        };
        Some(
            PerformanceBenchmark {
                start_ts_ms,
                end_ts_ms,
                duration_ms,
                quote_count: self.quote_count,
                starting_balance_usdc: optional_text(self.starting_balance_usdc),
                ending_balance_usdc: optional_text(ending),
                instrument: match &self.instrument {
                    Some(i) => Some(i.0.clone()),
                    None => None,
                },
            },
        )
    }
}

/// The row shows the point.
pub open spec fn shows_point(row: BacktestEquityPoint, p: EquityPoint) -> bool {
    &&& row.ts_ms == p.ts_ms
    &&& row.equity@ == decimal::decimal_text(p.equity@)
    &&& row.net_pnl@ == decimal::decimal_text(p.net_pnl@)
    &&& backtest::shows_number(row.price, p.price)
}

fn optional_text(x: Option<Decimal>) -> (r: Option<String>)
    ensures
        backtest::shows_number(r, x),
{
    match x {
        Some(d) => Some(d.to_string()),
        None => None,
    }
}

fn point_row(p: &EquityPoint) -> (r: BacktestEquityPoint)
    ensures
        shows_point(r, *p),
{
    BacktestEquityPoint {
        ts_ms: p.ts_ms,
        equity: p.equity.to_string(),
        net_pnl: p.net_pnl.to_string(),
        price: optional_text(p.price),
    }
}

} // verus!
