//! What a run came to.
use vstd::prelude::*;
use vstd::string::*;
use crate::decimal;
use crate::context::Strategy;
use crate::decimal::{Decimal, sum, product};
use crate::events::OrderFilledEvent;
use crate::runner::EngineRunner;
use crate::types::{InstrumentId, OrderSide, Position};

verus! {

/// A fill, for reading.
#[derive(Debug)]
pub struct BacktestFill {
    pub ts_ms: i64,
    pub price: String,
    pub qty: String,
    pub side: String,
    /// The asset of the fee.
    pub fee: String,
}

/// What a run came to, for reading.
#[derive(Debug)]
pub struct BacktestResult {
    pub fills: Vec<BacktestFill>,
    pub trade_count: usize,
    pub final_position_qty: String,
    pub avg_entry_price: Option<String>,
    pub realized_pnl: String,
    pub unrealized_pnl: Option<String>,
    pub total_fees: String,
    pub total_volume: String,
    pub net_pnl: String,
    pub exit_reason: Option<String>,
}

/// What was traded in all, in quote currency.
pub open spec fn volume_of(fills: Seq<OrderFilledEvent>) -> Option<Decimal>
    decreases fills.len(),
{
    if fills.len() == 0 {
        Some(decimal::zero())
    } else {
        decimal::plus(
            volume_of(fills.drop_last()),
            decimal::times(Some(fills.last().qty.0), Some(fills.last().price.0)),
        )
    }
}

/// The name of a side.
pub open spec fn side_name(side: OrderSide) -> Seq<char> {
    match side {
        OrderSide::Buy => "Buy"@,
        OrderSide::Sell => "Sell"@,
    }
}

/// The row shows the fill.
pub open spec fn shows(row: BacktestFill, fill: OrderFilledEvent) -> bool {
    &&& row.ts_ms == fill.ts
    &&& row.price@ == decimal::decimal_text(fill.price.0@)
    &&& row.qty@ == decimal::decimal_text(fill.qty.0@)
    &&& row.side@ == side_name(fill.side)
    &&& row.fee@ == fill.fee.asset@
}

/// The text shows the number, where there is one.
pub open spec fn shows_number(text: Option<String>, number: Option<Decimal>) -> bool {
    match (text, number) {
        (Some(s), Some(d)) => s@ == decimal::decimal_text(d@),
        (None, None) => true,
        _ => false,
    }
}

/// The result shows the position, the fills and the totals.
pub open spec fn is_result(
    r: BacktestResult,
    p: Position,
    fills: Seq<OrderFilledEvent>,
    volume: Decimal,
    net: Decimal,
    reason: Option<Seq<char>>,
) -> bool {
    &&& r.fills@.len() == fills.len()
    &&& forall|i: int| 0 <= i < fills.len() ==> shows(#[trigger] r.fills@[i], fills[i])
    &&& r.trade_count == fills.len()
    &&& r.final_position_qty@ == decimal::decimal_text(p.qty@)
    &&& shows_number(
        r.avg_entry_price,
        match p.avg_entry_px {
            Some(px) => Some(px.0),
            None => None,
        },
    )
    &&& r.realized_pnl@ == decimal::decimal_text(p.realized_pnl@)
    &&& shows_number(r.unrealized_pnl, p.unrealized_pnl)
    &&& r.total_fees@ == decimal::decimal_text(p.total_fees@)
    &&& r.total_volume@ == decimal::decimal_text(volume@)
    &&& r.net_pnl@ == decimal::decimal_text(net@)
    &&& match (r.exit_reason, reason) {
        (Some(a), Some(b)) => a@ == b,
        (None, None) => true,
        _ => false,
    }
}

/// What was traded in all, where no step is too large.
pub fn total_volume(fills: &Vec<OrderFilledEvent>) -> (r: Option<Decimal>)
    ensures
        r == volume_of(fills@),
{
    let mut total: Option<Decimal> = Some(Decimal::zero());
    let mut i: usize = 0;
    assert(fills@.subrange(0, 0) =~= Seq::empty());
    while i < fills.len()
        invariant
            i <= fills@.len(),
            total == volume_of(fills@.subrange(0, i as int)),
        decreases fills@.len() - i,
    {
        assert(fills@.subrange(0, i + 1).drop_last() =~= fills@.subrange(0, i as int));
        total = sum(total, product(Some(fills[i].qty.0), Some(fills[i].price.0)));
        i = i + 1;
    }
    assert(fills@.subrange(0, fills@.len() as int) =~= fills@);
    total
}

fn fill_row(fill: &OrderFilledEvent) -> (r: BacktestFill)
    ensures
        shows(r, *fill),
{
    BacktestFill {
        ts_ms: fill.ts,
        price: fill.price.0.to_string(),
        qty: fill.qty.0.to_string(),
        side: match fill.side {
            OrderSide::Buy => "Buy".to_owned(),
            OrderSide::Sell => "Sell".to_owned(),
        },
        fee: fill.fee.asset.0.clone(),
    }
}

fn number_text(x: Option<Decimal>) -> (r: Option<String>)
    ensures
        shows_number(r, x),
{
    match x {
        Some(d) => Some(d.to_string()),
        None => None,
    }
}

impl<S: Strategy> EngineRunner<S> {
    /// What the run came to for an instrument, where no step is too large.
    pub fn try_get_backtest_results(&self, instrument: &InstrumentId) -> (r: Option<BacktestResult>)
        ensures
            match (self@.engine.state.marked(*instrument), volume_of(self@.engine.fills)) {
                (Some(p), Some(volume)) => match p.pnl() {
                    Some(net) => r matches Some(result) && is_result(
                        result,
                        p,
                        self@.engine.fills,
                        volume,
                        net,
                        self@.shutdown_reason,
                    ),
                    None => r is None,
                },
                _ => r is None,
            },
    {
        let position = match self.engine().try_position(instrument) {
            Some(p) => p,
            None => {
                return None;
            },
        };
        let fills = self.engine().get_fills();
        let volume = match total_volume(fills) {
            Some(v) => v,
            None => {
                return None;
            },
        };
        let net = match position.try_current_pnl() {
            Some(n) => n,
            None => {
                return None;
            },
        };
        let mut rows: Vec<BacktestFill> = Vec::new();
        let mut i: usize = 0;
        while i < fills.len()
            invariant
                i <= fills@.len(),
                rows@.len() == i,
                forall|k: int| 0 <= k < i ==> shows(#[trigger] rows@[k], fills@[k]),
            decreases fills@.len() - i,
        {
            rows.push(fill_row(&fills[i]));
            i = i + 1;
        }
        Some(
            BacktestResult {
                trade_count: rows.len(),
                fills: rows,
                final_position_qty: position.qty.to_string(),
                avg_entry_price: match position.avg_entry_px {
                    Some(px) => Some(px.0.to_string()),
                    None => None,
                },
                realized_pnl: position.realized_pnl.to_string(),
                unrealized_pnl: number_text(position.unrealized_pnl),
                total_fees: position.total_fees.to_string(),
                total_volume: volume.to_string(),
                net_pnl: net.to_string(),
                exit_reason: match self.shutdown_reason() {
                    Some(s) => Some(s.to_owned()),
                    None => None,
                },
            },
        )
    }

    /// What the run came to for an instrument.
    pub fn get_backtest_results(&self, instrument: &InstrumentId) -> (r: BacktestResult)
        requires
            self@.engine.state.marked(*instrument) is Some,
            volume_of(self@.engine.fills) is Some,
            self@.engine.state.marked(*instrument)->0.pnl() is Some,
        ensures
            is_result(
                r,
                self@.engine.state.marked(*instrument)->0,
                self@.engine.fills,
                volume_of(self@.engine.fills)->0,
                self@.engine.state.marked(*instrument)->0.pnl()->0,
                self@.shutdown_reason,
            ),
    {
        self.try_get_backtest_results(instrument).unwrap()
    }
}

} // verus!
