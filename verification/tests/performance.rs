use supurr::decimal::Decimal;
use supurr::events::OrderFilledEvent;
use supurr::performance::{
    build_closed_trades, calculate_metrics, max_drawdown, EquityPoint, PerformanceTracker,
};
use supurr::types::{
    AssetId, ClientOrderId, ExchangeId, Fee, InstrumentId, OrderSide, Price, Qty, TradeId,
};

const YEAR_MS: i64 = 31_536_000_000;

fn dec(s: &str) -> Decimal {
    Decimal::parse(s).unwrap()
}

fn point(ts_ms: i64, equity: i64) -> EquityPoint {
    EquityPoint {
        ts_ms,
        equity: Decimal::new(equity, 0),
        net_pnl: Decimal::new(equity - 1000, 0),
        price: None,
    }
}

fn pct(ratio: Option<Decimal>) -> Option<f64> {
    ratio.map(|r| r.to_string().parse::<f64>().unwrap() * 100.0)
}

fn assert_close(actual: Option<f64>, expected: f64) {
    let actual = actual.expect("metric should be present");
    assert!(
        (actual - expected).abs() < 1e-9,
        "expected {expected}, got {actual}"
    );
}

fn assert_decimal_str(actual: &str, expected: &str) {
    assert_eq!(dec(actual), dec(expected));
}

fn fill(id: &str, side: OrderSide, price: &str, qty: &str, fee: &str, ts: i64) -> OrderFilledEvent {
    OrderFilledEvent {
        exchange: ExchangeId::new("hyperliquid"),
        trade_id: TradeId::new(id),
        client_id: ClientOrderId::new(&format!("client-{}", id)),
        instrument: InstrumentId::new("BTC-PERP"),
        side,
        price: Price::new(dec(price)),
        qty: Qty::new(dec(qty)),
        net_qty: Qty::new(dec(qty)),
        fee: Fee::new(dec(fee), AssetId::new("USDC")),
        ts,
    }
}

#[test]
fn closed_trades_include_allocated_open_and_close_fees() {
    let fills = vec![
        fill("1", OrderSide::Buy, "100", "1", "0.10", 1),
        fill("2", OrderSide::Sell, "110", "1", "0.10", 2),
    ];

    let closed = build_closed_trades(&fills);

    assert_eq!(closed.len(), 1);
    assert_eq!(closed[0].gross_pnl, "10");
    assert_eq!(closed[0].fees, "0.20");
    assert_eq!(closed[0].net_pnl, "9.80");
}

#[test]
fn closed_trades_handle_partial_close_and_reversal() {
    let fills = vec![
        fill("1", OrderSide::Buy, "100", "2", "0.20", 1),
        fill("2", OrderSide::Sell, "110", "3", "0.30", 2),
        fill("3", OrderSide::Buy, "90", "1", "0.10", 3),
    ];

    let closed = build_closed_trades(&fills);

    assert_eq!(closed.len(), 2);
    assert_eq!(closed[0].side, "LONG");
    assert_decimal_str(&closed[0].qty, "2");
    assert_decimal_str(&closed[0].gross_pnl, "20");
    assert_decimal_str(&closed[0].fees, "0.40");
    assert_decimal_str(&closed[0].net_pnl, "19.60");
    assert_eq!(closed[1].side, "SHORT");
    assert_decimal_str(&closed[1].qty, "1");
    assert_decimal_str(&closed[1].gross_pnl, "20");
    assert_decimal_str(&closed[1].fees, "0.20");
    assert_decimal_str(&closed[1].net_pnl, "19.80");
}

#[test]
fn closed_trades_follow_the_time_and_not_the_order() {
    let fills = vec![
        fill("2", OrderSide::Sell, "110", "1", "0", 2),
        fill("1", OrderSide::Buy, "100", "1", "0", 1),
    ];
    let closed = build_closed_trades(&fills);
    assert_eq!(closed.len(), 1);
    assert_eq!(closed[0].side, "LONG");
    assert_eq!(closed[0].entry_ts_ms, 1);
    assert_eq!(closed[0].exit_ts_ms, 2);
    assert_decimal_str(&closed[0].net_pnl, "10");
}

#[test]
fn metrics_match_known_apr_drawdown_fee_and_volume_values() {
    let equity_curve = vec![
        point(0, 1000),
        point(YEAR_MS / 4, 900),
        point(YEAR_MS / 2, 1100),
    ];

    let metrics = calculate_metrics(
        Some(Decimal::new(1000, 0)),
        &equity_curve,
        &vec![],
        2,
        Decimal::new(2500, 0),
        Decimal::new(5, 0),
        Decimal::new(100, 0),
    )
    .unwrap();

    assert_close(pct(metrics.period_return), 10.0);
    let span = metrics.span_ms.unwrap() as f64;
    let apr = pct(metrics.period_return).map(|r| r * YEAR_MS as f64 / span);
    assert_close(apr, 20.0);
    assert_eq!(metrics.max_drawdown_usdc.to_string(), "100");
    assert_close(pct(metrics.max_drawdown), 10.0);
    assert_eq!(metrics.total_volume.to_string(), "2500");
    assert_eq!(metrics.total_fees.to_string(), "5");
    assert_eq!(metrics.net_pnl.to_string(), "100");
    assert_close(pct(metrics.fee_drag), 0.5);
}

#[test]
fn metrics_return_nulls_when_data_is_insufficient() {
    let tracker = PerformanceTracker::new(
        "backtest",
        Some(Decimal::new(1000, 0)),
        Some(InstrumentId::new("BTC")),
    );
    let metrics = tracker.try_metrics(&vec![], &vec![]).unwrap();

    assert_eq!(pct(metrics.period_return), Some(0.0));
    assert_eq!(metrics.span_ms, None);
    assert_eq!(metrics.closed_trade_count, 0);
}

#[test]
fn drawdown_and_win_rate_are_computed_from_curve_and_closed_trades() {
    let mut tracker = PerformanceTracker::new(
        "backtest",
        Some(Decimal::new(1000, 0)),
        Some(InstrumentId::new("BTC")),
    );
    tracker.record_equity_point(1, Some(Decimal::new(100, 0)), Decimal::new(0, 0));
    tracker.record_equity_point(2, Some(Decimal::new(95, 0)), Decimal::new(-100, 0));
    tracker.record_equity_point(3, Some(Decimal::new(110, 0)), Decimal::new(100, 0));

    let fills = vec![
        fill("1", OrderSide::Buy, "100", "1", "0", 1),
        fill("2", OrderSide::Sell, "110", "1", "0", 2),
    ];
    let metrics = tracker.try_metrics(&fills, &vec![]).unwrap();

    assert_eq!(metrics.closed_trade_count, 1);
    assert_eq!(metrics.winning_trade_count, 1);
    assert_eq!(metrics.losing_trade_count, 0);
    assert_eq!(metrics.max_drawdown_usdc.to_string(), "100");
    assert_eq!(pct(metrics.max_drawdown), Some(10.0));
    assert_eq!(metrics.span_ms, Some(2));
}

#[test]
fn a_deeper_fall_makes_the_drawdown_worse() {
    let short = vec![point(0, 1000), point(1, 900)];
    let long = vec![point(0, 1000), point(1, 900), point(2, 1200), point(3, 600)];
    let a = max_drawdown(&short).unwrap();
    let b = max_drawdown(&long).unwrap();
    assert_eq!(a.worst, Decimal::new(100, 0));
    assert_eq!(b.worst, Decimal::new(600, 0));
    assert_eq!(b.ratio, Some(Decimal::new(5, 1)));
}

#[test]
fn numbers_that_are_too_large_give_nothing() {
    let huge = "79228162514264337593543950335";
    let fills = vec![
        fill("1", OrderSide::Buy, huge, "1", "0", 1),
        fill("2", OrderSide::Sell, "1", "10", "0", 2),
        fill("3", OrderSide::Buy, huge, "10", "0", 3),
    ];
    assert!(supurr::performance::try_build_closed_trades(&fills).is_none());
}

#[test]
fn closed_trades_conserve_result_and_fees() {
    let mut fills = vec![
        fill("1", OrderSide::Buy, "100", "2", "0.20", 1),
        fill("2", OrderSide::Sell, "110", "3", "0.30", 2),
        fill("3", OrderSide::Sell, "120", "1", "0.10", 3),
        fill("4", OrderSide::Buy, "90", "2", "0.20", 4),
    ];
    let sum = |texts: Vec<String>| {
        texts
            .iter()
            .fold(Decimal::zero(), |total, t| total.checked_add(dec(t)).unwrap())
    };
    let closed = build_closed_trades(&fills);
    // 3 * 110 + 1 * 120 - 2 * 100 - 2 * 90
    assert_eq!(sum(closed.iter().map(|t| t.gross_pnl.clone()).collect()), dec("70"));
    assert_eq!(sum(closed.iter().map(|t| t.fees.clone()).collect()), dec("0.80"));
    assert_eq!(sum(closed.iter().map(|t| t.net_pnl.clone()).collect()), dec("69.20"));
    for pair in closed.windows(2) {
        assert!(pair[0].exit_ts_ms <= pair[1].exit_ts_ms);
    }
    fills.reverse();
    let again = build_closed_trades(&fills);
    assert_eq!(again.len(), closed.len());
    for (a, b) in again.iter().zip(&closed) {
        assert_eq!((&a.gross_pnl, &a.fees, a.exit_ts_ms), (&b.gross_pnl, &b.fees, b.exit_ts_ms));
    }
}

#[test]
fn the_worst_fall_is_the_greatest_drop_between_two_points() {
    let heights = [1000, 1200, 900, 1500, 1100, 1300];
    let curve: Vec<EquityPoint> =
        heights.iter().enumerate().map(|(i, h)| point(i as i64, *h)).collect();
    let mut worst = 0;
    for i in 0..heights.len() {
        for j in i..heights.len() {
            worst = worst.max(heights[i] - heights[j]);
        }
    }
    let d = max_drawdown(&curve).unwrap();
    assert_eq!(d.worst, Decimal::new(worst, 0));
    assert_eq!(d.worst, Decimal::new(400, 0));
    assert_eq!(d.peak, Some(Decimal::new(1500, 0)));
}
