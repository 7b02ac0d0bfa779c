use supurr::account_syncer::{AccountSyncer, AccountSyncerConfig};
use supurr::decimal::Decimal;
use supurr::exchange::Fill;
use supurr::mock_syncer::{MockAccountSyncer, MockTradeSyncer};
use supurr::sync::{seconds, Attempt, SyncError};
use supurr::trade_syncer::{fill_to_trade, TradeSyncer, TradeSyncerConfig};
use supurr::types::{
    now_ms, AccountState, AssetId, ClientOrderId, ExchangeOrderId, Fee, InstrumentId, OrderSide,
    PositionSnapshot, Price, Qty, TradeId,
};

fn make_test_fill(trade_id: &str, instrument: &str) -> Fill {
    make_test_fill_with_ts(trade_id, instrument, now_ms() + 1000)
}

fn make_test_fill_with_ts(trade_id: &str, instrument: &str, ts: i64) -> Fill {
    Fill {
        trade_id: TradeId::new(trade_id),
        client_id: None,
        exchange_order_id: None,
        instrument: InstrumentId::new(instrument),
        side: OrderSide::Buy,
        price: Price::new(Decimal::new(100, 0)),
        qty: Qty::new(Decimal::new(1, 0)),
        fee: Fee::new(Decimal::new(1, 2), AssetId::new("USDC")),
        ts,
    }
}

fn trade_config() -> TradeSyncerConfig {
    TradeSyncerConfig {
        bot_id: "test-bot".to_string(),
        upstream_url: "http://test.com".to_string(),
        ..Default::default()
    }
}

#[test]
fn account_syncer_test_config_validation() {
    let config = AccountSyncerConfig {
        bot_id: String::new(),
        upstream_url: "http://test.com".to_string(),
        ..Default::default()
    };
    assert!(AccountSyncer::new(config).is_err());

    let config = AccountSyncerConfig {
        bot_id: "test-bot".to_string(),
        upstream_url: String::new(),
        ..Default::default()
    };
    assert!(AccountSyncer::new(config).is_err());

    let config = AccountSyncerConfig {
        bot_id: "test-bot".to_string(),
        upstream_url: "http://test.com".to_string(),
        ..Default::default()
    };
    assert!(AccountSyncer::new(config).is_ok());
}

#[test]
fn trade_syncer_test_config_validation() {
    let config = TradeSyncerConfig {
        bot_id: String::new(),
        upstream_url: "http://test.com".to_string(),
        ..Default::default()
    };
    assert!(TradeSyncer::new(config).is_err());

    let config = TradeSyncerConfig {
        bot_id: "test-bot".to_string(),
        upstream_url: String::new(),
        ..Default::default()
    };
    assert!(TradeSyncer::new(config).is_err());

    let config = TradeSyncerConfig {
        bot_id: "test-bot".to_string(),
        upstream_url: "http://test.com".to_string(),
        ..Default::default()
    };
    assert!(TradeSyncer::new(config).is_ok());
}

#[test]
fn test_add_fill_deduplication() {
    let mut syncer = TradeSyncer::new(trade_config()).unwrap();

    let fill = make_test_fill("trade-1", "BTC-PERP");
    syncer.add_fill(fill.clone());
    syncer.add_fill(fill);

    // Both wait: the trade was not reported yet
    assert_eq!(syncer.pending_count(), 2);

    // The report goes through: the trade is known, and nothing waits
    syncer.sync_succeeded(now_ms());

    let fill = make_test_fill("trade-1", "BTC-PERP");
    syncer.add_fill(fill);
    assert_eq!(syncer.pending_count(), 0);
}

#[test]
fn test_start_timestamp_filter() {
    let mut syncer = TradeSyncer::new(trade_config()).unwrap();

    let old_fill =
        make_test_fill_with_ts("trade-old", "BTC-PERP", syncer.start_timestamp() - 1000);
    syncer.add_fill(old_fill);
    assert_eq!(
        syncer.pending_count(),
        0,
        "Historical fill should be filtered"
    );

    let new_fill =
        make_test_fill_with_ts("trade-new", "BTC-PERP", syncer.start_timestamp() + 1000);
    syncer.add_fill(new_fill);
    assert_eq!(syncer.pending_count(), 1, "New fill should be accepted");
}

#[test]
fn test_instrument_filter() {
    let config = TradeSyncerConfig {
        bot_id: "test-bot".to_string(),
        upstream_url: "http://test.com".to_string(),
        instruments: vec![InstrumentId::new("BTC-PERP")],
        ..Default::default()
    };
    let mut syncer = TradeSyncer::new(config).unwrap();

    syncer.add_fill(make_test_fill("trade-1", "BTC-PERP"));
    assert_eq!(syncer.pending_count(), 1);

    syncer.add_fill(make_test_fill("trade-2", "ETH-PERP"));
    assert_eq!(syncer.pending_count(), 1);
}

#[test]
fn test_multi_instrument_filter() {
    let config = TradeSyncerConfig {
        bot_id: "test-bot".to_string(),
        upstream_url: "http://test.com".to_string(),
        instruments: vec![
            InstrumentId::new("UBTC-SPOT"),
            InstrumentId::new("BTC-PERP"),
        ],
        ..Default::default()
    };
    let mut syncer = TradeSyncer::new(config).unwrap();

    syncer.add_fill(make_test_fill("trade-1", "UBTC-SPOT"));
    syncer.add_fill(make_test_fill("trade-2", "BTC-PERP"));
    assert_eq!(syncer.pending_count(), 2);

    syncer.add_fill(make_test_fill("trade-3", "ETH-PERP"));
    assert_eq!(syncer.pending_count(), 2);
}

#[test]
fn test_fill_to_trade_conversion() {
    let fill = Fill {
        trade_id: TradeId::new("trade-123"),
        client_id: Some(ClientOrderId::new("client-456")),
        exchange_order_id: Some(ExchangeOrderId::new("exchange-789")),
        instrument: InstrumentId::new("BTC-PERP"),
        side: OrderSide::Sell,
        price: Price::new(Decimal::new(50000, 0)),
        qty: Qty::new(Decimal::new(5, 1)),
        fee: Fee::new(Decimal::new(25, 2), AssetId::new("USDC")),
        ts: 1700000000000,
    };

    let trade = fill_to_trade(&fill).unwrap();

    assert_eq!(trade.trade_id, "trade-123");
    assert_eq!(trade.client_order_id, "client-456");
    assert_eq!(trade.venue_order_id, "exchange-789");
    assert_eq!(trade.instrument_id, "BTC-PERP");
    assert_eq!(trade.side, "SELL");
    assert_eq!(trade.price, "50000");
    assert_eq!(trade.qty, "0.5");
    assert!(
        trade.quote_notional.starts_with("25000"),
        "Expected quote_notional to start with 25000, got: {}",
        trade.quote_notional
    );
    assert_eq!(trade.fee, "0.25");
    assert_eq!(trade.fee_currency, "USDC");
    assert_eq!(trade.ts_event, 1700000000000);
}

#[test]
fn a_report_holds_what_waits_and_was_not_reported() {
    let mut syncer = TradeSyncer::new_at(
        TradeSyncerConfig {
            upstream_url: "http://test.com//".to_string(),
            ..trade_config()
        },
        0,
    )
    .unwrap();
    assert_eq!(syncer.url(), "http://test.com/sync/test-bot");
    syncer.add_fill(make_test_fill_with_ts("a", "BTC-PERP", 5));
    syncer.add_fill(make_test_fill_with_ts("b", "BTC-PERP", 6));
    let request = syncer
        .request(Some(Decimal::new(15, 1)), true, "done", 12_999)
        .unwrap();
    assert_eq!(request.trades.len(), 2);
    assert_eq!(request.trades[1].trade_id, "b");
    assert_eq!(request.trades[0].liquidity, "UNKNOWN");
    assert_eq!(request.trades[0].order_type, "LIMIT");
    assert_eq!(request.trades[0].client_order_id, "");
    assert_eq!(request.ts, 12);
    assert_eq!(request.current_price.as_deref(), Some("1.5"));
    assert!(request.stop_bot);
    assert_eq!(request.stop_reason, "done");
    assert!(syncer.should_sync(10_000));
    assert!(!syncer.should_sync(9_999));
    syncer.sync_succeeded(10_000);
    assert!(!syncer.should_sync(19_999));
    assert!(syncer.should_sync(20_000));
    assert_eq!(syncer.request(None, false, "", 0).unwrap().trades.len(), 0);
}

#[test]
fn a_notional_that_is_too_large_gives_no_report() {
    let mut syncer = TradeSyncer::new_at(trade_config(), 0).unwrap();
    let mut fill = make_test_fill_with_ts("a", "BTC-PERP", 5);
    fill.price = Price::new(Decimal::parse("79228162514264337593543950335").unwrap());
    fill.qty = Qty::new(Decimal::new(2, 0));
    assert!(fill_to_trade(&fill).is_none());
    syncer.add_fill(fill);
    assert!(syncer.request(None, false, "", 0).is_none());
}

#[test]
fn attempts_double_their_wait_and_end() {
    assert!(Attempt::first(0, 1000).is_none());
    let first = Attempt::first(3, 1000).unwrap();
    assert_eq!((first.number, first.delay_ms), (1, 1000));
    let second = first.next(3).unwrap();
    assert_eq!((second.number, second.delay_ms), (2, 2000));
    let third = second.next(3).unwrap();
    assert_eq!((third.number, third.delay_ms), (3, 4000));
    assert!(third.next(3).is_none());
    assert_eq!(
        Attempt { number: 1, delay_ms: u64::MAX }.next(2).unwrap().delay_ms,
        u64::MAX
    );
}

#[test]
fn sync_errors_have_messages() {
    assert_eq!(
        SyncError::from_request(true, true, "x").to_string(),
        "Network error: Request timeout"
    );
    assert_eq!(
        SyncError::from_request(false, true, "x").to_string(),
        "Network error: Connection failed: x"
    );
    assert_eq!(
        SyncError::from_request(false, false, "x").to_string(),
        "HTTP request failed: x"
    );
    let api = SyncError::Api { status: 503, body: "down".to_string() };
    assert_eq!(api.to_string(), "API error: status=503, body=down");
    assert_eq!(SyncError::Parse("x".to_string()).to_string(), "Parse error: x");
    assert_eq!(
        SyncError::Config("x".to_string()).to_string(),
        "Configuration error: x"
    );
    assert_eq!(SyncError::MaxRetries.to_string(), "Max retries exceeded");
}

#[test]
fn seconds_are_cut_off() {
    assert_eq!(seconds(1_999), 1);
    assert_eq!(seconds(-1_999), -1);
    assert_eq!(seconds(0), 0);
}

#[test]
fn test_account_syncer_recording() {
    let mut syncer = MockAccountSyncer::new();

    let account_state = AccountState {
        positions: vec![PositionSnapshot {
            instrument: InstrumentId::new("ETH-PERP"),
            qty: Decimal::new(-1, 1),
            avg_entry_px: Some(Price::new(Decimal::new(3000, 0))),
            unrealized_pnl: Some(Decimal::new(10, 0)),
            liquidation_px: None,
        }],
        account_value: Some(Decimal::new(50000, 0)),
        unrealized_pnl: Some(Decimal::new(10, 0)),
    };

    syncer.sync(&account_state, false, "", 0).unwrap();

    let calls = &syncer.sync_calls;
    assert_eq!(calls.len(), 1);
    assert_eq!(calls[0].stop_bot, false);
    assert_eq!(calls[0].positions.len(), 1);
    assert_eq!(calls[0].positions[0].qty, "-0.1");
    assert_eq!(calls[0].positions[0].entry_px, "3000");
}

#[test]
fn test_shutdown_sync() {
    let mut syncer = MockAccountSyncer::new();

    let account_state = AccountState {
        positions: vec![],
        account_value: Some(Decimal::new(50000, 0)),
        unrealized_pnl: Some(Decimal::zero()),
    };

    syncer
        .shutdown_sync(&account_state, "shutdown:external", 0)
        .unwrap();

    assert!(syncer.shutdown_sync_sent());

    let shutdown = syncer.last_sync().unwrap();
    assert_eq!(shutdown.stop_bot, true);
    assert_eq!(shutdown.stop_reason, "shutdown:external");
    assert_eq!(syncer.shutdown_syncs().len(), 1);
    assert_eq!(syncer.periodic_sync_count(), 0);
}

#[test]
fn test_syncer_failure_mode() {
    let mut syncer = MockAccountSyncer::new();
    syncer.set_should_fail(true);

    let account_state = AccountState {
        positions: vec![],
        account_value: None,
        unrealized_pnl: None,
    };

    let result = syncer.sync(&account_state, false, "", 0);
    assert!(result.is_err());

    assert_eq!(syncer.sync_calls.len(), 0);
}

#[test]
fn trade_reports_are_counted() {
    let mut syncer = MockTradeSyncer::new();
    syncer.set_simulated_pnl(Decimal::new(7, 0));
    let pnl = syncer
        .sync(vec![make_test_fill("a", "X"), make_test_fill("b", "X")], None, false, "", 5)
        .unwrap();
    assert_eq!(pnl, Decimal::new(7, 0));
    syncer.sync(vec![make_test_fill("c", "X")], None, true, "end", 6).unwrap();
    assert_eq!(syncer.total_fills_synced(), Some(3));
    syncer.set_should_fail(true);
    assert!(syncer.sync(vec![], None, true, "end", 6).is_err());
    assert_eq!(syncer.sync_calls.len(), 2);
}

#[test]
fn account_reports_fill_in_zeros() {
    let syncer = AccountSyncer::new(AccountSyncerConfig {
        bot_id: "test-bot".to_string(),
        upstream_url: "http://test.com/".to_string(),
        ..Default::default()
    })
    .unwrap();
    assert_eq!(
        syncer.url(),
        "http://test.com/sync-clearingHouseState/test-bot"
    );
    let state = AccountState {
        positions: vec![PositionSnapshot {
            instrument: InstrumentId::new("ETH-PERP"),
            qty: Decimal::new(2, 0),
            avg_entry_px: None,
            unrealized_pnl: None,
            liquidation_px: None,
        }],
        account_value: None,
        unrealized_pnl: Some(Decimal::new(-125, 2)),
    };
    let request = syncer.request(&state, false, "", 5_500);
    assert_eq!(request.account_value, "0");
    assert_eq!(request.unrealized_pnl, "-1.25");
    assert_eq!(request.positions[0].entry_px, "0");
    assert_eq!(request.positions[0].unrealized_pnl, "0");
    assert_eq!(request.ts, 5);
}

#[test]
fn fresh_syncers_have_recorded_nothing_and_do_not_fail() {
    let account = MockAccountSyncer::default();
    assert!(account.sync_calls.is_empty());
    assert!(!account.should_fail);
    assert_eq!(account.simulated_pnl, Decimal::zero());
    assert_eq!(account.network_delay_ms, 0);
    let trade = MockTradeSyncer::default();
    assert!(trade.sync_calls.is_empty());
    assert!(!trade.should_fail);
    assert_eq!(trade.simulated_pnl, Decimal::zero());
}

#[test]
fn a_failed_last_report_is_not_recorded() {
    let mut syncer = MockAccountSyncer::default();
    let account = AccountState {
        positions: vec![],
        account_value: None,
        unrealized_pnl: None,
    };
    syncer.set_should_fail(true);
    assert!(matches!(
        syncer.shutdown_sync(&account, "end", 3),
        Err(SyncError::Network(s)) if s == "Mock network failure"
    ));
    assert!(syncer.sync_calls.is_empty());
    syncer.set_should_fail(false);
    assert_eq!(syncer.shutdown_sync(&account, "end", 4_999).unwrap(), Decimal::zero());
    assert_eq!(syncer.sync_calls.len(), 1);
    assert!(syncer.sync_calls[0].stop_bot);
    assert_eq!(syncer.sync_calls[0].stop_reason, "end");
    assert_eq!(syncer.sync_calls[0].ts, 4);
}
