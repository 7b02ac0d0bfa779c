use supurr::config::{BotConfig, GridConfigJson, SimulationConfig, SyncConfigJson};
use supurr::decimal::Decimal;
use supurr::market::{HyperliquidMarket, Market};
use supurr::startup::{
    account_syncer_config, hyperliquid_config, init_error_report, leverage_market, live_leverage,
    outcome_backtest_price_for_instrument, outcome_encoding_from_instrument, parse_args,
    quote_from_backtest_price, quotes_from_multi_backtest_prices,
    quotes_from_single_backtest_prices, seeded_backtest_balances, seeded_sim_balances,
    simulation_numbers, trade_syncer_config, BacktestPricePoint, TradingMode,
};
use supurr::strmap::StrMap;
use supurr::types::{
    AssetId, Environment, InstrumentId, InstrumentKind, InstrumentMeta, MarketIndex, SyncMechanism,
};
use supurr::wasm_api::{backtest_funds, initial_balances, quotes_of_points, JsPricePoint};

fn args(list: &[&str]) -> Vec<String> {
    let mut v = vec!["bot".to_string()];
    v.extend(list.iter().map(|s| s.to_string()));
    v
}

fn perp(base: &str, index: u32) -> Market {
    Market::Hyperliquid(HyperliquidMarket::Perp {
        base: base.to_string(),
        quote: "USDC".to_string(),
        index,
        instrument_meta: None,
    })
}

fn outcome(side: u8) -> Market {
    Market::Hyperliquid(HyperliquidMarket::Outcome {
        name: "BTC > 69070".to_string(),
        outcome_id: 516,
        side,
        instrument_meta: None,
    })
}

fn config(strategy_type: &str, markets: Vec<Market>) -> BotConfig {
    BotConfig {
        environment: "testnet".to_string(),
        private_key: "key".to_string(),
        address: "0xaddr".to_string(),
        vault_address: None,
        strategy_type: strategy_type.to_string(),
        markets,
        poll_delay_ms: 500,
        grid: None,
        mm: None,
        dca: None,
        arbitrage: None,
        builder_fee: None,
        sync: None,
        simulation: None,
        extra: StrMap::new(),
    }
}

fn meta(instrument: &str, base: &str, quote: &str, kind: InstrumentKind) -> InstrumentMeta {
    InstrumentMeta {
        instrument_id: InstrumentId::new(instrument),
        market_index: MarketIndex::new(0),
        base_asset: AssetId::new(base),
        quote_asset: AssetId::new(quote),
        tick_size: Decimal::new(1, 2),
        lot_size: Decimal::new(1, 0),
        min_qty: None,
        min_notional: None,
        fee_asset_default: None,
        kind,
    }
}

fn grid(mode: &str) -> GridConfigJson {
    GridConfigJson {
        mode: mode.to_string(),
        levels: 10,
        start_price: "50".to_string(),
        end_price: "40".to_string(),
        max_investment_quote: "1000".to_string(),
        leverage: "3.7".to_string(),
        max_leverage: "40".to_string(),
        post_only: false,
        stop_loss: None,
        take_profit: None,
        trailing_up_limit: None,
        trailing_down_limit: None,
    }
}

fn point(ts: i64, price: &str) -> BacktestPricePoint {
    BacktestPricePoint {
        ts,
        price: price.to_string(),
    }
}

#[test]
fn arguments_are_read_in_order() {
    let a = parse_args(&args(&["-c", "x.json", "--dry-run", "--mode", "PAPER", "what"]));
    assert_eq!(a.config_path.as_deref(), Some("x.json"));
    assert!(a.dry_run && !a.help);
    assert!(matches!(a.mode(), TradingMode::Paper));
    let a = parse_args(&args(&["--mode", "paper", "-p", "p.json"]));
    assert!(matches!(a.mode(), TradingMode::Backtest { prices_path } if prices_path == "p.json"));
    let a = parse_args(&args(&["-m", "paper", "-m", "else"]));
    assert!(matches!(a.mode(), TradingMode::Paper));
    let a = parse_args(&args(&["-m", "paper", "-m", "live"]));
    assert!(matches!(a.mode(), TradingMode::Live));
    let a = parse_args(&args(&["-h", "-d"]));
    assert!(a.help && !a.dry_run);
    let a = parse_args(&args(&["-d", "--config"]));
    assert!(a.dry_run && a.config_path.is_none());
    assert!(matches!(parse_args(&vec![]).mode(), TradingMode::Live));
    assert!(matches!(TradingMode::default(), TradingMode::Live));
}

#[test]
fn modes_set_the_pace() {
    let backtest = TradingMode::Backtest {
        prices_path: "p".to_string(),
    };
    assert_eq!(backtest.poll_delay(500), 0);
    assert_eq!(TradingMode::Live.poll_delay(500), 500);
    assert_eq!(TradingMode::Paper.metrics_mode(), "paper");
    assert_eq!(backtest.metrics_mode(), "backtest");
    assert!(TradingMode::Live.registers_user(SyncMechanism::Poll));
    assert!(!TradingMode::Live.registers_user(SyncMechanism::Snapshot));
    assert!(!TradingMode::Paper.registers_user(SyncMechanism::Poll));
}

#[test]
fn simulations_start_with_cash_and_stock() {
    let metas = vec![
        meta("HYPE-SPOT", "HYPE", "USDE", InstrumentKind::Spot),
        meta("BTC-PERP", "BTC", "USDC", InstrumentKind::Perp),
    ];
    let cash = seeded_sim_balances(&metas, Decimal::new(7, 0));
    assert_eq!(cash.len(), 3);
    assert_eq!(cash.get("USDE"), Some(&Decimal::new(7, 0)));
    let mut c = config("grid", vec![perp("BTC", 0)]);
    c.grid = Some(grid("SHORT"));
    let stock = seeded_backtest_balances(&c, &metas, Decimal::new(7, 0)).unwrap();
    assert_eq!(stock.get("HYPE"), Some(&Decimal::new(25, 0)));
    assert!(stock.get("BTC").is_none());
    c.grid = Some(grid("long"));
    let none = seeded_backtest_balances(&c, &metas, Decimal::new(7, 0)).unwrap();
    assert!(none.get("HYPE").is_none());
    let mut g = grid("neutral");
    g.end_price = "0.0000000000000000000000000001".to_string();
    g.max_investment_quote = "79228162514264337593543950335".to_string();
    c.grid = Some(g);
    assert!(seeded_backtest_balances(&c, &metas, Decimal::new(7, 0)).is_none());
}

#[test]
fn numbers_of_a_simulation_have_defaults() {
    let (start, fee) = simulation_numbers(&"x".to_string(), &"0.1".to_string());
    assert_eq!(start, Decimal::new(10_000, 0));
    assert_eq!(fee, Decimal::new(1, 1));
    let (_, fee) = simulation_numbers(&"5".to_string(), &"".to_string());
    assert_eq!(fee, Decimal::new(25, 5));
}

#[test]
fn prices_become_quotes() {
    let btc = InstrumentId::new("BTC-PERP");
    let m = meta("BTC-PERP", "BTC", "USDC", InstrumentKind::Perp);
    let q = quote_from_backtest_price(&btc, &m, Some(Decimal::new(100, 0)), 5).unwrap();
    assert_eq!(q.bid.0, Decimal::new(995, 1));
    assert_eq!(q.ask.0, Decimal::new(1005, 1));
    assert_eq!(q.bid_size.0, Decimal::new(1000, 0));
    assert_eq!(q.ts, 5);
    let yes = InstrumentId::new("#5160-OUTCOME");
    let m = meta("#5160-OUTCOME", "x", "USDC", InstrumentKind::Outcome);
    let q = quote_from_backtest_price(&yes, &m, Some(Decimal::one()), 5).unwrap();
    assert_eq!(q.bid.0, Decimal::new(995, 3));
    assert_eq!(q.ask.0, Decimal::one());
    let huge = Decimal::parse("79228162514264337593543950335").unwrap();
    let p = meta("BTC-PERP", "BTC", "USDC", InstrumentKind::Perp);
    assert!(quote_from_backtest_price(&btc, &p, Some(huge), 5).is_none() == huge
        .checked_add(Decimal::new(5, 1))
        .is_none());
}

#[test]
fn outcomes_are_told_by_their_number() {
    let n = |s: &str| outcome_encoding_from_instrument(&InstrumentId::new(s));
    assert_eq!(n("#5160-OUTCOME"), Some(5160));
    assert_eq!(n("5160-OUTCOME"), None);
    assert_eq!(n("#5160"), None);
    assert_eq!(n("#-OUTCOME"), None);
    assert_eq!(n("#99999999999-OUTCOME"), None);
}

#[test]
fn the_other_side_is_what_is_left_to_one() {
    let c = config("orchestrator", vec![outcome(0)]);
    let price = |s: &str, p: Decimal| {
        outcome_backtest_price_for_instrument(&c, &InstrumentId::new(s), p)
    };
    let p = Decimal::new(3, 1);
    assert_eq!(price("#5160-OUTCOME", p), Some(Some(p)));
    assert_eq!(price("#5161-OUTCOME", p), Some(Some(Decimal::new(7, 1))));
    assert_eq!(price("#5161-OUTCOME", Decimal::new(2, 0)), Some(Some(Decimal::zero())));
    assert_eq!(price("#5171-OUTCOME", p), None);
    assert_eq!(price("BTC-PERP", p), None);
}

#[test]
fn one_stream_of_prices_may_stand_for_both_sides() {
    let metas = vec![
        meta("#5160-OUTCOME", "yes", "USDC", InstrumentKind::Outcome),
        meta("#5161-OUTCOME", "no", "USDC", InstrumentKind::Outcome),
        meta("BTC-PERP", "BTC", "USDC", InstrumentKind::Perp),
    ];
    let points = vec![point(1, "0.3"), point(2, "?"), point(3, "0.4")];
    let c = config("Orchestrator", vec![outcome(0)]);
    let quotes = quotes_from_single_backtest_prices(&c, &metas, &metas[0], &points).unwrap();
    assert_eq!(quotes.len(), 4);
    assert_eq!(quotes[1].instrument.as_str(), "#5161-OUTCOME");
    assert_eq!(quotes[1].bid.0, Decimal::new(695, 3));
    assert_eq!(quotes[3].ts, 3);
    let c = config("grid", vec![outcome(0)]);
    let quotes = quotes_from_single_backtest_prices(&c, &metas, &metas[0], &points).unwrap();
    assert_eq!(quotes.len(), 2);
    assert_eq!(quotes[1].instrument.as_str(), "#5160-OUTCOME");
}

#[test]
fn several_streams_are_replayed_in_time() {
    let metas = vec![
        meta("BTC-PERP", "BTC", "USDC", InstrumentKind::Perp),
        meta("ETH-PERP", "ETH", "USDC", InstrumentKind::Perp),
    ];
    let rows = vec![
        ("BTC-PERP".to_string(), vec![point(3, "100"), point(1, "101")]),
        ("DOGE-PERP".to_string(), vec![point(0, "1")]),
        ("ETH-PERP".to_string(), vec![point(1, "10"), point(2, "11")]),
    ];
    let quotes = quotes_from_multi_backtest_prices(&metas, &rows).unwrap();
    let seen: Vec<(i64, &str)> = quotes.iter().map(|q| (q.ts, q.instrument.as_str())).collect();
    assert_eq!(
        seen,
        vec![(1, "BTC-PERP"), (1, "ETH-PERP"), (2, "ETH-PERP"), (3, "BTC-PERP")]
    );
}

#[test]
fn the_client_is_set_up_by_the_first_market() {
    let c = config("grid", vec![perp("BTC", 0)]);
    let h = hyperliquid_config(&c, Environment::Mainnet);
    assert_eq!(h.private_key, "key");
    assert_eq!(h.main_address.as_deref(), Some("0xaddr"));
    assert_eq!(h.timeout_secs, 10);
    assert!(!h.is_spot && !h.is_outcome && h.hip3.is_none());
    let c = config("grid", vec![outcome(1)]);
    let h = hyperliquid_config(&c, Environment::Testnet);
    assert!(h.is_outcome);
    assert_eq!(h.outcome.unwrap().side, 1);
}

#[test]
fn leverage_is_set_live_and_on_margin() {
    let spot = Market::Hyperliquid(HyperliquidMarket::Spot {
        base: "UBTC".to_string(),
        quote: "USDC".to_string(),
        index: 10142,
        instrument_meta: None,
    });
    let mut c = config("arb", vec![spot, perp("BTC", 3)]);
    c.grid = Some(grid("long"));
    assert_eq!(live_leverage(&c, &TradingMode::Live), Some(3));
    assert_eq!(live_leverage(&c, &TradingMode::Paper), None);
    assert_eq!(leverage_market(&c), MarketIndex::new(3));
    c.strategy_type = "grid".to_string();
    assert_eq!(live_leverage(&c, &TradingMode::Live), None);
    assert_eq!(leverage_market(&c), MarketIndex::new(10142));
}

#[test]
fn reports_are_set_up_where_they_are_switched_on() {
    let mut c = config("grid", vec![perp("BTC", 0)]);
    assert!(trade_syncer_config(&c, vec![]).is_none());
    assert!(init_error_report(&c, "x", 0).is_none());
    c.sync = Some(SyncConfigJson {
        bot_id: "b".to_string(),
        upstream_url: "http://u/".to_string(),
        sync_interval_ms: 77,
        timeout_secs: 3,
        sync_secret: None,
        enabled: true,
    });
    let t = trade_syncer_config(&c, vec![InstrumentId::new("BTC-PERP")]).unwrap();
    assert_eq!((t.sync_interval_ms, t.timeout_secs, t.max_retries), (77, 3, 3));
    assert_eq!(t.instruments.len(), 1);
    assert!(account_syncer_config(&c, SyncMechanism::Poll).is_none());
    let a = account_syncer_config(&c, SyncMechanism::Snapshot).unwrap();
    assert_eq!(a.sync_interval_ms, 10_000);
    let (url, request) = init_error_report(&c, "init_failed:x", 5_999).unwrap();
    assert_eq!(url, "http://u/sync/b");
    assert!(request.stop_bot && request.trades.is_empty());
    assert_eq!(request.ts, 5);
    assert_eq!(request.stop_reason, "init_failed:x");
    c.sync.as_mut().unwrap().enabled = false;
    assert!(trade_syncer_config(&c, vec![]).is_none());
    assert!(init_error_report(&c, "x", 0).is_none());
}

#[test]
fn figures_are_measured_against_the_capital() {
    let start = "5000".to_string();
    let capital = Some(Decimal::new(7, 0));
    assert_eq!(TradingMode::Paper.metrics_balance(capital, &start), capital);
    assert_eq!(TradingMode::Live.metrics_balance(None, &start), None);
    assert_eq!(
        TradingMode::Paper.metrics_balance(None, &start),
        Some(Decimal::new(5000, 0))
    );
    assert_eq!(TradingMode::Paper.metrics_balance(None, &"x".to_string()), None);
}

#[test]
fn the_account_of_a_page_covers_the_capital() {
    let mut c = config("grid", vec![perp("BTC", 0)]);
    c.grid = Some(grid("long"));
    let funds = backtest_funds(&c).unwrap();
    assert_eq!(funds.capital, Decimal::new(1000, 0));
    assert_eq!(funds.balance, Decimal::new(10_000, 0));
    assert_eq!(funds.fee_rate, Decimal::new(25, 5));
    c.simulation = Some(SimulationConfig {
        starting_balance_usdc: "250".to_string(),
        fee_rate: "0.1".to_string(),
    });
    let funds = backtest_funds(&c).unwrap();
    assert_eq!(funds.balance, Decimal::new(1000, 0));
    assert_eq!(funds.fee_rate, Decimal::new(1, 1));
    c.grid = None;
    let funds = backtest_funds(&c).unwrap();
    assert_eq!(funds.capital, Decimal::new(250, 0));
    let balances = initial_balances(funds.balance);
    assert_eq!(balances.len(), 1);
    assert_eq!(balances.get("USDC"), Some(&Decimal::new(250, 0)));
}

#[test]
fn points_of_a_page_are_quoted_a_whole_apart() {
    let instrument = InstrumentId::new("BTC-PERP");
    let point = |ts_ms: i64, price: &str| JsPricePoint {
        ts_ms,
        price: price.to_string(),
    };
    let quotes =
        quotes_of_points(&instrument, &vec![point(5, "100"), point(6, "no"), point(4, "7.25")])
            .unwrap();
    assert_eq!(quotes.len(), 2);
    assert_eq!(quotes[0].bid.0, Decimal::new(995, 1));
    assert_eq!(quotes[0].ask.0, Decimal::new(1005, 1));
    assert_eq!(quotes[0].ts, 5);
    assert_eq!(quotes[1].bid.0, Decimal::new(675, 2));
    assert_eq!(quotes[1].ts, 4);
    let huge = "79228162514264337593543950335";
    assert!(quotes_of_points(&instrument, &vec![point(1, huge)]).is_none());
}

#[test]
fn numbers_of_assets_are_checked() {
    assert!(perp("BTC", u32::MAX).asset_fits());
    assert!(outcome(1).asset_fits());
    let far = |dex_index: u32| {
        Market::Hyperliquid(HyperliquidMarket::Hip3 {
            base: "AAPL".to_string(),
            quote: "USDC".to_string(),
            dex: "xyz".to_string(),
            dex_index,
            asset_index: 0,
            instrument_meta: None,
        })
    };
    assert!(far(0).asset_fits());
    assert!(!far(u32::MAX).asset_fits());
}

#[test]
fn a_large_outcome_has_a_name_that_reads_back() {
    let market = HyperliquidMarket::Outcome {
        name: "yes".to_string(),
        outcome_id: 429_496_729,
        side: 0,
        instrument_meta: None,
    };
    let id = market.instrument_id();
    assert_eq!(id, InstrumentId::new("#4294967290-OUTCOME"));
    assert_eq!(outcome_encoding_from_instrument(&id), Some(4_294_967_290));
    assert_eq!(outcome_encoding_from_instrument(&perp("BTC", 0).instrument_id()), None);
    assert!(!market.asset_fits());
}
