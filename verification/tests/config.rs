use supurr::config::{
    build_instrument_metas, build_strategy, ArbitrageConfigJson, BotConfig, DCAConfigJson,
    GridConfigJson, GridMode, StrategyKind, StrategyPlan,
};
use supurr::decimal::Decimal;
use supurr::market::{HyperliquidMarket, InstrumentMetaConfig, Market};
use supurr::strmap::StrMap;
use supurr::types::{Environment, InstrumentKind};

fn btc_perp_market() -> Market {
    Market::Hyperliquid(HyperliquidMarket::Perp {
        base: "BTC".to_string(),
        quote: "USDC".to_string(),
        index: 0,
        instrument_meta: None,
    })
}

fn base_config(strategy_type: &str) -> BotConfig {
    BotConfig {
        environment: "mainnet".to_string(),
        private_key: String::new(),
        address: String::new(),
        vault_address: None,
        strategy_type: strategy_type.to_string(),
        markets: vec![btc_perp_market()],
        poll_delay_ms: 500,
        grid: None,
        mm: None,
        dca: None,
        arbitrage: None,
        builder_fee: None,
        sync: None,
        simulation: None,
        extra: StrMap::new(),
    }
}

fn grid() -> GridConfigJson {
    GridConfigJson {
        mode: "long".to_string(),
        levels: 10,
        start_price: "77000".to_string(),
        end_price: "78000".to_string(),
        max_investment_quote: "123.45".to_string(),
        leverage: "20".to_string(),
        max_leverage: "40".to_string(),
        post_only: false,
        stop_loss: None,
        take_profit: None,
        trailing_up_limit: None,
        trailing_down_limit: None,
    }
}

#[test]
fn grid_allocated_capital_uses_max_investment_quote() {
    let mut config = base_config("grid");
    config.grid = Some(grid());

    assert_eq!(
        config.strategy_allocated_capital_usdc(),
        Some(Decimal::new(12345, 2))
    );
}

#[test]
fn arbitrage_allocated_capital_uses_order_amount() {
    let mut config = base_config("arb");
    config.arbitrage = Some(ArbitrageConfigJson {
        order_amount: "50".to_string(),
        perp_leverage: "5".to_string(),
        min_opening_spread_pct: "0.2".to_string(),
        min_closing_spread_pct: "0.05".to_string(),
        spot_slippage_buffer_pct: "0.1".to_string(),
        perp_slippage_buffer_pct: "0.1".to_string(),
    });

    assert_eq!(
        config.strategy_allocated_capital_usdc(),
        Some(Decimal::new(50, 0))
    );
}

#[test]
fn dca_allocated_capital_uses_full_ladder_not_wallet_balance() {
    let mut config = base_config("dca");
    config.dca = Some(DCAConfigJson {
        direction: "long".to_string(),
        trigger_price: "100".to_string(),
        base_order_size: "1".to_string(),
        dca_order_size: "1".to_string(),
        max_dca_orders: 2,
        size_multiplier: "2".to_string(),
        price_deviation_pct: "10".to_string(),
        deviation_multiplier: "1".to_string(),
        take_profit_pct: "2".to_string(),
        stop_loss: None,
        leverage: "1".to_string(),
        max_leverage: "10".to_string(),
        restart_on_complete: false,
        cooldown_period_secs: 60,
    });

    assert_eq!(
        config.strategy_allocated_capital_usdc(),
        Some(Decimal::new(352, 0))
    );
}

#[test]
fn names_are_read_without_case() {
    let mut config = base_config("GRID");
    config.environment = "MainNet".to_string();
    assert_eq!(config.parse_environment(), Environment::Mainnet);
    assert!(matches!(config.strategy(), StrategyKind::Grid));
    config.environment = "somewhere".to_string();
    assert_eq!(config.parse_environment(), Environment::Testnet);
    let mut json = grid();
    json.mode = "NEUTRAL".to_string();
    config.grid = Some(json);
    match build_strategy(&config) {
        Ok(StrategyPlan::Grid(g)) => assert!(matches!(g.grid_mode, GridMode::Neutral)),
        _ => panic!("a grid was configured"),
    }
}

#[test]
fn plans_need_their_section_and_its_numbers() {
    let config = base_config("grid");
    assert!(build_strategy(&config).is_err());

    let mut config = base_config("grid");
    let mut json = grid();
    json.start_price = "many".to_string();
    config.grid = Some(json);
    assert!(build_strategy(&config).is_err());

    let config = base_config("surprise");
    assert!(build_strategy(&config).is_err());
}

#[test]
fn instruments_take_the_steps_of_their_market() {
    let mut config = base_config("grid");
    config.markets = vec![
        Market::Hyperliquid(HyperliquidMarket::Perp {
            base: "BTC".to_string(),
            quote: "USDC".to_string(),
            index: 0,
            instrument_meta: Some(InstrumentMetaConfig {
                tick_size: Decimal::new(5, 1),
                lot_size: Decimal::new(1, 3),
                min_qty: None,
                min_notional: Some(Decimal::new(10, 0)),
            }),
        }),
        Market::Hyperliquid(HyperliquidMarket::Outcome {
            name: "BTC > 69070".to_string(),
            outcome_id: 516,
            side: 1,
            instrument_meta: None,
        }),
    ];
    let metas = build_instrument_metas(&config);
    assert_eq!(metas.len(), 2);
    assert_eq!(metas[0].instrument_id.as_str(), "BTC-PERP");
    assert_eq!(metas[0].tick_size, Decimal::new(5, 1));
    assert_eq!(metas[0].lot_size, Decimal::new(1, 3));
    assert_eq!(metas[0].min_notional, Some(Decimal::new(10, 0)));
    assert_eq!(metas[1].instrument_id.as_str(), "#5161-OUTCOME");
    assert_eq!(metas[1].kind, InstrumentKind::Outcome);
}

#[test]
fn credentials_fall_back_to_the_file() {
    let mut config = base_config("grid");
    config.private_key = "abc".to_string();
    assert!(config.needs_credentials_file());
    let (key, address) = config.resolve_credentials("file-key".to_string(), "file-addr".to_string());
    assert_eq!(key, "abc");
    assert_eq!(address, "file-addr");
}

#[test]
fn leverage_comes_from_the_first_section() {
    let mut config = base_config("grid");
    assert!(config.strategy_leverage().is_none());
    config.grid = Some(grid());
    assert_eq!(
        config.strategy_leverage(),
        Some((Decimal::new(20, 0), Decimal::new(40, 0)))
    );
}

#[test]
fn an_empty_list_of_markets_is_answered_where_none_is_needed() {
    let empty = |strategy_type: &str| {
        let mut config = base_config(strategy_type);
        config.markets.clear();
        config
    };
    let refused = |config: &BotConfig| match build_strategy(config) {
        Err(e) => e,
        Ok(_) => panic!("nothing can be built"),
    };
    assert!(refused(&empty("arb")).starts_with("Arbitrage requires 2 markets"));
    assert!(refused(&empty("grid")).starts_with("Grid config missing"));
    assert!(refused(&empty("nonsense")).starts_with("Unknown strategy type: 'nonsense'"));
    let mut config = empty("grid");
    config.grid = Some(grid());
    assert_eq!(
        config.strategy_allocated_capital_usdc(),
        Some(Decimal::parse("123.45").unwrap())
    );
}
