use supurr::market::{HyperliquidMarket, Market};
use supurr::types::{InstrumentKind, MarketIndex};

#[test]
fn test_perp_market_instrument_id() {
    let market = HyperliquidMarket::Perp {
        base: "BTC".to_string(),
        quote: "USDC".to_string(),
        index: 0,
        instrument_meta: None,
    };
    assert_eq!(market.instrument_id().as_str(), "BTC-PERP");
    assert_eq!(market.market_index().value(), 0);
    assert!(!market.is_spot());
    assert!(!market.is_outcome());
    assert_eq!(market.effective_asset_id(), 0);
}

#[test]
fn test_spot_market_instrument_id() {
    let market = HyperliquidMarket::Spot {
        base: "HYPE".to_string(),
        quote: "USDC".to_string(),
        index: 10107,
        instrument_meta: None,
    };
    assert_eq!(market.instrument_id().as_str(), "HYPE-SPOT");
    assert_eq!(market.market_index().value(), 10107);
    assert!(market.is_spot());
    assert!(!market.is_outcome());
    assert_eq!(market.spot_coin(), Some("HYPE".to_string()));
    assert_eq!(market.spot_market_index(), Some(10107));
}

#[test]
fn test_hip3_market_instrument_id() {
    let market = HyperliquidMarket::Hip3 {
        base: "BTC".to_string(),
        quote: "USDE".to_string(),
        dex: "hyna".to_string(),
        dex_index: 4,
        asset_index: 1,
        instrument_meta: None,
    };
    assert_eq!(market.instrument_id().as_str(), "hyna:BTC-PERP");
    assert_eq!(market.effective_asset_id(), 140001);
    assert!(!market.is_spot());
    assert!(!market.is_outcome());
    assert!(market.uses_alternate_collateral());
    assert_eq!(market.dex_name(), Some("hyna"));
}

#[test]
fn test_hip3_asset_id_calculation() {
    let market = HyperliquidMarket::Hip3 {
        base: "TEST".to_string(),
        quote: "USDC".to_string(),
        dex: "test".to_string(),
        dex_index: 1,
        asset_index: 0,
        instrument_meta: None,
    };
    assert_eq!(market.effective_asset_id(), 110000);

    let market2 = HyperliquidMarket::Hip3 {
        base: "TEST".to_string(),
        quote: "USDC".to_string(),
        dex: "test".to_string(),
        dex_index: 4,
        asset_index: 1,
        instrument_meta: None,
    };
    assert_eq!(market2.effective_asset_id(), 140001);
}

#[test]
fn collateral_is_compared_without_case() {
    let hip3 = |quote: &str| HyperliquidMarket::Hip3 {
        base: "TEST".to_string(),
        quote: quote.to_string(),
        dex: "test".to_string(),
        dex_index: 1,
        asset_index: 0,
        instrument_meta: None,
    };
    assert!(!hip3("usdc").uses_alternate_collateral());
    assert!(!hip3("USDC").uses_alternate_collateral());
    assert!(hip3("usdh").uses_alternate_collateral());
}

#[test]
fn test_outcome_encoding() {
    assert_eq!(HyperliquidMarket::outcome_encoding(516, 0), 5160);
    assert_eq!(HyperliquidMarket::outcome_encoding(516, 1), 5161);
    assert_eq!(HyperliquidMarket::outcome_encoding(9, 0), 90);
    assert_eq!(HyperliquidMarket::outcome_encoding(10, 1), 101);
}

#[test]
fn test_outcome_market_instrument_id() {
    let market = HyperliquidMarket::Outcome {
        name: "BTC > 69070".to_string(),
        outcome_id: 516,
        side: 0,
        instrument_meta: None,
    };
    assert_eq!(market.instrument_id().as_str(), "#5160-OUTCOME");
}

#[test]
fn test_outcome_market_effective_asset_id() {
    let yes = HyperliquidMarket::Outcome {
        name: "BTC > 69070".to_string(),
        outcome_id: 516,
        side: 0,
        instrument_meta: None,
    };
    assert_eq!(yes.effective_asset_id(), 100_005_160);

    let no = HyperliquidMarket::Outcome {
        name: "BTC > 69070".to_string(),
        outcome_id: 516,
        side: 1,
        instrument_meta: None,
    };
    assert_eq!(no.effective_asset_id(), 100_005_161);
}

#[test]
fn test_outcome_market_coin_name() {
    let market = HyperliquidMarket::Outcome {
        name: "BTC > 69070".to_string(),
        outcome_id: 516,
        side: 0,
        instrument_meta: None,
    };
    assert_eq!(market.coin_name(), Some("#5160".to_string()));
}

#[test]
fn test_outcome_market_properties() {
    let market = HyperliquidMarket::Outcome {
        name: "HYPE > 200".to_string(),
        outcome_id: 686,
        side: 1,
        instrument_meta: None,
    };
    assert!(market.is_outcome());
    assert!(!market.is_spot());
    assert_eq!(market.base(), "HYPE > 200");
    assert_eq!(market.quote(), "USDC");
    assert_eq!(market.spot_coin(), None);
    assert_eq!(market.spot_market_index(), None);
    assert!(market.hip3_config().is_none());
}

#[test]
fn test_outcome_market_kind() {
    let outcome = Market::Hyperliquid(HyperliquidMarket::Outcome {
        name: "test".to_string(),
        outcome_id: 10,
        side: 0,
        instrument_meta: None,
    });
    assert_eq!(outcome.instrument_kind(), InstrumentKind::Outcome);

    let perp = Market::Hyperliquid(HyperliquidMarket::Perp {
        base: "BTC".to_string(),
        quote: "USDC".to_string(),
        index: 0,
        instrument_meta: None,
    });
    assert_eq!(perp.instrument_kind(), InstrumentKind::Perp);

    let spot = Market::Hyperliquid(HyperliquidMarket::Spot {
        base: "HYPE".to_string(),
        quote: "USDC".to_string(),
        index: 10107,
        instrument_meta: None,
    });
    assert_eq!(spot.instrument_kind(), InstrumentKind::Spot);
}

#[test]
fn sides_and_exchanges_have_numbers_of_their_own() {
    let side = |n: u8| HyperliquidMarket::outcome_encoding(516, n);
    assert_ne!(side(0), side(1));
    let market = Market::Hyperliquid(HyperliquidMarket::Perp {
        base: "ETH".to_string(),
        quote: "USDC".to_string(),
        index: 1,
        instrument_meta: None,
    });
    assert_eq!(market.market_index(), MarketIndex::new(1));
    assert_eq!(market.base_asset().as_str(), "ETH");
    assert_eq!(market.quote_asset().as_str(), "USDC");
    assert!(market.uses_margin());
}
