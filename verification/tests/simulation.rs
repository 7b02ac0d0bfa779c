use supurr::decimal::Decimal;
use supurr::exchange::{ExchangeError, OrderInput, PlaceOrderResult};
use supurr::fill_simulator::{calculate_fee, FillSimulator, PendingOrder};
use supurr::mock_exchange::{MockExchange, MockReply, OrderFailMode};
use supurr::paper_exchange::{
    create_standalone_paper_exchange, create_standalone_paper_exchange_with_id, NoOpExchange,
    PaperExchange,
};
use supurr::quote_source::MockQuoteSource;
use supurr::strmap::StrMap;
use supurr::types::{
    AssetId, ClientOrderId, Environment, ExchangeOrderId, InstrumentId, MarketIndex, OrderSide,
    Price, Qty, Quote, TimeInForce,
};

fn make_quote(instrument: &str, bid: i64, ask: i64) -> Quote {
    Quote {
        instrument: InstrumentId::new(instrument),
        bid: Price::new(Decimal::new(bid, 0)),
        ask: Price::new(Decimal::new(ask, 0)),
        bid_size: Qty::new(Decimal::new(10, 0)),
        ask_size: Qty::new(Decimal::new(10, 0)),
        ts: 0,
    }
}

fn balances(asset: &str, amount: i64) -> StrMap<Decimal> {
    let mut m = StrMap::new();
    m.insert(asset.to_string(), Decimal::new(amount, 0));
    m
}

fn quotes(q: Quote) -> StrMap<Quote> {
    let mut m = StrMap::new();
    m.insert(q.instrument.as_str().to_string(), q);
    m
}

fn pending(id: &str, side: OrderSide, price: i64) -> PendingOrder {
    PendingOrder {
        client_id: ClientOrderId::new(id),
        exchange_order_id: ExchangeOrderId::new("ex1"),
        instrument: InstrumentId::new("BTC-PERP"),
        side,
        price: Price::new(Decimal::new(price, 0)),
        qty: Qty::new(Decimal::new(1, 0)),
        remaining_qty: Qty::new(Decimal::new(1, 0)),
        created_at: 0,
    }
}

fn eth_order(client_id: ClientOrderId) -> OrderInput {
    OrderInput {
        instrument: InstrumentId::new("ETH-SPOT"),
        market_index: MarketIndex::new(0),
        side: OrderSide::Buy,
        price: Price::new(Decimal::new(3000, 0)),
        qty: Qty::new(Decimal::new(1, 1)),
        client_id,
        tif: TimeInForce::Ioc,
        post_only: false,
        reduce_only: false,
    }
}

fn perp_order(id: &str, side: OrderSide, price: i64, qty: i64) -> OrderInput {
    OrderInput {
        client_id: ClientOrderId::new(id),
        instrument: InstrumentId::new("BTC-PERP"),
        market_index: MarketIndex::new(0),
        side,
        price: Price::new(Decimal::new(price, 0)),
        qty: Qty::new(Decimal::new(qty, 0)),
        tif: TimeInForce::Gtc,
        post_only: false,
        reduce_only: false,
    }
}

#[test]
fn test_buy_order_fills_when_ask_crosses() {
    let mut sim = FillSimulator::new(balances("USDC", 100000));
    sim.add_pending_order(pending("order1", OrderSide::Buy, 50000));

    let fills = sim.check_fills(&quotes(make_quote("BTC-PERP", 49998, 49999)), 1000);
    assert_eq!(fills.len(), 1);
    assert_eq!(fills[0].fill.price.0, Decimal::new(49999, 0));
    assert_eq!(sim.pending_orders_count(), 0);
}

#[test]
fn test_sell_order_fills_when_bid_crosses() {
    let mut sim = FillSimulator::new(balances("BTC", 10));
    sim.add_pending_order(pending("order1", OrderSide::Sell, 50000));

    let fills = sim.check_fills(&quotes(make_quote("BTC-PERP", 50001, 50002)), 1000);
    assert_eq!(fills.len(), 1);
    assert_eq!(fills[0].fill.price.0, Decimal::new(50001, 0));
}

#[test]
fn only_orders_that_the_price_reaches_are_filled() {
    let mut sim = FillSimulator::new(balances("USDC", 1000000));
    sim.add_pending_order(pending("low", OrderSide::Buy, 40000));
    sim.add_pending_order(pending("high", OrderSide::Buy, 50000));
    sim.add_pending_order(pending("middle", OrderSide::Buy, 45000));
    let fills = sim.check_fills(&quotes(make_quote("BTC-PERP", 44998, 44999)), 7);
    let ids: Vec<String> = fills
        .iter()
        .map(|f| f.fill.client_id.as_ref().unwrap().as_str().to_string())
        .collect();
    assert_eq!(ids, vec!["high".to_string(), "middle".to_string()]);
    assert_eq!(sim.pending_orders_count(), 1);
    assert_eq!(fills[0].fill.ts, 7);
    assert!(sim.remove_order(&ClientOrderId::new("low")).is_some());
    assert!(sim.remove_order(&ClientOrderId::new("low")).is_none());
}

#[test]
fn funds_are_checked_by_side() {
    let sim = FillSimulator::new(balances("USDC", 100));
    let spot = InstrumentId::new("ETH-SPOT");
    let one = Decimal::one();
    assert!(sim
        .check_balance(&spot, OrderSide::Buy, Decimal::new(100, 0), one)
        .is_ok());
    assert!(sim
        .check_balance(&spot, OrderSide::Buy, Decimal::new(101, 0), one)
        .is_err());
    assert!(sim
        .check_balance(&spot, OrderSide::Sell, Decimal::new(100, 0), one)
        .is_err());
}

#[test]
fn test_mock_exchange_creation() {
    let mock = MockExchange::new();

    let usdc = mock.balance(&AssetId::new("USDC"));
    assert_eq!(usdc, Decimal::new(100000, 0));

    let eth = mock.balance(&AssetId::new("ETH"));
    assert_eq!(eth, Decimal::new(10, 0));
}

#[test]
fn test_place_order_always_succeed() {
    let mut mock = MockExchange::new();
    mock.set_mid("ETH", Decimal::new(3000, 0));

    let order = eth_order(ClientOrderId::generate());

    let results = match mock.place_orders(&vec![order]) {
        MockReply::Replies(r) => r,
        _ => panic!("the exchange did not reply"),
    };
    assert_eq!(results.len(), 1);

    match &results[0] {
        PlaceOrderResult::Accepted { .. } => {}
        PlaceOrderResult::Rejected { reason } => {
            panic!("Order rejected: {}", reason);
        }
    }

    let usdc = mock.balance(&AssetId::new("USDC"));
    assert_eq!(usdc, Decimal::new(99700, 0));

    let eth = mock.balance(&AssetId::new("ETH"));
    assert_eq!(eth, Decimal::new(101, 1));
}

#[test]
fn test_insufficient_balance() {
    let mut mock = MockExchange::new();
    mock.set_fail_mode(OrderFailMode::FailOnInsufficientBalance);
    mock.set_balance(AssetId::new("USDC"), Decimal::new(10, 0));

    let order = eth_order(ClientOrderId::generate());

    let results = match mock.place_orders(&vec![order]) {
        MockReply::Replies(r) => r,
        _ => panic!("the exchange did not reply"),
    };

    match &results[0] {
        PlaceOrderResult::Rejected { reason } => {
            assert!(reason.contains("Insufficient balance"));
        }
        PlaceOrderResult::Accepted { .. } => {
            panic!("Order should have been rejected");
        }
    }
}

#[test]
fn a_failed_request_leaves_no_trace() {
    let mut mock = MockExchange::new();
    mock.queue_place_order_error(ExchangeError::RateLimited);
    let order = eth_order(ClientOrderId::new("o"));
    assert!(matches!(
        mock.place_orders(&vec![order.clone()]),
        MockReply::Failed(ExchangeError::RateLimited)
    ));
    assert!(mock.placed_orders().is_empty());
    assert!(mock.fills().is_empty());
    assert!(matches!(mock.place_orders(&vec![order]), MockReply::Replies(_)));
    assert_eq!(mock.placed_orders().len(), 1);
}

#[test]
fn client_order_ids_differ() {
    let a = ClientOrderId::generate();
    let b = ClientOrderId::generate();
    assert!(a.as_str().starts_with("0x"));
    assert_eq!(a.as_str().len(), 34);
    assert_ne!(a, b);
    assert_eq!(
        ClientOrderId::from_words(1, 0xff).as_str(),
        "0x000000000000000100000000000000ff"
    );
}

#[test]
fn test_paper_exchange_uses_fill_simulator() {
    let paper = PaperExchange::new(NoOpExchange::new(), balances("USDC", 10000));

    let balance = paper.balance(&AssetId::new("USDC"));
    assert_eq!(balance, Decimal::new(10000, 0));
}

#[test]
fn test_paper_exchange_accepts_perp_short() {
    let mut source = MockQuoteSource::new();
    source.set_quote(make_quote("BTC-PERP", 50000, 50001));

    let mut paper = PaperExchange::new(source, balances("USDC", 100000));

    let polled = paper
        .quote_source()
        .poll_quotes(&vec![InstrumentId::new("BTC-PERP")]);
    assert!(paper.take_real_quotes(&polled, 0));

    let orders = vec![perp_order(
        "0xtest12345678901234567890123456",
        OrderSide::Sell,
        51000,
        1,
    )];

    let results = paper.place_orders(&orders).unwrap();

    match &results[0] {
        PlaceOrderResult::Accepted { .. } => {}
        PlaceOrderResult::Rejected { reason } => {
            panic!(
                "PERP short should be accepted with margin, got rejection: {}",
                reason
            );
        }
    }
}

#[test]
fn a_refused_paper_order_changes_nothing() {
    let mut paper = create_standalone_paper_exchange(balances("USDC", 100));
    let results = paper
        .place_orders(&vec![perp_order("big", OrderSide::Buy, 50000, 1)])
        .unwrap();
    assert!(matches!(results[0], PlaceOrderResult::Rejected { .. }));
    assert_eq!(paper.free_usdc(), Decimal::new(100, 0));
    assert_eq!(paper.pending_orders_count(), 0);
    assert!(paper.fills().is_empty());
}

#[test]
fn paper_orders_rest_until_a_quote_reaches_them() {
    let mut paper = create_standalone_paper_exchange_with_id(
        balances("USDC", 100000),
        "hyperliquid",
        Environment::Mainnet,
    );
    paper.queue_quotes(vec![
        make_quote("BTC-PERP", 50000, 50001),
        make_quote("BTC-PERP", 48999, 49000),
    ]);
    let instruments = vec![InstrumentId::new("BTC-PERP")];
    assert_eq!(paper.poll_quotes(&instruments).unwrap().len(), 1);
    let results = paper
        .place_orders(&vec![perp_order("a", OrderSide::Buy, 49500, 1)])
        .unwrap();
    let first = match &results[0] {
        PlaceOrderResult::Accepted { exchange_order_id, .. } => {
            exchange_order_id.as_ref().unwrap().as_str().to_string()
        }
        PlaceOrderResult::Rejected { reason } => panic!("{}", reason),
    };
    assert_eq!(paper.pending_orders_count(), 1);
    assert_eq!(paper.poll_quotes(&instruments).unwrap().len(), 1);
    let fills = paper.poll_user_fills().unwrap();
    assert_eq!(fills.len(), 1);
    assert_eq!(fills[0].price.0, Decimal::new(49000, 0));
    assert_eq!(paper.get_position(&instruments[0]), Decimal::one());
    let results = paper
        .place_orders(&vec![perp_order("b", OrderSide::Buy, 40000, 1)])
        .unwrap();
    match &results[0] {
        PlaceOrderResult::Accepted { exchange_order_id, .. } => {
            assert_ne!(exchange_order_id.as_ref().unwrap().as_str(), first)
        }
        PlaceOrderResult::Rejected { reason } => panic!("{}", reason),
    }
    assert_eq!(paper.cancel_all_orders(&instruments[0]), 1);
    assert!(paper.cancel_order(&ClientOrderId::new("b")).is_none());
}

#[test]
fn test_mock_quote_source() {
    let mut source = MockQuoteSource::new();

    let instrument = InstrumentId::new("BTC-PERP");
    let quote = Quote {
        instrument: instrument.clone(),
        bid: Price::new(Decimal::new(50000, 0)),
        ask: Price::new(Decimal::new(50010, 0)),
        bid_size: Qty::new(Decimal::new(1, 0)),
        ask_size: Qty::new(Decimal::new(1, 0)),
        ts: 0,
    };

    source.set_quote(quote.clone());

    let quotes = source.poll_quotes(&vec![instrument.clone()]);
    assert_eq!(quotes.len(), 1);
    assert_eq!(quotes[0].bid.0, Decimal::new(50000, 0));
}

#[test]
fn fees_are_in_the_common_currency_but_for_spot_purchases() {
    let fee = |instrument: &str, side: OrderSide| {
        calculate_fee(
            Decimal::new(1, 2),
            &InstrumentId::new(instrument),
            side,
            Qty::new(Decimal::new(2, 0)),
            Price::new(Decimal::new(50, 0)),
        )
        .unwrap()
    };
    let perp = fee("BTC-PERP", OrderSide::Buy);
    assert_eq!(perp.asset, AssetId::new("USDC"));
    assert_eq!(perp.amount, Decimal::one());
    assert_eq!(fee("HYPE-SPOT", OrderSide::Sell).asset, AssetId::new("USDC"));
    let spot = fee("HYPE-SPOT", OrderSide::Buy);
    assert_eq!(spot.asset, AssetId::new("HYPE"));
    assert_eq!(spot.amount, Decimal::new(2, 2));
}

#[test]
fn the_same_quotes_fill_nothing_twice() {
    let mut sim = FillSimulator::new(balances("USDC", 1_000_000));
    assert_eq!(sim.pending_orders_count(), 0);
    sim.add_pending_order(pending("low", OrderSide::Buy, 40_000));
    sim.add_pending_order(pending("high", OrderSide::Buy, 50_000));
    assert_eq!(sim.pending_orders_count(), 2);
    let q = quotes(make_quote("BTC-PERP", 44_998, 44_999));
    assert_eq!(sim.check_fills(&q, 1).len(), 1);
    assert_eq!(sim.check_fills(&q, 2).len(), 0);
    let left = sim.pending_orders();
    assert_eq!(left.len(), 1);
    assert_eq!(left[0].client_id, ClientOrderId::new("low"));
}

#[test]
fn queued_quotes_come_out_in_order_and_leave_nothing() {
    let mut paper = create_standalone_paper_exchange(balances("USDC", 1_000));
    assert_eq!(paper.pending_orders_count(), 0);
    let mut queued: Vec<Quote> = (1..=5).map(|n| make_quote("BTC-PERP", n, n + 1)).collect();
    for (i, q) in queued.iter_mut().enumerate() {
        q.ts = 10 * i as i64;
    }
    paper.queue_quotes(queued);
    let instruments = vec![InstrumentId::new("BTC-PERP")];
    for n in 1..=5 {
        let polled = paper.poll_quotes(&instruments).unwrap();
        assert_eq!(polled[0].bid.0, Decimal::new(n, 0));
        assert_eq!(paper.current_time(), 10 * (n - 1));
        assert_eq!(paper.queue_len() as i64, 5 - n);
    }
    assert!(paper.fills().is_empty());
    assert_eq!(paper.free_usdc(), Decimal::new(1_000, 0));
}

#[test]
fn a_perp_short_waits_as_one_order() {
    let mut paper = create_standalone_paper_exchange(balances("USDC", 100_000));
    let placed = paper
        .place_orders(&vec![perp_order("s", OrderSide::Sell, 51_000, 1)])
        .unwrap();
    assert!(matches!(placed[0], PlaceOrderResult::Accepted { .. }));
    assert_eq!(paper.pending_orders_count(), 1);
    assert_eq!(paper.get_position(&InstrumentId::new("BTC-PERP")), Decimal::zero());
}

#[test]
fn a_fresh_mock_exchange_is_funded_and_takes_orders() {
    let mut mock = MockExchange::default();
    assert!(mock.placed_orders().is_empty());
    assert!(mock.fills().is_empty());
    assert!(matches!(
        mock.place_orders(&vec![eth_order(ClientOrderId::new("o"))]),
        MockReply::Replies(r) if matches!(
            &r[..],
            [PlaceOrderResult::Accepted { .. }]
        )
    ));
}
