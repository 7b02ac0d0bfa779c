use std::str::FromStr;

use supurr::decimal::Decimal;
use supurr::inventory::{InventoryLedger, StrategyAllocation};
use supurr::order_manager::OrderManager;
use supurr::state::{fill_position, mark_position, EngineState};
use supurr::strmap::StrMap;
use supurr::text::{
    contains_text, lowered, number_text, parse_unsigned, signed_text, text_before_first,
    text_before_last, trim_trailing, without_prefix, without_suffix,
};
use supurr::types::{
    AssetId, ClientOrderId, Environment, ExchangeHealth, ExchangeId, ExchangeInstance,
    ExchangeOrderId, Fee, InstrumentId, OrderSide, OrderStatus, Position, Price, Qty, Quote,
    StrategyId, TradeId,
};

fn d(n: i64) -> Decimal {
    Decimal::new(n, 0)
}

fn price(n: i64) -> Price {
    Price::new(d(n))
}

fn qty(n: i64) -> Qty {
    Qty::new(d(n))
}

fn huge() -> Decimal {
    Decimal::parse("79228162514264337593543950335").unwrap()
}

#[test]
fn orders_live_until_they_end() {
    let mut orders = OrderManager::new();
    let a = ClientOrderId::new("a");
    orders.create_order_at(
        a.clone(),
        InstrumentId::new("BTC-PERP"),
        OrderSide::Buy,
        price(100),
        qty(2),
        5,
    );
    assert_eq!(orders.get(&a).unwrap().status, OrderStatus::New);
    assert!(orders.accept_order_at(&a, Some(ExchangeOrderId::new("77")), 6));
    assert_eq!(
        orders.client_id_from_exchange_id(&ExchangeOrderId::new("77")),
        Some(&a)
    );
    let t = TradeId::new("t1");
    assert_eq!(orders.apply_fill_at(&a, &t, qty(1), price(90), 7), Some(true));
    assert_eq!(orders.apply_fill_at(&a, &t, qty(1), price(90), 7), Some(false));
    assert!(orders.is_trade_seen(&t));
    assert!(!orders.is_complete(&a));
    let t2 = TradeId::new("t2");
    assert_eq!(orders.apply_fill_at(&a, &t2, qty(1), price(110), 8), Some(true));
    let order = orders.get(&a).unwrap();
    assert_eq!(order.filled_qty, qty(2));
    assert_eq!(order.avg_fill_px, Some(price(100)));
    assert!(orders.is_complete(&a));
    assert!(orders.remove_terminal(&a).is_some());
    assert!(orders.get(&a).is_none());
    assert_eq!(orders.order_count(), 0);
}

#[test]
fn rejected_and_canceled_orders_are_gone() {
    let mut orders = OrderManager::new();
    for id in ["a", "b"] {
        orders.create_order(
            ClientOrderId::new(id),
            InstrumentId::new("BTC-PERP"),
            OrderSide::Sell,
            price(1),
            qty(1),
        );
    }
    assert_eq!(orders.order_count(), 2);
    assert!(orders.reject_order(&ClientOrderId::new("a")).is_some());
    assert!(orders.cancel_order(&ClientOrderId::new("b")).is_some());
    assert!(orders.cancel_order(&ClientOrderId::new("b")).is_none());
    assert_eq!(orders.order_count(), 0);
    assert!(!orders.accept_order(&ClientOrderId::new("a"), None));
}

#[test]
fn reservations_are_given_back() {
    let mut ledger = InventoryLedger::new();
    let usdc = AssetId::new("USDC");
    let order = ClientOrderId::new("o");
    ledger.set_balance(&usdc, d(100));
    assert!(ledger.reserve(&order, &usdc, d(60)));
    assert!(!ledger.reserve(&order, &usdc, d(60)));
    let b = ledger.balance(&usdc);
    assert_eq!((b.total, b.available, b.reserved), (d(100), d(40), d(60)));
    ledger.release_order(&order);
    let b = ledger.balance(&usdc);
    assert_eq!((b.total, b.available, b.reserved), (d(100), d(100), d(0)));
}

#[test]
fn part_of_a_reservation_is_given_back() {
    let mut ledger = InventoryLedger::new();
    let usdc = AssetId::new("USDC");
    let order = ClientOrderId::new("o");
    ledger.set_balance(&usdc, d(100));
    assert!(ledger.reserve(&order, &usdc, d(60)));
    ledger.partial_release(&order, &usdc, Decimal::new(5, 1));
    assert_eq!(ledger.balance(&usdc).reserved, d(30));
}

#[test]
fn trades_move_both_assets() {
    let mut ledger = InventoryLedger::new();
    let usdc = AssetId::new("USDC");
    let eth = AssetId::new("ETH");
    ledger.set_balance(&usdc, d(1000));
    let fee = Fee::new(d(1), usdc.clone());
    ledger.apply_fill(OrderSide::Buy, &eth, &usdc, qty(2), price(100), &fee);
    assert_eq!(ledger.balance(&eth).total, d(2));
    assert_eq!(ledger.balance(&usdc).total, d(799));
    assert!(!ledger.try_apply_fill(
        OrderSide::Buy,
        &eth,
        &usdc,
        Qty::new(huge()),
        price(100),
        &fee
    ));
    assert_eq!(ledger.balance(&eth).total, d(2));
}

#[test]
fn budgets_bound_what_a_strategy_may_use() {
    let mut ledger = InventoryLedger::new();
    let id = StrategyId::new("s");
    let usdc = AssetId::new("USDC");
    let mut budgets = StrMap::new();
    budgets.insert("USDC".to_string(), d(50));
    ledger.set_allocation(StrategyAllocation {
        strategy_id: id.clone(),
        budgets,
    });
    assert!(ledger.check_strategy_budget(&id, &usdc, d(50)));
    assert!(!ledger.check_strategy_budget(&id, &usdc, d(51)));
    assert!(ledger.check_strategy_budget(&StrategyId::new("other"), &usdc, d(1000)));
}

#[test]
fn positions_realise_what_they_close() {
    let flat = Position::default();
    let long = fill_position(&flat, OrderSide::Buy, qty(2), price(100)).unwrap();
    assert_eq!(long.qty, d(2));
    assert_eq!(long.avg_entry_px, Some(price(100)));
    let more = fill_position(&long, OrderSide::Buy, qty(2), price(200)).unwrap();
    assert_eq!(more.avg_entry_px, Some(price(150)));
    let half = fill_position(&more, OrderSide::Sell, qty(2), price(160)).unwrap();
    assert_eq!(half.qty, d(2));
    assert_eq!(half.realized_pnl, d(20));
    let turned = fill_position(&half, OrderSide::Sell, qty(3), price(170)).unwrap();
    assert_eq!(turned.qty, d(-1));
    assert_eq!(turned.realized_pnl, d(60));
    assert_eq!(turned.avg_entry_px, Some(price(170)));
    let closed = fill_position(&turned, OrderSide::Buy, qty(1), price(150)).unwrap();
    assert_eq!(closed.qty, d(0));
    assert_eq!(closed.realized_pnl, d(80));
    assert_eq!(closed.avg_entry_px, None);
    assert!(fill_position(&long, OrderSide::Buy, Qty::new(huge()), price(1)).is_none());
}

#[test]
fn positions_are_marked_at_the_middle_price() {
    let long = fill_position(&Position::default(), OrderSide::Buy, qty(2), price(100)).unwrap();
    let quote = Quote {
        instrument: InstrumentId::new("BTC-PERP"),
        bid: price(109),
        ask: price(111),
        bid_size: qty(1),
        ask_size: qty(1),
        ts: 0,
    };
    let marked = mark_position(&long, Some(&quote)).unwrap();
    assert_eq!(marked.unrealized_pnl, Some(d(20)));
    assert_eq!(quote.mid(), price(110));
    assert_eq!(quote.spread(), d(2));
}

#[test]
fn the_state_keeps_what_it_is_told() {
    let mut state = EngineState::new();
    let btc = InstrumentId::new("BTC-PERP");
    let eth = InstrumentId::new("ETH-PERP");
    let main = ExchangeInstance::new(ExchangeId::new("hyperliquid"), Environment::Mainnet);
    let test = ExchangeInstance::new(ExchangeId::new("hyperliquid"), Environment::Testnet);
    state.set_exchange_health(&main, ExchangeHealth::Halted);
    assert!(matches!(state.exchange_health(&main), ExchangeHealth::Halted));
    assert!(matches!(state.exchange_health(&test), ExchangeHealth::Active));
    state.apply_position_fill(&btc, OrderSide::Buy, qty(1), price(100));
    assert_eq!(state.booked_position(&btc).qty, d(1));
    assert_eq!(state.booked_position(&eth).qty, d(0));
    state.apply_snapshot(&eth, d(-3), Some(price(10)), Some(d(7)));
    assert_eq!(state.booked_position(&eth).qty, d(-3));
    assert_eq!(state.get_positions().len(), 2);
}

#[test]
fn numbers_are_exact() {
    let tenth = Decimal::new(1, 1);
    let sum = tenth.checked_add(Decimal::new(2, 1)).unwrap();
    assert_eq!(sum, Decimal::new(3, 1));
    assert_eq!(sum.to_string(), "0.3");
    assert_eq!(sum.checked_sub(Decimal::new(2, 1)), Some(tenth));
    assert_eq!(d(7).checked_mul(Decimal::new(5, 1)), Some(Decimal::new(35, 1)));
    assert_eq!(d(1).checked_div(d(8)), Some(Decimal::new(125, 3)));
    assert!(d(1).checked_div(d(0)).is_none());
    assert!(huge().checked_add(d(1)).is_none());
    assert!(huge().checked_mul(d(2)).is_none());
    assert_eq!(Decimal::new(10, 1), Decimal::one());
    assert_eq!(Decimal::new(10, 1).to_string(), "1.0");
    assert_eq!(Decimal::parse("-12.50").unwrap().to_string(), "-12.50");
    assert!(Decimal::parse("12,5").is_none());
    assert!(Decimal::parse("").is_none());
    assert_eq!(Decimal::new(-15, 1).abs(), Decimal::new(15, 1));
    assert_eq!(Decimal::new(25, 1).round_half_even(), d(2));
    assert_eq!(Decimal::new(35, 1).round_half_even(), d(4));
    assert_eq!(Decimal::new(-15, 1).floor(), d(-2));
    assert_eq!(Decimal::new(99, 1).to_u32(), Some(9));
    assert_eq!(d(-1).to_u32(), None);
    assert_eq!(d(5).clamp(d(0), d(3)), d(3));
    assert_eq!(Decimal::new(12, 1).to_fixed_string(), "1.20000000");
}

#[test]
fn numbers_agree_with_the_decimal_crate() {
    let samples = [
        "0", "1", "-1", "0.1", "100.50", "-0.000001", "123456789.987654321",
        "79228162514264337593543950335", "0.0000000000000000000000000001", "3", "7",
    ];
    for a in samples {
        for b in samples {
            let x = Decimal::parse(a).unwrap();
            let y = Decimal::parse(b).unwrap();
            let p = rust_decimal::Decimal::from_str(a).unwrap();
            let q = rust_decimal::Decimal::from_str(b).unwrap();
            let show = |v: Option<Decimal>| v.map(|v| v.to_string());
            let known = |v: Option<rust_decimal::Decimal>| v.map(|v| v.to_string());
            assert_eq!(show(x.checked_add(y)), known(p.checked_add(q)), "{a} + {b}");
            assert_eq!(show(x.checked_sub(y)), known(p.checked_sub(q)), "{a} - {b}");
            assert_eq!(show(x.checked_mul(y)), known(p.checked_mul(q)), "{a} * {b}");
            assert_eq!(show(x.checked_div(y)), known(p.checked_div(q)), "{a} / {b}");
            assert_eq!(x.below(y), p < q, "{a} < {b}");
            assert_eq!(x == y, p == q, "{a} == {b}");
        }
        let x = Decimal::parse(a).unwrap();
        let p = rust_decimal::Decimal::from_str(a).unwrap();
        if a.len() < 20 {
            assert_eq!(x.to_fixed_string(), format!("{:.8}", p));
        }
        assert_eq!(x.round_half_even().to_string(), p.round().to_string());
        assert_eq!(x.floor().to_string(), p.floor().to_string());
    }
}

#[test]
fn texts_are_taken_apart() {
    assert!(contains_text("hello world", "o w"));
    assert!(!contains_text("hello", "hellos"));
    assert_eq!(lowered("ÄBc"), "Äbc");
    assert_eq!(number_text(1200), "1200");
    assert_eq!(signed_text(-7), "-7");
    assert_eq!(text_before_first("a-b-c", '-'), "a");
    assert_eq!(text_before_last("a-b-c", '-'), "a-b");
    assert_eq!(text_before_last("abc", '-'), "abc");
    assert_eq!(trim_trailing("a///", '/'), "a");
    assert_eq!(without_prefix("0xab", "0x"), Some("ab"));
    assert_eq!(without_suffix("ab-PERP", "-PERP"), Some("ab"));
    assert_eq!(without_suffix("ab", "-PERP"), None);
    assert_eq!(parse_unsigned("+12", 100), Some(12));
    assert_eq!(parse_unsigned("101", 100), None);
    assert_eq!(parse_unsigned("", 100), None);
    assert_eq!(parse_unsigned("1a", 100), None);
}

#[test]
fn maps_keep_one_value_for_a_key() {
    let mut m = StrMap::new();
    m.insert("a".to_string(), 1);
    m.insert("b".to_string(), 2);
    m.insert("a".to_string(), 3);
    assert_eq!(m.len(), 2);
    assert_eq!(m.get("a"), Some(&3));
    assert_eq!(m.at(0).0, "a");
    assert_eq!(m.remove("a"), Some(3));
    assert!(!m.contains("a"));
    assert_eq!(m.len(), 1);
}

#[test]
fn a_tracked_order_can_be_changed_in_place() {
    let mut orders = OrderManager::new();
    for id in ["a", "b"] {
        orders.create_order(
            ClientOrderId::new(id),
            InstrumentId::new("BTC-PERP"),
            OrderSide::Sell,
            price(1),
            qty(1),
        );
    }
    orders.get_mut(&ClientOrderId::new("a")).unwrap().price = price(9);
    assert!(orders.get_mut(&ClientOrderId::new("c")).is_none());
    assert_eq!(orders.get(&ClientOrderId::new("a")).unwrap().price, price(9));
    assert_eq!(orders.get(&ClientOrderId::new("b")).unwrap().price, price(1));
    assert_eq!(orders.order_count(), 2);
}

#[test]
fn orders_are_counted_by_their_ids() {
    let mut orders = OrderManager::new();
    let new = |orders: &mut OrderManager, id: &str| {
        let order = orders.create_order(
            ClientOrderId::new(id),
            InstrumentId::new("BTC-PERP"),
            OrderSide::Buy,
            price(7),
            qty(3),
        );
        assert_eq!(order.client_id, ClientOrderId::new(id));
        assert_eq!(order.requested_qty, qty(3));
        assert_eq!(order.status, OrderStatus::New);
        orders.order_count()
    };
    assert_eq!(new(&mut orders, "a"), 1);
    assert_eq!(new(&mut orders, "b"), 2);
    assert_eq!(new(&mut orders, "a"), 2);
    let a = ClientOrderId::new("a");
    assert!(orders.accept_order_at(&a, Some(ExchangeOrderId::new("1")), 1));
    assert_eq!(orders.apply_fill_at(&a, &TradeId::new("t"), qty(1), price(7), 2), Some(true));
    assert_eq!(orders.order_count(), 2);
    assert!(orders.cancel_order(&a).is_some());
    assert!(orders.cancel_order(&a).is_none());
    assert_eq!(orders.order_count(), 1);
}

#[test]
fn the_memory_holds_the_last_ten_thousand_trades() {
    let mut orders = OrderManager::new();
    let a = ClientOrderId::new("a");
    let name = |i: usize| TradeId::new(&format!("t{}", i));
    for i in 0..10_002 {
        assert_eq!(orders.apply_fill_at(&a, &name(i), qty(1), price(1), 0), Some(false));
    }
    assert!(!orders.is_trade_seen(&name(0)));
    assert!(!orders.is_trade_seen(&name(1)));
    assert!(orders.is_trade_seen(&name(2)));
    assert!(orders.is_trade_seen(&name(10_001)));
    assert!(!orders.is_trade_seen(&name(10_002)));
}

#[test]
fn reservations_are_given_back_in_any_order() {
    for order in [["x", "y"], ["y", "x"]] {
        let mut ledger = InventoryLedger::new();
        let usdc = AssetId::new("USDC");
        ledger.set_balance(&usdc, d(100));
        assert!(ledger.reserve(&ClientOrderId::new("x"), &usdc, d(30)));
        assert!(ledger.reserve(&ClientOrderId::new("y"), &usdc, d(50)));
        assert_eq!(ledger.balance(&usdc).available, d(20));
        for id in order {
            ledger.release_order(&ClientOrderId::new(id));
        }
        let b = ledger.balance(&usdc);
        assert_eq!((b.total, b.available, b.reserved), (d(100), d(100), d(0)));
    }
}

#[test]
fn of_equal_numbers_the_first_is_taken() {
    let short = Decimal::zero();
    let long = Decimal::new(0, 2);
    assert_eq!(short.max(long).to_string(), "0");
    assert_eq!(long.max(short).to_string(), "0.00");
    assert_eq!(short.min(long).to_string(), "0");
    assert_eq!(long.min(short).to_string(), "0.00");
    for (a, b) in [("0", "0.00"), ("1.50", "1.5"), ("-2", "3"), ("3.0", "-2"), ("7", "7")] {
        let (x, y) = (Decimal::parse(a).unwrap(), Decimal::parse(b).unwrap());
        let p = rust_decimal::Decimal::from_str(a).unwrap();
        let q = rust_decimal::Decimal::from_str(b).unwrap();
        assert_eq!(x.max(y).to_string(), p.max(q).to_string(), "{a} {b}");
        assert_eq!(x.min(y).to_string(), p.min(q).to_string(), "{a} {b}");
    }
}

#[test]
fn releasing_an_order_undoes_its_reservations() {
    let mut ledger = InventoryLedger::new();
    let usdc = AssetId::new("USDC");
    let eth = AssetId::new("ETH");
    let order = ClientOrderId::new("o");
    let other = ClientOrderId::new("other");
    ledger.set_balance(&usdc, d(100));
    ledger.set_balance(&eth, d(8));
    assert!(ledger.reserve(&other, &usdc, d(10)));
    assert!(ledger.reserve(&order, &usdc, d(30)));
    assert!(ledger.reserve(&order, &eth, d(3)));
    assert!(ledger.reserve(&order, &usdc, d(20)));
    assert_eq!(ledger.balance(&usdc).available, d(40));
    assert_eq!(ledger.balance(&eth).available, d(5));
    // A second release finds nothing to give back.
    for _ in 0..2 {
        ledger.release_order(&order);
        let b = ledger.balance(&usdc);
        assert_eq!((b.total, b.available, b.reserved), (d(100), d(90), d(10)));
        let b = ledger.balance(&eth);
        assert_eq!((b.total, b.available, b.reserved), (d(8), d(8), d(0)));
    }
    ledger.release_order(&other);
    assert_eq!(ledger.balance(&usdc).available, d(100));
}
