use supurr::decimal::Decimal;
use supurr::margin::{IsolatedPosition, MarginLedger};
use supurr::strmap::StrMap;
use supurr::types::{InstrumentId, OrderSide};

fn usdc(n: i64) -> Decimal {
    Decimal::new(n, 0)
}

fn btc_perp() -> InstrumentId {
    InstrumentId::new("BTC-PERP")
}

fn eth_perp() -> InstrumentId {
    InstrumentId::new("ETH-PERP")
}

fn one() -> Decimal {
    Decimal::one()
}

fn marks(price: i64) -> StrMap<Decimal> {
    let mut m = StrMap::new();
    m.insert("BTC-PERP".to_string(), usdc(price));
    m
}

#[test]
fn test_unrealized_pnl_long() {
    let pos = IsolatedPosition {
        qty: one(),
        avg_entry_px: usdc(50000),
        ..Default::default()
    };
    assert_eq!(pos.unrealized_pnl(usdc(51000)), usdc(1000));
    assert_eq!(pos.unrealized_pnl(usdc(49000)), usdc(-1000));
}

#[test]
fn test_unrealized_pnl_short() {
    let pos = IsolatedPosition {
        qty: one().negate(),
        avg_entry_px: usdc(50000),
        ..Default::default()
    };
    assert_eq!(pos.unrealized_pnl(usdc(49000)), usdc(1000));
    assert_eq!(pos.unrealized_pnl(usdc(51000)), usdc(-1000));
}

#[test]
fn test_unrealized_pnl_flat() {
    let pos = IsolatedPosition::default();
    assert_eq!(pos.unrealized_pnl(usdc(99999)), Decimal::zero());
}

#[test]
fn test_required_margin() {
    let margin = IsolatedPosition::required_margin_for_order(
        usdc(10000),
        Decimal::new(10, 0),
        Decimal::new(2, 4),
    );
    assert_eq!(margin, Decimal::new(1004, 0));
}

#[test]
fn test_is_order_reducing() {
    let long_pos = IsolatedPosition {
        qty: one(),
        ..Default::default()
    };
    assert!(long_pos.is_order_reducing(OrderSide::Sell));
    assert!(!long_pos.is_order_reducing(OrderSide::Buy));

    let short_pos = IsolatedPosition {
        qty: one().negate(),
        ..Default::default()
    };
    assert!(short_pos.is_order_reducing(OrderSide::Buy));
    assert!(!short_pos.is_order_reducing(OrderSide::Sell));
}

#[test]
fn test_margin_admission_rejects_insufficient() {
    let ledger = MarginLedger::new(usdc(1000), Decimal::new(2, 4));

    let result =
        ledger.check_margin_for_perp_order(&btc_perp(), OrderSide::Buy, usdc(50000), one(), false);
    assert!(result.is_err());
    assert!(result.unwrap_err().contains("Insufficient margin"));
}

#[test]
fn test_margin_admission_accepts_leveraged() {
    let mut ledger = MarginLedger::new(usdc(1000), Decimal::new(2, 4));
    ledger.set_leverage(&btc_perp(), Decimal::new(10, 0), Decimal::new(50, 0));

    let result = ledger.check_margin_for_perp_order(
        &btc_perp(),
        OrderSide::Buy,
        usdc(50000),
        Decimal::new(1, 1),
        false,
    );
    assert!(result.is_ok(), "Should accept: {:?}", result);
}

#[test]
fn test_margin_admission_allows_reducing() {
    let mut ledger = MarginLedger::new(usdc(1000), Decimal::new(2, 4));
    ledger.set_leverage(&btc_perp(), Decimal::new(10, 0), Decimal::new(50, 0));

    ledger.apply_perp_fill(
        &btc_perp(),
        OrderSide::Buy,
        usdc(50000),
        Decimal::new(1, 1),
        Decimal::zero(),
    );

    let result = ledger.check_margin_for_perp_order(
        &btc_perp(),
        OrderSide::Sell,
        usdc(50000),
        Decimal::new(1, 1),
        false,
    );
    assert!(result.is_ok(), "Reducing order should always pass");
}

#[test]
fn test_fill_open_long() {
    let mut ledger = MarginLedger::new(usdc(10000), Decimal::new(2, 4));
    ledger.set_leverage(&btc_perp(), Decimal::new(10, 0), Decimal::new(50, 0));

    let realized = ledger.apply_perp_fill(
        &btc_perp(),
        OrderSide::Buy,
        usdc(50000),
        Decimal::new(1, 1),
        usdc(1),
    );

    assert_eq!(realized, Decimal::zero(), "No realized PnL on open");

    let pos = ledger.position(&btc_perp()).unwrap();
    assert_eq!(pos.qty, Decimal::new(1, 1));
    assert_eq!(pos.avg_entry_px, usdc(50000));
    assert_eq!(pos.isolated_margin_reserved, usdc(500));
    assert_eq!(ledger.free_usdc(), usdc(9499));
}

#[test]
fn test_fill_close_long_with_profit() {
    let mut ledger = MarginLedger::new(usdc(10000), Decimal::new(2, 4));
    ledger.set_leverage(&btc_perp(), Decimal::new(10, 0), Decimal::new(50, 0));

    ledger.apply_perp_fill(
        &btc_perp(),
        OrderSide::Buy,
        usdc(50000),
        Decimal::new(1, 1),
        Decimal::zero(),
    );

    let free_after_open = ledger.free_usdc();

    let realized = ledger.apply_perp_fill(
        &btc_perp(),
        OrderSide::Sell,
        usdc(51000),
        Decimal::new(1, 1),
        Decimal::zero(),
    );

    assert_eq!(realized, usdc(100), "Realized PnL should be $100");

    let pos = ledger.position(&btc_perp()).unwrap();
    assert!(pos.qty.is_zero(), "Position should be flat");
    assert_eq!(pos.isolated_margin_reserved, Decimal::zero());

    let expected = free_after_open
        .checked_add(usdc(500))
        .unwrap()
        .checked_add(usdc(100))
        .unwrap();
    assert_eq!(ledger.free_usdc(), expected);
}

#[test]
fn test_fill_close_long_with_loss() {
    let mut ledger = MarginLedger::new(usdc(10000), Decimal::zero());
    ledger.set_leverage(&btc_perp(), Decimal::new(10, 0), Decimal::new(50, 0));

    ledger.apply_perp_fill(
        &btc_perp(),
        OrderSide::Buy,
        usdc(50000),
        Decimal::new(1, 1),
        Decimal::zero(),
    );

    let realized = ledger.apply_perp_fill(
        &btc_perp(),
        OrderSide::Sell,
        usdc(49000),
        Decimal::new(1, 1),
        Decimal::zero(),
    );

    assert_eq!(realized, usdc(-100), "Realized PnL should be -$100");
    assert_eq!(ledger.free_usdc(), usdc(9900));
}

#[test]
fn test_fill_short_and_close() {
    let mut ledger = MarginLedger::new(usdc(10000), Decimal::zero());
    ledger.set_leverage(&eth_perp(), Decimal::new(5, 0), Decimal::new(25, 0));

    ledger.apply_perp_fill(
        &eth_perp(),
        OrderSide::Sell,
        usdc(3000),
        one(),
        Decimal::zero(),
    );

    let pos = ledger.position(&eth_perp()).unwrap();
    assert_eq!(pos.qty, one().negate());
    assert_eq!(pos.isolated_margin_reserved, usdc(600));

    let realized = ledger.apply_perp_fill(
        &eth_perp(),
        OrderSide::Buy,
        usdc(2800),
        one(),
        Decimal::zero(),
    );

    assert_eq!(realized, usdc(200), "Short profit should be $200");
}

#[test]
fn test_equity_with_unrealized() {
    let mut ledger = MarginLedger::new(usdc(10000), Decimal::zero());
    ledger.set_leverage(&btc_perp(), Decimal::new(10, 0), Decimal::new(50, 0));

    ledger.apply_perp_fill(
        &btc_perp(),
        OrderSide::Buy,
        usdc(50000),
        Decimal::new(1, 1),
        Decimal::zero(),
    );

    let equity = ledger.equity(&marks(51000));
    assert_eq!(equity, usdc(10100));
}

#[test]
fn test_position_snapshots() {
    let mut ledger = MarginLedger::new(usdc(10000), Decimal::zero());
    ledger.set_leverage(&btc_perp(), Decimal::new(10, 0), Decimal::new(50, 0));

    ledger.apply_perp_fill(
        &btc_perp(),
        OrderSide::Buy,
        usdc(50000),
        Decimal::new(1, 1),
        Decimal::zero(),
    );

    let snapshots = ledger.position_snapshots(&marks(51000));
    assert_eq!(snapshots.len(), 1);
    assert_eq!(snapshots[0].instrument, btc_perp());
    assert_eq!(snapshots[0].qty, Decimal::new(1, 1));
    assert_eq!(snapshots[0].unrealized_pnl, Some(usdc(100)));
}

#[test]
fn test_liquidation_detection() {
    let mut ledger = MarginLedger::new(usdc(1000), Decimal::zero());
    ledger.set_leverage(&btc_perp(), Decimal::new(10, 0), Decimal::new(50, 0));

    ledger.apply_perp_fill(
        &btc_perp(),
        OrderSide::Buy,
        usdc(50000),
        Decimal::new(2, 3),
        Decimal::zero(),
    );

    let pos = ledger.position(&btc_perp()).unwrap();
    let liq_price = pos.liquidation_price();
    assert!(liq_price.is_some(), "Should have a liquidation price");

    assert!(ledger.check_liquidations(&marks(50000)).is_empty());

    let liquidated = ledger.check_liquidations(&marks(1000));
    assert!(!liquidated.is_empty(), "Should detect liquidation at $1000");
}

#[test]
fn a_liquidated_position_is_flat_and_others_stay() {
    let mut ledger = MarginLedger::new(usdc(10000), Decimal::zero());
    ledger.set_leverage(&btc_perp(), Decimal::new(10, 0), Decimal::new(50, 0));
    ledger.apply_perp_fill(&btc_perp(), OrderSide::Buy, usdc(50000), one(), Decimal::zero());
    ledger.apply_perp_fill(&eth_perp(), OrderSide::Sell, usdc(3000), one(), Decimal::zero());
    ledger.liquidate(&btc_perp(), usdc(1000));
    assert!(ledger.position(&btc_perp()).unwrap().qty.is_zero());
    assert_eq!(ledger.position(&eth_perp()).unwrap().qty, one().negate());
}

#[test]
fn a_fill_in_two_halves_averages_the_entry() {
    let mut ledger = MarginLedger::new(usdc(100000), Decimal::zero());
    ledger.apply_perp_fill(&btc_perp(), OrderSide::Buy, usdc(100), one(), Decimal::zero());
    ledger.apply_perp_fill(&btc_perp(), OrderSide::Buy, usdc(200), one(), Decimal::zero());
    let pos = ledger.position(&btc_perp()).unwrap();
    assert_eq!(pos.qty, usdc(2));
    assert_eq!(pos.avg_entry_px, usdc(150));
}

#[test]
fn amounts_that_are_too_large_change_nothing() {
    let huge = Decimal::parse("79228162514264337593543950335").unwrap();
    let mut ledger = MarginLedger::new(usdc(10), Decimal::zero());
    assert!(!ledger.try_adjust_free_usdc(huge));
    assert_eq!(ledger.free_usdc(), usdc(10));
    assert!(ledger
        .try_apply_perp_fill(&btc_perp(), OrderSide::Buy, huge, usdc(2), Decimal::zero())
        .is_none());
    assert!(ledger.position(&btc_perp()).is_none());
}

#[test]
fn a_position_can_be_changed_in_place() {
    let mut ledger = MarginLedger::new(usdc(10000), Decimal::zero());
    assert!(ledger.position_mut(&btc_perp()).is_none());
    ledger.set_leverage(&btc_perp(), Decimal::new(10, 0), Decimal::new(50, 0));
    ledger.apply_perp_fill(&btc_perp(), OrderSide::Buy, usdc(50000), one(), Decimal::zero());
    ledger.position_mut(&btc_perp()).unwrap().qty = Decimal::new(2, 0);
    assert_eq!(ledger.position(&btc_perp()).unwrap().qty, Decimal::new(2, 0));
}

#[test]
fn at_the_liquidation_price_the_margin_is_just_maintained() {
    let at = |qty: i64, margin: i64, rate: Decimal| IsolatedPosition {
        qty: usdc(qty),
        avg_entry_px: usdc(100),
        isolated_margin_reserved: usdc(margin),
        maintenance_margin_rate: rate,
        ..Default::default()
    };
    let long = at(2, 56, Decimal::new(2, 1));
    assert_eq!(long.liquidation_price(), Some(usdc(90)));
    // 56 + 2 * (90 - 100) == 0.2 * 2 * 90
    assert_eq!(usdc(56).checked_add(long.unrealized_pnl(usdc(90))), Some(usdc(36)));
    assert!(long.is_liquidated(usdc(90)));
    assert!(!long.is_liquidated(usdc(91)));
    let short = at(-2, 70, Decimal::new(25, 2));
    assert_eq!(short.liquidation_price(), Some(usdc(108)));
    // 70 - 2 * (108 - 100) == 0.25 * 2 * 108
    assert_eq!(usdc(70).checked_add(short.unrealized_pnl(usdc(108))), Some(usdc(54)));
    assert!(short.is_liquidated(usdc(108)));
    assert!(!short.is_liquidated(usdc(107)));
}

#[test]
fn closing_a_part_and_turning_around_conserve_cash() {
    let mut ledger = MarginLedger::new(usdc(1000), Decimal::zero());
    ledger.set_leverage(&btc_perp(), Decimal::new(10, 0), Decimal::new(50, 0));
    ledger.apply_perp_fill(&btc_perp(), OrderSide::Buy, usdc(100), usdc(4), Decimal::zero());
    assert_eq!(ledger.free_usdc(), usdc(960));
    ledger.apply_perp_fill(&btc_perp(), OrderSide::Sell, usdc(120), one(), Decimal::zero());
    let held = ledger.position(&btc_perp()).unwrap().isolated_margin_reserved;
    assert_eq!(ledger.free_usdc().checked_add(held), Some(usdc(1020)));
    ledger.apply_perp_fill(&btc_perp(), OrderSide::Sell, usdc(90), usdc(5), Decimal::zero());
    let after = ledger.position(&btc_perp()).unwrap();
    assert_eq!(after.qty, usdc(-2));
    assert_eq!(
        ledger.free_usdc().checked_add(after.isolated_margin_reserved),
        Some(usdc(990))
    );
}

#[test]
fn every_fill_conserves_cash() {
    let mut ledger = MarginLedger::new(usdc(1000), Decimal::zero());
    ledger.set_leverage(&btc_perp(), usdc(10), usdc(50));
    ledger.set_leverage(&eth_perp(), usdc(5), usdc(50));
    let fee = Decimal::new(25, 2);
    ledger.apply_perp_fill(&eth_perp(), OrderSide::Sell, usdc(50), usdc(2), fee);
    let short = ledger.position(&eth_perp()).unwrap().clone();
    // Open, add, close a part, close the rest, open again, turn around.
    let fills = [
        (OrderSide::Buy, 100, 4, 0, 4),
        (OrderSide::Buy, 120, 4, 0, 8),
        (OrderSide::Sell, 130, 2, 40, 6),
        (OrderSide::Sell, 100, 6, -60, 0),
        (OrderSide::Sell, 100, 2, 0, -2),
        (OrderSide::Buy, 90, 4, 20, 2),
    ];
    for (side, price, qty, profit, held) in fills {
        let cash = |l: &MarginLedger| {
            l.free_usdc().checked_add(l.total_reserved_margin()).unwrap()
        };
        let before = cash(&ledger);
        let realized = ledger.apply_perp_fill(&btc_perp(), side, usdc(price), usdc(qty), fee);
        assert_eq!(realized, usdc(profit));
        let owed = before.checked_add(realized).unwrap().checked_sub(fee).unwrap();
        assert_eq!(cash(&ledger), owed);
        assert_eq!(ledger.position_qty(&btc_perp()), usdc(held));
        if held == 0 {
            let flat = ledger.position(&btc_perp()).unwrap();
            assert_eq!(flat.isolated_margin_reserved, Decimal::zero());
        }
        let other = ledger.position(&eth_perp()).unwrap();
        assert_eq!(other.qty, short.qty);
        assert_eq!(other.isolated_margin_reserved, short.isolated_margin_reserved);
    }
}
