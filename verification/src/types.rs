//! Identifiers, prices, orders, quotes, balances and positions.
use vstd::prelude::*;
use vstd::string::*;
use crate::decimal;
use crate::decimal::{Decimal, DecimalView, sum, difference, product, quotient};
use crate::text::join2;

verus! {

/// The name of a traded instrument, such as `BTC-PERP`.
#[derive(Debug, PartialEq, Eq, Hash)]
pub struct InstrumentId(pub String);

impl InstrumentId {
    /// The text of the id.
    pub open spec fn view(&self) -> Seq<char> {
        self.0@
    }

    /// The id with the given text.
    pub fn new(s: &str) -> (r: InstrumentId)
        ensures
            r@ == s@,
    {
        InstrumentId(s.to_owned())
    }

    /// The text of the id.
    pub fn as_str(&self) -> (r: &str)
        ensures
            r@ == self@,
    {
        self.0.as_str()
    }

    /// Whether two ids have the same text.
    pub fn same(&self, other: &InstrumentId) -> (r: bool)
        ensures
            r == (self@ == other@),
    {
        self.0 == other.0
    }
}

impl Clone for InstrumentId {
    fn clone(&self) -> (r: InstrumentId)
        ensures
            r == *self,
    {
        InstrumentId(self.0.clone())
    }
}

/// The name of an asset, such as `USDC`.
#[derive(Debug, PartialEq, Eq, Hash)]
pub struct AssetId(pub String);

impl AssetId {
    /// The text of the id.
    pub open spec fn view(&self) -> Seq<char> {
        self.0@
    }

    /// The id with the given text.
    pub fn new(s: &str) -> (r: AssetId)
        ensures
            r@ == s@,
    {
        AssetId(s.to_owned())
    }

    /// The text of the id.
    pub fn as_str(&self) -> (r: &str)
        ensures
            r@ == self@,
    {
        self.0.as_str()
    }

    /// Whether two ids have the same text.
    pub fn same(&self, other: &AssetId) -> (r: bool)
        ensures
            r == (self@ == other@),
    {
        self.0 == other.0
    }
}

impl Clone for AssetId {
    fn clone(&self) -> (r: AssetId)
        ensures
            r == *self,
    {
        AssetId(self.0.clone())
    }
}

/// The name of a strategy instance.
#[derive(Debug, PartialEq, Eq, Hash)]
pub struct StrategyId(pub String);

impl StrategyId {
    /// The text of the id.
    pub open spec fn view(&self) -> Seq<char> {
        self.0@
    }

    /// The id with the given text.
    pub fn new(s: &str) -> (r: StrategyId)
        ensures
            r@ == s@,
    {
        StrategyId(s.to_owned())
    }

    /// The text of the id.
    pub fn as_str(&self) -> (r: &str)
        ensures
            r@ == self@,
    {
        self.0.as_str()
    }

    /// Whether two ids have the same text.
    pub fn same(&self, other: &StrategyId) -> (r: bool)
        ensures
            r == (self@ == other@),
    {
        self.0 == other.0
    }
}

impl Clone for StrategyId {
    fn clone(&self) -> (r: StrategyId)
        ensures
            r == *self,
    {
        StrategyId(self.0.clone())
    }
}

/// The id that the client gives an order.
#[derive(Debug, PartialEq, Eq, Hash)]
pub struct ClientOrderId(pub String);

impl ClientOrderId {
    /// The text of the id.
    pub open spec fn view(&self) -> Seq<char> {
        self.0@
    }

    /// The id with the given text.
    pub fn new(s: &str) -> (r: ClientOrderId)
        ensures
            r@ == s@,
    {
        ClientOrderId(s.to_owned())
    }

    /// The text of the id.
    pub fn as_str(&self) -> (r: &str)
        ensures
            r@ == self@,
    {
        self.0.as_str()
    }

    /// Whether two ids have the same text.
    pub fn same(&self, other: &ClientOrderId) -> (r: bool)
        ensures
            r == (self@ == other@),
    {
        self.0 == other.0
    }
}

impl Clone for ClientOrderId {
    fn clone(&self) -> (r: ClientOrderId)
        ensures
            r == *self,
    {
        ClientOrderId(self.0.clone())
    }
}

/// The id that the exchange gives an order.
#[derive(Debug, PartialEq, Eq, Hash)]
pub struct ExchangeOrderId(pub String);

impl ExchangeOrderId {
    /// The text of the id.
    pub open spec fn view(&self) -> Seq<char> {
        self.0@
    }

    /// The id with the given text.
    pub fn new(s: &str) -> (r: ExchangeOrderId)
        ensures
            r@ == s@,
    {
        ExchangeOrderId(s.to_owned())
    }

    /// The text of the id.
    pub fn as_str(&self) -> (r: &str)
        ensures
            r@ == self@,
    {
        self.0.as_str()
    }

    /// Whether two ids have the same text.
    pub fn same(&self, other: &ExchangeOrderId) -> (r: bool)
        ensures
            r == (self@ == other@),
    {
        self.0 == other.0
    }
}

impl Clone for ExchangeOrderId {
    fn clone(&self) -> (r: ExchangeOrderId)
        ensures
            r == *self,
    {
        ExchangeOrderId(self.0.clone())
    }
}

/// The id of a trade.
#[derive(Debug, PartialEq, Eq, Hash)]
pub struct TradeId(pub String);

impl TradeId {
    /// The text of the id.
    pub open spec fn view(&self) -> Seq<char> {
        self.0@
    }

    /// The id with the given text.
    pub fn new(s: &str) -> (r: TradeId)
        ensures
            r@ == s@,
    {
        TradeId(s.to_owned())
    }

    /// The text of the id.
    pub fn as_str(&self) -> (r: &str)
        ensures
            r@ == self@,
    {
        self.0.as_str()
    }

    /// Whether two ids have the same text.
    pub fn same(&self, other: &TradeId) -> (r: bool)
        ensures
            r == (self@ == other@),
    {
        self.0 == other.0
    }
}

impl Clone for TradeId {
    fn clone(&self) -> (r: TradeId)
        ensures
            r == *self,
    {
        TradeId(self.0.clone())
    }
}

/// The name of an exchange.
#[derive(Debug, PartialEq, Eq, Hash)]
pub struct ExchangeId(pub String);

impl ExchangeId {
    /// The text of the id.
    pub open spec fn view(&self) -> Seq<char> {
        self.0@
    }

    /// The id with the given text.
    pub fn new(s: &str) -> (r: ExchangeId)
        ensures
            r@ == s@,
    {
        ExchangeId(s.to_owned())
    }

    /// The text of the id.
    pub fn as_str(&self) -> (r: &str)
        ensures
            r@ == self@,
    {
        self.0.as_str()
    }

    /// Whether two ids have the same text.
    pub fn same(&self, other: &ExchangeId) -> (r: bool)
        ensures
            r == (self@ == other@),
    {
        self.0 == other.0
    }
}

impl Clone for ExchangeId {
    fn clone(&self) -> (r: ExchangeId)
        ensures
            r == *self,
    {
        ExchangeId(self.0.clone())
    }
}

/// The last `width` hexadecimal digits of `n`, with leading zeros.
pub open spec fn hex_word(n: nat, width: nat) -> Seq<char>
    decreases width,
{
    if width == 0 {
        Seq::empty()
    } else {
        hex_word(n / 16, (width - 1) as nat).push("0123456789abcdef"@[(n % 16) as int])
    }
}

fn hex_text(n: u64, width: u32) -> (r: String)
    ensures
        r@ == hex_word(n as nat, width as nat),
    decreases width,
{
    if width == 0 {
        String::new()
    } else {
        let mut s = hex_text(n / 16, width - 1);
        proof {
            reveal_strlit("0123456789abcdef");
        }
        let d: usize = (n % 16) as usize;
        let digit = "0123456789abcdef".substring_char(d, d + 1);
        s.append(digit);
        assert(s@ =~= hex_word(n as nat / 16, (width - 1) as nat).push(
            "0123456789abcdef"@[(n as nat % 16) as int],
        ));
        s
    }
}

/// A word from the random state that `std::collections::hash_map::RandomState` draws for
/// itself. Nothing is claimed of it.
#[verifier::external_body]
fn random_word() -> (r: u64) {
    std::hash::Hasher::finish(
        &std::hash::BuildHasher::build_hasher(&std::collections::hash_map::RandomState::new()),
    )
}

impl ClientOrderId {
    /// `0x` and the sixteen hexadecimal digits of each word.
    pub open spec fn words_text(high: u64, low: u64) -> Seq<char> {
        "0x"@ + hex_word(high as nat, 16) + hex_word(low as nat, 16)
    }

    /// The id made of two words.
    pub fn from_words(high: u64, low: u64) -> (r: ClientOrderId)
        ensures
            r@ == ClientOrderId::words_text(high, low),
    {
        ClientOrderId(
            join2("0x", hex_text(high, 16).as_str()).concat(hex_text(low, 16).as_str()),
        )
    }

    /// A fresh id: `0x` and thirty-two hexadecimal digits.
    pub fn generate() -> (r: ClientOrderId)
        ensures
            exists|high: u64, low: u64| r@ == #[trigger] ClientOrderId::words_text(high, low),
    {
        let high: u64 = random_word();
        let low: u64 = random_word();
        ClientOrderId::from_words(high, low)
    }
}

/// Milliseconds since the start of 1970, from `std::time::SystemTime::now`. Nothing is
/// claimed of the value.
#[verifier::external_body]
pub fn now_ms() -> (r: i64) {
    match std::time::SystemTime::now().duration_since(std::time::UNIX_EPOCH) {
        Ok(d) => d.as_millis() as i64,
        Err(_) => 0,
    }
}

/// A price.
#[derive(Debug, Clone, Copy, PartialEq)]
pub struct Price(pub Decimal);

/// A quantity.
#[derive(Debug, Clone, Copy, PartialEq)]
pub struct Qty(pub Decimal);

impl Price {
    /// The price of the given amount.
    pub fn new(v: Decimal) -> (r: Price)
        ensures
            r == Price(v),
    {
        Price(v)
    }
}

impl Qty {
    /// The given quantity.
    pub fn new(v: Decimal) -> (r: Qty)
        ensures
            r == Qty(v),
    {
        Qty(v)
    }
}

/// The number of a market on its exchange.
#[derive(Debug, Clone, Copy, PartialEq, Eq, Structural)]
pub struct MarketIndex(pub u32);

impl MarketIndex {
    /// The market with the given number.
    pub fn new(v: u32) -> (r: MarketIndex)
        ensures
            r == MarketIndex(v),
    {
        MarketIndex(v)
    }

    /// The number.
    pub fn value(&self) -> (r: u32)
        ensures
            r == self.0,
    {
        self.0
    }
}

/// The number of a timer.
#[derive(Debug, Clone, Copy, PartialEq, Eq, Structural)]
pub struct TimerId(pub u64);

impl TimerId {
    /// The timer with the given number.
    pub fn new(v: u64) -> (r: TimerId)
        ensures
            r == TimerId(v),
    {
        TimerId(v)
    }
}

/// Where an exchange is reached.
#[derive(Debug, Clone, Copy, PartialEq, Eq, Structural)]
pub enum Environment {
    /// The production network.
    Mainnet,
    /// The test network.
    Testnet,
}

/// What an instrument is.
#[derive(Debug, Clone, Copy, PartialEq, Eq, Structural)]
pub enum InstrumentKind {
    /// Bought and sold against a quote asset.
    Spot,
    /// A perpetual future held on margin.
    Perp,
    /// One side of a binary event.
    Outcome,
}

impl InstrumentKind {
    /// The instrument is held as an asset: spot markets and outcomes.
    pub open spec fn spot_like(self) -> bool {
        self is Spot || self is Outcome
    }

    /// Whether the instrument is held as an asset.
    pub fn is_spot_like(&self) -> (r: bool)
        ensures
            r == self.spot_like(),
    {
        match self {
            InstrumentKind::Perp => false,
            _ => true,
        }
    }
}

/// The side of an order.
#[derive(Debug, Clone, Copy, PartialEq, Eq, Structural)]
pub enum OrderSide {
    Buy,
    Sell,
}

impl OrderSide {
    /// The name of the side.
    pub open spec fn text(self) -> Seq<char> {
        match self {
            OrderSide::Buy => "BUY"@,
            OrderSide::Sell => "SELL"@,
        }
    }

    /// The name of the side.
    pub fn to_string(&self) -> (r: String)
        ensures
            r@ == self.text(),
    {
        match self {
            OrderSide::Buy => "BUY".to_owned(),
            OrderSide::Sell => "SELL".to_owned(),
        }
    }
}

/// How long an order stands.
#[derive(Debug, Clone, Copy, PartialEq, Eq, Structural)]
pub enum TimeInForce {
    /// Until it is canceled.
    Gtc,
    /// What cannot be filled at once is canceled.
    Ioc,
    /// Filled whole at once or not at all.
    Fok,
}

/// The state of an order.
#[derive(Debug, Clone, Copy, PartialEq, Eq, Structural)]
pub enum OrderStatus {
    New,
    Accepted,
    PartiallyFilled,
    Filled,
    Canceled,
    Rejected,
}

impl OrderStatus {
    /// No further change follows.
    pub open spec fn terminal(self) -> bool {
        self is Filled || self is Canceled || self is Rejected
    }

    /// Whether no further change follows.
    pub fn is_terminal(&self) -> (r: bool)
        ensures
            r == self.terminal(),
    {
        match self {
            OrderStatus::Filled | OrderStatus::Canceled | OrderStatus::Rejected => true,
            _ => false,
        }
    }
}

/// How a strategy learns what was executed.
#[derive(Debug, Clone, Copy, PartialEq, Eq, Structural)]
pub enum SyncMechanism {
    /// From each fill.
    Poll,
    /// From the whole account.
    Snapshot,
}

impl Default for SyncMechanism {
    fn default() -> (r: SyncMechanism)
        ensures
            r == SyncMechanism::Poll,
    {
        SyncMechanism::Poll
    }
}

/// Whether an exchange takes requests.
#[derive(Debug, Clone, Copy, PartialEq, Eq, Structural)]
pub enum ExchangeHealth {
    Active,
    Halted,
}

impl Default for ExchangeHealth {
    fn default() -> (r: ExchangeHealth)
        ensures
            r == ExchangeHealth::Active,
    {
        ExchangeHealth::Active
    }
}

/// An exchange in one of its environments.
#[derive(Debug, PartialEq)]
pub struct ExchangeInstance {
    pub exchange_id: ExchangeId,
    pub environment: Environment,
}

impl Clone for ExchangeInstance {
    fn clone(&self) -> (r: ExchangeInstance)
        ensures
            r == *self,
    {
        ExchangeInstance {
            exchange_id: self.exchange_id.clone(),
            environment: self.environment,
        }
    }
}

impl ExchangeInstance {
    /// The exchange `exchange_id` in `environment`.
    pub fn new(exchange_id: ExchangeId, environment: Environment) -> (r: ExchangeInstance)
        ensures
            r == (ExchangeInstance { exchange_id, environment }),
    {
        ExchangeInstance { exchange_id, environment }
    }

    /// The two instances are the same exchange in the same environment.
    pub open spec fn is_same(&self, other: &ExchangeInstance) -> bool {
        self.exchange_id@ == other.exchange_id@ && self.environment == other.environment
    }

    /// Whether the two are the same exchange in the same environment.
    pub fn same(&self, other: &ExchangeInstance) -> (r: bool)
        ensures
            r == self.is_same(other),
    {
        self.exchange_id.same(&other.exchange_id) && self.environment == other.environment
    }
}

/// A fee.
#[derive(Debug, PartialEq)]
pub struct Fee {
    pub amount: Decimal,
    pub asset: AssetId,
}

impl Clone for Fee {
    fn clone(&self) -> (r: Fee)
        ensures
            r == *self,
    {
        Fee {
            amount: self.amount,
            asset: self.asset.clone(),
        }
    }
}

impl Fee {
    /// A fee of `amount` in `asset`.
    pub fn new(amount: Decimal, asset: AssetId) -> (r: Fee)
        ensures
            r == (Fee { amount, asset }),
    {
        Fee { amount, asset }
    }
}

/// What an account holds of an asset.
#[derive(Debug, Clone, Copy, PartialEq)]
pub struct Balance {
    pub total: Decimal,
    pub available: Decimal,
    pub reserved: Decimal,
}

impl Balance {
    /// A balance with the given amounts.
    pub fn new(total: Decimal, available: Decimal, reserved: Decimal) -> (r: Balance)
        ensures
            r == (Balance { total, available, reserved }),
    {
        Balance { total, available, reserved }
    }

    /// Nothing.
    pub open spec fn none() -> Balance {
        Balance { total: decimal::zero(), available: decimal::zero(), reserved: decimal::zero() }
    }

    /// Nothing.
    pub fn zero() -> (r: Balance)
        ensures
            r == Balance::none(),
    {
        Balance { total: Decimal::zero(), available: Decimal::zero(), reserved: Decimal::zero() }
    }
}

impl Default for Balance {
    fn default() -> (r: Balance)
        ensures
            r == Balance::none(),
    {
        Balance::zero()
    }
}

/// Halfway between two prices.
pub open spec fn halfway(bid: Decimal, ask: Decimal) -> Option<Decimal> {
    decimal::over(decimal::plus(Some(bid), Some(ask)), Some(Decimal::lit(2, 0)))
}

/// Halfway between two prices, where the sum is not too large.
pub fn try_halfway(bid: Decimal, ask: Decimal) -> (r: Option<Decimal>)
    ensures
        r == halfway(bid, ask),
{
    quotient(sum(Some(bid), Some(ask)), Some(Decimal::new(2, 0)))
}

/// The best bid and ask of an instrument.
#[derive(Debug, PartialEq)]
pub struct Quote {
    pub instrument: InstrumentId,
    pub bid: Price,
    pub ask: Price,
    pub bid_size: Qty,
    pub ask_size: Qty,
    /// Milliseconds since the start of 1970.
    pub ts: i64,
}

impl Clone for Quote {
    fn clone(&self) -> (r: Quote)
        ensures
            r == *self,
    {
        Quote {
            instrument: self.instrument.clone(),
            bid: self.bid,
            ask: self.ask,
            bid_size: self.bid_size,
            ask_size: self.ask_size,
            ts: self.ts,
        }
    }
}

impl Quote {
    /// The price halfway between bid and ask.
    pub open spec fn mid_of(&self) -> Option<Decimal> {
        halfway(self.bid.0, self.ask.0)
    }

    /// The price halfway between bid and ask.
    pub fn mid(&self) -> (r: Price)
        requires
            self.mid_of() is Some,
        ensures
            Some(r.0) == self.mid_of(),
    {
        Price(try_halfway(self.bid.0, self.ask.0).unwrap())
    }

    /// The price halfway between bid and ask, where it is not too large.
    pub fn try_mid(&self) -> (r: Option<Price>)
        ensures
            r == (match self.mid_of() {
                Some(p) => Some(Price(p)),
                None => None,
            }),
    {
        match try_halfway(self.bid.0, self.ask.0) {
            Some(p) => Some(Price(p)),
            None => None,
        }
    }

    /// Ask less bid.
    pub open spec fn spread_of(&self) -> Option<Decimal> {
        decimal::minus(Some(self.ask.0), Some(self.bid.0))
    }

    /// Ask less bid, where it is not too large.
    pub fn try_spread(&self) -> (r: Option<Decimal>)
        ensures
            r == self.spread_of(),
    {
        self.ask.0.checked_sub(self.bid.0)
    }

    /// Ask less bid.
    pub fn spread(&self) -> (r: Decimal)
        requires
            self.spread_of() is Some,
        ensures
            Some(r) == self.spread_of(),
    {
        self.try_spread().unwrap()
    }

    /// The spread in ten-thousandths of the middle price, and zero where that is zero.
    pub open spec fn spread_bps_of(&self) -> Option<Decimal> {
        match self.mid_of() {
            Some(mid) => if mid.m() == 0 {
                Some(decimal::zero())
            } else {
                decimal::times(decimal::over(self.spread_of(), Some(mid)), Some(Decimal::lit(10_000, 0)))
            },
            None => None,
        }
    }

    /// The spread in ten-thousandths of the middle price, where no step is too large.
    pub fn try_spread_bps(&self) -> (r: Option<Decimal>)
        ensures
            r == self.spread_bps_of(),
    {
        match try_halfway(self.bid.0, self.ask.0) {
            Some(mid) => if mid.is_zero() {
                Some(Decimal::zero())
            } else {
                product(quotient(self.try_spread(), Some(mid)), Some(Decimal::new(10_000, 0)))
            },
            None => None,
        }
    }

    /// The spread in ten-thousandths of the middle price.
    pub fn spread_bps(&self) -> (r: Decimal)
        requires
            self.spread_bps_of() is Some,
        ensures
            Some(r) == self.spread_bps_of(),
    {
        self.try_spread_bps().unwrap()
    }
}

/// What is held of an instrument, long above zero and short below.
#[derive(Debug, Clone, Copy, PartialEq)]
pub struct Position {
    pub qty: Decimal,
    pub avg_entry_px: Option<Price>,
    pub unrealized_pnl: Option<Decimal>,
    pub realized_pnl: Decimal,
    pub total_fees: Decimal,
}

impl Position {
    /// Nothing held, nothing earned.
    pub open spec fn flat() -> Position {
        Position {
            qty: decimal::zero(),
            avg_entry_px: None,
            unrealized_pnl: None,
            realized_pnl: decimal::zero(),
            total_fees: decimal::zero(),
        }
    }

    /// What the position has earned, held profit included and fees taken off.
    pub open spec fn pnl(self) -> Option<Decimal> {
        decimal::minus(
            decimal::plus(
                Some(self.realized_pnl),
                Some(match self.unrealized_pnl {
                    Some(u) => u,
                    None => decimal::zero(),
                }),
            ),
            Some(self.total_fees),
        )
    }

    /// What the position has earned, where no step is too large.
    pub fn try_current_pnl(&self) -> (r: Option<Decimal>)
        ensures
            r == self.pnl(),
    {
        let held = match self.unrealized_pnl {
            Some(u) => u,
            None => Decimal::zero(),
        };
        difference(sum(Some(self.realized_pnl), Some(held)), Some(self.total_fees))
    }

    /// What the position has earned.
    pub fn current_pnl(&self) -> (r: Decimal)
        requires
            self.pnl() is Some,
        ensures
            Some(r) == self.pnl(),
    {
        self.try_current_pnl().unwrap()
    }
}

impl Default for Position {
    fn default() -> (r: Position)
        ensures
            r == Position::flat(),
    {
        Position {
            qty: Decimal::zero(),
            avg_entry_px: None,
            unrealized_pnl: None,
            realized_pnl: Decimal::zero(),
            total_fees: Decimal::zero(),
        }
    }
}

/// A position as the exchange reports it.
#[derive(Debug, PartialEq)]
pub struct PositionSnapshot {
    pub instrument: InstrumentId,
    pub qty: Decimal,
    pub avg_entry_px: Option<Price>,
    pub unrealized_pnl: Option<Decimal>,
    pub liquidation_px: Option<Decimal>,
}

impl Clone for PositionSnapshot {
    fn clone(&self) -> (r: PositionSnapshot)
        ensures
            r == *self,
    {
        PositionSnapshot {
            instrument: self.instrument.clone(),
            qty: self.qty,
            avg_entry_px: self.avg_entry_px,
            unrealized_pnl: self.unrealized_pnl,
            liquidation_px: self.liquidation_px,
        }
    }
}

/// An account as the exchange reports it.
#[derive(Debug)]
pub struct AccountState {
    pub positions: Vec<PositionSnapshot>,
    pub account_value: Option<Decimal>,
    pub unrealized_pnl: Option<Decimal>,
}

/// An order that the engine tracks.
#[derive(Debug, PartialEq)]
pub struct LiveOrder {
    pub client_id: ClientOrderId,
    pub exchange_order_id: Option<ExchangeOrderId>,
    pub instrument: InstrumentId,
    pub side: OrderSide,
    pub price: Price,
    pub requested_qty: Qty,
    pub filled_qty: Qty,
    pub avg_fill_px: Option<Price>,
    pub status: OrderStatus,
    pub ts_created: i64,
    pub ts_last_update: i64,
}

impl Clone for LiveOrder {
    fn clone(&self) -> (r: LiveOrder)
        ensures
            r == *self,
    {
        LiveOrder {
            client_id: self.client_id.clone(),
            exchange_order_id: match &self.exchange_order_id {
                Some(x) => Some(x.clone()),
                None => None,
            },
            instrument: self.instrument.clone(),
            side: self.side,
            price: self.price,
            requested_qty: self.requested_qty,
            filled_qty: self.filled_qty,
            avg_fill_px: self.avg_fill_px,
            status: self.status,
            ts_created: self.ts_created,
            ts_last_update: self.ts_last_update,
        }
    }
}

impl LiveOrder {
    /// All that was asked for is filled.
    pub open spec fn complete(&self) -> bool {
        decimal::le(self.requested_qty.0, self.filled_qty.0)
    }

    /// Whether all that was asked for is filled.
    pub fn is_complete(&self) -> (r: bool)
        ensures
            r == self.complete(),
    {
        self.requested_qty.0.at_most(self.filled_qty.0)
    }
}

/// What is known of an instrument.
#[derive(Debug, PartialEq)]
pub struct InstrumentMeta {
    pub instrument_id: InstrumentId,
    pub market_index: MarketIndex,
    pub base_asset: AssetId,
    pub quote_asset: AssetId,
    /// The step of prices.
    pub tick_size: Decimal,
    /// The step of quantities.
    pub lot_size: Decimal,
    pub min_qty: Option<Decimal>,
    pub min_notional: Option<Decimal>,
    pub fee_asset_default: Option<AssetId>,
    pub kind: InstrumentKind,
}

impl Clone for InstrumentMeta {
    fn clone(&self) -> (r: InstrumentMeta)
        ensures
            r == *self,
    {
        InstrumentMeta {
            instrument_id: self.instrument_id.clone(),
            market_index: self.market_index,
            base_asset: self.base_asset.clone(),
            quote_asset: self.quote_asset.clone(),
            tick_size: self.tick_size,
            lot_size: self.lot_size,
            min_qty: self.min_qty,
            min_notional: self.min_notional,
            fee_asset_default: match &self.fee_asset_default {
                Some(x) => Some(x.clone()),
                None => None,
            },
            kind: self.kind,
        }
    }
}

/// The whole number nearest to `v`, the even one where two are as near.
pub open spec fn nearest_whole(v: DecimalView) -> int {
    let a = if v.mantissa < 0 {
        -v.mantissa
    } else {
        v.mantissa
    };
    let p = decimal::pow10(v.scale);
    let up = 2 * (a % p) > p || (2 * (a % p) == p && (a / p) % 2 == 1);
    let n = a / p + if up {
        1int
    } else {
        0
    };
    if v.mantissa < 0 {
        -n
    } else {
        n
    }
}

/// The price on the nearest step, and the price itself where the step is zero.
pub open spec fn on_tick(price: Decimal, tick: Decimal) -> Option<Decimal> {
    if tick.m() == 0 {
        Some(price)
    } else {
        match decimal::over(Some(price), Some(tick)) {
            Some(steps) => decimal::times(Some(Decimal::lit(nearest_whole(steps@), 0)), Some(tick)),
            None => None,
        }
    }
}

/// The quantity cut down to a whole number of steps, and the quantity itself where the
/// step is zero.
pub open spec fn on_lot(qty: Decimal, lot: Decimal) -> Option<Decimal> {
    if lot.m() == 0 {
        Some(qty)
    } else {
        match decimal::over(Some(qty), Some(lot)) {
            Some(steps) => decimal::times(
                Some(Decimal::lit(steps.m() / decimal::pow10(steps.s()), 0)),
                Some(lot),
            ),
            None => None,
        }
    }
}

impl InstrumentMeta {
    /// The price on the nearest step, where no number is too large.
    pub fn try_round_price(&self, price: Price) -> (r: Option<Price>)
        ensures
            r == (match on_tick(price.0, self.tick_size) {
                Some(p) => Some(Price(p)),
                None => None,
            }),
    {
        if self.tick_size.is_zero() {
            return Some(price);
        }
        match price.0.checked_div(self.tick_size) {
            Some(steps) => match product(Some(steps.round_half_even()), Some(self.tick_size)) {
                Some(p) => Some(Price(p)),
                None => None,
            },
            None => None,
        }
    }

    /// The price on the nearest step.
    pub fn round_price(&self, price: Price) -> (r: Price)
        requires
            on_tick(price.0, self.tick_size) is Some,
        ensures
            Some(r.0) == on_tick(price.0, self.tick_size),
    {
        self.try_round_price(price).unwrap()
    }

    /// The quantity cut down to a whole number of steps, where no number is too large.
    pub fn try_round_qty(&self, qty: Qty) -> (r: Option<Qty>)
        ensures
            r == (match on_lot(qty.0, self.lot_size) {
                Some(q) => Some(Qty(q)),
                None => None,
            }),
    {
        if self.lot_size.is_zero() {
            return Some(qty);
        }
        match qty.0.checked_div(self.lot_size) {
            Some(steps) => match product(Some(steps.floor()), Some(self.lot_size)) {
                Some(q) => Some(Qty(q)),
                None => None,
            },
            None => None,
        }
    }

    /// The quantity cut down to a whole number of steps.
    pub fn round_qty(&self, qty: Qty) -> (r: Qty)
        requires
            on_lot(qty.0, self.lot_size) is Some,
        ensures
            Some(r.0) == on_lot(qty.0, self.lot_size),
    {
        self.try_round_qty(qty).unwrap()
    }
}

} // verus!
