//! The configuration of a bot: what it trades, with which strategy, and how a strategy is
//! set up from it.
use vstd::prelude::*;
use vstd::string::*;
use crate::text;
use crate::strmap;
use crate::decimal;
use crate::decimal::{Decimal, sum, difference, product, quotient};
use crate::market::{Hip3MarketConfig, HyperliquidMarket, InstrumentMetaConfig, Market};
use crate::strmap::StrMap;
use crate::text::{join2, join3, same_text, lowercased};
use crate::types::{AssetId, Environment, InstrumentId, InstrumentMeta, MarketIndex, StrategyId};

verus! {

/// The section of the market maker. Numbers are texts.
#[derive(Debug)]
pub struct MMConfigJson {
    /// In the base asset.
    pub base_order_size: String,
    pub base_spread: String,
    /// In the base asset.
    pub max_position_size: String,
    /// `both`, `size`, `price` or `none`.
    pub skew_mode: String,
    pub price_skew_gamma: String,
    pub size_skew_floor: String,
    pub min_price_change_pct: String,
    pub stop_loss: Option<String>,
    pub take_profit: Option<String>,
}

impl Clone for MMConfigJson {
    fn clone(&self) -> (r: MMConfigJson)
        ensures
            r == *self,
    {
        MMConfigJson {
            base_order_size: self.base_order_size.clone(),
            base_spread: self.base_spread.clone(),
            max_position_size: self.max_position_size.clone(),
            skew_mode: self.skew_mode.clone(),
            price_skew_gamma: self.price_skew_gamma.clone(),
            size_skew_floor: self.size_skew_floor.clone(),
            min_price_change_pct: self.min_price_change_pct.clone(),
            stop_loss: match &self.stop_loss {
                Some(x) => Some(x.clone()),
                None => None,
            },
            take_profit: match &self.take_profit {
                Some(x) => Some(x.clone()),
                None => None,
            },
        }
    }
}

/// The section of the grid strategy. Numbers are texts.
#[derive(Debug)]
pub struct GridConfigJson {
    /// `long`, `short` or `neutral`.
    pub mode: String,
    pub levels: u32,
    pub start_price: String,
    pub end_price: String,
    /// In the quote asset.
    pub max_investment_quote: String,
    pub leverage: String,
    pub max_leverage: String,
    pub post_only: bool,
    pub stop_loss: Option<String>,
    pub take_profit: Option<String>,
    /// How far the grid may slide up.
    pub trailing_up_limit: Option<String>,
    /// How far the grid may slide down.
    pub trailing_down_limit: Option<String>,
}

impl Clone for GridConfigJson {
    fn clone(&self) -> (r: GridConfigJson)
        ensures
            r == *self,
    {
        GridConfigJson {
            mode: self.mode.clone(),
            levels: self.levels,
            start_price: self.start_price.clone(),
            end_price: self.end_price.clone(),
            max_investment_quote: self.max_investment_quote.clone(),
            leverage: self.leverage.clone(),
            max_leverage: self.max_leverage.clone(),
            post_only: self.post_only,
            stop_loss: match &self.stop_loss {
                Some(x) => Some(x.clone()),
                None => None,
            },
            take_profit: match &self.take_profit {
                Some(x) => Some(x.clone()),
                None => None,
            },
            trailing_up_limit: match &self.trailing_up_limit {
                Some(x) => Some(x.clone()),
                None => None,
            },
            trailing_down_limit: match &self.trailing_down_limit {
                Some(x) => Some(x.clone()),
                None => None,
            },
        }
    }
}

/// The section of the arbitrage strategy. Numbers are texts.
#[derive(Debug)]
pub struct ArbitrageConfigJson {
    /// In the quote asset.
    pub order_amount: String,
    pub perp_leverage: String,
    pub min_opening_spread_pct: String,
    pub min_closing_spread_pct: String,
    pub spot_slippage_buffer_pct: String,
    pub perp_slippage_buffer_pct: String,
}

impl Clone for ArbitrageConfigJson {
    fn clone(&self) -> (r: ArbitrageConfigJson)
        ensures
            r == *self,
    {
        ArbitrageConfigJson {
            order_amount: self.order_amount.clone(),
            perp_leverage: self.perp_leverage.clone(),
            min_opening_spread_pct: self.min_opening_spread_pct.clone(),
            min_closing_spread_pct: self.min_closing_spread_pct.clone(),
            spot_slippage_buffer_pct: self.spot_slippage_buffer_pct.clone(),
            perp_slippage_buffer_pct: self.perp_slippage_buffer_pct.clone(),
        }
    }
}

/// The section of the averaging strategy. Numbers are texts.
#[derive(Debug)]
pub struct DCAConfigJson {
    /// `long` or `short`.
    pub direction: String,
    /// The price of the base order.
    pub trigger_price: String,
    /// In the base asset.
    pub base_order_size: String,
    /// In the base asset.
    pub dca_order_size: String,
    pub max_dca_orders: u32,
    pub size_multiplier: String,
    /// In percent.
    pub price_deviation_pct: String,
    pub deviation_multiplier: String,
    /// In percent.
    pub take_profit_pct: String,
    pub stop_loss: Option<String>,
    pub leverage: String,
    pub max_leverage: String,
    pub restart_on_complete: bool,
    pub cooldown_period_secs: u64,
}

impl Clone for DCAConfigJson {
    fn clone(&self) -> (r: DCAConfigJson)
        ensures
            r == *self,
    {
        DCAConfigJson {
            direction: self.direction.clone(),
            trigger_price: self.trigger_price.clone(),
            base_order_size: self.base_order_size.clone(),
            dca_order_size: self.dca_order_size.clone(),
            max_dca_orders: self.max_dca_orders,
            size_multiplier: self.size_multiplier.clone(),
            price_deviation_pct: self.price_deviation_pct.clone(),
            deviation_multiplier: self.deviation_multiplier.clone(),
            take_profit_pct: self.take_profit_pct.clone(),
            stop_loss: match &self.stop_loss {
                Some(x) => Some(x.clone()),
                None => None,
            },
            leverage: self.leverage.clone(),
            max_leverage: self.max_leverage.clone(),
            restart_on_complete: self.restart_on_complete,
            cooldown_period_secs: self.cooldown_period_secs,
        }
    }
}

/// A fee for the builder of a client.
#[derive(Debug)]
pub struct BuilderFeeConfig {
    pub address: String,
    /// Tenths of a basis point.
    pub fee_tenths_bp: u32,
}

impl Clone for BuilderFeeConfig {
    fn clone(&self) -> (r: BuilderFeeConfig)
        ensures
            r == *self,
    {
        BuilderFeeConfig {
            address: self.address.clone(),
            fee_tenths_bp: self.fee_tenths_bp,
        }
    }
}

/// Where trades are reported.
#[derive(Debug)]
pub struct SyncConfigJson {
    pub bot_id: String,
    pub upstream_url: String,
    pub sync_interval_ms: u64,
    pub timeout_secs: u64,
    /// Sent along as a header.
    pub sync_secret: Option<String>,
    pub enabled: bool,
}

impl Clone for SyncConfigJson {
    fn clone(&self) -> (r: SyncConfigJson)
        ensures
            r == *self,
    {
        SyncConfigJson {
            bot_id: self.bot_id.clone(),
            upstream_url: self.upstream_url.clone(),
            sync_interval_ms: self.sync_interval_ms,
            timeout_secs: self.timeout_secs,
            sync_secret: match &self.sync_secret {
                Some(x) => Some(x.clone()),
                None => None,
            },
            enabled: self.enabled,
        }
    }
}

/// How paper trading and backtests start. Numbers are texts.
#[derive(Debug)]
pub struct SimulationConfig {
    pub starting_balance_usdc: String,
    pub fee_rate: String,
}

impl Clone for SimulationConfig {
    fn clone(&self) -> (r: SimulationConfig)
        ensures
            r == *self,
    {
        SimulationConfig {
            starting_balance_usdc: self.starting_balance_usdc.clone(),
            fee_rate: self.fee_rate.clone(),
        }
    }
}

/// What stands for `dca_direction` where nothing is set.
pub fn default_dca_direction() -> (r: String)
    ensures
        r@ == "long"@,
{
    "long".to_owned()
}

/// What stands for `max_dca_orders` where nothing is set.
pub fn default_max_dca_orders() -> (r: u32)
    ensures
        r == 5,
{
    5
}

/// What stands for `size_multiplier` where nothing is set.
pub fn default_size_multiplier() -> (r: String)
    ensures
        r@ == "2.0"@,
{
    "2.0".to_owned()
}

/// What stands for `deviation_multiplier` where nothing is set.
pub fn default_deviation_multiplier() -> (r: String)
    ensures
        r@ == "1.0"@,
{
    "1.0".to_owned()
}

/// What stands for `cooldown_period` where nothing is set.
pub fn default_cooldown_period() -> (r: u64)
    ensures
        r == 60,
{
    60
}

/// What stands for `slippage` where nothing is set.
pub fn default_slippage() -> (r: String)
    ensures
        r@ == "0.001"@,
{
    "0.001".to_owned()
}

/// What stands for `grid_mode` where nothing is set.
pub fn default_grid_mode() -> (r: String)
    ensures
        r@ == "long"@,
{
    "long".to_owned()
}

/// What stands for `grid_levels` where nothing is set.
pub fn default_grid_levels() -> (r: u32)
    ensures
        r == 20,
{
    20
}

/// What stands for `leverage` where nothing is set.
pub fn default_leverage() -> (r: String)
    ensures
        r@ == "5"@,
{
    "5".to_owned()
}

/// What stands for `max_leverage` where nothing is set.
pub fn default_max_leverage() -> (r: String)
    ensures
        r@ == "50"@,
{
    "50".to_owned()
}

/// What stands for `sync_interval_ms` where nothing is set.
pub fn default_sync_interval_ms() -> (r: u64)
    ensures
        r == 10_000,
{
    10_000
}

/// What stands for `sync_timeout` where nothing is set.
pub fn default_sync_timeout() -> (r: u64)
    ensures
        r == 10,
{
    10
}

/// What stands for `sync_enabled` where nothing is set.
pub fn default_sync_enabled() -> (r: bool)
    ensures
        r == true,
{
    true
}

/// What stands for `starting_balance` where nothing is set.
pub fn default_starting_balance() -> (r: String)
    ensures
        r@ == "10000"@,
{
    "10000".to_owned()
}

/// What stands for `fee_rate` where nothing is set.
pub fn default_fee_rate() -> (r: String)
    ensures
        r@ == "0.00025"@,
{
    "0.00025".to_owned()
}

/// What stands for `poll_delay_ms` where nothing is set.
pub fn default_poll_delay_ms() -> (r: u64)
    ensures
        r == 500,
{
    500
}

/// What stands for `skew_mode` where nothing is set.
pub fn default_skew_mode() -> (r: String)
    ensures
        r@ == "both"@,
{
    "both".to_owned()
}

/// What stands for `price_skew_gamma` where nothing is set.
pub fn default_price_skew_gamma() -> (r: String)
    ensures
        r@ == "0.05"@,
{
    "0.05".to_owned()
}

/// What stands for `size_skew_floor` where nothing is set.
pub fn default_size_skew_floor() -> (r: String)
    ensures
        r@ == "0.2"@,
{
    "0.2".to_owned()
}

/// What stands for `min_price_change_pct` where nothing is set.
pub fn default_min_price_change_pct() -> (r: String)
    ensures
        r@ == "0.0005"@,
{
    "0.0005".to_owned()
}

/// What stands for `usdc` where nothing is set.
pub fn default_usdc() -> (r: String)
    ensures
        r@ == "USDC"@,
{
    "USDC".to_owned()
}

/// What stands for `quote_currency` where nothing is set.
pub fn default_quote_currency() -> (r: String)
    ensures
        r@ == "USDC"@,
{
    "USDC".to_owned()
}

/// The configuration of a bot.
#[derive(Debug)]
pub struct BotConfig {
    pub environment: String,
    /// Hexadecimal; empty where it comes from the credentials file.
    pub private_key: String,
    /// Empty where it comes from the credentials file.
    pub address: String,
    pub vault_address: Option<String>,
    pub strategy_type: String,
    pub markets: Vec<Market>,
    pub poll_delay_ms: u64,
    pub grid: Option<GridConfigJson>,
    pub mm: Option<MMConfigJson>,
    pub dca: Option<DCAConfigJson>,
    pub arbitrage: Option<ArbitrageConfigJson>,
    pub builder_fee: Option<BuilderFeeConfig>,
    pub sync: Option<SyncConfigJson>,
    pub simulation: Option<SimulationConfig>,
    /// The other sections by name, each as its JSON text.
    pub extra: StrMap<String>,
}

/// The number that a text denotes, where it denotes one.
pub open spec fn number(s: String) -> Option<Decimal> {
    decimal::opt_of(decimal::decimal_parsed(s@))
}

/// The environment with a name in small letters.
pub open spec fn environment_of(lower: Seq<char>) -> Environment {
    if lower == "mainnet"@ || lower == "main"@ || lower == "prod"@ {
        Environment::Mainnet
    } else {
        Environment::Testnet
    }
}

/// The environment with a name in small letters: everything but the production network is
/// the test network.
pub fn environment_named(lower: &str) -> (r: Environment)
    ensures
        r == environment_of(lower@),
{
    if same_text(lower, "mainnet") || same_text(lower, "main") || same_text(lower, "prod") {
        Environment::Mainnet
    } else {
        Environment::Testnet
    }
}

/// The kinds of strategies that a configuration can name.
#[derive(Debug, Clone, Copy, PartialEq, Eq, Structural)]
pub enum StrategyKind {
    Arbitrage,
    Grid,
    Dca,
    TickTrader,
    Rsi,
    MarketMaker,
    Unknown,
}

/// The strategy with a name in small letters.
pub open spec fn kind_of(lower: Seq<char>) -> StrategyKind {
    if lower == "arbitrage"@ || lower == "arb"@ {
        StrategyKind::Arbitrage
    } else if lower == "grid"@ {
        StrategyKind::Grid
    } else if lower == "dca"@ {
        StrategyKind::Dca
    } else if lower == "tick_trader"@ {
        StrategyKind::TickTrader
    } else if lower == "rsi"@ {
        StrategyKind::Rsi
    } else if lower == "mm"@ || lower == "market_maker"@ {
        StrategyKind::MarketMaker
    } else {
        StrategyKind::Unknown
    }
}

/// The strategy with a name in small letters.
pub fn strategy_kind(lower: &str) -> (r: StrategyKind)
    ensures
        r == kind_of(lower@),
{
    if same_text(lower, "arbitrage") || same_text(lower, "arb") {
        StrategyKind::Arbitrage
    } else if same_text(lower, "grid") {
        StrategyKind::Grid
    } else if same_text(lower, "dca") {
        StrategyKind::Dca
    } else if same_text(lower, "tick_trader") {
        StrategyKind::TickTrader
    } else if same_text(lower, "rsi") {
        StrategyKind::Rsi
    } else if same_text(lower, "mm") || same_text(lower, "market_maker") {
        StrategyKind::MarketMaker
    } else {
        StrategyKind::Unknown
    }
}

/// The direction of a grid.
#[derive(Debug, Clone, Copy, PartialEq, Eq, Structural)]
pub enum GridMode {
    Long,
    Short,
    Neutral,
}

/// The direction of a grid with a name in small letters: long unless it says otherwise.
pub open spec fn grid_mode_of(lower: Seq<char>) -> GridMode {
    if lower == "short"@ {
        GridMode::Short
    } else if lower == "neutral"@ {
        GridMode::Neutral
    } else {
        GridMode::Long
    }
}

/// The direction of a grid with a name in small letters.
pub fn grid_mode(lower: &str) -> (r: GridMode)
    ensures
        r == grid_mode_of(lower@),
{
    if same_text(lower, "short") {
        GridMode::Short
    } else if same_text(lower, "neutral") {
        GridMode::Neutral
    } else {
        GridMode::Long
    }
}

/// The direction of an averaging strategy.
#[derive(Debug, Clone, Copy, PartialEq, Eq, Structural)]
pub enum DCADirection {
    Long,
    Short,
}

/// The direction with a name in small letters: long unless it says otherwise.
pub open spec fn direction_of(lower: Seq<char>) -> DCADirection {
    if lower == "short"@ {
        DCADirection::Short
    } else {
        DCADirection::Long
    }
}

/// The direction with a name in small letters.
pub fn dca_direction(lower: &str) -> (r: DCADirection)
    ensures
        r == direction_of(lower@),
{
    if same_text(lower, "short") {
        DCADirection::Short
    } else {
        DCADirection::Long
    }
}

/// What a market maker skews by its position.
#[derive(Debug, Clone, Copy, PartialEq, Eq, Structural)]
pub enum SkewMode {
    Neither,
    Size,
    Price,
    Both,
}

/// What is skewed, by a name in small letters: both unless it says otherwise.
pub open spec fn skew_mode_of(lower: Seq<char>) -> SkewMode {
    if lower == "none"@ {
        SkewMode::Neither
    } else if lower == "size"@ {
        SkewMode::Size
    } else if lower == "price"@ {
        SkewMode::Price
    } else {
        SkewMode::Both
    }
}

/// What is skewed, by a name in small letters.
pub fn skew_mode(lower: &str) -> (r: SkewMode)
    ensures
        r == skew_mode_of(lower@),
{
    if same_text(lower, "none") {
        SkewMode::Neither
    } else if same_text(lower, "size") {
        SkewMode::Size
    } else if same_text(lower, "price") {
        SkewMode::Price
    } else {
        SkewMode::Both
    }
}

/// How the arbitrage strategy is set up.
#[derive(Debug)]
pub struct ArbitrageConfig {
    pub strategy_id: StrategyId,
    pub spot_market: Market,
    pub perp_market: Market,
    pub environment: Environment,
    pub order_amount: Decimal,
    pub perp_leverage: Decimal,
    pub min_opening_spread_pct: Decimal,
    pub min_closing_spread_pct: Decimal,
    pub spot_slippage_buffer_pct: Decimal,
    pub perp_slippage_buffer_pct: Decimal,
}

/// How the grid strategy is set up.
#[derive(Debug)]
pub struct GridConfig {
    pub strategy_id: StrategyId,
    pub environment: Environment,
    pub market: Market,
    pub grid_mode: GridMode,
    pub grid_levels: u32,
    pub start_price: Decimal,
    pub end_price: Decimal,
    pub max_investment_quote: Decimal,
    pub base_order_size: Decimal,
    pub leverage: Decimal,
    pub max_leverage: Decimal,
    pub post_only: bool,
    pub stop_loss: Option<Decimal>,
    pub take_profit: Option<Decimal>,
    pub trailing_up_limit: Option<Decimal>,
    pub trailing_down_limit: Option<Decimal>,
}

/// How the averaging strategy is set up.
#[derive(Debug)]
pub struct DCAConfig {
    pub strategy_id: StrategyId,
    pub environment: Environment,
    pub market: Market,
    pub direction: DCADirection,
    pub trigger_price: Decimal,
    pub base_order_size: Decimal,
    pub dca_order_size: Decimal,
    pub max_dca_orders: u32,
    pub size_multiplier: Decimal,
    pub price_deviation_pct: Decimal,
    pub deviation_multiplier: Decimal,
    pub take_profit_pct: Decimal,
    pub stop_loss: Option<Decimal>,
    pub leverage: Decimal,
    pub max_leverage: Decimal,
    pub restart_on_complete: bool,
    pub cooldown_period_secs: u64,
}

/// How the market maker is set up.
#[derive(Debug)]
pub struct MarketMakerConfig {
    pub strategy_id: StrategyId,
    pub environment: Environment,
    pub market: Market,
    pub base_order_size: Decimal,
    pub base_spread: Decimal,
    pub target_position_pct: Decimal,
    pub min_position_pct: Decimal,
    pub max_position_pct: Decimal,
    pub max_position_size: Decimal,
    pub skew_mode: SkewMode,
    pub price_skew_gamma: Decimal,
    pub size_skew_floor: Decimal,
    pub min_price_change_pct: Decimal,
    pub stop_loss: Option<Decimal>,
    pub take_profit: Option<Decimal>,
}

/// A rung of the ladder of an averaging strategy.
pub struct Rung {
    pub price: Decimal,
    pub size: Decimal,
    /// The deviation of the next rung, in percent.
    pub deviation: Decimal,
    /// What the rungs so far cost.
    pub cost: Decimal,
}

impl DCAConfig {
    /// The ladder after `n` averaging orders. The price moves against the position by the
    /// deviation at each rung; size and deviation grow by their multipliers.
    pub open spec fn ladder(self, n: nat) -> Option<Rung>
        decreases n,
    {
        if n == 0 {
            match decimal::times(Some(self.base_order_size), Some(self.trigger_price)) {
                Some(cost) => Some(
                    Rung {
                        price: self.trigger_price,
                        size: self.dca_order_size,
                        deviation: self.price_deviation_pct,
                        cost,
                    },
                ),
                None => None,
            }
        } else {
            match self.ladder((n - 1) as nat) {
                Some(r) => self.next_rung(r),
                None => None,
            }
        }
    }

    /// The rung after another.
    pub open spec fn next_rung(self, r: Rung) -> Option<Rung> {
        let share = decimal::over(Some(r.deviation), Some(Decimal::lit(100, 0)));
        let factor = match self.direction {
            DCADirection::Long => decimal::minus(Some(decimal::one()), share),
            DCADirection::Short => decimal::plus(Some(decimal::one()), share),
        };
        let price = decimal::times(Some(r.price), factor);
        match (
            price,
            decimal::times(Some(r.size), Some(self.size_multiplier)),
            decimal::times(Some(r.deviation), Some(self.deviation_multiplier)),
            decimal::plus(Some(r.cost), decimal::times(Some(r.size), price)),
        ) {
            (Some(price), Some(size), Some(deviation), Some(cost)) => Some(
                Rung { price, size, deviation, cost },
            ),
            _ => None,
        }
    }

    /// What the whole ladder costs.
    pub open spec fn ladder_cost(self) -> Option<Decimal> {
        match self.ladder(self.max_dca_orders as nat) {
            Some(r) => Some(r.cost),
            None => None,
        }
    }

    fn step(&self, r: Rung) -> (next: Option<Rung>)
        ensures
            next == self.next_rung(r),
    {
        let share = quotient(Some(r.deviation), Some(Decimal::new(100, 0)));
        let factor = match self.direction {
            DCADirection::Long => difference(Some(Decimal::one()), share),
            DCADirection::Short => sum(Some(Decimal::one()), share),
        };
        let price = product(Some(r.price), factor);
        match (
            price,
            product(Some(r.size), Some(self.size_multiplier)),
            product(Some(r.deviation), Some(self.deviation_multiplier)),
            sum(Some(r.cost), product(Some(r.size), price)),
        ) {
            (Some(price), Some(size), Some(deviation), Some(cost)) => Some(
                Rung { price, size, deviation, cost },
            ),
            _ => None,
        }
    }

    /// What the whole ladder costs, where no step is too large.
    pub fn try_max_total_investment(&self) -> (r: Option<Decimal>)
        ensures
            r == self.ladder_cost(),
    {
        let mut rung = match self.base_order_size.checked_mul(self.trigger_price) {
            Some(cost) => Some(
                Rung {
                    price: self.trigger_price,
                    size: self.dca_order_size,
                    deviation: self.price_deviation_pct,
                    cost,
                },
            ),
            None => None,
        };
        let mut i: u32 = 0;
        while i < self.max_dca_orders
            invariant
                i <= self.max_dca_orders,
                rung == self.ladder(i as nat),
            decreases self.max_dca_orders - i,
        {
            rung = match rung {
                Some(r) => self.step(r),
                None => None,
            };
            i = i + 1;
        }
        match rung {
            Some(r) => Some(r.cost),
            None => None,
        }
    }

    /// What the whole ladder costs.
    pub fn max_total_investment(&self) -> (r: Decimal)
        requires
            self.ladder_cost() is Some,
        ensures
            Some(r) == self.ladder_cost(),
    {
        self.try_max_total_investment().unwrap()
    }
}

/// What a strategy is built from.
#[derive(Debug)]
pub enum StrategyPlan {
    Arbitrage(ArbitrageConfig),
    Grid(GridConfig),
    Dca(DCAConfig),
    MarketMaker(MarketMakerConfig),
    /// A strategy that reads a section of its own.
    Custom(StrategyKind),
}

/// A text that must denote a number, and what to say where it does not.
pub struct NumberField {
    pub value: String,
    pub complaint: &'static str,
}

/// The complaint about the first of the fields that denotes no number.
pub open spec fn first_complaint(fields: Seq<NumberField>) -> Option<Seq<char>>
    decreases fields.len(),
{
    if fields.len() == 0 {
        None
    } else if first_complaint(fields.drop_last()) is Some {
        first_complaint(fields.drop_last())
    } else if number(fields.last().value) is None {
        Some(fields.last().complaint@)
    } else {
        None
    }
}

/// A field that may be missing.
pub open spec fn optional_field(value: Option<String>, complaint: &'static str) -> Seq<NumberField> {
    match value {
        Some(value) => seq![NumberField { value, complaint }],
        None => Seq::empty(),
    }
}

proof fn lemma_no_complaint(fields: Seq<NumberField>)
    requires
        first_complaint(fields) is None,
    ensures
        forall|i: int| 0 <= i < fields.len() ==> number(#[trigger] fields[i].value) is Some,
    decreases fields.len(),
{
    if fields.len() > 0 {
        lemma_no_complaint(fields.drop_last());
        assert forall|i: int| 0 <= i < fields.len() implies number(
            #[trigger] fields[i].value,
        ) is Some by {
            if i < fields.len() - 1 {
                assert(fields.drop_last()[i] == fields[i]);
            }
        }
    }
}

fn check_numbers(fields: &Vec<NumberField>) -> (r: Option<&'static str>)
    ensures
        match r {
            Some(text) => first_complaint(fields@) == Some(text@),
            None => first_complaint(fields@) is None && forall|i: int|
                0 <= i < fields@.len() ==> number(#[trigger] fields@[i].value) is Some,
        },
{
    let mut found: Option<&'static str> = None;
    let mut i: usize = 0;
    assert(fields@.subrange(0, 0) =~= Seq::empty());
    while i < fields.len()
        invariant
            i <= fields@.len(),
            match found {
                Some(text) => first_complaint(fields@.subrange(0, i as int)) == Some(text@),
                None => first_complaint(fields@.subrange(0, i as int)) is None,
            },
        decreases fields@.len() - i,
    {
        assert(fields@.subrange(0, i + 1).drop_last() =~= fields@.subrange(0, i as int));
        if found.is_none() && Decimal::parse(fields[i].value.as_str()).is_none() {
            found = Some(fields[i].complaint);
        }
        i = i + 1;
    }
    assert(fields@.subrange(0, fields@.len() as int) =~= fields@);
    proof {
        if found is None {
            lemma_no_complaint(fields@);
        }
    }
    found
}

fn field(value: &String, complaint: &'static str) -> (r: NumberField)
    ensures
        r == (NumberField { value: *value, complaint }),
{
    NumberField { value: value.clone(), complaint }
}

fn push_optional(fields: &mut Vec<NumberField>, value: &Option<String>, complaint: &'static str)
    ensures
        final(fields)@ == old(fields)@ + optional_field(*value, complaint),
{
    if let Some(v) = value {
        fields.push(field(v, complaint));
    }
    assert(fields@ =~= old(fields)@ + optional_field(*value, complaint));
}

/// The number that a text denotes.
pub open spec fn number_in(s: String) -> Decimal {
    number(s)->0
}

/// The number that a text denotes, where there is a text.
pub open spec fn number_in_option(s: Option<String>) -> Option<Decimal> {
    match s {
        Some(s) => Some(number_in(s)),
        None => None,
    }
}

fn parse_number(s: &String) -> (r: Decimal)
    requires
        number(*s) is Some,
    ensures
        r == number_in(*s),
{
    Decimal::parse(s.as_str()).unwrap()
}

fn parse_option(s: &Option<String>) -> (r: Option<Decimal>)
    requires
        s matches Some(t) ==> number(*t) is Some,
    ensures
        r == number_in_option(*s),
{
    match s {
        Some(t) => Some(parse_number(t)),
        None => None,
    }
}

/// The numbers of the section, in the order in which they are read.
pub open spec fn arbitrage_fields(j: ArbitrageConfigJson) -> Seq<NumberField> {
    seq![
        NumberField { value: j.order_amount, complaint: "Invalid order_amount" },
        NumberField { value: j.perp_leverage, complaint: "Invalid perp_leverage" },
        NumberField { value: j.min_opening_spread_pct, complaint: "Invalid min_opening_spread_pct" },
        NumberField { value: j.min_closing_spread_pct, complaint: "Invalid min_closing_spread_pct" },
        NumberField { value: j.spot_slippage_buffer_pct, complaint: "Invalid spot_slippage_buffer_pct" },
        NumberField { value: j.perp_slippage_buffer_pct, complaint: "Invalid perp_slippage_buffer_pct" },
    ]
}

/// The set-up that the section describes, its numbers read.
pub open spec fn arbitrage_config(
    j: ArbitrageConfigJson,
    strategy_id: StrategyId,
    spot_market: Market,
    perp_market: Market,
    environment: Environment,
) -> ArbitrageConfig {
    ArbitrageConfig {
        strategy_id,
        spot_market,
        perp_market,
        environment,
        order_amount: number_in(j.order_amount),
        perp_leverage: number_in(j.perp_leverage),
        min_opening_spread_pct: number_in(j.min_opening_spread_pct),
        min_closing_spread_pct: number_in(j.min_closing_spread_pct),
        spot_slippage_buffer_pct: number_in(j.spot_slippage_buffer_pct),
        perp_slippage_buffer_pct: number_in(j.perp_slippage_buffer_pct),
    }
}

/// Reads the section of the arbitrage strategy.
pub fn plan_arbitrage(
    j: &ArbitrageConfigJson,
    strategy_id: StrategyId,
    spot_market: Market,
    perp_market: Market,
    environment: Environment,
) -> (r: Result<ArbitrageConfig, String>)
    ensures
        match first_complaint(arbitrage_fields(*j)) {
            Some(text) => r matches Err(e) && e@ == text,
            None => r == Ok::<ArbitrageConfig, String>(
                arbitrage_config(*j, strategy_id, spot_market, perp_market, environment),
            ),
        },
{
    let mut fields: Vec<NumberField> = Vec::new();
    fields.push(field(&j.order_amount, "Invalid order_amount"));
    fields.push(field(&j.perp_leverage, "Invalid perp_leverage"));
    fields.push(field(&j.min_opening_spread_pct, "Invalid min_opening_spread_pct"));
    fields.push(field(&j.min_closing_spread_pct, "Invalid min_closing_spread_pct"));
    fields.push(field(&j.spot_slippage_buffer_pct, "Invalid spot_slippage_buffer_pct"));
    fields.push(field(&j.perp_slippage_buffer_pct, "Invalid perp_slippage_buffer_pct"));
    assert(fields@ =~= arbitrage_fields(*j));
    if let Some(complaint) = check_numbers(&fields) {
        return Err(complaint.to_owned());
    }
    proof {
        assert(number(fields@[0].value) is Some);
        assert(number(fields@[1].value) is Some);
        assert(number(fields@[2].value) is Some);
        assert(number(fields@[3].value) is Some);
        assert(number(fields@[4].value) is Some);
        assert(number(fields@[5].value) is Some);
    }
    Ok(
        ArbitrageConfig {
            strategy_id,
            spot_market,
            perp_market,
            environment,
            order_amount: parse_number(&j.order_amount),
            perp_leverage: parse_number(&j.perp_leverage),
            min_opening_spread_pct: parse_number(&j.min_opening_spread_pct),
            min_closing_spread_pct: parse_number(&j.min_closing_spread_pct),
            spot_slippage_buffer_pct: parse_number(&j.spot_slippage_buffer_pct),
            perp_slippage_buffer_pct: parse_number(&j.perp_slippage_buffer_pct),
        },
    )
}

/// The numbers of the section, in the order in which they are read.
pub open spec fn grid_fields(j: GridConfigJson) -> Seq<NumberField> {
    seq![
        NumberField { value: j.start_price, complaint: "Invalid start_price" },
        NumberField { value: j.end_price, complaint: "Invalid end_price" },
        NumberField { value: j.max_investment_quote, complaint: "Invalid max_investment_quote" },
        NumberField { value: j.leverage, complaint: "Invalid leverage" },
        NumberField { value: j.max_leverage, complaint: "Invalid max_leverage" },
    ] + optional_field(
        j.stop_loss,
        "Invalid grid stop_loss",
    ) + optional_field(
        j.take_profit,
        "Invalid grid take_profit",
    ) + optional_field(
        j.trailing_up_limit,
        "Invalid grid trailing_up_limit",
    ) + optional_field(
        j.trailing_down_limit,
        "Invalid grid trailing_down_limit",
    )
}

/// The set-up that the section describes, its numbers read.
pub open spec fn grid_config(
    j: GridConfigJson,
    strategy_id: StrategyId,
    market: Market,
    environment: Environment,
) -> GridConfig {
    GridConfig {
        strategy_id,
        environment,
        market,
        grid_mode: grid_mode_of(text::lower_text(j.mode@)),
        grid_levels: j.levels,
        start_price: number_in(j.start_price),
        end_price: number_in(j.end_price),
        max_investment_quote: number_in(j.max_investment_quote),
        base_order_size: Decimal::lit(1, 3),
        leverage: number_in(j.leverage),
        max_leverage: number_in(j.max_leverage),
        post_only: j.post_only,
        stop_loss: number_in_option(j.stop_loss),
        take_profit: number_in_option(j.take_profit),
        trailing_up_limit: number_in_option(j.trailing_up_limit),
        trailing_down_limit: number_in_option(j.trailing_down_limit),
    }
}

/// Reads the section of the grid strategy.
pub fn plan_grid(
    j: &GridConfigJson,
    strategy_id: StrategyId,
    market: Market,
    environment: Environment,
) -> (r: Result<GridConfig, String>)
    ensures
        match first_complaint(grid_fields(*j)) {
            Some(text) => r matches Err(e) && e@ == text,
            None => r == Ok::<GridConfig, String>(
                grid_config(*j, strategy_id, market, environment),
            ),
        },
{
    let mut fields: Vec<NumberField> = Vec::new();
    fields.push(field(&j.start_price, "Invalid start_price"));
    fields.push(field(&j.end_price, "Invalid end_price"));
    fields.push(field(&j.max_investment_quote, "Invalid max_investment_quote"));
    fields.push(field(&j.leverage, "Invalid leverage"));
    fields.push(field(&j.max_leverage, "Invalid max_leverage"));
    push_optional(&mut fields, &j.stop_loss, "Invalid grid stop_loss");
    push_optional(&mut fields, &j.take_profit, "Invalid grid take_profit");
    push_optional(&mut fields, &j.trailing_up_limit, "Invalid grid trailing_up_limit");
    push_optional(&mut fields, &j.trailing_down_limit, "Invalid grid trailing_down_limit");
    assert(fields@ =~= grid_fields(*j));
    if let Some(complaint) = check_numbers(&fields) {
        return Err(complaint.to_owned());
    }
    proof {
        assert(number(fields@[0].value) is Some);
        assert(number(fields@[1].value) is Some);
        assert(number(fields@[2].value) is Some);
        assert(number(fields@[3].value) is Some);
        assert(number(fields@[4].value) is Some);
        if j.stop_loss is Some {
            assert(number(fields@[5].value) is Some);
        }
        if j.take_profit is Some {
            assert(number(fields@[(5 + optional_field(j.stop_loss, "Invalid grid stop_loss").len()) as int].value) is Some);
        }
        if j.trailing_up_limit is Some {
            assert(number(fields@[(5 + optional_field(j.stop_loss, "Invalid grid stop_loss").len() + optional_field(j.take_profit, "Invalid grid take_profit").len()) as int].value) is Some);
        }
        if j.trailing_down_limit is Some {
            assert(number(fields@[(5 + optional_field(j.stop_loss, "Invalid grid stop_loss").len() + optional_field(j.take_profit, "Invalid grid take_profit").len() + optional_field(j.trailing_up_limit, "Invalid grid trailing_up_limit").len()) as int].value) is Some);
        }
    }
    Ok(
        GridConfig {
            strategy_id,
            environment,
            market,
            grid_mode: grid_mode(lowercased(j.mode.as_str()).as_str()),
            grid_levels: j.levels,
            start_price: parse_number(&j.start_price),
            end_price: parse_number(&j.end_price),
            max_investment_quote: parse_number(&j.max_investment_quote),
            base_order_size: Decimal::new(1, 3),
            leverage: parse_number(&j.leverage),
            max_leverage: parse_number(&j.max_leverage),
            post_only: j.post_only,
            stop_loss: parse_option(&j.stop_loss),
            take_profit: parse_option(&j.take_profit),
            trailing_up_limit: parse_option(&j.trailing_up_limit),
            trailing_down_limit: parse_option(&j.trailing_down_limit),
        },
    )
}

/// The numbers of the section, in the order in which they are read.
pub open spec fn dca_fields(j: DCAConfigJson) -> Seq<NumberField> {
    seq![
        NumberField { value: j.trigger_price, complaint: "Invalid trigger_price" },
        NumberField { value: j.base_order_size, complaint: "Invalid base_order_size" },
        NumberField { value: j.dca_order_size, complaint: "Invalid dca_order_size" },
        NumberField { value: j.size_multiplier, complaint: "Invalid size_multiplier" },
        NumberField { value: j.price_deviation_pct, complaint: "Invalid price_deviation_pct" },
        NumberField { value: j.deviation_multiplier, complaint: "Invalid deviation_multiplier" },
        NumberField { value: j.take_profit_pct, complaint: "Invalid take_profit_pct" },
    ] + optional_field(
        j.stop_loss,
        "Invalid stop_loss",
    ) + optional_field(
        Some(j.leverage),
        "Invalid leverage",
    ) + optional_field(
        Some(j.max_leverage),
        "Invalid max_leverage",
    )
}

/// The set-up that the section describes, its numbers read.
pub open spec fn dca_config(
    j: DCAConfigJson,
    strategy_id: StrategyId,
    market: Market,
    environment: Environment,
) -> DCAConfig {
    DCAConfig {
        strategy_id,
        environment,
        market,
        direction: direction_of(text::lower_text(j.direction@)),
        trigger_price: number_in(j.trigger_price),
        base_order_size: number_in(j.base_order_size),
        dca_order_size: number_in(j.dca_order_size),
        max_dca_orders: j.max_dca_orders,
        size_multiplier: number_in(j.size_multiplier),
        price_deviation_pct: number_in(j.price_deviation_pct),
        deviation_multiplier: number_in(j.deviation_multiplier),
        take_profit_pct: number_in(j.take_profit_pct),
        stop_loss: number_in_option(j.stop_loss),
        leverage: number_in(j.leverage),
        max_leverage: number_in(j.max_leverage),
        restart_on_complete: j.restart_on_complete,
        cooldown_period_secs: j.cooldown_period_secs,
    }
}

/// Reads the section of the averaging strategy.
pub fn plan_dca(
    j: &DCAConfigJson,
    strategy_id: StrategyId,
    market: Market,
    environment: Environment,
) -> (r: Result<DCAConfig, String>)
    ensures
        match first_complaint(dca_fields(*j)) {
            Some(text) => r matches Err(e) && e@ == text,
            None => r == Ok::<DCAConfig, String>(
                dca_config(*j, strategy_id, market, environment),
            ),
        },
{
    let mut fields: Vec<NumberField> = Vec::new();
    fields.push(field(&j.trigger_price, "Invalid trigger_price"));
    fields.push(field(&j.base_order_size, "Invalid base_order_size"));
    fields.push(field(&j.dca_order_size, "Invalid dca_order_size"));
    fields.push(field(&j.size_multiplier, "Invalid size_multiplier"));
    fields.push(field(&j.price_deviation_pct, "Invalid price_deviation_pct"));
    fields.push(field(&j.deviation_multiplier, "Invalid deviation_multiplier"));
    fields.push(field(&j.take_profit_pct, "Invalid take_profit_pct"));
    push_optional(&mut fields, &j.stop_loss, "Invalid stop_loss");
    push_optional(&mut fields, &Some(j.leverage.clone()), "Invalid leverage");
    push_optional(&mut fields, &Some(j.max_leverage.clone()), "Invalid max_leverage");
    assert(fields@ =~= dca_fields(*j));
    if let Some(complaint) = check_numbers(&fields) {
        return Err(complaint.to_owned());
    }
    proof {
        assert(number(fields@[0].value) is Some);
        assert(number(fields@[1].value) is Some);
        assert(number(fields@[2].value) is Some);
        assert(number(fields@[3].value) is Some);
        assert(number(fields@[4].value) is Some);
        assert(number(fields@[5].value) is Some);
        assert(number(fields@[6].value) is Some);
        if j.stop_loss is Some {
            assert(number(fields@[7].value) is Some);
        }
        assert(number(fields@[(7 + optional_field(j.stop_loss, "Invalid stop_loss").len()) as int].value) is Some);
        assert(number(fields@[(7 + optional_field(j.stop_loss, "Invalid stop_loss").len() + 1) as int].value) is Some);
    }
    Ok(
        DCAConfig {
            strategy_id,
            environment,
            market,
            direction: dca_direction(lowercased(j.direction.as_str()).as_str()),
            trigger_price: parse_number(&j.trigger_price),
            base_order_size: parse_number(&j.base_order_size),
            dca_order_size: parse_number(&j.dca_order_size),
            max_dca_orders: j.max_dca_orders,
            size_multiplier: parse_number(&j.size_multiplier),
            price_deviation_pct: parse_number(&j.price_deviation_pct),
            deviation_multiplier: parse_number(&j.deviation_multiplier),
            take_profit_pct: parse_number(&j.take_profit_pct),
            stop_loss: parse_option(&j.stop_loss),
            leverage: parse_number(&j.leverage),
            max_leverage: parse_number(&j.max_leverage),
            restart_on_complete: j.restart_on_complete,
            cooldown_period_secs: j.cooldown_period_secs,
        },
    )
}

/// The numbers of the section, in the order in which they are read.
pub open spec fn market_maker_fields(j: MMConfigJson) -> Seq<NumberField> {
    seq![
        NumberField { value: j.base_order_size, complaint: "Invalid base_order_size" },
        NumberField { value: j.base_spread, complaint: "Invalid base_spread" },
        NumberField { value: j.max_position_size, complaint: "Invalid max_position_size" },
        NumberField { value: j.price_skew_gamma, complaint: "Invalid price_skew_gamma" },
        NumberField { value: j.size_skew_floor, complaint: "Invalid size_skew_floor" },
        NumberField { value: j.min_price_change_pct, complaint: "Invalid min_price_change_pct" },
    ] + optional_field(
        j.stop_loss,
        "Invalid stop_loss",
    ) + optional_field(
        j.take_profit,
        "Invalid take_profit",
    )
}

/// The set-up that the section describes, its numbers read.
pub open spec fn market_maker_config(
    j: MMConfigJson,
    strategy_id: StrategyId,
    market: Market,
    environment: Environment,
) -> MarketMakerConfig {
    MarketMakerConfig {
        strategy_id,
        environment,
        market,
        base_order_size: number_in(j.base_order_size),
        base_spread: number_in(j.base_spread),
        target_position_pct: Decimal::lit(5, 1),
        min_position_pct: Decimal::lit(1, 1),
        max_position_pct: Decimal::lit(9, 1),
        max_position_size: number_in(j.max_position_size),
        skew_mode: skew_mode_of(text::lower_text(j.skew_mode@)),
        price_skew_gamma: number_in(j.price_skew_gamma),
        size_skew_floor: number_in(j.size_skew_floor),
        min_price_change_pct: number_in(j.min_price_change_pct),
        stop_loss: number_in_option(j.stop_loss),
        take_profit: number_in_option(j.take_profit),
    }
}

/// Reads the section of the market maker.
pub fn plan_market_maker(
    j: &MMConfigJson,
    strategy_id: StrategyId,
    market: Market,
    environment: Environment,
) -> (r: Result<MarketMakerConfig, String>)
    ensures
        match first_complaint(market_maker_fields(*j)) {
            Some(text) => r matches Err(e) && e@ == text,
            None => r == Ok::<MarketMakerConfig, String>(
                market_maker_config(*j, strategy_id, market, environment),
            ),
        },
{
    let mut fields: Vec<NumberField> = Vec::new();
    fields.push(field(&j.base_order_size, "Invalid base_order_size"));
    fields.push(field(&j.base_spread, "Invalid base_spread"));
    fields.push(field(&j.max_position_size, "Invalid max_position_size"));
    fields.push(field(&j.price_skew_gamma, "Invalid price_skew_gamma"));
    fields.push(field(&j.size_skew_floor, "Invalid size_skew_floor"));
    fields.push(field(&j.min_price_change_pct, "Invalid min_price_change_pct"));
    push_optional(&mut fields, &j.stop_loss, "Invalid stop_loss");
    push_optional(&mut fields, &j.take_profit, "Invalid take_profit");
    assert(fields@ =~= market_maker_fields(*j));
    if let Some(complaint) = check_numbers(&fields) {
        return Err(complaint.to_owned());
    }
    proof {
        assert(number(fields@[0].value) is Some);
        assert(number(fields@[1].value) is Some);
        assert(number(fields@[2].value) is Some);
        assert(number(fields@[3].value) is Some);
        assert(number(fields@[4].value) is Some);
        assert(number(fields@[5].value) is Some);
        if j.stop_loss is Some {
            assert(number(fields@[6].value) is Some);
        }
        if j.take_profit is Some {
            assert(number(fields@[(6 + optional_field(j.stop_loss, "Invalid stop_loss").len()) as int].value) is Some);
        }
    }
    Ok(
        MarketMakerConfig {
            strategy_id,
            environment,
            market,
            base_order_size: parse_number(&j.base_order_size),
            base_spread: parse_number(&j.base_spread),
            target_position_pct: Decimal::new(5, 1),
            min_position_pct: Decimal::new(1, 1),
            max_position_pct: Decimal::new(9, 1),
            max_position_size: parse_number(&j.max_position_size),
            skew_mode: skew_mode(lowercased(j.skew_mode.as_str()).as_str()),
            price_skew_gamma: parse_number(&j.price_skew_gamma),
            size_skew_floor: parse_number(&j.size_skew_floor),
            min_price_change_pct: parse_number(&j.min_price_change_pct),
            stop_loss: parse_option(&j.stop_loss),
            take_profit: parse_option(&j.take_profit),
        },
    )
}

impl BotConfig {
    /// The market that a strategy of one market trades.
    pub fn primary_market(&self) -> (r: &Market)
        requires
            self.markets@.len() > 0,
        ensures
            *r == self.markets@[0],
    {
        &self.markets[0]
    }

    /// Whether the first market is a spot market.
    pub fn is_spot(&self) -> (r: bool)
        requires
            self.markets@.len() > 0,
        ensures
            r == (self.markets@[0].inner() is Spot),
    {
        self.primary_market().is_spot()
    }

    /// Whether the first market is an outcome.
    pub fn is_outcome(&self) -> (r: bool)
        requires
            self.markets@.len() > 0,
        ensures
            r == (self.markets@[0].inner() is Outcome),
    {
        self.primary_market().is_outcome()
    }

    /// Whether positions in the first market are held on margin.
    pub fn primary_market_uses_margin(&self) -> (r: bool)
        requires
            self.markets@.len() > 0,
        ensures
            r == (self.markets@[0].inner().kind() is Perp),
    {
        self.primary_market().uses_margin()
    }

    /// The instrument of the first market.
    pub fn instrument_id(&self) -> (r: InstrumentId)
        requires
            self.markets@.len() > 0,
            self.markets@[0].inner().named(),
        ensures
            r@ == self.markets@[0].inner().instrument_text(),
    {
        self.primary_market().instrument_id()
    }

    /// The number of the first market.
    pub fn market_index(&self) -> (r: MarketIndex)
        requires
            self.markets@.len() > 0,
            self.markets@[0].inner().asset() <= u32::MAX,
        ensures
            r.0 == self.markets@[0].inner().asset(),
    {
        self.primary_market().market_index()
    }

    /// The builder-deployed exchange that the first market is on.
    pub fn hip3_config(&self) -> (r: Option<Hip3MarketConfig>)
        requires
            self.markets@.len() > 0,
        ensures
            r == (match self.markets@[0].inner() {
                HyperliquidMarket::Hip3 { dex, dex_index, quote, asset_index, .. } => Some(
                    Hip3MarketConfig {
                        dex_name: dex,
                        dex_index,
                        quote_currency: quote,
                        asset_index,
                    },
                ),
                _ => None,
            }),
    {
        self.primary_market().hip3_config()
    }

    /// The JSON text of a section that a strategy reads itself, or what to say where it is
    /// missing.
    pub fn custom_section(&self, strategy_name: &str) -> (r: Result<&String, String>)
        ensures
            match r {
                Ok(text) => strmap::lookup(self.extra.list(), strategy_name@) == Some(*text),
                Err(e) => strmap::lookup(self.extra.list(), strategy_name@) is None && e@
                    == "Custom strategy config missing: add '\""@ + strategy_name@
                    + "\"' section to your JSON config"@,
            },
    {
        match self.extra.get(strategy_name) {
            Some(text) => Ok(text),
            None => Err(
                join3(
                    "Custom strategy config missing: add '\"",
                    strategy_name,
                    "\"' section to your JSON config",
                ),
            ),
        }
    }

    /// Whether key or address must come from the credentials file.
    pub fn needs_credentials_file(&self) -> (r: bool)
        ensures
            r == (self.private_key@.len() == 0 || self.address@.len() == 0),
    {
        self.private_key.as_str().unicode_len() == 0 || self.address.as_str().unicode_len() == 0
    }

    /// Key and address, by those of the credentials file.
    pub open spec fn credentials(&self, file_key: String, file_address: String) -> (String, String) {
        (
            if self.private_key@.len() == 0 {
                file_key
            } else {
                self.private_key
            },
            if self.address@.len() == 0 {
                file_address
            } else {
                self.address
            },
        )
    }

    /// Key and address: those of the configuration, and those of the credentials file where
    /// the configuration has none.
    pub fn resolve_credentials(&self, file_key: String, file_address: String) -> (r: (
        String,
        String,
    ))
        ensures
            r == self.credentials(file_key, file_address),
    {
        let key = if self.private_key.as_str().unicode_len() == 0 {
            file_key
        } else {
            self.private_key.clone()
        };
        let address = if self.address.as_str().unicode_len() == 0 {
            file_address
        } else {
            self.address.clone()
        };
        (key, address)
    }

    /// A configuration must name a market.
    pub fn check_markets(&self) -> (r: Result<(), String>)
        ensures
            r is Ok <==> self.markets@.len() > 0,
            r matches Err(e) ==> e@
                == "Config must have at least one market in the 'markets' array"@,
    {
        if self.markets.len() == 0 {
            Err("Config must have at least one market in the 'markets' array".to_owned())
        } else {
            Ok(())
        }
    }

    /// The environment that is named.
    pub fn parse_environment(&self) -> (r: Environment)
        ensures
            r == environment_of(text::lower_text(self.environment@)),
    {
        environment_named(lowercased(self.environment.as_str()).as_str())
    }

    /// The kind of strategy that is named.
    pub fn strategy(&self) -> (r: StrategyKind)
        ensures
            r == kind_of(text::lower_text(self.strategy_type@)),
    {
        strategy_kind(lowercased(self.strategy_type.as_str()).as_str())
    }

    /// The chosen and the largest leverage.
    pub open spec fn leverage_range(&self) -> Option<(Decimal, Decimal)> {
        match (self.grid, self.dca, self.arbitrage) {
            (Some(g), _, _) => both(number(g.leverage), number(g.max_leverage)),
            (None, Some(d), _) => both(number(d.leverage), number(d.max_leverage)),
            (None, None, Some(a)) => both(number(a.perp_leverage), Some(Decimal::lit(50, 0))),
            (None, None, None) => None,
        }
    }

    /// The chosen and the largest leverage of the first section that has one, looked for in
    /// the order grid, averaging, arbitrage. Arbitrage goes up to fifty.
    pub fn strategy_leverage(&self) -> (r: Option<(Decimal, Decimal)>)
        ensures
            r == self.leverage_range(),
    {
        match &self.grid {
            Some(g) => pair(
                Decimal::parse(g.leverage.as_str()),
                Decimal::parse(g.max_leverage.as_str()),
            ),
            None => match &self.dca {
                Some(d) => pair(
                    Decimal::parse(d.leverage.as_str()),
                    Decimal::parse(d.max_leverage.as_str()),
                ),
                None => match &self.arbitrage {
                    Some(a) => pair(
                        Decimal::parse(a.perp_leverage.as_str()),
                        Some(Decimal::new(50, 0)),
                    ),
                    None => None,
                },
            },
        }
    }

    /// What the whole ladder of the averaging section costs; none where a number cannot be
    /// read. A stop loss that cannot be read is left out.
    pub open spec fn dca_capital(&self, d: DCAConfigJson) -> Option<Option<Decimal>> {
        let plain = DCAConfigJson { stop_loss: None, ..d };
        if first_complaint(dca_fields(plain)) is Some {
            Some(None)
        } else {
            match dca_config(
                plain,
                StrategyId(d.direction),
                self.markets@[0],
                environment_of(text::lower_text(self.environment@)),
            ).ladder_cost() {
                Some(cost) => Some(Some(cost)),
                None => None,
            }
        }
    }

    /// The capital that the strategy of the given kind works with: the most that a grid
    /// invests, the order amount of arbitrage, or the whole ladder of averaging. The outer
    /// `None` is arithmetic that is too large.
    pub open spec fn capital(&self, kind: StrategyKind) -> Option<Option<Decimal>> {
        match kind {
            StrategyKind::Grid => Some(
                match self.grid {
                    Some(g) => number(g.max_investment_quote),
                    None => None,
                },
            ),
            StrategyKind::Arbitrage => Some(
                match self.arbitrage {
                    Some(a) => number(a.order_amount),
                    None => None,
                },
            ),
            StrategyKind::Dca => match self.dca {
                Some(d) => self.dca_capital(d),
                None => Some(None),
            },
            _ => Some(None),
        }
    }

    /// The capital that a strategy of the given kind works with, where no step is too large.
    pub fn try_capital(&self, kind: StrategyKind) -> (r: Option<Option<Decimal>>)
        requires
            kind is Dca && self.dca is Some ==> self.markets@.len() > 0,
        ensures
            r == self.capital(kind),
    {
        match kind {
            StrategyKind::Grid => Some(
                match &self.grid {
                    Some(g) => Decimal::parse(g.max_investment_quote.as_str()),
                    None => None,
                },
            ),
            StrategyKind::Arbitrage => Some(
                match &self.arbitrage {
                    Some(a) => Decimal::parse(a.order_amount.as_str()),
                    None => None,
                },
            ),
            StrategyKind::Dca => match &self.dca {
                Some(d) => {
                    let mut plain = d.clone();
                    plain.stop_loss = None;
                    match plan_dca(
                        &plain,
                        StrategyId(d.direction.clone()),
                        self.primary_market().clone(),
                        self.parse_environment(),
                    ) {
                        Ok(c) => match c.try_max_total_investment() {
                            Some(cost) => Some(Some(cost)),
                            None => None,
                        },
                        Err(_) => Some(None),
                    }
                },
                None => Some(None),
            },
            _ => Some(None),
        }
    }

    /// The capital that the named strategy works with.
    pub fn strategy_allocated_capital_usdc(&self) -> (r: Option<Decimal>)
        requires
            kind_of(text::lower_text(self.strategy_type@)) is Dca && self.dca is Some
                ==> self.markets@.len() > 0,
            self.capital(kind_of(text::lower_text(self.strategy_type@))) is Some,
        ensures
            Some(r) == self.capital(kind_of(text::lower_text(self.strategy_type@))),
    {
        self.try_capital(self.strategy()).unwrap()
    }

    /// The capital that the named strategy works with, where no step is too large. Without a
    /// market there is none for a ladder of orders.
    pub fn try_strategy_allocated_capital_usdc(&self) -> (r: Option<Option<Decimal>>)
        ensures
            ({
                let kind = kind_of(text::lower_text(self.strategy_type@));
                r == (if kind is Dca && self.dca is Some && self.markets@.len() == 0 {
                    None
                } else {
                    self.capital(kind)
                })
            }),
    {
        let kind = self.strategy();
        if let StrategyKind::Dca = kind {
            if self.dca.is_some() && self.markets.len() == 0 {
                return None;
            }
        }
        match self.try_capital(kind) {
            Some(_) => Some(self.strategy_allocated_capital_usdc()),
            None => None,
        }
    }

    /// How a simulation starts: as set, or with the defaults.
    pub fn effective_simulation_config(&self) -> (r: SimulationConfig)
        ensures
            self.simulation matches Some(s) ==> r == s,
            self.simulation is None ==> r.starting_balance_usdc@ == "10000"@ && r.fee_rate@
                == "0.00025"@,
    {
        match &self.simulation {
            Some(s) => s.clone(),
            None => SimulationConfig {
                starting_balance_usdc: default_starting_balance(),
                fee_rate: default_fee_rate(),
            },
        }
    }

    /// What a strategy is built from, or why it cannot be: the section is missing, or one
    /// of its numbers cannot be read, or the strategy is not known.
    pub open spec fn plan(&self, lower: Seq<char>, r: Result<StrategyPlan, String>) -> bool {
        let environment = environment_of(text::lower_text(self.environment@));
        match kind_of(lower) {
            StrategyKind::Arbitrage => if self.markets@.len() < 2 {
                says(
                    r,
                    "Arbitrage requires 2 markets in config: markets[0]=spot, markets[1]=perp"@,
                )
            } else {
                match self.arbitrage {
                    None => says(
                        r,
                        "Arbitrage config missing: add 'arbitrage' section to config"@,
                    ),
                    Some(j) => match first_complaint(arbitrage_fields(j)) {
                        Some(text) => says(r, text),
                        None => r matches Ok(StrategyPlan::Arbitrage(c)) && c.strategy_id@
                            == text::lower_text(self.markets@[0].inner().base_text()) + "-arb"@ && c
                            == arbitrage_config(
                            j,
                            c.strategy_id,
                            self.markets@[0],
                            self.markets@[1],
                            environment,
                        ),
                    },
                }
            },
            StrategyKind::Grid => match self.grid {
                None => says(r, "Grid config missing: add 'grid' section to config"@),
                Some(j) => match first_complaint(grid_fields(j)) {
                    Some(text) => says(r, text),
                    None => r matches Ok(StrategyPlan::Grid(c)) && c.strategy_id@
                        == self.markets@[0].inner().base_text() + "-grid"@ && c == grid_config(
                        j,
                        c.strategy_id,
                        self.markets@[0],
                        environment,
                    ),
                },
            },
            StrategyKind::Dca => match self.dca {
                None => says(r, "DCA config missing: add 'dca' section to config"@),
                Some(j) => match first_complaint(dca_fields(j)) {
                    Some(text) => says(r, text),
                    None => r matches Ok(StrategyPlan::Dca(c)) && c.strategy_id@
                        == self.markets@[0].inner().base_text() + "-dca"@ && c == dca_config(
                        j,
                        c.strategy_id,
                        self.markets@[0],
                        environment,
                    ),
                },
            },
            StrategyKind::MarketMaker => match self.mm {
                None => says(
                    r,
                    "MM config missing: add 'mm' section to config for strategy_type='mm'"@,
                ),
                Some(j) => match first_complaint(market_maker_fields(j)) {
                    Some(text) => says(r, text),
                    None => r matches Ok(StrategyPlan::MarketMaker(c)) && c.strategy_id@
                        == self.markets@[0].inner().base_text() + "-mm"@ && c
                        == market_maker_config(
                        j,
                        c.strategy_id,
                        self.markets@[0],
                        environment,
                    ),
                },
            },
            StrategyKind::TickTrader => if strmap::lookup(self.extra.list(), "tick_trader"@) is Some {
                r matches Ok(StrategyPlan::Custom(k)) && k is TickTrader
            } else {
                says(
                    r,
                    "Custom strategy config missing: add '\""@ + "tick_trader"@
                        + "\"' section to your JSON config"@,
                )
            },
            StrategyKind::Rsi => if strmap::lookup(self.extra.list(), "rsi"@) is Some {
                r matches Ok(StrategyPlan::Custom(k)) && k is Rsi
            } else {
                says(
                    r,
                    "Custom strategy config missing: add '\""@ + "rsi"@
                        + "\"' section to your JSON config"@,
                )
            },
            StrategyKind::Unknown => says(
                r,
                "Unknown strategy type: '"@ + lower
                    + "'. Built-in types: grid, dca, mm, arb. For custom strategies, see STRATEGY_API.md."@,
            ),
        }
    }

    /// The strategy with a name in small letters is built for the first market.
    pub open spec fn reads_market(self, lower: Seq<char>) -> bool {
        match kind_of(lower) {
            StrategyKind::Grid => self.grid is Some,
            StrategyKind::Dca => self.dca is Some,
            StrategyKind::MarketMaker => self.mm is Some,
            _ => false,
        }
    }

    /// What the strategy with a name in small letters is built from, or why it cannot be.
    pub fn plan_strategy(&self, lower: &str) -> (r: Result<StrategyPlan, String>)
        requires
            self.reads_market(lower@) ==> self.markets@.len() > 0,
        ensures
            self.plan(lower@, r),
    {
        let environment = self.parse_environment();
        match strategy_kind(lower) {
            StrategyKind::Arbitrage => {
                if self.markets.len() < 2 {
                    return Err(
                        "Arbitrage requires 2 markets in config: markets[0]=spot, markets[1]=perp".to_owned(),
                    );
                }
                match &self.arbitrage {
                    None => Err(
                        "Arbitrage config missing: add 'arbitrage' section to config".to_owned(),
                    ),
                    Some(j) => {
                        let id = StrategyId(
                            join2(lowercased(self.markets[0].base()).as_str(), "-arb"),
                        );
                        match plan_arbitrage(
                            j,
                            id,
                            self.markets[0].clone(),
                            self.markets[1].clone(),
                            environment,
                        ) {
                            Ok(c) => Ok(StrategyPlan::Arbitrage(c)),
                            Err(e) => Err(e),
                        }
                    },
                }
            },
            StrategyKind::Grid => match &self.grid {
                None => Err("Grid config missing: add 'grid' section to config".to_owned()),
                Some(j) => {
                    let id = StrategyId(join2(self.primary_market().base(), "-grid"));
                    match plan_grid(j, id, self.primary_market().clone(), environment) {
                        Ok(c) => Ok(StrategyPlan::Grid(c)),
                        Err(e) => Err(e),
                    }
                },
            },
            StrategyKind::Dca => match &self.dca {
                None => Err("DCA config missing: add 'dca' section to config".to_owned()),
                Some(j) => {
                    let id = StrategyId(join2(self.primary_market().base(), "-dca"));
                    match plan_dca(j, id, self.primary_market().clone(), environment) {
                        Ok(c) => Ok(StrategyPlan::Dca(c)),
                        Err(e) => Err(e),
                    }
                },
            },
            StrategyKind::MarketMaker => match &self.mm {
                None => Err(
                    "MM config missing: add 'mm' section to config for strategy_type='mm'".to_owned(),
                ),
                Some(j) => {
                    let id = StrategyId(join2(self.primary_market().base(), "-mm"));
                    match plan_market_maker(j, id, self.primary_market().clone(), environment) {
                        Ok(c) => Ok(StrategyPlan::MarketMaker(c)),
                        Err(e) => Err(e),
                    }
                },
            },
            StrategyKind::TickTrader => match self.custom_section("tick_trader") {
                Ok(_) => Ok(StrategyPlan::Custom(StrategyKind::TickTrader)),
                Err(e) => Err(e),
            },
            StrategyKind::Rsi => match self.custom_section("rsi") {
                Ok(_) => Ok(StrategyPlan::Custom(StrategyKind::Rsi)),
                Err(e) => Err(e),
            },
            StrategyKind::Unknown => Err(
                join3(
                    "Unknown strategy type: '",
                    lower,
                    "'. Built-in types: grid, dca, mm, arb. For custom strategies, see STRATEGY_API.md.",
                ),
            ),
        }
    }
}

/// The result is this refusal.
pub open spec fn says(r: Result<StrategyPlan, String>, text: Seq<char>) -> bool {
    r matches Err(e) && e@ == text
}

/// Both numbers, where both are there.
pub open spec fn both(x: Option<Decimal>, y: Option<Decimal>) -> Option<(Decimal, Decimal)> {
    match (x, y) {
        (Some(x), Some(y)) => Some((x, y)),
        _ => None,
    }
}

fn pair(x: Option<Decimal>, y: Option<Decimal>) -> (r: Option<(Decimal, Decimal)>)
    ensures
        r == both(x, y),
{
    match (x, y) {
        (Some(x), Some(y)) => Some((x, y)),
        _ => None,
    }
}

/// What the named strategy is built from, or why it cannot be.
pub fn build_strategy(config: &BotConfig) -> (r: Result<StrategyPlan, String>)
    requires
        config.reads_market(text::lower_text(config.strategy_type@)) ==> config.markets@.len() > 0,
    ensures
        config.plan(text::lower_text(config.strategy_type@), r),
{
    config.plan_strategy(lowercased(config.strategy_type.as_str()).as_str())
}

/// What the named strategy is built from, or why it cannot be; nothing where it is built for a
/// market and there is none.
pub fn try_build_strategy(config: &BotConfig) -> (r: Option<Result<StrategyPlan, String>>)
    ensures
        match r {
            Some(plan) => config.plan(text::lower_text(config.strategy_type@), plan),
            None => config.reads_market(text::lower_text(config.strategy_type@))
                && config.markets@.len() == 0,
        },
        config.markets@.len() > 0 ==> r is Some,
        !config.reads_market(text::lower_text(config.strategy_type@)) ==> r is Some,
{
    let needed = match config.strategy() {
        StrategyKind::Grid => config.grid.is_some(),
        StrategyKind::Dca => config.dca.is_some(),
        StrategyKind::MarketMaker => config.mm.is_some(),
        _ => false,
    };
    if needed && config.markets.len() == 0 {
        None
    } else {
        Some(build_strategy(config))
    }
}

/// The steps and minima of a market, or those that stand for them.
pub open spec fn steps_of(market: Market) -> InstrumentMetaConfig {
    match market.inner().meta() {
        Some(m) => m,
        None => InstrumentMetaConfig {
            tick_size: Decimal::lit(1, 1),
            lot_size: Decimal::lit(1, 4),
            min_qty: None,
            min_notional: None,
        },
    }
}

/// What is known of the instrument of a market.
pub open spec fn describes(meta: InstrumentMeta, market: Market) -> bool {
    let steps = steps_of(market);
    &&& meta.instrument_id@ == market.inner().instrument_text()
    &&& meta.market_index.0 == market.inner().asset()
    &&& meta.base_asset@ == market.inner().base_text()
    &&& meta.quote_asset@ == market.inner().quote_text()
    &&& meta.tick_size == steps.tick_size
    &&& meta.lot_size == steps.lot_size
    &&& meta.min_qty == steps.min_qty
    &&& meta.min_notional == steps.min_notional
    &&& meta.fee_asset_default matches Some(a) && a@ == market.inner().quote_text()
    &&& meta.kind == market.inner().kind()
}

fn market_meta(market: &Market) -> (r: InstrumentMeta)
    requires
        market.inner().asset() <= u32::MAX,
    ensures
        describes(r, *market),
{
    let steps = match market.instrument_meta() {
        Some(m) => *m,
        None => InstrumentMetaConfig {
            tick_size: Decimal::new(1, 1),
            lot_size: Decimal::new(1, 4),
            min_qty: None,
            min_notional: None,
        },
    };
    InstrumentMeta {
        instrument_id: market.instrument_id(),
        market_index: market.market_index(),
        base_asset: AssetId::new(market.base()),
        quote_asset: AssetId::new(market.quote()),
        tick_size: steps.tick_size,
        lot_size: steps.lot_size,
        min_qty: steps.min_qty,
        min_notional: steps.min_notional,
        fee_asset_default: Some(AssetId::new(market.quote())),
        kind: market.instrument_kind(),
    }
}

/// What is known of the instrument of the first market.
pub fn build_instrument_meta(config: &BotConfig) -> (r: InstrumentMeta)
    requires
        config.markets@.len() > 0,
        config.markets@[0].inner().asset() <= u32::MAX,
    ensures
        describes(r, config.markets@[0]),
{
    market_meta(config.primary_market())
}

/// What is known of the instruments of all markets, in their order.
pub fn build_instrument_metas(config: &BotConfig) -> (r: Vec<InstrumentMeta>)
    requires
        forall|i: int|
            0 <= i < config.markets@.len() ==> #[trigger] config.markets@[i].inner().asset()
                <= u32::MAX,
    ensures
        r@.len() == config.markets@.len(),
        forall|i: int|
            0 <= i < r@.len() ==> describes(#[trigger] r@[i], config.markets@[i]),
{
    let mut out: Vec<InstrumentMeta> = Vec::new();
    let mut i: usize = 0;
    while i < config.markets.len()
        invariant
            i <= config.markets@.len(),
            out@.len() == i,
            forall|k: int|
                0 <= k < config.markets@.len() ==> #[trigger] config.markets@[k].inner().asset()
                    <= u32::MAX,
            forall|k: int| 0 <= k < i ==> describes(#[trigger] out@[k], config.markets@[k]),
        decreases config.markets@.len() - i,
    {
        out.push(market_meta(&config.markets[i]));
        i = i + 1;
    }
    out
}

} // verus!
