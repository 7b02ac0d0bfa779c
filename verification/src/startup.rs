//! How a run starts: the arguments, the balances and quotes of a simulation, and what is set up
//! for a live one.
use vstd::prelude::*;
use vstd::string::*;
use crate::text;
use crate::sync;
use crate::decimal;
use crate::config;
use crate::account_syncer::AccountSyncerConfig;
use crate::config::{BotConfig, GridConfigJson};
use crate::decimal::Decimal;
use crate::decimal::{difference, quotient, sum};
use crate::hl_types::{BuilderFee, Hip3Config, HyperliquidConfig, OutcomeConfig};
use crate::market::{HyperliquidMarket, Market};
use crate::strmap::StrMap;
use crate::sync::seconds;
use crate::text::{join3, lowercased, parse_unsigned, same_text, trim_trailing, without_prefix, without_suffix};
use crate::trade_syncer::{SyncRequest, TradeSyncerConfig};
use crate::types::{Environment, InstrumentId, InstrumentKind, InstrumentMeta, MarketIndex, Price, Qty, Quote, SyncMechanism};

verus! {

/// Where orders go.
#[derive(Debug)]
pub enum TradingMode {
    /// To the exchange.
    Live,
    /// Nowhere: fills are simulated on live quotes.
    Paper,
    /// Nowhere: fills are simulated on the prices of a file.
    Backtest { prices_path: String },
}

impl Default for TradingMode {
    fn default() -> (r: TradingMode)
        ensures
            r is Live,
    {
        TradingMode::Live
    }
}

impl TradingMode {
    /// The name under which figures are reported.
    pub fn metrics_mode(&self) -> (r: &'static str)
        ensures
            r@ == (match self {
                TradingMode::Live => "live"@,
                TradingMode::Paper => "paper"@,
                TradingMode::Backtest { .. } => "backtest"@,
            }),
    {
        match self {
            TradingMode::Live => "live",
            TradingMode::Paper => "paper",
            TradingMode::Backtest { .. } => "backtest",
        }
    }

    /// The wait between two rounds: none in a backtest.
    pub fn poll_delay(&self, configured_ms: u64) -> (r: u64)
        ensures
            r == (if self is Backtest {
                0
            } else {
                configured_ms
            }),
    {
        match self {
            TradingMode::Backtest { .. } => 0,
            _ => configured_ms,
        }
    }

    /// What the figures of a run are measured against.
    pub open spec fn measured_against(&self, capital: Option<Decimal>, starting_balance: String) -> Option<
        Decimal,
    > {
        if capital is Some || self is Live {
            capital
        } else {
            config::number(starting_balance)
        }
    }

    /// What the figures of a run are measured against: the capital of the strategy, or where it is
    /// not known, the starting balance of a simulation.
    pub fn metrics_balance(&self, capital: Option<Decimal>, starting_balance: &String) -> (r: Option<
        Decimal,
    >)
        ensures
            r == self.measured_against(capital, *starting_balance),
    {
        match (self, capital) {
            (_, Some(c)) => Some(c),
            (TradingMode::Live, None) => None,
            (_, None) => Decimal::parse(starting_balance.as_str()),
        }
    }

    /// The user is registered for fills: only live, where fills are polled for.
    pub fn registers_user(&self, sync: SyncMechanism) -> (r: bool)
        ensures
            r == (self is Live && sync is Poll),
    {
        match (self, sync) {
            (TradingMode::Live, SyncMechanism::Poll) => true,
            _ => false,
        }
    }
}

/// What the arguments ask for.
#[derive(Debug)]
pub struct Arguments {
    pub config_path: Option<String>,
    pub dry_run: bool,
    pub prices_path: Option<String>,
    pub paper: bool,
    /// Help is asked for, and nothing after it counts.
    pub help: bool,
}

/// Whether a mode in small letters is paper trading; none where the mode is not known.
pub open spec fn paper_mode(lower: Seq<char>) -> Option<bool> {
    if lower == "paper"@ {
        Some(true)
    } else if lower == "live"@ {
        Some(false)
    } else {
        None
    }
}

/// Whether a mode in small letters is paper trading; none where the mode is not known.
pub fn mode_named(lower: &str) -> (r: Option<bool>)
    ensures
        r == paper_mode(lower@),
{
    if same_text(lower, "paper") {
        Some(true)
    } else if same_text(lower, "live") {
        Some(false)
    } else {
        None
    }
}

/// What the arguments from one on ask for, after what those before it did. An option at the end
/// that lacks its value is passed over, and so is what is not known.
pub open spec fn arguments_from(args: Seq<String>, i: int, a: Arguments) -> Arguments
    decreases args.len() - i,
{
    if i >= args.len() {
        a
    } else {
        let s = args[i]@;
        let valued = i + 1 < args.len();
        if s == "--config"@ || s == "-c"@ {
            if valued {
                arguments_from(args, i + 2, Arguments { config_path: Some(args[i + 1]), ..a })
            } else {
                a
            }
        } else if s == "--dry-run"@ || s == "-d"@ {
            arguments_from(args, i + 1, Arguments { dry_run: true, ..a })
        } else if s == "--prices"@ || s == "-p"@ {
            if valued {
                arguments_from(args, i + 2, Arguments { prices_path: Some(args[i + 1]), ..a })
            } else {
                a
            }
        } else if s == "--mode"@ || s == "-m"@ {
            if valued {
                arguments_from(
                    args,
                    i + 2,
                    match paper_mode(text::lower_text(args[i + 1]@)) {
                        Some(paper) => Arguments { paper, ..a },
                        None => a,
                    },
                )
            } else {
                a
            }
        } else if s == "--help"@ || s == "-h"@ {
            Arguments { help: true, ..a }
        } else {
            arguments_from(args, i + 1, a)
        }
    }
}

/// Nothing asked for.
pub open spec fn no_arguments() -> Arguments {
    Arguments {
        config_path: None,
        dry_run: false,
        prices_path: None,
        paper: false,
        help: false,
    }
}

/// Reads the arguments; the first is the name of the program.
pub fn parse_args(args: &Vec<String>) -> (r: Arguments)
    ensures
        r == arguments_from(args@, 1, no_arguments()),
{
    let mut a = Arguments {
        config_path: None,
        dry_run: false,
        prices_path: None,
        paper: false,
        help: false,
    };
    let n: usize = args.len();
    let mut i: usize = 1;
    while i < n
        invariant
            n == args@.len(),
            1 <= i,
            i <= n || n == 0,
            arguments_from(args@, i as int, a) == arguments_from(args@, 1, no_arguments()),
        decreases n - i,
    {
        let s = args[i].as_str();
        if same_text(s, "--config") || same_text(s, "-c") {
            if i + 1 >= n {
                return a;
            }
            a.config_path = Some(args[i + 1].clone());
            i = i + 2;
        } else if same_text(s, "--dry-run") || same_text(s, "-d") {
            a.dry_run = true;
            i = i + 1;
        } else if same_text(s, "--prices") || same_text(s, "-p") {
            if i + 1 >= n {
                return a;
            }
            a.prices_path = Some(args[i + 1].clone());
            i = i + 2;
        } else if same_text(s, "--mode") || same_text(s, "-m") {
            if i + 1 >= n {
                return a;
            }
            if let Some(paper) = mode_named(lowercased(args[i + 1].as_str()).as_str()) {
                a.paper = paper;
            }
            i = i + 2;
        } else if same_text(s, "--help") || same_text(s, "-h") {
            a.help = true;
            return a;
        } else {
            i = i + 1;
        }
    }
    a
}

impl Arguments {
    /// The mode that is asked for.
    pub open spec fn mode_asked(&self) -> TradingMode {
        match self.prices_path {
            Some(p) => TradingMode::Backtest { prices_path: p },
            None => if self.paper {
                TradingMode::Paper
            } else {
                TradingMode::Live
            },
        }
    }

    /// The mode: a backtest where there are prices, whatever else is asked for.
    pub fn mode(&self) -> (r: TradingMode)
        ensures
            r == self.mode_asked(),
    {
        match &self.prices_path {
            Some(p) => TradingMode::Backtest { prices_path: p.clone() },
            None => if self.paper {
                TradingMode::Paper
            } else {
                TradingMode::Live
            },
        }
    }
}

/// The balances that a simulation starts with: the two common currencies, and the quote assets
/// of the first `n` instruments.
pub open spec fn sim_balances(metas: Seq<InstrumentMeta>, n: nat, start: Decimal) -> Map<
    Seq<char>,
    Decimal,
>
    decreases n,
{
    if n == 0 {
        Map::empty().insert("USDC"@, start).insert("USDH"@, start)
    } else {
        let before = sim_balances(metas, (n - 1) as nat, start);
        if before.contains_key(metas[n - 1].quote_asset@) {
            before
        } else {
            before.insert(metas[n - 1].quote_asset@, start)
        }
    }
}

/// The balances that a simulation starts with.
pub fn seeded_sim_balances(metas: &Vec<InstrumentMeta>, starting_balance: Decimal) -> (r: StrMap<
    Decimal,
>)
    ensures
        r@ == sim_balances(metas@, metas@.len(), starting_balance),
{
    let mut balances: StrMap<Decimal> = StrMap::new();
    balances.insert("USDC".to_owned(), starting_balance);
    balances.insert("USDH".to_owned(), starting_balance);
    let mut i: usize = 0;
    while i < metas.len()
        invariant
            i <= metas@.len(),
            balances@ == sim_balances(metas@, i as nat, starting_balance),
        decreases metas@.len() - i,
    {
        let asset = &metas[i].quote_asset;
        if !balances.contains(asset.as_str()) {
            balances.insert(asset.0.clone(), starting_balance);
        }
        i = i + 1;
    }
    balances
}

/// How much of the base assets a grid that sells first may need.
#[derive(Debug, Clone, Copy)]
pub enum Stock {
    /// Nothing.
    Nothing,
    Needs(Decimal),
    /// More than can be counted.
    TooLarge,
}

/// What a grid, whose mode in small letters is given, may sell before it has bought: all its
/// money's worth at its lowest price.
pub open spec fn stock_of(grid: GridConfigJson, lower: Seq<char>) -> Stock {
    if lower != "short"@ && lower != "neutral"@ {
        Stock::Nothing
    } else {
        match (config::number(grid.start_price), config::number(grid.end_price), config::number(grid.max_investment_quote)) {
            (Some(a), Some(b), Some(q)) => {
                let low = if decimal::lt(a, b) {
                    a
                } else {
                    b
                };
                if decimal::le(low, decimal::zero()) {
                    Stock::Nothing
                } else {
                    match decimal::over(Some(q), Some(low)) {
                        Some(x) => Stock::Needs(x),
                        None => Stock::TooLarge,
                    }
                }
            },
            _ => Stock::Nothing,
        }
    }
}

/// What a grid, whose mode in small letters is given, may sell before it has bought.
pub fn seed_stock(grid: &GridConfigJson, lower: &str) -> (r: Stock)
    ensures
        r == stock_of(*grid, lower@),
{
    if !same_text(lower, "short") && !same_text(lower, "neutral") {
        return Stock::Nothing;
    }
    match (
        Decimal::parse(grid.start_price.as_str()),
        Decimal::parse(grid.end_price.as_str()),
        Decimal::parse(grid.max_investment_quote.as_str()),
    ) {
        (Some(a), Some(b), Some(q)) => {
            let low = if a.below(b) {
                a
            } else {
                b
            };
            if low.at_most(Decimal::zero()) {
                return Stock::Nothing;
            }
            match quotient(Some(q), Some(low)) {
                Some(x) => Stock::Needs(x),
                None => Stock::TooLarge,
            }
        },
        _ => Stock::Nothing,
    }
}

/// The balances with at least that much of the base assets of the first `n` instruments, as far
/// as these are bought outright.
pub open spec fn stocked(
    balances: Map<Seq<char>, Decimal>,
    metas: Seq<InstrumentMeta>,
    n: nat,
    qty: Decimal,
) -> Map<Seq<char>, Decimal>
    decreases n,
{
    if n == 0 {
        balances
    } else {
        let before = stocked(balances, metas, (n - 1) as nat, qty);
        let asset = metas[n - 1].base_asset@;
        if !metas[n - 1].kind.spot_like() || (before.contains_key(asset) && !decimal::lt(
            before[asset],
            qty,
        )) {
            before
        } else {
            before.insert(asset, qty)
        }
    }
}

fn stock(balances: &mut StrMap<Decimal>, metas: &Vec<InstrumentMeta>, qty: Decimal)
    ensures
        final(balances)@ == stocked(old(balances)@, metas@, metas@.len(), qty),
{
    let mut i: usize = 0;
    while i < metas.len()
        invariant
            i <= metas@.len(),
            balances@ == stocked(old(balances)@, metas@, i as nat, qty),
        decreases metas@.len() - i,
    {
        let meta = &metas[i];
        if meta.kind.is_spot_like() {
            let enough = match balances.get(meta.base_asset.as_str()) {
                Some(held) => !held.below(qty),
                None => false,
            };
            if !enough {
                balances.insert(meta.base_asset.0.clone(), qty);
            }
        }
        i = i + 1;
    }
}

/// The balances that a backtest starts with, by the stock of its grid.
pub open spec fn backtest_balances(
    stock: Stock,
    metas: Seq<InstrumentMeta>,
    start: Decimal,
) -> Option<Map<Seq<char>, Decimal>> {
    let cash = sim_balances(metas, metas.len(), start);
    match stock {
        Stock::Nothing => Some(cash),
        Stock::Needs(qty) => Some(stocked(cash, metas, metas.len(), qty)),
        Stock::TooLarge => None,
    }
}

/// The balances that a backtest starts with, by the stock of its grid.
pub fn backtest_balances_with(stock_needed: Stock, metas: &Vec<InstrumentMeta>, start: Decimal) -> (r:
    Option<StrMap<Decimal>>)
    ensures
        match r {
            Some(m) => backtest_balances(stock_needed, metas@, start) == Some(m@),
            None => backtest_balances(stock_needed, metas@, start) is None,
        },
{
    let mut balances = seeded_sim_balances(metas, start);
    match stock_needed {
        Stock::Nothing => Some(balances),
        Stock::Needs(qty) => {
            stock(&mut balances, metas, qty);
            Some(balances)
        },
        Stock::TooLarge => None,
    }
}

/// The stock of the grid of a configuration, where it has one.
pub open spec fn config_stock(config: BotConfig) -> Stock {
    match config.grid {
        Some(g) => stock_of(g, text::lower_text(g.mode@)),
        None => Stock::Nothing,
    }
}

/// The balances that a backtest starts with, unless they cannot be counted.
pub fn seeded_backtest_balances(config: &BotConfig, metas: &Vec<InstrumentMeta>, start: Decimal) -> (r:
    Option<StrMap<Decimal>>)
    ensures
        match r {
            Some(m) => backtest_balances(config_stock(*config), metas@, start) == Some(m@),
            None => backtest_balances(config_stock(*config), metas@, start) is None,
        },
{
    let needed = match &config.grid {
        Some(g) => seed_stock(g, lowercased(g.mode.as_str()).as_str()),
        None => Stock::Nothing,
    };
    backtest_balances_with(needed, metas, start)
}

/// The distance between bid and ask in a backtest.
pub open spec fn spread_of(meta: InstrumentMeta) -> Decimal {
    if meta.kind is Outcome {
        meta.tick_size
    } else {
        Decimal::lit(10, 1)
    }
}

/// The distance between bid and ask in a backtest.
pub fn backtest_spread(meta: &InstrumentMeta) -> (r: Decimal)
    ensures
        r == spread_of(*meta),
{
    match meta.kind {
        InstrumentKind::Outcome => meta.tick_size,
        _ => Decimal::new(10, 1),
    }
}

/// Bid and ask at a price in a backtest: half the spread to either side, and for an outcome
/// between zero and one.
pub open spec fn bid_ask(meta: InstrumentMeta, price: Option<Decimal>) -> Option<(Decimal, Decimal)> {
    let half = decimal::over(Some(spread_of(meta)), Some(Decimal::lit(2, 0)));
    match (decimal::minus(price, half), decimal::plus(price, half)) {
        (Some(b), Some(a)) => if meta.kind is Outcome {
            Some((decimal::clamped(b, decimal::zero(), decimal::one()), decimal::clamped(a, decimal::zero(), decimal::one())))
        } else {
            Some((b, a))
        },
        _ => None,
    }
}

/// A price of an instrument at a time; none where it is too large.
pub struct Priced {
    pub instrument: Seq<char>,
    pub meta: InstrumentMeta,
    pub price: Option<Decimal>,
    pub ts: i64,
}

/// The quote shows the price.
pub open spec fn quotes_price(q: Quote, p: Priced) -> bool {
    &&& q.instrument@ == p.instrument
    &&& bid_ask(p.meta, p.price) == Some((q.bid.0, q.ask.0))
    &&& q.bid_size == Qty(Decimal::lit(1000, 0))
    &&& q.ask_size == Qty(Decimal::lit(1000, 0))
    &&& q.ts == p.ts
}

/// The quotes show the prices.
pub open spec fn quote_prices(q: Seq<Quote>, p: Seq<Priced>) -> bool {
    q.len() == p.len() && forall|i: int| 0 <= i < p.len() ==> quotes_price(#[trigger] q[i], p[i])
}

/// One of the prices cannot be quoted, because a number gets too large.
pub open spec fn unquotable(p: Seq<Priced>) -> bool {
    exists|i: int| 0 <= i < p.len() && bid_ask((#[trigger] p[i]).meta, p[i].price) is None
}

fn unit_clamp(x: Decimal) -> (r: Decimal)
    ensures
        r == decimal::clamped(x, decimal::zero(), decimal::one()),
{
    let lo = Decimal::zero();
    let hi = Decimal::one();
    if x.below(lo) {
        lo
    } else if hi.below(x) {
        hi
    } else {
        x
    }
}

/// The quote of an instrument at a price in a backtest, unless a number gets too large.
pub fn quote_from_backtest_price(
    instrument: &InstrumentId,
    meta: &InstrumentMeta,
    price: Option<Decimal>,
    ts: i64,
) -> (r: Option<Quote>)
    ensures
        match r {
            Some(q) => q.instrument == *instrument && quotes_price(
                q,
                (Priced { instrument: instrument@, meta: *meta, price, ts }),
            ),
            None => bid_ask(*meta, price) is None,
        },
{
    let half = quotient(Some(backtest_spread(meta)), Some(Decimal::new(2, 0)));
    match (difference(price, half), sum(price, half)) {
        (Some(b), Some(a)) => {
            let (bid, ask) = match meta.kind {
                InstrumentKind::Outcome => (unit_clamp(b), unit_clamp(a)),
                _ => (b, a),
            };
            Some(
                Quote {
                    instrument: instrument.clone(),
                    bid: Price(bid),
                    ask: Price(ask),
                    bid_size: Qty(Decimal::new(1000, 0)),
                    ask_size: Qty(Decimal::new(1000, 0)),
                    ts,
                },
            )
        },
        _ => None,
    }
}

/// A price of a file.
#[derive(Debug)]
pub struct BacktestPricePoint {
    pub ts: i64,
    pub price: String,
}

/// The number in the name of an outcome's instrument.
pub open spec fn encoding_in(s: Seq<char>) -> Option<nat> {
    let rest = s.subrange(1, s.len() as int);
    if text::begins_with(s, "#"@) && text::finishes_with(rest, "-OUTCOME"@) {
        text::unsigned_value(rest.subrange(0, rest.len() - 8), u32::MAX as nat)
    } else {
        None
    }
}

/// The number in the name of an outcome's instrument.
pub fn outcome_encoding_from_instrument(instrument: &InstrumentId) -> (r: Option<u32>)
    ensures
        match r {
            Some(n) => encoding_in(instrument@) == Some(n as nat),
            None => encoding_in(instrument@) is None,
        },
{
    proof {
        reveal_strlit("#");
        reveal_strlit("-OUTCOME");
    }
    match without_prefix(instrument.as_str(), "#") {
        None => None,
        Some(rest) => {
            assert(rest@ =~= instrument@.subrange(1, instrument@.len() as int));
            match without_suffix(rest, "-OUTCOME") {
                None => None,
                Some(middle) => {
                    assert(middle@ =~= rest@.subrange(0, rest@.len() - 8));
                    match parse_unsigned(middle, u32::MAX as u64) {
                        Some(n) => Some(n as u32),
                        None => None,
                    }
                },
            }
        },
    }
}

/// The price of an instrument by that of the first market: the same for that market, and what
/// is left to one for the other side of its outcome. The inner one is none where it is too
/// large.
pub open spec fn side_price(primary: HyperliquidMarket, instrument: Seq<char>, price: Decimal) -> Option<
    Option<Decimal>,
> {
    if instrument == primary.instrument_text() {
        Some(Some(price))
    } else {
        match (primary, encoding_in(instrument)) {
            (HyperliquidMarket::Outcome { outcome_id, side, .. }, Some(n)) => if n / 10
                != outcome_id || n % 10 == side {
                None
            } else {
                Some(
                    match decimal::minus(Some(decimal::one()), Some(price)) {
                        Some(x) => Some(decimal::clamped(x, decimal::zero(), decimal::one())),
                        None => None,
                    },
                )
            },
            _ => None,
        }
    }
}

/// The price of an instrument by that of the first market.
pub fn outcome_backtest_price_for_instrument(
    config: &BotConfig,
    instrument: &InstrumentId,
    price: Decimal,
) -> (r: Option<Option<Decimal>>)
    requires
        config.markets@.len() > 0,
        config.markets@[0].inner().named(),
    ensures
        r == side_price(config.markets@[0].inner(), instrument@, price),
{
    let primary = config.instrument_id();
    if instrument.same(&primary) {
        return Some(Some(price));
    }
    match (config.primary_market().outcome_params(), outcome_encoding_from_instrument(instrument)) {
        (Some(p), Some(n)) => {
            if n / 10 != p.0 || n % 10 == p.1 as u32 {
                return None;
            }
            Some(
                match difference(Some(Decimal::one()), Some(price)) {
                    Some(x) => Some(unit_clamp(x)),
                    None => None,
                },
            )
        },
        _ => None,
    }
}

/// The prices of the outcomes among the first `n` instruments by that of the first market.
pub open spec fn sides(
    primary: HyperliquidMarket,
    metas: Seq<InstrumentMeta>,
    n: nat,
    price: Decimal,
    ts: i64,
) -> Seq<Priced>
    decreases n,
{
    if n == 0 {
        Seq::empty()
    } else {
        let before = sides(primary, metas, (n - 1) as nat, price, ts);
        let meta = metas[n - 1];
        match side_price(primary, meta.instrument_id@, price) {
            Some(p) => if meta.kind is Outcome {
                before.push(Priced { instrument: meta.instrument_id@, meta, price: p, ts })
            } else {
                before
            },
            None => before,
        }
    }
}

/// The prices that the first `n` points of a file stand for: those of both sides of an outcome,
/// or that of the first market. A point that is no number is passed over.
pub open spec fn single_prices(
    both_sides: bool,
    primary: HyperliquidMarket,
    metas: Seq<InstrumentMeta>,
    first: InstrumentMeta,
    points: Seq<BacktestPricePoint>,
    n: nat,
) -> Seq<Priced>
    decreases n,
{
    if n == 0 {
        Seq::empty()
    } else {
        let before = single_prices(both_sides, primary, metas, first, points, (n - 1) as nat);
        let point = points[n - 1];
        match config::number(point.price) {
            None => before,
            Some(price) => if both_sides {
                before + sides(primary, metas, metas.len(), price, point.ts)
            } else {
                before.push(
                    Priced {
                        instrument: primary.instrument_text(),
                        meta: first,
                        price: Some(price),
                        ts: point.ts,
                    },
                )
            },
        }
    }
}

proof fn lemma_unquotable_grows(a: Seq<Priced>, b: Seq<Priced>)
    requires
        unquotable(a),
        a.is_prefix_of(b),
    ensures
        unquotable(b),
{
    let i = choose|i: int| 0 <= i < a.len() && bid_ask((#[trigger] a[i]).meta, a[i].price) is None;
    assert(b[i] == a[i]);
}

proof fn lemma_single_prefix(
    both_sides: bool,
    primary: HyperliquidMarket,
    metas: Seq<InstrumentMeta>,
    first: InstrumentMeta,
    points: Seq<BacktestPricePoint>,
    a: nat,
    b: nat,
)
    requires
        a <= b,
    ensures
        single_prices(both_sides, primary, metas, first, points, a).is_prefix_of(
            single_prices(both_sides, primary, metas, first, points, b),
        ),
    decreases b - a,
{
    if a < b {
        lemma_single_prefix(both_sides, primary, metas, first, points, a, (b - 1) as nat);
        let x = single_prices(both_sides, primary, metas, first, points, (b - 1) as nat);
        let y = single_prices(both_sides, primary, metas, first, points, b);
        assert(x.is_prefix_of(y)) by {
            assert(x =~= y.subrange(0, x.len() as int));
        }
    }
}

fn push_priced(
    out: &mut Vec<Quote>,
    instrument: &InstrumentId,
    meta: &InstrumentMeta,
    price: Option<Decimal>,
    ts: i64,
) -> (ok: bool)
    ensures
        ok == (bid_ask(*meta, price) is Some),
        forall|p: Seq<Priced>|
            ok && quote_prices(old(out)@, p) ==> #[trigger] quote_prices(
                final(out)@,
                p.push(Priced { instrument: instrument@, meta: *meta, price, ts }),
            ),
        !ok ==> final(out)@ == old(out)@,
{
    match quote_from_backtest_price(instrument, meta, price, ts) {
        Some(q) => {
            out.push(q);
            assert forall|p: Seq<Priced>| quote_prices(old(out)@, p) implies #[trigger] quote_prices(
                out@,
                p.push(Priced { instrument: instrument@, meta: *meta, price, ts }),
            ) by {
                let t = p.push(Priced { instrument: instrument@, meta: *meta, price, ts });
                assert forall|i: int| 0 <= i < t.len() implies quotes_price(
                    #[trigger] out@[i],
                    t[i],
                ) by {
                    if i < p.len() {
                        assert(out@[i] == old(out)@[i]);
                    }
                }
            }
            true
        },
        None => false,
    }
}

fn push_sides(
    out: &mut Vec<Quote>,
    Ghost(head): Ghost<Seq<Priced>>,
    config: &BotConfig,
    metas: &Vec<InstrumentMeta>,
    price: Decimal,
    ts: i64,
) -> (ok: bool)
    requires
        config.markets@.len() > 0,
        config.markets@[0].inner().named(),
        quote_prices(old(out)@, head),
    ensures
        ({
            let p = sides(config.markets@[0].inner(), metas@, metas@.len(), price, ts);
            if ok {
                quote_prices(final(out)@, head + p)
            } else {
                unquotable(p)
            }
        }),
{
    let ghost primary = config.markets@[0].inner();
    let mut i: usize = 0;
    assert(head + sides(primary, metas@, 0, price, ts) =~= head);
    while i < metas.len()
        invariant
            config.markets@.len() > 0,
            config.markets@[0].inner().named(),
            primary == config.markets@[0].inner(),
            i <= metas@.len(),
            quote_prices(out@, head + sides(primary, metas@, i as nat, price, ts)),
        decreases metas@.len() - i,
    {
        let meta = &metas[i];
        let ghost before = sides(primary, metas@, i as nat, price, ts);
        if let InstrumentKind::Outcome = meta.kind {
            if let Some(p) = outcome_backtest_price_for_instrument(
                config,
                &meta.instrument_id,
                price,
            ) {
                let ghost item = Priced {
                    instrument: meta.instrument_id@,
                    meta: *meta,
                    price: p,
                    ts,
                };
                if !push_priced(out, &meta.instrument_id, meta, p, ts) {
                    proof {
                        let here = sides(primary, metas@, (i + 1) as nat, price, ts);
                        assert(here == before.push(item));
                        assert(here[before.len() as int] == item);
                        assert(unquotable(here));
                        lemma_sides_prefix(primary, metas@, (i + 1) as nat, metas@.len(), price, ts);
                        lemma_unquotable_grows(
                            here,
                            sides(primary, metas@, metas@.len(), price, ts),
                        );
                    }
                    return false;
                }
                assert((head + before).push(item) =~= head + before.push(item));
                assert(quote_prices(out@, (head + before).push(item)));
            }
        }
        i = i + 1;
    }
    true
}

proof fn lemma_sides_prefix(
    primary: HyperliquidMarket,
    metas: Seq<InstrumentMeta>,
    a: nat,
    b: nat,
    price: Decimal,
    ts: i64,
)
    requires
        a <= b,
    ensures
        sides(primary, metas, a, price, ts).is_prefix_of(sides(primary, metas, b, price, ts)),
    decreases b - a,
{
    if a < b {
        lemma_sides_prefix(primary, metas, a, (b - 1) as nat, price, ts);
        let x = sides(primary, metas, (b - 1) as nat, price, ts);
        let y = sides(primary, metas, b, price, ts);
        assert(x =~= y.subrange(0, x.len() as int));
    }
}

/// Whether the prices stand for both sides of an outcome, by the strategy in small letters.
pub open spec fn for_both_sides(config: BotConfig, lower: Seq<char>) -> bool {
    lower == "orchestrator"@ && config.markets@[0].inner() is Outcome
}

/// The quotes of a file with the prices of one market, for a strategy whose name in small
/// letters is given, unless a number gets too large.
pub fn single_quotes(
    config: &BotConfig,
    lower: &str,
    metas: &Vec<InstrumentMeta>,
    first: &InstrumentMeta,
    points: &Vec<BacktestPricePoint>,
) -> (r: Option<Vec<Quote>>)
    requires
        config.markets@.len() > 0,
        config.markets@[0].inner().named(),
    ensures
        ({
            let p = single_prices(
                for_both_sides(*config, lower@),
                config.markets@[0].inner(),
                metas@,
                *first,
                points@,
                points@.len(),
            );
            match r {
                Some(q) => quote_prices(q@, p),
                None => unquotable(p),
            }
        }),
{
    let ghost primary = config.markets@[0].inner();
    let instrument = config.instrument_id();
    let both = same_text(lower, "orchestrator") && config.is_outcome();
    let mut out: Vec<Quote> = Vec::new();
    let mut i: usize = 0;
    while i < points.len()
        invariant
            config.markets@.len() > 0,
            config.markets@[0].inner().named(),
            primary == config.markets@[0].inner(),
            instrument@ == primary.instrument_text(),
            both == for_both_sides(*config, lower@),
            i <= points@.len(),
            quote_prices(
                out@,
                single_prices(both, primary, metas@, *first, points@, i as nat),
            ),
        decreases points@.len() - i,
    {
        let ghost head = single_prices(both, primary, metas@, *first, points@, i as nat);
        let ghost here = single_prices(both, primary, metas@, *first, points@, (i + 1) as nat);
        let ts: i64 = points[i].ts;
        if let Some(price) = Decimal::parse(points[i].price.as_str()) {
            let ok = if both {
                push_sides(&mut out, Ghost(head), config, metas, price, ts)
            } else {
                push_priced(&mut out, &instrument, first, Some(price), ts)
            };
            if !ok {
                proof {
                    if both {
                        let p = sides(primary, metas@, metas@.len(), price, ts);
                        assert(here == head + p);
                        let k = choose|k: int|
                            0 <= k < p.len() && bid_ask((#[trigger] p[k]).meta, p[k].price) is None;
                        assert(here[head.len() + k] == p[k]);
                    } else {
                        assert(here[head.len() as int].price == Some(price));
                    }
                    assert(unquotable(here));
                    lemma_single_prefix(
                        both,
                        primary,
                        metas@,
                        *first,
                        points@,
                        (i + 1) as nat,
                        points@.len(),
                    );
                    lemma_unquotable_grows(
                        here,
                        single_prices(both, primary, metas@, *first, points@, points@.len()),
                    );
                }
                return None;
            }
            assert(quote_prices(out@, here));
        }
        i = i + 1;
    }
    Some(out)
}

/// The quotes of a file with the prices of one market, unless a number gets too large.
pub fn quotes_from_single_backtest_prices(
    config: &BotConfig,
    metas: &Vec<InstrumentMeta>,
    first: &InstrumentMeta,
    points: &Vec<BacktestPricePoint>,
) -> (r: Option<Vec<Quote>>)
    requires
        config.markets@.len() > 0,
        config.markets@[0].inner().named(),
    ensures
        ({
            let p = single_prices(
                for_both_sides(*config, text::lower_text(config.strategy_type@)),
                config.markets@[0].inner(),
                metas@,
                *first,
                points@,
                points@.len(),
            );
            match r {
                Some(q) => quote_prices(q@, p),
                None => unquotable(p),
            }
        }),
{
    single_quotes(
        config,
        lowercased(config.strategy_type.as_str()).as_str(),
        metas,
        first,
        points,
    )
}

/// The last of the first `n` instruments with a name, where there is one.
pub open spec fn meta_named(metas: Seq<InstrumentMeta>, name: Seq<char>, n: nat) -> Option<
    InstrumentMeta,
>
    decreases n,
{
    if n == 0 {
        None
    } else if metas[n - 1].instrument_id@ == name {
        Some(metas[n - 1])
    } else {
        meta_named(metas, name, (n - 1) as nat)
    }
}

fn find_meta<'a>(metas: &'a Vec<InstrumentMeta>, name: &str) -> (r: Option<&'a InstrumentMeta>)
    ensures
        r == (match meta_named(metas@, name@, metas@.len()) {
            Some(m) => Some(&m),
            None => None,
        }),
{
    let mut n: usize = metas.len();
    while n > 0
        invariant
            n <= metas@.len(),
            meta_named(metas@, name@, n as nat) == meta_named(metas@, name@, metas@.len()),
        decreases n,
    {
        if same_text(metas[n - 1].instrument_id.as_str(), name) {
            return Some(&metas[n - 1]);
        }
        n = n - 1;
    }
    None
}

/// The prices that the first `n` points of an instrument stand for.
pub open spec fn point_prices(
    meta: InstrumentMeta,
    points: Seq<BacktestPricePoint>,
    n: nat,
) -> Seq<Priced>
    decreases n,
{
    if n == 0 {
        Seq::empty()
    } else {
        let before = point_prices(meta, points, (n - 1) as nat);
        match config::number(points[n - 1].price) {
            None => before,
            Some(price) => before.push(
                Priced {
                    instrument: meta.instrument_id@,
                    meta,
                    price: Some(price),
                    ts: points[n - 1].ts,
                },
            ),
        }
    }
}

/// The prices of the first `n` instruments of a file. One that is not known is passed over.
pub open spec fn multi_prices(
    metas: Seq<InstrumentMeta>,
    rows: Seq<(String, Vec<BacktestPricePoint>)>,
    n: nat,
) -> Seq<Priced>
    decreases n,
{
    if n == 0 {
        Seq::empty()
    } else {
        let before = multi_prices(metas, rows, (n - 1) as nat);
        match meta_named(metas, rows[n - 1].0@, metas.len()) {
            None => before,
            Some(meta) => before + point_prices(meta, rows[n - 1].1@, rows[n - 1].1@.len()),
        }
    }
}

fn push_points(
    out: &mut Vec<Quote>,
    Ghost(head): Ghost<Seq<Priced>>,
    meta: &InstrumentMeta,
    points: &Vec<BacktestPricePoint>,
) -> (ok: bool)
    requires
        quote_prices(old(out)@, head),
    ensures
        ({
            let p = point_prices(*meta, points@, points@.len());
            if ok {
                quote_prices(final(out)@, head + p)
            } else {
                unquotable(p)
            }
        }),
{
    let mut i: usize = 0;
    assert(head + point_prices(*meta, points@, 0) =~= head);
    while i < points.len()
        invariant
            i <= points@.len(),
            quote_prices(out@, head + point_prices(*meta, points@, i as nat)),
        decreases points@.len() - i,
    {
        let ghost before = point_prices(*meta, points@, i as nat);
        let ts: i64 = points[i].ts;
        if let Some(price) = Decimal::parse(points[i].price.as_str()) {
            let ghost item = Priced {
                instrument: meta.instrument_id@,
                meta: *meta,
                price: Some(price),
                ts,
            };
            if !push_priced(out, &meta.instrument_id, meta, Some(price), ts) {
                proof {
                    let here = point_prices(*meta, points@, (i + 1) as nat);
                    assert(here == before.push(item));
                    assert(here[before.len() as int] == item);
                    assert(unquotable(here));
                    lemma_points_prefix(*meta, points@, (i + 1) as nat, points@.len());
                    lemma_unquotable_grows(here, point_prices(*meta, points@, points@.len()));
                }
                return false;
            }
            assert((head + before).push(item) =~= head + before.push(item));
            assert(quote_prices(out@, (head + before).push(item)));
        }
        i = i + 1;
    }
    true
}

proof fn lemma_points_prefix(
    meta: InstrumentMeta,
    points: Seq<BacktestPricePoint>,
    a: nat,
    b: nat,
)
    requires
        a <= b,
    ensures
        point_prices(meta, points, a).is_prefix_of(point_prices(meta, points, b)),
    decreases b - a,
{
    if a < b {
        lemma_points_prefix(meta, points, a, (b - 1) as nat);
        let x = point_prices(meta, points, (b - 1) as nat);
        let y = point_prices(meta, points, b);
        assert(x =~= y.subrange(0, x.len() as int));
    }
}

proof fn lemma_multi_prefix(
    metas: Seq<InstrumentMeta>,
    rows: Seq<(String, Vec<BacktestPricePoint>)>,
    a: nat,
    b: nat,
)
    requires
        a <= b,
    ensures
        multi_prices(metas, rows, a).is_prefix_of(multi_prices(metas, rows, b)),
    decreases b - a,
{
    if a < b {
        lemma_multi_prefix(metas, rows, a, (b - 1) as nat);
        let x = multi_prices(metas, rows, (b - 1) as nat);
        let y = multi_prices(metas, rows, b);
        assert(x =~= y.subrange(0, x.len() as int));
    }
}

/// Behind the last quote that is not later.
pub open spec fn slot(s: Seq<Quote>, ts: i64) -> int
    decreases s.len(),
{
    if s.len() == 0 || s.last().ts <= ts {
        s.len() as int
    } else {
        slot(s.drop_last(), ts)
    }
}

/// The quotes from the earliest to the latest; those of one time stay in their order.
pub open spec fn in_time(s: Seq<Quote>) -> Seq<Quote>
    decreases s.len(),
{
    if s.len() == 0 {
        s
    } else {
        let rest = in_time(s.drop_last());
        rest.insert(slot(rest, s.last().ts), s.last())
    }
}

/// No quote comes before an earlier one.
pub open spec fn ordered(s: Seq<Quote>) -> bool {
    forall|i: int, j: int| 0 <= i < j < s.len() ==> (#[trigger] s[i]).ts <= (#[trigger] s[j]).ts
}

proof fn lemma_slot(s: Seq<Quote>, ts: i64)
    requires
        ordered(s),
    ensures
        0 <= slot(s, ts) <= s.len(),
        forall|i: int| 0 <= i < slot(s, ts) ==> (#[trigger] s[i]).ts <= ts,
        forall|i: int| slot(s, ts) <= i < s.len() ==> (#[trigger] s[i]).ts > ts,
    decreases s.len(),
{
    if s.len() > 0 && s.last().ts > ts {
        let t = s.drop_last();
        assert forall|i: int, j: int| 0 <= i < j < t.len() implies (#[trigger] t[i]).ts <= (
        #[trigger] t[j]).ts by {
            assert(t[i] == s[i] && t[j] == s[j]);
        }
        lemma_slot(t, ts);
        assert forall|i: int| 0 <= i < slot(s, ts) implies (#[trigger] s[i]).ts <= ts by {
            assert(t[i] == s[i]);
        }
        assert forall|i: int| slot(s, ts) <= i < s.len() implies (#[trigger] s[i]).ts > ts by {
            if i < t.len() {
                assert(t[i] == s[i]);
            }
        }
    } else {
        assert forall|i: int| 0 <= i < s.len() implies (#[trigger] s[i]).ts <= ts by {
            assert(s[s.len() - 1] == s.last());
            if i < s.len() - 1 {
                assert(s[i].ts <= s[s.len() - 1].ts);
            }
        }
    }
}

/// The quotes of a backtest are replayed in the order of time, and each once.
pub proof fn law_quotes_in_time(s: Seq<Quote>)
    ensures
        ordered(in_time(s)),
        in_time(s).to_multiset() == s.to_multiset(),
    decreases s.len(),
{
    broadcast use vstd::seq_lib::group_to_multiset_ensures;

    if s.len() > 0 {
        let rest = in_time(s.drop_last());
        let x = s.last();
        law_quotes_in_time(s.drop_last());
        lemma_slot(rest, x.ts);
        let at = slot(rest, x.ts);
        let t = rest.insert(at, x);
        assert forall|i: int, j: int| 0 <= i < j < t.len() implies (#[trigger] t[i]).ts <= (
        #[trigger] t[j]).ts by {
            let a = if i < at {
                i
            } else {
                i - 1
            };
            let b = if j < at {
                j
            } else {
                j - 1
            };
            if i != at {
                assert(t[i] == rest[a]);
            }
            if j != at {
                assert(t[j] == rest[b]);
            }
            if i != at && j != at {
                assert(rest[a].ts <= rest[b].ts);
            }
        }
        assert(s =~= s.drop_last().push(x));
        vstd::seq_lib::to_multiset_insert(rest, at, x);
    }
}

fn sort_quotes(quotes: Vec<Quote>) -> (r: Vec<Quote>)
    ensures
        r@ == in_time(quotes@),
{
    let mut out: Vec<Quote> = Vec::new();
    let mut i: usize = 0;
    assert(quotes@.subrange(0, 0) =~= Seq::empty());
    assert(out@ =~= in_time(Seq::empty()));
    while i < quotes.len()
        invariant
            i <= quotes@.len(),
            out@ == in_time(quotes@.subrange(0, i as int)),
        decreases quotes@.len() - i,
    {
        let quote = quotes[i].clone();
        assert(quotes@.subrange(0, i + 1).drop_last() =~= quotes@.subrange(0, i as int));
        let mut at: usize = out.len();
        assert(out@.subrange(0, at as int) =~= out@);
        while at > 0 && out[at - 1].ts > quote.ts
            invariant
                at <= out@.len(),
                slot(out@.subrange(0, at as int), quote.ts) == slot(out@, quote.ts),
            decreases at,
        {
            assert(out@.subrange(0, at as int).drop_last() =~= out@.subrange(0, at - 1));
            at = at - 1;
        }
        assert(slot(out@.subrange(0, at as int), quote.ts) == at) by {
            let t = out@.subrange(0, at as int);
            if at > 0 {
                assert(t.last() == out@[at - 1]);
            }
        }
        out.insert(at, quote);
        i = i + 1;
    }
    assert(quotes@.subrange(0, quotes@.len() as int) =~= quotes@);
    out
}

/// The quotes are those of the prices, brought into the order of time.
pub open spec fn replays(q: Seq<Quote>, p: Seq<Priced>) -> bool {
    exists|s: Seq<Quote>| #[trigger] quote_prices(s, p) && q == in_time(s)
}

/// The quotes of a file with the prices of several instruments, in the order of time, unless a
/// number gets too large.
pub fn quotes_from_multi_backtest_prices(
    metas: &Vec<InstrumentMeta>,
    rows: &Vec<(String, Vec<BacktestPricePoint>)>,
) -> (r: Option<Vec<Quote>>)
    ensures
        match r {
            Some(q) => replays(q@, multi_prices(metas@, rows@, rows@.len())),
            None => unquotable(multi_prices(metas@, rows@, rows@.len())),
        },
{
    let mut out: Vec<Quote> = Vec::new();
    let mut i: usize = 0;
    while i < rows.len()
        invariant
            i <= rows@.len(),
            quote_prices(out@, multi_prices(metas@, rows@, i as nat)),
        decreases rows@.len() - i,
    {
        let ghost head = multi_prices(metas@, rows@, i as nat);
        let ghost here = multi_prices(metas@, rows@, (i + 1) as nat);
        if let Some(meta) = find_meta(metas, rows[i].0.as_str()) {
            if !push_points(&mut out, Ghost(head), meta, &rows[i].1) {
                proof {
                    let p = point_prices(*meta, rows@[i as int].1@, rows@[i as int].1@.len());
                    assert(here == head + p);
                    let k = choose|k: int|
                        0 <= k < p.len() && bid_ask((#[trigger] p[k]).meta, p[k].price) is None;
                    assert(here[head.len() + k] == p[k]);
                    assert(unquotable(here));
                    lemma_multi_prefix(metas@, rows@, (i + 1) as nat, rows@.len());
                    lemma_unquotable_grows(here, multi_prices(metas@, rows@, rows@.len()));
                }
                return None;
            }
        }
        i = i + 1;
    }
    Some(sort_quotes(out))
}

/// How the client reaches the exchange, by the configuration of the bot.
pub open spec fn client_config(config: BotConfig, environment: Environment) -> HyperliquidConfig {
    let market = config.markets@[0].inner();
    HyperliquidConfig {
        environment,
        private_key: config.private_key,
        main_address: Some(config.address),
        vault_address: config.vault_address,
        timeout_secs: 10,
        proxy_url: None,
        base_url_override: None,
        builder_fee: match config.builder_fee {
            Some(b) => Some(BuilderFee { address: b.address, fee_tenths_bp: b.fee_tenths_bp }),
            None => None,
        },
        hip3: match market {
            HyperliquidMarket::Hip3 { dex, dex_index, quote, asset_index, .. } => Some(
                Hip3Config {
                    dex_name: dex,
                    dex_index,
                    quote_currency: quote,
                    asset_index,
                },
            ),
            _ => None,
        },
        is_spot: market is Spot,
        spot_coin: match market {
            HyperliquidMarket::Spot { base, .. } => Some(base),
            _ => None,
        },
        spot_market_index: match market {
            HyperliquidMarket::Spot { index, .. } => Some(index),
            _ => None,
        },
        is_outcome: market is Outcome,
        outcome: match market {
            HyperliquidMarket::Outcome { outcome_id, side, name, .. } => Some(
                OutcomeConfig { outcome_id, side, name },
            ),
            _ => None,
        },
    }
}

/// How the client reaches the exchange, by the configuration of the bot.
pub fn hyperliquid_config(config: &BotConfig, environment: Environment) -> (r: HyperliquidConfig)
    requires
        config.markets@.len() > 0,
    ensures
        r == client_config(*config, environment),
{
    HyperliquidConfig {
        environment,
        private_key: config.private_key.clone(),
        main_address: Some(config.address.clone()),
        vault_address: match &config.vault_address {
            Some(a) => Some(a.clone()),
            None => None,
        },
        timeout_secs: 10,
        proxy_url: None,
        base_url_override: None,
        builder_fee: match &config.builder_fee {
            Some(b) => Some(
                BuilderFee { address: b.address.clone(), fee_tenths_bp: b.fee_tenths_bp },
            ),
            None => None,
        },
        hip3: match config.hip3_config() {
            Some(h) => Some(
                Hip3Config {
                    dex_name: h.dex_name,
                    dex_index: h.dex_index,
                    quote_currency: h.quote_currency,
                    asset_index: h.asset_index,
                },
            ),
            None => None,
        },
        is_spot: config.is_spot(),
        spot_coin: config.primary_market().spot_coin(),
        spot_market_index: config.primary_market().spot_market_index(),
        is_outcome: config.is_outcome(),
        outcome: match config.primary_market().outcome_params() {
            Some(p) => Some(OutcomeConfig { outcome_id: p.0, side: p.1, name: p.2 }),
            None => None,
        },
    }
}

/// The strategy hedges one market with another.
pub open spec fn hedges(config: BotConfig) -> bool {
    config.strategy_type@ == "arbitrage"@ || config.strategy_type@ == "arb"@
}

fn is_arb(config: &BotConfig) -> (r: bool)
    ensures
        r == hedges(*config),
{
    same_text(config.strategy_type.as_str(), "arbitrage") || same_text(
        config.strategy_type.as_str(),
        "arb",
    )
}

/// The leverage that a text denotes, as a whole number.
pub open spec fn whole_leverage(s: String) -> Option<u32> {
    match config::number(s) {
        Some(d) => if d.m() >= 0 && d.m() / crate::decimal::pow10(d.s()) <= u32::MAX {
            Some((d.m() / crate::decimal::pow10(d.s())) as u32)
        } else {
            None
        },
        None => None,
    }
}

fn read_leverage(s: &String) -> (r: Option<u32>)
    ensures
        r == whole_leverage(*s),
{
    match Decimal::parse(s.as_str()) {
        Some(d) => d.to_u32(),
        None => None,
    }
}

/// The leverage that is set before trading.
pub open spec fn leverage_set(config: BotConfig, mode: TradingMode) -> Option<u32> {
    if mode is Live && (config.markets@[0].inner().kind() is Perp || hedges(config)) {
        match (config.grid, config.dca, config.arbitrage) {
            (Some(g), _, _) => whole_leverage(g.leverage),
            (None, Some(d), _) => whole_leverage(d.leverage),
            (None, None, Some(a)) => whole_leverage(a.perp_leverage),
            (None, None, None) => None,
        }
    } else {
        None
    }
}

/// The leverage that is set before trading: only live, and only where positions are held on
/// margin.
pub fn live_leverage(config: &BotConfig, mode: &TradingMode) -> (r: Option<u32>)
    requires
        config.markets@.len() > 0,
    ensures
        r == leverage_set(*config, *mode),
{
    let live = match mode {
        TradingMode::Live => true,
        _ => false,
    };
    if !live || !(config.primary_market_uses_margin() || is_arb(config)) {
        return None;
    }
    match &config.grid {
        Some(g) => read_leverage(&g.leverage),
        None => match &config.dca {
            Some(d) => read_leverage(&d.leverage),
            None => match &config.arbitrage {
                Some(a) => read_leverage(&a.perp_leverage),
                None => None,
            },
        },
    }
}

/// The first market from one on whose positions are held on margin.
pub open spec fn margin_market(markets: Seq<Market>, i: int) -> Option<Market>
    decreases markets.len() - i,
{
    if i >= markets.len() {
        None
    } else if markets[i].inner().kind() is Perp {
        Some(markets[i])
    } else {
        margin_market(markets, i + 1)
    }
}

/// The market whose leverage is set.
pub open spec fn leveraged(config: BotConfig) -> Market {
    match margin_market(config.markets@, 0) {
        Some(m) => if hedges(config) {
            m
        } else {
            config.markets@[0]
        },
        None => config.markets@[0],
    }
}

/// The market whose leverage is set: a strategy that hedges holds margin in the first market
/// that has it, any other in its first market.
pub fn leverage_market(config: &BotConfig) -> (r: MarketIndex)
    requires
        config.markets@.len() > 0,
        leveraged(*config).inner().asset() <= u32::MAX,
    ensures
        r.0 == leveraged(*config).inner().asset(),
{
    if is_arb(config) {
        let mut i: usize = 0;
        while i < config.markets.len()
            invariant
                i <= config.markets@.len(),
                config.markets@.len() > 0,
                hedges(*config),
                leveraged(*config).inner().asset() <= u32::MAX,
                margin_market(config.markets@, 0) == margin_market(config.markets@, i as int),
            decreases config.markets@.len() - i,
        {
            if config.markets[i].uses_margin() {
                return config.markets[i].market_index();
            }
            i = i + 1;
        }
    }
    config.market_index()
}

/// How fills are reported, where they are.
pub open spec fn trades_reported(config: BotConfig, instruments: Vec<InstrumentId>) -> Option<
    TradeSyncerConfig,
> {
    match config.sync {
        Some(s) => if s.enabled {
            Some(
                TradeSyncerConfig {
                    bot_id: s.bot_id,
                    upstream_url: s.upstream_url,
                    sync_interval_ms: s.sync_interval_ms,
                    timeout_secs: s.timeout_secs,
                    max_retries: 3,
                    retry_delay_ms: 1000,
                    instruments,
                },
            )
        } else {
            None
        },
        None => None,
    }
}

/// How fills are reported, where that is set and switched on.
pub fn trade_syncer_config(config: &BotConfig, instruments: Vec<InstrumentId>) -> (r: Option<
    TradeSyncerConfig,
>)
    ensures
        r == trades_reported(*config, instruments),
{
    match &config.sync {
        Some(s) => if s.enabled {
            Some(
                TradeSyncerConfig {
                    bot_id: s.bot_id.clone(),
                    upstream_url: s.upstream_url.clone(),
                    sync_interval_ms: s.sync_interval_ms,
                    timeout_secs: s.timeout_secs,
                    max_retries: 3,
                    retry_delay_ms: 1000,
                    instruments,
                },
            )
        } else {
            None
        },
        None => None,
    }
}

/// How the account is reported, where it is.
pub open spec fn account_reported(config: BotConfig, sync: SyncMechanism) -> Option<
    AccountSyncerConfig,
> {
    match config.sync {
        Some(s) => if s.enabled && sync is Snapshot {
            Some(
                AccountSyncerConfig {
                    bot_id: s.bot_id,
                    upstream_url: s.upstream_url,
                    sync_interval_ms: 10_000,
                    timeout_secs: 10,
                    max_retries: 3,
                    retry_delay_ms: 1000,
                },
            )
        } else {
            None
        },
        None => None,
    }
}

/// How the account is reported: only for a strategy that works on snapshots, where reports are
/// set and switched on.
pub fn account_syncer_config(config: &BotConfig, sync: SyncMechanism) -> (r: Option<
    AccountSyncerConfig,
>)
    ensures
        r == account_reported(*config, sync),
{
    match (&config.sync, sync) {
        (Some(s), SyncMechanism::Snapshot) => if s.enabled {
            Some(
                AccountSyncerConfig {
                    bot_id: s.bot_id.clone(),
                    upstream_url: s.upstream_url.clone(),
                    sync_interval_ms: 10_000,
                    timeout_secs: 10,
                    max_retries: 3,
                    retry_delay_ms: 1000,
                },
            )
        } else {
            None
        },
        _ => None,
    }
}

/// The report tells a failed start, to where reports go; there is none where none are made.
pub open spec fn tells_failed_start(
    config: BotConfig,
    reason: Seq<char>,
    now: i64,
    r: Option<(String, SyncRequest)>,
) -> bool {
    match (config.sync, r) {
        (Some(s), Some((url, q))) => {
            &&& s.enabled && s.bot_id@.len() > 0 && s.upstream_url@.len() > 0
            &&& url@ == text::without_trailing(s.upstream_url@, '/') + "/sync/"@ + s.bot_id@
            &&& q.trades@.len() == 0
            &&& q.ts == sync::seconds_of(now as int)
            &&& q.current_price is None
            &&& q.stop_bot
            &&& q.stop_reason@ == reason
        },
        (Some(s), None) => !s.enabled || s.bot_id@.len() == 0 || s.upstream_url@.len() == 0,
        (None, r) => r is None,
    }
}

/// The report of a failed start and where it goes, where reports are set and switched on.
pub fn init_error_report(config: &BotConfig, reason: &str, now: i64) -> (r: Option<
    (String, SyncRequest),
>)
    ensures
        tells_failed_start(*config, reason@, now, r),
{
    match &config.sync {
        Some(s) => {
            if !s.enabled || s.bot_id.as_str().unicode_len() == 0
                || s.upstream_url.as_str().unicode_len() == 0 {
                return None;
            }
            let url = join3(
                trim_trailing(s.upstream_url.as_str(), '/'),
                "/sync/",
                s.bot_id.as_str(),
            );
            Some(
                (
                    url,
                    SyncRequest {
                        trades: Vec::new(),
                        ts: seconds(now),
                        current_price: None,
                        stop_bot: true,
                        stop_reason: reason.to_owned(),
                    },
                ),
            )
        },
        None => None,
    }
}

/// The number in a text, or another where it holds none.
pub open spec fn number_or(s: Seq<char>, other: Decimal) -> Decimal {
    match decimal::opt_of(decimal::decimal_parsed(s)) {
        Some(d) => d,
        None => other,
    }
}

/// What a simulation starts with and what it charges, by its settings.
pub fn simulation_numbers(starting_balance: &String, fee_rate: &String) -> (r: (Decimal, Decimal))
    ensures
        r.0 == number_or(starting_balance@, Decimal::lit(10_000, 0)),
        r.1 == number_or(fee_rate@, Decimal::lit(25, 5)),
{
    let start = match Decimal::parse(starting_balance.as_str()) {
        Some(d) => d,
        None => Decimal::new(10_000, 0),
    };
    let fee = match Decimal::parse(fee_rate.as_str()) {
        Some(d) => d,
        None => Decimal::new(25, 5),
    };
    (start, fee)
}

/// The two sides of an outcome are priced against each other: what one gains the other loses,
/// as long as the price is between zero and one and the difference is exact.
pub proof fn law_sides_complement(primary: HyperliquidMarket, other: Seq<char>, price: Decimal)
    requires
        other != primary.instrument_text(),
        side_price(primary, other, price) is Some,
        decimal::minus(Some(decimal::one()), Some(price)) matches Some(x) && decimal::le(decimal::zero(), x) && decimal::le(x, decimal::one()),
    ensures
        side_price(primary, primary.instrument_text(), price) == Some(Some(price)),
        side_price(primary, other, price) == Some(decimal::minus(Some(decimal::one()), Some(price))),
{
}

/// The number in the name of an outcome's instrument is the one it was named after, and there
/// is none in the name of any other instrument.
pub proof fn law_outcome_name_reads_back(market: HyperliquidMarket)
    requires
        market.named(),
    ensures
        encoding_in(market.instrument_text()) == (match market {
            HyperliquidMarket::Outcome { outcome_id, side, .. } => Some(
                crate::market::encoding_of(outcome_id, side) as nat,
            ),
            _ => None,
        }),
{
    reveal_strlit("#");
    reveal_strlit("-OUTCOME");
    reveal_strlit("-PERP");
    reveal_strlit("-SPOT");
    let s = market.instrument_text();
    let rest = s.subrange(1, s.len() as int);
    match market {
        HyperliquidMarket::Outcome { outcome_id, side, .. } => {
            let n = crate::market::encoding_of(outcome_id, side) as nat;
            text::law_digits_read_back(n, u32::MAX as nat);
            assert(rest =~= text::digits(n) + "-OUTCOME"@);
            assert(s.subrange(0, 1) =~= "#"@);
            assert(rest.subrange(rest.len() - 8, rest.len() as int) =~= "-OUTCOME"@);
            assert(rest.subrange(0, rest.len() - 8) =~= text::digits(n));
        },
        _ => {
            assert(s.last() != 'E');
            assert(rest.last() == s.last());
            if text::finishes_with(rest, "-OUTCOME"@) {
                assert(rest.subrange(rest.len() - 8, rest.len() as int)[7] == rest.last());
                assert("-OUTCOME"@[7] == 'E');
            }
        },
    }
}

} // verus!
