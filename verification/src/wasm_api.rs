//! A backtest on prices handed over by a page: what it starts with and the quotes it replays.
use vstd::prelude::*;
use vstd::string::*;
use crate::config;
use crate::decimal;
use crate::startup;
use crate::text;
use crate::config::BotConfig;
use crate::decimal::Decimal;
use crate::decimal::{difference, quotient, sum};
use crate::startup::simulation_numbers;
use crate::strmap::StrMap;
use crate::types::{InstrumentId, Price, Qty, Quote};

verus! {

/// A price of the page.
#[derive(Debug)]
pub struct JsPricePoint {
    pub ts_ms: i64,
    pub price: String,
}

/// What a backtest starts with.
#[derive(Debug, Clone, Copy)]
pub struct BacktestFunds {
    /// What the figures of the run are measured against.
    pub capital: Decimal,
    /// What the simulated account holds.
    pub balance: Decimal,
    /// What the simulated exchange charges.
    pub fee_rate: Decimal,
}

/// What a backtest starts with, by the capital of the strategy, the balance of the simulation
/// and its fee: the account holds the larger of the two.
pub open spec fn funds(capital: Option<Decimal>, balance: Decimal, fee_rate: Decimal) -> BacktestFunds {
    let own = match capital {
        Some(c) => c,
        None => balance,
    };
    BacktestFunds {
        capital: own,
        balance: if decimal::lt(own, balance) {
            balance
        } else {
            own
        },
        fee_rate,
    }
}

/// The starting balance and the fee of the simulation, as set or by default.
pub open spec fn simulation_texts(config: BotConfig) -> (Seq<char>, Seq<char>) {
    match config.simulation {
        Some(s) => (s.starting_balance_usdc@, s.fee_rate@),
        None => ("10000"@, "0.00025"@),
    }
}

/// What a backtest starts with, unless the capital of the strategy is too large a number.
pub fn backtest_funds(config: &BotConfig) -> (r: Option<BacktestFunds>)
    requires
        config.markets@.len() > 0,
    ensures
        ({
            let capital = config.capital(
                config::kind_of(text::lower_text(config.strategy_type@)),
            );
            match r {
                Some(f) => capital is Some && f == funds(
                    capital->0,
                    startup::number_or(simulation_texts(*config).0, Decimal::lit(10_000, 0)),
                    startup::number_or(simulation_texts(*config).1, Decimal::lit(25, 5)),
                ),
                None => capital is None,
            }
        }),
{
    let capital = match config.try_strategy_allocated_capital_usdc() {
        Some(c) => c,
        None => {
            return None;
        },
    };
    let simulation = config.effective_simulation_config();
    let (balance, fee_rate) = simulation_numbers(
        &simulation.starting_balance_usdc,
        &simulation.fee_rate,
    );
    let own = match capital {
        Some(c) => c,
        None => balance,
    };
    Some(
        BacktestFunds {
            capital: own,
            balance: if own.below(balance) {
                balance
            } else {
                own
            },
            fee_rate,
        },
    )
}

/// The balances of the simulated account.
pub fn initial_balances(balance: Decimal) -> (r: StrMap<Decimal>)
    ensures
        r@ == Map::<Seq<char>, Decimal>::empty().insert("USDC"@, balance),
{
    let mut balances: StrMap<Decimal> = StrMap::new();
    balances.insert("USDC".to_owned(), balance);
    balances
}

/// The first `n` points that are numbers, with their times.
pub open spec fn numbers(points: Seq<JsPricePoint>, n: nat) -> Seq<(Decimal, i64)>
    decreases n,
{
    if n == 0 {
        Seq::empty()
    } else {
        let before = numbers(points, (n - 1) as nat);
        match config::number(points[n - 1].price) {
            Some(price) => before.push((price, points[n - 1].ts_ms)),
            None => before,
        }
    }
}

/// Bid and ask around a price, a whole apart, unless one of them is too large.
pub open spec fn around(price: Decimal) -> Option<(Decimal, Decimal)> {
    let half = decimal::over(Some(Decimal::lit(10, 1)), Some(Decimal::lit(2, 0)));
    match (decimal::minus(Some(price), half), decimal::plus(Some(price), half)) {
        (Some(bid), Some(ask)) => Some((bid, ask)),
        _ => None,
    }
}

/// The quote shows the price at its time.
pub open spec fn shows(q: Quote, instrument: Seq<char>, point: (Decimal, i64)) -> bool {
    &&& q.instrument@ == instrument
    &&& around(point.0) == Some((q.bid.0, q.ask.0))
    &&& q.bid_size == Qty(Decimal::lit(1000, 0))
    &&& q.ask_size == Qty(Decimal::lit(1000, 0))
    &&& q.ts == point.1
}

proof fn lemma_numbers_prefix(points: Seq<JsPricePoint>, a: nat, b: nat)
    requires
        a <= b,
    ensures
        numbers(points, a).is_prefix_of(numbers(points, b)),
    decreases b - a,
{
    if a < b {
        lemma_numbers_prefix(points, a, (b - 1) as nat);
        let x = numbers(points, (b - 1) as nat);
        let y = numbers(points, b);
        assert(x =~= y.subrange(0, x.len() as int));
    }
}

/// The quotes of the points, of which those that are no numbers are passed over, unless a number
/// gets too large.
pub fn quotes_of_points(instrument: &InstrumentId, points: &Vec<JsPricePoint>) -> (r: Option<
    Vec<Quote>,
>)
    ensures
        ({
            let p = numbers(points@, points@.len());
            match r {
                Some(q) => q@.len() == p.len() && forall|i: int|
                    0 <= i < p.len() ==> shows(#[trigger] q@[i], instrument@, p[i]),
                None => exists|i: int| 0 <= i < p.len() && around((#[trigger] p[i]).0) is None,
            }
        }),
{
    let half = quotient(Some(Decimal::new(10, 1)), Some(Decimal::new(2, 0)));
    let mut out: Vec<Quote> = Vec::new();
    let mut i: usize = 0;
    while i < points.len()
        invariant
            i <= points@.len(),
            half == decimal::over(Some(Decimal::lit(10, 1)), Some(Decimal::lit(2, 0))),
            out@.len() == numbers(points@, i as nat).len(),
            forall|k: int|
                0 <= k < out@.len() ==> shows(
                    #[trigger] out@[k],
                    instrument@,
                    numbers(points@, i as nat)[k],
                ),
        decreases points@.len() - i,
    {
        if let Some(price) = Decimal::parse(points[i].price.as_str()) {
            let ghost here = numbers(points@, (i + 1) as nat);
            match (difference(Some(price), half), sum(Some(price), half)) {
                (Some(bid), Some(ask)) => {
                    out.push(
                        Quote {
                            instrument: instrument.clone(),
                            bid: Price(bid),
                            ask: Price(ask),
                            bid_size: Qty(Decimal::new(1000, 0)),
                            ask_size: Qty(Decimal::new(1000, 0)),
                            ts: points[i].ts_ms,
                        },
                    );
                },
                _ => {
                    proof {
                        let k = here.len() - 1;
                        assert(around(here[k].0) is None);
                        lemma_numbers_prefix(points@, (i + 1) as nat, points@.len());
                        assert(numbers(points@, points@.len())[k] == here[k]);
                    }
                    return None;
                },
            }
        }
        i = i + 1;
    }
    Some(out)
}

/// The account can pay for what the strategy works with.
pub proof fn law_account_covers_capital(capital: Option<Decimal>, balance: Decimal, fee_rate: Decimal)
    ensures
        ({
            let f = funds(capital, balance, fee_rate);
            !decimal::lt(f.balance, f.capital) && !decimal::lt(f.balance, balance)
        }),
{
}

} // verus!
