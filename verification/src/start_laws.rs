//! A run starts as it was asked to.
use vstd::prelude::*;
use crate::config;
use crate::decimal;
use crate::market;
use crate::startup;
use crate::text;
use crate::config::{BotConfig, GridConfigJson};
use crate::decimal::{Decimal, DecimalView};
use crate::market::{HyperliquidMarket, Market};
use crate::startup::{Arguments, BacktestPricePoint, Priced, Stock, TradingMode};
use crate::types::{Environment, InstrumentMeta};

verus! {

/// One in units.
pub open spec fn unit() -> int {
    decimal::pow10(28)
}

/// An argument from one on is one of two words.
pub open spec fn given(args: Seq<String>, i: int, long: Seq<char>, short: Seq<char>) -> bool {
    exists|k: int| i <= k < args.len() && ((#[trigger] args[k])@ == long || args[k]@ == short)
}

/// A text is the value of an argument from one on that is one of two words.
pub open spec fn value_given(
    args: Seq<String>,
    i: int,
    long: Seq<char>,
    short: Seq<char>,
    value: String,
) -> bool {
    exists|k: int|
        i <= k < args.len() - 1 && ((#[trigger] args[k])@ == long || args[k]@ == short) && args[k + 1]
            == value
}

/// A text whose small letters are a mode is the value of an argument from one on.
pub open spec fn mode_given(args: Seq<String>, i: int, mode: Seq<char>) -> bool {
    exists|k: int|
        i <= k < args.len() - 1 && ((#[trigger] args[k])@ == "--mode"@ || args[k]@ == "-m"@)
            && text::lower_text(args[k + 1]@) == mode
}

/// What was asked for before the arguments from one on, or is asked for by them.
pub open spec fn asked(args: Seq<String>, i: int, a: Arguments, r: Arguments) -> bool {
    &&& r.dry_run ==> a.dry_run || given(args, i, "--dry-run"@, "-d"@)
    &&& r.help ==> a.help || given(args, i, "--help"@, "-h"@)
    &&& r.config_path != a.config_path ==> (r.config_path matches Some(v) && value_given(
        args,
        i,
        "--config"@,
        "-c"@,
        v,
    ))
    &&& r.prices_path != a.prices_path ==> (r.prices_path matches Some(v) && value_given(
        args,
        i,
        "--prices"@,
        "-p"@,
        v,
    ))
    &&& r.paper && !a.paper ==> mode_given(args, i, "paper"@)
    &&& !r.paper && a.paper ==> mode_given(args, i, "live"@)
    &&& a.dry_run ==> r.dry_run
    &&& a.help ==> r.help
}

/// Nothing is set that the arguments did not ask for, and nothing that was asked for is lost.
pub proof fn law_only_what_is_asked_for_is_set(args: Seq<String>, i: int, a: Arguments)
    requires
        0 <= i,
    ensures
        asked(args, i, a, startup::arguments_from(args, i, a)),
    decreases args.len() - i,
{
    let r = startup::arguments_from(args, i, a);
    if i < args.len() {
        let s = args[i]@;
        let valued = i + 1 < args.len();
        if s == "--config"@ || s == "-c"@ {
            if valued {
                let b = Arguments { config_path: Some(args[i + 1]), ..a };
                law_only_what_is_asked_for_is_set(args, i + 2, b);
                lemma_asked_later(args, i, i + 2, b, r);
                assert(value_given(args, i, "--config"@, "-c"@, args[i + 1]));
            }
        } else if s == "--dry-run"@ || s == "-d"@ {
            let b = Arguments { dry_run: true, ..a };
            law_only_what_is_asked_for_is_set(args, i + 1, b);
            lemma_asked_later(args, i, i + 1, b, r);
            assert(given(args, i, "--dry-run"@, "-d"@));
        } else if s == "--prices"@ || s == "-p"@ {
            if valued {
                let b = Arguments { prices_path: Some(args[i + 1]), ..a };
                law_only_what_is_asked_for_is_set(args, i + 2, b);
                lemma_asked_later(args, i, i + 2, b, r);
                assert(value_given(args, i, "--prices"@, "-p"@, args[i + 1]));
            }
        } else if s == "--mode"@ || s == "-m"@ {
            if valued {
                let b = match startup::paper_mode(text::lower_text(args[i + 1]@)) {
                    Some(paper) => Arguments { paper, ..a },
                    None => a,
                };
                law_only_what_is_asked_for_is_set(args, i + 2, b);
                lemma_asked_later(args, i, i + 2, b, r);
                if text::lower_text(args[i + 1]@) == "paper"@ {
                    assert(mode_given(args, i, "paper"@));
                }
                if text::lower_text(args[i + 1]@) == "live"@ {
                    assert(mode_given(args, i, "live"@));
                }
            }
        } else if s == "--help"@ || s == "-h"@ {
            assert(given(args, i, "--help"@, "-h"@));
        } else {
            law_only_what_is_asked_for_is_set(args, i + 1, a);
            lemma_asked_later(args, i, i + 1, a, r);
        }
    }
}

proof fn lemma_given_later(args: Seq<String>, i: int, j: int, long: Seq<char>, short: Seq<char>)
    requires
        i <= j,
    ensures
        given(args, j, long, short) ==> given(args, i, long, short),
        forall|v: String|
            value_given(args, j, long, short, v) ==> #[trigger] value_given(args, i, long, short, v),
{
}

proof fn lemma_asked_later(args: Seq<String>, i: int, j: int, a: Arguments, r: Arguments)
    requires
        i <= j,
        asked(args, j, a, r),
    ensures
        asked(args, i, a, r),
{
    lemma_given_later(args, i, j, "--dry-run"@, "-d"@);
    lemma_given_later(args, i, j, "--help"@, "-h"@);
    lemma_given_later(args, i, j, "--config"@, "-c"@);
    lemma_given_later(args, i, j, "--prices"@, "-p"@);
}

/// A word that is known is obeyed where it stands, whatever comes behind it: the flags alone, and
/// the others with the value behind them, of which the last one counts.
pub proof fn law_what_is_asked_for_is_set(args: Seq<String>, i: int, a: Arguments)
    requires
        0 <= i < args.len(),
    ensures
        ({
            let (s, r) = (args[i]@, startup::arguments_from(args, i, a));
            let valued = i + 1 < args.len();
            let last = i + 2 == args.len();
            &&& s == "--dry-run"@ || s == "-d"@ ==> r.dry_run
            &&& s == "--help"@ || s == "-h"@ ==> r.help
            &&& (s == "--config"@ || s == "-c"@) && valued ==> r.config_path is Some
            &&& (s == "--prices"@ || s == "-p"@) && valued ==> r.prices_path is Some
            &&& (s == "--config"@ || s == "-c"@) && last ==> r.config_path == Some(args[i + 1])
            &&& (s == "--prices"@ || s == "-p"@) && last ==> r.prices_path == Some(args[i + 1])
            &&& (s == "--mode"@ || s == "-m"@) && last && text::lower_text(args[i + 1]@) == "paper"@
                ==> r.paper
            &&& (s == "--mode"@ || s == "-m"@) && last && text::lower_text(args[i + 1]@) == "live"@
                ==> !r.paper
        }),
{
    reveal_strlit("--dry-run");
    reveal_strlit("-d");
    reveal_strlit("--help");
    reveal_strlit("-h");
    reveal_strlit("--config");
    reveal_strlit("-c");
    reveal_strlit("--prices");
    reveal_strlit("-p");
    reveal_strlit("--mode");
    reveal_strlit("-m");
    reveal_strlit("paper");
    reveal_strlit("live");
    assert("paper"@.len() == 5 && "live"@.len() == 4);
    assert("--dry-run"@.len() == 9 && "-d"@[1] == 'd' && "-d"@.len() == 2);
    assert("--help"@.len() == 6 && "--help"@[2] == 'h' && "-h"@[1] == 'h' && "-h"@.len() == 2);
    assert("--config"@.len() == 8 && "--config"@[2] == 'c' && "-c"@[1] == 'c' && "-c"@.len() == 2);
    assert("--prices"@.len() == 8 && "--prices"@[2] == 'p' && "-p"@[1] == 'p' && "-p"@.len() == 2);
    assert("--mode"@.len() == 6 && "--mode"@[2] == 'm' && "-m"@[1] == 'm' && "-m"@.len() == 2);
    if args[i]@ == "--dry-run"@ || args[i]@ == "-d"@ {
        law_only_what_is_asked_for_is_set(args, i + 1, Arguments { dry_run: true, ..a });
    }
    if i + 1 < args.len() {
        let c = Arguments { config_path: Some(args[i + 1]), ..a };
        let p = Arguments { prices_path: Some(args[i + 1]), ..a };
        law_only_what_is_asked_for_is_set(args, i + 2, c);
        law_only_what_is_asked_for_is_set(args, i + 2, p);
    }
    reveal_with_fuel(startup::arguments_from, 2);
}

/// With prices a run is a backtest whatever else is asked for; without them orders go to the
/// exchange unless paper trading is asked for.
pub proof fn law_mode_follows_arguments(a: Arguments)
    ensures
        a.mode_asked() is Live <==> a.prices_path is None && !a.paper,
        a.mode_asked() is Paper <==> a.prices_path is None && a.paper,
        a.mode_asked() matches TradingMode::Backtest { prices_path } ==> a.prices_path == Some(
            prices_path,
        ),
{
}

/// Figures are measured against the capital that is known. A simulation without one is measured
/// against what it starts with; a live run is not measured against money that it does not have.
pub proof fn law_figures_are_measured_against_capital(
    mode: TradingMode,
    capital: Option<Decimal>,
    start: String,
)
    ensures
        capital is Some ==> mode.measured_against(capital, start) == capital,
        mode is Live ==> mode.measured_against(capital, start) == capital,
        !(mode is Live) && capital is None ==> mode.measured_against(capital, start) == config::number(
            start,
        ),
{
}

/// A currency that a simulation starts with: one of the common ones, or that of the price of an
/// instrument.
pub open spec fn currency(metas: Seq<InstrumentMeta>, n: nat, asset: Seq<char>) -> bool {
    asset == "USDC"@ || asset == "USDH"@ || exists|i: int|
        0 <= i < n && (#[trigger] metas[i]).quote_asset@ == asset
}

/// A simulation starts with the same balance of every currency that its instruments are priced
/// in, and with nothing else.
pub proof fn law_simulation_starts_with_currencies(metas: Seq<InstrumentMeta>, n: nat, start: Decimal)
    requires
        n <= metas.len(),
    ensures
        forall|asset: Seq<char>| #[trigger]
            startup::sim_balances(metas, n, start).contains_key(asset) <==> currency(metas, n, asset),
        forall|asset: Seq<char>| #[trigger]
            startup::sim_balances(metas, n, start).contains_key(asset) ==> startup::sim_balances(
                metas,
                n,
                start,
            )[asset] == start,
    decreases n,
{
    if n > 0 {
        law_simulation_starts_with_currencies(metas, (n - 1) as nat, start);
        let before = startup::sim_balances(metas, (n - 1) as nat, start);
        let after = startup::sim_balances(metas, n, start);
        let own = metas[n - 1].quote_asset@;
        assert forall|asset: Seq<char>| #[trigger] after.contains_key(asset) <==> currency(metas, n, asset) by {
            assert(before.contains_key(asset) <==> currency(metas, (n - 1) as nat, asset));
            if asset == own {
                assert(metas[n - 1].quote_asset@ == asset);
            }
            if currency(metas, n, asset) && !currency(metas, (n - 1) as nat, asset) {
                let i = choose|i: int| 0 <= i < n && (#[trigger] metas[i]).quote_asset@ == asset;
                assert(i == n - 1);
            }
        }
    }
}

/// A grid that sells first may need its money's worth at the lower of its two prices; a grid that
/// buys first needs nothing. This is so where the quotient is not rounded.
pub proof fn law_stock_is_worth_the_money(
    grid: GridConfigJson,
    lower: Seq<char>,
    a: Decimal,
    b: Decimal,
    money: Decimal,
)
    requires
        config::number(grid.start_price) == Some(a),
        config::number(grid.end_price) == Some(b),
        config::number(grid.max_investment_quote) == Some(money),
        a@.valid(),
        b@.valid(),
        decimal::units(a) > 0,
        decimal::units(b) > 0,
        decimal::units(a) <= decimal::units(b) ==> decimal::divides_exactly(money, a),
        decimal::units(b) <= decimal::units(a) ==> decimal::divides_exactly(money, b),
    ensures
        lower == "short"@ || lower == "neutral"@ ==> (startup::stock_of(grid, lower) matches Stock::Needs(
            x,
        ) && {
            let low = if decimal::units(a) < decimal::units(b) {
                decimal::units(a)
            } else {
                decimal::units(b)
            };
            decimal::units(x) * low == decimal::units(money) * unit()
        }),
        lower != "short"@ && lower != "neutral"@ ==> startup::stock_of(grid, lower) is Nothing,
{
    decimal::law_order_by_units(a, b);
    decimal::lemma_units_sign(a);
    decimal::lemma_units_sign(b);
    let zero = decimal::zero();
    decimal::law_order_by_units(zero, a);
    decimal::law_order_by_units(zero, b);
}

/// A backtest holds at least the stock of everything that it buys outright; what it held of
/// anything else stays as it was, and nothing gets less.
pub proof fn law_stock_is_held(
    balances: Map<Seq<char>, Decimal>,
    metas: Seq<InstrumentMeta>,
    n: nat,
    qty: Decimal,
)
    requires
        n <= metas.len(),
        qty@.valid(),
        forall|a: Seq<char>| #[trigger] balances.contains_key(a) ==> balances[a]@.valid(),
    ensures
        ({
            let after = startup::stocked(balances, metas, n, qty);
            &&& forall|i: int|
                #![trigger metas[i]]
                0 <= i < n && metas[i].kind.spot_like() ==> after.contains_key(metas[i].base_asset@)
                    && decimal::units(after[metas[i].base_asset@]) >= decimal::units(qty)
            &&& forall|a: Seq<char>|
                balances.contains_key(a) ==> #[trigger] after.contains_key(a) && decimal::units(after[a])
                    >= decimal::units(balances[a])
            &&& forall|a: Seq<char>| #[trigger]
                after.contains_key(a) ==> after[a]@.valid() && ((balances.contains_key(a) && after[a]
                    == balances[a]) || (after[a] == qty && exists|i: int|
                    0 <= i < n && (#[trigger] metas[i]).kind.spot_like() && metas[i].base_asset@ == a))
        }),
    decreases n,
{
    if n > 0 {
        law_stock_is_held(balances, metas, (n - 1) as nat, qty);
        let before = startup::stocked(balances, metas, (n - 1) as nat, qty);
        let after = startup::stocked(balances, metas, n, qty);
        let meta = metas[n - 1];
        let own = meta.base_asset@;
        if before.contains_key(own) {
            decimal::law_order_by_units(before[own], qty);
        }
        assert forall|i: int|
            #![trigger metas[i]]
            0 <= i < n && metas[i].kind.spot_like() implies after.contains_key(metas[i].base_asset@)
            && decimal::units(after[metas[i].base_asset@]) >= decimal::units(qty) by {
            if i < n - 1 {
                assert(before.contains_key(metas[i].base_asset@));
            }
        }
        assert forall|a: Seq<char>| balances.contains_key(a) implies #[trigger] after.contains_key(a)
            && decimal::units(after[a]) >= decimal::units(balances[a]) by {
            assert(before.contains_key(a));
        }
        assert forall|a: Seq<char>| #[trigger] after.contains_key(a) implies after[a]@.valid() && ((
        balances.contains_key(a) && after[a] == balances[a]) || (after[a] == qty && exists|i: int|
            0 <= i < n && (#[trigger] metas[i]).kind.spot_like() && metas[i].base_asset@ == a)) by {
            if before.contains_key(a) && after[a] == before[a] {
                if !(balances.contains_key(a) && after[a] == balances[a]) {
                    let i = choose|i: int|
                        0 <= i < n - 1 && (#[trigger] metas[i]).kind.spot_like() && metas[i].base_asset@
                            == a;
                    assert(metas[i].kind.spot_like());
                }
            } else {
                assert(a == own);
                assert(metas[n - 1].kind.spot_like());
            }
        }
    }
}

/// Bid and ask of a backtest lie around the price: one apart, and for an outcome one tick apart
/// where that stays between zero and one, which neither ever leaves. This is so where no step is
/// rounded.
pub proof fn law_bid_and_ask_lie_around_the_price(meta: InstrumentMeta, price: Decimal)
    requires
        price@.valid(),
        ({
            let spread = if meta.kind is Outcome {
                meta.tick_size
            } else {
                Decimal::lit(10, 1)
            };
            let half = decimal::over(Some(spread), Some(Decimal::lit(2, 0)))->0;
            &&& decimal::divides_exactly(spread, Decimal::lit(2, 0))
            &&& decimal::subtracts_exactly(price, half)
            &&& decimal::adds_exactly(price, half)
        }),
    ensures
        startup::bid_ask(meta, Some(price)) matches Some((bid, ask)) && {
            let (b, a, p) = (decimal::units(bid), decimal::units(ask), decimal::units(price));
            let spread = if meta.kind is Outcome {
                decimal::units(meta.tick_size)
            } else {
                unit()
            };
            &&& !(meta.kind is Outcome) ==> a - b == spread && a - p == p - b
            &&& meta.kind is Outcome ==> 0 <= b <= unit() && 0 <= a <= unit()
            &&& meta.kind is Outcome && 0 <= 2 * p - spread <= 2 * unit() ==> 2 * b == 2 * p - spread
            &&& meta.kind is Outcome && 0 <= 2 * p + spread <= 2 * unit() ==> 2 * a == 2 * p + spread
            &&& 0 <= p <= unit() && spread >= 0 ==> b <= p <= a
        },
{
    broadcast use crate::decimal::lemma_of_view;

    let (two, ten) = (Decimal::lit(2, 0), Decimal::lit(10, 1));
    assert(two@ == (DecimalView { mantissa: 2, scale: 0 }));
    assert(ten@ == (DecimalView { mantissa: 10, scale: 1 }));
    assert(decimal::one()@ == (DecimalView { mantissa: 1, scale: 0 }));
    decimal::lemma_pow10_positive(28);
    assert(unit() == 10 * decimal::pow10(27));
    let spread = if meta.kind is Outcome {
        meta.tick_size
    } else {
        ten
    };
    let half = decimal::over(Some(spread), Some(two))->0;
    let (k, h, s) = (unit(), decimal::units(half), decimal::units(spread));
    assert(decimal::units(two) == 2 * k);
    assert(2 * h == s) by (nonlinear_arith)
        requires
            h * (2 * k) == s * k,
            k > 0,
    ;
    decimal::law_exact_difference(price, half);
    decimal::law_exact_sum(price, half);
    decimal::lemma_units_sign(price);
    let b = decimal::minus(Some(price), Some(half))->0;
    let a = decimal::plus(Some(price), Some(half))->0;
    decimal::law_order_by_units(b, decimal::zero());
    decimal::law_order_by_units(decimal::one(), b);
    decimal::law_order_by_units(a, decimal::zero());
    decimal::law_order_by_units(decimal::one(), a);
}

/// The other side of an outcome is worth what is left to one, the same side what it is, and the
/// price of one outcome says nothing of another. This is so where the difference is not rounded.
pub proof fn law_other_side_is_worth_the_rest(
    primary: HyperliquidMarket,
    other: HyperliquidMarket,
    price: Decimal,
)
    requires
        primary is Outcome,
        other is Outcome,
        primary.named(),
        other.named(),
        primary->Outcome_side < 10,
        other->Outcome_side < 10,
        price@.valid(),
        0 <= decimal::units(price) <= unit(),
        decimal::subtracts_exactly(decimal::one(), price),
    ensures
        ({
            let r = startup::side_price(primary, other.instrument_text(), price);
            let same = primary->outcome_id == other->outcome_id;
            let side = primary->Outcome_side == other->Outcome_side;
            &&& same && side ==> r == Some(Some(price))
            &&& same && !side ==> (r matches Some(Some(x)) && decimal::units(x) + decimal::units(price)
                == unit())
            &&& !same ==> r is None
        }),
{
    broadcast use crate::decimal::lemma_of_view;

    assert(decimal::one()@ == (DecimalView { mantissa: 1, scale: 0 }));
    startup::law_outcome_name_reads_back(primary);
    startup::law_outcome_name_reads_back(other);
    market::law_encoding_tells_side(primary->outcome_id, primary->Outcome_side);
    market::law_encoding_tells_side(other->outcome_id, other->Outcome_side);
    decimal::law_exact_difference(decimal::one(), price);
    decimal::lemma_units_sign(price);
    let x = decimal::minus(Some(decimal::one()), Some(price))->0;
    decimal::law_order_by_units(x, decimal::zero());
    decimal::law_order_by_units(decimal::one(), x);
}

/// A price is that of a point of an instrument.
pub open spec fn of_point(p: Priced, meta: InstrumentMeta, point: BacktestPricePoint) -> bool {
    &&& p.instrument == meta.instrument_id@
    &&& p.meta == meta
    &&& p.price is Some
    &&& p.price == config::number(point.price)
    &&& p.ts == point.ts
}

/// Every price of an instrument is that of one of its points, at its time, and every point that is
/// a number has its price.
pub proof fn law_points_are_priced(meta: InstrumentMeta, points: Seq<BacktestPricePoint>, n: nat)
    requires
        n <= points.len(),
    ensures
        ({
            let s = startup::point_prices(meta, points, n);
            &&& forall|i: int|
                0 <= i < s.len() ==> exists|k: int|
                    0 <= k < n && of_point(#[trigger] s[i], meta, #[trigger] points[k])
            &&& forall|k: int|
                0 <= k < n && config::number((#[trigger] points[k]).price) is Some ==> exists|i: int|
                    0 <= i < s.len() && of_point(#[trigger] s[i], meta, points[k])
        }),
    decreases n,
{
    if n > 0 {
        law_points_are_priced(meta, points, (n - 1) as nat);
        let t = startup::point_prices(meta, points, (n - 1) as nat);
        let s = startup::point_prices(meta, points, n);
        assert forall|i: int| 0 <= i < s.len() implies exists|k: int|
            0 <= k < n && of_point(#[trigger] s[i], meta, #[trigger] points[k]) by {
            if i < t.len() {
                assert(s[i] == t[i]);
                let k = choose|k: int| 0 <= k < n - 1 && of_point(t[i], meta, #[trigger] points[k]);
                assert(of_point(s[i], meta, points[k]));
            } else {
                assert(of_point(s[i], meta, points[n - 1]));
            }
        }
        assert forall|k: int| 0 <= k < n && config::number((#[trigger] points[k]).price) is Some implies exists|
            i: int,
        | 0 <= i < s.len() && of_point(#[trigger] s[i], meta, points[k]) by {
            if k < n - 1 {
                let i = choose|i: int| 0 <= i < t.len() && of_point(#[trigger] t[i], meta, points[k]);
                assert(s[i] == t[i]);
                assert(of_point(s[i], meta, points[k]));
            } else {
                assert(of_point(s[t.len() as int], meta, points[k]));
            }
        }
    }
}

/// The instrument that is found by a name has that name, and is one of those that are known;
/// where none is found, none has it.
pub proof fn law_instrument_is_found_by_name(metas: Seq<InstrumentMeta>, name: Seq<char>, n: nat)
    requires
        n <= metas.len(),
    ensures
        match startup::meta_named(metas, name, n) {
            Some(m) => m.instrument_id@ == name && exists|i: int| 0 <= i < n && #[trigger] metas[i] == m,
            None => forall|i: int| 0 <= i < n ==> (#[trigger] metas[i]).instrument_id@ != name,
        },
    decreases n,
{
    if n > 0 {
        if metas[n - 1].instrument_id@ == name {
            assert(metas[n - 1] == startup::meta_named(metas, name, n)->0);
        } else {
            law_instrument_is_found_by_name(metas, name, (n - 1) as nat);
            if let Some(m) = startup::meta_named(metas, name, n) {
                let i = choose|i: int| 0 <= i < n - 1 && #[trigger] metas[i] == m;
                assert(metas[i] == m);
            }
        }
    }
}

/// The leverage that a text denotes is the number without its digits after the point.
pub proof fn law_leverage_is_the_whole_part(s: String, d: Decimal)
    requires
        config::number(s) == Some(d),
        d@.valid(),
    ensures
        match startup::whole_leverage(s) {
            Some(n) => n * unit() <= decimal::units(d) < (n + 1) * unit(),
            None => decimal::units(d) < 0 || decimal::units(d) >= (u32::MAX + 1) * unit(),
        },
{
    decimal::lemma_units_sign(d);
    let (m, p, u, k) = (d.m(), decimal::pow10(d.s()), decimal::pow10((28 - d.s()) as nat), unit());
    decimal::lemma_pow10_positive(d.s());
    decimal::lemma_pow10_positive((28 - d.s()) as nat);
    decimal::lemma_pow10_adds(d.s(), (28 - d.s()) as nat);
    assert(p * u == k);
    let q = m / p;
    vstd::arithmetic::div_mod::lemma_fundamental_div_mod(m, p);
    vstd::arithmetic::div_mod::lemma_mod_bound(m, p);
    let r = m % p;
    assert(q * k <= m * u) by (nonlinear_arith)
        requires
            m == p * q + r,
            r >= 0,
            u > 0,
            p * u == k,
    ;
    assert(m * u < (q + 1) * k) by (nonlinear_arith)
        requires
            m == p * q + r,
            r < p,
            u > 0,
            p * u == k,
    ;
    if m >= 0 && q > u32::MAX {
        let top = u32::MAX + 1;
        assert(top * k <= q * k) by (nonlinear_arith)
            requires
                top <= q,
                p * u == k,
                p > 0,
                u > 0,
        ;
    }
}

/// No leverage is set in a simulation, nor where nothing is held on margin. What is set is read
/// from a section of the configuration.
pub proof fn law_leverage_is_set_live_only(c: BotConfig, mode: TradingMode)
    ensures
        !(mode is Live) ==> startup::leverage_set(c, mode) is None,
        !startup::hedges(c) && (c.markets@[0].inner() is Spot || c.markets@[0].inner() is Outcome)
            ==> startup::leverage_set(c, mode) is None,
        startup::leverage_set(c, mode) is Some ==> {
            ||| c.grid matches Some(g) && startup::leverage_set(c, mode) == startup::whole_leverage(
                g.leverage,
            )
            ||| c.dca matches Some(d) && startup::leverage_set(c, mode) == startup::whole_leverage(
                d.leverage,
            )
            ||| c.arbitrage matches Some(a) && startup::leverage_set(c, mode)
                == startup::whole_leverage(a.perp_leverage)
        },
        mode is Live && (c.markets@[0].inner() is Perp || c.markets@[0].inner() is Hip3) ==> (c.grid matches Some(
            g,
        ) ==> startup::leverage_set(c, mode) == startup::whole_leverage(g.leverage)),
{
}

/// The market that margin is looked for in is the first one that has it.
pub proof fn law_margin_is_found(markets: Seq<Market>, i: int)
    requires
        0 <= i,
    ensures
        match startup::margin_market(markets, i) {
            Some(m) => exists|k: int|
                i <= k < markets.len() && #[trigger] markets[k] == m && (m.inner() is Perp || m.inner() is Hip3)
                    && forall|j: int|
                    i <= j < k ==> (#[trigger] markets[j]).inner() is Spot || markets[j].inner() is Outcome,
            None => forall|j: int|
                i <= j < markets.len() ==> (#[trigger] markets[j]).inner() is Spot || markets[j].inner() is Outcome,
        },
    decreases markets.len() - i,
{
    if i < markets.len() {
        if markets[i].inner().kind() is Perp {
            assert(markets[i] == startup::margin_market(markets, i)->0);
        } else {
            law_margin_is_found(markets, i + 1);
            if let Some(m) = startup::margin_market(markets, i) {
                let k = choose|k: int|
                    i + 1 <= k < markets.len() && #[trigger] markets[k] == m && forall|j: int|
                        i + 1 <= j < k ==> (#[trigger] markets[j]).inner() is Spot || markets[j].inner() is Outcome;
                assert(markets[k] == m);
            }
        }
    }
}

/// A strategy that hedges has the leverage of a market set that is held on margin, where it has
/// one; any other that of its first market.
pub proof fn law_leverage_is_set_where_margin_is(c: BotConfig)
    requires
        c.markets@.len() > 0,
    ensures
        !startup::hedges(c) ==> startup::leveraged(c) == c.markets@[0],
        startup::hedges(c) && (exists|j: int|
            0 <= j < c.markets@.len() && !((#[trigger] c.markets@[j]).inner() is Spot)
                && !(c.markets@[j].inner() is Outcome)) ==> startup::leveraged(c).inner().kind() is Perp,
        exists|j: int| 0 <= j < c.markets@.len() && #[trigger] c.markets@[j] == startup::leveraged(c),
{
    law_margin_is_found(c.markets@, 0);
    assert(c.markets@[0] == c.markets@[0]);
}

/// The client is set up for the first market and for no other kind, with the addresses and the key
/// of the configuration, on the network that is given.
pub proof fn law_client_serves_the_first_market(c: BotConfig, environment: Environment)
    ensures
        ({
            let h = startup::client_config(c, environment);
            let m = c.markets@[0].inner();
            &&& h.environment == environment
            &&& h.private_key == c.private_key
            &&& h.main_address == Some(c.address)
            &&& h.vault_address == c.vault_address
            &&& h.is_spot <==> m is Spot
            &&& h.is_outcome <==> m is Outcome
            &&& h.hip3 is Some <==> m is Hip3
            &&& h.outcome is Some <==> m is Outcome
            &&& h.spot_coin is Some <==> m is Spot
            &&& h.spot_market_index matches Some(i) ==> m.asset() == i
            &&& h.spot_coin matches Some(base) ==> m.base_text() == base@
            &&& h.hip3 matches Some(x) ==> m.asset() == market::hip3_asset(x.dex_index, x.asset_index)
                && m.quote_text() == x.quote_currency@ && m.instrument_text() == x.dex_name@ + ":"@
                + m.base_text() + "-PERP"@
            &&& h.outcome matches Some(x) ==> m.asset() == market::outcome_asset(x.outcome_id, x.side)
                && m.base_text() == x.name@
            &&& h.builder_fee is Some <==> c.builder_fee is Some
            &&& h.builder_fee matches Some(f) ==> (c.builder_fee matches Some(g) && f.address == g.address
                && f.fee_tenths_bp == g.fee_tenths_bp)
        }),
{
}

/// A number that is set is taken, and the other only where none is.
pub proof fn law_set_numbers_are_taken(s: Seq<char>, other: Decimal)
    ensures
        decimal::decimal_parsed(s) matches Some(v) ==> startup::number_or(s, other) == Decimal::of(v),
        decimal::decimal_parsed(s) is None ==> startup::number_or(s, other) == other,
{
}

} // verus!
