//! What a configuration plans is what it says.
use vstd::prelude::*;
use crate::config;
use crate::decimal;
use crate::startup;
use crate::text;
use crate::config::{ArbitrageConfigJson, BotConfig, DCAConfig, DCAConfigJson, DCADirection, GridConfigJson, MMConfigJson, NumberField, Rung, StrategyKind, StrategyPlan};
use crate::decimal::{Decimal, DecimalView};
use crate::market::{HyperliquidMarket, Market};
use crate::types::InstrumentMeta;

verus! {

/// One in units.
pub open spec fn unit() -> int {
    decimal::pow10(28)
}

/// The text denotes a number.
pub open spec fn read(s: String) -> bool {
    config::number(s) is Some
}

/// The text denotes a number, or is left out.
pub open spec fn read_or_absent(s: Option<String>) -> bool {
    s matches Some(t) ==> config::number(t) is Some
}

/// The number is the one of the text, and is left out where the text is.
pub open spec fn taken(x: Option<Decimal>, s: Option<String>) -> bool {
    match s {
        Some(t) => x is Some && config::number(t) == x,
        None => x is None,
    }
}

spec fn all_read(fields: Seq<NumberField>) -> bool {
    forall|i: int| 0 <= i < fields.len() ==> read((#[trigger] fields[i]).value)
}

proof fn lemma_complaint(fields: Seq<NumberField>)
    ensures
        config::first_complaint(fields) is None <==> all_read(fields),
    decreases fields.len(),
{
    if fields.len() > 0 {
        let front = fields.drop_last();
        lemma_complaint(front);
        assert forall|i: int| 0 <= i < fields.len() - 1 implies #[trigger] fields[i] == front[i] by {}
        if config::first_complaint(fields) is None {
            assert forall|i: int| 0 <= i < fields.len() implies read((#[trigger] fields[i]).value) by {
                if i < fields.len() - 1 {
                    assert(read(front[i].value));
                }
            }
        }
        if all_read(fields) {
            assert forall|i: int| 0 <= i < front.len() implies read((#[trigger] front[i]).value) by {
                assert(read(fields[i].value));
            }
            assert(read(fields[fields.len() - 1].value));
        }
    }
}

proof fn lemma_joined(a: Seq<NumberField>, b: Seq<NumberField>)
    ensures
        all_read(a + b) <==> all_read(a) && all_read(b),
{
    let c = a + b;
    if all_read(c) {
        assert forall|i: int| 0 <= i < a.len() implies read((#[trigger] a[i]).value) by {
            assert(c[i] == a[i]);
        }
        assert forall|i: int| 0 <= i < b.len() implies read((#[trigger] b[i]).value) by {
            assert(c[a.len() + i] == b[i]);
        }
    }
}

proof fn lemma_optional(value: Option<String>, complaint: &'static str)
    ensures
        all_read(config::optional_field(value, complaint)) <==> read_or_absent(value),
{
    let s = config::optional_field(value, complaint);
    if value is Some {
        assert(s[0].value == value->0);
    }
}

/// The production network is traded on only where it is asked for by one of its names.
pub proof fn law_production_is_asked_for(lower: Seq<char>)
    requires
        lower != "mainnet"@,
        lower != "main"@,
        lower != "prod"@,
    ensures
        config::environment_of(lower) is Testnet,
{
}

/// The names of the strategies, of the directions and of what is skewed mean one thing each.
pub proof fn law_names_mean_one_thing(lower: Seq<char>)
    ensures
        config::kind_of(lower) is Arbitrage <==> lower == "arbitrage"@ || lower == "arb"@,
        config::kind_of(lower) is Grid <==> lower == "grid"@,
        config::kind_of(lower) is Dca <==> lower == "dca"@,
        config::kind_of(lower) is TickTrader <==> lower == "tick_trader"@,
        config::kind_of(lower) is Rsi <==> lower == "rsi"@,
        config::kind_of(lower) is MarketMaker <==> lower == "mm"@ || lower == "market_maker"@,
        config::grid_mode_of(lower) is Short <==> lower == "short"@,
        config::grid_mode_of(lower) is Neutral <==> lower == "neutral"@,
        config::direction_of(lower) is Short <==> lower == "short"@,
        config::skew_mode_of(lower) is Neither <==> lower == "none"@,
        config::skew_mode_of(lower) is Size <==> lower == "size"@,
        config::skew_mode_of(lower) is Price <==> lower == "price"@,
        config::environment_of(lower) is Mainnet <==> lower == "mainnet"@ || lower == "main"@ || lower
            == "prod"@,
{
    reveal_strlit("arbitrage");
    reveal_strlit("arb");
    reveal_strlit("grid");
    reveal_strlit("dca");
    reveal_strlit("tick_trader");
    reveal_strlit("rsi");
    reveal_strlit("mm");
    reveal_strlit("market_maker");
    reveal_strlit("short");
    reveal_strlit("neutral");
    reveal_strlit("none");
    reveal_strlit("size");
    reveal_strlit("price");
    assert("arb"@[0] == 'a' && "dca"@[0] == 'd' && "rsi"@[0] == 'r');
    assert("none"@[0] == 'n' && "size"@[0] == 's');
    assert("arbitrage"@.len() == 9 && "grid"@.len() == 4 && "tick_trader"@.len() == 11);
    assert("mm"@.len() == 2 && "market_maker"@.len() == 12);
    assert("short"@.len() == 5 && "neutral"@.len() == 7);
    assert("none"@.len() == 4 && "size"@.len() == 4 && "price"@.len() == 5);
}

/// A grid is planned just where all of its numbers can be read, and with these numbers, on the
/// first market.
pub proof fn law_grid_is_planned_as_it_says(
    c: BotConfig,
    j: GridConfigJson,
    r: Result<StrategyPlan, String>,
)
    requires
        c.plan("grid"@, r),
        c.grid == Some(j),
    ensures
        r is Ok <==> read(j.start_price) && read(j.end_price) && read(j.max_investment_quote) && read(
            j.leverage,
        ) && read(j.max_leverage) && read_or_absent(j.stop_loss) && read_or_absent(j.take_profit)
            && read_or_absent(j.trailing_up_limit) && read_or_absent(j.trailing_down_limit),
        r matches Ok(p) ==> (p matches StrategyPlan::Grid(g) && {
            &&& config::number(j.start_price) == Some(g.start_price)
            &&& config::number(j.end_price) == Some(g.end_price)
            &&& config::number(j.max_investment_quote) == Some(g.max_investment_quote)
            &&& config::number(j.leverage) == Some(g.leverage)
            &&& config::number(j.max_leverage) == Some(g.max_leverage)
            &&& taken(g.stop_loss, j.stop_loss)
            &&& taken(g.take_profit, j.take_profit)
            &&& taken(g.trailing_up_limit, j.trailing_up_limit)
            &&& taken(g.trailing_down_limit, j.trailing_down_limit)
            &&& g.grid_levels == j.levels
            &&& g.post_only == j.post_only
            &&& g.market == c.markets@[0]
            &&& g.grid_mode is Short <==> text::lower_text(j.mode@) == "short"@
            &&& g.grid_mode is Neutral <==> text::lower_text(j.mode@) == "neutral"@
            &&& g.environment == config::environment_of(text::lower_text(c.environment@))
        }),
{
    law_names_mean_one_thing("grid"@);
    law_names_mean_one_thing(text::lower_text(j.mode@));
    let (a, b) = ("Invalid grid stop_loss", "Invalid grid take_profit");
    let (u, d) = ("Invalid grid trailing_up_limit", "Invalid grid trailing_down_limit");
    let fields = config::grid_fields(j);
    let s5 = seq![
        NumberField { value: j.start_price, complaint: "Invalid start_price" },
        NumberField { value: j.end_price, complaint: "Invalid end_price" },
        NumberField { value: j.max_investment_quote, complaint: "Invalid max_investment_quote" },
        NumberField { value: j.leverage, complaint: "Invalid leverage" },
        NumberField { value: j.max_leverage, complaint: "Invalid max_leverage" },
    ];
    let s6 = s5 + config::optional_field(j.stop_loss, a);
    let s7 = s6 + config::optional_field(j.take_profit, b);
    let s8 = s7 + config::optional_field(j.trailing_up_limit, u);
    lemma_joined(s5, config::optional_field(j.stop_loss, a));
    lemma_joined(s6, config::optional_field(j.take_profit, b));
    lemma_joined(s7, config::optional_field(j.trailing_up_limit, u));
    lemma_joined(s8, config::optional_field(j.trailing_down_limit, d));
    lemma_optional(j.stop_loss, a);
    lemma_optional(j.take_profit, b);
    lemma_optional(j.trailing_up_limit, u);
    lemma_optional(j.trailing_down_limit, d);
    lemma_complaint(fields);
    assert(all_read(s5) ==> read(s5[0].value) && read(s5[1].value) && read(s5[2].value) && read(
        s5[3].value,
    ) && read(s5[4].value));
}

/// An averaging strategy is planned just where all of its numbers can be read, and with these
/// numbers, on the first market.
pub proof fn law_averaging_is_planned_as_it_says(
    c: BotConfig,
    j: DCAConfigJson,
    r: Result<StrategyPlan, String>,
)
    requires
        c.plan("dca"@, r),
        c.dca == Some(j),
    ensures
        r is Ok <==> read(j.trigger_price) && read(j.base_order_size) && read(j.dca_order_size) && read(
            j.size_multiplier,
        ) && read(j.price_deviation_pct) && read(j.deviation_multiplier) && read(j.take_profit_pct)
            && read_or_absent(j.stop_loss) && read(j.leverage) && read(j.max_leverage),
        r matches Ok(p) ==> (p matches StrategyPlan::Dca(d) && {
            &&& config::number(j.trigger_price) == Some(d.trigger_price)
            &&& config::number(j.base_order_size) == Some(d.base_order_size)
            &&& config::number(j.dca_order_size) == Some(d.dca_order_size)
            &&& config::number(j.size_multiplier) == Some(d.size_multiplier)
            &&& config::number(j.price_deviation_pct) == Some(d.price_deviation_pct)
            &&& config::number(j.deviation_multiplier) == Some(d.deviation_multiplier)
            &&& config::number(j.take_profit_pct) == Some(d.take_profit_pct)
            &&& config::number(j.leverage) == Some(d.leverage)
            &&& config::number(j.max_leverage) == Some(d.max_leverage)
            &&& taken(d.stop_loss, j.stop_loss)
            &&& d.max_dca_orders == j.max_dca_orders
            &&& d.restart_on_complete == j.restart_on_complete
            &&& d.cooldown_period_secs == j.cooldown_period_secs
            &&& d.market == c.markets@[0]
            &&& d.direction is Short <==> text::lower_text(j.direction@) == "short"@
            &&& d.environment == config::environment_of(text::lower_text(c.environment@))
        }),
{
    law_names_mean_one_thing("dca"@);
    law_names_mean_one_thing(text::lower_text(j.direction@));
    lemma_averaging_read(j);
    lemma_complaint(config::dca_fields(j));
}

proof fn lemma_averaging_read(j: DCAConfigJson)
    ensures
        all_read(config::dca_fields(j)) <==> read(j.trigger_price) && read(j.base_order_size) && read(
            j.dca_order_size,
        ) && read(j.size_multiplier) && read(j.price_deviation_pct) && read(j.deviation_multiplier)
            && read(j.take_profit_pct) && read_or_absent(j.stop_loss) && read(j.leverage) && read(
            j.max_leverage,
        ),
{
    let s7 = seq![
        NumberField { value: j.trigger_price, complaint: "Invalid trigger_price" },
        NumberField { value: j.base_order_size, complaint: "Invalid base_order_size" },
        NumberField { value: j.dca_order_size, complaint: "Invalid dca_order_size" },
        NumberField { value: j.size_multiplier, complaint: "Invalid size_multiplier" },
        NumberField { value: j.price_deviation_pct, complaint: "Invalid price_deviation_pct" },
        NumberField { value: j.deviation_multiplier, complaint: "Invalid deviation_multiplier" },
        NumberField { value: j.take_profit_pct, complaint: "Invalid take_profit_pct" },
    ];
    let (a, l, m) = ("Invalid stop_loss", "Invalid leverage", "Invalid max_leverage");
    let s8 = s7 + config::optional_field(j.stop_loss, a);
    let s9 = s8 + config::optional_field(Some(j.leverage), l);
    lemma_joined(s7, config::optional_field(j.stop_loss, a));
    lemma_joined(s8, config::optional_field(Some(j.leverage), l));
    lemma_joined(s9, config::optional_field(Some(j.max_leverage), m));
    lemma_optional(j.stop_loss, a);
    lemma_optional(Some(j.leverage), l);
    lemma_optional(Some(j.max_leverage), m);
    assert(all_read(s7) ==> read(s7[0].value) && read(s7[1].value) && read(s7[2].value) && read(
        s7[3].value,
    ) && read(s7[4].value) && read(s7[5].value) && read(s7[6].value));
}

/// Arbitrage is planned just where there are two markets and all of its numbers can be read, and
/// with these numbers: what is bought outright is the first market, what is held on margin the
/// second.
pub proof fn law_arbitrage_is_planned_as_it_says(
    c: BotConfig,
    j: ArbitrageConfigJson,
    r: Result<StrategyPlan, String>,
)
    requires
        c.plan("arbitrage"@, r) || c.plan("arb"@, r),
        c.arbitrage == Some(j),
    ensures
        r is Ok <==> c.markets@.len() >= 2 && read(j.order_amount) && read(j.perp_leverage) && read(
            j.min_opening_spread_pct,
        ) && read(j.min_closing_spread_pct) && read(j.spot_slippage_buffer_pct) && read(
            j.perp_slippage_buffer_pct,
        ),
        r matches Ok(p) ==> (p matches StrategyPlan::Arbitrage(a) && {
            &&& config::number(j.order_amount) == Some(a.order_amount)
            &&& config::number(j.perp_leverage) == Some(a.perp_leverage)
            &&& config::number(j.min_opening_spread_pct) == Some(a.min_opening_spread_pct)
            &&& config::number(j.min_closing_spread_pct) == Some(a.min_closing_spread_pct)
            &&& config::number(j.spot_slippage_buffer_pct) == Some(a.spot_slippage_buffer_pct)
            &&& config::number(j.perp_slippage_buffer_pct) == Some(a.perp_slippage_buffer_pct)
            &&& a.spot_market == c.markets@[0]
            &&& a.perp_market == c.markets@[1]
            &&& a.environment == config::environment_of(text::lower_text(c.environment@))
        }),
{
    law_names_mean_one_thing("arbitrage"@);
    law_names_mean_one_thing("arb"@);
    let f = config::arbitrage_fields(j);
    lemma_complaint(f);
    assert(all_read(f) ==> read(f[0].value) && read(f[1].value) && read(f[2].value) && read(f[3].value)
        && read(f[4].value) && read(f[5].value));
}

/// A market maker is planned just where all of its numbers can be read, and with these numbers,
/// on the first market.
pub proof fn law_market_making_is_planned_as_it_says(
    c: BotConfig,
    j: MMConfigJson,
    r: Result<StrategyPlan, String>,
)
    requires
        c.plan("mm"@, r) || c.plan("market_maker"@, r),
        c.mm == Some(j),
    ensures
        r is Ok <==> read(j.base_order_size) && read(j.base_spread) && read(j.max_position_size) && read(
            j.price_skew_gamma,
        ) && read(j.size_skew_floor) && read(j.min_price_change_pct) && read_or_absent(j.stop_loss)
            && read_or_absent(j.take_profit),
        r matches Ok(p) ==> (p matches StrategyPlan::MarketMaker(m) && {
            &&& config::number(j.base_order_size) == Some(m.base_order_size)
            &&& config::number(j.base_spread) == Some(m.base_spread)
            &&& config::number(j.max_position_size) == Some(m.max_position_size)
            &&& config::number(j.price_skew_gamma) == Some(m.price_skew_gamma)
            &&& config::number(j.size_skew_floor) == Some(m.size_skew_floor)
            &&& config::number(j.min_price_change_pct) == Some(m.min_price_change_pct)
            &&& taken(m.stop_loss, j.stop_loss)
            &&& taken(m.take_profit, j.take_profit)
            &&& m.market == c.markets@[0]
            &&& m.skew_mode is Size <==> text::lower_text(j.skew_mode@) == "size"@
            &&& m.skew_mode is Price <==> text::lower_text(j.skew_mode@) == "price"@
            &&& m.skew_mode is Neither <==> text::lower_text(j.skew_mode@) == "none"@
            &&& decimal::units(m.min_position_pct) < decimal::units(m.target_position_pct)
            &&& decimal::units(m.target_position_pct) < decimal::units(m.max_position_pct)
            &&& decimal::units(m.min_position_pct) + decimal::units(m.max_position_pct) == unit()
            &&& 2 * decimal::units(m.target_position_pct) == unit()
            &&& m.environment == config::environment_of(text::lower_text(c.environment@))
        }),
{
    broadcast use crate::decimal::lemma_of_view;

    law_names_mean_one_thing("mm"@);
    law_names_mean_one_thing("market_maker"@);
    law_names_mean_one_thing(text::lower_text(j.skew_mode@));
    let s6 = seq![
        NumberField { value: j.base_order_size, complaint: "Invalid base_order_size" },
        NumberField { value: j.base_spread, complaint: "Invalid base_spread" },
        NumberField { value: j.max_position_size, complaint: "Invalid max_position_size" },
        NumberField { value: j.price_skew_gamma, complaint: "Invalid price_skew_gamma" },
        NumberField { value: j.size_skew_floor, complaint: "Invalid size_skew_floor" },
        NumberField { value: j.min_price_change_pct, complaint: "Invalid min_price_change_pct" },
    ];
    let (a, b) = ("Invalid stop_loss", "Invalid take_profit");
    let s7 = s6 + config::optional_field(j.stop_loss, a);
    lemma_joined(s6, config::optional_field(j.stop_loss, a));
    lemma_joined(s7, config::optional_field(j.take_profit, b));
    lemma_optional(j.stop_loss, a);
    lemma_optional(j.take_profit, b);
    lemma_complaint(config::market_maker_fields(j));
    assert(all_read(s6) ==> read(s6[0].value) && read(s6[1].value) && read(s6[2].value) && read(
        s6[3].value,
    ) && read(s6[4].value) && read(s6[5].value));
    let tenth = decimal::pow10(27);
    decimal::lemma_pow10_positive(27);
    assert(unit() == 10 * tenth);
    assert(Decimal::lit(5, 1)@ == (DecimalView { mantissa: 5, scale: 1 }));
    assert(Decimal::lit(1, 1)@ == (DecimalView { mantissa: 1, scale: 1 }));
    assert(Decimal::lit(9, 1)@ == (DecimalView { mantissa: 9, scale: 1 }));
    assert(decimal::units(Decimal::lit(5, 1)) == 5 * tenth);
    assert(decimal::units(Decimal::lit(1, 1)) == 1 * tenth);
    assert(decimal::units(Decimal::lit(9, 1)) == 9 * tenth);
}

/// Nothing is planned of a section that is missing, nor for a name that is not known.
pub proof fn law_nothing_is_planned_of_nothing(c: BotConfig, lower: Seq<char>, r: Result<StrategyPlan, String>)
    requires
        c.plan(lower, r),
    ensures
        config::kind_of(lower) is Unknown ==> r is Err,
        config::kind_of(lower) is Grid && c.grid is None ==> r is Err,
        config::kind_of(lower) is Dca && c.dca is None ==> r is Err,
        config::kind_of(lower) is MarketMaker && c.mm is None ==> r is Err,
        config::kind_of(lower) is Arbitrage && (c.arbitrage is None || c.markets@.len() < 2) ==> r is Err,
        r matches Ok(p) ==> (match config::kind_of(lower) {
            StrategyKind::Grid => p is Grid,
            StrategyKind::Dca => p is Dca,
            StrategyKind::Arbitrage => p is Arbitrage,
            StrategyKind::MarketMaker => p is MarketMaker,
            k => p == StrategyPlan::Custom(k),
        }),
{
}

proof fn lemma_same_ladder(a: DCAConfig, b: DCAConfig, n: nat)
    requires
        a.direction == b.direction,
        a.trigger_price == b.trigger_price,
        a.base_order_size == b.base_order_size,
        a.dca_order_size == b.dca_order_size,
        a.size_multiplier == b.size_multiplier,
        a.price_deviation_pct == b.price_deviation_pct,
        a.deviation_multiplier == b.deviation_multiplier,
    ensures
        a.ladder(n) == b.ladder(n),
    decreases n,
{
    if n > 0 {
        lemma_same_ladder(a, b, (n - 1) as nat);
    }
}

/// The capital that a strategy works with is what its plan invests: all that a grid may invest,
/// the amount of an arbitrage, and the whole ladder of averaging.
pub proof fn law_capital_is_what_is_invested(c: BotConfig, lower: Seq<char>, r: Result<StrategyPlan, String>)
    requires
        c.plan(lower, r),
        r is Ok,
    ensures
        ({
            let capital = c.capital(config::kind_of(lower));
            match r->Ok_0 {
                StrategyPlan::Grid(g) => capital == Some(Some(g.max_investment_quote)),
                StrategyPlan::Arbitrage(a) => capital == Some(Some(a.order_amount)),
                StrategyPlan::Dca(d) => match d.ladder_cost() {
                    Some(cost) => capital == Some(Some(cost)),
                    None => capital is None,
                },
                _ => capital == Some(None::<Decimal>),
            }
        }),
{
    match config::kind_of(lower) {
        StrategyKind::Grid => {
            let f = config::grid_fields(c.grid->0);
            lemma_complaint(f);
            assert(read(f[2].value));
        },
        StrategyKind::Arbitrage => {
            let f = config::arbitrage_fields(c.arbitrage->0);
            lemma_complaint(f);
            assert(read(f[0].value));
        },
        StrategyKind::Dca => {
            let j = c.dca->0;
            let plain = DCAConfigJson { stop_loss: None, ..j };
            lemma_complaint(config::dca_fields(j));
            lemma_complaint(config::dca_fields(plain));
            lemma_averaging_read(j);
            lemma_averaging_read(plain);
            let a = config::dca_config(
                plain,
                crate::types::StrategyId(j.direction),
                c.markets@[0],
                config::environment_of(text::lower_text(c.environment@)),
            );
            let d = r->Ok_0->Dca_0;
            lemma_same_ladder(a, d, d.max_dca_orders as nat);
        },
        _ => {},
    }
}

/// No step from one rung to the next is rounded.
pub open spec fn steps_exactly(d: DCAConfig, r: Rung) -> bool {
    let share = decimal::over(Some(r.deviation), Some(Decimal::lit(100, 0)))->0;
    let factor = match d.direction {
        DCADirection::Long => decimal::minus(Some(decimal::one()), Some(share))->0,
        DCADirection::Short => decimal::plus(Some(decimal::one()), Some(share))->0,
    };
    let price = decimal::times(Some(r.price), Some(factor))->0;
    &&& r.cost@.valid()
    &&& decimal::divides_exactly(r.deviation, Decimal::lit(100, 0))
    &&& match d.direction {
        DCADirection::Long => decimal::subtracts_exactly(decimal::one(), share),
        DCADirection::Short => decimal::adds_exactly(decimal::one(), share),
    }
    &&& decimal::multiplies_exactly(r.price, factor)
    &&& decimal::multiplies_exactly(r.size, d.size_multiplier)
    &&& decimal::multiplies_exactly(r.deviation, d.deviation_multiplier)
    &&& decimal::multiplies_exactly(r.size, price)
    &&& decimal::adds_exactly(r.cost, decimal::times(Some(r.size), Some(price))->0)
}

/// The next rung of a ladder lies the deviation, in hundredths of the price, below the last one
/// where the strategy is long, and above it where it is short. What it buys there is added to
/// the cost at its own price; size and deviation grow by their multipliers. This is so where no
/// step is rounded.
pub proof fn law_next_rung(d: DCAConfig, r: Rung)
    requires
        steps_exactly(d, r),
    ensures
        d.next_rung(r) matches Some(n) && {
            let (p, q) = (decimal::units(r.price), decimal::units(n.price));
            let dev = decimal::units(r.deviation);
            let way = if d.direction is Long {
                -dev
            } else {
                dev
            };
            &&& 100 * (q * unit()) == p * (100 * unit() + way)
            &&& dev > 0 && p > 0 && d.direction is Long ==> q < p
            &&& dev > 0 && p > 0 && d.direction is Short ==> q > p
            &&& (decimal::units(n.cost) - decimal::units(r.cost)) * unit() == decimal::units(r.size) * q
            &&& decimal::units(n.size) * unit() == decimal::units(r.size) * decimal::units(d.size_multiplier)
            &&& decimal::units(n.deviation) * unit() == dev * decimal::units(d.deviation_multiplier)
        },
{
    broadcast use crate::decimal::lemma_of_view;

    let hundred = Decimal::lit(100, 0);
    let share = decimal::over(Some(r.deviation), Some(hundred))->0;
    assert(hundred@ == (DecimalView { mantissa: 100, scale: 0 }));
    assert(decimal::one()@ == (DecimalView { mantissa: 1, scale: 0 }));
    decimal::lemma_units_sign(share);
    decimal::lemma_pow10_positive(28);
    let k = unit();
    assert(decimal::units(hundred) == 100 * k);
    let (s, dev) = (decimal::units(share), decimal::units(r.deviation));
    assert(100 * s == dev) by (nonlinear_arith)
        requires
            s * (100 * k) == dev * k,
            k > 0,
    ;
    let factor = match d.direction {
        DCADirection::Long => decimal::minus(Some(decimal::one()), Some(share))->0,
        DCADirection::Short => decimal::plus(Some(decimal::one()), Some(share))->0,
    };
    match d.direction {
        DCADirection::Long => decimal::law_exact_difference(decimal::one(), share),
        DCADirection::Short => decimal::law_exact_sum(decimal::one(), share),
    }
    let f = decimal::units(factor);
    let way = if d.direction is Long {
        -dev
    } else {
        dev
    };
    assert(100 * f == 100 * k + way);
    let price = decimal::times(Some(r.price), Some(factor))->0;
    let (p, q) = (decimal::units(r.price), decimal::units(price));
    assert(q * k == p * f);
    assert(100 * (p * f) == p * (100 * k + way)) by (nonlinear_arith)
        requires
            100 * f == 100 * k + way,
    ;
    if way < 0 && p > 0 {
        assert(q < p) by (nonlinear_arith)
            requires
                100 * (q * k) == p * (100 * k + way),
                way < 0,
                p > 0,
                k > 0,
        ;
    }
    if way > 0 && p > 0 {
        assert(q > p) by (nonlinear_arith)
            requires
                100 * (q * k) == p * (100 * k + way),
                way > 0,
                p > 0,
                k > 0,
        ;
    }
    let bought = decimal::times(Some(r.size), Some(price))->0;
    decimal::law_exact_sum(r.cost, bought);
}

/// A ladder starts at the trigger price, with the base order bought there, and each further
/// order is one rung.
pub proof fn law_ladder_starts_at_its_trigger(d: DCAConfig, n: nat)
    requires
        decimal::multiplies_exactly(d.base_order_size, d.trigger_price),
    ensures
        d.ladder(0) matches Some(r) && {
            &&& r.price == d.trigger_price
            &&& r.size == d.dca_order_size
            &&& r.deviation == d.price_deviation_pct
            &&& decimal::units(r.cost) * unit() == decimal::units(d.base_order_size) * decimal::units(
                d.trigger_price,
            )
        },
        d.ladder(n) matches Some(r) ==> d.ladder(n + 1) == d.next_rung(r),
        d.max_dca_orders == n ==> (match d.ladder_cost() {
            Some(cost) => d.ladder(n) matches Some(r) && r.cost == cost,
            None => d.ladder(n) is None,
        }),
{
}

/// The leverage that is chosen and the largest one are those of one section, and both can be
/// read.
pub proof fn law_leverage_is_that_of_a_section(c: BotConfig)
    ensures
        c.leverage_range() matches Some(x) ==> {
            ||| c.grid matches Some(g) && config::number(g.leverage) == Some(x.0) && config::number(
                g.max_leverage,
            ) == Some(x.1)
            ||| c.dca matches Some(d) && c.grid is None && config::number(d.leverage) == Some(x.0)
                && config::number(d.max_leverage) == Some(x.1)
            ||| c.arbitrage matches Some(a) && c.grid is None && c.dca is None && config::number(
                a.perp_leverage,
            ) == Some(x.0) && decimal::units(x.1) == 50 * unit()
        },
        c.grid is None && c.dca is None && c.arbitrage is None ==> c.leverage_range() is None,
{
    broadcast use crate::decimal::lemma_of_view;

    assert(Decimal::lit(50, 0)@ == (DecimalView { mantissa: 50, scale: 0 }));
}

/// Markets are told apart by the names of their instruments: one of perpetuals, one of assets
/// and an outcome never share a name, and two of a kind share it just where they have the same
/// base, or the same outcome and side.
pub proof fn law_instruments_are_told_apart(a: HyperliquidMarket, b: HyperliquidMarket)
    requires
        a.named(),
        b.named(),
        !(a is Hip3),
        !(b is Hip3),
    ensures
        a.instrument_text() == b.instrument_text() <==> (match (a, b) {
            (HyperliquidMarket::Perp { base: x, .. }, HyperliquidMarket::Perp { base: y, .. }) => x@
                == y@,
            (HyperliquidMarket::Spot { base: x, .. }, HyperliquidMarket::Spot { base: y, .. }) => x@
                == y@,
            (
                HyperliquidMarket::Outcome { outcome_id: m, side: s, .. },
                HyperliquidMarket::Outcome { outcome_id: n, side: t, .. },
            ) => 10 * m + s == 10 * n + t,
            _ => false,
        }),
{
    reveal_strlit("-PERP");
    reveal_strlit("-SPOT");
    reveal_strlit("-OUTCOME");
    startup::law_outcome_name_reads_back(a);
    startup::law_outcome_name_reads_back(b);
    let (s, t) = (a.instrument_text(), b.instrument_text());
    match a {
        HyperliquidMarket::Perp { base, .. } => {
            assert(s.subrange(0, s.len() - 5) =~= base@);
            assert(s.last() == 'P');
        },
        HyperliquidMarket::Spot { base, .. } => {
            assert(s.subrange(0, s.len() - 5) =~= base@);
            assert(s.last() == 'T');
        },
        _ => {},
    }
    match b {
        HyperliquidMarket::Perp { base, .. } => {
            assert(t.subrange(0, t.len() - 5) =~= base@);
            assert(t.last() == 'P');
        },
        HyperliquidMarket::Spot { base, .. } => {
            assert(t.subrange(0, t.len() - 5) =~= base@);
            assert(t.last() == 'T');
        },
        _ => {},
    }
}

/// The numbers of listed markets are their own; those of builder-deployed exchanges and of
/// outcomes lie above them and apart.
pub proof fn law_asset_numbers_keep_apart(a: HyperliquidMarket)
    ensures
        a matches HyperliquidMarket::Perp { index, .. } ==> a.asset() == index,
        a matches HyperliquidMarket::Spot { index, .. } ==> a.asset() == index,
        a matches HyperliquidMarket::Hip3 { dex_index, asset_index, .. } ==> (dex_index > 0 ==> a.asset()
            == 100_000 + 10_000 * dex_index + asset_index),
        a matches HyperliquidMarket::Outcome { outcome_id, side, .. } ==> a.asset() == 100_000_000 + 10
            * outcome_id + side,
{
}

/// What is known of an instrument is that of its market: held as an asset just where it is
/// bought outright, and fees are paid in the currency of its price.
pub proof fn law_instrument_is_that_of_its_market(meta: InstrumentMeta, market: Market)
    requires
        config::describes(meta, market),
    ensures
        meta.kind.spot_like() <==> market.inner() is Spot || market.inner() is Outcome,
        meta.kind is Outcome <==> market.inner() is Outcome,
        meta.market_index.0 == market.inner().asset(),
        meta.fee_asset_default matches Some(a) && a@ == meta.quote_asset@,
        market.inner() matches HyperliquidMarket::Perp { base, quote, .. } ==> meta.base_asset@ == base@
            && meta.quote_asset@ == quote@,
        market.inner() matches HyperliquidMarket::Spot { base, quote, .. } ==> meta.base_asset@ == base@
            && meta.quote_asset@ == quote@,
        market.inner() matches HyperliquidMarket::Hip3 { base, quote, .. } ==> meta.base_asset@ == base@
            && meta.quote_asset@ == quote@,
        market.inner() matches HyperliquidMarket::Outcome { name, .. } ==> meta.base_asset@ == name@
            && meta.quote_asset@ == "USDC"@,
        market.inner().meta() matches Some(m) ==> meta.tick_size == m.tick_size && meta.lot_size
            == m.lot_size && meta.min_qty == m.min_qty && meta.min_notional == m.min_notional,
        market.inner().meta() is None ==> 10 * decimal::units(meta.tick_size) == unit() && 10_000
            * decimal::units(meta.lot_size) == unit() && meta.min_qty is None && meta.min_notional is None,
{
    broadcast use crate::decimal::lemma_of_view;

    assert(Decimal::lit(1, 1)@ == (DecimalView { mantissa: 1, scale: 1 }));
    assert(Decimal::lit(1, 4)@ == (DecimalView { mantissa: 1, scale: 4 }));
    assert(unit() == 10 * decimal::pow10(27));
    decimal::lemma_pow10_adds(4, 24);
    assert(decimal::pow10(4) == 10_000) by {
        reveal_with_fuel(decimal::pow10, 5);
    }
    assert(1 * decimal::pow10(27) == decimal::pow10(27));
    assert(1 * decimal::pow10(24) == decimal::pow10(24));
}

} // verus!
