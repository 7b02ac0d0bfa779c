//! When a group starts, goes on and stops, by what it has earned and by its conditions.
use vstd::prelude::*;
use crate::decimal;
use crate::inventory;
use crate::orchestrator;
use crate::position_laws;
use crate::strmap;
use crate::text;
use crate::types;
use crate::context::Strategy;
use crate::decimal::Decimal;
use crate::events::Event;
use crate::orchestrator::{GroupView, LegView, Moment, OrchestratorCondition};
use crate::context::Asked;
use crate::state::StateView;
use crate::types::{AssetId, Position, Quote};

verus! {

/// One in units.
pub open spec fn unit() -> int {
    decimal::pow10(28)
}

/// The size of a number in units.
pub open spec fn size(x: Decimal) -> int {
    if decimal::units(x) < 0 {
        -decimal::units(x)
    } else {
        decimal::units(x)
    }
}

/// The held profit of a position in units; nothing where none is known.
pub open spec fn held(p: Position) -> int {
    match p.unrealized_pnl {
        Some(u) => decimal::units(u),
        None => 0,
    }
}

/// The numbers of a position are within the limits, and neither step of what it has earned is
/// rounded.
pub open spec fn earns_exactly(p: Position) -> bool {
    let u = match p.unrealized_pnl {
        Some(u) => u,
        None => decimal::zero(),
    };
    &&& p.realized_pnl@.valid()
    &&& u@.valid()
    &&& p.total_fees@.valid()
    &&& decimal::adds_exactly(p.realized_pnl, u)
    &&& decimal::subtracts_exactly(
        decimal::plus(Some(p.realized_pnl), Some(u))->0,
        p.total_fees,
    )
}

/// What a position has earned is what it realized and what it holds, less the fees, where neither
/// step is rounded.
pub proof fn law_position_earns(p: Position)
    requires
        earns_exactly(p),
    ensures
        p.pnl() matches Some(x) && x@.valid() && decimal::units(x) == decimal::units(p.realized_pnl)
            + held(p) - decimal::units(p.total_fees),
{
    broadcast use crate::decimal::lemma_of_view;

    decimal::lemma_units_sign(decimal::zero());
    let u = match p.unrealized_pnl {
        Some(u) => u,
        None => decimal::zero(),
    };
    decimal::law_exact_sum(p.realized_pnl, u);
    decimal::law_exact_difference(decimal::plus(Some(p.realized_pnl), Some(u))->0, p.total_fees);
}

/// What the first `n` strategies have earned at the quotes, in units: for each what its position
/// realized and holds, less the fees.
pub open spec fn earned<S: Strategy>(v: GroupView<S>, books: StateView, n: int) -> int
    decreases n,
{
    if n <= 0 {
        0
    } else {
        let p = books.marked(v.legs[n - 1].instrument)->0;
        earned(v, books, n - 1) + decimal::units(p.realized_pnl) + held(p) - decimal::units(
            p.total_fees,
        )
    }
}

/// No step of what the first `n` strategies have earned is rounded.
pub open spec fn group_earns_exactly<S: Strategy>(v: GroupView<S>, books: StateView, n: nat) -> bool
    decreases n,
{
    n > 0 ==> {
        &&& group_earns_exactly(v, books, (n - 1) as nat)
        &&& books.marked(v.legs[n - 1].instrument) matches Some(p) && earns_exactly(p)
            && decimal::adds_exactly(v.pnl(books, (n - 1) as nat)->0, p.pnl()->0)
    }
}

/// What a group has earned is what its strategies have earned together, each for its own
/// instrument, where no step is rounded.
pub proof fn law_group_earns<S: Strategy>(v: GroupView<S>, books: StateView, n: nat)
    requires
        n <= v.legs.len(),
        group_earns_exactly(v, books, n),
    ensures
        v.pnl(books, n) matches Some(x) && x@.valid() && decimal::units(x) == earned(v, books, n as int),
    decreases n,
{
    broadcast use crate::decimal::lemma_of_view;

    decimal::lemma_units_sign(decimal::zero());
    if n > 0 {
        law_group_earns(v, books, (n - 1) as nat);
        let p = books.marked(v.legs[n - 1].instrument)->0;
        law_position_earns(p);
        decimal::law_exact_sum(v.pnl(books, (n - 1) as nat)->0, p.pnl()->0);
    }
}

/// No step of the share that a group has earned is rounded.
pub open spec fn rates_exactly<S: Strategy>(v: GroupView<S>, books: StateView) -> bool {
    let pnl = v.pnl(books, v.legs.len())->0;
    let capital = v.risk.allocated_capital_quote;
    &&& group_earns_exactly(v, books, v.legs.len())
    &&& decimal::divides_exactly(pnl, capital)
    &&& decimal::multiplies_exactly(
        decimal::over(Some(pnl), Some(capital))->0,
        Decimal::lit(100, 0),
    )
}

/// The percentage that a group has earned is what it has earned in hundredths of what it was
/// given: a gain above zero, a loss below. There is none without capital. This is so where no
/// step is rounded.
pub proof fn law_group_percentage<S: Strategy>(v: GroupView<S>, books: StateView)
    requires
        v.risk.allocated_capital_quote@.valid(),
        v.risk.allocated_capital_quote.m() > 0 ==> rates_exactly(v, books),
    ensures
        decimal::units(v.risk.allocated_capital_quote) <= 0 <==> v.pnl_pct(books) is None,
        v.pnl_pct(books) matches Some(pct) ==> {
            let e = earned(v, books, v.legs.len() as int);
            &&& pct@.valid()
            &&& decimal::units(pct) * decimal::units(v.risk.allocated_capital_quote) == 100 * e * unit()
            &&& decimal::units(pct) > 0 <==> e > 0
            &&& decimal::units(pct) < 0 <==> e < 0
        },
{
    broadcast use crate::decimal::lemma_of_view;

    let capital = v.risk.allocated_capital_quote;
    decimal::lemma_units_sign(capital);
    decimal::lemma_pow10_positive(28);
    if capital.m() > 0 {
        law_group_earns(v, books, v.legs.len());
        let hundred = Decimal::lit(100, 0);
        assert(hundred@ == (decimal::DecimalView { mantissa: 100, scale: 0 }));
        assert(decimal::units(hundred) == 100 * unit());
        let pnl = v.pnl(books, v.legs.len())->0;
        let share = decimal::over(Some(pnl), Some(capital))->0;
        let (e, c, s, p, k) = (
            decimal::units(pnl),
            decimal::units(capital),
            decimal::units(share),
            decimal::units(v.pnl_pct(books)->0),
            unit(),
        );
        assert(p == 100 * s) by (nonlinear_arith)
            requires
                k > 0,
                p * k == s * (100 * k),
        ;
        assert(p * c == 100 * e * k) by (nonlinear_arith)
            requires
                p == 100 * s,
                s * c == e * k,
        ;
        assert((p > 0 <==> e > 0) && (p < 0 <==> e < 0)) by (nonlinear_arith)
            requires
                p * c == 100 * e * k,
                c > 0,
                k > 0,
        ;
    }
}

proof fn lemma_first_with<S: Strategy>(
    v: GroupView<S>,
    books: StateView,
    now: i64,
    conditions: Seq<OrchestratorCondition>,
    value: bool,
    i: int,
)
    requires
        0 <= i <= conditions.len(),
    ensures
        v.first_with(books, now, conditions, value, i) is Some <==> exists|j: int|
            i <= j < conditions.len() && #[trigger] v.holds(books, now, conditions[j]) == Some(value),
    decreases conditions.len() - i,
{
    if i < conditions.len() {
        lemma_first_with(v, books, now, conditions, value, i + 1);
        if v.holds(books, now, conditions[i]) == Some(value) {
            assert(v.holds(books, now, conditions[i]) == Some(value));
        }
    }
}

/// A risk condition that holds is a reason to stop, whichever of them it is.
pub proof fn law_risk_condition_stops<S: Strategy>(v: GroupView<S>, books: StateView, now: i64, i: int)
    requires
        0 <= i < v.conditions.risk_conditions@.len(),
        v.holds(books, now, v.conditions.risk_conditions@[i]) == Some(true),
    ensures
        v.risk_reason(books, now) is Some,
{
    lemma_first_with(v, books, now, v.conditions.risk_conditions@, true, 0);
}

/// A validation condition that is known not to hold is a reason to stop, and there is no other.
pub proof fn law_failed_validation_stops<S: Strategy>(v: GroupView<S>, books: StateView, now: i64)
    ensures
        v.invalid_reason(books, now) is Some <==> exists|i: int|
            0 <= i < v.conditions.validation_conditions@.len() && #[trigger] v.holds(
                books,
                now,
                v.conditions.validation_conditions@[i],
            ) == Some(false),
{
    lemma_first_with(v, books, now, v.conditions.validation_conditions@, false, 0);
}

/// With capital, and where no risk condition holds, a group stops for its risk just where it has
/// lost as much as its stop loss, `pct <= -|sl|`, or won as much as its take profit, `pct >=
/// |tp|`; bounds of zero do not count. A loss is told as a stop loss and a gain as a take profit.
/// The percentages are stated of what the group has earned: `100 * earned / capital`. This is so
/// where no step is rounded.
pub proof fn law_losses_and_gains_stop_a_group<S: Strategy>(v: GroupView<S>, books: StateView, now: i64)
    requires
        v.risk.allocated_capital_quote@.valid(),
        v.risk.allocated_capital_quote.m() > 0,
        rates_exactly(v, books),
        v.risk.stop_loss_pct matches Some(sl) ==> sl@.valid(),
        v.risk.take_profit_pct matches Some(tp) ==> tp@.valid(),
        forall|i: int|
            0 <= i < v.conditions.risk_conditions@.len() ==> #[trigger] v.holds(
                books,
                now,
                v.conditions.risk_conditions@[i],
            ) != Some(true),
    ensures
        ({
            let c = decimal::units(v.risk.allocated_capital_quote);
            let e = 100 * earned(v, books, v.legs.len() as int) * unit();
            let lost = v.risk.stop_loss_pct matches Some(sl) && decimal::units(sl) != 0 && e <= -(size(sl)
                * c);
            let won = v.risk.take_profit_pct matches Some(tp) && decimal::units(tp) != 0 && e >= size(tp)
                * c;
            &&& v.risk_reason(books, now) is Some <==> lost || won
            &&& won ==> text::begins_with(v.risk_reason(books, now)->0, "group take profit triggered"@)
            &&& lost ==> text::begins_with(v.risk_reason(books, now)->0, "group stop loss triggered"@)
        }),
{
    broadcast use crate::decimal::lemma_of_view;

    lemma_first_with(v, books, now, v.conditions.risk_conditions@, true, 0);
    law_group_percentage(v, books);
    let capital = v.risk.allocated_capital_quote;
    decimal::lemma_units_sign(capital);
    decimal::lemma_pow10_positive(28);
    let pct = v.pnl_pct(books)->0;
    let (p, c) = (decimal::units(pct), decimal::units(capital));
    let e = 100 * earned(v, books, v.legs.len() as int) * unit();
    assert(v.risk_reason(books, now) == v.bound_reached(books));
    if let Some(sl) = v.risk.stop_loss_pct {
        decimal::lemma_units_sign(sl);
        let m = decimal::magnitude(sl);
        decimal::lemma_units_sign(m);
        let bound = decimal::negated(m);
        decimal::law_order_by_units(bound, pct);
        let s = size(sl);
        assert((p <= -s) == (e <= -(s * c))) by (nonlinear_arith)
            requires
                p * c == e,
                c > 0,
        ;
    }
    if let Some(tp) = v.risk.take_profit_pct {
        decimal::lemma_units_sign(tp);
        let m = decimal::magnitude(tp);
        decimal::lemma_units_sign(m);
        decimal::law_order_by_units(pct, m);
        let s = size(tp);
        assert((p >= s) == (e >= s * c)) by (nonlinear_arith)
            requires
                p * c == e,
                c > 0,
        ;
    }
    reveal_strlit("group take profit triggered");
    reveal_strlit("group stop loss triggered");
    reveal_strlit("group take profit triggered: pnl_pct=");
    reveal_strlit("group stop loss triggered: pnl_pct=");
    if v.bound_reached(books) is Some {
        let r = v.bound_reached(books)->0;
        let (a, b) = ("group take profit triggered"@, "group stop loss triggered"@);
        let won = v.risk.take_profit_pct matches Some(tp) && decimal::units(tp) != 0 && e >= size(tp)
            * c;
        if won {
            assert(r.subrange(0, a.len() as int) =~= a);
            assert(text::begins_with(r, a));
            let lost = v.risk.stop_loss_pct matches Some(sl) && decimal::units(sl) != 0 && e <= -(size(sl)
                * c);
            if lost {
                let (s, t) = (size(v.risk.stop_loss_pct->0), size(v.risk.take_profit_pct->0));
                assert(false) by (nonlinear_arith)
                    requires
                        e <= -(s * c),
                        e >= t * c,
                        s > 0,
                        t > 0,
                        c > 0,
                ;
            }
        } else {
            assert(r.subrange(0, b.len() as int) =~= b);
            assert(text::begins_with(r, b));
        }
    }
}

/// Without capital no gain and no loss stops a group.
pub proof fn law_no_bounds_without_capital<S: Strategy>(v: GroupView<S>, books: StateView, now: i64)
    requires
        v.risk.allocated_capital_quote@.valid(),
        decimal::units(v.risk.allocated_capital_quote) <= 0,
        v.conditions.risk_conditions@.len() == 0,
    ensures
        v.risk_reason(books, now) is None,
{
    decimal::lemma_units_sign(v.risk.allocated_capital_quote);
    lemma_first_with(v, books, now, v.conditions.risk_conditions@, true, 0);
}

/// The middle of a quote is not rounded.
pub open spec fn middle_exact(q: Quote) -> bool {
    &&& q.bid.0@.valid()
    &&& q.ask.0@.valid()
    &&& decimal::adds_exactly(q.bid.0, q.ask.0)
    &&& decimal::divides_exactly(
        decimal::plus(Some(q.bid.0), Some(q.ask.0))->0,
        Decimal::lit(2, 0),
    )
}

/// A condition on a price compares it with the middle of the quote of its instrument, and cannot
/// be told without a quote: above means that the market is above the price, below that it is
/// below. This is so where the middle is not rounded.
pub proof fn law_price_conditions<S: Strategy>(
    v: GroupView<S>,
    books: StateView,
    now: i64,
    named: String,
    price: Decimal,
)
    requires
        price@.valid(),
        strmap::lookup(books.quotes, named@) matches Some(q) ==> middle_exact(q),
    ensures
        ({
            let above = v.holds(
                books,
                now,
                OrchestratorCondition::PriceAbove { instrument: Some(named), price },
            );
            let below = v.holds(
                books,
                now,
                OrchestratorCondition::PriceBelow { instrument: Some(named), price },
            );
            match strmap::lookup(books.quotes, named@) {
                Some(q) => {
                    let sum = decimal::units(q.bid.0) + decimal::units(q.ask.0);
                    &&& above == Some(2 * decimal::units(price) < sum)
                    &&& below == Some(sum < 2 * decimal::units(price))
                },
                None => above is None && below is None,
            }
        }),
{
    if let Some(q) = strmap::lookup(books.quotes, named@) {
        position_laws::law_middle_is_halfway(q.bid.0, q.ask.0);
        let mid = types::halfway(q.bid.0, q.ask.0)->0;
        decimal::law_order_by_units(price, mid);
        decimal::law_order_by_units(mid, price);
    }
}

/// A condition that names no instrument is about that of the first strategy.
pub proof fn law_conditions_are_about_the_first_leg<S: Strategy>(
    v: GroupView<S>,
    books: StateView,
    now: i64,
    name: String,
    price: Decimal,
)
    requires
        v.legs.len() > 0,
        name@ == v.legs[0].instrument@,
    ensures
        v.holds(books, now, OrchestratorCondition::PriceAbove { instrument: None, price }) == v.holds(
            books,
            now,
            OrchestratorCondition::PriceAbove { instrument: Some(name), price },
        ),
        v.holds(books, now, OrchestratorCondition::PriceBelow { instrument: None, price }) == v.holds(
            books,
            now,
            OrchestratorCondition::PriceBelow { instrument: Some(name), price },
        ),
{
}

/// The spread of a quote is its ask less its bid, and in ten-thousandths of the middle price it
/// is `10000 * (ask - bid) / middle`, where no step is rounded.
pub proof fn law_spread(q: Quote)
    requires
        middle_exact(q),
        decimal::subtracts_exactly(q.ask.0, q.bid.0),
        (types::halfway(q.bid.0, q.ask.0)->0).m() != 0 ==> decimal::divides_exactly(
            decimal::minus(Some(q.ask.0), Some(q.bid.0))->0,
            types::halfway(q.bid.0, q.ask.0)->0,
        ) && decimal::multiplies_exactly(
            decimal::over(
                decimal::minus(Some(q.ask.0), Some(q.bid.0)),
                types::halfway(q.bid.0, q.ask.0),
            )->0,
            Decimal::lit(10_000, 0),
        ),
    ensures
        q.spread_of() matches Some(s) && s@.valid() && decimal::units(s) == decimal::units(q.ask.0)
            - decimal::units(q.bid.0),
        q.spread_bps_of() matches Some(b) && b@.valid() && {
            let (x, y) = (decimal::units(q.bid.0), decimal::units(q.ask.0));
            if x + y == 0 {
                decimal::units(b) == 0
            } else {
                decimal::units(b) * (x + y) == 20_000 * (y - x) * unit()
            }
        },
{
    broadcast use crate::decimal::lemma_of_view;

    position_laws::law_middle_is_halfway(q.bid.0, q.ask.0);
    decimal::lemma_pow10_positive(28);
    decimal::lemma_units_sign(decimal::zero());
    decimal::law_exact_difference(q.ask.0, q.bid.0);
    let mid = types::halfway(q.bid.0, q.ask.0)->0;
    decimal::lemma_units_sign(mid);
    let (x, y, m) = (decimal::units(q.bid.0), decimal::units(q.ask.0), decimal::units(mid));
    if mid.m() != 0 {
        let t = Decimal::lit(10_000, 0);
        assert(t@ == (decimal::DecimalView { mantissa: 10_000, scale: 0 }));
        assert(decimal::units(t) == 10_000 * unit());
        let share = decimal::over(decimal::minus(Some(q.ask.0), Some(q.bid.0)), Some(mid))->0;
        let (s, b, k) = (decimal::units(share), decimal::units(q.spread_bps_of()->0), unit());
        assert(b == 10_000 * s) by (nonlinear_arith)
            requires
                k > 0,
                b * k == s * (10_000 * k),
        ;
        assert(b * (x + y) == 20_000 * (y - x) * k) by (nonlinear_arith)
            requires
                b == 10_000 * s,
                s * m == (y - x) * k,
                2 * m == x + y,
        ;
    }
}

/// A condition on the spread holds where the spread is below each of the bounds that it gives,
/// and cannot be told where it gives none.
pub proof fn law_spread_condition<S: Strategy>(
    v: GroupView<S>,
    books: StateView,
    now: i64,
    named: String,
    max_bps: Option<Decimal>,
    max_abs: Option<Decimal>,
)
    requires
        strmap::lookup(books.quotes, named@) matches Some(q) && q.spread_of() is Some
            && (q.spread_of()->0)@.valid() && q.spread_bps_of() is Some && (q.spread_bps_of()->0)@.valid(),
        max_bps matches Some(b) ==> b@.valid(),
        max_abs matches Some(a) ==> a@.valid(),
    ensures
        ({
            let q = strmap::lookup(books.quotes, named@)->0;
            let r = v.holds(
                books,
                now,
                OrchestratorCondition::SpreadBelow { instrument: Some(named), max_bps, max_abs },
            );
            &&& r is None <==> max_bps is None && max_abs is None
            &&& r == Some(true) <==> (max_bps is Some || max_abs is Some) && (max_bps matches Some(b)
                ==> decimal::units(q.spread_bps_of()->0) < decimal::units(b)) && (max_abs matches Some(a)
                ==> decimal::units(q.spread_of()->0) < decimal::units(a))
        }),
{
    let q = strmap::lookup(books.quotes, named@)->0;
    if let Some(b) = max_bps {
        decimal::law_order_by_units(q.spread_bps_of()->0, b);
    }
    if let Some(a) = max_abs {
        decimal::law_order_by_units(q.spread_of()->0, a);
    }
}

/// A condition on a balance compares what is not set aside of the asset, and one on the result of
/// the group compares its percentage.
pub proof fn law_balance_and_result_conditions<S: Strategy>(
    v: GroupView<S>,
    books: StateView,
    now: i64,
    asset: String,
    bound: Decimal,
)
    requires
        bound@.valid(),
        ({
            let a = inventory::account(books.inventory.accounts, AssetId(asset));
            a.total@.valid() && a.reserved@.valid() && decimal::subtracts_exactly(a.total, a.reserved)
        }),
        v.pnl_pct(books) matches Some(p) ==> p@.valid(),
    ensures
        ({
            let a = inventory::account(books.inventory.accounts, AssetId(asset));
            v.holds(books, now, OrchestratorCondition::BalanceAbove { asset, available: bound }) == Some(
                decimal::units(a.total) - decimal::units(a.reserved) > decimal::units(bound),
            )
        }),
        match v.pnl_pct(books) {
            Some(p) => {
                &&& v.holds(books, now, OrchestratorCondition::GroupPnlPctAbove { pct: bound }) == Some(
                    decimal::units(p) > decimal::units(bound),
                )
                &&& v.holds(books, now, OrchestratorCondition::GroupPnlPctBelow { pct: bound }) == Some(
                    decimal::units(p) < decimal::units(bound),
                )
            },
            None => {
                &&& v.holds(books, now, OrchestratorCondition::GroupPnlPctAbove { pct: bound }) is None
                &&& v.holds(books, now, OrchestratorCondition::GroupPnlPctBelow { pct: bound }) is None
            },
        },
{
    let a = inventory::account(books.inventory.accounts, AssetId(asset));
    decimal::law_exact_difference(a.total, a.reserved);
    decimal::law_order_by_units(bound, decimal::minus(Some(a.total), Some(a.reserved))->0);
    if let Some(p) = v.pnl_pct(books) {
        decimal::law_order_by_units(bound, p);
        decimal::law_order_by_units(p, bound);
    }
}

/// A bound on the time is reached when the children have run for that many seconds, and not
/// before they are started.
pub proof fn law_running_time<S: Strategy>(v: GroupView<S>, books: StateView, now: i64, secs: u64)
    requires
        v.children_started_at_ms matches Some(t) ==> i64::MIN <= now - t <= i64::MAX,
    ensures
        v.holds(books, now, OrchestratorCondition::MaxRunningTime { secs }) == (match v.children_started_at_ms {
            Some(t) => Some(now - t >= secs * 1000),
            None => None,
        }),
{
}

/// An event goes to just those strategies that run and that it is about: all of them where it is
/// about no instrument, and otherwise those that trade it. Each hears of it once, in their order.
pub proof fn law_events_reach_their_legs<S>(legs: Seq<LegView<S>>, event: Event, n: nat)
    requires
        n <= legs.len() <= usize::MAX,
    ensures
        forall|i: int|
            0 <= i < n ==> (orchestrator::routed(legs, event, n).contains(i as usize) <==> (
            #[trigger] legs[i]).active && legs[i].started && (event.about() matches Some(about)
                ==> legs[i].instrument@ == about@)),
        forall|j: int|
            0 <= j < orchestrator::routed(legs, event, n).len() ==> (#[trigger] orchestrator::routed(
                legs,
                event,
                n,
            )[j]) < n,
        forall|j: int, k: int|
            0 <= j < k < orchestrator::routed(legs, event, n).len() ==> (
            #[trigger] orchestrator::routed(legs, event, n)[j]) < (#[trigger] orchestrator::routed(
                legs,
                event,
                n,
            )[k]),
    decreases n,
{
    if n > 0 {
        let m = (n - 1) as nat;
        law_events_reach_their_legs(legs, event, m);
        let (a, b) = (orchestrator::routed(legs, event, m), orchestrator::routed(legs, event, n));
        let takes = legs[n - 1].active && legs[n - 1].started && (event.about() matches Some(about)
            ==> legs[n - 1].instrument@ == about@);
        if takes {
            assert(b == a.push((n - 1) as usize));
            assert(b[a.len() as int] == (n - 1) as usize);
        } else {
            assert(b == a);
        }
        assert forall|i: int| 0 <= i < n implies (b.contains(i as usize) <==> (
        #[trigger] legs[i]).active && legs[i].started && (event.about() matches Some(about)
            ==> legs[i].instrument@ == about@)) by {
            let x = i as usize;
            if a.contains(x) {
                let j = choose|j: int| 0 <= j < a.len() && a[j] == x;
                assert(b[j] == x);
            }
            if b.contains(x) {
                let j = choose|j: int| 0 <= j < b.len() && b[j] == x;
                if j < a.len() {
                    assert(a[j] == x);
                    assert(a.contains(x));
                }
            }
            if i == n - 1 && a.contains(x) {
                let j = choose|j: int| 0 <= j < a.len() && a[j] == x;
                assert(a[j] < m);
            }
        }
    }
}

/// While a start condition does not hold, or cannot be told, no child is started.
pub proof fn law_group_waits_for_its_conditions<S: Strategy>(
    before: GroupView<S>,
    after: GroupView<S>,
    out: Asked,
    more: Asked,
    at: Moment,
    i: int,
)
    requires
        orchestrator::readied(before, after, out, more, at),
        0 <= i < before.conditions.start_conditions@.len(),
        before.holds(at.books@, at.now, before.conditions.start_conditions@[i]) != Some(true),
    ensures
        after == before,
        more == out,
{
}

} // verus!
