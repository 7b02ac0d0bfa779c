//! A strategy that drives other strategies as one group.
use vstd::prelude::*;
use vstd::string::*;
use crate::text;
use crate::strmap;
use crate::inventory;
use crate::decimal;
use crate::context::{Asked, Call, Captured, EngineContext, Strategy};
use crate::decimal::{Decimal, sum, product, quotient};
use crate::events::Event;
use crate::state::{EngineState, StateView};
use crate::text::{join2, join3, number_text, quoted};
use crate::types::{AssetId, InstrumentId, Quote, StrategyId, SyncMechanism, TimerId};

verus! {

/// A condition on the markets, the account or the group.
#[derive(Debug)]
pub enum OrchestratorCondition {
    PriceAbove { instrument: Option<String>, price: Decimal },
    PriceBelow { instrument: Option<String>, price: Decimal },
    SpreadBelow {
        instrument: Option<String>,
        /// In ten-thousandths of the middle price.
        max_bps: Option<Decimal>,
        max_abs: Option<Decimal>,
    },
    BalanceAbove { asset: String, available: Decimal },
    GroupPnlPctAbove { pct: Decimal },
    GroupPnlPctBelow { pct: Decimal },
    MaxRunningTime { secs: u64 },
}

/// The conditions of a group.
#[derive(Debug)]
pub struct OrchestratorConditions {
    /// All must hold before the children are started.
    pub start_conditions: Vec<OrchestratorCondition>,
    /// The group stops when one does not hold.
    pub validation_conditions: Vec<OrchestratorCondition>,
    /// The group stops when one holds.
    pub risk_conditions: Vec<OrchestratorCondition>,
}

impl Default for OrchestratorConditions {
    fn default() -> (r: OrchestratorConditions)
        ensures
            r.start_conditions@.len() == 0,
            r.validation_conditions@.len() == 0,
            r.risk_conditions@.len() == 0,
    {
        OrchestratorConditions {
            start_conditions: Vec::new(),
            validation_conditions: Vec::new(),
            risk_conditions: Vec::new(),
        }
    }
}

/// What a group may win or lose.
#[derive(Debug, Clone, Copy)]
pub struct GroupRiskConfig {
    /// What the group was given, in quote currency.
    pub allocated_capital_quote: Decimal,
    /// In percent.
    pub take_profit_pct: Option<Decimal>,
    /// In percent.
    pub stop_loss_pct: Option<Decimal>,
}

impl GroupRiskConfig {
    /// No bounds.
    pub fn disabled(allocated_capital_quote: Decimal) -> (r: GroupRiskConfig)
        ensures
            r == (GroupRiskConfig {
                allocated_capital_quote,
                take_profit_pct: None,
                stop_loss_pct: None,
            }),
    {
        GroupRiskConfig { allocated_capital_quote, take_profit_pct: None, stop_loss_pct: None }
    }
}

/// A strategy of the group.
pub struct OrchestratorLeg<S> {
    pub id: String,
    pub instrument: InstrumentId,
    pub strategy: S,
    pub started: bool,
    pub active: bool,
}

impl<S> OrchestratorLeg<S> {
    /// A strategy that is not started yet.
    pub fn new(id: &str, instrument: InstrumentId, strategy: S) -> (r: OrchestratorLeg<S>)
        ensures
            r.id@ == id@,
            r.instrument == instrument,
            r.strategy == strategy,
            !r.started,
            r.active,
    {
        OrchestratorLeg { id: id.to_owned(), instrument, strategy, started: false, active: true }
    }
}

/// A strategy of the group.
pub struct LegView<S> {
    pub id: Seq<char>,
    pub instrument: InstrumentId,
    pub strategy: S,
    pub started: bool,
    pub active: bool,
}

/// The group.
pub struct GroupView<S> {
    pub id: StrategyId,
    pub legs: Seq<LegView<S>>,
    pub risk: GroupRiskConfig,
    pub conditions: OrchestratorConditions,
    pub children_started_at_ms: Option<i64>,
    pub control_timer_id: Option<TimerId>,
    pub stopped: bool,
    pub stop_reason: Option<Seq<char>>,
}

/// The text that shows an optional text.
pub open spec fn optional_text(s: Option<String>) -> Seq<char> {
    match s {
        Some(t) => "Some("@ + text::quoted_text(t@) + ")"@,
        None => "None"@,
    }
}

/// The text that shows an optional number.
pub open spec fn optional_number(d: Option<Decimal>) -> Seq<char> {
    match d {
        Some(x) => "Some("@ + decimal::decimal_text(x@) + ")"@,
        None => "None"@,
    }
}

/// The text that shows a condition.
pub open spec fn condition_text(c: OrchestratorCondition) -> Seq<char> {
    match c {
        OrchestratorCondition::PriceAbove { instrument, price } => "PriceAbove { instrument: "@
            + optional_text(instrument) + ", price: "@ + decimal::decimal_text(price@) + " }"@,
        OrchestratorCondition::PriceBelow { instrument, price } => "PriceBelow { instrument: "@
            + optional_text(instrument) + ", price: "@ + decimal::decimal_text(price@) + " }"@,
        OrchestratorCondition::SpreadBelow { instrument, max_bps, max_abs } =>
            "SpreadBelow { instrument: "@ + optional_text(instrument) + ", max_bps: "@
            + optional_number(max_bps) + ", max_abs: "@ + optional_number(max_abs) + " }"@,
        OrchestratorCondition::BalanceAbove { asset, available } => "BalanceAbove { asset: "@
            + text::quoted_text(asset@) + ", available: "@ + decimal::decimal_text(available@) + " }"@,
        OrchestratorCondition::GroupPnlPctAbove { pct } => "GroupPnlPctAbove { pct: "@
            + decimal::decimal_text(pct@) + " }"@,
        OrchestratorCondition::GroupPnlPctBelow { pct } => "GroupPnlPctBelow { pct: "@
            + decimal::decimal_text(pct@) + " }"@,
        OrchestratorCondition::MaxRunningTime { secs } => "MaxRunningTime { secs: "@ + text::digits(
            secs as nat,
        ) + " }"@,
    }
}

fn show_optional(s: &Option<String>) -> (r: String)
    ensures
        r@ == optional_text(*s),
{
    match s {
        Some(t) => join3("Some(", quoted(t.as_str()).as_str(), ")"),
        None => "None".to_owned(),
    }
}

fn show_number(d: &Option<Decimal>) -> (r: String)
    ensures
        r@ == optional_number(*d),
{
    match d {
        Some(x) => join3("Some(", x.to_string().as_str(), ")"),
        None => "None".to_owned(),
    }
}

impl OrchestratorCondition {
    /// The text that shows the condition.
    pub fn show(&self) -> (r: String)
        ensures
            r@ == condition_text(*self),
    {
        match self {
            OrchestratorCondition::PriceAbove { instrument, price } => join3(
                "PriceAbove { instrument: ",
                show_optional(instrument).as_str(),
                ", price: ",
            ).concat(price.to_string().as_str()).concat(" }"),
            OrchestratorCondition::PriceBelow { instrument, price } => join3(
                "PriceBelow { instrument: ",
                show_optional(instrument).as_str(),
                ", price: ",
            ).concat(price.to_string().as_str()).concat(" }"),
            OrchestratorCondition::SpreadBelow { instrument, max_bps, max_abs } => join3(
                "SpreadBelow { instrument: ",
                show_optional(instrument).as_str(),
                ", max_bps: ",
            ).concat(show_number(max_bps).as_str()).concat(", max_abs: ").concat(
                show_number(max_abs).as_str(),
            ).concat(" }"),
            OrchestratorCondition::BalanceAbove { asset, available } => join3(
                "BalanceAbove { asset: ",
                quoted(asset.as_str()).as_str(),
                ", available: ",
            ).concat(available.to_string().as_str()).concat(" }"),
            OrchestratorCondition::GroupPnlPctAbove { pct } => join3(
                "GroupPnlPctAbove { pct: ",
                pct.to_string().as_str(),
                " }",
            ),
            OrchestratorCondition::GroupPnlPctBelow { pct } => join3(
                "GroupPnlPctBelow { pct: ",
                pct.to_string().as_str(),
                " }",
            ),
            OrchestratorCondition::MaxRunningTime { secs } => join3(
                "MaxRunningTime { secs: ",
                number_text(*secs as u128).as_str(),
                " }",
            ),
        }
    }
}

/// Both bounds hold that are given; nothing where none is given.
pub open spec fn both_hold(a: Option<bool>, b: Option<bool>) -> Option<bool> {
    match (a, b) {
        (None, None) => None,
        (Some(x), None) => Some(x),
        (None, Some(y)) => Some(y),
        (Some(x), Some(y)) => Some(x && y),
    }
}

/// The amount is below the bound, where one is given; nothing at all where the amount is too
/// large.
pub open spec fn below_bound(amount: Option<Decimal>, bound: Option<Decimal>) -> Option<
    Option<bool>,
> {
    match bound {
        None => Some(None),
        Some(limit) => match amount {
            Some(x) => Some(Some(decimal::lt(x, limit))),
            None => None,
        },
    }
}

impl<S: Strategy> GroupView<S> {
    /// The instrument of a condition: the one it names, or that of the first strategy.
    pub open spec fn instrument_of(self, named: Option<String>) -> Option<Seq<char>> {
        match named {
            Some(s) => Some(s@),
            None => if self.legs.len() > 0 {
                Some(self.legs[0].instrument@)
            } else {
                None
            },
        }
    }

    /// The quote of the instrument of a condition.
    pub open spec fn quote_of(self, books: StateView, named: Option<String>) -> Option<Quote> {
        match self.instrument_of(named) {
            Some(k) => strmap::lookup(books.quotes, k),
            None => None,
        }
    }

    /// What the first `n` strategies have earned.
    pub open spec fn pnl(self, books: StateView, n: nat) -> Option<Decimal>
        decreases n,
    {
        if n == 0 {
            Some(decimal::zero())
        } else {
            decimal::plus(
                self.pnl(books, (n - 1) as nat),
                match books.marked(self.legs[n - 1].instrument) {
                    Some(p) => p.pnl(),
                    None => None,
                },
            )
        }
    }

    /// What the group has earned, in percent of what it was given.
    pub open spec fn pnl_pct(self, books: StateView) -> Option<Decimal> {
        if self.risk.allocated_capital_quote.m() <= 0 {
            None
        } else {
            decimal::times(
                decimal::over(self.pnl(books, self.legs.len()), Some(self.risk.allocated_capital_quote)),
                Some(Decimal::lit(100, 0)),
            )
        }
    }

    /// Whether a condition holds; nothing where that cannot be told, because something is not
    /// known or a step is too large.
    pub open spec fn holds(self, books: StateView, now: i64, c: OrchestratorCondition) -> Option<
        bool,
    > {
        match c {
            OrchestratorCondition::PriceAbove { instrument, price } => match self.quote_of(
                books,
                instrument,
            ) {
                Some(q) => match q.mid_of() {
                    Some(mid) => Some(decimal::lt(price, mid)),
                    None => None,
                },
                None => None,
            },
            OrchestratorCondition::PriceBelow { instrument, price } => match self.quote_of(
                books,
                instrument,
            ) {
                Some(q) => match q.mid_of() {
                    Some(mid) => Some(decimal::lt(mid, price)),
                    None => None,
                },
                None => None,
            },
            OrchestratorCondition::SpreadBelow { instrument, max_bps, max_abs } =>
                match self.quote_of(books, instrument) {
                Some(q) => match (
                    below_bound(q.spread_bps_of(), max_bps),
                    below_bound(q.spread_of(), max_abs),
                ) {
                    (Some(a), Some(b)) => both_hold(a, b),
                    _ => None,
                },
                None => None,
            },
            OrchestratorCondition::BalanceAbove { asset, available } => match inventory::account(
                books.inventory.accounts,
                AssetId(asset),
            ).available() {
                Some(have) => Some(decimal::lt(available, have)),
                None => None,
            },
            OrchestratorCondition::GroupPnlPctAbove { pct } => match self.pnl_pct(books) {
                Some(x) => Some(decimal::lt(pct, x)),
                None => None,
            },
            OrchestratorCondition::GroupPnlPctBelow { pct } => match self.pnl_pct(books) {
                Some(x) => Some(decimal::lt(x, pct)),
                None => None,
            },
            OrchestratorCondition::MaxRunningTime { secs } => match self.children_started_at_ms {
                Some(t) => Some(capped(now - t) >= secs * 1000),
                None => None,
            },
        }
    }

    /// The text of the first of the conditions from `i` on of which it can be told that its
    /// value is `value`.
    pub open spec fn first_with(
        self,
        books: StateView,
        now: i64,
        conditions: Seq<OrchestratorCondition>,
        value: bool,
        i: int,
    ) -> Option<Seq<char>>
        decreases conditions.len() - i,
    {
        if i < 0 || i >= conditions.len() {
            None
        } else if self.holds(books, now, conditions[i]) == Some(value) {
            Some(condition_text(conditions[i]))
        } else {
            self.first_with(books, now, conditions, value, i + 1)
        }
    }

    /// All conditions hold before which no child is started.
    pub open spec fn may_start(self, books: StateView, now: i64) -> bool {
        forall|i: int|
            0 <= i < self.conditions.start_conditions@.len() ==> #[trigger] self.holds(
                books,
                now,
                self.conditions.start_conditions@[i],
            ) == Some(true)
    }

    /// A child is started.
    pub open spec fn any_started(self) -> bool {
        exists|i: int| 0 <= i < self.legs.len() && (#[trigger] self.legs[i]).started
    }

    /// Why the group wins or loses enough to stop, where it does.
    pub open spec fn bound_reached(self, books: StateView) -> Option<Seq<char>> {
        match self.pnl_pct(books) {
            None => None,
            Some(pct) => {
                let won = match self.risk.take_profit_pct {
                    Some(tp) => decimal::magnitude(tp).m() > 0 && decimal::le(decimal::magnitude(tp), pct),
                    None => false,
                };
                let lost = match self.risk.stop_loss_pct {
                    Some(sl) => sl.m() != 0 && decimal::le(pct, decimal::negated(decimal::magnitude(sl))),
                    None => false,
                };
                if won {
                    Some(
                        "group take profit triggered: pnl_pct="@ + decimal::decimal_text(pct@)
                            + " >= threshold="@ + decimal::decimal_text(
                            decimal::magnitude(self.risk.take_profit_pct->0)@,
                        ),
                    )
                } else if lost {
                    Some(
                        "group stop loss triggered: pnl_pct="@ + decimal::decimal_text(pct@)
                            + " <= threshold="@ + decimal::decimal_text(
                            decimal::negated(decimal::magnitude(self.risk.stop_loss_pct->0))@,
                        ),
                    )
                } else {
                    None
                }
            },
        }
    }

    /// Why the group stops for its risk, where it does.
    pub open spec fn risk_reason(self, books: StateView, now: i64) -> Option<Seq<char>> {
        match self.first_with(books, now, self.conditions.risk_conditions@, true, 0) {
            Some(text) => Some("risk condition triggered: "@ + text),
            None => self.bound_reached(books),
        }
    }

    /// Why the group stops because a condition does not hold, where it does.
    pub open spec fn invalid_reason(self, books: StateView, now: i64) -> Option<Seq<char>> {
        match self.first_with(books, now, self.conditions.validation_conditions@, false, 0) {
            Some(text) => Some("validation condition failed: "@ + text),
            None => None,
        }
    }

    /// A started child is active, and none is once the group is stopped.
    pub open spec fn sound(self) -> bool {
        forall|i: int|
            0 <= i < self.legs.len() ==> ((#[trigger] self.legs[i]).started ==> self.legs[i].active)
                && (self.stopped ==> !self.legs[i].active)
    }

    /// The group with a child that runs, as it is after a call.
    pub open spec fn with_child(self, i: int, strategy: S) -> GroupView<S> {
        GroupView {
            legs: self.legs.update(
                i,
                LegView { strategy, started: true, active: true, ..self.legs[i] },
            ),
            ..self
        }
    }

    /// The same group in another state: nothing changes that was set from outside.
    pub open spec fn same_group(self, other: GroupView<S>) -> bool {
        &&& self.id == other.id
        &&& self.risk == other.risk
        &&& self.conditions == other.conditions
        &&& self.legs.len() == other.legs.len()
        &&& forall|i: int|
            0 <= i < self.legs.len() ==> (#[trigger] self.legs[i]).id == other.legs[i].id
                && self.legs[i].instrument == other.legs[i].instrument
        &&& other.stopped ==> self.stopped && self.stop_reason == other.stop_reason
    }
}

/// A span of time as the clock can tell it.
pub open spec fn capped(n: int) -> int {
    if n > i64::MAX {
        i64::MAX as int
    } else if n < i64::MIN {
        i64::MIN as int
    } else {
        n
    }
}

/// What a group reads when it acts.
pub struct Moment {
    pub books: EngineState,
    pub now: i64,
}

/// What can be read in a context.
pub open spec fn moment_of(ctx: EngineContext<'_>) -> Moment {
    Moment { books: ctx.books(), now: ctx.time() }
}

/// What calling a child does, for the context that it sees and the one that it leaves: it reads
/// what the group reads, has no timers of its own, and nothing is asked for yet.
pub open spec fn child_calls<S: Strategy>(
    before: S,
    after: S,
    call: Call,
    at: Moment,
    reply: Asked,
    seen: EngineContext<'_>,
    left: EngineContext<'_>,
) -> bool {
    &&& seen.commands.is_empty()
    &&& seen.timers@.len() == 0
    &&& seen.canceled_timers@.len() == 0
    &&& moment_of(seen) == at
    &&& seen.timer() is None
    &&& before.acts(call, seen, &after, left)
    &&& reply == left.commands.asked()
}

/// What calling a child does, with the commands that it gives.
pub open spec fn child_called<S: Strategy>(
    before: S,
    after: S,
    call: Call,
    at: Moment,
    reply: Asked,
) -> bool {
    exists|seen: EngineContext<'_>, left: EngineContext<'_>| #[trigger]
        child_calls(before, after, call, at, reply, seen, left)
}

/// What a child asks for, and the child after it.
pub struct Reply<S> {
    pub asked: Asked,
    pub strategy: S,
}

/// The children that run were told to stop, and the replies are theirs.
pub open spec fn all_told<S: Strategy>(
    legs: Seq<LegView<S>>,
    at: Moment,
    replies: Seq<Reply<S>>,
) -> bool {
    &&& replies.len() == legs.len()
    &&& forall|i: int|
        0 <= i < legs.len() && legs[i].active && legs[i].started ==> child_called(
            legs[i].strategy,
            (#[trigger] replies[i]).strategy,
            Call::Stop,
            at,
            replies[i].asked,
        )
}

/// The children and the commands after the first `n` children were told to stop: those that
/// are started give commands.
pub open spec fn swept<S>(
    legs: Seq<LegView<S>>,
    n: nat,
    out: Asked,
    replies: Seq<Reply<S>>,
) -> (Seq<LegView<S>>, Asked)
    decreases n,
{
    if n == 0 {
        (legs, out)
    } else {
        let (l, o) = swept(legs, (n - 1) as nat, out, replies);
        let leg = l[n - 1];
        if !leg.active {
            (l, o)
        } else if !leg.started {
            (l.update(n - 1, LegView { active: false, ..leg }), o)
        } else {
            (
                l.update(
                    n - 1,
                    LegView {
                        strategy: replies[n - 1].strategy,
                        active: false,
                        started: false,
                        ..leg
                    },
                ),
                o.with(replies[n - 1].asked),
            )
        }
    }
}

/// The commands with a stop of the group behind them.
pub open spec fn adds_stop(before: Asked, after: Asked, id: StrategyId, reason: Seq<char>) -> bool {
    &&& after == (Asked { stops: after.stops, ..before })
    &&& after.stops.len() == before.stops.len() + 1
    &&& after.stops.drop_last() == before.stops
    &&& after.stops.last().strategy_id == id
    &&& after.stops.last().reason@ == reason
}

/// The group stops: all children are told, and a stop of the group is asked for.
pub open spec fn group_stops<S: Strategy>(
    before: GroupView<S>,
    after: GroupView<S>,
    out: Asked,
    more: Asked,
    at: Moment,
    reason: Seq<char>,
    replies: Seq<Reply<S>>,
) -> bool {
    let (legs, told) = swept(before.legs, before.legs.len(), out, replies);
    &&& all_told(before.legs, at, replies)
    &&& after == (GroupView { stopped: true, stop_reason: Some(reason), legs, ..before })
    &&& adds_stop(told, more, before.id, reason)
}

/// What the commands of a child do: they are passed on, and the group stops where the child
/// asked to stop.
pub open spec fn child_acts<S: Strategy>(
    before: GroupView<S>,
    after: GroupView<S>,
    out: Asked,
    more: Asked,
    at: Moment,
    leg: int,
    reply: Asked,
    replies: Seq<Reply<S>>,
) -> bool {
    if reply.stops.len() == 0 || before.stopped {
        after == before && more == out.with(reply)
    } else {
        group_stops(
            before,
            after,
            out.with(reply),
            more,
            at,
            "child leg "@ + before.legs[leg].id + " stopped: "@ + reply.stops.last().reason@,
            replies,
        )
    }
}

/// A child is called and its commands are passed on.
pub open spec fn leg_ran<S: Strategy>(
    before: GroupView<S>,
    after: GroupView<S>,
    out: Asked,
    more: Asked,
    at: Moment,
    leg: int,
    call: Call,
    strategy: S,
    reply: Asked,
    replies: Seq<Reply<S>>,
) -> bool {
    &&& child_called(before.legs[leg].strategy, strategy, call, at, reply)
    &&& child_acts(before.with_child(leg, strategy), after, out, more, at, leg, reply, replies)
}

/// What a call of a child does. A child is started once, and called otherwise while it runs.
pub open spec fn leg_step<S: Strategy>(
    before: GroupView<S>,
    after: GroupView<S>,
    out: Asked,
    more: Asked,
    at: Moment,
    leg: int,
    call: Call,
) -> bool {
    let l = before.legs[leg];
    if l.active && l.started != (call is Start) {
        exists|strategy: S, reply: Asked, replies: Seq<Reply<S>>| #[trigger]
            leg_ran(before, after, out, more, at, leg, call, strategy, reply, replies)
    } else {
        after == before && more == out
    }
}

/// One child after the other is called while the group goes on.
pub open spec fn leg_link<S: Strategy>(
    groups: Seq<GroupView<S>>,
    outs: Seq<Asked>,
    at: Moment,
    indexes: Seq<usize>,
    call: Call,
    i: int,
) -> bool {
    &&& leg_step(groups[i], groups[i + 1], outs[i], outs[i + 1], at, indexes[i] as int, call)
    &&& i > 0 ==> !groups[i].stopped
}

/// What calling children one after the other does, through the group and the commands after
/// each. It ends early only where the group is stopped.
pub open spec fn leg_run<S: Strategy>(
    before: GroupView<S>,
    after: GroupView<S>,
    out: Asked,
    more: Asked,
    at: Moment,
    indexes: Seq<usize>,
    call: Call,
    groups: Seq<GroupView<S>>,
    outs: Seq<Asked>,
) -> bool {
    let m = groups.len() - 1;
    &&& 0 <= m <= indexes.len()
    &&& outs.len() == groups.len()
    &&& groups[0] == before
    &&& outs[0] == out
    &&& groups[m] == after
    &&& outs[m] == more
    &&& forall|i: int| 0 <= i < m ==> #[trigger] leg_link(groups, outs, at, indexes, call, i)
    &&& m < indexes.len() ==> m > 0 && after.stopped
}

/// What calling children one after the other does.
pub open spec fn leg_chain<S: Strategy>(
    before: GroupView<S>,
    after: GroupView<S>,
    out: Asked,
    more: Asked,
    at: Moment,
    indexes: Seq<usize>,
    call: Call,
) -> bool {
    exists|groups: Seq<GroupView<S>>, outs: Seq<Asked>| #[trigger]
        leg_run(before, after, out, more, at, indexes, call, groups, outs)
}

/// The places of all children.
pub open spec fn all_places(n: nat) -> Seq<usize> {
    Seq::new(n, |i: int| i as usize)
}

/// What starting the children does, unless one is started or a condition for it does not hold.
pub open spec fn readied<S: Strategy>(
    before: GroupView<S>,
    after: GroupView<S>,
    out: Asked,
    more: Asked,
    at: Moment,
) -> bool {
    if before.any_started() || !before.may_start(at.books@, at.now) {
        after == before && more == out
    } else {
        leg_chain(
            GroupView { children_started_at_ms: Some(at.now), ..before },
            after,
            out,
            more,
            at,
            all_places(before.legs.len()),
            Call::Start,
        )
    }
}

/// The group stops, unless it is stopped.
pub open spec fn halts<S: Strategy>(
    before: GroupView<S>,
    after: GroupView<S>,
    out: Asked,
    more: Asked,
    at: Moment,
    reason: Seq<char>,
) -> bool {
    if before.stopped {
        after == before && more == out
    } else {
        exists|replies: Seq<Reply<S>>| #[trigger]
            group_stops(before, after, out, more, at, reason, replies)
    }
}

/// The group stops where a condition does not hold that must.
pub open spec fn validated<S: Strategy>(
    before: GroupView<S>,
    after: GroupView<S>,
    out: Asked,
    more: Asked,
    at: Moment,
) -> bool {
    match before.invalid_reason(at.books@, at.now) {
        Some(reason) => halts(before, after, out, more, at, reason),
        None => after == before && more == out,
    }
}

/// The group stops where its risk asks for it.
pub open spec fn risk_heeded<S: Strategy>(
    before: GroupView<S>,
    after: GroupView<S>,
    out: Asked,
    more: Asked,
    at: Moment,
) -> bool {
    match before.risk_reason(at.books@, at.now) {
        Some(reason) if before.any_started() => halts(before, after, out, more, at, reason),
        _ => after == before && more == out,
    }
}

/// What comes before every event and timer: nothing in a stopped group; else the group is
/// validated, and where it goes on the children are started where they can be.
pub open spec fn prepared<S: Strategy>(
    before: GroupView<S>,
    after: GroupView<S>,
    out: Asked,
    more: Asked,
    at: Moment,
) -> bool {
    if before.stopped {
        after == before && more == out
    } else {
        exists|mid: GroupView<S>, asked: Asked|
            {
                &&& #[trigger] validated(before, mid, out, asked, at)
                &&& if mid.stopped {
                    after == mid && more == asked
                } else {
                    readied(mid, after, asked, more, at)
                }
            }
    }
}

/// What comes after the preparation: the children are called, and where the group goes on its
/// risk is heeded.
pub open spec fn worked<S: Strategy>(
    before: GroupView<S>,
    after: GroupView<S>,
    out: Asked,
    more: Asked,
    at: Moment,
    indexes: Seq<usize>,
    call: Call,
) -> bool {
    if before.stopped {
        after == before && more == out
    } else {
        exists|mid: GroupView<S>, asked: Asked|
            {
                &&& #[trigger] leg_chain(before, mid, out, asked, at, indexes, call)
                &&& if mid.stopped {
                    after == mid && more == asked
                } else {
                    risk_heeded(mid, after, asked, more, at)
                }
            }
    }
}

/// What an event does: it goes to the children that it concerns once the group is prepared.
pub open spec fn group_takes<S: Strategy>(
    before: GroupView<S>,
    after: GroupView<S>,
    out: Asked,
    more: Asked,
    at: Moment,
    event: Event,
) -> bool {
    exists|mid: GroupView<S>, asked: Asked|
        {
            &&& #[trigger] prepared(before, mid, out, asked, at)
            &&& worked(
                mid,
                after,
                asked,
                more,
                at,
                routed(mid.legs, event, mid.legs.len()),
                Call::Event(event),
            )
        }
}

/// What a timer does: that of the group calls no child, any other one calls all that run.
pub open spec fn group_ticks<S: Strategy>(
    before: GroupView<S>,
    after: GroupView<S>,
    out: Asked,
    more: Asked,
    at: Moment,
    timer_id: TimerId,
) -> bool {
    exists|mid: GroupView<S>, asked: Asked|
        {
            &&& #[trigger] prepared(before, mid, out, asked, at)
            &&& worked(
                mid,
                after,
                asked,
                more,
                at,
                if before.control_timer_id == Some(timer_id) {
                    Seq::empty()
                } else {
                    all_places(mid.legs.len())
                },
                Call::Timer(timer_id),
            )
        }
}

/// What the start does: a timer of one second is set that repeats, and kept as the timer of the
/// group; then the group is validated, and the children are started where they can be.
pub open spec fn group_begins<S: Strategy>(
    before: GroupView<S>,
    after: GroupView<S>,
    seen: EngineContext<'_>,
    left: EngineContext<'_>,
    set: EngineContext<'_>,
    id: TimerId,
    mid: GroupView<S>,
    asked: Asked,
) -> bool {
    &&& set.set_after(seen, id, 1000, true)
    &&& left.differs_in_commands(set)
    &&& validated(
        GroupView { control_timer_id: Some(id), ..before },
        mid,
        set.commands.asked(),
        asked,
        moment_of(seen),
    )
    &&& readied(mid, after, asked, left.commands.asked(), moment_of(seen))
}

/// What the stop does: every child that runs is told, unless the group is stopped. No stop is
/// asked for.
pub open spec fn group_ends<S: Strategy>(
    before: GroupView<S>,
    after: GroupView<S>,
    out: Asked,
    more: Asked,
    at: Moment,
) -> bool {
    if before.stopped {
        after == before && more == out
    } else {
        exists|replies: Seq<Reply<S>>|
            {
                &&& #[trigger] all_told(before.legs, at, replies)
                &&& after == (GroupView {
                    stopped: true,
                    stop_reason: Some("parent stop requested"@),
                    legs: swept(before.legs, before.legs.len(), out, replies).0,
                    ..before
                })
                &&& more == swept(before.legs, before.legs.len(), out, replies).1
            }
    }
}

/// What a call of the group does.
pub open spec fn group_acts<S: Strategy>(
    before: GroupView<S>,
    call: Call,
    seen: EngineContext<'_>,
    after: GroupView<S>,
    left: EngineContext<'_>,
) -> bool {
    let out = seen.commands.asked();
    let more = left.commands.asked();
    let at = moment_of(seen);
    match call {
        Call::Start => exists|
            set: EngineContext<'_>,
            id: TimerId,
            mid: GroupView<S>,
            asked: Asked,
        | #[trigger]
            group_begins(before, after, seen, left, set, id, mid, asked),
        Call::Event(event) => left.differs_in_commands(seen) && group_takes(
            before,
            after,
            out,
            more,
            at,
            event,
        ),
        Call::Timer(id) => left.differs_in_commands(seen) && group_ticks(
            before,
            after,
            out,
            more,
            at,
            id,
        ),
        Call::Stop => left.differs_in_commands(seen) && group_ends(before, after, out, more, at),
    }
}

proof fn lemma_swept<S>(legs: Seq<LegView<S>>, n: nat, out: Asked, replies: Seq<Reply<S>>)
    requires
        n <= legs.len(),
    ensures
        swept(legs, n, out, replies).0.len() == legs.len(),
        forall|i: int|
            0 <= i < legs.len() ==> {
                let leg = #[trigger] swept(legs, n, out, replies).0[i];
                &&& leg.id == legs[i].id
                &&& leg.instrument == legs[i].instrument
                &&& i >= n ==> leg == legs[i]
                &&& i < n ==> !leg.active && ((legs[i].started ==> legs[i].active) ==> !leg.started)
            },
        swept(legs, n, out, replies).1.extends(out),
        swept(legs, n, out, replies).1.stops == out.stops,
    decreases n,
{
    if n > 0 {
        lemma_swept(legs, (n - 1) as nat, out, replies);
    }
}

/// What every step of a group keeps: it stays the same group and sound, no command is lost, and
/// it asks to be stopped once, when it stops, for the reason that it keeps.
pub open spec fn moved<S: Strategy>(
    before: GroupView<S>,
    after: GroupView<S>,
    out: Asked,
    more: Asked,
) -> bool {
    &&& after.same_group(before)
    &&& before.sound() ==> after.sound()
    &&& more.extends(out)
    &&& before.stopped || !after.stopped ==> more.stops == out.stops
    &&& !before.stopped && after.stopped ==> {
        &&& more.stops.len() == out.stops.len() + 1
        &&& more.stops.last().strategy_id == before.id
        &&& after.stop_reason == Some(more.stops.last().reason@)
    }
}

/// Steps one after the other keep what each of them keeps.
pub proof fn law_steps_compose<S: Strategy>(
    a: GroupView<S>,
    b: GroupView<S>,
    c: GroupView<S>,
    x: Asked,
    y: Asked,
    z: Asked,
)
    requires
        moved(a, b, x, y),
        moved(b, c, y, z),
    ensures
        moved(a, c, x, z),
{
    assert forall|i: int| 0 <= i < c.legs.len() implies (#[trigger] c.legs[i]).id == a.legs[i].id
        && c.legs[i].instrument == a.legs[i].instrument by {
        assert(b.legs[i].id == a.legs[i].id);
    }
}

/// What the commands of a child do is such a step.
pub proof fn law_child_acts_is_a_step<S: Strategy>(
    before: GroupView<S>,
    after: GroupView<S>,
    out: Asked,
    more: Asked,
    at: Moment,
    leg: int,
    reply: Asked,
    replies: Seq<Reply<S>>,
)
    requires
        child_acts(before, after, out, more, at, leg, reply, replies),
    ensures
        moved(before, after, out, more),
{
    let passed = out.with(reply);
    assert(passed.extends(out));
    if reply.stops.len() > 0 && !before.stopped {
        let reason = "child leg "@ + before.legs[leg].id + " stopped: "@
            + reply.stops.last().reason@;
        law_stopping(before, after, passed, more, at, reason, replies);
        assert(moved(before, before, out, passed));
        law_steps_compose(before, before, after, out, passed, more);
    }
}

/// A group that stops keeps every command that was given before, tells every child, and asks
/// to be stopped.
pub proof fn law_stopping<S: Strategy>(
    before: GroupView<S>,
    after: GroupView<S>,
    out: Asked,
    more: Asked,
    at: Moment,
    reason: Seq<char>,
    replies: Seq<Reply<S>>,
)
    requires
        !before.stopped,
        group_stops(before, after, out, more, at, reason, replies),
    ensures
        moved(before, after, out, more),
        after.stop_reason == Some(reason),
{
    lemma_swept(before.legs, before.legs.len(), out, replies);
    if before.sound() {
        assert forall|i: int| 0 <= i < after.legs.len() implies ((
        #[trigger] after.legs[i]).started ==> after.legs[i].active) && !after.legs[i].active by {
            assert(before.legs[i].started ==> before.legs[i].active);
        }
    }
    assert(out.stops.is_prefix_of(more.stops)) by {
        assert forall|i: int| 0 <= i < out.stops.len() implies out.stops[i] == more.stops[i] by {
            assert(more.stops.drop_last()[i] == more.stops[i]);
        }
    }
}

/// Nothing but the children and the stop of the group changes.
pub open spec fn steady<S>(before: GroupView<S>, after: GroupView<S>) -> bool {
    after == (GroupView {
        legs: after.legs,
        stopped: after.stopped,
        stop_reason: after.stop_reason,
        ..before
    })
}

/// A call of a child is such a step.
pub proof fn law_leg_step_is_a_step<S: Strategy>(
    before: GroupView<S>,
    after: GroupView<S>,
    out: Asked,
    more: Asked,
    at: Moment,
    leg: int,
    call: Call,
)
    requires
        leg_step(before, after, out, more, at, leg, call),
        0 <= leg < before.legs.len(),
    ensures
        moved(before, after, out, more),
        steady(before, after),
        !after.stopped && before.legs[leg].active && (call is Start) ==> after.legs[leg].started,
        !after.stopped ==> forall|i: int|
            0 <= i < before.legs.len() && i != leg ==> #[trigger] after.legs[i] == before.legs[i],
{
    let l = before.legs[leg];
    if l.active && l.started != (call is Start) {
        let (strategy, reply, replies) = choose|strategy: S, reply: Asked, replies: Seq<Reply<S>>| #[trigger]
            leg_ran(before, after, out, more, at, leg, call, strategy, reply, replies);
        let mid = before.with_child(leg, strategy);
        law_child_acts_is_a_step(mid, after, out, more, at, leg, reply, replies);
        assert(moved(before, mid, out, out)) by {
            if before.sound() {
                assert forall|k: int| 0 <= k < mid.legs.len() implies ((
                #[trigger] mid.legs[k]).started ==> mid.legs[k].active) && (mid.stopped
                    ==> !mid.legs[k].active) by {
                    assert(before.legs[k].started ==> before.legs[k].active);
                    assert(before.stopped ==> !before.legs[leg].active);
                }
            }
        }
        law_steps_compose(before, mid, after, out, out, more);
    }
}

/// Where the group goes on after its children were started, every active one is started.
pub proof fn law_children_start<S: Strategy>(
    before: GroupView<S>,
    after: GroupView<S>,
    out: Asked,
    more: Asked,
    at: Moment,
)
    requires
        readied(before, after, out, more, at),
        before.legs.len() <= usize::MAX,
        !before.any_started(),
        before.may_start(at.books@, at.now),
    ensures
        after.children_started_at_ms == Some(at.now),
        after.control_timer_id == before.control_timer_id,
        !after.stopped ==> forall|i: int|
            0 <= i < before.legs.len() && before.legs[i].active ==> (
            #[trigger] after.legs[i]).started,
{
    let v = GroupView { children_started_at_ms: Some(at.now), ..before };
    let places = all_places(before.legs.len());
    let (groups, outs) = choose|groups: Seq<GroupView<S>>, outs: Seq<Asked>| #[trigger]
        leg_run(v, after, out, more, at, places, Call::Start, groups, outs);
    lemma_started(v, after, out, more, at, groups, outs, groups.len() - 1);
}

proof fn lemma_started<S: Strategy>(
    before: GroupView<S>,
    after: GroupView<S>,
    out: Asked,
    more: Asked,
    at: Moment,
    groups: Seq<GroupView<S>>,
    outs: Seq<Asked>,
    k: int,
)
    requires
        leg_run(
            before,
            after,
            out,
            more,
            at,
            all_places(before.legs.len()),
            Call::Start,
            groups,
            outs,
        ),
        before.legs.len() <= usize::MAX,
        0 <= k < groups.len(),
    ensures
        steady(before, groups[k]),
        groups[k].legs.len() == before.legs.len(),
        !groups[k].stopped || k == 0 ==> forall|i: int|
            0 <= i < before.legs.len() ==> {
                let leg = #[trigger] groups[k].legs[i];
                &&& i >= k ==> leg == before.legs[i]
                &&& i < k && before.legs[i].active ==> leg.started
            },
    decreases k,
{
    if k > 0 {
        lemma_started(before, after, out, more, at, groups, outs, k - 1);
        let places = all_places(before.legs.len());
        assert(leg_link(groups, outs, at, places, Call::Start, k - 1));
        assert(places[k - 1] == k - 1);
        law_leg_step_is_a_step(
            groups[k - 1],
            groups[k],
            outs[k - 1],
            outs[k],
            at,
            k - 1,
            Call::Start,
        );
        if !groups[k].stopped {
            assert forall|i: int| 0 <= i < before.legs.len() implies {
                let leg = #[trigger] groups[k].legs[i];
                &&& i >= k ==> leg == before.legs[i]
                &&& i < k && before.legs[i].active ==> leg.started
            } by {
                let was = groups[k - 1].legs[i];
                if i != k - 1 {
                    assert(groups[k].legs[i] == was);
                }
            }
        }
    }
}

/// A group of strategies.
pub struct BotOrchestrator<S: Strategy> {
    id: StrategyId,
    legs: Vec<OrchestratorLeg<S>>,
    risk: GroupRiskConfig,
    conditions: OrchestratorConditions,
    children_started_at_ms: Option<i64>,
    control_timer_id: Option<TimerId>,
    stopped: bool,
    stop_reason: Option<String>,
}

/// The strategies of a group.
pub open spec fn leg_views<S>(s: Seq<OrchestratorLeg<S>>) -> Seq<LegView<S>> {
    s.map_values(
        |l: OrchestratorLeg<S>|
            LegView {
                id: l.id@,
                instrument: l.instrument,
                strategy: l.strategy,
                started: l.started,
                active: l.active,
            },
    )
}

impl<S: Strategy> BotOrchestrator<S> {
    /// The group.
    pub closed spec fn view(&self) -> GroupView<S> {
        GroupView {
            id: self.id,
            legs: leg_views(self.legs@),
            risk: self.risk,
            conditions: self.conditions,
            children_started_at_ms: self.children_started_at_ms,
            control_timer_id: self.control_timer_id,
            stopped: self.stopped,
            stop_reason: match self.stop_reason {
                Some(s) => Some(s@),
                None => None,
            },
        }
    }

    /// A group without conditions.
    pub fn new(id: StrategyId, legs: Vec<OrchestratorLeg<S>>, risk: GroupRiskConfig) -> (r:
        BotOrchestrator<S>)
        ensures
            r@.id == id,
            r@.legs == leg_views(legs@),
            r@.risk == risk,
            r@.conditions.start_conditions@.len() == 0,
            r@.conditions.validation_conditions@.len() == 0,
            r@.conditions.risk_conditions@.len() == 0,
            r@.children_started_at_ms is None,
            r@.control_timer_id is None,
            !r@.stopped,
            r@.stop_reason is None,
    {
        BotOrchestrator::with_conditions(id, legs, risk, OrchestratorConditions::default())
    }

    /// A group with conditions.
    pub fn with_conditions(
        id: StrategyId,
        legs: Vec<OrchestratorLeg<S>>,
        risk: GroupRiskConfig,
        conditions: OrchestratorConditions,
    ) -> (r: BotOrchestrator<S>)
        ensures
            r@ == (GroupView {
                id,
                legs: leg_views(legs@),
                risk,
                conditions,
                children_started_at_ms: None,
                control_timer_id: None,
                stopped: false,
                stop_reason: None,
            }),
    {
        BotOrchestrator {
            id,
            legs,
            risk,
            conditions,
            children_started_at_ms: None,
            control_timer_id: None,
            stopped: false,
            stop_reason: None,
        }
    }

    /// The strategies of the group.
    pub fn legs(&self) -> (r: &Vec<OrchestratorLeg<S>>)
        ensures
            leg_views(r@) == self@.legs,
    {
        &self.legs
    }

    /// Whether the group is stopped.
    pub fn is_stopped(&self) -> (r: bool)
        ensures
            r == self@.stopped,
    {
        self.stopped
    }

    /// Why the group is stopped.
    pub fn stop_reason(&self) -> (r: Option<&str>)
        ensures
            match r {
                Some(s) => self@.stop_reason == Some(s@),
                None => self@.stop_reason is None,
            },
    {
        match &self.stop_reason {
            Some(s) => Some(s.as_str()),
            None => None,
        }
    }

    /// The strategies that an event goes to: those that are started, and of these only those
    /// of its instrument where it has one.
    pub fn routed_leg_indexes(&self, event: &Event) -> (r: Vec<usize>)
        ensures
            r@ == routed(self@.legs, *event, self@.legs.len()),
            forall|k: int| 0 <= k < r@.len() ==> (#[trigger] r@[k]) < self@.legs.len(),
    {
        let mut out: Vec<usize> = Vec::new();
        let n: usize = self.legs.len();
        let about = event.instrument();
        let mut i: usize = 0;
        while i < n
            invariant
                n == self.legs@.len(),
                n == self@.legs.len(),
                i <= n,
                about == (match event.about() {
                    Some(x) => Some(&x),
                    None => None,
                }),
                out@ == routed(self@.legs, *event, i as nat),
                forall|k: int| 0 <= k < out@.len() ==> (#[trigger] out@[k]) < n,
            decreases n - i,
        {
            let leg = &self.legs[i];
            assert(self@.legs[i as int].instrument == leg.instrument);
            let mine = match about {
                Some(x) => leg.instrument.same(x),
                None => true,
            };
            if leg.active && leg.started && mine {
                out.push(i);
            }
            i = i + 1;
        }
        out
    }

    /// What the group has earned, where no step is too large.
    pub fn current_group_pnl(&self, ctx: &EngineContext<'_>) -> (r: Option<Decimal>)
        ensures
            r == self@.pnl(ctx.books()@, self@.legs.len()),
    {
        let mut total: Option<Decimal> = Some(Decimal::zero());
        let mut i: usize = 0;
        while i < self.legs.len()
            invariant
                i <= self.legs@.len(),
                self@.legs.len() == self.legs@.len(),
                total == self@.pnl(ctx.books()@, i as nat),
            decreases self.legs@.len() - i,
        {
            assert(self@.legs[i as int].instrument == self.legs@[i as int].instrument);
            let earned = match ctx.position(&self.legs[i].instrument) {
                Some(p) => p.try_current_pnl(),
                None => None,
            };
            total = sum(total, earned);
            i = i + 1;
        }
        total
    }

    /// What the group has earned, in percent of what it was given.
    pub fn group_pnl_pct(&self, ctx: &EngineContext<'_>) -> (r: Option<Decimal>)
        ensures
            r == self@.pnl_pct(ctx.books()@),
    {
        if !self.risk.allocated_capital_quote.is_positive() {
            return None;
        }
        product(
            quotient(self.current_group_pnl(ctx), Some(self.risk.allocated_capital_quote)),
            Some(Decimal::new(100, 0)),
        )
    }

    fn condition_quote(&self, ctx: &EngineContext<'_>, named: &Option<String>) -> (r: Option<Quote>)
        ensures
            r == self@.quote_of(ctx.books()@, *named),
    {
        match named {
            Some(s) => ctx.quote(&InstrumentId::new(s.as_str())),
            None => if self.legs.len() > 0 {
                assert(self@.legs[0].instrument == self.legs@[0].instrument);
                ctx.quote(&self.legs[0].instrument)
            } else {
                None
            },
        }
    }

    /// Whether a condition holds; nothing where that cannot be told.
    pub fn evaluate_condition(&self, ctx: &EngineContext<'_>, condition: &OrchestratorCondition) -> (r:
        Option<bool>)
        ensures
            r == self@.holds(ctx.books()@, ctx.time(), *condition),
    {
        match condition {
            OrchestratorCondition::PriceAbove { instrument, price } => match self.condition_quote(
                ctx,
                instrument,
            ) {
                Some(q) => match q.try_mid() {
                    Some(mid) => Some(price.below(mid.0)),
                    None => None,
                },
                None => None,
            },
            OrchestratorCondition::PriceBelow { instrument, price } => match self.condition_quote(
                ctx,
                instrument,
            ) {
                Some(q) => match q.try_mid() {
                    Some(mid) => Some(mid.0.below(*price)),
                    None => None,
                },
                None => None,
            },
            OrchestratorCondition::SpreadBelow { instrument, max_bps, max_abs } =>
                match self.condition_quote(ctx, instrument) {
                Some(q) => {
                    let a = match max_bps {
                        None => Some(None),
                        Some(limit) => match q.try_spread_bps() {
                            Some(x) => Some(Some(x.below(*limit))),
                            None => None,
                        },
                    };
                    let b = match max_abs {
                        None => Some(None),
                        Some(limit) => match q.try_spread() {
                            Some(x) => Some(Some(x.below(*limit))),
                            None => None,
                        },
                    };
                    match (a, b) {
                        (Some(a), Some(b)) => match (a, b) {
                            (None, None) => None,
                            (Some(x), None) => Some(x),
                            (None, Some(y)) => Some(y),
                            (Some(x), Some(y)) => Some(x && y),
                        },
                        _ => None,
                    }
                },
                None => None,
            },
            OrchestratorCondition::BalanceAbove { asset, available } => {
                let asset_id = AssetId(asset.clone());
                match ctx.balance(&asset_id) {
                    Some(b) => Some(available.below(b.available)),
                    None => None,
                }
            },
            OrchestratorCondition::GroupPnlPctAbove { pct } => match self.group_pnl_pct(ctx) {
                Some(x) => Some(pct.below(x)),
                None => None,
            },
            OrchestratorCondition::GroupPnlPctBelow { pct } => match self.group_pnl_pct(ctx) {
                Some(x) => Some(x.below(*pct)),
                None => None,
            },
            OrchestratorCondition::MaxRunningTime { secs } => match self.children_started_at_ms {
                Some(t) => {
                    let span: i128 = ctx.now_ms() as i128 - t as i128;
                    let elapsed: i128 = if span > i64::MAX as i128 {
                        i64::MAX as i128
                    } else if span < i64::MIN as i128 {
                        i64::MIN as i128
                    } else {
                        span
                    };
                    Some(elapsed >= *secs as i128 * 1000)
                },
                None => None,
            },
        }
    }

    fn find_condition(
        &self,
        ctx: &EngineContext<'_>,
        conditions: &Vec<OrchestratorCondition>,
        value: bool,
    ) -> (r: Option<String>)
        ensures
            match self@.first_with(ctx.books()@, ctx.time(), conditions@, value, 0) {
                Some(t) => r matches Some(s) && s@ == t,
                None => r is None,
            },
    {
        let mut i: usize = 0;
        while i < conditions.len()
            invariant
                i <= conditions@.len(),
                self@.first_with(ctx.books()@, ctx.time(), conditions@, value, 0)
                    == self@.first_with(ctx.books()@, ctx.time(), conditions@, value, i as int),
            decreases conditions@.len() - i,
        {
            match self.evaluate_condition(ctx, &conditions[i]) {
                Some(v) => {
                    if v == value {
                        return Some(conditions[i].show());
                    }
                },
                None => {},
            }
            i = i + 1;
        }
        None
    }

    /// Whether all conditions hold before which no child is started.
    pub fn start_conditions_passed(&self, ctx: &EngineContext<'_>) -> (r: bool)
        ensures
            r == self@.may_start(ctx.books()@, ctx.time()),
    {
        let conditions = &self.conditions.start_conditions;
        let mut i: usize = 0;
        while i < conditions.len()
            invariant
                i <= conditions@.len(),
                conditions@ == self@.conditions.start_conditions@,
                forall|k: int|
                    0 <= k < i ==> #[trigger] self@.holds(
                        ctx.books()@,
                        ctx.time(),
                        conditions@[k],
                    ) == Some(true),
            decreases conditions@.len() - i,
        {
            let passed = match self.evaluate_condition(ctx, &conditions[i]) {
                Some(v) => v,
                None => false,
            };
            if !passed {
                assert(self@.holds(ctx.books()@, ctx.time(), conditions@[i as int]) != Some(true));
                return false;
            }
            i = i + 1;
        }
        true
    }

    /// Why the group stops because a condition does not hold, where it does.
    pub fn invalid_reason(&self, ctx: &EngineContext<'_>) -> (r: Option<String>)
        ensures
            match self@.invalid_reason(ctx.books()@, ctx.time()) {
                Some(t) => r matches Some(s) && s@ == t,
                None => r is None,
            },
    {
        match self.find_condition(ctx, &self.conditions.validation_conditions, false) {
            Some(text) => Some(join2("validation condition failed: ", text.as_str())),
            None => None,
        }
    }

    /// Why the group stops for its risk, where it does.
    pub fn risk_reason(&self, ctx: &EngineContext<'_>) -> (r: Option<String>)
        ensures
            match self@.risk_reason(ctx.books()@, ctx.time()) {
                Some(t) => r matches Some(s) && s@ == t,
                None => r is None,
            },
    {
        if let Some(text) = self.find_condition(ctx, &self.conditions.risk_conditions, true) {
            return Some(join2("risk condition triggered: ", text.as_str()));
        }
        let pct = match self.group_pnl_pct(ctx) {
            Some(x) => x,
            None => {
                return None;
            },
        };
        if let Some(tp) = self.risk.take_profit_pct {
            let threshold = tp.abs();
            if threshold.is_positive() && threshold.at_most(pct) {
                return Some(
                    join3(
                        "group take profit triggered: pnl_pct=",
                        pct.to_string().as_str(),
                        " >= threshold=",
                    ).concat(threshold.to_string().as_str()),
                );
            }
        }
        if let Some(sl) = self.risk.stop_loss_pct {
            let threshold = sl.abs().negate();
            if !sl.is_zero() && pct.at_most(threshold) {
                return Some(
                    join3(
                        "group stop loss triggered: pnl_pct=",
                        pct.to_string().as_str(),
                        " <= threshold=",
                    ).concat(threshold.to_string().as_str()),
                );
            }
        }
        None
    }

    /// Whether a child is started.
    pub fn children_started(&self) -> (r: bool)
        ensures
            r == self@.any_started(),
    {
        let mut i: usize = 0;
        while i < self.legs.len()
            invariant
                i <= self.legs@.len(),
                self@.legs.len() == self.legs@.len(),
                forall|k: int| 0 <= k < i ==> !(#[trigger] self@.legs[k]).started,
            decreases self.legs@.len() - i,
        {
            assert(self@.legs[i as int].started == self.legs@[i as int].started);
            if self.legs[i].started {
                return true;
            }
            i = i + 1;
        }
        false
    }

    /// Tells every child that runs to stop.
    fn sweep(&mut self, ctx: &mut EngineContext<'_>)
        ensures
            final(ctx).differs_in_commands(*old(ctx)),
            exists|replies: Seq<Reply<S>>|
                {
                    let (legs, told) = swept(
                        old(self)@.legs,
                        old(self)@.legs.len(),
                        old(ctx).commands.asked(),
                        replies,
                    );
                    &&& #[trigger] all_told(old(self)@.legs, moment_of(*old(ctx)), replies)
                    &&& final(self)@ == (GroupView { legs, ..old(self)@ })
                    &&& final(ctx).commands.asked() == told
                },
    {
        let n: usize = self.legs.len();
        let ghost legs0 = self@.legs;
        let ghost out0 = ctx.commands.asked();
        let ghost at = moment_of(*ctx);
        let ghost mut replies: Seq<Reply<S>> = Seq::empty();
        let mut i: usize = 0;
        while i < n
            invariant
                n == self.legs@.len(),
                n == legs0.len(),
                i <= n,
                replies.len() == i,
                legs0 == old(self)@.legs,
                out0 == old(ctx).commands.asked(),
                at == moment_of(*old(ctx)),
                ctx.differs_in_commands(*old(ctx)),
                self@ == (GroupView { legs: self@.legs, ..old(self)@ }),
                (self@.legs, ctx.commands.asked()) == swept(legs0, i as nat, out0, replies),
                forall|k: int|
                    0 <= k < i && legs0[k].active && legs0[k].started ==> child_called(
                        legs0[k].strategy,
                        (#[trigger] replies[k]).strategy,
                        Call::Stop,
                        at,
                        replies[k].asked,
                    ),
            decreases n - i,
        {
            let ghost before = self@.legs;
            let ghost replies0 = replies;
            let active = self.legs[i].active;
            let started = self.legs[i].started;
            proof {
                lemma_swept(legs0, i as nat, out0, replies);
                assert(before[i as int] == legs0[i as int]);
            }
            assert(before[i as int].active == active && before[i as int].started == started);
            assert(before[i as int].strategy == self.legs@[i as int].strategy);
            if active && started {
                let mut child = ctx.child();
                let ghost seen = child;
                self.legs[i].strategy.on_stop(&mut child);
                let ghost left = child;
                let captured = child.take_commands();
                let ghost reply = Reply {
                    asked: captured.asked(),
                    strategy: self.legs@[i as int].strategy,
                };
                proof {
                    replies = replies.push(reply);
                    assert(child_calls(
                        legs0[i as int].strategy,
                        reply.strategy,
                        Call::Stop,
                        at,
                        reply.asked,
                        seen,
                        left,
                    ));
                }
                self.legs[i].active = false;
                self.legs[i].started = false;
                let _stops = ctx.pass_on(captured);
                assert(self@.legs =~= before.update(
                    i as int,
                    LegView {
                        strategy: reply.strategy,
                        active: false,
                        started: false,
                        ..before[i as int]
                    },
                ));
            } else {
                proof {
                    replies = replies.push(arbitrary());
                }
                if active {
                    self.legs[i].active = false;
                    assert(self@.legs =~= before.update(
                        i as int,
                        LegView { active: false, ..before[i as int] },
                    ));
                }
            }
            proof {
                assert(replies.drop_last() =~= replies0);
                lemma_swept_agrees(legs0, i as nat, out0, replies0, replies);
                assert forall|k: int|
                    0 <= k < i + 1 && legs0[k].active && legs0[k].started implies child_called(
                    legs0[k].strategy,
                    (#[trigger] replies[k]).strategy,
                    Call::Stop,
                    at,
                    replies[k].asked,
                ) by {
                    if k < i {
                        assert(replies[k] == replies0[k]);
                    }
                }
            }
            i = i + 1;
        }
        assert(all_told(old(self)@.legs, moment_of(*old(ctx)), replies));
    }

    /// Stops the group, unless it is stopped: all children are told, and a stop of the group is
    /// asked for.
    pub fn stop_group(&mut self, ctx: &mut EngineContext<'_>, reason: &str)
        ensures
            final(ctx).differs_in_commands(*old(ctx)),
            halts(
                old(self)@,
                final(self)@,
                old(ctx).commands.asked(),
                final(ctx).commands.asked(),
                moment_of(*old(ctx)),
                reason@,
            ),
    {
        if self.stopped {
            return;
        }
        let ghost v = self@;
        let ghost out = ctx.commands.asked();
        let ghost at = moment_of(*ctx);
        self.stopped = true;
        self.stop_reason = Some(reason.to_owned());
        let ghost w = self@;
        self.sweep(ctx);
        let ghost told = ctx.commands.asked();
        let ghost replies = choose|replies: Seq<Reply<S>>|
            {
                let (legs, told) = swept(w.legs, w.legs.len(), out, replies);
                &&& #[trigger] all_told(w.legs, at, replies)
                &&& self@ == (GroupView { legs, ..w })
                &&& ctx.commands.asked() == told
            };
        ctx.stop_strategy(self.id.clone(), reason);
        assert(group_stops(v, self@, out, ctx.commands.asked(), at, reason@, replies));
    }

    /// Passes the commands of a child on; the group stops where the child asked to stop.
    pub fn child_replied(
        &mut self,
        ctx: &mut EngineContext<'_>,
        leg_index: usize,
        captured: Captured,
    )
        requires
            leg_index < old(self)@.legs.len(),
        ensures
            final(ctx).differs_in_commands(*old(ctx)),
            exists|replies: Seq<Reply<S>>| #[trigger]
                child_acts(
                    old(self)@,
                    final(self)@,
                    old(ctx).commands.asked(),
                    final(ctx).commands.asked(),
                    moment_of(*old(ctx)),
                    leg_index as int,
                    captured.asked(),
                    replies,
                ),
    {
        let ghost v = self@;
        let ghost out = ctx.commands.asked();
        let ghost reply = captured.asked();
        let ghost at = moment_of(*ctx);
        let ghost mut replies: Seq<Reply<S>> = Seq::empty();
        let stops = ctx.pass_on(captured);
        let ghost passed = ctx.commands.asked();
        if stops.len() > 0 {
            let leg_id = self.legs[leg_index].id.clone();
            assert(v.legs[leg_index as int].id == leg_id@);
            let reason = join3(
                "child leg ",
                leg_id.as_str(),
                " stopped: ",
            ).concat(stops[stops.len() - 1].reason.as_str());
            self.stop_group(ctx, reason.as_str());
            proof {
                if !v.stopped {
                    replies = choose|replies: Seq<Reply<S>>| #[trigger]
                        group_stops(v, self@, passed, ctx.commands.asked(), at, reason@, replies);
                }
            }
        }
        assert(child_acts(
            v,
            self@,
            out,
            ctx.commands.asked(),
            at,
            leg_index as int,
            reply,
            replies,
        ));
    }

    /// Calls a child, where it is to be started or runs.
    fn run_child(&mut self, ctx: &mut EngineContext<'_>, leg_index: usize, why: &Why<'_>)
        requires
            leg_index < old(self)@.legs.len(),
        ensures
            final(ctx).differs_in_commands(*old(ctx)),
            leg_step(
                old(self)@,
                final(self)@,
                old(ctx).commands.asked(),
                final(ctx).commands.asked(),
                moment_of(*old(ctx)),
                leg_index as int,
                why.call(),
            ),
    {
        let ghost v = self@;
        let ghost l = self.legs@[leg_index as int];
        let ghost leg = v.legs[leg_index as int];
        let ghost out = ctx.commands.asked();
        let ghost at = moment_of(*ctx);
        assert(leg.active == l.active && leg.started == l.started && leg.strategy == l.strategy);
        let starts = match why {
            Why::Start => true,
            _ => false,
        };
        if !self.legs[leg_index].active || self.legs[leg_index].started == starts {
            return;
        }
        let mut child = ctx.child();
        let ghost seen = child;
        match why {
            Why::Start => self.legs[leg_index].strategy.on_start(&mut child),
            Why::Event(event) => self.legs[leg_index].strategy.on_event(&mut child, event),
            Why::Timer(id) => self.legs[leg_index].strategy.on_timer(&mut child, *id),
        }
        let ghost left = child;
        let ghost strategy = self.legs@[leg_index as int].strategy;
        let captured = child.take_commands();
        let ghost reply = captured.asked();
        self.legs[leg_index].started = true;
        let ghost mid = self@;
        proof {
            assert(mid.legs =~= v.with_child(leg_index as int, strategy).legs);
            assert(child_calls(leg.strategy, strategy, why.call(), at, reply, seen, left));
        }
        self.child_replied(ctx, leg_index, captured);
        proof {
            let replies = choose|replies: Seq<Reply<S>>| #[trigger]
                child_acts(
                    mid,
                    self@,
                    out,
                    ctx.commands.asked(),
                    at,
                    leg_index as int,
                    reply,
                    replies,
                );
            assert(leg_ran(
                v,
                self@,
                out,
                ctx.commands.asked(),
                at,
                leg_index as int,
                why.call(),
                strategy,
                reply,
                replies,
            ));
        }
    }

    /// Calls children one after the other, until the group is stopped.
    fn run_children(&mut self, ctx: &mut EngineContext<'_>, indexes: &Vec<usize>, why: &Why<'_>)
        requires
            forall|j: int|
                0 <= j < indexes@.len() ==> (#[trigger] indexes@[j]) < old(self)@.legs.len(),
        ensures
            final(ctx).differs_in_commands(*old(ctx)),
            leg_chain(
                old(self)@,
                final(self)@,
                old(ctx).commands.asked(),
                final(ctx).commands.asked(),
                moment_of(*old(ctx)),
                indexes@,
                why.call(),
            ),
            moved(
                old(self)@,
                final(self)@,
                old(ctx).commands.asked(),
                final(ctx).commands.asked(),
            ),
            steady(old(self)@, final(self)@),
    {
        let ghost v = self@;
        let ghost out = ctx.commands.asked();
        let ghost at = moment_of(*ctx);
        let ghost mut groups: Seq<GroupView<S>> = seq![v];
        let ghost mut outs: Seq<Asked> = seq![out];
        let mut k: usize = 0;
        while k < indexes.len()
            invariant
                k <= indexes@.len(),
                v == old(self)@,
                out == old(ctx).commands.asked(),
                at == moment_of(*old(ctx)),
                k > 0 ==> !self@.stopped,
                ctx.differs_in_commands(*old(ctx)),
                moved(v, self@, out, ctx.commands.asked()),
                steady(v, self@),
                self@.legs.len() == v.legs.len(),
                groups.len() == k + 1,
                outs.len() == k + 1,
                groups[0] == v,
                outs[0] == out,
                groups[k as int] == self@,
                outs[k as int] == ctx.commands.asked(),
                forall|j: int|
                    0 <= j < k ==> #[trigger] leg_link(groups, outs, at, indexes@, why.call(), j),
                forall|j: int| 0 <= j < indexes@.len() ==> (#[trigger] indexes@[j]) < v.legs.len(),
            decreases indexes@.len() - k,
        {
            let ghost w = self@;
            let ghost a = ctx.commands.asked();
            let ghost groups0 = groups;
            let ghost outs0 = outs;
            let i: usize = indexes[k];
            self.run_child(ctx, i, why);
            proof {
                let b = ctx.commands.asked();
                law_leg_step_is_a_step(w, self@, a, b, at, i as int, why.call());
                law_steps_compose(v, w, self@, out, a, b);
                groups = groups.push(self@);
                outs = outs.push(b);
                assert forall|j: int| 0 <= j < k + 1 implies #[trigger] leg_link(
                    groups,
                    outs,
                    at,
                    indexes@,
                    why.call(),
                    j,
                ) by {
                    if j < k {
                        assert(leg_link(groups0, outs0, at, indexes@, why.call(), j));
                        assert(groups[j] == groups0[j] && groups[j + 1] == groups0[j + 1]);
                        assert(outs[j] == outs0[j] && outs[j + 1] == outs0[j + 1]);
                    }
                }
            }
            if self.stopped {
                assert(leg_run(
                    v,
                    self@,
                    out,
                    ctx.commands.asked(),
                    at,
                    indexes@,
                    why.call(),
                    groups,
                    outs,
                ));
                return;
            }
            k = k + 1;
        }
        assert(leg_run(
            v,
            self@,
            out,
            ctx.commands.asked(),
            at,
            indexes@,
            why.call(),
            groups,
            outs,
        ));
    }

    /// The places of all children.
    fn all_leg_indexes(&self) -> (r: Vec<usize>)
        ensures
            r@ == all_places(self@.legs.len()),
            forall|k: int| 0 <= k < r@.len() ==> (#[trigger] r@[k]) < self@.legs.len(),
    {
        let mut out: Vec<usize> = Vec::new();
        let n: usize = self.legs.len();
        let mut i: usize = 0;
        while i < n
            invariant
                i <= n,
                n == self.legs@.len(),
                out@.len() == i,
                forall|k: int| 0 <= k < i ==> (#[trigger] out@[k]) == k,
            decreases n - i,
        {
            out.push(i);
            i = i + 1;
        }
        assert(out@ =~= all_places(self@.legs.len()));
        out
    }
}

/// Why a child is called, other than to be stopped.
enum Why<'a> {
    Start,
    Event(&'a Event),
    Timer(TimerId),
}

impl Why<'_> {
    /// The call.
    spec fn call(&self) -> Call {
        match self {
            Why::Start => Call::Start,
            Why::Event(event) => Call::Event(**event),
            Why::Timer(id) => Call::Timer(*id),
        }
    }
}

impl<S: Strategy> BotOrchestrator<S> {
    /// Starts the children, unless one is started or a condition for it does not hold. Ends
    /// early where a child stops the group.
    pub fn start_children_if_ready(&mut self, ctx: &mut EngineContext<'_>)
        ensures
            final(ctx).differs_in_commands(*old(ctx)),
            readied(
                old(self)@,
                final(self)@,
                old(ctx).commands.asked(),
                final(ctx).commands.asked(),
                moment_of(*old(ctx)),
            ),
            moved(
                old(self)@,
                final(self)@,
                old(ctx).commands.asked(),
                final(ctx).commands.asked(),
            ),
            final(self)@.control_timer_id == old(self)@.control_timer_id,
    {
        if self.children_started() || !self.start_conditions_passed(ctx) {
            return;
        }
        self.children_started_at_ms = Some(ctx.now_ms());
        assert(self@ == (GroupView {
            children_started_at_ms: Some(old(ctx).time()),
            ..old(self)@
        }));
        let indexes = self.all_leg_indexes();
        self.run_children(ctx, &indexes, &Why::Start);
    }

    /// Stops the group where a condition does not hold that must.
    pub fn evaluate_validation(&mut self, ctx: &mut EngineContext<'_>)
        ensures
            final(ctx).differs_in_commands(*old(ctx)),
            validated(
                old(self)@,
                final(self)@,
                old(ctx).commands.asked(),
                final(ctx).commands.asked(),
                moment_of(*old(ctx)),
            ),
            moved(
                old(self)@,
                final(self)@,
                old(ctx).commands.asked(),
                final(ctx).commands.asked(),
            ),
            steady(old(self)@, final(self)@),
    {
        let ghost v = self@;
        let ghost out = ctx.commands.asked();
        let ghost at = moment_of(*ctx);
        if let Some(reason) = self.invalid_reason(ctx) {
            self.stop_group(ctx, reason.as_str());
            proof {
                lemma_halts(v, self@, out, ctx.commands.asked(), at, reason@);
            }
        }
    }

    /// Stops the group where its risk asks for it.
    pub fn evaluate_risk_conditions(&mut self, ctx: &mut EngineContext<'_>)
        ensures
            final(ctx).differs_in_commands(*old(ctx)),
            risk_heeded(
                old(self)@,
                final(self)@,
                old(ctx).commands.asked(),
                final(ctx).commands.asked(),
                moment_of(*old(ctx)),
            ),
            moved(
                old(self)@,
                final(self)@,
                old(ctx).commands.asked(),
                final(ctx).commands.asked(),
            ),
            steady(old(self)@, final(self)@),
    {
        if !self.children_started() {
            return;
        }
        let ghost v = self@;
        let ghost out = ctx.commands.asked();
        let ghost at = moment_of(*ctx);
        if let Some(reason) = self.risk_reason(ctx) {
            self.stop_group(ctx, reason.as_str());
            proof {
                lemma_halts(v, self@, out, ctx.commands.asked(), at, reason@);
            }
        }
    }

    /// Does what comes before every event and timer, and says whether the group goes on: it is
    /// not stopped, its conditions hold that must, and the children are started where they can
    /// be.
    fn prepare(&mut self, ctx: &mut EngineContext<'_>) -> (r: bool)
        ensures
            final(ctx).differs_in_commands(*old(ctx)),
            r == !final(self)@.stopped,
            prepared(
                old(self)@,
                final(self)@,
                old(ctx).commands.asked(),
                final(ctx).commands.asked(),
                moment_of(*old(ctx)),
            ),
            moved(
                old(self)@,
                final(self)@,
                old(ctx).commands.asked(),
                final(ctx).commands.asked(),
            ),
            final(self)@.control_timer_id == old(self)@.control_timer_id,
    {
        if self.stopped {
            return false;
        }
        let ghost v = self@;
        let ghost a = ctx.commands.asked();
        let ghost at = moment_of(*ctx);
        self.evaluate_validation(ctx);
        let ghost w = self@;
        let ghost b = ctx.commands.asked();
        assert(validated(v, w, a, b, at));
        if self.stopped {
            return false;
        }
        self.start_children_if_ready(ctx);
        proof {
            law_steps_compose(v, w, self@, a, b, ctx.commands.asked());
        }
        !self.stopped
    }

    /// Calls the children and heeds the risk, where the group goes on.
    fn work(&mut self, ctx: &mut EngineContext<'_>, indexes: &Vec<usize>, why: &Why<'_>)
        requires
            !old(self)@.stopped,
            forall|j: int|
                0 <= j < indexes@.len() ==> (#[trigger] indexes@[j]) < old(self)@.legs.len(),
        ensures
            final(ctx).differs_in_commands(*old(ctx)),
            worked(
                old(self)@,
                final(self)@,
                old(ctx).commands.asked(),
                final(ctx).commands.asked(),
                moment_of(*old(ctx)),
                indexes@,
                why.call(),
            ),
            moved(
                old(self)@,
                final(self)@,
                old(ctx).commands.asked(),
                final(ctx).commands.asked(),
            ),
    {
        let ghost v = self@;
        let ghost a = ctx.commands.asked();
        let ghost at = moment_of(*ctx);
        self.run_children(ctx, indexes, why);
        let ghost w = self@;
        let ghost b = ctx.commands.asked();
        assert(leg_chain(v, w, a, b, at, indexes@, why.call()));
        if self.stopped {
            return;
        }
        self.evaluate_risk_conditions(ctx);
        proof {
            law_steps_compose(v, w, self@, a, b, ctx.commands.asked());
        }
    }
}

proof fn lemma_halts<S: Strategy>(
    before: GroupView<S>,
    after: GroupView<S>,
    out: Asked,
    more: Asked,
    at: Moment,
    reason: Seq<char>,
)
    requires
        halts(before, after, out, more, at, reason),
    ensures
        moved(before, after, out, more),
        steady(before, after),
{
    if !before.stopped {
        let replies = choose|replies: Seq<Reply<S>>| #[trigger]
            group_stops(before, after, out, more, at, reason, replies);
        law_stopping(before, after, out, more, at, reason, replies);
    }
}

impl<S: Strategy> Strategy for BotOrchestrator<S> {
    open spec fn name(&self) -> StrategyId {
        self@.id
    }

    open spec fn mechanism(&self) -> SyncMechanism {
        if self@.legs.len() == 0 {
            SyncMechanism::Poll
        } else {
            self@.legs[0].strategy.mechanism()
        }
    }

    open spec fn acts(
        &self,
        call: Call,
        seen: EngineContext<'_>,
        after: &Self,
        left: EngineContext<'_>,
    ) -> bool {
        group_acts(self@, call, seen, after@, left)
    }

    fn id(&self) -> (r: &StrategyId)
        ensures
            *r == self@.id,
    {
        &self.id
    }

    /// What the first strategy of the group answers, and polling where there is none.
    fn sync_mechanism(&self) -> (r: SyncMechanism) {
        if self.legs.len() > 0 {
            assert(self@.legs[0].strategy == self.legs@[0].strategy);
            self.legs[0].strategy.sync_mechanism()
        } else {
            SyncMechanism::Poll
        }
    }

    /// Sets a timer of one second, then stops the group where a condition does not hold that
    /// must, and starts the children where they can be.
    fn on_start(&mut self, ctx: &mut EngineContext<'_>)
        ensures
            final(self)@.same_group(old(self)@),
            old(self)@.sound() ==> final(self)@.sound(),
            final(ctx).commands.asked().extends(old(ctx).commands.asked()),
    {
        let ghost v0 = self@;
        let ghost seen = *ctx;
        let id = ctx.set_interval(1000);
        let ghost set = *ctx;
        self.control_timer_id = Some(id);
        let ghost v = self@;
        let ghost a = ctx.commands.asked();
        self.evaluate_validation(ctx);
        let ghost w = self@;
        let ghost b = ctx.commands.asked();
        self.start_children_if_ready(ctx);
        proof {
            law_steps_compose(v, w, self@, a, b, ctx.commands.asked());
            assert(v == GroupView { control_timer_id: Some(id), ..v0 });
            assert(group_begins(v0, self@, seen, *ctx, set, id, w, b));
        }
    }

    /// Hands an event to the children that it concerns, then looks at the risk. Nothing happens
    /// once the group is stopped.
    fn on_event(&mut self, ctx: &mut EngineContext<'_>, event: &Event)
        ensures
            moved(
                old(self)@,
                final(self)@,
                old(ctx).commands.asked(),
                final(ctx).commands.asked(),
            ),
    {
        let ghost v = self@;
        let ghost a = ctx.commands.asked();
        let ghost at = moment_of(*ctx);
        let goes_on = self.prepare(ctx);
        let ghost w = self@;
        let ghost b = ctx.commands.asked();
        assert(prepared(v, w, a, b, at));
        if goes_on {
            let indexes = self.routed_leg_indexes(event);
            self.work(ctx, &indexes, &Why::Event(event));
            proof {
                law_steps_compose(v, w, self@, a, b, ctx.commands.asked());
            }
        }
    }

    /// Looks at the risk when the timer of the group fires, and hands any other timer to the
    /// children first. Nothing happens once the group is stopped.
    fn on_timer(&mut self, ctx: &mut EngineContext<'_>, timer_id: TimerId)
        ensures
            moved(
                old(self)@,
                final(self)@,
                old(ctx).commands.asked(),
                final(ctx).commands.asked(),
            ),
    {
        let is_control_timer = match self.control_timer_id {
            Some(t) => t == timer_id,
            None => false,
        };
        let ghost v = self@;
        let ghost a = ctx.commands.asked();
        let ghost at = moment_of(*ctx);
        let goes_on = self.prepare(ctx);
        let ghost w = self@;
        let ghost b = ctx.commands.asked();
        assert(prepared(v, w, a, b, at));
        if goes_on {
            let indexes = if is_control_timer {
                Vec::new()
            } else {
                self.all_leg_indexes()
            };
            self.work(ctx, &indexes, &Why::Timer(timer_id));
            proof {
                law_steps_compose(v, w, self@, a, b, ctx.commands.asked());
            }
        }
    }

    /// Tells every child to stop, unless the group is stopped. No stop is asked for.
    fn on_stop(&mut self, ctx: &mut EngineContext<'_>) {
        if self.stopped {
            return;
        }
        self.stopped = true;
        self.stop_reason = Some("parent stop requested".to_owned());
        self.sweep(ctx);
    }
}

proof fn lemma_swept_agrees<S>(
    legs: Seq<LegView<S>>,
    n: nat,
    out: Asked,
    a: Seq<Reply<S>>,
    b: Seq<Reply<S>>,
)
    requires
        a.len() == n,
        b.len() == n + 1,
        b.drop_last() == a,
    ensures
        swept(legs, n, out, a) == swept(legs, n, out, b),
{
    lemma_swept_prefix(legs, n, out, a, b, n);
}

proof fn lemma_swept_prefix<S>(
    legs: Seq<LegView<S>>,
    n: nat,
    out: Asked,
    a: Seq<Reply<S>>,
    b: Seq<Reply<S>>,
    m: nat,
)
    requires
        n <= m,
        a.len() == m,
        b.len() == m + 1,
        b.drop_last() == a,
    ensures
        swept(legs, n, out, a) == swept(legs, n, out, b),
    decreases n,
{
    if n > 0 {
        lemma_swept_prefix(legs, (n - 1) as nat, out, a, b, m);
        assert(b.drop_last()[n - 1] == b[n - 1]);
    }
}

/// Children that are called one after the other make such a step.
proof fn lemma_run<S: Strategy>(
    before: GroupView<S>,
    after: GroupView<S>,
    out: Asked,
    more: Asked,
    at: Moment,
    indexes: Seq<usize>,
    call: Call,
    groups: Seq<GroupView<S>>,
    outs: Seq<Asked>,
    k: int,
)
    requires
        leg_run(before, after, out, more, at, indexes, call, groups, outs),
        forall|j: int| 0 <= j < indexes.len() ==> (#[trigger] indexes[j]) < before.legs.len(),
        0 <= k < groups.len(),
    ensures
        moved(before, groups[k], out, outs[k]),
        steady(before, groups[k]),
    decreases k,
{
    if k > 0 {
        lemma_run(before, after, out, more, at, indexes, call, groups, outs, k - 1);
        assert(leg_link(groups, outs, at, indexes, call, k - 1));
        assert(indexes[k - 1] < before.legs.len());
        law_leg_step_is_a_step(
            groups[k - 1],
            groups[k],
            outs[k - 1],
            outs[k],
            at,
            indexes[k - 1] as int,
            call,
        );
        law_steps_compose(before, groups[k - 1], groups[k], out, outs[k - 1], outs[k]);
    }
}

/// A group stops for the first condition that does not hold and must, when it starts and with
/// every event and timer; and it keeps that reason.
pub proof fn law_invalid_group_stops<S: Strategy>(
    before: GroupView<S>,
    call: Call,
    seen: EngineContext<'_>,
    after: GroupView<S>,
    left: EngineContext<'_>,
)
    requires
        group_acts(before, call, seen, after, left),
        !before.stopped,
        before.legs.len() <= usize::MAX,
        !(call is Stop),
        before.invalid_reason(seen.books()@, seen.time()) is Some,
    ensures
        after.stopped,
        after.stop_reason == before.invalid_reason(seen.books()@, seen.time()),
{
    let at = moment_of(seen);
    let out = seen.commands.asked();
    let more = left.commands.asked();
    let reason = before.invalid_reason(at.books@, at.now)->0;
    match call {
        Call::Start => {
            let (set, id, mid, asked) = choose|
                set: EngineContext<'_>,
                id: TimerId,
                mid: GroupView<S>,
                asked: Asked,
            | #[trigger]
                group_begins(before, after, seen, left, set, id, mid, asked);
            let v = GroupView { control_timer_id: Some(id), ..before };
            lemma_first_with(before, v, at.books@, at.now, 0);
            lemma_halts(v, mid, set.commands.asked(), asked, at, reason);
            assert(mid.legs.len() == before.legs.len());
            if !mid.any_started() && mid.may_start(at.books@, at.now) {
                let w = GroupView { children_started_at_ms: Some(at.now), ..mid };
                let places = all_places(mid.legs.len());
                let (groups, outs) = choose|groups: Seq<GroupView<S>>, outs: Seq<Asked>| #[trigger]
                    leg_run(w, after, asked, more, at, places, Call::Start, groups, outs);
                lemma_run(
                    w,
                    after,
                    asked,
                    more,
                    at,
                    places,
                    Call::Start,
                    groups,
                    outs,
                    groups.len() - 1,
                );
            }
        },
        _ => {},
    }
}

/// A group that goes on after an event or a timer, with children that run, has no reason to
/// stop for its risk.
pub proof fn law_risk_is_heeded<S: Strategy>(
    before: GroupView<S>,
    call: Call,
    seen: EngineContext<'_>,
    after: GroupView<S>,
    left: EngineContext<'_>,
)
    requires
        group_acts(before, call, seen, after, left),
        call is Event || call is Timer,
        !after.stopped,
        after.any_started(),
    ensures
        after.risk_reason(seen.books()@, seen.time()) is None,
{
}

/// What a condition of validation says does not hang on the timer of the group.
proof fn lemma_first_with<S: Strategy>(
    a: GroupView<S>,
    b: GroupView<S>,
    books: StateView,
    now: i64,
    i: int,
)
    requires
        b == (GroupView { control_timer_id: b.control_timer_id, ..a }),
        0 <= i,
    ensures
        a.first_with(books, now, a.conditions.validation_conditions@, false, i) == b.first_with(
            books,
            now,
            b.conditions.validation_conditions@,
            false,
            i,
        ),
    decreases a.conditions.validation_conditions@.len() - i,
{
    let cs = a.conditions.validation_conditions@;
    if i < cs.len() {
        lemma_pnl_same(a, b, books, a.legs.len());
        assert(a.holds(books, now, cs[i]) == b.holds(books, now, cs[i]));
        lemma_first_with(a, b, books, now, i + 1);
    }
}

proof fn lemma_pnl_same<S: Strategy>(a: GroupView<S>, b: GroupView<S>, books: StateView, n: nat)
    requires
        a.legs == b.legs,
    ensures
        a.pnl(books, n) == b.pnl(books, n),
    decreases n,
{
    if n > 0 {
        lemma_pnl_same(a, b, books, (n - 1) as nat);
    }
}

/// A stopped group calls no child, whatever happens: it stays as it is and asks for nothing.
/// Its start still sets the timer of the group.
pub proof fn law_stopped_group_is_quiet<S: Strategy>(
    before: GroupView<S>,
    call: Call,
    seen: EngineContext<'_>,
    after: GroupView<S>,
    left: EngineContext<'_>,
)
    requires
        group_acts(before, call, seen, after, left),
        before.stopped,
        !(call is Start),
    ensures
        after == before,
        left.commands.asked() == seen.commands.asked(),
{
}

/// The strategies among the first `n` that an event goes to.
pub open spec fn routed<S>(legs: Seq<LegView<S>>, event: Event, n: nat) -> Seq<usize>
    decreases n,
{
    if n == 0 {
        Seq::empty()
    } else {
        let rest = routed(legs, event, (n - 1) as nat);
        let leg = legs[n - 1];
        let mine = match event.about() {
            Some(i) => leg.instrument@ == i@,
            None => true,
        };
        if leg.active && leg.started && mine {
            rest.push((n - 1) as usize)
        } else {
            rest
        }
    }
}

} // verus!
