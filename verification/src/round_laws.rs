//! What a round does, and what becomes of what strategies ask for.
use vstd::prelude::*;
use crate::context;
use crate::engine;
use crate::hl_client;
use crate::json;
use crate::mock_exchange;
use crate::orchestrator;
use crate::phases;
use crate::runner;
use crate::text;
use crate::account_syncer;
use crate::performance;
use crate::report_laws;
use crate::startup;
use crate::trade_syncer;
use crate::wire;
use crate::account_syncer::ClearingHouseStateRequest;
use crate::commands::{CancelAll, CancelOrder, Command, PlaceOrder, StopStrategy};
use crate::context::{Asked, Captured, PendingTimer};
use crate::exchange::{ExchangeError, Fill, OrderInput, PlaceOrderResult};
use crate::hl_client::Reply;
use crate::mock_exchange::{MockKnobs, MockView, Outage};
use crate::orchestrator::LegView;
use crate::phases::{Facts, Phase};
use crate::decimal::Decimal;
use crate::events::{Event, OrderFilledEvent};
use crate::json::JsonView;
use crate::trade_syncer::{SyncRequest, SyncerView};
use crate::types::{AccountState, OrderStatus, Quote, StrategyId};

verus! {

/// A round fires timers before it polls, polls every exchange in its turn, and then asks every one
/// for quotes, where there is anything to quote.
pub proof fn law_round_polls_everything(facts: Facts, k: usize)
    ensures
        phases::after(Phase::Timers, facts) == (if facts.exchanges > 0 {
            Phase::Poll(0)
        } else {
            Phase::Exhausted
        }),
        k + 1 < facts.exchanges ==> phases::after(Phase::Poll(k), facts) == Phase::Poll((k + 1) as usize),
        k + 1 < facts.exchanges ==> phases::after(Phase::Quotes(k), facts) == Phase::Quotes((k + 1) as usize),
        k + 1 == facts.exchanges && facts.has_instruments ==> phases::after(Phase::Poll(k), facts)
            == Phase::Quotes(0),
        k + 1 == facts.exchanges && !facts.has_instruments ==> phases::after(Phase::Poll(k), facts)
            == Phase::Exhausted,
        k + 1 == facts.exchanges ==> phases::after(Phase::Quotes(k), facts) == Phase::Exhausted,
{
}

/// A run ends where it is told to or a backtest is over, and nowhere else in a round; then it stops
/// the strategies, cleans up, reports and shows results, in this order.
pub proof fn law_run_ends_in_order(facts: Facts, phase: Phase)
    ensures
        phases::after(Phase::Check, facts) is Stop <==> facts.should_shutdown || facts.signal,
        phases::after(Phase::Exhausted, facts) is Stop <==> facts.backtest_over,
        phases::after(phase, facts) is Stop ==> phase is Check || phase is Exhausted,
        phases::after(Phase::Stop, facts) is Cleanup,
        phases::after(Phase::Cleanup, facts) is FinalSync,
        phases::after(Phase::FinalSync, facts) is Results,
        phases::after(Phase::Results, facts) is Done,
{
}

/// A run begins with every exchange in its turn and starts only after the last one was set up; one
/// that cannot be set up ends the run.
pub proof fn law_run_begins_with_its_exchanges(facts: Facts, k: usize)
    ensures
        facts.exchanges > 0 ==> phases::first(facts.exchanges) == Phase::Init(0),
        !facts.init_ok ==> phases::after(Phase::Init(k), facts) is Abort,
        facts.init_ok && k + 1 < facts.exchanges ==> phases::after(Phase::Init(k), facts) == Phase::Init(
            (k + 1) as usize,
        ),
        facts.init_ok && k + 1 >= facts.exchanges ==> phases::after(Phase::Init(k), facts) is Start,
        phases::after(Phase::Abort, facts) is Done,
{
}

/// All that a strategy asks for is carried out, and nothing else: single orders, batches, cancels,
/// and cancels of all, each in the order in which they were asked for.
pub proof fn law_all_that_is_asked_for_is_done(c: Captured)
    ensures
        ({
            let s = engine::commands_of(c);
            let a = c.place_orders@.len() as int;
            let b = a + c.batch_orders@.len();
            let d = b + c.cancel_orders@.len();
            &&& s.len() == d + c.cancel_alls@.len()
            &&& forall|i: int|
                #![trigger c.place_orders@[i]]
                0 <= i < a ==> s[i] == Command::PlaceOrder(c.place_orders@[i])
            &&& forall|i: int|
                #![trigger c.batch_orders@[i]]
                0 <= i < c.batch_orders@.len() ==> s[a + i] == Command::PlaceOrders(c.batch_orders@[i])
            &&& forall|i: int|
                #![trigger c.cancel_orders@[i]]
                0 <= i < c.cancel_orders@.len() ==> s[b + i] == Command::CancelOrder(c.cancel_orders@[i])
            &&& forall|i: int|
                #![trigger c.cancel_alls@[i]]
                0 <= i < c.cancel_alls@.len() ==> s[d + i] == Command::CancelAll(c.cancel_alls@[i])
        }),
{
}

/// A strategy stops itself and no other: just the stops count that name it.
pub proof fn law_strategies_stop_themselves(c: Seq<StopStrategy>, id: StrategyId)
    ensures
        forall|i: int|
            0 <= i < c.len() && (#[trigger] c[i]).strategy_id@ == id@ ==> engine::own_stops(c, id).contains(
                c[i],
            ),
        forall|j: int|
            0 <= j < engine::own_stops(c, id).len() ==> (#[trigger] engine::own_stops(c, id)[j]).strategy_id@
                == id@ && c.contains(engine::own_stops(c, id)[j]),
    decreases c.len(),
{
    reveal(Seq::filter);
    if c.len() > 0 {
        let t = c.drop_last();
        law_strategies_stop_themselves(t, id);
        let (a, b) = (engine::own_stops(t, id), engine::own_stops(c, id));
        if c.last().strategy_id@ == id@ {
            assert(b == a.push(c.last()));
            assert(b[a.len() as int] == c.last());
        } else {
            assert(b == a);
        }
        assert forall|i: int| 0 <= i < c.len() && (#[trigger] c[i]).strategy_id@ == id@ implies b.contains(
            c[i],
        ) by {
            if i < t.len() {
                assert(t[i] == c[i]);
                let j = choose|j: int| 0 <= j < a.len() && a[j] == c[i];
                assert(b[j] == c[i]);
            }
        }
        assert forall|j: int| 0 <= j < b.len() implies (#[trigger] b[j]).strategy_id@ == id@ && c.contains(
            b[j],
        ) by {
            if j < a.len() {
                assert(b[j] == a[j]);
                let i = choose|i: int| 0 <= i < t.len() && t[i] == a[j];
                assert(c[i] == b[j]);
            } else {
                assert(c[c.len() - 1] == b[j]);
            }
        }
    }
}

/// What is asked for is all that was captured, of every kind.
pub proof fn law_captured_commands_are_asked_for(c: Captured)
    ensures
        c.asked().places == c.place_orders@,
        c.asked().batches == c.batch_orders@,
        c.asked().cancels == c.cancel_orders@,
        c.asked().alls == c.cancel_alls@,
        c.asked().stops == c.stop_requests@,
{
}

/// The commands of a child are handed on behind those of its group: all of its orders and cancels,
/// its batches as far as they hold an order, and none of its stops, which stop the child alone.
pub proof fn law_commands_of_a_child_are_handed_on(a: Asked, more: Asked)
    ensures
        a.with(more).places == a.places + more.places,
        a.with(more).cancels == a.cancels + more.cancels,
        a.with(more).alls == a.alls + more.alls,
        a.with(more).stops == a.stops,
        a.batches.is_prefix_of(a.with(more).batches),
        forall|i: int|
            0 <= i < more.batches.len() && (#[trigger] more.batches[i])@.len() > 0 ==> a.with(
                more,
            ).batches.contains(more.batches[i]),
        forall|j: int|
            a.batches.len() <= j < a.with(more).batches.len() ==> (#[trigger] a.with(more).batches[j])@.len()
                > 0,
{
    lemma_batches(more.batches);
    let f = context::filled_batches(more.batches);
    let w = a.with(more).batches;
    assert(w == a.batches + f);
    assert(a.batches =~= w.subrange(0, a.batches.len() as int));
    assert forall|i: int| 0 <= i < more.batches.len() && (#[trigger] more.batches[i])@.len() > 0 implies w.contains(
        more.batches[i],
    ) by {
        let j = choose|j: int| 0 <= j < f.len() && f[j] == more.batches[i];
        assert(w[a.batches.len() + j] == more.batches[i]);
    }
    assert forall|j: int| a.batches.len() <= j < w.len() implies (#[trigger] w[j])@.len() > 0 by {
        assert(w[j] == f[j - a.batches.len()]);
    }
}

proof fn lemma_batches(s: Seq<Vec<PlaceOrder>>)
    ensures
        forall|i: int|
            0 <= i < s.len() && (#[trigger] s[i])@.len() > 0 ==> context::filled_batches(s).contains(s[i]),
        forall|j: int|
            0 <= j < context::filled_batches(s).len() ==> (#[trigger] context::filled_batches(s)[j])@.len()
                > 0,
    decreases s.len(),
{
    if s.len() > 0 {
        let t = s.drop_last();
        lemma_batches(t);
        let (a, b) = (context::filled_batches(t), context::filled_batches(s));
        if s.last()@.len() > 0 {
            assert(b[a.len() as int] == s.last());
        }
        assert forall|i: int| 0 <= i < s.len() && (#[trigger] s[i])@.len() > 0 implies b.contains(s[i]) by {
            if i < t.len() {
                assert(t[i] == s[i]);
                let j = choose|j: int| 0 <= j < a.len() && a[j] == s[i];
                assert(b[j] == s[i]);
            }
        }
        assert forall|j: int| 0 <= j < b.len() implies (#[trigger] b[j])@.len() > 0 by {
            if j < a.len() {
                assert(b[j] == a[j]);
            }
        }
    }
}

/// A timer is due as long after it was set as was asked for, and fires again just where it was set
/// to.
pub proof fn law_timer_waits_as_long_as_asked(t: PendingTimer, owner: usize, now: i64)
    requires
        now + t.delay_ms <= i64::MAX,
    ensures
        ({
            let w = engine::waiting(t, owner, now);
            &&& w.due_ms == now + t.delay_ms
            &&& w.id == t.id
            &&& w.owner == owner
            &&& w.interval_ms is Some <==> t.repeating
            &&& w.interval_ms matches Some(i) ==> i == t.delay_ms
        }),
{
}

/// An order is over once it is filled, canceled or rejected, and not before.
pub proof fn law_orders_are_over_at_last(s: OrderStatus)
    ensures
        s.terminal() <==> !(s is New || s is Accepted || s is PartiallyFilled),
{
}

/// After a group was swept none of its children is active, and one that was started is started no
/// more; children that were not active stay as they were.
pub proof fn law_swept_children_are_quiet<S>(
    legs: Seq<LegView<S>>,
    n: nat,
    out: Asked,
    replies: Seq<orchestrator::Reply<S>>,
)
    requires
        n <= legs.len(),
    ensures
        ({
            let l = orchestrator::swept(legs, n, out, replies).0;
            &&& l.len() == legs.len()
            &&& forall|i: int| 0 <= i < n ==> !(#[trigger] l[i]).active
            &&& forall|i: int| 0 <= i < n && legs[i].active ==> !(#[trigger] l[i]).started
            &&& forall|i: int| 0 <= i < n && !legs[i].active ==> #[trigger] l[i] == legs[i]
            &&& forall|i: int| n <= i < legs.len() ==> #[trigger] l[i] == legs[i]
            &&& forall|i: int|
                0 <= i < n ==> (#[trigger] l[i]).instrument == legs[i].instrument && l[i].id == legs[i].id
        }),
    decreases n,
{
    if n > 0 {
        law_swept_children_are_quiet(legs, (n - 1) as nat, out, replies);
    }
}

/// The commands of the children that were running are asked for when they are swept, and those of
/// no other.
pub proof fn law_swept_children_are_heard<S>(
    legs: Seq<LegView<S>>,
    n: nat,
    out: Asked,
    replies: Seq<orchestrator::Reply<S>>,
)
    requires
        0 < n <= legs.len(),
    ensures
        ({
            let before = orchestrator::swept(legs, (n - 1) as nat, out, replies).1;
            let after = orchestrator::swept(legs, n, out, replies).1;
            let runs = legs[n - 1].active && legs[n - 1].started;
            &&& runs ==> after.cancels == before.cancels + replies[n - 1].asked.cancels && after.places
                == before.places + replies[n - 1].asked.places && after.alls == before.alls
                + replies[n - 1].asked.alls
            &&& !runs ==> after == before
        }),
{
    law_swept_children_are_quiet(legs, (n - 1) as nat, out, replies);
}

proof fn lemma_small_text(s: Seq<char>)
    requires
        forall|i: int| 0 <= i < s.len() ==> !('A' <= #[trigger] s[i] && s[i] <= 'Z'),
    ensures
        text::ascii_lower(s) == s,
{
    assert(text::ascii_lower(s) =~= s);
}

/// A reason that says that too many requests were sent is read as the limit, whatever stands
/// around it.
pub proof fn law_limit_is_recognised(before: Seq<char>, behind: Seq<char>)
    ensures
        hl_client::is_limit_text(before + "too many cumulative requests"@ + behind),
        hl_client::is_limit_text(before + "cumulative requests sent"@ + behind),
        forall|s: Seq<char>| #[trigger]
            hl_client::is_limit_text(s) ==> text::has_text(
                text::ascii_lower(s),
                "too many cumulative requests"@,
            ) || text::has_text(text::ascii_lower(s), "cumulative requests sent"@),
{
    reveal_strlit("too many cumulative requests");
    reveal_strlit("cumulative requests sent");
    lemma_found(before, "too many cumulative requests"@, behind);
    lemma_found(before, "cumulative requests sent"@, behind);
}

proof fn lemma_found(before: Seq<char>, phrase: Seq<char>, behind: Seq<char>)
    requires
        forall|i: int| 0 <= i < phrase.len() ==> !('A' <= #[trigger] phrase[i] && phrase[i] <= 'Z'),
    ensures
        text::has_text(text::ascii_lower(before + phrase + behind), phrase),
{
    lemma_small_text(phrase);
    let s = before + phrase + behind;
    let low = text::ascii_lower(s);
    let at = before.len() as int;
    assert(low.subrange(at, at + phrase.len()) =~= phrase) by {
        assert forall|i: int| 0 <= i < phrase.len() implies low[at + i] == #[trigger] phrase[i] by {
            assert(s[at + i] == phrase[i]);
        }
    }
    assert(text::occurs_at(low, phrase, at));
}

/// Why an action was refused is what the reply says as its error; else what its response says.
pub proof fn law_refusal_is_what_the_reply_says(reply: Reply, why: Seq<char>)
    ensures
        json::text_of(reply.value@.member("error"@)) == Some(why) ==> hl_client::refusal(reply) == why,
        json::text_of(reply.value@.member("error"@)) is None && json::text_of(
            reply.value@.member("response"@),
        ) == Some(why) ==> hl_client::refusal(reply) == why,
        json::text_of(reply.value@.member("error"@)) is None && reply.value@.member("response"@) is None
            ==> hl_client::refusal(reply) == reply.text@,
        hl_client::is_ok(reply.value@) <==> json::text_of(reply.value@.member("status"@)) == Some("ok"@),
{
}

/// A reply answers as many orders of a batch as it has answers and the batch has orders.
pub proof fn law_replies_answer_in_turn(orders: Seq<PlaceOrder>, results: Seq<PlaceOrderResult>)
    ensures
        runner::answered(orders, results) <= orders.len(),
        runner::answered(orders, results) <= results.len(),
        runner::answered(orders, results) == orders.len() || runner::answered(orders, results)
            == results.len(),
{
}

/// A mock exchange is out of order just where it is told to be, and in the way that it is told:
/// halted before silent, and silent before busy.
pub proof fn law_mock_is_out_of_order_as_told(k: MockKnobs, e: ExchangeError)
    ensures
        k.outage() is None <==> !(k.exchange_health is Halted) && !k.should_timeout && !k.should_rate_limit,
        k.exchange_health is Halted <==> k.outage() == Some(Outage::Down),
        !(k.exchange_health is Halted) && k.should_timeout <==> k.outage() == Some(Outage::Silent),
        mock_exchange::tells(e, Outage::Down) ==> e is Unavailable,
        mock_exchange::tells(e, Outage::Silent) ==> e is Network,
        mock_exchange::tells(e, Outage::Busy) ==> e is RateLimited,
{
}

/// A mock exchange fills at once what must be filled at once, and everything where it is told to;
/// never where it is told to refuse such orders.
pub proof fn law_mock_fills_at_once_as_told(v: MockView, order: OrderInput)
    ensures
        v.knobs.order_fail_mode is IocAlwaysReject ==> !v.at_once(order),
        v.knobs.order_fail_mode is AlwaysSucceed ==> (v.at_once(order) <==> order.tif is Ioc
            || v.knobs.fill_all_immediately),
        v.knobs.order_fail_mode is FailOnInsufficientBalance ==> (v.at_once(order) <==> order.tif is Ioc),
{
}

/// Fills that came in order stay as they came, also those of one time.
pub proof fn law_ordered_fills_stay(s: Seq<OrderFilledEvent>)
    requires
        performance::in_order(s),
    ensures
        performance::by_time(s) == s,
    decreases s.len(),
{
    if s.len() > 0 {
        let t = s.drop_last();
        assert(performance::in_order(t)) by {
            assert forall|i: int, j: int| 0 <= i < j < t.len() implies (#[trigger] t[i]).ts <= (
            #[trigger] t[j]).ts by {
                assert(s[i] == t[i] && s[j] == t[j]);
            }
        }
        law_ordered_fills_stay(t);
        if t.len() > 0 {
            assert(s[t.len() - 1].ts <= s[s.len() - 1].ts);
            assert(t.last() == s[t.len() - 1]);
        }
        assert(performance::by_time(s) =~= s);
    }
}

/// Quotes that come in order stay as they come, also those of one time.
pub proof fn law_ordered_quotes_stay(s: Seq<Quote>)
    requires
        startup::ordered(s),
    ensures
        startup::in_time(s) == s,
    decreases s.len(),
{
    if s.len() > 0 {
        let t = s.drop_last();
        assert(startup::ordered(t)) by {
            assert forall|i: int, j: int| 0 <= i < j < t.len() implies (#[trigger] t[i]).ts <= (
            #[trigger] t[j]).ts by {
                assert(s[i] == t[i] && s[j] == t[j]);
            }
        }
        law_ordered_quotes_stay(t);
        if t.len() > 0 {
            assert(s[t.len() - 1].ts <= s[s.len() - 1].ts);
            assert(t.last() == s[t.len() - 1]);
        }
        assert(startup::in_time(s) =~= s);
    }
}

/// A rejected order stops its strategy just where it tells of missing funds, of an order that is
/// too small or of a wallet that may not trade; no other event does.
pub proof fn law_only_shortages_stop(event: Event, id: StrategyId)
    ensures
        engine::safety_reasons(event, id).len() > 0 <==> (event matches Event::OrderRejected(r) && (
        text::has_text(r.reason@, "Insufficient margin"@) || text::has_text(
            r.reason@,
            "Insufficient spot balance"@,
        ) || text::has_text(r.reason@, "minimum value"@) || text::has_text(
            r.reason@,
            "User or API Wallet"@,
        ))),
{
}

/// A fill is reported just where it is not before the start, is of an instrument that reports are
/// set for, or of any where none is named, and was not reported before.
pub proof fn law_fills_of_the_run_are_reported(v: SyncerView, fill: Fill)
    ensures
        v.takes(fill) ==> fill.ts >= v.start && !v.synced.contains_key(fill.trade_id@),
        v.config.instruments@.len() == 0 && fill.ts >= v.start && !v.synced.contains_key(fill.trade_id@)
            ==> v.takes(fill),
        forall|i: int|
            0 <= i < v.config.instruments@.len() && (#[trigger] v.config.instruments@[i])@
                == fill.instrument@ && fill.ts >= v.start && !v.synced.contains_key(fill.trade_id@)
                ==> v.takes(fill),
        v.takes(fill) && v.config.instruments@.len() > 0 ==> exists|i: int|
            0 <= i < v.config.instruments@.len() && (#[trigger] v.config.instruments@[i])@
                == fill.instrument@,
{
}

/// A report has a trade for every fill that it tells, in their order, and tells the price of now
/// with a number that can be read back.
pub proof fn law_report_tells_its_fills(
    q: SyncRequest,
    fills: Seq<Fill>,
    price: Option<Decimal>,
    stop_bot: bool,
    reason: Seq<char>,
    now: i64,
    i: int,
)
    requires
        trade_syncer::tells_fills(q, fills, price, stop_bot, reason, now),
        0 <= i < fills.len(),
        price matches Some(p) ==> p@.valid(),
        fills[i].qty.0@.valid(),
    ensures
        q.trades@.len() == fills.len(),
        q.trades@[i].trade_id@ == fills[i].trade_id@,
        report_laws::denoted(q.trades@[i].qty@) == Some(fills[i].qty.0@),
        q.current_price is Some <==> price is Some,
        price matches Some(p) ==> (q.current_price matches Some(t) && report_laws::denoted(t@) == Some(p@)),
        q.stop_bot == stop_bot,
        now >= 0 ==> 1000 * q.ts <= now < 1000 * q.ts + 1000,
{
    assert(trade_syncer::reports(q.trades@[i], fills[i]));
    report_laws::law_number_reads_back(fills[i].qty.0@);
    if let Some(p) = price {
        report_laws::law_number_reads_back(p@);
    }
}

/// The report on an account tells what it is worth and what it holds of profit, with numbers that
/// can be read back, and has a row for every position.
pub proof fn law_report_tells_the_account(
    r: ClearingHouseStateRequest,
    account: AccountState,
    stop_bot: bool,
    reason: Seq<char>,
    now: i64,
)
    requires
        account_syncer::tells_account(r, account, stop_bot, reason, now),
        account.account_value matches Some(x) ==> x@.valid(),
        account.unrealized_pnl matches Some(x) ==> x@.valid(),
    ensures
        account.account_value matches Some(x) ==> report_laws::denoted(r.account_value@) == Some(x@),
        account.unrealized_pnl matches Some(x) ==> report_laws::denoted(r.unrealized_pnl@) == Some(x@),
        account.account_value is None ==> r.account_value@ == "0"@,
        r.positions@.len() == account.positions@.len(),
        r.stop_bot == stop_bot,
        now >= 0 ==> 1000 * r.ts <= now < 1000 * r.ts + 1000,
{
    if let Some(x) = account.account_value {
        report_laws::law_number_reads_back(x@);
    }
    if let Some(x) = account.unrealized_pnl {
        report_laws::law_number_reads_back(x@);
    }
}

/// A list is sent item by item, and what is no number, list or record is sent as it is.
pub proof fn law_items_are_sent_one_by_one(s: Seq<JsonView>, v: JsonView)
    ensures
        wire::items_sent(s).len() == s.len(),
        forall|i: int| 0 <= i < s.len() ==> #[trigger] wire::items_sent(s)[i] == wire::sent(s[i]),
        v is Text || v is Null || v is Bool ==> wire::sent(v) == v,
        wire::sent(JsonView::List(s)) == JsonView::List(wire::items_sent(s)),
    decreases s.len(),
{
    if s.len() > 0 {
        let t = s.drop_last();
        law_items_are_sent_one_by_one(t, v);
        assert forall|i: int| 0 <= i < s.len() implies #[trigger] wire::items_sent(s)[i] == wire::sent(s[i]) by {
            if i < t.len() {
                assert(t[i] == s[i]);
                assert(wire::items_sent(s)[i] == wire::items_sent(t)[i]);
            }
        }
    }
}

/// A record whose members have different names is sent member by member, each under its name.
pub proof fn law_members_are_sent_one_by_one(s: Seq<(Seq<char>, JsonView)>)
    requires
        forall|i: int, j: int| 0 <= i < j < s.len() ==> (#[trigger] s[i]).0 != (#[trigger] s[j]).0,
    ensures
        wire::sent(JsonView::Record(s)) == JsonView::Record(wire::members_sent(s)),
        wire::members_sent(s).len() == s.len(),
        forall|i: int|
            0 <= i < s.len() ==> (#[trigger] wire::members_sent(s)[i]).0 == s[i].0 && wire::members_sent(
                s,
            )[i].1 == wire::sent(s[i].1),
{
    lemma_members(s);
    let t = wire::members_sent(s);
    assert forall|i: int, j: int| 0 <= i < j < t.len() implies (#[trigger] t[i]).0 != (#[trigger] t[j]).0 by {
        assert(s[i].0 != s[j].0);
    }
    wire::law_distinct_members_stay(t);
}

proof fn lemma_members(s: Seq<(Seq<char>, JsonView)>)
    ensures
        wire::members_sent(s).len() == s.len(),
        forall|i: int|
            0 <= i < s.len() ==> (#[trigger] wire::members_sent(s)[i]).0 == s[i].0 && wire::members_sent(
                s,
            )[i].1 == wire::sent(s[i].1),
    decreases s.len(),
{
    if s.len() > 0 {
        let t = s.drop_last();
        lemma_members(t);
        assert forall|i: int| 0 <= i < s.len() implies (#[trigger] wire::members_sent(s)[i]).0 == s[i].0
            && wire::members_sent(s)[i].1 == wire::sent(s[i].1) by {
            if i < t.len() {
                assert(t[i] == s[i]);
                assert(wire::members_sent(s)[i] == wire::members_sent(t)[i]);
            }
        }
    }
}

} // verus!
