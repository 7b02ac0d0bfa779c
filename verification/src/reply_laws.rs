//! What comes of a reply: what is kept, dropped, put off and told.
use vstd::prelude::*;
use crate::book_laws;
use crate::context;
use crate::decimal;
use crate::fill_simulator;
use crate::hl_client;
use crate::loop_laws;
use crate::order_manager;
use crate::performance;
use crate::report_laws;
use crate::runner;
use crate::startup;
use crate::strmap;
use crate::text;
use crate::types;
use crate::commands::{CancelAll, CancelOrder, Command, PlaceOrder};
use crate::config::BotConfig;
use crate::context::Strategy;
use crate::decimal::Decimal;
use crate::events::Event;
use crate::exchange::{ExchangeError, Fill, PlaceOrderResult};
use crate::fill_simulator::{PendingOrder, SimulatorView};
use crate::hl_client::{HyperliquidClient, HyperliquidUserFill, Reply};
use crate::hl_types::HyperliquidConfig;
use crate::inventory::AssetAccount;
use crate::json::Json;
use crate::performance::{PerformanceBenchmark, PerformanceTracker};
use crate::margin::LedgerView;
use crate::runner::{BatchStart, PlaceStart, Prepared, RunnerView};
use crate::state::StateView;
use crate::trade_syncer::SyncRequest;
use crate::types::{AccountState, ClientOrderId, ExchangeHealth, ExchangeInstance, ExchangeOrderId, InstrumentId, MarketIndex, OrderSide, Quote, SyncMechanism};

verus! {

/// One in units.
pub open spec fn unit() -> int {
    decimal::pow10(28)
}

/// A reply is an error just where its code is none of success; that an exchange is down and that
/// it is asked too often are told apart from all others, and only these two pass.
pub proof fn law_error_by_code(r: Option<ExchangeError>, code: u16, status: Seq<char>, body: Seq<char>)
    requires
        hl_client::is_http_error(r, code, status, body),
    ensures
        r is None <==> 200 <= code < 300,
        r matches Some(e) ==> (e.transient() <==> code == 502 || code == 503 || code == 429),
        r matches Some(e) ==> (e is Unavailable <==> code == 502 || code == 503),
        r matches Some(e) ==> (e is RateLimited <==> code == 429),
{
}

/// An order is canceled by its number where it has one, also where its id could be used; by its id
/// where it is one of the exchange; and else not at all.
pub proof fn law_cancel_prefers_the_number(
    client: HyperliquidClient,
    r: Result<Json, ExchangeError>,
    market: MarketIndex,
    client_id: ClientOrderId,
    id: ExchangeOrderId,
    n: u64,
)
    requires
        id@ == text::digits(n as nat),
    ensures
        client.is_cancel(r, market, client_id, Some(&id)) ==> (r matches Ok(j) && j@ == client.cancels(
            market,
            seq![n],
        )),
        client.is_cancel(r, market, client_id, None) && text::begins_with(client_id@, "0x"@) ==> (r matches Ok(
            j,
        ) && j@ == client.cancel_by_cloid(market, client_id@)),
        client.is_cancel(r, market, client_id, None) && !text::begins_with(client_id@, "0x"@) ==> r is Err,
{
    text::law_digits_read_back(n as nat, u64::MAX as nat);
}

/// The time up to which fills are known never goes back, and is not before the last new fill.
pub proof fn law_known_time_moves_on(known: u64, fresh: Seq<HyperliquidUserFill>)
    ensures
        hl_client::later_fill(known, fresh) >= known,
        fresh.len() > 0 ==> hl_client::later_fill(known, fresh) >= fresh.last().time,
        fresh.len() == 0 ==> hl_client::later_fill(known, fresh) == known,
        hl_client::later_fill(known, fresh) == known || (fresh.len() > 0 && hl_client::later_fill(
            known,
            fresh,
        ) == fresh.last().time),
{
}

/// The two networks are reached under different addresses, unless one address is set for both.
pub proof fn law_networks_are_reached_apart(a: HyperliquidConfig, b: HyperliquidConfig)
    requires
        a.base_url_override is None,
        b.base_url_override is None,
    ensures
        a.base() == b.base() <==> a.environment == b.environment,
        a.environment is Testnet ==> a.base() == "https://api.hyperliquid-testnet.xyz"@,
        a.environment is Mainnet ==> a.base() == "https://api.hyperliquid.xyz"@,
        forall|c: HyperliquidConfig, url: String|
            c.base_url_override == Some(url) ==> #[trigger] c.base() == #[trigger] url@,
{
    reveal_strlit("https://api.hyperliquid.xyz");
    reveal_strlit("https://api.hyperliquid-testnet.xyz");
    assert("https://api.hyperliquid.xyz"@.len() == 27);
    assert("https://api.hyperliquid-testnet.xyz"@.len() == 35);
}

/// The client trades on the network that it is set to: requests go to the test network just where
/// that is set, unless an address is.
pub proof fn law_client_reaches_its_network(a: HyperliquidClient, b: HyperliquidClient)
    requires
        a.config.base_url_override is None,
        b.config.base_url_override is None,
    ensures
        a.base() == b.base() <==> a.config.environment == b.config.environment,
        a.config.environment is Testnet ==> a.base() == "https://api.hyperliquid-testnet.xyz"@,
{
    reveal_strlit("http://node.supurr.app");
    reveal_strlit("https://api.hyperliquid-testnet.xyz");
    assert("http://node.supurr.app"@.len() == 22);
    assert("https://api.hyperliquid-testnet.xyz"@.len() == 35);
}

/// A point of the curve is what the run started with and what it earned, where the sum is not
/// rounded: gains raise it, losses lower it.
pub proof fn law_curve_shows_what_is_owned(
    balance: Decimal,
    ts_ms: i64,
    price: Option<Decimal>,
    net: Decimal,
)
    requires
        balance@.valid(),
        net@.valid(),
        decimal::adds_exactly(balance, net),
    ensures
        performance::point_of(balance, ts_ms, price, net) matches Some(p) && {
            &&& decimal::units(p.equity) == decimal::units(balance) + decimal::units(net)
            &&& p.net_pnl == net
            &&& p.price == price
            &&& p.ts_ms == ts_ms
        },
{
    decimal::law_exact_sum(balance, net);
}

/// The frame of a run tells when it began and ended, and balances whose difference is what it
/// earned, where the sum is not rounded.
pub proof fn law_frame_tells_what_was_earned(
    t: PerformanceTracker,
    b: PerformanceBenchmark,
    balance: Decimal,
    net: Decimal,
)
    requires
        t.frames(b, net),
        t.starting_balance_usdc == Some(balance),
        balance@.valid(),
        net@.valid(),
        decimal::adds_exactly(balance, net),
        t.equity_curve@.len() > 0,
        t.span_fits(),
    ensures
        b.starting_balance_usdc matches Some(s) && report_laws::denoted(s@) == Some(balance@),
        b.ending_balance_usdc matches Some(s) && (report_laws::denoted(s@) matches Some(e) && e.valid()
            && e.at_scale(28) == decimal::units(balance) + decimal::units(net)),
        b.start_ts_ms == Some(t.equity_curve@[0].ts_ms),
        b.end_ts_ms == Some(t.equity_curve@.last().ts_ms),
        b.duration_ms matches Some(d) ==> t.equity_curve@[0].ts_ms + d == t.equity_curve@.last().ts_ms,
        b.duration_ms is None <==> t.equity_curve@.last().ts_ms < t.equity_curve@[0].ts_ms,
        b.quote_count == t.quote_count,
{
    decimal::law_exact_sum(balance, net);
    report_laws::law_number_reads_back(balance@);
    report_laws::law_number_reads_back((decimal::plus(Some(balance), Some(net))->0)@);
}

/// What is free and what is set aside are together what is held, where the difference is not
/// rounded.
pub proof fn law_balance_splits_the_total(a: AssetAccount)
    requires
        a.total@.valid(),
        a.reserved@.valid(),
        decimal::subtracts_exactly(a.total, a.reserved),
    ensures
        a.balance() matches Some(b) && {
            &&& decimal::units(b.available) + decimal::units(b.reserved) == decimal::units(b.total)
            &&& b.total == a.total
            &&& b.reserved == a.reserved
        },
{
    decimal::law_exact_difference(a.total, a.reserved);
}

/// A strategy sees the middle of the last quote of an instrument, as far from the bid as from the
/// ask, where no step is rounded; and none without a quote.
pub proof fn law_strategy_sees_the_middle(books: StateView, instrument: InstrumentId)
    ensures
        strmap::lookup(books.quotes, instrument@) is None ==> context::middle_of(books, instrument) is None,
        strmap::lookup(books.quotes, instrument@) matches Some(q) ==> (match types::halfway(q.bid.0, q.ask.0) {
            Some(m) => context::middle_of(books, instrument) matches Some(p) && p.0 == m,
            None => context::middle_of(books, instrument) is None,
        }),
{
}

/// An order to buy waits among the bids of its instrument and an order to sell among the asks;
/// nothing else changes.
pub proof fn law_order_waits_on_its_side(v: SimulatorView, order: PendingOrder)
    ensures
        ({
            let w = v.with_order(order);
            let k = order.instrument@;
            &&& order.side is Buy ==> w.sells == v.sells && w.buys.contains_key(k) && w.buys[k].len()
                == fill_simulator::queue(v.buys, k).len() + 1 && w.buys[k].contains(order)
            &&& order.side is Sell ==> w.buys == v.buys && w.sells.contains_key(k) && w.sells[k].len()
                == fill_simulator::queue(v.sells, k).len() + 1 && w.sells[k].contains(order)
            &&& forall|j: Seq<char>|
                j != k && v.buys.contains_key(j) ==> w.buys.contains_key(j) && #[trigger] w.buys[j] == v.buys[j]
            &&& forall|j: Seq<char>|
                j != k && v.sells.contains_key(j) ==> w.sells.contains_key(j) && #[trigger] w.sells[j]
                    == v.sells[j]
            &&& w.balances == v.balances
            &&& w.fee_rate == v.fee_rate
        }),
{
    let k = order.instrument@;
    match order.side {
        OrderSide::Buy => {
            let s = fill_simulator::queue(v.buys, k);
            lemma_joins(OrderSide::Buy, s, order);
        },
        OrderSide::Sell => {
            let s = fill_simulator::queue(v.sells, k);
            lemma_joins(OrderSide::Sell, s, order);
        },
    }
}

proof fn lemma_joins(side: OrderSide, s: Seq<PendingOrder>, order: PendingOrder)
    ensures
        fill_simulator::queued(side, s, order).len() == s.len() + 1,
        fill_simulator::queued(side, s, order).contains(order),
{
    fill_simulator::lemma_place_in_range(side, s, order.price.0, 0);
    let at = fill_simulator::place_from(side, s, order.price.0, 0);
    assert(fill_simulator::queued(side, s, order)[at] == order);
}

/// A cancel that went through drops the order, and tells so of that order. One that failed leaves
/// the order tracked and tells nothing: it is put off where the exchange takes no more actions,
/// and else forgotten.
pub proof fn law_cancel_ends<S: Strategy>(
    v: RunnerView<S>,
    w: RunnerView<S>,
    cmd: CancelOrder,
    instrument: InstrumentId,
    result: Result<(), ExchangeError>,
    now: i64,
    event: Option<Event>,
)
    requires
        v.cancel_ended(w, cmd, instrument, result, now, event),
        v.engine.state.orders.sound(),
    ensures
        result is Ok ==> w.engine.state.orders.order(cmd.client_id) is None && w.deferred == v.deferred && (
        event matches Some(Event::OrderCanceled(e)) && e.client_id == cmd.client_id && e.exchange
            == cmd.exchange.exchange_id && e.instrument == instrument && e.ts == now),
        result matches Err(e) ==> event is None && w.engine == v.engine && w.stats == v.stats,
        result matches Err(e) ==> (!(e is WouldExceedUserActionLimit) ==> w == v),
        result matches Err(ExchangeError::WouldExceedUserActionLimit { retry_after_ms, .. }) ==> (now
            + retry_after_ms <= i64::MAX ==> w == v.with_deferred(
            Command::CancelOrder(cmd),
            (now + retry_after_ms) as i64,
        )),
{
    order_manager::law_dropped_order_is_gone(v.engine.state.orders, cmd.client_id);
}

/// The cancel of all markets goes on from one market to the next, unless the exchange takes no
/// more actions: then it is put off as a whole. No order is dropped before it is known to be gone.
pub proof fn law_cancels_go_on<S: Strategy>(
    v: RunnerView<S>,
    w: RunnerView<S>,
    cmd: CancelAll,
    result: Result<u32, ExchangeError>,
    now: i64,
    goes_on: bool,
)
    requires
        v.cancels_ended(w, cmd, result, now, goes_on),
    ensures
        w.engine == v.engine,
        goes_on ==> w == v,
        goes_on <==> !(result matches Err(e) && e is WouldExceedUserActionLimit),
        result matches Err(ExchangeError::WouldExceedUserActionLimit { retry_after_ms, .. }) ==> (now
            + retry_after_ms <= i64::MAX ==> w == v.with_deferred(
            Command::CancelAll(cmd),
            (now + retry_after_ms) as i64,
        )),
{
}

/// An order that could not be sent is no longer tracked, and its refusal is told with the reason;
/// where the exchange takes no more actions it stays tracked, is put off, and nothing is told.
pub proof fn law_failed_order_is_told<S: Strategy>(
    v: RunnerView<S>,
    w: RunnerView<S>,
    cmd: PlaceOrder,
    e: ExchangeError,
    now: i64,
    events: Seq<Event>,
)
    requires
        v.place_ended(w, cmd, Err(e), now, events),
        v.engine.state.orders.sound(),
    ensures
        !(e is WouldExceedUserActionLimit) ==> {
            &&& w.engine.state.orders.order(cmd.client_id) is None
            &&& w.deferred == v.deferred
            &&& events.len() == 1
            &&& events[0] matches Event::OrderRejected(r) && r.client_id == cmd.client_id && r.reason@
                == e.message() && r.instrument == cmd.instrument && r.ts == now
        },
        e matches ExchangeError::WouldExceedUserActionLimit { retry_after_ms, .. } ==> w.engine == v.engine
            && events.len() == 0 && (now + retry_after_ms <= i64::MAX ==> w == v.with_deferred(
            Command::PlaceOrder(cmd),
            (now + retry_after_ms) as i64,
        )),
        w.stats == v.stats,
{
    order_manager::law_dropped_order_is_gone(v.engine.state.orders, cmd.client_id);
    if !(e is WouldExceedUserActionLimit) {
        assert(runner::is_rejection(events[0], seq![cmd][0], e.message(), now));
    }
}

/// An order that is answered is counted just where it was taken, and tracked on just then.
pub proof fn law_answered_order_is_counted<S: Strategy>(
    v: RunnerView<S>,
    w: RunnerView<S>,
    cmd: PlaceOrder,
    results: Vec<PlaceOrderResult>,
    now: i64,
    events: Seq<Event>,
)
    requires
        v.place_ended(w, cmd, Ok(results), now, events),
        v.engine.state.orders.sound(),
        v.engine.state.orders.order(cmd.client_id) is Some,
        v.stats.orders_placed < u32::MAX,
    ensures
        results@.len() > 0 && results@[0] is Accepted ==> w.stats.orders_placed == v.stats.orders_placed + 1
            && w.engine.state.orders.order(cmd.client_id) is Some,
        results@.len() == 0 || results@[0] is Rejected ==> w.stats.orders_placed == v.stats.orders_placed
            && w.engine.state.orders.order(cmd.client_id) is None,
        events.len() > 0 && results@.len() == 0 ==> events[0] is OrderRejected,
{
    if results@.len() > 0 {
        loop_laws::law_reply_is_booked(v.engine.state.orders, cmd, results@[0], now);
    } else {
        order_manager::law_dropped_order_is_gone(v.engine.state.orders, cmd.client_id);
        assert(runner::is_rejection(
            events[0],
            seq![cmd][0],
            "No result returned from place_orders"@,
            now,
        ));
    }
}

/// An account that was read ends the wait, and its exchange is well; one that could not be read
/// leaves every position as it was, and halts the exchange unless the error passes by itself.
pub proof fn law_account_poll_is_noted<S: Strategy>(
    v: RunnerView<S>,
    instance: ExchangeInstance,
    result: Result<AccountState, ExchangeError>,
)
    ensures
        ({
            let w = v.account_noted(instance, result);
            &&& result is Ok ==> w.fills_guard.backoff_ms == 0 && w.fills_guard.consecutive_empties == 0
            &&& result matches Ok(a) ==> w.engine.state == runner::snapshots_applied(
                v.with_health(instance, ExchangeHealth::Active).engine.state,
                a.positions@,
            )
            &&& result matches Err(e) ==> (e is RateLimited || e is Timeout || e is Network ==> w.engine
                == v.engine)
            &&& result matches Err(e) ==> (!(e is RateLimited || e is Timeout || e is Network) ==> w.engine
                == v.with_health(instance, ExchangeHealth::Halted).engine)
            &&& result matches Err(e) ==> (!e.transient() ==> w.fills_guard == v.fills_guard)
            &&& w.stats == v.stats
            &&& w.deferred == v.deferred
        }),
{
}

/// Nothing is reported unless reports are switched on; then to the service and for the bot that
/// are set. The account is reported only for what works on snapshots.
pub proof fn law_reports_are_asked_for(
    c: BotConfig,
    instruments: Vec<InstrumentId>,
    sync: SyncMechanism,
)
    ensures
        startup::trades_reported(c, instruments) is Some <==> (c.sync matches Some(s) && s.enabled),
        startup::account_reported(c, sync) is Some <==> (c.sync matches Some(s) && s.enabled) && sync is Snapshot,
        startup::trades_reported(c, instruments) matches Some(t) ==> (c.sync matches Some(s) && t.bot_id
            == s.bot_id && t.upstream_url == s.upstream_url && t.instruments == instruments
            && t.sync_interval_ms == s.sync_interval_ms && t.timeout_secs == s.timeout_secs),
        startup::account_reported(c, sync) matches Some(a) ==> (c.sync matches Some(s) && a.bot_id
            == s.bot_id && a.upstream_url == s.upstream_url),
{
}

/// A failed start is told where reports are switched on and it is known where they go: as a stop,
/// with the reason, and with no trades.
pub proof fn law_failed_start_is_told(
    c: BotConfig,
    reason: Seq<char>,
    now: i64,
    r: Option<(String, SyncRequest)>,
)
    requires
        startup::tells_failed_start(c, reason, now, r),
    ensures
        r is Some <==> (c.sync matches Some(s) && s.enabled && s.bot_id@.len() > 0 && s.upstream_url@.len()
            > 0),
        r matches Some(t) ==> t.1.stop_bot && t.1.stop_reason@ == reason && t.1.trades@.len() == 0 && (now
            >= 0 ==> 1000 * t.1.ts <= now < 1000 * t.1.ts + 1000),
{
}

/// What the configuration holds of key and address counts; the file only fills in what is left
/// empty.
pub proof fn law_own_credentials_count(c: BotConfig, key: String, address: String)
    ensures
        c.private_key@.len() > 0 ==> c.credentials(key, address).0 == c.private_key,
        c.private_key@.len() == 0 ==> c.credentials(key, address).0 == key,
        c.address@.len() > 0 ==> c.credentials(key, address).1 == c.address,
        c.address@.len() == 0 ==> c.credentials(key, address).1 == address,
{
}

/// A command names the order that it is about, and the instrument that it is for; one that is for
/// all orders names no order.
pub proof fn law_commands_name_what_they_are_about(c: Command)
    ensures
        c matches Command::PlaceOrder(p) ==> c.order_named() == Some(&p.client_id) && c.instrument_named()
            == Some(&p.instrument),
        c matches Command::CancelOrder(p) ==> c.order_named() == Some(&p.client_id),
        c is CancelAll ==> c.order_named() is None,
        c is StopStrategy ==> c.order_named() is None && c.instrument_named() is None,
        c matches Command::CancelAll(p) ==> (p.instrument matches Some(i) ==> c.instrument_named() == Some(
            &i,
        )),
        c matches Command::PlaceOrders(s) ==> (s@.len() > 0 ==> c.order_named() == Some(&s@[0].client_id)),
{
}

/// A quote that is taken is the one of its instrument from then on, and its middle the price of
/// now; it is told with its own bid and ask.
pub proof fn law_quote_is_taken<S: Strategy>(
    v: RunnerView<S>,
    w: RunnerView<S>,
    instance: ExchangeInstance,
    quote: Quote,
    r: Option<Event>,
    other: InstrumentId,
)
    requires
        v.quote_taken(w, instance, quote, r),
        strmap::distinct_keys(v.engine.state.quotes),
        types::halfway(quote.bid.0, quote.ask.0) is Some,
    ensures
        strmap::lookup(w.engine.state.quotes, quote.instrument@) == Some(quote),
        other@ != quote.instrument@ ==> strmap::lookup(w.engine.state.quotes, other@) == strmap::lookup(
            v.engine.state.quotes,
            other@,
        ),
        w.mid == types::halfway(quote.bid.0, quote.ask.0),
        w.engine.state.positions == v.engine.state.positions,
        w.engine.state.orders == v.engine.state.orders,
        r matches Some(Event::Quote(e)) && e.bid == quote.bid && e.ask == quote.ask && e.instrument
            == quote.instrument && e.ts == quote.ts,
{
    strmap::lemma_put(v.engine.state.quotes, quote.instrument.0, quote);
}

/// A fill that is booked is told once and added to the history; one that is not new, or of no
/// order that is tracked, is neither.
pub proof fn law_fill_is_kept<S: Strategy>(
    v: RunnerView<S>,
    w: RunnerView<S>,
    instance: ExchangeInstance,
    client_id: ClientOrderId,
    fill: Fill,
    now: i64,
    r: Option<Option<Event>>,
)
    requires
        v.fill_begun(w, instance, client_id, fill, now, r),
    ensures
        r is None ==> w == v,
        r matches Some(None) ==> w.engine.fills == v.engine.fills,
        r matches Some(Some(event)) ==> (event matches Event::OrderFilled(e) && w.engine.fills
            == v.engine.fills.push(e) && e.side == fill.side && e.qty == fill.qty && e.price == fill.price
            && e.instrument == fill.instrument && e.client_id == client_id && e.trade_id == fill.trade_id
            && e.fee == fill.fee),
        w.stats == v.stats,
        w.deferred == v.deferred,
{
}

/// An order for an exchange that is not known is passed over; one of whose instrument nothing is
/// known is refused; any other is sent as it was prepared and tracked from then on.
pub proof fn law_order_is_begun<S: Strategy>(
    v: RunnerView<S>,
    w: RunnerView<S>,
    cmd: PlaceOrder,
    now: i64,
    r: Option<PlaceStart>,
)
    requires
        v.place_begun(w, cmd, now, r),
        v.engine.state.orders.sound(),
    ensures
        r matches Some(PlaceStart::Send(input)) ==> w.engine.state.orders.order(input.client_id) is Some
            && runner::prepared(v.engine.state, cmd) == Prepared::Ready(input) && v.knows(cmd.exchange),
        !(r matches Some(PlaceStart::Send(_))) ==> w == v,
        r matches Some(PlaceStart::Refused(e)) ==> (e matches Event::OrderRejected(x) && x.client_id
            == cmd.client_id && x.instrument == cmd.instrument),
        r matches Some(PlaceStart::Ignored) <==> !v.knows(cmd.exchange),
{
    if let Some(PlaceStart::Send(input)) = r {
        loop_laws::law_sent_order_is_tracked(v.engine.state.orders, input, now, input.client_id);
    }
}

/// A batch for an exchange that is not known is refused whole, order by order, and nothing of it is
/// tracked; of any other all that is sent is tracked.
pub proof fn law_batch_is_begun<S: Strategy>(
    v: RunnerView<S>,
    w: RunnerView<S>,
    s: Seq<PlaceOrder>,
    now: i64,
    r: Option<BatchStart>,
)
    requires
        v.batch_begun(w, s, now, r),
        v.engine.state.orders.sound(),
    ensures
        s.len() > 0 && !v.knows(s[0].exchange) ==> w == v && (r matches Some(b) && b.inputs@.len() == 0
            && b.events@.len() == s.len()),
        r is None ==> w == v,
        r matches Some(b) ==> forall|i: int|
            0 <= i < b.inputs@.len() ==> w.engine.state.orders.order((#[trigger] b.inputs@[i]).client_id) is Some,
        w.stats == v.stats,
        w.deferred == v.deferred,
{
    book_laws::law_batch_is_tracked(
        v.engine.state.orders,
        runner::inputs_of(v.engine.state, s),
        now,
    );
}

/// A batch that failed is dropped and refused order by order; where the exchange takes no more
/// actions it waits as it is, and nothing more is told. What was told before stays told.
pub proof fn law_failed_batch_is_told<S: Strategy>(
    v: RunnerView<S>,
    w: RunnerView<S>,
    orders: Vec<PlaceOrder>,
    told: Seq<Event>,
    e: ExchangeError,
    now: i64,
    events: Seq<Event>,
)
    requires
        v.batch_ended(w, orders, told, Err(e), now, events),
        v.engine.state.orders.sound(),
    ensures
        told.is_prefix_of(events),
        !(e is WouldExceedUserActionLimit) ==> {
            &&& events.len() == told.len() + orders@.len()
            &&& w.deferred == v.deferred
            &&& forall|i: int|
                0 <= i < orders@.len() ==> w.engine.state.orders.order((#[trigger] orders@[i]).client_id) is None
        },
        e matches ExchangeError::WouldExceedUserActionLimit { retry_after_ms, .. } ==> events.len()
            == told.len() && w.engine == v.engine && (orders@.len() > 0 && now + retry_after_ms <= i64::MAX
            ==> w == v.with_deferred(Command::PlaceOrders(orders), (now + retry_after_ms) as i64)),
{
    book_laws::law_failed_batch_is_dropped(v.engine.state.orders, orders@);
    assert(told =~= events.subrange(0, told.len() as int));
}

/// Every order of a batch that is answered is told of, in its turn.
pub proof fn law_answered_batch_is_told<S: Strategy>(
    v: RunnerView<S>,
    w: RunnerView<S>,
    orders: Vec<PlaceOrder>,
    told: Seq<Event>,
    results: Vec<PlaceOrderResult>,
    now: i64,
    events: Seq<Event>,
    i: int,
)
    requires
        v.batch_ended(w, orders, told, Ok(results), now, events),
        0 <= i < orders@.len(),
        i < results@.len(),
    ensures
        results@[i] is Rejected ==> (events[told.len() + i] matches Event::OrderRejected(e) && e.client_id
            == orders@[i].client_id),
        results@[i] is Accepted ==> (events[told.len() + i] matches Event::OrderAccepted(e) && e.client_id
            == orders@[i].client_id) || (events[told.len() + i] matches Event::OrderCompleted(e)
            && e.client_id == orders@[i].client_id),
        w.deferred == v.deferred,
{
    assert(events[told.len() + i] == runner::batch_event(
        v.engine.mechanism(),
        orders@[i],
        results@[i],
        now,
    ));
}

/// Orders count as placed only where the reply says that the action was carried out, answers for
/// them, and not all of them ran into the limit: then each has its answer.
pub proof fn law_orders_are_placed_when_answered(
    n: nat,
    reply: Reply,
    r: Result<Vec<PlaceOrderResult>, ExchangeError>,
)
    requires
        hl_client::are_placed(n, reply, r),
    ensures
        r is Ok ==> hl_client::is_ok(reply.value@) && hl_client::statuses_of(reply.value@) is Some,
        r matches Ok(s) ==> s@.len() == n,
        !hl_client::is_ok(reply.value@) ==> (r matches Err(ExchangeError::Rejected(why)) && why@
            == hl_client::refusal(reply)),
        r matches Err(e) ==> e is Rejected || e is WouldExceedUserActionLimit,
        r matches Err(e) ==> (e is WouldExceedUserActionLimit ==> (hl_client::statuses_of(reply.value@) matches Some(
            s,
        ) && hl_client::batch_limited(s, n))),
{
}

/// An order that takes margin is refused just where free cash is less than what it needs; one that
/// only takes a position back is never refused.
pub proof fn law_free_cash_covers_orders(
    v: LedgerView,
    instrument: InstrumentId,
    side: OrderSide,
    price: Decimal,
    qty: Decimal,
    reduce_only: bool,
    needed: Decimal,
)
    requires
        v.needed(instrument, price, qty) == Some(needed),
        needed@.valid(),
        v.free@.valid(),
    ensures
        v.uncovered(instrument, side, price, qty, true) == Some(None::<Seq<char>>),
        v.position(instrument) matches Some(p) ==> (p.qty.m() > 0 && side is Sell || p.qty.m() < 0 && side is Buy
            ==> v.uncovered(instrument, side, price, qty, reduce_only) == Some(None::<Seq<char>>)),
        v.position(instrument) is None && !reduce_only ==> (v.uncovered(
            instrument,
            side,
            price,
            qty,
            reduce_only,
        ) matches Some(why) && (why is Some <==> decimal::units(v.free) < decimal::units(needed))),
{
    decimal::law_order_by_units(v.free, needed);
}

} // verus!
