//! The main loop of the engine: what is asked of the exchanges, and what their replies change.
//!
//! The calls themselves are made outside. A call is prepared here, and its reply is handed
//! back here.
use vstd::prelude::*;
use vstd::string::*;
use crate::types;
use crate::strmap;
use crate::state;
use crate::order_manager;
use crate::engine;
use crate::deferred;
use crate::decimal;
use crate::commands::{CancelAll, CancelOrder, Command, PlaceOrder, StopStrategy};
use crate::context::Strategy;
use crate::decimal::{Decimal, sum, product};
use crate::deferred::{DeferredActionLimitCommand, DeferredQueue};
use crate::engine::{Engine, EngineView};
use crate::events::{Event, OrderAcceptedEvent, OrderCanceledEvent, OrderCompletedEvent, OrderFilledEvent, OrderRejectedEvent, QuoteEvent};
use crate::exchange::{ExchangeError, Fill, OrderInput, PlaceOrderResult};
use crate::order_manager::OrderBook;
use crate::phases::{Facts, Phase};
use crate::poll_guard::{HasItems, PollGuard, PollOutcome};
use crate::state::{StateView, key_of, fill_position};
use crate::strmap::StrMap;
use crate::text::join2;
use crate::types::{AccountState, ClientOrderId, ExchangeHealth, ExchangeInstance, ExchangeOrderId, InstrumentId, InstrumentKind, MarketIndex, OrderSide, Position, PositionSnapshot, Price, Qty, Quote, SyncMechanism, try_halfway};

verus! {

/// How many polls in a row must find nothing for a backtest to be over.
pub const MAX_EMPTY_POLLS: u32 = 3;

/// How often the state is reported, in milliseconds.
pub const REPORT_INTERVAL_MS: i64 = 30_000;

/// How the main loop is paced.
#[derive(Debug, Clone, Copy)]
pub struct RunnerConfig {
    /// The wait between two rounds; zero in a backtest.
    pub min_poll_delay_ms: u64,
    pub initial_backoff_ms: u64,
    pub max_backoff_ms: u64,
    /// In hundredths.
    pub backoff_multiplier_pct: u64,
    pub quote_poll_interval_ms: u64,
    /// The wait for what a stop sets off.
    pub cleanup_delay_ms: u64,
}

impl Default for RunnerConfig {
    fn default() -> (r: RunnerConfig)
        ensures
            r == (RunnerConfig {
                min_poll_delay_ms: 500,
                initial_backoff_ms: 1000,
                max_backoff_ms: 30_000,
                backoff_multiplier_pct: 200,
                quote_poll_interval_ms: 1000,
                cleanup_delay_ms: 5000,
            }),
    {
        RunnerConfig {
            min_poll_delay_ms: 500,
            initial_backoff_ms: 1000,
            max_backoff_ms: 30_000,
            backoff_multiplier_pct: 200,
            quote_poll_interval_ms: 1000,
            cleanup_delay_ms: 5000,
        }
    }
}

/// What a poll brought, as it is handed to the main loop.
#[derive(Debug)]
pub enum PollResult {
    Fills { instance: ExchangeInstance, fills: Vec<Fill> },
    Quotes { instance: ExchangeInstance, quotes: Vec<Quote> },
    ExchangeHealth { instance: ExchangeInstance, health: ExchangeHealth },
    Error { instance: ExchangeInstance, error: String },
}

/// What was traded so far.
#[derive(Debug, Clone, Copy)]
pub struct TradingStats {
    pub orders_placed: u32,
    pub orders_filled: u32,
    /// In quote currency.
    pub volume_traded: Decimal,
    pub total_fees: Decimal,
    pub realized_pnl: Decimal,
    /// When the state was last reported.
    pub last_meta_log_ms: i64,
}

impl TradingStats {
    /// Nothing traded.
    pub open spec fn none() -> TradingStats {
        TradingStats {
            orders_placed: 0,
            orders_filled: 0,
            volume_traded: decimal::zero(),
            total_fees: decimal::zero(),
            realized_pnl: decimal::zero(),
            last_meta_log_ms: 0,
        }
    }

    /// The figures after one more fill.
    pub open spec fn with_fill(self, fill: Fill) -> Option<TradingStats> {
        match (
            decimal::plus(Some(self.volume_traded), decimal::times(Some(fill.qty.0), Some(fill.price.0))),
            decimal::plus(Some(self.total_fees), Some(fill.fee.amount)),
        ) {
            (Some(volume_traded), Some(total_fees)) if self.orders_filled < u32::MAX => Some(
                TradingStats {
                    orders_filled: (self.orders_filled + 1) as u32,
                    volume_traded,
                    total_fees,
                    ..self
                },
            ),
            _ => None,
        }
    }
}

impl Default for TradingStats {
    fn default() -> (r: TradingStats)
        ensures
            r == TradingStats::none(),
    {
        TradingStats {
            orders_placed: 0,
            orders_filled: 0,
            volume_traded: Decimal::zero(),
            total_fees: Decimal::zero(),
            realized_pnl: Decimal::zero(),
            last_meta_log_ms: 0,
        }
    }
}

/// What becomes of an order before it is sent.
pub enum Prepared {
    /// Nothing is known of the instrument.
    Unknown,
    /// A step of the rounding is too large.
    TooLarge,
    Ready(OrderInput),
}

/// The order as the exchange gets it: price and quantity rounded to the steps of the
/// instrument.
pub open spec fn prepared(state: StateView, cmd: PlaceOrder) -> Prepared {
    match strmap::lookup(state.instruments, cmd.instrument@) {
        None => Prepared::Unknown,
        Some(meta) => match (
            types::on_tick(cmd.price.0, meta.tick_size),
            types::on_lot(cmd.qty.0, meta.lot_size),
        ) {
            (Some(price), Some(qty)) => Prepared::Ready(
                OrderInput {
                    instrument: cmd.instrument,
                    market_index: meta.market_index,
                    client_id: cmd.client_id,
                    side: cmd.side,
                    price: Price(price),
                    qty: Qty(qty),
                    tif: cmd.tif,
                    post_only: cmd.post_only,
                    reduce_only: cmd.reduce_only,
                },
            ),
            _ => Prepared::TooLarge,
        },
    }
}

/// The orders once one that is about to be sent is tracked.
pub open spec fn followed(book: OrderBook, input: OrderInput, now: i64) -> OrderBook {
    book.created(
        order_manager::fresh_order(
            input.client_id,
            input.instrument,
            input.side,
            input.price,
            input.qty,
            now,
        ),
    )
}

/// Those of the orders that can be sent.
pub open spec fn sendable(state: StateView, orders: Seq<PlaceOrder>) -> Seq<PlaceOrder>
    decreases orders.len(),
{
    if orders.len() == 0 {
        Seq::empty()
    } else {
        let rest = sendable(state, orders.drop_last());
        if prepared(state, orders.last()) is Ready {
            rest.push(orders.last())
        } else {
            rest
        }
    }
}

/// The orders as the exchange gets them.
pub open spec fn inputs_of(state: StateView, orders: Seq<PlaceOrder>) -> Seq<OrderInput>
    decreases orders.len(),
{
    if orders.len() == 0 {
        Seq::empty()
    } else {
        let rest = inputs_of(state, orders.drop_last());
        match prepared(state, orders.last()) {
            Prepared::Ready(input) => rest.push(input),
            _ => rest,
        }
    }
}

/// Those of the orders of whose instrument nothing is known.
pub open spec fn unknown_of(state: StateView, orders: Seq<PlaceOrder>) -> Seq<PlaceOrder>
    decreases orders.len(),
{
    if orders.len() == 0 {
        Seq::empty()
    } else {
        let rest = unknown_of(state, orders.drop_last());
        if prepared(state, orders.last()) is Unknown {
            rest.push(orders.last())
        } else {
            rest
        }
    }
}

/// The orders once those that are about to be sent are tracked.
pub open spec fn all_followed(book: OrderBook, inputs: Seq<OrderInput>, now: i64) -> OrderBook
    decreases inputs.len(),
{
    if inputs.len() == 0 {
        book
    } else {
        followed(all_followed(book, inputs.drop_last(), now), inputs.last(), now)
    }
}

/// No step of the rounding is too large for any of the orders.
pub open spec fn all_round(state: StateView, orders: Seq<PlaceOrder>) -> bool {
    forall|i: int|
        0 <= i < orders.len() ==> !((#[trigger] prepared(state, orders[i])) is TooLarge)
}

/// The event tells that an order was refused, and why.
pub open spec fn is_rejection(event: Event, cmd: PlaceOrder, reason: Seq<char>, now: i64) -> bool {
    event matches Event::OrderRejected(e) && {
        &&& e.exchange == cmd.exchange.exchange_id
        &&& e.instrument == cmd.instrument
        &&& e.client_id == cmd.client_id
        &&& e.reason@ == reason
        &&& e.ts == now
    }
}

/// The events tell that the orders were refused, one each, and why.
pub open spec fn are_rejections(
    events: Seq<Event>,
    orders: Seq<PlaceOrder>,
    reason: Seq<char>,
    now: i64,
) -> bool {
    &&& events.len() == orders.len()
    &&& forall|i: int|
        0 <= i < orders.len() ==> is_rejection(#[trigger] events[i], orders[i], reason, now)
}

/// The event that an order was taken.
pub open spec fn acceptance(
    cmd: PlaceOrder,
    exchange_order_id: Option<ExchangeOrderId>,
    now: i64,
) -> Event {
    Event::OrderAccepted(
        OrderAcceptedEvent {
            exchange: cmd.exchange.exchange_id,
            instrument: cmd.instrument,
            client_id: cmd.client_id,
            exchange_order_id,
            ts: now,
        },
    )
}

/// The event that an order was filled at once.
pub open spec fn completion(cmd: PlaceOrder, filled_qty: Qty, px: Price, now: i64) -> Event {
    Event::OrderCompleted(
        OrderCompletedEvent {
            exchange: cmd.exchange.exchange_id,
            instrument: cmd.instrument,
            client_id: cmd.client_id,
            filled_qty,
            avg_fill_px: Some(px),
            ts: now,
        },
    )
}

/// The event that an order was refused with a reason.
pub open spec fn refusal(cmd: PlaceOrder, reason: String, now: i64) -> Event {
    Event::OrderRejected(
        OrderRejectedEvent {
            exchange: cmd.exchange.exchange_id,
            instrument: cmd.instrument,
            client_id: cmd.client_id,
            reason,
            ts: now,
        },
    )
}

/// The events that the reply to a single order gives. A strategy that looks at the whole
/// account also learns at once what was filled.
pub open spec fn single_events(
    mechanism: SyncMechanism,
    cmd: PlaceOrder,
    result: PlaceOrderResult,
    now: i64,
) -> Seq<Event> {
    match result {
        PlaceOrderResult::Accepted { exchange_order_id, filled_qty, avg_fill_px } => match (
            filled_qty,
            avg_fill_px,
        ) {
            (Some(qty), Some(px)) if mechanism is Snapshot => seq![
                acceptance(cmd, exchange_order_id, now),
                completion(cmd, qty, px, now),
            ],
            _ => seq![acceptance(cmd, exchange_order_id, now)],
        },
        PlaceOrderResult::Rejected { reason } => seq![refusal(cmd, reason, now)],
    }
}

/// The event that the reply to an order of a batch gives. A strategy that looks at the whole
/// account learns of an order that was filled at once only that.
pub open spec fn batch_event(
    mechanism: SyncMechanism,
    cmd: PlaceOrder,
    result: PlaceOrderResult,
    now: i64,
) -> Event {
    match result {
        PlaceOrderResult::Accepted { exchange_order_id, filled_qty, avg_fill_px } => match (
            filled_qty,
            avg_fill_px,
        ) {
            (Some(qty), Some(px)) if mechanism is Snapshot => completion(cmd, qty, px, now),
            _ => acceptance(cmd, exchange_order_id, now),
        },
        PlaceOrderResult::Rejected { reason } => refusal(cmd, reason, now),
    }
}

/// The orders after the reply to one of them.
pub open spec fn book_replied(
    book: OrderBook,
    cmd: PlaceOrder,
    result: PlaceOrderResult,
    now: i64,
) -> OrderBook {
    match result {
        PlaceOrderResult::Accepted { exchange_order_id, .. } => book.accepted(
            cmd.client_id,
            exchange_order_id,
            now,
        ),
        PlaceOrderResult::Rejected { .. } => book.dropped(cmd.client_id),
    }
}

/// The orders after the first `n` replies to a batch.
pub open spec fn book_after(
    book: OrderBook,
    orders: Seq<PlaceOrder>,
    results: Seq<PlaceOrderResult>,
    n: nat,
    now: i64,
) -> OrderBook
    decreases n,
{
    if n == 0 {
        book
    } else {
        book_replied(
            book_after(book, orders, results, (n - 1) as nat, now),
            orders[n - 1],
            results[n - 1],
            now,
        )
    }
}

/// The orders without those of a batch.
pub open spec fn all_dropped(book: OrderBook, orders: Seq<PlaceOrder>) -> OrderBook
    decreases orders.len(),
{
    if orders.len() == 0 {
        book
    } else {
        all_dropped(book, orders.drop_last()).dropped(orders.last().client_id)
    }
}

/// How many replies there are to orders of a batch.
pub open spec fn answered(orders: Seq<PlaceOrder>, results: Seq<PlaceOrderResult>) -> nat {
    if orders.len() <= results.len() {
        orders.len()
    } else {
        results.len()
    }
}

/// What a fill adds to the position: less the fee where it is taken from a spot purchase in
/// the base asset, and never below zero.
pub open spec fn net_of(state: StateView, fill: Fill) -> Option<Decimal> {
    match strmap::lookup(state.instruments, fill.instrument@) {
        Some(meta) if meta.kind is Spot && fill.side is Buy && fill.fee.asset@
            == meta.base_asset@ => match decimal::minus(Some(fill.qty.0), Some(fill.fee.amount)) {
            Some(net) => Some(decimal::larger(net, decimal::zero())),
            None => None,
        },
        _ => Some(fill.qty.0),
    }
}

/// The state after a fill was booked, and what it adds to the position; nothing where the
/// fill is not new or its order is not tracked.
pub open spec fn fill_booked(
    state: StateView,
    client_id: ClientOrderId,
    fill: Fill,
    now: i64,
) -> Option<(StateView, Option<Qty>)> {
    match state.orders.filled(client_id, fill.trade_id, fill.qty, fill.price, now) {
        None => None,
        Some(orders) => {
            let next = StateView { orders, ..state };
            if !state.orders.counts(client_id, fill.trade_id) {
                Some((next, None))
            } else {
                match net_of(state, fill) {
                    None => None,
                    Some(net) => match state::position_filled(
                        state.booked(fill.instrument),
                        fill.side,
                        net,
                        fill.price.0,
                    ) {
                        None => None,
                        Some(p) => match next.with_position(fill.instrument, p).with_fee(
                            fill.instrument,
                            fill.fee.amount,
                        ) {
                            None => None,
                            Some(after) => Some((after, Some(Qty(net)))),
                        },
                    },
                }
            }
        },
    }
}

/// The event that an order was executed.
pub open spec fn fill_event(
    instance: ExchangeInstance,
    client_id: ClientOrderId,
    fill: Fill,
    net_qty: Qty,
) -> OrderFilledEvent {
    OrderFilledEvent {
        exchange: instance.exchange_id,
        instrument: fill.instrument,
        client_id,
        trade_id: fill.trade_id,
        side: fill.side,
        price: fill.price,
        qty: fill.qty,
        net_qty,
        fee: fill.fee,
        ts: fill.ts,
    }
}

/// The state after positions were set to what the exchange reports.
pub open spec fn snapshots_applied(state: StateView, s: Seq<PositionSnapshot>) -> StateView
    decreases s.len(),
{
    if s.len() == 0 {
        state
    } else {
        let before = snapshots_applied(state, s.drop_last());
        let p = s.last();
        before.with_position(
            p.instrument,
            Position {
                qty: p.qty,
                avg_entry_px: p.avg_entry_px,
                unrealized_pnl: p.unrealized_pnl,
                ..before.booked(p.instrument)
            },
        )
    }
}

/// When a command can be tried again, where that is a time.
pub open spec fn retry_time(now: i64, retry_after_ms: u64) -> Option<i64> {
    if now + retry_after_ms <= i64::MAX {
        Some((now + retry_after_ms) as i64)
    } else {
        None
    }
}

/// When the exchange takes actions again, where that is what an error tells.
pub open spec fn limit_of(error: ExchangeError) -> Option<u64> {
    match error {
        ExchangeError::WouldExceedUserActionLimit { retry_after_ms, .. } => Some(retry_after_ms),
        _ => None,
    }
}

/// The time at which to try again, where an error tells one, is a time.
pub open spec fn retry_fits(error: ExchangeError, now: i64) -> bool {
    limit_of(error) matches Some(ms) ==> retry_time(now, ms) is Some
}

/// When the exchange takes actions again, where that is what an error tells.
pub fn action_limit_retry_after(error: &ExchangeError) -> (r: Option<u64>)
    ensures
        r == limit_of(*error),
{
    match error {
        ExchangeError::WouldExceedUserActionLimit { retry_after_ms, .. } => Some(*retry_after_ms),
        _ => None,
    }
}

/// When a command can be tried again, where that is a time.
pub fn retry_at(now: i64, retry_after_ms: u64) -> (r: Option<i64>)
    ensures
        r == retry_time(now, retry_after_ms),
{
    let at: i128 = now as i128 + retry_after_ms as i128;
    if at <= i64::MAX as i128 {
        Some(at as i64)
    } else {
        None
    }
}

/// What the main loop holds.
pub struct RunnerView<S> {
    pub config: RunnerConfig,
    pub engine: EngineView<S>,
    /// By the key of the exchange.
    pub exchanges: Seq<(String, ExchangeInstance)>,
    pub instruments: Seq<InstrumentId>,
    pub should_shutdown: bool,
    pub shutdown_reason: Option<Seq<char>>,
    pub mid: Option<Decimal>,
    pub stats: TradingStats,
    pub fills_guard: PollGuard,
    pub quotes_guard: PollGuard,
    pub deferred: Seq<DeferredActionLimitCommand>,
}

impl<S: Strategy> RunnerView<S> {
    /// An exchange is known.
    pub open spec fn knows(self, instance: ExchangeInstance) -> bool {
        strmap::lookup(self.exchanges, state::instance_key(instance)) is Some
    }

    /// The loop with other orders.
    pub open spec fn with_orders(self, orders: OrderBook) -> RunnerView<S> {
        RunnerView {
            engine: EngineView {
                state: StateView { orders, ..self.engine.state },
                ..self.engine
            },
            ..self
        }
    }

    /// The loop after the health of an exchange became known.
    pub open spec fn with_health(self, instance: ExchangeInstance, health: ExchangeHealth) -> RunnerView<S> {
        RunnerView {
            engine: EngineView {
                state: StateView {
                    health: self.engine.state.health.insert(state::instance_key(instance), health),
                    ..self.engine.state
                },
                ..self.engine
            },
            ..self
        }
    }

    /// The loop after the reply to a poll: the exchange is active where there is something in it,
    /// and halted where it is down or the poll can never succeed.
    pub open spec fn after_poll<T: HasItems>(
        self,
        instance: ExchangeInstance,
        result: Result<T, ExchangeError>,
    ) -> RunnerView<S> {
        match PollGuard::outcome(result) {
            PollOutcome::Data(_) => self.with_health(instance, ExchangeHealth::Active),
            PollOutcome::Empty => self,
            _ => self.with_health(instance, ExchangeHealth::Halted),
        }
    }

    /// The loop after the reply to a poll of fills.
    pub open spec fn fills_noted(
        self,
        instance: ExchangeInstance,
        result: Result<Vec<Fill>, ExchangeError>,
    ) -> RunnerView<S> {
        (RunnerView { fills_guard: self.fills_guard.after(result), ..self }).after_poll(
            instance,
            result,
        )
    }

    /// The loop after the reply to a poll of quotes.
    pub open spec fn quotes_noted(
        self,
        instance: ExchangeInstance,
        result: Result<Vec<Quote>, ExchangeError>,
    ) -> RunnerView<S> {
        (RunnerView { quotes_guard: self.quotes_guard.after(result), ..self }).after_poll(
            instance,
            result,
        )
    }

    /// A backtest is over: there is no wait between two rounds, and several polls in a row found
    /// no quote.
    pub open spec fn exhausted(self) -> bool {
        self.config.min_poll_delay_ms == 0 && self.quotes_guard.consecutive_empties
            >= MAX_EMPTY_POLLS
    }

    /// The loop after a command was put off. Where too many wait already, it stops.
    pub open spec fn with_deferred(self, command: Command, retry_at_ms: i64) -> RunnerView<S> {
        match deferred::deferred_after(self.deferred, command, retry_at_ms) {
            Some(deferred) => RunnerView { deferred, ..self },
            None => RunnerView {
                should_shutdown: true,
                shutdown_reason: Some("action_limit_deferred_queue_full"@),
                ..self
            },
        }
    }

    /// The loop `after` an order was prepared, and what comes of it.
    pub open spec fn place_begun(
        self,
        after: RunnerView<S>,
        cmd: PlaceOrder,
        now: i64,
        r: Option<PlaceStart>,
    ) -> bool {
        if !self.knows(cmd.exchange) {
            r == Some(PlaceStart::Ignored) && after == self
        } else {
            match prepared(self.engine.state, cmd) {
                Prepared::Unknown => after == self && (r matches Some(PlaceStart::Refused(e))
                    && is_rejection(e, cmd, "missing instrument meta"@, now)),
                Prepared::TooLarge => after == self && r is None,
                Prepared::Ready(input) => {
                    &&& r == Some(PlaceStart::Send(input))
                    &&& after == self.with_orders(followed(self.engine.state.orders, input, now))
                },
            }
        }
    }

    /// The loop `after` a batch was prepared, and what comes of it.
    pub open spec fn batch_begun(
        self,
        after: RunnerView<S>,
        s: Seq<PlaceOrder>,
        now: i64,
        r: Option<BatchStart>,
    ) -> bool {
        if s.len() == 0 || !self.knows(s[0].exchange) {
            &&& after == self
            &&& r matches Some(b) && {
                &&& b.inputs@.len() == 0
                &&& b.orders@.len() == 0
                &&& are_rejections(b.events@, s, "Exchange not found"@, now)
            }
        } else if !all_round(self.engine.state, s) {
            after == self && r is None
        } else {
            &&& r matches Some(b) && {
                &&& b.inputs@ == inputs_of(self.engine.state, s)
                &&& b.orders@ == sendable(self.engine.state, s)
                &&& are_rejections(
                    b.events@,
                    unknown_of(self.engine.state, s),
                    "missing instrument meta"@,
                    now,
                )
            }
            &&& after == self.with_orders(
                all_followed(self.engine.state.orders, inputs_of(self.engine.state, s), now),
            )
        }
    }

    /// The loop `after` a batch was sent, and the events that are told of it, behind those that
    /// were told before.
    pub open spec fn batch_ended(
        self,
        after: RunnerView<S>,
        orders: Vec<PlaceOrder>,
        told: Seq<Event>,
        result: Result<Vec<PlaceOrderResult>, ExchangeError>,
        now: i64,
        events: Seq<Event>,
    ) -> bool {
        let known = told.len() as int;
        &&& events.len() >= known
        &&& events.subrange(0, known) == told
        &&& match result {
            Ok(results) => {
                let n = answered(orders@, results@);
                &&& after == self.with_orders(
                    book_after(self.engine.state.orders, orders@, results@, n, now),
                )
                &&& events.len() == known + n
                &&& forall|i: int|
                    0 <= i < n ==> #[trigger] events[known + i] == batch_event(
                        self.engine.mechanism(),
                        orders@[i],
                        results@[i],
                        now,
                    )
            },
            Err(e) => match limit_of(e) {
                Some(ms) => {
                    &&& events.len() == known
                    &&& if orders@.len() == 0 {
                        after == self
                    } else {
                        after == self.with_deferred(
                            Command::PlaceOrders(orders),
                            retry_time(now, ms)->0,
                        )
                    }
                },
                None => {
                    &&& after == self.with_orders(
                        all_dropped(self.engine.state.orders, orders@),
                    )
                    &&& are_rejections(
                        events.subrange(known, events.len() as int),
                        orders@,
                        e.message(),
                        now,
                    )
                },
            },
        }
    }

    /// The loop `after` a fill was booked, and the event that is told of it.
    pub open spec fn fill_begun(
        self,
        after: RunnerView<S>,
        instance: ExchangeInstance,
        client_id: ClientOrderId,
        fill: Fill,
        now: i64,
        r: Option<Option<Event>>,
    ) -> bool {
        match fill_booked(self.engine.state, client_id, fill, now) {
            None => r is None && after == self,
            Some((state, None)) => r == Some(None::<Event>) && after == (RunnerView {
                engine: EngineView { state, ..self.engine },
                ..self
            }),
            Some((state, Some(net))) => {
                let event = fill_event(instance, client_id, fill, net);
                &&& r == Some(Some(Event::OrderFilled(event)))
                &&& after == (RunnerView {
                    engine: EngineView {
                        state,
                        fills: self.engine.fills.push(event),
                        ..self.engine
                    },
                    ..self
                })
            },
        }
    }

    /// The loop `after` a quote was taken, and the event that is told of it.
    pub open spec fn quote_taken(
        self,
        after: RunnerView<S>,
        instance: ExchangeInstance,
        quote: Quote,
        r: Option<Event>,
    ) -> bool {
        match types::halfway(quote.bid.0, quote.ask.0) {
            Some(mid) => {
                &&& r == Some(Event::Quote(quote_event(instance, quote)))
                &&& after == (RunnerView {
                    engine: EngineView {
                        state: StateView {
                            quotes: strmap::put(
                                self.engine.state.quotes,
                                quote.instrument.0,
                                quote,
                            ),
                            ..self.engine.state
                        },
                        ..self.engine
                    },
                    mid: Some(mid),
                    ..self
                })
            },
            None => r is None && after == self,
        }
    }

    /// The loop `after` an order was sent, and the events that are told of it.
    pub open spec fn place_ended(
        self,
        after: RunnerView<S>,
        cmd: PlaceOrder,
        result: Result<Vec<PlaceOrderResult>, ExchangeError>,
        now: i64,
        events: Seq<Event>,
    ) -> bool {
        let refused = self.with_orders(self.engine.state.orders.dropped(cmd.client_id));
        match result {
            Ok(results) => if results@.len() > 0 {
                &&& after == self.placed(cmd, results@[0], now)
                &&& events == single_events(self.engine.mechanism(), cmd, results@[0], now)
            } else {
                &&& after == refused
                &&& are_rejections(events, seq![cmd], "No result returned from place_orders"@, now)
            },
            Err(e) => match limit_of(e) {
                Some(ms) => {
                    &&& after == self.with_deferred(
                        Command::PlaceOrder(cmd),
                        retry_time(now, ms)->0,
                    )
                    &&& events.len() == 0
                },
                None => {
                    &&& after == refused
                    &&& are_rejections(events, seq![cmd], e.message(), now)
                },
            },
        }
    }

    /// The loop `after` a cancel was sent, and the event that is told of it.
    pub open spec fn cancel_ended(
        self,
        after: RunnerView<S>,
        cmd: CancelOrder,
        instrument: InstrumentId,
        result: Result<(), ExchangeError>,
        now: i64,
        event: Option<Event>,
    ) -> bool {
        match result {
            Ok(_) => {
                &&& after == self.with_orders(self.engine.state.orders.dropped(cmd.client_id))
                &&& event == Some(
                    Event::OrderCanceled(
                        OrderCanceledEvent {
                            exchange: cmd.exchange.exchange_id,
                            instrument,
                            client_id: cmd.client_id,
                            reason: None,
                            ts: now,
                        },
                    ),
                )
            },
            Err(e) => event is None && after == (match limit_of(e) {
                Some(ms) => self.with_deferred(Command::CancelOrder(cmd), retry_time(now, ms)->0),
                None => self,
            }),
        }
    }

    /// The loop `after` the cancel of a whole market was sent, and whether it goes on with the
    /// next one.
    pub open spec fn cancels_ended(
        self,
        after: RunnerView<S>,
        cmd: CancelAll,
        result: Result<u32, ExchangeError>,
        now: i64,
        goes_on: bool,
    ) -> bool {
        match result {
            Ok(_) => goes_on && after == self,
            Err(e) => match limit_of(e) {
                Some(ms) => !goes_on && after == self.with_deferred(
                    Command::CancelAll(cmd),
                    retry_time(now, ms)->0,
                ),
                None => goes_on && after == self,
            },
        }
    }

    /// The loop after the account was polled.
    pub open spec fn account_noted(
        self,
        instance: ExchangeInstance,
        result: Result<AccountState, ExchangeError>,
    ) -> RunnerView<S> {
        match result {
            Ok(account) => {
                let noted = RunnerView {
                    fills_guard: PollGuard {
                        backoff_ms: 0,
                        consecutive_empties: 0,
                        ..self.fills_guard
                    },
                    ..self
                }.with_health(instance, ExchangeHealth::Active);
                RunnerView {
                    engine: EngineView {
                        state: snapshots_applied(noted.engine.state, account.positions@),
                        ..noted.engine
                    },
                    ..noted
                }
            },
            Err(e) => {
                let noted = RunnerView {
                    fills_guard: if e.transient() {
                        PollGuard {
                            backoff_ms: self.fills_guard.longer_wait() as u64,
                            ..self.fills_guard
                        }
                    } else {
                        self.fills_guard
                    },
                    ..self
                };
                if e.transient() && !(e is Unavailable) {
                    noted
                } else {
                    noted.with_health(instance, ExchangeHealth::Halted)
                }
            },
        }
    }

    /// The loop after the reply to a single order; `None` where there is no reply to it.
    pub open spec fn placed(
        self,
        cmd: PlaceOrder,
        result: PlaceOrderResult,
        now: i64,
    ) -> RunnerView<S> {
        let after = self.with_orders(book_replied(self.engine.state.orders, cmd, result, now));
        if result is Accepted {
            RunnerView {
                stats: TradingStats {
                    orders_placed: (self.stats.orders_placed + 1) as u32,
                    ..self.stats
                },
                ..after
            }
        } else {
            after
        }
    }
}

/// What the cancel of a tracked order asks for, where its market is known.
pub open spec fn cancel_of(state: StateView, client_id: ClientOrderId) -> Option<CancelStart> {
    match state.orders.order(client_id) {
        None => None,
        Some(o) => match strmap::lookup(state.instruments, o.instrument@) {
            None => None,
            Some(m) => Some(
                CancelStart {
                    instrument: o.instrument,
                    market_index: m.market_index,
                    exchange_order_id: o.exchange_order_id,
                },
            ),
        },
    }
}

/// The order that a fill is of: the one that it names, or the one with its number.
pub open spec fn owner_of(book: OrderBook, fill: Fill) -> Option<ClientOrderId> {
    match fill.client_id {
        Some(c) => Some(c),
        None => match fill.exchange_order_id {
            Some(e) => strmap::lookup(book.by_exchange, e@),
            None => None,
        },
    }
}

/// The event that all of a tracked order is filled, where it is.
pub open spec fn end_of(
    book: OrderBook,
    instance: ExchangeInstance,
    client_id: ClientOrderId,
    now: i64,
) -> Option<Event> {
    match book.order(client_id) {
        Some(o) if o.complete() => Some(
            Event::OrderCompleted(
                OrderCompletedEvent {
                    exchange: instance.exchange_id,
                    instrument: o.instrument,
                    client_id,
                    filled_qty: o.filled_qty,
                    avg_fill_px: o.avg_fill_px,
                    ts: now,
                },
            ),
        ),
        _ => None,
    }
}

/// The event that tells of a quote.
pub open spec fn quote_event(instance: ExchangeInstance, quote: Quote) -> QuoteEvent {
    QuoteEvent {
        exchange: instance.exchange_id,
        instrument: quote.instrument,
        bid: quote.bid,
        ask: quote.ask,
        ts: quote.ts,
    }
}

/// What an order asks for first.
#[derive(Debug)]
pub enum PlaceStart {
    /// The exchange is not known: nothing happens.
    Ignored,
    /// The order is refused.
    Refused(Event),
    /// The order is to be sent.
    Send(OrderInput),
}

/// What a batch asks for first.
#[derive(Debug)]
pub struct BatchStart {
    /// What is to be sent; nothing is sent where there is none.
    pub inputs: Vec<OrderInput>,
    /// The orders that are to be sent.
    pub orders: Vec<PlaceOrder>,
    /// What is known already.
    pub events: Vec<Event>,
}

/// What a cancel asks for.
#[derive(Debug)]
pub struct CancelStart {
    pub instrument: InstrumentId,
    pub market_index: MarketIndex,
    pub exchange_order_id: Option<ExchangeOrderId>,
}

/// Drives the main loop.
pub struct EngineRunner<S: Strategy> {
    config: RunnerConfig,
    engine: Engine<S>,
    exchanges: StrMap<ExchangeInstance>,
    instruments: Vec<InstrumentId>,
    should_shutdown: bool,
    shutdown_reason: Option<String>,
    current_mid_price: Option<Decimal>,
    stats: TradingStats,
    fills_guard: PollGuard,
    quotes_guard: PollGuard,
    deferred_action_limit_commands: DeferredQueue,
}

fn rejection(cmd: &PlaceOrder, reason: String, now: i64) -> (r: Event)
    ensures
        r == refusal(*cmd, reason, now),
        is_rejection(r, *cmd, reason@, now),
{
    Event::OrderRejected(
        OrderRejectedEvent {
            exchange: cmd.exchange.exchange_id.clone(),
            instrument: cmd.instrument.clone(),
            client_id: cmd.client_id.clone(),
            reason,
            ts: now,
        },
    )
}

fn accepted_event(cmd: &PlaceOrder, exchange_order_id: Option<ExchangeOrderId>, now: i64) -> (r:
    Event)
    ensures
        r == acceptance(*cmd, exchange_order_id, now),
{
    Event::OrderAccepted(
        OrderAcceptedEvent {
            exchange: cmd.exchange.exchange_id.clone(),
            instrument: cmd.instrument.clone(),
            client_id: cmd.client_id.clone(),
            exchange_order_id,
            ts: now,
        },
    )
}

fn completed_event(cmd: &PlaceOrder, filled_qty: Qty, px: Price, now: i64) -> (r: Event)
    ensures
        r == completion(*cmd, filled_qty, px, now),
{
    Event::OrderCompleted(
        OrderCompletedEvent {
            exchange: cmd.exchange.exchange_id.clone(),
            instrument: cmd.instrument.clone(),
            client_id: cmd.client_id.clone(),
            filled_qty,
            avg_fill_px: Some(px),
            ts: now,
        },
    )
}

fn clone_exchange_id(id: &Option<ExchangeOrderId>) -> (r: Option<ExchangeOrderId>)
    ensures
        r == *id,
{
    match id {
        Some(x) => Some(x.clone()),
        None => None,
    }
}

impl<S: Strategy> EngineRunner<S> {
    /// What the main loop holds.
    pub closed spec fn view(&self) -> RunnerView<S> {
        RunnerView {
            config: self.config,
            engine: self.engine@,
            exchanges: self.exchanges.list(),
            instruments: self.instruments@,
            should_shutdown: self.should_shutdown,
            shutdown_reason: match self.shutdown_reason {
                Some(s) => Some(s@),
                None => None,
            },
            mid: self.current_mid_price,
            stats: self.stats,
            fills_guard: self.fills_guard,
            quotes_guard: self.quotes_guard,
            deferred: self.deferred_action_limit_commands@,
        }
    }

    /// A loop that has not run.
    pub fn new(engine: Engine<S>, config: RunnerConfig) -> (r: EngineRunner<S>)
        ensures
            ({
                let guard = |label: &'static str| PollGuard {
                    label,
                    backoff_ms: 0,
                    initial_backoff_ms: config.initial_backoff_ms,
                    max_backoff_ms: config.max_backoff_ms,
                    backoff_multiplier_pct: config.backoff_multiplier_pct,
                    consecutive_empties: 0,
                };
                r@ == (RunnerView {
                    config,
                    engine: engine@,
                    exchanges: Seq::empty(),
                    instruments: Seq::empty(),
                    should_shutdown: false,
                    shutdown_reason: None,
                    mid: None,
                    stats: TradingStats::none(),
                    fills_guard: guard("fills"),
                    quotes_guard: guard("quotes"),
                    deferred: Seq::empty(),
                })
            }),
    {
        let fills_guard = PollGuard::new("fills", &config);
        let quotes_guard = PollGuard::new("quotes", &config);
        EngineRunner {
            config,
            engine,
            exchanges: StrMap::new(),
            instruments: Vec::new(),
            should_shutdown: false,
            shutdown_reason: None,
            current_mid_price: None,
            stats: TradingStats::default(),
            fills_guard,
            quotes_guard,
            deferred_action_limit_commands: DeferredQueue::new(),
        }
    }

    /// Adds an exchange to poll.
    pub fn add_exchange(&mut self, instance: ExchangeInstance)
        ensures
            exists|key: String|
                key@ == state::instance_key(instance) && final(self)@ == (RunnerView {
                    exchanges: #[trigger] strmap::put(old(self)@.exchanges, key, instance),
                    ..old(self)@
                }),
    {
        let key = key_of(&instance);
        let ghost k = key;
        self.exchanges.insert(key, instance);
        assert(self@.exchanges == strmap::put(old(self)@.exchanges, k, instance));
    }

    /// Adds an instrument whose quotes are polled.
    pub fn add_instrument(&mut self, instrument: InstrumentId)
        ensures
            final(self)@ == (RunnerView {
                instruments: old(self)@.instruments.push(instrument),
                ..old(self)@
            }),
    {
        self.instruments.push(instrument);
    }

    /// The instruments whose quotes are polled.
    pub fn instruments(&self) -> (r: &Vec<InstrumentId>)
        ensures
            r@ == self@.instruments,
    {
        &self.instruments
    }

    /// How many exchanges are polled.
    pub fn exchange_count(&self) -> (r: usize)
        ensures
            r == self@.exchanges.len(),
    {
        self.exchanges.len()
    }

    /// One of the exchanges that are polled.
    pub fn exchange_at(&self, index: usize) -> (r: &ExchangeInstance)
        requires
            index < self@.exchanges.len(),
        ensures
            *r == self@.exchanges[index as int].1,
    {
        self.exchanges.at(index).1
    }

    /// How the loop is paced.
    pub fn config(&self) -> (r: &RunnerConfig)
        ensures
            *r == self@.config,
    {
        &self.config
    }

    /// The engine.
    pub fn engine(&self) -> (r: &Engine<S>)
        ensures
            r@ == self@.engine,
    {
        &self.engine
    }

    /// The engine, to change it.
    pub fn engine_mut(&mut self) -> (r: &mut Engine<S>)
        ensures
            r@ == old(self)@.engine,
            final(self)@ == (RunnerView { engine: final(r)@, ..old(self)@ }),
    {
        &mut self.engine
    }

    /// What was traded so far.
    pub fn stats(&self) -> (r: &TradingStats)
        ensures
            *r == self@.stats,
    {
        &self.stats
    }

    /// The last middle price.
    pub fn current_mid_price(&self) -> (r: Option<Decimal>)
        ensures
            r == self@.mid,
    {
        self.current_mid_price
    }

    /// Whether the loop is to stop.
    pub fn should_shutdown(&self) -> (r: bool)
        ensures
            r == self@.should_shutdown,
    {
        self.should_shutdown
    }

    /// Why the loop stops.
    pub fn shutdown_reason(&self) -> (r: Option<&str>)
        ensures
            match r {
                Some(s) => self@.shutdown_reason == Some(s@),
                None => self@.shutdown_reason is None,
            },
    {
        match &self.shutdown_reason {
            Some(s) => Some(s.as_str()),
            None => None,
        }
    }

    /// The reason that is reported at the end.
    pub fn final_reason(&self) -> (r: &str)
        ensures
            r@ == (match self@.shutdown_reason {
                Some(s) => s,
                None => "shutdown:graceful"@,
            }),
    {
        match &self.shutdown_reason {
            Some(s) => s.as_str(),
            None => "shutdown:graceful",
        }
    }

    /// Whether fills and quotes can be polled again: the empty replies so far can be counted.
    pub fn can_poll(&self) -> (r: bool)
        ensures
            r == (self@.fills_guard.consecutive_empties < u32::MAX
                && self@.quotes_guard.consecutive_empties < u32::MAX),
    {
        self.fills_guard.consecutive_empties < u32::MAX && self.quotes_guard.consecutive_empties
            < u32::MAX
    }

    /// How long to wait before fills are polled.
    pub fn fills_delay_ms(&self) -> (r: u64)
        ensures
            r == self@.fills_guard.backoff_ms,
    {
        self.fills_guard.delay_ms()
    }

    /// How long to wait before quotes are polled.
    pub fn quotes_delay_ms(&self) -> (r: u64)
        ensures
            r == self@.quotes_guard.backoff_ms,
    {
        self.quotes_guard.delay_ms()
    }

    fn knows_exchange(&self, instance: &ExchangeInstance) -> (r: bool)
        ensures
            r == self@.knows(*instance),
    {
        self.exchanges.contains(key_of(instance).as_str())
    }

    fn prepare(&self, cmd: &PlaceOrder) -> (r: Prepared)
        ensures
            r == prepared(self@.engine.state, *cmd),
    {
        match self.engine.instrument_meta(&cmd.instrument) {
            None => Prepared::Unknown,
            Some(meta) => match (meta.try_round_price(cmd.price), meta.try_round_qty(cmd.qty)) {
                (Some(price), Some(qty)) => Prepared::Ready(
                    OrderInput {
                        instrument: cmd.instrument.clone(),
                        market_index: meta.market_index,
                        client_id: cmd.client_id.clone(),
                        side: cmd.side,
                        price,
                        qty,
                        tif: cmd.tif,
                        post_only: cmd.post_only,
                        reduce_only: cmd.reduce_only,
                    },
                ),
                _ => Prepared::TooLarge,
            },
        }
    }

    fn track(&mut self, input: &OrderInput, now: i64)
        ensures
            final(self)@ == old(self)@.with_orders(
                followed(old(self)@.engine.state.orders, *input, now),
            ),
    {
        let book = self.engine.order_manager_mut();
        book.create_order_at(
            input.client_id.clone(),
            input.instrument.clone(),
            input.side,
            input.price,
            input.qty,
            now,
        );
    }

    /// Prepares a single order and tracks it. Changes nothing and gives `None` where a step of
    /// the rounding is too large.
    pub fn begin_place(&mut self, cmd: &PlaceOrder, now: i64) -> (r: Option<PlaceStart>)
        ensures
            old(self)@.place_begun(final(self)@, *cmd, now, r),
    {
        if !self.knows_exchange(&cmd.exchange) {
            return Some(PlaceStart::Ignored);
        }
        match self.prepare(cmd) {
            Prepared::Unknown => Some(
                PlaceStart::Refused(rejection(cmd, "missing instrument meta".to_owned(), now)),
            ),
            Prepared::TooLarge => None,
            Prepared::Ready(input) => {
                self.track(&input, now);
                Some(PlaceStart::Send(input))
            },
        }
    }

    fn drop_order(&mut self, client_id: &ClientOrderId, now: i64)
        ensures
            final(self)@ == old(self)@.with_orders(
                old(self)@.engine.state.orders.dropped(*client_id),
            ),
    {
        let book = self.engine.order_manager_mut();
        let _gone = book.reject_order_at(client_id, now);
    }

    fn note_reply(&mut self, cmd: &PlaceOrder, result: &PlaceOrderResult, now: i64)
        ensures
            final(self)@ == old(self)@.with_orders(
                book_replied(old(self)@.engine.state.orders, *cmd, *result, now),
            ),
    {
        match result {
            PlaceOrderResult::Accepted { exchange_order_id, .. } => {
                let id = clone_exchange_id(exchange_order_id);
                let book = self.engine.order_manager_mut();
                let _found = book.accept_order_at(&cmd.client_id, id, now);
            },
            PlaceOrderResult::Rejected { .. } => {
                self.drop_order(&cmd.client_id, now);
            },
        }
    }

    /// Puts a command off. Where too many wait already, the loop stops.
    pub fn defer_action_limit_command(&mut self, command: Command, retry_after_ms: u64, now: i64)
        requires
            retry_time(now, retry_after_ms) is Some,
        ensures
            final(self)@ == old(self)@.with_deferred(command, retry_time(now, retry_after_ms)->0),
    {
        let at = retry_at(now, retry_after_ms).unwrap();
        if !self.deferred_action_limit_commands.defer(command, at) {
            self.shutdown_reason = Some("action_limit_deferred_queue_full".to_owned());
            self.should_shutdown = true;
        }
    }

    /// The next command that is tried again.
    pub fn next_retry(&mut self, now: i64) -> (r: Option<Command>)
        ensures
            match r {
                Some(c) => exists|i: int| #[trigger]
                    deferred::is_next(old(self)@.deferred, now, i) && c == old(self)@.deferred[i].command
                        && final(self)@ == (RunnerView {
                        deferred: old(self)@.deferred.remove(i),
                        ..old(self)@
                    }),
                None => final(self)@ == old(self)@ && (forall|j: int|
                    0 <= j < old(self)@.deferred.len() ==> (#[trigger] old(
                        self,
                    )@.deferred[j]).retry_at_ms > now),
            },
    {
        self.deferred_action_limit_commands.take_next(now)
    }

    /// Takes the reply to a single order and tells what happened. Where the account has used
    /// up its actions, the order waits.
    pub fn finish_place(
        &mut self,
        cmd: PlaceOrder,
        result: Result<Vec<PlaceOrderResult>, ExchangeError>,
        now: i64,
    ) -> (r: Vec<Event>)
        requires
            old(self)@.stats.orders_placed < u32::MAX,
            result matches Err(e) ==> retry_fits(e, now),
        ensures
            old(self)@.place_ended(final(self)@, cmd, result, now, r@),
    {
        let mut events: Vec<Event> = Vec::new();
        match result {
            Ok(results) => {
                if results.len() > 0 {
                    let mechanism = self.engine.sync_mechanism();
                    self.note_reply(&cmd, &results[0], now);
                    match &results[0] {
                        PlaceOrderResult::Accepted {
                            exchange_order_id,
                            filled_qty,
                            avg_fill_px,
                        } => {
                            self.stats.orders_placed = self.stats.orders_placed + 1;
                            events.push(
                                accepted_event(&cmd, clone_exchange_id(exchange_order_id), now),
                            );
                            if mechanism == SyncMechanism::Snapshot {
                                if let (Some(qty), Some(px)) = (filled_qty, avg_fill_px) {
                                    events.push(completed_event(&cmd, *qty, *px, now));
                                }
                            }
                        },
                        PlaceOrderResult::Rejected { reason } => {
                            events.push(rejection(&cmd, reason.clone(), now));
                        },
                    }
                    assert(events@ =~= single_events(mechanism, cmd, results@[0], now));
                } else {
                    self.drop_order(&cmd.client_id, now);
                    events.push(
                        rejection(&cmd, "No result returned from place_orders".to_owned(), now),
                    );
                }
            },
            Err(e) => match action_limit_retry_after(&e) {
                Some(ms) => {
                    self.defer_action_limit_command(Command::PlaceOrder(cmd), ms, now);
                },
                None => {
                    self.drop_order(&cmd.client_id, now);
                    events.push(rejection(&cmd, e.to_string(), now));
                },
            },
        }
        events
    }

    /// Prepares a batch and tracks its orders. Those of whose instrument nothing is known are
    /// refused; all are refused where the exchange is not known. Changes nothing and gives
    /// `None` where a step of the rounding is too large.
    pub fn begin_batch(&mut self, orders: Vec<PlaceOrder>, now: i64) -> (r: Option<BatchStart>)
        ensures
            old(self)@.batch_begun(final(self)@, orders@, now, r),
    {
        let mut inputs: Vec<OrderInput> = Vec::new();
        let mut sent: Vec<PlaceOrder> = Vec::new();
        let mut events: Vec<Event> = Vec::new();
        let n: usize = orders.len();
        let ghost s = orders@;
        let ghost state = self@.engine.state;
        if n == 0 || !self.knows_exchange(&orders[0].exchange) {
            let mut i: usize = 0;
            while i < n
                invariant
                    n == orders@.len(),
                    i <= n,
                    events@.len() == i,
                    forall|k: int|
                        0 <= k < i ==> is_rejection(
                            #[trigger] events@[k],
                            orders@[k],
                            "Exchange not found"@,
                            now,
                        ),
                decreases n - i,
            {
                events.push(rejection(&orders[i], "Exchange not found".to_owned(), now));
                i = i + 1;
            }
            return Some(BatchStart { inputs, orders: sent, events });
        }
        let mut i: usize = 0;
        assert(s.subrange(0, 0) =~= Seq::empty());
        while i < n
            invariant
                n == orders@.len(),
                i <= n,
                s == orders@,
                self@ == old(self)@,
                s.len() > 0,
                self@.knows(s[0].exchange),
                state == self@.engine.state,
                inputs@ == inputs_of(state, s.subrange(0, i as int)),
                sent@ == sendable(state, s.subrange(0, i as int)),
                are_rejections(
                    events@,
                    unknown_of(state, s.subrange(0, i as int)),
                    "missing instrument meta"@,
                    now,
                ),
                forall|k: int| 0 <= k < i ==> !((#[trigger] prepared(state, s[k])) is TooLarge),
            decreases n - i,
        {
            let cmd = &orders[i];
            assert(s.subrange(0, i + 1).drop_last() =~= s.subrange(0, i as int));
            assert(s.subrange(0, i + 1).last() == *cmd);
            let ghost events0 = events@;
            match self.prepare(cmd) {
                Prepared::Ready(input) => {
                    inputs.push(input);
                    sent.push(cmd.clone());
                },
                Prepared::Unknown => {
                    events.push(rejection(cmd, "missing instrument meta".to_owned(), now));
                    assert forall|k: int|
                        0 <= k < events@.len() implies is_rejection(
                        #[trigger] events@[k],
                        unknown_of(state, s.subrange(0, i + 1))[k],
                        "missing instrument meta"@,
                        now,
                    ) by {
                        if k < events0.len() {
                            assert(events@[k] == events0[k]);
                        }
                    }
                },
                Prepared::TooLarge => {
                    assert(prepared(state, s[i as int]) is TooLarge);
                    return None;
                },
            }
            i = i + 1;
        }
        assert(s.subrange(0, n as int) =~= s);
        let ghost book = self@.engine.state.orders;
        let mut j: usize = 0;
        assert(inputs@.subrange(0, 0) =~= Seq::empty());
        while j < inputs.len()
            invariant
                j <= inputs@.len(),
                book == old(self)@.engine.state.orders,
                self@ == old(self)@.with_orders(
                    all_followed(book, inputs@.subrange(0, j as int), now),
                ),
            decreases inputs@.len() - j,
        {
            assert(inputs@.subrange(0, j + 1).drop_last() =~= inputs@.subrange(0, j as int));
            self.track(&inputs[j], now);
            j = j + 1;
        }
        assert(inputs@.subrange(0, inputs@.len() as int) =~= inputs@);
        Some(BatchStart { inputs, orders: sent, events })
    }

    /// Takes the reply to a batch and tells what happened, after what is known already. Where
    /// the account has used up its actions, the batch waits.
    pub fn finish_batch(
        &mut self,
        orders: Vec<PlaceOrder>,
        events: Vec<Event>,
        result: Result<Vec<PlaceOrderResult>, ExchangeError>,
        now: i64,
    ) -> (r: Vec<Event>)
        requires
            result matches Err(e) ==> retry_fits(e, now),
        ensures
            old(self)@.batch_ended(final(self)@, orders, events@, result, now, r@),
    {
        let mut out = events;
        let ghost known = out@.len() as int;
        let ghost v = self@;
        let ghost book = self@.engine.state.orders;
        assert(out@.subrange(0, known) =~= out@);
        match result {
            Ok(results) => {
                let mechanism = self.engine.sync_mechanism();
                let n: usize = if orders.len() <= results.len() {
                    orders.len()
                } else {
                    results.len()
                };
                let mut i: usize = 0;
                while i < n
                    invariant
                        n <= orders@.len(),
                        n <= results@.len(),
                        i <= n,
                        known == events@.len(),
                        v == old(self)@,
                        book == v.engine.state.orders,
                        mechanism == v.engine.mechanism(),
                        self@ == v.with_orders(
                            book_after(book, orders@, results@, i as nat, now),
                        ),
                        out@.len() == known + i,
                        out@.subrange(0, known) == events@,
                        forall|k: int|
                            0 <= k < i ==> #[trigger] out@[known + k] == batch_event(
                                mechanism,
                                orders@[k],
                                results@[k],
                                now,
                            ),
                    decreases n - i,
                {
                    let cmd = &orders[i];
                    let reply = &results[i];
                    self.note_reply(cmd, reply, now);
                    let ghost before = out@;
                    match reply {
                        PlaceOrderResult::Accepted {
                            exchange_order_id,
                            filled_qty,
                            avg_fill_px,
                        } => {
                            let event = match (filled_qty, avg_fill_px) {
                                (Some(qty), Some(px)) => if mechanism == SyncMechanism::Snapshot {
                                    completed_event(cmd, *qty, *px, now)
                                } else {
                                    accepted_event(cmd, clone_exchange_id(exchange_order_id), now)
                                },
                                _ => accepted_event(cmd, clone_exchange_id(exchange_order_id), now),
                            };
                            out.push(event);
                        },
                        PlaceOrderResult::Rejected { reason } => {
                            out.push(rejection(cmd, reason.clone(), now));
                        },
                    }
                    assert(out@.subrange(0, known) =~= before.subrange(0, known));
                    i = i + 1;
                }
            },
            Err(e) => match action_limit_retry_after(&e) {
                Some(ms) => {
                    if orders.len() > 0 {
                        self.defer_action_limit_command(Command::PlaceOrders(orders), ms, now);
                    }
                },
                None => {
                    let n: usize = orders.len();
                    let mut i: usize = 0;
                    assert(orders@.subrange(0, 0) =~= Seq::empty());
                    while i < n
                        invariant
                            n == orders@.len(),
                            i <= n,
                            known == events@.len(),
                            v == old(self)@,
                            book == v.engine.state.orders,
                            self@ == v.with_orders(
                                all_dropped(book, orders@.subrange(0, i as int)),
                            ),
                            out@.len() == known + i,
                            out@.subrange(0, known) == events@,
                            forall|k: int|
                                0 <= k < i ==> is_rejection(
                                    #[trigger] out@[known + k],
                                    orders@[k],
                                    e.message(),
                                    now,
                                ),
                        decreases n - i,
                    {
                        assert(orders@.subrange(0, i + 1).drop_last() =~= orders@.subrange(
                            0,
                            i as int,
                        ));
                        let cmd = &orders[i];
                        self.drop_order(&cmd.client_id, now);
                        let ghost before = out@;
                        out.push(rejection(cmd, e.to_string(), now));
                        assert(out@.subrange(0, known) =~= before.subrange(0, known));
                        i = i + 1;
                    }
                    assert(orders@.subrange(0, n as int) =~= orders@);
                    assert forall|k: int| 0 <= k < n implies is_rejection(
                        #[trigger] out@.subrange(known, out@.len() as int)[k],
                        orders@[k],
                        e.message(),
                        now,
                    ) by {
                        assert(out@[known + k] == out@.subrange(known, out@.len() as int)[k]);
                    }
                },
            },
        }
        out
    }

    /// What a cancel asks of the exchange; nothing where the exchange, the order or its
    /// instrument is not known.
    pub fn begin_cancel(&self, cmd: &CancelOrder) -> (r: Option<CancelStart>)
        ensures
            r == (if !self@.knows(cmd.exchange) {
                None
            } else {
                cancel_of(self@.engine.state, cmd.client_id)
            }),
    {
        if !self.knows_exchange(&cmd.exchange) {
            return None;
        }
        match self.engine.order_manager().get(&cmd.client_id) {
            None => None,
            Some(o) => match self.engine.instrument_meta(&o.instrument) {
                None => None,
                Some(m) => Some(
                    CancelStart {
                        instrument: o.instrument.clone(),
                        market_index: m.market_index,
                        exchange_order_id: clone_exchange_id(&o.exchange_order_id),
                    },
                ),
            },
        }
    }

    /// Takes the reply to a cancel. Where the account has used up its actions, the cancel
    /// waits; any other failure leaves the order as it is.
    pub fn finish_cancel(
        &mut self,
        cmd: CancelOrder,
        instrument: InstrumentId,
        result: Result<(), ExchangeError>,
        now: i64,
    ) -> (r: Option<Event>)
        requires
            result matches Err(e) ==> retry_fits(e, now),
        ensures
            old(self)@.cancel_ended(final(self)@, cmd, instrument, result, now, r),
    {
        match result {
            Ok(_) => {
                let book = self.engine.order_manager_mut();
                let _gone = book.cancel_order_at(&cmd.client_id, now);
                Some(
                    Event::OrderCanceled(
                        OrderCanceledEvent {
                            exchange: cmd.exchange.exchange_id.clone(),
                            instrument,
                            client_id: cmd.client_id.clone(),
                            reason: None,
                            ts: now,
                        },
                    ),
                )
            },
            Err(e) => {
                if let Some(ms) = action_limit_retry_after(&e) {
                    self.defer_action_limit_command(Command::CancelOrder(cmd), ms, now);
                }
                None
            },
        }
    }

    /// The markets in which a command cancels all orders, one after the other: the one it
    /// names, or all that are polled. None where the exchange is not known.
    pub fn begin_cancel_all(&self, cmd: &CancelAll) -> (r: Vec<(InstrumentId, MarketIndex)>)
        ensures
            r@ == (if !self@.knows(cmd.exchange) {
                Seq::empty()
            } else {
                markets_of(
                    self@.engine.state,
                    match cmd.instrument {
                        Some(i) => seq![i],
                        None => self@.instruments,
                    },
                )
            }),
    {
        let mut out: Vec<(InstrumentId, MarketIndex)> = Vec::new();
        if !self.knows_exchange(&cmd.exchange) {
            return out;
        }
        let ghost state = self@.engine.state;
        match &cmd.instrument {
            Some(i) => {
                if let Some(m) = self.engine.instrument_meta(i) {
                    out.push((i.clone(), m.market_index));
                }
                proof {
                    reveal_with_fuel(markets_of, 2);
                    assert(seq![*i].drop_last() =~= Seq::empty());
                    assert(out@ =~= markets_of(state, seq![*i]));
                }
            },
            None => {
                let mut k: usize = 0;
                assert(self.instruments@.subrange(0, 0) =~= Seq::empty());
                while k < self.instruments.len()
                    invariant
                        k <= self.instruments@.len(),
                        state == self@.engine.state,
                        out@ == markets_of(state, self.instruments@.subrange(0, k as int)),
                    decreases self.instruments@.len() - k,
                {
                    let i = &self.instruments[k];
                    assert(self.instruments@.subrange(0, k + 1).drop_last()
                        =~= self.instruments@.subrange(0, k as int));
                    if let Some(m) = self.engine.instrument_meta(i) {
                        out.push((i.clone(), m.market_index));
                    }
                    k = k + 1;
                }
                assert(self.instruments@.subrange(0, self.instruments@.len() as int)
                    =~= self.instruments@);
            },
        }
        out
    }

    /// Takes the reply for one market and says whether the next market follows: not where the
    /// account has used up its actions, for then the command waits.
    pub fn finish_cancel_all(
        &mut self,
        cmd: &CancelAll,
        result: Result<u32, ExchangeError>,
        now: i64,
    ) -> (r: bool)
        requires
            result matches Err(e) ==> retry_fits(e, now),
        ensures
            old(self)@.cancels_ended(final(self)@, *cmd, result, now, r),
    {
        match result {
            Ok(_) => true,
            Err(e) => match action_limit_retry_after(&e) {
                Some(ms) => {
                    self.defer_action_limit_command(Command::CancelAll(cmd.clone()), ms, now);
                    false
                },
                None => true,
            },
        }
    }

    /// Takes note that a strategy was stopped: the loop stops too.
    pub fn strategy_stopped(&mut self, stop: &StopStrategy)
        ensures
            final(self)@ == (RunnerView {
                should_shutdown: true,
                shutdown_reason: Some(stop.reason@),
                ..old(self)@
            }),
    {
        self.shutdown_reason = Some(stop.reason.clone());
        self.should_shutdown = true;
    }

    /// The order that a fill belongs to: by its own id, or by that of the exchange.
    pub fn resolve_fill_client_id(&self, fill: &Fill) -> (r: Option<ClientOrderId>)
        ensures
            r == owner_of(self@.engine.state.orders, *fill),
    {
        if let Some(c) = &fill.client_id {
            return Some(c.clone());
        }
        if let Some(e) = &fill.exchange_order_id {
            if let Some(c) = self.engine.order_manager().client_id_from_exchange_id(e) {
                return Some(c.clone());
            }
        }
        None
    }

    fn net_qty(&self, fill: &Fill) -> (r: Option<Qty>)
        ensures
            match net_of(self@.engine.state, *fill) {
                Some(q) => r == Some(Qty(q)),
                None => r is None,
            },
    {
        match self.engine.instrument_meta(&fill.instrument) {
            Some(meta) => if meta.kind == InstrumentKind::Spot && fill.side == OrderSide::Buy
                && fill.fee.asset.same(&meta.base_asset) {
                match fill.qty.0.checked_sub(fill.fee.amount) {
                    Some(net) => Some(Qty(net.max(Decimal::zero()))),
                    None => None,
                }
            } else {
                Some(fill.qty)
            },
            None => Some(fill.qty),
        }
    }

    /// Books a fill: on its order, on the position and in the history. Gives the event to be
    /// handed out; none where the fill is not new or its order is not tracked. Changes nothing
    /// and gives `None` where a step is too large.
    pub fn begin_fill(
        &mut self,
        instance: &ExchangeInstance,
        client_id: &ClientOrderId,
        fill: &Fill,
        now: i64,
    ) -> (r: Option<Option<Event>>)
        ensures
            old(self)@.fill_begun(final(self)@, *instance, *client_id, *fill, now, r),
    {
        let counts = {
            let book = self.engine.order_manager();
            !book.is_trade_seen(&fill.trade_id) && book.contains(client_id)
        };
        if !counts {
            let book = self.engine.order_manager_mut();
            return match book.apply_fill_at(
                client_id,
                &fill.trade_id,
                fill.qty,
                fill.price,
                now,
            ) {
                Some(_) => Some(None),
                None => None,
            };
        }
        let net = match self.net_qty(fill) {
            Some(q) => q,
            None => {
                return None;
            },
        };
        let before = self.engine.state().booked_position(&fill.instrument);
        let after = match fill_position(&before, fill.side, net, fill.price) {
            Some(p) => p,
            None => {
                return None;
            },
        };
        if !fill.fee.amount.is_zero() && after.total_fees.checked_add(fill.fee.amount).is_none() {
            proof {
                lemma_booked(
                    self@.engine.state,
                    fill.instrument,
                    after,
                    self@.engine.state.orders.filled(
                        *client_id,
                        fill.trade_id,
                        fill.qty,
                        fill.price,
                        now,
                    ),
                );
            }
            return None;
        }
        let book = self.engine.order_manager_mut();
        match book.apply_fill_at(client_id, &fill.trade_id, fill.qty, fill.price, now) {
            None => {
                return None;
            },
            Some(_) => {},
        }
        let ghost mid = self@.engine.state;
        proof {
            lemma_booked(
                old(self)@.engine.state,
                fill.instrument,
                after,
                Some(mid.orders),
            );
        }
        self.engine.apply_position_fill(&fill.instrument, fill.side, net, fill.price);
        let _done = self.engine.try_apply_fill_fee(&fill.instrument, fill.fee.amount);
        let event = OrderFilledEvent {
            exchange: instance.exchange_id.clone(),
            instrument: fill.instrument.clone(),
            client_id: client_id.clone(),
            trade_id: fill.trade_id.clone(),
            side: fill.side,
            price: fill.price,
            qty: fill.qty,
            net_qty: net,
            fee: fill.fee.clone(),
            ts: fill.ts,
        };
        self.engine.record_fill(event.clone());
        Some(Some(Event::OrderFilled(event)))
    }

    /// The event that the order of a fill is filled whole, where it is.
    pub fn finish_fill(&self, instance: &ExchangeInstance, client_id: &ClientOrderId, now: i64) -> (r:
        Option<Event>)
        ensures
            r == end_of(self@.engine.state.orders, *instance, *client_id, now),
    {
        match self.engine.order_manager().get(client_id) {
            Some(o) => if o.is_complete() {
                Some(
                    Event::OrderCompleted(
                        OrderCompletedEvent {
                            exchange: instance.exchange_id.clone(),
                            instrument: o.instrument.clone(),
                            client_id: client_id.clone(),
                            filled_qty: o.filled_qty,
                            avg_fill_px: o.avg_fill_px,
                            ts: now,
                        },
                    ),
                )
            } else {
                None
            },
            None => None,
        }
    }

    /// Adds a fill to the figures. Changes nothing and says `false` where a figure is too
    /// large.
    pub fn count_fill(&mut self, fill: &Fill) -> (r: bool)
        ensures
            match old(self)@.stats.with_fill(*fill) {
                Some(stats) => r && final(self)@ == (RunnerView { stats, ..old(self)@ }),
                None => !r && final(self)@ == old(self)@,
            },
    {
        if self.stats.orders_filled == u32::MAX {
            return false;
        }
        let volume = sum(
            Some(self.stats.volume_traded),
            product(Some(fill.qty.0), Some(fill.price.0)),
        );
        let fees = sum(Some(self.stats.total_fees), Some(fill.fee.amount));
        match (volume, fees) {
            (Some(volume_traded), Some(total_fees)) => {
                self.stats.orders_filled = self.stats.orders_filled + 1;
                self.stats.volume_traded = volume_traded;
                self.stats.total_fees = total_fees;
                true
            },
            _ => false,
        }
    }

    /// Takes the reply to a poll of fills: the exchange is active where there are any, and
    /// halted where it is down or the poll can never succeed. Gives the fills.
    pub fn fills_polled(
        &mut self,
        instance: &ExchangeInstance,
        result: Result<Vec<Fill>, ExchangeError>,
    ) -> (r: Vec<Fill>)
        requires
            old(self)@.fills_guard.consecutive_empties < u32::MAX,
        ensures
            final(self)@ == old(self)@.fills_noted(*instance, result),
            match result {
                Ok(fills) => r@ == fills@,
                Err(_) => r@.len() == 0,
            },
    {
        match self.fills_guard.execute(result) {
            PollOutcome::Data(fills) => {
                self.engine.set_exchange_health(instance, ExchangeHealth::Active);
                fills
            },
            PollOutcome::Empty => Vec::new(),
            PollOutcome::Degraded(_) | PollOutcome::Fatal(_) => {
                self.engine.set_exchange_health(instance, ExchangeHealth::Halted);
                Vec::new()
            },
        }
    }

    /// Takes the reply to a poll of the account: the positions are set to what the exchange
    /// reports. Gives the account, where there is a reply.
    pub fn account_polled(
        &mut self,
        instance: &ExchangeInstance,
        result: Result<AccountState, ExchangeError>,
    ) -> (r: Option<AccountState>)
        ensures
            r == (match result {
                Ok(account) => Some(account),
                Err(_) => None,
            }),
            final(self)@ == old(self)@.account_noted(*instance, result),
    {
        match result {
            Ok(account) => {
                self.fills_guard.backoff_ms = 0;
                self.fills_guard.consecutive_empties = 0;
                self.engine.set_exchange_health(instance, ExchangeHealth::Active);
                let ghost v = self@;
                let mut i: usize = 0;
                assert(account.positions@.subrange(0, 0) =~= Seq::empty());
                while i < account.positions.len()
                    invariant
                        i <= account.positions@.len(),
                        self@ == (RunnerView {
                            engine: EngineView {
                                state: snapshots_applied(
                                    v.engine.state,
                                    account.positions@.subrange(0, i as int),
                                ),
                                ..v.engine
                            },
                            ..v
                        }),
                    decreases account.positions@.len() - i,
                {
                    let p = &account.positions[i];
                    assert(account.positions@.subrange(0, i + 1).drop_last()
                        =~= account.positions@.subrange(0, i as int));
                    self.engine.apply_snapshot(
                        &p.instrument,
                        p.qty,
                        p.avg_entry_px,
                        p.unrealized_pnl,
                    );
                    i = i + 1;
                }
                assert(account.positions@.subrange(0, account.positions@.len() as int)
                    =~= account.positions@);
                Some(account)
            },
            Err(e) => {
                if e.is_transient() {
                    self.fills_guard.increase_backoff();
                }
                if !e.is_transient() || e.is_502() {
                    self.engine.set_exchange_health(instance, ExchangeHealth::Halted);
                }
                None
            },
        }
    }

    /// Takes the reply to a poll of quotes, as for fills. Gives the quotes.
    pub fn quotes_polled(
        &mut self,
        instance: &ExchangeInstance,
        result: Result<Vec<Quote>, ExchangeError>,
    ) -> (r: Vec<Quote>)
        requires
            old(self)@.quotes_guard.consecutive_empties < u32::MAX,
        ensures
            final(self)@ == old(self)@.quotes_noted(*instance, result),
            match result {
                Ok(quotes) => r@ == quotes@,
                Err(_) => r@.len() == 0,
            },
    {
        match self.quotes_guard.execute(result) {
            PollOutcome::Data(quotes) => {
                self.engine.set_exchange_health(instance, ExchangeHealth::Active);
                quotes
            },
            PollOutcome::Empty => Vec::new(),
            PollOutcome::Degraded(_) | PollOutcome::Fatal(_) => {
                self.engine.set_exchange_health(instance, ExchangeHealth::Halted);
                Vec::new()
            },
        }
    }

    /// Takes a quote over and gives the event to be handed out. Changes nothing and gives
    /// `None` where the middle price is too large.
    pub fn take_quote(&mut self, instance: &ExchangeInstance, quote: &Quote) -> (r: Option<Event>)
        ensures
            old(self)@.quote_taken(final(self)@, *instance, *quote, r),
    {
        match try_halfway(quote.bid.0, quote.ask.0) {
            Some(mid) => {
                self.engine.update_quote(quote.clone());
                self.current_mid_price = Some(mid);
                Some(
                    Event::Quote(
                        QuoteEvent {
                            exchange: instance.exchange_id.clone(),
                            instrument: quote.instrument.clone(),
                            bid: quote.bid,
                            ask: quote.ask,
                            ts: quote.ts,
                        },
                    ),
                )
            },
            None => None,
        }
    }

    /// Whether a backtest is over: nothing is waited for and no quotes come any more. A live
    /// loop never ends for want of quotes.
    pub fn backtest_over(&self) -> (r: bool)
        ensures
            r == self@.exhausted(),
    {
        self.config.min_poll_delay_ms == 0 && self.quotes_guard.looks_exhausted(MAX_EMPTY_POLLS)
    }

    /// Ends a backtest.
    pub fn end_backtest(&mut self)
        ensures
            final(self)@ == (RunnerView {
                shutdown_reason: Some("Backtest complete - all quotes processed"@),
                ..old(self)@
            }),
    {
        self.shutdown_reason = Some("Backtest complete - all quotes processed".to_owned());
    }

    /// Takes note that an exchange could not be set up.
    pub fn init_failed(&mut self, error: &ExchangeError)
        ensures
            final(self)@ == (RunnerView {
                shutdown_reason: Some("exchange_init_failed:"@ + error.message()),
                ..old(self)@
            }),
    {
        let message = error.to_string();
        self.shutdown_reason = Some(join2("exchange_init_failed:", message.as_str()));
    }

    /// Whether the state is due to be reported; if so, takes note of the time.
    pub fn report_due(&mut self, now: i64) -> (r: bool)
        ensures
            r == (now - old(self)@.stats.last_meta_log_ms >= REPORT_INTERVAL_MS),
            final(self)@ == (if r {
                RunnerView {
                    stats: TradingStats { last_meta_log_ms: now, ..old(self)@.stats },
                    ..old(self)@
                }
            } else {
                old(self)@
            }),
    {
        if now as i128 - self.stats.last_meta_log_ms as i128 >= REPORT_INTERVAL_MS as i128 {
            self.stats.last_meta_log_ms = now;
            true
        } else {
            false
        }
    }
}

/// The markets of the instruments of which something is known.
pub open spec fn markets_of(state: StateView, s: Seq<InstrumentId>) -> Seq<
    (InstrumentId, MarketIndex),
>
    decreases s.len(),
{
    if s.len() == 0 {
        Seq::empty()
    } else {
        let rest = markets_of(state, s.drop_last());
        match strmap::lookup(state.instruments, s.last()@) {
            Some(m) => rest.push((s.last(), m.market_index)),
            None => rest,
        }
    }
}

/// A position that was just booked is what is held, whatever the orders are.
proof fn lemma_booked(
    state: StateView,
    instrument: InstrumentId,
    p: Position,
    orders: Option<OrderBook>,
)
    requires
        strmap::distinct_keys(state.positions),
    ensures
        orders matches Some(o) ==> (StateView { orders: o, ..state }).booked(instrument)
            == state.booked(instrument) && (StateView { orders: o, ..state }).with_position(
            instrument,
            p,
        ).booked(instrument) == p,
{
    crate::strmap::lemma_put(state.positions, instrument.0, p);
}

/// A fill is booked once: when it comes again it changes nothing and no event is handed out.
pub proof fn law_fill_booked_once(
    state: StateView,
    client_id: ClientOrderId,
    fill: Fill,
    now: i64,
    again: ClientOrderId,
    later: i64,
)
    ensures
        fill_booked(state, client_id, fill, now) matches Some((after, _)) ==> fill_booked(
            after,
            again,
            fill,
            later,
        ) == Some((after, None::<Qty>)),
{
    if let Some((after, net)) = fill_booked(state, client_id, fill, now) {
        let book = state.orders.filled(client_id, fill.trade_id, fill.qty, fill.price, now)->0;
        assert(after.orders == book);
        crate::order_manager::law_trade_counted_once(
            state.orders,
            client_id,
            fill.trade_id,
            fill.qty,
            fill.price,
            now,
            again,
            fill.qty,
            fill.price,
            later,
        );
    }
}

/// A command that is put off changes no order and no position, and it waits, unless the same
/// cancel waits already or the queue is full; then the loop stops.
pub proof fn law_deferral_keeps_orders<S: Strategy>(v: RunnerView<S>, command: Command, retry_at_ms: i64)
    ensures
        ({
            let w = v.with_deferred(command, retry_at_ms);
            &&& w.engine == v.engine
            &&& w.should_shutdown || (exists|i: int|
                0 <= i < w.deferred.len() && ((#[trigger] w.deferred[i]).command == command
                    || crate::deferred::cancels_same(w.deferred[i].command, command)))
        }),
{
    let w = v.with_deferred(command, retry_at_ms);
    crate::deferred::lemma_first_same(v.deferred, command);
    match deferred::deferred_after(v.deferred, command, retry_at_ms) {
        Some(s) => {
            let i = crate::deferred::first_same(v.deferred, command);
            if crate::deferred::cancels(command) && i < v.deferred.len() {
                assert(crate::deferred::cancels_same(w.deferred[i].command, command));
            } else {
                assert(w.deferred[v.deferred.len() as int].command == command);
            }
        },
        None => {},
    }
}

/// A poll that fails changes no order, no position and no waiting command, and it does not stop
/// the loop.
pub proof fn law_failed_poll_keeps_orders<S: Strategy>(v: RunnerView<S>, instance: ExchangeInstance, e: ExchangeError)
    ensures
        ({
            let w = v.fills_noted(instance, Err(e));
            let x = v.quotes_noted(instance, Err(e));
            &&& w.engine == (EngineView {
                state: StateView { health: w.engine.state.health, ..v.engine.state },
                ..v.engine
            })
            &&& x.engine == (EngineView {
                state: StateView { health: x.engine.state.health, ..v.engine.state },
                ..v.engine
            })
            &&& w.deferred == v.deferred && x.deferred == v.deferred
            &&& w.should_shutdown == v.should_shutdown && x.should_shutdown == v.should_shutdown
        }),
{
}

/// When an exchange answers again, it is active and nothing is waited for any more.
pub proof fn law_exchange_recovers<S: Strategy>(v: RunnerView<S>, instance: ExchangeInstance, quotes: Vec<Quote>)
    requires
        quotes@.len() > 0,
    ensures
        ({
            let w = v.quotes_noted(instance, Ok(quotes));
            &&& w.quotes_guard.backoff_ms == 0
            &&& w.quotes_guard.consecutive_empties == 0
            &&& w.engine.state.health[state::instance_key(instance)] == ExchangeHealth::Active
        }),
{
}

/// A live run never ends because there were no quotes: however many polls found none, the next
/// round comes.
pub proof fn law_live_run_outlasts_silence<S: Strategy>(v: RunnerView<S>, facts: Facts)
    requires
        v.config.min_poll_delay_ms > 0,
        facts.backtest_over == v.exhausted(),
    ensures
        crate::phases::after(Phase::Exhausted, facts) == Phase::Sync,
{
}

} // verus!
