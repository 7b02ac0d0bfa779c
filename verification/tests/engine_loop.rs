use std::cell::Cell;
use std::collections::VecDeque;
use std::rc::Rc;

use supurr::commands::{CancelAll, CancelOrder, Command, PlaceOrder, StopStrategy};
use supurr::context::{EngineContext, Strategy};
use supurr::decimal::Decimal;
use supurr::deferred::DeferredQueue;
use supurr::engine::{Engine, EngineConfig};
use supurr::events::{Event, OrderRejectedEvent};
use supurr::exchange::{ExchangeError, Fill, PlaceOrderResult};
use supurr::mock_exchange::{MockExchange, MockReply};
use supurr::orchestrator::{
    BotOrchestrator, GroupRiskConfig, OrchestratorCondition, OrchestratorConditions,
    OrchestratorLeg,
};
use supurr::phases::{first_phase, next_phase, Facts, Phase};
use supurr::runner::{EngineRunner, PlaceStart, RunnerConfig};
use supurr::state::EngineState;
use supurr::types::{
    AssetId, ClientOrderId, Environment, ExchangeHealth, ExchangeId, ExchangeInstance,
    ExchangeOrderId, Fee, InstrumentId, InstrumentKind, InstrumentMeta, MarketIndex, OrderSide,
    Price, Qty, Quote, StrategyId, SyncMechanism, TimeInForce, TimerId, TradeId,
};

struct DeferredPlacementProbeStrategy {
    id: StrategyId,
    exchange: ExchangeInstance,
    instrument: InstrumentId,
    accepted: Rc<Cell<usize>>,
    rejected: Rc<Cell<usize>>,
    single_sent: bool,
}

impl DeferredPlacementProbeStrategy {
    fn order(&self, client_id: &str) -> PlaceOrder {
        place(&self.exchange, &self.instrument, client_id)
    }
}

fn place(exchange: &ExchangeInstance, instrument: &InstrumentId, client_id: &str) -> PlaceOrder {
    PlaceOrder {
        client_id: ClientOrderId::new(client_id),
        exchange: exchange.clone(),
        instrument: instrument.clone(),
        side: OrderSide::Buy,
        price: Price::new(Decimal::new(100, 0)),
        qty: Qty::new(Decimal::new(1, 0)),
        tif: TimeInForce::Gtc,
        post_only: false,
        reduce_only: false,
    }
}

impl Strategy for DeferredPlacementProbeStrategy {
    fn id(&self) -> &StrategyId {
        &self.id
    }

    fn sync_mechanism(&self) -> SyncMechanism {
        SyncMechanism::Poll
    }

    fn on_start(&mut self, ctx: &mut EngineContext<'_>) {
        ctx.place_orders(vec![self.order("batch-1"), self.order("batch-2")]);
    }

    fn on_event(&mut self, ctx: &mut EngineContext<'_>, event: &Event) {
        match event {
            Event::OrderAccepted(_) => {
                let accepted = self.accepted.get() + 1;
                self.accepted.set(accepted);
                if accepted == 2 && !self.single_sent {
                    self.single_sent = true;
                    ctx.place_order(self.order("later-single"));
                }
                if accepted >= 3 {
                    ctx.stop_strategy(self.id.clone(), "probe complete");
                }
            }
            Event::OrderRejected(_) => {
                self.rejected.set(self.rejected.get() + 1);
            }
            _ => {}
        }
    }

    fn on_timer(&mut self, _ctx: &mut EngineContext<'_>, _timer_id: TimerId) {}

    fn on_stop(&mut self, _ctx: &mut EngineContext<'_>) {}
}

fn action_limit_error(needed: u32) -> ExchangeError {
    ExchangeError::WouldExceedUserActionLimit {
        retry_after_ms: 1,
        needed,
    }
}

fn instrument_meta(instrument: &InstrumentId) -> InstrumentMeta {
    InstrumentMeta {
        instrument_id: instrument.clone(),
        market_index: MarketIndex::new(0),
        base_asset: AssetId::new("BTC"),
        quote_asset: AssetId::new("USDC"),
        tick_size: Decimal::new(1, 0),
        lot_size: Decimal::new(1, 0),
        min_qty: None,
        min_notional: None,
        fee_asset_default: Some(AssetId::new("USDC")),
        kind: InstrumentKind::Perp,
    }
}

fn testnet() -> ExchangeInstance {
    ExchangeInstance::new(ExchangeId::new("hyperliquid"), Environment::Testnet)
}

fn answer(reply: MockReply) -> Result<Vec<PlaceOrderResult>, ExchangeError> {
    match reply {
        MockReply::Replies(r) => Ok(r),
        MockReply::Failed(e) => Err(e),
        MockReply::TooLarge(_) => panic!("a step was too large"),
    }
}

/// Runs the loop against a mock exchange on a clock of its own.
struct Driver<S: Strategy> {
    runner: EngineRunner<S>,
    mock: MockExchange,
    now: i64,
}

impl<S: Strategy> Driver<S> {
    fn execute(&mut self, commands: Vec<Command>) -> Vec<Event> {
        let mut out = Vec::new();
        for command in commands {
            match command {
                Command::PlaceOrder(c) => match self.runner.begin_place(&c, self.now).unwrap() {
                    PlaceStart::Ignored => {}
                    PlaceStart::Refused(e) => out.push(e),
                    PlaceStart::Send(input) => {
                        let reply = answer(self.mock.place_orders(&vec![input]));
                        out.extend(self.runner.finish_place(c, reply, self.now));
                    }
                },
                Command::PlaceOrders(orders) => {
                    let start = self.runner.begin_batch(orders, self.now).unwrap();
                    if start.inputs.is_empty() {
                        out.extend(start.events);
                    } else {
                        let reply = answer(self.mock.place_orders(&start.inputs));
                        out.extend(self.runner.finish_batch(
                            start.orders,
                            start.events,
                            reply,
                            self.now,
                        ));
                    }
                }
                Command::CancelOrder(c) => {
                    if let Some(start) = self.runner.begin_cancel(&c) {
                        out.extend(self.runner.finish_cancel(c, start.instrument, Ok(()), self.now));
                    }
                }
                Command::CancelAll(c) => {
                    for _ in self.runner.begin_cancel_all(&c) {
                        self.runner.finish_cancel_all(&c, Ok(0), self.now);
                    }
                }
                Command::StopStrategy(stop) => self.runner.strategy_stopped(&stop),
            }
        }
        out
    }

    fn handle(&mut self, event: Event) {
        let mut queue = VecDeque::new();
        queue.push_back(event);
        while let Some(e) = queue.pop_front() {
            let commands = self.runner.engine_mut().dispatch_event(&e);
            queue.extend(self.execute(commands));
        }
    }

    fn run(&mut self, max_steps: usize) -> Vec<Phase> {
        let mut seen = Vec::new();
        let mut phase = first_phase(self.runner.exchange_count());
        for _ in 0..max_steps {
            seen.push(phase);
            let mut retried = false;
            match phase {
                Phase::Start => {
                    let commands = self.runner.engine_mut().start_strategies();
                    self.execute(commands);
                }
                Phase::Retry(_) => {
                    if let Some(command) = self.runner.next_retry(self.now) {
                        retried = true;
                        for e in self.execute(vec![command]) {
                            self.handle(e);
                        }
                    }
                }
                Phase::Timers => {
                    let commands = self.runner.engine_mut().fire_timers(self.now);
                    for e in self.execute(commands) {
                        self.handle(e);
                    }
                }
                Phase::Poll(k) => {
                    let instance = self.runner.exchange_at(k).clone();
                    let fills = self.mock.poll_user_fills();
                    for fill in self.runner.fills_polled(&instance, Ok(fills)) {
                        let Some(id) = self.runner.resolve_fill_client_id(&fill) else {
                            continue;
                        };
                        let Some(event) =
                            self.runner.begin_fill(&instance, &id, &fill, self.now).unwrap()
                        else {
                            continue;
                        };
                        self.handle(event);
                        if let Some(e) = self.runner.finish_fill(&instance, &id, self.now) {
                            self.handle(e);
                        }
                        self.runner.count_fill(&fill);
                    }
                }
                Phase::Quotes(k) => {
                    let instance = self.runner.exchange_at(k).clone();
                    let wanted = self.runner.instruments().to_vec();
                    let quotes = self.mock.poll_quotes(&wanted).unwrap();
                    for quote in self.runner.quotes_polled(&instance, Ok(quotes)) {
                        let event = self.runner.take_quote(&instance, &quote).unwrap();
                        self.handle(event);
                    }
                }
                Phase::Pause => self.now += 1,
                Phase::Stop => {
                    let commands = self.runner.engine_mut().stop_strategies();
                    self.execute(commands);
                }
                Phase::Done => return seen,
                _ => {}
            }
            phase = next_phase(
                phase,
                &Facts {
                    exchanges: self.runner.exchange_count(),
                    has_instruments: !self.runner.instruments().is_empty(),
                    init_ok: true,
                    should_shutdown: self.runner.should_shutdown(),
                    signal: false,
                    retried,
                    backtest_over: self.runner.backtest_over(),
                },
            );
        }
        panic!("runner should complete after deferred retries");
    }
}

#[test]
fn action_limit_defers_batch_and_later_single_without_rejection() {
    let exchange_instance = testnet();
    let instrument = InstrumentId::new("BTC-PERP");
    let mut mock = MockExchange::new();

    mock.queue_place_order_error(action_limit_error(2));
    mock.queue_place_order_success();
    mock.queue_place_order_error(action_limit_error(1));
    mock.queue_place_order_success();

    let accepted = Rc::new(Cell::new(0));
    let rejected = Rc::new(Cell::new(0));
    let strategy = DeferredPlacementProbeStrategy {
        id: StrategyId::new("deferred-placement-probe"),
        exchange: exchange_instance.clone(),
        instrument: instrument.clone(),
        accepted: accepted.clone(),
        rejected: rejected.clone(),
        single_sent: false,
    };

    let mut engine = Engine::new(EngineConfig::default());
    engine.register_strategy(strategy);
    engine.register_instrument(instrument_meta(&instrument));
    engine.register_exchange(&exchange_instance);

    let mut runner = EngineRunner::new(
        engine,
        RunnerConfig {
            min_poll_delay_ms: 1,
            quote_poll_interval_ms: 1,
            cleanup_delay_ms: 0,
            ..Default::default()
        },
    );
    runner.add_exchange(exchange_instance);
    runner.add_instrument(instrument);

    let mut driver = Driver {
        runner,
        mock,
        now: 1_000,
    };
    let seen = driver.run(1_000);
    assert!(matches!(seen[0], Phase::Init(0)));
    assert!(matches!(seen[seen.len() - 1], Phase::Done));

    assert_eq!(accepted.get(), 3);
    assert_eq!(rejected.get(), 0);

    let placed = driver.mock.placed_orders();
    assert_eq!(placed.len(), 3);
    assert_eq!(placed[0].client_id, ClientOrderId::new("batch-1"));
    assert_eq!(placed[1].client_id, ClientOrderId::new("batch-2"));
    assert_eq!(placed[2].client_id, ClientOrderId::new("later-single"));
    assert_eq!(driver.runner.shutdown_reason(), Some("probe complete"));
}

#[derive(Default)]
struct Counts {
    starts: Cell<usize>,
    stops: Cell<usize>,
    events: Cell<usize>,
}

struct CountingStrategy {
    id: StrategyId,
    counts: Rc<Counts>,
}

impl Strategy for CountingStrategy {
    fn id(&self) -> &StrategyId {
        &self.id
    }

    fn sync_mechanism(&self) -> SyncMechanism {
        SyncMechanism::Poll
    }

    fn on_start(&mut self, _ctx: &mut EngineContext<'_>) {
        self.counts.starts.set(self.counts.starts.get() + 1);
    }

    fn on_event(&mut self, _ctx: &mut EngineContext<'_>, _event: &Event) {
        self.counts.events.set(self.counts.events.get() + 1);
    }

    fn on_timer(&mut self, _ctx: &mut EngineContext<'_>, _timer_id: TimerId) {}

    fn on_stop(&mut self, _ctx: &mut EngineContext<'_>) {
        self.counts.stops.set(self.counts.stops.get() + 1);
    }
}

fn counting(id: &str, counts: Rc<Counts>) -> CountingStrategy {
    CountingStrategy {
        id: StrategyId::new(id),
        counts,
    }
}

fn orchestrator(
    counts: Rc<Counts>,
    conditions: OrchestratorConditions,
) -> BotOrchestrator<CountingStrategy> {
    let leg = OrchestratorLeg::new("leg", InstrumentId::new("BTC-PERP"), counting("child", counts));
    BotOrchestrator::with_conditions(
        StrategyId::new("parent"),
        vec![leg],
        GroupRiskConfig::disabled(Decimal::new(100, 0)),
        conditions,
    )
}

fn quoted(bid: i64, ask: i64) -> EngineState {
    let mut state = EngineState::new();
    state.update_quote(Quote {
        instrument: InstrumentId::new("BTC-PERP"),
        bid: Price::new(Decimal::new(bid, 0)),
        ask: Price::new(Decimal::new(ask, 0)),
        bid_size: Qty::new(Decimal::one()),
        ask_size: Qty::new(Decimal::one()),
        ts: 0,
    });
    state
}

fn stops(ctx: &EngineContext<'_>) -> Vec<String> {
    ctx.commands.stop_requests.iter().map(|s| s.reason.clone()).collect()
}

#[test]
fn empty_start_conditions_start_children_immediately() {
    let counts = Rc::new(Counts::default());
    let mut orchestrator = orchestrator(counts.clone(), OrchestratorConditions::default());
    let state = EngineState::new();
    let mut ctx = EngineContext::new(&state, 0, 0);

    orchestrator.on_start(&mut ctx);

    assert_eq!(counts.starts.get(), 1);
    assert_eq!(stops(&ctx).len(), 0);
}

#[test]
fn start_condition_waits_until_price_passes() {
    let counts = Rc::new(Counts::default());
    let mut orchestrator = orchestrator(
        counts.clone(),
        OrchestratorConditions {
            start_conditions: vec![OrchestratorCondition::PriceAbove {
                instrument: Some("BTC-PERP".to_string()),
                price: Decimal::new(100, 0),
            }],
            ..Default::default()
        },
    );
    let state = EngineState::new();
    let mut ctx = EngineContext::new(&state, 0, 0);

    orchestrator.on_start(&mut ctx);
    assert_eq!(counts.starts.get(), 0);

    let state = quoted(101, 103);
    let mut ctx = EngineContext::new(&state, 0, 1);
    orchestrator.on_timer(&mut ctx, TimerId::new(1));

    assert_eq!(counts.starts.get(), 1);
    assert_eq!(stops(&ctx).len(), 0);
}

#[test]
fn failed_validation_condition_stops_without_starting_child() {
    let counts = Rc::new(Counts::default());
    let mut orchestrator = orchestrator(
        counts.clone(),
        OrchestratorConditions {
            validation_conditions: vec![OrchestratorCondition::BalanceAbove {
                asset: "USDC".to_string(),
                available: Decimal::new(50, 0),
            }],
            ..Default::default()
        },
    );
    let mut state = EngineState::new();
    state
        .inventory_mut()
        .set_balance(&AssetId::new("USDC"), Decimal::new(10, 0));
    let mut ctx = EngineContext::new(&state, 0, 0);

    orchestrator.on_start(&mut ctx);

    assert_eq!(counts.starts.get(), 0);
    assert_eq!(counts.stops.get(), 0);
    assert!(stops(&ctx)[0].contains("validation condition failed"));
    assert!(orchestrator.is_stopped());
}

#[test]
fn max_running_time_risk_condition_stops_started_child() {
    let counts = Rc::new(Counts::default());
    let mut orchestrator = orchestrator(
        counts.clone(),
        OrchestratorConditions {
            risk_conditions: vec![OrchestratorCondition::MaxRunningTime { secs: 10 }],
            ..Default::default()
        },
    );
    let state = EngineState::new();
    let mut ctx = EngineContext::new(&state, 0, 0);

    orchestrator.on_start(&mut ctx);
    assert_eq!(counts.starts.get(), 1);

    let mut ctx = EngineContext::new(&state, 10_000, 1);
    orchestrator.on_timer(&mut ctx, TimerId::new(1));

    assert_eq!(counts.stops.get(), 1);
    assert!(stops(&ctx)[0].contains("risk condition triggered"));
}

#[test]
fn spread_condition_supports_absolute_or_bps_thresholds() {
    let counts = Rc::new(Counts::default());
    let mut orchestrator = orchestrator(
        counts.clone(),
        OrchestratorConditions {
            start_conditions: vec![OrchestratorCondition::SpreadBelow {
                instrument: Some("BTC-PERP".to_string()),
                max_bps: Some(Decimal::new(100, 0)),
                max_abs: Some(Decimal::new(5, 0)),
            }],
            ..Default::default()
        },
    );
    let state = quoted(100, 101);
    let mut ctx = EngineContext::new(&state, 0, 0);

    orchestrator.on_start(&mut ctx);

    assert_eq!(counts.starts.get(), 1);
}

#[test]
fn a_condition_is_shown_with_its_texts_quoted() {
    let condition = OrchestratorCondition::PriceAbove {
        instrument: Some("A\"B".to_string()),
        price: Decimal::new(15, 1),
    };
    let shown = condition.show();
    assert!(shown.contains("PriceAbove"));
    assert!(shown.contains("\"A\\\"B\""));
    assert!(shown.contains("1.5"));
}

#[test]
fn events_go_to_the_children_of_their_instrument() {
    let counts = Rc::new(Counts::default());
    let mut group = orchestrator(counts, OrchestratorConditions::default());
    let state = EngineState::new();
    group.on_start(&mut EngineContext::new(&state, 0, 0));
    let event = |instrument: &str| {
        Event::OrderRejected(OrderRejectedEvent {
            exchange: ExchangeId::new("hyperliquid"),
            instrument: InstrumentId::new(instrument),
            client_id: ClientOrderId::new("x"),
            reason: "no".to_string(),
            ts: 0,
        })
    };
    assert_eq!(group.routed_leg_indexes(&event("BTC-PERP")), vec![0]);
    assert!(group.routed_leg_indexes(&event("ETH-PERP")).is_empty());
}

#[test]
fn a_stopped_strategy_hears_nothing_more() {
    let counts = Rc::new(Counts::default());
    let mut engine = Engine::new(EngineConfig::default());
    engine.register_strategy(counting("one", counts.clone()));
    engine.start_strategies();
    assert_eq!(counts.starts.get(), 1);
    let shortage = Event::OrderRejected(OrderRejectedEvent {
        exchange: ExchangeId::new("hyperliquid"),
        instrument: InstrumentId::new("BTC-PERP"),
        client_id: ClientOrderId::new("x"),
        reason: "Insufficient margin to place order".to_string(),
        ts: 0,
    });
    let commands = engine.dispatch_event(&shortage);
    assert!(commands.iter().any(|c| matches!(c, Command::StopStrategy(_))));
    assert!(engine.is_strategy_stopped(&StrategyId::new("one")));
    assert_eq!(counts.stops.get(), 1);
    let heard = counts.events.get();
    engine.dispatch_event(&shortage);
    assert_eq!(counts.events.get(), heard);
    engine.stop_strategies();
    assert_eq!(counts.stops.get(), 1);
}

fn small_runner() -> EngineRunner<CountingStrategy> {
    let instrument = InstrumentId::new("BTC-PERP");
    let mut engine = Engine::new(EngineConfig::default());
    engine.register_strategy(counting("one", Rc::new(Counts::default())));
    engine.register_instrument(instrument_meta(&instrument));
    engine.register_exchange(&testnet());
    let mut runner = EngineRunner::new(engine, RunnerConfig::default());
    runner.add_exchange(testnet());
    runner.add_instrument(instrument);
    runner
}

fn accepted(oid: &str) -> Vec<PlaceOrderResult> {
    vec![PlaceOrderResult::Accepted {
        exchange_order_id: Some(ExchangeOrderId::new(oid)),
        filled_qty: None,
        avg_fill_px: None,
    }]
}

fn trade(id: &str, oid: &str) -> Fill {
    Fill {
        trade_id: TradeId::new(id),
        client_id: None,
        exchange_order_id: Some(ExchangeOrderId::new(oid)),
        instrument: InstrumentId::new("BTC-PERP"),
        side: OrderSide::Buy,
        price: Price::new(Decimal::new(100, 0)),
        qty: Qty::new(Decimal::one()),
        fee: Fee::new(Decimal::new(1, 1), AssetId::new("USDC")),
        ts: 9,
    }
}

#[test]
fn a_fill_is_booked_once() {
    let mut runner = small_runner();
    let instrument = InstrumentId::new("BTC-PERP");
    let cmd = place(&testnet(), &instrument, "a");
    assert!(matches!(runner.begin_place(&cmd, 1), Some(PlaceStart::Send(_))));
    let events = runner.finish_place(cmd, Ok(accepted("77")), 2);
    assert!(matches!(events[0], Event::OrderAccepted(_)));
    let fill = trade("t", "77");
    let id = runner.resolve_fill_client_id(&fill).unwrap();
    assert_eq!(id.as_str(), "a");
    let event = runner.begin_fill(&testnet(), &id, &fill, 3).unwrap();
    assert!(matches!(event, Some(Event::OrderFilled(_))));
    let again = runner.begin_fill(&testnet(), &id, &fill, 3).unwrap();
    assert!(again.is_none());
    assert_eq!(
        runner.engine().state().booked_position(&instrument).qty,
        Decimal::one()
    );
    assert!(matches!(
        runner.finish_fill(&testnet(), &id, 4),
        Some(Event::OrderCompleted(_))
    ));
    assert_eq!(runner.engine().get_fills().len(), 1);
    assert!(runner.count_fill(&fill));
    assert_eq!(runner.stats().volume_traded, Decimal::new(100, 0));
    let results = runner.try_get_backtest_results(&instrument).unwrap();
    assert_eq!(results.fills.len(), 1);
}

#[test]
fn orders_without_a_home_are_refused_or_ignored() {
    let mut runner = small_runner();
    let unknown = place(&testnet(), &InstrumentId::new("DOGE-PERP"), "a");
    match runner.begin_place(&unknown, 1) {
        Some(PlaceStart::Refused(Event::OrderRejected(e))) => {
            assert_eq!(e.reason, "missing instrument meta")
        }
        _ => panic!("nothing is known of the instrument"),
    }
    let elsewhere = ExchangeInstance::new(ExchangeId::new("hyperliquid"), Environment::Mainnet);
    let lost = place(&elsewhere, &InstrumentId::new("BTC-PERP"), "a");
    assert!(matches!(runner.begin_place(&lost, 1), Some(PlaceStart::Ignored)));
    let start = runner.begin_batch(vec![lost], 1).unwrap();
    assert!(start.inputs.is_empty());
    match &start.events[0] {
        Event::OrderRejected(e) => assert_eq!(e.reason, "Exchange not found"),
        _ => panic!("the exchange is not known"),
    }
}

#[test]
fn a_refused_order_is_gone_and_a_deferred_one_stays() {
    let mut runner = small_runner();
    let cmd = place(&testnet(), &InstrumentId::new("BTC-PERP"), "a");
    runner.begin_place(&cmd, 1);
    let events = runner.finish_place(cmd.clone(), Err(ExchangeError::Timeout), 1);
    assert!(matches!(events[0], Event::OrderRejected(_)));
    assert!(!runner.engine().order_manager().contains(&cmd.client_id));
    runner.begin_place(&cmd, 1);
    let events = runner.finish_place(cmd.clone(), Err(action_limit_error(1)), 5);
    assert!(events.is_empty());
    assert!(runner.engine().order_manager().contains(&cmd.client_id));
    assert!(runner.next_retry(5).is_none());
    assert!(matches!(runner.next_retry(6), Some(Command::PlaceOrder(_))));
    assert!(runner.next_retry(6).is_none());
}

#[test]
fn cancels_go_by_the_tracked_order() {
    let mut runner = small_runner();
    let cmd = place(&testnet(), &InstrumentId::new("BTC-PERP"), "a");
    let cancel = CancelOrder::new(testnet(), cmd.client_id.clone());
    assert!(runner.begin_cancel(&cancel).is_none());
    runner.begin_place(&cmd, 1);
    runner.finish_place(cmd.clone(), Ok(accepted("77")), 2);
    let start = runner.begin_cancel(&cancel).unwrap();
    assert_eq!(start.exchange_order_id.unwrap().as_str(), "77");
    let event = runner.finish_cancel(cancel, start.instrument, Ok(()), 3);
    assert!(matches!(event, Some(Event::OrderCanceled(_))));
    assert_eq!(runner.begin_cancel_all(&CancelAll::new(testnet())).len(), 1);
}

#[test]
fn polls_tell_the_health_of_an_exchange() {
    let mut runner = small_runner();
    let instance = testnet();
    runner.fills_polled(&instance, Err(ExchangeError::Unavailable));
    assert!(matches!(
        runner.engine().state().exchange_health(&instance),
        ExchangeHealth::Halted
    ));
    let fills = runner.fills_polled(&instance, Ok(vec![trade("t", "1")]));
    assert_eq!(fills.len(), 1);
    assert!(matches!(
        runner.engine().state().exchange_health(&instance),
        ExchangeHealth::Active
    ));
}

#[test]
fn the_last_stop_gives_the_reason() {
    let mut runner = small_runner();
    assert_eq!(runner.final_reason(), "shutdown:graceful");
    runner.strategy_stopped(&StopStrategy::new(StrategyId::new("one"), "enough"));
    assert!(runner.should_shutdown());
    assert_eq!(runner.final_reason(), "enough");
}

#[test]
fn deferred_cancels_come_before_orders_and_are_kept_once() {
    let mut queue = DeferredQueue::new();
    let order = place(&testnet(), &InstrumentId::new("BTC-PERP"), "a");
    let cancel = || Command::CancelOrder(CancelOrder::new(testnet(), ClientOrderId::new("c")));
    assert!(queue.defer(Command::PlaceOrder(order), 10));
    assert!(queue.defer(cancel(), 10));
    assert!(queue.defer(cancel(), 20));
    assert_eq!(queue.len(), 2);
    assert!(queue.take_next(9).is_none());
    let next = queue.take_next(100).unwrap();
    assert!(matches!(next, Command::CancelOrder(_)));
    assert!(matches!(queue.take_next(100), Some(Command::PlaceOrder(_))));
    assert!(queue.take_next(100).is_none());
}

#[test]
fn a_run_that_is_told_to_stop_ends() {
    let mut facts = Facts {
        exchanges: 2,
        has_instruments: true,
        init_ok: true,
        should_shutdown: false,
        signal: false,
        retried: false,
        backtest_over: false,
    };
    let mut phase = first_phase(2);
    let mut names = Vec::new();
    for _ in 0..40 {
        names.push(format!("{:?}", phase));
        if names.len() == 12 {
            facts.signal = true;
        }
        if matches!(phase, Phase::Done) {
            break;
        }
        phase = next_phase(phase, &facts);
    }
    assert_eq!(names[0], "Init(0)");
    assert_eq!(names[1], "Init(1)");
    assert_eq!(names[2], "Start");
    assert!(names.contains(&"Poll(1)".to_string()));
    assert_eq!(names[names.len() - 1], "Done");
    assert_eq!(names[names.len() - 2], "Results");
    facts.init_ok = false;
    assert!(matches!(next_phase(Phase::Init(0), &facts), Phase::Abort));
}

#[test]
fn a_live_run_outlasts_silence_and_failed_polls() {
    let mut runner = small_runner();
    let instance = testnet();
    let cmd = place(&instance, &InstrumentId::new("BTC-PERP"), "a");
    assert!(matches!(runner.begin_place(&cmd, 1), Some(PlaceStart::Send(_))));
    for _ in 0..10 {
        assert!(runner.can_poll());
        assert!(runner.quotes_polled(&instance, Ok(Vec::new())).is_empty());
    }
    assert!(!runner.backtest_over());
    assert!(runner.quotes_polled(&instance, Err(ExchangeError::Unavailable)).is_empty());
    assert!(runner.quotes_delay_ms() > 0);
    assert!(!runner.should_shutdown());
    assert!(runner.engine().order_manager().get(&cmd.client_id).is_some());
    let quote = Quote {
        instrument: InstrumentId::new("BTC-PERP"),
        bid: Price::new(Decimal::new(99, 0)),
        ask: Price::new(Decimal::new(101, 0)),
        bid_size: Qty::new(Decimal::one()),
        ask_size: Qty::new(Decimal::one()),
        ts: 3,
    };
    assert_eq!(runner.quotes_polled(&instance, Ok(vec![quote])).len(), 1);
    assert_eq!(runner.quotes_delay_ms(), 0);
    assert!(matches!(
        runner.engine().state().exchange_health(&instance),
        ExchangeHealth::Active
    ));
}

struct Watching {
    id: StrategyId,
    mechanism: SyncMechanism,
}

impl Strategy for Watching {
    fn id(&self) -> &StrategyId {
        &self.id
    }

    fn sync_mechanism(&self) -> SyncMechanism {
        self.mechanism
    }

    fn on_start(&mut self, _ctx: &mut EngineContext<'_>) {}

    fn on_event(&mut self, _ctx: &mut EngineContext<'_>, _event: &Event) {}

    fn on_timer(&mut self, _ctx: &mut EngineContext<'_>, _timer_id: TimerId) {}

    fn on_stop(&mut self, _ctx: &mut EngineContext<'_>) {}
}

#[test]
fn a_group_learns_of_fills_as_its_first_child_does() {
    let group = |mechanisms: &[SyncMechanism]| {
        let legs = mechanisms
            .iter()
            .map(|m| {
                let child = Watching {
                    id: StrategyId::new("child"),
                    mechanism: *m,
                };
                OrchestratorLeg::new("leg", InstrumentId::new("BTC-PERP"), child)
            })
            .collect();
        let risk = GroupRiskConfig::disabled(Decimal::new(100, 0));
        BotOrchestrator::new(StrategyId::new("parent"), legs, risk).sync_mechanism()
    };
    assert!(matches!(
        group(&[SyncMechanism::Snapshot, SyncMechanism::Poll]),
        SyncMechanism::Snapshot
    ));
    assert!(matches!(
        group(&[SyncMechanism::Poll, SyncMechanism::Snapshot]),
        SyncMechanism::Poll
    ));
    assert!(matches!(group(&[]), SyncMechanism::Poll));
}

/// Notes every call, and sets and cancels timers when it starts.
struct Clockwork {
    id: StrategyId,
    log: Rc<std::cell::RefCell<Vec<String>>>,
    delays: Vec<(u64, bool)>,
    stop_on_event: usize,
    stop_on_timer: bool,
}

impl Clockwork {
    fn note(&self, what: &str) {
        self.log.borrow_mut().push(format!("{} {}", self.id.as_str(), what));
    }
}

impl Strategy for Clockwork {
    fn id(&self) -> &StrategyId {
        &self.id
    }

    fn sync_mechanism(&self) -> SyncMechanism {
        SyncMechanism::Poll
    }

    fn on_start(&mut self, ctx: &mut EngineContext<'_>) {
        self.note("start");
        for (delay, repeating) in &self.delays {
            if *repeating {
                ctx.set_interval(*delay);
            } else {
                ctx.set_timer(*delay);
            }
        }
    }

    fn on_event(&mut self, ctx: &mut EngineContext<'_>, _event: &Event) {
        self.note("event");
        for _ in 0..self.stop_on_event {
            ctx.stop_strategy(self.id.clone(), "enough");
        }
    }

    fn on_timer(&mut self, ctx: &mut EngineContext<'_>, timer_id: TimerId) {
        self.note(&format!("timer {}", timer_id.0));
        if self.stop_on_timer {
            ctx.stop_strategy(self.id.clone(), "time is up");
        }
    }

    fn on_stop(&mut self, _ctx: &mut EngineContext<'_>) {
        self.note("stop");
    }
}

fn clockwork(
    id: &str,
    log: &Rc<std::cell::RefCell<Vec<String>>>,
    delays: Vec<(u64, bool)>,
) -> Clockwork {
    Clockwork {
        id: StrategyId::new(id),
        log: log.clone(),
        delays,
        stop_on_event: 0,
        stop_on_timer: false,
    }
}

fn quote_event() -> Event {
    Event::OrderRejected(OrderRejectedEvent {
        exchange: ExchangeId::new("hyperliquid"),
        instrument: InstrumentId::new("BTC-PERP"),
        client_id: ClientOrderId::new("x"),
        reason: "no".to_string(),
        ts: 0,
    })
}

#[test]
fn a_strategy_that_asks_twice_is_stopped_once() {
    let log = Rc::new(std::cell::RefCell::new(Vec::new()));
    let mut engine = Engine::new(EngineConfig::default());
    let mut eager = clockwork("eager", &log, vec![]);
    eager.stop_on_event = 2;
    engine.register_strategy(eager);
    engine.register_strategy(clockwork("calm", &log, vec![]));
    let commands = engine.dispatch_event_at(&quote_event(), 5);
    assert_eq!(
        commands.iter().filter(|c| matches!(c, Command::StopStrategy(_))).count(),
        2
    );
    assert_eq!(*log.borrow(), vec!["eager event", "calm event", "eager stop"]);
    assert!(engine.is_strategy_stopped(&StrategyId::new("eager")));
    engine.dispatch_event_at(&quote_event(), 6);
    engine.stop_strategies_at(7);
    engine.stop_strategies_at(8);
    assert_eq!(
        log.borrow()[3..],
        ["calm event".to_string(), "calm stop".to_string()]
    );
}

#[test]
fn a_timer_fires_when_it_is_due() {
    let log = Rc::new(std::cell::RefCell::new(Vec::new()));
    let mut engine = Engine::new(EngineConfig::default());
    engine.register_strategy(clockwork("a", &log, vec![(100, false), (40, true)]));
    engine.start_strategies_at(1_000);
    engine.fire_timers(1_039);
    assert_eq!(log.borrow().len(), 1);
    engine.fire_timers(1_040);
    assert_eq!(log.borrow()[1..], ["a timer 2".to_string()]);
    engine.fire_timers(1_079);
    assert_eq!(log.borrow().len(), 2);
    engine.fire_timers(1_100);
    assert_eq!(
        log.borrow()[2..],
        ["a timer 1".to_string(), "a timer 2".to_string()]
    );
    engine.fire_timers(1_139);
    assert_eq!(log.borrow().len(), 4);
    engine.fire_timers(9_000);
    assert_eq!(log.borrow()[4..], ["a timer 2".to_string()]);
}

#[test]
fn a_timer_of_a_stopped_strategy_is_dropped() {
    let log = Rc::new(std::cell::RefCell::new(Vec::new()));
    let mut engine = Engine::new(EngineConfig::default());
    let mut a = clockwork("a", &log, vec![(10, true), (10, false)]);
    a.stop_on_timer = true;
    engine.register_strategy(a);
    engine.start_strategies_at(0);
    let commands = engine.fire_timers(10);
    assert_eq!(*log.borrow(), vec!["a start", "a timer 1", "a stop"]);
    assert!(matches!(
        &commands[..],
        [Command::StopStrategy(s)] if s.reason == "time is up"
    ));
    assert_eq!(engine.fire_timers(1_000).len(), 0);
    assert_eq!(log.borrow().len(), 3);
}

#[test]
fn the_timer_of_a_group_heeds_its_time() {
    let counts = Rc::new(Counts::default());
    let mut engine = Engine::new(EngineConfig::default());
    engine.register_strategy(orchestrator(
        counts.clone(),
        OrchestratorConditions {
            risk_conditions: vec![OrchestratorCondition::MaxRunningTime { secs: 2 }],
            ..Default::default()
        },
    ));
    engine.start_strategies_at(0);
    assert_eq!(counts.starts.get(), 1);
    assert_eq!(engine.fire_timers(1_000).len(), 0);
    assert_eq!(counts.stops.get(), 0);
    let commands = engine.fire_timers(2_000);
    assert_eq!(counts.stops.get(), 1);
    assert!(matches!(&commands[..], [Command::StopStrategy(_)]));
    assert!(engine.is_strategy_stopped(&StrategyId::new("parent")));
}

#[test]
fn every_round_fires_the_timers() {
    let mut facts = Facts {
        exchanges: 0,
        has_instruments: false,
        init_ok: true,
        should_shutdown: false,
        signal: false,
        retried: true,
        backtest_over: false,
    };
    let mut phase = Phase::Check;
    let mut steps = 0;
    while phase != Phase::Timers {
        phase = next_phase(phase, &facts);
        steps += 1;
    }
    assert!(steps > 2);
    facts.exchanges = 1;
    assert_eq!(next_phase(phase, &facts), Phase::Poll(0));
}

#[test]
fn a_shortage_stops_a_strategy_for_good() {
    for (reason, told) in [
        ("Insufficient margin to place order", true),
        ("no", false),
    ] {
        let counts = Rc::new(Counts::default());
        let mut engine = Engine::new(EngineConfig::default());
        engine.register_strategy(counting("one", counts.clone()));
        engine.start_strategies_at(0);
        let refused = Event::OrderRejected(OrderRejectedEvent {
            exchange: ExchangeId::new("hyperliquid"),
            instrument: InstrumentId::new("BTC-PERP"),
            client_id: ClientOrderId::new("x"),
            reason: reason.to_string(),
            ts: 0,
        });
        let first = engine.dispatch_event_at(&refused, 1);
        assert_eq!(first.iter().any(|c| matches!(c, Command::StopStrategy(_))), told);
        let heard = counts.events.get();
        for now in 2..7 {
            let event = if now % 2 == 0 { quote_event() } else { refused.clone() };
            let later = engine.dispatch_event_at(&event, now);
            assert!(!later.iter().any(|c| matches!(c, Command::StopStrategy(_))));
            assert_eq!(engine.is_strategy_stopped(&StrategyId::new("one")), told);
        }
        assert_eq!(counts.events.get(), if told { heard } else { heard + 5 });
        assert_eq!(counts.stops.get(), if told { 1 } else { 0 });
    }
}
