//! Strategies, and what they act on: they read the state of the engine and collect commands.
use vstd::prelude::*;
use vstd::string::*;
use crate::strmap;
use crate::inventory;
use crate::commands::{CancelAll, CancelOrder, PlaceOrder, StopStrategy};
use crate::events::Event;
use crate::state::{EngineState, StateView};
use crate::types::{AssetId, Balance, ClientOrderId, ExchangeHealth, ExchangeInstance, InstrumentId, InstrumentMeta, LiveOrder, Position, Price, Quote, StrategyId, SyncMechanism, TimerId};

verus! {

/// The middle price of an instrument, where it has a quote.
pub open spec fn middle_of(books: StateView, instrument: InstrumentId) -> Option<Price> {
    match strmap::lookup(books.quotes, instrument@) {
        Some(q) => match q.mid_of() {
            Some(m) => Some(Price(m)),
            None => None,
        },
        None => None,
    }
}

/// Why a strategy is called.
pub enum Call {
    Start,
    Event(Event),
    Timer(TimerId),
    Stop,
}

/// What every strategy implements. A strategy receives events and asks for orders through its
/// context; it does nothing else.
pub trait Strategy {
    /// The id that the strategy answers, which it says itself.
    open spec fn name(&self) -> StrategyId {
        arbitrary()
    }

    /// The mechanism that the strategy answers.
    open spec fn mechanism(&self) -> SyncMechanism {
        SyncMechanism::Poll
    }

    /// What a call of the strategy can do: with the context `seen` it turns the strategy into
    /// `after` and the context into `left`. Whoever calls it says by this that it was called. A
    /// strategy that says nothing of itself may do anything.
    open spec fn acts(
        &self,
        call: Call,
        seen: EngineContext<'_>,
        after: &Self,
        left: EngineContext<'_>,
    ) -> bool {
        true
    }

    /// The id of this strategy.
    fn id(&self) -> (r: &StrategyId)
        ensures
            *r == self.name(),
    ;

    /// How the strategy learns what was executed.
    fn sync_mechanism(&self) -> (r: SyncMechanism)
        ensures
            r == self.mechanism(),
    ;

    /// Called once when the strategy is started.
    fn on_start(&mut self, ctx: &mut EngineContext<'_>)
        ensures
            old(self).acts(Call::Start, *old(ctx), final(self), *final(ctx)),
    ;

    /// Called for every event.
    fn on_event(&mut self, ctx: &mut EngineContext<'_>, event: &Event)
        ensures
            old(self).acts(Call::Event(*event), *old(ctx), final(self), *final(ctx)),
    ;

    /// Called when a timer fires.
    fn on_timer(&mut self, ctx: &mut EngineContext<'_>, timer_id: TimerId)
        ensures
            old(self).acts(Call::Timer(timer_id), *old(ctx), final(self), *final(ctx)),
    ;

    /// Called once when the strategy is stopped.
    fn on_stop(&mut self, ctx: &mut EngineContext<'_>)
        ensures
            old(self).acts(Call::Stop, *old(ctx), final(self), *final(ctx)),
    ;
}

/// A timer that a strategy asks for.
#[derive(Debug, Clone, Copy)]
pub struct PendingTimer {
    pub id: TimerId,
    pub delay_ms: u64,
    pub repeating: bool,
}

/// A timer that is set.
#[derive(Debug, Clone, Copy)]
pub struct TimerHandle {
    pub id: TimerId,
}

/// The commands that a strategy gave.
#[derive(Debug)]
pub struct Captured {
    pub place_orders: Vec<PlaceOrder>,
    pub batch_orders: Vec<Vec<PlaceOrder>>,
    pub cancel_orders: Vec<CancelOrder>,
    pub cancel_alls: Vec<CancelAll>,
    pub stop_requests: Vec<StopStrategy>,
}

/// The commands that a strategy gave, as plain values.
pub struct Asked {
    pub places: Seq<PlaceOrder>,
    pub batches: Seq<Vec<PlaceOrder>>,
    pub cancels: Seq<CancelOrder>,
    pub alls: Seq<CancelAll>,
    pub stops: Seq<StopStrategy>,
}

/// The batches that are not empty.
pub open spec fn filled_batches(s: Seq<Vec<PlaceOrder>>) -> Seq<Vec<PlaceOrder>>
    decreases s.len(),
{
    if s.len() == 0 {
        s
    } else if s.last()@.len() == 0 {
        filled_batches(s.drop_last())
    } else {
        filled_batches(s.drop_last()).push(s.last())
    }
}

impl Asked {
    /// These commands and, behind them, those of a child other than stops.
    pub open spec fn with(self, more: Asked) -> Asked {
        Asked {
            places: self.places + more.places,
            batches: self.batches + filled_batches(more.batches),
            cancels: self.cancels + more.cancels,
            alls: self.alls + more.alls,
            ..self
        }
    }

    /// Some of the commands are `other`, in front of the rest.
    pub open spec fn extends(self, other: Asked) -> bool {
        &&& other.places.is_prefix_of(self.places)
        &&& other.batches.is_prefix_of(self.batches)
        &&& other.cancels.is_prefix_of(self.cancels)
        &&& other.alls.is_prefix_of(self.alls)
        &&& other.stops.is_prefix_of(self.stops)
    }
}

impl Captured {
    /// The commands as plain values.
    pub open spec fn asked(self) -> Asked {
        Asked {
            places: self.place_orders@,
            batches: self.batch_orders@,
            cancels: self.cancel_orders@,
            alls: self.cancel_alls@,
            stops: self.stop_requests@,
        }
    }

    /// No command was given.
    pub open spec fn is_empty(self) -> bool {
        &&& self.place_orders@.len() == 0
        &&& self.batch_orders@.len() == 0
        &&& self.cancel_orders@.len() == 0
        &&& self.cancel_alls@.len() == 0
        &&& self.stop_requests@.len() == 0
    }

    /// No command.
    pub fn new() -> (r: Captured)
        ensures
            r.is_empty(),
    {
        Captured {
            place_orders: Vec::new(),
            batch_orders: Vec::new(),
            cancel_orders: Vec::new(),
            cancel_alls: Vec::new(),
            stop_requests: Vec::new(),
        }
    }
}

/// What a strategy acts on.
pub struct EngineContext<'a> {
    pub commands: Captured,
    pub timers: Vec<PendingTimer>,
    pub canceled_timers: Vec<TimerId>,
    pub state: &'a EngineState,
    pub now_ms: i64,
    /// The id of the next timer. Without one the timers are those of a parent.
    pub next_timer: Option<u64>,
}

impl<'a> EngineContext<'a> {
    /// The state that can be read.
    pub open spec fn books(&self) -> EngineState {
        *self.state
    }

    /// The current time.
    pub open spec fn time(&self) -> i64 {
        self.now_ms
    }

    /// The id of the next timer.
    pub open spec fn timer(&self) -> Option<u64> {
        self.next_timer
    }

    /// What `other` shows besides what a strategy asks for.
    pub open spec fn reads_as(&self, other: EngineContext<'a>) -> bool {
        self.books() == other.books() && self.time() == other.time()
    }

    /// The same context but for the commands.
    pub open spec fn differs_in_commands(&self, other: EngineContext<'a>) -> bool {
        &&& self.reads_as(other)
        &&& self.timers == other.timers
        &&& self.canceled_timers == other.canceled_timers
        &&& self.timer() == other.timer()
    }

    /// A context in which nothing was asked for yet.
    pub fn new(state: &'a EngineState, now_ms: i64, next_timer: u64) -> (r: EngineContext<'a>)
        ensures
            r.commands.is_empty(),
            r.timers@.len() == 0,
            r.canceled_timers@.len() == 0,
            r.books() == *state,
            r.time() == now_ms,
            r.timer() == Some(next_timer),
    {
        EngineContext {
            commands: Captured::new(),
            timers: Vec::new(),
            canceled_timers: Vec::new(),
            state,
            now_ms,
            next_timer: Some(next_timer),
        }
    }

    /// A context for a child of the strategy: it reads the same, but its timers are those of
    /// the parent.
    pub fn child(&self) -> (r: EngineContext<'a>)
        ensures
            r.commands.is_empty(),
            r.timers@.len() == 0,
            r.canceled_timers@.len() == 0,
            r.reads_as(*self),
            r.timer() == None::<u64>,
    {
        EngineContext {
            commands: Captured::new(),
            timers: Vec::new(),
            canceled_timers: Vec::new(),
            state: self.state,
            now_ms: self.now_ms,
            next_timer: None,
        }
    }

    /// Takes all the commands.
    pub fn take_commands(&mut self) -> (r: Captured)
        ensures
            r == old(self).commands,
            final(self).commands.is_empty(),
            final(self).timers == old(self).timers,
            final(self).canceled_timers == old(self).canceled_timers,
            final(self).reads_as(*old(self)),
            final(self).timer() == old(self).timer(),
    {
        let mut r = Captured::new();
        std::mem::swap(&mut self.commands, &mut r);
        r
    }

    /// Takes the timers that were set and canceled.
    pub fn take_timers(&mut self) -> (r: (Vec<PendingTimer>, Vec<TimerId>))
        ensures
            r.0 == old(self).timers,
            r.1 == old(self).canceled_timers,
            final(self).timers@.len() == 0,
            final(self).canceled_timers@.len() == 0,
            final(self).commands == old(self).commands,
            final(self).reads_as(*old(self)),
            final(self).timer() == old(self).timer(),
    {
        let mut timers: Vec<PendingTimer> = Vec::new();
        let mut canceled: Vec<TimerId> = Vec::new();
        std::mem::swap(&mut self.timers, &mut timers);
        std::mem::swap(&mut self.canceled_timers, &mut canceled);
        (timers, canceled)
    }

    /// The id of the next timer, for the next context.
    pub fn timer_count(&self) -> (r: u64)
        ensures
            r == (match self.timer() {
                Some(n) => n,
                None => 0,
            }),
    {
        match self.next_timer {
            Some(n) => n,
            None => 0,
        }
    }

    /// Passes the commands of a child on, other than stops.
    pub fn pass_on(&mut self, child: Captured) -> (r: Vec<StopStrategy>)
        ensures
            r == child.stop_requests,
            final(self).commands.asked() == old(self).commands.asked().with(child.asked()),
            final(self).timers == old(self).timers,
            final(self).canceled_timers == old(self).canceled_timers,
            final(self).reads_as(*old(self)),
            final(self).timer() == old(self).timer(),
    {
        let ghost before = self.commands.asked();
        let ghost more = child.asked();
        for x in it: child.place_orders
            invariant
                it.seq() == more.places,
                self.commands.asked() == (Asked {
                    places: before.places + more.places.subrange(0, it.index() as int),
                    ..before
                }),
                self.timers == old(self).timers,
                self.canceled_timers == old(self).canceled_timers,
                self.reads_as(*old(self)),
                self.timer() == old(self).timer(),
        {
            self.place_order(x);
            assert(before.places + more.places.subrange(0, it.index() + 1) =~= (before.places
                + more.places.subrange(0, it.index() as int)).push(x));
        }
        let ghost s1 = self.commands.asked();
        assert(s1.places =~= before.places + more.places);
        assert(more.batches.subrange(0, 0) =~= Seq::empty());
        for x in it: child.batch_orders
            invariant
                it.seq() == more.batches,
                self.commands.asked() == (Asked {
                    batches: before.batches + filled_batches(
                        more.batches.subrange(0, it.index() as int),
                    ),
                    ..s1
                }),
                self.timers == old(self).timers,
                self.canceled_timers == old(self).canceled_timers,
                self.reads_as(*old(self)),
                self.timer() == old(self).timer(),
        {
            let ghost s0 = self.commands.asked().batches;
            assert(more.batches.subrange(0, it.index() + 1).drop_last() =~= more.batches.subrange(
                0,
                it.index() as int,
            ));
            self.place_orders(x);
            assert(before.batches + filled_batches(more.batches.subrange(0, it.index() + 1))
                =~= self.commands.asked().batches);
        }
        let ghost s2 = self.commands.asked();
        assert(more.batches.subrange(0, more.batches.len() as int) =~= more.batches);
        for x in it: child.cancel_orders
            invariant
                it.seq() == more.cancels,
                self.commands.asked() == (Asked {
                    cancels: before.cancels + more.cancels.subrange(0, it.index() as int),
                    ..s2
                }),
                self.timers == old(self).timers,
                self.canceled_timers == old(self).canceled_timers,
                self.reads_as(*old(self)),
                self.timer() == old(self).timer(),
        {
            self.cancel_order(x);
            assert(before.cancels + more.cancels.subrange(0, it.index() + 1) =~= (before.cancels
                + more.cancels.subrange(0, it.index() as int)).push(x));
        }
        let ghost s3 = self.commands.asked();
        assert(s3.cancels =~= before.cancels + more.cancels);
        for x in it: child.cancel_alls
            invariant
                it.seq() == more.alls,
                self.commands.asked() == (Asked {
                    alls: before.alls + more.alls.subrange(0, it.index() as int),
                    ..s3
                }),
                self.timers == old(self).timers,
                self.canceled_timers == old(self).canceled_timers,
                self.reads_as(*old(self)),
                self.timer() == old(self).timer(),
        {
            self.cancel_all(x);
            assert(before.alls + more.alls.subrange(0, it.index() + 1) =~= (before.alls
                + more.alls.subrange(0, it.index() as int)).push(x));
        }
        assert(self.commands.asked().alls =~= before.alls + more.alls);
        assert(self.commands.asked().batches =~= before.batches + filled_batches(more.batches));
        child.stop_requests
    }

    /// Asks for an order.
    pub fn place_order(&mut self, cmd: PlaceOrder)
        ensures
            final(self).commands.place_orders@ == old(self).commands.place_orders@.push(cmd),
            (Captured {
                place_orders: old(self).commands.place_orders,
                ..final(self).commands
            }) == old(self).commands,
            final(self).timers == old(self).timers,
            final(self).canceled_timers == old(self).canceled_timers,
            final(self).reads_as(*old(self)),
            final(self).timer() == old(self).timer(),
    {
        self.commands.place_orders.push(cmd);
    }

    /// Asks for several orders at once; an empty batch asks for nothing.
    pub fn place_orders(&mut self, cmds: Vec<PlaceOrder>)
        ensures
            final(self).commands.batch_orders@ == (if cmds@.len() == 0 {
                old(self).commands.batch_orders@
            } else {
                old(self).commands.batch_orders@.push(cmds)
            }),
            (Captured {
                batch_orders: old(self).commands.batch_orders,
                ..final(self).commands
            }) == old(self).commands,
            final(self).timers == old(self).timers,
            final(self).canceled_timers == old(self).canceled_timers,
            final(self).reads_as(*old(self)),
            final(self).timer() == old(self).timer(),
    {
        if cmds.len() > 0 {
            self.commands.batch_orders.push(cmds);
        }
    }

    /// Asks to cancel an order.
    pub fn cancel_order(&mut self, cmd: CancelOrder)
        ensures
            final(self).commands.cancel_orders@ == old(self).commands.cancel_orders@.push(cmd),
            (Captured {
                cancel_orders: old(self).commands.cancel_orders,
                ..final(self).commands
            }) == old(self).commands,
            final(self).timers == old(self).timers,
            final(self).canceled_timers == old(self).canceled_timers,
            final(self).reads_as(*old(self)),
            final(self).timer() == old(self).timer(),
    {
        self.commands.cancel_orders.push(cmd);
    }

    /// Asks to cancel all orders.
    pub fn cancel_all(&mut self, cmd: CancelAll)
        ensures
            final(self).commands.cancel_alls@ == old(self).commands.cancel_alls@.push(cmd),
            (Captured {
                cancel_alls: old(self).commands.cancel_alls,
                ..final(self).commands
            }) == old(self).commands,
            final(self).timers == old(self).timers,
            final(self).canceled_timers == old(self).canceled_timers,
            final(self).reads_as(*old(self)),
            final(self).timer() == old(self).timer(),
    {
        self.commands.cancel_alls.push(cmd);
    }

    /// Asks to stop a strategy.
    pub fn stop_strategy(&mut self, strategy_id: StrategyId, reason: &str)
        ensures
            ({
                let stops = final(self).commands.stop_requests@;
                &&& stops.len() == old(self).commands.stop_requests@.len() + 1
                &&& stops.drop_last() == old(self).commands.stop_requests@
                &&& stops.last().strategy_id == strategy_id
                &&& stops.last().reason@ == reason@
            }),
            (Captured {
                stop_requests: old(self).commands.stop_requests,
                ..final(self).commands
            }) == old(self).commands,
            final(self).timers == old(self).timers,
            final(self).canceled_timers == old(self).canceled_timers,
            final(self).reads_as(*old(self)),
            final(self).timer() == old(self).timer(),
    {
        self.commands.stop_requests.push(StopStrategy::new(strategy_id, reason));
        assert(self.commands.stop_requests@.drop_last() =~= old(self).commands.stop_requests@);
    }

    /// Sets a timer. A child gets the id zero and no timer of its own.
    fn add_timer(&mut self, delay_ms: u64, repeating: bool) -> (r: TimerId)
        ensures
            final(self).set_after(*old(self), r, delay_ms, repeating),
    {
        match self.next_timer {
            Some(n) => {
                let id = TimerId::new(n);
                self.next_timer = Some(n.wrapping_add(1));
                self.timers.push(PendingTimer { id, delay_ms, repeating });
                id
            },
            None => TimerId::new(0),
        }
    }

    /// The timer `id` was set after `before`, with the next free id. For a child nothing
    /// was set and the id is zero.
    pub open spec fn set_after(
        &self,
        before: EngineContext<'a>,
        id: TimerId,
        delay_ms: u64,
        repeating: bool,
    ) -> bool {
        &&& self.commands == before.commands
        &&& self.canceled_timers == before.canceled_timers
        &&& self.reads_as(before)
        &&& match before.timer() {
            Some(n) => {
                &&& id == TimerId(n)
                &&& self.timer() == Some(n.wrapping_add(1))
                &&& self.timers@ == before.timers@.push(PendingTimer { id, delay_ms, repeating })
            },
            None => id == TimerId(0) && self.timer() is None && self.timers == before.timers,
        }
    }

    /// Sets a timer that fires once.
    pub fn set_timer(&mut self, delay_ms: u64) -> (r: TimerId)
        ensures
            final(self).set_after(*old(self), r, delay_ms, false),
    {
        self.add_timer(delay_ms, false)
    }

    /// Sets a timer that fires again and again.
    pub fn set_interval(&mut self, interval_ms: u64) -> (r: TimerId)
        ensures
            final(self).set_after(*old(self), r, interval_ms, true),
    {
        self.add_timer(interval_ms, true)
    }

    /// Cancels a timer. For a child this does nothing.
    pub fn cancel_timer(&mut self, timer_id: TimerId)
        ensures
            final(self).canceled_timers@ == (if old(self).timer() is Some {
                old(self).canceled_timers@.push(timer_id)
            } else {
                old(self).canceled_timers@
            }),
            final(self).commands == old(self).commands,
            final(self).timers == old(self).timers,
            final(self).reads_as(*old(self)),
            final(self).timer() == old(self).timer(),
    {
        if self.next_timer.is_some() {
            self.canceled_timers.push(timer_id);
        }
    }

    /// The middle price of an instrument, where it has a quote and no step is too large.
    pub fn mid_price(&self, instrument: &InstrumentId) -> (r: Option<Price>)
        ensures
            r == middle_of(self.books()@, *instrument),
    {
        match self.state.quote(instrument) {
            Some(q) => q.try_mid(),
            None => None,
        }
    }

    /// The quote of an instrument.
    pub fn quote(&self, instrument: &InstrumentId) -> (r: Option<Quote>)
        ensures
            r == strmap::lookup(self.books()@.quotes, instrument@),
    {
        match self.state.quote(instrument) {
            Some(q) => Some(q.clone()),
            None => None,
        }
    }

    /// What is known of an instrument.
    pub fn instrument_meta(&self, instrument: &InstrumentId) -> (r: Option<&InstrumentMeta>)
        ensures
            r == (match strmap::lookup(self.books()@.instruments, instrument@) {
                Some(m) => Some(&m),
                None => None,
            }),
    {
        self.state.instrument_meta(instrument)
    }

    /// The balance of an asset, where no step is too large.
    pub fn balance(&self, asset: &AssetId) -> (r: Option<Balance>)
        ensures
            r == inventory::account(self.books()@.inventory.accounts, *asset).balance(),
    {
        self.state.inventory().try_balance(asset)
    }

    /// What is held of an instrument at its quote, where no step is too large.
    pub fn position(&self, instrument: &InstrumentId) -> (r: Option<Position>)
        ensures
            r == self.books()@.marked(*instrument),
    {
        self.state.try_position(instrument)
    }

    /// The health of an exchange.
    pub fn exchange_health(&self, exchange: &ExchangeInstance) -> (r: ExchangeHealth)
        ensures
            r == self.books()@.health_of(*exchange),
    {
        self.state.exchange_health(exchange)
    }

    /// An order.
    pub fn order(&self, client_id: &ClientOrderId) -> (r: Option<&LiveOrder>)
        ensures
            r == (match self.books()@.orders.order(*client_id) {
                Some(o) => Some(&o),
                None => None,
            }),
    {
        self.state.order_manager().get(client_id)
    }

    /// The current time.
    pub fn now_ms(&self) -> (r: i64)
        ensures
            r == self.time(),
    {
        self.now_ms
    }
}

} // verus!
