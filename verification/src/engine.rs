//! The trading engine: it hands events to the strategies and gathers what they ask for.
use vstd::prelude::*;
use vstd::string::*;
use crate::text;
use crate::strmap;
use crate::state;
use crate::commands::{CancelAll, CancelOrder, Command, PlaceOrder, StopStrategy};
use crate::context::{Call, Captured, EngineContext, PendingTimer, Strategy};
use crate::decimal::Decimal;
use crate::events::{Event, OrderFilledEvent};
use crate::inventory::InventoryLedger;
use crate::order_manager::OrderManager;
use crate::state::{EngineState, StateView};
use crate::strmap::StrMap;
use crate::text::{contains_text, join3};
use crate::types::{ExchangeHealth, ExchangeInstance, InstrumentId, InstrumentMeta, OrderSide, Position, Price, Qty, Quote, StrategyId, SyncMechanism, TimerId, now_ms};

verus! {

/// How the engine is paced.
#[derive(Debug, Clone, Copy)]
pub struct EngineConfig {
    pub min_poll_delay_ms: u64,
    /// In hundredths.
    pub backoff_multiplier_pct: u64,
    pub max_backoff_ms: u64,
}

impl Default for EngineConfig {
    fn default() -> (r: EngineConfig)
        ensures
            r == (EngineConfig {
                min_poll_delay_ms: 500,
                backoff_multiplier_pct: 200,
                max_backoff_ms: 30_000,
            }),
    {
        EngineConfig { min_poll_delay_ms: 500, backoff_multiplier_pct: 200, max_backoff_ms: 30_000 }
    }
}

/// Why a rejected order stops the bot: funds or margin do not suffice, or the order is too
/// small, or the wallet may no longer trade.
pub open spec fn safety_reasons(event: Event, strategy_id: StrategyId) -> Seq<Seq<char>> {
    match event {
        Event::OrderRejected(r) => {
            let shortage = if text::has_text(r.reason@, "Insufficient margin"@) {
                Some("margin"@)
            } else if text::has_text(r.reason@, "Insufficient spot balance"@) {
                Some("balance"@)
            } else if text::has_text(r.reason@, "minimum value"@) {
                Some("min_order_value"@)
            } else {
                None
            };
            (match shortage {
                Some(what) => seq![
                    "Insufficient "@ + what + " to place order. Last rejected order: "@
                        + r.client_id@ + " - "@ + r.reason@,
                ],
                None => Seq::empty(),
            }) + (if text::has_text(r.reason@, "User or API Wallet"@) {
                seq!["API wallet expired for strategy "@ + strategy_id@ + " - stopping bot"@]
            } else {
                Seq::empty()
            })
        },
        _ => Seq::empty(),
    }
}

/// The reasons for which a rejected order stops the bot.
pub fn safety_stops(event: &Event, strategy_id: &StrategyId) -> (r: Vec<String>)
    ensures
        r@.map_values(|s: String| s@) == safety_reasons(*event, *strategy_id),
{
    let mut out: Vec<String> = Vec::new();
    if let Event::OrderRejected(rejection) = event {
        let reason = rejection.reason.as_str();
        let shortage = if contains_text(reason, "Insufficient margin") {
            Some("margin")
        } else if contains_text(reason, "Insufficient spot balance") {
            Some("balance")
        } else if contains_text(reason, "minimum value") {
            Some("min_order_value")
        } else {
            None
        };
        if let Some(what) = shortage {
            out.push(
                join3("Insufficient ", what, " to place order. Last rejected order: ").concat(
                    rejection.client_id.as_str(),
                ).concat(" - ").concat(reason),
            );
        }
        if contains_text(reason, "User or API Wallet") {
            out.push(
                join3("API wallet expired for strategy ", strategy_id.as_str(), " - stopping bot"),
            );
        }
    }
    assert(out@.map_values(|s: String| s@) =~= safety_reasons(*event, *strategy_id));
    out
}

/// The commands of a strategy other than stops, in the order in which they are carried out.
pub open spec fn commands_of(c: Captured) -> Seq<Command> {
    c.place_orders@.map_values(|x: PlaceOrder| Command::PlaceOrder(x)) + c.batch_orders@.map_values(
        |x: Vec<PlaceOrder>| Command::PlaceOrders(x),
    ) + c.cancel_orders@.map_values(|x: CancelOrder| Command::CancelOrder(x))
        + c.cancel_alls@.map_values(|x: CancelAll| Command::CancelAll(x))
}

/// The stops that a strategy asks for itself.
pub open spec fn own_stops(c: Seq<StopStrategy>, id: StrategyId) -> Seq<StopStrategy> {
    c.filter(|s: StopStrategy| s.strategy_id@ == id@)
}

/// Puts the commands of a strategy other than stops behind those in `out`, and gives back the
/// stops.
pub fn gather(out: &mut Vec<Command>, captured: Captured) -> (r: Vec<StopStrategy>)
    ensures
        final(out)@ == old(out)@ + commands_of(captured),
        r == captured.stop_requests,
{
    let ghost all = commands_of(captured);
    let ghost b1 = out@;
    let ghost c1 = captured.place_orders@.map_values(|x: PlaceOrder| Command::PlaceOrder(x));
    let ghost c2 = captured.batch_orders@.map_values(
        |x: Vec<PlaceOrder>| Command::PlaceOrders(x),
    );
    let ghost c3 = captured.cancel_orders@.map_values(|x: CancelOrder| Command::CancelOrder(x));
    let ghost c4 = captured.cancel_alls@.map_values(|x: CancelAll| Command::CancelAll(x));
    for x in it: captured.place_orders
        invariant
            it.seq().map_values(|x: PlaceOrder| Command::PlaceOrder(x)) == c1,
            out@ == b1 + c1.subrange(0, it.index() as int),
    {
        out.push(Command::PlaceOrder(x));
    }
    let ghost b2 = out@;
    for x in it: captured.batch_orders
        invariant
            it.seq().map_values(|x: Vec<PlaceOrder>| Command::PlaceOrders(x)) == c2,
            out@ == b2 + c2.subrange(0, it.index() as int),
    {
        out.push(Command::PlaceOrders(x));
    }
    let ghost b3 = out@;
    for x in it: captured.cancel_orders
        invariant
            it.seq().map_values(|x: CancelOrder| Command::CancelOrder(x)) == c3,
            out@ == b3 + c3.subrange(0, it.index() as int),
    {
        out.push(Command::CancelOrder(x));
    }
    let ghost b4 = out@;
    for x in it: captured.cancel_alls
        invariant
            it.seq().map_values(|x: CancelAll| Command::CancelAll(x)) == c4,
            out@ == b4 + c4.subrange(0, it.index() as int),
    {
        out.push(Command::CancelAll(x));
    }
    assert(out@ =~= old(out)@ + all);
    captured.stop_requests
}

/// A strategy that is to be stopped, by its place, and why.
#[derive(Debug)]
pub struct PendingStop {
    pub index: usize,
    pub reason: String,
}

/// What an event has set off so far.
#[derive(Debug)]
pub struct DispatchRound {
    pub commands: Vec<Command>,
    pub to_stop: Vec<PendingStop>,
}

/// The command stops the strategy for the reason.
pub open spec fn is_stop(c: Command, id: StrategyId, reason: Seq<char>) -> bool {
    c matches Command::StopStrategy(s) && s.strategy_id == id && s.reason@ == reason
}

/// The commands after a strategy acted: the stops that the engine orders itself, then the
/// commands of the strategy, then the stops that it asks for itself.
pub open spec fn replied(
    before: Seq<Command>,
    after: Seq<Command>,
    id: StrategyId,
    reasons: Seq<Seq<char>>,
    c: Captured,
) -> bool {
    let own = own_stops(c.stop_requests@, id);
    let q = reasons.len() as int;
    let n = before.len() as int;
    let m = commands_of(c).len() as int;
    &&& after.len() == n + q + m + own.len()
    &&& after.subrange(0, n) == before
    &&& forall|i: int| 0 <= i < q ==> is_stop(#[trigger] after[n + i], id, reasons[i])
    &&& after.subrange(n + q, n + q + m) == commands_of(c)
    &&& forall|i: int|
        0 <= i < own.len() ==> #[trigger] after[n + q + m + i] == Command::StopStrategy(own[i])
}

/// All the reasons to stop a strategy: those of the engine, then its own.
pub open spec fn stop_reasons(reasons: Seq<Seq<char>>, c: Captured, id: StrategyId) -> Seq<
    Seq<char>,
> {
    reasons + own_stops(c.stop_requests@, id).map_values(|s: StopStrategy| s.reason@)
}

/// Where there is a reason, the strategy is to be stopped, once, for the first one.
pub open spec fn noted(
    before: Seq<PendingStop>,
    after: Seq<PendingStop>,
    index: int,
    reasons: Seq<Seq<char>>,
) -> bool {
    if reasons.len() == 0 {
        after == before
    } else {
        &&& after.len() == before.len() + 1
        &&& after.drop_last() == before
        &&& after.last().index == index
        &&& after.last().reason@ == reasons[0]
    }
}

/// The round after a strategy acted.
pub open spec fn round_after(
    before: DispatchRound,
    after: DispatchRound,
    index: int,
    id: StrategyId,
    reasons: Seq<Seq<char>>,
    c: Captured,
) -> bool {
    &&& replied(before.commands@, after.commands@, id, reasons, c)
    &&& noted(before.to_stop@, after.to_stop@, index, stop_reasons(reasons, c, id))
}

impl DispatchRound {
    /// Nothing set off yet.
    pub fn new() -> (r: DispatchRound)
        ensures
            r.commands@ == Seq::<Command>::empty(),
            r.to_stop@ == Seq::<PendingStop>::empty(),
    {
        DispatchRound { commands: Vec::new(), to_stop: Vec::new() }
    }

    /// Takes note of what a strategy did, and of the reasons for which the engine stops it.
    pub fn strategy_replied(
        &mut self,
        index: usize,
        strategy_id: &StrategyId,
        reasons: &Vec<String>,
        captured: Captured,
    )
        ensures
            round_after(
                *old(self),
                *final(self),
                index as int,
                *strategy_id,
                reasons@.map_values(|s: String| s@),
                captured,
            ),
    {
        let ghost texts = reasons@.map_values(|s: String| s@);
        let ghost n = self.commands@.len() as int;
        let mut first: Option<String> = None;
        let mut i: usize = 0;
        while i < reasons.len()
            invariant
                i <= reasons@.len(),
                n == old(self).commands@.len(),
                texts == reasons@.map_values(|s: String| s@),
                self.commands@.len() == n + i,
                self.to_stop == old(self).to_stop,
                self.commands@.subrange(0, n) == old(self).commands@,
                forall|k: int|
                    0 <= k < i ==> is_stop(
                        #[trigger] self.commands@[n + k],
                        *strategy_id,
                        texts[k],
                    ),
                if i == 0 {
                    first is None
                } else {
                    first matches Some(f) && f@ == texts[0]
                },
            decreases reasons@.len() - i,
        {
            let ghost c0 = self.commands@;
            if i == 0 {
                first = Some(reasons[i].clone());
            }
            self.commands.push(
                Command::StopStrategy(
                    StopStrategy { strategy_id: strategy_id.clone(), reason: reasons[i].clone() },
                ),
            );
            assert(self.commands@.subrange(0, n) =~= c0.subrange(0, n));
            i = i + 1;
        }
        let ghost q = texts.len() as int;
        let ghost c1 = self.commands@;
        let ghost m = commands_of(captured).len() as int;
        let ghost theirs = commands_of(captured);
        let ghost asked = captured.stop_requests@;
        let ghost own = own_stops(asked, *strategy_id);
        let ghost reply = captured;
        let stops = gather(&mut self.commands, captured);
        let ghost c2 = self.commands@;
        let mut stops = stops;
        let ghost pred = |s: StopStrategy| s.strategy_id@ == strategy_id@;
        proof {
            assert(asked.subrange(0, 0) =~= Seq::empty());
            reveal(Seq::filter);
            assert(c2.subrange(0, c2.len() as int) =~= c2);
        }
        while stops.len() > 0
            invariant
                stops@.len() <= asked.len(),
                stops@ == asked.subrange(asked.len() - stops@.len(), asked.len() as int),
                pred == (|s: StopStrategy| s.strategy_id@ == strategy_id@),
                self.to_stop == old(self).to_stop,
                self.commands@.len() == c2.len() + asked.subrange(
                    0,
                    asked.len() - stops@.len(),
                ).filter(pred).len(),
                self.commands@.subrange(0, c2.len() as int) == c2,
                forall|k: int|
                    0 <= k < asked.subrange(0, asked.len() - stops@.len()).filter(pred).len()
                        ==> #[trigger] self.commands@[c2.len() + k] == Command::StopStrategy(
                        asked.subrange(0, asked.len() - stops@.len()).filter(pred)[k],
                    ),
                if texts.len() > 0 {
                    first matches Some(f) && f@ == texts[0]
                } else if asked.subrange(0, asked.len() - stops@.len()).filter(pred).len() > 0 {
                    first matches Some(f) && f@ == asked.subrange(
                        0,
                        asked.len() - stops@.len(),
                    ).filter(pred)[0].reason@
                } else {
                    first is None
                },
            decreases stops@.len(),
        {
            let ghost k = asked.len() - stops@.len();
            let ghost c0 = self.commands@;
            let stop = stops.remove(0);
            let ghost one = stop;
            proof {
                assert(stop == asked[k]);
                assert(stops@ =~= asked.subrange(k + 1, asked.len() as int));
                assert(asked.subrange(0, k + 1).drop_last() =~= asked.subrange(0, k));
                assert(asked.subrange(0, k + 1).last() == one);
                reveal(Seq::filter);
            }
            if stop.strategy_id.same(strategy_id) {
                if first.is_none() {
                    first = Some(stop.reason.clone());
                }
                self.commands.push(Command::StopStrategy(stop));
                assert(self.commands@.subrange(0, c2.len() as int) =~= c0.subrange(
                    0,
                    c2.len() as int,
                ));
            }
        }
        let ghost reasons_all = stop_reasons(texts, reply, *strategy_id);
        proof {
            assert(asked.subrange(0, asked.len() as int) =~= asked);
            assert(own == asked.filter(pred));
            let after = self.commands@;
            assert(after.subrange(0, n) =~= c2.subrange(0, n));
            assert(c2.subrange(0, n) =~= c1.subrange(0, n));
            assert forall|k: int| 0 <= k < q implies is_stop(
                #[trigger] after[n + k],
                *strategy_id,
                texts[k],
            ) by {
                assert(after[n + k] == after.subrange(0, c2.len() as int)[n + k]);
                assert(c2[n + k] == c1[n + k]);
            }
            assert(after.subrange(n + q, n + q + m) =~= theirs) by {
                assert forall|k: int| 0 <= k < m implies after.subrange(n + q, n + q + m)[k]
                    == theirs[k] by {
                    assert(after[n + q + k] == after.subrange(0, c2.len() as int)[n + q + k]);
                }
            }
            if texts.len() > 0 {
                assert(reasons_all[0] == texts[0]);
            } else if own.len() > 0 {
                assert(reasons_all[0] == own[0].reason@);
            } else {
                assert(reasons_all.len() == 0);
            }
        }
        if let Some(reason) = first {
            self.to_stop.push(PendingStop { index, reason });
            assert(self.to_stop@.drop_last() =~= old(self).to_stop@);
        }
    }
}

/// A timer that waits.
#[derive(Debug, Clone, Copy)]
pub struct SetTimer {
    pub id: TimerId,
    /// The place of the strategy that set it.
    pub owner: usize,
    pub due_ms: i64,
    /// After how long it fires again, where it does.
    pub interval_ms: Option<u64>,
}

/// When a timer is due that is set now.
pub open spec fn due_at(now: i64, delay_ms: u64) -> i64 {
    if now + delay_ms > i64::MAX {
        i64::MAX
    } else {
        (now + delay_ms) as i64
    }
}

fn due_time(now: i64, delay_ms: u64) -> (r: i64)
    ensures
        r == due_at(now, delay_ms),
{
    let at: i128 = now as i128 + delay_ms as i128;
    if at > i64::MAX as i128 {
        i64::MAX
    } else {
        at as i64
    }
}

/// The timer as it waits once it is set.
pub open spec fn waiting(timer: PendingTimer, owner: usize, now: i64) -> SetTimer {
    SetTimer {
        id: timer.id,
        owner,
        due_ms: due_at(now, timer.delay_ms),
        interval_ms: if timer.repeating {
            Some(timer.delay_ms)
        } else {
            None
        },
    }
}

/// The timers after a strategy set some and canceled some.
pub open spec fn timers_after(
    timers: Seq<SetTimer>,
    set: Seq<PendingTimer>,
    canceled: Seq<TimerId>,
    owner: usize,
    now: i64,
) -> Seq<SetTimer> {
    (timers + set.map_values(|t: PendingTimer| waiting(t, owner, now))).filter(
        |t: SetTimer| !canceled.contains(t.id),
    )
}

/// The ids of the timers that are due, in order.
pub open spec fn due_ids(timers: Seq<SetTimer>, now: i64) -> Seq<TimerId>
    decreases timers.len(),
{
    if timers.len() == 0 {
        Seq::empty()
    } else if timers.last().due_ms <= now {
        due_ids(timers.drop_last(), now).push(timers.last().id)
    } else {
        due_ids(timers.drop_last(), now)
    }
}

/// The place of the first timer with the id that is due; the length where there is none.
pub open spec fn due_index(timers: Seq<SetTimer>, id: TimerId, now: i64) -> int
    decreases timers.len(),
{
    if timers.len() == 0 {
        0
    } else {
        let k = due_index(timers.drop_last(), id, now);
        if k < timers.len() - 1 {
            k
        } else if timers.last().id == id && timers.last().due_ms <= now {
            timers.len() - 1
        } else {
            timers.len() as int
        }
    }
}

/// The timers after one fired: it is gone, or waits to fire again.
pub open spec fn fired_off(timers: Seq<SetTimer>, k: int, now: i64) -> Seq<SetTimer> {
    match timers[k].interval_ms {
        Some(interval) => timers.update(
            k,
            SetTimer { due_ms: due_at(now, interval), ..timers[k] },
        ),
        None => timers.remove(k),
    }
}

/// What the engine holds.
pub struct EngineView<S> {
    pub config: EngineConfig,
    pub state: StateView,
    pub stopped: Map<Seq<char>, ()>,
    pub strategies: Seq<S>,
    pub fills: Seq<OrderFilledEvent>,
    pub timers: Seq<SetTimer>,
    pub next_timer: u64,
}

/// One strategy after the other gets an event.
pub open spec fn hand_step<S: Strategy>(
    engines: Seq<EngineView<S>>,
    rounds: Seq<DispatchRound>,
    event: Event,
    now: i64,
    i: int,
) -> bool {
    engines[i].handed(engines[i + 1], event, i, now, rounds[i], rounds[i + 1])
}

/// One strategy after the other is started.
pub open spec fn start_step<S: Strategy>(
    engines: Seq<EngineView<S>>,
    said: Seq<Seq<Command>>,
    now: i64,
    i: int,
) -> bool {
    engines[i].starts(engines[i + 1], i, now, said[i], said[i + 1])
}

/// One strategy after the other is stopped, unless it is stopped.
pub open spec fn halt_step<S: Strategy>(
    engines: Seq<EngineView<S>>,
    said: Seq<Seq<Command>>,
    now: i64,
    i: int,
) -> bool {
    engines[i].halts(engines[i + 1], i, now, said[i], said[i + 1])
}

/// One strategy after the other is stopped of those that are to be stopped.
pub open spec fn stop_step<S: Strategy>(
    engines: Seq<EngineView<S>>,
    said: Seq<Seq<Command>>,
    stops: Seq<PendingStop>,
    now: i64,
    j: int,
) -> bool {
    engines[j].stops(engines[j + 1], stops[j].index as int, now, said[j], said[j + 1])
}

/// One timer after the other fires.
pub open spec fn fire_step<S: Strategy>(
    engines: Seq<EngineView<S>>,
    said: Seq<Seq<Command>>,
    ids: Seq<TimerId>,
    now: i64,
    i: int,
) -> bool {
    engines[i].fires(engines[i + 1], ids[i], now, said[i], said[i + 1])
}

impl<S: Strategy> EngineView<S> {
    /// Whether a strategy is stopped.
    pub open spec fn is_stopped(self, index: int) -> bool {
        self.stopped.contains_key(self.strategies[index].name()@)
    }

    /// How the strategies learn what was executed: as the first one does.
    pub open spec fn mechanism(self) -> SyncMechanism {
        if self.strategies.len() > 0 {
            self.strategies[0].mechanism()
        } else {
            SyncMechanism::Poll
        }
    }

    /// What calling a strategy does, for the context that it sees and the one that it leaves:
    /// it sees the state, the time and nothing asked for yet. Only this strategy and the timers
    /// change.
    pub open spec fn calls(
        self,
        after: EngineView<S>,
        index: int,
        call: Call,
        now: i64,
        reply: Captured,
        seen: EngineContext<'_>,
        left: EngineContext<'_>,
    ) -> bool {
        &&& seen.commands.is_empty()
        &&& seen.timers@.len() == 0
        &&& seen.canceled_timers@.len() == 0
        &&& seen.books()@ == self.state
        &&& seen.time() == now
        &&& seen.timer() == Some(self.next_timer)
        &&& self.strategies[index].acts(call, seen, &after.strategies[index], left)
        &&& reply == left.commands
        &&& after == (EngineView {
            strategies: self.strategies.update(index, after.strategies[index]),
            timers: timers_after(
                self.timers,
                left.timers@,
                left.canceled_timers@,
                index as usize,
                now,
            ),
            next_timer: match left.timer() {
                Some(n) => n,
                None => 0,
            },
            ..self
        })
    }

    /// What calling a strategy does, with the commands that it gives.
    pub open spec fn called(
        self,
        after: EngineView<S>,
        index: int,
        call: Call,
        now: i64,
        reply: Captured,
    ) -> bool {
        exists|seen: EngineContext<'_>, left: EngineContext<'_>| #[trigger]
            self.calls(after, index, call, now, reply, seen, left)
    }

    /// What starting a strategy does; stops are not heeded.
    pub open spec fn starts(
        self,
        after: EngineView<S>,
        index: int,
        now: i64,
        before: Seq<Command>,
        commands: Seq<Command>,
    ) -> bool {
        exists|reply: Captured| #[trigger]
            self.called(after, index, Call::Start, now, reply) && commands == before
                + commands_of(reply)
    }

    /// What stopping a strategy does: it is told, and then counts as stopped under the id that
    /// it had.
    pub open spec fn stops(
        self,
        after: EngineView<S>,
        index: int,
        now: i64,
        before: Seq<Command>,
        commands: Seq<Command>,
    ) -> bool {
        exists|told: EngineView<S>, reply: Captured| #[trigger]
            self.called(told, index, Call::Stop, now, reply) && commands == before + commands_of(
                reply,
            ) && after == (EngineView {
                stopped: told.stopped.insert(self.strategies[index].name()@, ()),
                ..told
            })
    }

    /// What handing an event to a strategy does; a stopped one does not get it.
    pub open spec fn handed(
        self,
        after: EngineView<S>,
        event: Event,
        index: int,
        now: i64,
        before: DispatchRound,
        round: DispatchRound,
    ) -> bool {
        if self.is_stopped(index) {
            after == self && round == before
        } else {
            let id = self.strategies[index].name();
            exists|reply: Captured| #[trigger]
                self.called(after, index, Call::Event(event), now, reply) && round_after(
                    before,
                    round,
                    index,
                    id,
                    safety_reasons(event, id),
                    reply,
                )
        }
    }

    /// What stopping strategies one after the other does, through the engine and the commands
    /// after each.
    pub open spec fn stopping(
        self,
        after: EngineView<S>,
        stops: Seq<PendingStop>,
        now: i64,
        before: Seq<Command>,
        commands: Seq<Command>,
        engines: Seq<EngineView<S>>,
        said: Seq<Seq<Command>>,
    ) -> bool {
        let n = stops.len() as int;
        &&& engines.len() == n + 1
        &&& said.len() == n + 1
        &&& engines[0] == self
        &&& said[0] == before
        &&& engines[n] == after
        &&& said[n] == commands
        &&& forall|j: int| 0 <= j < n ==> #[trigger] stop_step(engines, said, stops, now, j)
    }

    /// What stopping strategies one after the other does.
    pub open spec fn wound_up(
        self,
        after: EngineView<S>,
        stops: Seq<PendingStop>,
        now: i64,
        before: Seq<Command>,
        commands: Seq<Command>,
    ) -> bool {
        exists|engines: Seq<EngineView<S>>, said: Seq<Seq<Command>>| #[trigger]
            self.stopping(after, stops, now, before, commands, engines, said)
    }

    /// What handing an event to every strategy does, through the engine and the round after
    /// each.
    pub open spec fn handing(
        self,
        event: Event,
        now: i64,
        engines: Seq<EngineView<S>>,
        rounds: Seq<DispatchRound>,
    ) -> bool {
        let n = self.strategies.len() as int;
        &&& engines.len() == n + 1
        &&& rounds.len() == n + 1
        &&& engines[0] == self
        &&& rounds[0].commands@.len() == 0
        &&& rounds[0].to_stop@.len() == 0
        &&& forall|i: int| 0 <= i < n ==> #[trigger] hand_step(engines, rounds, event, now, i)
    }

    /// What handing out an event does: every strategy that is not stopped gets it, in order,
    /// and then those that are to be stopped are stopped.
    pub open spec fn dispatched(
        self,
        after: EngineView<S>,
        event: Event,
        now: i64,
        commands: Seq<Command>,
    ) -> bool {
        let n = self.strategies.len() as int;
        exists|engines: Seq<EngineView<S>>, rounds: Seq<DispatchRound>|
            {
                &&& #[trigger] self.handing(event, now, engines, rounds)
                &&& engines[n].wound_up(
                    after,
                    rounds[n].to_stop@,
                    now,
                    rounds[n].commands@,
                    commands,
                )
            }
    }

    /// What starting every strategy does, through the engine and the commands after each.
    pub open spec fn starting(
        self,
        after: EngineView<S>,
        now: i64,
        commands: Seq<Command>,
        engines: Seq<EngineView<S>>,
        said: Seq<Seq<Command>>,
    ) -> bool {
        let n = self.strategies.len() as int;
        &&& engines.len() == n + 1
        &&& said.len() == n + 1
        &&& engines[0] == self
        &&& said[0].len() == 0
        &&& engines[n] == after
        &&& said[n] == commands
        &&& forall|i: int| 0 <= i < n ==> #[trigger] start_step(engines, said, now, i)
    }

    /// What starting every strategy does.
    pub open spec fn started(self, after: EngineView<S>, now: i64, commands: Seq<Command>) -> bool {
        exists|engines: Seq<EngineView<S>>, said: Seq<Seq<Command>>| #[trigger]
            self.starting(after, now, commands, engines, said)
    }

    /// What stopping a strategy does where it is not stopped yet.
    pub open spec fn halts(
        self,
        after: EngineView<S>,
        index: int,
        now: i64,
        before: Seq<Command>,
        commands: Seq<Command>,
    ) -> bool {
        if self.is_stopped(index) {
            after == self && commands == before
        } else {
            self.stops(after, index, now, before, commands)
        }
    }

    /// What stopping every strategy does that is not stopped, through the engine and the
    /// commands after each.
    pub open spec fn halting(
        self,
        after: EngineView<S>,
        now: i64,
        commands: Seq<Command>,
        engines: Seq<EngineView<S>>,
        said: Seq<Seq<Command>>,
    ) -> bool {
        let n = self.strategies.len() as int;
        &&& engines.len() == n + 1
        &&& said.len() == n + 1
        &&& engines[0] == self
        &&& said[0].len() == 0
        &&& engines[n] == after
        &&& said[n] == commands
        &&& forall|i: int| 0 <= i < n ==> #[trigger] halt_step(engines, said, now, i)
    }

    /// What stopping every strategy does that is not stopped.
    pub open spec fn halted(self, after: EngineView<S>, now: i64, commands: Seq<Command>) -> bool {
        exists|engines: Seq<EngineView<S>>, said: Seq<Seq<Command>>| #[trigger]
            self.halting(after, now, commands, engines, said)
    }

    /// Whether a strategy is there and not stopped.
    pub open spec fn runs(self, index: int) -> bool {
        0 <= index < self.strategies.len() && !self.is_stopped(index)
    }

    /// What the strategy of a timer that fired does, and the stop that it asks for.
    pub open spec fn answers(
        self,
        after: EngineView<S>,
        timer: SetTimer,
        now: i64,
        before: Seq<Command>,
        commands: Seq<Command>,
        told: EngineView<S>,
        reply: Captured,
        asked: Seq<Command>,
        stops: Seq<PendingStop>,
    ) -> bool {
        let id = self.strategies[timer.owner as int].name();
        &&& self.called(told, timer.owner as int, Call::Timer(timer.id), now, reply)
        &&& replied(before, asked, id, Seq::empty(), reply)
        &&& noted(
            Seq::empty(),
            stops,
            timer.owner as int,
            stop_reasons(Seq::empty(), reply, id),
        )
        &&& told.wound_up(after, stops, now, asked, commands)
    }

    /// The engine once a timer is taken off, or set anew where it repeats.
    pub open spec fn taken_off(self, k: int, now: i64) -> EngineView<S> {
        EngineView { timers: fired_off(self.timers, k, now), ..self }
    }

    /// What firing a timer does. One that was canceled in the meantime does nothing, and one
    /// of a strategy that does not run is dropped. Any other is taken off, or set anew where
    /// it repeats, and its strategy is called.
    pub open spec fn fires(
        self,
        after: EngineView<S>,
        id: TimerId,
        now: i64,
        before: Seq<Command>,
        commands: Seq<Command>,
    ) -> bool {
        let k = due_index(self.timers, id, now);
        if k >= self.timers.len() {
            after == self && commands == before
        } else if !self.runs(self.timers[k].owner as int) {
            after == (EngineView { timers: self.timers.remove(k), ..self }) && commands == before
        } else {
            exists|told: EngineView<S>, reply: Captured, asked: Seq<Command>, stops: Seq<PendingStop>| #[trigger]
                self.taken_off(k, now).answers(
                    after,
                    self.timers[k],
                    now,
                    before,
                    commands,
                    told,
                    reply,
                    asked,
                    stops,
                )
        }
    }

    /// What firing the timers that are due does, through the engine and the commands after
    /// each.
    pub open spec fn firing(
        self,
        after: EngineView<S>,
        now: i64,
        commands: Seq<Command>,
        engines: Seq<EngineView<S>>,
        said: Seq<Seq<Command>>,
    ) -> bool {
        let ids = due_ids(self.timers, now);
        let n = ids.len() as int;
        &&& engines.len() == n + 1
        &&& said.len() == n + 1
        &&& engines[0] == self
        &&& said[0].len() == 0
        &&& engines[n] == after
        &&& said[n] == commands
        &&& forall|i: int| 0 <= i < n ==> #[trigger] fire_step(engines, said, ids, now, i)
    }

    /// What firing the timers that are due does: each once, in order.
    pub open spec fn fired(self, after: EngineView<S>, now: i64, commands: Seq<Command>) -> bool {
        exists|engines: Seq<EngineView<S>>, said: Seq<Seq<Command>>| #[trigger]
            self.firing(after, now, commands, engines, said)
    }
}

/// The trading engine.
pub struct Engine<S: Strategy> {
    config: EngineConfig,
    state: EngineState,
    strategies: Vec<S>,
    stopped_strategies: StrMap<()>,
    fill_history: Vec<OrderFilledEvent>,
    timers: Vec<SetTimer>,
    next_timer: u64,
}

impl<S: Strategy> Engine<S> {
    /// What the engine holds.
    pub closed spec fn view(&self) -> EngineView<S> {
        EngineView {
            config: self.config,
            state: self.state@,
            stopped: self.stopped_strategies@,
            strategies: self.strategies@,
            fills: self.fill_history@,
            timers: self.timers@,
            next_timer: self.next_timer,
        }
    }

    /// An engine that knows nothing.
    pub fn new(config: EngineConfig) -> (r: Engine<S>)
        ensures
            r@ == (EngineView {
                config,
                state: StateView::empty(),
                stopped: Map::empty(),
                strategies: Seq::<S>::empty(),
                fills: Seq::empty(),
                timers: Seq::empty(),
                next_timer: 1,
            }),
    {
        let r = Engine {
            config,
            state: EngineState::new(),
            strategies: Vec::new(),
            stopped_strategies: StrMap::new(),
            fill_history: Vec::new(),
            timers: Vec::new(),
            next_timer: 1,
        };
        assert(r@.stopped =~= Map::empty());
        r
    }

    /// Makes a strategy known.
    pub fn register_strategy(&mut self, strategy: S)
        ensures
            final(self)@ == (EngineView {
                strategies: old(self)@.strategies.push(strategy),
                ..old(self)@
            }),
    {
        self.strategies.push(strategy);
    }

    /// Keeps the timers that a strategy set and drops those that it canceled.
    fn settle(
        &mut self,
        owner: usize,
        now: i64,
        set: Vec<PendingTimer>,
        canceled: Vec<TimerId>,
        next_timer: u64,
    )
        ensures
            final(self)@ == (EngineView {
                timers: timers_after(old(self)@.timers, set@, canceled@, owner, now),
                next_timer,
                ..old(self)@
            }),
    {
        let ghost all = self.timers@ + set@.map_values(
            |t: PendingTimer| waiting(t, owner, now),
        );
        let mut timers: Vec<SetTimer> = Vec::new();
        std::mem::swap(&mut self.timers, &mut timers);
        let mut i: usize = 0;
        while i < set.len()
            invariant
                i <= set@.len(),
                timers@ == old(self).timers@ + set@.map_values(
                    |t: PendingTimer| waiting(t, owner, now),
                ).subrange(0, i as int),
            decreases set@.len() - i,
        {
            timers.push(
                SetTimer {
                    id: set[i].id,
                    owner,
                    due_ms: due_time(now, set[i].delay_ms),
                    interval_ms: if set[i].repeating {
                        Some(set[i].delay_ms)
                    } else {
                        None
                    },
                },
            );
            i = i + 1;
        }
        assert(timers@ =~= all);
        let ghost pred = |t: SetTimer| !canceled@.contains(t.id);
        let mut kept: Vec<SetTimer> = Vec::new();
        let mut j: usize = 0;
        proof {
            assert(timers@.subrange(0, 0) =~= Seq::empty());
            reveal(Seq::filter);
        }
        while j < timers.len()
            invariant
                j <= timers@.len(),
                pred == (|t: SetTimer| !canceled@.contains(t.id)),
                kept@ == timers@.subrange(0, j as int).filter(pred),
            decreases timers@.len() - j,
        {
            proof {
                assert(timers@.subrange(0, j + 1).drop_last() =~= timers@.subrange(0, j as int));
                reveal(Seq::filter);
            }
            if !names_timer(&canceled, timers[j].id) {
                kept.push(timers[j]);
            }
            j = j + 1;
        }
        assert(timers@.subrange(0, timers@.len() as int) =~= timers@);
        self.timers = kept;
        self.next_timer = next_timer;
    }

    /// Starts a strategy.
    fn start_one(&mut self, index: usize, now: i64) -> (r: Captured)
        requires
            index < old(self)@.strategies.len(),
        ensures
            old(self)@.called(final(self)@, index as int, Call::Start, now, r),
    {
        let ghost before = self@;
        let mut ctx = EngineContext::new(&self.state, now, self.next_timer);
        let ghost seen = ctx;
        self.strategies[index].on_start(&mut ctx);
        let ghost left = ctx;
        let captured = ctx.take_commands();
        let (set, canceled) = ctx.take_timers();
        let next_timer = ctx.timer_count();
        self.settle(index, now, set, canceled, next_timer);
        assert(before.calls(self@, index as int, Call::Start, now, captured, seen, left));
        captured
    }

    /// Hands an event to a strategy.
    fn hand_one(&mut self, index: usize, event: &Event, now: i64) -> (r: Captured)
        requires
            index < old(self)@.strategies.len(),
        ensures
            old(self)@.called(final(self)@, index as int, Call::Event(*event), now, r),
    {
        let ghost before = self@;
        let mut ctx = EngineContext::new(&self.state, now, self.next_timer);
        let ghost seen = ctx;
        self.strategies[index].on_event(&mut ctx, event);
        let ghost left = ctx;
        let captured = ctx.take_commands();
        let (set, canceled) = ctx.take_timers();
        let next_timer = ctx.timer_count();
        self.settle(index, now, set, canceled, next_timer);
        assert(before.calls(self@, index as int, Call::Event(*event), now, captured, seen, left));
        captured
    }

    /// Tells a strategy that its timer fired.
    fn fire_one(&mut self, index: usize, id: TimerId, now: i64) -> (r: Captured)
        requires
            index < old(self)@.strategies.len(),
        ensures
            old(self)@.called(final(self)@, index as int, Call::Timer(id), now, r),
    {
        let ghost before = self@;
        let mut ctx = EngineContext::new(&self.state, now, self.next_timer);
        let ghost seen = ctx;
        self.strategies[index].on_timer(&mut ctx, id);
        let ghost left = ctx;
        let captured = ctx.take_commands();
        let (set, canceled) = ctx.take_timers();
        let next_timer = ctx.timer_count();
        self.settle(index, now, set, canceled, next_timer);
        assert(before.calls(self@, index as int, Call::Timer(id), now, captured, seen, left));
        captured
    }

    /// Tells a strategy to stop.
    fn stop_one(&mut self, index: usize, now: i64) -> (r: Captured)
        requires
            index < old(self)@.strategies.len(),
        ensures
            old(self)@.called(final(self)@, index as int, Call::Stop, now, r),
    {
        let ghost before = self@;
        let mut ctx = EngineContext::new(&self.state, now, self.next_timer);
        let ghost seen = ctx;
        self.strategies[index].on_stop(&mut ctx);
        let ghost left = ctx;
        let captured = ctx.take_commands();
        let (set, canceled) = ctx.take_timers();
        let next_timer = ctx.timer_count();
        self.settle(index, now, set, canceled, next_timer);
        assert(before.calls(self@, index as int, Call::Stop, now, captured, seen, left));
        captured
    }

    /// Stops a strategy.
    fn halt(&mut self, index: usize, now: i64, commands: &mut Vec<Command>)
        requires
            index < old(self)@.strategies.len(),
        ensures
            old(self)@.stops(final(self)@, index as int, now, old(commands)@, final(commands)@),
            final(self)@.strategies.len() == old(self)@.strategies.len(),
    {
        let ghost before = self@;
        let id = self.strategies[index].id().0.clone();
        let captured = self.stop_one(index, now);
        let ghost told = self@;
        let ghost reply = captured;
        let _stops = gather(commands, captured);
        self.stopped_strategies.insert(id, ());
        assert(self@ == (EngineView {
            stopped: told.stopped.insert(before.strategies[index as int].name()@, ()),
            ..told
        }));
        assert(before.called(told, index as int, Call::Stop, now, reply));
    }

    /// Stops strategies one after the other.
    fn wind_up(&mut self, to_stop: &Vec<PendingStop>, now: i64, commands: &mut Vec<Command>)
        requires
            in_range(to_stop@, old(self)@.strategies.len() as int),
        ensures
            old(self)@.wound_up(final(self)@, to_stop@, now, old(commands)@, final(commands)@),
            final(self)@.strategies.len() == old(self)@.strategies.len(),
    {
        let ghost before = self@;
        let ghost n = self@.strategies.len();
        let ghost mut engines: Seq<EngineView<S>> = seq![self@];
        let ghost mut said: Seq<Seq<Command>> = seq![commands@];
        let mut j: usize = 0;
        while j < to_stop.len()
            invariant
                j <= to_stop@.len(),
                in_range(to_stop@, n as int),
                self@.strategies.len() == n,
                engines.len() == j + 1,
                said.len() == j + 1,
                engines[0] == before,
                said[0] == old(commands)@,
                engines[j as int] == self@,
                said[j as int] == commands@,
                forall|k: int|
                    0 <= k < j ==> #[trigger] stop_step(engines, said, to_stop@, now, k),
            decreases to_stop@.len() - j,
        {
            let ghost engines0 = engines;
            let ghost said0 = said;
            let index = to_stop[j].index;
            self.halt(index, now, commands);
            proof {
                engines = engines.push(self@);
                said = said.push(commands@);
                assert forall|k: int| 0 <= k < j + 1 implies #[trigger] stop_step(
                    engines,
                    said,
                    to_stop@,
                    now,
                    k,
                ) by {
                    if k < j {
                        assert(stop_step(engines0, said0, to_stop@, now, k));
                        assert(engines[k] == engines0[k] && engines[k + 1] == engines0[k + 1]);
                        assert(said[k] == said0[k] && said[k + 1] == said0[k + 1]);
                    }
                }
            }
            j = j + 1;
        }
        assert(before.stopping(self@, to_stop@, now, old(commands)@, commands@, engines, said));
    }

    /// Hands an event to every strategy that is not stopped and gathers the commands. Then
    /// stops the strategies that are to be stopped.
    pub fn dispatch_event(&mut self, event: &Event) -> (r: Vec<Command>)
        ensures
            exists|now: i64| #[trigger] old(self)@.dispatched(final(self)@, *event, now, r@),
    {
        let now = now_ms();
        self.dispatch_event_at(event, now)
    }

    /// Hands an event to every strategy that is not stopped, at a given time.
    pub fn dispatch_event_at(&mut self, event: &Event, now: i64) -> (r: Vec<Command>)
        ensures
            old(self)@.dispatched(final(self)@, *event, now, r@),
    {
        let n: usize = self.strategies.len();
        let mut round = DispatchRound::new();
        let ghost mut engines: Seq<EngineView<S>> = seq![self@];
        let ghost mut rounds: Seq<DispatchRound> = seq![round];
        let ghost before = self@;
        let mut i: usize = 0;
        while i < n
            invariant
                n == self@.strategies.len(),
                n == before.strategies.len(),
                i <= n,
                engines.len() == i + 1,
                rounds.len() == i + 1,
                engines[0] == before,
                rounds[0].commands@.len() == 0,
                rounds[0].to_stop@.len() == 0,
                engines[i as int] == self@,
                rounds[i as int] == round,
                forall|k: int|
                    0 <= k < i ==> #[trigger] hand_step(engines, rounds, *event, now, k),
                in_range(round.to_stop@, n as int),
            decreases n - i,
        {
            let ghost earlier = round;
            let ghost engines0 = engines;
            let ghost rounds0 = rounds;
            let ghost held = self@;
            let id = self.strategies[i].id().clone();
            if !self.stopped_strategies.contains(id.as_str()) {
                let captured = self.hand_one(i, event, now);
                let ghost reply = captured;
                let reasons = safety_stops(event, &id);
                round.strategy_replied(i, &id, &reasons, captured);
                assert(held.called(self@, i as int, Call::Event(*event), now, reply));
                proof {
                    lemma_noted_in_range(
                        earlier.to_stop@,
                        round.to_stop@,
                        i as int,
                        stop_reasons(safety_reasons(*event, id), reply, id),
                        n as int,
                    );
                }
            }
            proof {
                engines = engines.push(self@);
                rounds = rounds.push(round);
                assert(held.handed(self@, *event, i as int, now, earlier, round));
                assert forall|k: int| 0 <= k < i + 1 implies #[trigger] hand_step(
                    engines,
                    rounds,
                    *event,
                    now,
                    k,
                ) by {
                    if k < i {
                        assert(hand_step(engines0, rounds0, *event, now, k));
                        assert(engines[k] == engines0[k] && engines[k + 1] == engines0[k + 1]);
                        assert(rounds[k] == rounds0[k] && rounds[k + 1] == rounds0[k + 1]);
                    }
                }
            }
            i = i + 1;
        }
        assert(before.handing(*event, now, engines, rounds));
        let DispatchRound { mut commands, to_stop } = round;
        self.wind_up(&to_stop, now, &mut commands);
        commands
    }

    /// Starts every strategy and gathers the commands; stops are not heeded.
    pub fn start_strategies(&mut self) -> (r: Vec<Command>)
        ensures
            exists|now: i64| #[trigger] old(self)@.started(final(self)@, now, r@),
    {
        let now = now_ms();
        self.start_strategies_at(now)
    }

    /// Starts every strategy at a given time.
    pub fn start_strategies_at(&mut self, now: i64) -> (r: Vec<Command>)
        ensures
            old(self)@.started(final(self)@, now, r@),
    {
        let n: usize = self.strategies.len();
        let mut commands: Vec<Command> = Vec::new();
        let ghost before = self@;
        let ghost mut engines: Seq<EngineView<S>> = seq![self@];
        let ghost mut said: Seq<Seq<Command>> = seq![commands@];
        let mut i: usize = 0;
        while i < n
            invariant
                n == self@.strategies.len(),
                n == before.strategies.len(),
                i <= n,
                engines.len() == i + 1,
                said.len() == i + 1,
                engines[0] == before,
                said[0].len() == 0,
                engines[i as int] == self@,
                said[i as int] == commands@,
                forall|k: int| 0 <= k < i ==> #[trigger] start_step(engines, said, now, k),
            decreases n - i,
        {
            let ghost engines0 = engines;
            let ghost said0 = said;
            let ghost held = self@;
            let captured = self.start_one(i, now);
            let ghost reply = captured;
            let _stops = gather(&mut commands, captured);
            assert(held.called(self@, i as int, Call::Start, now, reply));
            proof {
                engines = engines.push(self@);
                said = said.push(commands@);
                assert forall|k: int| 0 <= k < i + 1 implies #[trigger] start_step(
                    engines,
                    said,
                    now,
                    k,
                ) by {
                    if k < i {
                        assert(start_step(engines0, said0, now, k));
                        assert(engines[k] == engines0[k] && engines[k + 1] == engines0[k + 1]);
                        assert(said[k] == said0[k] && said[k + 1] == said0[k + 1]);
                    }
                }
            }
            i = i + 1;
        }
        assert(before.starting(self@, now, commands@, engines, said));
        commands
    }

    /// Stops every strategy that is not stopped yet and gathers the commands.
    pub fn stop_strategies(&mut self) -> (r: Vec<Command>)
        ensures
            exists|now: i64| #[trigger] old(self)@.halted(final(self)@, now, r@),
    {
        let now = now_ms();
        self.stop_strategies_at(now)
    }

    /// Stops every strategy that is not stopped yet, at a given time.
    pub fn stop_strategies_at(&mut self, now: i64) -> (r: Vec<Command>)
        ensures
            old(self)@.halted(final(self)@, now, r@),
    {
        let n: usize = self.strategies.len();
        let mut commands: Vec<Command> = Vec::new();
        let ghost before = self@;
        let ghost mut engines: Seq<EngineView<S>> = seq![self@];
        let ghost mut said: Seq<Seq<Command>> = seq![commands@];
        let mut i: usize = 0;
        while i < n
            invariant
                n == self@.strategies.len(),
                n == before.strategies.len(),
                i <= n,
                engines.len() == i + 1,
                said.len() == i + 1,
                engines[0] == before,
                said[0].len() == 0,
                engines[i as int] == self@,
                said[i as int] == commands@,
                forall|k: int| 0 <= k < i ==> #[trigger] halt_step(engines, said, now, k),
            decreases n - i,
        {
            let ghost engines0 = engines;
            let ghost said0 = said;
            let is_stopped = self.stopped_strategies.contains(self.strategies[i].id().as_str());
            if !is_stopped {
                self.halt(i, now, &mut commands);
            }
            proof {
                engines = engines.push(self@);
                said = said.push(commands@);
                assert(engines0[i as int].halts(self@, i as int, now, said0[i as int], commands@));
                assert forall|k: int| 0 <= k < i + 1 implies #[trigger] halt_step(
                    engines,
                    said,
                    now,
                    k,
                ) by {
                    if k < i {
                        assert(halt_step(engines0, said0, now, k));
                        assert(engines[k] == engines0[k] && engines[k + 1] == engines0[k + 1]);
                        assert(said[k] == said0[k] && said[k + 1] == said0[k + 1]);
                    }
                }
            }
            i = i + 1;
        }
        assert(before.halting(self@, now, commands@, engines, said));
        commands
    }

    /// Fires a timer, where it still waits and is due.
    fn fire(&mut self, id: TimerId, now: i64, commands: &mut Vec<Command>)
        ensures
            old(self)@.fires(final(self)@, id, now, old(commands)@, final(commands)@),
            final(self)@.strategies.len() == old(self)@.strategies.len(),
    {
        let ghost before = self@;
        let k = find_due(&self.timers, id, now);
        if k >= self.timers.len() {
            return;
        }
        let timer = self.timers[k];
        let runs = timer.owner < self.strategies.len() && !self.stopped_strategies.contains(
            self.strategies[timer.owner].id().as_str(),
        );
        if !runs {
            self.timers.remove(k);
            return;
        }
        match timer.interval_ms {
            Some(interval) => {
                self.timers.set(k, SetTimer { due_ms: due_time(now, interval), ..timer });
            },
            None => {
                self.timers.remove(k);
            },
        }
        let ghost set = self@;
        assert(set == before.taken_off(k as int, now));
        let name = self.strategies[timer.owner].id().clone();
        let captured = self.fire_one(timer.owner, timer.id, now);
        let ghost told = self@;
        let ghost reply = captured;
        let mut round = DispatchRound::new();
        std::mem::swap(&mut round.commands, commands);
        let ghost earlier = round;
        let none: Vec<String> = Vec::new();
        round.strategy_replied(timer.owner, &name, &none, captured);
        proof {
            assert(none@.map_values(|s: String| s@) =~= Seq::<Seq<char>>::empty());
            assert(earlier.to_stop@ =~= Seq::empty());
            lemma_noted_in_range(
                earlier.to_stop@,
                round.to_stop@,
                timer.owner as int,
                stop_reasons(Seq::empty(), reply, name),
                told.strategies.len() as int,
            );
        }
        let DispatchRound { commands: asked, to_stop } = round;
        *commands = asked;
        let ghost asked_for = commands@;
        self.wind_up(&to_stop, now, commands);
        assert(set.answers(
            self@,
            timer,
            now,
            old(commands)@,
            commands@,
            told,
            reply,
            asked_for,
            to_stop@,
        ));
    }

    /// Fires every timer that is due, each once, and gathers the commands.
    pub fn fire_timers(&mut self, now: i64) -> (r: Vec<Command>)
        ensures
            old(self)@.fired(final(self)@, now, r@),
    {
        let ids = find_due_ids(&self.timers, now);
        let mut commands: Vec<Command> = Vec::new();
        let ghost before = self@;
        let ghost mut engines: Seq<EngineView<S>> = seq![self@];
        let ghost mut said: Seq<Seq<Command>> = seq![commands@];
        let mut i: usize = 0;
        while i < ids.len()
            invariant
                ids@ == due_ids(before.timers, now),
                i <= ids@.len(),
                engines.len() == i + 1,
                said.len() == i + 1,
                engines[0] == before,
                said[0].len() == 0,
                engines[i as int] == self@,
                said[i as int] == commands@,
                forall|k: int| 0 <= k < i ==> #[trigger] fire_step(engines, said, ids@, now, k),
            decreases ids@.len() - i,
        {
            let ghost engines0 = engines;
            let ghost said0 = said;
            self.fire(ids[i], now, &mut commands);
            proof {
                engines = engines.push(self@);
                said = said.push(commands@);
                assert forall|k: int| 0 <= k < i + 1 implies #[trigger] fire_step(
                    engines,
                    said,
                    ids@,
                    now,
                    k,
                ) by {
                    if k < i {
                        assert(fire_step(engines0, said0, ids@, now, k));
                        assert(engines[k] == engines0[k] && engines[k + 1] == engines0[k + 1]);
                        assert(said[k] == said0[k] && said[k + 1] == said0[k + 1]);
                    }
                }
            }
            i = i + 1;
        }
        assert(before.firing(self@, now, commands@, engines, said));
        commands
    }

    /// Whether a strategy was stopped.
    pub fn is_strategy_stopped(&self, strategy_id: &StrategyId) -> (r: bool)
        ensures
            r == self@.stopped.contains_key(strategy_id@),
    {
        self.stopped_strategies.contains(strategy_id.as_str())
    }

    /// The strategies that were stopped.
    pub fn stopped_strategies(&self) -> (r: &StrMap<()>)
        ensures
            r@ == self@.stopped,
    {
        &self.stopped_strategies
    }

    /// How the strategies learn what was executed.
    pub fn sync_mechanism(&self) -> (r: SyncMechanism)
        ensures
            r == self@.mechanism(),
    {
        if self.strategies.len() > 0 {
            self.strategies[0].sync_mechanism()
        } else {
            SyncMechanism::Poll
        }
    }

    /// What is known of the markets and of what is held.
    pub fn state(&self) -> (r: &EngineState)
        ensures
            r@ == self@.state,
    {
        &self.state
    }

    /// Makes an exchange known as active.
    pub fn register_exchange(&mut self, instance: &ExchangeInstance)
        ensures
            final(self)@ == (EngineView {
                state: StateView {
                    health: old(self)@.state.health.insert(
                        state::instance_key(*instance),
                        ExchangeHealth::Active,
                    ),
                    ..old(self)@.state
                },
                ..old(self)@
            }),
    {
        self.state.set_exchange_health(instance, ExchangeHealth::Active);
    }

    /// Makes an instrument known.
    pub fn register_instrument(&mut self, meta: InstrumentMeta)
        ensures
            final(self)@ == (EngineView {
                state: StateView {
                    instruments: strmap::put(old(self)@.state.instruments, meta.instrument_id.0, meta),
                    ..old(self)@.state
                },
                ..old(self)@
            }),
    {
        self.state.register_instrument(meta);
    }

    /// Sets the quote of an instrument.
    pub fn update_quote(&mut self, quote: Quote)
        ensures
            final(self)@ == (EngineView {
                state: StateView {
                    quotes: strmap::put(old(self)@.state.quotes, quote.instrument.0, quote),
                    ..old(self)@.state
                },
                ..old(self)@
            }),
    {
        self.state.update_quote(quote);
    }

    /// Sets the health of an exchange.
    pub fn set_exchange_health(&mut self, instance: &ExchangeInstance, health: ExchangeHealth)
        ensures
            final(self)@ == (EngineView {
                state: StateView {
                    health: old(self)@.state.health.insert(state::instance_key(*instance), health),
                    ..old(self)@.state
                },
                ..old(self)@
            }),
    {
        self.state.set_exchange_health(instance, health);
    }

    /// The orders.
    pub fn order_manager(&self) -> (r: &OrderManager)
        ensures
            r@ == self@.state.orders,
    {
        self.state.order_manager()
    }

    /// The orders, to change them.
    pub fn order_manager_mut(&mut self) -> (r: &mut OrderManager)
        ensures
            r@ == old(self)@.state.orders,
            final(self)@ == (EngineView {
                state: StateView { orders: final(r)@, ..old(self)@.state },
                ..old(self)@
            }),
    {
        self.state.order_manager_mut()
    }

    /// What is known of an instrument.
    pub fn instrument_meta(&self, instrument: &InstrumentId) -> (r: Option<&InstrumentMeta>)
        ensures
            r == (match strmap::lookup(self@.state.instruments, instrument@) {
                Some(m) => Some(&m),
                None => None,
            }),
    {
        self.state.instrument_meta(instrument)
    }

    /// The balances.
    pub fn inventory(&self) -> (r: &InventoryLedger)
        ensures
            r@ == self@.state.inventory,
    {
        self.state.inventory()
    }

    /// The balances, to change them.
    pub fn inventory_mut(&mut self) -> (r: &mut InventoryLedger)
        ensures
            r@ == old(self)@.state.inventory,
            final(self)@ == (EngineView {
                state: StateView { inventory: final(r)@, ..old(self)@.state },
                ..old(self)@
            }),
    {
        self.state.inventory_mut()
    }

    /// Books a fill on the position of an instrument. Changes nothing and says `false` where
    /// a step is too large.
    pub fn try_apply_position_fill(
        &mut self,
        instrument: &InstrumentId,
        side: OrderSide,
        qty: Qty,
        price: Price,
    ) -> (r: bool)
        ensures
            match state::position_filled(old(self)@.state.booked(*instrument), side, qty.0, price.0) {
                Some(p) => r && final(self)@ == (EngineView {
                    state: old(self)@.state.with_position(*instrument, p),
                    ..old(self)@
                }),
                None => !r && final(self)@ == old(self)@,
            },
    {
        self.state.try_apply_position_fill(instrument, side, qty, price)
    }

    /// Books a fill on the position of an instrument.
    pub fn apply_position_fill(
        &mut self,
        instrument: &InstrumentId,
        side: OrderSide,
        qty: Qty,
        price: Price,
    )
        requires
            state::position_filled(old(self)@.state.booked(*instrument), side, qty.0, price.0) is Some,
        ensures
            final(self)@ == (EngineView {
                state: old(self)@.state.with_position(
                    *instrument,
                    state::position_filled(old(self)@.state.booked(*instrument), side, qty.0, price.0)->0,
                ),
                ..old(self)@
            }),
    {
        self.state.apply_position_fill(instrument, side, qty, price);
    }

    /// Adds a fee to a position. Changes nothing and says `false` where the sum is too large.
    pub fn try_apply_fill_fee(&mut self, instrument: &InstrumentId, fee: Decimal) -> (r: bool)
        ensures
            match old(self)@.state.with_fee(*instrument, fee) {
                Some(state) => r && final(self)@ == (EngineView { state, ..old(self)@ }),
                None => !r && final(self)@ == old(self)@,
            },
    {
        self.state.try_apply_fill_fee(instrument, fee)
    }

    /// Adds a fee to a position.
    pub fn apply_fill_fee(&mut self, instrument: &InstrumentId, fee: Decimal)
        requires
            old(self)@.state.with_fee(*instrument, fee) is Some,
        ensures
            final(self)@ == (EngineView {
                state: old(self)@.state.with_fee(*instrument, fee)->0,
                ..old(self)@
            }),
    {
        let _done = self.state.try_apply_fill_fee(instrument, fee);
    }

    /// What is held of an instrument at its quote, where no step is too large.
    pub fn try_position(&self, instrument: &InstrumentId) -> (r: Option<Position>)
        ensures
            r == self@.state.marked(*instrument),
    {
        self.state.try_position(instrument)
    }

    /// What is held of an instrument at its quote.
    pub fn position(&self, instrument: &InstrumentId) -> (r: Position)
        requires
            self@.state.marked(*instrument) is Some,
        ensures
            Some(r) == self@.state.marked(*instrument),
    {
        self.state.position(instrument)
    }

    /// What is held of every instrument at its quote, where no step is too large.
    pub fn try_get_positions(&self) -> (r: Option<Vec<(String, Position)>>)
        ensures
            match self@.state.all_marked(self@.state.positions.len()) {
                Some(s) => r matches Some(v) && v@ == s,
                None => r is None,
            },
    {
        self.state.try_get_positions()
    }

    /// What is held of every instrument at its quote.
    pub fn get_positions(&self) -> (r: Vec<(String, Position)>)
        requires
            self@.state.all_marked(self@.state.positions.len()) is Some,
        ensures
            Some(r@) == self@.state.all_marked(self@.state.positions.len()),
    {
        self.state.get_positions()
    }

    /// Sets a position to what the exchange reports; what was realized and the fees stay.
    pub fn apply_snapshot(
        &mut self,
        instrument: &InstrumentId,
        qty: Decimal,
        avg_entry_px: Option<Price>,
        unrealized_pnl: Option<Decimal>,
    )
        ensures
            final(self)@ == (EngineView {
                state: old(self)@.state.with_position(
                    *instrument,
                    Position {
                        qty,
                        avg_entry_px,
                        unrealized_pnl,
                        ..old(self)@.state.booked(*instrument)
                    },
                ),
                ..old(self)@
            }),
    {
        self.state.apply_snapshot(instrument, qty, avg_entry_px, unrealized_pnl);
    }

    /// Adds a fill to the history.
    pub fn record_fill(&mut self, fill: OrderFilledEvent)
        ensures
            final(self)@ == (EngineView { fills: old(self)@.fills.push(fill), ..old(self)@ }),
    {
        self.fill_history.push(fill);
    }

    /// The history of fills.
    pub fn get_fills(&self) -> (r: &Vec<OrderFilledEvent>)
        ensures
            r@ == self@.fills,
    {
        &self.fill_history
    }

    /// Forgets the history of fills.
    pub fn clear_fills(&mut self)
        ensures
            final(self)@ == (EngineView { fills: Seq::empty(), ..old(self)@ }),
    {
        self.fill_history = Vec::new();
    }
}

/// Every stop names a strategy that there is.
pub open spec fn in_range(stops: Seq<PendingStop>, n: int) -> bool {
    forall|k: int| 0 <= k < stops.len() ==> (#[trigger] stops[k]).index < n
}

/// Whether the id is in the list.
fn names_timer(ids: &Vec<TimerId>, id: TimerId) -> (r: bool)
    ensures
        r == ids@.contains(id),
{
    let mut i: usize = 0;
    while i < ids.len()
        invariant
            i <= ids@.len(),
            forall|k: int| 0 <= k < i ==> ids@[k] != id,
        decreases ids@.len() - i,
    {
        if ids[i] == id {
            assert(ids@[i as int] == id);
            return true;
        }
        i = i + 1;
    }
    false
}

/// The place of the first timer with the id that is due.
fn find_due(timers: &Vec<SetTimer>, id: TimerId, now: i64) -> (r: usize)
    ensures
        r == due_index(timers@, id, now),
        r <= timers@.len(),
        r < timers@.len() ==> timers@[r as int].id == id,
{
    let mut i: usize = 0;
    while i < timers.len()
        invariant
            i <= timers@.len(),
            due_index(timers@.subrange(0, i as int), id, now) == i,
        decreases timers@.len() - i,
    {
        assert(timers@.subrange(0, i + 1).drop_last() =~= timers@.subrange(0, i as int));
        if timers[i].id == id && timers[i].due_ms <= now {
            proof {
                lemma_due_index_stays(timers@, (i + 1) as int, id, now);
            }
            return i;
        }
        i = i + 1;
    }
    assert(timers@.subrange(0, timers@.len() as int) =~= timers@);
    i
}

/// The first timer that is due in front is the first one of all.
proof fn lemma_due_index_stays(timers: Seq<SetTimer>, n: int, id: TimerId, now: i64)
    requires
        0 <= n <= timers.len(),
        due_index(timers.subrange(0, n), id, now) < n,
    ensures
        due_index(timers, id, now) == due_index(timers.subrange(0, n), id, now),
    decreases timers.len(),
{
    if n == timers.len() {
        assert(timers.subrange(0, n) =~= timers);
    } else {
        assert(timers.drop_last().subrange(0, n) =~= timers.subrange(0, n));
        lemma_due_index_stays(timers.drop_last(), n, id, now);
    }
}

/// The ids of the timers that are due.
fn find_due_ids(timers: &Vec<SetTimer>, now: i64) -> (r: Vec<TimerId>)
    ensures
        r@ == due_ids(timers@, now),
{
    let mut out: Vec<TimerId> = Vec::new();
    let mut i: usize = 0;
    while i < timers.len()
        invariant
            i <= timers@.len(),
            out@ == due_ids(timers@.subrange(0, i as int), now),
        decreases timers@.len() - i,
    {
        assert(timers@.subrange(0, i + 1).drop_last() =~= timers@.subrange(0, i as int));
        if timers[i].due_ms <= now {
            out.push(timers[i].id);
        }
        i = i + 1;
    }
    assert(timers@.subrange(0, timers@.len() as int) =~= timers@);
    out
}

/// A stop that is noted names the strategy that was asked.
proof fn lemma_noted_in_range(
    before: Seq<PendingStop>,
    after: Seq<PendingStop>,
    index: int,
    reasons: Seq<Seq<char>>,
    n: int,
)
    requires
        noted(before, after, index, reasons),
        0 <= index < n,
        in_range(before, n),
    ensures
        in_range(after, n),
{
    assert forall|k: int| 0 <= k < after.len() implies (#[trigger] after[k]).index < n by {
        if k < before.len() {
            assert(after.len() > before.len() ==> after.drop_last()[k] == before[k]);
        }
    }
}

/// What a call of a strategy leaves alone: all other strategies, the stopped ones, the state.
proof fn lemma_called<S: Strategy>(
    v: EngineView<S>,
    w: EngineView<S>,
    index: int,
    call: Call,
    now: i64,
    reply: Captured,
)
    requires
        v.called(w, index, call, now, reply),
        0 <= index < v.strategies.len(),
    ensures
        w.strategies.len() == v.strategies.len(),
        forall|k: int|
            0 <= k < v.strategies.len() && k != index ==> #[trigger] w.strategies[k]
                == v.strategies[k],
        w.stopped == v.stopped,
        w.state == v.state,
        w.fills == v.fills,
        w.config == v.config,
{
    let (seen, left) = choose|seen: EngineContext<'_>, left: EngineContext<'_>| #[trigger]
        v.calls(w, index, call, now, reply, seen, left);
    assert(v.calls(w, index, call, now, reply, seen, left));
    assert forall|k: int| 0 <= k < v.strategies.len() && k != index implies #[trigger] w.strategies[k]
        == v.strategies[k] by {
        assert(w.strategies[k] == v.strategies.update(index, w.strategies[index])[k]);
    }
}

/// What stopping a strategy leaves alone.
proof fn lemma_stops<S: Strategy>(
    v: EngineView<S>,
    w: EngineView<S>,
    index: int,
    now: i64,
    before: Seq<Command>,
    commands: Seq<Command>,
)
    requires
        v.stops(w, index, now, before, commands),
        0 <= index < v.strategies.len(),
    ensures
        w.strategies.len() == v.strategies.len(),
        forall|k: int|
            0 <= k < v.strategies.len() && k != index ==> #[trigger] w.strategies[k]
                == v.strategies[k],
        w.stopped == v.stopped.insert(v.strategies[index].name()@, ()),
        w.state == v.state,
        w.fills == v.fills,
        w.config == v.config,
{
    let (told, reply) = choose|told: EngineView<S>, reply: Captured| #[trigger]
        v.called(told, index, Call::Stop, now, reply) && commands == before + commands_of(reply)
            && w == (EngineView {
            stopped: told.stopped.insert(v.strategies[index].name()@, ()),
            ..told
        });
    lemma_called(v, told, index, Call::Stop, now, reply);
}

/// Who is stopped and what a strategy is, while strategies are stopped.
proof fn lemma_stopping<S: Strategy>(
    v: EngineView<S>,
    w: EngineView<S>,
    stops: Seq<PendingStop>,
    now: i64,
    before: Seq<Command>,
    commands: Seq<Command>,
    engines: Seq<EngineView<S>>,
    said: Seq<Seq<Command>>,
    j: int,
)
    requires
        v.stopping(w, stops, now, before, commands, engines, said),
        in_range(stops, v.strategies.len() as int),
        0 <= j <= stops.len(),
    ensures
        engines[j].strategies.len() == v.strategies.len(),
        engines[j].state == v.state,
        engines[j].fills == v.fills,
        engines[j].config == v.config,
        forall|id: Seq<char>|
            v.stopped.contains_key(id) ==> #[trigger] engines[j].stopped.contains_key(id),
        forall|i: int|
            0 <= i < j ==> engines[j].stopped.contains_key(
                engines[i].strategies[(#[trigger] stops[i]).index as int].name()@,
            ),
        forall|k: int|
            0 <= k < v.strategies.len() && (forall|i: int|
                0 <= i < j ==> (#[trigger] stops[i]).index != k)
                ==> #[trigger] engines[j].strategies[k] == v.strategies[k],
    decreases j,
{
    if j > 0 {
        lemma_stopping(v, w, stops, now, before, commands, engines, said, j - 1);
        let e = engines[j - 1];
        assert(stops[j - 1].index < v.strategies.len());
        assert(stop_step(engines, said, stops, now, j - 1));
        lemma_stops(e, engines[j], stops[j - 1].index as int, now, said[j - 1], said[j]);
        assert forall|k: int|
            0 <= k < v.strategies.len() && (forall|i: int|
                0 <= i < j ==> (#[trigger] stops[i]).index != k) implies #[trigger] engines[j].strategies[k]
            == v.strategies[k] by {
            assert(stops[j - 1].index != k);
            assert(engines[j].strategies[k] == e.strategies[k]);
        }
    }
}

/// Who is stopped and what a strategy is, while an event is handed out.
proof fn lemma_handing<S: Strategy>(
    v: EngineView<S>,
    event: Event,
    now: i64,
    engines: Seq<EngineView<S>>,
    rounds: Seq<DispatchRound>,
    i: int,
)
    requires
        v.handing(event, now, engines, rounds),
        0 <= i <= v.strategies.len(),
    ensures
        engines[i].strategies.len() == v.strategies.len(),
        engines[i].stopped == v.stopped,
        engines[i].state == v.state,
        engines[i].fills == v.fills,
        engines[i].config == v.config,
        forall|k: int|
            0 <= k < v.strategies.len() && (k >= i || v.is_stopped(k))
                ==> #[trigger] engines[i].strategies[k] == v.strategies[k],
        forall|a: int|
            0 <= a < rounds[i].to_stop@.len() ==> (#[trigger] rounds[i].to_stop@[a]).index < i
                && !v.is_stopped(rounds[i].to_stop@[a].index as int),
        forall|a: int, b: int|
            0 <= a < b < rounds[i].to_stop@.len() ==> (#[trigger] rounds[i].to_stop@[a]).index
                < (#[trigger] rounds[i].to_stop@[b]).index,
    decreases i,
{
    if i > 0 {
        let k = i - 1;
        lemma_handing(v, event, now, engines, rounds, k);
        let e = engines[k];
        assert(hand_step(engines, rounds, event, now, k));
        assert(e.strategies[k] == v.strategies[k]);
        assert(e.is_stopped(k) == v.is_stopped(k));
        if !v.is_stopped(k) {
            let id = e.strategies[k].name();
            let reply = choose|reply: Captured| #[trigger]
                e.called(engines[k + 1], k, Call::Event(event), now, reply) && round_after(
                    rounds[k],
                    rounds[k + 1],
                    k,
                    id,
                    safety_reasons(event, id),
                    reply,
                );
            lemma_called(e, engines[i], k, Call::Event(event), now, reply);
            let (was, is) = (rounds[k].to_stop@, rounds[i].to_stop@);
            assert forall|a: int| 0 <= a < was.len() implies #[trigger] is[a] == was[a] by {
                assert(is.len() > was.len() ==> is.drop_last()[a] == was[a]);
            }
            assert forall|x: int|
                0 <= x < v.strategies.len() && (x >= i || v.is_stopped(x)) implies #[trigger] engines[i].strategies[x]
                == v.strategies[x] by {
                assert(e.strategies[x] == v.strategies[x]);
            }
        }
    }
}

/// A strategy that is stopped is not called when an event is handed out, neither for the event
/// nor to be stopped: it is as it was, and whatever was stopped stays stopped.
pub proof fn law_stopped_is_left_alone<S: Strategy>(
    v: EngineView<S>,
    w: EngineView<S>,
    event: Event,
    now: i64,
    commands: Seq<Command>,
)
    requires
        v.dispatched(w, event, now, commands),
    ensures
        w.strategies.len() == v.strategies.len(),
        forall|i: int|
            0 <= i < v.strategies.len() && v.is_stopped(i) ==> #[trigger] w.strategies[i]
                == v.strategies[i],
        forall|id: Seq<char>| v.stopped.contains_key(id) ==> #[trigger] w.stopped.contains_key(id),
        w.state == v.state,
        w.fills == v.fills,
        w.config == v.config,
{
    let n = v.strategies.len() as int;
    let (engines, rounds) = choose|engines: Seq<EngineView<S>>, rounds: Seq<DispatchRound>|
        {
            &&& #[trigger] v.handing(event, now, engines, rounds)
            &&& engines[n].wound_up(w, rounds[n].to_stop@, now, rounds[n].commands@, commands)
        };
    lemma_handing(v, event, now, engines, rounds, n);
    let stops = rounds[n].to_stop@;
    let e = engines[n];
    let (ends, said) = choose|ends: Seq<EngineView<S>>, said: Seq<Seq<Command>>| #[trigger]
        e.stopping(w, stops, now, rounds[n].commands@, commands, ends, said);
    assert(in_range(stops, n));
    lemma_stopping(
        e,
        w,
        stops,
        now,
        rounds[n].commands@,
        commands,
        ends,
        said,
        stops.len() as int,
    );
    assert forall|i: int|
        0 <= i < v.strategies.len() && v.is_stopped(i) implies #[trigger] w.strategies[i]
        == v.strategies[i] by {
        assert(e.strategies[i] == v.strategies[i]);
        assert forall|a: int| 0 <= a < stops.len() implies (#[trigger] stops[a]).index != i by {}
        assert(ends[stops.len() as int].strategies[i] == e.strategies[i]);
    }
}

/// However often a strategy asks for its stop while an event is handed out, it is told once.
pub proof fn law_told_once<S: Strategy>(
    v: EngineView<S>,
    event: Event,
    now: i64,
    engines: Seq<EngineView<S>>,
    rounds: Seq<DispatchRound>,
)
    requires
        v.handing(event, now, engines, rounds),
    ensures
        ({
            let stops = rounds[v.strategies.len() as int].to_stop@;
            &&& in_range(stops, v.strategies.len() as int)
            &&& forall|a: int, b: int|
                0 <= a < b < stops.len() ==> (#[trigger] stops[a]).index != (
                #[trigger] stops[b]).index
        }),
{
    lemma_handing(v, event, now, engines, rounds, v.strategies.len() as int);
}

/// Every strategy that is to be stopped is stopped in the end, under the id that it had when
/// it was told.
pub proof fn law_asked_stops_happen<S: Strategy>(
    v: EngineView<S>,
    w: EngineView<S>,
    stops: Seq<PendingStop>,
    now: i64,
    before: Seq<Command>,
    commands: Seq<Command>,
    engines: Seq<EngineView<S>>,
    said: Seq<Seq<Command>>,
    j: int,
)
    requires
        v.stopping(w, stops, now, before, commands, engines, said),
        in_range(stops, v.strategies.len() as int),
        0 <= j < stops.len(),
    ensures
        w.stopped.contains_key(engines[j].strategies[stops[j].index as int].name()@),
{
    lemma_stopping(v, w, stops, now, before, commands, engines, said, stops.len() as int);
    assert(stops[j].index < v.strategies.len());
}

/// Who is stopped and what a strategy is, while all are stopped.
proof fn lemma_halting<S: Strategy>(
    v: EngineView<S>,
    w: EngineView<S>,
    now: i64,
    commands: Seq<Command>,
    engines: Seq<EngineView<S>>,
    said: Seq<Seq<Command>>,
    i: int,
)
    requires
        v.halting(w, now, commands, engines, said),
        0 <= i <= v.strategies.len(),
    ensures
        engines[i].strategies.len() == v.strategies.len(),
        forall|k: int|
            0 <= k < v.strategies.len() && (k >= i || v.is_stopped(k))
                ==> #[trigger] engines[i].strategies[k] == v.strategies[k],
        forall|id: Seq<char>|
            v.stopped.contains_key(id) ==> #[trigger] engines[i].stopped.contains_key(id),
        forall|k: int|
            0 <= k < i ==> engines[i].stopped.contains_key(#[trigger] v.strategies[k].name()@),
    decreases i,
{
    if i > 0 {
        let k = i - 1;
        lemma_halting(v, w, now, commands, engines, said, k);
        let e = engines[k];
        assert(halt_step(engines, said, now, k));
        assert(e.strategies[k] == v.strategies[k]);
        if !e.is_stopped(k) {
            lemma_stops(e, engines[i], k, now, said[k], said[i]);
            assert(!v.is_stopped(k));
            assert forall|x: int|
                0 <= x < v.strategies.len() && (x >= i || v.is_stopped(x)) implies #[trigger] engines[i].strategies[x]
                == v.strategies[x] by {
                assert(e.strategies[x] == v.strategies[x]);
            }
        }
    }
}

/// When all strategies are stopped, each one counts as stopped, and one that was stopped
/// before is not told again.
pub proof fn law_all_stopped<S: Strategy>(
    v: EngineView<S>,
    w: EngineView<S>,
    now: i64,
    commands: Seq<Command>,
)
    requires
        v.halted(w, now, commands),
    ensures
        w.strategies.len() == v.strategies.len(),
        forall|i: int|
            0 <= i < v.strategies.len() ==> w.stopped.contains_key(
                #[trigger] v.strategies[i].name()@,
            ),
        forall|i: int|
            0 <= i < v.strategies.len() && v.is_stopped(i) ==> #[trigger] w.strategies[i]
                == v.strategies[i],
{
    let (engines, said) = choose|engines: Seq<EngineView<S>>, said: Seq<Seq<Command>>| #[trigger]
        v.halting(w, now, commands, engines, said);
    lemma_halting(v, w, now, commands, engines, said, v.strategies.len() as int);
}

/// Where all strategies are stopped, stopping them again tells none.
pub proof fn law_stopped_once<S: Strategy>(
    v: EngineView<S>,
    w: EngineView<S>,
    now: i64,
    commands: Seq<Command>,
)
    requires
        v.halted(w, now, commands),
        forall|i: int| 0 <= i < v.strategies.len() ==> #[trigger] v.is_stopped(i),
    ensures
        w == v,
        commands.len() == 0,
{
    let (engines, said) = choose|engines: Seq<EngineView<S>>, said: Seq<Seq<Command>>| #[trigger]
        v.halting(w, now, commands, engines, said);
    lemma_none_told(v, w, now, commands, engines, said, v.strategies.len() as int);
}

proof fn lemma_none_told<S: Strategy>(
    v: EngineView<S>,
    w: EngineView<S>,
    now: i64,
    commands: Seq<Command>,
    engines: Seq<EngineView<S>>,
    said: Seq<Seq<Command>>,
    i: int,
)
    requires
        v.halting(w, now, commands, engines, said),
        forall|i: int| 0 <= i < v.strategies.len() ==> #[trigger] v.is_stopped(i),
        0 <= i <= v.strategies.len(),
    ensures
        engines[i] == v,
        said[i].len() == 0,
    decreases i,
{
    if i > 0 {
        lemma_none_told(v, w, now, commands, engines, said, i - 1);
        assert(v.is_stopped(i - 1));
        assert(halt_step(engines, said, now, i - 1));
    }
}

/// A rejected order for want of funds, or from a wallet that expired, stops the strategy.
pub proof fn law_shortage_stops(
    before: DispatchRound,
    after: DispatchRound,
    index: int,
    id: StrategyId,
    event: Event,
    c: Captured,
)
    requires
        round_after(before, after, index, id, safety_reasons(event, id), c),
        tells_shortage(event),
    ensures
        after.to_stop@.len() == before.to_stop@.len() + 1,
        after.to_stop@.last().index == index,
        after.to_stop@.last().reason@ == safety_reasons(event, id)[0],
{
    assert(safety_reasons(event, id).len() > 0);
}

/// A timer that a strategy sets, and does not cancel in the same call, waits until its delay
/// is over; and any timer that waits goes on waiting through a call that does not cancel it.
pub proof fn law_set_timer_waits<S: Strategy>(
    v: EngineView<S>,
    w: EngineView<S>,
    index: int,
    call: Call,
    now: i64,
    reply: Captured,
    seen: EngineContext<'_>,
    left: EngineContext<'_>,
)
    requires
        v.calls(w, index, call, now, reply, seen, left),
    ensures
        forall|k: int|
            0 <= k < left.timers@.len() && !left.canceled_timers@.contains(
                (#[trigger] left.timers@[k]).id,
            ) ==> w.timers.contains(waiting(left.timers@[k], index as usize, now)),
        forall|k: int|
            0 <= k < v.timers.len() && !left.canceled_timers@.contains((#[trigger] v.timers[k]).id)
                ==> w.timers.contains(v.timers[k]),
{
    let set = left.timers@.map_values(|t: PendingTimer| waiting(t, index as usize, now));
    let all = v.timers + set;
    let pred = |t: SetTimer| !left.canceled_timers@.contains(t.id);
    assert forall|k: int|
        0 <= k < left.timers@.len() && !left.canceled_timers@.contains(
            (#[trigger] left.timers@[k]).id,
        ) implies w.timers.contains(waiting(left.timers@[k], index as usize, now)) by {
        assert(all[v.timers.len() + k] == set[k]);
        all.lemma_filter_contains(pred, v.timers.len() + k);
    }
    assert forall|k: int|
        0 <= k < v.timers.len() && !left.canceled_timers@.contains(
            (#[trigger] v.timers[k]).id,
        ) implies w.timers.contains(v.timers[k]) by {
        assert(all[k] == v.timers[k]);
        all.lemma_filter_contains(pred, k);
    }
}

/// A timer with the id waits and is due.
pub open spec fn waits_due(timers: Seq<SetTimer>, id: TimerId, now: i64) -> bool {
    exists|k: int|
        0 <= k < timers.len() && (#[trigger] timers[k]).due_ms <= now && timers[k].id == id
}

/// A timer is among those that fire exactly from the time on at which it is due: every one
/// that is due is listed, and none is listed early.
pub proof fn law_timers_fire_when_due(timers: Seq<SetTimer>, now: i64)
    ensures
        forall|k: int|
            0 <= k < timers.len() && (#[trigger] timers[k]).due_ms <= now ==> due_ids(
                timers,
                now,
            ).contains(timers[k].id),
        forall|a: int|
            0 <= a < due_ids(timers, now).len() ==> waits_due(
                timers,
                #[trigger] due_ids(timers, now)[a],
                now,
            ),
    decreases timers.len(),
{
    if timers.len() > 0 {
        let rest = timers.drop_last();
        law_timers_fire_when_due(rest, now);
        let (was, is) = (due_ids(rest, now), due_ids(timers, now));
        assert forall|k: int|
            0 <= k < timers.len() && (#[trigger] timers[k]).due_ms <= now implies is.contains(
            timers[k].id,
        ) by {
            if k < rest.len() {
                assert(rest[k] == timers[k]);
                assert(was.contains(rest[k].id));
                let a = choose|a: int| 0 <= a < was.len() && was[a] == rest[k].id;
                assert(is[a] == was[a]);
            } else {
                assert(is.last() == timers[k].id);
            }
        }
        assert forall|a: int| 0 <= a < is.len() implies waits_due(
            timers,
            #[trigger] is[a],
            now,
        ) by {
            if a < was.len() {
                assert(is[a] == was[a]);
                assert(waits_due(rest, was[a], now));
                let k = choose|k: int|
                    0 <= k < rest.len() && (#[trigger] rest[k]).due_ms <= now && rest[k].id
                        == was[a];
                assert(timers[k] == rest[k]);
            } else {
                assert(timers[timers.len() - 1].id == is[a]);
            }
        }
    }
}

/// The first due timer with an id is due and has the id; it is found where there is one.
pub proof fn lemma_due_index(timers: Seq<SetTimer>, id: TimerId, now: i64)
    ensures
        ({
            let k = due_index(timers, id, now);
            &&& 0 <= k <= timers.len()
            &&& k < timers.len() ==> timers[k].id == id && timers[k].due_ms <= now
            &&& forall|i: int|
                0 <= i < timers.len() && (#[trigger] timers[i]).id == id && timers[i].due_ms <= now
                    ==> k <= i
        }),
    decreases timers.len(),
{
    if timers.len() > 0 {
        lemma_due_index(timers.drop_last(), id, now);
        assert forall|i: int|
            0 <= i < timers.len() && (#[trigger] timers[i]).id == id && timers[i].due_ms
                <= now implies due_index(timers, id, now) <= i by {
            if i < timers.len() - 1 {
                assert(timers.drop_last()[i] == timers[i]);
            }
        }
    }
}

/// A timer that is set fires: when the timers that are due are fired, the first one calls its
/// strategy, and so does every other one that still waits when its turn comes and whose
/// strategy still runs.
pub proof fn law_timer_fires<S: Strategy>(
    v: EngineView<S>,
    w: EngineView<S>,
    now: i64,
    commands: Seq<Command>,
    engines: Seq<EngineView<S>>,
    said: Seq<Seq<Command>>,
    i: int,
    k: int,
)
    requires
        v.firing(w, now, commands, engines, said),
        0 <= i < due_ids(v.timers, now).len(),
        0 <= k < engines[i].timers.len(),
        engines[i].timers[k].id == due_ids(v.timers, now)[i],
        engines[i].timers[k].due_ms <= now,
        forall|j: int|
            0 <= j < k ==> (#[trigger] engines[i].timers[j]).id != engines[i].timers[k].id,
        engines[i].runs(engines[i].timers[k].owner as int),
    ensures
        exists|told: EngineView<S>, reply: Captured| #[trigger]
            engines[i].taken_off(k, now).called(
                told,
                engines[i].timers[k].owner as int,
                Call::Timer(engines[i].timers[k].id),
                now,
                reply,
            ),
        engines[0] == v,
{
    let e = engines[i];
    let id = e.timers[k].id;
    lemma_due_index(e.timers, id, now);
    assert(due_index(e.timers, id, now) == k);
    assert(fire_step(engines, said, due_ids(v.timers, now), now, i));
    let set = e.taken_off(k, now);
    let (told, reply, asked, stops) = choose|
        told: EngineView<S>,
        reply: Captured,
        asked: Seq<Command>,
        stops: Seq<PendingStop>,
    | #[trigger]
        set.answers(
            engines[i + 1],
            e.timers[k],
            now,
            said[i],
            said[i + 1],
            told,
            reply,
            asked,
            stops,
        );
    assert(set.called(told, e.timers[k].owner as int, Call::Timer(id), now, reply));
}

/// A timer that fired once is over, and one that repeats is due again after its interval; the
/// others wait as they did.
pub proof fn law_timer_fires_again(timers: Seq<SetTimer>, k: int, now: i64)
    requires
        0 <= k < timers.len(),
        forall|i: int| 0 <= i < timers.len() && i != k ==> (#[trigger] timers[i]).id != timers[k].id,
    ensures
        timers[k].interval_ms is None ==> forall|i: int|
            0 <= i < fired_off(timers, k, now).len() ==> (#[trigger] fired_off(
                timers,
                k,
                now,
            )[i]).id != timers[k].id,
        timers[k].interval_ms matches Some(interval) ==> fired_off(timers, k, now).contains(
            SetTimer { due_ms: due_at(now, interval), ..timers[k] },
        ),
        forall|i: int|
            0 <= i < timers.len() && i != k ==> fired_off(timers, k, now).contains(
                #[trigger] timers[i],
            ),
{
    let left = fired_off(timers, k, now);
    match timers[k].interval_ms {
        Some(interval) => {
            assert(left[k] == SetTimer { due_ms: due_at(now, interval), ..timers[k] });
            assert forall|i: int| 0 <= i < timers.len() && i != k implies left.contains(
                #[trigger] timers[i],
            ) by {
                assert(left[i] == timers[i]);
            }
        },
        None => {
            assert forall|i: int| 0 <= i < timers.len() && i != k implies left.contains(
                #[trigger] timers[i],
            ) by {
                if i < k {
                    assert(left[i] == timers[i]);
                } else {
                    assert(left[i - 1] == timers[i]);
                }
            }
            assert forall|i: int| 0 <= i < left.len() implies (#[trigger] left[i]).id
                != timers[k].id by {
                assert(left[i] == if i < k { timers[i] } else { timers[i + 1] });
            }
        },
    }
}

/// A timer of a strategy that does not run calls nobody, and neither does one that was
/// canceled.
pub proof fn law_no_timer_calls_a_stopped_strategy<S: Strategy>(
    v: EngineView<S>,
    w: EngineView<S>,
    now: i64,
    commands: Seq<Command>,
)
    requires
        v.fired(w, now, commands),
    ensures
        w.strategies.len() == v.strategies.len(),
        forall|i: int|
            0 <= i < v.strategies.len() && v.is_stopped(i) ==> #[trigger] w.strategies[i]
                == v.strategies[i],
        forall|id: Seq<char>| v.stopped.contains_key(id) ==> #[trigger] w.stopped.contains_key(id),
        w.state == v.state,
        w.fills == v.fills,
{
    let (engines, said) = choose|engines: Seq<EngineView<S>>, said: Seq<Seq<Command>>| #[trigger]
        v.firing(w, now, commands, engines, said);
    lemma_firing(v, w, now, commands, engines, said, due_ids(v.timers, now).len() as int);
}

proof fn lemma_firing<S: Strategy>(
    v: EngineView<S>,
    w: EngineView<S>,
    now: i64,
    commands: Seq<Command>,
    engines: Seq<EngineView<S>>,
    said: Seq<Seq<Command>>,
    i: int,
)
    requires
        v.firing(w, now, commands, engines, said),
        0 <= i <= due_ids(v.timers, now).len(),
    ensures
        engines[i].strategies.len() == v.strategies.len(),
        forall|k: int|
            0 <= k < v.strategies.len() && v.is_stopped(k) ==> #[trigger] engines[i].strategies[k]
                == v.strategies[k],
        forall|id: Seq<char>|
            v.stopped.contains_key(id) ==> #[trigger] engines[i].stopped.contains_key(id),
        engines[i].state == v.state,
        engines[i].fills == v.fills,
    decreases i,
{
    if i > 0 {
        lemma_firing(v, w, now, commands, engines, said, i - 1);
        let e = engines[i - 1];
        let id = due_ids(v.timers, now)[i - 1];
        assert(fire_step(engines, said, due_ids(v.timers, now), now, i - 1));
        lemma_due_index(e.timers, id, now);
        let k = due_index(e.timers, id, now);
        if k < e.timers.len() && e.runs(e.timers[k].owner as int) {
            let set = e.taken_off(k, now);
            let owner = e.timers[k].owner as int;
            let (told, reply, asked, stops) = choose|
                told: EngineView<S>,
                reply: Captured,
                asked: Seq<Command>,
                stops: Seq<PendingStop>,
            | #[trigger]
                set.answers(
                    engines[i],
                    e.timers[k],
                    now,
                    said[i - 1],
                    said[i],
                    told,
                    reply,
                    asked,
                    stops,
                );
            lemma_called(set, told, owner, Call::Timer(id), now, reply);
            let (ends, spoken) = choose|ends: Seq<EngineView<S>>, spoken: Seq<Seq<Command>>| #[trigger]
                told.stopping(engines[i], stops, now, asked, said[i], ends, spoken);
            assert(stops.len() <= 1);
            assert(in_range(stops, v.strategies.len() as int));
            lemma_stopping(
                told,
                engines[i],
                stops,
                now,
                asked,
                said[i],
                ends,
                spoken,
                stops.len() as int,
            );
            assert forall|x: int|
                0 <= x < v.strategies.len() && v.is_stopped(x) implies #[trigger] engines[i].strategies[x]
                == v.strategies[x] by {
                assert(e.strategies[x] == v.strategies[x]);
                assert(x != owner);
                assert(told.strategies[x] == e.strategies[x]);
                assert forall|a: int| 0 <= a < stops.len() implies (#[trigger] stops[a]).index
                    != x by {}
                assert(ends[stops.len() as int].strategies[x] == told.strategies[x]);
            }
        }
    }
}

/// The id of a strategy stays what it is, whatever it is called for.
pub open spec fn keeps_name<S: Strategy>() -> bool {
    forall|s: S, call: Call, seen: EngineContext<'_>, t: S, left: EngineContext<'_>| #[trigger]
        s.acts(call, seen, &t, left) ==> t.name() == s.name()
}

/// A rejected order for want of funds or margin, or for its size, or from a wallet that
/// expired.
pub open spec fn tells_shortage(event: Event) -> bool {
    event matches Event::OrderRejected(r) && {
        ||| text::has_text(r.reason@, "Insufficient margin"@)
        ||| text::has_text(r.reason@, "Insufficient spot balance"@)
        ||| text::has_text(r.reason@, "minimum value"@)
        ||| text::has_text(r.reason@, "User or API Wallet"@)
    }
}

/// The strategy got the event and was then told to stop, and was not called otherwise.
pub open spec fn told_and_stopped<S: Strategy>(before: S, after: S, event: Event) -> bool {
    exists|
        between: S,
        seen: EngineContext<'_>,
        left: EngineContext<'_>,
        seen2: EngineContext<'_>,
        left2: EngineContext<'_>,
    |
        #[trigger] before.acts(Call::Event(event), seen, &between, left)
            && #[trigger] between.acts(Call::Stop, seen2, &after, left2)
}

impl<S: Strategy> EngineView<S> {
    /// The event is handed out past a strategy: its turn changes neither the engine nor the
    /// commands, and it is not among those that are told to stop.
    pub open spec fn passes_over(
        self,
        after: EngineView<S>,
        event: Event,
        now: i64,
        commands: Seq<Command>,
        index: int,
    ) -> bool {
        let n = self.strategies.len() as int;
        exists|engines: Seq<EngineView<S>>, rounds: Seq<DispatchRound>|
            {
                &&& #[trigger] self.handing(event, now, engines, rounds)
                &&& engines[n].wound_up(
                    after,
                    rounds[n].to_stop@,
                    now,
                    rounds[n].commands@,
                    commands,
                )
                &&& engines[index + 1] == engines[index]
                &&& rounds[index + 1] == rounds[index]
                &&& forall|a: int|
                    0 <= a < rounds[n].to_stop@.len() ==> (#[trigger] rounds[n].to_stop@[a]).index
                        != index
                &&& after.strategies[index] == self.strategies[index]
            }
    }
}

/// Events are handed out one after the other, through the states of the engine.
pub open spec fn dispatch_step<S: Strategy>(
    states: Seq<EngineView<S>>,
    events: Seq<Event>,
    times: Seq<i64>,
    said: Seq<Seq<Command>>,
    k: int,
) -> bool {
    states[k].dispatched(states[k + 1], events[k], times[k], said[k])
}

/// While an event is handed out, what is said and whom to stop only grows, and a strategy
/// whose turn is over stays as it is.
proof fn lemma_rounds_grow<S: Strategy>(
    v: EngineView<S>,
    event: Event,
    now: i64,
    engines: Seq<EngineView<S>>,
    rounds: Seq<DispatchRound>,
    k: int,
    m: int,
)
    requires
        v.handing(event, now, engines, rounds),
        0 <= k <= m <= v.strategies.len(),
    ensures
        rounds[k].commands@.is_prefix_of(rounds[m].commands@),
        rounds[k].to_stop@.is_prefix_of(rounds[m].to_stop@),
        forall|j: int|
            0 <= j < k ==> #[trigger] engines[m].strategies[j] == engines[k].strategies[j],
    decreases m - k,
{
    if k < m {
        lemma_rounds_grow(v, event, now, engines, rounds, k, m - 1);
        lemma_handing(v, event, now, engines, rounds, m - 1);
        let e = engines[m - 1];
        assert(hand_step(engines, rounds, event, now, m - 1));
        if !e.is_stopped(m - 1) {
            let id = e.strategies[m - 1].name();
            let reply = choose|reply: Captured| #[trigger]
                e.called(engines[m], m - 1, Call::Event(event), now, reply) && round_after(
                    rounds[m - 1],
                    rounds[m],
                    m - 1,
                    id,
                    safety_reasons(event, id),
                    reply,
                );
            lemma_called(e, engines[m], m - 1, Call::Event(event), now, reply);
            lemma_round_grows(rounds[m - 1], rounds[m], m - 1, id, safety_reasons(event, id), reply);
            assert(rounds[k].commands@.is_prefix_of(rounds[m].commands@)) by {
                lemma_prefixes(rounds[k].commands@, rounds[m - 1].commands@, rounds[m].commands@);
            }
            assert(rounds[k].to_stop@.is_prefix_of(rounds[m].to_stop@)) by {
                lemma_prefixes(rounds[k].to_stop@, rounds[m - 1].to_stop@, rounds[m].to_stop@);
            }
            assert forall|j: int| 0 <= j < k implies #[trigger] engines[m].strategies[j]
                == engines[k].strategies[j] by {
                assert(e.strategies[j] == engines[k].strategies[j]);
            }
        }
    }
}

proof fn lemma_prefixes<A>(a: Seq<A>, b: Seq<A>, c: Seq<A>)
    requires
        a.is_prefix_of(b),
        b.is_prefix_of(c),
    ensures
        a.is_prefix_of(c),
{
    assert forall|i: int| 0 <= i < a.len() implies a[i] == c[i] by {
        assert(a[i] == b.subrange(0, a.len() as int)[i]);
        assert(b[i] == c.subrange(0, b.len() as int)[i]);
    }
    assert(a =~= c.subrange(0, a.len() as int));
}

proof fn lemma_round_grows(
    before: DispatchRound,
    after: DispatchRound,
    index: int,
    id: StrategyId,
    reasons: Seq<Seq<char>>,
    c: Captured,
)
    requires
        round_after(before, after, index, id, reasons, c),
    ensures
        before.commands@.is_prefix_of(after.commands@),
        before.to_stop@.is_prefix_of(after.to_stop@),
{
    let n = before.to_stop@.len() as int;
    if stop_reasons(reasons, c, id).len() > 0 {
        assert(after.to_stop@.drop_last() =~= after.to_stop@.subrange(0, n));
    } else {
        assert(after.to_stop@.subrange(0, n) =~= after.to_stop@);
    }
}

/// While strategies are stopped, what is said only grows, and those that are not told between
/// two steps stay as they are.
proof fn lemma_stopping_between<S: Strategy>(
    v: EngineView<S>,
    w: EngineView<S>,
    stops: Seq<PendingStop>,
    now: i64,
    before: Seq<Command>,
    commands: Seq<Command>,
    engines: Seq<EngineView<S>>,
    said: Seq<Seq<Command>>,
    a: int,
    b: int,
    index: int,
)
    requires
        v.stopping(w, stops, now, before, commands, engines, said),
        in_range(stops, v.strategies.len() as int),
        0 <= a <= b <= stops.len(),
        0 <= index < v.strategies.len(),
        forall|i: int| a <= i < b ==> (#[trigger] stops[i]).index != index,
    ensures
        said[a].is_prefix_of(said[b]),
        engines[b].strategies[index] == engines[a].strategies[index],
    decreases b - a,
{
    if a < b {
        lemma_stopping_between(
            v,
            w,
            stops,
            now,
            before,
            commands,
            engines,
            said,
            a,
            b - 1,
            index,
        );
        lemma_stopping(v, w, stops, now, before, commands, engines, said, b - 1);
        let e = engines[b - 1];
        assert(stops[b - 1].index < v.strategies.len());
        assert(stop_step(engines, said, stops, now, b - 1));
        lemma_stops(e, engines[b], stops[b - 1].index as int, now, said[b - 1], said[b]);
        lemma_said_grows(e, engines[b], stops[b - 1].index as int, now, said[b - 1], said[b]);
        lemma_prefixes(said[a], said[b - 1], said[b]);
    } else {
        assert(said[a] =~= said[a].subrange(0, said[a].len() as int));
    }
}

proof fn lemma_said_grows<S: Strategy>(
    v: EngineView<S>,
    w: EngineView<S>,
    index: int,
    now: i64,
    before: Seq<Command>,
    commands: Seq<Command>,
)
    requires
        v.stops(w, index, now, before, commands),
    ensures
        before.is_prefix_of(commands),
{
    let (told, reply) = choose|told: EngineView<S>, reply: Captured| #[trigger]
        v.called(told, index, Call::Stop, now, reply) && commands == before + commands_of(reply)
            && w == (EngineView {
            stopped: told.stopped.insert(v.strategies[index].name()@, ()),
            ..told
        });
    assert(commands.subrange(0, before.len() as int) =~= before);
}

/// A strategy whose order is rejected for want of funds is stopped: the commands hold its stop
/// for that reason, it gets the event and is then told to stop, once, and counts as stopped.
proof fn lemma_shortage_dispatch<S: Strategy>(
    v: EngineView<S>,
    w: EngineView<S>,
    event: Event,
    now: i64,
    commands: Seq<Command>,
    index: int,
)
    requires
        keeps_name::<S>(),
        v.dispatched(w, event, now, commands),
        0 <= index < v.strategies.len(),
        !v.is_stopped(index),
        tells_shortage(event),
    ensures
        ({
            let id = v.strategies[index].name();
            &&& exists|k: int|
                0 <= k < commands.len() && is_stop(
                    #[trigger] commands[k],
                    id,
                    safety_reasons(event, id)[0],
                )
            &&& told_and_stopped(v.strategies[index], w.strategies[index], event)
            &&& w.strategies[index].name() == id
            &&& w.stopped.contains_key(id@)
        }),
{
    let n = v.strategies.len() as int;
    let id = v.strategies[index].name();
    let (engines, rounds) = choose|engines: Seq<EngineView<S>>, rounds: Seq<DispatchRound>|
        {
            &&& #[trigger] v.handing(event, now, engines, rounds)
            &&& engines[n].wound_up(w, rounds[n].to_stop@, now, rounds[n].commands@, commands)
        };
    lemma_handing(v, event, now, engines, rounds, index);
    lemma_handing(v, event, now, engines, rounds, n);
    let e = engines[index];
    assert(e.strategies[index] == v.strategies[index]);
    assert(hand_step(engines, rounds, event, now, index));
    let reply = choose|reply: Captured| #[trigger]
        e.called(engines[index + 1], index, Call::Event(event), now, reply) && round_after(
            rounds[index],
            rounds[index + 1],
            index,
            id,
            safety_reasons(event, id),
            reply,
        );
    let (seen, left) = choose|seen: EngineContext<'_>, left: EngineContext<'_>| #[trigger]
        e.calls(engines[index + 1], index, Call::Event(event), now, reply, seen, left);
    let between = engines[index + 1].strategies[index];
    assert(v.strategies[index].acts(Call::Event(event), seen, &between, left));
    let reasons = safety_reasons(event, id);
    assert(reasons.len() > 0);
    // The stop among the commands and among those who are to be stopped.
    let c = rounds[index].commands@.len() as int;
    let (r1, rn) = (rounds[index + 1], rounds[n]);
    assert(is_stop(r1.commands@[c + 0], id, reasons[0]));
    lemma_rounds_grow(v, event, now, engines, rounds, index + 1, n);
    assert(engines[n].strategies[index] == between);
    let stops = rn.to_stop@;
    let a = r1.to_stop@.len() - 1;
    assert(r1.to_stop@[a].index == index);
    assert(stops[a] == stops.subrange(0, r1.to_stop@.len() as int)[a]);
    assert(stops[a].index == index);
    assert(rn.commands@[c] == rn.commands@.subrange(0, r1.commands@.len() as int)[c]);
    let (ends, said) = choose|ends: Seq<EngineView<S>>, said: Seq<Seq<Command>>| #[trigger]
        engines[n].stopping(w, stops, now, rn.commands@, commands, ends, said);
    assert(in_range(stops, n));
    assert forall|i: int| 0 <= i < a implies (#[trigger] stops[i]).index != index by {
        assert(stops[i].index < stops[a].index);
    }
    assert forall|i: int| a + 1 <= i < stops.len() implies (#[trigger] stops[i]).index != index by {
        assert(stops[a].index < stops[i].index);
    }
    let m = stops.len() as int;
    lemma_stopping_between(
        engines[n],
        w,
        stops,
        now,
        rn.commands@,
        commands,
        ends,
        said,
        0,
        a,
        index,
    );
    lemma_stopping_between(
        engines[n],
        w,
        stops,
        now,
        rn.commands@,
        commands,
        ends,
        said,
        a + 1,
        m,
        index,
    );
    lemma_stopping(engines[n], w, stops, now, rn.commands@, commands, ends, said, a);
    lemma_stopping(engines[n], w, stops, now, rn.commands@, commands, ends, said, m);
    assert(stop_step(ends, said, stops, now, a));
    lemma_said_grows(ends[a], ends[a + 1], index, now, said[a], said[a + 1]);
    lemma_prefixes(said[0], said[a], said[a + 1]);
    lemma_prefixes(said[0], said[a + 1], said[m]);
    assert(commands[c] == commands.subrange(0, rn.commands@.len() as int)[c]);
    assert(is_stop(commands[c], id, reasons[0]));
    let (told, reply2) = choose|told: EngineView<S>, reply2: Captured| #[trigger]
        ends[a].called(told, index, Call::Stop, now, reply2) && said[a + 1] == said[a]
            + commands_of(reply2) && ends[a + 1] == (EngineView {
            stopped: told.stopped.insert(ends[a].strategies[index].name()@, ()),
            ..told
        });
    let (seen2, left2) = choose|seen2: EngineContext<'_>, left2: EngineContext<'_>| #[trigger]
        ends[a].calls(told, index, Call::Stop, now, reply2, seen2, left2);
    assert(between.acts(Call::Stop, seen2, &told.strategies[index], left2));
    assert(w.strategies[index] == told.strategies[index]);
}

/// An event is handed out past a strategy that is stopped.
proof fn lemma_passed_over<S: Strategy>(
    v: EngineView<S>,
    w: EngineView<S>,
    event: Event,
    now: i64,
    commands: Seq<Command>,
    index: int,
)
    requires
        v.dispatched(w, event, now, commands),
        0 <= index < v.strategies.len(),
        v.is_stopped(index),
    ensures
        v.passes_over(w, event, now, commands, index),
        w.strategies.len() == v.strategies.len(),
        w.strategies[index] == v.strategies[index],
        w.is_stopped(index),
{
    law_stopped_is_left_alone(v, w, event, now, commands);
    let n = v.strategies.len() as int;
    let (engines, rounds) = choose|engines: Seq<EngineView<S>>, rounds: Seq<DispatchRound>|
        {
            &&& #[trigger] v.handing(event, now, engines, rounds)
            &&& engines[n].wound_up(w, rounds[n].to_stop@, now, rounds[n].commands@, commands)
        };
    lemma_handing(v, event, now, engines, rounds, index);
    lemma_handing(v, event, now, engines, rounds, n);
    assert(engines[index].strategies[index] == v.strategies[index]);
    assert(hand_step(engines, rounds, event, now, index));
    assert forall|a: int| 0 <= a < rounds[n].to_stop@.len() implies (
    #[trigger] rounds[n].to_stop@[a]).index != index by {}
    assert(v.handing(event, now, engines, rounds));
}

/// A strategy whose order is rejected for want of funds, or whose wallet expired, is stopped
/// for good: the commands hold its stop for that reason; it gets the event, is told to stop,
/// once, and counts as stopped from then on; and however many events are handed out later, it
/// gets none of them, is not told again, and none of the commands is its own. This is so of
/// every strategy whose id does not change.
pub proof fn law_shortage_stops_for_good<S: Strategy>(
    v: EngineView<S>,
    event: Event,
    now: i64,
    commands: Seq<Command>,
    index: int,
    states: Seq<EngineView<S>>,
    events: Seq<Event>,
    times: Seq<i64>,
    said: Seq<Seq<Command>>,
)
    requires
        keeps_name::<S>(),
        0 <= index < v.strategies.len(),
        !v.is_stopped(index),
        tells_shortage(event),
        states.len() == events.len() + 1,
        v.dispatched(states[0], event, now, commands),
        forall|k: int|
            0 <= k < events.len() ==> #[trigger] dispatch_step(states, events, times, said, k),
    ensures
        ({
            let id = v.strategies[index].name();
            &&& exists|k: int|
                0 <= k < commands.len() && is_stop(
                    #[trigger] commands[k],
                    id,
                    safety_reasons(event, id)[0],
                )
            &&& told_and_stopped(v.strategies[index], states[0].strategies[index], event)
            &&& forall|k: int|
                0 <= k < states.len() ==> {
                    &&& (#[trigger] states[k]).stopped.contains_key(id@)
                    &&& states[k].is_stopped(index)
                    &&& states[k].strategies[index] == states[0].strategies[index]
                }
            &&& forall|k: int|
                0 <= k < events.len() ==> states[k].passes_over(
                    states[k + 1],
                    #[trigger] events[k],
                    times[k],
                    said[k],
                    index,
                )
        }),
{
    lemma_shortage_dispatch(v, states[0], event, now, commands, index);
    law_stopped_is_left_alone(v, states[0], event, now, commands);
    let id = v.strategies[index].name();
    assert forall|k: int| 0 <= k < states.len() implies {
        &&& (#[trigger] states[k]).stopped.contains_key(id@)
        &&& states[k].is_stopped(index)
        &&& states[k].strategies[index] == states[0].strategies[index]
    } by {
        lemma_stays_stopped(states, events, times, said, index, k);
    }
    assert forall|k: int| 0 <= k < events.len() implies states[k].passes_over(
        states[k + 1],
        #[trigger] events[k],
        times[k],
        said[k],
        index,
    ) by {
        lemma_stays_stopped(states, events, times, said, index, k);
        assert(dispatch_step(states, events, times, said, k));
        lemma_passed_over(states[k], states[k + 1], events[k], times[k], said[k], index);
    }
}

proof fn lemma_stays_stopped<S: Strategy>(
    states: Seq<EngineView<S>>,
    events: Seq<Event>,
    times: Seq<i64>,
    said: Seq<Seq<Command>>,
    index: int,
    k: int,
)
    requires
        states.len() == events.len() + 1,
        forall|k: int|
            0 <= k < events.len() ==> #[trigger] dispatch_step(states, events, times, said, k),
        0 <= index < states[0].strategies.len(),
        states[0].is_stopped(index),
        0 <= k < states.len(),
    ensures
        states[k].strategies.len() == states[0].strategies.len(),
        states[k].is_stopped(index),
        states[k].strategies[index] == states[0].strategies[index],
    decreases k,
{
    if k > 0 {
        lemma_stays_stopped(states, events, times, said, index, k - 1);
        assert(dispatch_step(states, events, times, said, k - 1));
        lemma_passed_over(
            states[k - 1],
            states[k],
            events[k - 1],
            times[k - 1],
            said[k - 1],
            index,
        );
    }
}

} // verus!
