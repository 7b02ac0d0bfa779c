//! The order in which the main loop does its work.
use vstd::prelude::*;
use crate::deferred::MAX_DEFERRED_ACTION_LIMIT_PER_LOOP;

verus! {

/// What the main loop does next.
#[derive(Debug, Clone, Copy, PartialEq, Eq, Structural)]
pub enum Phase {
    /// Set an exchange up.
    Init(usize),
    /// An exchange could not be set up: stop the strategies at once.
    Abort,
    /// Start the strategies.
    Start,
    /// See whether the loop is to stop.
    Check,
    /// Try a command again that was put off.
    Retry(usize),
    /// Fire the timers that are due.
    Timers,
    /// Poll the fills or the account of an exchange.
    Poll(usize),
    /// Poll the quotes of an exchange.
    Quotes(usize),
    /// See whether a backtest is over.
    Exhausted,
    /// Report the trades.
    Sync,
    /// Report the state.
    Report,
    /// Wait for the next round.
    Pause,
    /// Stop the strategies.
    Stop,
    /// Wait for what the stop set off.
    Cleanup,
    /// Report the trades for the last time.
    FinalSync,
    /// Give the results.
    Results,
    Done,
}

/// What is known when a phase is over.
#[derive(Debug, Clone, Copy)]
pub struct Facts {
    /// How many exchanges there are.
    pub exchanges: usize,
    /// There are instruments whose quotes are polled.
    pub has_instruments: bool,
    /// The exchange was set up.
    pub init_ok: bool,
    /// A strategy, or a full queue, stops the loop.
    pub should_shutdown: bool,
    /// The loop was told to stop from outside.
    pub signal: bool,
    /// A command was due and was tried again.
    pub retried: bool,
    /// The backtest is over.
    pub backtest_over: bool,
}

/// The phase with which a run begins.
pub open spec fn first(exchanges: usize) -> Phase {
    if exchanges > 0 {
        Phase::Init(0)
    } else {
        Phase::Start
    }
}

/// The phase that polls quotes, where there is anything to poll.
pub open spec fn quotes_first(facts: Facts) -> Phase {
    if facts.has_instruments && facts.exchanges > 0 {
        Phase::Quotes(0)
    } else {
        Phase::Exhausted
    }
}

/// The phase that polls the exchanges, where there are any.
pub open spec fn polls_first(facts: Facts) -> Phase {
    if facts.exchanges > 0 {
        Phase::Poll(0)
    } else {
        quotes_first(facts)
    }
}

/// The phase after another.
pub open spec fn after(phase: Phase, facts: Facts) -> Phase {
    match phase {
        Phase::Init(k) => if !facts.init_ok {
            Phase::Abort
        } else if k + 1 < facts.exchanges {
            Phase::Init((k + 1) as usize)
        } else {
            Phase::Start
        },
        Phase::Abort => Phase::Done,
        Phase::Start => Phase::Check,
        Phase::Check => if facts.should_shutdown || facts.signal {
            Phase::Stop
        } else {
            Phase::Retry(0)
        },
        Phase::Retry(k) => if facts.retried && k + 1 < MAX_DEFERRED_ACTION_LIMIT_PER_LOOP {
            Phase::Retry((k + 1) as usize)
        } else {
            Phase::Timers
        },
        Phase::Timers => polls_first(facts),
        Phase::Poll(k) => if k + 1 < facts.exchanges {
            Phase::Poll((k + 1) as usize)
        } else {
            quotes_first(facts)
        },
        Phase::Quotes(k) => if k + 1 < facts.exchanges {
            Phase::Quotes((k + 1) as usize)
        } else {
            Phase::Exhausted
        },
        Phase::Exhausted => if facts.backtest_over {
            Phase::Stop
        } else {
            Phase::Sync
        },
        Phase::Sync => Phase::Report,
        Phase::Report => Phase::Pause,
        Phase::Pause => Phase::Check,
        Phase::Stop => Phase::Cleanup,
        Phase::Cleanup => Phase::FinalSync,
        Phase::FinalSync => Phase::Results,
        Phase::Results => Phase::Done,
        Phase::Done => Phase::Done,
    }
}

/// The phase with which a run begins.
pub fn first_phase(exchanges: usize) -> (r: Phase)
    ensures
        r == first(exchanges),
{
    if exchanges > 0 {
        Phase::Init(0)
    } else {
        Phase::Start
    }
}

fn first_quotes(facts: &Facts) -> (r: Phase)
    ensures
        r == quotes_first(*facts),
{
    if facts.has_instruments && facts.exchanges > 0 {
        Phase::Quotes(0)
    } else {
        Phase::Exhausted
    }
}

/// The phase after another.
pub fn next_phase(phase: Phase, facts: &Facts) -> (r: Phase)
    ensures
        r == after(phase, *facts),
{
    match phase {
        Phase::Init(k) => if !facts.init_ok {
            Phase::Abort
        } else if k < facts.exchanges && k + 1 < facts.exchanges {
            Phase::Init(k + 1)
        } else {
            Phase::Start
        },
        Phase::Abort => Phase::Done,
        Phase::Start => Phase::Check,
        Phase::Check => if facts.should_shutdown || facts.signal {
            Phase::Stop
        } else {
            Phase::Retry(0)
        },
        Phase::Retry(k) => if facts.retried && k < MAX_DEFERRED_ACTION_LIMIT_PER_LOOP && k + 1
            < MAX_DEFERRED_ACTION_LIMIT_PER_LOOP {
            Phase::Retry(k + 1)
        } else {
            Phase::Timers
        },
        Phase::Timers => if facts.exchanges > 0 {
            Phase::Poll(0)
        } else {
            first_quotes(facts)
        },
        Phase::Poll(k) => if k < facts.exchanges && k + 1 < facts.exchanges {
            Phase::Poll(k + 1)
        } else {
            first_quotes(facts)
        },
        Phase::Quotes(k) => if k < facts.exchanges && k + 1 < facts.exchanges {
            Phase::Quotes(k + 1)
        } else {
            Phase::Exhausted
        },
        Phase::Exhausted => if facts.backtest_over {
            Phase::Stop
        } else {
            Phase::Sync
        },
        Phase::Sync => Phase::Report,
        Phase::Report => Phase::Pause,
        Phase::Pause => Phase::Check,
        Phase::Stop => Phase::Cleanup,
        Phase::Cleanup => Phase::FinalSync,
        Phase::FinalSync => Phase::Results,
        Phase::Results => Phase::Done,
        Phase::Done => Phase::Done,
    }
}

/// A phase of an exchange that there is, and no try too many.
pub open spec fn in_range(phase: Phase, exchanges: usize) -> bool {
    match phase {
        Phase::Init(k) => k < exchanges,
        Phase::Poll(k) => k < exchanges,
        Phase::Quotes(k) => k < exchanges,
        Phase::Retry(k) => k < MAX_DEFERRED_ACTION_LIMIT_PER_LOOP,
        _ => true,
    }
}

/// No phase asks for an exchange that is not there.
pub proof fn law_phases_in_range(phase: Phase, facts: Facts)
    requires
        in_range(phase, facts.exchanges),
    ensures
        in_range(first(facts.exchanges), facts.exchanges),
        in_range(after(phase, facts), facts.exchanges),
{
}

/// How far a phase is from the end of the round.
pub open spec fn distance(phase: Phase, exchanges: usize) -> (int, int) {
    match phase {
        Phase::Init(k) => (15, exchanges - k),
        Phase::Start => (14, 0),
        Phase::Check => (13, 0),
        Phase::Retry(k) => (12, MAX_DEFERRED_ACTION_LIMIT_PER_LOOP - k),
        Phase::Timers => (11, 0),
        Phase::Poll(k) => (10, exchanges - k),
        Phase::Quotes(k) => (9, exchanges - k),
        Phase::Exhausted => (8, 0),
        Phase::Sync => (7, 0),
        Phase::Report => (6, 0),
        Phase::Pause => (5, 0),
        Phase::Stop => (4, 0),
        Phase::Cleanup => (3, 0),
        Phase::FinalSync => (2, 0),
        Phase::Results => (1, 0),
        Phase::Abort => (1, 0),
        Phase::Done => (0, 0),
    }
}

/// Every round comes to an end: each phase is nearer to it than the one before, until the
/// next round is checked for or the run is over.
pub proof fn law_rounds_end(phase: Phase, facts: Facts)
    requires
        in_range(phase, facts.exchanges),
        !(phase is Pause),
        !(phase is Done),
    ensures
        ({
            let (a, b) = distance(phase, facts.exchanges);
            let (c, d) = distance(after(phase, facts), facts.exchanges);
            &&& c >= 0
            &&& d >= 0
            &&& c < a || (c == a && d < b)
        }),
{
}

/// When the loop is to stop, the round is not begun: no poll and no command comes before the
/// strategies are stopped.
pub proof fn law_shutdown_is_heeded(facts: Facts)
    requires
        facts.should_shutdown || facts.signal,
    ensures
        after(Phase::Check, facts) == Phase::Stop,
{
}

/// The phase after one step for each of the facts.
pub open spec fn stepped(phase: Phase, facts: Seq<Facts>) -> Phase
    decreases facts.len(),
{
    if facts.len() == 0 {
        phase
    } else {
        after(stepped(phase, facts.drop_last()), facts.last())
    }
}

/// Every round that is not the last fires the timers: after a check that does not stop the
/// loop, as many tries of commands follow as are due, and then the timers.
pub proof fn law_rounds_fire_timers(facts: Seq<Facts>)
    requires
        facts.len() > MAX_DEFERRED_ACTION_LIMIT_PER_LOOP,
        !facts[0].should_shutdown && !facts[0].signal,
    ensures
        exists|n: int| 0 < n <= facts.len() && stepped(Phase::Check, #[trigger] facts.subrange(0, n)) is Timers,
{
    lemma_retries(facts, 1);
}

proof fn lemma_retries(facts: Seq<Facts>, n: int)
    requires
        facts.len() > MAX_DEFERRED_ACTION_LIMIT_PER_LOOP,
        1 <= n <= MAX_DEFERRED_ACTION_LIMIT_PER_LOOP,
        !facts[0].should_shutdown && !facts[0].signal,
        n > 1 ==> stepped(Phase::Check, facts.subrange(0, n)) == Phase::Retry((n - 1) as usize),
    ensures
        exists|n: int| 0 < n <= facts.len() && stepped(Phase::Check, #[trigger] facts.subrange(0, n)) is Timers,
    decreases MAX_DEFERRED_ACTION_LIMIT_PER_LOOP - n,
{
    if n == 1 {
        assert(facts.subrange(0, 1).drop_last() =~= Seq::empty());
        assert(stepped(Phase::Check, facts.subrange(0, 1).drop_last()) == Phase::Check);
        assert(facts.subrange(0, 1).last() == facts[0]);
    }
    let s = facts.subrange(0, n + 1);
    assert(s.drop_last() =~= facts.subrange(0, n));
    assert(stepped(Phase::Check, s) == after(Phase::Retry((n - 1) as usize), facts[n]));
    if stepped(Phase::Check, s) is Timers {
        assert(stepped(Phase::Check, facts.subrange(0, n + 1)) is Timers);
    } else {
        lemma_retries(facts, n + 1);
    }
}

/// A run is over only after the strategies were stopped: through the results, or because an
/// exchange could not be set up.
pub proof fn law_done_after_stop(phase: Phase, facts: Facts)
    requires
        after(phase, facts) is Done,
    ensures
        phase is Results || phase is Abort || phase is Done,
{
}

/// Where an exchange cannot be set up, no strategy is started.
pub proof fn law_no_start_without_exchanges(phase: Phase, facts: Facts)
    requires
        phase is Init,
        !facts.init_ok,
    ensures
        after(phase, facts) is Abort,
        after(after(phase, facts), facts) is Done,
{
}

} // verus!
