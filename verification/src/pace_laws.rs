//! When things are tried again, and in which order.
use vstd::prelude::*;
use crate::deferred;
use crate::quote_source;
use crate::strmap;
use crate::sync;
use crate::commands::Command;
use crate::deferred::DeferredActionLimitCommand;
use crate::exchange::ExchangeError;
use crate::poll_guard::{HasItems, PollGuard, PollOutcome};
use crate::sync::Attempt;
use crate::types::{InstrumentId, Quote};

verus! {

/// Of the commands that are due, a cancel is tried before anything else, and of two of a kind the
/// one that is due earlier. Nothing is tried before its time.
pub proof fn law_cancels_are_tried_first(
    s: Seq<DeferredActionLimitCommand>,
    now: i64,
    i: int,
    j: int,
)
    requires
        deferred::is_next(s, now, i),
        0 <= j < s.len(),
        s[j].retry_at_ms <= now,
    ensures
        s[i].retry_at_ms <= now,
        (s[j].command is CancelOrder || s[j].command is CancelAll) ==> (s[i].command is CancelOrder
            || s[i].command is CancelAll),
        ((s[j].command is CancelOrder || s[j].command is CancelAll) <==> (s[i].command is CancelOrder
            || s[i].command is CancelAll)) ==> s[i].retry_at_ms <= s[j].retry_at_ms,
{
    if i != j {
        assert(deferred::goes_before(s, i, j));
    }
}

/// A command that is put off waits at the end of the queue until its time; what waited before it
/// waits on as it was. An order that is put off is never merged with another.
pub proof fn law_orders_are_not_merged(
    s: Seq<DeferredActionLimitCommand>,
    command: Command,
    retry_at_ms: i64,
)
    requires
        !(command is CancelOrder),
        !(command is CancelAll),
    ensures
        deferred::deferred_after(s, command, retry_at_ms) matches Some(t) ==> t == s.push(
            DeferredActionLimitCommand { retry_at_ms, command },
        ),
{
}

/// A cancel that waits already waits once, until the earlier of the two times.
pub proof fn law_same_cancel_waits_once(
    s: Seq<DeferredActionLimitCommand>,
    command: Command,
    retry_at_ms: i64,
    i: int,
)
    requires
        command is CancelOrder || command is CancelAll,
        0 <= i < s.len(),
        deferred::cancels_same(s[i].command, command),
        forall|j: int| 0 <= j < i ==> !deferred::cancels_same((#[trigger] s[j]).command, command),
    ensures
        deferred::deferred_after(s, command, retry_at_ms) matches Some(t) && {
            &&& t.len() == s.len()
            &&& t[i].command == s[i].command
            &&& t[i].retry_at_ms <= s[i].retry_at_ms
            &&& t[i].retry_at_ms <= retry_at_ms
            &&& t[i].retry_at_ms == s[i].retry_at_ms || t[i].retry_at_ms == retry_at_ms
            &&& forall|j: int| 0 <= j < s.len() && j != i ==> #[trigger] t[j] == s[j]
        },
{
    deferred::lemma_first_same(s, command);
    let k = deferred::first_same(s, command);
    if k < i {
        assert(deferred::cancels_same(s[k].command, command));
    }
}

/// The cancel of one order is not that of another, nor that of all orders, nor that of the same
/// order on another exchange.
pub proof fn law_cancels_are_told_apart(a: Command, b: Command)
    ensures
        deferred::cancels_same(a, b) ==> (match (a, b) {
            (Command::CancelOrder(x), Command::CancelOrder(y)) => x.client_id@ == y.client_id@
                && x.exchange.is_same(&y.exchange),
            (Command::CancelAll(x), Command::CancelAll(y)) => x.exchange.is_same(&y.exchange)
                && (x.instrument is Some <==> y.instrument is Some),
            _ => false,
        }),
{
}

/// The first failure waits for the initial time, each further one for the last wait times the
/// multiplier, and none for longer than the largest. An error that does not pass changes nothing.
pub proof fn law_waits_grow<T: HasItems>(guard: PollGuard, e: ExchangeError)
    requires
        guard.backoff_ms * guard.backoff_multiplier_pct < 100 * (u64::MAX + 1),
    ensures
        ({
            let after = guard.after(Err::<T, ExchangeError>(e)).backoff_ms;
            let passes = e is RateLimited || e is Unavailable || e is Timeout || e is Network;
            &&& !passes ==> guard.after(Err::<T, ExchangeError>(e)) == guard
            &&& passes && guard.backoff_ms == 0 ==> after == (if guard.initial_backoff_ms
                <= guard.max_backoff_ms {
                guard.initial_backoff_ms
            } else {
                guard.max_backoff_ms
            })
            &&& passes && guard.backoff_ms > 0 && after < guard.max_backoff_ms ==> {
                &&& 100 * after <= guard.backoff_ms * guard.backoff_multiplier_pct
                &&& guard.backoff_ms * guard.backoff_multiplier_pct < 100 * after + 100
            }
            &&& passes ==> after <= guard.max_backoff_ms
            &&& guard.after(Err::<T, ExchangeError>(e)).consecutive_empties == guard.consecutive_empties
        }),
{
    let x = guard.backoff_ms * guard.backoff_multiplier_pct;
    assert(x >= 0) by (nonlinear_arith)
        requires
            x == guard.backoff_ms * guard.backoff_multiplier_pct,
    ;
}

/// A poll that brought something is handed on and ends the count of empty ones; one that brought
/// nothing adds to it. An exchange that is down and an error that does not pass are told apart
/// from one that passes.
pub proof fn law_polls_are_told_apart<T: HasItems>(guard: PollGuard, reply: T, e: ExchangeError)
    requires
        guard.consecutive_empties < u32::MAX,
    ensures
        reply.items() ==> PollGuard::outcome(Ok::<T, ExchangeError>(reply)) == PollOutcome::Data(reply),
        reply.items() ==> guard.after(Ok::<T, ExchangeError>(reply)).consecutive_empties == 0,
        !reply.items() ==> PollGuard::outcome(Ok::<T, ExchangeError>(reply)) is Empty,
        !reply.items() ==> guard.after(Ok::<T, ExchangeError>(reply)).consecutive_empties
            == guard.consecutive_empties + 1,
        PollGuard::outcome(Err::<T, ExchangeError>(e)) is Degraded <==> e is Unavailable,
        PollGuard::outcome(Err::<T, ExchangeError>(e)) is Empty <==> e is RateLimited || e is Timeout
            || e is Network,
        !(PollGuard::outcome(Err::<T, ExchangeError>(e)) is Data),
{
}

/// A report is due just when the interval has passed since the last one, and stays due.
pub proof fn law_reports_come_in_time(now: i64, last: i64, interval_ms: u64, later: i64)
    requires
        later >= now,
    ensures
        sync::is_due(now, last, interval_ms) <==> now >= last + interval_ms,
        sync::is_due(now, last, interval_ms) ==> sync::is_due(later, last, interval_ms),
        interval_ms > 0 ==> !sync::is_due(now, now, interval_ms),
{
}

/// Whole seconds are never more than the time, and less than a second short of it; before the
/// start of time the other way round.
pub proof fn law_seconds_are_cut_off(ms: int)
    ensures
        ms >= 0 ==> 0 <= ms - 1000 * sync::seconds_of(ms) < 1000,
        ms < 0 ==> -1000 < ms - 1000 * sync::seconds_of(ms) <= 0,
{
}

/// Each failed attempt doubles the wait, as long as that is a number.
pub proof fn law_attempts_double_their_wait(a: Attempt, max_retries: u32)
    requires
        a.number < max_retries,
        2 * a.delay_ms <= u64::MAX,
    ensures
        a.after_failure(max_retries) matches Some(b) && b.delay_ms == 2 * a.delay_ms && b.number
            == a.number + 1,
{
}

/// A source hands out just the quotes that it knows of what is asked for, in that order.
pub proof fn law_known_quotes_are_handed_out(
    s: Seq<(String, Quote)>,
    instruments: Seq<InstrumentId>,
    instrument: InstrumentId,
)
    ensures
        quote_source::known_quotes(s, instruments.push(instrument)) == (match strmap::lookup(
            s,
            instrument@,
        ) {
            Some(q) => quote_source::known_quotes(s, instruments).push(q),
            None => quote_source::known_quotes(s, instruments),
        }),
        quote_source::known_quotes(s, Seq::<InstrumentId>::empty()).len() == 0,
{
    assert(instruments.push(instrument).drop_last() =~= instruments);
}

} // verus!
