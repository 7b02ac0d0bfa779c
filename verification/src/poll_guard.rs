//! Tells the outcomes of polls apart and spaces out polls that fail.
use vstd::prelude::*;
use crate::exchange::ExchangeError;
use crate::runner::RunnerConfig;

verus! {

/// A reply that may hold nothing.
pub trait HasItems {
    /// The reply holds something.
    spec fn items(&self) -> bool;

    /// Whether the reply holds something.
    fn has_items(&self) -> (r: bool)
        ensures
            r == self.items(),
    ;
}

impl<T> HasItems for Vec<T> {
    open spec fn items(&self) -> bool {
        self@.len() > 0
    }

    fn has_items(&self) -> (r: bool) {
        self.len() > 0
    }
}

/// What a poll came to.
#[derive(Debug)]
pub enum PollOutcome<T> {
    /// There is something to process.
    Data(T),
    /// Nothing, or an error that passes.
    Empty,
    /// An error that passes, but the exchange is down.
    Degraded(ExchangeError),
    /// An error that does not pass.
    Fatal(ExchangeError),
}

/// Waits longer and longer between polls that fail, and counts those that found nothing.
#[derive(Debug)]
pub struct PollGuard {
    pub label: &'static str,
    /// How long to wait before the next poll.
    pub backoff_ms: u64,
    pub initial_backoff_ms: u64,
    pub max_backoff_ms: u64,
    /// In hundredths.
    pub backoff_multiplier_pct: u64,
    /// How many polls in a row found nothing.
    pub consecutive_empties: u32,
}

impl PollGuard {
    /// The wait after one more failure: the initial one first, then the last one times the
    /// multiplier, and never more than the largest.
    pub open spec fn longer_wait(&self) -> int {
        let next = if self.backoff_ms == 0 {
            self.initial_backoff_ms as int
        } else {
            (self.backoff_ms * self.backoff_multiplier_pct) / 100
        };
        if next <= self.max_backoff_ms {
            next
        } else {
            self.max_backoff_ms as int
        }
    }

    /// The guard after a poll.
    pub open spec fn after<T: HasItems>(&self, result: Result<T, ExchangeError>) -> PollGuard {
        match result {
            Ok(t) => PollGuard {
                backoff_ms: 0,
                consecutive_empties: if t.items() {
                    0
                } else {
                    (self.consecutive_empties + 1) as u32
                },
                ..*self
            },
            Err(e) => if e.transient() {
                PollGuard { backoff_ms: self.longer_wait() as u64, ..*self }
            } else {
                *self
            },
        }
    }

    /// What a poll came to.
    pub open spec fn outcome<T: HasItems>(result: Result<T, ExchangeError>) -> PollOutcome<T> {
        match result {
            Ok(t) => if t.items() {
                PollOutcome::Data(t)
            } else {
                PollOutcome::Empty
            },
            Err(e) => if e is Unavailable {
                PollOutcome::Degraded(e)
            } else if e.transient() {
                PollOutcome::Empty
            } else {
                PollOutcome::Fatal(e)
            },
        }
    }

    /// A guard that has seen no poll.
    pub fn new(label: &'static str, config: &RunnerConfig) -> (r: PollGuard)
        ensures
            r == (PollGuard {
                label,
                backoff_ms: 0,
                initial_backoff_ms: config.initial_backoff_ms,
                max_backoff_ms: config.max_backoff_ms,
                backoff_multiplier_pct: config.backoff_multiplier_pct,
                consecutive_empties: 0,
            }),
    {
        PollGuard {
            label,
            backoff_ms: 0,
            initial_backoff_ms: config.initial_backoff_ms,
            max_backoff_ms: config.max_backoff_ms,
            backoff_multiplier_pct: config.backoff_multiplier_pct,
            consecutive_empties: 0,
        }
    }

    /// How long to wait before the next poll.
    pub fn delay_ms(&self) -> (r: u64)
        ensures
            r == self.backoff_ms,
    {
        self.backoff_ms
    }

    /// Takes note of the reply to a poll and tells what it came to.
    pub fn execute<T: HasItems>(&mut self, result: Result<T, ExchangeError>) -> (r: PollOutcome<T>)
        requires
            old(self).consecutive_empties < u32::MAX,
        ensures
            *final(self) == old(self).after(result),
            r == PollGuard::outcome(result),
    {
        match result {
            Ok(reply) => {
                self.backoff_ms = 0;
                if reply.has_items() {
                    self.consecutive_empties = 0;
                    PollOutcome::Data(reply)
                } else {
                    self.consecutive_empties = self.consecutive_empties + 1;
                    PollOutcome::Empty
                }
            },
            Err(e) => {
                if e.is_transient() {
                    self.increase_backoff();
                    if e.is_502() {
                        PollOutcome::Degraded(e)
                    } else {
                        PollOutcome::Empty
                    }
                } else {
                    PollOutcome::Fatal(e)
                }
            },
        }
    }

    /// Whether so many polls in a row found nothing.
    pub fn looks_exhausted(&self, threshold: u32) -> (r: bool)
        ensures
            r == (self.consecutive_empties >= threshold),
    {
        self.consecutive_empties >= threshold
    }

    /// Lengthens the wait.
    pub fn increase_backoff(&mut self)
        ensures
            *final(self) == (PollGuard { backoff_ms: old(self).longer_wait() as u64, ..*old(self) }),
            final(self).backoff_ms == old(self).longer_wait(),
    {
        let next: u128 = if self.backoff_ms == 0 {
            self.initial_backoff_ms as u128
        } else {
            proof {
                let (a, b) = (self.backoff_ms as int, self.backoff_multiplier_pct as int);
                assert(a * b <= 0xffff_ffff_ffff_ffff * 0xffff_ffff_ffff_ffff) by (nonlinear_arith)
                    requires
                        0 <= a <= 0xffff_ffff_ffff_ffff,
                        0 <= b <= 0xffff_ffff_ffff_ffff,
                ;
            }
            (self.backoff_ms as u128 * self.backoff_multiplier_pct as u128) / 100
        };
        self.backoff_ms = if next <= self.max_backoff_ms as u128 {
            next as u64
        } else {
            self.max_backoff_ms
        };
    }
}

/// However many polls fail, the wait is never longer than the largest.
pub proof fn law_wait_is_bounded<T: HasItems>(guard: PollGuard, result: Result<T, ExchangeError>)
    requires
        guard.backoff_ms <= guard.max_backoff_ms,
    ensures
        guard.after(result).backoff_ms <= guard.max_backoff_ms,
        guard.after(result).max_backoff_ms == guard.max_backoff_ms,
{
    if guard.backoff_ms > 0 {
        let (a, b) = (guard.backoff_ms as int, guard.backoff_multiplier_pct as int);
        assert(0 <= a * b) by (nonlinear_arith)
            requires
                0 <= a,
                0 <= b,
        ;
    }
}

/// Whatever failed before, a poll that is answered ends the wait.
pub proof fn law_answer_ends_wait<T: HasItems>(guard: PollGuard, reply: T)
    ensures
        guard.after(Ok::<T, ExchangeError>(reply)).backoff_ms == 0,
{
}

} // verus!
