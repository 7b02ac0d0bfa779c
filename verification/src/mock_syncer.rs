//! Mock syncers that record what they are given.
use vstd::prelude::*;
use vstd::string::*;
use crate::sync;
use crate::decimal;
use crate::account_syncer;
use crate::account_syncer::{PositionInfo, position_rows};
use crate::decimal::Decimal;
use crate::exchange::Fill;
use crate::sync::{SyncError, seconds};
use crate::types::AccountState;

verus! {

/// A report on an account that was recorded.
#[derive(Debug)]
pub struct AccountSyncCall {
    pub account_value: Decimal,
    pub unrealized_pnl: Decimal,
    pub positions: Vec<PositionInfo>,
    /// In seconds.
    pub ts: i64,
    pub stop_bot: bool,
    pub stop_reason: String,
}

/// The number, or zero.
pub open spec fn or_zero(d: Option<Decimal>) -> Decimal {
    match d {
        Some(x) => x,
        None => decimal::zero(),
    }
}

/// The call records the account.
pub open spec fn records(
    call: AccountSyncCall,
    account: AccountState,
    stop_bot: bool,
    stop_reason: Seq<char>,
    now: i64,
) -> bool {
    &&& call.account_value == or_zero(account.account_value)
    &&& call.unrealized_pnl == or_zero(account.unrealized_pnl)
    &&& account_syncer::show_positions(call.positions@, account.positions@)
    &&& call.ts == sync::seconds_of(now as int)
    &&& call.stop_bot == stop_bot
    &&& call.stop_reason@ == stop_reason
}

/// The calls that came with a stop.
pub open spec fn stops_among(s: Seq<AccountSyncCall>) -> nat
    decreases s.len(),
{
    if s.len() == 0 {
        0
    } else {
        stops_among(s.drop_last()) + (if s.last().stop_bot {
            1nat
        } else {
            0nat
        })
    }
}

/// The calls that came with a stop, in order.
pub open spec fn stop_calls(s: Seq<AccountSyncCall>) -> Seq<AccountSyncCall>
    decreases s.len(),
{
    if s.len() == 0 {
        Seq::empty()
    } else if s.last().stop_bot {
        stop_calls(s.drop_last()).push(s.last())
    } else {
        stop_calls(s.drop_last())
    }
}

proof fn lemma_stop_calls(s: Seq<AccountSyncCall>)
    ensures
        stop_calls(s).len() == stops_among(s),
        stops_among(s) <= s.len(),
    decreases s.len(),
{
    if s.len() > 0 {
        lemma_stop_calls(s.drop_last());
    }
}

/// Records reports on accounts.
#[derive(Debug)]
pub struct MockAccountSyncer {
    pub sync_calls: Vec<AccountSyncCall>,
    pub should_fail: bool,
    pub simulated_pnl: Decimal,
    pub network_delay_ms: u64,
}

impl MockAccountSyncer {
    /// A syncer that has recorded nothing and does not fail.
    pub fn new() -> (r: MockAccountSyncer)
        ensures
            r.sync_calls@.len() == 0,
            !r.should_fail,
            r.simulated_pnl == decimal::zero(),
            r.network_delay_ms == 0,
    {
        MockAccountSyncer {
            sync_calls: Vec::new(),
            should_fail: false,
            simulated_pnl: Decimal::zero(),
            network_delay_ms: 0,
        }
    }

    /// Sets whether reports fail.
    pub fn set_should_fail(&mut self, should_fail: bool)
        ensures
            *final(self) == (MockAccountSyncer { should_fail, ..*old(self) }),
    {
        self.should_fail = should_fail;
    }

    /// Sets the profit that is answered.
    pub fn set_simulated_pnl(&mut self, pnl: Decimal)
        ensures
            *final(self) == (MockAccountSyncer { simulated_pnl: pnl, ..*old(self) }),
    {
        self.simulated_pnl = pnl;
    }

    /// Sets how long a report takes.
    pub fn set_network_delay(&mut self, ms: u64)
        ensures
            *final(self) == (MockAccountSyncer { network_delay_ms: ms, ..*old(self) }),
    {
        self.network_delay_ms = ms;
    }

    /// The last call.
    pub fn last_sync(&self) -> (r: Option<&AccountSyncCall>)
        ensures
            r == (if self.sync_calls@.len() > 0 {
                Some(&self.sync_calls@.last())
            } else {
                None
            }),
    {
        if self.sync_calls.len() > 0 {
            Some(&self.sync_calls[self.sync_calls.len() - 1])
        } else {
            None
        }
    }

    /// How many calls came with a stop.
    pub fn shutdown_sync_count(&self) -> (r: usize)
        ensures
            r == stops_among(self.sync_calls@),
    {
        let mut n: usize = 0;
        let mut i: usize = 0;
        assert(self.sync_calls@.subrange(0, 0) =~= Seq::empty());
        while i < self.sync_calls.len()
            invariant
                i <= self.sync_calls@.len(),
                n <= i,
                n == stops_among(self.sync_calls@.subrange(0, i as int)),
            decreases self.sync_calls@.len() - i,
        {
            assert(self.sync_calls@.subrange(0, i + 1).drop_last() =~= self.sync_calls@.subrange(
                0,
                i as int,
            ));
            if self.sync_calls[i].stop_bot {
                n = n + 1;
            }
            i = i + 1;
        }
        assert(self.sync_calls@.subrange(0, self.sync_calls@.len() as int) =~= self.sync_calls@);
        n
    }

    /// The calls that came with a stop.
    pub fn shutdown_syncs(&self) -> (r: Vec<&AccountSyncCall>)
        ensures
            r@.len() == stops_among(self.sync_calls@),
            forall|i: int| 0 <= i < r@.len() ==> *(#[trigger] r@[i]) == stop_calls(self.sync_calls@)[i],
    {
        let mut out: Vec<&AccountSyncCall> = Vec::new();
        let mut i: usize = 0;
        assert(self.sync_calls@.subrange(0, 0) =~= Seq::empty());
        while i < self.sync_calls.len()
            invariant
                i <= self.sync_calls@.len(),
                out@.len() == stop_calls(self.sync_calls@.subrange(0, i as int)).len(),
                forall|k: int|
                    0 <= k < out@.len() ==> *(#[trigger] out@[k]) == stop_calls(
                        self.sync_calls@.subrange(0, i as int),
                    )[k],
            decreases self.sync_calls@.len() - i,
        {
            assert(self.sync_calls@.subrange(0, i + 1).drop_last() =~= self.sync_calls@.subrange(
                0,
                i as int,
            ));
            let ghost before = out@;
            if self.sync_calls[i].stop_bot {
                out.push(&self.sync_calls[i]);
                assert(forall|k: int| 0 <= k < before.len() ==> out@[k] == before[k]);
            }
            i = i + 1;
        }
        assert(self.sync_calls@.subrange(0, self.sync_calls@.len() as int) =~= self.sync_calls@);
        proof {
            lemma_stop_calls(self.sync_calls@);
        }
        out
    }

    /// How many calls came without a stop.
    pub fn periodic_sync_count(&self) -> (r: usize)
        ensures
            r == self.sync_calls@.len() - stops_among(self.sync_calls@),
    {
        proof {
            lemma_stop_calls(self.sync_calls@);
        }
        self.sync_calls.len() - self.shutdown_sync_count()
    }

    /// Whether exactly one call came with a stop.
    pub fn shutdown_sync_sent(&self) -> (r: bool)
        ensures
            r == (stops_among(self.sync_calls@) == 1),
    {
        self.shutdown_sync_count() == 1
    }

    /// Records a report and answers the profit, or fails and records nothing.
    pub fn sync(&mut self, account: &AccountState, stop_bot: bool, stop_reason: &str, now: i64) -> (r:
        Result<Decimal, SyncError>)
        ensures
            final(self).should_fail == old(self).should_fail,
            final(self).simulated_pnl == old(self).simulated_pnl,
            final(self).network_delay_ms == old(self).network_delay_ms,
            if old(self).should_fail {
                &&& r matches Err(SyncError::Network(s)) && s@ == "Mock network failure"@
                &&& final(self).sync_calls@ == old(self).sync_calls@
            } else {
                &&& r == Ok::<Decimal, SyncError>(old(self).simulated_pnl)
                &&& final(self).sync_calls@.len() == old(self).sync_calls@.len() + 1
                &&& final(self).sync_calls@.drop_last() == old(self).sync_calls@
                &&& records(
                    final(self).sync_calls@.last(),
                    *account,
                    stop_bot,
                    stop_reason@,
                    now,
                )
            },
    {
        if self.should_fail {
            return Err(SyncError::Network("Mock network failure".to_owned()));
        }
        self.sync_calls.push(
            AccountSyncCall {
                account_value: match account.account_value {
                    Some(x) => x,
                    None => Decimal::zero(),
                },
                unrealized_pnl: match account.unrealized_pnl {
                    Some(x) => x,
                    None => Decimal::zero(),
                },
                positions: position_rows(&account.positions),
                ts: seconds(now),
                stop_bot,
                stop_reason: stop_reason.to_owned(),
            },
        );
        assert(self.sync_calls@.drop_last() =~= old(self).sync_calls@);
        Ok(self.simulated_pnl)
    }

    /// Records the last report.
    pub fn shutdown_sync(&mut self, account: &AccountState, stop_reason: &str, now: i64) -> (r:
        Result<Decimal, SyncError>)
        ensures
            final(self).should_fail == old(self).should_fail,
            final(self).simulated_pnl == old(self).simulated_pnl,
            final(self).network_delay_ms == old(self).network_delay_ms,
            if old(self).should_fail {
                &&& r matches Err(SyncError::Network(s)) && s@ == "Mock network failure"@
                &&& final(self).sync_calls@ == old(self).sync_calls@
            } else {
                &&& r == Ok::<Decimal, SyncError>(old(self).simulated_pnl)
                &&& final(self).sync_calls@.len() == old(self).sync_calls@.len() + 1
                &&& final(self).sync_calls@.drop_last() == old(self).sync_calls@
                &&& records(final(self).sync_calls@.last(), *account, true, stop_reason@, now)
            },
    {
        self.sync(account, true, stop_reason, now)
    }
}

impl Default for MockAccountSyncer {
    fn default() -> (r: MockAccountSyncer)
        ensures
            r.sync_calls@.len() == 0,
            !r.should_fail,
            r.simulated_pnl == decimal::zero(),
            r.network_delay_ms == 0,
    {
        MockAccountSyncer::new()
    }
}

/// A report on fills that was recorded.
#[derive(Debug)]
pub struct TradeSyncCall {
    pub fills: Vec<Fill>,
    pub current_price: Option<Decimal>,
    pub stop_bot: bool,
    pub stop_reason: String,
    pub timestamp: i64,
}

/// How many fills were recorded.
pub open spec fn fills_among(s: Seq<TradeSyncCall>) -> int
    decreases s.len(),
{
    if s.len() == 0 {
        0
    } else {
        fills_among(s.drop_last()) + s.last().fills@.len()
    }
}

/// Records reports on fills.
#[derive(Debug)]
pub struct MockTradeSyncer {
    pub sync_calls: Vec<TradeSyncCall>,
    pub should_fail: bool,
    pub simulated_pnl: Decimal,
}

impl MockTradeSyncer {
    /// A syncer that has recorded nothing and does not fail.
    pub fn new() -> (r: MockTradeSyncer)
        ensures
            r.sync_calls@.len() == 0,
            !r.should_fail,
            r.simulated_pnl == decimal::zero(),
    {
        MockTradeSyncer {
            sync_calls: Vec::new(),
            should_fail: false,
            simulated_pnl: Decimal::zero(),
        }
    }

    /// Sets whether reports fail.
    pub fn set_should_fail(&mut self, should_fail: bool)
        ensures
            *final(self) == (MockTradeSyncer { should_fail, ..*old(self) }),
    {
        self.should_fail = should_fail;
    }

    /// Sets the profit that is answered.
    pub fn set_simulated_pnl(&mut self, pnl: Decimal)
        ensures
            *final(self) == (MockTradeSyncer { simulated_pnl: pnl, ..*old(self) }),
    {
        self.simulated_pnl = pnl;
    }

    /// How many fills were recorded, where that is a number of the machine.
    pub fn total_fills_synced(&self) -> (r: Option<usize>)
        ensures
            r == (if fills_among(self.sync_calls@) <= usize::MAX {
                Some(fills_among(self.sync_calls@) as usize)
            } else {
                None
            }),
    {
        let mut n: usize = 0;
        let mut i: usize = 0;
        assert(self.sync_calls@.subrange(0, 0) =~= Seq::empty());
        while i < self.sync_calls.len()
            invariant
                i <= self.sync_calls@.len(),
                n == fills_among(self.sync_calls@.subrange(0, i as int)),
            decreases self.sync_calls@.len() - i,
        {
            assert(self.sync_calls@.subrange(0, i + 1).drop_last() =~= self.sync_calls@.subrange(
                0,
                i as int,
            ));
            let more: usize = self.sync_calls[i].fills.len();
            if more > usize::MAX - n {
                proof {
                    lemma_fills_grow(self.sync_calls@, i + 1);
                }
                return None;
            }
            n = n + more;
            i = i + 1;
        }
        assert(self.sync_calls@.subrange(0, self.sync_calls@.len() as int) =~= self.sync_calls@);
        Some(n)
    }

    /// Records a report and answers the profit, or fails and records nothing.
    pub fn sync(
        &mut self,
        fills: Vec<Fill>,
        current_price: Option<Decimal>,
        stop_bot: bool,
        stop_reason: &str,
        now: i64,
    ) -> (r: Result<Decimal, SyncError>)
        ensures
            final(self).should_fail == old(self).should_fail,
            final(self).simulated_pnl == old(self).simulated_pnl,
            if old(self).should_fail {
                &&& r matches Err(SyncError::Network(s)) && s@ == "Mock sync failure"@
                &&& final(self).sync_calls@ == old(self).sync_calls@
            } else {
                &&& r == Ok::<Decimal, SyncError>(old(self).simulated_pnl)
                &&& final(self).sync_calls@.len() == old(self).sync_calls@.len() + 1
                &&& final(self).sync_calls@.drop_last() == old(self).sync_calls@
                &&& ({
                    let c = final(self).sync_calls@.last();
                    &&& c.fills == fills
                    &&& c.current_price == current_price
                    &&& c.stop_bot == stop_bot
                    &&& c.stop_reason@ == stop_reason@
                    &&& c.timestamp == now
                })
            },
    {
        if self.should_fail {
            return Err(SyncError::Network("Mock sync failure".to_owned()));
        }
        self.sync_calls.push(
            TradeSyncCall {
                fills,
                current_price,
                stop_bot,
                stop_reason: stop_reason.to_owned(),
                timestamp: now,
            },
        );
        assert(self.sync_calls@.drop_last() =~= old(self).sync_calls@);
        Ok(self.simulated_pnl)
    }
}

impl Default for MockTradeSyncer {
    fn default() -> (r: MockTradeSyncer)
        ensures
            r.sync_calls@.len() == 0,
            !r.should_fail,
            r.simulated_pnl == decimal::zero(),
    {
        MockTradeSyncer::new()
    }
}

proof fn lemma_fills_grow(s: Seq<TradeSyncCall>, n: int)
    requires
        0 <= n <= s.len(),
    ensures
        fills_among(s.subrange(0, n)) <= fills_among(s),
    decreases s.len() - n,
{
    if n == s.len() {
        assert(s.subrange(0, n) =~= s);
    } else {
        assert(s.subrange(0, n + 1).drop_last() =~= s.subrange(0, n));
        lemma_fills_grow(s, n + 1);
    }
}

} // verus!
