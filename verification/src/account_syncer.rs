//! Reports the account to the upstream service.
use vstd::prelude::*;
use vstd::string::*;
use crate::text;
use crate::sync;
use crate::decimal;
use crate::decimal::Decimal;
use crate::sync::{SyncError, due, seconds};
use crate::text::{join3, trim_trailing};
use crate::types::{AccountState, PositionSnapshot};

verus! {

/// How the account is reported.
#[derive(Debug)]
pub struct AccountSyncerConfig {
    pub bot_id: String,
    pub upstream_url: String,
    pub sync_interval_ms: u64,
    pub timeout_secs: u64,
    pub max_retries: u32,
    pub retry_delay_ms: u64,
}

impl Default for AccountSyncerConfig {
    fn default() -> (r: AccountSyncerConfig)
        ensures
            r.bot_id@.len() == 0,
            r.upstream_url@.len() == 0,
            r.sync_interval_ms == 10_000,
            r.timeout_secs == 10,
            r.max_retries == 3,
            r.retry_delay_ms == 1000,
    {
        proof {
            reveal_strlit("");
        }
        AccountSyncerConfig {
            bot_id: "".to_owned(),
            upstream_url: "".to_owned(),
            sync_interval_ms: 10_000,
            timeout_secs: 10,
            max_retries: 3,
            retry_delay_ms: 1000,
        }
    }
}

/// A position as the service gets it.
#[derive(Debug)]
pub struct PositionInfo {
    pub instrument_id: String,
    pub qty: String,
    pub entry_px: String,
    pub unrealized_pnl: String,
}

/// A report.
#[derive(Debug)]
pub struct ClearingHouseStateRequest {
    pub account_value: String,
    pub unrealized_pnl: String,
    pub positions: Vec<PositionInfo>,
    /// In seconds.
    pub ts: i64,
    pub stop_bot: bool,
    pub stop_reason: String,
}

/// The numeral of a number, and that of zero where there is none.
pub open spec fn number_or_zero(d: Option<Decimal>) -> Seq<char> {
    match d {
        Some(x) => decimal::decimal_text(x@),
        None => "0"@,
    }
}

fn text_or_zero(d: Option<Decimal>) -> (r: String)
    ensures
        r@ == number_or_zero(d),
{
    match d {
        Some(x) => x.to_string(),
        None => "0".to_owned(),
    }
}

/// The row shows the position.
pub open spec fn shows_position(row: PositionInfo, p: PositionSnapshot) -> bool {
    &&& row.instrument_id@ == p.instrument@
    &&& row.qty@ == decimal::decimal_text(p.qty@)
    &&& row.entry_px@ == number_or_zero(
        match p.avg_entry_px {
            Some(px) => Some(px.0),
            None => None,
        },
    )
    &&& row.unrealized_pnl@ == number_or_zero(p.unrealized_pnl)
}

/// The report tells the account.
pub open spec fn tells_account(
    r: ClearingHouseStateRequest,
    account: AccountState,
    stop_bot: bool,
    stop_reason: Seq<char>,
    now: i64,
) -> bool {
    &&& r.account_value@ == number_or_zero(account.account_value)
    &&& r.unrealized_pnl@ == number_or_zero(account.unrealized_pnl)
    &&& show_positions(r.positions@, account.positions@)
    &&& r.ts == sync::seconds_of(now as int)
    &&& r.stop_bot == stop_bot
    &&& r.stop_reason@ == stop_reason
}

/// The rows show the positions.
pub open spec fn show_positions(rows: Seq<PositionInfo>, s: Seq<PositionSnapshot>) -> bool {
    rows.len() == s.len() && forall|i: int|
        0 <= i < s.len() ==> shows_position(#[trigger] rows[i], s[i])
}

/// The positions as the service gets them.
pub fn position_rows(positions: &Vec<PositionSnapshot>) -> (r: Vec<PositionInfo>)
    ensures
        show_positions(r@, positions@),
{
    let mut rows: Vec<PositionInfo> = Vec::new();
    let mut i: usize = 0;
    while i < positions.len()
        invariant
            i <= positions@.len(),
            rows@.len() == i,
            forall|k: int| 0 <= k < i ==> shows_position(#[trigger] rows@[k], positions@[k]),
        decreases positions@.len() - i,
    {
        let p = &positions[i];
        rows.push(
            PositionInfo {
                instrument_id: p.instrument.0.clone(),
                qty: p.qty.to_string(),
                entry_px: text_or_zero(
                    match p.avg_entry_px {
                        Some(px) => Some(px.0),
                        None => None,
                    },
                ),
                unrealized_pnl: text_or_zero(p.unrealized_pnl),
            },
        );
        i = i + 1;
    }
    rows
}

/// Reports the account.
#[derive(Debug)]
pub struct AccountSyncer {
    pub config: AccountSyncerConfig,
    /// When the last report went through.
    pub last_sync_ts: i64,
}

impl AccountSyncer {
    /// A syncer; the configuration must name the bot and the service.
    pub fn new(config: AccountSyncerConfig) -> (r: Result<AccountSyncer, SyncError>)
        ensures
            match r {
                Ok(s) => config.bot_id@.len() > 0 && config.upstream_url@.len() > 0 && s == (
                AccountSyncer { config, last_sync_ts: 0 }),
                Err(e) => e matches SyncError::Config(text) && (if config.bot_id@.len() == 0 {
                    text@ == "bot_id is required"@
                } else {
                    config.upstream_url@.len() == 0 && text@ == "upstream_url is required"@
                }),
            },
    {
        if config.bot_id.as_str().unicode_len() == 0 {
            return Err(SyncError::Config("bot_id is required".to_owned()));
        }
        if config.upstream_url.as_str().unicode_len() == 0 {
            return Err(SyncError::Config("upstream_url is required".to_owned()));
        }
        Ok(AccountSyncer { config, last_sync_ts: 0 })
    }

    /// Whether a report is due.
    pub fn should_sync(&self, now: i64) -> (r: bool)
        ensures
            r == sync::is_due(now, self.last_sync_ts, self.config.sync_interval_ms),
    {
        due(now, self.last_sync_ts, self.config.sync_interval_ms)
    }

    /// Where reports are sent.
    pub fn url(&self) -> (r: String)
        ensures
            r@ == text::without_trailing(self.config.upstream_url@, '/') + "/sync-clearingHouseState/"@
                + self.config.bot_id@,
    {
        join3(
            trim_trailing(self.config.upstream_url.as_str(), '/'),
            "/sync-clearingHouseState/",
            self.config.bot_id.as_str(),
        )
    }

    /// The report on an account.
    pub fn request(
        &self,
        account: &AccountState,
        stop_bot: bool,
        stop_reason: &str,
        now: i64,
    ) -> (r: ClearingHouseStateRequest)
        ensures
            tells_account(r, *account, stop_bot, stop_reason@, now),
    {
        ClearingHouseStateRequest {
            account_value: text_or_zero(account.account_value),
            unrealized_pnl: text_or_zero(account.unrealized_pnl),
            positions: position_rows(&account.positions),
            ts: seconds(now),
            stop_bot,
            stop_reason: stop_reason.to_owned(),
        }
    }

    /// Takes note that a report went through.
    pub fn sync_succeeded(&mut self, now: i64)
        ensures
            *final(self) == (AccountSyncer { last_sync_ts: now, ..*old(self) }),
    {
        self.last_sync_ts = now;
    }
}

} // verus!
