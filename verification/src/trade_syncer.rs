//! Reports fills to the upstream service, each once.
use vstd::prelude::*;
use vstd::string::*;
use crate::text;
use crate::sync;
use crate::decimal;
use crate::decimal::Decimal;
use crate::exchange::Fill;
use crate::strmap::StrMap;
use crate::sync::{SyncError, due, seconds};
use crate::text::{join3, trim_trailing};
use crate::types::{InstrumentId, now_ms};

verus! {

/// How fills are reported.
#[derive(Debug)]
pub struct TradeSyncerConfig {
    pub bot_id: String,
    pub upstream_url: String,
    pub sync_interval_ms: u64,
    pub timeout_secs: u64,
    pub max_retries: u32,
    pub retry_delay_ms: u64,
    /// Only fills of these instruments are reported; all where there are none.
    pub instruments: Vec<InstrumentId>,
}

impl Default for TradeSyncerConfig {
    fn default() -> (r: TradeSyncerConfig)
        ensures
            r.bot_id@.len() == 0,
            r.upstream_url@.len() == 0,
            r.sync_interval_ms == 10_000,
            r.timeout_secs == 10,
            r.max_retries == 3,
            r.retry_delay_ms == 1000,
            r.instruments@.len() == 0,
    {
        proof {
            reveal_strlit("");
        }
        TradeSyncerConfig {
            bot_id: "".to_owned(),
            upstream_url: "".to_owned(),
            sync_interval_ms: 10_000,
            timeout_secs: 10,
            max_retries: 3,
            retry_delay_ms: 1000,
            instruments: Vec::new(),
        }
    }
}

/// A fill as the service gets it.
#[derive(Debug)]
pub struct UpstreamTrade {
    pub trade_id: String,
    pub client_order_id: String,
    pub venue_order_id: String,
    pub instrument_id: String,
    pub side: String,
    pub order_type: String,
    pub qty: String,
    pub price: String,
    pub quote_notional: String,
    pub fee: String,
    pub fee_currency: String,
    pub liquidity: String,
    pub ts_event: i64,
}

/// A report.
#[derive(Debug)]
pub struct SyncRequest {
    pub trades: Vec<UpstreamTrade>,
    /// In seconds.
    pub ts: i64,
    pub current_price: Option<String>,
    pub stop_bot: bool,
    pub stop_reason: String,
}

/// What the service has seen last.
#[derive(Debug)]
pub struct SyncedInfo {
    pub trade_id: String,
    pub ts: i64,
}

/// The report tells the fills, each by its trade, and at which price they stand now.
pub open spec fn tells_fills(
    q: SyncRequest,
    fills: Seq<Fill>,
    current_price: Option<Decimal>,
    stop_bot: bool,
    stop_reason: Seq<char>,
    now: i64,
) -> bool {
    &&& q.trades@.len() == fills.len()
    &&& forall|i: int| 0 <= i < fills.len() ==> reports(#[trigger] q.trades@[i], fills[i])
    &&& q.ts == sync::seconds_of(now as int)
    &&& match (q.current_price, current_price) {
        (Some(s), Some(p)) => s@ == decimal::decimal_text(p@),
        (None, None) => true,
        _ => false,
    }
    &&& q.stop_bot == stop_bot
    &&& q.stop_reason@ == stop_reason
}

/// The trade is the fill as the service gets it.
pub open spec fn reports(trade: UpstreamTrade, fill: Fill) -> bool {
    &&& trade.trade_id@ == fill.trade_id@
    &&& trade.client_order_id@ == (match fill.client_id {
        Some(c) => c@,
        None => ""@,
    })
    &&& trade.venue_order_id@ == (match fill.exchange_order_id {
        Some(e) => e@,
        None => ""@,
    })
    &&& trade.instrument_id@ == fill.instrument@
    &&& trade.side@ == fill.side.text()
    &&& trade.order_type@ == "LIMIT"@
    &&& trade.qty@ == decimal::decimal_text(fill.qty.0@)
    &&& trade.price@ == decimal::decimal_text(fill.price.0@)
    &&& decimal::times(Some(fill.price.0), Some(fill.qty.0)) matches Some(n) && trade.quote_notional@
        == decimal::decimal_text(n@)
    &&& trade.fee@ == decimal::decimal_text(fill.fee.amount@)
    &&& trade.fee_currency@ == fill.fee.asset@
    &&& trade.liquidity@ == "UNKNOWN"@
    &&& trade.ts_event == fill.ts
}

/// A fill as the service gets it, where its notional is not too large.
pub fn fill_to_trade(fill: &Fill) -> (r: Option<UpstreamTrade>)
    ensures
        match r {
            Some(t) => reports(t, *fill),
            None => decimal::times(Some(fill.price.0), Some(fill.qty.0)) is None,
        },
{
    match fill.price.0.checked_mul(fill.qty.0) {
        None => None,
        Some(notional) => Some(
            UpstreamTrade {
                trade_id: fill.trade_id.0.clone(),
                client_order_id: match &fill.client_id {
                    Some(c) => c.0.clone(),
                    None => "".to_owned(),
                },
                venue_order_id: match &fill.exchange_order_id {
                    Some(e) => e.0.clone(),
                    None => "".to_owned(),
                },
                instrument_id: fill.instrument.0.clone(),
                side: fill.side.to_string(),
                order_type: "LIMIT".to_owned(),
                qty: fill.qty.0.to_string(),
                price: fill.price.0.to_string(),
                quote_notional: notional.to_string(),
                fee: fill.fee.amount.to_string(),
                fee_currency: fill.fee.asset.0.clone(),
                liquidity: "UNKNOWN".to_owned(),
                ts_event: fill.ts,
            },
        ),
    }
}

/// What a syncer holds.
pub struct SyncerView {
    pub config: TradeSyncerConfig,
    /// The trades that were reported.
    pub synced: Map<Seq<char>, ()>,
    /// The fills that wait.
    pub pending: Seq<Fill>,
    pub last_sync: i64,
    /// Earlier fills are not reported.
    pub start: i64,
}

impl SyncerView {
    /// A fill is not earlier than the start, and is of an instrument that is reported.
    pub open spec fn concerns(self, fill: Fill) -> bool {
        &&& fill.ts >= self.start
        &&& self.config.instruments@.len() == 0 || exists|i: int|
            0 <= i < self.config.instruments@.len() && (
            #[trigger] self.config.instruments@[i])@ == fill.instrument@
    }

    /// A fill is taken: it is one to be reported, and was not reported.
    pub open spec fn takes(self, fill: Fill) -> bool {
        self.concerns(fill) && !self.synced.contains_key(fill.trade_id@)
    }

    /// The fills among the first `n` that wait and were not reported.
    pub open spec fn unsent(self, n: nat) -> Seq<Fill>
        decreases n,
    {
        if n == 0 {
            Seq::empty()
        } else if self.synced.contains_key(self.pending[n - 1].trade_id@) {
            self.unsent((n - 1) as nat)
        } else {
            self.unsent((n - 1) as nat).push(self.pending[n - 1])
        }
    }

    /// The trades that are reported when the first `n` fills that wait are.
    pub open spec fn marked(self, n: nat) -> Map<Seq<char>, ()>
        decreases n,
    {
        if n == 0 {
            self.synced
        } else {
            self.marked((n - 1) as nat).insert(self.pending[n - 1].trade_id@, ())
        }
    }

    /// The syncer after a report went through.
    pub open spec fn reported(self, now: i64) -> SyncerView {
        SyncerView {
            synced: self.marked(self.pending.len()),
            pending: Seq::empty(),
            last_sync: now,
            ..self
        }
    }
}

/// Reports fills.
#[derive(Debug)]
pub struct TradeSyncer {
    config: TradeSyncerConfig,
    synced_trade_ids: StrMap<()>,
    pending_fills: Vec<Fill>,
    last_sync_ts: i64,
    start_timestamp: i64,
}

impl TradeSyncer {
    /// What the syncer holds.
    pub closed spec fn view(&self) -> SyncerView {
        SyncerView {
            config: self.config,
            synced: self.synced_trade_ids@,
            pending: self.pending_fills@,
            last_sync: self.last_sync_ts,
            start: self.start_timestamp,
        }
    }

    /// A syncer from a time on; the configuration must name the bot and the service.
    pub fn new_at(config: TradeSyncerConfig, now: i64) -> (r: Result<TradeSyncer, SyncError>)
        ensures
            match r {
                Ok(s) => config.bot_id@.len() > 0 && config.upstream_url@.len() > 0 && s@ == (
                SyncerView {
                    config,
                    synced: Map::empty(),
                    pending: Seq::empty(),
                    last_sync: 0,
                    start: now,
                }),
                Err(e) => e matches SyncError::Config(text) && (if config.bot_id@.len() == 0 {
                    text@ == "bot_id is required"@
                } else {
                    config.upstream_url@.len() == 0 && text@ == "upstream_url is required"@
                }),
            },
    {
        if config.bot_id.as_str().unicode_len() == 0 {
            return Err(SyncError::Config("bot_id is required".to_owned()));
        }
        if config.upstream_url.as_str().unicode_len() == 0 {
            return Err(SyncError::Config("upstream_url is required".to_owned()));
        }
        Ok(
            TradeSyncer {
                config,
                synced_trade_ids: StrMap::new(),
                pending_fills: Vec::new(),
                last_sync_ts: 0,
                start_timestamp: now,
            },
        )
    }

    /// A syncer from now on; the configuration must name the bot and the service.
    pub fn new(config: TradeSyncerConfig) -> (r: Result<TradeSyncer, SyncError>)
        ensures
            match r {
                Ok(s) => config.bot_id@.len() > 0 && config.upstream_url@.len() > 0
                    && s@.config == config && s@.pending.len() == 0 && s@.synced == Map::<
                    Seq<char>,
                    (),
                >::empty() && s@.last_sync == 0,
                Err(e) => e matches SyncError::Config(text) && (if config.bot_id@.len() == 0 {
                    text@ == "bot_id is required"@
                } else {
                    config.upstream_url@.len() == 0 && text@ == "upstream_url is required"@
                }),
            },
    {
        let now: i64 = now_ms();
        TradeSyncer::new_at(config, now)
    }

    /// When the syncer began.
    pub fn start_timestamp(&self) -> (r: i64)
        ensures
            r == self@.start,
    {
        self.start_timestamp
    }

    fn takes_instrument(&self, instrument: &InstrumentId) -> (r: bool)
        ensures
            r == (self@.config.instruments@.len() == 0 || exists|i: int|
                0 <= i < self@.config.instruments@.len() && (
                #[trigger] self@.config.instruments@[i])@ == instrument@),
    {
        let n: usize = self.config.instruments.len();
        if n == 0 {
            return true;
        }
        let mut i: usize = 0;
        while i < n
            invariant
                n == self@.config.instruments@.len(),
                n > 0,
                i <= n,
                forall|k: int|
                    0 <= k < i ==> (#[trigger] self@.config.instruments@[k])@ != instrument@,
            decreases n - i,
        {
            if self.config.instruments[i].same(instrument) {
                return true;
            }
            i = i + 1;
        }
        false
    }

    /// Lets a fill wait for the next report, if it is to be reported at all.
    pub fn add_fill(&mut self, fill: Fill)
        ensures
            final(self)@ == (if old(self)@.takes(fill) {
                SyncerView { pending: old(self)@.pending.push(fill), ..old(self)@ }
            } else {
                old(self)@
            }),
    {
        if fill.ts < self.start_timestamp {
            return;
        }
        if self.synced_trade_ids.contains(fill.trade_id.as_str()) {
            return;
        }
        if !self.takes_instrument(&fill.instrument) {
            return;
        }
        self.pending_fills.push(fill);
    }

    /// Whether a report is due.
    pub fn should_sync(&self, now: i64) -> (r: bool)
        ensures
            r == sync::is_due(now, self@.last_sync, self@.config.sync_interval_ms),
    {
        due(now, self.last_sync_ts, self.config.sync_interval_ms)
    }

    /// How many fills wait.
    pub fn pending_count(&self) -> (r: usize)
        ensures
            r == self@.pending.len(),
    {
        self.pending_fills.len()
    }

    /// The configuration.
    pub fn config(&self) -> (r: &TradeSyncerConfig)
        ensures
            *r == self@.config,
    {
        &self.config
    }

    /// Where reports are sent.
    pub fn url(&self) -> (r: String)
        ensures
            r@ == text::without_trailing(self@.config.upstream_url@, '/') + "/sync/"@
                + self@.config.bot_id@,
    {
        join3(
            trim_trailing(self.config.upstream_url.as_str(), '/'),
            "/sync/",
            self.config.bot_id.as_str(),
        )
    }

    /// The report on the fills that wait, where no notional is too large.
    pub fn request(
        &self,
        current_price: Option<Decimal>,
        stop_bot: bool,
        stop_reason: &str,
        now: i64,
    ) -> (r: Option<SyncRequest>)
        ensures
            ({
                let unsent = self@.unsent(self@.pending.len());
                match r {
                    Some(q) => tells_fills(q, unsent, current_price, stop_bot, stop_reason@, now),
                    None => exists|i: int|
                        0 <= i < unsent.len() && decimal::times(
                            Some((#[trigger] unsent[i]).price.0),
                            Some(unsent[i].qty.0),
                        ) is None,
                }
            }),
    {
        let mut trades: Vec<UpstreamTrade> = Vec::new();
        let n: usize = self.pending_fills.len();
        let mut i: usize = 0;
        let ghost all = self@.unsent(n as nat);
        while i < n
            invariant
                n == self@.pending.len(),
                n == self.pending_fills@.len(),
                i <= n,
                all == self@.unsent(n as nat),
                trades@.len() == self@.unsent(i as nat).len(),
                forall|k: int|
                    0 <= k < trades@.len() ==> reports(
                        #[trigger] trades@[k],
                        self@.unsent(i as nat)[k],
                    ),
            decreases n - i,
        {
            let fill = &self.pending_fills[i];
            let ghost before = trades@;
            if !self.synced_trade_ids.contains(fill.trade_id.as_str()) {
                match fill_to_trade(fill) {
                    Some(t) => {
                        trades.push(t);
                        assert forall|k: int| 0 <= k < trades@.len() implies reports(
                            #[trigger] trades@[k],
                            self@.unsent((i + 1) as nat)[k],
                        ) by {
                            if k < before.len() {
                                assert(trades@[k] == before[k]);
                            }
                        }
                    },
                    None => {
                        proof {
                            lemma_unsent_prefix(self@, (i + 1) as nat, n as nat);
                            let k = self@.unsent((i + 1) as nat).len() - 1;
                            assert(self@.unsent((i + 1) as nat)[k] == *fill);
                            assert(all[k] == *fill);
                        }
                        return None;
                    },
                }
            }
            i = i + 1;
        }
        Some(
            SyncRequest {
                trades,
                ts: seconds(now),
                current_price: match current_price {
                    Some(p) => Some(p.to_string()),
                    None => None,
                },
                stop_bot,
                stop_reason: stop_reason.to_owned(),
            },
        )
    }

    /// Takes note that a report went through.
    pub fn sync_succeeded(&mut self, now: i64)
        ensures
            final(self)@ == old(self)@.reported(now),
    {
        let n: usize = self.pending_fills.len();
        let ghost v = self@;
        let mut i: usize = 0;
        while i < n
            invariant
                n == self.pending_fills@.len(),
                n == v.pending.len(),
                i <= n,
                self@ == (SyncerView { synced: v.marked(i as nat), ..v }),
            decreases n - i,
        {
            let id = self.pending_fills[i].trade_id.0.clone();
            self.synced_trade_ids.insert(id, ());
            i = i + 1;
        }
        self.pending_fills = Vec::new();
        self.last_sync_ts = now;
        assert(self@.pending =~= Seq::empty());
    }
}

proof fn lemma_unsent_prefix(v: SyncerView, a: nat, b: nat)
    requires
        a <= b,
    ensures
        v.unsent(a).len() <= v.unsent(b).len(),
        forall|k: int| 0 <= k < v.unsent(a).len() ==> v.unsent(b)[k] == #[trigger] v.unsent(a)[k],
    decreases b - a,
{
    if a < b {
        lemma_unsent_prefix(v, a, (b - 1) as nat);
    }
}

proof fn lemma_marked(v: SyncerView, n: nat, i: int)
    requires
        0 <= i < n,
    ensures
        v.marked(n).contains_key(v.pending[i].trade_id@),
    decreases n,
{
    if i < n - 1 {
        lemma_marked(v, (n - 1) as nat, i);
    }
}

/// Only fills that came after the start, and only those of the instruments that are named, ever
/// wait for a report.
pub proof fn law_only_own_fills_wait(v: SyncerView, fill: Fill)
    requires
        forall|i: int| 0 <= i < v.pending.len() ==> v.concerns(#[trigger] v.pending[i]),
    ensures
        ({
            let w = if v.takes(fill) {
                SyncerView { pending: v.pending.push(fill), ..v }
            } else {
                v
            };
            forall|i: int| 0 <= i < w.pending.len() ==> w.concerns(#[trigger] w.pending[i])
        }),
{
}

/// A trade is reported once: after a report went through, a fill of any of its trades is not
/// taken again, and nothing waits.
pub proof fn law_reported_trades_stay_reported(v: SyncerView, now: i64, i: int, again: Fill)
    requires
        0 <= i < v.pending.len(),
        again.trade_id@ == v.pending[i].trade_id@,
    ensures
        !v.reported(now).takes(again),
        v.reported(now).pending.len() == 0,
{
    lemma_marked(v, v.pending.len(), i);
}

/// Until a report goes through, every fill that was taken stays in the next one.
pub proof fn law_unsent_fills_stay(v: SyncerView, fill: Fill)
    requires
        v.takes(fill),
    ensures
        ({
            let w = SyncerView { pending: v.pending.push(fill), ..v };
            w.unsent(w.pending.len()) == v.unsent(v.pending.len()).push(fill)
        }),
{
    let w = SyncerView { pending: v.pending.push(fill), ..v };
    lemma_unsent_same(v, w, v.pending.len());
}

proof fn lemma_unsent_same(v: SyncerView, w: SyncerView, n: nat)
    requires
        n <= v.pending.len(),
        w.synced == v.synced,
        v.pending.is_prefix_of(w.pending),
    ensures
        v.unsent(n) == w.unsent(n),
    decreases n,
{
    if n > 0 {
        lemma_unsent_same(v, w, (n - 1) as nat);
        assert(v.pending[n - 1] == w.pending[n - 1]);
    }
}

} // verus!
