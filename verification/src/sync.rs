//! What reporting to the upstream service shares: its errors, when it is due, and its retries.
use vstd::prelude::*;
use vstd::string::*;
use crate::text;
use crate::text::{join2, join3, number_text};

verus! {

/// Why a report failed.
#[derive(Debug)]
pub enum SyncError {
    Http(String),
    Network(String),
    Parse(String),
    Api { status: u16, body: String },
    Config(String),
    MaxRetries,
}

impl SyncError {
    /// The message of the error.
    pub open spec fn message(&self) -> Seq<char> {
        match self {
            SyncError::Http(s) => "HTTP request failed: "@ + s@,
            SyncError::Network(s) => "Network error: "@ + s@,
            SyncError::Parse(s) => "Parse error: "@ + s@,
            SyncError::Api { status, body } => "API error: status="@ + text::digits(*status as nat)
                + ", body="@ + body@,
            SyncError::Config(s) => "Configuration error: "@ + s@,
            SyncError::MaxRetries => "Max retries exceeded"@,
        }
    }

    /// The message of the error.
    pub fn to_string(&self) -> (r: String)
        ensures
            r@ == self.message(),
    {
        match self {
            SyncError::Http(s) => join2("HTTP request failed: ", s.as_str()),
            SyncError::Network(s) => join2("Network error: ", s.as_str()),
            SyncError::Parse(s) => join2("Parse error: ", s.as_str()),
            SyncError::Api { status, body } => join3(
                "API error: status=",
                number_text(*status as u128).as_str(),
                ", body=",
            ).concat(body.as_str()),
            SyncError::Config(s) => join2("Configuration error: ", s.as_str()),
            SyncError::MaxRetries => "Max retries exceeded".to_owned(),
        }
    }

    /// The error of a request that got no reply: what is known of it is whether the time ran
    /// out, whether no connection was made, and its text.
    pub fn from_request(timed_out: bool, not_connected: bool, text: &str) -> (r: SyncError)
        ensures
            if timed_out {
                r matches SyncError::Network(s) && s@ == "Request timeout"@
            } else if not_connected {
                r matches SyncError::Network(s) && s@ == "Connection failed: "@ + text@
            } else {
                r matches SyncError::Http(s) && s@ == text@
            },
    {
        if timed_out {
            SyncError::Network("Request timeout".to_owned())
        } else if not_connected {
            SyncError::Network(join2("Connection failed: ", text))
        } else {
            SyncError::Http(text.to_owned())
        }
    }
}

/// Whole seconds, cut off towards zero.
pub open spec fn seconds_of(ms: int) -> int {
    if ms >= 0 {
        ms / 1000
    } else {
        -((-ms) / 1000)
    }
}

/// Whole seconds, cut off towards zero.
pub fn seconds(ms: i64) -> (r: i64)
    ensures
        r == seconds_of(ms as int),
{
    if ms >= 0 {
        ms / 1000
    } else {
        let n: u64 = (-(ms as i128)) as u64;
        let s: u64 = n / 1000;
        -(s as i64)
    }
}

/// Whether the interval has passed since the last report.
pub open spec fn is_due(now: i64, last: i64, interval_ms: u64) -> bool {
    now - last >= interval_ms
}

/// Whether the interval has passed since the last report.
pub fn due(now: i64, last: i64, interval_ms: u64) -> (r: bool)
    ensures
        r == is_due(now, last, interval_ms),
{
    now as i128 - last as i128 >= interval_ms as i128
}

/// Where a request stands in its attempts, counted from one, and how long it waits after the
/// next failure.
#[derive(Debug, Clone, Copy, PartialEq, Eq, Structural)]
pub struct Attempt {
    pub number: u32,
    pub delay_ms: u64,
}

/// Twice as much, up to the largest number.
pub open spec fn doubled(n: u64) -> u64 {
    if 2 * n <= u64::MAX {
        (2 * n) as u64
    } else {
        u64::MAX
    }
}

impl Attempt {
    /// The attempt after a failure; none is left after the last.
    pub open spec fn after_failure(self, max_retries: u32) -> Option<Attempt> {
        if self.number < max_retries {
            Some(Attempt { number: (self.number + 1) as u32, delay_ms: doubled(self.delay_ms) })
        } else {
            None
        }
    }

    /// The first attempt, where there is any.
    pub fn first(max_retries: u32, retry_delay_ms: u64) -> (r: Option<Attempt>)
        ensures
            r == (if max_retries > 0 {
                Some(Attempt { number: 1, delay_ms: retry_delay_ms })
            } else {
                None
            }),
    {
        if max_retries > 0 {
            Some(Attempt { number: 1, delay_ms: retry_delay_ms })
        } else {
            None
        }
    }

    /// The attempt after a failure; none is left after the last.
    pub fn next(&self, max_retries: u32) -> (r: Option<Attempt>)
        ensures
            r == self.after_failure(max_retries),
    {
        if self.number < max_retries {
            let delay_ms: u64 = if self.delay_ms <= u64::MAX / 2 {
                self.delay_ms * 2
            } else {
                u64::MAX
            };
            Some(Attempt { number: self.number + 1, delay_ms })
        } else {
            None
        }
    }
}

/// No more attempts are made than allowed, and each failure brings the last one nearer.
pub proof fn law_attempts_end(a: Attempt, max_retries: u32)
    requires
        1 <= a.number <= max_retries,
    ensures
        a.after_failure(max_retries) matches Some(b) ==> b.number == a.number + 1 && b.number
            <= max_retries && b.delay_ms >= a.delay_ms,
        a.after_failure(max_retries) is None <==> a.number == max_retries,
{
}

} // verus!
