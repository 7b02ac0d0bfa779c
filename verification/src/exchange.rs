//! What passes between the engine and an exchange.
use vstd::prelude::*;
use vstd::string::*;
use crate::decimal::Decimal;
use crate::text::{join2, join3};
use crate::types::{AssetId, ClientOrderId, ExchangeOrderId, Fee, InstrumentId, MarketIndex, OrderSide, Price, Qty, TimeInForce, TradeId};

verus! {

/// An order as the exchange gets it.
#[derive(Debug)]
pub struct OrderInput {
    pub instrument: InstrumentId,
    pub market_index: MarketIndex,
    pub client_id: ClientOrderId,
    pub side: OrderSide,
    pub price: Price,
    pub qty: Qty,
    pub tif: TimeInForce,
    pub post_only: bool,
    pub reduce_only: bool,
}

impl Clone for OrderInput {
    fn clone(&self) -> (r: OrderInput)
        ensures
            r == *self,
    {
        OrderInput {
            instrument: self.instrument.clone(),
            market_index: self.market_index,
            client_id: self.client_id.clone(),
            side: self.side,
            price: self.price,
            qty: self.qty,
            tif: self.tif,
            post_only: self.post_only,
            reduce_only: self.reduce_only,
        }
    }
}

/// Why a request to an exchange failed.
#[derive(Debug)]
pub enum ExchangeError {
    /// A reply with an error status.
    Http(String),
    /// The exchange was not reached.
    Network(String),
    /// Too many requests.
    RateLimited,
    /// The exchange is down.
    Unavailable,
    /// No reply in time.
    Timeout,
    /// The exchange refused the request.
    Rejected(String),
    /// A reply that makes no sense.
    Parse(String),
    /// The request could not be signed.
    Signing(String),
    /// The client is not set up.
    Configuration(String),
    /// The account has used up its actions for now.
    WouldExceedUserActionLimit {
        /// When to try again, in milliseconds.
        retry_after_ms: u64,
        /// How many actions the request takes.
        needed: u32,
    },
    /// Anything else.
    Unknown(String),
}

impl Clone for ExchangeError {
    fn clone(&self) -> (r: ExchangeError)
        ensures
            r == *self,
    {
        match self {
            ExchangeError::Http(s) => ExchangeError::Http(s.clone()),
            ExchangeError::Network(s) => ExchangeError::Network(s.clone()),
            ExchangeError::Rejected(s) => ExchangeError::Rejected(s.clone()),
            ExchangeError::Parse(s) => ExchangeError::Parse(s.clone()),
            ExchangeError::Signing(s) => ExchangeError::Signing(s.clone()),
            ExchangeError::Configuration(s) => ExchangeError::Configuration(s.clone()),
            ExchangeError::Unknown(s) => ExchangeError::Unknown(s.clone()),
            ExchangeError::RateLimited => ExchangeError::RateLimited,
            ExchangeError::Unavailable => ExchangeError::Unavailable,
            ExchangeError::Timeout => ExchangeError::Timeout,
            ExchangeError::WouldExceedUserActionLimit { retry_after_ms, needed } =>
                ExchangeError::WouldExceedUserActionLimit {
                retry_after_ms: *retry_after_ms,
                needed: *needed,
            },
        }
    }
}

impl ExchangeError {
    /// The same request may succeed later.
    pub open spec fn transient(&self) -> bool {
        self is RateLimited || self is Unavailable || self is Timeout || self is Network
    }

    /// Whether the same request may succeed later.
    pub fn is_transient(&self) -> (r: bool)
        ensures
            r == self.transient(),
    {
        match self {
            ExchangeError::RateLimited | ExchangeError::Unavailable | ExchangeError::Timeout
            | ExchangeError::Network(_) => true,
            _ => false,
        }
    }

    /// Whether the exchange is down.
    pub fn is_502(&self) -> (r: bool)
        ensures
            r == (self is Unavailable),
    {
        match self {
            ExchangeError::Unavailable => true,
            _ => false,
        }
    }

    /// The message of the error.
    pub open spec fn message(&self) -> Seq<char> {
        match self {
            ExchangeError::Http(s) => "HTTP error: "@ + s@,
            ExchangeError::Network(s) => "Network error: "@ + s@,
            ExchangeError::Rejected(s) => "Order rejected: "@ + s@,
            ExchangeError::Parse(s) => "Parse error: "@ + s@,
            ExchangeError::Signing(s) => "Signing error: "@ + s@,
            ExchangeError::Configuration(s) => "Configuration error: "@ + s@,
            ExchangeError::Unknown(s) => "Unknown error: "@ + s@,
            ExchangeError::RateLimited => "Rate limited (429)"@,
            ExchangeError::Unavailable => "Exchange unavailable (502/503)"@,
            ExchangeError::Timeout => "Request timeout"@,
            ExchangeError::WouldExceedUserActionLimit { retry_after_ms, needed } =>
                "User action limit: retry after "@ + crate::text::digits(retry_after_ms as nat)
                + "ms, needed "@ + crate::text::digits(needed as nat),
        }
    }

    /// The message of the error.
    pub fn to_string(&self) -> (r: String)
        ensures
            r@ == self.message(),
    {
        match self {
            ExchangeError::Http(s) => join2("HTTP error: ", s.as_str()),
            ExchangeError::Network(s) => join2("Network error: ", s.as_str()),
            ExchangeError::Rejected(s) => join2("Order rejected: ", s.as_str()),
            ExchangeError::Parse(s) => join2("Parse error: ", s.as_str()),
            ExchangeError::Signing(s) => join2("Signing error: ", s.as_str()),
            ExchangeError::Configuration(s) => join2("Configuration error: ", s.as_str()),
            ExchangeError::Unknown(s) => join2("Unknown error: ", s.as_str()),
            ExchangeError::RateLimited => "Rate limited (429)".to_owned(),
            ExchangeError::Unavailable => "Exchange unavailable (502/503)".to_owned(),
            ExchangeError::Timeout => "Request timeout".to_owned(),
            ExchangeError::WouldExceedUserActionLimit { retry_after_ms, needed } => join3(
                "User action limit: retry after ",
                crate::text::number_text(*retry_after_ms as u128).as_str(),
                "ms, needed ",
            ).concat(crate::text::number_text(*needed as u128).as_str()),
        }
    }
}

/// What the exchange answers to one order.
#[derive(Debug)]
pub enum PlaceOrderResult {
    Accepted {
        exchange_order_id: Option<ExchangeOrderId>,
        /// What was filled at once.
        filled_qty: Option<Qty>,
        avg_fill_px: Option<Price>,
    },
    Rejected { reason: String },
}

impl Clone for PlaceOrderResult {
    fn clone(&self) -> (r: PlaceOrderResult)
        ensures
            r == *self,
    {
        match self {
            PlaceOrderResult::Accepted { exchange_order_id, filled_qty, avg_fill_px } =>
                PlaceOrderResult::Accepted {
                exchange_order_id: match exchange_order_id {
                    Some(x) => Some(x.clone()),
                    None => None,
                },
                filled_qty: *filled_qty,
                avg_fill_px: *avg_fill_px,
            },
            PlaceOrderResult::Rejected { reason } => PlaceOrderResult::Rejected {
                reason: reason.clone(),
            },
        }
    }
}

/// A trade as the exchange reports it.
#[derive(Debug)]
pub struct Fill {
    pub trade_id: TradeId,
    pub client_id: Option<ClientOrderId>,
    pub exchange_order_id: Option<ExchangeOrderId>,
    pub instrument: InstrumentId,
    pub side: OrderSide,
    pub price: Price,
    pub qty: Qty,
    pub fee: Fee,
    pub ts: i64,
}

impl Clone for Fill {
    fn clone(&self) -> (r: Fill)
        ensures
            r == *self,
    {
        Fill {
            trade_id: self.trade_id.clone(),
            client_id: match &self.client_id {
                Some(x) => Some(x.clone()),
                None => None,
            },
            exchange_order_id: match &self.exchange_order_id {
                Some(x) => Some(x.clone()),
                None => None,
            },
            instrument: self.instrument.clone(),
            side: self.side,
            price: self.price,
            qty: self.qty,
            fee: self.fee.clone(),
            ts: self.ts,
        }
    }
}

/// The balance of an asset as the exchange reports it.
#[derive(Debug)]
pub struct AccountBalance {
    pub asset: AssetId,
    pub total: Decimal,
    pub available: Decimal,
}

impl Clone for AccountBalance {
    fn clone(&self) -> (r: AccountBalance)
        ensures
            r == *self,
    {
        AccountBalance {
            asset: self.asset.clone(),
            total: self.total,
            available: self.available,
        }
    }
}

/// The position of an instrument as the exchange reports it.
#[derive(Debug)]
pub struct ExchangePosition {
    pub instrument: InstrumentId,
    /// Long above zero, short below.
    pub qty: Decimal,
    pub avg_entry_px: Option<Price>,
    pub unrealized_pnl: Option<Decimal>,
}

impl Clone for ExchangePosition {
    fn clone(&self) -> (r: ExchangePosition)
        ensures
            r == *self,
    {
        ExchangePosition {
            instrument: self.instrument.clone(),
            qty: self.qty,
            avg_entry_px: self.avg_entry_px,
            unrealized_pnl: self.unrealized_pnl,
        }
    }
}

} // verus!
