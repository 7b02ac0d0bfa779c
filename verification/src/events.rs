//! Events that the engine sends to strategies.
use vstd::prelude::*;
use crate::types;
use crate::decimal::Decimal;
use crate::types::{ClientOrderId, ExchangeHealth, ExchangeId, ExchangeOrderId, Fee, InstrumentId, OrderSide, Price, Qty, TradeId, try_halfway};

verus! {

/// A new bid and ask.
#[derive(Debug)]
pub struct QuoteEvent {
    pub exchange: ExchangeId,
    pub instrument: InstrumentId,
    pub bid: Price,
    pub ask: Price,
    pub ts: i64,
}

impl Clone for QuoteEvent {
    fn clone(&self) -> (r: QuoteEvent)
        ensures
            r == *self,
    {
        QuoteEvent {
            exchange: self.exchange.clone(),
            instrument: self.instrument.clone(),
            bid: self.bid,
            ask: self.ask,
            ts: self.ts,
        }
    }
}

impl QuoteEvent {
    /// The price halfway between bid and ask, where it is not too large.
    pub fn try_mid(&self) -> (r: Option<Price>)
        ensures
            r == (match types::halfway(self.bid.0, self.ask.0) {
                Some(p) => Some(Price(p)),
                None => None,
            }),
    {
        match try_halfway(self.bid.0, self.ask.0) {
            Some(p) => Some(Price(p)),
            None => None,
        }
    }

    /// The price halfway between bid and ask.
    pub fn mid(&self) -> (r: Price)
        requires
            types::halfway(self.bid.0, self.ask.0) is Some,
        ensures
            Some(r.0) == types::halfway(self.bid.0, self.ask.0),
    {
        self.try_mid().unwrap()
    }
}

/// A new funding rate.
#[derive(Debug)]
pub struct FundingRateEvent {
    pub exchange: ExchangeId,
    pub instrument: InstrumentId,
    pub rate: Decimal,
    pub ts: i64,
}

impl Clone for FundingRateEvent {
    fn clone(&self) -> (r: FundingRateEvent)
        ensures
            r == *self,
    {
        FundingRateEvent {
            exchange: self.exchange.clone(),
            instrument: self.instrument.clone(),
            rate: self.rate,
            ts: self.ts,
        }
    }
}

/// The exchange took an order.
#[derive(Debug)]
pub struct OrderAcceptedEvent {
    pub exchange: ExchangeId,
    pub instrument: InstrumentId,
    pub client_id: ClientOrderId,
    pub exchange_order_id: Option<ExchangeOrderId>,
    pub ts: i64,
}

impl Clone for OrderAcceptedEvent {
    fn clone(&self) -> (r: OrderAcceptedEvent)
        ensures
            r == *self,
    {
        OrderAcceptedEvent {
            exchange: self.exchange.clone(),
            instrument: self.instrument.clone(),
            client_id: self.client_id.clone(),
            exchange_order_id: match &self.exchange_order_id {
                Some(x) => Some(x.clone()),
                None => None,
            },
            ts: self.ts,
        }
    }
}

/// The exchange refused an order.
#[derive(Debug)]
pub struct OrderRejectedEvent {
    pub exchange: ExchangeId,
    pub instrument: InstrumentId,
    pub client_id: ClientOrderId,
    pub reason: String,
    pub ts: i64,
}

impl Clone for OrderRejectedEvent {
    fn clone(&self) -> (r: OrderRejectedEvent)
        ensures
            r == *self,
    {
        OrderRejectedEvent {
            exchange: self.exchange.clone(),
            instrument: self.instrument.clone(),
            client_id: self.client_id.clone(),
            reason: self.reason.clone(),
            ts: self.ts,
        }
    }
}

/// Part of an order, or all of it, was executed.
#[derive(Debug)]
pub struct OrderFilledEvent {
    pub exchange: ExchangeId,
    pub instrument: InstrumentId,
    pub client_id: ClientOrderId,
    pub trade_id: TradeId,
    pub side: OrderSide,
    pub price: Price,
    /// What was executed.
    pub qty: Qty,
    /// What changes the position: less than `qty` where the fee is taken in the base asset.
    pub net_qty: Qty,
    pub fee: Fee,
    pub ts: i64,
}

impl Clone for OrderFilledEvent {
    fn clone(&self) -> (r: OrderFilledEvent)
        ensures
            r == *self,
    {
        OrderFilledEvent {
            exchange: self.exchange.clone(),
            instrument: self.instrument.clone(),
            client_id: self.client_id.clone(),
            trade_id: self.trade_id.clone(),
            side: self.side,
            price: self.price,
            qty: self.qty,
            net_qty: self.net_qty,
            fee: self.fee.clone(),
            ts: self.ts,
        }
    }
}

/// An order is filled whole.
#[derive(Debug)]
pub struct OrderCompletedEvent {
    pub exchange: ExchangeId,
    pub instrument: InstrumentId,
    pub client_id: ClientOrderId,
    pub filled_qty: Qty,
    pub avg_fill_px: Option<Price>,
    pub ts: i64,
}

impl Clone for OrderCompletedEvent {
    fn clone(&self) -> (r: OrderCompletedEvent)
        ensures
            r == *self,
    {
        OrderCompletedEvent {
            exchange: self.exchange.clone(),
            instrument: self.instrument.clone(),
            client_id: self.client_id.clone(),
            filled_qty: self.filled_qty,
            avg_fill_px: self.avg_fill_px,
            ts: self.ts,
        }
    }
}

/// An order was canceled.
#[derive(Debug)]
pub struct OrderCanceledEvent {
    pub exchange: ExchangeId,
    pub instrument: InstrumentId,
    pub client_id: ClientOrderId,
    pub reason: Option<String>,
    pub ts: i64,
}

impl Clone for OrderCanceledEvent {
    fn clone(&self) -> (r: OrderCanceledEvent)
        ensures
            r == *self,
    {
        OrderCanceledEvent {
            exchange: self.exchange.clone(),
            instrument: self.instrument.clone(),
            client_id: self.client_id.clone(),
            reason: match &self.reason {
                Some(x) => Some(x.clone()),
                None => None,
            },
            ts: self.ts,
        }
    }
}

/// An exchange became active or was halted.
#[derive(Debug)]
pub struct ExchangeStateChangedEvent {
    pub exchange: ExchangeId,
    pub old_state: ExchangeHealth,
    pub new_state: ExchangeHealth,
    pub reason: String,
    pub ts: i64,
}

impl Clone for ExchangeStateChangedEvent {
    fn clone(&self) -> (r: ExchangeStateChangedEvent)
        ensures
            r == *self,
    {
        ExchangeStateChangedEvent {
            exchange: self.exchange.clone(),
            old_state: self.old_state,
            new_state: self.new_state,
            reason: self.reason.clone(),
            ts: self.ts,
        }
    }
}

/// An event.
#[derive(Debug)]
pub enum Event {
    Quote(QuoteEvent),
    FundingRate(FundingRateEvent),
    OrderAccepted(OrderAcceptedEvent),
    OrderRejected(OrderRejectedEvent),
    OrderFilled(OrderFilledEvent),
    OrderCompleted(OrderCompletedEvent),
    OrderCanceled(OrderCanceledEvent),
    ExchangeStateChanged(ExchangeStateChangedEvent),
}

impl Clone for Event {
    fn clone(&self) -> (r: Event)
        ensures
            r == *self,
    {
        match self {
            Event::Quote(e) => Event::Quote(e.clone()),
            Event::FundingRate(e) => Event::FundingRate(e.clone()),
            Event::OrderAccepted(e) => Event::OrderAccepted(e.clone()),
            Event::OrderRejected(e) => Event::OrderRejected(e.clone()),
            Event::OrderFilled(e) => Event::OrderFilled(e.clone()),
            Event::OrderCompleted(e) => Event::OrderCompleted(e.clone()),
            Event::OrderCanceled(e) => Event::OrderCanceled(e.clone()),
            Event::ExchangeStateChanged(e) => Event::ExchangeStateChanged(e.clone()),
        }
    }
}

impl Event {
    /// When the event took place.
    pub open spec fn time(&self) -> i64 {
        match self {
            Event::Quote(e) => e.ts,
            Event::FundingRate(e) => e.ts,
            Event::OrderAccepted(e) => e.ts,
            Event::OrderRejected(e) => e.ts,
            Event::OrderFilled(e) => e.ts,
            Event::OrderCompleted(e) => e.ts,
            Event::OrderCanceled(e) => e.ts,
            Event::ExchangeStateChanged(e) => e.ts,
        }
    }

    /// The instrument that the event is about.
    pub open spec fn about(&self) -> Option<InstrumentId> {
        match self {
            Event::Quote(e) => Some(e.instrument),
            Event::FundingRate(e) => Some(e.instrument),
            Event::OrderAccepted(e) => Some(e.instrument),
            Event::OrderRejected(e) => Some(e.instrument),
            Event::OrderFilled(e) => Some(e.instrument),
            Event::OrderCompleted(e) => Some(e.instrument),
            Event::OrderCanceled(e) => Some(e.instrument),
            Event::ExchangeStateChanged(_) => None,
        }
    }

    /// When the event took place.
    pub fn ts(&self) -> (r: i64)
        ensures
            r == self.time(),
    {
        match self {
            Event::Quote(e) => e.ts,
            Event::FundingRate(e) => e.ts,
            Event::OrderAccepted(e) => e.ts,
            Event::OrderRejected(e) => e.ts,
            Event::OrderFilled(e) => e.ts,
            Event::OrderCompleted(e) => e.ts,
            Event::OrderCanceled(e) => e.ts,
            Event::ExchangeStateChanged(e) => e.ts,
        }
    }

    /// The instrument that the event is about.
    pub fn instrument(&self) -> (r: Option<&InstrumentId>)
        ensures
            r == (match self.about() {
                Some(i) => Some(&i),
                None => None,
            }),
    {
        match self {
            Event::Quote(e) => Some(&e.instrument),
            Event::FundingRate(e) => Some(&e.instrument),
            Event::OrderAccepted(e) => Some(&e.instrument),
            Event::OrderRejected(e) => Some(&e.instrument),
            Event::OrderFilled(e) => Some(&e.instrument),
            Event::OrderCompleted(e) => Some(&e.instrument),
            Event::OrderCanceled(e) => Some(&e.instrument),
            Event::ExchangeStateChanged(_) => None,
        }
    }
}

} // verus!
