//! Commands that strategies send to the engine.
use vstd::prelude::*;
use crate::types::{ClientOrderId, ExchangeInstance, InstrumentId, OrderSide, Price, Qty, StrategyId, TimeInForce};

verus! {

/// Place one order.
#[derive(Debug)]
pub struct PlaceOrder {
    pub client_id: ClientOrderId,
    pub exchange: ExchangeInstance,
    pub instrument: InstrumentId,
    pub side: OrderSide,
    pub price: Price,
    pub qty: Qty,
    pub tif: TimeInForce,
    pub post_only: bool,
    pub reduce_only: bool,
}

impl Clone for PlaceOrder {
    fn clone(&self) -> (r: PlaceOrder)
        ensures
            r == *self,
    {
        PlaceOrder {
            client_id: self.client_id.clone(),
            exchange: self.exchange.clone(),
            instrument: self.instrument.clone(),
            side: self.side,
            price: self.price,
            qty: self.qty,
            tif: self.tif,
            post_only: self.post_only,
            reduce_only: self.reduce_only,
        }
    }
}

impl PlaceOrder {
    /// A limit order that stands until it is canceled, with the given id.
    pub open spec fn resting(
        client_id: ClientOrderId,
        exchange: ExchangeInstance,
        instrument: InstrumentId,
        side: OrderSide,
        price: Price,
        qty: Qty,
    ) -> PlaceOrder {
        PlaceOrder {
            client_id,
            exchange,
            instrument,
            side,
            price,
            qty,
            tif: TimeInForce::Gtc,
            post_only: false,
            reduce_only: false,
        }
    }

    /// A limit order that stands until it is canceled, with a fresh id.
    pub fn limit(
        exchange: ExchangeInstance,
        instrument: InstrumentId,
        side: OrderSide,
        price: Price,
        qty: Qty,
    ) -> (r: PlaceOrder)
        ensures
            r == PlaceOrder::resting(r.client_id, exchange, instrument, side, price, qty),
            exists|high: u64, low: u64|
                r.client_id@ == #[trigger] ClientOrderId::words_text(high, low),
    {
        PlaceOrder {
            client_id: ClientOrderId::generate(),
            exchange,
            instrument,
            side,
            price,
            qty,
            tif: TimeInForce::Gtc,
            post_only: false,
            reduce_only: false,
        }
    }

    /// The order with another time in force.
    pub fn with_tif(self, tif: TimeInForce) -> (r: PlaceOrder)
        ensures
            r == (PlaceOrder { tif, ..self }),
    {
        let mut s = self;
        s.tif = tif;
        s
    }

    /// The order that only adds to the book.
    pub fn post_only(self) -> (r: PlaceOrder)
        ensures
            r == (PlaceOrder { post_only: true, ..self }),
    {
        let mut s = self;
        s.post_only = true;
        s
    }

    /// The order that only reduces a position.
    pub fn reduce_only(self) -> (r: PlaceOrder)
        ensures
            r == (PlaceOrder { reduce_only: true, ..self }),
    {
        let mut s = self;
        s.reduce_only = true;
        s
    }

    /// The order under another id.
    pub fn with_client_id(self, client_id: ClientOrderId) -> (r: PlaceOrder)
        ensures
            r == (PlaceOrder { client_id, ..self }),
    {
        let mut s = self;
        s.client_id = client_id;
        s
    }
}

/// Cancel one order.
#[derive(Debug)]
pub struct CancelOrder {
    pub exchange: ExchangeInstance,
    pub client_id: ClientOrderId,
}

impl Clone for CancelOrder {
    fn clone(&self) -> (r: CancelOrder)
        ensures
            r == *self,
    {
        CancelOrder {
            exchange: self.exchange.clone(),
            client_id: self.client_id.clone(),
        }
    }
}

impl CancelOrder {
    /// Cancel the order `client_id`.
    pub fn new(exchange: ExchangeInstance, client_id: ClientOrderId) -> (r: CancelOrder)
        ensures
            r == (CancelOrder { exchange, client_id }),
    {
        CancelOrder { exchange, client_id }
    }
}

/// Cancel every open order, or those of one instrument.
#[derive(Debug)]
pub struct CancelAll {
    pub exchange: ExchangeInstance,
    pub instrument: Option<InstrumentId>,
}

impl Clone for CancelAll {
    fn clone(&self) -> (r: CancelAll)
        ensures
            r == *self,
    {
        CancelAll {
            exchange: self.exchange.clone(),
            instrument: match &self.instrument {
                Some(x) => Some(x.clone()),
                None => None,
            },
        }
    }
}

impl CancelAll {
    /// Cancel every open order.
    pub fn new(exchange: ExchangeInstance) -> (r: CancelAll)
        ensures
            r == (CancelAll { exchange, instrument: None }),
    {
        CancelAll { exchange, instrument: None }
    }

    /// Cancel every open order of `instrument`.
    pub fn for_instrument(exchange: ExchangeInstance, instrument: InstrumentId) -> (r: CancelAll)
        ensures
            r == (CancelAll { exchange, instrument: Some(instrument) }),
    {
        CancelAll { exchange, instrument: Some(instrument) }
    }
}

/// Stop a strategy.
#[derive(Debug)]
pub struct StopStrategy {
    pub strategy_id: StrategyId,
    pub reason: String,
}

impl Clone for StopStrategy {
    fn clone(&self) -> (r: StopStrategy)
        ensures
            r == *self,
    {
        StopStrategy {
            strategy_id: self.strategy_id.clone(),
            reason: self.reason.clone(),
        }
    }
}

impl StopStrategy {
    /// Stop the strategy for the given reason.
    pub fn new(strategy_id: StrategyId, reason: &str) -> (r: StopStrategy)
        ensures
            r.strategy_id == strategy_id,
            r.reason@ == reason@,
    {
        StopStrategy { strategy_id, reason: reason.to_owned() }
    }
}

/// The same orders in the same sequence.
pub fn clone_orders(orders: &Vec<PlaceOrder>) -> (r: Vec<PlaceOrder>)
    ensures
        r@ == orders@,
{
    let mut out: Vec<PlaceOrder> = Vec::new();
    let mut i: usize = 0;
    while i < orders.len()
        invariant
            i <= orders@.len(),
            out@ == orders@.subrange(0, i as int),
        decreases orders@.len() - i,
    {
        out.push(orders[i].clone());
        assert(out@ =~= orders@.subrange(0, i + 1));
        i = i + 1;
    }
    assert(orders@.subrange(0, orders@.len() as int) =~= orders@);
    out
}

/// A command of a strategy.
#[derive(Debug)]
pub enum Command {
    PlaceOrder(PlaceOrder),
    PlaceOrders(Vec<PlaceOrder>),
    CancelOrder(CancelOrder),
    CancelAll(CancelAll),
    StopStrategy(StopStrategy),
}

impl Command {
    /// The id that the command is about.
    pub open spec fn order_named(&self) -> Option<&ClientOrderId> {
        match self {
            Command::PlaceOrder(c) => Some(&c.client_id),
            Command::PlaceOrders(orders) => if orders@.len() > 0 {
                Some(&orders@[0].client_id)
            } else {
                None
            },
            Command::CancelOrder(c) => Some(&c.client_id),
            Command::CancelAll(_) => None,
            Command::StopStrategy(_) => None,
        }
    }

    /// The instrument that the command names.
    pub open spec fn instrument_named(&self) -> Option<&InstrumentId> {
        match self {
            Command::PlaceOrder(c) => Some(&c.instrument),
            Command::PlaceOrders(orders) => if orders@.len() > 0 {
                Some(&orders@[0].instrument)
            } else {
                None
            },
            Command::CancelOrder(_) => None,
            Command::CancelAll(c) => match c.instrument {
                Some(i) => Some(&i),
                None => None,
            },
            Command::StopStrategy(_) => None,
        }
    }

    /// The id that the command is about: for a batch that of its first order.
    pub fn client_id(&self) -> (r: Option<&ClientOrderId>)
        ensures
            r == self.order_named(),
    {
        match self {
            Command::PlaceOrder(c) => Some(&c.client_id),
            Command::PlaceOrders(orders) => if orders.len() > 0 {
                Some(&orders[0].client_id)
            } else {
                None
            },
            Command::CancelOrder(c) => Some(&c.client_id),
            Command::CancelAll(_) => None,
            Command::StopStrategy(_) => None,
        }
    }

    /// The instrument that the command names: for a batch that of its first order.
    pub fn instrument(&self) -> (r: Option<&InstrumentId>)
        ensures
            r == self.instrument_named(),
    {
        match self {
            Command::PlaceOrder(c) => Some(&c.instrument),
            Command::PlaceOrders(orders) => if orders.len() > 0 {
                Some(&orders[0].instrument)
            } else {
                None
            },
            Command::CancelOrder(_) => None,
            Command::CancelAll(c) => match &c.instrument {
                Some(i) => Some(i),
                None => None,
            },
            Command::StopStrategy(_) => None,
        }
    }
}

} // verus!
