//! Tracks orders through their states and keeps each trade from being counted twice.
use vstd::prelude::*;
use crate::strmap;
use crate::decimal;
use crate::decimal::{Decimal, sum, difference, product, quotient};
use crate::strmap::StrMap;
use crate::types::{ClientOrderId, ExchangeOrderId, InstrumentId, LiveOrder, OrderSide, OrderStatus, Price, Qty, TradeId, now_ms};

verus! {

/// How many trades are remembered.
pub const MAX_SEEN_TRADES: usize = 10_000;

/// What an order manager holds.
pub struct OrderBook {
    /// The orders by client id.
    pub orders: Seq<(String, LiveOrder)>,
    /// The client ids by exchange id.
    pub by_exchange: Seq<(String, ClientOrderId)>,
    /// The trades that are remembered, oldest first.
    pub seen: Seq<Seq<char>>,
}

/// An order as it is first tracked.
pub open spec fn fresh_order(
    client_id: ClientOrderId,
    instrument: InstrumentId,
    side: OrderSide,
    price: Price,
    qty: Qty,
    now: i64,
) -> LiveOrder {
    LiveOrder {
        client_id,
        exchange_order_id: None,
        instrument,
        side,
        price,
        requested_qty: qty,
        filled_qty: Qty(decimal::zero()),
        avg_fill_px: None,
        status: OrderStatus::New,
        ts_created: now,
        ts_last_update: now,
    }
}

/// The average price after a fill: the notional of all fills over their quantity; it
/// stays as it is while the quantity is not positive.
pub open spec fn fill_average(order: LiveOrder, filled: Decimal, qty: Decimal, px: Decimal) -> Option<
    Option<Price>,
> {
    let before = match order.avg_fill_px {
        Some(p) => p.0,
        None => decimal::zero(),
    };
    let old_notional = decimal::times(Some(before), decimal::minus(Some(filled), Some(qty)));
    let new_notional = decimal::times(Some(px), Some(qty));
    match (old_notional, new_notional) {
        (Some(_), Some(_)) => if filled.m() > 0 {
            match decimal::over(decimal::plus(old_notional, new_notional), Some(filled)) {
                Some(p) => Some(Some(Price(p))),
                None => None,
            }
        } else {
            Some(order.avg_fill_px)
        },
        _ => None,
    }
}

/// An order after a fill. It is filled once the quantity reaches what was asked for.
pub open spec fn order_filled(order: LiveOrder, qty: Qty, px: Price, now: i64) -> Option<LiveOrder> {
    match decimal::plus(Some(order.filled_qty.0), Some(qty.0)) {
        None => None,
        Some(filled) => match fill_average(order, filled, qty.0, px.0) {
            None => None,
            Some(avg_fill_px) => Some(
                LiveOrder {
                    filled_qty: Qty(filled),
                    avg_fill_px,
                    status: if decimal::le(order.requested_qty.0, filled) {
                        OrderStatus::Filled
                    } else {
                        OrderStatus::PartiallyFilled
                    },
                    ts_last_update: now,
                    ..order
                },
            ),
        },
    }
}

/// The trades that are remembered after one more: the oldest is forgotten for it once there
/// are too many.
pub open spec fn remembered(seen: Seq<Seq<char>>, trade: Seq<char>) -> Seq<Seq<char>> {
    if seen.len() >= MAX_SEEN_TRADES {
        seen.push(trade).drop_first()
    } else {
        seen.push(trade)
    }
}

impl OrderBook {
    /// The order with a client id.
    pub open spec fn order(self, client_id: ClientOrderId) -> Option<LiveOrder> {
        strmap::lookup(self.orders, client_id@)
    }

    /// The book with one more order.
    pub open spec fn created(self, order: LiveOrder) -> OrderBook {
        OrderBook { orders: strmap::put(self.orders, order.client_id.0, order), ..self }
    }

    /// The book after the exchange took an order.
    pub open spec fn accepted(
        self,
        client_id: ClientOrderId,
        exchange_order_id: Option<ExchangeOrderId>,
        now: i64,
    ) -> OrderBook {
        match self.order(client_id) {
            None => self,
            Some(o) => {
                let taken = LiveOrder {
                    status: OrderStatus::Accepted,
                    ts_last_update: now,
                    exchange_order_id: if exchange_order_id is Some {
                        exchange_order_id
                    } else {
                        o.exchange_order_id
                    },
                    ..o
                };
                OrderBook {
                    orders: strmap::put(self.orders, client_id.0, taken),
                    by_exchange: match exchange_order_id {
                        Some(eid) => strmap::put(self.by_exchange, eid.0, client_id),
                        None => self.by_exchange,
                    },
                    ..self
                }
            },
        }
    }

    /// The book without an order.
    pub open spec fn dropped(self, client_id: ClientOrderId) -> OrderBook {
        match self.order(client_id) {
            None => self,
            Some(o) => OrderBook {
                orders: strmap::without(self.orders, client_id@),
                by_exchange: match o.exchange_order_id {
                    Some(eid) => strmap::without(self.by_exchange, eid@),
                    None => self.by_exchange,
                },
                ..self
            },
        }
    }

    /// The order that is dropped, in its last state.
    pub open spec fn ended(self, client_id: ClientOrderId, status: OrderStatus, now: i64) -> Option<
        LiveOrder,
    > {
        match self.order(client_id) {
            None => None,
            Some(o) => Some(LiveOrder { status, ts_last_update: now, ..o }),
        }
    }

    /// The book after a fill. A trade that is remembered changes nothing; a trade of an
    /// order that is not tracked is only remembered.
    pub open spec fn filled(
        self,
        client_id: ClientOrderId,
        trade_id: TradeId,
        qty: Qty,
        px: Price,
        now: i64,
    ) -> Option<OrderBook> {
        if self.seen.contains(trade_id@) {
            Some(self)
        } else {
            match self.order(client_id) {
                None => Some(OrderBook { seen: remembered(self.seen, trade_id@), ..self }),
                Some(o) => match order_filled(o, qty, px, now) {
                    None => None,
                    Some(order) => Some(
                        OrderBook {
                            orders: strmap::put(self.orders, client_id.0, order),
                            seen: remembered(self.seen, trade_id@),
                            ..self
                        },
                    ),
                },
            }
        }
    }

    /// No order and no exchange id is listed twice.
    pub open spec fn sound(self) -> bool {
        strmap::distinct_keys(self.orders) && strmap::distinct_keys(self.by_exchange)
    }

    /// The fill is new and its order is tracked.
    pub open spec fn counts(self, client_id: ClientOrderId, trade_id: TradeId) -> bool {
        !self.seen.contains(trade_id@) && self.order(client_id) is Some
    }
}

/// The number of orders is that of the client ids that were made and not removed: a new order
/// adds one where its id is not tracked, a dropped one takes one away where it is, and neither
/// an acceptance nor a fill changes it. No order is ever listed twice.
pub proof fn law_orders_are_counted(
    book: OrderBook,
    order: LiveOrder,
    client_id: ClientOrderId,
    exchange_order_id: Option<ExchangeOrderId>,
    trade_id: TradeId,
    qty: Qty,
    px: Price,
    now: i64,
)
    requires
        book.sound(),
    ensures
        book.created(order).sound(),
        book.created(order).orders.len() == book.orders.len() + (if book.order(order.client_id) is None {
            1int
        } else {
            0
        }),
        book.dropped(client_id).sound(),
        book.dropped(client_id).orders.len() == book.orders.len() - (if book.order(client_id) is Some {
            1int
        } else {
            0
        }),
        book.accepted(client_id, exchange_order_id, now).sound(),
        book.accepted(client_id, exchange_order_id, now).orders.len() == book.orders.len(),
        book.filled(client_id, trade_id, qty, px, now) matches Some(after) ==> after.sound()
            && after.orders.len() == book.orders.len(),
{
    strmap::lemma_put(book.orders, order.client_id.0, order);
    strmap::lemma_map_of(book.orders, order.client_id@);
    strmap::lemma_map_of(book.orders, client_id@);
    strmap::lemma_key_index(book.orders, order.client_id@);
    strmap::lemma_key_index(book.orders, client_id@);
    strmap::lemma_without(book.orders, client_id@);
    match book.order(client_id) {
        Some(o) => {
            if let Some(eid) = o.exchange_order_id {
                strmap::lemma_without(book.by_exchange, eid@);
            }
            strmap::lemma_put(
                book.orders,
                client_id.0,
                LiveOrder {
                    status: OrderStatus::Accepted,
                    ts_last_update: now,
                    exchange_order_id: if exchange_order_id is Some {
                        exchange_order_id
                    } else {
                        o.exchange_order_id
                    },
                    ..o
                },
            );
            if let Some(eid) = exchange_order_id {
                strmap::lemma_put(book.by_exchange, eid.0, client_id);
            }
            if let Some(filled) = order_filled(o, qty, px, now) {
                strmap::lemma_put(book.orders, client_id.0, filled);
            }
        },
        None => {},
    }
}

/// The trades that are remembered after several, each of which is taken once.
pub open spec fn all_remembered(seen: Seq<Seq<char>>, trades: Seq<Seq<char>>) -> Seq<Seq<char>>
    decreases trades.len(),
{
    if trades.len() == 0 {
        seen
    } else {
        let before = all_remembered(seen, trades.drop_last());
        if before.contains(trades.last()) {
            before
        } else {
            remembered(before, trades.last())
        }
    }
}

/// A fill that can be booked takes its trade to those that are remembered.
pub proof fn law_fill_is_remembered(
    book: OrderBook,
    client_id: ClientOrderId,
    trade_id: TradeId,
    qty: Qty,
    px: Price,
    now: i64,
)
    requires
        book.filled(client_id, trade_id, qty, px, now) is Some,
    ensures
        (book.filled(client_id, trade_id, qty, px, now)->0).seen == all_remembered(
            book.seen,
            seq![trade_id@],
        ),
{
    let one = seq![trade_id@];
    assert(one.drop_last() =~= Seq::empty());
    assert(all_remembered(book.seen, one.drop_last()) == book.seen);
}

/// The memory holds the last trades: of distinct trades that were taken since the beginning,
/// exactly the most recent ones are remembered, and no other.
pub proof fn law_memory_holds_the_last(trades: Seq<Seq<char>>)
    requires
        trades.no_duplicates(),
    ensures
        all_remembered(Seq::empty(), trades) == (if trades.len() <= MAX_SEEN_TRADES {
            trades
        } else {
            trades.subrange(trades.len() - MAX_SEEN_TRADES, trades.len() as int)
        }),
        forall|i: int|
            0 <= i < trades.len() ==> (all_remembered(Seq::empty(), trades).contains(
                #[trigger] trades[i],
            ) <==> i >= trades.len() - MAX_SEEN_TRADES),
        forall|t: Seq<char>|
            !trades.contains(t) ==> !#[trigger] all_remembered(Seq::empty(), trades).contains(t),
    decreases trades.len(),
{
    let none: Seq<Seq<char>> = Seq::empty();
    let m = MAX_SEEN_TRADES as int;
    let n = trades.len() as int;
    let now = all_remembered(none, trades);
    let tail = if n <= m {
        trades
    } else {
        trades.subrange(n - m, n)
    };
    if n == 0 {
        assert(trades =~= none);
    } else {
        let rest = trades.drop_last();
        law_memory_holds_the_last(rest);
        let before = all_remembered(none, rest);
        assert(!rest.contains(trades.last())) by {
            if rest.contains(trades.last()) {
                let i = choose|i: int| 0 <= i < rest.len() && rest[i] == trades.last();
                assert(trades[i] == trades[n - 1]);
            }
        }
        assert(!before.contains(trades.last()));
        assert(now == remembered(before, trades.last()));
        assert(now =~= tail);
    }
    assert forall|i: int| 0 <= i < n implies (now.contains(#[trigger] trades[i]) <==> i >= n - m) by {
        if i >= n - m {
            assert(tail[if n <= m {
                i
            } else {
                i - (n - m)
            }] == trades[i]);
        } else if now.contains(trades[i]) {
            let j = choose|j: int| 0 <= j < now.len() && now[j] == trades[i];
            assert(tail[j] == trades[n - m + j]);
        }
    }
    assert forall|t: Seq<char>| !trades.contains(t) implies !#[trigger] now.contains(t) by {
        if now.contains(t) {
            let j = choose|j: int| 0 <= j < now.len() && now[j] == t;
            assert(trades[if n <= m {
                j
            } else {
                n - m + j
            }] == t);
        }
    }
}

/// A trade is counted once: when it comes again it changes nothing.
pub proof fn law_trade_counted_once(
    book: OrderBook,
    client_id: ClientOrderId,
    trade_id: TradeId,
    qty: Qty,
    px: Price,
    now: i64,
    client_id2: ClientOrderId,
    qty2: Qty,
    px2: Price,
    now2: i64,
)
    requires
        book.filled(client_id, trade_id, qty, px, now) is Some,
    ensures
        ({
            let after = book.filled(client_id, trade_id, qty, px, now)->0;
            &&& after.seen.contains(trade_id@)
            &&& !after.counts(client_id2, trade_id)
            &&& after.filled(client_id2, trade_id, qty2, px2, now2) == Some(after)
        }),
{
    let t = trade_id@;
    if !book.seen.contains(t) {
        let all = book.seen.push(t);
        assert(all[book.seen.len() as int] == t);
        if book.seen.len() >= MAX_SEEN_TRADES {
            assert(all.drop_first()[book.seen.len() - 1] == t);
        }
        assert(remembered(book.seen, t).contains(t));
    }
}

/// An order that is dropped is no longer tracked, and its exchange id leads nowhere.
pub proof fn law_dropped_order_is_gone(book: OrderBook, client_id: ClientOrderId)
    requires
        book.sound(),
    ensures
        book.dropped(client_id).order(client_id) is None,
        book.order(client_id) matches Some(o) ==> (o.exchange_order_id matches Some(eid) ==> strmap::lookup(
            book.dropped(client_id).by_exchange,
            eid@,
        ) is None),
{
    strmap::lemma_without(book.orders, client_id@);
    if let Some(o) = book.order(client_id) {
        if let Some(eid) = o.exchange_order_id {
            strmap::lemma_without(book.by_exchange, eid@);
        }
    }
}

/// Once the exchange has taken an order under an id, that id leads to the order.
pub proof fn law_accepted_order_is_found(
    book: OrderBook,
    client_id: ClientOrderId,
    eid: ExchangeOrderId,
    now: i64,
)
    requires
        book.sound(),
        book.order(client_id) is Some,
    ensures
        strmap::lookup(book.accepted(client_id, Some(eid), now).by_exchange, eid@) == Some(client_id),
        book.accepted(client_id, Some(eid), now).order(client_id) matches Some(o)
            && o.exchange_order_id == Some(eid) && o.status is Accepted,
{
    strmap::lemma_put(book.by_exchange, eid.0, client_id);
    let o = book.order(client_id)->0;
    strmap::lemma_put(
        book.orders,
        client_id.0,
        LiveOrder {
            status: OrderStatus::Accepted,
            ts_last_update: now,
            exchange_order_id: Some(eid),
            ..o
        },
    );
}

/// The trades that are remembered, oldest first.
#[derive(Debug)]
pub struct TradeMemory {
    seen: Vec<String>,
}

impl TradeMemory {
    #[verifier::type_invariant]
    spec fn bounded(self) -> bool {
        self.seen@.len() <= MAX_SEEN_TRADES
    }

    /// The trades, oldest first.
    pub closed spec fn view(&self) -> Seq<Seq<char>> {
        self.seen@.map_values(|s: String| s@)
    }

    /// Nothing remembered.
    pub fn new() -> (r: TradeMemory)
        ensures
            r@ == Seq::<Seq<char>>::empty(),
    {
        let r = TradeMemory { seen: Vec::new() };
        assert(r@ =~= Seq::empty());
        r
    }

    /// How many trades are remembered.
    pub fn len(&self) -> (r: usize)
        ensures
            r == self@.len(),
            r <= MAX_SEEN_TRADES,
    {
        proof {
            use_type_invariant(self);
        }
        self.seen.len()
    }

    /// Whether a trade is remembered.
    pub fn contains(&self, trade: &String) -> (r: bool)
        ensures
            r == self@.contains(trade@),
    {
        let mut i: usize = 0;
        while i < self.seen.len()
            invariant
                i <= self.seen@.len(),
                forall|j: int| 0 <= j < i ==> #[trigger] self.seen@[j]@ != trade@,
            decreases self.seen@.len() - i,
        {
            if self.seen[i] == *trade {
                assert(self@[i as int] == trade@);
                return true;
            }
            i = i + 1;
        }
        assert(!self@.contains(trade@)) by {
            if self@.contains(trade@) {
                let j = self@.index_of(trade@);
                assert(self.seen@[j]@ == trade@);
            }
        }
        false
    }

    /// Remembers one more trade.
    pub fn remember(&mut self, trade: &String)
        ensures
            final(self)@ == remembered(old(self)@, trade@),
    {
        proof {
            use_type_invariant(&*self);
        }
        let mut seen: Vec<String> = Vec::new();
        std::mem::swap(&mut seen, &mut self.seen);
        let ghost before = seen@;
        seen.push(trade.clone());
        if seen.len() > MAX_SEEN_TRADES {
            let _oldest = seen.remove(0);
        }
        assert(seen@.map_values(|s: String| s@) =~= remembered(
            before.map_values(|s: String| s@),
            trade@,
        ));
        self.seen = seen;
    }
}

/// Tracks orders and trades.
#[derive(Debug)]
pub struct OrderManager {
    orders: StrMap<LiveOrder>,
    exchange_id_map: StrMap<ClientOrderId>,
    seen_trades: TradeMemory,
}

impl OrderManager {
    /// What the manager holds.
    pub closed spec fn view(&self) -> OrderBook {
        OrderBook {
            orders: self.orders.list(),
            by_exchange: self.exchange_id_map.list(),
            seen: self.seen_trades@,
        }
    }

    /// A manager without orders.
    pub fn new() -> (r: OrderManager)
        ensures
            r@ == (OrderBook { orders: Seq::empty(), by_exchange: Seq::empty(), seen: Seq::empty() }),
    {
        OrderManager {
            orders: StrMap::new(),
            exchange_id_map: StrMap::new(),
            seen_trades: TradeMemory::new(),
        }
    }

    /// The order with a client id.
    pub fn get(&self, client_id: &ClientOrderId) -> (r: Option<&LiveOrder>)
        ensures
            r == (match self@.order(*client_id) {
                Some(o) => Some(&o),
                None => None,
            }),
    {
        self.orders.get(client_id.as_str())
    }

    /// The order with a client id, to be changed in place.
    pub fn get_mut(&mut self, client_id: &ClientOrderId) -> (r: Option<&mut LiveOrder>)
        ensures
            match r {
                Some(order) => {
                    &&& old(self)@.order(*client_id) == Some(*order)
                    &&& final(self)@ == (OrderBook {
                        orders: strmap::put(old(self)@.orders, client_id.0, *final(order)),
                        ..old(self)@
                    })
                },
                None => old(self)@.order(*client_id) is None && final(self)@ == old(self)@,
            },
    {
        self.orders.get_mut(client_id.as_str())
    }

    /// Whether an order is tracked.
    pub fn contains(&self, client_id: &ClientOrderId) -> (r: bool)
        ensures
            r == (self@.order(*client_id) is Some),
    {
        self.orders.contains(client_id.as_str())
    }

    /// Tracks a new order.
    pub fn create_order_at(
        &mut self,
        client_id: ClientOrderId,
        instrument: InstrumentId,
        side: OrderSide,
        price: Price,
        qty: Qty,
        now: i64,
    ) -> (r: &LiveOrder)
        ensures
            *r == fresh_order(client_id, instrument, side, price, qty, now),
            final(self)@ == old(self)@.created(
                fresh_order(client_id, instrument, side, price, qty, now),
            ),
    {
        let order = LiveOrder {
            client_id: client_id.clone(),
            exchange_order_id: None,
            instrument,
            side,
            price,
            requested_qty: qty,
            filled_qty: Qty(Decimal::zero()),
            avg_fill_px: None,
            status: OrderStatus::New,
            ts_created: now,
            ts_last_update: now,
        };
        let key = client_id.0.clone();
        self.orders.insert(client_id.0, order);
        self.orders.get(key.as_str()).unwrap()
    }

    /// Tracks a new order from now on.
    pub fn create_order(
        &mut self,
        client_id: ClientOrderId,
        instrument: InstrumentId,
        side: OrderSide,
        price: Price,
        qty: Qty,
    ) -> (r: &LiveOrder)
        ensures
            final(self)@ == old(self)@.created(*r),
            *r == fresh_order(client_id, instrument, side, price, qty, r.ts_created),
    {
        let now: i64 = now_ms();
        self.create_order_at(client_id, instrument, side, price, qty, now)
    }

    /// Notes that the exchange took an order; says whether it is tracked.
    pub fn accept_order_at(
        &mut self,
        client_id: &ClientOrderId,
        exchange_order_id: Option<ExchangeOrderId>,
        now: i64,
    ) -> (r: bool)
        ensures
            r == (old(self)@.order(*client_id) is Some),
            final(self)@ == old(self)@.accepted(*client_id, exchange_order_id, now),
    {
        let found = match self.orders.get(client_id.as_str()) {
            Some(o) => Some(o.clone()),
            None => None,
        };
        match found {
            Some(o) => {
                let mut order = o;
                order.status = OrderStatus::Accepted;
                order.ts_last_update = now;
                if let Some(eid) = exchange_order_id {
                    order.exchange_order_id = Some(eid.clone());
                    self.exchange_id_map.insert(eid.0, client_id.clone());
                }
                self.orders.insert(client_id.0.clone(), order);
                true
            },
            None => false,
        }
    }

    /// Notes that the exchange took an order; says whether it is tracked.
    pub fn accept_order(
        &mut self,
        client_id: &ClientOrderId,
        exchange_order_id: Option<ExchangeOrderId>,
    ) -> (r: bool)
        ensures
            r == (old(self)@.order(*client_id) is Some),
            exists|now: i64|
                final(self)@ == #[trigger] old(self)@.accepted(*client_id, exchange_order_id, now),
    {
        let now: i64 = now_ms();
        self.accept_order_at(client_id, exchange_order_id, now)
    }

    fn take_order(&mut self, client_id: &ClientOrderId) -> (r: Option<LiveOrder>)
        ensures
            r == old(self)@.order(*client_id),
            final(self)@ == old(self)@.dropped(*client_id),
    {
        match self.orders.remove(client_id.as_str()) {
            Some(order) => {
                if let Some(eid) = &order.exchange_order_id {
                    let _gone = self.exchange_id_map.remove(eid.as_str());
                }
                Some(order)
            },
            None => None,
        }
    }

    /// Drops an order that the exchange refused.
    pub fn reject_order_at(&mut self, client_id: &ClientOrderId, now: i64) -> (r: Option<LiveOrder>)
        ensures
            r == old(self)@.ended(*client_id, OrderStatus::Rejected, now),
            final(self)@ == old(self)@.dropped(*client_id),
    {
        match self.take_order(client_id) {
            Some(o) => {
                let mut order = o;
                order.status = OrderStatus::Rejected;
                order.ts_last_update = now;
                Some(order)
            },
            None => None,
        }
    }

    /// Drops an order that the exchange refused.
    pub fn reject_order(&mut self, client_id: &ClientOrderId) -> (r: Option<LiveOrder>)
        ensures
            exists|now: i64|
                r == #[trigger] old(self)@.ended(*client_id, OrderStatus::Rejected, now),
            final(self)@ == old(self)@.dropped(*client_id),
    {
        let now: i64 = now_ms();
        self.reject_order_at(client_id, now)
    }

    /// Drops an order that was canceled.
    pub fn cancel_order_at(&mut self, client_id: &ClientOrderId, now: i64) -> (r: Option<LiveOrder>)
        ensures
            r == old(self)@.ended(*client_id, OrderStatus::Canceled, now),
            final(self)@ == old(self)@.dropped(*client_id),
    {
        match self.take_order(client_id) {
            Some(o) => {
                let mut order = o;
                order.status = OrderStatus::Canceled;
                order.ts_last_update = now;
                Some(order)
            },
            None => None,
        }
    }

    /// Drops an order that was canceled.
    pub fn cancel_order(&mut self, client_id: &ClientOrderId) -> (r: Option<LiveOrder>)
        ensures
            exists|now: i64|
                r == #[trigger] old(self)@.ended(*client_id, OrderStatus::Canceled, now),
            final(self)@ == old(self)@.dropped(*client_id),
    {
        let now: i64 = now_ms();
        self.cancel_order_at(client_id, now)
    }

    /// Whether a trade is remembered.
    pub fn is_trade_seen(&self, trade_id: &TradeId) -> (r: bool)
        ensures
            r == self@.seen.contains(trade_id@),
    {
        self.seen_trades.contains(&trade_id.0)
    }

    fn fill_order(order: &LiveOrder, qty: Qty, px: Price, now: i64) -> (r: Option<LiveOrder>)
        ensures
            r == order_filled(*order, qty, px, now),
    {
        match order.filled_qty.0.checked_add(qty.0) {
            None => None,
            Some(filled) => {
                let before = match order.avg_fill_px {
                    Some(p) => p.0,
                    None => Decimal::zero(),
                };
                let old_notional = product(Some(before), difference(Some(filled), Some(qty.0)));
                let new_notional = product(Some(px.0), Some(qty.0));
                if old_notional.is_none() || new_notional.is_none() {
                    return None;
                }
                let mut next = order.clone();
                if filled.is_positive() {
                    match quotient(sum(old_notional, new_notional), Some(filled)) {
                        Some(p) => {
                            next.avg_fill_px = Some(Price(p));
                        },
                        None => {
                            return None;
                        },
                    }
                }
                next.filled_qty = Qty(filled);
                next.status = if order.requested_qty.0.at_most(filled) {
                    OrderStatus::Filled
                } else {
                    OrderStatus::PartiallyFilled
                };
                next.ts_last_update = now;
                Some(next)
            },
        }
    }

    /// Applies a fill; says whether it is new and its order is tracked. Changes nothing and
    /// gives `None` where a step of arithmetic is too large.
    pub fn apply_fill_at(
        &mut self,
        client_id: &ClientOrderId,
        trade_id: &TradeId,
        fill_qty: Qty,
        fill_px: Price,
        now: i64,
    ) -> (r: Option<bool>)
        ensures
            match old(self)@.filled(*client_id, *trade_id, fill_qty, fill_px, now) {
                Some(book) => r == Some(old(self)@.counts(*client_id, *trade_id))
                    && final(self)@ == book,
                None => r is None && final(self)@ == old(self)@,
            },
    {
        if self.is_trade_seen(trade_id) {
            return Some(false);
        }
        let next = match self.orders.get(client_id.as_str()) {
            Some(o) => match OrderManager::fill_order(o, fill_qty, fill_px, now) {
                Some(order) => Some(order),
                None => {
                    return None;
                },
            },
            None => None,
        };
        self.seen_trades.remember(&trade_id.0);
        match next {
            Some(order) => {
                self.orders.insert(client_id.0.clone(), order);
                Some(true)
            },
            None => Some(false),
        }
    }

    /// Applies a fill; says whether it is new and its order is tracked.
    pub fn apply_fill(
        &mut self,
        client_id: &ClientOrderId,
        trade_id: &TradeId,
        fill_qty: Qty,
        fill_px: Price,
    ) -> (r: bool)
        requires
            old(self)@.filled(*client_id, *trade_id, fill_qty, fill_px, 0) is Some,
        ensures
            r == old(self)@.counts(*client_id, *trade_id),
            exists|now: i64|
                Some(final(self)@) == #[trigger] old(self)@.filled(
                    *client_id,
                    *trade_id,
                    fill_qty,
                    fill_px,
                    now,
                ),
    {
        let now: i64 = now_ms();
        assert(old(self)@.filled(*client_id, *trade_id, fill_qty, fill_px, now) is Some);
        self.apply_fill_at(client_id, trade_id, fill_qty, fill_px, now).unwrap()
    }

    /// Whether an order is tracked and filled whole.
    pub fn is_complete(&self, client_id: &ClientOrderId) -> (r: bool)
        ensures
            r == (self@.order(*client_id) matches Some(o) && o.complete()),
    {
        match self.orders.get(client_id.as_str()) {
            Some(o) => o.is_complete(),
            None => false,
        }
    }

    /// Drops an order that is in its last state.
    pub fn remove_terminal(&mut self, client_id: &ClientOrderId) -> (r: Option<LiveOrder>)
        ensures
            match old(self)@.order(*client_id) {
                Some(o) if o.status.terminal() => r == Some(o) && final(self)@
                    == old(self)@.dropped(*client_id),
                _ => r is None && final(self)@ == old(self)@,
            },
    {
        let terminal = match self.orders.get(client_id.as_str()) {
            Some(o) => o.status.is_terminal(),
            None => false,
        };
        if terminal {
            self.take_order(client_id)
        } else {
            None
        }
    }

    /// The client id of the order that the exchange knows under another id.
    pub fn client_id_from_exchange_id(&self, exchange_id: &ExchangeOrderId) -> (r: Option<
        &ClientOrderId,
    >)
        ensures
            r == (match strmap::lookup(self@.by_exchange, exchange_id@) {
                Some(c) => Some(&c),
                None => None,
            }),
    {
        self.exchange_id_map.get(exchange_id.as_str())
    }

    /// How many orders are tracked.
    pub fn order_count(&self) -> (r: usize)
        ensures
            r == self@.orders.len(),
            self@.sound(),
    {
        let _ids: usize = self.exchange_id_map.len();
        self.orders.len()
    }
}

impl Default for OrderManager {
    fn default() -> (r: OrderManager)
        ensures
            r@ == (OrderBook { orders: Seq::empty(), by_exchange: Seq::empty(), seen: Seq::empty() }),
    {
        OrderManager::new()
    }
}

} // verus!
