//! A mock exchange whose behaviour is set by hand.
use vstd::prelude::*;
use vstd::string::*;
use crate::text;
use crate::fill_simulator;
use crate::decimal;
use crate::decimal::{Decimal, sum, difference, product};
use crate::exchange::{ExchangeError, Fill, OrderInput, PlaceOrderResult};
use crate::fill_simulator::{Balances, check_funds, swap_amounts};
use crate::strmap::StrMap;
use crate::text::{join2, number_text, text_before_last};
use crate::types::{AccountState, AssetId, Environment, ExchangeHealth, ExchangeId, ExchangeInstance, ExchangeOrderId, Fee, InstrumentId, Price, Qty, Quote, TimeInForce, TradeId};

verus! {

/// How orders fail.
#[derive(Debug, Clone, Copy, PartialEq, Eq, Structural)]
pub enum OrderFailMode {
    /// They never do.
    AlwaysSucceed,
    /// Where the balance does not cover them.
    FailOnInsufficientBalance,
    /// Where they are to be filled at once.
    IocAlwaysReject,
}

impl Default for OrderFailMode {
    fn default() -> (r: OrderFailMode)
        ensures
            r is AlwaysSucceed,
    {
        OrderFailMode::AlwaysSucceed
    }
}

/// How the exchange behaves.
#[derive(Debug, Clone, Copy)]
pub struct MockKnobs {
    pub order_fail_mode: OrderFailMode,
    pub exchange_health: ExchangeHealth,
    pub should_timeout: bool,
    pub should_rate_limit: bool,
    /// Every order is filled at once.
    pub fill_all_immediately: bool,
}

impl MockKnobs {
    /// Nothing fails.
    pub open spec fn usual() -> MockKnobs {
        MockKnobs {
            order_fail_mode: OrderFailMode::AlwaysSucceed,
            exchange_health: ExchangeHealth::Active,
            should_timeout: false,
            should_rate_limit: false,
            fill_all_immediately: false,
        }
    }

    /// Why no order is taken at all, where none is.
    pub open spec fn outage(self) -> Option<Outage> {
        if self.exchange_health is Halted {
            Some(Outage::Down)
        } else if self.should_timeout {
            Some(Outage::Silent)
        } else if self.should_rate_limit {
            Some(Outage::Busy)
        } else {
            None
        }
    }
}

impl Default for MockKnobs {
    fn default() -> (r: MockKnobs)
        ensures
            r == MockKnobs::usual(),
    {
        MockKnobs {
            order_fail_mode: OrderFailMode::AlwaysSucceed,
            exchange_health: ExchangeHealth::Active,
            should_timeout: false,
            should_rate_limit: false,
            fill_all_immediately: false,
        }
    }
}

/// Why no order is taken at all.
pub enum Outage {
    Down,
    Silent,
    Busy,
}

/// The error that tells of an outage.
pub open spec fn tells(e: ExchangeError, o: Outage) -> bool {
    match o {
        Outage::Down => e is Unavailable,
        Outage::Silent => e matches ExchangeError::Network(s) && s@ == "Timeout"@,
        Outage::Busy => e is RateLimited,
    }
}

/// What a mock exchange holds.
pub struct MockView {
    /// The exchange that it stands for.
    pub instance: ExchangeInstance,
    pub balances: Balances,
    /// The middle prices by coin.
    pub mids: Map<Seq<char>, Decimal>,
    pub next_oid: u64,
    pub fills: Seq<Fill>,
    /// Every order that was sent.
    pub placed: Seq<OrderInput>,
    pub knobs: MockKnobs,
    pub time: i64,
    /// The quotes that are still to come, one for each poll.
    pub queue: Seq<Quote>,
    /// How the next requests end: with an error, or as usual.
    pub outcomes: Seq<Option<ExchangeError>>,
}

impl MockView {
    /// Why an order is refused, where it is; nothing where a step is too large.
    pub open spec fn refusal(self, order: OrderInput) -> Option<Option<Seq<char>>> {
        match self.knobs.order_fail_mode {
            OrderFailMode::AlwaysSucceed => Some(None),
            OrderFailMode::FailOnInsufficientBalance => fill_simulator::shortage_of(
                self.balances,
                order.instrument@,
                order.side,
                order.price.0,
                order.qty.0,
            ),
            OrderFailMode::IocAlwaysReject => if order.tif is Ioc {
                Some(Some("IOC order rejected: no immediate liquidity"@))
            } else {
                Some(None)
            },
        }
    }

    /// The order is filled at once.
    pub open spec fn at_once(self, order: OrderInput) -> bool {
        match self.knobs.order_fail_mode {
            OrderFailMode::AlwaysSucceed => order.tif is Ioc || self.knobs.fill_all_immediately,
            OrderFailMode::FailOnInsufficientBalance => order.tif is Ioc,
            OrderFailMode::IocAlwaysReject => false,
        }
    }

    /// The balances after an order was filled at its price.
    pub open spec fn paid(self, order: OrderInput) -> Option<Balances> {
        let notional = decimal::times(Some(order.price.0), Some(order.qty.0));
        if notional is None {
            None
        } else {
            fill_simulator::swapped(self.balances, order.instrument@, order.side, notional, order.qty.0)
        }
    }

    /// No step of taking an order is too large.
    pub open spec fn take_fits(self, order: OrderInput) -> bool {
        match self.refusal(order) {
            None => false,
            Some(Some(_)) => true,
            Some(None) => self.next_oid < u64::MAX && (self.at_once(order) ==> self.paid(
                order,
            ) is Some),
        }
    }

    /// The exchange `after` it took an order, and its reply.
    pub open spec fn took(self, after: MockView, order: OrderInput, reply: PlaceOrderResult) -> bool {
        match self.refusal(order)->0 {
            Some(reason) => after == self && (reply matches PlaceOrderResult::Rejected { reason: r }
                && r@ == reason),
            None => {
                &&& reply matches PlaceOrderResult::Accepted {
                    exchange_order_id: Some(id),
                    filled_qty,
                    avg_fill_px,
                } && id@ == text::digits(self.next_oid as nat) && filled_qty == (if self.at_once(order) {
                    Some(order.qty)
                } else {
                    None
                }) && avg_fill_px == (if self.at_once(order) {
                    Some(order.price)
                } else {
                    None
                })
                &&& if self.at_once(order) {
                    &&& after.fills.len() == self.fills.len() + 1
                    &&& after.fills.drop_last() == self.fills
                    &&& mock_fill(after.fills.last(), order, self.next_oid, self.time)
                    &&& after == (MockView {
                        next_oid: (self.next_oid + 1) as u64,
                        balances: self.paid(order)->0,
                        fills: after.fills,
                        ..self
                    })
                } else {
                    after == (MockView { next_oid: (self.next_oid + 1) as u64, ..self })
                }
            },
        }
    }

    /// The exchange after orders were sent to it and before any is taken.
    pub open spec fn sent(self, orders: Seq<OrderInput>) -> MockView {
        MockView {
            placed: self.placed + orders,
            outcomes: if self.outcomes.len() > 0 {
                self.outcomes.drop_first()
            } else {
                self.outcomes
            },
            ..self
        }
    }

    /// The request ends with an error that was set for it.
    pub open spec fn set_to_fail(self) -> Option<ExchangeError> {
        if self.outcomes.len() > 0 {
            self.outcomes[0]
        } else {
            None
        }
    }

    /// What a request with orders comes to. One that is set to fail is not even recorded; one
    /// that meets an outage is recorded and fails; any other takes the orders one after the
    /// other, as far as no step is too large.
    pub open spec fn answered(
        self,
        after: MockView,
        orders: Seq<OrderInput>,
        reply: MockReply,
    ) -> bool {
        match (self.set_to_fail(), self.knobs.outage()) {
            (Some(e), _) => {
                &&& reply == MockReply::Failed(e)
                &&& after == (MockView { outcomes: self.outcomes.drop_first(), ..self })
            },
            (None, Some(o)) => {
                &&& reply matches MockReply::Failed(e) && tells(e, o)
                &&& after == self.sent(orders)
            },
            (None, None) => {
                &&& match reply {
                    MockReply::Replies(replies) => replies@.len() == orders.len(),
                    MockReply::TooLarge(replies) => replies@.len() < orders.len()
                        && !after.take_fits(orders[replies@.len() as int]),
                    MockReply::Failed(_) => false,
                }
                &&& exists|states: Seq<MockView>| #[trigger]
                    all_taken(self.sent(orders), after, states, orders, reply.replies())
            },
        }
    }

    /// The quote of an instrument around the middle price of its coin: five hundredths of a
    /// percent to either side.
    pub open spec fn quote_for(self, instrument: InstrumentId) -> Option<Option<Quote>> {
        let coin = fill_simulator::base_of(instrument@);
        if self.mids.contains_key(coin) {
            let mid = self.mids[coin];
            let spread = Decimal::lit(5, 4);
            match (
                decimal::times(Some(mid), decimal::minus(Some(decimal::one()), Some(spread))),
                decimal::times(Some(mid), decimal::plus(Some(decimal::one()), Some(spread))),
            ) {
                (Some(bid), Some(ask)) => Some(
                    Some(
                        Quote {
                            instrument,
                            bid: Price(bid),
                            ask: Price(ask),
                            bid_size: Qty(Decimal::lit(100, 0)),
                            ask_size: Qty(Decimal::lit(100, 0)),
                            ts: self.time,
                        },
                    ),
                ),
                _ => None,
            }
        } else {
            Some(None)
        }
    }

    /// The quotes of the instruments whose coins have a middle price.
    pub open spec fn quotes_for(self, instruments: Seq<InstrumentId>) -> Option<Seq<Quote>>
        decreases instruments.len(),
    {
        if instruments.len() == 0 {
            Some(Seq::empty())
        } else {
            match (self.quotes_for(instruments.drop_last()), self.quote_for(instruments.last())) {
                (Some(rest), Some(Some(q))) => Some(rest.push(q)),
                (Some(rest), Some(None)) => Some(rest),
                _ => None,
            }
        }
    }
}

/// The fill of an order at its own price, without a fee.
pub open spec fn mock_fill(fill: Fill, order: OrderInput, oid: u64, now: i64) -> bool {
    &&& fill.trade_id@ == "mock_"@ + text::digits(oid as nat)
    &&& fill.client_id == Some(order.client_id)
    &&& fill.exchange_order_id matches Some(e) && e@ == text::digits(oid as nat)
    &&& fill.instrument == order.instrument
    &&& fill.side == order.side
    &&& fill.price == order.price
    &&& fill.qty == order.qty
    &&& fill.fee.amount == decimal::zero()
    &&& fill.fee.asset@ == "USDC"@
    &&& fill.ts == now
}

/// The orders were taken one after the other, through the states.
pub open spec fn all_taken(
    before: MockView,
    after: MockView,
    states: Seq<MockView>,
    orders: Seq<OrderInput>,
    replies: Seq<PlaceOrderResult>,
) -> bool {
    &&& states.len() == replies.len() + 1
    &&& replies.len() <= orders.len()
    &&& states[0] == before
    &&& states.last() == after
    &&& forall|i: int|
        0 <= i < replies.len() ==> states[i].took(states[i + 1], orders[i], #[trigger] replies[i])
            && states[i].take_fits(orders[i])
}

/// What sending orders to the mock exchange comes to.
#[derive(Debug)]
pub enum MockReply {
    Replies(Vec<PlaceOrderResult>),
    Failed(ExchangeError),
    /// A step was too large; the orders before it were taken.
    TooLarge(Vec<PlaceOrderResult>),
}

impl MockReply {
    /// The replies to the orders that were taken.
    pub open spec fn replies(self) -> Seq<PlaceOrderResult> {
        match self {
            MockReply::Replies(v) => v@,
            MockReply::TooLarge(v) => v@,
            MockReply::Failed(_) => Seq::empty(),
        }
    }
}

/// A mock exchange.
#[derive(Debug)]
pub struct MockExchange {
    exchange_id: ExchangeId,
    environment: Environment,
    balances: StrMap<Decimal>,
    current_mids: StrMap<Decimal>,
    next_oid: u64,
    fills: Vec<Fill>,
    placed_orders: Vec<OrderInput>,
    knobs: MockKnobs,
    time_ms: i64,
    quote_queue: Vec<Quote>,
    outcomes: Vec<Option<ExchangeError>>,
}

impl MockExchange {
    /// What the exchange holds.
    pub closed spec fn view(&self) -> MockView {
        MockView {
            instance: ExchangeInstance {
                exchange_id: self.exchange_id,
                environment: self.environment,
            },
            balances: self.balances@,
            mids: self.current_mids@,
            next_oid: self.next_oid,
            fills: self.fills@,
            placed: self.placed_orders@,
            knobs: self.knobs,
            time: self.time_ms,
            queue: self.quote_queue@,
            outcomes: self.outcomes@,
        }
    }

    /// An exchange with starting balances.
    pub fn new_with_balances(balances: StrMap<Decimal>) -> (r: MockExchange)
        ensures
            r@ == (MockView {
                instance: r@.instance,
                balances: balances@,
                mids: Map::empty(),
                next_oid: 1000,
                fills: Seq::empty(),
                placed: Seq::empty(),
                knobs: MockKnobs::usual(),
                time: 0,
                queue: Seq::empty(),
                outcomes: Seq::empty(),
            }),
            r@.instance.exchange_id@ == "hyperliquid"@,
            r@.instance.environment is Testnet,
    {
        MockExchange {
            exchange_id: ExchangeId::new("hyperliquid"),
            environment: Environment::Testnet,
            balances,
            current_mids: StrMap::new(),
            next_oid: 1000,
            fills: Vec::new(),
            placed_orders: Vec::new(),
            knobs: MockKnobs::default(),
            time_ms: 0,
            quote_queue: Vec::new(),
            outcomes: Vec::new(),
        }
    }

    /// An exchange with a hundred thousand of the common currency and ten coins.
    pub fn new() -> (r: MockExchange)
        ensures
            r@ == (MockView {
                instance: r@.instance,
                balances: Map::<Seq<char>, Decimal>::empty().insert(
                    "USDC"@,
                    Decimal::lit(100000, 0),
                ).insert("ETH"@, Decimal::lit(10, 0)),
                mids: Map::empty(),
                next_oid: 1000,
                fills: Seq::empty(),
                placed: Seq::empty(),
                knobs: MockKnobs::usual(),
                time: 0,
                queue: Seq::empty(),
                outcomes: Seq::empty(),
            }),
            r@.instance.exchange_id@ == "hyperliquid"@,
            r@.instance.environment is Testnet,
    {
        let mut balances: StrMap<Decimal> = StrMap::new();
        balances.insert("USDC".to_owned(), Decimal::new(100000, 0));
        balances.insert("ETH".to_owned(), Decimal::new(10, 0));
        MockExchange::new_with_balances(balances)
    }

    /// The exchange that it stands for.
    pub fn instance(&self) -> (r: ExchangeInstance)
        ensures
            r == self@.instance,
    {
        ExchangeInstance::new(self.exchange_id.clone(), self.environment)
    }

    /// Sets how orders fail.
    pub fn set_fail_mode(&mut self, mode: OrderFailMode)
        ensures
            final(self)@ == (MockView {
                knobs: MockKnobs { order_fail_mode: mode, ..old(self)@.knobs },
                ..old(self)@
            }),
    {
        self.knobs.order_fail_mode = mode;
    }

    /// Sets whether requests are taken.
    pub fn set_exchange_health(&mut self, health: ExchangeHealth)
        ensures
            final(self)@ == (MockView {
                knobs: MockKnobs { exchange_health: health, ..old(self)@.knobs },
                ..old(self)@
            }),
    {
        self.knobs.exchange_health = health;
    }

    /// Sets whether requests get no reply.
    pub fn set_should_timeout(&mut self, should_timeout: bool)
        ensures
            final(self)@ == (MockView {
                knobs: MockKnobs { should_timeout, ..old(self)@.knobs },
                ..old(self)@
            }),
    {
        self.knobs.should_timeout = should_timeout;
    }

    /// Sets whether every order is filled at once.
    pub fn set_fill_all_immediately(&mut self, fill: bool)
        ensures
            final(self)@ == (MockView {
                knobs: MockKnobs { fill_all_immediately: fill, ..old(self)@.knobs },
                ..old(self)@
            }),
    {
        self.knobs.fill_all_immediately = fill;
    }

    /// Sets the middle price of a coin.
    pub fn set_mid(&mut self, coin: &str, price: Decimal)
        ensures
            final(self)@ == (MockView {
                mids: old(self)@.mids.insert(coin@, price),
                ..old(self)@
            }),
    {
        self.current_mids.insert(coin.to_owned(), price);
    }

    /// Sets the time.
    pub fn set_time(&mut self, time_ms: i64)
        ensures
            final(self)@ == (MockView { time: time_ms, ..old(self)@ }),
    {
        self.time_ms = time_ms;
    }

    /// Sets the balance of an asset.
    pub fn set_balance(&mut self, asset: AssetId, amount: Decimal)
        ensures
            final(self)@ == (MockView {
                balances: old(self)@.balances.insert(asset@, amount),
                ..old(self)@
            }),
    {
        self.balances.insert(asset.0, amount);
    }

    /// Lets a request to place orders, after those set before, end with an error.
    pub fn queue_place_order_error(&mut self, error: ExchangeError)
        ensures
            final(self)@ == (MockView {
                outcomes: old(self)@.outcomes.push(Some(error)),
                ..old(self)@
            }),
    {
        self.outcomes.push(Some(error));
    }

    /// Lets a request to place orders, after those set before, end as usual.
    pub fn queue_place_order_success(&mut self)
        ensures
            final(self)@ == (MockView {
                outcomes: old(self)@.outcomes.push(None),
                ..old(self)@
            }),
    {
        self.outcomes.push(None);
    }

    /// Every order that was sent.
    pub fn placed_orders(&self) -> (r: &Vec<OrderInput>)
        ensures
            r@ == self@.placed,
    {
        &self.placed_orders
    }

    /// The balance of an asset.
    pub fn balance(&self, asset: &AssetId) -> (r: Decimal)
        ensures
            r == fill_simulator::held(self@.balances, asset@),
    {
        match self.balances.get(asset.as_str()) {
            Some(x) => *x,
            None => Decimal::zero(),
        }
    }

    /// All fills.
    pub fn fills(&self) -> (r: &Vec<Fill>)
        ensures
            r@ == self@.fills,
    {
        &self.fills
    }

    /// Puts quotes behind those that are still to come.
    pub fn queue_quotes(&mut self, quotes: Vec<Quote>)
        ensures
            final(self)@ == (MockView { queue: old(self)@.queue + quotes@, ..old(self)@ }),
    {
        let mut more = quotes;
        self.quote_queue.append(&mut more);
    }

    /// Whether quotes are still to come.
    pub fn has_queued_quotes(&self) -> (r: bool)
        ensures
            r == (self@.queue.len() > 0),
    {
        self.quote_queue.len() > 0
    }

    fn execute_immediate_fill(&mut self, order: &OrderInput, oid: u64) -> (r: bool)
        ensures
            match old(self)@.paid(*order) {
                Some(balances) => {
                    &&& r
                    &&& final(self)@.fills.len() == old(self)@.fills.len() + 1
                    &&& final(self)@.fills.drop_last() == old(self)@.fills
                    &&& mock_fill(final(self)@.fills.last(), *order, oid, old(self)@.time)
                    &&& final(self)@ == (MockView {
                        balances,
                        fills: final(self)@.fills,
                        ..old(self)@
                    })
                },
                None => !r && final(self)@ == old(self)@,
            },
    {
        let notional = match order.price.0.checked_mul(order.qty.0) {
            Some(n) => n,
            None => {
                return false;
            },
        };
        match swap_amounts(
            &self.balances,
            &order.instrument,
            order.side,
            notional,
            order.qty.0,
        ) {
            Some((usdc, base)) => {
                self.balances.insert("USDC".to_owned(), usdc);
                self.balances.insert(
                    text_before_last(order.instrument.as_str(), '-').to_owned(),
                    base,
                );
            },
            None => {
                return false;
            },
        }
        let number = number_text(oid as u128);
        let fill = Fill {
            trade_id: TradeId(join2("mock_", number.as_str())),
            client_id: Some(order.client_id.clone()),
            exchange_order_id: Some(ExchangeOrderId(number)),
            instrument: order.instrument.clone(),
            side: order.side,
            price: order.price,
            qty: order.qty,
            fee: Fee::new(Decimal::zero(), AssetId::new("USDC")),
            ts: self.time_ms,
        };
        self.fills.push(fill);
        assert(self@.fills.drop_last() =~= old(self)@.fills);
        true
    }

    /// Takes an order. Changes nothing and gives `None` where a step is too large.
    pub fn place_order(&mut self, order: &OrderInput) -> (r: Option<PlaceOrderResult>)
        ensures
            match r {
                Some(reply) => old(self)@.take_fits(*order) && old(self)@.took(
                    final(self)@,
                    *order,
                    reply,
                ),
                None => !old(self)@.take_fits(*order) && final(self)@ == old(self)@,
            },
    {
        let ioc = order.tif == TimeInForce::Ioc;
        let at_once = match self.knobs.order_fail_mode {
            OrderFailMode::AlwaysSucceed => ioc || self.knobs.fill_all_immediately,
            OrderFailMode::FailOnInsufficientBalance => {
                match check_funds(
                    &self.balances,
                    &order.instrument,
                    order.side,
                    order.price.0,
                    order.qty.0,
                ) {
                    None => {
                        return None;
                    },
                    Some(Err(reason)) => {
                        return Some(PlaceOrderResult::Rejected { reason });
                    },
                    Some(Ok(_)) => {},
                }
                ioc
            },
            OrderFailMode::IocAlwaysReject => {
                if ioc {
                    return Some(
                        PlaceOrderResult::Rejected {
                            reason: "IOC order rejected: no immediate liquidity".to_owned(),
                        },
                    );
                }
                false
            },
        };
        let oid: u64 = self.next_oid;
        if oid == u64::MAX {
            return None;
        }
        if at_once {
            if !self.execute_immediate_fill(order, oid) {
                return None;
            }
        }
        self.next_oid = oid + 1;
        let (filled_qty, avg_fill_px) = if at_once {
            (Some(order.qty), Some(order.price))
        } else {
            (None, None)
        };
        Some(
            PlaceOrderResult::Accepted {
                exchange_order_id: Some(ExchangeOrderId(number_text(oid as u128))),
                filled_qty,
                avg_fill_px,
            },
        )
    }

    /// Sends orders. A request that was set to fail fails and leaves no trace; otherwise the
    /// orders are noted, and taken one after the other unless the exchange takes none.
    pub fn place_orders(&mut self, orders: &Vec<OrderInput>) -> (r: MockReply)
        ensures
            old(self)@.answered(final(self)@, orders@, r),
    {
        if self.outcomes.len() > 0 {
            let next = self.outcomes.remove(0);
            assert(self@.outcomes =~= old(self)@.outcomes.drop_first());
            if let Some(e) = next {
                return MockReply::Failed(e);
            }
        }
        let mut i: usize = 0;
        while i < orders.len()
            invariant
                i <= orders@.len(),
                self@.instance == old(self)@.instance,
                self@ == (MockView {
                    placed: old(self)@.placed + orders@.subrange(0, i as int),
                    ..old(self)@.sent(orders@)
                }),
            decreases orders@.len() - i,
        {
            self.placed_orders.push(orders[i].clone());
            assert(old(self)@.placed + orders@.subrange(0, i + 1) =~= (old(self)@.placed
                + orders@.subrange(0, i as int)).push(orders@[i as int]));
            i = i + 1;
        }
        assert(orders@.subrange(0, orders@.len() as int) =~= orders@);
        assert(self@ == old(self)@.sent(orders@));
        if self.knobs.exchange_health != ExchangeHealth::Active {
            return MockReply::Failed(ExchangeError::Unavailable);
        }
        if self.knobs.should_timeout {
            return MockReply::Failed(ExchangeError::Network("Timeout".to_owned()));
        }
        if self.knobs.should_rate_limit {
            return MockReply::Failed(ExchangeError::RateLimited);
        }
        let mut replies: Vec<PlaceOrderResult> = Vec::new();
        let ghost base = self@;
        let ghost mut states: Seq<MockView> = seq![self@];
        let mut j: usize = 0;
        while j < orders.len()
            invariant
                j <= orders@.len(),
                self@.instance == old(self)@.instance,
                base == old(self)@.sent(orders@),
                old(self)@.set_to_fail() is None,
                old(self)@.knobs.outage() is None,
                replies@.len() == j,
                all_taken(base, self@, states, orders@, replies@),
            decreases orders@.len() - j,
        {
            let ghost (s0, r0) = (states, replies@);
            match self.place_order(&orders[j]) {
                Some(reply) => {
                    replies.push(reply);
                    proof {
                        states = states.push(self@);
                        assert forall|k: int| 0 <= k < replies@.len() implies states[k].took(
                            states[k + 1],
                            orders@[k],
                            #[trigger] replies@[k],
                        ) && states[k].take_fits(orders@[k]) by {
                            if k < r0.len() {
                                assert(replies@[k] == r0[k]);
                                assert(states[k] == s0[k]);
                                assert(states[k + 1] == s0[k + 1]);
                            }
                        }
                    }
                },
                None => {
                    let out = MockReply::TooLarge(replies);
                    assert(out.replies() == replies@);
                    return out;
                },
            }
            j = j + 1;
        }
        let out = MockReply::Replies(replies);
        assert(out.replies() == replies@);
        out
    }

    /// All fills so far, each time.
    pub fn poll_user_fills(&self) -> (r: Vec<Fill>)
        ensures
            r@ == self@.fills,
    {
        let mut out: Vec<Fill> = Vec::new();
        let mut i: usize = 0;
        while i < self.fills.len()
            invariant
                i <= self.fills@.len(),
                out@ == self.fills@.subrange(0, i as int),
            decreases self.fills@.len() - i,
        {
            out.push(self.fills[i].clone());
            assert(out@ =~= self.fills@.subrange(0, i + 1));
            i = i + 1;
        }
        assert(self.fills@.subrange(0, self.fills@.len() as int) =~= self.fills@);
        out
    }

    /// The next quote of the queue, or else quotes around the middle prices; `None` where a
    /// step is too large.
    pub fn poll_quotes(&mut self, instruments: &Vec<InstrumentId>) -> (r: Option<Vec<Quote>>)
        ensures
            ({
                let v = old(self)@;
                if v.queue.len() > 0 {
                    &&& r matches Some(q) && q@ == seq![v.queue[0]]
                    &&& final(self)@ == (MockView {
                        time: v.queue[0].ts,
                        queue: v.queue.drop_first(),
                        ..v
                    })
                } else {
                    &&& final(self)@ == v
                    &&& match v.quotes_for(instruments@) {
                        Some(s) => r matches Some(q) && q@ == s,
                        None => r is None,
                    }
                }
            }),
    {
        if self.quote_queue.len() > 0 {
            let q = self.quote_queue.remove(0);
            self.time_ms = q.ts;
            let mut quotes: Vec<Quote> = Vec::new();
            quotes.push(q);
            assert(self@.queue =~= old(self)@.queue.drop_first());
            assert(quotes@ =~= seq![old(self)@.queue[0]]);
            return Some(quotes);
        }
        let spread = Decimal::new(5, 4);
        let low = difference(Some(Decimal::one()), Some(spread));
        let high = sum(Some(Decimal::one()), Some(spread));
        let mut quotes: Vec<Quote> = Vec::new();
        let mut failed = false;
        let mut i: usize = 0;
        assert(instruments@.subrange(0, 0) =~= Seq::empty());
        while i < instruments.len()
            invariant
                i <= instruments@.len(),
                self@ == old(self)@,
                self@.instance == old(self)@.instance,
                low == decimal::minus(Some(decimal::one()), Some(Decimal::lit(5, 4))),
                high == decimal::plus(Some(decimal::one()), Some(Decimal::lit(5, 4))),
                failed ==> self@.quotes_for(instruments@.subrange(0, i as int)) is None,
                !failed ==> self@.quotes_for(instruments@.subrange(0, i as int)) == Some(quotes@),
            decreases instruments@.len() - i,
        {
            assert(instruments@.subrange(0, i + 1).drop_last() =~= instruments@.subrange(
                0,
                i as int,
            ));
            let instrument = &instruments[i];
            if let Some(mid) = self.current_mids.get(text_before_last(instrument.as_str(), '-')) {
                match (product(Some(*mid), low), product(Some(*mid), high)) {
                    (Some(bid), Some(ask)) => {
                        quotes.push(
                            Quote {
                                instrument: instrument.clone(),
                                bid: Price(bid),
                                ask: Price(ask),
                                bid_size: Qty(Decimal::new(100, 0)),
                                ask_size: Qty(Decimal::new(100, 0)),
                                ts: self.time_ms,
                            },
                        );
                    },
                    _ => {
                        failed = true;
                    },
                }
            }
            i = i + 1;
        }
        assert(instruments@.subrange(0, instruments@.len() as int) =~= instruments@);
        if failed {
            None
        } else {
            Some(quotes)
        }
    }

    /// An account that holds nothing.
    pub fn poll_account_state(&self) -> (r: AccountState)
        ensures
            r.positions@.len() == 0,
            r.account_value == Some(decimal::zero()),
            r.unrealized_pnl == Some(decimal::zero()),
    {
        AccountState {
            positions: Vec::new(),
            account_value: Some(Decimal::zero()),
            unrealized_pnl: Some(Decimal::zero()),
        }
    }
}

impl Default for MockExchange {
    fn default() -> (r: MockExchange)
        ensures
            r@ == (MockView {
                instance: r@.instance,
                balances: Map::<Seq<char>, Decimal>::empty().insert(
                    "USDC"@,
                    Decimal::lit(100000, 0),
                ).insert("ETH"@, Decimal::lit(10, 0)),
                mids: Map::empty(),
                next_oid: 1000,
                fills: Seq::empty(),
                placed: Seq::empty(),
                knobs: MockKnobs::usual(),
                time: 0,
                queue: Seq::empty(),
                outcomes: Seq::empty(),
            }),
            r@.instance.exchange_id@ == "hyperliquid"@,
            r@.instance.environment is Testnet,
    {
        MockExchange::new()
    }
}

/// A request that is set to fail places no order and changes no balance.
///
/// The error is the one that was set, and it is used up.
pub proof fn law_failed_request_leaves_no_trace(
    v: MockView,
    after: MockView,
    orders: Seq<OrderInput>,
    reply: MockReply,
)
    requires
        v.answered(after, orders, reply),
        v.set_to_fail() is Some,
    ensures
        reply == MockReply::Failed(v.set_to_fail()->0),
        after.placed == v.placed,
        after.balances == v.balances,
        after.fills == v.fills,
        after.next_oid == v.next_oid,
        after.outcomes == v.outcomes.drop_first(),
{
}

} // verus!
