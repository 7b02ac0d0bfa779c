//! Simulated fills: orders wait until a quote reaches their price.
use vstd::prelude::*;
use vstd::string::*;
use crate::text;
use crate::strmap;
use crate::decimal;
use crate::decimal::{Decimal, known_valid, sum, difference, product};
use crate::exchange::Fill;
use crate::strmap::StrMap;
use crate::text::{join2, join3, number_text, text_before_last, ends_with_text, same_text};
use crate::types::{AssetId, ClientOrderId, ExchangeOrderId, Fee, InstrumentId, OrderSide, Price, Qty, Quote, TradeId};

verus! {

/// An order that waits to be filled.
#[derive(Debug)]
pub struct PendingOrder {
    pub client_id: ClientOrderId,
    pub exchange_order_id: ExchangeOrderId,
    pub instrument: InstrumentId,
    pub side: OrderSide,
    pub price: Price,
    pub qty: Qty,
    pub remaining_qty: Qty,
    pub created_at: i64,
}

impl Clone for PendingOrder {
    fn clone(&self) -> (r: PendingOrder)
        ensures
            r == *self,
    {
        PendingOrder {
            client_id: self.client_id.clone(),
            exchange_order_id: self.exchange_order_id.clone(),
            instrument: self.instrument.clone(),
            side: self.side,
            price: self.price,
            qty: self.qty,
            remaining_qty: self.remaining_qty,
            created_at: self.created_at,
        }
    }
}

/// A simulated fill.
#[derive(Debug)]
pub struct SimulatedFill {
    pub fill: Fill,
    pub order_fully_filled: bool,
}

/// A price on one side comes before another: the higher bid, or the lower ask.
pub open spec fn ahead(side: OrderSide, x: Decimal, y: Decimal) -> bool {
    match side {
        OrderSide::Buy => decimal::lt(y, x),
        OrderSide::Sell => decimal::lt(x, y),
    }
}

/// An order of one side at `price` is filled at the quote price `px`: a bid is not below the
/// ask, an ask not above the bid.
pub open spec fn reached(side: OrderSide, price: Decimal, px: Decimal) -> bool {
    match side {
        OrderSide::Buy => decimal::le(px, price),
        OrderSide::Sell => decimal::le(price, px),
    }
}

/// No order stands behind one whose price it is ahead of.
pub open spec fn sorted(side: OrderSide, s: Seq<PendingOrder>) -> bool {
    forall|i: int, j: int|
        0 <= i < j < s.len() ==> !ahead(side, #[trigger] s[j].price.0, #[trigger] s[i].price.0)
}

/// Every price is a number.
pub open spec fn priced(s: Seq<PendingOrder>) -> bool {
    forall|i: int| 0 <= i < s.len() ==> #[trigger] s[i].price.0@.valid()
}

/// The place of a new order from `i` on: before the first that is not ahead of it.
pub open spec fn place_from(side: OrderSide, s: Seq<PendingOrder>, price: Decimal, i: int) -> int
    decreases s.len() - i,
{
    if i >= s.len() || !ahead(side, s[i].price.0, price) {
        i
    } else {
        place_from(side, s, price, i + 1)
    }
}

/// The queue with a new order in its place.
pub open spec fn queued(side: OrderSide, s: Seq<PendingOrder>, order: PendingOrder) -> Seq<
    PendingOrder,
> {
    s.insert(place_from(side, s, order.price.0, 0), order)
}

/// How many orders from `i` on are filled at a quote price, one after the other.
pub open spec fn reached_from(side: OrderSide, s: Seq<PendingOrder>, px: Decimal, i: int) -> int
    decreases s.len() - i,
{
    if i >= s.len() || !reached(side, s[i].price.0, px) {
        i
    } else {
        reached_from(side, s, px, i + 1)
    }
}

/// The place of the order with a client id from `i` on, or the length.
pub open spec fn client_index(s: Seq<PendingOrder>, id: Seq<char>, i: int) -> int
    decreases s.len() - i,
{
    if i >= s.len() || s[i].client_id@ == id {
        i
    } else {
        client_index(s, id, i + 1)
    }
}

pub proof fn lemma_place(side: OrderSide, s: Seq<PendingOrder>, price: Decimal, i: int)
    requires
        0 <= i <= s.len(),
    ensures
        i <= place_from(side, s, price, i) <= s.len(),
        forall|k: int|
            i <= k < place_from(side, s, price, i) ==> ahead(side, #[trigger] s[k].price.0, price),
        place_from(side, s, price, i) < s.len() ==> !ahead(
            side,
            s[place_from(side, s, price, i)].price.0,
            price,
        ),
    decreases s.len() - i,
{
    if i < s.len() && ahead(side, s[i].price.0, price) {
        lemma_place(side, s, price, i + 1);
    }
}

pub proof fn lemma_reached(side: OrderSide, s: Seq<PendingOrder>, px: Decimal, i: int)
    requires
        0 <= i <= s.len(),
    ensures
        i <= reached_from(side, s, px, i) <= s.len(),
        forall|k: int|
            i <= k < reached_from(side, s, px, i) ==> reached(side, #[trigger] s[k].price.0, px),
        reached_from(side, s, px, i) < s.len() ==> !reached(
            side,
            s[reached_from(side, s, px, i)].price.0,
            px,
        ),
    decreases s.len() - i,
{
    if i < s.len() && reached(side, s[i].price.0, px) {
        lemma_reached(side, s, px, i + 1);
    }
}

pub proof fn lemma_queued_sorted(side: OrderSide, s: Seq<PendingOrder>, order: PendingOrder)
    requires
        sorted(side, s),
        priced(s),
        order.price.0@.valid(),
    ensures
        sorted(side, queued(side, s, order)),
        priced(queued(side, s, order)),
{
    let at = place_from(side, s, order.price.0, 0);
    lemma_place(side, s, order.price.0, 0);
    let t = queued(side, s, order);
    assert forall|i: int, j: int| 0 <= i < j < t.len() implies !ahead(
        side,
        #[trigger] t[j].price.0,
        #[trigger] t[i].price.0,
    ) by {
        let x = t[i].price.0;
        let y = t[j].price.0;
        if i < at && j == at {
            assert(ahead(side, s[i].price.0, order.price.0));
            lemma_ahead_asymmetric(side, x, y);
        } else if i == at && j > at {
            // order is not behind the first of the rest, which is not behind the others
            let first = s[at].price.0;
            if j - 1 == at {
            } else {
                assert(!ahead(side, s[j - 1].price.0, s[at].price.0));
                match side {
                    OrderSide::Buy => {
                        decimal::law_order_transitive(y, first, x);
                    },
                    OrderSide::Sell => {
                        decimal::law_order_transitive(x, first, y);
                    },
                }
            }
        } else {
            let a = if i < at {
                i
            } else {
                i - 1
            };
            let b = if j < at {
                j
            } else {
                j - 1
            };
            assert(!ahead(side, s[b].price.0, s[a].price.0));
        }
    }
}

proof fn lemma_ahead_asymmetric(side: OrderSide, x: Decimal, y: Decimal)
    requires
        ahead(side, x, y),
        x@.valid(),
        y@.valid(),
    ensures
        !ahead(side, y, x),
{
    decimal::law_order_by_units(x, y);
    decimal::law_order_by_units(y, x);
}

/// Where the queue is sorted, the orders that are filled at a quote price are exactly those
/// whose price it reaches, and not only the first of them.
pub proof fn law_reached_orders_are_in_front(side: OrderSide, s: Seq<PendingOrder>, px: Decimal)
    requires
        sorted(side, s),
        priced(s),
        px@.valid(),
    ensures
        forall|k: int|
            0 <= k < s.len() ==> (reached(side, #[trigger] s[k].price.0, px) <==> k < reached_from(
                side,
                s,
                px,
                0,
            )),
{
    let n = reached_from(side, s, px, 0);
    lemma_reached(side, s, px, 0);
    assert forall|k: int| n <= k < s.len() implies !reached(side, #[trigger] s[k].price.0, px) by {
        if k > n {
            let (x, y) = (s[n].price.0, s[k].price.0);
            assert(!ahead(side, y, x));
            decimal::law_order_by_units(x, y);
            decimal::law_order_by_units(y, x);
            decimal::law_order_by_units(x, px);
            decimal::law_order_by_units(px, x);
            decimal::law_order_by_units(y, px);
            decimal::law_order_by_units(px, y);
        }
    }
}

/// The waiting orders of one instrument on one side, the best price first.
#[derive(Debug)]
pub struct OrderQueue {
    side: OrderSide,
    orders: Vec<PendingOrder>,
}

impl OrderQueue {
    #[verifier::type_invariant]
    spec fn well_formed(self) -> bool {
        sorted(self.side, self.orders@) && priced(self.orders@)
    }

    /// The orders, the best price first.
    pub closed spec fn view(&self) -> Seq<PendingOrder> {
        self.orders@
    }

    /// The side of the orders.
    pub closed spec fn on(&self) -> OrderSide {
        self.side
    }

    /// An empty queue.
    pub fn new(side: OrderSide) -> (r: OrderQueue)
        ensures
            r@ == Seq::<PendingOrder>::empty(),
            r.on() == side,
    {
        OrderQueue { side, orders: Vec::new() }
    }

    /// How many orders wait.
    pub fn len(&self) -> (r: usize)
        ensures
            r == self@.len(),
            sorted(self.on(), self@),
            priced(self@),
    {
        proof {
            use_type_invariant(self);
        }
        self.orders.len()
    }

    /// The order at a place.
    pub fn at(&self, i: usize) -> (r: &PendingOrder)
        requires
            i < self@.len(),
        ensures
            *r == self@[i as int],
    {
        &self.orders[i]
    }

    /// Puts an order in its place: behind those whose price is ahead of it, and before those
    /// with the same price.
    pub fn insert(&mut self, order: PendingOrder)
        ensures
            final(self)@ == queued(old(self).on(), old(self)@, order),
            final(self).on() == old(self).on(),
            sorted(final(self).on(), final(self)@),
    {
        known_valid(&order.price.0);
        proof {
            use_type_invariant(&*self);
            lemma_queued_sorted(self.side, self.orders@, order);
            lemma_place(self.side, self.orders@, order.price.0, 0);
        }
        let mut orders: Vec<PendingOrder> = Vec::new();
        std::mem::swap(&mut orders, &mut self.orders);
        let side = self.side;
        let mut i: usize = 0;
        while i < orders.len() && OrderQueue::is_ahead(side, orders[i].price.0, order.price.0)
            invariant
                i <= orders@.len(),
                place_from(side, orders@, order.price.0, 0) == place_from(
                    side,
                    orders@,
                    order.price.0,
                    i as int,
                ),
            decreases orders@.len() - i,
        {
            i = i + 1;
        }
        orders.insert(i, order);
        self.orders = orders;
    }

    fn is_ahead(side: OrderSide, x: Decimal, y: Decimal) -> (r: bool)
        ensures
            r == ahead(side, x, y),
    {
        match side {
            OrderSide::Buy => y.below(x),
            OrderSide::Sell => x.below(y),
        }
    }

    fn is_reached(side: OrderSide, price: Decimal, px: Decimal) -> (r: bool)
        ensures
            r == reached(side, price, px),
    {
        match side {
            OrderSide::Buy => px.at_most(price),
            OrderSide::Sell => price.at_most(px),
        }
    }

    /// How many orders are filled at a quote price.
    pub fn count_reached(&self, px: Decimal) -> (r: usize)
        ensures
            r == reached_from(self.on(), self@, px, 0),
            r <= self@.len(),
    {
        let mut i: usize = 0;
        while i < self.orders.len() && OrderQueue::is_reached(
            self.side,
            self.orders[i].price.0,
            px,
        )
            invariant
                i <= self.orders@.len(),
                reached_from(self.side, self.orders@, px, 0) == reached_from(
                    self.side,
                    self.orders@,
                    px,
                    i as int,
                ),
            decreases self.orders@.len() - i,
        {
            i = i + 1;
        }
        i
    }

    /// Takes the first `n` orders out.
    pub fn drop_first(&mut self, n: usize)
        requires
            n <= old(self)@.len(),
        ensures
            final(self)@ == old(self)@.subrange(n as int, old(self)@.len() as int),
            final(self).on() == old(self).on(),
    {
        proof {
            use_type_invariant(&*self);
        }
        let mut orders: Vec<PendingOrder> = Vec::new();
        std::mem::swap(&mut orders, &mut self.orders);
        let rest = orders.split_off(n);
        proof {
            assert forall|i: int, j: int| 0 <= i < j < rest@.len() implies !ahead(
                self.side,
                #[trigger] rest@[j].price.0,
                #[trigger] rest@[i].price.0,
            ) by {
                assert(rest@[i] == old(self).orders@[i + n]);
                assert(rest@[j] == old(self).orders@[j + n]);
            }
            assert forall|i: int| 0 <= i < rest@.len() implies #[trigger] rest@[i].price.0@.valid() by {
                assert(rest@[i] == old(self).orders@[i + n]);
            }
        }
        self.orders = rest;
    }

    /// Takes out the first order with a client id.
    pub fn remove_client(&mut self, client_id: &ClientOrderId) -> (r: Option<PendingOrder>)
        ensures
            ({
                let at = client_index(old(self)@, client_id@, 0);
                if at < old(self)@.len() {
                    &&& r == Some(old(self)@[at])
                    &&& final(self)@ == old(self)@.remove(at)
                    &&& old(self)@[at].client_id@ == client_id@
                } else {
                    &&& r is None
                    &&& final(self)@ == old(self)@
                    &&& forall|k: int|
                        0 <= k < old(self)@.len() ==> #[trigger] old(self)@[k].client_id@
                            != client_id@
                }
            }),
            final(self).on() == old(self).on(),
    {
        proof {
            use_type_invariant(&*self);
        }
        let mut i: usize = 0;
        while i < self.orders.len()
            invariant
                *self == *old(self),
                i <= self.orders@.len(),
                client_index(self.orders@, client_id@, 0) == client_index(
                    self.orders@,
                    client_id@,
                    i as int,
                ),
                forall|k: int| 0 <= k < i ==> #[trigger] self.orders@[k].client_id@ != client_id@,
                sorted(self.side, self.orders@),
                priced(self.orders@),
            decreases self.orders@.len() - i,
        {
            if self.orders[i].client_id.same(client_id) {
                let mut orders: Vec<PendingOrder> = Vec::new();
                std::mem::swap(&mut orders, &mut self.orders);
                let ghost before = orders@;
                let order = orders.remove(i);
                proof {
                    assert forall|a: int, b: int| 0 <= a < b < orders@.len() implies !ahead(
                        self.side,
                        #[trigger] orders@[b].price.0,
                        #[trigger] orders@[a].price.0,
                    ) by {
                        let a1 = if a < i {
                            a
                        } else {
                            a + 1
                        };
                        let b1 = if b < i {
                            b
                        } else {
                            b + 1
                        };
                        assert(orders@[a] == before[a1]);
                        assert(orders@[b] == before[b1]);
                    }
                    assert forall|a: int|
                        0 <= a < orders@.len() implies #[trigger] orders@[a].price.0@.valid() by {
                        let a1 = if a < i {
                            a
                        } else {
                            a + 1
                        };
                        assert(orders@[a] == before[a1]);
                    }
                }
                self.orders = orders;
                return Some(order);
            }
            i = i + 1;
        }
        None
    }

    /// Whether an order with a client id waits.
    pub fn has_client(&self, client_id: &ClientOrderId) -> (r: bool)
        ensures
            r == (client_index(self@, client_id@, 0) < self@.len()),
            !r ==> forall|k: int|
                0 <= k < self@.len() ==> #[trigger] self@[k].client_id@ != client_id@,
    {
        let mut i: usize = 0;
        while i < self.orders.len()
            invariant
                i <= self.orders@.len(),
                client_index(self.orders@, client_id@, 0) == client_index(
                    self.orders@,
                    client_id@,
                    i as int,
                ),
                forall|k: int| 0 <= k < i ==> #[trigger] self.orders@[k].client_id@ != client_id@,
            decreases self.orders@.len() - i,
        {
            if self.orders[i].client_id.same(client_id) {
                return true;
            }
            i = i + 1;
        }
        false
    }

    /// Hands out all orders.
    pub fn into_orders(self) -> (r: Vec<PendingOrder>)
        ensures
            r@ == self@,
    {
        self.orders
    }
}

/// The asset that an instrument's name begins with.
pub open spec fn base_of(instrument: Seq<char>) -> Seq<char> {
    text::before_last(instrument, '-')
}

/// The fee of a fill: nothing without a rate, a share of the quantity for a spot purchase,
/// and a share of the notional otherwise.
pub open spec fn fee_amount(
    rate: Decimal,
    instrument: Seq<char>,
    side: OrderSide,
    qty: Decimal,
    price: Decimal,
) -> Option<Decimal> {
    if rate.m() == 0 {
        Some(decimal::zero())
    } else if text::finishes_with(instrument, "-SPOT"@) && side is Buy {
        decimal::times(Some(qty), Some(rate))
    } else {
        decimal::times(decimal::times(Some(qty), Some(price)), Some(rate))
    }
}

/// The asset of the fee of a fill: the base asset for a spot purchase, and the common
/// currency otherwise.
pub open spec fn fee_asset(rate: Decimal, instrument: Seq<char>, side: OrderSide) -> Seq<char> {
    if rate.m() != 0 && text::finishes_with(instrument, "-SPOT"@) && side is Buy {
        base_of(instrument)
    } else {
        "USDC"@
    }
}

/// A fee is always in the common currency, except for a spot purchase.
pub proof fn law_fees_in_common_currency(rate: Decimal, instrument: Seq<char>, side: OrderSide)
    requires
        !text::finishes_with(instrument, "-SPOT"@) || side is Sell,
    ensures
        fee_asset(rate, instrument, side) == "USDC"@,
{
}

/// The fee is the one of such a fill.
pub open spec fn is_fee(
    fee: Fee,
    rate: Decimal,
    instrument: Seq<char>,
    side: OrderSide,
    qty: Decimal,
    price: Decimal,
) -> bool {
    &&& Some(fee.amount) == fee_amount(rate, instrument, side, qty, price)
    &&& fee.asset@ == fee_asset(rate, instrument, side)
}

/// The fee of a fill, where no step is too large.
pub fn calculate_fee(
    fee_rate: Decimal,
    instrument: &InstrumentId,
    side: OrderSide,
    qty: Qty,
    price: Price,
) -> (r: Option<Fee>)
    ensures
        r is Some <==> fee_amount(fee_rate, instrument@, side, qty.0, price.0) is Some,
        r matches Some(fee) ==> is_fee(fee, fee_rate, instrument@, side, qty.0, price.0),
{
    if fee_rate.is_zero() {
        return Some(Fee::new(Decimal::zero(), AssetId::new("USDC")));
    }
    let spot = ends_with_text(instrument.as_str(), "-SPOT");
    let buys = match side {
        OrderSide::Buy => true,
        OrderSide::Sell => false,
    };
    if spot && buys {
        match qty.0.checked_mul(fee_rate) {
            Some(amount) => Some(
                Fee::new(amount, AssetId::new(text_before_last(instrument.as_str(), '-'))),
            ),
            None => None,
        }
    } else {
        match product(product(Some(qty.0), Some(price.0)), Some(fee_rate)) {
            Some(amount) => Some(Fee::new(amount, AssetId::new("USDC"))),
            None => None,
        }
    }
}

/// The fill is the one of an order at a quote price.
pub open spec fn is_fill(
    fill: Fill,
    order: PendingOrder,
    px: Price,
    rate: Decimal,
    now: i64,
) -> bool {
    &&& fill.trade_id@ == "sim_"@ + order.exchange_order_id@
    &&& fill.client_id == Some(order.client_id)
    &&& fill.exchange_order_id == Some(order.exchange_order_id)
    &&& fill.instrument == order.instrument
    &&& fill.side == order.side
    &&& fill.price == px
    &&& fill.qty == order.remaining_qty
    &&& is_fee(fill.fee, rate, order.instrument@, order.side, order.remaining_qty.0, px.0)
    &&& fill.ts == now
}

/// Balances by asset.
pub type Balances = Map<Seq<char>, Decimal>;

/// The balance of an asset, or zero.
pub open spec fn held(b: Balances, asset: Seq<char>) -> Decimal {
    if b.contains_key(asset) {
        b[asset]
    } else {
        decimal::zero()
    }
}

/// The balances with `amount` more of an asset.
pub open spec fn gained(b: Option<Balances>, asset: Seq<char>, amount: Option<Decimal>) -> Option<
    Balances,
> {
    match b {
        Some(b) => match decimal::plus(Some(held(b, asset)), amount) {
            Some(x) => Some(b.insert(asset, x)),
            None => None,
        },
        None => None,
    }
}

/// The balances with `amount` less of an asset.
pub open spec fn lost(b: Option<Balances>, asset: Seq<char>, amount: Option<Decimal>) -> Option<
    Balances,
> {
    match b {
        Some(b) => match decimal::minus(Some(held(b, asset)), amount) {
            Some(x) => Some(b.insert(asset, x)),
            None => None,
        },
        None => None,
    }
}

/// The balances after a fill. A perpetual leaves them as they are. A purchase takes the
/// notional and adds the quantity, a sale the other way round; the fee is taken in its
/// asset.
pub open spec fn booked(b: Balances, fill: Fill) -> Option<Balances> {
    let base = base_of(fill.instrument@);
    let usdc = "USDC"@;
    let notional = decimal::times(Some(fill.price.0), Some(fill.qty.0));
    if text::finishes_with(fill.instrument@, "-PERP"@) {
        Some(b)
    } else {
        match fill.side {
            OrderSide::Buy => {
                let paid = lost(Some(b), usdc, notional);
                let received = if fill.fee.asset@ == base {
                    decimal::minus(Some(fill.qty.0), Some(fill.fee.amount))
                } else {
                    Some(fill.qty.0)
                };
                let both = gained(paid, base, received);
                if fill.fee.asset@ == usdc {
                    lost(both, usdc, Some(fill.fee.amount))
                } else {
                    both
                }
            },
            OrderSide::Sell => {
                let received = if fill.fee.asset@ == usdc {
                    decimal::minus(notional, Some(fill.fee.amount))
                } else {
                    notional
                };
                let both = lost(gained(Some(b), usdc, received), base, Some(fill.qty.0));
                if fill.fee.asset@ == base {
                    lost(both, base, Some(fill.fee.amount))
                } else {
                    both
                }
            },
        }
    }
}

/// The balances after the fills, one after the other.
pub open spec fn all_booked(b: Balances, fills: Seq<Fill>) -> Option<Balances>
    decreases fills.len(),
{
    if fills.len() == 0 {
        Some(b)
    } else {
        match all_booked(b, fills.drop_last()) {
            Some(c) => booked(c, fills.last()),
            None => None,
        }
    }
}

/// The waiting orders by instrument.
pub type Queues = Map<Seq<char>, Seq<PendingOrder>>;

/// What a simulator holds.
pub struct SimulatorView {
    pub buys: Queues,
    pub sells: Queues,
    pub next_oid: u64,
    pub balances: Balances,
    pub fee_rate: Decimal,
}

/// The orders of an instrument.
pub open spec fn queue(q: Queues, instrument: Seq<char>) -> Seq<PendingOrder> {
    if q.contains_key(instrument) {
        q[instrument]
    } else {
        Seq::empty()
    }
}

/// The orders of one side that a quote fills, each with its price.
pub open spec fn hits(side: OrderSide, s: Seq<PendingOrder>, px: Price) -> Seq<(PendingOrder, Price)> {
    Seq::new(reached_from(side, s, px.0, 0) as nat, |i: int| (s[i], px))
}

impl SimulatorView {
    /// The orders that the first `n` quotes fill: for each quote the bids at its ask, then
    /// the asks at its bid.
    pub open spec fn filled(self, quotes: Seq<(String, Quote)>, n: int) -> Seq<(PendingOrder, Price)>
        decreases n,
    {
        if n <= 0 {
            Seq::empty()
        } else {
            let k = quotes[n - 1].0@;
            let q = quotes[n - 1].1;
            self.filled(quotes, n - 1) + hits(OrderSide::Buy, queue(self.buys, k), q.ask) + hits(
                OrderSide::Sell,
                queue(self.sells, k),
                q.bid,
            )
        }
    }

    /// The orders of one side that are left after the quotes.
    pub open spec fn left(side: OrderSide, q: Queues, quotes: Map<Seq<char>, Quote>) -> Queues {
        Map::new(
            |k: Seq<char>| q.contains_key(k),
            |k: Seq<char>|
                if quotes.contains_key(k) {
                    let px = match side {
                        OrderSide::Buy => quotes[k].ask.0,
                        OrderSide::Sell => quotes[k].bid.0,
                    };
                    q[k].subrange(reached_from(side, q[k], px, 0), q[k].len() as int)
                } else {
                    q[k]
                },
        )
    }

    /// The simulator with one more order that waits.
    pub open spec fn with_order(self, order: PendingOrder) -> SimulatorView {
        match order.side {
            OrderSide::Buy => SimulatorView {
                buys: self.buys.insert(
                    order.instrument@,
                    queued(OrderSide::Buy, queue(self.buys, order.instrument@), order),
                ),
                ..self
            },
            OrderSide::Sell => SimulatorView {
                sells: self.sells.insert(
                    order.instrument@,
                    queued(OrderSide::Sell, queue(self.sells, order.instrument@), order),
                ),
                ..self
            },
        }
    }

    /// The fees of all fills are numbers.
    pub open spec fn fees_fit(self, quotes: Seq<(String, Quote)>) -> bool {
        forall|i: int|
            0 <= i < self.filled(quotes, quotes.len() as int).len() ==> {
                let hit = #[trigger] self.filled(quotes, quotes.len() as int)[i];
                fee_amount(
                    self.fee_rate,
                    hit.0.instrument@,
                    hit.0.side,
                    hit.0.remaining_qty.0,
                    hit.1.0,
                ) is Some
            }
    }

    /// The fills are those of the orders that the quotes reach, in their order.
    pub open spec fn are_fills(self, fills: Seq<Fill>, hit: Seq<(PendingOrder, Price)>, now: i64) -> bool {
        &&& fills.len() == hit.len()
        &&& forall|i: int|
            0 <= i < fills.len() ==> is_fill(
                #[trigger] fills[i],
                hit[i].0,
                hit[i].1,
                self.fee_rate,
                now,
            )
    }

    /// Why the balances do not cover an order, where they do not; nothing where a step is too
    /// large.
    pub open spec fn shortage(
        self,
        instrument: Seq<char>,
        side: OrderSide,
        price: Decimal,
        qty: Decimal,
    ) -> Option<Option<Seq<char>>> {
        shortage_of(self.balances, instrument, side, price, qty)
    }
}

/// Why balances do not cover an order, where they do not; nothing where a step is too large.
pub open spec fn shortage_of(
    b: Balances,
    instrument: Seq<char>,
    side: OrderSide,
    price: Decimal,
    qty: Decimal,
) -> Option<Option<Seq<char>>> {
    match side {
        OrderSide::Buy => match decimal::times(Some(price), Some(qty)) {
            None => None,
            Some(required) => {
                let available = held(b, "USDC"@);
                Some(
                    if decimal::lt(available, required) {
                        Some(
                            "Insufficient balance: need "@ + decimal::decimal_text(required@)
                                + " USDC, have "@ + decimal::decimal_text(available@),
                        )
                    } else {
                        None
                    },
                )
            },
        },
        OrderSide::Sell => {
            let base = base_of(instrument);
            let available = held(b, base);
            Some(
                if decimal::lt(available, qty) {
                    Some(
                        "Insufficient balance: need "@ + decimal::decimal_text(qty@) + " "@ + base
                            + ", have "@ + decimal::decimal_text(available@),
                    )
                } else {
                    None
                },
            )
        },
    }
}

/// Whether balances cover an order, or why not; nothing where a step is too large.
pub fn check_funds(
    balances: &StrMap<Decimal>,
    instrument: &InstrumentId,
    side: OrderSide,
    price: Decimal,
    qty: Decimal,
) -> (r: Option<Result<(), String>>)
    ensures
        match shortage_of(balances@, instrument@, side, price, qty) {
            None => r is None,
            Some(None) => r == Some(Ok::<(), String>(())),
            Some(Some(text)) => r matches Some(Err(e)) && e@ == text,
        },
{
    match side {
        OrderSide::Buy => {
            let available = match balances.get("USDC") {
                Some(x) => *x,
                None => Decimal::zero(),
            };
            match price.checked_mul(qty) {
                None => None,
                Some(required) => {
                    if available.below(required) {
                        Some(
                            Err(
                                join3(
                                    "Insufficient balance: need ",
                                    required.to_string().as_str(),
                                    " USDC, have ",
                                ).concat(available.to_string().as_str()),
                            ),
                        )
                    } else {
                        Some(Ok(()))
                    }
                },
            }
        },
        OrderSide::Sell => {
            let base = text_before_last(instrument.as_str(), '-');
            let available = match balances.get(base) {
                Some(x) => *x,
                None => Decimal::zero(),
            };
            if available.below(qty) {
                Some(
                    Err(
                        join3(
                            "Insufficient balance: need ",
                            qty.to_string().as_str(),
                            " ",
                        ).concat(base).concat(", have ").concat(
                            available.to_string().as_str(),
                        ),
                    ),
                )
            } else {
                Some(Ok(()))
            }
        },
    }
}

/// The balances after a spot fill without a fee.
pub open spec fn swapped(
    b: Balances,
    instrument: Seq<char>,
    side: OrderSide,
    notional: Option<Decimal>,
    qty: Decimal,
) -> Option<Balances> {
    match side {
        OrderSide::Buy => gained(lost(Some(b), "USDC"@, notional), base_of(instrument), Some(qty)),
        OrderSide::Sell => lost(gained(Some(b), "USDC"@, notional), base_of(instrument), Some(qty)),
    }
}

/// The amounts of the common currency and of the base asset after a spot fill without a fee,
/// where no step is too large.
pub fn swap_amounts(
    balances: &StrMap<Decimal>,
    instrument: &InstrumentId,
    side: OrderSide,
    notional: Decimal,
    qty: Decimal,
) -> (r: Option<(Decimal, Decimal)>)
    ensures
        match swapped(balances@, instrument@, side, Some(notional), qty) {
            Some(b) => r matches Some((usdc, base)) && b == balances@.insert("USDC"@, usdc).insert(
                base_of(instrument@),
                base,
            ),
            None => r is None,
        },
{
    let name = text_before_last(instrument.as_str(), '-');
    let usdc = match balances.get("USDC") {
        Some(x) => *x,
        None => Decimal::zero(),
    };
    let other = match balances.get(name) {
        Some(x) => *x,
        None => Decimal::zero(),
    };
    let is_usdc = same_text(name, "USDC");
    match side {
        OrderSide::Buy => match usdc.checked_sub(notional) {
            Some(u) => {
                let base = if is_usdc {
                    u
                } else {
                    other
                };
                match base.checked_add(qty) {
                    Some(b) => Some((u, b)),
                    None => None,
                }
            },
            None => None,
        },
        OrderSide::Sell => match usdc.checked_add(notional) {
            Some(u) => {
                let base = if is_usdc {
                    u
                } else {
                    other
                };
                match base.checked_sub(qty) {
                    Some(b) => Some((u, b)),
                    None => None,
                }
            },
            None => None,
        },
    }
}

/// The orders of each queue.
pub open spec fn queues(m: Map<Seq<char>, OrderQueue>) -> Queues {
    Map::new(|k: Seq<char>| m.contains_key(k), |k: Seq<char>| m[k]@)
}

/// Each queue holds orders of the side.
pub open spec fn all_on(m: Map<Seq<char>, OrderQueue>, side: OrderSide) -> bool {
    forall|k: Seq<char>| m.contains_key(k) ==> (#[trigger] m[k]).on() == side
}

/// The waiting orders of one side.
#[derive(Debug)]
pub struct SideBook {
    side: OrderSide,
    queues: StrMap<OrderQueue>,
}

/// The number of orders in the first `n` queues.
pub open spec fn waiting(s: Seq<(String, OrderQueue)>, n: int) -> int
    decreases n,
{
    if n <= 0 {
        0
    } else {
        waiting(s, n - 1) + s[n - 1].1@.len()
    }
}

/// The orders of the first `n` queues, one queue after the other.
pub open spec fn lined_up(s: Seq<(String, OrderQueue)>, n: int) -> Seq<PendingOrder>
    decreases n,
{
    if n <= 0 {
        Seq::empty()
    } else {
        lined_up(s, n - 1) + s[n - 1].1@
    }
}

/// How many orders wait in all queues.
pub open spec fn counted(q: Queues) -> nat
    decreases q.dom().len(),
{
    if !q.dom().finite() || q.dom().len() == 0 {
        0
    } else {
        let k = q.dom().choose();
        proof {
            assert(q.dom().contains(k));
            assert(q.remove(k).dom() =~= q.dom().remove(k));
        }
        q[k].len() + counted(q.remove(k))
    }
}

/// The orders of the first `n` instruments.
pub open spec fn lined(q: Queues, instruments: Seq<Seq<char>>, n: int) -> Seq<PendingOrder>
    decreases n,
{
    if n <= 0 {
        Seq::empty()
    } else {
        lined(q, instruments, n - 1) + q[instruments[n - 1]]
    }
}

/// Every instrument of the queues is named, each once.
pub open spec fn names_each(q: Queues, instruments: Seq<Seq<char>>) -> bool {
    &&& instruments.no_duplicates()
    &&& forall|k: Seq<char>| #[trigger] q.contains_key(k) <==> instruments.contains(k)
}

/// The orders of all queues, one queue after the other, in whatever order of the instruments.
pub open spec fn lists_all(q: Queues, orders: Seq<PendingOrder>) -> bool {
    exists|instruments: Seq<Seq<char>>| #[trigger]
        names_each(q, instruments) && orders == lined(q, instruments, instruments.len() as int)
}

/// The orders of any instrument can be counted by themselves.
pub proof fn lemma_counted(q: Queues, k: Seq<char>)
    requires
        q.dom().finite(),
        q.contains_key(k),
    ensures
        counted(q) == q[k].len() + counted(q.remove(k)),
    decreases q.dom().len(),
{
    let c = q.dom().choose();
    assert(q.dom().contains(k));
    assert(q.dom().len() > 0);
    assert(q.dom().contains(c));
    if c != k {
        let a = q.remove(c);
        let b = q.remove(k);
        assert(a.dom() =~= q.dom().remove(c));
        assert(b.dom() =~= q.dom().remove(k));
        lemma_counted(a, k);
        lemma_counted(b, c);
        assert(a.remove(k) =~= b.remove(c));
    }
}

/// Where every queue is empty, no order waits.
pub proof fn law_nothing_waits(q: Queues)
    requires
        forall|k: Seq<char>| q.contains_key(k) ==> (#[trigger] q[k]).len() == 0,
    ensures
        counted(q) == 0,
    decreases q.dom().len(),
{
    if q.dom().finite() && q.dom().len() > 0 {
        let k = q.dom().choose();
        assert(q.dom().contains(k));
        assert(q.contains_key(k));
        assert(q.remove(k).dom() =~= q.dom().remove(k));
        assert forall|j: Seq<char>| q.remove(k).contains_key(j) implies (#[trigger] q.remove(
            k,
        )[j]).len() == 0 by {
            assert(q.contains_key(j) && q.remove(k)[j] == q[j]);
        }
        law_nothing_waits(q.remove(k));
    }
}

/// An order that is put in its queue is one more that waits.
pub proof fn law_one_more_waits(q: Queues, side: OrderSide, order: PendingOrder)
    requires
        q.dom().finite(),
    ensures
        counted(
            q.insert(order.instrument@, queued(side, queue(q, order.instrument@), order)),
        ) == counted(q) + 1,
{
    let k = order.instrument@;
    let after = q.insert(k, queued(side, queue(q, k), order));
    assert(after.dom() =~= q.dom().insert(k));
    lemma_counted(after, k);
    assert(after.remove(k) =~= q.remove(k));
    lemma_place_in_range(side, queue(q, k), order.price.0, 0);
    if q.contains_key(k) {
        lemma_counted(q, k);
    } else {
        assert(q.remove(k) =~= q);
    }
}

pub proof fn lemma_place_in_range(side: OrderSide, s: Seq<PendingOrder>, px: Decimal, i: int)
    requires
        0 <= i <= s.len(),
    ensures
        i <= place_from(side, s, px, i) <= s.len(),
    decreases s.len() - i,
{
    if i < s.len() {
        lemma_place_in_range(side, s, px, i + 1);
    }
}

proof fn lemma_counted_list(s: Seq<(String, OrderQueue)>, n: int)
    requires
        strmap::distinct_keys(s),
        0 <= n <= s.len(),
    ensures
        counted(queues(strmap::map_of(s.subrange(0, n)))) == waiting(s, n),
        queues(strmap::map_of(s.subrange(0, n))).dom().finite(),
        lined_up(s, n).len() == waiting(s, n),
    decreases n,
{
    let head = s.subrange(0, n);
    assert(strmap::distinct_keys(head));
    strmap::lemma_map_of(head, ""@);
    let q = queues(strmap::map_of(head));
    assert(q.dom() =~= strmap::map_of(head).dom());
    if n == 0 {
        assert(q.dom() =~= Set::empty());
    } else {
        lemma_counted_list(s, n - 1);
        let k = s[n - 1].0@;
        let rest = s.subrange(0, n - 1);
        assert(head.drop_last() =~= rest);
        let r = queues(strmap::map_of(rest));
        strmap::lemma_new_key(s, n - 1);
        assert(strmap::distinct_keys(rest));
        strmap::lemma_map_of(rest, k);
        assert(q.remove(k) =~= r);
        lemma_counted(q, k);
    }
}

proof fn lemma_lists_all(s: Seq<(String, OrderQueue)>)
    requires
        strmap::distinct_keys(s),
    ensures
        lists_all(queues(strmap::map_of(s)), lined_up(s, s.len() as int)),
{
    let q = queues(strmap::map_of(s));
    let names = Seq::new(s.len(), |i: int| s[i].0@);
    assert forall|k: Seq<char>| #[trigger] q.contains_key(k) <==> names.contains(k) by {
        strmap::lemma_map_of(s, k);
        strmap::lemma_key_index(s, k);
        if names.contains(k) {
            let i = choose|i: int| 0 <= i < names.len() && names[i] == k;
            assert(s[i].0@ == k);
        } else if q.contains_key(k) {
            assert(names[strmap::key_index(s, k)] == k);
        }
    }
    assert(names.no_duplicates()) by {
        assert forall|i: int, j: int| 0 <= i < names.len() && 0 <= j < names.len() && i != j implies names[i]
            != names[j] by {
            if i < j {
                assert(s[i].0@ != s[j].0@);
            } else {
                assert(s[j].0@ != s[i].0@);
            }
        }
    }
    lemma_lined(s, names, s.len() as int);
    assert(names_each(q, names));
}

proof fn lemma_lined(s: Seq<(String, OrderQueue)>, names: Seq<Seq<char>>, n: int)
    requires
        strmap::distinct_keys(s),
        names == Seq::new(s.len(), |i: int| s[i].0@),
        0 <= n <= s.len(),
    ensures
        lined_up(s, n) == lined(queues(strmap::map_of(s)), names, n),
    decreases n,
{
    if n > 0 {
        lemma_lined(s, names, n - 1);
        let k = s[n - 1].0@;
        strmap::lemma_map_of(s, k);
        strmap::lemma_key_index(s, k);
        let i = strmap::key_index(s, k);
        if i < n - 1 {
            assert(s[i].0@ != s[n - 1].0@);
        } else if i > n - 1 {
            assert(s[n - 1].0@ != k);
        }
    }
}

proof fn lemma_waiting_grows(s: Seq<(String, OrderQueue)>, a: int, b: int)
    requires
        a <= b,
    ensures
        0 <= waiting(s, a) <= waiting(s, b),
    decreases b,
{
    if b > 0 {
        if a < b {
            lemma_waiting_grows(s, a, b - 1);
        } else {
            lemma_waiting_grows(s, a - 1, b - 1);
        }
    }
}

impl SideBook {
    #[verifier::type_invariant]
    spec fn well_formed(self) -> bool {
        all_on(self.queues@, self.side)
    }

    /// The orders by instrument.
    pub closed spec fn view(&self) -> Queues {
        queues(self.queues@)
    }

    /// The side.
    pub closed spec fn on(&self) -> OrderSide {
        self.side
    }

    /// The queues in the order in which they were last changed.
    pub closed spec fn list(&self) -> Seq<(String, OrderQueue)> {
        self.queues.list()
    }

    /// No orders.
    pub fn new(side: OrderSide) -> (r: SideBook)
        ensures
            r@ == Map::<Seq<char>, Seq<PendingOrder>>::empty(),
            r.on() == side,
    {
        let r = SideBook { side, queues: StrMap::new() };
        assert(r@ =~= Map::<Seq<char>, Seq<PendingOrder>>::empty());
        r
    }

    /// The orders of an instrument, if any ever waited.
    pub fn queue_of(&self, instrument: &str) -> (r: Option<&OrderQueue>)
        ensures
            match r {
                Some(q) => self@.contains_key(instrument@) && self@[instrument@] == q@ && q.on()
                    == self.on(),
                None => !self@.contains_key(instrument@),
            },
    {
        proof {
            use_type_invariant(self);
        }
        self.queues.get(instrument)
    }

    /// Lets an order wait.
    pub fn insert(&mut self, order: PendingOrder)
        ensures
            final(self)@ == old(self)@.insert(
                order.instrument@,
                queued(old(self).on(), queue(old(self)@, order.instrument@), order),
            ),
            final(self).on() == old(self).on(),
    {
        proof {
            use_type_invariant(&*self);
        }
        let mut all: StrMap<OrderQueue> = StrMap::new();
        std::mem::swap(&mut all, &mut self.queues);
        let ghost before = all@;
        let key = order.instrument.0.clone();
        let mut q = match all.remove(key.as_str()) {
            Some(q) => q,
            None => OrderQueue::new(self.side),
        };
        assert(q@ == queue(queues(before), key@));
        q.insert(order);
        let ghost changed = q;
        all.insert(key, q);
        assert(queues(all@) =~= queues(before).insert(key@, changed@));
        self.queues = all;
    }

    /// Takes out the orders of an instrument.
    pub fn take_instrument(&mut self, instrument: &str) -> (r: Vec<PendingOrder>)
        ensures
            r@ == queue(old(self)@, instrument@),
            final(self)@ == old(self)@.remove(instrument@),
            final(self).on() == old(self).on(),
    {
        proof {
            use_type_invariant(&*self);
        }
        let mut all: StrMap<OrderQueue> = StrMap::new();
        std::mem::swap(&mut all, &mut self.queues);
        let ghost before = all@;
        let out = match all.remove(instrument) {
            Some(q) => q.into_orders(),
            None => Vec::new(),
        };
        assert(queues(all@) =~= queues(before).remove(instrument@));
        self.queues = all;
        out
    }

    /// Takes out the orders of an instrument that are filled at a quote price.
    pub fn drop_reached(&mut self, instrument: &str, px: Decimal)
        ensures
            final(self).on() == old(self).on(),
            final(self)@ == (if old(self)@.contains_key(instrument@) {
                old(self)@.insert(
                    instrument@,
                    old(self)@[instrument@].subrange(
                        reached_from(old(self).on(), old(self)@[instrument@], px, 0),
                        old(self)@[instrument@].len() as int,
                    ),
                )
            } else {
                old(self)@
            }),
    {
        proof {
            use_type_invariant(&*self);
        }
        let mut all: StrMap<OrderQueue> = StrMap::new();
        std::mem::swap(&mut all, &mut self.queues);
        let ghost before = all@;
        match all.remove(instrument) {
            Some(q) => {
                let mut q = q;
                let n: usize = q.count_reached(px);
                q.drop_first(n);
                let ghost changed = q;
                all.insert(instrument.to_owned(), q);
                assert(queues(all@) =~= queues(before).insert(instrument@, changed@));
            },
            None => {
                assert(queues(all@) =~= queues(before));
            },
        }
        self.queues = all;
    }

    /// Takes out an order with a client id.
    pub fn remove_client(&mut self, client_id: &ClientOrderId) -> (r: Option<PendingOrder>)
        ensures
            final(self).on() == old(self).on(),
            match r {
                Some(o) => exists|k: Seq<char>| #[trigger]
                    took_client(old(self)@, final(self)@, k, client_id@, o),
                None => final(self)@ == old(self)@ && no_client(old(self)@, client_id@),
            },
    {
        proof {
            use_type_invariant(&*self);
        }
        let n: usize = self.queues.len();
        let mut found: Option<usize> = None;
        let mut i: usize = 0;
        while i < n && found.is_none()
            invariant
                *self == *old(self),
                n == self.queues.list().len(),
                i <= n,
                strmap::distinct_keys(self.queues.list()),
                match found {
                    Some(f) => f < n && client_index(self.queues.list()[f as int].1@, client_id@, 0)
                        < self.queues.list()[f as int].1@.len(),
                    None => forall|j: int, x: int|
                        0 <= j < i && 0 <= x < self.queues.list()[j].1@.len() ==> (
                        #[trigger] self.queues.list()[j].1@[x]).client_id@ != client_id@,
                },
            decreases n - i,
        {
            let e = self.queues.at(i);
            if e.1.has_client(client_id) {
                found = Some(i);
            }
            i = i + 1;
        }
        match found {
            Some(f) => {
                let key = self.queues.at(f).0.clone();
                let mut all: StrMap<OrderQueue> = StrMap::new();
                std::mem::swap(&mut all, &mut self.queues);
                let ghost before = all@;
                let mut q = match all.remove(key.as_str()) {
                    Some(q) => q,
                    None => OrderQueue::new(self.side),
                };
                let r = q.remove_client(client_id);
                let ghost changed = q;
                let ghost k = key@;
                all.insert(key, q);
                proof {
                    assert(queues(all@) =~= queues(before).insert(k, changed@));
                }
                self.queues = all;
                proof {
                    assert(took_client(old(self)@, self@, k, client_id@, r->0));
                }
                r
            },
            None => {
                proof {
                    let list = self.queues.list();
                    assert forall|k: Seq<char>, x: int|
                        self@.contains_key(k) && 0 <= x < self@[k].len() implies (
                    #[trigger] self@[k][x]).client_id@ != client_id@ by {
                        strmap::lemma_map_of(list, k);
                        strmap::lemma_key_index(list, k);
                        let j = strmap::key_index(list, k);
                        assert(list[j].1@[x].client_id@ != client_id@);
                    }
                }
                None
            },
        }
    }

    /// How many orders wait.
    pub fn count(&self) -> (r: usize)
        requires
            counted(self@) <= usize::MAX,
        ensures
            r == counted(self@),
    {
        let n: usize = self.queues.len();
        proof {
            lemma_counted_list(self.queues.list(), n as int);
            assert(self.queues.list().subrange(0, n as int) =~= self.queues.list());
        }
        let mut sum: usize = 0;
        let mut i: usize = 0;
        while i < n
            invariant
                n == self.queues.list().len(),
                i <= n,
                sum == waiting(self.queues.list(), i as int),
                waiting(self.queues.list(), n as int) <= usize::MAX,
            decreases n - i,
        {
            proof {
                lemma_waiting_grows(self.queues.list(), i + 1, n as int);
            }
            sum = sum + self.queues.at(i).1.len();
            i = i + 1;
        }
        sum
    }

    /// All orders, one queue after the other, behind those in `out`.
    pub fn append_to(&self, out: &mut Vec<PendingOrder>)
        ensures
            final(out)@ == old(out)@ + lined_up(self.list(), self.list().len() as int),
            lists_all(self@, lined_up(self.list(), self.list().len() as int)),
            lined_up(self.list(), self.list().len() as int).len() == counted(self@),
    {
        let n: usize = self.queues.len();
        proof {
            lemma_counted_list(self.queues.list(), n as int);
            assert(self.queues.list().subrange(0, n as int) =~= self.queues.list());
            lemma_lists_all(self.queues.list());
        }
        let mut i: usize = 0;
        assert(out@ =~= old(out)@ + lined_up(self.queues.list(), 0));
        while i < n
            invariant
                n == self.queues.list().len(),
                i <= n,
                out@ == old(out)@ + lined_up(self.queues.list(), i as int),
            decreases n - i,
        {
            let q = self.queues.at(i).1;
            let m: usize = q.len();
            let mut j: usize = 0;
            let ghost before = out@;
            while j < m
                invariant
                    m == q@.len(),
                    j <= m,
                    out@ == before + q@.subrange(0, j as int),
                decreases m - j,
            {
                out.push(q.at(j).clone());
                assert(out@ =~= before + q@.subrange(0, j + 1));
                j = j + 1;
            }
            assert(q@.subrange(0, m as int) =~= q@);
            assert(out@ =~= old(out)@ + lined_up(self.queues.list(), i + 1));
            i = i + 1;
        }
    }
}

/// One order with a client id was taken out of the queue of `k`, the first there.
pub open spec fn took_client(
    before: Queues,
    after: Queues,
    k: Seq<char>,
    id: Seq<char>,
    order: PendingOrder,
) -> bool {
    let at = client_index(before[k], id, 0);
    &&& before.contains_key(k)
    &&& at < before[k].len()
    &&& order == before[k][at]
    &&& order.client_id@ == id
    &&& after == before.insert(k, before[k].remove(at))
}

/// No order has the client id.
pub open spec fn no_client(q: Queues, id: Seq<char>) -> bool {
    forall|k: Seq<char>, x: int|
        q.contains_key(k) && 0 <= x < q[k].len() ==> (#[trigger] q[k][x]).client_id@ != id
}

/// Simulates fills.
#[derive(Debug)]
pub struct FillSimulator {
    buys: SideBook,
    sells: SideBook,
    next_oid: u64,
    balances: StrMap<Decimal>,
    fee_rate: Decimal,
}

proof fn lemma_filled_prefix(v: SimulatorView, quotes: Seq<(String, Quote)>, i: int, n: int)
    requires
        0 <= i <= n,
    ensures
        v.filled(quotes, i).len() <= v.filled(quotes, n).len(),
        forall|j: int|
            0 <= j < v.filled(quotes, i).len() ==> v.filled(quotes, n)[j] == #[trigger] v.filled(
                quotes,
                i,
            )[j],
    decreases n - i,
{
    if i < n {
        lemma_filled_prefix(v, quotes, i, n - 1);
    }
}

proof fn lemma_booking_fails(b: Balances, fills: Seq<Fill>, n: int)
    requires
        0 <= n <= fills.len(),
        all_booked(b, fills.subrange(0, n)) is None,
    ensures
        all_booked(b, fills) is None,
    decreases fills.len() - n,
{
    if n == fills.len() {
        assert(fills.subrange(0, n) =~= fills);
    } else {
        assert(fills.subrange(0, n + 1).drop_last() =~= fills.subrange(0, n));
        lemma_booking_fails(b, fills, n + 1);
    }
}

/// The fills of simulated fills.
pub open spec fn plain(s: Seq<SimulatedFill>) -> Seq<Fill> {
    s.map_values(|f: SimulatedFill| f.fill)
}

impl SimulatorView {
    /// The simulator after the quotes, given the fills.
    pub open spec fn after_quotes(
        self,
        quotes: Map<Seq<char>, Quote>,
        balances: Balances,
    ) -> SimulatorView {
        SimulatorView {
            buys: SimulatorView::left(OrderSide::Buy, self.buys, quotes),
            sells: SimulatorView::left(OrderSide::Sell, self.sells, quotes),
            balances,
            ..self
        }
    }
}

impl FillSimulator {
    /// What the simulator holds.
    pub closed spec fn view(&self) -> SimulatorView {
        SimulatorView {
            buys: self.buys@,
            sells: self.sells@,
            next_oid: self.next_oid,
            balances: self.balances@,
            fee_rate: self.fee_rate,
        }
    }

    /// The books are those of their sides.
    pub closed spec fn wf(&self) -> bool {
        self.buys.on() is Buy && self.sells.on() is Sell
    }

    /// A simulator without fees.
    pub fn new(initial_balances: StrMap<Decimal>) -> (r: FillSimulator)
        ensures
            r.wf(),
            r@ == (SimulatorView {
                buys: Map::empty(),
                sells: Map::empty(),
                next_oid: 1000,
                balances: initial_balances@,
                fee_rate: decimal::zero(),
            }),
    {
        FillSimulator::new_with_fee(initial_balances, Decimal::zero())
    }

    /// A simulator with a fee rate.
    pub fn new_with_fee(initial_balances: StrMap<Decimal>, fee_rate: Decimal) -> (r: FillSimulator)
        ensures
            r.wf(),
            r@ == (SimulatorView {
                buys: Map::empty(),
                sells: Map::empty(),
                next_oid: 1000,
                balances: initial_balances@,
                fee_rate,
            }),
    {
        FillSimulator {
            buys: SideBook::new(OrderSide::Buy),
            sells: SideBook::new(OrderSide::Sell),
            next_oid: 1000,
            balances: initial_balances,
            fee_rate,
        }
    }

    /// Sets the fee rate.
    pub fn set_fee_rate(&mut self, fee_rate: Decimal)
        ensures
            final(self)@ == (SimulatorView { fee_rate, ..old(self)@ }),
            old(self).wf() ==> final(self).wf(),
    {
        self.fee_rate = fee_rate;
    }

    /// The fee rate.
    pub fn fee_rate(&self) -> (r: Decimal)
        ensures
            r == self@.fee_rate,
    {
        self.fee_rate
    }

    /// The next order id: the prefix and a number that grows by one.
    pub fn next_exchange_order_id(&mut self, prefix: &str) -> (r: ExchangeOrderId)
        requires
            old(self)@.next_oid < u64::MAX,
        ensures
            r@ == prefix@ + "_"@ + text::digits(old(self)@.next_oid as nat),
            final(self)@ == (SimulatorView {
                next_oid: (old(self)@.next_oid + 1) as u64,
                ..old(self)@
            }),
            old(self).wf() ==> final(self).wf(),
    {
        let oid: u64 = self.next_oid;
        self.next_oid = oid + 1;
        ExchangeOrderId(join3(prefix, "_", number_text(oid as u128).as_str()))
    }

    /// The number of the next order id.
    pub fn next_oid(&self) -> (r: u64)
        ensures
            r == self@.next_oid,
    {
        self.next_oid
    }

    /// Lets an order wait.
    pub fn add_pending_order(&mut self, order: PendingOrder)
        requires
            old(self).wf(),
        ensures
            final(self).wf(),
            final(self)@ == old(self)@.with_order(order),
    {
        match order.side {
            OrderSide::Buy => self.buys.insert(order),
            OrderSide::Sell => self.sells.insert(order),
        }
    }

    /// Takes out an order with a client id, among the bids first.
    pub fn remove_order(&mut self, client_id: &ClientOrderId) -> (r: Option<PendingOrder>)
        requires
            old(self).wf(),
        ensures
            final(self).wf(),
            match r {
                Some(o) => {
                    ||| final(self)@ == (SimulatorView { buys: final(self)@.buys, ..old(self)@ })
                        && exists|k: Seq<char>| #[trigger]
                        took_client(old(self)@.buys, final(self)@.buys, k, client_id@, o)
                    ||| final(self)@ == (SimulatorView { sells: final(self)@.sells, ..old(self)@ })
                        && no_client(old(self)@.buys, client_id@) && exists|k: Seq<char>| #[trigger]
                        took_client(old(self)@.sells, final(self)@.sells, k, client_id@, o)
                },
                None => final(self)@ == old(self)@ && no_client(old(self)@.buys, client_id@)
                    && no_client(old(self)@.sells, client_id@),
            },
    {
        match self.buys.remove_client(client_id) {
            Some(o) => Some(o),
            None => self.sells.remove_client(client_id),
        }
    }

    /// Takes out all orders of an instrument: the bids, then the asks.
    pub fn remove_orders_for_instrument(&mut self, instrument: &InstrumentId) -> (r: Vec<
        PendingOrder,
    >)
        requires
            old(self).wf(),
        ensures
            final(self).wf(),
            r@ == queue(old(self)@.buys, instrument@) + queue(old(self)@.sells, instrument@),
            final(self)@ == (SimulatorView {
                buys: old(self)@.buys.remove(instrument@),
                sells: old(self)@.sells.remove(instrument@),
                ..old(self)@
            }),
    {
        let mut out = self.buys.take_instrument(instrument.as_str());
        let mut more = self.sells.take_instrument(instrument.as_str());
        out.append(&mut more);
        out
    }

    /// The balance of an asset.
    pub fn balance(&self, asset: &AssetId) -> (r: Decimal)
        ensures
            r == held(self@.balances, asset@),
    {
        match self.balances.get(asset.as_str()) {
            Some(x) => *x,
            None => Decimal::zero(),
        }
    }

    /// Sets the balance of an asset.
    pub fn set_balance(&mut self, asset: AssetId, amount: Decimal)
        ensures
            final(self)@ == (SimulatorView {
                balances: old(self)@.balances.insert(asset@, amount),
                ..old(self)@
            }),
            old(self).wf() ==> final(self).wf(),
    {
        self.balances.insert(asset.0, amount);
    }

    /// The balances.
    pub fn balances(&self) -> (r: &StrMap<Decimal>)
        ensures
            r@ == self@.balances,
    {
        &self.balances
    }

    fn gain(b: &mut StrMap<Decimal>, asset: &str, amount: Option<Decimal>) -> (r: bool)
        ensures
            match gained(Some(old(b)@), asset@, amount) {
                Some(x) => r && final(b)@ == x,
                None => !r,
            },
    {
        let before = match b.get(asset) {
            Some(x) => *x,
            None => Decimal::zero(),
        };
        match sum(Some(before), amount) {
            Some(x) => {
                b.insert(asset.to_owned(), x);
                true
            },
            None => false,
        }
    }

    fn lose(b: &mut StrMap<Decimal>, asset: &str, amount: Option<Decimal>) -> (r: bool)
        ensures
            match lost(Some(old(b)@), asset@, amount) {
                Some(x) => r && final(b)@ == x,
                None => !r,
            },
    {
        let before = match b.get(asset) {
            Some(x) => *x,
            None => Decimal::zero(),
        };
        match difference(Some(before), amount) {
            Some(x) => {
                b.insert(asset.to_owned(), x);
                true
            },
            None => false,
        }
    }

    /// Books a fill; says `false` where a step is too large.
    fn apply_fill_to_balances(b: &mut StrMap<Decimal>, fill: &Fill) -> (r: bool)
        ensures
            match booked(old(b)@, *fill) {
                Some(x) => r && final(b)@ == x,
                None => !r,
            },
    {
        let instrument = fill.instrument.as_str();
        if ends_with_text(instrument, "-PERP") {
            return true;
        }
        let base = text_before_last(instrument, '-');
        let notional = product(Some(fill.price.0), Some(fill.qty.0));
        let fee_in_base = same_text(fill.fee.asset.as_str(), base);
        let fee_in_usdc = same_text(fill.fee.asset.as_str(), "USDC");
        match fill.side {
            OrderSide::Buy => {
                let received = if fee_in_base {
                    difference(Some(fill.qty.0), Some(fill.fee.amount))
                } else {
                    Some(fill.qty.0)
                };
                FillSimulator::lose(b, "USDC", notional) && FillSimulator::gain(b, base, received)
                    && (!fee_in_usdc || FillSimulator::lose(b, "USDC", Some(fill.fee.amount)))
            },
            OrderSide::Sell => {
                let received = if fee_in_usdc {
                    difference(notional, Some(fill.fee.amount))
                } else {
                    notional
                };
                FillSimulator::gain(b, "USDC", received) && FillSimulator::lose(
                    b,
                    base,
                    Some(fill.qty.0),
                ) && (!fee_in_base || FillSimulator::lose(b, base, Some(fill.fee.amount)))
            },
        }
    }

    /// The fills of the orders of one side that a quote price reaches, behind those in `out`.
    /// Says `false` where a fee is too large.
    fn push_hits(
        book: &SideBook,
        instrument: &str,
        px: Price,
        rate: Decimal,
        now: i64,
        out: &mut Vec<SimulatedFill>,
        Ghost(v): Ghost<SimulatorView>,
        Ghost(before): Ghost<Seq<(PendingOrder, Price)>>,
    ) -> (r: bool)
        requires
            v.fee_rate == rate,
            v.are_fills(plain(old(out)@), before, now),
            forall|i: int| 0 <= i < old(out)@.len() ==> (#[trigger] old(out)@[i]).order_fully_filled,
        ensures
            r ==> v.are_fills(
                plain(final(out)@),
                before + hits(book.on(), queue(book@, instrument@), px),
                now,
            ) && forall|i: int|
                0 <= i < final(out)@.len() ==> (#[trigger] final(out)@[i]).order_fully_filled,
            !r ==> exists|i: int|
                0 <= i < hits(book.on(), queue(book@, instrument@), px).len() && {
                    let hit = #[trigger] hits(book.on(), queue(book@, instrument@), px)[i];
                    fee_amount(
                        rate,
                        hit.0.instrument@,
                        hit.0.side,
                        hit.0.remaining_qty.0,
                        hit.1.0,
                    ) is None
                },
    {
        match book.queue_of(instrument) {
            Some(q) => {
                let n: usize = q.count_reached(px.0);
                let ghost all = hits(book.on(), queue(book@, instrument@), px);
                let mut i: usize = 0;
                assert(before + all.subrange(0, 0) =~= before);
                while i < n
                    invariant
                        n <= q@.len(),
                        i <= n,
                        all == hits(book.on(), q@, px),
                        all == hits(book.on(), queue(book@, instrument@), px),
                        n == all.len(),
                        v.fee_rate == rate,
                        v.are_fills(plain(out@), before + all.subrange(0, i as int), now),
                        forall|k: int|
                            0 <= k < out@.len() ==> (#[trigger] out@[k]).order_fully_filled,
                    decreases n - i,
                {
                    let order = q.at(i);
                    assert(all[i as int] == (*order, px));
                    let fee = match calculate_fee(
                        rate,
                        &order.instrument,
                        order.side,
                        order.remaining_qty,
                        px,
                    ) {
                        Some(f) => f,
                        None => {
                            return false;
                        },
                    };
                    let fill = Fill {
                        trade_id: TradeId(join2("sim_", order.exchange_order_id.as_str())),
                        client_id: Some(order.client_id.clone()),
                        exchange_order_id: Some(order.exchange_order_id.clone()),
                        instrument: order.instrument.clone(),
                        side: order.side,
                        price: px,
                        qty: order.remaining_qty,
                        fee,
                        ts: now,
                    };
                    let ghost prev = out@;
                    let ghost one = fill;
                    out.push(SimulatedFill { fill, order_fully_filled: true });
                    proof {
                        assert(plain(out@) =~= plain(prev).push(one));
                        assert(before + all.subrange(0, i + 1) =~= (before + all.subrange(
                            0,
                            i as int,
                        )).push(all[i as int]));
                    }
                    i = i + 1;
                }
                assert(all.subrange(0, n as int) =~= all);
                true
            },
            None => {
                assert(hits(book.on(), queue(book@, instrument@), px) =~= Seq::empty());
                assert(before + hits(book.on(), queue(book@, instrument@), px) =~= before);
                true
            },
        }
    }

    /// Fills the orders that the quotes reach and books the fills. Changes nothing and gives
    /// `None` where a step of arithmetic is too large.
    pub fn try_check_fills(&mut self, quotes: &StrMap<Quote>, time_ms: i64) -> (r: Option<
        Vec<SimulatedFill>,
    >)
        requires
            old(self).wf(),
        ensures
            final(self).wf(),
            match r {
                Some(fills) => {
                    &&& old(self)@.are_fills(
                        plain(fills@),
                        old(self)@.filled(quotes.list(), quotes.list().len() as int),
                        time_ms,
                    )
                    &&& forall|i: int|
                        0 <= i < fills@.len() ==> (#[trigger] fills@[i]).order_fully_filled
                    &&& all_booked(old(self)@.balances, plain(fills@)) matches Some(b)
                        && final(self)@ == old(self)@.after_quotes(quotes@, b)
                },
                None => {
                    &&& final(self)@ == old(self)@
                    &&& !old(self)@.fees_fit(quotes.list()) || exists|fills: Seq<Fill>|
                        #[trigger] old(self)@.are_fills(
                            fills,
                            old(self)@.filled(quotes.list(), quotes.list().len() as int),
                            time_ms,
                        ) && all_booked(old(self)@.balances, fills) is None
                },
            },
    {
        let n: usize = quotes.len();
        let ghost v = self@;
        let ghost list = quotes.list();
        let mut fills: Vec<SimulatedFill> = Vec::new();
        let mut i: usize = 0;
        assert(plain(fills@) =~= Seq::empty());
        while i < n
            invariant
                *self == *old(self),
                self.wf(),
                v == self@,
                list == quotes.list(),
                n == list.len(),
                i <= n,
                v.are_fills(plain(fills@), v.filled(list, i as int), time_ms),
                forall|k: int| 0 <= k < fills@.len() ==> (#[trigger] fills@[k]).order_fully_filled,
            decreases n - i,
        {
            let e = quotes.at(i);
            let ghost so_far = v.filled(list, i as int);
            let ghost b = hits(OrderSide::Buy, queue(v.buys, e.0@), e.1.ask);
            let ghost a = hits(OrderSide::Sell, queue(v.sells, e.0@), e.1.bid);
            assert(v.filled(list, i + 1) == so_far + b + a);
            if !FillSimulator::push_hits(
                &self.buys,
                e.0.as_str(),
                e.1.ask,
                self.fee_rate,
                time_ms,
                &mut fills,
                Ghost(v),
                Ghost(so_far),
            ) {
                proof {
                    let x = choose|x: int|
                        0 <= x < b.len() && {
                            let hit = #[trigger] b[x];
                            fee_amount(
                                v.fee_rate,
                                hit.0.instrument@,
                                hit.0.side,
                                hit.0.remaining_qty.0,
                                hit.1.0,
                            ) is None
                        };
                    lemma_filled_prefix(v, list, i + 1, n as int);
                    assert(v.filled(list, i + 1)[so_far.len() + x] == b[x]);
                    assert(v.filled(list, n as int)[so_far.len() + x] == b[x]);
                }
                return None;
            }
            if !FillSimulator::push_hits(
                &self.sells,
                e.0.as_str(),
                e.1.bid,
                self.fee_rate,
                time_ms,
                &mut fills,
                Ghost(v),
                Ghost(so_far + b),
            ) {
                proof {
                    let x = choose|x: int|
                        0 <= x < a.len() && {
                            let hit = #[trigger] a[x];
                            fee_amount(
                                v.fee_rate,
                                hit.0.instrument@,
                                hit.0.side,
                                hit.0.remaining_qty.0,
                                hit.1.0,
                            ) is None
                        };
                    lemma_filled_prefix(v, list, i + 1, n as int);
                    assert(v.filled(list, i + 1)[so_far.len() + b.len() + x] == a[x]);
                    assert(v.filled(list, n as int)[so_far.len() + b.len() + x] == a[x]);
                }
                return None;
            }
            i = i + 1;
        }
        let mut balances = self.balances.copy();
        let mut j: usize = 0;
        let ghost flat = plain(fills@);
        assert(flat.subrange(0, 0) =~= Seq::empty());
        while j < fills.len()
            invariant
                *self == *old(self),
                self.wf(),
                v == self@,
                list == quotes.list(),
                flat == plain(fills@),
                v.are_fills(flat, v.filled(list, list.len() as int), time_ms),
                j <= fills@.len(),
                all_booked(v.balances, flat.subrange(0, j as int)) == Some(balances@),
            decreases fills@.len() - j,
        {
            assert(flat.subrange(0, j + 1).drop_last() =~= flat.subrange(0, j as int));
            assert(flat.subrange(0, j + 1).last() == fills@[j as int].fill);
            if !FillSimulator::apply_fill_to_balances(&mut balances, &fills[j].fill) {
                proof {
                    lemma_booking_fails(v.balances, flat, j + 1);
                }
                return None;
            }
            j = j + 1;
        }
        assert(flat.subrange(0, flat.len() as int) =~= flat);
        let mut k: usize = 0;
        proof {
            assert(list.subrange(0, 0) =~= Seq::empty());
            assert(SimulatorView::left(OrderSide::Buy, v.buys, strmap::map_of(list.subrange(0, 0)))
                =~= v.buys);
            assert(SimulatorView::left(OrderSide::Sell, v.sells, strmap::map_of(list.subrange(0, 0)))
                =~= v.sells);
        }
        while k < n
            invariant
                self.wf(),
                list == quotes.list(),
                strmap::distinct_keys(list),
                n == list.len(),
                k <= n,
                self@ == (SimulatorView {
                    buys: SimulatorView::left(
                        OrderSide::Buy,
                        v.buys,
                        strmap::map_of(list.subrange(0, k as int)),
                    ),
                    sells: SimulatorView::left(
                        OrderSide::Sell,
                        v.sells,
                        strmap::map_of(list.subrange(0, k as int)),
                    ),
                    ..v
                }),
            decreases n - k,
        {
            let e = quotes.at(k);
            let ghost so_far = strmap::map_of(list.subrange(0, k as int));
            let ghost next = strmap::map_of(list.subrange(0, k + 1));
            proof {
                assert(list.subrange(0, k + 1).drop_last() =~= list.subrange(0, k as int));
                assert(next == so_far.insert(e.0@, *e.1));
                strmap::lemma_new_key(list, k as int);
                assert(strmap::distinct_keys(list.subrange(0, k as int)));
                strmap::lemma_map_of(list.subrange(0, k as int), e.0@);
                assert(!so_far.contains_key(e.0@));
            }
            let ghost old_buys = self@.buys;
            let ghost old_sells = self@.sells;
            self.buys.drop_reached(e.0.as_str(), e.1.ask.0);
            self.sells.drop_reached(e.0.as_str(), e.1.bid.0);
            proof {
                assert(self@.buys =~= SimulatorView::left(OrderSide::Buy, v.buys, next));
                assert(self@.sells =~= SimulatorView::left(OrderSide::Sell, v.sells, next));
            }
            k = k + 1;
        }
        assert(list.subrange(0, n as int) =~= list);
        self.balances = balances;
        Some(fills)
    }

    /// Fills the orders that the quotes reach and books the fills.
    pub fn check_fills(&mut self, quotes: &StrMap<Quote>, time_ms: i64) -> (r: Vec<SimulatedFill>)
        requires
            old(self).wf(),
            old(self)@.fees_fit(quotes.list()),
            forall|fills: Seq<Fill>| #[trigger]
                old(self)@.are_fills(
                    fills,
                    old(self)@.filled(quotes.list(), quotes.list().len() as int),
                    time_ms,
                ) ==> all_booked(old(self)@.balances, fills) is Some,
        ensures
            final(self).wf(),
            old(self)@.are_fills(
                plain(r@),
                old(self)@.filled(quotes.list(), quotes.list().len() as int),
                time_ms,
            ),
            forall|i: int| 0 <= i < r@.len() ==> (#[trigger] r@[i]).order_fully_filled,
            all_booked(old(self)@.balances, plain(r@)) matches Some(b) && final(self)@
                == old(self)@.after_quotes(quotes@, b),
    {
        self.try_check_fills(quotes, time_ms).unwrap()
    }

    /// Whether the balances cover an order, or why not; `None` where a step is too large.
    pub fn try_check_balance(
        &self,
        instrument: &InstrumentId,
        side: OrderSide,
        price: Decimal,
        qty: Decimal,
    ) -> (r: Option<Result<(), String>>)
        ensures
            match self@.shortage(instrument@, side, price, qty) {
                None => r is None,
                Some(None) => r == Some(Ok::<(), String>(())),
                Some(Some(text)) => r matches Some(Err(e)) && e@ == text,
            },
    {
        check_funds(&self.balances, instrument, side, price, qty)
    }

    /// Whether the balances cover an order, or why not.
    pub fn check_balance(
        &self,
        instrument: &InstrumentId,
        side: OrderSide,
        price: Decimal,
        qty: Decimal,
    ) -> (r: Result<(), String>)
        requires
            self@.shortage(instrument@, side, price, qty) is Some,
        ensures
            match self@.shortage(instrument@, side, price, qty)->0 {
                None => r is Ok,
                Some(text) => r matches Err(e) && e@ == text,
            },
    {
        self.try_check_balance(instrument, side, price, qty).unwrap()
    }

    /// How many orders wait.
    pub fn pending_orders_count(&self) -> (r: usize)
        requires
            counted(self@.buys) + counted(self@.sells) <= usize::MAX,
        ensures
            r == counted(self@.buys) + counted(self@.sells),
    {
        self.buys.count() + self.sells.count()
    }

    /// All waiting orders, bids first, one instrument after the other.
    pub fn pending_orders(&self) -> (r: Vec<PendingOrder>)
        ensures
            exists|bids: Seq<PendingOrder>, asks: Seq<PendingOrder>|
                r@ == bids + asks && #[trigger] lists_all(self@.buys, bids) && #[trigger] lists_all(
                    self@.sells,
                    asks,
                ),
            r@.len() == counted(self@.buys) + counted(self@.sells),
    {
        let mut out: Vec<PendingOrder> = Vec::new();
        let ghost bids = lined_up(self.buys.list(), self.buys.list().len() as int);
        let ghost asks = lined_up(self.sells.list(), self.sells.list().len() as int);
        self.buys.append_to(&mut out);
        assert(out@ =~= bids);
        self.sells.append_to(&mut out);
        assert(lists_all(self@.buys, bids) && lists_all(self@.sells, asks));
        out
    }
}

impl Default for FillSimulator {
    fn default() -> (r: FillSimulator)
        ensures
            r.wf(),
            r@ == (SimulatorView {
                buys: Map::empty(),
                sells: Map::empty(),
                next_oid: 1000,
                balances: Map::empty(),
                fee_rate: decimal::zero(),
            }),
    {
        FillSimulator::new(StrMap::new())
    }
}

/// What is left of a queue after a quote is not reached by the same quote again.
proof fn lemma_left_is_not_reached(side: OrderSide, s: Seq<PendingOrder>, px: Decimal)
    ensures
        ({
            let n = reached_from(side, s, px, 0);
            &&& 0 <= n <= s.len()
            &&& reached_from(side, s.subrange(n, s.len() as int), px, 0) == 0
        }),
{
    lemma_reached(side, s, px, 0);
    let n = reached_from(side, s, px, 0);
    let left = s.subrange(n, s.len() as int);
    if left.len() > 0 {
        assert(left[0] == s[n]);
    }
}

/// The same quotes fill nothing twice: after they were matched, they reach no order that is
/// left, and leave every one where it is.
pub proof fn law_quotes_fill_once(
    v: SimulatorView,
    quotes: Seq<(String, Quote)>,
    balances: Balances,
    n: int,
)
    requires
        strmap::distinct_keys(quotes),
        0 <= n <= quotes.len(),
    ensures
        ({
            let after = v.after_quotes(strmap::map_of(quotes), balances);
            &&& after.filled(quotes, n).len() == 0
            &&& after.after_quotes(strmap::map_of(quotes), balances) == after
        }),
    decreases n,
{
    let all = strmap::map_of(quotes);
    let after = v.after_quotes(all, balances);
    assert forall|k: Seq<char>| v.buys.contains_key(k) && all.contains_key(k) implies reached_from(
        OrderSide::Buy,
        #[trigger] after.buys[k],
        all[k].ask.0,
        0,
    ) == 0 by {
        lemma_left_is_not_reached(OrderSide::Buy, v.buys[k], all[k].ask.0);
    }
    assert forall|k: Seq<char>| v.sells.contains_key(k) && all.contains_key(k) implies reached_from(
        OrderSide::Sell,
        #[trigger] after.sells[k],
        all[k].bid.0,
        0,
    ) == 0 by {
        lemma_left_is_not_reached(OrderSide::Sell, v.sells[k], all[k].bid.0);
    }
    let again = after.after_quotes(all, balances);
    assert forall|k: Seq<char>| after.buys.contains_key(k) implies #[trigger] again.buys[k]
        == after.buys[k] by {
        assert(again.buys[k] =~= after.buys[k]);
    }
    assert forall|k: Seq<char>| after.sells.contains_key(k) implies #[trigger] again.sells[k]
        == after.sells[k] by {
        assert(again.sells[k] =~= after.sells[k]);
    }
    assert(again.buys =~= after.buys);
    assert(again.sells =~= after.sells);
    if n > 0 {
        law_quotes_fill_once(v, quotes, balances, n - 1);
        let k = quotes[n - 1].0@;
        strmap::lemma_map_of(quotes, k);
        strmap::lemma_key_index(quotes, k);
        let i = strmap::key_index(quotes, k);
        if i < n - 1 {
            assert(quotes[i].0@ != quotes[n - 1].0@);
        } else if i > n - 1 {
            assert(quotes[n - 1].0@ != k);
        }
        assert(all[k] == quotes[n - 1].1);
        if after.buys.contains_key(k) {
            assert(reached_from(OrderSide::Buy, after.buys[k], all[k].ask.0, 0) == 0);
        }
        if after.sells.contains_key(k) {
            assert(reached_from(OrderSide::Sell, after.sells[k], all[k].bid.0, 0) == 0);
        }
    }
}

/// No quote reaches an order where none waits.
pub proof fn lemma_empty_is_not_reached(side: OrderSide, px: Decimal)
    ensures
        reached_from(side, Seq::empty(), px, 0) == 0,
{
}

} // verus!
