//! What the engine knows of the markets and of what is held.
use vstd::prelude::*;
use vstd::string::*;
use crate::types;
use crate::strmap;
use crate::decimal;
use crate::decimal::{Decimal, sum, difference, product, quotient};
use crate::inventory::{InventoryLedger, InventoryView};
use crate::order_manager::{OrderBook, OrderManager};
use crate::strmap::StrMap;
use crate::text::join2;
use crate::types::{Environment, ExchangeHealth, ExchangeInstance, InstrumentId, InstrumentMeta, OrderSide, Position, Price, Qty, Quote, try_halfway};

verus! {

/// The name under which the state of an exchange is kept.
pub open spec fn instance_key(instance: ExchangeInstance) -> Seq<char> {
    match instance.environment {
        Environment::Mainnet => "m:"@ + instance.exchange_id@,
        Environment::Testnet => "t:"@ + instance.exchange_id@,
    }
}

pub(crate) fn key_of(instance: &ExchangeInstance) -> (r: String)
    ensures
        r@ == instance_key(*instance),
{
    match instance.environment {
        Environment::Mainnet => join2("m:", instance.exchange_id.as_str()),
        Environment::Testnet => join2("t:", instance.exchange_id.as_str()),
    }
}

/// Different exchanges, and different environments of one, have different keys.
pub proof fn law_instance_keys_distinct(a: ExchangeInstance, b: ExchangeInstance)
    ensures
        instance_key(a) == instance_key(b) <==> a.is_same(&b),
{
    reveal_strlit("m:");
    reveal_strlit("t:");
    let (x, y) = (instance_key(a), instance_key(b));
    assert(x[0] == (if a.environment is Mainnet {
        'm'
    } else {
        't'
    }));
    assert(y[0] == (if b.environment is Mainnet {
        'm'
    } else {
        't'
    }));
    assert(x.subrange(2, x.len() as int) =~= a.exchange_id@);
    assert(y.subrange(2, y.len() as int) =~= b.exchange_id@);
}

/// The fill with its sign: bought above zero, sold below.
pub open spec fn signed(side: OrderSide, qty: Decimal) -> Decimal {
    match side {
        OrderSide::Buy => qty,
        OrderSide::Sell => decimal::negated(qty),
    }
}

/// The signs differ and neither is zero.
pub open spec fn opposite(x: Decimal, y: Decimal) -> bool {
    (x.m() > 0 && y.m() < 0) || (x.m() < 0 && y.m() > 0)
}

/// The signs are the same and neither is zero.
pub open spec fn alike(x: Decimal, y: Decimal) -> bool {
    (x.m() > 0 && y.m() > 0) || (x.m() < 0 && y.m() < 0)
}

/// The profit that a fill realizes: what it closes of the position, times the move of the
/// price, with the sign of the position. All of the position is closed where it turns.
pub open spec fn fill_profit(
    p: Position,
    entry: Decimal,
    new_qty: Decimal,
    qty: Decimal,
    price: Decimal,
) -> Option<Decimal> {
    let closed = if opposite(p.qty, new_qty) {
        decimal::magnitude(p.qty)
    } else {
        decimal::smaller(qty, decimal::magnitude(p.qty))
    };
    let direction = if p.qty.m() > 0 {
        decimal::one()
    } else {
        decimal::negated(decimal::one())
    };
    decimal::times(decimal::times(decimal::minus(Some(price), Some(entry)), Some(closed)), Some(direction))
}

/// The realized profit after a fill.
pub open spec fn realized_after(
    p: Position,
    side: OrderSide,
    new_qty: Decimal,
    qty: Decimal,
    price: Decimal,
) -> Option<Decimal> {
    match p.avg_entry_px {
        Some(entry) if opposite(p.qty, signed(side, qty)) => decimal::plus(
            Some(p.realized_pnl),
            fill_profit(p, entry.0, new_qty, qty, price),
        ),
        _ => Some(p.realized_pnl),
    }
}

/// The entry price after a fill: the price of the fill where the position turns or opens,
/// the weighted average where it grows, and the old one where it shrinks.
pub open spec fn entry_after(
    p: Position,
    side: OrderSide,
    new_qty: Decimal,
    qty: Decimal,
    price: Decimal,
) -> Option<Option<Price>> {
    if opposite(p.qty, new_qty) {
        Some(Some(Price(price)))
    } else {
        match p.avg_entry_px {
            Some(entry) => if alike(p.qty, signed(side, qty)) {
                let notional = decimal::plus(
                    decimal::times(Some(entry.0), Some(decimal::magnitude(p.qty))),
                    decimal::times(Some(price), Some(qty)),
                );
                match (notional, decimal::plus(Some(decimal::magnitude(p.qty)), Some(qty))) {
                    (Some(_), Some(total)) => if total.m() > 0 {
                        match decimal::over(notional, Some(total)) {
                            Some(avg) => Some(Some(Price(avg))),
                            None => None,
                        }
                    } else {
                        Some(p.avg_entry_px)
                    },
                    _ => None,
                }
            } else {
                Some(p.avg_entry_px)
            },
            None => if new_qty.m() != 0 {
                Some(Some(Price(price)))
            } else {
                Some(None)
            },
        }
    }
}

/// The position after a fill. A flat position has no entry price and no held profit, but
/// keeps what was realized and the fees.
pub open spec fn position_filled(p: Position, side: OrderSide, qty: Decimal, price: Decimal) -> Option<
    Position,
> {
    match decimal::plus(Some(p.qty), Some(signed(side, qty))) {
        None => None,
        Some(new_qty) => match (
            realized_after(p, side, new_qty, qty, price),
            entry_after(p, side, new_qty, qty, price),
        ) {
            (Some(realized_pnl), Some(avg_entry_px)) => Some(
                Position {
                    qty: new_qty,
                    avg_entry_px: if new_qty.m() == 0 {
                        None
                    } else {
                        avg_entry_px
                    },
                    unrealized_pnl: if new_qty.m() == 0 {
                        None
                    } else {
                        p.unrealized_pnl
                    },
                    realized_pnl,
                    total_fees: p.total_fees,
                },
            ),
            _ => None,
        },
    }
}

/// The position with the held profit that a quote gives it: the middle price less the entry
/// price, times the quantity.
pub open spec fn position_marked(p: Position, quote: Option<Quote>) -> Option<Position> {
    match (p.avg_entry_px, quote) {
        (Some(entry), Some(q)) => match decimal::times(
            decimal::minus(types::halfway(q.bid.0, q.ask.0), Some(entry.0)),
            Some(p.qty),
        ) {
            Some(u) => Some(Position { unrealized_pnl: Some(u), ..p }),
            None => None,
        },
        _ => Some(p),
    }
}

/// The position after a fill, where no step is too large.
pub fn fill_position(p: &Position, side: OrderSide, qty: Qty, price: Price) -> (r: Option<Position>)
    ensures
        r == position_filled(*p, side, qty.0, price.0),
{
    let signed_qty = match side {
        OrderSide::Buy => qty.0,
        OrderSide::Sell => qty.0.negate(),
    };
    let old_qty = p.qty;
    let new_qty = match old_qty.checked_add(signed_qty) {
        Some(q) => q,
        None => {
            return None;
        },
    };
    let is_reversal = (old_qty.is_positive() && new_qty.is_negative()) || (old_qty.is_negative()
        && new_qty.is_positive());
    let is_reducing = (old_qty.is_positive() && signed_qty.is_negative()) || (
    old_qty.is_negative() && signed_qty.is_positive());
    let realized = match p.avg_entry_px {
        Some(entry) => if is_reducing {
            let closed = if is_reversal {
                old_qty.abs()
            } else {
                qty.0.min(old_qty.abs())
            };
            let direction = if old_qty.is_positive() {
                Decimal::one()
            } else {
                Decimal::one().negate()
            };
            sum(
                Some(p.realized_pnl),
                product(
                    product(difference(Some(price.0), Some(entry.0)), Some(closed)),
                    Some(direction),
                ),
            )
        } else {
            Some(p.realized_pnl)
        },
        None => Some(p.realized_pnl),
    };
    let entry = if is_reversal {
        Some(Some(price))
    } else {
        match p.avg_entry_px {
            Some(old_avg) => {
                let is_growing = (old_qty.is_positive() && signed_qty.is_positive()) || (
                old_qty.is_negative() && signed_qty.is_negative());
                if is_growing {
                    let notional = sum(
                        product(Some(old_avg.0), Some(old_qty.abs())),
                        product(Some(price.0), Some(qty.0)),
                    );
                    match (notional, sum(Some(old_qty.abs()), Some(qty.0))) {
                        (Some(_), Some(total)) => if total.is_positive() {
                            match quotient(notional, Some(total)) {
                                Some(avg) => Some(Some(Price(avg))),
                                None => None,
                            }
                        } else {
                            Some(p.avg_entry_px)
                        },
                        _ => None,
                    }
                } else {
                    Some(p.avg_entry_px)
                }
            },
            None => if !new_qty.is_zero() {
                Some(Some(price))
            } else {
                Some(None)
            },
        }
    };
    match (realized, entry) {
        (Some(realized_pnl), Some(avg_entry_px)) => {
            let flat = new_qty.is_zero();
            Some(
                Position {
                    qty: new_qty,
                    avg_entry_px: if flat {
                        None
                    } else {
                        avg_entry_px
                    },
                    unrealized_pnl: if flat {
                        None
                    } else {
                        p.unrealized_pnl
                    },
                    realized_pnl,
                    total_fees: p.total_fees,
                },
            )
        },
        _ => None,
    }
}

/// The position with the held profit that a quote gives it, where no step is too large.
pub fn mark_position(p: &Position, quote: Option<&Quote>) -> (r: Option<Position>)
    ensures
        r == position_marked(
            *p,
            match quote {
                Some(q) => Some(*q),
                None => None,
            },
        ),
{
    match (p.avg_entry_px, quote) {
        (Some(entry), Some(q)) => match product(
            difference(try_halfway(q.bid.0, q.ask.0), Some(entry.0)),
            Some(p.qty),
        ) {
            Some(u) => Some(
                Position {
                    qty: p.qty,
                    avg_entry_px: p.avg_entry_px,
                    unrealized_pnl: Some(u),
                    realized_pnl: p.realized_pnl,
                    total_fees: p.total_fees,
                },
            ),
            None => None,
        },
        _ => Some(*p),
    }
}

/// What is known of the markets and of what is held.
pub struct StateView {
    pub orders: OrderBook,
    pub inventory: InventoryView,
    pub quotes: Seq<(String, Quote)>,
    pub positions: Seq<(String, Position)>,
    pub instruments: Seq<(String, InstrumentMeta)>,
    /// By the key of the exchange.
    pub health: Map<Seq<char>, ExchangeHealth>,
}

impl StateView {
    /// Nothing known.
    pub open spec fn empty() -> StateView {
        StateView {
            orders: OrderBook {
                orders: Seq::empty(),
                by_exchange: Seq::empty(),
                seen: Seq::empty(),
            },
            inventory: InventoryView {
                accounts: Seq::empty(),
                reservations: Seq::empty(),
                allocations: Seq::empty(),
            },
            quotes: Seq::empty(),
            positions: Seq::empty(),
            instruments: Seq::empty(),
            health: Map::empty(),
        }
    }

    /// What is held of an instrument, as last booked.
    pub open spec fn booked(self, instrument: InstrumentId) -> Position {
        match strmap::lookup(self.positions, instrument@) {
            Some(p) => p,
            None => Position::flat(),
        }
    }

    /// What is held of an instrument at its quote.
    pub open spec fn marked(self, instrument: InstrumentId) -> Option<Position> {
        position_marked(self.booked(instrument), strmap::lookup(self.quotes, instrument@))
    }

    /// The state with another position for an instrument.
    pub open spec fn with_position(self, instrument: InstrumentId, p: Position) -> StateView {
        StateView { positions: strmap::put(self.positions, instrument.0, p), ..self }
    }

    /// The state with a fee added to what an instrument has cost.
    pub open spec fn with_fee(self, instrument: InstrumentId, fee: Decimal) -> Option<StateView> {
        if fee.m() == 0 {
            Some(self)
        } else {
            match decimal::plus(Some(self.booked(instrument).total_fees), Some(fee)) {
                Some(total_fees) => Some(
                    self.with_position(
                        instrument,
                        Position { total_fees, ..self.booked(instrument) },
                    ),
                ),
                None => None,
            }
        }
    }

    /// The health of an exchange; active where nothing is known.
    pub open spec fn health_of(self, instance: ExchangeInstance) -> ExchangeHealth {
        if self.health.contains_key(instance_key(instance)) {
            self.health[instance_key(instance)]
        } else {
            ExchangeHealth::Active
        }
    }

    /// The positions of the first `n` instruments at their quotes.
    pub open spec fn all_marked(self, n: nat) -> Option<Seq<(String, Position)>>
        decreases n,
    {
        if n == 0 {
            Some(Seq::empty())
        } else {
            let e = self.positions[n - 1];
            match (
                self.all_marked((n - 1) as nat),
                position_marked(e.1, strmap::lookup(self.quotes, e.0@)),
            ) {
                (Some(s), Some(p)) => Some(s.push((e.0, p))),
                _ => None,
            }
        }
    }
}

/// What is known of the markets and of what is held.
#[derive(Debug)]
pub struct EngineState {
    order_manager: OrderManager,
    inventory: InventoryLedger,
    quotes: StrMap<Quote>,
    positions: StrMap<Position>,
    instruments: StrMap<InstrumentMeta>,
    exchange_health: StrMap<ExchangeHealth>,
}

impl EngineState {
    /// The state as plain values.
    pub closed spec fn view(&self) -> StateView {
        StateView {
            orders: self.order_manager@,
            inventory: self.inventory@,
            quotes: self.quotes.list(),
            positions: self.positions.list(),
            instruments: self.instruments.list(),
            health: self.exchange_health@,
        }
    }

    /// Nothing known.
    pub fn new() -> (r: EngineState)
        ensures
            r@ == StateView::empty(),
    {
        let r = EngineState {
            order_manager: OrderManager::new(),
            inventory: InventoryLedger::new(),
            quotes: StrMap::new(),
            positions: StrMap::new(),
            instruments: StrMap::new(),
            exchange_health: StrMap::new(),
        };
        assert(r@.health =~= Map::empty());
        r
    }

    /// Makes an instrument known.
    pub fn register_instrument(&mut self, meta: InstrumentMeta)
        ensures
            final(self)@ == (StateView {
                instruments: strmap::put(old(self)@.instruments, meta.instrument_id.0, meta),
                ..old(self)@
            }),
    {
        self.instruments.insert(meta.instrument_id.0.clone(), meta);
    }

    /// Sets the quote of an instrument.
    pub fn update_quote(&mut self, quote: Quote)
        ensures
            final(self)@ == (StateView {
                quotes: strmap::put(old(self)@.quotes, quote.instrument.0, quote),
                ..old(self)@
            }),
    {
        self.quotes.insert(quote.instrument.0.clone(), quote);
    }

    /// Sets the health of an exchange.
    pub fn set_exchange_health(&mut self, instance: &ExchangeInstance, health: ExchangeHealth)
        ensures
            final(self)@ == (StateView {
                health: old(self)@.health.insert(instance_key(*instance), health),
                ..old(self)@
            }),
    {
        self.exchange_health.insert(key_of(instance), health);
    }

    /// The health of an exchange; active where nothing is known.
    pub fn exchange_health(&self, instance: &ExchangeInstance) -> (r: ExchangeHealth)
        ensures
            r == self@.health_of(*instance),
    {
        match self.exchange_health.get(key_of(instance).as_str()) {
            Some(h) => *h,
            None => ExchangeHealth::Active,
        }
    }

    /// The orders.
    pub fn order_manager(&self) -> (r: &OrderManager)
        ensures
            r@ == self@.orders,
    {
        &self.order_manager
    }

    /// The orders, to change them.
    pub fn order_manager_mut(&mut self) -> (r: &mut OrderManager)
        ensures
            r@ == old(self)@.orders,
            final(self)@ == (StateView { orders: final(r)@, ..old(self)@ }),
    {
        &mut self.order_manager
    }

    /// What is known of an instrument.
    pub fn instrument_meta(&self, instrument: &InstrumentId) -> (r: Option<&InstrumentMeta>)
        ensures
            r == (match strmap::lookup(self@.instruments, instrument@) {
                Some(m) => Some(&m),
                None => None,
            }),
    {
        self.instruments.get(instrument.as_str())
    }

    /// The balances.
    pub fn inventory(&self) -> (r: &InventoryLedger)
        ensures
            r@ == self@.inventory,
    {
        &self.inventory
    }

    /// The balances, to change them.
    pub fn inventory_mut(&mut self) -> (r: &mut InventoryLedger)
        ensures
            r@ == old(self)@.inventory,
            final(self)@ == (StateView { inventory: final(r)@, ..old(self)@ }),
    {
        &mut self.inventory
    }

    /// The quote of an instrument.
    pub fn quote(&self, instrument: &InstrumentId) -> (r: Option<&Quote>)
        ensures
            r == (match strmap::lookup(self@.quotes, instrument@) {
                Some(q) => Some(&q),
                None => None,
            }),
    {
        self.quotes.get(instrument.as_str())
    }

    /// What is held of an instrument, as last booked.
    pub fn booked_position(&self, instrument: &InstrumentId) -> (r: Position)
        ensures
            r == self@.booked(*instrument),
            strmap::distinct_keys(self@.positions),
    {
        let _n: usize = self.positions.len();
        match self.positions.get(instrument.as_str()) {
            Some(p) => *p,
            None => Position::default(),
        }
    }

    /// Books a fill on the position of an instrument. Changes nothing and says `false` where
    /// a step is too large.
    pub fn try_apply_position_fill(
        &mut self,
        instrument: &InstrumentId,
        side: OrderSide,
        qty: Qty,
        price: Price,
    ) -> (r: bool)
        ensures
            match position_filled(old(self)@.booked(*instrument), side, qty.0, price.0) {
                Some(p) => r && final(self)@ == old(self)@.with_position(*instrument, p),
                None => !r && final(self)@ == old(self)@,
            },
    {
        let before = self.booked_position(instrument);
        match fill_position(&before, side, qty, price) {
            Some(p) => {
                self.positions.insert(instrument.0.clone(), p);
                true
            },
            None => false,
        }
    }

    /// Books a fill on the position of an instrument.
    pub fn apply_position_fill(
        &mut self,
        instrument: &InstrumentId,
        side: OrderSide,
        qty: Qty,
        price: Price,
    )
        requires
            position_filled(old(self)@.booked(*instrument), side, qty.0, price.0) is Some,
        ensures
            final(self)@ == old(self)@.with_position(
                *instrument,
                position_filled(old(self)@.booked(*instrument), side, qty.0, price.0)->0,
            ),
    {
        let _done = self.try_apply_position_fill(instrument, side, qty, price);
    }

    /// Adds a fee to a position. Changes nothing and says `false` where the sum is too large.
    pub fn try_apply_fill_fee(&mut self, instrument: &InstrumentId, fee: Decimal) -> (r: bool)
        ensures
            match old(self)@.with_fee(*instrument, fee) {
                Some(after) => r && final(self)@ == after,
                None => !r && final(self)@ == old(self)@,
            },
    {
        if fee.is_zero() {
            return true;
        }
        let before = self.booked_position(instrument);
        match before.total_fees.checked_add(fee) {
            Some(total_fees) => {
                self.positions.insert(instrument.0.clone(), Position { total_fees, ..before });
                true
            },
            None => false,
        }
    }

    /// What is held of an instrument at its quote, where no step is too large.
    pub fn try_position(&self, instrument: &InstrumentId) -> (r: Option<Position>)
        ensures
            r == self@.marked(*instrument),
    {
        let p = self.booked_position(instrument);
        mark_position(&p, self.quotes.get(instrument.as_str()))
    }

    /// What is held of an instrument at its quote.
    pub fn position(&self, instrument: &InstrumentId) -> (r: Position)
        requires
            self@.marked(*instrument) is Some,
        ensures
            Some(r) == self@.marked(*instrument),
    {
        self.try_position(instrument).unwrap()
    }

    /// What is held of every instrument at its quote, where no step is too large.
    pub fn try_get_positions(&self) -> (r: Option<Vec<(String, Position)>>)
        ensures
            match self@.all_marked(self@.positions.len()) {
                Some(s) => r matches Some(v) && v@ == s,
                None => r is None,
            },
    {
        let n: usize = self.positions.len();
        let mut out: Vec<(String, Position)> = Vec::new();
        let mut failed = false;
        let mut i: usize = 0;
        while i < n
            invariant
                n == self.positions.list().len(),
                i <= n,
                failed ==> self@.all_marked(i as nat) is None,
                !failed ==> self@.all_marked(i as nat) == Some(out@),
            decreases n - i,
        {
            let e = self.positions.at(i);
            match mark_position(e.1, self.quotes.get(e.0.as_str())) {
                Some(p) => {
                    out.push((e.0.clone(), p));
                },
                None => {
                    failed = true;
                },
            }
            i = i + 1;
        }
        if failed {
            None
        } else {
            Some(out)
        }
    }

    /// What is held of every instrument at its quote.
    pub fn get_positions(&self) -> (r: Vec<(String, Position)>)
        requires
            self@.all_marked(self@.positions.len()) is Some,
        ensures
            Some(r@) == self@.all_marked(self@.positions.len()),
    {
        self.try_get_positions().unwrap()
    }

    /// Sets a position to what the exchange reports; what was realized and the fees stay.
    pub fn apply_snapshot(
        &mut self,
        instrument: &InstrumentId,
        qty: Decimal,
        avg_entry_px: Option<Price>,
        unrealized_pnl: Option<Decimal>,
    )
        ensures
            final(self)@ == old(self)@.with_position(
                *instrument,
                Position { qty, avg_entry_px, unrealized_pnl, ..old(self)@.booked(*instrument) },
            ),
    {
        let before = self.booked_position(instrument);
        self.positions.insert(
            instrument.0.clone(),
            Position { qty, avg_entry_px, unrealized_pnl, ..before },
        );
    }

}

/// A flat position has no entry price and no held profit; what was realized and the fees
/// outlive it.
pub proof fn law_flat_position_is_clear(p: Position, side: OrderSide, qty: Decimal, price: Decimal)
    ensures
        position_filled(p, side, qty, price) matches Some(q) ==> {
            &&& q.qty.m() == 0 ==> q.avg_entry_px is None && q.unrealized_pnl is None
            &&& q.total_fees == p.total_fees
            &&& !opposite(p.qty, signed(side, qty)) ==> q.realized_pnl == p.realized_pnl
        },
{
}

/// Buying and then selling the same quantity leaves nothing, and what it realizes is the
/// move of the price times the quantity.
pub proof fn law_round_trip(qty: Decimal, bought_at: Decimal, sold_at: Decimal)
    requires
        qty@.valid(),
        qty.m() > 0,
    ensures
        ({
            let opened = position_filled(Position::flat(), OrderSide::Buy, qty, bought_at);
            &&& opened == Some(
                (Position { qty, avg_entry_px: Some(Price(bought_at)), ..Position::flat() }),
            )
            &&& position_filled(opened->0, OrderSide::Sell, qty, sold_at) matches Some(closed) ==> {
                &&& closed.qty.m() == 0
                &&& Some(closed.realized_pnl) == decimal::plus(
                    Some(decimal::zero()),
                    decimal::times(
                        decimal::times(decimal::minus(Some(sold_at), Some(bought_at)), Some(qty)),
                        Some(decimal::one()),
                    ),
                )
            }
        }),
{
    broadcast use crate::decimal::lemma_of_view, crate::decimal::lemma_view_of;

    reveal(crate::decimal::sum_of);
    assert(decimal::zero()@ == (crate::decimal::DecimalView { mantissa: 0, scale: 0 }));
    assert(decimal::plus(Some(decimal::zero()), Some(qty)) == Some(qty));
    decimal::law_difference_with_itself(qty);
    assert(decimal::negated(qty)@ == (crate::decimal::DecimalView { mantissa: -qty.m(), scale: qty.s() }));
    assert(decimal::smaller(qty, qty) == qty);
}

} // verus!
