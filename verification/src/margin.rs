//! Isolated margin accounting for simulated perpetual futures.
//!
//! Every amount is a decimal number, and every step of arithmetic may be too large for
//! one. What an operation does is therefore stated as an `Option`: `None` where a step is
//! too large. An operation whose name begins with `try_` reports that; its counterpart
//! asks that it does not happen.
use vstd::prelude::*;
use vstd::string::*;
use crate::strmap;
use crate::decimal;
use crate::decimal::{Decimal, sum, difference, product, quotient, DecimalView, MAX_SCALE};
use crate::strmap::StrMap;
use crate::text::join3;
use crate::types::{InstrumentId, OrderSide, PositionSnapshot, Price};

verus! {

/// The position of one instrument with the margin set aside for it.
#[derive(Debug, Clone, Copy, PartialEq)]
pub struct IsolatedPosition {
    /// Long above zero, short below.
    pub qty: Decimal,
    /// The average entry price, weighted by quantity.
    pub avg_entry_px: Decimal,
    pub leverage: Decimal,
    /// What is locked as margin.
    pub isolated_margin_reserved: Decimal,
    /// One over the largest leverage.
    pub maintenance_margin_rate: Decimal,
    pub realized_pnl: Decimal,
    pub fee_paid: Decimal,
}

impl IsolatedPosition {
    /// Nothing held.
    pub open spec fn empty() -> IsolatedPosition {
        IsolatedPosition {
            qty: decimal::zero(),
            avg_entry_px: decimal::zero(),
            leverage: decimal::one(),
            isolated_margin_reserved: decimal::zero(),
            maintenance_margin_rate: decimal::one(),
            realized_pnl: decimal::zero(),
            fee_paid: decimal::zero(),
        }
    }

    /// The held profit at a mark price: quantity times mark less entry.
    pub open spec fn unrealized_of(self, mark: Decimal) -> Option<Decimal> {
        if self.qty.m() == 0 {
            Some(decimal::zero())
        } else {
            decimal::times(Some(self.qty), decimal::minus(Some(mark), Some(self.avg_entry_px)))
        }
    }

    /// One for a long position and minus one otherwise.
    pub open spec fn sign(self) -> Decimal {
        if self.qty.m() > 0 {
            decimal::one()
        } else {
            decimal::negated(decimal::one())
        }
    }

    /// `1 - rate * sign`.
    pub open spec fn liquidation_divisor(self) -> Option<Decimal> {
        decimal::minus(Some(decimal::one()), decimal::times(Some(self.maintenance_margin_rate), Some(self.sign())))
    }

    /// Margin less `|qty| * entry * rate`.
    pub open spec fn margin_available(self) -> Option<Decimal> {
        decimal::minus(
            Some(self.isolated_margin_reserved),
            decimal::times(
                decimal::times(Some(decimal::magnitude(self.qty)), Some(self.avg_entry_px)),
                Some(self.maintenance_margin_rate),
            ),
        )
    }

    /// `entry - sign * available / |qty| / divisor`; none for a flat position or a zero
    /// divisor. The outer `None` is arithmetic that is too large.
    pub open spec fn liquidation_of(self) -> Option<Option<Decimal>> {
        if self.qty.m() == 0 {
            Some(None)
        } else {
            match self.liquidation_divisor() {
                None => None,
                Some(d) => if d.m() == 0 {
                    Some(None)
                } else {
                    match decimal::minus(
                        Some(self.avg_entry_px),
                        decimal::over(
                            decimal::over(
                                decimal::times(Some(self.sign()), self.margin_available()),
                                Some(decimal::magnitude(self.qty)),
                            ),
                            Some(d),
                        ),
                    ) {
                        Some(p) => Some(Some(p)),
                        None => None,
                    }
                },
            }
        }
    }

    /// The mark has reached the liquidation price: from above for a long position, from
    /// below for a short one.
    pub open spec fn liquidated_at(self, mark: Decimal) -> Option<bool> {
        match self.liquidation_of() {
            None => None,
            Some(None) => Some(false),
            Some(Some(p)) => Some(
                if self.qty.m() > 0 {
                    decimal::le(mark, p)
                } else {
                    decimal::le(p, mark)
                },
            ),
        }
    }

    /// An order on that side makes the position smaller.
    pub open spec fn reduced_by(self, side: OrderSide) -> bool {
        match side {
            OrderSide::Buy => self.qty.m() < 0,
            OrderSide::Sell => self.qty.m() > 0,
        }
    }

    /// `notional / leverage + notional * fee_rate * 2`.
    pub open spec fn required_margin(
        notional: Option<Decimal>,
        leverage: Decimal,
        fee_rate: Decimal,
    ) -> Option<Decimal> {
        decimal::plus(
            decimal::over(notional, Some(leverage)),
            decimal::times(decimal::times(notional, Some(fee_rate)), Some(Decimal::lit(2, 0))),
        )
    }

    /// The held profit at a mark price, where no step is too large.
    pub fn try_unrealized_pnl(&self, mark_price: Decimal) -> (r: Option<Decimal>)
        ensures
            r == self.unrealized_of(mark_price),
    {
        if self.qty.is_zero() {
            Some(Decimal::zero())
        } else {
            product(Some(self.qty), difference(Some(mark_price), Some(self.avg_entry_px)))
        }
    }

    /// The held profit at a mark price.
    pub fn unrealized_pnl(&self, mark_price: Decimal) -> (r: Decimal)
        requires
            self.unrealized_of(mark_price) is Some,
        ensures
            Some(r) == self.unrealized_of(mark_price),
    {
        self.try_unrealized_pnl(mark_price).unwrap()
    }

    /// The liquidation price, where no step is too large.
    pub fn try_liquidation_price(&self) -> (r: Option<Option<Decimal>>)
        ensures
            r == self.liquidation_of(),
    {
        if self.qty.is_zero() {
            return Some(None);
        }
        let side_val = if self.qty.is_positive() {
            Decimal::one()
        } else {
            Decimal::one().negate()
        };
        let mmr = self.maintenance_margin_rate;
        match difference(Some(Decimal::one()), product(Some(mmr), Some(side_val))) {
            None => None,
            Some(d) => {
                if d.is_zero() {
                    return Some(None);
                }
                let available = difference(
                    Some(self.isolated_margin_reserved),
                    product(product(Some(self.qty.abs()), Some(self.avg_entry_px)), Some(mmr)),
                );
                match difference(
                    Some(self.avg_entry_px),
                    quotient(
                        quotient(product(Some(side_val), available), Some(self.qty.abs())),
                        Some(d),
                    ),
                ) {
                    Some(p) => Some(Some(p)),
                    None => None,
                }
            },
        }
    }

    /// The liquidation price.
    pub fn liquidation_price(&self) -> (r: Option<Decimal>)
        requires
            self.liquidation_of() is Some,
        ensures
            Some(r) == self.liquidation_of(),
    {
        self.try_liquidation_price().unwrap()
    }

    /// The margin that an order of this notional needs, where no step is too large.
    pub fn try_required_margin_for_order(
        notional: Decimal,
        leverage: Decimal,
        fee_rate: Decimal,
    ) -> (r: Option<Decimal>)
        ensures
            r == IsolatedPosition::required_margin(Some(notional), leverage, fee_rate),
    {
        sum(
            quotient(Some(notional), Some(leverage)),
            product(product(Some(notional), Some(fee_rate)), Some(Decimal::new(2, 0))),
        )
    }

    /// The margin that an order of this notional needs: the initial margin, and the fees
    /// of entry and exit.
    pub fn required_margin_for_order(
        notional: Decimal,
        leverage: Decimal,
        fee_rate: Decimal,
    ) -> (r: Decimal)
        requires
            IsolatedPosition::required_margin(Some(notional), leverage, fee_rate) is Some,
        ensures
            Some(r) == IsolatedPosition::required_margin(Some(notional), leverage, fee_rate),
    {
        IsolatedPosition::try_required_margin_for_order(notional, leverage, fee_rate).unwrap()
    }

    /// Whether the position is liquidated at a mark price, where no step is too large.
    pub fn try_is_liquidated(&self, mark_price: Decimal) -> (r: Option<bool>)
        ensures
            r == self.liquidated_at(mark_price),
    {
        match self.try_liquidation_price() {
            None => None,
            Some(None) => Some(false),
            Some(Some(p)) => Some(
                if self.qty.is_positive() {
                    mark_price.at_most(p)
                } else {
                    p.at_most(mark_price)
                },
            ),
        }
    }

    /// Whether the position is liquidated at a mark price.
    pub fn is_liquidated(&self, mark_price: Decimal) -> (r: bool)
        requires
            self.liquidated_at(mark_price) is Some,
        ensures
            Some(r) == self.liquidated_at(mark_price),
    {
        self.try_is_liquidated(mark_price).unwrap()
    }

    /// Whether an order on that side makes the position smaller.
    pub fn is_order_reducing(&self, order_side: OrderSide) -> (r: bool)
        ensures
            r == self.reduced_by(order_side),
    {
        match order_side {
            OrderSide::Buy => self.qty.is_negative(),
            OrderSide::Sell => self.qty.is_positive(),
        }
    }
}

impl Default for IsolatedPosition {
    fn default() -> (r: IsolatedPosition)
        ensures
            r == IsolatedPosition::empty(),
    {
        IsolatedPosition {
            qty: Decimal::zero(),
            avg_entry_px: Decimal::zero(),
            leverage: Decimal::one(),
            isolated_margin_reserved: Decimal::zero(),
            maintenance_margin_rate: Decimal::one(),
            realized_pnl: Decimal::zero(),
            fee_paid: Decimal::zero(),
        }
    }
}

/// One position and the free cash beside it.
pub struct Purse {
    pub position: IsolatedPosition,
    pub free: Decimal,
}

/// The purse after more of the same direction: `price * |qty| / leverage` moves from free
/// cash to margin, and the entry price becomes the weighted average.
pub open spec fn increased(
    position: IsolatedPosition,
    free: Option<Decimal>,
    signed_qty: Decimal,
    price: Decimal,
    leverage: Decimal,
) -> Option<Purse> {
    let margin = decimal::over(decimal::times(Some(price), Some(decimal::magnitude(signed_qty))), Some(leverage));
    let old_notional = decimal::times(Some(decimal::magnitude(position.qty)), Some(position.avg_entry_px));
    let new_notional = decimal::times(Some(decimal::magnitude(signed_qty)), Some(price));
    match (
        decimal::minus(free, margin),
        decimal::plus(Some(decimal::magnitude(position.qty)), Some(decimal::magnitude(signed_qty))),
        decimal::plus(Some(position.qty), Some(signed_qty)),
        decimal::plus(Some(position.isolated_margin_reserved), margin),
        old_notional,
        new_notional,
    ) {
        (Some(left), Some(total), Some(qty), Some(reserved), Some(_), Some(_)) => {
            let entry = if total.m() > 0 {
                decimal::over(decimal::plus(old_notional, new_notional), Some(total))
            } else {
                Some(position.avg_entry_px)
            };
            match entry {
                Some(avg_entry_px) => Some(
                    Purse {
                        position: IsolatedPosition {
                            qty,
                            avg_entry_px,
                            isolated_margin_reserved: reserved,
                            ..position
                        },
                        free: left,
                    },
                ),
                None => None,
            }
        },
        _ => None,
    }
}

/// The profit of closing `closing` of a position at a price.
pub open spec fn closing_profit(
    position: IsolatedPosition,
    closing: Decimal,
    price: Decimal,
) -> Option<Decimal> {
    decimal::times(
        if position.qty.m() > 0 {
            decimal::minus(Some(price), Some(position.avg_entry_px))
        } else {
            decimal::minus(Some(position.avg_entry_px), Some(price))
        },
        Some(closing),
    )
}

/// The margin that closing `closing` of a position sets free: its share of the position.
pub open spec fn released_margin(position: IsolatedPosition, closing: Decimal) -> Option<Decimal> {
    decimal::times(
        Some(position.isolated_margin_reserved),
        decimal::over(Some(closing), Some(decimal::magnitude(position.qty))),
    )
}

/// The purse after part of a position, or all of it, is closed: its share of the margin
/// and the profit go to free cash; a flat position keeps no entry price and no margin.
pub open spec fn reduced(
    position: IsolatedPosition,
    free: Option<Decimal>,
    closing: Decimal,
    price: Decimal,
) -> Option<Purse> {
    let profit = closing_profit(position, closing, price);
    let released = released_margin(position, closing);
    match (
        decimal::minus(Some(position.isolated_margin_reserved), released),
        if position.qty.m() > 0 {
            decimal::minus(Some(position.qty), Some(closing))
        } else {
            decimal::plus(Some(position.qty), Some(closing))
        },
        decimal::plus(free, decimal::plus(released, profit)),
        decimal::plus(Some(position.realized_pnl), profit),
    ) {
        (Some(reserved), Some(qty), Some(left), Some(realized_pnl)) => Some(
            Purse {
                position: IsolatedPosition {
                    qty,
                    avg_entry_px: if qty.m() == 0 {
                        decimal::zero()
                    } else {
                        position.avg_entry_px
                    },
                    isolated_margin_reserved: if qty.m() == 0 {
                        decimal::zero()
                    } else {
                        reserved
                    },
                    realized_pnl,
                    ..position
                },
                free: left,
            },
        ),
        _ => None,
    }
}

/// A purse after a fill, and the profit that the fill realized.
pub struct Settled {
    pub purse: Purse,
    pub realized: Decimal,
}

/// The fill with its sign: bought above zero, sold below.
pub open spec fn signed_fill(side: OrderSide, qty: Decimal) -> Decimal {
    match side {
        OrderSide::Buy => qty,
        OrderSide::Sell => decimal::negated(qty),
    }
}

/// The position grows: it is flat, or the fill has its direction.
pub open spec fn grows(old_qty: Decimal, signed_qty: Decimal) -> bool {
    ||| old_qty.m() == 0
    ||| old_qty.m() >= 0 && signed_qty.m() > 0
    ||| old_qty.m() <= 0 && signed_qty.m() < 0
}

/// A fill on a position whose fee is already taken: it grows, or is closed in part, or is
/// closed and opened in the other direction with what is left of the fill.
pub open spec fn settled(
    position: IsolatedPosition,
    free: Option<Decimal>,
    signed_qty: Decimal,
    price: Decimal,
    leverage: Decimal,
) -> Option<Settled> {
    if grows(position.qty, signed_qty) {
        match increased(position, free, signed_qty, price, leverage) {
            Some(purse) => Some(Settled { purse, realized: decimal::zero() }),
            None => None,
        }
    } else {
        let closing = decimal::smaller(decimal::magnitude(signed_qty), decimal::magnitude(position.qty));
        match (
            reduced(position, free, closing, price),
            closing_profit(position, closing, price),
            decimal::minus(Some(decimal::magnitude(signed_qty)), Some(closing)),
        ) {
            (Some(purse), Some(realized), Some(rest)) => if rest.m() > 0 {
                let opposite = if signed_qty.m() > 0 {
                    rest
                } else {
                    decimal::negated(rest)
                };
                match increased(purse.position, Some(purse.free), opposite, price, leverage) {
                    Some(purse) => Some(Settled { purse, realized }),
                    None => None,
                }
            } else {
                Some(Settled { purse, realized })
            },
            _ => None,
        }
    }
}

fn increase(
    position: IsolatedPosition,
    free: Option<Decimal>,
    signed_qty: Decimal,
    price: Decimal,
    leverage: Decimal,
) -> (r: Option<Purse>)
    ensures
        r == increased(position, free, signed_qty, price, leverage),
{
    let margin = quotient(product(Some(price), Some(signed_qty.abs())), Some(leverage));
    let old_notional = product(Some(position.qty.abs()), Some(position.avg_entry_px));
    let new_notional = product(Some(signed_qty.abs()), Some(price));
    match (
        difference(free, margin),
        sum(Some(position.qty.abs()), Some(signed_qty.abs())),
        sum(Some(position.qty), Some(signed_qty)),
        sum(Some(position.isolated_margin_reserved), margin),
        old_notional,
        new_notional,
    ) {
        (Some(left), Some(total), Some(qty), Some(reserved), Some(_), Some(_)) => {
            let entry = if total.is_positive() {
                quotient(sum(old_notional, new_notional), Some(total))
            } else {
                Some(position.avg_entry_px)
            };
            match entry {
                Some(avg_entry_px) => Some(
                    Purse {
                        position: IsolatedPosition {
                            qty,
                            avg_entry_px,
                            isolated_margin_reserved: reserved,
                            ..position
                        },
                        free: left,
                    },
                ),
                None => None,
            }
        },
        _ => None,
    }
}

fn profit_of_closing(position: IsolatedPosition, closing: Decimal, price: Decimal) -> (r: Option<
    Decimal,
>)
    ensures
        r == closing_profit(position, closing, price),
{
    product(
        if position.qty.is_positive() {
            difference(Some(price), Some(position.avg_entry_px))
        } else {
            difference(Some(position.avg_entry_px), Some(price))
        },
        Some(closing),
    )
}

fn reduce(
    position: IsolatedPosition,
    free: Option<Decimal>,
    closing: Decimal,
    price: Decimal,
) -> (r: Option<Purse>)
    ensures
        r == reduced(position, free, closing, price),
{
    let profit = profit_of_closing(position, closing, price);
    let released = product(
        Some(position.isolated_margin_reserved),
        quotient(Some(closing), Some(position.qty.abs())),
    );
    match (
        difference(Some(position.isolated_margin_reserved), released),
        if position.qty.is_positive() {
            difference(Some(position.qty), Some(closing))
        } else {
            sum(Some(position.qty), Some(closing))
        },
        sum(free, sum(released, profit)),
        sum(Some(position.realized_pnl), profit),
    ) {
        (Some(reserved), Some(qty), Some(left), Some(realized_pnl)) => {
            let flat = qty.is_zero();
            Some(
                Purse {
                    position: IsolatedPosition {
                        qty,
                        avg_entry_px: if flat {
                            Decimal::zero()
                        } else {
                            position.avg_entry_px
                        },
                        isolated_margin_reserved: if flat {
                            Decimal::zero()
                        } else {
                            reserved
                        },
                        realized_pnl,
                        ..position
                    },
                    free: left,
                },
            )
        },
        _ => None,
    }
}

fn settle(
    position: IsolatedPosition,
    free: Option<Decimal>,
    signed_qty: Decimal,
    price: Decimal,
    leverage: Decimal,
) -> (r: Option<Settled>)
    ensures
        r == settled(position, free, signed_qty, price, leverage),
{
    let old_qty = position.qty;
    if old_qty.is_zero() || (!old_qty.is_negative() && signed_qty.is_positive()) || (
    !old_qty.is_positive() && signed_qty.is_negative()) {
        match increase(position, free, signed_qty, price, leverage) {
            Some(purse) => Some(Settled { purse, realized: Decimal::zero() }),
            None => None,
        }
    } else {
        let closing = signed_qty.abs().min(old_qty.abs());
        match (
            reduce(position, free, closing, price),
            profit_of_closing(position, closing, price),
            difference(Some(signed_qty.abs()), Some(closing)),
        ) {
            (Some(purse), Some(realized), Some(rest)) => if rest.is_positive() {
                let opposite = if signed_qty.is_positive() {
                    rest
                } else {
                    rest.negate()
                };
                match increase(purse.position, Some(purse.free), opposite, price, leverage) {
                    Some(purse) => Some(Settled { purse, realized }),
                    None => None,
                }
            } else {
                Some(Settled { purse, realized })
            },
            _ => None,
        }
    }
}

/// What a ledger holds.
pub struct LedgerView {
    pub free: Decimal,
    /// The positions in the order in which they were first opened.
    pub positions: Seq<(String, IsolatedPosition)>,
    /// Chosen and largest leverage by instrument.
    pub leverage: Seq<(String, (Decimal, Decimal))>,
    pub default_leverage: Decimal,
    pub fee_rate: Decimal,
}

impl LedgerView {
    /// The position of an instrument.
    pub open spec fn position(self, instrument: InstrumentId) -> Option<IsolatedPosition> {
        strmap::lookup(self.positions, instrument@)
    }

    /// The chosen leverage of an instrument.
    pub open spec fn leverage_of(self, instrument: InstrumentId) -> Decimal {
        match strmap::lookup(self.leverage, instrument@) {
            Some(l) => l.0,
            None => self.default_leverage,
        }
    }

    /// The largest leverage of an instrument: the chosen one where none is set.
    pub open spec fn max_leverage_of(self, instrument: InstrumentId) -> Decimal {
        match strmap::lookup(self.leverage, instrument@) {
            Some(l) => l.1,
            None => self.default_leverage,
        }
    }

    /// The rate of maintenance margin: one over the largest leverage, and one where that is
    /// not positive.
    pub open spec fn maintenance_rate(self, instrument: InstrumentId) -> Option<Decimal> {
        if self.max_leverage_of(instrument).m() > 0 {
            decimal::over(Some(decimal::one()), Some(self.max_leverage_of(instrument)))
        } else {
            Some(decimal::one())
        }
    }

    /// The position that a fill finds: that of the instrument or an empty one, with the
    /// leverage of the instrument and the fee added.
    pub open spec fn charged(self, instrument: InstrumentId, fee: Decimal) -> Option<
        IsolatedPosition,
    > {
        let before = match self.position(instrument) {
            Some(p) => p,
            None => IsolatedPosition::empty(),
        };
        match (self.maintenance_rate(instrument), decimal::plus(Some(before.fee_paid), Some(fee))) {
            (Some(rate), Some(fee_paid)) => Some(
                IsolatedPosition {
                    leverage: self.leverage_of(instrument),
                    maintenance_margin_rate: rate,
                    fee_paid,
                    ..before
                },
            ),
            _ => None,
        }
    }

    /// What a fill makes of the position and of the free cash.
    pub open spec fn settlement(
        self,
        instrument: InstrumentId,
        side: OrderSide,
        price: Decimal,
        qty: Decimal,
        fee: Decimal,
    ) -> Option<Settled> {
        match self.charged(instrument, fee) {
            Some(p) => settled(
                p,
                decimal::minus(Some(self.free), Some(fee)),
                signed_fill(side, qty),
                price,
                self.leverage_of(instrument),
            ),
            None => None,
        }
    }

    /// The ledger with another purse for an instrument.
    pub open spec fn with_purse(self, instrument: InstrumentId, purse: Purse) -> LedgerView {
        LedgerView {
            free: purse.free,
            positions: strmap::put(self.positions, instrument.0, purse.position),
            ..self
        }
    }

    /// The margin of all positions.
    pub open spec fn reserved(self) -> Option<Decimal> {
        decimal::total(self.positions.map_values(|e: (String, IsolatedPosition)| e.1.isolated_margin_reserved))
    }

    /// The held profit of the first `n` positions; a position without a mark counts as zero.
    pub open spec fn unrealized(self, marks: Map<Seq<char>, Decimal>, n: nat) -> Option<Decimal>
        decreases n,
    {
        if n == 0 {
            Some(decimal::zero())
        } else {
            let e = self.positions[n - 1];
            decimal::plus(
                self.unrealized(marks, (n - 1) as nat),
                if marks.contains_key(e.0@) {
                    e.1.unrealized_of(marks[e.0@])
                } else {
                    Some(decimal::zero())
                },
            )
        }
    }

    /// Why free cash does not cover an order, where it does not; nothing where a step is too
    /// large.
    pub open spec fn uncovered(
        self,
        instrument: InstrumentId,
        side: OrderSide,
        price: Decimal,
        qty: Decimal,
        reduce_only: bool,
    ) -> Option<Option<Seq<char>>> {
        if self.needs_no_margin(instrument, side, reduce_only) {
            Some(None)
        } else {
            match self.needed(instrument, price, qty) {
                None => None,
                Some(required) => if decimal::lt(self.free, required) {
                    Some(
                        Some(
                            self.shortage_text(
                                required,
                                decimal::times(Some(price), Some(qty))->0,
                                self.leverage_of(instrument),
                            ),
                        ),
                    )
                } else {
                    Some(None)
                },
            }
        }
    }

    /// Free cash, margin and held profit together.
    pub open spec fn equity(self, marks: Map<Seq<char>, Decimal>) -> Option<Decimal> {
        decimal::plus(
            decimal::plus(Some(self.free), self.reserved()),
            self.unrealized(marks, self.positions.len()),
        )
    }

    /// The instruments among the first `n` positions that are liquidated at their marks.
    pub open spec fn liquidations(self, marks: Map<Seq<char>, Decimal>, n: nat) -> Option<
        Seq<InstrumentId>,
    >
        decreases n,
    {
        if n == 0 {
            Some(Seq::empty())
        } else {
            let e = self.positions[n - 1];
            match self.liquidations(marks, (n - 1) as nat) {
                None => None,
                Some(before) => if e.1.qty.m() == 0 || !marks.contains_key(e.0@) {
                    Some(before)
                } else {
                    match e.1.liquidated_at(marks[e.0@]) {
                        None => None,
                        Some(true) => Some(before.push(InstrumentId(e.0))),
                        Some(false) => Some(before),
                    }
                },
            }
        }
    }

    /// The report on one position at its mark.
    pub open spec fn snapshot(
        instrument: String,
        p: IsolatedPosition,
        marks: Map<Seq<char>, Decimal>,
    ) -> Option<PositionSnapshot> {
        let held = if marks.contains_key(instrument@) {
            p.unrealized_of(marks[instrument@])
        } else {
            Some(decimal::zero())
        };
        match (held, p.liquidation_of()) {
            (Some(u), Some(liquidation_px)) => Some(
                PositionSnapshot {
                    instrument: InstrumentId(instrument),
                    qty: p.qty,
                    avg_entry_px: if p.avg_entry_px.m() == 0 {
                        None
                    } else {
                        Some(Price(p.avg_entry_px))
                    },
                    unrealized_pnl: if marks.contains_key(instrument@) {
                        Some(u)
                    } else {
                        None
                    },
                    liquidation_px,
                },
            ),
            _ => None,
        }
    }

    /// The reports on those of the first `n` positions that are not flat.
    pub open spec fn snapshots(self, marks: Map<Seq<char>, Decimal>, n: nat) -> Option<
        Seq<PositionSnapshot>,
    >
        decreases n,
    {
        if n == 0 {
            Some(Seq::empty())
        } else {
            let e = self.positions[n - 1];
            match self.snapshots(marks, (n - 1) as nat) {
                None => None,
                Some(before) => if e.1.qty.m() == 0 {
                    Some(before)
                } else {
                    match LedgerView::snapshot(e.0, e.1, marks) {
                        None => None,
                        Some(s) => Some(before.push(s)),
                    }
                },
            }
        }
    }

    /// The order needs no margin: it only reduces, or the position shrinks by it.
    pub open spec fn needs_no_margin(
        self,
        instrument: InstrumentId,
        side: OrderSide,
        reduce_only: bool,
    ) -> bool {
        reduce_only || (self.position(instrument) matches Some(p) && p.reduced_by(side))
    }

    /// The margin that an order needs.
    pub open spec fn needed(self, instrument: InstrumentId, price: Decimal, qty: Decimal) -> Option<
        Decimal,
    > {
        IsolatedPosition::required_margin(
            decimal::times(Some(price), Some(qty)),
            self.leverage_of(instrument),
            self.fee_rate,
        )
    }

    /// Why an order is refused for want of margin.
    pub open spec fn shortage_text(
        self,
        required: Decimal,
        notional: Decimal,
        leverage: Decimal,
    ) -> Seq<char> {
        "Insufficient margin: need "@ + decimal::decimal_text(required@) + " USDC (notional="@
            + decimal::decimal_text(notional@) + ", leverage="@ + decimal::decimal_text(leverage@) + "x, fee_rate="@
            + decimal::decimal_text(self.fee_rate@) + "), have "@ + decimal::decimal_text(self.free@) + " free"@
    }
}

/// The positions of an account and its free cash.
#[derive(Debug)]
pub struct MarginLedger {
    free_usdc: Decimal,
    positions: StrMap<IsolatedPosition>,
    leverage_settings: StrMap<(Decimal, Decimal)>,
    default_leverage: Decimal,
    fee_rate: Decimal,
}

impl MarginLedger {
    /// What the ledger holds.
    pub closed spec fn view(&self) -> LedgerView {
        LedgerView {
            free: self.free_usdc,
            positions: self.positions.list(),
            leverage: self.leverage_settings.list(),
            default_leverage: self.default_leverage,
            fee_rate: self.fee_rate,
        }
    }

    /// A ledger with starting cash and no positions.
    pub fn new(starting_balance: Decimal, fee_rate: Decimal) -> (r: MarginLedger)
        ensures
            r@ == (LedgerView {
                free: starting_balance,
                positions: Seq::empty(),
                leverage: Seq::empty(),
                default_leverage: decimal::one(),
                fee_rate,
            }),
    {
        MarginLedger {
            free_usdc: starting_balance,
            positions: StrMap::new(),
            leverage_settings: StrMap::new(),
            default_leverage: Decimal::one(),
            fee_rate,
        }
    }

    /// Cash that is not locked.
    pub fn free_usdc(&self) -> (r: Decimal)
        ensures
            r == self@.free,
    {
        self.free_usdc
    }

    /// Sets the free cash.
    pub fn set_free_usdc(&mut self, amount: Decimal)
        ensures
            final(self)@ == (LedgerView { free: amount, ..old(self)@ }),
    {
        self.free_usdc = amount;
    }

    /// Adds to the free cash, and says whether the sum was not too large.
    pub fn try_adjust_free_usdc(&mut self, delta: Decimal) -> (r: bool)
        ensures
            r == (decimal::plus(Some(old(self)@.free), Some(delta)) is Some),
            r ==> final(self)@ == (LedgerView {
                free: decimal::plus(Some(old(self)@.free), Some(delta))->0,
                ..old(self)@
            }),
            !r ==> final(self)@ == old(self)@,
    {
        match self.free_usdc.checked_add(delta) {
            Some(f) => {
                self.free_usdc = f;
                true
            },
            None => false,
        }
    }

    /// Adds to the free cash.
    pub fn adjust_free_usdc(&mut self, delta: Decimal)
        requires
            decimal::plus(Some(old(self)@.free), Some(delta)) is Some,
        ensures
            final(self)@ == (LedgerView {
                free: decimal::plus(Some(old(self)@.free), Some(delta))->0,
                ..old(self)@
            }),
    {
        let _done = self.try_adjust_free_usdc(delta);
    }

    /// The fee rate.
    pub fn fee_rate(&self) -> (r: Decimal)
        ensures
            r == self@.fee_rate,
    {
        self.fee_rate
    }

    /// Sets the fee rate.
    pub fn set_fee_rate(&mut self, fee_rate: Decimal)
        ensures
            final(self)@ == (LedgerView { fee_rate, ..old(self)@ }),
    {
        self.fee_rate = fee_rate;
    }

    /// The position of an instrument.
    pub fn position(&self, instrument: &InstrumentId) -> (r: Option<&IsolatedPosition>)
        ensures
            r == (match self@.position(*instrument) {
                Some(p) => Some(&p),
                None => None,
            }),
    {
        self.positions.get(instrument.as_str())
    }

    /// The position of an instrument, to be changed in place.
    pub fn position_mut(&mut self, instrument: &InstrumentId) -> (r: Option<&mut IsolatedPosition>)
        ensures
            match r {
                Some(position) => {
                    &&& old(self)@.position(*instrument) == Some(*position)
                    &&& final(self)@ == (LedgerView {
                        positions: strmap::put(old(self)@.positions, instrument.0, *final(position)),
                        ..old(self)@
                    })
                },
                None => old(self)@.position(*instrument) is None && final(self)@ == old(self)@,
            },
    {
        self.positions.get_mut(instrument.as_str())
    }

    /// The chosen leverage of an instrument.
    pub fn leverage_for(&self, instrument: &InstrumentId) -> (r: Decimal)
        ensures
            r == self@.leverage_of(*instrument),
    {
        match self.leverage_settings.get(instrument.as_str()) {
            Some(l) => l.0,
            None => self.default_leverage,
        }
    }

    fn max_leverage_for(&self, instrument: &InstrumentId) -> (r: Decimal)
        ensures
            r == self@.max_leverage_of(*instrument),
    {
        match self.leverage_settings.get(instrument.as_str()) {
            Some(l) => l.1,
            None => self.default_leverage,
        }
    }

    /// The margin of all positions, where the sum is not too large.
    pub fn try_total_reserved_margin(&self) -> (r: Option<Decimal>)
        ensures
            r == self@.reserved(),
            strmap::distinct_keys(self@.positions),
    {
        let ghost all = self@.positions.map_values(
            |e: (String, IsolatedPosition)| e.1.isolated_margin_reserved,
        );
        let n: usize = self.positions.len();
        let mut acc = Some(Decimal::zero());
        let mut i: usize = 0;
        assert(all.subrange(0, 0) =~= Seq::empty());
        while i < n
            invariant
                n == self.positions.list().len(),
                i <= n,
                all == self@.positions.map_values(
                    |e: (String, IsolatedPosition)| e.1.isolated_margin_reserved,
                ),
                acc == decimal::total(all.subrange(0, i as int)),
            decreases n - i,
        {
            let e = self.positions.at(i);
            acc = sum(acc, Some(e.1.isolated_margin_reserved));
            assert(all.subrange(0, i + 1).drop_last() =~= all.subrange(0, i as int));
            i = i + 1;
        }
        assert(all.subrange(0, n as int) =~= all);
        acc
    }

    /// The margin of all positions.
    pub fn total_reserved_margin(&self) -> (r: Decimal)
        requires
            self@.reserved() is Some,
        ensures
            Some(r) == self@.reserved(),
    {
        self.try_total_reserved_margin().unwrap()
    }

    /// The held profit of all positions, where no step is too large.
    pub fn try_total_unrealized_pnl(&self, marks: &StrMap<Decimal>) -> (r: Option<Decimal>)
        ensures
            r == self@.unrealized(marks@, self@.positions.len()),
    {
        let n: usize = self.positions.len();
        let mut acc = Some(Decimal::zero());
        let mut i: usize = 0;
        while i < n
            invariant
                n == self.positions.list().len(),
                i <= n,
                acc == self@.unrealized(marks@, i as nat),
            decreases n - i,
        {
            let e = self.positions.at(i);
            let held = match marks.get(e.0.as_str()) {
                Some(mark) => e.1.try_unrealized_pnl(*mark),
                None => Some(Decimal::zero()),
            };
            acc = sum(acc, held);
            i = i + 1;
        }
        acc
    }

    /// The held profit of all positions.
    pub fn total_unrealized_pnl(&self, marks: &StrMap<Decimal>) -> (r: Decimal)
        requires
            self@.unrealized(marks@, self@.positions.len()) is Some,
        ensures
            Some(r) == self@.unrealized(marks@, self@.positions.len()),
    {
        self.try_total_unrealized_pnl(marks).unwrap()
    }

    /// Free cash, margin and held profit together, where no step is too large.
    pub fn try_equity(&self, marks: &StrMap<Decimal>) -> (r: Option<Decimal>)
        ensures
            r == self@.equity(marks@),
    {
        sum(
            sum(Some(self.free_usdc), self.try_total_reserved_margin()),
            self.try_total_unrealized_pnl(marks),
        )
    }

    /// Free cash, margin and held profit together.
    pub fn equity(&self, marks: &StrMap<Decimal>) -> (r: Decimal)
        requires
            self@.equity(marks@) is Some,
        ensures
            Some(r) == self@.equity(marks@),
    {
        self.try_equity(marks).unwrap()
    }

    /// The quantity held of an instrument.
    pub fn position_qty(&self, instrument: &InstrumentId) -> (r: Decimal)
        ensures
            r == (match self@.position(*instrument) {
                Some(p) => p.qty,
                None => decimal::zero(),
            }),
    {
        match self.positions.get(instrument.as_str()) {
            Some(p) => p.qty,
            None => Decimal::zero(),
        }
    }

    /// Sets the chosen and the largest leverage of an instrument, also on a position that
    /// is open. The rate of maintenance margin changes only where the largest leverage is
    /// positive. Changes nothing and says `false` where the rate is not a number.
    pub fn try_set_leverage(
        &mut self,
        instrument: &InstrumentId,
        leverage: Decimal,
        max_leverage: Decimal,
    ) -> (r: bool)
        ensures
            r == (leveraged(old(self)@, *instrument, leverage, max_leverage) is Some),
            final(self)@ == (match leveraged(old(self)@, *instrument, leverage, max_leverage) {
                Some(v) => v,
                None => old(self)@,
            }),
    {
        let found = match self.positions.get(instrument.as_str()) {
            Some(p) => Some(*p),
            None => None,
        };
        match found {
            Some(p) => {
                let rate = if max_leverage.is_positive() {
                    quotient(Some(Decimal::one()), Some(max_leverage))
                } else {
                    Some(p.maintenance_margin_rate)
                };
                match rate {
                    Some(maintenance_margin_rate) => {
                        self.leverage_settings.insert(
                            instrument.0.clone(),
                            (leverage, max_leverage),
                        );
                        self.positions.insert(
                            instrument.0.clone(),
                            IsolatedPosition { leverage, maintenance_margin_rate, ..p },
                        );
                        true
                    },
                    None => false,
                }
            },
            None => {
                self.leverage_settings.insert(instrument.0.clone(), (leverage, max_leverage));
                true
            },
        }
    }

    /// Sets the chosen and the largest leverage of an instrument.
    pub fn set_leverage(
        &mut self,
        instrument: &InstrumentId,
        leverage: Decimal,
        max_leverage: Decimal,
    )
        requires
            leveraged(old(self)@, *instrument, leverage, max_leverage) is Some,
        ensures
            Some(final(self)@) == leveraged(old(self)@, *instrument, leverage, max_leverage),
    {
        let _done = self.try_set_leverage(instrument, leverage, max_leverage);
    }

    /// Sets the leverage of instruments that have none of their own.
    pub fn set_default_leverage(&mut self, leverage: Decimal)
        ensures
            final(self)@ == (LedgerView { default_leverage: leverage, ..old(self)@ }),
    {
        self.default_leverage = leverage;
    }

    /// Whether free cash covers an order, or why not; `None` where a step is too large.
    pub fn try_check_margin_for_perp_order(
        &self,
        instrument: &InstrumentId,
        side: OrderSide,
        price: Decimal,
        qty: Decimal,
        reduce_only: bool,
    ) -> (r: Option<Result<(), String>>)
        ensures
            match self@.uncovered(*instrument, side, price, qty, reduce_only) {
                None => r is None,
                Some(None) => r == Some(Ok::<(), String>(())),
                Some(Some(t)) => r matches Some(Err(text)) && text@ == t,
            },
    {
        if reduce_only {
            return Some(Ok(()));
        }
        let is_reducing = match self.positions.get(instrument.as_str()) {
            Some(p) => p.is_order_reducing(side),
            None => false,
        };
        if is_reducing {
            return Some(Ok(()));
        }
        let leverage = self.leverage_for(instrument);
        match price.checked_mul(qty) {
            None => None,
            Some(notional) => match IsolatedPosition::try_required_margin_for_order(
                notional,
                leverage,
                self.fee_rate,
            ) {
                None => None,
                Some(required) => {
                    if self.free_usdc.below(required) {
                        let text = join3(
                            "Insufficient margin: need ",
                            required.to_string().as_str(),
                            " USDC (notional=",
                        ).concat(notional.to_string().as_str()).concat(", leverage=").concat(
                            leverage.to_string().as_str(),
                        ).concat("x, fee_rate=").concat(self.fee_rate.to_string().as_str()).concat(
                            "), have ",
                        ).concat(self.free_usdc.to_string().as_str()).concat(" free");
                        Some(Err(text))
                    } else {
                        Some(Ok(()))
                    }
                },
            },
        }
    }

    /// Whether free cash covers an order, or why not.
    pub fn check_margin_for_perp_order(
        &self,
        instrument: &InstrumentId,
        side: OrderSide,
        price: Decimal,
        qty: Decimal,
        reduce_only: bool,
    ) -> (r: Result<(), String>)
        requires
            self@.needs_no_margin(*instrument, side, reduce_only) || self@.needed(
                *instrument,
                price,
                qty,
            ) is Some,
        ensures
            match self@.uncovered(*instrument, side, price, qty, reduce_only)->0 {
                None => r is Ok,
                Some(t) => r matches Err(text) && text@ == t,
            },
            r is Ok <==> self@.needs_no_margin(*instrument, side, reduce_only) || decimal::le(
                self@.needed(*instrument, price, qty)->0,
                self@.free,
            ),
            r matches Err(text) ==> text@ == self@.shortage_text(
                self@.needed(*instrument, price, qty)->0,
                decimal::times(Some(price), Some(qty))->0,
                self@.leverage_of(*instrument),
            ),
    {
        self.try_check_margin_for_perp_order(instrument, side, price, qty, reduce_only).unwrap()
    }

    /// Applies a fill and gives the profit that it realized. Changes nothing and gives
    /// `None` where a step is too large.
    pub fn try_apply_perp_fill(
        &mut self,
        instrument: &InstrumentId,
        side: OrderSide,
        fill_price: Decimal,
        fill_qty: Decimal,
        fee_amount: Decimal,
    ) -> (r: Option<Decimal>)
        ensures
            match old(self)@.settlement(*instrument, side, fill_price, fill_qty, fee_amount) {
                Some(s) => r == Some(s.realized) && final(self)@ == old(self)@.with_purse(
                    *instrument,
                    s.purse,
                ),
                None => r is None && final(self)@ == old(self)@,
            },
    {
        let leverage = self.leverage_for(instrument);
        let max_leverage = self.max_leverage_for(instrument);
        let rate = if max_leverage.is_positive() {
            quotient(Some(Decimal::one()), Some(max_leverage))
        } else {
            Some(Decimal::one())
        };
        let signed_qty = match side {
            OrderSide::Buy => fill_qty,
            OrderSide::Sell => fill_qty.negate(),
        };
        let before = match self.positions.get(instrument.as_str()) {
            Some(p) => *p,
            None => IsolatedPosition::default(),
        };
        match (rate, sum(Some(before.fee_paid), Some(fee_amount))) {
            (Some(maintenance_margin_rate), Some(fee_paid)) => {
                let charged = IsolatedPosition {
                    leverage,
                    maintenance_margin_rate,
                    fee_paid,
                    ..before
                };
                match settle(
                    charged,
                    difference(Some(self.free_usdc), Some(fee_amount)),
                    signed_qty,
                    fill_price,
                    leverage,
                ) {
                    Some(s) => {
                        self.free_usdc = s.purse.free;
                        self.positions.insert(instrument.0.clone(), s.purse.position);
                        Some(s.realized)
                    },
                    None => None,
                }
            },
            _ => None,
        }
    }

    /// Applies a fill and gives the profit that it realized.
    pub fn apply_perp_fill(
        &mut self,
        instrument: &InstrumentId,
        side: OrderSide,
        fill_price: Decimal,
        fill_qty: Decimal,
        fee_amount: Decimal,
    ) -> (r: Decimal)
        requires
            old(self)@.settlement(*instrument, side, fill_price, fill_qty, fee_amount) is Some,
        ensures
            old(self)@.settlement(*instrument, side, fill_price, fill_qty, fee_amount) matches Some(
                s,
            ) && r == s.realized && final(self)@ == old(self)@.with_purse(*instrument, s.purse),
    {
        self.try_apply_perp_fill(instrument, side, fill_price, fill_qty, fee_amount).unwrap()
    }

    /// The instruments that are liquidated at their marks, where no step is too large.
    pub fn try_check_liquidations(&self, marks: &StrMap<Decimal>) -> (r: Option<Vec<InstrumentId>>)
        ensures
            match self@.liquidations(marks@, self@.positions.len()) {
                Some(s) => r matches Some(v) && v@ == s,
                None => r is None,
            },
    {
        let n: usize = self.positions.len();
        let mut out: Vec<InstrumentId> = Vec::new();
        let mut failed = false;
        let mut i: usize = 0;
        while i < n
            invariant
                n == self.positions.list().len(),
                i <= n,
                failed ==> self@.liquidations(marks@, i as nat) is None,
                !failed ==> self@.liquidations(marks@, i as nat) == Some(out@),
            decreases n - i,
        {
            let e = self.positions.at(i);
            if !failed && !e.1.qty.is_zero() {
                if let Some(mark) = marks.get(e.0.as_str()) {
                    match e.1.try_is_liquidated(*mark) {
                        None => {
                            failed = true;
                        },
                        Some(hit) => {
                            if hit {
                                out.push(InstrumentId(e.0.clone()));
                            }
                        },
                    }
                }
            }
            i = i + 1;
        }
        if failed {
            None
        } else {
            Some(out)
        }
    }

    /// The instruments that are liquidated at their marks.
    pub fn check_liquidations(&self, marks: &StrMap<Decimal>) -> (r: Vec<InstrumentId>)
        requires
            self@.liquidations(marks@, self@.positions.len()) is Some,
        ensures
            Some(r@) == self@.liquidations(marks@, self@.positions.len()),
    {
        self.try_check_liquidations(marks).unwrap()
    }

    /// Closes the position of an instrument at its mark, without a fee. Changes nothing and
    /// says `false` where a step is too large.
    pub fn try_liquidate(&mut self, instrument: &InstrumentId, mark_price: Decimal) -> (r: bool)
        ensures
            r == (wound_up(old(self)@, *instrument, mark_price) is Some),
            final(self)@ == (match wound_up(old(self)@, *instrument, mark_price) {
                Some(v) => v,
                None => old(self)@,
            }),
    {
        let qty = match self.positions.get(instrument.as_str()) {
            Some(p) => p.qty,
            None => Decimal::zero(),
        };
        if qty.is_zero() {
            return true;
        }
        let side = if qty.is_positive() {
            OrderSide::Sell
        } else {
            OrderSide::Buy
        };
        self.try_apply_perp_fill(
            instrument,
            side,
            mark_price,
            qty.abs(),
            Decimal::zero(),
        ).is_some()
    }

    /// Closes the position of an instrument at its mark, without a fee.
    pub fn liquidate(&mut self, instrument: &InstrumentId, mark_price: Decimal)
        requires
            wound_up(old(self)@, *instrument, mark_price) is Some,
        ensures
            Some(final(self)@) == wound_up(old(self)@, *instrument, mark_price),
    {
        let _done = self.try_liquidate(instrument, mark_price);
    }

    /// Reports on the positions that are not flat, where no step is too large.
    pub fn try_position_snapshots(&self, marks: &StrMap<Decimal>) -> (r: Option<
        Vec<PositionSnapshot>,
    >)
        ensures
            match self@.snapshots(marks@, self@.positions.len()) {
                Some(s) => r matches Some(v) && v@ == s,
                None => r is None,
            },
    {
        let n: usize = self.positions.len();
        let mut out: Vec<PositionSnapshot> = Vec::new();
        let mut failed = false;
        let mut i: usize = 0;
        while i < n
            invariant
                n == self.positions.list().len(),
                i <= n,
                failed ==> self@.snapshots(marks@, i as nat) is None,
                !failed ==> self@.snapshots(marks@, i as nat) == Some(out@),
            decreases n - i,
        {
            let e = self.positions.at(i);
            if !failed && !e.1.qty.is_zero() {
                let mark = marks.get(e.0.as_str());
                let held = match mark {
                    Some(m) => e.1.try_unrealized_pnl(*m),
                    None => Some(Decimal::zero()),
                };
                match (held, e.1.try_liquidation_price()) {
                    (Some(u), Some(liquidation_px)) => {
                        let known = mark.is_some();
                        out.push(
                            PositionSnapshot {
                                instrument: InstrumentId(e.0.clone()),
                                qty: e.1.qty,
                                avg_entry_px: if e.1.avg_entry_px.is_zero() {
                                    None
                                } else {
                                    Some(Price(e.1.avg_entry_px))
                                },
                                unrealized_pnl: if known {
                                    Some(u)
                                } else {
                                    None
                                },
                                liquidation_px,
                            },
                        );
                    },
                    _ => {
                        failed = true;
                    },
                }
            }
            i = i + 1;
        }
        if failed {
            None
        } else {
            Some(out)
        }
    }

    /// Reports on the positions that are not flat.
    pub fn position_snapshots(&self, marks: &StrMap<Decimal>) -> (r: Vec<PositionSnapshot>)
        requires
            self@.snapshots(marks@, self@.positions.len()) is Some,
        ensures
            Some(r@) == self@.snapshots(marks@, self@.positions.len()),
    {
        self.try_position_snapshots(marks).unwrap()
    }
}

/// The ledger with other leverage for an instrument.
pub open spec fn leveraged(
    v: LedgerView,
    instrument: InstrumentId,
    leverage: Decimal,
    max_leverage: Decimal,
) -> Option<LedgerView> {
    let set = LedgerView {
        leverage: strmap::put(v.leverage, instrument.0, (leverage, max_leverage)),
        ..v
    };
    match v.position(instrument) {
        None => Some(set),
        Some(p) => {
            let rate = if max_leverage.m() > 0 {
                decimal::over(Some(decimal::one()), Some(max_leverage))
            } else {
                Some(p.maintenance_margin_rate)
            };
            match rate {
                Some(maintenance_margin_rate) => Some(
                    LedgerView {
                        positions: strmap::put(
                            v.positions,
                            instrument.0,
                            IsolatedPosition { leverage, maintenance_margin_rate, ..p },
                        ),
                        ..set
                    },
                ),
                None => None,
            }
        },
    }
}

/// The ledger after the position of an instrument is closed at a price: as a fill of its
/// whole size on the other side, without a fee. A flat position is left as it is.
pub open spec fn wound_up(v: LedgerView, instrument: InstrumentId, mark: Decimal) -> Option<
    LedgerView,
> {
    match v.position(instrument) {
        Some(p) if p.qty.m() != 0 => {
            let side = if p.qty.m() > 0 {
                OrderSide::Sell
            } else {
                OrderSide::Buy
            };
            match v.settlement(instrument, side, mark, decimal::magnitude(p.qty), decimal::zero()) {
                Some(s) => Some(v.with_purse(instrument, s.purse)),
                None => None,
            }
        },
        _ => Some(v),
    }
}

/// A fill changes neither the positions of other instruments nor any setting.
pub proof fn law_fill_leaves_others(
    v: LedgerView,
    instrument: InstrumentId,
    other: InstrumentId,
    purse: Purse,
)
    requires
        strmap::distinct_keys(v.positions),
        other@ != instrument@,
    ensures
        v.with_purse(instrument, purse).position(other) == v.position(other),
        v.with_purse(instrument, purse).position(instrument) == Some(purse.position),
        v.with_purse(instrument, purse).leverage == v.leverage,
        v.with_purse(instrument, purse).default_leverage == v.default_leverage,
        v.with_purse(instrument, purse).fee_rate == v.fee_rate,
{
    strmap::lemma_put(v.positions, instrument.0, purse.position);
}

proof fn lemma_whole_close(p: IsolatedPosition, free: Option<Decimal>, price: Decimal, leverage: Decimal)
    requires
        p.qty@.valid(),
        p.qty.m() != 0,
    ensures
        ({
            let signed = if p.qty.m() > 0 {
                decimal::negated(decimal::magnitude(p.qty))
            } else {
                decimal::magnitude(p.qty)
            };
            settled(p, free, signed, price, leverage) matches Some(s) ==> {
                &&& s.purse.position.qty.m() == 0
                &&& s.purse.position.avg_entry_px == decimal::zero()
                &&& s.purse.position.isolated_margin_reserved == decimal::zero()
                &&& reduced(p, free, decimal::magnitude(p.qty), price) == Some(s.purse)
                &&& closing_profit(p, decimal::magnitude(p.qty), price) == Some(s.realized)
            }
        }),
{
    broadcast use crate::decimal::lemma_of_view, crate::decimal::lemma_view_of;

    let size = decimal::magnitude(p.qty);
    let minus_view = DecimalView { mantissa: -p.qty.m(), scale: p.qty.s() };
    assert(minus_view.valid());
    assert(decimal::negated(p.qty)@ == minus_view);
    assert(decimal::negated(decimal::negated(p.qty)) == p.qty);
    decimal::law_difference_with_itself(p.qty);
    decimal::law_difference_with_itself(size);
    let signed = if p.qty.m() > 0 {
        decimal::negated(size)
    } else {
        size
    };
    assert(decimal::magnitude(signed) == size);
    assert(decimal::smaller(size, size) == size);
    assert(!grows(p.qty, signed));
}

/// After a position is liquidated nothing is held, and no entry price and no margin are
/// left.
pub proof fn law_liquidation_leaves_flat(v: LedgerView, instrument: InstrumentId, mark: Decimal)
    requires
        strmap::distinct_keys(v.positions),
        v.position(instrument) matches Some(p) && p.qty@.valid() && p.qty.m() != 0,
    ensures
        wound_up(v, instrument, mark) matches Some(w) ==> (w.position(instrument) matches Some(p)
            && p.qty.m() == 0 && p.avg_entry_px == decimal::zero() && p.isolated_margin_reserved == decimal::zero()),
{
    if wound_up(v, instrument, mark) is Some {
        let p = v.charged(instrument, decimal::zero())->0;
        lemma_whole_close(
            p,
            decimal::minus(Some(v.free), Some(decimal::zero())),
            mark,
            v.leverage_of(instrument),
        );
        let s = v.settlement(
            instrument,
            if p.qty.m() > 0 {
                OrderSide::Sell
            } else {
                OrderSide::Buy
            },
            mark,
            decimal::magnitude(p.qty),
            decimal::zero(),
        )->0;
        strmap::lemma_put(v.positions, instrument.0, s.purse.position);
    }
}

/// A position that is opened takes the price of the fill as its entry price, where the
/// notional needs no rounding.
pub proof fn law_opening_entry_price(
    p: IsolatedPosition,
    free: Option<Decimal>,
    signed_qty: Decimal,
    price: Decimal,
    leverage: Decimal,
)
    requires
        p.qty == decimal::zero(),
        signed_qty@.valid(),
        signed_qty.m() != 0,
        price@.valid(),
        price.m() != 0,
        decimal::fits(signed_qty.m() * price.m()),
        signed_qty.s() + price.s() <= MAX_SCALE,
    ensures
        increased(p, free, signed_qty, price, leverage) matches Some(purse)
            ==> purse.position.avg_entry_px == price,
{
    broadcast use crate::decimal::lemma_of_view, crate::decimal::lemma_view_of;

    reveal(decimal::sum_of);
    reveal(decimal::product_of);
    reveal(decimal::quotient_of);
    let size = decimal::magnitude(signed_qty);
    let a = size.m();
    let b = price.m();
    assert(decimal::zero()@ == (DecimalView { mantissa: 0, scale: 0 }));
    assert(decimal::magnitude(decimal::zero()) == decimal::zero());
    assert(decimal::negated(signed_qty)@ == (DecimalView {
        mantissa: -signed_qty.m(),
        scale: signed_qty.s(),
    }));
    assert(a > 0);
    assert(decimal::fits(a * b)) by (nonlinear_arith)
        requires
            decimal::fits(signed_qty.m() * price.m()),
            a == signed_qty.m() || a == -signed_qty.m(),
            b == price.m(),
    ;
    assert(a * b != 0 && (a * b) % a == 0 && (a * b) / a == b) by {
        vstd::arithmetic::div_mod::lemma_mod_multiples_basic(b, a);
        vstd::arithmetic::div_mod::lemma_div_multiples_vanish(b, a);
        assert(b * a == a * b) by (nonlinear_arith);
        assert(a * b != 0) by (nonlinear_arith)
            requires
                a != 0,
                b != 0,
        ;
    }
    let notional = DecimalView { mantissa: a * b, scale: size.s() + price.s() };
    assert(decimal::times(Some(size), Some(price)) == Some(Decimal::of(notional)));
    assert(decimal::plus(Some(decimal::magnitude(p.qty)), Some(size)) == Some(size));
    assert(decimal::times(Some(decimal::magnitude(p.qty)), Some(p.avg_entry_px)) == Some(decimal::zero()));
    assert(decimal::plus(Some(decimal::zero()), Some(Decimal::of(notional))) == Some(Decimal::of(notional)));
    assert(decimal::over(Some(Decimal::of(notional)), Some(size)) == Some(price));
}

/// What a growing position takes as margin leaves free cash: the two together stay the
/// same, where neither step is rounded.
pub proof fn law_growth_conserves_cash(
    p: IsolatedPosition,
    free: Decimal,
    signed_qty: Decimal,
    price: Decimal,
    leverage: Decimal,
    margin: Decimal,
)
    requires
        free@.valid(),
        p.isolated_margin_reserved@.valid(),
        margin@.valid(),
        decimal::over(decimal::times(Some(price), Some(decimal::magnitude(signed_qty))), Some(leverage)) == Some(margin),
        decimal::subtracts_exactly(free, margin),
        decimal::adds_exactly(p.isolated_margin_reserved, margin),
    ensures
        increased(p, Some(free), signed_qty, price, leverage) matches Some(purse) ==> decimal::units(
            purse.free,
        ) + decimal::units(purse.position.isolated_margin_reserved) == decimal::units(free) + decimal::units(
            p.isolated_margin_reserved,
        ),
{
    decimal::law_exact_difference(free, margin);
    decimal::law_exact_sum(p.isolated_margin_reserved, margin);
}

/// Closing a whole position returns all of its margin and the profit to free cash, where
/// neither sum is rounded.
pub proof fn law_whole_close_returns_margin(
    p: IsolatedPosition,
    free: Decimal,
    price: Decimal,
    profit: Decimal,
)
    requires
        p.qty@.valid(),
        p.qty.m() != 0,
        free@.valid(),
        p.isolated_margin_reserved@.valid(),
        profit@.valid(),
        closing_profit(p, decimal::magnitude(p.qty), price) == Some(profit),
        decimal::adds_exactly(p.isolated_margin_reserved, profit),
        decimal::adds_exactly(free, decimal::plus(Some(p.isolated_margin_reserved), Some(profit))->0),
    ensures
        reduced(p, Some(free), decimal::magnitude(p.qty), price) matches Some(purse) ==> decimal::units(purse.free)
            == decimal::units(free) + decimal::units(p.isolated_margin_reserved) + decimal::units(profit),
{
    broadcast use crate::decimal::lemma_of_view, crate::decimal::lemma_view_of;

    reveal(decimal::product_of);
    reveal(decimal::quotient_of);
    reveal(decimal::sum_of);
    let size = decimal::magnitude(p.qty);
    let held = p.isolated_margin_reserved;
    assert(decimal::negated(p.qty)@ == (DecimalView { mantissa: -p.qty.m(), scale: p.qty.s() }));
    let a = size.m();
    vstd::arithmetic::div_mod::lemma_div_by_self(a);
    vstd::arithmetic::div_mod::lemma_mod_self_0(a);
    assert(decimal::over(Some(size), Some(size)) == Some(decimal::one()));
    assert(decimal::one()@ == (DecimalView { mantissa: 1, scale: 0 }));
    assert(decimal::zero()@ == (DecimalView { mantissa: 0, scale: 0 }));
    assert(held.m() * 1 == held.m());
    decimal::law_exact_sum(held, profit);
    let released = released_margin(p, size);
    if held.m() == 0 {
        assert(released == Some(decimal::zero()));
        assert(decimal::plus(released, Some(profit)) == Some(profit));
        assert(0 * decimal::pow10((28 - held.s()) as nat) == 0);
        assert(decimal::plus(Some(held), Some(profit)) == Some(profit));
    } else {
        assert(released == Some(held));
    }
    decimal::law_exact_sum(free, decimal::plus(Some(held), Some(profit))->0);
}

/// Closing part of a position moves cash and makes none: free cash and margin together grow by
/// the profit, where no step is rounded.
pub proof fn law_part_close_conserves_cash(
    p: IsolatedPosition,
    free: Decimal,
    closing: Decimal,
    price: Decimal,
    profit: Decimal,
    released: Decimal,
)
    requires
        free@.valid(),
        p.isolated_margin_reserved@.valid(),
        profit@.valid(),
        released@.valid(),
        closing_profit(p, closing, price) == Some(profit),
        released_margin(p, closing) == Some(released),
        decimal::subtracts_exactly(p.isolated_margin_reserved, released),
        decimal::adds_exactly(released, profit),
        decimal::adds_exactly(free, decimal::plus(Some(released), Some(profit))->0),
    ensures
        reduced(p, Some(free), closing, price) matches Some(purse) ==> (purse.position.qty.m() != 0
            ==> decimal::units(purse.free) + decimal::units(
            purse.position.isolated_margin_reserved,
        ) == decimal::units(free) + decimal::units(p.isolated_margin_reserved) + decimal::units(
            profit,
        )),
{
    decimal::law_exact_difference(p.isolated_margin_reserved, released);
    decimal::law_exact_sum(released, profit);
    decimal::law_exact_sum(free, decimal::plus(Some(released), Some(profit))->0);
}

/// A position that is turned around is closed whole and opened anew: free cash and margin
/// together grow by the profit of what was closed, where no step is rounded.
pub proof fn law_flip_conserves_cash(
    p: IsolatedPosition,
    free: Decimal,
    price: Decimal,
    profit: Decimal,
    opened: Decimal,
    leverage: Decimal,
    margin: Decimal,
)
    requires
        p.qty@.valid(),
        p.qty.m() != 0,
        free@.valid(),
        p.isolated_margin_reserved@.valid(),
        profit@.valid(),
        margin@.valid(),
        closing_profit(p, decimal::magnitude(p.qty), price) == Some(profit),
        decimal::adds_exactly(p.isolated_margin_reserved, profit),
        decimal::adds_exactly(free, decimal::plus(Some(p.isolated_margin_reserved), Some(profit))->0),
        reduced(p, Some(free), decimal::magnitude(p.qty), price) is Some,
        ({
            let flat = reduced(p, Some(free), decimal::magnitude(p.qty), price)->0;
            &&& flat.free@.valid()
            &&& decimal::over(
                decimal::times(Some(price), Some(decimal::magnitude(opened))),
                Some(leverage),
            ) == Some(margin)
            &&& decimal::subtracts_exactly(flat.free, margin)
        }),
    ensures
        ({
            let flat = reduced(p, Some(free), decimal::magnitude(p.qty), price)->0;
            increased(flat.position, Some(flat.free), opened, price, leverage) matches Some(purse)
                ==> decimal::units(purse.free) + decimal::units(
                purse.position.isolated_margin_reserved,
            ) == decimal::units(free) + decimal::units(p.isolated_margin_reserved)
                + decimal::units(profit)
        }),
{
    broadcast use crate::decimal::lemma_of_view;

    law_whole_close_returns_margin(p, free, price, profit);
    let flat = reduced(p, Some(free), decimal::magnitude(p.qty), price)->0;
    decimal::law_difference_with_itself(p.qty);
    assert(flat.position.isolated_margin_reserved == decimal::zero());
    law_growth_conserves_cash(flat.position, flat.free, opened, price, leverage, margin);
    assert(0 * decimal::pow10(28) == 0);
    assert(decimal::units(decimal::zero()) == 0);
}

/// The liquidation price is the price at which margin and unrealized profit together are just
/// the margin that must be maintained: `margin + qty * (price - entry) == rate * |qty| * price`,
/// where no step is rounded. (Each number is in its smallest units, so products of two carry one
/// power of ten more, and of three two.)
pub proof fn law_liquidation_price(
    p: IsolatedPosition,
    notional: Decimal,
    kept: Decimal,
    available: Decimal,
    signed: Decimal,
    share: Decimal,
    divisor: Decimal,
    away: Decimal,
    price: Decimal,
)
    requires
        p.qty.m() != 0,
        decimal::times(Some(decimal::magnitude(p.qty)), Some(p.avg_entry_px)) == Some(notional),
        decimal::multiplies_exactly(decimal::magnitude(p.qty), p.avg_entry_px),
        decimal::times(Some(notional), Some(p.maintenance_margin_rate)) == Some(kept),
        decimal::multiplies_exactly(notional, p.maintenance_margin_rate),
        p.margin_available() == Some(available),
        decimal::units(available) == decimal::units(p.isolated_margin_reserved) - decimal::units(
            kept,
        ),
        decimal::times(Some(p.sign()), Some(available)) == Some(signed),
        decimal::units(signed) == (if p.qty.m() > 0 {
            decimal::units(available)
        } else {
            -decimal::units(available)
        }),
        decimal::over(Some(signed), Some(decimal::magnitude(p.qty))) == Some(share),
        decimal::divides_exactly(signed, decimal::magnitude(p.qty)),
        p.liquidation_divisor() == Some(divisor),
        divisor.m() != 0,
        decimal::units(divisor) == decimal::pow10(28) - (if p.qty.m() > 0 {
            decimal::units(p.maintenance_margin_rate)
        } else {
            -decimal::units(p.maintenance_margin_rate)
        }),
        decimal::over(Some(share), Some(divisor)) == Some(away),
        decimal::divides_exactly(share, divisor),
        decimal::minus(Some(p.avg_entry_px), Some(away)) == Some(price),
        decimal::units(price) == decimal::units(p.avg_entry_px) - decimal::units(away),
    ensures
        p.liquidation_of() == Some(Some(price)),
        ({
            let k = decimal::pow10(28);
            let size = decimal::units(decimal::magnitude(p.qty));
            let held = if p.qty.m() > 0 {
                size
            } else {
                -size
            };
            let gain = held * (decimal::units(price) - decimal::units(p.avg_entry_px));
            k * (k * decimal::units(p.isolated_margin_reserved) + gain) == decimal::units(
                p.maintenance_margin_rate,
            ) * size * decimal::units(price)
        }),
{
    let k = decimal::pow10(28);
    let q = decimal::units(decimal::magnitude(p.qty));
    let e = decimal::units(p.avg_entry_px);
    let r = decimal::units(p.maintenance_margin_rate);
    let m = decimal::units(p.isolated_margin_reserved);
    let (n, t, a) = (decimal::units(notional), decimal::units(kept), decimal::units(available));
    let (x, d, y) = (decimal::units(share), decimal::units(divisor), decimal::units(away));
    let s: int = if p.qty.m() > 0 {
        1
    } else {
        -1
    };
    assert(s * a == decimal::units(signed)) by (nonlinear_arith)
        requires
            s == 1 && decimal::units(signed) == a || s == -1 && decimal::units(signed) == -a,
    ;
    assert(d == k - s * r) by (nonlinear_arith)
        requires
            s == 1 && d == k - r || s == -1 && d == k + r,
    ;
    lemma_liquidation(k, q, e, r, m, n, t, a, x, d, y, s);
    let price_units = decimal::units(price);
    assert(price_units == e - y);
    if s == 1 {
        assert(q * (price_units - e) == -(s * q * y)) by (nonlinear_arith)
            requires
                price_units == e - y,
                s == 1,
        ;
    } else {
        assert((-q) * (price_units - e) == -(s * q * y)) by (nonlinear_arith)
            requires
                price_units == e - y,
                s == -1,
        ;
    }
}

pub proof fn lemma_liquidation(
    k: int,
    q: int,
    e: int,
    r: int,
    m: int,
    n: int,
    t: int,
    a: int,
    x: int,
    d: int,
    y: int,
    s: int,
)
    requires
        s == 1 || s == -1,
        n * k == q * e,
        t * k == n * r,
        a == m - t,
        x * q == (s * a) * k,
        d == k - s * r,
        y * d == x * k,
    ensures
        k * (k * m + -(s * q * y)) == r * q * (e - y),
{
    // k*k*a == k*k*m - q*e*r, and y*q*s*d == k*k*a.
    assert(k * k * t == q * e * r) by (nonlinear_arith)
        requires
            n * k == q * e,
            t * k == n * r,
    ;
    assert(y * q * (s * d) == k * k * a) by (nonlinear_arith)
        requires
            x * q == (s * a) * k,
            y * d == x * k,
            s == 1 || s == -1,
    ;
    assert(s * d == s * k - r) by (nonlinear_arith)
        requires
            d == k - s * r,
            s == 1 || s == -1,
    ;
    let w = s * d;
    assert(y * q * w == y * q * (s * k) - y * q * r) by (nonlinear_arith)
        requires
            w == s * k - r,
    ;
    assert(k * k * a == k * k * m - k * k * t) by (nonlinear_arith)
        requires
            a == m - t,
    ;
    assert(k * (k * m + -(s * q * y)) == k * k * m - y * q * (s * k)) by (nonlinear_arith);
    assert(r * q * (e - y) == q * e * r - y * q * r) by (nonlinear_arith);
}

} // verus!
