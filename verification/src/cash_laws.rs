//! What a fill conserves in a margin ledger: cash, quantity, and the other positions.
use vstd::prelude::*;
use crate::decimal;
use crate::margin;
use crate::strmap;
use crate::decimal::Decimal;
use crate::margin::{IsolatedPosition, LedgerView};
use crate::types::{InstrumentId, OrderSide};

verus! {

/// No step of a growing position is rounded.
pub open spec fn grows_exactly(
    p: IsolatedPosition,
    free: Decimal,
    signed_qty: Decimal,
    price: Decimal,
    leverage: Decimal,
) -> bool {
    &&& decimal::over(
        decimal::times(Some(price), Some(decimal::magnitude(signed_qty))),
        Some(leverage),
    ) matches Some(margin) && margin@.valid() && decimal::subtracts_exactly(free, margin)
        && decimal::adds_exactly(p.isolated_margin_reserved, margin)
    &&& decimal::adds_exactly(p.qty, signed_qty)
}

/// No step of closing part of a position, or all of it, is rounded. The share of the margin
/// that a part releases may be.
pub open spec fn shrinks_exactly(
    p: IsolatedPosition,
    free: Decimal,
    closing: Decimal,
    price: Decimal,
) -> bool {
    let held = decimal::magnitude(p.qty);
    let share = decimal::over(Some(closing), Some(held))->0;
    let released = decimal::times(Some(p.isolated_margin_reserved), Some(share))->0;
    let profit = margin::closing_profit(p, closing, price)->0;
    &&& decimal::units(closing) == decimal::units(held) ==> decimal::divides_exactly(closing, held)
        && decimal::multiplies_exactly(p.isolated_margin_reserved, share)
    &&& released@.valid()
    &&& margin::closing_profit(p, closing, price) is Some
    &&& profit@.valid()
    &&& decimal::subtracts_exactly(p.isolated_margin_reserved, released)
    &&& decimal::adds_exactly(released, profit)
    &&& decimal::adds_exactly(free, decimal::plus(Some(released), Some(profit))->0)
    &&& if p.qty.m() > 0 {
        decimal::subtracts_exactly(p.qty, closing)
    } else {
        decimal::adds_exactly(p.qty, closing)
    }
}

/// What a fill opens in the other direction.
pub open spec fn turned(signed_qty: Decimal, rest: Decimal) -> Decimal {
    if signed_qty.m() > 0 {
        rest
    } else {
        decimal::negated(rest)
    }
}

/// No step of a fill on a position is rounded.
pub open spec fn settles_exactly(
    p: IsolatedPosition,
    free: Decimal,
    signed_qty: Decimal,
    price: Decimal,
    leverage: Decimal,
) -> bool {
    if margin::grows(p.qty, signed_qty) {
        grows_exactly(p, free, signed_qty, price, leverage)
    } else {
        let size = decimal::magnitude(signed_qty);
        let closing = decimal::smaller(size, decimal::magnitude(p.qty));
        let rest = decimal::minus(Some(size), Some(closing))->0;
        &&& shrinks_exactly(p, free, closing, price)
        &&& decimal::subtracts_exactly(size, closing)
        &&& margin::reduced(p, Some(free), closing, price) matches Some(purse) ==> (rest.m() > 0
            ==> grows_exactly(purse.position, purse.free, turned(signed_qty, rest), price, leverage))
    }
}

/// The margins of the positions of a ledger.
pub open spec fn margins(v: LedgerView) -> Seq<Decimal> {
    v.positions.map_values(|e: (String, IsolatedPosition)| e.1.isolated_margin_reserved)
}

/// What is held of an instrument.
pub open spec fn held_qty(v: LedgerView, instrument: InstrumentId) -> Decimal {
    match v.position(instrument) {
        Some(p) => p.qty,
        None => decimal::zero(),
    }
}

/// No instrument is listed twice, and all numbers are within the limits.
pub open spec fn sound(v: LedgerView) -> bool {
    &&& strmap::distinct_keys(v.positions)
    &&& v.free@.valid()
    &&& forall|i: int|
        0 <= i < v.positions.len() ==> (#[trigger] v.positions[i]).1.qty@.valid()
            && v.positions[i].1.isolated_margin_reserved@.valid()
}

/// No step of a fill on a ledger is rounded, nor is a sum of margins before or after it.
pub open spec fn fills_exactly(
    v: LedgerView,
    instrument: InstrumentId,
    side: OrderSide,
    price: Decimal,
    qty: Decimal,
    fee: Decimal,
) -> bool {
    let s = v.settlement(instrument, side, price, qty, fee)->0;
    &&& decimal::subtracts_exactly(v.free, fee)
    &&& v.charged(instrument, fee) matches Some(p) ==> settles_exactly(
        p,
        decimal::minus(Some(v.free), Some(fee))->0,
        margin::signed_fill(side, qty),
        price,
        v.leverage_of(instrument),
    )
    &&& decimal::totals_exactly(margins(v))
    &&& decimal::totals_exactly(margins(v.with_purse(instrument, s.purse)))
}

proof fn lemma_grown(
    p: IsolatedPosition,
    free: Decimal,
    signed_qty: Decimal,
    price: Decimal,
    leverage: Decimal,
)
    requires
        p.qty@.valid(),
        p.isolated_margin_reserved@.valid(),
        free@.valid(),
        signed_qty@.valid(),
        grows_exactly(p, free, signed_qty, price, leverage),
        margin::increased(p, Some(free), signed_qty, price, leverage) is Some,
    ensures
        ({
            let purse = margin::increased(p, Some(free), signed_qty, price, leverage)->0;
            let n = purse.position;
            &&& purse.free@.valid()
            &&& n.qty@.valid()
            &&& n.isolated_margin_reserved@.valid()
            &&& decimal::units(purse.free) + decimal::units(n.isolated_margin_reserved)
                == decimal::units(free) + decimal::units(p.isolated_margin_reserved)
            &&& decimal::units(n.qty) == decimal::units(p.qty) + decimal::units(signed_qty)
        }),
{
    let margin = decimal::over(
        decimal::times(Some(price), Some(decimal::magnitude(signed_qty))),
        Some(leverage),
    )->0;
    decimal::law_exact_difference(free, margin);
    decimal::law_exact_sum(p.isolated_margin_reserved, margin);
    decimal::law_exact_sum(p.qty, signed_qty);
}

proof fn lemma_shrunk(p: IsolatedPosition, free: Decimal, closing: Decimal, price: Decimal)
    requires
        p.qty@.valid(),
        p.qty.m() != 0,
        p.isolated_margin_reserved@.valid(),
        free@.valid(),
        closing@.valid(),
        closing.m() > 0,
        decimal::units(closing) <= decimal::units(decimal::magnitude(p.qty)),
        shrinks_exactly(p, free, closing, price),
        margin::reduced(p, Some(free), closing, price) is Some,
    ensures
        ({
            let purse = margin::reduced(p, Some(free), closing, price)->0;
            let n = purse.position;
            let d: int = if p.qty.m() > 0 {
                -decimal::units(closing)
            } else {
                decimal::units(closing)
            };
            &&& purse.free@.valid()
            &&& n.qty@.valid()
            &&& n.isolated_margin_reserved@.valid()
            &&& decimal::units(purse.free) + decimal::units(n.isolated_margin_reserved)
                == decimal::units(free) + decimal::units(p.isolated_margin_reserved)
                + decimal::units(margin::closing_profit(p, closing, price)->0)
            &&& decimal::units(n.qty) == decimal::units(p.qty) + d
            &&& n.qty.m() == 0 ==> n.isolated_margin_reserved.m() == 0
        }),
{
    broadcast use crate::decimal::lemma_of_view;

    let held = decimal::magnitude(p.qty);
    let share = decimal::over(Some(closing), Some(held))->0;
    let released = decimal::times(Some(p.isolated_margin_reserved), Some(share))->0;
    let profit = margin::closing_profit(p, closing, price)->0;
    decimal::lemma_units_sign(p.qty);
    decimal::lemma_units_sign(closing);
    decimal::law_exact_difference(p.isolated_margin_reserved, released);
    decimal::law_exact_sum(released, profit);
    decimal::law_exact_sum(free, decimal::plus(Some(released), Some(profit))->0);
    if p.qty.m() > 0 {
        decimal::law_exact_difference(p.qty, closing);
    } else {
        decimal::law_exact_sum(p.qty, closing);
    }
    let n = (margin::reduced(p, Some(free), closing, price)->0).position;
    decimal::lemma_units_sign(n.qty);
    if n.qty.m() == 0 {
        decimal::lemma_whole_share(p.isolated_margin_reserved, closing, held);
    }
}

proof fn lemma_settled(
    p: IsolatedPosition,
    free: Decimal,
    signed_qty: Decimal,
    price: Decimal,
    leverage: Decimal,
)
    requires
        p.qty@.valid(),
        p.isolated_margin_reserved@.valid(),
        free@.valid(),
        signed_qty@.valid(),
        signed_qty.m() != 0,
        settles_exactly(p, free, signed_qty, price, leverage),
        margin::settled(p, Some(free), signed_qty, price, leverage) is Some,
    ensures
        ({
            let s = margin::settled(p, Some(free), signed_qty, price, leverage)->0;
            let n = s.purse.position;
            &&& s.purse.free@.valid()
            &&& n.qty@.valid()
            &&& n.isolated_margin_reserved@.valid()
            &&& decimal::units(s.purse.free) + decimal::units(n.isolated_margin_reserved)
                == decimal::units(free) + decimal::units(p.isolated_margin_reserved)
                + decimal::units(s.realized)
            &&& decimal::units(n.qty) == decimal::units(p.qty) + decimal::units(signed_qty)
            &&& n.qty.m() == 0 ==> n.isolated_margin_reserved.m() == 0
        }),
{
    decimal::lemma_units_sign(p.qty);
    decimal::lemma_units_sign(signed_qty);
    let s = margin::settled(p, Some(free), signed_qty, price, leverage)->0;
    if margin::grows(p.qty, signed_qty) {
        lemma_grown(p, free, signed_qty, price, leverage);
        decimal::lemma_units_sign(s.purse.position.qty);
    } else {
        let size = decimal::magnitude(signed_qty);
        let held = decimal::magnitude(p.qty);
        let closing = decimal::smaller(size, held);
        decimal::lemma_units_sign(size);
        decimal::lemma_units_sign(held);
        decimal::law_order_by_units(held, size);
        lemma_shrunk(p, free, closing, price);
        decimal::law_exact_difference(size, closing);
        let rest = decimal::minus(Some(size), Some(closing))->0;
        decimal::lemma_units_sign(rest);
        let purse = margin::reduced(p, Some(free), closing, price)->0;
        if rest.m() > 0 {
            let opposite = turned(signed_qty, rest);
            lemma_grown(purse.position, purse.free, opposite, price, leverage);
            decimal::lemma_units_sign(s.purse.position.qty);
        }
    }
}

/// The margins together after a position was set.
proof fn lemma_margins_put(v: LedgerView, instrument: InstrumentId, p: IsolatedPosition)
    requires
        sound(v),
        p.qty@.valid(),
        p.isolated_margin_reserved@.valid(),
    ensures
        ({
            let w = LedgerView {
                positions: strmap::put(v.positions, instrument.0, p),
                ..v
            };
            &&& sound(w)
            &&& decimal::units_total(margins(w)) == decimal::units_total(margins(v))
                - (match v.position(instrument) {
                Some(q) => decimal::units(q.isolated_margin_reserved),
                None => 0,
            }) + decimal::units(p.isolated_margin_reserved)
        }),
{
    let w = LedgerView { positions: strmap::put(v.positions, instrument.0, p), ..v };
    strmap::lemma_put(v.positions, instrument.0, p);
    strmap::lemma_map_of(v.positions, instrument@);
    strmap::lemma_key_index(v.positions, instrument@);
    let at = strmap::key_index(v.positions, instrument@);
    assert forall|i: int| 0 <= i < w.positions.len() implies (
    #[trigger] w.positions[i]).1.qty@.valid()
        && w.positions[i].1.isolated_margin_reserved@.valid() by {
        if i < v.positions.len() {
            assert(v.positions[i].1.qty@.valid());
        }
    }
    if at < v.positions.len() {
        assert(margins(w) =~= margins(v).update(at, p.isolated_margin_reserved));
        decimal::lemma_units_total_update(margins(v), at, p.isolated_margin_reserved);
    } else {
        assert(margins(w) =~= margins(v).push(p.isolated_margin_reserved));
        assert(margins(w).drop_last() =~= margins(v));
    }
}

/// A fill conserves cash, whether it opens a position, adds to it, closes part of it or all of
/// it, or turns it around: free cash and all margins together grow by the profit that is
/// realized and shrink by the fee. The quantity changes by what was filled, a flat position
/// keeps no margin, and no other position changes. This is so where no sum and no difference
/// is rounded.
pub proof fn law_fill_conserves_cash(
    v: LedgerView,
    instrument: InstrumentId,
    side: OrderSide,
    price: Decimal,
    qty: Decimal,
    fee: Decimal,
)
    requires
        sound(v),
        qty@.valid(),
        qty.m() > 0,
        fee@.valid(),
        v.settlement(instrument, side, price, qty, fee) is Some,
        fills_exactly(v, instrument, side, price, qty, fee),
    ensures
        ({
            let s = v.settlement(instrument, side, price, qty, fee)->0;
            let w = v.with_purse(instrument, s.purse);
            &&& sound(w)
            &&& v.reserved() is Some
            &&& w.reserved() is Some
            &&& decimal::units(w.free) + decimal::units(w.reserved()->0) == decimal::units(v.free)
                + decimal::units(v.reserved()->0) + decimal::units(s.realized) - decimal::units(fee)
            &&& decimal::units(held_qty(w, instrument)) == decimal::units(held_qty(v, instrument))
                + (match side {
                OrderSide::Buy => decimal::units(qty),
                OrderSide::Sell => -decimal::units(qty),
            })
            &&& held_qty(w, instrument).m() == 0 ==> (w.position(instrument) matches Some(p)
                && p.isolated_margin_reserved.m() == 0)
            &&& forall|other: InstrumentId|
                other@ != instrument@ ==> #[trigger] w.position(other) == v.position(other)
            &&& w.leverage == v.leverage
            &&& w.default_leverage == v.default_leverage
            &&& w.fee_rate == v.fee_rate
        }),
{
    broadcast use crate::decimal::lemma_of_view;

    let s = v.settlement(instrument, side, price, qty, fee)->0;
    let w = v.with_purse(instrument, s.purse);
    let p = v.charged(instrument, fee)->0;
    let free = decimal::minus(Some(v.free), Some(fee))->0;
    let signed_qty = margin::signed_fill(side, qty);
    decimal::lemma_units_sign(qty);
    decimal::lemma_units_sign(signed_qty);
    decimal::lemma_units_sign(decimal::zero());
    decimal::law_exact_difference(v.free, fee);
    // The position that the fill finds.
    strmap::lemma_map_of(v.positions, instrument@);
    strmap::lemma_key_index(v.positions, instrument@);
    if v.position(instrument) is Some {
        let at = strmap::key_index(v.positions, instrument@);
        assert(v.positions[at].1.qty@.valid());
    }
    assert(p.qty == held_qty(v, instrument));
    assert(p.qty@.valid() && p.isolated_margin_reserved@.valid());
    lemma_settled(p, free, signed_qty, price, v.leverage_of(instrument));
    // The ledger with the position that it leaves.
    lemma_margins_put(v, instrument, s.purse.position);
    strmap::lemma_put(v.positions, instrument.0, s.purse.position);
    let set = LedgerView {
        positions: strmap::put(v.positions, instrument.0, s.purse.position),
        ..v
    };
    assert(margins(w) == margins(set));
    assert(w.positions == set.positions);
    assert forall|i: int| 0 <= i < margins(v).len() implies (#[trigger] margins(v)[i])@.valid() by {
        assert(v.positions[i].1.isolated_margin_reserved@.valid());
    }
    assert forall|i: int| 0 <= i < margins(w).len() implies (#[trigger] margins(w)[i])@.valid() by {
        assert(set.positions[i].1.isolated_margin_reserved@.valid());
    }
    assert(sound(w)) by {
        assert forall|i: int| 0 <= i < w.positions.len() implies (
        #[trigger] w.positions[i]).1.qty@.valid()
            && w.positions[i].1.isolated_margin_reserved@.valid() by {
            assert(set.positions[i].1.qty@.valid());
        }
    }
    decimal::law_exact_total(margins(v));
    decimal::law_exact_total(margins(w));
    assert(w.position(instrument) == Some(s.purse.position));
}

} // verus!
