//! Balances, and what of them is set aside for orders.
use vstd::prelude::*;
use crate::strmap;
use crate::decimal;
use crate::decimal::{Decimal, sum, difference, product};
use crate::strmap::StrMap;
use crate::types::{AssetId, Balance, ClientOrderId, Fee, OrderSide, Price, Qty, StrategyId};

verus! {

/// An amount of an asset set aside for an order.
#[derive(Debug)]
pub struct Reservation {
    pub asset: AssetId,
    pub amount: Decimal,
}

impl Clone for Reservation {
    fn clone(&self) -> (r: Reservation)
        ensures
            r == *self,
    {
        Reservation { asset: self.asset.clone(), amount: self.amount }
    }
}

/// What is held of an asset, and how much of it is set aside.
#[derive(Debug, Clone, Copy, PartialEq)]
pub struct AssetAccount {
    pub total: Decimal,
    pub reserved: Decimal,
}

impl AssetAccount {
    /// Nothing held.
    pub open spec fn empty() -> AssetAccount {
        AssetAccount { total: decimal::zero(), reserved: decimal::zero() }
    }

    /// What is not set aside.
    pub open spec fn available(self) -> Option<Decimal> {
        decimal::minus(Some(self.total), Some(self.reserved))
    }

    /// What is held, set aside and free.
    pub open spec fn balance(self) -> Option<Balance> {
        match self.available() {
            Some(available) => Some(
                Balance { total: self.total, available, reserved: self.reserved },
            ),
            None => None,
        }
    }

    /// The account with `amount` less set aside, but not less than nothing.
    pub open spec fn freed(self, amount: Option<Decimal>) -> Option<AssetAccount> {
        match decimal::minus(Some(self.reserved), amount) {
            Some(r) => Some(AssetAccount { reserved: decimal::larger(r, decimal::zero()), ..self }),
            None => None,
        }
    }

    fn free(&self, amount: Option<Decimal>) -> (r: Option<AssetAccount>)
        ensures
            r == self.freed(amount),
    {
        match difference(Some(self.reserved), amount) {
            Some(left) => Some(
                AssetAccount { reserved: left.max(Decimal::zero()), total: self.total },
            ),
            None => None,
        }
    }
}

/// Balances by asset.
pub type Accounts = Seq<(String, AssetAccount)>;

/// What a ledger holds.
pub struct InventoryView {
    pub accounts: Accounts,
    /// What is set aside, by order.
    pub reservations: Seq<(String, Vec<Reservation>)>,
    /// The budgets by strategy.
    pub allocations: Seq<(String, StrategyAllocation)>,
}

/// The account of an asset, or an empty one.
pub open spec fn account(s: Accounts, asset: AssetId) -> AssetAccount {
    match strmap::lookup(s, asset@) {
        Some(a) => a,
        None => AssetAccount::empty(),
    }
}

/// The accounts after a reservation is given back.
pub open spec fn given_back(s: Accounts, r: Reservation) -> Option<Accounts> {
    match strmap::lookup(s, r.asset@) {
        Some(a) => match a.freed(Some(r.amount)) {
            Some(a) => Some(strmap::put(s, r.asset.0, a)),
            None => None,
        },
        None => Some(s),
    }
}

/// The accounts after the reservations are given back one after the other.
pub open spec fn all_given_back(s: Accounts, rs: Seq<Reservation>) -> Option<Accounts>
    decreases rs.len(),
{
    if rs.len() == 0 {
        Some(s)
    } else {
        match all_given_back(s, rs.drop_last()) {
            Some(t) => given_back(t, rs.last()),
            None => None,
        }
    }
}

/// What a reservation sets free when a fraction of its order is filled.
pub open spec fn share(r: Reservation, fraction: Decimal) -> Option<Decimal> {
    decimal::times(Some(r.amount), Some(fraction))
}

/// The reservation that is left when a fraction of its order is filled.
pub open spec fn shrunk(r: Reservation, asset: AssetId, fraction: Decimal) -> Option<Reservation> {
    if r.asset@ == asset@ {
        match decimal::minus(Some(r.amount), share(r, fraction)) {
            Some(amount) => Some(Reservation { asset: r.asset, amount }),
            None => None,
        }
    } else {
        Some(r)
    }
}

/// Reservations, and the account of their asset.
pub struct Shrinking {
    pub reservations: Seq<Reservation>,
    pub account: Option<AssetAccount>,
}

/// The reservations of an order and the account of an asset after a fraction of the order is
/// filled.
pub open spec fn all_shrunk(
    rs: Seq<Reservation>,
    before: Option<AssetAccount>,
    asset: AssetId,
    fraction: Decimal,
) -> Option<Shrinking>
    decreases rs.len(),
{
    if rs.len() == 0 {
        Some(Shrinking { reservations: Seq::empty(), account: before })
    } else {
        match (
            all_shrunk(rs.drop_last(), before, asset, fraction),
            shrunk(rs.last(), asset, fraction),
        ) {
            (Some(s), Some(r)) => {
                let reservations = s.reservations.push(r);
                match s.account {
                    Some(a) if rs.last().asset@ == asset@ => match a.freed(
                        share(rs.last(), fraction),
                    ) {
                        Some(a) => Some(Shrinking { reservations, account: Some(a) }),
                        None => None,
                    },
                    _ => Some(Shrinking { reservations, account: s.account }),
                }
            },
            _ => None,
        }
    }
}

/// `amount` with the fee added where the fee is in `asset`.
pub open spec fn with_fee(amount: Option<Decimal>, fee: Fee, asset: AssetId) -> Option<Decimal> {
    if fee.asset@ == asset@ {
        decimal::plus(amount, Some(fee.amount))
    } else {
        amount
    }
}

/// `amount` with the fee taken off where the fee is in `asset`.
pub open spec fn less_fee(amount: Option<Decimal>, fee: Fee, asset: AssetId) -> Option<Decimal> {
    if fee.asset@ == asset@ {
        decimal::minus(amount, Some(fee.amount))
    } else {
        amount
    }
}

/// The accounts with `amount` more of an asset.
pub open spec fn credited(s: Accounts, asset: AssetId, amount: Option<Decimal>) -> Option<Accounts> {
    let a = account(s, asset);
    match decimal::plus(Some(a.total), amount) {
        Some(total) => Some(strmap::put(s, asset.0, AssetAccount { total, ..a })),
        None => None,
    }
}

/// The accounts with `amount` less of an asset, but not less than nothing.
pub open spec fn debited(s: Accounts, asset: AssetId, amount: Option<Decimal>) -> Option<Accounts> {
    let a = account(s, asset);
    match decimal::minus(Some(a.total), amount) {
        Some(total) => Some(
            strmap::put(s, asset.0, AssetAccount { total: decimal::larger(total, decimal::zero()), ..a }),
        ),
        None => None,
    }
}

/// `amount`, or zero where it is negative.
pub open spec fn not_negative(amount: Option<Decimal>) -> Option<Decimal> {
    match amount {
        Some(x) => Some(decimal::larger(x, decimal::zero())),
        None => None,
    }
}

/// The accounts after a fill. Buying adds the base asset and takes the quote asset, selling
/// the other way round; the fee is taken in its own asset.
pub open spec fn traded(
    s: Accounts,
    side: OrderSide,
    base: AssetId,
    quote: AssetId,
    qty: Decimal,
    price: Decimal,
    fee: Fee,
) -> Option<Accounts> {
    let notional = decimal::times(Some(qty), Some(price));
    match side {
        OrderSide::Buy => match credited(s, base, less_fee(Some(qty), fee, base)) {
            Some(t) => debited(t, quote, with_fee(notional, fee, quote)),
            None => None,
        },
        OrderSide::Sell => match debited(s, base, with_fee(Some(qty), fee, base)) {
            Some(t) => credited(t, quote, not_negative(less_fee(notional, fee, quote))),
            None => None,
        },
    }
}

/// The budgets of a strategy by asset.
#[derive(Debug)]
pub struct StrategyAllocation {
    pub strategy_id: StrategyId,
    pub budgets: StrMap<Decimal>,
}

/// Balances and reservations.
#[derive(Debug)]
pub struct InventoryLedger {
    balances: StrMap<AssetAccount>,
    order_reservations: StrMap<Vec<Reservation>>,
    strategy_allocations: StrMap<StrategyAllocation>,
}

fn copy_reservations(rs: &Vec<Reservation>) -> (r: Vec<Reservation>)
    ensures
        r@ == rs@,
{
    let mut out: Vec<Reservation> = Vec::new();
    let mut i: usize = 0;
    while i < rs.len()
        invariant
            i <= rs@.len(),
            out@ == rs@.subrange(0, i as int),
        decreases rs@.len() - i,
    {
        out.push(rs[i].clone());
        assert(out@ =~= rs@.subrange(0, i + 1));
        i = i + 1;
    }
    assert(rs@.subrange(0, rs@.len() as int) =~= rs@);
    out
}

impl InventoryView {
    /// No asset and no order is listed twice, and nothing less than nothing is set aside.
    pub open spec fn sound(self) -> bool {
        &&& strmap::distinct_keys(self.accounts)
        &&& strmap::distinct_keys(self.reservations)
        &&& forall|asset: AssetId|
            {
                let a = #[trigger] account(self.accounts, asset);
                a.reserved@.valid() && a.reserved.m() >= 0
            }
    }

    /// The ledger after what is set aside for an order was given back.
    pub open spec fn released(self, order_id: ClientOrderId) -> Option<InventoryView> {
        match all_given_back(self.accounts, self.reserved_for(order_id)) {
            Some(accounts) => Some(
                InventoryView {
                    accounts,
                    reservations: strmap::without(self.reservations, order_id@),
                    ..self
                },
            ),
            None => None,
        }
    }

    /// What is set aside for an order.
    pub open spec fn reserved_for(self, order_id: ClientOrderId) -> Seq<Reservation> {
        match strmap::lookup(self.reservations, order_id@) {
            Some(v) => v@,
            None => Seq::empty(),
        }
    }

    /// The budget of a strategy covers the amount, where it has one for the asset.
    pub open spec fn affords(self, strategy_id: StrategyId, asset: AssetId, amount: Decimal) -> bool {
        match strmap::lookup(self.allocations, strategy_id@) {
            Some(a) => match strmap::lookup(a.budgets.list(), asset@) {
                Some(budget) => decimal::le(amount, budget),
                None => true,
            },
            None => true,
        }
    }

    /// The funds do not cover the amount.
    pub open spec fn short(self, asset: AssetId, amount: Decimal) -> bool {
        account(self.accounts, asset).available() matches Some(a) && decimal::lt(a, amount)
    }

    /// The account after an amount is set aside.
    pub open spec fn account_reserved(self, asset: AssetId, amount: Decimal) -> Option<
        AssetAccount,
    > {
        let a = account(self.accounts, asset);
        match decimal::plus(Some(a.reserved), Some(amount)) {
            Some(reserved) => Some(AssetAccount { reserved, ..a }),
            None => None,
        }
    }

    /// The arithmetic of a reservation goes through.
    pub open spec fn can_reserve(self, asset: AssetId, amount: Decimal) -> bool {
        &&& account(self.accounts, asset).available() is Some
        &&& self.short(asset, amount) || self.account_reserved(asset, amount) is Some
    }

    /// The ledger after an attempt to reserve: the asset has an account from then on, and
    /// where the funds cover the amount it is set aside for the order.
    pub open spec fn reserves(
        self,
        order_id: ClientOrderId,
        asset: AssetId,
        amount: Decimal,
        after: InventoryView,
    ) -> bool {
        if self.short(asset, amount) {
            after == (InventoryView {
                accounts: strmap::put(self.accounts, asset.0, account(self.accounts, asset)),
                ..self
            })
        } else {
            &&& after.accounts == strmap::put(
                self.accounts,
                asset.0,
                self.account_reserved(asset, amount)->0,
            )
            &&& exists|v: Vec<Reservation>|
                after.reservations == #[trigger] strmap::put(self.reservations, order_id.0, v)
                    && v@ == self.reserved_for(order_id).push(Reservation { asset, amount })
            &&& after.reserved_for(order_id) == self.reserved_for(order_id).push(
                Reservation { asset, amount },
            )
            &&& forall|other: ClientOrderId|
                other@ != order_id@ ==> #[trigger] after.reserved_for(other) == self.reserved_for(
                    other,
                )
            &&& after.allocations == self.allocations
        }
    }
}

impl InventoryLedger {
    /// What the ledger holds.
    pub closed spec fn view(&self) -> InventoryView {
        InventoryView {
            accounts: self.balances.list(),
            reservations: self.order_reservations.list(),
            allocations: self.strategy_allocations.list(),
        }
    }

    /// An empty ledger.
    pub fn new() -> (r: InventoryLedger)
        ensures
            r@ == (InventoryView {
                accounts: Seq::empty(),
                reservations: Seq::empty(),
                allocations: Seq::empty(),
            }),
    {
        InventoryLedger {
            balances: StrMap::new(),
            order_reservations: StrMap::new(),
            strategy_allocations: StrMap::new(),
        }
    }

    fn account_of(&self, asset: &AssetId) -> (r: AssetAccount)
        ensures
            r == account(self@.accounts, *asset),
    {
        match self.balances.get(asset.as_str()) {
            Some(a) => *a,
            None => AssetAccount { total: Decimal::zero(), reserved: Decimal::zero() },
        }
    }

    /// Sets what is held of an asset.
    pub fn set_balance(&mut self, asset: &AssetId, total: Decimal)
        ensures
            final(self)@ == (InventoryView {
                accounts: strmap::put(
                    old(self)@.accounts,
                    asset.0,
                    AssetAccount { total, ..account(old(self)@.accounts, *asset) },
                ),
                ..old(self)@
            }),
    {
        let a = self.account_of(asset);
        self.balances.insert(asset.0.clone(), AssetAccount { total, reserved: a.reserved });
    }

    /// What is held of an asset, where the difference is not too large.
    pub fn try_balance(&self, asset: &AssetId) -> (r: Option<Balance>)
        ensures
            r == account(self@.accounts, *asset).balance(),
    {
        let a = self.account_of(asset);
        match a.total.checked_sub(a.reserved) {
            Some(available) => Some(
                Balance { total: a.total, available, reserved: a.reserved },
            ),
            None => None,
        }
    }

    /// What is held of an asset.
    pub fn balance(&self, asset: &AssetId) -> (r: Balance)
        requires
            account(self@.accounts, *asset).available() is Some,
        ensures
            r.total == account(self@.accounts, *asset).total,
            r.reserved == account(self@.accounts, *asset).reserved,
            Some(r.available) == account(self@.accounts, *asset).available(),
    {
        self.try_balance(asset).unwrap()
    }

    /// Sets an amount aside for an order and says whether the funds covered it. Changes
    /// nothing and gives `None` where a step is too large.
    pub fn try_reserve(&mut self, order_id: &ClientOrderId, asset: &AssetId, amount: Decimal) -> (r:
        Option<bool>)
        ensures
            r is Some <==> old(self)@.can_reserve(*asset, amount),
            r is None ==> final(self)@ == old(self)@,
            r matches Some(done) ==> done == !old(self)@.short(*asset, amount)
                && old(self)@.reserves(*order_id, *asset, amount, final(self)@),
    {
        let a = self.account_of(asset);
        let available = match a.total.checked_sub(a.reserved) {
            Some(x) => x,
            None => {
                return None;
            },
        };
        if available.below(amount) {
            self.balances.insert(asset.0.clone(), a);
            return Some(false);
        }
        let reserved = match a.reserved.checked_add(amount) {
            Some(x) => x,
            None => {
                return None;
            },
        };
        self.balances.insert(asset.0.clone(), AssetAccount { total: a.total, reserved });
        let mut rs = match self.order_reservations.get(order_id.as_str()) {
            Some(v) => copy_reservations(v),
            None => Vec::new(),
        };
        rs.push(Reservation { asset: asset.clone(), amount });
        let ghost kept = rs;
        self.order_reservations.insert(order_id.0.clone(), rs);
        proof {
            let before = old(self)@;
            let after = self@;
            assert(after.reservations == strmap::put(before.reservations, order_id.0, kept));
            assert(kept@ =~= before.reserved_for(*order_id).push(
                Reservation { asset: *asset, amount },
            ));
            assert(after.reserved_for(*order_id) =~= before.reserved_for(*order_id).push(
                Reservation { asset: *asset, amount },
            ));
            assert forall|other: ClientOrderId|
                other@ != order_id@ implies #[trigger] after.reserved_for(other)
                == before.reserved_for(other) by {}
        }
        Some(true)
    }

    /// Sets an amount aside for an order and says whether the funds covered it.
    pub fn reserve(&mut self, order_id: &ClientOrderId, asset: &AssetId, amount: Decimal) -> (r:
        bool)
        requires
            old(self)@.can_reserve(*asset, amount),
        ensures
            r == !old(self)@.short(*asset, amount),
            old(self)@.reserves(*order_id, *asset, amount, final(self)@),
    {
        self.try_reserve(order_id, asset, amount).unwrap()
    }

    /// Gives back what is set aside for an order. Changes nothing and says `false` where a
    /// step is too large.
    pub fn try_release_order(&mut self, order_id: &ClientOrderId) -> (r: bool)
        ensures
            match old(self)@.released(*order_id) {
                Some(after) => r && final(self)@ == after,
                None => !r && final(self)@ == old(self)@,
            },
    {
        let rs = match self.order_reservations.get(order_id.as_str()) {
            Some(v) => copy_reservations(v),
            None => Vec::new(),
        };
        assert(rs@ =~= old(self)@.reserved_for(*order_id));
        let mut next = self.balances.copy();
        let mut i: usize = 0;
        assert(rs@.subrange(0, 0) =~= Seq::empty());
        while i < rs.len()
            invariant
                i <= rs@.len(),
                rs@ == old(self)@.reserved_for(*order_id),
                *self == *old(self),
                all_given_back(old(self)@.accounts, rs@.subrange(0, i as int)) == Some(next.list()),
            decreases rs@.len() - i,
        {
            assert(rs@.subrange(0, i + 1).drop_last() =~= rs@.subrange(0, i as int));
            let found = match next.get(rs[i].asset.as_str()) {
                Some(a) => Some(*a),
                None => None,
            };
            if let Some(a) = found {
                match a.free(Some(rs[i].amount)) {
                    Some(b) => {
                        next.insert(rs[i].asset.0.clone(), b);
                    },
                    None => {
                        proof {
                            lemma_release_fails(old(self)@.accounts, rs@, i + 1);
                        }
                        return false;
                    },
                }
            }
            i = i + 1;
        }
        assert(rs@.subrange(0, rs@.len() as int) =~= rs@);
        self.balances = next;
        let _gone = self.order_reservations.remove(order_id.as_str());
        true
    }

    /// Gives back what is set aside for an order.
    pub fn release_order(&mut self, order_id: &ClientOrderId)
        requires
            old(self)@.released(*order_id) is Some,
        ensures
            Some(final(self)@) == old(self)@.released(*order_id),
    {
        let _done = self.try_release_order(order_id);
    }

    fn credit(next: &mut StrMap<AssetAccount>, asset: &AssetId, amount: Option<Decimal>) -> (r:
        bool)
        ensures
            match credited(old(next).list(), *asset, amount) {
                Some(s) => r && final(next).list() == s,
                None => !r,
            },
    {
        let a = match next.get(asset.as_str()) {
            Some(a) => *a,
            None => AssetAccount { total: Decimal::zero(), reserved: Decimal::zero() },
        };
        match sum(Some(a.total), amount) {
            Some(total) => {
                next.insert(asset.0.clone(), AssetAccount { total, reserved: a.reserved });
                true
            },
            None => false,
        }
    }

    fn debit(next: &mut StrMap<AssetAccount>, asset: &AssetId, amount: Option<Decimal>) -> (r: bool)
        ensures
            match debited(old(next).list(), *asset, amount) {
                Some(s) => r && final(next).list() == s,
                None => !r,
            },
    {
        let a = match next.get(asset.as_str()) {
            Some(a) => *a,
            None => AssetAccount { total: Decimal::zero(), reserved: Decimal::zero() },
        };
        match difference(Some(a.total), amount) {
            Some(total) => {
                next.insert(
                    asset.0.clone(),
                    AssetAccount { total: total.max(Decimal::zero()), reserved: a.reserved },
                );
                true
            },
            None => false,
        }
    }

    /// Books a fill. Changes nothing and says `false` where a step is too large.
    pub fn try_apply_fill(
        &mut self,
        side: OrderSide,
        base_asset: &AssetId,
        quote_asset: &AssetId,
        qty: Qty,
        price: Price,
        fee: &Fee,
    ) -> (r: bool)
        ensures
            match traded(
                old(self)@.accounts,
                side,
                *base_asset,
                *quote_asset,
                qty.0,
                price.0,
                *fee,
            ) {
                Some(accounts) => r && final(self)@ == (InventoryView { accounts, ..old(self)@ }),
                None => !r && final(self)@ == old(self)@,
            },
    {
        let notional = product(Some(qty.0), Some(price.0));
        let fee_in_base = fee.asset.same(base_asset);
        let fee_in_quote = fee.asset.same(quote_asset);
        let mut next = self.balances.copy();
        let done = match side {
            OrderSide::Buy => {
                let received = if fee_in_base {
                    difference(Some(qty.0), Some(fee.amount))
                } else {
                    Some(qty.0)
                };
                let paid = if fee_in_quote {
                    sum(notional, Some(fee.amount))
                } else {
                    notional
                };
                InventoryLedger::credit(&mut next, base_asset, received) && InventoryLedger::debit(
                    &mut next,
                    quote_asset,
                    paid,
                )
            },
            OrderSide::Sell => {
                let paid = if fee_in_base {
                    sum(Some(qty.0), Some(fee.amount))
                } else {
                    Some(qty.0)
                };
                let received = if fee_in_quote {
                    difference(notional, Some(fee.amount))
                } else {
                    notional
                };
                let received = match received {
                    Some(x) => Some(x.max(Decimal::zero())),
                    None => None,
                };
                InventoryLedger::debit(&mut next, base_asset, paid) && InventoryLedger::credit(
                    &mut next,
                    quote_asset,
                    received,
                )
            },
        };
        if done {
            self.balances = next;
        }
        done
    }

    /// Books a fill.
    pub fn apply_fill(
        &mut self,
        side: OrderSide,
        base_asset: &AssetId,
        quote_asset: &AssetId,
        qty: Qty,
        price: Price,
        fee: &Fee,
    )
        requires
            traded(
                old(self)@.accounts,
                side,
                *base_asset,
                *quote_asset,
                qty.0,
                price.0,
                *fee,
            ) is Some,
        ensures
            Some(final(self)@.accounts) == traded(
                old(self)@.accounts,
                side,
                *base_asset,
                *quote_asset,
                qty.0,
                price.0,
                *fee,
            ),
            final(self)@.reservations == old(self)@.reservations,
            final(self)@.allocations == old(self)@.allocations,
    {
        let _done = self.try_apply_fill(side, base_asset, quote_asset, qty, price, fee);
    }

    /// Gives back part of what is set aside for an order. Changes nothing and says `false`
    /// where a step is too large.
    pub fn try_partial_release(
        &mut self,
        order_id: &ClientOrderId,
        asset: &AssetId,
        filled_fraction: Decimal,
    ) -> (r: bool)
        ensures
            strmap::lookup(old(self)@.reservations, order_id@) is None ==> r && final(self)@ == old(self)@,
            strmap::lookup(old(self)@.reservations, order_id@) matches Some(v) ==> (match all_shrunk(
                v@,
                strmap::lookup(old(self)@.accounts, asset@),
                *asset,
                filled_fraction,
            ) {
                Some(s) => r && final(self)@.reserved_for(*order_id) == s.reservations
                    && final(self)@.accounts == (match s.account {
                    Some(a) => strmap::put(old(self)@.accounts, asset.0, a),
                    None => old(self)@.accounts,
                }) && final(self)@.allocations == old(self)@.allocations && (forall|
                    other: ClientOrderId,
                |
                    other@ != order_id@ ==> #[trigger] final(self)@.reserved_for(other) == old(self)@.reserved_for(other)),
                None => !r && final(self)@ == old(self)@,
            }),
    {
        let rs = match self.order_reservations.get(order_id.as_str()) {
            Some(v) => copy_reservations(v),
            None => {
                return true;
            },
        };
        let mut account = match self.balances.get(asset.as_str()) {
            Some(a) => Some(*a),
            None => None,
        };
        let ghost before = account;
        let mut out: Vec<Reservation> = Vec::new();
        let mut i: usize = 0;
        assert(rs@.subrange(0, 0) =~= Seq::empty());
        while i < rs.len()
            invariant
                i <= rs@.len(),
                *self == *old(self),
                before == strmap::lookup(old(self)@.accounts, asset@),
                strmap::lookup(old(self)@.reservations, order_id@) matches Some(v) && v@ == rs@,
                all_shrunk(rs@.subrange(0, i as int), before, *asset, filled_fraction) matches Some(
                    s,
                ) && s.reservations == out@ && s.account == account,
            decreases rs@.len() - i,
        {
            assert(rs@.subrange(0, i + 1).drop_last() =~= rs@.subrange(0, i as int));
            if rs[i].asset.same(asset) {
                let released = product(Some(rs[i].amount), Some(filled_fraction));
                let left = match difference(Some(rs[i].amount), released) {
                    Some(x) => x,
                    None => {
                        proof {
                            lemma_shrink_fails(rs@, i + 1, before, *asset, filled_fraction);
                        }
                        return false;
                    },
                };
                out.push(Reservation { asset: rs[i].asset.clone(), amount: left });
                if let Some(a) = account {
                    match a.free(released) {
                        Some(b) => {
                            account = Some(b);
                        },
                        None => {
                            proof {
                                lemma_shrink_fails(rs@, i + 1, before, *asset, filled_fraction);
                            }
                            return false;
                        },
                    }
                }
            } else {
                out.push(rs[i].clone());
            }
            i = i + 1;
        }
        assert(rs@.subrange(0, rs@.len() as int) =~= rs@);
        self.order_reservations.insert(order_id.0.clone(), out);
        if let Some(a) = account {
            self.balances.insert(asset.0.clone(), a);
        }
        true
    }

    /// Gives back part of what is set aside for an order.
    pub fn partial_release(
        &mut self,
        order_id: &ClientOrderId,
        asset: &AssetId,
        filled_fraction: Decimal,
    )
        requires
            strmap::lookup(old(self)@.reservations, order_id@) matches Some(v) ==> all_shrunk(
                v@,
                strmap::lookup(old(self)@.accounts, asset@),
                *asset,
                filled_fraction,
            ) is Some,
        ensures
            strmap::lookup(old(self)@.reservations, order_id@) is None ==> final(self)@ == old(self)@,
            strmap::lookup(old(self)@.reservations, order_id@) matches Some(v) ==> (all_shrunk(
                v@,
                strmap::lookup(old(self)@.accounts, asset@),
                *asset,
                filled_fraction,
            ) matches Some(s) && final(self)@.reserved_for(*order_id) == s.reservations && final(self)@.accounts == (match s.account {
                Some(a) => strmap::put(old(self)@.accounts, asset.0, a),
                None => old(self)@.accounts,
            })),
    {
        let _done = self.try_partial_release(order_id, asset, filled_fraction);
    }

    /// Sets the budgets of a strategy.
    pub fn set_allocation(&mut self, allocation: StrategyAllocation)
        ensures
            final(self)@ == (InventoryView {
                allocations: strmap::put(
                    old(self)@.allocations,
                    allocation.strategy_id.0,
                    allocation,
                ),
                ..old(self)@
            }),
    {
        self.strategy_allocations.insert(allocation.strategy_id.0.clone(), allocation);
    }

    /// Whether the budget of a strategy covers an amount. Without a budget there is no limit.
    pub fn check_strategy_budget(
        &self,
        strategy_id: &StrategyId,
        asset: &AssetId,
        amount: Decimal,
    ) -> (r: bool)
        ensures
            r == self@.affords(*strategy_id, *asset, amount),
    {
        match self.strategy_allocations.get(strategy_id.as_str()) {
            Some(a) => match a.budgets.get(asset.as_str()) {
                Some(budget) => amount.at_most(*budget),
                None => true,
            },
            None => true,
        }
    }
}

proof fn lemma_release_fails(s: Accounts, rs: Seq<Reservation>, n: int)
    requires
        0 <= n <= rs.len(),
        all_given_back(s, rs.subrange(0, n)) is None,
    ensures
        all_given_back(s, rs) is None,
    decreases rs.len() - n,
{
    if n == rs.len() {
        assert(rs.subrange(0, n) =~= rs);
    } else {
        assert(rs.subrange(0, n + 1).drop_last() =~= rs.subrange(0, n));
        lemma_release_fails(s, rs, n + 1);
    }
}

proof fn lemma_shrink_fails(
    rs: Seq<Reservation>,
    n: int,
    before: Option<AssetAccount>,
    asset: AssetId,
    fraction: Decimal,
)
    requires
        0 <= n <= rs.len(),
        all_shrunk(rs.subrange(0, n), before, asset, fraction) is None,
    ensures
        all_shrunk(rs, before, asset, fraction) is None,
    decreases rs.len() - n,
{
    if n == rs.len() {
        assert(rs.subrange(0, n) =~= rs);
    } else {
        assert(rs.subrange(0, n + 1).drop_last() =~= rs.subrange(0, n));
        lemma_shrink_fails(rs, n + 1, before, asset, fraction);
    }
}

impl Default for InventoryLedger {
    fn default() -> (r: InventoryLedger)
        ensures
            r@ == (InventoryView {
                accounts: Seq::empty(),
                reservations: Seq::empty(),
                allocations: Seq::empty(),
            }),
    {
        InventoryLedger::new()
    }
}

/// What is set aside for an order and then given back is available again: the account is
/// what it was, where neither step is rounded.
pub proof fn law_reservation_undone(a: AssetAccount, amount: Decimal)
    requires
        a.reserved@.valid(),
        amount@.valid(),
        a.reserved.m() >= 0,
        decimal::adds_exactly(a.reserved, amount),
        decimal::subtracts_exactly(decimal::plus(Some(a.reserved), Some(amount))->0, amount),
    ensures
        ({
            let set_aside = AssetAccount {
                reserved: decimal::plus(Some(a.reserved), Some(amount))->0,
                ..a
            };
            set_aside.freed(Some(amount)) matches Some(b) && b.total == a.total && decimal::units(b.reserved)
                == decimal::units(a.reserved)
        }),
{
    broadcast use crate::decimal::lemma_of_view;

    decimal::law_exact_sum(a.reserved, amount);
    let t = decimal::plus(Some(a.reserved), Some(amount))->0;
    decimal::law_exact_difference(t, amount);
    let left = decimal::minus(Some(t), Some(amount))->0;
    decimal::law_order_by_units(decimal::zero(), left);
    decimal::lemma_pow10_positive((28 - a.reserved.s()) as nat);
    decimal::lemma_pow10_positive(28);
    let (m, p) = (a.reserved.m(), decimal::pow10((28 - a.reserved.s()) as nat));
    assert(m * p >= 0) by (nonlinear_arith)
        requires
            m >= 0,
            p >= 1,
    ;
    assert(0 * decimal::pow10(28) == 0);
    assert(decimal::units(decimal::zero()) == 0);
}

/// What is set aside never changes what is held, and what is available and what is set
/// aside make up what is held, where the difference is not rounded.
pub proof fn law_balance_adds_up(a: AssetAccount)
    requires
        a.total@.valid(),
        a.reserved@.valid(),
        decimal::subtracts_exactly(a.total, a.reserved),
    ensures
        a.available() matches Some(x) && decimal::units(x) + decimal::units(a.reserved) == decimal::units(a.total),
{
    decimal::law_exact_difference(a.total, a.reserved);
}

/// Two amounts that are set aside one after the other can be given back in either order: the
/// account is what it was, where no step is rounded.
pub proof fn law_reservations_undone_in_any_order(a: AssetAccount, x: Decimal, y: Decimal)
    requires
        a.reserved@.valid(),
        x@.valid(),
        y@.valid(),
        a.reserved.m() >= 0,
        x.m() >= 0,
        y.m() >= 0,
        decimal::adds_exactly(a.reserved, x),
        ({
            let one = decimal::plus(Some(a.reserved), Some(x))->0;
            let both = decimal::plus(Some(one), Some(y))->0;
            let less_x = decimal::minus(Some(both), Some(x))->0;
            let less_y = decimal::minus(Some(both), Some(y))->0;
            &&& decimal::adds_exactly(one, y)
            &&& decimal::subtracts_exactly(both, x)
            &&& decimal::subtracts_exactly(both, y)
            &&& decimal::subtracts_exactly(less_x, y)
            &&& decimal::subtracts_exactly(less_y, x)
        }),
    ensures
        ({
            let one = decimal::plus(Some(a.reserved), Some(x))->0;
            let both = decimal::plus(Some(one), Some(y))->0;
            let set_aside = AssetAccount { reserved: both, ..a };
            &&& set_aside.freed(Some(x)) matches Some(b) && (b.freed(Some(y)) matches Some(c)
                && c.total == a.total && decimal::units(c.reserved) == decimal::units(a.reserved))
            &&& set_aside.freed(Some(y)) matches Some(b) && (b.freed(Some(x)) matches Some(c)
                && c.total == a.total && decimal::units(c.reserved) == decimal::units(a.reserved))
        }),
{
    decimal::law_exact_sum(a.reserved, x);
    let one = decimal::plus(Some(a.reserved), Some(x))->0;
    decimal::law_exact_sum(one, y);
    let both = decimal::plus(Some(one), Some(y))->0;
    let set_aside = AssetAccount { reserved: both, ..a };
    decimal::lemma_units_sign(a.reserved);
    decimal::lemma_units_sign(x);
    decimal::lemma_units_sign(y);
    lemma_freed(set_aside, x);
    lemma_freed(set_aside, y);
    lemma_freed(set_aside.freed(Some(x))->0, y);
    lemma_freed(set_aside.freed(Some(y))->0, x);
}

/// What is given back without rounding, and is not more than was set aside, is taken off.
proof fn lemma_freed(a: AssetAccount, amount: Decimal)
    requires
        a.reserved@.valid(),
        amount@.valid(),
        decimal::subtracts_exactly(a.reserved, amount),
        decimal::units(amount) <= decimal::units(a.reserved),
    ensures
        a.freed(Some(amount)) matches Some(b) && b.total == a.total && b.reserved@.valid()
            && (b.reserved == decimal::minus(Some(a.reserved), Some(amount))->0 || b.reserved.m()
            == 0) && decimal::units(b.reserved) == decimal::units(a.reserved) - decimal::units(
            amount,
        ),
{
    decimal::law_exact_difference(a.reserved, amount);
    let left = decimal::minus(Some(a.reserved), Some(amount))->0;
    broadcast use crate::decimal::lemma_of_view;

    decimal::lemma_units_sign(left);
    decimal::law_order_by_units(left, decimal::zero());
    decimal::law_order_by_units(decimal::zero(), left);
}

/// An amount is set aside for an order, and neither the funds are short nor is a step rounded.
pub open spec fn reserve_step(
    states: Seq<InventoryView>,
    order_id: ClientOrderId,
    rs: Seq<Reservation>,
    k: int,
) -> bool {
    let a = account(states[k].accounts, rs[k].asset);
    &&& rs[k].amount@.valid()
    &&& rs[k].amount.m() >= 0
    &&& states[k].can_reserve(rs[k].asset, rs[k].amount)
    &&& !states[k].short(rs[k].asset, rs[k].amount)
    &&& decimal::adds_exactly(a.reserved, rs[k].amount)
    &&& states[k].reserves(order_id, rs[k].asset, rs[k].amount, states[k + 1])
}

/// No step of giving the reservations back is rounded.
pub open spec fn gives_back_exactly(s: Accounts, rs: Seq<Reservation>) -> bool
    decreases rs.len(),
{
    rs.len() > 0 ==> gives_back_exactly(s, rs.drop_last()) && (all_given_back(
        s,
        rs.drop_last(),
    ) matches Some(t) ==> decimal::subtracts_exactly(
        account(t, rs.last().asset).reserved,
        rs.last().amount,
    ))
}

/// What the reservations set aside of an asset, in units.
pub open spec fn set_aside(rs: Seq<Reservation>, asset: AssetId) -> int
    decreases rs.len(),
{
    if rs.len() == 0 {
        0
    } else {
        set_aside(rs.drop_last(), asset) + (if rs.last().asset@ == asset@ {
            decimal::units(rs.last().amount)
        } else {
            0
        })
    }
}

proof fn lemma_set_aside_grows(rs: Seq<Reservation>, asset: AssetId, n: int)
    requires
        0 <= n <= rs.len(),
        forall|i: int|
            0 <= i < rs.len() ==> (#[trigger] rs[i]).amount@.valid() && rs[i].amount.m() >= 0,
    ensures
        0 <= set_aside(rs.subrange(0, n), asset) <= set_aside(rs, asset),
        n < rs.len() && rs[n].asset@ == asset@ ==> set_aside(rs.subrange(0, n), asset)
            + decimal::units(rs[n].amount) <= set_aside(rs, asset),
    decreases rs.len(),
{
    if rs.len() > 0 {
        let rest = rs.drop_last();
        let last = rs.last();
        assert forall|i: int| 0 <= i < rest.len() implies (#[trigger] rest[i]).amount@.valid()
            && rest[i].amount.m() >= 0 by {
            assert(rest[i] == rs[i]);
        }
        assert(rs[rs.len() - 1] == last);
        decimal::lemma_units_sign(last.amount);
        if n < rs.len() {
            lemma_set_aside_grows(rest, asset, n);
            assert(rest.subrange(0, n) =~= rs.subrange(0, n));
            if n == rest.len() {
                assert(rs.subrange(0, n) =~= rest);
            } else {
                assert(rest[n] == rs[n]);
            }
        } else {
            lemma_set_aside_grows(rest, asset, rest.len() as int);
            assert(rest.subrange(0, rest.len() as int) =~= rest);
            assert(rs.subrange(0, n) =~= rs);
        }
    } else {
        assert(rs.subrange(0, n) =~= rs);
    }
}

/// The account of every asset after one of them was set.
proof fn lemma_account_put(s: Accounts, asset: AssetId, a: AssetAccount, other: AssetId)
    requires
        strmap::distinct_keys(s),
    ensures
        strmap::distinct_keys(strmap::put(s, asset.0, a)),
        account(strmap::put(s, asset.0, a), other) == (if other@ == asset@ {
            a
        } else {
            account(s, other)
        }),
{
    strmap::lemma_put(s, asset.0, a);
}

/// While amounts are set aside for an order, its list and the accounts grow by them.
proof fn lemma_reserved(
    v: InventoryView,
    states: Seq<InventoryView>,
    order_id: ClientOrderId,
    rs: Seq<Reservation>,
    k: int,
)
    requires
        v.sound(),
        v.reserved_for(order_id).len() == 0,
        states.len() == rs.len() + 1,
        states[0] == v,
        forall|i: int| 0 <= i < rs.len() ==> #[trigger] reserve_step(states, order_id, rs, i),
        0 <= k < states.len(),
    ensures
        states[k].sound(),
        states[k].allocations == v.allocations,
        states[k].reserved_for(order_id) == rs.subrange(0, k),
        forall|other: ClientOrderId|
            other@ != order_id@ ==> #[trigger] states[k].reserved_for(other) == v.reserved_for(
                other,
            ),
        forall|asset: AssetId|
            {
                let a = #[trigger] account(states[k].accounts, asset);
                &&& a.total == account(v.accounts, asset).total
                &&& decimal::units(a.reserved) == decimal::units(account(v.accounts, asset).reserved)
                    + set_aside(rs.subrange(0, k), asset)
            },
        forall|i: int|
            0 <= i < k ==> strmap::map_of(states[k].accounts).contains_key((#[trigger] rs[i]).asset@),
    decreases k,
{
    if k == 0 {
        assert(rs.subrange(0, 0) =~= v.reserved_for(order_id));
    } else {
        lemma_reserved(v, states, order_id, rs, k - 1);
        assert(reserve_step(states, order_id, rs, k - 1));
        let (u, w) = (states[k - 1], states[k]);
        let (asset, amount) = (rs[k - 1].asset, rs[k - 1].amount);
        let a = account(u.accounts, asset);
        decimal::law_exact_sum(a.reserved, amount);
        decimal::lemma_units_sign(a.reserved);
        decimal::lemma_units_sign(amount);
        let b = u.account_reserved(asset, amount)->0;
        decimal::lemma_units_sign(b.reserved);
        let list = choose|list: Vec<Reservation>|
            w.reservations == #[trigger] strmap::put(u.reservations, order_id.0, list) && list@
                == u.reserved_for(order_id).push(Reservation { asset, amount });
        strmap::lemma_put(u.reservations, order_id.0, list);
        strmap::lemma_put(u.accounts, asset.0, b);
        assert(rs.subrange(0, k).drop_last() =~= rs.subrange(0, k - 1));
        assert(rs.subrange(0, k).last() == rs[k - 1]);
        assert(rs.subrange(0, k) =~= rs.subrange(0, k - 1).push(rs[k - 1]));
        assert(rs[k - 1] == Reservation { asset, amount });
        assert forall|other: AssetId|
            {
                let c = #[trigger] account(w.accounts, other);
                &&& c.reserved@.valid()
                &&& c.reserved.m() >= 0
                &&& c.total == account(v.accounts, other).total
                &&& decimal::units(c.reserved) == decimal::units(
                    account(v.accounts, other).reserved,
                ) + set_aside(rs.subrange(0, k), other)
            } by {
            lemma_account_put(u.accounts, asset, b, other);
            let c = account(u.accounts, other);
            assert(c.reserved@.valid());
            if other@ == asset@ {
                assert(account(u.accounts, other) == a);
            }
        }
        assert forall|i: int| 0 <= i < k implies strmap::map_of(w.accounts).contains_key(
            (#[trigger] rs[i]).asset@,
        ) by {}
    }
}

/// While reservations are given back, the accounts shrink by them.
proof fn lemma_returned(
    s: Accounts,
    rs: Seq<Reservation>,
    n: int,
)
    requires
        strmap::distinct_keys(s),
        0 <= n <= rs.len(),
        forall|i: int|
            0 <= i < rs.len() ==> {
                &&& (#[trigger] rs[i]).amount@.valid()
                &&& rs[i].amount.m() >= 0
                &&& strmap::map_of(s).contains_key(rs[i].asset@)
            },
        forall|asset: AssetId|
            {
                let a = #[trigger] account(s, asset);
                a.reserved@.valid() && set_aside(rs, asset) <= decimal::units(a.reserved)
            },
        gives_back_exactly(s, rs.subrange(0, n)),
    ensures
        all_given_back(s, rs.subrange(0, n)) is Some,
        ({
            let t = all_given_back(s, rs.subrange(0, n))->0;
            &&& strmap::distinct_keys(t)
            &&& strmap::map_of(t).dom() == strmap::map_of(s).dom()
            &&& forall|asset: AssetId|
                {
                    let a = #[trigger] account(t, asset);
                    &&& a.reserved@.valid()
                    &&& a.total == account(s, asset).total
                    &&& decimal::units(a.reserved) == decimal::units(account(s, asset).reserved)
                        - set_aside(rs.subrange(0, n), asset)
                }
        }),
    decreases n,
{
    let head = rs.subrange(0, n);
    if n > 0 {
        assert(head.drop_last() =~= rs.subrange(0, n - 1));
        assert(head.last() == rs[n - 1]);
        lemma_returned(s, rs, n - 1);
        let t = all_given_back(s, rs.subrange(0, n - 1))->0;
        let r = rs[n - 1];
        let a = account(t, r.asset);
        assert(strmap::map_of(s).dom().contains(r.asset@));
        assert(strmap::map_of(t).contains_key(r.asset@));
        lemma_set_aside_grows(rs, r.asset, n - 1);
        assert(account(s, r.asset).reserved@.valid());
        lemma_freed(a, r.amount);
        let b = a.freed(Some(r.amount))->0;
        strmap::lemma_put(t, r.asset.0, b);
        let w = strmap::put(t, r.asset.0, b);
        assert(strmap::map_of(w).dom() =~= strmap::map_of(s).dom());
        assert forall|asset: AssetId|
            {
                let c = #[trigger] account(w, asset);
                &&& c.reserved@.valid()
                &&& c.total == account(s, asset).total
                &&& decimal::units(c.reserved) == decimal::units(account(s, asset).reserved)
                    - set_aside(head, asset)
            } by {
            lemma_account_put(t, r.asset, b, asset);
            assert(account(t, asset).reserved@.valid());
            if asset@ == r.asset@ {
                assert(account(s, asset) == account(s, r.asset));
                assert(account(t, asset) == a);
            }
        }
    }
}

/// Releasing an order undoes what was set aside for it: however many amounts were set aside, of
/// whatever assets, each balance is what it was before, no reservation of another order changes,
/// and a second release changes nothing. This is so where no step is rounded.
pub proof fn law_release_undoes_reservations(
    v: InventoryView,
    states: Seq<InventoryView>,
    order_id: ClientOrderId,
    rs: Seq<Reservation>,
)
    requires
        v.sound(),
        v.reserved_for(order_id).len() == 0,
        states.len() == rs.len() + 1,
        states[0] == v,
        forall|i: int| 0 <= i < rs.len() ==> #[trigger] reserve_step(states, order_id, rs, i),
        gives_back_exactly(states.last().accounts, rs),
    ensures
        states.last().released(order_id) is Some,
        ({
            let w = states.last().released(order_id)->0;
            &&& forall|asset: AssetId|
                {
                    let (a, b) = (account(v.accounts, asset), #[trigger] account(w.accounts, asset));
                    &&& b.total == a.total
                    &&& decimal::units(b.reserved) == decimal::units(a.reserved)
                    &&& a.total@.valid() && decimal::subtracts_exactly(a.total, a.reserved)
                        && decimal::subtracts_exactly(b.total, b.reserved) ==> a.available() is Some
                        && b.available() is Some && decimal::units(b.available()->0)
                        == decimal::units(a.available()->0)
                }
            &&& w.sound()
            &&& w.reserved_for(order_id).len() == 0
            &&& forall|other: ClientOrderId|
                other@ != order_id@ ==> #[trigger] w.reserved_for(other) == v.reserved_for(other)
            &&& w.allocations == v.allocations
            &&& w.released(order_id) == Some(w)
        }),
{
    let n = rs.len() as int;
    let u = states[n];
    lemma_reserved(v, states, order_id, rs, n);
    assert(rs.subrange(0, n) =~= rs);
    assert forall|i: int| 0 <= i < rs.len() implies {
        &&& (#[trigger] rs[i]).amount@.valid()
        &&& rs[i].amount.m() >= 0
        &&& strmap::map_of(u.accounts).contains_key(rs[i].asset@)
    } by {
        assert(reserve_step(states, order_id, rs, i));
    }
    assert forall|asset: AssetId|
        {
            let a = #[trigger] account(u.accounts, asset);
            a.reserved@.valid() && set_aside(rs, asset) <= decimal::units(a.reserved)
        } by {
        let before = account(v.accounts, asset);
        assert(before.reserved@.valid() && before.reserved.m() >= 0);
        decimal::lemma_units_sign(before.reserved);
    }
    lemma_returned(u.accounts, rs, n);
    let w = u.released(order_id)->0;
    strmap::lemma_without(u.reservations, order_id@);
    assert forall|asset: AssetId|
        {
            let (a, b) = (account(v.accounts, asset), #[trigger] account(w.accounts, asset));
            &&& b.total == a.total
            &&& decimal::units(b.reserved) == decimal::units(a.reserved)
            &&& a.total@.valid() && decimal::subtracts_exactly(a.total, a.reserved)
                && decimal::subtracts_exactly(b.total, b.reserved) ==> a.available() is Some
                && b.available() is Some && decimal::units(b.available()->0) == decimal::units(
                a.available()->0,
            )
        } by {
        let (a, b) = (account(v.accounts, asset), account(w.accounts, asset));
        let c = account(u.accounts, asset);
        assert(a.reserved@.valid());
        assert(c.total == a.total);
        if a.total@.valid() && decimal::subtracts_exactly(a.total, a.reserved)
            && decimal::subtracts_exactly(b.total, b.reserved) {
            decimal::law_exact_difference(a.total, a.reserved);
            decimal::law_exact_difference(b.total, b.reserved);
        }
    }
    assert forall|other: ClientOrderId| other@ != order_id@ implies #[trigger] w.reserved_for(other)
        == v.reserved_for(other) by {
        assert(u.reserved_for(other) == v.reserved_for(other));
    }
    assert forall|asset: AssetId|
        {
            let b = #[trigger] account(w.accounts, asset);
            b.reserved@.valid() && b.reserved.m() >= 0
        } by {
        let a = account(v.accounts, asset);
        assert(a.reserved@.valid() && a.reserved.m() >= 0);
        decimal::lemma_units_sign(a.reserved);
        decimal::lemma_units_sign(account(w.accounts, asset).reserved);
    }
    // A second release finds nothing.
    assert(w.reserved_for(order_id) =~= Seq::empty());
    assert(all_given_back(w.accounts, w.reserved_for(order_id)) == Some(w.accounts));
    strmap::lemma_map_of(w.reservations, order_id@);
    strmap::lemma_key_index(w.reservations, order_id@);
    assert(strmap::without(w.reservations, order_id@) == w.reservations);
}

} // verus!
