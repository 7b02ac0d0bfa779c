//! A paper exchange: real, injected or queued quotes, and fills that are simulated.
//!
//! The quotes of a real exchange are fetched outside and handed in.
use vstd::prelude::*;
use vstd::string::*;
use crate::text;
use crate::strmap;
use crate::margin;
use crate::fill_simulator;
use crate::decimal;
use crate::decimal::Decimal;
use crate::exchange::{ExchangeError, Fill, OrderInput, PlaceOrderResult};
use crate::fill_simulator::{swap_amounts, FillSimulator, PendingOrder, SimulatorView};
use crate::margin::{LedgerView, MarginLedger};
use crate::strmap::StrMap;
use crate::text::{ends_with_text, join2, text_before_last};
use crate::types::{AccountState, AssetId, ClientOrderId, Environment, ExchangeId, ExchangeOrderId, Fee, InstrumentId, OrderSide, PositionSnapshot, Price, Qty, Quote, TimeInForce, TradeId, now_ms, try_halfway};

verus! {

/// An exchange that does nothing: a paper exchange of its own needs no other.
#[derive(Debug)]
pub struct NoOpExchange {
    pub exchange_id: ExchangeId,
    pub environment: Environment,
}

impl NoOpExchange {
    /// The one named `paper-exchange` on the testnet.
    pub fn new() -> (r: NoOpExchange)
        ensures
            r.exchange_id@ == "paper-exchange"@,
            r.environment is Testnet,
    {
        NoOpExchange::with_config("paper-exchange", Environment::Testnet)
    }

    /// One with another name, on the testnet.
    pub fn with_exchange_id(id: &str) -> (r: NoOpExchange)
        ensures
            r.exchange_id@ == id@,
            r.environment is Testnet,
    {
        NoOpExchange::with_config(id, Environment::Testnet)
    }

    /// One with another name in another environment.
    pub fn with_config(id: &str, environment: Environment) -> (r: NoOpExchange)
        ensures
            r.exchange_id@ == id@,
            r.environment == environment,
    {
        NoOpExchange { exchange_id: ExchangeId::new(id), environment }
    }

    /// Takes no orders.
    pub fn place_orders(&self, _orders: &Vec<OrderInput>) -> (r: Result<
        Vec<PlaceOrderResult>,
        ExchangeError,
    >)
        ensures
            r matches Ok(v) && v@.len() == 0,
    {
        Ok(Vec::new())
    }

    /// Has no orders to cancel.
    pub fn cancel_all_orders(&self, _instrument: &InstrumentId) -> (r: Result<u32, ExchangeError>)
        ensures
            r == Ok::<u32, ExchangeError>(0),
    {
        Ok(0)
    }

    /// Has no fills.
    pub fn poll_user_fills(&self) -> (r: Result<Vec<Fill>, ExchangeError>)
        ensures
            r matches Ok(v) && v@.len() == 0,
    {
        Ok(Vec::new())
    }

    /// Has no quotes.
    pub fn poll_quotes(&self, _instruments: &Vec<InstrumentId>) -> (r: Result<
        Vec<Quote>,
        ExchangeError,
    >)
        ensures
            r matches Ok(v) && v@.len() == 0,
    {
        Ok(Vec::new())
    }

    /// Has an account of which nothing is known.
    pub fn poll_account_state(&self) -> (r: Result<AccountState, ExchangeError>)
        ensures
            r matches Ok(a) && a.positions@.len() == 0 && a.account_value is None
                && a.unrealized_pnl is None,
    {
        Ok(AccountState { positions: Vec::new(), account_value: None, unrealized_pnl: None })
    }
}

impl Default for NoOpExchange {
    fn default() -> (r: NoOpExchange)
        ensures
            r.exchange_id@ == "paper-exchange"@,
            r.environment is Testnet,
    {
        NoOpExchange::new()
    }
}

/// What a paper exchange holds.
pub struct PaperView<E> {
    /// Where quotes come from.
    pub source: E,
    pub sim: SimulatorView,
    pub ledger: LedgerView,
    /// The fills that no poll has taken yet.
    pub fills: Seq<Fill>,
    pub time: i64,
    /// The last quote of each instrument.
    pub quotes: Seq<(String, Quote)>,
    pub injected: Seq<(String, Quote)>,
    pub use_injected: bool,
    /// The quotes that are still to come, one for each poll.
    pub queue: Seq<Quote>,
}

/// The instrument is a perpetual.
pub open spec fn perp(instrument: Seq<char>) -> bool {
    text::finishes_with(instrument, "-PERP"@)
}

/// The price at which an order of a side is filled.
pub open spec fn fill_price(quote: Quote, side: OrderSide) -> Price {
    match side {
        OrderSide::Buy => quote.ask,
        OrderSide::Sell => quote.bid,
    }
}

/// The ledger after the perpetuals among the first `n` fills, up to the first that is too
/// large.
pub open spec fn ledger_after(v: LedgerView, fills: Seq<Fill>, n: nat) -> LedgerView
    decreases n,
{
    if n == 0 {
        v
    } else {
        let before = ledger_after(v, fills, (n - 1) as nat);
        let f = fills[n - 1];
        if !perp(f.instrument@) || !ledger_fits(v, fills, (n - 1) as nat) {
            before
        } else {
            match before.settlement(f.instrument, f.side, f.price.0, f.qty.0, f.fee.amount) {
                Some(s) => before.with_purse(f.instrument, s.purse),
                None => before,
            }
        }
    }
}

/// None of the first `n` fills is too large for the ledger.
pub open spec fn ledger_fits(v: LedgerView, fills: Seq<Fill>, n: nat) -> bool
    decreases n,
{
    if n == 0 {
        true
    } else {
        let f = fills[n - 1];
        ledger_fits(v, fills, (n - 1) as nat) && (perp(f.instrument@) ==> ledger_after(
            v,
            fills,
            (n - 1) as nat,
        ).settlement(f.instrument, f.side, f.price.0, f.qty.0, f.fee.amount) is Some)
    }
}

/// The last quotes after more came.
pub open spec fn quotes_after(s: Seq<(String, Quote)>, more: Seq<Quote>) -> Seq<(String, Quote)>
    decreases more.len(),
{
    if more.len() == 0 {
        s
    } else {
        strmap::put(quotes_after(s, more.drop_last()), more.last().instrument.0, more.last())
    }
}

/// The middle prices of the first `n` quotes.
pub open spec fn marks_of(s: Seq<(String, Quote)>, n: nat) -> Option<Map<Seq<char>, Decimal>>
    decreases n,
{
    if n == 0 {
        Some(Map::empty())
    } else {
        match (marks_of(s, (n - 1) as nat), s[n - 1].1.mid_of()) {
            (Some(m), Some(mid)) => Some(m.insert(s[n - 1].0@, mid)),
            _ => None,
        }
    }
}

/// The ledger after the first `n` positions were closed at their marks, up to the first that
/// is too large.
pub open spec fn closed_out(
    v: LedgerView,
    list: Seq<InstrumentId>,
    marks: Map<Seq<char>, Decimal>,
    n: nat,
) -> Option<LedgerView>
    decreases n,
{
    if n == 0 {
        Some(v)
    } else {
        match closed_out(v, list, marks, (n - 1) as nat) {
            Some(w) => if marks.contains_key(list[n - 1]@) {
                margin::wound_up(w, list[n - 1], marks[list[n - 1]@])
            } else {
                Some(w)
            },
            None => None,
        }
    }
}

impl<E> PaperView<E> {
    /// An exchange with starting balances at a time; the common currency among them is the
    /// free cash of the ledger.
    pub open spec fn opened(source: E, balances: Map<Seq<char>, Decimal>, now: i64) -> PaperView<E> {
        PaperView {
            source,
            sim: SimulatorView {
                buys: Map::empty(),
                sells: Map::empty(),
                next_oid: 1000,
                balances,
                fee_rate: decimal::zero(),
            },
            ledger: LedgerView {
                free: fill_simulator::held(balances, "USDC"@),
                positions: Seq::empty(),
                leverage: Seq::empty(),
                default_leverage: crate::decimal::one(),
                fee_rate: decimal::zero(),
            },
            fills: Seq::empty(),
            time: now,
            quotes: Seq::empty(),
            injected: Seq::empty(),
            use_injected: false,
            queue: Seq::empty(),
        }
    }

    /// Why an order is refused, where it is; nothing where a step is too large.
    pub open spec fn refusal(self, order: OrderInput) -> Option<Option<Seq<char>>> {
        if perp(order.instrument@) {
            if self.ledger.needs_no_margin(order.instrument, order.side, order.reduce_only) {
                Some(None)
            } else {
                match self.ledger.needed(order.instrument, order.price.0, order.qty.0) {
                    None => None,
                    Some(required) => if crate::decimal::lt(self.ledger.free, required) {
                        Some(
                            Some(
                                self.ledger.shortage_text(
                                    required,
                                    decimal::times(Some(order.price.0), Some(order.qty.0))->0,
                                    self.ledger.leverage_of(order.instrument),
                                ),
                            ),
                        )
                    } else {
                        Some(None)
                    },
                }
            }
        } else {
            self.sim.shortage(order.instrument@, order.side, order.price.0, order.qty.0)
        }
    }

    /// The id of the next order.
    pub open spec fn next_id(self) -> Seq<char> {
        "paper_"@ + text::digits(self.sim.next_oid as nat)
    }

    /// The exchange after the next order id was given out.
    pub open spec fn counted(self) -> PaperView<E> {
        PaperView {
            sim: SimulatorView { next_oid: (self.sim.next_oid + 1) as u64, ..self.sim },
            ..self
        }
    }

    /// The price at which an order that is to be filled at once is filled.
    pub open spec fn instant_price(self, order: OrderInput) -> Option<Price> {
        match strmap::lookup(self.quotes, order.instrument@) {
            Some(q) if fill_simulator::reached(order.side, order.price.0, fill_price(q, order.side).0) => Some(
                fill_price(q, order.side),
            ),
            _ => None,
        }
    }

    /// The exchange after an order was filled at once, less the fill itself.
    pub open spec fn filled_at(self, order: OrderInput, px: Price) -> Option<PaperView<E>> {
        let notional = decimal::times(Some(px.0), Some(order.qty.0));
        let next = self.counted();
        if notional is None {
            None
        } else if perp(order.instrument@) {
            match self.ledger.settlement(order.instrument, order.side, px.0, order.qty.0, decimal::zero()) {
                Some(s) => Some(
                    PaperView {
                        ledger: self.ledger.with_purse(order.instrument, s.purse),
                        ..next
                    },
                ),
                None => None,
            }
        } else {
            match fill_simulator::swapped(
                self.sim.balances,
                order.instrument@,
                order.side,
                notional,
                order.qty.0,
            ) {
                Some(balances) => Some(
                    PaperView { sim: SimulatorView { balances, ..next.sim }, ..next },
                ),
                None => None,
            }
        }
    }

    /// No step of placing an order is too large.
    pub open spec fn place_fits(self, order: OrderInput) -> bool {
        match self.refusal(order) {
            None => false,
            Some(Some(_)) => true,
            Some(None) => self.sim.next_oid < u64::MAX && (order.tif is Ioc ==> (self.instant_price(
                order,
            ) matches Some(px) ==> self.filled_at(order, px) is Some)),
        }
    }

    /// The exchange `after` an order was placed, and its reply.
    pub open spec fn placed(
        self,
        after: PaperView<E>,
        order: OrderInput,
        reply: PlaceOrderResult,
    ) -> bool {
        match self.refusal(order)->0 {
            Some(reason) => after == self && says_rejected(reply, reason),
            None => if order.tif is Ioc {
                match self.instant_price(order) {
                    Some(px) => {
                        &&& reply matches PlaceOrderResult::Accepted {
                            exchange_order_id: Some(id),
                            filled_qty,
                            avg_fill_px,
                        } && id@ == self.next_id() && filled_qty == Some(order.qty) && avg_fill_px
                            == Some(px)
                        &&& after.fills.len() == self.fills.len() + 1
                        &&& after.fills.drop_last() == self.fills
                        &&& instant_fill(after.fills.last(), order, px, self.next_id(), self.time)
                        &&& (PaperView { fills: self.fills, ..after }) == self.filled_at(order, px)->0
                    },
                    None => after == self.counted() && says_rejected(
                        reply,
                        if strmap::lookup(self.quotes, order.instrument@) is Some {
                            "IOC order cannot fill at current price"@
                        } else {
                            "No quote available for instrument"@
                        },
                    ),
                }
            } else {
                &&& reply matches PlaceOrderResult::Accepted {
                    exchange_order_id: Some(id),
                    filled_qty: None,
                    avg_fill_px: None,
                } && id@ == self.next_id() && after == self.counted().waiting(order, id)
            },
        }
    }

    /// The exchange with one more order that waits.
    pub open spec fn waiting(self, order: OrderInput, id: ExchangeOrderId) -> PaperView<E> {
        let pending = PendingOrder {
            client_id: order.client_id,
            exchange_order_id: id,
            instrument: order.instrument,
            side: order.side,
            price: order.price,
            qty: order.qty,
            remaining_qty: order.qty,
            created_at: self.time,
        };
        let k = order.instrument@;
        let sim = match order.side {
            OrderSide::Buy => SimulatorView {
                buys: self.sim.buys.insert(
                    k,
                    fill_simulator::queued(OrderSide::Buy, fill_simulator::queue(self.sim.buys, k), pending),
                ),
                ..self.sim
            },
            OrderSide::Sell => SimulatorView {
                sells: self.sim.sells.insert(
                    k,
                    fill_simulator::queued(OrderSide::Sell, fill_simulator::queue(self.sim.sells, k), pending),
                ),
                ..self.sim
            },
        };
        PaperView { sim, ..self }
    }

    /// The orders that the last quotes reach, each with its price.
    pub open spec fn hit(self) -> Seq<(PendingOrder, Price)> {
        self.sim.filled(self.quotes, self.quotes.len() as int)
    }

    /// A step of filling the orders that the last quotes reach is too large for the balances.
    pub open spec fn fills_too_large(self) -> bool {
        !self.sim.fees_fit(self.quotes) || exists|fills: Seq<Fill>| #[trigger]
            self.sim.are_fills(fills, self.hit(), self.time) && fill_simulator::all_booked(
                self.sim.balances,
                fills,
            ) is None
    }

    /// The exchange `after` the orders that the last quotes reach were filled; `ok` says that
    /// the ledger took all of them.
    pub open spec fn matched(self, after: PaperView<E>, fills: Seq<Fill>, ok: bool) -> bool {
        &&& self.sim.are_fills(fills, self.hit(), self.time)
        &&& fill_simulator::all_booked(self.sim.balances, fills) matches Some(b) && after == (PaperView {
            sim: self.sim.after_quotes(strmap::map_of(self.quotes), b),
            ledger: ledger_after(self.ledger, fills, fills.len()),
            fills: self.fills + fills,
            ..self
        })
        &&& ok == ledger_fits(self.ledger, fills, fills.len())
    }

    /// What filling the orders does: nothing where a step is too large.
    pub open spec fn matches_orders(self, after: PaperView<E>, ok: bool) -> bool {
        ||| !ok && after == self && self.fills_too_large()
        ||| exists|fills: Seq<Fill>| #[trigger] self.matched(after, fills, ok)
    }

    /// The exchange after its fills were taken.
    pub open spec fn drained(self) -> PaperView<E> {
        PaperView { fills: Seq::empty(), ..self }
    }

    /// The exchange at another time.
    pub open spec fn at_time(self, time: i64) -> PaperView<E> {
        PaperView { time, ..self }
    }

    /// The exchange when the next quotes are taken: at the time of the next one in the queue.
    pub open spec fn ready(self) -> PaperView<E> {
        if self.queue.len() > 0 {
            PaperView { time: self.queue[0].ts, queue: self.queue.drop_first(), ..self }
        } else {
            self
        }
    }

    /// The exchange after new quotes came and before any order is filled.
    pub open spec fn quoted(self, quotes: Seq<Quote>) -> PaperView<E> {
        PaperView { quotes: quotes_after(self.quotes, quotes), ..self }
    }

    /// The ledger after the positions that fall below their margin were closed.
    pub open spec fn liquidated(self) -> Option<LedgerView> {
        match marks_of(self.quotes, self.quotes.len()) {
            None => None,
            Some(marks) => match self.ledger.liquidations(marks, self.ledger.positions.len()) {
                None => None,
                Some(list) => closed_out(self.ledger, list, marks, list.len()),
            },
        }
    }

    /// What new quotes do: orders are filled, then positions are liquidated.
    pub open spec fn arrived(
        self,
        mid: PaperView<E>,
        after: PaperView<E>,
        quotes: Seq<Quote>,
        ok: bool,
    ) -> bool {
        exists|filled: bool| #[trigger]
            self.quoted(quotes).matches_orders(mid, filled) && (if !filled {
                !ok && after == mid
            } else {
                match mid.liquidated() {
                    Some(ledger) => ok && after == (PaperView { ledger, ..mid }),
                    None => !ok && (PaperView { ledger: mid.ledger, ..after }) == mid,
                }
            })
    }

    /// The quotes that are injected for the instruments.
    pub open spec fn injected_for(self, instruments: Seq<InstrumentId>) -> Seq<Quote>
        decreases instruments.len(),
    {
        if instruments.len() == 0 {
            Seq::empty()
        } else {
            let rest = self.injected_for(instruments.drop_last());
            match strmap::lookup(self.injected, instruments.last()@) {
                Some(q) => rest.push(q),
                None => rest,
            }
        }
    }

    /// The quotes of the next poll: the first of the queue, or those that are injected.
    pub open spec fn next_quotes(self, instruments: Seq<InstrumentId>) -> Seq<Quote> {
        if self.queue.len() > 0 {
            seq![self.queue[0]]
        } else {
            self.injected_for(instruments)
        }
    }

    /// The account at the last quotes.
    pub open spec fn account(self) -> Option<(Seq<PositionSnapshot>, Decimal, Decimal)> {
        match marks_of(self.quotes, self.quotes.len()) {
            None => None,
            Some(marks) => match (
                self.ledger.snapshots(marks, self.ledger.positions.len()),
                self.ledger.equity(marks),
                self.ledger.unrealized(marks, self.ledger.positions.len()),
            ) {
                (Some(s), Some(e), Some(u)) => Some((s, e, u)),
                _ => None,
            },
        }
    }

    /// What is held of an instrument: the position of a perpetual, the balance of the base
    /// asset otherwise.
    pub open spec fn held_of(self, instrument: InstrumentId) -> Decimal {
        if perp(instrument@) {
            match self.ledger.position(instrument) {
                Some(p) => p.qty,
                None => decimal::zero(),
            }
        } else {
            fill_simulator::held(self.sim.balances, fill_simulator::base_of(instrument@))
        }
    }
}

/// The reply tells that an order was refused, and why.
pub open spec fn says_rejected(reply: PlaceOrderResult, reason: Seq<char>) -> bool {
    reply matches PlaceOrderResult::Rejected { reason: r } && r@ == reason
}

/// The fill of an order that is filled at once, without a fee.
pub open spec fn instant_fill(
    fill: Fill,
    order: OrderInput,
    px: Price,
    id: Seq<char>,
    now: i64,
) -> bool {
    &&& fill.trade_id@ == "paper_"@ + id
    &&& fill.client_id == Some(order.client_id)
    &&& fill.exchange_order_id matches Some(e) && e@ == id
    &&& fill.instrument == order.instrument
    &&& fill.side == order.side
    &&& fill.price == px
    &&& fill.qty == order.qty
    &&& fill.fee.amount == decimal::zero()
    &&& fill.fee.asset@ == "USDC"@
    &&& fill.ts == now
}

/// A paper exchange over a source of quotes.
#[derive(Debug)]
pub struct PaperExchange<E> {
    quote_source: E,
    simulator: FillSimulator,
    margin_ledger: MarginLedger,
    simulated_fills: Vec<Fill>,
    time_ms: i64,
    last_quotes: StrMap<Quote>,
    injected_quotes: StrMap<Quote>,
    use_injected_quotes: bool,
    quote_queue: Vec<Quote>,
}

/// A paper exchange that needs no other.
pub type StandalonePaperExchange = PaperExchange<NoOpExchange>;

/// A paper exchange that needs no other, named `paper-exchange`, on the testnet.
pub fn create_standalone_paper_exchange(initial_balances: StrMap<Decimal>) -> (r: PaperExchange<
    NoOpExchange,
>)
    ensures
        r.wf(),
        r@ == PaperView::opened(r@.source, initial_balances@, r@.time),
        r@.source.exchange_id@ == "paper-exchange"@,
        r@.source.environment is Testnet,
{
    create_standalone_paper_exchange_with_id(
        initial_balances,
        "paper-exchange",
        Environment::Testnet,
    )
}

/// A paper exchange that needs no other.
pub fn create_standalone_paper_exchange_with_id(
    initial_balances: StrMap<Decimal>,
    exchange_id: &str,
    environment: Environment,
) -> (r: PaperExchange<NoOpExchange>)
    ensures
        r.wf(),
        r@ == PaperView::opened(r@.source, initial_balances@, r@.time),
        r@.source.exchange_id@ == exchange_id@,
        r@.source.environment == environment,
{
    PaperExchange::new(NoOpExchange::with_config(exchange_id, environment), initial_balances)
}

impl<E> PaperExchange<E> {
    /// What the exchange holds.
    pub closed spec fn view(&self) -> PaperView<E> {
        PaperView {
            source: self.quote_source,
            sim: self.simulator@,
            ledger: self.margin_ledger@,
            fills: self.simulated_fills@,
            time: self.time_ms,
            quotes: self.last_quotes.list(),
            injected: self.injected_quotes.list(),
            use_injected: self.use_injected_quotes,
            queue: self.quote_queue@,
        }
    }

    /// The simulator is well formed.
    pub closed spec fn wf(&self) -> bool {
        self.simulator.wf()
    }

    /// An exchange with starting balances at a time; the common currency among them is the
    /// free cash of the ledger.
    pub fn new_at(quote_source: E, initial_balances: StrMap<Decimal>, now: i64) -> (r: PaperExchange<
        E,
    >)
        ensures
            r.wf(),
            r@ == PaperView::opened(quote_source, initial_balances@, now),
    {
        let starting_usdc = match initial_balances.get("USDC") {
            Some(x) => *x,
            None => Decimal::zero(),
        };
        PaperExchange {
            quote_source,
            simulator: FillSimulator::new(initial_balances),
            margin_ledger: MarginLedger::new(starting_usdc, Decimal::zero()),
            simulated_fills: Vec::new(),
            time_ms: now,
            last_quotes: StrMap::new(),
            injected_quotes: StrMap::new(),
            use_injected_quotes: false,
            quote_queue: Vec::new(),
        }
    }

    /// An exchange with starting balances from now on.
    pub fn new(quote_source: E, initial_balances: StrMap<Decimal>) -> (r: PaperExchange<E>)
        ensures
            r.wf(),
            r@ == PaperView::opened(quote_source, initial_balances@, r@.time),
    {
        let now: i64 = now_ms();
        PaperExchange::new_at(quote_source, initial_balances, now)
    }

    /// The source of quotes.
    pub fn quote_source(&self) -> (r: &E)
        ensures
            *r == self@.source,
    {
        &self.quote_source
    }

    /// Sets the balance of an asset.
    pub fn set_balance(&mut self, asset: AssetId, amount: Decimal)
        requires
            old(self).wf(),
        ensures
            final(self).wf(),
            final(self)@ == (PaperView {
                sim: SimulatorView {
                    balances: old(self)@.sim.balances.insert(asset@, amount),
                    ..old(self)@.sim
                },
                ..old(self)@
            }),
    {
        self.simulator.set_balance(asset, amount);
    }

    /// The balance of an asset.
    pub fn balance(&self, asset: &AssetId) -> (r: Decimal)
        ensures
            r == fill_simulator::held(self@.sim.balances, asset@),
    {
        self.simulator.balance(asset)
    }

    /// The balances of the common currency and of the two largest coins.
    pub fn get_balances(&self) -> (r: StrMap<Decimal>)
        ensures
            ({
                let b = self@.sim.balances;
                r@ == Map::<Seq<char>, Decimal>::empty().insert("USDC"@, fill_simulator::held(b, "USDC"@)).insert(
                    "BTC"@,
                    fill_simulator::held(b, "BTC"@),
                ).insert("ETH"@, fill_simulator::held(b, "ETH"@))
            }),
    {
        let mut out: StrMap<Decimal> = StrMap::new();
        out.insert("USDC".to_owned(), self.balance(&AssetId::new("USDC")));
        out.insert("BTC".to_owned(), self.balance(&AssetId::new("BTC")));
        out.insert("ETH".to_owned(), self.balance(&AssetId::new("ETH")));
        out
    }

    /// How many orders wait.
    pub fn pending_orders_count(&self) -> (r: usize)
        ensures
            r == fill_simulator::counted(self@.sim.buys) + fill_simulator::counted(self@.sim.sells),
    {
        self.simulator.pending_orders().len()
    }

    /// Sets the fee rate.
    pub fn set_fee_rate(&mut self, fee_rate: Decimal)
        requires
            old(self).wf(),
        ensures
            final(self).wf(),
            final(self)@ == (PaperView {
                sim: SimulatorView { fee_rate, ..old(self)@.sim },
                ledger: LedgerView { fee_rate, ..old(self)@.ledger },
                ..old(self)@
            }),
    {
        self.simulator.set_fee_rate(fee_rate);
        self.margin_ledger.set_fee_rate(fee_rate);
    }

    /// What is held of an instrument.
    pub fn get_position(&self, instrument: &InstrumentId) -> (r: Decimal)
        ensures
            r == self@.held_of(*instrument),
    {
        if ends_with_text(instrument.as_str(), "-PERP") {
            self.margin_ledger.position_qty(instrument)
        } else {
            self.simulator.balance(&AssetId::new(text_before_last(instrument.as_str(), '-')))
        }
    }

    /// Sets the leverage of an instrument. Changes nothing and says `false` where a step is
    /// too large.
    pub fn set_instrument_leverage(
        &mut self,
        instrument: &InstrumentId,
        leverage: Decimal,
        max_leverage: Decimal,
    ) -> (r: bool)
        requires
            old(self).wf(),
        ensures
            final(self).wf(),
            match margin::leveraged(old(self)@.ledger, *instrument, leverage, max_leverage) {
                Some(ledger) => r && final(self)@ == (PaperView { ledger, ..old(self)@ }),
                None => !r && final(self)@ == old(self)@,
            },
    {
        self.margin_ledger.try_set_leverage(instrument, leverage, max_leverage)
    }

    /// The free cash of the ledger.
    pub fn free_usdc(&self) -> (r: Decimal)
        ensures
            r == self@.ledger.free,
    {
        self.margin_ledger.free_usdc()
    }

    /// Takes quotes from those that are injected.
    pub fn enable_simulation_mode(&mut self)
        requires
            old(self).wf(),
        ensures
            final(self).wf(),
            final(self)@ == (PaperView { use_injected: true, ..old(self)@ }),
    {
        self.use_injected_quotes = true;
    }

    /// Takes quotes from the source again.
    pub fn disable_simulation_mode(&mut self)
        requires
            old(self).wf(),
        ensures
            final(self).wf(),
            final(self)@ == (PaperView { use_injected: false, ..old(self)@ }),
    {
        self.use_injected_quotes = false;
    }

    /// Whether quotes are taken from those that are injected.
    pub fn is_simulation_mode(&self) -> (r: bool)
        ensures
            r == self@.use_injected,
    {
        self.use_injected_quotes
    }

    /// Injects a quote.
    pub fn inject_quote(&mut self, instrument: InstrumentId, bid: Decimal, ask: Decimal)
        requires
            old(self).wf(),
        ensures
            final(self).wf(),
            final(self)@ == (PaperView {
                injected: strmap::put(
                    old(self)@.injected,
                    instrument.0,
                    Quote {
                        instrument,
                        bid: Price(bid),
                        ask: Price(ask),
                        bid_size: Qty(Decimal::lit(1000, 0)),
                        ask_size: Qty(Decimal::lit(1000, 0)),
                        ts: old(self)@.time,
                    },
                ),
                ..old(self)@
            }),
    {
        let quote = Quote {
            instrument: instrument.clone(),
            bid: Price(bid),
            ask: Price(ask),
            bid_size: Qty(Decimal::new(1000, 0)),
            ask_size: Qty(Decimal::new(1000, 0)),
            ts: self.time_ms,
        };
        self.injected_quotes.insert(instrument.0, quote);
    }

    /// Puts quotes behind those that are still to come.
    pub fn queue_quotes(&mut self, quotes: Vec<Quote>)
        requires
            old(self).wf(),
        ensures
            final(self).wf(),
            final(self)@ == (PaperView { queue: old(self)@.queue + quotes@, ..old(self)@ }),
    {
        let mut more = quotes;
        self.quote_queue.append(&mut more);
    }

    /// Whether quotes are still to come.
    pub fn has_queued_quotes(&self) -> (r: bool)
        ensures
            r == (self@.queue.len() > 0),
    {
        self.quote_queue.len() > 0
    }

    /// How many quotes are still to come.
    pub fn queue_len(&self) -> (r: usize)
        ensures
            r == self@.queue.len(),
    {
        self.quote_queue.len()
    }

    /// Forgets the quotes that are still to come.
    pub fn clear_quote_queue(&mut self)
        requires
            old(self).wf(),
        ensures
            final(self).wf(),
            final(self)@ == (PaperView { queue: Seq::empty(), ..old(self)@ }),
    {
        self.quote_queue = Vec::new();
    }

    /// Sets the time.
    pub fn set_time(&mut self, time_ms: i64)
        requires
            old(self).wf(),
        ensures
            final(self).wf(),
            final(self)@ == (PaperView { time: time_ms, ..old(self)@ }),
    {
        self.time_ms = time_ms;
    }

    /// Moves the time on.
    pub fn advance_time(&mut self, delta_ms: i64)
        requires
            old(self).wf(),
            i64::MIN <= old(self)@.time + delta_ms <= i64::MAX,
        ensures
            final(self).wf(),
            final(self)@ == (PaperView { time: (old(self)@.time + delta_ms) as i64, ..old(self)@ }),
    {
        self.time_ms = self.time_ms + delta_ms;
    }

    /// The time.
    pub fn current_time(&self) -> (r: i64)
        ensures
            r == self@.time,
    {
        self.time_ms
    }

    /// The fills that no poll has taken yet.
    pub fn fills(&self) -> (r: &Vec<Fill>)
        ensures
            r@ == self@.fills,
    {
        &self.simulated_fills
    }

    /// Whether an order is covered, or why not; nothing where a step is too large.
    pub fn check_balance_for_order(&self, order: &OrderInput) -> (r: Option<Result<(), String>>)
        ensures
            match self@.refusal(*order) {
                None => r is None,
                Some(None) => r == Some(Ok::<(), String>(())),
                Some(Some(text)) => r matches Some(Err(e)) && e@ == text,
            },
    {
        if ends_with_text(order.instrument.as_str(), "-PERP") {
            self.margin_ledger.try_check_margin_for_perp_order(
                &order.instrument,
                order.side,
                order.price.0,
                order.qty.0,
                order.reduce_only,
            )
        } else {
            self.simulator.try_check_balance(
                &order.instrument,
                order.side,
                order.price.0,
                order.qty.0,
            )
        }
    }

    /// Places an order. Changes nothing and gives `None` where a step is too large.
    pub fn place_order(&mut self, order: &OrderInput) -> (r: Option<PlaceOrderResult>)
        requires
            old(self).wf(),
        ensures
            final(self).wf(),
            match r {
                Some(reply) => old(self)@.place_fits(*order) && old(self)@.placed(
                    final(self)@,
                    *order,
                    reply,
                ),
                None => !old(self)@.place_fits(*order) && final(self)@ == old(self)@,
            },
    {
        match self.check_balance_for_order(order) {
            None => {
                return None;
            },
            Some(Err(reason)) => {
                return Some(PlaceOrderResult::Rejected { reason });
            },
            Some(Ok(_)) => {},
        }
        if self.simulator.next_oid() == u64::MAX {
            return None;
        }
        if order.tif != TimeInForce::Ioc {
            let id = self.simulator.next_exchange_order_id("paper");
            proof {
                reveal_strlit("paper");
                reveal_strlit("_");
                reveal_strlit("paper_");
                assert("paper"@ + "_"@ =~= "paper_"@);
            }
            let pending = PendingOrder {
                client_id: order.client_id.clone(),
                exchange_order_id: id.clone(),
                instrument: order.instrument.clone(),
                side: order.side,
                price: order.price,
                qty: order.qty,
                remaining_qty: order.qty,
                created_at: self.time_ms,
            };
            self.simulator.add_pending_order(pending);
            return Some(
                PlaceOrderResult::Accepted {
                    exchange_order_id: Some(id),
                    filled_qty: None,
                    avg_fill_px: None,
                },
            );
        }
        let found = match self.last_quotes.get(order.instrument.as_str()) {
            Some(q) => Some(
                match order.side {
                    OrderSide::Buy => (q.ask, q.ask.0.at_most(order.price.0)),
                    OrderSide::Sell => (q.bid, order.price.0.at_most(q.bid.0)),
                },
            ),
            None => None,
        };
        match found {
            None => {
                let _id = self.simulator.next_exchange_order_id("paper");
                Some(
                    PlaceOrderResult::Rejected {
                        reason: "No quote available for instrument".to_owned(),
                    },
                )
            },
            Some((px, can_fill)) => {
                if !can_fill {
                    let _id = self.simulator.next_exchange_order_id("paper");
                    return Some(
                        PlaceOrderResult::Rejected {
                            reason: "IOC order cannot fill at current price".to_owned(),
                        },
                    );
                }
                let notional = match px.0.checked_mul(order.qty.0) {
                    Some(n) => n,
                    None => {
                        return None;
                    },
                };
                if ends_with_text(order.instrument.as_str(), "-PERP") {
                    match self.margin_ledger.try_apply_perp_fill(
                        &order.instrument,
                        order.side,
                        px.0,
                        order.qty.0,
                        Decimal::zero(),
                    ) {
                        Some(_) => {},
                        None => {
                            return None;
                        },
                    }
                } else {
                    match swap_amounts(
                        self.simulator.balances(),
                        &order.instrument,
                        order.side,
                        notional,
                        order.qty.0,
                    ) {
                        Some((usdc, base)) => {
                            self.simulator.set_balance(AssetId::new("USDC"), usdc);
                            self.simulator.set_balance(
                                AssetId::new(text_before_last(order.instrument.as_str(), '-')),
                                base,
                            );
                        },
                        None => {
                            return None;
                        },
                    }
                }
                let id = self.simulator.next_exchange_order_id("paper");
                proof {
                    reveal_strlit("paper");
                    reveal_strlit("_");
                    reveal_strlit("paper_");
                    assert("paper"@ + "_"@ =~= "paper_"@);
                }
                let fill = Fill {
                    trade_id: TradeId(join2("paper_", id.as_str())),
                    client_id: Some(order.client_id.clone()),
                    exchange_order_id: Some(id.clone()),
                    instrument: order.instrument.clone(),
                    side: order.side,
                    price: px,
                    qty: order.qty,
                    fee: Fee::new(Decimal::zero(), AssetId::new("USDC")),
                    ts: self.time_ms,
                };
                self.simulated_fills.push(fill);
                assert(self@.fills.drop_last() =~= old(self)@.fills);
                Some(
                    PlaceOrderResult::Accepted {
                        exchange_order_id: Some(id),
                        filled_qty: Some(order.qty),
                        avg_fill_px: Some(px),
                    },
                )
            },
        }
    }

    /// Places orders one after the other. Where a step is too large, gives `Err` with the
    /// replies so far; the orders before it stay placed.
    pub fn place_orders(&mut self, orders: &Vec<OrderInput>) -> (r: Result<
        Vec<PlaceOrderResult>,
        Vec<PlaceOrderResult>,
    >)
        requires
            old(self).wf(),
        ensures
            final(self).wf(),
            r matches Ok(replies) ==> replies@.len() == orders@.len(),
            r matches Err(replies) ==> replies@.len() < orders@.len() && !final(self)@.place_fits(orders@[replies@.len() as int]),
            exists|states: Seq<PaperView<E>>| #[trigger]
                all_placed(old(self)@, final(self)@, states, orders@, either(r)@),
    {
        let mut replies: Vec<PlaceOrderResult> = Vec::new();
        let ghost mut states: Seq<PaperView<E>> = seq![self@];
        let mut i: usize = 0;
        while i < orders.len()
            invariant
                i <= orders@.len(),
                self.wf(),
                replies@.len() == i,
                all_placed(old(self)@, self@, states, orders@, replies@),
            decreases orders@.len() - i,
        {
            let ghost (s0, r0, v) = (states, replies@, self@);
            match self.place_order(&orders[i]) {
                Some(reply) => {
                    replies.push(reply);
                    proof {
                        states = states.push(self@);
                        assert forall|k: int| 0 <= k < replies@.len() implies states[k].placed(
                            states[k + 1],
                            orders@[k],
                            #[trigger] replies@[k],
                        ) && states[k].place_fits(orders@[k]) by {
                            if k < r0.len() {
                                assert(replies@[k] == r0[k]);
                                assert(states[k] == s0[k]);
                                assert(states[k + 1] == s0[k + 1]);
                            }
                        }
                    }
                },
                None => {
                    let out: Result<Vec<PlaceOrderResult>, Vec<PlaceOrderResult>> = Err(replies);
                    assert(either(out) == replies);
                    return out;
                },
            }
            i = i + 1;
        }
        let out: Result<Vec<PlaceOrderResult>, Vec<PlaceOrderResult>> = Ok(replies);
        assert(either(out) == replies);
        out
    }

    /// Cancels an order that waits; none may have the id.
    pub fn cancel_order(&mut self, client_id: &ClientOrderId) -> (r: Option<PendingOrder>)
        requires
            old(self).wf(),
        ensures
            final(self).wf(),
            final(self)@ == (PaperView { sim: final(self)@.sim, ..old(self)@ }),
            ({
                let (a, b) = (old(self)@.sim, final(self)@.sim);
                match r {
                    Some(o) => {
                        ||| b == (SimulatorView { buys: b.buys, ..a }) && exists|k: Seq<char>|
                            #[trigger] fill_simulator::took_client(a.buys, b.buys, k, client_id@, o)
                        ||| b == (SimulatorView { sells: b.sells, ..a }) && fill_simulator::no_client(
                            a.buys,
                            client_id@,
                        ) && exists|k: Seq<char>| #[trigger]
                            fill_simulator::took_client(a.sells, b.sells, k, client_id@, o)
                    },
                    None => b == a && fill_simulator::no_client(a.buys, client_id@) && fill_simulator::no_client(
                        a.sells,
                        client_id@,
                    ),
                }
            }),
    {
        self.simulator.remove_order(client_id)
    }

    /// Cancels all orders of an instrument that wait, and says how many.
    pub fn cancel_all_orders(&mut self, instrument: &InstrumentId) -> (r: usize)
        requires
            old(self).wf(),
        ensures
            final(self).wf(),
            r == fill_simulator::queue(old(self)@.sim.buys, instrument@).len() + fill_simulator::queue(
                old(self)@.sim.sells,
                instrument@,
            ).len(),
            final(self)@ == (PaperView {
                sim: SimulatorView {
                    buys: old(self)@.sim.buys.remove(instrument@),
                    sells: old(self)@.sim.sells.remove(instrument@),
                    ..old(self)@.sim
                },
                ..old(self)@
            }),
    {
        self.simulator.remove_orders_for_instrument(instrument).len()
    }

    /// Fills the orders that the last quotes reach. Says `false` where a step is too large:
    /// nothing changes where it is one of the balances, and the ledger stays as it was before
    /// the fill where it is one of the ledger.
    pub fn check_fills(&mut self) -> (r: bool)
        requires
            old(self).wf(),
        ensures
            final(self).wf(),
            old(self)@.matches_orders(final(self)@, r),
    {
        let fills = match self.simulator.try_check_fills(&self.last_quotes, self.time_ms) {
            Some(f) => f,
            None => {
                proof {
                    let v = old(self)@;
                    if v.sim.fees_fit(v.quotes) {
                        let fills = choose|fills: Seq<Fill>| #[trigger]
                            v.sim.are_fills(
                                fills,
                                v.sim.filled(v.quotes, v.quotes.len() as int),
                                v.time,
                            ) && fill_simulator::all_booked(v.sim.balances, fills) is None;
                        assert(v.sim.are_fills(fills, v.hit(), v.time));
                    }
                }
                return false;
            },
        };
        let ghost made = fill_simulator::plain(fills@);
        let ghost v = old(self)@;
        let mut ok = true;
        let mut i: usize = 0;
        let n: usize = fills.len();
        assert(v.fills + made.subrange(0, 0) =~= v.fills);
        for f in it: fills
            invariant
                made == fill_simulator::plain(it.seq()),
                n == made.len(),
                i == it.index(),
                i <= n,
                self.wf(),
                ok == ledger_fits(v.ledger, made, i as nat),
                self@ == (PaperView {
                    sim: self@.sim,
                    ledger: ledger_after(v.ledger, made, i as nat),
                    fills: v.fills + made.subrange(0, i as int),
                    ..v
                }),
                self@.sim == v.sim.after_quotes(strmap::map_of(v.quotes), fill_simulator::all_booked(
                    v.sim.balances,
                    made,
                )->0),
        {
            let fill = f.fill;
            assert(fill == made[i as int]);
            if ok && ends_with_text(fill.instrument.as_str(), "-PERP") {
                match self.margin_ledger.try_apply_perp_fill(
                    &fill.instrument,
                    fill.side,
                    fill.price.0,
                    fill.qty.0,
                    fill.fee.amount,
                ) {
                    Some(_) => {},
                    None => {
                        ok = false;
                    },
                }
            }
            self.simulated_fills.push(fill);
            assert(v.fills + made.subrange(0, i + 1) =~= (v.fills + made.subrange(
                0,
                i as int,
            )).push(fill));
            i = i + 1;
        }
        assert(made.subrange(0, n as int) =~= made);
        assert(v.matched(self@, made, ok));
        ok
    }

    /// Takes the fills, those that the last quotes make among them. They come as an error where
    /// a step was too large.
    pub fn poll_user_fills(&mut self) -> (r: Result<Vec<Fill>, Vec<Fill>>)
        requires
            old(self).wf(),
        ensures
            final(self).wf(),
            r is Ok ==> exists|mid: PaperView<E>| #[trigger]
                old(self)@.matches_orders(mid, true) && either(r)@ == mid.fills && final(self)@
                    == mid.drained(),
            r is Err ==> exists|mid: PaperView<E>| #[trigger]
                old(self)@.matches_orders(mid, false) && either(r)@ == mid.fills && final(self)@
                    == mid.drained(),
    {
        let ok = self.check_fills();
        let ghost mid = self@;
        let mut fills: Vec<Fill> = Vec::new();
        std::mem::swap(&mut self.simulated_fills, &mut fills);
        assert(old(self)@.matches_orders(mid, ok));
        assert(fills@ == mid.fills);
        assert(self@ == mid.drained());
        let out: Result<Vec<Fill>, Vec<Fill>> = if ok {
            Ok(fills)
        } else {
            Err(fills)
        };
        assert(either(out) == fills);
        out
    }

    /// Whether the quotes are to be fetched from the source: none are queued and none are
    /// injected.
    pub fn wants_real_quotes(&self) -> (r: bool)
        ensures
            r == (self@.queue.len() == 0 && !self@.use_injected),
    {
        self.quote_queue.len() == 0 && !self.use_injected_quotes
    }

    fn marks(&self) -> (r: Option<StrMap<Decimal>>)
        ensures
            match marks_of(self@.quotes, self@.quotes.len()) {
                Some(m) => r matches Some(s) && s@ == m,
                None => r is None,
            },
    {
        let n: usize = self.last_quotes.len();
        let mut out: StrMap<Decimal> = StrMap::new();
        let mut failed = false;
        let mut i: usize = 0;
        while i < n
            invariant
                n == self.last_quotes.list().len(),
                i <= n,
                failed ==> marks_of(self@.quotes, i as nat) is None,
                !failed ==> marks_of(self@.quotes, i as nat) == Some(out@),
            decreases n - i,
        {
            let e = self.last_quotes.at(i);
            match try_halfway(e.1.bid.0, e.1.ask.0) {
                Some(mid) => {
                    out.insert(e.0.clone(), mid);
                },
                None => {
                    failed = true;
                },
            }
            i = i + 1;
        }
        if failed {
            None
        } else {
            Some(out)
        }
    }

    fn liquidate(&mut self) -> (r: bool)
        requires
            old(self).wf(),
        ensures
            final(self).wf(),
            match old(self)@.liquidated() {
                Some(ledger) => r && final(self)@ == (PaperView { ledger, ..old(self)@ }),
                None => !r && (PaperView { ledger: old(self)@.ledger, ..final(self)@ }) == old(self)@,
            },
    {
        let marks = match self.marks() {
            Some(m) => m,
            None => {
                return false;
            },
        };
        let list = match self.margin_ledger.try_check_liquidations(&marks) {
            Some(l) => l,
            None => {
                return false;
            },
        };
        let ghost v = self@;
        let mut ok = true;
        let mut i: usize = 0;
        while i < list.len()
            invariant
                i <= list@.len(),
                self.wf(),
                (PaperView { ledger: v.ledger, ..self@ }) == v,
                ok == (closed_out(v.ledger, list@, marks@, i as nat) is Some),
                ok ==> Some(self@.ledger) == closed_out(v.ledger, list@, marks@, i as nat),
            decreases list@.len() - i,
        {
            if ok {
                if let Some(mark) = marks.get(list[i].as_str()) {
                    if !self.margin_ledger.try_liquidate(&list[i], *mark) {
                        ok = false;
                    }
                }
            }
            i = i + 1;
        }
        ok
    }

    fn take_quotes(&mut self, quotes: &Vec<Quote>) -> (r: bool)
        requires
            old(self).wf(),
        ensures
            final(self).wf(),
            exists|mid: PaperView<E>| #[trigger] old(self)@.arrived(mid, final(self)@, quotes@, r),
    {
        let mut i: usize = 0;
        assert(quotes@.subrange(0, 0) =~= Seq::empty());
        while i < quotes.len()
            invariant
                i <= quotes@.len(),
                self.wf(),
                self@ == old(self)@.quoted(quotes@.subrange(0, i as int)),
            decreases quotes@.len() - i,
        {
            assert(quotes@.subrange(0, i + 1).drop_last() =~= quotes@.subrange(0, i as int));
            let q = quotes[i].clone();
            self.last_quotes.insert(q.instrument.0.clone(), q);
            i = i + 1;
        }
        assert(quotes@.subrange(0, quotes@.len() as int) =~= quotes@);
        let filled = self.check_fills();
        let ghost mid = self@;
        assert(old(self)@.quoted(quotes@).matches_orders(mid, filled));
        let ok = filled && self.liquidate();
        assert(old(self)@.arrived(mid, self@, quotes@, ok));
        ok
    }

    /// Takes the next quotes from the queue, or else those that are injected for the
    /// instruments. They come as an error where a step of what they set off was too large.
    pub fn poll_quotes(&mut self, instruments: &Vec<InstrumentId>) -> (r: Result<
        Vec<Quote>,
        Vec<Quote>,
    >)
        requires
            old(self).wf(),
            old(self)@.queue.len() > 0 || old(self)@.use_injected,
        ensures
            final(self).wf(),
            either(r)@ == old(self)@.next_quotes(instruments@),
            r is Ok ==> exists|mid: PaperView<E>| #[trigger]
                old(self)@.ready().arrived(mid, final(self)@, either(r)@, true),
            r is Err ==> exists|mid: PaperView<E>| #[trigger]
                old(self)@.ready().arrived(mid, final(self)@, either(r)@, false),
    {
        let mut quotes: Vec<Quote> = Vec::new();
        if self.quote_queue.len() > 0 {
            let q = self.quote_queue.remove(0);
            self.time_ms = q.ts;
            quotes.push(q);
            assert(self@.queue =~= old(self)@.queue.drop_first());
            assert(quotes@ =~= seq![old(self)@.queue[0]]);
        } else {
            let mut i: usize = 0;
            assert(instruments@.subrange(0, 0) =~= Seq::empty());
            while i < instruments.len()
                invariant
                    i <= instruments@.len(),
                    self.wf(),
                    self@ == old(self)@,
                    quotes@ == self@.injected_for(instruments@.subrange(0, i as int)),
                decreases instruments@.len() - i,
            {
                assert(instruments@.subrange(0, i + 1).drop_last() =~= instruments@.subrange(
                    0,
                    i as int,
                ));
                if let Some(q) = self.injected_quotes.get(instruments[i].as_str()) {
                    quotes.push(q.clone());
                }
                i = i + 1;
            }
            assert(instruments@.subrange(0, instruments@.len() as int) =~= instruments@);
        }
        assert(self@ == old(self)@.ready());
        let ok = self.take_quotes(&quotes);
        let out: Result<Vec<Quote>, Vec<Quote>> = if ok {
            Ok(quotes)
        } else {
            Err(quotes)
        };
        assert(either(out) == quotes);
        out
    }

    /// Takes quotes that were fetched from the source. Says `false` where a step of what they
    /// set off is too large.
    pub fn take_real_quotes(&mut self, quotes: &Vec<Quote>, now: i64) -> (r: bool)
        requires
            old(self).wf(),
        ensures
            final(self).wf(),
            exists|mid: PaperView<E>| #[trigger]
                old(self)@.at_time(now).arrived(mid, final(self)@, quotes@, r),
    {
        self.time_ms = now;
        assert(self@ == old(self)@.at_time(now));
        self.take_quotes(quotes)
    }

    /// The account at the last quotes, where no step is too large.
    pub fn poll_account_state(&self) -> (r: Option<AccountState>)
        ensures
            match self@.account() {
                Some((positions, equity, unrealized)) => r matches Some(a) && a.positions@
                    == positions && a.account_value == Some(equity) && a.unrealized_pnl == Some(
                    unrealized,
                ),
                None => r is None,
            },
    {
        let marks = match self.marks() {
            Some(m) => m,
            None => {
                return None;
            },
        };
        match (
            self.margin_ledger.try_position_snapshots(&marks),
            self.margin_ledger.try_equity(&marks),
            self.margin_ledger.try_total_unrealized_pnl(&marks),
        ) {
            (Some(positions), Some(equity), Some(unrealized)) => Some(
                AccountState {
                    positions,
                    account_value: Some(equity),
                    unrealized_pnl: Some(unrealized),
                },
            ),
            _ => None,
        }
    }
}

/// What came, as a success or as an error.
pub open spec fn either<T>(r: Result<T, T>) -> T {
    match r {
        Ok(x) => x,
        Err(x) => x,
    }
}

/// The orders were placed one after the other, through the states.
pub open spec fn all_placed<E>(
    before: PaperView<E>,
    after: PaperView<E>,
    states: Seq<PaperView<E>>,
    orders: Seq<OrderInput>,
    replies: Seq<PlaceOrderResult>,
) -> bool {
    &&& states.len() == replies.len() + 1
    &&& replies.len() <= orders.len()
    &&& states[0] == before
    &&& states.last() == after
    &&& forall|i: int|
        0 <= i < replies.len() ==> states[i].placed(
            states[i + 1],
            orders[i],
            #[trigger] replies[i],
        ) && states[i].place_fits(orders[i])
}

/// An order that is refused changes nothing.
pub proof fn law_refused_order_changes_nothing<E>(
    v: PaperView<E>,
    after: PaperView<E>,
    order: OrderInput,
    reply: PlaceOrderResult,
)
    requires
        v.placed(after, order, reply),
        v.refusal(order) matches Some(Some(_)),
    ensures
        after == v,
        reply is Rejected,
{
}

/// Every order that is not refused for want of funds gets an id of its own: the numbers of
/// the ids grow by one.
pub proof fn law_order_ids_grow<E>(
    v: PaperView<E>,
    after: PaperView<E>,
    order: OrderInput,
    reply: PlaceOrderResult,
)
    requires
        v.place_fits(order),
        v.placed(after, order, reply),
    ensures
        after.sim.next_oid == v.sim.next_oid + (if v.refusal(order)->0 is None {
            1int
        } else {
            0
        }),
{
    if v.refusal(order)->0 is None {
        if order.tif is Ioc {
            if let Some(px) = v.instant_price(order) {
                assert((PaperView { fills: v.fills, ..after }).sim.next_oid == v.sim.next_oid + 1);
            }
        }
    }
}

/// The exchange after the next quotes were taken several times.
pub open spec fn ready_times<E>(v: PaperView<E>, n: nat) -> PaperView<E>
    decreases n,
{
    if n == 0 {
        v
    } else {
        ready_times(v, (n - 1) as nat).ready()
    }
}

/// Queued quotes come out first in, first out: the next one is always the one that was queued
/// first of those that are left, its time becomes that of the exchange, and what is queued
/// later waits behind. After as many steps as there are quotes the queue is empty.
pub proof fn law_queue_is_first_in_first_out<E>(v: PaperView<E>, later: Seq<Quote>, n: nat)
    requires
        n <= v.queue.len(),
    ensures
        ready_times(v, n).queue == v.queue.subrange(n as int, v.queue.len() as int),
        n > 0 ==> ready_times(v, n).time == v.queue[n - 1].ts,
        ready_times(v, n).fills == v.fills,
        ready_times(v, n).sim == v.sim,
        ready_times(v, n).ledger == v.ledger,
        ready_times(PaperView { queue: v.queue + later, ..v }, n).queue == v.queue.subrange(
            n as int,
            v.queue.len() as int,
        ) + later,
    decreases n,
{
    let w = PaperView { queue: v.queue + later, ..v };
    if n == 0 {
        assert(v.queue.subrange(0, v.queue.len() as int) =~= v.queue);
    } else {
        law_queue_is_first_in_first_out(v, later, (n - 1) as nat);
        let q = ready_times(v, (n - 1) as nat).queue;
        assert(q[0] == v.queue[n - 1]);
        assert(q.drop_first() =~= v.queue.subrange(n as int, v.queue.len() as int));
        let p = ready_times(w, (n - 1) as nat).queue;
        assert(p.drop_first() =~= v.queue.subrange(n as int, v.queue.len() as int) + later);
    }
}

/// An exchange without orders fills nothing, whatever is quoted: its orders and balances stay.
pub proof fn law_nothing_to_fill<E>(v: PaperView<E>, n: int)
    requires
        forall|k: Seq<char>| v.sim.buys.contains_key(k) ==> (#[trigger] v.sim.buys[k]).len() == 0,
        forall|k: Seq<char>| v.sim.sells.contains_key(k) ==> (#[trigger] v.sim.sells[k]).len() == 0,
        0 <= n <= v.quotes.len(),
    ensures
        v.sim.filled(v.quotes, n).len() == 0,
    decreases n,
{
    if n > 0 {
        law_nothing_to_fill(v, n - 1);
        let k = v.quotes[n - 1].0@;
        let q = v.quotes[n - 1].1;
        fill_simulator::lemma_empty_is_not_reached(OrderSide::Buy, q.ask.0);
        fill_simulator::lemma_empty_is_not_reached(OrderSide::Sell, q.bid.0);
        assert(fill_simulator::queue(v.sim.buys, k) =~= Seq::empty());
        assert(fill_simulator::queue(v.sim.sells, k) =~= Seq::empty());
    }
}

} // verus!
