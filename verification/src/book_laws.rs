//! What is listed, counted and kept: batches, waiting orders, rows and recorded calls.
use vstd::prelude::*;
use crate::account_syncer;
use crate::decimal;
use crate::fill_simulator;
use crate::loop_laws;
use crate::mock_syncer;
use crate::order_manager;
use crate::paper_exchange;
use crate::performance;
use crate::report_laws;
use crate::runner;
use crate::start_laws;
use crate::startup;
use crate::state;
use crate::strmap;
use crate::text;
use crate::wasm_api;
use crate::account_syncer::PositionInfo;
use crate::commands::PlaceOrder;
use crate::config::BotConfig;
use crate::decimal::Decimal;
use crate::events::Event;
use crate::exchange::{ExchangeError, Fill, OrderInput, PlaceOrderResult};
use crate::fill_simulator::{Balances, PendingOrder, Queues};
use crate::market::HyperliquidMarket;
use crate::mock_exchange::{MockKnobs, MockView};
use crate::mock_syncer::{AccountSyncCall, TradeSyncCall};
use crate::order_manager::OrderBook;
use crate::paper_exchange::PaperView;
use crate::performance::{BacktestClosedTrade, BacktestEquityPoint, ClosedTrade, EquityPoint};
use crate::startup::{BacktestPricePoint, Priced, Stock};
use crate::state::StateView;
use crate::types::{AccountState, ClientOrderId, InstrumentId, InstrumentMeta, OrderStatus, PositionSnapshot, Quote};

verus! {

/// Fills are booked one after the other: all of the first ones, then all of the others; no fill
/// books nothing, and one fill books itself.
pub proof fn law_fills_are_booked_in_turn(b: Balances, first: Seq<Fill>, more: Seq<Fill>)
    ensures
        fill_simulator::all_booked(b, Seq::<Fill>::empty()) == Some(b),
        forall|f: Fill| fill_simulator::all_booked(b, seq![f]) == #[trigger] fill_simulator::booked(b, f),
        fill_simulator::all_booked(b, first + more) == (match fill_simulator::all_booked(b, first) {
            Some(c) => fill_simulator::all_booked(c, more),
            None => None,
        }),
    decreases more.len(),
{
    assert forall|f: Fill| fill_simulator::all_booked(b, seq![f]) == #[trigger] fill_simulator::booked(b, f) by {
        assert(seq![f].drop_last() =~= Seq::<Fill>::empty());
        assert(fill_simulator::all_booked(b, Seq::<Fill>::empty()) == Some(b));
    }
    let s = first + more;
    if more.len() > 0 {
        law_fills_are_booked_in_turn(b, first, more.drop_last());
        assert(s.drop_last() =~= first + more.drop_last());
        assert(s.last() == more.last());
    } else {
        assert(s =~= first);
    }
}

spec fn waits_in(q: Queues, names: Seq<Seq<char>>, n: int, order: PendingOrder) -> bool {
    exists|k: int| 0 <= k < n && q[#[trigger] names[k]].contains(order)
}

proof fn lemma_listed(q: Queues, names: Seq<Seq<char>>, n: int)
    requires
        0 <= n <= names.len(),
    ensures
        forall|i: int|
            0 <= i < fill_simulator::lined(q, names, n).len() ==> waits_in(
                q,
                names,
                n,
                #[trigger] fill_simulator::lined(q, names, n)[i],
            ),
        forall|k: int, x: int|
            0 <= k < n && 0 <= x < q[names[k]].len() ==> fill_simulator::lined(q, names, n).contains(
                #[trigger] q[#[trigger] names[k]][x],
            ),
    decreases n,
{
    if n > 0 {
        lemma_listed(q, names, n - 1);
        let a = fill_simulator::lined(q, names, n - 1);
        let b = fill_simulator::lined(q, names, n);
        assert forall|i: int| 0 <= i < b.len() implies waits_in(q, names, n, #[trigger] b[i]) by {
            if i < a.len() {
                assert(b[i] == a[i]);
                let k = choose|k: int| 0 <= k < n - 1 && q[#[trigger] names[k]].contains(a[i]);
                assert(q[names[k]].contains(b[i]));
            } else {
                assert(q[names[n - 1]][i - a.len()] == b[i]);
                assert(q[names[n - 1]].contains(b[i]));
            }
        }
        assert forall|k: int, x: int| 0 <= k < n && 0 <= x < q[names[k]].len() implies b.contains(
            #[trigger] q[#[trigger] names[k]][x],
        ) by {
            if k < n - 1 {
                let j = choose|j: int| 0 <= j < a.len() && a[j] == q[names[k]][x];
                assert(b[j] == q[names[k]][x]);
            } else {
                assert(b[a.len() + x] == q[names[k]][x]);
            }
        }
    }
}

/// The orders that are listed are just those that wait in a queue.
pub proof fn law_listed_orders_are_those_that_wait(q: Queues, orders: Seq<PendingOrder>)
    requires
        fill_simulator::lists_all(q, orders),
    ensures
        forall|i: int|
            0 <= i < orders.len() ==> exists|k: Seq<char>|
                q.contains_key(k) && (#[trigger] q[k]).contains(#[trigger] orders[i]),
        forall|k: Seq<char>, x: int|
            q.contains_key(k) && 0 <= x < q[k].len() ==> orders.contains(#[trigger] q[k][x]),
{
    let names = choose|names: Seq<Seq<char>>| #[trigger]
        fill_simulator::names_each(q, names) && orders == fill_simulator::lined(
            q,
            names,
            names.len() as int,
        );
    lemma_listed(q, names, names.len() as int);
    assert forall|i: int| 0 <= i < orders.len() implies exists|k: Seq<char>|
        q.contains_key(k) && (#[trigger] q[k]).contains(#[trigger] orders[i]) by {
        assert(waits_in(q, names, names.len() as int, orders[i]));
        let k = choose|k: int| 0 <= k < names.len() && q[#[trigger] names[k]].contains(orders[i]);
        assert(names.contains(names[k]));
        assert(q.contains_key(names[k]));
        assert(q[names[k]].contains(orders[i]));
    }
    assert forall|k: Seq<char>, x: int| q.contains_key(k) && 0 <= x < q[k].len() implies orders.contains(
        #[trigger] q[k][x],
    ) by {
        assert(names.contains(k));
        let j = choose|j: int| 0 <= j < names.len() && names[j] == k;
        assert(q[names[j]][x] == q[k][x]);
    }
}

/// An order that is taken out has the id that was asked for; it alone leaves its queue, and the
/// others keep their order, and no other queue changes.
pub proof fn law_one_order_is_taken_out(
    before: Queues,
    after: Queues,
    k: Seq<char>,
    id: Seq<char>,
    order: PendingOrder,
)
    requires
        fill_simulator::took_client(before, after, k, id, order),
        before.contains_key(k),
    ensures
        order.client_id@ == id,
        after.contains_key(k),
        before[k].len() == after[k].len() + 1,
        exists|at: int| 0 <= at < before[k].len() && before[k][at] == order && after[k] == #[trigger] before[k].remove(at),
        forall|j: Seq<char>| j != k ==> (#[trigger] after.contains_key(j) <==> before.contains_key(j)),
        forall|j: Seq<char>| j != k && after.contains_key(j) ==> #[trigger] after[j] == before[j],
{
    let at = fill_simulator::client_index(before[k], id, 0);
    lemma_client(before[k], id, 0);
    assert(after[k] == before[k].remove(at));
}

proof fn lemma_client(s: Seq<PendingOrder>, id: Seq<char>, i: int)
    requires
        0 <= i <= s.len(),
    ensures
        i <= fill_simulator::client_index(s, id, i) <= s.len(),
    decreases s.len() - i,
{
    if i < s.len() && s[i].client_id@ != id {
        lemma_client(s, id, i + 1);
    }
}

/// A poll brings the first of the quotes that wait, and only where none waits those that are
/// injected for what is asked for.
pub proof fn law_waiting_quotes_come_first<E>(v: PaperView<E>, instruments: Seq<InstrumentId>)
    ensures
        v.queue.len() > 0 ==> v.next_quotes(instruments).len() == 1 && v.next_quotes(instruments)[0]
            == v.queue[0],
        v.queue.len() == 0 ==> forall|i: int|
            0 <= i < instruments.len() ==> (strmap::lookup(v.injected, (#[trigger] instruments[i])@) matches Some(
                q,
            ) ==> v.next_quotes(instruments).contains(q)),
        v.queue.len() == 0 ==> forall|j: int|
            0 <= j < v.next_quotes(instruments).len() ==> exists|i: int|
                0 <= i < instruments.len() && strmap::lookup(v.injected, (#[trigger] instruments[i])@)
                    == Some(#[trigger] v.next_quotes(instruments)[j]),
    decreases instruments.len(),
{
    if v.queue.len() == 0 && instruments.len() > 0 {
        let front = instruments.drop_last();
        law_waiting_quotes_come_first(v, front);
        let (a, b) = (v.next_quotes(front), v.next_quotes(instruments));
        if let Some(q) = strmap::lookup(v.injected, instruments.last()@) {
            assert(b[a.len() as int] == q);
        }
        assert forall|i: int| 0 <= i < instruments.len() implies (strmap::lookup(
            v.injected,
            (#[trigger] instruments[i])@,
        ) matches Some(q) ==> b.contains(q)) by {
            if i < front.len() {
                assert(front[i] == instruments[i]);
                if let Some(q) = strmap::lookup(v.injected, instruments[i]@) {
                    let j = choose|j: int| 0 <= j < a.len() && a[j] == q;
                    assert(b[j] == q);
                }
            }
        }
        assert forall|j: int| 0 <= j < b.len() implies exists|i: int|
            0 <= i < instruments.len() && strmap::lookup(v.injected, (#[trigger] instruments[i])@) == Some(
                #[trigger] b[j],
            ) by {
            if j < a.len() {
                assert(a[j] == b[j]);
                let i = choose|i: int|
                    0 <= i < front.len() && strmap::lookup(v.injected, (#[trigger] front[i])@) == Some(a[j]);
                assert(instruments[i] == front[i]);
            } else {
                assert(instruments[instruments.len() - 1] == instruments.last());
            }
        }
    }
}

/// What is held of a perpetual is its position, with its sign; of anything else the balance of its
/// base.
pub proof fn law_holdings_are_shown<E>(v: PaperView<E>, instrument: InstrumentId)
    ensures
        text::finishes_with(instrument@, "-PERP"@) ==> (match v.ledger.position(instrument) {
            Some(p) => v.held_of(instrument) == p.qty,
            None => decimal::units(v.held_of(instrument)) == 0,
        }),
        !text::finishes_with(instrument@, "-PERP"@) ==> v.held_of(instrument) == fill_simulator::held(
            v.sim.balances,
            fill_simulator::base_of(instrument@),
        ),
{
    broadcast use crate::decimal::lemma_of_view;

    decimal::lemma_units_sign(decimal::zero());
}

/// An order that is refused changes nothing; one that is not and may wait is taken. One that is
/// filled at once is filled for what it asked, and the reply and the fill tell the same price and
/// quantity.
pub proof fn law_orders_are_answered<E>(
    v: PaperView<E>,
    w: PaperView<E>,
    order: OrderInput,
    reply: PlaceOrderResult,
)
    requires
        v.placed(w, order, reply),
        v.refusal(order) is Some,
    ensures
        v.refusal(order)->0 is Some ==> w == v && reply is Rejected,
        v.refusal(order)->0 is None && !(order.tif is Ioc) ==> reply is Accepted && w.fills == v.fills,
        v.refusal(order)->0 is None && order.tif is Ioc ==> (match v.instant_price(order) {
            Some(px) => {
                &&& reply matches PlaceOrderResult::Accepted {
                    exchange_order_id: Some(id),
                    filled_qty: Some(q),
                    avg_fill_px: Some(p),
                } && q == w.fills.last().qty && p == w.fills.last().price
                &&& w.fills == v.fills.push(w.fills.last())
                &&& w.fills.last().client_id == Some(order.client_id)
                &&& w.fills.last().instrument == order.instrument
                &&& w.fills.last().side == order.side
                &&& w.fills.last().qty == order.qty
                &&& w.fills.last().price == px
                &&& w.fills.last().ts == v.time
            },
            None => reply is Rejected && w.fills == v.fills,
        }),
{
    if v.refusal(order)->0 is None && order.tif is Ioc && v.instant_price(order) is Some {
        assert(w.fills =~= w.fills.drop_last().push(w.fills.last()));
    }
}

/// The fills that quotes bring are added to those that wait to be polled, each for the order that
/// was reached; a poll takes them all, and nothing but them.
pub proof fn law_fills_wait_for_the_poll<E>(v: PaperView<E>, w: PaperView<E>, fills: Seq<Fill>, ok: bool)
    requires
        v.matched(w, fills, ok),
    ensures
        w.fills == v.fills + fills,
        fills.len() == v.hit().len(),
        forall|i: int|
            0 <= i < fills.len() ==> (#[trigger] fills[i]).qty == v.hit()[i].0.remaining_qty && fills[i].price
                == v.hit()[i].1 && fills[i].side == v.hit()[i].0.side,
        w.quotes == v.quotes,
        w.time == v.time,
        w.drained().fills.len() == 0,
        w.drained().sim == w.sim,
        w.drained().ledger == w.ledger,
        w.drained().quotes == w.quotes,
{
}

/// Where no position is due, no position is closed.
pub proof fn law_nothing_due_is_nothing_closed<E>(v: PaperView<E>, marks: Map<Seq<char>, Decimal>)
    requires
        paper_exchange::marks_of(v.quotes, v.quotes.len()) == Some(marks),
        v.ledger.liquidations(marks, v.ledger.positions.len()) == Some(Seq::<InstrumentId>::empty()),
    ensures
        v.liquidated() == Some(v.ledger),
{
}

/// A mock exchange that nobody told otherwise takes every order, answers and fills nothing by
/// itself.
pub proof fn law_mock_is_well_unless_told(k: MockKnobs)
    requires
        k == MockKnobs::usual(),
    ensures
        k.order_fail_mode is AlwaysSucceed,
        k.exchange_health is Active,
        !k.should_timeout,
        !k.should_rate_limit,
        !k.fill_all_immediately,
{
}

/// The quotes of a mock exchange are those of the instruments that it has a price for, in order.
pub proof fn law_mock_quotes_what_it_knows(v: MockView, instruments: Seq<InstrumentId>)
    requires
        v.quotes_for(instruments) is Some,
    ensures
        forall|i: int|
            0 <= i < instruments.len() ==> (v.quote_for(#[trigger] instruments[i]) matches Some(Some(q))
                ==> v.quotes_for(instruments)->0.contains(q)),
        forall|j: int|
            0 <= j < v.quotes_for(instruments)->0.len() ==> exists|i: int|
                0 <= i < instruments.len() && v.quote_for(#[trigger] instruments[i]) == Some(
                    Some(#[trigger] v.quotes_for(instruments)->0[j]),
                ),
    decreases instruments.len(),
{
    if instruments.len() > 0 {
        let front = instruments.drop_last();
        law_mock_quotes_what_it_knows(v, front);
        let (a, b) = (v.quotes_for(front)->0, v.quotes_for(instruments)->0);
        if let Some(Some(q)) = v.quote_for(instruments.last()) {
            assert(b[a.len() as int] == q);
        }
        assert forall|i: int| 0 <= i < instruments.len() implies (v.quote_for(
            #[trigger] instruments[i],
        ) matches Some(Some(q)) ==> b.contains(q)) by {
            if i < front.len() {
                assert(front[i] == instruments[i]);
                if let Some(Some(q)) = v.quote_for(instruments[i]) {
                    let j = choose|j: int| 0 <= j < a.len() && a[j] == q;
                    assert(b[j] == q);
                }
            }
        }
        assert forall|j: int| 0 <= j < b.len() implies exists|i: int|
            0 <= i < instruments.len() && v.quote_for(#[trigger] instruments[i]) == Some(
                Some(#[trigger] b[j]),
            ) by {
            if j < a.len() {
                assert(a[j] == b[j]);
                let i = choose|i: int|
                    0 <= i < front.len() && v.quote_for(#[trigger] front[i]) == Some(Some(a[j]));
                assert(instruments[i] == front[i]);
            } else {
                assert(instruments[instruments.len() - 1] == instruments.last());
            }
        }
    }
}

/// The calls that came with a stop are counted and listed: as many as are listed, each with a
/// stop, and never more than there were calls.
pub proof fn law_stops_are_counted(s: Seq<AccountSyncCall>)
    ensures
        mock_syncer::stop_calls(s).len() == mock_syncer::stops_among(s),
        mock_syncer::stops_among(s) <= s.len(),
        forall|i: int|
            0 <= i < mock_syncer::stop_calls(s).len() ==> (#[trigger] mock_syncer::stop_calls(s)[i]).stop_bot,
        forall|i: int|
            0 <= i < s.len() && (#[trigger] s[i]).stop_bot ==> mock_syncer::stop_calls(s).contains(s[i]),
    decreases s.len(),
{
    if s.len() > 0 {
        let t = s.drop_last();
        law_stops_are_counted(t);
        let (a, b) = (mock_syncer::stop_calls(t), mock_syncer::stop_calls(s));
        if s.last().stop_bot {
            assert(b[a.len() as int] == s.last());
        }
        assert forall|i: int| 0 <= i < b.len() implies (#[trigger] b[i]).stop_bot by {
            if i < a.len() {
                assert(b[i] == a[i]);
            }
        }
        assert forall|i: int| 0 <= i < s.len() && (#[trigger] s[i]).stop_bot implies b.contains(s[i]) by {
            if i < t.len() {
                assert(t[i] == s[i]);
                let j = choose|j: int| 0 <= j < a.len() && a[j] == s[i];
                assert(b[j] == s[i]);
            }
        }
    }
}

/// One more call adds its fills to those that were recorded.
pub proof fn law_recorded_fills_add_up(s: Seq<TradeSyncCall>, call: TradeSyncCall)
    ensures
        mock_syncer::fills_among(s.push(call)) == mock_syncer::fills_among(s) + call.fills@.len(),
        mock_syncer::fills_among(Seq::<TradeSyncCall>::empty()) == 0,
{
    assert(s.push(call).drop_last() =~= s);
}

/// A point of the curve is shown with numbers that can be read back.
pub proof fn law_point_is_shown(row: BacktestEquityPoint, p: EquityPoint)
    requires
        performance::shows_point(row, p),
        p.equity@.valid(),
        p.net_pnl@.valid(),
        p.price matches Some(x) ==> x@.valid(),
    ensures
        row.ts_ms == p.ts_ms,
        report_laws::denoted(row.equity@) == Some(p.equity@),
        report_laws::denoted(row.net_pnl@) == Some(p.net_pnl@),
        row.price is Some <==> p.price is Some,
        p.price matches Some(x) ==> (row.price matches Some(t) && report_laws::denoted(t@) == Some(x@)),
{
    report_laws::law_number_reads_back(p.equity@);
    report_laws::law_number_reads_back(p.net_pnl@);
    if let Some(x) = p.price {
        report_laws::law_number_reads_back(x@);
    }
}

/// There is a row for every closed trade, in their order, and long ones are shown as such.
pub proof fn law_every_trade_has_its_row(rows: Seq<BacktestClosedTrade>, trades: Seq<ClosedTrade>, i: int)
    requires
        performance::show_trades(rows, trades),
        0 <= i < trades.len(),
    ensures
        rows.len() == trades.len(),
        rows[i].side@ == "LONG"@ <==> trades[i].long,
        rows[i].entry_ts_ms == trades[i].entry_ts_ms,
        rows[i].exit_ts_ms == trades[i].exit_ts_ms,
        rows[i].qty@ == decimal::decimal_text(trades[i].qty@),
        rows[i].net_pnl@ == decimal::decimal_text(trades[i].net_pnl@),
{
    reveal_strlit("LONG");
    reveal_strlit("SHORT");
    assert("LONG"@.len() == 4 && "SHORT"@.len() == 5);
    assert(performance::shows_trade(rows[i], trades[i]));
}

/// There is a row for every position, in their order.
pub proof fn law_every_position_has_its_row(rows: Seq<PositionInfo>, s: Seq<PositionSnapshot>, i: int)
    requires
        account_syncer::show_positions(rows, s),
        0 <= i < s.len(),
    ensures
        rows.len() == s.len(),
        rows[i].instrument_id@ == s[i].instrument@,
        rows[i].qty@ == decimal::decimal_text(s[i].qty@),
        s[i].unrealized_pnl matches Some(u) ==> rows[i].unrealized_pnl@ == decimal::decimal_text(u@),
        s[i].unrealized_pnl is None ==> rows[i].unrealized_pnl@ == "0"@,
{
    assert(account_syncer::shows_position(rows[i], s[i]));
}

/// The figures of an account that are recorded are its own, and zero only where there are none.
pub proof fn law_recorded_account_is_its_own(
    call: AccountSyncCall,
    account: AccountState,
    stop_bot: bool,
    reason: Seq<char>,
    now: i64,
)
    requires
        mock_syncer::records(call, account, stop_bot, reason, now),
    ensures
        account.account_value matches Some(x) ==> call.account_value == x,
        account.unrealized_pnl matches Some(x) ==> call.unrealized_pnl == x,
        account.account_value is None ==> decimal::units(call.account_value) == 0,
        account.unrealized_pnl is None ==> decimal::units(call.unrealized_pnl) == 0,
        call.positions@.len() == account.positions@.len(),
        now >= 0 ==> 1000 * call.ts <= now < 1000 * call.ts + 1000,
        call.stop_bot == stop_bot,
{
    broadcast use crate::decimal::lemma_of_view;

    decimal::lemma_units_sign(decimal::zero());
}

/// An order that ends keeps its terms and what was filled of it.
pub proof fn law_ended_order_keeps_its_terms(
    book: OrderBook,
    client_id: ClientOrderId,
    status: OrderStatus,
    now: i64,
)
    ensures
        book.ended(client_id, status, now) is Some <==> book.order(client_id) is Some,
        book.ended(client_id, status, now) matches Some(e) ==> (book.order(client_id) matches Some(o) && {
            &&& e.status == status
            &&& e.ts_last_update == now
            &&& e.client_id == o.client_id
            &&& e.instrument == o.instrument
            &&& e.side == o.side
            &&& e.price == o.price
            &&& e.requested_qty == o.requested_qty
            &&& e.filled_qty == o.filled_qty
            &&& e.exchange_order_id == o.exchange_order_id
        }),
{
}

/// Every order of a batch that is about to be sent is tracked, and what was tracked besides stays
/// as it was.
pub proof fn law_batch_is_tracked(book: OrderBook, inputs: Seq<OrderInput>, now: i64)
    requires
        book.sound(),
    ensures
        runner::all_followed(book, inputs, now).sound(),
        forall|i: int|
            0 <= i < inputs.len() ==> runner::all_followed(book, inputs, now).order(
                (#[trigger] inputs[i]).client_id,
            ) is Some,
        forall|id: ClientOrderId|
            (forall|i: int| 0 <= i < inputs.len() ==> (#[trigger] inputs[i]).client_id@ != id@)
                ==> #[trigger] runner::all_followed(book, inputs, now).order(id) == book.order(id),
    decreases inputs.len(),
{
    if inputs.len() > 0 {
        let front = inputs.drop_last();
        law_batch_is_tracked(book, front, now);
        let (a, b) = (runner::all_followed(book, front, now), runner::all_followed(book, inputs, now));
        let last = inputs.last();
        strmap::lemma_put(
            a.orders,
            last.client_id.0,
            order_manager::fresh_order(
                last.client_id,
                last.instrument,
                last.side,
                last.price,
                last.qty,
                now,
            ),
        );
        assert forall|i: int| 0 <= i < inputs.len() implies b.order((#[trigger] inputs[i]).client_id) is Some by {
            loop_laws::law_sent_order_is_tracked(a, last, now, inputs[i].client_id);
            if i < front.len() {
                assert(front[i] == inputs[i]);
            }
        }
        assert forall|id: ClientOrderId|
            (forall|i: int| 0 <= i < inputs.len() ==> (#[trigger] inputs[i]).client_id@ != id@) implies #[trigger] b.order(
            id,
        ) == book.order(id) by {
            loop_laws::law_sent_order_is_tracked(a, last, now, id);
            assert(inputs[inputs.len() - 1].client_id@ != id@);
            assert forall|i: int| 0 <= i < front.len() implies (#[trigger] front[i]).client_id@ != id@ by {
                assert(inputs[i] == front[i]);
            }
        }
    }
}

/// After a batch failed none of its orders is tracked, and what was tracked besides stays as it
/// was.
pub proof fn law_failed_batch_is_dropped(book: OrderBook, orders: Seq<PlaceOrder>)
    requires
        book.sound(),
    ensures
        runner::all_dropped(book, orders).sound(),
        forall|i: int|
            0 <= i < orders.len() ==> runner::all_dropped(book, orders).order(
                (#[trigger] orders[i]).client_id,
            ) is None,
        forall|id: ClientOrderId|
            (forall|i: int| 0 <= i < orders.len() ==> (#[trigger] orders[i]).client_id@ != id@)
                ==> #[trigger] runner::all_dropped(book, orders).order(id) == book.order(id),
    decreases orders.len(),
{
    if orders.len() > 0 {
        let front = orders.drop_last();
        law_failed_batch_is_dropped(book, front);
        let (a, b) = (runner::all_dropped(book, front), runner::all_dropped(book, orders));
        let last = orders.last().client_id;
        order_manager::law_dropped_order_is_gone(a, last);
        strmap::lemma_without(a.orders, last@);
        if let Some(o) = a.order(last) {
            if let Some(eid) = o.exchange_order_id {
                strmap::lemma_without(a.by_exchange, eid@);
            }
        }
        assert forall|i: int| 0 <= i < orders.len() implies b.order((#[trigger] orders[i]).client_id) is None by {
            if i < front.len() {
                assert(front[i] == orders[i]);
            }
        }
        assert forall|id: ClientOrderId|
            (forall|i: int| 0 <= i < orders.len() ==> (#[trigger] orders[i]).client_id@ != id@) implies #[trigger] b.order(
            id,
        ) == book.order(id) by {
            assert(orders[orders.len() - 1].client_id@ != id@);
            assert forall|i: int| 0 <= i < front.len() implies (#[trigger] front[i]).client_id@ != id@ by {
                assert(orders[i] == front[i]);
            }
            assert(a.order(id) == book.order(id));
            assert(strmap::map_of(b.orders).contains_key(id@) == strmap::map_of(a.orders).contains_key(id@));
        }
    }
}

/// A command waits for the exchange just where the error says that it takes no more actions, and
/// as long as it says.
pub proof fn law_only_the_limit_makes_wait(e: ExchangeError)
    ensures
        runner::limit_of(e) is Some <==> e is WouldExceedUserActionLimit,
        e matches ExchangeError::WouldExceedUserActionLimit { retry_after_ms, .. } ==> runner::limit_of(e)
            == Some(retry_after_ms),
{
}

/// The refusal of an order is told of that order, on its exchange, with the reason.
pub proof fn law_refusals_are_told(
    events: Seq<Event>,
    orders: Seq<PlaceOrder>,
    reason: Seq<char>,
    now: i64,
    i: int,
)
    requires
        runner::are_rejections(events, orders, reason, now),
        0 <= i < orders.len(),
    ensures
        events.len() == orders.len(),
        events[i] matches Event::OrderRejected(e) && e.client_id == orders[i].client_id && e.instrument
            == orders[i].instrument && e.exchange == orders[i].exchange.exchange_id && e.reason@ == reason
            && e.ts == now,
{
    assert(runner::is_rejection(events[i], orders[i], reason, now));
}

/// Of the instruments of a cancel just those have a market that are known, each its own.
pub proof fn law_cancels_reach_known_markets(v: StateView, s: Seq<InstrumentId>)
    ensures
        forall|j: int|
            0 <= j < runner::markets_of(v, s).len() ==> s.contains((#[trigger] runner::markets_of(v, s)[j]).0) && (
            strmap::lookup(v.instruments, runner::markets_of(v, s)[j].0@) matches Some(m) && m.market_index
                == runner::markets_of(v, s)[j].1),
        forall|i: int|
            0 <= i < s.len() ==> (strmap::lookup(v.instruments, (#[trigger] s[i])@) matches Some(m)
                ==> runner::markets_of(v, s).contains((s[i], m.market_index))),
    decreases s.len(),
{
    if s.len() > 0 {
        let t = s.drop_last();
        law_cancels_reach_known_markets(v, t);
        let (a, b) = (runner::markets_of(v, t), runner::markets_of(v, s));
        if let Some(m) = strmap::lookup(v.instruments, s.last()@) {
            assert(b[a.len() as int] == (s.last(), m.market_index));
        }
        assert forall|j: int| 0 <= j < b.len() implies s.contains((#[trigger] b[j]).0) && (strmap::lookup(
            v.instruments,
            b[j].0@,
        ) matches Some(m) && m.market_index == b[j].1) by {
            if j < a.len() {
                assert(b[j] == a[j]);
                let i = choose|i: int| 0 <= i < t.len() && t[i] == a[j].0;
                assert(s[i] == b[j].0);
            } else {
                assert(s[s.len() - 1] == b[j].0);
            }
        }
        assert forall|i: int| 0 <= i < s.len() implies (strmap::lookup(v.instruments, (#[trigger] s[i])@) matches Some(
            m,
        ) ==> b.contains((s[i], m.market_index))) by {
            if i < t.len() {
                assert(t[i] == s[i]);
                if let Some(m) = strmap::lookup(v.instruments, s[i]@) {
                    let j = choose|j: int| 0 <= j < a.len() && a[j] == (s[i], m.market_index);
                    assert(b[j] == (s[i], m.market_index));
                }
            }
        }
    }
}

/// All positions are marked, each at the quote of its own instrument.
pub proof fn law_every_position_is_marked(v: StateView, n: nat)
    requires
        n <= v.positions.len(),
        v.all_marked(n) is Some,
    ensures
        v.all_marked(n)->0.len() == n,
        forall|i: int|
            0 <= i < n ==> (#[trigger] v.all_marked(n)->0[i]).0 == v.positions[i].0 && state::position_marked(
                v.positions[i].1,
                strmap::lookup(v.quotes, v.positions[i].0@),
            ) == Some(v.all_marked(n)->0[i].1),
    decreases n,
{
    if n > 0 {
        law_every_position_is_marked(v, (n - 1) as nat);
        let (a, b) = (v.all_marked((n - 1) as nat)->0, v.all_marked(n)->0);
        assert forall|i: int| 0 <= i < n implies (#[trigger] b[i]).0 == v.positions[i].0 && state::position_marked(
            v.positions[i].1,
            strmap::lookup(v.quotes, v.positions[i].0@),
        ) == Some(b[i].1) by {
            if i < n - 1 {
                assert(b[i] == a[i]);
            }
        }
    }
}

/// A price of a file is that of a row and of a point in it: the row names an instrument that is
/// known, and the point has the price and the time.
pub open spec fn of_row(
    p: Priced,
    metas: Seq<InstrumentMeta>,
    row: (String, Vec<BacktestPricePoint>),
) -> bool {
    &&& p.instrument == row.0@
    &&& p.meta.instrument_id@ == row.0@
    &&& metas.contains(p.meta)
    &&& exists|k: int| 0 <= k < row.1@.len() && start_laws::of_point(p, p.meta, #[trigger] row.1@[k])
}

/// Every price of a file is that of a point of a row.
pub proof fn law_rows_are_priced(
    metas: Seq<InstrumentMeta>,
    rows: Seq<(String, Vec<BacktestPricePoint>)>,
    n: nat,
)
    requires
        n <= rows.len(),
    ensures
        forall|i: int|
            0 <= i < startup::multi_prices(metas, rows, n).len() ==> exists|r: int|
                0 <= r < n && of_row(
                    #[trigger] startup::multi_prices(metas, rows, n)[i],
                    metas,
                    #[trigger] rows[r],
                ),
    decreases n,
{
    if n > 0 {
        law_rows_are_priced(metas, rows, (n - 1) as nat);
        let a = startup::multi_prices(metas, rows, (n - 1) as nat);
        let b = startup::multi_prices(metas, rows, n);
        let row = rows[n - 1];
        start_laws::law_instrument_is_found_by_name(metas, row.0@, metas.len());
        assert forall|i: int| 0 <= i < b.len() implies exists|r: int|
            0 <= r < n && of_row(#[trigger] b[i], metas, #[trigger] rows[r]) by {
            if i < a.len() {
                assert(b[i] == a[i]);
                let r = choose|r: int| 0 <= r < n - 1 && of_row(a[i], metas, #[trigger] rows[r]);
                assert(of_row(b[i], metas, rows[r]));
            } else {
                let meta = startup::meta_named(metas, row.0@, metas.len())->0;
                let s = startup::point_prices(meta, row.1@, row.1@.len());
                start_laws::law_points_are_priced(meta, row.1@, row.1@.len());
                assert(b[i] == s[i - a.len()]);
                let k = choose|k: int|
                    0 <= k < row.1@.len() && start_laws::of_point(s[i - a.len()], meta, #[trigger] row.1@[k]);
                assert(start_laws::of_point(b[i], b[i].meta, row.1@[k]));
                assert(metas.contains(meta));
                assert(of_row(b[i], metas, rows[n - 1]));
            }
        }
    }
}

/// The points of one market stand for its prices where not both sides of an outcome are meant:
/// each price at the time of its point, under the name of that market.
pub proof fn law_single_points_are_priced(
    primary: HyperliquidMarket,
    metas: Seq<InstrumentMeta>,
    first: InstrumentMeta,
    points: Seq<BacktestPricePoint>,
    n: nat,
)
    requires
        n <= points.len(),
        first.instrument_id@ == primary.instrument_text(),
    ensures
        startup::single_prices(false, primary, metas, first, points, n) == startup::point_prices(
            first,
            points,
            n,
        ),
    decreases n,
{
    if n > 0 {
        law_single_points_are_priced(primary, metas, first, points, (n - 1) as nat);
    }
}

/// A point of an outcome stands for the prices of its sides, and of nothing else: each by the
/// price of the first one, at the time of the point.
pub proof fn law_sides_are_priced(
    primary: HyperliquidMarket,
    metas: Seq<InstrumentMeta>,
    n: nat,
    price: Decimal,
    ts: i64,
)
    requires
        n <= metas.len(),
    ensures
        forall|j: int|
            0 <= j < startup::sides(primary, metas, n, price, ts).len() ==> {
                let p = #[trigger] startup::sides(primary, metas, n, price, ts)[j];
                &&& metas.contains(p.meta)
                &&& p.meta.kind is Outcome
                &&& p.instrument == p.meta.instrument_id@
                &&& startup::side_price(primary, p.instrument, price) == Some(p.price)
                &&& p.ts == ts
            },
        forall|i: int|
            0 <= i < n && (#[trigger] metas[i]).kind is Outcome && startup::side_price(
                primary,
                metas[i].instrument_id@,
                price,
            ) is Some ==> exists|j: int|
                0 <= j < startup::sides(primary, metas, n, price, ts).len() && (#[trigger] startup::sides(
                    primary,
                    metas,
                    n,
                    price,
                    ts,
                )[j]).meta == metas[i],
    decreases n,
{
    if n > 0 {
        law_sides_are_priced(primary, metas, (n - 1) as nat, price, ts);
        let a = startup::sides(primary, metas, (n - 1) as nat, price, ts);
        let b = startup::sides(primary, metas, n, price, ts);
        assert forall|j: int| 0 <= j < b.len() implies {
            let p = #[trigger] b[j];
            &&& metas.contains(p.meta)
            &&& p.meta.kind is Outcome
            &&& p.instrument == p.meta.instrument_id@
            &&& startup::side_price(primary, p.instrument, price) == Some(p.price)
            &&& p.ts == ts
        } by {
            if j < a.len() {
                assert(b[j] == a[j]);
            } else {
                assert(metas[n - 1] == b[j].meta);
            }
        }
        assert forall|i: int|
            0 <= i < n && (#[trigger] metas[i]).kind is Outcome && startup::side_price(
                primary,
                metas[i].instrument_id@,
                price,
            ) is Some implies exists|j: int| 0 <= j < b.len() && (#[trigger] b[j]).meta == metas[i] by {
            if i < n - 1 {
                let j = choose|j: int| 0 <= j < a.len() && (#[trigger] a[j]).meta == metas[i];
                assert(b[j] == a[j]);
            } else {
                assert(b[a.len() as int].meta == metas[i]);
            }
        }
    }
}

/// Each quote of a backtest shows its price: of its instrument, at its time, with bid and ask by
/// that price, and a thousand on either side.
pub proof fn law_quotes_show_prices(q: Seq<Quote>, p: Seq<Priced>, i: int)
    requires
        startup::quote_prices(q, p),
        0 <= i < p.len(),
    ensures
        q.len() == p.len(),
        q[i].instrument@ == p[i].instrument,
        q[i].ts == p[i].ts,
        startup::bid_ask(p[i].meta, p[i].price) matches Some((b, a)) && q[i].bid.0 == b && q[i].ask.0 == a,
        decimal::units(q[i].bid_size.0) == 1000 * decimal::pow10(28),
        decimal::units(q[i].ask_size.0) == 1000 * decimal::pow10(28),
{
    broadcast use crate::decimal::lemma_of_view;

    assert(Decimal::lit(1000, 0)@ == (decimal::DecimalView { mantissa: 1000, scale: 0 }));
    assert(startup::quotes_price(q[i], p[i]));
}

/// A backtest without a stock holds currencies only; one with a stock that cannot be counted
/// does not start.
pub proof fn law_backtest_starts_with_its_stock(stock: Stock, metas: Seq<InstrumentMeta>, start: Decimal)
    ensures
        stock is Nothing ==> startup::backtest_balances(stock, metas, start) == Some(
            startup::sim_balances(metas, metas.len(), start),
        ),
        stock is TooLarge <==> startup::backtest_balances(stock, metas, start) is None,
        stock matches Stock::Needs(q) ==> (startup::backtest_balances(stock, metas, start) matches Some(b)
            && b == startup::stocked(startup::sim_balances(metas, metas.len(), start), metas, metas.len(), q)),
{
}

/// A configuration without a grid needs no stock; with one it needs that of the grid in its mode.
pub proof fn law_stock_is_that_of_the_grid(c: BotConfig)
    ensures
        c.grid is None ==> startup::config_stock(c) is Nothing,
        c.grid matches Some(g) ==> (text::lower_text(g.mode@) != "short"@ && text::lower_text(g.mode@)
            != "neutral"@ ==> startup::config_stock(c) is Nothing),
        c.grid matches Some(g) ==> startup::config_stock(c) == startup::stock_of(
            g,
            text::lower_text(g.mode@),
        ),
{
}

/// Both sides of an outcome are meant just where several strategies run on one.
pub proof fn law_both_sides_are_meant_for_groups(c: BotConfig, lower: Seq<char>)
    ensures
        startup::for_both_sides(c, lower) <==> lower == "orchestrator"@ && c.markets@[0].inner() is Outcome,
{
}

/// The account of a backtest holds enough for the capital of the strategy, and never less than it
/// was given; figures are measured against the capital.
pub proof fn law_account_covers_the_capital(capital: Option<Decimal>, balance: Decimal, fee_rate: Decimal)
    requires
        balance@.valid(),
        capital matches Some(c) ==> c@.valid(),
    ensures
        ({
            let f = wasm_api::funds(capital, balance, fee_rate);
            &&& capital matches Some(c) ==> f.capital == c
            &&& capital is None ==> f.capital == balance
            &&& decimal::units(f.balance) >= decimal::units(f.capital)
            &&& decimal::units(f.balance) >= decimal::units(balance)
            &&& f.balance == balance || f.balance == f.capital
            &&& f.fee_rate == fee_rate
        }),
{
    if let Some(c) = capital {
        decimal::law_order_by_units(c, balance);
    } else {
        decimal::law_order_by_units(balance, balance);
    }
}

/// The settings of a simulation are those that are set, where any are.
pub proof fn law_simulation_is_as_set(c: BotConfig)
    ensures
        c.simulation matches Some(s) ==> wasm_api::simulation_texts(c) == (
            s.starting_balance_usdc@,
            s.fee_rate@,
        ),
        c.simulation is None ==> wasm_api::simulation_texts(c) == ("10000"@, "0.00025"@),
{
}

} // verus!
