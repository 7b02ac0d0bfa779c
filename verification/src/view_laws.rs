//! What is shown of numbers, positions, events and exchanges is what there is.
use vstd::prelude::*;
use crate::account_laws;
use crate::decimal;
use crate::hl_signing;
use crate::margin;
use crate::paper_exchange;
use crate::report_laws;
use crate::strmap;
use crate::text;
use crate::context::Strategy;
use crate::decimal::{Decimal, DecimalView};
use crate::events::Event;
use crate::exchange::{ExchangeError, Fill};
use crate::margin::{IsolatedPosition, LedgerView};
use crate::paper_exchange::PaperView;
use crate::runner::RunnerView;
use crate::types::{ExchangeHealth, ExchangeInstance, InstrumentId, Quote};

verus! {

/// One in units.
pub open spec fn unit() -> int {
    decimal::pow10(28)
}

spec fn sign_text(negative: bool) -> Seq<char> {
    if negative {
        "-"@
    } else {
        ""@
    }
}

proof fn lemma_denoted(negative: bool, w: nat, t: Seq<char>, n: nat)
    requires
        text::digits_value(t) == Some(n),
    ensures
        ({
            let s = sign_text(negative) + text::digits(w) + (if t.len() == 0 {
                Seq::empty()
            } else {
                "."@ + t
            });
            let m = w * decimal::pow10(t.len()) + n;
            report_laws::denoted(s) == Some(
                DecimalView {
                    mantissa: if negative {
                        -m
                    } else {
                        m
                    },
                    scale: t.len(),
                },
            )
        }),
{
    reveal_strlit("-");
    reveal_strlit("");
    reveal_strlit(".");
    let d = text::digits(w);
    let tail = if t.len() == 0 {
        Seq::empty()
    } else {
        "."@ + t
    };
    let s = sign_text(negative) + d + tail;
    report_laws::lemma_only_digits(w);
    text::lemma_digits_read_back(w);
    let body = d + tail;
    assert forall|i: int| 0 <= i < d.len() implies d[i] != '.' && d[i] != '-' by {
        assert(text::digit_value(d[i]) is Some);
    }
    assert(body[0] == d[0]);
    if negative {
        assert(s[0] == '-');
        assert(s.subrange(1, s.len() as int) =~= body);
    } else {
        assert(s =~= body);
    }
    let k = d.len() as int;
    assert forall|i: int| 0 <= i < k implies body[i] != '.' by {
        assert(body[i] == d[i]);
    }
    report_laws::lemma_no_dot_before(body, k, 0);
    assert(body.subrange(0, k) =~= d);
    if t.len() > 0 {
        assert(body.subrange(k + 1, body.len() as int) =~= t);
    } else {
        assert(t =~= Seq::<char>::empty());
        assert(body =~= d);
    }
}

proof fn lemma_cut(head: Seq<char>, t: Seq<char>, n: nat) -> (r: (Seq<char>, nat))
    requires
        head.len() > 0,
        head.last() == '.',
        text::digits_value(t) == Some(n),
    ensures
        text::digits_value(r.0) == Some(r.1),
        r.0.len() <= t.len(),
        n == r.1 * decimal::pow10((t.len() - r.0.len()) as nat),
        r.0.len() > 0 ==> r.0.last() != '0' && text::digit_value(r.0.last()) is Some,
        text::without_trailing(head + t, '0') == head + r.0,
    decreases t.len(),
{
    let s = head + t;
    if t.len() == 0 {
        assert(s =~= head);
        assert(head + t =~= head);
        (t, n)
    } else {
        assert(s.last() == t.last());
        if t.last() == '0' {
            let u = t.drop_last();
            let m = text::digits_value(u)->0;
            assert(s.drop_last() =~= head + u);
            let r = lemma_cut(head, u, m);
            let j = (u.len() - r.0.len()) as nat;
            let p = decimal::pow10(j);
            assert(decimal::pow10((t.len() - r.0.len()) as nat) == 10 * p);
            assert(n == m * 10);
            let x = r.1;
            assert(x * p * 10 == x * (10 * p)) by (nonlinear_arith);
            r
        } else {
            assert(decimal::pow10(0) == 1);
            (t, n)
        }
    }
}

proof fn lemma_eight(v: DecimalView)
    requires
        v.valid(),
    ensures
        ({
            let a: int = if v.mantissa < 0 {
                -v.mantissa
            } else {
                v.mantissa
            };
            let w = a / decimal::pow10(v.scale);
            let e = decimal::eight_places(v) as int;
            let x = a * decimal::pow10((28 - v.scale) as nat);
            let y = (w * decimal::pow10(8) + e) * decimal::pow10(20);
            &&& 0 <= e < decimal::pow10(8)
            &&& 0 <= x - y < decimal::pow10(20)
            &&& v.scale <= 8 ==> x == y
        }),
{
    let a: int = if v.mantissa < 0 {
        -v.mantissa
    } else {
        v.mantissa
    };
    let p = decimal::pow10(v.scale);
    decimal::lemma_pow10_positive(v.scale);
    decimal::lemma_pow10_positive(20);
    decimal::lemma_pow10_positive(8);
    let (w, f) = (a / p, a % p);
    vstd::arithmetic::div_mod::lemma_fundamental_div_mod(a, p);
    let (b, c) = (decimal::pow10(8), decimal::pow10(20));
    let e = decimal::eight_places(v) as int;
    let u = decimal::pow10((28 - v.scale) as nat);
    if v.scale <= 8 {
        let q = decimal::pow10((8 - v.scale) as nat);
        decimal::lemma_pow10_positive((8 - v.scale) as nat);
        decimal::lemma_pow10_adds(v.scale, (8 - v.scale) as nat);
        decimal::lemma_pow10_adds((8 - v.scale) as nat, 20);
        assert(p * q == b);
        assert(q * c == u);
        assert(e == f * q);
        assert(0 <= f * q < b) by (nonlinear_arith)
            requires
                0 <= f < p,
                q > 0,
                p * q == b,
        ;
        assert(a * u == (w * b + f * q) * c) by (nonlinear_arith)
            requires
                a == p * w + f,
                p * q == b,
                q * c == u,
        ;
    } else {
        let q = decimal::pow10((v.scale - 8) as nat);
        decimal::lemma_pow10_positive((v.scale - 8) as nat);
        decimal::lemma_pow10_positive((28 - v.scale) as nat);
        decimal::lemma_pow10_adds(8, (v.scale - 8) as nat);
        decimal::lemma_pow10_adds((v.scale - 8) as nat, (28 - v.scale) as nat);
        assert(b * q == p);
        assert(q * u == c);
        assert(e == f / q);
        let g = f % q;
        vstd::arithmetic::div_mod::lemma_fundamental_div_mod(f, q);
        assert(0 <= e) by {
            vstd::arithmetic::div_mod::lemma_div_pos_is_pos(f, q);
        }
        assert(e < b) by (nonlinear_arith)
            requires
                q * e + g < p,
                g >= 0,
                b * q == p,
                q > 0,
        ;
        assert(a * u - (w * b + e) * c == g * u) by (nonlinear_arith)
            requires
                a == p * w + f,
                f == q * e + g,
                b * q == p,
                q * u == c,
        ;
        assert(0 <= g * u < c) by (nonlinear_arith)
            requires
                0 <= g < q,
                u > 0,
                q * u == c,
        ;
    }
}

/// A number is sent as what it is, with at most eight digits behind the point: one with no more is
/// sent without loss, and from any other only what comes behind them is cut off.
pub proof fn law_sent_number_reads_back(x: Decimal)
    requires
        x@.valid(),
    ensures
        report_laws::denoted(hl_signing::wire_text(x)) matches Some(v) && {
            let sent = v.at_scale(28);
            &&& v.scale <= 8
            &&& x.s() <= 8 ==> sent == decimal::units(x)
            &&& decimal::units(x) >= 0 ==> 0 <= decimal::units(x) - sent < decimal::pow10(20)
            &&& decimal::units(x) < 0 ==> 0 <= sent - decimal::units(x) < decimal::pow10(20)
        },
{
    reveal_strlit("-");
    reveal_strlit("");
    reveal_strlit(".");
    reveal_strlit("0");
    reveal_strlit("-0");
    let v = x@;
    let negative = v.mantissa < 0;
    let a: nat = if negative {
        (-v.mantissa) as nat
    } else {
        v.mantissa as nat
    };
    decimal::lemma_pow10_positive(v.scale);
    let w = a / (decimal::pow10(v.scale) as nat);
    let e = decimal::eight_places(v);
    let t = text::padded_digits(e, 8);
    lemma_eight(v);
    report_laws::lemma_padded(e, 8);
    decimal::lemma_pow10_positive(8);
    assert(e % (decimal::pow10(8) as nat) == e) by {
        vstd::arithmetic::div_mod::lemma_small_mod(e, decimal::pow10(8) as nat);
    }
    let front = sign_text(negative) + text::digits(w);
    let head = front + "."@;
    let fixed = decimal::fixed_text(v);
    assert(fixed =~= head + t);
    assert(head.last() == '.');
    let (u, n) = lemma_cut(head, t, e);
    let short = head + u;
    report_laws::lemma_only_digits(w);
    assert(front.last() == text::digits(w).last());
    assert(text::digit_value(text::digits(w).last()) is Some);
    let r = text::without_trailing(short, '.');
    let shown = sign_text(negative) + text::digits(w) + (if u.len() == 0 {
        Seq::empty()
    } else {
        "."@ + u
    });
    if u.len() == 0 {
        assert(short =~= head);
        assert(short.drop_last() =~= front);
        assert(r == text::without_trailing(front, '.'));
        assert(r == front);
        assert(shown =~= front);
    } else {
        assert(short.last() == u.last());
        assert(r == short);
        assert(shown =~= short);
    }
    assert(r == shown);
    lemma_denoted(negative, w, u, n);
    let k = u.len();
    let j = (8 - k) as nat;
    decimal::lemma_pow10_adds(k, j);
    decimal::lemma_pow10_adds(j, 20);
    let (pk, pj, b, c, z) = (
        decimal::pow10(k),
        decimal::pow10(j),
        decimal::pow10(8),
        decimal::pow10(20),
        decimal::pow10((28 - k) as nat),
    );
    let m = w * pk + n;
    let y = (w * b + e) * c;
    assert(m * z == y) by (nonlinear_arith)
        requires
            m == w * pk + n,
            pk * pj == b,
            pj * c == z,
            e == n * pj,
            y == (w * b + e) * c,
    ;
    assert((-m) * z == -(m * z)) by (nonlinear_arith);
    let q = decimal::pow10((28 - v.scale) as nat);
    let i = v.mantissa;
    decimal::lemma_pow10_positive((28 - v.scale) as nat);
    assert((-i) * q == -(i * q)) by (nonlinear_arith);
    decimal::lemma_units_sign(x);
    if r == "-0"@ {
        // Nothing is left of the number but its sign.
        let seen = report_laws::denoted(r)->0;
        lemma_zero_texts();
        assert(seen.mantissa == 0);
        assert(m == 0);
        assert(m * z == 0) by (nonlinear_arith)
            requires
                m == 0,
        ;
        assert(0 * decimal::pow10(28) == 0);
    }
}

proof fn lemma_zero_texts()
    ensures
        report_laws::denoted("0"@) == Some(DecimalView { mantissa: 0, scale: 0 }),
        report_laws::denoted("-0"@) == Some(DecimalView { mantissa: 0, scale: 0 }),
{
    reveal_strlit("-");
    reveal_strlit("");
    reveal_strlit("0");
    reveal_strlit("-0");
    reveal_strlit("0123456789");
    assert(text::digits_value(Seq::<char>::empty()) == Some(0nat));
    lemma_denoted(false, 0, Seq::empty(), 0);
    lemma_denoted(true, 0, Seq::empty(), 0);
    assert(text::digits(0) =~= seq!['0']);
    assert(sign_text(false) + text::digits(0) + Seq::<char>::empty() =~= "0"@);
    assert(sign_text(true) + text::digits(0) + Seq::<char>::empty() =~= "-0"@);
    assert(0 * decimal::pow10(0) == 0);
}

/// A position is shown with its sign, at its entry price, and with the profit that it holds at its
/// mark, where no step is rounded; without a mark none is shown.
pub proof fn law_position_is_shown(
    name: String,
    p: IsolatedPosition,
    marks: Map<Seq<char>, Decimal>,
    s: crate::types::PositionSnapshot,
)
    requires
        LedgerView::snapshot(name, p, marks) == Some(s),
        p.qty@.valid(),
        p.avg_entry_px@.valid(),
        p.qty.m() != 0,
        marks.contains_key(name@) ==> marks[name@]@.valid() && decimal::subtracts_exactly(
            marks[name@],
            p.avg_entry_px,
        ) && decimal::multiplies_exactly(
            p.qty,
            decimal::minus(Some(marks[name@]), Some(p.avg_entry_px))->0,
        ),
    ensures
        s.instrument@ == name@,
        s.qty == p.qty,
        p.avg_entry_px.m() != 0 ==> (s.avg_entry_px matches Some(px) && px.0 == p.avg_entry_px),
        s.unrealized_pnl is Some <==> marks.contains_key(name@),
        s.unrealized_pnl matches Some(u) ==> decimal::units(u) * unit() == account_laws::gain(
            p,
            decimal::units(marks[name@]),
        ),
        p.liquidation_of() == Some(s.liquidation_px),
{
    if marks.contains_key(name@) {
        decimal::law_exact_difference(marks[name@], p.avg_entry_px);
    }
}

/// Every position that is not flat is shown once, under its name, and nothing else is.
pub proof fn law_open_positions_are_shown(v: LedgerView, marks: Map<Seq<char>, Decimal>, n: nat)
    requires
        n <= v.positions.len(),
        v.snapshots(marks, n) is Some,
    ensures
        forall|i: int|
            0 <= i < n && (#[trigger] v.positions[i]).1.qty.m() != 0 ==> exists|j: int|
                0 <= j < v.snapshots(marks, n)->0.len() && Some(#[trigger] v.snapshots(marks, n)->0[j])
                    == LedgerView::snapshot(v.positions[i].0, v.positions[i].1, marks),
        forall|j: int|
            0 <= j < v.snapshots(marks, n)->0.len() ==> exists|i: int|
                0 <= i < n && (#[trigger] v.positions[i]).1.qty.m() != 0 && Some(
                    #[trigger] v.snapshots(marks, n)->0[j],
                ) == LedgerView::snapshot(v.positions[i].0, v.positions[i].1, marks),
    decreases n,
{
    if n > 0 {
        law_open_positions_are_shown(v, marks, (n - 1) as nat);
        let (a, b) = (v.snapshots(marks, (n - 1) as nat)->0, v.snapshots(marks, n)->0);
        let last = v.positions[n - 1];
        if last.1.qty.m() != 0 {
            assert(Some(b[a.len() as int]) == LedgerView::snapshot(last.0, last.1, marks));
        }
        assert forall|i: int| 0 <= i < n && (#[trigger] v.positions[i]).1.qty.m() != 0 implies exists|j: int|
            0 <= j < b.len() && Some(#[trigger] b[j]) == LedgerView::snapshot(
                v.positions[i].0,
                v.positions[i].1,
                marks,
            ) by {
            if i < n - 1 {
                let j = choose|j: int|
                    0 <= j < a.len() && Some(#[trigger] a[j]) == LedgerView::snapshot(
                        v.positions[i].0,
                        v.positions[i].1,
                        marks,
                    );
                assert(b[j] == a[j]);
            }
        }
        assert forall|j: int| 0 <= j < b.len() implies exists|i: int|
            0 <= i < n && (#[trigger] v.positions[i]).1.qty.m() != 0 && Some(#[trigger] b[j])
                == LedgerView::snapshot(v.positions[i].0, v.positions[i].1, marks) by {
            if j < a.len() {
                assert(a[j] == b[j]);
                let i = choose|i: int|
                    0 <= i < n - 1 && (#[trigger] v.positions[i]).1.qty.m() != 0 && Some(a[j])
                        == LedgerView::snapshot(v.positions[i].0, v.positions[i].1, marks);
                assert(v.positions[i].1.qty.m() != 0);
            } else {
                assert(v.positions[n - 1].1.qty.m() != 0);
            }
        }
    }
}

/// The account of a paper exchange shows its open positions, what it is worth and what it holds of
/// profit, all at the middle of the last quotes.
pub proof fn law_paper_account_is_at_the_last_quotes<E>(v: PaperView<E>, marks: Map<Seq<char>, Decimal>)
    requires
        paper_exchange::marks_of(v.quotes, v.quotes.len()) == Some(marks),
        v.account() is Some,
    ensures
        v.ledger.snapshots(marks, v.ledger.positions.len()) == Some((v.account()->0).0),
        v.ledger.equity(marks) == Some((v.account()->0).1),
        v.ledger.unrealized(marks, v.ledger.positions.len()) == Some((v.account()->0).2),
{
}

/// The rate of maintenance is one over the largest leverage that is set for an instrument, where
/// the quotient is not rounded; without any it is the whole.
pub proof fn law_maintenance_is_set_by_the_largest_leverage(
    v: LedgerView,
    instrument: InstrumentId,
    chosen: Decimal,
    largest: Decimal,
)
    requires
        strmap::lookup(v.leverage, instrument@) == Some((chosen, largest)),
        largest@.valid(),
        decimal::units(largest) > 0 ==> decimal::divides_exactly(decimal::one(), largest),
    ensures
        v.leverage_of(instrument) == chosen,
        v.maintenance_rate(instrument) matches Some(r) && (decimal::units(largest) > 0 ==> decimal::units(r)
            * decimal::units(largest) == unit() * unit()) && (decimal::units(largest) <= 0 ==> decimal::units(
            r,
        ) == unit()),
{
    decimal::lemma_units_sign(largest);
}

/// Leverage that is set is that of the instrument from then on, and of its position; the margin of
/// the position and all else stay.
pub proof fn law_leverage_is_set(
    v: LedgerView,
    instrument: InstrumentId,
    chosen: Decimal,
    largest: Decimal,
    other: InstrumentId,
)
    requires
        strmap::distinct_keys(v.leverage),
        strmap::distinct_keys(v.positions),
        margin::leveraged(v, instrument, chosen, largest) is Some,
        other@ != instrument@,
    ensures
        ({
            let w = margin::leveraged(v, instrument, chosen, largest)->0;
            &&& w.leverage_of(instrument) == chosen
            &&& w.max_leverage_of(instrument) == largest
            &&& w.leverage_of(other) == v.leverage_of(other)
            &&& w.position(other) == v.position(other)
            &&& w.free == v.free
            &&& v.position(instrument) is None ==> w.position(instrument) is None
            &&& v.position(instrument) matches Some(p) ==> (w.position(instrument) matches Some(q) && q.leverage
                == chosen && q.qty == p.qty && q.avg_entry_px == p.avg_entry_px
                && q.isolated_margin_reserved == p.isolated_margin_reserved && q.realized_pnl
                == p.realized_pnl)
        }),
{
    strmap::lemma_put(v.leverage, instrument.0, (chosen, largest));
    if let Some(p) = v.position(instrument) {
        let rate = if largest.m() > 0 {
            decimal::over(Some(decimal::one()), Some(largest))
        } else {
            Some(p.maintenance_margin_rate)
        };
        strmap::lemma_put(
            v.positions,
            instrument.0,
            IsolatedPosition { leverage: chosen, maintenance_margin_rate: rate->0, ..p },
        );
    }
}

/// An event is about the instrument that it names, and takes place at its own time; only that an
/// exchange changes is about no instrument.
pub proof fn law_events_are_about_their_instruments(event: Event)
    ensures
        event matches Event::Quote(e) ==> event.about() == Some(e.instrument) && event.time() == e.ts,
        event matches Event::FundingRate(e) ==> event.about() == Some(e.instrument) && event.time() == e.ts,
        event matches Event::OrderAccepted(e) ==> event.about() == Some(e.instrument) && event.time()
            == e.ts,
        event matches Event::OrderRejected(e) ==> event.about() == Some(e.instrument) && event.time()
            == e.ts,
        event matches Event::OrderFilled(e) ==> event.about() == Some(e.instrument) && event.time() == e.ts,
        event matches Event::OrderCompleted(e) ==> event.about() == Some(e.instrument) && event.time()
            == e.ts,
        event matches Event::OrderCanceled(e) ==> event.about() == Some(e.instrument) && event.time()
            == e.ts,
        event matches Event::ExchangeStateChanged(e) ==> event.about() is None && event.time() == e.ts,
{
}

/// A poll that brings something shows that the exchange is well; one that brings nothing and an
/// error that passes leave its health as it was; an exchange that is down, or that can never be
/// polled so, is halted.
pub proof fn law_polls_show_health<S: Strategy>(
    v: RunnerView<S>,
    instance: ExchangeInstance,
    fills: Result<Vec<Fill>, ExchangeError>,
    quotes: Result<Vec<Quote>, ExchangeError>,
)
    ensures
        ({
            let (f, q) = (v.fills_noted(instance, fills), v.quotes_noted(instance, quotes));
            let passes = |e: ExchangeError| e is RateLimited || e is Timeout || e is Network;
            let before = v.engine.state.health_of(instance);
            &&& f.engine.state.health_of(instance) == (match fills {
                Ok(s) => if s@.len() > 0 {
                    ExchangeHealth::Active
                } else {
                    before
                },
                Err(e) => if passes(e) {
                    before
                } else {
                    ExchangeHealth::Halted
                },
            })
            &&& q.engine.state.health_of(instance) == (match quotes {
                Ok(s) => if s@.len() > 0 {
                    ExchangeHealth::Active
                } else {
                    before
                },
                Err(e) => if passes(e) {
                    before
                } else {
                    ExchangeHealth::Halted
                },
            })
            &&& f.quotes_guard == v.quotes_guard
            &&& q.fills_guard == v.fills_guard
        }),
{
}

/// An order is complete just where no less was filled than was asked for.
pub proof fn law_order_is_complete_when_filled(o: crate::types::LiveOrder)
    requires
        o.requested_qty.0@.valid(),
        o.filled_qty.0@.valid(),
    ensures
        o.complete() <==> decimal::units(o.filled_qty.0) >= decimal::units(o.requested_qty.0),
{
    decimal::law_order_by_units(o.requested_qty.0, o.filled_qty.0);
    decimal::law_order_by_units(o.filled_qty.0, o.requested_qty.0);
}

} // verus!
