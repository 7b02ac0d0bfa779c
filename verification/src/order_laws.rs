//! What is sent to the exchange says what was meant, and what it answers is read as it was said.
use vstd::prelude::*;
use crate::decimal;
use crate::hl_client;
use crate::hl_signing;
use crate::json;
use crate::text;
use crate::exchange::{ExchangeError, Fill, OrderInput, PlaceOrderResult};
use crate::hl_client::{HyperliquidClient, HyperliquidUserFill};
use crate::hl_signing::HyperliquidSigner;
use crate::json::JsonView;
use crate::types::{InstrumentId, MarketIndex, OrderSide, PositionSnapshot, Price, TimeInForce};

verus! {

/// An order as the exchange reads it.
pub struct ReadOrder {
    pub asset: u64,
    pub is_buy: bool,
    pub price: Seq<char>,
    pub size: Seq<char>,
    pub reduce_only: bool,
    pub tif: Seq<char>,
    pub cloid: Option<Seq<char>>,
}

/// What the exchange reads of an order, by the names of its members.
pub open spec fn read_order(v: JsonView) -> Option<ReadOrder> {
    match (v.member("a"@), v.member("b"@), v.member("p"@), v.member("s"@), v.member("r"@)) {
        (
            Some(JsonView::Whole(asset)),
            Some(JsonView::Bool(is_buy)),
            Some(JsonView::Text(price)),
            Some(JsonView::Text(size)),
            Some(JsonView::Bool(reduce_only)),
        ) => match json::text_of(json::member_of(json::member_of(v.member("t"@), "limit"@), "tif"@)) {
            Some(tif) => Some(
                ReadOrder {
                    asset,
                    is_buy,
                    price,
                    size,
                    reduce_only,
                    tif,
                    cloid: json::text_of(v.member("c"@)),
                },
            ),
            None => None,
        },
        _ => None,
    }
}

/// How the exchange reads an order that rests, one that may only rest, and one that may not.
pub open spec fn meant_tif(tif: TimeInForce, post_only: bool) -> Seq<char> {
    if tif == TimeInForce::Gtc && post_only {
        "Alo"@
    } else if tif == TimeInForce::Gtc {
        "Gtc"@
    } else {
        "Ioc"@
    }
}

proof fn lemma_names()
    ensures
        "a"@ != "b"@,
        "a"@ != "p"@,
        "a"@ != "s"@,
        "a"@ != "r"@,
        "a"@ != "t"@,
        "a"@ != "c"@,
        "a"@ != "o"@,
        "b"@ != "p"@,
        "b"@ != "s"@,
        "b"@ != "r"@,
        "b"@ != "t"@,
        "b"@ != "c"@,
        "b"@ != "f"@,
        "p"@ != "s"@,
        "p"@ != "r"@,
        "p"@ != "t"@,
        "p"@ != "c"@,
        "s"@ != "r"@,
        "s"@ != "t"@,
        "s"@ != "c"@,
        "s"@ != "v"@,
        "r"@ != "t"@,
        "r"@ != "c"@,
        "r"@ != "v"@,
        "t"@ != "c"@,
{
    reveal_strlit("a");
    reveal_strlit("b");
    reveal_strlit("p");
    reveal_strlit("s");
    reveal_strlit("r");
    reveal_strlit("t");
    reveal_strlit("c");
    reveal_strlit("o");
    reveal_strlit("f");
    reveal_strlit("v");
    assert("a"@[0] == 'a' && "b"@[0] == 'b' && "p"@[0] == 'p' && "s"@[0] == 's' && "r"@[0] == 'r'
        && "t"@[0] == 't' && "c"@[0] == 'c' && "o"@[0] == 'o' && "f"@[0] == 'f' && "v"@[0] == 'v');
}

/// An order that is sent can be read back: its asset, a purchase as one and a sale as one, its
/// price and size, whether it only reduces, how long it rests, and its id where that has the
/// form for it.
pub proof fn law_order_reads_back(asset: u64, o: OrderInput)
    ensures
        read_order(hl_client::order_wire(asset, o)) matches Some(r) && {
            &&& r.asset == asset
            &&& r.is_buy <==> o.side == OrderSide::Buy
            &&& r.price == hl_signing::wire_text(o.price.0)
            &&& r.size == hl_signing::wire_text(o.qty.0)
            &&& r.reduce_only == o.reduce_only
            &&& r.tif == meant_tif(o.tif, o.post_only)
            &&& r.cloid == (if hl_client::is_cloid(o.client_id@) {
                Some(o.client_id@)
            } else {
                None
            })
        },
{
    lemma_names();
    let v = hl_client::order_wire(asset, o);
    let s = v->Record_0;
    json::law_first_member_is_found(s, "a"@, 0);
    json::law_first_member_is_found(s, "b"@, 1);
    json::law_first_member_is_found(s, "p"@, 2);
    json::law_first_member_is_found(s, "s"@, 3);
    json::law_first_member_is_found(s, "r"@, 4);
    json::law_first_member_is_found(s, "t"@, 5);
    let t = s[5].1;
    json::law_first_member_is_found(t->Record_0, "limit"@, 0);
    let l = t->Record_0[0].1;
    json::law_first_member_is_found(l->Record_0, "tif"@, 0);
    if hl_client::is_cloid(o.client_id@) {
        json::law_first_member_is_found(s, "c"@, 6);
    } else {
        json::lemma_no_member(s, "c"@);
    }
}

/// Orders that differ in side are sent differently, and so are orders of different assets.
pub proof fn law_orders_are_told_apart(a: u64, o: OrderInput, b: u64, p: OrderInput)
    requires
        hl_client::order_wire(a, o) == hl_client::order_wire(b, p),
    ensures
        a == b,
        o.side == p.side,
        o.reduce_only == p.reduce_only,
        hl_signing::wire_text(o.price.0) == hl_signing::wire_text(p.price.0),
        hl_signing::wire_text(o.qty.0) == hl_signing::wire_text(p.qty.0),
{
    law_order_reads_back(a, o);
    law_order_reads_back(b, p);
}

/// The action that places orders holds them all, in their order, each with the number of the
/// asset that the client trades it under.
pub proof fn law_action_holds_orders(client: HyperliquidClient, orders: Seq<OrderInput>)
    ensures
        json::text_of(client.order_action_of(orders).member("type"@)) == Some("order"@),
        json::text_of(client.order_action_of(orders).member("grouping"@)) == Some("na"@),
        json::list_of(client.order_action_of(orders).member("orders"@)) matches Some(list) && {
            &&& list.len() == orders.len()
            &&& forall|i: int|
                0 <= i < orders.len() ==> {
                    let o = orders[i];
                    read_order(#[trigger] list[i]) matches Some(r) && {
                        &&& r.asset == client.asset(o.market_index) as u64
                        &&& r.is_buy <==> o.side == OrderSide::Buy
                        &&& r.price == hl_signing::wire_text(o.price.0)
                        &&& r.size == hl_signing::wire_text(o.qty.0)
                        &&& r.reduce_only == o.reduce_only
                        &&& r.tif == meant_tif(o.tif, o.post_only)
                    }
                }
        },
        match client.config.builder_fee {
            Some(b) => {
                let m = client.order_action_of(orders).member("builder"@);
                &&& json::text_of(json::member_of(m, "b"@)) == Some(b.address@)
                &&& json::whole_of(json::member_of(m, "f"@)) == Some(b.fee_tenths_bp as u64)
            },
            None => client.order_action_of(orders).member("builder"@) is None,
        },
{
    lemma_names();
    reveal_strlit("type");
    reveal_strlit("orders");
    reveal_strlit("grouping");
    reveal_strlit("builder");
    let v = client.order_action_of(orders);
    let s = v->Record_0;
    assert("type"@.len() == 4 && "orders"@.len() == 6 && "grouping"@.len() == 8 && "builder"@.len() == 7);
    json::law_first_member_is_found(s, "type"@, 0);
    json::law_first_member_is_found(s, "orders"@, 1);
    json::law_first_member_is_found(s, "grouping"@, 2);
    let list = hl_client::order_wires(|m: MarketIndex| client.asset(m), orders);
    assert forall|i: int| 0 <= i < orders.len() implies ({
        let o = orders[i];
        read_order(#[trigger] list[i]) matches Some(r) && {
            &&& r.asset == client.asset(o.market_index) as u64
            &&& r.is_buy <==> o.side == OrderSide::Buy
            &&& r.price == hl_signing::wire_text(o.price.0)
            &&& r.size == hl_signing::wire_text(o.qty.0)
            &&& r.reduce_only == o.reduce_only
            &&& r.tif == meant_tif(o.tif, o.post_only)
        }
    }) by {
        let o = orders[i];
        law_order_reads_back(client.asset(o.market_index) as u64, o);
    }
    match client.config.builder_fee {
        Some(b) => {
            json::law_first_member_is_found(s, "builder"@, 3);
            let m = s[3].1;
            json::law_first_member_is_found(m->Record_0, "b"@, 0);
            json::law_first_member_is_found(m->Record_0, "f"@, 1);
        },
        None => {
            json::lemma_no_member(s, "builder"@);
        },
    }
}

/// The action that cancels orders names just their numbers, each with the asset.
pub proof fn law_cancels_name_orders(client: HyperliquidClient, market_index: MarketIndex, oids: Seq<u64>)
    ensures
        json::text_of(client.cancels(market_index, oids).member("type"@)) == Some("cancel"@),
        json::list_of(client.cancels(market_index, oids).member("cancels"@)) matches Some(list) && {
            &&& list.len() == oids.len()
            &&& forall|i: int|
                0 <= i < oids.len() ==> {
                    &&& json::whole_of((#[trigger] list[i]).member("o"@)) == Some(oids[i])
                    &&& json::whole_of(list[i].member("a"@)) == Some(client.asset(market_index) as u64)
                }
        },
{
    lemma_names();
    reveal_strlit("type");
    reveal_strlit("cancels");
    let v = client.cancels(market_index, oids);
    let s = v->Record_0;
    assert("type"@.len() == 4 && "cancels"@.len() == 7);
    json::law_first_member_is_found(s, "type"@, 0);
    json::law_first_member_is_found(s, "cancels"@, 1);
    let list = s[1].1->List_0;
    assert forall|i: int| 0 <= i < oids.len() implies ({
        &&& json::whole_of((#[trigger] list[i]).member("o"@)) == Some(oids[i])
        &&& json::whole_of(list[i].member("a"@)) == Some(client.asset(market_index) as u64)
    }) by {
        let r = list[i]->Record_0;
        json::law_first_member_is_found(r, "a"@, 0);
        json::law_first_member_is_found(r, "o"@, 1);
    }
}

/// The action that cancels an order by its client order id names that id and the asset.
pub proof fn law_cancel_names_cloid(client: HyperliquidClient, market_index: MarketIndex, cloid: Seq<char>)
    ensures
        json::text_of(client.cancel_by_cloid(market_index, cloid).member("type"@)) == Some(
            "cancelByCloid"@,
        ),
        json::list_of(client.cancel_by_cloid(market_index, cloid).member("cancels"@)) matches Some(list)
            && list.len() == 1 && json::text_of(list[0].member("cloid"@)) == Some(cloid)
            && json::whole_of(list[0].member("asset"@)) == Some(client.asset(market_index) as u64),
{
    reveal_strlit("type");
    reveal_strlit("cancels");
    reveal_strlit("asset");
    reveal_strlit("cloid");
    let s = client.cancel_by_cloid(market_index, cloid)->Record_0;
    assert("type"@.len() == 4 && "cancels"@.len() == 7);
    assert("asset"@[0] == 'a' && "cloid"@[0] == 'c');
    json::law_first_member_is_found(s, "type"@, 0);
    json::law_first_member_is_found(s, "cancels"@, 1);
    let r = s[1].1->List_0[0]->Record_0;
    json::law_first_member_is_found(r, "asset"@, 0);
    json::law_first_member_is_found(r, "cloid"@, 1);
}

/// The action that sets the leverage names it, the asset, and whether the margin is shared.
pub proof fn law_leverage_is_named(
    client: HyperliquidClient,
    market_index: MarketIndex,
    leverage: u32,
    is_cross: bool,
)
    ensures
        ({
            let v = client.leverage_change(market_index, leverage, is_cross);
            &&& json::text_of(v.member("type"@)) == Some("updateLeverage"@)
            &&& json::whole_of(v.member("asset"@)) == Some(client.asset(market_index) as u64)
            &&& json::whole_of(v.member("leverage"@)) == Some(leverage as u64)
            &&& v.member("isCross"@) == Some(JsonView::Bool(is_cross))
        }),
{
    reveal_strlit("type");
    reveal_strlit("asset");
    reveal_strlit("isCross");
    reveal_strlit("leverage");
    let s = client.leverage_change(market_index, leverage, is_cross)->Record_0;
    assert("type"@.len() == 4 && "asset"@.len() == 5 && "isCross"@.len() == 7 && "leverage"@.len() == 8);
    json::law_first_member_is_found(s, "type"@, 0);
    json::law_first_member_is_found(s, "asset"@, 1);
    json::law_first_member_is_found(s, "isCross"@, 2);
    json::law_first_member_is_found(s, "leverage"@, 3);
}

/// A signed request holds the action, its nonce, the signature and the vault.
pub proof fn law_request_holds_action(
    action: JsonView,
    nonce: u64,
    signature: (Seq<char>, Seq<char>, u8),
    vault: JsonView,
)
    ensures
        ({
            let v = hl_client::request_of(action, nonce, signature, vault);
            let m = v.member("signature"@);
            &&& v.member("action"@) == Some(action)
            &&& json::whole_of(v.member("nonce"@)) == Some(nonce)
            &&& v.member("vaultAddress"@) == Some(vault)
            &&& json::text_of(json::member_of(m, "r"@)) == Some(signature.0)
            &&& json::text_of(json::member_of(m, "s"@)) == Some(signature.1)
            &&& json::whole_of(json::member_of(m, "v"@)) == Some(signature.2 as u64)
        }),
{
    lemma_names();
    reveal_strlit("action");
    reveal_strlit("nonce");
    reveal_strlit("signature");
    reveal_strlit("vaultAddress");
    let s = hl_client::request_of(action, nonce, signature, vault)->Record_0;
    assert("action"@.len() == 6 && "nonce"@.len() == 5 && "signature"@.len() == 9
        && "vaultAddress"@.len() == 12);
    json::law_first_member_is_found(s, "action"@, 0);
    json::law_first_member_is_found(s, "nonce"@, 1);
    json::law_first_member_is_found(s, "signature"@, 2);
    json::law_first_member_is_found(s, "vaultAddress"@, 3);
    let m = s[2].1->Record_0;
    json::law_first_member_is_found(m, "r"@, 0);
    json::law_first_member_is_found(m, "s"@, 1);
    json::law_first_member_is_found(m, "v"@, 2);
}

/// The number that bytes denote, the highest first.
pub open spec fn bytes_value(b: Seq<u8>) -> nat
    decreases b.len(),
{
    if b.len() == 0 {
        0
    } else {
        bytes_value(b.drop_last()) * 256 + b.last() as nat
    }
}

pub proof fn lemma_bytes_read_back(n: nat, width: nat, limit: nat)
    requires
        limit == vstd::arithmetic::power::pow(256, width),
        n < limit,
    ensures
        bytes_value(hl_signing::big_endian(n, width)) == n,
    decreases width,
{
    hl_signing::lemma_big_endian_len(n, width);
    reveal(vstd::arithmetic::power::pow);
    if width > 0 {
        let w = (width - 1) as nat;
        let p = vstd::arithmetic::power::pow(256, w);
        assert(limit == 256 * p);
        vstd::arithmetic::power::lemma_pow_positive(256, w);
        hl_signing::lemma_big_endian_len(n / 256, w);
        let b = hl_signing::big_endian(n, width);
        assert(b.drop_last() =~= hl_signing::big_endian(n / 256, w));
        lemma_bytes_read_back(n / 256, w, p as nat);
    }
}

/// What is hashed of an action begins with its bytes, then shows the nonce, and then whether it
/// is for a vault and for which.
pub proof fn law_hashed_data_reads_back(
    action: Seq<u8>,
    nonce: u64,
    vault: Option<Seq<u8>>,
    expires_after: Option<u64>,
)
    ensures
        ({
            let d = hl_signing::action_data(action, nonce, vault, expires_after);
            let n = action.len() as int;
            let tail = match expires_after {
                Some(_) => 9int,
                None => 0int,
            };
            &&& d.subrange(0, n) == action
            &&& bytes_value(d.subrange(n, n + 8)) == nonce
            &&& match vault {
                Some(v) => d.len() == n + 9 + v.len() + tail && d[n + 8] == 1 && d.subrange(
                    n + 9,
                    n + 9 + v.len(),
                ) == v,
                None => d.len() == n + 9 + tail && d[n + 8] == 0,
            }
            &&& expires_after matches Some(t) ==> d[d.len() - 9] == 0 && bytes_value(
                d.subrange(d.len() - 8, d.len() as int),
            ) == t
        }),
{
    hl_signing::lemma_big_endian_len(nonce as nat, 8);
    let d = hl_signing::action_data(action, nonce, vault, expires_after);
    let n = action.len() as int;
    assert(vstd::arithmetic::power::pow(256, 8) == 18446744073709551616) by {
        reveal_with_fuel(vstd::arithmetic::power::pow, 9);
    }
    lemma_bytes_read_back(nonce as nat, 8, 18446744073709551616);
    assert(d.subrange(0, n) =~= action);
    assert(d.subrange(n, n + 8) =~= hl_signing::big_endian(nonce as nat, 8));
    if let Some(v) = vault {
        assert(d.subrange(n + 9, n + 9 + v.len()) =~= v);
    }
    if let Some(t) = expires_after {
        hl_signing::lemma_big_endian_len(t as nat, 8);
        lemma_bytes_read_back(t as nat, 8, 18446744073709551616);
        assert(d.subrange(d.len() - 8, d.len() as int) =~= hl_signing::big_endian(t as nat, 8));
    }
}

/// The two networks are signed for under different names, the main one as `a`.
pub proof fn law_networks_are_signed_apart(x: HyperliquidSigner, y: HyperliquidSigner)
    ensures
        x.source_text() == "a"@ <==> x.mainnet(),
        x.source_text() == "b"@ <==> !x.mainnet(),
        x.source_text() == y.source_text() <==> x.mainnet() == y.mainnet(),
{
    lemma_names();
}

/// The answer to an order that says why it was refused is read as a refusal for that reason.
pub proof fn law_refusal_is_read(status: JsonView, why: Seq<char>, r: PlaceOrderResult)
    requires
        status.member("error"@) == Some(JsonView::Text(why)),
    ensures
        hl_client::answers(Some(status), r) <==> (r matches PlaceOrderResult::Rejected { reason }
            && reason@ == why),
{
}

/// The answer to an order that rests is read as taken, under its number and with nothing filled.
pub proof fn law_resting_order_is_read(status: JsonView, resting: JsonView, oid: u64, r: PlaceOrderResult)
    requires
        status.member("error"@) is None,
        status.member("filled"@) is None,
        status.member("resting"@) == Some(resting),
        resting.member("oid"@) == Some(JsonView::Whole(oid)),
    ensures
        hl_client::answers(Some(status), r) <==> (r matches PlaceOrderResult::Accepted {
            exchange_order_id: Some(id),
            filled_qty: None,
            avg_fill_px: None,
        } && id@ == text::digits(oid as nat)),
{
}

/// The answer to an order that was filled is read as taken, under its number, with the size and
/// the price that were filled.
pub proof fn law_filled_order_is_read(
    status: JsonView,
    filled: JsonView,
    oid: u64,
    size: Seq<char>,
    price: Seq<char>,
    r: PlaceOrderResult,
)
    requires
        status.member("error"@) is None,
        status.member("resting"@) is None,
        status.member("filled"@) == Some(filled),
        filled.member("oid"@) == Some(JsonView::Whole(oid)),
        filled.member("totalSz"@) == Some(JsonView::Text(size)),
        filled.member("avgPx"@) == Some(JsonView::Text(price)),
        decimal::decimal_parsed(size) is Some,
        decimal::decimal_parsed(price) is Some,
        hl_client::answers(Some(status), r),
    ensures
        r matches PlaceOrderResult::Accepted {
            exchange_order_id: Some(id),
            filled_qty: Some(q),
            avg_fill_px: Some(p),
        } && id@ == text::digits(oid as nat) && Some(q.0) == decimal::opt_of(
            decimal::decimal_parsed(size),
        ) && Some(p.0) == decimal::opt_of(decimal::decimal_parsed(price)),
{
}

/// The answers to the orders of a batch are found in the data of the reply.
pub proof fn law_statuses_are_found(v: JsonView, response: JsonView, data: JsonView, list: Seq<JsonView>)
    requires
        v.member("response"@) == Some(response),
        response.member("data"@) == Some(data),
        data.member("statuses"@) == Some(JsonView::List(list)),
    ensures
        hl_client::statuses_of(v) == Some(list),
{
}

/// A batch counts as stopped by the limit only where none of its orders got through, and only
/// where an answer says so.
pub proof fn law_limit_needs_all_refused(statuses: Seq<JsonView>, n: nat, i: int)
    requires
        0 <= i < statuses.len(),
        i < n,
        statuses[i].member("error"@) is None || forall|j: int|
            0 <= j < statuses.len() ==> (#[trigger] statuses[j]).member("error"@) is None,
    ensures
        !hl_client::batch_limited(statuses, n),
{
}

/// The wait after the limit gives back at least the actions that are needed.
pub proof fn law_limit_wait_is_long_enough(n: u32)
    ensures
        hl_client::limit_error(n) matches ExchangeError::WouldExceedUserActionLimit {
            retry_after_ms,
            needed,
        } && needed >= 1 && needed >= n && retry_after_ms > needed * 10_000 && retry_after_ms < (needed
            + 1) * 10_000,
{
}

/// A reported purchase is booked as one and a reported sale as one, with the price, the size,
/// the fee and the numbers of the report.
pub proof fn law_report_is_read(client: HyperliquidClient, f: HyperliquidUserFill, r: Fill)
    requires
        client.is_fill(f, r),
    ensures
        f.side@ == "B"@ ==> r.side == OrderSide::Buy,
        f.side@ == "A"@ ==> r.side == OrderSide::Sell,
        decimal::decimal_parsed(f.px@) matches Some(p) ==> r.price.0 == decimal::Decimal::of(p),
        decimal::decimal_parsed(f.sz@) matches Some(q) ==> r.qty.0 == decimal::Decimal::of(q),
        decimal::decimal_parsed(f.fee@) matches Some(c) ==> r.fee.amount == decimal::Decimal::of(c),
        r.exchange_order_id matches Some(id) && text::unsigned_value(id@, u64::MAX as nat) == Some(
            f.oid as nat,
        ),
        f.tid matches Some(n) ==> text::unsigned_value(r.trade_id@, u64::MAX as nat) == Some(n as nat),
        f.tid is None ==> r.trade_id@ == f.hash@,
        f.cloid matches Some(c) ==> (r.client_id matches Some(d) && d@ == c@),
        f.fee_token matches Some(t) ==> r.fee.asset@ == t@,
{
    reveal_strlit("A");
    reveal_strlit("B");
    assert("A"@[0] == 'A' && "B"@[0] == 'B');
    text::law_digits_read_back(f.oid as nat, u64::MAX as nat);
    if let Some(n) = f.tid {
        text::law_digits_read_back(n as nat, u64::MAX as nat);
    }
}

/// A position is read with the quantity, the entry price and the profit that the exchange gives.
pub proof fn law_position_is_read(item: JsonView, p: JsonView, s: PositionSnapshot)
    requires
        hl_client::is_position(item, s),
        item.member("position"@) == Some(p),
    ensures
        p.member("coin"@) == Some(JsonView::Text(s.instrument@)),
        p.member("szi"@) matches Some(JsonView::Text(t)) && Some(s.qty) == decimal::opt_of(
            decimal::decimal_parsed(t),
        ),
        p.member("entryPx"@) matches Some(JsonView::Text(t)) ==> (match decimal::opt_of(
            decimal::decimal_parsed(t),
        ) {
            Some(x) => s.avg_entry_px == Some(Price(x)),
            None => s.avg_entry_px is None,
        }),
        p.member("unrealizedPnl"@) matches Some(JsonView::Text(t)) ==> s.unrealized_pnl
            == decimal::opt_of(decimal::decimal_parsed(t)),
        p.member("liquidationPx"@) matches Some(JsonView::Text(t)) ==> s.liquidation_px
            == decimal::opt_of(decimal::decimal_parsed(t)),
{
}

/// All that is asked for is quoted at the price that is known for it, and nothing else is.
pub proof fn law_quotes_are_at_known_prices(
    client: HyperliquidClient,
    mids: Map<Seq<char>, decimal::Decimal>,
    instruments: Seq<InstrumentId>,
    n: nat,
)
    requires
        n <= instruments.len(),
    ensures
        forall|i: int|
            0 <= i < n && client.priced(mids, #[trigger] instruments[i]) ==> client.priced_among(
                mids,
                instruments,
                n,
            ).contains(instruments[i]),
        forall|id: InstrumentId| #[trigger]
            client.priced_among(mids, instruments, n).contains(id) ==> client.priced(mids, id)
                && instruments.contains(id),
    decreases n,
{
    if n > 0 {
        let m = (n - 1) as nat;
        law_quotes_are_at_known_prices(client, mids, instruments, m);
        let (a, b) = (
            client.priced_among(mids, instruments, m),
            client.priced_among(mids, instruments, n),
        );
        let last = instruments[n - 1];
        if client.priced(mids, last) {
            assert(b[a.len() as int] == last);
        }
        assert forall|i: int| 0 <= i < n && client.priced(mids, #[trigger] instruments[i]) implies b.contains(
            instruments[i],
        ) by {
            if i < n - 1 {
                let j = choose|j: int| 0 <= j < a.len() && a[j] == instruments[i];
                assert(b[j] == instruments[i]);
            }
        }
        assert forall|id: InstrumentId| #[trigger] b.contains(id) implies client.priced(mids, id)
            && instruments.contains(id) by {
            let j = choose|j: int| 0 <= j < b.len() && b[j] == id;
            if j < a.len() {
                assert(a[j] == id);
                assert(a.contains(id));
            }
        }
    }
}

} // verus!
