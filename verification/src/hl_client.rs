//! What the Hyperliquid client asks and how it reads the replies. Sending is up to the caller.
use vstd::prelude::*;
use vstd::string::*;
use crate::text;
use crate::json;
use crate::hl_signing;
use crate::decimal;
use crate::decimal::Decimal;
use crate::exchange::{ExchangeError, Fill, OrderInput, PlaceOrderResult};
use crate::hl_signing::{HyperliquidSignature, HyperliquidSigner, SigningError, decimal_to_wire};
use crate::hl_types::HyperliquidConfig;
use crate::json::{Json, JsonView};
use crate::market;
use crate::wire;
use crate::wire::Document;
use crate::strmap::StrMap;
use crate::text::{contains_text, ends_with_text, join2, join3, lowered, number_text, parse_unsigned, same_text, starts_with_text, text_before_first, text_before_last};
use crate::types::{AccountState, AssetId, ClientOrderId, Environment, ExchangeId, ExchangeOrderId, Fee, InstrumentId, MarketIndex, OrderSide, PositionSnapshot, Price, Qty, Quote, TimeInForce, TradeId};

verus! {

/// How long the account takes to win back one action, in milliseconds.
pub const ADDRESS_LIMIT_REFILL_MS_PER_ACTION: u64 = 10_000;

/// How much longer a retry waits, in milliseconds.
pub const ADDRESS_LIMIT_RETRY_BUFFER_MS: u64 = 500;

/// At least one action.
pub open spec fn units_needed(n: u32) -> u32 {
    if n == 0 {
        1
    } else {
        n
    }
}

/// How long to wait until that many actions are won back, in milliseconds.
pub open spec fn retry_wait(n: u32) -> int {
    10_000 * units_needed(n) + 500
}

/// How long to wait until that many actions are won back, in milliseconds.
pub fn retry_after_for_action_units(action_units: u32) -> (r: u64)
    ensures
        r == retry_wait(action_units),
{
    let n: u64 = if action_units == 0 {
        1
    } else {
        action_units as u64
    };
    ADDRESS_LIMIT_REFILL_MS_PER_ACTION * n + ADDRESS_LIMIT_RETRY_BUFFER_MS
}

/// The text says that the account has used up its actions.
pub open spec fn is_limit_text(reason: Seq<char>) -> bool {
    let low = text::ascii_lower(reason);
    text::has_text(low, "too many cumulative requests"@) || text::has_text(low, "cumulative requests sent"@)
}

/// Whether the text says that the account has used up its actions.
pub fn is_cumulative_address_limit_error(reason: &str) -> (r: bool)
    ensures
        r == is_limit_text(reason@),
{
    let low = lowered(reason);
    contains_text(low.as_str(), "too many cumulative requests") || contains_text(
        low.as_str(),
        "cumulative requests sent",
    )
}

/// The error of an account that has used up its actions.
pub open spec fn limit_error(n: u32) -> ExchangeError {
    ExchangeError::WouldExceedUserActionLimit {
        retry_after_ms: retry_wait(n) as u64,
        needed: units_needed(n),
    }
}

fn limit_error_for(action_units: u32) -> (r: ExchangeError)
    ensures
        r == limit_error(action_units),
{
    ExchangeError::WouldExceedUserActionLimit {
        retry_after_ms: retry_after_for_action_units(action_units),
        needed: if action_units == 0 {
            1
        } else {
            action_units
        },
    }
}

/// A fill as the exchange reports it.
#[derive(Debug)]
pub struct HyperliquidUserFill {
    pub coin: String,
    pub px: String,
    pub sz: String,
    pub side: String,
    pub time: u64,
    pub hash: String,
    pub oid: u64,
    pub tid: Option<u64>,
    pub fee: String,
    pub fee_token: Option<String>,
    pub cloid: Option<String>,
    pub closed_pnl: Option<String>,
}

/// An open order as the exchange reports it.
#[derive(Debug)]
pub struct HyperliquidOrder {
    pub coin: String,
    pub side: String,
    pub limit_px: String,
    pub sz: String,
    pub oid: u64,
    pub timestamp: u64,
    pub cloid: Option<String>,
}

/// A reply to an action.
#[derive(Debug)]
pub struct Reply {
    pub value: Json,
    /// The member `response` as text, where there is one.
    pub response_text: String,
    /// The whole value as text.
    pub text: String,
}

/// Reads the reply to an action, or says why it cannot be read.
pub fn read_reply(raw: &str) -> (r: Result<Reply, ExchangeError>)
    ensures
        match wire::json_parsed(raw@) {
            Ok(j) => r matches Ok(reply) && {
                &&& reply.value@ == j
                &&& reply.response_text@ == (match j.member("response"@) {
                    Some(m) => wire::json_text(m),
                    None => Seq::empty(),
                })
                &&& reply.text@ == wire::json_text(j)
            },
            Err(fault) => r matches Err(ExchangeError::Parse(s)) && s@ == unreadable(fault, raw@),
        },
{
    match Document::parse(raw) {
        Ok(document) => Ok(
            Reply {
                value: document.json(),
                response_text: match document.member_text("response") {
                    Some(s) => s,
                    None => String::new(),
                },
                text: document.text(),
            },
        ),
        Err(fault) => Err(parse_error(fault.as_str(), raw)),
    }
}

/// The reply says that the action was carried out.
pub open spec fn is_ok(v: JsonView) -> bool {
    json::text_of(v.member("status"@)) == Some("ok"@)
}

/// The result is what became of `n` orders, by the reply to the action that placed them.
pub open spec fn are_placed(
    n: nat,
    reply: Reply,
    r: Result<Vec<PlaceOrderResult>, ExchangeError>,
) -> bool {
    match r {
        Ok(results) => {
            &&& is_ok(reply.value@)
            &&& statuses_of(reply.value@) matches Some(s)
            &&& !batch_limited(s, n)
            &&& results@.len() == n
            &&& forall|i: int| 0 <= i < n ==> answers(status_at(s, i), #[trigger] results@[i])
        },
        Err(ExchangeError::Rejected(reason)) => if is_ok(reply.value@) {
            statuses_of(reply.value@) is None && reason@ == "Order response missing statuses: "@
                + refusal(reply)
        } else {
            reason@ == refusal(reply)
        },
        Err(e) => {
            &&& is_ok(reply.value@)
            &&& statuses_of(reply.value@) matches Some(s)
            &&& batch_limited(s, n)
            &&& e == limit_error(n as u32)
        },
    }
}

/// Why the action was refused.
pub open spec fn refusal(reply: Reply) -> Seq<char> {
    let v = reply.value@;
    match json::text_of(v.member("error"@)) {
        Some(e) => e,
        None => match v.member("response"@) {
            None => reply.text@,
            Some(r) => match r.text() {
                Some(s) => s,
                None => match json::text_of(r.member("error"@)) {
                    Some(e) => e,
                    None => reply.response_text@,
                },
            },
        },
    }
}

/// The answers to the orders of a batch, in the places where they are looked for.
pub open spec fn statuses_of(v: JsonView) -> Option<Seq<JsonView>> {
    let r = v.member("response"@);
    match json::list_of(json::member_of(json::member_of(r, "data"@), "statuses"@)) {
        Some(s) => Some(s),
        None => match json::list_of(
            json::member_of(json::member_of(json::member_of(r, "response"@), "data"@), "statuses"@),
        ) {
            Some(s) => Some(s),
            None => json::list_of(json::member_of(r, "statuses"@)),
        },
    }
}

/// The answer says that the account has used up its actions.
pub open spec fn is_limit_status(s: JsonView) -> bool {
    json::text_of(s.member("error"@)) matches Some(e) && is_limit_text(e)
}

/// No order of the batch got through, and the account has used up its actions.
pub open spec fn batch_limited(statuses: Seq<JsonView>, n: nat) -> bool {
    &&& exists|i: int| 0 <= i < statuses.len() && is_limit_status(#[trigger] statuses[i])
    &&& forall|i: int|
        0 <= i < statuses.len() && i < n ==> (#[trigger] statuses[i]).member("error"@) is Some
}

/// The number that a text denotes.
pub open spec fn parsed(s: Option<Seq<char>>) -> Option<Decimal> {
    match s {
        Some(t) => decimal::opt_of(decimal::decimal_parsed(t)),
        None => None,
    }
}

/// The number of the order in an answer.
pub open spec fn oid_of(status: Option<JsonView>) -> Option<u64> {
    match json::whole_of(json::member_of(json::member_of(status, "resting"@), "oid"@)) {
        Some(n) => Some(n),
        None => json::whole_of(json::member_of(json::member_of(status, "filled"@), "oid"@)),
    }
}

/// The result is what the answer says of an order.
pub open spec fn answers(status: Option<JsonView>, r: PlaceOrderResult) -> bool {
    match json::text_of(json::member_of(status, "error"@)) {
        Some(e) => r matches PlaceOrderResult::Rejected { reason } && reason@ == e,
        None => match (oid_of(status), r) {
            (
                Some(n),
                PlaceOrderResult::Accepted { exchange_order_id: Some(id), filled_qty, avg_fill_px },
            ) => {
                let filled = json::member_of(status, "filled"@);
                &&& id@ == text::digits(n as nat)
                &&& filled_qty == (match parsed(json::text_of(json::member_of(filled, "totalSz"@))) {
                    Some(q) => Some(Qty(q)),
                    None => None,
                })
                &&& avg_fill_px == (match parsed(json::text_of(json::member_of(filled, "avgPx"@))) {
                    Some(p) => Some(Price(p)),
                    None => None,
                })
            },
            (
                None,
                PlaceOrderResult::Accepted {
                    exchange_order_id: None,
                    filled_qty: None,
                    avg_fill_px: None,
                },
            ) => true,
            _ => false,
        },
    }
}

/// The item at a place, where there is one.
pub open spec fn status_at(statuses: Seq<JsonView>, i: int) -> Option<JsonView> {
    if 0 <= i < statuses.len() {
        Some(statuses[i])
    } else {
        None
    }
}

/// The member of a value that may be missing.
fn submember<'a>(j: Option<&'a Json>, name: &str) -> (r: Option<&'a Json>)
    ensures
        match r {
            Some(v) => json::member_of(seen(j), name@) == Some(v@),
            None => json::member_of(seen(j), name@) is None,
        },
{
    match j {
        Some(v) => v.member(name),
        None => None,
    }
}

/// What a value that may be missing is.
pub open spec fn seen(j: Option<&Json>) -> Option<JsonView> {
    match j {
        Some(v) => Some(v@),
        None => None,
    }
}

fn subtext<'a>(j: Option<&'a Json>) -> (r: Option<&'a str>)
    ensures
        match r {
            Some(s) => json::text_of(seen(j)) == Some(s@),
            None => json::text_of(seen(j)) is None,
        },
{
    match j {
        Some(v) => v.as_str(),
        None => None,
    }
}

fn subwhole(j: Option<&Json>) -> (r: Option<u64>)
    ensures
        r == json::whole_of(seen(j)),
{
    match j {
        Some(v) => v.as_u64(),
        None => None,
    }
}

fn sublist<'a>(j: Option<&'a Json>) -> (r: Option<&'a Vec<Json>>)
    ensures
        match r {
            Some(v) => json::list_of(seen(j)) == Some(json::items_view(v@)),
            None => json::list_of(seen(j)) is None,
        },
{
    match j {
        Some(v) => v.as_list(),
        None => None,
    }
}

fn subnumber(j: Option<&Json>) -> (r: Option<Decimal>)
    ensures
        r == parsed(json::text_of(seen(j))),
{
    match subtext(j) {
        Some(s) => Decimal::parse(s),
        None => None,
    }
}

fn extract_order_statuses(v: &Json) -> (r: Option<&Vec<Json>>)
    ensures
        match r {
            Some(s) => statuses_of(v@) == Some(json::items_view(s@)),
            None => statuses_of(v@) is None,
        },
{
    let response = v.member("response");
    match sublist(submember(submember(response, "data"), "statuses")) {
        Some(s) => Some(s),
        None => match sublist(
            submember(submember(submember(response, "response"), "data"), "statuses"),
        ) {
            Some(s) => Some(s),
            None => sublist(submember(response, "statuses")),
        },
    }
}

fn any_limit_status(statuses: &Vec<Json>) -> (r: bool)
    ensures
        r == exists|i: int|
            0 <= i < json::items_view(statuses@).len() && is_limit_status(
                #[trigger] json::items_view(statuses@)[i],
            ),
{
    proof {
        json::lemma_items(statuses@);
    }
    let mut i: usize = 0;
    while i < statuses.len()
        invariant
            i <= statuses@.len(),
            json::items_view(statuses@).len() == statuses@.len(),
            forall|k: int|
                0 <= k < statuses@.len() ==> #[trigger] json::items_view(statuses@)[k] == statuses@[k]@,
            forall|k: int| 0 <= k < i ==> !is_limit_status(#[trigger] json::items_view(statuses@)[k]),
        decreases statuses@.len() - i,
    {
        assert(json::items_view(statuses@)[i as int] == statuses@[i as int]@);
        if let Some(e) = statuses[i].text_member("error") {
            if is_cumulative_address_limit_error(e) {
                return true;
            }
        }
        i = i + 1;
    }
    false
}

fn all_error_statuses(statuses: &Vec<Json>, n: usize) -> (r: bool)
    ensures
        r == forall|i: int|
            0 <= i < json::items_view(statuses@).len() && i < n ==> (
            #[trigger] json::items_view(statuses@)[i]).member("error"@) is Some,
{
    proof {
        json::lemma_items(statuses@);
    }
    let mut i: usize = 0;
    while i < statuses.len() && i < n
        invariant
            i <= statuses@.len(),
            i <= n,
            json::items_view(statuses@).len() == statuses@.len(),
            forall|k: int|
                0 <= k < statuses@.len() ==> #[trigger] json::items_view(statuses@)[k] == statuses@[k]@,
            forall|k: int|
                0 <= k < i ==> (#[trigger] json::items_view(statuses@)[k]).member("error"@) is Some,
        decreases statuses@.len() - i,
    {
        assert(json::items_view(statuses@)[i as int] == statuses@[i as int]@);
        if statuses[i].member("error").is_none() {
            return false;
        }
        i = i + 1;
    }
    true
}

fn place_result(status: Option<&Json>) -> (r: PlaceOrderResult)
    ensures
        answers(seen(status), r),
{
    if let Some(e) = subtext(submember(status, "error")) {
        return PlaceOrderResult::Rejected { reason: e.to_owned() };
    }
    let filled = submember(status, "filled");
    let oid = match subwhole(submember(submember(status, "resting"), "oid")) {
        Some(n) => Some(n),
        None => subwhole(submember(filled, "oid")),
    };
    match oid {
        Some(n) => PlaceOrderResult::Accepted {
            exchange_order_id: Some(ExchangeOrderId(number_text(n as u128))),
            filled_qty: match subnumber(submember(filled, "totalSz")) {
                Some(q) => Some(Qty(q)),
                None => None,
            },
            avg_fill_px: match subnumber(submember(filled, "avgPx")) {
                Some(p) => Some(Price(p)),
                None => None,
            },
        },
        None => PlaceOrderResult::Accepted {
            exchange_order_id: None,
            filled_qty: None,
            avg_fill_px: None,
        },
    }
}

/// The error is that of a reply by its status: its code, the code with its name, and the body.
pub open spec fn is_http_error(
    r: Option<ExchangeError>,
    code: u16,
    status: Seq<char>,
    body: Seq<char>,
) -> bool {
    match r {
        None => 200 <= code < 300,
        Some(ExchangeError::Unavailable) => code == 502 || code == 503,
        Some(ExchangeError::RateLimited) => code == 429,
        Some(ExchangeError::Http(s)) => !(200 <= code < 300) && code != 502 && code != 503 && code
            != 429 && s@ == "HTTP "@ + status + ": "@ + body,
        Some(_) => false,
    }
}

/// The error of a reply by its status: its code, the code with its name, and the body.
pub fn http_error(code: u16, status: &str, body: &str) -> (r: Option<ExchangeError>)
    ensures
        is_http_error(r, code, status@, body@),
{
    if code == 502 || code == 503 {
        return Some(ExchangeError::Unavailable);
    }
    if code == 429 {
        return Some(ExchangeError::RateLimited);
    }
    if code < 200 || code >= 300 {
        return Some(ExchangeError::Http(join3("HTTP ", status, ": ").concat(body)));
    }
    None
}

/// What is wrong with a reply that is not JSON, and how it begins.
pub open spec fn unreadable(fault: Seq<char>, raw: Seq<char>) -> Seq<char> {
    fault + " | raw="@ + raw.subrange(
        0,
        if raw.len() < 2000 {
            raw.len() as int
        } else {
            2000
        },
    )
}

/// The error of a reply to an action that is not JSON.
pub fn parse_error(fault: &str, raw: &str) -> (r: ExchangeError)
    ensures
        r matches ExchangeError::Parse(s) && s@ == unreadable(fault@, raw@),
{
    let n: usize = raw.unicode_len();
    let k: usize = if n < 2000 {
        n
    } else {
        2000
    };
    ExchangeError::Parse(join3(fault, " | raw=", raw.substring_char(0, k)))
}

/// The account in a reply.
pub open spec fn account_of(v: JsonView) -> (Option<Decimal>, Option<Decimal>, Seq<JsonView>) {
    let c = v.member("clearinghouseState"@);
    let m = json::member_of(c, "marginSummary"@);
    (
        parsed(json::text_of(json::member_of(m, "accountValue"@))),
        parsed(json::text_of(json::member_of(m, "unrealizedPnl"@))),
        match json::list_of(json::member_of(c, "assetPositions"@)) {
            Some(s) => s,
            None => Seq::empty(),
        },
    )
}

/// The item holds a position.
pub open spec fn holds_position(item: JsonView) -> bool {
    let p = item.member("position"@);
    json::text_of(json::member_of(p, "coin"@)) is Some && parsed(json::text_of(json::member_of(p, "szi"@))) is Some
}

/// The position is that of the item.
pub open spec fn is_position(item: JsonView, s: PositionSnapshot) -> bool {
    let p = item.member("position"@);
    &&& json::text_of(json::member_of(p, "coin"@)) == Some(s.instrument@)
    &&& parsed(json::text_of(json::member_of(p, "szi"@))) == Some(s.qty)
    &&& s.avg_entry_px == (match parsed(json::text_of(json::member_of(p, "entryPx"@))) {
        Some(x) => Some(Price(x)),
        None => None,
    })
    &&& s.unrealized_pnl == parsed(json::text_of(json::member_of(p, "unrealizedPnl"@)))
    &&& s.liquidation_px == parsed(json::text_of(json::member_of(p, "liquidationPx"@)))
}

/// The items among the first `n` that hold a position.
pub open spec fn positions_among(s: Seq<JsonView>, n: nat) -> Seq<JsonView>
    decreases n,
{
    if n == 0 {
        Seq::empty()
    } else if holds_position(s[n - 1]) {
        positions_among(s, (n - 1) as nat).push(s[n - 1])
    } else {
        positions_among(s, (n - 1) as nat)
    }
}

fn position_of(item: &Json) -> (r: Option<PositionSnapshot>)
    ensures
        match r {
            Some(s) => holds_position(item@) && is_position(item@, s),
            None => !holds_position(item@),
        },
{
    let p = item.member("position");
    match (subtext(submember(p, "coin")), subnumber(submember(p, "szi"))) {
        (Some(coin), Some(qty)) => Some(
            PositionSnapshot {
                instrument: InstrumentId(coin.to_owned()),
                qty,
                avg_entry_px: match subnumber(submember(p, "entryPx")) {
                    Some(x) => Some(Price(x)),
                    None => None,
                },
                unrealized_pnl: subnumber(submember(p, "unrealizedPnl")),
                liquidation_px: subnumber(submember(p, "liquidationPx")),
            },
        ),
        _ => None,
    }
}

/// Reads the account from a reply; items that hold no position are passed over.
pub fn account_state(v: &Json) -> (r: AccountState)
    ensures
        ({
            let (value, pnl, items) = account_of(v@);
            let held = positions_among(items, items.len());
            &&& r.account_value == value
            &&& r.unrealized_pnl == pnl
            &&& r.positions@.len() == held.len()
            &&& forall|i: int| 0 <= i < held.len() ==> is_position(held[i], #[trigger] r.positions@[i])
        }),
{
    let clearing = v.member("clearinghouseState");
    let summary = submember(clearing, "marginSummary");
    let account_value = subnumber(submember(summary, "accountValue"));
    let unrealized_pnl = subnumber(submember(summary, "unrealizedPnl"));
    let mut positions: Vec<PositionSnapshot> = Vec::new();
    if let Some(items) = sublist(submember(clearing, "assetPositions")) {
        proof {
            json::lemma_items(items@);
        }
        let ghost s = json::items_view(items@);
        let mut i: usize = 0;
        while i < items.len()
            invariant
                i <= items@.len(),
                s == json::items_view(items@),
                s.len() == items@.len(),
                forall|k: int| 0 <= k < items@.len() ==> #[trigger] s[k] == items@[k]@,
                positions@.len() == positions_among(s, i as nat).len(),
                forall|k: int|
                    0 <= k < positions@.len() ==> is_position(
                        positions_among(s, i as nat)[k],
                        #[trigger] positions@[k],
                    ),
            decreases items@.len() - i,
        {
            assert(s[i as int] == items@[i as int]@);
            let ghost before = positions@;
            if let Some(p) = position_of(&items[i]) {
                positions.push(p);
                assert forall|k: int| 0 <= k < positions@.len() implies is_position(
                    positions_among(s, (i + 1) as nat)[k],
                    #[trigger] positions@[k],
                ) by {
                    if k < before.len() {
                        assert(positions@[k] == before[k]);
                    }
                }
            }
            i = i + 1;
        }
    }
    AccountState { positions, account_value, unrealized_pnl }
}

/// How long an order rests, as it is sent.
pub open spec fn tif_wire(tif: TimeInForce, post_only: bool) -> Seq<char> {
    match tif {
        TimeInForce::Gtc => if post_only {
            "Alo"@
        } else {
            "Gtc"@
        },
        TimeInForce::Ioc => "Ioc"@,
        TimeInForce::Fok => "Ioc"@,
    }
}

/// The client order id has the form in which it can be sent.
pub open spec fn is_cloid(id: Seq<char>) -> bool {
    text::begins_with(id, "0x"@) && vstd::utf8::encode_utf8(id).len() == 34
}

/// An order as it is sent.
pub open spec fn order_wire(asset: u64, o: OrderInput) -> JsonView {
    let s = seq![
        ("a"@, JsonView::Whole(asset)),
        ("b"@, JsonView::Bool(o.side == OrderSide::Buy)),
        ("p"@, JsonView::Text(hl_signing::wire_text(o.price.0))),
        ("s"@, JsonView::Text(hl_signing::wire_text(o.qty.0))),
        ("r"@, JsonView::Bool(o.reduce_only)),
        (
            "t"@,
            JsonView::Record(
                seq![
                    (
                        "limit"@,
                        JsonView::Record(
                            seq![("tif"@, JsonView::Text(tif_wire(o.tif, o.post_only)))],
                        ),
                    ),
                ],
            ),
        ),
    ];
    JsonView::Record(
        if is_cloid(o.client_id@) {
            s.push(("c"@, JsonView::Text(o.client_id@)))
        } else {
            s
        },
    )
}

fn build_order_wire(asset: u32, o: &OrderInput) -> (r: Json)
    ensures
        r@ == order_wire(asset as u64, *o),
{
    let tif = match o.tif {
        TimeInForce::Gtc => if o.post_only {
            "Alo"
        } else {
            "Gtc"
        },
        TimeInForce::Ioc => "Ioc",
        TimeInForce::Fok => "Ioc",
    };
    let limit = Json::record().with("tif", Json::text(tif));
    assert(limit@->Record_0 =~= seq![("tif"@, JsonView::Text(tif_wire(o.tif, o.post_only)))]);
    let order_type = Json::record().with("limit", limit);
    assert(order_type@->Record_0 =~= seq![("limit"@, limit@)]);
    let is_buy = match o.side {
        OrderSide::Buy => true,
        OrderSide::Sell => false,
    };
    let wire = Json::record().with("a", Json::Whole(asset as u64)).with("b", Json::Bool(is_buy)).with(
        "p",
        Json::Text(decimal_to_wire(&o.price.0)),
    ).with("s", Json::Text(decimal_to_wire(&o.qty.0))).with("r", Json::Bool(o.reduce_only)).with(
        "t",
        order_type,
    );
    assert(wire@->Record_0 =~= seq![
        ("a"@, JsonView::Whole(asset as u64)),
        ("b"@, JsonView::Bool(o.side == OrderSide::Buy)),
        ("p"@, JsonView::Text(hl_signing::wire_text(o.price.0))),
        ("s"@, JsonView::Text(hl_signing::wire_text(o.qty.0))),
        ("r"@, JsonView::Bool(o.reduce_only)),
        ("t"@, order_type@),
    ]);
    let id = o.client_id.as_str();
    if starts_with_text(id, "0x") && id.as_bytes().len() == 34 {
        wire.with("c", Json::text(id))
    } else {
        wire
    }
}

/// The orders as they are sent.
pub open spec fn order_wires(asset: spec_fn(MarketIndex) -> int, orders: Seq<OrderInput>) -> Seq<
    JsonView,
> {
    orders.map_values(|o: OrderInput| order_wire(asset(o.market_index) as u64, o))
}

/// The time up to which fills are known, after new ones came.
pub open spec fn later_fill(known: u64, fresh: Seq<HyperliquidUserFill>) -> u64 {
    if fresh.len() > 0 && fresh.last().time > known {
        fresh.last().time
    } else {
        known
    }
}

/// The key of a fill: its trade number, or its hash.
pub open spec fn fill_key(f: HyperliquidUserFill) -> Seq<char> {
    match f.tid {
        Some(n) => text::digits(n as nat),
        None => f.hash@,
    }
}

/// The fills among the first `n` whose key is new.
pub open spec fn fresh_fills(
    known: Map<Seq<char>, ()>,
    fills: Seq<HyperliquidUserFill>,
    n: nat,
) -> Seq<HyperliquidUserFill>
    decreases n,
{
    if n == 0 {
        Seq::empty()
    } else {
        let before = fresh_fills(known, fills, (n - 1) as nat);
        if known_after(known, fills, (n - 1) as nat).contains_key(fill_key(fills[n - 1])) {
            before
        } else {
            before.push(fills[n - 1])
        }
    }
}

/// The keys that are known after the first `n` fills.
pub open spec fn known_after(
    known: Map<Seq<char>, ()>,
    fills: Seq<HyperliquidUserFill>,
    n: nat,
) -> Map<Seq<char>, ()>
    decreases n,
{
    if n == 0 {
        known
    } else {
        known_after(known, fills, (n - 1) as nat).insert(fill_key(fills[n - 1]), ())
    }
}

/// The instrument of a fill, by the form of its coin.
pub open spec fn fill_instrument(spot_coin: Option<String>, coin: Seq<char>) -> Seq<char> {
    if text::begins_with(coin, "#"@) {
        coin + "-"@ + "OUTCOME"@
    } else if text::begins_with(coin, "@"@) {
        (match spot_coin {
            Some(c) => c@,
            None => coin,
        }) + "-"@ + "SPOT"@
    } else {
        coin + "-"@ + "PERP"@
    }
}

/// The number that a text denotes, and zero where it denotes none.
pub open spec fn parsed_or_zero(s: Seq<char>) -> Decimal {
    match decimal::opt_of(decimal::decimal_parsed(s)) {
        Some(d) => d,
        None => decimal::zero(),
    }
}

fn parse_or_zero(s: &str) -> (r: Decimal)
    ensures
        r == parsed_or_zero(s@),
{
    match Decimal::parse(s) {
        Some(d) => d,
        None => Decimal::zero(),
    }
}

fn fill_key_text(f: &HyperliquidUserFill) -> (r: String)
    ensures
        r@ == fill_key(*f),
{
    match f.tid {
        Some(n) => number_text(n as u128),
        None => f.hash.clone(),
    }
}

/// What a client holds between requests.
#[derive(Debug)]
pub struct HyperliquidClient {
    pub config: HyperliquidConfig,
    pub signer: HyperliquidSigner,
    pub exchange_id: ExchangeId,
    /// When the last fill that was taken happened.
    pub last_fill_time: u64,
    /// The fills that were taken.
    pub seen_trades: StrMap<()>,
}

/// The asset numbers of the configuration are numbers of the machine.
pub open spec fn assets_fit(config: HyperliquidConfig) -> bool {
    match config.outcome {
        Some(o) => market::outcome_asset(o.outcome_id, o.side) <= u32::MAX,
        None => match config.hip3 {
            Some(h) => market::hip3_asset(h.dex_index, h.asset_index) <= u32::MAX,
            None => true,
        },
    }
}

/// Whether the asset numbers of the configuration are numbers of the machine.
pub fn config_fits(config: &HyperliquidConfig) -> (r: bool)
    ensures
        r == assets_fit(*config),
{
    match &config.outcome {
        Some(o) => 100_000_000 + 10 * o.outcome_id as u64 + o.side as u64 <= u32::MAX as u64,
        None => match &config.hip3 {
            Some(h) => {
                let before: u64 = if h.dex_index > 0 {
                    h.dex_index as u64 - 1
                } else {
                    0
                };
                110_000 + before * 10_000 + h.asset_index as u64 <= u32::MAX as u64
            },
            None => true,
        },
    }
}

/// A signed request for an action.
pub open spec fn request_of(
    action: JsonView,
    nonce: u64,
    signature: (Seq<char>, Seq<char>, u8),
    vault: JsonView,
) -> JsonView {
    JsonView::Record(
        seq![
            ("action"@, action),
            ("nonce"@, JsonView::Whole(nonce)),
            (
                "signature"@,
                JsonView::Record(
                    seq![
                        ("r"@, JsonView::Text(signature.0)),
                        ("s"@, JsonView::Text(signature.1)),
                        ("v"@, JsonView::Whole(signature.2 as u64)),
                    ],
                ),
            ),
            ("vaultAddress"@, vault),
        ],
    )
}

/// A record of texts.
pub open spec fn texts(s: Seq<(Seq<char>, Seq<char>)>) -> JsonView {
    JsonView::Record(s.map_values(|p: (Seq<char>, Seq<char>)| (p.0, JsonView::Text(p.1))))
}

impl HyperliquidClient {
    /// The asset number for orders.
    pub open spec fn asset(&self, market_index: MarketIndex) -> int {
        match self.config.outcome {
            Some(o) => market::outcome_asset(o.outcome_id, o.side),
            None => match self.config.hip3 {
                Some(h) => market::hip3_asset(h.dex_index, h.asset_index),
                None => market_index.0 as int,
            },
        }
    }

    /// Where requests go.
    pub open spec fn base(&self) -> Seq<char> {
        match self.config.base_url_override {
            Some(url) => url@,
            None => match self.config.environment {
                Environment::Mainnet => "http://node.supurr.app"@,
                Environment::Testnet => "https://api.hyperliquid-testnet.xyz"@,
            },
        }
    }

    /// The account that is read: the vault, the main account, or that of the key.
    pub open spec fn user(&self) -> Seq<char> {
        match self.config.vault_address {
            Some(a) => a@,
            None => match self.config.main_address {
                Some(a) => a@,
                None => self.signer.address(),
            },
        }
    }

    /// A client, if the key is one.
    pub fn new(config: HyperliquidConfig) -> (r: Result<HyperliquidClient, ExchangeError>)
        ensures
            ({
                let opened = crate::hl_signing::wallet_address(
                    crate::hl_signing::unprefixed(config.private_key@),
                );
                match r {
                    Ok(c) => {
                        &&& c.config == config
                        &&& opened == Ok::<Seq<char>, Seq<char>>(c.signer.address())
                        &&& c.signer.key() == crate::hl_signing::unprefixed(config.private_key@)
                        &&& c.signer.mainnet() == (config.environment == Environment::Mainnet)
                        &&& c.exchange_id@ == "hyperliquid"@
                        &&& c.last_fill_time == 0
                        &&& c.seen_trades@ == Map::<Seq<char>, ()>::empty()
                    },
                    Err(e) => opened matches Err(t) && (e matches ExchangeError::Configuration(s)
                        && s@ == "Invalid private key: "@ + t),
                }
            }),
    {
        let is_mainnet = match config.environment {
            Environment::Mainnet => true,
            Environment::Testnet => false,
        };
        match HyperliquidSigner::new(config.private_key.as_str(), is_mainnet) {
            Err(e) => Err(ExchangeError::Configuration(e.to_string())),
            Ok(signer) => Ok(
                HyperliquidClient {
                    config,
                    signer,
                    exchange_id: ExchangeId::new("hyperliquid"),
                    last_fill_time: 0,
                    seen_trades: StrMap::new(),
                },
            ),
        }
    }

    /// Whether the client trades on a builder-deployed exchange.
    pub fn is_hip3(&self) -> (r: bool)
        ensures
            r == (self.config.hip3 is Some),
    {
        self.config.hip3.is_some()
    }

    /// Whether the client trades outcomes.
    pub fn is_outcome(&self) -> (r: bool)
        ensures
            r == (self.config.outcome is Some),
    {
        self.config.outcome.is_some()
    }

    /// The collateral.
    pub open spec fn collateral(&self) -> Seq<char> {
        match self.config.hip3 {
            Some(h) => h.quote_currency@,
            None => "USDC"@,
        }
    }

    /// The collateral.
    pub fn quote_currency(&self) -> (r: &str)
        ensures
            r@ == self.collateral(),
    {
        match &self.config.hip3 {
            Some(h) => h.quote_currency.as_str(),
            None => "USDC",
        }
    }

    /// The asset number for orders.
    pub fn effective_asset_id(&self, market_index: MarketIndex) -> (r: u32)
        requires
            assets_fit(self.config),
        ensures
            r == self.asset(market_index),
    {
        match &self.config.outcome {
            Some(o) => o.asset_id(),
            None => match &self.config.hip3 {
                Some(h) => h.calculate_asset_id(),
                None => market_index.0,
            },
        }
    }

    /// Where requests go.
    pub fn base_url(&self) -> (r: &str)
        ensures
            r@ == self.base(),
    {
        match &self.config.base_url_override {
            Some(url) => url.as_str(),
            None => match self.config.environment {
                Environment::Mainnet => "http://node.supurr.app",
                Environment::Testnet => "https://api.hyperliquid-testnet.xyz",
            },
        }
    }

    /// The account that is read: the vault, the main account, or that of the key.
    pub fn user_address(&self) -> (r: String)
        ensures
            r@ == self.user(),
    {
        match &self.config.vault_address {
            Some(a) => a.clone(),
            None => match &self.config.main_address {
                Some(a) => a.clone(),
                None => self.signer.address_string(),
            },
        }
    }

    /// Where questions go.
    pub fn info_url(&self) -> (r: String)
        ensures
            r@ == self.base() + "/info"@,
    {
        join2(self.base_url(), "/info")
    }

    /// Where actions go.
    pub fn exchange_url(&self) -> (r: String)
        ensures
            r@ == self.base() + "/exchange"@,
    {
        join2(self.base_url(), "/exchange")
    }

    /// What the reply says of the action.
    pub fn exchange_status(v: &Json) -> (r: Option<&str>)
        ensures
            match r {
                Some(s) => json::text_of(v@.member("status"@)) == Some(s@),
                None => json::text_of(v@.member("status"@)) is None,
            },
    {
        v.text_member("status")
    }

    fn ok(v: &Json) -> (r: bool)
        ensures
            r == is_ok(v@),
    {
        match Self::exchange_status(v) {
            Some(s) => same_text(s, "ok"),
            None => false,
        }
    }

    /// Why the action was refused.
    pub fn exchange_reject_reason(reply: &Reply) -> (r: String)
        ensures
            r@ == refusal(*reply),
    {
        if let Some(e) = reply.value.text_member("error") {
            return e.to_owned();
        }
        match reply.value.member("response") {
            None => reply.text.clone(),
            Some(v) => {
                if let Some(s) = v.as_str() {
                    return s.to_owned();
                }
                if let Some(e) = v.text_member("error") {
                    return e.to_owned();
                }
                reply.response_text.clone()
            },
        }
    }

    /// The error of a reply that says that the account has used up its actions.
    pub fn address_limit_error(reply: &Reply, action_units: u32) -> (r: Option<ExchangeError>)
        ensures
            r == (if !is_ok(reply.value@) && is_limit_text(refusal(*reply)) {
                Some(limit_error(action_units))
            } else {
                None
            }),
    {
        if Self::ok(&reply.value) {
            return None;
        }
        let reason = Self::exchange_reject_reason(reply);
        if !is_cumulative_address_limit_error(reason.as_str()) {
            return None;
        }
        Some(limit_error_for(action_units))
    }

    /// The action that places orders.
    pub open spec fn order_action_of(&self, orders: Seq<OrderInput>) -> JsonView {
        let s = seq![
            ("type"@, JsonView::Text("order"@)),
            (
                "orders"@,
                JsonView::List(order_wires(|m: MarketIndex| self.asset(m), orders)),
            ),
            ("grouping"@, JsonView::Text("na"@)),
        ];
        JsonView::Record(
            match self.config.builder_fee {
                Some(b) => s.push(
                    (
                        "builder"@,
                        JsonView::Record(
                            seq![
                                ("b"@, JsonView::Text(b.address@)),
                                ("f"@, JsonView::Whole(b.fee_tenths_bp as u64)),
                            ],
                        ),
                    ),
                ),
                None => s,
            },
        )
    }

    /// The action that places orders.
    pub fn order_action(&self, orders: &Vec<OrderInput>) -> (r: Json)
        requires
            assets_fit(self.config),
        ensures
            r@ == self.order_action_of(orders@),
    {
        let mut wires: Vec<Json> = Vec::new();
        let ghost all = order_wires(|m: MarketIndex| self.asset(m), orders@);
        let mut i: usize = 0;
        while i < orders.len()
            invariant
                assets_fit(self.config),
                i <= orders@.len(),
                all == order_wires(|m: MarketIndex| self.asset(m), orders@),
                json::items_view(wires@) == all.subrange(0, i as int),
            decreases orders@.len() - i,
        {
            let asset: u32 = self.effective_asset_id(orders[i].market_index);
            let ghost before = wires@;
            wires.push(build_order_wire(asset, &orders[i]));
            assert(wires@.drop_last() =~= before);
            assert(json::items_view(wires@) =~= all.subrange(0, i + 1));
            i = i + 1;
        }
        assert(all.subrange(0, orders@.len() as int) =~= all);
        let list = Json::List(wires);
        let action = Json::record().with("type", Json::text("order")).with("orders", list).with(
            "grouping",
            Json::text("na"),
        );
        assert(action@->Record_0 =~= seq![
            ("type"@, JsonView::Text("order"@)),
            ("orders"@, JsonView::List(all)),
            ("grouping"@, JsonView::Text("na"@)),
        ]);
        match &self.config.builder_fee {
            Some(b) => {
                let builder = Json::record().with("b", Json::text(b.address.as_str())).with(
                    "f",
                    Json::Whole(b.fee_tenths_bp as u64),
                );
                assert(builder@->Record_0 =~= seq![
                    ("b"@, JsonView::Text(b.address@)),
                    ("f"@, JsonView::Whole(b.fee_tenths_bp as u64)),
                ]);
                action.with("builder", builder)
            },
            None => action,
        }
    }

    /// What became of `n` orders, by the reply to the action that placed them.
    pub fn placed(n: usize, reply: &Reply) -> (r: Result<Vec<PlaceOrderResult>, ExchangeError>)
        requires
            n <= u32::MAX,
        ensures
            are_placed(n as nat, *reply, r),
    {
        if !Self::ok(&reply.value) {
            return Err(ExchangeError::Rejected(Self::exchange_reject_reason(reply)));
        }
        let statuses = match extract_order_statuses(&reply.value) {
            Some(s) => s,
            None => {
                let reason = Self::exchange_reject_reason(reply);
                return Err(
                    ExchangeError::Rejected(
                        join2("Order response missing statuses: ", reason.as_str()),
                    ),
                );
            },
        };
        proof {
            json::lemma_items(statuses@);
        }
        let ghost s = json::items_view(statuses@);
        let limited = any_limit_status(statuses);
        let failed = all_error_statuses(statuses, n);
        if limited && failed {
            assert(batch_limited(s, n as nat));
            return Err(limit_error_for(n as u32));
        }
        assert(!batch_limited(s, n as nat));
        let mut results: Vec<PlaceOrderResult> = Vec::new();
        let mut i: usize = 0;
        while i < n
            invariant
                i <= n,
                s == json::items_view(statuses@),
                s.len() == statuses@.len(),
                forall|k: int| 0 <= k < s.len() ==> #[trigger] s[k] == statuses@[k]@,
                results@.len() == i,
                forall|k: int| 0 <= k < i ==> answers(status_at(s, k), #[trigger] results@[k]),
            decreases n - i,
        {
            let status = if i < statuses.len() {
                Some(&statuses[i])
            } else {
                None
            };
            assert(seen(status) == status_at(s, i as int));
            results.push(place_result(status));
            i = i + 1;
        }
        Ok(results)
    }

    /// The fill is that of the report.
    pub open spec fn is_fill(&self, f: HyperliquidUserFill, r: Fill) -> bool {
        &&& r.trade_id@ == fill_key(f)
        &&& match (r.client_id, f.cloid) {
            (Some(c), Some(d)) => c@ == d@,
            (None, None) => true,
            _ => false,
        }
        &&& r.exchange_order_id matches Some(id) && id@ == text::digits(f.oid as nat)
        &&& r.instrument@ == fill_instrument(self.config.spot_coin, f.coin@)
        &&& r.side == (if f.side@ == "B"@ {
            OrderSide::Buy
        } else {
            OrderSide::Sell
        })
        &&& r.price.0 == parsed_or_zero(f.px@)
        &&& r.qty.0 == parsed_or_zero(f.sz@)
        &&& r.fee.amount == parsed_or_zero(f.fee@)
        &&& r.fee.asset@ == (match f.fee_token {
            Some(t) => t@,
            None => self.collateral(),
        })
        &&& r.ts == f.time as i64
    }

    /// The fill of a report.
    pub fn parse_fill(&self, f: &HyperliquidUserFill) -> (r: Fill)
        ensures
            self.is_fill(*f, r),
    {
        let coin = f.coin.as_str();
        let instrument = if starts_with_text(coin, "#") {
            join3(coin, "-", "OUTCOME")
        } else if starts_with_text(coin, "@") {
            match &self.config.spot_coin {
                Some(c) => join3(c.as_str(), "-", "SPOT"),
                None => join3(coin, "-", "SPOT"),
            }
        } else {
            join3(coin, "-", "PERP")
        };
        Fill {
            trade_id: TradeId(fill_key_text(f)),
            client_id: match &f.cloid {
                Some(c) => Some(ClientOrderId(c.clone())),
                None => None,
            },
            exchange_order_id: Some(ExchangeOrderId(number_text(f.oid as u128))),
            instrument: InstrumentId(instrument),
            side: if same_text(f.side.as_str(), "B") {
                OrderSide::Buy
            } else {
                OrderSide::Sell
            },
            price: Price(parse_or_zero(f.px.as_str())),
            qty: Qty(parse_or_zero(f.sz.as_str())),
            fee: Fee {
                amount: parse_or_zero(f.fee.as_str()),
                asset: match &f.fee_token {
                    Some(t) => AssetId(t.clone()),
                    None => AssetId(self.quote_currency().to_owned()),
                },
            },
            ts: #[verifier::truncate]
            (f.time as i64),
        }
    }

    /// The fills among the reports that were not taken before.
    pub fn take_fills(&mut self, fills: &Vec<HyperliquidUserFill>) -> (r: Vec<Fill>)
        ensures
            ({
                let fresh = fresh_fills(old(self).seen_trades@, fills@, fills@.len());
                &&& final(self).config == old(self).config
                &&& final(self).signer == old(self).signer
                &&& final(self).exchange_id == old(self).exchange_id
                &&& final(self).seen_trades@ == known_after(
                    old(self).seen_trades@,
                    fills@,
                    fills@.len(),
                )
                &&& final(self).last_fill_time == later_fill(old(self).last_fill_time, fresh)
                &&& r@.len() == fresh.len()
                &&& forall|i: int|
                    0 <= i < fresh.len() ==> old(self).is_fill(fresh[i], #[trigger] r@[i])
            }),
    {
        let ghost known = self.seen_trades@;
        let ghost before = *self;
        let mut out: Vec<Fill> = Vec::new();
        let mut last: Option<u64> = None;
        let mut i: usize = 0;
        while i < fills.len()
            invariant
                i <= fills@.len(),
                self.config == before.config,
                self.signer == before.signer,
                self.exchange_id == before.exchange_id,
                self.last_fill_time == before.last_fill_time,
                known == before.seen_trades@,
                self.seen_trades@ == known_after(known, fills@, i as nat),
                out@.len() == fresh_fills(known, fills@, i as nat).len(),
                forall|k: int|
                    0 <= k < out@.len() ==> before.is_fill(
                        fresh_fills(known, fills@, i as nat)[k],
                        #[trigger] out@[k],
                    ),
                match last {
                    Some(t) => out@.len() > 0 && fresh_fills(known, fills@, i as nat).last().time
                        == t,
                    None => out@.len() == 0,
                },
            decreases fills@.len() - i,
        {
            let key = fill_key_text(&fills[i]);
            let ghost gone = out@;
            if !self.seen_trades.contains(key.as_str()) {
                let fill = self.parse_fill(&fills[i]);
                out.push(fill);
                last = Some(fills[i].time);
                assert forall|k: int| 0 <= k < out@.len() implies before.is_fill(
                    fresh_fills(known, fills@, (i + 1) as nat)[k],
                    #[trigger] out@[k],
                ) by {
                    if k < gone.len() {
                        assert(out@[k] == gone[k]);
                    }
                }
            }
            self.seen_trades.insert(key, ());
            i = i + 1;
        }
        if let Some(t) = last {
            if t > self.last_fill_time {
                self.last_fill_time = t;
            }
        }
        out
    }

    fn question(kind: &str) -> (r: Json)
        ensures
            r@ == texts(seq![("type"@, kind@)]),
    {
        let r = Json::record().with("type", Json::text(kind));
        assert(r@->Record_0 =~= texts(seq![("type"@, kind@)])->Record_0);
        r
    }

    fn user_question(&self, kind: &str) -> (r: Json)
        ensures
            r@ == texts(seq![("type"@, kind@), ("user"@, self.user())]),
    {
        let r = Json::record().with("type", Json::text(kind)).with(
            "user",
            Json::Text(self.user_address()),
        );
        assert(r@->Record_0 =~= texts(
            seq![("type"@, kind@), ("user"@, self.user())],
        )->Record_0);
        r
    }

    fn dex_question(&self, kind: &str, dex: &str) -> (r: Json)
        ensures
            r@ == texts(seq![("type"@, kind@), ("user"@, self.user()), ("dex"@, dex@)]),
    {
        let r = self.user_question(kind).with("dex", Json::text(dex));
        assert(r@->Record_0 =~= texts(
            seq![("type"@, kind@), ("user"@, self.user()), ("dex"@, dex@)],
        )->Record_0);
        r
    }

    /// The question for all middle prices.
    pub fn mids_request(&self) -> (r: Json)
        ensures
            r@ == texts(
                match self.config.hip3 {
                    Some(h) => seq![("type"@, "allMids"@), ("dex"@, h.dex_name@)],
                    None => seq![("type"@, "allMids"@)],
                },
            ),
    {
        match &self.config.hip3 {
            Some(h) => {
                let r = Self::question("allMids").with("dex", Json::text(h.dex_name.as_str()));
                assert(r@->Record_0 =~= texts(
                    seq![("type"@, "allMids"@), ("dex"@, h.dex_name@)],
                )->Record_0);
                r
            },
            None => Self::question("allMids"),
        }
    }

    /// The question for the open orders.
    pub fn open_orders_request(&self) -> (r: Json)
        ensures
            r@ == texts(
                match self.config.hip3 {
                    Some(h) => seq![
                        ("type"@, "openOrders"@),
                        ("user"@, self.user()),
                        ("dex"@, h.dex_name@),
                    ],
                    None => seq![("type"@, "openOrders"@), ("user"@, self.user())],
                },
            ),
    {
        match &self.config.hip3 {
            Some(h) => self.dex_question("openOrders", h.dex_name.as_str()),
            None => self.user_question("openOrders"),
        }
    }

    /// The question for the account: that of the spot market for spot and outcomes, that of the
    /// builder-deployed exchange where it has a collateral of its own, and the main one.
    pub open spec fn user_state_question(&self) -> JsonView {
        if self.config.is_outcome || self.config.is_spot {
            texts(seq![("type"@, "spotClearinghouseState"@), ("user"@, self.user())])
        } else {
            match self.config.hip3 {
                Some(h) => if text::upper_text(h.quote_currency@) != "USDC"@ {
                    texts(
                        seq![
                            ("type"@, "clearinghouseState"@),
                            ("user"@, self.user()),
                            ("dex"@, h.dex_name@),
                        ],
                    )
                } else {
                    texts(seq![("type"@, "clearinghouseState"@), ("user"@, self.user())])
                },
                None => texts(seq![("type"@, "clearinghouseState"@), ("user"@, self.user())]),
            }
        }
    }

    /// The question for the account.
    pub fn user_state_request(&self) -> (r: Json)
        ensures
            r@ == self.user_state_question(),
    {
        if self.config.is_outcome || self.config.is_spot {
            return self.user_question("spotClearinghouseState");
        }
        match &self.config.hip3 {
            Some(h) => {
                if h.uses_alternate_collateral() {
                    self.dex_question("clearinghouseState", h.dex_name.as_str())
                } else {
                    self.user_question("clearinghouseState")
                }
            },
            None => self.user_question("clearinghouseState"),
        }
    }

    /// The question for the account on the builder-deployed exchange, where there is one.
    pub fn hip3_user_state_request(&self) -> (r: Json)
        ensures
            r@ == (match self.config.hip3 {
                Some(h) => texts(
                    seq![
                        ("type"@, "clearinghouseState"@),
                        ("user"@, self.user()),
                        ("dex"@, h.dex_name@),
                    ],
                ),
                None => self.user_state_question(),
            }),
    {
        match &self.config.hip3 {
            Some(h) => self.dex_question("clearinghouseState", h.dex_name.as_str()),
            None => self.user_state_request(),
        }
    }

    /// A question of a kind about the account.
    pub fn account_request(&self, kind: &str) -> (r: Json)
        ensures
            r@ == texts(seq![("type"@, kind@), ("user"@, self.user())]),
    {
        self.user_question(kind)
    }

    /// The question for the outcomes that are traded.
    pub fn outcome_meta_request(&self) -> (r: Json)
        ensures
            r@ == texts(seq![("type"@, "outcomeMeta"@)]),
    {
        Self::question("outcomeMeta")
    }

    /// The action that cancels an order by its number.
    pub open spec fn cancel_by_oid(&self, market_index: MarketIndex, oid: u64) -> JsonView {
        self.cancels(market_index, seq![oid])
    }

    /// The action that cancels orders by their numbers.
    pub open spec fn cancels(&self, market_index: MarketIndex, oids: Seq<u64>) -> JsonView {
        JsonView::Record(
            seq![
                ("type"@, JsonView::Text("cancel"@)),
                (
                    "cancels"@,
                    JsonView::List(
                        oids.map_values(
                            |oid: u64|
                                JsonView::Record(
                                    seq![
                                        ("a"@, JsonView::Whole(self.asset(market_index) as u64)),
                                        ("o"@, JsonView::Whole(oid)),
                                    ],
                                ),
                        ),
                    ),
                ),
            ],
        )
    }

    fn cancel_wire(asset: u32, oid: u64) -> (r: Json)
        ensures
            r@ == JsonView::Record(
                seq![("a"@, JsonView::Whole(asset as u64)), ("o"@, JsonView::Whole(oid))],
            ),
    {
        let r = Json::record().with("a", Json::Whole(asset as u64)).with("o", Json::Whole(oid));
        assert(r@->Record_0 =~= seq![
            ("a"@, JsonView::Whole(asset as u64)),
            ("o"@, JsonView::Whole(oid)),
        ]);
        r
    }

    /// The action that cancels orders by their numbers.
    fn cancels_action(&self, market_index: MarketIndex, oids: &Vec<u64>) -> (r: Json)
        requires
            assets_fit(self.config),
        ensures
            r@ == self.cancels(market_index, oids@),
    {
        let asset: u32 = self.effective_asset_id(market_index);
        let mut wires: Vec<Json> = Vec::new();
        let ghost all = oids@.map_values(
            |oid: u64|
                JsonView::Record(
                    seq![
                        ("a"@, JsonView::Whole(self.asset(market_index) as u64)),
                        ("o"@, JsonView::Whole(oid)),
                    ],
                ),
        );
        let mut i: usize = 0;
        while i < oids.len()
            invariant
                i <= oids@.len(),
                all.len() == oids@.len(),
                forall|k: int|
                    0 <= k < oids@.len() ==> #[trigger] all[k] == JsonView::Record(
                        seq![
                            ("a"@, JsonView::Whole(asset as u64)),
                            ("o"@, JsonView::Whole(oids@[k])),
                        ],
                    ),
                json::items_view(wires@) == all.subrange(0, i as int),
            decreases oids@.len() - i,
        {
            let ghost before = wires@;
            wires.push(Self::cancel_wire(asset, oids[i]));
            assert(wires@.drop_last() =~= before);
            assert(all[i as int] == wires@.last()@);
            assert(json::items_view(wires@) =~= all.subrange(0, i + 1));
            i = i + 1;
        }
        assert(all.subrange(0, oids@.len() as int) =~= all);
        let r = Json::record().with("type", Json::text("cancel")).with("cancels", Json::List(wires));
        assert(r@->Record_0 =~= self.cancels(market_index, oids@)->Record_0);
        r
    }

    /// The action that cancels an order by its client order id.
    pub open spec fn cancel_by_cloid(&self, market_index: MarketIndex, cloid: Seq<char>) -> JsonView {
        JsonView::Record(
            seq![
                ("type"@, JsonView::Text("cancelByCloid"@)),
                (
                    "cancels"@,
                    JsonView::List(
                        seq![
                            JsonView::Record(
                                seq![
                                    ("asset"@, JsonView::Whole(self.asset(market_index) as u64)),
                                    ("cloid"@, JsonView::Text(cloid)),
                                ],
                            ),
                        ],
                    ),
                ),
            ],
        )
    }

    /// The number in an order id of the exchange.
    pub open spec fn oid_number(id: Option<&ExchangeOrderId>) -> Option<nat> {
        match id {
            Some(e) => text::unsigned_value(e@, u64::MAX as nat),
            None => None,
        }
    }

    /// The result is the action that cancels an order, or that there is none.
    pub open spec fn is_cancel(
        &self,
        r: Result<Json, ExchangeError>,
        market_index: MarketIndex,
        client_id: ClientOrderId,
        exchange_order_id: Option<&ExchangeOrderId>,
    ) -> bool {
        match Self::oid_number(exchange_order_id) {
            Some(n) => r matches Ok(j) && j@ == self.cancel_by_oid(market_index, n as u64),
            None => if text::begins_with(client_id@, "0x"@) {
                r matches Ok(j) && j@ == self.cancel_by_cloid(market_index, client_id@)
            } else {
                r matches Err(ExchangeError::Rejected(s)) && s@ == "No valid OID or cloid for cancel"@
            },
        }
    }

    /// The action that cancels an order: by its number where it has one, and otherwise by its
    /// client order id.
    pub fn cancel_action(
        &self,
        market_index: MarketIndex,
        client_id: &ClientOrderId,
        exchange_order_id: Option<&ExchangeOrderId>,
    ) -> (r: Result<Json, ExchangeError>)
        requires
            assets_fit(self.config),
        ensures
            self.is_cancel(r, market_index, *client_id, exchange_order_id),
    {
        if let Some(id) = exchange_order_id {
            if let Some(n) = parse_unsigned(id.as_str(), u64::MAX) {
                let mut oids: Vec<u64> = Vec::new();
                oids.push(n);
                assert(oids@ =~= seq![n]);
                return Ok(self.cancels_action(market_index, &oids));
            }
        }
        if starts_with_text(client_id.as_str(), "0x") {
            let asset: u32 = self.effective_asset_id(market_index);
            let one = Json::record().with("asset", Json::Whole(asset as u64)).with(
                "cloid",
                Json::text(client_id.as_str()),
            );
            assert(one@->Record_0 =~= seq![
                ("asset"@, JsonView::Whole(asset as u64)),
                ("cloid"@, JsonView::Text(client_id@)),
            ]);
            let mut list: Vec<Json> = Vec::new();
            list.push(one);
            assert(list@.drop_last() =~= Seq::<Json>::empty());
            assert(json::items_view(Seq::<Json>::empty()) =~= Seq::<JsonView>::empty());
            assert(json::items_view(list@) =~= seq![one@]);
            let r = Json::record().with("type", Json::text("cancelByCloid")).with(
                "cancels",
                Json::List(list),
            );
            assert(r@->Record_0 =~= self.cancel_by_cloid(market_index, client_id@)->Record_0);
            return Ok(r);
        }
        Err(ExchangeError::Rejected("No valid OID or cloid for cancel".to_owned()))
    }

    /// What became of an action, by its reply; `what` begins the message of a refusal.
    pub fn done(reply: &Reply, what: &str) -> (r: Result<(), ExchangeError>)
        ensures
            match r {
                Ok(_) => is_ok(reply.value@),
                Err(e) => !is_ok(reply.value@) && (e matches ExchangeError::Rejected(s) && s@
                    == what@ + refusal(*reply)),
            },
    {
        if Self::ok(&reply.value) {
            Ok(())
        } else {
            let reason = Self::exchange_reject_reason(reply);
            Err(ExchangeError::Rejected(join2(what, reason.as_str())))
        }
    }

    /// What became of a cancellation.
    pub fn canceled(reply: &Reply) -> (r: Result<(), ExchangeError>)
        ensures
            match r {
                Ok(_) => is_ok(reply.value@),
                Err(e) => !is_ok(reply.value@) && (e matches ExchangeError::Rejected(s) && s@
                    == "Cancel failed: "@ + refusal(*reply)),
            },
    {
        Self::done(reply, "Cancel failed: ")
    }

    /// The action that cancels all the orders, if there is any.
    pub fn cancel_all_action(&self, market_index: MarketIndex, orders: &Vec<HyperliquidOrder>) -> (r:
        Option<Json>)
        requires
            assets_fit(self.config),
        ensures
            match r {
                None => orders@.len() == 0,
                Some(j) => orders@.len() > 0 && j@ == self.cancels(
                    market_index,
                    orders@.map_values(|o: HyperliquidOrder| o.oid),
                ),
            },
    {
        if orders.len() == 0 {
            return None;
        }
        let mut oids: Vec<u64> = Vec::new();
        let mut i: usize = 0;
        while i < orders.len()
            invariant
                i <= orders@.len(),
                oids@.len() == i,
                forall|k: int| 0 <= k < i ==> oids@[k] == (#[trigger] orders@[k]).oid,
            decreases orders@.len() - i,
        {
            oids.push(orders[i].oid);
            i = i + 1;
        }
        assert(oids@ =~= orders@.map_values(|o: HyperliquidOrder| o.oid));
        Some(self.cancels_action(market_index, &oids))
    }

    /// What became of the cancellation of `n` orders.
    pub fn all_canceled(n: u32, reply: &Reply) -> (r: Result<u32, ExchangeError>)
        ensures
            match r {
                Ok(k) => is_ok(reply.value@) && k == n,
                Err(e) => !is_ok(reply.value@) && (e matches ExchangeError::Rejected(s) && s@
                    == "Batch cancel failed: "@ + refusal(*reply)),
            },
    {
        match Self::done(reply, "Batch cancel failed: ") {
            Ok(_) => Ok(n),
            Err(e) => Err(e),
        }
    }

    /// The action that sets the leverage of an asset.
    pub open spec fn leverage_change(
        &self,
        market_index: MarketIndex,
        leverage: u32,
        is_cross: bool,
    ) -> JsonView {
        JsonView::Record(
            seq![
                ("type"@, JsonView::Text("updateLeverage"@)),
                ("asset"@, JsonView::Whole(self.asset(market_index) as u64)),
                ("isCross"@, JsonView::Bool(is_cross)),
                ("leverage"@, JsonView::Whole(leverage as u64)),
            ],
        )
    }

    /// The action that sets the leverage of an asset.
    pub fn leverage_action(&self, market_index: MarketIndex, leverage: u32, is_cross: bool) -> (r:
        Result<Json, ExchangeError>)
        requires
            assets_fit(self.config),
        ensures
            if leverage == 0 {
                r matches Err(ExchangeError::Configuration(s)) && s@
                    == "Leverage must be greater than zero"@
            } else {
                r matches Ok(j) && j@ == self.leverage_change(market_index, leverage, is_cross)
            },
    {
        if leverage == 0 {
            return Err(
                ExchangeError::Configuration("Leverage must be greater than zero".to_owned()),
            );
        }
        let asset: u32 = self.effective_asset_id(market_index);
        let r = Json::record().with("type", Json::text("updateLeverage")).with(
            "asset",
            Json::Whole(asset as u64),
        ).with("isCross", Json::Bool(is_cross)).with("leverage", Json::Whole(leverage as u64));
        assert(r@->Record_0 =~= seq![
            ("type"@, JsonView::Text("updateLeverage"@)),
            ("asset"@, JsonView::Whole(self.asset(market_index) as u64)),
            ("isCross"@, JsonView::Bool(is_cross)),
            ("leverage"@, JsonView::Whole(leverage as u64)),
        ]);
        Ok(r)
    }

    /// What became of a change of leverage.
    pub fn leverage_updated(reply: &Reply) -> (r: Result<(), ExchangeError>)
        ensures
            match r {
                Ok(_) => is_ok(reply.value@),
                Err(e) => !is_ok(reply.value@) && (e matches ExchangeError::Rejected(s) && s@
                    == "Leverage update failed: "@ + refusal(*reply)),
            },
    {
        Self::done(reply, "Leverage update failed: ")
    }

    /// The vault, where there is one.
    pub open spec fn vault_text(&self) -> Option<Seq<char>> {
        match self.config.vault_address {
            Some(a) => Some(a@),
            None => None,
        }
    }

    /// What becomes of an action by what its signature came to: a request, or the error.
    pub open spec fn is_request(
        &self,
        r: Result<Json, ExchangeError>,
        sig: Result<HyperliquidSignature, SigningError>,
        action: JsonView,
        nonce: u64,
    ) -> bool {
        match sig {
            Ok(s) => r matches Ok(j) && j@ == request_of(
                action,
                nonce,
                (s.r@, s.s@, s.v),
                self.vault_member(),
            ),
            Err(e) => r matches Err(ExchangeError::Signing(t)) && t@ == e.message(),
        }
    }

    /// The vault as a member of a request.
    pub open spec fn vault_member(&self) -> JsonView {
        match self.config.vault_address {
            Some(a) => JsonView::Text(a@),
            None => JsonView::Null,
        }
    }

    /// The request for an action, signed with the nonce, or why it cannot be signed.
    pub fn signed_action(&self, action: Json, nonce: u64) -> (r: Result<Json, ExchangeError>)
        ensures
            exists|sig: Result<HyperliquidSignature, SigningError>| #[trigger]
                self.is_request(r, sig, action@, nonce) && (sig matches Err(
                    SigningError::MsgpackError(_),
                ) || self.signer.is_signed(
                    sig,
                    wire::msgpack_bytes(wire::sent(action@)),
                    nonce,
                    self.vault_text(),
                    None,
                )),
    {
        let vault = match &self.config.vault_address {
            Some(a) => Some(a.as_str()),
            None => None,
        };
        let sig = self.signer.sign_l1_action(&action, nonce, vault, None);
        let ghost a = action@;
        let ghost s = sig;
        let r = match sig {
            Ok(signature) => Ok(self.signed_request(action, nonce, &signature)),
            Err(e) => Err(ExchangeError::Signing(e.to_string())),
        };
        assert(self.is_request(r, s, a, nonce));
        r
    }

    /// The signed request for an action.
    pub fn signed_request(
        &self,
        action: Json,
        nonce: u64,
        signature: &HyperliquidSignature,
    ) -> (r: Json)
        ensures
            r@ == request_of(
                action@,
                nonce,
                (signature.r@, signature.s@, signature.v),
                self.vault_member(),
            ),
    {
        let ghost a = action@;
        let vault = match &self.config.vault_address {
            Some(a) => Json::text(a.as_str()),
            None => Json::Null,
        };
        let ghost v = vault@;
        assert(v == match self.config.vault_address {
            Some(a) => JsonView::Text(a@),
            None => JsonView::Null,
        });
        let sig = signature.to_json();
        let r = Json::record().with("action", action).with("nonce", Json::Whole(nonce)).with(
            "signature",
            sig,
        ).with("vaultAddress", vault);
        assert(r@->Record_0 =~= request_of(
            a,
            nonce,
            (signature.r@, signature.s@, signature.v),
            v,
        )->Record_0);
        r
    }

    /// The name under which the price of an instrument is found.
    pub open spec fn price_key(&self, instrument: Seq<char>) -> Option<Seq<char>> {
        if text::finishes_with(instrument, "-OUTCOME"@) {
            Some(text::before_last(instrument, '-'))
        } else if text::finishes_with(instrument, "-SPOT"@) && self.config.spot_market_index is Some {
            let n = self.config.spot_market_index->0;
            if n >= 10000 {
                Some("@"@ + text::digits((n - 10000) as nat))
            } else {
                None
            }
        } else if text::has_text(instrument, ":"@) {
            Some(text::before_last(instrument, '-'))
        } else {
            Some(text::before_first(instrument, '-'))
        }
    }

    /// The name under which the price of an instrument is found, unless the number of the spot
    /// market is too small to be one.
    pub fn lookup_key(&self, instrument: &InstrumentId) -> (r: Option<String>)
        ensures
            match r {
                Some(k) => self.price_key(instrument@) == Some(k@),
                None => self.price_key(instrument@) is None,
            },
    {
        let s = instrument.as_str();
        if ends_with_text(s, "-OUTCOME") {
            return Some(text_before_last(s, '-').to_owned());
        }
        if ends_with_text(s, "-SPOT") {
            if let Some(n) = self.config.spot_market_index {
                if n < 10000 {
                    return None;
                }
                return Some(join2("@", number_text((n - 10000) as u128).as_str()));
            }
        }
        if contains_text(s, ":") {
            Some(text_before_last(s, '-').to_owned())
        } else {
            Some(text_before_first(s, '-').to_owned())
        }
    }

    /// The price of an instrument is known.
    pub open spec fn priced(&self, mids: Map<Seq<char>, Decimal>, instrument: InstrumentId) -> bool {
        self.price_key(instrument@) matches Some(k) && mids.contains_key(k)
    }

    /// The instruments among the first `n` whose price is known.
    pub open spec fn priced_among(
        &self,
        mids: Map<Seq<char>, Decimal>,
        instruments: Seq<InstrumentId>,
        n: nat,
    ) -> Seq<InstrumentId>
        decreases n,
    {
        if n == 0 {
            Seq::empty()
        } else if self.priced(mids, instruments[n - 1]) {
            self.priced_among(mids, instruments, (n - 1) as nat).push(instruments[n - 1])
        } else {
            self.priced_among(mids, instruments, (n - 1) as nat)
        }
    }

    /// The quote of an instrument at its middle price.
    pub open spec fn quote_at(
        &self,
        mids: Map<Seq<char>, Decimal>,
        instrument: InstrumentId,
        now: i64,
    ) -> Quote {
        let mid = mids[self.price_key(instrument@)->0];
        Quote {
            instrument,
            bid: Price(mid),
            ask: Price(mid),
            bid_size: Qty(decimal::zero()),
            ask_size: Qty(decimal::zero()),
            ts: now,
        }
    }

    /// The quotes of the instruments whose price is known.
    pub fn quotes(&self, mids: &StrMap<Decimal>, instruments: &Vec<InstrumentId>, now: i64) -> (r:
        Vec<Quote>)
        ensures
            r@ == self.priced_among(mids@, instruments@, instruments@.len()).map_values(
                |i: InstrumentId| self.quote_at(mids@, i, now),
            ),
    {
        let mut out: Vec<Quote> = Vec::new();
        let ghost quote = |i: InstrumentId| self.quote_at(mids@, i, now);
        let mut i: usize = 0;
        assert(out@ =~= self.priced_among(mids@, instruments@, 0).map_values(quote));
        while i < instruments.len()
            invariant
                i <= instruments@.len(),
                quote == (|i: InstrumentId| self.quote_at(mids@, i, now)),
                out@ == self.priced_among(mids@, instruments@, i as nat).map_values(quote),
            decreases instruments@.len() - i,
        {
            let instrument = &instruments[i];
            let ghost head = self.priced_among(mids@, instruments@, i as nat);
            if let Some(key) = self.lookup_key(instrument) {
                if let Some(mid) = mids.get(key.as_str()) {
                    out.push(
                        Quote {
                            instrument: instrument.clone(),
                            bid: Price(*mid),
                            ask: Price(*mid),
                            bid_size: Qty(Decimal::zero()),
                            ask_size: Qty(Decimal::zero()),
                            ts: now,
                        },
                    );
                    assert(out@ =~= head.push(*instrument).map_values(quote));
                }
            }
            i = i + 1;
        }
        out
    }
}

/// The prices among the first `n` that are numbers; of two under one name the later counts.
pub open spec fn mids_of(s: Seq<(String, String)>, n: nat) -> Map<Seq<char>, Decimal>
    decreases n,
{
    if n == 0 {
        Map::empty()
    } else {
        let before = mids_of(s, (n - 1) as nat);
        match decimal::opt_of(decimal::decimal_parsed(s[n - 1].1@)) {
            Some(d) => before.insert(s[n - 1].0@, d),
            None => before,
        }
    }
}

/// The prices that are numbers; of two under one name the later counts.
pub fn read_mids(pairs: &Vec<(String, String)>) -> (r: StrMap<Decimal>)
    ensures
        r@ == mids_of(pairs@, pairs@.len()),
{
    let mut out: StrMap<Decimal> = StrMap::new();
    let mut i: usize = 0;
    while i < pairs.len()
        invariant
            i <= pairs@.len(),
            out@ == mids_of(pairs@, i as nat),
        decreases pairs@.len() - i,
    {
        if let Some(d) = Decimal::parse(pairs[i].1.as_str()) {
            out.insert(pairs[i].0.clone(), d);
        }
        i = i + 1;
    }
    out
}

/// A client for a configuration.
pub fn new_client(config: HyperliquidConfig) -> (r: Result<HyperliquidClient, ExchangeError>)
    ensures
        ({
            let opened = crate::hl_signing::wallet_address(
                crate::hl_signing::unprefixed(config.private_key@),
            );
            match r {
                Ok(c) => c.config == config && opened == Ok::<Seq<char>, Seq<char>>(
                    c.signer.address(),
                ) && c.last_fill_time == 0 && c.seen_trades@ == Map::<Seq<char>, ()>::empty()
                    && c.exchange_id@ == "hyperliquid"@ && c.signer.key()
                    == crate::hl_signing::unprefixed(config.private_key@) && c.signer.mainnet() == (
                config.environment == Environment::Mainnet),
                Err(e) => opened matches Err(t) && (e matches ExchangeError::Configuration(s) && s@
                    == "Invalid private key: "@ + t),
            }
        }),
{
    HyperliquidClient::new(config)
}

proof fn lemma_known(known: Map<Seq<char>, ()>, fills: Seq<HyperliquidUserFill>, n: nat, i: int)
    requires
        0 <= i < n,
    ensures
        known_after(known, fills, n).contains_key(fill_key(fills[i])),
    decreases n,
{
    if i < n - 1 {
        lemma_known(known, fills, (n - 1) as nat, i);
    }
}

proof fn lemma_known_grows(
    known: Map<Seq<char>, ()>,
    fills: Seq<HyperliquidUserFill>,
    n: nat,
    k: Seq<char>,
)
    requires
        known.contains_key(k),
    ensures
        known_after(known, fills, n).contains_key(k),
    decreases n,
{
    if n > 0 {
        lemma_known_grows(known, fills, (n - 1) as nat, k);
    }
}

proof fn lemma_nothing_fresh(
    known: Map<Seq<char>, ()>,
    fills: Seq<HyperliquidUserFill>,
    n: nat,
)
    requires
        forall|i: int| 0 <= i < n ==> known.contains_key(#[trigger] fill_key(fills[i])),
    ensures
        fresh_fills(known, fills, n).len() == 0,
    decreases n,
{
    if n > 0 {
        lemma_nothing_fresh(known, fills, (n - 1) as nat);
        assert(known.contains_key(fill_key(fills[n - 1])));
        lemma_known_grows(known, fills, (n - 1) as nat, fill_key(fills[n - 1]));
    }
}

/// Fills that were taken are not taken again: the same reports give nothing new.
pub proof fn law_fills_are_taken_once(
    known: Map<Seq<char>, ()>,
    fills: Seq<HyperliquidUserFill>,
)
    ensures
        fresh_fills(known_after(known, fills, fills.len()), fills, fills.len()).len() == 0,
{
    let after = known_after(known, fills, fills.len());
    assert forall|i: int| 0 <= i < fills.len() implies after.contains_key(
        #[trigger] fill_key(fills[i]),
    ) by {
        lemma_known(known, fills, fills.len(), i);
    }
    lemma_nothing_fresh(after, fills, fills.len());
}

/// The more actions an account needs, the longer it waits, and never less than for one.
pub proof fn law_limit_waits_grow(a: u32, b: u32)
    requires
        a <= b,
    ensures
        10_500 <= retry_wait(a) <= retry_wait(b) <= u64::MAX,
{
}

} // verus!
