use supurr::decimal::Decimal;
use supurr::exchange::{ExchangeError, OrderInput, PlaceOrderResult};
use supurr::hl_client::{
    account_state, config_fits, http_error, is_cumulative_address_limit_error, new_client,
    parse_error, read_mids, read_reply, retry_after_for_action_units, HyperliquidClient,
    HyperliquidOrder, HyperliquidUserFill, Reply,
};
use supurr::hl_signing::{
    address_to_bytes, decimal_to_wire, HyperliquidSigner, SigningError,
};
use supurr::hl_types::{BuilderFee, Hip3Config, HyperliquidConfig, OutcomeConfig};
use supurr::json::Json;
use supurr::types::{
    ClientOrderId, Environment, ExchangeOrderId, InstrumentId, MarketIndex, OrderSide, Price, Qty,
    TimeInForce,
};
use supurr::wire::{from_value, packed, to_value, written};

const KEY: &str = "4646464646464646464646464646464646464646464646464646464646464646";

fn text(s: &str) -> Json {
    Json::text(s)
}

fn record(members: Vec<(&str, Json)>) -> Json {
    let mut r = Json::record();
    for (name, value) in members {
        r = r.with(name, value);
    }
    r
}

fn reply(value: Json) -> Reply {
    Reply {
        value,
        response_text: "RESPONSE".to_string(),
        text: "WHOLE".to_string(),
    }
}

fn config() -> HyperliquidConfig {
    HyperliquidConfig {
        private_key: KEY.to_string(),
        ..Default::default()
    }
}

fn client() -> HyperliquidClient {
    new_client(config()).unwrap()
}

fn order(id: &str) -> OrderInput {
    OrderInput {
        instrument: InstrumentId::new("BTC-PERP"),
        market_index: MarketIndex::new(7),
        client_id: ClientOrderId::new(id),
        side: OrderSide::Buy,
        price: Price::new(Decimal::new(100_500, 3)),
        qty: Qty::new(Decimal::new(1, 3)),
        tif: TimeInForce::Gtc,
        post_only: true,
        reduce_only: false,
    }
}

fn show(j: &Json) -> String {
    match j {
        Json::Null => "null".to_string(),
        Json::Bool(b) => b.to_string(),
        Json::Whole(n) => n.to_string(),
        Json::Number(s) => s.clone(),
        Json::Text(s) => format!("'{}'", s),
        Json::List(v) => {
            let items: Vec<String> = v.iter().map(show).collect();
            format!("[{}]", items.join(","))
        }
        Json::Record(v) => {
            let items: Vec<String> = v.iter().map(|(k, x)| format!("{}:{}", k, show(x))).collect();
            format!("{{{}}}", items.join(","))
        }
    }
}

#[test]
fn cumulative_address_limit_error_maps_to_deferred_retry() {
    let response = reply(record(vec![
        ("status", text("err")),
        ("response", text("Too many cumulative requests sent. Rate limited.")),
    ]));

    let error = HyperliquidClient::address_limit_error(&response, 10);

    assert!(matches!(
        error,
        Some(ExchangeError::WouldExceedUserActionLimit {
            retry_after_ms: 100_500,
            needed: 10
        })
    ));
}

#[test]
fn non_limit_exchange_error_is_not_reclassified() {
    let response = reply(record(vec![
        ("status", text("err")),
        ("response", text("Insufficient margin")),
    ]));

    assert!(HyperliquidClient::address_limit_error(&response, 1).is_none());
}

#[test]
fn retry_delay_uses_one_action_minimum() {
    assert_eq!(retry_after_for_action_units(0), 10_500);
    assert_eq!(retry_after_for_action_units(1), 10_500);
    assert_eq!(retry_after_for_action_units(3), 30_500);
}

#[test]
fn limit_texts_are_found_without_case() {
    assert!(is_cumulative_address_limit_error("TOO MANY cumulative requests"));
    assert!(is_cumulative_address_limit_error("x Cumulative Requests Sent y"));
    assert!(!is_cumulative_address_limit_error("too many requests"));
    let ok = reply(record(vec![
        ("status", text("ok")),
        ("response", text("too many cumulative requests")),
    ]));
    assert!(HyperliquidClient::address_limit_error(&ok, 1).is_none());
}

#[test]
fn refusals_are_looked_for_in_several_places() {
    let reason = |j: Json| HyperliquidClient::exchange_reject_reason(&reply(j));
    assert_eq!(reason(record(vec![("error", text("a")), ("response", text("b"))])), "a");
    assert_eq!(reason(record(vec![("response", text("b"))])), "b");
    assert_eq!(
        reason(record(vec![("response", record(vec![("error", text("c"))]))])),
        "c"
    );
    assert_eq!(reason(record(vec![("response", Json::Null)])), "RESPONSE");
    assert_eq!(reason(Json::List(vec![])), "WHOLE");
}

#[test]
fn statuses_of_replies() {
    assert!(http_error(200, "200 OK", "").is_none());
    assert!(matches!(http_error(502, "", ""), Some(ExchangeError::Unavailable)));
    assert!(matches!(http_error(503, "", ""), Some(ExchangeError::Unavailable)));
    assert!(matches!(http_error(429, "", ""), Some(ExchangeError::RateLimited)));
    match http_error(404, "404 Not Found", "gone") {
        Some(ExchangeError::Http(s)) => assert_eq!(s, "HTTP 404 Not Found: gone"),
        _ => panic!("an error was expected"),
    }
    match parse_error("bad", &"x".repeat(3000)) {
        ExchangeError::Parse(s) => assert_eq!(s, format!("bad | raw={}", "x".repeat(2000))),
        _ => panic!("an error was expected"),
    }
}

#[test]
fn orders_are_sent_as_an_action() {
    let mut c = client();
    c.config.builder_fee = Some(BuilderFee {
        address: "0xb".to_string(),
        fee_tenths_bp: 5,
    });
    let cloid = "0x0123456789abcdef0123456789abcdef";
    let action = c.order_action(&vec![order(cloid), order("plain")]);
    assert_eq!(
        show(&action),
        format!(
            "{{type:'order',orders:[{{a:7,b:true,p:'100.5',s:'0.001',r:false,t:{{limit:{{tif:'Alo'}}}},c:'{}'}},{{a:7,b:true,p:'100.5',s:'0.001',r:false,t:{{limit:{{tif:'Alo'}}}}}}],grouping:'na',builder:{{b:'0xb',f:5}}}}",
            cloid
        )
    );
}

#[test]
fn the_times_in_force_have_their_words() {
    let tif = |tif: TimeInForce, post_only: bool| {
        let mut o = order("x");
        o.tif = tif;
        o.post_only = post_only;
        show(&client().order_action(&vec![o]))
    };
    assert!(tif(TimeInForce::Gtc, false).contains("tif:'Gtc'"));
    assert!(tif(TimeInForce::Ioc, true).contains("tif:'Ioc'"));
    assert!(tif(TimeInForce::Fok, false).contains("tif:'Ioc'"));
}

fn placed(statuses: Vec<Json>) -> Reply {
    reply(record(vec![
        ("status", text("ok")),
        (
            "response",
            record(vec![("data", record(vec![("statuses", Json::List(statuses))]))]),
        ),
    ]))
}

#[test]
fn each_order_of_a_batch_gets_its_answer() {
    let r = placed(vec![
        record(vec![("resting", record(vec![("oid", Json::Whole(77))]))]),
        record(vec![(
            "filled",
            record(vec![
                ("oid", Json::Whole(78)),
                ("totalSz", text("0.5")),
                ("avgPx", text("100.25")),
            ]),
        )]),
        record(vec![("error", text("no money"))]),
    ]);
    let results = HyperliquidClient::placed(4, &r).unwrap();
    assert_eq!(results.len(), 4);
    match &results[0] {
        PlaceOrderResult::Accepted { exchange_order_id: Some(id), filled_qty: None, .. } => {
            assert_eq!(id.as_str(), "77")
        }
        _ => panic!("the first order rests"),
    }
    match &results[1] {
        PlaceOrderResult::Accepted {
            exchange_order_id: Some(id),
            filled_qty: Some(q),
            avg_fill_px: Some(p),
        } => {
            assert_eq!(id.as_str(), "78");
            assert_eq!(q.0, Decimal::new(5, 1));
            assert_eq!(p.0, Decimal::new(10025, 2));
        }
        _ => panic!("the second order is filled"),
    }
    assert!(matches!(&results[2], PlaceOrderResult::Rejected { reason } if reason == "no money"));
    assert!(matches!(
        &results[3],
        PlaceOrderResult::Accepted { exchange_order_id: None, filled_qty: None, avg_fill_px: None }
    ));
}

#[test]
fn a_batch_that_fails_as_a_whole() {
    let limited = record(vec![("error", text("Too many cumulative requests"))]);
    match HyperliquidClient::placed(2, &placed(vec![limited, record(vec![("error", text("x"))])])) {
        Err(ExchangeError::WouldExceedUserActionLimit { retry_after_ms, needed }) => {
            assert_eq!((retry_after_ms, needed), (20_500, 2))
        }
        _ => panic!("the account has used up its actions"),
    }
    let one = record(vec![("resting", record(vec![("oid", Json::Whole(1))]))]);
    let limited = record(vec![("error", text("Too many cumulative requests"))]);
    assert_eq!(
        HyperliquidClient::placed(2, &placed(vec![limited, one])).unwrap().len(),
        2
    );
    match HyperliquidClient::placed(1, &reply(record(vec![("status", text("ok"))]))) {
        Err(ExchangeError::Rejected(s)) => {
            assert_eq!(s, "Order response missing statuses: WHOLE")
        }
        _ => panic!("there are no statuses"),
    }
    match HyperliquidClient::placed(1, &reply(record(vec![("error", text("nope"))]))) {
        Err(ExchangeError::Rejected(s)) => assert_eq!(s, "nope"),
        _ => panic!("the batch was refused"),
    }
}

#[test]
fn statuses_are_looked_for_in_several_places() {
    let list = || Json::List(vec![record(vec![("error", text("x"))])]);
    let shapes = vec![
        record(vec![("data", record(vec![("statuses", list())]))]),
        record(vec![(
            "response",
            record(vec![("data", record(vec![("statuses", list())]))]),
        )]),
        record(vec![("statuses", list())]),
    ];
    for shape in shapes {
        let r = reply(record(vec![("status", text("ok")), ("response", shape)]));
        let results = HyperliquidClient::placed(1, &r).unwrap();
        assert!(matches!(&results[0], PlaceOrderResult::Rejected { reason } if reason == "x"));
    }
}

fn user_fill(coin: &str, tid: Option<u64>) -> HyperliquidUserFill {
    HyperliquidUserFill {
        coin: coin.to_string(),
        px: "100.5".to_string(),
        sz: "2".to_string(),
        side: "B".to_string(),
        time: 1_000,
        hash: "0xhash".to_string(),
        oid: 9,
        tid,
        fee: "oops".to_string(),
        fee_token: None,
        cloid: Some("0xc".to_string()),
        closed_pnl: None,
    }
}

#[test]
fn fills_are_taken_once() {
    let mut c = client();
    let fills = vec![
        user_fill("BTC", Some(5)),
        user_fill("BTC", Some(5)),
        user_fill("#5160", None),
        user_fill("@107", Some(6)),
    ];
    let taken = c.take_fills(&fills);
    assert_eq!(taken.len(), 3);
    assert_eq!(taken[0].trade_id.as_str(), "5");
    assert_eq!(taken[0].instrument.as_str(), "BTC-PERP");
    assert_eq!(taken[0].exchange_order_id.as_ref().unwrap().as_str(), "9");
    assert_eq!(taken[0].client_id.as_ref().unwrap().as_str(), "0xc");
    assert_eq!(taken[0].side, OrderSide::Buy);
    assert_eq!(taken[0].price.0, Decimal::new(1005, 1));
    assert_eq!(taken[0].fee.amount, Decimal::zero());
    assert_eq!(taken[0].fee.asset.as_str(), "USDC");
    assert_eq!(taken[1].trade_id.as_str(), "0xhash");
    assert_eq!(taken[1].instrument.as_str(), "#5160-OUTCOME");
    assert_eq!(taken[2].instrument.as_str(), "@107-SPOT");
    assert_eq!(c.last_fill_time, 1_000);
    assert!(c.take_fills(&fills).is_empty());
    c.config.spot_coin = Some("HYPE".to_string());
    let named = c.parse_fill(&user_fill("@107", None));
    assert_eq!(named.instrument.as_str(), "HYPE-SPOT");
}

#[test]
fn requests_depend_on_the_market() {
    let mut c = client();
    c.config.main_address = Some("0xmain".to_string());
    assert_eq!(show(&c.mids_request()), "{type:'allMids'}");
    assert_eq!(show(&c.open_orders_request()), "{type:'openOrders',user:'0xmain'}");
    assert_eq!(
        show(&c.user_state_request()),
        "{type:'clearinghouseState',user:'0xmain'}"
    );
    assert_eq!(
        show(&c.account_request("userFills")),
        "{type:'userFills',user:'0xmain'}"
    );
    assert_eq!(show(&c.outcome_meta_request()), "{type:'outcomeMeta'}");
    c.config.vault_address = Some("0xvault".to_string());
    c.config.hip3 = Some(Hip3Config {
        dex_name: "xyz".to_string(),
        dex_index: 1,
        quote_currency: "USDH".to_string(),
        asset_index: 2,
    });
    assert_eq!(show(&c.mids_request()), "{type:'allMids',dex:'xyz'}");
    assert_eq!(
        show(&c.user_state_request()),
        "{type:'clearinghouseState',user:'0xvault',dex:'xyz'}"
    );
    assert_eq!(c.quote_currency(), "USDH");
    assert_eq!(c.effective_asset_id(MarketIndex::new(3)), 110_002);
    c.config.hip3.as_mut().unwrap().quote_currency = "usdc".to_string();
    assert_eq!(
        show(&c.user_state_request()),
        "{type:'clearinghouseState',user:'0xvault'}"
    );
    assert_eq!(
        show(&c.hip3_user_state_request()),
        "{type:'clearinghouseState',user:'0xvault',dex:'xyz'}"
    );
    c.config.is_spot = true;
    assert_eq!(
        show(&c.user_state_request()),
        "{type:'spotClearinghouseState',user:'0xvault'}"
    );
}

#[test]
fn addresses_of_requests() {
    let mut c = client();
    assert_eq!(c.info_url(), "https://api.hyperliquid-testnet.xyz/info");
    c.config.environment = Environment::Mainnet;
    assert_eq!(c.exchange_url(), "http://node.supurr.app/exchange");
    c.config.base_url_override = Some("http://here".to_string());
    assert_eq!(c.exchange_url(), "http://here/exchange");
}

#[test]
fn cancels_prefer_the_number() {
    let c = client();
    let index = MarketIndex::new(7);
    let cloid = ClientOrderId::new("0xabc");
    let oid = ExchangeOrderId::new("12");
    assert_eq!(
        show(&c.cancel_action(index, &cloid, Some(&oid)).unwrap()),
        "{type:'cancel',cancels:[{a:7,o:12}]}"
    );
    let odd = ExchangeOrderId::new("paper-1");
    assert_eq!(
        show(&c.cancel_action(index, &cloid, Some(&odd)).unwrap()),
        "{type:'cancelByCloid',cancels:[{asset:7,cloid:'0xabc'}]}"
    );
    match c.cancel_action(index, &ClientOrderId::new("plain"), None) {
        Err(ExchangeError::Rejected(s)) => assert_eq!(s, "No valid OID or cloid for cancel"),
        _ => panic!("there is nothing to cancel by"),
    }
    let open = |oid: u64| HyperliquidOrder {
        coin: "BTC".to_string(),
        side: "B".to_string(),
        limit_px: "1".to_string(),
        sz: "1".to_string(),
        oid,
        timestamp: 0,
        cloid: None,
    };
    assert!(c.cancel_all_action(index, &vec![]).is_none());
    assert_eq!(
        show(&c.cancel_all_action(index, &vec![open(1), open(2)]).unwrap()),
        "{type:'cancel',cancels:[{a:7,o:1},{a:7,o:2}]}"
    );
    assert_eq!(
        HyperliquidClient::all_canceled(2, &reply(record(vec![("status", text("ok"))]))).unwrap(),
        2
    );
    match HyperliquidClient::canceled(&reply(record(vec![("error", text("late"))]))) {
        Err(ExchangeError::Rejected(s)) => assert_eq!(s, "Cancel failed: late"),
        _ => panic!("the cancel was refused"),
    }
}

#[test]
fn leverage_is_set_by_an_action() {
    let c = client();
    assert_eq!(
        show(&c.leverage_action(MarketIndex::new(7), 10, true).unwrap()),
        "{type:'updateLeverage',asset:7,isCross:true,leverage:10}"
    );
    match c.leverage_action(MarketIndex::new(7), 0, true) {
        Err(ExchangeError::Configuration(s)) => {
            assert_eq!(s, "Leverage must be greater than zero")
        }
        _ => panic!("no leverage is no leverage"),
    }
    match HyperliquidClient::leverage_updated(&reply(record(vec![("error", text("no"))]))) {
        Err(ExchangeError::Rejected(s)) => assert_eq!(s, "Leverage update failed: no"),
        _ => panic!("the change was refused"),
    }
}

#[test]
fn prices_are_found_under_the_name_of_the_market() {
    let mut c = client();
    let key = |c: &HyperliquidClient, s: &str| c.lookup_key(&InstrumentId::new(s));
    assert_eq!(key(&c, "BTC-PERP").as_deref(), Some("BTC"));
    assert_eq!(key(&c, "xyz:AAPL-PERP").as_deref(), Some("xyz:AAPL"));
    assert_eq!(key(&c, "#5160-OUTCOME").as_deref(), Some("#5160"));
    assert_eq!(key(&c, "HYPE-SPOT").as_deref(), Some("HYPE"));
    c.config.spot_market_index = Some(10107);
    assert_eq!(key(&c, "HYPE-SPOT").as_deref(), Some("@107"));
    c.config.spot_market_index = Some(5);
    assert!(key(&c, "HYPE-SPOT").is_none());
    let mids = read_mids(&vec![
        ("BTC".to_string(), "50000.5".to_string()),
        ("ETH".to_string(), "none".to_string()),
    ]);
    let quotes = c.quotes(
        &mids,
        &vec![InstrumentId::new("ETH-PERP"), InstrumentId::new("BTC-PERP")],
        9,
    );
    assert_eq!(quotes.len(), 1);
    assert_eq!(quotes[0].instrument.as_str(), "BTC-PERP");
    assert_eq!(quotes[0].bid, quotes[0].ask);
    assert_eq!(quotes[0].bid.0, Decimal::new(500005, 1));
    assert_eq!(quotes[0].ts, 9);
}

#[test]
fn the_account_is_read_from_the_reply() {
    let position = |szi: &str| {
        record(vec![(
            "position",
            record(vec![
                ("coin", text("BTC")),
                ("szi", text(szi)),
                ("entryPx", text("50000")),
                ("unrealizedPnl", text("-1.5")),
            ]),
        )])
    };
    let state = account_state(&record(vec![(
        "clearinghouseState",
        record(vec![
            ("marginSummary", record(vec![("accountValue", text("12.5"))])),
            (
                "assetPositions",
                Json::List(vec![position("0.5"), position("?"), Json::Null]),
            ),
        ]),
    )]));
    assert_eq!(state.account_value, Some(Decimal::new(125, 1)));
    assert_eq!(state.unrealized_pnl, None);
    assert_eq!(state.positions.len(), 1);
    assert_eq!(state.positions[0].instrument.as_str(), "BTC");
    assert_eq!(state.positions[0].qty, Decimal::new(5, 1));
    assert_eq!(state.positions[0].unrealized_pnl, Some(Decimal::new(-15, 1)));
    assert_eq!(state.positions[0].liquidation_px, None);
    assert!(account_state(&Json::Null).positions.is_empty());
}

#[test]
fn test_address_to_bytes() {
    let addr = "0x0000000000000000000000000000000000000000";
    let bytes = address_to_bytes(addr).unwrap();
    assert_eq!(bytes, [0u8; 20]);
}

#[test]
fn addresses_that_are_none() {
    let fault = |s: &str| match address_to_bytes(s) {
        Err(e @ SigningError::InvalidPrivateKey(_)) => e.to_string(),
        _ => panic!("no address"),
    };
    assert_eq!(fault("0xab"), "Invalid private key: Invalid address length: 1");
    assert!(fault("0xabc").contains("Odd number of digits"));
    assert!(fault("zz").contains("Invalid character"));
    assert_eq!(
        address_to_bytes("00112233445566778899AabbCcDdEeFf00112233").unwrap()[10],
        0xaa
    );
}

#[test]
fn wires_drop_the_zeros() {
    assert_eq!(decimal_to_wire(&Decimal::new(1005, 1)), "100.5");
    assert_eq!(decimal_to_wire(&Decimal::new(1000, 1)), "100");
    assert_eq!(decimal_to_wire(&Decimal::new(1, 3)), "0.001");
    assert_eq!(decimal_to_wire(&Decimal::zero()), "0");
    assert_eq!(decimal_to_wire(&Decimal::new(-1, 12)), "0");
    assert_eq!(decimal_to_wire(&Decimal::new(-15, 1)), "-1.5");
    assert_eq!(decimal_to_wire(&Decimal::new(123456789, 9)), "0.12345678");
}

#[test]
fn the_key_has_its_address() {
    let signer = HyperliquidSigner::new(&format!("0x{}", KEY), false).unwrap();
    assert_eq!(
        signer.address_string(),
        "0x9d8a62f656a8d1615c1294fd71e9cfb3e4855a4f"
    );
    assert!(matches!(
        HyperliquidSigner::new("nothing", false),
        Err(SigningError::InvalidPrivateKey(_))
    ));
    let mut c = config();
    c.private_key = "00".to_string();
    assert!(matches!(new_client(c), Err(ExchangeError::Configuration(_))));
}

#[test]
fn hashes_cover_everything_that_is_signed() {
    let signer = HyperliquidSigner::new(KEY, false).unwrap();
    let vault = "0x0000000000000000000000000000000000000001";
    let action = vec![0x80u8];
    let plain = signer.packed_action_hash(&action, 1, None, None).unwrap();
    let other = signer.packed_action_hash(&action, 2, None, None).unwrap();
    let with_vault = signer.packed_action_hash(&action, 1, Some(vault), None).unwrap();
    let expiring = signer.packed_action_hash(&action, 1, None, Some(7)).unwrap();
    assert_ne!(plain, other);
    assert_ne!(plain, with_vault);
    assert_ne!(plain, expiring);
    let digest = |data: &[u8]| -> [u8; 32] {
        let mut h = <sha3::Keccak256 as sha3::Digest>::new();
        sha3::Digest::update(&mut h, data);
        sha3::Digest::finalize(h).into()
    };
    assert_eq!(plain, digest(&[0x80, 0, 0, 0, 0, 0, 0, 0, 1, 0]));
    assert_eq!(
        expiring,
        digest(&[0x80, 0, 0, 0, 0, 0, 0, 0, 1, 0, 0, 0, 0, 0, 0, 0, 0, 0, 7])
    );
    assert!(signer.packed_action_hash(&action, 1, Some("0x1"), None).is_err());
}

#[test]
fn signatures_are_repeated_and_tell_the_network() {
    let action = vec![0x80u8];
    let test = HyperliquidSigner::new(KEY, false).unwrap();
    let main = HyperliquidSigner::new(KEY, true).unwrap();
    let a = test.sign_packed_action(&action, 1, None, None).unwrap();
    let b = test.sign_packed_action(&action, 1, None, None).unwrap();
    let c = main.sign_packed_action(&action, 1, None, None).unwrap();
    assert_eq!((&a.r, &a.s, a.v), (&b.r, &b.s, b.v));
    assert_ne!(a.r, c.r);
    assert_eq!(a.r.len(), 66);
    assert!(a.r.starts_with("0x") && a.s.starts_with("0x"));
    assert!(a.v == 27 || a.v == 28);
    assert!(test.sign_packed_action(&action, 1, Some("no"), None).is_err());
    let request = client().signed_request(Json::record(), 5, &a);
    assert_eq!(
        show(&request),
        format!(
            "{{action:{{}},nonce:5,signature:{{r:'{}',s:'{}',v:{}}},vaultAddress:null}}",
            a.r, a.s, a.v
        )
    );
}

#[test]
fn signed_digests_recover_the_address() {
    let signer = HyperliquidSigner::new(KEY, false).unwrap();
    let digest = |data: &[u8]| -> [u8; 32] {
        let mut h = <sha3::Keccak256 as sha3::Digest>::new();
        sha3::Digest::update(&mut h, data);
        sha3::Digest::finalize(h).into()
    };
    let hash = signer.packed_action_hash(&vec![1, 2, 3], 4, None, None).unwrap();
    let mut domain = Vec::new();
    domain.extend_from_slice(&digest(
        b"EIP712Domain(string name,string version,uint256 chainId,address verifyingContract)",
    ));
    domain.extend_from_slice(&digest(b"Exchange"));
    domain.extend_from_slice(&digest(b"1"));
    let mut chain = [0u8; 32];
    chain[30] = 5;
    chain[31] = 57;
    domain.extend_from_slice(&chain);
    domain.extend_from_slice(&[0u8; 32]);
    let mut agent = Vec::new();
    agent.extend_from_slice(&digest(b"Agent(string source,bytes32 connectionId)"));
    agent.extend_from_slice(&digest(b"b"));
    agent.extend_from_slice(&hash);
    let mut outer = vec![0x19u8, 0x01];
    outer.extend_from_slice(&digest(&domain));
    outer.extend_from_slice(&digest(&agent));
    let sig = signer.sign_packed_action(&vec![1, 2, 3], 4, None, None).unwrap();
    let word = |s: &str| ethers_core::types::U256::from_str_radix(&s[2..], 16).unwrap();
    let recovered = ethers_core::types::Signature {
        r: word(&sig.r),
        s: word(&sig.s),
        v: sig.v as u64,
    }
    .recover(ethers_core::types::RecoveryMessage::Hash(digest(&outer).into()))
    .unwrap();
    assert_eq!(format!("{:?}", recovered), signer.address_string());
}

#[test]
fn asset_numbers_must_fit() {
    assert!(config_fits(&config()));
    let mut c = config();
    c.outcome = Some(OutcomeConfig {
        outcome_id: u32::MAX,
        side: 0,
        name: "x".to_string(),
    });
    assert!(!config_fits(&c));
    c.outcome = None;
    c.hip3 = Some(Hip3Config {
        dex_index: 500_000,
        ..Default::default()
    });
    assert!(!config_fits(&c));
}

#[test]
fn the_first_member_with_a_name_is_found() {
    let j = record(vec![("a", Json::Whole(1)), ("a", Json::Whole(2)), ("b", text("x"))]);
    assert_eq!(j.member("a").unwrap().as_u64(), Some(1));
    assert_eq!(j.text_member("b"), Some("x"));
    assert!(j.member("c").is_none());
    assert!(text("a").member("a").is_none());
    assert!(j.member("b").unwrap().as_list().is_none());
    assert_eq!(show(&text("a").with("b", Json::Null)), "'a'");
}

#[test]
fn actions_are_hashed_and_signed_as_message_pack() {
    let signer = HyperliquidSigner::new(KEY, true).unwrap();
    let action = Json::record()
        .with("type", text("order"))
        .with("n", Json::Whole(300))
        .with("on", Json::Bool(true))
        .with("list", Json::List(vec![Json::Null, Json::Whole(1)]));
    let mut bytes = vec![0x84u8, 0xa4];
    bytes.extend_from_slice(b"type");
    bytes.push(0xa5);
    bytes.extend_from_slice(b"order");
    bytes.extend_from_slice(&[0xa1, b'n', 0xcd, 1, 44, 0xa2, b'o', b'n', 0xc3, 0xa4]);
    bytes.extend_from_slice(b"list");
    bytes.extend_from_slice(&[0x92, 0xc0, 1]);
    assert_eq!(packed(&action).unwrap(), bytes);
    assert_eq!(
        signer.action_hash(&action, 9, None, None).unwrap(),
        signer.packed_action_hash(&bytes, 9, None, None).unwrap()
    );
    let a = signer.sign_l1_action(&action, 9, None, None).unwrap();
    let b = signer.sign_packed_action(&bytes, 9, None, None).unwrap();
    assert_eq!((a.r, a.s, a.v), (b.r, b.s, b.v));
    assert!(matches!(
        signer.sign_l1_action(&action, 9, Some("no"), None),
        Err(SigningError::InvalidPrivateKey(_))
    ));
}

#[test]
fn requests_carry_the_signature_of_their_action() {
    let client = client();
    let action = || Json::record().with("type", text("x"));
    let request = client.signed_action(action(), 5).unwrap();
    let sig = client.signer.sign_l1_action(&action(), 5, None, None).unwrap();
    assert_eq!(show(&request), show(&client.signed_request(action(), 5, &sig)));
    let mut c = config();
    c.vault_address = Some("0x12".to_string());
    let client = new_client(c).unwrap();
    let error = client.signed_action(action(), 5).unwrap_err();
    assert_eq!(
        error.to_string(),
        ExchangeError::Signing("Invalid private key: Invalid address length: 1".to_string())
            .to_string()
    );
}

#[test]
fn replies_are_read_from_their_text() {
    let raw = r#"{"status": "err", "response": {"a": [1, -2.5, null]}, "status": "ok"}"#;
    let reply = read_reply(raw).unwrap();
    assert_eq!(show(&reply.value), "{status:'ok',response:{a:[1,-2.5,null]}}");
    assert_eq!(reply.response_text, r#"{"a":[1,-2.5,null]}"#);
    assert_eq!(reply.text, r#"{"status":"ok","response":{"a":[1,-2.5,null]}}"#);
    assert_eq!(written(&reply.value), reply.text);
    assert_eq!(read_reply("[]").unwrap().response_text, "");
    match read_reply("nothing") {
        Err(ExchangeError::Parse(s)) => assert!(s.ends_with(" | raw=nothing")),
        _ => panic!("a reply that is not JSON was read"),
    }
}

#[test]
fn a_repeated_name_is_sent_once() {
    let twice = Json::record()
        .with("a", Json::Whole(1))
        .with("b", Json::Whole(2))
        .with("a", Json::Whole(3));
    assert_eq!(written(&twice), r#"{"a":3,"b":2}"#);
    assert_eq!(written(&Json::Number("1e2".to_string())), "100.0");
    assert_eq!(written(&Json::Number("what".to_string())), "null");
    assert_eq!(show(&from_value(&to_value(&twice))), "{a:3,b:2}");
}
