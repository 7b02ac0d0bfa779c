//! Hyperliquid's configuration and the shapes of its replies.
use vstd::prelude::*;
use vstd::string::*;
use crate::text;
use crate::market;
use crate::market::{hip3_asset_id, is_alternate_collateral};
use crate::text::{join2, number_text, uppercased};
use crate::types::Environment;

verus! {

/// A fee for the builder of a client.
#[derive(Debug)]
pub struct BuilderFee {
    /// Who gets the fee.
    pub address: String,
    /// Tenths of a basis point.
    pub fee_tenths_bp: u32,
}

impl Clone for BuilderFee {
    fn clone(&self) -> (r: BuilderFee)
        ensures
            r == *self,
    {
        BuilderFee {
            address: self.address.clone(),
            fee_tenths_bp: self.fee_tenths_bp,
        }
    }
}

/// A builder-deployed exchange.
#[derive(Debug)]
pub struct Hip3Config {
    /// The name, sent as the `dex` of a request.
    pub dex_name: String,
    /// The place among the exchanges; the first is 1.
    pub dex_index: u32,
    /// The collateral.
    pub quote_currency: String,
    /// The place of the asset on the exchange.
    pub asset_index: u32,
}

impl Clone for Hip3Config {
    fn clone(&self) -> (r: Hip3Config)
        ensures
            r == *self,
    {
        Hip3Config {
            dex_name: self.dex_name.clone(),
            dex_index: self.dex_index,
            quote_currency: self.quote_currency.clone(),
            asset_index: self.asset_index,
        }
    }
}

impl Hip3Config {
    /// The asset number for orders.
    pub fn calculate_asset_id(&self) -> (r: u32)
        requires
            market::hip3_asset(self.dex_index, self.asset_index) <= u32::MAX,
        ensures
            r == market::hip3_asset(self.dex_index, self.asset_index),
    {
        hip3_asset_id(self.dex_index, self.asset_index)
    }

    /// Whether another currency than the common one is the collateral.
    pub fn uses_alternate_collateral(&self) -> (r: bool)
        ensures
            r == (text::upper_text(self.quote_currency@) != "USDC"@),
    {
        is_alternate_collateral(uppercased(self.quote_currency.as_str()).as_str())
    }
}

impl Default for Hip3Config {
    fn default() -> (r: Hip3Config)
        ensures
            r.dex_name@ == ""@,
            r.dex_index == 0,
            r.quote_currency@ == ""@,
            r.asset_index == 0,
    {
        Hip3Config {
            dex_name: "".to_owned(),
            dex_index: 0,
            quote_currency: "".to_owned(),
            asset_index: 0,
        }
    }
}

/// One side of a binary event.
#[derive(Debug)]
pub struct OutcomeConfig {
    pub outcome_id: u32,
    /// 0 is yes and 1 is no.
    pub side: u8,
    pub name: String,
}

impl Clone for OutcomeConfig {
    fn clone(&self) -> (r: OutcomeConfig)
        ensures
            r == *self,
    {
        OutcomeConfig {
            outcome_id: self.outcome_id,
            side: self.side,
            name: self.name.clone(),
        }
    }
}

impl OutcomeConfig {
    /// The number of the side.
    pub fn encoding(&self) -> (r: u32)
        requires
            market::encoding_of(self.outcome_id, self.side) <= u32::MAX,
        ensures
            r == market::encoding_of(self.outcome_id, self.side),
    {
        10 * self.outcome_id + self.side as u32
    }

    /// The asset number for orders.
    pub fn asset_id(&self) -> (r: u32)
        requires
            market::outcome_asset(self.outcome_id, self.side) <= u32::MAX,
        ensures
            r == market::outcome_asset(self.outcome_id, self.side),
    {
        100_000_000 + self.encoding()
    }

    /// The coin under which prices and fills are reported.
    pub fn coin_name(&self) -> (r: String)
        requires
            market::encoding_of(self.outcome_id, self.side) <= u32::MAX,
        ensures
            r@ == "#"@ + text::digits(market::encoding_of(self.outcome_id, self.side) as nat),
    {
        join2("#", number_text(self.encoding() as u128).as_str())
    }

    /// The token under which balances are reported.
    pub fn token_name(&self) -> (r: String)
        requires
            market::encoding_of(self.outcome_id, self.side) <= u32::MAX,
        ensures
            r@ == "+"@ + text::digits(market::encoding_of(self.outcome_id, self.side) as nat),
    {
        join2("+", number_text(self.encoding() as u128).as_str())
    }
}

impl Default for OutcomeConfig {
    fn default() -> (r: OutcomeConfig)
        ensures
            r.outcome_id == 0,
            r.side == 0,
            r.name@ == ""@,
    {
        OutcomeConfig { outcome_id: 0, side: 0, name: "".to_owned() }
    }
}

/// How a client reaches Hyperliquid.
#[derive(Debug)]
pub struct HyperliquidConfig {
    pub environment: Environment,
    /// Hexadecimal.
    pub private_key: String,
    pub vault_address: Option<String>,
    /// The account that an API wallet acts for.
    pub main_address: Option<String>,
    pub timeout_secs: u64,
    pub proxy_url: Option<String>,
    pub base_url_override: Option<String>,
    pub builder_fee: Option<BuilderFee>,
    pub hip3: Option<Hip3Config>,
    pub is_spot: bool,
    /// The coin that spot fills are booked under.
    pub spot_coin: Option<String>,
    pub spot_market_index: Option<u32>,
    pub is_outcome: bool,
    pub outcome: Option<OutcomeConfig>,
}

impl Clone for HyperliquidConfig {
    fn clone(&self) -> (r: HyperliquidConfig)
        ensures
            r == *self,
    {
        HyperliquidConfig {
            environment: self.environment,
            private_key: self.private_key.clone(),
            vault_address: match &self.vault_address {
                Some(x) => Some(x.clone()),
                None => None,
            },
            main_address: match &self.main_address {
                Some(x) => Some(x.clone()),
                None => None,
            },
            timeout_secs: self.timeout_secs,
            proxy_url: match &self.proxy_url {
                Some(x) => Some(x.clone()),
                None => None,
            },
            base_url_override: match &self.base_url_override {
                Some(x) => Some(x.clone()),
                None => None,
            },
            builder_fee: match &self.builder_fee {
                Some(x) => Some(x.clone()),
                None => None,
            },
            hip3: match &self.hip3 {
                Some(x) => Some(x.clone()),
                None => None,
            },
            is_spot: self.is_spot,
            spot_coin: match &self.spot_coin {
                Some(x) => Some(x.clone()),
                None => None,
            },
            spot_market_index: self.spot_market_index,
            is_outcome: self.is_outcome,
            outcome: match &self.outcome {
                Some(x) => Some(x.clone()),
                None => None,
            },
        }
    }
}

impl HyperliquidConfig {
    /// Where requests go.
    pub open spec fn base(&self) -> Seq<char> {
        match self.base_url_override {
            Some(url) => url@,
            None => match self.environment {
                Environment::Mainnet => "https://api.hyperliquid.xyz"@,
                Environment::Testnet => "https://api.hyperliquid-testnet.xyz"@,
            },
        }
    }

    /// Where requests go.
    pub fn base_url(&self) -> (r: &str)
        ensures
            r@ == self.base(),
    {
        match &self.base_url_override {
            Some(url) => url.as_str(),
            None => match self.environment {
                Environment::Mainnet => "https://api.hyperliquid.xyz",
                Environment::Testnet => "https://api.hyperliquid-testnet.xyz",
            },
        }
    }
}

impl Default for HyperliquidConfig {
    fn default() -> (r: HyperliquidConfig)
        ensures
            r == (HyperliquidConfig {
                environment: Environment::Testnet,
                private_key: r.private_key,
                vault_address: None,
                main_address: None,
                timeout_secs: 10,
                proxy_url: None,
                base_url_override: None,
                builder_fee: None,
                hip3: None,
                is_spot: false,
                spot_coin: None,
                spot_market_index: None,
                is_outcome: false,
                outcome: None,
            }),
            r.private_key@ == Seq::<char>::empty(),
    {
        HyperliquidConfig {
            environment: Environment::Testnet,
            private_key: String::new(),
            vault_address: None,
            main_address: None,
            timeout_secs: 10,
            proxy_url: None,
            base_url_override: None,
            builder_fee: None,
            hip3: None,
            is_spot: false,
            spot_coin: None,
            spot_market_index: None,
            is_outcome: false,
            outcome: None,
        }
    }
}

/// An order that stands in the book.
#[derive(Debug)]
pub struct HyperliquidRestingOrder {
    pub oid: u64,
}

/// An order that was filled at once.
#[derive(Debug)]
pub struct HyperliquidFilledOrder {
    pub total_sz: String,
    pub avg_px: String,
    pub oid: u64,
}

/// The answer to one order.
#[derive(Debug)]
pub struct HyperliquidOrderStatus {
    pub resting: Option<HyperliquidRestingOrder>,
    pub filled: Option<HyperliquidFilledOrder>,
    pub error: Option<String>,
}

/// The answers in the order of the request.
#[derive(Debug)]
pub struct HyperliquidOrderData {
    pub statuses: Vec<HyperliquidOrderStatus>,
}

/// The body of a reply.
#[derive(Debug)]
pub struct HyperliquidOrderResponseData {
    pub response_type: String,
    pub data: Option<HyperliquidOrderData>,
}

/// A reply to an order.
#[derive(Debug)]
pub struct HyperliquidOrderResponse {
    /// `ok` or `err`.
    pub status: String,
    pub response: Option<HyperliquidOrderResponseData>,
}

/// A position as the exchange reports it.
#[derive(Debug)]
pub struct HyperliquidPosition {
    pub coin: String,
    /// The signed size.
    pub szi: String,
    pub entry_px: Option<String>,
    pub position_value: String,
    pub unrealized_pnl: String,
}

/// A position with its kind.
#[derive(Debug)]
pub struct HyperliquidAssetPosition {
    pub position: HyperliquidPosition,
    pub position_type: String,
}

/// The margin of an account.
#[derive(Debug)]
pub struct HyperliquidMarginSummary {
    pub account_value: String,
    pub total_margin_used: String,
    pub total_ntl_pos: String,
    pub total_raw_usd: String,
}

/// The state of an account.
#[derive(Debug)]
pub struct HyperliquidClearinghouseState {
    pub margin_summary: HyperliquidMarginSummary,
    pub asset_positions: Vec<HyperliquidAssetPosition>,
}

} // verus!
