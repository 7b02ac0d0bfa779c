//! Markets: what is traded, under which names and numbers.
use vstd::prelude::*;
use vstd::string::*;
use crate::text;
use crate::decimal::Decimal;
use crate::text::{join2, join3, number_text, same_text, uppercased};
use crate::types::{AssetId, Environment, ExchangeId, ExchangeInstance, InstrumentId, InstrumentKind, MarketIndex};

verus! {

/// The number of an outcome's side: ten times the outcome, and the side.
pub open spec fn encoding_of(outcome_id: u32, side: u8) -> int {
    10 * outcome_id + side
}

/// The asset number of an outcome's side.
pub open spec fn outcome_asset(outcome_id: u32, side: u8) -> int {
    100_000_000 + encoding_of(outcome_id, side)
}

/// The asset number of a market on a builder-deployed exchange: ten thousand numbers for
/// each exchange, from 110000 for the first.
pub open spec fn hip3_asset(dex_index: u32, asset_index: u32) -> int {
    110_000 + (if dex_index > 0 {
        dex_index - 1
    } else {
        0
    }) * 10_000 + asset_index
}

/// The asset number of a market on a builder-deployed exchange.
pub(crate) fn hip3_asset_id(dex_index: u32, asset_index: u32) -> (r: u32)
    requires
        hip3_asset(dex_index, asset_index) <= u32::MAX,
    ensures
        r == hip3_asset(dex_index, asset_index),
{
    let before: u32 = if dex_index > 0 {
        dex_index - 1
    } else {
        0
    };
    110_000 + before * 10_000 + asset_index
}

/// Whether a currency, in capitals, is another than the common one.
pub fn is_alternate_collateral(upper: &str) -> (r: bool)
    ensures
        r == (upper@ != "USDC"@),
{
    !same_text(upper, "USDC")
}

/// The steps and minima of an instrument.
#[derive(Debug, Clone, Copy)]
pub struct InstrumentMetaConfig {
    pub tick_size: Decimal,
    pub lot_size: Decimal,
    pub min_qty: Option<Decimal>,
    pub min_notional: Option<Decimal>,
}

/// A market on a builder-deployed exchange.
#[derive(Debug, PartialEq)]
pub struct Hip3MarketConfig {
    pub dex_name: String,
    pub dex_index: u32,
    pub quote_currency: String,
    pub asset_index: u32,
}

impl Clone for Hip3MarketConfig {
    fn clone(&self) -> (r: Hip3MarketConfig)
        ensures
            r == *self,
    {
        Hip3MarketConfig {
            dex_name: self.dex_name.clone(),
            dex_index: self.dex_index,
            quote_currency: self.quote_currency.clone(),
            asset_index: self.asset_index,
        }
    }
}

impl Hip3MarketConfig {
    /// The asset number.
    pub fn calculate_asset_id(&self) -> (r: u32)
        requires
            hip3_asset(self.dex_index, self.asset_index) <= u32::MAX,
        ensures
            r == hip3_asset(self.dex_index, self.asset_index),
    {
        hip3_asset_id(self.dex_index, self.asset_index)
    }

    /// Whether another currency than the common one is the collateral.
    pub fn uses_alternate_collateral(&self) -> (r: bool)
        ensures
            r == (text::upper_text(self.quote_currency@) != "USDC"@),
    {
        is_alternate_collateral(uppercased(self.quote_currency.as_str()).as_str())
    }
}

/// A market of Hyperliquid.
#[derive(Debug)]
pub enum HyperliquidMarket {
    Perp {
        base: String,
        quote: String,
        index: u32,
        instrument_meta: Option<InstrumentMetaConfig>,
    },
    Spot {
        base: String,
        quote: String,
        index: u32,
        instrument_meta: Option<InstrumentMetaConfig>,
    },
    /// A perpetual on a builder-deployed exchange.
    Hip3 {
        base: String,
        quote: String,
        dex: String,
        dex_index: u32,
        asset_index: u32,
        instrument_meta: Option<InstrumentMetaConfig>,
    },
    /// One side of a binary event: 0 is yes and 1 is no.
    Outcome {
        name: String,
        outcome_id: u32,
        side: u8,
        instrument_meta: Option<InstrumentMetaConfig>,
    },
}

impl Clone for HyperliquidMarket {
    fn clone(&self) -> (r: HyperliquidMarket)
        ensures
            r == *self,
    {
        match self {
            HyperliquidMarket::Perp { base, quote, index, instrument_meta } =>
                HyperliquidMarket::Perp {
                base: base.clone(),
                quote: quote.clone(),
                index: *index,
                instrument_meta: *instrument_meta,
            },
            HyperliquidMarket::Spot { base, quote, index, instrument_meta } =>
                HyperliquidMarket::Spot {
                base: base.clone(),
                quote: quote.clone(),
                index: *index,
                instrument_meta: *instrument_meta,
            },
            HyperliquidMarket::Hip3 { base, quote, dex, dex_index, asset_index, instrument_meta } =>
                HyperliquidMarket::Hip3 {
                base: base.clone(),
                quote: quote.clone(),
                dex: dex.clone(),
                dex_index: *dex_index,
                asset_index: *asset_index,
                instrument_meta: *instrument_meta,
            },
            HyperliquidMarket::Outcome { name, outcome_id, side, instrument_meta } =>
                HyperliquidMarket::Outcome {
                name: name.clone(),
                outcome_id: *outcome_id,
                side: *side,
                instrument_meta: *instrument_meta,
            },
        }
    }
}

impl HyperliquidMarket {
    /// The asset number of the market.
    pub open spec fn asset(&self) -> int {
        match self {
            HyperliquidMarket::Perp { index, .. } => *index as int,
            HyperliquidMarket::Spot { index, .. } => *index as int,
            HyperliquidMarket::Hip3 { dex_index, asset_index, .. } => hip3_asset(
                *dex_index,
                *asset_index,
            ),
            HyperliquidMarket::Outcome { outcome_id, side, .. } => outcome_asset(
                *outcome_id,
                *side,
            ),
        }
    }

    /// The name of the instrument.
    pub open spec fn instrument_text(&self) -> Seq<char> {
        match self {
            HyperliquidMarket::Perp { base, .. } => base@ + "-PERP"@,
            HyperliquidMarket::Spot { base, .. } => base@ + "-SPOT"@,
            HyperliquidMarket::Hip3 { dex, base, .. } => dex@ + ":"@ + base@ + "-PERP"@,
            HyperliquidMarket::Outcome { outcome_id, side, .. } => "#"@ + text::digits(
                encoding_of(*outcome_id, *side) as nat,
            ) + "-OUTCOME"@,
        }
    }

    /// The base asset: for an outcome its name.
    pub open spec fn base_text(&self) -> Seq<char> {
        match self {
            HyperliquidMarket::Perp { base, .. } => base@,
            HyperliquidMarket::Spot { base, .. } => base@,
            HyperliquidMarket::Hip3 { base, .. } => base@,
            HyperliquidMarket::Outcome { name, .. } => name@,
        }
    }

    /// The quote asset.
    pub open spec fn quote_text(&self) -> Seq<char> {
        match self {
            HyperliquidMarket::Perp { quote, .. } => quote@,
            HyperliquidMarket::Spot { quote, .. } => quote@,
            HyperliquidMarket::Hip3 { quote, .. } => quote@,
            HyperliquidMarket::Outcome { .. } => "USDC"@,
        }
    }

    /// What the market trades.
    pub open spec fn kind(&self) -> InstrumentKind {
        match self {
            HyperliquidMarket::Outcome { .. } => InstrumentKind::Outcome,
            HyperliquidMarket::Spot { .. } => InstrumentKind::Spot,
            _ => InstrumentKind::Perp,
        }
    }

    /// The steps and minima that are set.
    pub open spec fn meta(&self) -> Option<InstrumentMetaConfig> {
        match self {
            HyperliquidMarket::Perp { instrument_meta, .. } => *instrument_meta,
            HyperliquidMarket::Spot { instrument_meta, .. } => *instrument_meta,
            HyperliquidMarket::Hip3 { instrument_meta, .. } => *instrument_meta,
            HyperliquidMarket::Outcome { instrument_meta, .. } => *instrument_meta,
        }
    }

    /// The name of the instrument can be written: the number of an outcome's side is one that
    /// is in use.
    pub open spec fn named(&self) -> bool {
        match self {
            HyperliquidMarket::Outcome { outcome_id, side, .. } => encoding_of(*outcome_id, *side)
                <= u32::MAX,
            _ => true,
        }
    }

    /// The number of an outcome's side.
    pub fn outcome_encoding(outcome_id: u32, side: u8) -> (r: u32)
        requires
            encoding_of(outcome_id, side) <= u32::MAX,
        ensures
            r == encoding_of(outcome_id, side),
    {
        10 * outcome_id + side as u32
    }

    /// The name of the instrument.
    pub fn instrument_id(&self) -> (r: InstrumentId)
        requires
            self.named(),
        ensures
            r@ == self.instrument_text(),
    {
        match self {
            HyperliquidMarket::Perp { base, .. } => InstrumentId(join2(base.as_str(), "-PERP")),
            HyperliquidMarket::Spot { base, .. } => InstrumentId(join2(base.as_str(), "-SPOT")),
            HyperliquidMarket::Hip3 { dex, base, .. } => InstrumentId(
                join3(dex.as_str(), ":", base.as_str()).concat("-PERP"),
            ),
            HyperliquidMarket::Outcome { outcome_id, side, .. } => {
                let encoding: u32 = HyperliquidMarket::outcome_encoding(*outcome_id, *side);
                InstrumentId(join3("#", number_text(encoding as u128).as_str(), "-OUTCOME"))
            },
        }
    }

    /// The number of the market.
    pub fn market_index(&self) -> (r: MarketIndex)
        requires
            self.asset() <= u32::MAX,
        ensures
            r.0 == self.asset(),
    {
        MarketIndex(self.effective_asset_id())
    }

    /// The asset number of the market.
    pub fn effective_asset_id(&self) -> (r: u32)
        requires
            self.asset() <= u32::MAX,
        ensures
            r == self.asset(),
    {
        match self {
            HyperliquidMarket::Perp { index, .. } => *index,
            HyperliquidMarket::Spot { index, .. } => *index,
            HyperliquidMarket::Hip3 { dex_index, asset_index, .. } => hip3_asset_id(
                *dex_index,
                *asset_index,
            ),
            HyperliquidMarket::Outcome { outcome_id, side, .. } => 100_000_000
                + HyperliquidMarket::outcome_encoding(*outcome_id, *side),
        }
    }

    /// Whether the number of the asset can be held.
    pub fn asset_fits(&self) -> (r: bool)
        ensures
            r == (self.asset() <= u32::MAX),
    {
        match self {
            HyperliquidMarket::Perp { .. } => true,
            HyperliquidMarket::Spot { .. } => true,
            HyperliquidMarket::Hip3 { dex_index, asset_index, .. } => {
                let place: u64 = if *dex_index > 1 {
                    (*dex_index - 1) as u64
                } else {
                    0
                };
                110_000 + place * 10_000 + *asset_index as u64 <= u32::MAX as u64
            },
            HyperliquidMarket::Outcome { outcome_id, side, .. } => 100_000_000 + 10
                * (*outcome_id as u64) + *side as u64 <= u32::MAX as u64,
        }
    }

    /// Whether this is a spot market.
    pub fn is_spot(&self) -> (r: bool)
        ensures
            r == (self is Spot),
    {
        match self {
            HyperliquidMarket::Spot { .. } => true,
            _ => false,
        }
    }

    /// Whether this is an outcome.
    pub fn is_outcome(&self) -> (r: bool)
        ensures
            r == (self is Outcome),
    {
        match self {
            HyperliquidMarket::Outcome { .. } => true,
            _ => false,
        }
    }

    /// The base asset: for an outcome its name.
    pub fn base(&self) -> (r: &str)
        ensures
            r@ == self.base_text(),
    {
        match self {
            HyperliquidMarket::Perp { base, .. } => base.as_str(),
            HyperliquidMarket::Spot { base, .. } => base.as_str(),
            HyperliquidMarket::Hip3 { base, .. } => base.as_str(),
            HyperliquidMarket::Outcome { name, .. } => name.as_str(),
        }
    }

    /// The quote asset.
    pub fn quote(&self) -> (r: &str)
        ensures
            r@ == self.quote_text(),
    {
        match self {
            HyperliquidMarket::Perp { quote, .. } => quote.as_str(),
            HyperliquidMarket::Spot { quote, .. } => quote.as_str(),
            HyperliquidMarket::Hip3 { quote, .. } => quote.as_str(),
            HyperliquidMarket::Outcome { .. } => "USDC",
        }
    }

    /// The coin under which prices and fills are reported, where it is not the base of a
    /// perpetual.
    pub fn coin_name(&self) -> (r: Option<String>)
        requires
            self.named(),
        ensures
            match self {
                HyperliquidMarket::Outcome { outcome_id, side, .. } => r matches Some(s) && s@
                    == "#"@ + text::digits(encoding_of(*outcome_id, *side) as nat),
                HyperliquidMarket::Spot { base, .. } => r == Some(*base),
                _ => r is None,
            },
    {
        match self {
            HyperliquidMarket::Outcome { outcome_id, side, .. } => {
                let encoding: u32 = HyperliquidMarket::outcome_encoding(*outcome_id, *side);
                Some(join2("#", number_text(encoding as u128).as_str()))
            },
            HyperliquidMarket::Spot { base, .. } => Some(base.clone()),
            _ => None,
        }
    }

    /// The coin of a spot market.
    pub fn spot_coin(&self) -> (r: Option<String>)
        ensures
            r == (match self {
                HyperliquidMarket::Spot { base, .. } => Some(*base),
                _ => None,
            }),
    {
        match self {
            HyperliquidMarket::Spot { base, .. } => Some(base.clone()),
            _ => None,
        }
    }

    /// The number of a spot market.
    pub fn spot_market_index(&self) -> (r: Option<u32>)
        ensures
            r == (match self {
                HyperliquidMarket::Spot { index, .. } => Some(*index),
                _ => None,
            }),
    {
        match self {
            HyperliquidMarket::Spot { index, .. } => Some(*index),
            _ => None,
        }
    }

    /// The builder-deployed exchange that the market is on.
    pub fn hip3_config(&self) -> (r: Option<Hip3MarketConfig>)
        ensures
            r == (match self {
                HyperliquidMarket::Hip3 { dex, dex_index, quote, asset_index, .. } => Some(
                    Hip3MarketConfig {
                        dex_name: *dex,
                        dex_index: *dex_index,
                        quote_currency: *quote,
                        asset_index: *asset_index,
                    },
                ),
                _ => None,
            }),
    {
        match self {
            HyperliquidMarket::Hip3 { dex, dex_index, quote, asset_index, .. } => Some(
                Hip3MarketConfig {
                    dex_name: dex.clone(),
                    dex_index: *dex_index,
                    quote_currency: quote.clone(),
                    asset_index: *asset_index,
                },
            ),
            _ => None,
        }
    }

    /// Whether another currency than the common one is the collateral.
    pub fn uses_alternate_collateral(&self) -> (r: bool)
        ensures
            r == (match self {
                HyperliquidMarket::Hip3 { quote, .. } => text::upper_text(quote@) != "USDC"@,
                _ => false,
            }),
    {
        match self {
            HyperliquidMarket::Hip3 { quote, .. } => is_alternate_collateral(
                uppercased(quote.as_str()).as_str(),
            ),
            _ => false,
        }
    }

    /// The name of the builder-deployed exchange.
    pub fn dex_name(&self) -> (r: Option<&str>)
        ensures
            match self {
                HyperliquidMarket::Hip3 { dex, .. } => r matches Some(s) && s@ == dex@,
                _ => r is None,
            },
    {
        match self {
            HyperliquidMarket::Hip3 { dex, .. } => Some(dex.as_str()),
            _ => None,
        }
    }

    /// The steps and minima that are set.
    pub fn instrument_meta(&self) -> (r: Option<&InstrumentMetaConfig>)
        ensures
            r == (match self.meta() {
                Some(m) => Some(&m),
                None => None,
            }),
    {
        let meta = match self {
            HyperliquidMarket::Perp { instrument_meta, .. } => instrument_meta,
            HyperliquidMarket::Spot { instrument_meta, .. } => instrument_meta,
            HyperliquidMarket::Hip3 { instrument_meta, .. } => instrument_meta,
            HyperliquidMarket::Outcome { instrument_meta, .. } => instrument_meta,
        };
        match meta {
            Some(m) => Some(m),
            None => None,
        }
    }
}

/// A market of some exchange.
#[derive(Debug)]
pub enum Market {
    Hyperliquid(HyperliquidMarket),
}

impl Clone for Market {
    fn clone(&self) -> (r: Market)
        ensures
            r == *self,
    {
        match self {
            Market::Hyperliquid(hl) => Market::Hyperliquid(hl.clone()),
        }
    }
}

impl Market {
    /// The market on its exchange.
    pub open spec fn inner(&self) -> HyperliquidMarket {
        match self {
            Market::Hyperliquid(hl) => *hl,
        }
    }

    /// The name of the instrument.
    pub fn instrument_id(&self) -> (r: InstrumentId)
        requires
            self.inner().named(),
        ensures
            r@ == self.inner().instrument_text(),
    {
        match self {
            Market::Hyperliquid(hl) => hl.instrument_id(),
        }
    }

    /// The number of the market.
    pub fn market_index(&self) -> (r: MarketIndex)
        requires
            self.inner().asset() <= u32::MAX,
        ensures
            r.0 == self.inner().asset(),
    {
        match self {
            Market::Hyperliquid(hl) => hl.market_index(),
        }
    }

    /// Whether this is a spot market.
    pub fn is_spot(&self) -> (r: bool)
        ensures
            r == (self.inner() is Spot),
    {
        match self {
            Market::Hyperliquid(hl) => hl.is_spot(),
        }
    }

    /// The base asset.
    pub fn base(&self) -> (r: &str)
        ensures
            r@ == self.inner().base_text(),
    {
        match self {
            Market::Hyperliquid(hl) => hl.base(),
        }
    }

    /// The quote asset.
    pub fn quote(&self) -> (r: &str)
        ensures
            r@ == self.inner().quote_text(),
    {
        match self {
            Market::Hyperliquid(hl) => hl.quote(),
        }
    }

    /// The base asset.
    pub fn base_asset(&self) -> (r: AssetId)
        ensures
            r@ == self.inner().base_text(),
    {
        match self {
            Market::Hyperliquid(hl) => AssetId::new(hl.base()),
        }
    }

    /// The quote asset.
    pub fn quote_asset(&self) -> (r: AssetId)
        ensures
            r@ == self.inner().quote_text(),
    {
        match self {
            Market::Hyperliquid(hl) => AssetId::new(hl.quote()),
        }
    }

    /// What the market trades.
    pub fn instrument_kind(&self) -> (r: InstrumentKind)
        ensures
            r == self.inner().kind(),
    {
        match self {
            Market::Hyperliquid(hl) => match hl {
                HyperliquidMarket::Outcome { .. } => InstrumentKind::Outcome,
                HyperliquidMarket::Spot { .. } => InstrumentKind::Spot,
                _ => InstrumentKind::Perp,
            },
        }
    }

    /// Whether positions are held on margin.
    pub fn uses_margin(&self) -> (r: bool)
        ensures
            r == (self.inner().kind() is Perp),
    {
        match self.instrument_kind() {
            InstrumentKind::Perp => true,
            _ => false,
        }
    }

    /// Whether this is an outcome.
    pub fn is_outcome(&self) -> (r: bool)
        ensures
            r == (self.inner() is Outcome),
    {
        match self {
            Market::Hyperliquid(hl) => hl.is_outcome(),
        }
    }

    /// The outcome, its side and its name.
    pub fn outcome_params(&self) -> (r: Option<(u32, u8, String)>)
        ensures
            r == (match self.inner() {
                HyperliquidMarket::Outcome { outcome_id, side, name, .. } => Some(
                    (outcome_id, side, name),
                ),
                _ => None,
            }),
    {
        match self {
            Market::Hyperliquid(hl) => match hl {
                HyperliquidMarket::Outcome { outcome_id, side, name, .. } => Some(
                    (*outcome_id, *side, name.clone()),
                ),
                _ => None,
            },
        }
    }

    /// The exchange of the market.
    pub fn exchange_instance(&self, environment: Environment) -> (r: ExchangeInstance)
        ensures
            r.exchange_id@ == "hyperliquid"@,
            r.environment == environment,
    {
        match self {
            Market::Hyperliquid(_) => ExchangeInstance::new(
                ExchangeId::new("hyperliquid"),
                environment,
            ),
        }
    }

    /// The asset number of the market.
    pub fn effective_asset_id(&self) -> (r: u32)
        requires
            self.inner().asset() <= u32::MAX,
        ensures
            r == self.inner().asset(),
    {
        match self {
            Market::Hyperliquid(hl) => hl.effective_asset_id(),
        }
    }

    /// Whether the number of the asset can be held.
    pub fn asset_fits(&self) -> (r: bool)
        ensures
            r == (self.inner().asset() <= u32::MAX),
    {
        match self {
            Market::Hyperliquid(hl) => hl.asset_fits(),
        }
    }

    /// The coin of a spot market.
    pub fn spot_coin(&self) -> (r: Option<String>)
        ensures
            r == (match self.inner() {
                HyperliquidMarket::Spot { base, .. } => Some(base),
                _ => None,
            }),
    {
        match self {
            Market::Hyperliquid(hl) => hl.spot_coin(),
        }
    }

    /// The number of a spot market.
    pub fn spot_market_index(&self) -> (r: Option<u32>)
        ensures
            r == (match self.inner() {
                HyperliquidMarket::Spot { index, .. } => Some(index),
                _ => None,
            }),
    {
        match self {
            Market::Hyperliquid(hl) => hl.spot_market_index(),
        }
    }

    /// The builder-deployed exchange that the market is on.
    pub fn hip3_config(&self) -> (r: Option<Hip3MarketConfig>)
        ensures
            r == (match self.inner() {
                HyperliquidMarket::Hip3 { dex, dex_index, quote, asset_index, .. } => Some(
                    Hip3MarketConfig {
                        dex_name: dex,
                        dex_index,
                        quote_currency: quote,
                        asset_index,
                    },
                ),
                _ => None,
            }),
    {
        match self {
            Market::Hyperliquid(hl) => hl.hip3_config(),
        }
    }

    /// The steps and minima that are set.
    pub fn instrument_meta(&self) -> (r: Option<&InstrumentMetaConfig>)
        ensures
            r == (match self.inner().meta() {
                Some(m) => Some(&m),
                None => None,
            }),
    {
        match self {
            Market::Hyperliquid(hl) => hl.instrument_meta(),
        }
    }
}

/// Different markets of one builder-deployed exchange, and markets of different ones, have
/// different asset numbers, as long as an exchange has at most ten thousand markets.
pub proof fn law_hip3_assets_distinct(dex1: u32, asset1: u32, dex2: u32, asset2: u32)
    requires
        dex1 > 0,
        dex2 > 0,
        asset1 < 10_000,
        asset2 < 10_000,
        hip3_asset(dex1, asset1) == hip3_asset(dex2, asset2),
    ensures
        dex1 == dex2,
        asset1 == asset2,
{
}

/// The number of an outcome's side tells the outcome and the side.
pub proof fn law_encoding_tells_side(outcome_id: u32, side: u8)
    requires
        side < 10,
    ensures
        encoding_of(outcome_id, side) / 10 == outcome_id,
        encoding_of(outcome_id, side) % 10 == side,
{
}

} // verus!
