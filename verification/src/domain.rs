//! The data the engine works on: assets, price series, rules, strategies,
//! orders and the portfolio.
//!
//! Identifiers are UUIDs held as their 128-bit value; the nil UUID is `0`.
//! Timestamps are nanoseconds since the Unix epoch (UTC).
use crate::decimal::Dec;
use uuid::Uuid;
use vstd::prelude::*;

verus! {

/// The class of an asset.
#[derive(Clone, Copy, Debug, PartialEq, Eq, Structural)]
pub enum AssetType {
    Stock,
    Bond,
    ETF,
    Crypto,
    Commodity,
}

/// A tradable asset.
#[derive(Clone, Debug)]
pub struct Asset {
    pub id: u128,
    pub symbol: String,
    pub name: String,
    pub asset_type: AssetType,
}

/// One bar of a price series.
#[derive(Clone, Copy, Debug)]
pub struct PricePoint {
    pub timestamp: i128,
    pub open: Dec,
    pub high: Dec,
    pub low: Dec,
    pub close: Dec,
    pub volume: Option<Dec>,
}

/// The price history of one asset, oldest bar first.
#[derive(Clone, Debug)]
pub struct TimeSeries {
    pub asset_id: u128,
    pub data: Vec<PricePoint>,
}

/// How the two sides of a rule are compared.
#[derive(Clone, Copy, Debug, PartialEq, Eq, Structural)]
pub enum RuleOperator {
    GreaterThan,
    LessThan,
    Equal,
    CrossesOver,
    CrossesUnder,
}

/// A quantity computed for an asset at a point in time.
#[derive(Clone, Copy, Debug)]
pub enum Indicator {
    SMA(usize),
    EMA(usize),
    RSI(usize),
    Price,
    Value(Dec),
}

/// A comparison between two indicators.
#[derive(Clone, Copy, Debug)]
pub struct Rule {
    pub left: Indicator,
    pub operator: RuleOperator,
    pub right: Indicator,
}

/// The logic of a strategy.
#[derive(Clone, Debug)]
pub enum StrategyType {
    /// Entry and exit conditions written as rules.
    RuleBased { entry_rules: Vec<Rule>, exit_rules: Vec<Rule> },
    /// A Python script that sets a variable `signal`.
    Python { script: String },
}

/// A named strategy, with an optional rebalancing period in days.
#[derive(Clone, Debug)]
pub struct Strategy {
    pub id: u128,
    pub name: String,
    pub strategy_type: StrategyType,
    pub rebalance_interval_days: Option<i64>,
}

/// The direction of an order.
#[derive(Clone, Copy, Debug, PartialEq, Eq, Structural)]
pub enum OrderSide {
    Buy,
    Sell,
}

/// An executed trade.
#[derive(Clone, Copy, Debug)]
pub struct Order {
    pub id: u128,
    pub asset_id: u128,
    pub quantity: Dec,
    pub price: Dec,
    pub timestamp: i128,
    pub side: OrderSide,
}

/// A holding of one asset.
#[derive(Clone, Copy, Debug)]
pub struct Position {
    pub asset_id: u128,
    pub quantity: Dec,
    pub average_price: Dec,
}

/// Cash and holdings.  `positions` holds at most one position per asset.
#[derive(Clone, Debug)]
pub struct Portfolio {
    pub cash: Dec,
    pub positions: Vec<Position>,
}

/// The asset ids of a sequence of positions.
pub open spec fn position_ids(positions: Seq<Position>) -> Seq<u128> {
    positions.map_values(|p: Position| p.asset_id)
}

/// No asset holds two positions.
pub open spec fn positions_distinct(positions: Seq<Position>) -> bool {
    forall|i: int, j: int|
        0 <= i < positions.len() && 0 <= j < positions.len() && i != j
            ==> #[trigger] positions[i].asset_id != #[trigger] positions[j].asset_id
}

/// At most one series per asset.
pub open spec fn series_distinct(series: Seq<TimeSeries>) -> bool {
    forall|i: int, j: int|
        0 <= i < series.len() && 0 <= j < series.len() && i != j
            ==> #[trigger] series[i].asset_id != #[trigger] series[j].asset_id
}

impl Portfolio {
    /// At most one position per asset.
    pub open spec fn well_formed(&self) -> bool {
        positions_distinct(self.positions@)
    }
}

/// What `Uuid::parse_str` gives, as the UUID's 128-bit value.
pub uninterp spec fn uuid_parse(text: Seq<char>) -> Option<u128>;

/// Parses a UUID with `Uuid::parse_str` (any of its accepted formats);
/// `None` where the text is not a UUID.
#[verifier::external_body]
pub(crate) fn parse_uuid(text: &str) -> (r: Option<u128>)
    ensures
        r == uuid_parse(text@),
{
    match Uuid::parse_str(text) {
        Ok(u) => Some(u.as_u128()),
        Err(_) => None,
    }
}

/// The 128-bit value of a random (version 4, RFC 4122 variant) UUID: the
/// version field is `4` and the variant bits are `10`.
pub open spec fn is_random_uuid(id: u128) -> bool {
    id & 0xF000_C000_0000_0000_0000u128 == 0x4000_8000_0000_0000_0000u128
}

/// A random UUID from `Uuid::new_v4`, which sets the version and variant
/// bits of random bits (so it is never the nil UUID).  Nothing else is
/// promised of its value.
#[verifier::external_body]
pub(crate) fn fresh_uuid() -> (r: u128)
    ensures
        is_random_uuid(r),
{
    Uuid::new_v4().as_u128()
}

impl Strategy {
    /// Gives a strategy whose id is the nil UUID a fresh random id; any other
    /// id is kept.
    pub fn assign_id_if_nil(&mut self)
        ensures
            old(self).id != 0 ==> final(self).id == old(self).id,
            old(self).id == 0 ==> is_random_uuid(final(self).id),
            final(self).id != 0,
            final(self).name == old(self).name,
            final(self).strategy_type == old(self).strategy_type,
            final(self).rebalance_interval_days == old(self).rebalance_interval_days,
    {
        if self.id == 0 {
            let id: u128 = fresh_uuid();
            assert(id != 0) by (bit_vector)
                requires
                    id & 0xF000_C000_0000_0000_0000u128 == 0x4000_8000_0000_0000_0000u128,
            ;
            self.id = id;
        }
    }
}

/// The hyphenated text of a UUID, by `Uuid`'s `Display` (as `to_string`).
#[verifier::external_body]
pub(crate) fn uuid_text(id: u128) -> String {
    Uuid::from_u128(id).to_string()
}

} // verus!
