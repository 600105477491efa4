//! What the price provider is asked and what its answers are read as.

use crate::asset_map::AssetMap;
use crate::chart::prices::PricePoint;
use crate::decimal::Decimal;
use vstd::prelude::*;
use vstd::string::{to_string_from_display_ensures, StringExecFns};

verus! {

/// The address under which the price provider serves its interface.
pub const BASE_URL: &'static str = "https://api.coingecko.com/api/v3";

/// A token as the price provider knows it.
#[derive(Debug, PartialEq, Eq)]
pub struct CoingeckoToken {
    pub _name: String,
    pub id: String,
    pub _symbol: String,
}

/// The price provider's tokens by mint address.
pub type CoingeckoData = AssetMap<CoingeckoToken>;

/// What a request for a historical price series names: the provider's
/// identifier of the token, the currency to price it in, and the span of time.
#[derive(Debug, PartialEq, Eq)]
pub struct GetCoinMarketChartParams {
    pub id: String,
    pub vs_currency: String,
    pub from: i64,
    pub to: i64,
}

/// Returns the price provider's identifier of the token with the given mint
/// address, if the provider knows the token.
pub fn get_coingecko_id(data: &CoingeckoData, mint: &str) -> (id: Option<String>)
    ensures
        match id {
            Some(id) => data@.contains_key(mint@) && id@ == data@[mint@].id@,
            None => !data@.contains_key(mint@),
        },
{
    match data.get(mint) {
        Some(token) => Some(token.id.clone()),
        None => None,
    }
}

/// The address of the historical price series of a token.
pub open spec fn endpoint_of(id: Seq<char>) -> Seq<char> {
    BASE_URL@ + "/coins/"@ + id + "/market_chart/range"@
}

/// The address to ask for the historical price series of the token with the
/// given identifier.
pub fn market_chart_endpoint(id: &str) -> (endpoint: String)
    ensures
        endpoint@ == endpoint_of(id@),
{
    String::from_str(BASE_URL).concat("/coins/").concat(id).concat("/market_chart/range")
}

/// The parameters to send with a request for a historical price series: the
/// currency, the span's two ends written as numbers, and the key if there is
/// one.
pub fn market_chart_query(params: &GetCoinMarketChartParams, api_key: &Option<String>) -> (query:
    Vec<(String, String)>)
    ensures
        query@.len() == (if api_key.is_some() {
            4int
        } else {
            3int
        }),
        query@[0].0@ == "vs_currency"@,
        query@[0].1@ == params.vs_currency@,
        query@[1].0@ == "from"@,
        to_string_from_display_ensures::<i64>(&params.from, query@[1].1),
        query@[2].0@ == "to"@,
        to_string_from_display_ensures::<i64>(&params.to, query@[2].1),
        api_key matches Some(key) ==> query@[3].0@ == "x_cg_demo_api_key"@ && query@[3].1@ == key@,
{
    let mut query: Vec<(String, String)> = Vec::new();
    query.push((String::from_str("vs_currency"), params.vs_currency.clone()));
    query.push((String::from_str("from"), params.from.to_string()));
    query.push((String::from_str("to"), params.to.to_string()));
    if let Some(key) = api_key {
        query.push((String::from_str("x_cg_demo_api_key"), key.clone()));
    }
    query
}

/// The sample that a pair of the provider's answer stands for: a missing time
/// reads as zero, and so does a missing price.
pub open spec fn sample_of(raw: (Option<u64>, Option<Decimal>)) -> PricePoint {
    PricePoint {
        timestamp: match raw.0 {
            Some(timestamp) => timestamp,
            None => 0,
        },
        price: match raw.1 {
            Some(price) => price,
            None => Decimal::zero_spec(),
        },
    }
}

/// Reads the pairs of the provider's answer as a price series.
pub fn price_points(raw: &Vec<(Option<u64>, Option<Decimal>)>) -> (series: Vec<PricePoint>)
    ensures
        series@ == raw@.map_values(|pair: (Option<u64>, Option<Decimal>)| sample_of(pair)),
{
    let mut series: Vec<PricePoint> = Vec::new();
    let mut i: usize = 0;
    while i < raw.len()
        invariant
            i <= raw@.len(),
            series@ == raw@.take(i as int).map_values(
                |pair: (Option<u64>, Option<Decimal>)| sample_of(pair),
            ),
        decreases raw@.len() - i,
    {
        let pair = raw[i];
        let timestamp = match pair.0 {
            Some(timestamp) => timestamp,
            None => 0,
        };
        let price = match pair.1 {
            Some(price) => price,
            None => Decimal::zero(),
        };
        series.push(PricePoint { timestamp, price });
        assert(series@ =~= raw@.take(i + 1).map_values(
            |pair: (Option<u64>, Option<Decimal>)| sample_of(pair),
        ));
        i += 1;
    }
    assert(raw@.take(i as int) =~= raw@);
    series
}

} // verus!
