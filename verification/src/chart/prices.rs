//! Lining the buckets of a chart up with prices.
//!
//! Prices come from two sources. Every bucket but the last is priced from a
//! historical series per asset, fetched once for the whole span of the chart
//! and indexed by how many samples lie between the chart's first bucket and
//! the bucket in question. The last bucket stands for the present and is
//! priced from live quotes. An asset without a series, a bucket beyond the end
//! of a series and an asset without a quote are priced at zero.

use crate::asset_map::{distinct_keys, lemma_map_of_domain, map_of, AssetMap};
use crate::chart::types::{series_view, ChartData, ChartPoint, DAY_SECONDS, HOUR_SECONDS};
use crate::decimal::Decimal;
use crate::types::FormattedAmountWithPrice;
use vstd::prelude::*;

verus! {

/// One sample of a historical price series.
#[derive(Debug, Clone, Copy, PartialEq, Eq, Structural)]
pub struct PricePoint {
    pub timestamp: u64,
    pub price: Decimal,
}

/// A bucket whose every holding has a price next to it.
pub struct PricedChartData {
    pub timestamp: i64,
    pub balances: AssetMap<FormattedAmountWithPrice>,
}

/// A priced bucket as the contracts see it.
pub ghost struct PricedPoint {
    pub timestamp: int,
    pub balances: Map<Seq<char>, FormattedAmountWithPrice>,
}

impl View for PricedChartData {
    type V = PricedPoint;

    open spec fn view(&self) -> PricedPoint {
        PricedPoint { timestamp: self.timestamp as int, balances: self.balances@ }
    }
}

/// The views of a series of priced buckets, in order.
pub open spec fn priced_view(series: Seq<PricedChartData>) -> Seq<PricedPoint> {
    series.map_values(|point: PricedChartData| point@)
}

/// The longest span, in days, that the historical source serves with hourly
/// samples.
pub const MAX_HOURLY_SPAN_DAYS: i64 = 90;

/// The span of time for which historical prices are looked up: from the
/// first bucket to the last. There is none for an empty chart, nor where the
/// two coincide.
pub open spec fn history_window(buckets: Seq<ChartPoint>) -> Option<(int, int)> {
    if buckets.len() == 0 || buckets.first().timestamp == buckets.last().timestamp {
        None
    } else {
        Some((buckets.first().timestamp, buckets.last().timestamp))
    }
}

/// The distance between two samples of a historical series over the given
/// span: a day if the span is longer than ninety days, an hour otherwise.
pub open spec fn granularity(from: int, to: int) -> int {
    if (to - from) / (DAY_SECONDS as int) > MAX_HOURLY_SPAN_DAYS as int {
        DAY_SECONDS as int
    } else {
        HOUR_SECONDS as int
    }
}

/// The position in a historical series of the sample for `timestamp`.
pub open spec fn sample_index(timestamp: int, from: int, to: int) -> int {
    (timestamp - from) / granularity(from, to)
}

/// The price that a historical series gives for `timestamp`: that of the
/// sample at the timestamp's position, or zero if the series has none there.
pub open spec fn sampled_price(series: Seq<PricePoint>, timestamp: int, from: int, to: int) -> Decimal {
    let index = sample_index(timestamp, from, to);
    if 0 <= index < series.len() {
        series[index].price
    } else {
        Decimal::zero_spec()
    }
}

/// The price of an asset in the bucket at position `index` of a chart.
pub open spec fn bucket_price(
    buckets: Seq<ChartPoint>,
    history: Map<Seq<char>, Vec<PricePoint>>,
    spot: Map<Seq<char>, Decimal>,
    index: int,
    asset: Seq<char>,
) -> Decimal {
    if index == buckets.len() - 1 {
        if spot.contains_key(asset) {
            spot[asset]
        } else {
            Decimal::zero_spec()
        }
    } else {
        match history_window(buckets) {
            Some((from, to)) => if history.contains_key(asset) {
                sampled_price(history[asset]@, buckets[index].timestamp, from, to)
            } else {
                Decimal::zero_spec()
            },
            None => Decimal::zero_spec(),
        }
    }
}

/// The bucket at position `index` with a price next to each holding.
pub open spec fn priced_bucket(
    buckets: Seq<ChartPoint>,
    history: Map<Seq<char>, Vec<PricePoint>>,
    spot: Map<Seq<char>, Decimal>,
    index: int,
) -> PricedPoint {
    PricedPoint {
        timestamp: buckets[index].timestamp,
        balances: Map::new(
            |asset: Seq<char>| buckets[index].balances.contains_key(asset),
            |asset: Seq<char>|
                FormattedAmountWithPrice {
                    amount: buckets[index].balances[asset],
                    price: bucket_price(buckets, history, spot, index, asset),
                },
        ),
    }
}

/// A chart with prices: bucket for bucket the chart it was made from.
pub open spec fn priced_chart(
    buckets: Seq<ChartPoint>,
    history: Map<Seq<char>, Vec<PricePoint>>,
    spot: Map<Seq<char>, Decimal>,
) -> Seq<PricedPoint> {
    Seq::new(buckets.len(), |index: int| priced_bucket(buckets, history, spot, index))
}

/// Some bucket of the chart holds the asset.
pub open spec fn holds_asset(buckets: Seq<ChartPoint>, asset: Seq<char>) -> bool {
    exists|b: int| 0 <= b < buckets.len() && (#[trigger] buckets[b]).balances.contains_key(asset)
}

/// The identifier occurs in the list.
pub open spec fn lists_asset(assets: Seq<String>, asset: Seq<char>) -> bool {
    exists|i: int| 0 <= i < assets.len() && (#[trigger] assets[i])@ == asset
}

/// No identifier occurs twice in the list.
pub open spec fn no_asset_twice(assets: Seq<String>) -> bool {
    forall|i: int, j: int|
        0 <= i < j < assets.len() ==> (#[trigger] assets[i])@ != (#[trigger] assets[j])@
}

/// The span for which historical prices have to be fetched, if any.
pub fn price_window(buckets: &Vec<ChartData>) -> (window: Option<(i64, i64)>)
    ensures
        match window {
            Some((from, to)) => history_window(series_view(buckets@)) == Some(
                (from as int, to as int),
            ),
            None => history_window(series_view(buckets@)).is_none(),
        },
{
    if buckets.len() == 0 {
        return None;
    }
    let from = buckets[0].timestamp;
    let to = buckets[buckets.len() - 1].timestamp;
    if from == to {
        None
    } else {
        Some((from, to))
    }
}

/// The distance in seconds between two samples of a series fetched for the
/// span from `from` to `to`.
pub fn price_granularity(from: i64, to: i64) -> (seconds: i64)
    ensures
        seconds == granularity(from as int, to as int),
        seconds == 3600 || seconds == 86400,
{
    let span: i128 = to as i128 - from as i128;
    if span >= (MAX_HOURLY_SPAN_DAYS as i128 + 1) * (DAY_SECONDS as i128) {
        DAY_SECONDS
    } else {
        HOUR_SECONDS
    }
}

/// The price that `series`, fetched for the span from `from` to `to`, gives
/// for `timestamp`.
pub fn historical_price(series: &Vec<PricePoint>, timestamp: i64, from: i64, to: i64) -> (price:
    Decimal)
    ensures
        price == sampled_price(series@, timestamp as int, from as int, to as int),
{
    let step: i128 = price_granularity(from, to) as i128;
    let offset: i128 = timestamp as i128 - from as i128;
    if offset < 0 {
        assert(offset / step < 0) by (nonlinear_arith)
            requires
                offset < 0,
                step > 0,
        ;
        return Decimal::zero();
    }
    let index: i128 = offset / step;
    if index < series.len() as i128 {
        series[index as usize].price
    } else {
        Decimal::zero()
    }
}

/// Whether the identifier is in the list.
fn is_listed(assets: &Vec<String>, asset: &String) -> (listed: bool)
    ensures
        listed == lists_asset(assets@, asset@),
{
    let mut i: usize = 0;
    while i < assets.len()
        invariant
            i <= assets@.len(),
            forall|k: int| 0 <= k < i ==> (#[trigger] assets@[k])@ != asset@,
        decreases assets@.len() - i,
    {
        if assets[i] == *asset {
            return true;
        }
        i += 1;
    }
    false
}

/// The assets held in at least one bucket, each listed once.
pub fn distinct_assets(buckets: &Vec<ChartData>) -> (assets: Vec<String>)
    ensures
        no_asset_twice(assets@),
        forall|asset: Seq<char>|
            lists_asset(assets@, asset) <==> holds_asset(series_view(buckets@), asset),
{
    let ghost chart = series_view(buckets@);
    let mut assets: Vec<String> = Vec::new();
    let mut b: usize = 0;
    while b < buckets.len()
        invariant
            b <= buckets@.len(),
            chart == series_view(buckets@),
            no_asset_twice(assets@),
            forall|asset: Seq<char>|
                lists_asset(assets@, asset) <==> holds_asset(chart.take(b as int), asset),
        decreases buckets@.len() - b,
    {
        let held = &buckets[b].balances;
        let count = held.len();
        let ghost before = assets@;
        let mut e: usize = 0;
        while e < count
            invariant
                e <= count,
                b < buckets@.len(),
                chart == series_view(buckets@),
                held == &buckets@[b as int].balances,
                count == held.entries().len(),
                no_asset_twice(assets@),
                forall|asset: Seq<char>|
                    lists_asset(assets@, asset) <==> (holds_asset(chart.take(b as int), asset)
                        || exists|k: int|
                        0 <= k < e && (#[trigger] held.entries()[k]).0 == asset),
            decreases count - e,
        {
            let key = held.key_at(e);
            let ghost listed = assets@;
            assert forall|asset: Seq<char>| lists_asset(listed, asset) <==> (holds_asset(
                chart.take(b as int),
                asset,
            ) || exists|k: int| 0 <= k < e && (#[trigger] held.entries()[k]).0 == asset) by {}
            if !is_listed(&assets, key) {
                assets.push(key.clone());
                assert(assets@.drop_last() =~= listed);
                assert forall|asset: Seq<char>| lists_asset(assets@, asset) <==> (lists_asset(
                    listed,
                    asset,
                ) || asset == key@) by {
                    if lists_asset(assets@, asset) {
                        let i = choose|i: int| 0 <= i < assets@.len() && (#[trigger] assets@[i])@ == asset;
                        if i < listed.len() {
                            assert(listed[i]@ == asset);
                        }
                    }
                    if lists_asset(listed, asset) {
                        let i = choose|i: int| 0 <= i < listed.len() && (#[trigger] listed[i])@ == asset;
                        assert(assets@[i]@ == asset);
                    }
                    if asset == key@ {
                        assert(assets@[assets@.len() - 1]@ == asset);
                    }
                }
                assert(no_asset_twice(assets@)) by {
                    assert forall|i: int, j: int| 0 <= i < j < assets@.len() implies (
                    #[trigger] assets@[i])@ != (#[trigger] assets@[j])@ by {
                        if j < listed.len() {
                            assert(listed[i]@ != listed[j]@);
                        } else {
                            assert(listed[i]@ != key@);
                        }
                    }
                }
            }
            assert forall|asset: Seq<char>| lists_asset(assets@, asset) <==> (lists_asset(
                listed,
                asset,
            ) || asset == key@) by {}
            assert forall|asset: Seq<char>| lists_asset(assets@, asset) <==> (holds_asset(
                chart.take(b as int),
                asset,
            ) || exists|k: int| 0 <= k < e + 1 && (#[trigger] held.entries()[k]).0 == asset) by {
                assert(lists_asset(listed, asset) <==> (holds_asset(chart.take(b as int), asset)
                    || exists|k: int| 0 <= k < e && (#[trigger] held.entries()[k]).0 == asset));
                if exists|k: int| 0 <= k < e + 1 && (#[trigger] held.entries()[k]).0 == asset {
                    let k = choose|k: int| 0 <= k < e + 1 && (#[trigger] held.entries()[k]).0 == asset;
                    if k < e {
                        assert(held.entries()[k].0 == asset);
                    }
                }
                if asset == key@ {
                    assert(held.entries()[e as int].0 == asset);
                }
            }
            e += 1;
        }
        proof {
            assert forall|asset: Seq<char>| lists_asset(assets@, asset) <==> holds_asset(
                chart.take(b + 1),
                asset,
            ) by {
                lemma_map_of_domain(held.entries(), asset);
                let longer = chart.take(b + 1);
                let shorter = chart.take(b as int);
                assert(longer[b as int].balances == held@);
                if holds_asset(longer, asset) {
                    let i = choose|i: int|
                        0 <= i < longer.len() && (#[trigger] longer[i]).balances.contains_key(asset);
                    if i < b {
                        assert(shorter[i].balances.contains_key(asset));
                    }
                }
                if holds_asset(shorter, asset) {
                    let i = choose|i: int|
                        0 <= i < shorter.len() && (#[trigger] shorter[i]).balances.contains_key(
                            asset,
                        );
                    assert(longer[i].balances.contains_key(asset));
                }
                if held@.contains_key(asset) {
                    assert(longer[b as int].balances.contains_key(asset));
                }
            }
        }
        b += 1;
    }
    assert(chart.take(b as int) =~= chart);
    assets
}

/// The assets held in the last bucket: those that need a live quote.
pub fn terminal_assets(buckets: &Vec<ChartData>) -> (assets: Vec<String>)
    ensures
        buckets@.len() == 0 ==> assets@.len() == 0,
        buckets@.len() > 0 ==> {
            &&& distinct_keys(buckets@.last().balances.entries())
            &&& assets@.len() == buckets@.last().balances.entries().len()
            &&& forall|i: int|
                0 <= i < assets@.len() ==> (#[trigger] assets@[i])@
                    == buckets@.last().balances.entries()[i].0
            &&& forall|asset: Seq<char>|
                lists_asset(assets@, asset) <==> buckets@.last().balances@.contains_key(asset)
        },
{
    if buckets.len() == 0 {
        return Vec::new();
    }
    let held = &buckets[buckets.len() - 1].balances;
    let assets = held.keys();
    proof {
        assert forall|asset: Seq<char>| lists_asset(assets@, asset) <==> held@.contains_key(
            asset,
        ) by {
            lemma_map_of_domain(held.entries(), asset);
            if lists_asset(assets@, asset) {
                let i = choose|i: int| 0 <= i < assets@.len() && (#[trigger] assets@[i])@ == asset;
                assert(held.entries()[i].0 == asset);
            }
            if held@.contains_key(asset) {
                let i = choose|i: int|
                    0 <= i < held.entries().len() && (#[trigger] held.entries()[i]).0 == asset;
                assert(assets@[i]@ == asset);
            }
        }
    }
    assets
}

/// What has to be fetched to price a chart.
pub struct PricePlan {
    /// The span to fetch historical series for, if any is to be fetched.
    pub window: Option<(i64, i64)>,
    /// The assets to fetch one historical series each for.
    pub history: Vec<String>,
    /// The assets to fetch one live quote each for.
    pub spot: Vec<String>,
}

/// Plans the fetches that price a chart: one historical series for each asset
/// held in any bucket, over the span from the first bucket to the last, unless
/// there is no such span; and one live quote for each asset held in the last
/// bucket.
pub fn plan_prices(buckets: &Vec<ChartData>) -> (plan: PricePlan)
    ensures
        match plan.window {
            Some((from, to)) => {
                &&& history_window(series_view(buckets@)) == Some((from as int, to as int))
                &&& no_asset_twice(plan.history@)
                &&& forall|asset: Seq<char>|
                    lists_asset(plan.history@, asset) <==> holds_asset(
                        series_view(buckets@),
                        asset,
                    )
            },
            None => history_window(series_view(buckets@)).is_none() && plan.history@.len() == 0,
        },
        no_asset_twice(plan.spot@),
        forall|asset: Seq<char>|
            lists_asset(plan.spot@, asset) <==> buckets@.len() > 0
                && buckets@.last().balances@.contains_key(asset),
{
    let window = price_window(buckets);
    let history = match window {
        Some(_) => distinct_assets(buckets),
        None => Vec::new(),
    };
    let spot = terminal_assets(buckets);
    proof {
        if buckets@.len() > 0 {
            let held = buckets@.last().balances;
            assert forall|i: int, j: int| 0 <= i < j < spot@.len() implies (#[trigger] spot@[i])@ != (
            #[trigger] spot@[j])@ by {
                assert(held.entries()[i].0 != held.entries()[j].0);
            }
        }
    }
    PricePlan { window, history, spot }
}

/// Puts a price next to every holding of every bucket: for the last bucket
/// the live quote in `spot`, for the others the sample that the asset's series
/// in `history` has for the bucket's time. What has no price is priced at
/// zero.
pub fn join_prices(
    buckets: &Vec<ChartData>,
    history: &AssetMap<Vec<PricePoint>>,
    spot: &AssetMap<Decimal>,
) -> (priced: Vec<PricedChartData>)
    ensures
        priced_view(priced@) == priced_chart(series_view(buckets@), history@, spot@),
{
    let ghost chart = series_view(buckets@);
    let window = price_window(buckets);
    let mut priced: Vec<PricedChartData> = Vec::new();
    let mut b: usize = 0;
    while b < buckets.len()
        invariant
            b <= buckets@.len(),
            chart == series_view(buckets@),
            match window {
                Some((from, to)) => history_window(chart) == Some((from as int, to as int)),
                None => history_window(chart).is_none(),
            },
            priced@.len() == b,
            forall|i: int|
                0 <= i < b ==> (#[trigger] priced@[i])@ == priced_bucket(chart, history@, spot@, i),
        decreases buckets@.len() - b,
    {
        let bucket = &buckets[b];
        let last = b == buckets.len() - 1;
        let count = bucket.balances.len();
        let mut balances: AssetMap<FormattedAmountWithPrice> = AssetMap::new();
        let mut e: usize = 0;
        while e < count
            invariant
                e <= count,
                b < buckets@.len(),
                chart == series_view(buckets@),
                bucket == &buckets@[b as int],
                last == (b == buckets@.len() - 1),
                count == bucket.balances.entries().len(),
                match window {
                    Some((from, to)) => history_window(chart) == Some((from as int, to as int)),
                    None => history_window(chart).is_none(),
                },
                forall|asset: Seq<char>|
                    balances@.contains_key(asset) <==> map_of(
                        bucket.balances.entries().take(e as int),
                    ).contains_key(asset),
                forall|asset: Seq<char>| #[trigger]
                    balances@.contains_key(asset) ==> balances@[asset] == (
                    FormattedAmountWithPrice {
                        amount: map_of(bucket.balances.entries().take(e as int))[asset],
                        price: bucket_price(chart, history@, spot@, b as int, asset),
                    }),
            decreases count - e,
        {
            let key = bucket.balances.key_at(e);
            let amount = bucket.balances.value_at(e);
            let price = if last {
                match spot.get(key.as_str()) {
                    Some(quote) => *quote,
                    None => Decimal::zero(),
                }
            } else {
                match window {
                    Some((from, to)) => match history.get(key.as_str()) {
                        Some(series) => historical_price(series, bucket.timestamp, from, to),
                        None => Decimal::zero(),
                    },
                    None => Decimal::zero(),
                }
            };
            assert(price == bucket_price(chart, history@, spot@, b as int, key@));
            assert(bucket.balances.entries().take(e + 1).drop_last() =~= bucket.balances.entries().take(
                e as int,
            ));
            balances.insert(key.clone(), FormattedAmountWithPrice { amount: amount.clone(), price });
            e += 1;
        }
        assert(bucket.balances.entries().take(count as int) =~= bucket.balances.entries());
        assert(balances@ =~= priced_bucket(chart, history@, spot@, b as int).balances);
        priced.push(PricedChartData { timestamp: bucket.timestamp, balances });
        b += 1;
    }
    assert(priced_view(priced@) =~= priced_chart(chart, history@, spot@));
    priced
}

/// A bucket with its prices and the value of its holdings.
pub struct ChartDataWithPrice {
    pub timestamp: i64,
    pub balances: AssetMap<FormattedAmountWithPrice>,
    pub usd_value: Decimal,
}

/// A bucket reduced to its time and the value of its holdings.
#[derive(Debug, Clone, Copy, PartialEq, Eq, Structural)]
pub struct MinimalChartData {
    pub timestamp: i64,
    pub usd_value: Decimal,
}

/// A chart as it is handed out: with every bucket in full, or with every
/// bucket reduced to its time and value.
pub enum ChartResponse {
    Detailed(Vec<ChartDataWithPrice>),
    Minimal(Vec<MinimalChartData>),
}

/// The value of the bucket at position `index`: the one given for it, or
/// zero if none was given.
pub open spec fn value_at(usd_values: Seq<Decimal>, index: int) -> Decimal {
    if 0 <= index < usd_values.len() {
        usd_values[index]
    } else {
        Decimal::zero_spec()
    }
}

/// A copy of a priced balance mapping that holds the same amounts and prices.
pub fn copy_priced_balances(balances: &AssetMap<FormattedAmountWithPrice>) -> (copy: AssetMap<
    FormattedAmountWithPrice,
>)
    ensures
        copy@ == balances@,
        copy.entries() == balances.entries(),
{
    let copy = balances.clone();
    assert(copy.entries() =~= balances.entries());
    copy
}

/// Puts the value of its holdings next to every priced bucket and hands the
/// chart out in full if `detailed`, reduced to times and values otherwise.
pub fn value_chart(priced: &Vec<PricedChartData>, usd_values: &Vec<Decimal>, detailed: bool) -> (chart:
    ChartResponse)
    ensures
        match chart {
            ChartResponse::Detailed(buckets) => {
                &&& detailed
                &&& buckets@.len() == priced@.len()
                &&& forall|i: int|
                    0 <= i < buckets@.len() ==> {
                        &&& (#[trigger] buckets@[i]).timestamp == priced@[i].timestamp
                        &&& buckets@[i].balances@ == priced@[i].balances@
                        &&& buckets@[i].usd_value == value_at(usd_values@, i)
                    }
            },
            ChartResponse::Minimal(points) => {
                &&& !detailed
                &&& points@.len() == priced@.len()
                &&& forall|i: int|
                    0 <= i < points@.len() ==> {
                        &&& (#[trigger] points@[i]).timestamp == priced@[i].timestamp
                        &&& points@[i].usd_value == value_at(usd_values@, i)
                    }
            },
        },
{
    let mut buckets: Vec<ChartDataWithPrice> = Vec::new();
    let mut points: Vec<MinimalChartData> = Vec::new();
    let mut i: usize = 0;
    while i < priced.len()
        invariant
            i <= priced@.len(),
            detailed ==> buckets@.len() == i,
            !detailed ==> points@.len() == i,
            forall|k: int|
                0 <= k < buckets@.len() ==> {
                    &&& (#[trigger] buckets@[k]).timestamp == priced@[k].timestamp
                    &&& buckets@[k].balances@ == priced@[k].balances@
                    &&& buckets@[k].usd_value == value_at(usd_values@, k)
                },
            forall|k: int|
                0 <= k < points@.len() ==> {
                    &&& (#[trigger] points@[k]).timestamp == priced@[k].timestamp
                    &&& points@[k].usd_value == value_at(usd_values@, k)
                },
        decreases priced@.len() - i,
    {
        let usd_value = if i < usd_values.len() {
            usd_values[i]
        } else {
            Decimal::zero()
        };
        if detailed {
            buckets.push(
                ChartDataWithPrice {
                    timestamp: priced[i].timestamp,
                    balances: copy_priced_balances(&priced[i].balances),
                    usd_value,
                },
            );
        } else {
            points.push(MinimalChartData { timestamp: priced[i].timestamp, usd_value });
        }
        i += 1;
    }
    if detailed {
        ChartResponse::Detailed(buckets)
    } else {
        ChartResponse::Minimal(points)
    }
}

} // verus!
