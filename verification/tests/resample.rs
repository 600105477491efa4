use solana_mirror::asset_map::AssetMap;
use solana_mirror::chart::resample::chart_fits;
use solana_mirror::chart::types::{ChartData, Timeframe};
use solana_mirror::chart::{filter_balance_states, get_chart_data};
use solana_mirror::decimal::Decimal;
use solana_mirror::enums::Error;
use solana_mirror::transactions::types::{BalanceChange, ParsedTransaction};
use solana_mirror::types::FormattedAmount;

const DAY: i64 = 86400;
const HOUR: i64 = 3600;

fn amount(formatted: f64) -> FormattedAmount {
    FormattedAmount {
        amount: format!("{}", formatted),
        formatted: Decimal::from_bits(formatted.to_bits()),
    }
}

fn snapshot(time: i64, holdings: Vec<(&str, f64)>) -> ChartData {
    let mut balances = AssetMap::new();
    for (asset, formatted) in holdings {
        balances.insert(asset.to_string(), amount(formatted));
    }
    ChartData { timestamp: time, balances }
}

fn held(state: &ChartData, asset: &str) -> Option<f64> {
    state.balances.get(asset).map(|a| f64::from_bits(a.formatted.to_bits()))
}

fn times(chart: &Vec<ChartData>) -> Vec<i64> {
    chart.iter().map(|b| b.timestamp).collect()
}

#[test]
fn one_snapshot_is_carried_up_to_now() {
    let states = vec![snapshot(0, vec![("A", 1.0)])];
    let chart = filter_balance_states(&states, Timeframe::Day, 3, 3 * DAY);
    assert_eq!(times(&chart), vec![0, 86400, 172800, 259200]);
    for bucket in &chart {
        assert_eq!(bucket.balances.len(), 1);
        assert_eq!(held(bucket, "A"), Some(1.0));
    }
}

#[test]
fn no_snapshots_give_no_buckets() {
    let chart = filter_balance_states(&Vec::new(), Timeframe::Hour, 10, 1_000_000);
    assert!(chart.is_empty());
}

#[test]
fn a_range_of_zero_gives_no_buckets() {
    let states = vec![snapshot(0, vec![("A", 1.0)])];
    let chart = filter_balance_states(&states, Timeframe::Day, 0, 3 * DAY);
    assert!(chart.is_empty());
}

#[test]
fn a_wallet_from_the_future_gives_no_buckets() {
    let states = vec![snapshot(10 * DAY, vec![("A", 1.0)])];
    let chart = filter_balance_states(&states, Timeframe::Day, 3, 0);
    assert!(chart.is_empty());
    let chart = filter_balance_states(&states, Timeframe::Day, 3, 10 * DAY);
    assert!(chart.is_empty());
}

#[test]
fn a_wallet_idle_for_longer_than_the_range_gives_no_buckets() {
    let states = vec![snapshot(0, vec![("A", 1.0)])];
    let chart = filter_balance_states(&states, Timeframe::Day, 3, 10 * DAY);
    assert!(chart.is_empty());
}

#[test]
fn the_range_is_cut_down_to_the_age_of_the_wallet() {
    let states = vec![snapshot(5 * DAY + 100, vec![("A", 1.0)])];
    let now = 7 * DAY + 50;
    let chart = filter_balance_states(&states, Timeframe::Day, 200, now);
    assert_eq!(times(&chart), vec![5 * DAY, 6 * DAY, now]);
    for bucket in &chart {
        assert!(bucket.timestamp >= 5 * DAY);
        assert_eq!(held(bucket, "A"), Some(1.0));
    }
}

#[test]
fn the_first_bucket_may_lie_one_period_before_the_first_transaction() {
    let states = vec![snapshot(100, vec![("A", 1.0)])];
    let now = 3 * DAY + 200;
    let chart = filter_balance_states(&states, Timeframe::Day, 10, now);
    assert_eq!(times(&chart), vec![-DAY, 0, DAY, 2 * DAY, now]);
}

#[test]
fn buckets_carry_the_state_before_their_boundary() {
    let states = vec![
        snapshot(1000, vec![("A", 1.0)]),
        snapshot(5000, vec![("A", 2.0)]),
        snapshot(9000, vec![("A", 3.0)]),
    ];
    let now = 4 * HOUR + 100;
    let chart = filter_balance_states(&states, Timeframe::Hour, 10, now);
    assert_eq!(times(&chart), vec![0, 3600, 7200, 10800, now]);
    let amounts: Vec<Option<f64>> = chart.iter().map(|b| held(b, "A")).collect();
    assert_eq!(amounts, vec![Some(1.0), Some(1.0), Some(2.0), Some(2.0), Some(2.0)]);
}

#[test]
fn a_snapshot_on_a_boundary_counts_from_the_next_boundary_on() {
    let states = vec![snapshot(0, vec![("A", 1.0)]), snapshot(HOUR, vec![("A", 2.0)])];
    let chart = filter_balance_states(&states, Timeframe::Hour, 5, 3 * HOUR);
    assert_eq!(times(&chart), vec![0, HOUR, 2 * HOUR, 3 * HOUR]);
    let amounts: Vec<Option<f64>> = chart.iter().map(|b| held(b, "A")).collect();
    assert_eq!(amounts, vec![Some(1.0), Some(1.0), Some(1.0), Some(1.0)]);
}

#[test]
fn the_chart_is_no_longer_than_the_range_plus_one_and_evenly_spaced() {
    let states = vec![
        snapshot(2 * HOUR + 7, vec![("A", 1.0)]),
        snapshot(30 * HOUR, vec![("B", 2.0)]),
    ];
    let now = 100 * HOUR + 1234;
    for range in [1u32, 2, 5, 50, 98, 99, 100, 500] {
        let chart = filter_balance_states(&states, Timeframe::Hour, range, now);
        let age = 99u32;
        assert!(chart.len() as u32 <= range.min(age) + 1);
        if !chart.is_empty() {
            assert_eq!(chart.len() as u32, range.min(age) + 1);
            assert_eq!(chart[chart.len() - 1].timestamp, now);
            for i in 0..chart.len() - 2 {
                assert_eq!(chart[i + 1].timestamp - chart[i].timestamp, HOUR);
            }
        }
    }
    assert!(filter_balance_states(&states, Timeframe::Hour, 50, now).is_empty());
    assert_eq!(filter_balance_states(&states, Timeframe::Hour, 71, now).len(), 72);
    assert_eq!(filter_balance_states(&states, Timeframe::Hour, 98, now).len(), 99);
    assert_eq!(filter_balance_states(&states, Timeframe::Hour, 500, now).len(), 100);
}

#[test]
fn the_trailing_bucket_follows_the_last_boundary() {
    let states = vec![snapshot(DAY, vec![("A", 1.0)])];
    let chart = filter_balance_states(&states, Timeframe::Day, 1, 2 * DAY);
    assert_eq!(times(&chart), vec![DAY, 2 * DAY]);
    let states = vec![snapshot(DAY + 1, vec![("A", 1.0)])];
    let chart = filter_balance_states(&states, Timeframe::Day, 5, 2 * DAY);
    assert_eq!(times(&chart), vec![DAY, 2 * DAY]);
}

#[test]
fn resampling_twice_gives_the_same_chart() {
    let states = vec![
        snapshot(1000, vec![("A", 1.0), ("B", 5.0)]),
        snapshot(5000, vec![("A", 2.0)]),
    ];
    let now = 9 * HOUR;
    let one = filter_balance_states(&states, Timeframe::Hour, 20, now);
    let other = filter_balance_states(&states, Timeframe::Hour, 20, now);
    assert_eq!(one.len(), other.len());
    for (a, b) in one.iter().zip(other.iter()) {
        assert_eq!(a.timestamp, b.timestamp);
        assert_eq!(a.balances.keys(), b.balances.keys());
        for key in a.balances.keys() {
            assert_eq!(a.balances.get(&key), b.balances.get(&key));
        }
    }
}

#[test]
fn times_before_the_epoch_round_down() {
    let states = vec![snapshot(-3 * HOUR - 10, vec![("A", 1.0)])];
    let now = -HOUR - 1;
    let chart = filter_balance_states(&states, Timeframe::Hour, 10, now);
    assert_eq!(times(&chart), vec![-5 * HOUR, -4 * HOUR, -3 * HOUR, now]);
}

#[test]
fn a_chart_at_the_edge_of_time_does_not_fit() {
    let states = vec![snapshot(i64::MIN, vec![("A", 1.0)])];
    assert!(!chart_fits(&states, Timeframe::Day, 5, i64::MIN + 10));
    assert!(chart_fits(&states, Timeframe::Day, 0, i64::MIN + 10));
    assert!(chart_fits(&states, Timeframe::Day, 5, i64::MIN));
    let states = vec![snapshot(0, vec![("A", 1.0)])];
    assert!(chart_fits(&states, Timeframe::Day, u32::MAX, i64::MAX));
    assert!(chart_fits(&Vec::new(), Timeframe::Hour, 5, 0));
}

#[test]
fn a_chart_is_made_from_transactions() {
    let mut first = AssetMap::new();
    first.insert("SOL".to_string(), BalanceChange { pre: amount(0.0), post: amount(5.0) });
    let mut second = AssetMap::new();
    second.insert("SOL".to_string(), BalanceChange { pre: amount(5.0), post: amount(0.0) });
    second.insert("USDC".to_string(), BalanceChange { pre: amount(0.0), post: amount(10.0) });
    let txs = vec![ParsedTransaction::new(100, first), ParsedTransaction::new(DAY + 200, second)];
    let chart = get_chart_data(&txs, 14, Timeframe::Day, 3 * DAY).unwrap();
    assert_eq!(times(&chart), vec![0, DAY, 2 * DAY, 3 * DAY]);
    assert_eq!(held(&chart[0], "SOL"), Some(5.0));
    assert_eq!(held(&chart[1], "SOL"), Some(5.0));
    assert_eq!(held(&chart[2], "SOL"), Some(5.0));
    assert_eq!(held(&chart[2], "USDC"), None);

    let edge = vec![ParsedTransaction::new(i64::MIN, AssetMap::new())];
    assert_eq!(
        get_chart_data(&edge, 14, Timeframe::Day, i64::MIN + 10).err(),
        Some(Error::InvalidTimeframe)
    );
}

#[test]
fn a_timeframe_has_its_seconds() {
    assert_eq!(Timeframe::to_seconds(Timeframe::Hour), 3600);
    assert_eq!(Timeframe::to_seconds(Timeframe::Day), 86400);
}
