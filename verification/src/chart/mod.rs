//! The chart pipeline: fold transactions into snapshots, resample the
//! snapshots onto a fixed cadence, and line the buckets up with prices.

pub mod laws;
pub mod prices;
pub mod request;
pub mod resample;
pub mod states;
pub mod types;

use crate::enums::Error;
use crate::transactions::types::{transactions_view, ParsedTransaction};
use resample::{chart_fits, chart_is_representable, filtered_states};
use states::balance_states;
use types::series_view;
use vstd::prelude::*;

pub use resample::filter_balance_states;
pub use states::get_balance_states;
pub use types::{ChartData, Timeframe};

verus! {

/// The chart of a wallet's balances: its transactions folded into snapshots
/// and the snapshots resampled onto the cadence of `timeframe`, over at most
/// `range` periods back from `now`.
///
/// A chart whose timestamps would not fit 64 bits is refused as an invalid
/// timeframe.
pub fn get_chart_data(
    txs: &Vec<ParsedTransaction>,
    range: u32,
    timeframe: Timeframe,
    now: i64,
) -> (chart: Result<Vec<ChartData>, Error>)
    ensures
        match chart {
            Ok(buckets) => {
                &&& chart_is_representable(
                    balance_states(transactions_view(txs@)),
                    timeframe.seconds(),
                    range as int,
                    now as int,
                )
                &&& series_view(buckets@) == filtered_states(
                    balance_states(transactions_view(txs@)),
                    timeframe.seconds(),
                    range as int,
                    now as int,
                )
            },
            Err(error) => {
                &&& error == Error::InvalidTimeframe
                &&& !chart_is_representable(
                    balance_states(transactions_view(txs@)),
                    timeframe.seconds(),
                    range as int,
                    now as int,
                )
            },
        },
{
    let balance_states = get_balance_states(txs);
    if !chart_fits(&balance_states, timeframe, range, now) {
        return Err(Error::InvalidTimeframe);
    }
    Ok(filter_balance_states(&balance_states, timeframe, range, now))
}

} // verus!
