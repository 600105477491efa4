//! The points of a chart and the cadence they are sampled at.

use crate::asset_map::AssetMap;
use crate::types::FormattedAmount;
use vstd::prelude::*;
use vstd::string::StrSliceExecFns;

verus! {

/// The balances of a wallet at one moment: a snapshot right after a
/// transaction, or a bucket of the resampled series.
pub struct ChartData {
    pub timestamp: i64,
    pub balances: AssetMap<FormattedAmount>,
}

/// The holdings of a wallet: for each asset held, its non-zero amount.
pub type Balances = Map<Seq<char>, FormattedAmount>;

/// A point of a series as the contracts see it.
pub ghost struct ChartPoint {
    pub timestamp: int,
    pub balances: Balances,
}

impl View for ChartData {
    type V = ChartPoint;

    open spec fn view(&self) -> ChartPoint {
        ChartPoint { timestamp: self.timestamp as int, balances: self.balances@ }
    }
}

/// The views of a series of points, in order.
pub open spec fn series_view(series: Seq<ChartData>) -> Seq<ChartPoint> {
    series.map_values(|point: ChartData| point@)
}

/// A copy of a balance mapping that holds the same amounts.
pub fn copy_balances(balances: &AssetMap<FormattedAmount>) -> (copy: AssetMap<FormattedAmount>)
    ensures
        copy@ == balances@,
        copy.entries() == balances.entries(),
{
    let copy = balances.clone();
    assert(copy.entries() =~= balances.entries());
    copy
}

impl Clone for ChartData {
    fn clone(&self) -> (copy: Self)
        ensures
            copy@ == self@,
    {
        ChartData { timestamp: self.timestamp, balances: copy_balances(&self.balances) }
    }
}

impl Default for ChartData {
    fn default() -> (point: Self)
        ensures
            point.timestamp == 0,
            point.balances@ == Map::<Seq<char>, FormattedAmount>::empty(),
    {
        ChartData { timestamp: 0, balances: AssetMap::new() }
    }
}

/// Seconds in an hour.
pub const HOUR_SECONDS: i64 = 3600;

/// Seconds in a day.
pub const DAY_SECONDS: i64 = 86400;

/// The cadence of a chart.
#[derive(Debug, Clone, Copy, PartialEq, Eq, Structural)]
pub enum Timeframe {
    Hour,
    Day,
}

/// The lowercase form of a text.
pub uninterp spec fn lowercase_of(text: Seq<char>) -> Seq<char>;

/// `str::to_lowercase` of the standard library: the result is the lowercase
/// form of the text, a function of the text alone. Nothing more is claimed of
/// it.
#[verifier::external_body]
fn to_lowercase(text: &str) -> (lowered: String)
    ensures
        lowered@ == lowercase_of(text@),
{
    text.to_lowercase()
}

impl Timeframe {
    /// The cadence that a unit letter names: `h` the hourly one, `d` the
    /// daily one.
    pub open spec fn of_unit(unit: Seq<char>) -> Option<Timeframe> {
        if unit == seq!['h'] {
            Some(Timeframe::Hour)
        } else if unit == seq!['d'] {
            Some(Timeframe::Day)
        } else {
            None
        }
    }

    /// The cadence named by a unit letter, which has to be in lowercase.
    pub fn from_unit(unit: &str) -> (timeframe: Option<Self>)
        ensures
            timeframe == Timeframe::of_unit(unit@),
    {
        if unit.unicode_len() != 1 {
            return None;
        }
        let letter = unit.get_char(0);
        if letter == 'h' {
            assert(unit@ =~= seq!['h']);
            Some(Timeframe::Hour)
        } else if letter == 'd' {
            assert(unit@ =~= seq!['d']);
            Some(Timeframe::Day)
        } else {
            None
        }
    }

    /// The cadence named by a unit letter in either case.
    pub fn new(timeframe: &str) -> (parsed: Option<Self>)
        ensures
            parsed == Timeframe::of_unit(lowercase_of(timeframe@)),
    {
        let lowered = to_lowercase(timeframe);
        Timeframe::from_unit(lowered.as_str())
    }

    /// The length of one period in seconds.
    pub open spec fn seconds(self) -> int {
        match self {
            Timeframe::Hour => HOUR_SECONDS as int,
            Timeframe::Day => DAY_SECONDS as int,
        }
    }

    /// The length in seconds of one period of the cadence.
    pub fn to_seconds(timeframe: Self) -> (seconds: i64)
        ensures
            seconds == timeframe.seconds(),
            seconds == 3600 || seconds == 86400,
    {
        match timeframe {
            Timeframe::Hour => HOUR_SECONDS,
            Timeframe::Day => DAY_SECONDS,
        }
    }
}

} // verus!
