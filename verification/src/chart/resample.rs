//! Resampling of irregular snapshots onto a fixed cadence.
//!
//! Buckets are laid out backwards from the present: the last boundary is the
//! present rounded down to the cadence, and there are as many boundaries as
//! the requested range, or as the wallet is old in periods if that is fewer.
//! Each bucket carries the balances last known before its boundary; idle
//! periods repeat the bucket before them, and one trailing bucket stands at
//! the present itself.

use crate::chart::types::{copy_balances, series_view, Balances, ChartData, ChartPoint, Timeframe};
use vstd::prelude::*;

verus! {

/// `amount / unit` rounded up, for a positive `unit`.
pub open spec fn ceil_div(amount: int, unit: int) -> int {
    -((-amount) / unit)
}

/// The number of periods, whole or begun, between a wallet's first
/// transaction and the present.
pub open spec fn wallet_age(first: int, cadence: int, now: int) -> int {
    ceil_div(now - first, cadence)
}

/// The number of boundaries of a chart: the requested range, cut down to the
/// wallet's age, and never negative.
pub open spec fn effective_range(first: int, cadence: int, range: int, now: int) -> int {
    let age = wallet_age(first, cadence, now);
    if age <= 0 {
        0
    } else if range <= age {
        range
    } else {
        age
    }
}

/// The present rounded down to a multiple of the cadence.
pub open spec fn aligned_now(cadence: int, now: int) -> int {
    (now / cadence) * cadence
}

/// The first boundary of a chart.
pub open spec fn chart_start(first: int, cadence: int, range: int, now: int) -> int {
    aligned_now(cadence, now) - effective_range(first, cadence, range, now) * cadence
}

/// The index, at or after `from`, of the first snapshot that is not older
/// than `boundary`; the number of snapshots if there is none.
pub open spec fn first_reaching(snapshots: Seq<ChartPoint>, boundary: int, from: int) -> int
    decreases snapshots.len() - from,
{
    if from < 0 || from >= snapshots.len() {
        snapshots.len() as int
    } else if snapshots[from].timestamp >= boundary {
        from
    } else {
        first_reaching(snapshots, boundary, from + 1)
    }
}

/// The balances known at `boundary`: those of the snapshot just before the
/// first one that reaches the boundary, or of the very first snapshot if that
/// one already reaches it. Nothing is known once every snapshot is older than
/// the boundary.
pub open spec fn known_balances(snapshots: Seq<ChartPoint>, boundary: int) -> Option<Balances> {
    let j = first_reaching(snapshots, boundary, 0);
    if j >= snapshots.len() {
        None
    } else if j > 0 {
        Some(snapshots[j - 1].balances)
    } else {
        Some(snapshots[0].balances)
    }
}

/// The buckets of the first `count` boundaries. A boundary at which balances
/// are known gets a bucket with them; a later one repeats the bucket before
/// it; a boundary with neither gets no bucket.
pub open spec fn aligned_buckets(
    snapshots: Seq<ChartPoint>,
    start: int,
    cadence: int,
    count: nat,
) -> Seq<ChartPoint>
    decreases count,
{
    if count == 0 {
        Seq::empty()
    } else {
        let earlier = aligned_buckets(snapshots, start, cadence, (count - 1) as nat);
        let boundary = start + (count - 1) * cadence;
        match known_balances(snapshots, boundary) {
            Some(balances) => earlier.push(ChartPoint { timestamp: boundary, balances }),
            None => if earlier.len() > 0 {
                earlier.push(ChartPoint { timestamp: boundary, balances: earlier.last().balances })
            } else {
                earlier
            },
        }
    }
}

/// The chart of a wallet: the aligned buckets and, if there is any, one more
/// at the present that repeats the last of them.
pub open spec fn filtered_states(
    snapshots: Seq<ChartPoint>,
    cadence: int,
    range: int,
    now: int,
) -> Seq<ChartPoint> {
    if snapshots.len() == 0 {
        Seq::empty()
    } else {
        let first = snapshots[0].timestamp;
        let count = effective_range(first, cadence, range, now);
        let start = chart_start(first, cadence, range, now);
        let buckets = aligned_buckets(snapshots, start, cadence, count as nat);
        if buckets.len() > 0 {
            buckets.push(ChartPoint { timestamp: now, balances: buckets.last().balances })
        } else {
            buckets
        }
    }
}

/// A search that starts behind snapshots which are all older than the
/// boundary finds what a search from the front finds.
pub proof fn lemma_first_reaching_from(snapshots: Seq<ChartPoint>, boundary: int, from: int)
    requires
        0 <= from <= snapshots.len(),
        forall|k: int| 0 <= k < from ==> (#[trigger] snapshots[k]).timestamp < boundary,
    ensures
        first_reaching(snapshots, boundary, 0) == first_reaching(snapshots, boundary, from),
    decreases from,
{
    if from > 0 {
        lemma_first_reaching_from(snapshots, boundary, from - 1);
    }
}

/// What a search finds: an index within bounds whose snapshot reaches the
/// boundary, behind snapshots that do not; or the end, with no snapshot from
/// `from` on reaching it.
pub proof fn lemma_first_reaching(snapshots: Seq<ChartPoint>, boundary: int, from: int)
    requires
        0 <= from <= snapshots.len(),
    ensures
        from <= first_reaching(snapshots, boundary, from) <= snapshots.len(),
        first_reaching(snapshots, boundary, from) < snapshots.len() ==> snapshots[first_reaching(
            snapshots,
            boundary,
            from,
        )].timestamp >= boundary,
        forall|k: int|
            from <= k < first_reaching(snapshots, boundary, from) ==> (
            #[trigger] snapshots[k]).timestamp < boundary,
    decreases snapshots.len() - from,
{
    if from < snapshots.len() && snapshots[from].timestamp < boundary {
        lemma_first_reaching(snapshots, boundary, from + 1);
    }
}

/// `amount / unit` rounded down.
fn floor_div(amount: i128, unit: i128) -> (quotient: i128)
    requires
        unit > 0,
        -0x1_0000_0000_0000_0000_0000 < amount < 0x1_0000_0000_0000_0000_0000,
    ensures
        quotient == amount / unit,
        -0x1_0000_0000_0000_0000_0000 <= quotient <= 0x1_0000_0000_0000_0000_0000,
{
    assert(-0x1_0000_0000_0000_0000_0000 <= amount / unit <= 0x1_0000_0000_0000_0000_0000)
        by (nonlinear_arith)
        requires
            unit > 0,
            -0x1_0000_0000_0000_0000_0000 < amount < 0x1_0000_0000_0000_0000_0000,
    ;
    if amount >= 0 {
        amount / unit
    } else {
        let positive = -amount;
        let q = positive / unit;
        let r = positive % unit;
        proof {
            assert(positive == unit * q + r && 0 <= r < unit) by (nonlinear_arith)
                requires
                    positive >= 0,
                    unit > 0,
                    q == positive / unit,
                    r == positive % unit,
            ;
            assert(amount / unit == (if r == 0 {
                -q
            } else {
                -q - 1
            })) by (nonlinear_arith)
                requires
                    amount == -positive,
                    positive == unit * q + r,
                    0 <= r < unit,
                    unit > 0,
            ;
        }
        if r == 0 {
            -q
        } else {
            -q - 1
        }
    }
}

/// Bounds on the layout of a chart with an hourly or daily cadence.
proof fn lemma_layout_bounds(first: int, cadence: int, range: int, now: int)
    requires
        cadence == 3600 || cadence == 86400,
        i64::MIN <= first <= i64::MAX,
        i64::MIN <= now <= i64::MAX,
        0 <= range <= u32::MAX,
    ensures
        0 <= effective_range(first, cadence, range, now) <= range,
        now - cadence < aligned_now(cadence, now) <= now,
        chart_start(first, cadence, range, now) + effective_range(first, cadence, range, now)
            * cadence == aligned_now(cadence, now),
        -0x1_0000_0000_0000_0000_0000 < chart_start(first, cadence, range, now) <= now,
{
    let count = effective_range(first, cadence, range, now);
    assert(0 <= count * cadence <= range * cadence) by (nonlinear_arith)
        requires
            0 <= count <= range,
            cadence > 0,
    ;
    assert(range * cadence <= u32::MAX * 86400) by (nonlinear_arith)
        requires
            0 <= range <= u32::MAX,
            0 < cadence <= 86400,
    ;
}

/// The chart's buckets have timestamps that fit 64 bits: where there is at
/// least one boundary, the first boundary is no earlier than the earliest time
/// there is.
pub open spec fn chart_is_representable(
    snapshots: Seq<ChartPoint>,
    cadence: int,
    range: int,
    now: int,
) -> bool {
    snapshots.len() > 0 && effective_range(snapshots[0].timestamp, cadence, range, now) > 0
        ==> chart_start(snapshots[0].timestamp, cadence, range, now) >= i64::MIN
}

/// The number of boundaries of a chart and its first boundary.
fn chart_layout(first: i64, timeframe: Timeframe, range: u32, now: i64) -> (layout: (u32, i128))
    ensures
        layout.0 == effective_range(first as int, timeframe.seconds(), range as int, now as int),
        layout.1 == chart_start(first as int, timeframe.seconds(), range as int, now as int),
        layout.1 + layout.0 * timeframe.seconds() <= now,
{
    let cadence: i128 = Timeframe::to_seconds(timeframe) as i128;
    let age: i128 = -floor_div(first as i128 - now as i128, cadence);
    let count: u32 = if age <= 0 {
        0
    } else if range as i128 <= age {
        range
    } else {
        age as u32
    };
    proof {
        lemma_layout_bounds(first as int, cadence as int, range as int, now as int);
    }
    let start: i128 = floor_div(now as i128, cadence) * cadence - (count as i128) * cadence;
    (count, start)
}

/// Whether the chart of these snapshots can be made: whether the timestamps
/// of its buckets fit 64 bits.
pub fn chart_fits(states: &Vec<ChartData>, timeframe: Timeframe, range: u32, now: i64) -> (fits:
    bool)
    ensures
        fits == chart_is_representable(
            series_view(states@),
            timeframe.seconds(),
            range as int,
            now as int,
        ),
{
    if states.len() == 0 {
        return true;
    }
    let (count, start) = chart_layout(states[0].timestamp, timeframe, range, now);
    count == 0 || start >= i64::MIN as i128
}

/// Resamples snapshots onto the cadence of `timeframe`, over at most `range`
/// periods back from `now`.
///
/// The first boundary has to be a time that fits the timestamp of a bucket;
/// it does whenever the first snapshot is not within two periods of the
/// earliest time there is.
pub fn filter_balance_states(
    states: &Vec<ChartData>,
    timeframe: Timeframe,
    range: u32,
    now: i64,
) -> (filtered: Vec<ChartData>)
    requires
        chart_is_representable(
            series_view(states@),
            timeframe.seconds(),
            range as int,
            now as int,
        ),
    ensures
        series_view(filtered@) == filtered_states(
            series_view(states@),
            timeframe.seconds(),
            range as int,
            now as int,
        ),
{
    let mut filtered: Vec<ChartData> = Vec::new();
    if states.len() == 0 {
        assert(series_view(filtered@) =~= Seq::<ChartPoint>::empty());
        return filtered;
    }
    let ghost snapshots = series_view(states@);
    let cadence: i128 = Timeframe::to_seconds(timeframe) as i128;
    let (count, start) = chart_layout(states[0].timestamp, timeframe, range, now);
    assert(series_view(filtered@) =~= aligned_buckets(snapshots, start as int, cadence as int, 0));

    let mut cursor: usize = 0;
    let mut i: u32 = 0;
    while i < count
        invariant
            i <= count,
            cadence == 3600 || cadence == 86400,
            snapshots == series_view(states@),
            snapshots.len() == states@.len(),
            count > 0 ==> i64::MIN <= start,
            start + count * cadence <= now,
            cursor <= states@.len(),
            i > 0 ==> forall|k: int|
                0 <= k < cursor ==> (#[trigger] snapshots[k]).timestamp < start + (i - 1) * cadence,
            i == 0 ==> cursor == 0,
            series_view(filtered@) == aligned_buckets(snapshots, start as int, cadence as int, i as nat),
        decreases count - i,
    {
        assert(0 <= i * cadence < count * cadence) by (nonlinear_arith)
            requires
                0 <= i < count,
                cadence > 0,
        ;
        assert((i + 1) * cadence == i * cadence + cadence) by (nonlinear_arith);
        let boundary: i128 = start + (i as i128) * cadence;
        let ghost earlier = series_view(filtered@);
        proof {
            assert forall|k: int| 0 <= k < cursor implies (#[trigger] snapshots[k]).timestamp
                < boundary by {
                if i > 0 {
                    assert((i - 1) * cadence == i * cadence - cadence) by (nonlinear_arith);
                }
            }
            lemma_first_reaching_from(snapshots, boundary as int, cursor as int);
            lemma_first_reaching(snapshots, boundary as int, cursor as int);
        }
        let mut j: usize = cursor;
        while j < states.len() && (states[j].timestamp as i128) < boundary
            invariant
                cursor <= j <= states@.len(),
                snapshots == series_view(states@),
                first_reaching(snapshots, boundary as int, cursor as int) == first_reaching(
                    snapshots,
                    boundary as int,
                    j as int,
                ),
            decreases states@.len() - j,
        {
            j += 1;
        }
        assert(j == first_reaching(snapshots, boundary as int, 0));
        if j < states.len() {
            let source = if j > 0 {
                &states[j - 1]
            } else {
                &states[j]
            };
            filtered.push(
                ChartData { timestamp: boundary as i64, balances: copy_balances(&source.balances) },
            );
            cursor = j;
            assert(series_view(filtered@) =~= earlier.push(
                ChartPoint {
                    timestamp: boundary as int,
                    balances: known_balances(snapshots, boundary as int).unwrap(),
                },
            ));
        } else if filtered.len() > 0 {
            let carried = copy_balances(&filtered[filtered.len() - 1].balances);
            filtered.push(ChartData { timestamp: boundary as i64, balances: carried });
            assert(series_view(filtered@) =~= earlier.push(
                ChartPoint { timestamp: boundary as int, balances: earlier.last().balances },
            ));
        }
        i += 1;
    }
    if filtered.len() > 0 {
        let ghost buckets = series_view(filtered@);
        let carried = copy_balances(&filtered[filtered.len() - 1].balances);
        filtered.push(ChartData { timestamp: now, balances: carried });
        assert(series_view(filtered@) =~= buckets.push(
            ChartPoint { timestamp: now as int, balances: buckets.last().balances },
        ));
    }
    filtered
}

} // verus!
