//! What holds of every fold and of every resampling.

use crate::chart::resample::{
    aligned_buckets, aligned_now, chart_is_representable, chart_start, effective_range,
    filtered_states, first_reaching, known_balances, lemma_first_reaching, wallet_age,
};
use crate::chart::states::{balance_states, lemma_balance_states_len};
use crate::chart::types::{series_view, ChartData, ChartPoint, Timeframe};
use crate::transactions::types::TransactionView;
use vstd::arithmetic::div_mod::{lemma_fundamental_div_mod, lemma_mod_bound};
use vstd::prelude::*;

verus! {

/// An asset whose latest change in a transaction list left a zero amount is
/// not held in the last snapshot.
pub proof fn lemma_exited_asset_is_absent(
    transactions: Seq<TransactionView>,
    asset: Seq<char>,
    latest: int,
)
    requires
        0 <= latest < transactions.len(),
        transactions[latest].balances.contains_key(asset),
        transactions[latest].balances[asset].post.formatted.is_zero_spec(),
        forall|k: int|
            latest < k < transactions.len() ==> !(#[trigger] transactions[k]).balances.contains_key(
                asset,
            ),
    ensures
        balance_states(transactions).len() == transactions.len(),
        !balance_states(transactions).last().balances.contains_key(asset),
    decreases transactions.len(),
{
    lemma_balance_states_len(transactions);
    if latest < transactions.len() - 1 {
        let earlier = transactions.drop_last();
        assert forall|k: int| latest < k < earlier.len() implies !(
        #[trigger] earlier[k]).balances.contains_key(asset) by {
            assert(!transactions[k].balances.contains_key(asset));
        }
        lemma_exited_asset_is_absent(earlier, asset, latest);
        assert(!transactions[transactions.len() - 1].balances.contains_key(asset));
    }
}

/// An asset whose latest change in a transaction list left an amount other
/// than zero is held in the last snapshot with exactly that amount.
pub proof fn lemma_held_asset_is_present(
    transactions: Seq<TransactionView>,
    asset: Seq<char>,
    latest: int,
)
    requires
        0 <= latest < transactions.len(),
        transactions[latest].balances.contains_key(asset),
        !transactions[latest].balances[asset].post.formatted.is_zero_spec(),
        forall|k: int|
            latest < k < transactions.len() ==> !(#[trigger] transactions[k]).balances.contains_key(
                asset,
            ),
    ensures
        balance_states(transactions).last().balances.contains_key(asset),
        balance_states(transactions).last().balances[asset]
            == transactions[latest].balances[asset].post,
    decreases transactions.len(),
{
    lemma_balance_states_len(transactions);
    if latest < transactions.len() - 1 {
        let earlier = transactions.drop_last();
        assert forall|k: int| latest < k < earlier.len() implies !(
        #[trigger] earlier[k]).balances.contains_key(asset) by {
            assert(!transactions[k].balances.contains_key(asset));
        }
        lemma_held_asset_is_present(earlier, asset, latest);
        assert(!transactions[transactions.len() - 1].balances.contains_key(asset));
    }
}

/// No snapshot holds an asset with a zero amount: an asset that went to zero
/// was removed, not stored.
pub proof fn lemma_no_zero_holding(transactions: Seq<TransactionView>, i: int, asset: Seq<char>)
    requires
        0 <= i < transactions.len(),
        balance_states(transactions)[i].balances.contains_key(asset),
    ensures
        !balance_states(transactions)[i].balances[asset].formatted.is_zero_spec(),
    decreases transactions.len(),
{
    lemma_balance_states_len(transactions);
    let earlier = transactions.drop_last();
    let states = balance_states(transactions);
    let before = balance_states(earlier);
    lemma_balance_states_len(earlier);
    if i < transactions.len() - 1 {
        assert(states[i] == before[i]);
        lemma_no_zero_holding(earlier, i, asset);
    } else {
        let last = transactions.last();
        if !last.balances.contains_key(asset) {
            assert(before.len() > 0);
            assert(before.last().balances.contains_key(asset));
            lemma_no_zero_holding(earlier, i - 1, asset);
        }
    }
}

/// A boundary that is reached by some snapshot is reached, no later in the
/// list, for every earlier boundary too.
pub proof fn lemma_first_reaching_monotone(snapshots: Seq<ChartPoint>, earlier: int, later: int)
    requires
        earlier <= later,
    ensures
        first_reaching(snapshots, earlier, 0) <= first_reaching(snapshots, later, 0),
{
    lemma_first_reaching(snapshots, earlier, 0);
    lemma_first_reaching(snapshots, later, 0);
    let j = first_reaching(snapshots, later, 0);
    let i = first_reaching(snapshots, earlier, 0);
    if j < i {
        assert(snapshots[j].timestamp < earlier);
    }
}

/// The aligned buckets stand at the last of the boundaries, one after the
/// other: if there is a bucket at all, there is one for every boundary.
pub proof fn lemma_aligned_buckets_shape(
    snapshots: Seq<ChartPoint>,
    start: int,
    cadence: int,
    count: nat,
)
    requires
        cadence > 0,
    ensures
        aligned_buckets(snapshots, start, cadence, count).len() == 0 || aligned_buckets(
            snapshots,
            start,
            cadence,
            count,
        ).len() == count,
        aligned_buckets(snapshots, start, cadence, count).len() > 0 <==> count > 0
            && known_balances(snapshots, start).is_some(),
        forall|i: int|
            0 <= i < aligned_buckets(snapshots, start, cadence, count).len() ==> (
            #[trigger] aligned_buckets(snapshots, start, cadence, count)[i]).timestamp == start + i
                * cadence,
    decreases count,
{
    if count > 0 {
        let earlier = aligned_buckets(snapshots, start, cadence, (count - 1) as nat);
        let boundary = start + (count - 1) * cadence;
        lemma_aligned_buckets_shape(snapshots, start, cadence, (count - 1) as nat);
        assert(start <= boundary) by (nonlinear_arith)
            requires
                boundary == start + (count - 1) * cadence,
                count >= 1,
                cadence > 0,
        ;
        lemma_first_reaching_monotone(snapshots, start, boundary);
        if count == 1 {
            assert((count - 1) * cadence == 0) by (nonlinear_arith)
                requires
                    count == 1,
            ;
        }
    }
}

/// The snapshots are in ascending order of time.
pub open spec fn ascending(snapshots: Seq<ChartPoint>) -> bool {
    forall|a: int, b: int|
        0 <= a <= b < snapshots.len() ==> (#[trigger] snapshots[a]).timestamp <= (
        #[trigger] snapshots[b]).timestamp
}

/// Among snapshots in ascending order, the first one that reaches a boundary
/// parts those older than the boundary from those that are not: the balances
/// known at the boundary are those of the latest snapshot older than it.
pub proof fn lemma_first_reaching_parts_ascending(snapshots: Seq<ChartPoint>, boundary: int, k: int)
    requires
        ascending(snapshots),
        0 <= k < snapshots.len(),
    ensures
        k < first_reaching(snapshots, boundary, 0) <==> snapshots[k].timestamp < boundary,
{
    lemma_first_reaching(snapshots, boundary, 0);
    let j = first_reaching(snapshots, boundary, 0);
    if j <= k {
        assert(snapshots[j].timestamp <= snapshots[k].timestamp);
    }
}

/// What each aligned bucket carries: the balances known at its boundary, or,
/// where none are known there, what the bucket before it carries.
pub proof fn lemma_aligned_bucket_balances(
    snapshots: Seq<ChartPoint>,
    start: int,
    cadence: int,
    count: nat,
    i: int,
)
    requires
        cadence > 0,
        0 <= i < aligned_buckets(snapshots, start, cadence, count).len(),
    ensures
        match known_balances(snapshots, start + i * cadence) {
            Some(balances) => aligned_buckets(snapshots, start, cadence, count)[i].balances
                == balances,
            None => i > 0 && aligned_buckets(snapshots, start, cadence, count)[i].balances
                == aligned_buckets(snapshots, start, cadence, count)[i - 1].balances,
        },
    decreases count,
{
    let earlier = aligned_buckets(snapshots, start, cadence, (count - 1) as nat);
    lemma_aligned_buckets_shape(snapshots, start, cadence, count);
    lemma_aligned_buckets_shape(snapshots, start, cadence, (count - 1) as nat);
    if i < earlier.len() {
        lemma_aligned_bucket_balances(snapshots, start, cadence, (count - 1) as nat, i);
    } else {
        assert(i == count - 1);
    }
}

/// A chart is either empty or has one bucket per boundary and one at the
/// present. Its buckets but the last stand one cadence apart, from the first
/// boundary on; the last stands at the present.
pub proof fn lemma_chart_shape(
    snapshots: Seq<ChartPoint>,
    timeframe: Timeframe,
    range: int,
    now: int,
)
    requires
        snapshots.len() > 0,
        range >= 0,
    ensures
        ({
            let cadence = timeframe.seconds();
            let first = snapshots[0].timestamp;
            let chart = filtered_states(snapshots, cadence, range, now);
            let count = effective_range(first, cadence, range, now);
            let start = chart_start(first, cadence, range, now);
            &&& 0 <= count <= range
            &&& chart.len() == 0 || (count > 0 && chart.len() == count + 1)
            &&& forall|i: int| 0 <= i < chart.len() - 1 ==> (#[trigger] chart[i]).timestamp == start + i * cadence
            &&& forall|i: int|
                0 <= i && i + 2 < chart.len() ==> chart[i + 1].timestamp - (#[trigger] chart[i]).timestamp
                    == cadence
            &&& chart.len() > 0 ==> chart.last().timestamp == now
        }),
{
    let cadence = timeframe.seconds();
    let first = snapshots[0].timestamp;
    let count = effective_range(first, cadence, range, now);
    let start = chart_start(first, cadence, range, now);
    let buckets = aligned_buckets(snapshots, start, cadence, count as nat);
    lemma_aligned_buckets_shape(snapshots, start, cadence, count as nat);
    let chart = filtered_states(snapshots, cadence, range, now);
    assert forall|i: int| 0 <= i && i + 2 < chart.len() implies chart[i + 1].timestamp - (
    #[trigger] chart[i]).timestamp == cadence by {
        assert(chart[i] == buckets[i]);
        assert(chart[i + 1] == buckets[i + 1]);
        assert((i + 1) * cadence == i * cadence + cadence) by (nonlinear_arith);
    }
}

/// The smaller of two integers.
pub open spec fn smaller(a: int, b: int) -> int {
    if a <= b {
        a
    } else {
        b
    }
}

/// A chart has at most one bucket more than the smaller of the requested
/// range and the wallet's age, and its buckets but the last stand exactly one
/// cadence apart. The bound speaks of wallets that are not younger than one
/// period before the present: for a first transaction further in the future
/// the bound would be negative.
pub proof fn lemma_chart_length_and_spacing(
    snapshots: Seq<ChartPoint>,
    timeframe: Timeframe,
    range: int,
    now: int,
)
    requires
        snapshots.len() > 0,
        range >= 0,
        smaller(range, wallet_age(snapshots[0].timestamp, timeframe.seconds(), now)) >= -1,
    ensures
        filtered_states(snapshots, timeframe.seconds(), range, now).len() <= smaller(
            range,
            wallet_age(snapshots[0].timestamp, timeframe.seconds(), now),
        ) + 1,
        forall|i: int|
            0 <= i && i + 2 < filtered_states(snapshots, timeframe.seconds(), range, now).len()
                ==> filtered_states(snapshots, timeframe.seconds(), range, now)[i + 1].timestamp - (
            #[trigger] filtered_states(snapshots, timeframe.seconds(), range, now)[i]).timestamp
                == timeframe.seconds(),
{
    lemma_chart_shape(snapshots, timeframe, range, now);
}

/// Two charts made from the same snapshots, cadence, range and present are
/// the same chart.
pub proof fn lemma_chart_is_a_function(
    one: Seq<ChartData>,
    other: Seq<ChartData>,
    states: Seq<ChartData>,
    timeframe: Timeframe,
    range: int,
    now: int,
)
    requires
        series_view(one) == filtered_states(series_view(states), timeframe.seconds(), range, now),
        series_view(other) == filtered_states(
            series_view(states),
            timeframe.seconds(),
            range,
            now,
        ),
    ensures
        series_view(one) == series_view(other),
{
}

/// The buckets of a chart stand in strictly ascending order of time.
pub proof fn lemma_chart_ascends(
    snapshots: Seq<ChartPoint>,
    timeframe: Timeframe,
    range: int,
    now: int,
    i: int,
    j: int,
)
    requires
        snapshots.len() > 0,
        range >= 0,
        0 <= i < j < filtered_states(snapshots, timeframe.seconds(), range, now).len(),
    ensures
        filtered_states(snapshots, timeframe.seconds(), range, now)[i].timestamp < filtered_states(
            snapshots,
            timeframe.seconds(),
            range,
            now,
        )[j].timestamp,
{
    let cadence = timeframe.seconds();
    let first = snapshots[0].timestamp;
    let count = effective_range(first, cadence, range, now);
    let start = chart_start(first, cadence, range, now);
    let chart = filtered_states(snapshots, cadence, range, now);
    lemma_chart_shape(snapshots, timeframe, range, now);
    lemma_fundamental_div_mod(now, cadence);
    lemma_mod_bound(now, cadence);
    assert((now / cadence) * cadence == cadence * (now / cadence)) by (nonlinear_arith);
    assert(chart[i].timestamp == start + i * cadence);
    assert(i * cadence + cadence <= j * cadence <= count * cadence) by (nonlinear_arith)
        requires
            0 <= i < j <= count,
            cadence > 0,
    ;
}

/// No bucket is dated before the boundary that lies as many periods before
/// the last one as the wallet is old, whatever the range.
pub proof fn lemma_chart_starts_within_wallet_age(
    snapshots: Seq<ChartPoint>,
    timeframe: Timeframe,
    range: int,
    now: int,
    i: int,
)
    requires
        snapshots.len() > 0,
        range >= 0,
        0 <= i < filtered_states(snapshots, timeframe.seconds(), range, now).len(),
    ensures
        filtered_states(snapshots, timeframe.seconds(), range, now)[i].timestamp >= aligned_now(
            timeframe.seconds(),
            now,
        ) - wallet_age(snapshots[0].timestamp, timeframe.seconds(), now) * timeframe.seconds(),
{
    let cadence = timeframe.seconds();
    let first = snapshots[0].timestamp;
    let count = effective_range(first, cadence, range, now);
    let age = wallet_age(first, cadence, now);
    lemma_chart_shape(snapshots, timeframe, range, now);
    lemma_chart_ascends(snapshots, timeframe, range, now, 0, if i == 0 { 1 } else { i });
    assert(count * cadence <= age * cadence) by (nonlinear_arith)
        requires
            0 < count <= age,
            cadence > 0,
    ;
}

/// No bucket is dated more than one period before the boundary of the first
/// transaction, whatever the range.
pub proof fn lemma_chart_starts_near_first_transaction(
    snapshots: Seq<ChartPoint>,
    timeframe: Timeframe,
    range: int,
    now: int,
    i: int,
)
    requires
        snapshots.len() > 0,
        range >= 0,
        0 <= i < filtered_states(snapshots, timeframe.seconds(), range, now).len(),
    ensures
        filtered_states(snapshots, timeframe.seconds(), range, now)[i].timestamp >= aligned_now(
            timeframe.seconds(),
            snapshots[0].timestamp,
        ) - timeframe.seconds(),
{
    let cadence = timeframe.seconds();
    let first = snapshots[0].timestamp;
    lemma_chart_shape(snapshots, timeframe, range, now);
    lemma_start_bounds(first, cadence, range, now);
    let chart = filtered_states(snapshots, cadence, range, now);
    let start = chart_start(first, cadence, range, now);
    if i < chart.len() - 1 {
        assert(chart[i].timestamp == start + i * cadence);
        assert(i * cadence >= 0) by (nonlinear_arith)
            requires
                i >= 0,
                cadence > 0,
        ;
    }
}

/// No bucket is dated before the boundary of the first transaction, whatever
/// the range, where the range is shorter than the wallet is old, or the
/// present lies no further into its period than the first transaction lies
/// into its own.
pub proof fn lemma_chart_starts_at_first_transaction(
    snapshots: Seq<ChartPoint>,
    timeframe: Timeframe,
    range: int,
    now: int,
    i: int,
)
    requires
        snapshots.len() > 0,
        range >= 0,
        range < wallet_age(snapshots[0].timestamp, timeframe.seconds(), now) || now
            % timeframe.seconds() <= snapshots[0].timestamp % timeframe.seconds(),
        0 <= i < filtered_states(snapshots, timeframe.seconds(), range, now).len(),
    ensures
        filtered_states(snapshots, timeframe.seconds(), range, now)[i].timestamp >= aligned_now(
            timeframe.seconds(),
            snapshots[0].timestamp,
        ),
{
    let cadence = timeframe.seconds();
    let first = snapshots[0].timestamp;
    lemma_chart_shape(snapshots, timeframe, range, now);
    lemma_start_bounds(first, cadence, range, now);
    let chart = filtered_states(snapshots, cadence, range, now);
    let start = chart_start(first, cadence, range, now);
    if i < chart.len() - 1 {
        assert(chart[i].timestamp == start + i * cadence);
        assert(i * cadence >= 0) by (nonlinear_arith)
            requires
                i >= 0,
                cadence > 0,
        ;
    }
}

/// Where the first boundary of a chart with at least one boundary lies: at
/// most one period before the boundary of the first transaction, and not
/// before it where the range is shorter than the wallet is old or the present
/// lies no further into its period than the first transaction into its own.
pub proof fn lemma_start_bounds(first: int, cadence: int, range: int, now: int)
    requires
        cadence > 0,
        range >= 0,
        effective_range(first, cadence, range, now) > 0,
    ensures
        chart_start(first, cadence, range, now) >= aligned_now(cadence, first) - cadence,
        now % cadence <= first % cadence ==> chart_start(first, cadence, range, now)
            >= aligned_now(cadence, first),
        range < wallet_age(first, cadence, now) ==> chart_start(first, cadence, range, now)
            >= aligned_now(cadence, first),
        chart_start(first, cadence, range, now) <= aligned_now(cadence, now),
        now > first,
{
    let count = effective_range(first, cadence, range, now);
    let (qn, rn) = (now / cadence, now % cadence);
    let (qf, rf) = (first / cadence, first % cadence);
    let (qd, rd) = ((first - now) / cadence, (first - now) % cadence);
    lemma_fundamental_div_mod(now, cadence);
    lemma_fundamental_div_mod(first, cadence);
    lemma_fundamental_div_mod(first - now, cadence);
    lemma_mod_bound(now, cadence);
    lemma_mod_bound(first, cadence);
    lemma_mod_bound(first - now, cadence);
    assert(wallet_age(first, cadence, now) == -qd);
    let k = qd + qn - qf;
    assert(cadence * k == rf - rn - rd) by (nonlinear_arith)
        requires
            k == qd + qn - qf,
            now == cadence * qn + rn,
            first == cadence * qf + rf,
            first - now == cadence * qd + rd,
    ;
    assert(k == 0 || k == -1) by (nonlinear_arith)
        requires
            cadence > 0,
            -2 * cadence < cadence * k < cadence,
    ;
    assert(cadence * k == 0 || cadence * k == -cadence) by (nonlinear_arith)
        requires
            k == 0 || k == -1,
    ;
    assert(0 <= count * cadence <= (-qd) * cadence) by (nonlinear_arith)
        requires
            0 <= count <= -qd,
            cadence > 0,
    ;
    assert((-qd) * cadence == -(cadence * qd) && qn * cadence == cadence * qn && qf * cadence
        == cadence * qf) by (nonlinear_arith);
    assert(cadence * qd <= -cadence) by (nonlinear_arith)
        requires
            qd <= -1,
            cadence > 0,
    ;
    if range < -qd {
        assert(count * cadence <= (-qd) * cadence - cadence) by (nonlinear_arith)
            requires
                0 <= count <= -qd - 1,
                cadence > 0,
        ;
    }
}

/// The chart of a wallet whose first transaction is not within two periods
/// of the earliest time there is has buckets whose timestamps fit 64 bits.
pub proof fn lemma_chart_is_representable(
    snapshots: Seq<ChartPoint>,
    timeframe: Timeframe,
    range: int,
    now: int,
)
    requires
        range >= 0,
        snapshots.len() > 0 ==> snapshots[0].timestamp - 2 * timeframe.seconds() >= i64::MIN,
    ensures
        chart_is_representable(snapshots, timeframe.seconds(), range, now),
{
    if snapshots.len() > 0 {
        let first = snapshots[0].timestamp;
        let cadence = timeframe.seconds();
        if effective_range(first, cadence, range, now) > 0 {
            lemma_start_bounds(first, cadence, range, now);
            lemma_fundamental_div_mod(first, cadence);
            lemma_mod_bound(first, cadence);
            assert((first / cadence) * cadence == cadence * (first / cadence)) by (nonlinear_arith);
        }
    }
}

/// What each bucket of a chart carries: the balances known at its boundary,
/// or, where none are known there, what the bucket before it carries; and the
/// bucket at the present carries what the bucket before it carries.
pub proof fn lemma_chart_bucket_balances(
    snapshots: Seq<ChartPoint>,
    timeframe: Timeframe,
    range: int,
    now: int,
    i: int,
)
    requires
        snapshots.len() > 0,
        range >= 0,
        0 <= i < filtered_states(snapshots, timeframe.seconds(), range, now).len(),
    ensures
        ({
            let cadence = timeframe.seconds();
            let chart = filtered_states(snapshots, cadence, range, now);
            let start = chart_start(snapshots[0].timestamp, cadence, range, now);
            if i == chart.len() - 1 {
                i > 0 && chart[i].balances == chart[i - 1].balances
            } else {
                match known_balances(snapshots, start + i * cadence) {
                    Some(balances) => chart[i].balances == balances,
                    None => i > 0 && chart[i].balances == chart[i - 1].balances,
                }
            }
        }),
{
    let cadence = timeframe.seconds();
    let first = snapshots[0].timestamp;
    let count = effective_range(first, cadence, range, now);
    let start = chart_start(first, cadence, range, now);
    lemma_chart_shape(snapshots, timeframe, range, now);
    if i < count {
        lemma_aligned_bucket_balances(snapshots, start, cadence, count as nat, i);
    }
}

/// Every bucket of a chart carries the balances of one of the snapshots.
pub proof fn lemma_buckets_carry_snapshots(
    snapshots: Seq<ChartPoint>,
    cadence: int,
    range: int,
    now: int,
    i: int,
)
    requires
        0 <= i < filtered_states(snapshots, cadence, range, now).len(),
    ensures
        exists|j: int|
            0 <= j < snapshots.len() && filtered_states(snapshots, cadence, range, now)[i].balances
                == (#[trigger] snapshots[j]).balances,
{
    let first = snapshots[0].timestamp;
    let count = effective_range(first, cadence, range, now);
    let start = chart_start(first, cadence, range, now);
    let buckets = aligned_buckets(snapshots, start, cadence, count as nat);
    if i < buckets.len() {
        lemma_aligned_buckets_carry_snapshots(snapshots, start, cadence, count as nat, i);
    } else {
        lemma_aligned_buckets_carry_snapshots(
            snapshots,
            start,
            cadence,
            count as nat,
            buckets.len() - 1,
        );
    }
}

/// Every aligned bucket carries the balances of one of the snapshots.
pub proof fn lemma_aligned_buckets_carry_snapshots(
    snapshots: Seq<ChartPoint>,
    start: int,
    cadence: int,
    count: nat,
    i: int,
)
    requires
        0 <= i < aligned_buckets(snapshots, start, cadence, count).len(),
    ensures
        exists|j: int|
            0 <= j < snapshots.len() && aligned_buckets(snapshots, start, cadence, count)[i].balances
                == (#[trigger] snapshots[j]).balances,
    decreases count,
{
    let earlier = aligned_buckets(snapshots, start, cadence, (count - 1) as nat);
    let boundary = start + (count - 1) * cadence;
    if i < earlier.len() {
        lemma_aligned_buckets_carry_snapshots(snapshots, start, cadence, (count - 1) as nat, i);
    } else {
        match known_balances(snapshots, boundary) {
            Some(balances) => {
                lemma_first_reaching(snapshots, boundary, 0);
                let j = first_reaching(snapshots, boundary, 0);
                if j > 0 {
                    assert(snapshots[j - 1].balances == balances);
                } else {
                    assert(snapshots[0].balances == balances);
                }
            },
            None => {
                lemma_aligned_buckets_carry_snapshots(
                    snapshots,
                    start,
                    cadence,
                    (count - 1) as nat,
                    earlier.len() - 1,
                );
            },
        }
    }
}

/// A wallet with a single snapshot has a chart whose every bucket, the one
/// at the present included, carries the balances of that snapshot.
pub proof fn lemma_single_snapshot_is_carried(
    snapshots: Seq<ChartPoint>,
    cadence: int,
    range: int,
    now: int,
    i: int,
)
    requires
        snapshots.len() == 1,
        0 <= i < filtered_states(snapshots, cadence, range, now).len(),
    ensures
        filtered_states(snapshots, cadence, range, now)[i].balances == snapshots[0].balances,
{
    lemma_buckets_carry_snapshots(snapshots, cadence, range, now, i);
}

} // verus!
