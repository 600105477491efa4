//! Folding of a transaction stream into balance snapshots.
//!
//! A running mapping of holdings starts empty. Each transaction, in order,
//! overwrites the holdings of the assets it touches with their amounts after
//! the transaction, drops those that went to zero, and leaves a snapshot of
//! the mapping behind.

use crate::asset_map::{map_of, AssetMap};
use crate::chart::types::{copy_balances, series_view, Balances, ChartData, ChartPoint};
use crate::transactions::types::{
    transactions_view, BalanceChange, ParsedTransaction, TransactionView,
};
use crate::types::FormattedAmount;
use vstd::prelude::*;

verus! {

/// The holdings after a transaction with the given changes: a touched asset
/// is held with its amount after the transaction unless that amount is zero;
/// an untouched asset stays as it was.
pub open spec fn apply_changes(held: Balances, changes: Map<Seq<char>, BalanceChange>) -> Balances {
    Map::new(
        |asset: Seq<char>|
            if changes.contains_key(asset) {
                !changes[asset].post.formatted.is_zero_spec()
            } else {
                held.contains_key(asset)
            },
        |asset: Seq<char>|
            if changes.contains_key(asset) {
                changes[asset].post
            } else {
                held[asset]
            },
    )
}

/// The snapshots of a transaction list: one per transaction, in order, each
/// holding what the one before held, changed by its transaction.
pub open spec fn balance_states(transactions: Seq<TransactionView>) -> Seq<ChartPoint>
    decreases transactions.len(),
{
    if transactions.len() == 0 {
        Seq::empty()
    } else {
        let earlier = balance_states(transactions.drop_last());
        let held = if earlier.len() == 0 {
            Map::empty()
        } else {
            earlier.last().balances
        };
        let last = transactions.last();
        earlier.push(
            ChartPoint {
                timestamp: last.block_time,
                balances: apply_changes(held, last.balances),
            },
        )
    }
}

/// The holdings after the changes of a list of entries have been applied one
/// after the other.
pub open spec fn apply_entries(held: Balances, entries: Seq<(Seq<char>, BalanceChange)>) -> Balances
    decreases entries.len(),
{
    if entries.len() == 0 {
        held
    } else {
        let before = apply_entries(held, entries.drop_last());
        let (asset, change) = entries.last();
        if change.post.formatted.is_zero_spec() {
            before.remove(asset)
        } else {
            before.insert(asset, change.post)
        }
    }
}

/// Applying entries one after the other gives what applying their map at once
/// gives.
pub proof fn lemma_apply_entries(held: Balances, entries: Seq<(Seq<char>, BalanceChange)>)
    ensures
        apply_entries(held, entries) == apply_changes(held, map_of(entries)),
    decreases entries.len(),
{
    if entries.len() == 0 {
        assert(apply_changes(held, map_of(entries)) =~= held);
    } else {
        lemma_apply_entries(held, entries.drop_last());
        assert(apply_entries(held, entries) =~= apply_changes(held, map_of(entries)));
    }
}

/// There is one snapshot per transaction, and it carries its transaction's
/// time.
pub proof fn lemma_balance_states_len(transactions: Seq<TransactionView>)
    ensures
        balance_states(transactions).len() == transactions.len(),
        forall|i: int|
            0 <= i < transactions.len() ==> (#[trigger] balance_states(transactions)[i]).timestamp
                == transactions[i].block_time,
    decreases transactions.len(),
{
    if transactions.len() > 0 {
        lemma_balance_states_len(transactions.drop_last());
    }
}

/// Creates a series of states with the balances of a wallet at each
/// transaction.
pub fn get_balance_states(txs: &Vec<ParsedTransaction>) -> (states: Vec<ChartData>)
    ensures
        series_view(states@) == balance_states(transactions_view(txs@)),
        states@.len() == txs@.len(),
{
    let ghost transactions = transactions_view(txs@);
    let mut states: Vec<ChartData> = Vec::new();
    let mut t: usize = 0;
    assert(transactions.take(0) =~= Seq::<TransactionView>::empty());
    assert(series_view(states@) =~= Seq::<ChartPoint>::empty());
    while t < txs.len()
        invariant
            t <= txs@.len(),
            transactions == transactions_view(txs@),
            states@.len() == t,
            series_view(states@) == balance_states(transactions.take(t as int)),
        decreases txs@.len() - t,
    {
        let tx = &txs[t];
        let ghost earlier = series_view(states@);
        let ghost held: Balances = if earlier.len() == 0 {
            Map::empty()
        } else {
            earlier.last().balances
        };
        let mut balances: AssetMap<FormattedAmount> = if states.len() == 0 {
            AssetMap::new()
        } else {
            copy_balances(&states[states.len() - 1].balances)
        };
        let changes = tx.balances.len();
        let mut e: usize = 0;
        while e < changes
            invariant
                e <= changes,
                changes == tx.balances.entries().len(),
                balances@ == apply_entries(held, tx.balances.entries().take(e as int)),
            decreases changes - e,
        {
            let mint = tx.balances.key_at(e);
            let change = tx.balances.value_at(e);
            if change.post.formatted.is_zero() {
                balances.remove(mint.as_str());
            } else {
                balances.insert(mint.clone(), change.post.clone());
            }
            assert(tx.balances.entries().take(e + 1).drop_last() =~= tx.balances.entries().take(
                e as int,
            ));
            e += 1;
        }
        proof {
            assert(tx.balances.entries().take(changes as int) =~= tx.balances.entries());
            lemma_apply_entries(held, tx.balances.entries());
            assert(transactions.take(t + 1).drop_last() =~= transactions.take(t as int));
            assert(transactions.take(t + 1).last() == tx@);
        }
        states.push(ChartData { timestamp: tx.block_time, balances });
        assert(series_view(states@) =~= earlier.push(
            ChartPoint { timestamp: tx.block_time as int, balances: apply_changes(held, tx@.balances) },
        ));
        t += 1;
    }
    assert(transactions.take(t as int) =~= transactions);
    states
}

} // verus!
