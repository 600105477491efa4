//! Transactions as the ledger reports them.

use crate::asset_map::AssetMap;
use crate::types::FormattedAmount;
use vstd::prelude::*;

verus! {

/// What one transaction did to the holding of one asset.
#[derive(Debug, PartialEq, Eq)]
pub struct BalanceChange {
    pub pre: FormattedAmount,
    pub post: FormattedAmount,
}

impl Clone for BalanceChange {
    fn clone(&self) -> (copy: Self)
        ensures
            copy == *self,
    {
        BalanceChange { pre: self.pre.clone(), post: self.post.clone() }
    }
}

impl Default for BalanceChange {
    fn default() -> (change: Self)
        ensures
            change.pre.amount@ == Seq::<char>::empty(),
            change.pre.formatted == crate::decimal::Decimal::zero_spec(),
            change.post.amount@ == Seq::<char>::empty(),
            change.post.formatted == crate::decimal::Decimal::zero_spec(),
    {
        BalanceChange { pre: FormattedAmount::default(), post: FormattedAmount::default() }
    }
}

/// One transaction of a wallet: when it happened and, per asset it touched,
/// the holding before and after.
pub struct ParsedTransaction {
    pub block_time: i64,
    pub signatures: Vec<String>,
    pub balances: AssetMap<BalanceChange>,
    pub parsed_instructions: Vec<String>,
}

/// What the reconstruction reads of a transaction: its time and its balance
/// changes.
pub ghost struct TransactionView {
    pub block_time: int,
    pub balances: Map<Seq<char>, BalanceChange>,
}

impl View for ParsedTransaction {
    type V = TransactionView;

    open spec fn view(&self) -> TransactionView {
        TransactionView { block_time: self.block_time as int, balances: self.balances@ }
    }
}

/// The views of a list of transactions, in order.
pub open spec fn transactions_view(transactions: Seq<ParsedTransaction>) -> Seq<TransactionView> {
    transactions.map_values(|t: ParsedTransaction| t@)
}

impl ParsedTransaction {
    /// A transaction at `block_time` with the given balance changes and no
    /// signatures or instructions attached.
    pub fn new(block_time: i64, balances: AssetMap<BalanceChange>) -> (transaction: Self)
        ensures
            transaction.block_time == block_time,
            transaction.balances == balances,
            transaction.signatures@.len() == 0,
            transaction.parsed_instructions@.len() == 0,
    {
        ParsedTransaction {
            block_time,
            signatures: Vec::new(),
            balances,
            parsed_instructions: Vec::new(),
        }
    }
}

/// A page of a wallet's history together with the number of transactions in
/// it.
pub struct TransactionResponse {
    pub transactions: Vec<ParsedTransaction>,
    pub count: usize,
}

impl TransactionResponse {
    /// Wraps a list of transactions with its length.
    pub fn new(transactions: Vec<ParsedTransaction>) -> (response: Self)
        ensures
            response.transactions == transactions,
            response.count == transactions@.len(),
    {
        let count = transactions.len();
        TransactionResponse { transactions, count }
    }
}

impl Default for TransactionResponse {
    fn default() -> (response: Self)
        ensures
            response.transactions@.len() == 0,
            response.count == 0,
    {
        TransactionResponse { transactions: Vec::new(), count: 0 }
    }
}

} // verus!
