//! Amounts and the small value types shared by every component.

use crate::decimal::Decimal;
use vstd::prelude::*;

verus! {

/// An asset amount: the exact integer as transmitted on-chain, and the same
/// amount scaled by the asset's decimals. A `formatted` of zero is the signal
/// that a position was fully exited.
#[derive(Debug, PartialEq, Eq)]
pub struct FormattedAmount {
    pub amount: String,
    pub formatted: Decimal,
}

impl Clone for FormattedAmount {
    fn clone(&self) -> (copy: Self)
        ensures
            copy == *self,
    {
        FormattedAmount { amount: self.amount.clone(), formatted: self.formatted }
    }
}

impl Default for FormattedAmount {
    fn default() -> (amount: Self)
        ensures
            amount.amount@ == Seq::<char>::empty(),
            amount.formatted == Decimal::zero_spec(),
    {
        FormattedAmount { amount: String::new(), formatted: Decimal::zero() }
    }
}

/// An amount together with the unit price that values it.
#[derive(Debug, PartialEq, Eq)]
pub struct FormattedAmountWithPrice {
    pub amount: FormattedAmount,
    pub price: Decimal,
}

impl Clone for FormattedAmountWithPrice {
    fn clone(&self) -> (copy: Self)
        ensures
            copy == *self,
    {
        FormattedAmountWithPrice { amount: self.amount.clone(), price: self.price }
    }
}

impl Default for FormattedAmountWithPrice {
    fn default() -> (amount: Self)
        ensures
            amount.amount.amount@ == Seq::<char>::empty(),
            amount.amount.formatted == Decimal::zero_spec(),
            amount.price == Decimal::zero_spec(),
    {
        FormattedAmountWithPrice { amount: FormattedAmount::default(), price: Decimal::zero() }
    }
}

/// A validated page of a transaction history: `start_idx <= end_idx`.
#[derive(Debug, PartialEq, Eq, Structural, Clone, Copy)]
pub struct Page {
    pub start_idx: usize,
    pub end_idx: usize,
}

/// How a fetch is to treat what it fetched: parsed, or as it came.
#[derive(Debug, PartialEq, Eq, Structural, Clone, Copy)]
pub struct FetchOpts {
    pub parse: bool,
}

} // verus!
