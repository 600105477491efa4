//! Token accounts and the metadata that describes a token.

use crate::decimal::Decimal;
use crate::types::FormattedAmount;
use vstd::prelude::*;

verus! {

/// A token account of a wallet, with what is known of its token.
#[derive(Debug, PartialEq, Eq)]
pub struct ParsedAta {
    pub mint: String,
    pub ata: String,
    pub decimals: u8,
    pub name: String,
    pub symbol: String,
    pub image: String,
    pub price: Option<Decimal>,
    pub balance: FormattedAmount,
}

impl Default for ParsedAta {
    fn default() -> (account: Self)
        ensures
            account.mint@.len() == 0,
            account.ata@.len() == 0,
            account.decimals == 0,
            account.name@.len() == 0,
            account.symbol@.len() == 0,
            account.image@.len() == 0,
            account.price.is_none(),
            account.balance.amount@.len() == 0,
            account.balance.formatted == Decimal::zero_spec(),
    {
        ParsedAta {
            mint: String::new(),
            ata: String::new(),
            decimals: 0,
            name: String::new(),
            symbol: String::new(),
            image: String::new(),
            price: None,
            balance: FormattedAmount::default(),
        }
    }
}

/// The name, symbol and address of further description of a token.
#[derive(Debug, PartialEq, Eq)]
pub struct ParsedMetadata {
    pub name: String,
    pub symbol: String,
    pub uri: String,
}

/// The metadata of a token as the contracts see it.
pub ghost struct MetadataView {
    pub name: Seq<char>,
    pub symbol: Seq<char>,
    pub uri: Seq<char>,
}

impl View for ParsedMetadata {
    type V = MetadataView;

    open spec fn view(&self) -> MetadataView {
        MetadataView { name: self.name@, symbol: self.symbol@, uri: self.uri@ }
    }
}

impl MetadataView {
    /// The metadata of a token of which nothing is known: three empty texts.
    pub open spec fn unknown() -> MetadataView {
        MetadataView { name: Seq::empty(), symbol: Seq::empty(), uri: Seq::empty() }
    }
}

impl Clone for ParsedMetadata {
    fn clone(&self) -> (copy: Self)
        ensures
            copy == *self,
    {
        ParsedMetadata {
            name: self.name.clone(),
            symbol: self.symbol.clone(),
            uri: self.uri.clone(),
        }
    }
}

impl Default for ParsedMetadata {
    fn default() -> (metadata: Self)
        ensures
            metadata@ == MetadataView::unknown(),
    {
        ParsedMetadata { name: String::new(), symbol: String::new(), uri: String::new() }
    }
}

/// What the document behind a token's address of further description says of
/// the token's image.
#[derive(Debug, PartialEq, Eq)]
pub struct ImageResponse {
    pub image: String,
}

} // verus!
