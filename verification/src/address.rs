//! Addresses: their text form, their bytes, and the addresses derived from
//! them.
//!
//! An address is 32 bytes, written in base58. Reading, writing and deriving
//! addresses is the work of `solana_sdk`; this module hands it plain values
//! and gives each of its answers a name that the contracts of the library can
//! speak of.

use crate::enums::Error;
use mpl_token_metadata::programs::MPL_TOKEN_METADATA_ID;
use solana_sdk::pubkey::Pubkey;
use std::str::FromStr;
use vstd::prelude::*;

verus! {

/// The bytes of the address that a text writes, if it writes one.
pub uninterp spec fn address_bytes(text: Seq<char>) -> Option<Seq<u8>>;

/// The text that writes the address with the given bytes.
pub uninterp spec fn address_text(bytes: Seq<u8>) -> Seq<char>;

/// The address of the account that holds the metadata of the token whose mint
/// has the given address, if there is one.
pub uninterp spec fn metadata_address_of(mint: Seq<u8>) -> Option<Seq<u8>>;

/// The text writes an address.
pub open spec fn is_wallet_address(text: Seq<char>) -> bool {
    address_bytes(text).is_some()
}

/// `Pubkey::from_str` of `solana_sdk`: whether it accepts the text, and the
/// bytes of the key it reads, depend on the text alone. Nothing more is
/// claimed of it.
#[verifier::external_body]
fn decode_address(text: &str) -> (bytes: Option<[u8; 32]>)
    ensures
        match bytes {
            Some(bytes) => address_bytes(text@) == Some(bytes@),
            None => address_bytes(text@).is_none(),
        },
{
    match Pubkey::from_str(text) {
        Ok(key) => Some(key.to_bytes()),
        Err(_) => None,
    }
}

/// `Pubkey::to_string` of `solana_sdk`: the text it writes depends on the
/// key's bytes alone. Nothing more is claimed of it.
#[verifier::external_body]
fn encode_address(bytes: &[u8; 32]) -> (text: String)
    ensures
        text@ == address_text(bytes@),
{
    Pubkey::new_from_array(*bytes).to_string()
}

/// `Pubkey::try_find_program_address` of `solana_sdk`, for the token metadata
/// program of `mpl_token_metadata` and the seeds `metadata`, the program's
/// address and the mint's address: whether it finds an address, and the
/// address it finds, depend on the mint's bytes alone. Nothing more is claimed
/// of it.
#[verifier::external_body]
fn derive_metadata_address(mint: &[u8; 32]) -> (address: Option<[u8; 32]>)
    ensures
        match address {
            Some(address) => metadata_address_of(mint@) == Some(address@),
            None => metadata_address_of(mint@).is_none(),
        },
{
    let program = Pubkey::new_from_array(MPL_TOKEN_METADATA_ID.to_bytes());
    let seeds: [&[u8]; 3] = ["metadata".as_ref(), program.as_ref(), mint];
    match Pubkey::try_find_program_address(&seeds, &program) {
        Some((address, _)) => Some(address.to_bytes()),
        None => None,
    }
}

/// Whether the text writes an address.
pub fn is_address(text: &str) -> (valid: bool)
    ensures
        valid == is_wallet_address(text@),
{
    decode_address(text).is_some()
}

/// The text of the metadata account's address for the mint that a text
/// writes: there is one if the text writes an address and a metadata address
/// is found for it.
pub open spec fn metadata_account_of(mint: Seq<char>) -> Option<Seq<char>> {
    match address_bytes(mint) {
        Some(bytes) => match metadata_address_of(bytes) {
            Some(address) => Some(address_text(address)),
            None => None,
        },
        None => None,
    }
}

/// The address of the account that holds the metadata of the token with the
/// given mint address. A text that writes no address, or one for which no
/// metadata address is found, is an invalid address.
pub fn metadata_account(mint_address: &str) -> (account: Result<String, Error>)
    ensures
        match account {
            Ok(address) => metadata_account_of(mint_address@) == Some(address@),
            Err(error) => error == Error::InvalidAddress && metadata_account_of(
                mint_address@,
            ).is_none(),
        },
{
    let mint = match decode_address(mint_address) {
        Some(mint) => mint,
        None => {
            return Err(Error::InvalidAddress);
        },
    };
    match derive_metadata_address(&mint) {
        Some(address) => Ok(encode_address(&address)),
        None => Err(Error::InvalidAddress),
    }
}

} // verus!
