//! Validation of a chart request, before anything is fetched.
//!
//! A request names a wallet, a cadence and a range. The cadence is a unit
//! letter, `h` or `d`; the range is the number of periods to chart, a positive
//! decimal number, at most ninety days' worth of hours on the hourly cadence.
//! The two may also come as one token, the number followed by the letter.

use crate::address::{is_address, is_wallet_address};
use crate::chart::types::{lowercase_of, Timeframe};
use crate::enums::Error;
use vstd::prelude::*;
use vstd::string::StrSliceExecFns;

verus! {

/// The longest range that the hourly cadence allows: ninety days of hours.
pub const MAX_HOURLY_RANGE: u32 = 2160;

/// A request that passed validation.
#[derive(Debug, Clone, Copy, PartialEq, Eq, Structural)]
pub struct ChartRequest {
    pub timeframe: Timeframe,
    pub range: u32,
}

/// The character is a decimal digit.
pub open spec fn is_digit(c: char) -> bool {
    '0' <= c <= '9'
}

/// Every character of the text is a decimal digit.
pub open spec fn all_digits(text: Seq<char>) -> bool {
    forall|i: int| 0 <= i < text.len() ==> is_digit(#[trigger] text[i])
}

/// The number that a text of decimal digits writes.
pub open spec fn decimal_value(text: Seq<char>) -> int
    decreases text.len(),
{
    if text.len() == 0 {
        0
    } else {
        decimal_value(text.drop_last()) * 10 + (text.last() as int - '0' as int)
    }
}

/// The range that a token writes: the token has to be a non-empty text of
/// decimal digits whose number is positive and fits 32 bits.
pub open spec fn range_of(token: Seq<char>) -> Option<u32> {
    if token.len() > 0 && all_digits(token) && 0 < decimal_value(token) <= u32::MAX {
        Some(decimal_value(token) as u32)
    } else {
        None
    }
}

/// The verdict on a request, given what its parts parsed to. A cadence or a
/// range that did not parse, a range of zero and an hourly range beyond the
/// cap are an invalid timeframe; with those in order, a wallet that is no
/// address is an invalid address.
pub open spec fn checked_request(
    timeframe: Option<Timeframe>,
    range: Option<u32>,
    address_valid: bool,
) -> Result<ChartRequest, Error> {
    match (timeframe, range) {
        (Some(timeframe), Some(range)) => {
            if range == 0 {
                Err(Error::InvalidTimeframe)
            } else if timeframe == Timeframe::Hour && range > MAX_HOURLY_RANGE {
                Err(Error::InvalidTimeframe)
            } else if !address_valid {
                Err(Error::InvalidAddress)
            } else {
                Ok(ChartRequest { timeframe, range })
            }
        },
        _ => Err(Error::InvalidTimeframe),
    }
}

/// A prefix of a text of digits writes a number no greater than the text.
pub proof fn lemma_decimal_value_grows(text: Seq<char>, length: int)
    requires
        all_digits(text),
        0 <= length <= text.len(),
    ensures
        0 <= decimal_value(text.take(length)) <= decimal_value(text),
    decreases text.len() - length,
{
    if length == text.len() {
        assert(text.take(length) =~= text);
        lemma_decimal_value_nonnegative(text);
    } else {
        lemma_decimal_value_grows(text, length + 1);
        let longer = text.take(length + 1);
        assert(longer.drop_last() =~= text.take(length));
        assert(is_digit(text[length]));
        assert(longer.last() == text[length]);
        lemma_decimal_value_nonnegative(text.take(length));
    }
}

/// A text of digits writes a number that is not negative.
pub proof fn lemma_decimal_value_nonnegative(text: Seq<char>)
    requires
        all_digits(text),
    ensures
        0 <= decimal_value(text),
    decreases text.len(),
{
    if text.len() > 0 {
        assert(is_digit(text[text.len() - 1]));
        lemma_decimal_value_nonnegative(text.drop_last());
    }
}

/// Reads a range: a positive decimal number of at most 32 bits.
pub fn parse_range(token: &str) -> (range: Option<u32>)
    ensures
        range == range_of(token@),
{
    let length = token.unicode_len();
    if length == 0 {
        return None;
    }
    let mut value: u64 = 0;
    let mut i: usize = 0;
    assert(token@.take(0) =~= Seq::<char>::empty());
    while i < length
        invariant
            i <= length,
            length == token@.len(),
            all_digits(token@.take(i as int)),
            value == decimal_value(token@.take(i as int)),
            value <= u32::MAX,
        decreases length - i,
    {
        let c = token.get_char(i);
        let code = c as u32;
        if code < '0' as u32 || code > '9' as u32 {
            assert(!is_digit(token@[i as int]));
            return None;
        }
        let ghost longer = token@.take(i + 1);
        assert(longer.drop_last() =~= token@.take(i as int));
        assert(longer.last() == c);
        assert(all_digits(longer)) by {
            assert forall|k: int| 0 <= k < longer.len() implies is_digit(#[trigger] longer[k]) by {
                if k < i {
                    assert(is_digit(token@.take(i as int)[k]));
                }
            }
        }
        value = value * 10 + (code - '0' as u32) as u64;
        if value > u32::MAX as u64 {
            proof {
                if all_digits(token@) {
                    lemma_decimal_value_grows(token@, i + 1);
                }
            }
            return None;
        }
        i += 1;
    }
    assert(token@.take(length as int) =~= token@);
    if value == 0 {
        None
    } else {
        Some(value as u32)
    }
}

/// Decides on a request whose parts have been read already.
pub fn check_chart_request(
    timeframe: Option<Timeframe>,
    range: Option<u32>,
    address_valid: bool,
) -> (checked: Result<ChartRequest, Error>)
    ensures
        checked == checked_request(timeframe, range, address_valid),
{
    match (timeframe, range) {
        (Some(timeframe), Some(range)) => {
            if range == 0 {
                Err(Error::InvalidTimeframe)
            } else if timeframe == Timeframe::Hour && range > MAX_HOURLY_RANGE {
                Err(Error::InvalidTimeframe)
            } else if !address_valid {
                Err(Error::InvalidAddress)
            } else {
                Ok(ChartRequest { timeframe, range })
            }
        },
        _ => Err(Error::InvalidTimeframe),
    }
}

/// Accepts a wallet identifier that is an address.
pub fn validate_address(wallet: &str) -> (checked: Result<(), Error>)
    ensures
        checked == (if is_wallet_address(wallet@) {
            Ok::<(), Error>(())
        } else {
            Err::<(), Error>(Error::InvalidAddress)
        }),
{
    if is_address(wallet) {
        Ok(())
    } else {
        Err(Error::InvalidAddress)
    }
}

/// Validates a request for the chart of `wallet` on the cadence named by
/// `timeframe` over `range` periods.
pub fn validate_chart_request(wallet: &str, timeframe: &str, range: &str) -> (checked: Result<
    ChartRequest,
    Error,
>)
    ensures
        checked == checked_request(
            Timeframe::of_unit(lowercase_of(timeframe@)),
            range_of(range@),
            is_wallet_address(wallet@),
        ),
{
    let timeframe = Timeframe::new(timeframe);
    let range = parse_range(range);
    let address_valid = is_address(wallet);
    check_chart_request(timeframe, range, address_valid)
}

/// Reads a token that writes a range and a cadence in one, the number first
/// and the unit letter last, such as `14d` or `90h`.
pub fn parse_timeframe(token: &str) -> (checked: Result<ChartRequest, Error>)
    ensures
        checked == (if token@.len() == 0 {
            Err::<ChartRequest, Error>(Error::InvalidTimeframe)
        } else {
            checked_request(
                Timeframe::of_unit(lowercase_of(token@.subrange(token@.len() - 1, token@.len() as int))),
                range_of(token@.subrange(0, token@.len() - 1)),
                true,
            )
        }),
{
    let length = token.unicode_len();
    if length == 0 {
        return Err(Error::InvalidTimeframe);
    }
    let unit = token.substring_char(length - 1, length);
    let magnitude = token.substring_char(0, length - 1);
    let timeframe = Timeframe::new(unit);
    let range = parse_range(magnitude);
    check_chart_request(timeframe, range, true)
}

} // verus!
