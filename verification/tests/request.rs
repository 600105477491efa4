use solana_mirror::chart::request::{
    check_chart_request, parse_range, parse_timeframe, validate_address, validate_chart_request,
    ChartRequest,
};
use solana_mirror::chart::types::Timeframe;
use solana_mirror::enums::Error;

const WALLET: &str = "C5CsUVrjNzcpqjTGfZc8PBtyMa4PTAjPpmpM1MAP1dtH";

#[test]
fn an_hourly_range_beyond_ninety_days_is_rejected() {
    assert_eq!(parse_timeframe("2200h"), Err(Error::InvalidTimeframe));
    assert_eq!(
        parse_timeframe("2160h"),
        Ok(ChartRequest { timeframe: Timeframe::Hour, range: 2160 })
    );
    assert_eq!(parse_timeframe("2161h"), Err(Error::InvalidTimeframe));
    assert_eq!(
        parse_timeframe("2200d"),
        Ok(ChartRequest { timeframe: Timeframe::Day, range: 2200 })
    );
}

#[test]
fn a_token_writes_the_range_before_the_unit() {
    assert_eq!(parse_timeframe("14d"), Ok(ChartRequest { timeframe: Timeframe::Day, range: 14 }));
    assert_eq!(parse_timeframe("90H"), Ok(ChartRequest { timeframe: Timeframe::Hour, range: 90 }));
    assert_eq!(parse_timeframe("7D"), Ok(ChartRequest { timeframe: Timeframe::Day, range: 7 }));
    assert_eq!(parse_timeframe(""), Err(Error::InvalidTimeframe));
    assert_eq!(parse_timeframe("d"), Err(Error::InvalidTimeframe));
    assert_eq!(parse_timeframe("14"), Err(Error::InvalidTimeframe));
    assert_eq!(parse_timeframe("14w"), Err(Error::InvalidTimeframe));
    assert_eq!(parse_timeframe("0d"), Err(Error::InvalidTimeframe));
    assert_eq!(parse_timeframe("-3d"), Err(Error::InvalidTimeframe));
    assert_eq!(parse_timeframe("1.5d"), Err(Error::InvalidTimeframe));
    assert_eq!(parse_timeframe("d14"), Err(Error::InvalidTimeframe));
}

#[test]
fn a_range_is_a_positive_number_of_at_most_32_bits() {
    assert_eq!(parse_range("14"), Some(14));
    assert_eq!(parse_range("007"), Some(7));
    assert_eq!(parse_range("4294967295"), Some(u32::MAX));
    assert_eq!(parse_range("4294967296"), None);
    assert_eq!(parse_range("99999999999999999999999999"), None);
    assert_eq!(parse_range("0"), None);
    assert_eq!(parse_range("000"), None);
    assert_eq!(parse_range(""), None);
    assert_eq!(parse_range("+5"), None);
    assert_eq!(parse_range("5 "), None);
    assert_eq!(parse_range("1e3"), None);
    assert_eq!(parse_range("٣"), None);
}

#[test]
fn a_unit_letter_names_a_cadence() {
    assert_eq!(Timeframe::new("h"), Some(Timeframe::Hour));
    assert_eq!(Timeframe::new("H"), Some(Timeframe::Hour));
    assert_eq!(Timeframe::new("d"), Some(Timeframe::Day));
    assert_eq!(Timeframe::new("D"), Some(Timeframe::Day));
    assert_eq!(Timeframe::new(""), None);
    assert_eq!(Timeframe::new("w"), None);
    assert_eq!(Timeframe::new("hd"), None);
    assert_eq!(Timeframe::from_unit("h"), Some(Timeframe::Hour));
    assert_eq!(Timeframe::from_unit("d"), Some(Timeframe::Day));
    assert_eq!(Timeframe::from_unit("H"), None);
    assert_eq!(Timeframe::from_unit("dd"), None);
}

#[test]
fn a_wallet_has_to_be_an_address() {
    assert_eq!(validate_address(WALLET), Ok(()));
    assert_eq!(validate_address("11111111111111111111111111111111"), Ok(()));
    assert_eq!(validate_address(""), Err(Error::InvalidAddress));
    assert_eq!(validate_address("not an address"), Err(Error::InvalidAddress));
    assert_eq!(
        validate_address("C5CsUVrjNzcpqjTGfZc8PBtyMa4PTAjPpmpM1MAP1dt0"),
        Err(Error::InvalidAddress)
    );
    assert_eq!(validate_address("abc"), Err(Error::InvalidAddress));
    assert_eq!(
        validate_address("C5CsUVrjNzcpqjTGfZc8PBtyMa4PTAjPpmpM1MAP1dtHC5CsUVrjNzcpqjTGfZc8PBtyMa4P"),
        Err(Error::InvalidAddress)
    );
}

#[test]
fn a_request_is_checked_timeframe_first() {
    assert_eq!(
        validate_chart_request(WALLET, "d", "14"),
        Ok(ChartRequest { timeframe: Timeframe::Day, range: 14 })
    );
    assert_eq!(
        validate_chart_request(WALLET, "H", "2160"),
        Ok(ChartRequest { timeframe: Timeframe::Hour, range: 2160 })
    );
    assert_eq!(validate_chart_request(WALLET, "h", "2161"), Err(Error::InvalidTimeframe));
    assert_eq!(validate_chart_request(WALLET, "w", "14"), Err(Error::InvalidTimeframe));
    assert_eq!(validate_chart_request(WALLET, "d", "0"), Err(Error::InvalidTimeframe));
    assert_eq!(validate_chart_request(WALLET, "d", "many"), Err(Error::InvalidTimeframe));
    assert_eq!(validate_chart_request("nobody", "d", "14"), Err(Error::InvalidAddress));
    assert_eq!(validate_chart_request("nobody", "w", "14"), Err(Error::InvalidTimeframe));
    assert_eq!(validate_chart_request("nobody", "h", "9999"), Err(Error::InvalidTimeframe));
}

#[test]
fn parts_that_were_read_are_checked_alike() {
    assert_eq!(
        check_chart_request(Some(Timeframe::Day), Some(3000), true),
        Ok(ChartRequest { timeframe: Timeframe::Day, range: 3000 })
    );
    assert_eq!(
        check_chart_request(Some(Timeframe::Hour), Some(3000), true),
        Err(Error::InvalidTimeframe)
    );
    assert_eq!(check_chart_request(None, Some(1), true), Err(Error::InvalidTimeframe));
    assert_eq!(check_chart_request(Some(Timeframe::Day), None, true), Err(Error::InvalidTimeframe));
    assert_eq!(check_chart_request(Some(Timeframe::Day), Some(0), true), Err(Error::InvalidTimeframe));
    assert_eq!(check_chart_request(Some(Timeframe::Day), Some(1), false), Err(Error::InvalidAddress));
    assert_eq!(check_chart_request(None, None, false), Err(Error::InvalidTimeframe));
}

#[test]
fn errors_have_messages() {
    assert_eq!(Error::FetchError("timeout".to_string()).message(), "Fetch error: timeout");
    assert_eq!(Error::ParseError("bad json".to_string()).message(), "Parse error: bad json");
    assert_eq!(Error::InvalidAddress.message(), "Invalid address");
    assert_eq!(Error::InvalidIndex.message(), "Invalid index");
    assert_eq!(Error::InvalidTimeframe.message(), "Invalid timeframe");
    assert_eq!(Error::TooManyRequests.message(), "Too many requests");
}
