use mpl_token_metadata::programs::MPL_TOKEN_METADATA_ID;
use solana_mirror::asset_map::AssetMap;
use solana_mirror::balances::accounts::types::{ImageResponse, ParsedAta, ParsedMetadata};
use solana_mirror::chart::prices::PricePoint;
use solana_mirror::coingecko::{
    get_coingecko_id, market_chart_endpoint, market_chart_query, price_points, CoingeckoToken,
    GetCoinMarketChartParams,
};
use solana_mirror::decimal::Decimal;
use solana_mirror::enums::Error;
use solana_mirror::types::{FetchOpts, Page};
use solana_mirror::address::{is_address, metadata_account};
use solana_mirror::utils::{
    clean_string, create_batches, fetched_image, metadata_from_account, parse_metadata,
    parse_page, predefined_image, same_text, RCL_IMAGE,
};
use solana_sdk::pubkey::Pubkey;
use std::str::FromStr;

const USDC_MINT: &str = "EPjFWdd5AufqSSqeM2qN1xzybapC8G4wEGGkZwyTDt1v";

#[test]
fn cleaning_strips_padding_and_quotes() {
    assert_eq!(clean_string("USD Coin\0\0\0\0".to_string()), "USD Coin");
    assert_eq!(clean_string("\0\0\"quoted\"\0".to_string()), "quoted");
    assert_eq!(clean_string("\"a\"b\"".to_string()), "a\"b");
    assert_eq!(clean_string("\"\0inner\0\"".to_string()), "\0inner\0");
    assert_eq!(clean_string("a\0b".to_string()), "a\0b");
    assert_eq!(clean_string("\0\0\0".to_string()), "");
    assert_eq!(clean_string("\"\"\"".to_string()), "");
    assert_eq!(clean_string(String::new()), "");
    assert_eq!(clean_string(" plain ".to_string()), " plain ");
}

#[test]
fn batches_hold_the_elements_in_order() {
    let arr: Vec<u32> = (1..=7).collect();
    assert_eq!(create_batches(&arr, 3, None), vec![vec![1, 2, 3], vec![4, 5, 6], vec![7]]);
    assert_eq!(create_batches(&arr, 7, None), vec![vec![1, 2, 3, 4, 5, 6, 7]]);
    assert_eq!(create_batches(&arr, 100, None), vec![vec![1, 2, 3, 4, 5, 6, 7]]);
    assert_eq!(create_batches(&arr, usize::MAX, None), vec![vec![1, 2, 3, 4, 5, 6, 7]]);
    assert_eq!(create_batches(&arr, 1, None).len(), 7);
    let none: Vec<Vec<u32>> = Vec::new();
    assert_eq!(create_batches(&Vec::<u32>::new(), 3, None), none);
    assert_eq!(create_batches(&Vec::<u32>::new(), 3, Some(0)), none);
}

#[test]
fn a_limit_cuts_the_batches_short() {
    let arr: Vec<u32> = (1..=7).collect();
    assert_eq!(create_batches(&arr, 3, Some(5)), vec![vec![1, 2, 3], vec![4, 5]]);
    assert_eq!(create_batches(&arr, 3, Some(1)), vec![vec![1]]);
    assert_eq!(create_batches(&arr, 3, Some(7)), vec![vec![1, 2, 3], vec![4, 5, 6], vec![7]]);
    assert_eq!(create_batches(&arr, 3, Some(100)), vec![vec![1, 2, 3], vec![4, 5, 6], vec![7]]);
}

#[test]
fn a_limit_on_the_end_of_a_batch_leaves_an_empty_batch() {
    let arr: Vec<u32> = (1..=7).collect();
    assert_eq!(create_batches(&arr, 3, Some(3)), vec![vec![1, 2, 3], vec![]]);
    assert_eq!(create_batches(&arr, 3, Some(6)), vec![vec![1, 2, 3], vec![4, 5, 6], vec![]]);
    assert_eq!(create_batches(&arr, 3, Some(0)), vec![Vec::<u32>::new()]);
    let strings = vec!["a".to_string(), "b".to_string()];
    assert_eq!(create_batches(&strings, 1, Some(1)), vec![vec!["a".to_string()], vec![]]);
}

#[test]
fn a_page_ends_no_earlier_than_it_starts() {
    assert_eq!(parse_page(None), Ok(None));
    assert_eq!(parse_page(Some((0, 10))), Ok(Some(Page { start_idx: 0, end_idx: 10 })));
    assert_eq!(parse_page(Some((4, 4))), Ok(Some(Page { start_idx: 4, end_idx: 4 })));
    assert_eq!(parse_page(Some((5, 4))), Err(Error::InvalidIndex));
    assert_eq!(parse_page(Some((u64::MAX, 0))), Err(Error::InvalidIndex));
}

#[test]
fn metadata_is_cleaned() {
    let metadata = parse_metadata(
        "USD Coin\0\0\0".to_string(),
        "USDC\0\0".to_string(),
        "\"https://example.org/usdc.json\"\0".to_string(),
    );
    assert_eq!(
        metadata,
        ParsedMetadata {
            name: "USD Coin".to_string(),
            symbol: "USDC".to_string(),
            uri: "https://example.org/usdc.json".to_string(),
        }
    );
    assert_eq!(metadata.clone(), metadata);
}

fn text(bytes: &mut Vec<u8>, value: &str) {
    bytes.extend_from_slice(&(value.len() as u32).to_le_bytes());
    bytes.extend_from_slice(value.as_bytes());
}

fn metadata_account_data(key: u8, name: &str, symbol: &str, uri: &str) -> Vec<u8> {
    let mut bytes = vec![key];
    bytes.extend_from_slice(&[1u8; 32]);
    bytes.extend_from_slice(&[2u8; 32]);
    text(&mut bytes, name);
    text(&mut bytes, symbol);
    text(&mut bytes, uri);
    bytes.extend_from_slice(&500u16.to_le_bytes());
    bytes.push(0);
    bytes.push(1);
    bytes.push(0);
    bytes.push(0);
    bytes
}

#[test]
fn metadata_is_read_from_an_account() {
    let data = metadata_account_data(4, "Bonk\0\0\0\0", "BONK\0", "https://example.org/bonk\0\0");
    assert_eq!(
        metadata_from_account(&Ok(data)),
        ParsedMetadata {
            name: "Bonk".to_string(),
            symbol: "BONK".to_string(),
            uri: "https://example.org/bonk".to_string(),
        }
    );
}

#[test]
fn an_account_that_holds_no_metadata_reads_as_unknown() {
    let unknown = ParsedMetadata::default();
    assert_eq!(unknown.name, "");
    assert_eq!(unknown.symbol, "");
    assert_eq!(unknown.uri, "");
    assert_eq!(metadata_from_account(&Ok(Vec::new())), unknown);
    assert_eq!(metadata_from_account(&Ok(vec![4])), unknown);
    assert_eq!(metadata_from_account(&Ok(vec![4, 1, 2, 3])), unknown);
    let edition = metadata_account_data(1, "Bonk", "BONK", "uri");
    assert_eq!(metadata_from_account(&Ok(edition)), unknown);
    assert_eq!(metadata_from_account(&Err(Error::FetchError("down".to_string()))), unknown);
    assert_eq!(metadata_from_account(&Err(Error::TooManyRequests)), unknown);
}

#[test]
fn the_metadata_account_is_derived_from_the_mint() {
    let program = Pubkey::from_str(&MPL_TOKEN_METADATA_ID.to_string()).unwrap();
    let mint = Pubkey::from_str(USDC_MINT).unwrap();
    let (expected, _) = Pubkey::find_program_address(
        &["metadata".as_ref(), &program.to_bytes(), &mint.to_bytes()],
        &program,
    );
    let derived = metadata_account(USDC_MINT).unwrap();
    assert_eq!(derived, expected.to_string());
    assert_ne!(derived, USDC_MINT);
    let other = metadata_account("So11111111111111111111111111111111111111112").unwrap();
    assert_ne!(other, derived);
}

#[test]
fn an_address_is_told_from_other_texts() {
    assert!(is_address(USDC_MINT));
    assert!(is_address("11111111111111111111111111111111"));
    assert!(!is_address("1111111111111111111111111111111"));
    assert!(!is_address("O0Il"));
    assert!(!is_address(""));
}

#[test]
fn a_mint_that_is_no_address_has_no_metadata_account() {
    assert_eq!(metadata_account("not a mint"), Err(Error::InvalidAddress));
    assert_eq!(metadata_account(""), Err(Error::InvalidAddress));
}

#[test]
fn some_images_are_known_beforehand() {
    let usdc = "https://example.org/usdc.png";
    let sol = "https://example.org/sol.png";
    assert_eq!(predefined_image("USDC", usdc, sol), Some(usdc.to_string()));
    assert_eq!(predefined_image("SOL", usdc, sol), Some(sol.to_string()));
    assert_eq!(predefined_image("RCL", usdc, sol), Some(RCL_IMAGE.to_string()));
    assert_eq!(
        RCL_IMAGE,
        "https://ipfs.io/ipfs/Qme9ErqmQaznzpfDACncEW48NyXJPFP7HgzfoNdto9xQ9P/02.jpg"
    );
    assert_eq!(predefined_image("usdc", usdc, sol), None);
    assert_eq!(predefined_image("BONK", usdc, sol), None);
    assert_eq!(predefined_image("", usdc, sol), None);
}

#[test]
fn an_image_that_could_not_be_fetched_is_empty() {
    assert_eq!(fetched_image(Some(ImageResponse { image: "https://x/y.png".to_string() })), "https://x/y.png");
    assert_eq!(fetched_image(None), "");
}

#[test]
fn texts_are_compared_by_their_characters() {
    assert!(same_text("SOL", "SOL"));
    assert!(same_text("", ""));
    assert!(!same_text("SOL", "sol"));
    assert!(!same_text("SOL", "SOLx"));
}

#[test]
fn the_provider_identifier_is_looked_up_by_mint() {
    let mut data = AssetMap::new();
    data.insert(
        USDC_MINT.to_string(),
        CoingeckoToken { _name: "USD Coin".to_string(), id: "usd-coin".to_string(), _symbol: "usdc".to_string() },
    );
    assert_eq!(get_coingecko_id(&data, USDC_MINT), Some("usd-coin".to_string()));
    assert_eq!(get_coingecko_id(&data, "unknown"), None);
}

#[test]
fn a_price_series_is_asked_for_by_identifier_and_span() {
    assert_eq!(
        market_chart_endpoint("solana"),
        "https://api.coingecko.com/api/v3/coins/solana/market_chart/range"
    );
    let params = GetCoinMarketChartParams {
        id: "solana".to_string(),
        vs_currency: "usd".to_string(),
        from: 1700000000,
        to: 1700086400,
    };
    let pair = |a: &str, b: &str| (a.to_string(), b.to_string());
    assert_eq!(
        market_chart_query(&params, &None),
        vec![pair("vs_currency", "usd"), pair("from", "1700000000"), pair("to", "1700086400")]
    );
    assert_eq!(
        market_chart_query(&params, &Some("secret".to_string())),
        vec![
            pair("vs_currency", "usd"),
            pair("from", "1700000000"),
            pair("to", "1700086400"),
            pair("x_cg_demo_api_key", "secret"),
        ]
    );
}

#[test]
fn missing_parts_of_a_sample_read_as_zero() {
    let price = Decimal::from_bits(1.5f64.to_bits());
    let raw = vec![(Some(1700000000000u64), Some(price)), (None, Some(price)), (Some(5), None), (None, None)];
    assert_eq!(
        price_points(&raw),
        vec![
            PricePoint { timestamp: 1700000000000, price },
            PricePoint { timestamp: 0, price },
            PricePoint { timestamp: 5, price: Decimal::zero() },
            PricePoint { timestamp: 0, price: Decimal::zero() },
        ]
    );
    assert!(price_points(&Vec::new()).is_empty());
}

#[test]
fn small_types_have_their_defaults() {
    let account = ParsedAta::default();
    assert_eq!(account.mint, "");
    assert_eq!(account.decimals, 0);
    assert_eq!(account.price, None);
    assert!(account.balance.formatted.is_zero());
    assert_eq!(FetchOpts { parse: true }, FetchOpts { parse: true });
}
