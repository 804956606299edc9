use wagmi_alerts::decimal::i64_to_string;
use wagmi_alerts::decimal::parse_i16_str;
use wagmi_alerts::decimal::parse_i64_str;
use wagmi_alerts::decimal::u64_to_string;
use wagmi_alerts::market::build_token_mapping;
use wagmi_alerts::market::MarketParseError;
use wagmi_alerts::market::market_cap_of;
use wagmi_alerts::market::parse_price;
use wagmi_alerts::market::transform_coin_to_pair_no;
use wagmi_alerts::market::MarketDataItem;
use wagmi_alerts::market::ResponseMeta;
use wagmi_alerts::market::Token;
use wagmi_alerts::market::UniverseItem;
use wagmi_alerts::market::PRICE_SCALE;

const S: u64 = PRICE_SCALE;

#[test]
fn decimal_text_round_trips() {
    assert_eq!(u64_to_string(0), "0");
    assert_eq!(u64_to_string(90125), "90125");
    assert_eq!(i64_to_string(-42), "-42");
    assert_eq!(parse_i64_str("123"), Some(123));
    assert_eq!(parse_i64_str("-123"), Some(-123));
    assert_eq!(parse_i64_str("9223372036854775807"), Some(i64::MAX));
    assert_eq!(parse_i64_str("-9223372036854775808"), Some(i64::MIN));
    assert_eq!(parse_i64_str("9223372036854775808"), None);
    assert_eq!(parse_i64_str(""), None);
    assert_eq!(parse_i64_str("12x"), None);
    assert_eq!(parse_i16_str("32767"), Some(32767));
    assert_eq!(parse_i16_str("40000"), None);
}

#[test]
fn price_text_parses_to_fixed_point() {
    assert_eq!(parse_price("123"), Some(123 * S));
    assert_eq!(parse_price("123.45"), Some(123 * S + 45_000_000));
    assert_eq!(parse_price("0.00000001"), Some(1));
    assert_eq!(parse_price(".5"), Some(S / 2));
    assert_eq!(parse_price("5."), Some(5 * S));
    // Digits beyond the eighth are cut off.
    assert_eq!(parse_price("0.123456789"), Some(12_345_678));
    assert_eq!(parse_price(""), None);
    assert_eq!(parse_price("."), None);
    assert_eq!(parse_price("1.2.3"), None);
    assert_eq!(parse_price("12x"), None);
    assert_eq!(parse_price("-1"), None);
}

#[test]
fn market_cap_rounds_the_fixed_point_product() {
    // 2 * 1000 = 2000 whole units.
    assert_eq!(market_cap_of(2 * S, 1000 * S), 2000);
    // 0.5 * 3 rounds up to 2.
    assert_eq!(market_cap_of(S / 2, 3 * S), 2);
    // 0.4 * 1 rounds down to 0.
    assert_eq!(market_cap_of(2 * S / 5, 1 * S), 0);
}

#[test]
fn pair_numbers() {
    assert_eq!(transform_coin_to_pair_no("PURR/USDC"), Some(10_000));
    assert_eq!(transform_coin_to_pair_no("@5"), Some(10_005));
    assert_eq!(transform_coin_to_pair_no("@123"), Some(10_123));
    assert_eq!(transform_coin_to_pair_no("ABC"), None);
    assert_eq!(transform_coin_to_pair_no(""), None);
    assert_eq!(transform_coin_to_pair_no("@99999"), None);
}

fn meta() -> ResponseMeta {
    ResponseMeta {
        universe: vec![UniverseItem {
            tokens: vec![0, 1],
            name: "@5".to_string(),
            index: 5,
            is_canonical: true,
        }],
        tokens: vec![
            Token {
                name: "usdc".to_string(),
                sz_decimals: 6,
                wei_decimals: 6,
                index: 0,
                token_id: "0x0".to_string(),
                is_canonical: true,
                evm_contract: None,
                full_name: None,
            },
            Token {
                name: "wagmi".to_string(),
                sz_decimals: 2,
                wei_decimals: 8,
                index: 1,
                token_id: "0x1".to_string(),
                is_canonical: true,
                evm_contract: None,
                full_name: Some("Wagmi Coin".to_string()),
            },
        ],
    }
}

fn market_row(coin: &str, mark: &str, prev: &str, supply: &str) -> MarketDataItem {
    MarketDataItem {
        prev_day_px: prev.to_string(),
        day_ntl_vlm: "0".to_string(),
        mark_px: mark.to_string(),
        mid_px: None,
        circulating_supply: supply.to_string(),
        coin: coin.to_string(),
    }
}

#[test]
fn builds_the_snapshot_mapping() {
    let market = vec![market_row("@5", "2.5", "2", "1000")];
    let (map, symbols) = build_token_mapping(&meta(), &market).expect("well-formed feed");
    assert_eq!(symbols, vec!["USDC".to_string(), "WAGMI".to_string()]);
    let info = map.get("WAGMI").expect("mapped by uppercase name");
    assert_eq!(info.name, "wagmi");
    assert_eq!(info.full_name.as_deref(), Some("Wagmi Coin"));
    assert_eq!(info.price, 2 * S + S / 2);
    assert_eq!(info.price_prev_24h, 2 * S);
    assert_eq!(info.pair_number, Some(10_005));
    assert_eq!(info.market_cap, 2500);
    assert!(map.get("USDC").is_none());
}

#[test]
fn unknown_pair_rows_are_left_out() {
    let market = vec![market_row("@9", "1", "1", "1")];
    let (map, _) = build_token_mapping(&meta(), &market).unwrap();
    assert_eq!(map.len(), 0);
}

#[test]
fn malformed_numbers_abort_the_refresh() {
    let market = vec![market_row("@5", "not-a-price", "2", "1000")];
    assert_eq!(build_token_mapping(&meta(), &market).unwrap_err(), MarketParseError::BadPrice);
    let market = vec![market_row("@5", "2", "x", "1000")];
    assert_eq!(
        build_token_mapping(&meta(), &market).unwrap_err(),
        MarketParseError::BadPreviousPrice
    );
    let market = vec![market_row("@5", "2", "2", "")];
    assert_eq!(build_token_mapping(&meta(), &market).unwrap_err(), MarketParseError::BadSupply);
}

#[test]
fn pair_without_token_index_aborts_the_refresh() {
    let mut m = meta();
    m.universe[0].tokens = vec![0, 0];
    let market = vec![market_row("@5", "2", "2", "1000")];
    assert_eq!(
        build_token_mapping(&m, &market).unwrap_err(),
        MarketParseError::MissingPairIndex
    );
}
