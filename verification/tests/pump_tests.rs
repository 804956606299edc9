use wagmi_alerts::market::TokenInfo;
use wagmi_alerts::market::TokenMap;
use wagmi_alerts::market::PRICE_SCALE;
use wagmi_alerts::pump::check_over_pump;
use wagmi_alerts::pump::check_pump;
use wagmi_alerts::pump::diff_in_percent;
use wagmi_alerts::pump::generate_pump_alert;
use wagmi_alerts::pump::PumpMemory;
use wagmi_alerts::pump::PumpRecord;
use wagmi_alerts::pump::MIN_MARKET_CAP;
use wagmi_alerts::pump::PUMP_MEMORY_SECONDS;

const S: u64 = PRICE_SCALE;

fn pumped_token(name: &str, price: u64, prev: u64, market_cap: u64) -> TokenInfo {
    TokenInfo {
        name: name.to_string(),
        full_name: None,
        price,
        price_prev_24h: prev,
        pair_number: Some(10001),
        market_cap,
    }
}

#[test]
fn diff_in_percent_truncates_toward_zero() {
    assert_eq!(diff_in_percent(103 * S, 100 * S), 300);
    assert_eq!(diff_in_percent(100 * S, 100 * S), 0);
    // 1/3 more is 33.33 percent, cut, not rounded.
    assert_eq!(diff_in_percent(4 * S, 3 * S), 3333);
    assert_eq!(diff_in_percent(97 * S, 100 * S), -300);
    // A previous price of zero yields zero, never a division error.
    assert_eq!(diff_in_percent(100 * S, 0), 0);
}

#[test]
fn pump_thresholds_are_inclusive() {
    // Exactly a 10 percent change with exactly the minimum market cap
    // is eligible.
    let at = pumped_token("AAA", 110 * S, 100 * S, MIN_MARKET_CAP);
    assert_eq!(check_pump(&at), 1000);
    // One hundredth of a percent below the change threshold is not.
    let under_change = pumped_token("AAA", 110 * S - S / 100, 100 * S, MIN_MARKET_CAP);
    assert_eq!(check_pump(&under_change), 0);
    // One unit below the market-cap threshold is not.
    let under_cap = pumped_token("AAA", 110 * S, 100 * S, MIN_MARKET_CAP - 1);
    assert_eq!(check_pump(&under_cap), 0);
}

#[test]
fn over_pump_threshold_is_strict() {
    // Five percent exactly does not re-arm; more than five does.
    assert!(!check_over_pump(105 * S, 100 * S));
    assert!(check_over_pump(105 * S + 1, 100 * S));
    assert!(!check_over_pump(101 * S, 100 * S));
    assert!(check_over_pump(106 * S, 100 * S));
}

#[test]
fn fresh_memory_suppresses_small_follow_up() {
    // Pumped at 100, re-checked at 101 inside the window: suppressed.
    let mut tokens = TokenMap::new();
    tokens.insert("AAA".to_string(), pumped_token("AAA", 101 * S, 90 * S, MIN_MARKET_CAP));
    let mut memory = PumpMemory::new();
    let now = 1_700_000_000i64;
    memory.insert("AAA".to_string(), PumpRecord { when: now - 60, price: 100 * S });
    assert!(generate_pump_alert(&tokens, &mut memory, now).is_none());
}

#[test]
fn bigger_follow_up_re_arms_the_alert() {
    // Re-checked at 106 against a remembered 100: not suppressed.
    let mut tokens = TokenMap::new();
    tokens.insert("AAA".to_string(), pumped_token("AAA", 106 * S, 90 * S, MIN_MARKET_CAP));
    let mut memory = PumpMemory::new();
    let now = 1_700_000_000i64;
    memory.insert("AAA".to_string(), PumpRecord { when: now - 60, price: 100 * S });
    let msg = generate_pump_alert(&tokens, &mut memory, now).expect("alert owed");
    assert!(msg.contains("AAA"));
    // The detection is re-remembered at the new price.
    let rec = memory.get_token_that_pumped("AAA").unwrap();
    assert_eq!(rec.price, 106 * S);
    assert_eq!(rec.when, now);
}

#[test]
fn expired_memory_no_longer_suppresses() {
    let mut tokens = TokenMap::new();
    tokens.insert("AAA".to_string(), pumped_token("AAA", 101 * S, 90 * S, MIN_MARKET_CAP));
    let mut memory = PumpMemory::new();
    let now = 1_700_000_000i64;
    memory.insert(
        "AAA".to_string(),
        PumpRecord { when: now - PUMP_MEMORY_SECONDS, price: 100 * S },
    );
    assert!(generate_pump_alert(&tokens, &mut memory, now).is_some());
}

#[test]
fn no_qualifier_means_no_message_at_all() {
    let mut tokens = TokenMap::new();
    tokens.insert("AAA".to_string(), pumped_token("AAA", 101 * S, 100 * S, MIN_MARKET_CAP));
    let mut memory = PumpMemory::new();
    assert!(generate_pump_alert(&tokens, &mut memory, 1_700_000_000).is_none());
}

#[test]
fn pump_message_text() {
    let mut tokens = TokenMap::new();
    tokens.insert("AAA".to_string(), pumped_token("AAA", 110 * S, 100 * S, MIN_MARKET_CAP));
    let mut memory = PumpMemory::new();
    let msg = generate_pump_alert(&tokens, &mut memory, 1_700_000_000).unwrap();
    assert_eq!(
        msg,
        "__*\u{1F4C8} WAGMI Pump Alert:*__\n\n__[AAA](https://t.me/HypurrFunBot?start=ref_2262836c-trade_10001)__: Price has risen by 10.00% in the last 24h: 110$\n------------------------\n"
    );
}

#[test]
fn combined_broadcast_holds_one_line_per_pump() {
    let mut tokens = TokenMap::new();
    tokens.insert("AAA".to_string(), pumped_token("AAA", 110 * S, 100 * S, MIN_MARKET_CAP));
    tokens.insert("BBB".to_string(), pumped_token("BBB", 100 * S, 100 * S, MIN_MARKET_CAP));
    tokens.insert("CCC".to_string(), pumped_token("CCC", 120 * S, 100 * S, MIN_MARKET_CAP));
    let mut memory = PumpMemory::new();
    let msg = generate_pump_alert(&tokens, &mut memory, 1_700_000_000).unwrap();
    assert!(msg.contains("AAA"));
    assert!(!msg.contains("BBB"));
    assert!(msg.contains("CCC"));
    assert_eq!(msg.matches("------------------------").count(), 2);
}
