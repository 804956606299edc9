use wagmi_alerts::demand::Demand;
use wagmi_alerts::evaluate::evaluate_change;
use wagmi_alerts::evaluate::process_tokens;
use wagmi_alerts::evaluate::satisfy_regular_demands_at;
use wagmi_alerts::market::TokenInfo;
use wagmi_alerts::market::TokenMap;
use wagmi_alerts::market::PRICE_SCALE;

const S: u64 = PRICE_SCALE;

fn info_of(name: &str, price: u64, prev: u64) -> TokenInfo {
    TokenInfo {
        name: name.to_string(),
        full_name: None,
        price,
        price_prev_24h: prev,
        pair_number: Some(10000),
        market_cap: 5_000_000,
    }
}

fn snapshot(pairs: &[(&str, u64)]) -> TokenMap {
    let mut map = TokenMap::new();
    for (symbol, price) in pairs {
        map.insert(symbol.to_string(), info_of(symbol, *price, *price));
    }
    map
}

fn alert_demand_for(token: &str, percentage: i16) -> Demand {
    Demand {
        chat_id: 77,
        thread_id: None,
        type_of: "alert".to_string(),
        token: token.to_string(),
        percentage,
        interval: "15min".to_string(),
    }
}

#[test]
fn no_change_is_below_the_noise_floor() {
    // Current 100, historical 100, threshold 0: no notification.
    let d = evaluate_change(100 * S, 100 * S, 0);
    assert!(!d.notify);
    assert!(!d.risen);
    assert_eq!(d.centi_percent, 0);
}

#[test]
fn three_percent_rise_notifies_at_threshold_two() {
    // Current 103, historical 100, threshold 2: notify, "3.00", risen.
    let d = evaluate_change(103 * S, 100 * S, 2);
    assert!(d.notify);
    assert!(d.risen);
    assert_eq!(d.centi_percent, 300);
}

#[test]
fn three_percent_drop_misses_threshold_five() {
    // Current 97, historical 100, threshold 5: clears the noise floor
    // but not the threshold, so no notification.
    let d = evaluate_change(97 * S, 100 * S, 5);
    assert!(!d.notify);
    assert!(!d.risen);
    assert_eq!(d.centi_percent, 300);
}

#[test]
fn tiny_move_is_noise() {
    // A move of 0.005 percent stays under the 0.01 percent floor.
    let d = evaluate_change(100 * S + S / 20000, 100 * S, 0);
    assert!(!d.notify);
}

#[test]
fn floor_is_inclusive() {
    // Exactly 0.01 percent clears the floor.
    let d = evaluate_change(100 * S + S / 10000 * 100, 100 * S, 0);
    assert!(d.notify);
    assert_eq!(d.centi_percent, 1);
}

#[test]
fn notify_message_text() {
    let now = snapshot(&[("WAGMI", 103 * S)]);
    let then = snapshot(&[("WAGMI", 100 * S)]);
    let note = process_tokens(&alert_demand_for("wagmi", 2), &now, &then).expect("must notify");
    assert_eq!(note.chat_id, 77);
    assert_eq!(
        note.text,
        "__*\u{1F4C8} WAGMI Alert*__:\n[WAGMI](https://t.me/HypurrFunBot?start=ref_2262836c-trade_10000) has risen by 3.00% in the last 15min : 103$"
    );
}

#[test]
fn dropped_message_text() {
    let now = snapshot(&[("BTC", 97 * S)]);
    let then = snapshot(&[("BTC", 100 * S)]);
    let note = process_tokens(&alert_demand_for("BTC", 0), &now, &then).expect("must notify");
    assert!(note.text.contains("has dropped by 3.00% in the last 15min : 97$"));
}

#[test]
fn missing_pair_notifies_diagnostic() {
    let now = snapshot(&[("BTC", 100 * S)]);
    let then = snapshot(&[("BTC", 100 * S)]);
    let note = process_tokens(&alert_demand_for("DOGE", 0), &now, &then).expect("diagnostic owed");
    assert_eq!(note.text, "No pair for {token} ");
}

#[test]
fn missing_history_skips_silently() {
    let now = snapshot(&[("BTC", 103 * S)]);
    let then = snapshot(&[("ETH", 100 * S)]);
    assert!(process_tokens(&alert_demand_for("BTC", 0), &now, &then).is_none());
}

#[test]
fn batch_keeps_order_and_skips_quiet_tokens() {
    let now = snapshot(&[("AAA", 103 * S), ("BBB", 100 * S)]);
    let then = snapshot(&[("AAA", 100 * S), ("BBB", 100 * S)]);
    let demands = vec![alert_demand_for("AAA", 0), alert_demand_for("BBB", 0), alert_demand_for("AAA", 10)];
    let notes = satisfy_regular_demands_at(&demands, &now, &then);
    // AAA moved 3%: the unconditional subscription fires, the
    // 10-percent one does not; BBB did not move.
    assert_eq!(notes.len(), 1);
    assert!(notes[0].text.contains("risen by 3.00%"));
}

#[test]
fn fractional_price_is_printed_with_its_digits() {
    let now = snapshot(&[("AAA", 103 * S + S / 2)]);
    let then = snapshot(&[("AAA", 100 * S)]);
    let notes = satisfy_regular_demands_at(&vec![alert_demand_for("AAA", 0)], &now, &then);
    assert_eq!(notes.len(), 1);
    assert!(notes[0].text.ends_with(" : 103.50000000$"));
}
