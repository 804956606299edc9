use base64::Engine;
use wagmi_alerts::demand::format_demand_for_message;
use wagmi_alerts::demand::Demand;

fn alert_demand() -> Demand {
    Demand {
        chat_id: 123,
        thread_id: None,
        type_of: "alert".to_string(),
        token: "WAGMI".to_string(),
        percentage: 3,
        interval: "15min".to_string(),
    }
}

#[test]
fn composite_id_round_trips() {
    let d = alert_demand();
    let id = d.get_composite_id();
    let (chat_id, type_of, token, percentage, interval) =
        Demand::parse_composite_id(id.as_str()).expect("token must decode");
    assert_eq!(chat_id, 123);
    assert_eq!(type_of, "alert");
    assert_eq!(token, "WAGMI");
    assert_eq!(percentage, 3);
    assert_eq!(interval, "15min");
}

#[test]
fn composite_id_round_trips_negative_ids() {
    let d = Demand {
        chat_id: -1001234567890,
        thread_id: Some(7),
        type_of: "alert".to_string(),
        token: "BTC".to_string(),
        percentage: -5,
        interval: "24h".to_string(),
    };
    let id = d.get_composite_id();
    let parsed = Demand::parse_composite_id(id.as_str()).unwrap();
    assert_eq!(parsed.0, -1001234567890);
    assert_eq!(parsed.1, "alert");
    assert_eq!(parsed.2, "BTC");
    assert_eq!(parsed.3, -5);
    assert_eq!(parsed.4, "24h");
}

#[test]
fn composite_id_round_trips_special() {
    let d = Demand::new(42, "pumpcheck".to_string(), None);
    let id = d.get_composite_id();
    let parsed = Demand::parse_composite_id(id.as_str()).unwrap();
    assert_eq!(parsed.0, 42);
    assert_eq!(parsed.1, "pumpcheck");
    assert_eq!(parsed.2, "");
    assert_eq!(parsed.3, 0);
    assert_eq!(parsed.4, "");
}

#[test]
fn composite_id_is_base64_of_joined_fields() {
    // The token really goes through the encoder: decoding it with the
    // base64 crate directly gives back the underscore-joined fields.
    let d = alert_demand();
    let id = d.get_composite_id();
    let bytes = base64::engine::general_purpose::STANDARD
        .decode(id.as_bytes())
        .expect("identity token is valid base64");
    assert_eq!(String::from_utf8(bytes).unwrap(), "123_alert_WAGMI_3_15min");
    assert_ne!(id, "123_alert_WAGMI_3_15min");
}

#[test]
fn parse_rejects_non_base64() {
    assert!(Demand::parse_composite_id("!!! not base64 !!!").is_none());
}

#[test]
fn parse_rejects_wrong_field_count() {
    // "YV9i" is the encoding of "a_b": two fields, not five.
    assert!(Demand::parse_composite_id("YV9i").is_none());
}

#[test]
fn parse_rejects_non_numeric_fields() {
    // Encoding of "x_alert_T_0_1h": the chat id is not a number.
    let bad = base64::engine::general_purpose::STANDARD.encode("x_alert_T_0_1h");
    assert!(Demand::parse_composite_id(bad.as_str()).is_none());
    // Encoding of "1_alert_T_zz_1h": the percentage is not a number.
    let bad2 = base64::engine::general_purpose::STANDARD.encode("1_alert_T_zz_1h");
    assert!(Demand::parse_composite_id(bad2.as_str()).is_none());
}

#[test]
fn parse_rejects_out_of_range_percentage() {
    let bad = base64::engine::general_purpose::STANDARD.encode("1_alert_T_40000_1h");
    assert!(Demand::parse_composite_id(bad.as_str()).is_none());
}

#[test]
fn demand_listing_lines() {
    let with_pct = alert_demand();
    assert_eq!(
        format_demand_for_message(&with_pct),
        "*WAGMI* price change for 3% for 15min"
    );
    let mut no_pct = alert_demand();
    no_pct.percentage = 0;
    assert_eq!(
        format_demand_for_message(&no_pct),
        "*WAGMI* price change  for 15min"
    );
    let special = Demand::new(1, "pumpcheck".to_string(), None);
    assert_eq!(format_demand_for_message(&special), "*Special* demand");
}

#[test]
fn parse_rejects_non_text_bytes() {
    // Valid base64, but the bytes are not text.
    let bad = base64::engine::general_purpose::STANDARD.encode([0xffu8, 0xfe, 0x5f, 0xff]);
    assert!(Demand::parse_composite_id(bad.as_str()).is_none());
}
