use wagmi_alerts::command::parse_alert;
use wagmi_alerts::command::parse_callback_data;
use wagmi_alerts::command::plan_set_alert;
use wagmi_alerts::command::plan_special;
use wagmi_alerts::command::switch_type;
use wagmi_alerts::command::SpecialAction;
use wagmi_alerts::command::ValidationError;
use wagmi_alerts::counts::ChatDemandCounts;

#[test]
fn switch_type_words() {
    assert_eq!(switch_type("on".to_string()), Ok(true));
    assert_eq!(switch_type("START".to_string()), Ok(true));
    assert_eq!(switch_type("off".to_string()), Ok(false));
    assert_eq!(switch_type("Stop".to_string()), Ok(false));
    assert_eq!(switch_type("maybe".to_string()), Err(ValidationError::BadSwitch));
}

#[test]
fn parse_alert_with_percentage() {
    let (token, interval, pct) = parse_alert("WAGMI 15min 3".to_string()).unwrap();
    assert_eq!(token, "WAGMI");
    assert_eq!(interval, "15min");
    assert_eq!(pct, 3);
}

#[test]
fn parse_alert_percentage_defaults_to_zero() {
    let (token, interval, pct) = parse_alert("wagmi 1h".to_string()).unwrap();
    assert_eq!(token, "wagmi");
    assert_eq!(interval, "1h");
    assert_eq!(pct, 0);
}

#[test]
fn parse_alert_rejects_bad_shapes() {
    assert_eq!(parse_alert("".to_string()), Err(ValidationError::BadAlertSyntax));
    assert_eq!(parse_alert("one".to_string()), Err(ValidationError::BadAlertSyntax));
    assert_eq!(
        parse_alert("a b c d".to_string()),
        Err(ValidationError::BadAlertSyntax)
    );
    assert_eq!(
        parse_alert("WAGMI 1h three".to_string()),
        Err(ValidationError::BadPercentage)
    );
}

fn known_tokens() -> Vec<String> {
    vec!["WAGMI".to_string(), "BTC".to_string()]
}

#[test]
fn plan_set_alert_builds_demand_and_reply() {
    let counts = ChatDemandCounts::new();
    let (demand, message) = plan_set_alert(
        &counts,
        55,
        None,
        "wagmi quarter 3".to_string(),
        &known_tokens(),
    )
    .unwrap();
    assert_eq!(demand.chat_id, 55);
    assert_eq!(demand.type_of, "alert");
    assert_eq!(demand.token, "WAGMI");
    assert_eq!(demand.interval, "15min");
    assert_eq!(demand.percentage, 3);
    assert_eq!(message, "Alert set for token WAGMI at interval 15min for percentage 3");
}

#[test]
fn plan_set_alert_zero_percent_reply_is_short() {
    let counts = ChatDemandCounts::new();
    let (_, message) =
        plan_set_alert(&counts, 55, None, "BTC 1h".to_string(), &known_tokens()).unwrap();
    assert_eq!(message, "Alert set for token BTC at interval 1h");
}

#[test]
fn plan_set_alert_refusals() {
    let counts = ChatDemandCounts::new();
    assert_eq!(
        plan_set_alert(&counts, 55, None, "DOGE 1h".to_string(), &known_tokens()).unwrap_err(),
        ValidationError::UnknownToken
    );
    assert_eq!(
        plan_set_alert(&counts, 55, None, "BTC eon".to_string(), &known_tokens()).unwrap_err(),
        ValidationError::UnknownInterval
    );
    let mut full = ChatDemandCounts::new();
    full.increase_chat_demand(55);
    full.increase_chat_demand(55);
    full.increase_chat_demand(55);
    assert_eq!(
        plan_set_alert(&full, 55, None, "BTC 1h".to_string(), &known_tokens()).unwrap_err(),
        ValidationError::QuotaExceeded
    );
}

#[test]
fn plan_special_switches() {
    let counts = ChatDemandCounts::new();
    let (action, demand, reply) =
        plan_special(&counts, 9, None, "on".to_string()).unwrap();
    assert_eq!(action, SpecialAction::Enable);
    assert_eq!(demand.type_of, "pumpcheck");
    assert_eq!(demand.token, "");
    assert_eq!(reply, "Pump alert set for this channel");

    let (action, _, reply) = plan_special(&counts, 9, None, "off".to_string()).unwrap();
    assert_eq!(action, SpecialAction::Disable);
    assert_eq!(reply, "Pump alert suppressed for this channel");

    assert_eq!(
        plan_special(&counts, 9, None, "sideways".to_string()).unwrap_err(),
        ValidationError::BadSwitch
    );
}

#[test]
fn plan_special_on_respects_quota() {
    let mut full = ChatDemandCounts::new();
    full.increase_chat_demand(9);
    full.increase_chat_demand(9);
    full.increase_chat_demand(9);
    assert_eq!(
        plan_special(&full, 9, None, "on".to_string()).unwrap_err(),
        ValidationError::QuotaExceeded
    );
    // Switching off never needs the quota.
    assert!(plan_special(&full, 9, None, "off".to_string()).is_ok());
}

#[test]
fn callback_data_splits_chat_and_token() {
    let (chat, token) = parse_callback_data("123_QUJD").unwrap();
    assert_eq!(chat, 123);
    assert_eq!(token, "QUJD");
    assert!(parse_callback_data("nounderscore").is_err());
    assert!(parse_callback_data("abc_QUJD").is_err());
}

#[test]
fn validation_messages_match_the_bot_replies() {
    assert_eq!(
        ValidationError::QuotaExceeded.message(),
        "Max demand reached. Free the demands or erase one"
    );
    assert_eq!(ValidationError::BadSwitch.message(), "/special on or off");
    assert_eq!(ValidationError::BadPercentage.message(), "Percentage must be an int");
}
