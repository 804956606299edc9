use wagmi_alerts::interval::due_intervals;
use wagmi_alerts::interval::interval_cron;
use wagmi_alerts::interval::interval_name;
use wagmi_alerts::interval::parse_interval;

#[test]
fn parse_interval_hourly_case_insensitive() {
    assert_eq!(parse_interval("Hourly"), Some("1h"));
}

#[test]
fn parse_interval_rejects_unknown() {
    assert_eq!(parse_interval("bogus"), None);
    assert_eq!(parse_interval(""), None);
    assert_eq!(parse_interval("15 min"), None);
}

#[test]
fn parse_interval_synonyms() {
    assert_eq!(parse_interval("15m"), Some("15min"));
    assert_eq!(parse_interval("quarter"), Some("15min"));
    assert_eq!(parse_interval("hour"), Some("1h"));
    assert_eq!(parse_interval("6hour"), Some("6h"));
    assert_eq!(parse_interval("DAILY"), Some("24h"));
    assert_eq!(parse_interval("24hour"), Some("24h"));
    assert_eq!(parse_interval("Wednesday"), Some("wed"));
    assert_eq!(parse_interval("friday"), Some("fri"));
    assert_eq!(parse_interval("MONDAY"), Some("mon"));
    assert_eq!(parse_interval("saturday"), Some("sat"));
}

#[test]
fn parse_interval_trims_whitespace() {
    assert_eq!(parse_interval("  1h  "), Some("1h"));
    assert_eq!(parse_interval("\tquarter\n"), Some("15min"));
}

#[test]
fn interval_table_is_aligned() {
    let names = ["15min", "1h", "6h", "24h", "wed", "fri", "mon", "sat"];
    for (i, name) in names.iter().enumerate() {
        assert_eq!(interval_name(i), *name);
        assert!(!interval_cron(i).is_empty());
    }
}

// 2021-01-01 00:00:00 UTC, a Friday.
const MIDNIGHT: i64 = 1609459200;

#[test]
fn due_intervals_at_midnight() {
    // Minute 0 of hour 0: the quarter-hour, hourly and six-hour rules
    // all match; the afternoon and weekday-noon rules do not.
    let due = due_intervals(MIDNIGHT);
    assert_eq!(due, vec!["15min".to_string(), "1h".to_string(), "6h".to_string()]);
}

#[test]
fn due_intervals_friday_noon() {
    let due = due_intervals(MIDNIGHT + 12 * 3600);
    assert_eq!(
        due,
        vec!["15min".to_string(), "1h".to_string(), "6h".to_string(), "fri".to_string()]
    );
}

#[test]
fn due_intervals_afternoon() {
    let due = due_intervals(MIDNIGHT + 15 * 3600);
    assert_eq!(due, vec!["15min".to_string(), "1h".to_string(), "24h".to_string()]);
}

#[test]
fn due_intervals_off_boundary_is_empty() {
    // Thirty seconds past the minute no rule matches.
    let due = due_intervals(MIDNIGHT + 30);
    assert!(due.is_empty());
}

#[test]
fn due_intervals_deterministic() {
    // The due set is a function of the instant alone.
    assert_eq!(due_intervals(MIDNIGHT), due_intervals(MIDNIGHT));
    assert_eq!(due_intervals(MIDNIGHT + 900), due_intervals(MIDNIGHT + 900));
}

#[test]
fn due_intervals_quarter_past() {
    let due = due_intervals(MIDNIGHT + 900);
    assert_eq!(due, vec!["15min".to_string()]);
}
