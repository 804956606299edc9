use wagmi_alerts::demand::Demand;
use wagmi_alerts::dispatch::BroadcastRun;
use wagmi_alerts::dispatch::MAX_CONCURRENT_SENDS;
use wagmi_alerts::evaluate::execute_demands;
use wagmi_alerts::evaluate::IntervalWork;
use wagmi_alerts::history::SnapshotHistory;
use wagmi_alerts::history::TokensAt;
use wagmi_alerts::market::TokenInfo;
use wagmi_alerts::market::TokenMap;
use wagmi_alerts::market::PRICE_SCALE;
use wagmi_alerts::scheduler::build_history_snapshot;
use wagmi_alerts::scheduler::minute_bucket;
use wagmi_alerts::scheduler::tick_next;
use wagmi_alerts::scheduler::TickStage;

const S: u64 = PRICE_SCALE;

fn snap(pairs: &[(&str, u64)]) -> TokenMap {
    let mut map = TokenMap::new();
    for (symbol, price) in pairs {
        map.insert(
            symbol.to_string(),
            TokenInfo {
                name: symbol.to_string(),
                full_name: None,
                price: *price,
                price_prev_24h: *price,
                pair_number: Some(10000),
                market_cap: 1,
            },
        );
    }
    map
}

#[test]
fn broadcast_never_exceeds_the_ceiling() {
    // Twelve destinations, two of which will fail: every one is
    // attempted, at most five are ever in flight, and the aggregate
    // reports failure.
    let destinations: Vec<i64> = (1..=12).collect();
    let mut run = BroadcastRun::new(destinations);
    let mut pending: Vec<i64> = Vec::new();
    let mut attempted: Vec<i64> = Vec::new();
    while !run.finished() {
        if run.can_submit() {
            let dest = run.next_destination();
            run.record_submit();
            pending.push(dest);
            attempted.push(dest);
            assert!(pending.len() <= MAX_CONCURRENT_SENDS);
        } else {
            let done = pending.remove(0);
            run.record_completion(done != 3 && done != 7);
        }
    }
    assert_eq!(attempted, (1..=12).collect::<Vec<i64>>());
    assert!(run.outcome().is_err());
}

#[test]
fn broadcast_all_successes_report_success() {
    let mut run = BroadcastRun::new(vec![1, 2, 3]);
    while !run.finished() {
        if run.can_submit() {
            run.record_submit();
        } else {
            run.record_completion(true);
        }
    }
    assert!(run.outcome().is_ok());
}

#[test]
fn persist_retry_success_owes_no_escalation() {
    // First persistence failure, then success: no escalation at all.
    let (stage, escalation) =
        tick_next(TickStage::PersistSnapshot { retried: false }, false, "timeout");
    assert_eq!(stage, TickStage::PersistSnapshot { retried: true });
    assert!(escalation.is_none());
    let (stage, escalation) = tick_next(stage, true, "");
    assert_eq!(stage, TickStage::Done);
    assert!(escalation.is_none());
}

#[test]
fn persist_failing_twice_escalates_once() {
    let (stage, first) =
        tick_next(TickStage::PersistSnapshot { retried: false }, false, "timeout");
    assert!(first.is_none());
    let (stage, second) = tick_next(stage, false, "timeout");
    assert_eq!(stage, TickStage::Done);
    let msg = second.expect("second failure escalates");
    assert!(msg.starts_with("Error pushing in database 2 times"));
}

#[test]
fn failed_fetch_aborts_the_tick() {
    let (stage, escalation) = tick_next(TickStage::FetchMarket, false, "connection reset");
    assert_eq!(stage, TickStage::Done);
    assert_eq!(escalation.unwrap(), "Error during fetch connection reset");
    let (stage, escalation) = tick_next(TickStage::FetchMarket, true, "");
    assert_eq!(stage, TickStage::PumpScan);
    assert!(escalation.is_none());
}

#[test]
fn minute_buckets() {
    assert_eq!(minute_bucket(0), 0);
    assert_eq!(minute_bucket(59), 0);
    assert_eq!(minute_bucket(60), 1);
    assert_eq!(minute_bucket(1609459260), 26824321);
}

#[test]
fn history_returns_most_recent_tagged() {
    let mut history = SnapshotHistory::new();
    assert!(history.latest_tagged("1h").is_none());
    history.append(TokensAt {
        timestamp_in_min: 100,
        times: vec!["15min".to_string(), "1h".to_string()],
        tokens: snap(&[("AAA", 1 * S)]),
    });
    history.append(TokensAt {
        timestamp_in_min: 160,
        times: vec!["15min".to_string()],
        tokens: snap(&[("AAA", 2 * S)]),
    });
    history.append(TokensAt {
        timestamp_in_min: 130,
        times: vec!["1h".to_string()],
        tokens: snap(&[("AAA", 3 * S)]),
    });
    assert_eq!(history.latest_tagged("15min").unwrap().timestamp_in_min, 160);
    assert_eq!(history.latest_tagged("1h").unwrap().timestamp_in_min, 130);
    assert!(history.latest_tagged("sat").is_none());
}

#[test]
fn snapshot_build_tags_the_minute() {
    let snap = build_history_snapshot(
        1609459260,
        vec!["15min".to_string()],
        snap(&[("AAA", 1 * S)]),
    );
    assert_eq!(snap.timestamp_in_min, 26824321);
    assert_eq!(snap.times, vec!["15min".to_string()]);
}

fn hourly_alert(token: &str) -> Demand {
    Demand {
        chat_id: 1,
        thread_id: None,
        type_of: "alert".to_string(),
        token: token.to_string(),
        percentage: 0,
        interval: "1h".to_string(),
    }
}

#[test]
fn batch_isolates_interval_failures() {
    // One interval's lookup fails; the other still produces its
    // notification, and exactly one aggregated report is owed.
    let now = snap(&[("AAA", 103 * S)]);
    let work = vec![
        IntervalWork {
            interval: "15min".to_string(),
            fetched: Err("connection lost".to_string()),
            history: None,
        },
        IntervalWork {
            interval: "1h".to_string(),
            fetched: Ok(vec![hourly_alert("AAA")]),
            history: Some(snap(&[("AAA", 100 * S)])),
        },
    ];
    let (notes, escalation) = execute_demands(&work, &now);
    assert_eq!(notes.len(), 1);
    assert!(notes[0].text.contains("risen by 3.00%"));
    let msg = escalation.expect("one aggregated report");
    assert_eq!(msg, "Error satisfying demand for :15min: connection lost\n");
}

#[test]
fn batch_without_failures_owes_no_escalation() {
    let now = snap(&[("AAA", 100 * S)]);
    let work = vec![
        IntervalWork {
            interval: "1h".to_string(),
            fetched: Ok(vec![hourly_alert("AAA")]),
            history: Some(snap(&[("AAA", 100 * S)])),
        },
        IntervalWork {
            interval: "15min".to_string(),
            fetched: Ok(vec![]),
            history: None,
        },
    ];
    let (notes, escalation) = execute_demands(&work, &now);
    assert!(notes.is_empty());
    assert!(escalation.is_none());
}
