use wagmi_alerts::command::check_demand;
use wagmi_alerts::command::ValidationError;
use wagmi_alerts::command::ADMIN_CHAT_ID;
use wagmi_alerts::counts::ChatDemandCounts;
use wagmi_alerts::demand::Demand;
use wagmi_alerts::store::DemandStore;
use wagmi_alerts::store::StoreRejection;

fn stored_alert(chat_id: i64, token: &str, percentage: i16, interval: &str) -> Demand {
    Demand {
        chat_id,
        thread_id: None,
        type_of: "alert".to_string(),
        token: token.to_string(),
        percentage,
        interval: interval.to_string(),
    }
}

#[test]
fn decrement_past_zero_stays_at_zero() {
    let mut counts = ChatDemandCounts::new();
    assert_eq!(counts.count_for_chat(5), 0);
    assert_eq!(counts.decrease_chat_demand(5), 0);
    assert_eq!(counts.decrease_chat_demand(5), 0);
    assert_eq!(counts.count_for_chat(5), 0);
    counts.increase_chat_demand(5);
    assert_eq!(counts.count_for_chat(5), 1);
    assert_eq!(counts.decrease_chat_demand(5), 0);
    assert_eq!(counts.decrease_chat_demand(5), 0);
    assert_eq!(counts.count_for_chat(5), 0);
}

#[test]
fn counts_are_per_chat() {
    let mut counts = ChatDemandCounts::new();
    counts.increase_chat_demand(1);
    counts.increase_chat_demand(1);
    counts.increase_chat_demand(2);
    assert_eq!(counts.count_for_chat(1), 2);
    assert_eq!(counts.count_for_chat(2), 1);
    counts.remove_chat(1);
    assert_eq!(counts.count_for_chat(1), 0);
    assert_eq!(counts.count_for_chat(2), 1);
}

#[test]
fn three_inserts_fill_the_quota() {
    let mut store = DemandStore::new();
    let chat = 99;
    assert!(check_demand(store.counts(), chat).is_ok());
    assert!(store.insert(stored_alert(chat, "AAA", 0, "1h")).is_ok());
    assert!(check_demand(store.counts(), chat).is_ok());
    assert!(store.insert(stored_alert(chat, "BBB", 0, "1h")).is_ok());
    assert!(check_demand(store.counts(), chat).is_ok());
    assert!(store.insert(stored_alert(chat, "CCC", 0, "1h")).is_ok());
    assert_eq!(store.count_for_chat(chat), 3);
    assert_eq!(
        check_demand(store.counts(), chat),
        Err(ValidationError::QuotaExceeded)
    );
}

#[test]
fn privileged_chat_is_unlimited() {
    let mut store = DemandStore::new();
    for i in 0..10 {
        assert!(check_demand(store.counts(), ADMIN_CHAT_ID).is_ok());
        let token = format!("T{}", i);
        assert!(store.insert(stored_alert(ADMIN_CHAT_ID, token.as_str(), 0, "1h")).is_ok());
    }
    assert!(check_demand(store.counts(), ADMIN_CHAT_ID).is_ok());
}

#[test]
fn duplicate_insert_is_reported_distinctly() {
    let mut store = DemandStore::new();
    assert!(store.insert(stored_alert(1, "AAA", 0, "1h")).is_ok());
    assert_eq!(store.insert(stored_alert(1, "AAA", 0, "1h")), Err(StoreRejection::Duplicate));
    assert_eq!(store.count_for_chat(1), 1);
    // A different threshold is a different identity.
    assert!(store.insert(stored_alert(1, "AAA", 2, "1h")).is_ok());
}

#[test]
fn delete_decrements_and_missing_is_not_found() {
    let mut store = DemandStore::new();
    let d = stored_alert(7, "AAA", 0, "1h");
    assert!(store.insert(d.duplicate()).is_ok());
    assert_eq!(store.count_for_chat(7), 1);
    assert!(store.delete_by_identity(&d).is_ok());
    assert_eq!(store.count_for_chat(7), 0);
    assert_eq!(store.delete_by_identity(&d), Err(StoreRejection::NotFound));
}

#[test]
fn bulk_delete_clears_the_chat() {
    let mut store = DemandStore::new();
    assert!(store.insert(stored_alert(7, "AAA", 0, "1h")).is_ok());
    assert!(store.insert(stored_alert(7, "BBB", 0, "1h")).is_ok());
    assert!(store.insert(stored_alert(8, "CCC", 0, "1h")).is_ok());
    store.delete_all_for_chat(7);
    assert_eq!(store.count_for_chat(7), 0);
    assert!(store.get_demands_by_chat_id(7).is_empty());
    assert_eq!(store.get_demands_by_chat_id(8).len(), 1);
    assert_eq!(store.count_for_chat(8), 1);
}

#[test]
fn listing_is_sorted_by_kind_token_threshold_interval() {
    let mut store = DemandStore::new();
    assert!(store.insert(Demand::new(5, "pumpcheck".to_string(), None)).is_ok());
    assert!(store.insert(stored_alert(5, "ETH", 0, "1h")).is_ok());
    assert!(store.insert(stored_alert(5, "BTC", 5, "1h")).is_ok());
    assert!(store.insert(stored_alert(5, "BTC", 2, "24h")).is_ok());
    let listed = store.get_demands_by_chat_id(5);
    assert_eq!(listed.len(), 4);
    assert_eq!(listed[0].token, "BTC");
    assert_eq!(listed[0].percentage, 2);
    assert_eq!(listed[1].token, "BTC");
    assert_eq!(listed[1].percentage, 5);
    assert_eq!(listed[2].token, "ETH");
    assert_eq!(listed[3].type_of, "pumpcheck");
}

#[test]
fn list_by_interval_and_kind_filters() {
    let mut store = DemandStore::new();
    assert!(store.insert(stored_alert(1, "AAA", 0, "1h")).is_ok());
    assert!(store.insert(stored_alert(2, "BBB", 0, "15min")).is_ok());
    assert!(store.insert(stored_alert(3, "CCC", 0, "1h")).is_ok());
    assert!(store.insert(Demand::new(4, "pumpcheck".to_string(), None)).is_ok());
    let hourly = store.list_by_interval_and_kind("1h", "alert");
    assert_eq!(hourly.len(), 2);
    assert_eq!(hourly[0].chat_id, 1);
    assert_eq!(hourly[1].chat_id, 3);
}

#[test]
fn special_chats_are_listed() {
    let mut store = DemandStore::new();
    assert!(store.insert(Demand::new(10, "pumpcheck".to_string(), None)).is_ok());
    assert!(store.insert(stored_alert(11, "AAA", 0, "1h")).is_ok());
    assert!(store.insert(Demand::new(12, "pumpcheck".to_string(), None)).is_ok());
    assert_eq!(store.get_all_special_chat_id(), vec![10, 12]);
}

#[test]
fn reload_recounts_from_the_table() {
    let mut store = DemandStore::new();
    assert!(store.insert(stored_alert(1, "AAA", 0, "1h")).is_ok());
    assert!(store.insert(stored_alert(1, "BBB", 0, "1h")).is_ok());
    assert!(store.insert(stored_alert(2, "CCC", 0, "1h")).is_ok());
    store.reload_all_counts();
    assert_eq!(store.count_for_chat(1), 2);
    assert_eq!(store.count_for_chat(2), 1);
    assert_eq!(store.count_for_chat(3), 0);
}
