use piwifi::clock::Timestamp;
use piwifi::history::{HistoryManager, SuccessRate, MAX_ENTRIES};

fn at(secs: i64) -> Timestamp {
    Timestamp::new(secs, 0)
}

#[test]
fn test_record_connection() {
    let mut history = HistoryManager::new();
    history.record_connection("MyWiFi".to_string());

    let all = history.get_all();
    assert_eq!(all.len(), 1);
    assert_eq!(all[0].ssid, "MyWiFi");
    assert!(all[0].success);
}

#[test]
fn test_favorites() {
    let mut history = HistoryManager::new();
    history.record_connection("WiFi1".to_string());
    history.record_connection("WiFi2".to_string());
    history.record_connection("WiFi1".to_string());

    let favorites = history.get_favorites(2);
    assert_eq!(favorites[0].0, "WiFi1");
    assert_eq!(favorites[0].1, 2);
}

#[test]
fn record_success_once_gives_one_successful_entry() {
    let mut history = HistoryManager::new();
    history.record_connection("NetA".to_string());
    let all = history.get_all();
    assert_eq!(all.len(), 1);
    assert!(all[0].success);
    assert_eq!(all[0].duration_seconds, None);
    assert_eq!(all[0].disconnection_reason, None);
}

#[test]
fn record_connection_stamps_the_entry_with_the_clock() {
    let mut history = HistoryManager::new();
    history.record_connection("NetA".to_string());
    let all = history.get_all();
    // Later than the first of January 2020.
    assert!(all[0].timestamp.secs > 1_577_836_800);
    assert!(all[0].timestamp.nanos < 2_000_000_000);
}

#[test]
fn favorites_of_one_is_the_most_successful_network() {
    let mut history = HistoryManager::new();
    history.record_connection("A".to_string());
    history.record_connection("B".to_string());
    history.record_connection("A".to_string());
    assert_eq!(history.get_favorites(1), vec![("A".to_string(), 2)]);
}

#[test]
fn favorites_break_ties_by_name() {
    let mut history = HistoryManager::new();
    history.record_connection_at("zeta".to_string(), at(1));
    history.record_connection_at("alpha".to_string(), at(2));
    history.record_connection_at("mid".to_string(), at(3));
    history.record_connection_at("mid".to_string(), at(4));
    history.record_failure_at("never".to_string(), "timeout".to_string(), at(5));
    assert_eq!(
        history.get_favorites(10),
        vec![("mid".to_string(), 2), ("alpha".to_string(), 1), ("zeta".to_string(), 1)]
    );
    assert_eq!(
        history.get_favorites(2),
        vec![("mid".to_string(), 2), ("alpha".to_string(), 1)]
    );
    assert!(history.get_favorites(0).is_empty());
}

#[test]
fn favorites_order_a_prefix_before_the_longer_name() {
    let mut history = HistoryManager::new();
    history.record_connection_at("net10".to_string(), at(1));
    history.record_connection_at("net".to_string(), at(2));
    history.record_connection_at("net1".to_string(), at(3));
    let names: Vec<String> = history.get_favorites(5).into_iter().map(|p| p.0).collect();
    assert_eq!(names, vec!["net", "net1", "net10"]);
}

#[test]
fn log_keeps_the_latest_hundred_in_order() {
    let mut history = HistoryManager::new();
    for i in 0..250i64 {
        if i % 3 == 0 {
            history.record_failure_at(format!("n{}", i), "no".to_string(), at(i));
        } else {
            history.record_connection_at(format!("n{}", i), at(i));
        }
        assert!(history.get_all().len() <= MAX_ENTRIES);
    }
    let all = history.get_all();
    assert_eq!(all.len(), 100);
    // Newest first: entries 249 down to 150.
    for (k, e) in all.iter().enumerate() {
        let i = 249 - k as i64;
        assert_eq!(e.ssid, format!("n{}", i));
        assert_eq!(e.timestamp.secs, i);
        assert_eq!(e.success, i % 3 != 0);
    }
}

#[test]
fn hundredth_entry_does_not_evict() {
    let mut history = HistoryManager::new();
    for i in 0..100i64 {
        history.record_connection_at(format!("n{}", i), at(i));
    }
    let all = history.get_all();
    assert_eq!(all.len(), 100);
    assert_eq!(all[99].ssid, "n0");
    history.record_connection_at("n100".to_string(), at(100));
    let all = history.get_all();
    assert_eq!(all.len(), 100);
    assert_eq!(all[99].ssid, "n1");
    assert_eq!(all[0].ssid, "n100");
}

#[test]
fn failure_entry_carries_the_reason() {
    let mut history = HistoryManager::new();
    history.record_failure("Cafe".to_string(), "wrong passphrase".to_string());
    let all = history.get_all();
    assert_eq!(all.len(), 1);
    assert!(!all[0].success);
    assert_eq!(all[0].disconnection_reason.as_deref(), Some("wrong passphrase"));
}

#[test]
fn disconnection_fills_the_latest_successful_entry() {
    let mut history = HistoryManager::new();
    history.record_connection_at("Home".to_string(), at(1));
    history.record_connection_at("Work".to_string(), at(2));
    history.record_connection_at("Home".to_string(), at(3));
    history.record_failure_at("Home".to_string(), "lost".to_string(), at(4));
    history.record_disconnection("Home".to_string(), 77);
    let all = history.get_all();
    // Newest first: failure(4), Home(3), Work(2), Home(1).
    assert_eq!(all[0].duration_seconds, None);
    assert_eq!(all[1].duration_seconds, Some(77));
    assert_eq!(all[2].duration_seconds, None);
    assert_eq!(all[3].duration_seconds, None);
}

#[test]
fn disconnection_without_a_successful_entry_changes_nothing() {
    let mut history = HistoryManager::new();
    history.record_failure_at("Home".to_string(), "lost".to_string(), at(1));
    history.record_connection_at("Work".to_string(), at(2));
    history.record_disconnection("Home".to_string(), 10);
    let all = history.get_all();
    assert_eq!(all.len(), 2);
    assert_eq!(all[0].duration_seconds, None);
    assert_eq!(all[1].duration_seconds, None);
}

#[test]
fn by_ssid_filters_newest_first() {
    let mut history = HistoryManager::new();
    history.record_connection_at("A".to_string(), at(1));
    history.record_connection_at("B".to_string(), at(2));
    history.record_failure_at("A".to_string(), "x".to_string(), at(3));
    let a = history.get_by_ssid("A");
    assert_eq!(a.len(), 2);
    assert_eq!(a[0].timestamp.secs, 3);
    assert_eq!(a[1].timestamp.secs, 1);
    assert!(history.get_by_ssid("C").is_empty());
}

#[test]
fn success_rate_counts_attempts() {
    let mut history = HistoryManager::new();
    history.record_connection_at("A".to_string(), at(1));
    history.record_failure_at("A".to_string(), "x".to_string(), at(2));
    history.record_failure_at("A".to_string(), "x".to_string(), at(3));
    history.record_failure_at("B".to_string(), "x".to_string(), at(4));
    let rate = history.get_success_rate("A").unwrap();
    assert_eq!(rate, SuccessRate { successes: 1, attempts: 3 });
    assert_eq!(rate.percent(), 33);
    let rate = history.get_success_rate("B").unwrap();
    assert_eq!(rate.percent(), 0);
    assert_eq!(history.get_success_rate("never tried"), None);
}

#[test]
fn success_rate_of_all_successes_is_a_hundred() {
    let mut history = HistoryManager::new();
    history.record_connection_at("A".to_string(), at(1));
    history.record_connection_at("A".to_string(), at(2));
    assert_eq!(history.get_success_rate("A").unwrap().percent(), 100);
}

#[test]
fn clear_empties_the_log() {
    let mut history = HistoryManager::new();
    history.record_connection_at("A".to_string(), at(1));
    history.clear();
    assert!(history.get_all().is_empty());
    assert!(history.get_favorites(5).is_empty());
    assert_eq!(history.get_success_rate("A"), None);
}
