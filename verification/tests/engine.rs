use presence_engine::errors::{ConfigError, FetchError, StoreError};
use presence_engine::logger::LogStore;
use presence_engine::order::{name_le, sorted_names};
use presence_engine::reconcile::{reconcile, ReconcileOutcome};
use presence_engine::record::{names_index_key, record_key, PresenceRecord};
use presence_engine::schedule::{
    EngineConfig, Registry, DEFAULT_DELETE_GRACE_SECONDS, DEFAULT_TTL_SECONDS,
};
use presence_engine::snapshot::{group_sightings, Sighting, SnapshotEntry};
use presence_engine::summary::summary_message;
use presence_engine::text::{dec_string, join_or_dash, padded};

fn entry(name: &str, occupants: &[&str]) -> SnapshotEntry {
    SnapshotEntry {
        name: name.to_string(),
        occupants: occupants.iter().map(|o| o.to_string()).collect(),
    }
}

fn online_record(name: &str, occupants: &[&str], first_seen: i64, expire_at: i64) -> PresenceRecord {
    PresenceRecord {
        name: name.to_string(),
        online: true,
        occupant_count: occupants.len(),
        occupants: occupants.iter().map(|o| o.to_string()).collect(),
        first_seen,
        offline_since: None,
        expire_at,
    }
}

fn offline_record(name: &str, first_seen: i64, offline_since: i64, expire_at: i64) -> PresenceRecord {
    PresenceRecord {
        name: name.to_string(),
        online: false,
        occupant_count: 0,
        occupants: Vec::new(),
        first_seen,
        offline_since: Some(offline_since),
        expire_at,
    }
}

fn run(
    snapshot: Vec<SnapshotEntry>,
    prior: Vec<PresenceRecord>,
    now: i64,
) -> ReconcileOutcome {
    reconcile(&snapshot, &prior, now, DEFAULT_TTL_SECONDS, DEFAULT_DELETE_GRACE_SECONDS)
}

#[test]
fn present_with_three_occupants_is_online() {
    let out = run(vec![entry("X", &["a", "b", "c"])], Vec::new(), 1000);
    assert_eq!(out.writes.len(), 1);
    let w = &out.writes[0];
    assert_eq!(w.name, "X");
    assert!(w.online);
    assert_eq!(w.occupant_count, 3);
    assert_eq!(w.occupants, vec!["a", "b", "c"]);
    assert_eq!(w.first_seen, 1000);
    assert_eq!(w.offline_since, None);
    assert_eq!(w.expire_at, 1000 + DEFAULT_TTL_SECONDS);
    assert!(out.deletes.is_empty());
}

#[test]
fn first_absence_marks_offline_not_deleted() {
    let t0 = 5000;
    let t1 = t0 + 10;
    let prior = vec![online_record("X", &["a"], t0, t0 + DEFAULT_TTL_SECONDS)];
    let out = run(Vec::new(), prior, t1);
    assert!(out.deletes.is_empty());
    assert_eq!(out.writes.len(), 1);
    let w = &out.writes[0];
    assert_eq!(w.name, "X");
    assert!(!w.online);
    assert_eq!(w.occupant_count, 0);
    assert!(w.occupants.is_empty());
    assert_eq!(w.offline_since, Some(t1));
    assert_eq!(w.first_seen, t0);
}

#[test]
fn within_grace_carries_offline_since() {
    let t1 = 5010;
    let prior = vec![offline_record("X", 5000, t1, t1 + DEFAULT_TTL_SECONDS)];
    let out = run(Vec::new(), prior, t1 + 60);
    assert!(out.deletes.is_empty());
    assert_eq!(out.writes.len(), 1);
    assert_eq!(out.writes[0].offline_since, Some(t1));
    assert_eq!(out.writes[0].first_seen, 5000);
}

#[test]
fn deleted_once_offline_age_exceeds_grace() {
    let t1 = 5010;
    let prior = vec![offline_record("X", 5000, t1, t1 + DEFAULT_TTL_SECONDS)];
    let out = run(Vec::new(), prior, t1 + 61);
    assert_eq!(out.deletes, vec!["X"]);
    assert!(out.writes.is_empty());
    assert_eq!(out.summary.removed, 1);
}

#[test]
fn reappearance_within_grace_restores_online_and_first_seen() {
    let t1 = 5010;
    let prior = vec![offline_record("X", 4000, t1, t1 + DEFAULT_TTL_SECONDS)];
    let out = run(vec![entry("X", &["a"])], prior, t1 + 30);
    assert!(out.deletes.is_empty());
    assert_eq!(out.writes.len(), 1);
    let w = &out.writes[0];
    assert!(w.online);
    assert_eq!(w.offline_since, None);
    assert_eq!(w.first_seen, 4000);
}

#[test]
fn summary_counts_added_removed_unchanged() {
    // 2 new entities, 1 deleted, 5 unchanged (4 still present + 1 kept offline).
    let now = 10000;
    let prior = vec![
        online_record("a", &["p"], 1, 2),
        online_record("b", &["p"], 1, 2),
        online_record("c", &["p"], 1, 2),
        online_record("d", &["p"], 1, 2),
        offline_record("e", 1, now - 10, 2),
        offline_record("gone", 1, now - 100, 2),
    ];
    let snapshot = vec![
        entry("a", &["p"]),
        entry("b", &["p"]),
        entry("c", &["p"]),
        entry("d", &["p"]),
        entry("new1", &["q"]),
        entry("new2", &["q", "r"]),
    ];
    let out = run(snapshot, prior, now);
    assert_eq!(out.summary.added, 2);
    assert_eq!(out.summary.removed, 1);
    assert_eq!(out.summary.unchanged, 5);
    assert_eq!(out.summary.added_names, vec!["new1", "new2"]);
    assert_eq!(out.summary.removed_names, vec!["gone"]);
    assert_eq!(out.summary.online_now, vec!["a", "b", "c", "d", "new1", "new2"]);
    assert_eq!(out.summary.offline_now, vec!["e"]);
}

#[test]
fn present_with_zero_occupants_gets_fresh_offline_since() {
    let prior = vec![offline_record("X", 100, 200, 300)];
    let out = run(vec![entry("X", &[])], prior, 1000);
    assert!(out.deletes.is_empty());
    let w = &out.writes[0];
    assert!(!w.online);
    assert_eq!(w.occupant_count, 0);
    // Present-but-empty is a fresh offline transition, not the carried value.
    assert_eq!(w.offline_since, Some(1000));
    assert_eq!(w.first_seen, 100);
}

#[test]
fn age_exactly_grace_keeps_the_record() {
    let prior = vec![offline_record("X", 1, 1000, 2)];
    let out = run(Vec::new(), prior, 1000 + DEFAULT_DELETE_GRACE_SECONDS);
    assert!(out.deletes.is_empty());
    assert_eq!(out.writes.len(), 1);
}

#[test]
fn empty_snapshot_applies_ordinary_grace_logic() {
    let now = 1000;
    let prior = vec![
        online_record("a", &["p"], 1, 2),
        offline_record("b", 1, now - 61, 2),
    ];
    let out = run(Vec::new(), prior, now);
    assert_eq!(out.writes.len(), 1);
    assert_eq!(out.writes[0].name, "a");
    assert_eq!(out.writes[0].offline_since, Some(now));
    assert_eq!(out.deletes, vec!["b"]);
}

#[test]
fn reconcile_twice_is_idempotent() {
    let now = 9000;
    let prior = vec![
        online_record("a", &["p", "q"], 1, 2),
        offline_record("b", 1, now - 30, 2),
        offline_record("gone", 1, now - 1000, 2),
    ];
    let snapshot = vec![entry("a", &["p", "q"]), entry("fresh", &["r"])];
    let first = reconcile(&snapshot, &prior, now, 100, 60);
    let second = reconcile(&snapshot, &first.writes, now, 100, 60);
    assert!(second.deletes.is_empty());
    assert_eq!(second.writes.len(), first.writes.len());
    for (w1, w2) in first.writes.iter().zip(second.writes.iter()) {
        assert_eq!(w1.name, w2.name);
        assert_eq!(w1.online, w2.online);
        assert_eq!(w1.occupant_count, w2.occupant_count);
        assert_eq!(w1.occupants, w2.occupants);
        assert_eq!(w1.first_seen, w2.first_seen);
        assert_eq!(w1.offline_since, w2.offline_since);
        assert_eq!(w1.expire_at, w2.expire_at);
    }
}

#[test]
fn flapping_entity_survives_while_it_keeps_reappearing() {
    // Absent, back, absent, back: never deleted while each absence stays
    // within grace, and first_seen never moves.
    let grace = DEFAULT_DELETE_GRACE_SECONDS;
    let t0 = 1000;
    let mut records = vec![online_record("X", &["p"], t0, 0)];
    let mut now = t0;
    for step in 0..4 {
        now += grace / 2;
        let snapshot = if step % 2 == 0 {
            Vec::new()
        } else {
            vec![entry("X", &["p"])]
        };
        let out = run(snapshot, records, now);
        assert!(out.deletes.is_empty());
        assert_eq!(out.writes.len(), 1);
        assert_eq!(out.writes[0].first_seen, t0);
        records = out.writes;
    }
}

#[test]
fn grouping_preserves_first_appearance_order() {
    let sightings = vec![
        Sighting { occupant: "p1".to_string(), entity: "A".to_string() },
        Sighting { occupant: "p2".to_string(), entity: "B".to_string() },
        Sighting { occupant: "p3".to_string(), entity: "A".to_string() },
        Sighting { occupant: "p4".to_string(), entity: "A".to_string() },
    ];
    let snapshot = group_sightings(&sightings);
    assert_eq!(snapshot.len(), 2);
    assert_eq!(snapshot[0].name, "A");
    assert_eq!(snapshot[0].occupants, vec!["p1", "p3", "p4"]);
    assert_eq!(snapshot[1].name, "B");
    assert_eq!(snapshot[1].occupants, vec!["p2"]);
}

#[test]
fn grouping_of_no_sightings_is_empty() {
    let snapshot = group_sightings(&Vec::new());
    assert!(snapshot.is_empty());
}

#[test]
fn store_keys_are_namespaced() {
    assert_eq!(record_key(&"WC1".to_string()), "presence:WC1:data");
    assert_eq!(names_index_key(), "presence:names");
    let r = online_record("WC1", &["p"], 1, 7);
    assert_eq!(r.store_key(), "presence:WC1:data");
    assert_eq!(r.expire_at_millis(), 7000);
}

#[test]
fn decimal_rendering_is_exact() {
    assert_eq!(dec_string(0), "0");
    assert_eq!(dec_string(9), "9");
    assert_eq!(dec_string(10), "10");
    assert_eq!(dec_string(43200), "43200");
    assert_eq!(dec_string(1234567890), "1234567890");
}

#[test]
fn padding_extends_short_text_only() {
    assert_eq!(padded("TASK", 8), "TASK    ");
    assert_eq!(padded("SUMMARY!", 8), "SUMMARY!");
    assert_eq!(padded("overlong", 4), "overlong");
    assert_eq!(padded("", 3), "   ");
}

#[test]
fn name_order_is_lexicographic() {
    assert!(name_le(&"".to_string(), &"a".to_string()));
    assert!(name_le(&"WC1".to_string(), &"WC2".to_string()));
    assert!(!name_le(&"WC2".to_string(), &"WC1".to_string()));
    assert!(name_le(&"WC".to_string(), &"WC1".to_string()));
    assert!(name_le(&"abc".to_string(), &"abc".to_string()));
}

#[test]
fn sorting_names_orders_and_keeps_duplicates() {
    let names = vec![
        "WC3".to_string(),
        "WC1".to_string(),
        "WC10".to_string(),
        "WC1".to_string(),
        "AB".to_string(),
    ];
    let sorted = sorted_names(&names);
    assert_eq!(sorted, vec!["AB", "WC1", "WC1", "WC10", "WC3"]);
    assert!(sorted_names(&Vec::new()).is_empty());
}

#[test]
fn joining_names_uses_dash_for_empty() {
    assert_eq!(join_or_dash(&Vec::new()), "-");
    assert_eq!(join_or_dash(&vec!["a".to_string()]), "a");
    assert_eq!(join_or_dash(&vec!["a".to_string(), "b".to_string(), "c".to_string()]), "a,b,c");
}

#[test]
fn summary_message_matches_expected_form() {
    let now = 10000;
    let prior = vec![offline_record("old", 1, now - 500, 2)];
    let snapshot = vec![entry("WC1", &["p", "q"])];
    let out = run(snapshot, prior, now);
    let line = summary_message(&out.summary, 240, 12);
    assert_eq!(
        line,
        "servers: added=1 [WC1], removed=1 [old], unchanged=0 | online=[WC1] offline=[-] (http=240ms, store=12ms)"
    );
}

#[test]
fn log_event_records_and_formats() {
    let mut log = LogStore::new();
    let line = log.log_event("TASK", "fetching server list", Some(240));
    assert_eq!(log.entries.len(), 1);
    assert_eq!(log.entries[0].event, "TASK");
    assert_eq!(log.entries[0].message, "fetching server list");
    assert_eq!(log.entries[0].elapsed_ms, Some(240));
    let expected_suffix = format!("  {:<8} {:<40} {}", "TASK", "fetching server list", "240ms");
    assert!(line.ends_with(&expected_suffix));
    let line2 = log.log_event("LAUNCH", "engine started", None);
    assert_eq!(log.entries.len(), 2);
    let expected_suffix2 = format!("  {:<8} {:<40} {}", "LAUNCH", "engine started", "-");
    assert!(line2.ends_with(&expected_suffix2));
}

#[test]
fn registry_requires_a_positive_interval() {
    let mut reg = Registry::new();
    assert_eq!(reg.register("job".to_string(), None), Err(ConfigError::MissingInterval));
    assert_eq!(reg.register("job".to_string(), Some(0)), Err(ConfigError::InvalidInterval));
    assert_eq!(reg.nodes.len(), 0);
    assert_eq!(reg.register("job".to_string(), Some(35)), Ok(()));
    assert_eq!(reg.nodes.len(), 1);
    assert_eq!(reg.nodes[0].name, "job");
    assert_eq!(reg.nodes[0].interval, 35);
}

#[test]
fn error_labels_name_each_failure() {
    assert_eq!(FetchError::Network.describe(), "network failure");
    assert_eq!(FetchError::Timeout.describe(), "timeout");
    assert_eq!(FetchError::MalformedResponse.describe(), "malformed response");
    assert_eq!(StoreError::Connection.describe(), "store connection failure");
    assert_eq!(StoreError::Protocol.describe(), "store protocol failure");
    assert_eq!(StoreError::PartialWrite.describe(), "partial write");
    assert_eq!(ConfigError::MissingInterval.describe(), "missing required interval");
    assert_eq!(ConfigError::InvalidInterval.describe(), "interval must be positive");
}

#[test]
fn engine_config_validity() {
    let good = EngineConfig {
        ttl_seconds: DEFAULT_TTL_SECONDS,
        delete_grace_seconds: DEFAULT_DELETE_GRACE_SECONDS,
        allow_overlapping_cycles: false,
    };
    assert!(good.valid());
    let bad = EngineConfig { ttl_seconds: -1, delete_grace_seconds: 60, allow_overlapping_cycles: true };
    assert!(!bad.valid());
}
