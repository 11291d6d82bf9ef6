use linura::observation::retention::{
    ObservationRetention, RetentionError, DEFAULT_OBSERVATION_HISTORY_PER_RESOURCE,
    DEFAULT_OBSERVED_RESOURCE_LIMIT,
};

const UNIT: &str = "systemd:unit:sshd.service";

#[test]
fn retention_limits_must_be_positive() {
    assert!(matches!(
        ObservationRetention::with_limits(0, 1),
        Err(RetentionError::InvalidResourceLimit { max_resources: 0 })
    ));
    assert!(matches!(
        ObservationRetention::with_history_limit(0),
        Err(RetentionError::InvalidHistoryLimit { max_evidence_per_resource: 0 })
    ));
    assert!(matches!(
        ObservationRetention::with_limits(0, 0),
        Err(RetentionError::InvalidResourceLimit { max_resources: 0 })
    ));
    assert!(ObservationRetention::with_limits(1, 1).is_ok());
    assert_eq!(DEFAULT_OBSERVATION_HISTORY_PER_RESOURCE, 64);
    assert_eq!(DEFAULT_OBSERVED_RESOURCE_LIMIT, 4096);
}

#[test]
fn retention_orders_strictly_increase() {
    let mut retention = ObservationRetention::new();
    assert_eq!(retention.next_order(), Ok(1));
    assert_eq!(retention.next_order(), Ok(2));
    assert_eq!(retention.next_order(), Ok(3));
}

#[test]
fn per_resource_history_keeps_the_newest_evidence() {
    let mut retention = ObservationRetention::with_history_limit(2).unwrap();
    retention.next_order().unwrap();
    assert!(retention.retain(UNIT, "ev-1", Some("ev-1")).evicted_evidence.is_empty());
    retention.next_order().unwrap();
    assert!(retention.retain(UNIT, "ev-2", Some("ev-2")).evicted_evidence.is_empty());
    retention.next_order().unwrap();
    let outcome = retention.retain(UNIT, "ev-3", Some("ev-3"));
    assert_eq!(outcome.evicted_evidence, vec!["ev-1".to_string()]);
    assert!(outcome.evicted_resource.is_none());
    assert!(!retention.contains_evidence(UNIT, "ev-1"));
    assert!(retention.contains_evidence(UNIT, "ev-2"));
    assert!(retention.contains_evidence(UNIT, "ev-3"));
    assert_eq!(retention.resource_count(), 1);
}

#[test]
fn current_evidence_survives_a_rejected_late_read() {
    let mut retention = ObservationRetention::with_history_limit(1).unwrap();
    retention.next_order().unwrap();
    retention.retain(UNIT, "current", Some("current"));
    retention.next_order().unwrap();
    let outcome = retention.retain(UNIT, "late", Some("current"));
    assert_eq!(outcome.evicted_evidence, vec!["late".to_string()]);
    assert!(retention.contains_evidence(UNIT, "current"));
    assert!(!retention.contains_evidence(UNIT, "late"));
}

#[test]
fn evidence_already_retained_is_not_duplicated() {
    let mut retention = ObservationRetention::with_history_limit(2).unwrap();
    retention.next_order().unwrap();
    retention.retain(UNIT, "ev-1", Some("ev-1"));
    retention.next_order().unwrap();
    retention.retain(UNIT, "ev-2", Some("ev-2"));
    retention.next_order().unwrap();
    let outcome = retention.retain(UNIT, "ev-2", Some("ev-2"));
    assert!(outcome.evicted_evidence.is_empty());
    assert!(retention.contains_evidence(UNIT, "ev-1"));
    assert!(retention.contains_evidence(UNIT, "ev-2"));
}

#[test]
fn least_recently_seen_resource_is_evicted_first() {
    let mut retention = ObservationRetention::with_limits(2, 4).unwrap();
    retention.next_order().unwrap();
    retention.retain("systemd:unit:first.service", "a-1", Some("a-1"));
    retention.next_order().unwrap();
    retention.retain("systemd:unit:second.service", "b-1", Some("b-1"));
    retention.next_order().unwrap();
    retention.retain("systemd:unit:first.service", "a-2", Some("a-2"));
    retention.next_order().unwrap();
    let outcome = retention.retain("systemd:unit:third.service", "c-1", Some("c-1"));
    let (resource, evidence) = outcome.evicted_resource.unwrap();
    assert_eq!(resource, "systemd:unit:second.service");
    assert_eq!(evidence, vec!["b-1".to_string()]);
    assert_eq!(retention.resource_count(), 2);
    assert!(retention.contains_evidence("systemd:unit:first.service", "a-1"));
    assert!(retention.contains_evidence("systemd:unit:third.service", "c-1"));
    assert!(!retention.contains_evidence("systemd:unit:second.service", "b-1"));
}

#[test]
fn observed_resource_set_stays_within_one_resource() {
    let mut retention = ObservationRetention::with_limits(1, 4).unwrap();
    retention.next_order().unwrap();
    retention.retain("systemd:unit:first.service", "first", Some("first"));
    retention.next_order().unwrap();
    let outcome = retention.retain("systemd:unit:second.service", "second", Some("second"));
    let (resource, evidence) = outcome.evicted_resource.unwrap();
    assert_eq!(resource, "systemd:unit:first.service");
    assert_eq!(evidence, vec!["first".to_string()]);
    assert_eq!(retention.resource_count(), 1);
    assert!(retention.contains_evidence("systemd:unit:second.service", "second"));
}
