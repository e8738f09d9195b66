use actraild::counts::{
    checked_increment, decrement_map, increment_map, release_in_flight, reserve_in_flight,
    InFlightCounts,
};

#[test]
fn reserve_then_release_restores_counts() {
    let mut counts: InFlightCounts<String> = InFlightCounts::new();
    assert_eq!(reserve_in_flight(&mut counts, "rule-a"), Ok(()));
    assert_eq!(reserve_in_flight(&mut counts, "rule-a"), Ok(()));
    assert_eq!(reserve_in_flight(&mut counts, "rule-b"), Ok(()));
    assert_eq!(counts.get(&"rule-a".to_string()), 2);
    release_in_flight(&mut counts, "rule-a");
    assert_eq!(counts.get(&"rule-a".to_string()), 1);
    release_in_flight(&mut counts, "rule-a");
    assert_eq!(counts.get(&"rule-a".to_string()), 0);
    release_in_flight(&mut counts, "rule-a");
    assert_eq!(counts.get(&"rule-a".to_string()), 0);
    assert_eq!(counts.get(&"rule-b".to_string()), 1);
}

#[test]
fn reserve_refuses_a_counter_at_its_maximum() {
    let mut counts: InFlightCounts<String> = InFlightCounts::new();
    counts.insert("rule-a".to_string(), u32::MAX);
    assert_eq!(
        reserve_in_flight(&mut counts, "rule-a"),
        Err("in-flight counter overflow for rule rule-a".to_string())
    );
    assert_eq!(counts.get(&"rule-a".to_string()), u32::MAX);
}

#[test]
fn checked_increment_names_the_counter_on_overflow() {
    assert_eq!(checked_increment(4, "global pending").ok(), Some(5));
    let error = checked_increment(u32::MAX, "global pending").unwrap_err();
    assert_eq!(error.code, "network_control_accounting");
    assert_eq!(error.message, "global pending overflow");
}

#[test]
fn increment_and_decrement_map_with_pair_keys() {
    let mut counts: InFlightCounts<(String, String)> = InFlightCounts::new();
    let key = ("owner".to_string(), "rule".to_string());
    assert!(increment_map(&mut counts, key.clone(), "rule in-flight").is_ok());
    assert!(increment_map(&mut counts, key.clone(), "rule in-flight").is_ok());
    assert_eq!(counts.get(&key), 2);
    let other = ("owner".to_string(), "other".to_string());
    assert_eq!(counts.get(&other), 0);
    assert!(decrement_map(&mut counts, &key, "rule in-flight").is_ok());
    assert!(decrement_map(&mut counts, &key, "rule in-flight").is_ok());
    assert_eq!(counts.get(&key), 0);
    let error = decrement_map(&mut counts, &key, "rule in-flight").unwrap_err();
    assert_eq!(error.code, "network_control_accounting");
    assert_eq!(error.message, "rule in-flight underflow");
}

#[test]
fn increment_map_overflow_leaves_counts_unchanged() {
    let mut counts: InFlightCounts<String> = InFlightCounts::new();
    counts.insert("target".to_string(), u32::MAX);
    let error = increment_map(&mut counts, "target".to_string(), "instance in-flight").unwrap_err();
    assert_eq!(error.message, "instance in-flight overflow");
    assert_eq!(counts.get(&"target".to_string()), u32::MAX);
}
