use subwatch::model::NotifyMeta;
use subwatch::state::{observe, ArmPolicy};

fn fresh(policy: ArmPolicy, due: i64, now: i64) -> (NotifyMeta, bool) {
    observe(None, policy, 7, due, now)
}

#[test]
fn first_observation_future_arms_without_firing() {
    let (meta, fired) = fresh(ArmPolicy::ArmAlways, 1_000, 100);
    assert!(!fired);
    assert!(meta.will_notify);
    assert_eq!(meta.last_return_time, 1_000);
    assert_eq!(meta.submarine_id, 7);
}

#[test]
fn db_policy_fires_for_past_due_at_first_observation() {
    let (meta, fired) = fresh(ArmPolicy::ArmAlways, 100, 1_000);
    assert!(fired);
    assert!(!meta.will_notify);
}

#[test]
fn file_policy_never_fires_an_entry_loaded_already_past() {
    let (meta, fired) = fresh(ArmPolicy::ArmFutureOnly, 100, 1_000);
    assert!(!fired);
    assert!(!meta.will_notify);
    assert_eq!(meta.last_return_time, 100);
    // Later cycles with the unchanged due time stay silent too.
    let (meta, fired) = observe(Some(meta), ArmPolicy::ArmFutureOnly, 7, 100, 2_000);
    assert!(!fired);
    let (_, fired) = observe(Some(meta), ArmPolicy::ArmFutureOnly, 7, 100, 3_000);
    assert!(!fired);
}

#[test]
fn fires_exactly_once_when_due_elapses() {
    let (meta, fired) = fresh(ArmPolicy::ArmAlways, 1_000, 100);
    assert!(!fired);
    let (meta, fired) = observe(Some(meta), ArmPolicy::ArmAlways, 7, 1_000, 999);
    assert!(!fired);
    let (meta, fired) = observe(Some(meta), ArmPolicy::ArmAlways, 7, 1_000, 1_000);
    assert!(fired);
    // No duplicate fire while the due time stays the same.
    let (meta, fired) = observe(Some(meta), ArmPolicy::ArmAlways, 7, 1_000, 1_001);
    assert!(!fired);
    let (_, fired) = observe(Some(meta), ArmPolicy::ArmAlways, 7, 1_000, 9_999);
    assert!(!fired);
}

#[test]
fn rearms_and_fires_once_more_when_due_changes_to_future() {
    let (meta, fired) = fresh(ArmPolicy::ArmAlways, 1_000, 2_000);
    assert!(fired);
    // The schedule changes to a new future value: re-arm, no fire yet.
    let (meta, fired) = observe(Some(meta), ArmPolicy::ArmAlways, 7, 5_000, 3_000);
    assert!(!fired);
    assert!(meta.will_notify);
    assert_eq!(meta.last_return_time, 5_000);
    // Exactly one new fire once the new value elapses.
    let (meta, fired) = observe(Some(meta), ArmPolicy::ArmAlways, 7, 5_000, 5_500);
    assert!(fired);
    let (_, fired) = observe(Some(meta), ArmPolicy::ArmAlways, 7, 5_000, 6_000);
    assert!(!fired);
}

#[test]
fn change_to_a_past_value_does_not_rearm() {
    let (meta, fired) = fresh(ArmPolicy::ArmAlways, 1_000, 2_000);
    assert!(fired);
    // The due time changes, but to a value already past: stay quiet.
    let (meta, fired) = observe(Some(meta), ArmPolicy::ArmAlways, 7, 1_500, 2_000);
    assert!(!fired);
    assert!(!meta.will_notify);
}
