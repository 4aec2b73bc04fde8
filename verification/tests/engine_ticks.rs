use subwatch::engine::{run_tick, still_pending, tick_would_act, NotifyState};
use subwatch::model::SubInfo;
use subwatch::state::ArmPolicy;

fn sub(id: i64, name: &str, return_time: i64) -> SubInfo {
    SubInfo {
        id,
        name: name.to_string(),
        return_time,
        tag: "FC".to_string(),
        character_name: "Owner".to_string(),
    }
}

#[test]
fn a_tick_fires_only_the_elapsed_submarines() {
    let mut state = NotifyState::new();
    let subs = vec![sub(1, "Past", 500), sub(2, "Soon", 2_000)];
    let fires = run_tick(&mut state, ArmPolicy::ArmAlways, &subs, 1_000);
    assert_eq!(fires.len(), 1);
    assert_eq!(fires[0].entity.name, "Past");
    // Nothing changed: the next tick fires nothing.
    let fires = run_tick(&mut state, ArmPolicy::ArmAlways, &subs, 1_500);
    assert!(fires.is_empty());
    // "Soon" elapses on a later tick.
    let fires = run_tick(&mut state, ArmPolicy::ArmAlways, &subs, 2_500);
    assert_eq!(fires.len(), 1);
    assert_eq!(fires[0].entity.name, "Soon");
}

#[test]
fn file_policy_tick_skips_already_past_entries() {
    let mut state = NotifyState::new();
    let subs = vec![sub(1, "Past", 500), sub(2, "Soon", 2_000)];
    let fires = run_tick(&mut state, ArmPolicy::ArmFutureOnly, &subs, 1_000);
    assert!(fires.is_empty());
    let fires = run_tick(&mut state, ArmPolicy::ArmFutureOnly, &subs, 2_500);
    assert_eq!(fires.len(), 1);
    assert_eq!(fires[0].entity.name, "Soon");
}

#[test]
fn quiet_ticks_are_detected_and_skippable() {
    let mut state = NotifyState::new();
    let subs = vec![sub(1, "A", 5_000), sub(2, "B", 6_000)];
    // Never-seen submarines always make the tick act.
    assert!(tick_would_act(&state, ArmPolicy::ArmAlways, &subs, 1_000));
    let fires = run_tick(&mut state, ArmPolicy::ArmAlways, &subs, 1_000);
    assert!(fires.is_empty());
    // Nothing changed and nothing is due: quiet.
    assert!(!tick_would_act(&state, ArmPolicy::ArmAlways, &subs, 1_001));
    // A due time elapsing makes the tick act even with unchanged data.
    assert!(tick_would_act(&state, ArmPolicy::ArmAlways, &subs, 5_500));
    // A changed future due time makes the tick act as well.
    let changed = vec![sub(1, "A", 9_000), sub(2, "B", 6_000)];
    assert!(tick_would_act(&state, ArmPolicy::ArmAlways, &changed, 1_002));
}

#[test]
fn a_changed_schedule_rearms_and_fires_once_more() {
    let mut state = NotifyState::new();
    let subs = vec![sub(1, "Boat", 1_000)];
    // First pass: already past, fires once.
    let fires = run_tick(&mut state, ArmPolicy::ArmAlways, &subs, 2_000);
    assert_eq!(fires.len(), 1);
    // The store is rewritten with a new future time: re-arm quietly.
    let rescheduled = vec![sub(1, "Boat", 9_000)];
    let fires = run_tick(&mut state, ArmPolicy::ArmAlways, &rescheduled, 3_000);
    assert!(fires.is_empty());
    // Exactly one more fire when the new time elapses, then quiet.
    let fires = run_tick(&mut state, ArmPolicy::ArmAlways, &rescheduled, 9_500);
    assert_eq!(fires.len(), 1);
    let fires = run_tick(&mut state, ArmPolicy::ArmAlways, &rescheduled, 10_000);
    assert!(fires.is_empty());
}

#[test]
fn still_pending_keeps_only_future_due_times_in_order() {
    let subs = vec![
        sub(1, "A", 1_000),
        sub(2, "B", 2_000),
        sub(3, "C", 3_000),
    ];
    let pending = still_pending(&subs, 2_000);
    assert_eq!(pending.len(), 1);
    assert_eq!(pending[0].name, "C");
    let pending = still_pending(&subs, 500);
    assert_eq!(pending.len(), 3);
    assert_eq!(pending[0].name, "A");
    assert_eq!(pending[2].name, "C");
}
