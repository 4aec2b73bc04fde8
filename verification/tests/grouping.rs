use subwatch::group::group_pending;
use subwatch::model::SubInfo;
use subwatch::text::{build_bridge_payload, compose_alert, compose_key, compose_title, format_u64};

fn sub(id: i64, name: &str, return_time: i64) -> SubInfo {
    SubInfo {
        id,
        name: name.to_string(),
        return_time,
        tag: "TAG".to_string(),
        character_name: "Aya Brea".to_string(),
    }
}

#[test]
fn gap_of_299999_is_merged() {
    let subs = vec![sub(1, "A", 1_000_000), sub(2, "B", 1_299_999)];
    let groups = group_pending(&subs);
    assert_eq!(groups.len(), 1);
    assert_eq!(groups[0].member_count, 2);
}

#[test]
fn gap_of_exactly_300000_is_still_merged() {
    // The gap must strictly exceed the threshold to split.
    let subs = vec![sub(1, "A", 1_000_000), sub(2, "B", 1_300_000)];
    let groups = group_pending(&subs);
    assert_eq!(groups.len(), 1);
    assert_eq!(groups[0].member_count, 2);
}

#[test]
fn gap_of_300001_splits() {
    let subs = vec![sub(1, "A", 1_000_000), sub(2, "B", 1_300_001)];
    let groups = group_pending(&subs);
    assert_eq!(groups.len(), 2);
    assert_eq!(groups[0].member_count, 1);
    assert_eq!(groups[1].member_count, 1);
    assert_eq!(groups[1].representative.name, "B");
}

#[test]
fn three_subs_split_into_pair_and_singleton() {
    // A at T, B at T+100000, C at T+400001: {A, B} together, {C} alone.
    let t = 10_000_000;
    let subs = vec![
        sub(1, "A", t),
        sub(2, "B", t + 100_000),
        sub(3, "C", t + 400_001),
    ];
    let groups = group_pending(&subs);
    assert_eq!(groups.len(), 2);
    assert_eq!(groups[0].member_count, 2);
    assert_eq!(groups[0].representative.name, "A");
    assert_eq!(groups[0].first_return_time, t);
    assert_eq!(groups[1].member_count, 1);
    assert_eq!(groups[1].representative.name, "C");
    assert_eq!(groups[1].first_return_time, t + 400_001);
}

#[test]
fn dangling_group_is_flushed() {
    // A run that ends mid-accumulation still emits its final group.
    let subs = vec![
        sub(1, "A", 1_000_000),
        sub(2, "B", 1_400_000),
        sub(3, "C", 1_450_000),
    ];
    let groups = group_pending(&subs);
    assert_eq!(groups.len(), 2);
    assert_eq!(groups[1].member_count, 2);
    assert_eq!(groups[1].representative.name, "B");
    let total: usize = groups.iter().map(|g| g.member_count).sum();
    assert_eq!(total, subs.len());
}

#[test]
fn empty_input_emits_no_groups() {
    let subs: Vec<SubInfo> = Vec::new();
    assert!(group_pending(&subs).is_empty());
}

#[test]
fn decimal_rendering_is_exact() {
    assert_eq!(format_u64(0), "0");
    assert_eq!(format_u64(7), "7");
    assert_eq!(format_u64(10), "10");
    assert_eq!(format_u64(305), "305");
    assert_eq!(format_u64(18_446_744_073_709_551_615), "18446744073709551615");
}

#[test]
fn singleton_alert_text() {
    let subs = vec![sub(1, "Unsinkable II", 1_000_000)];
    let groups = group_pending(&subs);
    let alert = compose_alert(&groups[0], "Nov 14, 2024, 04:59PM");
    assert_eq!(alert.title, "Unsinkable II returned");
    assert_eq!(
        alert.message,
        "Unsinkable II (Aya Brea «TAG») returned on Nov 14, 2024, 04:59PM"
    );
    assert_eq!(alert.timestamp, 1_000_000);
}

#[test]
fn batched_alert_text_counts_the_others() {
    let subs = vec![
        sub(1, "Alpha", 1_000_000),
        sub(2, "Beta", 1_000_500),
        sub(3, "Gamma", 1_001_000),
    ];
    let groups = group_pending(&subs);
    assert_eq!(groups.len(), 1);
    let alert = compose_alert(&groups[0], "soon");
    assert_eq!(alert.title, "Alpha (+2) returned");
    assert_eq!(alert.message, "Alpha (Aya Brea «TAG») + 2 others returned on soon");
    assert_eq!(alert.timestamp, 1_000_000);
}

#[test]
fn alert_title_of_one_has_no_count_mark() {
    let title = compose_title(&"Alpha".to_string(), 1);
    assert_eq!(title, "Alpha returned");
}

#[test]
fn group_keys_carry_owner_tag_and_sequence_number() {
    assert_eq!(
        compose_key(&"Aya Brea".to_string(), &"TAG".to_string(), 0),
        "Aya Brea«TAG»-0"
    );
    let subs = vec![sub(1, "A", 1_000_000), sub(2, "B", 2_000_000)];
    let groups = group_pending(&subs);
    let times = vec!["t0".to_string(), "t1".to_string()];
    let payload = build_bridge_payload(&groups, &times);
    assert_eq!(payload.len(), 2);
    assert_eq!(payload[0].0, "Aya Brea«TAG»-0");
    assert_eq!(payload[1].0, "Aya Brea«TAG»-1");
    assert_eq!(payload[0].1.message, "A (Aya Brea «TAG») returned on t0");
    assert_eq!(payload[1].1.message, "B (Aya Brea «TAG») returned on t1");
    assert_eq!(payload[0].1.timestamp, 1_000_000);
    assert_eq!(payload[1].1.timestamp, 2_000_000);
}
