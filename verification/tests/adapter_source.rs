use subwatch::adapter::{apply_snapshot, needs_reload, sort_by_return_time};
use subwatch::model::SubInfo;

fn sub(id: i64, name: &str, return_time: i64) -> SubInfo {
    SubInfo {
        id,
        name: name.to_string(),
        return_time,
        tag: "FC".to_string(),
        character_name: "Owner".to_string(),
    }
}

#[test]
fn source_rows_come_out_sorted_ascending() {
    let rows = vec![sub(3, "C", 3_000), sub(1, "A", 1_000), sub(2, "B", 2_000)];
    let sorted = sort_by_return_time(rows);
    let times: Vec<i64> = sorted.iter().map(|s| s.return_time).collect();
    assert_eq!(times, vec![1_000, 2_000, 3_000]);
    let names: Vec<&str> = sorted.iter().map(|s| s.name.as_str()).collect();
    assert_eq!(names, vec!["A", "B", "C"]);
}

#[test]
fn sorting_keeps_equal_due_times_together() {
    let rows = vec![sub(1, "A", 2_000), sub(2, "B", 1_000), sub(3, "C", 2_000)];
    let sorted = sort_by_return_time(rows);
    assert_eq!(sorted.len(), 3);
    assert_eq!(sorted[0].return_time, 1_000);
    assert_eq!(sorted[1].return_time, 2_000);
    assert_eq!(sorted[2].return_time, 2_000);
}

#[test]
fn snapshot_reload_needs_a_strictly_newer_mtime() {
    assert!(needs_reload(None, 100));
    assert!(!needs_reload(Some(100), 100));
    assert!(!needs_reload(Some(100), 99));
    assert!(needs_reload(Some(100), 101));
}

#[test]
fn failed_decode_keeps_the_prior_group() {
    let prior = vec![sub(1, "A", 1_000)];
    let kept = apply_snapshot(prior, None);
    assert_eq!(kept.len(), 1);
    assert_eq!(kept[0].name, "A");
}

#[test]
fn successful_decode_replaces_the_group_wholesale() {
    let prior = vec![sub(1, "A", 1_000), sub(2, "B", 2_000)];
    let fresh = vec![sub(3, "C", 3_000)];
    let replaced = apply_snapshot(prior, Some(fresh));
    assert_eq!(replaced.len(), 1);
    assert_eq!(replaced[0].name, "C");
}
