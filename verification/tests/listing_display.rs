use subwatch::listing::{compose_ident, group_by_character, longest_name_len, render_heading, render_line};
use subwatch::model::SubInfo;

fn sub(id: i64, name: &str, owner: &str, tag: &str, return_time: i64) -> SubInfo {
    SubInfo {
        id,
        name: name.to_string(),
        return_time,
        tag: tag.to_string(),
        character_name: owner.to_string(),
    }
}

#[test]
fn characters_are_grouped_in_first_appearance_order() {
    let subs = vec![
        sub(1, "A", "Rin", "AAA", 1_000),
        sub(2, "B", "Sau", "BBB", 2_000),
        sub(3, "C", "Rin", "AAA", 3_000),
    ];
    let grouped = group_by_character(&subs);
    assert_eq!(grouped.len(), 2);
    assert_eq!(grouped[0].0, "Rin «AAA»");
    assert_eq!(grouped[1].0, "Sau «BBB»");
    let rin_names: Vec<&str> = grouped[0].1.iter().map(|s| s.name.as_str()).collect();
    assert_eq!(rin_names, vec!["A", "C"]);
    let sau_names: Vec<&str> = grouped[1].1.iter().map(|s| s.name.as_str()).collect();
    assert_eq!(sau_names, vec!["B"]);
}

#[test]
fn one_shot_listing_is_identical_when_run_twice() {
    let subs = vec![
        sub(1, "A", "Rin", "AAA", 1_000),
        sub(2, "B", "Sau", "BBB", 2_000),
        sub(3, "C", "Rin", "AAA", 3_000),
    ];
    let first = group_by_character(&subs);
    let second = group_by_character(&subs);
    assert_eq!(first.len(), second.len());
    for (a, b) in first.iter().zip(second.iter()) {
        assert_eq!(a.0, b.0);
        let a_names: Vec<&str> = a.1.iter().map(|s| s.name.as_str()).collect();
        let b_names: Vec<&str> = b.1.iter().map(|s| s.name.as_str()).collect();
        assert_eq!(a_names, b_names);
    }
}

#[test]
fn owners_with_same_name_but_different_tags_stay_apart() {
    let subs = vec![
        sub(1, "A", "Rin", "AAA", 1_000),
        sub(2, "B", "Rin", "BBB", 2_000),
    ];
    let grouped = group_by_character(&subs);
    assert_eq!(grouped.len(), 2);
    assert_eq!(compose_ident(&subs[0]), "Rin «AAA»");
    assert_eq!(compose_ident(&subs[1]), "Rin «BBB»");
}

#[test]
fn listing_lines_align_on_the_longest_name() {
    let subs = vec![
        sub(1, "Alpha", "Rin", "AAA", 1_000),
        sub(2, "Be", "Rin", "AAA", 2_000),
    ];
    let longest = longest_name_len(&subs);
    assert_eq!(longest, 5);
    let line = render_line(&subs[1].name, longest, "14 November 2024 at 04:59:00 PM", "CET");
    assert_eq!(line, "  Be:    14 November 2024 at 04:59:00 PM CET");
    let line = render_line(&subs[0].name, longest, "14 November 2024 at 04:59:00 PM", "CET");
    assert_eq!(line, "  Alpha: 14 November 2024 at 04:59:00 PM CET");
}

#[test]
fn heading_line_is_the_ident_and_a_colon() {
    assert_eq!(render_heading(&"Rin «AAA»".to_string()), "Rin «AAA»:");
}
