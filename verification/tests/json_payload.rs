use subwatch::json::{format_i64, json_escape, payload_to_json};
use subwatch::text::Alert;

#[test]
fn plain_text_passes_through_unescaped() {
    assert_eq!(json_escape(&"Alpha (Aya «TAG») returned".to_string()), "Alpha (Aya «TAG») returned");
}

#[test]
fn quotes_backslashes_and_controls_are_escaped() {
    assert_eq!(json_escape(&"a\"b".to_string()), "a\\\"b");
    assert_eq!(json_escape(&"a\\b".to_string()), "a\\\\b");
    assert_eq!(json_escape(&"a\nb\tc\rd".to_string()), "a\\nb\\tc\\rd");
    assert_eq!(json_escape(&"a\u{1}b\u{1f}c".to_string()), "a\\u0001b\\u001fc");
}

#[test]
fn signed_decimal_rendering_is_exact() {
    assert_eq!(format_i64(0), "0");
    assert_eq!(format_i64(-1), "-1");
    assert_eq!(format_i64(1_731_603_540_000), "1731603540000");
    assert_eq!(format_i64(i64::MIN), "-9223372036854775808");
    assert_eq!(format_i64(i64::MAX), "9223372036854775807");
}

#[test]
fn empty_payload_is_an_empty_object() {
    let payload: Vec<(String, Alert)> = Vec::new();
    assert_eq!(payload_to_json(&payload), "{}");
}

#[test]
fn payload_object_is_framed_exactly() {
    let payload = vec![
        (
            "Aya«TAG»-0".to_string(),
            Alert {
                title: "Alpha returned".to_string(),
                message: "Alpha (Aya «TAG») returned on soon".to_string(),
                timestamp: 1_000_000,
            },
        ),
        (
            "Aya«TAG»-1".to_string(),
            Alert {
                title: "Beta returned".to_string(),
                message: "Beta (Aya «TAG») returned on later".to_string(),
                timestamp: 2_000_000,
            },
        ),
    ];
    let expected = "{\"Aya«TAG»-0\":{\"title\":\"Alpha returned\",\"message\":\"Alpha (Aya «TAG») returned on soon\",\"timestamp\":1000000},\"Aya«TAG»-1\":{\"title\":\"Beta returned\",\"message\":\"Beta (Aya «TAG») returned on later\",\"timestamp\":2000000}}";
    assert_eq!(payload_to_json(&payload), expected);
}

#[test]
fn framed_payload_parses_back_as_json() {
    let payload = vec![(
        "key \"quoted\"".to_string(),
        Alert {
            title: "a\\b".to_string(),
            message: "line\nbreak".to_string(),
            timestamp: -42,
        },
    )];
    let text = payload_to_json(&payload);
    let value: serde_json::Value = serde_json::from_str(&text).expect("must be valid JSON");
    let entry = value.get("key \"quoted\"").expect("key must survive escaping");
    assert_eq!(entry.get("title").unwrap(), "a\\b");
    assert_eq!(entry.get("message").unwrap(), "line\nbreak");
    assert_eq!(entry.get("timestamp").unwrap(), -42);
}
