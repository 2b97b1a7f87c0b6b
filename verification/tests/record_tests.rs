// The event-record codec: round trips, exact shapes, and rejections.
use log_pipelines::record::{decode_event, encode_event};
use log_pipelines::types::LogEvent;

fn event(user_id: &str, label: &str, timestamp: u64) -> LogEvent {
    LogEvent { user_id: user_id.to_string(), event: label.to_string(), timestamp }
}

#[test]
fn test_log_event_serialization() {
    let e = event("123", "clicked_button", 1712345678);

    // Serialization names all three fields.
    let json = encode_event(&e);
    assert!(json.contains("user_id"));
    assert!(json.contains("event"));
    assert!(json.contains("timestamp"));

    // Deserialization restores them.
    let deserialized = decode_event(&json).unwrap();
    assert_eq!(deserialized.user_id, "123");
    assert_eq!(deserialized.event, "clicked_button");
    assert_eq!(deserialized.timestamp, 1712345678);
}

#[test]
fn test_log_event_validation() {
    // A record with a misspelled field name is rejected.
    let invalid_json = "{\"user__id\":\"123\",\"event\":\"clicked_button\",\"timestamp\":1712345678}";
    assert!(decode_event(invalid_json).is_err(), "Should reject invalid field names");
}

#[test]
fn test_log_event_missing_fields() {
    // A record missing required fields is rejected.
    let incomplete_json = "{\"user_id\":\"123\"}";
    assert!(decode_event(incomplete_json).is_err(), "Should reject missing required fields");
}

#[test]
fn test_log_event_types() {
    // A record with a wrong-typed field is rejected.
    let wrong_type_json =
        "{\"user_id\":\"123\",\"event\":\"clicked_button\",\"timestamp\":\"not_a_number\"}";
    assert!(decode_event(wrong_type_json).is_err(), "Should reject wrong types");
}

#[test]
fn test_encode_exact_shape() {
    let e = event("42", "clicked", 1712345678);
    assert_eq!(encode_event(&e), "{\"user_id\":\"42\",\"event\":\"clicked\",\"timestamp\":1712345678}");
}

#[test]
fn test_round_trip_with_escapes() {
    let e = event("a\"b\\c", "line\nbreak\ttab\rret", 0);
    let json = encode_event(&e);
    let back = decode_event(&json).unwrap();
    assert_eq!(back.user_id, "a\"b\\c");
    assert_eq!(back.event, "line\nbreak\ttab\rret");
    assert_eq!(back.timestamp, 0);
    // The line feed is escaped: one record stays one line.
    assert!(!json.contains('\n'));
}

#[test]
fn test_round_trip_unicode() {
    let e = event("üser", "événement ✓", u64::MAX);
    let back = decode_event(&encode_event(&e)).unwrap();
    assert_eq!(back.user_id, "üser");
    assert_eq!(back.event, "événement ✓");
    assert_eq!(back.timestamp, u64::MAX);
}

#[test]
fn test_decode_rejects_reordered_fields() {
    let reordered = "{\"event\":\"clicked\",\"user_id\":\"42\",\"timestamp\":1}";
    assert!(decode_event(reordered).is_err());
}

#[test]
fn test_decode_rejects_trailing_garbage() {
    let trailing = "{\"user_id\":\"42\",\"event\":\"clicked\",\"timestamp\":1}x";
    assert!(decode_event(trailing).is_err());
}

#[test]
fn test_decode_rejects_timestamp_overflow() {
    let too_big = "{\"user_id\":\"42\",\"event\":\"c\",\"timestamp\":18446744073709551616}";
    assert!(decode_event(too_big).is_err());
    let max = "{\"user_id\":\"42\",\"event\":\"c\",\"timestamp\":18446744073709551615}";
    assert_eq!(decode_event(max).unwrap().timestamp, u64::MAX);
}

#[test]
fn test_decode_rejects_bad_escape() {
    let bad = "{\"user_id\":\"a\\qb\",\"event\":\"c\",\"timestamp\":1}";
    assert!(decode_event(bad).is_err());
}
