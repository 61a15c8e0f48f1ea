use shared::Message;
use shared::UserInfo;
use shared::add;
use shared::deserialize_message;
use shared::deserialize_user_info;
use shared::factorial;
use shared::fibonacci;
use shared::reverse_string;
use shared::serialize_message;
use shared::serialize_user_info;

#[test]
fn test_reverse_involution() {
    for s in ["", "a", "hello", "abba", "h\u{e9}llo \u{1F44B}", "12 34"] {
        assert_eq!(reverse_string(&reverse_string(s)), s);
    }
}

#[test]
fn test_reverse_multibyte() {
    assert_eq!(reverse_string("h\u{e9}llo"), "oll\u{e9}h");
    assert_eq!(reverse_string("a\u{1F44B}b"), "b\u{1F44B}a");
}

#[test]
fn test_wrapping_arithmetic() {
    assert_eq!(add(u64::MAX, 1), 0);
    assert_eq!(add(u64::MAX, u64::MAX), u64::MAX - 1);
    assert_eq!(factorial(21), 14197454024290336768);
    assert_eq!(factorial(25), 7034535277573963776);
    assert_eq!(fibonacci(100), 3736710778780434371);
}

#[test]
fn test_message_round_trip() {
    let msg = Message::new("test")
        .with_timestamp("2023-01-01".to_string())
        .with_metadata("key".to_string(), "value".to_string());
    let text = serialize_message(&msg);
    let back = deserialize_message(&text).unwrap();
    assert_eq!(back, msg);
    assert_eq!(back.content, "test");
    assert_eq!(back.timestamp, Some("2023-01-01".to_string()));
    assert_eq!(back.metadata, Some(vec![("key".to_string(), "value".to_string())]));
}

#[test]
fn test_message_round_trip_minimal() {
    let msg = Message::new("hi");
    assert_eq!(serialize_message(&msg), "M2:hi--");
    let back = deserialize_message("M2:hi--").unwrap();
    assert_eq!(back, msg);
    assert_eq!(back.timestamp, None);
    assert_eq!(back.metadata, None);
}

#[test]
fn test_message_round_trip_multibyte() {
    let msg = Message::new("caf\u{e9} \u{1F44B}").with_timestamp("t".to_string());
    let back = deserialize_message(&serialize_message(&msg)).unwrap();
    assert_eq!(back, msg);
}

#[test]
fn test_user_info_round_trip() {
    let user = UserInfo::new("Alice").with_email("alice@example.com".to_string());
    let text = serialize_user_info(&user);
    let back = deserialize_user_info(&text).unwrap();
    assert_eq!(back, user);
    assert_eq!(back.name, "Alice");
    assert_eq!(back.email, Some("alice@example.com".to_string()));
    assert_eq!(back.metadata, None);
}

#[test]
fn test_user_info_metadata_arrives_by_deserialization() {
    let user = deserialize_user_info("U5:Alice-+1:1:k1:v").unwrap();
    assert_eq!(user.name, "Alice");
    assert_eq!(user.email, None);
    assert_eq!(user.metadata, Some(vec![("k".to_string(), "v".to_string())]));
    assert_eq!(serialize_user_info(&user), "U5:Alice-+1:1:k1:v");
}

#[test]
fn test_deserialize_rejects_malformed() {
    assert_eq!(deserialize_message(""), None);
    assert_eq!(deserialize_message("X2:hi--"), None);
    assert_eq!(deserialize_message("M2:hi"), None);
    assert_eq!(deserialize_message("M9:hi--"), None);
    assert_eq!(deserialize_message("M2:hi--extra"), None);
    assert_eq!(deserialize_message("Mhi--"), None);
    assert_eq!(deserialize_user_info("M2:hi--"), None);
}

#[test]
fn test_deserialize_rejects_repeated_key() {
    assert_eq!(deserialize_message("M4:test-+2:1:a1:x1:a1:y"), None);
    assert!(deserialize_message("M4:test-+2:1:a1:x1:b1:y").is_some());
}

#[test]
fn test_message_equality() {
    let a = Message::new("one");
    let b = Message::new("two");
    assert!(a != b);
    let c = Message::new("one");
    assert!(a == c);
    let d = Message::new("one").with_timestamp("t".to_string());
    assert!(a != d);
}

#[test]
fn test_metadata_order_insensitive_equality() {
    let a = Message::new("m")
        .with_metadata("k1".to_string(), "v1".to_string())
        .with_metadata("k2".to_string(), "v2".to_string());
    let b = Message::new("m")
        .with_metadata("k2".to_string(), "v2".to_string())
        .with_metadata("k1".to_string(), "v1".to_string());
    assert!(a == b);
    let c = Message::new("m").with_metadata("k1".to_string(), "v1".to_string());
    assert!(a != c);
}

#[test]
fn test_metadata_overwrite_same_key() {
    let msg = Message::new("m")
        .with_metadata("k".to_string(), "old".to_string())
        .with_metadata("k".to_string(), "new".to_string());
    assert_eq!(msg.metadata, Some(vec![("k".to_string(), "new".to_string())]));
}

#[test]
fn test_timestamp_last_write_wins() {
    let msg = Message::new("m")
        .with_timestamp("first".to_string())
        .with_timestamp("second".to_string());
    assert_eq!(msg.timestamp, Some("second".to_string()));
    let user = UserInfo::new("n")
        .with_email("a@x".to_string())
        .with_email("b@x".to_string());
    assert_eq!(user.email, Some("b@x".to_string()));
}

#[test]
fn test_empty_content_message() {
    let msg = Message::new("");
    assert_eq!(msg.content, "");
    let back = deserialize_message(&serialize_message(&msg)).unwrap();
    assert_eq!(back, msg);
}
