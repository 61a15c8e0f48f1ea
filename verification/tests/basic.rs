use shared::Message;
use shared::UserInfo;
use shared::create_greeting;
use shared::factorial;
use shared::fibonacci;
use shared::reverse_string;

#[test]
fn test_factorial() {
    assert_eq!(factorial(0), 1);
    assert_eq!(factorial(1), 1);
    assert_eq!(factorial(5), 120);
}

#[test]
fn test_fibonacci() {
    assert_eq!(fibonacci(0), 0);
    assert_eq!(fibonacci(1), 1);
    assert_eq!(fibonacci(10), 55);
}

#[test]
fn test_add() {
    assert_eq!(shared::add(2, 2), 4);
}

#[test]
fn test_reverse_string() {
    assert_eq!(reverse_string("hello"), "olleh");
    assert_eq!(reverse_string("rust"), "tsur");
}

#[test]
fn test_message() {
    let msg = Message::new("test")
        .with_timestamp("2023-01-01".to_string())
        .with_metadata("key".to_string(), "value".to_string());

    assert_eq!(msg.content, "test");
    assert_eq!(msg.timestamp, Some("2023-01-01".to_string()));
}

#[test]
fn test_user_info() {
    let user = UserInfo::new("Alice").with_email("alice@example.com".to_string());

    assert_eq!(user.name, "Alice");
    assert_eq!(user.email, Some("alice@example.com".to_string()));
}

#[test]
fn test_greeting_contains_name() {
    let greeting = create_greeting("Rust");
    assert!(greeting.contains("Rust"));
    assert_eq!(greeting, "Hello, Rust! \u{1F44B}");
}

#[test]
fn test_greeting_empty_name() {
    assert_eq!(create_greeting(""), "Hello, ! \u{1F44B}");
}
