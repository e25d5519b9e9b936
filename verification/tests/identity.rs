use isaribi::identity::{hash_of_type, styled_class, styled_class_prefix, to_upper_hex};
use std::collections::hash_map::DefaultHasher;
use std::hash::Hasher;

fn expected_hash(kind_name: &str) -> u64 {
    let mut hasher = DefaultHasher::new();
    hasher.write(kind_name.as_bytes());
    hasher.finish()
}

#[test]
fn identity_is_the_default_hash_of_the_name() {
    for kind_name in ["", "Button", "app::view::Button", "ボタン"] {
        assert_eq!(hash_of_type(kind_name), expected_hash(kind_name));
    }
}

#[test]
fn identity_and_prefix_are_the_same_at_every_call() {
    assert_eq!(hash_of_type("app::Button"), hash_of_type("app::Button"));
    assert_eq!(styled_class_prefix("app::Button"), styled_class_prefix("app::Button"));
    assert_eq!(styled_class("app::Button", "box"), styled_class("app::Button", "box"));
}

#[test]
fn prefix_is_the_identity_in_upper_case_hexadecimal() {
    for kind_name in ["", "Button", "app::view::Button"] {
        assert_eq!(styled_class_prefix(kind_name), format!("{:X}", expected_hash(kind_name)));
    }
}

#[test]
fn to_upper_hex_writes_exact_digits() {
    assert_eq!(to_upper_hex(0), "0");
    assert_eq!(to_upper_hex(9), "9");
    assert_eq!(to_upper_hex(10), "A");
    assert_eq!(to_upper_hex(15), "F");
    assert_eq!(to_upper_hex(16), "10");
    assert_eq!(to_upper_hex(255), "FF");
    assert_eq!(to_upper_hex(0xABC123), "ABC123");
    assert_eq!(to_upper_hex(0x1234_5678_9ABC_DEF0), "123456789ABCDEF0");
    assert_eq!(to_upper_hex(u64::MAX), "FFFFFFFFFFFFFFFF");
}

#[test]
fn to_upper_hex_matches_the_formatter() {
    for n in [0u64, 1, 15, 16, 17, 4095, 4096, 1 << 32, u64::MAX - 1, u64::MAX] {
        assert_eq!(to_upper_hex(n), format!("{:X}", n));
    }
}

#[test]
fn class_is_underscore_prefix_two_underscores_name() {
    let prefix = styled_class_prefix("app::Button");
    assert_eq!(styled_class("app::Button", "box"), format!("_{}__{}", prefix, "box"));
    assert_eq!(styled_class("app::Button", ""), format!("_{}__", prefix));
    assert_eq!(styled_class("app::Button", "a b"), format!("_{}__a b", prefix));
}

#[test]
fn kinds_do_not_share_a_class() {
    assert_ne!(hash_of_type("app::Button"), hash_of_type("app::Dialog"));
    assert_ne!(styled_class_prefix("app::Button"), styled_class_prefix("app::Dialog"));
    assert_ne!(styled_class("app::Button", "box"), styled_class("app::Dialog", "box"));
}
