use std::cmp::Ordering;
use ufbx::strings::{ends_with, remove_prefix, remove_suffix, starts_with, str_cmp, str_equal, str_less};

#[test]
fn test_string_comparison() {
    assert!(str_equal("hello", "hello"));
    assert!(!str_equal("hello", "world"));
    assert!(str_less("abc", "xyz"));
    assert_eq!(str_cmp("test", "test"), Ordering::Equal);
}

#[test]
fn test_prefix_suffix() {
    assert!(starts_with("HelloWorld", "Hello"));
    assert!(ends_with("HelloWorld", "World"));
    assert_eq!(remove_prefix("HelloWorld", "Hello"), Some("World"));
    assert_eq!(remove_suffix("HelloWorld", "World"), Some("Hello"));
}
