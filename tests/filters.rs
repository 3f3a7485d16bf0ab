use quickleaf::filters::{apply_filter_fast, fast_prefix_match, fast_suffix_match};
use quickleaf::Filter;

#[test]
fn fast_filters_test_fast_prefix_match() {
    assert!(fast_prefix_match("hello_world", "hello"));
    assert!(fast_prefix_match("hello", "hello"));
    assert!(!fast_prefix_match("hello", "hello_world"));
    assert!(fast_prefix_match("test", ""));
}

#[test]
fn fast_filters_test_fast_suffix_match() {
    assert!(fast_suffix_match("hello_world", "world"));
    assert!(fast_suffix_match("world", "world"));
    assert!(!fast_suffix_match("world", "hello_world"));
    assert!(fast_suffix_match("test", ""));
}

#[test]
fn filters_test_fast_prefix_match() {
    assert!(fast_prefix_match("hello_world", "hello"));
    assert!(fast_prefix_match("hello", "hello"));
    assert!(!fast_prefix_match("hello", "hello_world"));
    assert!(fast_prefix_match("test", ""));
}

#[test]
fn filters_test_fast_suffix_match() {
    assert!(fast_suffix_match("hello_world", "world"));
    assert!(fast_suffix_match("world", "world"));
    assert!(!fast_suffix_match("world", "hello_world"));
    assert!(fast_suffix_match("test", ""));
}

#[test]
fn test_apply_filter_fast() {
    assert!(apply_filter_fast("test", &Filter::All));
    assert!(apply_filter_fast(
        "hello_world",
        &Filter::StartWith("hello".to_string())
    ));
    assert!(apply_filter_fast(
        "hello_world",
        &Filter::EndWith("world".to_string())
    ));
    assert!(apply_filter_fast(
        "hello_world",
        &Filter::StartAndEndWith("hello".to_string(), "world".to_string())
    ));
    assert!(!apply_filter_fast(
        "hello_world",
        &Filter::StartWith("goodbye".to_string())
    ));
}

#[test]
fn prefix_and_suffix_match_bytes_exactly() {
    assert!(!fast_prefix_match("Hello", "hello"));
    assert!(fast_prefix_match("ação", "aç"));
    assert!(!fast_prefix_match("", "a"));
    assert!(fast_prefix_match("", ""));
    assert!(fast_suffix_match("ação", "ção"));
    assert!(!fast_suffix_match("ab", "b "));
    assert!(!apply_filter_fast(
        "pineapplepie",
        &Filter::StartAndEndWith("apple".to_string(), "pie".to_string())
    ));
    assert!(!apply_filter_fast(
        "applemore",
        &Filter::StartAndEndWith("apple".to_string(), "pie".to_string())
    ));
}
