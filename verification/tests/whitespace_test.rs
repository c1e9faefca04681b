//! Tests for whitespace normalization.

use supermarkdown::{
    collapse_newlines, is_whitespace_only, normalize_block_whitespace, normalize_inline_whitespace,
    trim_inline_content,
};

#[test]
fn test_normalize_inline_whitespace() {
    assert_eq!(normalize_inline_whitespace("hello   world"), "hello world");
    assert_eq!(normalize_inline_whitespace("a\t\tb"), "a b");
    assert_eq!(normalize_inline_whitespace("  leading"), " leading");
    assert_eq!(normalize_inline_whitespace("line1\nline2"), "line1\nline2");
}

#[test]
fn test_normalize_block_whitespace() {
    assert_eq!(normalize_block_whitespace("hello   world"), "hello world");
    assert_eq!(normalize_block_whitespace("line1\n\nline2"), "line1 line2");
    assert_eq!(normalize_block_whitespace("  spaced  out  "), " spaced out ");
}

#[test]
fn test_normalize_block_idempotent_samples() {
    let samples = ["a \t b\n\nc", "  x  ", "\n\n\n", "plain"];
    for s in samples {
        let once = normalize_block_whitespace(s);
        let twice = normalize_block_whitespace(&once);
        assert_eq!(once, twice);
    }
}

#[test]
fn test_trim_inline_content() {
    let (leading, trimmed, trailing) = trim_inline_content("  hello  ");
    assert_eq!(leading, "  ");
    assert_eq!(trimmed, "hello");
    assert_eq!(trailing, "  ");

    let (leading, trimmed, trailing) = trim_inline_content("no spaces");
    assert_eq!(leading, "");
    assert_eq!(trimmed, "no spaces");
    assert_eq!(trailing, "");
}

#[test]
fn test_is_whitespace_only() {
    assert!(is_whitespace_only("   "));
    assert!(is_whitespace_only("\t\n"));
    assert!(is_whitespace_only(""));
    assert!(!is_whitespace_only("a"));
    assert!(!is_whitespace_only(" a "));
}

#[test]
fn test_collapse_newlines_direct() {
    assert_eq!(collapse_newlines("a\n\n\n\nb"), "a\n\nb");
    assert_eq!(collapse_newlines("a\n\nb"), "a\n\nb");
    assert_eq!(collapse_newlines("a\nb"), "a\nb");
}
