//! Tests for the escaping and URL utilities.

use supermarkdown::{
    calculate_code_backticks, calculate_fence, escape_attr, escape_markdown, escape_table_cell,
    escape_title, escape_url, resolve_url,
};

#[test]
fn test_escape_markdown() {
    assert_eq!(escape_markdown("*bold*"), "\\*bold\\*");
    assert_eq!(escape_markdown("_italic_"), "\\_italic\\_");
    assert_eq!(escape_markdown("[link]"), "\\[link\\]");
    assert_eq!(escape_markdown("# heading"), "\\# heading");
}

#[test]
fn test_escape_title() {
    assert_eq!(escape_title(r#"Hello "World""#), r#"Hello \"World\""#);
    assert_eq!(escape_title(r"path\to\file"), r"path\\to\\file");
}

#[test]
fn test_escape_url() {
    assert_eq!(escape_url("url (with parens)"), "url%20%28with%20parens%29");
}

#[test]
fn test_escape_table_cell() {
    assert_eq!(escape_table_cell("a | b"), "a \\| b");
}

#[test]
fn test_calculate_code_backticks() {
    assert_eq!(calculate_code_backticks("no backticks"), 1);
    assert_eq!(calculate_code_backticks("one ` backtick"), 2);
    assert_eq!(calculate_code_backticks("two `` backticks"), 3);
    assert_eq!(calculate_code_backticks("```"), 4);
}

#[test]
fn test_resolve_url() {
    assert_eq!(
        resolve_url("https://example.com", "https://other.com/page"),
        "https://other.com/page"
    );
    assert_eq!(
        resolve_url("https://example.com/dir/page", "/other"),
        "https://example.com/other"
    );
    assert_eq!(
        resolve_url("https://example.com/dir/page", "other"),
        "https://example.com/dir/other"
    );
    assert_eq!(
        resolve_url("https://example.com/page", "#section"),
        "https://example.com/page#section"
    );
}

#[test]
fn test_resolve_url_schemes() {
    assert_eq!(resolve_url("https://example.com", "mailto:a@b.c"), "mailto:a@b.c");
    assert_eq!(resolve_url("https://example.com", "//cdn.example.com/x"), "//cdn.example.com/x");
    assert_eq!(resolve_url("https://example.com/", "img/photo.jpg"), "https://example.com/img/photo.jpg");
    assert_eq!(resolve_url("https://example.com/a", "?q=1"), "https://example.com/a?q=1");
    assert_eq!(resolve_url("base", "page"), "base/page");
}

#[test]
fn test_escape_attr_entities() {
    assert_eq!(escape_attr("a & \"b\" <c>"), "a &amp; &quot;b&quot; &lt;c&gt;");
}

#[test]
fn test_calculate_fence_lengths() {
    assert_eq!(calculate_fence("plain", '`'), "```");
    assert_eq!(calculate_fence("has ``` inside", '`'), "````");
    assert_eq!(calculate_fence("x", '~'), "~~~");
    assert_eq!(calculate_fence("~~~~", '~'), "~~~~~");
}
