//! Tests for the configuration options.

use supermarkdown::{HeadingStyle, LinkStyle, Options};

#[test]
fn test_default_options() {
    let opts = Options::default();
    assert!(opts.exclude_selectors.is_empty());
    assert!(opts.include_selectors.is_empty());
    assert_eq!(opts.heading_style, HeadingStyle::Atx);
    assert_eq!(opts.code_fence, '`');
    assert_eq!(opts.link_style, LinkStyle::Inline);
    assert_eq!(opts.bullet_marker, '-');
    assert!(opts.base_url.is_none());
}

#[test]
fn test_builder_pattern() {
    let opts = Options::new()
        .heading_style(HeadingStyle::Setext)
        .link_style(LinkStyle::Referenced)
        .bullet_marker('*')
        .code_fence('~')
        .base_url(Some("https://example.com".to_string()));

    assert_eq!(opts.heading_style, HeadingStyle::Setext);
    assert_eq!(opts.link_style, LinkStyle::Referenced);
    assert_eq!(opts.bullet_marker, '*');
    assert_eq!(opts.code_fence, '~');
    assert_eq!(opts.base_url, Some("https://example.com".to_string()));
}
