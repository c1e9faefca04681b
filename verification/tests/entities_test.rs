//! Tests for HTML character reference decoding.

use supermarkdown::decode_entities;

#[test]
fn test_named_entities() {
    assert_eq!(decode_entities("&amp;"), "&");
    assert_eq!(decode_entities("&lt;"), "<");
    assert_eq!(decode_entities("&gt;"), ">");
    assert_eq!(decode_entities("&quot;"), "\"");
    assert_eq!(decode_entities("&apos;"), "'");
    assert_eq!(decode_entities("&nbsp;"), " ");
}

#[test]
fn test_numeric_decimal() {
    assert_eq!(decode_entities("&#38;"), "&");
    assert_eq!(decode_entities("&#60;"), "<");
    assert_eq!(decode_entities("&#62;"), ">");
    assert_eq!(decode_entities("&#123;"), "{");
}

#[test]
fn test_numeric_hex() {
    assert_eq!(decode_entities("&#x26;"), "&");
    assert_eq!(decode_entities("&#x3C;"), "<");
    assert_eq!(decode_entities("&#x3E;"), ">");
    assert_eq!(decode_entities("&#x7B;"), "{");
}

#[test]
fn test_mixed() {
    assert_eq!(
        decode_entities("Hello &amp; World &lt;test&gt;"),
        "Hello & World <test>"
    );
}

#[test]
fn test_unknown_entity() {
    assert_eq!(decode_entities("&unknown;"), "&unknown;");
}

#[test]
fn test_no_entities() {
    assert_eq!(decode_entities("Hello World"), "Hello World");
}

#[test]
fn test_special_chars() {
    assert_eq!(decode_entities("&mdash;"), "\u{2014}");
    assert_eq!(decode_entities("&hellip;"), "\u{2026}");
    assert_eq!(
        decode_entities("&ldquo;test&rdquo;"),
        "\u{201C}test\u{201D}"
    );
}

#[test]
fn test_malformed_references() {
    assert_eq!(decode_entities("&"), "&");
    assert_eq!(decode_entities("&;"), "&;");
    assert_eq!(decode_entities("&#;"), "&#;");
    assert_eq!(decode_entities("&#x;"), "&#x;");
    assert_eq!(decode_entities("&amp"), "&amp");
    assert_eq!(decode_entities("&#xD800;"), "&#xD800;");
    assert_eq!(decode_entities("&#99999999999999;"), "&#99999999999999;");
}
