//! Tests for the postprocessing stages.

use supermarkdown::{
    collapse_newlines, escape_link_newlines, indent_continuation, postprocess,
    trim_trailing_whitespace, LinkStyle, Options,
};

#[test]
fn test_escape_link_newlines() {
    let input = "[text\nwith newline](url)";
    let result = escape_link_newlines(input);
    assert_eq!(result, "[text\\nwith newline](url)");
}

#[test]
fn test_escape_link_newlines_escaped_bracket() {
    let input = r"text with \[ escaped bracket";
    let result = escape_link_newlines(input);
    assert_eq!(result, r"text with \[ escaped bracket");
}

#[test]
fn test_escape_link_newlines_no_change() {
    let input = "normal text\nwith newline outside brackets";
    let result = escape_link_newlines(input);
    assert_eq!(result, input);
}

#[test]
fn test_trim_trailing_whitespace() {
    let input = "line 1   \nline 2  \nline 3";
    let result = trim_trailing_whitespace(input);
    assert_eq!(result, "line 1\nline 2\nline 3");
}

#[test]
fn postprocess_test_collapse_newlines() {
    let input = "a\n\n\n\nb";
    let result = collapse_newlines(input);
    assert_eq!(result, "a\n\nb");
}

#[test]
fn test_postprocess_full() {
    let input = "# Title\n\n\n\nParagraph   \n";
    let result = postprocess(input.to_string(), &Options::default());
    assert_eq!(result, "# Title\n\nParagraph");
}

#[test]
fn test_indent_continuation() {
    let text = "Line 1\nLine 2\nLine 3";
    let result = indent_continuation(text, 4);
    assert_eq!(result, "Line 1\n    Line 2\n    Line 3");
}

#[test]
fn test_convert_to_referenced_links() {
    let opts = Options::new().link_style(LinkStyle::Referenced);
    let input = "Check [this](https://a.com) and [that](https://b.com).".to_string();
    let result = postprocess(input, &opts);
    assert!(result.contains("[this][1]"));
    assert!(result.contains("[that][2]"));
    assert!(result.contains("[1]: https://a.com"));
    assert!(result.contains("[2]: https://b.com"));
}

#[test]
fn test_convert_to_referenced_links_dedup() {
    let opts = Options::new().link_style(LinkStyle::Referenced);
    let input = "[a](https://x.com) and [b](https://x.com)".to_string();
    let result = postprocess(input, &opts);
    assert!(result.contains("[a][1]"));
    assert!(result.contains("[b][1]"));
    assert_eq!(result.matches("[1]:").count(), 1);
}

#[test]
fn test_convert_to_referenced_links_with_title() {
    let opts = Options::new().link_style(LinkStyle::Referenced);
    let input = r#"[link](https://a.com "Title")"#.to_string();
    let result = postprocess(input, &opts);
    assert!(result.contains("[link][1]"));
    assert!(result.contains(r#"[1]: https://a.com "Title""#));
}

#[test]
fn test_convert_to_referenced_links_no_images() {
    let opts = Options::new().link_style(LinkStyle::Referenced);
    let input = "![image](img.png) and [link](url)".to_string();
    let result = postprocess(input, &opts);
    assert!(result.contains("![image](img.png)"));
    assert!(result.contains("[link][1]"));
}

#[test]
fn test_referenced_conversion() {
    let opts = Options::new().link_style(LinkStyle::Referenced);
    let input = "Check [this](https://a.com) and [that](https://b.com).".to_string();
    let result = postprocess(input, &opts);
    assert!(result.contains("[this][1]"));
    assert!(result.contains("[that][2]"));
    assert!(result.contains("[1]: https://a.com"));
    assert!(result.contains("[2]: https://b.com"));
}

#[test]
fn test_referenced_conversion_dedup() {
    let opts = Options::new().link_style(LinkStyle::Referenced);
    let input = "[a](https://x.com) and [b](https://x.com)".to_string();
    let result = postprocess(input, &opts);
    assert!(result.contains("[a][1]"));
    assert!(result.contains("[b][1]"));
    assert_eq!(result.matches("[1]:").count(), 1);
}

#[test]
fn test_referenced_conversion_with_title() {
    let opts = Options::new().link_style(LinkStyle::Referenced);
    let input = r#"[link](https://a.com "Title")"#.to_string();
    let result = postprocess(input, &opts);
    assert!(result.contains("[link][1]"));
    assert!(result.contains(r#"[1]: https://a.com "Title""#));
}

#[test]
fn test_referenced_conversion_no_images() {
    let opts = Options::new().link_style(LinkStyle::Referenced);
    let input = "![image](img.png) and [link](url)".to_string();
    let result = postprocess(input, &opts);
    assert!(result.contains("![image](img.png)"));
    assert!(result.contains("[link][1]"));
}

#[test]
fn test_referenced_conversion_no_links() {
    let opts = Options::new().link_style(LinkStyle::Referenced);
    let input = "no links here".to_string();
    let result = postprocess(input, &opts);
    assert_eq!(result, "no links here");
}
