//! End-to-end conversion tests, running the real HTML parser and selector
//! engine behind the library.

use supermarkdown::extract_language_from_class;
use supermarkdown::{convert, convert_with_options, HeadingStyle, LinkStyle, Options};

#[test]
fn test_basic_conversion() {
    let html = "<h1>Hello World</h1>";
    let markdown = convert(html);
    assert!(markdown.contains("# Hello World"));
}

#[test]
fn lib_test_empty_input() {
    let markdown = convert("");
    assert!(markdown.is_empty());
}

#[test]
fn lib_test_paragraph() {
    let html = "<p>This is a paragraph.</p>";
    let markdown = convert(html);
    assert!(markdown.contains("This is a paragraph."));
}

#[test]
fn test_multiple_elements() {
    let html = "<h1>Title</h1><p>First paragraph.</p><p>Second paragraph.</p>";
    let markdown = convert(html);
    assert!(markdown.contains("# Title"));
    assert!(markdown.contains("First paragraph."));
    assert!(markdown.contains("Second paragraph."));
}

#[test]
fn test_empty_string() {
    let markdown = convert("");
    assert!(markdown.is_empty() || markdown.trim().is_empty());
}

#[test]
fn test_whitespace_only() {
    let markdown = convert("   \n\t\n   ");
    assert!(markdown.trim().is_empty());
}

#[test]
fn test_plain_text() {
    let markdown = convert("Just plain text without any HTML");
    assert!(markdown.contains("Just plain text"));
}

#[test]
fn test_deeply_nested() {
    let html = "<div><div><div><div><div><p>Deep content</p></div></div></div></div></div>";
    let markdown = convert(html);
    assert!(markdown.contains("Deep content"));
}

#[test]
fn test_setext_heading_scenario() {
    let options = Options::new().heading_style(HeadingStyle::Setext);
    let result = convert_with_options("<h1>Title</h1>", &options);
    assert!(result.contains("Title\n====="));
}

#[test]
fn test_autolink_scenario() {
    let result = convert(r#"<a href="https://example.com">https://example.com</a>"#);
    assert_eq!(result, "<https://example.com>");
}

#[test]
fn test_empty_list_item_scenario() {
    let result = convert("<ul><li>A</li><li></li><li>B</li></ul>");
    assert!(result.contains("- A"));
    assert!(result.contains("- B"));
    assert_eq!(result.matches("- ").count(), 2);
}

#[test]
fn test_table_scenario() {
    let result = convert("<table><tr><th>A</th></tr><tr><td>x</td></tr></table>");
    let lines: Vec<&str> = result.lines().filter(|l| l.contains('|')).collect();
    assert!(lines.len() >= 3);
    assert!(lines[0].contains("A"));
    assert!(lines[1].contains("---"));
    assert!(lines[2].contains("x"));
    let pipes = lines[0].matches('|').count();
    for line in &lines {
        assert_eq!(line.matches('|').count(), pipes);
    }
}

#[test]
fn test_table_exact_output() {
    let result = convert("<table><tr><th>A</th></tr><tr><td>x</td></tr></table>");
    assert_eq!(result, "| A   |\n| --- |\n| x   |");
}

#[test]
fn test_numeric_entity_through_pipeline() {
    let result = convert("<p>&#65;&#x42;</p>");
    assert_eq!(result, "AB");
}

#[test]
fn test_exclude_selector_scenario() {
    let options = Options::new().exclude_selectors(vec!["nav".to_string()]);
    let result = convert_with_options("<div><nav>Skip</nav><p>Keep</p></div>", &options);
    assert!(result.contains("Keep"));
    assert!(!result.contains("Skip"));
}

#[test]
fn test_include_overrides_exclude() {
    let options = Options::new()
        .exclude_selectors(vec!["nav".to_string()])
        .include_selectors(vec![".keep".to_string()]);
    let result = convert_with_options(
        r#"<nav>Hidden<div class="keep">Important text</div></nav>"#,
        &options,
    );
    assert!(result.contains("Important text"));
    assert!(!result.contains("Hidden"));
}

#[test]
fn test_heading_levels() {
    let result = convert("<h2>Two</h2><h3>Three</h3>");
    assert!(result.contains("## Two"));
    assert!(result.contains("### Three"));
}

#[test]
fn test_link() {
    let result = convert(r#"<a href="https://example.com">Link</a>"#);
    assert!(result.contains("[Link](https://example.com)"));
}

#[test]
fn test_link_with_title() {
    let result = convert(r#"<a href="https://example.com" title="Example">Link</a>"#);
    assert!(result.contains(r#"[Link](https://example.com "Example")"#));
}

#[test]
fn test_link_empty_href() {
    let result = convert(r#"<p><a href="">Text</a></p>"#);
    assert!(result.contains("Text"));
    assert!(!result.contains("[Text]"));
}

#[test]
fn test_link_with_base_url() {
    let options = Options::new().base_url(Some("https://example.com/dir/".to_string()));
    let result = convert_with_options(r#"<a href="page.html">Link</a>"#, &options);
    assert!(result.contains("https://example.com/dir/page.html"));
}

#[test]
fn test_autolink_email() {
    let result = convert(r#"<a href="mailto:test@example.com">test@example.com</a>"#);
    assert_eq!(result, "<test@example.com>");
}

#[test]
fn test_image() {
    let result = convert(r#"<img src="image.png" alt="Alt text">"#);
    assert!(result.contains("![Alt text](image.png)"));
}

#[test]
fn test_image_with_title() {
    let result = convert(r#"<img src="image.png" alt="Alt" title="Title">"#);
    assert!(result.contains(r#"![Alt](image.png "Title")"#));
}

#[test]
fn test_emphasis_and_strong() {
    let result = convert("<p><em>italic</em> and <strong>bold</strong></p>");
    assert!(result.contains("*italic*"));
    assert!(result.contains("**bold**"));
}

#[test]
fn test_nested_emphasis() {
    let result = convert("<p>This is <strong>bold and <em>italic</em></strong> text.</p>");
    assert!(result.contains("**bold and *italic***"));
}

#[test]
fn test_strikethrough() {
    let result = convert("<p><del>gone</del></p>");
    assert!(result.contains("~~gone~~"));
}

#[test]
fn test_inline_code() {
    let result = convert("<p><code>inline</code></p>");
    assert!(result.contains("`inline`"));
}

#[test]
fn test_inline_code_with_backticks() {
    let result = convert("<p><code>use `this`</code></p>");
    assert!(result.contains("`` use `this` ``"));
}

#[test]
fn test_pre_block() {
    let result = convert("<pre>code block</pre>");
    assert!(result.contains("```"));
    assert!(result.contains("code block"));
}

#[test]
fn test_pre_with_language() {
    let result = convert(r#"<pre><code class="language-rust">fn main() {}</code></pre>"#);
    assert!(result.contains("```rust"));
    assert!(result.contains("fn main()"));
}

#[test]
fn test_pre_tilde_fence() {
    let options = Options::new().code_fence('~');
    let result = convert_with_options("<pre>code</pre>", &options);
    assert!(result.contains("~~~"));
}

#[test]
fn test_pre_gutter_skipped() {
    let result = convert(
        r#"<pre><code><span class="line-numbers">1</span>first line</code></pre>"#,
    );
    assert!(!result.contains("1first"));
    assert!(result.contains("first line"));
}

#[test]
fn test_unordered_list() {
    let result = convert("<ul><li>One</li><li>Two</li></ul>");
    assert!(result.contains("- One"));
    assert!(result.contains("- Two"));
}

#[test]
fn test_ordered_list() {
    let result = convert("<ol><li>First</li><li>Second</li></ol>");
    assert!(result.contains("1. First"));
    assert!(result.contains("2. Second"));
}

#[test]
fn test_ordered_list_with_start() {
    let result = convert(r#"<ol start="5"><li>Fifth</li><li>Sixth</li></ol>"#);
    assert!(result.contains("5. Fifth"));
    assert!(result.contains("6. Sixth"));
}

#[test]
fn test_custom_bullet() {
    let options = Options::new().bullet_marker('*');
    let result = convert_with_options("<ul><li>Item</li></ul>", &options);
    assert!(result.contains("* Item"));
}

#[test]
fn test_nested_list_indented() {
    let result = convert("<ul><li>Outer<ul><li>Inner</li></ul></li></ul>");
    assert!(result.contains("- Outer"));
    assert!(result.contains("  - Inner"));
}

#[test]
fn test_blockquote() {
    let result = convert("<blockquote>Quote</blockquote>");
    assert!(result.contains("> Quote"));
}

#[test]
fn test_nested_blockquotes() {
    let result = convert("<blockquote>Outer<blockquote>Inner</blockquote></blockquote>");
    assert!(result.contains("> Outer"));
    assert!(result.contains("> > Inner"));
}

#[test]
fn test_deeply_nested_blockquotes() {
    let result = convert(
        "<blockquote>Level 1<blockquote>Level 2<blockquote>Level 3</blockquote></blockquote></blockquote>",
    );
    assert!(result.contains("> Level 1"));
    assert!(result.contains("> > Level 2"));
    assert!(result.contains("> > > Level 3"));
}

#[test]
fn test_hr() {
    let result = convert("<hr>");
    assert!(result.contains("---"));
}

#[test]
fn test_entity_decoding_in_text() {
    let result = convert("<p>&lt;html&gt; &amp; more</p>");
    assert!(result.contains("<html> & more"));
}

#[test]
fn test_whitespace_collapsed() {
    let result = convert("<p>Hello    world</p>");
    assert!(result.contains("Hello world"));
    let result = convert("<p>Hello\n\n\nworld</p>");
    assert!(result.contains("Hello world"));
    let result = convert("<p>Hello\t\tworld</p>");
    assert!(result.contains("Hello world"));
}

#[test]
fn test_referenced_links_end_to_end() {
    let options = Options::new().link_style(LinkStyle::Referenced);
    let result = convert_with_options(
        r#"<p><a href="https://a.com">A</a> and <a href="https://b.com">B</a></p>"#,
        &options,
    );
    assert!(result.contains("[A][1]"));
    assert!(result.contains("[B][2]"));
    assert!(result.contains("[1]: https://a.com"));
}

#[test]
fn test_table_with_alignment() {
    let result = convert(
        r#"<table><tr><th align="left">Left</th><th align="center">Center</th><th align="right">Right</th></tr><tr><td>L</td><td>C</td><td>R</td></tr></table>"#,
    );
    assert!(result.contains(":---"));
    assert!(result.contains(":----:"));
    assert!(result.contains("----:"));
}

#[test]
fn test_table_with_caption() {
    let result = convert(
        "<table><caption>Monthly Sales</caption><tr><th>Month</th></tr><tr><td>Jan</td></tr></table>",
    );
    assert!(result.contains("| Month"));
    assert!(result.contains("*Monthly Sales*"));
}

#[test]
fn test_table_escapes_pipes() {
    let result = convert("<table><tr><th>A</th></tr><tr><td>a | b</td></tr></table>");
    assert!(result.contains("a \\| b"));
}

#[test]
fn test_definition_list() {
    let result = convert("<dl><dt>Term</dt><dd>Definition</dd></dl>");
    assert!(result.contains("Term"));
    assert!(result.contains(": Definition"));
}

#[test]
fn test_details_with_summary() {
    let result = convert(
        "<details><summary>Click to expand</summary><p>Hidden content</p></details>",
    );
    assert!(result.contains("> **Click to expand**"));
    assert!(result.contains("> Hidden content"));
}

#[test]
fn test_figure_with_caption() {
    let result = convert(
        r#"<figure><img src="photo.jpg" alt="A photo"><figcaption>The caption</figcaption></figure>"#,
    );
    assert!(result.contains("![A photo](photo.jpg)"));
    assert!(result.contains("*The caption*"));
}

#[test]
fn test_passthrough_tags() {
    let result = convert("<p><kbd>Ctrl</kbd> <mark>hi</mark> <sup>2</sup> <sub>0</sub></p>");
    assert!(result.contains("<kbd>Ctrl</kbd>"));
    assert!(result.contains("<mark>hi</mark>"));
    assert!(result.contains("<sup>2</sup>"));
    assert!(result.contains("<sub>0</sub>"));
}

#[test]
fn test_abbr_title_pipeline() {
    let result = convert(r#"<p><abbr title="HyperText Markup Language">HTML</abbr></p>"#);
    assert!(result.contains(r#"<abbr title="HyperText Markup Language">HTML</abbr>"#));
}

#[test]
fn test_br_hard_break() {
    let result = convert("<p>one<br>two</p>");
    assert!(result.contains("one"));
    assert!(result.contains("two"));
}

#[test]
fn test_complex_document() {
    let html = r#"
        <article>
            <h1>Article Title</h1>
            <p>First paragraph with <strong>bold</strong> and <em>italic</em>.</p>
            <h2>Section</h2>
            <p>A <a href="https://example.com">link</a> here.</p>
            <ul>
                <li>Item 1</li>
                <li>Item 2</li>
            </ul>
            <pre><code class="language-rust">fn main() {}</code></pre>
        </article>
    "#;
    let result = convert(html);
    assert!(result.contains("# Article Title"));
    assert!(result.contains("## Section"));
    assert!(result.contains("**bold**"));
    assert!(result.contains("*italic*"));
    assert!(result.contains("[link](https://example.com)"));
    assert!(result.contains("- Item 1"));
    assert!(result.contains("```rust"));
    assert!(result.contains("fn main()"));
}

#[test]
fn test_malformed_html() {
    let result = convert("<p>unclosed <b>bold <em>nested</p><div>more");
    assert!(result.contains("unclosed"));
    assert!(result.contains("more"));
}

#[test]
fn test_language_from_class() {
    assert_eq!(extract_language_from_class("language-rust"), Some("rust".to_string()));
    assert_eq!(extract_language_from_class("lang-go"), Some("go".to_string()));
    assert_eq!(extract_language_from_class("highlight-python"), Some("python".to_string()));
    assert_eq!(extract_language_from_class("hljs-typescript"), Some("typescript".to_string()));
    assert_eq!(extract_language_from_class("hljs-keyword"), None);
    assert_eq!(extract_language_from_class("JAVASCRIPT"), Some("javascript".to_string()));
    assert_eq!(extract_language_from_class("decoration"), None);
}
