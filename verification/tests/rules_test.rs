//! Tests for the per-tag conversion rules, on constructed document trees
//! and through the whole pipeline.

use supermarkdown::rules::{
    AbbrRule, BlockquoteRule, BreakRule, CodeRule, DefDescRule, DefListRule, DefTermRule,
    DetailsRule, EmphasisRule, FigureRule, HeadingRule, HorizontalRule, ImageRule, KbdRule,
    LinkRule, ListRule, MarkRule, ParagraphRule, PreRule, SampRule, StrikethroughRule, StrongRule,
    SubscriptRule, SuperscriptRule, TableRule, VarRule,
};
use supermarkdown::{convert, convert_with_options, precompute_metadata, AnnNode, Attr, DomNode,
    HeadingStyle, Options};

fn elem(tag: &str, children: Vec<DomNode>) -> DomNode {
    DomNode::Element {
        tag: tag.to_string(),
        attrs: vec![],
        matches_exclude: false,
        matches_include: false,
        children,
    }
}

fn elem_attrs(tag: &str, attrs: Vec<(&str, &str)>, children: Vec<DomNode>) -> DomNode {
    DomNode::Element {
        tag: tag.to_string(),
        attrs: attrs
            .into_iter()
            .map(|(n, v)| Attr { name: n.to_string(), value: v.to_string() })
            .collect(),
        matches_exclude: false,
        matches_include: false,
        children,
    }
}

fn text(t: &str) -> DomNode {
    DomNode::Text { text: t.to_string() }
}

fn ann(dom: &DomNode) -> AnnNode {
    precompute_metadata(dom, &Options::default())
}

#[test]
fn test_h1_atx() {
    let node = ann(&elem("h1", vec![text("Hello")]));
    let result = HeadingRule.convert(&node, &Options::default());
    assert!(result.contains("# Hello"));
}

#[test]
fn test_h2_atx() {
    let node = ann(&elem("h2", vec![text("World")]));
    let result = HeadingRule.convert(&node, &Options::default());
    assert!(result.contains("## World"));
}

#[test]
fn test_h1_setext() {
    let options = Options::new().heading_style(HeadingStyle::Setext);
    let node = ann(&elem("h1", vec![text("Title")]));
    let result = HeadingRule.convert(&node, &options);
    assert!(result.contains("Title\n====="));
}

#[test]
fn test_h2_setext() {
    let options = Options::new().heading_style(HeadingStyle::Setext);
    let node = ann(&elem("h2", vec![text("Subtitle")]));
    let result = HeadingRule.convert(&node, &options);
    assert!(result.contains("Subtitle\n--------"));
}

#[test]
fn test_empty_heading() {
    let node = ann(&elem("h1", vec![]));
    let result = HeadingRule.convert(&node, &Options::default());
    assert!(result.is_empty());
}

#[test]
fn heading_test_whitespace_normalization() {
    let node = ann(&elem("h1", vec![text("Hello   World")]));
    let result = HeadingRule.convert(&node, &Options::default());
    assert!(result.contains("# Hello World"));
}

#[test]
fn paragraph_test_paragraph() {
    let node = ann(&elem("p", vec![text("Hello World")]));
    let result = ParagraphRule.convert(&node, &Options::default());
    assert!(result.contains("Hello World"));
    assert!(result.starts_with("\n\n"));
    assert!(result.ends_with("\n\n"));
}

#[test]
fn test_empty_paragraph() {
    let node = ann(&elem("p", vec![]));
    let result = ParagraphRule.convert(&node, &Options::default());
    assert!(result.is_empty());
}

#[test]
fn test_whitespace_paragraph() {
    let node = ann(&elem("p", vec![text("   ")]));
    let result = ParagraphRule.convert(&node, &Options::default());
    assert!(result.is_empty());
}

#[test]
fn test_strong() {
    let node = ann(&elem("strong", vec![text("bold")]));
    assert_eq!(StrongRule.convert(&node, &Options::default()), "**bold**");
    let node = ann(&elem("b", vec![text("bold")]));
    assert_eq!(StrongRule.convert(&node, &Options::default()), "**bold**");
}

#[test]
fn test_emphasis() {
    let node = ann(&elem("em", vec![text("italic")]));
    assert_eq!(EmphasisRule.convert(&node, &Options::default()), "*italic*");
    let node = ann(&elem("i", vec![text("italic")]));
    assert_eq!(EmphasisRule.convert(&node, &Options::default()), "*italic*");
}

#[test]
fn emphasis_test_empty() {
    let node = ann(&elem("strong", vec![]));
    assert_eq!(StrongRule.convert(&node, &Options::default()), "");
    let node = ann(&elem("em", vec![]));
    assert_eq!(EmphasisRule.convert(&node, &Options::default()), "");
}

#[test]
fn test_del() {
    let node = ann(&elem("del", vec![text("deleted")]));
    assert_eq!(StrikethroughRule.convert(&node, &Options::default()), "~~deleted~~");
}

#[test]
fn test_s() {
    let node = ann(&elem("s", vec![text("strikethrough")]));
    assert_eq!(StrikethroughRule.convert(&node, &Options::default()), "~~strikethrough~~");
}

#[test]
fn test_strike() {
    let node = ann(&elem("strike", vec![text("old")]));
    assert_eq!(StrikethroughRule.convert(&node, &Options::default()), "~~old~~");
}

#[test]
fn test_simple_code() {
    let node = ann(&elem("code", vec![text("hello")]));
    assert_eq!(CodeRule.convert(&node, &Options::default()), "`hello`");
}

#[test]
fn test_code_with_backticks() {
    let node = ann(&elem("code", vec![text("use `this`")]));
    assert_eq!(CodeRule.convert(&node, &Options::default()), "`` use `this` ``");
}

#[test]
fn test_code_starting_with_backtick() {
    let node = ann(&elem("code", vec![text("`start")]));
    assert_eq!(CodeRule.convert(&node, &Options::default()), "`` `start ``");
}

#[test]
fn test_empty_code() {
    let node = ann(&elem("code", vec![]));
    assert_eq!(CodeRule.convert(&node, &Options::default()), "");
}

#[test]
fn test_superscript() {
    let node = ann(&elem("sup", vec![text("2")]));
    assert_eq!(SuperscriptRule.convert(&node, &Options::default()), "<sup>2</sup>");
}

#[test]
fn test_subscript() {
    let node = ann(&elem("sub", vec![text("0")]));
    assert_eq!(SubscriptRule.convert(&node, &Options::default()), "<sub>0</sub>");
}

#[test]
fn test_kbd() {
    let node = ann(&elem("kbd", vec![text("Ctrl+C")]));
    assert_eq!(KbdRule.convert(&node, &Options::default()), "<kbd>Ctrl+C</kbd>");
}

#[test]
fn test_mark() {
    let node = ann(&elem("mark", vec![text("highlighted")]));
    assert_eq!(MarkRule.convert(&node, &Options::default()), "<mark>highlighted</mark>");
}

#[test]
fn test_abbr() {
    let node = ann(&elem("abbr", vec![text("HTML")]));
    assert_eq!(AbbrRule.convert(&node, &Options::default()), "<abbr>HTML</abbr>");
}

#[test]
fn test_abbr_with_title() {
    let node = ann(&elem_attrs(
        "abbr",
        vec![("title", "HyperText Markup Language")],
        vec![text("HTML")],
    ));
    assert_eq!(
        AbbrRule.convert(&node, &Options::default()),
        "<abbr title=\"HyperText Markup Language\">HTML</abbr>"
    );
}

#[test]
fn test_samp() {
    let node = ann(&elem("samp", vec![text("output")]));
    assert_eq!(SampRule.convert(&node, &Options::default()), "<samp>output</samp>");
}

#[test]
fn test_var() {
    let node = ann(&elem("var", vec![text("x")]));
    assert_eq!(VarRule.convert(&node, &Options::default()), "<var>x</var>");
}

#[test]
fn test_empty_elements() {
    let o = Options::default();
    assert!(KbdRule.convert(&ann(&elem("kbd", vec![])), &o).is_empty());
    assert!(MarkRule.convert(&ann(&elem("mark", vec![])), &o).is_empty());
    assert!(AbbrRule.convert(&ann(&elem("abbr", vec![])), &o).is_empty());
    assert!(SampRule.convert(&ann(&elem("samp", vec![])), &o).is_empty());
    assert!(VarRule.convert(&ann(&elem("var", vec![])), &o).is_empty());
}

#[test]
fn hr_test_hr() {
    let node = ann(&elem("hr", vec![]));
    assert_eq!(HorizontalRule.convert(&node, &Options::default()), "\n\n---\n\n");
}

#[test]
fn test_br_rule() {
    let node = ann(&elem("br", vec![]));
    assert_eq!(BreakRule.convert(&node, &Options::default()), "  \n");
}

#[test]
fn test_simple_blockquote() {
    let node = ann(&elem("blockquote", vec![text("Quote")]));
    let result = BlockquoteRule.convert(&node, &Options::default());
    assert!(result.contains("> Quote"));
}

#[test]
fn test_multiline_blockquote() {
    let node = ann(&elem(
        "blockquote",
        vec![elem("p", vec![text("Line 1")]), elem("p", vec![text("Line 2")])],
    ));
    let result = BlockquoteRule.convert(&node, &Options::default());
    assert!(result.contains("> Line 1"));
    assert!(result.contains("> Line 2"));
}

#[test]
fn test_empty_blockquote() {
    let node = ann(&elem("blockquote", vec![]));
    let result = BlockquoteRule.convert(&node, &Options::default());
    assert!(result.is_empty());
}

#[test]
fn test_simple_link() {
    let node = ann(&elem_attrs("a", vec![("href", "https://example.com")], vec![text("Link")]));
    assert_eq!(LinkRule.convert(&node, &Options::default()), "[Link](https://example.com)");
}

#[test]
fn link_test_with_title() {
    let node = ann(&elem_attrs(
        "a",
        vec![("href", "https://example.com"), ("title", "Example")],
        vec![text("Link")],
    ));
    assert_eq!(
        LinkRule.convert(&node, &Options::default()),
        r#"[Link](https://example.com "Example")"#
    );
}

#[test]
fn test_empty_href() {
    let node = ann(&elem_attrs("a", vec![("href", "")], vec![text("Text")]));
    assert_eq!(LinkRule.convert(&node, &Options::default()), "Text");
}

#[test]
fn test_fragment_only() {
    let node = ann(&elem_attrs("a", vec![("href", "#")], vec![text("Text")]));
    assert_eq!(LinkRule.convert(&node, &Options::default()), "Text");
}

#[test]
fn test_relative_url_with_base() {
    let options = Options::new().base_url(Some("https://example.com/dir/".to_string()));
    let node = ann(&elem_attrs("a", vec![("href", "page.html")], vec![text("Link")]));
    let result = LinkRule.convert(&node, &options);
    assert!(result.contains("https://example.com/dir/page.html"));
}

#[test]
fn test_url_with_spaces() {
    let node = ann(&elem_attrs(
        "a",
        vec![("href", "https://example.com/path with spaces")],
        vec![text("Link")],
    ));
    let result = LinkRule.convert(&node, &Options::default());
    assert!(result.contains("%20"));
}

#[test]
fn test_autolink_url() {
    let node = ann(&elem_attrs(
        "a",
        vec![("href", "https://example.com")],
        vec![text("https://example.com")],
    ));
    assert_eq!(LinkRule.convert(&node, &Options::default()), "<https://example.com>");
}

#[test]
fn test_no_autolink_when_text_differs() {
    let node = ann(&elem_attrs(
        "a",
        vec![("href", "https://example.com")],
        vec![text("Example Site")],
    ));
    assert_eq!(
        LinkRule.convert(&node, &Options::default()),
        "[Example Site](https://example.com)"
    );
}

#[test]
fn test_no_autolink_with_title() {
    let node = ann(&elem_attrs(
        "a",
        vec![("href", "https://example.com"), ("title", "tip")],
        vec![text("https://example.com")],
    ));
    assert_eq!(
        LinkRule.convert(&node, &Options::default()),
        r#"[https://example.com](https://example.com "tip")"#
    );
}

#[test]
fn test_fragment_link_with_section() {
    let node = ann(&elem_attrs("a", vec![("href", "#section")], vec![text("Section")]));
    assert_eq!(LinkRule.convert(&node, &Options::default()), "[Section](#section)");
}

#[test]
fn test_fragment_link_with_complex_id() {
    let node = ann(&elem_attrs(
        "a",
        vec![("href", "#user-guide-installation")],
        vec![text("Installation")],
    ));
    assert_eq!(
        LinkRule.convert(&node, &Options::default()),
        "[Installation](#user-guide-installation)"
    );
}

#[test]
fn test_simple_image() {
    let node = ann(&elem_attrs("img", vec![("src", "image.png"), ("alt", "An image")], vec![]));
    assert_eq!(ImageRule.convert(&node, &Options::default()), "![An image](image.png)");
}

#[test]
fn image_test_with_title() {
    let node = ann(&elem_attrs(
        "img",
        vec![("src", "image.png"), ("alt", "Alt"), ("title", "Title")],
        vec![],
    ));
    assert_eq!(ImageRule.convert(&node, &Options::default()), r#"![Alt](image.png "Title")"#);
}

#[test]
fn test_empty_src() {
    let node = ann(&elem_attrs("img", vec![("src", ""), ("alt", "No source")], vec![]));
    assert!(ImageRule.convert(&node, &Options::default()).is_empty());
}

#[test]
fn test_no_alt() {
    let node = ann(&elem_attrs("img", vec![("src", "image.png")], vec![]));
    assert_eq!(ImageRule.convert(&node, &Options::default()), "![](image.png)");
}

#[test]
fn image_test_relative_url_with_base() {
    let options = Options::new().base_url(Some("https://example.com/".to_string()));
    let node = ann(&elem_attrs(
        "img",
        vec![("src", "images/photo.jpg"), ("alt", "Photo")],
        vec![],
    ));
    let result = ImageRule.convert(&node, &options);
    assert!(result.contains("https://example.com/images/photo.jpg"));
}

#[test]
fn test_simple_pre() {
    let node = ann(&elem("pre", vec![text("code here")]));
    let result = PreRule.convert(&node, &Options::default());
    assert!(result.contains("```"));
    assert!(result.contains("code here"));
}

#[test]
fn pre_test_with_language() {
    let node = ann(&elem(
        "pre",
        vec![elem_attrs("code", vec![("class", "language-rust")], vec![text("fn main() {}")])],
    ));
    let result = PreRule.convert(&node, &Options::default());
    assert!(result.contains("```rust"));
    assert!(result.contains("fn main()"));
}

#[test]
fn test_pre_with_backticks() {
    let node = ann(&elem("pre", vec![text("use ``` here")]));
    let result = PreRule.convert(&node, &Options::default());
    assert!(result.contains("````"));
}

#[test]
fn test_tilde_fence() {
    let options = Options::new().code_fence('~');
    let node = ann(&elem("pre", vec![text("code")]));
    let result = PreRule.convert(&node, &options);
    assert!(result.contains("~~~"));
}

#[test]
fn test_empty_pre() {
    let node = ann(&elem("pre", vec![]));
    assert!(PreRule.convert(&node, &Options::default()).is_empty());
}

#[test]
fn test_highlight_prefix() {
    let node = ann(&elem(
        "pre",
        vec![elem_attrs("code", vec![("class", "highlight-python")], vec![text("print(1)")])],
    ));
    let result = PreRule.convert(&node, &Options::default());
    assert!(result.contains("```python"));
}

#[test]
fn test_bare_language_fallback() {
    let node = ann(&elem(
        "pre",
        vec![elem_attrs("code", vec![("class", "javascript")], vec![text("console.log()")])],
    ));
    let result = PreRule.convert(&node, &Options::default());
    assert!(result.contains("```javascript"));
}

#[test]
fn test_lang_prefix() {
    let node = ann(&elem(
        "pre",
        vec![elem_attrs("code", vec![("class", "lang-go")], vec![text("func main()")])],
    ));
    let result = PreRule.convert(&node, &Options::default());
    assert!(result.contains("```go"));
}

#[test]
fn test_hljs_language() {
    let node = ann(&elem(
        "pre",
        vec![elem_attrs("code", vec![("class", "hljs-typescript")], vec![text("const x = 1;")])],
    ));
    let result = PreRule.convert(&node, &Options::default());
    assert!(result.contains("```typescript"));
}

#[test]
fn test_hljs_token_class_ignored() {
    let node = ann(&elem(
        "pre",
        vec![elem_attrs("code", vec![("class", "hljs-keyword")], vec![text("const")])],
    ));
    let result = PreRule.convert(&node, &Options::default());
    assert!(result.contains("```\n"));
}

#[test]
fn test_multiple_backticks_in_code() {
    let node = ann(&elem("pre", vec![text("Here is some code:\n```\nmore code\n```")]));
    let result = PreRule.convert(&node, &Options::default());
    assert!(result.contains("````"));
}

#[test]
fn test_gutter_classes_skipped() {
    let gutter1 = elem_attrs("span", vec![("class", "line-numbers")], vec![text("1")]);
    let gutter2 = elem_attrs("span", vec![("class", "lineno")], vec![text("2")]);
    let code = elem(
        "code",
        vec![gutter1, text("first line\n"), gutter2, text("second line")],
    );
    let node = ann(&elem("pre", vec![code]));
    let result = PreRule.convert(&node, &Options::default());
    assert!(!result.contains("1first"));
    assert!(!result.contains("2second"));
    assert!(result.contains("first line"));
    assert!(result.contains("second line"));
}

#[test]
fn test_pre_on_element_class() {
    let node = ann(&elem_attrs(
        "pre",
        vec![("class", "language-sql")],
        vec![text("SELECT * FROM users;")],
    ));
    let result = PreRule.convert(&node, &Options::default());
    assert!(result.contains("```sql"));
}

#[test]
fn test_multiline_code() {
    let node = ann(&elem("pre", vec![elem("code", vec![text("line 1\nline 2\nline 3")])]));
    let result = PreRule.convert(&node, &Options::default());
    assert!(result.contains("line 1\nline 2\nline 3"));
}

#[test]
fn test_whitespace_preserved() {
    let node = ann(&elem("pre", vec![text("    indented\n        more")]));
    let result = PreRule.convert(&node, &Options::default());
    assert!(result.contains("    indented"));
    assert!(result.contains("        more"));
}

#[test]
fn test_simple_deflist() {
    let node = ann(&elem(
        "dl",
        vec![elem("dt", vec![text("Term")]), elem("dd", vec![text("Definition")])],
    ));
    let result = DefListRule.convert(&node, &Options::default());
    assert!(result.contains("Term"));
    assert!(result.contains(": Definition"));
}

#[test]
fn test_multiple_definitions() {
    let node = ann(&elem(
        "dl",
        vec![
            elem("dt", vec![text("Term 1")]),
            elem("dd", vec![text("Definition 1")]),
            elem("dt", vec![text("Term 2")]),
            elem("dd", vec![text("Definition 2")]),
        ],
    ));
    let result = DefListRule.convert(&node, &Options::default());
    assert!(result.contains("Term 1"));
    assert!(result.contains(": Definition 1"));
    assert!(result.contains("Term 2"));
    assert!(result.contains(": Definition 2"));
}

#[test]
fn test_multiple_dd_per_dt() {
    let node = ann(&elem(
        "dl",
        vec![
            elem("dt", vec![text("Term")]),
            elem("dd", vec![text("First definition")]),
            elem("dd", vec![text("Second definition")]),
        ],
    ));
    let result = DefListRule.convert(&node, &Options::default());
    assert!(result.contains("Term"));
    assert!(result.contains(": First definition"));
    assert!(result.contains(": Second definition"));
}

#[test]
fn test_empty_deflist() {
    let node = ann(&elem("dl", vec![]));
    let result = DefListRule.convert(&node, &Options::default());
    assert!(result.trim().is_empty());
}

#[test]
fn test_standalone_dt_dd() {
    let o = Options::default();
    let dt = ann(&elem("dt", vec![text(" Term ")]));
    assert_eq!(DefTermRule.convert(&dt, &o), "Term");
    let dd = ann(&elem("dd", vec![text("Body")]));
    assert_eq!(DefDescRule.convert(&dd, &o), ": Body");
}

#[test]
fn details_test_with_summary() {
    let node = ann(&elem(
        "details",
        vec![
            elem("summary", vec![text("Click to expand")]),
            elem("p", vec![text("Hidden content")]),
        ],
    ));
    let result = DetailsRule.convert(&node, &Options::default());
    assert!(result.contains("> **Click to expand**"));
    assert!(result.contains("> Hidden content"));
}

#[test]
fn test_details_without_summary() {
    let node = ann(&elem("details", vec![elem("p", vec![text("Just content")])]));
    let result = DetailsRule.convert(&node, &Options::default());
    assert!(result.contains("> Just content"));
    assert!(!result.contains("**"));
}

#[test]
fn test_empty_details() {
    let node = ann(&elem("details", vec![]));
    assert!(DetailsRule.convert(&node, &Options::default()).is_empty());
}

#[test]
fn figure_test_with_caption() {
    let node = ann(&elem(
        "figure",
        vec![
            elem_attrs("img", vec![("src", "photo.jpg"), ("alt", "A photo")], vec![]),
            elem("figcaption", vec![text("This is the caption")]),
        ],
    ));
    let result = FigureRule.convert(&node, &Options::default());
    assert!(result.contains("![A photo](photo.jpg)"));
    assert!(result.contains("*This is the caption*"));
}

#[test]
fn test_figure_without_caption() {
    let node = ann(&elem(
        "figure",
        vec![elem_attrs("img", vec![("src", "photo.jpg"), ("alt", "A photo")], vec![])],
    ));
    let result = FigureRule.convert(&node, &Options::default());
    assert!(result.contains("![A photo](photo.jpg)"));
    assert!(!result.contains("*"));
}

#[test]
fn test_figure_with_picture() {
    let node = ann(&elem(
        "figure",
        vec![elem(
            "picture",
            vec![
                elem_attrs("source", vec![("srcset", "photo.webp")], vec![]),
                elem_attrs("img", vec![("src", "photo.jpg"), ("alt", "A photo")], vec![]),
            ],
        )],
    ));
    let result = FigureRule.convert(&node, &Options::default());
    assert!(result.contains("![A photo](photo.jpg)"));
}

#[test]
fn test_empty_figure() {
    let node = ann(&elem("figure", vec![]));
    assert!(FigureRule.convert(&node, &Options::default()).is_empty());
}

#[test]
fn list_test_unordered() {
    let node = ann(&elem(
        "ul",
        vec![elem("li", vec![text("First")]), elem("li", vec![text("Second")])],
    ));
    let result = ListRule.convert(&node, &Options::default());
    assert!(result.contains("- First"));
    assert!(result.contains("- Second"));
}

#[test]
fn list_test_ordered() {
    let node = ann(&elem(
        "ol",
        vec![
            elem("li", vec![text("One")]),
            elem("li", vec![text("Two")]),
            elem("li", vec![text("Three")]),
        ],
    ));
    let result = ListRule.convert(&node, &Options::default());
    assert!(result.contains("1. One"));
    assert!(result.contains("2. Two"));
    assert!(result.contains("3. Three"));
}

#[test]
fn test_plus_bullet_marker() {
    let options = Options::new().bullet_marker('+');
    let result = convert_with_options("<ul><li>Item</li></ul>", &options);
    assert!(result.contains("+ Item"));
}

#[test]
fn test_empty_list_items_skipped() {
    let result = convert("<ul><li>Item 1</li><li></li><li>Item 3</li></ul>");
    assert!(result.contains("- Item 1"));
    assert!(result.contains("- Item 3"));
    assert_eq!(result.matches("- ").count(), 2);
}

#[test]
fn test_simple_table() {
    let result = convert(
        "<table><tr><th>Header 1</th><th>Header 2</th></tr><tr><td>Cell 1</td><td>Cell 2</td></tr></table>",
    );
    assert!(result.contains("| Header 1"));
    assert!(result.contains("| Cell 1"));
    assert!(result.contains("---"));
}

#[test]
fn test_table_with_thead_tbody() {
    let result = convert(
        "<table><thead><tr><th>Name</th><th>Age</th></tr></thead><tbody><tr><td>Alice</td><td>30</td></tr></tbody></table>",
    );
    assert!(result.contains("| Name"));
    assert!(result.contains("| Alice"));
}

#[test]
fn test_empty_table() {
    let node = ann(&elem("table", vec![]));
    assert!(TableRule.convert(&node, &Options::default()).is_empty());
}

#[test]
fn test_table_with_style_alignment() {
    let result = convert(
        r#"<table><tr><th style="text-align: right">Right</th></tr><tr><td style="text-align: right">R</td></tr></table>"#,
    );
    assert!(result.contains("---:"));
}

#[test]
fn test_table_with_missing_cells() {
    let result = convert(
        "<table><tr><th>A</th><th>B</th><th>C</th></tr><tr><td>1</td><td>2</td></tr><tr><td>X</td></tr></table>",
    );
    let lines: Vec<&str> = result.lines().filter(|l| l.contains('|')).collect();
    assert!(lines.len() >= 3);
    let header_pipes = lines.first().map(|l| l.matches('|').count()).unwrap_or(0);
    for line in &lines {
        assert_eq!(line.matches('|').count(), header_pipes);
    }
}

#[test]
fn test_table_with_tfoot() {
    let result = convert(
        "<table><thead><tr><th>Item</th><th>Price</th></tr></thead><tbody><tr><td>Apple</td><td>$1</td></tr></tbody><tfoot><tr><td>Total</td><td>$1</td></tr></tfoot></table>",
    );
    assert!(result.contains("| Item"));
    assert!(result.contains("| Apple"));
    assert!(result.contains("| Total"));
}

#[test]
fn test_table_header_only() {
    let result = convert("<table><tr><th>Col A</th><th>Col B</th></tr></table>");
    assert!(result.contains("| Col A"));
    assert!(result.contains("---"));
}
