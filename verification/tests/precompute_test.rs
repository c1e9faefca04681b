//! Tests for the metadata precomputation pass and the rule structs, on
//! directly constructed document trees.

use supermarkdown::rules::{HeadingRule, ListItemRule, ParagraphRule};
use supermarkdown::{precompute_metadata, AnnNode, Attr, DomNode, Options};

fn elem(tag: &str, children: Vec<DomNode>) -> DomNode {
    DomNode::Element {
        tag: tag.to_string(),
        attrs: vec![],
        matches_exclude: false,
        matches_include: false,
        children,
    }
}

fn elem_attrs(tag: &str, attrs: Vec<(&str, &str)>, children: Vec<DomNode>) -> DomNode {
    DomNode::Element {
        tag: tag.to_string(),
        attrs: attrs
            .into_iter()
            .map(|(n, v)| Attr { name: n.to_string(), value: v.to_string() })
            .collect(),
        matches_exclude: false,
        matches_include: false,
        children,
    }
}

fn text(t: &str) -> DomNode {
    DomNode::Text { text: t.to_string() }
}

fn li(content: &str) -> DomNode {
    elem("li", vec![text(content)])
}

fn meta_of(n: &AnnNode) -> &supermarkdown::NodeMetadata {
    match n {
        AnnNode::Element { meta, .. } => meta,
        _ => panic!("expected an element"),
    }
}

fn children_of(n: &AnnNode) -> &Vec<AnnNode> {
    match n {
        AnnNode::Element { children, .. } => children,
        _ => panic!("expected an element"),
    }
}

#[test]
fn test_list_metadata_prefixes() {
    let dom = elem("ul", vec![li("First"), li("Second")]);
    let ann = precompute_metadata(&dom, &Options::default());
    let kids = children_of(&ann);
    assert_eq!(meta_of(&kids[0]).list_prefix, Some("- ".to_string()));
    assert_eq!(meta_of(&kids[1]).list_prefix, Some("- ".to_string()));
    assert_eq!(meta_of(&kids[0]).ancestor_indent, 0);
}

#[test]
fn test_ordered_list_metadata() {
    let dom = elem("ol", vec![li("a"), li("b"), li("c")]);
    let ann = precompute_metadata(&dom, &Options::default());
    let kids = children_of(&ann);
    assert_eq!(meta_of(&kids[0]).list_prefix, Some("1. ".to_string()));
    assert_eq!(meta_of(&kids[1]).list_prefix, Some("2. ".to_string()));
    assert_eq!(meta_of(&kids[2]).list_prefix, Some("3. ".to_string()));
}

#[test]
fn test_ordered_list_with_start_metadata() {
    let dom = elem_attrs("ol", vec![("start", "5")], vec![li("e"), li("f"), li("g")]);
    let ann = precompute_metadata(&dom, &Options::default());
    let kids = children_of(&ann);
    assert_eq!(meta_of(&kids[0]).list_prefix, Some("5. ".to_string()));
    assert_eq!(meta_of(&kids[1]).list_prefix, Some("6. ".to_string()));
    assert_eq!(meta_of(&kids[2]).list_prefix, Some("7. ".to_string()));
}

#[test]
fn test_unreadable_start_attribute_defaults() {
    let dom = elem_attrs("ol", vec![("start", "soon")], vec![li("a")]);
    let ann = precompute_metadata(&dom, &Options::default());
    let kids = children_of(&ann);
    assert_eq!(meta_of(&kids[0]).list_prefix, Some("1. ".to_string()));
}

#[test]
fn test_nested_list_indentation() {
    // The inner item's indent is the outer item's indent plus the length of
    // the outer item's prefix ("- " is two columns).
    let inner = elem("ul", vec![li("Inner")]);
    let outer_item = elem("li", vec![text("Outer"), inner]);
    let dom = elem("ul", vec![outer_item]);
    let ann = precompute_metadata(&dom, &Options::default());
    let outer = &children_of(&ann)[0];
    assert_eq!(meta_of(outer).ancestor_indent, 0);
    let sub = &children_of(outer)[1];
    let inner_item = &children_of(sub)[0];
    assert_eq!(meta_of(inner_item).ancestor_indent, 2);
    assert_eq!(meta_of(inner_item).list_prefix, Some("- ".to_string()));
}

#[test]
fn test_exclude_flag_propagates() {
    let keep = elem("p", vec![text("Keep")]);
    let skip = DomNode::Element {
        tag: "nav".to_string(),
        attrs: vec![],
        matches_exclude: true,
        matches_include: false,
        children: vec![text("Skip")],
    };
    let dom = elem("div", vec![skip, keep]);
    let ann = precompute_metadata(&dom, &Options::default());
    let kids = children_of(&ann);
    assert!(meta_of(&kids[0]).skip);
    assert!(!meta_of(&kids[1]).skip);
}

#[test]
fn test_force_keep_under_excluded_ancestor() {
    // The force-kept element clears the inherited suppression for its whole
    // subtree.
    let kept = DomNode::Element {
        tag: "div".to_string(),
        attrs: vec![],
        matches_exclude: false,
        matches_include: true,
        children: vec![elem("span", vec![text("inside")])],
    };
    let dom = DomNode::Element {
        tag: "nav".to_string(),
        attrs: vec![],
        matches_exclude: true,
        matches_include: false,
        children: vec![kept],
    };
    let ann = precompute_metadata(&dom, &Options::default());
    assert!(meta_of(&ann).skip);
    let kept_ann = &children_of(&ann)[0];
    assert!(meta_of(kept_ann).force_keep);
    assert!(!meta_of(kept_ann).skip);
    let span = &children_of(kept_ann)[0];
    assert!(!meta_of(span).skip);
}

#[test]
fn test_rule_structs_render() {
    let opts = Options::default();
    let dom = elem("h2", vec![text("A   Title")]);
    let ann = precompute_metadata(&dom, &opts);
    let out = HeadingRule.convert(&ann, &opts);
    assert_eq!(out, "\n\n## A Title\n\n");

    let dom = elem("p", vec![text("  body  ")]);
    let ann = precompute_metadata(&dom, &opts);
    let out = ParagraphRule.convert(&ann, &opts);
    assert_eq!(out, "\n\nbody\n\n");

    let dom = elem("ul", vec![li("thing")]);
    let ann = precompute_metadata(&dom, &opts);
    let item = &children_of(&ann)[0];
    let out = ListItemRule.convert(item, &opts);
    assert_eq!(out, "- thing\n");
}
