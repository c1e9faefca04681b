//! The trusted boundary to the HTML parser and the CSS selector engine.

use vstd::prelude::*;
use crate::dom::{Attr, DomNode};

verus! {

#[verifier::external_type_specification]
#[verifier::external_body]
pub struct ExSelector(scraper::Selector);

#[verifier::external_type_specification]
#[verifier::external_body]
pub struct ExScraperNode(scraper::Node);

#[verifier::external_type_specification]
#[verifier::external_body]
#[verifier::reject_recursive_types(T)]
pub struct ExNodeRef<'a, T: 'a>(ego_tree::NodeRef<'a, T>);

/// The document tree that parsing `html` yields, with each element flagged
/// by whether it matches any of the `excluded` respectively `included`
/// selectors. Parsing and selector matching are deterministic, so the tree
/// is a function of these inputs alone.
pub uninterp spec fn parsed_dom(html: Seq<char>, excluded: Seq<Seq<char>>, included: Seq<Seq<char>>) -> DomNode;

/// Relies on `ego_tree::NodeRef::{value, children}`, `scraper::Element::{name, attrs}`,
/// `scraper::ElementRef::wrap` and `scraper::Selector::matches`: copies the
/// parsed tree into plain values node by node, recording for each element
/// whether any selector of `ex` respectively `inc` matches it.
#[verifier::external_body]
fn dom_from_node(
    node: ego_tree::NodeRef<'_, scraper::Node>,
    ex: &Vec<scraper::Selector>,
    inc: &Vec<scraper::Selector>,
) -> DomNode {
    match node.value() {
        scraper::Node::Element(el) => {
            let er = scraper::ElementRef::wrap(node).unwrap();
            DomNode::Element {
                tag: el.name().to_string(),
                attrs: el.attrs().map(|(k, v)| Attr { name: k.to_string(), value: v.to_string() }).collect(),
                matches_exclude: ex.iter().any(|s| s.matches(&er)),
                matches_include: inc.iter().any(|s| s.matches(&er)),
                children: node.children().map(|c| dom_from_node(c, ex, inc)).collect(),
            }
        },
        scraper::Node::Text(t) => DomNode::Text { text: (**t).to_string() },
        _ => DomNode::Other,
    }
}

/// Relies on `scraper::Html::parse_document`, which builds a tree for any
/// input (malformed markup included), and on `scraper::Selector::parse`,
/// which compiles a selector string; a selector that fails to compile is
/// dropped. The returned tree is rooted at the document's `html` element.
#[verifier::external_body]
pub fn parse_document(html: &str, excluded: &Vec<String>, included: &Vec<String>) -> (d: DomNode)
    ensures
        d == parsed_dom(html@, excluded.deep_view(), included.deep_view()),
{
    let doc = scraper::Html::parse_document(html);
    let ex: Vec<scraper::Selector> =
        excluded.iter().filter_map(|s| scraper::Selector::parse(s).ok()).collect();
    let inc: Vec<scraper::Selector> =
        included.iter().filter_map(|s| scraper::Selector::parse(s).ok()).collect();
    dom_from_node(*doc.root_element(), &ex, &inc)
}

} // verus!
