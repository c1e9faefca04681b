//! The plain document tree that the conversion pipeline works on.

use vstd::prelude::*;

verus! {

/// One attribute of an element.
#[derive(Debug, Clone)]
pub struct Attr {
    /// The attribute name (lowercased by the parser).
    pub name: String,
    /// The attribute value.
    pub value: String,
}

/// A document node: a plain-value copy of what the HTML parser produced.
#[derive(Debug)]
pub enum DomNode {
    /// An element with its tag name (lowercased by the parser), attributes,
    /// the results of testing it against the configured exclude and include
    /// selector lists, and children.
    Element {
        tag: String,
        attrs: Vec<Attr>,
        matches_exclude: bool,
        matches_include: bool,
        children: Vec<DomNode>,
    },
    /// A text node.
    Text { text: String },
    /// Any other node (comment, doctype, processing instruction); it has no
    /// visible content.
    Other,
}

/// A copy of an attribute list, equal to the original.
pub fn clone_attrs(v: &Vec<Attr>) -> (r: Vec<Attr>)
    ensures
        r@ == v@,
{
    let mut r: Vec<Attr> = Vec::new();
    let mut i: usize = 0;
    while i < v.len()
        invariant
            0 <= i <= v@.len(),
            r@.len() == i,
            forall|j: int| 0 <= j < i ==> r@[j] == v@[j],
        decreases v@.len() - i,
    {
        let a = Attr { name: v[i].name.clone(), value: v[i].value.clone() };
        proof {
            assert(a == v@[i as int]);
        }
        r.push(a);
        i = i + 1;
    }
    assert(r@ =~= v@);
    r
}

/// The value of the first attribute named `name`, if any.
pub open spec fn spec_attr_from(attrs: Seq<Attr>, name: Seq<char>, i: int) -> Option<Seq<char>>
    decreases attrs.len() - i,
{
    if i < 0 || i >= attrs.len() {
        None
    } else if attrs[i].name@ == name {
        Some(attrs[i].value@)
    } else {
        spec_attr_from(attrs, name, i + 1)
    }
}

/// The value of the first attribute named `name`, if any.
pub open spec fn spec_attr(attrs: Seq<Attr>, name: Seq<char>) -> Option<Seq<char>> {
    spec_attr_from(attrs, name, 0)
}

/// Looks up the first attribute named `name`.
pub fn get_attr(attrs: &Vec<Attr>, name: &str) -> (r: Option<String>)
    ensures
        match r {
            Some(v) => spec_attr(attrs@, name@) == Some(v@),
            None => spec_attr(attrs@, name@) is None,
        },
{
    let mut i: usize = 0;
    while i < attrs.len()
        invariant
            0 <= i <= attrs@.len(),
            spec_attr(attrs@, name@) == spec_attr_from(attrs@, name@, i as int),
        decreases attrs@.len() - i,
    {
        if crate::chars::str_eq(attrs[i].name.as_str(), name) {
            return Some(attrs[i].value.clone());
        }
        i = i + 1;
    }
    None
}

} // verus!
