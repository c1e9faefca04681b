//! The inline code rule.

use vstd::prelude::*;
use crate::options::Options;
use crate::precompute::{ann_view, AnnNode};
use crate::render::{render_node, spec_render_node};

verus! {

/// Renders inline code, delimited by enough backticks.
pub struct CodeRule;

impl CodeRule {
    /// Converts the element to its markdown fragment.
    pub fn convert(&self, node: &AnnNode, options: &Options) -> (r: String)
        ensures
            r@ == spec_render_node(ann_view(*node), *options),
    {
        let out = render_node(node, options);
        crate::chars::chars_string(&out)
    }
}

} // verus!
