//! The details and summary rule.

use vstd::prelude::*;
use crate::options::Options;
use crate::precompute::{ann_view, AnnNode};
use crate::render::{render_node, spec_render_node};

verus! {

/// Renders a details element, as a quoted block with its summary bold.
pub struct DetailsRule;

impl DetailsRule {
    /// Converts the element to its markdown fragment.
    pub fn convert(&self, node: &AnnNode, options: &Options) -> (r: String)
        ensures
            r@ == spec_render_node(ann_view(*node), *options),
    {
        let out = render_node(node, options);
        crate::chars::chars_string(&out)
    }
}

} // verus!
