//! The definition list rules (`dl`, `dt`, `dd`).

use vstd::prelude::*;
use crate::options::Options;
use crate::precompute::{ann_view, AnnNode};
use crate::render::{render_node, spec_render_node};

verus! {

/// Renders a definition list, pairing terms and definitions.
pub struct DefListRule;

impl DefListRule {
    /// Converts the element to its markdown fragment.
    pub fn convert(&self, node: &AnnNode, options: &Options) -> (r: String)
        ensures
            r@ == spec_render_node(ann_view(*node), *options),
    {
        let out = render_node(node, options);
        crate::chars::chars_string(&out)
    }
}

/// Renders a definition term standing alone.
pub struct DefTermRule;

impl DefTermRule {
    /// Converts the element to its markdown fragment.
    pub fn convert(&self, node: &AnnNode, options: &Options) -> (r: String)
        ensures
            r@ == spec_render_node(ann_view(*node), *options),
    {
        let out = render_node(node, options);
        crate::chars::chars_string(&out)
    }
}

/// Renders a definition description standing alone.
pub struct DefDescRule;

impl DefDescRule {
    /// Converts the element to its markdown fragment.
    pub fn convert(&self, node: &AnnNode, options: &Options) -> (r: String)
        ensures
            r@ == spec_render_node(ann_view(*node), *options),
    {
        let out = render_node(node, options);
        crate::chars::chars_string(&out)
    }
}

} // verus!
