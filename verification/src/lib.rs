//! HTML to Markdown conversion, verified.
//!
//! The pipeline parses HTML into a plain document tree, precomputes
//! per-element metadata (list numbering, indentation, visibility), renders
//! each element through a fixed table of tag rules, and postprocesses the
//! resulting text.

use vstd::prelude::*;

mod chars;
mod dom;
mod precompute;
mod postprocess;
mod render;
mod entities;
mod escape;
mod options;
mod parse;
mod whitespace;

pub mod rules;

pub use dom::{Attr, DomNode};
pub use precompute::{precompute_metadata, AnnNode, NodeMetadata};
pub use render::{extract_language_from_class, indent_continuation, render_node};

pub use entities::decode_entities;
pub use postprocess::{escape_link_newlines, postprocess, trim_trailing_whitespace};
pub use options::{HeadingStyle, LinkStyle, Options};

pub use escape::{
    calculate_code_backticks, calculate_fence, escape_attr, escape_markdown, escape_table_cell,
    escape_title, escape_url, resolve_url,
};
pub use whitespace::{
    collapse_newlines, is_whitespace_only, normalize_block_whitespace, normalize_inline_whitespace,
    trim_inline_content,
};

verus! {

/// The markdown that converting `html` with `options` yields: the document
/// is parsed and flagged by the selector lists, annotated with list and
/// visibility metadata, rendered through the tag rules, and postprocessed.
/// Empty input yields empty output without any traversal.
pub open spec fn spec_convert_with_options(html: Seq<char>, options: Options) -> Seq<char> {
    if html.len() == 0 {
        Seq::empty()
    } else {
        postprocess::spec_postprocess(
            render::spec_render_node(
                precompute::spec_precompute(
                    parse::parsed_dom(
                        html,
                        options.exclude_selectors.deep_view(),
                        options.include_selectors.deep_view(),
                    ),
                    options.bullet_marker,
                ),
                options,
            ),
            options,
        )
    }
}

/// Convert HTML to Markdown with custom options; malformed HTML is handled
/// by the parser and never fails.
pub fn convert_with_options(html: &str, options: &Options) -> (r: String)
    ensures
        r@ == spec_convert_with_options(html@, *options),
{
    if html.is_empty() {
        let r = String::new();
        return r;
    }
    let dom = parse::parse_document(
        html,
        &options.exclude_selectors,
        &options.include_selectors,
    );
    let ann = precompute::precompute_metadata(&dom, options);
    let md = render::render_node(&ann, options);
    let out = postprocess::postprocess_chars(&md, options);
    chars::chars_string(&out)
}

/// Conversion reads the configuration only through its render-relevant
/// fields and the selector lists.
proof fn lemma_convert_options_agree(html: Seq<char>, a: Options, b: Options)
    requires
        render::same_render_options(a, b),
        a.bullet_marker == b.bullet_marker,
        a.exclude_selectors.deep_view() == b.exclude_selectors.deep_view(),
        a.include_selectors.deep_view() == b.include_selectors.deep_view(),
    ensures
        spec_convert_with_options(html, a) == spec_convert_with_options(html, b),
{
    if html.len() > 0 {
        let dom = parse::parsed_dom(
            html,
            a.exclude_selectors.deep_view(),
            a.include_selectors.deep_view(),
        );
        render::lemma_render_node_opts(
            precompute::spec_precompute(dom, a.bullet_marker),
            a,
            b,
        );
    }
}

/// Convert HTML to Markdown with default options.
pub fn convert(html: &str) -> (r: String)
    ensures
        forall|o: Options|
            #[trigger] options::is_default_options(o) ==> r@ == spec_convert_with_options(
                html@,
                o,
            ),
{
    let o0 = Options::new();
    let r = convert_with_options(html, &o0);
    proof {
        assert forall|o: Options| #[trigger]
            options::is_default_options(o) implies r@ == spec_convert_with_options(
            html@,
            o,
        ) by {
            assert(o.exclude_selectors.deep_view() =~~= o0.exclude_selectors.deep_view());
            assert(o.include_selectors.deep_view() =~~= o0.include_selectors.deep_view());
            lemma_convert_options_agree(html@, o, o0);
        }
    }
    r
}

} // verus!
