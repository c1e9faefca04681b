//! Metadata precomputation: one pass over the document tree that resolves
//! list numbering, list indentation, and element visibility.

use vstd::prelude::*;
use crate::chars::{dec_chars, sat_add, sat_add_exec, spec_dec, str_chars, sub_chars};
use crate::dom::{spec_attr, Attr, DomNode, get_attr};
use crate::entities::{dec_val, is_digit_char};

verus! {

/// Pre-computed metadata for one element.
#[derive(Debug, Clone)]
pub struct NodeMetadata {
    /// For a list item: the rendered prefix (`"- "`, `"12. "`).
    pub list_prefix: Option<String>,
    /// For a list item: the indentation inherited from enclosing lists, in
    /// spaces.
    pub ancestor_indent: usize,
    /// Whether this element and its subtree are suppressed.
    pub skip: bool,
    /// Whether this element is kept even under an excluded ancestor.
    pub force_keep: bool,
}

/// The spec-level value of a [`NodeMetadata`].
pub struct MetaView {
    pub list_prefix: Option<Seq<char>>,
    pub ancestor_indent: usize,
    pub skip: bool,
    pub force_keep: bool,
}

/// The value of a [`NodeMetadata`].
pub open spec fn meta_view(m: NodeMetadata) -> MetaView {
    MetaView {
        list_prefix: match m.list_prefix {
            Some(s) => Some(s@),
            None => None,
        },
        ancestor_indent: m.ancestor_indent,
        skip: m.skip,
        force_keep: m.force_keep,
    }
}

/// Metadata with no list data and the given visibility.
pub open spec fn plain_meta(skip: bool, force_keep: bool) -> MetaView {
    MetaView { list_prefix: None, ancestor_indent: 0, skip, force_keep }
}

/// An element of the annotated tree that the converter renders.
#[derive(Debug)]
pub enum AnnNode {
    /// An element together with its precomputed metadata.
    Element { tag: String, attrs: Vec<Attr>, meta: NodeMetadata, children: Vec<AnnNode> },
    /// A text node.
    Text { text: String },
    /// Any other node.
    Other,
}

/// The spec-level value of an [`AnnNode`].
pub enum AnnView {
    Element { tag: Seq<char>, attrs: Seq<Attr>, meta: MetaView, children: Seq<AnnView> },
    Text { text: Seq<char> },
    Other,
}

/// The value of an [`AnnNode`].
pub open spec fn ann_view(n: AnnNode) -> AnnView
    decreases n, 0int, 0int,
{
    match n {
        AnnNode::Element { tag, attrs, meta, children } => AnnView::Element {
            tag: tag@,
            attrs: attrs@,
            meta: meta_view(meta),
            children: ann_views_from(children@, 0),
        },
        AnnNode::Text { text } => AnnView::Text { text: text@ },
        AnnNode::Other => AnnView::Other,
    }
}

/// The values of the elements of `v` from position `i` on.
pub open spec fn ann_views_from(v: Seq<AnnNode>, i: int) -> Seq<AnnView>
    decreases v, 1int, v.len() - i,
{
    if i < 0 || i >= v.len() {
        Seq::empty()
    } else {
        seq![ann_view(v[i])] + ann_views_from(v, i + 1)
    }
}

/// The values of a sequence of [`AnnNode`]s.
pub open spec fn ann_views(v: Seq<AnnNode>) -> Seq<AnnView> {
    ann_views_from(v, 0)
}

/// `ann_views_from` lists the value of each element in order.
pub proof fn lemma_ann_views_from(v: Seq<AnnNode>, i: int)
    requires
        0 <= i <= v.len(),
    ensures
        ann_views_from(v, i).len() == v.len() - i,
        forall|j: int|
            0 <= j < v.len() - i ==> #[trigger] ann_views_from(v, i)[j] == ann_view(v[i + j]),
    decreases v.len() - i,
{
    if i < v.len() {
        lemma_ann_views_from(v, i + 1);
    }
}

/// The number of nodes in an annotated tree; the measure that the
/// converter's recursion decreases.
pub open spec fn view_size(n: AnnView) -> nat
    decreases n, 1int, 0int,
{
    match n {
        AnnView::Element { children, .. } => 1 + seq_view_size(children, 0),
        AnnView::Text { .. } => 1,
        AnnView::Other => 1,
    }
}

pub open spec fn seq_view_size(s: Seq<AnnView>, i: int) -> nat
    decreases s, 0int, s.len() - i,
{
    if i < 0 || i >= s.len() {
        0
    } else {
        view_size(s[i]) + seq_view_size(s, i + 1)
    }
}

/// Every element of a sequence is smaller than the sequence's total size.
pub proof fn lemma_seq_view_size(s: Seq<AnnView>, j: int, k: int)
    requires
        0 <= j <= k < s.len(),
    ensures
        view_size(s[k]) <= seq_view_size(s, j),
    decreases k - j,
{
    if j < k {
        lemma_seq_view_size(s, j + 1, k);
    }
}

/// A child's subtree is no larger than the children's total size.
pub proof fn lemma_child_view_size(children: Seq<AnnNode>, i: int)
    requires
        0 <= i < children.len(),
    ensures
        view_size(ann_view(children[i])) <= seq_view_size(ann_views_from(children, 0), 0),
{
    lemma_ann_views_from(children, 0);
    let s = ann_views_from(children, 0);
    assert(s[i] == ann_view(children[i]));
    lemma_seq_view_size(s, 0, i);
}

/// The state of the innermost enclosing list during the traversal.
#[derive(Debug, Clone, Copy, PartialEq, Eq, Structural)]
pub struct ListFrame {
    /// Whether the list is ordered.
    pub ordered: bool,
    /// The index of the most recent item (the next item gets `index + 1`).
    pub index: usize,
    /// Indentation inherited from enclosing lists, in spaces.
    pub indent: usize,
    /// The length of the most recent item's prefix.
    pub prefix_len: usize,
}

/// `s` without one leading plus sign, if it has one.
pub open spec fn strip_plus(s: Seq<char>) -> Seq<char> {
    if s.len() > 0 && s[0] == '+' {
        s.skip(1)
    } else {
        s
    }
}

/// Whether every character of `s` is a decimal digit.
pub open spec fn all_digits(s: Seq<char>) -> bool {
    forall|i: int| 0 <= i < s.len() ==> is_digit_char(#[trigger] s[i])
}

/// The value `parse::<usize>` gives for `s`: the digits' value when `s` is
/// an optional plus sign followed by digits only and the value fits.
pub open spec fn spec_parse_usize(s: Seq<char>) -> Option<usize> {
    if strip_plus(s).len() > 0 && all_digits(strip_plus(s)) && dec_val(strip_plus(s))
        <= usize::MAX {
        Some(dec_val(strip_plus(s)) as usize)
    } else {
        None
    }
}

/// Parses a decimal `usize`, accepting an optional leading plus sign.
pub fn parse_usize_chars(v: &Vec<char>) -> (r: Option<usize>)
    ensures
        r == spec_parse_usize(v@),
{
    let off: usize = if v.len() > 0 && v[0] == '+' {
        1
    } else {
        0
    };
    let d = sub_chars(v, off, v.len());
    proof {
        if off == 1 {
            assert(d@ =~= v@.skip(1));
        } else {
            assert(d@ =~= v@);
        }
    }
    if d.len() == 0 {
        return None;
    }
    let mut acc: usize = 0;
    let mut big: bool = false;
    let mut i: usize = 0;
    assert(d@.subrange(0, 0) =~= Seq::<char>::empty());
    while i < d.len()
        invariant
            0 <= i <= d@.len(),
            d@ == strip_plus(v@),
            d@.len() > 0,
            forall|j: int| 0 <= j < i ==> is_digit_char(#[trigger] d@[j]),
            !big ==> acc == dec_val(d@.subrange(0, i as int)),
            big ==> dec_val(d@.subrange(0, i as int)) > usize::MAX,
        decreases d@.len() - i,
    {
        let c = d[i];
        if !('0' <= c && c <= '9') {
            proof {
                assert(strip_plus(v@) == d@);
                assert(!is_digit_char(strip_plus(v@)[i as int]));
                assert(!all_digits(strip_plus(v@)));
            }
            return None;
        }
        let dd: usize = (c as u32 as usize) - ('0' as u32 as usize);
        proof {
            let pre = d@.subrange(0, i as int);
            let post = d@.subrange(0, i + 1);
            assert(post.drop_last() =~= pre);
            assert(post.last() == d@[i as int]);
            assert(dec_val(post) == dec_val(pre) * 10 + crate::entities::digit_val(d@[i as int]));
            assert(dd == crate::entities::digit_val(d@[i as int]));
        }
        if big {
            proof {
                let pre = d@.subrange(0, i as int);
                assert(dec_val(pre) * 10 >= dec_val(pre)) by (nonlinear_arith)
                    requires
                        dec_val(pre) >= 0,
                ;
            }
        } else {
            if acc > (usize::MAX - dd) / 10 {
                proof {
                    let pre = d@.subrange(0, i as int);
                    assert(dec_val(pre) * 10 + dd > usize::MAX) by (nonlinear_arith)
                        requires
                            dec_val(pre) == acc,
                            acc > (usize::MAX - dd) / 10,
                            0 <= dd <= 9,
                    ;
                }
                big = true;
            } else {
                proof {
                    assert(acc * 10 + dd <= usize::MAX) by (nonlinear_arith)
                        requires
                            0 <= acc <= (usize::MAX - dd) / 10,
                            0 <= dd <= 9,
                    ;
                }
                acc = acc * 10 + dd;
            }
        }
        i = i + 1;
    }
    assert(d@.subrange(0, d@.len() as int) =~= d@);
    if big {
        None
    } else {
        Some(acc)
    }
}

/// The starting index for a list container: one less than its `start`
/// attribute for ordered lists, zero otherwise or when the attribute is
/// absent or unreadable.
pub open spec fn spec_list_start(ordered: bool, attrs: Seq<Attr>) -> usize {
    if !ordered {
        0
    } else {
        match spec_attr(attrs, "start"@) {
            Some(s) => match spec_parse_usize(s) {
                Some(k) => if k > 0 {
                    (k - 1) as usize
                } else {
                    0
                },
                None => 0,
            },
            None => 0,
        }
    }
}

/// The frame that entering a list container pushes.
pub open spec fn spec_new_frame(ordered: bool, attrs: Seq<Attr>, frame: Option<ListFrame>) -> ListFrame {
    ListFrame {
        ordered,
        index: spec_list_start(ordered, attrs),
        indent: match frame {
            Some(f) => sat_add(f.indent, f.prefix_len),
            None => 0,
        },
        prefix_len: 2,
    }
}

/// The prefix a list item renders with.
pub open spec fn spec_li_prefix(ordered: bool, index: usize, bullet: char) -> Seq<char> {
    if ordered {
        spec_dec(index as nat) + seq!['.', ' ']
    } else {
        seq![bullet, ' ']
    }
}

/// The visibility of an element: a force-keep match overrides an exclude
/// match, which overrides the inherited state.
pub open spec fn spec_skip(matches_exclude: bool, matches_include: bool, inherited: bool) -> bool {
    if matches_include {
        false
    } else if matches_exclude {
        true
    } else {
        inherited
    }
}

/// The annotation of one node: its metadata-bearing copy and the list frame
/// as it stands after the node's subtree.
pub open spec fn spec_annotate(
    node: DomNode,
    frame: Option<ListFrame>,
    inherited_skip: bool,
    bullet: char,
) -> (AnnView, Option<ListFrame>)
    decreases node, 1int, 0int,
{
    match node {
        DomNode::Text { text } => (AnnView::Text { text: text@ }, frame),
        DomNode::Other => (AnnView::Other, frame),
        DomNode::Element { tag, attrs, matches_exclude, matches_include, children } => {
            if tag@ == "ul"@ || tag@ == "ol"@ {
                (
                    AnnView::Element {
                        tag: tag@,
                        attrs: attrs@,
                        meta: plain_meta(
                            spec_skip(matches_exclude, matches_include, inherited_skip),
                            matches_include,
                        ),
                        children: spec_annotate_seq(
                            children@,
                            0,
                            Some(spec_new_frame(tag@ == "ol"@, attrs@, frame)),
                            spec_skip(matches_exclude, matches_include, inherited_skip),
                            bullet,
                        ).0,
                    },
                    frame,
                )
            } else if tag@ == "li"@ && frame is Some {
                (
                    AnnView::Element {
                        tag: tag@,
                        attrs: attrs@,
                        meta: MetaView {
                            list_prefix: Some(
                                spec_li_prefix(
                                    frame->0.ordered,
                                    sat_add(frame->0.index, 1),
                                    bullet,
                                ),
                            ),
                            ancestor_indent: frame->0.indent,
                            skip: spec_skip(matches_exclude, matches_include, inherited_skip),
                            force_keep: matches_include,
                        },
                        children: spec_annotate_seq(
                            children@,
                            0,
                            Some(spec_li_frame(frame->0, bullet)),
                            spec_skip(matches_exclude, matches_include, inherited_skip),
                            bullet,
                        ).0,
                    },
                    spec_annotate_seq(
                        children@,
                        0,
                        Some(spec_li_frame(frame->0, bullet)),
                        spec_skip(matches_exclude, matches_include, inherited_skip),
                        bullet,
                    ).1,
                )
            } else {
                (
                    AnnView::Element {
                        tag: tag@,
                        attrs: attrs@,
                        meta: plain_meta(
                            spec_skip(matches_exclude, matches_include, inherited_skip),
                            matches_include,
                        ),
                        children: spec_annotate_seq(
                            children@,
                            0,
                            frame,
                            spec_skip(matches_exclude, matches_include, inherited_skip),
                            bullet,
                        ).0,
                    },
                    spec_annotate_seq(
                        children@,
                        0,
                        frame,
                        spec_skip(matches_exclude, matches_include, inherited_skip),
                        bullet,
                    ).1,
                )
            }
        },
    }
}

/// The frame after a list item claims the next index and records its prefix
/// length.
pub open spec fn spec_li_frame(fr: ListFrame, bullet: char) -> ListFrame {
    ListFrame {
        ordered: fr.ordered,
        index: sat_add(fr.index, 1),
        indent: fr.indent,
        prefix_len: spec_li_prefix(fr.ordered, sat_add(fr.index, 1), bullet).len() as usize,
    }
}

/// The annotations of `children` from position `i` on, threading the list
/// frame left to right.
pub open spec fn spec_annotate_seq(
    children: Seq<DomNode>,
    i: int,
    frame: Option<ListFrame>,
    inherited_skip: bool,
    bullet: char,
) -> (Seq<AnnView>, Option<ListFrame>)
    decreases children, 0int, children.len() - i,
{
    if i < 0 || i >= children.len() {
        (Seq::empty(), frame)
    } else {
        (
            seq![spec_annotate(children[i], frame, inherited_skip, bullet).0]
                + spec_annotate_seq(
                children,
                i + 1,
                spec_annotate(children[i], frame, inherited_skip, bullet).1,
                inherited_skip,
                bullet,
            ).0,
            spec_annotate_seq(
                children,
                i + 1,
                spec_annotate(children[i], frame, inherited_skip, bullet).1,
                inherited_skip,
                bullet,
            ).1,
        )
    }
}

/// Annotates one node; returns the annotated node and the list frame after
/// its subtree.
fn annotate_node(node: &DomNode, frame: Option<ListFrame>, inherited_skip: bool, bullet: char) -> (r:
    (AnnNode, Option<ListFrame>))
    ensures
        ann_view(r.0) == spec_annotate(*node, frame, inherited_skip, bullet).0,
        r.1 == spec_annotate(*node, frame, inherited_skip, bullet).1,
    decreases node, 1int, 0int,
{
    match node {
        DomNode::Text { text } => (AnnNode::Text { text: text.clone() }, frame),
        DomNode::Other => (AnnNode::Other, frame),
        DomNode::Element { tag, attrs, matches_exclude, matches_include, children } => {
            let skip = if *matches_include {
                false
            } else if *matches_exclude {
                true
            } else {
                inherited_skip
            };
            let is_ul = crate::chars::str_eq(tag.as_str(), "ul");
            let is_ol = crate::chars::str_eq(tag.as_str(), "ol");
            if is_ul || is_ol {
                let start: usize = if is_ol {
                    match get_attr(attrs, "start") {
                        Some(s) => {
                            let sv = str_chars(s.as_str());
                            match parse_usize_chars(&sv) {
                                Some(k) => if k > 0 {
                                    k - 1
                                } else {
                                    0
                                },
                                None => 0,
                            }
                        },
                        None => 0,
                    }
                } else {
                    0
                };
                let indent: usize = match frame {
                    Some(f) => sat_add_exec(f.indent, f.prefix_len),
                    None => 0,
                };
                let nf = ListFrame { ordered: is_ol, index: start, indent, prefix_len: 2 };
                assert(nf == spec_new_frame(tag@ == "ol"@, attrs@, frame));
                let sub = annotate_children(children, Some(nf), skip, bullet);
                let meta = NodeMetadata {
                    list_prefix: None,
                    ancestor_indent: 0,
                    skip,
                    force_keep: *matches_include,
                };
                (
                    AnnNode::Element {
                        tag: tag.clone(),
                        attrs: crate::dom::clone_attrs(attrs),
                        meta,
                        children: sub.0,
                    },
                    frame,
                )
            } else if crate::chars::str_eq(tag.as_str(), "li") && frame.is_some() {
                let fr = match frame {
                    Some(f) => f,
                    None => ListFrame { ordered: false, index: 0, indent: 0, prefix_len: 2 },
                };
                let idx = sat_add_exec(fr.index, 1);
                let prefix: Vec<char> = if fr.ordered {
                    let mut p = dec_chars(idx);
                    p.push('.');
                    p.push(' ');
                    assert(p@ =~= spec_li_prefix(fr.ordered, idx, bullet));
                    p
                } else {
                    let mut p: Vec<char> = Vec::new();
                    p.push(bullet);
                    p.push(' ');
                    assert(p@ =~= spec_li_prefix(fr.ordered, idx, bullet));
                    p
                };
                let fr2 = ListFrame {
                    ordered: fr.ordered,
                    index: idx,
                    indent: fr.indent,
                    prefix_len: prefix.len(),
                };
                assert(fr2 == spec_li_frame(fr, bullet));
                let sub = annotate_children(children, Some(fr2), skip, bullet);
                let meta = NodeMetadata {
                    list_prefix: Some(crate::chars::chars_string(&prefix)),
                    ancestor_indent: fr.indent,
                    skip,
                    force_keep: *matches_include,
                };
                (
                    AnnNode::Element {
                        tag: tag.clone(),
                        attrs: crate::dom::clone_attrs(attrs),
                        meta,
                        children: sub.0,
                    },
                    sub.1,
                )
            } else {
                let sub = annotate_children(children, frame, skip, bullet);
                let meta = NodeMetadata {
                    list_prefix: None,
                    ancestor_indent: 0,
                    skip,
                    force_keep: *matches_include,
                };
                (
                    AnnNode::Element {
                        tag: tag.clone(),
                        attrs: crate::dom::clone_attrs(attrs),
                        meta,
                        children: sub.0,
                    },
                    sub.1,
                )
            }
        },
    }
}

/// Annotates all children in order, threading the list frame.
fn annotate_children(
    children: &Vec<DomNode>,
    frame: Option<ListFrame>,
    inherited_skip: bool,
    bullet: char,
) -> (r: (Vec<AnnNode>, Option<ListFrame>))
    ensures
        ann_views(r.0@) == spec_annotate_seq(children@, 0, frame, inherited_skip, bullet).0,
        r.1 == spec_annotate_seq(children@, 0, frame, inherited_skip, bullet).1,
    decreases children, 0int, 0int,
{
    let mut out: Vec<AnnNode> = Vec::new();
    let mut cur = frame;
    let mut i: usize = 0;
    proof {
        lemma_ann_views_from(out@, 0);
        assert(ann_views(out@) =~= Seq::<AnnView>::empty());
    }
    while i < children.len()
        invariant
            0 <= i <= children@.len(),
            spec_annotate_seq(children@, 0, frame, inherited_skip, bullet).0 == ann_views(out@)
                + spec_annotate_seq(children@, i as int, cur, inherited_skip, bullet).0,
            spec_annotate_seq(children@, 0, frame, inherited_skip, bullet).1
                == spec_annotate_seq(children@, i as int, cur, inherited_skip, bullet).1,
        decreases children@.len() - i,
    {
        let ghost old_out = out@;
        let ghost old_cur = cur;
        let sub = annotate_node(&children[i], cur, inherited_skip, bullet);
        out.push(sub.0);
        cur = sub.1;
        i = i + 1;
        proof {
            lemma_ann_views_from(out@, 0);
            lemma_ann_views_from(old_out, 0);
            assert(ann_views(out@) =~= ann_views(old_out) + seq![
                ann_view(out@[out@.len() - 1]),
            ]);
            assert(ann_views(old_out) + spec_annotate_seq(
                children@,
                i - 1,
                old_cur,
                inherited_skip,
                bullet,
            ).0 =~= ann_views(out@) + spec_annotate_seq(
                children@,
                i as int,
                cur,
                inherited_skip,
                bullet,
            ).0);
        }
    }
    (out, cur)
}

/// Annotates the whole document: resolves list prefixes and indentation and
/// the skip and force-keep flags for every element, in one pass.
pub open spec fn spec_precompute(dom: DomNode, bullet: char) -> AnnView {
    spec_annotate(dom, None, false, bullet).0
}

/// Single pass over the document tree computing all node metadata.
pub fn precompute_metadata(dom: &DomNode, options: &crate::options::Options) -> (r: AnnNode)
    ensures
        ann_view(r) == spec_precompute(*dom, options.bullet_marker),
{
    let sub = annotate_node(dom, None, false, options.bullet_marker);
    sub.0
}

/// The tag of a document element, if the node is one.
pub open spec fn dom_tag(d: DomNode) -> Option<Seq<char>> {
    match d {
        DomNode::Element { tag, .. } => Some(tag@),
        _ => None,
    }
}

/// Whether annotating `d` hands the enclosing list frame back unchanged:
/// true for text, for list containers (they restore the outer frame), and
/// for other elements whose children all do.
pub open spec fn keeps_frame(d: DomNode) -> bool
    decreases d, 1int, 0int,
{
    match d {
        DomNode::Text { .. } => true,
        DomNode::Other => true,
        DomNode::Element { tag, children, .. } => {
            if tag@ == "ul"@ || tag@ == "ol"@ {
                true
            } else if tag@ == "li"@ {
                false
            } else {
                keeps_frame_seq(children@, 0)
            }
        },
    }
}

pub open spec fn keeps_frame_seq(s: Seq<DomNode>, i: int) -> bool
    decreases s, 0int, s.len() - i,
{
    if i < 0 || i >= s.len() {
        true
    } else {
        keeps_frame(s[i]) && keeps_frame_seq(s, i + 1)
    }
}

/// A frame-keeping node hands the frame back unchanged.
pub proof fn lemma_keeps_frame(d: DomNode, frame: Option<ListFrame>, skip: bool, bullet: char)
    requires
        keeps_frame(d),
    ensures
        spec_annotate(d, frame, skip, bullet).1 == frame,
    decreases d, 1int, 0int,
{
    match d {
        DomNode::Element { tag, children, .. } => {
            if tag@ == "ul"@ || tag@ == "ol"@ {
            } else {
                let sk = spec_skip(d->Element_matches_exclude, d->Element_matches_include, skip);
                lemma_keeps_frame_seq(children@, 0, frame, sk, bullet);
            }
        },
        _ => {},
    }
}

pub proof fn lemma_keeps_frame_seq(
    s: Seq<DomNode>,
    i: int,
    frame: Option<ListFrame>,
    skip: bool,
    bullet: char,
)
    requires
        keeps_frame_seq(s, i),
    ensures
        spec_annotate_seq(s, i, frame, skip, bullet).1 == frame,
    decreases s, 0int, s.len() - i,
{
    if !(i < 0 || i >= s.len()) {
        lemma_keeps_frame(s[i], frame, skip, bullet);
        lemma_keeps_frame_seq(s, i + 1, spec_annotate(s[i], frame, skip, bullet).1, skip, bullet);
    }
}

/// Annotating never changes the indentation or orientation recorded in the
/// enclosing frame; only the item index and prefix length move.
pub proof fn lemma_frame_indent(d: DomNode, f: ListFrame, skip: bool, bullet: char)
    ensures
        spec_annotate(d, Some(f), skip, bullet).1 matches Some(g) && g.indent == f.indent
            && g.ordered == f.ordered,
    decreases d, 1int, 0int,
{
    match d {
        DomNode::Element { tag, children, .. } => {
            let sk = spec_skip(d->Element_matches_exclude, d->Element_matches_include, skip);
            if tag@ == "ul"@ || tag@ == "ol"@ {
            } else if tag@ == "li"@ {
                lemma_frame_indent_seq(children@, 0, spec_li_frame(f, bullet), sk, bullet);
            } else {
                lemma_frame_indent_seq(children@, 0, f, sk, bullet);
            }
        },
        _ => {},
    }
}

pub proof fn lemma_frame_indent_seq(
    s: Seq<DomNode>,
    i: int,
    f: ListFrame,
    skip: bool,
    bullet: char,
)
    ensures
        spec_annotate_seq(s, i, Some(f), skip, bullet).1 matches Some(g) && g.indent == f.indent
            && g.ordered == f.ordered,
    decreases s, 0int, s.len() - i,
{
    if !(i < 0 || i >= s.len()) {
        lemma_frame_indent(s[i], f, skip, bullet);
        let f2 = spec_annotate(s[i], Some(f), skip, bullet).1;
        lemma_frame_indent_seq(s, i + 1, f2->0, skip, bullet);
    }
}

/// The list frame that reaches child `c` after the children in `[i, c)` are
/// annotated.
pub open spec fn thread_frame(
    s: Seq<DomNode>,
    i: int,
    c: int,
    frame: Option<ListFrame>,
    skip: bool,
    bullet: char,
) -> Option<ListFrame>
    decreases c - i,
{
    if i >= c {
        frame
    } else {
        thread_frame(s, i + 1, c, spec_annotate(s[i], frame, skip, bullet).1, skip, bullet)
    }
}

/// The annotated children line up with the document children: child `c` is
/// annotated under the frame threaded up to it.
pub proof fn lemma_annotate_seq_index(
    s: Seq<DomNode>,
    i: int,
    c: int,
    frame: Option<ListFrame>,
    skip: bool,
    bullet: char,
)
    requires
        0 <= i <= c < s.len(),
    ensures
        spec_annotate_seq(s, i, frame, skip, bullet).0.len() == s.len() - i,
        spec_annotate_seq(s, i, frame, skip, bullet).0[c - i] == spec_annotate(
            s[c],
            thread_frame(s, i, c, frame, skip, bullet),
            skip,
            bullet,
        ).0,
    decreases c - i,
{
    lemma_annotate_seq_len(s, i, frame, skip, bullet);
    if i < c {
        lemma_annotate_seq_index(
            s,
            i + 1,
            c,
            spec_annotate(s[i], frame, skip, bullet).1,
            skip,
            bullet,
        );
    }
}

/// Annotation keeps the number of children.
pub proof fn lemma_annotate_seq_len(
    s: Seq<DomNode>,
    i: int,
    frame: Option<ListFrame>,
    skip: bool,
    bullet: char,
)
    requires
        0 <= i <= s.len(),
    ensures
        spec_annotate_seq(s, i, frame, skip, bullet).0.len() == s.len() - i,
    decreases s.len() - i,
{
    if i < s.len() {
        lemma_annotate_seq_len(s, i + 1, spec_annotate(s[i], frame, skip, bullet).1, skip, bullet);
    }
}

/// A frame-keeping prefix threads the frame through unchanged.
pub proof fn lemma_thread_frame_keeps(
    s: Seq<DomNode>,
    i: int,
    c: int,
    frame: Option<ListFrame>,
    skip: bool,
    bullet: char,
)
    requires
        0 <= i <= c <= s.len(),
        forall|x: int| i <= x < c ==> keeps_frame(#[trigger] s[x]),
    ensures
        thread_frame(s, i, c, frame, skip, bullet) == frame,
    decreases c - i,
{
    if i < c {
        lemma_keeps_frame(s[i], frame, skip, bullet);
        lemma_thread_frame_keeps(s, i + 1, c, frame, skip, bullet);
    }
}

/// Threading a frame never changes its indentation or orientation.
pub proof fn lemma_thread_frame_indent(
    s: Seq<DomNode>,
    i: int,
    c: int,
    f: ListFrame,
    skip: bool,
    bullet: char,
)
    requires
        0 <= i <= c <= s.len(),
    ensures
        thread_frame(s, i, c, Some(f), skip, bullet) matches Some(g) && g.indent == f.indent
            && g.ordered == f.ordered,
    decreases c - i,
{
    if i < c {
        lemma_frame_indent(s[i], f, skip, bullet);
        let f2 = spec_annotate(s[i], Some(f), skip, bullet).1;
        lemma_thread_frame_indent(s, i + 1, c, f2->0, skip, bullet);
    }
}

/// An element that matches a force-keep selector is annotated with
/// `force_keep` set and `skip` cleared, whatever its ancestors contributed.
pub proof fn lemma_force_keep_annotation(
    node: DomNode,
    frame: Option<ListFrame>,
    inherited_skip: bool,
    bullet: char,
)
    requires
        node matches DomNode::Element { matches_include: true, .. },
    ensures
        spec_annotate(node, frame, inherited_skip, bullet).0 matches AnnView::Element { meta, .. }
            && meta.force_keep && !meta.skip,
{
}

/// A list item whose own content leaves the enclosing list frame unchanged.
pub open spec fn is_plain_li(d: DomNode) -> bool {
    match d {
        DomNode::Element { tag, children, .. } => tag@ == "li"@ && (forall|x: int|
            0 <= x < children@.len() ==> keeps_frame(#[trigger] children@[x])),
        _ => false,
    }
}

/// Pointwise frame keeping gives the sequence form.
proof fn lemma_keeps_frame_seq_pointwise(s: Seq<DomNode>, i: int)
    requires
        0 <= i <= s.len(),
        forall|x: int| i <= x < s.len() ==> keeps_frame(#[trigger] s[x]),
    ensures
        keeps_frame_seq(s, i),
    decreases s.len() - i,
{
    if i < s.len() {
        lemma_keeps_frame_seq_pointwise(s, i + 1);
    }
}

proof fn lemma_li_numbering_seq(
    s: Seq<DomNode>,
    i: int,
    j: int,
    f: ListFrame,
    skip: bool,
    bullet: char,
)
    requires
        0 <= i <= j < s.len(),
        f.ordered,
        forall|x: int| i <= x < s.len() ==> is_plain_li(#[trigger] s[x]),
        f.index + (j - i) + 1 <= usize::MAX,
    ensures
        spec_annotate_seq(s, i, Some(f), skip, bullet).0.len() == s.len() - i,
        ({
            &&& spec_annotate_seq(s, i, Some(f), skip, bullet).0[j - i] matches AnnView::Element {
                meta,
                ..
            }
            &&& meta.list_prefix == Some(spec_dec((f.index + (j - i) + 1) as nat) + ". "@)
        }),
    decreases j - i,
{
    lemma_annotate_seq_len(s, i, Some(f), skip, bullet);
    reveal_strlit("li");
    reveal_strlit("ul");
    reveal_strlit("ol");
    assert("li"@[0] == 'l' && "ul"@[0] == 'u' && "ol"@[0] == 'o');
    assert("li"@ != "ul"@ && "li"@ != "ol"@);
    let sk = spec_skip(s[i]->Element_matches_exclude, s[i]->Element_matches_include, skip);
    let fr2 = spec_li_frame(f, bullet);
    lemma_keeps_frame_seq_pointwise(s[i]->Element_children@, 0);
    lemma_keeps_frame_seq(s[i]->Element_children@, 0, Some(fr2), sk, bullet);
    assert(spec_annotate(s[i], Some(f), skip, bullet).1 == Some(fr2));
    if j == i {
        assert(sat_add(f.index, 1) == f.index + 1);
        assert(spec_li_prefix(true, (f.index + 1) as usize, bullet) == spec_dec(
            (f.index + 1) as nat,
        ) + ". "@) by {
            reveal_strlit(". ");
            assert(spec_dec((f.index + 1) as nat) + seq!['.', ' '] =~= spec_dec(
                (f.index + 1) as nat,
            ) + ". "@);
        }
    } else {
        lemma_li_numbering_seq(s, i + 1, j, fr2, skip, bullet);
        assert(fr2.index == f.index + 1);
        assert(spec_annotate_seq(s, i, Some(f), skip, bullet).0[j - i] == spec_annotate_seq(
            s,
            i + 1,
            Some(fr2),
            skip,
            bullet,
        ).0[j - i - 1]);
    }
}

/// Numbering of ordered lists: in an ordered list whose `start` attribute
/// yields a first index of `k0 + 1`, the item at child position `j` is
/// annotated with the prefix `"{k0 + j + 1}. "`. With the default start the
/// first item gets `"1. "`, the second `"2. "`, and so on.
pub proof fn lemma_list_numbering(
    node: DomNode,
    frame: Option<ListFrame>,
    inherited_skip: bool,
    bullet: char,
    j: int,
)
    requires
        node matches DomNode::Element { tag, .. } && tag@ == "ol"@,
        forall|x: int|
            0 <= x < node->Element_children@.len() ==> is_plain_li(
                #[trigger] node->Element_children@[x],
            ),
        0 <= j < node->Element_children@.len(),
        spec_list_start(true, node->Element_attrs@) + j + 1 <= usize::MAX,
    ensures
        ({
            &&& spec_annotate(node, frame, inherited_skip, bullet).0 matches AnnView::Element {
                children: ac,
                ..
            }
            &&& ac.len() == node->Element_children@.len()
            &&& ac[j] matches AnnView::Element { meta, .. }
            &&& meta.list_prefix == Some(
                spec_dec((spec_list_start(true, node->Element_attrs@) + j + 1) as nat) + ". "@,
            )
        }),
{
    let children = node->Element_children;
    let attrs = node->Element_attrs;
    let sk = spec_skip(
        node->Element_matches_exclude,
        node->Element_matches_include,
        inherited_skip,
    );
    let nf = spec_new_frame(true, attrs@, frame);
    lemma_annotate_seq_len(children@, 0, Some(nf), sk, bullet);
    lemma_li_numbering_seq(children@, 0, j, nf, sk, bullet);
}

/// Nesting indentation: inside a list item annotated under frame `f`, a
/// list container child (after frame-keeping siblings) gives its own items
/// an `ancestor_indent` equal to the item's `ancestor_indent` plus the
/// length of the item's prefix (the sum stopping at the machine limit).
pub proof fn lemma_nesting_indentation(
    item: DomNode,
    f: ListFrame,
    inherited_skip: bool,
    bullet: char,
    a: int,
    b: int,
)
    requires
        item matches DomNode::Element { tag, .. } && tag@ == "li"@,
        0 <= a < item->Element_children@.len(),
        forall|x: int| 0 <= x < a ==> keeps_frame(#[trigger] item->Element_children@[x]),
        item->Element_children@[a] matches DomNode::Element { tag: st, .. } && (st@ == "ul"@ || st@
            == "ol"@),
        0 <= b < item->Element_children@[a]->Element_children@.len(),
        dom_tag(item->Element_children@[a]->Element_children@[b]) == Some("li"@),
    ensures
        ({
            &&& spec_annotate(item, Some(f), inherited_skip, bullet).0 matches AnnView::Element {
                meta: imeta,
                children: iac,
                ..
            }
            &&& imeta.ancestor_indent == f.indent
            &&& imeta.list_prefix is Some
            &&& iac.len() == item->Element_children@.len()
            &&& iac[a] matches AnnView::Element { children: sac, .. }
            &&& sac.len() == item->Element_children@[a]->Element_children@.len()
            &&& sac[b] matches AnnView::Element { meta: bmeta, .. }
            &&& bmeta.ancestor_indent == sat_add(
                imeta.ancestor_indent,
                imeta.list_prefix->0.len() as usize,
            )
        }),
{
    reveal_strlit("li");
    reveal_strlit("ul");
    reveal_strlit("ol");
    assert("li"@[0] == 'l' && "ul"@[0] == 'u' && "ol"@[0] == 'o');
    assert("li"@ != "ul"@ && "li"@ != "ol"@);
    let ics = item->Element_children;
    let sk = spec_skip(
        item->Element_matches_exclude,
        item->Element_matches_include,
        inherited_skip,
    );
    let fr2 = spec_li_frame(f, bullet);
    lemma_annotate_seq_len(ics@, 0, Some(fr2), sk, bullet);
    lemma_annotate_seq_index(ics@, 0, a, Some(fr2), sk, bullet);
    lemma_thread_frame_keeps(ics@, 0, a, Some(fr2), sk, bullet);
    let sub = ics@[a];
    let scs = sub->Element_children;
    let ssk = spec_skip(sub->Element_matches_exclude, sub->Element_matches_include, sk);
    let subf = spec_new_frame(sub->Element_tag@ == "ol"@, sub->Element_attrs@, Some(fr2));
    assert(subf.indent == sat_add(fr2.indent, fr2.prefix_len));
    lemma_annotate_seq_len(scs@, 0, Some(subf), ssk, bullet);
    lemma_annotate_seq_index(scs@, 0, b, Some(subf), ssk, bullet);
    lemma_thread_frame_indent(scs@, 0, b, subf, ssk, bullet);
    let g = thread_frame(scs@, 0, b, Some(subf), ssk, bullet);
    assert(g matches Some(gf) && gf.indent == subf.indent);
}

} // verus!
