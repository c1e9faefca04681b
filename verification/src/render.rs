//! The tree-walking converter: renders each annotated element through the
//! rule for its tag and concatenates the fragments.

use vstd::prelude::*;
use crate::chars::{
    push_chars, push_str_chars, repeat_char, spec_repeat, spec_split_ws, spec_trim_end_char,
    str_chars, trim_end_char,
};
use crate::dom::{spec_attr, Attr};
use crate::entities::spec_decode_entities;
use crate::escape::{
    spec_code_backticks, spec_escape_attr, spec_escape_table_cell, spec_escape_title,
    spec_escape_url, spec_fence, spec_max_run, spec_resolve_url,
};
use crate::options::{HeadingStyle, Options};
use crate::precompute::{
    ann_view, ann_views_from, lemma_ann_views_from, lemma_child_view_size, view_size, AnnNode,
    AnnView, MetaView,
};
use crate::whitespace::{spec_lines, spec_normalize_block, spec_trim, spec_trim_end};

verus! {

/// The raw text of a node's subtree: text nodes concatenated, nothing else.
pub open spec fn spec_raw_text(n: AnnView) -> Seq<char>
    decreases n, 1int, 0int,
{
    match n {
        AnnView::Text { text } => text,
        AnnView::Other => Seq::empty(),
        AnnView::Element { children, .. } => spec_raw_text_seq(children, 0),
    }
}

pub open spec fn spec_raw_text_seq(s: Seq<AnnView>, i: int) -> Seq<char>
    decreases s, 0int, s.len() - i,
{
    if i < 0 || i >= s.len() {
        Seq::empty()
    } else {
        spec_raw_text(s[i]) + spec_raw_text_seq(s, i + 1)
    }
}

#[verifier::loop_isolation(false)]
fn raw_text(n: &AnnNode) -> (out: Vec<char>)
    ensures
        out@ == spec_raw_text(ann_view(*n)),
    decreases view_size(ann_view(*n)), 1int,
{
    match n {
        AnnNode::Text { text } => {
            let out = str_chars(text.as_str());
            out
        },
        AnnNode::Other => Vec::new(),
        AnnNode::Element { children, .. } => {
            let mut out: Vec<char> = Vec::new();
            let mut i: usize = 0;
            proof {
                lemma_ann_views_from(children@, 0);
            }
            while i < children.len()
                invariant
                    0 <= i <= children@.len(),
                    out@ + spec_raw_text_seq(ann_views_from(children@, 0), i as int)
                        == spec_raw_text_seq(ann_views_from(children@, 0), 0),
                decreases children@.len() - i,
            {
                proof {
                    lemma_ann_views_from(children@, 0);
                    lemma_child_view_size(children@, i as int);
                }
                let sub = raw_text(&children[i]);
                let ghost before = out@;
                push_chars(&mut out, &sub);
                i = i + 1;
                proof {
                    let s = ann_views_from(children@, 0);
                    assert(s[i - 1] == ann_view(children@[i - 1]));
                    assert(out@ + spec_raw_text_seq(s, i as int) =~= before + (spec_raw_text(
                        s[i - 1],
                    ) + spec_raw_text_seq(s, i as int)));
                }
            }
            proof {
                let s = ann_views_from(children@, 0);
                assert(out@ =~= out@ + spec_raw_text_seq(s, i as int));
            }
            out
        },
    }
}

/// Class names that mark code-gutter or line-number elements.
pub open spec fn is_gutter_class(class: Seq<char>) -> bool {
    ||| crate::chars::spec_find(class, "gutter"@, 0) is Some
    ||| crate::chars::spec_find(class, "line-number"@, 0) is Some
    ||| crate::chars::spec_find(class, "line-numbers"@, 0) is Some
    ||| crate::chars::spec_find(class, "lineno"@, 0) is Some
    ||| crate::chars::spec_find(class, "linenumber"@, 0) is Some
}

/// Whether an element is skipped when collecting code text.
pub open spec fn is_gutter_elem(attrs: Seq<Attr>) -> bool {
    match spec_attr(attrs, "class"@) {
        Some(c) => is_gutter_class(c),
        None => false,
    }
}

fn is_gutter_elem_exec(attrs: &Vec<Attr>) -> (r: bool)
    ensures
        r == is_gutter_elem(attrs@),
{
    match crate::dom::get_attr(attrs, "class") {
        Some(c) => {
            let cv = str_chars(c.as_str());
            crate::chars::find_str_from(&cv, "gutter", 0).is_some()
                || crate::chars::find_str_from(&cv, "line-number", 0).is_some()
                || crate::chars::find_str_from(&cv, "line-numbers", 0).is_some()
                || crate::chars::find_str_from(&cv, "lineno", 0).is_some()
                || crate::chars::find_str_from(&cv, "linenumber", 0).is_some()
        },
        None => false,
    }
}

/// The code text of a node's subtree: text nodes concatenated, with
/// gutter and line-number elements left out.
pub open spec fn spec_code_text(n: AnnView) -> Seq<char>
    decreases n, 1int, 0int,
{
    match n {
        AnnView::Text { text } => text,
        AnnView::Other => Seq::empty(),
        AnnView::Element { attrs, children, .. } => {
            if is_gutter_elem(attrs) {
                Seq::empty()
            } else {
                spec_code_text_seq(children, 0)
            }
        },
    }
}

pub open spec fn spec_code_text_seq(s: Seq<AnnView>, i: int) -> Seq<char>
    decreases s, 0int, s.len() - i,
{
    if i < 0 || i >= s.len() {
        Seq::empty()
    } else {
        spec_code_text(s[i]) + spec_code_text_seq(s, i + 1)
    }
}

#[verifier::loop_isolation(false)]
fn code_text(n: &AnnNode) -> (out: Vec<char>)
    ensures
        out@ == spec_code_text(ann_view(*n)),
    decreases view_size(ann_view(*n)), 1int,
{
    match n {
        AnnNode::Text { text } => {
            let out = str_chars(text.as_str());
            out
        },
        AnnNode::Other => Vec::new(),
        AnnNode::Element { attrs, children, .. } => {
            if is_gutter_elem_exec(attrs) {
                Vec::new()
            } else {
                let mut out: Vec<char> = Vec::new();
                let mut i: usize = 0;
                proof {
                    lemma_ann_views_from(children@, 0);
                }
                while i < children.len()
                    invariant
                        0 <= i <= children@.len(),
                        out@ + spec_code_text_seq(ann_views_from(children@, 0), i as int)
                            == spec_code_text_seq(ann_views_from(children@, 0), 0),
                    decreases children@.len() - i,
                {
                    proof {
                        lemma_ann_views_from(children@, 0);
                        lemma_child_view_size(children@, i as int);
                    }
                    let sub = code_text(&children[i]);
                    let ghost before = out@;
                    push_chars(&mut out, &sub);
                    i = i + 1;
                    proof {
                        let s = ann_views_from(children@, 0);
                        assert(s[i - 1] == ann_view(children@[i - 1]));
                        assert(out@ + spec_code_text_seq(s, i as int) =~= before + (spec_code_text(
                            s[i - 1],
                        ) + spec_code_text_seq(s, i as int)));
                    }
                }
                proof {
                    let s = ann_views_from(children@, 0);
                    assert(out@ =~= out@ + spec_code_text_seq(s, i as int));
                }
                out
            }
        },
    }
}

/// The code text of a node's children (the node's own class is not
/// consulted).
pub open spec fn spec_code_text_children(n: AnnView) -> Seq<char> {
    match n {
        AnnView::Element { children, .. } => spec_code_text_seq(children, 0),
        _ => Seq::empty(),
    }
}

/// The lowercase form of an ASCII letter; other characters are unchanged.
pub open spec fn spec_lower_char(c: char) -> char {
    if 'A' <= c && c <= 'Z' {
        crate::chars::char_of_code(((c as u32) + 32) as u32)
    } else {
        c
    }
}

pub open spec fn spec_ascii_lower_prefix(s: Seq<char>, n: int) -> Seq<char>
    decreases n,
{
    if n <= 0 {
        Seq::empty()
    } else {
        spec_ascii_lower_prefix(s, n - 1) + seq![spec_lower_char(s[n - 1])]
    }
}

/// `s` with every ASCII uppercase letter lowered.
pub open spec fn spec_ascii_lower(s: Seq<char>) -> Seq<char> {
    spec_ascii_lower_prefix(s, s.len() as int)
}

fn lower_char_exec(c: char) -> (r: char)
    ensures
        r == spec_lower_char(c),
{
    if 'A' <= c && c <= 'Z' {
        proof {
            assert(crate::chars::is_scalar_code(((c as u32) + 32) as u32));
        }
        match crate::chars::char_from_code(c as u32 + 32) {
            Some(l) => {
                proof {
                    vstd::utf8::char_u32_cast(l, ((c as u32) + 32) as u32);
                }
                l
            },
            None => {
                proof {
                    assert(false);
                }
                c
            },
        }
    } else {
        c
    }
}

/// ASCII lowercasing applied to a character vector.
#[verifier::loop_isolation(false)]
pub fn ascii_lower_chars(v: &Vec<char>) -> (out: Vec<char>)
    ensures
        out@ == spec_ascii_lower(v@),
{
    let mut out: Vec<char> = Vec::new();
    let mut i: usize = 0;
    while i < v.len()
        invariant
            0 <= i <= v@.len(),
            out@ == spec_ascii_lower_prefix(v@, i as int),
        decreases v@.len() - i,
    {
        out.push(lower_char_exec(v[i]));
        i = i + 1;
        assert(out@ =~= spec_ascii_lower_prefix(v@, i as int));
    }
    out
}

/// The bare class names that are taken for language names.
pub open spec fn is_known_language(w: Seq<char>) -> bool {
    ||| w == "bash"@
    ||| w == "c"@
    ||| w == "cpp"@
    ||| w == "csharp"@
    ||| w == "css"@
    ||| w == "dart"@
    ||| w == "diff"@
    ||| w == "go"@
    ||| w == "graphql"@
    ||| w == "html"@
    ||| w == "java"@
    ||| w == "javascript"@
    ||| w == "js"@
    ||| w == "json"@
    ||| w == "kotlin"@
    ||| w == "lua"@
    ||| w == "makefile"@
    ||| w == "markdown"@
    ||| w == "objectivec"@
    ||| w == "perl"@
    ||| w == "php"@
    ||| w == "plaintext"@
    ||| w == "python"@
    ||| w == "r"@
    ||| w == "ruby"@
    ||| w == "rust"@
    ||| w == "scala"@
    ||| w == "shell"@
    ||| w == "sql"@
    ||| w == "swift"@
    ||| w == "typescript"@
    ||| w == "ts"@
    ||| w == "xml"@
    ||| w == "yaml"@
    ||| w == "yml"@
}

fn is_known_language_exec(w: &Vec<char>) -> (r: bool)
    ensures
        r == is_known_language(w@),
{
    crate::chars::chars_eq_str(w, "bash") || crate::chars::chars_eq_str(w, "c")
        || crate::chars::chars_eq_str(w, "cpp") || crate::chars::chars_eq_str(w, "csharp")
        || crate::chars::chars_eq_str(w, "css") || crate::chars::chars_eq_str(w, "dart")
        || crate::chars::chars_eq_str(w, "diff") || crate::chars::chars_eq_str(w, "go")
        || crate::chars::chars_eq_str(w, "graphql") || crate::chars::chars_eq_str(w, "html")
        || crate::chars::chars_eq_str(w, "java") || crate::chars::chars_eq_str(w, "javascript")
        || crate::chars::chars_eq_str(w, "js") || crate::chars::chars_eq_str(w, "json")
        || crate::chars::chars_eq_str(w, "kotlin") || crate::chars::chars_eq_str(w, "lua")
        || crate::chars::chars_eq_str(w, "makefile") || crate::chars::chars_eq_str(w, "markdown")
        || crate::chars::chars_eq_str(w, "objectivec") || crate::chars::chars_eq_str(w, "perl")
        || crate::chars::chars_eq_str(w, "php") || crate::chars::chars_eq_str(w, "plaintext")
        || crate::chars::chars_eq_str(w, "python") || crate::chars::chars_eq_str(w, "r")
        || crate::chars::chars_eq_str(w, "ruby") || crate::chars::chars_eq_str(w, "rust")
        || crate::chars::chars_eq_str(w, "scala") || crate::chars::chars_eq_str(w, "shell")
        || crate::chars::chars_eq_str(w, "sql") || crate::chars::chars_eq_str(w, "swift")
        || crate::chars::chars_eq_str(w, "typescript") || crate::chars::chars_eq_str(w, "ts")
        || crate::chars::chars_eq_str(w, "xml") || crate::chars::chars_eq_str(w, "yaml")
        || crate::chars::chars_eq_str(w, "yml")
}

/// The `highlight.js` token classes that are not language names.
pub open spec fn is_hljs_token(w: Seq<char>) -> bool {
    ||| w == "keyword"@
    ||| w == "string"@
    ||| w == "number"@
    ||| w == "comment"@
    ||| w == "function"@
    ||| w == "class"@
    ||| w == "built_in"@
}

fn is_hljs_token_exec(w: &Vec<char>) -> (r: bool)
    ensures
        r == is_hljs_token(w@),
{
    crate::chars::chars_eq_str(w, "keyword") || crate::chars::chars_eq_str(w, "string")
        || crate::chars::chars_eq_str(w, "number") || crate::chars::chars_eq_str(w, "comment")
        || crate::chars::chars_eq_str(w, "function") || crate::chars::chars_eq_str(w, "class")
        || crate::chars::chars_eq_str(w, "built_in")
}

/// The language a single class name contributes under the prefixed
/// patterns, if any.
pub open spec fn spec_lang_of_part(part: Seq<char>) -> Option<Seq<char>> {
    if crate::chars::seq_starts_with(part, "language-"@) {
        Some(part.skip(9))
    } else if crate::chars::seq_starts_with(part, "lang-"@) {
        Some(part.skip(5))
    } else if crate::chars::seq_starts_with(part, "highlight-"@) {
        Some(part.skip(10))
    } else if crate::chars::seq_starts_with(part, "hljs-"@) && !is_hljs_token(part.skip(5)) {
        Some(part.skip(5))
    } else {
        None
    }
}

fn lang_of_part_exec(part: &Vec<char>) -> (r: Option<Vec<char>>)
    ensures
        match r {
            Some(l) => spec_lang_of_part(part@) == Some(l@),
            None => spec_lang_of_part(part@) is None,
        },
{
    proof {
        reveal_strlit("language-");
        reveal_strlit("lang-");
        reveal_strlit("highlight-");
        reveal_strlit("hljs-");
    }
    if crate::chars::starts_with_str(part, "language-") {
        let l = crate::chars::sub_chars(part, 9, part.len());
        assert(l@ =~= part@.skip(9));
        Some(l)
    } else if crate::chars::starts_with_str(part, "lang-") {
        let l = crate::chars::sub_chars(part, 5, part.len());
        assert(l@ =~= part@.skip(5));
        Some(l)
    } else if crate::chars::starts_with_str(part, "highlight-") {
        let l = crate::chars::sub_chars(part, 10, part.len());
        assert(l@ =~= part@.skip(10));
        Some(l)
    } else if crate::chars::starts_with_str(part, "hljs-") {
        let l = crate::chars::sub_chars(part, 5, part.len());
        assert(l@ =~= part@.skip(5));
        if is_hljs_token_exec(&l) {
            None
        } else {
            Some(l)
        }
    } else {
        None
    }
}

/// The first prefixed language among the parts, from position `i` on.
pub open spec fn spec_lang_pass1(parts: Seq<Seq<char>>, i: int) -> Option<Seq<char>>
    decreases parts.len() - i,
{
    if i < 0 || i >= parts.len() {
        None
    } else if spec_lang_of_part(parts[i]) is Some {
        spec_lang_of_part(parts[i])
    } else {
        spec_lang_pass1(parts, i + 1)
    }
}

/// The first known bare language name among the parts, lowercased, from
/// position `i` on.
pub open spec fn spec_lang_pass2(parts: Seq<Seq<char>>, i: int) -> Option<Seq<char>>
    decreases parts.len() - i,
{
    if i < 0 || i >= parts.len() {
        None
    } else if is_known_language(spec_ascii_lower(parts[i])) {
        Some(spec_ascii_lower(parts[i]))
    } else {
        spec_lang_pass2(parts, i + 1)
    }
}

/// The language named by a `class` attribute value: a `language-`, `lang-`,
/// `highlight-` or `hljs-` prefixed class first, then a bare known language
/// name.
pub open spec fn spec_language_from_class(class: Seq<char>) -> Option<Seq<char>> {
    if spec_lang_pass1(spec_split_ws(class, 0), 0) is Some {
        spec_lang_pass1(spec_split_ws(class, 0), 0)
    } else {
        spec_lang_pass2(spec_split_ws(class, 0), 0)
    }
}

/// Extract a code language from a `class` attribute value.
#[verifier::loop_isolation(false)]
pub fn extract_language_from_class(class: &str) -> (r: Option<String>)
    ensures
        match r {
            Some(l) => spec_language_from_class(class@) == Some(l@),
            None => spec_language_from_class(class@) is None,
        },
{
    let cv = str_chars(class);
    let parts = crate::chars::split_ws_chars(&cv);
    let ghost pv = parts.deep_view();
    let mut i: usize = 0;
    while i < parts.len()
        invariant
            0 <= i <= parts@.len(),
            pv == parts.deep_view(),
            pv.len() == parts@.len(),
            spec_lang_pass1(pv, 0) == spec_lang_pass1(pv, i as int),
        decreases parts@.len() - i,
    {
        proof {
            assert(pv[i as int] == parts@[i as int]@);
        }
        match lang_of_part_exec(&parts[i]) {
            Some(l) => {
                return Some(crate::chars::chars_string(&l));
            },
            None => {},
        }
        i = i + 1;
    }
    let mut j: usize = 0;
    while j < parts.len()
        invariant
            0 <= j <= parts@.len(),
            pv == parts.deep_view(),
            pv.len() == parts@.len(),
            spec_lang_pass1(pv, 0) is None,
            spec_lang_pass2(pv, 0) == spec_lang_pass2(pv, j as int),
        decreases parts@.len() - j,
    {
        proof {
            assert(pv[j as int] == parts@[j as int]@);
        }
        let low = ascii_lower_chars(&parts[j]);
        if is_known_language_exec(&low) {
            return Some(crate::chars::chars_string(&low));
        }
        j = j + 1;
    }
    None
}

/// The language for a `pre` element: its own `class` attribute first, then
/// the `class` of a `code` child.
pub open spec fn spec_detect_language(attrs: Seq<Attr>, children: Seq<AnnView>) -> Option<
    Seq<char>,
> {
    match spec_attr(attrs, "class"@) {
        Some(c) if spec_language_from_class(c) is Some => spec_language_from_class(c),
        _ => spec_lang_from_children(children, 0),
    }
}

/// The first language found on a `code` child's class, from position `i`.
pub open spec fn spec_lang_from_children(s: Seq<AnnView>, i: int) -> Option<Seq<char>>
    decreases s.len() - i,
{
    if i < 0 || i >= s.len() {
        None
    } else {
        match s[i] {
            AnnView::Element { tag, attrs, .. } => {
                if tag == "code"@ && (match spec_attr(attrs, "class"@) {
                    Some(c) => spec_language_from_class(c) is Some,
                    None => false,
                }) {
                    spec_language_from_class(spec_attr(attrs, "class"@)->0)
                } else {
                    spec_lang_from_children(s, i + 1)
                }
            },
            _ => spec_lang_from_children(s, i + 1),
        }
    }
}

/// Column alignment in a table.
#[derive(Debug, Clone, Copy, PartialEq, Eq, Structural)]
pub enum CellAlign {
    /// No alignment declared.
    Unset,
    Left,
    Center,
    Right,
}

/// One rendered table cell at the spec level.
pub struct CellV {
    pub content: Seq<char>,
    pub align: CellAlign,
}

/// One rendered table cell: its content and its declared alignment.
#[derive(Debug)]
pub struct Cell {
    pub content: Vec<char>,
    pub align: CellAlign,
}

/// The value of a [`Cell`].
pub open spec fn cell_view(c: Cell) -> CellV {
    CellV { content: c.content@, align: c.align }
}

/// The values of a row of cells.
pub open spec fn cells_views(s: Seq<Cell>) -> Seq<CellV> {
    Seq::new(s.len(), |i: int| cell_view(s[i]))
}

/// The values of a list of rows.
pub open spec fn rows_views(s: Seq<Vec<Cell>>) -> Seq<Seq<CellV>> {
    Seq::new(s.len(), |i: int| cells_views(s[i]@))
}

/// The alignment an `align` attribute value names.
pub open spec fn spec_align_word(w: Seq<char>) -> CellAlign {
    if w == "left"@ {
        CellAlign::Left
    } else if w == "center"@ {
        CellAlign::Center
    } else if w == "right"@ {
        CellAlign::Right
    } else {
        CellAlign::Unset
    }
}

/// The alignment of a cell: its `align` attribute if present, otherwise a
/// `text-align` declaration inside its `style` attribute.
pub open spec fn spec_alignment(attrs: Seq<Attr>) -> CellAlign {
    match spec_attr(attrs, "align"@) {
        Some(a) => spec_align_word(spec_ascii_lower(a)),
        None => match spec_attr(attrs, "style"@) {
            Some(st) => spec_style_alignment(spec_ascii_lower(st)),
            None => CellAlign::Unset,
        },
    }
}

/// The alignment a lowercased `style` value declares through `text-align`.
pub open spec fn spec_style_alignment(sl: Seq<char>) -> CellAlign {
    if crate::chars::spec_find(sl, "text-align:"@, 0) is Some || crate::chars::spec_find(
        sl,
        "text-align :"@,
        0,
    ) is Some {
        if crate::chars::spec_find(sl, "left"@, 0) is Some {
            CellAlign::Left
        } else if crate::chars::spec_find(sl, "center"@, 0) is Some {
            CellAlign::Center
        } else if crate::chars::spec_find(sl, "right"@, 0) is Some {
            CellAlign::Right
        } else {
            CellAlign::Unset
        }
    } else {
        CellAlign::Unset
    }
}

fn alignment_exec(attrs: &Vec<Attr>) -> (r: CellAlign)
    ensures
        r == spec_alignment(attrs@),
{
    match crate::dom::get_attr(attrs, "align") {
        Some(a) => {
            let av = str_chars(a.as_str());
            let low = ascii_lower_chars(&av);
            if crate::chars::chars_eq_str(&low, "left") {
                CellAlign::Left
            } else if crate::chars::chars_eq_str(&low, "center") {
                CellAlign::Center
            } else if crate::chars::chars_eq_str(&low, "right") {
                CellAlign::Right
            } else {
                CellAlign::Unset
            }
        },
        None => match crate::dom::get_attr(attrs, "style") {
            Some(st) => {
                let sv = str_chars(st.as_str());
                let sl = ascii_lower_chars(&sv);
                if crate::chars::find_str_from(&sl, "text-align:", 0).is_some()
                    || crate::chars::find_str_from(&sl, "text-align :", 0).is_some() {
                    if crate::chars::find_str_from(&sl, "left", 0).is_some() {
                        CellAlign::Left
                    } else if crate::chars::find_str_from(&sl, "center", 0).is_some() {
                        CellAlign::Center
                    } else if crate::chars::find_str_from(&sl, "right", 0).is_some() {
                        CellAlign::Right
                    } else {
                        CellAlign::Unset
                    }
                } else {
                    CellAlign::Unset
                }
            },
            None => CellAlign::Unset,
        },
    }
}

/// The number of columns: the length of the longest row, from row `i` on.
pub open spec fn spec_col_count(rows: Seq<Seq<CellV>>, i: int) -> nat
    decreases rows.len() - i,
{
    if i < 0 || i >= rows.len() {
        0
    } else if rows[i].len() > spec_col_count(rows, i + 1) {
        rows[i].len()
    } else {
        spec_col_count(rows, i + 1)
    }
}

/// The width of column `col`: the longest cell in it, at least three.
pub open spec fn spec_col_width(rows: Seq<Seq<CellV>>, col: int, i: int) -> nat
    decreases rows.len() - i,
{
    if i < 0 || i >= rows.len() {
        3
    } else if col < rows[i].len() && rows[i][col].content.len() > spec_col_width(
        rows,
        col,
        i + 1,
    ) {
        rows[i][col].content.len()
    } else {
        spec_col_width(rows, col, i + 1)
    }
}

/// The alignment of column `col`: the first row that declares one wins.
pub open spec fn spec_col_align(rows: Seq<Seq<CellV>>, col: int, i: int) -> CellAlign
    decreases rows.len() - i,
{
    if i < 0 || i >= rows.len() {
        CellAlign::Unset
    } else if col < rows[i].len() && rows[i][col].align != CellAlign::Unset {
        rows[i][col].align
    } else {
        spec_col_align(rows, col, i + 1)
    }
}

/// `content` padded with spaces to `width` under the given alignment.
pub open spec fn spec_pad_cell(content: Seq<char>, width: nat, align: CellAlign) -> Seq<char> {
    let padn: nat = if width > content.len() {
        (width - content.len()) as nat
    } else {
        0
    };
    match align {
        CellAlign::Right => spec_repeat(' ', padn) + content,
        CellAlign::Center => spec_repeat(' ', padn / 2) + content + spec_repeat(
            ' ',
            (padn - padn / 2) as nat,
        ),
        _ => content + spec_repeat(' ', padn),
    }
}

/// One data row of the table, cell after cell, missing cells padded empty.
pub open spec fn spec_row_cols(rows: Seq<Seq<CellV>>, row: Seq<CellV>, ncols: int, j: int) -> Seq<
    char,
>
    decreases ncols - j,
{
    if j < 0 || j >= ncols {
        Seq::empty()
    } else {
        let width = spec_col_width(rows, j, 0);
        let align = spec_col_align(rows, j, 0);
        let cell = if j < row.len() {
            spec_pad_cell(row[j].content, width, align)
        } else {
            spec_pad_cell(Seq::empty(), width, CellAlign::Unset)
        };
        seq![' '] + cell + seq![' ', '|'] + spec_row_cols(rows, row, ncols, j + 1)
    }
}

/// One separator cell under the given alignment and width.
pub open spec fn spec_sep_cell(width: nat, align: CellAlign) -> Seq<char> {
    match align {
        CellAlign::Left => seq![' ', ':'] + spec_repeat('-', (width - 1) as nat) + seq![' ', '|'],
        CellAlign::Center => seq![' ', ':'] + spec_repeat(
            '-',
            if width >= 2 {
                (width - 2) as nat
            } else {
                0
            },
        ) + seq![':', ' ', '|'],
        CellAlign::Right => seq![' '] + spec_repeat('-', (width - 1) as nat) + seq![':', ' ', '|'],
        CellAlign::Unset => seq![' '] + spec_repeat('-', width) + seq![' ', '|'],
    }
}

/// The separator row after the header.
pub open spec fn spec_sep_cols(rows: Seq<Seq<CellV>>, ncols: int, j: int) -> Seq<char>
    decreases ncols - j,
{
    if j < 0 || j >= ncols {
        Seq::empty()
    } else {
        spec_sep_cell(spec_col_width(rows, j, 0), spec_col_align(rows, j, 0)) + spec_sep_cols(
            rows,
            ncols,
            j + 1,
        )
    }
}

/// All table rows rendered, with the separator after the first.
pub open spec fn spec_rows_out(rows: Seq<Seq<CellV>>, ncols: int, i: int) -> Seq<char>
    decreases rows.len() - i,
{
    if i < 0 || i >= rows.len() {
        Seq::empty()
    } else {
        seq!['|'] + spec_row_cols(rows, rows[i], ncols, 0) + seq!['\n'] + (if i == 0 {
            seq!['|'] + spec_sep_cols(rows, ncols, 0) + seq!['\n']
        } else {
            Seq::empty()
        }) + spec_rows_out(rows, ncols, i + 1)
    }
}

/// A complete GFM table for the given rows and caption.
pub open spec fn spec_table_out(rows: Seq<Seq<CellV>>, caption: Option<Seq<char>>) -> Seq<char> {
    if rows.len() == 0 {
        Seq::empty()
    } else {
        "\n\n"@ + spec_rows_out(rows, spec_col_count(rows, 0) as int, 0) + (match caption {
            Some(c) => seq!['\n', '*'] + c + seq!['*'],
            None => Seq::empty(),
        }) + seq!['\n']
    }
}

/// Trimmed content wrapped in fixed delimiters, or nothing when empty.
pub open spec fn spec_wrap(c: Seq<char>, open_d: Seq<char>, close_d: Seq<char>) -> Seq<char> {
    if c.len() == 0 {
        Seq::empty()
    } else {
        open_d + c + close_d
    }
}

/// The heading level a tag names, if it is a heading tag.
pub open spec fn spec_heading_level(tag: Seq<char>) -> Option<nat> {
    if tag == "h1"@ {
        Some(1 as nat)
    } else if tag == "h2"@ {
        Some(2 as nat)
    } else if tag == "h3"@ {
        Some(3 as nat)
    } else if tag == "h4"@ {
        Some(4 as nat)
    } else if tag == "h5"@ {
        Some(5 as nat)
    } else if tag == "h6"@ {
        Some(6 as nat)
    } else {
        None
    }
}

/// A heading: ATX style uses `#` runs; Setext style underlines levels one
/// and two and falls back to ATX beyond.
pub open spec fn spec_heading_out(level: nat, content: Seq<char>, style: HeadingStyle) -> Seq<
    char,
> {
    if content.len() == 0 {
        Seq::empty()
    } else if style == HeadingStyle::Setext && level <= 2 {
        "\n\n"@ + content + seq!['\n'] + spec_repeat(
            if level == 1 {
                '='
            } else {
                '-'
            },
            content.len(),
        ) + "\n\n"@
    } else {
        "\n\n"@ + spec_repeat('#', level) + seq![' '] + content + "\n\n"@
    }
}

/// A paragraph block, or nothing when empty.
pub open spec fn spec_block_out(content: Seq<char>) -> Seq<char> {
    if content.len() == 0 {
        Seq::empty()
    } else {
        "\n\n"@ + content + "\n\n"@
    }
}

/// Quoted lines: each line of the content prefixed with `> `, empty lines
/// with a bare `>`.
pub open spec fn spec_quote_join(ls: Seq<Seq<char>>, i: int) -> Seq<char>
    decreases ls.len() - i,
{
    if i < 0 || i >= ls.len() {
        Seq::empty()
    } else {
        (if ls[i].len() == 0 {
            seq!['>']
        } else {
            "> "@ + ls[i]
        }) + (if i < ls.len() - 1 {
            seq!['\n']
        } else {
            Seq::empty()
        }) + spec_quote_join(ls, i + 1)
    }
}

/// A blockquote, or nothing when empty.
pub open spec fn spec_quote_out(content: Seq<char>) -> Seq<char> {
    if content.len() == 0 {
        Seq::empty()
    } else {
        "\n\n"@ + spec_quote_join(spec_lines(content), 0) + "\n\n"@
    }
}

/// Addition capped at the largest `usize`, on spec numbers.
pub open spec fn nat_sat_add(a: nat, b: nat) -> nat {
    if a + b > usize::MAX {
        usize::MAX as nat
    } else {
        a + b
    }
}

/// The continuation lines of a list item, indented under the first.
pub open spec fn spec_cont_join(ls: Seq<Seq<char>>, i: int, spaces: nat) -> Seq<char>
    decreases ls.len() - i,
{
    if i < 0 || i >= ls.len() {
        Seq::empty()
    } else {
        (if ls[i].len() == 0 {
            seq!['\n']
        } else {
            seq!['\n'] + spec_repeat(' ', spaces) + ls[i]
        }) + spec_cont_join(ls, i + 1, spaces)
    }
}

/// `text` with every line after the first indented by `spaces` spaces.
pub open spec fn spec_indent_cont(text: Seq<char>, spaces: nat) -> Seq<char> {
    let ls = spec_lines(text);
    (if ls.len() == 0 {
        Seq::empty()
    } else {
        ls[0]
    }) + spec_cont_join(ls, 1, spaces)
}

/// A rendered list item: indentation, prefix, content with continuation
/// lines indented, and a newline.
pub open spec fn spec_li_out(content: Seq<char>, prefix: Seq<char>, indent: nat) -> Seq<char> {
    if content.len() == 0 {
        Seq::empty()
    } else {
        spec_repeat(' ', indent) + prefix + spec_indent_cont(
            content,
            nat_sat_add(prefix.len(), indent),
        ) + seq!['\n']
    }
}

/// Inline code: delimited by one more backtick than any run inside, with
/// one space of padding when the code starts or ends with a backtick.
pub open spec fn spec_code_out(raw: Seq<char>) -> Seq<char> {
    if raw.len() == 0 {
        Seq::empty()
    } else {
        let delim = spec_repeat('`', spec_code_backticks(raw));
        let pad: Seq<char> = if raw[0] == '`' || raw.last() == '`' {
            seq![' ']
        } else {
            Seq::empty()
        };
        delim + pad + raw + pad + delim
    }
}

/// A fenced code block with an optional language tag.
pub open spec fn spec_pre_out(attrs: Seq<Attr>, children: Seq<AnnView>, fence_char: char) -> Seq<
    char,
> {
    let lang = match spec_detect_language(attrs, children) {
        Some(l) => l,
        None => Seq::empty(),
    };
    let code = spec_trim_end_char(spec_code_text_seq(children, 0), '\n');
    if code.len() == 0 {
        Seq::empty()
    } else {
        let fence = spec_fence(code, fence_char);
        "\n\n"@ + fence + lang + seq!['\n'] + code + seq!['\n'] + fence + "\n\n"@
    }
}

/// An image: `![alt](src)`, with the source resolved against the base URL
/// and percent-escaped, and an optional quoted title.
pub open spec fn spec_img_out(attrs: Seq<Attr>, base: Option<Seq<char>>) -> Seq<char> {
    let src0 = match spec_attr(attrs, "src"@) {
        Some(sv) => sv,
        None => Seq::empty(),
    };
    let alt = match spec_attr(attrs, "alt"@) {
        Some(a) => a,
        None => Seq::empty(),
    };
    if src0.len() == 0 {
        Seq::empty()
    } else {
        let src1 = match base {
            Some(b) => spec_resolve_url(b, src0),
            None => src0,
        };
        let src = spec_escape_url(src1);
        match spec_attr(attrs, "title"@) {
            Some(t) => "!["@ + alt + "]("@ + src + " \""@ + spec_escape_title(t) + "\")"@,
            None => "!["@ + alt + "]("@ + src + seq![')'],
        }
    }
}

/// A link for content and attributes: plain content when the target is
/// empty or `#`, an autolink when the text equals the target, and an inline
/// link otherwise.
pub open spec fn spec_link_out(content: Seq<char>, attrs: Seq<Attr>, base: Option<Seq<char>>) -> Seq<
    char,
> {
    let href0 = match spec_attr(attrs, "href"@) {
        Some(h) => h,
        None => Seq::empty(),
    };
    if href0.len() == 0 || href0 == "#"@ {
        content
    } else {
        let href = match base {
            Some(b) => spec_resolve_url(b, href0),
            None => href0,
        };
        let title = spec_attr(attrs, "title"@);
        if title is None && crate::chars::seq_starts_with(href, "mailto:"@) && content == href.skip(
            7,
        ) {
            seq!['<'] + href.skip(7) + seq!['>']
        } else if title is None && content == href {
            seq!['<'] + href + seq!['>']
        } else {
            let esc = spec_escape_url(href);
            match title {
                Some(t) => seq!['['] + content + "]("@ + esc + " \""@ + spec_escape_title(t)
                    + "\")"@,
                None => seq!['['] + content + "]("@ + esc + seq![')'],
            }
        }
    }
}

/// An `abbr` element kept as inline HTML, with its title attribute escaped.
pub open spec fn spec_abbr_out(content: Seq<char>, attrs: Seq<Attr>) -> Seq<char> {
    if content.len() == 0 {
        Seq::empty()
    } else {
        match spec_attr(attrs, "title"@) {
            Some(t) => "<abbr title=\""@ + spec_escape_attr(t) + "\">"@ + content + "</abbr>"@,
            None => "<abbr>"@ + content + "</abbr>"@,
        }
    }
}

/// The image inside a `picture` element, if any: the last `img` child with
/// a source wins.
pub open spec fn spec_picture_img(s: Seq<AnnView>, i: int, cur: Seq<char>) -> Seq<char>
    decreases s.len() - i,
{
    if i < 0 || i >= s.len() {
        cur
    } else {
        let cur2 = match s[i] {
            AnnView::Element { tag, attrs, .. } => {
                if tag == "img"@ && (match spec_attr(attrs, "src"@) {
                    Some(sv) => sv.len() > 0,
                    None => false,
                }) {
                    "!["@ + (match spec_attr(attrs, "alt"@) {
                        Some(a) => a,
                        None => Seq::empty(),
                    }) + "]("@ + spec_attr(attrs, "src"@)->0 + seq![')']
                } else {
                    cur
                }
            },
            _ => cur,
        };
        spec_picture_img(s, i + 1, cur2)
    }
}

/// The markdown a node renders to: text is decoded and block-normalized; a
/// suppressed element contributes only what its force-kept descendants
/// render; every other element goes through the rule for its tag, unknown
/// tags passing their children through.
pub open spec fn spec_render_node(n: AnnView, opts: Options) -> Seq<char>
    decreases n, 3int, 0int,
{
    match n {
        AnnView::Text { text } => spec_normalize_block(spec_decode_entities(text)),
        AnnView::Other => Seq::empty(),
        AnnView::Element { tag, attrs, meta, children } => {
            if meta.skip && !meta.force_keep {
                spec_render_kept(n, opts)
            } else if spec_heading_level(tag) is Some {
                spec_heading_out(
                    spec_heading_level(tag)->0,
                    spec_normalize_block(spec_trim(spec_render_children(n, opts))),
                    opts.heading_style,
                )
            } else if tag == "p"@ {
                spec_block_out(spec_trim(spec_render_children(n, opts)))
            } else if tag == "pre"@ {
                spec_pre_out(attrs, children, opts.code_fence)
            } else if tag == "blockquote"@ {
                spec_quote_out(spec_trim(spec_render_children(n, opts)))
            } else if tag == "ul"@ || tag == "ol"@ {
                spec_block_out(spec_trim_end(spec_render_children(n, opts)))
            } else if tag == "li"@ {
                match meta.list_prefix {
                    Some(p) => spec_li_out(
                        spec_trim(spec_render_children(n, opts)),
                        p,
                        meta.ancestor_indent as nat,
                    ),
                    None => spec_li_out(
                        spec_trim(spec_render_children(n, opts)),
                        seq![opts.bullet_marker, ' '],
                        0,
                    ),
                }
            } else if tag == "dl"@ {
                spec_dl_out(n, opts)
            } else if tag == "dt"@ {
                spec_trim(spec_render_children(n, opts))
            } else if tag == "dd"@ {
                if spec_trim(spec_render_children(n, opts)).len() == 0 {
                    Seq::empty()
                } else {
                    ": "@ + spec_trim(spec_render_children(n, opts))
                }
            } else if tag == "table"@ {
                spec_table_elem(n, opts)
            } else if tag == "hr"@ {
                "\n\n---\n\n"@
            } else if tag == "details"@ {
                spec_details_elem(n, opts)
            } else if tag == "figure"@ {
                spec_figure_elem(n, opts)
            } else if tag == "a"@ {
                spec_link_out(
                    spec_normalize_block(spec_trim(spec_render_children(n, opts))),
                    attrs,
                    spec_base_url(opts),
                )
            } else if tag == "img"@ {
                spec_img_out(attrs, spec_base_url(opts))
            } else if tag == "strong"@ || tag == "b"@ {
                spec_wrap(spec_trim(spec_render_children(n, opts)), "**"@, "**"@)
            } else if tag == "em"@ || tag == "i"@ {
                spec_wrap(spec_trim(spec_render_children(n, opts)), "*"@, "*"@)
            } else if tag == "del"@ || tag == "s"@ || tag == "strike"@ {
                spec_wrap(spec_trim(spec_render_children(n, opts)), "~~"@, "~~"@)
            } else if tag == "code"@ {
                spec_code_out(spec_raw_text(n))
            } else if tag == "sup"@ {
                spec_wrap(spec_trim(spec_render_children(n, opts)), "<sup>"@, "</sup>"@)
            } else if tag == "sub"@ {
                spec_wrap(spec_trim(spec_render_children(n, opts)), "<sub>"@, "</sub>"@)
            } else if tag == "br"@ {
                "  \n"@
            } else if tag == "kbd"@ {
                spec_wrap(spec_trim(spec_render_children(n, opts)), "<kbd>"@, "</kbd>"@)
            } else if tag == "mark"@ {
                spec_wrap(spec_trim(spec_render_children(n, opts)), "<mark>"@, "</mark>"@)
            } else if tag == "samp"@ {
                spec_wrap(spec_trim(spec_render_children(n, opts)), "<samp>"@, "</samp>"@)
            } else if tag == "var"@ {
                spec_wrap(spec_trim(spec_render_children(n, opts)), "<var>"@, "</var>"@)
            } else if tag == "abbr"@ {
                spec_abbr_out(spec_trim(spec_render_children(n, opts)), attrs)
            } else {
                spec_render_children(n, opts)
            }
        },
    }
}

/// The configured base URL, as a character sequence.
pub open spec fn spec_base_url(opts: Options) -> Option<Seq<char>> {
    match opts.base_url {
        Some(b) => Some(b@),
        None => None,
    }
}

/// What a suppressed element still shows: the renderings of its element
/// children alone, so that force-kept subtrees surface while its own text
/// stays hidden.
pub open spec fn spec_render_kept(n: AnnView, opts: Options) -> Seq<char>
    decreases n, 2int, 1int,
{
    match n {
        AnnView::Element { children, .. } => spec_kept_seq(children, 0, opts),
        _ => Seq::empty(),
    }
}

pub open spec fn spec_kept_seq(s: Seq<AnnView>, i: int, opts: Options) -> Seq<char>
    decreases s, 2int, s.len() - i,
{
    if i < 0 || i >= s.len() {
        Seq::empty()
    } else {
        (match s[i] {
            AnnView::Element { .. } => spec_render_node(s[i], opts),
            _ => Seq::empty(),
        }) + spec_kept_seq(s, i + 1, opts)
    }
}

/// The concatenated markdown of an element's children.
pub open spec fn spec_render_children(n: AnnView, opts: Options) -> Seq<char>
    decreases n, 1int, 0int,
{
    match n {
        AnnView::Element { children, .. } => spec_render_seq(children, 0, opts),
        _ => Seq::empty(),
    }
}

/// The concatenated markdown of the nodes of `s` from position `i` on.
pub open spec fn spec_render_seq(s: Seq<AnnView>, i: int, opts: Options) -> Seq<char>
    decreases s, 0int, s.len() - i,
{
    if i < 0 || i >= s.len() {
        Seq::empty()
    } else {
        spec_render_node(s[i], opts) + spec_render_seq(s, i + 1, opts)
    }
}

/// A definition list: terms on their own lines, definitions prefixed with
/// `: ` and indented on continuation lines.
pub open spec fn spec_dl_out(n: AnnView, opts: Options) -> Seq<char>
    decreases n, 2int, 0int,
{
    match n {
        AnnView::Element { children, .. } => spec_dl_walk(children, 0, "\n\n"@, false, opts)
            + seq!['\n'],
        _ => Seq::empty(),
    }
}

/// The lines of one definition body.
pub open spec fn spec_dd_join(ls: Seq<Seq<char>>, i: int) -> Seq<char>
    decreases ls.len() - i,
{
    if i < 0 || i >= ls.len() {
        Seq::empty()
    } else {
        (if i == 0 {
            ": "@ + ls[0]
        } else {
            "\n  "@ + ls[i]
        }) + spec_dd_join(ls, i + 1)
    }
}

pub open spec fn spec_dl_walk(
    s: Seq<AnnView>,
    i: int,
    acc: Seq<char>,
    last_dt: bool,
    opts: Options,
) -> Seq<char>
    decreases s, 2int, s.len() - i,
{
    if i < 0 || i >= s.len() {
        acc
    } else {
        match s[i] {
            AnnView::Element { tag, .. } => {
                if tag == "dt"@ {
                    let c = spec_trim(spec_render_children(s[i], opts));
                    if c.len() > 0 {
                        spec_dl_walk(
                            s,
                            i + 1,
                            acc + (if !last_dt && spec_trim(acc).len() > 0 {
                                seq!['\n']
                            } else {
                                Seq::empty()
                            }) + c + seq!['\n'],
                            true,
                            opts,
                        )
                    } else {
                        spec_dl_walk(s, i + 1, acc, last_dt, opts)
                    }
                } else if tag == "dd"@ {
                    let c = spec_trim(spec_render_children(s[i], opts));
                    if c.len() > 0 {
                        spec_dl_walk(
                            s,
                            i + 1,
                            acc + spec_dd_join(spec_lines(c), 0) + seq!['\n'],
                            false,
                            opts,
                        )
                    } else {
                        spec_dl_walk(s, i + 1, acc, last_dt, opts)
                    }
                } else {
                    spec_dl_walk(s, i + 1, acc, last_dt, opts)
                }
            },
            _ => spec_dl_walk(s, i + 1, acc, last_dt, opts),
        }
    }
}

/// A table element: rows collected from its sections and rows, formatted as
/// a GFM table.
pub open spec fn spec_table_elem(n: AnnView, opts: Options) -> Seq<char>
    decreases n, 2int, 1int,
{
    match n {
        AnnView::Element { children, .. } => spec_table_out(
            spec_table_walk(children, 0, opts).0,
            spec_table_walk(children, 0, opts).1,
        ),
        _ => Seq::empty(),
    }
}

/// The rows and caption of a table's children from position `i` on; a later
/// nonempty caption wins.
pub open spec fn spec_table_walk(s: Seq<AnnView>, i: int, opts: Options) -> (
    Seq<Seq<CellV>>,
    Option<Seq<char>>,
)
    decreases s, 2int, s.len() - i,
{
    if i < 0 || i >= s.len() {
        (Seq::empty(), None)
    } else {
        let rest = spec_table_walk(s, i + 1, opts);
        match s[i] {
            AnnView::Element { tag, .. } => {
                if tag == "caption"@ {
                    let text = spec_normalize_block(spec_trim(spec_render_children(s[i], opts)));
                    (
                        rest.0,
                        if rest.1 is Some {
                            rest.1
                        } else if text.len() > 0 {
                            Some(text)
                        } else {
                            None
                        },
                    )
                } else if tag == "thead"@ || tag == "tbody"@ || tag == "tfoot"@ {
                    (spec_section_rows(s[i], opts) + rest.0, rest.1)
                } else if tag == "tr"@ {
                    let cells = spec_row_cells(s[i], opts);
                    if cells.len() > 0 {
                        (seq![cells] + rest.0, rest.1)
                    } else {
                        rest
                    }
                } else {
                    rest
                }
            },
            _ => rest,
        }
    }
}

/// The rows contributed by a `thead`, `tbody` or `tfoot` section.
pub open spec fn spec_section_rows(n: AnnView, opts: Options) -> Seq<Seq<CellV>>
    decreases n, 2int, 1int,
{
    match n {
        AnnView::Element { children, .. } => spec_tr_walk(children, 0, opts),
        _ => Seq::empty(),
    }
}

/// The rows among the children of a section, from position `i` on.
pub open spec fn spec_tr_walk(s: Seq<AnnView>, i: int, opts: Options) -> Seq<Seq<CellV>>
    decreases s, 2int, s.len() - i,
{
    if i < 0 || i >= s.len() {
        Seq::empty()
    } else {
        (match s[i] {
            AnnView::Element { tag, .. } => {
                if tag == "tr"@ {
                    let cells = spec_row_cells(s[i], opts);
                    if cells.len() > 0 {
                        seq![cells]
                    } else {
                        Seq::empty()
                    }
                } else {
                    Seq::empty()
                }
            },
            _ => Seq::empty(),
        }) + spec_tr_walk(s, i + 1, opts)
    }
}

/// The cells of one table row.
pub open spec fn spec_row_cells(n: AnnView, opts: Options) -> Seq<CellV>
    decreases n, 2int, 1int,
{
    match n {
        AnnView::Element { children, .. } => spec_cell_walk(children, 0, opts),
        _ => Seq::empty(),
    }
}

/// The cells among the children of a row, from position `i` on.
pub open spec fn spec_cell_walk(s: Seq<AnnView>, i: int, opts: Options) -> Seq<CellV>
    decreases s, 2int, s.len() - i,
{
    if i < 0 || i >= s.len() {
        Seq::empty()
    } else {
        (match s[i] {
            AnnView::Element { tag, attrs, .. } => {
                if tag == "th"@ || tag == "td"@ {
                    seq![
                        CellV {
                            content: spec_escape_table_cell(
                                spec_normalize_block(spec_trim(spec_render_children(s[i], opts))),
                            ),
                            align: spec_alignment(attrs),
                        },
                    ]
                } else {
                    Seq::empty()
                }
            },
            _ => Seq::empty(),
        }) + spec_cell_walk(s, i + 1, opts)
    }
}

/// A `details` element rendered as a quoted block with its summary bold.
pub open spec fn spec_details_elem(n: AnnView, opts: Options) -> Seq<char>
    decreases n, 2int, 1int,
{
    match n {
        AnnView::Element { children, .. } => {
            let w = spec_details_walk(children, 0, opts);
            let sum = w.1;
            let content = spec_trim(w.2);
            if sum.len() == 0 && content.len() == 0 {
                Seq::empty()
            } else {
                "\n\n"@ + (if sum.len() > 0 {
                    "> **"@ + sum + "**\n>\n"@
                } else {
                    Seq::empty()
                }) + spec_details_lines(spec_lines(content), 0) + seq!['\n']
            }
        },
        _ => Seq::empty(),
    }
}

/// The quoted body lines of a `details` element.
pub open spec fn spec_details_lines(ls: Seq<Seq<char>>, i: int) -> Seq<char>
    decreases ls.len() - i,
{
    if i < 0 || i >= ls.len() {
        Seq::empty()
    } else {
        (if ls[i].len() == 0 {
            ">\n"@
        } else {
            "> "@ + ls[i] + seq!['\n']
        }) + spec_details_lines(ls, i + 1)
    }
}

/// Without a summary child the walked summary is empty.
proof fn lemma_details_no_summary(s: Seq<AnnView>, i: int, opts: Options)
    ensures
        !spec_details_walk(s, i, opts).0 ==> spec_details_walk(s, i, opts).1 == Seq::<
            char,
        >::empty(),
    decreases s.len() - i,
{
    if !(i < 0 || i >= s.len()) {
        lemma_details_no_summary(s, i + 1, opts);
    }
}

/// The summary and body of a `details` element from position `i` on: the
/// last summary wins; other children contribute their contents in order.
pub open spec fn spec_details_walk(s: Seq<AnnView>, i: int, opts: Options) -> (
    bool,
    Seq<char>,
    Seq<char>,
)
    decreases s, 2int, s.len() - i,
{
    if i < 0 || i >= s.len() {
        (false, Seq::empty(), Seq::empty())
    } else {
        let rest = spec_details_walk(s, i + 1, opts);
        match s[i] {
            AnnView::Element { tag, .. } => {
                if tag == "summary"@ {
                    let cur = spec_normalize_block(spec_trim(spec_render_children(s[i], opts)));
                    (
                        true,
                        if rest.0 {
                            rest.1
                        } else {
                            cur
                        },
                        rest.2,
                    )
                } else {
                    (rest.0, rest.1, spec_render_children(s[i], opts) + rest.2)
                }
            },
            AnnView::Text { text } => (rest.0, rest.1, text + rest.2),
            AnnView::Other => rest,
        }
    }
}

/// A `figure` element: its image line with an optional italic caption.
pub open spec fn spec_figure_elem(n: AnnView, opts: Options) -> Seq<char>
    decreases n, 2int, 1int,
{
    match n {
        AnnView::Element { children, .. } => {
            let w = spec_figure_walk(children, 0, Seq::empty(), Seq::empty(), opts);
            let img = w.0;
            let cap = w.1;
            if img.len() == 0 {
                Seq::empty()
            } else {
                "\n\n"@ + spec_trim(img) + (if cap.len() > 0 {
                    "\n*"@ + cap + seq!['*']
                } else {
                    Seq::empty()
                }) + "\n\n"@
            }
        },
        _ => Seq::empty(),
    }
}

/// The image markdown and caption of a figure's children from position `i`
/// on, threading both left to right.
pub open spec fn spec_figure_walk(
    s: Seq<AnnView>,
    i: int,
    img: Seq<char>,
    cap: Seq<char>,
    opts: Options,
) -> (Seq<char>, Seq<char>)
    decreases s, 2int, s.len() - i,
{
    if i < 0 || i >= s.len() {
        (img, cap)
    } else {
        match s[i] {
            AnnView::Element { tag, attrs, children, .. } => {
                if tag == "img"@ {
                    let src = match spec_attr(attrs, "src"@) {
                        Some(sv) => sv,
                        None => Seq::empty(),
                    };
                    if src.len() > 0 {
                        let alt = match spec_attr(attrs, "alt"@) {
                            Some(a) => a,
                            None => Seq::empty(),
                        };
                        spec_figure_walk(s, i + 1, "!["@ + alt + "]("@ + src + seq![')'], cap, opts)
                    } else {
                        spec_figure_walk(s, i + 1, img, cap, opts)
                    }
                } else if tag == "figcaption"@ {
                    spec_figure_walk(
                        s,
                        i + 1,
                        img,
                        spec_normalize_block(spec_trim(spec_render_children(s[i], opts))),
                        opts,
                    )
                } else if tag == "picture"@ {
                    spec_figure_walk(s, i + 1, spec_picture_img(children, 0, img), cap, opts)
                } else {
                    let nested = spec_render_children(s[i], opts);
                    if img.len() == 0 && crate::chars::spec_find(nested, "!["@, 0) is Some {
                        spec_figure_walk(s, i + 1, nested, cap, opts)
                    } else {
                        spec_figure_walk(s, i + 1, img, cap, opts)
                    }
                }
            },
            _ => spec_figure_walk(s, i + 1, img, cap, opts),
        }
    }
}

fn wrap_exec(content: &Vec<char>, open_d: &str, close_d: &str) -> (out: Vec<char>)
    ensures
        out@ == spec_wrap(content@, open_d@, close_d@),
{
    if content.len() == 0 {
        Vec::new()
    } else {
        let mut out: Vec<char> = Vec::new();
        push_str_chars(&mut out, open_d);
        push_chars(&mut out, content);
        push_str_chars(&mut out, close_d);
        assert(out@ =~= open_d@ + content@ + close_d@);
        out
    }
}

fn heading_out_exec(level: usize, content: &Vec<char>, style: HeadingStyle) -> (out: Vec<char>)
    requires
        1 <= level <= 6,
    ensures
        out@ == spec_heading_out(level as nat, content@, style),
{
    if content.len() == 0 {
        return Vec::new();
    }
    let mut out: Vec<char> = Vec::new();
    if style == HeadingStyle::Setext && level <= 2 {
        push_str_chars(&mut out, "\n\n");
        push_chars(&mut out, content);
        out.push('\n');
        let underline = repeat_char(
            if level == 1 {
                '='
            } else {
                '-'
            },
            content.len(),
        );
        push_chars(&mut out, &underline);
        push_str_chars(&mut out, "\n\n");
        assert(out@ =~= spec_heading_out(level as nat, content@, style));
    } else {
        push_str_chars(&mut out, "\n\n");
        let marks = repeat_char('#', level);
        push_chars(&mut out, &marks);
        out.push(' ');
        push_chars(&mut out, content);
        push_str_chars(&mut out, "\n\n");
        assert(out@ =~= spec_heading_out(level as nat, content@, style));
    }
    out
}

fn block_out_exec(content: &Vec<char>) -> (out: Vec<char>)
    ensures
        out@ == spec_block_out(content@),
{
    if content.len() == 0 {
        Vec::new()
    } else {
        let mut out: Vec<char> = Vec::new();
        push_str_chars(&mut out, "\n\n");
        push_chars(&mut out, content);
        push_str_chars(&mut out, "\n\n");
        assert(out@ =~= spec_block_out(content@));
        out
    }
}

#[verifier::loop_isolation(false)]
fn quote_out_exec(content: &Vec<char>) -> (out: Vec<char>)
    ensures
        out@ == spec_quote_out(content@),
{
    if content.len() == 0 {
        return Vec::new();
    }
    let ls = crate::whitespace::split_lines(content);
    let ghost lv = ls.deep_view();
    let mut out: Vec<char> = Vec::new();
    push_str_chars(&mut out, "\n\n");
    let mut i: usize = 0;
    while i < ls.len()
        invariant
            0 <= i <= ls@.len(),
            lv == ls.deep_view(),
            lv.len() == ls@.len(),
            out@ + spec_quote_join(lv, i as int) == "\n\n"@ + spec_quote_join(lv, 0),
        decreases ls@.len() - i,
    {
        let ghost before = out@;
        proof {
            assert(lv[i as int] == ls@[i as int]@);
        }
        if ls[i].len() == 0 {
            out.push('>');
        } else {
            push_str_chars(&mut out, "> ");
            push_chars(&mut out, &ls[i]);
        }
        if i < ls.len() - 1 {
            out.push('\n');
        }
        i = i + 1;
        proof {
            assert(out@ + spec_quote_join(lv, i as int) =~= before + spec_quote_join(lv, i - 1));
        }
    }
    push_str_chars(&mut out, "\n\n");
    assert(out@ =~= spec_quote_out(content@));
    out
}

/// `text` with every line after the first indented by `spaces` spaces, on
/// character vectors.
#[verifier::loop_isolation(false)]
pub fn indent_cont_chars(text: &Vec<char>, spaces: usize) -> (out: Vec<char>)
    ensures
        out@ == spec_indent_cont(text@, spaces as nat),
{
    let ls = crate::whitespace::split_lines(text);
    let ghost lv = ls.deep_view();
    let mut out: Vec<char> = Vec::new();
    if ls.len() > 0 {
        proof {
            assert(lv[0] == ls@[0]@);
        }
        push_chars(&mut out, &ls[0]);
    }
    let pad = repeat_char(' ', spaces);
    let mut i: usize = 1;
    while i < ls.len()
        invariant
            1 <= i <= ls@.len() || (ls@.len() == 0 && i == 1),
            lv == ls.deep_view(),
            lv.len() == ls@.len(),
            pad@ == spec_repeat(' ', spaces as nat),
            out@ + spec_cont_join(lv, i as int, spaces as nat) == spec_indent_cont(
                text@,
                spaces as nat,
            ),
        decreases ls@.len() - i,
    {
        let ghost before = out@;
        proof {
            assert(lv[i as int] == ls@[i as int]@);
        }
        if ls[i].len() == 0 {
            out.push('\n');
        } else {
            out.push('\n');
            push_chars(&mut out, &pad);
            push_chars(&mut out, &ls[i]);
        }
        i = i + 1;
        proof {
            assert(out@ + spec_cont_join(lv, i as int, spaces as nat) =~= before + spec_cont_join(
                lv,
                i - 1,
                spaces as nat,
            ));
        }
    }
    assert(out@ =~= spec_indent_cont(text@, spaces as nat));
    out
}

/// Indent continuation lines of multi-line content.
pub fn indent_continuation(text: &str, spaces: usize) -> (r: String)
    ensures
        r@ == spec_indent_cont(text@, spaces as nat),
{
    let v = str_chars(text);
    let out = indent_cont_chars(&v, spaces);
    crate::chars::chars_string(&out)
}

fn li_out_exec(content: &Vec<char>, prefix: &Vec<char>, indent: usize) -> (out: Vec<char>)
    ensures
        out@ == spec_li_out(content@, prefix@, indent as nat),
{
    if content.len() == 0 {
        return Vec::new();
    }
    let mut out = repeat_char(' ', indent);
    push_chars(&mut out, prefix);
    let spaces = crate::chars::sat_add_exec(prefix.len(), indent);
    let cont = indent_cont_chars(content, spaces);
    push_chars(&mut out, &cont);
    out.push('\n');
    assert(out@ =~= spec_li_out(content@, prefix@, indent as nat));
    out
}

fn code_out_exec(raw: &Vec<char>) -> (out: Vec<char>)
    ensures
        out@ == spec_code_out(raw@),
{
    if raw.len() == 0 {
        return Vec::new();
    }
    let n = crate::escape::max_run_chars(raw, '`');
    let ticks: usize = if n == 0 {
        1
    } else if n == usize::MAX {
        n
    } else {
        n + 1
    };
    let delim = repeat_char('`', ticks);
    let mut out: Vec<char> = Vec::new();
    push_chars(&mut out, &delim);
    let padded = raw[0] == '`' || raw[raw.len() - 1] == '`';
    if padded {
        out.push(' ');
    }
    push_chars(&mut out, raw);
    if padded {
        out.push(' ');
    }
    push_chars(&mut out, &delim);
    assert(out@ =~= spec_code_out(raw@));
    out
}

/// The value of an optional caption.
pub open spec fn opt_chars_view(o: Option<Vec<char>>) -> Option<Seq<char>> {
    match o {
        Some(v) => Some(v@),
        None => None,
    }
}

#[verifier::loop_isolation(false)]
fn code_text_vec(children: &Vec<AnnNode>) -> (out: Vec<char>)
    ensures
        out@ == spec_code_text_seq(ann_views_from(children@, 0), 0),
    decreases crate::precompute::seq_view_size(ann_views_from(children@, 0), 0), 9int,
{
    let mut out: Vec<char> = Vec::new();
    let mut i: usize = 0;
    proof {
        lemma_ann_views_from(children@, 0);
    }
    while i < children.len()
        invariant
            0 <= i <= children@.len(),
            out@ + spec_code_text_seq(ann_views_from(children@, 0), i as int)
                == spec_code_text_seq(ann_views_from(children@, 0), 0),
        decreases children@.len() - i,
    {
        proof {
            lemma_ann_views_from(children@, 0);
            lemma_child_view_size(children@, i as int);
        }
        let sub = code_text(&children[i]);
        let ghost before = out@;
        push_chars(&mut out, &sub);
        i = i + 1;
        proof {
            let s = ann_views_from(children@, 0);
            assert(s[i - 1] == ann_view(children@[i - 1]));
            assert(out@ + spec_code_text_seq(s, i as int) =~= before + (spec_code_text(s[i - 1])
                + spec_code_text_seq(s, i as int)));
        }
    }
    proof {
        let s = ann_views_from(children@, 0);
        assert(out@ =~= out@ + spec_code_text_seq(s, i as int));
    }
    out
}

/// Detects the code language for a `pre` element from its own class or a
/// `code` child's class.
#[verifier::loop_isolation(false)]
fn detect_language_exec(attrs: &Vec<Attr>, children: &Vec<AnnNode>) -> (r: Option<String>)
    ensures
        match r {
            Some(l) => spec_detect_language(attrs@, ann_views_from(children@, 0)) == Some(l@),
            None => spec_detect_language(attrs@, ann_views_from(children@, 0)) is None,
        },
{
    proof {
        lemma_ann_views_from(children@, 0);
    }
    match crate::dom::get_attr(attrs, "class") {
        Some(c) => {
            match extract_language_from_class(c.as_str()) {
                Some(l) => {
                    return Some(l);
                },
                None => {},
            }
        },
        None => {},
    }
    let ghost views = ann_views_from(children@, 0);
    let mut i: usize = 0;
    while i < children.len()
        invariant
            0 <= i <= children@.len(),
            spec_lang_from_children(views, 0) == spec_lang_from_children(views, i as int),
        decreases children@.len() - i,
    {
        proof {
            lemma_ann_views_from(children@, 0);
            assert(views[i as int] == ann_view(children@[i as int]));
        }
        match &children[i] {
            AnnNode::Element { tag, attrs: cattrs, .. } => {
                if crate::chars::str_eq(tag.as_str(), "code") {
                    match crate::dom::get_attr(cattrs, "class") {
                        Some(c) => {
                            match extract_language_from_class(c.as_str()) {
                                Some(l) => {
                                    return Some(l);
                                },
                                None => {},
                            }
                        },
                        None => {},
                    }
                }
            },
            _ => {},
        }
        i = i + 1;
    }
    None
}

fn img_out_exec(attrs: &Vec<Attr>, opts: &Options) -> (out: Vec<char>)
    ensures
        out@ == spec_img_out(attrs@, spec_base_url(*opts)),
{
    let src0 = match crate::dom::get_attr(attrs, "src") {
        Some(sv) => str_chars(sv.as_str()),
        None => Vec::new(),
    };
    let alt = match crate::dom::get_attr(attrs, "alt") {
        Some(a) => str_chars(a.as_str()),
        None => Vec::new(),
    };
    if src0.len() == 0 {
        return Vec::new();
    }
    let src1 = match &opts.base_url {
        Some(b) => {
            let bv = str_chars(b.as_str());
            crate::escape::resolve_url_chars(&bv, &src0)
        },
        None => src0,
    };
    let src = crate::escape::escape_url_chars(&src1);
    let mut out: Vec<char> = Vec::new();
    push_str_chars(&mut out, "![");
    push_chars(&mut out, &alt);
    push_str_chars(&mut out, "](");
    push_chars(&mut out, &src);
    match crate::dom::get_attr(attrs, "title") {
        Some(t) => {
            let tv = str_chars(t.as_str());
            let esc = crate::escape::escape_title_chars(&tv);
            push_str_chars(&mut out, " \"");
            push_chars(&mut out, &esc);
            push_str_chars(&mut out, "\")");
            assert(out@ =~= spec_img_out(attrs@, spec_base_url(*opts)));
        },
        None => {
            out.push(')');
            assert(out@ =~= spec_img_out(attrs@, spec_base_url(*opts)));
        },
    }
    out
}

fn link_out_exec(content: &Vec<char>, attrs: &Vec<Attr>, opts: &Options) -> (out: Vec<char>)
    ensures
        out@ == spec_link_out(content@, attrs@, spec_base_url(*opts)),
{
    let href0 = match crate::dom::get_attr(attrs, "href") {
        Some(h) => str_chars(h.as_str()),
        None => Vec::new(),
    };
    if href0.len() == 0 || crate::chars::chars_eq_str(&href0, "#") {
        let mut out: Vec<char> = Vec::new();
        push_chars(&mut out, content);
        assert(out@ =~= content@);
        return out;
    }
    let href = match &opts.base_url {
        Some(b) => {
            let bv = str_chars(b.as_str());
            crate::escape::resolve_url_chars(&bv, &href0)
        },
        None => href0,
    };
    let title = crate::dom::get_attr(attrs, "title");
    if title.is_none() {
        proof {
            reveal_strlit("mailto:");
        }
        if crate::chars::starts_with_str(&href, "mailto:") {
            let stripped = crate::chars::sub_chars(&href, 7, href.len());
            assert(stripped@ =~= href@.skip(7));
            if crate::chars::chars_eq(content, &stripped) {
                let mut out: Vec<char> = Vec::new();
                out.push('<');
                push_chars(&mut out, &stripped);
                out.push('>');
                assert(out@ =~= seq!['<'] + href@.skip(7) + seq!['>']);
                return out;
            }
        }
        if crate::chars::chars_eq(content, &href) {
            let mut out: Vec<char> = Vec::new();
            out.push('<');
            push_chars(&mut out, &href);
            out.push('>');
            assert(out@ =~= seq!['<'] + href@ + seq!['>']);
            return out;
        }
    }
    let esc = crate::escape::escape_url_chars(&href);
    let mut out: Vec<char> = Vec::new();
    out.push('[');
    push_chars(&mut out, content);
    push_str_chars(&mut out, "](");
    push_chars(&mut out, &esc);
    match title {
        Some(t) => {
            let tv = str_chars(t.as_str());
            let et = crate::escape::escape_title_chars(&tv);
            push_str_chars(&mut out, " \"");
            push_chars(&mut out, &et);
            push_str_chars(&mut out, "\")");
            assert(out@ =~= spec_link_out(content@, attrs@, spec_base_url(*opts)));
        },
        None => {
            out.push(')');
            assert(out@ =~= spec_link_out(content@, attrs@, spec_base_url(*opts)));
        },
    }
    out
}

fn abbr_out_exec(content: &Vec<char>, attrs: &Vec<Attr>) -> (out: Vec<char>)
    ensures
        out@ == spec_abbr_out(content@, attrs@),
{
    if content.len() == 0 {
        return Vec::new();
    }
    let mut out: Vec<char> = Vec::new();
    match crate::dom::get_attr(attrs, "title") {
        Some(t) => {
            let tv = str_chars(t.as_str());
            let esc = crate::escape::escape_attr_chars(&tv);
            push_str_chars(&mut out, "<abbr title=\"");
            push_chars(&mut out, &esc);
            push_str_chars(&mut out, "\">");
            push_chars(&mut out, content);
            push_str_chars(&mut out, "</abbr>");
            assert(out@ =~= spec_abbr_out(content@, attrs@));
        },
        None => {
            push_str_chars(&mut out, "<abbr>");
            push_chars(&mut out, content);
            push_str_chars(&mut out, "</abbr>");
            assert(out@ =~= spec_abbr_out(content@, attrs@));
        },
    }
    out
}

/// Renders the children of a node, concatenated in order.
#[verifier::loop_isolation(false)]
fn render_children(n: &AnnNode, opts: &Options) -> (out: Vec<char>)
    ensures
        out@ == spec_render_children(ann_view(*n), *opts),
    decreases view_size(ann_view(*n)), 1int,
{
    match n {
        AnnNode::Element { children, .. } => {
            let mut out: Vec<char> = Vec::new();
            let mut i: usize = 0;
            proof {
                lemma_ann_views_from(children@, 0);
            }
            while i < children.len()
                invariant
                    0 <= i <= children@.len(),
                    out@ + spec_render_seq(ann_views_from(children@, 0), i as int, *opts)
                        == spec_render_seq(ann_views_from(children@, 0), 0, *opts),
                decreases children@.len() - i,
            {
                proof {
                    lemma_ann_views_from(children@, 0);
                    lemma_child_view_size(children@, i as int);
                }
                let sub = render_node(&children[i], opts);
                let ghost before = out@;
                push_chars(&mut out, &sub);
                i = i + 1;
                proof {
                    let s = ann_views_from(children@, 0);
                    assert(s[i - 1] == ann_view(children@[i - 1]));
                    assert(out@ + spec_render_seq(s, i as int, *opts) =~= before + (
                    spec_render_node(s[i - 1], *opts) + spec_render_seq(s, i as int, *opts)));
                }
            }
            proof {
                let s = ann_views_from(children@, 0);
                assert(out@ =~= out@ + spec_render_seq(s, i as int, *opts));
            }
            out
        },
        _ => Vec::new(),
    }
}

/// Renders one node of the annotated tree to markdown.
pub fn render_node(n: &AnnNode, opts: &Options) -> (out: Vec<char>)
    ensures
        out@ == spec_render_node(ann_view(*n), *opts),
    decreases view_size(ann_view(*n)), 9int,
{
    match n {
        AnnNode::Text { text } => {
            let tv = str_chars(text.as_str());
            let decoded = crate::entities::decode_entities_chars(&tv);
            crate::whitespace::normalize_block_chars(&decoded)
        },
        AnnNode::Other => Vec::new(),
        AnnNode::Element { meta, .. } => {
            if meta.skip && !meta.force_keep {
                render_kept(n, opts)
            } else {
                render_element(n, opts)
            }
        },
    }
}

/// Renders an element through the rule for its tag.
#[verifier::rlimit(30)]
fn render_element(n: &AnnNode, opts: &Options) -> (out: Vec<char>)
    requires
        n is Element,
        !(ann_view(*n)->Element_meta.skip && !ann_view(*n)->Element_meta.force_keep),
    ensures
        out@ == spec_render_node(ann_view(*n), *opts),
    decreases view_size(ann_view(*n)), 8int,
{
    match n {
        AnnNode::Element { tag, attrs, meta, children } => {
            let t = tag.as_str();
            let lvl: usize = if crate::chars::str_eq(t, "h1") {
                1
            } else if crate::chars::str_eq(t, "h2") {
                2
            } else if crate::chars::str_eq(t, "h3") {
                3
            } else if crate::chars::str_eq(t, "h4") {
                4
            } else if crate::chars::str_eq(t, "h5") {
                5
            } else if crate::chars::str_eq(t, "h6") {
                6
            } else {
                0
            };
            if lvl >= 1 {
                let raw = render_children(n, opts);
                let trimmed = crate::whitespace::trim_chars(&raw);
                let content = crate::whitespace::normalize_block_chars(&trimmed);
                heading_out_exec(lvl, &content, opts.heading_style)
            } else if crate::chars::str_eq(t, "p") {
                let raw = render_children(n, opts);
                let trimmed = crate::whitespace::trim_chars(&raw);
                block_out_exec(&trimmed)
            } else if crate::chars::str_eq(t, "pre") {
                let code0 = code_text_vec(children);
                let code = trim_end_char(&code0, '\n');
                if code.len() == 0 {
                    let empty: Vec<char> = Vec::new();
                    assert(empty@ =~= spec_render_node(ann_view(*n), *opts));
                    empty
                } else {
                    let lang: Vec<char> = match detect_language_exec(attrs, children) {
                        Some(l) => str_chars(l.as_str()),
                        None => Vec::new(),
                    };
                    let fence = crate::escape::calculate_fence_chars(&code, opts.code_fence);
                    let mut out: Vec<char> = Vec::new();
                    push_str_chars(&mut out, "\n\n");
                    push_chars(&mut out, &fence);
                    push_chars(&mut out, &lang);
                    out.push('\n');
                    push_chars(&mut out, &code);
                    out.push('\n');
                    push_chars(&mut out, &fence);
                    push_str_chars(&mut out, "\n\n");
                    assert(out@ =~= spec_render_node(ann_view(*n), *opts));
                    out
                }
            } else if crate::chars::str_eq(t, "blockquote") {
                let raw = render_children(n, opts);
                let trimmed = crate::whitespace::trim_chars(&raw);
                quote_out_exec(&trimmed)
            } else if crate::chars::str_eq(t, "ul") || crate::chars::str_eq(t, "ol") {
                let raw = render_children(n, opts);
                let trimmed = crate::whitespace::trim_end_chars(&raw);
                block_out_exec(&trimmed)
            } else if crate::chars::str_eq(t, "li") {
                let raw = render_children(n, opts);
                let trimmed = crate::whitespace::trim_chars(&raw);
                match &meta.list_prefix {
                    Some(p) => {
                        let pv = str_chars(p.as_str());
                        li_out_exec(&trimmed, &pv, meta.ancestor_indent)
                    },
                    None => {
                        let mut pv: Vec<char> = Vec::new();
                        pv.push(opts.bullet_marker);
                        pv.push(' ');
                        assert(pv@ =~= seq![opts.bullet_marker, ' ']);
                        li_out_exec(&trimmed, &pv, 0)
                    },
                }
            } else if crate::chars::str_eq(t, "dl") {
                dl_elem_exec(n, opts)
            } else if crate::chars::str_eq(t, "dt") {
                let raw = render_children(n, opts);
                crate::whitespace::trim_chars(&raw)
            } else if crate::chars::str_eq(t, "dd") {
                let raw = render_children(n, opts);
                let trimmed = crate::whitespace::trim_chars(&raw);
                if trimmed.len() == 0 {
                    Vec::new()
                } else {
                    let mut out: Vec<char> = Vec::new();
                    push_str_chars(&mut out, ": ");
                    push_chars(&mut out, &trimmed);
                    assert(out@ =~= ": "@ + spec_trim(spec_render_children(ann_view(*n), *opts)));
                    out
                }
            } else if crate::chars::str_eq(t, "table") {
                table_elem_exec(n, opts)
            } else if crate::chars::str_eq(t, "hr") {
                let mut out: Vec<char> = Vec::new();
                push_str_chars(&mut out, "\n\n---\n\n");
                assert(out@ =~= "\n\n---\n\n"@);
                out
            } else if crate::chars::str_eq(t, "details") {
                details_elem_exec(n, opts)
            } else if crate::chars::str_eq(t, "figure") {
                figure_elem_exec(n, opts)
            } else if crate::chars::str_eq(t, "a") {
                let raw = render_children(n, opts);
                let trimmed = crate::whitespace::trim_chars(&raw);
                let content = crate::whitespace::normalize_block_chars(&trimmed);
                link_out_exec(&content, attrs, opts)
            } else if crate::chars::str_eq(t, "img") {
                img_out_exec(attrs, opts)
            } else if crate::chars::str_eq(t, "strong") || crate::chars::str_eq(t, "b") {
                let raw = render_children(n, opts);
                let trimmed = crate::whitespace::trim_chars(&raw);
                wrap_exec(&trimmed, "**", "**")
            } else if crate::chars::str_eq(t, "em") || crate::chars::str_eq(t, "i") {
                let raw = render_children(n, opts);
                let trimmed = crate::whitespace::trim_chars(&raw);
                wrap_exec(&trimmed, "*", "*")
            } else if crate::chars::str_eq(t, "del") || crate::chars::str_eq(t, "s")
                || crate::chars::str_eq(t, "strike") {
                let raw = render_children(n, opts);
                let trimmed = crate::whitespace::trim_chars(&raw);
                wrap_exec(&trimmed, "~~", "~~")
            } else if crate::chars::str_eq(t, "code") {
                let raw = raw_text(n);
                code_out_exec(&raw)
            } else if crate::chars::str_eq(t, "sup") {
                let raw = render_children(n, opts);
                let trimmed = crate::whitespace::trim_chars(&raw);
                wrap_exec(&trimmed, "<sup>", "</sup>")
            } else if crate::chars::str_eq(t, "sub") {
                let raw = render_children(n, opts);
                let trimmed = crate::whitespace::trim_chars(&raw);
                wrap_exec(&trimmed, "<sub>", "</sub>")
            } else if crate::chars::str_eq(t, "br") {
                let mut out: Vec<char> = Vec::new();
                push_str_chars(&mut out, "  \n");
                assert(out@ =~= "  \n"@);
                out
            } else if crate::chars::str_eq(t, "kbd") {
                let raw = render_children(n, opts);
                let trimmed = crate::whitespace::trim_chars(&raw);
                wrap_exec(&trimmed, "<kbd>", "</kbd>")
            } else if crate::chars::str_eq(t, "mark") {
                let raw = render_children(n, opts);
                let trimmed = crate::whitespace::trim_chars(&raw);
                wrap_exec(&trimmed, "<mark>", "</mark>")
            } else if crate::chars::str_eq(t, "samp") {
                let raw = render_children(n, opts);
                let trimmed = crate::whitespace::trim_chars(&raw);
                wrap_exec(&trimmed, "<samp>", "</samp>")
            } else if crate::chars::str_eq(t, "var") {
                let raw = render_children(n, opts);
                let trimmed = crate::whitespace::trim_chars(&raw);
                wrap_exec(&trimmed, "<var>", "</var>")
            } else if crate::chars::str_eq(t, "abbr") {
                let raw = render_children(n, opts);
                let trimmed = crate::whitespace::trim_chars(&raw);
                abbr_out_exec(&trimmed, attrs)
            } else {
                render_children(n, opts)
            }
        },
        _ => Vec::new(),
    }
}

#[verifier::loop_isolation(false)]
fn dl_elem_exec(n: &AnnNode, opts: &Options) -> (out: Vec<char>)
    requires
        n is Element,
    ensures
        out@ == spec_dl_out(ann_view(*n), *opts),
    decreases view_size(ann_view(*n)), 7int,
{
    match n {
        AnnNode::Element { children, .. } => {
            let ghost views = ann_views_from(children@, 0);
            proof {
                lemma_ann_views_from(children@, 0);
            }
            let mut acc: Vec<char> = Vec::new();
            push_str_chars(&mut acc, "\n\n");
            assert(acc@ =~= "\n\n"@);
            let mut last_dt: bool = false;
            let mut i: usize = 0;
            while i < children.len()
                invariant
                    0 <= i <= children@.len(),
                    spec_dl_walk(views, 0, "\n\n"@, false, *opts) == spec_dl_walk(
                        views,
                        i as int,
                        acc@,
                        last_dt,
                        *opts,
                    ),
                decreases children@.len() - i,
            {
                proof {
                    lemma_ann_views_from(children@, 0);
                    lemma_child_view_size(children@, i as int);
                    assert(views[i as int] == ann_view(children@[i as int]));
                }
                match &children[i] {
                    AnnNode::Element { tag, .. } => {
                        if crate::chars::str_eq(tag.as_str(), "dt") {
                            let raw = render_children(&children[i], opts);
                            let c = crate::whitespace::trim_chars(&raw);
                            if c.len() > 0 {
                                let ghost old_acc = acc@;
                                let ghost old_last = last_dt;
                                let tprev = crate::whitespace::trim_chars(&acc);
                                if !last_dt && tprev.len() > 0 {
                                    acc.push('\n');
                                }
                                push_chars(&mut acc, &c);
                                acc.push('\n');
                                last_dt = true;
                                proof {
                                    assert(acc@ =~= old_acc + (if !old_last && spec_trim(
                                        old_acc,
                                    ).len() > 0 {
                                        seq!['\n']
                                    } else {
                                        Seq::<char>::empty()
                                    }) + c@ + seq!['\n']);
                                }
                            }
                        } else if crate::chars::str_eq(tag.as_str(), "dd") {
                            let raw = render_children(&children[i], opts);
                            let c = crate::whitespace::trim_chars(&raw);
                            if c.len() > 0 {
                                let ls = crate::whitespace::split_lines(&c);
                                let ghost lv = ls.deep_view();
                                let mut j: usize = 0;
                                let ghost accv = acc@;
                                while j < ls.len()
                                    invariant
                                        0 <= j <= ls@.len(),
                                        lv == ls.deep_view(),
                                        lv.len() == ls@.len(),
                                        acc@ + spec_dd_join(lv, j as int) == accv + spec_dd_join(
                                            lv,
                                            0,
                                        ),
                                    decreases ls@.len() - j,
                                {
                                    let ghost before = acc@;
                                    proof {
                                        assert(lv[j as int] == ls@[j as int]@);
                                    }
                                    if j == 0 {
                                        push_str_chars(&mut acc, ": ");
                                    } else {
                                        push_str_chars(&mut acc, "\n  ");
                                    }
                                    push_chars(&mut acc, &ls[j]);
                                    j = j + 1;
                                    proof {
                                        assert(acc@ + spec_dd_join(lv, j as int) =~= before
                                            + spec_dd_join(lv, j - 1));
                                    }
                                }
                                proof {
                                    assert(acc@ =~= accv + spec_dd_join(lv, 0));
                                }
                                acc.push('\n');
                                last_dt = false;
                            }
                        }
                    },
                    _ => {},
                }
                i = i + 1;
            }
            acc.push('\n');
            assert(acc@ =~= spec_dl_out(ann_view(*n), *opts));
            acc
        },
        _ => Vec::new(),
    }
}

#[verifier::loop_isolation(false)]
fn picture_img_exec(pchildren: &Vec<AnnNode>, cur: Vec<char>) -> (out: Vec<char>)
    ensures
        out@ == spec_picture_img(ann_views_from(pchildren@, 0), 0, cur@),
{
    let ghost views = ann_views_from(pchildren@, 0);
    let ghost cur0 = cur@;
    proof {
        lemma_ann_views_from(pchildren@, 0);
    }
    let mut img = cur;
    let mut i: usize = 0;
    while i < pchildren.len()
        invariant
            0 <= i <= pchildren@.len(),
            spec_picture_img(views, 0, cur0) == spec_picture_img(views, i as int, img@),
        decreases pchildren@.len() - i,
    {
        proof {
            lemma_ann_views_from(pchildren@, 0);
            assert(views[i as int] == ann_view(pchildren@[i as int]));
        }
        match &pchildren[i] {
            AnnNode::Element { tag, attrs, .. } => {
                if crate::chars::str_eq(tag.as_str(), "img") {
                    match crate::dom::get_attr(attrs, "src") {
                        Some(sv) => {
                            let srcv = str_chars(sv.as_str());
                            if srcv.len() > 0 {
                                let altv: Vec<char> = match crate::dom::get_attr(attrs, "alt") {
                                    Some(a) => str_chars(a.as_str()),
                                    None => Vec::new(),
                                };
                                let mut m: Vec<char> = Vec::new();
                                push_str_chars(&mut m, "![");
                                push_chars(&mut m, &altv);
                                push_str_chars(&mut m, "](");
                                push_chars(&mut m, &srcv);
                                m.push(')');
                                assert(m@ =~= "!["@ + altv@ + "]("@ + srcv@ + seq![')']);
                                img = m;
                            }
                        },
                        None => {},
                    }
                }
            },
            _ => {},
        }
        i = i + 1;
    }
    img
}

#[verifier::loop_isolation(false)]
fn figure_elem_exec(n: &AnnNode, opts: &Options) -> (out: Vec<char>)
    requires
        n is Element,
    ensures
        out@ == spec_figure_elem(ann_view(*n), *opts),
    decreases view_size(ann_view(*n)), 7int,
{
    match n {
        AnnNode::Element { children, .. } => {
            let ghost views = ann_views_from(children@, 0);
            proof {
                lemma_ann_views_from(children@, 0);
            }
            let mut img: Vec<char> = Vec::new();
            let mut cap: Vec<char> = Vec::new();
            let mut i: usize = 0;
            while i < children.len()
                invariant
                    0 <= i <= children@.len(),
                    spec_figure_walk(views, 0, Seq::empty(), Seq::empty(), *opts)
                        == spec_figure_walk(views, i as int, img@, cap@, *opts),
                decreases children@.len() - i,
            {
                proof {
                    lemma_ann_views_from(children@, 0);
                    lemma_child_view_size(children@, i as int);
                    assert(views[i as int] == ann_view(children@[i as int]));
                }
                match &children[i] {
                    AnnNode::Element { tag, attrs, children: gchildren, .. } => {
                        if crate::chars::str_eq(tag.as_str(), "img") {
                            let srcv: Vec<char> = match crate::dom::get_attr(attrs, "src") {
                                Some(sv) => str_chars(sv.as_str()),
                                None => Vec::new(),
                            };
                            if srcv.len() > 0 {
                                let altv: Vec<char> = match crate::dom::get_attr(attrs, "alt") {
                                    Some(a) => str_chars(a.as_str()),
                                    None => Vec::new(),
                                };
                                let mut m: Vec<char> = Vec::new();
                                push_str_chars(&mut m, "![");
                                push_chars(&mut m, &altv);
                                push_str_chars(&mut m, "](");
                                push_chars(&mut m, &srcv);
                                m.push(')');
                                assert(m@ =~= "!["@ + altv@ + "]("@ + srcv@ + seq![')']);
                                img = m;
                            }
                        } else if crate::chars::str_eq(tag.as_str(), "figcaption") {
                            let raw = render_children(&children[i], opts);
                            let trimmed = crate::whitespace::trim_chars(&raw);
                            cap = crate::whitespace::normalize_block_chars(&trimmed);
                        } else if crate::chars::str_eq(tag.as_str(), "picture") {
                            img = picture_img_exec(gchildren, img);
                        } else {
                            let nested = render_children(&children[i], opts);
                            if img.len() == 0 && crate::chars::find_str_from(&nested, "![", 0)
                                .is_some() {
                                img = nested;
                            }
                        }
                    },
                    _ => {},
                }
                i = i + 1;
            }
            if img.len() == 0 {
                let empty: Vec<char> = Vec::new();
                assert(empty@ =~= spec_figure_elem(ann_view(*n), *opts));
                return empty;
            }
            let mut out: Vec<char> = Vec::new();
            push_str_chars(&mut out, "\n\n");
            let timg = crate::whitespace::trim_chars(&img);
            push_chars(&mut out, &timg);
            if cap.len() > 0 {
                push_str_chars(&mut out, "\n*");
                push_chars(&mut out, &cap);
                out.push('*');
            }
            push_str_chars(&mut out, "\n\n");
            assert(out@ =~= spec_figure_elem(ann_view(*n), *opts));
            out
        },
        _ => Vec::new(),
    }
}

#[verifier::loop_isolation(false)]
fn details_elem_exec(n: &AnnNode, opts: &Options) -> (out: Vec<char>)
    requires
        n is Element,
    ensures
        out@ == spec_details_elem(ann_view(*n), *opts),
    decreases view_size(ann_view(*n)), 7int,
{
    match n {
        AnnNode::Element { children, .. } => {
            let ghost views = ann_views_from(children@, 0);
            proof {
                lemma_ann_views_from(children@, 0);
            }
            let mut has: bool = false;
            let mut sum: Vec<char> = Vec::new();
            let mut content: Vec<char> = Vec::new();
            let mut i: usize = 0;
            proof {
                lemma_details_no_summary(views, 0, *opts);
                assert(spec_details_walk(views, 0, *opts).2 =~= Seq::<char>::empty()
                    + spec_details_walk(views, 0, *opts).2);
            }
            while i < children.len()
                invariant
                    0 <= i <= children@.len(),
                    spec_details_walk(views, 0, *opts).0 == (has || spec_details_walk(
                        views,
                        i as int,
                        *opts,
                    ).0),
                    spec_details_walk(views, 0, *opts).1 == (if spec_details_walk(
                        views,
                        i as int,
                        *opts,
                    ).0 {
                        spec_details_walk(views, i as int, *opts).1
                    } else {
                        sum@
                    }),
                    spec_details_walk(views, 0, *opts).2 == content@ + spec_details_walk(
                        views,
                        i as int,
                        *opts,
                    ).2,
                decreases children@.len() - i,
            {
                proof {
                    lemma_ann_views_from(children@, 0);
                    lemma_child_view_size(children@, i as int);
                    assert(views[i as int] == ann_view(children@[i as int]));
                }
                let ghost old_content = content@;
                match &children[i] {
                    AnnNode::Element { tag, .. } => {
                        if crate::chars::str_eq(tag.as_str(), "summary") {
                            let raw = render_children(&children[i], opts);
                            let trimmed = crate::whitespace::trim_chars(&raw);
                            sum = crate::whitespace::normalize_block_chars(&trimmed);
                            has = true;
                        } else {
                            let rc = render_children(&children[i], opts);
                            push_chars(&mut content, &rc);
                        }
                    },
                    AnnNode::Text { text } => {
                        let tv = str_chars(text.as_str());
                        push_chars(&mut content, &tv);
                    },
                    AnnNode::Other => {},
                }
                i = i + 1;
                proof {
                    assert(spec_details_walk(views, 0, *opts).2 =~= content@ + spec_details_walk(
                        views,
                        i as int,
                        *opts,
                    ).2);
                }
            }
            let tcontent = crate::whitespace::trim_chars(&content);
            if sum.len() == 0 && tcontent.len() == 0 {
                let empty: Vec<char> = Vec::new();
                assert(empty@ =~= spec_details_elem(ann_view(*n), *opts));
                return empty;
            }
            let mut out: Vec<char> = Vec::new();
            push_str_chars(&mut out, "\n\n");
            if sum.len() > 0 {
                push_str_chars(&mut out, "> **");
                push_chars(&mut out, &sum);
                push_str_chars(&mut out, "**\n>\n");
            }
            let ls = crate::whitespace::split_lines(&tcontent);
            let ghost lv = ls.deep_view();
            let ghost head = out@;
            let mut j: usize = 0;
            while j < ls.len()
                invariant
                    0 <= j <= ls@.len(),
                    lv == ls.deep_view(),
                    lv.len() == ls@.len(),
                    out@ + spec_details_lines(lv, j as int) == head + spec_details_lines(lv, 0),
                decreases ls@.len() - j,
            {
                let ghost before = out@;
                proof {
                    assert(lv[j as int] == ls@[j as int]@);
                }
                if ls[j].len() == 0 {
                    push_str_chars(&mut out, ">\n");
                } else {
                    push_str_chars(&mut out, "> ");
                    push_chars(&mut out, &ls[j]);
                    out.push('\n');
                }
                j = j + 1;
                proof {
                    assert(out@ + spec_details_lines(lv, j as int) =~= before + spec_details_lines(
                        lv,
                        j - 1,
                    ));
                }
            }
            out.push('\n');
            assert(out@ =~= spec_details_elem(ann_view(*n), *opts));
            out
        },
        _ => Vec::new(),
    }
}

/// Every column is at least three characters wide.
proof fn lemma_col_width_min(rows: Seq<Seq<CellV>>, col: int, i: int)
    ensures
        spec_col_width(rows, col, i) >= 3,
    decreases rows.len() - i,
{
    if !(i < 0 || i >= rows.len()) {
        lemma_col_width_min(rows, col, i + 1);
    }
}

fn pad_cell_exec(content: &Vec<char>, width: usize, align: CellAlign) -> (out: Vec<char>)
    ensures
        out@ == spec_pad_cell(content@, width as nat, align),
{
    let padn: usize = if width > content.len() {
        width - content.len()
    } else {
        0
    };
    let mut out: Vec<char> = Vec::new();
    match align {
        CellAlign::Right => {
            let pad = repeat_char(' ', padn);
            push_chars(&mut out, &pad);
            push_chars(&mut out, content);
            assert(out@ =~= spec_pad_cell(content@, width as nat, align));
        },
        CellAlign::Center => {
            let l = padn / 2;
            let lp = repeat_char(' ', l);
            let rp = repeat_char(' ', padn - l);
            push_chars(&mut out, &lp);
            push_chars(&mut out, content);
            push_chars(&mut out, &rp);
            assert(out@ =~= spec_pad_cell(content@, width as nat, align));
        },
        _ => {
            let pad = repeat_char(' ', padn);
            push_chars(&mut out, content);
            push_chars(&mut out, &pad);
            assert(out@ =~= spec_pad_cell(content@, width as nat, align));
        },
    }
    out
}

fn sep_cell_exec(width: usize, align: CellAlign) -> (out: Vec<char>)
    requires
        width >= 2,
    ensures
        out@ == spec_sep_cell(width as nat, align),
{
    proof {
        reveal_strlit(" :");
        reveal_strlit(" |");
        reveal_strlit(": |");
    }
    let mut out: Vec<char> = Vec::new();
    match align {
        CellAlign::Left => {
            push_str_chars(&mut out, " :");
            let d = repeat_char('-', width - 1);
            push_chars(&mut out, &d);
            push_str_chars(&mut out, " |");
            assert(out@ =~= spec_sep_cell(width as nat, align));
        },
        CellAlign::Center => {
            push_str_chars(&mut out, " :");
            let d = repeat_char('-', width - 2);
            push_chars(&mut out, &d);
            push_str_chars(&mut out, ": |");
            assert(out@ =~= spec_sep_cell(width as nat, align));
        },
        CellAlign::Right => {
            out.push(' ');
            let d = repeat_char('-', width - 1);
            push_chars(&mut out, &d);
            push_str_chars(&mut out, ": |");
            assert(out@ =~= spec_sep_cell(width as nat, align));
        },
        CellAlign::Unset => {
            out.push(' ');
            let d = repeat_char('-', width);
            push_chars(&mut out, &d);
            push_str_chars(&mut out, " |");
            assert(out@ =~= spec_sep_cell(width as nat, align));
        },
    }
    out
}

#[verifier::loop_isolation(false)]
#[verifier::rlimit(100)]
#[verifier::spinoff_prover]
fn format_table_exec(rows: &Vec<Vec<Cell>>, cap: &Option<Vec<char>>) -> (out: Vec<char>)
    ensures
        out@ == spec_table_out(rows_views(rows@), opt_chars_view(*cap)),
{
    let ghost rv = rows_views(rows@);
    if rows.len() == 0 {
        let empty: Vec<char> = Vec::new();
        assert(empty@ =~= spec_table_out(rv, opt_chars_view(*cap)));
        return empty;
    }
    let mut ncols: usize = 0;
    let mut i: usize = rows.len();
    while i > 0
        invariant
            0 <= i <= rows@.len(),
            ncols == spec_col_count(rv, i as int),
        decreases i,
    {
        proof {
            assert(rv[i - 1] == cells_views(rows@[i - 1]@));
        }
        if rows[i - 1].len() > ncols {
            ncols = rows[i - 1].len();
        }
        i = i - 1;
    }
    let mut widths: Vec<usize> = Vec::new();
    let mut aligns: Vec<CellAlign> = Vec::new();
    let mut j: usize = 0;
    while j < ncols
        invariant
            0 <= j <= ncols,
            widths@.len() == j,
            aligns@.len() == j,
            forall|k: int| 0 <= k < j ==> widths@[k] == spec_col_width(rv, k, 0),
            forall|k: int| 0 <= k < j ==> aligns@[k] == spec_col_align(rv, k, 0),
        decreases ncols - j,
    {
        let mut w: usize = 3;
        let mut a: CellAlign = CellAlign::Unset;
        let mut i2: usize = rows.len();
        while i2 > 0
            invariant
                0 <= i2 <= rows@.len(),
                w == spec_col_width(rv, j as int, i2 as int),
                a == spec_col_align(rv, j as int, i2 as int),
            decreases i2,
        {
            proof {
                assert(rv[i2 - 1] == cells_views(rows@[i2 - 1]@));
            }
            let row = &rows[i2 - 1];
            if j < row.len() {
                proof {
                    assert(rv[i2 - 1][j as int] == cell_view(rows@[i2 - 1]@[j as int]));
                }
                if row[j].content.len() > w {
                    w = row[j].content.len();
                }
                if !(row[j].align == CellAlign::Unset) {
                    a = row[j].align;
                }
            }
            i2 = i2 - 1;
        }
        widths.push(w);
        aligns.push(a);
        j = j + 1;
    }
    let mut out: Vec<char> = Vec::new();
    push_str_chars(&mut out, "\n\n");
    let ghost head = out@;
    let mut ri: usize = 0;
    while ri < rows.len()
        invariant
            0 <= ri <= rows@.len(),
            widths@.len() == ncols,
            aligns@.len() == ncols,
            forall|k: int| 0 <= k < ncols ==> widths@[k] == spec_col_width(rv, k, 0),
            forall|k: int| 0 <= k < ncols ==> aligns@[k] == spec_col_align(rv, k, 0),
            ncols == spec_col_count(rv, 0),
            out@ + spec_rows_out(rv, ncols as int, ri as int) == head + spec_rows_out(
                rv,
                ncols as int,
                0,
            ),
        decreases rows@.len() - ri,
    {
        let ghost row_start = out@;
        proof {
            assert(rv[ri as int] == cells_views(rows@[ri as int]@));
        }
        let row = &rows[ri];
        out.push('|');
        let ghost cells_start = out@;
        let mut cj: usize = 0;
        while cj < ncols
            invariant
                0 <= cj <= ncols,
                out@ + spec_row_cols(rv, rv[ri as int], ncols as int, cj as int) == cells_start
                    + spec_row_cols(rv, rv[ri as int], ncols as int, 0),
            decreases ncols - cj,
        {
            let ghost before = out@;
            out.push(' ');
            if cj < row.len() {
                proof {
                    assert(rv[ri as int][cj as int] == cell_view(rows@[ri as int]@[cj as int]));
                }
                let padded = pad_cell_exec(&row[cj].content, widths[cj], aligns[cj]);
                push_chars(&mut out, &padded);
            } else {
                let empty_content: Vec<char> = Vec::new();
                let padded = pad_cell_exec(&empty_content, widths[cj], CellAlign::Unset);
                push_chars(&mut out, &padded);
            }
            push_str_chars(&mut out, " |");
            cj = cj + 1;
            proof {
                reveal_strlit(" |");
                assert(out@ + spec_row_cols(rv, rv[ri as int], ncols as int, cj as int) =~= before
                    + spec_row_cols(rv, rv[ri as int], ncols as int, cj - 1));
            }
        }
        out.push('\n');
        if ri == 0 {
            out.push('|');
            let ghost sep_start = out@;
            let mut sj: usize = 0;
            while sj < ncols
                invariant
                    0 <= sj <= ncols,
                    out@ + spec_sep_cols(rv, ncols as int, sj as int) == sep_start + spec_sep_cols(
                        rv,
                        ncols as int,
                        0,
                    ),
                decreases ncols - sj,
            {
                let ghost before = out@;
                proof {
                    lemma_col_width_min(rv, sj as int, 0);
                }
                let sc = sep_cell_exec(widths[sj], aligns[sj]);
                push_chars(&mut out, &sc);
                sj = sj + 1;
                proof {
                    assert(out@ + spec_sep_cols(rv, ncols as int, sj as int) =~= before
                        + spec_sep_cols(rv, ncols as int, sj - 1));
                }
            }
            out.push('\n');
        }
        ri = ri + 1;
        proof {
            assert(out@ + spec_rows_out(rv, ncols as int, ri as int) =~= row_start + spec_rows_out(
                rv,
                ncols as int,
                ri - 1,
            ));
        }
    }
    match cap {
        Some(c) => {
            out.push('\n');
            out.push('*');
            push_chars(&mut out, c);
            out.push('*');
        },
        None => {},
    }
    out.push('\n');
    assert(out@ =~= spec_table_out(rv, opt_chars_view(*cap)));
    out
}

#[verifier::loop_isolation(false)]
fn row_cells_exec(n: &AnnNode, opts: &Options) -> (out: Vec<Cell>)
    requires
        n is Element,
    ensures
        cells_views(out@) == spec_row_cells(ann_view(*n), *opts),
    decreases view_size(ann_view(*n)), 7int,
{
    match n {
        AnnNode::Element { children, .. } => {
            let ghost views = ann_views_from(children@, 0);
            proof {
                lemma_ann_views_from(children@, 0);
            }
            let mut out: Vec<Cell> = Vec::new();
            let mut i: usize = 0;
            assert(cells_views(out@) =~= Seq::<CellV>::empty());
            while i < children.len()
                invariant
                    0 <= i <= children@.len(),
                    cells_views(out@) + spec_cell_walk(views, i as int, *opts) == spec_cell_walk(
                        views,
                        0,
                        *opts,
                    ),
                decreases children@.len() - i,
            {
                proof {
                    lemma_ann_views_from(children@, 0);
                    lemma_child_view_size(children@, i as int);
                    assert(views[i as int] == ann_view(children@[i as int]));
                }
                let ghost before = cells_views(out@);
                match &children[i] {
                    AnnNode::Element { tag, attrs, .. } => {
                        if crate::chars::str_eq(tag.as_str(), "th") || crate::chars::str_eq(
                            tag.as_str(),
                            "td",
                        ) {
                            let raw = render_children(&children[i], opts);
                            let trimmed = crate::whitespace::trim_chars(&raw);
                            let normalized = crate::whitespace::normalize_block_chars(&trimmed);
                            let escaped = crate::escape::escape_table_cell_chars(&normalized);
                            let al = alignment_exec(attrs);
                            out.push(Cell { content: escaped, align: al });
                        }
                    },
                    _ => {},
                }
                i = i + 1;
                proof {
                    assert(cells_views(out@) + spec_cell_walk(views, i as int, *opts) =~= before
                        + spec_cell_walk(views, i - 1, *opts));
                }
            }
            proof {
                assert(cells_views(out@) =~= cells_views(out@) + spec_cell_walk(
                    views,
                    i as int,
                    *opts,
                ));
            }
            out
        },
        _ => Vec::new(),
    }
}

#[verifier::loop_isolation(false)]
fn section_rows_exec(n: &AnnNode, opts: &Options) -> (out: Vec<Vec<Cell>>)
    requires
        n is Element,
    ensures
        rows_views(out@) == spec_section_rows(ann_view(*n), *opts),
    decreases view_size(ann_view(*n)), 7int,
{
    match n {
        AnnNode::Element { children, .. } => {
            let ghost views = ann_views_from(children@, 0);
            proof {
                lemma_ann_views_from(children@, 0);
            }
            let mut out: Vec<Vec<Cell>> = Vec::new();
            let mut i: usize = 0;
            assert(rows_views(out@) =~= Seq::<Seq<CellV>>::empty());
            while i < children.len()
                invariant
                    0 <= i <= children@.len(),
                    rows_views(out@) + spec_tr_walk(views, i as int, *opts) == spec_tr_walk(
                        views,
                        0,
                        *opts,
                    ),
                decreases children@.len() - i,
            {
                proof {
                    lemma_ann_views_from(children@, 0);
                    lemma_child_view_size(children@, i as int);
                    assert(views[i as int] == ann_view(children@[i as int]));
                }
                let ghost before = rows_views(out@);
                match &children[i] {
                    AnnNode::Element { tag, .. } => {
                        if crate::chars::str_eq(tag.as_str(), "tr") {
                            let cells = row_cells_exec(&children[i], opts);
                            if cells.len() > 0 {
                                let ghost cv = cells_views(cells@);
                                out.push(cells);
                                proof {
                                    assert(cv.len() > 0);
                                }
                            }
                        }
                    },
                    _ => {},
                }
                i = i + 1;
                proof {
                    assert(rows_views(out@) + spec_tr_walk(views, i as int, *opts) =~~= before
                        + spec_tr_walk(views, i - 1, *opts));
                }
            }
            proof {
                assert(rows_views(out@) =~~= rows_views(out@) + spec_tr_walk(
                    views,
                    i as int,
                    *opts,
                ));
            }
            out
        },
        _ => Vec::new(),
    }
}

#[verifier::loop_isolation(false)]
#[verifier::rlimit(30)]
fn table_elem_exec(n: &AnnNode, opts: &Options) -> (out: Vec<char>)
    requires
        n is Element,
    ensures
        out@ == spec_table_elem(ann_view(*n), *opts),
    decreases view_size(ann_view(*n)), 7int,
{
    match n {
        AnnNode::Element { children, .. } => {
            let ghost views = ann_views_from(children@, 0);
            proof {
                lemma_ann_views_from(children@, 0);
            }
            let mut rows: Vec<Vec<Cell>> = Vec::new();
            let mut cap: Option<Vec<char>> = None;
            let mut i: usize = 0;
            assert(rows_views(rows@) =~= Seq::<Seq<CellV>>::empty());
            while i < children.len()
                invariant
                    0 <= i <= children@.len(),
                    spec_table_walk(views, 0, *opts).0 == rows_views(rows@) + spec_table_walk(
                        views,
                        i as int,
                        *opts,
                    ).0,
                    spec_table_walk(views, 0, *opts).1 == (if spec_table_walk(
                        views,
                        i as int,
                        *opts,
                    ).1 is Some {
                        spec_table_walk(views, i as int, *opts).1
                    } else {
                        opt_chars_view(cap)
                    }),
                decreases children@.len() - i,
            {
                proof {
                    lemma_ann_views_from(children@, 0);
                    lemma_child_view_size(children@, i as int);
                    assert(views[i as int] == ann_view(children@[i as int]));
                }
                let ghost before_rows = rows_views(rows@);
                match &children[i] {
                    AnnNode::Element { tag, .. } => {
                        if crate::chars::str_eq(tag.as_str(), "caption") {
                            let raw = render_children(&children[i], opts);
                            let trimmed = crate::whitespace::trim_chars(&raw);
                            let text = crate::whitespace::normalize_block_chars(&trimmed);
                            if text.len() > 0 {
                                cap = Some(text);
                            }
                        } else if crate::chars::str_eq(tag.as_str(), "thead")
                            || crate::chars::str_eq(tag.as_str(), "tbody") || crate::chars::str_eq(
                            tag.as_str(),
                            "tfoot",
                        ) {
                            let mut rs = section_rows_exec(&children[i], opts);
                            let ghost rsv = rows_views(rs@);
                            let ghost k0 = rs@.len();
                            while rs.len() > 0
                                invariant
                                    rows_views(rows@) + rows_views(rs@) =~~= before_rows + rsv,
                                decreases rs@.len(),
                            {
                                let ghost rsv_now = rows_views(rs@);
                                let ghost rowsv_now = rows_views(rows@);
                                let first = rs.remove(0);
                                rows.push(first);
                                proof {
                                    assert(rows_views(rows@) =~~= rowsv_now.push(cells_views(
                                        first@,
                                    )));
                                    assert(rows_views(rs@) =~~= rsv_now.drop_first());
                                    assert(rows_views(rows@) + rows_views(rs@) =~~= before_rows
                                        + rsv);
                                }
                            }
                            proof {
                                assert(rows_views(rows@) =~~= before_rows + rsv);
                            }
                        } else if crate::chars::str_eq(tag.as_str(), "tr") {
                            let cells = row_cells_exec(&children[i], opts);
                            if cells.len() > 0 {
                                let ghost cv = cells_views(cells@);
                                rows.push(cells);
                                proof {
                                    assert(cv.len() > 0);
                                    assert(rows_views(rows@) =~~= before_rows.push(cv));
                                }
                            }
                        }
                    },
                    _ => {},
                }
                i = i + 1;
                proof {
                    assert(spec_table_walk(views, 0, *opts).0 =~~= rows_views(rows@)
                        + spec_table_walk(views, i as int, *opts).0);
                }
            }
            format_table_exec(&rows, &cap)
        },
        _ => Vec::new(),
    }
}

/// `n` with its suppression flag cleared.
pub open spec fn clear_skip(n: AnnView) -> AnnView {
    match n {
        AnnView::Element { tag, attrs, meta, children } => AnnView::Element {
            tag,
            attrs,
            meta: MetaView {
                list_prefix: meta.list_prefix,
                ancestor_indent: meta.ancestor_indent,
                skip: false,
                force_keep: meta.force_keep,
            },
            children,
        },
        other => other,
    }
}

/// A force-kept element is never suppressed: it renders exactly as it
/// would with the skip flag cleared, whatever an excluded ancestor set.
pub proof fn lemma_force_keep_rendered(n: AnnView, opts: Options)
    requires
        n matches AnnView::Element { meta, .. } && meta.force_keep,
    ensures
        spec_render_node(n, opts) == spec_render_node(clear_skip(n), opts),
{
    let n2 = clear_skip(n);
    match n {
        AnnView::Element { tag, attrs, meta, children } => {
            assert(spec_render_children(n, opts) == spec_render_children(n2, opts));
            assert(spec_raw_text(n) == spec_raw_text(n2));
            assert(spec_table_elem(n, opts) == spec_table_elem(n2, opts));
            assert(spec_details_elem(n, opts) == spec_details_elem(n2, opts));
            assert(spec_figure_elem(n, opts) == spec_figure_elem(n2, opts));
            assert(spec_dl_out(n, opts) == spec_dl_out(n2, opts));
        },
        _ => {},
    }
}

/// Renders the force-kept parts under a suppressed element.
#[verifier::loop_isolation(false)]
fn render_kept(n: &AnnNode, opts: &Options) -> (out: Vec<char>)
    ensures
        out@ == spec_render_kept(ann_view(*n), *opts),
    decreases view_size(ann_view(*n)), 8int,
{
    match n {
        AnnNode::Element { children, .. } => {
            let mut out: Vec<char> = Vec::new();
            let mut i: usize = 0;
            proof {
                lemma_ann_views_from(children@, 0);
            }
            while i < children.len()
                invariant
                    0 <= i <= children@.len(),
                    out@ + spec_kept_seq(ann_views_from(children@, 0), i as int, *opts)
                        == spec_kept_seq(ann_views_from(children@, 0), 0, *opts),
                decreases children@.len() - i,
            {
                proof {
                    lemma_ann_views_from(children@, 0);
                    lemma_child_view_size(children@, i as int);
                }
                let ghost before = out@;
                let ghost s = ann_views_from(children@, 0);
                match &children[i] {
                    AnnNode::Element { .. } => {
                        let sub = render_node(&children[i], opts);
                        push_chars(&mut out, &sub);
                    },
                    _ => {},
                }
                i = i + 1;
                proof {
                    assert(s[i - 1] == ann_view(children@[i - 1]));
                    assert(out@ + spec_kept_seq(s, i as int, *opts) =~= before + spec_kept_seq(
                        s,
                        i - 1,
                        *opts,
                    ));
                }
            }
            proof {
                let s = ann_views_from(children@, 0);
                assert(out@ =~= out@ + spec_kept_seq(s, i as int, *opts));
            }
            out
        },
        _ => Vec::new(),
    }
}

/// Whether two configurations agree on everything the renderer and
/// postprocessor read.
pub open spec fn same_render_options(a: Options, b: Options) -> bool {
    &&& a.heading_style == b.heading_style
    &&& a.link_style == b.link_style
    &&& a.code_fence == b.code_fence
    &&& a.bullet_marker == b.bullet_marker
    &&& spec_base_url(a) == spec_base_url(b)
}

/// Rendering reads a configuration only through the fields of
/// [`same_render_options`].
pub proof fn lemma_render_node_opts(n: AnnView, a: Options, b: Options)
    requires
        same_render_options(a, b),
    ensures
        spec_render_node(n, a) == spec_render_node(n, b),
    decreases n, 3int, 0int,
{
    match n {
        AnnView::Element { tag, attrs, meta, children } => {
            lemma_render_children_opts(n, a, b);
            lemma_table_elem_opts(n, a, b);
            lemma_details_elem_opts(n, a, b);
            lemma_figure_elem_opts(n, a, b);
            lemma_dl_out_opts(n, a, b);
        },
        _ => {},
    }
}

proof fn lemma_render_children_opts(n: AnnView, a: Options, b: Options)
    requires
        same_render_options(a, b),
    ensures
        spec_render_children(n, a) == spec_render_children(n, b),
        spec_render_kept(n, a) == spec_render_kept(n, b),
    decreases n, 1int, 0int,
{
    match n {
        AnnView::Element { children, .. } => {
            lemma_render_seq_opts(children, 0, a, b);
        },
        _ => {},
    }
}

proof fn lemma_render_seq_opts(s: Seq<AnnView>, i: int, a: Options, b: Options)
    requires
        same_render_options(a, b),
    ensures
        spec_render_seq(s, i, a) == spec_render_seq(s, i, b),
        spec_kept_seq(s, i, a) == spec_kept_seq(s, i, b),
    decreases s, 0int, s.len() - i,
{
    if !(i < 0 || i >= s.len()) {
        lemma_render_node_opts(s[i], a, b);
        lemma_render_seq_opts(s, i + 1, a, b);
    }
}

proof fn lemma_table_elem_opts(n: AnnView, a: Options, b: Options)
    requires
        same_render_options(a, b),
    ensures
        spec_table_elem(n, a) == spec_table_elem(n, b),
        spec_section_rows(n, a) == spec_section_rows(n, b),
        spec_row_cells(n, a) == spec_row_cells(n, b),
    decreases n, 2int, 2int,
{
    match n {
        AnnView::Element { children, .. } => {
            lemma_table_walk_opts(children, 0, a, b);
        },
        _ => {},
    }
}

proof fn lemma_table_walk_opts(s: Seq<AnnView>, i: int, a: Options, b: Options)
    requires
        same_render_options(a, b),
    ensures
        spec_table_walk(s, i, a) == spec_table_walk(s, i, b),
        spec_tr_walk(s, i, a) == spec_tr_walk(s, i, b),
        spec_cell_walk(s, i, a) == spec_cell_walk(s, i, b),
    decreases s, 2int, s.len() - i,
{
    if !(i < 0 || i >= s.len()) {
        match s[i] {
            AnnView::Element { .. } => {
                lemma_render_children_opts(s[i], a, b);
                lemma_table_sub_opts(s[i], a, b);
            },
            _ => {},
        }
        lemma_table_walk_opts(s, i + 1, a, b);
    }
}

proof fn lemma_table_sub_opts(n: AnnView, a: Options, b: Options)
    requires
        same_render_options(a, b),
    ensures
        spec_section_rows(n, a) == spec_section_rows(n, b),
        spec_row_cells(n, a) == spec_row_cells(n, b),
    decreases n, 2int, 1int,
{
    match n {
        AnnView::Element { children, .. } => {
            lemma_table_walk_opts(children, 0, a, b);
        },
        _ => {},
    }
}

proof fn lemma_details_elem_opts(n: AnnView, a: Options, b: Options)
    requires
        same_render_options(a, b),
    ensures
        spec_details_elem(n, a) == spec_details_elem(n, b),
    decreases n, 2int, 1int,
{
    match n {
        AnnView::Element { children, .. } => {
            lemma_details_walk_opts(children, 0, a, b);
        },
        _ => {},
    }
}

proof fn lemma_details_walk_opts(s: Seq<AnnView>, i: int, a: Options, b: Options)
    requires
        same_render_options(a, b),
    ensures
        spec_details_walk(s, i, a) == spec_details_walk(s, i, b),
    decreases s, 2int, s.len() - i,
{
    if !(i < 0 || i >= s.len()) {
        match s[i] {
            AnnView::Element { .. } => {
                lemma_render_children_opts(s[i], a, b);
            },
            _ => {},
        }
        lemma_details_walk_opts(s, i + 1, a, b);
    }
}

proof fn lemma_figure_elem_opts(n: AnnView, a: Options, b: Options)
    requires
        same_render_options(a, b),
    ensures
        spec_figure_elem(n, a) == spec_figure_elem(n, b),
    decreases n, 2int, 1int,
{
    match n {
        AnnView::Element { children, .. } => {
            lemma_figure_walk_opts(children, 0, Seq::empty(), Seq::empty(), a, b);
        },
        _ => {},
    }
}

proof fn lemma_figure_walk_opts(
    s: Seq<AnnView>,
    i: int,
    img: Seq<char>,
    cap: Seq<char>,
    a: Options,
    b: Options,
)
    requires
        same_render_options(a, b),
    ensures
        spec_figure_walk(s, i, img, cap, a) == spec_figure_walk(s, i, img, cap, b),
    decreases s, 2int, s.len() - i,
{
    if !(i < 0 || i >= s.len()) {
        match s[i] {
            AnnView::Element { tag, attrs, children, .. } => {
                lemma_render_children_opts(s[i], a, b);
                let src = match spec_attr(attrs, "src"@) {
                    Some(sv) => sv,
                    None => Seq::empty(),
                };
                let alt = match spec_attr(attrs, "alt"@) {
                    Some(av) => av,
                    None => Seq::empty(),
                };
                if tag == "img"@ && src.len() > 0 {
                    lemma_figure_walk_opts(
                        s,
                        i + 1,
                        "!["@ + alt + "]("@ + src + seq![')'],
                        cap,
                        a,
                        b,
                    );
                } else if tag == "img"@ {
                    lemma_figure_walk_opts(s, i + 1, img, cap, a, b);
                } else if tag == "figcaption"@ {
                    lemma_figure_walk_opts(
                        s,
                        i + 1,
                        img,
                        spec_normalize_block(spec_trim(spec_render_children(s[i], a))),
                        a,
                        b,
                    );
                } else if tag == "picture"@ {
                    lemma_figure_walk_opts(s, i + 1, spec_picture_img(children, 0, img), cap, a, b);
                } else {
                    let nested = spec_render_children(s[i], a);
                    if img.len() == 0 && crate::chars::spec_find(nested, "!["@, 0) is Some {
                        lemma_figure_walk_opts(s, i + 1, nested, cap, a, b);
                    } else {
                        lemma_figure_walk_opts(s, i + 1, img, cap, a, b);
                    }
                }
            },
            _ => {
                lemma_figure_walk_opts(s, i + 1, img, cap, a, b);
            },
        }
    }
}

proof fn lemma_dl_out_opts(n: AnnView, a: Options, b: Options)
    requires
        same_render_options(a, b),
    ensures
        spec_dl_out(n, a) == spec_dl_out(n, b),
    decreases n, 2int, 1int,
{
    match n {
        AnnView::Element { children, .. } => {
            lemma_dl_walk_opts(children, 0, "\n\n"@, false, a, b);
        },
        _ => {},
    }
}

proof fn lemma_dl_walk_opts(
    s: Seq<AnnView>,
    i: int,
    acc: Seq<char>,
    last_dt: bool,
    a: Options,
    b: Options,
)
    requires
        same_render_options(a, b),
    ensures
        spec_dl_walk(s, i, acc, last_dt, a) == spec_dl_walk(s, i, acc, last_dt, b),
    decreases s, 2int, s.len() - i,
{
    if !(i < 0 || i >= s.len()) {
        match s[i] {
            AnnView::Element { tag, .. } => {
                lemma_render_children_opts(s[i], a, b);
                let c = spec_trim(spec_render_children(s[i], a));
                if tag == "dt"@ && c.len() > 0 {
                    lemma_dl_walk_opts(
                        s,
                        i + 1,
                        acc + (if !last_dt && spec_trim(acc).len() > 0 {
                            seq!['\n']
                        } else {
                            Seq::<char>::empty()
                        }) + c + seq!['\n'],
                        true,
                        a,
                        b,
                    );
                } else if tag == "dd"@ && c.len() > 0 {
                    lemma_dl_walk_opts(
                        s,
                        i + 1,
                        acc + spec_dd_join(spec_lines(c), 0) + seq!['\n'],
                        false,
                        a,
                        b,
                    );
                } else {
                    lemma_dl_walk_opts(s, i + 1, acc, last_dt, a, b);
                }
            },
            _ => {
                lemma_dl_walk_opts(s, i + 1, acc, last_dt, a, b);
            },
        }
    }
}

} // verus!
