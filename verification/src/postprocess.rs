//! Post-processing for markdown output: link newline escaping, referenced
//! links, blank-line collapsing, and trimming.

use vstd::prelude::*;
use crate::chars::{
    chars_string, dec_chars, is_ws, is_ws_char, lemma_scan_while, push_chars, push_str_chars,
    scan_while, spec_dec, str_chars, sub_chars,
};
use crate::options::{LinkStyle, Options};
use crate::whitespace::{
    collapse_newlines_chars, spec_collapse_newlines, spec_lines, spec_trim, spec_trim_end,
    split_lines, trim_chars, trim_end_chars,
};

verus! {

/// What position `i` contributes to link-newline escaping, and the next
/// position: escaped brackets pass through, brackets track depth, and a
/// newline inside brackets becomes a backslash-n pair.
pub open spec fn spec_eln_from(s: Seq<char>, i: int, depth: nat) -> Seq<char>
    decreases s.len() - i,
{
    if i < 0 || i >= s.len() {
        Seq::empty()
    } else if s[i] == '\\' && i + 1 < s.len() && (s[i + 1] == '[' || s[i + 1] == ']') {
        seq![s[i], s[i + 1]] + spec_eln_from(s, i + 2, depth)
    } else if s[i] == '[' {
        seq!['['] + spec_eln_from(s, i + 1, crate::chars::sat_succ(depth))
    } else if s[i] == ']' {
        seq![']'] + spec_eln_from(s, i + 1, if depth > 0 {
            (depth - 1) as nat
        } else {
            0
        })
    } else if s[i] == '\n' && depth > 0 {
        seq!['\\', 'n'] + spec_eln_from(s, i + 1, depth)
    } else {
        seq![s[i]] + spec_eln_from(s, i + 1, depth)
    }
}

/// `s` with every newline that lies inside link brackets replaced by the
/// two characters `\` and `n`.
pub open spec fn spec_escape_link_newlines(s: Seq<char>) -> Seq<char> {
    spec_eln_from(s, 0, 0)
}

/// Link-newline escaping applied to a character vector.
#[verifier::loop_isolation(false)]
pub fn escape_link_newlines_chars(v: &Vec<char>) -> (out: Vec<char>)
    ensures
        out@ == spec_escape_link_newlines(v@),
{
    let mut out: Vec<char> = Vec::new();
    let mut depth: usize = 0;
    let mut i: usize = 0;
    while i < v.len()
        invariant
            0 <= i <= v@.len(),
            out@ + spec_eln_from(v@, i as int, depth as nat) == spec_eln_from(v@, 0, 0),
        decreases v@.len() - i,
    {
        let ghost before = out@;
        let ghost di = depth as nat;
        let ghost istart = i as int;
        let c = v[i];
        if c == '\\' && i + 1 < v.len() && (v[i + 1] == '[' || v[i + 1] == ']') {
            out.push(c);
            out.push(v[i + 1]);
            i = i + 2;
        } else if c == '[' {
            out.push('[');
            depth = crate::chars::sat_add_exec(depth, 1);
            i = i + 1;
        } else if c == ']' {
            out.push(']');
            if depth > 0 {
                depth = depth - 1;
            }
            i = i + 1;
        } else if c == '\n' && depth > 0 {
            out.push('\\');
            out.push('n');
            i = i + 1;
        } else {
            out.push(c);
            i = i + 1;
        }
        proof {
            assert(out@ + spec_eln_from(v@, i as int, depth as nat) =~= before + spec_eln_from(
                v@,
                istart,
                di,
            ));
        }
    }
    assert(out@ =~= out@ + spec_eln_from(v@, i as int, depth as nat));
    out
}

/// Escape newlines inside link text, handling escaped brackets.
pub fn escape_link_newlines(text: &str) -> (r: String)
    ensures
        r@ == spec_escape_link_newlines(text@),
{
    let v = str_chars(text);
    let out = escape_link_newlines_chars(&v);
    chars_string(&out)
}

/// One reference definition: a URL and an optional title, numbered by its
/// position.
pub struct RefDef {
    pub url: Vec<char>,
    pub title: Option<Vec<char>>,
}

/// The spec-level value of a reference definition.
pub struct RefV {
    pub url: Seq<char>,
    pub title: Option<Seq<char>>,
}

pub open spec fn ref_view(r: RefDef) -> RefV {
    RefV {
        url: r.url@,
        title: match r.title {
            Some(t) => Some(t@),
            None => None,
        },
    }
}

pub open spec fn refs_views(s: Seq<RefDef>) -> Seq<RefV> {
    Seq::new(s.len(), |i: int| ref_view(s[i]))
}

/// The inline link starting at position `i`, if the text there has the
/// shape `[text](url)` or `[text](url "title")` and is not preceded by `!`:
/// the text, URL, optional title, and the position after the closing
/// parenthesis.
pub open spec fn spec_link_match(s: Seq<char>, i: int) -> Option<
    (Seq<char>, Seq<char>, Option<Seq<char>>, int),
> {
    if !(0 <= i < s.len() && s[i] == '[' && !(i > 0 && s[i - 1] == '!')) {
        None
    } else {
        let j = scan_while(s, i + 1, |c: char| c != ']');
        if !(j > i + 1 && j < s.len() && s[j] == ']' && j + 1 < s.len() && s[j + 1] == '(') {
            None
        } else {
            let k = scan_while(s, j + 2, |c: char| c != ')' && !is_ws_char(c));
            if !(k > j + 2 && k < s.len()) {
                None
            } else if s[k] == ')' {
                Some((s.subrange(i + 1, j), s.subrange(j + 2, k), None, k + 1))
            } else if is_ws_char(s[k]) {
                let m = scan_while(s, k, |c: char| is_ws_char(c));
                if !(m < s.len() && s[m] == '"') {
                    None
                } else {
                    let t = scan_while(s, m + 1, |c: char| c != '"');
                    if !(t < s.len() && s[t] == '"' && t + 1 < s.len() && s[t + 1] == ')') {
                        None
                    } else {
                        Some(
                            (
                                s.subrange(i + 1, j),
                                s.subrange(j + 2, k),
                                Some(s.subrange(m + 1, t)),
                                t + 2,
                            ),
                        )
                    }
                }
            } else {
                None
            }
        }
    }
}

/// The position of `url` in the reference list, if already present.
pub open spec fn spec_ref_lookup(refs: Seq<RefV>, url: Seq<char>, i: int) -> Option<int>
    decreases refs.len() - i,
{
    if i < 0 || i >= refs.len() {
        None
    } else if refs[i].url == url {
        Some(i)
    } else {
        spec_ref_lookup(refs, url, i + 1)
    }
}

/// The body with inline links replaced by numbered references, and the
/// reference list gathered in first-seen order, from position `i` on.
pub open spec fn spec_links_from(s: Seq<char>, i: int, refs: Seq<RefV>) -> (Seq<char>, Seq<RefV>)
    decreases s.len() - i,
    via spec_links_from_dec
{
    if i < 0 || i >= s.len() {
        (Seq::empty(), refs)
    } else {
        match spec_link_match(s, i) {
            Some(m) => {
                let num: int = match spec_ref_lookup(refs, m.1, 0) {
                    Some(idx) => idx + 1,
                    None => refs.len() as int + 1,
                };
                let refs2 = match spec_ref_lookup(refs, m.1, 0) {
                    Some(idx) => refs,
                    None => refs.push(RefV { url: m.1, title: m.2 }),
                };
                let rest = spec_links_from(s, m.3, refs2);
                (
                    seq!['['] + m.0 + "]["@ + spec_dec(num as nat) + seq![']'] + rest.0,
                    rest.1,
                )
            },
            None => {
                let rest = spec_links_from(s, i + 1, refs);
                (seq![s[i]] + rest.0, rest.1)
            },
        }
    }
}

#[via_fn]
proof fn spec_links_from_dec(s: Seq<char>, i: int, refs: Seq<RefV>) {
    if 0 <= i < s.len() {
        lemma_link_match_end(s, i);
    }
}

/// A matched link ends after its start and within the text.
pub proof fn lemma_link_match_end(s: Seq<char>, i: int)
    requires
        0 <= i < s.len(),
    ensures
        spec_link_match(s, i) matches Some(m) ==> i < m.3 <= s.len(),
{
    if 0 <= i < s.len() && s[i] == '[' && !(i > 0 && s[i - 1] == '!') {
        lemma_scan_while(s, i + 1, |c: char| c != ']');
        let j = scan_while(s, i + 1, |c: char| c != ']');
        if j > i + 1 && j < s.len() && s[j] == ']' && j + 1 < s.len() && s[j + 1] == '(' {
            lemma_scan_while(s, j + 2, |c: char| c != ')' && !is_ws_char(c));
            let k = scan_while(s, j + 2, |c: char| c != ')' && !is_ws_char(c));
            if k > j + 2 && k < s.len() {
                lemma_scan_while(s, k, |c: char| is_ws_char(c));
                let m = scan_while(s, k, |c: char| is_ws_char(c));
                if m < s.len() {
                    lemma_scan_while(s, m + 1, |c: char| c != '"');
                }
            }
        }
    }
}

/// One reference definition line per reference, in first-seen order.
pub open spec fn spec_ref_defs(refs: Seq<RefV>, i: int) -> Seq<char>
    decreases refs.len() - i,
{
    if i < 0 || i >= refs.len() {
        Seq::empty()
    } else {
        seq!['['] + spec_dec((i + 1) as nat) + "]: "@ + refs[i].url + (match refs[i].title {
            Some(t) => " \""@ + t + seq!['"'],
            None => Seq::empty(),
        }) + seq!['\n'] + spec_ref_defs(refs, i + 1)
    }
}

/// `s` with inline links rewritten to numbered references and the
/// definitions appended; unchanged when `s` holds no links.
pub open spec fn spec_referenced_links(s: Seq<char>) -> Seq<char> {
    let r = spec_links_from(s, 0, Seq::empty());
    if r.1.len() == 0 {
        s
    } else {
        r.0 + "\n\n"@ + spec_ref_defs(r.1, 0)
    }
}

/// The reference list that referenced-link conversion of `s` builds.
pub open spec fn spec_reference_list(s: Seq<char>) -> Seq<RefV> {
    spec_links_from(s, 0, Seq::empty()).1
}

/// A reference list with pairwise distinct URLs.
pub open spec fn urls_distinct(refs: Seq<RefV>) -> bool {
    forall|a: int, b: int| 0 <= a < b < refs.len() ==> (#[trigger] refs[a]).url != (
    #[trigger] refs[b]).url
}

proof fn lemma_ref_lookup_none(refs: Seq<RefV>, url: Seq<char>, i: int)
    requires
        0 <= i <= refs.len(),
    ensures
        spec_ref_lookup(refs, url, i) is None ==> forall|a: int|
            i <= a < refs.len() ==> (#[trigger] refs[a]).url != url,
    decreases refs.len() - i,
{
    if i < refs.len() && refs[i].url != url {
        lemma_ref_lookup_none(refs, url, i + 1);
    }
}

proof fn lemma_links_from_distinct(s: Seq<char>, i: int, refs: Seq<RefV>)
    requires
        urls_distinct(refs),
    ensures
        urls_distinct(spec_links_from(s, i, refs).1),
    decreases s.len() - i,
{
    if !(i < 0 || i >= s.len()) {
        match spec_link_match(s, i) {
            Some(m) => {
                lemma_link_match_end(s, i);
                match spec_ref_lookup(refs, m.1, 0) {
                    Some(idx) => {
                        lemma_links_from_distinct(s, m.3, refs);
                    },
                    None => {
                        lemma_ref_lookup_none(refs, m.1, 0);
                        let refs2 = refs.push(RefV { url: m.1, title: m.2 });
                        assert(urls_distinct(refs2)) by {
                            assert(forall|a: int|
                                0 <= a < refs.len() ==> (#[trigger] refs2[a]) == refs[a]);
                        }
                        lemma_links_from_distinct(s, m.3, refs2);
                    },
                }
            },
            None => {
                lemma_links_from_distinct(s, i + 1, refs);
            },
        }
    }
}

/// Converting to referenced links never records the same URL twice: two
/// links with one URL share one reference definition.
pub proof fn lemma_reference_urls_distinct(s: Seq<char>)
    ensures
        urls_distinct(spec_reference_list(s)),
{
    lemma_links_from_distinct(s, 0, Seq::empty());
}

/// Tries to match an inline link at position `i`.
#[verifier::loop_isolation(false)]
fn link_match_exec(v: &Vec<char>, i: usize) -> (r: Option<(Vec<char>, Vec<char>, Option<Vec<char>>, usize)>)
    requires
        i < v@.len(),
    ensures
        match r {
            Some(m) => spec_link_match(v@, i as int) == Some(
                (
                    m.0@,
                    m.1@,
                    match m.2 {
                        Some(t) => Some(t@),
                        None => None,
                    },
                    m.3 as int,
                ),
            ) && i < m.3 <= v@.len(),
            None => spec_link_match(v@, i as int) is None,
        },
{
    proof {
        lemma_link_match_end(v@, i as int);
    }
    let n = v.len();
    if !(v[i] == '[' && !(i > 0 && v[i - 1] == '!')) {
        return None;
    }
    assert(i < n);
    proof {
        lemma_scan_while(v@, i + 1, |c: char| c != ']');
    }
    let mut j: usize = i + 1;
    while j < v.len() && v[j] != ']'
        invariant
            i + 1 <= j <= v@.len(),
            scan_while(v@, i + 1, |c: char| c != ']') == scan_while(v@, j as int, |c: char| c != ']'),
        decreases v@.len() - j,
    {
        j = j + 1;
    }
    if !(j > i + 1 && j < v.len() && j + 1 < v.len() && v[j + 1] == '(') {
        return None;
    }
    proof {
        lemma_scan_while(v@, j + 2, |c: char| c != ')' && !is_ws_char(c));
    }
    let mut k: usize = j + 2;
    while k < v.len() && v[k] != ')' && !is_ws(v[k])
        invariant
            j + 2 <= k <= v@.len(),
            scan_while(v@, j + 2, |c: char| c != ')' && !is_ws_char(c)) == scan_while(
                v@,
                k as int,
                |c: char| c != ')' && !is_ws_char(c),
            ),
        decreases v@.len() - k,
    {
        k = k + 1;
    }
    if !(k > j + 2 && k < v.len()) {
        return None;
    }
    let text = sub_chars(v, i + 1, j);
    let url = sub_chars(v, j + 2, k);
    if v[k] == ')' {
        return Some((text, url, None, k + 1));
    }
    if !is_ws(v[k]) {
        return None;
    }
    proof {
        lemma_scan_while(v@, k as int, |c: char| is_ws_char(c));
    }
    let mut m: usize = k;
    while m < v.len() && is_ws(v[m])
        invariant
            k <= m <= v@.len(),
            scan_while(v@, k as int, |c: char| is_ws_char(c)) == scan_while(
                v@,
                m as int,
                |c: char| is_ws_char(c),
            ),
        decreases v@.len() - m,
    {
        m = m + 1;
    }
    if !(m < v.len() && v[m] == '"') {
        return None;
    }
    proof {
        lemma_scan_while(v@, m + 1, |c: char| c != '"');
    }
    let mut t: usize = m + 1;
    while t < v.len() && v[t] != '"'
        invariant
            m + 1 <= t <= v@.len(),
            scan_while(v@, m + 1, |c: char| c != '"') == scan_while(v@, t as int, |c: char| c != '"'),
        decreases v@.len() - t,
    {
        t = t + 1;
    }
    if !(t < v.len() && t + 1 < v.len() && v[t + 1] == ')') {
        return None;
    }
    let title = sub_chars(v, m + 1, t);
    Some((text, url, Some(title), t + 2))
}

fn ref_lookup_exec(refs: &Vec<RefDef>, url: &Vec<char>) -> (r: Option<usize>)
    ensures
        match r {
            Some(idx) => spec_ref_lookup(refs_views(refs@), url@, 0) == Some(idx as int) && idx
                < refs@.len(),
            None => spec_ref_lookup(refs_views(refs@), url@, 0) is None,
        },
{
    let ghost rv = refs_views(refs@);
    let mut i: usize = 0;
    while i < refs.len()
        invariant
            0 <= i <= refs@.len(),
            rv == refs_views(refs@),
            rv.len() == refs@.len(),
            spec_ref_lookup(rv, url@, 0) == spec_ref_lookup(rv, url@, i as int),
        decreases refs@.len() - i,
    {
        proof {
            assert(rv[i as int] == ref_view(refs@[i as int]));
        }
        if crate::chars::chars_eq(&refs[i].url, url) {
            return Some(i);
        }
        i = i + 1;
    }
    None
}

/// Convert inline links to referenced style; the URL is the key, and the
/// first occurrence fixes the number.
#[verifier::loop_isolation(false)]
#[verifier::rlimit(60)]
pub fn convert_to_referenced_links_chars(v: &Vec<char>) -> (out: Vec<char>)
    ensures
        out@ == spec_referenced_links(v@),
{
    let mut body: Vec<char> = Vec::new();
    let mut refs: Vec<RefDef> = Vec::new();
    let mut i: usize = 0;
    assert(refs_views(refs@) =~= Seq::<RefV>::empty());
    while i < v.len()
        invariant
            0 <= i <= v@.len(),
            spec_links_from(v@, 0, Seq::empty()).0 == body@ + spec_links_from(
                v@,
                i as int,
                refs_views(refs@),
            ).0,
            spec_links_from(v@, 0, Seq::empty()).1 == spec_links_from(
                v@,
                i as int,
                refs_views(refs@),
            ).1,
        decreases v@.len() - i,
    {
        let ghost before = body@;
        let ghost rv0 = refs_views(refs@);
        let ghost istart = i as int;
        match link_match_exec(v, i) {
            Some(m) => {
                let (text, url, title, endp) = m;
                let num: usize = match ref_lookup_exec(&refs, &url) {
                    Some(idx) => {
                        let rl = refs.len();
                        idx + 1
                    },
                    None => {
                        let nr = RefDef { url, title };
                        proof {
                            assert(refs_views(refs@.push(nr)) =~~= refs_views(refs@).push(ref_view(
                                nr,
                            )));
                        }
                        refs.push(nr);
                        refs.len()
                    },
                };
                body.push('[');
                push_chars(&mut body, &text);
                push_str_chars(&mut body, "][");
                let nd = dec_chars(num);
                push_chars(&mut body, &nd);
                body.push(']');
                i = endp;
                proof {
                    assert(body@ + spec_links_from(v@, i as int, refs_views(refs@)).0 =~= before
                        + spec_links_from(v@, istart, rv0).0);
                }
            },
            None => {
                body.push(v[i]);
                i = i + 1;
                proof {
                    assert(body@ + spec_links_from(v@, i as int, refs_views(refs@)).0 =~= before
                        + spec_links_from(v@, istart, rv0).0);
                }
            },
        }
    }
    if refs.len() == 0 {
        let mut out: Vec<char> = Vec::new();
        push_chars(&mut out, v);
        assert(out@ =~= spec_referenced_links(v@));
        return out;
    }
    let ghost rv = refs_views(refs@);
    proof {
        assert(body@ =~= body@ + spec_links_from(v@, i as int, rv).0);
    }
    let mut out = body;
    push_str_chars(&mut out, "\n\n");
    let ghost defs_start = out@;
    let mut d: usize = 0;
    while d < refs.len()
        invariant
            0 <= d <= refs@.len(),
            rv == refs_views(refs@),
            rv.len() == refs@.len(),
            out@ + spec_ref_defs(rv, d as int) == defs_start + spec_ref_defs(rv, 0),
        decreases refs@.len() - d,
    {
        let ghost before = out@;
        proof {
            assert(rv[d as int] == ref_view(refs@[d as int]));
        }
        out.push('[');
        let nd = dec_chars(d + 1);
        push_chars(&mut out, &nd);
        push_str_chars(&mut out, "]: ");
        push_chars(&mut out, &refs[d].url);
        match &refs[d].title {
            Some(t) => {
                push_str_chars(&mut out, " \"");
                push_chars(&mut out, t);
                out.push('"');
            },
            None => {},
        }
        out.push('\n');
        d = d + 1;
        proof {
            assert(out@ + spec_ref_defs(rv, d as int) =~= before + spec_ref_defs(rv, d - 1));
        }
    }
    assert(out@ =~= spec_referenced_links(v@));
    out
}

/// The lines of `s`, each without trailing whitespace, joined by newlines.
pub open spec fn spec_ttw_join(ls: Seq<Seq<char>>, i: int) -> Seq<char>
    decreases ls.len() - i,
{
    if i < 0 || i >= ls.len() {
        Seq::empty()
    } else {
        spec_trim_end(ls[i]) + (if i < ls.len() - 1 {
            seq!['\n']
        } else {
            Seq::empty()
        }) + spec_ttw_join(ls, i + 1)
    }
}

/// `s` with trailing whitespace removed from every line.
pub open spec fn spec_trim_trailing(s: Seq<char>) -> Seq<char> {
    spec_ttw_join(spec_lines(s), 0)
}

/// Per-line trailing-whitespace removal applied to a character vector.
#[verifier::loop_isolation(false)]
pub fn trim_trailing_chars(v: &Vec<char>) -> (out: Vec<char>)
    ensures
        out@ == spec_trim_trailing(v@),
{
    let ls = split_lines(v);
    let ghost lv = ls.deep_view();
    let mut out: Vec<char> = Vec::new();
    let mut i: usize = 0;
    while i < ls.len()
        invariant
            0 <= i <= ls@.len(),
            lv == ls.deep_view(),
            lv.len() == ls@.len(),
            out@ + spec_ttw_join(lv, i as int) == spec_ttw_join(lv, 0),
        decreases ls@.len() - i,
    {
        let ghost before = out@;
        proof {
            assert(lv[i as int] == ls@[i as int]@);
        }
        let te = trim_end_chars(&ls[i]);
        push_chars(&mut out, &te);
        if i < ls.len() - 1 {
            out.push('\n');
        }
        i = i + 1;
        proof {
            assert(out@ + spec_ttw_join(lv, i as int) =~= before + spec_ttw_join(lv, i - 1));
        }
    }
    assert(out@ =~= spec_trim_trailing(v@));
    out
}

/// Trim trailing whitespace from each line.
pub fn trim_trailing_whitespace(text: &str) -> (r: String)
    ensures
        r@ == spec_trim_trailing(text@),
{
    let v = str_chars(text);
    let out = trim_trailing_chars(&v);
    chars_string(&out)
}

/// The whole postprocessing pipeline: escape newlines in link text, convert
/// to referenced links when configured, collapse blank-line runs, trim line
/// ends, and trim the document.
pub open spec fn spec_postprocess(s: Seq<char>, opts: Options) -> Seq<char> {
    let s1 = spec_escape_link_newlines(s);
    let s2 = if opts.link_style == LinkStyle::Referenced {
        spec_referenced_links(s1)
    } else {
        s1
    };
    spec_trim(spec_trim_trailing(spec_collapse_newlines(s2)))
}

/// Postprocessing applied to a character vector.
pub fn postprocess_chars(v: &Vec<char>, options: &Options) -> (out: Vec<char>)
    ensures
        out@ == spec_postprocess(v@, *options),
{
    let s1 = escape_link_newlines_chars(v);
    let s2 = if options.link_style == LinkStyle::Referenced {
        convert_to_referenced_links_chars(&s1)
    } else {
        s1
    };
    let s3 = collapse_newlines_chars(&s2);
    let s4 = trim_trailing_chars(&s3);
    trim_chars(&s4)
}

/// Post-process the markdown output.
pub fn postprocess(markdown: String, options: &Options) -> (r: String)
    ensures
        r@ == spec_postprocess(markdown@, *options),
{
    let v = str_chars(markdown.as_str());
    let out = postprocess_chars(&v, options);
    chars_string(&out)
}

} // verus!
