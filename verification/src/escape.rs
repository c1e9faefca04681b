//! Markdown escaping and URL utilities.

use vstd::prelude::*;
use crate::chars::{
    chars_string, find_char_from, find_str_from, lemma_find_char_some, lemma_find_some,
    lemma_rfind_char_some, push_chars, push_str_chars, repeat_char, rfind_char, seq_starts_with,
    spec_find, spec_find_char, spec_repeat, spec_rfind_char, spec_trim_end_char, starts_with_str,
    str_chars, sub_chars, trim_end_char,
};

verus! {

/// Markdown metacharacters that [`escape_markdown`] protects.
pub open spec fn is_md_special(c: char) -> bool {
    ||| c == '\\'
    ||| c == '`'
    ||| c == '*'
    ||| c == '_'
    ||| c == '{'
    ||| c == '}'
    ||| c == '['
    ||| c == ']'
    ||| c == '('
    ||| c == ')'
    ||| c == '#'
    ||| c == '+'
    ||| c == '-'
    ||| c == '.'
    ||| c == '!'
    ||| c == '|'
}

/// The escaped form of one character under Markdown escaping.
pub open spec fn md_escaped(c: char) -> Seq<char> {
    if is_md_special(c) {
        seq!['\\', c]
    } else {
        seq![c]
    }
}

pub open spec fn spec_escape_markdown_prefix(s: Seq<char>, n: int) -> Seq<char>
    decreases n,
{
    if n <= 0 {
        Seq::empty()
    } else {
        spec_escape_markdown_prefix(s, n - 1) + md_escaped(s[n - 1])
    }
}

/// `s` with every Markdown metacharacter preceded by a backslash.
pub open spec fn spec_escape_markdown(s: Seq<char>) -> Seq<char> {
    spec_escape_markdown_prefix(s, s.len() as int)
}

/// Escape special markdown characters in text.
pub fn escape_markdown(text: &str) -> (r: String)
    ensures
        r@ == spec_escape_markdown(text@),
{
    let v = str_chars(text);
    let mut out: Vec<char> = Vec::new();
    let mut i: usize = 0;
    while i < v.len()
        invariant
            v@ == text@,
            i <= v@.len(),
            out@ == spec_escape_markdown_prefix(text@, i as int),
        decreases v@.len() - i,
    {
        let c = v[i];
        if c == '\\' || c == '`' || c == '*' || c == '_' || c == '{' || c == '}' || c == '['
            || c == ']' || c == '(' || c == ')' || c == '#' || c == '+' || c == '-' || c == '.'
            || c == '!' || c == '|' {
            out.push('\\');
            out.push(c);
        } else {
            out.push(c);
        }
        i = i + 1;
        assert(out@ =~= spec_escape_markdown_prefix(text@, i as int));
    }
    chars_string(&out)
}

/// The escaped form of one character inside a quoted link title.
pub open spec fn title_escaped(c: char) -> Seq<char> {
    if c == '"' || c == '\\' {
        seq!['\\', c]
    } else {
        seq![c]
    }
}

pub open spec fn spec_escape_title_prefix(s: Seq<char>, n: int) -> Seq<char>
    decreases n,
{
    if n <= 0 {
        Seq::empty()
    } else {
        spec_escape_title_prefix(s, n - 1) + title_escaped(s[n - 1])
    }
}

/// `s` with every quote and backslash preceded by a backslash.
pub open spec fn spec_escape_title(s: Seq<char>) -> Seq<char> {
    spec_escape_title_prefix(s, s.len() as int)
}

/// Escaping applied to a character vector; see [`escape_title`].
pub fn escape_title_chars(v: &Vec<char>) -> (out: Vec<char>)
    ensures
        out@ == spec_escape_title(v@),
{
    let mut out: Vec<char> = Vec::new();
    let mut i: usize = 0;
    while i < v.len()
        invariant
            i <= v@.len(),
            out@ == spec_escape_title_prefix(v@, i as int),
        decreases v@.len() - i,
    {
        let c = v[i];
        if c == '"' || c == '\\' {
            out.push('\\');
            out.push(c);
        } else {
            out.push(c);
        }
        i = i + 1;
        assert(out@ =~= spec_escape_title_prefix(v@, i as int));
    }
    out
}

/// Escape characters in link/image titles (within quotes).
pub fn escape_title(text: &str) -> (r: String)
    ensures
        r@ == spec_escape_title(text@),
{
    let v = str_chars(text);
    let out = escape_title_chars(&v);
    chars_string(&out)
}

/// The escaped form of one character inside a link URL.
pub open spec fn url_escaped(c: char) -> Seq<char> {
    if c == '(' {
        seq!['%', '2', '8']
    } else if c == ')' {
        seq!['%', '2', '9']
    } else if c == ' ' {
        seq!['%', '2', '0']
    } else {
        seq![c]
    }
}

pub open spec fn spec_escape_url_prefix(s: Seq<char>, n: int) -> Seq<char>
    decreases n,
{
    if n <= 0 {
        Seq::empty()
    } else {
        spec_escape_url_prefix(s, n - 1) + url_escaped(s[n - 1])
    }
}

/// `s` with parentheses and spaces percent-encoded.
pub open spec fn spec_escape_url(s: Seq<char>) -> Seq<char> {
    spec_escape_url_prefix(s, s.len() as int)
}

/// Escaping applied to a character vector; see [`escape_url`].
pub fn escape_url_chars(v: &Vec<char>) -> (out: Vec<char>)
    ensures
        out@ == spec_escape_url(v@),
{
    let mut out: Vec<char> = Vec::new();
    let mut i: usize = 0;
    while i < v.len()
        invariant
            i <= v@.len(),
            out@ == spec_escape_url_prefix(v@, i as int),
        decreases v@.len() - i,
    {
        let c = v[i];
        if c == '(' {
            out.push('%');
            out.push('2');
            out.push('8');
        } else if c == ')' {
            out.push('%');
            out.push('2');
            out.push('9');
        } else if c == ' ' {
            out.push('%');
            out.push('2');
            out.push('0');
        } else {
            out.push(c);
        }
        i = i + 1;
        assert(out@ =~= spec_escape_url_prefix(v@, i as int));
    }
    out
}

/// Escape characters in link URLs.
pub fn escape_url(url: &str) -> (r: String)
    ensures
        r@ == spec_escape_url(url@),
{
    let v = str_chars(url);
    let out = escape_url_chars(&v);
    chars_string(&out)
}

/// The escaped form of one character inside a table cell.
pub open spec fn cell_escaped(c: char) -> Seq<char> {
    if c == '|' {
        seq!['\\', '|']
    } else {
        seq![c]
    }
}

pub open spec fn spec_escape_table_cell_prefix(s: Seq<char>, n: int) -> Seq<char>
    decreases n,
{
    if n <= 0 {
        Seq::empty()
    } else {
        spec_escape_table_cell_prefix(s, n - 1) + cell_escaped(s[n - 1])
    }
}

/// `s` with every pipe preceded by a backslash.
pub open spec fn spec_escape_table_cell(s: Seq<char>) -> Seq<char> {
    spec_escape_table_cell_prefix(s, s.len() as int)
}

/// Escaping applied to a character vector; see [`escape_table_cell`].
pub fn escape_table_cell_chars(v: &Vec<char>) -> (out: Vec<char>)
    ensures
        out@ == spec_escape_table_cell(v@),
{
    let mut out: Vec<char> = Vec::new();
    let mut i: usize = 0;
    while i < v.len()
        invariant
            i <= v@.len(),
            out@ == spec_escape_table_cell_prefix(v@, i as int),
        decreases v@.len() - i,
    {
        let c = v[i];
        if c == '|' {
            out.push('\\');
            out.push('|');
        } else {
            out.push(c);
        }
        i = i + 1;
        assert(out@ =~= spec_escape_table_cell_prefix(v@, i as int));
    }
    out
}

/// Escape pipe characters for table cells.
pub fn escape_table_cell(text: &str) -> (r: String)
    ensures
        r@ == spec_escape_table_cell(text@),
{
    let v = str_chars(text);
    let out = escape_table_cell_chars(&v);
    chars_string(&out)
}

/// The escaped form of one character inside an HTML attribute value.
pub open spec fn attr_escaped(c: char) -> Seq<char> {
    if c == '&' {
        seq!['&', 'a', 'm', 'p', ';']
    } else if c == '"' {
        seq!['&', 'q', 'u', 'o', 't', ';']
    } else if c == '<' {
        seq!['&', 'l', 't', ';']
    } else if c == '>' {
        seq!['&', 'g', 't', ';']
    } else {
        seq![c]
    }
}

pub open spec fn spec_escape_attr_prefix(s: Seq<char>, n: int) -> Seq<char>
    decreases n,
{
    if n <= 0 {
        Seq::empty()
    } else {
        spec_escape_attr_prefix(s, n - 1) + attr_escaped(s[n - 1])
    }
}

/// `s` with HTML attribute metacharacters replaced by entity references.
pub open spec fn spec_escape_attr(s: Seq<char>) -> Seq<char> {
    spec_escape_attr_prefix(s, s.len() as int)
}

/// Escaping applied to a character vector; see [`escape_attr`].
pub fn escape_attr_chars(v: &Vec<char>) -> (out: Vec<char>)
    ensures
        out@ == spec_escape_attr(v@),
{
    let mut out: Vec<char> = Vec::new();
    let mut i: usize = 0;
    while i < v.len()
        invariant
            i <= v@.len(),
            out@ == spec_escape_attr_prefix(v@, i as int),
        decreases v@.len() - i,
    {
        let c = v[i];
        if c == '&' {
            push_str_chars(&mut out, "&amp;");
            proof { reveal_strlit("&amp;"); }
        } else if c == '"' {
            push_str_chars(&mut out, "&quot;");
            proof { reveal_strlit("&quot;"); }
        } else if c == '<' {
            push_str_chars(&mut out, "&lt;");
            proof { reveal_strlit("&lt;"); }
        } else if c == '>' {
            push_str_chars(&mut out, "&gt;");
            proof { reveal_strlit("&gt;"); }
        } else {
            out.push(c);
        }
        i = i + 1;
        assert(out@ =~= spec_escape_attr_prefix(v@, i as int));
    }
    out
}

/// Escape special characters in HTML attribute values.
pub fn escape_attr(text: &str) -> (r: String)
    ensures
        r@ == spec_escape_attr(text@),
{
    let v = str_chars(text);
    let out = escape_attr_chars(&v);
    chars_string(&out)
}

/// The pair (longest run seen so far, current trailing run) of `c` in the
/// first `n` characters of `s`.
pub open spec fn spec_run_state(s: Seq<char>, c: char, n: int) -> (nat, nat)
    decreases n,
{
    if n <= 0 {
        (0nat, 0nat)
    } else {
        let prev = spec_run_state(s, c, n - 1);
        if s[n - 1] == c {
            let cur = prev.1 + 1;
            (if cur > prev.0 {
                cur
            } else {
                prev.0
            }, cur)
        } else {
            (prev.0, 0nat)
        }
    }
}

/// The length of the longest run of `c` in `s`.
pub open spec fn spec_max_run(s: Seq<char>, c: char) -> nat {
    spec_run_state(s, c, s.len() as int).0
}

proof fn lemma_run_state_bounded(s: Seq<char>, c: char, n: int)
    requires
        0 <= n <= s.len(),
    ensures
        spec_run_state(s, c, n).0 <= n,
        spec_run_state(s, c, n).1 <= n,
    decreases n,
{
    if n > 0 {
        lemma_run_state_bounded(s, c, n - 1);
    }
}

/// The longest run of `c` in `v`, computed at runtime.
pub fn max_run_chars(v: &Vec<char>, c: char) -> (r: usize)
    ensures
        r == spec_max_run(v@, c),
{
    let mut mx: usize = 0;
    let mut cur: usize = 0;
    let mut i: usize = 0;
    while i < v.len()
        invariant
            i <= v@.len(),
            mx == spec_run_state(v@, c, i as int).0,
            cur == spec_run_state(v@, c, i as int).1,
        decreases v@.len() - i,
    {
        proof {
            lemma_run_state_bounded(v@, c, i as int);
        }
        if v[i] == c {
            cur = cur + 1;
            if cur > mx {
                mx = cur;
            }
        } else {
            cur = 0;
        }
        i = i + 1;
    }
    mx
}

/// The number of backticks [`calculate_code_backticks`] chooses.
pub open spec fn spec_code_backticks(s: Seq<char>) -> nat {
    if spec_max_run(s, '`') == 0 {
        1
    } else {
        crate::chars::sat_succ(spec_max_run(s, '`'))
    }
}

/// The number of backticks needed to delimit `code` as inline code: one more
/// than the longest backtick run, and at least one.
pub fn calculate_code_backticks(code: &str) -> (r: usize)
    ensures
        r == spec_code_backticks(code@),
{
    let v = str_chars(code);
    let mx = max_run_chars(&v, '`');
    if mx == 0 {
        1
    } else if mx == usize::MAX {
        mx
    } else {
        mx + 1
    }
}

/// The fence length for a code block: one more than the longest run of the
/// fence character, and at least three.
pub open spec fn spec_fence_len(code: Seq<char>, c: char) -> nat {
    if crate::chars::sat_succ(spec_max_run(code, c)) > 3 {
        crate::chars::sat_succ(spec_max_run(code, c))
    } else {
        3
    }
}

/// The fence string for a code block with content `code`.
pub open spec fn spec_fence(code: Seq<char>, c: char) -> Seq<char> {
    spec_repeat(c, spec_fence_len(code, c))
}

/// The fence characters needed around `code`, as a vector.
pub fn calculate_fence_chars(code: &Vec<char>, preferred: char) -> (r: Vec<char>)
    ensures
        r@ == spec_fence(code@, preferred),
{
    let mx = max_run_chars(code, preferred);
    let succ: usize = if mx == usize::MAX {
        mx
    } else {
        mx + 1
    };
    let n = if succ > 3 {
        succ
    } else {
        3
    };
    repeat_char(preferred, n)
}

/// The fence string needed around `code`.
pub fn calculate_fence(code: &str, preferred: char) -> (r: String)
    ensures
        r@ == spec_fence(code@, preferred),
{
    let v = str_chars(code);
    let out = calculate_fence_chars(&v, preferred);
    chars_string(&out)
}

/// Whether `rel` is already an absolute URL (or another scheme that is kept
/// as-is).
pub open spec fn spec_url_is_absolute(rel: Seq<char>) -> bool {
    ||| seq_starts_with(rel, "http://"@)
    ||| seq_starts_with(rel, "https://"@)
    ||| seq_starts_with(rel, "//"@)
    ||| seq_starts_with(rel, "mailto:"@)
    ||| seq_starts_with(rel, "tel:"@)
    ||| seq_starts_with(rel, "data:"@)
}

/// `rel` resolved against `base`: absolute URLs pass through, absolute paths
/// attach to the origin of `base`, fragments and queries append to `base`,
/// and relative paths attach to the directory of `base`.
pub open spec fn spec_resolve_url(base: Seq<char>, rel: Seq<char>) -> Seq<char> {
    if spec_url_is_absolute(rel) {
        rel
    } else if rel.len() > 0 && rel[0] == '/' {
        match spec_find(base, "://"@, 0) {
            Some(k) => match spec_find_char(base, '/', k + 3) {
                Some(j) => base.subrange(0, j) + rel,
                None => base + rel,
            },
            None => base + rel,
        }
    } else if rel.len() > 0 && (rel[0] == '#' || rel[0] == '?') {
        spec_trim_end_char(base, '/') + rel
    } else if base.len() > 0 && base.last() == '/' {
        base + rel
    } else {
        match spec_rfind_char(base, '/', base.len() as int) {
            Some(j) => base.subrange(0, j) + seq!['/'] + rel,
            None => base + seq!['/'] + rel,
        }
    }
}

/// URL resolution applied to character vectors; see [`resolve_url`].
pub fn resolve_url_chars(base: &Vec<char>, rel: &Vec<char>) -> (out: Vec<char>)
    ensures
        out@ == spec_resolve_url(base@, rel@),
{
    if starts_with_str(rel, "http://") || starts_with_str(rel, "https://")
        || starts_with_str(rel, "//") || starts_with_str(rel, "mailto:")
        || starts_with_str(rel, "tel:") || starts_with_str(rel, "data:") {
        let mut out: Vec<char> = Vec::new();
        push_chars(&mut out, rel);
        assert(out@ =~= rel@);
        return out;
    }
    if rel.len() > 0 && rel[0] == '/' {
        let mut out: Vec<char> = Vec::new();
        match find_str_from(base, "://", 0) {
            Some(k) => {
                let bl = base.len();
                proof {
                    reveal_strlit("://");
                    lemma_find_some(base@, "://"@, 0);
                }
                assert(k + 3 <= bl);
                match find_char_from(base, '/', k + 3) {
                    Some(j) => {
                        proof {
                            lemma_find_char_some(base@, '/', k + 3);
                        }
                        let mut out = sub_chars(base, 0, j);
                        push_chars(&mut out, rel);
                        return out;
                    },
                    None => {
                        push_chars(&mut out, base);
                        push_chars(&mut out, rel);
                        assert(out@ =~= base@ + rel@);
                        return out;
                    },
                }
            },
            None => {
                push_chars(&mut out, base);
                push_chars(&mut out, rel);
                assert(out@ =~= base@ + rel@);
                return out;
            },
        }
    }
    if rel.len() > 0 && (rel[0] == '#' || rel[0] == '?') {
        let mut out = trim_end_char(base, '/');
        push_chars(&mut out, rel);
        return out;
    }
    if base.len() > 0 && base[base.len() - 1] == '/' {
        let mut out: Vec<char> = Vec::new();
        push_chars(&mut out, base);
        push_chars(&mut out, rel);
        assert(out@ =~= base@ + rel@);
        return out;
    }
    match rfind_char(base, '/') {
        Some(j) => {
            proof {
                lemma_rfind_char_some(base@, '/', base@.len() as int);
            }
            let mut out = sub_chars(base, 0, j);
            out.push('/');
            push_chars(&mut out, rel);
            assert(out@ =~= base@.subrange(0, j as int) + seq!['/'] + rel@);
            out
        },
        None => {
            let mut out: Vec<char> = Vec::new();
            push_chars(&mut out, base);
            out.push('/');
            push_chars(&mut out, rel);
            assert(out@ =~= base@ + seq!['/'] + rel@);
            out
        },
    }
}

/// Resolve a relative URL against a base URL.
pub fn resolve_url(base: &str, relative: &str) -> (r: String)
    ensures
        r@ == spec_resolve_url(base@, relative@),
{
    let b = str_chars(base);
    let rl = str_chars(relative);
    let out = resolve_url_chars(&b, &rl);
    chars_string(&out)
}

/// The chosen fence is always at least three characters and strictly longer
/// than any run of the fence character inside the code; the length of a run
/// is bounded by the machine only.
pub proof fn lemma_fence_safety(code: Seq<char>, c: char)
    requires
        spec_max_run(code, c) < usize::MAX,
    ensures
        spec_fence(code, c).len() >= 3,
        spec_fence(code, c).len() > spec_max_run(code, c),
{
}

} // verus!
