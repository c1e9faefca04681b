//! Whitespace normalization utilities.

use vstd::prelude::*;
use vstd::string::StrSliceExecFns;
use crate::chars::{chars_string, is_ws, is_ws_char, spec_find_char, str_chars};

verus! {

/// Whether every character of `s` is whitespace.
pub open spec fn spec_all_ws(s: Seq<char>) -> bool {
    forall|i: int| 0 <= i < s.len() ==> is_ws_char(#[trigger] s[i])
}

/// Check if a string contains only whitespace.
pub fn is_whitespace_only(text: &str) -> (r: bool)
    ensures
        r == spec_all_ws(text@),
{
    let n = text.unicode_len();
    let mut i: usize = 0;
    while i < n
        invariant
            n == text@.len(),
            i <= n,
            forall|j: int| 0 <= j < i ==> is_ws_char(#[trigger] text@[j]),
        decreases n - i,
    {
        if !is_ws(text.get_char(i)) {
            return false;
        }
        i = i + 1;
    }
    true
}

/// Whether `c` is collapsed by inline normalization (space or tab).
pub open spec fn is_inline_ws(c: char) -> bool {
    c == ' ' || c == '\t'
}

/// What position `i` of `s` contributes to the inline-normalized text: a
/// space at the start of a space/tab run, nothing later in the run, and the
/// character itself otherwise.
pub open spec fn inline_contrib(s: Seq<char>, i: int) -> Seq<char> {
    if is_inline_ws(s[i]) {
        if i > 0 && is_inline_ws(s[i - 1]) {
            Seq::empty()
        } else {
            seq![' ']
        }
    } else {
        seq![s[i]]
    }
}

pub open spec fn spec_normalize_inline_prefix(s: Seq<char>, n: int) -> Seq<char>
    decreases n,
{
    if n <= 0 {
        Seq::empty()
    } else {
        spec_normalize_inline_prefix(s, n - 1) + inline_contrib(s, n - 1)
    }
}

/// `s` with every run of spaces and tabs collapsed to a single space;
/// newlines are kept.
pub open spec fn spec_normalize_inline(s: Seq<char>) -> Seq<char> {
    spec_normalize_inline_prefix(s, s.len() as int)
}

/// Inline normalization applied to a character vector.
pub fn normalize_inline_chars(v: &Vec<char>) -> (out: Vec<char>)
    ensures
        out@ == spec_normalize_inline(v@),
{
    let mut out: Vec<char> = Vec::new();
    let mut i: usize = 0;
    while i < v.len()
        invariant
            i <= v@.len(),
            out@ == spec_normalize_inline_prefix(v@, i as int),
        decreases v@.len() - i,
    {
        let c = v[i];
        if c == ' ' || c == '\t' {
            if !(i > 0 && (v[i - 1] == ' ' || v[i - 1] == '\t')) {
                out.push(' ');
            }
        } else {
            out.push(c);
        }
        i = i + 1;
        assert(out@ =~= spec_normalize_inline_prefix(v@, i as int));
    }
    out
}

/// Normalize whitespace for inline elements: collapse space/tab runs,
/// preserve newlines.
pub fn normalize_inline_whitespace(text: &str) -> (r: String)
    ensures
        r@ == spec_normalize_inline(text@),
{
    let v = str_chars(text);
    let out = normalize_inline_chars(&v);
    chars_string(&out)
}

/// What position `i` of `s` contributes to the block-normalized text: a
/// space at the start of a whitespace run, nothing later in the run, and the
/// character itself otherwise.
pub open spec fn block_contrib(s: Seq<char>, i: int) -> Seq<char> {
    if is_ws_char(s[i]) {
        if i > 0 && is_ws_char(s[i - 1]) {
            Seq::empty()
        } else {
            seq![' ']
        }
    } else {
        seq![s[i]]
    }
}

pub open spec fn spec_normalize_block_prefix(s: Seq<char>, n: int) -> Seq<char>
    decreases n,
{
    if n <= 0 {
        Seq::empty()
    } else {
        spec_normalize_block_prefix(s, n - 1) + block_contrib(s, n - 1)
    }
}

/// `s` with every run of whitespace (newlines included) collapsed to a
/// single space.
pub open spec fn spec_normalize_block(s: Seq<char>) -> Seq<char> {
    spec_normalize_block_prefix(s, s.len() as int)
}

/// Block normalization applied to a character vector.
pub fn normalize_block_chars(v: &Vec<char>) -> (out: Vec<char>)
    ensures
        out@ == spec_normalize_block(v@),
{
    let mut out: Vec<char> = Vec::new();
    let mut i: usize = 0;
    while i < v.len()
        invariant
            i <= v@.len(),
            out@ == spec_normalize_block_prefix(v@, i as int),
        decreases v@.len() - i,
    {
        let c = v[i];
        if is_ws(c) {
            if !(i > 0 && is_ws(v[i - 1])) {
                out.push(' ');
            }
        } else {
            out.push(c);
        }
        i = i + 1;
        assert(out@ =~= spec_normalize_block_prefix(v@, i as int));
    }
    out
}

/// Normalize whitespace for block elements: collapse all whitespace runs,
/// newlines included, to single spaces.
pub fn normalize_block_whitespace(text: &str) -> (r: String)
    ensures
        r@ == spec_normalize_block(text@),
{
    let v = str_chars(text);
    let out = normalize_block_chars(&v);
    chars_string(&out)
}

/// Text in which every whitespace character is a space that does not follow
/// another whitespace character.
pub open spec fn ws_normalized(t: Seq<char>) -> bool {
    forall|j: int|
        0 <= j < t.len() && is_ws_char(#[trigger] t[j]) ==> t[j] == ' ' && (j == 0 || !is_ws_char(
            t[j - 1],
        ))
}

proof fn lemma_normalize_block_prefix_shape(s: Seq<char>, n: int)
    requires
        0 <= n <= s.len(),
    ensures
        ws_normalized(spec_normalize_block_prefix(s, n)),
        spec_normalize_block_prefix(s, n).len() > 0 && is_ws_char(
            spec_normalize_block_prefix(s, n).last(),
        ) <==> (n > 0 && is_ws_char(s[n - 1])),
    decreases n,
{
    if n > 0 {
        lemma_normalize_block_prefix_shape(s, n - 1);
        let t = spec_normalize_block_prefix(s, n - 1);
        let r = spec_normalize_block_prefix(s, n);
        let c = block_contrib(s, n - 1);
        assert(r == t + c);
        if is_ws_char(s[n - 1]) {
            if n - 1 > 0 && is_ws_char(s[n - 2]) {
                assert(r =~= t);
            } else {
                assert(r =~= t.push(' '));
                assert forall|j: int| 0 <= j < r.len() && is_ws_char(#[trigger] r[j]) implies r[j]
                    == ' ' && (j == 0 || !is_ws_char(r[j - 1])) by {
                    if j < t.len() {
                        assert(r[j] == t[j]);
                        if j > 0 {
                            assert(r[j - 1] == t[j - 1]);
                        }
                    } else {
                        assert(j == t.len());
                        if j > 0 {
                            assert(r[j - 1] == t[j - 1]);
                            assert(!is_ws_char(t[j - 1]));
                        }
                    }
                }
            }
        } else {
            assert(r =~= t.push(s[n - 1]));
            assert forall|j: int| 0 <= j < r.len() && is_ws_char(#[trigger] r[j]) implies r[j]
                == ' ' && (j == 0 || !is_ws_char(r[j - 1])) by {
                if j < t.len() {
                    assert(r[j] == t[j]);
                    if j > 0 {
                        assert(r[j - 1] == t[j - 1]);
                    }
                }
            }
        }
    }
}

proof fn lemma_normalize_block_fixed(t: Seq<char>, n: int)
    requires
        0 <= n <= t.len(),
        ws_normalized(t),
    ensures
        spec_normalize_block_prefix(t, n) == t.subrange(0, n),
    decreases n,
{
    if n <= 0 {
        assert(spec_normalize_block_prefix(t, n) =~= t.subrange(0, n));
    } else {
        lemma_normalize_block_fixed(t, n - 1);
        assert(spec_normalize_block_prefix(t, n) =~= t.subrange(0, n));
    }
}

/// Collapsing block whitespace twice gives the same text as collapsing it
/// once.
pub proof fn lemma_normalize_block_idempotent(s: Seq<char>)
    ensures
        spec_normalize_block(spec_normalize_block(s)) == spec_normalize_block(s),
{
    lemma_normalize_block_prefix_shape(s, s.len() as int);
    let t = spec_normalize_block(s);
    lemma_normalize_block_fixed(t, t.len() as int);
    assert(t.subrange(0, t.len() as int) =~= t);
}

/// The index of the first non-whitespace character of `s` at or after `i`
/// (or the length of `s`).
pub open spec fn first_non_ws(s: Seq<char>, i: int) -> int
    decreases s.len() - i,
{
    if i < 0 || i >= s.len() || !is_ws_char(s[i]) {
        i
    } else {
        first_non_ws(s, i + 1)
    }
}

/// One past the index of the last non-whitespace character of `s` strictly
/// before `i` (or zero).
pub open spec fn last_non_ws_end(s: Seq<char>, i: int) -> int
    decreases i,
{
    if i <= 0 || i > s.len() || !is_ws_char(s[i - 1]) {
        i
    } else {
        last_non_ws_end(s, i - 1)
    }
}

pub proof fn lemma_first_non_ws(s: Seq<char>, i: int)
    requires
        0 <= i <= s.len(),
    ensures
        i <= first_non_ws(s, i) <= s.len(),
        forall|j: int| i <= j < first_non_ws(s, i) ==> is_ws_char(#[trigger] s[j]),
        first_non_ws(s, i) < s.len() ==> !is_ws_char(s[first_non_ws(s, i)]),
    decreases s.len() - i,
{
    if !(i >= s.len() || !is_ws_char(s[i])) {
        lemma_first_non_ws(s, i + 1);
    }
}

pub proof fn lemma_last_non_ws_end(s: Seq<char>, i: int)
    requires
        0 <= i <= s.len(),
    ensures
        0 <= last_non_ws_end(s, i) <= i,
        forall|j: int| last_non_ws_end(s, i) <= j < i ==> is_ws_char(#[trigger] s[j]),
        last_non_ws_end(s, i) > 0 ==> !is_ws_char(s[last_non_ws_end(s, i) - 1]),
    decreases i,
{
    if !(i <= 0 || !is_ws_char(s[i - 1])) {
        lemma_last_non_ws_end(s, i - 1);
    }
}

/// `s` without leading and trailing whitespace.
pub open spec fn spec_trim(s: Seq<char>) -> Seq<char> {
    if first_non_ws(s, 0) == s.len() {
        Seq::empty()
    } else {
        s.subrange(first_non_ws(s, 0), last_non_ws_end(s, s.len() as int))
    }
}

/// `s` without trailing whitespace.
pub open spec fn spec_trim_end(s: Seq<char>) -> Seq<char> {
    s.subrange(0, last_non_ws_end(s, s.len() as int))
}

/// The index of the first non-whitespace character of `v` (or its length).
pub fn first_non_ws_exec(v: &Vec<char>) -> (r: usize)
    ensures
        r == first_non_ws(v@, 0),
{
    let mut i: usize = 0;
    while i < v.len() && is_ws(v[i])
        invariant
            0 <= i <= v@.len(),
            first_non_ws(v@, 0) == first_non_ws(v@, i as int),
        decreases v@.len() - i,
    {
        i = i + 1;
    }
    i
}

/// One past the index of the last non-whitespace character of `v` (or zero).
pub fn last_non_ws_end_exec(v: &Vec<char>) -> (r: usize)
    ensures
        r == last_non_ws_end(v@, v@.len() as int),
{
    let mut i: usize = v.len();
    while i > 0 && is_ws(v[i - 1])
        invariant
            0 <= i <= v@.len(),
            last_non_ws_end(v@, v@.len() as int) == last_non_ws_end(v@, i as int),
        decreases i,
    {
        i = i - 1;
    }
    i
}

/// `v` without leading and trailing whitespace.
pub fn trim_chars(v: &Vec<char>) -> (out: Vec<char>)
    ensures
        out@ == spec_trim(v@),
{
    let p = first_non_ws_exec(v);
    if p == v.len() {
        let out: Vec<char> = Vec::new();
        assert(out@ =~= spec_trim(v@));
        return out;
    }
    proof {
        lemma_first_non_ws(v@, 0);
        lemma_last_non_ws_end(v@, v@.len() as int);
    }
    let q = last_non_ws_end_exec(v);
    assert(p < q) by {
        if q <= p {
            assert(is_ws_char(v@[p as int]));
        }
    }
    crate::chars::sub_chars(v, p, q)
}

/// `v` without trailing whitespace.
pub fn trim_end_chars(v: &Vec<char>) -> (out: Vec<char>)
    ensures
        out@ == spec_trim_end(v@),
{
    proof {
        lemma_last_non_ws_end(v@, v@.len() as int);
    }
    let q = last_non_ws_end_exec(v);
    crate::chars::sub_chars(v, 0, q)
}

/// Split `text` into its leading whitespace, its trimmed content, and its
/// trailing whitespace.
pub fn trim_inline_content(text: &str) -> (r: (&str, &str, &str))
    ensures
        r.0@ == text@.subrange(0, first_non_ws(text@, 0)),
        r.1@ == spec_trim(text@),
        r.2@ == text@.subrange(last_non_ws_end(text@, text@.len() as int), text@.len() as int),
{
    let n = text.unicode_len();
    let mut p: usize = 0;
    while p < n && is_ws(text.get_char(p))
        invariant
            n == text@.len(),
            0 <= p <= n,
            first_non_ws(text@, 0) == first_non_ws(text@, p as int),
        decreases n - p,
    {
        p = p + 1;
    }
    let mut q: usize = n;
    while q > 0 && is_ws(text.get_char(q - 1))
        invariant
            n == text@.len(),
            0 <= q <= n,
            last_non_ws_end(text@, n as int) == last_non_ws_end(text@, q as int),
        decreases q,
    {
        q = q - 1;
    }
    proof {
        lemma_first_non_ws(text@, 0);
        lemma_last_non_ws_end(text@, text@.len() as int);
    }
    let leading = text.substring_char(0, p);
    let trailing = text.substring_char(q, n);
    if p == n {
        let trimmed = text.substring_char(n, n);
        assert(trimmed@ =~= spec_trim(text@));
        (leading, trimmed, trailing)
    } else {
        assert(p < q) by {
            if q <= p {
                assert(is_ws_char(text@[p as int]));
            }
        }
        let trimmed = text.substring_char(p, q);
        (leading, trimmed, trailing)
    }
}

/// `s` without one trailing carriage return, if it has one.
pub open spec fn strip_cr(s: Seq<char>) -> Seq<char> {
    if s.len() > 0 && s.last() == '\r' {
        s.drop_last()
    } else {
        s
    }
}

/// The lines of `s`, split at newlines; a carriage return before a newline
/// is dropped, and a final newline ends the last line without starting a
/// new one.
pub open spec fn spec_lines(s: Seq<char>) -> Seq<Seq<char>>
    decreases s.len(),
    via spec_lines_dec
{
    if s.len() == 0 {
        Seq::empty()
    } else {
        match spec_find_char(s, '\n', 0) {
            Some(k) => seq![strip_cr(s.take(k))] + spec_lines(s.skip(k + 1)),
            None => seq![s],
        }
    }
}

#[via_fn]
proof fn spec_lines_dec(s: Seq<char>) {
    if s.len() > 0 {
        crate::chars::lemma_find_char_some(s, '\n', 0);
    }
}

/// The lines of `v`, split at newlines.
pub fn split_lines(v: &Vec<char>) -> (r: Vec<Vec<char>>)
    ensures
        r.deep_view() == spec_lines(v@),
    decreases v@.len(),
{
    if v.len() == 0 {
        let r: Vec<Vec<char>> = Vec::new();
        assert(r.deep_view() =~~= spec_lines(v@));
        return r;
    }
    match crate::chars::find_char_from(v, '\n', 0) {
        Some(k) => {
            proof {
                crate::chars::lemma_find_char_some(v@, '\n', 0);
            }
            let line_end: usize = if k > 0 && v[k - 1] == '\r' {
                k - 1
            } else {
                k
            };
            let first = crate::chars::sub_chars(v, 0, line_end);
            assert(first@ =~= strip_cr(v@.take(k as int)));
            let rest = crate::chars::sub_chars(v, k + 1, v.len());
            assert(rest@ =~= v@.skip(k + 1));
            let mut r: Vec<Vec<char>> = Vec::new();
            r.push(first);
            let sub = split_lines(&rest);
            let ghost subv = sub.deep_view();
            let mut i: usize = 0;
            assert(r.deep_view() =~~= seq![strip_cr(v@.take(k as int))] + subv.take(0));
            while i < sub.len()
                invariant
                    0 <= i <= sub@.len(),
                    sub.deep_view() == subv,
                    r.deep_view() == seq![strip_cr(v@.take(k as int))] + subv.take(i as int),
                decreases sub@.len() - i,
            {
                let mut line: Vec<char> = Vec::new();
                crate::chars::push_chars(&mut line, &sub[i]);
                assert(line@ =~= subv[i as int]);
                let ghost rprev = r.deep_view();
                let ghost linev = line@;
                r.push(line);
                i = i + 1;
                proof {
                    assert(r.deep_view() =~~= rprev.push(linev));
                    assert(rprev.push(linev) =~~= seq![strip_cr(v@.take(k as int))] + subv.take(
                        i as int,
                    ));
                }
            }
            proof {
                assert(subv.take(subv.len() as int) =~~= subv);
                assert(r.deep_view() =~~= spec_lines(v@));
            }
            r
        },
        None => {
            let mut first: Vec<char> = Vec::new();
            crate::chars::push_chars(&mut first, v);
            let mut r: Vec<Vec<char>> = Vec::new();
            r.push(first);
            assert(r.deep_view() =~~= spec_lines(v@));
            r
        },
    }
}

/// What position `i` of `s` contributes after newline collapsing: nothing
/// for the third and later newlines of a run, the character itself
/// otherwise.
pub open spec fn collapse_contrib(s: Seq<char>, i: int) -> Seq<char> {
    if s[i] == '\n' && i >= 2 && s[i - 1] == '\n' && s[i - 2] == '\n' {
        Seq::empty()
    } else {
        seq![s[i]]
    }
}

pub open spec fn spec_collapse_newlines_prefix(s: Seq<char>, n: int) -> Seq<char>
    decreases n,
{
    if n <= 0 {
        Seq::empty()
    } else {
        spec_collapse_newlines_prefix(s, n - 1) + collapse_contrib(s, n - 1)
    }
}

/// `s` with every run of three or more newlines collapsed to exactly two.
pub open spec fn spec_collapse_newlines(s: Seq<char>) -> Seq<char> {
    spec_collapse_newlines_prefix(s, s.len() as int)
}

/// Newline collapsing applied to a character vector.
pub fn collapse_newlines_chars(v: &Vec<char>) -> (out: Vec<char>)
    ensures
        out@ == spec_collapse_newlines(v@),
{
    let mut out: Vec<char> = Vec::new();
    let mut i: usize = 0;
    while i < v.len()
        invariant
            i <= v@.len(),
            out@ == spec_collapse_newlines_prefix(v@, i as int),
        decreases v@.len() - i,
    {
        let c = v[i];
        if !(c == '\n' && i >= 2 && v[i - 1] == '\n' && v[i - 2] == '\n') {
            out.push(c);
        }
        i = i + 1;
        assert(out@ =~= spec_collapse_newlines_prefix(v@, i as int));
    }
    out
}

/// Collapse consecutive newlines to a maximum of two.
pub fn collapse_newlines(text: &str) -> (r: String)
    ensures
        r@ == spec_collapse_newlines(text@),
{
    let v = str_chars(text);
    let out = collapse_newlines_chars(&v);
    chars_string(&out)
}

} // verus!
