//! Character and text utilities shared by the conversion pipeline.
//!
//! Text is processed internally as `Vec<char>`; these helpers convert to and
//! from `String`/`&str` and provide small verified building blocks.

use vstd::prelude::*;
use vstd::string::StrSliceExecFns;

verus! {

/// The Unicode `White_Space` characters.
pub open spec fn is_ws_char(c: char) -> bool {
    ||| c == ' '
    ||| c == '\t'
    ||| c == '\n'
    ||| c == '\r'
    ||| c == '\u{0B}'
    ||| c == '\u{0C}'
    ||| c == '\u{85}'
    ||| c == '\u{A0}'
    ||| c == '\u{1680}'
    ||| ('\u{2000}' <= c && c <= '\u{200A}')
    ||| c == '\u{2028}'
    ||| c == '\u{2029}'
    ||| c == '\u{202F}'
    ||| c == '\u{205F}'
    ||| c == '\u{3000}'
}

/// Runtime test for [`is_ws_char`].
pub fn is_ws(c: char) -> (b: bool)
    ensures
        b == is_ws_char(c),
{
    c == ' ' || c == '\t' || c == '\n' || c == '\r' || c == '\u{0B}' || c == '\u{0C}'
        || c == '\u{85}' || c == '\u{A0}' || c == '\u{1680}'
        || ('\u{2000}' <= c && c <= '\u{200A}') || c == '\u{2028}' || c == '\u{2029}'
        || c == '\u{202F}' || c == '\u{205F}' || c == '\u{3000}'
}

/// The characters of a string slice, in order.
pub fn str_chars(s: &str) -> (v: Vec<char>)
    ensures
        v@ == s@,
{
    let n = s.unicode_len();
    let mut v: Vec<char> = Vec::new();
    let mut i: usize = 0;
    while i < n
        invariant
            n == s@.len(),
            i <= n,
            v@ == s@.subrange(0, i as int),
        decreases n - i,
    {
        v.push(s.get_char(i));
        i = i + 1;
        assert(v@ =~= s@.subrange(0, i as int));
    }
    assert(v@ =~= s@);
    v
}

/// Relies on `String` implementing `FromIterator<char>`: collecting
/// characters yields the string of exactly those characters in order.
#[verifier::external_body]
pub fn chars_string(v: &Vec<char>) -> (s: String)
    ensures
        s@ == v@,
{
    v.iter().collect()
}

/// Whether `code` is a Unicode scalar value.
pub open spec fn is_scalar_code(code: u32) -> bool {
    code < 0xD800 || (0xE000 <= code && code < 0x110000)
}

/// The character with scalar value `code`.
pub open spec fn char_of_code(code: u32) -> char {
    code as char
}

/// Relies on `char::from_u32`: returns `Some` exactly for Unicode scalar
/// values, and then the character with that scalar value.
#[verifier::external_body]
pub fn char_from_code(code: u32) -> (r: Option<char>)
    ensures
        r is Some <==> is_scalar_code(code),
        match r {
            Some(c) => c as u32 == code,
            None => true,
        },
{
    char::from_u32(code)
}

/// Whether two string slices hold the same characters.
pub fn str_eq(a: &str, b: &str) -> (r: bool)
    ensures
        r == (a@ == b@),
{
    let an = a.unicode_len();
    let bn = b.unicode_len();
    if an != bn {
        return false;
    }
    let mut i: usize = 0;
    while i < an
        invariant
            an == a@.len(),
            bn == b@.len(),
            an == bn,
            i <= an,
            forall|j: int| 0 <= j < i ==> a@[j] == b@[j],
        decreases an - i,
    {
        if a.get_char(i) != b.get_char(i) {
            assert(a@[i as int] != b@[i as int]);
            return false;
        }
        i = i + 1;
    }
    assert(a@ =~= b@);
    true
}

/// Whether a character vector holds the same characters as a string slice.
pub fn chars_eq_str(v: &Vec<char>, s: &str) -> (r: bool)
    ensures
        r == (v@ == s@),
{
    let n = s.unicode_len();
    if v.len() != n {
        return false;
    }
    let mut i: usize = 0;
    while i < n
        invariant
            n == s@.len(),
            v@.len() == n,
            i <= n,
            forall|j: int| 0 <= j < i ==> v@[j] == s@[j],
        decreases n - i,
    {
        if v[i] != s.get_char(i) {
            assert(v@[i as int] != s@[i as int]);
            return false;
        }
        i = i + 1;
    }
    assert(v@ =~= s@);
    true
}

/// Whether two character vectors hold the same characters.
pub fn chars_eq(a: &Vec<char>, b: &Vec<char>) -> (r: bool)
    ensures
        r == (a@ == b@),
{
    if a.len() != b.len() {
        return false;
    }
    let mut i: usize = 0;
    while i < a.len()
        invariant
            a@.len() == b@.len(),
            i <= a@.len(),
            forall|j: int| 0 <= j < i ==> a@[j] == b@[j],
        decreases a@.len() - i,
    {
        if a[i] != b[i] {
            assert(a@[i as int] != b@[i as int]);
            return false;
        }
        i = i + 1;
    }
    assert(a@ =~= b@);
    true
}

/// `n` copies of `c`.
pub open spec fn spec_repeat(c: char, n: nat) -> Seq<char> {
    Seq::new(n, |i: int| c)
}

/// Runtime construction of [`spec_repeat`].
pub fn repeat_char(c: char, n: usize) -> (v: Vec<char>)
    ensures
        v@ == spec_repeat(c, n as nat),
{
    let mut v: Vec<char> = Vec::new();
    let mut i: usize = 0;
    while i < n
        invariant
            i <= n,
            v@ == spec_repeat(c, i as nat),
        decreases n - i,
    {
        v.push(c);
        i = i + 1;
        assert(v@ =~= spec_repeat(c, i as nat));
    }
    v
}

/// Appends the characters of `src` to `dst`.
pub fn push_chars(dst: &mut Vec<char>, src: &Vec<char>)
    ensures
        final(dst)@ == old(dst)@ + src@,
{
    let mut i: usize = 0;
    while i < src.len()
        invariant
            i <= src@.len(),
            dst@ == old(dst)@ + src@.subrange(0, i as int),
        decreases src@.len() - i,
    {
        dst.push(src[i]);
        i = i + 1;
        assert(dst@ =~= old(dst)@ + src@.subrange(0, i as int));
    }
    assert(dst@ =~= old(dst)@ + src@);
}

/// Appends the characters of the string slice `src` to `dst`.
pub fn push_str_chars(dst: &mut Vec<char>, src: &str)
    ensures
        final(dst)@ == old(dst)@ + src@,
{
    let n = src.unicode_len();
    let mut i: usize = 0;
    while i < n
        invariant
            n == src@.len(),
            i <= n,
            dst@ == old(dst)@ + src@.subrange(0, i as int),
        decreases n - i,
    {
        dst.push(src.get_char(i));
        i = i + 1;
        assert(dst@ =~= old(dst)@ + src@.subrange(0, i as int));
    }
    assert(dst@ =~= old(dst)@ + src@);
}

/// The characters of `v` from `a` (inclusive) to `b` (exclusive).
pub fn sub_chars(v: &Vec<char>, a: usize, b: usize) -> (out: Vec<char>)
    requires
        a <= b <= v@.len(),
    ensures
        out@ == v@.subrange(a as int, b as int),
{
    let mut out: Vec<char> = Vec::new();
    let mut i: usize = a;
    while i < b
        invariant
            a <= i <= b <= v@.len(),
            out@ == v@.subrange(a as int, i as int),
        decreases b - i,
    {
        out.push(v[i]);
        i = i + 1;
        assert(out@ =~= v@.subrange(a as int, i as int));
    }
    out
}

/// Whether `p` is a prefix of `s`.
pub open spec fn seq_starts_with(s: Seq<char>, p: Seq<char>) -> bool {
    s.len() >= p.len() && s.subrange(0, p.len() as int) == p
}

/// Whether the string slice `p` is a prefix of `v`.
pub fn starts_with_str(v: &Vec<char>, p: &str) -> (r: bool)
    ensures
        r == seq_starts_with(v@, p@),
{
    let n = p.unicode_len();
    if v.len() < n {
        return false;
    }
    let mut i: usize = 0;
    while i < n
        invariant
            n == p@.len(),
            n <= v@.len(),
            i <= n,
            forall|j: int| 0 <= j < i ==> v@[j] == p@[j],
        decreases n - i,
    {
        if v[i] != p.get_char(i) {
            assert(!seq_starts_with(v@, p@)) by {
                assert(v@.subrange(0, p@.len() as int)[i as int] == v@[i as int]);
            }
            return false;
        }
        i = i + 1;
    }
    assert(v@.subrange(0, p@.len() as int) =~= p@);
    true
}

/// Whether `p` occurs in `s` starting at position `k`.
pub open spec fn match_at(s: Seq<char>, p: Seq<char>, k: int) -> bool {
    0 <= k && k + p.len() <= s.len() && s.subrange(k, k + p.len() as int) == p
}

/// The first position at or after `i` where `p` occurs in `s`.
pub open spec fn spec_find(s: Seq<char>, p: Seq<char>, i: int) -> Option<int>
    decreases s.len() - i,
{
    if i < 0 || i + p.len() > s.len() {
        None
    } else if match_at(s, p, i) {
        Some(i)
    } else if i >= s.len() {
        None
    } else {
        spec_find(s, p, i + 1)
    }
}

fn match_at_exec(v: &Vec<char>, p: &str, k: usize) -> (r: bool)
    requires
        k + p@.len() <= v@.len(),
    ensures
        r == match_at(v@, p@, k as int),
{
    let n = p.unicode_len();
    let vlen = v.len();
    let mut i: usize = 0;
    while i < n
        invariant
            n == p@.len(),
            vlen == v@.len(),
            k + n <= vlen,
            i <= n,
            forall|j: int| 0 <= j < i ==> v@[k + j] == p@[j],
        decreases n - i,
    {
        assert(k + i < vlen);
        if v[k + i] != p.get_char(i) {
            assert(!match_at(v@, p@, k as int)) by {
                assert(v@.subrange(k as int, k + p@.len() as int)[i as int] == v@[k + i]);
            }
            return false;
        }
        i = i + 1;
    }
    assert(v@.subrange(k as int, k + p@.len() as int) =~= p@);
    true
}

/// The first occurrence of the string slice `p` in `v` at or after `from`.
pub fn find_str_from(v: &Vec<char>, p: &str, from: usize) -> (r: Option<usize>)
    ensures
        match r {
            Some(k) => spec_find(v@, p@, from as int) == Some(k as int),
            None => spec_find(v@, p@, from as int) is None,
        },
{
    let n = p.unicode_len();
    let mut i: usize = from;
    if v.len() < n {
        return None;
    }
    if n == 0 {
        if from <= v.len() {
            assert(v@.subrange(from as int, from as int) =~= p@);
            return Some(from);
        } else {
            return None;
        }
    }
    while i <= v.len() - n
        invariant
            n == p@.len(),
            1 <= n <= v@.len(),
            spec_find(v@, p@, from as int) == spec_find(v@, p@, i as int),
            from <= i,
        decreases v@.len() - i,
    {
        if match_at_exec(v, p, i) {
            return Some(i);
        }
        i = i + 1;
    }
    None
}

/// A found match lies at or after the start position and really matches.
pub proof fn lemma_find_some(s: Seq<char>, p: Seq<char>, i: int)
    ensures
        spec_find(s, p, i) matches Some(k) ==> i <= k && match_at(s, p, k),
    decreases s.len() - i,
{
    if !(i < 0 || i + p.len() > s.len()) && !match_at(s, p, i) && i < s.len() {
        lemma_find_some(s, p, i + 1);
    }
}

/// The first position at or after `i` where `c` occurs in `s`.
pub open spec fn spec_find_char(s: Seq<char>, c: char, i: int) -> Option<int>
    decreases s.len() - i,
{
    if i < 0 || i >= s.len() {
        None
    } else if s[i] == c {
        Some(i)
    } else {
        spec_find_char(s, c, i + 1)
    }
}

/// The first occurrence of `c` in `v` at or after `from`.
pub fn find_char_from(v: &Vec<char>, c: char, from: usize) -> (r: Option<usize>)
    ensures
        match r {
            Some(k) => spec_find_char(v@, c, from as int) == Some(k as int),
            None => spec_find_char(v@, c, from as int) is None,
        },
{
    let mut i: usize = from;
    while i < v.len()
        invariant
            spec_find_char(v@, c, from as int) == spec_find_char(v@, c, i as int),
            from <= i,
        decreases v@.len() - i,
    {
        if v[i] == c {
            return Some(i);
        }
        i = i + 1;
    }
    None
}

/// A found character lies at or after the start position and is the sought one.
pub proof fn lemma_find_char_some(s: Seq<char>, c: char, i: int)
    ensures
        spec_find_char(s, c, i) matches Some(k) ==> i <= k < s.len() && s[k] == c,
    decreases s.len() - i,
{
    if !(i < 0 || i >= s.len()) && s[i] != c {
        lemma_find_char_some(s, c, i + 1);
    }
}

/// The last position strictly before `i` where `c` occurs in `s`.
pub open spec fn spec_rfind_char(s: Seq<char>, c: char, i: int) -> Option<int>
    decreases i,
{
    if i <= 0 || i > s.len() {
        None
    } else if s[i - 1] == c {
        Some(i - 1)
    } else {
        spec_rfind_char(s, c, i - 1)
    }
}

/// The last occurrence of `c` in `v`.
pub fn rfind_char(v: &Vec<char>, c: char) -> (r: Option<usize>)
    ensures
        match r {
            Some(k) => spec_rfind_char(v@, c, v@.len() as int) == Some(k as int),
            None => spec_rfind_char(v@, c, v@.len() as int) is None,
        },
{
    let mut i: usize = v.len();
    while i > 0
        invariant
            i <= v@.len(),
            spec_rfind_char(v@, c, v@.len() as int) == spec_rfind_char(v@, c, i as int),
        decreases i,
    {
        if v[i - 1] == c {
            return Some(i - 1);
        }
        i = i - 1;
    }
    None
}

/// A found character lies strictly before the start position and is the
/// sought one.
pub proof fn lemma_rfind_char_some(s: Seq<char>, c: char, i: int)
    ensures
        spec_rfind_char(s, c, i) matches Some(k) ==> 0 <= k < i <= s.len() && s[k] == c,
    decreases i,
{
    if !(i <= 0 || i > s.len()) && s[i - 1] != c {
        lemma_rfind_char_some(s, c, i - 1);
    }
}

/// The first position at or after `i` whose character fails `p` (or the
/// length of `s`).
pub open spec fn scan_while(s: Seq<char>, i: int, p: spec_fn(char) -> bool) -> int
    decreases s.len() - i,
{
    if i < 0 || i >= s.len() || !p(s[i]) {
        i
    } else {
        scan_while(s, i + 1, p)
    }
}

/// The scan stops within bounds, with `p` holding strictly before the stop
/// and failing at it.
pub proof fn lemma_scan_while(s: Seq<char>, i: int, p: spec_fn(char) -> bool)
    requires
        0 <= i <= s.len(),
    ensures
        i <= scan_while(s, i, p) <= s.len(),
        forall|j: int| i <= j < scan_while(s, i, p) ==> p(s[j]),
        scan_while(s, i, p) < s.len() ==> !p(s[scan_while(s, i, p)]),
    decreases s.len() - i,
{
    if !(i >= s.len() || !p(s[i])) {
        lemma_scan_while(s, i + 1, p);
    }
}

/// `s` with every trailing copy of `c` removed.
pub open spec fn spec_trim_end_char(s: Seq<char>, c: char) -> Seq<char>
    decreases s.len(),
{
    if s.len() > 0 && s.last() == c {
        spec_trim_end_char(s.drop_last(), c)
    } else {
        s
    }
}

/// `v` with every trailing copy of `c` removed.
pub fn trim_end_char(v: &Vec<char>, c: char) -> (out: Vec<char>)
    ensures
        out@ == spec_trim_end_char(v@, c),
{
    let mut i: usize = v.len();
    assert(v@.subrange(0, v@.len() as int) =~= v@);
    while i > 0 && v[i - 1] == c
        invariant
            i <= v@.len(),
            spec_trim_end_char(v@, c) == spec_trim_end_char(v@.subrange(0, i as int), c),
        decreases i,
    {
        proof {
            let pre = v@.subrange(0, i as int);
            assert(pre.drop_last() =~= v@.subrange(0, i - 1));
        }
        i = i - 1;
    }
    let out = sub_chars(v, 0, i);
    proof {
        let pre = v@.subrange(0, i as int);
        if i > 0 {
            assert(pre.last() == v@[i - 1]);
        }
        assert(spec_trim_end_char(pre, c) == pre);
    }
    out
}

/// The whitespace-separated words of `s`, from position `i` on.
pub open spec fn spec_split_ws(s: Seq<char>, i: int) -> Seq<Seq<char>>
    decreases s.len() - i,
    via spec_split_ws_dec
{
    if i < 0 || i >= s.len() {
        Seq::empty()
    } else if is_ws_char(s[i]) {
        spec_split_ws(s, i + 1)
    } else {
        seq![s.subrange(i, scan_while(s, i, |c: char| !is_ws_char(c)))] + spec_split_ws(
            s,
            scan_while(s, i, |c: char| !is_ws_char(c)),
        )
    }
}

#[via_fn]
proof fn spec_split_ws_dec(s: Seq<char>, i: int) {
    if 0 <= i < s.len() && !is_ws_char(s[i]) {
        lemma_scan_while(s, i, |c: char| !is_ws_char(c));
    }
}

/// The whitespace-separated words of `v`.
#[verifier::loop_isolation(false)]
pub fn split_ws_chars(v: &Vec<char>) -> (r: Vec<Vec<char>>)
    ensures
        r.deep_view() == spec_split_ws(v@, 0),
    decreases v@.len(),
{
    let mut r: Vec<Vec<char>> = Vec::new();
    let mut i: usize = 0;
    assert(r.deep_view() =~~= Seq::<Seq<char>>::empty());
    while i < v.len()
        invariant
            0 <= i <= v@.len(),
            spec_split_ws(v@, 0) == r.deep_view() + spec_split_ws(v@, i as int),
        decreases v@.len() - i,
    {
        if is_ws(v[i]) {
            i = i + 1;
        } else {
            proof {
                lemma_scan_while(v@, i as int, |c: char| !is_ws_char(c));
            }
            let mut j: usize = i;
            while j < v.len() && !is_ws(v[j])
                invariant
                    i <= j <= v@.len(),
                    scan_while(v@, i as int, |c: char| !is_ws_char(c)) == scan_while(
                        v@,
                        j as int,
                        |c: char| !is_ws_char(c),
                    ),
                decreases v@.len() - j,
            {
                j = j + 1;
            }
            let word = sub_chars(v, i, j);
            let ghost before = r.deep_view();
            r.push(word);
            proof {
                assert(r.deep_view() =~~= before.push(word@));
                assert(r.deep_view() + spec_split_ws(v@, j as int) =~~= before + (seq![word@]
                    + spec_split_ws(v@, j as int)));
            }
            i = j;
        }
    }
    assert(r.deep_view() =~~= r.deep_view() + spec_split_ws(v@, i as int));
    r
}

/// The successor of `m`, stopping at the largest `usize` value.
pub open spec fn sat_succ(m: nat) -> nat {
    if m + 1 > usize::MAX {
        usize::MAX as nat
    } else {
        m + 1
    }
}

/// Addition on `usize` that stops at the largest value.
pub open spec fn sat_add(a: usize, b: usize) -> usize {
    if a + b > usize::MAX {
        usize::MAX
    } else {
        (a + b) as usize
    }
}

/// Runtime form of [`sat_add`].
pub fn sat_add_exec(a: usize, b: usize) -> (r: usize)
    ensures
        r == sat_add(a, b),
{
    if a > usize::MAX - b {
        usize::MAX
    } else {
        a + b
    }
}

/// The digit character for `d`.
pub open spec fn spec_digit_char(d: nat) -> char {
    if d == 0 {
        '0'
    } else if d == 1 {
        '1'
    } else if d == 2 {
        '2'
    } else if d == 3 {
        '3'
    } else if d == 4 {
        '4'
    } else if d == 5 {
        '5'
    } else if d == 6 {
        '6'
    } else if d == 7 {
        '7'
    } else if d == 8 {
        '8'
    } else {
        '9'
    }
}

fn digit_char(d: usize) -> (c: char)
    requires
        d < 10,
    ensures
        c == spec_digit_char(d as nat),
{
    if d == 0 {
        '0'
    } else if d == 1 {
        '1'
    } else if d == 2 {
        '2'
    } else if d == 3 {
        '3'
    } else if d == 4 {
        '4'
    } else if d == 5 {
        '5'
    } else if d == 6 {
        '6'
    } else if d == 7 {
        '7'
    } else if d == 8 {
        '8'
    } else {
        '9'
    }
}

/// The decimal representation of `n`, most significant digit first.
pub open spec fn spec_dec(n: nat) -> Seq<char>
    decreases n,
{
    if n < 10 {
        seq![spec_digit_char(n)]
    } else {
        spec_dec(n / 10) + seq![spec_digit_char(n % 10)]
    }
}

/// Runtime construction of [`spec_dec`].
pub fn dec_chars(n: usize) -> (v: Vec<char>)
    ensures
        v@ == spec_dec(n as nat),
    decreases n,
{
    if n < 10 {
        let mut v: Vec<char> = Vec::new();
        v.push(digit_char(n));
        assert(v@ =~= spec_dec(n as nat));
        v
    } else {
        let mut v = dec_chars(n / 10);
        v.push(digit_char(n % 10));
        assert(v@ =~= spec_dec(n as nat));
        v
    }
}

} // verus!
