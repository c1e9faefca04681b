//! HTML character reference decoding.

use vstd::prelude::*;
use crate::chars::{
    char_from_code, char_of_code, chars_eq_str, chars_string, is_scalar_code, lemma_scan_while,
    push_chars, scan_while, str_chars, sub_chars,
};

verus! {

/// The named character references this decoder knows, each mapping to one
/// character.
pub open spec fn named_entity(name: Seq<char>) -> Option<char> {
    if name == "amp"@ {
        Some('&')
    } else if name == "lt"@ {
        Some('<')
    } else if name == "gt"@ {
        Some('>')
    } else if name == "quot"@ {
        Some('"')
    } else if name == "apos"@ {
        Some('\'')
    } else if name == "nbsp"@ {
        Some(' ')
    } else if name == "copy"@ {
        Some('\u{00A9}')
    } else if name == "reg"@ {
        Some('\u{00AE}')
    } else if name == "trade"@ {
        Some('\u{2122}')
    } else if name == "mdash"@ {
        Some('\u{2014}')
    } else if name == "ndash"@ {
        Some('\u{2013}')
    } else if name == "hellip"@ {
        Some('\u{2026}')
    } else if name == "bull"@ {
        Some('\u{2022}')
    } else if name == "middot"@ {
        Some('\u{00B7}')
    } else if name == "lsquo"@ {
        Some('\u{2018}')
    } else if name == "rsquo"@ {
        Some('\u{2019}')
    } else if name == "ldquo"@ {
        Some('\u{201C}')
    } else if name == "rdquo"@ {
        Some('\u{201D}')
    } else if name == "laquo"@ {
        Some('\u{00AB}')
    } else if name == "raquo"@ {
        Some('\u{00BB}')
    } else if name == "times"@ {
        Some('\u{00D7}')
    } else if name == "divide"@ {
        Some('\u{00F7}')
    } else if name == "plusmn"@ {
        Some('\u{00B1}')
    } else if name == "minus"@ {
        Some('\u{2212}')
    } else if name == "le"@ {
        Some('\u{2264}')
    } else if name == "ge"@ {
        Some('\u{2265}')
    } else if name == "ne"@ {
        Some('\u{2260}')
    } else if name == "infin"@ {
        Some('\u{221E}')
    } else if name == "cent"@ {
        Some('\u{00A2}')
    } else if name == "pound"@ {
        Some('\u{00A3}')
    } else if name == "euro"@ {
        Some('\u{20AC}')
    } else if name == "yen"@ {
        Some('\u{00A5}')
    } else if name == "larr"@ {
        Some('\u{2190}')
    } else if name == "rarr"@ {
        Some('\u{2192}')
    } else if name == "uarr"@ {
        Some('\u{2191}')
    } else if name == "darr"@ {
        Some('\u{2193}')
    } else {
        None
    }
}

fn lookup_named(name: &Vec<char>) -> (r: Option<char>)
    ensures
        r == named_entity(name@),
{
    if chars_eq_str(name, "amp") {
        Some('&')
    } else if chars_eq_str(name, "lt") {
        Some('<')
    } else if chars_eq_str(name, "gt") {
        Some('>')
    } else if chars_eq_str(name, "quot") {
        Some('"')
    } else if chars_eq_str(name, "apos") {
        Some('\'')
    } else if chars_eq_str(name, "nbsp") {
        Some(' ')
    } else if chars_eq_str(name, "copy") {
        Some('\u{00A9}')
    } else if chars_eq_str(name, "reg") {
        Some('\u{00AE}')
    } else if chars_eq_str(name, "trade") {
        Some('\u{2122}')
    } else if chars_eq_str(name, "mdash") {
        Some('\u{2014}')
    } else if chars_eq_str(name, "ndash") {
        Some('\u{2013}')
    } else if chars_eq_str(name, "hellip") {
        Some('\u{2026}')
    } else if chars_eq_str(name, "bull") {
        Some('\u{2022}')
    } else if chars_eq_str(name, "middot") {
        Some('\u{00B7}')
    } else if chars_eq_str(name, "lsquo") {
        Some('\u{2018}')
    } else if chars_eq_str(name, "rsquo") {
        Some('\u{2019}')
    } else if chars_eq_str(name, "ldquo") {
        Some('\u{201C}')
    } else if chars_eq_str(name, "rdquo") {
        Some('\u{201D}')
    } else if chars_eq_str(name, "laquo") {
        Some('\u{00AB}')
    } else if chars_eq_str(name, "raquo") {
        Some('\u{00BB}')
    } else if chars_eq_str(name, "times") {
        Some('\u{00D7}')
    } else if chars_eq_str(name, "divide") {
        Some('\u{00F7}')
    } else if chars_eq_str(name, "plusmn") {
        Some('\u{00B1}')
    } else if chars_eq_str(name, "minus") {
        Some('\u{2212}')
    } else if chars_eq_str(name, "le") {
        Some('\u{2264}')
    } else if chars_eq_str(name, "ge") {
        Some('\u{2265}')
    } else if chars_eq_str(name, "ne") {
        Some('\u{2260}')
    } else if chars_eq_str(name, "infin") {
        Some('\u{221E}')
    } else if chars_eq_str(name, "cent") {
        Some('\u{00A2}')
    } else if chars_eq_str(name, "pound") {
        Some('\u{00A3}')
    } else if chars_eq_str(name, "euro") {
        Some('\u{20AC}')
    } else if chars_eq_str(name, "yen") {
        Some('\u{00A5}')
    } else if chars_eq_str(name, "larr") {
        Some('\u{2190}')
    } else if chars_eq_str(name, "rarr") {
        Some('\u{2192}')
    } else if chars_eq_str(name, "uarr") {
        Some('\u{2191}')
    } else if chars_eq_str(name, "darr") {
        Some('\u{2193}')
    } else {
        None
    }
}

/// ASCII letter, digit, or underscore: what may appear in an entity name.
pub open spec fn is_word_char(c: char) -> bool {
    ('a' <= c && c <= 'z') || ('A' <= c && c <= 'Z') || ('0' <= c && c <= '9') || c == '_'
}

/// ASCII decimal digit.
pub open spec fn is_digit_char(c: char) -> bool {
    '0' <= c && c <= '9'
}

/// ASCII hexadecimal digit.
pub open spec fn is_hex_char(c: char) -> bool {
    ('0' <= c && c <= '9') || ('a' <= c && c <= 'f') || ('A' <= c && c <= 'F')
}

/// The value of a decimal digit.
pub open spec fn digit_val(c: char) -> nat {
    if is_digit_char(c) {
        (c as int - '0' as int) as nat
    } else {
        0
    }
}

/// The value of a hexadecimal digit.
pub open spec fn hex_digit_val(c: char) -> nat {
    if is_digit_char(c) {
        (c as int - '0' as int) as nat
    } else if 'a' <= c && c <= 'f' {
        (c as int - 'a' as int + 10) as nat
    } else if 'A' <= c && c <= 'F' {
        (c as int - 'A' as int + 10) as nat
    } else {
        0
    }
}

/// The value of a decimal digit string.
pub open spec fn dec_val(s: Seq<char>) -> nat
    decreases s.len(),
{
    if s.len() == 0 {
        0
    } else {
        dec_val(s.drop_last()) * 10 + digit_val(s.last())
    }
}

/// The value of a hexadecimal digit string.
pub open spec fn hex_val(s: Seq<char>) -> nat
    decreases s.len(),
{
    if s.len() == 0 {
        0
    } else {
        hex_val(s.drop_last()) * 16 + hex_digit_val(s.last())
    }
}

/// The replacement for a numeric reference with value `val`: its character
/// when `val` is a representable scalar value, otherwise the original text
/// `orig`.
pub open spec fn numeric_replacement(val: nat, orig: Seq<char>) -> Seq<char> {
    if val <= u32::MAX && is_scalar_code(val as u32) {
        seq![char_of_code(val as u32)]
    } else {
        orig
    }
}

/// What a character reference starting at position `i` of `s` (where `s[i]`
/// is `&`) decodes to, together with the position after it. A malformed
/// reference contributes the ampersand alone.
pub open spec fn entity_step(s: Seq<char>, i: int) -> (Seq<char>, int) {
    if i + 1 < s.len() && s[i + 1] == '#' {
        if i + 2 < s.len() && s[i + 2] == 'x' {
            let j = scan_while(s, i + 3, |c: char| is_hex_char(c));
            if j > i + 3 && j < s.len() && s[j] == ';' {
                (numeric_replacement(hex_val(s.subrange(i + 3, j)), s.subrange(i, j + 1)), j + 1)
            } else {
                (seq![s[i]], i + 1)
            }
        } else {
            let j = scan_while(s, i + 2, |c: char| is_digit_char(c));
            if j > i + 2 && j < s.len() && s[j] == ';' {
                (numeric_replacement(dec_val(s.subrange(i + 2, j)), s.subrange(i, j + 1)), j + 1)
            } else {
                (seq![s[i]], i + 1)
            }
        }
    } else {
        let j = scan_while(s, i + 1, |c: char| is_word_char(c));
        if j > i + 1 && j < s.len() && s[j] == ';' {
            match named_entity(s.subrange(i + 1, j)) {
                Some(c) => (seq![c], j + 1),
                None => (s.subrange(i, j + 1), j + 1),
            }
        } else {
            (seq![s[i]], i + 1)
        }
    }
}

/// The decoded form of `s` from position `i` on.
pub open spec fn spec_decode_from(s: Seq<char>, i: int) -> Seq<char>
    decreases s.len() - i,
    when 0 <= i
    via spec_decode_from_dec
{
    if i >= s.len() {
        Seq::empty()
    } else if s[i] != '&' {
        seq![s[i]] + spec_decode_from(s, i + 1)
    } else {
        entity_step(s, i).0 + spec_decode_from(s, entity_step(s, i).1)
    }
}

#[via_fn]
proof fn spec_decode_from_dec(s: Seq<char>, i: int) {
    if i < s.len() && s[i] == '&' {
        lemma_entity_step_bounds(s, i);
    }
}

/// The step over a reference always advances and stays within the text.
pub proof fn lemma_entity_step_bounds(s: Seq<char>, i: int)
    requires
        0 <= i < s.len(),
    ensures
        i < entity_step(s, i).1 <= s.len(),
{
    lemma_scan_while(s, i + 1, |c: char| is_word_char(c));
    if i + 2 <= s.len() {
        lemma_scan_while(s, i + 2, |c: char| is_digit_char(c));
    }
    if i + 3 <= s.len() {
        lemma_scan_while(s, i + 3, |c: char| is_hex_char(c));
    }
}

/// The decoded form of `s`: named, decimal, and hexadecimal character
/// references become their characters; unknown or malformed references stay
/// as written.
pub open spec fn spec_decode_entities(s: Seq<char>) -> Seq<char> {
    spec_decode_from(s, 0)
}

/// A text without ampersands decodes to itself.
pub proof fn lemma_decode_no_amp(s: Seq<char>)
    requires
        forall|i: int| 0 <= i < s.len() ==> #[trigger] s[i] != '&',
    ensures
        spec_decode_entities(s) == s,
{
    lemma_decode_no_amp_from(s, 0);
    assert(s.subrange(0, s.len() as int) =~= s);
}

proof fn lemma_decode_no_amp_from(s: Seq<char>, i: int)
    requires
        0 <= i <= s.len(),
        forall|k: int| 0 <= k < s.len() ==> #[trigger] s[k] != '&',
    ensures
        spec_decode_from(s, i) == s.subrange(i, s.len() as int),
    decreases s.len() - i,
{
    if i >= s.len() {
        assert(spec_decode_from(s, i) =~= s.subrange(i, s.len() as int));
    } else {
        lemma_decode_no_amp_from(s, i + 1);
        assert(spec_decode_from(s, i) =~= s.subrange(i, s.len() as int));
    }
}

fn scan_word_end(v: &Vec<char>, from: usize) -> (r: usize)
    requires
        from <= v@.len(),
    ensures
        r == scan_while(v@, from as int, |c: char| is_word_char(c)),
        from <= r <= v@.len(),
{
    proof {
        lemma_scan_while(v@, from as int, |c: char| is_word_char(c));
    }
    let mut i: usize = from;
    while i < v.len() && (('a' <= v[i] && v[i] <= 'z') || ('A' <= v[i] && v[i] <= 'Z') || ('0'
        <= v[i] && v[i] <= '9') || v[i] == '_')
        invariant
            from <= i <= v@.len(),
            scan_while(v@, from as int, |c: char| is_word_char(c)) == scan_while(
                v@,
                i as int,
                |c: char| is_word_char(c),
            ),
        decreases v@.len() - i,
    {
        i = i + 1;
    }
    i
}

fn scan_digit_end(v: &Vec<char>, from: usize) -> (r: usize)
    requires
        from <= v@.len(),
    ensures
        r == scan_while(v@, from as int, |c: char| is_digit_char(c)),
        from <= r <= v@.len(),
{
    proof {
        lemma_scan_while(v@, from as int, |c: char| is_digit_char(c));
    }
    let mut i: usize = from;
    while i < v.len() && '0' <= v[i] && v[i] <= '9'
        invariant
            from <= i <= v@.len(),
            scan_while(v@, from as int, |c: char| is_digit_char(c)) == scan_while(
                v@,
                i as int,
                |c: char| is_digit_char(c),
            ),
        decreases v@.len() - i,
    {
        i = i + 1;
    }
    i
}

fn scan_hex_end(v: &Vec<char>, from: usize) -> (r: usize)
    requires
        from <= v@.len(),
    ensures
        r == scan_while(v@, from as int, |c: char| is_hex_char(c)),
        from <= r <= v@.len(),
{
    proof {
        lemma_scan_while(v@, from as int, |c: char| is_hex_char(c));
    }
    let mut i: usize = from;
    while i < v.len() && (('0' <= v[i] && v[i] <= '9') || ('a' <= v[i] && v[i] <= 'f') || ('A'
        <= v[i] && v[i] <= 'F'))
        invariant
            from <= i <= v@.len(),
            scan_while(v@, from as int, |c: char| is_hex_char(c)) == scan_while(
                v@,
                i as int,
                |c: char| is_hex_char(c),
            ),
        decreases v@.len() - i,
    {
        i = i + 1;
    }
    i
}

/// The decimal value of `v[a..b]`, watching for values beyond `u32`.
fn dec_val_exec(v: &Vec<char>, a: usize, b: usize) -> (r: Option<u32>)
    requires
        a <= b <= v@.len(),
    ensures
        match r {
            Some(x) => x == dec_val(v@.subrange(a as int, b as int)) && x <= u32::MAX,
            None => dec_val(v@.subrange(a as int, b as int)) > u32::MAX,
        },
{
    let mut acc: u64 = 0;
    let mut big: bool = false;
    let mut i: usize = a;
    assert(v@.subrange(a as int, a as int) =~= Seq::<char>::empty());
    while i < b
        invariant
            a <= i <= b <= v@.len(),
            !big ==> acc == dec_val(v@.subrange(a as int, i as int)) && acc <= u32::MAX as u64,
            big ==> dec_val(v@.subrange(a as int, i as int)) > u32::MAX,
        decreases b - i,
    {
        let c = v[i];
        let d: u64 = if '0' <= c && c <= '9' {
            (c as u32 as u64) - ('0' as u32 as u64)
        } else {
            0
        };
        proof {
            let pre = v@.subrange(a as int, i as int);
            let post = v@.subrange(a as int, i + 1);
            assert(post.drop_last() =~= pre);
            assert(post.last() == v@[i as int]);
            assert(dec_val(post) == dec_val(pre) * 10 + digit_val(v@[i as int]));
        }
        if big {
            proof {
                let pre = v@.subrange(a as int, i as int);
                assert(dec_val(pre) * 10 >= dec_val(pre)) by (nonlinear_arith)
                    requires dec_val(pre) >= 0;
            }
        } else {
            assert(d == digit_val(v@[i as int]));
            let acc2: u64 = acc * 10 + d;
            if acc2 > u32::MAX as u64 {
                big = true;
            } else {
                acc = acc2;
            }
        }
        i = i + 1;
    }
    if big {
        None
    } else {
        Some(acc as u32)
    }
}

/// The hexadecimal value of `v[a..b]`, watching for values beyond `u32`.
fn hex_val_exec(v: &Vec<char>, a: usize, b: usize) -> (r: Option<u32>)
    requires
        a <= b <= v@.len(),
    ensures
        match r {
            Some(x) => x == hex_val(v@.subrange(a as int, b as int)) && x <= u32::MAX,
            None => hex_val(v@.subrange(a as int, b as int)) > u32::MAX,
        },
{
    let mut acc: u64 = 0;
    let mut big: bool = false;
    let mut i: usize = a;
    assert(v@.subrange(a as int, a as int) =~= Seq::<char>::empty());
    while i < b
        invariant
            a <= i <= b <= v@.len(),
            !big ==> acc == hex_val(v@.subrange(a as int, i as int)) && acc <= u32::MAX as u64,
            big ==> hex_val(v@.subrange(a as int, i as int)) > u32::MAX,
        decreases b - i,
    {
        let c = v[i];
        let d: u64 = if '0' <= c && c <= '9' {
            (c as u32 as u64) - ('0' as u32 as u64)
        } else if 'a' <= c && c <= 'f' {
            (c as u32 as u64) - ('a' as u32 as u64) + 10
        } else if 'A' <= c && c <= 'F' {
            (c as u32 as u64) - ('A' as u32 as u64) + 10
        } else {
            0
        };
        proof {
            let pre = v@.subrange(a as int, i as int);
            let post = v@.subrange(a as int, i + 1);
            assert(post.drop_last() =~= pre);
            assert(post.last() == v@[i as int]);
            assert(hex_val(post) == hex_val(pre) * 16 + hex_digit_val(v@[i as int]));
        }
        if big {
            proof {
                let pre = v@.subrange(a as int, i as int);
                assert(hex_val(pre) * 16 >= hex_val(pre)) by (nonlinear_arith)
                    requires hex_val(pre) >= 0;
            }
        } else {
            assert(d == hex_digit_val(v@[i as int]));
            let acc2: u64 = acc * 16 + d;
            if acc2 > u32::MAX as u64 {
                big = true;
            } else {
                acc = acc2;
            }
        }
        i = i + 1;
    }
    if big {
        None
    } else {
        Some(acc as u32)
    }
}

/// Appends [`numeric_replacement`] of the value of `r` for the reference
/// text `v[i..j+1]`.
fn push_numeric(out: &mut Vec<char>, v: &Vec<char>, i: usize, j: usize, r: Option<u32>, Ghost(val): Ghost<nat>)
    requires
        i < j + 1 <= v@.len(),
        match r {
            Some(x) => x == val && x <= u32::MAX,
            None => val > u32::MAX,
        },
    ensures
        final(out)@ == old(out)@ + numeric_replacement(val, v@.subrange(i as int, j + 1)),
{
    let n = v.len();
    assert(j + 1 <= n);
    match r {
        Some(code) => {
            match char_from_code(code) {
                Some(c) => {
                    out.push(c);
                    proof {
                        vstd::utf8::char_u32_cast(c, code);
                        assert(c == char_of_code(code));
                        assert(out@ =~= old(out)@ + numeric_replacement(val, v@.subrange(i as int, j + 1)));
                    }
                },
                None => {
                    let orig = sub_chars(v, i, j + 1);
                    push_chars(out, &orig);
                },
            }
        },
        None => {
            let orig = sub_chars(v, i, j + 1);
            push_chars(out, &orig);
        },
    }
}

/// One decoding step at position `i` (where `v[i]` is `&`): appends the
/// replacement to `out` and returns the next position.
fn entity_step_exec(out: &mut Vec<char>, v: &Vec<char>, i: usize) -> (j: usize)
    requires
        i < v@.len(),
        v@[i as int] == '&',
    ensures
        final(out)@ == old(out)@ + entity_step(v@, i as int).0,
        j == entity_step(v@, i as int).1,
        i < j <= v@.len(),
{
    proof {
        lemma_entity_step_bounds(v@, i as int);
    }
    let n = v.len();
    if i + 1 < n && v[i + 1] == '#' {
        if i + 2 < n && v[i + 2] == 'x' {
            let j = scan_hex_end(v, i + 3);
            if j > i + 3 && j < n && v[j] == ';' {
                let r = hex_val_exec(v, i + 3, j);
                push_numeric(out, v, i, j, r, Ghost(hex_val(v@.subrange(i + 3, j as int))));
                j + 1
            } else {
                out.push('&');
                assert(out@ =~= old(out)@ + entity_step(v@, i as int).0);
                i + 1
            }
        } else {
            let j = scan_digit_end(v, i + 2);
            if j > i + 2 && j < n && v[j] == ';' {
                let r = dec_val_exec(v, i + 2, j);
                push_numeric(out, v, i, j, r, Ghost(dec_val(v@.subrange(i + 2, j as int))));
                j + 1
            } else {
                out.push('&');
                assert(out@ =~= old(out)@ + entity_step(v@, i as int).0);
                i + 1
            }
        }
    } else {
        let j = scan_word_end(v, i + 1);
        if j > i + 1 && j < n && v[j] == ';' {
            let name = sub_chars(v, i + 1, j);
            match lookup_named(&name) {
                Some(c) => {
                    out.push(c);
                    assert(out@ =~= old(out)@ + entity_step(v@, i as int).0);
                },
                None => {
                    let orig = sub_chars(v, i, j + 1);
                    push_chars(out, &orig);
                },
            }
            j + 1
        } else {
            out.push('&');
            assert(out@ =~= old(out)@ + entity_step(v@, i as int).0);
            i + 1
        }
    }
}

/// Entity decoding applied to a character vector.
pub fn decode_entities_chars(v: &Vec<char>) -> (out: Vec<char>)
    ensures
        out@ == spec_decode_entities(v@),
{
    let mut out: Vec<char> = Vec::new();
    let mut i: usize = 0;
    while i < v.len()
        invariant
            0 <= i <= v@.len(),
            out@ + spec_decode_from(v@, i as int) == spec_decode_from(v@, 0),
        decreases v@.len() - i,
    {
        let ghost before = out@;
        let ghost istart = i as int;
        if v[i] != '&' {
            out.push(v[i]);
            i = i + 1;
            assert(before + spec_decode_from(v@, istart) =~= out@ + spec_decode_from(v@, i as int));
        } else {
            i = entity_step_exec(&mut out, v, i);
            assert(before + spec_decode_from(v@, istart) =~= out@ + spec_decode_from(v@, i as int));
        }
    }
    assert(out@ =~= out@ + spec_decode_from(v@, i as int));
    out
}

/// Decode HTML character references in text; unrecognized or malformed
/// references are left as they are.
pub fn decode_entities(text: &str) -> (r: String)
    ensures
        r@ == spec_decode_entities(text@),
{
    let v = str_chars(text);
    let out = decode_entities_chars(&v);
    chars_string(&out)
}

} // verus!
