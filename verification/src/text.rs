//! Character and string utilities with exact specifications.
//!
//! Strings are specified by their view, the sequence of their `char`s.

use vstd::prelude::*;
use vstd::string::StringExecFns;

verus! {

/// Unicode `White_Space` property, as `char::is_whitespace` defines it.
pub open spec fn spec_is_whitespace(c: char) -> bool {
    ||| ('\u{9}' <= c && c <= '\u{d}')
    ||| c == ' '
    ||| c == '\u{85}'
    ||| c == '\u{a0}'
    ||| c == '\u{1680}'
    ||| ('\u{2000}' <= c && c <= '\u{200a}')
    ||| c == '\u{2028}'
    ||| c == '\u{2029}'
    ||| c == '\u{202f}'
    ||| c == '\u{205f}'
    ||| c == '\u{3000}'
}

/// Whether `c` is white space (the Unicode `White_Space` property).
pub fn is_whitespace(c: char) -> (r: bool)
    ensures
        r == spec_is_whitespace(c),
{
    ('\u{9}' <= c && c <= '\u{d}') || c == ' ' || c == '\u{85}' || c == '\u{a0}' || c == '\u{1680}'
        || ('\u{2000}' <= c && c <= '\u{200a}') || c == '\u{2028}' || c == '\u{2029}'
        || c == '\u{202f}' || c == '\u{205f}' || c == '\u{3000}'
}

pub open spec fn spec_is_ascii_digit(c: char) -> bool {
    '0' <= c && c <= '9'
}

/// Whether `c` is one of `0`..=`9`.
pub fn is_ascii_digit(c: char) -> (r: bool)
    ensures
        r == spec_is_ascii_digit(c),
{
    '0' <= c && c <= '9'
}

pub open spec fn spec_is_ascii_alphanumeric(c: char) -> bool {
    ||| ('a' <= c && c <= 'z')
    ||| ('A' <= c && c <= 'Z')
    ||| ('0' <= c && c <= '9')
}

pub open spec fn spec_is_ascii_hexdigit(c: char) -> bool {
    ||| ('a' <= c && c <= 'f')
    ||| ('A' <= c && c <= 'F')
    ||| ('0' <= c && c <= '9')
}

/// Whether `c` is an ASCII hexadecimal digit.
pub fn is_ascii_hexdigit(c: char) -> (r: bool)
    ensures
        r == spec_is_ascii_hexdigit(c),
{
    ('a' <= c && c <= 'f') || ('A' <= c && c <= 'F') || ('0' <= c && c <= '9')
}

/// What `char::is_alphanumeric` returns for `c` (the Unicode `Alphabetic`
/// property or a numeric general category).
pub uninterp spec fn unicode_is_alphanumeric(c: char) -> bool;

/// What `char::is_alphabetic` returns for `c` (the Unicode `Alphabetic` property).
pub uninterp spec fn unicode_is_alphabetic(c: char) -> bool;

/// Calls `char::is_alphanumeric`. The result is named by
/// `unicode_is_alphanumeric`; on ASCII characters it is stated exactly: letters
/// and digits.
#[verifier::external_body]
pub fn is_alphanumeric(c: char) -> (r: bool)
    ensures
        r == unicode_is_alphanumeric(c),
        (c as u32) < 128 ==> (r == spec_is_ascii_alphanumeric(c)),
{
    c.is_alphanumeric()
}

/// Calls `char::is_alphabetic`. The result is named by `unicode_is_alphabetic`;
/// on ASCII characters it is stated exactly: the letters.
#[verifier::external_body]
pub fn is_alphabetic(c: char) -> (r: bool)
    ensures
        r == unicode_is_alphabetic(c),
        (c as u32) < 128 ==> (r == (('a' <= c && c <= 'z') || ('A' <= c && c <= 'Z'))),
{
    c.is_alphabetic()
}

/// Appends `c` to `s` (calls `String::push`).
#[verifier::external_body]
pub fn push_char(s: &mut String, c: char)
    ensures
        final(s)@ == old(s)@.push(c),
{
    s.push(c);
}

/// The characters of `s`, in order.
pub fn str_to_chars(s: &str) -> (v: Vec<char>)
    ensures
        v@ == s@,
{
    let mut v: Vec<char> = Vec::new();
    for c in it: s.chars()
        invariant
            v@ == it.seq().take(it.index() as int),
    {
        v.push(c);
    }
    v
}

/// A `String` holding `v[start..end]`.
pub fn string_from_range(v: &[char], start: usize, end: usize) -> (s: String)
    requires
        start <= end <= v@.len(),
    ensures
        s@ == v@.subrange(start as int, end as int),
{
    let mut s = String::new();
    let mut i = start;
    while i < end
        invariant
            start <= i <= end <= v@.len(),
            s@ == v@.subrange(start as int, i as int),
        decreases end - i,
    {
        push_char(&mut s, v[i]);
        i = i + 1;
        assert(s@ == v@.subrange(start as int, i as int));
    }
    s
}

/// A `String` holding all of `v`.
pub fn string_from_chars(v: &[char]) -> (s: String)
    ensures
        s@ == v@,
{
    let s = string_from_range(v, 0, v.len());
    assert(v@.subrange(0, v@.len() as int) == v@);
    s
}

/// `s` with `t` appended.
pub fn push_string(s: &mut String, t: &String)
    ensures
        final(s)@ == old(s)@ + t@,
{
    s.append(t.as_str());
}

/// Whether `a` and `b` hold the same characters.
pub fn str_eq(a: &str, b: &str) -> (r: bool)
    ensures
        r == (a@ == b@),
{
    let va = str_to_chars(a);
    let vb = str_to_chars(b);
    if va.len() != vb.len() {
        return false;
    }
    let mut i: usize = 0;
    while i < va.len()
        invariant
            va@ == a@,
            vb@ == b@,
            va@.len() == vb@.len(),
            i <= va@.len(),
            va@.subrange(0, i as int) == vb@.subrange(0, i as int),
        decreases va.len() - i,
    {
        if va[i] != vb[i] {
            assert(va@[i as int] != vb@[i as int]);
            return false;
        }
        i = i + 1;
        assert(va@.subrange(0, i as int) == vb@.subrange(0, i as int)) by {
            assert forall|k: int| 0 <= k < i implies va@.subrange(0, i as int)[k] == vb@.subrange(
                0,
                i as int,
            )[k] by {
                if k < i - 1 {
                    assert(va@.subrange(0, i - 1)[k] == vb@.subrange(0, i - 1)[k]);
                }
            }
        }
    }
    assert(va@ == va@.subrange(0, va@.len() as int));
    assert(vb@ == vb@.subrange(0, vb@.len() as int));
    true
}

/// Whether `p` occurs in `s` starting at index `i`.
pub open spec fn occurs_at(s: Seq<char>, i: int, p: Seq<char>) -> bool {
    0 <= i && i + p.len() <= s.len() && s.subrange(i, i + p.len()) == p
}

/// Whether `p` occurs anywhere in `s`.
pub open spec fn seq_contains(s: Seq<char>, p: Seq<char>) -> bool {
    exists|i: int| occurs_at(s, i, p)
}

/// Whether `p` occurs in `s` at index `i` (a bounds-checked `starts_with` at `i`).
pub fn chars_occur_at(s: &[char], i: usize, p: &[char]) -> (r: bool)
    ensures
        r == occurs_at(s@, i as int, p@),
{
    let n = s.len();
    if i > n || p.len() > n - i {
        return false;
    }
    let mut k: usize = 0;
    while k < p.len()
        invariant
            i + p@.len() <= s@.len(),
            i <= s@.len(),
            n == s@.len(),
            k <= p@.len(),
            forall|j: int| 0 <= j < k ==> s@[i + j] == p@[j],
        decreases p.len() - k,
    {
        if s[i + k] != p[k] {
            assert(s@.subrange(i as int, i + p@.len())[k as int] != p@[k as int]);
            return false;
        }
        k = k + 1;
    }
    assert(s@.subrange(i as int, i + p@.len()) == p@);
    true
}

/// Whether the literal `p` occurs in `s` at index `i`.
pub fn lit_at(s: &[char], i: usize, p: &str) -> (r: bool)
    ensures
        r == occurs_at(s@, i as int, p@),
{
    let pv = str_to_chars(p);
    chars_occur_at(s, i, pv.as_slice())
}

/// Whether `p` occurs anywhere in `s`.
pub fn contains_chars(s: &[char], p: &[char]) -> (r: bool)
    ensures
        r == seq_contains(s@, p@),
{
    if p.len() > s.len() {
        assert forall|i: int| !occurs_at(s@, i, p@) by {}
        return false;
    }
    let last = s.len() - p.len();
    let mut i: usize = 0;
    loop
        invariant
            p@.len() <= s@.len(),
            last == s@.len() - p@.len(),
            i <= last,
            forall|j: int| 0 <= j < i ==> !occurs_at(s@, j, p@),
        ensures
            forall|j: int| 0 <= j <= last ==> !occurs_at(s@, j, p@),
        decreases last - i,
    {
        if chars_occur_at(s, i, p) {
            return true;
        }
        if i == last {
            break;
        }
        i = i + 1;
    }
    assert forall|j: int| !occurs_at(s@, j, p@) by {
        if 0 <= j && j + p@.len() <= s@.len() {
            assert(j <= last);
        }
    }
    false
}

/// Whether the literal `p` occurs anywhere in `s`.
pub fn str_contains(s: &str, p: &str) -> (r: bool)
    ensures
        r == seq_contains(s@, p@),
{
    let sv = str_to_chars(s);
    let pv = str_to_chars(p);
    contains_chars(sv.as_slice(), pv.as_slice())
}

/// Whether `s` starts with `p`.
pub fn str_starts_with(s: &str, p: &str) -> (r: bool)
    ensures
        r == occurs_at(s@, 0, p@),
{
    let sv = str_to_chars(s);
    lit_at(sv.as_slice(), 0, p)
}

/// Index of the first non-whitespace character of `s` at or after `from`
/// (or `to` if there is none before `to`).
pub open spec fn skip_ws_from(s: Seq<char>, from: int, to: int) -> int
    decreases to - from,
{
    if from < to && spec_is_whitespace(s[from]) {
        skip_ws_from(s, from + 1, to)
    } else {
        from
    }
}

/// One past the last non-whitespace character of `s[from..to]` (or `from`).
pub open spec fn trim_end_from(s: Seq<char>, from: int, to: int) -> int
    decreases to - from,
{
    if from < to && spec_is_whitespace(s[to - 1]) {
        trim_end_from(s, from, to - 1)
    } else {
        to
    }
}

/// `s` without leading and trailing white space (`str::trim`).
pub open spec fn spec_trim(s: Seq<char>) -> Seq<char> {
    let a = skip_ws_from(s, 0, s.len() as int);
    let b = trim_end_from(s, a, s.len() as int);
    s.subrange(a, b)
}

pub proof fn lemma_skip_ws_bounds(s: Seq<char>, from: int, to: int)
    requires
        from <= to,
    ensures
        from <= skip_ws_from(s, from, to) <= to,
    decreases to - from,
{
    if from < to && spec_is_whitespace(s[from]) {
        lemma_skip_ws_bounds(s, from + 1, to);
    }
}

pub proof fn lemma_trim_end_bounds(s: Seq<char>, from: int, to: int)
    requires
        from <= to,
    ensures
        from <= trim_end_from(s, from, to) <= to,
    decreases to - from,
{
    if from < to && spec_is_whitespace(s[to - 1]) {
        lemma_trim_end_bounds(s, from, to - 1);
    }
}

/// The bounds `(a, b)` of `s[from..to]` with surrounding white space removed.
pub fn trim_bounds(s: &[char], from: usize, to: usize) -> (r: (usize, usize))
    requires
        from <= to <= s@.len(),
    ensures
        r.0 == skip_ws_from(s@, from as int, to as int),
        r.1 == trim_end_from(s@, r.0 as int, to as int),
        from <= r.0 <= r.1 <= to,
{
    let mut a = from;
    while a < to && is_whitespace(s[a])
        invariant
            from <= a <= to <= s@.len(),
            skip_ws_from(s@, a as int, to as int) == skip_ws_from(s@, from as int, to as int),
        decreases to - a,
    {
        a = a + 1;
    }
    let mut b = to;
    while b > a && is_whitespace(s[b - 1])
        invariant
            a <= b <= to <= s@.len(),
            trim_end_from(s@, a as int, b as int) == trim_end_from(s@, a as int, to as int),
        decreases b - a,
    {
        b = b - 1;
    }
    (a, b)
}

/// `s[from..to]` with surrounding white space removed, as a `String`.
pub fn trimmed_range(s: &[char], from: usize, to: usize) -> (r: String)
    requires
        from <= to <= s@.len(),
    ensures
        r@ == spec_trim(s@.subrange(from as int, to as int)),
{
    let (a, b) = trim_bounds(s, from, to);
    proof {
        lemma_trim_shift(s@, from as int, to as int);
    }
    string_from_range(s, a, b)
}

proof fn lemma_trim_shift(s: Seq<char>, from: int, to: int)
    requires
        0 <= from <= to <= s.len(),
    ensures
        ({
            let a = skip_ws_from(s, from, to);
            let b = trim_end_from(s, a, to);
            spec_trim(s.subrange(from, to)) == s.subrange(a, b)
        }),
{
    let t = s.subrange(from, to);
    lemma_skip_shift(s, from, to, from);
    let a = skip_ws_from(s, from, to);
    lemma_skip_ws_bounds(s, from, to);
    lemma_trim_end_shift(s, from, to, a, to);
    lemma_trim_end_bounds(s, a, to);
    assert(t.subrange(a - from, trim_end_from(s, a, to) - from) == s.subrange(
        a,
        trim_end_from(s, a, to),
    ));
}

proof fn lemma_skip_shift(s: Seq<char>, from: int, to: int, i: int)
    requires
        0 <= from <= i <= to <= s.len(),
    ensures
        skip_ws_from(s.subrange(from, to), i - from, to - from) == skip_ws_from(s, i, to) - from,
    decreases to - i,
{
    if i < to {
        assert(s.subrange(from, to)[i - from] == s[i]);
        if spec_is_whitespace(s[i]) {
            lemma_skip_shift(s, from, to, i + 1);
        }
    }
}

proof fn lemma_trim_end_shift(s: Seq<char>, from: int, to: int, a: int, b: int)
    requires
        0 <= from <= a <= b <= to <= s.len(),
    ensures
        trim_end_from(s.subrange(from, to), a - from, b - from) == trim_end_from(s, a, b) - from,
    decreases b - a,
{
    if a < b {
        assert(s.subrange(from, to)[b - 1 - from] == s[b - 1]);
        if spec_is_whitespace(s[b - 1]) {
            lemma_trim_end_shift(s, from, to, a, b - 1);
        }
    }
}

/// Skipping white space stops at a character that is not white space, or
/// at the end.
pub proof fn lemma_skip_ws_stops(s: Seq<char>, from: int, to: int)
    requires
        0 <= from <= to <= s.len(),
    ensures
        skip_ws_from(s, from, to) < to ==> !spec_is_whitespace(s[skip_ws_from(s, from, to)]),
    decreases to - from,
{
    if from < to && spec_is_whitespace(s[from]) {
        lemma_skip_ws_stops(s, from + 1, to);
    }
}

/// Trimming the end stops after a character that is not white space, or at
/// the start.
pub proof fn lemma_trim_end_stops(s: Seq<char>, from: int, to: int)
    requires
        0 <= from <= to <= s.len(),
    ensures
        trim_end_from(s, from, to) > from ==> !spec_is_whitespace(s[trim_end_from(s, from, to) - 1]),
    decreases to - from,
{
    if from < to && spec_is_whitespace(s[to - 1]) {
        lemma_trim_end_stops(s, from, to - 1);
    }
}

/// Trimming twice is trimming once (`s.trim().trim() == s.trim()`).
pub proof fn lemma_trim_idempotent(s: Seq<char>)
    ensures
        spec_trim(spec_trim(s)) == spec_trim(s),
{
    let n = s.len() as int;
    lemma_skip_ws_bounds(s, 0, n);
    let a = skip_ws_from(s, 0, n);
    lemma_trim_end_bounds(s, a, n);
    let b = trim_end_from(s, a, n);
    let t = s.subrange(a, b);
    lemma_skip_ws_stops(s, 0, n);
    lemma_trim_end_stops(s, a, n);
    if a < b {
        assert(t[0] == s[a]);
        assert(skip_ws_from(t, 0, t.len() as int) == 0);
        assert(t[t.len() - 1] == s[b - 1]);
        assert(trim_end_from(t, 0, t.len() as int) == t.len());
        assert(t.subrange(0, t.len() as int) =~= t);
    } else {
        assert(t.len() == 0);
        assert(skip_ws_from(t, 0, 0) == 0);
        assert(trim_end_from(t, 0, 0) == 0);
        assert(t.subrange(0, 0) =~= t);
    }
}

/// Trimming never makes a string longer.
pub proof fn lemma_trim_len(s: Seq<char>)
    ensures
        spec_trim(s).len() <= s.len(),
{
    lemma_skip_ws_bounds(s, 0, s.len() as int);
    let a = skip_ws_from(s, 0, s.len() as int);
    lemma_trim_end_bounds(s, a, s.len() as int);
}

/// `s` without leading and trailing white space (`str::trim`).
pub fn trim_str(s: &str) -> (r: String)
    ensures
        r@ == spec_trim(s@),
{
    let v = str_to_chars(s);
    let r = trimmed_range(v.as_slice(), 0, v.len());
    assert(v@.subrange(0, v@.len() as int) == v@);
    r
}

/// The decimal digits of `n` (what `n.to_string()` gives for an unsigned integer).
pub open spec fn decimal(n: nat) -> Seq<char>
    decreases n,
{
    if n < 10 {
        seq![digit_char(n)]
    } else {
        decimal(n / 10).push(digit_char(n % 10))
    }
}

pub open spec fn digit_char(d: nat) -> char {
    if d == 0 { '0' }
    else if d == 1 { '1' }
    else if d == 2 { '2' }
    else if d == 3 { '3' }
    else if d == 4 { '4' }
    else if d == 5 { '5' }
    else if d == 6 { '6' }
    else if d == 7 { '7' }
    else if d == 8 { '8' }
    else { '9' }
}

fn digit(d: usize) -> (c: char)
    requires
        d < 10,
    ensures
        c == digit_char(d as nat),
{
    if d == 0 { '0' }
    else if d == 1 { '1' }
    else if d == 2 { '2' }
    else if d == 3 { '3' }
    else if d == 4 { '4' }
    else if d == 5 { '5' }
    else if d == 6 { '6' }
    else if d == 7 { '7' }
    else if d == 8 { '8' }
    else { '9' }
}

/// Appends the decimal digits of `n` to `s`.
pub fn push_decimal(s: &mut String, n: usize)
    ensures
        final(s)@ == old(s)@ + decimal(n as nat),
    decreases n,
{
    if n < 10 {
        push_char(s, digit(n));
        assert(decimal(n as nat) == seq![digit_char(n as nat)]);
    } else {
        push_decimal(s, n / 10);
        push_char(s, digit(n % 10));
        assert(decimal(n as nat) == decimal((n / 10) as nat).push(digit_char((n % 10) as nat)));
    }
}

/// Appends the literal `t` to `s`.
pub fn push_lit(s: &mut String, t: &str)
    ensures
        final(s)@ == old(s)@ + t@,
{
    s.append(t);
}

/// A `String` holding `t`.
pub fn lit(t: &str) -> (r: String)
    ensures
        r@ == t@,
{
    String::from_str(t)
}

} // verus!
