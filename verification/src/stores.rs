//! Kotlin code for state holders: ViewModels and singletons generated from
//! store classes, and the ViewModel of a component with inline state.

use vstd::prelude::*;

use crate::compose_imports::{only_if, strs};
use crate::view::import_lines;
use crate::analyzer::{StoreRegistry, StoreSource};
use crate::ast::{
    ClassDeclaration, ConstructorDeclaration, FunctionDeclaration, Import, KotlinBlock, LifecycleHook,
    PropertyDeclaration, StateDeclaration, WhitehallFile,
};
use crate::compose::{
    array_list, hook_body_with_params, without_outer_launch, update_method, update_name_ok, ascii_lower, find_chars, find_from, lemma_find_from, resolve_import, resolved_import,
};
use crate::text::{
    is_ascii_digit, lit, push_lit, push_string, seq_contains, spec_is_ascii_digit, spec_trim,
    str_contains, str_eq, str_to_chars,
};

verus! {

// ===================== Ordering strings =====================

/// `a` comes strictly before `b` in the lexicographic order of their
/// characters (by code point, the order of `String`'s `Ord` on UTF-8 text).
pub open spec fn lex_lt(a: Seq<char>, b: Seq<char>) -> bool
    decreases a.len(),
{
    if b.len() == 0 {
        false
    } else if a.len() == 0 {
        true
    } else if a[0] != b[0] {
        a[0] < b[0]
    } else {
        lex_lt(a.drop_first(), b.drop_first())
    }
}

pub proof fn lemma_lex_irreflexive(a: Seq<char>)
    ensures
        !lex_lt(a, a),
    decreases a.len(),
{
    if a.len() > 0 {
        lemma_lex_irreflexive(a.drop_first());
    }
}

pub proof fn lemma_lex_transitive(a: Seq<char>, b: Seq<char>, c: Seq<char>)
    requires
        lex_lt(a, b),
        lex_lt(b, c),
    ensures
        lex_lt(a, c),
    decreases a.len(),
{
    if a.len() > 0 && b.len() > 0 && c.len() > 0 && a[0] == b[0] && b[0] == c[0] {
        lemma_lex_transitive(a.drop_first(), b.drop_first(), c.drop_first());
    }
}

pub proof fn lemma_lex_total(a: Seq<char>, b: Seq<char>)
    requires
        a != b,
    ensures
        lex_lt(a, b) || lex_lt(b, a),
    decreases a.len(),
{
    if a.len() > 0 && b.len() > 0 && a[0] != b[0] {
        assert(a[0] < b[0] || b[0] < a[0]);
    } else if a.len() > 0 && b.len() > 0 && a[0] == b[0] {
        if a.drop_first() == b.drop_first() {
            assert(a =~= seq![a[0]] + a.drop_first());
            assert(b =~= seq![b[0]] + b.drop_first());
        }
        lemma_lex_total(a.drop_first(), b.drop_first());
    } else if a.len() == 0 && b.len() == 0 {
        assert(a =~= b);
    }
}

pub proof fn lemma_lex_asymmetric(a: Seq<char>, b: Seq<char>)
    requires
        lex_lt(a, b),
    ensures
        !lex_lt(b, a),
{
    if lex_lt(b, a) {
        lemma_lex_transitive(a, b, a);
        lemma_lex_irreflexive(a);
    }
}

/// Each element of `v` comes strictly before the next.
pub open spec fn strictly_sorted(v: Seq<Seq<char>>) -> bool {
    forall|i: int, j: int| 0 <= i < j < v.len() ==> lex_lt(#[trigger] v[i], #[trigger] v[j])
}

/// `a` and `b` hold the same strings (each any number of times).
pub open spec fn same_elements(a: Seq<Seq<char>>, b: Seq<Seq<char>>) -> bool {
    forall|x: Seq<char>| a.contains(x) <==> b.contains(x)
}

/// The distinct strings of `xs` in increasing order (as `sort` then `dedup`).
pub open spec fn sorted_distinct(xs: Seq<Seq<char>>) -> Seq<Seq<char>> {
    choose|v: Seq<Seq<char>>| strictly_sorted(v) && same_elements(v, xs)
}

/// The number of leading strings of `v` that come before `x`.
pub open spec fn count_below(v: Seq<Seq<char>>, x: Seq<char>) -> nat
    decreases v.len(),
{
    if v.len() > 0 && lex_lt(v[0], x) {
        1 + count_below(v.drop_first(), x)
    } else {
        0
    }
}

proof fn lemma_count_below(v: Seq<Seq<char>>, x: Seq<char>)
    ensures
        count_below(v, x) <= v.len(),
        forall|i: int| 0 <= i < count_below(v, x) ==> lex_lt(#[trigger] v[i], x),
        count_below(v, x) < v.len() ==> !lex_lt(v[count_below(v, x) as int], x),
    decreases v.len(),
{
    if v.len() > 0 && lex_lt(v[0], x) {
        lemma_count_below(v.drop_first(), x);
        assert forall|i: int| 0 <= i < count_below(v, x) implies lex_lt(#[trigger] v[i], x) by {
            if i > 0 {
                assert(v[i] == v.drop_first()[i - 1]);
            }
        }
    }
}

/// `x`, missing from the increasing list `v`, put in its place.
proof fn lemma_insert_sorted(v: Seq<Seq<char>>, x: Seq<char>) -> (w: Seq<Seq<char>>)
    requires
        strictly_sorted(v),
        !v.contains(x),
    ensures
        strictly_sorted(w),
        forall|y: Seq<char>| w.contains(y) <==> (v.contains(y) || y == x),
{
    lemma_count_below(v, x);
    let k = count_below(v, x) as int;
    let w = v.take(k).push(x) + v.skip(k);
    assert forall|i: int| k <= i < v.len() implies lex_lt(x, #[trigger] v[i]) by {
        assert(v[k] != x);
        lemma_lex_total(v[k], x);
        if i > k {
            lemma_lex_transitive(x, v[k], v[i]);
        }
    }
    assert forall|i: int, j: int| 0 <= i < j < w.len() implies lex_lt(#[trigger] w[i], #[trigger] w[j]) by {
        if j < k {
            assert(w[i] == v[i] && w[j] == v[j]);
        } else if j == k {
            assert(w[i] == v[i] && w[j] == x);
        } else if i < k {
            assert(w[i] == v[i] && w[j] == v[j - 1]);
        } else if i == k {
            assert(w[i] == x && w[j] == v[j - 1]);
        } else {
            assert(w[i] == v[i - 1] && w[j] == v[j - 1]);
        }
    }
    assert forall|y: Seq<char>| w.contains(y) <==> (v.contains(y) || y == x) by {
        if w.contains(y) {
            let i = choose|i: int| 0 <= i < w.len() && w[i] == y;
            if i < k {
                assert(v[i] == y);
            } else if i > k {
                assert(v[i - 1] == y);
            }
        }
        if v.contains(y) {
            let i = choose|i: int| 0 <= i < v.len() && v[i] == y;
            if i < k {
                assert(w[i] == y);
            } else {
                assert(w[i + 1] == y);
            }
        }
        if y == x {
            assert(w[k] == y);
        }
    }
    w
}

/// Some increasing list holds exactly the strings of `xs`.
pub proof fn lemma_sorted_exists(xs: Seq<Seq<char>>)
    ensures
        exists|v: Seq<Seq<char>>| strictly_sorted(v) && same_elements(v, xs),
    decreases xs.len(),
{
    if xs.len() == 0 {
        let v = Seq::<Seq<char>>::empty();
        assert(strictly_sorted(v) && same_elements(v, xs));
    } else {
        let d = xs.drop_last();
        let x = xs.last();
        lemma_sorted_exists(d);
        let v = choose|v: Seq<Seq<char>>| strictly_sorted(v) && same_elements(v, d);
        assert forall|y: Seq<char>| xs.contains(y) <==> (d.contains(y) || y == x) by {
            if xs.contains(y) {
                let i = choose|i: int| 0 <= i < xs.len() && xs[i] == y;
                if i < d.len() {
                    assert(d[i] == y);
                }
            }
            if d.contains(y) {
                let i = choose|i: int| 0 <= i < d.len() && d[i] == y;
                assert(xs[i] == y);
            }
            if y == x {
                assert(xs[xs.len() - 1] == y);
            }
        }
        if v.contains(x) {
            assert(strictly_sorted(v) && same_elements(v, xs));
        } else {
            let w = lemma_insert_sorted(v, x);
            assert(strictly_sorted(w) && same_elements(w, xs));
        }
    }
}

/// The imports a generated component lists (`sorted_distinct` of the ones
/// it asks for) come in strictly ascending order, so none twice, and are
/// exactly the ones asked for.
pub proof fn law_imports_sorted_distinct(xs: Seq<Seq<char>>)
    ensures
        strictly_sorted(sorted_distinct(xs)),
        same_elements(sorted_distinct(xs), xs),
        forall|i: int, j: int|
            0 <= i < j < sorted_distinct(xs).len() ==> sorted_distinct(xs)[i] != sorted_distinct(xs)[j],
{
    lemma_sorted_exists(xs);
    let v = sorted_distinct(xs);
    assert forall|i: int, j: int| 0 <= i < j < v.len() implies v[i] != v[j] by {
        assert(lex_lt(v[i], v[j]));
        lemma_lex_irreflexive(v[i]);
    }
}

/// Two increasing lists with the same strings are equal: `sorted_distinct`
/// names one list.
pub proof fn lemma_sorted_unique(a: Seq<Seq<char>>, b: Seq<Seq<char>>)
    requires
        strictly_sorted(a),
        strictly_sorted(b),
        same_elements(a, b),
    ensures
        a == b,
    decreases a.len(),
{
    if a.len() == 0 {
        if b.len() > 0 {
            assert(b.contains(b[0]));
        }
        assert(a =~= b);
    } else {
        assert(a.contains(a[0]));
        assert(b.len() > 0);
        assert(b.contains(b[0]));
        let k = choose|k: int| 0 <= k < b.len() && b[k] == a[0];
        let j = choose|j: int| 0 <= j < a.len() && a[j] == b[0];
        if k > 0 {
            assert(lex_lt(b[0], b[k]));
            if j > 0 {
                assert(lex_lt(a[0], a[j]));
                lemma_lex_asymmetric(a[0], a[j]);
            } else {
                lemma_lex_irreflexive(a[0]);
            }
        }
        assert(a[0] == b[0]);
        let ra = a.drop_first();
        let rb = b.drop_first();
        assert forall|x: Seq<char>| ra.contains(x) implies rb.contains(x) by {
            let i = choose|i: int| 0 <= i < ra.len() && ra[i] == x;
            assert(lex_lt(a[0], a[i + 1]));
            lemma_lex_irreflexive(a[0]);
            assert(a.contains(x));
            assert(b.contains(x));
            let m = choose|m: int| 0 <= m < b.len() && b[m] == x;
            assert(m != 0);
            assert(rb[m - 1] == x);
        }
        assert forall|x: Seq<char>| rb.contains(x) implies ra.contains(x) by {
            let i = choose|i: int| 0 <= i < rb.len() && rb[i] == x;
            assert(lex_lt(b[0], b[i + 1]));
            lemma_lex_irreflexive(b[0]);
            assert(b.contains(x));
            assert(a.contains(x));
            let m = choose|m: int| 0 <= m < a.len() && a[m] == x;
            assert(m != 0);
            assert(ra[m - 1] == x);
        }
        assert forall|i: int, j: int| 0 <= i < j < ra.len() implies lex_lt(
            #[trigger] ra[i],
            #[trigger] ra[j],
        ) by {
            assert(ra[i] == a[i + 1] && ra[j] == a[j + 1]);
        }
        assert forall|i: int, j: int| 0 <= i < j < rb.len() implies lex_lt(
            #[trigger] rb[i],
            #[trigger] rb[j],
        ) by {
            assert(rb[i] == b[i + 1] && rb[j] == b[j + 1]);
        }
        lemma_sorted_unique(ra, rb);
        assert(a =~= seq![a[0]] + ra);
        assert(b =~= seq![b[0]] + rb);
    }
}

/// Whether `a` comes strictly before `b`.
pub fn str_lt(a: &str, b: &str) -> (r: bool)
    ensures
        r == lex_lt(a@, b@),
{
    let va = str_to_chars(a);
    let vb = str_to_chars(b);
    let mut i: usize = 0;
    proof {
        assert(va@.skip(0) =~= va@);
        assert(vb@.skip(0) =~= vb@);
    }
    loop
        invariant
            i <= va@.len(),
            i <= vb@.len(),
            va@ == a@,
            vb@ == b@,
            lex_lt(a@, b@) == lex_lt(va@.skip(i as int), vb@.skip(i as int)),
        decreases va@.len() - i,
    {
        if i == vb.len() {
            return false;
        }
        if i == va.len() {
            return true;
        }
        if va[i] != vb[i] {
            return va[i] < vb[i];
        }
        proof {
            assert(va@.skip(i as int).drop_first() =~= va@.skip(i + 1));
            assert(vb@.skip(i as int).drop_first() =~= vb@.skip(i + 1));
        }
        i = i + 1;
    }
}

/// Puts `x` into the increasing list `v` unless it is there.
fn insert_sorted(v: &mut Vec<String>, x: &str)
    requires
        strictly_sorted(strs(old(v)@)),
    ensures
        strictly_sorted(strs(final(v)@)),
        forall|y: Seq<char>| #[trigger]
            strs(final(v)@).contains(y) <==> (strs(old(v)@).contains(y) || y == x@),
{
    let ghost s0 = strs(v@);
    let mut i: usize = 0;
    while i < v.len()
        invariant
            i <= v@.len(),
            s0 == strs(v@),
            strictly_sorted(s0),
            forall|j: int| 0 <= j < i ==> lex_lt(#[trigger] s0[j], x@),
        ensures
            i <= v@.len(),
            s0 == strs(v@),
            i < v@.len() ==> lex_lt(x@, s0[i as int]),
            forall|j: int| 0 <= j < i ==> lex_lt(#[trigger] s0[j], x@),
        decreases v.len() - i,
    {
        if str_eq(v[i].as_str(), x) {
            proof {
                assert(s0[i as int] == x@);
            }
            return;
        }
        if str_lt(x, v[i].as_str()) {
            break;
        }
        proof {
            lemma_lex_total(x@, s0[i as int]);
        }
        i = i + 1;
    }
    proof {
        assert forall|j: int| i <= j < s0.len() implies lex_lt(x@, #[trigger] s0[j]) by {
            if j > i {
                lemma_lex_transitive(x@, s0[i as int], s0[j]);
            }
        }
    }
    v.insert(i, lit(x));
    proof {
        let s1 = strs(v@);
        assert(s1 =~= s0.insert(i as int, x@));
        assert forall|a: int, b: int| 0 <= a < b < s1.len() implies lex_lt(
            #[trigger] s1[a],
            #[trigger] s1[b],
        ) by {
            if b < i {
            } else if b == i {
            } else if a < i {
                assert(s1[b] == s0[b - 1]);
                lemma_lex_transitive(s0[a], x@, s0[b - 1]);
            } else if a == i {
                assert(s1[b] == s0[b - 1]);
            } else {
                assert(s1[a] == s0[a - 1] && s1[b] == s0[b - 1]);
            }
        }
        assert forall|y: Seq<char>| #[trigger] s1.contains(y) <==> (s0.contains(y) || y == x@) by {
            if s1.contains(y) {
                let k = choose|k: int| 0 <= k < s1.len() && s1[k] == y;
                if k < i {
                    assert(s0[k] == y);
                } else if k > i {
                    assert(s0[k - 1] == y);
                }
            }
            if s0.contains(y) {
                let k = choose|k: int| 0 <= k < s0.len() && s0[k] == y;
                if k < i {
                    assert(s1[k] == y);
                } else {
                    assert(s1[k + 1] == y);
                }
            }
            if y == x@ {
                assert(s1[i as int] == y);
            }
        }
    }
}

/// The distinct strings of `xs` in increasing order (as `sort` then `dedup`).
pub fn sort_dedup(xs: &Vec<String>) -> (r: Vec<String>)
    ensures
        strs(r@) == sorted_distinct(strs(xs@)),
{
    let mut r: Vec<String> = Vec::new();
    let mut i: usize = 0;
    while i < xs.len()
        invariant
            i <= xs@.len(),
            strictly_sorted(strs(r@)),
            same_elements(strs(r@), strs(xs@).take(i as int)),
        decreases xs.len() - i,
    {
        insert_sorted(&mut r, xs[i].as_str());
        proof {
            let t = strs(xs@).take(i + 1);
            assert(t =~= strs(xs@).take(i as int).push(xs@[i as int]@));
            assert forall|y: Seq<char>| strs(r@).contains(y) <==> t.contains(y) by {
                if t.contains(y) {
                    let k = choose|k: int| 0 <= k < t.len() && t[k] == y;
                    if k < i {
                        assert(strs(xs@).take(i as int)[k] == y);
                    }
                }
                if strs(xs@).take(i as int).contains(y) {
                    let k = choose|k: int|
                        0 <= k < strs(xs@).take(i as int).len() && strs(xs@).take(i as int)[k] == y;
                    assert(t[k] == y);
                }
                if y == xs@[i as int]@ {
                    assert(t[i as int] == y);
                }
            }
        }
        i = i + 1;
    }
    proof {
        assert(strs(xs@).take(xs@.len() as int) =~= strs(xs@));
        let w = sorted_distinct(strs(xs@));
        assert(strictly_sorted(w) && same_elements(w, strs(xs@)));
        lemma_sorted_unique(strs(r@), w);
    }
    r
}

// ===================== Number literals =====================

/// Whether every character of `s` is an ASCII digit.
pub open spec fn all_digits(s: Seq<char>) -> bool {
    forall|i: int| 0 <= i < s.len() ==> spec_is_ascii_digit(#[trigger] s[i])
}

/// The value of the decimal digits `s`.
pub open spec fn digits_value(s: Seq<char>) -> nat
    decreases s.len(),
{
    if s.len() == 0 {
        0
    } else {
        digits_value(s.drop_last()) * 10 + ((s.last() as u32) - 48) as nat
    }
}

/// `s` without a leading `+` or `-`.
pub open spec fn unsigned_part(s: Seq<char>) -> Seq<char> {
    if s.len() > 0 && (s[0] == '+' || s[0] == '-') {
        s.drop_first()
    } else {
        s
    }
}

/// Whether `s` is accepted by `str::parse::<i32>`: an optional sign, then
/// at least one decimal digit, with a value in the range of `i32`.
pub open spec fn i32_text(s: Seq<char>) -> bool {
    let d = unsigned_part(s);
    let negative = s.len() > 0 && s[0] == '-';
    d.len() > 0 && all_digits(d) && digits_value(d) <= if negative {
        2147483648nat
    } else {
        2147483647nat
    }
}

/// Index of the first `c` in `s`, if any.
pub open spec fn first_index(s: Seq<char>, c: char) -> Option<int> {
    if exists|i: int| 0 <= i < s.len() && s[i] == c {
        Some(choose|i: int| 0 <= i < s.len() && s[i] == c && forall|j: int| 0 <= j < i ==> s[j] != c)
    } else {
        None
    }
}

/// A mantissa: digits with at most one `.`, and at least one digit.
pub open spec fn mantissa_text(m: Seq<char>) -> bool {
    match first_index(m, '.') {
        None => m.len() > 0 && all_digits(m),
        Some(d) => m.len() > 1 && all_digits(m.take(d)) && all_digits(m.skip(d + 1)),
    }
}

/// An exponent after `e`: an optional sign, then at least one digit.
pub open spec fn exponent_text(x: Seq<char>) -> bool {
    unsigned_part(x).len() > 0 && all_digits(unsigned_part(x))
}

/// A decimal number: a mantissa with an optional exponent (`e`, lower case).
pub open spec fn number_text(u: Seq<char>) -> bool {
    match first_index(u, 'e') {
        None => mantissa_text(u),
        Some(p) => mantissa_text(u.take(p)) && exponent_text(u.skip(p + 1)),
    }
}

/// Whether `s` is accepted by `str::parse::<f64>`: in ASCII lower case, an
/// optional sign, then `inf`, `infinity`, `nan` or a decimal number (the
/// grammar that the documentation of `f64::from_str` gives).
pub open spec fn float_text(s: Seq<char>) -> bool {
    let u = unsigned_part(s.map_values(|c: char| ascii_lower(c)));
    u == "inf"@ || u == "infinity"@ || u == "nan"@ || number_text(u)
}

/// The Kotlin type of an initial value: `Int`, `Double`, `Boolean`,
/// `String` (a quoted value) or `Unknown`.
pub open spec fn inferred_type(value: Seq<char>) -> Seq<char> {
    let t = spec_trim(value);
    if i32_text(t) {
        "Int"@
    } else if float_text(t) {
        "Double"@
    } else if t == "true"@ || t == "false"@ {
        "Boolean"@
    } else if t.len() > 0 && t[0] == '"' && t.last() == '"' {
        "String"@
    } else {
        "Unknown"@
    }
}

/// Whether every character of `v[from..to]` is an ASCII digit.
fn digits_between(v: &Vec<char>, from: usize, to: usize) -> (r: bool)
    requires
        from <= to <= v@.len(),
    ensures
        r == all_digits(v@.subrange(from as int, to as int)),
{
    let mut i = from;
    while i < to
        invariant
            from <= i <= to <= v@.len(),
            all_digits(v@.subrange(from as int, i as int)),
        decreases to - i,
    {
        if !is_ascii_digit(v[i]) {
            assert(v@.subrange(from as int, to as int)[i - from] == v@[i as int]);
            return false;
        }
        i = i + 1;
        assert forall|k: int| 0 <= k < i - from implies spec_is_ascii_digit(
            #[trigger] v@.subrange(from as int, i as int)[k],
        ) by {
            if k < i - 1 - from {
                assert(v@.subrange(from as int, i - 1)[k] == v@.subrange(from as int, i as int)[k]);
            }
        }
    }
    true
}

proof fn lemma_digits_value_step(s: Seq<char>, k: int)
    requires
        0 <= k < s.len(),
    ensures
        digits_value(s.take(k + 1)) == digits_value(s.take(k)) * 10 + ((s[k] as u32) - 48) as nat,
{
    assert(s.take(k + 1).drop_last() =~= s.take(k));
}

/// Whether `s` is accepted by `str::parse::<i32>`.
pub fn parses_as_i32(s: &str) -> (r: bool)
    ensures
        r == i32_text(s@),
{
    let v = str_to_chars(s);
    let negative = v.len() > 0 && v[0] == '-';
    let start: usize = if v.len() > 0 && (v[0] == '+' || v[0] == '-') {
        1
    } else {
        0
    };
    let ghost d = unsigned_part(s@);
    proof {
        assert(d =~= v@.subrange(start as int, v@.len() as int));
    }
    if start == v.len() {
        return false;
    }
    let limit: u64 = if negative {
        2147483648
    } else {
        2147483647
    };
    let mut value: u64 = 0;
    let mut i = start;
    while i < v.len()
        invariant
            start <= i <= v@.len(),
            d == v@.subrange(start as int, v@.len() as int),
            d == unsigned_part(s@),
            v@ == s@,
            limit == if s@.len() > 0 && s@[0] == '-' {
                2147483648u64
            } else {
                2147483647u64
            },
            all_digits(d.take(i - start)),
            value as int == if digits_value(d.take(i - start)) > limit {
                limit + 1
            } else {
                digits_value(d.take(i - start)) as int
            },
        decreases v.len() - i,
    {
        let c = v[i];
        if !is_ascii_digit(c) {
            assert(d[i - start] == c);
            assert(!spec_is_ascii_digit(d[i - start]));
            return false;
        }
        proof {
            lemma_digits_value_step(d, i - start);
            assert(d[i - start] == c);
            assert forall|k: int| 0 <= k < i + 1 - start implies spec_is_ascii_digit(
                #[trigger] d.take(i + 1 - start)[k],
            ) by {
                if k < i - start {
                    assert(d.take(i - start)[k] == d.take(i + 1 - start)[k]);
                }
            }
        }
        let digit = (c as u32 - 48) as u64;
        if value > limit {
            value = limit + 1;
        } else {
            value = value * 10 + digit;
            if value > limit {
                value = limit + 1;
            }
        }
        i = i + 1;
    }
    proof {
        assert(d.take(d.len() as int) =~= d);
    }
    value <= limit
}

/// Index of the first `c` in `v`, if any.
pub(crate) fn first_index_of(v: &Vec<char>, c: char) -> (r: Option<usize>)
    ensures
        match r {
            Some(i) => first_index(v@, c) == Some(i as int) && i < v@.len(),
            None => first_index(v@, c) is None,
        },
{
    let mut i: usize = 0;
    while i < v.len()
        invariant
            i <= v@.len(),
            forall|j: int| 0 <= j < i ==> v@[j] != c,
        decreases v.len() - i,
    {
        if v[i] == c {
            proof {
                let w = choose|w: int|
                    0 <= w < v@.len() && v@[w] == c && forall|j: int| 0 <= j < w ==> v@[j] != c;
                assert(v@[i as int] == c);
                if w < i {
                    assert(v@[w] != c);
                } else if w > i {
                    assert(v@[i as int] != c);
                }
            }
            return Some(i);
        }
        i = i + 1;
    }
    None
}

/// `v[from..to]` as a vector.
fn sub_chars(v: &Vec<char>, from: usize, to: usize) -> (r: Vec<char>)
    requires
        from <= to <= v@.len(),
    ensures
        r@ == v@.subrange(from as int, to as int),
{
    let mut r: Vec<char> = Vec::new();
    let mut i = from;
    while i < to
        invariant
            from <= i <= to <= v@.len(),
            r@ == v@.subrange(from as int, i as int),
        decreases to - i,
    {
        r.push(v[i]);
        i = i + 1;
        assert(r@ =~= v@.subrange(from as int, i as int));
    }
    r
}

/// `v` without a leading `+` or `-`.
fn unsigned_chars(v: &Vec<char>) -> (r: Vec<char>)
    ensures
        r@ == unsigned_part(v@),
{
    if v.len() > 0 && (v[0] == '+' || v[0] == '-') {
        let r = sub_chars(v, 1, v.len());
        assert(r@ =~= v@.drop_first());
        r
    } else {
        let r = sub_chars(v, 0, v.len());
        assert(r@ =~= v@);
        r
    }
}

/// Whether `m` is a mantissa.
fn mantissa_ok(m: &Vec<char>) -> (r: bool)
    ensures
        r == mantissa_text(m@),
{
    match first_index_of(m, '.') {
        None => {
            let all = digits_between(m, 0, m.len());
            assert(m@.subrange(0, m@.len() as int) =~= m@);
            m.len() > 0 && all
        },
        Some(d) => {
            let n = m.len();
            assert(d < n);
            let before = digits_between(m, 0, d);
            let after = digits_between(m, d + 1, m.len());
            assert(m@.subrange(0, d as int) =~= m@.take(d as int));
            assert(m@.subrange(d + 1, m@.len() as int) =~= m@.skip(d + 1));
            m.len() > 1 && before && after
        },
    }
}

/// Whether `x` is an exponent (after the `e`).
fn exponent_ok(x: &Vec<char>) -> (r: bool)
    ensures
        r == exponent_text(x@),
{
    let y = unsigned_chars(x);
    let all = digits_between(&y, 0, y.len());
    assert(y@.subrange(0, y@.len() as int) =~= y@);
    y.len() > 0 && all
}

/// Whether `u` is a decimal number.
fn number_ok(u: &Vec<char>) -> (r: bool)
    ensures
        r == number_text(u@),
{
    match first_index_of(u, 'e') {
        None => mantissa_ok(u),
        Some(p) => {
            let n = u.len();
            assert(p < n);
            let m = sub_chars(u, 0, p);
            let x = sub_chars(u, p + 1, u.len());
            assert(m@ =~= u@.take(p as int));
            assert(x@ =~= u@.skip(p + 1));
            mantissa_ok(&m) && exponent_ok(&x)
        },
    }
}

/// Whether `s` is accepted by `str::parse::<f64>`.
pub fn parses_as_f64(s: &str) -> (r: bool)
    ensures
        r == float_text(s@),
{
    let v = str_to_chars(s);
    let mut lower: Vec<char> = Vec::new();
    let mut i: usize = 0;
    while i < v.len()
        invariant
            i <= v@.len(),
            lower@ == v@.take(i as int).map_values(|c: char| ascii_lower(c)),
        decreases v.len() - i,
    {
        lower.push(crate::compose::to_ascii_lower(v[i]));
        i = i + 1;
        assert(lower@ =~= v@.take(i as int).map_values(|c: char| ascii_lower(c)));
    }
    assert(v@.take(v@.len() as int) =~= v@);
    let u = unsigned_chars(&lower);
    let us = crate::text::string_from_chars(u.as_slice());
    str_eq(us.as_str(), "inf") || str_eq(us.as_str(), "infinity") || str_eq(us.as_str(), "nan")
        || number_ok(&u)
}

/// The Kotlin type of an initial value: `Int`, `Double`, `Boolean`,
/// `String` (a quoted value) or `Unknown`.
pub fn infer_type_from_value(value: &str) -> (r: String)
    ensures
        r@ == inferred_type(value@),
{
    let t = crate::text::trim_str(value);
    if parses_as_i32(t.as_str()) {
        return lit("Int");
    }
    if parses_as_f64(t.as_str()) {
        return lit("Double");
    }
    if str_eq(t.as_str(), "true") || str_eq(t.as_str(), "false") {
        return lit("Boolean");
    }
    let tv = str_to_chars(t.as_str());
    if tv.len() > 0 && tv[0] == '"' && tv[tv.len() - 1] == '"' {
        return lit("String");
    }
    lit("Unknown")
}

// ===================== Pieces of generated files =====================

/// The imports of `imps`, resolved against `package`, in order.
pub open spec fn resolved_imports(package: Seq<char>, imps: Seq<Import>) -> Seq<Seq<char>>
    decreases imps.len(),
{
    if imps.len() == 0 {
        Seq::empty()
    } else {
        resolved_imports(package, imps.drop_last()).push(
            resolved_import(package, imps.last().path@),
        )
    }
}

/// Appends the resolved imports of `imports` to `v`.
pub(crate) fn push_resolved_imports(v: &mut Vec<String>, package: &str, imports: &Vec<Import>)
    ensures
        strs(final(v)@) == strs(old(v)@) + resolved_imports(package@, imports@),
{
    let mut i: usize = 0;
    proof {
        assert(imports@.take(0) =~= Seq::<Import>::empty());
        assert(strs(v@) =~= strs(old(v)@) + resolved_imports(package@, imports@.take(0)));
    }
    while i < imports.len()
        invariant
            i <= imports@.len(),
            strs(v@) == strs(old(v)@) + resolved_imports(package@, imports@.take(i as int)),
        decreases imports.len() - i,
    {
        let ghost before = strs(v@);
        v.push(resolve_import(package, imports[i].path.as_str()));
        proof {
            assert(imports@.take(i + 1).drop_last() =~= imports@.take(i as int));
            assert(imports@.take(i + 1).last() == imports@[i as int]);
            assert(strs(v@) =~= before.push(resolved_import(package@, imports@[i as int].path@)));
        }
        i = i + 1;
    }
    proof {
        assert(imports@.take(imports@.len() as int) =~= imports@);
    }
}

/// Appends an `import` line for each of `v`.
pub(crate) fn push_import_lines(out: &mut String, v: &Vec<String>)
    ensures
        final(out)@ == old(out)@ + import_lines(strs(v@)),
{
    let mut i: usize = 0;
    proof {
        assert(strs(v@).take(0) =~= Seq::<Seq<char>>::empty());
    }
    while i < v.len()
        invariant
            i <= v@.len(),
            out@ == old(out)@ + import_lines(strs(v@).take(i as int)),
        decreases v.len() - i,
    {
        push_lit(out, "import ");
        push_string(out, &v[i]);
        push_lit(out, "\n");
        proof {
            assert(strs(v@).take(i + 1).drop_last() =~= strs(v@).take(i as int));
            assert(strs(v@).take(i + 1).last() == v@[i as int]@);
        }
        i = i + 1;
    }
    proof {
        assert(strs(v@).take(v@.len() as int) =~= strs(v@));
    }
}

/// The line `s[a..b]`, trimmed (its `$fetch` call turned into a request if
/// `fetch`), after `indent` and ending in a line break; nothing if it is blank.
pub open spec fn line_piece(s: Seq<char>, a: int, b: int, indent: Seq<char>, fetch: bool) -> Seq<
    char,
> {
    let t = spec_trim(s.subrange(a, b));
    if t.len() > 0 {
        indent + (if fetch {
            fetch_call(t)
        } else {
            t
        }) + "\n"@
    } else {
        Seq::empty()
    }
}

/// The lines of `s` (as `str::lines`), scanning at `i` in the line that
/// starts at `start`: each as `line_piece` gives it, blank lines left out.
pub open spec fn nonblank_from(s: Seq<char>, i: int, start: int, indent: Seq<char>, fetch: bool) -> Seq<
    char,
>
    decreases s.len() - i,
{
    if i >= s.len() {
        line_piece(s, start, s.len() as int, indent, fetch)
    } else if s[i] == '\n' {
        line_piece(s, start, i, indent, fetch) + nonblank_from(s, i + 1, i + 1, indent, fetch)
    } else {
        nonblank_from(s, i + 1, start, indent, fetch)
    }
}

/// The nonblank lines of `s`, trimmed, each after `indent` (with `$fetch`
/// calls turned into requests if `fetch`).
pub open spec fn nonblank_lines(s: Seq<char>, indent: Seq<char>, fetch: bool) -> Seq<char> {
    nonblank_from(s, 0, 0, indent, fetch)
}

/// Appends the line `v[a..b]` as `line_piece` gives it.
fn push_line_piece(out: &mut String, v: &Vec<char>, a: usize, b: usize, indent: &str, fetch: bool)
    requires
        a <= b <= v@.len(),
    ensures
        final(out)@ == old(out)@ + line_piece(v@, a as int, b as int, indent@, fetch),
{
    let t = crate::text::trimmed_range(v.as_slice(), a, b);
    let nonblank = str_to_chars(t.as_str()).len() > 0;
    if nonblank {
        push_lit(out, indent);
        if fetch {
            let f = transform_fetch_call(t.as_str());
            push_string(out, &f);
        } else {
            push_string(out, &t);
        }
        push_lit(out, "\n");
    }
}

/// Appends the nonblank lines of `s` as `nonblank_lines` gives them.
fn push_nonblank_lines(out: &mut String, s: &str, indent: &str, fetch: bool)
    ensures
        final(out)@ == old(out)@ + nonblank_lines(s@, indent@, fetch),
{
    let v = str_to_chars(s);
    let mut i: usize = 0;
    let mut start: usize = 0;
    while i < v.len()
        invariant
            start <= i <= v@.len(),
            v@ == s@,
            old(out)@ + nonblank_lines(s@, indent@, fetch) == out@ + nonblank_from(
                s@,
                i as int,
                start as int,
                indent@,
                fetch,
            ),
        decreases v.len() - i,
    {
        if v[i] == '\n' {
            let ghost before = out@;
            push_line_piece(out, &v, start, i, indent, fetch);
            proof {
                assert(before + (line_piece(s@, start as int, i as int, indent@, fetch)
                    + nonblank_from(s@, i + 1, i + 1, indent@, fetch)) =~= out@ + nonblank_from(
                    s@,
                    i + 1,
                    i + 1,
                    indent@,
                    fetch,
                ));
            }
            start = i + 1;
        }
        i = i + 1;
    }
    let ghost before = out@;
    push_line_piece(out, &v, start, v.len(), indent, fetch);
    proof {
        assert(nonblank_from(s@, i as int, start as int, indent@, fetch) == line_piece(
            s@,
            start as int,
            s@.len() as int,
            indent@,
            fetch,
        ));
    }
}

/// The pass-through Kotlin blocks at the end of a store file.
pub open spec fn kotlin_tail(bs: Seq<KotlinBlock>) -> Seq<char> {
    if bs.len() == 0 {
        Seq::empty()
    } else {
        "\n"@ + block_contents(bs)
    }
}

/// Each block's content followed by a blank line.
pub open spec fn block_contents(bs: Seq<KotlinBlock>) -> Seq<char>
    decreases bs.len(),
{
    if bs.len() == 0 {
        Seq::empty()
    } else {
        block_contents(bs.drop_last()) + bs.last().content@ + "\n\n"@
    }
}

/// Appends the pass-through Kotlin blocks of a store file.
pub(crate) fn push_kotlin_tail(out: &mut String, bs: &Vec<KotlinBlock>)
    ensures
        final(out)@ == old(out)@ + kotlin_tail(bs@),
{
    if bs.len() == 0 {
        return;
    }
    push_lit(out, "\n");
    let ghost start = out@;
    let mut i: usize = 0;
    proof {
        assert(bs@.take(0) =~= Seq::<KotlinBlock>::empty());
    }
    while i < bs.len()
        invariant
            i <= bs@.len(),
            out@ == start + block_contents(bs@.take(i as int)),
        decreases bs.len() - i,
    {
        push_string(out, &bs[i].content);
        push_lit(out, "\n\n");
        proof {
            assert(bs@.take(i + 1).drop_last() =~= bs@.take(i as int));
        }
        i = i + 1;
    }
    proof {
        assert(bs@.take(bs@.len() as int) =~= bs@);
    }
}

// ===================== Functions =====================

/// `: Type` for a declared return type.
pub open spec fn return_suffix(r: Option<String>) -> Seq<char> {
    match r {
        Some(t) => ": "@ + t@,
        None => Seq::empty(),
    }
}

/// A function of a ViewModel: a suspend function runs its body's lines in
/// `viewModelScope.launch`.
pub open spec fn vm_function(f: FunctionDeclaration) -> Seq<char> {
    "    fun "@ + f.name@ + "("@ + f.params@ + ")"@ + return_suffix(f.return_type) + " {\n"@ + (if f.is_suspend {
        "        viewModelScope.launch {\n"@ + nonblank_lines(f.body@, "            "@, false)
            + "        }\n"@
    } else {
        "        "@ + spec_trim(f.body@) + "\n"@
    }) + "    }\n\n"@
}

/// The functions of a ViewModel, in order; functions whose body is markup
/// (helper composables) are left out.
pub open spec fn vm_functions(fs: Seq<FunctionDeclaration>) -> Seq<char>
    decreases fs.len(),
{
    if fs.len() == 0 {
        Seq::empty()
    } else {
        vm_functions(fs.drop_last()) + if fs.last().markup is None {
            vm_function(fs.last())
        } else {
            Seq::empty()
        }
    }
}

/// A function of a singleton store, `suspend` kept.
pub open spec fn singleton_function(f: FunctionDeclaration) -> Seq<char> {
    "    "@ + (if f.is_suspend {
        "suspend "@
    } else {
        Seq::empty()
    }) + "fun "@ + f.name@ + "("@ + f.params@ + ")"@ + return_suffix(f.return_type) + " {\n"@
        + "        "@ + spec_trim(f.body@) + "\n"@ + "    }\n\n"@
}

/// The functions of a singleton store, in order.
pub open spec fn singleton_functions(fs: Seq<FunctionDeclaration>) -> Seq<char>
    decreases fs.len(),
{
    if fs.len() == 0 {
        Seq::empty()
    } else {
        singleton_functions(fs.drop_last()) + singleton_function(fs.last())
    }
}

/// Appends `: Type` for a declared return type.
fn push_return_suffix(out: &mut String, r: &Option<String>)
    ensures
        final(out)@ == old(out)@ + return_suffix(*r),
{
    if let Some(t) = r {
        push_lit(out, ": ");
        push_string(out, t);
    }
}

/// Appends `s` trimmed.
fn push_trimmed(out: &mut String, s: &String)
    ensures
        final(out)@ == old(out)@ + spec_trim(s@),
{
    let t = crate::text::trim_str(s.as_str());
    push_string(out, &t);
}

/// Appends the ViewModel functions of `fs`.
fn push_vm_functions(out: &mut String, fs: &Vec<FunctionDeclaration>)
    ensures
        final(out)@ == old(out)@ + vm_functions(fs@),
{
    let mut i: usize = 0;
    proof {
        assert(fs@.take(0) =~= Seq::<FunctionDeclaration>::empty());
    }
    while i < fs.len()
        invariant
            i <= fs@.len(),
            out@ == old(out)@ + vm_functions(fs@.take(i as int)),
        decreases fs.len() - i,
    {
        let f = &fs[i];
        let ghost before = out@;
        if f.markup.is_none() {
            push_lit(out, "    fun ");
            push_string(out, &f.name);
            push_lit(out, "(");
            push_string(out, &f.params);
            push_lit(out, ")");
            push_return_suffix(out, &f.return_type);
            push_lit(out, " {\n");
            if f.is_suspend {
                push_lit(out, "        viewModelScope.launch {\n");
                push_nonblank_lines(out, f.body.as_str(), "            ", false);
                push_lit(out, "        }\n");
            } else {
                push_lit(out, "        ");
                push_trimmed(out, &f.body);
                push_lit(out, "\n");
            }
            push_lit(out, "    }\n\n");
            proof {
                assert(out@ =~= before + vm_function(*f));
            }
        }
        proof {
            assert(fs@.take(i + 1).drop_last() =~= fs@.take(i as int));
            assert(fs@.take(i + 1).last() == *f);
        }
        i = i + 1;
    }
    proof {
        assert(fs@.take(fs@.len() as int) =~= fs@);
    }
}

/// Appends the singleton functions of `fs`.
fn push_singleton_functions(out: &mut String, fs: &Vec<FunctionDeclaration>)
    ensures
        final(out)@ == old(out)@ + singleton_functions(fs@),
{
    let mut i: usize = 0;
    proof {
        assert(fs@.take(0) =~= Seq::<FunctionDeclaration>::empty());
    }
    while i < fs.len()
        invariant
            i <= fs@.len(),
            out@ == old(out)@ + singleton_functions(fs@.take(i as int)),
        decreases fs.len() - i,
    {
        let f = &fs[i];
        let ghost before = out@;
        push_lit(out, "    ");
        if f.is_suspend {
            push_lit(out, "suspend ");
        }
        push_lit(out, "fun ");
        push_string(out, &f.name);
        push_lit(out, "(");
        push_string(out, &f.params);
        push_lit(out, ")");
        push_return_suffix(out, &f.return_type);
        push_lit(out, " {\n");
        push_lit(out, "        ");
        push_trimmed(out, &f.body);
        push_lit(out, "\n");
        push_lit(out, "    }\n\n");
        proof {
            assert(out@ =~= before + singleton_function(*f));
            assert(fs@.take(i + 1).drop_last() =~= fs@.take(i as int));
            assert(fs@.take(i + 1).last() == *f);
        }
        i = i + 1;
    }
    proof {
        assert(fs@.take(fs@.len() as int) =~= fs@);
    }
}

// ===================== $fetch =====================

/// Index of the `)` that closes a call whose arguments start at `i`, with
/// `d` parentheses open.
pub open spec fn paren_close(s: Seq<char>, i: int, d: int) -> Option<int>
    decreases s.len() - i,
{
    if i < 0 || i >= s.len() {
        None
    } else if s[i] == '(' {
        paren_close(s, i + 1, d + 1)
    } else if s[i] == ')' {
        if d == 1 {
            Some(i)
        } else {
            paren_close(s, i + 1, d - 1)
        }
    } else {
        paren_close(s, i + 1, d)
    }
}

pub proof fn lemma_paren_close(s: Seq<char>, i: int, d: int)
    requires
        0 <= i,
    ensures
        paren_close(s, i, d) matches Some(e) ==> i <= e < s.len(),
    decreases s.len() - i,
{
    if 0 <= i < s.len() {
        if s[i] == '(' {
            lemma_paren_close(s, i + 1, d + 1);
        } else if s[i] == ')' {
            if d != 1 {
                lemma_paren_close(s, i + 1, d - 1);
            }
        } else {
            lemma_paren_close(s, i + 1, d);
        }
    }
}

/// A line with its first `$fetch(url)` call as `httpClient.get(url).body()`
/// (when the call is closed); other lines unchanged.
pub open spec fn fetch_call(line: Seq<char>) -> Seq<char> {
    match find_from(line, 0, "$fetch("@) {
        None => line,
        Some(start) => {
            let a = start + "$fetch("@.len();
            match paren_close(line, a, 1) {
                None => line,
                Some(e) => line.subrange(0, start) + "httpClient.get("@ + line.subrange(a, e)
                    + ").body()"@ + line.subrange(e + 1, line.len() as int),
            }
        },
    }
}

/// Turns the first `$fetch(url)` call of `line` into a Ktor request.
pub fn transform_fetch_call(line: &str) -> (r: String)
    ensures
        r@ == fetch_call(line@),
{
    let v = str_to_chars(line);
    proof {
        reveal_strlit("$fetch(");
        lemma_find_from(v@, 0, "$fetch("@);
    }
    match find_chars(&v, "$fetch(") {
        None => lit(line),
        Some(start) => {
            let a = start + 7;
            let mut depth: usize = 1;
            let mut i = a;
            let mut close: Option<usize> = None;
            let n = v.len();
            while i < n && close.is_none()
                invariant
                    1 <= a <= i <= v@.len(),
                    n == v@.len(),
                    1 <= depth <= i - a + 1,
                    match close {
                        None => paren_close(v@, i as int, depth as int) == paren_close(
                            v@,
                            a as int,
                            1,
                        ),
                        Some(e) => paren_close(v@, a as int, 1) == Some(e as int),
                    },
                decreases v.len() - i,
            {
                if v[i] == '(' {
                    depth = depth + 1;
                } else if v[i] == ')' {
                    if depth == 1 {
                        close = Some(i);
                    } else {
                        depth = depth - 1;
                    }
                }
                i = i + 1;
            }
            proof {
                lemma_paren_close(v@, a as int, 1);
            }
            match close {
                None => lit(line),
                Some(e) => {
                    let mut out = crate::text::string_from_range(v.as_slice(), 0, start);
                    push_lit(&mut out, "httpClient.get(");
                    let arg = crate::text::string_from_range(v.as_slice(), a, e);
                    push_string(&mut out, &arg);
                    push_lit(&mut out, ").body()");
                    let rest = crate::text::string_from_range(v.as_slice(), e + 1, v.len());
                    push_string(&mut out, &rest);
                    out
                },
            }
        },
    }
}

/// The `HttpClient` that `$fetch` calls use.
pub open spec fn http_client_text() -> Seq<char> {
    "private val httpClient = HttpClient(OkHttp) {\n    install(ContentNegotiation) {\n        json(Json { ignoreUnknownKeys = true })\n    }\n}\n\n"@
}

/// The `HttpClient` that `$fetch` calls use.
pub fn generate_http_client() -> (r: String)
    ensures
        r@ == http_client_text(),
{
    lit(
        "private val httpClient = HttpClient(OkHttp) {\n    install(ContentNegotiation) {\n        json(Json { ignoreUnknownKeys = true })\n    }\n}\n\n",
    )
}

// ===================== Singleton stores =====================

/// The number of `var` properties among `ps`.
pub open spec fn mutable_count(ps: Seq<PropertyDeclaration>) -> nat
    decreases ps.len(),
{
    if ps.len() == 0 {
        0
    } else {
        mutable_count(ps.drop_last()) + if ps.last().mutable {
            1nat
        } else {
            0nat
        }
    }
}

/// The declared type, or `Any`.
pub open spec fn type_or_any(t: Option<String>) -> Seq<char> {
    match t {
        Some(t) => t@,
        None => "Any"@,
    }
}

/// `prefix` then the value, if there is one.
pub open spec fn opt_suffix(prefix: Seq<char>, v: Option<String>) -> Seq<char> {
    match v {
        Some(x) => prefix + x@,
        None => Seq::empty(),
    }
}

/// A comma unless this is the last field.
pub open spec fn comma(more: bool) -> Seq<char> {
    if more {
        ","@
    } else {
        Seq::empty()
    }
}

/// The field of a singleton's `State` for property `p`.
pub open spec fn singleton_field(p: PropertyDeclaration, more: bool) -> Seq<char> {
    "        val "@ + p.name@ + ": "@ + type_or_any(p.type_annotation) + opt_suffix(
        " = "@,
        p.initial_value,
    ) + comma(more) + "\n"@
}

/// The fields of a singleton's `State`: one per `var` property, separated by
/// commas (`total`: the number of `var` properties).
pub open spec fn singleton_fields(ps: Seq<PropertyDeclaration>, total: nat) -> Seq<char>
    decreases ps.len(),
{
    if ps.len() == 0 {
        Seq::empty()
    } else if ps.last().mutable {
        singleton_fields(ps.drop_last(), total) + singleton_field(
            ps.last(),
            mutable_count(ps.drop_last()) + 1 < total,
        )
    } else {
        singleton_fields(ps.drop_last(), total)
    }
}

/// A singleton's accessor for `var` property `p`.
pub open spec fn singleton_accessor(p: PropertyDeclaration) -> Seq<char> {
    "    var "@ + p.name@ + ": "@ + type_or_any(p.type_annotation) + "\n"@
        + "        get() = _state.value."@ + p.name@ + "\n"@
        + "        set(value) { _state.update { it.copy("@ + p.name@ + " = value) } }\n\n"@
}

/// The accessors of the `var` properties, in order.
pub open spec fn singleton_accessors(ps: Seq<PropertyDeclaration>) -> Seq<char>
    decreases ps.len(),
{
    if ps.len() == 0 {
        Seq::empty()
    } else {
        singleton_accessors(ps.drop_last()) + if ps.last().mutable {
            singleton_accessor(ps.last())
        } else {
            Seq::empty()
        }
    }
}

/// The getters of the `val` properties with a getter, in order.
pub open spec fn derived_getters(ps: Seq<PropertyDeclaration>) -> Seq<char>
    decreases ps.len(),
{
    if ps.len() == 0 {
        Seq::empty()
    } else {
        derived_getters(ps.drop_last()) + match ps.last().getter {
            Some(g) if !ps.last().mutable => "    val "@ + ps.last().name@ + opt_suffix(
                ": "@,
                ps.last().type_annotation,
            ) + "\n"@ + "        get() = "@ + g@ + "\n\n"@,
            _ => Seq::empty(),
        }
    }
}

/// The imports every singleton store has.
pub open spec fn singleton_base_imports() -> Seq<Seq<char>> {
    seq![
        "kotlinx.coroutines.flow.MutableStateFlow"@,
        "kotlinx.coroutines.flow.StateFlow"@,
        "kotlinx.coroutines.flow.asStateFlow"@,
        "kotlinx.coroutines.flow.update"@,
    ]
}

/// The state part of a singleton: `State`, its flow and accessors, when
/// there is a `var` property.
pub open spec fn singleton_state(ps: Seq<PropertyDeclaration>) -> Seq<char> {
    if mutable_count(ps) > 0 {
        "    data class State(\n"@ + singleton_fields(ps, mutable_count(ps)) + "    )\n\n"@
            + "    private val _state = MutableStateFlow(State())\n"@
            + "    val state: StateFlow<State> = _state.asStateFlow()\n\n"@ + singleton_accessors(ps)
    } else {
        Seq::empty()
    }
}

/// The Kotlin file of `@store object` `class`: an object holding a
/// `StateFlow` of its `var` properties.
pub open spec fn singleton_store(package: Seq<char>, file: WhitehallFile, class: ClassDeclaration) -> Seq<
    char,
> {
    "package "@ + package + "\n\n"@ + import_lines(
        sorted_distinct(singleton_base_imports() + resolved_imports(package, file.imports@)),
    ) + "\n"@ + "object "@ + class.name@ + " {\n"@ + singleton_state(class.properties@)
        + derived_getters(class.properties@) + singleton_functions(class.functions@) + "}\n"@
        + kotlin_tail(file.kotlin_blocks@)
}

/// Appends the value, or `Any`.
fn push_type_or_any(out: &mut String, t: &Option<String>)
    ensures
        final(out)@ == old(out)@ + type_or_any(*t),
{
    match t {
        Some(t) => push_string(out, t),
        None => push_lit(out, "Any"),
    }
}

/// Appends `prefix` and the value, if there is one.
fn push_opt_suffix(out: &mut String, prefix: &str, v: &Option<String>)
    ensures
        final(out)@ == old(out)@ + opt_suffix(prefix@, *v),
{
    if let Some(x) = v {
        push_lit(out, prefix);
        push_string(out, x);
    }
}

/// The number of `var` properties among `ps`.
fn count_mutable(ps: &Vec<PropertyDeclaration>) -> (r: usize)
    ensures
        r == mutable_count(ps@),
{
    let mut n: usize = 0;
    let mut i: usize = 0;
    proof {
        assert(ps@.take(0) =~= Seq::<PropertyDeclaration>::empty());
    }
    while i < ps.len()
        invariant
            i <= ps@.len(),
            n == mutable_count(ps@.take(i as int)),
            n <= i,
        decreases ps.len() - i,
    {
        if ps[i].mutable {
            n = n + 1;
        }
        proof {
            assert(ps@.take(i + 1).drop_last() =~= ps@.take(i as int));
        }
        i = i + 1;
    }
    proof {
        assert(ps@.take(ps@.len() as int) =~= ps@);
    }
    n
}

/// Appends the state part of a singleton.
fn push_singleton_state(out: &mut String, ps: &Vec<PropertyDeclaration>)
    ensures
        final(out)@ == old(out)@ + singleton_state(ps@),
{
    let total = count_mutable(ps);
    if total == 0 {
        return;
    }
    push_lit(out, "    data class State(\n");
    let ghost start = out@;
    let mut seen: usize = 0;
    let mut i: usize = 0;
    proof {
        assert(ps@.take(0) =~= Seq::<PropertyDeclaration>::empty());
    }
    while i < ps.len()
        invariant
            i <= ps@.len(),
            total == mutable_count(ps@),
            seen == mutable_count(ps@.take(i as int)),
            seen <= i,
            out@ == start + singleton_fields(ps@.take(i as int), total as nat),
        decreases ps.len() - i,
    {
        let p = &ps[i];
        proof {
            assert(ps@.take(i + 1).drop_last() =~= ps@.take(i as int));
            assert(ps@.take(i + 1).last() == *p);
        }
        if p.mutable {
            push_lit(out, "        val ");
            push_string(out, &p.name);
            push_lit(out, ": ");
            push_type_or_any(out, &p.type_annotation);
            push_opt_suffix(out, " = ", &p.initial_value);
            if seen + 1 < total {
                push_lit(out, ",");
            }
            push_lit(out, "\n");
            seen = seen + 1;
        }
        i = i + 1;
    }
    proof {
        assert(ps@.take(ps@.len() as int) =~= ps@);
    }
    push_lit(out, "    )\n\n");
    push_lit(out, "    private val _state = MutableStateFlow(State())\n");
    push_lit(out, "    val state: StateFlow<State> = _state.asStateFlow()\n\n");
    let ghost mid = out@;
    i = 0;
    proof {
        assert(ps@.take(0) =~= Seq::<PropertyDeclaration>::empty());
    }
    while i < ps.len()
        invariant
            i <= ps@.len(),
            out@ == mid + singleton_accessors(ps@.take(i as int)),
        decreases ps.len() - i,
    {
        let p = &ps[i];
        let ghost before = out@;
        if p.mutable {
            push_lit(out, "    var ");
            push_string(out, &p.name);
            push_lit(out, ": ");
            push_type_or_any(out, &p.type_annotation);
            push_lit(out, "\n");
            push_lit(out, "        get() = _state.value.");
            push_string(out, &p.name);
            push_lit(out, "\n");
            push_lit(out, "        set(value) { _state.update { it.copy(");
            push_string(out, &p.name);
            push_lit(out, " = value) } }\n\n");
            proof {
                assert(out@ =~= before + singleton_accessor(*p));
            }
        }
        proof {
            assert(ps@.take(i + 1).drop_last() =~= ps@.take(i as int));
            assert(ps@.take(i + 1).last() == *p);
        }
        i = i + 1;
    }
    proof {
        assert(ps@.take(ps@.len() as int) =~= ps@);
    }
}

/// Appends the getters of the `val` properties with a getter.
fn push_derived_getters(out: &mut String, ps: &Vec<PropertyDeclaration>)
    ensures
        final(out)@ == old(out)@ + derived_getters(ps@),
{
    let mut i: usize = 0;
    proof {
        assert(ps@.take(0) =~= Seq::<PropertyDeclaration>::empty());
    }
    while i < ps.len()
        invariant
            i <= ps@.len(),
            out@ == old(out)@ + derived_getters(ps@.take(i as int)),
        decreases ps.len() - i,
    {
        let p = &ps[i];
        let ghost before = out@;
        if !p.mutable {
            if let Some(g) = &p.getter {
                push_lit(out, "    val ");
                push_string(out, &p.name);
                push_opt_suffix(out, ": ", &p.type_annotation);
                push_lit(out, "\n");
                push_lit(out, "        get() = ");
                push_string(out, g);
                push_lit(out, "\n\n");
            }
        }
        proof {
            assert(ps@.take(i + 1).drop_last() =~= ps@.take(i as int));
            assert(ps@.take(i + 1).last() == *p);
        }
        i = i + 1;
    }
    proof {
        assert(ps@.take(ps@.len() as int) =~= ps@);
    }
}

/// Appends `package` and the sorted, distinct `imports`, then a blank line.
fn push_header(out: &mut String, package: &str, imports: &Vec<String>)
    ensures
        final(out)@ == old(out)@ + "package "@ + package@ + "\n\n"@ + import_lines(
            sorted_distinct(strs(imports@)),
        ) + "\n"@,
{
    push_lit(out, "package ");
    push_lit(out, package);
    push_lit(out, "\n\n");
    let sorted = sort_dedup(imports);
    push_import_lines(out, &sorted);
    push_lit(out, "\n");
}

/// The Kotlin file of `@store object` `class`: an object holding a
/// `StateFlow` of its `var` properties.
pub fn generate_singleton_store(package: &str, file: &WhitehallFile, class: &ClassDeclaration) -> (r:
    Result<String, String>)
    ensures
        r matches Ok(code) && code@ == singleton_store(package@, *file, *class),
{
    let mut imports: Vec<String> = Vec::new();
    imports.push(lit("kotlinx.coroutines.flow.MutableStateFlow"));
    imports.push(lit("kotlinx.coroutines.flow.StateFlow"));
    imports.push(lit("kotlinx.coroutines.flow.asStateFlow"));
    imports.push(lit("kotlinx.coroutines.flow.update"));
    proof {
        assert(strs(imports@) =~= singleton_base_imports());
    }
    push_resolved_imports(&mut imports, package, &file.imports);
    let mut out = String::new();
    push_header(&mut out, package, &imports);
    push_lit(&mut out, "object ");
    push_string(&mut out, &class.name);
    push_lit(&mut out, " {\n");
    push_singleton_state(&mut out, &class.properties);
    push_derived_getters(&mut out, &class.properties);
    push_singleton_functions(&mut out, &class.functions);
    push_lit(&mut out, "}\n");
    push_kotlin_tail(&mut out, &file.kotlin_blocks);
    proof {
        assert(out@ =~= singleton_store(package@, *file, *class));
    }
    Ok(out)
}

// ===================== ViewModel stores =====================

/// `a` and `b` are equal ignoring ASCII case.
pub open spec fn eq_ignore_case(a: Seq<char>, b: Seq<char>) -> bool {
    a.len() == b.len() && forall|i: int| 0 <= i < a.len() ==> ascii_lower(a[i]) == ascii_lower(b[i])
}

/// Whether one of `anns` asks for Hilt (`hilt` in any case, or `HiltViewModel`).
pub open spec fn has_hilt_annotation(anns: Seq<String>) -> bool {
    exists|i: int|
        0 <= i < anns.len() && (eq_ignore_case(#[trigger] anns[i]@, "hilt"@) || anns[i]@
            == "HiltViewModel"@)
}

/// Whether one of `anns` is `inject` in any case.
pub open spec fn has_inject_annotation(anns: Seq<String>) -> bool {
    exists|i: int| 0 <= i < anns.len() && eq_ignore_case(#[trigger] anns[i]@, "inject"@)
}

/// Whether the ViewModel of `c` is a Hilt ViewModel: a Hilt annotation or an
/// `@Inject` constructor.
pub open spec fn needs_hilt(c: ClassDeclaration) -> bool {
    has_hilt_annotation(c.annotations@) || match c.constructor {
        Some(k) => has_inject_annotation(k.annotations@),
        None => false,
    }
}

/// The imports every ViewModel store has.
pub open spec fn vm_base_imports() -> Seq<Seq<char>> {
    seq![
        "androidx.lifecycle.ViewModel"@,
        "androidx.lifecycle.viewModelScope"@,
        "kotlinx.coroutines.flow.MutableStateFlow"@,
        "kotlinx.coroutines.flow.StateFlow"@,
        "kotlinx.coroutines.flow.asStateFlow"@,
        "kotlinx.coroutines.flow.update"@,
        "kotlinx.coroutines.launch"@,
    ]
}

/// The imports of the ViewModel of `c` (before sorting).
pub open spec fn vm_store_imports(package: Seq<char>, file: WhitehallFile, c: ClassDeclaration) -> Seq<
    Seq<char>,
> {
    vm_base_imports() + (if needs_hilt(c) {
        seq!["dagger.hilt.android.lifecycle.HiltViewModel"@, "javax.inject.Inject"@]
    } else {
        Seq::empty()
    }) + resolved_imports(package, file.imports@)
}

/// The constructor part of the class header.
pub open spec fn constructor_part(c: Option<ConstructorDeclaration>) -> Seq<char> {
    match c {
        Some(k) => " "@ + (if k.annotations@.len() > 0 {
            "@Inject "@
        } else {
            Seq::empty()
        }) + "constructor(\n    "@ + k.parameters@ + "\n)"@,
        None => Seq::empty(),
    }
}

/// A property without visibility or `public`.
pub open spec fn is_public(p: PropertyDeclaration) -> bool {
    match p.visibility {
        None => true,
        Some(v) => v@ == "public"@,
    }
}

/// A `private` property.
pub open spec fn is_private(p: PropertyDeclaration) -> bool {
    match p.visibility {
        Some(v) => v@ == "private"@,
        None => false,
    }
}

/// A public property without a getter: a field of `UiState`.
pub open spec fn is_ui_field(p: PropertyDeclaration) -> bool {
    is_public(p) && p.getter is None
}

/// The type of a property: declared, else inferred from its initial value,
/// else `String`.
pub open spec fn prop_type(p: PropertyDeclaration) -> Seq<char> {
    match p.type_annotation {
        Some(t) => t@,
        None => match p.initial_value {
            Some(v) => inferred_type(v@),
            None => "String"@,
        },
    }
}

/// The initial value of a property, else `""`.
pub open spec fn prop_default(p: PropertyDeclaration) -> Seq<char> {
    match p.initial_value {
        Some(v) => v@,
        None => "\"\""@,
    }
}

/// The number of `UiState` fields among `ps`.
pub open spec fn ui_count(ps: Seq<PropertyDeclaration>) -> nat
    decreases ps.len(),
{
    if ps.len() == 0 {
        0
    } else {
        ui_count(ps.drop_last()) + if is_ui_field(ps.last()) {
            1nat
        } else {
            0nat
        }
    }
}

/// The fields of `UiState`, separated by commas (`total`: their number).
pub open spec fn ui_fields(ps: Seq<PropertyDeclaration>, total: nat) -> Seq<char>
    decreases ps.len(),
{
    if ps.len() == 0 {
        Seq::empty()
    } else if is_ui_field(ps.last()) {
        ui_fields(ps.drop_last(), total) + "        val "@ + ps.last().name@ + ": "@ + prop_type(
            ps.last(),
        ) + " = "@ + prop_default(ps.last()) + comma(ui_count(ps.drop_last()) + 1 < total)
            + "\n"@
    } else {
        ui_fields(ps.drop_last(), total)
    }
}

/// `UiState` and its flow, when there is a field.
pub open spec fn ui_state(ps: Seq<PropertyDeclaration>) -> Seq<char> {
    if ui_count(ps) > 0 {
        "    data class UiState(\n"@ + ui_fields(ps, ui_count(ps)) + "    )\n\n"@
            + "    private val _uiState = MutableStateFlow(UiState())\n"@
            + "    val uiState: StateFlow<UiState> = _uiState.asStateFlow()\n\n"@
    } else {
        Seq::empty()
    }
}

/// The private properties as fields, then a blank line if there is one.
pub open spec fn private_fields(ps: Seq<PropertyDeclaration>) -> Seq<char>
    decreases ps.len(),
{
    if ps.len() == 0 {
        Seq::empty()
    } else {
        private_fields(ps.drop_last()) + if is_private(ps.last()) {
            "    private "@ + (if ps.last().mutable {
                "var"@
            } else {
                "val"@
            }) + " "@ + ps.last().name@ + opt_suffix(": "@, ps.last().type_annotation) + opt_suffix(
                " = "@,
                ps.last().initial_value,
            ) + "\n"@
        } else {
            Seq::empty()
        }
    }
}

/// Whether one of `ps` is private.
pub open spec fn has_private(ps: Seq<PropertyDeclaration>) -> bool {
    exists|i: int| 0 <= i < ps.len() && is_private(#[trigger] ps[i])
}

/// The accessor of a public property: a getter for a derived one, else a
/// property backed by `UiState`.
pub open spec fn public_accessor(p: PropertyDeclaration) -> Seq<char> {
    match p.getter {
        Some(g) => "    val "@ + p.name@ + ": "@ + prop_type(p) + "\n"@ + "        get() = "@ + g@
            + "\n\n"@,
        None => "    var "@ + p.name@ + ": "@ + prop_type(p) + "\n"@ + "        get() = _uiState.value."@
            + p.name@ + "\n"@ + "        set(value) { _uiState.update { it.copy("@ + p.name@
            + " = value) } }\n\n"@,
    }
}

/// The accessors of the public properties, in order.
pub open spec fn public_accessors(ps: Seq<PropertyDeclaration>) -> Seq<char>
    decreases ps.len(),
{
    if ps.len() == 0 {
        Seq::empty()
    } else {
        public_accessors(ps.drop_last()) + if is_public(ps.last()) {
            public_accessor(ps.last())
        } else {
            Seq::empty()
        }
    }
}

/// Whether one of `fs` is named `name`.
pub open spec fn has_function_named(fs: Seq<FunctionDeclaration>, name: Seq<char>) -> bool {
    exists|i: int| 0 <= i < fs.len() && #[trigger] fs[i].name@ == name
}

/// `updateX(value)` for field `name` of type `t`, unless the user wrote one.
pub open spec fn update_method_text(name: Seq<char>, t: Seq<char>, fs: Seq<FunctionDeclaration>) -> Seq<
    char,
> {
    if has_function_named(fs, update_method(name)) {
        Seq::empty()
    } else {
        "    fun "@ + update_method(name) + "(value: "@ + t + ") {\n"@
            + "        _uiState.update { it.copy("@ + name + " = value) }\n"@ + "    }\n\n"@
    }
}

/// The update methods of the `UiState` fields, in order.
pub open spec fn update_methods(ps: Seq<PropertyDeclaration>, fs: Seq<FunctionDeclaration>) -> Seq<
    char,
>
    decreases ps.len(),
{
    if ps.len() == 0 {
        Seq::empty()
    } else {
        update_methods(ps.drop_last(), fs) + if is_ui_field(ps.last()) {
            update_method_text(ps.last().name@, prop_type(ps.last()), fs)
        } else {
            Seq::empty()
        }
    }
}

/// Every `UiState` field has a name whose first character is ASCII.
pub open spec fn ui_names_ok(ps: Seq<PropertyDeclaration>) -> bool {
    forall|i: int| 0 <= i < ps.len() && is_ui_field(#[trigger] ps[i]) ==> update_name_ok(ps[i].name@)
}

/// The Kotlin file of the ViewModel for store class `c` (vars from `source`).
pub open spec fn view_model_store(
    package: Seq<char>,
    file: WhitehallFile,
    c: ClassDeclaration,
    source: StoreSource,
) -> Seq<char> {
    let ps = c.properties@;
    "package "@ + package + "\n\n"@ + import_lines(sorted_distinct(vm_store_imports(package, file, c)))
        + "\n"@ + (if needs_hilt(c) {
        "@HiltViewModel\n"@
    } else {
        Seq::empty()
    }) + "class "@ + c.name@ + constructor_part(c.constructor) + " : ViewModel() {\n"@ + ui_state(ps)
        + private_fields(ps) + (if has_private(ps) {
        "\n"@
    } else {
        Seq::empty()
    }) + public_accessors(ps) + (if source == StoreSource::ComponentInline {
        update_methods(ps, c.functions@)
    } else {
        Seq::empty()
    }) + vm_functions(c.functions@) + "}\n"@ + kotlin_tail(file.kotlin_blocks@)
}

/// Whether `a` and `b` are equal ignoring ASCII case.
pub fn eq_ignore_ascii_case(a: &str, b: &str) -> (r: bool)
    ensures
        r == eq_ignore_case(a@, b@),
{
    let va = str_to_chars(a);
    let vb = str_to_chars(b);
    if va.len() != vb.len() {
        return false;
    }
    let mut i: usize = 0;
    while i < va.len()
        invariant
            i <= va@.len(),
            va@ == a@,
            vb@ == b@,
            va@.len() == vb@.len(),
            forall|j: int| 0 <= j < i ==> ascii_lower(a@[j]) == ascii_lower(b@[j]),
        decreases va.len() - i,
    {
        if crate::compose::to_ascii_lower(va[i]) != crate::compose::to_ascii_lower(vb[i]) {
            return false;
        }
        i = i + 1;
    }
    true
}

/// Whether one of `anns` asks for Hilt.
fn any_hilt_annotation(anns: &Vec<String>) -> (r: bool)
    ensures
        r == has_hilt_annotation(anns@),
{
    let mut i: usize = 0;
    while i < anns.len()
        invariant
            i <= anns@.len(),
            forall|j: int|
                0 <= j < i ==> !(eq_ignore_case(#[trigger] anns@[j]@, "hilt"@) || anns@[j]@
                    == "HiltViewModel"@),
        decreases anns.len() - i,
    {
        if eq_ignore_ascii_case(anns[i].as_str(), "hilt") || str_eq(anns[i].as_str(), "HiltViewModel") {
            return true;
        }
        i = i + 1;
    }
    false
}

/// Whether one of `anns` is `inject` in any case.
fn any_inject_annotation(anns: &Vec<String>) -> (r: bool)
    ensures
        r == has_inject_annotation(anns@),
{
    let mut i: usize = 0;
    while i < anns.len()
        invariant
            i <= anns@.len(),
            forall|j: int| 0 <= j < i ==> !eq_ignore_case(#[trigger] anns@[j]@, "inject"@),
        decreases anns.len() - i,
    {
        if eq_ignore_ascii_case(anns[i].as_str(), "inject") {
            return true;
        }
        i = i + 1;
    }
    false
}

/// Whether the ViewModel of `c` is a Hilt ViewModel.
fn class_needs_hilt(c: &ClassDeclaration) -> (r: bool)
    ensures
        r == needs_hilt(*c),
{
    let by_annotation = any_hilt_annotation(&c.annotations);
    let by_constructor = match &c.constructor {
        Some(k) => any_inject_annotation(&k.annotations),
        None => false,
    };
    by_annotation || by_constructor
}

/// Appends the type of property `p`.
fn push_prop_type(out: &mut String, p: &PropertyDeclaration)
    ensures
        final(out)@ == old(out)@ + prop_type(*p),
{
    match &p.type_annotation {
        Some(t) => push_string(out, t),
        None => match &p.initial_value {
            Some(v) => {
                let t = infer_type_from_value(v.as_str());
                push_string(out, &t);
            },
            None => push_lit(out, "String"),
        },
    }
}

fn ui_field(p: &PropertyDeclaration) -> (r: bool)
    ensures
        r == is_ui_field(*p),
{
    let public = match &p.visibility {
        None => true,
        Some(v) => str_eq(v.as_str(), "public"),
    };
    public && p.getter.is_none()
}

fn private_prop(p: &PropertyDeclaration) -> (r: bool)
    ensures
        r == is_private(*p),
{
    match &p.visibility {
        Some(v) => str_eq(v.as_str(), "private"),
        None => false,
    }
}

fn public_prop(p: &PropertyDeclaration) -> (r: bool)
    ensures
        r == is_public(*p),
{
    match &p.visibility {
        None => true,
        Some(v) => str_eq(v.as_str(), "public"),
    }
}

/// Appends `UiState` and its flow, when there is a field.
#[verifier::spinoff_prover]
#[verifier::rlimit(40)]
fn push_ui_state(out: &mut String, ps: &Vec<PropertyDeclaration>)
    ensures
        final(out)@ == old(out)@ + ui_state(ps@),
{
    let mut total: usize = 0;
    let mut i: usize = 0;
    proof {
        assert(ps@.take(0) =~= Seq::<PropertyDeclaration>::empty());
    }
    while i < ps.len()
        invariant
            i <= ps@.len(),
            total == ui_count(ps@.take(i as int)),
            total <= i,
        decreases ps.len() - i,
    {
        if ui_field(&ps[i]) {
            total = total + 1;
        }
        proof {
            assert(ps@.take(i + 1).drop_last() =~= ps@.take(i as int));
        }
        i = i + 1;
    }
    proof {
        assert(ps@.take(ps@.len() as int) =~= ps@);
    }
    if total == 0 {
        return;
    }
    push_lit(out, "    data class UiState(\n");
    let ghost start = out@;
    let mut seen: usize = 0;
    i = 0;
    proof {
        assert(ps@.take(0) =~= Seq::<PropertyDeclaration>::empty());
    }
    while i < ps.len()
        invariant
            i <= ps@.len(),
            total == ui_count(ps@),
            seen == ui_count(ps@.take(i as int)),
            seen <= i,
            out@ == start + ui_fields(ps@.take(i as int), total as nat),
        decreases ps.len() - i,
    {
        let p = &ps[i];
        proof {
            assert(ps@.take(i + 1).drop_last() =~= ps@.take(i as int));
            assert(ps@.take(i + 1).last() == *p);
        }
        if ui_field(p) {
            push_lit(out, "        val ");
            push_string(out, &p.name);
            push_lit(out, ": ");
            push_prop_type(out, p);
            push_lit(out, " = ");
            match &p.initial_value {
                Some(v) => push_string(out, v),
                None => push_lit(out, "\"\""),
            }
            if seen + 1 < total {
                push_lit(out, ",");
            }
            push_lit(out, "\n");
            seen = seen + 1;
        }
        i = i + 1;
    }
    proof {
        assert(ps@.take(ps@.len() as int) =~= ps@);
    }
    push_lit(out, "    )\n\n");
    push_lit(out, "    private val _uiState = MutableStateFlow(UiState())\n");
    push_lit(out, "    val uiState: StateFlow<UiState> = _uiState.asStateFlow()\n\n");
}

proof fn lemma_has_private_step(ps: Seq<PropertyDeclaration>, i: int)
    requires
        0 <= i < ps.len(),
    ensures
        has_private(ps.take(i + 1)) == (has_private(ps.take(i)) || is_private(ps[i])),
{
    let t = ps.take(i + 1);
    let u = ps.take(i);
    if is_private(ps[i]) {
        assert(t[i] == ps[i]);
    }
    if has_private(t) && !is_private(ps[i]) {
        let k = choose|k: int| 0 <= k < t.len() && is_private(#[trigger] t[k]);
        assert(u[k] == t[k]);
    }
    if has_private(u) {
        let k = choose|k: int| 0 <= k < u.len() && is_private(#[trigger] u[k]);
        assert(t[k] == u[k]);
    }
}

/// Appends the private properties as fields, then a blank line if there is one.
#[verifier::spinoff_prover]
#[verifier::rlimit(40)]
fn push_private_fields(out: &mut String, ps: &Vec<PropertyDeclaration>)
    ensures
        final(out)@ == old(out)@ + private_fields(ps@) + if has_private(ps@) {
            "\n"@
        } else {
            Seq::<char>::empty()
        },
{
    let mut any = false;
    let mut i: usize = 0;
    proof {
        assert(ps@.take(0) =~= Seq::<PropertyDeclaration>::empty());
    }
    while i < ps.len()
        invariant
            i <= ps@.len(),
            out@ == old(out)@ + private_fields(ps@.take(i as int)),
            any == has_private(ps@.take(i as int)),
        decreases ps.len() - i,
    {
        let p = &ps[i];
        let is_priv = private_prop(p);
        if is_priv {
            push_lit(out, "    private ");
            if p.mutable {
                push_lit(out, "var");
            } else {
                push_lit(out, "val");
            }
            push_lit(out, " ");
            push_string(out, &p.name);
            push_opt_suffix(out, ": ", &p.type_annotation);
            push_opt_suffix(out, " = ", &p.initial_value);
            push_lit(out, "\n");
        }
        proof {
            assert(ps@.take(i + 1).drop_last() =~= ps@.take(i as int));
            assert(ps@.take(i + 1).last() == *p);
            lemma_has_private_step(ps@, i as int);
        }
        any = any || is_priv;
        i = i + 1;
    }
    proof {
        assert(ps@.take(ps@.len() as int) =~= ps@);
    }
    if any {
        push_lit(out, "\n");
    }
}

/// Appends the accessors of the public properties.
fn push_public_accessors(out: &mut String, ps: &Vec<PropertyDeclaration>)
    ensures
        final(out)@ == old(out)@ + public_accessors(ps@),
{
    let mut i: usize = 0;
    proof {
        assert(ps@.take(0) =~= Seq::<PropertyDeclaration>::empty());
    }
    while i < ps.len()
        invariant
            i <= ps@.len(),
            out@ == old(out)@ + public_accessors(ps@.take(i as int)),
        decreases ps.len() - i,
    {
        let p = &ps[i];
        let ghost before = out@;
        if public_prop(p) {
            match &p.getter {
                Some(g) => {
                    push_lit(out, "    val ");
                    push_string(out, &p.name);
                    push_lit(out, ": ");
                    push_prop_type(out, p);
                    push_lit(out, "\n");
                    push_lit(out, "        get() = ");
                    push_string(out, g);
                    push_lit(out, "\n\n");
                },
                None => {
                    push_lit(out, "    var ");
                    push_string(out, &p.name);
                    push_lit(out, ": ");
                    push_prop_type(out, p);
                    push_lit(out, "\n");
                    push_lit(out, "        get() = _uiState.value.");
                    push_string(out, &p.name);
                    push_lit(out, "\n");
                    push_lit(out, "        set(value) { _uiState.update { it.copy(");
                    push_string(out, &p.name);
                    push_lit(out, " = value) } }\n\n");
                },
            }
            proof {
                assert(out@ =~= before + public_accessor(*p));
            }
        }
        proof {
            assert(ps@.take(i + 1).drop_last() =~= ps@.take(i as int));
            assert(ps@.take(i + 1).last() == *p);
        }
        i = i + 1;
    }
    proof {
        assert(ps@.take(ps@.len() as int) =~= ps@);
    }
}

/// Whether one of `fs` is named `name`.
fn function_named(fs: &Vec<FunctionDeclaration>, name: &str) -> (r: bool)
    ensures
        r == has_function_named(fs@, name@),
{
    let mut i: usize = 0;
    while i < fs.len()
        invariant
            i <= fs@.len(),
            forall|j: int| 0 <= j < i ==> fs@[j].name@ != name@,
        decreases fs.len() - i,
    {
        if str_eq(fs[i].name.as_str(), name) {
            return true;
        }
        i = i + 1;
    }
    false
}

/// `updateX` for a name with an ASCII first character.
fn update_method_name(name: &String) -> (r: String)
    requires
        update_name_ok(name@),
    ensures
        r@ == update_method(name@),
{
    let mut r = lit("update");
    let cap = crate::recyclerview::capitalize(name);
    push_string(&mut r, &cap);
    r
}

/// Appends the update method of field `name` of type `t`, unless the user
/// wrote one.
fn push_update_method(out: &mut String, name: &String, t: &String, fs: &Vec<FunctionDeclaration>)
    requires
        update_name_ok(name@),
    ensures
        final(out)@ == old(out)@ + update_method_text(name@, t@, fs@),
{
    let m = update_method_name(name);
    if function_named(fs, m.as_str()) {
        return;
    }
    push_lit(out, "    fun ");
    push_string(out, &m);
    push_lit(out, "(value: ");
    push_string(out, t);
    push_lit(out, ") {\n");
    push_lit(out, "        _uiState.update { it.copy(");
    push_string(out, name);
    push_lit(out, " = value) }\n");
    push_lit(out, "    }\n\n");
}

/// Appends the update methods of the `UiState` fields.
fn push_update_methods(out: &mut String, ps: &Vec<PropertyDeclaration>, fs: &Vec<FunctionDeclaration>)
    requires
        ui_names_ok(ps@),
    ensures
        final(out)@ == old(out)@ + update_methods(ps@, fs@),
{
    let mut i: usize = 0;
    proof {
        assert(ps@.take(0) =~= Seq::<PropertyDeclaration>::empty());
    }
    while i < ps.len()
        invariant
            i <= ps@.len(),
            ui_names_ok(ps@),
            out@ == old(out)@ + update_methods(ps@.take(i as int), fs@),
        decreases ps.len() - i,
    {
        let p = &ps[i];
        if ui_field(p) {
            let mut t = String::new();
            push_prop_type(&mut t, p);
            push_update_method(out, &p.name, &t, fs);
        }
        proof {
            assert(ps@.take(i + 1).drop_last() =~= ps@.take(i as int));
            assert(ps@.take(i + 1).last() == *p);
        }
        i = i + 1;
    }
    proof {
        assert(ps@.take(ps@.len() as int) =~= ps@);
    }
}

/// The imports of the ViewModel of `class` (before sorting).
fn vm_store_import_list(package: &str, file: &WhitehallFile, class: &ClassDeclaration) -> (r: Vec<
    String,
>)
    ensures
        strs(r@) == vm_store_imports(package@, *file, *class),
{
    let hilt = class_needs_hilt(class);
    let mut imports: Vec<String> = Vec::new();
    imports.push(lit("androidx.lifecycle.ViewModel"));
    imports.push(lit("androidx.lifecycle.viewModelScope"));
    imports.push(lit("kotlinx.coroutines.flow.MutableStateFlow"));
    imports.push(lit("kotlinx.coroutines.flow.StateFlow"));
    imports.push(lit("kotlinx.coroutines.flow.asStateFlow"));
    imports.push(lit("kotlinx.coroutines.flow.update"));
    imports.push(lit("kotlinx.coroutines.launch"));
    if hilt {
        imports.push(lit("dagger.hilt.android.lifecycle.HiltViewModel"));
        imports.push(lit("javax.inject.Inject"));
    }
    proof {
        assert(strs(imports@) =~= vm_base_imports() + (if hilt {
            seq!["dagger.hilt.android.lifecycle.HiltViewModel"@, "javax.inject.Inject"@]
        } else {
            Seq::empty()
        }));
    }
    push_resolved_imports(&mut imports, package, &file.imports);
    imports
}

/// Appends the class header of the ViewModel of `class`.
fn push_vm_class_header(out: &mut String, class: &ClassDeclaration)
    ensures
        final(out)@ == old(out)@ + (if needs_hilt(*class) {
            "@HiltViewModel\n"@
        } else {
            Seq::empty()
        }) + "class "@ + class.name@ + constructor_part(class.constructor) + " : ViewModel() {\n"@,
{
    if class_needs_hilt(class) {
        push_lit(out, "@HiltViewModel\n");
    }
    push_lit(out, "class ");
    push_string(out, &class.name);
    if let Some(k) = &class.constructor {
        push_lit(out, " ");
        if k.annotations.len() > 0 {
            push_lit(out, "@Inject ");
        }
        push_lit(out, "constructor(\n    ");
        push_string(out, &k.parameters);
        push_lit(out, "\n)");
    }
    push_lit(out, " : ViewModel() {\n");
}

/// Appends the members of the ViewModel of `class`.
fn push_vm_members(out: &mut String, class: &ClassDeclaration, source: StoreSource)
    requires
        source == StoreSource::ComponentInline ==> ui_names_ok(class.properties@),
    ensures
        final(out)@ == old(out)@ + ui_state(class.properties@) + private_fields(class.properties@)
            + (if has_private(class.properties@) {
            "\n"@
        } else {
            Seq::empty()
        }) + public_accessors(class.properties@) + (if source == StoreSource::ComponentInline {
            update_methods(class.properties@, class.functions@)
        } else {
            Seq::empty()
        }) + vm_functions(class.functions@),
{
    push_ui_state(out, &class.properties);
    push_private_fields(out, &class.properties);
    push_public_accessors(out, &class.properties);
    if source == StoreSource::ComponentInline {
        push_update_methods(out, &class.properties, &class.functions);
    }
    push_vm_functions(out, &class.functions);
}

/// The Kotlin file of the ViewModel for store class `class`: `UiState` of
/// its public properties, private fields, accessors, update methods (for
/// inline component state), and its functions.
pub fn generate_view_model_store(
    package: &str,
    file: &WhitehallFile,
    class: &ClassDeclaration,
    source: StoreSource,
) -> (r: Result<String, String>)
    requires
        source == StoreSource::ComponentInline ==> ui_names_ok(class.properties@),
    ensures
        r matches Ok(code) && code@ == view_model_store(package@, *file, *class, source),
{
    let imports = vm_store_import_list(package, file, class);
    let mut out = String::new();
    push_header(&mut out, package, &imports);
    let ghost h = out@;
    push_vm_class_header(&mut out, class);
    let ghost c = out@;
    push_vm_members(&mut out, class, source);
    let ghost m = out@;
    push_lit(&mut out, "}\n");
    push_kotlin_tail(&mut out, &file.kotlin_blocks);
    proof {
        let ps = class.properties@;
        assert(out@ =~= h + (c.skip(h.len() as int)) + m.skip(c.len() as int) + "}\n"@ + kotlin_tail(
            file.kotlin_blocks@,
        ));
        assert(out@ =~= view_model_store(package@, *file, *class, source));
    }
    Ok(out)
}

// ===================== Store classes =====================

/// Where the state of store class `name` comes from, by the registry (a
/// class when it is not registered).
pub open spec fn registered_source(registry: Option<&StoreRegistry>, name: Seq<char>) -> StoreSource {
    match registry {
        Some(r) => if r.view().contains_key(name) {
            r.view()[name].source
        } else {
            StoreSource::Class
        },
        None => StoreSource::Class,
    }
}

/// The Kotlin file of store class `c`: a singleton for `@store object`, else
/// a ViewModel.
pub open spec fn store_class_code(
    package: Seq<char>,
    registry: Option<&StoreRegistry>,
    file: WhitehallFile,
    c: ClassDeclaration,
) -> Seq<char> {
    let source = registered_source(registry, c.name@);
    if source == StoreSource::Singleton {
        singleton_store(package, file, c)
    } else {
        view_model_store(package, file, c, source)
    }
}

/// The Kotlin file of store class `class`: a singleton for `@store object`,
/// else a ViewModel.
pub fn generate_store_class(
    package: &str,
    registry: Option<&StoreRegistry>,
    file: &WhitehallFile,
    class: &ClassDeclaration,
) -> (r: Result<String, String>)
    requires
        registry matches Some(reg) ==> reg.wf(),
        registered_source(registry, class.name@) == StoreSource::ComponentInline ==> ui_names_ok(
            class.properties@,
        ),
    ensures
        r matches Ok(code) && code@ == store_class_code(package@, registry, *file, *class),
{
    let source = match registry {
        Some(reg) => match reg.get(class.name.as_str()) {
            Some(info) => info.source,
            None => StoreSource::Class,
        },
        None => StoreSource::Class,
    };
    if source == StoreSource::Singleton {
        generate_singleton_store(package, file, class)
    } else {
        generate_view_model_store(package, file, class, source)
    }
}

// ===================== Component ViewModels =====================

/// Whether one of `fs` is a suspend function.
pub open spec fn has_suspend(fs: Seq<FunctionDeclaration>) -> bool {
    exists|i: int| 0 <= i < fs.len() && #[trigger] fs[i].is_suspend
}

/// Whether one of the blocks mentions `@Serializable`.
pub open spec fn uses_serializable(bs: Seq<KotlinBlock>) -> bool {
    exists|i: int| 0 <= i < bs.len() && seq_contains(#[trigger] bs[i].content@, "@Serializable"@)
}

/// Whether a lifecycle hook or a function of `file` calls `$fetch(`.
pub open spec fn uses_fetch(file: WhitehallFile) -> bool {
    (exists|i: int|
        0 <= i < file.lifecycle_hooks@.len() && seq_contains(
            #[trigger] file.lifecycle_hooks@[i].body@,
            "$fetch("@,
        )) || (exists|i: int|
        0 <= i < file.functions@.len() && seq_contains(
            #[trigger] file.functions@[i].body@,
            "$fetch("@,
        ))
}

/// Whether the ViewModel launches coroutines: a suspend function or a hook.
pub open spec fn launches(file: WhitehallFile) -> bool {
    has_suspend(file.functions@) || file.lifecycle_hooks@.len() > 0
}

/// The Ktor imports for `$fetch`.
pub open spec fn ktor_imports() -> Seq<Seq<char>> {
    seq![
        "io.ktor.client.HttpClient"@,
        "io.ktor.client.call.body"@,
        "io.ktor.client.engine.okhttp.OkHttp"@,
        "io.ktor.client.plugins.contentnegotiation.ContentNegotiation"@,
        "io.ktor.client.request.get"@,
        "io.ktor.serialization.kotlinx.json.json"@,
        "kotlinx.serialization.json.Json"@,
    ]
}

/// The imports of a component's ViewModel (before sorting).
pub open spec fn component_vm_imports(package: Seq<char>, file: WhitehallFile) -> Seq<Seq<char>> {
    only_if(launches(file), seq!["androidx.lifecycle.viewModelScope"@]) + seq![
        "kotlinx.coroutines.flow.MutableStateFlow"@,
        "kotlinx.coroutines.flow.StateFlow"@,
        "kotlinx.coroutines.flow.asStateFlow"@,
        "kotlinx.coroutines.flow.update"@,
    ] + only_if(launches(file), seq!["kotlinx.coroutines.launch"@]) + only_if(
        uses_serializable(file.kotlin_blocks@),
        seq!["kotlinx.serialization.Serializable"@],
    ) + only_if(uses_fetch(file), ktor_imports()) + resolved_imports(package, file.imports@)
}

/// The pass-through Kotlin blocks, each ending in a line break.
pub open spec fn blocks_text(bs: Seq<KotlinBlock>) -> Seq<char>
    decreases bs.len(),
{
    if bs.len() == 0 {
        Seq::empty()
    } else {
        blocks_text(bs.drop_last()) + bs.last().content@ + if bs.last().content@.len() > 0
            && bs.last().content@.last() == '\n' {
            Seq::empty()
        } else {
            "\n"@
        }
    }
}

/// The type of a state variable: declared, else inferred.
pub open spec fn state_type(st: StateDeclaration) -> Seq<char> {
    match st.type_annotation {
        Some(t) => t@,
        None => inferred_type(st.initial_value@),
    }
}

/// The number of `var` state variables among `ss`.
pub open spec fn var_count(ss: Seq<StateDeclaration>) -> nat
    decreases ss.len(),
{
    if ss.len() == 0 {
        0
    } else {
        var_count(ss.drop_last()) + if ss.last().mutable {
            1nat
        } else {
            0nat
        }
    }
}

/// The field of `UiState` for `var` `st`.
pub open spec fn state_field(st: StateDeclaration, more: bool) -> Seq<char> {
    "        val "@ + st.name@ + ": "@ + state_type(st) + " = "@ + array_list(st.initial_value@, false)
        + comma(more) + "\n"@
}

/// The fields of `UiState`: one per `var`, comma-separated (`total`: their number).
pub open spec fn state_fields(ss: Seq<StateDeclaration>, total: nat) -> Seq<char>
    decreases ss.len(),
{
    if ss.len() == 0 {
        Seq::empty()
    } else if ss.last().mutable {
        state_fields(ss.drop_last(), total) + state_field(
            ss.last(),
            var_count(ss.drop_last()) + 1 < total,
        )
    } else {
        state_fields(ss.drop_last(), total)
    }
}

/// The accessors of the `var`s, in order.
pub open spec fn state_accessors(ss: Seq<StateDeclaration>) -> Seq<char>
    decreases ss.len(),
{
    if ss.len() == 0 {
        Seq::empty()
    } else {
        state_accessors(ss.drop_last()) + if ss.last().mutable {
            "    var "@ + ss.last().name@ + ": "@ + state_type(ss.last()) + "\n"@
                + "        get() = _uiState.value."@ + ss.last().name@ + "\n"@
                + "        set(value) { _uiState.update { it.copy("@ + ss.last().name@
                + " = value) } }\n\n"@
        } else {
            Seq::empty()
        }
    }
}

/// Getters for the plain `val`s (not `var`, not derived), in order.
pub open spec fn plain_val_getters(ss: Seq<StateDeclaration>) -> Seq<char>
    decreases ss.len(),
{
    if ss.len() == 0 {
        Seq::empty()
    } else {
        plain_val_getters(ss.drop_last()) + if !ss.last().mutable && !ss.last().is_derived_state {
            "    val "@ + ss.last().name@ + opt_suffix(": "@, ss.last().type_annotation) + "\n"@
                + "        get() = "@ + array_list(ss.last().initial_value@, false) + "\n\n"@
        } else {
            Seq::empty()
        }
    }
}

/// The update methods of the `var`s, in order.
pub open spec fn state_update_methods(ss: Seq<StateDeclaration>, fs: Seq<FunctionDeclaration>) -> Seq<
    char,
>
    decreases ss.len(),
{
    if ss.len() == 0 {
        Seq::empty()
    } else {
        state_update_methods(ss.drop_last(), fs) + if ss.last().mutable {
            update_method_text(ss.last().name@, state_type(ss.last()), fs)
        } else {
            Seq::empty()
        }
    }
}

/// `UiState`, its flow and accessors, when there is a `var`.
pub open spec fn component_ui_state(ss: Seq<StateDeclaration>) -> Seq<char> {
    if var_count(ss) > 0 {
        "    data class UiState(\n"@ + state_fields(ss, var_count(ss)) + "    )\n\n"@
            + "    private val _uiState = MutableStateFlow(UiState())\n"@
            + "    val uiState: StateFlow<UiState> = _uiState.asStateFlow()\n\n"@ + state_accessors(ss)
    } else {
        Seq::empty()
    }
}

/// The code run on mount: the hook body (route parameters read from the
/// saved state when there are any, an outer `launch` removed), line by line
/// in `viewModelScope.launch`; other hooks give nothing.
pub open spec fn hook_code(h: LifecycleHook, params: Seq<Seq<char>>) -> Seq<char> {
    if h.hook_type@ == "onMount"@ {
        let body = without_outer_launch(
            if params.len() > 0 {
                hook_body_with_params(h.body@, params)
            } else {
                h.body@
            },
        );
        "        viewModelScope.launch {\n"@ + nonblank_lines(body, "            "@, true)
            + "        }\n"@
    } else {
        Seq::empty()
    }
}

/// The code of the hooks, in order.
pub open spec fn hooks_code(hs: Seq<LifecycleHook>, params: Seq<Seq<char>>) -> Seq<char>
    decreases hs.len(),
{
    if hs.len() == 0 {
        Seq::empty()
    } else {
        hooks_code(hs.drop_last(), params) + hook_code(hs.last(), params)
    }
}

/// The `init` block, when there is a hook.
pub open spec fn init_block(hs: Seq<LifecycleHook>, params: Seq<Seq<char>>) -> Seq<char> {
    if hs.len() > 0 {
        "    init {\n"@ + hooks_code(hs, params) + "    }\n\n"@
    } else {
        Seq::empty()
    }
}

/// The class header of a component's ViewModel.
pub open spec fn component_vm_header(vm: Seq<char>, has_params: bool) -> Seq<char> {
    if has_params {
        "class "@ + vm + "(\n"@ + "    private val savedStateHandle: SavedStateHandle\n"@
            + ") : ViewModel() {\n"@
    } else {
        "class "@ + vm + " : ViewModel() {\n"@
    }
}

/// The Kotlin file of the ViewModel of component `name` with inline state
/// (`params`: its route parameters).
pub open spec fn component_viewmodel(
    package: Seq<char>,
    name: Seq<char>,
    params: Seq<Seq<char>>,
    file: WhitehallFile,
) -> Seq<char> {
    let ss = file.state@;
    "package "@ + package + "\n\n"@ + "import androidx.lifecycle.ViewModel\n"@ + (if params.len() > 0 {
        "import androidx.lifecycle.SavedStateHandle\n"@
    } else {
        Seq::empty()
    }) + import_lines(sorted_distinct(component_vm_imports(package, file))) + "\n"@ + blocks_text(
        file.kotlin_blocks@,
    ) + (if file.kotlin_blocks@.len() > 0 {
        "\n"@
    } else {
        Seq::empty()
    }) + (if uses_fetch(file) {
        http_client_text()
    } else {
        Seq::empty()
    }) + component_vm_header(name + "ViewModel"@, params.len() > 0) + component_ui_state(ss)
        + plain_val_getters(ss) + state_update_methods(ss, file.functions@) + vm_functions(
        file.functions@,
    ) + init_block(file.lifecycle_hooks@, params) + "}\n"@
}

/// What the component ViewModel needs of the state: each `var` has a name
/// whose first character is ASCII.
pub open spec fn component_state_ok(ss: Seq<StateDeclaration>) -> bool {
    forall|i: int| 0 <= i < ss.len() ==> (#[trigger] ss[i].mutable ==> update_name_ok(ss[i].name@))
}

fn any_suspend(fs: &Vec<FunctionDeclaration>) -> (r: bool)
    ensures
        r == has_suspend(fs@),
{
    let mut i: usize = 0;
    while i < fs.len()
        invariant
            i <= fs@.len(),
            forall|j: int| 0 <= j < i ==> !(#[trigger] fs@[j].is_suspend),
        decreases fs.len() - i,
    {
        if fs[i].is_suspend {
            return true;
        }
        i = i + 1;
    }
    false
}

fn any_serializable(bs: &Vec<KotlinBlock>) -> (r: bool)
    ensures
        r == uses_serializable(bs@),
{
    let mut i: usize = 0;
    while i < bs.len()
        invariant
            i <= bs@.len(),
            forall|j: int| 0 <= j < i ==> !seq_contains(#[trigger] bs@[j].content@, "@Serializable"@),
        decreases bs.len() - i,
    {
        if str_contains(bs[i].content.as_str(), "@Serializable") {
            return true;
        }
        i = i + 1;
    }
    false
}

/// Whether one of the hooks calls `$fetch(`.
fn hooks_fetch(hs: &Vec<LifecycleHook>) -> (r: bool)
    ensures
        r == exists|i: int| 0 <= i < hs@.len() && seq_contains(#[trigger] hs@[i].body@, "$fetch("@),
{
    let mut i: usize = 0;
    while i < hs.len()
        invariant
            i <= hs@.len(),
            forall|j: int| 0 <= j < i ==> !seq_contains(#[trigger] hs@[j].body@, "$fetch("@),
        decreases hs.len() - i,
    {
        if str_contains(hs[i].body.as_str(), "$fetch(") {
            return true;
        }
        i = i + 1;
    }
    false
}

/// Whether one of the functions calls `$fetch(`.
fn functions_fetch(fs: &Vec<FunctionDeclaration>) -> (r: bool)
    ensures
        r == exists|i: int| 0 <= i < fs@.len() && seq_contains(#[trigger] fs@[i].body@, "$fetch("@),
{
    let mut i: usize = 0;
    while i < fs.len()
        invariant
            i <= fs@.len(),
            forall|j: int| 0 <= j < i ==> !seq_contains(#[trigger] fs@[j].body@, "$fetch("@),
        decreases fs.len() - i,
    {
        if str_contains(fs[i].body.as_str(), "$fetch(") {
            return true;
        }
        i = i + 1;
    }
    false
}

pub(crate) fn any_fetch(file: &WhitehallFile) -> (r: bool)
    ensures
        r == uses_fetch(*file),
{
    hooks_fetch(&file.lifecycle_hooks) || functions_fetch(&file.functions)
}

/// The imports of a component's ViewModel (before sorting).
fn component_vm_import_list(package: &str, file: &WhitehallFile) -> (r: Vec<String>)
    ensures
        strs(r@) == component_vm_imports(package@, *file),
{
    let launch = any_suspend(&file.functions) || file.lifecycle_hooks.len() > 0;
    let mut v: Vec<String> = Vec::new();
    if launch {
        v.push(lit("androidx.lifecycle.viewModelScope"));
    }
    v.push(lit("kotlinx.coroutines.flow.MutableStateFlow"));
    v.push(lit("kotlinx.coroutines.flow.StateFlow"));
    v.push(lit("kotlinx.coroutines.flow.asStateFlow"));
    v.push(lit("kotlinx.coroutines.flow.update"));
    if launch {
        v.push(lit("kotlinx.coroutines.launch"));
    }
    let ser = any_serializable(&file.kotlin_blocks);
    if ser {
        v.push(lit("kotlinx.serialization.Serializable"));
    }
    let fetch = any_fetch(file);
    if fetch {
        v.push(lit("io.ktor.client.HttpClient"));
        v.push(lit("io.ktor.client.call.body"));
        v.push(lit("io.ktor.client.engine.okhttp.OkHttp"));
        v.push(lit("io.ktor.client.plugins.contentnegotiation.ContentNegotiation"));
        v.push(lit("io.ktor.client.request.get"));
        v.push(lit("io.ktor.serialization.kotlinx.json.json"));
        v.push(lit("kotlinx.serialization.json.Json"));
    }
    proof {
        assert(strs(v@) =~= only_if(launch, seq!["androidx.lifecycle.viewModelScope"@]) + seq![
            "kotlinx.coroutines.flow.MutableStateFlow"@,
            "kotlinx.coroutines.flow.StateFlow"@,
            "kotlinx.coroutines.flow.asStateFlow"@,
            "kotlinx.coroutines.flow.update"@,
        ] + only_if(launch, seq!["kotlinx.coroutines.launch"@]) + only_if(
            ser,
            seq!["kotlinx.serialization.Serializable"@],
        ) + only_if(fetch, ktor_imports()));
    }
    push_resolved_imports(&mut v, package, &file.imports);
    v
}

/// Appends the pass-through blocks, each ending in a line break.
fn push_blocks_text(out: &mut String, bs: &Vec<KotlinBlock>)
    ensures
        final(out)@ == old(out)@ + blocks_text(bs@),
{
    let mut i: usize = 0;
    proof {
        assert(bs@.take(0) =~= Seq::<KotlinBlock>::empty());
    }
    while i < bs.len()
        invariant
            i <= bs@.len(),
            out@ == old(out)@ + blocks_text(bs@.take(i as int)),
        decreases bs.len() - i,
    {
        push_string(out, &bs[i].content);
        let cv = str_to_chars(bs[i].content.as_str());
        if !(cv.len() > 0 && cv[cv.len() - 1] == '\n') {
            push_lit(out, "\n");
        }
        proof {
            assert(bs@.take(i + 1).drop_last() =~= bs@.take(i as int));
            assert(bs@.take(i + 1).last() == bs@[i as int]);
        }
        i = i + 1;
    }
    proof {
        assert(bs@.take(bs@.len() as int) =~= bs@);
    }
}

/// Appends the type of state variable `st`.
fn push_state_type(out: &mut String, st: &StateDeclaration)
    ensures
        final(out)@ == old(out)@ + state_type(*st),
{
    match &st.type_annotation {
        Some(t) => push_string(out, t),
        None => {
            let t = infer_type_from_value(st.initial_value.as_str());
            push_string(out, &t);
        },
    }
}

/// Appends the field of `UiState` for `var` `st`.
#[verifier::spinoff_prover]
#[verifier::rlimit(40)]
fn push_state_field(out: &mut String, st: &StateDeclaration, more: bool)
    ensures
        final(out)@ == old(out)@ + state_field(*st, more),
{
    push_lit(out, "        val ");
    push_string(out, &st.name);
    push_lit(out, ": ");
    push_state_type(out, st);
    push_lit(out, " = ");
    let v = crate::compose::transform_array_literal(st.initial_value.as_str(), false);
    push_string(out, &v);
    if more {
        push_lit(out, ",");
    }
    push_lit(out, "\n");
}

/// Appends `UiState`, its flow and accessors, when there is a `var`.
fn push_component_ui_state(out: &mut String, ss: &Vec<StateDeclaration>)
    requires
        component_state_ok(ss@),
    ensures
        final(out)@ == old(out)@ + component_ui_state(ss@),
{
    let mut total: usize = 0;
    let mut i: usize = 0;
    proof {
        assert(ss@.take(0) =~= Seq::<StateDeclaration>::empty());
    }
    while i < ss.len()
        invariant
            i <= ss@.len(),
            total == var_count(ss@.take(i as int)),
            total <= i,
        decreases ss.len() - i,
    {
        if ss[i].mutable {
            total = total + 1;
        }
        proof {
            assert(ss@.take(i + 1).drop_last() =~= ss@.take(i as int));
        }
        i = i + 1;
    }
    proof {
        assert(ss@.take(ss@.len() as int) =~= ss@);
    }
    if total == 0 {
        return;
    }
    push_lit(out, "    data class UiState(\n");
    let ghost start = out@;
    let mut seen: usize = 0;
    i = 0;
    proof {
        assert(ss@.take(0) =~= Seq::<StateDeclaration>::empty());
    }
    while i < ss.len()
        invariant
            i <= ss@.len(),
            component_state_ok(ss@),
            total == var_count(ss@),
            seen == var_count(ss@.take(i as int)),
            seen <= i,
            out@ == start + state_fields(ss@.take(i as int), total as nat),
        decreases ss.len() - i,
    {
        let st = &ss[i];
        proof {
            assert(ss@.take(i + 1).drop_last() =~= ss@.take(i as int));
            assert(ss@.take(i + 1).last() == *st);
        }
        if st.mutable {
            proof {
                assert(ss@[i as int] == *st);
            }
            push_state_field(out, st, seen + 1 < total);
            seen = seen + 1;
        }
        i = i + 1;
    }
    proof {
        assert(ss@.take(ss@.len() as int) =~= ss@);
    }
    push_lit(out, "    )\n\n");
    push_lit(out, "    private val _uiState = MutableStateFlow(UiState())\n");
    push_lit(out, "    val uiState: StateFlow<UiState> = _uiState.asStateFlow()\n\n");
    let ghost mid = out@;
    i = 0;
    proof {
        assert(ss@.take(0) =~= Seq::<StateDeclaration>::empty());
    }
    while i < ss.len()
        invariant
            i <= ss@.len(),
            out@ == mid + state_accessors(ss@.take(i as int)),
        decreases ss.len() - i,
    {
        let st = &ss[i];
        let ghost before = out@;
        if st.mutable {
            push_lit(out, "    var ");
            push_string(out, &st.name);
            push_lit(out, ": ");
            push_state_type(out, st);
            push_lit(out, "\n");
            push_lit(out, "        get() = _uiState.value.");
            push_string(out, &st.name);
            push_lit(out, "\n");
            push_lit(out, "        set(value) { _uiState.update { it.copy(");
            push_string(out, &st.name);
            push_lit(out, " = value) } }\n\n");
        }
        proof {
            assert(ss@.take(i + 1).drop_last() =~= ss@.take(i as int));
            assert(ss@.take(i + 1).last() == *st);
        }
        i = i + 1;
    }
    proof {
        assert(ss@.take(ss@.len() as int) =~= ss@);
    }
}

/// Appends the getters of the plain `val`s.
fn push_plain_val_getters(out: &mut String, ss: &Vec<StateDeclaration>)
    requires
        component_state_ok(ss@),
    ensures
        final(out)@ == old(out)@ + plain_val_getters(ss@),
{
    let mut i: usize = 0;
    proof {
        assert(ss@.take(0) =~= Seq::<StateDeclaration>::empty());
    }
    while i < ss.len()
        invariant
            i <= ss@.len(),
            component_state_ok(ss@),
            out@ == old(out)@ + plain_val_getters(ss@.take(i as int)),
        decreases ss.len() - i,
    {
        let st = &ss[i];
        if !st.mutable && !st.is_derived_state {
            push_lit(out, "    val ");
            push_string(out, &st.name);
            push_opt_suffix(out, ": ", &st.type_annotation);
            push_lit(out, "\n");
            push_lit(out, "        get() = ");
            let v = crate::compose::transform_array_literal(st.initial_value.as_str(), false);
            push_string(out, &v);
            push_lit(out, "\n\n");
        }
        proof {
            assert(ss@.take(i + 1).drop_last() =~= ss@.take(i as int));
            assert(ss@.take(i + 1).last() == *st);
        }
        i = i + 1;
    }
    proof {
        assert(ss@.take(ss@.len() as int) =~= ss@);
    }
}

/// Appends the update methods of the `var`s.
fn push_state_update_methods(
    out: &mut String,
    ss: &Vec<StateDeclaration>,
    fs: &Vec<FunctionDeclaration>,
)
    requires
        component_state_ok(ss@),
    ensures
        final(out)@ == old(out)@ + state_update_methods(ss@, fs@),
{
    let mut i: usize = 0;
    proof {
        assert(ss@.take(0) =~= Seq::<StateDeclaration>::empty());
    }
    while i < ss.len()
        invariant
            i <= ss@.len(),
            component_state_ok(ss@),
            out@ == old(out)@ + state_update_methods(ss@.take(i as int), fs@),
        decreases ss.len() - i,
    {
        let st = &ss[i];
        if st.mutable {
            let mut t = String::new();
            push_state_type(&mut t, st);
            push_update_method(out, &st.name, &t, fs);
        }
        proof {
            assert(ss@.take(i + 1).drop_last() =~= ss@.take(i as int));
            assert(ss@.take(i + 1).last() == *st);
        }
        i = i + 1;
    }
    proof {
        assert(ss@.take(ss@.len() as int) =~= ss@);
    }
}

/// Appends the `init` block, when there is a hook.
fn push_init_block(out: &mut String, hs: &Vec<LifecycleHook>, route_params: &Vec<String>)
    ensures
        final(out)@ == old(out)@ + init_block(hs@, strs(route_params@)),
{
    if hs.len() == 0 {
        return;
    }
    let ghost params = strs(route_params@);
    push_lit(out, "    init {\n");
    let ghost start = out@;
    let mut i: usize = 0;
    proof {
        assert(hs@.take(0) =~= Seq::<LifecycleHook>::empty());
    }
    while i < hs.len()
        invariant
            i <= hs@.len(),
            params == strs(route_params@),
            out@ == start + hooks_code(hs@.take(i as int), params),
        decreases hs.len() - i,
    {
        let h = &hs[i];
        let ghost before = out@;
        if str_eq(h.hook_type.as_str(), "onMount") {
            let with_params = if route_params.len() > 0 {
                crate::compose::transform_lifecycle_hook_body(h.body.as_str(), route_params)
            } else {
                lit(h.body.as_str())
            };
            proof {
                assert(params.len() == route_params@.len());
                assert(route_params@.map_values(|p: String| p@) == params);
            }
            let body = crate::compose::strip_outer_launch(with_params.as_str());
            push_lit(out, "        viewModelScope.launch {\n");
            push_nonblank_lines(out, body.as_str(), "            ", true);
            push_lit(out, "        }\n");
            proof {
                assert(out@ =~= before + hook_code(*h, params));
            }
        }
        proof {
            assert(hs@.take(i + 1).drop_last() =~= hs@.take(i as int));
            assert(hs@.take(i + 1).last() == *h);
        }
        i = i + 1;
    }
    proof {
        assert(hs@.take(hs@.len() as int) =~= hs@);
    }
    push_lit(out, "    }\n\n");
}

/// Appends the class header of a component's ViewModel.
fn push_component_vm_header(out: &mut String, component_name: &str, has_params: bool)
    ensures
        final(out)@ == old(out)@ + component_vm_header(component_name@ + "ViewModel"@, has_params),
{
    push_lit(out, "class ");
    push_lit(out, component_name);
    push_lit(out, "ViewModel");
    if has_params {
        push_lit(out, "(\n");
        push_lit(out, "    private val savedStateHandle: SavedStateHandle\n");
        push_lit(out, ") : ViewModel() {\n");
    } else {
        push_lit(out, " : ViewModel() {\n");
    }
}

/// Appends the package, the imports and what precedes the class of a
/// component's ViewModel.
fn push_component_vm_prelude(
    out: &mut String,
    package: &str,
    route_params: &Vec<String>,
    file: &WhitehallFile,
)
    ensures
        final(out)@ == old(out)@ + "package "@ + package@ + "\n\n"@
            + "import androidx.lifecycle.ViewModel\n"@ + (if route_params@.len() > 0 {
            "import androidx.lifecycle.SavedStateHandle\n"@
        } else {
            Seq::empty()
        }) + import_lines(sorted_distinct(component_vm_imports(package@, *file))) + "\n"@
            + blocks_text(file.kotlin_blocks@) + (if file.kotlin_blocks@.len() > 0 {
            "\n"@
        } else {
            Seq::empty()
        }) + (if uses_fetch(*file) {
            http_client_text()
        } else {
            Seq::empty()
        }),
{
    push_lit(out, "package ");
    push_lit(out, package);
    push_lit(out, "\n\n");
    push_lit(out, "import androidx.lifecycle.ViewModel\n");
    if route_params.len() > 0 {
        push_lit(out, "import androidx.lifecycle.SavedStateHandle\n");
    }
    let imports = component_vm_import_list(package, file);
    let sorted = sort_dedup(&imports);
    push_import_lines(out, &sorted);
    push_lit(out, "\n");
    push_blocks_text(out, &file.kotlin_blocks);
    if file.kotlin_blocks.len() > 0 {
        push_lit(out, "\n");
    }
    if any_fetch(file) {
        let client = generate_http_client();
        push_string(out, &client);
    }
}

/// The Kotlin file of the ViewModel of component `component_name` with
/// inline state: `UiState` of its `var`s, getters of its plain `val`s,
/// update methods, its functions and an `init` block for its hooks;
/// `route_params` are read from the saved state.
pub fn generate_component_viewmodel_class(
    package: &str,
    component_name: &str,
    route_params: &Vec<String>,
    file: &WhitehallFile,
) -> (r: Result<String, String>)
    requires
        component_state_ok(file.state@),
    ensures
        r matches Ok(code) && code@ == component_viewmodel(
            package@,
            component_name@,
            strs(route_params@),
            *file,
        ),
{
    let mut out = String::new();
    push_component_vm_prelude(&mut out, package, route_params, file);
    let ghost a = out@;
    push_component_vm_header(&mut out, component_name, route_params.len() > 0);
    let ghost b = out@;
    push_component_ui_state(&mut out, &file.state);
    push_plain_val_getters(&mut out, &file.state);
    push_state_update_methods(&mut out, &file.state, &file.functions);
    push_vm_functions(&mut out, &file.functions);
    let ghost c = out@;
    push_init_block(&mut out, &file.lifecycle_hooks, route_params);
    push_lit(&mut out, "}\n");
    proof {
        assert(out@ =~= component_viewmodel(
            package@,
            component_name@,
            strs(route_params@),
            *file,
        ));
    }
    Ok(out)
}


// ===================== Deciding what a ViewModel needs =====================

/// Whether every `UiState` field among `ps` has a name whose first
/// character is ASCII.
pub(crate) fn ui_names_ok_of(ps: &Vec<PropertyDeclaration>) -> (r: bool)
    ensures
        r == ui_names_ok(ps@),
{
    let mut i: usize = 0;
    while i < ps.len()
        invariant
            i <= ps@.len(),
            forall|k: int| 0 <= k < i && is_ui_field(#[trigger] ps@[k]) ==> update_name_ok(ps@[k].name@),
        decreases ps.len() - i,
    {
        if ui_field(&ps[i]) {
            let c = str_to_chars(ps[i].name.as_str());
            if !(c.len() > 0 && (c[0] as u32) < 128) {
                proof {
                    assert(is_ui_field(ps@[i as int]) && !update_name_ok(ps@[i as int].name@));
                }
                return false;
            }
        }
        i = i + 1;
    }
    true
}

/// Whether each `var` among `ss` has a name whose first character is ASCII.
pub(crate) fn component_state_ok_of(ss: &Vec<StateDeclaration>) -> (r: bool)
    ensures
        r == component_state_ok(ss@),
{
    let mut i: usize = 0;
    while i < ss.len()
        invariant
            i <= ss@.len(),
            forall|k: int| 0 <= k < i ==> (#[trigger] ss@[k].mutable ==> update_name_ok(ss@[k].name@)),
        decreases ss.len() - i,
    {
        if ss[i].mutable {
            let c = str_to_chars(ss[i].name.as_str());
            if !(c.len() > 0 && (c[0] as u32) < 128) {
                proof {
                    assert(ss@[i as int].mutable && !update_name_ok(ss@[i as int].name@));
                }
                return false;
            }
        }
        i = i + 1;
    }
    true
}

} // verus!
