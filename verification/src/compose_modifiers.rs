//! Compose modifiers built from component props: padding with
//! Tailwind-style shortcuts, sizes, backgrounds and click handlers.

use vstd::prelude::*;

use crate::ast::{Component, ComponentProp, PropValue};
use crate::compose::{hex_color, kotlin_lambda, viewmodel_expression};
use crate::text::lit_at;
use crate::compose_imports::{has_prop, only_if, prop_expr, strip_quotes, strs};
use crate::compose_text::ExprContext;
use crate::recyclerview::unicode_upper;
use crate::stores::{float_text, parses_as_f64};
use crate::text::{
    lit, occurs_at, push_lit, push_string, seq_contains, spec_trim, str_eq, str_to_chars,
};

verus! {

// ===================== Padding =====================

/// A padding value with `.dp` unless it has it.
pub open spec fn dp_value(v: Seq<char>) -> Seq<char> {
    if v.len() >= 3 && v.subrange(v.len() - 3, v.len() as int) == ".dp"@ {
        v
    } else {
        v + ".dp"@
    }
}

/// The padding of one side after the props `ps` (with its priority): the
/// base padding has priority 1, `p` sets a side of priority at most 1 (with
/// priority 1), the side's axis shortcut (`px`/`py`) one of priority at most
/// 2 (with priority 2), and the side's own shortcut always sets it (with
/// priority 3).
pub open spec fn side_padding(
    ps: Seq<ComponentProp>,
    base: Option<Seq<char>>,
    axis: Seq<char>,
    own: Seq<char>,
) -> Option<(Seq<char>, int)>
    decreases ps.len(),
{
    if ps.len() == 0 {
        match base {
            Some(v) => Some((dp_value(v), 1)),
            None => None,
        }
    } else {
        let prev = side_padding(ps.drop_last(), base, axis, own);
        let n = ps.last().name@;
        let v = prop_expr(ps.last().value) + ".dp"@;
        if n == "p"@ {
            match prev {
                Some((_, pr)) if pr > 1 => prev,
                _ => Some((v, 1)),
            }
        } else if n == axis {
            match prev {
                Some((_, pr)) if pr > 2 => prev,
                _ => Some((v, 2)),
            }
        } else if n == own {
            Some((v, 3))
        } else {
            prev
        }
    }
}

/// The value of a side, if it is set.
pub open spec fn side_value(s: Option<(Seq<char>, int)>) -> Option<Seq<char>> {
    match s {
        Some((v, _)) => Some(v),
        None => None,
    }
}

/// `name = value` for each set side, in the order top, bottom, start, end.
pub open spec fn padding_parts(
    t: Option<Seq<char>>,
    b: Option<Seq<char>>,
    s: Option<Seq<char>>,
    e: Option<Seq<char>>,
) -> Seq<Seq<char>> {
    (match t {
        Some(v) => seq!["top = "@ + v],
        None => Seq::empty(),
    }) + (match b {
        Some(v) => seq!["bottom = "@ + v],
        None => Seq::empty(),
    }) + (match s {
        Some(v) => seq!["start = "@ + v],
        None => Seq::empty(),
    }) + (match e {
        Some(v) => seq!["end = "@ + v],
        None => Seq::empty(),
    })
}

/// `parts` joined by `, `.
pub open spec fn joined(parts: Seq<Seq<char>>) -> Seq<char>
    decreases parts.len(),
{
    if parts.len() == 0 {
        Seq::empty()
    } else if parts.len() == 1 {
        parts[0]
    } else {
        joined(parts.drop_last()) + ", "@ + parts.last()
    }
}

/// The padding modifier for the padding shortcuts among `ps` over the base
/// padding `base`: one value when all sides agree, `horizontal`/`vertical`
/// when the axes agree, else the sides that are set; none when no side is.
pub open spec fn padding_modifier(ps: Seq<ComponentProp>, base: Option<Seq<char>>) -> Option<
    Seq<char>,
> {
    let t = side_value(side_padding(ps, base, "py"@, "pt"@));
    let b = side_value(side_padding(ps, base, "py"@, "pb"@));
    let s = side_value(side_padding(ps, base, "px"@, "pl"@));
    let e = side_value(side_padding(ps, base, "px"@, "pr"@));
    if t is Some && b is Some && s is Some && e is Some && t == b && b == s && s == e {
        Some(".padding("@ + t->0 + ")"@)
    } else if s == e && t == b && s is Some && t is Some {
        if s == t {
            Some(".padding("@ + s->0 + ")"@)
        } else {
            Some(".padding(horizontal = "@ + s->0 + ", vertical = "@ + t->0 + ")"@)
        }
    } else {
        let parts = padding_parts(t, b, s, e);
        if parts.len() == 0 {
            None
        } else {
            Some(".padding("@ + joined(parts) + ")"@)
        }
    }
}

/// The padding value `v` with `.dp` unless it has it.
fn with_dp(v: &str) -> (r: String)
    ensures
        r@ == dp_value(v@),
{
    let cv = str_to_chars(v);
    let n = cv.len();
    proof {
        reveal_strlit(".dp");
    }
    if n >= 3 && crate::text::lit_at(cv.as_slice(), n - 3, ".dp") {
        proof {
            assert(cv@.subrange(n - 3, n as int) == ".dp"@);
        }
        lit(v)
    } else {
        proof {
            if n >= 3 {
                assert(!occurs_at(cv@, n - 3, ".dp"@));
            }
        }
        let mut r = lit(v);
        push_lit(&mut r, ".dp");
        r
    }
}

/// One side of the padding, updated by prop `p` (`axis` and `own`: the
/// side's shortcuts).
fn update_side(
    side: Option<(String, u8)>,
    name: &str,
    value: &String,
    axis: &str,
    own: &str,
) -> (r: Option<(String, u8)>)
    requires
        side matches Some((_, pr)) ==> 1 <= pr <= 3,
    ensures
        r matches Some((_, pr)) ==> 1 <= pr <= 3,
        opt_view(r) == {
            let prev = opt_view(side);
            let v = value@;
            if name@ == "p"@ {
                match prev {
                    Some((_, pr)) if pr > 1 => prev,
                    _ => Some((v, 1)),
                }
            } else if name@ == axis@ {
                match prev {
                    Some((_, pr)) if pr > 2 => prev,
                    _ => Some((v, 2)),
                }
            } else if name@ == own@ {
                Some((v, 3))
            } else {
                prev
            }
        },
{
    if str_eq(name, "p") {
        match side {
            Some((v, pr)) if pr > 1 => Some((v, pr)),
            _ => Some((lit(value.as_str()), 1)),
        }
    } else if str_eq(name, axis) {
        match side {
            Some((v, pr)) if pr > 2 => Some((v, pr)),
            _ => Some((lit(value.as_str()), 2)),
        }
    } else if str_eq(name, own) {
        Some((lit(value.as_str()), 3))
    } else {
        side
    }
}

/// The view of a side.
pub open spec fn opt_view(s: Option<(String, u8)>) -> Option<(Seq<char>, int)> {
    match s {
        Some((v, p)) => Some((v@, p as int)),
        None => None,
    }
}

/// The padding of one side after the props.
fn side_of(ps: &Vec<ComponentProp>, base: Option<&str>, axis: &str, own: &str) -> (r: Option<
    (String, u8),
>)
    ensures
        opt_view(r) == side_padding(
            ps@,
            match base {
                Some(b) => Some(b@),
                None => None,
            },
            axis@,
            own@,
        ),
        r matches Some((_, pr)) ==> 1 <= pr <= 3,
{
    let ghost bv = match base {
        Some(b) => Some(b@),
        None => None::<Seq<char>>,
    };
    let mut side: Option<(String, u8)> = match base {
        Some(b) => Some((with_dp(b), 1)),
        None => None,
    };
    let mut i: usize = 0;
    proof {
        assert(ps@.take(0) =~= Seq::<ComponentProp>::empty());
    }
    while i < ps.len()
        invariant
            i <= ps@.len(),
            side matches Some((_, pr)) ==> 1 <= pr <= 3,
            opt_view(side) == side_padding(ps@.take(i as int), bv, axis@, own@),
        decreases ps.len() - i,
    {
        let p = &ps[i];
        let mut v = crate::compose_imports::get_prop_expr(&p.value);
        push_lit(&mut v, ".dp");
        side = update_side(side, p.name.as_str(), &v, axis, own);
        proof {
            assert(ps@.take(i + 1).drop_last() =~= ps@.take(i as int));
            assert(ps@.take(i + 1).last() == *p);
        }
        i = i + 1;
    }
    proof {
        assert(ps@.take(ps@.len() as int) =~= ps@);
    }
    side
}

fn value_of(s: &Option<(String, u8)>) -> (r: Option<&String>)
    ensures
        match r {
            Some(v) => side_value(opt_view(*s)) == Some(v@),
            None => side_value(opt_view(*s)) is None,
        },
{
    match s {
        Some((v, _)) => Some(v),
        None => None,
    }
}

fn opt_eq(a: Option<&String>, b: Option<&String>) -> (r: bool)
    ensures
        r == (match a {
            Some(x) => Some(x@),
            None => None::<Seq<char>>,
        } == match b {
            Some(x) => Some(x@),
            None => None::<Seq<char>>,
        }),
{
    match (a, b) {
        (Some(x), Some(y)) => str_eq(x.as_str(), y.as_str()),
        (None, None) => true,
        _ => false,
    }
}

/// The padding modifier for the padding shortcuts (`p`, `px`, `py`, `pt`,
/// `pb`, `pl`, `pr`) among `props` over the `padding` prop `base_padding`;
/// specific sides win over axes, axes over all sides.
pub fn build_padding_modifier(props: &Vec<ComponentProp>, base_padding: Option<&str>) -> (r: Option<
    String,
>)
    ensures
        match r {
            Some(m) => padding_modifier(
                props@,
                match base_padding {
                    Some(b) => Some(b@),
                    None => None,
                },
            ) == Some(m@),
            None => padding_modifier(
                props@,
                match base_padding {
                    Some(b) => Some(b@),
                    None => None,
                },
            ) is None,
        },
{
    let top = side_of(props, base_padding, "py", "pt");
    let bottom = side_of(props, base_padding, "py", "pb");
    let start = side_of(props, base_padding, "px", "pl");
    let end = side_of(props, base_padding, "px", "pr");
    let t = value_of(&top);
    let b = value_of(&bottom);
    let s = value_of(&start);
    let e = value_of(&end);
    if t.is_some() && b.is_some() && s.is_some() && e.is_some() && opt_eq(t, b) && opt_eq(b, s)
        && opt_eq(s, e) {
        let mut out = lit(".padding(");
        push_string(&mut out, t.unwrap());
        push_lit(&mut out, ")");
        return Some(out);
    }
    if opt_eq(s, e) && opt_eq(t, b) && s.is_some() && t.is_some() {
        if opt_eq(s, t) {
            let mut out = lit(".padding(");
            push_string(&mut out, s.unwrap());
            push_lit(&mut out, ")");
            return Some(out);
        }
        let mut out = lit(".padding(horizontal = ");
        push_string(&mut out, s.unwrap());
        push_lit(&mut out, ", vertical = ");
        push_string(&mut out, t.unwrap());
        push_lit(&mut out, ")");
        return Some(out);
    }
    let mut parts: Vec<String> = Vec::new();
    if let Some(x) = t {
        let mut p = lit("top = ");
        push_string(&mut p, x);
        parts.push(p);
    }
    if let Some(x) = b {
        let mut p = lit("bottom = ");
        push_string(&mut p, x);
        parts.push(p);
    }
    if let Some(x) = s {
        let mut p = lit("start = ");
        push_string(&mut p, x);
        parts.push(p);
    }
    if let Some(x) = e {
        let mut p = lit("end = ");
        push_string(&mut p, x);
        parts.push(p);
    }
    let ghost tv = match t {
        Some(x) => Some(x@),
        None => None::<Seq<char>>,
    };
    let ghost bv = match b {
        Some(x) => Some(x@),
        None => None::<Seq<char>>,
    };
    let ghost sv = match s {
        Some(x) => Some(x@),
        None => None::<Seq<char>>,
    };
    let ghost ev = match e {
        Some(x) => Some(x@),
        None => None::<Seq<char>>,
    };
    proof {
        assert(crate::compose_imports::strs(parts@) =~= padding_parts(tv, bv, sv, ev));
    }
    if parts.len() == 0 {
        return None;
    }
    let mut out = lit(".padding(");
    let mut k: usize = 0;
    while k < parts.len()
        invariant
            k <= parts@.len(),
            out@ == ".padding("@ + joined(crate::compose_imports::strs(parts@).take(k as int)),
        decreases parts.len() - k,
    {
        if k > 0 {
            push_lit(&mut out, ", ");
        }
        push_string(&mut out, &parts[k]);
        proof {
            let w = crate::compose_imports::strs(parts@);
            assert(w.take(k + 1).drop_last() =~= w.take(k as int));
            if k == 0 {
                assert(w.take(1) =~= seq![w[0]]);
                assert(w.take(0) =~= Seq::<Seq<char>>::empty());
            }
        }
        k = k + 1;
    }
    proof {
        assert(crate::compose_imports::strs(parts@).take(parts@.len() as int) =~= crate::compose_imports::strs(
            parts@,
        ));
    }
    push_lit(&mut out, ")");
    Some(out)
}

/// A side's own shortcut wins: when `ps[k]` is the last prop named `own`,
/// the side is its value (with `.dp`), whatever `p`, the axis shortcut or the
/// base padding say.
pub proof fn lemma_own_shortcut_wins(
    ps: Seq<ComponentProp>,
    base: Option<Seq<char>>,
    axis: Seq<char>,
    own: Seq<char>,
    k: int,
)
    requires
        0 <= k < ps.len(),
        ps[k].name@ == own,
        forall|j: int| k < j < ps.len() ==> (#[trigger] ps[j]).name@ != own,
        own != "p"@,
        own != axis,
    ensures
        side_padding(ps, base, axis, own) == Some((prop_expr(ps[k].value) + ".dp"@, 3int)),
    decreases ps.len(),
{
    if k < ps.len() - 1 {
        let q = ps.drop_last();
        assert forall|j: int| k < j < q.len() implies (#[trigger] q[j]).name@ != own by {
            assert(q[j] == ps[j]);
        }
        assert(q[k] == ps[k]);
        lemma_own_shortcut_wins(q, base, axis, own, k);
        assert(ps.last() == ps[ps.len() - 1]);
    }
}

// ===================== Dimensions =====================

/// Whether `s` ends with `p`.
pub open spec fn ends_with(s: Seq<char>, p: Seq<char>) -> bool {
    p.len() <= s.len() && s.subrange(s.len() - p.len(), s.len() as int) == p
}

/// `s` with every trailing repetition of the non-empty `p` removed (as
/// `trim_end_matches`).
pub open spec fn trim_end_all(s: Seq<char>, p: Seq<char>) -> Seq<char>
    decreases s.len(),
{
    if p.len() > 0 && ends_with(s, p) {
        trim_end_all(s.subrange(0, s.len() - p.len()), p)
    } else {
        s
    }
}

/// A dimension value as a Kotlin expression, and whether it is `100%`
/// (the caller fills the axis then). A number defaults to `dp`; a quoted
/// value keeps its `dp`/`sp` unit; anything else is used as it is.
pub open spec fn dimension(value: Seq<char>) -> (Seq<char>, bool) {
    let t = spec_trim(value);
    let quoted = t.len() > 0 && t[0] == '"' && t.last() == '"';
    let inner = if quoted {
        strip_quotes(t)
    } else {
        t
    };
    if inner == "100%"@ {
        (Seq::empty(), true)
    } else if quoted {
        if ends_with(inner, "dp"@) {
            (trim_end_all(inner, "dp"@) + ".dp"@, false)
        } else if ends_with(inner, "sp"@) {
            (trim_end_all(inner, "sp"@) + ".sp"@, false)
        } else if float_text(inner) {
            (inner + ".dp"@, false)
        } else {
            (inner, false)
        }
    } else if float_text(t) {
        (t + ".dp"@, false)
    } else {
        (t, false)
    }
}

/// Whether `v` ends with `p`.
pub(crate) fn chars_end_with(v: &Vec<char>, p: &str) -> (r: bool)
    ensures
        r == ends_with(v@, p@),
{
    let pv = str_to_chars(p);
    if pv.len() > v.len() {
        return false;
    }
    let ok = crate::text::chars_occur_at(v.as_slice(), v.len() - pv.len(), pv.as_slice());
    proof {
        if v@.len() - pv@.len() + pv@.len() <= v@.len() {
            assert(v@.len() - pv@.len() + pv@.len() == v@.len());
        }
    }
    ok
}

/// `s` with every trailing repetition of `p` removed.
fn trim_end_matches(s: &str, p: &str) -> (r: String)
    requires
        p@.len() > 0,
    ensures
        r@ == trim_end_all(s@, p@),
{
    let mut v = str_to_chars(s);
    let n = p.unicode_len();
    while chars_end_with(&v, p)
        invariant
            n == p@.len(),
            n > 0,
            trim_end_all(v@, p@) == trim_end_all(s@, p@),
        decreases v@.len(),
    {
        let keep = v.len() - n;
        let w = sub_vec(&v, keep);
        v = w;
    }
    crate::text::string_from_chars(v.as_slice())
}

/// The first `k` characters of `v`.
fn sub_vec(v: &Vec<char>, k: usize) -> (r: Vec<char>)
    requires
        k <= v@.len(),
    ensures
        r@ == v@.subrange(0, k as int),
{
    let mut r: Vec<char> = Vec::new();
    let mut i: usize = 0;
    while i < k
        invariant
            i <= k <= v@.len(),
            r@ == v@.subrange(0, i as int),
        decreases k - i,
    {
        r.push(v[i]);
        i = i + 1;
        assert(r@ =~= v@.subrange(0, i as int));
    }
    r
}

/// A dimension value as a Kotlin expression, and whether it is `100%`.
pub fn parse_dimension(value: &str, prop_name: &str, component_name: &str) -> (r: (String, bool))
    ensures
        r.0@ == dimension(value@).0,
        r.1 == dimension(value@).1,
{
    let t = crate::text::trim_str(value);
    let tv = str_to_chars(t.as_str());
    let quoted = tv.len() > 0 && tv[0] == '"' && tv[tv.len() - 1] == '"';
    let inner = if quoted {
        crate::compose_imports::strip_quotes_of(t.as_str())
    } else {
        lit(t.as_str())
    };
    if str_eq(inner.as_str(), "100%") {
        return (String::new(), true);
    }
    proof {
        reveal_strlit("dp");
        reveal_strlit("sp");
    }
    if quoted {
        let iv = str_to_chars(inner.as_str());
        if chars_end_with(&iv, "dp") {
            let mut r = trim_end_matches(inner.as_str(), "dp");
            push_lit(&mut r, ".dp");
            return (r, false);
        }
        if chars_end_with(&iv, "sp") {
            let mut r = trim_end_matches(inner.as_str(), "sp");
            push_lit(&mut r, ".sp");
            return (r, false);
        }
        if parses_as_f64(inner.as_str()) {
            let mut r = lit(inner.as_str());
            push_lit(&mut r, ".dp");
            return (r, false);
        }
        return (inner, false);
    }
    if parses_as_f64(t.as_str()) {
        let mut r = lit(t.as_str());
        push_lit(&mut r, ".dp");
        return (r, false);
    }
    (t, false)
}

// ===================== Modifiers of a component =====================

/// Which modifiers to build from a component's props.
pub struct ModifierConfig {
    /// `width`/`height` (`100%` fills the axis, else a fixed size).
    pub handle_size: bool,
    /// `padding` and the padding shortcuts.
    pub handle_padding: bool,
    /// `backgroundColor`.
    pub handle_background: bool,
    /// `onClick` as a `clickable` modifier.
    pub handle_click_as_modifier: bool,
    /// `fillMaxSize`/`fillMaxWidth`/`fillMaxHeight`.
    pub handle_fill_max: bool,
}

impl Default for ModifierConfig {
    fn default() -> (r: Self)
        ensures
            !r.handle_size && !r.handle_padding && !r.handle_background
                && !r.handle_click_as_modifier && !r.handle_fill_max,
    {
        ModifierConfig {
            handle_size: false,
            handle_padding: false,
            handle_background: false,
            handle_click_as_modifier: false,
            handle_fill_max: false,
        }
    }
}

/// The first of `ps` named `name`.
pub open spec fn first_named(ps: Seq<ComponentProp>, name: Seq<char>) -> Option<ComponentProp>
    decreases ps.len(),
{
    if ps.len() == 0 {
        None
    } else if ps[0].name@ == name {
        Some(ps[0])
    } else {
        first_named(ps.drop_first(), name)
    }
}

/// Index of the first of `ps` named `name`.
pub(crate) fn first_named_index(ps: &Vec<ComponentProp>, name: &str) -> (r: Option<usize>)
    ensures
        match r {
            Some(i) => i < ps@.len() && first_named(ps@, name@) == Some(ps@[i as int]),
            None => first_named(ps@, name@) is None,
        },
{
    let mut i: usize = 0;
    proof {
        assert(ps@.skip(0) =~= ps@);
    }
    while i < ps.len()
        invariant
            i <= ps@.len(),
            first_named(ps@, name@) == first_named(ps@.skip(i as int), name@),
        decreases ps.len() - i,
    {
        proof {
            assert(ps@.skip(i as int)[0] == ps@[i as int]);
            assert(ps@.skip(i as int).drop_first() =~= ps@.skip(i + 1));
        }
        if str_eq(ps[i].name.as_str(), name) {
            return Some(i);
        }
        i = i + 1;
    }
    None
}

/// Whether one of `mods` mentions `pat`.
pub open spec fn any_contains(mods: Seq<Seq<char>>, pat: Seq<char>) -> bool {
    exists|i: int| 0 <= i < mods.len() && seq_contains(#[trigger] mods[i], pat)
}

pub(crate) fn mods_contain(mods: &Vec<String>, pat: &str) -> (r: bool)
    ensures
        r == any_contains(strs(mods@), pat@),
{
    let mut i: usize = 0;
    while i < mods.len()
        invariant
            i <= mods@.len(),
            forall|j: int| 0 <= j < i ==> !seq_contains(#[trigger] strs(mods@)[j], pat@),
        decreases mods.len() - i,
    {
        if crate::text::str_contains(mods[i].as_str(), pat) {
            assert(seq_contains(strs(mods@)[i as int], pat@));
            return true;
        }
        i = i + 1;
    }
    false
}

/// The modifiers and handled props after one `fillMax*` prop: `.name()`
/// when it is `true` (and, but for `fillMaxSize`, no fill of the whole size
/// is there already).
pub open spec fn fill_step(
    ps: Seq<ComponentProp>,
    st: (Seq<Seq<char>>, Seq<Seq<char>>),
    name: Seq<char>,
) -> (Seq<Seq<char>>, Seq<Seq<char>>) {
    match first_named(ps, name) {
        Some(p) => (
            st.0 + only_if(
                spec_trim(prop_expr(p.value)) == "true"@ && (name == "fillMaxSize"@ || !any_contains(
                    st.0,
                    "fillMaxSize"@,
                )),
                seq!["."@ + name + "()"@],
            ),
            st.1.push(name),
        ),
        None => st,
    }
}

/// The modifiers after a `width` (`horizontal`) or `height` prop: a fill of
/// the axis for `100%` unless one is there, else the fixed size.
pub open spec fn size_step(
    ps: Seq<ComponentProp>,
    st: (Seq<Seq<char>>, Seq<Seq<char>>),
    horizontal: bool,
) -> (Seq<Seq<char>>, Seq<Seq<char>>) {
    let name = if horizontal {
        "width"@
    } else {
        "height"@
    };
    let fill = if horizontal {
        "fillMaxWidth"@
    } else {
        "fillMaxHeight"@
    };
    match first_named(ps, name) {
        Some(p) => {
            let d = dimension(prop_expr(p.value));
            (
                st.0 + if d.1 {
                    only_if(
                        !(any_contains(st.0, fill) || any_contains(st.0, "fillMaxSize"@)),
                        seq!["."@ + fill + "()"@],
                    )
                } else if d.0.len() > 0 {
                    seq!["."@ + name + "("@ + d.0 + ")"@]
                } else {
                    Seq::empty()
                },
                st.1.push(name),
            )
        },
        None => st,
    }
}

/// Whether `c` is a quoted value.
pub open spec fn is_quoted_value(c: Seq<char>) -> bool {
    c.len() > 0 && c[0] == '"' && c.last() == '"'
}

/// The background color expression for `backgroundColor` value `c`: a hex
/// color, a named `Color` (capitalized), or the expression as it is.
pub open spec fn background_color(c: Seq<char>) -> Result<Seq<char>, Seq<char>> {
    if is_quoted_value(c) {
        let inner = c.subrange(1, c.len() - 1);
        if inner.len() > 0 && inner[0] == '#' {
            hex_color(inner.subrange(1, inner.len() as int))
        } else {
            Ok("Color."@ + unicode_upper(inner[0]) + inner.subrange(1, inner.len() as int))
        }
    } else {
        Ok(c)
    }
}

/// A quoted background value can be read: it has both quotes, and a named
/// color has an ASCII first letter.
pub open spec fn background_ok(c: Seq<char>) -> bool {
    is_quoted_value(c) ==> c.len() > 2 && (c[1] as u32) < 128
}

/// The padding modifier, the `padding` prop and the shortcuts present as
/// handled.
pub open spec fn padding_step(ps: Seq<ComponentProp>, st: (Seq<Seq<char>>, Seq<Seq<char>>)) -> (
    Seq<Seq<char>>,
    Seq<Seq<char>>,
) {
    let base = match first_named(ps, "padding"@) {
        Some(p) => Some(prop_expr(p.value)),
        None => None,
    };
    (
        st.0 + match padding_modifier(ps, base) {
            Some(m) => seq![m],
            None => Seq::empty(),
        },
        st.1 + only_if(base is Some, seq!["padding"@]) + only_if(has_prop(ps, "p"@), seq!["p"@])
            + only_if(has_prop(ps, "px"@), seq!["px"@]) + only_if(has_prop(ps, "py"@), seq!["py"@])
            + only_if(has_prop(ps, "pt"@), seq!["pt"@]) + only_if(has_prop(ps, "pb"@), seq!["pb"@])
            + only_if(has_prop(ps, "pl"@), seq!["pl"@]) + only_if(has_prop(ps, "pr"@), seq!["pr"@]),
    )
}

/// An expression rewritten for the ViewModel wrapper of `ctx`.
pub open spec fn in_context(e: Seq<char>, ctx: ExprContext) -> Seq<char> {
    viewmodel_expression(
        e,
        ctx.in_viewmodel_wrapper,
        ctx.mutable_vars@.map_values(|x: String| x@),
        ctx.derived_props@.map_values(|x: String| x@),
        ctx.function_names@.map_values(|x: String| x@),
    )
}

/// The `clickable` modifier for an `onClick` value: a lambda as it is, a
/// function name called in a lambda.
pub open spec fn click_handler(v: Seq<char>, ctx: ExprContext) -> Seq<char> {
    let t = kotlin_lambda(v);
    if t.len() > 0 && t[0] == '{' {
        in_context(t, ctx)
    } else {
        "{ "@ + in_context(t + "()"@, ctx) + " }"@
    }
}

/// The modifiers (in order) and the handled props of component `c` under
/// `config`, or the error of a bad hex background color.
pub open spec fn component_modifiers(c: Component, config: ModifierConfig, ctx: ExprContext) -> Result<
    (Seq<Seq<char>>, Seq<Seq<char>>),
    Seq<char>,
> {
    props_modifiers(c.props@, config, ctx)
}

/// The modifiers (in order) and the handled props built from the props `ps`
/// under `config`, or the error of a bad hex background color.
pub open spec fn props_modifiers(ps: Seq<ComponentProp>, config: ModifierConfig, ctx: ExprContext) -> Result<
    (Seq<Seq<char>>, Seq<Seq<char>>),
    Seq<char>,
> {
    let s0 = (Seq::<Seq<char>>::empty(), Seq::<Seq<char>>::empty());
    let s1 = if config.handle_fill_max || config.handle_size {
        fill_step(ps, fill_step(ps, fill_step(ps, s0, "fillMaxSize"@), "fillMaxWidth"@), "fillMaxHeight"@)
    } else {
        s0
    };
    let s2 = if config.handle_size {
        size_step(ps, size_step(ps, s1, true), false)
    } else {
        s1
    };
    let r3 = if config.handle_background {
        match first_named(ps, "backgroundColor"@) {
            Some(p) => match background_color(prop_expr(p.value)) {
                Ok(x) => Ok(
                    (s2.0.push(".background("@ + x + ")"@), s2.1.push("backgroundColor"@)),
                ),
                Err(e) => Err(e),
            },
            None => Ok(s2),
        }
    } else {
        Ok(s2)
    };
    match r3 {
        Err(e) => Err(e),
        Ok(s3) => {
            let s4 = if config.handle_padding {
                padding_step(ps, s3)
            } else {
                s3
            };
            Ok(
                if config.handle_click_as_modifier {
                    match first_named(ps, "onClick"@) {
                        Some(p) => (
                            s4.0.push(".clickable "@ + click_handler(prop_expr(p.value), ctx)),
                            s4.1.push("onClick"@),
                        ),
                        None => s4,
                    }
                } else {
                    s4
                },
            )
        },
    }
}

/// What building the modifiers of `c` reads can be read: the first
/// `backgroundColor` (when handled) passes `background_ok`.
pub open spec fn modifiers_ok(c: Component, config: ModifierConfig) -> bool {
    config.handle_background ==> match first_named(c.props@, "backgroundColor"@) {
        Some(p) => background_ok(prop_expr(p.value)),
        None => true,
    }
}

/// The `"." + name + "()"` modifier.
fn call_modifier(name: &str) -> (r: String)
    ensures
        r@ == "."@ + name@ + "()"@,
{
    let mut r = lit(".");
    push_lit(&mut r, name);
    push_lit(&mut r, "()");
    r
}

fn fill_step_exec(ps: &Vec<ComponentProp>, mods: &mut Vec<String>, handled: &mut Vec<String>, name: &str)
    ensures
        (strs(final(mods)@), strs(final(handled)@)) == fill_step(
            ps@,
            (strs(old(mods)@), strs(old(handled)@)),
            name@,
        ),
{
    let ghost m0 = strs(mods@);
    let ghost h0 = strs(handled@);
    match first_named_index(ps, name) {
        None => {},
        Some(i) => {
            let e = crate::compose_imports::get_prop_expr(&ps[i].value);
            let t = crate::text::trim_str(e.as_str());
            let is_true = str_eq(t.as_str(), "true");
            let whole = str_eq(name, "fillMaxSize");
            let ok = is_true && (whole || !mods_contain(mods, "fillMaxSize"));
            if ok {
                mods.push(call_modifier(name));
            }
            handled.push(lit(name));
            proof {
                assert(strs(mods@) =~= m0 + only_if(ok, seq!["."@ + name@ + "()"@]));
                assert(strs(handled@) =~= h0.push(name@));
            }
        },
    }
}

fn size_step_exec(ps: &Vec<ComponentProp>, mods: &mut Vec<String>, handled: &mut Vec<String>, horizontal: bool)
    ensures
        (strs(final(mods)@), strs(final(handled)@)) == size_step(
            ps@,
            (strs(old(mods)@), strs(old(handled)@)),
            horizontal,
        ),
{
    let ghost m0 = strs(mods@);
    let ghost h0 = strs(handled@);
    let name = if horizontal {
        "width"
    } else {
        "height"
    };
    let fill = if horizontal {
        "fillMaxWidth"
    } else {
        "fillMaxHeight"
    };
    match first_named_index(ps, name) {
        None => {},
        Some(i) => {
            let e = crate::compose_imports::get_prop_expr(&ps[i].value);
            let (d, pct) = parse_dimension(e.as_str(), name, "");
            let ghost added: Seq<Seq<char>>;
            if pct {
                let ok = !(mods_contain(mods, fill) || mods_contain(mods, "fillMaxSize"));
                if ok {
                    mods.push(call_modifier(fill));
                }
                proof {
                    added = only_if(ok, seq!["."@ + fill@ + "()"@]);
                }
            } else if str_to_chars(d.as_str()).len() > 0 {
                let mut m = lit(".");
                push_lit(&mut m, name);
                push_lit(&mut m, "(");
                push_string(&mut m, &d);
                push_lit(&mut m, ")");
                mods.push(m);
                proof {
                    added = seq!["."@ + name@ + "("@ + d@ + ")"@];
                }
            } else {
                proof {
                    added = Seq::empty();
                }
            }
            handled.push(lit(name));
            proof {
                assert(strs(mods@) =~= m0 + added);
                assert(strs(handled@) =~= h0.push(name@));
            }
        },
    }
}

/// The background color expression for `backgroundColor` value `c`.
fn background_color_of(c: &String) -> (r: Result<String, String>)
    requires
        background_ok(c@),
    ensures
        match (r, background_color(c@)) {
            (Ok(a), Ok(b)) => a@ == b,
            (Err(a), Err(b)) => a@ == b,
            _ => false,
        },
{
    let v = str_to_chars(c.as_str());
    let n = v.len();
    if !(n > 0 && v[0] == '"' && v[n - 1] == '"') {
        return Ok(lit(c.as_str()));
    }
    let inner = sub_range(&v, 1, n - 1);
    if inner.len() > 0 && inner[0] == '#' {
        let hex = crate::text::string_from_range(inner.as_slice(), 1, inner.len());
        match crate::compose::convert_hex_to_color(hex.as_str()) {
            Ok(x) => Ok(x),
            Err(e) => Err(e),
        }
    } else {
        let mut out = lit("Color.");
        let up = crate::recyclerview::to_uppercase(inner[0]);
        push_string(&mut out, &up);
        let rest = crate::text::string_from_range(inner.as_slice(), 1, inner.len());
        push_string(&mut out, &rest);
        Ok(out)
    }
}

/// `v[a..b]` as a vector.
pub(crate) fn sub_range(v: &Vec<char>, a: usize, b: usize) -> (r: Vec<char>)
    requires
        a <= b <= v@.len(),
    ensures
        r@ == v@.subrange(a as int, b as int),
{
    let mut r: Vec<char> = Vec::new();
    let mut i = a;
    while i < b
        invariant
            a <= i <= b <= v@.len(),
            r@ == v@.subrange(a as int, i as int),
        decreases b - i,
    {
        r.push(v[i]);
        i = i + 1;
        assert(r@ =~= v@.subrange(a as int, i as int));
    }
    r
}

fn padding_step_exec(ps: &Vec<ComponentProp>, mods: &mut Vec<String>, handled: &mut Vec<String>)
    ensures
        (strs(final(mods)@), strs(final(handled)@)) == padding_step(
            ps@,
            (strs(old(mods)@), strs(old(handled)@)),
        ),
{
    let ghost m0 = strs(mods@);
    let ghost h0 = strs(handled@);
    let base: Option<String> = match first_named_index(ps, "padding") {
        Some(i) => Some(crate::compose_imports::get_prop_expr(&ps[i].value)),
        None => None,
    };
    let pm = match &base {
        Some(b) => build_padding_modifier(ps, Some(b.as_str())),
        None => build_padding_modifier(ps, None),
    };
    let ghost bv = match first_named(ps@, "padding"@) {
        Some(p) => Some(prop_expr(p.value)),
        None => None::<Seq<char>>,
    };
    proof {
        assert(bv == match &base {
            Some(b) => Some(b@),
            None => None::<Seq<char>>,
        });
    }
    let ghost added = match padding_modifier(ps@, bv) {
        Some(m) => seq![m],
        None => Seq::<Seq<char>>::empty(),
    };
    match pm {
        Some(m) => {
            mods.push(m);
        },
        None => {},
    }
    proof {
        assert(strs(mods@) =~= m0 + added);
    }
    let ghost h1 = strs(handled@);
    if base.is_some() {
        handled.push(lit("padding"));
    }
    proof {
        assert(strs(handled@) =~= h1 + only_if(bv is Some, seq!["padding"@]));
    }
    handle_if_present(ps, handled, "p");
    handle_if_present(ps, handled, "px");
    handle_if_present(ps, handled, "py");
    handle_if_present(ps, handled, "pt");
    handle_if_present(ps, handled, "pb");
    handle_if_present(ps, handled, "pl");
    handle_if_present(ps, handled, "pr");
}

/// Marks `name` handled when one of `ps` has it.
fn handle_if_present(ps: &Vec<ComponentProp>, handled: &mut Vec<String>, name: &str)
    ensures
        strs(final(handled)@) == strs(old(handled)@) + only_if(has_prop(ps@, name@), seq![name@]),
{
    let ghost h0 = strs(handled@);
    let present = crate::compose_imports::has_prop_named(ps, name);
    if present {
        handled.push(lit(name));
    }
    proof {
        assert(strs(handled@) =~= h0 + only_if(present, seq![name@]));
    }
}

/// The `clickable` handler for an `onClick` value.
pub(crate) fn click_handler_of(v: &String, ctx: &ExprContext) -> (r: String)
    requires
        ctx.names_ok(),
    ensures
        r@ == click_handler(v@, *ctx),
{
    let t = crate::compose::transform_lambda_arrow(v.as_str());
    let tv = str_to_chars(t.as_str());
    if tv.len() > 0 && tv[0] == '{' {
        crate::compose::transform_viewmodel_expression(
            t.as_str(),
            ctx.in_viewmodel_wrapper,
            &ctx.mutable_vars,
            &ctx.derived_props,
            &ctx.function_names,
        )
    } else {
        let mut call = lit(t.as_str());
        push_lit(&mut call, "()");
        let x = crate::compose::transform_viewmodel_expression(
            call.as_str(),
            ctx.in_viewmodel_wrapper,
            &ctx.mutable_vars,
            &ctx.derived_props,
            &ctx.function_names,
        );
        let mut out = lit("{ ");
        push_string(&mut out, &x);
        push_lit(&mut out, " }");
        out
    }
}

/// The modifiers of component `comp` under `config` (in order) and the props
/// they handle, or the error of a bad hex background color.
pub fn build_modifiers_for_component(
    comp: &Component,
    config: ModifierConfig,
    ctx: &ExprContext,
) -> (r: Result<(Vec<String>, Vec<String>), String>)
    requires
        modifiers_ok(*comp, config),
        ctx.names_ok(),
    ensures
        match (r, component_modifiers(*comp, config, *ctx)) {
            (Ok((m, h)), Ok((sm, sh))) => strs(m@) == sm && strs(h@) == sh,
            (Err(a), Err(b)) => a@ == b,
            _ => false,
        },
{
    let ps = &comp.props;
    let mut mods: Vec<String> = Vec::new();
    let mut handled: Vec<String> = Vec::new();
    proof {
        assert(strs(mods@) =~= Seq::<Seq<char>>::empty());
        assert(strs(handled@) =~= Seq::<Seq<char>>::empty());
    }
    if config.handle_fill_max || config.handle_size {
        fill_step_exec(ps, &mut mods, &mut handled, "fillMaxSize");
        fill_step_exec(ps, &mut mods, &mut handled, "fillMaxWidth");
        fill_step_exec(ps, &mut mods, &mut handled, "fillMaxHeight");
    }
    if config.handle_size {
        size_step_exec(ps, &mut mods, &mut handled, true);
        size_step_exec(ps, &mut mods, &mut handled, false);
    }
    if config.handle_background {
        match first_named_index(ps, "backgroundColor") {
            Some(i) => {
                let c = crate::compose_imports::get_prop_expr(&ps[i].value);
                match background_color_of(&c) {
                    Ok(x) => {
                        let mut m = lit(".background(");
                        push_string(&mut m, &x);
                        push_lit(&mut m, ")");
                        let ghost m0 = strs(mods@);
                        let ghost h0 = strs(handled@);
                        mods.push(m);
                        handled.push(lit("backgroundColor"));
                        proof {
                            assert(strs(mods@) =~= m0.push(".background("@ + x@ + ")"@));
                            assert(strs(handled@) =~= h0.push("backgroundColor"@));
                        }
                    },
                    Err(e) => {
                        return Err(e);
                    },
                }
            },
            None => {},
        }
    }
    if config.handle_padding {
        padding_step_exec(ps, &mut mods, &mut handled);
    }
    if config.handle_click_as_modifier {
        match first_named_index(ps, "onClick") {
            Some(i) => {
                let v = crate::compose_imports::get_prop_expr(&ps[i].value);
                let handler = click_handler_of(&v, ctx);
                let mut m = lit(".clickable ");
                push_string(&mut m, &handler);
                let ghost m0 = strs(mods@);
                let ghost h0 = strs(handled@);
                mods.push(m);
                handled.push(lit("onClick"));
                proof {
                    assert(strs(mods@) =~= m0.push(".clickable "@ + handler@));
                    assert(strs(handled@) =~= h0.push("onClick"@));
                }
            },
            None => {},
        }
    }
    Ok((mods, handled))
}

// ===================== Props by name and expression =====================

/// The names and expressions of props `ps`, in order: all that the
/// modifiers read of them.
pub open spec fn flat(ps: Seq<ComponentProp>) -> Seq<(Seq<char>, Seq<char>)> {
    ps.map_values(|p: ComponentProp| (p.name@, prop_expr(p.value)))
}

/// Props with the same names and expressions have first props of a name
/// with the same name and expression.
pub proof fn lemma_first_named_flat(a: Seq<ComponentProp>, b: Seq<ComponentProp>, n: Seq<char>)
    requires
        flat(a) == flat(b),
    ensures
        match (first_named(a, n), first_named(b, n)) {
            (Some(x), Some(y)) => x.name@ == y.name@ && prop_expr(x.value) == prop_expr(y.value),
            (None, None) => true,
            _ => false,
        },
    decreases a.len(),
{
    assert(a.len() == flat(a).len() && b.len() == flat(b).len());
    if a.len() > 0 {
        assert(flat(a)[0] == flat(b)[0]);
        assert(flat(a.drop_first()) =~= flat(a).drop_first());
        assert(flat(b.drop_first()) =~= flat(b).drop_first());
        lemma_first_named_flat(a.drop_first(), b.drop_first(), n);
    }
}

proof fn lemma_side_padding_flat(
    a: Seq<ComponentProp>,
    b: Seq<ComponentProp>,
    base: Option<Seq<char>>,
    axis: Seq<char>,
    own: Seq<char>,
)
    requires
        flat(a) == flat(b),
    ensures
        side_padding(a, base, axis, own) == side_padding(b, base, axis, own),
    decreases a.len(),
{
    assert(a.len() == flat(a).len() && b.len() == flat(b).len());
    if a.len() > 0 {
        assert(flat(a)[a.len() - 1] == flat(b)[b.len() - 1]);
        assert(flat(a.drop_last()) =~= flat(a).drop_last());
        assert(flat(b.drop_last()) =~= flat(b).drop_last());
        lemma_side_padding_flat(a.drop_last(), b.drop_last(), base, axis, own);
    }
}

proof fn lemma_has_prop_flat(a: Seq<ComponentProp>, b: Seq<ComponentProp>, n: Seq<char>)
    requires
        flat(a) == flat(b),
    ensures
        has_prop(a, n) == has_prop(b, n),
{
    assert(a.len() == flat(a).len() && b.len() == flat(b).len());
    if has_prop(a, n) {
        let i = choose|i: int| 0 <= i < a.len() && #[trigger] a[i].name@ == n;
        assert(flat(a)[i] == flat(b)[i]);
    }
    if has_prop(b, n) {
        let i = choose|i: int| 0 <= i < b.len() && #[trigger] b[i].name@ == n;
        assert(flat(a)[i] == flat(b)[i]);
    }
}

proof fn lemma_fill_step_flat(
    a: Seq<ComponentProp>,
    b: Seq<ComponentProp>,
    st: (Seq<Seq<char>>, Seq<Seq<char>>),
    name: Seq<char>,
)
    requires
        flat(a) == flat(b),
    ensures
        fill_step(a, st, name) == fill_step(b, st, name),
{
    lemma_first_named_flat(a, b, name);
}

proof fn lemma_size_step_flat(
    a: Seq<ComponentProp>,
    b: Seq<ComponentProp>,
    st: (Seq<Seq<char>>, Seq<Seq<char>>),
    horizontal: bool,
)
    requires
        flat(a) == flat(b),
    ensures
        size_step(a, st, horizontal) == size_step(b, st, horizontal),
{
    lemma_first_named_flat(a, b, "width"@);
    lemma_first_named_flat(a, b, "height"@);
}

proof fn lemma_padding_step_flat(
    a: Seq<ComponentProp>,
    b: Seq<ComponentProp>,
    st: (Seq<Seq<char>>, Seq<Seq<char>>),
)
    requires
        flat(a) == flat(b),
    ensures
        padding_step(a, st) == padding_step(b, st),
{
    lemma_first_named_flat(a, b, "padding"@);
    let base = match first_named(a, "padding"@) {
        Some(p) => Some(prop_expr(p.value)),
        None => None,
    };
    lemma_side_padding_flat(a, b, base, "py"@, "pt"@);
    lemma_side_padding_flat(a, b, base, "py"@, "pb"@);
    lemma_side_padding_flat(a, b, base, "px"@, "pl"@);
    lemma_side_padding_flat(a, b, base, "px"@, "pr"@);
    assert(padding_modifier(a, base) == padding_modifier(b, base));
    lemma_has_prop_flat(a, b, "p"@);
    lemma_has_prop_flat(a, b, "px"@);
    lemma_has_prop_flat(a, b, "py"@);
    lemma_has_prop_flat(a, b, "pt"@);
    lemma_has_prop_flat(a, b, "pb"@);
    lemma_has_prop_flat(a, b, "pl"@);
    lemma_has_prop_flat(a, b, "pr"@);
}

/// Props with the same names and expressions give the same modifiers.
pub proof fn lemma_props_modifiers_flat(
    a: Seq<ComponentProp>,
    b: Seq<ComponentProp>,
    config: ModifierConfig,
    ctx: ExprContext,
)
    requires
        flat(a) == flat(b),
    ensures
        props_modifiers(a, config, ctx) == props_modifiers(b, config, ctx),
{
    let s0 = (Seq::<Seq<char>>::empty(), Seq::<Seq<char>>::empty());
    let f1 = fill_step(a, s0, "fillMaxSize"@);
    let f2 = fill_step(a, f1, "fillMaxWidth"@);
    lemma_fill_step_flat(a, b, s0, "fillMaxSize"@);
    lemma_fill_step_flat(a, b, f1, "fillMaxWidth"@);
    lemma_fill_step_flat(a, b, f2, "fillMaxHeight"@);
    let s1 = if config.handle_fill_max || config.handle_size {
        fill_step(a, f2, "fillMaxHeight"@)
    } else {
        s0
    };
    lemma_size_step_flat(a, b, s1, true);
    lemma_size_step_flat(a, b, size_step(a, s1, true), false);
    lemma_first_named_flat(a, b, "backgroundColor"@);
    lemma_first_named_flat(a, b, "onClick"@);
    let s2 = if config.handle_size {
        size_step(a, size_step(a, s1, true), false)
    } else {
        s1
    };
    let r3 = if config.handle_background {
        match first_named(a, "backgroundColor"@) {
            Some(p) => match background_color(prop_expr(p.value)) {
                Ok(x) => Ok(
                    (s2.0.push(".background("@ + x + ")"@), s2.1.push("backgroundColor"@)),
                ),
                Err(e) => Err(e),
            },
            None => Ok(s2),
        }
    } else {
        Ok(s2)
    };
    match r3 {
        Ok(s3) => {
            lemma_padding_step_flat(a, b, s3);
        },
        Err(_) => {},
    }
}

/// The modifiers built from props with names and expressions `fs`.
pub open spec fn flat_modifiers(
    fs: Seq<(Seq<char>, Seq<char>)>,
    config: ModifierConfig,
    ctx: ExprContext,
) -> Result<(Seq<Seq<char>>, Seq<Seq<char>>), Seq<char>> {
    props_modifiers(choose|ps: Seq<ComponentProp>| flat(ps) == fs, config, ctx)
}

/// The modifiers of props `ps` are those of their names and expressions.
pub proof fn lemma_flat_modifiers(ps: Seq<ComponentProp>, config: ModifierConfig, ctx: ExprContext)
    ensures
        props_modifiers(ps, config, ctx) == flat_modifiers(flat(ps), config, ctx),
{
    let q = choose|q: Seq<ComponentProp>| flat(q) == flat(ps);
    assert(flat(q) == flat(ps));
    lemma_props_modifiers_flat(q, ps, config, ctx);
}

// ===================== Hex colors in modifiers =====================

/// `p` occurs in `t` at `k`, and nowhere in `t` from `i` to before `k`.
pub open spec fn is_first_occurrence(t: Seq<char>, i: int, p: Seq<char>, k: int) -> bool {
    i <= k && occurs_at(t, k, p) && forall|j: int| i <= j < k ==> !occurs_at(t, j, p)
}

/// The first index at or after `i` where `p` occurs in `t`.
pub open spec fn first_occurrence(t: Seq<char>, i: int, p: Seq<char>) -> Option<int> {
    if exists|k: int| is_first_occurrence(t, i, p, k) {
        Some(choose|k: int| is_first_occurrence(t, i, p, k))
    } else {
        None
    }
}

/// The first index at or after `i` where `p` occurs in `t`.
pub(crate) fn find_first(t: &Vec<char>, i: usize, p: &str) -> (r: Option<usize>)
    requires
        i <= t@.len(),
    ensures
        match r {
            Some(k) => first_occurrence(t@, i as int, p@) == Some(k as int) && k + p@.len() <= t@.len(),
            None => first_occurrence(t@, i as int, p@) is None,
        },
{
    let mut j = i;
    while j < t.len()
        invariant
            i <= j <= t@.len(),
            forall|k: int| i <= k < j ==> !occurs_at(t@, k, p@),
        decreases t.len() - j,
    {
        if lit_at(t.as_slice(), j, p) {
            proof {
                assert(is_first_occurrence(t@, i as int, p@, j as int));
                let c = choose|k: int| is_first_occurrence(t@, i as int, p@, k);
                if c < j {
                    assert(!occurs_at(t@, c, p@));
                } else if c > j {
                    assert(!occurs_at(t@, j as int, p@));
                }
            }
            return Some(j);
        }
        j = j + 1;
    }
    if p.unicode_len() == 0 {
        proof {
            assert(t@.subrange(t@.len() as int, t@.len() as int) =~= p@);
            assert(occurs_at(t@, t@.len() as int, p@));
            assert(is_first_occurrence(t@, i as int, p@, t@.len() as int));
            let c = choose|k: int| is_first_occurrence(t@, i as int, p@, k);
            if c < t@.len() {
                assert(!occurs_at(t@, c, p@));
            }
        }
        return Some(t.len());
    }
    proof {
        if exists|k: int| is_first_occurrence(t@, i as int, p@, k) {
            let c = choose|k: int| is_first_occurrence(t@, i as int, p@, k);
            assert(!occurs_at(t@, c, p@));
        }
    }
    None
}

/// Each `.background(<q>#hex<q>)` in `t` (with `pat` the call up to the
/// `#`) turned into `.background(Color(..))`, left to right; an unclosed
/// quote or call ends the rewriting, a bad hex color is the error. The
/// search goes on after each rewrite (a rewrite holds no `pat`, and none can
/// start inside it, as its only `.` comes first and is followed by
/// `background(C`).
pub open spec fn hex_pass(t: Seq<char>, pat: Seq<char>, q: char) -> Result<Seq<char>, Seq<char>>
    decreases t.len(),
{
    match first_occurrence(t, 0, pat) {
        None => Ok(t),
        Some(start) => {
            let hs = start + pat.len();
            match first_occurrence(t, hs, seq![q]) {
                None => Ok(t),
                Some(qe) => match hex_color(t.subrange(hs, qe)) {
                    Err(e) => Err(e),
                    Ok(color) => match first_occurrence(t, qe + 1, seq![')']) {
                        None => Ok(t),
                        Some(pe) => match hex_pass(t.subrange(pe + 1, t.len() as int), pat, q) {
                            Ok(r) => Ok(t.subrange(0, start) + ".background("@ + color + ")"@ + r),
                            Err(e) => Err(e),
                        },
                    },
                },
            }
        },
    }
}

/// A modifier expression with hex colors in `.background("#..")` and
/// `.background('#..')` as `Color(..)`.
pub open spec fn hex_in_modifier(e: Seq<char>) -> Result<Seq<char>, Seq<char>> {
    match hex_pass(e, ".background(\"#"@, '"') {
        Ok(a) => hex_pass(a, ".background('#"@, '\''),
        Err(x) => Err(x),
    }
}

fn hex_pass_exec(t: &Vec<char>, pat: &str, q: &str) -> (r: Result<String, String>)
    requires
        q@.len() == 1,
    ensures
        match (r, hex_pass(t@, pat@, q@[0])) {
            (Ok(a), Ok(b)) => a@ == b,
            (Err(a), Err(b)) => a@ == b,
            _ => false,
        },
    decreases t@.len(),
{
    proof {
        assert(seq![q@[0]] =~= q@);
    }
    let n = t.len();
    match find_first(t, 0, pat) {
        None => Ok(crate::text::string_from_chars(t.as_slice())),
        Some(start) => {
            let plen = pat.unicode_len();
            assert(start + plen <= n);
            let hs = start + plen;
            match find_first(t, hs, q) {
                None => Ok(crate::text::string_from_chars(t.as_slice())),
                Some(qe) => {
                    let hex = crate::text::string_from_range(t.as_slice(), hs, qe);
                    match crate::compose::convert_hex_to_color(hex.as_str()) {
                        Err(e) => Err(e),
                        Ok(color) => {
                            proof {
                                reveal_strlit(")");
                                assert(")"@ =~= seq![')']);
                            }
                            assert(qe + 1 <= n);
                            match find_first(t, qe + 1, ")") {
                                None => Ok(crate::text::string_from_chars(t.as_slice())),
                                Some(pe) => {
                                    let rest = sub_range(t, pe + 1, t.len());
                                    match hex_pass_exec(&rest, pat, q) {
                                        Ok(r) => {
                                            let mut out = crate::text::string_from_range(
                                                t.as_slice(),
                                                0,
                                                start,
                                            );
                                            push_lit(&mut out, ".background(");
                                            push_string(&mut out, &color);
                                            push_lit(&mut out, ")");
                                            push_string(&mut out, &r);
                                            Ok(out)
                                        },
                                        Err(e) => Err(e),
                                    }
                                },
                            }
                        },
                    }
                },
            }
        },
    }
}

/// Turns hex colors in `.background(..)` calls of a modifier expression into
/// `Color(..)`, or gives the error of a bad hex color.
pub fn convert_hex_in_modifier(expr: &str) -> (r: Result<String, String>)
    ensures
        match (r, hex_in_modifier(expr@)) {
            (Ok(a), Ok(b)) => a@ == b,
            (Err(a), Err(b)) => a@ == b,
            _ => false,
        },
{
    proof {
        reveal_strlit("\"");
        reveal_strlit("'");
    }
    let v = str_to_chars(expr);
    match hex_pass_exec(&v, ".background(\"#", "\"") {
        Err(e) => Err(e),
        Ok(a) => {
            let w = str_to_chars(a.as_str());
            hex_pass_exec(&w, ".background('#", "'")
        },
    }
}


// ===================== Laws of the padding shortcuts =====================

/// The padding shortcuts have distinct names.
proof fn lemma_shortcut_names()
    ensures
        "p"@ != "px"@,
        "p"@ != "py"@,
        "p"@ != "pt"@,
        "p"@ != "pb"@,
        "p"@ != "pl"@,
        "p"@ != "pr"@,
        "px"@ != "py"@,
        "px"@ != "pt"@,
        "px"@ != "pb"@,
        "px"@ != "pl"@,
        "px"@ != "pr"@,
        "py"@ != "pt"@,
        "py"@ != "pb"@,
        "py"@ != "pl"@,
        "py"@ != "pr"@,
        "pt"@ != "pb"@,
        "pt"@ != "pl"@,
        "pt"@ != "pr"@,
        "pb"@ != "pl"@,
        "pb"@ != "pr"@,
        "pl"@ != "pr"@,
{
    reveal_strlit("p");
    reveal_strlit("px");
    reveal_strlit("py");
    reveal_strlit("pt");
    reveal_strlit("pb");
    reveal_strlit("pl");
    reveal_strlit("pr");
    assert("p"@.len() == 1);
    assert("px"@.len() == 2 && "py"@.len() == 2 && "pt"@.len() == 2 && "pb"@.len() == 2);
    assert("pl"@.len() == 2 && "pr"@.len() == 2);
    assert("px"@[1] == 'x');
    assert("py"@[1] == 'y');
    assert("pt"@[1] == 't');
    assert("pb"@[1] == 'b');
    assert("pl"@[1] == 'l');
    assert("pr"@[1] == 'r');
}

/// A single padding shortcut with no `padding` prop pads exactly its own
/// side by its value in dp: `pt` the top, `pb` the bottom, `pl` the start,
/// `pr` the end.
pub proof fn law_single_padding_shortcut(p: ComponentProp)
    ensures
        p.name@ == "pt"@ ==> padding_modifier(seq![p], None) == Some(
            ".padding(top = "@ + prop_expr(p.value) + ".dp)"@,
        ),
        p.name@ == "pb"@ ==> padding_modifier(seq![p], None) == Some(
            ".padding(bottom = "@ + prop_expr(p.value) + ".dp)"@,
        ),
        p.name@ == "pl"@ ==> padding_modifier(seq![p], None) == Some(
            ".padding(start = "@ + prop_expr(p.value) + ".dp)"@,
        ),
        p.name@ == "pr"@ ==> padding_modifier(seq![p], None) == Some(
            ".padding(end = "@ + prop_expr(p.value) + ".dp)"@,
        ),
{
    reveal_strlit("p");
    reveal_strlit("px");
    reveal_strlit("py");
    reveal_strlit("pt");
    reveal_strlit("pb");
    reveal_strlit("pl");
    reveal_strlit("pr");
    reveal_strlit(".dp");
    reveal_strlit(".padding(");
    reveal_strlit(")");
    reveal_strlit("top = ");
    reveal_strlit("bottom = ");
    reveal_strlit("start = ");
    reveal_strlit("end = ");
    reveal_strlit(".padding(top = ");
    reveal_strlit(".padding(bottom = ");
    reveal_strlit(".padding(start = ");
    reveal_strlit(".padding(end = ");
    reveal_strlit(".dp)");
    lemma_shortcut_names();
    let ps = seq![p];
    let v = prop_expr(p.value) + ".dp"@;
    assert(ps.drop_last() =~= Seq::<ComponentProp>::empty());
    assert(ps.last() == p);
    assert(side_padding(ps.drop_last(), None, "py"@, "pt"@) is None);
    assert(side_padding(ps.drop_last(), None, "py"@, "pb"@) is None);
    assert(side_padding(ps.drop_last(), None, "px"@, "pl"@) is None);
    assert(side_padding(ps.drop_last(), None, "px"@, "pr"@) is None);
    if p.name@ == "pt"@ {
        assert(side_padding(ps, None, "py"@, "pt"@) == Some((v, 3int)));
        assert(side_padding(ps, None, "py"@, "pb"@) is None);
        assert(side_padding(ps, None, "px"@, "pl"@) is None);
        assert(side_padding(ps, None, "px"@, "pr"@) is None);
        assert(padding_parts(Some(v), None, None, None) =~= seq!["top = "@ + v]);
        assert(".padding("@ + ("top = "@ + v) + ")"@ =~= ".padding(top = "@ + prop_expr(p.value) + ".dp)"@);
    }
    if p.name@ == "pb"@ {
        assert(side_padding(ps, None, "py"@, "pt"@) is None);
        assert(side_padding(ps, None, "py"@, "pb"@) == Some((v, 3int)));
        assert(side_padding(ps, None, "px"@, "pl"@) is None);
        assert(side_padding(ps, None, "px"@, "pr"@) is None);
        assert(padding_parts(None, Some(v), None, None) =~= seq!["bottom = "@ + v]);
        assert(".padding("@ + ("bottom = "@ + v) + ")"@ =~= ".padding(bottom = "@ + prop_expr(p.value)
            + ".dp)"@);
    }
    if p.name@ == "pl"@ {
        assert(side_padding(ps, None, "py"@, "pt"@) is None);
        assert(side_padding(ps, None, "py"@, "pb"@) is None);
        assert(side_padding(ps, None, "px"@, "pl"@) == Some((v, 3int)));
        assert(side_padding(ps, None, "px"@, "pr"@) is None);
        assert(padding_parts(None, None, Some(v), None) =~= seq!["start = "@ + v]);
        assert(".padding("@ + ("start = "@ + v) + ")"@ =~= ".padding(start = "@ + prop_expr(p.value)
            + ".dp)"@);
    }
    if p.name@ == "pr"@ {
        assert(side_padding(ps, None, "py"@, "pt"@) is None);
        assert(side_padding(ps, None, "py"@, "pb"@) is None);
        assert(side_padding(ps, None, "px"@, "pl"@) is None);
        assert(side_padding(ps, None, "px"@, "pr"@) == Some((v, 3int)));
        assert(padding_parts(None, None, None, Some(v)) =~= seq!["end = "@ + v]);
        assert(".padding("@ + ("end = "@ + v) + ")"@ =~= ".padding(end = "@ + prop_expr(p.value) + ".dp)"@);
    }
}

/// The bottom side is set by `pb`, `py` and `p` alone: a later `pt`, `pl`,
/// `pr` or `px` prop leaves it as it was, and a later `pb` sets it to its
/// value whatever came before.
pub proof fn law_bottom_side(ps: Seq<ComponentProp>, base: Option<Seq<char>>, q: ComponentProp)
    ensures
        (q.name@ == "pt"@ || q.name@ == "pl"@ || q.name@ == "pr"@ || q.name@ == "px"@) ==> side_value(
            side_padding(ps.push(q), base, "py"@, "pb"@),
        ) == side_value(side_padding(ps, base, "py"@, "pb"@)),
        q.name@ == "pb"@ ==> side_value(side_padding(ps.push(q), base, "py"@, "pb"@)) == Some(
            prop_expr(q.value) + ".dp"@,
        ),
{
    reveal_strlit("p");
    reveal_strlit("px");
    reveal_strlit("py");
    reveal_strlit("pt");
    reveal_strlit("pb");
    reveal_strlit("pl");
    reveal_strlit("pr");
    lemma_shortcut_names();
    assert(ps.push(q).drop_last() =~= ps);
    assert(ps.push(q).last() == q);
}

} // verus!
