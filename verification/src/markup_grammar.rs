//! The grammar of Whitehall markup, as the parser reads it: what a
//! component, a prop, children, a control-flow directive, a block or the
//! root markup at an index reads, and where it ends. Components, props, text,
//! interpolations, `@if` / `else if` / `else`, `@for` and `@when`; `None`
//! where the parser reports an error.

use vstd::prelude::*;

use crate::ast::{ComponentProp, ElseIfBranch, Markup, PropValue, WhenBranch};
use crate::parser::{
    arrow_end, at_skip, char_at, coll_end, condition_open, directive_at, ident_end,
    markup_text_scan, skip_trivia, statement_end, until_char_end, word_at,
};
use crate::text::{occurs_at, spec_trim, unicode_is_alphabetic};

verus! {

/// Markup as text.
pub enum MarkupView {
    Comp(Seq<char>, Seq<(Seq<char>, PropView)>, Seq<MarkupView>, bool),
    Text(Seq<char>),
    Interp(Seq<char>),
    If(Seq<char>, Seq<MarkupView>, Seq<(Seq<char>, Seq<MarkupView>)>, Option<Seq<MarkupView>>),
    For(
        Option<Seq<char>>,
        Seq<char>,
        Seq<char>,
        Option<Seq<char>>,
        Seq<MarkupView>,
        Option<Seq<MarkupView>>,
    ),
    When(Seq<(Option<Seq<char>>, MarkupView)>),
    Items(Seq<MarkupView>),
}

/// A prop value as text.
pub enum PropView {
    Expr(Seq<char>),
    Mk(Box<MarkupView>),
}

// ===================== Views of parsed markup =====================

pub open spec fn opt_text(o: Option<String>) -> Option<Seq<char>> {
    match o {
        Some(t) => Some(t@),
        None => None,
    }
}

pub open spec fn markup_view(m: Markup) -> MarkupView
    decreases m,
{
    match m {
        Markup::Component(c) => MarkupView::Comp(
            c.name@,
            props_view(c.props@),
            markups_view(c.children@),
            c.self_closing,
        ),
        Markup::Text(t) => MarkupView::Text(t@),
        Markup::Interpolation(e) => MarkupView::Interp(e@),
        Markup::Sequence(items) => MarkupView::Items(markups_view(items@)),
        Markup::IfElse(b) => MarkupView::If(
            b.condition@,
            markups_view(b.then_branch@),
            else_ifs_view(b.else_ifs@),
            match b.else_branch {
                Some(e) => Some(markups_view(e@)),
                None => None,
            },
        ),
        Markup::ForLoop(f) => MarkupView::For(
            opt_text(f.index),
            f.item@,
            f.collection@,
            opt_text(f.key_expr),
            markups_view(f.body@),
            match f.empty_block {
                Some(e) => Some(markups_view(e@)),
                None => None,
            },
        ),
        Markup::When(w) => MarkupView::When(whens_view(w.branches@)),
    }
}

pub open spec fn markups_view(ms: Seq<Markup>) -> Seq<MarkupView>
    decreases ms,
{
    if ms.len() == 0 {
        Seq::empty()
    } else {
        markups_view(ms.drop_last()).push(markup_view(ms.last()))
    }
}

pub open spec fn props_view(ps: Seq<ComponentProp>) -> Seq<(Seq<char>, PropView)>
    decreases ps,
{
    if ps.len() == 0 {
        Seq::empty()
    } else {
        props_view(ps.drop_last()).push(
            (ps.last().name@, prop_view(ps.last().value)),
        )
    }
}

pub open spec fn prop_view(v: PropValue) -> PropView
    decreases v,
{
    match v {
        PropValue::Expression(e) => PropView::Expr(e@),
        PropValue::Markup(b) => PropView::Mk(Box::new(markup_view(*b))),
    }
}

pub open spec fn else_ifs_view(bs: Seq<ElseIfBranch>) -> Seq<(Seq<char>, Seq<MarkupView>)>
    decreases bs,
{
    if bs.len() == 0 {
        Seq::empty()
    } else {
        else_ifs_view(bs.drop_last()).push((bs.last().condition@, markups_view(bs.last().body@)))
    }
}

pub open spec fn whens_view(bs: Seq<WhenBranch>) -> Seq<(Option<Seq<char>>, MarkupView)>
    decreases bs,
{
    if bs.len() == 0 {
        Seq::empty()
    } else {
        whens_view(bs.drop_last()).push((opt_text(bs.last().condition), markup_view(bs.last().body)))
    }
}

/// Text pieces as markup.
pub open spec fn pieces_view(ps: Seq<(bool, Seq<char>)>) -> Seq<MarkupView> {
    ps.map_values(
        |p: (bool, Seq<char>)|
            if p.0 {
                MarkupView::Interp(p.1)
            } else {
                MarkupView::Text(p.1)
            },
    )
}

// ===================== Scans inside props =====================

/// A string value from `i` (after its opening quote) up to its closing
/// quote: its text (escapes kept) and the index after the quote (or the
/// end).
pub open spec fn string_scan(s: Seq<char>, i: int) -> (Seq<char>, int)
    decreases s.len() - i,
{
    if i < 0 || i >= s.len() {
        (Seq::empty(), i)
    } else if s[i] == '"' {
        (Seq::empty(), i + 1)
    } else if s[i] == '\\' {
        if i + 1 < s.len() {
            let r = string_scan(s, i + 2);
            (seq!['\\', s[i + 1]] + r.0, r.1)
        } else {
            (Seq::empty(), i + 1)
        }
    } else {
        let r = string_scan(s, i + 1);
        (seq![s[i]] + r.0, r.1)
    }
}

/// An expression value from `i` at brace depth `d` up to the `}` that
/// closes depth one: its text and the index after that `}` (or the end).
pub open spec fn brace_scan(s: Seq<char>, i: int, d: int) -> (Seq<char>, int)
    decreases s.len() - i,
{
    if i < 0 || i >= s.len() {
        (Seq::empty(), i)
    } else if s[i] == '}' && d == 1 {
        (Seq::empty(), i + 1)
    } else {
        let nd = if s[i] == '{' {
            d + 1
        } else if s[i] == '}' {
            d - 1
        } else {
            d
        };
        let r = brace_scan(s, i + 1, nd);
        (seq![s[i]] + r.0, r.1)
    }
}

// ===================== The grammar =====================

/// The name of a prop at `p` (`name` or `name:part`) and the index after it.
pub open spec fn prop_name(s: Seq<char>, p: int) -> Option<(Seq<char>, int)> {
    let k = ident_end(s, p);
    let k2 = ident_end(s, k + 1);
    if k <= p {
        None
    } else if char_at(s, k) == Some(':') {
        if k2 <= k + 1 {
            None
        } else {
            Some((s.subrange(p, k) + seq![':'] + s.subrange(k + 1, k2), k2))
        }
    } else {
        Some((s.subrange(p, k), k))
    }
}

/// Whether a prop without `=` (boolean, `true`) ends before `c`.
pub open spec fn boolean_before(c: Option<char>) -> bool {
    match c {
        Some(ch) => ch == '>' || ch == '/' || unicode_is_alphabetic(ch),
        None => false,
    }
}

/// A prop at `p`: its name, its value and the index after it.
pub open spec fn prop_at(s: Seq<char>, p: int) -> Option<(Seq<char>, PropView, int)>
    decreases s.len() - p, 0int,
{
    if p < 0 || p > s.len() {
        None
    } else {
        match prop_name(s, p) {
            None => None,
            Some((name, a)) => {
                let q = skip_trivia(s, a);
                let q2 = skip_trivia(s, q + 1);
                let q3 = skip_trivia(s, q2 + 1);
                if boolean_before(char_at(s, q)) && char_at(s, q) != Some('=') {
                    Some((name, PropView::Expr("true"@), q))
                } else if char_at(s, q) != Some('=') {
                    None
                } else if char_at(s, q2) == Some('"') {
                    let r = string_scan(s, q2 + 1);
                    Some((name, PropView::Expr(seq!['"'] + r.0 + seq!['"']), r.1))
                } else if char_at(s, q2) == Some('{') {
                    if char_at(s, q3) == Some('<') {
                        if p < q3 <= s.len() {
                            match component_at(s, q3) {
                                Some((m, e)) => {
                                    let q4 = skip_trivia(s, e);
                                    if char_at(s, q4) == Some('}') {
                                        Some((name, PropView::Mk(Box::new(m)), q4 + 1))
                                    } else {
                                        None
                                    }
                                },
                                None => None,
                            }
                        } else {
                            None
                        }
                    } else {
                        let r = brace_scan(s, q3, 1);
                        Some((name, PropView::Expr(r.0), r.1))
                    }
                } else {
                    None
                }
            },
        }
    }
}

/// The props from `i` up to `>` or `/`, and the index there.
pub open spec fn props_at(s: Seq<char>, i: int) -> Option<(Seq<(Seq<char>, PropView)>, int)>
    decreases s.len() - i, 1int,
{
    if i < 0 || i > s.len() {
        None
    } else if char_at(s, i) == Some('>') || char_at(s, i) == Some('/') {
        Some((Seq::empty(), i))
    } else {
        match prop_at(s, i) {
            Some((n, v, e)) => {
                let i2 = skip_trivia(s, e);
                if i < i2 <= s.len() {
                    match props_at(s, i2) {
                        Some((ps, end)) => Some((seq![(n, v)] + ps, end)),
                        None => None,
                    }
                } else {
                    None
                }
            },
            None => None,
        }
    }
}

/// A component at `p` (`<Name props />` or `<Name props>children</Name>`)
/// and the index after it.
pub open spec fn component_at(s: Seq<char>, p: int) -> Option<(MarkupView, int)>
    decreases s.len() - p, 2int,
{
    let k = ident_end(s, p + 1);
    let name = s.subrange(p + 1, k);
    let q = skip_trivia(s, k);
    if p < 0 || p >= s.len() || char_at(s, p) != Some('<') || k <= p + 1 || !(p < q <= s.len()) {
        None
    } else {
        match props_at(s, q) {
            None => None,
            Some((ps, a)) => if char_at(s, a) == Some('/') {
                if char_at(s, a + 1) == Some('>') {
                    Some((MarkupView::Comp(name, ps, Seq::empty(), true), a + 2))
                } else {
                    None
                }
            } else if p < a + 1 <= s.len() {
                match children_at(s, a + 1, name) {
                    Some((cs, e)) => Some((MarkupView::Comp(name, ps, cs, false), e)),
                    None => None,
                }
            } else {
                None
            },
        }
    }
}

/// The children of `<parent>` from `i`, up to and including `</parent>`,
/// and the index after the closing tag.
pub open spec fn children_at(s: Seq<char>, i: int, parent: Seq<char>) -> Option<
    (Seq<MarkupView>, int),
>
    decreases s.len() - i, 5int,
{
    let q = skip_trivia(s, i);
    if i < 0 || i > s.len() || !(i <= q <= s.len()) {
        None
    } else if char_at(s, q) == Some('<') && char_at(s, q + 1) == Some('/') {
        let k = ident_end(s, q + 2);
        if k > q + 2 && char_at(s, k) == Some('>') && s.subrange(q + 2, k) == parent {
            Some((Seq::empty(), k + 1))
        } else {
            None
        }
    } else if char_at(s, q) is None {
        None
    } else {
        let one: Option<(Seq<MarkupView>, int)> = if char_at(s, q) == Some('@') && directive_at(s, q) {
            match control_at(s, q) {
                Some((m, e)) => Some((seq![m], e)),
                None => None,
            }
        } else if char_at(s, q) == Some('<') {
            match component_at(s, q) {
                Some((m, e)) => Some((seq![m], e)),
                None => None,
            }
        } else {
            match markup_text_scan(s, q, Seq::empty()) {
                Some((ps, e)) => if e > q {
                    Some((pieces_view(ps), e))
                } else {
                    None
                },
                None => None,
            }
        };
        match one {
            Some((ms, e)) => if i < e <= s.len() {
                match children_at(s, e, parent) {
                    Some((rest, end)) => Some((ms + rest, end)),
                    None => None,
                }
            } else {
                None
            },
            None => None,
        }
    }
}

/// A directive at `p` (`@if`, `@for`, `@when`) and the index after it.
pub open spec fn control_at(s: Seq<char>, p: int) -> Option<(MarkupView, int)>
    decreases s.len() - p, 4int,
{
    if p < 0 || p >= s.len() || char_at(s, p) != Some('@') {
        None
    } else if word_at(s, p + 1, "if"@) && p + 3 <= s.len() {
        if_at(s, p + 3)
    } else if word_at(s, p + 1, "for"@) && p + 4 <= s.len() {
        for_at(s, p + 4)
    } else if word_at(s, p + 1, "when"@) && p + 5 <= s.len() {
        when_at(s, p + 5)
    } else {
        None
    }
}

/// The `else if` / `else` branches after an `@if` from `i`: the `else if`
/// branches, the `else` branch and the index after them.
pub open spec fn else_at(s: Seq<char>, i: int) -> Option<
    (Seq<(Seq<char>, Seq<MarkupView>)>, Option<Seq<MarkupView>>, int),
>
    decreases s.len() - i, 3int,
{
    let j = at_skip(s, skip_trivia(s, i));
    let j2 = at_skip(s, skip_trivia(s, j + 4));
    if i < 0 || i > s.len() || !(i <= j <= s.len()) {
        None
    } else if !word_at(s, j, "else"@) {
        Some((Seq::empty(), None, j))
    } else if !(i < j2 <= s.len()) {
        None
    } else if word_at(s, j2, "if"@) {
        match condition_open(s, j2 + 2) {
            Some((c, a)) => if i < a <= s.len() {
                match block_at(s, a) {
                    Some((b, e)) => if i < e <= s.len() {
                        match else_at(s, e) {
                            Some((eis, eb, end)) => Some((seq![(c, b)] + eis, eb, end)),
                            None => None,
                        }
                    } else {
                        None
                    },
                    None => None,
                }
            } else {
                None
            },
            None => None,
        }
    } else if char_at(s, j2) == Some('{') && j2 + 1 <= s.len() {
        match block_at(s, j2 + 1) {
            Some((b, e)) => Some((Seq::empty(), Some(b), e)),
            None => None,
        }
    } else {
        None
    }
}

/// The rest of `@if` from `p` and the index after it.
pub open spec fn if_at(s: Seq<char>, p: int) -> Option<(MarkupView, int)>
    decreases s.len() - p, 3int,
{
    match condition_open(s, p) {
        Some((c, a)) => if p < a <= s.len() {
            match block_at(s, a) {
                Some((tb, b)) => if p < b <= s.len() {
                    match else_at(s, b) {
                        Some((eis, eb, e)) => Some((MarkupView::If(c, tb, eis, eb), e)),
                        None => None,
                    }
                } else {
                    None
                },
                None => None,
            }
        } else {
            None
        },
        None => None,
    }
}

/// The loop variables of `@for` from `q` (after `(`): the index if any, the
/// item and the index after `in`.
pub open spec fn for_head(s: Seq<char>, q: int) -> Option<(Option<Seq<char>>, Seq<char>, int)> {
    let k = ident_end(s, q);
    let q1 = skip_trivia(s, k);
    let q2 = skip_trivia(s, q1 + 1);
    let k2 = ident_end(s, q2);
    let q3 = skip_trivia(s, k2);
    if k <= q {
        None
    } else if char_at(s, q1) == Some(',') {
        if k2 > q2 && word_at(s, q3, "in"@) {
            Some((Some(s.subrange(q, k)), s.subrange(q2, k2), q3 + 2))
        } else {
            None
        }
    } else if word_at(s, q1, "in"@) {
        Some((None, s.subrange(q, k), q1 + 2))
    } else {
        None
    }
}

/// The rest of `@for` from `p` and the index after it.
pub open spec fn for_at(s: Seq<char>, p: int) -> Option<(MarkupView, int)>
    decreases s.len() - p, 3int,
{
    let q = skip_trivia(s, p);
    if p < 0 || p > s.len() || char_at(s, q) != Some('(') {
        None
    } else {
        match for_head(s, q + 1) {
            None => None,
            Some((index, item, a)) => {
                let c0 = skip_trivia(s, a);
                let c1 = coll_end(s, c0);
                let collection = spec_trim(s.subrange(c0, c1));
                let k0 = skip_trivia(s, c1);
                let key: Option<(Option<Seq<char>>, int)> = if char_at(s, k0) == Some(',') {
                    let k1 = skip_trivia(s, k0 + 1);
                    let k2 = skip_trivia(s, k1 + 3);
                    let k3 = skip_trivia(s, k2 + 1);
                    let ke = until_char_end(s, k3 + 1, '}', 0, 0, 0);
                    if word_at(s, k1, "key"@) && char_at(s, k2) == Some('=') && char_at(s, k3)
                        == Some('{') && char_at(s, ke) == Some('}') {
                        Some((Some(spec_trim(s.subrange(k3 + 1, ke))), ke + 1))
                    } else {
                        None
                    }
                } else {
                    Some((None, k0))
                };
                match key {
                    None => None,
                    Some((key_expr, b)) => {
                        let r0 = skip_trivia(s, b);
                        let r1 = skip_trivia(s, r0 + 1);
                        if char_at(s, r0) == Some(')') && char_at(s, r1) == Some('{') && p < r1 + 1
                            <= s.len() {
                            match block_at(s, r1 + 1) {
                                Some((body, e)) => {
                                    let e1 = skip_trivia(s, e);
                                    let e2 = skip_trivia(s, e1 + 5);
                                    if word_at(s, e1, "empty"@) {
                                        if char_at(s, e2) == Some('{') && p < e2 + 1 <= s.len() {
                                            match block_at(s, e2 + 1) {
                                                Some((eb, end)) => Some(
                                                    (
                                                        MarkupView::For(
                                                            index,
                                                            item,
                                                            collection,
                                                            key_expr,
                                                            body,
                                                            Some(eb),
                                                        ),
                                                        end,
                                                    ),
                                                ),
                                                None => None,
                                            }
                                        } else {
                                            None
                                        }
                                    } else {
                                        Some(
                                            (
                                                MarkupView::For(
                                                    index,
                                                    item,
                                                    collection,
                                                    key_expr,
                                                    body,
                                                    None,
                                                ),
                                                e1,
                                            ),
                                        )
                                    }
                                },
                                None => None,
                            }
                        } else {
                            None
                        }
                    },
                }
            },
        }
    }
}

/// The branches of `@when` from `i` up to and including its `}`.
pub open spec fn when_branches_at(s: Seq<char>, i: int) -> Option<
    (Seq<(Option<Seq<char>>, MarkupView)>, int),
>
    decreases s.len() - i, 3int,
{
    let q = skip_trivia(s, i);
    let is_else = word_at(s, q, "else"@);
    let a = if is_else {
        q + 4
    } else {
        arrow_end(s, q)
    };
    let cond = if is_else {
        None
    } else {
        Some(spec_trim(s.subrange(q, a)))
    };
    let q2 = skip_trivia(s, a);
    let q3 = skip_trivia(s, q2 + 2);
    if i < 0 || i > s.len() {
        None
    } else if char_at(s, q) == Some('}') {
        Some((Seq::empty(), q + 1))
    } else if char_at(s, q2) == Some('-') && char_at(s, q2 + 1) == Some('>') && char_at(s, q3)
        == Some('<') && i < q3 <= s.len() {
        match component_at(s, q3) {
            Some((m, e)) => if i < e <= s.len() {
                match when_branches_at(s, e) {
                    Some((bs, end)) => Some((seq![(cond, m)] + bs, end)),
                    None => None,
                }
            } else {
                None
            },
            None => None,
        }
    } else {
        None
    }
}

/// The rest of `@when` from `p` and the index after it.
pub open spec fn when_at(s: Seq<char>, p: int) -> Option<(MarkupView, int)>
    decreases s.len() - p, 4int,
{
    let q = skip_trivia(s, p);
    if p < 0 || p > s.len() || char_at(s, q) != Some('{') || !(p < q + 1 <= s.len()) {
        None
    } else {
        match when_branches_at(s, q + 1) {
            Some((bs, e)) => Some((MarkupView::When(bs), e)),
            None => None,
        }
    }
}

/// A block from `i` up to and including its closing `}` (its `val`/`var`
/// lines skipped): its markup and the index after the `}`.
pub open spec fn block_at(s: Seq<char>, i: int) -> Option<(Seq<MarkupView>, int)>
    decreases s.len() - i, 5int,
{
    let q = skip_trivia(s, i);
    if i < 0 || i > s.len() || !(i <= q <= s.len()) {
        None
    } else if char_at(s, q) == Some('}') {
        Some((Seq::empty(), q + 1))
    } else if char_at(s, q) is None {
        None
    } else {
        let one: Option<(Seq<MarkupView>, int)> = if occurs_at(s, q, "val "@) || occurs_at(
            s,
            q,
            "var "@,
        ) {
            let e = statement_end(s, q);
            Some((Seq::empty(), if e < s.len() && s[e] == ';' {
                e + 1
            } else {
                e
            }))
        } else if char_at(s, q) == Some('@') {
            match control_at(s, q) {
                Some((m, e)) => Some((seq![m], e)),
                None => None,
            }
        } else if char_at(s, q) == Some('<') {
            match component_at(s, q) {
                Some((m, e)) => Some((seq![m], e)),
                None => None,
            }
        } else {
            match markup_text_scan(s, q, Seq::empty()) {
                Some((ps, e)) => if e > q {
                    Some((pieces_view(ps), e))
                } else {
                    None
                },
                None => None,
            }
        };
        match one {
            Some((ms, e)) => if i < e <= s.len() {
                match block_at(s, e) {
                    Some((rest, end)) => Some((ms + rest, end)),
                    None => None,
                }
            } else {
                None
            },
            None => None,
        }
    }
}

/// The components from `i` while `<` follows (each after white space):
/// their markup and the index after the last.
pub open spec fn roots_at(s: Seq<char>, i: int) -> Option<(Seq<MarkupView>, int)>
    decreases s.len() - i,
{
    let q = skip_trivia(s, i);
    if i < 0 || i > s.len() {
        None
    } else if char_at(s, i) != Some('<') {
        Some((Seq::empty(), i))
    } else {
        match component_at(s, i) {
            Some((m, e)) => {
                let e2 = skip_trivia(s, e);
                if i < e2 <= s.len() {
                    match roots_at(s, e2) {
                        Some((ms, end)) => Some((seq![m] + ms, end)),
                        None => None,
                    }
                } else {
                    None
                }
            },
            None => None,
        }
    }
}

/// The root markup from `p`: one component, or several wrapped in a
/// `Column`; and the index after it.
pub open spec fn root_markup_at(s: Seq<char>, p: int) -> Option<(MarkupView, int)> {
    let q = skip_trivia(s, p);
    if char_at(s, q) != Some('<') {
        None
    } else {
        match component_at(s, q) {
            Some((m, e)) => {
                let e2 = skip_trivia(s, e);
                if char_at(s, e2) == Some('<') {
                    match roots_at(s, e2) {
                        Some((ms, end)) => Some(
                            (MarkupView::Comp("Column"@, Seq::empty(), seq![m] + ms, false), end),
                        ),
                        None => None,
                    }
                } else {
                    Some((m, e2))
                }
            },
            None => None,
        }
    }
}


// ===================== Facts about the views =====================

/// Props before the props of a scan.
pub open spec fn after_props(
    pre: Seq<(Seq<char>, PropView)>,
    o: Option<(Seq<(Seq<char>, PropView)>, int)>,
) -> Option<(Seq<(Seq<char>, PropView)>, int)> {
    match o {
        Some((ps, e)) => Some((pre + ps, e)),
        None => None,
    }
}

/// The view of an optional block.
pub open spec fn opt_markups_view(o: Option<Vec<Markup>>) -> Option<Seq<MarkupView>> {
    match o {
        Some(e) => Some(markups_view(e@)),
        None => None,
    }
}

/// `else if` branches before the branches of a scan.
pub open spec fn after_elses(
    pre: Seq<(Seq<char>, Seq<MarkupView>)>,
    o: Option<(Seq<(Seq<char>, Seq<MarkupView>)>, Option<Seq<MarkupView>>, int)>,
) -> Option<(Seq<(Seq<char>, Seq<MarkupView>)>, Option<Seq<MarkupView>>, int)> {
    match o {
        Some((eis, eb, e)) => Some((pre + eis, eb, e)),
        None => None,
    }
}

/// `@when` branches before the branches of a scan.
pub open spec fn after_whens(
    pre: Seq<(Option<Seq<char>>, MarkupView)>,
    o: Option<(Seq<(Option<Seq<char>>, MarkupView)>, int)>,
) -> Option<(Seq<(Option<Seq<char>>, MarkupView)>, int)> {
    match o {
        Some((bs, e)) => Some((pre + bs, e)),
        None => None,
    }
}

/// Markup before the markup of a scan.
pub open spec fn after_markups(pre: Seq<MarkupView>, o: Option<(Seq<MarkupView>, int)>) -> Option<
    (Seq<MarkupView>, int),
> {
    match o {
        Some((ms, e)) => Some((pre + ms, e)),
        None => None,
    }
}

/// Markup before markup before a scan.
pub proof fn lemma_after_markups(
    a: Seq<MarkupView>,
    b: Seq<MarkupView>,
    o: Option<(Seq<MarkupView>, int)>,
)
    ensures
        after_markups(a, after_markups(b, o)) == after_markups(a + b, o),
{
    if let Some((ms, e)) = o {
        assert(a + (b + ms) =~= (a + b) + ms);
    }
}

/// Every item of `v` is text or an interpolation.
pub open spec fn text_only(v: Seq<Markup>) -> bool {
    forall|i: int| 0 <= i < v.len() ==> (#[trigger] v[i] is Text || v[i] is Interpolation)
}

/// The view of markup items, item by item.
pub proof fn lemma_markups_view_index(v: Seq<Markup>)
    ensures
        markups_view(v).len() == v.len(),
        forall|i: int| 0 <= i < v.len() ==> #[trigger] markups_view(v)[i] == markup_view(v[i]),
    decreases v.len(),
{
    if v.len() > 0 {
        lemma_markups_view_index(v.drop_last());
        assert forall|i: int| 0 <= i < v.len() implies #[trigger] markups_view(v)[i] == markup_view(
            v[i],
        ) by {
            if i < v.len() - 1 {
                assert(v.drop_last()[i] == v[i]);
            }
        }
    }
}

/// The view of items joined is the views joined.
pub proof fn lemma_markups_view_concat(a: Seq<Markup>, b: Seq<Markup>)
    ensures
        markups_view(a + b) == markups_view(a) + markups_view(b),
{
    lemma_markups_view_index(a);
    lemma_markups_view_index(b);
    lemma_markups_view_index(a + b);
    assert forall|i: int| 0 <= i < (a + b).len() implies #[trigger] markups_view(a + b)[i] == (
    markups_view(a) + markups_view(b))[i] by {
        if i < a.len() {
            assert((a + b)[i] == a[i]);
        } else {
            assert((a + b)[i] == b[i - a.len()]);
        }
    }
    assert(markups_view(a + b) =~= markups_view(a) + markups_view(b));
}

/// Text items viewed as pieces.
pub proof fn lemma_text_view(v: Seq<Markup>)
    requires
        text_only(v),
    ensures
        markups_view(v) == pieces_view(crate::parser::pieces(v)),
{
    lemma_markups_view_index(v);
    assert forall|i: int| 0 <= i < v.len() implies #[trigger] markups_view(v)[i] == pieces_view(
        crate::parser::pieces(v),
    )[i] by {
        assert(v[i] is Text || v[i] is Interpolation);
    }
    assert(markups_view(v) =~= pieces_view(crate::parser::pieces(v)));
}

} // verus!
