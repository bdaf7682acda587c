//! The Kotlin string expression for the text children of a component, and
//! the indentation of multi-line values.

use vstd::prelude::*;

use crate::ast::Markup;
use crate::compose::{
    add_null_assertions, escape_dollar_signs, null_asserted, replace_all, replaced,
    string_resource, ternary_if_else, transform_string_resource, transform_ternary_to_if_else,
    transform_viewmodel_expression, update_name_ok, viewmodel_expression,
};
use crate::compose_imports::strs;
use crate::text::{
    is_whitespace, lit, push_lit, push_string, seq_contains, skip_ws_from, spec_is_whitespace, spec_trim,
    str_contains, str_to_chars, trim_str,
};

verus! {

/// What an expression in markup is rewritten against: the nullable
/// variables, and (inside the ViewModel wrapper) the component's mutable
/// state, derived properties and functions.
pub struct ExprContext {
    pub nullable_vars: Vec<String>,
    pub in_viewmodel_wrapper: bool,
    pub mutable_vars: Vec<String>,
    pub derived_props: Vec<String>,
    pub function_names: Vec<String>,
}

impl ExprContext {
    /// Inside the ViewModel wrapper, every mutable variable has a name fit
    /// for an update method.
    pub open spec fn names_ok(&self) -> bool {
        self.in_viewmodel_wrapper ==> forall|i: int|
            0 <= i < self.mutable_vars@.len() ==> update_name_ok(#[trigger] self.mutable_vars@[i]@)
    }
}

/// An interpolation in text, rewritten: screen parameters read directly,
/// string resources, ternaries as `if`, ViewModel references, then `!!` on
/// nullable variables.
pub open spec fn text_interpolation(e: Seq<char>, ctx: ExprContext) -> Seq<char> {
    null_asserted(
        viewmodel_expression(
            ternary_if_else(string_resource(replaced(e, "$screen.params."@, Seq::empty()))),
            ctx.in_viewmodel_wrapper,
            ctx.mutable_vars@.map_values(|x: String| x@),
            ctx.derived_props@.map_values(|x: String| x@),
            ctx.function_names@.map_values(|x: String| x@),
        ),
        ctx.nullable_vars@.map_values(|s: String| s@),
    )
}

/// Text as written, trimmed only when it spans lines.
pub open spec fn cleaned_text(t: Seq<char>) -> Seq<char> {
    if seq_contains(t, "\n"@) {
        spec_trim(t)
    } else {
        t
    }
}

/// Whether `m` is text of white space only.
pub open spec fn is_blank_text(m: Markup) -> bool {
    match m {
        Markup::Text(t) => spec_trim(t@).len() == 0,
        _ => false,
    }
}

/// The children that are not blank text, in order.
pub open spec fn non_blank(ms: Seq<Markup>) -> Seq<Markup>
    decreases ms.len(),
{
    if ms.len() == 0 {
        Seq::empty()
    } else {
        non_blank(ms.drop_last()) + if is_blank_text(ms.last()) {
            Seq::empty()
        } else {
            seq![ms.last()]
        }
    }
}

/// The inside of a string template for `ms`: text with `$` escaped and
/// `${..}` for each interpolation; nothing for any other child.
pub open spec fn template_parts(ms: Seq<Markup>, ctx: ExprContext) -> Option<Seq<char>>
    decreases ms.len(),
{
    if ms.len() == 0 {
        Some(Seq::empty())
    } else {
        match template_parts(ms.drop_last(), ctx) {
            None => None,
            Some(p) => match ms.last() {
                Markup::Text(t) => Some(p + replaced(cleaned_text(t@), "$"@, "\\$"@)),
                Markup::Interpolation(e) => Some(p + "${"@ + text_interpolation(e@, ctx) + "}"@),
                _ => None,
            },
        }
    }
}

/// The Kotlin string for the text children `children`: a literal for one
/// text, a template for one interpolation, else a template of all parts; an
/// error for a child that is neither.
pub open spec fn text_expression(children: Seq<Markup>, ctx: ExprContext) -> Result<
    Seq<char>,
    Seq<char>,
> {
    let nw = non_blank(children);
    if children.len() == 0 {
        Ok("\"\""@)
    } else if nw.len() == 1 && nw[0] is Text {
        Ok("\""@ + cleaned_text(nw[0]->Text_0@) + "\""@)
    } else if nw.len() == 1 && nw[0] is Interpolation {
        Ok("\"${"@ + text_interpolation(nw[0]->Interpolation_0@, ctx) + "}\""@)
    } else {
        match template_parts(nw, ctx) {
            Some(p) => Ok("\""@ + p + "\""@),
            None => Err("Unexpected child in text"@),
        }
    }
}

/// Rewrites an interpolation in text.
fn interpolation_code(expr: &String, ctx: &ExprContext) -> (r: String)
    requires
        ctx.names_ok(),
    ensures
        r@ == text_interpolation(expr@, *ctx),
{
    proof {
        reveal_strlit("$screen.params.");
    }
    let e1 = replace_all(expr.as_str(), "$screen.params.", "");
    proof {
        assert(""@ =~= Seq::<char>::empty()) by {
            reveal_strlit("");
        }
    }
    let e2 = transform_string_resource(e1.as_str());
    let e3 = transform_ternary_to_if_else(e2.as_str());
    let e4 = transform_viewmodel_expression(
        e3.as_str(),
        ctx.in_viewmodel_wrapper,
        &ctx.mutable_vars,
        &ctx.derived_props,
        &ctx.function_names,
    );
    add_null_assertions(e4.as_str(), &ctx.nullable_vars)
}

/// `t` trimmed when it spans lines.
fn cleaned(t: &String) -> (r: String)
    ensures
        r@ == cleaned_text(t@),
{
    if str_contains(t.as_str(), "\n") {
        trim_str(t.as_str())
    } else {
        lit(t.as_str())
    }
}

fn blank_text(m: &Markup) -> (r: bool)
    ensures
        r == is_blank_text(*m),
{
    match m {
        Markup::Text(t) => str_to_chars(trim_str(t.as_str()).as_str()).len() == 0,
        _ => false,
    }
}

/// The Kotlin string for the text children of a component.
pub fn build_text_expression(children: &Vec<Markup>, ctx: &ExprContext) -> (r: Result<String, String>)
    requires
        ctx.names_ok(),
    ensures
        match (r, text_expression(children@, *ctx)) {
            (Ok(a), Ok(b)) => a@ == b,
            (Err(a), Err(b)) => a@ == b,
            _ => false,
        },
{
    if children.len() == 0 {
        return Ok(lit("\"\""));
    }
    let ghost ms = children@;
    // Count the non-blank children and remember the last one.
    let mut count: usize = 0;
    let mut last: usize = 0;
    let mut i: usize = 0;
    proof {
        assert(ms.take(0) =~= Seq::<Markup>::empty());
    }
    while i < children.len()
        invariant
            i <= ms.len(),
            ms == children@,
            count == non_blank(ms.take(i as int)).len(),
            count <= i,
            count > 0 ==> last < i && non_blank(ms.take(i as int)).last() == ms[last as int],
        decreases children.len() - i,
    {
        proof {
            assert(ms.take(i + 1).drop_last() =~= ms.take(i as int));
            assert(ms.take(i + 1).last() == ms[i as int]);
        }
        if !blank_text(&children[i]) {
            count = count + 1;
            last = i;
        }
        i = i + 1;
    }
    proof {
        assert(ms.take(ms.len() as int) =~= ms);
    }
    if count == 1 {
        proof {
            assert(non_blank(ms)[0] == non_blank(ms).last());
        }
        match &children[last] {
            Markup::Text(t) => {
                let mut out = lit("\"");
                let c = cleaned(t);
                push_string(&mut out, &c);
                push_lit(&mut out, "\"");
                return Ok(out);
            },
            Markup::Interpolation(e) => {
                let mut out = lit("\"${");
                let x = interpolation_code(e, ctx);
                push_string(&mut out, &x);
                push_lit(&mut out, "}\"");
                return Ok(out);
            },
            _ => {},
        }
    }
    let mut parts = String::new();
    i = 0;
    proof {
        assert(ms.take(0) =~= Seq::<Markup>::empty());
    }
    while i < children.len()
        invariant
            i <= ms.len(),
            ms == children@,
            ctx.names_ok(),
            ms.len() > 0,
            non_blank(ms).len() == 1 ==> !(non_blank(ms)[0] is Text || non_blank(ms)[0] is Interpolation),
            template_parts(non_blank(ms.take(i as int)), *ctx) == Some(parts@),
        decreases children.len() - i,
    {
        let child = &children[i];
        let ghost nb = non_blank(ms.take(i as int));
        proof {
            assert(ms.take(i + 1).drop_last() =~= ms.take(i as int));
            assert(ms.take(i + 1).last() == *child);
        }
        if !blank_text(child) {
            proof {
                assert((nb + seq![*child]).drop_last() =~= nb);
            }
            match child {
                Markup::Text(t) => {
                    let c = cleaned(t);
                    let escaped = escape_dollar_signs(c.as_str());
                    push_string(&mut parts, &escaped);
                },
                Markup::Interpolation(e) => {
                    push_lit(&mut parts, "${");
                    let x = interpolation_code(e, ctx);
                    push_string(&mut parts, &x);
                    push_lit(&mut parts, "}");
                },
                _ => {
                    proof {
                        lemma_template_parts_none(ms, i as int + 1, *ctx);
                    }
                    return Err(lit("Unexpected child in text"));
                },
            }
        } else {
            proof {
                assert(nb + Seq::<Markup>::empty() =~= nb);
            }
        }
        i = i + 1;
    }
    proof {
        assert(ms.take(ms.len() as int) =~= ms);
    }
    let mut out = lit("\"");
    push_string(&mut out, &parts);
    push_lit(&mut out, "\"");
    Ok(out)
}

/// Once the parts of a prefix fail, those of the whole fail.
proof fn lemma_template_parts_none(ms: Seq<Markup>, k: int, ctx: ExprContext)
    requires
        0 <= k <= ms.len(),
        template_parts(non_blank(ms.take(k)), ctx) is None,
    ensures
        template_parts(non_blank(ms), ctx) is None,
    decreases ms.len() - k,
{
    if k < ms.len() {
        assert(ms.take(k + 1).drop_last() =~= ms.take(k));
        let nb = non_blank(ms.take(k));
        if !is_blank_text(ms[k]) {
            assert((nb + seq![ms[k]]).drop_last() =~= nb);
        } else {
            assert(nb + Seq::<Markup>::empty() =~= nb);
        }
        lemma_template_parts_none(ms, k + 1, ctx);
    } else {
        assert(ms.take(k) =~= ms);
    }
}

// ===================== Lines and indentation =====================

/// A line without the `\r` of a `\r\n` ending.
pub open spec fn strip_cr(l: Seq<char>) -> Seq<char> {
    if l.len() > 0 && l.last() == '\r' {
        l.drop_last()
    } else {
        l
    }
}

/// The lines of `s` (as `str::lines`), scanning at `i` in the line that
/// starts at `start`.
pub open spec fn lines_from(s: Seq<char>, i: int, start: int) -> Seq<Seq<char>>
    decreases s.len() - i,
{
    if i >= s.len() {
        if start < s.len() {
            seq![s.subrange(start, s.len() as int)]
        } else {
            Seq::empty()
        }
    } else if s[i] == '\n' {
        seq![strip_cr(s.subrange(start, i))] + lines_from(s, i + 1, i + 1)
    } else {
        lines_from(s, i + 1, start)
    }
}

/// The lines of `s`, as `str::lines` gives them: split at `\n` (and
/// `\r\n`), with no line after a final line break.
pub open spec fn lines_of(s: Seq<char>) -> Seq<Seq<char>> {
    lines_from(s, 0, 0)
}

/// The lines of `s`, as `str::lines` gives them.
pub fn str_lines(s: &str) -> (r: Vec<String>)
    ensures
        strs(r@) == lines_of(s@),
{
    let v = str_to_chars(s);
    let mut out: Vec<String> = Vec::new();
    let mut i: usize = 0;
    let mut start: usize = 0;
    proof {
        assert(strs(out@) =~= Seq::<Seq<char>>::empty());
        assert(Seq::<Seq<char>>::empty() + lines_from(s@, 0, 0) =~= lines_of(s@));
    }
    while i < v.len()
        invariant
            start <= i <= v@.len(),
            v@ == s@,
            strs(out@) + lines_from(s@, i as int, start as int) == lines_of(s@),
        decreases v.len() - i,
    {
        if v[i] == '\n' {
            let ghost before = strs(out@);
            let mut e = i;
            if e > start && v[e - 1] == '\r' {
                e = e - 1;
            }
            out.push(crate::text::string_from_range(v.as_slice(), start, e));
            proof {
                assert(v@.subrange(start as int, e as int) == strip_cr(v@.subrange(start as int, i as int)));
                assert(strs(out@) =~= before.push(strip_cr(s@.subrange(start as int, i as int))));
                assert(before + (seq![strip_cr(s@.subrange(start as int, i as int))] + lines_from(
                    s@,
                    i + 1,
                    i + 1,
                )) =~= strs(out@) + lines_from(s@, i + 1, i + 1));
            }
            start = i + 1;
        }
        i = i + 1;
    }
    if start < v.len() {
        let ghost before = strs(out@);
        out.push(crate::text::string_from_range(v.as_slice(), start, v.len()));
        proof {
            assert(strs(out@) =~= before + seq![s@.subrange(start as int, s@.len() as int)]);
        }
    } else {
        proof {
            assert(strs(out@) + Seq::<Seq<char>>::empty() =~= strs(out@));
        }
    }
    out
}

/// `n` levels of indentation.
pub(crate) fn indent_string(n: usize) -> (r: String)
    ensures
        r@ == crate::view::indent_text(n as int),
{
    let mut r = String::new();
    let mut i: usize = 0;
    while i < n
        invariant
            i <= n,
            r@ == crate::view::indent_text(i as int),
        decreases n - i,
    {
        push_lit(&mut r, "    ");
        i = i + 1;
    }
    r
}

/// The lines of `ls` from index `i` on, each trimmed after `ind` and four
/// more spaces, separated by line breaks.
pub open spec fn continuation_from(ls: Seq<Seq<char>>, i: int, ind: Seq<char>) -> Seq<char>
    decreases ls.len() - i,
{
    if i < 0 || i >= ls.len() {
        Seq::empty()
    } else {
        ind + "    "@ + spec_trim(ls[i]) + (if i < ls.len() - 1 {
            "\n"@
        } else {
            Seq::empty()
        }) + continuation_from(ls, i + 1, ind)
    }
}

/// A multi-line value laid out under indentation `level`: the first line
/// as it is, each following line trimmed and indented one step more.
pub open spec fn multiline_value(v: Seq<char>, level: int) -> Seq<char> {
    let ls = lines_of(v);
    if !seq_contains(v, "\n"@) || ls.len() <= 1 {
        v
    } else {
        ls[0] + "\n"@ + continuation_from(ls, 1, crate::view::indent_text(level))
    }
}

/// Lays out a multi-line value under indentation `indent_level`.
pub fn format_multiline_value(value: &str, indent_level: usize) -> (r: String)
    ensures
        r@ == multiline_value(value@, indent_level as int),
{
    if !str_contains(value, "\n") {
        return lit(value);
    }
    let ls = str_lines(value);
    if ls.len() <= 1 {
        return lit(value);
    }
    let ind = indent_string(indent_level);
    let ghost l = strs(ls@);
    let mut out = lit(ls[0].as_str());
    push_lit(&mut out, "\n");
    let ghost head = out@;
    let mut i: usize = 1;
    while i < ls.len()
        invariant
            1 <= i <= ls@.len(),
            l == strs(ls@),
            head + continuation_from(l, 1, ind@) == out@ + continuation_from(l, i as int, ind@),
        decreases ls.len() - i,
    {
        let ghost before = out@;
        push_string(&mut out, &ind);
        push_lit(&mut out, "    ");
        let t = trim_str(ls[i].as_str());
        push_string(&mut out, &t);
        if i < ls.len() - 1 {
            push_lit(&mut out, "\n");
        }
        proof {
            let piece = ind@ + "    "@ + spec_trim(l[i as int]) + (if i < l.len() - 1 {
                "\n"@
            } else {
                Seq::<char>::empty()
            });
            assert(out@ =~= before + piece);
            assert(before + (piece + continuation_from(l, i + 1, ind@)) =~= out@ + continuation_from(
                l,
                i + 1,
                ind@,
            ));
        }
        i = i + 1;
    }
    proof {
        assert(out@ + continuation_from(l, i as int, ind@) =~= out@);
    }
    out
}

/// The number of bytes of `c` in UTF-8 (`char::len_utf8`).
pub open spec fn utf8_len(c: char) -> nat {
    if (c as u32) < 0x80 {
        1
    } else if (c as u32) < 0x800 {
        2
    } else if (c as u32) < 0x10000 {
        3
    } else {
        4
    }
}

/// The bytes of white space at the start of `l` from index `i` on.
pub open spec fn lead_bytes_from(l: Seq<char>, i: int) -> nat
    decreases l.len() - i,
{
    if 0 <= i < l.len() && spec_is_whitespace(l[i]) {
        utf8_len(l[i]) + lead_bytes_from(l, i + 1)
    } else {
        0
    }
}

/// How far line `l` is indented, in bytes (`l.len() - l.trim_start().len()`).
pub open spec fn lead_bytes(l: Seq<char>) -> nat {
    lead_bytes_from(l, 0)
}

/// `l` without leading white space.
pub open spec fn trim_start(l: Seq<char>) -> Seq<char> {
    l.subrange(skip_ws_from(l, 0, l.len() as int), l.len() as int)
}

/// The least indentation of the nonblank lines of `ls` from index `i` on.
pub open spec fn min_lead_from(ls: Seq<Seq<char>>, i: int) -> Option<nat>
    decreases ls.len() - i,
{
    if i < 0 || i >= ls.len() {
        None
    } else {
        let rest = min_lead_from(ls, i + 1);
        if spec_trim(ls[i]).len() == 0 {
            rest
        } else {
            match rest {
                Some(m) if m < lead_bytes(ls[i]) => Some(m),
                _ => Some(lead_bytes(ls[i])),
            }
        }
    }
}

/// The least indentation of the nonblank lines after the first (0 if none).
pub open spec fn min_lead(ls: Seq<Seq<char>>) -> nat {
    match min_lead_from(ls, 1) {
        Some(m) => m,
        None => 0,
    }
}

/// Line `i` of `ls` re-indented: blank lines empty, the first trimmed, the
/// others indented four spaces per level (the current one, plus one per two
/// bytes of indentation beyond `min`).
pub open spec fn reindented_line(ls: Seq<Seq<char>>, i: int, level: nat, min: nat) -> Seq<char> {
    let l = ls[i];
    if spec_trim(l).len() == 0 {
        Seq::empty()
    } else if i == 0 {
        spec_trim(l)
    } else {
        let rel = (if lead_bytes(l) >= min {
            lead_bytes(l) - min
        } else {
            0
        }) / 2;
        Seq::new(((level + rel) * 4) as nat, |j: int| ' ') + trim_start(l)
    }
}

/// The re-indented lines of `ls` from index `i` on, joined by line breaks.
pub open spec fn reindented_from(ls: Seq<Seq<char>>, i: int, level: nat, min: nat) -> Seq<char>
    decreases ls.len() - i,
{
    if i < 0 || i >= ls.len() {
        Seq::empty()
    } else {
        (if i > 0 {
            "\n"@
        } else {
            Seq::empty()
        }) + reindented_line(ls, i, level, min) + reindented_from(ls, i + 1, level, min)
    }
}

/// A multi-line expression re-indented to `level`, keeping the relative
/// indentation of its lines (two source spaces per level).
pub open spec fn reindented(e: Seq<char>, level: nat) -> Seq<char> {
    let ls = lines_of(e);
    if ls.len() == 0 {
        e
    } else {
        reindented_from(ls, 0, level, min_lead(ls))
    }
}

proof fn lemma_lead_bytes_bound(l: Seq<char>, i: int)
    requires
        0 <= i <= l.len(),
    ensures
        lead_bytes_from(l, i) <= 4 * (l.len() - i),
    decreases l.len() - i,
{
    if i < l.len() && spec_is_whitespace(l[i]) {
        lemma_lead_bytes_bound(l, i + 1);
    }
}

pub(crate) proof fn lemma_lines_shorter(s: Seq<char>, i: int, start: int, k: int)
    requires
        0 <= start <= i <= s.len(),
        0 <= k < lines_from(s, i, start).len(),
    ensures
        lines_from(s, i, start)[k].len() <= s.len(),
    decreases s.len() - i,
{
    if i < s.len() {
        if s[i] == '\n' {
            if k > 0 {
                lemma_lines_shorter(s, i + 1, i + 1, k - 1);
            }
        } else {
            lemma_lines_shorter(s, i + 1, start, k);
        }
    }
}

/// The bytes of white space at the start of `l`.
pub(crate) fn line_lead_bytes(l: &Vec<char>) -> (r: usize)
    requires
        4 * l@.len() <= usize::MAX,
    ensures
        r == lead_bytes(l@),
{
    let mut i: usize = 0;
    let mut n: usize = 0;
    while i < l.len() && is_whitespace(l[i])
        invariant
            i <= l@.len(),
            4 * l@.len() <= usize::MAX,
            n + lead_bytes_from(l@, i as int) == lead_bytes(l@),
            n <= 4 * i,
        decreases l.len() - i,
    {
        let c = l[i];
        let b: usize = if (c as u32) < 0x80 {
            1
        } else if (c as u32) < 0x800 {
            2
        } else if (c as u32) < 0x10000 {
            3
        } else {
            4
        };
        n = n + b;
        i = i + 1;
    }
    n
}

/// `n` spaces.
pub(crate) fn spaces(n: usize) -> (r: String)
    ensures
        r@ == Seq::new(n as nat, |j: int| ' '),
{
    let mut r = String::new();
    let mut i: usize = 0;
    while i < n
        invariant
            i <= n,
            r@ == Seq::new(i as nat, |j: int| ' '),
        decreases n - i,
    {
        crate::text::push_char(&mut r, ' ');
        i = i + 1;
        assert(r@ =~= Seq::new(i as nat, |j: int| ' '));
    }
    r
}

/// Re-indents a multi-line expression to `indent_level`, keeping the
/// relative indentation of its lines.
pub fn reindent_expression(expr: &str, indent_level: usize) -> (r: String)
    requires
        (indent_level + 4 * expr@.len()) * 4 <= usize::MAX,
    ensures
        r@ == reindented(expr@, indent_level as nat),
{
    let ls = str_lines(expr);
    if ls.len() == 0 {
        return lit(expr);
    }
    let ghost l = strs(ls@);
    // The least indentation of the nonblank lines after the first.
    let mut min: Option<usize> = None;
    let mut i: usize = ls.len();
    while i > 1
        invariant
            1 <= i <= ls@.len(),
            l == strs(ls@),
            l == lines_of(expr@),
            (indent_level + 4 * expr@.len()) * 4 <= usize::MAX,
            match min {
                Some(m) => min_lead_from(l, i as int) == Some(m as nat),
                None => min_lead_from(l, i as int) is None,
            },
        decreases i,
    {
        i = i - 1;
        let v = str_to_chars(ls[i].as_str());
        proof {
            lemma_lines_shorter(expr@, 0, 0, i as int);
        }
        let blank = str_to_chars(trim_str(ls[i].as_str()).as_str()).len() == 0;
        if !blank {
            let lead = line_lead_bytes(&v);
            min = match min {
                Some(m) if m < lead => Some(m),
                _ => Some(lead),
            };
        }
    }
    let m: usize = match min {
        Some(m) => m,
        None => 0,
    };
    let mut out = String::new();
    let mut k: usize = 0;
    proof {
        assert(out@ + reindented_from(l, 0, indent_level as nat, m as nat) =~= reindented(
            expr@,
            indent_level as nat,
        ));
    }
    while k < ls.len()
        invariant
            k <= ls@.len(),
            l == strs(ls@),
            l == lines_of(expr@),
            m == min_lead(l),
            (indent_level + 4 * expr@.len()) * 4 <= usize::MAX,
            out@ + reindented_from(l, k as int, indent_level as nat, m as nat) == reindented(
                expr@,
                indent_level as nat,
            ),
        decreases ls.len() - k,
    {
        let ghost before = out@;
        if k > 0 {
            push_lit(&mut out, "\n");
        }
        let line = &ls[k];
        let blank = str_to_chars(trim_str(line.as_str()).as_str()).len() == 0;
        if blank {
        } else if k == 0 {
            let t = trim_str(line.as_str());
            push_string(&mut out, &t);
        } else {
            let v = str_to_chars(line.as_str());
            proof {
                lemma_lines_shorter(expr@, 0, 0, k as int);
                lemma_lead_bytes_bound(v@, 0);
            }
            let lead = line_lead_bytes(&v);
            let rel = (if lead >= m {
                lead - m
            } else {
                0
            }) / 2;
            let sp = spaces((indent_level + rel) * 4);
            push_string(&mut out, &sp);
            let mut a: usize = 0;
            while a < v.len() && is_whitespace(v[a])
                invariant
                    a <= v@.len(),
                    skip_ws_from(v@, a as int, v@.len() as int) == skip_ws_from(v@, 0, v@.len() as int),
                decreases v.len() - a,
            {
                a = a + 1;
            }
            let rest = crate::text::string_from_range(v.as_slice(), a, v.len());
            push_string(&mut out, &rest);
        }
        proof {
            let piece = (if k > 0 {
                "\n"@
            } else {
                Seq::<char>::empty()
            }) + reindented_line(l, k as int, indent_level as nat, m as nat);
            assert(out@ =~= before + piece);
            assert(before + (piece + reindented_from(l, k + 1, indent_level as nat, m as nat))
                =~= out@ + reindented_from(l, k + 1, indent_level as nat, m as nat));
        }
        k = k + 1;
    }
    proof {
        assert(out@ + reindented_from(l, k as int, indent_level as nat, m as nat) =~= out@);
    }
    out
}


impl ExprContext {
    /// Whether, inside the ViewModel wrapper, every mutable variable has a
    /// name fit for an update method.
    pub fn names_ok_of(&self) -> (r: bool)
        ensures
            r == self.names_ok(),
    {
        if !self.in_viewmodel_wrapper {
            return true;
        }
        let mut i: usize = 0;
        while i < self.mutable_vars.len()
            invariant
                i <= self.mutable_vars@.len(),
                self.in_viewmodel_wrapper,
                forall|k: int| 0 <= k < i ==> update_name_ok(#[trigger] self.mutable_vars@[k]@),
            decreases self.mutable_vars.len() - i,
        {
            let c = crate::text::str_to_chars(self.mutable_vars[i].as_str());
            if !(c.len() > 0 && (c[0] as u32) < 128) {
                proof {
                    assert(!update_name_ok(self.mutable_vars@[i as int]@));
                }
                return false;
            }
            i = i + 1;
        }
        true
    }
}


// ===================== Laws of text templates =====================

/// `s` holds no line break.
pub open spec fn no_newline(s: Seq<char>) -> bool {
    forall|i: int| 0 <= i < s.len() ==> s[i] != '\n'
}

proof fn lemma_no_newline_concat(a: Seq<char>, b: Seq<char>)
    requires
        no_newline(a),
        no_newline(b),
    ensures
        no_newline(a + b),
{
    assert forall|i: int| 0 <= i < (a + b).len() implies (a + b)[i] != '\n' by {
        if i < a.len() {
            assert((a + b)[i] == a[i]);
        } else {
            assert((a + b)[i] == b[i - a.len()]);
        }
    }
}

/// Escaping dollar signs adds no line break.
proof fn lemma_escaped_no_newline(s: Seq<char>, i: int)
    requires
        no_newline(s),
        0 <= i,
    ensures
        no_newline(crate::compose::replace_from(s, i, "$"@, "\\$"@)),
    decreases s.len() - i,
{
    reveal_strlit("$");
    reveal_strlit("\\$");
    if i >= s.len() {
    } else if crate::text::occurs_at(s, i, "$"@) {
        lemma_escaped_no_newline(s, i + 1);
        lemma_no_newline_concat("\\$"@, crate::compose::replace_from(s, i + 1, "$"@, "\\$"@));
    } else {
        lemma_escaped_no_newline(s, i + 1);
        lemma_no_newline_concat(seq![s[i]], crate::compose::replace_from(s, i + 1, "$"@, "\\$"@));
    }
}

/// A text piece whose trimmed content holds no line break gives a piece
/// without one: a piece with a line break is trimmed.
proof fn lemma_cleaned_no_newline(t: Seq<char>)
    requires
        no_newline(spec_trim(t)),
    ensures
        no_newline(cleaned_text(t)),
{
    reveal_strlit("\n");
    if !seq_contains(t, "\n"@) {
        assert forall|i: int| 0 <= i < t.len() implies t[i] != '\n' by {
            if t[i] == '\n' {
                assert(t.subrange(i, i + 1) =~= "\n"@);
                assert(crate::text::occurs_at(t, i, "\n"@));
            }
        }
    }
}

/// The children that are not blank are children.
proof fn lemma_non_blank_from(ms: Seq<Markup>, k: int)
    requires
        0 <= k < non_blank(ms).len(),
    ensures
        exists|j: int| 0 <= j < ms.len() && ms[j] == non_blank(ms)[k],
    decreases ms.len(),
{
    let d = non_blank(ms.drop_last());
    if k < d.len() {
        lemma_non_blank_from(ms.drop_last(), k);
        let j = choose|j: int| 0 <= j < ms.drop_last().len() && ms.drop_last()[j] == d[k];
        assert(ms[j] == non_blank(ms)[k]);
    } else {
        assert(ms[ms.len() - 1] == non_blank(ms)[k]);
    }
}

/// Every text child of `ms` holds line breaks only in the white space
/// around its content, and every interpolation rewrites to one line.
pub open spec fn one_line_children(ms: Seq<Markup>, ctx: ExprContext) -> bool {
    forall|j: int|
        0 <= j < ms.len() ==> match #[trigger] ms[j] {
            Markup::Text(t) => no_newline(spec_trim(t@)),
            Markup::Interpolation(e) => no_newline(text_interpolation(e@, ctx)),
            _ => true,
        }
}

proof fn lemma_template_no_newline(ms: Seq<Markup>, ctx: ExprContext)
    requires
        one_line_children(ms, ctx),
    ensures
        template_parts(ms, ctx) matches Some(p) ==> no_newline(p),
    decreases ms.len(),
{
    reveal_strlit("${");
    reveal_strlit("}");
    if ms.len() > 0 {
        let d = ms.drop_last();
        assert forall|j: int| 0 <= j < d.len() implies match #[trigger] d[j] {
            Markup::Text(t) => no_newline(spec_trim(t@)),
            Markup::Interpolation(e) => no_newline(text_interpolation(e@, ctx)),
            _ => true,
        } by {
            assert(d[j] == ms[j]);
        }
        lemma_template_no_newline(d, ctx);
        let last = ms[ms.len() - 1];
        if let Some(p) = template_parts(d, ctx) {
            match last {
                Markup::Text(t) => {
                    lemma_cleaned_no_newline(t@);
                    lemma_escaped_no_newline(cleaned_text(t@), 0);
                    lemma_no_newline_concat(p, replaced(cleaned_text(t@), "$"@, "\\$"@));
                },
                Markup::Interpolation(e) => {
                    lemma_no_newline_concat("${"@, text_interpolation(e@, ctx));
                    lemma_no_newline_concat("${"@ + text_interpolation(e@, ctx), "}"@);
                    lemma_no_newline_concat(p, "${"@ + text_interpolation(e@, ctx) + "}"@);
                },
                _ => {},
            }
        }
    }
}

/// Markup layout never puts a line break inside the Kotlin string of text
/// children: when each text child holds line breaks only in the white space
/// around its content (a line break inside a child's content is kept) and
/// each interpolation rewrites to one line, the string has no line break;
/// so a text piece with a line break is trimmed before it is placed.
pub proof fn law_text_layout_newlines_dropped(children: Seq<Markup>, ctx: ExprContext)
    requires
        one_line_children(children, ctx),
    ensures
        text_expression(children, ctx) matches Ok(s) ==> no_newline(s),
{
    reveal_strlit("\"");
    reveal_strlit("\"\"");
    reveal_strlit("\"${");
    reveal_strlit("}\"");
    let nw = non_blank(children);
    assert forall|j: int| 0 <= j < nw.len() implies match #[trigger] nw[j] {
        Markup::Text(t) => no_newline(spec_trim(t@)),
        Markup::Interpolation(e) => no_newline(text_interpolation(e@, ctx)),
        _ => true,
    } by {
        lemma_non_blank_from(children, j);
        let k = choose|k: int| 0 <= k < children.len() && children[k] == nw[j];
        assert(children[k] == nw[j]);
    }
    if children.len() == 0 {
    } else if nw.len() == 1 && nw[0] is Text {
        let t = nw[0]->Text_0@;
        assert(match nw[0] {
            Markup::Text(t) => no_newline(spec_trim(t@)),
            Markup::Interpolation(e) => no_newline(text_interpolation(e@, ctx)),
            _ => true,
        });
        lemma_cleaned_no_newline(t);
        lemma_no_newline_concat("\""@, cleaned_text(t));
        lemma_no_newline_concat("\""@ + cleaned_text(t), "\""@);
    } else if nw.len() == 1 && nw[0] is Interpolation {
        let e = nw[0]->Interpolation_0@;
        assert(match nw[0] {
            Markup::Text(t) => no_newline(spec_trim(t@)),
            Markup::Interpolation(e) => no_newline(text_interpolation(e@, ctx)),
            _ => true,
        });
        lemma_no_newline_concat("\"${"@, text_interpolation(e, ctx));
        lemma_no_newline_concat("\"${"@ + text_interpolation(e, ctx), "}\""@);
    } else {
        lemma_template_no_newline(nw, ctx);
        if let Some(p) = template_parts(nw, ctx) {
            lemma_no_newline_concat("\""@, p);
            lemma_no_newline_concat("\""@ + p, "\""@);
        }
    }
}

} // verus!
