//! Compose markup rendered as Kotlin: components with their arguments and
//! children, text, interpolations and the control flow blocks.

use vstd::prelude::*;

use crate::ast::{
    Component, ComponentProp, ElseIfBranch, ForLoopBlock, IfElseBlock, Markup, PropValue,
    WhenBranch,
};
use crate::compose::{replaced, ternary_if_else};
use crate::compose_components::{
    async_image_fine, async_image_params, button_child, button_fine, button_text, chain, concat,
    config, dropdown_code, dropdown_fine, generic_params, image_fine, image_params, ln, opt_line,
    opt_text, param_list, prop_lines_of, props_fine, spacer_params, starts, text_like_params,
    MarkupGen, MarkupState,
};
use crate::compose_imports::{only_if, parent_view, prop_expr, strs};
use crate::compose_modifiers::{background_ok, flat, flat_modifiers, in_context, is_quoted_value};
use crate::compose_text::text_expression;
use crate::optimizer::Optimization;
use crate::recyclerview::unicode_upper;
use crate::text::{lit, push_lit, push_string, spec_trim, str_eq};
use crate::view::indent_text;

verus! {

// ===================== Props by name =====================

/// The expression of the first of the props `fs` (names and expressions)
/// named `n`.
pub open spec fn flat_named(fs: Seq<(Seq<char>, Seq<char>)>, n: Seq<char>) -> Option<Seq<char>>
    decreases fs.len(),
{
    if fs.len() == 0 {
        None
    } else if fs[0].0 == n {
        Some(fs[0].1)
    } else {
        flat_named(fs.drop_first(), n)
    }
}

/// The index of the first of the props `fs` named `n`.
pub open spec fn flat_index(fs: Seq<(Seq<char>, Seq<char>)>, n: Seq<char>) -> Option<int>
    decreases fs.len(),
{
    if fs.len() == 0 {
        None
    } else if fs[0].0 == n {
        Some(0)
    } else {
        match flat_index(fs.drop_first(), n) {
            Some(i) => Some(i + 1),
            None => None,
        }
    }
}

/// `s` without trailing white space (`str::trim_end`).
pub open spec fn trimmed_end(s: Seq<char>) -> Seq<char> {
    s.subrange(0, crate::text::trim_end_from(s, 0, s.len() as int))
}

// ===================== Layout components =====================

/// Whether `n` names a layout component.
pub open spec fn is_layout_name(n: Seq<char>) -> bool {
    n == "Column"@ || n == "Row"@ || n == "Box"@
}

/// Whether `m` is a layout component.
pub open spec fn is_layout_markup(m: Markup) -> bool {
    match m {
        Markup::Component(c) => is_layout_name(c.name@),
        _ => false,
    }
}

/// The content alignment of a `Box`: a quoted name as an `Alignment`
/// (capitalized), else the expression.
pub open spec fn alignment_value(a: Seq<char>) -> Seq<char> {
    if is_quoted_value(a) {
        let inner = a.subrange(1, a.len() - 1);
        "Alignment."@ + unicode_upper(inner[0]) + inner.subrange(1, inner.len() as int)
    } else {
        a
    }
}

/// The modifier configuration of layout component `n`.
pub open spec fn layout_config(n: Seq<char>) -> crate::compose_modifiers::ModifierConfig {
    if n == "Box"@ {
        config(true, true, true, false, true)
    } else {
        config(false, true, true, false, false)
    }
}

/// The props `fs` of layout component `n` can be read: a quoted background
/// color and a quoted alignment have both quotes and an ASCII first letter.
pub open spec fn layout_fine(n: Seq<char>, fs: Seq<(Seq<char>, Seq<char>)>) -> bool {
    &&& match flat_named(fs, "backgroundColor"@) {
        Some(v) => background_ok(v),
        None => true,
    }
    &&& n == "Box"@ ==> match flat_named(fs, "alignment"@) {
        Some(a) => background_ok(a),
        None => true,
    }
}

/// The arguments of layout component `n` with props `fs` before its other
/// props: a `Box`'s alignment and modifier, or the modifier chain of a
/// `Column` or `Row`.
pub open spec fn layout_params(
    n: Seq<char>,
    fs: Seq<(Seq<char>, Seq<char>)>,
    mods: Seq<Seq<char>>,
) -> Seq<Seq<char>> {
    if n == "Box"@ {
        opt_line(
            match flat_named(fs, "alignment"@) {
                Some(a) => Some(alignment_value(a)),
                None => None,
            },
            "contentAlignment = "@,
            Seq::empty(),
        ) + only_if(mods.len() > 0, seq!["modifier = Modifier"@ + concat(mods)])
    } else if mods.len() == 0 {
        Seq::empty()
    } else if mods.len() == 1 {
        seq!["modifier = Modifier"@ + mods[0]]
    } else {
        seq!["modifier = Modifier\n"@ + chain(mods, "                "@)]
    }
}

/// The props of the first layout child of a `Scaffold`: the inner padding
/// first in its modifier (with its own `padding` prop, which leaves), an
/// explicit modifier chained after them or, without one, a new modifier
/// first.
pub open spec fn scaffold_props(fs: Seq<(Seq<char>, Seq<char>)>) -> Seq<(Seq<char>, Seq<char>)> {
    let pad = flat_index(fs, "padding"@);
    let fs1 = match pad {
        Some(i) => fs.remove(i),
        None => fs,
    };
    let pv = match pad {
        Some(i) => Some(fs[i].1),
        None => None,
    };
    let lines = ".padding(paddingValues)"@ + opt_text(pv, "\n                .padding("@, ".dp)"@);
    let calls = ".padding(paddingValues)"@ + opt_text(pv, ".padding("@, ".dp)"@);
    match flat_index(fs1, "modifier"@) {
        Some(j) => {
            let e = fs1[j].1;
            fs1.update(
                j,
                (
                    fs1[j].0,
                    if starts(e, "Modifier"@) {
                        "Modifier\n                "@ + lines + e.subrange(8, e.len() as int)
                    } else {
                        "Modifier"@ + calls + ".then("@ + e + ")"@
                    },
                ),
            )
        },
        None => seq![("modifier"@, "Modifier\n                "@ + lines)] + fs1,
    }
}

// ===================== Loops rendered with a RecyclerView =====================

/// Whether the loop over `coll` is to be rendered with a RecyclerView.
pub open spec fn recycler_for(opts: Seq<Optimization>, coll: Seq<char>) -> bool {
    exists|i: int|
        0 <= i < opts.len() && (#[trigger] opts[i] matches Optimization::UseRecyclerView {
            collection_name,
            ..
        } && collection_name@ == coll)
}

/// The `AndroidView` factory of a RecyclerView over `coll`, up to its
/// binding.
pub open spec fn recycler_head(ind: nat, coll: Seq<char>) -> Seq<char> {
    ln(ind, "AndroidView("@) + ln(ind, "    factory = { context ->"@) + ln(
        ind,
        "        RecyclerView(context).apply {"@,
    ) + ln(ind, "            layoutManager = LinearLayoutManager(context)"@) + ln(
        ind,
        "            adapter = object : RecyclerView.Adapter<RecyclerView.ViewHolder>() {"@,
    ) + ln(ind, "                override fun getItemCount() = "@ + coll + ".size"@) + ln(
        ind,
        Seq::empty(),
    )
}

/// The view holder creation of the RecyclerView.
pub open spec fn recycler_holder(ind: nat) -> Seq<char> {
    ln(
        ind,
        "                override fun onCreateViewHolder(parent: ViewGroup, viewType: Int): RecyclerView.ViewHolder {"@,
    ) + ln(ind, "                    val view = TextView(parent.context).apply {"@) + ln(
        ind,
        "                        layoutParams = ViewGroup.LayoutParams("@,
    ) + ln(ind, "                            ViewGroup.LayoutParams.MATCH_PARENT,"@) + ln(
        ind,
        "                            ViewGroup.LayoutParams.WRAP_CONTENT"@,
    ) + ln(ind, "                        )"@) + ln(
        ind,
        "                        setPadding(16.dpToPx(), 16.dpToPx(), 16.dpToPx(), 16.dpToPx())"@,
    ) + ln(ind, "                    }"@) + ln(
        ind,
        "                    return object : RecyclerView.ViewHolder(view) {}"@,
    ) + ln(ind, "                }"@) + ln(ind, Seq::empty())
}

/// The binding of item `item` of `coll` as text.
pub open spec fn recycler_binding(ind: nat, coll: Seq<char>, item: Seq<char>) -> Seq<char> {
    ln(
        ind,
        "                override fun onBindViewHolder(holder: RecyclerView.ViewHolder, position: Int) {"@,
    ) + ln(ind, "                    val "@ + item + " = "@ + coll + "[position]"@) + ln(
        ind,
        "                    val textView = holder.itemView as TextView"@,
    ) + ln(ind, "                    textView.text = "@ + item + ".toString()"@) + ln(
        ind,
        "                }"@,
    ) + ln(ind, "            }"@) + ln(ind, "        }"@) + ln(ind, "    }"@) + ln(ind, ")"@)
}

/// The dp to px helper after the view.
pub open spec fn recycler_helper(ind: nat) -> Seq<char> {
    ln(ind, Seq::empty()) + ln(ind, "// Extension for DP to PX conversion"@) + ln(
        ind,
        "private fun Int.dpToPx(): Int {"@,
    ) + ln(ind, "    val density = Resources.getSystem().displayMetrics.density"@) + ln(
        ind,
        "    return (this * density).toInt()"@,
    ) + ln(ind, "}"@)
}

/// A loop of `item` over `coll` at level `ind` as an `AndroidView` holding a
/// RecyclerView that shows each item as text.
pub open spec fn recycler_inline(coll: Seq<char>, item: Seq<char>, ind: nat) -> Seq<char> {
    recycler_head(ind, coll) + recycler_holder(ind) + recycler_binding(ind, coll, item)
        + recycler_helper(ind)
}

// ===================== Rendering =====================

/// Whether an exec result is the rendered result `s`.
pub open spec fn rendered(r: Result<String, String>, s: Result<Seq<char>, Seq<char>>) -> bool {
    match (r, s) {
        (Ok(a), Ok(b)) => a@ == b,
        (Err(a), Err(b)) => a@ == b,
        _ => false,
    }
}

/// `r`'s code between `before` and `after`; an error passes through.
pub open spec fn framed(
    before: Seq<char>,
    r: (Result<Seq<char>, Seq<char>>, MarkupState),
    after: Seq<char>,
) -> (Result<Seq<char>, Seq<char>>, MarkupState) {
    (
        match r.0 {
            Ok(x) => Ok(before + x + after),
            Err(e) => Err(e),
        },
        r.1,
    )
}

/// The code of the items `ms` at level `ind` inside `parent`, one after the
/// other; the first error ends it.
pub open spec fn items_code(
    g: MarkupGen,
    st: MarkupState,
    ms: Seq<Markup>,
    ind: nat,
    parent: Option<Seq<char>>,
) -> (Result<Seq<char>, Seq<char>>, MarkupState)
    decreases ms, 0nat,
{
    if ms.len() == 0 {
        (Ok(Seq::empty()), st)
    } else {
        let a = items_code(g, st, ms.drop_last(), ind, parent);
        match a.0 {
            Err(e) => (Err(e), a.1),
            Ok(x) => framed(x, markup_code(g, a.1, ms.last(), ind, parent), Seq::empty()),
        }
    }
}

/// The code of markup `m` at level `ind` inside `parent`: a component, a
/// text (trimmed in a `Button`), an interpolation, a sequence or a control
/// flow block.
pub open spec fn markup_code(
    g: MarkupGen,
    st: MarkupState,
    m: Markup,
    ind: nat,
    parent: Option<Seq<char>>,
) -> (Result<Seq<char>, Seq<char>>, MarkupState)
    decreases m, 1nat,
{
    match m {
        Markup::Text(t) => (
            Ok(
                indent_text(ind as int) + "Text(text = \""@ + (if parent == Some("Button"@) {
                    spec_trim(t@)
                } else {
                    t@
                }) + "\")\n"@,
            ),
            st,
        ),
        Markup::Interpolation(e) => (
            Ok(indent_text(ind as int) + "Text(text = $"@ + ternary_if_else(e@) + ")\n"@),
            st,
        ),
        Markup::Sequence(items) => items_code(g, st, items@, ind, None),
        Markup::IfElse(b) => if_else_code(g, st, b, ind),
        Markup::ForLoop(f) => for_loop_code(g, st, f, ind, parent),
        Markup::When(w) => framed(
            indent_text(ind as int) + "when {\n"@,
            whens_code(g, st, w.branches@, ind),
            indent_text(ind as int) + "}\n"@,
        ),
        Markup::Component(c) => component_code(g, st, c, ind),
    }
}

/// An `@if` block at level `ind`: its branches one level deeper, the
/// conditions rewritten for the ViewModel wrapper.
pub open spec fn if_else_code(g: MarkupGen, st: MarkupState, b: IfElseBlock, ind: nat) -> (
    Result<Seq<char>, Seq<char>>,
    MarkupState,
)
    decreases b, 0nat,
{
    let t = items_code(g, st, b.then_branch@, ind + 1, None);
    match t.0 {
        Err(e) => (Err(e), t.1),
        Ok(tc) => {
            let head = indent_text(ind as int) + "if ("@ + in_context(b.condition@, g.ctx)
                + ") {\n"@ + tc + indent_text(ind as int) + "}"@;
            let ei = else_ifs_code(g, t.1, b.else_ifs@, ind);
            match ei.0 {
                Err(e) => (Err(e), ei.1),
                Ok(ec) => match b.else_branch {
                    None => (Ok(head + ec + "\n"@), ei.1),
                    Some(eb) => framed(
                        head + ec + " else {\n"@,
                        items_code(g, ei.1, eb@, ind + 1, None),
                        indent_text(ind as int) + "}\n"@,
                    ),
                },
            }
        },
    }
}

/// The `else if` branches of an `@if` block at level `ind`.
pub open spec fn else_ifs_code(
    g: MarkupGen,
    st: MarkupState,
    bs: Seq<ElseIfBranch>,
    ind: nat,
) -> (Result<Seq<char>, Seq<char>>, MarkupState)
    decreases bs, 0nat,
{
    if bs.len() == 0 {
        (Ok(Seq::empty()), st)
    } else {
        let a = else_ifs_code(g, st, bs.drop_last(), ind);
        match a.0 {
            Err(e) => (Err(e), a.1),
            Ok(x) => framed(
                x + " else if ("@ + in_context(bs.last().condition@, g.ctx) + ") {\n"@,
                items_code(g, a.1, bs.last().body@, ind + 1, None),
                indent_text(ind as int) + "}"@,
            ),
        }
    }
}

/// The key of a loop in a `LazyColumn`, in braces.
pub open spec fn lazy_key(k: Option<String>) -> Seq<char> {
    match k {
        Some(k) => ", key = "@ + if starts(spec_trim(k@), "{"@) {
            k@
        } else {
            "{ "@ + k@ + " }"@
        },
        None => Seq::empty(),
    }
}

/// A `@for` loop at level `ind` inside `parent`: `items` in a `LazyColumn`,
/// a RecyclerView when that is planned for its collection, else `forEach`
/// (in `key` blocks for a keyed loop, after an emptiness test for a loop
/// with an empty block).
pub open spec fn for_loop_code(
    g: MarkupGen,
    st: MarkupState,
    f: ForLoopBlock,
    ind: nat,
    parent: Option<Seq<char>>,
) -> (Result<Seq<char>, Seq<char>>, MarkupState)
    decreases f, 2nat,
{
    if parent == Some("LazyColumn"@) {
        lazy_code(g, st, f, ind)
    } else if recycler_for(g.optimizations@, f.collection@) {
        (Ok(recycler_inline(f.collection@, f.item@, ind)), st)
    } else {
        for_each_code(g, st, f, ind)
    }
}

/// A loop in a `LazyColumn` at level `ind`: `items` with the loop's key.
pub open spec fn lazy_code(g: MarkupGen, st: MarkupState, f: ForLoopBlock, ind: nat) -> (
    Result<Seq<char>, Seq<char>>,
    MarkupState,
)
    decreases f, 1nat,
{
    let i = indent_text(ind as int);
    framed(
        i + "items("@ + in_context(f.collection@, g.ctx) + lazy_key(f.key_expr) + ") { "@ + f.item@
            + " ->\n"@,
        items_code(g, st, f.body@, ind + 1, None),
        i + "}\n"@,
    )
}

/// A loop at level `ind` as `forEach` (in `key` blocks for a keyed loop,
/// after an emptiness test for a loop with an empty block).
pub open spec fn for_each_code(g: MarkupGen, st: MarkupState, f: ForLoopBlock, ind: nat) -> (
    Result<Seq<char>, Seq<char>>,
    MarkupState,
)
    decreases f, 1nat,
{
    let i = indent_text(ind as int);
    let coll = in_context(f.collection@, g.ctx);
    {
        match f.empty_block {
            Some(eb) => {
                let e = items_code(g, st, eb@, ind + 1, None);
                match e.0 {
                    Err(x) => (Err(x), e.1),
                    Ok(ec) => {
                        let head = i + "if ("@ + coll + ".isEmpty()) {\n"@ + ec + i + "}"@
                            + " else {\n"@ + i + "    "@ + coll + ".forEach { "@ + f.item@
                            + " ->\n"@;
                        let body = match f.key_expr {
                            Some(k) => framed(
                                i + "        key("@ + replaced(k@, "it"@, f.item@) + ") {\n"@,
                                items_code(g, e.1, f.body@, ind + 3, None),
                                i + "        }\n"@,
                            ),
                            None => items_code(g, e.1, f.body@, ind + 2, None),
                        };
                        framed(head, body, i + "    }\n"@ + i + "}\n"@)
                    },
                }
            },
            None => {
                let body = match f.key_expr {
                    Some(k) => framed(
                        i + "    key("@ + replaced(k@, "it"@, f.item@) + ") {\n"@,
                        items_code(g, st, f.body@, ind + 2, None),
                        i + "    }\n"@,
                    ),
                    None => items_code(g, st, f.body@, ind + 1, None),
                };
                framed(i + coll + ".forEach { "@ + f.item@ + " ->\n"@, body, i + "}\n"@)
            },
        }
    }
}

/// The branches of a `@when` block at level `ind`: each condition (or
/// `else`) with its body inline.
pub open spec fn whens_code(g: MarkupGen, st: MarkupState, bs: Seq<WhenBranch>, ind: nat) -> (
    Result<Seq<char>, Seq<char>>,
    MarkupState,
)
    decreases bs, 0nat,
{
    if bs.len() == 0 {
        (Ok(Seq::empty()), st)
    } else {
        let a = whens_code(g, st, bs.drop_last(), ind);
        match a.0 {
            Err(e) => (Err(e), a.1),
            Ok(x) => {
                let head = indent_text(ind as int) + "    "@ + match bs.last().condition {
                    Some(c) => c@ + " -> "@,
                    None => "else -> "@,
                };
                let r = markup_code(g, a.1, bs.last().body, 0, None);
                (
                    match r.0 {
                        Ok(y) => Ok(x + head + spec_trim(y) + "\n"@),
                        Err(e) => Err(e),
                    },
                    r.1,
                )
            },
        }
    }
}

/// Whether component `n` has props that take composable content.
pub open spec fn is_slot_component(n: Seq<char>) -> bool {
    n == "Scaffold"@ || n == "TopAppBar"@ || n == "AlertDialog"@ || n == "Tab"@ || n
        == "FilterChip"@
}

/// Whether prop `p` of component `n` takes composable content.
pub open spec fn is_slot(n: Seq<char>, p: Seq<char>) -> bool {
    (n == "Scaffold"@ && p == "topBar"@) || (n == "TopAppBar"@ && p == "title"@) || (n
        == "AlertDialog"@ && (p == "title"@ || p == "text"@ || p == "confirmButton"@ || p
        == "dismissButton"@)) || (n == "Tab"@ && p == "text"@) || (n == "FilterChip"@ && p
        == "label"@)
}

/// The argument of content prop `p` of component `n` given as expression
/// `e`: the expression for a `Scaffold`'s top bar or a dialog's button, else
/// a `Text` of it in a lambda.
pub open spec fn slot_expr(n: Seq<char>, p: Seq<char>, e: Seq<char>) -> Seq<char> {
    if n == "Scaffold"@ || (n == "AlertDialog"@ && (p == "confirmButton"@ || p
        == "dismissButton"@)) {
        p + " = "@ + e
    } else {
        p + " = { Text("@ + e + ") }"@
    }
}

/// The arguments of the props `ps` of component `n` (at level `ind`) that
/// has content props: content given as markup in a lambda (a top app bar's
/// title one level deeper and trimmed, other content two levels deeper),
/// the other props as usual.
pub open spec fn slot_params(
    g: MarkupGen,
    st: MarkupState,
    n: Seq<char>,
    ps: Seq<ComponentProp>,
    ind: nat,
) -> (Result<Seq<Seq<char>>, Seq<char>>, MarkupState)
    decreases ps, 0nat,
{
    if ps.len() == 0 {
        (Ok(Seq::empty()), st)
    } else {
        let a = slot_params(g, st, n, ps.drop_last(), ind);
        match a.0 {
            Err(e) => (Err(e), a.1),
            Ok(xs) => {
                let p = ps.last();
                if is_slot(n, p.name@) {
                    match p.value {
                        PropValue::Expression(e) => (Ok(xs.push(slot_expr(n, p.name@, e@))), a.1),
                        PropValue::Markup(b) => if n == "TopAppBar"@ {
                            let r = markup_code(g, a.1, *b, ind + 1, None);
                            (
                                match r.0 {
                                    Ok(code) => Ok(
                                        xs.push(
                                            "title = {\n"@ + trimmed_end(code)
                                                + "}"@,
                                        ),
                                    ),
                                    Err(e) => Err(e),
                                },
                                r.1,
                            )
                        } else {
                            let r = markup_code(g, a.1, *b, ind + 2, None);
                            (
                                match r.0 {
                                    Ok(code) => Ok(
                                        xs.push(
                                            p.name@ + " = {\n"@ + code + indent_text(ind + 1 as int) + "}"@,
                                        ),
                                    ),
                                    Err(e) => Err(e),
                                },
                                r.1,
                            )
                        },
                    }
                } else {
                    (
                        match g.lines(n, p.name@, prop_expr(p.value)) {
                            Ok(ls) => Ok(xs + ls),
                            Err(e) => Err(e),
                        },
                        a.1,
                    )
                }
            },
        }
    }
}

/// The arguments of component `n` with props `ps` (after the text arguments
/// `p0` of a `Text`) when it has no content props.
pub open spec fn plain_params(
    g: MarkupGen,
    n: Seq<char>,
    ps: Seq<ComponentProp>,
    p0: Seq<Seq<char>>,
) -> Result<Seq<Seq<char>>, Seq<char>> {
    if n == "Spacer"@ {
        spacer_params(g, ps)
    } else if n == "Image"@ {
        image_params(g, ps)
    } else if n == "Text"@ || n == "Card"@ || n == "Button"@ {
        text_like_params(g, n, ps, p0)
    } else if n == "AsyncImage"@ {
        async_image_params(g, ps)
    } else if n == "Icon"@ {
        prop_lines_of(g, "Icon"@, flat(ps), Seq::empty())
    } else {
        generic_params(g, n, ps)
    }
}

/// Component `c` at level `ind`: a layout, a dropdown menu, or any other
/// component with its arguments and children.
pub open spec fn component_code(g: MarkupGen, st: MarkupState, c: Component, ind: nat) -> (
    Result<Seq<char>, Seq<char>>,
    MarkupState,
)
    decreases c, 1nat,
{
    let n = c.name@;
    if is_layout_name(n) {
        layout_code(g, st, n, flat(c.props@), c.children@, ind)
    } else if n == "DropdownMenu"@ {
        dropdown_code(st, c.props@, ind)
    } else {
        let tp = if n == "Text"@ && c.children@.len() > 0 {
            match text_expression(c.children@, g.ctx) {
                Ok(t) => Ok(seq!["text = "@ + t]),
                Err(e) => Err(e),
            }
        } else {
            Ok(Seq::empty())
        };
        match tp {
            Err(e) => (Err(e), st),
            Ok(p0) => {
                let br = if is_slot_component(n) {
                    slot_params(g, st, n, c.props@, ind)
                } else {
                    (plain_params(g, n, c.props@, p0), st)
                };
                match br.0 {
                    Err(e) => (Err(e), br.1),
                    Ok(params) => finish_code(
                        g,
                        br.1,
                        n,
                        if n == "Image"@ {
                            "AsyncImage"@
                        } else {
                            n
                        },
                        params,
                        button_text(n, c.props@),
                        c.children@,
                        ind,
                    ),
                }
            },
        }
    }
}

/// A component named `n` (shown as `shown`) at level `ind` with arguments
/// `params`, a button text `bt` and children `ch`: the name, the arguments
/// in parentheses (unless there are none and a trailing lambda follows),
/// then the trailing lambda with the button's text and the children one
/// level deeper (the first layout child of a `Scaffold` takes its inner
/// padding).
pub open spec fn finish_code(
    g: MarkupGen,
    st: MarkupState,
    n: Seq<char>,
    shown: Seq<char>,
    params: Seq<Seq<char>>,
    bt: Option<Seq<char>>,
    ch: Seq<Markup>,
    ind: nat,
) -> (Result<Seq<char>, Seq<char>>, MarkupState)
    decreases ch, 1nat,
{
    let has_children = (ch.len() > 0 && n != "Text"@) || bt is Some;
    let head = indent_text(ind as int) + shown + if params.len() > 0 || !has_children {
        "("@ + param_list(params, ind) + ")"@
    } else {
        Seq::empty()
    };
    if !has_children {
        (Ok(head + "\n"@), st)
    } else {
        let snp = n == "Scaffold"@ && ch.len() > 0 && is_layout_markup(ch[0]);
        let open = if snp {
            " { paddingValues ->\n"@
        } else {
            " {\n"@
        };
        let bc = match bt {
            Some(t) => button_child(t, ind),
            None => Seq::empty(),
        };
        let kids = if snp {
            let a = scaffold_child_code(g, st, ch[0], ind + 1);
            match a.0 {
                Err(e) => (Err(e), a.1),
                Ok(x) => framed(x, items_code(g, a.1, ch.drop_first(), ind + 1, Some(n)), Seq::empty()),
            }
        } else {
            items_code(g, st, ch, ind + 1, Some(n))
        };
        framed(head + open + bc, kids, indent_text(ind as int) + "}\n"@)
    }
}

/// Layout component `n` at level `ind` with props `fs` and children `ch`:
/// its modifier (sizes and fills for a `Box`, padding and background) and
/// other arguments, then its children.
pub open spec fn layout_code(
    g: MarkupGen,
    st: MarkupState,
    n: Seq<char>,
    fs: Seq<(Seq<char>, Seq<char>)>,
    ch: Seq<Markup>,
    ind: nat,
) -> (Result<Seq<char>, Seq<char>>, MarkupState)
    decreases ch, 2nat,
{
    match flat_modifiers(fs, layout_config(n), g.ctx) {
        Err(e) => (Err(e), st),
        Ok((mods, handled)) => {
            let h2 = if n == "Box"@ && flat_named(fs, "alignment"@) is Some {
                handled.push("alignment"@)
            } else {
                handled
            };
            match prop_lines_of(g, n, fs, h2) {
                Err(e) => (Err(e), st),
                Ok(ls) => finish_code(g, st, n, n, layout_params(n, fs, mods) + ls, None, ch, ind),
            }
        },
    }
}

/// The first child `m` of a `Scaffold` at level `ind`: a layout component
/// with the inner padding in its modifier, else as it is.
pub open spec fn scaffold_child_code(g: MarkupGen, st: MarkupState, m: Markup, ind: nat) -> (
    Result<Seq<char>, Seq<char>>,
    MarkupState,
)
    decreases m, 3nat,
{
    match m {
        Markup::Component(c) => if is_layout_name(c.name@) {
            layout_code(g, st, c.name@, scaffold_props(flat(c.props@)), c.children@, ind)
        } else {
            markup_code(g, st, m, ind, None)
        },
        _ => markup_code(g, st, m, ind, None),
    }
}

// ===================== Markup that can be rendered =====================

/// Markup `m` at level `ind` can be rendered: the props it reads can be
/// read, and the levels it reaches fit in a `usize`.
pub open spec fn markup_fine(g: MarkupGen, m: Markup, ind: nat) -> bool
    decreases m, 0nat,
{
    match m {
        Markup::Component(c) => component_fine(g, c, ind),
        Markup::Sequence(items) => items_fine(g, items@, ind),
        Markup::IfElse(b) => if_else_fine(g, b, ind),
        Markup::ForLoop(f) => for_loop_fine(g, f, ind),
        Markup::When(w) => whens_fine(g, w.branches@),
        _ => true,
    }
}

/// Each of `ms` can be rendered at level `ind`.
pub open spec fn items_fine(g: MarkupGen, ms: Seq<Markup>, ind: nat) -> bool
    decreases ms, 0nat,
{
    ms.len() == 0 || (items_fine(g, ms.drop_last(), ind) && markup_fine(g, ms.last(), ind))
}

/// An `@if` block at level `ind` can be rendered.
pub open spec fn if_else_fine(g: MarkupGen, b: IfElseBlock, ind: nat) -> bool
    decreases b, 0nat,
{
    &&& ind + 1 <= usize::MAX
    &&& items_fine(g, b.then_branch@, ind + 1)
    &&& else_ifs_fine(g, b.else_ifs@, ind + 1)
    &&& match b.else_branch {
        Some(e) => items_fine(g, e@, ind + 1),
        None => true,
    }
}

/// The bodies of `else if` branches can be rendered at level `ind`.
pub open spec fn else_ifs_fine(g: MarkupGen, bs: Seq<ElseIfBranch>, ind: nat) -> bool
    decreases bs, 0nat,
{
    bs.len() == 0 || (else_ifs_fine(g, bs.drop_last(), ind) && items_fine(g, bs.last().body@, ind))
}

/// A `@for` loop at level `ind` can be rendered (its body as deep as a keyed
/// loop with an empty block puts it).
pub open spec fn for_loop_fine(g: MarkupGen, f: ForLoopBlock, ind: nat) -> bool
    decreases f, 0nat,
{
    &&& ind + 3 <= usize::MAX
    &&& items_fine(g, f.body@, ind + 1)
    &&& items_fine(g, f.body@, ind + 2)
    &&& items_fine(g, f.body@, ind + 3)
    &&& match f.empty_block {
        Some(e) => items_fine(g, e@, ind + 1),
        None => true,
    }
}

/// The bodies of `@when` branches can be rendered (at level 0).
pub open spec fn whens_fine(g: MarkupGen, bs: Seq<WhenBranch>) -> bool
    decreases bs, 0nat,
{
    bs.len() == 0 || (whens_fine(g, bs.drop_last()) && markup_fine(g, bs.last().body, 0))
}

/// The content props given as markup among `ps` can be rendered one and two
/// levels below `ind`.
pub open spec fn slots_fine(g: MarkupGen, ps: Seq<ComponentProp>, ind: nat) -> bool
    decreases ps, 0nat,
{
    ps.len() == 0 || (slots_fine(g, ps.drop_last(), ind) && match ps.last().value {
        PropValue::Markup(b) => markup_fine(g, *b, ind + 1) && markup_fine(g, *b, ind + 2),
        PropValue::Expression(_) => true,
    })
}

/// Component `c` at level `ind` can be rendered.
pub open spec fn component_fine(g: MarkupGen, c: Component, ind: nat) -> bool
    decreases c, 0nat,
{
    let n = c.name@;
    &&& ind + 2 <= usize::MAX
    &&& items_fine(g, c.children@, ind + 1)
    &&& if is_layout_name(n) {
        layout_fine(n, flat(c.props@))
    } else if n == "DropdownMenu"@ {
        dropdown_fine(c.props@)
    } else {
        &&& props_fine(g, n, c.props@)
        &&& button_fine(n, c.props@)
        &&& n == "Image"@ ==> image_fine(c.props@)
        &&& n == "AsyncImage"@ ==> async_image_fine(c.props@)
        &&& is_slot_component(n) ==> slots_fine(g, c.props@, ind)
    }
    &&& (n == "Scaffold"@ && c.children@.len() > 0 && is_layout_markup(c.children@[0]))
        ==> scaffold_child_fine(g, c.children@[0], ind + 1)
}

/// The first layout child `m` of a `Scaffold` can be rendered at level `ind`
/// with the inner padding.
pub open spec fn scaffold_child_fine(g: MarkupGen, m: Markup, ind: nat) -> bool
    decreases m, 1nat,
{
    match m {
        Markup::Component(c) => if is_layout_name(c.name@) {
            ind + 2 <= usize::MAX && layout_fine(c.name@, scaffold_props(flat(c.props@)))
                && items_fine(g, c.children@, ind + 1)
        } else {
            markup_fine(g, m, ind)
        },
        _ => markup_fine(g, m, ind),
    }
}


// ===================== Facts about the folds =====================

/// Each of the items can be rendered exactly when all can.
pub proof fn lemma_items_fine(g: MarkupGen, ms: Seq<Markup>, ind: nat)
    ensures
        items_fine(g, ms, ind) <==> forall|k: int| 0 <= k < ms.len() ==> markup_fine(g, #[trigger] ms[k], ind),
    decreases ms.len(),
{
    if ms.len() > 0 {
        lemma_items_fine(g, ms.drop_last(), ind);
        assert forall|k: int| 0 <= k < ms.len() - 1 implies #[trigger] ms.drop_last()[k] == ms[k] by {}
        if forall|k: int| 0 <= k < ms.len() ==> markup_fine(g, #[trigger] ms[k], ind) {
            assert(markup_fine(g, ms[ms.len() - 1], ind));
            assert forall|k: int| 0 <= k < ms.drop_last().len() implies markup_fine(
                g,
                #[trigger] ms.drop_last()[k],
                ind,
            ) by {
                assert(ms.drop_last()[k] == ms[k]);
            }
        }
        if items_fine(g, ms, ind) {
            assert forall|k: int| 0 <= k < ms.len() implies markup_fine(g, #[trigger] ms[k], ind) by {
                if k < ms.len() - 1 {
                    assert(ms.drop_last()[k] == ms[k]);
                }
            }
        }
    }
}

proof fn lemma_items_err(
    g: MarkupGen,
    st: MarkupState,
    ms: Seq<Markup>,
    ind: nat,
    parent: Option<Seq<char>>,
    k: int,
)
    requires
        0 <= k <= ms.len(),
        items_code(g, st, ms.take(k), ind, parent).0 is Err,
    ensures
        items_code(g, st, ms, ind, parent) == items_code(g, st, ms.take(k), ind, parent),
    decreases ms.len() - k,
{
    if k < ms.len() {
        assert(ms.take(k + 1).drop_last() =~= ms.take(k));
        lemma_items_err(g, st, ms, ind, parent, k + 1);
    } else {
        assert(ms.take(k) =~= ms);
    }
}

proof fn lemma_else_ifs_fine_at(g: MarkupGen, bs: Seq<ElseIfBranch>, ind: nat, k: int)
    requires
        else_ifs_fine(g, bs, ind),
        0 <= k < bs.len(),
    ensures
        items_fine(g, bs[k].body@, ind),
    decreases bs.len(),
{
    if k < bs.len() - 1 {
        assert(bs.drop_last()[k] == bs[k]);
        lemma_else_ifs_fine_at(g, bs.drop_last(), ind, k);
    }
}

proof fn lemma_else_ifs_err(g: MarkupGen, st: MarkupState, bs: Seq<ElseIfBranch>, ind: nat, k: int)
    requires
        0 <= k <= bs.len(),
        else_ifs_code(g, st, bs.take(k), ind).0 is Err,
    ensures
        else_ifs_code(g, st, bs, ind) == else_ifs_code(g, st, bs.take(k), ind),
    decreases bs.len() - k,
{
    if k < bs.len() {
        assert(bs.take(k + 1).drop_last() =~= bs.take(k));
        lemma_else_ifs_err(g, st, bs, ind, k + 1);
    } else {
        assert(bs.take(k) =~= bs);
    }
}

proof fn lemma_whens_fine_at(g: MarkupGen, bs: Seq<WhenBranch>, k: int)
    requires
        whens_fine(g, bs),
        0 <= k < bs.len(),
    ensures
        markup_fine(g, bs[k].body, 0),
    decreases bs.len(),
{
    if k < bs.len() - 1 {
        assert(bs.drop_last()[k] == bs[k]);
        lemma_whens_fine_at(g, bs.drop_last(), k);
    }
}

proof fn lemma_whens_err(g: MarkupGen, st: MarkupState, bs: Seq<WhenBranch>, ind: nat, k: int)
    requires
        0 <= k <= bs.len(),
        whens_code(g, st, bs.take(k), ind).0 is Err,
    ensures
        whens_code(g, st, bs, ind) == whens_code(g, st, bs.take(k), ind),
    decreases bs.len() - k,
{
    if k < bs.len() {
        assert(bs.take(k + 1).drop_last() =~= bs.take(k));
        lemma_whens_err(g, st, bs, ind, k + 1);
    } else {
        assert(bs.take(k) =~= bs);
    }
}

proof fn lemma_slots_fine_at(g: MarkupGen, ps: Seq<ComponentProp>, ind: nat, k: int)
    requires
        slots_fine(g, ps, ind),
        0 <= k < ps.len(),
    ensures
        match ps[k].value {
            PropValue::Markup(b) => markup_fine(g, *b, ind + 1) && markup_fine(g, *b, ind + 2),
            PropValue::Expression(_) => true,
        },
    decreases ps.len(),
{
    if k < ps.len() - 1 {
        assert(ps.drop_last()[k] == ps[k]);
        lemma_slots_fine_at(g, ps.drop_last(), ind, k);
    }
}

proof fn lemma_slots_err(
    g: MarkupGen,
    st: MarkupState,
    n: Seq<char>,
    ps: Seq<ComponentProp>,
    ind: nat,
    k: int,
)
    requires
        0 <= k <= ps.len(),
        slot_params(g, st, n, ps.take(k), ind).0 is Err,
    ensures
        slot_params(g, st, n, ps, ind) == slot_params(g, st, n, ps.take(k), ind),
    decreases ps.len() - k,
{
    if k < ps.len() {
        assert(ps.take(k + 1).drop_last() =~= ps.take(k));
        lemma_slots_err(g, st, n, ps, ind, k + 1);
    } else {
        assert(ps.take(k) =~= ps);
    }
}

/// The first prop named `n` among `ps` by names and expressions is the first
/// one among the props themselves.
pub proof fn lemma_flat_named(ps: Seq<ComponentProp>, n: Seq<char>)
    ensures
        flat_named(flat(ps), n) == crate::compose_components::named_expr(ps, n),
    decreases ps.len(),
{
    if ps.len() > 0 {
        assert(flat(ps.drop_first()) =~= flat(ps).drop_first());
        lemma_flat_named(ps.drop_first(), n);
    }
}

proof fn lemma_flat_index_first(fs: Seq<(Seq<char>, Seq<char>)>, n: Seq<char>, i: int)
    requires
        0 <= i < fs.len(),
        fs[i].0 == n,
        forall|k: int| 0 <= k < i ==> (#[trigger] fs[k]).0 != n,
    ensures
        flat_index(fs, n) == Some(i),
    decreases i,
{
    if i > 0 {
        assert(fs[0].0 != n);
        assert forall|k: int| 0 <= k < i - 1 implies (#[trigger] fs.drop_first()[k]).0 != n by {
            assert(fs.drop_first()[k] == fs[k + 1]);
        }
        lemma_flat_index_first(fs.drop_first(), n, i - 1);
    }
}

proof fn lemma_flat_index_none(fs: Seq<(Seq<char>, Seq<char>)>, n: Seq<char>)
    requires
        forall|k: int| 0 <= k < fs.len() ==> (#[trigger] fs[k]).0 != n,
    ensures
        flat_index(fs, n) is None,
    decreases fs.len(),
{
    if fs.len() > 0 {
        assert(fs[0].0 != n);
        assert forall|k: int| 0 <= k < fs.len() - 1 implies (#[trigger] fs.drop_first()[k]).0 != n by {
            assert(fs.drop_first()[k] == fs[k + 1]);
        }
        lemma_flat_index_none(fs.drop_first(), n);
    }
}

/// A handled background color leaves its props out of the other arguments.
proof fn lemma_background_handled(ps: Seq<ComponentProp>, cfg: crate::compose_modifiers::ModifierConfig, ctx: crate::compose_text::ExprContext)
    requires
        cfg.handle_background,
        crate::compose_modifiers::props_modifiers(ps, cfg, ctx) is Ok,
        crate::compose_modifiers::first_named(ps, "backgroundColor"@) is Some,
    ensures
        crate::compose_modifiers::props_modifiers(ps, cfg, ctx)->Ok_0.1.contains("backgroundColor"@),
{
    let r = crate::compose_modifiers::props_modifiers(ps, cfg, ctx);
    let h = r->Ok_0.1;
    assert(h.contains("backgroundColor"@)) by {
        let s0 = (Seq::<Seq<char>>::empty(), Seq::<Seq<char>>::empty());
        let s1 = if cfg.handle_fill_max || cfg.handle_size {
            crate::compose_modifiers::fill_step(
                ps,
                crate::compose_modifiers::fill_step(
                    ps,
                    crate::compose_modifiers::fill_step(ps, s0, "fillMaxSize"@),
                    "fillMaxWidth"@,
                ),
                "fillMaxHeight"@,
            )
        } else {
            s0
        };
        let s2 = if cfg.handle_size {
            crate::compose_modifiers::size_step(ps, crate::compose_modifiers::size_step(ps, s1, true), false)
        } else {
            s1
        };
        let p = crate::compose_modifiers::first_named(ps, "backgroundColor"@)->0;
        let x = crate::compose_modifiers::background_color(prop_expr(p.value))->Ok_0;
        let s3 = (s2.0.push(".background("@ + x + ")"@), s2.1.push("backgroundColor"@));
        assert(s3.1[s3.1.len() - 1] == "backgroundColor"@);
        let s4 = if cfg.handle_padding {
            crate::compose_modifiers::padding_step(ps, s3)
        } else {
            s3
        };
        assert(s4.1[s3.1.len() - 1] == "backgroundColor"@);
        if cfg.handle_click_as_modifier {
            match crate::compose_modifiers::first_named(ps, "onClick"@) {
                Some(_) => {
                    assert(s4.1.push("onClick"@)[s3.1.len() - 1] == "backgroundColor"@);
                },
                None => {},
            }
        }
    }
}


// ===================== Small pieces =====================

/// The index of the first of `ps` named `n`.
fn find_prop(ps: &Vec<ComponentProp>, n: &str) -> (r: Option<usize>)
    ensures
        match r {
            Some(i) => i < ps@.len() && flat_index(flat(ps@), n@) == Some(i as int),
            None => flat_index(flat(ps@), n@) is None,
        },
{
    let ghost fs = flat(ps@);
    let mut i: usize = 0;
    while i < ps.len()
        invariant
            i <= ps@.len(),
            fs == flat(ps@),
            forall|k: int| 0 <= k < i ==> (#[trigger] fs[k]).0 != n@,
        decreases ps.len() - i,
    {
        assert(fs[i as int] == (ps@[i as int].name@, prop_expr(ps@[i as int].value)));
        if str_eq(ps[i].name.as_str(), n) {
            proof {
                lemma_flat_index_first(fs, n@, i as int);
            }
            return Some(i);
        }
        i = i + 1;
    }
    proof {
        lemma_flat_index_none(fs, n@);
    }
    None
}

/// A copy of `ps` with the same names and expressions (markup values become
/// empty expressions).
fn copy_props(ps: &Vec<ComponentProp>) -> (r: Vec<ComponentProp>)
    ensures
        flat(r@) == flat(ps@),
{
    let mut r: Vec<ComponentProp> = Vec::new();
    let mut i: usize = 0;
    while i < ps.len()
        invariant
            i <= ps@.len(),
            flat(r@) == flat(ps@).take(i as int),
        decreases ps.len() - i,
    {
        let e = crate::compose_imports::get_prop_expr(&ps[i].value);
        let p = ComponentProp { name: lit(ps[i].name.as_str()), value: PropValue::Expression(e) };
        let ghost r0 = r@;
        r.push(p);
        proof {
            assert(flat(r@) =~= flat(r0).push((ps@[i as int].name@, prop_expr(ps@[i as int].value))));
            assert(flat(ps@).take(i + 1) =~= flat(ps@).take(i as int).push(flat(ps@)[i as int]));
        }
        i = i + 1;
    }
    proof {
        assert(flat(ps@).take(ps@.len() as int) =~= flat(ps@));
    }
    r
}

/// `s` without trailing white space.
fn trim_end_string(s: &String) -> (r: String)
    ensures
        r@ == trimmed_end(s@),
{
    let v = crate::text::str_to_chars(s.as_str());
    let mut b = v.len();
    while b > 0 && crate::text::is_whitespace(v[b - 1])
        invariant
            b <= v@.len(),
            v@ == s@,
            crate::text::trim_end_from(v@, 0, b as int) == crate::text::trim_end_from(
                v@,
                0,
                v@.len() as int,
            ),
        decreases b,
    {
        b = b - 1;
    }
    crate::text::string_from_range(v.as_slice(), 0, b)
}

/// The content alignment of a `Box`.
fn build_alignment(a: &String) -> (r: String)
    requires
        background_ok(a@),
    ensures
        r@ == alignment_value(a@),
{
    let v = crate::text::str_to_chars(a.as_str());
    if v.len() > 0 && v[0] == '"' && v[v.len() - 1] == '"' {
        let mut r = lit("Alignment.");
        let u = crate::recyclerview::to_uppercase(v[1]);
        push_string(&mut r, &u);
        let rest = crate::text::string_from_range(v.as_slice(), 2, v.len() - 1);
        push_string(&mut r, &rest);
        proof {
            let inner = a@.subrange(1, a@.len() - 1);
            assert(inner[0] == v@[1]);
            assert(inner.subrange(1, inner.len() as int) =~= v@.subrange(2, v@.len() - 1));
        }
        r
    } else {
        lit(a.as_str())
    }
}

/// `e` rewritten for the ViewModel wrapper of `g`.
fn in_context_of(g: &MarkupGen, e: &str) -> (r: String)
    requires
        g.ctx.names_ok(),
    ensures
        r@ == in_context(e@, g.ctx),
{
    crate::compose::transform_viewmodel_expression(
        e,
        g.ctx.in_viewmodel_wrapper,
        &g.ctx.mutable_vars,
        &g.ctx.derived_props,
        &g.ctx.function_names,
    )
}

/// Whether the loop over `coll` is to be rendered with a RecyclerView.
fn uses_recycler(opts: &Vec<Optimization>, coll: &String) -> (r: bool)
    ensures
        r == recycler_for(opts@, coll@),
{
    let mut i: usize = 0;
    while i < opts.len()
        invariant
            i <= opts@.len(),
            forall|k: int|
                0 <= k < i ==> !(#[trigger] opts@[k] matches Optimization::UseRecyclerView {
                    collection_name,
                    ..
                } && collection_name@ == coll@),
        decreases opts.len() - i,
    {
        match &opts[i] {
            Optimization::UseRecyclerView { collection_name, .. } => {
                if str_eq(collection_name.as_str(), coll.as_str()) {
                    return true;
                }
            },
            _ => {},
        }
        i = i + 1;
    }
    false
}

/// `out` followed by `ind + t + "\n"`.
fn push_ln(out: &mut String, ind: &String, t: &str)
    ensures
        final(out)@ == old(out)@ + ind@ + t@ + "\n"@,
{
    push_string(out, ind);
    push_lit(out, t);
    push_lit(out, "\n");
}

/// `out` followed by `ind + a + x + b + "\n"`.
fn push_ln_with(out: &mut String, ind: &String, a: &str, x: &String, b: &str)
    ensures
        final(out)@ == old(out)@ + ind@ + a@ + x@ + b@ + "\n"@,
{
    push_string(out, ind);
    push_lit(out, a);
    push_string(out, x);
    push_lit(out, b);
    push_lit(out, "\n");
}

#[verifier::rlimit(40)]
fn build_recycler_head(ind: &String, coll: &String) -> (r: String)
    ensures
        forall|n: nat| ind@ == indent_text(n as int) ==> r@ == recycler_head(n, coll@),
{
    proof {
        reveal_strlit("");
    }
    let mut out = String::new();
    push_ln(&mut out, ind, "AndroidView(");
    push_ln(&mut out, ind, "    factory = { context ->");
    push_ln(&mut out, ind, "        RecyclerView(context).apply {");
    push_ln(&mut out, ind, "            layoutManager = LinearLayoutManager(context)");
    push_ln(
        &mut out,
        ind,
        "            adapter = object : RecyclerView.Adapter<RecyclerView.ViewHolder>() {",
    );
    push_ln_with(&mut out, ind, "                override fun getItemCount() = ", coll, ".size");
    push_ln(&mut out, ind, "");
    proof {
        assert forall|n: nat| ind@ == indent_text(n as int) implies out@ == recycler_head(n, coll@) by {
            assert(out@ =~= recycler_head(n, coll@));
        }
    }
    out
}

#[verifier::rlimit(40)]
fn build_recycler_holder(ind: &String) -> (r: String)
    ensures
        forall|n: nat| ind@ == indent_text(n as int) ==> r@ == recycler_holder(n),
{
    proof {
        reveal_strlit("");
    }
    let mut out = String::new();
    push_ln(
        &mut out,
        ind,
        "                override fun onCreateViewHolder(parent: ViewGroup, viewType: Int): RecyclerView.ViewHolder {",
    );
    push_ln(&mut out, ind, "                    val view = TextView(parent.context).apply {");
    push_ln(&mut out, ind, "                        layoutParams = ViewGroup.LayoutParams(");
    push_ln(&mut out, ind, "                            ViewGroup.LayoutParams.MATCH_PARENT,");
    push_ln(&mut out, ind, "                            ViewGroup.LayoutParams.WRAP_CONTENT");
    push_ln(&mut out, ind, "                        )");
    push_ln(
        &mut out,
        ind,
        "                        setPadding(16.dpToPx(), 16.dpToPx(), 16.dpToPx(), 16.dpToPx())",
    );
    push_ln(&mut out, ind, "                    }");
    push_ln(&mut out, ind, "                    return object : RecyclerView.ViewHolder(view) {}");
    push_ln(&mut out, ind, "                }");
    push_ln(&mut out, ind, "");
    proof {
        assert forall|n: nat| ind@ == indent_text(n as int) implies out@ == recycler_holder(n) by {
            assert(out@ =~= recycler_holder(n));
        }
    }
    out
}

#[verifier::rlimit(40)]
fn build_recycler_binding(ind: &String, coll: &String, item: &String) -> (r: String)
    ensures
        forall|n: nat| ind@ == indent_text(n as int) ==> r@ == recycler_binding(n, coll@, item@),
{
    let mut out = String::new();
    push_ln(
        &mut out,
        ind,
        "                override fun onBindViewHolder(holder: RecyclerView.ViewHolder, position: Int) {",
    );
    push_string(&mut out, ind);
    push_lit(&mut out, "                    val ");
    push_string(&mut out, item);
    push_lit(&mut out, " = ");
    push_string(&mut out, coll);
    push_lit(&mut out, "[position]");
    push_lit(&mut out, "\n");
    push_ln(&mut out, ind, "                    val textView = holder.itemView as TextView");
    push_ln_with(&mut out, ind, "                    textView.text = ", item, ".toString()");
    push_ln(&mut out, ind, "                }");
    push_ln(&mut out, ind, "            }");
    push_ln(&mut out, ind, "        }");
    push_ln(&mut out, ind, "    }");
    push_ln(&mut out, ind, ")");
    proof {
        assert forall|n: nat| ind@ == indent_text(n as int) implies out@ == recycler_binding(
            n,
            coll@,
            item@,
        ) by {
            assert(out@ =~= recycler_binding(n, coll@, item@));
        }
    }
    out
}

fn build_recycler_helper(ind: &String) -> (r: String)
    ensures
        forall|n: nat| ind@ == indent_text(n as int) ==> r@ == recycler_helper(n),
{
    proof {
        reveal_strlit("");
    }
    let mut out = String::new();
    push_ln(&mut out, ind, "");
    push_ln(&mut out, ind, "// Extension for DP to PX conversion");
    push_ln(&mut out, ind, "private fun Int.dpToPx(): Int {");
    push_ln(&mut out, ind, "    val density = Resources.getSystem().displayMetrics.density");
    push_ln(&mut out, ind, "    return (this * density).toInt()");
    push_ln(&mut out, ind, "}");
    proof {
        assert forall|n: nat| ind@ == indent_text(n as int) implies out@ == recycler_helper(n) by {
            assert(out@ =~= recycler_helper(n));
        }
    }
    out
}

/// A loop of `item` over `coll` at level `indent` as an `AndroidView`
/// holding a RecyclerView.
pub fn generate_recyclerview_inline(for_loop: &ForLoopBlock, indent: usize) -> (r: Result<
    String,
    String,
>)
    ensures
        rendered(r, Ok(recycler_inline(for_loop.collection@, for_loop.item@, indent as nat))),
{
    let ind = crate::compose_text::indent_string(indent);
    let mut out = build_recycler_head(&ind, &for_loop.collection);
    let h = build_recycler_holder(&ind);
    push_string(&mut out, &h);
    let b = build_recycler_binding(&ind, &for_loop.collection, &for_loop.item);
    push_string(&mut out, &b);
    let x = build_recycler_helper(&ind);
    push_string(&mut out, &x);
    Ok(out)
}

/// The key of a loop in a `LazyColumn`.
fn build_lazy_key(k: &Option<String>) -> (r: String)
    ensures
        r@ == lazy_key(*k),
{
    match k {
        Some(k) => {
            let mut r = lit(", key = ");
            let t = crate::text::trim_str(k.as_str());
            if crate::text::str_starts_with(t.as_str(), "{") {
                push_string(&mut r, k);
            } else {
                push_lit(&mut r, "{ ");
                push_string(&mut r, k);
                push_lit(&mut r, " }");
            }
            r
        },
        None => {
            proof {
                reveal_strlit("");
            }
            String::new()
        },
    }
}

/// The argument of content prop `p` of component `n` given as expression
/// `e`.
fn build_slot_expr(n: &str, p: &String, e: &String) -> (r: String)
    ensures
        r@ == slot_expr(n@, p@, e@),
{
    let mut r = lit(p.as_str());
    if str_eq(n, "Scaffold") || (str_eq(n, "AlertDialog") && (str_eq(p.as_str(), "confirmButton")
        || str_eq(p.as_str(), "dismissButton"))) {
        push_lit(&mut r, " = ");
        push_string(&mut r, e);
    } else {
        push_lit(&mut r, " = { Text(");
        push_string(&mut r, e);
        push_lit(&mut r, ") }");
    }
    r
}

/// Whether prop `p` of component `n` takes composable content.
fn is_slot_of(n: &str, p: &str) -> (r: bool)
    ensures
        r == is_slot(n@, p@),
{
    (str_eq(n, "Scaffold") && str_eq(p, "topBar")) || (str_eq(n, "TopAppBar") && str_eq(p, "title"))
        || (str_eq(n, "AlertDialog") && (str_eq(p, "title") || str_eq(p, "text") || str_eq(
        p,
        "confirmButton",
    ) || str_eq(p, "dismissButton"))) || (str_eq(n, "Tab") && str_eq(p, "text")) || (str_eq(
        n,
        "FilterChip",
    ) && str_eq(p, "label"))
}

/// The arguments of component `n` with no content props.
fn build_plain_params(g: &MarkupGen, comp: &Component, p0: Vec<String>) -> (r: Result<
    Vec<String>,
    String,
>)
    requires
        g.ctx.names_ok(),
        props_fine(*g, comp.name@, comp.props@),
        comp.name@ == "Image"@ ==> image_fine(comp.props@),
        comp.name@ == "AsyncImage"@ ==> async_image_fine(comp.props@),
    ensures
        match (r, plain_params(*g, comp.name@, comp.props@, strs(p0@))) {
            (Ok(a), Ok(b)) => strs(a@) == b,
            (Err(a), Err(b)) => a@ == b,
            _ => false,
        },
{
    let n = comp.name.as_str();
    if str_eq(n, "Spacer") {
        crate::compose_components::build_spacer_params(g, &comp.props)
    } else if str_eq(n, "Image") {
        crate::compose_components::build_image_params(g, &comp.props)
    } else if str_eq(n, "Text") || str_eq(n, "Card") || str_eq(n, "Button") {
        crate::compose_components::build_text_like_params(g, comp, p0)
    } else if str_eq(n, "AsyncImage") {
        crate::compose_components::build_async_image_params(g, &comp.props)
    } else if str_eq(n, "Icon") {
        let skip: Vec<String> = Vec::new();
        proof {
            assert(strs(skip@) =~= Seq::<Seq<char>>::empty());
        }
        crate::compose_components::build_prop_lines(g, "Icon", &comp.props, &skip)
    } else {
        crate::compose_components::build_generic_params(g, comp)
    }
}


proof fn lemma_first_named_some(ps: Seq<ComponentProp>, n: Seq<char>, i: int)
    requires
        0 <= i < ps.len(),
        ps[i].name@ == n,
    ensures
        crate::compose_modifiers::first_named(ps, n) is Some,
    decreases i,
{
    if i > 0 && ps[0].name@ != n {
        assert(ps.drop_first()[i - 1] == ps[i]);
        lemma_first_named_some(ps.drop_first(), n, i - 1);
    }
}

/// A layout component reads any prop but its background color as it is.
proof fn lemma_layout_prop_free(g: MarkupGen, n: Seq<char>, p: Seq<char>, v: Seq<char>)
    requires
        is_layout_name(n),
        p != "backgroundColor"@,
    ensures
        g.fine(n, p, v),
{
    reveal_strlit("Column");
    reveal_strlit("Row");
    reveal_strlit("Box");
    reveal_strlit("TextField");
    reveal_strlit("OutlinedTextField");
    reveal_strlit("Text");
    reveal_strlit("Card");
    assert("Column"@.len() == 6 && "Row"@.len() == 3 && "Box"@.len() == 3);
    assert("TextField"@.len() == 9 && "OutlinedTextField"@.len() == 17);
    assert("Text"@.len() == 4 && "Card"@.len() == 4);
    assert(n.len() == 6 || n.len() == 3);
    assert(n != "TextField"@);
    assert(n != "OutlinedTextField"@);
    assert(n != "Text"@);
    assert(n != "Card"@);
}

/// Layout names are not those of components with their own children rules.
proof fn lemma_layout_names(n: Seq<char>)
    requires
        is_layout_name(n),
    ensures
        n != "Scaffold"@,
        n != "Text"@,
{
    reveal_strlit("Column");
    reveal_strlit("Row");
    reveal_strlit("Box");
    reveal_strlit("Scaffold");
    reveal_strlit("Text");
    assert("Column"@.len() == 6 && "Row"@.len() == 3 && "Box"@.len() == 3);
    assert("Scaffold"@.len() == 8 && "Text"@.len() == 4);
    assert(n.len() == 6 || n.len() == 3);
    assert(n != "Scaffold"@);
    assert(n != "Text"@);
}

/// Whether `m` is a layout component.
fn is_layout_of(m: &Markup) -> (r: bool)
    ensures
        r == is_layout_markup(*m),
{
    match m {
        Markup::Component(c) => {
            let n = c.name.as_str();
            str_eq(n, "Column") || str_eq(n, "Row") || str_eq(n, "Box")
        },
        _ => false,
    }
}

/// The code of the items of `items` from `start` on, at level `indent`
/// inside `parent`.
fn generate_items(
    g: &MarkupGen,
    st: &mut MarkupState,
    items: &Vec<Markup>,
    start: usize,
    indent: usize,
    parent: Option<&str>,
) -> (r: Result<String, String>)
    requires
        g.ctx.names_ok(),
        start <= items@.len(),
        items_fine(*g, items@.subrange(start as int, items@.len() as int), indent as nat),
    ensures
        rendered(
            r,
            items_code(
                *g,
                *old(st),
                items@.subrange(start as int, items@.len() as int),
                indent as nat,
                parent_view(parent),
            ).0,
        ),
        *final(st) == items_code(
            *g,
            *old(st),
            items@.subrange(start as int, items@.len() as int),
            indent as nat,
            parent_view(parent),
        ).1,
    decreases items@, 0nat,
{
    let ghost ms = items@.subrange(start as int, items@.len() as int);
    let ghost st0 = *st;
    let ghost pv = parent_view(parent);
    proof {
        lemma_items_fine(*g, ms, indent as nat);
        assert(ms.take(0) =~= Seq::<Markup>::empty());
    }
    let mut out = String::new();
    let mut i = start;
    while i < items.len()
        invariant
            start <= i <= items@.len(),
            ms == items@.subrange(start as int, items@.len() as int),
            g.ctx.names_ok(),
            forall|k: int| 0 <= k < ms.len() ==> markup_fine(*g, #[trigger] ms[k], indent as nat),
            items_code(*g, st0, ms.take(i - start), indent as nat, pv) == (
                Ok::<Seq<char>, Seq<char>>(out@),
                *st,
            ),
            pv == parent_view(parent),
            st0 == *old(st),
        decreases items.len() - i,
    {
        proof {
            assert(ms[i - start] == items@[i as int]);
            assert(ms.take(i - start + 1).drop_last() =~= ms.take(i - start));
            assert(ms.take(i - start + 1).last() == items@[i as int]);
        }
        let ghost o0 = out@;
        match generate_markup_with_context(g, st, &items[i], indent, parent) {
            Err(e) => {
                proof {
                    let k = i - start + 1;
                    let a = items_code(*g, st0, ms.take(k - 1), indent as nat, pv);
                    assert(a.0 == Ok::<Seq<char>, Seq<char>>(o0));
                    assert(items_code(*g, st0, ms.take(k), indent as nat, pv) == framed(
                        o0,
                        markup_code(*g, a.1, items@[i as int], indent as nat, pv),
                        Seq::empty(),
                    ));
                    assert(items_code(*g, st0, ms.take(k), indent as nat, pv).0 is Err);
                    lemma_items_err(*g, st0, ms, indent as nat, pv, k);
                    assert(rendered(Err(e), items_code(*g, st0, ms.take(k), indent as nat, pv).0));
                    assert(rendered(Err(e), items_code(*g, st0, ms, indent as nat, pv).0));
                    assert(*st == items_code(*g, st0, ms, indent as nat, pv).1);
                }
                return Err(e);
            },
            Ok(x) => {
                push_string(&mut out, &x);
                proof {
                    assert(out@ =~= o0 + x@ + Seq::<char>::empty());
                }
            },
        }
        i = i + 1;
    }
    proof {
        assert(ms.take(items@.len() - start) =~= ms);
    }
    Ok(out)
}

/// Markup `markup` at level `indent` inside `parent` as Kotlin.
pub fn generate_markup_with_context(
    g: &MarkupGen,
    st: &mut MarkupState,
    markup: &Markup,
    indent: usize,
    parent: Option<&str>,
) -> (r: Result<String, String>)
    requires
        g.ctx.names_ok(),
        markup_fine(*g, *markup, indent as nat),
    ensures
        rendered(r, markup_code(*g, *old(st), *markup, indent as nat, parent_view(parent)).0),
        *final(st) == markup_code(*g, *old(st), *markup, indent as nat, parent_view(parent)).1,
    decreases *markup, 1nat,
{
    match markup {
        Markup::Text(t) => {
            let ind = crate::compose_text::indent_string(indent);
            let in_button = match parent {
                Some(p) => str_eq(p, "Button"),
                None => false,
            };
            let body = if in_button {
                crate::text::trim_str(t.as_str())
            } else {
                lit(t.as_str())
            };
            let mut out = lit(ind.as_str());
            push_lit(&mut out, "Text(text = \"");
            push_string(&mut out, &body);
            push_lit(&mut out, "\")\n");
            proof {
                assert(out@ =~= indent_text(indent as int) + "Text(text = \""@ + body@ + "\")\n"@);
            }
            Ok(out)
        },
        Markup::Interpolation(e) => {
            let ind = crate::compose_text::indent_string(indent);
            let x = crate::compose::transform_ternary_to_if_else(e.as_str());
            let mut out = lit(ind.as_str());
            push_lit(&mut out, "Text(text = $");
            push_string(&mut out, &x);
            push_lit(&mut out, ")\n");
            proof {
                assert(out@ =~= indent_text(indent as int) + "Text(text = $"@ + x@ + ")\n"@);
            }
            Ok(out)
        },
        Markup::Sequence(items) => {
            proof {
                assert(items@.subrange(0, items@.len() as int) =~= items@);
            }
            generate_items(g, st, items, 0, indent, None)
        },
        Markup::IfElse(b) => generate_if_else(g, st, b, indent),
        Markup::ForLoop(f) => generate_for_loop(g, st, f, indent, parent),
        Markup::When(w) => {
            let ind = crate::compose_text::indent_string(indent);
            match generate_whens(g, st, &w.branches, indent) {
                Err(e) => Err(e),
                Ok(x) => {
                    let mut out = lit(ind.as_str());
                    push_lit(&mut out, "when {\n");
                    push_string(&mut out, &x);
                    push_string(&mut out, &ind);
                    push_lit(&mut out, "}\n");
                    proof {
                        assert(out@ =~= indent_text(indent as int) + "when {\n"@ + x@ + (
                        indent_text(indent as int) + "}\n"@));
                    }
                    Ok(out)
                },
            }
        },
        Markup::Component(c) => generate_component(g, st, c, indent),
    }
}

/// An `@if` block at level `indent`.
fn generate_if_else(g: &MarkupGen, st: &mut MarkupState, b: &IfElseBlock, indent: usize) -> (r:
    Result<String, String>)
    requires
        g.ctx.names_ok(),
        if_else_fine(*g, *b, indent as nat),
    ensures
        rendered(r, if_else_code(*g, *old(st), *b, indent as nat).0),
        *final(st) == if_else_code(*g, *old(st), *b, indent as nat).1,
    decreases *b, 0nat,
{
    proof {
        assert(b.then_branch@.subrange(0, b.then_branch@.len() as int) =~= b.then_branch@);
    }
    let ind = crate::compose_text::indent_string(indent);
    let tc = match generate_items(g, st, &b.then_branch, 0, indent + 1, None) {
        Err(e) => {
            return Err(e);
        },
        Ok(x) => x,
    };
    let cond = in_context_of(g, b.condition.as_str());
    let mut out = lit(ind.as_str());
    push_lit(&mut out, "if (");
    push_string(&mut out, &cond);
    push_lit(&mut out, ") {\n");
    push_string(&mut out, &tc);
    push_string(&mut out, &ind);
    push_lit(&mut out, "}");
    let ec = match generate_else_ifs(g, st, &b.else_ifs, indent) {
        Err(e) => {
            return Err(e);
        },
        Ok(x) => x,
    };
    let ghost head = out@;
    proof {
        assert(head =~= indent_text(indent as int) + "if ("@ + cond@ + ") {\n"@ + tc@ + indent_text(
            indent as int,
        ) + "}"@);
    }
    push_string(&mut out, &ec);
    match &b.else_branch {
        None => {
            push_lit(&mut out, "\n");
            proof {
                assert(out@ =~= head + ec@ + "\n"@);
            }
            Ok(out)
        },
        Some(eb) => {
            proof {
                assert(eb@.subrange(0, eb@.len() as int) =~= eb@);
            }
            push_lit(&mut out, " else {\n");
            match generate_items(g, st, eb, 0, indent + 1, None) {
                Err(e) => Err(e),
                Ok(x) => {
                    push_string(&mut out, &x);
                    push_string(&mut out, &ind);
                    push_lit(&mut out, "}\n");
                    proof {
                        assert(out@ =~= head + ec@ + " else {\n"@ + x@ + (indent_text(indent as int)
                            + "}\n"@));
                    }
                    Ok(out)
                },
            }
        },
    }
}

/// The `else if` branches of an `@if` block at level `indent`.
#[verifier::spinoff_prover]
fn generate_else_ifs(
    g: &MarkupGen,
    st: &mut MarkupState,
    bs: &Vec<ElseIfBranch>,
    indent: usize,
) -> (r: Result<String, String>)
    requires
        g.ctx.names_ok(),
        indent + 1 <= usize::MAX,
        else_ifs_fine(*g, bs@, indent as nat + 1),
    ensures
        rendered(r, else_ifs_code(*g, *old(st), bs@, indent as nat).0),
        *final(st) == else_ifs_code(*g, *old(st), bs@, indent as nat).1,
    decreases bs@, 0nat,
{
    let ghost st0 = *st;
    let ind = crate::compose_text::indent_string(indent);
    let mut out = String::new();
    let mut i: usize = 0;
    proof {
        assert(bs@.take(0) =~= Seq::<ElseIfBranch>::empty());
    }
    while i < bs.len()
        invariant
            i <= bs@.len(),
            g.ctx.names_ok(),
            indent + 1 <= usize::MAX,
            ind@ == indent_text(indent as int),
            else_ifs_fine(*g, bs@, indent as nat + 1),
            st0 == *old(st),
            else_ifs_code(*g, st0, bs@.take(i as int), indent as nat) == (
                Ok::<Seq<char>, Seq<char>>(out@),
                *st,
            ),
        decreases bs.len() - i,
    {
        let br = &bs[i];
        proof {
            lemma_else_ifs_fine_at(*g, bs@, indent as nat + 1, i as int);
            assert(bs@.take(i + 1).drop_last() =~= bs@.take(i as int));
            assert(bs@.take(i + 1).last() == bs@[i as int]);
            assert(br.body@.subrange(0, br.body@.len() as int) =~= br.body@);
        }
        let cond = in_context_of(g, br.condition.as_str());
        let ghost o0 = out@;
        let ghost s0 = *st;
        match generate_items(g, st, &br.body, 0, indent + 1, None) {
            Err(e) => {
                proof {
                    lemma_else_ifs_err(*g, st0, bs@, indent as nat, i + 1);
                }
                return Err(e);
            },
            Ok(x) => {
                push_lit(&mut out, " else if (");
                push_string(&mut out, &cond);
                push_lit(&mut out, ") {\n");
                push_string(&mut out, &x);
                push_string(&mut out, &ind);
                push_lit(&mut out, "}");
                proof {
                    assert(out@ =~= (o0 + " else if ("@ + cond@ + ") {\n"@) + x@ + (indent_text(
                        indent as int,
                    ) + "}"@));
                    assert(else_ifs_code(*g, st0, bs@.take(i + 1), indent as nat) == framed(
                        o0 + " else if ("@ + cond@ + ") {\n"@,
                        items_code(*g, s0, br.body@, indent as nat + 1, None),
                        indent_text(indent as int) + "}"@,
                    ));
                    assert(items_code(*g, s0, br.body@, indent as nat + 1, None) == (
                        Ok::<Seq<char>, Seq<char>>(x@),
                        *st,
                    ));
                    assert(else_ifs_code(*g, st0, bs@.take(i + 1), indent as nat) == (
                        Ok::<Seq<char>, Seq<char>>(out@),
                        *st,
                    ));
                }
            },
        }
        i = i + 1;
    }
    proof {
        assert(bs@.take(bs@.len() as int) =~= bs@);
    }
    Ok(out)
}

/// A `@for` loop at level `indent` inside `parent`.
fn generate_for_loop(
    g: &MarkupGen,
    st: &mut MarkupState,
    f: &ForLoopBlock,
    indent: usize,
    parent: Option<&str>,
) -> (r: Result<String, String>)
    requires
        g.ctx.names_ok(),
        for_loop_fine(*g, *f, indent as nat),
    ensures
        rendered(r, for_loop_code(*g, *old(st), *f, indent as nat, parent_view(parent)).0),
        *final(st) == for_loop_code(*g, *old(st), *f, indent as nat, parent_view(parent)).1,
    decreases *f, 2nat,
{
    let lazy = match parent {
        Some(p) => str_eq(p, "LazyColumn"),
        None => false,
    };
    if lazy {
        return generate_lazy(g, st, f, indent);
    }
    if uses_recycler(&g.optimizations, &f.collection) {
        return generate_recyclerview_inline(f, indent);
    }
    generate_for_each(g, st, f, indent)
}

/// A loop in a `LazyColumn` at level `indent`.
fn generate_lazy(g: &MarkupGen, st: &mut MarkupState, f: &ForLoopBlock, indent: usize) -> (r:
    Result<String, String>)
    requires
        g.ctx.names_ok(),
        for_loop_fine(*g, *f, indent as nat),
    ensures
        rendered(r, lazy_code(*g, *old(st), *f, indent as nat).0),
        *final(st) == lazy_code(*g, *old(st), *f, indent as nat).1,
    decreases *f, 1nat,
{
    proof {
        assert(f.body@.subrange(0, f.body@.len() as int) =~= f.body@);
    }
    let ind = crate::compose_text::indent_string(indent);
    let coll = in_context_of(g, f.collection.as_str());
    let key = build_lazy_key(&f.key_expr);
    let mut out = lit(ind.as_str());
    push_lit(&mut out, "items(");
    push_string(&mut out, &coll);
    push_string(&mut out, &key);
    push_lit(&mut out, ") { ");
    push_string(&mut out, &f.item);
    push_lit(&mut out, " ->\n");
    let ghost pre = out@;
    proof {
        assert(pre =~= ind@ + "items("@ + coll@ + key@ + ") { "@ + f.item@ + " ->\n"@);
    }
    match generate_items(g, st, &f.body, 0, indent + 1, None) {
        Err(e) => {
            return Err(e);
        },
        Ok(x) => {
            push_string(&mut out, &x);
            push_string(&mut out, &ind);
            push_lit(&mut out, "}\n");
            proof {
                assert(out@ =~= pre + x@ + (ind@ + "}\n"@));
            }
            return Ok(out);
        },
    }
}

/// A loop at level `indent` as `forEach`.
fn generate_for_each(g: &MarkupGen, st: &mut MarkupState, f: &ForLoopBlock, indent: usize) -> (r:
    Result<String, String>)
    requires
        g.ctx.names_ok(),
        for_loop_fine(*g, *f, indent as nat),
    ensures
        rendered(r, for_each_code(*g, *old(st), *f, indent as nat).0),
        *final(st) == for_each_code(*g, *old(st), *f, indent as nat).1,
    decreases *f, 1nat,
{
    if f.empty_block.is_some() {
        generate_for_each_else(g, st, f, indent)
    } else {
        generate_for_each_plain(g, st, f, indent)
    }
}

/// A loop at level `indent` as `forEach` without an empty block.
#[verifier::spinoff_prover]
#[verifier::rlimit(100)]
fn generate_for_each_else(g: &MarkupGen, st: &mut MarkupState, f: &ForLoopBlock, indent: usize) -> (r:
    Result<String, String>)
    requires
        g.ctx.names_ok(),
        for_loop_fine(*g, *f, indent as nat),
        f.empty_block is Some,
    ensures
        rendered(r, for_each_code(*g, *old(st), *f, indent as nat).0),
        *final(st) == for_each_code(*g, *old(st), *f, indent as nat).1,
    decreases *f, 0nat,
{
    proof {
        assert(f.body@.subrange(0, f.body@.len() as int) =~= f.body@);
        reveal_strlit("it");
    }
    let ind = crate::compose_text::indent_string(indent);
    let coll = in_context_of(g, f.collection.as_str());
    match &f.empty_block {
        Some(eb) => {
            proof {
                assert(eb@.subrange(0, eb@.len() as int) =~= eb@);
            }
            let ec = match generate_items(g, st, eb, 0, indent + 1, None) {
                Err(e) => {
                    return Err(e);
                },
                Ok(x) => x,
            };
            let mut out = lit(ind.as_str());
            push_lit(&mut out, "if (");
            push_string(&mut out, &coll);
            push_lit(&mut out, ".isEmpty()) {\n");
            push_string(&mut out, &ec);
            push_string(&mut out, &ind);
            push_lit(&mut out, "}");
            push_lit(&mut out, " else {\n");
            push_string(&mut out, &ind);
            push_lit(&mut out, "    ");
            push_string(&mut out, &coll);
            push_lit(&mut out, ".forEach { ");
            push_string(&mut out, &f.item);
            push_lit(&mut out, " ->\n");
            let ghost head = out@;
            proof {
                assert(head =~= ind@ + "if ("@ + coll@ + ".isEmpty()) {\n"@ + ec@ + ind@ + "}"@
                    + " else {\n"@ + ind@ + "    "@ + coll@ + ".forEach { "@ + f.item@ + " ->\n"@);
            }
            match &f.key_expr {
                Some(k) => {
                    let kk = crate::compose::replace_all(k.as_str(), "it", f.item.as_str());
                    push_string(&mut out, &ind);
                    push_lit(&mut out, "        key(");
                    push_string(&mut out, &kk);
                    push_lit(&mut out, ") {\n");
                    let ghost kp = out@;
                    match generate_items(g, st, &f.body, 0, indent + 3, None) {
                        Err(e) => {
                            return Err(e);
                        },
                        Ok(x) => {
                            push_string(&mut out, &x);
                            push_string(&mut out, &ind);
                            push_lit(&mut out, "        }\n");
                            proof {
                                assert(kp =~= head + (ind@ + "        key("@ + kk@ + ") {\n"@));
                                assert(out@ =~= head + ((ind@ + "        key("@ + kk@ + ") {\n"@)
                                    + x@ + (ind@ + "        }\n"@)));
                            }
                        },
                    }
                },
                None => {
                    match generate_items(g, st, &f.body, 0, indent + 2, None) {
                        Err(e) => {
                            return Err(e);
                        },
                        Ok(x) => {
                            push_string(&mut out, &x);
                            proof {
                                assert(out@ =~= head + x@);
                            }
                        },
                    }
                },
            }
            let ghost mid = out@;
            push_string(&mut out, &ind);
            push_lit(&mut out, "    }\n");
            push_string(&mut out, &ind);
            push_lit(&mut out, "}\n");
            proof {
                assert(out@ =~= mid + (ind@ + "    }\n"@ + ind@ + "}\n"@));
            }
            Ok(out)
        },
        None => {
            Err(String::new())
        },
    }
}

/// A loop at level `indent` as `forEach` with an empty block.
#[verifier::spinoff_prover]
#[verifier::rlimit(100)]
fn generate_for_each_plain(g: &MarkupGen, st: &mut MarkupState, f: &ForLoopBlock, indent: usize) -> (r:
    Result<String, String>)
    requires
        g.ctx.names_ok(),
        for_loop_fine(*g, *f, indent as nat),
        f.empty_block is None,
    ensures
        rendered(r, for_each_code(*g, *old(st), *f, indent as nat).0),
        *final(st) == for_each_code(*g, *old(st), *f, indent as nat).1,
    decreases *f, 0nat,
{
    proof {
        assert(f.body@.subrange(0, f.body@.len() as int) =~= f.body@);
        reveal_strlit("it");
    }
    let ind = crate::compose_text::indent_string(indent);
    let coll = in_context_of(g, f.collection.as_str());
    match &f.empty_block {
        None => {
            let mut out = lit(ind.as_str());
            push_string(&mut out, &coll);
            push_lit(&mut out, ".forEach { ");
            push_string(&mut out, &f.item);
            push_lit(&mut out, " ->\n");
            let ghost head = out@;
            proof {
                assert(head =~= ind@ + coll@ + ".forEach { "@ + f.item@ + " ->\n"@);
            }
            match &f.key_expr {
                Some(k) => {
                    let kk = crate::compose::replace_all(k.as_str(), "it", f.item.as_str());
                    push_string(&mut out, &ind);
                    push_lit(&mut out, "    key(");
                    push_string(&mut out, &kk);
                    push_lit(&mut out, ") {\n");
                    match generate_items(g, st, &f.body, 0, indent + 2, None) {
                        Err(e) => {
                            return Err(e);
                        },
                        Ok(x) => {
                            push_string(&mut out, &x);
                            push_string(&mut out, &ind);
                            push_lit(&mut out, "    }\n");
                            proof {
                                assert(out@ =~= head + ((ind@ + "    key("@ + kk@ + ") {\n"@) + x@
                                    + (ind@ + "    }\n"@)));
                            }
                        },
                    }
                },
                None => {
                    match generate_items(g, st, &f.body, 0, indent + 1, None) {
                        Err(e) => {
                            return Err(e);
                        },
                        Ok(x) => {
                            push_string(&mut out, &x);
                            proof {
                                assert(out@ =~= head + x@);
                            }
                        },
                    }
                },
            }
            let ghost mid = out@;
            push_string(&mut out, &ind);
            push_lit(&mut out, "}\n");
            proof {
                assert(out@ =~= mid + (ind@ + "}\n"@));
            }
            Ok(out)
        },
        Some(_) => {
            Err(String::new())
        },
    }
}

/// The branches of a `@when` block at level `indent`.
fn generate_whens(g: &MarkupGen, st: &mut MarkupState, bs: &Vec<WhenBranch>, indent: usize) -> (r:
    Result<String, String>)
    requires
        g.ctx.names_ok(),
        whens_fine(*g, bs@),
    ensures
        rendered(r, whens_code(*g, *old(st), bs@, indent as nat).0),
        *final(st) == whens_code(*g, *old(st), bs@, indent as nat).1,
    decreases bs@, 0nat,
{
    let ghost st0 = *st;
    let ind = crate::compose_text::indent_string(indent);
    let mut out = String::new();
    let mut i: usize = 0;
    proof {
        assert(bs@.take(0) =~= Seq::<WhenBranch>::empty());
    }
    while i < bs.len()
        invariant
            i <= bs@.len(),
            g.ctx.names_ok(),
            ind@ == indent_text(indent as int),
            whens_fine(*g, bs@),
            st0 == *old(st),
            whens_code(*g, st0, bs@.take(i as int), indent as nat) == (
                Ok::<Seq<char>, Seq<char>>(out@),
                *st,
            ),
        decreases bs.len() - i,
    {
        let br = &bs[i];
        proof {
            lemma_whens_fine_at(*g, bs@, i as int);
            assert(bs@.take(i + 1).drop_last() =~= bs@.take(i as int));
            assert(bs@.take(i + 1).last() == bs@[i as int]);
        }
        let mut head = lit(ind.as_str());
        push_lit(&mut head, "    ");
        match &br.condition {
            Some(c) => {
                push_string(&mut head, c);
                push_lit(&mut head, " -> ");
            },
            None => {
                push_lit(&mut head, "else -> ");
            },
        }
        let ghost s0 = *st;
        let ghost w0 = out@;
        match generate_markup_with_context(g, st, &br.body, 0, None) {
            Err(e) => {
                proof {
                    lemma_whens_err(*g, st0, bs@, indent as nat, i + 1);
                }
                return Err(e);
            },
            Ok(y) => {
                let t = crate::text::trim_str(y.as_str());
                let ghost o0 = out@;
                push_string(&mut out, &head);
                push_string(&mut out, &t);
                push_lit(&mut out, "\n");
                proof {
                    assert(out@ =~= o0 + head@ + t@ + "\n"@);
                    assert(head@ == indent_text(indent as int) + "    "@ + match bs@[i as int].condition {
                        Some(c) => c@ + " -> "@,
                        None => "else -> "@,
                    });
                    assert(whens_code(*g, st0, bs@.take(i + 1), indent as nat).0 == Ok::<
                        Seq<char>,
                        Seq<char>,
                    >(w0 + head@ + spec_trim(y@) + "\n"@));
                }
            },
        }
        i = i + 1;
    }
    proof {
        assert(bs@.take(bs@.len() as int) =~= bs@);
    }
    Ok(out)
}

/// The arguments of component `comp` (at level `indent`) that has content
/// props.
fn generate_slot_params(g: &MarkupGen, st: &mut MarkupState, comp: &Component, indent: usize) -> (r:
    Result<Vec<String>, String>)
    requires
        g.ctx.names_ok(),
        indent + 2 <= usize::MAX,
        props_fine(*g, comp.name@, comp.props@),
        slots_fine(*g, comp.props@, indent as nat),
    ensures
        match (r, slot_params(*g, *old(st), comp.name@, comp.props@, indent as nat).0) {
            (Ok(a), Ok(b)) => strs(a@) == b,
            (Err(a), Err(b)) => a@ == b,
            _ => false,
        },
        *final(st) == slot_params(*g, *old(st), comp.name@, comp.props@, indent as nat).1,
    decreases *comp, 0nat,
{
    let n = comp.name.as_str();
    let ghost ps = comp.props@;
    let ghost st0 = *st;
    let mut acc: Vec<String> = Vec::new();
    let mut i: usize = 0;
    proof {
        assert(ps.take(0) =~= Seq::<ComponentProp>::empty());
        assert(strs(acc@) =~= Seq::<Seq<char>>::empty());
    }
    while i < comp.props.len()
        invariant
            i <= ps.len(),
            ps == comp.props@,
            n@ == comp.name@,
            g.ctx.names_ok(),
            indent + 2 <= usize::MAX,
            props_fine(*g, comp.name@, comp.props@),
            slots_fine(*g, comp.props@, indent as nat),
            st0 == *old(st),
            slot_params(*g, st0, n@, ps.take(i as int), indent as nat) == (
                Ok::<Seq<Seq<char>>, Seq<char>>(strs(acc@)),
                *st,
            ),
        decreases ps.len() - i,
    {
        let p = &comp.props[i];
        proof {
            lemma_slots_fine_at(*g, ps, indent as nat, i as int);
            assert(ps.take(i + 1).drop_last() =~= ps.take(i as int));
            assert(ps.take(i + 1).last() == ps[i as int]);
        }
        let ghost a0 = strs(acc@);
        if is_slot_of(n, p.name.as_str()) {
            match &p.value {
                PropValue::Expression(e) => {
                    acc.push(build_slot_expr(n, &p.name, e));
                    proof {
                        assert(strs(acc@) =~= a0.push(slot_expr(n@, p.name@, e@)));
                    }
                },
                PropValue::Markup(b) => {
                    if str_eq(n, "TopAppBar") {
                        match generate_markup_with_context(g, st, &**b, indent + 1, None) {
                            Err(e) => {
                                proof {
                                    lemma_slots_err(*g, st0, n@, ps, indent as nat, i + 1);
                                }
                                return Err(e);
                            },
                            Ok(code) => {
                                let t = trim_end_string(&code);
                                let mut line = lit("title = {\n");
                                push_string(&mut line, &t);
                                push_lit(&mut line, "}");
                                acc.push(line);
                                proof {
                                    assert(strs(acc@) =~= a0.push(
                                        "title = {\n"@ + trimmed_end(code@) + "}"@,
                                    ));
                                }
                            },
                        }
                    } else {
                        match generate_markup_with_context(g, st, &**b, indent + 2, None) {
                            Err(e) => {
                                proof {
                                    lemma_slots_err(*g, st0, n@, ps, indent as nat, i + 1);
                                }
                                return Err(e);
                            },
                            Ok(code) => {
                                let close = crate::compose_text::indent_string(indent + 1);
                                let mut line = lit(p.name.as_str());
                                push_lit(&mut line, " = {\n");
                                push_string(&mut line, &code);
                                push_string(&mut line, &close);
                                push_lit(&mut line, "}");
                                acc.push(line);
                                proof {
                                    assert(strs(acc@) =~= a0.push(
                                        p.name@ + " = {\n"@ + code@ + indent_text(indent + 1 as int)
                                            + "}"@,
                                    ));
                                }
                            },
                        }
                    }
                },
            }
        } else {
            let v = crate::compose_imports::get_prop_expr(&p.value);
            proof {
                assert(g.fine(comp.name@, ps[i as int].name@, prop_expr(ps[i as int].value)));
            }
            match crate::compose_components::lines_of(g, n, p.name.as_str(), v.as_str()) {
                Err(e) => {
                    proof {
                        lemma_slots_err(*g, st0, n@, ps, indent as nat, i + 1);
                    }
                    return Err(e);
                },
                Ok(ls) => {
                    crate::compose_components::append_all(&mut acc, ls);
                },
            }
        }
        i = i + 1;
    }
    proof {
        assert(ps.take(ps.len() as int) =~= ps);
    }
    Ok(acc)
}

/// Component `comp` at level `indent`.
fn generate_component(g: &MarkupGen, st: &mut MarkupState, comp: &Component, indent: usize) -> (r:
    Result<String, String>)
    requires
        g.ctx.names_ok(),
        component_fine(*g, *comp, indent as nat),
    ensures
        rendered(r, component_code(*g, *old(st), *comp, indent as nat).0),
        *final(st) == component_code(*g, *old(st), *comp, indent as nat).1,
    decreases *comp, 1nat,
{
    let n = comp.name.as_str();
    if str_eq(n, "Column") || str_eq(n, "Row") || str_eq(n, "Box") {
        return generate_layout(g, st, comp, &comp.children, indent);
    }
    if str_eq(n, "DropdownMenu") {
        return crate::compose_components::build_dropdown(st, &comp.props, indent);
    }
    let mut p0: Vec<String> = Vec::new();
    if str_eq(n, "Text") && comp.children.len() > 0 {
        match crate::compose_text::build_text_expression(&comp.children, &g.ctx) {
            Err(e) => {
                return Err(e);
            },
            Ok(t) => {
                let mut line = lit("text = ");
                push_string(&mut line, &t);
                p0.push(line);
                proof {
                    assert(strs(p0@) =~= seq!["text = "@ + t@]);
                }
            },
        }
    } else {
        proof {
            assert(strs(p0@) =~= Seq::<Seq<char>>::empty());
        }
    }
    let is_slot_comp = str_eq(n, "Scaffold") || str_eq(n, "TopAppBar") || str_eq(n, "AlertDialog")
        || str_eq(n, "Tab") || str_eq(n, "FilterChip");
    let params = if is_slot_comp {
        match generate_slot_params(g, st, comp, indent) {
            Err(e) => {
                return Err(e);
            },
            Ok(p) => p,
        }
    } else {
        match build_plain_params(g, comp, p0) {
            Err(e) => {
                return Err(e);
            },
            Ok(p) => p,
        }
    };
    let bt = crate::compose_components::build_button_text(n, &comp.props);
    let shown = if str_eq(n, "Image") {
        "AsyncImage"
    } else {
        n
    };
    generate_finish(g, st, n, shown, &params, &bt, &comp.children, indent)
}

/// A component named `n` (shown as `shown`) at level `indent` with
/// arguments `params`, a button text `bt` and children `children`.
#[verifier::spinoff_prover]
#[verifier::rlimit(100)]
fn generate_finish(
    g: &MarkupGen,
    st: &mut MarkupState,
    n: &str,
    shown: &str,
    params: &Vec<String>,
    bt: &Option<String>,
    children: &Vec<Markup>,
    indent: usize,
) -> (r: Result<String, String>)
    requires
        g.ctx.names_ok(),
        indent + 2 <= usize::MAX,
        items_fine(*g, children@, indent as nat + 1),
        (n@ == "Scaffold"@ && children@.len() > 0 && is_layout_markup(children@[0]))
            ==> scaffold_child_fine(*g, children@[0], indent as nat + 1),
    ensures
        rendered(
            r,
            finish_code(
                *g,
                *old(st),
                n@,
                shown@,
                strs(params@),
                crate::compose_components::opt_str(*bt),
                children@,
                indent as nat,
            ).0,
        ),
        *final(st) == finish_code(
            *g,
            *old(st),
            n@,
            shown@,
            strs(params@),
            crate::compose_components::opt_str(*bt),
            children@,
            indent as nat,
        ).1,
    decreases children@, 1nat,
{
    let ind = crate::compose_text::indent_string(indent);
    let has_children = (children.len() > 0 && !str_eq(n, "Text")) || bt.is_some();
    let ghost ps = strs(params@);
    let ghost has_ch = (children@.len() > 0 && n@ != "Text"@) || crate::compose_components::opt_str(
        *bt,
    ) is Some;
    assert(has_children == has_ch);
    let mut out = lit(ind.as_str());
    push_lit(&mut out, shown);
    let ghost h0 = out@;
    if params.len() > 0 || !has_children {
        push_lit(&mut out, "(");
        let pl = crate::compose_components::build_param_list(params, &ind);
        push_string(&mut out, &pl);
        push_lit(&mut out, ")");
        proof {
            assert(pl@ == param_list(ps, indent as nat));
            assert(out@ =~= h0 + ("("@ + param_list(ps, indent as nat) + ")"@));
        }
    } else {
        proof {
            assert(out@ =~= h0 + Seq::<char>::empty());
        }
    }
    let ghost head = out@;
    proof {
        assert(head == indent_text(indent as int) + shown@ + if ps.len() > 0 || !has_ch {
            "("@ + param_list(ps, indent as nat) + ")"@
        } else {
            Seq::<char>::empty()
        });
    }
    if !has_children {
        push_lit(&mut out, "\n");
        proof {
            assert(out@ =~= head + "\n"@);
        }
        return Ok(out);
    }
    let snp = str_eq(n, "Scaffold") && children.len() > 0 && is_layout_of(&children[0]);
    if snp {
        push_lit(&mut out, " { paddingValues ->\n");
    } else {
        push_lit(&mut out, " {\n");
    }
    let ghost ho = out@;
    match bt {
        Some(t) => {
            let c = crate::compose_components::build_button_child(t, &ind);
            push_string(&mut out, &c);
            proof {
                assert(c@ == button_child(t@, indent as nat));
            }
        },
        None => {
            proof {
                assert(out@ =~= ho + Seq::<char>::empty());
            }
        },
    }
    let ghost hb = out@;
    let ghost mut kids = Seq::<char>::empty();
    proof {
        lemma_items_fine(*g, children@, indent as nat + 1);
        assert(hb == head + (if snp {
            " { paddingValues ->\n"@
        } else {
            " {\n"@
        }) + match crate::compose_components::opt_str(*bt) {
            Some(t) => button_child(t, indent as nat),
            None => Seq::<char>::empty(),
        });
    }
    if snp {
        match generate_scaffold_child(g, st, &children[0], indent + 1) {
            Err(e) => {
                return Err(e);
            },
            Ok(x) => {
                push_string(&mut out, &x);
                proof {
                    kids = x@;
                }
            },
        }
        let ghost hx = out@;
        proof {
            let rest = children@.subrange(1, children@.len() as int);
            assert(rest =~= children@.drop_first());
            lemma_items_fine(*g, rest, indent as nat + 1);
            assert forall|k: int| 0 <= k < rest.len() implies markup_fine(
                *g,
                #[trigger] rest[k],
                indent as nat + 1,
            ) by {
                assert(rest[k] == children@[k + 1]);
            }
        }
        match generate_items(g, st, children, 1, indent + 1, Some(n)) {
            Err(e) => {
                return Err(e);
            },
            Ok(y) => {
                push_string(&mut out, &y);
                proof {
                    assert(out@ =~= hb + (kids + y@ + Seq::<char>::empty()));
                    kids = kids + y@ + Seq::<char>::empty();
                }
            },
        }
    } else {
        proof {
            assert(children@.subrange(0, children@.len() as int) =~= children@);
        }
        match generate_items(g, st, children, 0, indent + 1, Some(n)) {
            Err(e) => {
                return Err(e);
            },
            Ok(y) => {
                push_string(&mut out, &y);
                proof {
                    kids = y@;
                }
            },
        }
    }
    let ghost hk = out@;
    assert(hk == hb + kids);
    push_string(&mut out, &ind);
    push_lit(&mut out, "}\n");
    proof {
        assert(out@ =~= hb + kids + (ind@ + "}\n"@));
    }
    Ok(out)
}

/// Layout component `comp` (its name and props) at level `indent` with
/// children `children`.
fn generate_layout(
    g: &MarkupGen,
    st: &mut MarkupState,
    comp: &Component,
    children: &Vec<Markup>,
    indent: usize,
) -> (r: Result<String, String>)
    requires
        g.ctx.names_ok(),
        is_layout_name(comp.name@),
        layout_fine(comp.name@, flat(comp.props@)),
        indent + 2 <= usize::MAX,
        items_fine(*g, children@, indent as nat + 1),
    ensures
        rendered(
            r,
            layout_code(*g, *old(st), comp.name@, flat(comp.props@), children@, indent as nat).0,
        ),
        *final(st) == layout_code(
            *g,
            *old(st),
            comp.name@,
            flat(comp.props@),
            children@,
            indent as nat,
        ).1,
    decreases children@, 2nat,
{
    let n = comp.name.as_str();
    let is_box = str_eq(n, "Box");
    let cfg = crate::compose_modifiers::ModifierConfig {
        handle_size: is_box,
        handle_padding: true,
        handle_background: true,
        handle_click_as_modifier: false,
        handle_fill_max: is_box,
    };
    proof {
        lemma_flat_named(comp.props@, "backgroundColor"@);
        lemma_flat_named(comp.props@, "alignment"@);
        crate::compose_modifiers::lemma_flat_modifiers(comp.props@, cfg, g.ctx);
        lemma_layout_names(comp.name@);
    }
    let (mods, handled) = match crate::compose_modifiers::build_modifiers_for_component(
        comp,
        cfg,
        &g.ctx,
    ) {
        Err(e) => {
            return Err(e);
        },
        Ok(x) => x,
    };
    let al = crate::compose_components::named_expr_of(&comp.props, "alignment");
    let mut h2 = handled;
    let ghost hh = strs(h2@);
    if is_box && al.is_some() {
        h2.push(lit("alignment"));
    }
    proof {
        if is_box && al is Some {
            assert(strs(h2@) =~= hh.push("alignment"@));
        } else {
            assert(strs(h2@) =~= hh);
        }
    }
    let mut params: Vec<String> = Vec::new();
    if is_box {
        match &al {
            Some(a) => {
                let av = build_alignment(a);
                let mut line = lit("contentAlignment = ");
                push_string(&mut line, &av);
                params.push(line);
            },
            None => {},
        }
        let ghost p1 = strs(params@);
        if mods.len() > 0 {
            let mut line = lit("modifier = Modifier");
            crate::compose_components::push_concat(&mut line, &mods);
            params.push(line);
        }
        proof {
            assert(strs(params@) =~= p1 + only_if(
                mods@.len() > 0,
                seq!["modifier = Modifier"@ + concat(strs(mods@))],
            ));
            reveal_strlit("");
            assert(""@ =~= Seq::<char>::empty());
        }
    } else if mods.len() == 1 {
        let mut line = lit("modifier = Modifier");
        push_string(&mut line, &mods[0]);
        params.push(line);
    } else if mods.len() > 1 {
        let ch = crate::compose_components::build_chain(&mods, "                ");
        let mut line = lit("modifier = Modifier\n");
        push_string(&mut line, &ch);
        params.push(line);
    }
    proof {
        assert(strs(params@) =~= layout_params(comp.name@, flat(comp.props@), strs(mods@)));
        assert forall|i: int|
            0 <= i < comp.props@.len() && !strs(h2@).contains(
                #[trigger] comp.props@[i].name@,
            ) implies g.fine(comp.name@, comp.props@[i].name@, prop_expr(comp.props@[i].value)) by {
            if comp.props@[i].name@ == "backgroundColor"@ {
                lemma_first_named_some(comp.props@, "backgroundColor"@, i);
                lemma_background_handled(comp.props@, cfg, g.ctx);
                let k = choose|k: int| 0 <= k < hh.len() && hh[k] == "backgroundColor"@;
                assert(strs(h2@)[k] == hh[k]);
            } else {
                lemma_layout_prop_free(*g, comp.name@, comp.props@[i].name@, prop_expr(comp.props@[i].value));
            }
        }
    }
    match crate::compose_components::build_prop_lines(g, n, &comp.props, &h2) {
        Err(e) => Err(e),
        Ok(ls) => {
            crate::compose_components::append_all(&mut params, ls);
            let no_text: Option<String> = None;
            generate_finish(g, st, n, n, &params, &no_text, children, indent)
        },
    }
}

/// The props of the first layout child of a `Scaffold` with props `ps`
/// (see `scaffold_props`).
pub(crate) fn scaffold_child_props(ps: &Vec<ComponentProp>) -> (r: Vec<ComponentProp>)
    ensures
        flat(r@) == scaffold_props(flat(ps@)),
{
    let ghost fs = flat(ps@);
    let mut props = copy_props(ps);
    let mut lines = lit(".padding(paddingValues)");
    let mut calls = lit(".padding(paddingValues)");
    let ghost pad = flat_index(fs, "padding"@);
    match find_prop(&props, "padding") {
        Some(i) => {
            let pv = crate::compose_imports::get_prop_expr(&props[i].value);
            push_lit(&mut lines, "\n                .padding(");
            push_string(&mut lines, &pv);
            push_lit(&mut lines, ".dp)");
            push_lit(&mut calls, ".padding(");
            push_string(&mut calls, &pv);
            push_lit(&mut calls, ".dp)");
            let ghost before = props@;
            props.remove(i);
            proof {
                assert(flat(props@) =~= fs.remove(i as int));
                assert(pv@ == fs[i as int].1);
            }
        },
        None => {},
    }
    let ghost fs1 = flat(props@);
    let ghost pv = match pad {
        Some(i) => Some(fs[i].1),
        None => None,
    };
    proof {
        assert(lines@ == ".padding(paddingValues)"@ + opt_text(
            pv,
            "\n                .padding("@,
            ".dp)"@,
        ));
        assert(calls@ == ".padding(paddingValues)"@ + opt_text(pv, ".padding("@, ".dp)"@));
        reveal_strlit("Modifier");
    }
    match find_prop(&props, "modifier") {
        Some(j) => {
            let e = crate::compose_imports::get_prop_expr(&props[j].value);
            let ev = crate::text::str_to_chars(e.as_str());
            let nm = if crate::text::str_starts_with(e.as_str(), "Modifier") {
                let mut x = lit("Modifier\n                ");
                push_string(&mut x, &lines);
                let rest = crate::text::string_from_range(ev.as_slice(), 8, ev.len());
                push_string(&mut x, &rest);
                x
            } else {
                let mut x = lit("Modifier");
                push_string(&mut x, &calls);
                push_lit(&mut x, ".then(");
                push_string(&mut x, &e);
                push_lit(&mut x, ")");
                x
            };
            let name = lit(props[j].name.as_str());
            let ghost before = props@;
            props.set(j, ComponentProp { name, value: PropValue::Expression(nm) });
            proof {
                assert(flat(props@) =~= fs1.update(j as int, (fs1[j as int].0, nm@)));
            }
        },
        None => {
            let mut x = lit("Modifier\n                ");
            push_string(&mut x, &lines);
            let ghost before = props@;
            props.insert(0, ComponentProp { name: lit("modifier"), value: PropValue::Expression(x) });
            proof {
                assert(flat(props@) =~= seq![("modifier"@, x@)] + fs1);
            }
        },
    }
    proof {
        assert(flat(props@) == scaffold_props(fs));
    }
    props
}

/// The first child `m` of a `Scaffold` at level `indent`: a layout
/// component takes the inner padding in its modifier.
fn generate_scaffold_child(g: &MarkupGen, st: &mut MarkupState, m: &Markup, indent: usize) -> (r:
    Result<String, String>)
    requires
        g.ctx.names_ok(),
        scaffold_child_fine(*g, *m, indent as nat),
    ensures
        rendered(r, scaffold_child_code(*g, *old(st), *m, indent as nat).0),
        *final(st) == scaffold_child_code(*g, *old(st), *m, indent as nat).1,
    decreases *m, 3nat,
{
    match m {
        Markup::Component(c) => {
            let n = c.name.as_str();
            if str_eq(n, "Column") || str_eq(n, "Row") || str_eq(n, "Box") {
                let props = scaffold_child_props(&c.props);
                let tmp = Component {
                    name: lit(n),
                    props,
                    children: Vec::new(),
                    self_closing: c.self_closing,
                };
                return generate_layout(g, st, &tmp, &c.children, indent);
            }
            generate_markup_with_context(g, st, m, indent, None)
        },
        _ => generate_markup_with_context(g, st, m, indent, None),
    }
}


/// Markup `markup` at level `indent` outside any component.
pub fn generate_markup_with_indent(
    g: &MarkupGen,
    st: &mut MarkupState,
    markup: &Markup,
    indent: usize,
) -> (r: Result<String, String>)
    requires
        g.ctx.names_ok(),
        markup_fine(*g, *markup, indent as nat),
    ensures
        rendered(r, markup_code(*g, *old(st), *markup, indent as nat, None).0),
        *final(st) == markup_code(*g, *old(st), *markup, indent as nat, None).1,
{
    generate_markup_with_context(g, st, markup, indent, None)
}


// ===================== Deciding what can be rendered =====================

/// Whether a quoted background value can be read.
fn background_ok_of(v: &String) -> (r: bool)
    ensures
        r == background_ok(v@),
{
    let c = crate::text::str_to_chars(v.as_str());
    !(c.len() > 0 && c[0] == '"' && c[c.len() - 1] == '"') || (c.len() > 2 && (c[1] as u32) < 128)
}

/// Whether the props `ps` of layout component `n` can be read.
fn layout_fine_of(n: &str, ps: &Vec<ComponentProp>) -> (r: bool)
    ensures
        r == layout_fine(n@, flat(ps@)),
{
    proof {
        lemma_flat_named(ps@, "backgroundColor"@);
        lemma_flat_named(ps@, "alignment"@);
    }
    let a = match crate::compose_components::named_expr_of(ps, "backgroundColor") {
        Some(v) => background_ok_of(&v),
        None => true,
    };
    let b = !str_eq(n, "Box") || match crate::compose_components::named_expr_of(ps, "alignment") {
        Some(v) => background_ok_of(&v),
        None => true,
    };
    a && b
}

/// Whether component `n` has props that take composable content.
fn slot_component_of(n: &str) -> (r: bool)
    ensures
        r == is_slot_component(n@),
{
    str_eq(n, "Scaffold") || str_eq(n, "TopAppBar") || str_eq(n, "AlertDialog") || str_eq(n, "Tab")
        || str_eq(n, "FilterChip")
}

/// Whether markup `m` can be rendered at level `ind` (see `markup_fine`).
pub(crate) fn markup_fine_of(g: &MarkupGen, m: &Markup, ind: usize) -> (r: bool)
    requires
        g.ctx.names_ok(),
    ensures
        r == markup_fine(*g, *m, ind as nat),
    decreases *m, 1nat,
{
    match m {
        Markup::Component(c) => component_fine_of(g, c, ind),
        Markup::Sequence(items) => items_fine_of(g, items, ind),
        Markup::IfElse(b) => if_else_fine_of(g, b, ind),
        Markup::ForLoop(f) => for_loop_fine_of(g, f, ind),
        Markup::When(w) => whens_fine_of(g, &w.branches),
        _ => true,
    }
}

/// Whether each of `ms` can be rendered at level `ind`.
fn items_fine_of(g: &MarkupGen, ms: &Vec<Markup>, ind: usize) -> (r: bool)
    requires
        g.ctx.names_ok(),
    ensures
        r == items_fine(*g, ms@, ind as nat),
    decreases ms@, 0nat,
{
    let mut ok = true;
    let mut i: usize = 0;
    proof {
        assert(ms@.take(0) =~= Seq::<Markup>::empty());
    }
    while i < ms.len()
        invariant
            i <= ms@.len(),
            g.ctx.names_ok(),
            ok == items_fine(*g, ms@.take(i as int), ind as nat),
        decreases ms.len() - i,
    {
        proof {
            assert(ms@.take(i + 1).drop_last() =~= ms@.take(i as int));
            assert(ms@.take(i + 1).last() == ms@[i as int]);
        }
        ok = ok && markup_fine_of(g, &ms[i], ind);
        i = i + 1;
    }
    proof {
        assert(ms@.take(ms@.len() as int) =~= ms@);
    }
    ok
}

/// Whether an `@if` block can be rendered at level `ind`.
fn if_else_fine_of(g: &MarkupGen, b: &IfElseBlock, ind: usize) -> (r: bool)
    requires
        g.ctx.names_ok(),
    ensures
        r == if_else_fine(*g, *b, ind as nat),
    decreases *b, 0nat,
{
    if ind == usize::MAX {
        return false;
    }
    items_fine_of(g, &b.then_branch, ind + 1) && else_ifs_fine_of(g, &b.else_ifs, ind + 1) && match &b.else_branch {
        Some(e) => items_fine_of(g, e, ind + 1),
        None => true,
    }
}

/// Whether the bodies of `else if` branches can be rendered at level `ind`.
fn else_ifs_fine_of(g: &MarkupGen, bs: &Vec<ElseIfBranch>, ind: usize) -> (r: bool)
    requires
        g.ctx.names_ok(),
    ensures
        r == else_ifs_fine(*g, bs@, ind as nat),
    decreases bs@, 0nat,
{
    let mut ok = true;
    let mut i: usize = 0;
    proof {
        assert(bs@.take(0) =~= Seq::<ElseIfBranch>::empty());
    }
    while i < bs.len()
        invariant
            i <= bs@.len(),
            g.ctx.names_ok(),
            ok == else_ifs_fine(*g, bs@.take(i as int), ind as nat),
        decreases bs.len() - i,
    {
        proof {
            assert(bs@.take(i + 1).drop_last() =~= bs@.take(i as int));
            assert(bs@.take(i + 1).last() == bs@[i as int]);
        }
        ok = ok && items_fine_of(g, &bs[i].body, ind);
        i = i + 1;
    }
    proof {
        assert(bs@.take(bs@.len() as int) =~= bs@);
    }
    ok
}

/// Whether a `@for` loop can be rendered at level `ind`.
fn for_loop_fine_of(g: &MarkupGen, f: &ForLoopBlock, ind: usize) -> (r: bool)
    requires
        g.ctx.names_ok(),
    ensures
        r == for_loop_fine(*g, *f, ind as nat),
    decreases *f, 0nat,
{
    if ind > usize::MAX - 3 {
        return false;
    }
    items_fine_of(g, &f.body, ind + 1) && items_fine_of(g, &f.body, ind + 2) && items_fine_of(
        g,
        &f.body,
        ind + 3,
    ) && match &f.empty_block {
        Some(e) => items_fine_of(g, e, ind + 1),
        None => true,
    }
}

/// Whether the bodies of `@when` branches can be rendered.
fn whens_fine_of(g: &MarkupGen, bs: &Vec<WhenBranch>) -> (r: bool)
    requires
        g.ctx.names_ok(),
    ensures
        r == whens_fine(*g, bs@),
    decreases bs@, 0nat,
{
    let mut ok = true;
    let mut i: usize = 0;
    proof {
        assert(bs@.take(0) =~= Seq::<WhenBranch>::empty());
    }
    while i < bs.len()
        invariant
            i <= bs@.len(),
            g.ctx.names_ok(),
            ok == whens_fine(*g, bs@.take(i as int)),
        decreases bs.len() - i,
    {
        proof {
            assert(bs@.take(i + 1).drop_last() =~= bs@.take(i as int));
            assert(bs@.take(i + 1).last() == bs@[i as int]);
        }
        ok = ok && markup_fine_of(g, &bs[i].body, 0);
        i = i + 1;
    }
    proof {
        assert(bs@.take(bs@.len() as int) =~= bs@);
    }
    ok
}

/// Whether the content props given as markup among `ps` can be rendered one
/// and two levels below `ind`.
fn slots_fine_of(g: &MarkupGen, ps: &Vec<ComponentProp>, ind: usize) -> (r: bool)
    requires
        g.ctx.names_ok(),
        ind + 2 <= usize::MAX,
    ensures
        r == slots_fine(*g, ps@, ind as nat),
    decreases ps@, 0nat,
{
    let mut ok = true;
    let mut i: usize = 0;
    proof {
        assert(ps@.take(0) =~= Seq::<ComponentProp>::empty());
    }
    while i < ps.len()
        invariant
            i <= ps@.len(),
            g.ctx.names_ok(),
            ind + 2 <= usize::MAX,
            ok == slots_fine(*g, ps@.take(i as int), ind as nat),
        decreases ps.len() - i,
    {
        proof {
            assert(ps@.take(i + 1).drop_last() =~= ps@.take(i as int));
            assert(ps@.take(i + 1).last() == ps@[i as int]);
        }
        let here = match &ps[i].value {
            PropValue::Markup(b) => markup_fine_of(g, b, ind + 1) && markup_fine_of(g, b, ind + 2),
            PropValue::Expression(_) => true,
        };
        ok = ok && here;
        i = i + 1;
    }
    proof {
        assert(ps@.take(ps@.len() as int) =~= ps@);
    }
    ok
}

/// Whether component `c` can be rendered at level `ind`.
fn component_fine_of(g: &MarkupGen, c: &Component, ind: usize) -> (r: bool)
    requires
        g.ctx.names_ok(),
    ensures
        r == component_fine(*g, *c, ind as nat),
    decreases *c, 1nat,
{
    if ind > usize::MAX - 2 {
        return false;
    }
    let n = c.name.as_str();
    if !items_fine_of(g, &c.children, ind + 1) {
        return false;
    }
    let own = if str_eq(n, "Column") || str_eq(n, "Row") || str_eq(n, "Box") {
        layout_fine_of(n, &c.props)
    } else if str_eq(n, "DropdownMenu") {
        crate::compose_components::dropdown_fine_of(&c.props)
    } else {
        crate::compose_components::props_fine_of(g, n, &c.props)
            && crate::compose_components::button_fine_of(n, &c.props) && (!str_eq(n, "Image")
            || crate::compose_components::image_fine_of(&c.props)) && (!str_eq(n, "AsyncImage")
            || crate::compose_components::async_image_fine_of(&c.props)) && (!slot_component_of(n)
            || slots_fine_of(g, &c.props, ind))
    };
    if !own {
        return false;
    }
    if str_eq(n, "Scaffold") && c.children.len() > 0 && is_layout_of(&c.children[0]) {
        scaffold_child_fine_of(g, &c.children[0], ind + 1)
    } else {
        true
    }
}

/// Whether the first layout child `m` of a `Scaffold` can be rendered at
/// level `ind` with the inner padding.
fn scaffold_child_fine_of(g: &MarkupGen, m: &Markup, ind: usize) -> (r: bool)
    requires
        g.ctx.names_ok(),
    ensures
        r == scaffold_child_fine(*g, *m, ind as nat),
    decreases *m, 2nat,
{
    match m {
        Markup::Component(c) => {
            let n = c.name.as_str();
            if str_eq(n, "Column") || str_eq(n, "Row") || str_eq(n, "Box") {
                if ind > usize::MAX - 2 {
                    return false;
                }
                let props = scaffold_child_props(&c.props);
                layout_fine_of(n, &props) && items_fine_of(g, &c.children, ind + 1)
            } else {
                markup_fine_of(g, m, ind)
            }
        },
        _ => markup_fine_of(g, m, ind),
    }
}

} // verus!
