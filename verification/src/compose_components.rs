//! The arguments of Compose components built from their props: images,
//! dropdown menus, text, cards and buttons, spacers, icons and the rest.

use vstd::prelude::*;

use crate::ast::{Component, ComponentProp, PropValue};
use crate::compose::{kotlin_lambda, replaced, string_resource, ternary_if_else, ternary_let};
use crate::compose_imports::{has_prop, only_if, prop_expr, strs};
use crate::compose_modifiers::{
    any_contains, background_ok, dimension, ends_with, first_named, first_occurrence, flat,
    hex_in_modifier, is_quoted_value, padding_modifier, props_modifiers, ModifierConfig,
};
use crate::compose_props::{prop_lines, prop_ok, trim_end_char, trim_start_char, VarType};
use crate::compose_text::ExprContext;
use crate::optimizer::Optimization;
use crate::recyclerview::unicode_upper;
use crate::text::{
    decimal, lit, occurs_at, push_decimal, push_lit, push_string, seq_contains, spec_trim, str_eq,
    str_to_chars,
};
use crate::view::indent_text;

verus! {

// ===================== The generator =====================

/// What markup is generated against: the expression context, the type of
/// the component, the types of its variables and the optimizations planned
/// for it.
pub struct MarkupGen {
    pub ctx: ExprContext,
    pub component_type: Option<String>,
    pub var_types: Vec<VarType>,
    pub optimizations: Vec<Optimization>,
}

/// What generating markup records: whether an experimental Material 3
/// component was used, and how many dropdown menus have been generated.
#[derive(Clone, Copy)]
pub struct MarkupState {
    pub uses_experimental_material3: bool,
    pub dropdown_count: usize,
}

impl MarkupGen {
    /// The component's type, as text.
    pub open spec fn type_view(self) -> Option<Seq<char>> {
        match self.component_type {
            Some(t) => Some(t@),
            None => None,
        }
    }

    /// The argument lines of prop `p` with value `v` of component `c`.
    pub open spec fn lines(self, c: Seq<char>, p: Seq<char>, v: Seq<char>) -> Result<
        Seq<Seq<char>>,
        Seq<char>,
    > {
        prop_lines(c, p, v, self.type_view(), self.ctx, self.var_types@)
    }

    /// Prop `p` with value `v` of component `c` can be transformed.
    pub open spec fn fine(self, c: Seq<char>, p: Seq<char>, v: Seq<char>) -> bool {
        prop_ok(c, p, v, self.type_view(), self.ctx)
    }
}

// ===================== Pieces of text =====================

/// Whether `s` starts with `p`.
pub open spec fn starts(s: Seq<char>, p: Seq<char>) -> bool {
    occurs_at(s, 0, p)
}

/// `ms` one after the other.
pub open spec fn concat(ms: Seq<Seq<char>>) -> Seq<char>
    decreases ms.len(),
{
    if ms.len() == 0 {
        Seq::empty()
    } else {
        concat(ms.drop_last()) + ms.last()
    }
}

/// `ms` on lines of their own, each after `pre`.
pub open spec fn chain(ms: Seq<Seq<char>>, pre: Seq<char>) -> Seq<char>
    decreases ms.len(),
{
    if ms.len() == 0 {
        Seq::empty()
    } else if ms.len() == 1 {
        pre + ms[0]
    } else {
        chain(ms.drop_last(), pre) + "\n"@ + pre + ms.last()
    }
}

/// The number of bytes of `s` in UTF-8.
pub open spec fn byte_len(s: Seq<char>) -> nat
    decreases s.len(),
{
    if s.len() == 0 {
        0
    } else {
        byte_len(s.drop_last()) + crate::compose_text::utf8_len(s.last())
    }
}

/// The expression of the first prop of `ps` named `n`.
pub open spec fn named_expr(ps: Seq<ComponentProp>, n: Seq<char>) -> Option<Seq<char>> {
    match first_named(ps, n) {
        Some(p) => Some(prop_expr(p.value)),
        None => None,
    }
}

/// A configuration of the modifier builder.
pub open spec fn config(
    size: bool,
    padding: bool,
    background: bool,
    click: bool,
    fill: bool,
) -> ModifierConfig {
    ModifierConfig {
        handle_size: size,
        handle_padding: padding,
        handle_background: background,
        handle_click_as_modifier: click,
        handle_fill_max: fill,
    }
}

/// The argument lines of the props (names and expressions `fs`) of
/// component `c` whose names are not in `skip`, in order.
pub open spec fn prop_lines_of(
    g: MarkupGen,
    c: Seq<char>,
    fs: Seq<(Seq<char>, Seq<char>)>,
    skip: Seq<Seq<char>>,
) -> Result<Seq<Seq<char>>, Seq<char>>
    decreases fs.len(),
{
    if fs.len() == 0 {
        Ok(Seq::empty())
    } else {
        match prop_lines_of(g, c, fs.drop_last(), skip) {
            Err(e) => Err(e),
            Ok(xs) => if skip.contains(fs.last().0) {
                Ok(xs)
            } else {
                match g.lines(c, fs.last().0, fs.last().1) {
                    Ok(ls) => Ok(xs + ls),
                    Err(e) => Err(e),
                }
            },
        }
    }
}

/// Every prop of component `c` among `ps` can be transformed.
pub open spec fn props_fine(g: MarkupGen, c: Seq<char>, ps: Seq<ComponentProp>) -> bool {
    forall|i: int| 0 <= i < ps.len() ==> g.fine(c, #[trigger] ps[i].name@, prop_expr(ps[i].value))
}

// ===================== Spacer, icon and the rest =====================

/// The arguments of a `Spacer`: its height (`h`), else its width (`w`),
/// else a height of 8 dp, then its other props.
pub open spec fn spacer_params(g: MarkupGen, ps: Seq<ComponentProp>) -> Result<
    Seq<Seq<char>>,
    Seq<char>,
> {
    let m = match named_expr(ps, "h"@) {
        Some(v) => "modifier = Modifier.height("@ + v + ".dp)"@,
        None => match named_expr(ps, "w"@) {
            Some(v) => "modifier = Modifier.width("@ + v + ".dp)"@,
            None => "modifier = Modifier.height(8.dp)"@,
        },
    };
    match prop_lines_of(g, "Spacer"@, flat(ps), seq!["h"@, "w"@]) {
        Ok(ls) => Ok(seq![m] + ls),
        Err(e) => Err(e),
    }
}

/// The arguments of a component with no rules of its own: the modifier of
/// its sizes, fills and padding, then its other props.
pub open spec fn generic_params(g: MarkupGen, c: Seq<char>, ps: Seq<ComponentProp>) -> Result<
    Seq<Seq<char>>,
    Seq<char>,
> {
    match props_modifiers(ps, config(true, true, false, false, true), g.ctx) {
        Err(e) => Err(e),
        Ok((m, h)) => match prop_lines_of(g, c, flat(ps), h) {
            Ok(ls) => Ok(only_if(m.len() > 0, seq!["modifier = Modifier"@ + concat(m)]) + ls),
            Err(e) => Err(e),
        },
    }
}

// ===================== Text, cards and buttons =====================

/// `ms` without those that mention `fillMaxWidth`.
pub open spec fn without_fill_width(ms: Seq<Seq<char>>) -> Seq<Seq<char>>
    decreases ms.len(),
{
    if ms.len() == 0 {
        Seq::empty()
    } else {
        without_fill_width(ms.drop_last()) + only_if(
            !seq_contains(ms.last(), "fillMaxWidth"@),
            seq![ms.last()],
        )
    }
}

/// An explicit modifier made fit to follow others: without its leading
/// `Modifier`.
pub open spec fn chainable(x: Seq<char>) -> Seq<char> {
    if starts(x, "Modifier."@) {
        "."@ + x.subrange(9, x.len() as int)
    } else if starts(x, "Modifier\n"@) {
        x.subrange(9, x.len() as int)
    } else {
        x
    }
}

/// The arguments of a `Text` (`c` is `Text`, with its text in `p0`), `Card`
/// or `Button`: the modifier chain (padding, fills, a `Text`'s click, a
/// variable `fillMaxWidth`, then the explicit modifier), then the other
/// props.
pub open spec fn text_like_params(
    g: MarkupGen,
    c: Seq<char>,
    ps: Seq<ComponentProp>,
    p0: Seq<Seq<char>>,
) -> Result<Seq<Seq<char>>, Seq<char>> {
    match props_modifiers(ps, config(false, true, false, c == "Text"@, true), g.ctx) {
        Err(e) => Err(e),
        Ok((m0, h0)) => {
            let m1 = match named_expr(ps, "fillMaxWidth"@) {
                Some(v) => {
                    let t = spec_trim(v);
                    if t != "true"@ && t != "false"@ {
                        without_fill_width(m0).push(
                            ".let { if ("@ + t + ") it.fillMaxWidth() else it }"@,
                        )
                    } else {
                        m0
                    }
                },
                None => m0,
            };
            let r2 = match named_expr(ps, "modifier"@) {
                Some(v) => match hex_in_modifier(ternary_let(v)) {
                    Ok(x) => Ok((m1.push(chainable(x)), h0.push("modifier"@))),
                    Err(e) => Err(e),
                },
                None => Ok((m1, h0)),
            };
            match r2 {
                Err(e) => Err(e),
                Ok((m2, h2)) => match prop_lines_of(g, c, flat(ps), h2) {
                    Err(e) => Err(e),
                    Ok(ls) => Ok(
                        p0 + only_if(
                            m2.len() > 0,
                            seq!["modifier = Modifier\n"@ + chain(m2, "            "@)],
                        ) + ls,
                    ),
                },
            }
        },
    }
}

/// The text of a `Button`'s `text` prop: a quoted value without its quotes,
/// else the expression with its ternaries as `if`.
pub open spec fn button_text(c: Seq<char>, ps: Seq<ComponentProp>) -> Option<Seq<char>> {
    if c == "Button"@ {
        match named_expr(ps, "text"@) {
            Some(e) => Some(
                if is_quoted_value(e) {
                    e.subrange(1, e.len() - 1)
                } else {
                    ternary_if_else(e)
                },
            ),
            None => None,
        }
    } else {
        None
    }
}

/// A quoted `text` of a `Button` has both its quotes.
pub open spec fn button_fine(c: Seq<char>, ps: Seq<ComponentProp>) -> bool {
    c == "Button"@ ==> match named_expr(ps, "text"@) {
        Some(e) => is_quoted_value(e) ==> e.len() >= 2,
        None => true,
    }
}

/// The `Text` child at level `ind + 1` of a `Button` whose text is `t`: a
/// string resource, an `if` expression, or a literal.
pub open spec fn button_child(t: Seq<char>, ind: nat) -> Seq<char> {
    if starts(t, "R.string."@) {
        indent_text(ind as int) + "    Text(text = \"${"@ + string_resource(t) + "}\")\n"@
    } else if starts(t, "if ("@) {
        indent_text(ind as int) + "    Text(text = "@ + t + ")\n"@
    } else {
        indent_text(ind as int) + "    Text(\""@ + t + "\")\n"@
    }
}

// ===================== Images =====================

/// Whether `n` is a padding shortcut.
pub open spec fn is_shortcut(n: Seq<char>) -> bool {
    n == "p"@ || n == "px"@ || n == "py"@ || n == "pt"@ || n == "pb"@ || n == "pl"@ || n == "pr"@
}

/// Whether one of `ps` is a padding shortcut.
pub open spec fn has_shortcut(ps: Seq<ComponentProp>) -> bool {
    exists|i: int| 0 <= i < ps.len() && is_shortcut(#[trigger] ps[i].name@)
}

/// Whether an `Image` turns prop `n` into its modifier.
pub open spec fn is_image_layout_prop(n: Seq<char>) -> bool {
    n == "width"@ || n == "height"@ || n == "fillMaxWidth"@ || n == "fillMaxHeight"@ || n
        == "fillMaxSize"@ || n == "padding"@ || is_shortcut(n)
}

/// The fill modifier of prop `n` when its value is `true`.
pub open spec fn fill_if_true(ps: Seq<ComponentProp>, n: Seq<char>) -> Seq<Seq<char>> {
    match named_expr(ps, n) {
        Some(v) => only_if(spec_trim(v) == "true"@, seq!["."@ + n + "()"@]),
        None => Seq::empty(),
    }
}

/// The size modifiers of an `Image`, with whether its width and its height
/// fill the space: `fillMaxSize` (which then decides alone), else
/// `fillMaxWidth` and `fillMaxHeight`; then `width` and `height` (`100%`
/// fills the axis unless it is filled, else a fixed size).
pub open spec fn image_sizes(ps: Seq<ComponentProp>) -> (Seq<Seq<char>>, bool, bool) {
    let s1 = match named_expr(ps, "fillMaxSize"@) {
        Some(v) => if spec_trim(v) == "true"@ {
            (seq![".fillMaxSize()"@], true, true)
        } else {
            (Seq::empty(), false, false)
        },
        None => (
            fill_if_true(ps, "fillMaxWidth"@) + fill_if_true(ps, "fillMaxHeight"@),
            fill_if_true(ps, "fillMaxWidth"@).len() > 0,
            fill_if_true(ps, "fillMaxHeight"@).len() > 0,
        ),
    };
    let s2 = match named_expr(ps, "width"@) {
        Some(v) => {
            let d = dimension(v);
            if d.1 {
                if !(any_contains(s1.0, "fillMaxWidth"@) || any_contains(s1.0, "fillMaxSize"@)) {
                    (s1.0.push(".fillMaxWidth()"@), true, s1.2)
                } else {
                    s1
                }
            } else if d.0.len() > 0 {
                (s1.0.push(".width("@ + d.0 + ")"@), s1.1, s1.2)
            } else {
                s1
            }
        },
        None => s1,
    };
    match named_expr(ps, "height"@) {
        Some(v) => {
            let d = dimension(v);
            if d.1 {
                if !(any_contains(s2.0, "fillMaxHeight"@) || any_contains(s2.0, "fillMaxSize"@)) {
                    (s2.0.push(".fillMaxHeight()"@), s2.1, true)
                } else {
                    s2
                }
            } else if d.0.len() > 0 {
                (s2.0.push(".height("@ + d.0 + ")"@), s2.1, s2.2)
            } else {
                s2
            }
        },
        None => s2,
    }
}

/// `t` without its leading and trailing quotes.
pub open spec fn quote_trimmed(t: Seq<char>) -> Seq<char> {
    trim_end_char(trim_start_char(t, '"'), '"')
}

/// The `ContentScale` of a web-style `fit` value.
pub open spec fn fit_scale(e: Seq<char>) -> Seq<char> {
    let t = quote_trimmed(spec_trim(e));
    if t == "cover"@ {
        "ContentScale.Crop"@
    } else if t == "contain"@ {
        "ContentScale.Fit"@
    } else if t == "fill"@ {
        "ContentScale.FillBounds"@
    } else if t == "fill-width"@ {
        "ContentScale.FillWidth"@
    } else if t == "fill-height"@ {
        "ContentScale.FillHeight"@
    } else if t == "none"@ {
        "ContentScale.None"@
    } else if t == "scale-down"@ {
        "ContentScale.Inside"@
    } else if starts(t, "ContentScale."@) {
        t
    } else {
        "ContentScale."@ + unicode_upper(t[0]) + t.subrange(1, t.len() as int)
    }
}

/// A `fit` value can be read: a value of its own is not empty and starts
/// with an ASCII character.
pub open spec fn fit_fine(e: Seq<char>) -> bool {
    let t = quote_trimmed(spec_trim(e));
    t == "cover"@ || t == "contain"@ || t == "fill"@ || t == "fill-width"@ || t == "fill-height"@
        || t == "none"@ || t == "scale-down"@ || starts(t, "ContentScale."@) || (t.len() > 0 && (
    t[0] as u32) < 128)
}

/// The `ContentScale` of a `contentScale` value.
pub open spec fn scale_value(e: Seq<char>) -> Seq<char> {
    let t = quote_trimmed(spec_trim(e));
    if t == "Crop"@ || t == "crop"@ {
        "ContentScale.Crop"@
    } else if t == "Fit"@ || t == "fit"@ {
        "ContentScale.Fit"@
    } else if t == "FillBounds"@ || t == "fillBounds"@ {
        "ContentScale.FillBounds"@
    } else if t == "None"@ || t == "none"@ {
        "ContentScale.None"@
    } else if t == "Inside"@ || t == "inside"@ {
        "ContentScale.Inside"@
    } else if starts(t, "ContentScale."@) {
        t
    } else {
        "ContentScale."@ + t
    }
}

/// The argument lines of one prop `n` (expression `e`) of an `Image`.
pub open spec fn image_prop_lines(g: MarkupGen, n: Seq<char>, e: Seq<char>) -> Result<
    Seq<Seq<char>>,
    Seq<char>,
> {
    let v = replaced(e, "$screen.params."@, Seq::empty());
    if n == "src"@ || n == "model"@ {
        Ok(seq!["model = "@ + v])
    } else if n == "alt"@ || n == "contentDescription"@ {
        Ok(seq!["contentDescription = "@ + v])
    } else if n == "fit"@ {
        Ok(seq!["contentScale = "@ + fit_scale(v)])
    } else if n == "contentScale"@ {
        Ok(seq!["contentScale = "@ + scale_value(v)])
    } else {
        g.lines("AsyncImage"@, n, v)
    }
}

/// The argument lines of the props of an `Image` that are not part of its
/// modifier, in order.
pub open spec fn image_lines(g: MarkupGen, fs: Seq<(Seq<char>, Seq<char>)>) -> Result<
    Seq<Seq<char>>,
    Seq<char>,
>
    decreases fs.len(),
{
    if fs.len() == 0 {
        Ok(Seq::empty())
    } else {
        match image_lines(g, fs.drop_last()) {
            Err(e) => Err(e),
            Ok(xs) => if is_image_layout_prop(fs.last().0) {
                Ok(xs)
            } else {
                match image_prop_lines(g, fs.last().0, fs.last().1) {
                    Ok(ls) => Ok(xs + ls),
                    Err(e) => Err(e),
                }
            },
        }
    }
}

/// The default `ContentScale` of an image whose width and height do or do
/// not fill the space.
pub open spec fn default_scale(fw: bool, fh: bool) -> Seq<char> {
    if fw && fh {
        "ContentScale.Fit"@
    } else if fw {
        "ContentScale.FillWidth"@
    } else if fh {
        "ContentScale.FillHeight"@
    } else {
        "ContentScale.Fit"@
    }
}

/// The arguments of an `Image` (shown as `AsyncImage`): the modifier of its
/// sizes and padding when it has one of those props, its other props with
/// web names mapped, then the default `contentScale` and
/// `contentDescription` when none is given.
pub open spec fn image_params(g: MarkupGen, ps: Seq<ComponentProp>) -> Result<
    Seq<Seq<char>>,
    Seq<char>,
> {
    let sizes = image_sizes(ps);
    let pad = named_expr(ps, "padding"@);
    let any = named_expr(ps, "width"@) is Some || named_expr(ps, "height"@) is Some || named_expr(
        ps,
        "fillMaxWidth"@,
    ) is Some || named_expr(ps, "fillMaxHeight"@) is Some || named_expr(ps, "fillMaxSize"@) is Some
        || pad is Some || has_shortcut(ps);
    let mods = sizes.0 + match padding_modifier(ps, pad) {
        Some(m) => seq![m],
        None => Seq::empty(),
    };
    match image_lines(g, flat(ps)) {
        Err(e) => Err(e),
        Ok(ls) => Ok(
            only_if(any, seq!["modifier = Modifier"@ + concat(mods)]) + ls + only_if(
                named_expr(ps, "fit"@) is None && named_expr(ps, "contentScale"@) is None,
                seq!["contentScale = "@ + default_scale(sizes.1, sizes.2)],
            ) + only_if(
                !has_prop(ps, "alt"@) && !has_prop(ps, "contentDescription"@),
                seq!["contentDescription = null"@],
            ),
        ),
    }
}

/// Every `fit` prop of an `Image` can be read.
pub open spec fn image_fine(ps: Seq<ComponentProp>) -> bool {
    forall|i: int|
        0 <= i < ps.len() && #[trigger] ps[i].name@ == "fit"@ ==> fit_fine(
            replaced(prop_expr(ps[i].value), "$screen.params."@, Seq::empty()),
        )
}

// ===================== Async images =====================

/// A drawable: a quoted name as a resource, else the expression.
pub open spec fn drawable(v: Seq<char>) -> Seq<char> {
    if is_quoted_value(v) {
        "R.drawable."@ + v.subrange(1, v.len() - 1)
    } else {
        v
    }
}

/// An optional line `pre + v + post`.
pub open spec fn opt_line(v: Option<Seq<char>>, pre: Seq<char>, post: Seq<char>) -> Seq<
    Seq<char>,
> {
    match v {
        Some(x) => seq![pre + x + post],
        None => Seq::empty(),
    }
}

/// An optional piece of text `pre + v + post`.
pub open spec fn opt_text(v: Option<Seq<char>>, pre: Seq<char>, post: Seq<char>) -> Seq<char> {
    match v {
        Some(x) => pre + x + post,
        None => Seq::empty(),
    }
}

/// The `ImageRequest.Builder` model of an async image.
pub open spec fn image_request(
    url: Seq<char>,
    cf: Option<Seq<char>>,
    ph: Option<Seq<char>>,
    er: Option<Seq<char>>,
) -> Seq<char> {
    "model = ImageRequest.Builder(LocalContext.current)\n            .data("@ + url + ")"@
        + opt_text(cf, "\n            .crossfade("@, ")"@) + opt_text(
        match ph {
            Some(x) => Some(drawable(x)),
            None => None,
        },
        "\n            .placeholder("@,
        ")"@,
    ) + opt_text(
        match er {
            Some(x) => Some(drawable(x)),
            None => None,
        },
        "\n            .error("@,
        ")"@,
    ) + "\n            .build()"@
}

/// The size modifier of an async image with both a width and a height.
pub open spec fn size_line(ps: Seq<ComponentProp>) -> Seq<Seq<char>> {
    match (named_expr(ps, "width"@), named_expr(ps, "height"@)) {
        (Some(w), Some(_)) => seq!["modifier = Modifier.size("@ + w + ".dp)"@],
        _ => Seq::empty(),
    }
}

/// The arguments of an `AsyncImage`: without an explicit modifier, its
/// model (a request builder when it has a placeholder, an error image or a
/// crossfade, and a url), description and size; then its other props.
pub open spec fn async_image_params(g: MarkupGen, ps: Seq<ComponentProp>) -> Result<
    Seq<Seq<char>>,
    Seq<char>,
> {
    let url = named_expr(ps, "url"@);
    let cd = named_expr(ps, "contentDescription"@);
    let ph = named_expr(ps, "placeholder"@);
    let er = named_expr(ps, "error"@);
    let cf = named_expr(ps, "crossfade"@);
    let has_mod = has_prop(ps, "modifier"@);
    let first = if has_mod {
        Seq::empty()
    } else if (ph is Some || er is Some || cf is Some) && url is Some {
        seq![image_request(url->0, cf, ph, er)] + opt_line(cd, "contentDescription = "@, Seq::empty())
            + size_line(ps) + seq!["contentScale = ContentScale.Crop"@]
    } else {
        opt_line(url, "model = "@, Seq::empty()) + only_if(
            cd is None,
            seq!["contentDescription = null"@],
        ) + size_line(ps)
    };
    let skip = if has_mod {
        Seq::empty()
    } else {
        seq![
            "url"@,
            "width"@,
            "height"@,
            "placeholder"@,
            "error"@,
            "crossfade"@,
            "contentDescription"@,
        ]
    };
    match prop_lines_of(g, "AsyncImage"@, flat(ps), skip) {
        Ok(ls) => Ok(first + ls),
        Err(e) => Err(e),
    }
}

/// The drawables of a request builder have both their quotes.
pub open spec fn async_image_fine(ps: Seq<ComponentProp>) -> bool {
    let ph = named_expr(ps, "placeholder"@);
    let er = named_expr(ps, "error"@);
    let cf = named_expr(ps, "crossfade"@);
    (!has_prop(ps, "modifier"@) && (ph is Some || er is Some || cf is Some) && named_expr(
        ps,
        "url"@,
    ) is Some) ==> (match ph {
        Some(v) => is_quoted_value(v) ==> v.len() >= 2,
        None => true,
    }) && (match er {
        Some(v) => is_quoted_value(v) ==> v.len() >= 2,
        None => true,
    })
}

// ===================== Dropdown menus =====================

/// `s` with `rep` before, between and after its characters.
pub open spec fn interleaved(s: Seq<char>, rep: Seq<char>) -> Seq<char>
    decreases s.len(),
{
    if s.len() == 0 {
        rep
    } else {
        interleaved(s.drop_last(), rep) + seq![s.last()] + rep
    }
}

/// Each `pat` in `s` replaced by `rep` (as `str::replace`, also for an empty
/// `pat`).
pub open spec fn replaced_any(s: Seq<char>, pat: Seq<char>, rep: Seq<char>) -> Seq<char> {
    if pat.len() == 0 {
        interleaved(s, rep)
    } else {
        replaced(s, pat, rep)
    }
}

/// The statement of a menu item's click: the body of the `onValueChange`
/// lambda `t` (after its arrow, without a closing brace) with its parameter
/// replaced by `item`; nothing without an arrow.
pub open spec fn item_assignment(t: Seq<char>, ind: nat) -> Seq<char> {
    match first_occurrence(t, 0, "->"@) {
        Some(a) => {
            let after = spec_trim(t.subrange(a + 2, t.len() as int));
            let param = match first_occurrence(t, 0, "{"@) {
                Some(b) => spec_trim(t.subrange(b + 1, a)),
                None => Seq::empty(),
            };
            let assignment = spec_trim(
                if ends_with(after, "}"@) {
                    after.drop_last()
                } else {
                    after
                },
            );
            indent_text(ind as int) + "                    "@ + replaced_any(
                assignment,
                param,
                "item"@,
            ) + "\n"@
        },
        None => Seq::empty(),
    }
}

/// The count after one more dropdown menu (wrapping as an atomic counter).
pub open spec fn next_count(c: usize) -> usize {
    if c < usize::MAX {
        (c + 1) as usize
    } else {
        0
    }
}

/// The name of the state of dropdown menu number `id`.
pub open spec fn expanded_var(id: usize) -> Seq<char> {
    if id == 0 {
        "expanded"@
    } else {
        "expanded"@ + decimal(id as nat)
    }
}

/// A line at level `ind`.
pub open spec fn ln(ind: nat, t: Seq<char>) -> Seq<char> {
    indent_text(ind as int) + t + "\n"@
}

/// The opening of the `ExposedDropdownMenuBox` with state `ev` at level `ind`.
pub open spec fn dropdown_head(ind: nat, ev: Seq<char>) -> Seq<char> {
    ln(ind, "var "@ + ev + " by remember { mutableStateOf(false) }"@) + ln(
        ind,
        "ExposedDropdownMenuBox("@,
    ) + ln(ind, "    expanded = "@ + ev + ","@) + ln(
        ind,
        "    onExpandedChange = { "@ + ev + " = !"@ + ev + " }"@,
    ) + ln(ind, ") {"@)
}

/// The read-only `TextField` showing value `v`.
pub open spec fn dropdown_field(ind: nat, v: Seq<char>) -> Seq<char> {
    ln(ind, "    TextField("@) + ln(ind, "        value = "@ + v + ","@) + ln(
        ind,
        "        onValueChange = {},"@,
    ) + ln(ind, "        readOnly = true,"@) + ln(ind, "        modifier = Modifier.menuAnchor()"@)
        + ln(ind, "    )"@)
}

/// The opening of the menu of items `its`, up to a menu item's click.
pub open spec fn dropdown_menu(ind: nat, ev: Seq<char>, its: Seq<char>) -> Seq<char> {
    ln(ind, "    ExposedDropdownMenu("@) + ln(ind, "        expanded = "@ + ev + ","@) + ln(
        ind,
        "        onDismissRequest = { "@ + ev + " = false }"@,
    ) + ln(ind, "    ) {"@) + ln(ind, "        "@ + its + ".forEach { item ->"@) + ln(
        ind,
        "            DropdownMenuItem("@,
    ) + ln(ind, "                text = { Text(item) },"@) + ln(ind, "                onClick = {"@)
}

/// The end of a menu item's click, closing everything.
pub open spec fn dropdown_tail(ind: nat, ev: Seq<char>) -> Seq<char> {
    ln(ind, "                    "@ + ev + " = false"@) + ln(ind, "                }"@) + ln(
        ind,
        "            )"@,
    ) + ln(ind, "        }"@) + ln(ind, "    }"@) + ln(ind, "}"@)
}

/// The `ExposedDropdownMenuBox` of a dropdown menu at level `ind` with state
/// `ev`, value `v`, items `its` and `onValueChange` lambda `t`.
pub open spec fn dropdown_text(
    ind: nat,
    ev: Seq<char>,
    v: Seq<char>,
    its: Seq<char>,
    t: Seq<char>,
) -> Seq<char> {
    dropdown_head(ind, ev) + dropdown_field(ind, v) + dropdown_menu(ind, ev, its) + item_assignment(
        t,
        ind,
    ) + dropdown_tail(ind, ev)
}

/// A `DropdownMenu` at level `ind`: an `ExposedDropdownMenuBox` with its own
/// numbered state, or an error without a `value`, `onValueChange` or
/// `items`; either way it marks the use of experimental Material 3.
pub open spec fn dropdown_code(st: MarkupState, ps: Seq<ComponentProp>, ind: nat) -> (
    Result<Seq<char>, Seq<char>>,
    MarkupState,
) {
    let st1 = MarkupState { uses_experimental_material3: true, dropdown_count: st.dropdown_count };
    match (named_expr(ps, "value"@), named_expr(ps, "onValueChange"@), named_expr(ps, "items"@)) {
        (Some(v), Some(oc), Some(its)) => (
            Ok(dropdown_text(ind, expanded_var(st.dropdown_count), v, its, kotlin_lambda(oc))),
            MarkupState {
                uses_experimental_material3: true,
                dropdown_count: next_count(st.dropdown_count),
            },
        ),
        _ => (Err("DropdownMenu requires value, onValueChange, and items props"@), st1),
    }
}

/// The `onValueChange` lambda of a dropdown menu can be cut: a brace before
/// the arrow comes before it.
pub open spec fn dropdown_fine(ps: Seq<ComponentProp>) -> bool {
    match (named_expr(ps, "value"@), named_expr(ps, "onValueChange"@), named_expr(ps, "items"@)) {
        (Some(_), Some(oc), Some(_)) => {
            let t = kotlin_lambda(oc);
            match (first_occurrence(t, 0, "->"@), first_occurrence(t, 0, "{"@)) {
                (Some(a), Some(b)) => b < a,
                _ => true,
            }
        },
        _ => true,
    }
}

// ===================== The argument list =====================

/// The argument lines at level `ind` of the first `k` of `params`, with a
/// comma after all but the last.
pub open spec fn param_lines(params: Seq<Seq<char>>, k: nat, ind: nat) -> Seq<char>
    decreases k,
{
    if k == 0 {
        Seq::empty()
    } else {
        param_lines(params, (k - 1) as nat, ind) + indent_text(ind as int) + "    "@ + params[k
            - 1] + (if k < params.len() {
            ","@
        } else {
            Seq::empty()
        }) + "\n"@
    }
}

/// Whether one of `params` is longer than 40 bytes.
pub open spec fn any_long(params: Seq<Seq<char>>) -> bool {
    exists|i: int| 0 <= i < params.len() && byte_len(#[trigger] params[i]) > 40
}

/// The arguments inside the parentheses of a component at level `ind`: one
/// per line when there are several or a long one, else the one there is.
pub open spec fn param_list(params: Seq<Seq<char>>, ind: nat) -> Seq<char> {
    if params.len() > 1 || any_long(params) {
        "\n"@ + param_lines(params, params.len(), ind) + indent_text(ind as int)
    } else if params.len() == 1 {
        params[0]
    } else {
        Seq::empty()
    }
}


// ===================== Building the arguments =====================

/// The expression of the first prop of `ps` named `n`.
pub(crate) fn named_expr_of(ps: &Vec<ComponentProp>, n: &str) -> (r: Option<String>)
    ensures
        match r {
            Some(x) => named_expr(ps@, n@) == Some(x@),
            None => named_expr(ps@, n@) is None,
        },
{
    match crate::compose_modifiers::first_named_index(ps, n) {
        Some(i) => Some(crate::compose_imports::get_prop_expr(&ps[i].value)),
        None => None,
    }
}

/// The argument lines of prop `p` with value `v` of component `c`.
pub(crate) fn lines_of(g: &MarkupGen, c: &str, p: &str, v: &str) -> (r: Result<Vec<String>, String>)
    requires
        g.ctx.names_ok(),
        g.fine(c@, p@, v@),
    ensures
        match (r, g.lines(c@, p@, v@)) {
            (Ok(a), Ok(b)) => strs(a@) == b,
            (Err(a), Err(b)) => a@ == b,
            _ => false,
        },
{
    let t = match &g.component_type {
        Some(t) => Some(t.as_str()),
        None => None,
    };
    crate::compose_props::transform_prop(c, p, v, t, &g.ctx, &g.var_types)
}

/// `acc` followed by `more`.
pub(crate) fn append_all(acc: &mut Vec<String>, more: Vec<String>)
    ensures
        strs(final(acc)@) == strs(old(acc)@) + strs(more@),
{
    let mut m = more;
    let ghost a0 = strs(acc@);
    let ghost m0 = strs(m@);
    acc.append(&mut m);
    proof {
        assert(strs(acc@) =~= a0 + m0);
    }
}

/// One line `pre + x + post`.
pub(crate) fn framed_text(pre: &str, x: &String, post: &str) -> (r: String)
    ensures
        r@ == pre@ + x@ + post@,
{
    let mut r = lit(pre);
    push_string(&mut r, x);
    push_lit(&mut r, post);
    r
}

/// An error at a prefix of the props is the error of them all.
proof fn lemma_prop_lines_err(
    g: MarkupGen,
    c: Seq<char>,
    fs: Seq<(Seq<char>, Seq<char>)>,
    skip: Seq<Seq<char>>,
    k: int,
)
    requires
        0 <= k <= fs.len(),
        prop_lines_of(g, c, fs.take(k), skip) is Err,
    ensures
        prop_lines_of(g, c, fs, skip) == prop_lines_of(g, c, fs.take(k), skip),
    decreases fs.len() - k,
{
    if k < fs.len() {
        assert(fs.take(k + 1).drop_last() =~= fs.take(k));
        lemma_prop_lines_err(g, c, fs, skip, k + 1);
    } else {
        assert(fs.take(k) =~= fs);
    }
}

/// The argument lines of the props of component `c` not named in `skip`.
pub(crate) fn build_prop_lines(
    g: &MarkupGen,
    c: &str,
    ps: &Vec<ComponentProp>,
    skip: &Vec<String>,
) -> (r: Result<Vec<String>, String>)
    requires
        g.ctx.names_ok(),
        forall|i: int|
            0 <= i < ps@.len() && !strs(skip@).contains(#[trigger] ps@[i].name@) ==> g.fine(
                c@,
                ps@[i].name@,
                prop_expr(ps@[i].value),
            ),
    ensures
        match (r, prop_lines_of(*g, c@, flat(ps@), strs(skip@))) {
            (Ok(a), Ok(b)) => strs(a@) == b,
            (Err(a), Err(b)) => a@ == b,
            _ => false,
        },
{
    let ghost fs = flat(ps@);
    let ghost sk = strs(skip@);
    let mut acc: Vec<String> = Vec::new();
    let mut i: usize = 0;
    proof {
        assert(fs.take(0) =~= Seq::<(Seq<char>, Seq<char>)>::empty());
        assert(strs(acc@) =~= Seq::<Seq<char>>::empty());
    }
    while i < ps.len()
        invariant
            i <= ps@.len(),
            fs == flat(ps@),
            sk == strs(skip@),
            g.ctx.names_ok(),
            forall|k: int|
                0 <= k < ps@.len() && !sk.contains(#[trigger] ps@[k].name@) ==> g.fine(
                    c@,
                    ps@[k].name@,
                    prop_expr(ps@[k].value),
                ),
            prop_lines_of(*g, c@, fs.take(i as int), sk) == Ok::<Seq<Seq<char>>, Seq<char>>(
                strs(acc@),
            ),
        decreases ps.len() - i,
    {
        let p = &ps[i];
        proof {
            assert(fs.take(i + 1).drop_last() =~= fs.take(i as int));
            assert(fs.take(i + 1).last() == fs[i as int]);
            assert(fs[i as int] == (p.name@, prop_expr(p.value)));
        }
        if !crate::compose::contains_name(skip, &p.name) {
            let v = crate::compose_imports::get_prop_expr(&p.value);
            match lines_of(g, c, p.name.as_str(), v.as_str()) {
                Err(e) => {
                    proof {
                        lemma_prop_lines_err(*g, c@, fs, sk, i + 1);
                    }
                    return Err(e);
                },
                Ok(ls) => {
                    append_all(&mut acc, ls);
                },
            }
        }
        i = i + 1;
    }
    proof {
        assert(fs.take(ps@.len() as int) =~= fs);
    }
    Ok(acc)
}

/// `out` followed by `ms`, one after the other.
pub(crate) fn push_concat(out: &mut String, ms: &Vec<String>)
    ensures
        final(out)@ == old(out)@ + concat(strs(ms@)),
{
    let mut i: usize = 0;
    proof {
        assert(strs(ms@).take(0) =~= Seq::<Seq<char>>::empty());
    }
    while i < ms.len()
        invariant
            i <= ms@.len(),
            out@ == old(out)@ + concat(strs(ms@).take(i as int)),
        decreases ms.len() - i,
    {
        push_string(out, &ms[i]);
        proof {
            assert(strs(ms@).take(i + 1).drop_last() =~= strs(ms@).take(i as int));
        }
        i = i + 1;
    }
    proof {
        assert(strs(ms@).take(ms@.len() as int) =~= strs(ms@));
    }
}

/// `ms` on lines of their own, each after `pre`.
pub(crate) fn build_chain(ms: &Vec<String>, pre: &str) -> (r: String)
    ensures
        r@ == chain(strs(ms@), pre@),
{
    let mut out = String::new();
    let mut i: usize = 0;
    proof {
        assert(strs(ms@).take(0) =~= Seq::<Seq<char>>::empty());
    }
    while i < ms.len()
        invariant
            i <= ms@.len(),
            out@ == chain(strs(ms@).take(i as int), pre@),
        decreases ms.len() - i,
    {
        proof {
            assert(strs(ms@).take(i + 1).drop_last() =~= strs(ms@).take(i as int));
        }
        if i > 0 {
            push_lit(&mut out, "\n");
        }
        push_lit(&mut out, pre);
        push_string(&mut out, &ms[i]);
        i = i + 1;
    }
    proof {
        assert(strs(ms@).take(ms@.len() as int) =~= strs(ms@));
    }
    out
}

/// Two names.
fn two_names(a: &str, b: &str) -> (r: Vec<String>)
    ensures
        strs(r@) == seq![a@, b@],
{
    let mut r: Vec<String> = Vec::new();
    r.push(lit(a));
    r.push(lit(b));
    proof {
        assert(strs(r@) =~= seq![a@, b@]);
    }
    r
}

/// The arguments of a `Spacer`.
pub fn build_spacer_params(g: &MarkupGen, ps: &Vec<ComponentProp>) -> (r: Result<Vec<String>, String>)
    requires
        g.ctx.names_ok(),
        props_fine(*g, "Spacer"@, ps@),
    ensures
        match (r, spacer_params(*g, ps@)) {
            (Ok(a), Ok(b)) => strs(a@) == b,
            (Err(a), Err(b)) => a@ == b,
            _ => false,
        },
{
    let m = match named_expr_of(ps, "h") {
        Some(v) => framed_text("modifier = Modifier.height(", &v, ".dp)"),
        None => match named_expr_of(ps, "w") {
            Some(v) => framed_text("modifier = Modifier.width(", &v, ".dp)"),
            None => lit("modifier = Modifier.height(8.dp)"),
        },
    };
    let skip = two_names("h", "w");
    match build_prop_lines(g, "Spacer", ps, &skip) {
        Err(e) => Err(e),
        Ok(ls) => {
            let mut r: Vec<String> = Vec::new();
            r.push(m);
            proof {
                assert(strs(r@) =~= seq![m@]);
            }
            append_all(&mut r, ls);
            Ok(r)
        },
    }
}

/// The arguments of a component with no rules of its own.
pub fn build_generic_params(g: &MarkupGen, comp: &Component) -> (r: Result<Vec<String>, String>)
    requires
        g.ctx.names_ok(),
        props_fine(*g, comp.name@, comp.props@),
    ensures
        match (r, generic_params(*g, comp.name@, comp.props@)) {
            (Ok(a), Ok(b)) => strs(a@) == b,
            (Err(a), Err(b)) => a@ == b,
            _ => false,
        },
{
    let cfg = ModifierConfig {
        handle_size: true,
        handle_padding: true,
        handle_background: false,
        handle_click_as_modifier: false,
        handle_fill_max: true,
    };
    match crate::compose_modifiers::build_modifiers_for_component(comp, cfg, &g.ctx) {
        Err(e) => Err(e),
        Ok((m, h)) => match build_prop_lines(g, comp.name.as_str(), &comp.props, &h) {
            Err(e) => Err(e),
            Ok(ls) => {
                let mut r: Vec<String> = Vec::new();
                if m.len() > 0 {
                    let mut s = lit("modifier = Modifier");
                    push_concat(&mut s, &m);
                    r.push(s);
                }
                proof {
                    assert(strs(r@) =~= only_if(
                        m@.len() > 0,
                        seq!["modifier = Modifier"@ + concat(strs(m@))],
                    ));
                }
                append_all(&mut r, ls);
                Ok(r)
            },
        },
    }
}

/// `ms` without those that mention `fillMaxWidth`.
fn build_without_fill_width(ms: &Vec<String>) -> (r: Vec<String>)
    ensures
        strs(r@) == without_fill_width(strs(ms@)),
{
    let mut r: Vec<String> = Vec::new();
    let mut i: usize = 0;
    proof {
        assert(strs(ms@).take(0) =~= Seq::<Seq<char>>::empty());
        assert(strs(r@) =~= Seq::<Seq<char>>::empty());
    }
    while i < ms.len()
        invariant
            i <= ms@.len(),
            strs(r@) == without_fill_width(strs(ms@).take(i as int)),
        decreases ms.len() - i,
    {
        proof {
            assert(strs(ms@).take(i + 1).drop_last() =~= strs(ms@).take(i as int));
            assert(strs(ms@).take(i + 1).last() == ms@[i as int]@);
        }
        let ghost r0 = strs(r@);
        if !crate::text::str_contains(ms[i].as_str(), "fillMaxWidth") {
            r.push(lit(ms[i].as_str()));
            proof {
                assert(strs(r@) =~= r0 + seq![ms@[i as int]@]);
            }
        } else {
            proof {
                assert(r0 + Seq::<Seq<char>>::empty() =~= r0);
            }
        }
        i = i + 1;
    }
    proof {
        assert(strs(ms@).take(ms@.len() as int) =~= strs(ms@));
    }
    r
}

/// An explicit modifier made fit to follow others.
fn build_chainable(x: &String) -> (r: String)
    ensures
        r@ == chainable(x@),
{
    let v = str_to_chars(x.as_str());
    if crate::text::lit_at(v.as_slice(), 0, "Modifier.") {
        proof {
            reveal_strlit("Modifier.");
        }
        let mut r = lit(".");
        let rest = crate::text::string_from_range(v.as_slice(), 9, v.len());
        push_string(&mut r, &rest);
        r
    } else if crate::text::lit_at(v.as_slice(), 0, "Modifier\n") {
        proof {
            reveal_strlit("Modifier\n");
        }
        crate::text::string_from_range(v.as_slice(), 9, v.len())
    } else {
        lit(x.as_str())
    }
}

/// The arguments of a `Text` (with its text in `p0`), `Card` or `Button`.
pub fn build_text_like_params(g: &MarkupGen, comp: &Component, p0: Vec<String>) -> (r: Result<
    Vec<String>,
    String,
>)
    requires
        g.ctx.names_ok(),
        props_fine(*g, comp.name@, comp.props@),
    ensures
        match (r, text_like_params(*g, comp.name@, comp.props@, strs(p0@))) {
            (Ok(a), Ok(b)) => strs(a@) == b,
            (Err(a), Err(b)) => a@ == b,
            _ => false,
        },
{
    let is_text = str_eq(comp.name.as_str(), "Text");
    let cfg = ModifierConfig {
        handle_size: false,
        handle_padding: true,
        handle_background: false,
        handle_click_as_modifier: is_text,
        handle_fill_max: true,
    };
    let (m0, h0) = match crate::compose_modifiers::build_modifiers_for_component(comp, cfg, &g.ctx) {
        Err(e) => {
            return Err(e);
        },
        Ok(x) => x,
    };
    let mut m1 = m0;
    match named_expr_of(&comp.props, "fillMaxWidth") {
        Some(v) => {
            let t = crate::text::trim_str(v.as_str());
            if !str_eq(t.as_str(), "true") && !str_eq(t.as_str(), "false") {
                let mut f = build_without_fill_width(&m1);
                let ghost f0 = strs(f@);
                f.push(framed_text(".let { if (", &t, ") it.fillMaxWidth() else it }"));
                proof {
                    assert(strs(f@) =~= f0.push(
                        ".let { if ("@ + t@ + ") it.fillMaxWidth() else it }"@,
                    ));
                }
                m1 = f;
            }
        },
        None => {},
    }
    let mut h2 = h0;
    match named_expr_of(&comp.props, "modifier") {
        Some(v) => {
            let tl = crate::compose::transform_ternary(v.as_str());
            match crate::compose_modifiers::convert_hex_in_modifier(tl.as_str()) {
                Err(e) => {
                    return Err(e);
                },
                Ok(x) => {
                    let ghost a0 = strs(m1@);
                    let ghost b0 = strs(h2@);
                    m1.push(build_chainable(&x));
                    h2.push(lit("modifier"));
                    proof {
                        assert(strs(m1@) =~= a0.push(chainable(x@)));
                        assert(strs(h2@) =~= b0.push("modifier"@));
                    }
                },
            }
        },
        None => {},
    }
    match build_prop_lines(g, comp.name.as_str(), &comp.props, &h2) {
        Err(e) => Err(e),
        Ok(ls) => {
            let mut r = p0;
            let ghost r0 = strs(r@);
            if m1.len() > 0 {
                let ch = build_chain(&m1, "            ");
                let mut line = lit("modifier = Modifier\n");
                push_string(&mut line, &ch);
                r.push(line);
            }
            proof {
                assert(strs(r@) =~= r0 + only_if(
                    m1@.len() > 0,
                    seq!["modifier = Modifier\n"@ + chain(strs(m1@), "            "@)],
                ));
            }
            append_all(&mut r, ls);
            Ok(r)
        },
    }
}


// ===================== Building image arguments =====================

/// `v` without its leading and trailing quotes.
fn quote_trimmed_of(v: &Vec<char>) -> (r: Vec<char>)
    ensures
        r@ == quote_trimmed(v@),
{
    let mut a: usize = 0;
    proof {
        assert(v@.subrange(0, v@.len() as int) =~= v@);
    }
    while a < v.len() && v[a] == '"'
        invariant
            a <= v@.len(),
            trim_start_char(v@.subrange(a as int, v@.len() as int), '"') == trim_start_char(v@, '"'),
        decreases v.len() - a,
    {
        proof {
            assert(v@.subrange(a as int, v@.len() as int).drop_first() =~= v@.subrange(
                a + 1,
                v@.len() as int,
            ));
        }
        a = a + 1;
    }
    let mut b: usize = v.len();
    while b > a && v[b - 1] == '"'
        invariant
            a <= b <= v@.len(),
            trim_end_char(v@.subrange(a as int, b as int), '"') == trim_end_char(
                trim_start_char(v@, '"'),
                '"',
            ),
        decreases b,
    {
        proof {
            assert(v@.subrange(a as int, b as int).drop_last() =~= v@.subrange(a as int, b - 1));
        }
        b = b - 1;
    }
    crate::compose_modifiers::sub_range(v, a, b)
}

/// The quote-trimmed, trimmed value `e`.
fn trimmed_unquoted(e: &str) -> (r: Vec<char>)
    ensures
        r@ == quote_trimmed(spec_trim(e@)),
{
    let t = crate::text::trim_str(e);
    let tv = str_to_chars(t.as_str());
    quote_trimmed_of(&tv)
}

/// The `ContentScale` of a web-style `fit` value.
fn build_fit_scale(e: &str) -> (r: String)
    requires
        fit_fine(e@),
    ensures
        r@ == fit_scale(e@),
{
    let q = trimmed_unquoted(e);
    let qs = crate::text::string_from_chars(q.as_slice());
    if str_eq(qs.as_str(), "cover") {
        lit("ContentScale.Crop")
    } else if str_eq(qs.as_str(), "contain") {
        lit("ContentScale.Fit")
    } else if str_eq(qs.as_str(), "fill") {
        lit("ContentScale.FillBounds")
    } else if str_eq(qs.as_str(), "fill-width") {
        lit("ContentScale.FillWidth")
    } else if str_eq(qs.as_str(), "fill-height") {
        lit("ContentScale.FillHeight")
    } else if str_eq(qs.as_str(), "none") {
        lit("ContentScale.None")
    } else if str_eq(qs.as_str(), "scale-down") {
        lit("ContentScale.Inside")
    } else if crate::text::str_starts_with(qs.as_str(), "ContentScale.") {
        qs
    } else {
        let mut r = lit("ContentScale.");
        let u = crate::recyclerview::to_uppercase(q[0]);
        push_string(&mut r, &u);
        let rest = crate::text::string_from_range(q.as_slice(), 1, q.len());
        push_string(&mut r, &rest);
        r
    }
}

/// The `ContentScale` of a `contentScale` value.
fn build_scale_value(e: &str) -> (r: String)
    ensures
        r@ == scale_value(e@),
{
    let q = trimmed_unquoted(e);
    let qs = crate::text::string_from_chars(q.as_slice());
    let t = qs.as_str();
    if str_eq(t, "Crop") || str_eq(t, "crop") {
        lit("ContentScale.Crop")
    } else if str_eq(t, "Fit") || str_eq(t, "fit") {
        lit("ContentScale.Fit")
    } else if str_eq(t, "FillBounds") || str_eq(t, "fillBounds") {
        lit("ContentScale.FillBounds")
    } else if str_eq(t, "None") || str_eq(t, "none") {
        lit("ContentScale.None")
    } else if str_eq(t, "Inside") || str_eq(t, "inside") {
        lit("ContentScale.Inside")
    } else if crate::text::str_starts_with(t, "ContentScale.") {
        lit(t)
    } else {
        let mut r = lit("ContentScale.");
        push_lit(&mut r, t);
        r
    }
}

/// Components without rules for their props: any prop can be transformed.
proof fn lemma_free_component(g: MarkupGen, c: Seq<char>, p: Seq<char>, v: Seq<char>)
    requires
        c == "AsyncImage"@ || c == "Spacer"@ || c == "Icon"@ || c == "Scaffold"@ || c
            == "TopAppBar"@ || c == "AlertDialog"@ || c == "Tab"@ || c == "FilterChip"@ || c
            == "Box"@,
    ensures
        g.fine(c, p, v),
{
    reveal_strlit("AsyncImage");
    reveal_strlit("Spacer");
    reveal_strlit("Icon");
    reveal_strlit("Scaffold");
    reveal_strlit("TopAppBar");
    reveal_strlit("AlertDialog");
    reveal_strlit("Tab");
    reveal_strlit("FilterChip");
    reveal_strlit("Box");
    reveal_strlit("TextField");
    reveal_strlit("OutlinedTextField");
    reveal_strlit("Column");
    reveal_strlit("Row");
    reveal_strlit("Text");
    reveal_strlit("Card");
    if c == "Icon"@ {
        assert(c[0] == 'I' && "Text"@[0] == 'T' && "Card"@[0] == 'C');
    }
    if c == "Tab"@ {
        assert(c[0] == 'T' && "Row"@[0] == 'R');
    }
    if c == "Box"@ {
        assert(c[0] == 'B' && "Row"@[0] == 'R');
    }
    if c == "Spacer"@ {
        assert(c[0] == 'S' && "Column"@[0] == 'C');
    }
    if c == "TopAppBar"@ {
        assert(c[1] == 'o' && "TextField"@[1] == 'e');
    }
    assert(c != "TextField"@);
    assert(c != "OutlinedTextField"@);
    assert(c != "Column"@);
    assert(c != "Row"@);
    assert(c != "Text"@);
    assert(c != "Card"@);
}

/// The argument lines of one prop `n` (expression `e`) of an `Image`.
fn build_image_prop_lines(g: &MarkupGen, n: &str, e: &str) -> (r: Result<Vec<String>, String>)
    requires
        g.ctx.names_ok(),
        n@ == "fit"@ ==> fit_fine(replaced(e@, "$screen.params."@, Seq::empty())),
    ensures
        match (r, image_prop_lines(*g, n@, e@)) {
            (Ok(a), Ok(b)) => strs(a@) == b,
            (Err(a), Err(b)) => a@ == b,
            _ => false,
        },
{
    proof {
        reveal_strlit("$screen.params.");
        reveal_strlit("");
        assert(""@ =~= Seq::<char>::empty());
    }
    let v = crate::compose::replace_all(e, "$screen.params.", "");
    let line = if str_eq(n, "src") || str_eq(n, "model") {
        framed_text("model = ", &v, "")
    } else if str_eq(n, "alt") || str_eq(n, "contentDescription") {
        framed_text("contentDescription = ", &v, "")
    } else if str_eq(n, "fit") {
        let sc = build_fit_scale(v.as_str());
        framed_text("contentScale = ", &sc, "")
    } else if str_eq(n, "contentScale") {
        let sc = build_scale_value(v.as_str());
        framed_text("contentScale = ", &sc, "")
    } else {
        proof {
            lemma_free_component(*g, "AsyncImage"@, n@, v@);
        }
        return lines_of(g, "AsyncImage", n, v.as_str());
    };
    let mut r: Vec<String> = Vec::new();
    r.push(line);
    proof {
        assert(strs(r@) =~= seq![line@]);
    }
    Ok(r)
}

proof fn lemma_image_lines_err(g: MarkupGen, fs: Seq<(Seq<char>, Seq<char>)>, k: int)
    requires
        0 <= k <= fs.len(),
        image_lines(g, fs.take(k)) is Err,
    ensures
        image_lines(g, fs) == image_lines(g, fs.take(k)),
    decreases fs.len() - k,
{
    if k < fs.len() {
        assert(fs.take(k + 1).drop_last() =~= fs.take(k));
        lemma_image_lines_err(g, fs, k + 1);
    } else {
        assert(fs.take(k) =~= fs);
    }
}

/// The argument lines of the props of an `Image` that are not part of its
/// modifier.
fn build_image_lines(g: &MarkupGen, ps: &Vec<ComponentProp>) -> (r: Result<Vec<String>, String>)
    requires
        g.ctx.names_ok(),
        image_fine(ps@),
    ensures
        match (r, image_lines(*g, flat(ps@))) {
            (Ok(a), Ok(b)) => strs(a@) == b,
            (Err(a), Err(b)) => a@ == b,
            _ => false,
        },
{
    let ghost fs = flat(ps@);
    let mut acc: Vec<String> = Vec::new();
    let mut i: usize = 0;
    proof {
        assert(fs.take(0) =~= Seq::<(Seq<char>, Seq<char>)>::empty());
        assert(strs(acc@) =~= Seq::<Seq<char>>::empty());
    }
    while i < ps.len()
        invariant
            i <= ps@.len(),
            fs == flat(ps@),
            g.ctx.names_ok(),
            image_fine(ps@),
            image_lines(*g, fs.take(i as int)) == Ok::<Seq<Seq<char>>, Seq<char>>(strs(acc@)),
        decreases ps.len() - i,
    {
        let p = &ps[i];
        proof {
            assert(fs.take(i + 1).drop_last() =~= fs.take(i as int));
            assert(fs.take(i + 1).last() == fs[i as int]);
            assert(fs[i as int] == (p.name@, prop_expr(p.value)));
            reveal_strlit("fit");
            if p.name@ == "fit"@ {
                assert(ps@[i as int].name@ == "fit"@);
            }
        }
        let n = p.name.as_str();
        let skip = str_eq(n, "width") || str_eq(n, "height") || str_eq(n, "fillMaxWidth") || str_eq(
            n,
            "fillMaxHeight",
        ) || str_eq(n, "fillMaxSize") || str_eq(n, "padding") || str_eq(n, "p") || str_eq(n, "px")
            || str_eq(n, "py") || str_eq(n, "pt") || str_eq(n, "pb") || str_eq(n, "pl") || str_eq(
            n,
            "pr",
        );
        if !skip {
            let v = crate::compose_imports::get_prop_expr(&p.value);
            match build_image_prop_lines(g, n, v.as_str()) {
                Err(e) => {
                    proof {
                        lemma_image_lines_err(*g, fs, i + 1);
                    }
                    return Err(e);
                },
                Ok(ls) => {
                    append_all(&mut acc, ls);
                },
            }
        }
        i = i + 1;
    }
    proof {
        assert(fs.take(ps@.len() as int) =~= fs);
    }
    Ok(acc)
}

/// The fill modifier of prop `n` when its value is `true`.
fn build_fill_if_true(ps: &Vec<ComponentProp>, n: &str) -> (r: Vec<String>)
    ensures
        strs(r@) == fill_if_true(ps@, n@),
{
    let mut r: Vec<String> = Vec::new();
    match named_expr_of(ps, n) {
        Some(v) => {
            let t = crate::text::trim_str(v.as_str());
            if str_eq(t.as_str(), "true") {
                let name = lit(n);
                r.push(framed_text(".", &name, "()"));
                proof {
                    assert(strs(r@) =~= seq!["."@ + n@ + "()"@]);
                }
            } else {
                proof {
                    assert(strs(r@) =~= Seq::<Seq<char>>::empty());
                }
            }
        },
        None => {
            proof {
                assert(strs(r@) =~= Seq::<Seq<char>>::empty());
            }
        },
    }
    r
}

/// The size modifiers of an `Image`, with whether its width and its height
/// fill the space.
#[verifier::spinoff_prover]
fn build_image_sizes(ps: &Vec<ComponentProp>) -> (r: (Vec<String>, bool, bool))
    ensures
        (strs(r.0@), r.1, r.2) == image_sizes(ps@),
{
    let mut mods: Vec<String> = Vec::new();
    let mut fw = false;
    let mut fh = false;
    match named_expr_of(ps, "fillMaxSize") {
        Some(v) => {
            let t = crate::text::trim_str(v.as_str());
            if str_eq(t.as_str(), "true") {
                mods.push(lit(".fillMaxSize()"));
                fw = true;
                fh = true;
                proof {
                    assert(strs(mods@) =~= seq![".fillMaxSize()"@]);
                }
            } else {
                proof {
                    assert(strs(mods@) =~= Seq::<Seq<char>>::empty());
                }
            }
        },
        None => {
            let a = build_fill_if_true(ps, "fillMaxWidth");
            let b = build_fill_if_true(ps, "fillMaxHeight");
            fw = a.len() > 0;
            fh = b.len() > 0;
            mods = a;
            append_all(&mut mods, b);
        },
    }
    let ghost s1 = (strs(mods@), fw, fh);
    assert(s1 == {
        match named_expr(ps@, "fillMaxSize"@) {
            Some(v) => if spec_trim(v) == "true"@ {
                (seq![".fillMaxSize()"@], true, true)
            } else {
                (Seq::empty(), false, false)
            },
            None => (
                fill_if_true(ps@, "fillMaxWidth"@) + fill_if_true(ps@, "fillMaxHeight"@),
                fill_if_true(ps@, "fillMaxWidth"@).len() > 0,
                fill_if_true(ps@, "fillMaxHeight"@).len() > 0,
            ),
        }
    });
    match named_expr_of(ps, "width") {
        Some(v) => {
            let (d, pct) = crate::compose_modifiers::parse_dimension(v.as_str(), "width", "Image");
            if pct {
                if !(crate::compose_modifiers::mods_contain(&mods, "fillMaxWidth")
                    || crate::compose_modifiers::mods_contain(&mods, "fillMaxSize")) {
                    let ghost m0 = strs(mods@);
                    mods.push(lit(".fillMaxWidth()"));
                    fw = true;
                    proof {
                        assert(strs(mods@) =~= m0.push(".fillMaxWidth()"@));
                    }
                }
            } else if d.as_str().unicode_len() > 0 {
                let ghost m0 = strs(mods@);
                mods.push(framed_text(".width(", &d, ")"));
                proof {
                    assert(strs(mods@) =~= m0.push(".width("@ + d@ + ")"@));
                }
            }
        },
        None => {},
    }
    match named_expr_of(ps, "height") {
        Some(v) => {
            let (d, pct) = crate::compose_modifiers::parse_dimension(v.as_str(), "height", "Image");
            if pct {
                if !(crate::compose_modifiers::mods_contain(&mods, "fillMaxHeight")
                    || crate::compose_modifiers::mods_contain(&mods, "fillMaxSize")) {
                    let ghost m0 = strs(mods@);
                    mods.push(lit(".fillMaxHeight()"));
                    fh = true;
                    proof {
                        assert(strs(mods@) =~= m0.push(".fillMaxHeight()"@));
                    }
                }
            } else if d.as_str().unicode_len() > 0 {
                let ghost m0 = strs(mods@);
                mods.push(framed_text(".height(", &d, ")"));
                proof {
                    assert(strs(mods@) =~= m0.push(".height("@ + d@ + ")"@));
                }
            }
        },
        None => {},
    }
    (mods, fw, fh)
}

/// Whether one of `ps` is a padding shortcut.
fn has_shortcut_of(ps: &Vec<ComponentProp>) -> (r: bool)
    ensures
        r == has_shortcut(ps@),
{
    let mut i: usize = 0;
    while i < ps.len()
        invariant
            i <= ps@.len(),
            forall|k: int| 0 <= k < i ==> !is_shortcut(#[trigger] ps@[k].name@),
        decreases ps.len() - i,
    {
        let n = ps[i].name.as_str();
        if str_eq(n, "p") || str_eq(n, "px") || str_eq(n, "py") || str_eq(n, "pt") || str_eq(n, "pb")
            || str_eq(n, "pl") || str_eq(n, "pr") {
            assert(is_shortcut(ps@[i as int].name@));
            return true;
        }
        i = i + 1;
    }
    false
}

/// The default `ContentScale` of an image.
fn build_default_scale(fw: bool, fh: bool) -> (r: String)
    ensures
        r@ == default_scale(fw, fh),
{
    if fw && fh {
        lit("ContentScale.Fit")
    } else if fw {
        lit("ContentScale.FillWidth")
    } else if fh {
        lit("ContentScale.FillHeight")
    } else {
        lit("ContentScale.Fit")
    }
}

/// The arguments of an `Image` (shown as `AsyncImage`).
pub fn build_image_params(g: &MarkupGen, ps: &Vec<ComponentProp>) -> (r: Result<Vec<String>, String>)
    requires
        g.ctx.names_ok(),
        image_fine(ps@),
    ensures
        match (r, image_params(*g, ps@)) {
            (Ok(a), Ok(b)) => strs(a@) == b,
            (Err(a), Err(b)) => a@ == b,
            _ => false,
        },
{
    let (smods, fw, fh) = build_image_sizes(ps);
    let pad = named_expr_of(ps, "padding");
    let any = named_expr_of(ps, "width").is_some() || named_expr_of(ps, "height").is_some()
        || named_expr_of(ps, "fillMaxWidth").is_some() || named_expr_of(ps, "fillMaxHeight").is_some()
        || named_expr_of(ps, "fillMaxSize").is_some() || pad.is_some() || has_shortcut_of(ps);
    let mut mods = smods;
    let ghost m0 = strs(mods@);
    let pm = match &pad {
        Some(p) => crate::compose_modifiers::build_padding_modifier(ps, Some(p.as_str())),
        None => crate::compose_modifiers::build_padding_modifier(ps, None),
    };
    match pm {
        Some(m) => {
            mods.push(m);
            proof {
                assert(strs(mods@) =~= m0 + seq![m@]);
            }
        },
        None => {
            proof {
                assert(strs(mods@) =~= m0 + Seq::<Seq<char>>::empty());
            }
        },
    }
    match build_image_lines(g, ps) {
        Err(e) => Err(e),
        Ok(ls) => {
            let mut r: Vec<String> = Vec::new();
            if any {
                let mut s = lit("modifier = Modifier");
                push_concat(&mut s, &mods);
                r.push(s);
            }
            proof {
                assert(strs(r@) =~= only_if(any, seq!["modifier = Modifier"@ + concat(strs(mods@))]));
            }
            append_all(&mut r, ls);
            let ghost r1 = strs(r@);
            if named_expr_of(ps, "fit").is_none() && named_expr_of(ps, "contentScale").is_none() {
                let sc = build_default_scale(fw, fh);
                let mut line = lit("contentScale = ");
                push_string(&mut line, &sc);
                r.push(line);
            }
            proof {
                assert(strs(r@) =~= r1 + only_if(
                    named_expr(ps@, "fit"@) is None && named_expr(ps@, "contentScale"@) is None,
                    seq!["contentScale = "@ + default_scale(fw, fh)],
                ));
            }
            let ghost r2 = strs(r@);
            if !crate::compose_imports::has_prop_named(ps, "alt")
                && !crate::compose_imports::has_prop_named(ps, "contentDescription") {
                r.push(lit("contentDescription = null"));
            }
            proof {
                assert(strs(r@) =~= r2 + only_if(
                    !has_prop(ps@, "alt"@) && !has_prop(ps@, "contentDescription"@),
                    seq!["contentDescription = null"@],
                ));
            }
            Ok(r)
        },
    }
}


// ===================== Building async image arguments =====================

/// A drawable: a quoted name as a resource, else the expression.
fn build_drawable(v: &String) -> (r: String)
    requires
        is_quoted_value(v@) ==> v@.len() >= 2,
    ensures
        r@ == drawable(v@),
{
    proof {
        reveal_strlit("");
        assert(""@ =~= Seq::<char>::empty());
    }
    let cv = str_to_chars(v.as_str());
    if cv.len() > 0 && cv[0] == '"' && cv[cv.len() - 1] == '"' {
        let name = crate::text::string_from_range(cv.as_slice(), 1, cv.len() - 1);
        framed_text("R.drawable.", &name, "")
    } else {
        lit(v.as_str())
    }
}

/// `out` followed by `pre + v + post` when there is a `v`.
fn push_opt(out: &mut String, v: &Option<String>, pre: &str, post: &str)
    ensures
        final(out)@ == old(out)@ + opt_text(
            match v {
                Some(x) => Some(x@),
                None => None,
            },
            pre@,
            post@,
        ),
{
    match v {
        Some(x) => {
            push_lit(out, pre);
            push_string(out, x);
            push_lit(out, post);
        },
        None => {
            proof {
                assert(old(out)@ + Seq::<char>::empty() =~= old(out)@);
            }
        },
    }
}

/// The view of an optional string.
pub open spec fn opt_str(v: Option<String>) -> Option<Seq<char>> {
    match v {
        Some(x) => Some(x@),
        None => None,
    }
}

/// The optional drawable of an optional value.
fn opt_drawable(v: &Option<String>) -> (r: Option<String>)
    requires
        v matches Some(x) ==> (is_quoted_value(x@) ==> x@.len() >= 2),
    ensures
        opt_str(r) == match opt_str(*v) {
            Some(x) => Some(drawable(x)),
            None => None,
        },
{
    match v {
        Some(x) => Some(build_drawable(x)),
        None => None,
    }
}

/// The size modifier of an async image with both a width and a height.
fn build_size_line(ps: &Vec<ComponentProp>) -> (r: Vec<String>)
    ensures
        strs(r@) == size_line(ps@),
{
    let mut r: Vec<String> = Vec::new();
    match (named_expr_of(ps, "width"), named_expr_of(ps, "height")) {
        (Some(w), Some(_)) => {
            r.push(framed_text("modifier = Modifier.size(", &w, ".dp)"));
            proof {
                assert(strs(r@) =~= seq!["modifier = Modifier.size("@ + w@ + ".dp)"@]);
            }
        },
        _ => {
            proof {
                assert(strs(r@) =~= Seq::<Seq<char>>::empty());
            }
        },
    }
    r
}

/// The arguments of an `AsyncImage`.
pub fn build_async_image_params(g: &MarkupGen, ps: &Vec<ComponentProp>) -> (r: Result<
    Vec<String>,
    String,
>)
    requires
        g.ctx.names_ok(),
        async_image_fine(ps@),
    ensures
        match (r, async_image_params(*g, ps@)) {
            (Ok(a), Ok(b)) => strs(a@) == b,
            (Err(a), Err(b)) => a@ == b,
            _ => false,
        },
{
    proof {
        reveal_strlit("");
        assert(""@ =~= Seq::<char>::empty());
    }
    let url = named_expr_of(ps, "url");
    let cd = named_expr_of(ps, "contentDescription");
    let ph = named_expr_of(ps, "placeholder");
    let er = named_expr_of(ps, "error");
    let cf = named_expr_of(ps, "crossfade");
    let has_mod = crate::compose_imports::has_prop_named(ps, "modifier");
    let mut first: Vec<String> = Vec::new();
    if !has_mod {
        if (ph.is_some() || er.is_some() || cf.is_some()) && url.is_some() {
            let u = match &url {
                Some(u) => lit(u.as_str()),
                None => String::new(),
            };
            let mut b = framed_text(
                "model = ImageRequest.Builder(LocalContext.current)\n            .data(",
                &u,
                ")",
            );
            push_opt(&mut b, &cf, "\n            .crossfade(", ")");
            let phd = opt_drawable(&ph);
            push_opt(&mut b, &phd, "\n            .placeholder(", ")");
            let erd = opt_drawable(&er);
            push_opt(&mut b, &erd, "\n            .error(", ")");
            push_lit(&mut b, "\n            .build()");
            first.push(b);
            let ghost f1 = strs(first@);
            match &cd {
                Some(x) => {
                    first.push(framed_text("contentDescription = ", x, ""));
                },
                None => {},
            }
            proof {
                assert(strs(first@) =~= f1 + opt_line(opt_str(cd), "contentDescription = "@, Seq::empty()));
            }
            append_all(&mut first, build_size_line(ps));
            let ghost f2 = strs(first@);
            first.push(lit("contentScale = ContentScale.Crop"));
            proof {
                assert(strs(first@) =~= f2 + seq!["contentScale = ContentScale.Crop"@]);
                assert(f1 =~= seq![image_request(url->0@, opt_str(cf), opt_str(ph), opt_str(er))]);
            }
        } else {
            match &url {
                Some(x) => {
                    first.push(framed_text("model = ", x, ""));
                },
                None => {},
            }
            proof {
                assert(strs(first@) =~= opt_line(opt_str(url), "model = "@, Seq::empty()));
            }
            let ghost f1 = strs(first@);
            if cd.is_none() {
                first.push(lit("contentDescription = null"));
            }
            proof {
                assert(strs(first@) =~= f1 + only_if(
                    cd is None,
                    seq!["contentDescription = null"@],
                ));
            }
            append_all(&mut first, build_size_line(ps));
        }
    } else {
        proof {
            assert(strs(first@) =~= Seq::<Seq<char>>::empty());
        }
    }
    let mut skip: Vec<String> = Vec::new();
    if !has_mod {
        skip.push(lit("url"));
        skip.push(lit("width"));
        skip.push(lit("height"));
        skip.push(lit("placeholder"));
        skip.push(lit("error"));
        skip.push(lit("crossfade"));
        skip.push(lit("contentDescription"));
    }
    proof {
        if has_mod {
            assert(strs(skip@) =~= Seq::<Seq<char>>::empty());
        } else {
            assert(strs(skip@) =~= seq![
                "url"@,
                "width"@,
                "height"@,
                "placeholder"@,
                "error"@,
                "crossfade"@,
                "contentDescription"@,
            ]);
        }
        assert forall|i: int| 0 <= i < ps@.len() implies g.fine(
            "AsyncImage"@,
            #[trigger] ps@[i].name@,
            prop_expr(ps@[i].value),
        ) by {
            lemma_free_component(*g, "AsyncImage"@, ps@[i].name@, prop_expr(ps@[i].value));
        }
    }
    match build_prop_lines(g, "AsyncImage", ps, &skip) {
        Err(e) => Err(e),
        Ok(ls) => {
            append_all(&mut first, ls);
            Ok(first)
        },
    }
}

// ===================== Building a dropdown menu =====================

/// `out` followed by `ind + t + "\n"`.
fn push_ln(out: &mut String, ind: &String, t: &str)
    ensures
        final(out)@ == old(out)@ + ind@ + t@ + "\n"@,
{
    push_string(out, ind);
    push_lit(out, t);
    push_lit(out, "\n");
}

/// `out` followed by `ind + a + x + b + "\n"`.
fn push_ln_with(out: &mut String, ind: &String, a: &str, x: &String, b: &str)
    ensures
        final(out)@ == old(out)@ + ind@ + a@ + x@ + b@ + "\n"@,
{
    push_string(out, ind);
    push_lit(out, a);
    push_string(out, x);
    push_lit(out, b);
    push_lit(out, "\n");
}

fn build_dropdown_head(ind: &String, ev: &String) -> (r: String)
    ensures
        forall|n: nat| ind@ == indent_text(n as int) ==> r@ == dropdown_head(n, ev@),
{
    let mut out = String::new();
    push_ln_with(&mut out, ind, "var ", ev, " by remember { mutableStateOf(false) }");
    push_ln(&mut out, ind, "ExposedDropdownMenuBox(");
    push_ln_with(&mut out, ind, "    expanded = ", ev, ",");
    push_string(&mut out, ind);
    push_lit(&mut out, "    onExpandedChange = { ");
    push_string(&mut out, ev);
    push_lit(&mut out, " = !");
    push_string(&mut out, ev);
    push_lit(&mut out, " }");
    push_lit(&mut out, "\n");
    push_ln(&mut out, ind, ") {");
    proof {
        assert forall|n: nat| ind@ == indent_text(n as int) implies out@ == dropdown_head(
            n,
            ev@,
        ) by {
            assert(out@ =~= dropdown_head(n, ev@));
        }
    }
    out
}

fn build_dropdown_field(ind: &String, v: &String) -> (r: String)
    ensures
        forall|n: nat| ind@ == indent_text(n as int) ==> r@ == dropdown_field(n, v@),
{
    let mut out = String::new();
    push_ln(&mut out, ind, "    TextField(");
    push_ln_with(&mut out, ind, "        value = ", v, ",");
    push_ln(&mut out, ind, "        onValueChange = {},");
    push_ln(&mut out, ind, "        readOnly = true,");
    push_ln(&mut out, ind, "        modifier = Modifier.menuAnchor()");
    push_ln(&mut out, ind, "    )");
    proof {
        assert forall|n: nat| ind@ == indent_text(n as int) implies out@ == dropdown_field(
            n,
            v@,
        ) by {
            assert(out@ =~= dropdown_field(n, v@));
        }
    }
    out
}

#[verifier::rlimit(50)]
fn build_dropdown_menu(ind: &String, ev: &String, its: &String) -> (r: String)
    ensures
        forall|n: nat| ind@ == indent_text(n as int) ==> r@ == dropdown_menu(n, ev@, its@),
{
    let mut out = String::new();
    push_ln(&mut out, ind, "    ExposedDropdownMenu(");
    push_ln_with(&mut out, ind, "        expanded = ", ev, ",");
    push_ln_with(&mut out, ind, "        onDismissRequest = { ", ev, " = false }");
    push_ln(&mut out, ind, "    ) {");
    push_ln_with(&mut out, ind, "        ", its, ".forEach { item ->");
    push_ln(&mut out, ind, "            DropdownMenuItem(");
    push_ln(&mut out, ind, "                text = { Text(item) },");
    push_ln(&mut out, ind, "                onClick = {");
    proof {
        assert forall|n: nat| ind@ == indent_text(n as int) implies out@ == dropdown_menu(
            n,
            ev@,
            its@,
        ) by {
            assert(out@ =~= dropdown_menu(n, ev@, its@));
        }
    }
    out
}

fn build_dropdown_tail(ind: &String, ev: &String) -> (r: String)
    ensures
        forall|n: nat| ind@ == indent_text(n as int) ==> r@ == dropdown_tail(n, ev@),
{
    let mut out = String::new();
    push_ln_with(&mut out, ind, "                    ", ev, " = false");
    push_ln(&mut out, ind, "                }");
    push_ln(&mut out, ind, "            )");
    push_ln(&mut out, ind, "        }");
    push_ln(&mut out, ind, "    }");
    push_ln(&mut out, ind, "}");
    proof {
        assert forall|n: nat| ind@ == indent_text(n as int) implies out@ == dropdown_tail(
            n,
            ev@,
        ) by {
            assert(out@ =~= dropdown_tail(n, ev@));
        }
    }
    out
}

/// `s` with `rep` before, between and after its characters.
fn build_interleaved(s: &String, rep: &str) -> (r: String)
    ensures
        r@ == interleaved(s@, rep@),
{
    let v = str_to_chars(s.as_str());
    let mut out = lit(rep);
    let mut i: usize = 0;
    proof {
        assert(v@.take(0) =~= Seq::<char>::empty());
    }
    while i < v.len()
        invariant
            i <= v@.len(),
            v@ == s@,
            out@ == interleaved(v@.take(i as int), rep@),
        decreases v.len() - i,
    {
        proof {
            assert(v@.take(i + 1).drop_last() =~= v@.take(i as int));
        }
        crate::text::push_char(&mut out, v[i]);
        push_lit(&mut out, rep);
        i = i + 1;
    }
    proof {
        assert(v@.take(v@.len() as int) =~= v@);
    }
    out
}

/// The statement of a menu item's click.
fn build_item_assignment(t: &String, ind: &String) -> (r: String)
    requires
        match (first_occurrence(t@, 0, "->"@), first_occurrence(t@, 0, "{"@)) {
            (Some(a), Some(b)) => b < a,
            _ => true,
        },
    ensures
        forall|n: nat| ind@ == indent_text(n as int) ==> r@ == item_assignment(t@, n),
{
    let v = str_to_chars(t.as_str());
    proof {
        reveal_strlit("->");
        reveal_strlit("{");
        reveal_strlit("}");
        assert("->"@.len() == 2);
    }
    match crate::compose_modifiers::find_first(&v, 0, "->") {
        None => {
            let r = String::new();
            proof {
                assert forall|n: nat| ind@ == indent_text(n as int) implies r@ == item_assignment(
                    t@,
                    n,
                ) by {
                    assert(r@ =~= Seq::<char>::empty());
                }
            }
            r
        },
        Some(a) => {
            proof {
                reveal_strlit("->");
                assert(a + "->"@.len() <= v@.len());
                assert("->"@.len() == 2);
                assert(a + 2 <= v@.len());
                assert(v@.len() == v.len());
            }
            let start: usize = a + 2;
            let after = crate::text::trimmed_range(v.as_slice(), start, v.len());
            let param = match crate::compose_modifiers::find_first(&v, 0, "{") {
                Some(b) => {
                    proof {
                        reveal_strlit("{");
                    }
                    crate::text::trimmed_range(v.as_slice(), b + 1, a)
                },
                None => String::new(),
            };
            let av = str_to_chars(after.as_str());
            let cut = if crate::compose_modifiers::chars_end_with(&av, "}") {
                crate::text::string_from_range(av.as_slice(), 0, av.len() - 1)
            } else {
                lit(after.as_str())
            };
            proof {
                reveal_strlit("}");
                if ends_with(after@, "}"@) {
                    assert(av@.subrange(0, av@.len() - 1) =~= after@.drop_last());
                }
            }
            let assignment = crate::text::trim_str(cut.as_str());
            let ia = if param.as_str().unicode_len() == 0 {
                build_interleaved(&assignment, "item")
            } else {
                crate::compose::replace_all(assignment.as_str(), param.as_str(), "item")
            };
            let mut r = lit(ind.as_str());
            push_lit(&mut r, "                    ");
            push_string(&mut r, &ia);
            push_lit(&mut r, "\n");
            proof {
                assert forall|n: nat| ind@ == indent_text(n as int) implies r@ == item_assignment(
                    t@,
                    n,
                ) by {
                    assert(r@ =~= item_assignment(t@, n));
                }
            }
            r
        },
    }
}

/// A `DropdownMenu` at level `indent`.
pub fn build_dropdown(st: &mut MarkupState, ps: &Vec<ComponentProp>, indent: usize) -> (r: Result<
    String,
    String,
>)
    requires
        dropdown_fine(ps@),
    ensures
        match (r, dropdown_code(*old(st), ps@, indent as nat).0) {
            (Ok(a), Ok(b)) => a@ == b,
            (Err(a), Err(b)) => a@ == b,
            _ => false,
        },
        *final(st) == dropdown_code(*old(st), ps@, indent as nat).1,
{
    st.uses_experimental_material3 = true;
    let v = named_expr_of(ps, "value");
    let oc = named_expr_of(ps, "onValueChange");
    let its = named_expr_of(ps, "items");
    match (v, oc, its) {
        (Some(v), Some(oc), Some(its)) => {
            let t = crate::compose::transform_lambda_arrow(oc.as_str());
            let id = st.dropdown_count;
            st.dropdown_count = if id < usize::MAX {
                id + 1
            } else {
                0
            };
            let ev = if id == 0 {
                lit("expanded")
            } else {
                let mut e = lit("expanded");
                push_decimal(&mut e, id);
                e
            };
            let ind = crate::compose_text::indent_string(indent);
            let mut out = build_dropdown_head(&ind, &ev);
            let f = build_dropdown_field(&ind, &v);
            push_string(&mut out, &f);
            let m = build_dropdown_menu(&ind, &ev, &its);
            push_string(&mut out, &m);
            let a = build_item_assignment(&t, &ind);
            push_string(&mut out, &a);
            let tl = build_dropdown_tail(&ind, &ev);
            push_string(&mut out, &tl);
            proof {
                assert(ev@ == expanded_var(id));
                assert(out@ =~= dropdown_text(indent as nat, ev@, v@, its@, t@));
            }
            Ok(out)
        },
        _ => Err(lit("DropdownMenu requires value, onValueChange, and items props")),
    }
}

// ===================== Building the rest =====================

/// The text of a `Button`'s `text` prop.
pub fn build_button_text(c: &str, ps: &Vec<ComponentProp>) -> (r: Option<String>)
    requires
        button_fine(c@, ps@),
    ensures
        opt_str(r) == button_text(c@, ps@),
{
    if !str_eq(c, "Button") {
        return None;
    }
    match named_expr_of(ps, "text") {
        Some(e) => {
            let cv = str_to_chars(e.as_str());
            if cv.len() > 0 && cv[0] == '"' && cv[cv.len() - 1] == '"' {
                Some(crate::text::string_from_range(cv.as_slice(), 1, cv.len() - 1))
            } else {
                Some(crate::compose::transform_ternary_to_if_else(e.as_str()))
            }
        },
        None => None,
    }
}

/// The `Text` child of a `Button` whose text is `t`.
pub fn build_button_child(t: &String, ind: &String) -> (r: String)
    ensures
        forall|n: nat| ind@ == indent_text(n as int) ==> r@ == button_child(t@, n),
{
    let mut r = lit(ind.as_str());
    if crate::text::str_starts_with(t.as_str(), "R.string.") {
        let res = crate::compose::transform_string_resource(t.as_str());
        push_lit(&mut r, "    Text(text = \"${");
        push_string(&mut r, &res);
        push_lit(&mut r, "}\")\n");
    } else if crate::text::str_starts_with(t.as_str(), "if (") {
        push_lit(&mut r, "    Text(text = ");
        push_string(&mut r, t);
        push_lit(&mut r, ")\n");
    } else {
        push_lit(&mut r, "    Text(\"");
        push_string(&mut r, t);
        push_lit(&mut r, "\")\n");
    }
    proof {
        assert forall|n: nat| ind@ == indent_text(n as int) implies r@ == button_child(t@, n) by {
            assert(r@ =~= button_child(t@, n));
        }
    }
    r
}

/// Whether `s` is longer than 40 bytes in UTF-8.
fn longer_than_40(s: &String) -> (r: bool)
    ensures
        r == (byte_len(s@) > 40),
{
    let v = str_to_chars(s.as_str());
    let mut n: usize = 0;
    let mut i: usize = 0;
    proof {
        assert(v@.take(0) =~= Seq::<char>::empty());
    }
    while i < v.len()
        invariant
            i <= v@.len(),
            v@ == s@,
            n == byte_len(v@.take(i as int)),
            n <= 40,
        decreases v.len() - i,
    {
        let c = v[i];
        let b: usize = if (c as u32) < 0x80 {
            1
        } else if (c as u32) < 0x800 {
            2
        } else if (c as u32) < 0x10000 {
            3
        } else {
            4
        };
        proof {
            assert(v@.take(i + 1).drop_last() =~= v@.take(i as int));
            assert(v@.take(i + 1).last() == c);
        }
        n = n + b;
        i = i + 1;
        if n > 40 {
            proof {
                lemma_byte_len_grows(v@, i as int);
            }
            return true;
        }
    }
    proof {
        assert(v@.take(v@.len() as int) =~= v@);
    }
    false
}

/// The bytes of a prefix are at most those of the whole.
proof fn lemma_byte_len_grows(s: Seq<char>, k: int)
    requires
        0 <= k <= s.len(),
    ensures
        byte_len(s.take(k)) <= byte_len(s),
    decreases s.len() - k,
{
    if k < s.len() {
        assert(s.take(k + 1).drop_last() =~= s.take(k));
        lemma_byte_len_grows(s, k + 1);
    } else {
        assert(s.take(k) =~= s);
    }
}

/// Whether one of `params` is longer than 40 bytes.
fn any_long_of(params: &Vec<String>) -> (r: bool)
    ensures
        r == any_long(strs(params@)),
{
    let ghost ps = strs(params@);
    let mut i: usize = 0;
    while i < params.len()
        invariant
            i <= params@.len(),
            ps == strs(params@),
            forall|k: int| 0 <= k < i ==> byte_len(#[trigger] ps[k]) <= 40,
        decreases params.len() - i,
    {
        if longer_than_40(&params[i]) {
            assert(byte_len(ps[i as int]) > 40);
            return true;
        }
        i = i + 1;
    }
    false
}

/// The arguments inside the parentheses of a component at level `n`.
pub fn build_param_list(params: &Vec<String>, ind: &String) -> (r: String)
    ensures
        forall|n: nat| ind@ == indent_text(n as int) ==> r@ == param_list(strs(params@), n),
{
    let ghost ps = strs(params@);
    let long = any_long_of(params);
    if params.len() > 1 || long {
        let mut r = lit("\n");
        let mut k: usize = 0;
        while k < params.len()
            invariant
                k <= params@.len(),
                ps == strs(params@),
                forall|n: nat| ind@ == indent_text(n as int) ==> r@ == "\n"@ + param_lines(ps, k as nat, n),
            decreases params.len() - k,
        {
            let ghost r0 = r@;
            push_string(&mut r, ind);
            push_lit(&mut r, "    ");
            push_string(&mut r, &params[k]);
            if k + 1 < params.len() {
                push_lit(&mut r, ",");
            }
            push_lit(&mut r, "\n");
            proof {
                assert forall|n: nat| ind@ == indent_text(n as int) implies r@ == "\n"@ + param_lines(
                    ps,
                    (k + 1) as nat,
                    n,
                ) by {
                    assert(r@ =~= "\n"@ + param_lines(ps, (k + 1) as nat, n));
                }
            }
            k = k + 1;
        }
        push_string(&mut r, ind);
        r
    } else if params.len() == 1 {
        lit(params[0].as_str())
    } else {
        String::new()
    }
}


// ===================== Deciding what the rules can read =====================

/// Whether every prop of component `c` among `ps` can be transformed.
pub(crate) fn props_fine_of(g: &MarkupGen, c: &str, ps: &Vec<ComponentProp>) -> (r: bool)
    requires
        g.ctx.names_ok(),
    ensures
        r == props_fine(*g, c@, ps@),
{
    let t: Option<&str> = match &g.component_type {
        Some(x) => Some(x.as_str()),
        None => None,
    };
    let mut i: usize = 0;
    while i < ps.len()
        invariant
            i <= ps@.len(),
            g.ctx.names_ok(),
            match t {
                Some(x) => Some(x@),
                None => None,
            } == g.type_view(),
            forall|k: int| 0 <= k < i ==> g.fine(c@, #[trigger] ps@[k].name@, prop_expr(ps@[k].value)),
        decreases ps.len() - i,
    {
        let e = crate::compose_imports::get_prop_expr(&ps[i].value);
        if !crate::compose_props::prop_ok_of(c, ps[i].name.as_str(), e.as_str(), t, &g.ctx) {
            return false;
        }
        i = i + 1;
    }
    true
}

/// Whether a quoted `v` has both its quotes.
fn both_quotes_of(v: &String) -> (r: bool)
    ensures
        r == (is_quoted_value(v@) ==> v@.len() >= 2),
{
    let c = str_to_chars(v.as_str());
    !(c.len() > 0 && c[0] == '"' && c[c.len() - 1] == '"') || c.len() >= 2
}

/// Whether a quoted `text` of a `Button` has both its quotes.
pub(crate) fn button_fine_of(c: &str, ps: &Vec<ComponentProp>) -> (r: bool)
    ensures
        r == button_fine(c@, ps@),
{
    if str_eq(c, "Button") {
        match named_expr_of(ps, "text") {
            Some(e) => both_quotes_of(&e),
            None => true,
        }
    } else {
        true
    }
}

/// Whether a `fit` value can be read.
fn fit_fine_of(e: &str) -> (r: bool)
    ensures
        r == fit_fine(e@),
{
    let q = trimmed_unquoted(e);
    let qs = crate::text::string_from_chars(q.as_slice());
    let t = qs.as_str();
    str_eq(t, "cover") || str_eq(t, "contain") || str_eq(t, "fill") || str_eq(t, "fill-width")
        || str_eq(t, "fill-height") || str_eq(t, "none") || str_eq(t, "scale-down")
        || crate::text::str_starts_with(t, "ContentScale.") || (q.len() > 0 && (q[0] as u32) < 128)
}

/// Whether every `fit` prop of an `Image` can be read.
pub(crate) fn image_fine_of(ps: &Vec<ComponentProp>) -> (r: bool)
    ensures
        r == image_fine(ps@),
{
    proof {
        reveal_strlit("");
        reveal_strlit("$screen.params.");
        assert(""@ =~= Seq::<char>::empty());
    }
    let mut i: usize = 0;
    while i < ps.len()
        invariant
            i <= ps@.len(),
            forall|k: int|
                0 <= k < i && #[trigger] ps@[k].name@ == "fit"@ ==> fit_fine(
                    replaced(prop_expr(ps@[k].value), "$screen.params."@, Seq::empty()),
                ),
        decreases ps.len() - i,
    {
        if str_eq(ps[i].name.as_str(), "fit") {
            let e = crate::compose_imports::get_prop_expr(&ps[i].value);
            proof {
                reveal_strlit("");
                reveal_strlit("$screen.params.");
                assert(""@ =~= Seq::<char>::empty());
            }
            let x = crate::compose::replace_all(e.as_str(), "$screen.params.", "");
            if !fit_fine_of(x.as_str()) {
                proof {
                    assert(ps@[i as int].name@ == "fit"@);
                }
                return false;
            }
        }
        i = i + 1;
    }
    true
}

/// Whether the drawables of an `AsyncImage` request builder have both their
/// quotes.
pub(crate) fn async_image_fine_of(ps: &Vec<ComponentProp>) -> (r: bool)
    ensures
        r == async_image_fine(ps@),
{
    let ph = named_expr_of(ps, "placeholder");
    let er = named_expr_of(ps, "error");
    let cf = named_expr_of(ps, "crossfade");
    let url = named_expr_of(ps, "url");
    if !crate::compose_imports::has_prop_named(ps, "modifier") && (ph.is_some() || er.is_some()
        || cf.is_some()) && url.is_some() {
        (match &ph {
            Some(v) => both_quotes_of(v),
            None => true,
        }) && (match &er {
            Some(v) => both_quotes_of(v),
            None => true,
        })
    } else {
        true
    }
}

/// Whether the `onValueChange` lambda of a dropdown menu can be cut.
pub(crate) fn dropdown_fine_of(ps: &Vec<ComponentProp>) -> (r: bool)
    ensures
        r == dropdown_fine(ps@),
{
    match (named_expr_of(ps, "value"), named_expr_of(ps, "onValueChange"), named_expr_of(ps, "items")) {
        (Some(_), Some(oc), Some(_)) => {
            let t = crate::compose::transform_lambda_arrow(oc.as_str());
            let tv = str_to_chars(t.as_str());
            match (
                crate::compose_modifiers::find_first(&tv, 0, "->"),
                crate::compose_modifiers::find_first(&tv, 0, "{"),
            ) {
                (Some(a), Some(b)) => b < a,
                _ => true,
            }
        },
        _ => true,
    }
}

} // verus!
