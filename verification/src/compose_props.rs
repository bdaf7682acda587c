//! Component props as Compose arguments: two-way bindings, click handlers,
//! colors, fonts, spacing and the other per-component transformations.

use vstd::prelude::*;

use crate::compose::{
    convert_hex_to_color, hex_color, is_quoted, kotlin_lambda, numeric_conversion, replaced,
    route_alias, spec_is_numeric_type, template_braces, ternary_if_else,
};
use crate::compose_modifiers::{
    click_handler, ends_with, first_occurrence, hex_in_modifier, in_context, is_quoted_value,
};
use crate::compose_text::ExprContext;
use crate::recyclerview::unicode_upper;
use crate::text::{lit, push_lit, push_string, spec_trim, str_eq, str_to_chars};

verus! {

// ===================== Color scheme names =====================

/// The Material 3 color scheme roles.
pub open spec fn is_color_scheme_name(n: Seq<char>) -> bool {
    n == "primary"@ || n == "onPrimary"@ || n == "primaryContainer"@ || n == "onPrimaryContainer"@
        || n == "secondary"@ || n == "onSecondary"@ || n == "secondaryContainer"@ || n
        == "onSecondaryContainer"@ || n == "tertiary"@ || n == "onTertiary"@ || n
        == "tertiaryContainer"@ || n == "onTertiaryContainer"@ || n == "error"@ || n == "onError"@
        || n == "errorContainer"@ || n == "onErrorContainer"@ || n == "background"@ || n
        == "onBackground"@ || n == "surface"@ || n == "onSurface"@ || n == "surfaceVariant"@ || n
        == "onSurfaceVariant"@ || n == "surfaceTint"@ || n == "inverseSurface"@ || n
        == "inverseOnSurface"@ || n == "inversePrimary"@ || n == "outline"@ || n
        == "outlineVariant"@ || n == "scrim"@
}

/// What a quoted string `whole` (with contents `name`) becomes in a color
/// expression: a color scheme role, a hex color (kept when it is not one),
/// or itself.
pub open spec fn scheme_replacement(whole: Seq<char>, name: Seq<char>) -> Seq<char> {
    if is_color_scheme_name(name) {
        "MaterialTheme.colorScheme."@ + name
    } else if name.len() > 0 && name[0] == '#' {
        match hex_color(name.subrange(1, name.len() as int)) {
            Ok(c) => c,
            Err(_) => whole,
        }
    } else {
        whole
    }
}

/// What a quoted string becomes in a color expression.
pub fn color_scheme_replacement(whole: &str, name: &str) -> (r: String)
    ensures
        r@ == scheme_replacement(whole@, name@),
{
    let n = str_to_chars(name);
    let known = str_eq(name, "primary") || str_eq(name, "onPrimary") || str_eq(name, "primaryContainer")
        || str_eq(name, "onPrimaryContainer") || str_eq(name, "secondary") || str_eq(
        name,
        "onSecondary",
    ) || str_eq(name, "secondaryContainer") || str_eq(name, "onSecondaryContainer") || str_eq(
        name,
        "tertiary",
    ) || str_eq(name, "onTertiary") || str_eq(name, "tertiaryContainer") || str_eq(
        name,
        "onTertiaryContainer",
    ) || str_eq(name, "error") || str_eq(name, "onError") || str_eq(name, "errorContainer")
        || str_eq(name, "onErrorContainer") || str_eq(name, "background") || str_eq(
        name,
        "onBackground",
    ) || str_eq(name, "surface") || str_eq(name, "onSurface") || str_eq(name, "surfaceVariant")
        || str_eq(name, "onSurfaceVariant") || str_eq(name, "surfaceTint") || str_eq(
        name,
        "inverseSurface",
    ) || str_eq(name, "inverseOnSurface") || str_eq(name, "inversePrimary") || str_eq(
        name,
        "outline",
    ) || str_eq(name, "outlineVariant") || str_eq(name, "scrim");
    if known {
        let mut r = lit("MaterialTheme.colorScheme.");
        push_lit(&mut r, name);
        return r;
    }
    if n.len() > 0 && n[0] == '#' {
        let hex = crate::text::string_from_range(n.as_slice(), 1, n.len());
        return match convert_hex_to_color(hex.as_str()) {
            Ok(c) => c,
            Err(_) => lit(whole),
        };
    }
    lit(whole)
}

/// `s` with each quoted string `"..."` (the quotes paired left to right; a
/// last unpaired quote stays) replaced as `scheme_replacement` says.
pub open spec fn quoted_replaced(s: Seq<char>) -> Seq<char>
    decreases s.len(),
{
    match first_occurrence(s, 0, seq!['"']) {
        None => s,
        Some(i) => match first_occurrence(s, i + 1, seq!['"']) {
            None => s,
            Some(j) => s.subrange(0, i) + scheme_replacement(s.subrange(i, j + 1), s.subrange(i + 1, j))
                + quoted_replaced(s.subrange(j + 1, s.len() as int)),
        },
    }
}

/// Calls `regex::Regex::replace_all` with the pattern `"([^"]*)"` on
/// `value`, handing each match and its contents to
/// `color_scheme_replacement`. The contract states what the regex crate's
/// leftmost-first, non-overlapping matching gives for this pattern: each
/// quote paired with the next one, a match replaced, the text between
/// matches kept.
#[verifier::external_body]
fn replace_quoted_strings(value: &str) -> (r: String)
    ensures
        r@ == quoted_replaced(value@),
{
    let re = regex::Regex::new(r#""([^"]*)""#).unwrap();
    re.replace_all(value, |caps: &regex::Captures| color_scheme_replacement(&caps[0], &caps[1]))
        .to_string()
}

/// Material 3 color scheme names (and hex colors) in the quoted strings of
/// an expression, as colors.
pub fn convert_color_scheme_names(value: &str) -> (r: String)
    ensures
        r@ == quoted_replaced(value@),
{
    replace_quoted_strings(value)
}

// ===================== Prop values =====================

/// `v` without its quotes if it is quoted.
pub open spec fn unquoted(v: Seq<char>) -> Seq<char> {
    if is_quoted_value(v) {
        v.subrange(1, v.len() - 1)
    } else {
        v
    }
}

/// `v` with `unit` unless it ends with it.
pub open spec fn with_unit(v: Seq<char>, unit: Seq<char>) -> Seq<char> {
    if ends_with(v, unit) {
        v
    } else {
        v + unit
    }
}

/// `prefix` and `s` with its first character in upper case.
pub open spec fn capitalized_after(prefix: Seq<char>, s: Seq<char>) -> Seq<char> {
    prefix + unicode_upper(s[0]) + s.subrange(1, s.len() as int)
}

/// A quoted value with a letter name: `Prefix.Name`; else the value.
pub open spec fn enum_value(prefix: Seq<char>, v: Seq<char>) -> Seq<char> {
    if is_quoted_value(v) {
        capitalized_after(prefix, unquoted(v))
    } else {
        v
    }
}

/// The background of a `Column` or `Row`: a hex color, a named `Color`, or
/// the expression.
pub open spec fn layout_background(v: Seq<char>) -> Result<Seq<char>, Seq<char>> {
    if is_quoted_value(v) {
        let s = unquoted(v);
        if s.len() > 0 && s[0] == '#' {
            hex_color(s.subrange(1, s.len() as int))
        } else {
            Ok(capitalized_after("Color."@, s))
        }
    } else {
        Ok(v)
    }
}

/// A whole-value color of `Text`: a hex color, a color scheme role (letters
/// and digits), or the value trimmed.
pub open spec fn single_color(c: Seq<char>) -> Result<Seq<char>, Seq<char>> {
    let t = spec_trim(c);
    if is_quoted_value(t) {
        let s = unquoted(t);
        if s.len() > 0 && s[0] == '#' {
            hex_color(s.subrange(1, s.len() as int))
        } else if forall|i: int| 0 <= i < s.len() ==> crate::text::unicode_is_alphanumeric(#[trigger] s[i]) {
            Ok("MaterialTheme.colorScheme."@ + s)
        } else {
            Ok(t)
        }
    } else {
        Ok(t)
    }
}

/// The color of `Text` (after ternaries became `if`/`else`): each branch of
/// `if (c) a else b` converted, or the whole quoted value, or the value.
pub open spec fn text_color(vt: Seq<char>) -> Result<Seq<char>, Seq<char>> {
    if crate::text::seq_contains(vt, "if ("@) && crate::text::seq_contains(vt, ") "@)
        && crate::text::seq_contains(vt, " else "@) {
        match first_occurrence(vt, 0, "if ("@) {
            None => Ok(vt),
            Some(ip) => {
                let cs = ip + 4;
                match first_occurrence(vt, cs, ") "@) {
                    None => Ok(vt),
                    Some(ce) => {
                        let ts = ce + 2;
                        match first_occurrence(vt, ts, " else "@) {
                            None => Ok(vt),
                            Some(ep) => match single_color(vt.subrange(ts, ep)) {
                                Err(e) => Err(e),
                                Ok(a) => match single_color(vt.subrange(ep + 6, vt.len() as int)) {
                                    Err(e) => Err(e),
                                    Ok(b) => Ok(
                                        "if ("@ + vt.subrange(cs, ce) + ") "@ + a + " else "@ + b,
                                    ),
                                },
                            },
                        }
                    },
                }
            },
        }
    } else if is_quoted_value(vt) {
        single_color(vt)
    } else {
        Ok(vt)
    }
}

/// `v` without leading `{` and trailing `}`, trimmed.
pub open spec fn brace_inner(v: Seq<char>) -> Seq<char> {
    spec_trim(trim_end_char(trim_start_char(v, '{'), '}'))
}

/// `v` without its leading `c`s.
pub open spec fn trim_start_char(v: Seq<char>, c: char) -> Seq<char>
    decreases v.len(),
{
    if v.len() > 0 && v[0] == c {
        trim_start_char(v.drop_first(), c)
    } else {
        v
    }
}

/// `v` without its trailing `c`s.
pub open spec fn trim_end_char(v: Seq<char>, c: char) -> Seq<char>
    decreases v.len(),
{
    if v.len() > 0 && v.last() == c {
        trim_end_char(v.drop_last(), c)
    } else {
        v
    }
}

/// The `onClick` argument of a `Button`: a bare function is called, a block
/// of statements kept, a complete expression kept, a bare name in braces
/// called; all rewritten for the ViewModel wrapper.
pub open spec fn button_click(v: Seq<char>, ctx: ExprContext) -> Seq<char> {
    if !(v.len() > 0 && v[0] == '{') {
        "onClick = { "@ + in_context(v + "()"@, ctx) + " }"@
    } else {
        let inner = brace_inner(v);
        let statements = crate::text::seq_contains(inner, "\n"@) || crate::text::seq_contains(inner, ";"@)
            || crate::text::seq_contains(inner, "++"@) || crate::text::seq_contains(inner, "--"@)
            || (crate::text::seq_contains(inner, "="@) && !crate::text::occurs_at(inner, 0, "=="@));
        let complete = crate::text::seq_contains(inner, "("@) || ends_with(inner, ")"@);
        if statements || complete {
            "onClick = { "@ + in_context(inner, ctx) + " }"@
        } else {
            "onClick = { "@ + in_context(inner + "()"@, ctx) + " }"@
        }
    }
}

/// The container color of a `Card`: a hex color, a color scheme role, or
/// the expression with its quoted role names converted.
pub open spec fn card_background(v: Seq<char>) -> Result<Seq<char>, Seq<char>> {
    if is_quoted_value(v) {
        let s = unquoted(v);
        if s.len() > 0 && s[0] == '#' {
            hex_color(s.subrange(1, s.len() as int))
        } else {
            Ok("MaterialTheme.colorScheme."@ + s)
        }
    } else {
        Ok(quoted_replaced(v))
    }
}

/// One line.
pub open spec fn line(x: Seq<char>) -> Result<Seq<Seq<char>>, Seq<char>> {
    Ok(seq![x])
}

/// One line from a result.
pub open spec fn line_of(r: Result<Seq<char>, Seq<char>>, prefix: Seq<char>, suffix: Seq<char>) -> Result<
    Seq<Seq<char>>,
    Seq<char>,
> {
    match r {
        Ok(x) => Ok(seq![prefix + x + suffix]),
        Err(e) => Err(e),
    }
}

/// The arguments for prop `p` of component `c` with the transformed value
/// `v`, by the component's rules; `p = v` when there is none.
pub open spec fn component_prop_lines(c: Seq<char>, p: Seq<char>, v: Seq<char>, ctx: ExprContext) -> Result<
    Seq<Seq<char>>,
    Seq<char>,
> {
    let text_field = c == "TextField"@ || c == "OutlinedTextField"@;
    if text_field && p == "label"@ {
        line("label = { Text(\""@ + unquoted(v) + "\") }"@)
    } else if text_field && p == "placeholder"@ {
        line("placeholder = { Text(\""@ + unquoted(v) + "\") }"@)
    } else if c == "TextField"@ && p == "type"@ {
        if unquoted(v) == "password"@ {
            line("visualTransformation = PasswordVisualTransformation()"@)
        } else {
            line("type = "@ + v)
        }
    } else if c == "Button"@ && p == "text"@ {
        Ok(Seq::empty())
    } else if (c == "Button"@ || c == "IconButton"@) && p == "onClick"@ {
        line(button_click(v, ctx))
    } else if c == "Column"@ && p == "spacing"@ {
        line("verticalArrangement = Arrangement.spacedBy("@ + with_unit(v, ".dp"@) + ")"@)
    } else if c == "Column"@ && p == "padding"@ {
        line("modifier = Modifier.padding("@ + with_unit(v, ".dp"@) + ")"@)
    } else if (c == "Column"@ || c == "Row"@) && p == "backgroundColor"@ {
        line_of(layout_background(v), "modifier = Modifier.background("@, ")"@)
    } else if c == "LazyColumn"@ && p == "spacing"@ {
        line("verticalArrangement = Arrangement.spacedBy("@ + with_unit(v, ".dp"@) + ")"@)
    } else if c == "LazyColumn"@ && p == "padding"@ {
        line("contentPadding = PaddingValues("@ + with_unit(v, ".dp"@) + ")"@)
    } else if c == "Row"@ && p == "spacing"@ {
        line("horizontalArrangement = Arrangement.spacedBy("@ + with_unit(v, ".dp"@) + ")"@)
    } else if c == "Row"@ && p == "padding"@ {
        line("modifier = Modifier.padding("@ + with_unit(v, ".dp"@) + ")"@)
    } else if c == "Text"@ && p == "fontSize"@ {
        line("fontSize = "@ + with_unit(v, ".sp"@))
    } else if c == "Text"@ && p == "fontWeight"@ {
        line("fontWeight = "@ + enum_value("FontWeight."@, v))
    } else if c == "Text"@ && p == "fontFamily"@ {
        line("fontFamily = "@ + enum_value("FontFamily."@, v))
    } else if c == "Text"@ && p == "color"@ {
        line_of(text_color(ternary_if_else(v)), "color = "@, Seq::empty())
    } else if c == "Card"@ && p == "onClick"@ {
        line("onClick = "@ + click_handler(v, ctx))
    } else if c == "Card"@ && p == "backgroundColor"@ {
        line_of(
            card_background(v),
            "colors = CardDefaults.cardColors(\n                    containerColor = "@,
            "\n                )"@,
        )
    } else if c == "Card"@ && p == "elevation"@ {
        line("elevation = CardDefaults.cardElevation(defaultElevation = "@ + with_unit(v, ".dp"@) + ")"@)
    } else {
        line(p + " = "@ + v)
    }
}

/// A quoted value can be unquoted.
pub open spec fn unquote_ok(v: Seq<char>) -> bool {
    is_quoted_value(v) ==> v.len() >= 2
}

/// A quoted value names something with an ASCII first letter.
pub open spec fn name_ok(v: Seq<char>) -> bool {
    is_quoted_value(v) ==> v.len() > 2 && (v[1] as u32) < 128
}

/// The colors of a `Text` color value can be read.
pub open spec fn text_color_ok(vt: Seq<char>) -> bool {
    if crate::text::seq_contains(vt, "if ("@) && crate::text::seq_contains(vt, ") "@)
        && crate::text::seq_contains(vt, " else "@) {
        match first_occurrence(vt, 0, "if ("@) {
            None => true,
            Some(ip) => match first_occurrence(vt, ip + 4, ") "@) {
                None => true,
                Some(ce) => match first_occurrence(vt, ce + 2, " else "@) {
                    None => true,
                    Some(ep) => unquote_ok(spec_trim(vt.subrange(ce + 2, ep))) && unquote_ok(
                        spec_trim(vt.subrange(ep + 6, vt.len() as int)),
                    ),
                },
            },
        }
    } else {
        is_quoted_value(vt) ==> unquote_ok(spec_trim(vt))
    }
}

/// What the rules of prop `p` of component `c` read of value `v` is there
/// (the rule would otherwise fail on a slice of the value).
pub open spec fn component_prop_ok(c: Seq<char>, p: Seq<char>, v: Seq<char>) -> bool {
    let text_field = c == "TextField"@ || c == "OutlinedTextField"@;
    &&& (text_field && (p == "label"@ || p == "placeholder"@)) ==> unquote_ok(v)
    &&& (c == "TextField"@ && p == "type"@) ==> unquote_ok(v)
    &&& ((c == "Column"@ || c == "Row"@) && p == "backgroundColor"@) ==> name_ok(v)
    &&& (c == "Text"@ && (p == "fontWeight"@ || p == "fontFamily"@)) ==> name_ok(v)
    &&& (c == "Text"@ && p == "color"@) ==> text_color_ok(ternary_if_else(v))
    &&& (c == "Card"@ && p == "backgroundColor"@) ==> unquote_ok(v)
}

fn quoted_chars(v: &Vec<char>) -> (r: bool)
    ensures
        r == is_quoted_value(v@),
{
    v.len() > 0 && v[0] == '"' && v[v.len() - 1] == '"'
}

/// `v` without its quotes if it is quoted.
fn unquote(v: &Vec<char>) -> (r: String)
    requires
        unquote_ok(v@),
    ensures
        r@ == unquoted(v@),
{
    if quoted_chars(v) {
        crate::text::string_from_range(v.as_slice(), 1, v.len() - 1)
    } else {
        crate::text::string_from_chars(v.as_slice())
    }
}

/// `v` with `unit` unless it ends with it.
fn with_unit_of(v: &String, unit: &str) -> (r: String)
    ensures
        r@ == with_unit(v@, unit@),
{
    let cv = str_to_chars(v.as_str());
    if crate::compose_modifiers::chars_end_with(&cv, unit) {
        lit(v.as_str())
    } else {
        let mut r = lit(v.as_str());
        push_lit(&mut r, unit);
        r
    }
}

/// `prefix` and `s` with its first character in upper case.
fn capitalized_after_of(prefix: &str, s: &Vec<char>) -> (r: String)
    requires
        s@.len() > 0,
    ensures
        r@ == capitalized_after(prefix@, s@),
{
    let mut r = lit(prefix);
    let up = crate::recyclerview::to_uppercase(s[0]);
    push_string(&mut r, &up);
    let rest = crate::text::string_from_range(s.as_slice(), 1, s.len());
    push_string(&mut r, &rest);
    r
}

/// A quoted letter name as `Prefix.Name`, else the value.
fn enum_value_of(prefix: &str, v: &Vec<char>) -> (r: String)
    requires
        name_ok(v@),
    ensures
        r@ == enum_value(prefix@, v@),
{
    if quoted_chars(v) {
        let inner = crate::compose_modifiers::sub_range(v, 1, v.len() - 1);
        capitalized_after_of(prefix, &inner)
    } else {
        crate::text::string_from_chars(v.as_slice())
    }
}

/// The hex color after `#` in `s`, as a result.
fn hex_after_hash(s: &Vec<char>) -> (r: Result<String, String>)
    requires
        s@.len() > 0,
    ensures
        match (r, hex_color(s@.subrange(1, s@.len() as int))) {
            (Ok(a), Ok(b)) => a@ == b,
            (Err(a), Err(b)) => a@ == b,
            _ => false,
        },
{
    let hex = crate::text::string_from_range(s.as_slice(), 1, s.len());
    convert_hex_to_color(hex.as_str())
}

/// The background of a `Column` or `Row`.
fn layout_background_of(v: &Vec<char>) -> (r: Result<String, String>)
    requires
        name_ok(v@),
    ensures
        match (r, layout_background(v@)) {
            (Ok(a), Ok(b)) => a@ == b,
            (Err(a), Err(b)) => a@ == b,
            _ => false,
        },
{
    if quoted_chars(v) {
        let inner = crate::compose_modifiers::sub_range(v, 1, v.len() - 1);
        if inner.len() > 0 && inner[0] == '#' {
            hex_after_hash(&inner)
        } else {
            Ok(capitalized_after_of("Color.", &inner))
        }
    } else {
        Ok(crate::text::string_from_chars(v.as_slice()))
    }
}

/// Whether every character of `s` is alphanumeric.
fn all_alphanumeric(s: &Vec<char>) -> (r: bool)
    ensures
        r == forall|i: int| 0 <= i < s@.len() ==> crate::text::unicode_is_alphanumeric(#[trigger] s@[i]),
{
    let mut i: usize = 0;
    while i < s.len()
        invariant
            i <= s@.len(),
            forall|j: int| 0 <= j < i ==> crate::text::unicode_is_alphanumeric(#[trigger] s@[j]),
        decreases s.len() - i,
    {
        if !crate::text::is_alphanumeric(s[i]) {
            return false;
        }
        i = i + 1;
    }
    true
}

/// A whole-value color of `Text`.
fn single_color_of(c: &Vec<char>) -> (r: Result<String, String>)
    requires
        unquote_ok(spec_trim(c@)),
    ensures
        match (r, single_color(c@)) {
            (Ok(a), Ok(b)) => a@ == b,
            (Err(a), Err(b)) => a@ == b,
            _ => false,
        },
{
    let ts = crate::text::trimmed_range(c.as_slice(), 0, c.len());
    proof {
        assert(c@.subrange(0, c@.len() as int) =~= c@);
    }
    let t = str_to_chars(ts.as_str());
    if quoted_chars(&t) {
        let inner = crate::compose_modifiers::sub_range(&t, 1, t.len() - 1);
        if inner.len() > 0 && inner[0] == '#' {
            hex_after_hash(&inner)
        } else if all_alphanumeric(&inner) {
            let mut r = lit("MaterialTheme.colorScheme.");
            let n = crate::text::string_from_chars(inner.as_slice());
            push_string(&mut r, &n);
            Ok(r)
        } else {
            Ok(ts)
        }
    } else {
        Ok(ts)
    }
}

/// The color of `Text`, after ternaries became `if`/`else`.
fn text_color_of(vt: &Vec<char>) -> (r: Result<String, String>)
    requires
        text_color_ok(vt@),
    ensures
        match (r, text_color(vt@)) {
            (Ok(a), Ok(b)) => a@ == b,
            (Err(a), Err(b)) => a@ == b,
            _ => false,
        },
{
    let n = vt.len();
    let whole = crate::text::string_from_chars(vt.as_slice());
    if crate::text::contains_chars(vt.as_slice(), str_to_chars("if (").as_slice()) && crate::text::contains_chars(
        vt.as_slice(),
        str_to_chars(") ").as_slice(),
    ) && crate::text::contains_chars(vt.as_slice(), str_to_chars(" else ").as_slice()) {
        proof {
            reveal_strlit("if (");
            reveal_strlit(") ");
            reveal_strlit(" else ");
        }
        match crate::compose_modifiers::find_first(vt, 0, "if (") {
            None => Ok(whole),
            Some(ip) => {
                let cs = ip + 4;
                match crate::compose_modifiers::find_first(vt, cs, ") ") {
                    None => Ok(whole),
                    Some(ce) => {
                        let ts = ce + 2;
                        match crate::compose_modifiers::find_first(vt, ts, " else ") {
                            None => Ok(whole),
                            Some(ep) => {
                                let then_part = crate::compose_modifiers::sub_range(vt, ts, ep);
                                match single_color_of(&then_part) {
                                    Err(e) => Err(e),
                                    Ok(a) => {
                                        let else_part = crate::compose_modifiers::sub_range(vt, ep + 6, n);
                                        match single_color_of(&else_part) {
                                            Err(e) => Err(e),
                                            Ok(b) => {
                                                let mut r = lit("if (");
                                                let cond = crate::text::string_from_range(
                                                    vt.as_slice(),
                                                    cs,
                                                    ce,
                                                );
                                                push_string(&mut r, &cond);
                                                push_lit(&mut r, ") ");
                                                push_string(&mut r, &a);
                                                push_lit(&mut r, " else ");
                                                push_string(&mut r, &b);
                                                Ok(r)
                                            },
                                        }
                                    },
                                }
                            },
                        }
                    },
                }
            },
        }
    } else if quoted_chars(vt) {
        single_color_of(vt)
    } else {
        Ok(whole)
    }
}

/// `v` without its leading `{`s and trailing `}`s, trimmed.
fn brace_inner_of(v: &Vec<char>) -> (r: String)
    ensures
        r@ == brace_inner(v@),
{
    let mut a: usize = 0;
    proof {
        assert(v@.subrange(0, v@.len() as int) =~= v@);
    }
    while a < v.len() && v[a] == '{'
        invariant
            a <= v@.len(),
            trim_start_char(v@.subrange(a as int, v@.len() as int), '{') == trim_start_char(v@, '{'),
        decreases v.len() - a,
    {
        proof {
            assert(v@.subrange(a as int, v@.len() as int).drop_first() =~= v@.subrange(a + 1, v@.len() as int));
        }
        a = a + 1;
    }
    proof {
        assert(v@.subrange(0, v@.len() as int) =~= v@);
    }
    let mut b: usize = v.len();
    while b > a && v[b - 1] == '}'
        invariant
            a <= b <= v@.len(),
            trim_end_char(v@.subrange(a as int, b as int), '}') == trim_end_char(
                trim_start_char(v@, '{'),
                '}',
            ),
        decreases b,
    {
        proof {
            assert(v@.subrange(a as int, b as int).drop_last() =~= v@.subrange(a as int, b - 1));
        }
        b = b - 1;
    }
    crate::text::trimmed_range(v.as_slice(), a, b)
}

/// `e` rewritten for the ViewModel wrapper of `ctx`.
pub(crate) fn in_context_of(e: &str, ctx: &ExprContext) -> (r: String)
    requires
        ctx.names_ok(),
    ensures
        r@ == in_context(e@, *ctx),
{
    crate::compose::transform_viewmodel_expression(
        e,
        ctx.in_viewmodel_wrapper,
        &ctx.mutable_vars,
        &ctx.derived_props,
        &ctx.function_names,
    )
}

/// `onClick = { x }`.
fn on_click_line(x: &String) -> (r: String)
    ensures
        r@ == "onClick = { "@ + x@ + " }"@,
{
    let mut r = lit("onClick = { ");
    push_string(&mut r, x);
    push_lit(&mut r, " }");
    r
}

/// The `onClick` argument of a `Button`.
fn button_click_of(v: &Vec<char>, ctx: &ExprContext) -> (r: String)
    requires
        ctx.names_ok(),
    ensures
        r@ == button_click(v@, *ctx),
{
    if !(v.len() > 0 && v[0] == '{') {
        let mut call = crate::text::string_from_chars(v.as_slice());
        push_lit(&mut call, "()");
        let x = in_context_of(call.as_str(), ctx);
        return on_click_line(&x);
    }
    let inner = brace_inner_of(v);
    let iv = str_to_chars(inner.as_str());
    let s = inner.as_str();
    let statements = crate::text::str_contains(s, "\n") || crate::text::str_contains(s, ";")
        || crate::text::str_contains(s, "++") || crate::text::str_contains(s, "--") || (
    crate::text::str_contains(s, "=") && !crate::text::str_starts_with(s, "=="));
    let complete = crate::text::str_contains(s, "(") || crate::compose_modifiers::chars_end_with(
        &iv,
        ")",
    );
    if statements || complete {
        let x = in_context_of(s, ctx);
        on_click_line(&x)
    } else {
        let mut call = lit(s);
        push_lit(&mut call, "()");
        let x = in_context_of(call.as_str(), ctx);
        on_click_line(&x)
    }
}

/// The container color of a `Card`.
fn card_background_of(v: &Vec<char>) -> (r: Result<String, String>)
    requires
        unquote_ok(v@),
    ensures
        match (r, card_background(v@)) {
            (Ok(a), Ok(b)) => a@ == b,
            (Err(a), Err(b)) => a@ == b,
            _ => false,
        },
{
    if quoted_chars(v) {
        let inner = crate::compose_modifiers::sub_range(v, 1, v.len() - 1);
        if inner.len() > 0 && inner[0] == '#' {
            hex_after_hash(&inner)
        } else {
            let mut r = lit("MaterialTheme.colorScheme.");
            let n = crate::text::string_from_chars(inner.as_slice());
            push_string(&mut r, &n);
            Ok(r)
        }
    } else {
        let whole = crate::text::string_from_chars(v.as_slice());
        Ok(convert_color_scheme_names(whole.as_str()))
    }
}

/// One line.
fn one(x: String) -> (r: Result<Vec<String>, String>)
    ensures
        r matches Ok(v) && crate::compose_imports::strs(v@) == seq![x@],
{
    let mut v: Vec<String> = Vec::new();
    v.push(x);
    proof {
        assert(crate::compose_imports::strs(v@) =~= seq![x@]);
    }
    Ok(v)
}

/// One line `prefix + x + suffix` from a result.
fn one_of(r: Result<String, String>, prefix: &str, suffix: &str) -> (out: Result<Vec<String>, String>)
    ensures
        match (out, r) {
            (Ok(v), Ok(x)) => crate::compose_imports::strs(v@) == seq![prefix@ + x@ + suffix@],
            (Err(a), Err(b)) => a@ == b@,
            _ => false,
        },
{
    match r {
        Ok(x) => {
            let mut l = lit(prefix);
            push_string(&mut l, &x);
            push_lit(&mut l, suffix);
            one(l)
        },
        Err(e) => Err(e),
    }
}

/// `prefix + x + suffix`.
fn framed(prefix: &str, x: &String, suffix: &str) -> (r: String)
    ensures
        r@ == prefix@ + x@ + suffix@,
{
    let mut r = lit(prefix);
    push_string(&mut r, x);
    push_lit(&mut r, suffix);
    r
}

/// The arguments for prop `p` of component `c` with the transformed value `v`.
fn component_prop_lines_of(c: &str, p: &str, v: &String, ctx: &ExprContext) -> (r: Result<
    Vec<String>,
    String,
>)
    requires
        ctx.names_ok(),
        component_prop_ok(c@, p@, v@),
    ensures
        match (r, component_prop_lines(c@, p@, v@, *ctx)) {
            (Ok(a), Ok(b)) => crate::compose_imports::strs(a@) == b,
            (Err(a), Err(b)) => a@ == b,
            _ => false,
        },
{
    proof {
        reveal_strlit("");
        assert(""@ =~= Seq::<char>::empty());
    }
    let vv = str_to_chars(v.as_str());
    let text_field = str_eq(c, "TextField") || str_eq(c, "OutlinedTextField");
    if text_field && str_eq(p, "label") {
        let u = unquote(&vv);
        one(framed("label = { Text(\"", &u, "\") }"))
    } else if text_field && str_eq(p, "placeholder") {
        let u = unquote(&vv);
        one(framed("placeholder = { Text(\"", &u, "\") }"))
    } else if str_eq(c, "TextField") && str_eq(p, "type") {
        let u = unquote(&vv);
        if str_eq(u.as_str(), "password") {
            one(lit("visualTransformation = PasswordVisualTransformation()"))
        } else {
            one(framed("type = ", v, ""))
        }
    } else if str_eq(c, "Button") && str_eq(p, "text") {
        let e: Vec<String> = Vec::new();
        proof {
            assert(crate::compose_imports::strs(e@) =~= Seq::<Seq<char>>::empty());
        }
        Ok(e)
    } else if (str_eq(c, "Button") || str_eq(c, "IconButton")) && str_eq(p, "onClick") {
        one(button_click_of(&vv, ctx))
    } else if str_eq(c, "Column") && str_eq(p, "spacing") {
        one(framed("verticalArrangement = Arrangement.spacedBy(", &with_unit_of(v, ".dp"), ")"))
    } else if str_eq(c, "Column") && str_eq(p, "padding") {
        one(framed("modifier = Modifier.padding(", &with_unit_of(v, ".dp"), ")"))
    } else if (str_eq(c, "Column") || str_eq(c, "Row")) && str_eq(p, "backgroundColor") {
        one_of(layout_background_of(&vv), "modifier = Modifier.background(", ")")
    } else if str_eq(c, "LazyColumn") && str_eq(p, "spacing") {
        one(framed("verticalArrangement = Arrangement.spacedBy(", &with_unit_of(v, ".dp"), ")"))
    } else if str_eq(c, "LazyColumn") && str_eq(p, "padding") {
        one(framed("contentPadding = PaddingValues(", &with_unit_of(v, ".dp"), ")"))
    } else if str_eq(c, "Row") && str_eq(p, "spacing") {
        one(framed("horizontalArrangement = Arrangement.spacedBy(", &with_unit_of(v, ".dp"), ")"))
    } else if str_eq(c, "Row") && str_eq(p, "padding") {
        one(framed("modifier = Modifier.padding(", &with_unit_of(v, ".dp"), ")"))
    } else if str_eq(c, "Text") && str_eq(p, "fontSize") {
        one(framed("fontSize = ", &with_unit_of(v, ".sp"), ""))
    } else if str_eq(c, "Text") && str_eq(p, "fontWeight") {
        one(framed("fontWeight = ", &enum_value_of("FontWeight.", &vv), ""))
    } else if str_eq(c, "Text") && str_eq(p, "fontFamily") {
        one(framed("fontFamily = ", &enum_value_of("FontFamily.", &vv), ""))
    } else if str_eq(c, "Text") && str_eq(p, "color") {
        let t = crate::compose::transform_ternary_to_if_else(v.as_str());
        let tv = str_to_chars(t.as_str());
        one_of(text_color_of(&tv), "color = ", "")
    } else if str_eq(c, "Card") && str_eq(p, "onClick") {
        one(framed("onClick = ", &crate::compose_modifiers::click_handler_of(v, ctx), ""))
    } else if str_eq(c, "Card") && str_eq(p, "backgroundColor") {
        one_of(
            card_background_of(&vv),
            "colors = CardDefaults.cardColors(\n                    containerColor = ",
            "\n                )",
        )
    } else if str_eq(c, "Card") && str_eq(p, "elevation") {
        one(
            framed(
                "elevation = CardDefaults.cardElevation(defaultElevation = ",
                &with_unit_of(v, ".dp"),
                ")",
            ),
        )
    } else {
        let mut l = lit(p);
        push_lit(&mut l, " = ");
        push_string(&mut l, v);
        one(l)
    }
}

// ===================== Bindings and the whole prop =====================

/// The declared type and default value of a state variable.
pub struct VarType {
    pub name: String,
    pub type_str: String,
    pub default_value: String,
}

/// The type and default of variable `name` (the last entry for it, as a map
/// filled in order keeps).
pub open spec fn var_type_of(vs: Seq<VarType>, name: Seq<char>) -> Option<(Seq<char>, Seq<char>)>
    decreases vs.len(),
{
    if vs.len() == 0 {
        None
    } else if vs.last().name@ == name {
        Some((vs.last().type_str@, vs.last().default_value@))
    } else {
        var_type_of(vs.drop_last(), name)
    }
}

/// The conversion and default of a numeric variable.
pub open spec fn numeric_binding(vs: Seq<VarType>, name: Seq<char>) -> Option<(Seq<char>, Seq<char>)> {
    match var_type_of(vs, name) {
        Some((t, d)) => if spec_is_numeric_type(t) {
            Some((numeric_conversion(t), d))
        } else {
            None
        },
        None => None,
    }
}

/// Whether `var` is mutable state of the ViewModel wrapper.
pub open spec fn wrapper_state(var: Seq<char>, ctx: ExprContext) -> bool {
    ctx.in_viewmodel_wrapper && ctx.mutable_vars@.map_values(|x: String| x@).contains(var)
}

/// `value`/`onValueChange` for `bind:value` to `var`: through `uiState` and
/// the ViewModel in the wrapper, with a conversion for numbers.
pub open spec fn bind_value_lines(var: Seq<char>, ctx: ExprContext, vs: Seq<VarType>) -> Seq<Seq<char>> {
    let (read, write) = if wrapper_state(var, ctx) {
        ("uiState."@ + var, "viewModel."@ + var)
    } else {
        (var, var)
    };
    match numeric_binding(vs, var) {
        Some((to, d)) => seq![
            "value = "@ + read + ".toString()"@,
            "onValueChange = { "@ + write + " = it."@ + to + " ?: "@ + d + " }"@,
        ],
        None => seq!["value = "@ + read, "onValueChange = { "@ + write + " = it }"@],
    }
}

/// `checked`/`onCheckedChange` for `bind:checked` to `var`.
pub open spec fn bind_checked_lines(var: Seq<char>, ctx: ExprContext) -> Seq<Seq<char>> {
    if wrapper_state(var, ctx) {
        seq!["checked = uiState."@ + var, "onCheckedChange = { viewModel."@ + var + " = it }"@]
    } else {
        seq!["checked = "@ + var, "onCheckedChange = { "@ + var + " = it }"@]
    }
}

/// A prop value before the prop's rules: screen parameters read directly,
/// `{expr}` in a string as a template.
pub open spec fn prepared_value(v: Seq<char>) -> Seq<char> {
    let v0 = replaced(v, "$screen.params."@, Seq::empty());
    if is_quoted(v0) {
        template_braces(v0)
    } else {
        v0
    }
}

/// `io {`, `cpu {` and `main {` blocks launched on the dispatcher scope.
pub open spec fn dispatched(v: Seq<char>) -> Seq<char> {
    replaced(
        replaced(
            replaced(v, "io {"@, "dispatcherScope.launch(Dispatchers.IO) {"@),
            "cpu {"@,
            "dispatcherScope.launch(Dispatchers.Default) {"@,
        ),
        "main {"@,
        "dispatcherScope.launch(Dispatchers.Main) {"@,
    )
}

/// The value the component rules see: rewritten for the wrapper, route
/// aliases resolved, `$navigate(` on a screen, arrow lambdas and dispatchers.
pub open spec fn rule_value(v: Seq<char>, component_type: Option<Seq<char>>, ctx: ExprContext) -> Seq<
    char,
> {
    let v3 = route_alias(in_context(prepared_value(v), ctx));
    let v4 = if component_type == Some("screen"@) {
        replaced(v3, "$navigate("@, "navController.navigate("@)
    } else {
        v3
    };
    dispatched(kotlin_lambda(v4))
}

/// The Compose arguments for prop `p` of component `c` with value `v`.
pub open spec fn prop_lines(
    c: Seq<char>,
    p: Seq<char>,
    v: Seq<char>,
    component_type: Option<Seq<char>>,
    ctx: ExprContext,
    vs: Seq<VarType>,
) -> Result<Seq<Seq<char>>, Seq<char>> {
    if p == "bind:value"@ {
        Ok(bind_value_lines(spec_trim(prepared_value(v)), ctx, vs))
    } else if p == "bind:checked"@ {
        Ok(bind_checked_lines(spec_trim(prepared_value(v)), ctx))
    } else if p == "modifier"@ {
        match hex_in_modifier(in_context(prepared_value(v), ctx)) {
            Ok(x) => Ok(seq!["modifier = "@ + x]),
            Err(e) => Err(e),
        }
    } else {
        component_prop_lines(c, p, rule_value(v, component_type, ctx), ctx)
    }
}

/// What transforming prop `p` of `c` reads is there.
pub open spec fn prop_ok(
    c: Seq<char>,
    p: Seq<char>,
    v: Seq<char>,
    component_type: Option<Seq<char>>,
    ctx: ExprContext,
) -> bool {
    (p != "bind:value"@ && p != "bind:checked"@ && p != "modifier"@) ==> component_prop_ok(
        c,
        p,
        rule_value(v, component_type, ctx),
    )
}

/// The type and default of variable `name`.
fn var_type_lookup(vs: &Vec<VarType>, name: &str) -> (r: Option<(String, String)>)
    ensures
        match r {
            Some((t, d)) => var_type_of(vs@, name@) == Some((t@, d@)),
            None => var_type_of(vs@, name@) is None,
        },
{
    let mut i = vs.len();
    proof {
        assert(vs@.take(vs@.len() as int) =~= vs@);
    }
    while i > 0
        invariant
            i <= vs@.len(),
            var_type_of(vs@, name@) == var_type_of(vs@.take(i as int), name@),
        decreases i,
    {
        proof {
            assert(vs@.take(i as int).drop_last() =~= vs@.take(i - 1));
            assert(vs@.take(i as int).last() == vs@[i - 1]);
        }
        if str_eq(vs[i - 1].name.as_str(), name) {
            return Some((lit(vs[i - 1].type_str.as_str()), lit(vs[i - 1].default_value.as_str())));
        }
        i = i - 1;
    }
    None
}

/// Whether `var` is one of `names`.
fn has_name(names: &Vec<String>, var: &str) -> (r: bool)
    ensures
        r == names@.map_values(|x: String| x@).contains(var@),
{
    let mut i: usize = 0;
    while i < names.len()
        invariant
            i <= names@.len(),
            forall|j: int| 0 <= j < i ==> names@[j]@ != var@,
        decreases names.len() - i,
    {
        if str_eq(names[i].as_str(), var) {
            assert(names@.map_values(|x: String| x@)[i as int] == var@);
            return true;
        }
        i = i + 1;
    }
    proof {
        if names@.map_values(|x: String| x@).contains(var@) {
            let w = names@.map_values(|x: String| x@);
            let k = choose|k: int| 0 <= k < w.len() && #[trigger] w[k] == var@;
            assert(names@[k]@ == var@);
        }
    }
    false
}

/// Two lines.
fn two(a: String, b: String) -> (r: Vec<String>)
    ensures
        crate::compose_imports::strs(r@) == seq![a@, b@],
{
    let mut v: Vec<String> = Vec::new();
    v.push(a);
    v.push(b);
    proof {
        assert(crate::compose_imports::strs(v@) =~= seq![a@, b@]);
    }
    v
}

/// `value`/`onValueChange` for `bind:value` to `var`.
fn bind_value_of(var: &String, ctx: &ExprContext, vs: &Vec<VarType>) -> (r: Vec<String>)
    ensures
        crate::compose_imports::strs(r@) == bind_value_lines(var@, *ctx, vs@),
{
    let wrapped = ctx.in_viewmodel_wrapper && has_name(&ctx.mutable_vars, var.as_str());
    let read = if wrapped {
        framed("uiState.", var, "")
    } else {
        framed("", var, "")
    };
    let write = if wrapped {
        framed("viewModel.", var, "")
    } else {
        framed("", var, "")
    };
    proof {
        reveal_strlit("");
        assert(""@ =~= Seq::<char>::empty());
        assert(read@ =~= if wrapper_state(var@, *ctx) {
            "uiState."@ + var@
        } else {
            var@
        });
        assert(write@ =~= if wrapper_state(var@, *ctx) {
            "viewModel."@ + var@
        } else {
            var@
        });
    }
    let numeric = match var_type_lookup(vs, var.as_str()) {
        Some((t, d)) => if crate::compose::is_numeric_type(t.as_str()) {
            let (to, dv) = crate::compose::get_numeric_conversion(t.as_str(), d.as_str());
            Some((to, dv))
        } else {
            None
        },
        None => None,
    };
    match numeric {
        Some((to, d)) => {
            let mut b = framed("onValueChange = { ", &write, " = it.");
            push_string(&mut b, &to);
            push_lit(&mut b, " ?: ");
            push_string(&mut b, &d);
            push_lit(&mut b, " }");
            two(framed("value = ", &read, ".toString()"), b)
        },
        None => two(framed("value = ", &read, ""), framed("onValueChange = { ", &write, " = it }")),
    }
}

/// `checked`/`onCheckedChange` for `bind:checked` to `var`.
fn bind_checked_of(var: &String, ctx: &ExprContext) -> (r: Vec<String>)
    ensures
        crate::compose_imports::strs(r@) == bind_checked_lines(var@, *ctx),
{
    proof {
        reveal_strlit("");
        assert(""@ =~= Seq::<char>::empty());
    }
    if ctx.in_viewmodel_wrapper && has_name(&ctx.mutable_vars, var.as_str()) {
        two(framed("checked = uiState.", var, ""), framed("onCheckedChange = { viewModel.", var, " = it }"))
    } else {
        two(framed("checked = ", var, ""), framed("onCheckedChange = { ", var, " = it }"))
    }
}

/// The Compose arguments for prop `prop_name` of `component` with value
/// `prop_value` (`component_type`: `screen` for screens), or the error of
/// a bad hex color.
pub fn transform_prop(
    component: &str,
    prop_name: &str,
    prop_value: &str,
    component_type: Option<&str>,
    ctx: &ExprContext,
    var_types: &Vec<VarType>,
) -> (r: Result<Vec<String>, String>)
    requires
        ctx.names_ok(),
        prop_ok(
            component@,
            prop_name@,
            prop_value@,
            match component_type {
                Some(t) => Some(t@),
                None => None,
            },
            *ctx,
        ),
    ensures
        match (
            r,
            prop_lines(
                component@,
                prop_name@,
                prop_value@,
                match component_type {
                    Some(t) => Some(t@),
                    None => None,
                },
                *ctx,
                var_types@,
            ),
        ) {
            (Ok(a), Ok(b)) => crate::compose_imports::strs(a@) == b,
            (Err(a), Err(b)) => a@ == b,
            _ => false,
        },
{
    proof {
        reveal_strlit("$screen.params.");
        reveal_strlit("");
        assert(""@ =~= Seq::<char>::empty());
    }
    let v0 = crate::compose::replace_all(prop_value, "$screen.params.", "");
    let v1 = crate::compose::transform_string_interpolation(v0.as_str());
    if str_eq(prop_name, "bind:value") {
        let var = crate::text::trim_str(v1.as_str());
        return Ok(bind_value_of(&var, ctx, var_types));
    }
    if str_eq(prop_name, "bind:checked") {
        let var = crate::text::trim_str(v1.as_str());
        return Ok(bind_checked_of(&var, ctx));
    }
    let v2 = in_context_of(v1.as_str(), ctx);
    if str_eq(prop_name, "modifier") {
        return one_of(crate::compose_modifiers::convert_hex_in_modifier(v2.as_str()), "modifier = ", "");
    }
    let v3 = crate::compose::transform_route_aliases(v2.as_str());
    let is_screen = match component_type {
        Some(t) => str_eq(t, "screen"),
        None => false,
    };
    proof {
        reveal_strlit("$navigate(");
    }
    let v4 = if is_screen {
        crate::compose::replace_all(v3.as_str(), "$navigate(", "navController.navigate(")
    } else {
        v3
    };
    let v5 = crate::compose::transform_lambda_arrow(v4.as_str());
    let v6 = crate::compose::transform_dispatchers(v5.as_str());
    component_prop_lines_of(component, prop_name, &v6, ctx)
}


// ===================== Deciding what the rules can read =====================

fn unquote_ok_of(v: &Vec<char>) -> (r: bool)
    ensures
        r == unquote_ok(v@),
{
    !quoted_chars(v) || v.len() >= 2
}

fn name_ok_of(v: &Vec<char>) -> (r: bool)
    ensures
        r == name_ok(v@),
{
    !quoted_chars(v) || (v.len() > 2 && (v[1] as u32) < 128)
}

/// Whether the colors of a `Text` color value `vt` can be read.
fn text_color_ok_of(vt: &Vec<char>) -> (r: bool)
    ensures
        r == text_color_ok(vt@),
{
    let n = vt.len();
    if crate::text::contains_chars(vt.as_slice(), str_to_chars("if (").as_slice()) && crate::text::contains_chars(
        vt.as_slice(),
        str_to_chars(") ").as_slice(),
    ) && crate::text::contains_chars(vt.as_slice(), str_to_chars(" else ").as_slice()) {
        proof {
            reveal_strlit("if (");
            reveal_strlit(") ");
            reveal_strlit(" else ");
        }
        match crate::compose_modifiers::find_first(vt, 0, "if (") {
            None => true,
            Some(ip) => match crate::compose_modifiers::find_first(vt, ip + 4, ") ") {
                None => true,
                Some(ce) => {
                    let ts = ce + 2;
                    match crate::compose_modifiers::find_first(vt, ts, " else ") {
                        None => true,
                        Some(ep) => {
                            let then_part = crate::compose_modifiers::sub_range(vt, ts, ep);
                            let a = crate::text::trimmed_range(then_part.as_slice(), 0, then_part.len());
                            let else_part = crate::compose_modifiers::sub_range(vt, ep + 6, n);
                            let b = crate::text::trimmed_range(else_part.as_slice(), 0, else_part.len());
                            proof {
                                assert(then_part@.subrange(0, then_part@.len() as int) =~= then_part@);
                                assert(else_part@.subrange(0, else_part@.len() as int) =~= else_part@);
                            }
                            unquote_ok_of(&str_to_chars(a.as_str())) && unquote_ok_of(
                                &str_to_chars(b.as_str()),
                            )
                        },
                    }
                },
            },
        }
    } else {
        let t = crate::text::trimmed_range(vt.as_slice(), 0, n);
        proof {
            assert(vt@.subrange(0, n as int) =~= vt@);
        }
        !quoted_chars(vt) || unquote_ok_of(&str_to_chars(t.as_str()))
    }
}

/// Whether the rules of prop `p` of component `c` can read value `v`.
fn component_prop_ok_of(c: &str, p: &str, v: &String) -> (r: bool)
    ensures
        r == component_prop_ok(c@, p@, v@),
{
    let vc = str_to_chars(v.as_str());
    let text_field = str_eq(c, "TextField") || str_eq(c, "OutlinedTextField");
    let a = !(text_field && (str_eq(p, "label") || str_eq(p, "placeholder"))) || unquote_ok_of(&vc);
    let b = !(str_eq(c, "TextField") && str_eq(p, "type")) || unquote_ok_of(&vc);
    let d = !((str_eq(c, "Column") || str_eq(c, "Row")) && str_eq(p, "backgroundColor")) || name_ok_of(&vc);
    let e = !(str_eq(c, "Text") && (str_eq(p, "fontWeight") || str_eq(p, "fontFamily"))) || name_ok_of(&vc);
    let f = if str_eq(c, "Text") && str_eq(p, "color") {
        let t = crate::compose::transform_ternary_to_if_else(v.as_str());
        text_color_ok_of(&str_to_chars(t.as_str()))
    } else {
        true
    };
    let h = !(str_eq(c, "Card") && str_eq(p, "backgroundColor")) || unquote_ok_of(&vc);
    a && b && d && e && f && h
}

/// The value the component rules see of `v` (see `rule_value`).
fn rule_value_of(v: &str, component_type: Option<&str>, ctx: &ExprContext) -> (r: String)
    requires
        ctx.names_ok(),
    ensures
        r@ == rule_value(
            v@,
            match component_type {
                Some(t) => Some(t@),
                None => None,
            },
            *ctx,
        ),
{
    proof {
        reveal_strlit("$screen.params.");
        reveal_strlit("");
        assert(""@ =~= Seq::<char>::empty());
        reveal_strlit("$navigate(");
    }
    let v0 = crate::compose::replace_all(v, "$screen.params.", "");
    let v1 = crate::compose::transform_string_interpolation(v0.as_str());
    let v2 = in_context_of(v1.as_str(), ctx);
    let v3 = crate::compose::transform_route_aliases(v2.as_str());
    let is_screen = match component_type {
        Some(t) => str_eq(t, "screen"),
        None => false,
    };
    let v4 = if is_screen {
        crate::compose::replace_all(v3.as_str(), "$navigate(", "navController.navigate(")
    } else {
        v3
    };
    let v5 = crate::compose::transform_lambda_arrow(v4.as_str());
    crate::compose::transform_dispatchers(v5.as_str())
}

/// Whether transforming prop `p` of `c` with value `v` finds what it reads
/// (see `prop_ok`).
pub(crate) fn prop_ok_of(
    c: &str,
    p: &str,
    v: &str,
    component_type: Option<&str>,
    ctx: &ExprContext,
) -> (r: bool)
    requires
        ctx.names_ok(),
    ensures
        r == prop_ok(
            c@,
            p@,
            v@,
            match component_type {
                Some(t) => Some(t@),
                None => None,
            },
            *ctx,
        ),
{
    if str_eq(p, "bind:value") || str_eq(p, "bind:checked") || str_eq(p, "modifier") {
        true
    } else {
        let rv = rule_value_of(v, component_type, ctx);
        component_prop_ok_of(c, p, &rv)
    }
}


// ===================== Laws of spacing =====================

/// `s` starts with `p` and ends with `q`.
pub open spec fn framed_by(s: Seq<char>, p: Seq<char>, q: Seq<char>) -> bool {
    crate::text::occurs_at(s, 0, p) && ends_with(s, q)
}

proof fn lemma_spaced(head: Seq<char>, v: Seq<char>)
    ensures
        framed_by(head + with_unit(v, ".dp"@) + ")"@, head + v, ".dp)"@),
{
    reveal_strlit(".dp");
    reveal_strlit(")");
    reveal_strlit(".dp)");
    let w = with_unit(v, ".dp"@);
    let s = head + w + ")"@;
    if ends_with(v, ".dp"@) {
        assert(w == v);
    } else {
        assert(w == v + ".dp"@);
    }
    assert(s.subrange(0, (head + v).len() as int) =~= head + v);
    assert(w.subrange(w.len() - 3, w.len() as int) =~= ".dp"@);
    assert(s.subrange(s.len() - 4, s.len() as int) =~= ".dp)"@) by {
        assert(s.subrange(s.len() - 4, s.len() - 1) =~= w.subrange(w.len() - 3, w.len() as int));
    }
}

/// The spacing of a `Row` spaces its children horizontally and that of a
/// `Column` vertically: one argument, the arrangement of the value in dp
/// (the value as written, then `.dp` unless it ends so).
pub proof fn law_spacing_arrangement(v: Seq<char>, ctx: ExprContext)
    ensures
        component_prop_lines("Row"@, "spacing"@, v, ctx) matches Ok(ls) && ls.len() == 1 && framed_by(
            ls[0],
            "horizontalArrangement = Arrangement.spacedBy("@ + v,
            ".dp)"@,
        ),
        component_prop_lines("Column"@, "spacing"@, v, ctx) matches Ok(ls) && ls.len() == 1 && framed_by(
            ls[0],
            "verticalArrangement = Arrangement.spacedBy("@ + v,
            ".dp)"@,
        ),
{
    lemma_spaced("horizontalArrangement = Arrangement.spacedBy("@, v);
    lemma_spaced("verticalArrangement = Arrangement.spacedBy("@, v);
    reveal_strlit("Row");
    reveal_strlit("Column");
    reveal_strlit("spacing");
    reveal_strlit("TextField");
    reveal_strlit("OutlinedTextField");
    reveal_strlit("Button");
    reveal_strlit("IconButton");
    reveal_strlit("label");
    reveal_strlit("placeholder");
    reveal_strlit("type");
    reveal_strlit("text");
    reveal_strlit("onClick");
    reveal_strlit("padding");
    reveal_strlit("backgroundColor");
    reveal_strlit("LazyColumn");
    assert("Row"@.len() == 3 && "Column"@.len() == 6 && "TextField"@.len() == 9);
    assert("OutlinedTextField"@.len() == 17 && "Button"@.len() == 6 && "IconButton"@.len() == 10);
    assert("LazyColumn"@.len() == 10 && "Column"@[0] == 'C' && "Button"@[0] == 'B');
    assert("spacing"@.len() == 7 && "label"@.len() == 5 && "placeholder"@.len() == 11);
    assert("type"@.len() == 4 && "text"@.len() == 4 && "onClick"@.len() == 7 && "padding"@.len() == 7);
    assert("backgroundColor"@.len() == 15 && "spacing"@[0] == 's' && "onClick"@[0] == 'o'
        && "padding"@[0] == 'p');
    assert("Row"@ != "TextField"@ && "Row"@ != "OutlinedTextField"@ && "Row"@ != "Button"@
        && "Row"@ != "IconButton"@ && "Row"@ != "Column"@ && "Row"@ != "LazyColumn"@);
    assert("Column"@ != "TextField"@ && "Column"@ != "OutlinedTextField"@ && "Column"@ != "Button"@
        && "Column"@ != "IconButton"@);
    assert("spacing"@ != "label"@ && "spacing"@ != "placeholder"@ && "spacing"@ != "type"@
        && "spacing"@ != "text"@ && "spacing"@ != "onClick"@ && "spacing"@ != "padding"@
        && "spacing"@ != "backgroundColor"@);
}

/// Transforming the `spacing` prop of a `Row` gives the horizontal
/// arrangement of the value the rules see, in dp.
pub proof fn law_row_spacing_prop(
    v: Seq<char>,
    component_type: Option<Seq<char>>,
    ctx: ExprContext,
    vs: Seq<VarType>,
)
    ensures
        prop_lines("Row"@, "spacing"@, v, component_type, ctx, vs) matches Ok(ls) && ls.len() == 1
            && framed_by(
            ls[0],
            "horizontalArrangement = Arrangement.spacedBy("@ + rule_value(v, component_type, ctx),
            ".dp)"@,
        ),
{
    reveal_strlit("spacing");
    reveal_strlit("bind:value");
    reveal_strlit("bind:checked");
    reveal_strlit("modifier");
    assert("spacing"@.len() == 7 && "bind:value"@.len() == 10 && "bind:checked"@.len() == 12
        && "modifier"@.len() == 8);
    law_spacing_arrangement(rule_value(v, component_type, ctx), ctx);
}

} // verus!
