//! The imports that the Compose code of a markup tree needs: the rules that
//! map components, props and prop values to Kotlin imports.
//!
//! Two lists are filled: imports asked for by prop values and transformations,
//! and imports of the components themselves. Each keeps its order of first
//! request and holds no import twice.

use vstd::prelude::*;

use crate::ast::{
    Component, ComponentProp, ElseIfBranch, ForLoopBlock, IfElseBlock, Markup, PropValue,
    WhenBlock, WhenBranch,
};
use crate::compose::add_import_if_missing;
use crate::text::{lit, occurs_at, seq_contains, spec_trim, str_contains, str_eq, str_to_chars, trim_str};
use crate::view::{
    add_imports, lemma_add_imports_append, lemma_add_imports_no_repeats, no_repeats,
};

verus! {

/// A pair of request lists: (prop imports, component imports).
pub open spec fn nothing() -> (Seq<Seq<char>>, Seq<Seq<char>>) {
    (Seq::empty(), Seq::empty())
}

/// The requests of `a`, then those of `b`, list by list.
pub open spec fn cat(
    a: (Seq<Seq<char>>, Seq<Seq<char>>),
    b: (Seq<Seq<char>>, Seq<Seq<char>>),
) -> (Seq<Seq<char>>, Seq<Seq<char>>) {
    (a.0 + b.0, a.1 + b.1)
}

/// `xs` if `b`, else nothing.
pub open spec fn only_if(b: bool, xs: Seq<Seq<char>>) -> Seq<Seq<char>> {
    if b {
        xs
    } else {
        Seq::empty()
    }
}

/// The contents of a list of strings.
pub open spec fn strs(v: Seq<String>) -> Seq<Seq<char>> {
    v.map_values(|s: String| s@)
}

/// The expression of a prop value; a markup value has the empty expression.
pub open spec fn prop_expr(v: PropValue) -> Seq<char> {
    match v {
        PropValue::Expression(e) => e@,
        PropValue::Markup(_) => Seq::empty(),
    }
}

// ===================== Rules on prop values =====================

/// Imports for a value that mentions `Modifier`.
pub open spec fn modifier_requests(e: Seq<char>) -> Seq<Seq<char>> {
    seq!["androidx.compose.ui.Modifier"@] + only_if(
        seq_contains(e, "fillMaxSize"@),
        seq!["androidx.compose.foundation.layout.fillMaxSize"@],
    ) + only_if(
        seq_contains(e, "fillMaxWidth"@),
        seq!["androidx.compose.foundation.layout.fillMaxWidth"@],
    ) + only_if(
        seq_contains(e, "fillMaxHeight"@),
        seq!["androidx.compose.foundation.layout.fillMaxHeight"@],
    ) + only_if(
        seq_contains(e, ".padding("@),
        seq!["androidx.compose.foundation.layout.padding"@, "androidx.compose.ui.unit.dp"@],
    ) + only_if(
        seq_contains(e, ".size("@),
        seq!["androidx.compose.foundation.layout.size"@, "androidx.compose.ui.unit.dp"@],
    ) + only_if(
        seq_contains(e, ".height("@),
        seq!["androidx.compose.foundation.layout.height"@, "androidx.compose.ui.unit.dp"@],
    ) + only_if(
        seq_contains(e, ".width("@),
        seq!["androidx.compose.foundation.layout.width"@, "androidx.compose.ui.unit.dp"@],
    ) + only_if(
        seq_contains(e, ".background("@),
        seq!["androidx.compose.foundation.background"@, "androidx.compose.ui.graphics.Color"@],
    )
}

/// Prop imports for what any prop value mentions (icons, modifiers,
/// layout and text constants, colors, `clickable`, string resources).
pub open spec fn value_prop_requests(e: Seq<char>) -> Seq<Seq<char>> {
    only_if(
        seq_contains(e, "Icons.Default."@),
        seq![
            "androidx.compose.material.icons.Icons"@,
            "androidx.compose.material.icons.filled.*"@,
        ],
    ) + only_if(
        seq_contains(e, "Icons.Filled."@),
        seq![
            "androidx.compose.material.icons.Icons"@,
            "androidx.compose.material.icons.filled.*"@,
        ],
    ) + only_if(
        seq_contains(e, "Icons.Outlined."@),
        seq![
            "androidx.compose.material.icons.Icons"@,
            "androidx.compose.material.icons.outlined.*"@,
        ],
    ) + only_if(
        seq_contains(e, "TextDecoration"@),
        seq!["androidx.compose.ui.text.style.TextDecoration"@],
    ) + only_if(seq_contains(e, "Modifier"@), modifier_requests(e)) + only_if(
        seq_contains(e, "Arrangement."@),
        seq!["androidx.compose.foundation.layout.Arrangement"@],
    ) + only_if(seq_contains(e, "Alignment."@), seq!["androidx.compose.ui.Alignment"@]) + only_if(
        seq_contains(e, "TextAlign."@),
        seq!["androidx.compose.ui.text.style.TextAlign"@],
    ) + only_if(
        seq_contains(e, "FontWeight."@),
        seq!["androidx.compose.ui.text.font.FontWeight"@],
    ) + only_if(seq_contains(e, "Color."@), seq!["androidx.compose.ui.graphics.Color"@]) + only_if(
        seq_contains(e, "clickable"@),
        seq!["androidx.compose.foundation.clickable"@],
    ) + only_if(seq_contains(e, "R.string."@), seq!["androidx.compose.ui.res.stringResource"@])
}

/// Requests for what any prop value mentions; a string resource also needs
/// the app's `R` among the component imports.
pub open spec fn value_requests(e: Seq<char>) -> (Seq<Seq<char>>, Seq<Seq<char>>) {
    (value_prop_requests(e), only_if(seq_contains(e, "R.string."@), seq!["com.example.app.R"@]))
}

/// Whether `p` is a padding or margin shorthand (`p`, `px`, .., `mr`).
pub open spec fn is_spacing_shorthand(p: Seq<char>) -> bool {
    p == "p"@ || p == "px"@ || p == "py"@ || p == "pt"@ || p == "pb"@ || p == "pl"@ || p
        == "pr"@ || p == "m"@ || p == "mx"@ || p == "my"@ || p == "mt"@ || p == "mb"@ || p
        == "ml"@ || p == "mr"@
}

/// Prop imports for a padding or margin shorthand prop named `p`.
pub open spec fn shorthand_requests(p: Seq<char>) -> Seq<Seq<char>> {
    only_if(
        is_spacing_shorthand(p),
        seq!["androidx.compose.ui.Modifier"@] + only_if(
            occurs_at(p, 0, "p"@),
            seq!["androidx.compose.foundation.layout.padding"@],
        ) + seq!["androidx.compose.ui.unit.dp"@],
    )
}

/// Prop imports only.
pub open spec fn props_only(xs: Seq<Seq<char>>) -> (Seq<Seq<char>>, Seq<Seq<char>>) {
    (xs, Seq::empty())
}

/// Whether a quoted value `"..."` holds a hex color (`"#..."`).
pub open spec fn quoted_hex(e: Seq<char>) -> bool {
    e.len() >= 3 && e[1] == '#'
}

/// Whether `e` starts with a double quote.
pub open spec fn starts_quoted(e: Seq<char>) -> bool {
    e.len() > 0 && e[0] == '"'
}

/// Index of the first character of `s` at or after `i` that is not `"`.
pub open spec fn unquoted_start(s: Seq<char>, i: int) -> int
    decreases s.len() - i,
{
    if 0 <= i < s.len() && s[i] == '"' {
        unquoted_start(s, i + 1)
    } else {
        i
    }
}

/// Index just past the last character of `s[lo..j]` that is not `"`.
pub open spec fn unquoted_end(s: Seq<char>, lo: int, j: int) -> int
    decreases j - lo,
{
    if lo < j && s[j - 1] == '"' {
        unquoted_end(s, lo, j - 1)
    } else {
        j
    }
}

/// `s` without its leading and trailing double quotes (as `trim_matches('"')`).
pub open spec fn strip_quotes(s: Seq<char>) -> Seq<char> {
    let a = unquoted_start(s, 0);
    s.subrange(a, unquoted_end(s, a, s.len() as int))
}

/// Requests for prop `p` of component `n` with value `e`, by the component's
/// own transformation of that prop (`has_modifier`: the component has an
/// explicit `modifier` prop).
pub open spec fn pair_requests(n: Seq<char>, p: Seq<char>, e: Seq<char>, has_modifier: bool) -> (
    Seq<Seq<char>>,
    Seq<Seq<char>>,
) {
    let modifier = "androidx.compose.ui.Modifier"@;
    let dp = "androidx.compose.ui.unit.dp"@;
    let padding = "androidx.compose.foundation.layout.padding"@;
    let arrangement = "androidx.compose.foundation.layout.Arrangement"@;
    let color = "androidx.compose.ui.graphics.Color"@;
    let theme = "androidx.compose.material3.MaterialTheme"@;
    let card_defaults = "androidx.compose.material3.CardDefaults"@;
    let size = "androidx.compose.foundation.layout.size"@;
    let clickable = "androidx.compose.foundation.clickable"@;
    if n == "Spacer"@ && p == "h"@ {
        props_only(seq![modifier, "androidx.compose.foundation.layout.height"@, dp])
    } else if n == "Spacer"@ && p == "w"@ {
        props_only(seq![modifier, "androidx.compose.foundation.layout.width"@, dp])
    } else if n == "Column"@ && p == "spacing"@ {
        props_only(seq![arrangement, dp])
    } else if n == "Column"@ && p == "padding"@ {
        props_only(seq![modifier, padding, dp])
    } else if (n == "Column"@ || n == "Row"@) && p == "backgroundColor"@ {
        props_only(seq![modifier, "androidx.compose.foundation.background"@, color])
    } else if n == "Row"@ && p == "spacing"@ {
        props_only(seq![arrangement, dp])
    } else if n == "Row"@ && p == "padding"@ {
        props_only(seq![modifier, padding, dp])
    } else if n == "Text"@ && p == "fontSize"@ {
        props_only(seq!["androidx.compose.ui.unit.sp"@])
    } else if n == "Text"@ && p == "fontWeight"@ {
        props_only(seq!["androidx.compose.ui.text.font.FontWeight"@])
    } else if n == "Text"@ && p == "fontFamily"@ {
        props_only(seq!["androidx.compose.ui.text.font.FontFamily"@])
    } else if n == "Text"@ && p == "color"@ && starts_quoted(e) {
        props_only(
            if quoted_hex(e) {
                seq![color]
            } else {
                seq![theme]
            },
        )
    } else if n == "Card"@ && p == "backgroundColor"@ {
        props_only(seq![card_defaults, theme] + only_if(starts_quoted(e) && quoted_hex(e), seq![color]))
    } else if n == "Card"@ && p == "elevation"@ {
        props_only(seq![card_defaults, dp])
    } else if n == "Box"@ && (p == "width"@ || p == "height"@) {
        props_only(seq![modifier, size, dp])
    } else if n == "Box"@ && p == "backgroundColor"@ {
        props_only(seq!["androidx.compose.foundation.background"@, color])
    } else if n == "Box"@ && p == "alignment"@ {
        props_only(seq!["androidx.compose.ui.Alignment"@])
    } else if n == "AsyncImage"@ && (p == "url"@ || p == "width"@ || p == "height"@) {
        props_only(only_if(!has_modifier, seq![modifier, size, dp]))
    } else if n == "AsyncImage"@ && (p == "placeholder"@ || p == "error"@ || p == "crossfade"@) {
        props_only(
            only_if(
                !has_modifier,
                seq![
                    modifier,
                    "androidx.compose.ui.layout.ContentScale"@,
                    dp,
                    "coil.request.ImageRequest"@,
                    "androidx.compose.ui.platform.LocalContext"@,
                    "coil.compose.rememberAsyncImagePainter"@,
                ],
            ),
        )
    } else if n == "LazyColumn"@ && p == "spacing"@ {
        props_only(seq![arrangement, dp])
    } else if n == "LazyColumn"@ && p == "padding"@ {
        props_only(seq!["androidx.compose.foundation.layout.PaddingValues"@, dp])
    } else if (n == "Text"@ || n == "Card"@) && p == "padding"@ {
        props_only(seq![modifier, padding, dp])
    } else if (n == "Text"@ || n == "Card"@ || n == "Button"@) && p == "fillMaxWidth"@ {
        props_only(seq![modifier, "androidx.compose.foundation.layout.fillMaxWidth"@])
    } else if (n == "Text"@ || n == "Card"@) && p == "modifier"@ && seq_contains(e, "clickable"@) {
        props_only(seq![modifier, clickable])
    } else if n == "Text"@ && p == "onClick"@ {
        props_only(seq![modifier, clickable])
    } else if (n == "TextField"@ || n == "OutlinedTextField"@) && (p == "label"@ || p
        == "placeholder"@) {
        (Seq::empty(), seq!["androidx.compose.material3.Text"@])
    } else if n == "TextField"@ && p == "type"@ && strip_quotes(e) == "password"@ {
        props_only(seq!["androidx.compose.ui.text.input.PasswordVisualTransformation"@])
    } else {
        nothing()
    }
}

/// Whether prop `p` of component `n` with value `e` can be transformed: a
/// quoted color of `Text` or background of `Card` has its closing quote, an
/// ASCII character.
pub open spec fn pair_slice_ok(n: Seq<char>, p: Seq<char>, e: Seq<char>) -> bool {
    ((n == "Text"@ && p == "color"@) || (n == "Card"@ && p == "backgroundColor"@)) && starts_quoted(
        e,
    ) ==> e.len() >= 2 && (e.last() as u32) < 128
}

/// All requests for one prop of component `n`, before its markup value.
pub open spec fn prop_rule_requests(
    n: Seq<char>,
    has_modifier: bool,
    p: Seq<char>,
    e: Seq<char>,
) -> (Seq<Seq<char>>, Seq<Seq<char>>) {
    cat(cat(value_requests(e), props_only(shorthand_requests(p))), pair_requests(n, p, e, has_modifier))
}

// ===================== Rules on components =====================

/// Whether one of `ps` is named `name`.
pub open spec fn has_prop(ps: Seq<ComponentProp>, name: Seq<char>) -> bool {
    exists|i: int| 0 <= i < ps.len() && #[trigger] ps[i].name@ == name
}

/// Whether `p` names a size or fill prop.
pub open spec fn is_size_prop(p: Seq<char>) -> bool {
    p == "width"@ || p == "height"@ || p == "fillMaxWidth"@ || p == "fillMaxHeight"@ || p
        == "fillMaxSize"@
}

/// Whether one of `ps` is a size or fill prop.
pub open spec fn has_size_prop(ps: Seq<ComponentProp>) -> bool {
    exists|i: int| 0 <= i < ps.len() && is_size_prop(#[trigger] ps[i].name@)
}

/// Whether one of `ms` is a `@for` loop.
pub open spec fn has_for_loop(ms: Seq<Markup>) -> bool {
    exists|i: int| 0 <= i < ms.len() && #[trigger] ms[i] is ForLoop
}

/// Whether a size value is `100%` (trimmed, quotes removed).
pub open spec fn is_full_size(e: Seq<char>) -> bool {
    strip_quotes(spec_trim(e)) == "100%"@
}

/// Prop imports for one size or fill prop of an `Image`.
pub open spec fn image_prop_request(p: ComponentProp) -> Seq<Seq<char>> {
    let n = p.name@;
    let full = is_full_size(prop_expr(p.value));
    if n == "fillMaxWidth"@ {
        seq!["androidx.compose.foundation.layout.fillMaxWidth"@]
    } else if n == "fillMaxHeight"@ {
        seq!["androidx.compose.foundation.layout.fillMaxHeight"@]
    } else if n == "fillMaxSize"@ {
        seq!["androidx.compose.foundation.layout.fillMaxSize"@]
    } else if n == "width"@ && full {
        seq!["androidx.compose.foundation.layout.fillMaxWidth"@]
    } else if n == "height"@ && full {
        seq!["androidx.compose.foundation.layout.fillMaxHeight"@]
    } else if n == "width"@ || n == "height"@ {
        seq![
            "androidx.compose.foundation.layout.width"@,
            "androidx.compose.foundation.layout.height"@,
        ]
    } else {
        Seq::empty()
    }
}

/// Prop imports for the size and fill props of an `Image`, in order.
pub open spec fn image_props_requests(ps: Seq<ComponentProp>) -> Seq<Seq<char>>
    decreases ps.len(),
{
    if ps.len() == 0 {
        Seq::empty()
    } else {
        image_props_requests(ps.drop_last()) + image_prop_request(ps.last())
    }
}

/// Components imported from Material 3 under their own name.
pub open spec fn is_material3_component(n: Seq<char>) -> bool {
    n == "Text"@ || n == "Card"@ || n == "CircularProgressIndicator"@ || n == "AlertDialog"@ || n
        == "Tab"@ || n == "TabRow"@ || n == "Divider"@ || n == "HorizontalDivider"@ || n
        == "OutlinedTextField"@ || n == "Checkbox"@ || n == "FilterChip"@ || n == "SnackbarHost"@
        || n == "TextField"@ || n == "Switch"@ || n == "Scaffold"@ || n == "TopAppBar"@ || n
        == "Icon"@ || n == "IconButton"@
}

/// Components imported from the foundation layouts under their own name.
pub open spec fn is_layout_component(n: Seq<char>) -> bool {
    n == "Column"@ || n == "Row"@ || n == "Box"@
}

/// Requests for component `c` itself (after those of its props).
pub open spec fn name_requests(c: Component) -> (Seq<Seq<char>>, Seq<Seq<char>>) {
    let n = c.name@;
    let ps = c.props@;
    let modifier = "androidx.compose.ui.Modifier"@;
    let dp = "androidx.compose.ui.unit.dp"@;
    let content_scale = "androidx.compose.ui.layout.ContentScale"@;
    if is_material3_component(n) {
        (Seq::empty(), seq!["androidx.compose.material3."@ + n])
    } else if is_layout_component(n) {
        (Seq::empty(), seq!["androidx.compose.foundation.layout."@ + n])
    } else if n == "DropdownMenu"@ {
        (
            Seq::empty(),
            seq![
                "androidx.compose.material3.ExposedDropdownMenuBox"@,
                "androidx.compose.material3.DropdownMenuItem"@,
                "androidx.compose.material3.TextField"@,
                "androidx.compose.material3.Text"@,
            ],
        )
    } else if n == "Button"@ {
        (
            Seq::empty(),
            seq!["androidx.compose.material3.Button"@] + only_if(
                has_prop(ps, "text"@),
                seq!["androidx.compose.material3.Text"@],
            ),
        )
    } else if n == "LazyColumn"@ {
        (
            only_if(has_for_loop(c.children@), seq!["androidx.compose.foundation.lazy.items"@]),
            seq!["androidx.compose.foundation.lazy.LazyColumn"@],
        )
    } else if n == "AsyncImage"@ {
        (only_if(has_prop(ps, "contentScale"@), seq![content_scale]), seq!["coil.compose.AsyncImage"@])
    } else if n == "Image"@ {
        (
            seq![content_scale] + only_if(has_size_prop(ps), seq![modifier, dp])
                + image_props_requests(ps),
            seq!["coil.compose.AsyncImage"@],
        )
    } else if n == "Spacer"@ {
        (
            seq![modifier, dp] + only_if(
                !(has_prop(ps, "h"@) || has_prop(ps, "w"@)),
                seq!["androidx.compose.foundation.layout.height"@],
            ),
            seq!["androidx.compose.foundation.layout.Spacer"@],
        )
    } else {
        nothing()
    }
}

// ===================== Walking the markup =====================

/// The requests of markup `m` whose enclosing component is `parent`.
pub open spec fn markup_requests(m: Markup, parent: Option<Seq<char>>) -> (
    Seq<Seq<char>>,
    Seq<Seq<char>>,
)
    decreases m,
{
    match m {
        Markup::Component(c) => component_requests(c),
        Markup::Sequence(items) => markups_requests(items@, None),
        Markup::IfElse(b) => if_else_requests(b),
        Markup::ForLoop(f) => for_loop_requests(f, parent),
        Markup::When(w) => when_requests(w.branches@),
        Markup::Interpolation(e) => if seq_contains(e@, "R.string."@) {
            (seq!["androidx.compose.ui.res.stringResource"@], seq!["com.example.app.R"@])
        } else {
            nothing()
        },
        Markup::Text(_) => if parent == Some("Button"@) {
            (Seq::empty(), seq!["androidx.compose.material3.Text"@])
        } else {
            nothing()
        },
    }
}

/// The requests of component `c`: its props in order, the component itself,
/// then its children (whose parent it is).
pub open spec fn component_requests(c: Component) -> (Seq<Seq<char>>, Seq<Seq<char>>)
    decreases c,
{
    cat(
        cat(props_requests(c.name@, has_prop(c.props@, "modifier"@), c.props@), name_requests(c)),
        markups_requests(c.children@, Some(c.name@)),
    )
}

/// The requests of an `@if` block: then branch, `else if` branches, else branch.
pub open spec fn if_else_requests(b: IfElseBlock) -> (Seq<Seq<char>>, Seq<Seq<char>>)
    decreases b,
{
    cat(
        cat(markups_requests(b.then_branch@, None), else_ifs_requests(b.else_ifs@)),
        match b.else_branch {
            Some(e) => markups_requests(e@, None),
            None => nothing(),
        },
    )
}

/// The requests of a `@for` loop inside `parent`: `key` for a keyed loop
/// outside a `LazyColumn`, then the body and the empty block.
pub open spec fn for_loop_requests(f: ForLoopBlock, parent: Option<Seq<char>>) -> (
    Seq<Seq<char>>,
    Seq<Seq<char>>,
)
    decreases f,
{
    cat(
        cat(
            props_only(
                only_if(
                    f.key_expr is Some && parent != Some("LazyColumn"@),
                    seq!["androidx.compose.runtime.key"@],
                ),
            ),
            markups_requests(f.body@, parent),
        ),
        match f.empty_block {
            Some(e) => markups_requests(e@, parent),
            None => nothing(),
        },
    )
}

/// The requests of the items of `ms`, in order.
pub open spec fn markups_requests(ms: Seq<Markup>, parent: Option<Seq<char>>) -> (
    Seq<Seq<char>>,
    Seq<Seq<char>>,
)
    decreases ms,
{
    if ms.len() == 0 {
        nothing()
    } else {
        cat(markups_requests(ms.drop_last(), parent), markup_requests(ms.last(), parent))
    }
}

/// The requests of the props `ps` of component `n`, in order; a markup value
/// is walked after the rules of its prop.
pub open spec fn props_requests(n: Seq<char>, has_modifier: bool, ps: Seq<ComponentProp>) -> (
    Seq<Seq<char>>,
    Seq<Seq<char>>,
)
    decreases ps,
{
    if ps.len() == 0 {
        nothing()
    } else {
        cat(
            cat(
                props_requests(n, has_modifier, ps.drop_last()),
                prop_rule_requests(n, has_modifier, ps.last().name@, prop_expr(ps.last().value)),
            ),
            match ps.last().value {
                PropValue::Markup(b) => markup_requests(*b, None),
                PropValue::Expression(_) => nothing(),
            },
        )
    }
}

/// The requests of `else if` branches, in order.
pub open spec fn else_ifs_requests(bs: Seq<ElseIfBranch>) -> (Seq<Seq<char>>, Seq<Seq<char>>)
    decreases bs,
{
    if bs.len() == 0 {
        nothing()
    } else {
        cat(else_ifs_requests(bs.drop_last()), markups_requests(bs.last().body@, None))
    }
}

/// The requests of `@when` branches, in order.
pub open spec fn when_requests(bs: Seq<WhenBranch>) -> (Seq<Seq<char>>, Seq<Seq<char>>)
    decreases bs,
{
    if bs.len() == 0 {
        nothing()
    } else {
        cat(when_requests(bs.drop_last()), markup_requests(bs.last().body, None))
    }
}

// ===================== Inputs that can be walked =====================

/// Every prop in `m` can be transformed (see `pair_slice_ok`).
pub open spec fn markup_safe(m: Markup) -> bool
    decreases m,
{
    match m {
        Markup::Component(c) => component_safe(c),
        Markup::Sequence(items) => markups_safe(items@),
        Markup::IfElse(b) => if_else_safe(b),
        Markup::ForLoop(f) => for_loop_safe(f),
        Markup::When(w) => whens_safe(w.branches@),
        _ => true,
    }
}

pub open spec fn component_safe(c: Component) -> bool
    decreases c,
{
    props_safe(c.name@, c.props@) && markups_safe(c.children@)
}

pub open spec fn if_else_safe(b: IfElseBlock) -> bool
    decreases b,
{
    markups_safe(b.then_branch@) && else_ifs_safe(b.else_ifs@) && match b.else_branch {
        Some(e) => markups_safe(e@),
        None => true,
    }
}

pub open spec fn for_loop_safe(f: ForLoopBlock) -> bool
    decreases f,
{
    markups_safe(f.body@) && match f.empty_block {
        Some(e) => markups_safe(e@),
        None => true,
    }
}

pub open spec fn markups_safe(ms: Seq<Markup>) -> bool
    decreases ms,
{
    ms.len() == 0 || (markups_safe(ms.drop_last()) && markup_safe(ms.last()))
}

pub open spec fn props_safe(n: Seq<char>, ps: Seq<ComponentProp>) -> bool
    decreases ps,
{
    ps.len() == 0 || (props_safe(n, ps.drop_last()) && pair_slice_ok(
        n,
        ps.last().name@,
        prop_expr(ps.last().value),
    ) && match ps.last().value {
        PropValue::Markup(b) => markup_safe(*b),
        PropValue::Expression(_) => true,
    })
}

pub open spec fn else_ifs_safe(bs: Seq<ElseIfBranch>) -> bool
    decreases bs,
{
    bs.len() == 0 || (else_ifs_safe(bs.drop_last()) && markups_safe(bs.last().body@))
}

pub open spec fn whens_safe(bs: Seq<WhenBranch>) -> bool
    decreases bs,
{
    bs.len() == 0 || (whens_safe(bs.drop_last()) && markup_safe(bs.last().body))
}

// ===================== Building requests =====================

/// Appends the request `x` if `b`.
fn req_if(v: &mut Vec<String>, b: bool, x: &str)
    ensures
        strs(final(v)@) == strs(old(v)@) + only_if(b, seq![x@]),
{
    if b {
        v.push(lit(x));
    }
    proof {
        assert(strs(v@) =~= strs(old(v)@) + only_if(b, seq![x@]));
    }
}

/// Appends the requests `x`, `y` if `b`.
fn req2_if(v: &mut Vec<String>, b: bool, x: &str, y: &str)
    ensures
        strs(final(v)@) == strs(old(v)@) + only_if(b, seq![x@, y@]),
{
    if b {
        v.push(lit(x));
        v.push(lit(y));
    }
    proof {
        assert(strs(v@) =~= strs(old(v)@) + only_if(b, seq![x@, y@]));
    }
}

/// Appends the requests `x`, `y`, `z`.
fn req3(v: &mut Vec<String>, x: &str, y: &str, z: &str)
    ensures
        strs(final(v)@) == strs(old(v)@) + seq![x@, y@, z@],
{
    v.push(lit(x));
    v.push(lit(y));
    v.push(lit(z));
    proof {
        assert(strs(v@) =~= strs(old(v)@) + seq![x@, y@, z@]);
    }
}

/// `v` followed by `w`.
fn append_reqs(v: &mut Vec<String>, w: &Vec<String>)
    ensures
        strs(final(v)@) == strs(old(v)@) + strs(w@),
{
    let mut i: usize = 0;
    while i < w.len()
        invariant
            i <= w@.len(),
            strs(v@) == strs(old(v)@) + strs(w@).take(i as int),
        decreases w.len() - i,
    {
        let ghost before = strs(v@);
        v.push(lit(w[i].as_str()));
        proof {
            assert(strs(v@) =~= before.push(w@[i as int]@));
            assert(strs(w@).take(i + 1) =~= strs(w@).take(i as int).push(w@[i as int]@));
        }
        i = i + 1;
    }
    proof {
        assert(strs(w@).take(w@.len() as int) =~= strs(w@));
    }
}

/// The requests for a value that mentions `Modifier`.
fn modifier_reqs(e: &str) -> (r: Vec<String>)
    ensures
        strs(r@) == modifier_requests(e@),
{
    let mut pr: Vec<String> = Vec::new();
    pr.push(lit("androidx.compose.ui.Modifier"));
    proof {
        assert(strs(pr@) =~= seq!["androidx.compose.ui.Modifier"@]);
    }
    let b1 = str_contains(e, "fillMaxSize");
    req_if(&mut pr, b1, "androidx.compose.foundation.layout.fillMaxSize");
    let b2 = str_contains(e, "fillMaxWidth");
    req_if(&mut pr, b2, "androidx.compose.foundation.layout.fillMaxWidth");
    let b3 = str_contains(e, "fillMaxHeight");
    req_if(&mut pr, b3, "androidx.compose.foundation.layout.fillMaxHeight");
    let b4 = str_contains(e, ".padding(");
    req2_if(&mut pr, b4, "androidx.compose.foundation.layout.padding", "androidx.compose.ui.unit.dp");
    let b5 = str_contains(e, ".size(");
    req2_if(&mut pr, b5, "androidx.compose.foundation.layout.size", "androidx.compose.ui.unit.dp");
    let b6 = str_contains(e, ".height(");
    req2_if(&mut pr, b6, "androidx.compose.foundation.layout.height", "androidx.compose.ui.unit.dp");
    let b7 = str_contains(e, ".width(");
    req2_if(&mut pr, b7, "androidx.compose.foundation.layout.width", "androidx.compose.ui.unit.dp");
    let b8 = str_contains(e, ".background(");
    req2_if(
        &mut pr,
        b8,
        "androidx.compose.foundation.background",
        "androidx.compose.ui.graphics.Color",
    );
    pr
}

/// The requests for what prop value `e` mentions.
fn value_reqs(e: &str) -> (r: (Vec<String>, Vec<String>))
    ensures
        strs(r.0@) == value_requests(e@).0,
        strs(r.1@) == value_requests(e@).1,
{
    let mut pr: Vec<String> = Vec::new();
    let b1 = str_contains(e, "Icons.Default.");
    req2_if(
        &mut pr,
        b1,
        "androidx.compose.material.icons.Icons",
        "androidx.compose.material.icons.filled.*",
    );
    proof {
        assert(strs(pr@) =~= only_if(
            b1,
            seq![
                "androidx.compose.material.icons.Icons"@,
                "androidx.compose.material.icons.filled.*"@,
            ],
        ));
    }
    let b2 = str_contains(e, "Icons.Filled.");
    req2_if(
        &mut pr,
        b2,
        "androidx.compose.material.icons.Icons",
        "androidx.compose.material.icons.filled.*",
    );
    let b3 = str_contains(e, "Icons.Outlined.");
    req2_if(
        &mut pr,
        b3,
        "androidx.compose.material.icons.Icons",
        "androidx.compose.material.icons.outlined.*",
    );
    let b4 = str_contains(e, "TextDecoration");
    req_if(&mut pr, b4, "androidx.compose.ui.text.style.TextDecoration");
    let b5 = str_contains(e, "Modifier");
    let m = if b5 {
        modifier_reqs(e)
    } else {
        Vec::new()
    };
    proof {
        assert(strs(m@) =~= only_if(b5, modifier_requests(e@)));
    }
    append_reqs(&mut pr, &m);
    let b6 = str_contains(e, "Arrangement.");
    req_if(&mut pr, b6, "androidx.compose.foundation.layout.Arrangement");
    let b7 = str_contains(e, "Alignment.");
    req_if(&mut pr, b7, "androidx.compose.ui.Alignment");
    let b8 = str_contains(e, "TextAlign.");
    req_if(&mut pr, b8, "androidx.compose.ui.text.style.TextAlign");
    let b9 = str_contains(e, "FontWeight.");
    req_if(&mut pr, b9, "androidx.compose.ui.text.font.FontWeight");
    let b10 = str_contains(e, "Color.");
    req_if(&mut pr, b10, "androidx.compose.ui.graphics.Color");
    let b11 = str_contains(e, "clickable");
    req_if(&mut pr, b11, "androidx.compose.foundation.clickable");
    let b12 = str_contains(e, "R.string.");
    req_if(&mut pr, b12, "androidx.compose.ui.res.stringResource");
    let mut cr: Vec<String> = Vec::new();
    req_if(&mut cr, b12, "com.example.app.R");
    proof {
        assert(strs(cr@) =~= only_if(b12, seq!["com.example.app.R"@]));
    }
    (pr, cr)
}

/// No requests.
fn no_reqs() -> (r: Vec<String>)
    ensures
        strs(r@) == Seq::<Seq<char>>::empty(),
{
    let r: Vec<String> = Vec::new();
    proof {
        assert(strs(r@) =~= Seq::<Seq<char>>::empty());
    }
    r
}

/// The requests `a`.
fn reqs1(a: &str) -> (r: Vec<String>)
    ensures
        strs(r@) == seq![a@],
{
    let mut r: Vec<String> = Vec::new();
    r.push(lit(a));
    proof {
        assert(strs(r@) =~= seq![a@]);
    }
    r
}

/// The requests `a`, `b`.
fn reqs2(a: &str, b: &str) -> (r: Vec<String>)
    ensures
        strs(r@) == seq![a@, b@],
{
    let mut r: Vec<String> = Vec::new();
    r.push(lit(a));
    r.push(lit(b));
    proof {
        assert(strs(r@) =~= seq![a@, b@]);
    }
    r
}

/// The requests `a`, `b`, `c`.
fn reqs3(a: &str, b: &str, c: &str) -> (r: Vec<String>)
    ensures
        strs(r@) == seq![a@, b@, c@],
{
    let mut r: Vec<String> = Vec::new();
    req3(&mut r, a, b, c);
    proof {
        assert(strs(r@) =~= seq![a@, b@, c@]);
    }
    r
}

/// The requests for a padding or margin shorthand prop named `p`.
fn shorthand_reqs(p: &str) -> (r: Vec<String>)
    ensures
        strs(r@) == shorthand_requests(p@),
{
    let short = str_eq(p, "p") || str_eq(p, "px") || str_eq(p, "py") || str_eq(p, "pt") || str_eq(
        p,
        "pb",
    ) || str_eq(p, "pl") || str_eq(p, "pr") || str_eq(p, "m") || str_eq(p, "mx") || str_eq(
        p,
        "my",
    ) || str_eq(p, "mt") || str_eq(p, "mb") || str_eq(p, "ml") || str_eq(p, "mr");
    if !short {
        return no_reqs();
    }
    let mut r = reqs1("androidx.compose.ui.Modifier");
    let starts_p = crate::text::str_starts_with(p, "p");
    req_if(&mut r, starts_p, "androidx.compose.foundation.layout.padding");
    req_if(&mut r, true, "androidx.compose.ui.unit.dp");
    r
}

/// `s` without its leading and trailing double quotes.
pub fn strip_quotes_of(s: &str) -> (r: String)
    ensures
        r@ == strip_quotes(s@),
{
    let v = str_to_chars(s);
    let mut a: usize = 0;
    while a < v.len() && v[a] == '"'
        invariant
            a <= v@.len(),
            v@ == s@,
            unquoted_start(v@, a as int) == unquoted_start(v@, 0),
        decreases v.len() - a,
    {
        a = a + 1;
    }
    let mut b: usize = v.len();
    while b > a && v[b - 1] == '"'
        invariant
            a <= b <= v@.len(),
            v@ == s@,
            unquoted_end(v@, a as int, b as int) == unquoted_end(v@, a as int, v@.len() as int),
        decreases b,
    {
        b = b - 1;
    }
    crate::text::string_from_range(v.as_slice(), a, b)
}

/// The expression of a prop value (empty for a markup value).
pub fn get_prop_expr(v: &PropValue) -> (r: String)
    ensures
        r@ == prop_expr(*v),
{
    match v {
        PropValue::Expression(e) => lit(e.as_str()),
        PropValue::Markup(_) => String::new(),
    }
}

/// The requests for prop `p` of component `n` with value `e`, by the
/// component's transformation of that prop.
fn pair_reqs(n: &str, p: &str, e: &str, has_modifier: bool) -> (r: (Vec<String>, Vec<String>))
    requires
        pair_slice_ok(n@, p@, e@),
    ensures
        strs(r.0@) == pair_requests(n@, p@, e@, has_modifier).0,
        strs(r.1@) == pair_requests(n@, p@, e@, has_modifier).1,
{
    let ev = str_to_chars(e);
    let quoted = ev.len() > 0 && ev[0] == '"';
    let hex = ev.len() >= 3 && ev[1] == '#';
    let modifier = "androidx.compose.ui.Modifier";
    let dp = "androidx.compose.ui.unit.dp";
    let padding = "androidx.compose.foundation.layout.padding";
    let arrangement = "androidx.compose.foundation.layout.Arrangement";
    let color = "androidx.compose.ui.graphics.Color";
    let theme = "androidx.compose.material3.MaterialTheme";
    let card_defaults = "androidx.compose.material3.CardDefaults";
    let size = "androidx.compose.foundation.layout.size";
    let clickable = "androidx.compose.foundation.clickable";
    let is_text = str_eq(n, "Text");
    let is_card = str_eq(n, "Card");
    let is_row = str_eq(n, "Row");
    let is_column = str_eq(n, "Column");
    let is_box = str_eq(n, "Box");
    let is_async = str_eq(n, "AsyncImage");
    let is_lazy = str_eq(n, "LazyColumn");
    if str_eq(n, "Spacer") && str_eq(p, "h") {
        (reqs3(modifier, "androidx.compose.foundation.layout.height", dp), no_reqs())
    } else if str_eq(n, "Spacer") && str_eq(p, "w") {
        (reqs3(modifier, "androidx.compose.foundation.layout.width", dp), no_reqs())
    } else if is_column && str_eq(p, "spacing") {
        (reqs2(arrangement, dp), no_reqs())
    } else if is_column && str_eq(p, "padding") {
        (reqs3(modifier, padding, dp), no_reqs())
    } else if (is_column || is_row) && str_eq(p, "backgroundColor") {
        (reqs3(modifier, "androidx.compose.foundation.background", color), no_reqs())
    } else if is_row && str_eq(p, "spacing") {
        (reqs2(arrangement, dp), no_reqs())
    } else if is_row && str_eq(p, "padding") {
        (reqs3(modifier, padding, dp), no_reqs())
    } else if is_text && str_eq(p, "fontSize") {
        (reqs1("androidx.compose.ui.unit.sp"), no_reqs())
    } else if is_text && str_eq(p, "fontWeight") {
        (reqs1("androidx.compose.ui.text.font.FontWeight"), no_reqs())
    } else if is_text && str_eq(p, "fontFamily") {
        (reqs1("androidx.compose.ui.text.font.FontFamily"), no_reqs())
    } else if is_text && str_eq(p, "color") && quoted {
        if hex {
            (reqs1(color), no_reqs())
        } else {
            (reqs1(theme), no_reqs())
        }
    } else if is_card && str_eq(p, "backgroundColor") {
        let mut r = reqs2(card_defaults, theme);
        req_if(&mut r, quoted && hex, color);
        (r, no_reqs())
    } else if is_card && str_eq(p, "elevation") {
        (reqs2(card_defaults, dp), no_reqs())
    } else if is_box && (str_eq(p, "width") || str_eq(p, "height")) {
        (reqs3(modifier, size, dp), no_reqs())
    } else if is_box && str_eq(p, "backgroundColor") {
        (reqs2("androidx.compose.foundation.background", color), no_reqs())
    } else if is_box && str_eq(p, "alignment") {
        (reqs1("androidx.compose.ui.Alignment"), no_reqs())
    } else if is_async && (str_eq(p, "url") || str_eq(p, "width") || str_eq(p, "height")) {
        if has_modifier {
            (no_reqs(), no_reqs())
        } else {
            (reqs3(modifier, size, dp), no_reqs())
        }
    } else if is_async && (str_eq(p, "placeholder") || str_eq(p, "error") || str_eq(
        p,
        "crossfade",
    )) {
        if has_modifier {
            (no_reqs(), no_reqs())
        } else {
            let mut r = reqs3(modifier, "androidx.compose.ui.layout.ContentScale", dp);
            req3(
                &mut r,
                "coil.request.ImageRequest",
                "androidx.compose.ui.platform.LocalContext",
                "coil.compose.rememberAsyncImagePainter",
            );
            (r, no_reqs())
        }
    } else if is_lazy && str_eq(p, "spacing") {
        (reqs2(arrangement, dp), no_reqs())
    } else if is_lazy && str_eq(p, "padding") {
        (reqs2("androidx.compose.foundation.layout.PaddingValues", dp), no_reqs())
    } else if (is_text || is_card) && str_eq(p, "padding") {
        (reqs3(modifier, padding, dp), no_reqs())
    } else if (is_text || is_card || str_eq(n, "Button")) && str_eq(p, "fillMaxWidth") {
        (reqs2(modifier, "androidx.compose.foundation.layout.fillMaxWidth"), no_reqs())
    } else if (is_text || is_card) && str_eq(p, "modifier") && str_contains(e, "clickable") {
        (reqs2(modifier, clickable), no_reqs())
    } else if is_text && str_eq(p, "onClick") {
        (reqs2(modifier, clickable), no_reqs())
    } else if (str_eq(n, "TextField") || str_eq(n, "OutlinedTextField")) && (str_eq(p, "label")
        || str_eq(p, "placeholder")) {
        (no_reqs(), reqs1("androidx.compose.material3.Text"))
    } else if str_eq(n, "TextField") && str_eq(p, "type") && str_eq(
        strip_quotes_of(e).as_str(),
        "password",
    ) {
        (reqs1("androidx.compose.ui.text.input.PasswordVisualTransformation"), no_reqs())
    } else {
        (no_reqs(), no_reqs())
    }
}

/// Whether one of `ps` is named `name`.
pub(crate) fn has_prop_named(ps: &Vec<ComponentProp>, name: &str) -> (r: bool)
    ensures
        r == has_prop(ps@, name@),
{
    let mut i: usize = 0;
    while i < ps.len()
        invariant
            i <= ps@.len(),
            forall|j: int| 0 <= j < i ==> ps@[j].name@ != name@,
        decreases ps.len() - i,
    {
        if str_eq(ps[i].name.as_str(), name) {
            return true;
        }
        i = i + 1;
    }
    false
}

/// Whether `p` names a size or fill prop.
fn size_prop(p: &str) -> (r: bool)
    ensures
        r == is_size_prop(p@),
{
    str_eq(p, "width") || str_eq(p, "height") || str_eq(p, "fillMaxWidth") || str_eq(
        p,
        "fillMaxHeight",
    ) || str_eq(p, "fillMaxSize")
}

/// Whether one of `ps` is a size or fill prop.
fn has_size_prop_in(ps: &Vec<ComponentProp>) -> (r: bool)
    ensures
        r == has_size_prop(ps@),
{
    let mut i: usize = 0;
    while i < ps.len()
        invariant
            i <= ps@.len(),
            forall|j: int| 0 <= j < i ==> !is_size_prop(#[trigger] ps@[j].name@),
        decreases ps.len() - i,
    {
        if size_prop(ps[i].name.as_str()) {
            return true;
        }
        i = i + 1;
    }
    false
}

/// Whether one of `ms` is a `@for` loop.
fn has_for_loop_in(ms: &Vec<Markup>) -> (r: bool)
    ensures
        r == has_for_loop(ms@),
{
    let mut i: usize = 0;
    while i < ms.len()
        invariant
            i <= ms@.len(),
            forall|j: int| 0 <= j < i ==> !(#[trigger] ms@[j] is ForLoop),
        decreases ms.len() - i,
    {
        if let Markup::ForLoop(_) = &ms[i] {
            return true;
        }
        i = i + 1;
    }
    false
}

/// The requests for one size or fill prop of an `Image`.
fn image_prop_req(prop: &ComponentProp) -> (r: Vec<String>)
    ensures
        strs(r@) == image_prop_request(*prop),
{
    let e = get_prop_expr(&prop.value);
    let t = trim_str(e.as_str());
    let full = str_eq(strip_quotes_of(t.as_str()).as_str(), "100%");
    let n = prop.name.as_str();
    if str_eq(n, "fillMaxWidth") {
        reqs1("androidx.compose.foundation.layout.fillMaxWidth")
    } else if str_eq(n, "fillMaxHeight") {
        reqs1("androidx.compose.foundation.layout.fillMaxHeight")
    } else if str_eq(n, "fillMaxSize") {
        reqs1("androidx.compose.foundation.layout.fillMaxSize")
    } else if str_eq(n, "width") && full {
        reqs1("androidx.compose.foundation.layout.fillMaxWidth")
    } else if str_eq(n, "height") && full {
        reqs1("androidx.compose.foundation.layout.fillMaxHeight")
    } else if str_eq(n, "width") || str_eq(n, "height") {
        reqs2("androidx.compose.foundation.layout.width", "androidx.compose.foundation.layout.height")
    } else {
        no_reqs()
    }
}

/// The requests for the size and fill props of an `Image`.
fn image_props_reqs(ps: &Vec<ComponentProp>) -> (r: Vec<String>)
    ensures
        strs(r@) == image_props_requests(ps@),
{
    let mut r: Vec<String> = no_reqs();
    let mut i: usize = 0;
    while i < ps.len()
        invariant
            i <= ps@.len(),
            strs(r@) == image_props_requests(ps@.take(i as int)),
        decreases ps.len() - i,
    {
        let one = image_prop_req(&ps[i]);
        append_reqs(&mut r, &one);
        proof {
            assert(ps@.take(i + 1).drop_last() =~= ps@.take(i as int));
            assert(ps@.take(i + 1).last() == ps@[i as int]);
        }
        i = i + 1;
    }
    proof {
        assert(ps@.take(ps@.len() as int) =~= ps@);
    }
    r
}

/// Whether `n` is imported from Material 3 under its own name.
fn material3_component(n: &str) -> (r: bool)
    ensures
        r == is_material3_component(n@),
{
    str_eq(n, "Text") || str_eq(n, "Card") || str_eq(n, "CircularProgressIndicator") || str_eq(
        n,
        "AlertDialog",
    ) || str_eq(n, "Tab") || str_eq(n, "TabRow") || str_eq(n, "Divider") || str_eq(
        n,
        "HorizontalDivider",
    ) || str_eq(n, "OutlinedTextField") || str_eq(n, "Checkbox") || str_eq(n, "FilterChip")
        || str_eq(n, "SnackbarHost") || str_eq(n, "TextField") || str_eq(n, "Switch") || str_eq(
        n,
        "Scaffold",
    ) || str_eq(n, "TopAppBar") || str_eq(n, "Icon") || str_eq(n, "IconButton")
}

/// `prefix` followed by `name`, as the only request.
fn qualified(prefix: &str, name: &String) -> (r: Vec<String>)
    ensures
        strs(r@) == seq![prefix@ + name@],
{
    let mut s = lit(prefix);
    crate::text::push_string(&mut s, name);
    let mut r: Vec<String> = Vec::new();
    r.push(s);
    proof {
        assert(strs(r@) =~= seq![prefix@ + name@]);
    }
    r
}

/// The requests for component `c` itself.
fn name_reqs(c: &Component) -> (r: (Vec<String>, Vec<String>))
    ensures
        strs(r.0@) == name_requests(*c).0,
        strs(r.1@) == name_requests(*c).1,
{
    let n = c.name.as_str();
    let modifier = "androidx.compose.ui.Modifier";
    let dp = "androidx.compose.ui.unit.dp";
    let content_scale = "androidx.compose.ui.layout.ContentScale";
    if material3_component(n) {
        (no_reqs(), qualified("androidx.compose.material3.", &c.name))
    } else if str_eq(n, "Column") || str_eq(n, "Row") || str_eq(n, "Box") {
        (no_reqs(), qualified("androidx.compose.foundation.layout.", &c.name))
    } else if str_eq(n, "DropdownMenu") {
        let mut r = reqs2(
            "androidx.compose.material3.ExposedDropdownMenuBox",
            "androidx.compose.material3.DropdownMenuItem",
        );
        req2_if(&mut r, true, "androidx.compose.material3.TextField", "androidx.compose.material3.Text");
        proof {
            assert(strs(r@) =~= seq![
                "androidx.compose.material3.ExposedDropdownMenuBox"@,
                "androidx.compose.material3.DropdownMenuItem"@,
                "androidx.compose.material3.TextField"@,
                "androidx.compose.material3.Text"@,
            ]);
        }
        (no_reqs(), r)
    } else if str_eq(n, "Button") {
        let mut r = reqs1("androidx.compose.material3.Button");
        let has_text = has_prop_named(&c.props, "text");
        req_if(&mut r, has_text, "androidx.compose.material3.Text");
        (no_reqs(), r)
    } else if str_eq(n, "LazyColumn") {
        let mut pr = no_reqs();
        let has_loop = has_for_loop_in(&c.children);
        req_if(&mut pr, has_loop, "androidx.compose.foundation.lazy.items");
        proof {
            assert(strs(pr@) =~= only_if(has_loop, seq!["androidx.compose.foundation.lazy.items"@]));
        }
        (pr, reqs1("androidx.compose.foundation.lazy.LazyColumn"))
    } else if str_eq(n, "AsyncImage") {
        let mut pr = no_reqs();
        let has_scale = has_prop_named(&c.props, "contentScale");
        req_if(&mut pr, has_scale, content_scale);
        proof {
            assert(strs(pr@) =~= only_if(has_scale, seq![content_scale@]));
        }
        (pr, reqs1("coil.compose.AsyncImage"))
    } else if str_eq(n, "Image") {
        let mut pr = reqs1(content_scale);
        let sized = has_size_prop_in(&c.props);
        req2_if(&mut pr, sized, modifier, dp);
        let sizes = image_props_reqs(&c.props);
        append_reqs(&mut pr, &sizes);
        (pr, reqs1("coil.compose.AsyncImage"))
    } else if str_eq(n, "Spacer") {
        let mut pr = reqs2(modifier, dp);
        let no_size = !(has_prop_named(&c.props, "h") || has_prop_named(&c.props, "w"));
        req_if(&mut pr, no_size, "androidx.compose.foundation.layout.height");
        (pr, reqs1("androidx.compose.foundation.layout.Spacer"))
    } else {
        (no_reqs(), no_reqs())
    }
}

/// The requests for prop `prop` of component `n`, before its markup value.
fn prop_rule_reqs(n: &str, has_modifier: bool, prop: &ComponentProp) -> (r: (Vec<String>, Vec<String>))
    requires
        pair_slice_ok(n@, prop.name@, prop_expr(prop.value)),
    ensures
        strs(r.0@) == prop_rule_requests(n@, has_modifier, prop.name@, prop_expr(prop.value)).0,
        strs(r.1@) == prop_rule_requests(n@, has_modifier, prop.name@, prop_expr(prop.value)).1,
{
    let e = get_prop_expr(&prop.value);
    let (mut pr, mut cr) = value_reqs(e.as_str());
    let short = shorthand_reqs(prop.name.as_str());
    append_reqs(&mut pr, &short);
    let (pp, pc) = pair_reqs(n, prop.name.as_str(), e.as_str(), has_modifier);
    append_reqs(&mut pr, &pp);
    append_reqs(&mut cr, &pc);
    proof {
        assert(strs(cr@) =~= value_requests(e@).1 + Seq::<Seq<char>>::empty() + pair_requests(
            n@,
            prop.name@,
            e@,
            has_modifier,
        ).1);
    }
    (pr, cr)
}

/// `list` with each of `reqs` added unless already there.
fn add_all(list: &mut Vec<String>, reqs: &Vec<String>)
    ensures
        strs(final(list)@) == add_imports(strs(old(list)@), strs(reqs@)),
{
    let ghost v0 = strs(list@);
    let mut i: usize = 0;
    while i < reqs.len()
        invariant
            i <= reqs@.len(),
            v0 == strs(old(list)@),
            strs(list@) == add_imports(v0, strs(reqs@).take(i as int)),
        decreases reqs.len() - i,
    {
        add_import_if_missing(list, reqs[i].as_str());
        proof {
            assert(strs(reqs@).take(i + 1).drop_last() =~= strs(reqs@).take(i as int));
            assert(strs(reqs@).take(i + 1).last() == reqs@[i as int]@);
        }
        i = i + 1;
    }
    proof {
        assert(strs(reqs@).take(reqs@.len() as int) =~= strs(reqs@));
    }
}

// ===================== Walking the markup =====================

proof fn lemma_markups_safe(ms: Seq<Markup>, i: int)
    requires
        markups_safe(ms),
        0 <= i < ms.len(),
    ensures
        markup_safe(ms[i]),
    decreases ms.len(),
{
    if i < ms.len() - 1 {
        lemma_markups_safe(ms.drop_last(), i);
        assert(ms.drop_last()[i] == ms[i]);
    }
}

proof fn lemma_props_safe(n: Seq<char>, ps: Seq<ComponentProp>, i: int)
    requires
        props_safe(n, ps),
        0 <= i < ps.len(),
    ensures
        pair_slice_ok(n, ps[i].name@, prop_expr(ps[i].value)),
        match ps[i].value {
            PropValue::Markup(b) => markup_safe(*b),
            PropValue::Expression(_) => true,
        },
    decreases ps.len(),
{
    if i < ps.len() - 1 {
        lemma_props_safe(n, ps.drop_last(), i);
        assert(ps.drop_last()[i] == ps[i]);
    }
}

proof fn lemma_else_ifs_safe(bs: Seq<ElseIfBranch>, i: int)
    requires
        else_ifs_safe(bs),
        0 <= i < bs.len(),
    ensures
        markups_safe(bs[i].body@),
    decreases bs.len(),
{
    if i < bs.len() - 1 {
        lemma_else_ifs_safe(bs.drop_last(), i);
        assert(bs.drop_last()[i] == bs[i]);
    }
}

proof fn lemma_whens_safe(bs: Seq<WhenBranch>, i: int)
    requires
        whens_safe(bs),
        0 <= i < bs.len(),
    ensures
        markup_safe(bs[i].body),
    decreases bs.len(),
{
    if i < bs.len() - 1 {
        lemma_whens_safe(bs.drop_last(), i);
        assert(bs.drop_last()[i] == bs[i]);
    }
}

/// Both lists have had the requests `a` added, then `b`, as if `cat(a, b)`.
proof fn lemma_added_cat(
    v: (Seq<Seq<char>>, Seq<Seq<char>>),
    a: (Seq<Seq<char>>, Seq<Seq<char>>),
    b: (Seq<Seq<char>>, Seq<Seq<char>>),
)
    ensures
        add_imports(add_imports(v.0, a.0), b.0) == add_imports(v.0, cat(a, b).0),
        add_imports(add_imports(v.1, a.1), b.1) == add_imports(v.1, cat(a, b).1),
{
    lemma_add_imports_append(v.0, a.0, b.0);
    lemma_add_imports_append(v.1, a.1, b.1);
}

/// The view of an optional component name.
pub open spec fn parent_view(p: Option<&str>) -> Option<Seq<char>> {
    match p {
        Some(s) => Some(s@),
        None => None,
    }
}

/// Adds to `prop_imports` and `component_imports` the imports that the
/// Compose code of `markup` needs, in order of first need and without
/// repeats; `parent_component` is the component that encloses `markup`.
pub fn collect_imports_with_parent(
    markup: &Markup,
    prop_imports: &mut Vec<String>,
    component_imports: &mut Vec<String>,
    parent_component: Option<&str>,
)
    requires
        markup_safe(*markup),
    ensures
        strs(final(prop_imports)@) == add_imports(
            strs(old(prop_imports)@),
            markup_requests(*markup, parent_view(parent_component)).0,
        ),
        strs(final(component_imports)@) == add_imports(
            strs(old(component_imports)@),
            markup_requests(*markup, parent_view(parent_component)).1,
        ),
    decreases *markup, 1nat,
{
    let ghost p0 = strs(prop_imports@);
    let ghost c0 = strs(component_imports@);
    match markup {
        Markup::Component(comp) => collect_component(comp, prop_imports, component_imports),
        Markup::Sequence(items) => collect_items(items, prop_imports, component_imports, None),
        Markup::IfElse(if_block) => collect_if_else(if_block, prop_imports, component_imports),
        Markup::ForLoop(for_loop) => collect_for_loop(
            for_loop,
            prop_imports,
            component_imports,
            parent_component,
        ),
        Markup::When(when_block) => collect_when(when_block, prop_imports, component_imports),
        Markup::Interpolation(expr) => {
            if str_contains(expr.as_str(), "R.string.") {
                add_import_if_missing(prop_imports, "androidx.compose.ui.res.stringResource");
                add_import_if_missing(component_imports, "com.example.app.R");
                proof {
                    crate::view::lemma_add_one(p0, "androidx.compose.ui.res.stringResource"@);
                    crate::view::lemma_add_one(c0, "com.example.app.R"@);
                }
            }
        },
        Markup::Text(_) => {
            let in_button = match parent_component {
                Some(p) => str_eq(p, "Button"),
                None => false,
            };
            if in_button {
                add_import_if_missing(component_imports, "androidx.compose.material3.Text");
                proof {
                    crate::view::lemma_add_one(c0, "androidx.compose.material3.Text"@);
                }
            }
        },
    }
}

/// Adds the imports of markup `markup` at the top level.
pub fn collect_imports_recursive(
    markup: &Markup,
    prop_imports: &mut Vec<String>,
    component_imports: &mut Vec<String>,
)
    requires
        markup_safe(*markup),
    ensures
        strs(final(prop_imports)@) == add_imports(
            strs(old(prop_imports)@),
            markup_requests(*markup, None).0,
        ),
        strs(final(component_imports)@) == add_imports(
            strs(old(component_imports)@),
            markup_requests(*markup, None).1,
        ),
{
    collect_imports_with_parent(markup, prop_imports, component_imports, None);
}

/// Adds the imports of the items of `items`, in order.
fn collect_items(
    items: &Vec<Markup>,
    prop_imports: &mut Vec<String>,
    component_imports: &mut Vec<String>,
    parent_component: Option<&str>,
)
    requires
        markups_safe(items@),
    ensures
        strs(final(prop_imports)@) == add_imports(
            strs(old(prop_imports)@),
            markups_requests(items@, parent_view(parent_component)).0,
        ),
        strs(final(component_imports)@) == add_imports(
            strs(old(component_imports)@),
            markups_requests(items@, parent_view(parent_component)).1,
        ),
    decreases items@, 0nat,
{
    let ghost pv = parent_view(parent_component);
    let ghost v0 = (strs(prop_imports@), strs(component_imports@));
    let mut i: usize = 0;
    proof {
        assert(items@.take(0) =~= Seq::<Markup>::empty());
    }
    while i < items.len()
        invariant
            i <= items@.len(),
            markups_safe(items@),
            pv == parent_view(parent_component),
            v0 == (strs(old(prop_imports)@), strs(old(component_imports)@)),
            strs(prop_imports@) == add_imports(v0.0, markups_requests(items@.take(i as int), pv).0),
            strs(component_imports@) == add_imports(
                v0.1,
                markups_requests(items@.take(i as int), pv).1,
            ),
        decreases items.len() - i,
    {
        proof {
            lemma_markups_safe(items@, i as int);
        }
        collect_imports_with_parent(&items[i], prop_imports, component_imports, parent_component);
        proof {
            assert(items@.take(i + 1).drop_last() =~= items@.take(i as int));
            assert(items@.take(i + 1).last() == items@[i as int]);
            lemma_added_cat(
                v0,
                markups_requests(items@.take(i as int), pv),
                markup_requests(items@[i as int], pv),
            );
        }
        i = i + 1;
    }
    proof {
        assert(items@.take(items@.len() as int) =~= items@);
    }
}

/// Adds the imports of component `comp`: its props, itself, then its children.
fn collect_component(
    comp: &Component,
    prop_imports: &mut Vec<String>,
    component_imports: &mut Vec<String>,
)
    requires
        component_safe(*comp),
    ensures
        strs(final(prop_imports)@) == add_imports(
            strs(old(prop_imports)@),
            component_requests(*comp).0,
        ),
        strs(final(component_imports)@) == add_imports(
            strs(old(component_imports)@),
            component_requests(*comp).1,
        ),
    decreases *comp, 0nat,
{
    let ghost n = comp.name@;
    let ghost v0 = (strs(prop_imports@), strs(component_imports@));
    let has_modifier = has_prop_named(&comp.props, "modifier");
    let mut i: usize = 0;
    proof {
        assert(comp.props@.take(0) =~= Seq::<ComponentProp>::empty());
    }
    while i < comp.props.len()
        invariant
            i <= comp.props@.len(),
            n == comp.name@,
            props_safe(n, comp.props@),
            has_modifier == has_prop(comp.props@, "modifier"@),
            v0 == (strs(old(prop_imports)@), strs(old(component_imports)@)),
            strs(prop_imports@) == add_imports(
                v0.0,
                props_requests(n, has_modifier, comp.props@.take(i as int)).0,
            ),
            strs(component_imports@) == add_imports(
                v0.1,
                props_requests(n, has_modifier, comp.props@.take(i as int)).1,
            ),
        decreases comp.props.len() - i,
    {
        proof {
            lemma_props_safe(n, comp.props@, i as int);
        }
        let prop = &comp.props[i];
        let ghost before = props_requests(n, has_modifier, comp.props@.take(i as int));
        let ghost rule = prop_rule_requests(n, has_modifier, prop.name@, prop_expr(prop.value));
        let (pr, cr) = prop_rule_reqs(comp.name.as_str(), has_modifier, prop);
        add_all(prop_imports, &pr);
        add_all(component_imports, &cr);
        proof {
            lemma_added_cat(v0, before, rule);
        }
        let ghost mid = (strs(prop_imports@), strs(component_imports@));
        let ghost nested = match &prop.value {
            PropValue::Markup(b) => markup_requests(**b, None),
            PropValue::Expression(_) => nothing(),
        };
        match &prop.value {
            PropValue::Markup(m) => {
                collect_imports_with_parent(&**m, prop_imports, component_imports, None);
            },
            PropValue::Expression(_) => {},
        }
        proof {
            lemma_added_cat(v0, cat(before, rule), nested);
            assert(comp.props@.take(i + 1).drop_last() =~= comp.props@.take(i as int));
            assert(comp.props@.take(i + 1).last() == comp.props@[i as int]);
        }
        i = i + 1;
    }
    proof {
        assert(comp.props@.take(comp.props@.len() as int) =~= comp.props@);
    }
    let ghost pq = props_requests(n, has_modifier, comp.props@);
    let (pr, cr) = name_reqs(comp);
    add_all(prop_imports, &pr);
    add_all(component_imports, &cr);
    proof {
        lemma_added_cat(v0, pq, name_requests(*comp));
    }
    collect_items(&comp.children, prop_imports, component_imports, Some(comp.name.as_str()));
    proof {
        lemma_added_cat(
            v0,
            cat(pq, name_requests(*comp)),
            markups_requests(comp.children@, Some(n)),
        );
    }
}

/// Adds the imports of an `@if` block.
fn collect_if_else(
    if_block: &IfElseBlock,
    prop_imports: &mut Vec<String>,
    component_imports: &mut Vec<String>,
)
    requires
        if_else_safe(*if_block),
    ensures
        strs(final(prop_imports)@) == add_imports(
            strs(old(prop_imports)@),
            if_else_requests(*if_block).0,
        ),
        strs(final(component_imports)@) == add_imports(
            strs(old(component_imports)@),
            if_else_requests(*if_block).1,
        ),
    decreases *if_block, 0nat,
{
    let ghost v0 = (strs(prop_imports@), strs(component_imports@));
    collect_items(&if_block.then_branch, prop_imports, component_imports, None);
    let ghost t = markups_requests(if_block.then_branch@, None);
    let ghost bs = if_block.else_ifs@;
    let mut k: usize = 0;
    proof {
        assert(bs.take(0) =~= Seq::<ElseIfBranch>::empty());
        lemma_added_cat(v0, t, nothing());
        assert(cat(t, nothing()) =~= cat(t, else_ifs_requests(bs.take(0))));
    }
    while k < if_block.else_ifs.len()
        invariant
            k <= bs.len(),
            bs == if_block.else_ifs@,
            else_ifs_safe(bs),
            v0 == (strs(old(prop_imports)@), strs(old(component_imports)@)),
            strs(prop_imports@) == add_imports(v0.0, cat(t, else_ifs_requests(bs.take(k as int))).0),
            strs(component_imports@) == add_imports(
                v0.1,
                cat(t, else_ifs_requests(bs.take(k as int))).1,
            ),
        decreases bs.len() - k,
    {
        proof {
            lemma_else_ifs_safe(bs, k as int);
        }
        collect_items(&if_block.else_ifs[k].body, prop_imports, component_imports, None);
        proof {
            let a = else_ifs_requests(bs.take(k as int));
            let b = markups_requests(bs[k as int].body@, None);
            lemma_added_cat(v0, cat(t, a), b);
            assert(bs.take(k + 1).drop_last() =~= bs.take(k as int));
            assert(bs.take(k + 1).last() == bs[k as int]);
            assert(cat(cat(t, a), b) =~= cat(t, cat(a, b)));
        }
        k = k + 1;
    }
    proof {
        assert(bs.take(bs.len() as int) =~= bs);
    }
    let ghost e = cat(t, else_ifs_requests(bs));
    match &if_block.else_branch {
        Some(items) => {
            collect_items(items, prop_imports, component_imports, None);
            proof {
                lemma_added_cat(v0, e, markups_requests(items@, None));
            }
        },
        None => {
            proof {
                lemma_added_cat(v0, e, nothing());
                assert(cat(e, nothing()) =~= e);
            }
        },
    }
}

/// Adds the imports of a `@for` loop inside `parent_component`.
fn collect_for_loop(
    for_loop: &ForLoopBlock,
    prop_imports: &mut Vec<String>,
    component_imports: &mut Vec<String>,
    parent_component: Option<&str>,
)
    requires
        for_loop_safe(*for_loop),
    ensures
        strs(final(prop_imports)@) == add_imports(
            strs(old(prop_imports)@),
            for_loop_requests(*for_loop, parent_view(parent_component)).0,
        ),
        strs(final(component_imports)@) == add_imports(
            strs(old(component_imports)@),
            for_loop_requests(*for_loop, parent_view(parent_component)).1,
        ),
    decreases *for_loop, 0nat,
{
    let ghost pv = parent_view(parent_component);
    let ghost v0 = (strs(prop_imports@), strs(component_imports@));
    let in_lazy = match parent_component {
        Some(p) => str_eq(p, "LazyColumn"),
        None => false,
    };
    let keyed = for_loop.key_expr.is_some() && !in_lazy;
    let mut pr = no_reqs();
    req_if(&mut pr, keyed, "androidx.compose.runtime.key");
    let ghost k = props_only(only_if(keyed, seq!["androidx.compose.runtime.key"@]));
    proof {
        assert(strs(pr@) =~= k.0);
    }
    add_all(prop_imports, &pr);
    proof {
        assert(add_imports(v0.1, k.1) == v0.1);
    }
    collect_items(&for_loop.body, prop_imports, component_imports, parent_component);
    proof {
        lemma_added_cat(v0, k, markups_requests(for_loop.body@, pv));
    }
    let ghost b = cat(k, markups_requests(for_loop.body@, pv));
    match &for_loop.empty_block {
        Some(items) => {
            collect_items(items, prop_imports, component_imports, parent_component);
            proof {
                lemma_added_cat(v0, b, markups_requests(items@, pv));
            }
        },
        None => {
            proof {
                lemma_added_cat(v0, b, nothing());
                assert(cat(b, nothing()) =~= b);
            }
        },
    }
}

/// Adds the imports of the branches of a `@when` block.
fn collect_when(
    when_block: &WhenBlock,
    prop_imports: &mut Vec<String>,
    component_imports: &mut Vec<String>,
)
    requires
        whens_safe(when_block.branches@),
    ensures
        strs(final(prop_imports)@) == add_imports(
            strs(old(prop_imports)@),
            when_requests(when_block.branches@).0,
        ),
        strs(final(component_imports)@) == add_imports(
            strs(old(component_imports)@),
            when_requests(when_block.branches@).1,
        ),
    decreases *when_block, 0nat,
{
    let ghost bs = when_block.branches@;
    let ghost v0 = (strs(prop_imports@), strs(component_imports@));
    let mut k: usize = 0;
    proof {
        assert(bs.take(0) =~= Seq::<WhenBranch>::empty());
    }
    while k < when_block.branches.len()
        invariant
            k <= bs.len(),
            bs == when_block.branches@,
            whens_safe(bs),
            v0 == (strs(old(prop_imports)@), strs(old(component_imports)@)),
            strs(prop_imports@) == add_imports(v0.0, when_requests(bs.take(k as int)).0),
            strs(component_imports@) == add_imports(v0.1, when_requests(bs.take(k as int)).1),
        decreases bs.len() - k,
    {
        proof {
            lemma_whens_safe(bs, k as int);
        }
        collect_imports_with_parent(
            &when_block.branches[k].body,
            prop_imports,
            component_imports,
            None,
        );
        proof {
            lemma_added_cat(
                v0,
                when_requests(bs.take(k as int)),
                markup_requests(bs[k as int].body, None),
            );
            assert(bs.take(k + 1).drop_last() =~= bs.take(k as int));
            assert(bs.take(k + 1).last() == bs[k as int]);
        }
        k = k + 1;
    }
    proof {
        assert(bs.take(bs.len() as int) =~= bs);
    }
}

/// Collecting the imports of markup `m` into lists without repeats leaves
/// lists without repeats that still hold every import they held and now hold
/// every import that `m` asks for.
pub proof fn lemma_collected_imports(
    props: Seq<Seq<char>>,
    components: Seq<Seq<char>>,
    m: Markup,
    parent: Option<Seq<char>>,
)
    requires
        no_repeats(props),
        no_repeats(components),
    ensures
        no_repeats(add_imports(props, markup_requests(m, parent).0)),
        no_repeats(add_imports(components, markup_requests(m, parent).1)),
        forall|x: Seq<char>|
            props.contains(x) || markup_requests(m, parent).0.contains(x) ==> add_imports(
                props,
                markup_requests(m, parent).0,
            ).contains(x),
        forall|x: Seq<char>|
            components.contains(x) || markup_requests(m, parent).1.contains(x) ==> add_imports(
                components,
                markup_requests(m, parent).1,
            ).contains(x),
{
    let r = markup_requests(m, parent);
    lemma_add_imports_no_repeats(props, r.0);
    lemma_add_imports_no_repeats(components, r.1);
}


// ===================== Deciding which inputs can be walked =====================

/// Whether prop `p` of component `n` with value `e` can be transformed
/// (see `pair_slice_ok`).
fn pair_slice_ok_of(n: &str, p: &str, e: &String) -> (r: bool)
    ensures
        r == pair_slice_ok(n@, p@, e@),
{
    let c = crate::text::str_to_chars(e.as_str());
    let ruled = (str_eq(n, "Text") && str_eq(p, "color")) || (str_eq(n, "Card") && str_eq(
        p,
        "backgroundColor",
    ));
    !(ruled && c.len() > 0 && c[0] == '"') || (c.len() >= 2 && (c[c.len() - 1] as u32) < 128)
}

/// Whether every prop in `m` can be transformed (see `markup_safe`).
pub(crate) fn markup_safe_of(m: &Markup) -> (r: bool)
    ensures
        r == markup_safe(*m),
    decreases *m, 1nat,
{
    match m {
        Markup::Component(c) => props_safe_of(&c.name, &c.props) && markups_safe_of(&c.children),
        Markup::Sequence(items) => markups_safe_of(items),
        Markup::IfElse(b) => markups_safe_of(&b.then_branch) && else_ifs_safe_of(&b.else_ifs)
            && match &b.else_branch {
            Some(e) => markups_safe_of(e),
            None => true,
        },
        Markup::ForLoop(f) => markups_safe_of(&f.body) && match &f.empty_block {
            Some(e) => markups_safe_of(e),
            None => true,
        },
        Markup::When(w) => whens_safe_of(&w.branches),
        _ => true,
    }
}

fn markups_safe_of(ms: &Vec<Markup>) -> (r: bool)
    ensures
        r == markups_safe(ms@),
    decreases ms@, 0nat,
{
    let mut ok = true;
    let mut i: usize = 0;
    proof {
        assert(ms@.take(0) =~= Seq::<Markup>::empty());
    }
    while i < ms.len()
        invariant
            i <= ms@.len(),
            ok == markups_safe(ms@.take(i as int)),
        decreases ms.len() - i,
    {
        proof {
            assert(ms@.take(i + 1).drop_last() =~= ms@.take(i as int));
            assert(ms@.take(i + 1).last() == ms@[i as int]);
        }
        ok = ok && markup_safe_of(&ms[i]);
        i = i + 1;
    }
    proof {
        assert(ms@.take(ms@.len() as int) =~= ms@);
    }
    ok
}

fn props_safe_of(n: &String, ps: &Vec<ComponentProp>) -> (r: bool)
    ensures
        r == props_safe(n@, ps@),
    decreases ps@, 0nat,
{
    let mut ok = true;
    let mut i: usize = 0;
    proof {
        assert(ps@.take(0) =~= Seq::<ComponentProp>::empty());
    }
    while i < ps.len()
        invariant
            i <= ps@.len(),
            ok == props_safe(n@, ps@.take(i as int)),
        decreases ps.len() - i,
    {
        proof {
            assert(ps@.take(i + 1).drop_last() =~= ps@.take(i as int));
            assert(ps@.take(i + 1).last() == ps@[i as int]);
        }
        let e = get_prop_expr(&ps[i].value);
        let here = pair_slice_ok_of(n.as_str(), ps[i].name.as_str(), &e) && match &ps[i].value {
            PropValue::Markup(b) => markup_safe_of(b),
            PropValue::Expression(_) => true,
        };
        ok = ok && here;
        i = i + 1;
    }
    proof {
        assert(ps@.take(ps@.len() as int) =~= ps@);
    }
    ok
}

fn else_ifs_safe_of(bs: &Vec<ElseIfBranch>) -> (r: bool)
    ensures
        r == else_ifs_safe(bs@),
    decreases bs@, 0nat,
{
    let mut ok = true;
    let mut i: usize = 0;
    proof {
        assert(bs@.take(0) =~= Seq::<ElseIfBranch>::empty());
    }
    while i < bs.len()
        invariant
            i <= bs@.len(),
            ok == else_ifs_safe(bs@.take(i as int)),
        decreases bs.len() - i,
    {
        proof {
            assert(bs@.take(i + 1).drop_last() =~= bs@.take(i as int));
            assert(bs@.take(i + 1).last() == bs@[i as int]);
        }
        ok = ok && markups_safe_of(&bs[i].body);
        i = i + 1;
    }
    proof {
        assert(bs@.take(bs@.len() as int) =~= bs@);
    }
    ok
}

fn whens_safe_of(bs: &Vec<WhenBranch>) -> (r: bool)
    ensures
        r == whens_safe(bs@),
    decreases bs@, 0nat,
{
    let mut ok = true;
    let mut i: usize = 0;
    proof {
        assert(bs@.take(0) =~= Seq::<WhenBranch>::empty());
    }
    while i < bs.len()
        invariant
            i <= bs@.len(),
            ok == whens_safe(bs@.take(i as int)),
        decreases bs.len() - i,
    {
        proof {
            assert(bs@.take(i + 1).drop_last() =~= bs@.take(i as int));
            assert(bs@.take(i + 1).last() == bs@[i as int]);
        }
        ok = ok && markup_safe_of(&bs[i].body);
        i = i + 1;
    }
    proof {
        assert(bs@.take(bs@.len() as int) =~= bs@);
    }
    ok
}

} // verus!
