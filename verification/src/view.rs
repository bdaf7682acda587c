//! The Android View backend: code that builds native Views (used where a list
//! is rendered by a RecyclerView).

use vstd::prelude::*;

use crate::ast::{
    Component, ComponentProp, ForLoopBlock, IfElseBlock, Markup, PropDeclaration, PropValue,
    StateDeclaration, WhenBlock, WhenBranch, WhitehallFile,
};
use crate::text::{lit, push_lit, push_string, str_eq};

verus! {

// ===================== The generated text =====================

/// `n` levels of indentation (four spaces each).
pub open spec fn indent_text(n: int) -> Seq<char>
    decreases n,
{
    if n <= 0 {
        Seq::empty()
    } else {
        indent_text(n - 1) + "    "@
    }
}

/// The value of the first prop named `name` (an expression's text; empty for
/// markup), if there is one.
pub open spec fn prop_value_of(ps: Seq<ComponentProp>, name: Seq<char>) -> Option<Seq<char>>
    decreases ps.len(),
{
    if ps.len() == 0 {
        None
    } else if ps[0].name@ == name {
        Some(
            match ps[0].value {
                PropValue::Expression(e) => e@,
                PropValue::Markup(_) => Seq::empty(),
            },
        )
    } else {
        prop_value_of(ps.drop_first(), name)
    }
}

/// `line` at level `l` when the prop `name` is there (with its value in
/// place), else nothing.
pub open spec fn prop_line(
    c: Component,
    name: Seq<char>,
    l: int,
    before: Seq<char>,
    after: Seq<char>,
) -> Seq<char> {
    match prop_value_of(c.props@, name) {
        Some(v) => indent_text(l) + before + v + after,
        None => Seq::empty(),
    }
}

/// The padding lines for the `padding` prop at level `l`.
pub open spec fn padding_lines(c: Component, l: int) -> Seq<char> {
    match prop_value_of(c.props@, "padding"@) {
        Some(p) => indent_text(l) + "val paddingPx = ("@ + p + ".dpToPx())\n"@ + indent_text(l)
            + "setPadding(paddingPx, paddingPx, paddingPx, paddingPx)\n"@,
        None => Seq::empty(),
    }
}

/// The code of markup `m` generated at indentation level `l`.
pub open spec fn markup_code(m: Markup, l: int) -> Seq<char>
    decreases m, 1nat,
{
    match m {
        Markup::Component(c) => component_code(c, l),
        Markup::Text(t) => "\""@ + t@ + "\""@,
        Markup::Interpolation(e) => e@,
        Markup::Sequence(items) => if items@.len() == 0 {
            "TextView(context)"@
        } else if items@.len() == 1 {
            markup_code(items@[0], l)
        } else {
            "LinearLayout(context).apply {\n"@ + indent_text(l + 1)
                + "orientation = LinearLayout.VERTICAL\n"@ + views_code(items@, l + 1) + indent_text(
                l,
            ) + "}"@
        },
        Markup::ForLoop(f) => "LinearLayout(context).apply {\n"@ + indent_text(l + 1)
            + "orientation = LinearLayout.VERTICAL\n"@ + indent_text(l + 1) + f.collection@
            + ".forEach { "@ + f.item@ + " ->\n"@ + views_code(f.body@, l + 2) + indent_text(l + 1)
            + "}\n"@ + indent_text(l) + "}"@,
        Markup::IfElse(b) => "if ("@ + b.condition@ + ") {\n"@ + branch_code(b.then_branch@, l + 1)
            + indent_text(l) + "} else {\n"@ + match b.else_branch {
            Some(e) => branch_code(e@, l + 1),
            None => indent_text(l + 1) + "TextView(context) // empty else\n"@,
        } + indent_text(l) + "}"@,
        Markup::When(w) => "when {\n"@ + when_code(w.branches@, l + 1) + indent_text(l) + "}"@,
    }
}

/// `addView(..)` lines for `ms` at level `l`.
pub open spec fn views_code(ms: Seq<Markup>, l: int) -> Seq<char>
    decreases ms, 0nat,
{
    if ms.len() == 0 {
        Seq::empty()
    } else {
        views_code(ms.drop_last(), l) + indent_text(l) + "addView("@ + markup_code(ms.last(), l)
            + ")\n"@
    }
}

/// An `if` / `else` branch at level `l`: its one item, or its items in a
/// `LinearLayout`.
pub open spec fn branch_code(ms: Seq<Markup>, l: int) -> Seq<char>
    decreases ms, 1nat,
{
    if ms.len() == 1 {
        indent_text(l) + markup_code(ms[0], l) + "\n"@
    } else {
        indent_text(l) + "LinearLayout(context).apply {\n"@ + views_code(ms, l + 1) + indent_text(l)
            + "}\n"@
    }
}

/// The branches of a `when` at level `l`.
pub open spec fn when_code(bs: Seq<WhenBranch>, l: int) -> Seq<char>
    decreases bs, 0nat,
{
    if bs.len() == 0 {
        Seq::empty()
    } else {
        when_code(bs.drop_last(), l) + indent_text(l) + match bs.last().condition {
            Some(c) => c@,
            None => "else"@,
        } + " -> "@ + markup_code(bs.last().body, l) + "\n"@
    }
}

/// The text of the first child at level `l` (`text = ..`), if there is one.
pub open spec fn text_child_line(c: Component, l: int) -> Seq<char>
    decreases c, 0nat,
{
    if c.children@.len() > 0 {
        indent_text(l) + "text = "@ + markup_code(c.children@[0], l) + "\n"@
    } else {
        Seq::empty()
    }
}

/// The code of component `c` at level `l`.
pub open spec fn component_code(c: Component, l: int) -> Seq<char>
    decreases c, 2nat,
{
    let n = c.name@;
    if n == "Card"@ {
        card_code(c, l)
    } else if n == "Column"@ {
        linear_code(c, l, true)
    } else if n == "Row"@ {
        linear_code(c, l, false)
    } else if n == "Text"@ {
        text_code(c, l)
    } else if n == "Button"@ {
        button_code(c, l)
    } else if n == "TextField"@ {
        textfield_code(c, l)
    } else if n == "Checkbox"@ {
        checkbox_code(c, l)
    } else if n == "Image"@ {
        image_code(c, l)
    } else {
        "TextView(context).apply { text = \"Unsupported: "@ + n + "\" }"@
    }
}

/// A `MaterialCardView` at level `l`.
pub open spec fn card_code(c: Component, l: int) -> Seq<char>
    decreases c, 1nat,
{
    let k = l + 1;
    "MaterialCardView(context).apply {\n"@ + padding_lines(c, k) + prop_line(
        c,
        "onClick"@,
        k,
        "setOnClickListener { "@,
        " }\n"@,
    ) + card_children_code(c, k) + indent_text(l) + "}"@
}

/// The children of a card at level `k`: one is added as it is, several in a
/// vertical `LinearLayout`.
pub open spec fn card_children_code(c: Component, k: int) -> Seq<char>
    decreases c, 0nat,
{
    if c.children@.len() == 0 {
        Seq::empty()
    } else if c.children@.len() == 1 {
        indent_text(k) + "addView("@ + markup_code(c.children@[0], k) + ")\n"@
    } else {
        indent_text(k) + "addView(LinearLayout(context).apply {\n"@ + indent_text(k + 1)
            + "orientation = LinearLayout.VERTICAL\n"@ + views_code(c.children@, k + 1)
            + indent_text(k) + "})\n"@
    }
}

/// A vertical (`Column`) or horizontal (`Row`) `LinearLayout` at level `l`.
pub open spec fn linear_code(c: Component, l: int, vertical: bool) -> Seq<char>
    decreases c, 1nat,
{
    let k = l + 1;
    "LinearLayout(context).apply {\n"@ + indent_text(k) + if vertical {
        "orientation = LinearLayout.VERTICAL\n"@ + prop_line(
            c,
            "spacing"@,
            k,
            "// spacing: "@,
            "dp (using divider or margin)\n"@,
        )
    } else {
        "orientation = LinearLayout.HORIZONTAL\n"@ + prop_line(
            c,
            "spacing"@,
            k,
            "// spacing: "@,
            "dp\n"@,
        )
    } + padding_lines(c, k) + views_code(c.children@, k) + indent_text(l) + "}"@
}

/// A `TextView` at level `l`.
pub open spec fn text_code(c: Component, l: int) -> Seq<char>
    decreases c, 1nat,
{
    let k = l + 1;
    "TextView(context).apply {\n"@ + text_child_line(c, k) + prop_line(
        c,
        "fontSize"@,
        k,
        "textSize = "@,
        "f\n"@,
    ) + match prop_value_of(c.props@, "fontWeight"@) {
        Some(w) => if w == "\"bold\""@ || w == "bold"@ {
            indent_text(k) + "setTypeface(null, android.graphics.Typeface.BOLD)\n"@
        } else {
            Seq::empty()
        },
        None => Seq::empty(),
    } + match prop_value_of(c.props@, "color"@) {
        Some(v) => if v == "\"secondary\""@ || v == "secondary"@ {
            indent_text(k) + "// TODO: setTextColor(secondary color)\n"@
        } else if v == "\"primary\""@ || v == "primary"@ {
            indent_text(k) + "// TODO: setTextColor(primary color)\n"@
        } else {
            Seq::empty()
        },
        None => Seq::empty(),
    } + indent_text(l) + "}"@
}

/// A `Button` at level `l`.
pub open spec fn button_code(c: Component, l: int) -> Seq<char>
    decreases c, 1nat,
{
    let k = l + 1;
    "Button(context).apply {\n"@ + text_child_line(c, k) + prop_line(
        c,
        "onClick"@,
        k,
        "setOnClickListener { "@,
        " }\n"@,
    ) + prop_line(c, "enabled"@, k, "isEnabled = "@, "\n"@) + indent_text(l) + "}"@
}

/// An `EditText` at level `l`.
pub open spec fn textfield_code(c: Component, l: int) -> Seq<char> {
    let k = l + 1;
    "EditText(context).apply {\n"@ + prop_line(c, "bind:value"@, k, "setText("@, ")\n"@)
        + prop_line(c, "placeholder"@, k, "hint = "@, "\n"@) + indent_text(l) + "}"@
}

/// A `CheckBox` at level `l`.
pub open spec fn checkbox_code(c: Component, l: int) -> Seq<char> {
    let k = l + 1;
    "CheckBox(context).apply {\n"@ + prop_line(c, "bind:checked"@, k, "isChecked = "@, "\n"@)
        + prop_line(
        c,
        "onChange"@,
        k,
        "setOnCheckedChangeListener { _, isChecked -> "@,
        " }\n"@,
    ) + indent_text(l) + "}"@
}

/// An `ImageView` at level `l`.
pub open spec fn image_code(c: Component, l: int) -> Seq<char> {
    let k = l + 1;
    "ImageView(context).apply {\n"@ + prop_line(c, "src"@, k, "// TODO: load image from "@, "\n"@)
        + indent_text(l) + "}"@
}

// ===================== Imports =====================

/// The imports that generating `m` asks for, in order (repeats included).
pub open spec fn markup_imports(m: Markup) -> Seq<Seq<char>>
    decreases m, 1nat,
{
    match m {
        Markup::Component(c) => component_imports(c),
        Markup::Sequence(items) => if items@.len() == 0 {
            Seq::empty()
        } else if items@.len() == 1 {
            markup_imports(items@[0])
        } else {
            views_imports(items@)
        },
        Markup::ForLoop(f) => views_imports(f.body@),
        Markup::IfElse(b) => views_imports(b.then_branch@) + match b.else_branch {
            Some(e) => views_imports(e@),
            None => Seq::empty(),
        },
        Markup::When(w) => when_imports(w.branches@),
        _ => Seq::empty(),
    }
}

/// The imports that generating the items of `ms` asks for, in order.
pub open spec fn views_imports(ms: Seq<Markup>) -> Seq<Seq<char>>
    decreases ms, 0nat,
{
    if ms.len() == 0 {
        Seq::empty()
    } else {
        views_imports(ms.drop_last()) + markup_imports(ms.last())
    }
}

/// The imports that generating `when` branches asks for, in order.
pub open spec fn when_imports(bs: Seq<WhenBranch>) -> Seq<Seq<char>>
    decreases bs, 0nat,
{
    if bs.len() == 0 {
        Seq::empty()
    } else {
        when_imports(bs.drop_last()) + markup_imports(bs.last().body)
    }
}

/// The imports that generating the first child of `c` asks for.
pub open spec fn first_child_imports(c: Component) -> Seq<Seq<char>>
    decreases c, 0nat,
{
    if c.children@.len() > 0 {
        markup_imports(c.children@[0])
    } else {
        Seq::empty()
    }
}

/// The imports that generating component `c` asks for, in order.
pub open spec fn component_imports(c: Component) -> Seq<Seq<char>>
    decreases c, 2nat,
{
    let n = c.name@;
    if n == "Card"@ {
        seq!["com.google.android.material.card.MaterialCardView"@] + views_imports(c.children@)
    } else if n == "Column"@ || n == "Row"@ {
        views_imports(c.children@)
    } else if n == "Text"@ || n == "Button"@ {
        first_child_imports(c)
    } else if n == "TextField"@ {
        seq!["android.widget.EditText"@]
    } else if n == "Checkbox"@ {
        seq!["android.widget.CheckBox"@]
    } else if n == "Image"@ {
        seq!["android.widget.ImageView"@]
    } else {
        Seq::empty()
    }
}

/// `v` with `x` added at the end unless it is already there.
pub open spec fn add_import(v: Seq<Seq<char>>, x: Seq<char>) -> Seq<Seq<char>> {
    if v.contains(x) {
        v
    } else {
        v.push(x)
    }
}

/// `v` with each of `xs` added in turn.
pub open spec fn add_imports(v: Seq<Seq<char>>, xs: Seq<Seq<char>>) -> Seq<Seq<char>>
    decreases xs.len(),
{
    if xs.len() == 0 {
        v
    } else {
        add_import(add_imports(v, xs.drop_last()), xs.last())
    }
}

/// The imports that every View file has.
pub open spec fn base_imports() -> Seq<Seq<char>> {
    seq![
        "android.content.Context"@,
        "android.view.View"@,
        "android.view.ViewGroup"@,
        "android.widget.LinearLayout"@,
        "android.widget.TextView"@,
        "android.widget.Button"@,
        "android.content.res.Resources"@,
    ]
}

/// No element of `v` occurs twice.
pub open spec fn no_repeats(v: Seq<Seq<char>>) -> bool {
    forall|i: int, j: int| 0 <= i < j < v.len() ==> v[i] != v[j]
}

/// Adding imports keeps a list without repeats.
pub proof fn lemma_add_imports_no_repeats(v: Seq<Seq<char>>, xs: Seq<Seq<char>>)
    requires
        no_repeats(v),
    ensures
        no_repeats(add_imports(v, xs)),
        forall|i: int| 0 <= i < xs.len() ==> add_imports(v, xs).contains(#[trigger] xs[i]),
        forall|x: Seq<char>| v.contains(x) ==> add_imports(v, xs).contains(x),
    decreases xs.len(),
{
    if xs.len() > 0 {
        lemma_add_imports_no_repeats(v, xs.drop_last());
        let w = add_imports(v, xs.drop_last());
        if !w.contains(xs.last()) {
            assert forall|i: int, j: int| 0 <= i < j < w.push(xs.last()).len() implies w.push(
                xs.last(),
            )[i] != w.push(xs.last())[j] by {
                if j == w.len() {
                    assert(w[i] == w.push(xs.last())[i]);
                }
            }
            assert forall|x: Seq<char>| w.contains(x) implies w.push(xs.last()).contains(x) by {
                let k = choose|k: int| 0 <= k < w.len() && w[k] == x;
                assert(w.push(xs.last())[k] == x);
            }
            assert(w.push(xs.last())[w.len() as int] == xs.last());
        }
        assert forall|i: int| 0 <= i < xs.len() implies add_imports(v, xs).contains(
            #[trigger] xs[i],
        ) by {
            if i < xs.len() - 1 {
                assert(xs.drop_last()[i] == xs[i]);
            }
        }
    }
}

pub proof fn lemma_add_imports_append(v: Seq<Seq<char>>, a: Seq<Seq<char>>, b: Seq<Seq<char>>)
    ensures
        add_imports(v, a + b) == add_imports(add_imports(v, a), b),
    decreases b.len(),
{
    if b.len() == 0 {
        assert(a + b =~= a);
    } else {
        lemma_add_imports_append(v, a, b.drop_last());
        assert((a + b).drop_last() =~= a + b.drop_last());
        assert((a + b).last() == b.last());
    }
}

pub proof fn lemma_add_one(v: Seq<Seq<char>>, x: Seq<char>)
    ensures
        add_imports(v, seq![x]) == add_import(v, x),
{
    let e = Seq::<Seq<char>>::empty();
    assert(seq![x].drop_last() =~= e);
    assert(seq![x].last() == x);
    assert(add_imports(v, e) == v);
    assert(add_imports(v, seq![x]) == add_import(add_imports(v, seq![x].drop_last()), seq![x].last()));
}

// ===================== Nesting =====================

/// How many indentation levels generating `m` goes below its own.
pub open spec fn markup_depth(m: Markup) -> nat
    decreases m, 1nat,
{
    match m {
        Markup::Component(c) => 2 + views_depth(c.children@),
        Markup::Sequence(items) => 2 + views_depth(items@),
        Markup::ForLoop(f) => 2 + views_depth(f.body@),
        Markup::IfElse(b) => 2 + max_nat(
            views_depth(b.then_branch@),
            match b.else_branch {
                Some(e) => views_depth(e@),
                None => 0,
            },
        ),
        Markup::When(w) => 2 + when_depth(w.branches@),
        _ => 0,
    }
}

/// The larger of `a` and `b`.
pub open spec fn max_nat(a: nat, b: nat) -> nat {
    if a < b {
        b
    } else {
        a
    }
}

/// The largest depth of the items of `ms`.
pub open spec fn views_depth(ms: Seq<Markup>) -> nat
    decreases ms, 0nat,
{
    if ms.len() == 0 {
        0
    } else {
        max_nat(views_depth(ms.drop_last()), markup_depth(ms.last()))
    }
}

/// The largest depth of the bodies of `bs`.
pub open spec fn when_depth(bs: Seq<WhenBranch>) -> nat
    decreases bs, 0nat,
{
    if bs.len() == 0 {
        0
    } else {
        max_nat(when_depth(bs.drop_last()), markup_depth(bs.last().body))
    }
}

pub proof fn lemma_views_depth(ms: Seq<Markup>, i: int)
    requires
        0 <= i < ms.len(),
    ensures
        markup_depth(ms[i]) <= views_depth(ms),
        views_depth(ms.subrange(0, i)) <= views_depth(ms),
    decreases ms.len(),
{
    if i < ms.len() - 1 {
        lemma_views_depth(ms.drop_last(), i);
        assert(ms.drop_last()[i] == ms[i]);
        assert(ms.drop_last().subrange(0, i) =~= ms.subrange(0, i));
    } else {
        assert(ms.drop_last() =~= ms.subrange(0, i));
    }
}

pub proof fn lemma_when_depth(bs: Seq<WhenBranch>, i: int)
    requires
        0 <= i < bs.len(),
    ensures
        markup_depth(bs[i].body) <= when_depth(bs),
    decreases bs.len(),
{
    if i < bs.len() - 1 {
        lemma_when_depth(bs.drop_last(), i);
        assert(bs.drop_last()[i] == bs[i]);
    }
}


// ===================== The backend =====================

/// Generates Kotlin code that builds Android Views.
pub struct ViewBackend {
    package: String,
    component_name: String,
    indent_level: usize,
    imports: Vec<String>,
}

impl ViewBackend {
    /// The package of the generated file.
    pub closed spec fn package_view(&self) -> Seq<char> {
        self.package@
    }

    /// The name of the component (the generated function is `create<name>`).
    pub closed spec fn name_view(&self) -> Seq<char> {
        self.component_name@
    }

    /// The current indentation level.
    pub closed spec fn level(&self) -> int {
        self.indent_level as int
    }

    /// The imports collected so far, in the order they were added.
    pub closed spec fn imports_view(&self) -> Seq<Seq<char>> {
        self.imports@.map_values(|s: String| s@)
    }
}

/// `b` is `a` after generating code that asked for the imports `added`: the
/// same package, name and level, and those imports added.
pub open spec fn generated(a: ViewBackend, b: ViewBackend, added: Seq<Seq<char>>) -> bool {
    &&& b.package_view() == a.package_view()
    &&& b.name_view() == a.name_view()
    &&& b.level() == a.level()
    &&& b.imports_view() == add_imports(a.imports_view(), added)
}

/// Whether generating something of depth `d` at the backend's level cannot
/// overflow the level.
pub open spec fn fits(b: ViewBackend, d: nat) -> bool {
    b.level() + d < usize::MAX
}

impl ViewBackend {
    /// A backend for the component `component_name` in package `package`.
    pub fn new(package: &str, component_name: &str) -> (b: Self)
        ensures
            b.package_view() == package@,
            b.name_view() == component_name@,
            b.level() == 0,
            b.imports_view() == Seq::<Seq<char>>::empty(),
    {
        let b = ViewBackend {
            package: lit(package),
            component_name: lit(component_name),
            indent_level: 0,
            imports: Vec::new(),
        };
        assert(b.imports@.map_values(|s: String| s@) =~= Seq::<Seq<char>>::empty());
        b
    }

    /// Adds `x` to the imports unless it is there.
    fn add_import(&mut self, x: &str)
        ensures
            generated(*old(self), *final(self), seq![x@]),
    {
        let ghost v = self.imports_view();
        let mut i: usize = 0;
        while i < self.imports.len()
            invariant
                i <= self.imports@.len(),
                v == self.imports@.map_values(|s: String| s@),
                forall|j: int| 0 <= j < i ==> self.imports@[j]@ != x@,
            decreases self.imports.len() - i,
        {
            if str_eq(self.imports[i].as_str(), x) {
                proof {
                    assert(v[i as int] == x@);
                    assert(v.contains(x@));
                    lemma_add_one(v, x@);
                }
                return;
            }
            i = i + 1;
        }
        proof {
            assert(!v.contains(x@)) by {
                if v.contains(x@) {
                    let k = choose|k: int| 0 <= k < v.len() && v[k] == x@;
                    assert(self.imports@[k]@ == x@);
                }
            }
            lemma_add_one(v, x@);
        }
        self.imports.push(lit(x));
        proof {
            assert(self.imports@.map_values(|s: String| s@) =~= v.push(x@));
        }
    }

    /// The indentation of the current level.
    fn indent(&self) -> (r: String)
        ensures
            r@ == indent_text(self.indent_level as int),
    {
        let mut r = String::new();
        let mut i: usize = 0;
        while i < self.indent_level
            invariant
                i <= self.indent_level,
                r@ == indent_text(i as int),
            decreases self.indent_level - i,
        {
            push_lit(&mut r, "    ");
            i = i + 1;
        }
        r
    }

    /// The value of the first prop of `component` named `prop_name`.
    fn get_prop_value(&self, component: &Component, prop_name: &str) -> (r: Option<String>)
        ensures
            match r {
                Some(v) => prop_value_of(component.props@, prop_name@) == Some(v@),
                None => prop_value_of(component.props@, prop_name@) is None,
            },
    {
        let ghost ps = component.props@;
        let mut i: usize = 0;
        assert(ps.subrange(0, ps.len() as int) =~= ps);
        while i < component.props.len()
            invariant
                i <= ps.len(),
                ps == component.props@,
                prop_value_of(ps, prop_name@) == prop_value_of(ps.subrange(i as int, ps.len() as int), prop_name@),
            decreases component.props.len() - i,
        {
            let p = &component.props[i];
            proof {
                let rest = ps.subrange(i as int, ps.len() as int);
                assert(rest[0] == ps[i as int]);
                assert(rest.drop_first() =~= ps.subrange(i + 1, ps.len() as int));
            }
            if str_eq(p.name.as_str(), prop_name) {
                return Some(
                    match &p.value {
                        PropValue::Expression(expr) => lit(expr.as_str()),
                        PropValue::Markup(_) => String::new(),
                    },
                );
            }
            i = i + 1;
        }
        None
    }

    /// Appends `prop_line` for the prop `name` at the current level.
    fn push_prop_line(&self, code: &mut String, c: &Component, name: &str, before: &str, after: &str)
        ensures
            final(code)@ == old(code)@ + prop_line(
                *c,
                name@,
                self.indent_level as int,
                before@,
                after@,
            ),
    {
        if let Some(v) = self.get_prop_value(c, name) {
            let ind = self.indent();
            push_string(code, &ind);
            push_lit(code, before);
            push_string(code, &v);
            push_lit(code, after);
        }
    }

    /// Appends the padding lines at the current level.
    fn push_padding(&self, code: &mut String, c: &Component)
        ensures
            final(code)@ == old(code)@ + padding_lines(*c, self.indent_level as int),
    {
        if let Some(p) = self.get_prop_value(c, "padding") {
            let ind = self.indent();
            push_string(code, &ind);
            push_lit(code, "val paddingPx = (");
            push_string(code, &p);
            push_lit(code, ".dpToPx())\n");
            push_string(code, &ind);
            push_lit(code, "setPadding(paddingPx, paddingPx, paddingPx, paddingPx)\n");
        }
    }

    /// Appends the closing `}` at the current level.
    fn push_close(&self, code: &mut String)
        ensures
            final(code)@ == old(code)@ + indent_text(self.indent_level as int) + "}"@,
    {
        let ind = self.indent();
        push_string(code, &ind);
        push_lit(code, "}");
    }
}


/// The depth of component `c`.
pub open spec fn component_depth(c: Component) -> nat {
    2 + views_depth(c.children@)
}

impl ViewBackend {
    /// The code of `markup` at the current level.
    fn generate_markup(&mut self, markup: &Markup) -> (r: String)
        requires
            fits(*old(self), markup_depth(*markup)),
        ensures
            r@ == markup_code(*markup, old(self).level()),
            generated(*old(self), *final(self), markup_imports(*markup)),
        decreases *markup, 2nat,
    {
        match markup {
            Markup::Component(component) => self.generate_component(component),
            Markup::Text(text) => {
                let mut r = lit("\"");
                push_string(&mut r, text);
                push_lit(&mut r, "\"");
                r
            },
            Markup::Interpolation(expr) => lit(expr.as_str()),
            Markup::Sequence(items) => {
                if items.len() == 0 {
                    return lit("TextView(context)");
                }
                proof {
                    lemma_views_depth(items@, 0);
                }
                if items.len() == 1 {
                    return self.generate_markup(&items[0]);
                }
                let mut code = lit("LinearLayout(context).apply {\n");
                self.indent_level = self.indent_level + 1;
                let ind = self.indent();
                push_string(&mut code, &ind);
                push_lit(&mut code, "orientation = LinearLayout.VERTICAL\n");
                let views = self.add_views(items);
                push_string(&mut code, &views);
                self.indent_level = self.indent_level - 1;
                self.push_close(&mut code);
                code
            },
            Markup::ForLoop(for_loop) => self.generate_for_loop(for_loop),
            Markup::IfElse(if_else) => self.generate_if_else(if_else),
            Markup::When(when) => self.generate_when(when),
        }
    }

    /// `addView(..)` lines for `items` at the current level.
    fn add_views(&mut self, items: &Vec<Markup>) -> (r: String)
        requires
            fits(*old(self), views_depth(items@)),
        ensures
            r@ == views_code(items@, old(self).level()),
            generated(*old(self), *final(self), views_imports(items@)),
        decreases items@, 0nat,
    {
        let ghost ms = items@;
        let mut code = String::new();
        let mut i: usize = 0;
        proof {
            assert(ms.subrange(0, 0) =~= Seq::<Markup>::empty());
        }
        while i < items.len()
            invariant
                i <= ms.len(),
                ms == items@,
                fits(*old(self), views_depth(ms)),
                code@ == views_code(ms.subrange(0, i as int), old(self).level()),
                generated(*old(self), *self, views_imports(ms.subrange(0, i as int))),
            decreases items.len() - i,
        {
            proof {
                lemma_views_depth(ms, i as int);
            }
            let ghost before = *self;
            let child = self.generate_markup(&items[i]);
            let ind = self.indent();
            push_string(&mut code, &ind);
            push_lit(&mut code, "addView(");
            push_string(&mut code, &child);
            push_lit(&mut code, ")\n");
            proof {
                let s1 = ms.subrange(0, i + 1);
                assert(s1.drop_last() =~= ms.subrange(0, i as int));
                assert(s1.last() == ms[i as int]);
                lemma_add_imports_append(
                    old(self).imports_view(),
                    views_imports(ms.subrange(0, i as int)),
                    markup_imports(ms[i as int]),
                );
            }
            i = i + 1;
        }
        proof {
            assert(ms.subrange(0, ms.len() as int) =~= ms);
        }
        code
    }

    /// An `if` / `else` branch at the current level.
    fn generate_branch(&mut self, items: &Vec<Markup>) -> (r: String)
        requires
            fits(*old(self), 1 + views_depth(items@)),
        ensures
            r@ == branch_code(items@, old(self).level()),
            generated(*old(self), *final(self), views_imports(items@)),
        decreases items@, 1nat,
    {
        let ind = self.indent();
        let mut code = String::new();
        if items.len() == 1 {
            proof {
                lemma_views_depth(items@, 0);
                assert(items@.drop_last() =~= Seq::<Markup>::empty());
                assert(items@.last() == items@[0]);
                assert(views_imports(items@.drop_last()) =~= Seq::<Seq<char>>::empty());
                assert(views_imports(items@) =~= markup_imports(items@[0]));
            }
            let child = self.generate_markup(&items[0]);
            push_string(&mut code, &ind);
            push_string(&mut code, &child);
            push_lit(&mut code, "\n");
        } else {
            push_string(&mut code, &ind);
            push_lit(&mut code, "LinearLayout(context).apply {\n");
            self.indent_level = self.indent_level + 1;
            let views = self.add_views(items);
            push_string(&mut code, &views);
            self.indent_level = self.indent_level - 1;
            push_string(&mut code, &ind);
            push_lit(&mut code, "}\n");
        }
        code
    }

    /// The branches of a `when` at the current level.
    fn when_lines(&mut self, branches: &Vec<WhenBranch>) -> (r: String)
        requires
            fits(*old(self), when_depth(branches@)),
        ensures
            r@ == when_code(branches@, old(self).level()),
            generated(*old(self), *final(self), when_imports(branches@)),
        decreases branches@, 0nat,
    {
        let ghost bs = branches@;
        let mut code = String::new();
        let mut i: usize = 0;
        proof {
            assert(bs.subrange(0, 0) =~= Seq::<WhenBranch>::empty());
        }
        while i < branches.len()
            invariant
                i <= bs.len(),
                bs == branches@,
                fits(*old(self), when_depth(bs)),
                code@ == when_code(bs.subrange(0, i as int), old(self).level()),
                generated(*old(self), *self, when_imports(bs.subrange(0, i as int))),
            decreases branches.len() - i,
        {
            proof {
                lemma_when_depth(bs, i as int);
            }
            let branch = &branches[i];
            let ind = self.indent();
            push_string(&mut code, &ind);
            match &branch.condition {
                Some(condition) => push_string(&mut code, condition),
                None => push_lit(&mut code, "else"),
            }
            push_lit(&mut code, " -> ");
            let body = self.generate_markup(&branch.body);
            push_string(&mut code, &body);
            push_lit(&mut code, "\n");
            proof {
                let s1 = bs.subrange(0, i + 1);
                assert(s1.drop_last() =~= bs.subrange(0, i as int));
                assert(s1.last() == bs[i as int]);
                lemma_add_imports_append(
                    old(self).imports_view(),
                    when_imports(bs.subrange(0, i as int)),
                    markup_imports(bs[i as int].body),
                );
            }
            i = i + 1;
        }
        proof {
            assert(bs.subrange(0, bs.len() as int) =~= bs);
        }
        code
    }

    /// The code of `@for` at the current level: its body built for each item.
    fn generate_for_loop(&mut self, for_loop: &ForLoopBlock) -> (r: String)
        requires
            fits(*old(self), 2 + views_depth(for_loop.body@)),
        ensures
            r@ == markup_code(Markup::ForLoop(*for_loop), old(self).level()),
            generated(*old(self), *final(self), views_imports(for_loop.body@)),
        decreases *for_loop, 0nat,
    {
        let mut code = lit("LinearLayout(context).apply {\n");
        self.indent_level = self.indent_level + 1;
        let ind = self.indent();
        push_string(&mut code, &ind);
        push_lit(&mut code, "orientation = LinearLayout.VERTICAL\n");
        push_string(&mut code, &ind);
        push_string(&mut code, &for_loop.collection);
        push_lit(&mut code, ".forEach { ");
        push_string(&mut code, &for_loop.item);
        push_lit(&mut code, " ->\n");
        self.indent_level = self.indent_level + 1;
        let views = self.add_views(&for_loop.body);
        push_string(&mut code, &views);
        self.indent_level = self.indent_level - 1;
        push_string(&mut code, &ind);
        push_lit(&mut code, "}\n");
        self.indent_level = self.indent_level - 1;
        self.push_close(&mut code);
        code
    }

    /// The code of `@if` at the current level (`else if` branches are not
    /// generated).
    fn generate_if_else(&mut self, if_else: &IfElseBlock) -> (r: String)
        requires
            fits(*old(self), markup_depth(Markup::IfElse(*if_else))),
        ensures
            r@ == markup_code(Markup::IfElse(*if_else), old(self).level()),
            generated(*old(self), *final(self), markup_imports(Markup::IfElse(*if_else))),
        decreases *if_else, 0nat,
    {
        let mut code = lit("if (");
        push_string(&mut code, &if_else.condition);
        push_lit(&mut code, ") {\n");
        self.indent_level = self.indent_level + 1;
        let then_code = self.generate_branch(&if_else.then_branch);
        push_string(&mut code, &then_code);
        self.indent_level = self.indent_level - 1;
        let ind = self.indent();
        push_string(&mut code, &ind);
        push_lit(&mut code, "} else {\n");
        self.indent_level = self.indent_level + 1;
        let ghost mid = self.imports_view();
        match &if_else.else_branch {
            Some(else_branch) => {
                let else_code = self.generate_branch(else_branch);
                push_string(&mut code, &else_code);
                proof {
                    lemma_add_imports_append(
                        old(self).imports_view(),
                        views_imports(if_else.then_branch@),
                        views_imports(else_branch@),
                    );
                }
            },
            None => {
                let ind2 = self.indent();
                push_string(&mut code, &ind2);
                push_lit(&mut code, "TextView(context) // empty else\n");
                proof {
                    assert(views_imports(if_else.then_branch@) + Seq::<Seq<char>>::empty()
                        =~= views_imports(if_else.then_branch@));
                }
            },
        }
        self.indent_level = self.indent_level - 1;
        self.push_close(&mut code);
        code
    }

    /// The code of `@when` at the current level.
    fn generate_when(&mut self, when: &WhenBlock) -> (r: String)
        requires
            fits(*old(self), 2 + when_depth(when.branches@)),
        ensures
            r@ == markup_code(Markup::When(*when), old(self).level()),
            generated(*old(self), *final(self), when_imports(when.branches@)),
        decreases *when, 0nat,
    {
        let mut code = lit("when {\n");
        self.indent_level = self.indent_level + 1;
        let lines = self.when_lines(&when.branches);
        push_string(&mut code, &lines);
        self.indent_level = self.indent_level - 1;
        self.push_close(&mut code);
        code
    }
}


impl ViewBackend {
    /// The code of `component` at the current level: a View for `Card`,
    /// `Column`, `Row`, `Text`, `Button`, `TextField`, `Checkbox` and `Image`,
    /// and a `TextView` saying it is unsupported for any other.
    pub fn generate_component(&mut self, component: &Component) -> (r: String)
        requires
            fits(*old(self), component_depth(*component)),
        ensures
            r@ == component_code(*component, old(self).level()),
            generated(*old(self), *final(self), component_imports(*component)),
        decreases *component, 2nat,
    {
        let name = component.name.as_str();
        if str_eq(name, "Card") {
            self.generate_card(component)
        } else if str_eq(name, "Column") {
            self.generate_linear(component, true)
        } else if str_eq(name, "Row") {
            self.generate_linear(component, false)
        } else if str_eq(name, "Text") {
            self.generate_text(component)
        } else if str_eq(name, "Button") {
            self.generate_button(component)
        } else if str_eq(name, "TextField") {
            self.generate_textfield(component)
        } else if str_eq(name, "Checkbox") {
            self.generate_checkbox(component)
        } else if str_eq(name, "Image") {
            self.generate_image(component)
        } else {
            let mut r = lit("TextView(context).apply { text = \"Unsupported: ");
            push_string(&mut r, &component.name);
            push_lit(&mut r, "\" }");
            r
        }
    }

    /// A `MaterialCardView` holding the children (several in a vertical
    /// `LinearLayout`).
    fn generate_card(&mut self, component: &Component) -> (r: String)
        requires
            fits(*old(self), component_depth(*component)),
        ensures
            r@ == card_code(*component, old(self).level()),
            generated(*old(self), *final(self), seq!["com.google.android.material.card.MaterialCardView"@] + views_imports(component.children@)),
        decreases *component, 1nat,
    {
        self.add_import("com.google.android.material.card.MaterialCardView");
        let mut code = lit("MaterialCardView(context).apply {\n");
        self.indent_level = self.indent_level + 1;
        self.push_padding(&mut code, component);
        self.push_prop_line(&mut code, component, "onClick", "setOnClickListener { ", " }\n");
        self.push_card_children(&mut code, component);
        self.indent_level = self.indent_level - 1;
        self.push_close(&mut code);
        proof {
            lemma_add_imports_append(
                old(self).imports_view(),
                seq!["com.google.android.material.card.MaterialCardView"@],
                views_imports(component.children@),
            );
        }
        code
    }

    /// A `LinearLayout` (vertical for `Column`, horizontal for `Row`) holding
    /// the children.
    fn generate_linear(&mut self, component: &Component, vertical: bool) -> (r: String)
        requires
            fits(*old(self), component_depth(*component)),
        ensures
            r@ == linear_code(*component, old(self).level(), vertical),
            generated(*old(self), *final(self), views_imports(component.children@)),
        decreases *component, 1nat,
    {
        let mut code = lit("LinearLayout(context).apply {\n");
        self.indent_level = self.indent_level + 1;
        let ind = self.indent();
        push_string(&mut code, &ind);
        if vertical {
            push_lit(&mut code, "orientation = LinearLayout.VERTICAL\n");
            self.push_prop_line(
                &mut code,
                component,
                "spacing",
                "// spacing: ",
                "dp (using divider or margin)\n",
            );
        } else {
            push_lit(&mut code, "orientation = LinearLayout.HORIZONTAL\n");
            self.push_prop_line(&mut code, component, "spacing", "// spacing: ", "dp\n");
        }
        self.push_padding(&mut code, component);
        let views = self.add_views(&component.children);
        push_string(&mut code, &views);
        self.indent_level = self.indent_level - 1;
        self.push_close(&mut code);
        code
    }

    /// Appends the children of a card at the current level.
    fn push_card_children(&mut self, code: &mut String, component: &Component)
        requires
            fits(*old(self), 1 + views_depth(component.children@)),
        ensures
            final(code)@ == old(code)@ + card_children_code(*component, old(self).level()),
            generated(*old(self), *final(self), views_imports(component.children@)),
        decreases *component, 0nat,
    {
        let n = component.children.len();
        if n == 1 {
            proof {
                lemma_views_depth(component.children@, 0);
                assert(component.children@.drop_last() =~= Seq::<Markup>::empty());
                assert(component.children@.last() == component.children@[0]);
                assert(views_imports(component.children@.drop_last()) =~= Seq::<Seq<char>>::empty());
                assert(views_imports(component.children@) =~= markup_imports(
                    component.children@[0],
                ));
            }
            let child = self.generate_markup(&component.children[0]);
            let ind = self.indent();
            push_string(code, &ind);
            push_lit(code, "addView(");
            push_string(code, &child);
            push_lit(code, ")\n");
        } else if n > 1 {
            let ind = self.indent();
            push_string(code, &ind);
            push_lit(code, "addView(LinearLayout(context).apply {\n");
            self.indent_level = self.indent_level + 1;
            let ind2 = self.indent();
            push_string(code, &ind2);
            push_lit(code, "orientation = LinearLayout.VERTICAL\n");
            let views = self.add_views(&component.children);
            push_string(code, &views);
            self.indent_level = self.indent_level - 1;
            push_string(code, &ind);
            push_lit(code, "})\n");
        } else {
            proof {
                assert(views_imports(component.children@) =~= Seq::<Seq<char>>::empty());
            }
        }
    }

    /// `text = <first child>` at the current level, if there is a child.
    fn push_text_child(&mut self, code: &mut String, component: &Component)
        requires
            fits(*old(self), views_depth(component.children@)),
        ensures
            final(code)@ == old(code)@ + text_child_line(*component, old(self).level()),
            generated(*old(self), *final(self), first_child_imports(*component)),
        decreases *component, 0nat,
    {
        if component.children.len() > 0 {
            proof {
                lemma_views_depth(component.children@, 0);
            }
            let child = self.generate_markup(&component.children[0]);
            let ind = self.indent();
            push_string(code, &ind);
            push_lit(code, "text = ");
            push_string(code, &child);
            push_lit(code, "\n");
        }
    }

    /// A `TextView` with the first child as text and the font size, weight
    /// and color props.
    fn generate_text(&mut self, component: &Component) -> (r: String)
        requires
            fits(*old(self), component_depth(*component)),
        ensures
            r@ == text_code(*component, old(self).level()),
            generated(*old(self), *final(self), first_child_imports(*component)),
        decreases *component, 1nat,
    {
        let mut code = lit("TextView(context).apply {\n");
        self.indent_level = self.indent_level + 1;
        self.push_text_child(&mut code, component);
        self.push_prop_line(&mut code, component, "fontSize", "textSize = ", "f\n");
        let ind = self.indent();
        if let Some(weight) = self.get_prop_value(component, "fontWeight") {
            if str_eq(weight.as_str(), "\"bold\"") || str_eq(weight.as_str(), "bold") {
                push_string(&mut code, &ind);
                push_lit(&mut code, "setTypeface(null, android.graphics.Typeface.BOLD)\n");
            }
        }
        if let Some(color) = self.get_prop_value(component, "color") {
            if str_eq(color.as_str(), "\"secondary\"") || str_eq(color.as_str(), "secondary") {
                push_string(&mut code, &ind);
                push_lit(&mut code, "// TODO: setTextColor(secondary color)\n");
            } else if str_eq(color.as_str(), "\"primary\"") || str_eq(color.as_str(), "primary") {
                push_string(&mut code, &ind);
                push_lit(&mut code, "// TODO: setTextColor(primary color)\n");
            }
        }
        self.indent_level = self.indent_level - 1;
        self.push_close(&mut code);
        code
    }

    /// A `Button` with the first child as text and the click and enabled
    /// props.
    fn generate_button(&mut self, component: &Component) -> (r: String)
        requires
            fits(*old(self), component_depth(*component)),
        ensures
            r@ == button_code(*component, old(self).level()),
            generated(*old(self), *final(self), first_child_imports(*component)),
        decreases *component, 1nat,
    {
        let mut code = lit("Button(context).apply {\n");
        self.indent_level = self.indent_level + 1;
        self.push_text_child(&mut code, component);
        self.push_prop_line(&mut code, component, "onClick", "setOnClickListener { ", " }\n");
        self.push_prop_line(&mut code, component, "enabled", "isEnabled = ", "\n");
        self.indent_level = self.indent_level - 1;
        self.push_close(&mut code);
        code
    }

    /// An `EditText` with the bound value and the placeholder as hint.
    fn generate_textfield(&mut self, component: &Component) -> (r: String)
        requires
            fits(*old(self), component_depth(*component)),
        ensures
            r@ == textfield_code(*component, old(self).level()),
            generated(*old(self), *final(self), seq!["android.widget.EditText"@]),
    {
        self.add_import("android.widget.EditText");
        let mut code = lit("EditText(context).apply {\n");
        self.indent_level = self.indent_level + 1;
        self.push_prop_line(&mut code, component, "bind:value", "setText(", ")\n");
        self.push_prop_line(&mut code, component, "placeholder", "hint = ", "\n");
        self.indent_level = self.indent_level - 1;
        self.push_close(&mut code);
        code
    }

    /// A `CheckBox` with the bound state and the change handler.
    fn generate_checkbox(&mut self, component: &Component) -> (r: String)
        requires
            fits(*old(self), component_depth(*component)),
        ensures
            r@ == checkbox_code(*component, old(self).level()),
            generated(*old(self), *final(self), seq!["android.widget.CheckBox"@]),
    {
        self.add_import("android.widget.CheckBox");
        let mut code = lit("CheckBox(context).apply {\n");
        self.indent_level = self.indent_level + 1;
        self.push_prop_line(&mut code, component, "bind:checked", "isChecked = ", "\n");
        self.push_prop_line(
            &mut code,
            component,
            "onChange",
            "setOnCheckedChangeListener { _, isChecked -> ",
            " }\n",
        );
        self.indent_level = self.indent_level - 1;
        self.push_close(&mut code);
        code
    }

    /// An `ImageView` (loading the source is left to the user).
    fn generate_image(&mut self, component: &Component) -> (r: String)
        requires
            fits(*old(self), component_depth(*component)),
        ensures
            r@ == image_code(*component, old(self).level()),
            generated(*old(self), *final(self), seq!["android.widget.ImageView"@]),
    {
        self.add_import("android.widget.ImageView");
        let mut code = lit("ImageView(context).apply {\n");
        self.indent_level = self.indent_level + 1;
        self.push_prop_line(&mut code, component, "src", "// TODO: load image from ", "\n");
        self.indent_level = self.indent_level - 1;
        self.push_close(&mut code);
        code
    }
}


// ===================== Files =====================

/// `import` lines for `v`, in order.
pub open spec fn import_lines(v: Seq<Seq<char>>) -> Seq<char>
    decreases v.len(),
{
    if v.len() == 0 {
        Seq::empty()
    } else {
        import_lines(v.drop_last()) + "import "@ + v.last() + "\n"@
    }
}

/// The props as parameters: `, name: Type` each.
pub open spec fn prop_params(ps: Seq<PropDeclaration>) -> Seq<char>
    decreases ps.len(),
{
    if ps.len() == 0 {
        Seq::empty()
    } else {
        prop_params(ps.drop_last()) + ", "@ + ps.last().name@ + ": "@ + ps.last().prop_type@
    }
}

/// The state as local variables: `    var|val name[: Type] = value` each.
pub open spec fn state_lines(ss: Seq<StateDeclaration>) -> Seq<char>
    decreases ss.len(),
{
    if ss.len() == 0 {
        Seq::empty()
    } else {
        state_lines(ss.drop_last()) + state_line(ss.last())
    }
}

/// One state declaration as a local variable.
pub open spec fn state_line(st: StateDeclaration) -> Seq<char> {
    "    "@ + (if st.mutable {
        "var"@
    } else {
        "val"@
    }) + " "@ + st.name@ + match st.type_annotation {
        Some(t) => ": "@ + t@,
        None => Seq::empty(),
    } + " = "@ + st.initial_value@ + "\n"@
}

/// `v` with the base imports added in turn.
pub open spec fn with_base_imports(v: Seq<Seq<char>>) -> Seq<Seq<char>> {
    let b = base_imports();
    add_import(
        add_import(
            add_import(
                add_import(add_import(add_import(add_import(v, b[0]), b[1]), b[2]), b[3]),
                b[4],
            ),
            b[5],
        ),
        b[6],
    )
}

/// The View file for `f`, with the imports `imports`.
pub open spec fn view_file(
    package: Seq<char>,
    name: Seq<char>,
    imports: Seq<Seq<char>>,
    f: WhitehallFile,
) -> Seq<char> {
    "package "@ + package + "\n\n"@ + import_lines(imports) + "\n"@ + "fun create"@ + name
        + "(context: android.content.Context"@ + prop_params(f.props@)
        + "): android.view.View {\n"@ + state_lines(f.state@) + (if f.state@.len() > 0 {
        "\n"@
    } else {
        Seq::empty()
    }) + "    return "@ + markup_code(f.markup, 1) + "\n"@ + "}\n"@
}

pub proof fn lemma_add_import(v: Seq<Seq<char>>, x: Seq<char>)
    ensures
        add_import(v, x).contains(x),
        forall|y: Seq<char>| v.contains(y) ==> add_import(v, x).contains(y),
        no_repeats(v) ==> no_repeats(add_import(v, x)),
{
    lemma_add_one(v, x);
    if no_repeats(v) {
        lemma_add_imports_no_repeats(v, seq![x]);
        assert(seq![x][0] == x);
    } else {
        if !v.contains(x) {
            assert(v.push(x)[v.len() as int] == x);
            assert forall|y: Seq<char>| v.contains(y) implies v.push(x).contains(y) by {
                let k = choose|k: int| 0 <= k < v.len() && v[k] == y;
                assert(v.push(x)[k] == y);
            }
        }
    }
}

impl ViewBackend {
    /// Adds the imports every View file has.
    fn add_base_imports(&mut self)
        ensures
            final(self).imports_view() == with_base_imports(old(self).imports_view()),
            final(self).level() == old(self).level(),
            final(self).package_view() == old(self).package_view(),
            final(self).name_view() == old(self).name_view(),
    {
        proof {
            lemma_add_one(self.imports_view(), base_imports()[0]);
        }
        self.add_import("android.content.Context");
        proof {
            lemma_add_one(self.imports_view(), base_imports()[1]);
        }
        self.add_import("android.view.View");
        proof {
            lemma_add_one(self.imports_view(), base_imports()[2]);
        }
        self.add_import("android.view.ViewGroup");
        proof {
            lemma_add_one(self.imports_view(), base_imports()[3]);
        }
        self.add_import("android.widget.LinearLayout");
        proof {
            lemma_add_one(self.imports_view(), base_imports()[4]);
        }
        self.add_import("android.widget.TextView");
        proof {
            lemma_add_one(self.imports_view(), base_imports()[5]);
        }
        self.add_import("android.widget.Button");
        proof {
            lemma_add_one(self.imports_view(), base_imports()[6]);
        }
        self.add_import("android.content.res.Resources");
    }

    /// `    return <markup>` at level 1.
    fn generate_component_body(&mut self, file: &WhitehallFile) -> (r: String)
        requires
            markup_depth(file.markup) < usize::MAX - 1,
        ensures
            r@ == "    return "@ + markup_code(file.markup, 1) + "\n"@,
            final(self).level() == 1,
            final(self).imports_view() == add_imports(
                old(self).imports_view(),
                markup_imports(file.markup),
            ),
            final(self).package_view() == old(self).package_view(),
            final(self).name_view() == old(self).name_view(),
    {
        let mut code = lit("    return ");
        self.indent_level = 1;
        let m = self.generate_markup(&file.markup);
        push_string(&mut code, &m);
        push_lit(&mut code, "\n");
        code
    }

    /// Generates the View file: package, imports, a `create<Name>` function
    /// taking the context and the props, the state as local variables, and the
    /// markup's View as its result. The imports are those the markup asked
    /// for, then the base imports, each once.
    pub fn generate(&mut self, file: &WhitehallFile) -> (r: Result<String, String>)
        requires
            markup_depth(file.markup) < usize::MAX - 1,
        ensures
            final(self).imports_view() == with_base_imports(
                add_imports(old(self).imports_view(), markup_imports(file.markup)),
            ),
            r matches Ok(out) && out@ == view_file(
                old(self).package_view(),
                old(self).name_view(),
                final(self).imports_view(),
                *file,
            ),
            final(self).level() == 1,
            final(self).package_view() == old(self).package_view(),
            final(self).name_view() == old(self).name_view(),
    {
        let mut output = lit("package ");
        push_string(&mut output, &self.package);
        push_lit(&mut output, "\n\n");
        let body = self.generate_component_body(file);
        self.add_base_imports();
        let ghost head = output@;
        let ghost iv = self.imports_view();
        let mut i: usize = 0;
        while i < self.imports.len()
            invariant
                i <= self.imports@.len(),
                iv == self.imports@.map_values(|s: String| s@),
                output@ == head + import_lines(iv.subrange(0, i as int)),
            decreases self.imports.len() - i,
        {
            push_lit(&mut output, "import ");
            push_string(&mut output, &self.imports[i]);
            push_lit(&mut output, "\n");
            proof {
                let s1 = iv.subrange(0, i + 1);
                assert(s1.drop_last() =~= iv.subrange(0, i as int));
                assert(s1.last() == self.imports@[i as int]@);
            }
            i = i + 1;
        }
        proof {
            assert(iv.subrange(0, iv.len() as int) =~= iv);
        }
        push_lit(&mut output, "\n");
        push_lit(&mut output, "fun create");
        push_string(&mut output, &self.component_name);
        push_lit(&mut output, "(context: android.content.Context");
        let ghost head2 = output@;
        let mut j: usize = 0;
        while j < file.props.len()
            invariant
                j <= file.props@.len(),
                output@ == head2 + prop_params(file.props@.subrange(0, j as int)),
            decreases file.props.len() - j,
        {
            push_lit(&mut output, ", ");
            push_string(&mut output, &file.props[j].name);
            push_lit(&mut output, ": ");
            push_string(&mut output, &file.props[j].prop_type);
            proof {
                let s1 = file.props@.subrange(0, j + 1);
                assert(s1.drop_last() =~= file.props@.subrange(0, j as int));
                assert(s1.last() == file.props@[j as int]);
            }
            j = j + 1;
        }
        proof {
            assert(file.props@.subrange(0, file.props@.len() as int) =~= file.props@);
        }
        push_lit(&mut output, "): android.view.View {\n");
        push_state_lines(&mut output, &file.state);
        if file.state.len() > 0 {
            push_lit(&mut output, "\n");
        }
        push_string(&mut output, &body);
        push_lit(&mut output, "}\n");
        Ok(output)
    }
}

/// Appends `state_line` of `st`.
fn push_state_line(output: &mut String, st: &StateDeclaration)
    ensures
        final(output)@ == old(output)@ + state_line(*st),
{
    push_lit(output, "    ");
    if st.mutable {
        push_lit(output, "var");
    } else {
        push_lit(output, "val");
    }
    push_lit(output, " ");
    push_string(output, &st.name);
    if let Some(t) = &st.type_annotation {
        push_lit(output, ": ");
        push_string(output, t);
    }
    push_lit(output, " = ");
    push_string(output, &st.initial_value);
    push_lit(output, "\n");
}

/// Appends the state lines.
fn push_state_lines(output: &mut String, states: &Vec<StateDeclaration>)
    ensures
        final(output)@ == old(output)@ + state_lines(states@),
{
    let ghost head = output@;
    let mut k: usize = 0;
    while k < states.len()
        invariant
            k <= states@.len(),
            output@ == head + state_lines(states@.subrange(0, k as int)),
            head == old(output)@,
        decreases states.len() - k,
    {
        push_state_line(output, &states[k]);
        proof {
            let s1 = states@.subrange(0, k + 1);
            assert(s1.drop_last() =~= states@.subrange(0, k as int));
            assert(s1.last() == states@[k as int]);
        }
        k = k + 1;
    }
    proof {
        assert(states@.subrange(0, states@.len() as int) =~= states@);
    }
}

/// Generating a file keeps the imports free of repeats and holds every base
/// import.
pub proof fn lemma_generated_imports(v: Seq<Seq<char>>, m: Markup)
    requires
        no_repeats(v),
    ensures
        no_repeats(with_base_imports(add_imports(v, markup_imports(m)))),
        forall|i: int|
            0 <= i < base_imports().len() ==> with_base_imports(
                add_imports(v, markup_imports(m)),
            ).contains(#[trigger] base_imports()[i]),
        forall|i: int|
            0 <= i < markup_imports(m).len() ==> with_base_imports(
                add_imports(v, markup_imports(m)),
            ).contains(#[trigger] markup_imports(m)[i]),
{
    let w0 = add_imports(v, markup_imports(m));
    lemma_add_imports_no_repeats(v, markup_imports(m));
    let b = base_imports();
    let w1 = add_import(w0, b[0]);
    lemma_add_import(w0, b[0]);
    let w2 = add_import(w1, b[1]);
    lemma_add_import(w1, b[1]);
    let w3 = add_import(w2, b[2]);
    lemma_add_import(w2, b[2]);
    let w4 = add_import(w3, b[3]);
    lemma_add_import(w3, b[3]);
    let w5 = add_import(w4, b[4]);
    lemma_add_import(w4, b[4]);
    let w6 = add_import(w5, b[5]);
    lemma_add_import(w5, b[5]);
    let w7 = add_import(w6, b[6]);
    lemma_add_import(w6, b[6]);
    assert(w7 == with_base_imports(w0));
    assert forall|i: int| 0 <= i < b.len() implies w7.contains(#[trigger] b[i]) by {
        if i == 0 {
        } else if i == 1 {
        } else if i == 2 {
        } else if i == 3 {
        } else if i == 4 {
        } else if i == 5 {
        } else {
        }
    }
}


// ===================== Laws of linear layouts =====================

/// A `Row` lays its children out horizontally and a `Column` vertically:
/// the code of each is a `LinearLayout` whose first setting is its
/// orientation.
pub proof fn law_linear_orientation(c: Component, l: int)
    ensures
        c.name@ == "Row"@ ==> crate::text::occurs_at(
            component_code(c, l),
            0,
            "LinearLayout(context).apply {\n"@ + indent_text(l + 1)
                + "orientation = LinearLayout.HORIZONTAL\n"@,
        ),
        c.name@ == "Column"@ ==> crate::text::occurs_at(
            component_code(c, l),
            0,
            "LinearLayout(context).apply {\n"@ + indent_text(l + 1) + "orientation = LinearLayout.VERTICAL\n"@,
        ),
{
    reveal_strlit("Row");
    reveal_strlit("Column");
    reveal_strlit("Card");
    assert("Row"@.len() == 3 && "Column"@.len() == 6 && "Card"@.len() == 4);
    let k = l + 1;
    if c.name@ == "Row"@ {
        let p = "LinearLayout(context).apply {\n"@ + indent_text(k) + "orientation = LinearLayout.HORIZONTAL\n"@;
        let rest = prop_line(c, "spacing"@, k, "// spacing: "@, "dp\n"@) + padding_lines(c, k) + views_code(
            c.children@,
            k,
        ) + indent_text(l) + "}"@;
        assert(component_code(c, l) == linear_code(c, l, false));
        assert(linear_code(c, l, false) =~= p + rest);
        assert((p + rest).subrange(0, p.len() as int) =~= p);
    }
    if c.name@ == "Column"@ {
        let p = "LinearLayout(context).apply {\n"@ + indent_text(k) + "orientation = LinearLayout.VERTICAL\n"@;
        let rest = prop_line(c, "spacing"@, k, "// spacing: "@, "dp (using divider or margin)\n"@)
            + padding_lines(c, k) + views_code(c.children@, k) + indent_text(l) + "}"@;
        assert(component_code(c, l) == linear_code(c, l, true));
        assert(linear_code(c, l, true) =~= p + rest);
        assert((p + rest).subrange(0, p.len() as int) =~= p);
    }
}

} // verus!
