//! The composable wrapper of a component whose state lives in a ViewModel:
//! it collects the ViewModel's state and renders the markup against it,
//! followed by the helper composables of the file.

use vstd::prelude::*;

use crate::ast::{FunctionDeclaration, Markup, PropDeclaration, StateDeclaration, WhitehallFile};
use crate::compose::{array_list, base_package};
use crate::compose_components::{MarkupGen, MarkupState};
use crate::compose_imports::{markup_requests, markup_safe, strs};
use crate::compose_markup::{markup_code, markup_fine, rendered};
use crate::compose_modifiers::{in_context, joined};
use crate::compose_text::{reindented, ExprContext};
use crate::stores::{resolved_imports, sorted_distinct};
use crate::text::{lit, push_lit, push_string, seq_contains, str_eq};
use crate::view::{add_imports, import_lines, indent_text};

verus! {

// ===================== The wrapper's context =====================

/// The names of the mutable states among `ss`, in order.
pub open spec fn mutable_names(ss: Seq<StateDeclaration>) -> Seq<Seq<char>>
    decreases ss.len(),
{
    if ss.len() == 0 {
        Seq::empty()
    } else if ss.last().mutable {
        mutable_names(ss.drop_last()).push(ss.last().name@)
    } else {
        mutable_names(ss.drop_last())
    }
}

/// Whether `s` is a plain `val` (neither mutable nor derived).
pub open spec fn is_plain_val(s: StateDeclaration) -> bool {
    !s.mutable && !s.is_derived_state
}

/// Whether `s` is a derived `val`.
pub open spec fn is_derived_val(s: StateDeclaration) -> bool {
    !s.mutable && s.is_derived_state
}

/// The names of the plain `val`s among `ss`, in order.
pub open spec fn plain_val_names(ss: Seq<StateDeclaration>) -> Seq<Seq<char>>
    decreases ss.len(),
{
    if ss.len() == 0 {
        Seq::empty()
    } else if is_plain_val(ss.last()) {
        plain_val_names(ss.drop_last()).push(ss.last().name@)
    } else {
        plain_val_names(ss.drop_last())
    }
}

/// The names of the functions `fs`, in order.
pub open spec fn function_names_of(fs: Seq<FunctionDeclaration>) -> Seq<Seq<char>>
    decreases fs.len(),
{
    if fs.len() == 0 {
        Seq::empty()
    } else {
        function_names_of(fs.drop_last()).push(fs.last().name@)
    }
}

/// Whether `w` is the generator of the wrapper of `file` made from `base`:
/// expressions rewritten for the ViewModel (mutable state read from
/// `uiState`, plain `val`s and functions from `viewModel`), all else as in
/// `base`.
pub open spec fn wrapper_of(w: MarkupGen, base: MarkupGen, file: WhitehallFile) -> bool {
    &&& strs(w.ctx.nullable_vars@) == strs(base.ctx.nullable_vars@)
    &&& w.ctx.in_viewmodel_wrapper
    &&& strs(w.ctx.mutable_vars@) == mutable_names(file.state@)
    &&& strs(w.ctx.derived_props@) == plain_val_names(file.state@)
    &&& strs(w.ctx.function_names@) == function_names_of(file.functions@)
    &&& w.type_view() == base.type_view()
    &&& w.var_types@ == base.var_types@
    &&& same_plans(w.optimizations@, base.optimizations@)
}

/// The same optimization plans (the texts of a single text view compared by
/// their indices).
pub open spec fn same_plans(
    a: Seq<crate::optimizer::Optimization>,
    b: Seq<crate::optimizer::Optimization>,
) -> bool {
    &&& a.len() == b.len()
    &&& forall|i: int|
        0 <= i < a.len() ==> match (#[trigger] a[i], b[i]) {
            (
                crate::optimizer::Optimization::UseSingleTextView { text_node_ids: x },
                crate::optimizer::Optimization::UseSingleTextView { text_node_ids: y },
            ) => x@ == y@,
            (x, y) => x == y,
        }
}

// ===================== Imports =====================

/// The imports after those of the helper composables among `fs`, from
/// `acc` (prop imports, component imports).
pub open spec fn helper_imports(acc: (Seq<Seq<char>>, Seq<Seq<char>>), fs: Seq<
    FunctionDeclaration,
>) -> (Seq<Seq<char>>, Seq<Seq<char>>)
    decreases fs.len(),
{
    if fs.len() == 0 {
        acc
    } else {
        let a = helper_imports(acc, fs.drop_last());
        match fs.last().markup {
            Some(m) => (
                add_imports(a.0, markup_requests(m, None).0),
                add_imports(a.1, markup_requests(m, None).1),
            ),
            None => a,
        }
    }
}

/// The prop and component imports of the markup of `file` and of its
/// helper composables.
pub open spec fn collected_imports(file: WhitehallFile) -> (Seq<Seq<char>>, Seq<Seq<char>>) {
    let r = markup_requests(file.markup, None);
    helper_imports(
        (add_imports(Seq::empty(), r.0), add_imports(Seq::empty(), r.1)),
        file.functions@,
    )
}

/// Whether one of `ss` is a derived `val`.
pub open spec fn has_derived_state(ss: Seq<StateDeclaration>) -> bool {
    exists|i: int| 0 <= i < ss.len() && is_derived_val(#[trigger] ss[i])
}

/// The imports of the wrapper of `file` (unsorted): prop imports, the
/// runtime, `remember` and `derivedStateOf` for derived state, the user's
/// imports, component imports, `viewModel`, then for a screen the
/// `NavController` and (when routes are used) the `Routes`.
pub open spec fn wrapper_imports(
    package: Seq<char>,
    is_screen: bool,
    uses_routes: bool,
    file: WhitehallFile,
) -> Seq<Seq<char>> {
    let c = collected_imports(file);
    c.0 + seq![
        "androidx.compose.runtime.Composable"@,
        "androidx.compose.runtime.collectAsState"@,
        "androidx.compose.runtime.getValue"@,
    ] + (if has_derived_state(file.state@) {
        seq!["androidx.compose.runtime.remember"@, "androidx.compose.runtime.derivedStateOf"@]
    } else {
        Seq::empty()
    }) + resolved_imports(package, file.imports@) + c.1 + seq![
        "androidx.lifecycle.viewmodel.compose.viewModel"@,
    ] + (if is_screen {
        seq!["androidx.navigation.NavController"@]
    } else {
        Seq::empty()
    }) + (if uses_routes && is_screen {
        seq![base_package(package) + ".routes.Routes"@]
    } else {
        Seq::empty()
    })
}

// ===================== The function =====================

/// The parameter of prop `p`: `name: Type` with its default.
pub open spec fn prop_param(p: PropDeclaration) -> Seq<char> {
    p.name@ + ": "@ + p.prop_type@ + match p.default_value {
        Some(d) => " = "@ + d@,
        None => Seq::empty(),
    }
}

/// The parameters of the props `ps`, in order.
pub open spec fn prop_params(ps: Seq<PropDeclaration>) -> Seq<Seq<char>>
    decreases ps.len(),
{
    if ps.len() == 0 {
        Seq::empty()
    } else {
        prop_params(ps.drop_last()).push(prop_param(ps.last()))
    }
}

/// The value of plain `val` `s` in the wrapper: its array literals as lists,
/// rewritten for the ViewModel, re-indented when it spans lines.
pub open spec fn plain_value(w: MarkupGen, s: StateDeclaration) -> Seq<char> {
    let v = in_context(array_list(s.initial_value@, false), w.ctx);
    if seq_contains(v, "\n"@) {
        reindented(v, 1)
    } else {
        v
    }
}

/// The plain `val`s among `ss` as local values of the wrapper.
pub open spec fn plain_vals(w: MarkupGen, ss: Seq<StateDeclaration>) -> Seq<char>
    decreases ss.len(),
{
    if ss.len() == 0 {
        Seq::empty()
    } else {
        let s = ss.last();
        plain_vals(w, ss.drop_last()) + if is_plain_val(s) {
            indent_text(1) + "val "@ + s.name@ + match s.type_annotation {
                Some(t) => ": "@ + t@,
                None => Seq::empty(),
            } + " = "@ + plain_value(w, s) + "\n"@
        } else {
            Seq::empty()
        }
    }
}

/// The derived `val`s among `ss`, remembered `derivedStateOf` values.
pub open spec fn derived_vals(w: MarkupGen, ss: Seq<StateDeclaration>) -> Seq<char>
    decreases ss.len(),
{
    if ss.len() == 0 {
        Seq::empty()
    } else {
        let s = ss.last();
        derived_vals(w, ss.drop_last()) + if is_derived_val(s) {
            indent_text(1) + "val "@ + s.name@ + " by remember {\n"@ + indent_text(2) + in_context(
                s.initial_value@,
                w.ctx,
            ) + "\n"@ + indent_text(1) + "}\n"@
        } else {
            Seq::empty()
        }
    }
}

/// The header of helper composable `f`.
pub open spec fn helper_header(f: FunctionDeclaration) -> Seq<char> {
    "\n@Composable\n"@ + (if f.is_suspend {
        "suspend "@
    } else {
        Seq::empty()
    }) + "fun "@ + f.name@ + "("@ + f.params@ + ")"@ + match f.return_type {
        Some(t) => ": "@ + t@,
        None => Seq::empty(),
    } + " {\n"@
}

/// The helper composables among `fs` (functions with markup), rendered
/// with `base`.
pub open spec fn helpers_code(base: MarkupGen, st: MarkupState, fs: Seq<FunctionDeclaration>) -> (
    Result<Seq<char>, Seq<char>>,
    MarkupState,
)
    decreases fs.len(),
{
    if fs.len() == 0 {
        (Ok(Seq::empty()), st)
    } else {
        let a = helpers_code(base, st, fs.drop_last());
        match a.0 {
            Err(e) => (Err(e), a.1),
            Ok(x) => match fs.last().markup {
                Some(m) => {
                    let r = markup_code(base, a.1, m, 1, None);
                    (
                        match r.0 {
                            Ok(y) => Ok(x + helper_header(fs.last()) + y + "}\n"@),
                            Err(e) => Err(e),
                        },
                        r.1,
                    )
                },
                None => (Ok(x), a.1),
            },
        }
    }
}

/// Whether the component of `base` is a screen.
pub open spec fn is_screen(base: MarkupGen) -> bool {
    base.type_view() == Some("screen"@)
}

/// The package and the sorted imports of the wrapper.
pub open spec fn wrapper_preamble(
    package: Seq<char>,
    uses_routes: bool,
    base: MarkupGen,
    file: WhitehallFile,
) -> Seq<char> {
    "package "@ + package + "\n\n"@ + import_lines(
        sorted_distinct(wrapper_imports(package, is_screen(base), uses_routes, file)),
    ) + "\n"@
}

/// The signature of the wrapper and its first lines, up to the markup.
pub open spec fn wrapper_opening(
    name: Seq<char>,
    base: MarkupGen,
    w: MarkupGen,
    file: WhitehallFile,
) -> Seq<char> {
    let params = (if is_screen(base) {
        seq!["navController: NavController"@]
    } else {
        Seq::empty()
    }) + prop_params(file.props@);
    "@Composable\n"@ + "fun "@ + name + "("@ + joined(params) + ") {\n"@ + indent_text(1)
        + "val viewModel = viewModel<"@ + name + "ViewModel>()\n"@ + indent_text(1)
        + "val uiState by viewModel.uiState.collectAsState()\n"@ + plain_vals(w, file.state@)
        + derived_vals(w, file.state@) + "\n"@
}

/// Everything of the wrapper before its markup.
pub open spec fn wrapper_head(
    package: Seq<char>,
    name: Seq<char>,
    uses_routes: bool,
    base: MarkupGen,
    w: MarkupGen,
    file: WhitehallFile,
) -> Seq<char> {
    wrapper_preamble(package, uses_routes, base, file) + wrapper_opening(name, base, w, file)
}

/// The wrapper of component `name` (in `package`) of `file`: the package,
/// the sorted imports, the composable taking the navigation controller (for
/// a screen) and the props, getting its ViewModel and state, with its plain
/// and derived values and its markup (rendered with `w`), then the helper
/// composables (rendered with `base`).
pub open spec fn wrapper_code(
    package: Seq<char>,
    name: Seq<char>,
    uses_routes: bool,
    base: MarkupGen,
    w: MarkupGen,
    st: MarkupState,
    file: WhitehallFile,
) -> (Result<Seq<char>, Seq<char>>, MarkupState) {
    let head = wrapper_head(package, name, uses_routes, base, w, file);
    let m = markup_code(w, st, file.markup, 1, None);
    match m.0 {
        Err(e) => (Err(e), m.1),
        Ok(x) => {
            let h = helpers_code(base, m.1, file.functions@);
            match h.0 {
                Err(e) => (Err(e), h.1),
                Ok(y) => (Ok(head + x + "}\n"@ + y), h.1),
            }
        },
    }
}

// ===================== What can be rendered =====================

/// The markup of every helper composable among `fs` can be walked for its
/// imports and rendered with `base`.
pub open spec fn helpers_fine(base: MarkupGen, fs: Seq<FunctionDeclaration>) -> bool {
    forall|i: int|
        0 <= i < fs.len() ==> match #[trigger] fs[i].markup {
            Some(m) => markup_safe(m) && markup_fine(base, m, 1),
            None => true,
        }
}

/// The plain `val`s among `ss` can be transformed: the rewritten values are
/// short enough to re-indent.
pub open spec fn plain_vals_fine(w: MarkupGen, ss: Seq<StateDeclaration>) -> bool {
    forall|i: int|
        0 <= i < ss.len() && is_plain_val(#[trigger] ss[i]) ==> (1 + 4 * in_context(
            array_list(ss[i].initial_value@, false),
            w.ctx,
        ).len()) * 4 <= usize::MAX
}


// ===================== Building the wrapper =====================

/// `parts` joined by `, `.
fn build_joined(parts: &Vec<String>) -> (r: String)
    ensures
        r@ == joined(strs(parts@)),
{
    let mut out = String::new();
    let mut i: usize = 0;
    proof {
        assert(strs(parts@).take(0) =~= Seq::<Seq<char>>::empty());
    }
    while i < parts.len()
        invariant
            i <= parts@.len(),
            out@ == joined(strs(parts@).take(i as int)),
        decreases parts.len() - i,
    {
        proof {
            assert(strs(parts@).take(i + 1).drop_last() =~= strs(parts@).take(i as int));
        }
        if i > 0 {
            push_lit(&mut out, ", ");
        } else {
            proof {
                assert(strs(parts@).take(1)[0] == parts@[0]@);
            }
            let ghost e = out@;
            assert(e =~= Seq::<char>::empty());
        }
        push_string(&mut out, &parts[i]);
        i = i + 1;
    }
    proof {
        assert(strs(parts@).take(parts@.len() as int) =~= strs(parts@));
    }
    out
}

/// A copy of the strings `v`.
pub(crate) fn copy_strings(v: &Vec<String>) -> (r: Vec<String>)
    ensures
        r@ == v@,
{
    let mut r: Vec<String> = Vec::new();
    let mut i: usize = 0;
    while i < v.len()
        invariant
            i <= v@.len(),
            r@ == v@.take(i as int),
        decreases v.len() - i,
    {
        r.push(v[i].clone());
        proof {
            assert(r@ =~= v@.take(i + 1));
        }
        i = i + 1;
    }
    proof {
        assert(v@.take(v@.len() as int) =~= v@);
    }
    r
}

/// The names of the mutable states among `ss`.
fn build_mutable_names(ss: &Vec<StateDeclaration>) -> (r: Vec<String>)
    ensures
        strs(r@) == mutable_names(ss@),
{
    let mut r: Vec<String> = Vec::new();
    let mut i: usize = 0;
    proof {
        assert(ss@.take(0) =~= Seq::<StateDeclaration>::empty());
        assert(strs(r@) =~= Seq::<Seq<char>>::empty());
    }
    while i < ss.len()
        invariant
            i <= ss@.len(),
            strs(r@) == mutable_names(ss@.take(i as int)),
        decreases ss.len() - i,
    {
        proof {
            assert(ss@.take(i + 1).drop_last() =~= ss@.take(i as int));
            assert(ss@.take(i + 1).last() == ss@[i as int]);
        }
        let ghost r0 = strs(r@);
        if ss[i].mutable {
            r.push(lit(ss[i].name.as_str()));
            proof {
                assert(strs(r@) =~= r0.push(ss@[i as int].name@));
            }
        }
        i = i + 1;
    }
    proof {
        assert(ss@.take(ss@.len() as int) =~= ss@);
    }
    r
}

/// The names of the plain `val`s among `ss`.
fn build_plain_val_names(ss: &Vec<StateDeclaration>) -> (r: Vec<String>)
    ensures
        strs(r@) == plain_val_names(ss@),
{
    let mut r: Vec<String> = Vec::new();
    let mut i: usize = 0;
    proof {
        assert(ss@.take(0) =~= Seq::<StateDeclaration>::empty());
        assert(strs(r@) =~= Seq::<Seq<char>>::empty());
    }
    while i < ss.len()
        invariant
            i <= ss@.len(),
            strs(r@) == plain_val_names(ss@.take(i as int)),
        decreases ss.len() - i,
    {
        proof {
            assert(ss@.take(i + 1).drop_last() =~= ss@.take(i as int));
            assert(ss@.take(i + 1).last() == ss@[i as int]);
        }
        let ghost r0 = strs(r@);
        if !ss[i].mutable && !ss[i].is_derived_state {
            r.push(lit(ss[i].name.as_str()));
            proof {
                assert(strs(r@) =~= r0.push(ss@[i as int].name@));
            }
        }
        i = i + 1;
    }
    proof {
        assert(ss@.take(ss@.len() as int) =~= ss@);
    }
    r
}

/// The names of the functions `fs`.
fn build_function_names(fs: &Vec<FunctionDeclaration>) -> (r: Vec<String>)
    ensures
        strs(r@) == function_names_of(fs@),
{
    let mut r: Vec<String> = Vec::new();
    let mut i: usize = 0;
    proof {
        assert(fs@.take(0) =~= Seq::<FunctionDeclaration>::empty());
        assert(strs(r@) =~= Seq::<Seq<char>>::empty());
    }
    while i < fs.len()
        invariant
            i <= fs@.len(),
            strs(r@) == function_names_of(fs@.take(i as int)),
        decreases fs.len() - i,
    {
        proof {
            assert(fs@.take(i + 1).drop_last() =~= fs@.take(i as int));
            assert(fs@.take(i + 1).last() == fs@[i as int]);
        }
        let ghost r0 = strs(r@);
        r.push(lit(fs[i].name.as_str()));
        proof {
            assert(strs(r@) =~= r0.push(fs@[i as int].name@));
        }
        i = i + 1;
    }
    proof {
        assert(fs@.take(fs@.len() as int) =~= fs@);
    }
    r
}

/// A copy of the optimization plans `os`.
pub(crate) fn copy_plans(os: &Vec<crate::optimizer::Optimization>) -> (r: Vec<crate::optimizer::Optimization>)
    ensures
        same_plans(r@, os@),
{
    let mut r: Vec<crate::optimizer::Optimization> = Vec::new();
    let mut i: usize = 0;
    while i < os.len()
        invariant
            i <= os@.len(),
            r@.len() == i,
            forall|k: int|
                0 <= k < i ==> match (#[trigger] r@[k], os@[k]) {
                    (
                        crate::optimizer::Optimization::UseSingleTextView { text_node_ids: x },
                        crate::optimizer::Optimization::UseSingleTextView { text_node_ids: y },
                    ) => x@ == y@,
                    (x, y) => x == y,
                },
        decreases os.len() - i,
    {
        let o = match &os[i] {
            crate::optimizer::Optimization::UseRecyclerView { collection_name, confidence } => {
                crate::optimizer::Optimization::UseRecyclerView {
                    collection_name: collection_name.clone(),
                    confidence: *confidence,
                }
            },
            crate::optimizer::Optimization::UseSingleTextView { text_node_ids } => {
                let mut ids: Vec<usize> = Vec::new();
                let mut k: usize = 0;
                while k < text_node_ids.len()
                    invariant
                        k <= text_node_ids@.len(),
                        ids@ == text_node_ids@.take(k as int),
                    decreases text_node_ids.len() - k,
                {
                    ids.push(text_node_ids[k]);
                    proof {
                        assert(ids@ =~= text_node_ids@.take(k + 1));
                    }
                    k = k + 1;
                }
                proof {
                    assert(text_node_ids@.take(text_node_ids@.len() as int) =~= text_node_ids@);
                }
                crate::optimizer::Optimization::UseSingleTextView { text_node_ids: ids }
            },
            crate::optimizer::Optimization::UseDirectCanvas { component_id } => {
                crate::optimizer::Optimization::UseDirectCanvas { component_id: *component_id }
            },
        };
        r.push(o);
        i = i + 1;
    }
    r
}

/// A copy of the variable types `vs`.
pub(crate) fn copy_var_types(vs: &Vec<crate::compose_props::VarType>) -> (r: Vec<crate::compose_props::VarType>)
    ensures
        r@ == vs@,
{
    let mut r: Vec<crate::compose_props::VarType> = Vec::new();
    let mut i: usize = 0;
    while i < vs.len()
        invariant
            i <= vs@.len(),
            r@ == vs@.take(i as int),
        decreases vs.len() - i,
    {
        let v = &vs[i];
        r.push(
            crate::compose_props::VarType {
                name: v.name.clone(),
                type_str: v.type_str.clone(),
                default_value: v.default_value.clone(),
            },
        );
        proof {
            assert(r@ =~= vs@.take(i + 1));
        }
        i = i + 1;
    }
    proof {
        assert(vs@.take(vs@.len() as int) =~= vs@);
    }
    r
}

/// The generator of the wrapper of `file` made from `base`.
pub fn wrapper_gen(base: &MarkupGen, file: &WhitehallFile) -> (w: MarkupGen)
    ensures
        wrapper_of(w, *base, *file),
{
    MarkupGen {
        ctx: ExprContext {
            nullable_vars: copy_strings(&base.ctx.nullable_vars),
            in_viewmodel_wrapper: true,
            mutable_vars: build_mutable_names(&file.state),
            derived_props: build_plain_val_names(&file.state),
            function_names: build_function_names(&file.functions),
        },
        component_type: match &base.component_type {
            Some(t) => Some(t.clone()),
            None => None,
        },
        var_types: copy_var_types(&base.var_types),
        optimizations: copy_plans(&base.optimizations),
    }
}

/// Whether one of `ss` is a derived `val`.
fn has_derived_of(ss: &Vec<StateDeclaration>) -> (r: bool)
    ensures
        r == has_derived_state(ss@),
{
    let mut i: usize = 0;
    while i < ss.len()
        invariant
            i <= ss@.len(),
            forall|k: int| 0 <= k < i ==> !is_derived_val(#[trigger] ss@[k]),
        decreases ss.len() - i,
    {
        if !ss[i].mutable && ss[i].is_derived_state {
            assert(is_derived_val(ss@[i as int]));
            return true;
        }
        i = i + 1;
    }
    false
}

/// The prop and component imports of the markup of `file` and its helper
/// composables.
fn build_collected_imports(file: &WhitehallFile) -> (r: (Vec<String>, Vec<String>))
    requires
        markup_safe(file.markup),
        forall|i: int|
            0 <= i < file.functions@.len() ==> match #[trigger] file.functions@[i].markup {
                Some(m) => markup_safe(m),
                None => true,
            },
    ensures
        (strs(r.0@), strs(r.1@)) == collected_imports(*file),
{
    let mut pi: Vec<String> = Vec::new();
    let mut ci: Vec<String> = Vec::new();
    proof {
        assert(strs(pi@) =~= Seq::<Seq<char>>::empty());
        assert(strs(ci@) =~= Seq::<Seq<char>>::empty());
    }
    crate::compose_imports::collect_imports_recursive(&file.markup, &mut pi, &mut ci);
    let ghost acc = (strs(pi@), strs(ci@));
    let fs = &file.functions;
    let mut i: usize = 0;
    proof {
        assert(fs@.take(0) =~= Seq::<FunctionDeclaration>::empty());
    }
    while i < fs.len()
        invariant
            i <= fs@.len(),
            fs@ == file.functions@,
            forall|k: int|
                0 <= k < fs@.len() ==> match #[trigger] fs@[k].markup {
                    Some(m) => markup_safe(m),
                    None => true,
                },
            (strs(pi@), strs(ci@)) == helper_imports(acc, fs@.take(i as int)),
        decreases fs.len() - i,
    {
        proof {
            assert(fs@.take(i + 1).drop_last() =~= fs@.take(i as int));
            assert(fs@.take(i + 1).last() == fs@[i as int]);
        }
        match &fs[i].markup {
            Some(m) => {
                crate::compose_imports::collect_imports_recursive(m, &mut pi, &mut ci);
            },
            None => {},
        }
        i = i + 1;
    }
    proof {
        assert(fs@.take(fs@.len() as int) =~= fs@);
    }
    (pi, ci)
}

/// The imports of the wrapper (unsorted).
fn build_wrapper_imports(package: &str, uses_routes: bool, base: &MarkupGen, file: &WhitehallFile) -> (r:
    Vec<String>)
    requires
        markup_safe(file.markup),
        forall|i: int|
            0 <= i < file.functions@.len() ==> match #[trigger] file.functions@[i].markup {
                Some(m) => markup_safe(m),
                None => true,
            },
    ensures
        strs(r@) == wrapper_imports(package@, is_screen(*base), uses_routes, *file),
{
    let screen = match &base.component_type {
        Some(t) => str_eq(t.as_str(), "screen"),
        None => false,
    };
    let (pi, ci) = build_collected_imports(file);
    let mut v = pi;
    let ghost v0 = strs(v@);
    v.push(lit("androidx.compose.runtime.Composable"));
    v.push(lit("androidx.compose.runtime.collectAsState"));
    v.push(lit("androidx.compose.runtime.getValue"));
    let ghost v1 = strs(v@);
    proof {
        assert(v1 =~= v0 + seq![
            "androidx.compose.runtime.Composable"@,
            "androidx.compose.runtime.collectAsState"@,
            "androidx.compose.runtime.getValue"@,
        ]);
    }
    let derived = has_derived_of(&file.state);
    if derived {
        v.push(lit("androidx.compose.runtime.remember"));
        v.push(lit("androidx.compose.runtime.derivedStateOf"));
    }
    let ghost v2 = strs(v@);
    proof {
        assert(v2 =~= v1 + if derived {
            seq!["androidx.compose.runtime.remember"@, "androidx.compose.runtime.derivedStateOf"@]
        } else {
            Seq::<Seq<char>>::empty()
        });
    }
    crate::stores::push_resolved_imports(&mut v, package, &file.imports);
    crate::compose_components::append_all(&mut v, ci);
    let ghost v3 = strs(v@);
    v.push(lit("androidx.lifecycle.viewmodel.compose.viewModel"));
    if screen {
        v.push(lit("androidx.navigation.NavController"));
    }
    let ghost v4 = strs(v@);
    proof {
        assert(v4 =~= v3 + seq!["androidx.lifecycle.viewmodel.compose.viewModel"@] + if screen {
            seq!["androidx.navigation.NavController"@]
        } else {
            Seq::<Seq<char>>::empty()
        });
    }
    if uses_routes && screen {
        let mut rt = crate::compose::get_base_package(package);
        push_lit(&mut rt, ".routes.Routes");
        v.push(rt);
    }
    proof {
        assert(strs(v@) =~= v4 + if uses_routes && screen {
            seq![base_package(package@) + ".routes.Routes"@]
        } else {
            Seq::<Seq<char>>::empty()
        });
    }
    v
}

/// The parameter of prop `p`.
fn build_prop_param(p: &PropDeclaration) -> (r: String)
    ensures
        r@ == prop_param(*p),
{
    let mut r = lit(p.name.as_str());
    push_lit(&mut r, ": ");
    push_string(&mut r, &p.prop_type);
    match &p.default_value {
        Some(d) => {
            push_lit(&mut r, " = ");
            push_string(&mut r, d);
        },
        None => {
            proof {
                assert(p.name@ + ": "@ + p.prop_type@ + Seq::<char>::empty() =~= p.name@ + ": "@
                    + p.prop_type@);
            }
        },
    }
    r
}

/// The value of plain `val` `s` in the wrapper.
fn build_plain_value(w: &MarkupGen, s: &StateDeclaration) -> (r: String)
    requires
        w.ctx.names_ok(),
        (1 + 4 * in_context(array_list(s.initial_value@, false), w.ctx).len()) * 4 <= usize::MAX,
    ensures
        r@ == plain_value(*w, *s),
{
    let a = crate::compose::transform_array_literal(s.initial_value.as_str(), false);
    let v = crate::compose::transform_viewmodel_expression(
        a.as_str(),
        w.ctx.in_viewmodel_wrapper,
        &w.ctx.mutable_vars,
        &w.ctx.derived_props,
        &w.ctx.function_names,
    );
    if crate::text::str_contains(v.as_str(), "\n") {
        crate::compose_text::reindent_expression(v.as_str(), 1)
    } else {
        v
    }
}

/// The plain `val`s among `ss`.
fn build_plain_vals(w: &MarkupGen, ss: &Vec<StateDeclaration>) -> (r: String)
    requires
        w.ctx.names_ok(),
        plain_vals_fine(*w, ss@),
    ensures
        r@ == plain_vals(*w, ss@),
{
    let ind = crate::compose_text::indent_string(1);
    let mut out = String::new();
    let mut i: usize = 0;
    proof {
        assert(ss@.take(0) =~= Seq::<StateDeclaration>::empty());
    }
    while i < ss.len()
        invariant
            i <= ss@.len(),
            w.ctx.names_ok(),
            plain_vals_fine(*w, ss@),
            ind@ == indent_text(1),
            out@ == plain_vals(*w, ss@.take(i as int)),
        decreases ss.len() - i,
    {
        let s = &ss[i];
        proof {
            assert(ss@.take(i + 1).drop_last() =~= ss@.take(i as int));
            assert(ss@.take(i + 1).last() == ss@[i as int]);
        }
        let ghost o0 = out@;
        if !s.mutable && !s.is_derived_state {
            proof {
                assert(is_plain_val(ss@[i as int]));
            }
            let v = build_plain_value(w, s);
            push_string(&mut out, &ind);
            push_lit(&mut out, "val ");
            push_string(&mut out, &s.name);
            match &s.type_annotation {
                Some(t) => {
                    push_lit(&mut out, ": ");
                    push_string(&mut out, t);
                },
                None => {},
            }
            push_lit(&mut out, " = ");
            push_string(&mut out, &v);
            push_lit(&mut out, "\n");
            proof {
                assert(out@ =~= o0 + (indent_text(1) + "val "@ + s.name@ + match s.type_annotation {
                    Some(t) => ": "@ + t@,
                    None => Seq::<char>::empty(),
                } + " = "@ + plain_value(*w, *s) + "\n"@));
            }
        } else {
            proof {
                assert(out@ =~= o0 + Seq::<char>::empty());
            }
        }
        i = i + 1;
    }
    proof {
        assert(ss@.take(ss@.len() as int) =~= ss@);
    }
    out
}

/// The derived `val`s among `ss`.
fn build_derived_vals(w: &MarkupGen, ss: &Vec<StateDeclaration>) -> (r: String)
    requires
        w.ctx.names_ok(),
    ensures
        r@ == derived_vals(*w, ss@),
{
    let ind1 = crate::compose_text::indent_string(1);
    let ind2 = crate::compose_text::indent_string(2);
    let mut out = String::new();
    let mut i: usize = 0;
    proof {
        assert(ss@.take(0) =~= Seq::<StateDeclaration>::empty());
    }
    while i < ss.len()
        invariant
            i <= ss@.len(),
            w.ctx.names_ok(),
            ind1@ == indent_text(1),
            ind2@ == indent_text(2),
            out@ == derived_vals(*w, ss@.take(i as int)),
        decreases ss.len() - i,
    {
        let s = &ss[i];
        proof {
            assert(ss@.take(i + 1).drop_last() =~= ss@.take(i as int));
            assert(ss@.take(i + 1).last() == ss@[i as int]);
        }
        let ghost o0 = out@;
        if !s.mutable && s.is_derived_state {
            let v = crate::compose::transform_viewmodel_expression(
                s.initial_value.as_str(),
                w.ctx.in_viewmodel_wrapper,
                &w.ctx.mutable_vars,
                &w.ctx.derived_props,
                &w.ctx.function_names,
            );
            push_string(&mut out, &ind1);
            push_lit(&mut out, "val ");
            push_string(&mut out, &s.name);
            push_lit(&mut out, " by remember {\n");
            push_string(&mut out, &ind2);
            push_string(&mut out, &v);
            push_lit(&mut out, "\n");
            push_string(&mut out, &ind1);
            push_lit(&mut out, "}\n");
            proof {
                assert(out@ =~= o0 + (indent_text(1) + "val "@ + s.name@ + " by remember {\n"@
                    + indent_text(2) + in_context(s.initial_value@, w.ctx) + "\n"@ + indent_text(1)
                    + "}\n"@));
            }
        } else {
            proof {
                assert(out@ =~= o0 + Seq::<char>::empty());
            }
        }
        i = i + 1;
    }
    proof {
        assert(ss@.take(ss@.len() as int) =~= ss@);
    }
    out
}

/// The signature of the wrapper and its first lines, up to the markup.
fn build_wrapper_opening(name: &str, base: &MarkupGen, w: &MarkupGen, file: &WhitehallFile) -> (r:
    String)
    requires
        w.ctx.names_ok(),
        plain_vals_fine(*w, file.state@),
    ensures
        r@ == wrapper_opening(name@, *base, *w, *file),
{
    let screen = match &base.component_type {
        Some(t) => str_eq(t.as_str(), "screen"),
        None => false,
    };
    let mut params: Vec<String> = Vec::new();
    if screen {
        params.push(lit("navController: NavController"));
    }
    let ghost p0 = strs(params@);
    proof {
        assert(p0 =~= if screen {
            seq!["navController: NavController"@]
        } else {
            Seq::<Seq<char>>::empty()
        });
    }
    let ps = &file.props;
    let mut i: usize = 0;
    proof {
        assert(ps@.take(0) =~= Seq::<PropDeclaration>::empty());
        assert(strs(params@) =~= p0 + prop_params(ps@.take(0)));
    }
    while i < ps.len()
        invariant
            i <= ps@.len(),
            strs(params@) == p0 + prop_params(ps@.take(i as int)),
        decreases ps.len() - i,
    {
        proof {
            assert(ps@.take(i + 1).drop_last() =~= ps@.take(i as int));
            assert(ps@.take(i + 1).last() == ps@[i as int]);
        }
        let ghost q0 = strs(params@);
        params.push(build_prop_param(&ps[i]));
        proof {
            assert(strs(params@) =~= q0.push(prop_param(ps@[i as int])));
        }
        i = i + 1;
    }
    proof {
        assert(ps@.take(ps@.len() as int) =~= ps@);
    }
    let pj = build_joined(&params);
    let ind = crate::compose_text::indent_string(1);
    let mut out = lit("@Composable\n");
    push_lit(&mut out, "fun ");
    push_lit(&mut out, name);
    push_lit(&mut out, "(");
    push_string(&mut out, &pj);
    push_lit(&mut out, ") {\n");
    push_string(&mut out, &ind);
    push_lit(&mut out, "val viewModel = viewModel<");
    push_lit(&mut out, name);
    push_lit(&mut out, "ViewModel>()\n");
    push_string(&mut out, &ind);
    push_lit(&mut out, "val uiState by viewModel.uiState.collectAsState()\n");
    let pv = build_plain_vals(w, &file.state);
    push_string(&mut out, &pv);
    let dv = build_derived_vals(w, &file.state);
    push_string(&mut out, &dv);
    push_lit(&mut out, "\n");
    proof {
        assert(out@ =~= wrapper_opening(name@, *base, *w, *file));
    }
    out
}

#[verifier::spinoff_prover]
#[verifier::rlimit(40)]
proof fn lemma_helpers_err(base: MarkupGen, st: MarkupState, fs: Seq<FunctionDeclaration>, k: int)
    requires
        0 <= k <= fs.len(),
        helpers_code(base, st, fs.take(k)).0 is Err,
    ensures
        helpers_code(base, st, fs) == helpers_code(base, st, fs.take(k)),
    decreases fs.len() - k,
{
    if k < fs.len() {
        assert(fs.take(k + 1).drop_last() =~= fs.take(k));
        lemma_helpers_err(base, st, fs, k + 1);
    } else {
        assert(fs.take(k) =~= fs);
    }
}

/// The header of helper composable `f`.
fn build_helper_header(f: &FunctionDeclaration) -> (r: String)
    ensures
        r@ == helper_header(*f),
{
    let mut out = lit("\n@Composable\n");
    if f.is_suspend {
        push_lit(&mut out, "suspend ");
    }
    push_lit(&mut out, "fun ");
    push_string(&mut out, &f.name);
    push_lit(&mut out, "(");
    push_string(&mut out, &f.params);
    push_lit(&mut out, ")");
    match &f.return_type {
        Some(t) => {
            push_lit(&mut out, ": ");
            push_string(&mut out, t);
        },
        None => {},
    }
    push_lit(&mut out, " {\n");
    proof {
        assert(out@ =~= helper_header(*f));
    }
    out
}

/// The helper composables among `fs`, rendered with `base`.
fn generate_helpers(base: &MarkupGen, st: &mut MarkupState, fs: &Vec<FunctionDeclaration>) -> (r:
    Result<String, String>)
    requires
        base.ctx.names_ok(),
        helpers_fine(*base, fs@),
    ensures
        rendered(r, helpers_code(*base, *old(st), fs@).0),
        *final(st) == helpers_code(*base, *old(st), fs@).1,
{
    let ghost st0 = *st;
    let mut out = String::new();
    let mut i: usize = 0;
    proof {
        assert(fs@.take(0) =~= Seq::<FunctionDeclaration>::empty());
    }
    while i < fs.len()
        invariant
            i <= fs@.len(),
            base.ctx.names_ok(),
            helpers_fine(*base, fs@),
            st0 == *old(st),
            helpers_code(*base, st0, fs@.take(i as int)) == (
                Ok::<Seq<char>, Seq<char>>(out@),
                *st,
            ),
        decreases fs.len() - i,
    {
        let f = &fs[i];
        proof {
            assert(fs@.take(i + 1).drop_last() =~= fs@.take(i as int));
            assert(fs@.take(i + 1).last() == fs@[i as int]);
        }
        match &f.markup {
            Some(m) => {
                proof {
                    assert(markup_fine(*base, *m, 1));
                }
                let ghost o0 = out@;
                match crate::compose_markup::generate_markup_with_indent(base, st, m, 1) {
                    Err(e) => {
                        proof {
                            lemma_helpers_err(*base, st0, fs@, i + 1);
                        }
                        return Err(e);
                    },
                    Ok(y) => {
                        let h = build_helper_header(f);
                        push_string(&mut out, &h);
                        push_string(&mut out, &y);
                        push_lit(&mut out, "}\n");
                        proof {
                            assert(out@ =~= o0 + helper_header(*f) + y@ + "}\n"@);
                        }
                    },
                }
            },
            None => {},
        }
        i = i + 1;
    }
    proof {
        assert(fs@.take(fs@.len() as int) =~= fs@);
    }
    Ok(out)
}

/// The composable wrapper of component `component_name` (in `package`) of
/// `file`: its markup rendered with `w` (see `wrapper_gen`), its helper
/// composables with `base`.
pub fn generate_component_wrapper(
    package: &str,
    component_name: &str,
    uses_routes: bool,
    base: &MarkupGen,
    w: &MarkupGen,
    st: &mut MarkupState,
    file: &WhitehallFile,
) -> (r: Result<String, String>)
    requires
        base.ctx.names_ok(),
        w.ctx.names_ok(),
        markup_safe(file.markup),
        markup_fine(*w, file.markup, 1),
        helpers_fine(*base, file.functions@),
        plain_vals_fine(*w, file.state@),
    ensures
        rendered(r, wrapper_code(package@, component_name@, uses_routes, *base, *w, *old(st), *file).0),
        *final(st) == wrapper_code(
            package@,
            component_name@,
            uses_routes,
            *base,
            *w,
            *old(st),
            *file,
        ).1,
{
    proof {
        assert forall|i: int| 0 <= i < file.functions@.len() implies match #[trigger] file.functions@[i].markup {
            Some(m) => markup_safe(m),
            None => true,
        } by {
            assert(helpers_fine(*base, file.functions@));
        }
    }
    let imports = build_wrapper_imports(package, uses_routes, base, file);
    let sorted = crate::stores::sort_dedup(&imports);
    let mut out = lit("package ");
    push_lit(&mut out, package);
    push_lit(&mut out, "\n\n");
    crate::stores::push_import_lines(&mut out, &sorted);
    push_lit(&mut out, "\n");
    let opening = build_wrapper_opening(component_name, base, w, file);
    push_string(&mut out, &opening);
    let ghost head = out@;
    proof {
        assert(head =~= wrapper_head(package@, component_name@, uses_routes, *base, *w, *file));
    }
    match crate::compose_markup::generate_markup_with_indent(w, st, &file.markup, 1) {
        Err(e) => Err(e),
        Ok(x) => {
            push_string(&mut out, &x);
            push_lit(&mut out, "}\n");
            match generate_helpers(base, st, &file.functions) {
                Err(e) => Err(e),
                Ok(y) => {
                    push_string(&mut out, &y);
                    proof {
                        assert(out@ =~= head + x@ + "}\n"@ + y@);
                    }
                    Ok(out)
                },
            }
        },
    }
}


// ===================== Deciding what can be rendered =====================

/// Whether the markup of every helper composable among `fs` can be walked
/// and rendered with `base`.
pub(crate) fn helpers_fine_of(base: &MarkupGen, fs: &Vec<FunctionDeclaration>) -> (r: bool)
    requires
        base.ctx.names_ok(),
    ensures
        r == helpers_fine(*base, fs@),
{
    let mut i: usize = 0;
    while i < fs.len()
        invariant
            i <= fs@.len(),
            base.ctx.names_ok(),
            forall|k: int|
                0 <= k < i ==> match #[trigger] fs@[k].markup {
                    Some(m) => markup_safe(m) && markup_fine(*base, m, 1),
                    None => true,
                },
        decreases fs.len() - i,
    {
        match &fs[i].markup {
            Some(m) => {
                if !(crate::compose_imports::markup_safe_of(m) && crate::compose_markup::markup_fine_of(
                    base,
                    m,
                    1,
                )) {
                    proof {
                        assert(fs@[i as int].markup == Some(*m));
                    }
                    return false;
                }
            },
            None => {},
        }
        i = i + 1;
    }
    true
}

/// Whether the plain `val`s among `ss` can be transformed with `w`.
pub(crate) fn plain_vals_fine_of(w: &MarkupGen, ss: &Vec<StateDeclaration>) -> (r: bool)
    requires
        w.ctx.names_ok(),
    ensures
        r == plain_vals_fine(*w, ss@),
{
    let mut i: usize = 0;
    while i < ss.len()
        invariant
            i <= ss@.len(),
            w.ctx.names_ok(),
            forall|k: int|
                0 <= k < i && is_plain_val(#[trigger] ss@[k]) ==> (1 + 4 * in_context(
                    array_list(ss@[k].initial_value@, false),
                    w.ctx,
                ).len()) * 4 <= usize::MAX,
        decreases ss.len() - i,
    {
        if !ss[i].mutable && !ss[i].is_derived_state {
            let a = crate::compose::transform_array_literal(ss[i].initial_value.as_str(), false);
            let v = crate::compose_props::in_context_of(a.as_str(), &w.ctx);
            let n = crate::text::str_to_chars(v.as_str()).len();
            let fits = match n.checked_mul(4) {
                Some(x) => match x.checked_add(1) {
                    Some(y) => y.checked_mul(4).is_some(),
                    None => false,
                },
                None => false,
            };
            if !fits {
                proof {
                    assert(is_plain_val(ss@[i as int]));
                }
                return false;
            }
        }
        i = i + 1;
    }
    true
}

} // verus!
