//! The body of a standard Compose component before its markup: its state,
//! its functions and its lifecycle hooks.

use vstd::prelude::*;

use crate::analyzer::{StoreInfo, StoreRegistry};
use crate::ast::{FunctionDeclaration, LifecycleHook, StateDeclaration, WhitehallFile};
use crate::compose::{array_list, range_list, replaced, route_alias};
use crate::compose_props::VarType;
use crate::compose_scan::instantiated_store;
use crate::compose_text::multiline_value;
use crate::compose_modifiers::ends_with;
use crate::stores::inferred_type;
use crate::compose_components::{starts, MarkupGen, MarkupState};
use crate::compose_imports::strs;
use crate::compose_markup::{markup_code, markup_fine, rendered};
use crate::compose_text::{lead_bytes, lines_of, trim_start};
use crate::stores::fetch_call;
use crate::text::{lit, push_lit, push_string, seq_contains, spec_trim, str_contains};
use crate::view::indent_text;

verus! {

// ===================== Lines of code =====================

/// `l` with its `$fetch(` call turned into a Ktor request, when it has one.
pub open spec fn fetched(l: Seq<char>) -> Seq<char> {
    if seq_contains(l, "$fetch("@) {
        fetch_call(l)
    } else {
        l
    }
}

/// A line of a function body: `$routes` paths as `Routes`, screen
/// parameters read directly, `$fetch(` as a Ktor request, and for a screen
/// `$navigate(` through the navigation controller.
pub open spec fn body_line(l: Seq<char>, is_screen: bool) -> Seq<char> {
    let b = fetched(replaced(route_alias(l), "$screen.params."@, Seq::empty()));
    if is_screen {
        replaced(b, "$navigate("@, "navController.navigate("@)
    } else {
        b
    }
}

/// Whether code line `t` starts (after white space) a coroutine.
pub open spec fn launches_line(t: Seq<char>) -> bool {
    starts(spec_trim(t), "launch "@) || starts(spec_trim(t), "launch{"@)
}

/// The lines `ls` of the body of `f`, one step inside the function; a
/// coroutine started by a function that does not suspend runs in the
/// component's scope.
pub open spec fn body_lines(ls: Seq<Seq<char>>, f: FunctionDeclaration, is_screen: bool) -> Seq<
    char,
>
    decreases ls.len(),
{
    if ls.len() == 0 {
        Seq::empty()
    } else {
        let t = body_line(ls.last(), is_screen);
        body_lines(ls.drop_last(), f, is_screen) + indent_text(1) + "    "@ + (if !f.is_suspend
            && launches_line(t) {
            "coroutineScope."@
        } else {
            Seq::empty()
        }) + t + "\n"@
    }
}

/// The signature line of function `f`, up to its opening brace.
pub open spec fn fun_header(f: FunctionDeclaration) -> Seq<char> {
    (if f.is_suspend {
        "suspend "@
    } else {
        Seq::empty()
    }) + "fun "@ + f.name@ + "("@ + f.params@ + ")"@ + match f.return_type {
        Some(t) => ": "@ + t@,
        None => Seq::empty(),
    } + " {\n"@
}

/// The closing line of a plain function: after the lifecycle hooks it is
/// followed by a blank line.
pub open spec fn fun_close(after: bool) -> Seq<char> {
    if after {
        "}\n\n"@
    } else {
        "}\n"@
    }
}

/// Function `f` inside the component: a helper composable (its markup
/// rendered two steps in, after a blank line when the functions follow the
/// lifecycle hooks), or a plain function with its body lines.
pub open spec fn function_code(
    g: MarkupGen,
    st: MarkupState,
    f: FunctionDeclaration,
    is_screen: bool,
    after: bool,
) -> (Result<Seq<char>, Seq<char>>, MarkupState) {
    match f.markup {
        Some(m) => {
            let r = markup_code(g, st, m, 2, None);
            (
                match r.0 {
                    Ok(y) => Ok(
                        (if after {
                            "\n"@
                        } else {
                            Seq::empty()
                        }) + indent_text(1) + "@Composable\n"@ + indent_text(1) + fun_header(f) + y
                            + indent_text(1) + "}\n"@,
                    ),
                    Err(e) => Err(e),
                },
                r.1,
            )
        },
        None => (
            Ok(
                indent_text(1) + fun_header(f) + body_lines(lines_of(f.body@), f, is_screen)
                    + indent_text(1) + fun_close(after),
            ),
            st,
        ),
    }
}

/// The functions `fs` one after the other (the first error ends them).
pub open spec fn functions_code(
    g: MarkupGen,
    st: MarkupState,
    fs: Seq<FunctionDeclaration>,
    is_screen: bool,
    after: bool,
) -> (Result<Seq<char>, Seq<char>>, MarkupState)
    decreases fs.len(),
{
    if fs.len() == 0 {
        (Ok(Seq::empty()), st)
    } else {
        let a = functions_code(g, st, fs.drop_last(), is_screen, after);
        match a.0 {
            Err(e) => (Err(e), a.1),
            Ok(x) => {
                let r = function_code(g, a.1, fs.last(), is_screen, after);
                (
                    match r.0 {
                        Ok(y) => Ok(x + y),
                        Err(e) => Err(e),
                    },
                    r.1,
                )
            },
        }
    }
}

/// Every helper composable among `fs` can be rendered two steps in.
pub open spec fn functions_fine(g: MarkupGen, fs: Seq<FunctionDeclaration>) -> bool {
    forall|i: int|
        0 <= i < fs.len() ==> match #[trigger] fs[i].markup {
            Some(m) => markup_fine(g, m, 2),
            None => true,
        }
}


// ===================== State =====================

/// The initial value of state `s` with its list literals (mutable for a
/// `var`) and range literals rewritten.
pub open spec fn state_value(s: StateDeclaration) -> Seq<char> {
    range_list(array_list(s.initial_value@, s.mutable))
}

/// The line of mutable state `s`: remembered mutable state, typed when it is
/// declared with a type.
pub open spec fn var_line(s: StateDeclaration) -> Seq<char> {
    indent_text(1) + "var "@ + s.name@ + " by remember { mutableStateOf"@ + match s.type_annotation {
        Some(t) => "<"@ + t@ + ">"@,
        None => Seq::empty(),
    } + "("@ + state_value(s) + ") }\n"@
}

/// The lines of the mutable state among `ss`.
pub open spec fn var_lines(ss: Seq<StateDeclaration>) -> Seq<char>
    decreases ss.len(),
{
    if ss.len() == 0 {
        Seq::empty()
    } else {
        var_lines(ss.drop_last()) + if ss.last().mutable {
            var_line(ss.last())
        } else {
            Seq::empty()
        }
    }
}

/// The line(s) of computed state `s`: `$scope()` as a remembered coroutine
/// scope; a registered store as its ViewModel (by Hilt when the store uses
/// Hilt or injection) with its collected UI state; derived state remembered
/// with its value laid out one step further in; else a value, laid out over
/// its lines when typed.
pub open spec fn val_line(registry: Option<&StoreRegistry>, s: StateDeclaration) -> Seq<char> {
    let v = state_value(s);
    indent_text(1) + if spec_trim(v) == "$scope()"@ {
        "val "@ + s.name@ + " = rememberCoroutineScope()\n"@
    } else {
        match instantiated_store(registry, v) {
            Some(info) => store_val(s.name@, info),
            None => value_val(s, v),
        }
    }
}

/// The ViewModel of store `info` held in state `name`, and its collected UI
/// state.
pub open spec fn store_val(name: Seq<char>, info: StoreInfo) -> Seq<char> {
    "val "@ + name + " = "@ + (if info.has_hilt || info.has_inject {
        "hiltViewModel<"@
    } else {
        "viewModel<"@
    }) + info.class_name@ + ">()\n"@ + indent_text(1) + "val uiState by "@ + name
        + ".uiState.collectAsState()\n"@
}

/// Computed state `s` with value `v`: derived state remembered with its
/// value one step further in, else the value (laid out over its lines when
/// typed).
pub open spec fn value_val(s: StateDeclaration, v: Seq<char>) -> Seq<char> {
    if s.is_derived_state {
        "val "@ + s.name@ + " by remember {\n"@ + indent_text(1) + "    "@ + multiline_value(v, 2)
            + "\n"@ + indent_text(1) + "}\n"@
    } else {
        match s.type_annotation {
            Some(t) => "val "@ + s.name@ + ": "@ + t@ + " = "@ + multiline_value(v, 1) + "\n"@,
            None => "val "@ + s.name@ + " = "@ + v + "\n"@,
        }
    }
}

/// The lines of the computed state among `ss`.
pub open spec fn val_lines(registry: Option<&StoreRegistry>, ss: Seq<StateDeclaration>) -> Seq<char>
    decreases ss.len(),
{
    if ss.len() == 0 {
        Seq::empty()
    } else {
        val_lines(registry, ss.drop_last()) + if ss.last().mutable {
            Seq::empty()
        } else {
            val_line(registry, ss.last())
        }
    }
}

/// Whether one of `ss` is mutable (`m`) or computed (`!m`).
pub open spec fn has_state(ss: Seq<StateDeclaration>, m: bool) -> bool {
    exists|i: int| 0 <= i < ss.len() && (#[trigger] ss[i]).mutable == m
}

/// The state `ss` of a component: the mutable state, then the computed
/// state, each followed by a blank line when there is any.
pub open spec fn state_code(registry: Option<&StoreRegistry>, ss: Seq<StateDeclaration>) -> Seq<
    char,
> {
    var_lines(ss) + (if has_state(ss, true) {
        "\n"@
    } else {
        Seq::empty()
    }) + val_lines(registry, ss) + (if has_state(ss, false) {
        "\n"@
    } else {
        Seq::empty()
    })
}

/// The names of the state among `ss` declared with a nullable type.
pub open spec fn nullable_names(ss: Seq<StateDeclaration>) -> Seq<Seq<char>>
    decreases ss.len(),
{
    if ss.len() == 0 {
        Seq::empty()
    } else {
        nullable_names(ss.drop_last()) + match ss.last().type_annotation {
            Some(t) => if ends_with(t@, "?"@) {
                seq![ss.last().name@]
            } else {
                Seq::empty()
            },
            None => Seq::empty(),
        }
    }
}

/// The name, type (declared, else inferred from the value) and value of
/// each mutable state among `ss`.
pub open spec fn state_var_types(ss: Seq<StateDeclaration>) -> Seq<(Seq<char>, Seq<char>, Seq<char>)>
    decreases ss.len(),
{
    if ss.len() == 0 {
        Seq::empty()
    } else {
        let s = ss.last();
        state_var_types(ss.drop_last()) + if s.mutable {
            seq![
                (
                    s.name@,
                    match s.type_annotation {
                        Some(t) => t@,
                        None => inferred_type(state_value(s)),
                    },
                    state_value(s),
                ),
            ]
        } else {
            Seq::empty()
        }
    }
}

/// The variable types `vs` as text.
pub open spec fn var_views(vs: Seq<VarType>) -> Seq<(Seq<char>, Seq<char>, Seq<char>)> {
    vs.map_values(|v: VarType| (v.name@, v.type_str@, v.default_value@))
}

/// Whether `g` renders the markup of `file` as a standard component made
/// from `base`: the state declared with a nullable type is nullable, and
/// the type and value of each mutable state are known for bindings.
pub open spec fn standard_of(g: MarkupGen, base: MarkupGen, file: WhitehallFile) -> bool {
    &&& strs(g.ctx.nullable_vars@) == strs(base.ctx.nullable_vars@) + nullable_names(file.state@)
    &&& g.ctx.in_viewmodel_wrapper == base.ctx.in_viewmodel_wrapper
    &&& strs(g.ctx.mutable_vars@) == strs(base.ctx.mutable_vars@)
    &&& strs(g.ctx.derived_props@) == strs(base.ctx.derived_props@)
    &&& strs(g.ctx.function_names@) == strs(base.ctx.function_names@)
    &&& g.type_view() == base.type_view()
    &&& var_views(g.var_types@) == var_views(base.var_types@) + state_var_types(file.state@)
    &&& crate::compose_wrapper::same_plans(g.optimizations@, base.optimizations@)
}


// ===================== Building the state =====================

/// The initial value of `s`, rewritten.
fn state_value_of(s: &StateDeclaration) -> (r: String)
    ensures
        r@ == state_value(*s),
{
    let listed = crate::compose::transform_array_literal(s.initial_value.as_str(), s.mutable);
    crate::compose::transform_range_literal(listed.as_str())
}

/// The line of mutable state `s`.
fn push_var_line(out: &mut String, s: &StateDeclaration, v: &String)
    requires
        v@ == state_value(*s),
    ensures
        final(out)@ == old(out)@ + var_line(*s),
{
    let ghost o0 = out@;
    push_lit(out, "    ");
    push_lit(out, "var ");
    push_string(out, &s.name);
    push_lit(out, " by remember { mutableStateOf");
    match &s.type_annotation {
        Some(t) => {
            push_lit(out, "<");
            push_string(out, t);
            push_lit(out, ">");
        },
        None => {},
    }
    push_lit(out, "(");
    push_string(out, v);
    push_lit(out, ") }\n");
    proof {
        reveal_with_fuel(indent_text, 2);
        assert(out@ =~= o0 + var_line(*s));
    }
}

/// The ViewModel of store `info` held in state `name`.
fn build_store_val(name: &String, info: &StoreInfo) -> (r: String)
    ensures
        r@ == store_val(name@, *info),
{
    let mut out = lit("val ");
    push_string(&mut out, name);
    push_lit(&mut out, " = ");
    if info.has_hilt || info.has_inject {
        push_lit(&mut out, "hiltViewModel<");
    } else {
        push_lit(&mut out, "viewModel<");
    }
    push_string(&mut out, &info.class_name);
    push_lit(&mut out, ">()\n");
    push_lit(&mut out, "    ");
    push_lit(&mut out, "val uiState by ");
    push_string(&mut out, name);
    push_lit(&mut out, ".uiState.collectAsState()\n");
    proof {
        reveal_with_fuel(indent_text, 2);
        assert(out@ =~= store_val(name@, *info));
    }
    out
}

/// Computed state `s` with value `v`, when it is no store.
fn build_value_val(s: &StateDeclaration, v: &String) -> (r: String)
    ensures
        r@ == value_val(*s, v@),
{
    let mut out = lit("val ");
    push_string(&mut out, &s.name);
    if s.is_derived_state {
        push_lit(&mut out, " by remember {\n");
        push_lit(&mut out, "    ");
        push_lit(&mut out, "    ");
        let fv = crate::compose_text::format_multiline_value(v.as_str(), 2);
        push_string(&mut out, &fv);
        push_lit(&mut out, "\n");
        push_lit(&mut out, "    ");
        push_lit(&mut out, "}\n");
        proof {
            reveal_with_fuel(indent_text, 2);
            assert(out@ =~= value_val(*s, v@));
        }
    } else {
        match &s.type_annotation {
            Some(t) => {
                push_lit(&mut out, ": ");
                push_string(&mut out, t);
                push_lit(&mut out, " = ");
                let fv = crate::compose_text::format_multiline_value(v.as_str(), 1);
                push_string(&mut out, &fv);
                push_lit(&mut out, "\n");
                proof {
                    assert(out@ =~= value_val(*s, v@));
                }
            },
            None => {
                push_lit(&mut out, " = ");
                push_string(&mut out, v);
                push_lit(&mut out, "\n");
                proof {
                    assert(out@ =~= value_val(*s, v@));
                }
            },
        }
    }
    out
}

/// The line(s) of computed state `s`.
fn push_val_line(out: &mut String, registry: Option<&StoreRegistry>, s: &StateDeclaration, v: &String)
    requires
        registry matches Some(reg) ==> reg.wf(),
        v@ == state_value(*s),
    ensures
        final(out)@ == old(out)@ + val_line(registry, *s),
{
    proof {
        reveal_strlit("$scope()");
    }
    let ghost o0 = out@;
    push_lit(out, "    ");
    let tv = crate::text::trim_str(v.as_str());
    if crate::text::str_eq(tv.as_str(), "$scope()") {
        push_lit(out, "val ");
        push_string(out, &s.name);
        push_lit(out, " = rememberCoroutineScope()\n");
    } else {
        match crate::compose_scan::detect_store_instantiation(v.as_str(), registry) {
            Some(info) => {
                let x = build_store_val(&s.name, &info);
                push_string(out, &x);
                proof {
                    let b = instantiated_store(registry, v@)->0;
                    assert(store_val(s.name@, info) == store_val(s.name@, b));
                }
            },
            None => {
                let x = build_value_val(s, v);
                push_string(out, &x);
            },
        }
    }
    proof {
        reveal_with_fuel(indent_text, 2);
        assert(out@ =~= o0 + val_line(registry, *s));
    }
}

/// The state `ss` of a component.
#[verifier::spinoff_prover]
pub fn generate_state(registry: Option<&StoreRegistry>, ss: &Vec<StateDeclaration>) -> (r: String)
    requires
        registry matches Some(reg) ==> reg.wf(),
    ensures
        r@ == state_code(registry, ss@),
{
    let mut vars = String::new();
    let mut vals = String::new();
    let mut any_var = false;
    let mut any_val = false;
    let mut i: usize = 0;
    proof {
        assert(ss@.take(0) =~= Seq::<StateDeclaration>::empty());
    }
    while i < ss.len()
        invariant
            i <= ss@.len(),
            registry matches Some(reg) ==> reg.wf(),
            vars@ == var_lines(ss@.take(i as int)),
            vals@ == val_lines(registry, ss@.take(i as int)),
            any_var == has_state(ss@.take(i as int), true),
            any_val == has_state(ss@.take(i as int), false),
        decreases ss.len() - i,
    {
        let ghost pre = ss@.take(i as int);
        proof {
            assert(ss@.take(i + 1).drop_last() =~= pre);
            assert(ss@.take(i + 1).last() == ss@[i as int]);
        }
        let s = &ss[i];
        let v = state_value_of(s);
        let ghost vars0 = vars@;
        let ghost vals0 = vals@;
        if s.mutable {
            push_var_line(&mut vars, s, &v);
            any_var = true;
            proof {
                assert(vals@ =~= vals0 + Seq::<char>::empty());
            }
        } else {
            push_val_line(&mut vals, registry, s, &v);
            any_val = true;
            proof {
                assert(vars@ =~= vars0 + Seq::<char>::empty());
            }
        }
        proof {
            let nxt = ss@.take(i + 1);
            assert(nxt[i as int] == ss@[i as int]);
            if has_state(nxt, true) {
                let k = choose|k: int| 0 <= k < nxt.len() && (#[trigger] nxt[k]).mutable == true;
                if k < i {
                    assert(pre[k] == nxt[k]);
                }
            }
            if has_state(nxt, false) {
                let k = choose|k: int| 0 <= k < nxt.len() && (#[trigger] nxt[k]).mutable == false;
                if k < i {
                    assert(pre[k] == nxt[k]);
                }
            }
            if has_state(pre, true) {
                let k = choose|k: int| 0 <= k < pre.len() && (#[trigger] pre[k]).mutable == true;
                assert(nxt[k] == pre[k]);
            }
            if has_state(pre, false) {
                let k = choose|k: int| 0 <= k < pre.len() && (#[trigger] pre[k]).mutable == false;
                assert(nxt[k] == pre[k]);
            }
        }
        i = i + 1;
    }
    proof {
        assert(ss@.take(ss@.len() as int) =~= ss@);
    }
    let mut out = vars;
    if any_var {
        push_lit(&mut out, "\n");
    }
    push_string(&mut out, &vals);
    if any_val {
        push_lit(&mut out, "\n");
    }
    proof {
        assert(out@ =~= state_code(registry, ss@));
    }
    out
}


/// The generator of the markup of `file` as a standard component made
/// from `base`.
pub fn standard_gen(base: &MarkupGen, file: &WhitehallFile) -> (g: MarkupGen)
    requires
    ensures
        standard_of(g, *base, *file),
        base.ctx.names_ok() ==> g.ctx.names_ok(),
{
    let ss = &file.state;
    let mut nullable = crate::compose_wrapper::copy_strings(&base.ctx.nullable_vars);
    let mut vts = crate::compose_wrapper::copy_var_types(&base.var_types);
    let ghost n0 = strs(nullable@);
    let ghost t0 = var_views(vts@);
    let mut i: usize = 0;
    proof {
        assert(ss@.take(0) =~= Seq::<StateDeclaration>::empty());
        assert(strs(nullable@) =~= n0 + nullable_names(ss@.take(0)));
        assert(var_views(vts@) =~= t0 + state_var_types(ss@.take(0)));
    }
    while i < ss.len()
        invariant
            i <= ss@.len(),
            ss@ == file.state@,
            strs(nullable@) == n0 + nullable_names(ss@.take(i as int)),
            var_views(vts@) == t0 + state_var_types(ss@.take(i as int)),
        decreases ss.len() - i,
    {
        proof {
            assert(ss@.take(i + 1).drop_last() =~= ss@.take(i as int));
            assert(ss@.take(i + 1).last() == ss@[i as int]);
        }
        let s = &ss[i];
        let ghost nb = strs(nullable@);
        match &s.type_annotation {
            Some(t) => {
                let tv = crate::text::str_to_chars(t.as_str());
                if crate::compose_modifiers::chars_end_with(&tv, "?") {
                    nullable.push(s.name.clone());
                    proof {
                        assert(strs(nullable@) =~= nb + seq![s.name@]);
                    }
                } else {
                    proof {
                        assert(strs(nullable@) =~= nb + Seq::<Seq<char>>::empty());
                    }
                }
            },
            None => {
                proof {
                    assert(strs(nullable@) =~= nb + Seq::<Seq<char>>::empty());
                }
            },
        }
        let ghost vb = var_views(vts@);
        if s.mutable {
            let v = state_value_of(s);
            let t = match &s.type_annotation {
                Some(t) => t.clone(),
                None => crate::stores::infer_type_from_value(v.as_str()),
            };
            vts.push(VarType { name: s.name.clone(), type_str: t, default_value: v });
            proof {
                assert(var_views(vts@) =~= vb + seq![
                    (
                        s.name@,
                        match s.type_annotation {
                            Some(t) => t@,
                            None => inferred_type(state_value(*s)),
                        },
                        state_value(*s),
                    ),
                ]);
            }
        } else {
            proof {
                assert(var_views(vts@) =~= vb + Seq::<(Seq<char>, Seq<char>, Seq<char>)>::empty());
            }
        }
        i = i + 1;
    }
    proof {
        assert(ss@.take(ss@.len() as int) =~= ss@);
    }
    let g = MarkupGen {
        ctx: crate::compose_text::ExprContext {
            nullable_vars: nullable,
            in_viewmodel_wrapper: base.ctx.in_viewmodel_wrapper,
            mutable_vars: crate::compose_wrapper::copy_strings(&base.ctx.mutable_vars),
            derived_props: crate::compose_wrapper::copy_strings(&base.ctx.derived_props),
            function_names: crate::compose_wrapper::copy_strings(&base.ctx.function_names),
        },
        component_type: match &base.component_type {
            Some(t) => Some(t.clone()),
            None => None,
        },
        var_types: vts,
        optimizations: crate::compose_wrapper::copy_plans(&base.optimizations),
    };
    proof {
        if base.ctx.names_ok() && base.ctx.in_viewmodel_wrapper {
            assert forall|k: int| 0 <= k < g.ctx.mutable_vars@.len() implies crate::compose::update_name_ok(
                #[trigger] g.ctx.mutable_vars@[k]@,
            ) by {
                assert(strs(g.ctx.mutable_vars@)[k] == strs(base.ctx.mutable_vars@)[k]);
                assert(crate::compose::update_name_ok(base.ctx.mutable_vars@[k]@));
            }
        }
    }
    g
}

// ===================== Lifecycle hooks =====================

/// `2 * n` spaces.
pub open spec fn pad(n: nat) -> Seq<char> {
    Seq::new(2 * n, |j: int| ' ')
}

/// A line of an `onMount` body inside its effect: its indentation halved
/// in steps of two spaces, screen parameters read directly, `$fetch(` as a
/// Ktor request, a coroutine started in the component's scope.
pub open spec fn hook_line(l: Seq<char>) -> Seq<char> {
    let t = fetched(replaced(trim_start(l), "$screen.params."@, Seq::empty()));
    indent_text(1) + "    "@ + pad(lead_bytes(l) / 2) + (if launches_line(t) {
        "coroutineScope."@ + spec_trim(t)
    } else {
        t
    }) + "\n"@
}

/// The nonblank lines of an `onMount` body.
pub open spec fn hook_lines(ls: Seq<Seq<char>>) -> Seq<char>
    decreases ls.len(),
{
    if ls.len() == 0 {
        Seq::empty()
    } else {
        hook_lines(ls.drop_last()) + if spec_trim(ls.last()).len() == 0 {
            Seq::empty()
        } else {
            hook_line(ls.last())
        }
    }
}

/// The nonblank lines of an `onDispose` body, trimmed, inside its block.
pub open spec fn dispose_lines(ls: Seq<Seq<char>>) -> Seq<char>
    decreases ls.len(),
{
    if ls.len() == 0 {
        Seq::empty()
    } else {
        dispose_lines(ls.drop_last()) + if spec_trim(ls.last()).len() == 0 {
            Seq::empty()
        } else {
            indent_text(1) + "        "@ + spec_trim(ls.last()) + "\n"@
        }
    }
}

/// The first hook of kind `t` among `hs`.
pub open spec fn first_hook(hs: Seq<LifecycleHook>, t: Seq<char>) -> Option<LifecycleHook>
    decreases hs.len(),
{
    if hs.len() == 0 {
        None
    } else if hs[0].hook_type@ == t {
        Some(hs[0])
    } else {
        first_hook(hs.drop_first(), t)
    }
}

/// One `LaunchedEffect` for each `onMount` hook among `hs`.
pub open spec fn launched_effects(hs: Seq<LifecycleHook>) -> Seq<char>
    decreases hs.len(),
{
    if hs.len() == 0 {
        Seq::empty()
    } else {
        launched_effects(hs.drop_last()) + if hs.last().hook_type@ == "onMount"@ {
            indent_text(1) + "LaunchedEffect(Unit) {\n"@ + hook_lines(lines_of(hs.last().body@))
                + indent_text(1) + "}\n\n"@
        } else {
            Seq::empty()
        }
    }
}

/// The lifecycle hooks `hs`: with both `onMount` and `onDispose` one
/// `DisposableEffect` holding the first of each, else a `LaunchedEffect`
/// for each `onMount`.
pub open spec fn lifecycle_code(hs: Seq<LifecycleHook>) -> Seq<char> {
    let mount = first_hook(hs, "onMount"@);
    let dispose = first_hook(hs, "onDispose"@);
    if mount is Some && dispose is Some {
        indent_text(1) + "DisposableEffect(Unit) {\n"@ + hook_lines(lines_of(mount->0.body@))
            + "\n"@ + indent_text(1) + "    onDispose {\n"@ + dispose_lines(
            lines_of(dispose->0.body@),
        ) + indent_text(1) + "    }\n"@ + indent_text(1) + "}\n\n"@
    } else {
        launched_effects(hs)
    }
}

/// Whether a function among `fs` that does not suspend starts a coroutine.
pub open spec fn functions_launch(fs: Seq<FunctionDeclaration>) -> bool {
    exists|i: int|
        0 <= i < fs.len() && !(#[trigger] fs[i]).is_suspend && (seq_contains(
            fs[i].body@,
            "launch "@,
        ) || seq_contains(fs[i].body@, "launch{"@))
}

// ===================== Building lines =====================

/// `l` with its `$fetch(` call turned into a Ktor request.
fn fetched_of(l: String) -> (r: String)
    ensures
        r@ == fetched(l@),
{
    if str_contains(l.as_str(), "$fetch(") {
        crate::stores::transform_fetch_call(l.as_str())
    } else {
        l
    }
}

/// A line of a function body, transformed.
fn body_line_of(l: &str, is_screen: bool) -> (r: String)
    ensures
        r@ == body_line(l@, is_screen),
{
    proof {
        reveal_strlit("$screen.params.");
        reveal_strlit("$navigate(");
        reveal_strlit("");
        assert(""@ =~= Seq::<char>::empty());
    }
    let a = crate::compose::transform_route_aliases(l);
    let b = fetched_of(crate::compose::replace_all(a.as_str(), "$screen.params.", ""));
    if is_screen {
        crate::compose::replace_all(b.as_str(), "$navigate(", "navController.navigate(")
    } else {
        b
    }
}

/// Whether `t` starts (after white space) a coroutine.
fn launches_line_of(t: &str) -> (r: bool)
    ensures
        r == launches_line(t@),
{
    let tt = crate::text::trim_str(t);
    crate::text::str_starts_with(tt.as_str(), "launch ") || crate::text::str_starts_with(
        tt.as_str(),
        "launch{",
    )
}

/// The signature line of `f`.
fn fun_header_of(f: &FunctionDeclaration) -> (r: String)
    ensures
        r@ == fun_header(*f),
{
    let mut out = String::new();
    if f.is_suspend {
        push_lit(&mut out, "suspend ");
    }
    push_lit(&mut out, "fun ");
    push_string(&mut out, &f.name);
    push_lit(&mut out, "(");
    push_string(&mut out, &f.params);
    push_lit(&mut out, ")");
    match &f.return_type {
        Some(t) => {
            push_lit(&mut out, ": ");
            push_string(&mut out, t);
        },
        None => {},
    }
    push_lit(&mut out, " {\n");
    proof {
        assert(out@ =~= fun_header(*f));
    }
    out
}

/// The body lines of `f`.
fn push_body_lines(out: &mut String, f: &FunctionDeclaration, is_screen: bool)
    ensures
        final(out)@ == old(out)@ + body_lines(lines_of(f.body@), *f, is_screen),
{
    let ls = crate::compose_text::str_lines(f.body.as_str());
    let ghost l = strs(ls@);
    let ghost o0 = out@;
    let mut i: usize = 0;
    proof {
        assert(l.take(0) =~= Seq::<Seq<char>>::empty());
        assert(out@ =~= o0 + body_lines(l.take(0), *f, is_screen));
    }
    while i < ls.len()
        invariant
            i <= ls@.len(),
            l == strs(ls@),
            l == lines_of(f.body@),
            o0 == old(out)@,
            out@ == o0 + body_lines(l.take(i as int), *f, is_screen),
        decreases ls.len() - i,
    {
        proof {
            assert(l.take(i + 1).drop_last() =~= l.take(i as int));
            assert(l.take(i + 1).last() == ls@[i as int]@);
        }
        let ghost before = out@;
        let t = body_line_of(ls[i].as_str(), is_screen);
        push_lit(out, "    ");
        push_lit(out, "    ");
        if !f.is_suspend && launches_line_of(t.as_str()) {
            push_lit(out, "coroutineScope.");
        }
        push_string(out, &t);
        push_lit(out, "\n");
        proof {
            reveal_with_fuel(indent_text, 2);
            assert(out@ =~= before + indent_text(1) + "    "@ + (if !f.is_suspend && launches_line(
                t@,
            ) {
                "coroutineScope."@
            } else {
                Seq::<char>::empty()
            }) + t@ + "\n"@);
        }
        i = i + 1;
    }
    proof {
        assert(l.take(ls@.len() as int) =~= l);
    }
}


/// Function `f` inside the component.
fn generate_function(
    g: &MarkupGen,
    st: &mut MarkupState,
    f: &FunctionDeclaration,
    is_screen: bool,
    after: bool,
) -> (r: Result<String, String>)
    requires
        g.ctx.names_ok(),
        f.markup matches Some(m) ==> markup_fine(*g, m, 2),
    ensures
        rendered(r, function_code(*g, *old(st), *f, is_screen, after).0),
        *final(st) == function_code(*g, *old(st), *f, is_screen, after).1,
{
    match &f.markup {
        Some(m) => match crate::compose_markup::generate_markup_with_indent(g, st, m, 2) {
            Err(e) => Err(e),
            Ok(y) => {
                let mut out = String::new();
                if after {
                    push_lit(&mut out, "\n");
                }
                push_lit(&mut out, "    ");
                push_lit(&mut out, "@Composable\n");
                push_lit(&mut out, "    ");
                let h = fun_header_of(f);
                push_string(&mut out, &h);
                push_string(&mut out, &y);
                push_lit(&mut out, "    ");
                push_lit(&mut out, "}\n");
                proof {
                    reveal_with_fuel(indent_text, 2);
                    assert(out@ =~= (if after {
                        "\n"@
                    } else {
                        Seq::<char>::empty()
                    }) + indent_text(1) + "@Composable\n"@ + indent_text(1) + fun_header(*f) + y@
                        + indent_text(1) + "}\n"@);
                }
                Ok(out)
            },
        },
        None => {
            let mut out = lit("    ");
            let h = fun_header_of(f);
            push_string(&mut out, &h);
            let ghost o1 = out@;
            push_body_lines(&mut out, f, is_screen);
            push_lit(&mut out, "    ");
            if after {
                push_lit(&mut out, "}\n\n");
            } else {
                push_lit(&mut out, "}\n");
            }
            proof {
                reveal_with_fuel(indent_text, 2);
                assert(out@ =~= indent_text(1) + fun_header(*f) + body_lines(
                    lines_of(f.body@),
                    *f,
                    is_screen,
                ) + indent_text(1) + fun_close(after));
            }
            Ok(out)
        },
    }
}

/// An error among the first `k` functions ends them all.
proof fn lemma_functions_err(
    g: MarkupGen,
    st: MarkupState,
    fs: Seq<FunctionDeclaration>,
    k: int,
    is_screen: bool,
    after: bool,
)
    requires
        0 <= k <= fs.len(),
        functions_code(g, st, fs.take(k), is_screen, after).0 is Err,
    ensures
        functions_code(g, st, fs, is_screen, after) == functions_code(
            g,
            st,
            fs.take(k),
            is_screen,
            after,
        ),
    decreases fs.len() - k,
{
    if k < fs.len() {
        assert(fs.take(k + 1).drop_last() =~= fs.take(k));
        lemma_functions_err(g, st, fs, k + 1, is_screen, after);
    } else {
        assert(fs.take(k) =~= fs);
    }
}

/// The functions `fs` one after the other.
pub fn generate_functions(
    g: &MarkupGen,
    st: &mut MarkupState,
    fs: &Vec<FunctionDeclaration>,
    is_screen: bool,
    after: bool,
) -> (r: Result<String, String>)
    requires
        g.ctx.names_ok(),
        functions_fine(*g, fs@),
    ensures
        rendered(r, functions_code(*g, *old(st), fs@, is_screen, after).0),
        *final(st) == functions_code(*g, *old(st), fs@, is_screen, after).1,
{
    let ghost st0 = *st;
    let mut out = String::new();
    let mut i: usize = 0;
    proof {
        assert(fs@.take(0) =~= Seq::<FunctionDeclaration>::empty());
    }
    while i < fs.len()
        invariant
            i <= fs@.len(),
            g.ctx.names_ok(),
            functions_fine(*g, fs@),
            st0 == *old(st),
            functions_code(*g, st0, fs@.take(i as int), is_screen, after) == (
                Ok::<Seq<char>, Seq<char>>(out@),
                *st,
            ),
        decreases fs.len() - i,
    {
        proof {
            assert(fs@.take(i + 1).drop_last() =~= fs@.take(i as int));
            assert(fs@.take(i + 1).last() == fs@[i as int]);
            match fs@[i as int].markup {
                Some(m) => {
                    assert(markup_fine(*g, m, 2));
                },
                None => {},
            }
        }
        match generate_function(g, st, &fs[i], is_screen, after) {
            Err(e) => {
                proof {
                    lemma_functions_err(*g, st0, fs@, i + 1, is_screen, after);
                }
                return Err(e);
            },
            Ok(y) => {
                push_string(&mut out, &y);
            },
        }
        i = i + 1;
    }
    proof {
        assert(fs@.take(fs@.len() as int) =~= fs@);
    }
    Ok(out)
}


/// Every hook body of `hs` is short enough to measure its lines in bytes.
pub open spec fn hooks_fine(hs: Seq<LifecycleHook>) -> bool {
    forall|i: int| 0 <= i < hs.len() ==> 4 * (#[trigger] hs[i]).body@.len() <= usize::MAX
}

/// A line of an `onMount` body inside its effect.
fn hook_line_of(l: &String) -> (r: String)
    requires
        4 * l@.len() <= usize::MAX,
    ensures
        r@ == hook_line(l@),
{
    proof {
        reveal_strlit("$screen.params.");
        reveal_strlit("");
        assert(""@ =~= Seq::<char>::empty());
    }
    let v = crate::text::str_to_chars(l.as_str());
    let n = crate::compose_text::line_lead_bytes(&v);
    let (a, _) = crate::text::trim_bounds(v.as_slice(), 0, v.len());
    let ts = crate::text::string_from_range(v.as_slice(), a, v.len());
    let t = fetched_of(crate::compose::replace_all(ts.as_str(), "$screen.params.", ""));
    let mut out = lit("    ");
    push_lit(&mut out, "    ");
    let pads = crate::compose_text::spaces(2 * (n / 2));
    push_string(&mut out, &pads);
    let ghost o1 = out@;
    if launches_line_of(t.as_str()) {
        push_lit(&mut out, "coroutineScope.");
        let tt = crate::text::trim_str(t.as_str());
        push_string(&mut out, &tt);
    } else {
        push_string(&mut out, &t);
    }
    push_lit(&mut out, "\n");
    proof {
        reveal_with_fuel(indent_text, 2);
        assert(pads@ =~= pad(lead_bytes(l@) / 2));
        assert(ts@ =~= trim_start(l@));
        assert(out@ =~= indent_text(1) + "    "@ + pad(lead_bytes(l@) / 2) + (if launches_line(t@) {
            "coroutineScope."@ + spec_trim(t@)
        } else {
            t@
        }) + "\n"@);
    }
    out
}

/// Appends the nonblank lines of an `onMount` body `b`.
fn push_hook_lines(out: &mut String, b: &String)
    requires
        4 * b@.len() <= usize::MAX,
    ensures
        final(out)@ == old(out)@ + hook_lines(lines_of(b@)),
{
    let ls = crate::compose_text::str_lines(b.as_str());
    let ghost l = strs(ls@);
    let ghost o0 = out@;
    let mut i: usize = 0;
    proof {
        assert(l.take(0) =~= Seq::<Seq<char>>::empty());
    }
    while i < ls.len()
        invariant
            i <= ls@.len(),
            l == strs(ls@),
            l == lines_of(b@),
            4 * b@.len() <= usize::MAX,
            o0 == old(out)@,
            out@ == o0 + hook_lines(l.take(i as int)),
        decreases ls.len() - i,
    {
        proof {
            assert(l.take(i + 1).drop_last() =~= l.take(i as int));
            assert(l.take(i + 1).last() == ls@[i as int]@);
            assert(l[i as int] == ls@[i as int]@);
            crate::compose_text::lemma_lines_shorter(b@, 0, 0, i as int);
        }
        let ghost before = out@;
        let tt = crate::text::trim_str(ls[i].as_str());
        if tt.as_str().unicode_len() > 0 {
            let h = hook_line_of(&ls[i]);
            push_string(out, &h);
        } else {
            proof {
                assert(out@ =~= before + Seq::<char>::empty());
            }
        }
        i = i + 1;
    }
    proof {
        assert(l.take(ls@.len() as int) =~= l);
    }
}

/// Appends the nonblank lines of an `onDispose` body `b`.
fn push_dispose_lines(out: &mut String, b: &String)
    ensures
        final(out)@ == old(out)@ + dispose_lines(lines_of(b@)),
{
    let ls = crate::compose_text::str_lines(b.as_str());
    let ghost l = strs(ls@);
    let ghost o0 = out@;
    let mut i: usize = 0;
    proof {
        assert(l.take(0) =~= Seq::<Seq<char>>::empty());
    }
    while i < ls.len()
        invariant
            i <= ls@.len(),
            l == strs(ls@),
            l == lines_of(b@),
            o0 == old(out)@,
            out@ == o0 + dispose_lines(l.take(i as int)),
        decreases ls.len() - i,
    {
        proof {
            assert(l.take(i + 1).drop_last() =~= l.take(i as int));
            assert(l.take(i + 1).last() == ls@[i as int]@);
        }
        let ghost before = out@;
        let tt = crate::text::trim_str(ls[i].as_str());
        if tt.as_str().unicode_len() > 0 {
            push_lit(out, "    ");
            push_lit(out, "        ");
            push_string(out, &tt);
            push_lit(out, "\n");
            proof {
                reveal_with_fuel(indent_text, 2);
                assert(out@ =~= before + (indent_text(1) + "        "@ + spec_trim(l[i as int])
                    + "\n"@));
            }
        } else {
            proof {
                assert(out@ =~= before + Seq::<char>::empty());
            }
        }
        i = i + 1;
    }
    proof {
        assert(l.take(ls@.len() as int) =~= l);
    }
}

/// The first hook of kind `t` among `hs`.
fn find_hook<'a>(hs: &'a Vec<LifecycleHook>, t: &str) -> (r: Option<&'a LifecycleHook>)
    ensures
        match (r, first_hook(hs@, t@)) {
            (Some(a), Some(b)) => *a == b,
            (None, None) => true,
            _ => false,
        },
{
    let mut i: usize = 0;
    proof {
        assert(hs@.subrange(0, hs@.len() as int) =~= hs@);
    }
    while i < hs.len()
        invariant
            i <= hs@.len(),
            first_hook(hs@, t@) == first_hook(hs@.subrange(i as int, hs@.len() as int), t@),
        decreases hs.len() - i,
    {
        let ghost rest = hs@.subrange(i as int, hs@.len() as int);
        proof {
            assert(rest[0] == hs@[i as int]);
            assert(rest.drop_first() =~= hs@.subrange(i + 1, hs@.len() as int));
        }
        if crate::text::str_eq(hs[i].hook_type.as_str(), t) {
            return Some(&hs[i]);
        }
        i = i + 1;
    }
    None
}

/// The lifecycle hooks `hs`.
pub fn generate_lifecycle(hs: &Vec<LifecycleHook>) -> (r: String)
    requires
        hooks_fine(hs@),
    ensures
        r@ == lifecycle_code(hs@),
{
    let mount = find_hook(hs, "onMount");
    let dispose = find_hook(hs, "onDispose");
    let mut out = String::new();
    match (mount, dispose) {
        (Some(m), Some(d)) => {
            proof {
                assert(exists|i: int| 0 <= i < hs@.len() && hs@[i] == *m) by {
                    lemma_first_hook_in(hs@, "onMount"@);
                }
            }
            push_lit(&mut out, "    ");
            push_lit(&mut out, "DisposableEffect(Unit) {\n");
            push_hook_lines(&mut out, &m.body);
            push_lit(&mut out, "\n");
            push_lit(&mut out, "    ");
            push_lit(&mut out, "    onDispose {\n");
            push_dispose_lines(&mut out, &d.body);
            push_lit(&mut out, "    ");
            push_lit(&mut out, "    }\n");
            push_lit(&mut out, "    ");
            push_lit(&mut out, "}\n\n");
            proof {
                reveal_with_fuel(indent_text, 2);
                assert(out@ =~= lifecycle_code(hs@));
            }
            out
        },
        _ => {
            let mut i: usize = 0;
            proof {
                assert(hs@.take(0) =~= Seq::<LifecycleHook>::empty());
            }
            while i < hs.len()
                invariant
                    i <= hs@.len(),
                    hooks_fine(hs@),
                    out@ == launched_effects(hs@.take(i as int)),
                decreases hs.len() - i,
            {
                proof {
                    assert(hs@.take(i + 1).drop_last() =~= hs@.take(i as int));
                    assert(hs@.take(i + 1).last() == hs@[i as int]);
                    assert(4 * hs@[i as int].body@.len() <= usize::MAX);
                }
                let ghost before = out@;
                if crate::text::str_eq(hs[i].hook_type.as_str(), "onMount") {
                    push_lit(&mut out, "    ");
                    push_lit(&mut out, "LaunchedEffect(Unit) {\n");
                    push_hook_lines(&mut out, &hs[i].body);
                    push_lit(&mut out, "    ");
                    push_lit(&mut out, "}\n\n");
                    proof {
                        reveal_with_fuel(indent_text, 2);
                        assert(out@ =~= before + (indent_text(1) + "LaunchedEffect(Unit) {\n"@
                            + hook_lines(lines_of(hs@[i as int].body@)) + indent_text(1)
                            + "}\n\n"@));
                    }
                } else {
                    proof {
                        assert(out@ =~= before + Seq::<char>::empty());
                    }
                }
                i = i + 1;
            }
            proof {
                assert(hs@.take(hs@.len() as int) =~= hs@);
            }
            out
        },
    }
}

/// The first hook of kind `t` is one of `hs`.
proof fn lemma_first_hook_in(hs: Seq<LifecycleHook>, t: Seq<char>)
    ensures
        first_hook(hs, t) matches Some(h) ==> exists|i: int| 0 <= i < hs.len() && hs[i] == h,
    decreases hs.len(),
{
    if hs.len() > 0 && hs[0].hook_type@ != t {
        lemma_first_hook_in(hs.drop_first(), t);
        if let Some(h) = first_hook(hs, t) {
            let i = choose|i: int| 0 <= i < hs.drop_first().len() && hs.drop_first()[i] == h;
            assert(hs[i + 1] == h);
        }
    }
}

/// Whether a function among `fs` that does not suspend starts a coroutine.
pub fn functions_launch_of(fs: &Vec<FunctionDeclaration>) -> (r: bool)
    ensures
        r == functions_launch(fs@),
{
    let mut i: usize = 0;
    while i < fs.len()
        invariant
            i <= fs@.len(),
            forall|k: int|
                0 <= k < i ==> !(!(#[trigger] fs@[k]).is_suspend && (seq_contains(
                    fs@[k].body@,
                    "launch "@,
                ) || seq_contains(fs@[k].body@, "launch{"@))),
        decreases fs.len() - i,
    {
        let f = &fs[i];
        if !f.is_suspend && (str_contains(f.body.as_str(), "launch ") || str_contains(
            f.body.as_str(),
            "launch{",
        )) {
            return true;
        }
        i = i + 1;
    }
    false
}


// ===================== Deciding what can be generated =====================

/// Whether every helper composable among `fs` can be rendered two steps in.
pub(crate) fn functions_fine_of(g: &MarkupGen, fs: &Vec<FunctionDeclaration>) -> (r: bool)
    requires
        g.ctx.names_ok(),
    ensures
        r == functions_fine(*g, fs@),
{
    let mut i: usize = 0;
    while i < fs.len()
        invariant
            i <= fs@.len(),
            g.ctx.names_ok(),
            forall|k: int|
                0 <= k < i ==> match #[trigger] fs@[k].markup {
                    Some(m) => markup_fine(*g, m, 2),
                    None => true,
                },
        decreases fs.len() - i,
    {
        match &fs[i].markup {
            Some(m) => {
                if !crate::compose_markup::markup_fine_of(g, m, 2) {
                    proof {
                        assert(fs@[i as int].markup == Some(*m));
                    }
                    return false;
                }
            },
            None => {},
        }
        i = i + 1;
    }
    true
}

/// Whether every hook body of `hs` is short enough to measure its lines in
/// bytes.
pub(crate) fn hooks_fine_of(hs: &Vec<LifecycleHook>) -> (r: bool)
    ensures
        r == hooks_fine(hs@),
{
    let mut i: usize = 0;
    while i < hs.len()
        invariant
            i <= hs@.len(),
            forall|k: int| 0 <= k < i ==> 4 * (#[trigger] hs@[k]).body@.len() <= usize::MAX,
        decreases hs.len() - i,
    {
        let c = crate::text::str_to_chars(hs[i].body.as_str());
        if c.len() > usize::MAX / 4 {
            proof {
                assert(4 * hs@[i as int].body@.len() > usize::MAX);
            }
            return false;
        }
        i = i + 1;
    }
    true
}


// ===================== Laws of mutable state =====================

proof fn lemma_contains_left(a: Seq<char>, b: Seq<char>, p: Seq<char>)
    requires
        seq_contains(a, p),
    ensures
        seq_contains(a + b, p),
{
    let i = choose|i: int| crate::text::occurs_at(a, i, p);
    assert((a + b).subrange(i, i + p.len()) =~= a.subrange(i, i + p.len()));
    assert(crate::text::occurs_at(a + b, i, p));
}

proof fn lemma_contains_right(a: Seq<char>, b: Seq<char>, p: Seq<char>)
    requires
        seq_contains(b, p),
    ensures
        seq_contains(a + b, p),
{
    let i = choose|i: int| crate::text::occurs_at(b, i, p);
    assert((a + b).subrange(a.len() + i, a.len() + i + p.len()) =~= b.subrange(i, i + p.len()));
    assert(crate::text::occurs_at(a + b, a.len() + i, p));
}

/// What a mutable state `s` is remembered as: `var name by remember {
/// mutableStateOf<T>(` with its declared type `T`, or `mutableStateOf(`
/// when it has none.
pub open spec fn remembered_as(s: StateDeclaration) -> Seq<char> {
    "var "@ + s.name@ + " by remember { mutableStateOf"@ + match s.type_annotation {
        Some(t) => "<"@ + t@ + ">("@,
        None => "("@,
    }
}

/// A mutable state keeps its declared type: its line remembers it as
/// `mutableStateOf<T>(..)` with the declared type `T` (untyped state as
/// `mutableStateOf(..)`), and the state lines of a component hold that of
/// every mutable state it declares.
pub proof fn law_var_keeps_type(ss: Seq<StateDeclaration>, i: int)
    requires
        0 <= i < ss.len(),
        ss[i].mutable,
    ensures
        seq_contains(var_line(ss[i]), remembered_as(ss[i])),
        seq_contains(var_lines(ss), remembered_as(ss[i])),
    decreases ss.len(),
{
    let s = ss[i];
    let a = indent_text(1);
    let p = remembered_as(s);
    let rest = state_value(s) + ") }\n"@;
    reveal_strlit("(");
    reveal_strlit(">(");
    reveal_strlit(">");
    match s.type_annotation {
        Some(t) => {
            assert(var_line(s) =~= a + p + rest);
        },
        None => {
            assert(var_line(s) =~= a + p + rest);
        },
    }
    assert((a + p + rest).subrange(a.len() as int, (a.len() + p.len()) as int) =~= p);
    assert(crate::text::occurs_at(var_line(s), a.len() as int, p));
    let d = ss.drop_last();
    if i == ss.len() - 1 {
        lemma_contains_right(var_lines(d), var_line(s), p);
    } else {
        assert(d[i] == s);
        law_var_keeps_type(d, i);
        lemma_contains_left(
            var_lines(d),
            if ss.last().mutable {
                var_line(ss.last())
            } else {
                Seq::empty()
            },
            p,
        );
    }
}

} // verus!
