//! A standard Compose component: its imports and signature, its body and
//! markup, the imports that the generated text shows it needs, and the
//! choice between a store class, a component with a ViewModel and a
//! standard component.

use vstd::prelude::*;

use crate::analyzer::{StoreRegistry, StoreSource};
use crate::ast::{
    ClassDeclaration, FunctionDeclaration, LifecycleHook, Markup, PropDeclaration, StateDeclaration, WhitehallFile,
};
use crate::compose::find_from;
use crate::compose_backend::{ffi_builds_all, ffi_converted, ffi_objects, TranspileResult};
use crate::compose_body::{
    functions_code, functions_fine, functions_launch, has_state, hooks_fine, lifecycle_code,
    state_code,
};
use crate::compose_imports::{markup_requests, markup_safe};
use crate::compose_markup::{markup_code, markup_fine, rendered};
use crate::compose_scan::{
    fetch_used, is_hilt_store, registered, route_params, state_store,
};
use crate::compose_body::standard_of;
use crate::compose_wrapper::{helpers_fine, plain_vals_fine, wrapper_code, wrapper_of};
use crate::stores::{component_state_ok, component_viewmodel, registered_source, store_class_code, ui_names_ok};
use crate::stores::{http_client_text, kotlin_tail, sorted_distinct};
use crate::view::{add_imports, import_lines};
use crate::compose::{array_list, base_package, range_list, replaced, route_alias};
use crate::compose_components::{starts, MarkupGen, MarkupState};
use crate::compose_imports::{only_if, strs};
use crate::compose_modifiers::{any_contains, ends_with};
use crate::compose_text::{lead_bytes, lines_of, multiline_value, trim_start};
use crate::stores::{fetch_call, inferred_type, resolved_imports};
use crate::text::{lit, push_lit, push_string, seq_contains, spec_trim, str_contains, str_eq};
use crate::view::indent_text;

verus! {

/// What the component was found to use before it is generated.
#[derive(Clone, Copy)]
pub struct GenFlags {
    /// A store held in the state (`viewModel` import).
    pub uses_viewmodel: bool,
    /// A Hilt store held in the state (`hiltViewModel` import).
    pub uses_hilt_viewmodel: bool,
    /// An experimental Material 3 component.
    pub uses_experimental_material3: bool,
    /// `$fetch(` (the Ktor client).
    pub uses_fetch: bool,
    /// `$routes` or `$navigate` (the `Routes` of a screen).
    pub uses_routes: bool,
    /// Dispatcher blocks (`io {`, `cpu {`, `main {`) in the markup.
    pub uses_dispatchers: bool,
}

// ===================== Imports =====================

/// Whether an `onMount` hook among `hs` launches a coroutine.
pub open spec fn mount_launches(hs: Seq<LifecycleHook>) -> bool {
    exists|i: int|
        0 <= i < hs.len() && (#[trigger] hs[i]).hook_type@ == "onMount"@ && (seq_contains(
            hs[i].body@,
            "launch "@,
        ) || seq_contains(hs[i].body@, "launch{"@))
}

/// `ps` without the runtime imports (covered by the runtime wildcard).
pub open spec fn without_runtime(ps: Seq<Seq<char>>) -> Seq<Seq<char>>
    decreases ps.len(),
{
    if ps.len() == 0 {
        Seq::empty()
    } else {
        without_runtime(ps.drop_last()) + only_if(
            !starts(ps.last(), "androidx.compose.runtime."@),
            seq![ps.last()],
        )
    }
}

/// The imports of the Ktor client behind `$fetch(`.
pub open spec fn ktor_imports() -> Seq<Seq<char>> {
    seq![
        "io.ktor.client.HttpClient"@,
        "io.ktor.client.call.body"@,
        "io.ktor.client.engine.okhttp.OkHttp"@,
        "io.ktor.client.plugins.contentnegotiation.ContentNegotiation"@,
        "io.ktor.client.request.get"@,
        "io.ktor.serialization.kotlinx.json.json"@,
        "kotlinx.serialization.json.Json"@,
    ]
}

/// The imports of a standard component (unsorted): with exactly one
/// component import and no prop or user imports that one first; the runtime
/// (its wildcard with state, without the runtime prop imports); the prop
/// imports; the user's imports; the component imports; then what a launching
/// `onMount`, a screen, stores, experimental Material 3, `$fetch(` and the
/// routes of a screen need.
pub open spec fn composable_imports(
    package: Seq<char>,
    is_screen: bool,
    f: GenFlags,
    file: WhitehallFile,
    p: Seq<Seq<char>>,
    c: Seq<Seq<char>>,
) -> Seq<Seq<char>> {
    let simple = c.len() == 1 && p.len() == 0 && file.imports@.len() == 0;
    let has_state = file.state@.len() > 0;
    (if simple {
        c
    } else {
        Seq::empty()
    }) + (if has_state {
        seq!["androidx.compose.runtime.*"@]
    } else {
        seq!["androidx.compose.runtime.Composable"@]
    }) + (if has_state {
        without_runtime(p)
    } else {
        p
    }) + resolved_imports(package, file.imports@) + (if simple {
        Seq::empty()
    } else {
        c
    }) + only_if(mount_launches(file.lifecycle_hooks@), seq!["kotlinx.coroutines.launch"@])
        + only_if(is_screen, seq!["androidx.navigation.NavController"@]) + only_if(
        f.uses_viewmodel,
        seq!["androidx.lifecycle.viewmodel.compose.viewModel"@],
    ) + only_if(
        f.uses_hilt_viewmodel,
        seq!["androidx.lifecycle.viewmodel.compose.hiltViewModel"@],
    ) + only_if(
        f.uses_experimental_material3,
        seq!["androidx.compose.material3.ExperimentalMaterial3Api"@],
    ) + (if f.uses_fetch {
        ktor_imports()
    } else {
        Seq::empty()
    }) + only_if(f.uses_routes && is_screen, seq![base_package(package) + ".routes.Routes"@])
}

// ===================== The signature =====================

/// The parameter of prop `p`: its default, or `null` for a nullable type
/// without one.
pub open spec fn signature_prop(p: PropDeclaration) -> Seq<char> {
    p.name@ + ": "@ + p.prop_type@ + match p.default_value {
        Some(d) => " = "@ + d@,
        None => if ends_with(p.prop_type@, "?"@) {
            " = null"@
        } else {
            Seq::empty()
        },
    }
}

/// The route parameter lines of a screen, with a comma when props follow.
pub open spec fn route_param_lines(rps: Seq<Seq<char>>, more: bool) -> Seq<char>
    decreases rps.len(),
{
    if rps.len() == 0 {
        Seq::empty()
    } else {
        route_param_lines(rps.drop_last(), more) + "    "@ + rps.last() + ": String"@ + (if more {
            ","@
        } else {
            Seq::empty()
        }) + "\n"@
    }
}

/// The prop parameters among the first `k` of `ps` (for a screen the first
/// follows the navigation controller's line without indentation, and the
/// last ends the line).
pub open spec fn signature_props(ps: Seq<PropDeclaration>, k: nat, is_screen: bool) -> Seq<char>
    decreases k,
{
    if k == 0 {
        Seq::empty()
    } else {
        let i = k - 1;
        signature_props(ps, (k - 1) as nat, is_screen) + (if !is_screen || i > 0 {
            "    "@
        } else {
            Seq::empty()
        }) + signature_prop(ps[i]) + (if i < ps.len() - 1 {
            ","@
        } else {
            Seq::empty()
        }) + (if !is_screen || i < ps.len() - 1 {
            "\n"@
        } else {
            Seq::empty()
        })
    }
}

/// The parameters of the component function: the navigation controller and
/// the route parameters of a screen, then the props.
pub open spec fn signature_params(
    is_screen: bool,
    rps: Seq<Seq<char>>,
    ps: Seq<PropDeclaration>,
) -> Seq<char> {
    (if is_screen {
        if rps.len() > 0 || ps.len() > 0 {
            "\n    navController: NavController,\n"@ + route_param_lines(rps, ps.len() > 0)
        } else {
            "navController: NavController"@
        }
    } else {
        Seq::empty()
    }) + (if ps.len() > 0 {
        (if is_screen {
            Seq::empty()
        } else {
            "\n"@
        }) + signature_props(ps, ps.len(), is_screen)
    } else {
        Seq::empty()
    })
}

// ===================== Building imports and signature =====================

/// Whether an `onMount` hook among `hs` launches a coroutine.
fn mount_launches_of(hs: &Vec<LifecycleHook>) -> (r: bool)
    ensures
        r == mount_launches(hs@),
{
    let mut i: usize = 0;
    while i < hs.len()
        invariant
            i <= hs@.len(),
            forall|k: int|
                0 <= k < i ==> !((#[trigger] hs@[k]).hook_type@ == "onMount"@ && (seq_contains(
                    hs@[k].body@,
                    "launch "@,
                ) || seq_contains(hs@[k].body@, "launch{"@))),
        decreases hs.len() - i,
    {
        let h = &hs[i];
        if str_eq(h.hook_type.as_str(), "onMount") && (crate::text::str_contains(
            h.body.as_str(),
            "launch ",
        ) || crate::text::str_contains(h.body.as_str(), "launch{")) {
            return true;
        }
        i = i + 1;
    }
    false
}

/// `ps` without the runtime imports.
fn build_without_runtime(ps: &Vec<String>) -> (r: Vec<String>)
    ensures
        strs(r@) == without_runtime(strs(ps@)),
{
    let mut r: Vec<String> = Vec::new();
    let mut i: usize = 0;
    proof {
        assert(strs(ps@).take(0) =~= Seq::<Seq<char>>::empty());
        assert(strs(r@) =~= Seq::<Seq<char>>::empty());
    }
    while i < ps.len()
        invariant
            i <= ps@.len(),
            strs(r@) == without_runtime(strs(ps@).take(i as int)),
        decreases ps.len() - i,
    {
        proof {
            assert(strs(ps@).take(i + 1).drop_last() =~= strs(ps@).take(i as int));
            assert(strs(ps@).take(i + 1).last() == ps@[i as int]@);
        }
        let ghost r0 = strs(r@);
        if !crate::text::str_starts_with(ps[i].as_str(), "androidx.compose.runtime.") {
            r.push(lit(ps[i].as_str()));
            proof {
                assert(strs(r@) =~= r0 + seq![ps@[i as int]@]);
            }
        } else {
            proof {
                assert(strs(r@) =~= r0 + Seq::<Seq<char>>::empty());
            }
        }
        i = i + 1;
    }
    proof {
        assert(strs(ps@).take(ps@.len() as int) =~= strs(ps@));
    }
    r
}

/// `v` followed by `x` when `cond`.
fn push_if(v: &mut Vec<String>, cond: bool, x: &str)
    ensures
        strs(final(v)@) == strs(old(v)@) + only_if(cond, seq![x@]),
{
    let ghost v0 = strs(v@);
    if cond {
        v.push(lit(x));
    }
    proof {
        assert(strs(v@) =~= v0 + only_if(cond, seq![x@]));
    }
}

/// The imports of a standard component (unsorted).
pub fn build_composable_imports(
    package: &str,
    is_screen: bool,
    f: GenFlags,
    file: &WhitehallFile,
    p: &Vec<String>,
    c: &Vec<String>,
) -> (r: Vec<String>)
    ensures
        strs(r@) == composable_imports(package@, is_screen, f, *file, strs(p@), strs(c@)),
{
    let simple = c.len() == 1 && p.len() == 0 && file.imports.len() == 0;
    let has_state = file.state.len() > 0;
    let mut v: Vec<String> = Vec::new();
    proof {
        assert(strs(v@) =~= Seq::<Seq<char>>::empty());
    }
    if simple {
        crate::compose_components::append_all(&mut v, crate::compose_wrapper::copy_strings(c));
    }
    let ghost v1 = strs(v@);
    proof {
        assert(v1 =~= if simple {
            strs(c@)
        } else {
            Seq::<Seq<char>>::empty()
        });
    }
    if has_state {
        v.push(lit("androidx.compose.runtime.*"));
        crate::compose_components::append_all(&mut v, build_without_runtime(p));
    } else {
        v.push(lit("androidx.compose.runtime.Composable"));
        crate::compose_components::append_all(&mut v, crate::compose_wrapper::copy_strings(p));
    }
    let ghost v2 = strs(v@);
    proof {
        assert(v2 =~= v1 + (if has_state {
            seq!["androidx.compose.runtime.*"@]
        } else {
            seq!["androidx.compose.runtime.Composable"@]
        }) + (if has_state {
            without_runtime(strs(p@))
        } else {
            strs(p@)
        }));
    }
    crate::stores::push_resolved_imports(&mut v, package, &file.imports);
    let ghost v3 = strs(v@);
    if !simple {
        crate::compose_components::append_all(&mut v, crate::compose_wrapper::copy_strings(c));
    }
    proof {
        assert(strs(v@) =~= v3 + if simple {
            Seq::<Seq<char>>::empty()
        } else {
            strs(c@)
        });
    }
    push_if(&mut v, mount_launches_of(&file.lifecycle_hooks), "kotlinx.coroutines.launch");
    push_if(&mut v, is_screen, "androidx.navigation.NavController");
    push_if(&mut v, f.uses_viewmodel, "androidx.lifecycle.viewmodel.compose.viewModel");
    push_if(&mut v, f.uses_hilt_viewmodel, "androidx.lifecycle.viewmodel.compose.hiltViewModel");
    push_if(
        &mut v,
        f.uses_experimental_material3,
        "androidx.compose.material3.ExperimentalMaterial3Api",
    );
    let ghost v4 = strs(v@);
    if f.uses_fetch {
        v.push(lit("io.ktor.client.HttpClient"));
        v.push(lit("io.ktor.client.call.body"));
        v.push(lit("io.ktor.client.engine.okhttp.OkHttp"));
        v.push(lit("io.ktor.client.plugins.contentnegotiation.ContentNegotiation"));
        v.push(lit("io.ktor.client.request.get"));
        v.push(lit("io.ktor.serialization.kotlinx.json.json"));
        v.push(lit("kotlinx.serialization.json.Json"));
    }
    proof {
        assert(strs(v@) =~= v4 + if f.uses_fetch {
            ktor_imports()
        } else {
            Seq::<Seq<char>>::empty()
        });
    }
    let ghost v5 = strs(v@);
    if f.uses_routes && is_screen {
        let mut rt = crate::compose::get_base_package(package);
        push_lit(&mut rt, ".routes.Routes");
        v.push(rt);
    }
    proof {
        assert(strs(v@) =~= v5 + only_if(
            f.uses_routes && is_screen,
            seq![base_package(package@) + ".routes.Routes"@],
        ));
    }
    v
}

/// The parameter of prop `p`.
fn build_signature_prop(p: &PropDeclaration) -> (r: String)
    ensures
        r@ == signature_prop(*p),
{
    let mut r = lit(p.name.as_str());
    push_lit(&mut r, ": ");
    push_string(&mut r, &p.prop_type);
    match &p.default_value {
        Some(d) => {
            push_lit(&mut r, " = ");
            push_string(&mut r, d);
        },
        None => {
            let tv = crate::text::str_to_chars(p.prop_type.as_str());
            if crate::compose_modifiers::chars_end_with(&tv, "?") {
                push_lit(&mut r, " = null");
            } else {
                proof {
                    assert(r@ =~= r@ + Seq::<char>::empty());
                }
            }
        },
    }
    proof {
        assert(r@ =~= signature_prop(*p));
    }
    r
}

/// The parameters of the component function.
#[verifier::spinoff_prover]
#[verifier::rlimit(40)]
pub fn build_signature_params(is_screen: bool, rps: &Vec<String>, ps: &Vec<PropDeclaration>) -> (r:
    String)
    ensures
        r@ == signature_params(is_screen, strs(rps@), ps@),
{
    let mut out = String::new();
    if is_screen {
        if rps.len() > 0 || ps.len() > 0 {
            push_lit(&mut out, "\n    navController: NavController,\n");
            let more = ps.len() > 0;
            let mut i: usize = 0;
            proof {
                assert(strs(rps@).take(0) =~= Seq::<Seq<char>>::empty());
            }
            while i < rps.len()
                invariant
                    i <= rps@.len(),
                    more == (ps@.len() > 0),
                    out@ == "\n    navController: NavController,\n"@ + route_param_lines(
                        strs(rps@).take(i as int),
                        more,
                    ),
                decreases rps.len() - i,
            {
                let ghost o0 = out@;
                push_lit(&mut out, "    ");
                push_string(&mut out, &rps[i]);
                push_lit(&mut out, ": String");
                if more {
                    push_lit(&mut out, ",");
                }
                push_lit(&mut out, "\n");
                proof {
                    assert(strs(rps@).take(i + 1).drop_last() =~= strs(rps@).take(i as int));
                    assert(out@ =~= "\n    navController: NavController,\n"@ + route_param_lines(
                        strs(rps@).take(i + 1),
                        more,
                    ));
                }
                i = i + 1;
            }
            proof {
                assert(strs(rps@).take(rps@.len() as int) =~= strs(rps@));
            }
        } else {
            push_lit(&mut out, "navController: NavController");
        }
    }
    let ghost head = out@;
    if ps.len() > 0 {
        if !is_screen {
            push_lit(&mut out, "\n");
        }
        let ghost h2 = out@;
        let mut i: usize = 0;
        while i < ps.len()
            invariant
                i <= ps@.len(),
                out@ == h2 + signature_props(ps@, i as nat, is_screen),
            decreases ps.len() - i,
        {
            if !is_screen || i > 0 {
                push_lit(&mut out, "    ");
            }
            let sp = build_signature_prop(&ps[i]);
            push_string(&mut out, &sp);
            if i + 1 < ps.len() {
                push_lit(&mut out, ",");
            }
            if !is_screen || i + 1 < ps.len() {
                push_lit(&mut out, "\n");
            }
            proof {
                assert(out@ =~= h2 + signature_props(ps@, (i + 1) as nat, is_screen));
            }
            i = i + 1;
        }
        proof {
            assert(out@ =~= head + ((if is_screen {
                Seq::<char>::empty()
            } else {
                "\n"@
            }) + signature_props(ps@, ps@.len(), is_screen)));
        }
    } else {
        proof {
            assert(out@ =~= head + Seq::<char>::empty());
        }
    }
    out
}


// ===================== The whole component =====================

/// The prop and component imports of markup `m`.
pub open spec fn markup_import_lists(m: Markup) -> (Seq<Seq<char>>, Seq<Seq<char>>) {
    let r = markup_requests(m, None);
    (add_imports(Seq::empty(), r.0), add_imports(Seq::empty(), r.1))
}

/// `f` with experimental Material 3 also when the component imports name
/// `ExposedDropdownMenuBox`.
pub open spec fn with_material3(f: GenFlags, c: Seq<Seq<char>>) -> GenFlags {
    GenFlags {
        uses_experimental_material3: f.uses_experimental_material3 || any_contains(
            c,
            "ExposedDropdownMenuBox"@,
        ),
        ..f
    }
}

/// The package, the sorted imports, the HTTP client, the signature, the
/// state and the dispatcher scope of a standard component.
pub open spec fn standard_head(
    package: Seq<char>,
    name: Seq<char>,
    registry: Option<&StoreRegistry>,
    f: GenFlags,
    g: MarkupGen,
    file: WhitehallFile,
) -> Seq<char> {
    let is_screen = crate::compose_wrapper::is_screen(g);
    let pc = markup_import_lists(file.markup);
    let f2 = with_material3(f, pc.1);
    "package "@ + package + "\n\n"@ + import_lines(
        sorted_distinct(composable_imports(package, is_screen, f2, file, pc.0, pc.1)),
    ) + "\n"@ + (if f.uses_fetch {
        http_client_text()
    } else {
        Seq::empty()
    }) + (if f2.uses_experimental_material3 {
        "@OptIn(ExperimentalMaterial3Api::class)\n"@
    } else {
        Seq::empty()
    }) + "@Composable\n"@ + "fun "@ + name + "("@ + signature_params(
        is_screen,
        route_params(file),
        file.props@,
    ) + ") {\n"@ + state_code(registry, file.state@) + (if f.uses_dispatchers {
        indent_text(1) + "val dispatcherScope = rememberCoroutineScope()\n\n"@
    } else {
        Seq::empty()
    })
}

/// The coroutine scope (when a hook or a function starts a coroutine) and
/// the lifecycle hooks.
pub open spec fn standard_effects(file: WhitehallFile) -> Seq<char> {
    (if mount_launches(file.lifecycle_hooks@) || functions_launch(file.functions@) {
        indent_text(1) + "val coroutineScope = rememberCoroutineScope()\n\n"@
    } else {
        Seq::empty()
    }) + lifecycle_code(file.lifecycle_hooks@)
}

/// The generated text of a standard component before its late imports:
/// the head; the functions (followed by a blank line) when there is
/// computed state; the coroutine scope and the lifecycle hooks; otherwise
/// the functions after them; the markup; the closing brace; the Kotlin
/// blocks.
pub open spec fn standard_code(
    package: Seq<char>,
    name: Seq<char>,
    registry: Option<&StoreRegistry>,
    f: GenFlags,
    g: MarkupGen,
    st: MarkupState,
    file: WhitehallFile,
) -> (Result<Seq<char>, Seq<char>>, MarkupState) {
    let is_screen = crate::compose_wrapper::is_screen(g);
    let fs = file.functions@;
    let first = has_state(file.state@, false);
    let a = if first {
        functions_code(g, st, fs, is_screen, false)
    } else {
        (Ok(Seq::empty()), st)
    };
    match a.0 {
        Err(e) => (Err(e), a.1),
        Ok(x) => {
            let b = if !first && fs.len() > 0 {
                functions_code(g, a.1, fs, is_screen, true)
            } else {
                (Ok(Seq::empty()), a.1)
            };
            match b.0 {
                Err(e) => (Err(e), b.1),
                Ok(y) => {
                    let m = markup_code(g, b.1, file.markup, 1, None);
                    match m.0 {
                        Err(e) => (Err(e), m.1),
                        Ok(z) => (
                            Ok(
                                standard_head(package, name, registry, f, g, file) + x + (if first
                                    && fs.len() > 0 {
                                    "\n"@
                                } else {
                                    Seq::empty()
                                }) + standard_effects(file) + y + z + "}\n"@ + kotlin_tail(
                                    file.kotlin_blocks@,
                                ),
                            ),
                            m.1,
                        ),
                    }
                },
            }
        },
    }
}

/// `out` with import line `imp` after its first line, when `needed` and
/// `out` does not hold it yet.
pub open spec fn inserted_import(out: Seq<char>, needed: bool, imp: Seq<char>) -> Seq<char> {
    if needed && !seq_contains(out, imp) {
        match find_from(out, 0, "\n"@) {
            Some(k) => out.subrange(0, k + 1) + imp + out.subrange(k + 1, out.len() as int),
            None => out,
        }
    } else {
        out
    }
}

/// The imports that the generated text shows it needs: `Dispatchers`,
/// `Serializable`, and `launch` for a coroutine started in a named scope.
pub open spec fn late_imports(out: Seq<char>) -> Seq<char> {
    let a = inserted_import(
        out,
        seq_contains(out, "Dispatchers."@),
        "import kotlinx.coroutines.Dispatchers\n"@,
    );
    let b = inserted_import(
        a,
        seq_contains(a, "@Serializable"@),
        "import kotlinx.serialization.Serializable\n"@,
    );
    inserted_import(
        b,
        seq_contains(b, ".launch {"@) || seq_contains(b, ".launch("@),
        "import kotlinx.coroutines.launch\n"@,
    )
}

/// The file of a standard component: its code with the late imports, FFI
/// calls in camel case.
pub open spec fn standard_file(out: Seq<char>, file: WhitehallFile) -> Seq<char> {
    ffi_converted(late_imports(out), ffi_objects(file.imports@))
}

/// What a standard component can be generated from: each initial value,
/// hook body, helper composable and the markup can be handled.
pub open spec fn standard_fine(g: MarkupGen, file: WhitehallFile) -> bool {
    &&& g.ctx.names_ok()
    &&& markup_safe(file.markup)
    &&& markup_fine(g, file.markup, 1)
    &&& functions_fine(g, file.functions@)
    &&& hooks_fine(file.lifecycle_hooks@)
}


// ===================== Building the whole component =====================

/// Whether the component of `g` is a screen.
fn screen_of(g: &MarkupGen) -> (r: bool)
    ensures
        r == crate::compose_wrapper::is_screen(*g),
{
    match &g.component_type {
        Some(t) => str_eq(t.as_str(), "screen"),
        None => false,
    }
}

/// Whether one of `ss` is computed state.
fn has_computed_of(ss: &Vec<StateDeclaration>) -> (r: bool)
    ensures
        r == has_state(ss@, false),
{
    let mut i: usize = 0;
    while i < ss.len()
        invariant
            i <= ss@.len(),
            forall|k: int| 0 <= k < i ==> (#[trigger] ss@[k]).mutable,
        decreases ss.len() - i,
    {
        if !ss[i].mutable {
            return true;
        }
        i = i + 1;
    }
    false
}

/// The head of a standard component.
#[verifier::spinoff_prover]
fn build_standard_head(
    package: &str,
    name: &str,
    registry: Option<&StoreRegistry>,
    f: GenFlags,
    g: &MarkupGen,
    file: &WhitehallFile,
) -> (r: String)
    requires
        registry matches Some(reg) ==> reg.wf(),
        markup_safe(file.markup),
    ensures
        r@ == standard_head(package@, name@, registry, f, *g, *file),
{
    let mut p: Vec<String> = Vec::new();
    let mut c: Vec<String> = Vec::new();
    proof {
        assert(strs(p@) =~= Seq::<Seq<char>>::empty());
        assert(strs(c@) =~= Seq::<Seq<char>>::empty());
    }
    crate::compose_imports::collect_imports_recursive(&file.markup, &mut p, &mut c);
    let exp = f.uses_experimental_material3 || crate::compose_modifiers::mods_contain(
        &c,
        "ExposedDropdownMenuBox",
    );
    let f2 = GenFlags { uses_experimental_material3: exp, ..f };
    let is_screen = screen_of(g);
    let imports = build_composable_imports(package, is_screen, f2, file, &p, &c);
    let sorted = crate::stores::sort_dedup(&imports);
    let mut out = lit("package ");
    push_lit(&mut out, package);
    push_lit(&mut out, "\n\n");
    crate::stores::push_import_lines(&mut out, &sorted);
    push_lit(&mut out, "\n");
    let ghost h1 = out@;
    if f.uses_fetch {
        let hc = crate::stores::generate_http_client();
        push_string(&mut out, &hc);
    }
    if exp {
        push_lit(&mut out, "@OptIn(ExperimentalMaterial3Api::class)\n");
    }
    push_lit(&mut out, "@Composable\n");
    push_lit(&mut out, "fun ");
    push_lit(&mut out, name);
    push_lit(&mut out, "(");
    let rps = crate::compose_scan::extract_route_params(file);
    let sig = build_signature_params(is_screen, &rps, &file.props);
    push_string(&mut out, &sig);
    push_lit(&mut out, ") {\n");
    let state = crate::compose_body::generate_state(registry, &file.state);
    push_string(&mut out, &state);
    if f.uses_dispatchers {
        push_lit(&mut out, "    ");
        push_lit(&mut out, "val dispatcherScope = rememberCoroutineScope()\n\n");
    }
    proof {
        reveal_with_fuel(indent_text, 2);
        assert(f2 == with_material3(f, markup_import_lists(file.markup).1));
        assert(out@ =~= standard_head(package@, name@, registry, f, *g, *file));
    }
    out
}

/// `out` with import line `imp` after its first line, when `needed` and
/// `out` does not hold it yet.
fn insert_import(out: String, needed: bool, imp: &str) -> (r: String)
    ensures
        r@ == inserted_import(out@, needed, imp@),
{
    if needed && !crate::text::str_contains(out.as_str(), imp) {
        let v = crate::text::str_to_chars(out.as_str());
        match crate::compose::find_chars(&v, "\n") {
            Some(k) => {
                assert(v@.len() == v.len());
                let mut r = crate::text::string_from_range(v.as_slice(), 0, k + 1);
                push_lit(&mut r, imp);
                let tail = crate::text::string_from_range(v.as_slice(), k + 1, v.len());
                push_string(&mut r, &tail);
                r
            },
            None => out,
        }
    } else {
        out
    }
}

/// `out` with the imports that it shows it needs.
fn add_late_imports(out: String) -> (r: String)
    ensures
        r@ == late_imports(out@),
{
    let d = crate::text::str_contains(out.as_str(), "Dispatchers.");
    let a = insert_import(out, d, "import kotlinx.coroutines.Dispatchers\n");
    let s = crate::text::str_contains(a.as_str(), "@Serializable");
    let b = insert_import(a, s, "import kotlinx.serialization.Serializable\n");
    let l = crate::text::str_contains(b.as_str(), ".launch {") || crate::text::str_contains(
        b.as_str(),
        ".launch(",
    );
    insert_import(b, l, "import kotlinx.coroutines.launch\n")
}

/// The coroutine scope and the lifecycle hooks.
fn build_effects(file: &WhitehallFile) -> (r: String)
    requires
        hooks_fine(file.lifecycle_hooks@),
    ensures
        r@ == standard_effects(*file),
{
    let mut out = String::new();
    if mount_launches_of(&file.lifecycle_hooks) || crate::compose_body::functions_launch_of(
        &file.functions,
    ) {
        push_lit(&mut out, "    ");
        push_lit(&mut out, "val coroutineScope = rememberCoroutineScope()\n\n");
    }
    let lc = crate::compose_body::generate_lifecycle(&file.lifecycle_hooks);
    push_string(&mut out, &lc);
    proof {
        reveal_with_fuel(indent_text, 2);
        assert(out@ =~= standard_effects(*file));
    }
    out
}

/// A standard Compose component `component_name` (in `package`) of `file`,
/// its markup rendered with `g` (see `standard_gen`): its code with the
/// imports that it shows it needs, FFI calls in camel case.
#[verifier::spinoff_prover]
pub fn generate_standard(
    package: &str,
    component_name: &str,
    registry: Option<&StoreRegistry>,
    f: GenFlags,
    g: &MarkupGen,
    st: &mut MarkupState,
    file: &WhitehallFile,
) -> (r: Result<String, String>)
    requires
        registry matches Some(reg) ==> reg.wf(),
        standard_fine(*g, *file),
    ensures
        match (r, standard_code(package@, component_name@, registry, f, *g, *old(st), *file).0) {
            (Ok(a), Ok(b)) => ffi_builds_all(ffi_objects(file.imports@)) && a@ == standard_file(
                b,
                *file,
            ),
            (Err(a), Err(b)) => a@ == b,
            (Err(_), Ok(_)) => !ffi_builds_all(ffi_objects(file.imports@)),
            _ => false,
        },
        *final(st) == standard_code(package@, component_name@, registry, f, *g, *old(st), *file).1,
{
    let ghost st0 = *st;
    let mut out = build_standard_head(package, component_name, registry, f, g, file);
    let ghost h = out@;
    let is_screen = screen_of(g);
    let first = has_computed_of(&file.state);
    let fs = &file.functions;
    if first {
        match crate::compose_body::generate_functions(g, st, fs, is_screen, false) {
            Err(e) => {
                return Err(e);
            },
            Ok(x) => {
                push_string(&mut out, &x);
            },
        }
        if fs.len() > 0 {
            push_lit(&mut out, "\n");
        }
    }
    let ghost st1 = *st;
    let ghost hx = out@;
    let eff = build_effects(file);
    push_string(&mut out, &eff);
    if !first && fs.len() > 0 {
        match crate::compose_body::generate_functions(g, st, fs, is_screen, true) {
            Err(e) => {
                return Err(e);
            },
            Ok(y) => {
                push_string(&mut out, &y);
            },
        }
    }
    let ghost hy = out@;
    match crate::compose_markup::generate_markup_with_indent(g, st, &file.markup, 1) {
        Err(e) => {
            return Err(e);
        },
        Ok(z) => {
            push_string(&mut out, &z);
        },
    }
    push_lit(&mut out, "}\n");
    crate::stores::push_kotlin_tail(&mut out, &file.kotlin_blocks);
    proof {
        let code = standard_code(package@, component_name@, registry, f, *g, st0, *file);
        assert(code.0 == Ok::<Seq<char>, Seq<char>>(out@));
    }
    let late = add_late_imports(out);
    crate::compose_backend::convert_ffi_function_names(late, file)
}


// ===================== Choosing what to generate =====================

/// Whether `t` mentions `$routes` or `$navigate`.
pub open spec fn mentions_routes(t: Seq<char>) -> bool {
    seq_contains(t, "$routes"@) || seq_contains(t, "$navigate"@)
}

/// Whether a function or hook of `file` mentions `$routes` or `$navigate`,
/// or its markup does.
pub open spec fn routes_used(file: WhitehallFile) -> bool {
    ||| exists|i: int|
        0 <= i < file.functions@.len() && mentions_routes((#[trigger] file.functions@[i]).body@)
    ||| exists|i: int|
        0 <= i < file.lifecycle_hooks@.len() && mentions_routes(
            (#[trigger] file.lifecycle_hooks@[i]).body@,
        )
    ||| crate::markup_scan::markup_uses_routes(file.markup)
}

/// The first class of `cs` that the registry holds as a store.
pub open spec fn first_store_class(cs: Seq<ClassDeclaration>, registry: Option<&StoreRegistry>) -> Option<
    ClassDeclaration,
>
    decreases cs.len(),
{
    if cs.len() == 0 {
        None
    } else if registered(registry, cs[0].name@) is Some {
        Some(cs[0])
    } else {
        first_store_class(cs.drop_first(), registry)
    }
}

/// Whether the registry holds component `name` as one with inline state.
pub open spec fn is_inline_component(registry: Option<&StoreRegistry>, name: Seq<char>) -> bool {
    registered(registry, name) matches Some(info) && info.source == StoreSource::ComponentInline
}

/// What a standard component of `file` uses: stores in its state (Hilt ones
/// apart), `$fetch(`, routes, and dispatcher blocks in its markup.
pub open spec fn standard_flags(
    registry: Option<&StoreRegistry>,
    file: WhitehallFile,
) -> GenFlags {
    GenFlags {
        uses_viewmodel: exists|i: int|
            0 <= i < file.state@.len() && #[trigger] state_store(registry, file.state@[i]) is Some,
        uses_hilt_viewmodel: exists|i: int|
            0 <= i < file.state@.len() && is_hilt_store(
                #[trigger] state_store(registry, file.state@[i]),
            ),
        uses_experimental_material3: false,
        uses_fetch: fetch_used(file),
        uses_routes: routes_used(file),
        uses_dispatchers: crate::markup_scan::uses_dispatchers(file.markup),
    }
}

/// Whether a function or hook of `file` mentions `$routes` or `$navigate`,
/// or its markup does.
fn detect_routes_usage(file: &WhitehallFile) -> (r: bool)
    ensures
        r == routes_used(*file),
{
    let fs = &file.functions;
    let mut i: usize = 0;
    while i < fs.len()
        invariant
            i <= fs@.len(),
            fs@ == file.functions@,
            forall|k: int| 0 <= k < i ==> !mentions_routes((#[trigger] fs@[k]).body@),
        decreases fs.len() - i,
    {
        if str_contains(fs[i].body.as_str(), "$routes") || str_contains(
            fs[i].body.as_str(),
            "$navigate",
        ) {
            assert(mentions_routes(file.functions@[i as int].body@));
            return true;
        }
        i = i + 1;
    }
    let hs = &file.lifecycle_hooks;
    let mut j: usize = 0;
    while j < hs.len()
        invariant
            j <= hs@.len(),
            hs@ == file.lifecycle_hooks@,
            forall|k: int| 0 <= k < j ==> !mentions_routes((#[trigger] hs@[k]).body@),
        decreases hs.len() - j,
    {
        if str_contains(hs[j].body.as_str(), "$routes") || str_contains(
            hs[j].body.as_str(),
            "$navigate",
        ) {
            assert(mentions_routes(file.lifecycle_hooks@[j as int].body@));
            return true;
        }
        j = j + 1;
    }
    crate::markup_scan::detect_markup_routes(&file.markup)
}

/// The first class of `cs` that the registry holds as a store.
fn find_store_class<'a>(cs: &'a Vec<ClassDeclaration>, registry: Option<&StoreRegistry>) -> (r:
    Option<&'a ClassDeclaration>)
    requires
        registry matches Some(reg) ==> reg.wf(),
    ensures
        match (r, first_store_class(cs@, registry)) {
            (Some(a), Some(b)) => *a == b,
            (None, None) => true,
            _ => false,
        },
{
    let mut i: usize = 0;
    proof {
        assert(cs@.subrange(0, cs@.len() as int) =~= cs@);
    }
    while i < cs.len()
        invariant
            i <= cs@.len(),
            registry matches Some(reg) ==> reg.wf(),
            first_store_class(cs@, registry) == first_store_class(
                cs@.subrange(i as int, cs@.len() as int),
                registry,
            ),
        decreases cs.len() - i,
    {
        let ghost rest = cs@.subrange(i as int, cs@.len() as int);
        proof {
            assert(rest[0] == cs@[i as int]);
            assert(rest.drop_first() =~= cs@.subrange(i + 1, cs@.len() as int));
        }
        let found = match registry {
            Some(reg) => reg.get(cs[i].name.as_str()).is_some(),
            None => false,
        };
        if found {
            return Some(&cs[i]);
        }
        i = i + 1;
    }
    None
}

/// Whether the registry holds component `name` as one with inline state.
fn inline_component(registry: Option<&StoreRegistry>, name: &str) -> (r: bool)
    requires
        registry matches Some(reg) ==> reg.wf(),
    ensures
        r == is_inline_component(registry, name@),
{
    match registry {
        Some(reg) => match reg.get(name) {
            Some(info) => info.source == StoreSource::ComponentInline,
            None => false,
        },
        None => false,
    }
}

/// The Kotlin of component `component_name` (in `package`) of `file`: a
/// store class of the file as its ViewModel or singleton; a component with
/// inline state as its wrapper and ViewModel (`route_params` being the
/// parameters the registry records for it); else a standard component,
/// rendered with `g` (dispatcher blocks and routes found in its markup and
/// code).
pub fn generate(
    package: &str,
    component_name: &str,
    registry: Option<&StoreRegistry>,
    route_params: &Vec<String>,
    base: &MarkupGen,
    g: &MarkupGen,
    w: &MarkupGen,
    st: &mut MarkupState,
    file: &WhitehallFile,
) -> (r: Result<TranspileResult, String>)
    requires
        registry matches Some(reg) ==> reg.wf(),
        standard_of(*g, *base, *file),
        wrapper_of(*w, *base, *file),
        first_store_class(file.classes@, registry) matches Some(c) ==> (registered_source(
            registry,
            c.name@,
        ) == StoreSource::ComponentInline ==> ui_names_ok(c.properties@)),
        first_store_class(file.classes@, registry) is None && is_inline_component(
            registry,
            component_name@,
        ) ==> {
            &&& component_state_ok(file.state@)
            &&& base.ctx.names_ok()
            &&& w.ctx.names_ok()
            &&& markup_safe(file.markup)
            &&& markup_fine(*w, file.markup, 1)
            &&& helpers_fine(*base, file.functions@)
            &&& plain_vals_fine(*w, file.state@)
        },
        first_store_class(file.classes@, registry) is None && !is_inline_component(
            registry,
            component_name@,
        ) ==> standard_fine(*g, *file),
    ensures
        match first_store_class(file.classes@, registry) {
            Some(c) => r matches Ok(TranspileResult::Single(code)) && code@ == store_class_code(
                package@,
                registry,
                *file,
                c,
            ) && *final(st) == *old(st),
            None => if is_inline_component(registry, component_name@) {
                let u = routes_used(*file);
                &&& match (r, wrapper_code(package@, component_name@, u, *base, *w, *old(st), *file).0) {
                    (Ok(TranspileResult::Multiple(v)), Ok(code)) => v@.len() == 2 && v@[0].0@.len()
                        == 0 && v@[0].1@ == code && v@[1].0@ == "ViewModel"@ && v@[1].1@
                        == component_viewmodel(package@, component_name@, strs(route_params@), *file),
                    (Err(a), Err(b)) => a@ == b,
                    _ => false,
                }
                &&& *final(st) == wrapper_code(package@, component_name@, u, *base, *w, *old(st), *file).1
            } else {
                let f = standard_flags(registry, *file);
                &&& match (
                    r,
                    standard_code(package@, component_name@, registry, f, *g, *old(st), *file).0,
                ) {
                    (Ok(TranspileResult::Single(a)), Ok(b)) => ffi_builds_all(ffi_objects(file.imports@))
                        && a@ == standard_file(b, *file),
                    (Err(a), Err(b)) => a@ == b,
                    (Err(_), Ok(_)) => !ffi_builds_all(ffi_objects(file.imports@)),
                    _ => false,
                }
                &&& *final(st) == standard_code(
                    package@,
                    component_name@,
                    registry,
                    f,
                    *g,
                    *old(st),
                    *file,
                ).1
            },
        },
{
    if let Some(class) = find_store_class(&file.classes, registry) {
        return match crate::stores::generate_store_class(package, registry, file, class) {
            Ok(code) => Ok(TranspileResult::Single(code)),
            Err(e) => Err(e),
        };
    }
    if inline_component(registry, component_name) {
        let u = detect_routes_usage(file);
        return crate::compose_backend::generate_component_viewmodel(
            package,
            component_name,
            route_params,
            u,
            base,
            w,
            st,
            file,
        );
    }
    proof {
        assert(standard_fine(*g, *file));
    }
    let (uses_viewmodel, uses_hilt_viewmodel) = crate::compose_scan::detect_store_usage(
        file,
        registry,
    );
    let f = GenFlags {
        uses_viewmodel,
        uses_hilt_viewmodel,
        uses_experimental_material3: false,
        uses_fetch: crate::compose_scan::detect_fetch_usage(file),
        uses_routes: detect_routes_usage(file),
        uses_dispatchers: crate::markup_scan::detect_dispatcher_usage(&file.markup),
    };
    proof {
        assert(f == standard_flags(registry, *file));
    }
    match generate_standard(package, component_name, registry, f, g, st, file) {
        Ok(code) => Ok(TranspileResult::Single(code)),
        Err(e) => Err(e),
    }
}


/// Whether a standard component can be generated from `file` with `g` (see
/// `standard_fine`).
pub fn standard_ok(g: &MarkupGen, file: &WhitehallFile) -> (r: bool)
    ensures
        r == standard_fine(*g, *file),
{
    g.ctx.names_ok_of() && crate::compose_imports::markup_safe_of(&file.markup)
        && crate::compose_markup::markup_fine_of(g, &file.markup, 1)
        && crate::compose_body::functions_fine_of(g, &file.functions)
        && crate::compose_body::hooks_fine_of(&file.lifecycle_hooks)
}


// ===================== Deciding what can be generated =====================

/// What generating component `name` of `file` with `registry` needs: a store
/// class with inline state has usable field names; a component with inline
/// state has usable state names and a wrapper that can render its markup,
/// helpers and values; a standard component can be rendered with `g`.
pub open spec fn compose_fine(
    name: Seq<char>,
    registry: Option<&StoreRegistry>,
    base: MarkupGen,
    g: MarkupGen,
    w: MarkupGen,
    file: WhitehallFile,
) -> bool {
    match first_store_class(file.classes@, registry) {
        Some(c) => registered_source(registry, c.name@) == StoreSource::ComponentInline ==> ui_names_ok(
            c.properties@,
        ),
        None => if is_inline_component(registry, name) {
            &&& component_state_ok(file.state@)
            &&& base.ctx.names_ok()
            &&& w.ctx.names_ok()
            &&& markup_safe(file.markup)
            &&& markup_fine(w, file.markup, 1)
            &&& helpers_fine(base, file.functions@)
            &&& plain_vals_fine(w, file.state@)
        } else {
            standard_fine(g, file)
        },
    }
}

/// What generating component `name` (in `package`) of `file` with
/// `registry` and route parameters `rp` gives from state `st`, with the
/// generators `base`, `g` (standard) and `w` (wrapper).
pub open spec fn compose_outcome(
    r: Result<TranspileResult, String>,
    package: Seq<char>,
    name: Seq<char>,
    registry: Option<&StoreRegistry>,
    rp: Seq<Seq<char>>,
    base: MarkupGen,
    g: MarkupGen,
    w: MarkupGen,
    st: MarkupState,
    file: WhitehallFile,
) -> bool {
    match first_store_class(file.classes@, registry) {
        Some(c) => r matches Ok(TranspileResult::Single(code)) && code@ == store_class_code(
            package,
            registry,
            file,
            c,
        ),
        None => if is_inline_component(registry, name) {
            match (r, wrapper_code(package, name, routes_used(file), base, w, st, file).0) {
                (Ok(TranspileResult::Multiple(v)), Ok(code)) => v@.len() == 2 && v@[0].0@.len() == 0
                    && v@[0].1@ == code && v@[1].0@ == "ViewModel"@ && v@[1].1@ == component_viewmodel(
                    package,
                    name,
                    rp,
                    file,
                ),
                (Err(a), Err(b)) => a@ == b,
                _ => false,
            }
        } else {
            match (r, standard_code(package, name, registry, standard_flags(registry, file), g, st, file).0) {
                (Ok(TranspileResult::Single(a)), Ok(b)) => ffi_builds_all(ffi_objects(file.imports@))
                    && a@ == standard_file(b, file),
                (Err(a), Err(b)) => a@ == b,
                (Err(_), Ok(_)) => !ffi_builds_all(ffi_objects(file.imports@)),
                _ => false,
            }
        },
    }
}

/// Whether generating component `name` of `file` with `registry` has what it
/// needs (see `compose_fine`).
pub fn compose_fine_of(
    name: &str,
    registry: Option<&StoreRegistry>,
    base: &MarkupGen,
    g: &MarkupGen,
    w: &MarkupGen,
    file: &WhitehallFile,
) -> (r: bool)
    requires
        registry matches Some(reg) ==> reg.wf(),
    ensures
        r == compose_fine(name@, registry, *base, *g, *w, *file),
{
    match find_store_class(&file.classes, registry) {
        Some(c) => {
            let inline_state = match registry {
                Some(reg) => match reg.get(c.name.as_str()) {
                    Some(info) => info.source == StoreSource::ComponentInline,
                    None => false,
                },
                None => false,
            };
            !inline_state || crate::stores::ui_names_ok_of(&c.properties)
        },
        None => if inline_component(registry, name) {
            crate::stores::component_state_ok_of(&file.state) && base.ctx.names_ok_of()
                && w.ctx.names_ok_of() && crate::compose_imports::markup_safe_of(&file.markup)
                && crate::compose_markup::markup_fine_of(w, &file.markup, 1)
                && crate::compose_wrapper::helpers_fine_of(base, &file.functions)
                && crate::compose_wrapper::plain_vals_fine_of(w, &file.state)
        } else {
            standard_ok(g, file)
        },
    }
}

} // verus!
