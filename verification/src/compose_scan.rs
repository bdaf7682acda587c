//! What the Compose backend learns from a file before it writes code: the
//! route parameters a screen reads, whether `$fetch` is used, and which
//! state holds a store.

use vstd::prelude::*;

use crate::analyzer::{StoreInfo, StoreRegistry};
use crate::ast::{
    Component, ComponentProp, ElseIfBranch, ForLoopBlock, FunctionDeclaration, IfElseBlock,
    LifecycleHook, Markup, PropValue, StateDeclaration, WhenBlock, WhenBranch, WhitehallFile,
};
use crate::compose_imports::strs;
use crate::stores::{sort_dedup, sorted_distinct};
use crate::text::{
    is_alphanumeric, lit_at, occurs_at, seq_contains, spec_trim, str_contains, str_to_chars,
    string_from_range, unicode_is_alphanumeric,
};

verus! {

// ===================== Route parameters =====================

/// A character of a parameter name.
pub open spec fn is_param_char(c: char) -> bool {
    unicode_is_alphanumeric(c) || c == '_'
}

/// The index after the parameter name that starts at `i`.
pub open spec fn param_end(s: Seq<char>, i: int) -> int
    decreases s.len() - i,
{
    if 0 <= i < s.len() && is_param_char(s[i]) {
        param_end(s, i + 1)
    } else {
        i
    }
}

pub proof fn lemma_param_end(s: Seq<char>, i: int)
    requires
        0 <= i <= s.len(),
    ensures
        i <= param_end(s, i) <= s.len(),
    decreases s.len() - i,
{
    if i < s.len() && is_param_char(s[i]) {
        lemma_param_end(s, i + 1);
    }
}

/// The names after each `$screen.params.` in `s` from index `i` on, in
/// order (an empty name is skipped).
pub open spec fn params_from(s: Seq<char>, i: int) -> Seq<Seq<char>>
    decreases s.len() - i,
{
    if i < 0 || i >= s.len() {
        Seq::empty()
    } else {
        (if occurs_at(s, i, "$screen.params."@) {
            let a = i + "$screen.params."@.len();
            let name = s.subrange(a, param_end(s, a));
            if name.len() > 0 {
                seq![name]
            } else {
                Seq::empty()
            }
        } else {
            Seq::empty()
        }) + params_from(s, i + 1)
    }
}

/// The route parameters named in `s`, in order.
pub open spec fn text_params(s: Seq<char>) -> Seq<Seq<char>> {
    params_from(s, 0)
}

/// Adds to `params` the route parameters that `text` names.
pub fn extract_params_from_text(text: &str, params: &mut Vec<String>)
    ensures
        strs(final(params)@) == strs(old(params)@) + text_params(text@),
{
    let v = str_to_chars(text);
    proof {
        reveal_strlit("$screen.params.");
    }
    let mut i: usize = 0;
    while i < v.len()
        invariant
            i <= v@.len(),
            v@ == text@,
            strs(old(params)@) + text_params(text@) == strs(params@) + params_from(text@, i as int),
        decreases v.len() - i,
    {
        let ghost before = strs(params@);
        proof {
            reveal_strlit("$screen.params.");
        }
        if lit_at(v.as_slice(), i, "$screen.params.") {
            let a = i + 15;
            let mut e = a;
            while e < v.len() && (is_alphanumeric(v[e]) || v[e] == '_')
                invariant
                    a <= e <= v@.len(),
                    v@ == text@,
                    param_end(text@, e as int) == param_end(text@, a as int),
                decreases v.len() - e,
            {
                e = e + 1;
            }
            if e > a {
                params.push(string_from_range(v.as_slice(), a, e));
            }
            proof {
                let name = text@.subrange(a as int, e as int);
                let piece = if name.len() > 0 {
                    seq![name]
                } else {
                    Seq::<Seq<char>>::empty()
                };
                assert(strs(params@) =~= before + piece);
                assert(before + (piece + params_from(text@, i + 1)) =~= strs(params@) + params_from(
                    text@,
                    i + 1,
                ));
            }
        } else {
            proof {
                assert(before + (Seq::<Seq<char>>::empty() + params_from(text@, i + 1)) =~= before
                    + params_from(text@, i + 1));
            }
        }
        i = i + 1;
    }
    proof {
        assert(strs(params@) + params_from(text@, i as int) =~= strs(params@));
    }
}

/// The route parameters named in markup `m`, in order: props, text,
/// interpolations, conditions, loop collections, and everything nested.
pub open spec fn markup_params(m: Markup) -> Seq<Seq<char>>
    decreases m,
{
    match m {
        Markup::Component(c) => component_params(c),
        Markup::Text(t) => text_params(t@),
        Markup::Interpolation(e) => text_params(e@),
        Markup::Sequence(items) => markups_params(items@),
        Markup::IfElse(b) => if_else_params(b),
        Markup::ForLoop(f) => for_loop_params(f),
        Markup::When(w) => when_params(w.branches@),
    }
}

pub open spec fn component_params(c: Component) -> Seq<Seq<char>>
    decreases c,
{
    props_params(c.props@) + markups_params(c.children@)
}

pub open spec fn if_else_params(b: IfElseBlock) -> Seq<Seq<char>>
    decreases b,
{
    text_params(b.condition@) + markups_params(b.then_branch@) + else_ifs_params(b.else_ifs@)
        + match b.else_branch {
        Some(e) => markups_params(e@),
        None => Seq::empty(),
    }
}

pub open spec fn for_loop_params(f: ForLoopBlock) -> Seq<Seq<char>>
    decreases f,
{
    text_params(f.collection@) + markups_params(f.body@) + match f.empty_block {
        Some(e) => markups_params(e@),
        None => Seq::empty(),
    }
}

pub open spec fn markups_params(ms: Seq<Markup>) -> Seq<Seq<char>>
    decreases ms,
{
    if ms.len() == 0 {
        Seq::empty()
    } else {
        markups_params(ms.drop_last()) + markup_params(ms.last())
    }
}

/// The route parameters in the expression props of `ps` (markup values are
/// not scanned).
pub open spec fn props_params(ps: Seq<ComponentProp>) -> Seq<Seq<char>>
    decreases ps.len(),
{
    if ps.len() == 0 {
        Seq::empty()
    } else {
        props_params(ps.drop_last()) + match ps.last().value {
            PropValue::Expression(e) => text_params(e@),
            PropValue::Markup(_) => Seq::empty(),
        }
    }
}

pub open spec fn else_ifs_params(bs: Seq<ElseIfBranch>) -> Seq<Seq<char>>
    decreases bs,
{
    if bs.len() == 0 {
        Seq::empty()
    } else {
        else_ifs_params(bs.drop_last()) + text_params(bs.last().condition@) + markups_params(
            bs.last().body@,
        )
    }
}

pub open spec fn when_params(bs: Seq<WhenBranch>) -> Seq<Seq<char>>
    decreases bs,
{
    if bs.len() == 0 {
        Seq::empty()
    } else {
        when_params(bs.drop_last()) + match bs.last().condition {
            Some(c) => text_params(c@),
            None => Seq::empty(),
        } + markup_params(bs.last().body)
    }
}

/// Adds to `params` the route parameters named in `markup`.
pub fn extract_params_from_single_markup(markup: &Markup, params: &mut Vec<String>)
    ensures
        strs(final(params)@) == strs(old(params)@) + markup_params(*markup),
    decreases *markup, 1nat,
{
    let ghost p0 = strs(params@);
    match markup {
        Markup::Component(comp) => params_of_component(comp, params),
        Markup::Text(t) => extract_params_from_text(t.as_str(), params),
        Markup::Interpolation(e) => extract_params_from_text(e.as_str(), params),
        Markup::Sequence(items) => params_of_items(items, params),
        Markup::IfElse(b) => params_of_if_else(b, params),
        Markup::ForLoop(f) => {
            extract_params_from_text(f.collection.as_str(), params);
            params_of_items(&f.body, params);
            let ghost mid = strs(params@);
            if let Some(e) = &f.empty_block {
                params_of_items(e, params);
            }
            proof {
                assert(strs(params@) =~= p0 + for_loop_params(*f));
            }
        },
        Markup::When(w) => params_of_when(w, params),
    }
}

fn params_of_items(items: &Vec<Markup>, params: &mut Vec<String>)
    ensures
        strs(final(params)@) == strs(old(params)@) + markups_params(items@),
    decreases items@, 0nat,
{
    let ghost p0 = strs(params@);
    let mut i: usize = 0;
    proof {
        assert(items@.take(0) =~= Seq::<Markup>::empty());
        assert(p0 + markups_params(items@.take(0)) =~= p0);
    }
    while i < items.len()
        invariant
            i <= items@.len(),
            p0 == strs(old(params)@),
            strs(params@) == p0 + markups_params(items@.take(i as int)),
        decreases items.len() - i,
    {
        extract_params_from_single_markup(&items[i], params);
        proof {
            assert(items@.take(i + 1).drop_last() =~= items@.take(i as int));
            assert(items@.take(i + 1).last() == items@[i as int]);
            vstd::seq_lib::lemma_concat_associative(
                p0,
                markups_params(items@.take(i as int)),
                markup_params(items@[i as int]),
            );
        }
        i = i + 1;
    }
    proof {
        assert(items@.take(items@.len() as int) =~= items@);
    }
}

fn params_of_component(comp: &Component, params: &mut Vec<String>)
    ensures
        strs(final(params)@) == strs(old(params)@) + component_params(*comp),
    decreases *comp, 0nat,
{
    let ghost p0 = strs(params@);
    let ps = &comp.props;
    let mut i: usize = 0;
    proof {
        assert(comp.props@.take(0) =~= Seq::<ComponentProp>::empty());
        assert(p0 + props_params(comp.props@.take(0)) =~= p0);
    }
    while i < comp.props.len()
        invariant
            i <= comp.props@.len(),
            p0 == strs(old(params)@),
            strs(params@) == p0 + props_params(comp.props@.take(i as int)),
        decreases comp.props.len() - i,
    {
        let prop = &comp.props[i];
        let ghost before = strs(params@);
        match &prop.value {
            PropValue::Expression(e) => extract_params_from_text(e.as_str(), params),
            PropValue::Markup(_) => {},
        }
        proof {
            assert(comp.props@.take(i + 1).drop_last() =~= comp.props@.take(i as int));
            assert(comp.props@.take(i + 1).last() == *prop);
            let piece = match &prop.value {
                PropValue::Expression(e) => text_params(e@),
                PropValue::Markup(_) => Seq::<Seq<char>>::empty(),
            };
            assert(strs(params@) =~= before + piece);
            vstd::seq_lib::lemma_concat_associative(
                p0,
                props_params(comp.props@.take(i as int)),
                piece,
            );
        }
        i = i + 1;
    }
    proof {
        assert(comp.props@.take(comp.props@.len() as int) =~= comp.props@);
    }
    params_of_items(&comp.children, params);
    proof {
        vstd::seq_lib::lemma_concat_associative(
            p0,
            props_params(comp.props@),
            markups_params(comp.children@),
        );
    }
}

fn params_of_if_else(b: &IfElseBlock, params: &mut Vec<String>)
    ensures
        strs(final(params)@) == strs(old(params)@) + if_else_params(*b),
    decreases *b, 0nat,
{
    let ghost p0 = strs(params@);
    extract_params_from_text(b.condition.as_str(), params);
    params_of_items(&b.then_branch, params);
    let ghost p1 = strs(params@);
    let ghost bs = b.else_ifs@;
    let mut k: usize = 0;
    proof {
        assert(bs.take(0) =~= Seq::<ElseIfBranch>::empty());
        assert(p1 + else_ifs_params(bs.take(0)) =~= p1);
    }
    while k < b.else_ifs.len()
        invariant
            k <= bs.len(),
            bs == b.else_ifs@,
            strs(params@) == p1 + else_ifs_params(bs.take(k as int)),
        decreases bs.len() - k,
    {
        let ghost before = strs(params@);
        extract_params_from_text(b.else_ifs[k].condition.as_str(), params);
        params_of_items(&b.else_ifs[k].body, params);
        proof {
            assert(bs.take(k + 1).drop_last() =~= bs.take(k as int));
            assert(bs.take(k + 1).last() == bs[k as int]);
            assert(strs(params@) =~= p1 + else_ifs_params(bs.take(k + 1)));
        }
        k = k + 1;
    }
    proof {
        assert(bs.take(bs.len() as int) =~= bs);
    }
    if let Some(e) = &b.else_branch {
        params_of_items(e, params);
    }
    proof {
        assert(strs(params@) =~= p0 + if_else_params(*b));
    }
}

fn params_of_when(w: &WhenBlock, params: &mut Vec<String>)
    ensures
        strs(final(params)@) == strs(old(params)@) + when_params(w.branches@),
    decreases *w, 0nat,
{
    let ghost p0 = strs(params@);
    let ghost bs = w.branches@;
    let mut k: usize = 0;
    proof {
        assert(bs.take(0) =~= Seq::<WhenBranch>::empty());
        assert(p0 + when_params(bs.take(0)) =~= p0);
    }
    while k < w.branches.len()
        invariant
            k <= bs.len(),
            bs == w.branches@,
            p0 == strs(old(params)@),
            strs(params@) == p0 + when_params(bs.take(k as int)),
        decreases bs.len() - k,
    {
        let branch = &w.branches[k];
        if let Some(c) = &branch.condition {
            extract_params_from_text(c.as_str(), params);
        }
        extract_params_from_single_markup(&branch.body, params);
        proof {
            assert(bs.take(k + 1).drop_last() =~= bs.take(k as int));
            assert(bs.take(k + 1).last() == bs[k as int]);
            assert(strs(params@) =~= p0 + when_params(bs.take(k + 1)));
        }
        k = k + 1;
    }
    proof {
        assert(bs.take(bs.len() as int) =~= bs);
    }
}

/// The route parameters named in the hooks, in order.
pub open spec fn hooks_params(hs: Seq<LifecycleHook>) -> Seq<Seq<char>>
    decreases hs.len(),
{
    if hs.len() == 0 {
        Seq::empty()
    } else {
        hooks_params(hs.drop_last()) + text_params(hs.last().body@)
    }
}

/// The route parameters named in the function bodies, in order.
pub open spec fn functions_params(fs: Seq<FunctionDeclaration>) -> Seq<Seq<char>>
    decreases fs.len(),
{
    if fs.len() == 0 {
        Seq::empty()
    } else {
        functions_params(fs.drop_last()) + text_params(fs.last().body@)
    }
}

/// The route parameters named in the initial values of the state, in order.
pub open spec fn states_params(ss: Seq<StateDeclaration>) -> Seq<Seq<char>>
    decreases ss.len(),
{
    if ss.len() == 0 {
        Seq::empty()
    } else {
        states_params(ss.drop_last()) + text_params(ss.last().initial_value@)
    }
}

/// The route parameters a screen reads (`$screen.params.x` in its hooks,
/// functions, state and markup), distinct and in increasing order.
pub open spec fn route_params(f: WhitehallFile) -> Seq<Seq<char>> {
    sorted_distinct(
        hooks_params(f.lifecycle_hooks@) + functions_params(f.functions@) + states_params(f.state@)
            + markup_params(f.markup),
    )
}

/// The route parameters that `file` reads, distinct and sorted.
pub fn extract_route_params(file: &WhitehallFile) -> (r: Vec<String>)
    ensures
        strs(r@) == route_params(*file),
{
    let mut params: Vec<String> = Vec::new();
    proof {
        assert(strs(params@) =~= Seq::<Seq<char>>::empty());
    }
    let hs = &file.lifecycle_hooks;
    let mut i: usize = 0;
    proof {
        assert(hs@.take(0) =~= Seq::<LifecycleHook>::empty());
    }
    while i < hs.len()
        invariant
            i <= hs@.len(),
            strs(params@) == hooks_params(hs@.take(i as int)),
        decreases hs.len() - i,
    {
        extract_params_from_text(hs[i].body.as_str(), &mut params);
        proof {
            assert(hs@.take(i + 1).drop_last() =~= hs@.take(i as int));
        }
        i = i + 1;
    }
    proof {
        assert(hs@.take(hs@.len() as int) =~= hs@);
    }
    let ghost a = strs(params@);
    let fs = &file.functions;
    i = 0;
    proof {
        assert(fs@.take(0) =~= Seq::<FunctionDeclaration>::empty());
        assert(a + functions_params(fs@.take(0)) =~= a);
    }
    while i < fs.len()
        invariant
            i <= fs@.len(),
            strs(params@) == a + functions_params(fs@.take(i as int)),
        decreases fs.len() - i,
    {
        extract_params_from_text(fs[i].body.as_str(), &mut params);
        proof {
            assert(fs@.take(i + 1).drop_last() =~= fs@.take(i as int));
            vstd::seq_lib::lemma_concat_associative(
                a,
                functions_params(fs@.take(i as int)),
                text_params(fs@[i as int].body@),
            );
        }
        i = i + 1;
    }
    proof {
        assert(fs@.take(fs@.len() as int) =~= fs@);
    }
    let ghost b = strs(params@);
    let ss = &file.state;
    i = 0;
    proof {
        assert(ss@.take(0) =~= Seq::<StateDeclaration>::empty());
        assert(b + states_params(ss@.take(0)) =~= b);
    }
    while i < ss.len()
        invariant
            i <= ss@.len(),
            strs(params@) == b + states_params(ss@.take(i as int)),
        decreases ss.len() - i,
    {
        extract_params_from_text(ss[i].initial_value.as_str(), &mut params);
        proof {
            assert(ss@.take(i + 1).drop_last() =~= ss@.take(i as int));
            vstd::seq_lib::lemma_concat_associative(
                b,
                states_params(ss@.take(i as int)),
                text_params(ss@[i as int].initial_value@),
            );
        }
        i = i + 1;
    }
    proof {
        assert(ss@.take(ss@.len() as int) =~= ss@);
    }
    extract_params_from_single_markup(&file.markup, &mut params);
    sort_dedup(&params)
}

// ===================== $fetch =====================

/// Whether a state initial value, a hook or a function of `f` calls `$fetch(`.
pub open spec fn fetch_used(f: WhitehallFile) -> bool {
    (exists|i: int|
        0 <= i < f.state@.len() && seq_contains(#[trigger] f.state@[i].initial_value@, "$fetch("@))
        || crate::stores::uses_fetch(f)
}

/// Whether `file` uses `$fetch(` (and so needs an HTTP client).
pub fn detect_fetch_usage(file: &WhitehallFile) -> (r: bool)
    ensures
        r == fetch_used(*file),
{
    let ss = &file.state;
    let mut i: usize = 0;
    while i < ss.len()
        invariant
            i <= ss@.len(),
            ss@ == file.state@,
            forall|j: int| 0 <= j < i ==> !seq_contains(#[trigger] ss@[j].initial_value@, "$fetch("@),
        decreases ss.len() - i,
    {
        if str_contains(ss[i].initial_value.as_str(), "$fetch(") {
            assert(seq_contains(file.state@[i as int].initial_value@, "$fetch("@));
            return true;
        }
        i = i + 1;
    }
    crate::stores::any_fetch(file)
}

// ===================== Stores in state =====================

/// The class that `value` instantiates: `Name(...)` gives `Name`.
pub open spec fn instantiated_class(value: Seq<char>) -> Option<Seq<char>> {
    let t = spec_trim(value);
    if t.len() > 0 && t.last() == ')' {
        match crate::stores::first_index(t, '(') {
            Some(p) => Some(spec_trim(t.take(p))),
            None => None,
        }
    } else {
        None
    }
}

/// What the registry holds under `name`.
pub open spec fn registered(registry: Option<&StoreRegistry>, name: Seq<char>) -> Option<StoreInfo> {
    match registry {
        Some(r) => if r.view().contains_key(name) {
            Some(r.view()[name])
        } else {
            None
        },
        None => None,
    }
}

/// The store that `value` instantiates, if it is a registered store class.
pub open spec fn instantiated_store(registry: Option<&StoreRegistry>, value: Seq<char>) -> Option<
    StoreInfo,
> {
    match instantiated_class(value) {
        Some(n) => registered(registry, n),
        None => None,
    }
}

/// `a` holds what `b` holds.
pub open spec fn same_info(a: StoreInfo, b: StoreInfo) -> bool {
    &&& a.class_name@ == b.class_name@
    &&& a.source == b.source
    &&& a.has_vars == b.has_vars
    &&& a.has_hilt == b.has_hilt
    &&& a.has_inject == b.has_inject
    &&& a.package@ == b.package@
}

/// A copy of `info`.
fn copy_info(info: &StoreInfo) -> (r: StoreInfo)
    ensures
        same_info(r, *info),
{
    StoreInfo {
        class_name: crate::text::lit(info.class_name.as_str()),
        source: info.source,
        has_vars: info.has_vars,
        has_hilt: info.has_hilt,
        has_inject: info.has_inject,
        package: crate::text::lit(info.package.as_str()),
    }
}

/// The store that `value` instantiates (`Name()` or `Name(args)` of a
/// registered store class), if any.
pub fn detect_store_instantiation(value: &str, registry: Option<&StoreRegistry>) -> (r: Option<
    StoreInfo,
>)
    requires
        registry matches Some(reg) ==> reg.wf(),
    ensures
        match (r, instantiated_store(registry, value@)) {
            (Some(a), Some(b)) => same_info(a, b),
            (None, None) => true,
            _ => false,
        },
{
    let t = crate::text::trim_str(value);
    let tv = str_to_chars(t.as_str());
    if !(tv.len() > 0 && tv[tv.len() - 1] == ')') {
        return None;
    }
    match crate::stores::first_index_of(&tv, '(') {
        None => None,
        Some(p) => {
            let name = crate::text::trimmed_range(tv.as_slice(), 0, p);
            proof {
                assert(tv@.subrange(0, p as int) =~= tv@.take(p as int));
            }
            match registry {
                Some(reg) => match reg.get(name.as_str()) {
                    Some(info) => Some(copy_info(info)),
                    None => None,
                },
                None => None,
            }
        },
    }
}

/// The store that state variable `st` holds (its initial value with list
/// and range literals rewritten), if any.
pub open spec fn state_store(registry: Option<&StoreRegistry>, st: StateDeclaration) -> Option<
    StoreInfo,
> {
    instantiated_store(
        registry,
        crate::compose::range_list(crate::compose::array_list(st.initial_value@, false)),
    )
}

/// A store that uses Hilt.
pub open spec fn is_hilt_store(o: Option<StoreInfo>) -> bool {
    match o {
        Some(info) => info.has_hilt,
        None => false,
    }
}

/// Whether the state holds stores: (some store, some Hilt store).
pub fn detect_store_usage(file: &WhitehallFile, registry: Option<&StoreRegistry>) -> (r: (bool, bool))
    requires
        registry matches Some(reg) ==> reg.wf(),
    ensures
        r.0 == exists|i: int|
            0 <= i < file.state@.len() && #[trigger] state_store(registry, file.state@[i]) is Some,
        r.1 == exists|i: int|
            0 <= i < file.state@.len() && is_hilt_store(#[trigger] state_store(registry, file.state@[i])),
{
    let ss = &file.state;
    let mut uses_viewmodel = false;
    let mut uses_hilt = false;
    let mut i: usize = 0;
    while i < ss.len()
        invariant
            i <= ss@.len(),
            ss@ == file.state@,
            registry matches Some(reg) ==> reg.wf(),
            uses_viewmodel == exists|j: int|
                0 <= j < i && #[trigger] state_store(registry, ss@[j]) is Some,
            uses_hilt == exists|j: int|
                0 <= j < i && is_hilt_store(#[trigger] state_store(registry, ss@[j])),
        decreases ss.len() - i,
    {
        proof {
        }
        let listed = crate::compose::transform_array_literal(ss[i].initial_value.as_str(), false);
        let ranged = crate::compose::transform_range_literal(listed.as_str());
        let found = detect_store_instantiation(ranged.as_str(), registry);
        proof {
            assert(state_store(registry, ss@[i as int]) == instantiated_store(registry, ranged@));
        }
        if let Some(info) = &found {
            uses_viewmodel = true;
            if info.has_hilt {
                uses_hilt = true;
            }
        }
        i = i + 1;
    }
    (uses_viewmodel, uses_hilt)
}

} // verus!
