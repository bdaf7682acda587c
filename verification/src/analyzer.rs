//! Semantic analysis of a parsed Whitehall file.
//!
//! Builds a symbol table, tracks where each declared name is used, records
//! which names are mutable, registers store classes, and scores `@for` loops
//! over collections for the static-list optimization.

use vstd::prelude::*;

use crate::ast::{
    ClassDeclaration, Component, ComponentProp, ElseIfBranch, ForLoopBlock, FunctionDeclaration,
    IfElseBlock, LifecycleHook, Markup, PropDeclaration, PropValue, StateDeclaration, WhenBlock,
    WhenBranch, WhitehallFile,
};
use crate::text::{lit_at, occurs_at, push_char, seq_contains, str_contains, str_eq, str_to_chars};

verus! {

// ===================== Keyed tables =====================

/// The map that a sequence of `(key, value)` entries denotes (later entries win).
pub open spec fn entries_map<V>(s: Seq<(String, V)>) -> Map<Seq<char>, V>
    decreases s.len(),
{
    if s.len() == 0 {
        Map::empty()
    } else {
        entries_map(s.drop_last()).insert(s.last().0@, s.last().1)
    }
}

/// No key occurs twice.
pub open spec fn keys_unique<V>(s: Seq<(String, V)>) -> bool {
    forall|i: int, j: int| 0 <= i < j < s.len() ==> s[i].0@ != s[j].0@
}

proof fn lemma_entries_map_dom<V>(s: Seq<(String, V)>, k: Seq<char>)
    ensures
        entries_map(s).contains_key(k) <==> exists|i: int| 0 <= i < s.len() && s[i].0@ == k,
    decreases s.len(),
{
    if s.len() > 0 {
        lemma_entries_map_dom(s.drop_last(), k);
        if exists|i: int| 0 <= i < s.len() && s[i].0@ == k {
            let i = choose|i: int| 0 <= i < s.len() && s[i].0@ == k;
            if i < s.len() - 1 {
                assert(s.drop_last()[i].0@ == k);
            }
        }
        if exists|i: int| 0 <= i < s.drop_last().len() && s.drop_last()[i].0@ == k {
            let i = choose|i: int| 0 <= i < s.drop_last().len() && s.drop_last()[i].0@ == k;
            assert(s[i].0@ == k);
        }
    }
}

proof fn lemma_entries_map_at<V>(s: Seq<(String, V)>, i: int)
    requires
        keys_unique(s),
        0 <= i < s.len(),
    ensures
        entries_map(s).contains_key(s[i].0@),
        entries_map(s)[s[i].0@] == s[i].1,
    decreases s.len(),
{
    if i < s.len() - 1 {
        lemma_entries_map_at(s.drop_last(), i);
        assert(s.drop_last()[i] == s[i]);
    }
}

proof fn lemma_entries_map_update<V>(s: Seq<(String, V)>, i: int, v: V)
    requires
        keys_unique(s),
        0 <= i < s.len(),
    ensures
        entries_map(s.update(i, (s[i].0, v))) == entries_map(s).insert(s[i].0@, v),
        keys_unique(s.update(i, (s[i].0, v))),
    decreases s.len(),
{
    let t = s.update(i, (s[i].0, v));
    if i == s.len() - 1 {
        assert(t.drop_last() == s.drop_last());
        assert(entries_map(s).insert(s[i].0@, v) =~= entries_map(s.drop_last()).insert(
            s[i].0@,
            v,
        ));
    } else {
        lemma_entries_map_update(s.drop_last(), i, v);
        assert(t.drop_last() == s.drop_last().update(i, (s[i].0, v)));
        assert(s.last().0@ != s[i].0@);
        assert(entries_map(t) =~= entries_map(s).insert(s[i].0@, v));
    }
}

proof fn lemma_entries_map_remove<V>(s: Seq<(String, V)>, i: int)
    requires
        keys_unique(s),
        0 <= i < s.len(),
    ensures
        entries_map(s.remove(i)) == entries_map(s).remove(s[i].0@),
        keys_unique(s.remove(i)),
    decreases s.len(),
{
    let t = s.remove(i);
    if i == s.len() - 1 {
        assert(t == s.drop_last());
        lemma_entries_map_dom(s.drop_last(), s[i].0@);
        assert(entries_map(t) =~= entries_map(s).remove(s[i].0@));
    } else {
        lemma_entries_map_remove(s.drop_last(), i);
        assert(t.drop_last() == s.drop_last().remove(i));
        assert(t.last() == s.last());
        assert(entries_map(t) =~= entries_map(s).remove(s[i].0@));
    }
}

proof fn lemma_entries_map_insert_at<V>(s: Seq<(String, V)>, i: int, k: String, v: V)
    requires
        keys_unique(s),
        0 <= i <= s.len(),
        forall|j: int| 0 <= j < s.len() ==> s[j].0@ != k@,
    ensures
        entries_map(s.insert(i, (k, v))) == entries_map(s).insert(k@, v),
        keys_unique(s.insert(i, (k, v))),
    decreases s.len(),
{
    let t = s.insert(i, (k, v));
    if i == s.len() {
        assert(t.drop_last() == s);
    } else {
        lemma_entries_map_insert_at(s.drop_last(), i, k, v);
        assert(t.drop_last() == s.drop_last().insert(i, (k, v)));
        assert(t.last() == s.last());
        assert(entries_map(t) =~= entries_map(s).insert(k@, v));
    }
}

/// A table from names to values: a list of entries with distinct names.
#[derive(Debug)]
pub struct NameMap<V> {
    entries: Vec<(String, V)>,
}

impl<V> NameMap<V> {
    /// The map from each name to its value.
    pub closed spec fn map(&self) -> Map<Seq<char>, V> {
        entries_map(self.entries@)
    }

    /// The entries have distinct names.
    pub closed spec fn wf(&self) -> bool {
        keys_unique(self.entries@)
    }

    /// The entries in insertion order.
    pub closed spec fn entry_seq(&self) -> Seq<(String, V)> {
        self.entries@
    }

    pub proof fn lemma_entry_seq(&self)
        requires
            self.wf(),
        ensures
            self.map() == entries_map(self.entry_seq()),
            keys_unique(self.entry_seq()),
    {
    }

    pub fn new() -> (m: Self)
        ensures
            m.wf(),
            m.map() == Map::<Seq<char>, V>::empty(),
            m.entry_seq().len() == 0,
    {
        NameMap { entries: Vec::new() }
    }

    /// Index of the entry named `name`, if any.
    fn find(&self, name: &str) -> (r: Option<usize>)
        requires
            self.wf(),
        ensures
            match r {
                Some(i) => i < self.entries@.len() && self.entries@[i as int].0@ == name@,
                None => !self.map().contains_key(name@),
            },
    {
        let mut i: usize = 0;
        while i < self.entries.len()
            invariant
                i <= self.entries@.len(),
                forall|j: int| 0 <= j < i ==> self.entries@[j].0@ != name@,
            decreases self.entries.len() - i,
        {
            if str_eq(self.entries[i].0.as_str(), name) {
                return Some(i);
            }
            i = i + 1;
        }
        proof {
            lemma_entries_map_dom(self.entries@, name@);
        }
        None
    }

    /// Associates `value` with `name`, replacing any earlier value.
    pub fn insert(&mut self, name: String, value: V)
        requires
            old(self).wf(),
        ensures
            final(self).wf(),
            final(self).map() == old(self).map().insert(name@, value),
    {
        match self.find(name.as_str()) {
            Some(i) => {
                let ghost s = self.entries@;
                let ghost k = s[i as int].0;
                let (key, _old_value) = self.entries.remove(i);
                self.entries.insert(i, (key, value));
                proof {
                    assert(self.entries@ =~= s.update(i as int, (k, value)));
                    lemma_entries_map_update(s, i as int, value);
                }
            },
            None => {
                let ghost s = self.entries@;
                proof {
                    lemma_entries_map_dom(s, name@);
                }
                self.entries.push((name, value));
                proof {
                    assert(self.entries@.drop_last() == s);
                }
            },
        }
    }

    /// The value associated with `name`.
    pub fn get(&self, name: &str) -> (r: Option<&V>)
        requires
            self.wf(),
        ensures
            match r {
                Some(v) => self.map().contains_key(name@) && *v == self.map()[name@],
                None => !self.map().contains_key(name@),
            },
    {
        match self.find(name) {
            Some(i) => {
                proof {
                    lemma_entries_map_at(self.entries@, i as int);
                }
                Some(&self.entries[i].1)
            },
            None => None,
        }
    }

    /// Whether `name` has a value.
    pub fn contains(&self, name: &str) -> (r: bool)
        requires
            self.wf(),
        ensures
            r == self.map().contains_key(name@),
    {
        match self.find(name) {
            Some(i) => {
                proof {
                    lemma_entries_map_at(self.entries@, i as int);
                }
                true
            },
            None => false,
        }
    }

    /// Index of the entry named `name`, if any.
    pub fn index_of(&self, name: &str) -> (r: Option<usize>)
        requires
            self.wf(),
        ensures
            match r {
                Some(i) => i < self.entry_seq().len() && self.entry_seq()[i as int].0@ == name@
                    && self.map().contains_key(name@) && self.map()[name@] == self.entry_seq()[i as int].1,
                None => !self.map().contains_key(name@),
            },
    {
        let r = self.find(name);
        if let Some(i) = r {
            proof {
                lemma_entries_map_at(self.entries@, i as int);
            }
        }
        r
    }

    /// Removes the entry at `i`, returning its name and value.
    pub fn take_at(&mut self, i: usize) -> (r: (String, V))
        requires
            old(self).wf(),
            i < old(self).entry_seq().len(),
        ensures
            final(self).wf(),
            r == old(self).entry_seq()[i as int],
            final(self).map() == old(self).map().remove(r.0@),
            final(self).entry_seq() == old(self).entry_seq().remove(i as int),
    {
        proof {
            lemma_entries_map_remove(self.entries@, i as int);
        }
        self.entries.remove(i)
    }

    /// Puts an entry named `name` (a name without an entry) back at index `i`.
    pub fn put_at(&mut self, i: usize, name: String, value: V)
        requires
            old(self).wf(),
            i <= old(self).entry_seq().len(),
            !old(self).map().contains_key(name@),
        ensures
            final(self).wf(),
            final(self).map() == old(self).map().insert(name@, value),
            final(self).entry_seq() == old(self).entry_seq().insert(i as int, (name, value)),
    {
        proof {
            lemma_entries_map_dom(self.entries@, name@);
            lemma_entries_map_insert_at(self.entries@, i as int, name, value);
        }
        self.entries.insert(i, (name, value));
    }

    /// Number of entries.
    pub fn len(&self) -> (n: usize)
        ensures
            n == self.entry_seq().len(),
    {
        self.entries.len()
    }

    /// The `i`-th entry in insertion order.
    pub fn entry(&self, i: usize) -> (r: (&String, &V))
        requires
            i < self.entry_seq().len(),
        ensures
            *r.0 == self.entry_seq()[i as int].0,
            *r.1 == self.entry_seq()[i as int].1,
    {
        (&self.entries[i].0, &self.entries[i].1)
    }
}

// ===================== Stores =====================

/// Where a store's reactive state comes from.
#[derive(Debug, Clone, Copy, PartialEq, Eq, Structural)]
pub enum StoreSource {
    /// A class with `var` properties: a ViewModel.
    Class,
    /// `var`s inline in a component: a ViewModel.
    ComponentInline,
    /// `@store object`: a singleton.
    Singleton,
}

/// A reactive class (store).
#[derive(Debug, Clone)]
pub struct StoreInfo {
    pub class_name: String,
    pub source: StoreSource,
    /// Has at least one `var` property.
    pub has_vars: bool,
    /// Uses Hilt (`@hilt`/`@HiltViewModel` or an `@Inject` constructor).
    pub has_hilt: bool,
    /// Has an `@Inject` constructor.
    pub has_inject: bool,
    /// Package name (filled in by code generation).
    pub package: String,
}

/// All store classes, by name.
#[derive(Debug)]
pub struct StoreRegistry {
    stores: NameMap<StoreInfo>,
}

impl StoreRegistry {
    /// The stores, by name.
    pub closed spec fn view(&self) -> Map<Seq<char>, StoreInfo> {
        self.stores.map()
    }

    pub closed spec fn wf(&self) -> bool {
        self.stores.wf()
    }

    /// The registered `(name, info)` pairs in insertion order.
    pub closed spec fn entry_seq(&self) -> Seq<(String, StoreInfo)> {
        self.stores.entry_seq()
    }

    /// The view is the map that the entries denote, and names are distinct.
    pub proof fn lemma_entries(&self)
        requires
            self.wf(),
        ensures
            self.view() == entries_map(self.entry_seq()),
            keys_unique(self.entry_seq()),
    {
        self.stores.lemma_entry_seq();
    }

    pub fn new() -> (r: Self)
        ensures
            r.wf(),
            r.view() == Map::<Seq<char>, StoreInfo>::empty(),
            r.entry_seq().len() == 0,
    {
        StoreRegistry { stores: NameMap::new() }
    }

    /// Registers `info` under `name`, replacing an earlier registration.
    pub fn insert(&mut self, name: String, info: StoreInfo)
        requires
            old(self).wf(),
        ensures
            final(self).wf(),
            final(self).view() == old(self).view().insert(name@, info),
    {
        self.stores.insert(name, info);
    }

    /// The store registered under `name`.
    pub fn get(&self, name: &str) -> (r: Option<&StoreInfo>)
        requires
            self.wf(),
        ensures
            match r {
                Some(v) => self.view().contains_key(name@) && *v == self.view()[name@],
                None => !self.view().contains_key(name@),
            },
    {
        self.stores.get(name)
    }

    /// Whether a store is registered under `name`.
    pub fn contains(&self, name: &str) -> (r: bool)
        requires
            self.wf(),
        ensures
            r == self.view().contains_key(name@),
    {
        self.stores.contains(name)
    }

    /// Whether the store `name` is registered and uses Hilt.
    pub fn is_hilt_view_model(&self, name: &str) -> (r: bool)
        requires
            self.wf(),
        ensures
            r == (self.view().contains_key(name@) && self.view()[name@].has_hilt),
    {
        match self.get(name) {
            Some(info) => info.has_hilt,
            None => false,
        }
    }

    /// The registered `(name, info)` pairs, in insertion order.
    pub fn iter(&self) -> (r: Vec<(&String, &StoreInfo)>)
        requires
            self.wf(),
        ensures
            r@.len() == self.entry_seq().len(),
            forall|i: int|
                0 <= i < r@.len() ==> *r@[i].0 == self.entry_seq()[i].0 && *r@[i].1
                    == self.entry_seq()[i].1,
    {
        let mut r: Vec<(&String, &StoreInfo)> = Vec::new();
        let n = self.stores.len();
        let mut i: usize = 0;
        while i < n
            invariant
                n == self.entry_seq().len(),
                i <= n,
                r@.len() == i,
                forall|j: int|
                    0 <= j < i ==> *r@[j].0 == self.entry_seq()[j].0 && *r@[j].1
                        == self.entry_seq()[j].1,
            decreases n - i,
        {
            r.push(self.stores.entry(i));
            i = i + 1;
        }
        r
    }
}

// ===================== Usage tracking =====================

/// Where a name is used.
#[derive(Debug, Clone, PartialEq, Eq, Hash)]
pub enum UsageContext {
    /// As the collection of a `@for` loop.
    InForLoopCollection { collection: String },
    /// Inside the body of the `@for` loop over `collection`.
    InForLoopBody { collection: String },
    /// In the key expression of the `@for` loop over `collection`.
    InKeyExpression { collection: String },
    /// In an `@if` (`if`), `else if` (`else-if`) or `@when` (`when`) condition.
    InCondition { condition_type: String },
    /// In the value of prop `prop_name` of component `component`.
    InComponentProp { component: String, prop_name: String },
    /// In a `{..}` interpolation.
    InInterpolation,
    /// In a lifecycle hook body.
    InLifecycleHook { hook_type: String },
}

/// The mathematical value of a `UsageContext`.
pub enum ContextView {
    InForLoopCollection(Seq<char>),
    InForLoopBody(Seq<char>),
    InKeyExpression(Seq<char>),
    InCondition(Seq<char>),
    InComponentProp(Seq<char>, Seq<char>),
    InInterpolation,
    InLifecycleHook(Seq<char>),
}

impl View for UsageContext {
    type V = ContextView;

    open spec fn view(&self) -> ContextView {
        match self {
            UsageContext::InForLoopCollection { collection } => ContextView::InForLoopCollection(
                collection@,
            ),
            UsageContext::InForLoopBody { collection } => ContextView::InForLoopBody(collection@),
            UsageContext::InKeyExpression { collection } => ContextView::InKeyExpression(
                collection@,
            ),
            UsageContext::InCondition { condition_type } => ContextView::InCondition(
                condition_type@,
            ),
            UsageContext::InComponentProp { component, prop_name } =>
                ContextView::InComponentProp(component@, prop_name@),
            UsageContext::InInterpolation => ContextView::InInterpolation,
            UsageContext::InLifecycleHook { hook_type } => ContextView::InLifecycleHook(
                hook_type@,
            ),
        }
    }
}

/// Whether two contexts are the same.
pub fn context_eq(a: &UsageContext, b: &UsageContext) -> (r: bool)
    ensures
        r == (a@ == b@),
{
    match (a, b) {
        (
            UsageContext::InForLoopCollection { collection: x },
            UsageContext::InForLoopCollection { collection: y },
        ) => str_eq(x.as_str(), y.as_str()),
        (
            UsageContext::InForLoopBody { collection: x },
            UsageContext::InForLoopBody { collection: y },
        ) => str_eq(x.as_str(), y.as_str()),
        (
            UsageContext::InKeyExpression { collection: x },
            UsageContext::InKeyExpression { collection: y },
        ) => str_eq(x.as_str(), y.as_str()),
        (
            UsageContext::InCondition { condition_type: x },
            UsageContext::InCondition { condition_type: y },
        ) => str_eq(x.as_str(), y.as_str()),
        (
            UsageContext::InComponentProp { component: c1, prop_name: p1 },
            UsageContext::InComponentProp { component: c2, prop_name: p2 },
        ) => str_eq(c1.as_str(), c2.as_str()) && str_eq(p1.as_str(), p2.as_str()),
        (UsageContext::InInterpolation, UsageContext::InInterpolation) => true,
        (
            UsageContext::InLifecycleHook { hook_type: x },
            UsageContext::InLifecycleHook { hook_type: y },
        ) => str_eq(x.as_str(), y.as_str()),
        _ => false,
    }
}

/// A copy of `c`.
pub fn copy_context(c: &UsageContext) -> (r: UsageContext)
    ensures
        r@ == c@,
{
    match c {
        UsageContext::InForLoopCollection { collection } => UsageContext::InForLoopCollection {
            collection: collection.clone(),
        },
        UsageContext::InForLoopBody { collection } => UsageContext::InForLoopBody {
            collection: collection.clone(),
        },
        UsageContext::InKeyExpression { collection } => UsageContext::InKeyExpression {
            collection: collection.clone(),
        },
        UsageContext::InCondition { condition_type } => UsageContext::InCondition {
            condition_type: condition_type.clone(),
        },
        UsageContext::InComponentProp { component, prop_name } => UsageContext::InComponentProp {
            component: component.clone(),
            prop_name: prop_name.clone(),
        },
        UsageContext::InInterpolation => UsageContext::InInterpolation,
        UsageContext::InLifecycleHook { hook_type } => UsageContext::InLifecycleHook {
            hook_type: hook_type.clone(),
        },
    }
}

/// The mathematical value of a `UsageInfo`.
pub struct UsageView {
    pub access_count: nat,
    pub contexts: Set<ContextView>,
    pub used_in_loops: bool,
    pub used_in_conditions: bool,
    pub used_in_keys: bool,
}

/// `u` after one more access in context `c`.
pub open spec fn record_view(u: UsageView, c: ContextView) -> UsageView {
    UsageView {
        access_count: u.access_count + 1,
        contexts: u.contexts.insert(c),
        used_in_loops: u.used_in_loops || c is InForLoopBody,
        used_in_conditions: u.used_in_conditions || c is InCondition,
        used_in_keys: u.used_in_keys || c is InKeyExpression,
    }
}

/// The usage of a name with no recorded access.
pub open spec fn unused_view() -> UsageView {
    UsageView {
        access_count: 0,
        contexts: Set::empty(),
        used_in_loops: false,
        used_in_conditions: false,
        used_in_keys: false,
    }
}

/// The flags agree with the recorded contexts, and there is at least one access
/// per recorded context.
pub open spec fn usage_consistent(u: UsageView) -> bool {
    &&& u.contexts.finite()
    &&& u.contexts.len() <= u.access_count
    &&& u.used_in_loops == (exists|c: ContextView| u.contexts.contains(c) && c is InForLoopBody)
    &&& u.used_in_conditions == (exists|c: ContextView| u.contexts.contains(c) && c is InCondition)
    &&& u.used_in_keys == (exists|c: ContextView| u.contexts.contains(c) && c is InKeyExpression)
}

/// Where and how often a name is used.
#[derive(Debug)]
pub struct UsageInfo {
    pub access_count: usize,
    /// The distinct contexts of the accesses (no context occurs twice).
    pub contexts: Vec<UsageContext>,
    /// Accessed inside a `@for` loop body.
    pub used_in_loops: bool,
    /// Accessed in an `@if`/`@when` condition.
    pub used_in_conditions: bool,
    /// Accessed in a `@for` key expression.
    pub used_in_keys: bool,
}

/// The views of the contexts in `s`, as a set.
pub open spec fn context_set(s: Seq<UsageContext>) -> Set<ContextView> {
    s.map_values(|c: UsageContext| c@).to_set()
}

/// No two contexts in `s` are the same.
pub open spec fn contexts_distinct(s: Seq<UsageContext>) -> bool {
    forall|i: int, j: int| 0 <= i < j < s.len() ==> s[i]@ != s[j]@
}

impl View for UsageInfo {
    type V = UsageView;

    open spec fn view(&self) -> UsageView {
        UsageView {
            access_count: self.access_count as nat,
            contexts: context_set(self.contexts@),
            used_in_loops: self.used_in_loops,
            used_in_conditions: self.used_in_conditions,
            used_in_keys: self.used_in_keys,
        }
    }
}

impl UsageInfo {
    /// The contexts are distinct.
    pub open spec fn wf(&self) -> bool {
        contexts_distinct(self.contexts@)
    }

    /// No access recorded.
    pub fn new() -> (u: Self)
        ensures
            u.wf(),
            u@ == unused_view(),
    {
        let u = UsageInfo {
            access_count: 0,
            contexts: Vec::new(),
            used_in_loops: false,
            used_in_conditions: false,
            used_in_keys: false,
        };
        assert(context_set(u.contexts@) =~= Set::<ContextView>::empty());
        u
    }

    /// Records one access in `context`.
    pub fn record_access(&mut self, context: UsageContext)
        requires
            old(self).wf(),
            old(self).access_count < usize::MAX,
        ensures
            final(self).wf(),
            final(self)@ == record_view(old(self)@, context@),
    {
        self.access_count = self.access_count + 1;
        let ghost old_contexts = self.contexts@;
        let mut present = false;
        let mut i: usize = 0;
        while i < self.contexts.len()
            invariant
                self.contexts@ == old_contexts,
                i <= self.contexts@.len(),
                present == (exists|j: int| 0 <= j < i && self.contexts@[j]@ == context@),
            decreases self.contexts.len() - i,
        {
            if context_eq(&self.contexts[i], &context) {
                present = true;
            }
            i = i + 1;
        }
        let ghost ctx = context@;
        if !present {
            self.contexts.push(copy_context(&context));
            assert(self.contexts@.drop_last() == old_contexts);
            assert(context_set(self.contexts@) =~= context_set(old_contexts).insert(ctx)) by {
                let m = self.contexts@.map_values(|c: UsageContext| c@);
                let m0 = old_contexts.map_values(|c: UsageContext| c@);
                assert(m == m0.push(ctx));
                assert forall|x: ContextView| m.to_set().contains(x) <==> m0.to_set().insert(
                    ctx,
                ).contains(x) by {
                    if m.to_set().contains(x) {
                        let k = choose|k: int| 0 <= k < m.len() && m[k] == x;
                        if k < m0.len() {
                            assert(m0[k] == x);
                        }
                    }
                    if m0.to_set().contains(x) {
                        let k = choose|k: int| 0 <= k < m0.len() && m0[k] == x;
                        assert(m[k] == x);
                    }
                    if x == ctx {
                        assert(m[m0.len() as int] == x);
                    }
                }
            }
        } else {
            proof {
                let j = choose|j: int| 0 <= j < old_contexts.len() && old_contexts[j]@ == ctx;
                assert(old_contexts.map_values(|c: UsageContext| c@)[j] == ctx);
                assert(context_set(old_contexts).insert(ctx) =~= context_set(old_contexts));
            }
        }
        match context {
            UsageContext::InForLoopBody { .. } => self.used_in_loops = true,
            UsageContext::InCondition { .. } => self.used_in_conditions = true,
            UsageContext::InKeyExpression { .. } => self.used_in_keys = true,
            _ => {},
        }
    }
}

/// Recording an access keeps the flags consistent with the recorded contexts,
/// and the count at least the number of distinct contexts.
pub proof fn lemma_record_keeps_usage_consistent(u: UsageView, c: ContextView)
    requires
        usage_consistent(u),
    ensures
        usage_consistent(record_view(u, c)),
{
    let r = record_view(u, c);
    assert(r.contexts.len() <= u.contexts.len() + 1);
    if c is InForLoopBody {
        assert(r.contexts.contains(c));
    }
    if c is InCondition {
        assert(r.contexts.contains(c));
    }
    if c is InKeyExpression {
        assert(r.contexts.contains(c));
    }
    if u.used_in_loops {
        let d = choose|d: ContextView| u.contexts.contains(d) && d is InForLoopBody;
        assert(r.contexts.contains(d));
    }
    if u.used_in_conditions {
        let d = choose|d: ContextView| u.contexts.contains(d) && d is InCondition;
        assert(r.contexts.contains(d));
    }
    if u.used_in_keys {
        let d = choose|d: ContextView| u.contexts.contains(d) && d is InKeyExpression;
        assert(r.contexts.contains(d));
    }
    if exists|d: ContextView| r.contexts.contains(d) && d is InForLoopBody {
        let d = choose|d: ContextView| r.contexts.contains(d) && d is InForLoopBody;
        if d != c {
            assert(u.contexts.contains(d));
        }
    }
    if exists|d: ContextView| r.contexts.contains(d) && d is InCondition {
        let d = choose|d: ContextView| r.contexts.contains(d) && d is InCondition;
        if d != c {
            assert(u.contexts.contains(d));
        }
    }
    if exists|d: ContextView| r.contexts.contains(d) && d is InKeyExpression {
        let d = choose|d: ContextView| r.contexts.contains(d) && d is InKeyExpression;
        if d != c {
            assert(u.contexts.contains(d));
        }
    }
}

// ===================== Symbols =====================

/// What a declared name is.
#[derive(Debug, Clone, Copy, PartialEq, Eq, Structural)]
pub enum SymbolKind {
    /// `@prop val`.
    Prop,
    /// `var`.
    StateVar,
    /// `val`.
    StateVal,
    /// A `val` computed from other state (reactive).
    DerivedState,
    Function,
}

/// A declared name.
#[derive(Debug)]
pub struct Symbol {
    pub name: String,
    pub kind: SymbolKind,
    /// Declared `var`.
    pub mutable: bool,
    /// Reassigned somewhere (not yet tracked: always false).
    pub mutated: bool,
    pub usage_info: UsageInfo,
}

/// The mathematical value of a `Symbol`.
pub struct SymbolView {
    pub kind: SymbolKind,
    pub mutable: bool,
    pub mutated: bool,
    pub usage: UsageView,
}

impl View for Symbol {
    type V = SymbolView;

    open spec fn view(&self) -> SymbolView {
        SymbolView {
            kind: self.kind,
            mutable: self.mutable,
            mutated: self.mutated,
            usage: self.usage_info@,
        }
    }
}

/// All declared names.
#[derive(Debug)]
pub struct SymbolTable {
    symbols: NameMap<Symbol>,
}

impl SymbolTable {
    /// Each declared name and its symbol.
    pub closed spec fn view(&self) -> Map<Seq<char>, SymbolView> {
        self.symbols.map().map_values(|s: Symbol| s@)
    }

    /// The entries are well formed, and each symbol carries the name it is
    /// declared under.
    pub closed spec fn wf(&self) -> bool {
        &&& self.symbols.wf()
        &&& forall|k: Seq<char>| #[trigger]
            self.symbols.map().contains_key(k) ==> self.symbols.map()[k].usage_info.wf()
                && self.symbols.map()[k].name@ == k
    }

    pub fn new() -> (t: Self)
        ensures
            t.wf(),
            t@ == Map::<Seq<char>, SymbolView>::empty(),
    {
        let t = SymbolTable { symbols: NameMap::new() };
        assert(t@ =~= Map::<Seq<char>, SymbolView>::empty());
        t
    }

    /// Declares `name` as `symbol`, replacing an earlier declaration.
    pub fn insert(&mut self, name: String, symbol: Symbol)
        requires
            old(self).wf(),
            symbol.usage_info.wf(),
            symbol.name@ == name@,
        ensures
            final(self).wf(),
            final(self)@ == old(self)@.insert(name@, symbol@),
    {
        let ghost sv = symbol@;
        self.symbols.insert(name, symbol);
        assert(self@ =~= old(self)@.insert(name@, sv));
    }

    /// The symbol declared as `name`.
    pub fn get(&self, name: &str) -> (r: Option<&Symbol>)
        requires
            self.wf(),
        ensures
            match r {
                Some(s) => self@.contains_key(name@) && s@ == self@[name@] && s.usage_info.wf()
                    && s.name@ == name@,
                None => !self@.contains_key(name@),
            },
    {
        self.symbols.get(name)
    }

    /// Whether `name` is declared.
    pub fn contains(&self, name: &str) -> (r: bool)
        requires
            self.wf(),
        ensures
            r == self@.contains_key(name@),
    {
        self.symbols.contains(name)
    }

    /// Whether `name` is declared and not reassignable (`val` or prop).
    pub fn is_val(&self, name: &str) -> (r: bool)
        requires
            self.wf(),
        ensures
            r == (self@.contains_key(name@) && !self@[name@].mutable),
    {
        match self.get(name) {
            Some(sym) => !sym.mutable,
            None => false,
        }
    }

    /// Whether `name` is declared as a prop.
    pub fn is_prop(&self, name: &str) -> (r: bool)
        requires
            self.wf(),
        ensures
            r == (self@.contains_key(name@) && self@[name@].kind == SymbolKind::Prop),
    {
        match self.get(name) {
            Some(sym) => match sym.kind {
                SymbolKind::Prop => true,
                _ => false,
            },
            None => false,
        }
    }

    /// Records an access to `name` in `context`; nothing happens when `name`
    /// is not declared.
    fn record(&mut self, name: &str, context: UsageContext)
        requires
            old(self).wf(),
            old(self)@.contains_key(name@) ==> old(self)@[name@].usage.access_count < usize::MAX,
        ensures
            final(self).wf(),
            final(self)@ == apply_event(old(self)@, (name@, context@)),
    {
        match self.symbols.index_of(name) {
            Some(i) => {
                let ghost m0 = self.symbols.map();
                let (key, mut sym) = self.symbols.take_at(i);
                sym.usage_info.record_access(context);
                let ghost sv = sym@;
                self.symbols.put_at(i, key, sym);
                proof {
                    assert(m0.remove(name@).insert(name@, sym) =~= m0.insert(name@, sym));
                    assert(self@ =~= old(self)@.insert(name@, sv));
                }
            },
            None => {},
        }
    }
}

/// The table after one access to a declared name (events for undeclared names
/// change nothing).
pub open spec fn apply_event(
    t: Map<Seq<char>, SymbolView>,
    e: (Seq<char>, ContextView),
) -> Map<Seq<char>, SymbolView> {
    if t.contains_key(e.0) {
        t.insert(e.0, SymbolView { usage: record_view(t[e.0].usage, e.1), ..t[e.0] })
    } else {
        t
    }
}

/// The table after a sequence of accesses, in order.
pub open spec fn apply_events(
    t: Map<Seq<char>, SymbolView>,
    es: Seq<(Seq<char>, ContextView)>,
) -> Map<Seq<char>, SymbolView>
    decreases es.len(),
{
    if es.len() == 0 {
        t
    } else {
        apply_event(apply_events(t, es.drop_last()), es.last())
    }
}

/// Applying `a` then `b` is applying `a + b`.
pub proof fn lemma_apply_events_append(
    t: Map<Seq<char>, SymbolView>,
    a: Seq<(Seq<char>, ContextView)>,
    b: Seq<(Seq<char>, ContextView)>,
)
    ensures
        apply_events(apply_events(t, a), b) == apply_events(t, a + b),
    decreases b.len(),
{
    if b.len() == 0 {
        assert(a + b == a);
    } else {
        lemma_apply_events_append(t, a, b.drop_last());
        assert((a + b).drop_last() == a + b.drop_last());
        assert((a + b).last() == b.last());
    }
}

/// Accesses change usage only: the declared names, kinds and mutability stay.
pub proof fn lemma_apply_events_keeps_decls(
    t: Map<Seq<char>, SymbolView>,
    es: Seq<(Seq<char>, ContextView)>,
)
    ensures
        apply_events(t, es).dom() == t.dom(),
        forall|k: Seq<char>|
            #![trigger apply_events(t, es)[k]]
            t.contains_key(k) ==> apply_events(t, es)[k].kind == t[k].kind
                && apply_events(t, es)[k].mutable == t[k].mutable && apply_events(t, es)[k].mutated
                == t[k].mutated && apply_events(t, es)[k].usage.access_count <= t[k].usage.access_count
                + es.len(),
    decreases es.len(),
{
    if es.len() > 0 {
        lemma_apply_events_keeps_decls(t, es.drop_last());
        let t1 = apply_events(t, es.drop_last());
        assert(apply_events(t, es).dom() =~= t.dom());
    }
}

/// Every declared name can take `n` more accesses without its count overflowing.
pub open spec fn counts_fit(t: Map<Seq<char>, SymbolView>, n: nat) -> bool {
    forall|k: Seq<char>| #[trigger] t.contains_key(k) ==> t[k].usage.access_count + n <= usize::MAX
}

/// A set of names (no name occurs twice).
#[derive(Debug)]
pub struct NameSet {
    names: Vec<String>,
}

/// The views of the strings in `s`, as a set.
pub open spec fn string_set(s: Seq<String>) -> Set<Seq<char>> {
    s.map_values(|x: String| x@).to_set()
}

impl NameSet {
    pub closed spec fn view(&self) -> Set<Seq<char>> {
        string_set(self.names@)
    }

    pub fn new() -> (r: Self)
        ensures
            r@ == Set::<Seq<char>>::empty(),
    {
        let r = NameSet { names: Vec::new() };
        assert(r@ =~= Set::<Seq<char>>::empty());
        r
    }

    /// Whether `name` is in the set.
    pub fn contains(&self, name: &str) -> (r: bool)
        ensures
            r == self@.contains(name@),
    {
        let mut i: usize = 0;
        while i < self.names.len()
            invariant
                i <= self.names@.len(),
                forall|j: int| 0 <= j < i ==> self.names@[j]@ != name@,
            decreases self.names.len() - i,
        {
            if str_eq(self.names[i].as_str(), name) {
                assert(self.names@.map_values(|x: String| x@)[i as int] == name@);
                return true;
            }
            i = i + 1;
        }
        proof {
            if self@.contains(name@) {
                let m = self.names@.map_values(|x: String| x@);
                let k = choose|k: int| 0 <= k < m.len() && #[trigger] m[k] == name@;
                assert(self.names@[k]@ == name@);
            }
        }
        false
    }

    /// Adds `name`.
    pub fn insert(&mut self, name: String)
        ensures
            final(self)@ == old(self)@.insert(name@),
    {
        if !self.contains(name.as_str()) {
            let ghost s = self.names@;
            let ghost n = name@;
            self.names.push(name);
            proof {
                let m = self.names@.map_values(|x: String| x@);
                let m0 = s.map_values(|x: String| x@);
                assert(m == m0.push(n));
                assert forall|x: Seq<char>| m.to_set().contains(x) <==> m0.to_set().insert(
                    n,
                ).contains(x) by {
                    if m.to_set().contains(x) {
                        let k = choose|k: int| 0 <= k < m.len() && m[k] == x;
                        if k < m0.len() {
                            assert(m0[k] == x);
                        }
                    }
                    if m0.to_set().contains(x) {
                        let k = choose|k: int| 0 <= k < m0.len() && m0[k] == x;
                        assert(m[k] == x);
                    }
                    if x == n {
                        assert(m[m0.len() as int] == x);
                    }
                }
                assert(self@ =~= old(self)@.insert(n));
            }
        } else {
            assert(old(self)@.insert(name@) =~= old(self)@);
        }
    }
}

impl NameSet {
    /// A copy of this set.
    pub fn copy(&self) -> (r: NameSet)
        ensures
            r@ == self@,
    {
        let mut names: Vec<String> = Vec::new();
        let mut i: usize = 0;
        while i < self.names.len()
            invariant
                i <= self.names@.len(),
                names@.len() == i,
                forall|j: int| 0 <= j < i ==> names@[j] == self.names@[j],
            decreases self.names.len() - i,
        {
            names.push(self.names[i].clone());
            i = i + 1;
        }
        assert(names@ == self.names@);
        NameSet { names }
    }
}

/// Which names are `var` and which are `val` (props count as `val`).
#[derive(Debug)]
pub struct MutabilityInfo {
    pub mutable_vars: NameSet,
    pub immutable_vals: NameSet,
}

impl MutabilityInfo {
    pub fn new() -> (r: Self)
        ensures
            r.mutable_vars@ == Set::<Seq<char>>::empty(),
            r.immutable_vals@ == Set::<Seq<char>>::empty(),
    {
        MutabilityInfo { mutable_vars: NameSet::new(), immutable_vals: NameSet::new() }
    }
}

/// An optimization opportunity found by analysis.
#[derive(Debug)]
pub enum OptimizationHint {
    /// A `@for` loop over `name` may render as a static list.
    StaticCollection {
        name: String,
        /// 0-100.
        confidence: u8,
    },
}

/// What analysis found.
#[derive(Debug)]
pub struct SemanticInfo {
    pub symbol_table: SymbolTable,
    pub mutability_info: MutabilityInfo,
    pub optimization_hints: Vec<OptimizationHint>,
    pub store_registry: StoreRegistry,
}

// ===================== Expressions: names used =====================

/// The characters that separate names in an expression.
pub open spec fn is_delimiter(c: char) -> bool {
    c == ' ' || c == '(' || c == ')' || c == '.' || c == ',' || c == '>' || c == '<' || c == '='
        || c == '!' || c == '+' || c == '-' || c == '*' || c == '/' || c == '{' || c == '}'
        || c == '[' || c == ']'
}

fn delimiter(c: char) -> (r: bool)
    ensures
        r == is_delimiter(c),
{
    c == ' ' || c == '(' || c == ')' || c == '.' || c == ',' || c == '>' || c == '<' || c == '='
        || c == '!' || c == '+' || c == '-' || c == '*' || c == '/' || c == '{' || c == '}'
        || c == '[' || c == ']'
}

/// The complete words of `s[..i]`, and the word in progress at `i`.
pub open spec fn scan_words(s: Seq<char>, i: int) -> (Seq<Seq<char>>, Seq<char>)
    decreases i,
{
    if i <= 0 {
        (Seq::empty(), Seq::empty())
    } else {
        let (ws, cur) = scan_words(s, i - 1);
        if is_delimiter(s[i - 1]) {
            if cur.len() > 0 {
                (ws.push(cur), Seq::empty())
            } else {
                (ws, Seq::empty())
            }
        } else {
            (ws, cur.push(s[i - 1]))
        }
    }
}

/// The maximal runs of non-delimiter characters of `s`, in order.
pub open spec fn expr_words(s: Seq<char>) -> Seq<Seq<char>> {
    let (ws, cur) = scan_words(s, s.len() as int);
    if cur.len() > 0 {
        ws.push(cur)
    } else {
        ws
    }
}

/// Number of words completed or started in `s[..i]`.
pub open spec fn words_started(s: Seq<char>, i: int) -> nat {
    scan_words(s, i).0.len() + if scan_words(s, i).1.len() > 0 {
        1nat
    } else {
        0nat
    }
}

proof fn lemma_words_started_mono(s: Seq<char>, i: int, j: int)
    requires
        0 <= i <= j,
    ensures
        words_started(s, i) <= words_started(s, j),
    decreases j - i,
{
    if i < j {
        lemma_words_started_mono(s, i, j - 1);
    }
}

/// The context recorded for an access in `c` when the walk is inside the body of
/// the loop over `lp` (if any): accesses in a loop body count as such, except in
/// a loop's own collection or key.
pub open spec fn actual_context(c: ContextView, lp: Option<Seq<char>>) -> ContextView {
    match lp {
        Some(coll) => if c is InForLoopCollection || c is InKeyExpression {
            c
        } else {
            ContextView::InForLoopBody(coll)
        },
        None => c,
    }
}

/// The accesses recorded for the names in `ws`.
pub open spec fn word_events(ws: Seq<Seq<char>>, c: ContextView) -> Seq<(Seq<char>, ContextView)>
    decreases ws.len(),
{
    if ws.len() == 0 {
        Seq::empty()
    } else {
        word_events(ws.drop_last(), c).push((ws.last(), c))
    }
}

/// The accesses recorded for expression `s` used in context `c`.
pub open spec fn expr_events(s: Seq<char>, c: ContextView, lp: Option<Seq<char>>) -> Seq<
    (Seq<char>, ContextView),
> {
    word_events(expr_words(s), actual_context(c, lp))
}

proof fn lemma_word_events_len(ws: Seq<Seq<char>>, c: ContextView)
    ensures
        word_events(ws, c).len() == ws.len(),
    decreases ws.len(),
{
    if ws.len() > 0 {
        lemma_word_events_len(ws.drop_last(), c);
    }
}

proof fn lemma_counts_fit_after(
    t: Map<Seq<char>, SymbolView>,
    es: Seq<(Seq<char>, ContextView)>,
    n: nat,
)
    requires
        counts_fit(t, es.len() + n),
    ensures
        counts_fit(apply_events(t, es), n),
{
    lemma_apply_events_keeps_decls(t, es);
}

pub open spec fn opt_view(o: Option<String>) -> Option<Seq<char>> {
    match o {
        Some(s) => Some(s@),
        None => None,
    }
}

// ===================== Markup: names used =====================

/// The accesses recorded while walking `m` inside the loop over `lp` (if any).
pub open spec fn markup_events(m: Markup, lp: Option<Seq<char>>) -> Seq<(Seq<char>, ContextView)>
    decreases m,
{
    match m {
        Markup::Component(c) => props_events(c.name@, c.props@, lp) + markups_events(
            c.children@,
            lp,
        ),
        Markup::ForLoop(f) => for_loop_events(f, lp),
        Markup::IfElse(b) => expr_events(
            b.condition@,
            ContextView::InCondition("if"@),
            lp,
        ) + markups_events(b.then_branch@, lp) + else_ifs_events(b.else_ifs@, lp) + match b.else_branch {
            Some(e) => markups_events(e@, lp),
            None => Seq::empty(),
        },
        Markup::When(w) => when_events(w.branches@, lp),
        Markup::Sequence(items) => markups_events(items@, lp),
        Markup::Interpolation(e) => expr_events(e@, ContextView::InInterpolation, lp),
        Markup::Text(_) => Seq::empty(),
    }
}

/// The accesses recorded while walking `@for` loop `f`.
pub open spec fn for_loop_events(f: ForLoopBlock, lp: Option<Seq<char>>) -> Seq<
    (Seq<char>, ContextView),
>
    decreases f,
{
    let coll = f.collection@;
    seq![(coll, ContextView::InForLoopCollection(coll))] + match f.key_expr {
        Some(k) => expr_events(k@, ContextView::InKeyExpression(coll), lp),
        None => Seq::empty(),
    } + markups_events(f.body@, Some(coll)) + match f.empty_block {
        Some(e) => markups_events(e@, lp),
        None => Seq::empty(),
    }
}

/// The accesses recorded while walking the items of `ms`, in order.
pub open spec fn markups_events(ms: Seq<Markup>, lp: Option<Seq<char>>) -> Seq<
    (Seq<char>, ContextView),
>
    decreases ms,
{
    if ms.len() == 0 {
        Seq::empty()
    } else {
        markups_events(ms.drop_last(), lp) + markup_events(ms.last(), lp)
    }
}

/// The accesses recorded while walking the props of component `name`.
pub open spec fn props_events(name: Seq<char>, ps: Seq<ComponentProp>, lp: Option<Seq<char>>) -> Seq<
    (Seq<char>, ContextView),
>
    decreases ps,
{
    if ps.len() == 0 {
        Seq::empty()
    } else {
        props_events(name, ps.drop_last(), lp) + match ps.last().value {
            PropValue::Expression(e) => expr_events(
                e@,
                ContextView::InComponentProp(name, ps.last().name@),
                lp,
            ),
            PropValue::Markup(b) => markup_events(*b, lp),
        }
    }
}

/// The accesses recorded while walking `else if` branches.
pub open spec fn else_ifs_events(bs: Seq<ElseIfBranch>, lp: Option<Seq<char>>) -> Seq<
    (Seq<char>, ContextView),
>
    decreases bs,
{
    if bs.len() == 0 {
        Seq::empty()
    } else {
        else_ifs_events(bs.drop_last(), lp) + expr_events(
            bs.last().condition@,
            ContextView::InCondition("else-if"@),
            lp,
        ) + markups_events(bs.last().body@, lp)
    }
}

/// The accesses recorded while walking `@when` branches.
pub open spec fn when_events(bs: Seq<WhenBranch>, lp: Option<Seq<char>>) -> Seq<
    (Seq<char>, ContextView),
>
    decreases bs,
{
    if bs.len() == 0 {
        Seq::empty()
    } else {
        when_events(bs.drop_last(), lp) + match bs.last().condition {
            Some(c) => expr_events(c@, ContextView::InCondition("when"@), lp),
            None => Seq::empty(),
        } + markup_events(bs.last().body, lp)
    }
}

/// The accesses recorded for lifecycle hooks.
pub open spec fn hooks_events(hs: Seq<LifecycleHook>) -> Seq<(Seq<char>, ContextView)>
    decreases hs.len(),
{
    if hs.len() == 0 {
        Seq::empty()
    } else {
        hooks_events(hs.drop_last()) + expr_events(
            hs.last().body@,
            ContextView::InLifecycleHook(hs.last().hook_type@),
            None,
        )
    }
}

/// All accesses recorded for a file: its markup, then its lifecycle hooks.
pub open spec fn file_events(f: WhitehallFile) -> Seq<(Seq<char>, ContextView)> {
    markup_events(f.markup, None) + hooks_events(f.lifecycle_hooks@)
}

proof fn lemma_markups_events_prefix(ms: Seq<Markup>, lp: Option<Seq<char>>, i: int)
    requires
        0 <= i <= ms.len(),
    ensures
        markups_events(ms.take(i), lp).len() <= markups_events(ms, lp).len(),
    decreases ms.len(),
{
    if i < ms.len() {
        assert(ms.take(i) == ms.drop_last().take(i));
        lemma_markups_events_prefix(ms.drop_last(), lp, i);
    } else {
        assert(ms.take(i) == ms);
    }
}

proof fn lemma_props_events_prefix(
    name: Seq<char>,
    ps: Seq<ComponentProp>,
    lp: Option<Seq<char>>,
    i: int,
)
    requires
        0 <= i <= ps.len(),
    ensures
        props_events(name, ps.take(i), lp).len() <= props_events(name, ps, lp).len(),
    decreases ps.len(),
{
    if i < ps.len() {
        assert(ps.take(i) == ps.drop_last().take(i));
        lemma_props_events_prefix(name, ps.drop_last(), lp, i);
    } else {
        assert(ps.take(i) == ps);
    }
}

proof fn lemma_else_ifs_events_prefix(bs: Seq<ElseIfBranch>, lp: Option<Seq<char>>, i: int)
    requires
        0 <= i <= bs.len(),
    ensures
        else_ifs_events(bs.take(i), lp).len() <= else_ifs_events(bs, lp).len(),
    decreases bs.len(),
{
    if i < bs.len() {
        assert(bs.take(i) == bs.drop_last().take(i));
        lemma_else_ifs_events_prefix(bs.drop_last(), lp, i);
    } else {
        assert(bs.take(i) == bs);
    }
}

proof fn lemma_when_events_prefix(bs: Seq<WhenBranch>, lp: Option<Seq<char>>, i: int)
    requires
        0 <= i <= bs.len(),
    ensures
        when_events(bs.take(i), lp).len() <= when_events(bs, lp).len(),
    decreases bs.len(),
{
    if i < bs.len() {
        assert(bs.take(i) == bs.drop_last().take(i));
        lemma_when_events_prefix(bs.drop_last(), lp, i);
    } else {
        assert(bs.take(i) == bs);
    }
}

proof fn lemma_hooks_events_prefix(hs: Seq<LifecycleHook>, i: int)
    requires
        0 <= i <= hs.len(),
    ensures
        hooks_events(hs.take(i)).len() <= hooks_events(hs).len(),
    decreases hs.len(),
{
    if i < hs.len() {
        assert(hs.take(i) == hs.drop_last().take(i));
        lemma_hooks_events_prefix(hs.drop_last(), i);
    } else {
        assert(hs.take(i) == hs);
    }
}

/// Walking `a` then `b`: the table is that of `a + b`, and what fits for the
/// whole still fits for `b`.
proof fn lemma_step(
    t0: Map<Seq<char>, SymbolView>,
    a: Seq<(Seq<char>, ContextView)>,
    b: Seq<(Seq<char>, ContextView)>,
    total: nat,
)
    requires
        counts_fit(t0, total),
        a.len() + b.len() <= total,
    ensures
        apply_events(apply_events(t0, a), b) == apply_events(t0, a + b),
        counts_fit(apply_events(t0, a), b.len()),
{
    lemma_apply_events_append(t0, a, b);
    lemma_counts_fit_after(t0, a, (total - a.len()) as nat);
}

// ===================== Stores, declarations, hints: specification =====================

/// `c` lower-cased if it is an ASCII capital.
pub open spec fn ascii_lower(c: char) -> char {
    if 'A' <= c && c <= 'Z' {
        ((c as u32) + 32) as char
    } else {
        c
    }
}

/// Equal up to ASCII case (`str::eq_ignore_ascii_case`).
pub open spec fn eq_ignore_case(a: Seq<char>, b: Seq<char>) -> bool {
    a.len() == b.len() && forall|i: int| 0 <= i < a.len() ==> ascii_lower(a[i]) == ascii_lower(b[i])
}

fn lower(c: char) -> (r: char)
    ensures
        r == ascii_lower(c),
{
    if 'A' <= c && c <= 'Z' {
        let b: u8 = (c as u32) as u8;
        assert(b == c as u32);
        ((b + 32) as u8) as char
    } else {
        c
    }
}

/// Whether `a` and `b` are equal up to ASCII case.
pub fn eq_ignore_ascii_case(a: &str, b: &str) -> (r: bool)
    ensures
        r == eq_ignore_case(a@, b@),
{
    let va = str_to_chars(a);
    let vb = str_to_chars(b);
    if va.len() != vb.len() {
        return false;
    }
    let mut i: usize = 0;
    while i < va.len()
        invariant
            va@ == a@,
            vb@ == b@,
            va@.len() == vb@.len(),
            i <= va@.len(),
            forall|j: int| 0 <= j < i ==> ascii_lower(va@[j]) == ascii_lower(vb@[j]),
        decreases va.len() - i,
    {
        if lower(va[i]) != lower(vb[i]) {
            return false;
        }
        i = i + 1;
    }
    true
}

/// The mathematical value of a `StoreInfo`.
pub struct StoreView {
    pub class_name: Seq<char>,
    pub source: StoreSource,
    pub has_vars: bool,
    pub has_hilt: bool,
    pub has_inject: bool,
    pub package: Seq<char>,
}

impl View for StoreInfo {
    type V = StoreView;

    open spec fn view(&self) -> StoreView {
        StoreView {
            class_name: self.class_name@,
            source: self.source,
            has_vars: self.has_vars,
            has_hilt: self.has_hilt,
            has_inject: self.has_inject,
            package: self.package@,
        }
    }
}

/// The stores of a registry, by name, as values.
pub open spec fn registry_view(m: Map<Seq<char>, StoreInfo>) -> Map<Seq<char>, StoreView> {
    m.map_values(|i: StoreInfo| i@)
}

/// Some annotation of `anns` satisfies `p`.
pub open spec fn any_annotation(anns: Seq<String>, p: spec_fn(Seq<char>) -> bool) -> bool {
    exists|i: int| 0 <= i < anns.len() && p(anns[i]@)
}

/// The store a class declares, if any: `@store object` is a singleton, a class
/// with a `var` property a ViewModel; Hilt is on with `@hilt` (any case),
/// `@HiltViewModel` or an `@inject` constructor (any case).
pub open spec fn class_store(c: ClassDeclaration) -> Option<StoreView> {
    let has_store = any_annotation(c.annotations@, |a: Seq<char>| a == "store"@);
    let has_vars = exists|i: int| 0 <= i < c.properties@.len() && c.properties@[i].mutable;
    let has_hilt_annotation = any_annotation(
        c.annotations@,
        |a: Seq<char>| eq_ignore_case(a, "hilt"@) || a == "HiltViewModel"@,
    );
    let has_inject = match c.constructor {
        Some(k) => any_annotation(k.annotations@, |a: Seq<char>| eq_ignore_case(a, "inject"@)),
        None => false,
    };
    if has_store && c.is_object {
        Some(
            StoreView {
                class_name: c.name@,
                source: StoreSource::Singleton,
                has_vars,
                has_hilt: has_hilt_annotation || has_inject,
                has_inject,
                package: Seq::empty(),
            },
        )
    } else if has_vars {
        Some(
            StoreView {
                class_name: c.name@,
                source: StoreSource::Class,
                has_vars,
                has_hilt: has_hilt_annotation || has_inject,
                has_inject,
                package: Seq::empty(),
            },
        )
    } else {
        None
    }
}

/// `m` with the stores of `cs` registered in order.
pub open spec fn stores_of(m: Map<Seq<char>, StoreView>, cs: Seq<ClassDeclaration>) -> Map<
    Seq<char>,
    StoreView,
>
    decreases cs.len(),
{
    if cs.len() == 0 {
        m
    } else {
        let m1 = stores_of(m, cs.drop_last());
        match class_store(cs.last()) {
            Some(v) => m1.insert(cs.last().name@, v),
            None => m1,
        }
    }
}

/// The symbol of a newly declared name of kind `kind`.
pub open spec fn new_symbol(kind: SymbolKind, mutable: bool) -> SymbolView {
    SymbolView { kind, mutable, mutated: false, usage: unused_view() }
}

/// Whether a state's initial value computes from other state.
pub open spec fn is_computed(v: Seq<char>) -> bool {
    seq_contains(v, ".filter"@) || seq_contains(v, ".map"@) || seq_contains(v, ".firstOrNull"@)
        || seq_contains(v, "derivedStateOf"@)
}

/// The kind of a state declaration.
pub open spec fn state_kind(s: StateDeclaration) -> SymbolKind {
    if s.mutable {
        SymbolKind::StateVar
    } else if s.is_derived_state || is_computed(s.initial_value@) {
        SymbolKind::DerivedState
    } else {
        SymbolKind::StateVal
    }
}

pub open spec fn props_decls(t: Map<Seq<char>, SymbolView>, ps: Seq<PropDeclaration>) -> Map<
    Seq<char>,
    SymbolView,
>
    decreases ps.len(),
{
    if ps.len() == 0 {
        t
    } else {
        props_decls(t, ps.drop_last()).insert(ps.last().name@, new_symbol(SymbolKind::Prop, false))
    }
}

pub open spec fn states_decls(t: Map<Seq<char>, SymbolView>, ss: Seq<StateDeclaration>) -> Map<
    Seq<char>,
    SymbolView,
>
    decreases ss.len(),
{
    if ss.len() == 0 {
        t
    } else {
        states_decls(t, ss.drop_last()).insert(
            ss.last().name@,
            new_symbol(state_kind(ss.last()), ss.last().mutable),
        )
    }
}

pub open spec fn functions_decls(
    t: Map<Seq<char>, SymbolView>,
    fs: Seq<FunctionDeclaration>,
) -> Map<Seq<char>, SymbolView>
    decreases fs.len(),
{
    if fs.len() == 0 {
        t
    } else {
        functions_decls(t, fs.drop_last()).insert(
            fs.last().name@,
            new_symbol(SymbolKind::Function, false),
        )
    }
}

/// The symbol table of a file's declarations: props, then state, then
/// functions (a later declaration of a name replaces an earlier one).
pub open spec fn file_decls(f: WhitehallFile) -> Map<Seq<char>, SymbolView> {
    functions_decls(states_decls(props_decls(Map::empty(), f.props@), f.state@), f.functions@)
}

/// Names of `var` state.
pub open spec fn mutable_state_names(f: WhitehallFile) -> Set<Seq<char>> {
    Set::new(|n: Seq<char>| exists|i: int| 0 <= i < f.state@.len() && f.state@[i].name@ == n && f.state@[i].mutable)
}

/// Names of props and of `val` state.
pub open spec fn immutable_names(f: WhitehallFile) -> Set<Seq<char>> {
    Set::new(|n: Seq<char>|
        (exists|i: int| 0 <= i < f.props@.len() && f.props@[i].name@ == n)
        || (exists|i: int| 0 <= i < f.state@.len() && f.state@[i].name@ == n && !f.state@[i].mutable))
}

/// Whether a prop name is an event handler (`on..` or `bind:..`).
pub open spec fn is_handler_name(n: Seq<char>) -> bool {
    occurs_at(n, 0, "on"@) || occurs_at(n, 0, "bind:"@)
}

/// Whether some item of `ms` has an event handler.
pub open spec fn markups_have_handlers(ms: Seq<Markup>) -> bool
    decreases ms,
{
    ms.len() > 0 && (markups_have_handlers(ms.drop_last()) || markup_has_handlers(ms.last()))
}

/// Whether `m` holds a component with an event-handler prop: in components,
/// loop bodies, `@if` branches, sequences, and the component bodies of `@when`.
pub open spec fn markup_has_handlers(m: Markup) -> bool
    decreases m,
{
    match m {
        Markup::Component(c) => component_has_handlers(c),
        Markup::ForLoop(f) => markups_have_handlers(f.body@),
        Markup::IfElse(b) => markups_have_handlers(b.then_branch@) || else_ifs_have_handlers(
            b.else_ifs@,
        ) || match b.else_branch {
            Some(e) => markups_have_handlers(e@),
            None => false,
        },
        Markup::When(w) => when_has_handlers(w.branches@),
        Markup::Sequence(items) => markups_have_handlers(items@),
        _ => false,
    }
}

pub open spec fn component_has_handlers(c: Component) -> bool
    decreases c,
{
    (exists|i: int| 0 <= i < c.props@.len() && is_handler_name(c.props@[i].name@))
        || markups_have_handlers(c.children@)
}

pub open spec fn else_ifs_have_handlers(bs: Seq<ElseIfBranch>) -> bool
    decreases bs,
{
    bs.len() > 0 && (else_ifs_have_handlers(bs.drop_last()) || markups_have_handlers(
        bs.last().body@,
    ))
}

pub open spec fn when_has_handlers(bs: Seq<WhenBranch>) -> bool
    decreases bs,
{
    bs.len() > 0 && (when_has_handlers(bs.drop_last()) || match bs.last().body {
        Markup::Component(c) => component_has_handlers(c),
        _ => false,
    })
}

/// The confidence that a loop over a collection declared as `s` renders a
/// static list: 40 for a plain `val`, 30 if never reassigned, 20 for component
/// state, 10 without event handlers in the body.
pub open spec fn static_confidence(s: SymbolView, handlers: bool) -> int {
    (if !s.mutable && s.kind != SymbolKind::DerivedState && s.kind != SymbolKind::Prop {
        40int
    } else {
        0int
    }) + (if !s.mutated {
        30int
    } else {
        0int
    }) + (if s.kind == SymbolKind::StateVal || s.kind == SymbolKind::StateVar {
        20int
    } else {
        0int
    }) + (if !handlers {
        10int
    } else {
        0int
    })
}

/// The hint for loop `f`: present when its collection is declared and the
/// confidence is at least 50.
pub open spec fn loop_hint(f: ForLoopBlock, t: Map<Seq<char>, SymbolView>) -> Seq<(Seq<char>, int)> {
    if t.contains_key(f.collection@) && static_confidence(
        t[f.collection@],
        markups_have_handlers(f.body@),
    ) >= 50 {
        seq![
            (f.collection@, static_confidence(t[f.collection@], markups_have_handlers(f.body@))),
        ]
    } else {
        Seq::empty()
    }
}

/// The hints for every `@for` loop in `m`, outer loops before inner ones.
pub open spec fn markup_hints(m: Markup, t: Map<Seq<char>, SymbolView>) -> Seq<(Seq<char>, int)>
    decreases m,
{
    match m {
        Markup::ForLoop(f) => loop_hint(f, t) + markups_hints(f.body@, t) + match f.empty_block {
            Some(e) => markups_hints(e@, t),
            None => Seq::empty(),
        },
        Markup::Component(c) => markups_hints(c.children@, t),
        Markup::IfElse(b) => markups_hints(b.then_branch@, t) + else_ifs_hints(b.else_ifs@, t)
            + match b.else_branch {
            Some(e) => markups_hints(e@, t),
            None => Seq::empty(),
        },
        Markup::When(w) => when_hints(w.branches@, t),
        Markup::Sequence(items) => markups_hints(items@, t),
        _ => Seq::empty(),
    }
}

pub open spec fn markups_hints(ms: Seq<Markup>, t: Map<Seq<char>, SymbolView>) -> Seq<
    (Seq<char>, int),
>
    decreases ms,
{
    if ms.len() == 0 {
        Seq::empty()
    } else {
        markups_hints(ms.drop_last(), t) + markup_hints(ms.last(), t)
    }
}

pub open spec fn else_ifs_hints(bs: Seq<ElseIfBranch>, t: Map<Seq<char>, SymbolView>) -> Seq<
    (Seq<char>, int),
>
    decreases bs,
{
    if bs.len() == 0 {
        Seq::empty()
    } else {
        else_ifs_hints(bs.drop_last(), t) + markups_hints(bs.last().body@, t)
    }
}

pub open spec fn when_hints(bs: Seq<WhenBranch>, t: Map<Seq<char>, SymbolView>) -> Seq<
    (Seq<char>, int),
>
    decreases bs,
{
    if bs.len() == 0 {
        Seq::empty()
    } else {
        when_hints(bs.drop_last(), t) + markup_hints(bs.last().body, t)
    }
}

/// The value of a hint: the collection and the confidence.
pub open spec fn hint_view(h: OptimizationHint) -> (Seq<char>, int) {
    match h {
        OptimizationHint::StaticCollection { name, confidence } => (name@, confidence as int),
    }
}

pub open spec fn hints_view(hs: Seq<OptimizationHint>) -> Seq<(Seq<char>, int)> {
    hs.map_values(|h: OptimizationHint| hint_view(h))
}

// ===================== The analyzer =====================

/// Performs semantic analysis on a file.
pub struct Analyzer {
    symbol_table: SymbolTable,
    mutable_vars: NameSet,
    immutable_vals: NameSet,
    store_registry: StoreRegistry,
    /// The collection of the `@for` loop whose body is being walked.
    current_for_loop: Option<String>,
}

impl Analyzer {
    /// The tables are well formed.
    pub closed spec fn wf(&self) -> bool {
        self.symbol_table.wf() && self.store_registry.wf()
    }

    /// Everything but the symbol table's usage and the current loop is as in `other`.
    pub closed spec fn same_decls(&self, other: &Analyzer) -> bool {
        &&& self.mutable_vars@ == other.mutable_vars@
        &&& self.immutable_vals@ == other.immutable_vals@
        &&& self.store_registry@ == other.store_registry@
        &&& self.store_registry.entry_seq() == other.store_registry.entry_seq()
    }

    /// The collection of the loop whose body is being walked.
    pub closed spec fn loop_view(&self) -> Option<Seq<char>> {
        opt_view(self.current_for_loop)
    }

    pub closed spec fn table(&self) -> Map<Seq<char>, SymbolView> {
        self.symbol_table@
    }

    /// No store registered and no name recorded as `var` or `val`.
    pub closed spec fn is_fresh(&self) -> bool {
        &&& self.store_registry@ == Map::<Seq<char>, StoreInfo>::empty()
        &&& self.mutable_vars@ == Set::<Seq<char>>::empty()
        &&& self.immutable_vals@ == Set::<Seq<char>>::empty()
    }

    pub fn new() -> (a: Self)
        ensures
            a.wf(),
            a.table() == Map::<Seq<char>, SymbolView>::empty(),
            a.loop_view() is None,
            a.is_fresh(),
    {
        Analyzer {
            symbol_table: SymbolTable::new(),
            mutable_vars: NameSet::new(),
            immutable_vals: NameSet::new(),
            store_registry: StoreRegistry::new(),
            current_for_loop: None,
        }
    }

    /// Records an access to `var_name` in `context` (if `var_name` is declared).
    fn record_variable_access(&mut self, var_name: &str, context: UsageContext)
        requires
            old(self).wf(),
            counts_fit(old(self).table(), 1),
        ensures
            final(self).wf(),
            final(self).same_decls(old(self)),
            final(self).loop_view() == old(self).loop_view(),
            final(self).table() == apply_event(old(self).table(), (var_name@, context@)),
    {
        self.symbol_table.record(var_name, context);
    }

    /// Records an access for each name in `expr` (the maximal runs of
    /// non-delimiter characters) that is declared.
    fn record_expression_usage(&mut self, expr: &str, context: UsageContext)
        requires
            old(self).wf(),
            counts_fit(old(self).table(), expr_words(expr@).len()),
        ensures
            final(self).wf(),
            final(self).same_decls(old(self)),
            final(self).loop_view() == old(self).loop_view(),
            final(self).table() == apply_events(
                old(self).table(),
                expr_events(expr@, context@, old(self).loop_view()),
            ),
    {
        let chars = str_to_chars(expr);
        let ghost s = expr@;
        let ghost t0 = self.table();
        let ghost actx = actual_context(context@, self.loop_view());
        let ghost total = expr_words(s).len();
        let mut current_word = String::new();
        let mut i: usize = 0;
        proof {
            lemma_words_started_mono(s, 0, s.len() as int);
        }
        while i < chars.len()
            invariant
                chars@ == s,
                i <= s.len(),
                self.wf(),
                self.same_decls(old(self)),
                self.loop_view() == old(self).loop_view(),
                actx == actual_context(context@, self.loop_view()),
                t0 == old(self).table(),
                total == expr_words(s).len(),
                counts_fit(t0, total),
                current_word@ == scan_words(s, i as int).1,
                self.table() == apply_events(t0, word_events(scan_words(s, i as int).0, actx)),
            decreases chars.len() - i,
        {
            let ch = chars[i];
            proof {
                lemma_words_started_mono(s, i + 1, s.len() as int);
                lemma_word_events_len(scan_words(s, i as int).0, actx);
                lemma_apply_events_keeps_decls(t0, word_events(scan_words(s, i as int).0, actx));
            }
            if delimiter(ch) {
                if !current_word.as_str().is_empty() {
                    proof {
                        let ws = scan_words(s, i as int).0;
                        let w = word_events(ws, actx);
                        assert(ws.push(current_word@).drop_last() == ws);
                        assert(word_events(ws.push(current_word@), actx) == w.push(
                            (current_word@, actx),
                        ));
                        assert(w.push((current_word@, actx)).drop_last() == w);
                    }
                    if self.symbol_table.contains(current_word.as_str()) {
                        let actual_context = match &self.current_for_loop {
                            Some(collection) => match context {
                                UsageContext::InForLoopCollection { .. } => copy_context(&context),
                                UsageContext::InKeyExpression { .. } => copy_context(&context),
                                _ => UsageContext::InForLoopBody { collection: collection.clone() },
                            },
                            None => copy_context(&context),
                        };
                        self.symbol_table.record(current_word.as_str(), actual_context);
                    }
                    proof {
                        let ws = scan_words(s, i as int).0;
                        assert(ws.push(current_word@).drop_last() == ws);
                    }
                    current_word = String::new();
                }
            } else {
                push_char(&mut current_word, ch);
            }
            i = i + 1;
        }
        proof {
            let ws = scan_words(s, i as int).0;
            let w = word_events(ws, actx);
            assert(ws.push(current_word@).drop_last() == ws);
            assert(word_events(ws.push(current_word@), actx) == w.push((current_word@, actx)));
            assert(w.push((current_word@, actx)).drop_last() == w);
        }
        if !current_word.as_str().is_empty() && self.symbol_table.contains(current_word.as_str()) {
            proof {
                lemma_word_events_len(scan_words(s, i as int).0, actx);
                lemma_apply_events_keeps_decls(t0, word_events(scan_words(s, i as int).0, actx));
            }
            let actual_context = match &self.current_for_loop {
                Some(collection) => match context {
                    UsageContext::InForLoopCollection { .. } => copy_context(&context),
                    UsageContext::InKeyExpression { .. } => copy_context(&context),
                    _ => UsageContext::InForLoopBody { collection: collection.clone() },
                },
                None => context,
            };
            self.symbol_table.record(current_word.as_str(), actual_context);
        }
        proof {
            let ws = scan_words(s, s.len() as int).0;
            if current_word@.len() > 0 {
                assert(ws.push(current_word@).drop_last() == ws);
            }
        }
    }

    /// Records the accesses in `markup` and everything below it.
    fn walk_markup(&mut self, markup: &Markup)
        requires
            old(self).wf(),
            counts_fit(old(self).table(), markup_events(*markup, old(self).loop_view()).len()),
        ensures
            final(self).wf(),
            final(self).same_decls(old(self)),
            final(self).loop_view() == old(self).loop_view(),
            final(self).table() == apply_events(
                old(self).table(),
                markup_events(*markup, old(self).loop_view()),
            ),
        decreases markup, 1nat,
    {
        match markup {
            Markup::Component(component) => self.walk_component(component),
            Markup::ForLoop(for_loop) => self.walk_for_loop(for_loop),
            Markup::IfElse(if_else) => self.walk_if_else(if_else),
            Markup::When(w) => self.walk_when(w),
            Markup::Sequence(items) => self.walk_markups(items),
            Markup::Interpolation(expr) => {
                proof {
                    lemma_word_events_len(
                        expr_words(expr@),
                        actual_context(ContextView::InInterpolation, self.loop_view()),
                    );
                }
                self.record_expression_usage(expr.as_str(), UsageContext::InInterpolation);
            },
            Markup::Text(_) => {},
        }
    }

    /// Records the accesses in each of `items`, in order.
    fn walk_markups(&mut self, items: &Vec<Markup>)
        requires
            old(self).wf(),
            counts_fit(old(self).table(), markups_events(items@, old(self).loop_view()).len()),
        ensures
            final(self).wf(),
            final(self).same_decls(old(self)),
            final(self).loop_view() == old(self).loop_view(),
            final(self).table() == apply_events(
                old(self).table(),
                markups_events(items@, old(self).loop_view()),
            ),
        decreases items@, 0nat,
    {
        let ghost lp = self.loop_view();
        let ghost t0 = self.table();
        let ghost total = markups_events(items@, lp).len();
        let mut i: usize = 0;
        while i < items.len()
            invariant
                i <= items@.len(),
                self.wf(),
                self.same_decls(old(self)),
                self.loop_view() == lp,
                lp == old(self).loop_view(),
                t0 == old(self).table(),
                total == markups_events(items@, lp).len(),
                counts_fit(t0, total),
                self.table() == apply_events(t0, markups_events(items@.take(i as int), lp)),
            decreases items.len() - i,
        {
            proof {
                let a = markups_events(items@.take(i as int), lp);
                let b = markup_events(items@[i as int], lp);
                assert(items@.take(i + 1).drop_last() == items@.take(i as int));
                assert(markups_events(items@.take(i + 1), lp) == a + b);
                lemma_markups_events_prefix(items@, lp, i + 1);
                lemma_step(t0, a, b, total);
            }
            self.walk_markup(&items[i]);
            i = i + 1;
        }
        assert(items@.take(i as int) == items@);
    }

    /// Records the accesses in a component's props, then in its children.
    fn walk_component(&mut self, component: &Component)
        requires
            old(self).wf(),
            counts_fit(
                old(self).table(),
                markup_events(Markup::Component(*component), old(self).loop_view()).len(),
            ),
        ensures
            final(self).wf(),
            final(self).same_decls(old(self)),
            final(self).loop_view() == old(self).loop_view(),
            final(self).table() == apply_events(
                old(self).table(),
                markup_events(Markup::Component(*component), old(self).loop_view()),
            ),
        decreases component, 0nat,
    {
        let ghost lp = self.loop_view();
        let ghost t0 = self.table();
        let ghost name = component.name@;
        let ghost pe = props_events(name, component.props@, lp);
        let ghost ce = markups_events(component.children@, lp);
        let ghost total = (pe + ce).len();
        let mut i: usize = 0;
        while i < component.props.len()
            invariant
                i <= component.props@.len(),
                name == component.name@,
                self.wf(),
                self.same_decls(old(self)),
                self.loop_view() == lp,
                lp == old(self).loop_view(),
                t0 == old(self).table(),
                pe == props_events(name, component.props@, lp),
                total == (pe + ce).len(),
                counts_fit(t0, total),
                self.table() == apply_events(t0, props_events(name, component.props@.take(i as int), lp)),
            decreases component.props.len() - i,
        {
            let prop = &component.props[i];
            proof {
                let a = props_events(name, component.props@.take(i as int), lp);
                let b = match &prop.value {
                    PropValue::Expression(e) => expr_events(
                        e@,
                        ContextView::InComponentProp(name, prop.name@),
                        lp,
                    ),
                    PropValue::Markup(m) => markup_events(**m, lp),
                };
                assert(component.props@.take(i + 1).drop_last() == component.props@.take(i as int));
                assert(props_events(name, component.props@.take(i + 1), lp) == a + b);
                lemma_props_events_prefix(name, component.props@, lp, i + 1);
                lemma_step(t0, a, b, total);
                if let PropValue::Expression(e) = &prop.value {
                    lemma_word_events_len(
                        expr_words(e@),
                        actual_context(ContextView::InComponentProp(name, prop.name@), lp),
                    );
                }
            }
            match &prop.value {
                PropValue::Expression(expr) => {
                    let context = UsageContext::InComponentProp {
                        component: component.name.clone(),
                        prop_name: prop.name.clone(),
                    };
                    self.record_expression_usage(expr.as_str(), context);
                },
                PropValue::Markup(markup) => {
                    self.walk_markup(&**markup);
                },
            }
            i = i + 1;
        }
        proof {
            assert(component.props@.take(i as int) == component.props@);
            lemma_step(t0, pe, ce, total);
        }
        self.walk_markups(&component.children);
        proof {
            lemma_apply_events_append(t0, pe, ce);
        }
    }

    /// Records the collection access, the key expression, the body (as inside
    /// the loop), then the empty block.
    fn walk_for_loop(&mut self, for_loop: &ForLoopBlock)
        requires
            old(self).wf(),
            counts_fit(old(self).table(), for_loop_events(*for_loop, old(self).loop_view()).len()),
        ensures
            final(self).wf(),
            final(self).same_decls(old(self)),
            final(self).loop_view() == old(self).loop_view(),
            final(self).table() == apply_events(
                old(self).table(),
                for_loop_events(*for_loop, old(self).loop_view()),
            ),
        decreases for_loop, 0nat,
    {
        let ghost lp = self.loop_view();
        let ghost t0 = self.table();
        let ghost coll = for_loop.collection@;
        let ghost e1 = seq![(coll, ContextView::InForLoopCollection(coll))];
        let ghost e2 = match &for_loop.key_expr {
            Some(k) => expr_events(k@, ContextView::InKeyExpression(coll), lp),
            None => Seq::empty(),
        };
        let ghost e3 = markups_events(for_loop.body@, Some(coll));
        let ghost e4 = match &for_loop.empty_block {
            Some(e) => markups_events(e@, lp),
            None => Seq::empty(),
        };
        let ghost total = (e1 + e2 + e3 + e4).len();
        assert(for_loop_events(*for_loop, lp) == e1 + e2 + e3 + e4);
        let collection = &for_loop.collection;
        proof {
            lemma_step(t0, Seq::empty(), e1, total);
            assert(Seq::<(Seq<char>, ContextView)>::empty() + e1 == e1);
        }
        self.record_variable_access(
            collection.as_str(),
            UsageContext::InForLoopCollection { collection: collection.clone() },
        );
        proof {
            assert(apply_events(t0, e1) == apply_event(t0, (coll, ContextView::InForLoopCollection(coll)))) by {
                assert(e1.drop_last() == Seq::<(Seq<char>, ContextView)>::empty());
            }
            lemma_step(t0, e1, e2, total);
        }
        if let Some(key_expr) = &for_loop.key_expr {
            proof {
                lemma_word_events_len(
                    expr_words(key_expr@),
                    actual_context(ContextView::InKeyExpression(coll), lp),
                );
            }
            self.record_expression_usage(
                key_expr.as_str(),
                UsageContext::InKeyExpression { collection: collection.clone() },
            );
        } else {
            assert(e1 + e2 == e1);
        }
        proof {
            lemma_step(t0, e1 + e2, e3, total);
        }
        let prev_loop = match &self.current_for_loop {
            Some(c) => Some(c.clone()),
            None => None,
        };
        self.current_for_loop = Some(collection.clone());
        self.walk_markups(&for_loop.body);
        self.current_for_loop = prev_loop;
        proof {
            lemma_step(t0, e1 + e2 + e3, e4, total);
        }
        if let Some(empty_block) = &for_loop.empty_block {
            self.walk_markups(empty_block);
        } else {
            assert(e1 + e2 + e3 + e4 == e1 + e2 + e3);
        }
    }

    /// Records the accesses in the conditions and branches of an `@if`.
    fn walk_if_else(&mut self, if_else: &IfElseBlock)
        requires
            old(self).wf(),
            counts_fit(
                old(self).table(),
                markup_events(Markup::IfElse(*if_else), old(self).loop_view()).len(),
            ),
        ensures
            final(self).wf(),
            final(self).same_decls(old(self)),
            final(self).loop_view() == old(self).loop_view(),
            final(self).table() == apply_events(
                old(self).table(),
                markup_events(Markup::IfElse(*if_else), old(self).loop_view()),
            ),
        decreases if_else, 0nat,
    {
        let ghost lp = self.loop_view();
        let ghost t0 = self.table();
        let ghost e1 = expr_events(if_else.condition@, ContextView::InCondition("if"@), lp);
        let ghost e2 = markups_events(if_else.then_branch@, lp);
        let ghost e3 = else_ifs_events(if_else.else_ifs@, lp);
        let ghost e4 = match &if_else.else_branch {
            Some(e) => markups_events(e@, lp),
            None => Seq::empty(),
        };
        let ghost total = (e1 + e2 + e3 + e4).len();
        proof {
            lemma_step(t0, Seq::empty(), e1, total);
            assert(Seq::<(Seq<char>, ContextView)>::empty() + e1 == e1);
            lemma_word_events_len(
                expr_words(if_else.condition@),
                actual_context(ContextView::InCondition("if"@), lp),
            );
        }
        self.record_expression_usage(
            if_else.condition.as_str(),
            UsageContext::InCondition { condition_type: String::from_str("if") },
        );
        proof {
            lemma_step(t0, e1, e2, total);
        }
        self.walk_markups(&if_else.then_branch);
        let ghost t1 = self.table();
        proof {
            lemma_step(t0, e1 + e2, e3, total);
        }
        let mut i: usize = 0;
        while i < if_else.else_ifs.len()
            invariant
                i <= if_else.else_ifs@.len(),
                self.wf(),
                self.same_decls(old(self)),
                self.loop_view() == lp,
                lp == old(self).loop_view(),
                t1 == apply_events(t0, e1 + e2),
                e3 == else_ifs_events(if_else.else_ifs@, lp),
                counts_fit(t1, e3.len()),
                self.table() == apply_events(t1, else_ifs_events(if_else.else_ifs@.take(i as int), lp)),
            decreases if_else.else_ifs.len() - i,
        {
            let else_if = &if_else.else_ifs[i];
            proof {
                let a = else_ifs_events(if_else.else_ifs@.take(i as int), lp);
                let c = expr_events(else_if.condition@, ContextView::InCondition("else-if"@), lp);
                let d = markups_events(else_if.body@, lp);
                assert(if_else.else_ifs@.take(i + 1).drop_last() == if_else.else_ifs@.take(i as int));
                assert(else_ifs_events(if_else.else_ifs@.take(i + 1), lp) == a + c + d);
                lemma_else_ifs_events_prefix(if_else.else_ifs@, lp, i + 1);
                lemma_step(t1, a, c, e3.len());
                lemma_step(t1, a + c, d, e3.len());
                lemma_word_events_len(
                    expr_words(else_if.condition@),
                    actual_context(ContextView::InCondition("else-if"@), lp),
                );
            }
            self.record_expression_usage(
                else_if.condition.as_str(),
                UsageContext::InCondition { condition_type: String::from_str("else-if") },
            );
            self.walk_markups(&else_if.body);
            i = i + 1;
        }
        proof {
            assert(if_else.else_ifs@.take(i as int) == if_else.else_ifs@);
            lemma_apply_events_append(t0, e1 + e2, e3);
            lemma_step(t0, e1 + e2 + e3, e4, total);
        }
        if let Some(else_branch) = &if_else.else_branch {
            self.walk_markups(else_branch);
        } else {
            assert(e1 + e2 + e3 + e4 == e1 + e2 + e3);
        }
    }

    /// Records the accesses in the conditions and bodies of a `@when`.
    fn walk_when(&mut self, when_block: &WhenBlock)
        requires
            old(self).wf(),
            counts_fit(
                old(self).table(),
                when_events(when_block.branches@, old(self).loop_view()).len(),
            ),
        ensures
            final(self).wf(),
            final(self).same_decls(old(self)),
            final(self).loop_view() == old(self).loop_view(),
            final(self).table() == apply_events(
                old(self).table(),
                when_events(when_block.branches@, old(self).loop_view()),
            ),
        decreases when_block, 0nat,
    {
        let ghost lp = self.loop_view();
        let ghost t0 = self.table();
        let ghost total = when_events(when_block.branches@, lp).len();
        let mut i: usize = 0;
        while i < when_block.branches.len()
            invariant
                i <= when_block.branches@.len(),
                self.wf(),
                self.same_decls(old(self)),
                self.loop_view() == lp,
                lp == old(self).loop_view(),
                t0 == old(self).table(),
                total == when_events(when_block.branches@, lp).len(),
                counts_fit(t0, total),
                self.table() == apply_events(t0, when_events(when_block.branches@.take(i as int), lp)),
            decreases when_block.branches.len() - i,
        {
            let branch = &when_block.branches[i];
            proof {
                let a = when_events(when_block.branches@.take(i as int), lp);
                let c = match &branch.condition {
                    Some(c) => expr_events(c@, ContextView::InCondition("when"@), lp),
                    None => Seq::empty(),
                };
                let d = markup_events(branch.body, lp);
                assert(when_block.branches@.take(i + 1).drop_last() == when_block.branches@.take(i as int));
                assert(when_events(when_block.branches@.take(i + 1), lp) == a + c + d);
                lemma_when_events_prefix(when_block.branches@, lp, i + 1);
                lemma_step(t0, a, c, total);
                lemma_step(t0, a + c, d, total);
                if let Some(cond) = &branch.condition {
                    lemma_word_events_len(
                        expr_words(cond@),
                        actual_context(ContextView::InCondition("when"@), lp),
                    );
                } else {
                    assert(a + c == a);
                }
            }
            if let Some(condition) = &branch.condition {
                self.record_expression_usage(
                    condition.as_str(),
                    UsageContext::InCondition { condition_type: String::from_str("when") },
                );
            }
            self.walk_markup(&branch.body);
            i = i + 1;
        }
        assert(when_block.branches@.take(i as int) == when_block.branches@);
    }

    /// Records the accesses in a lifecycle hook body.
    fn walk_hook(&mut self, hook: &LifecycleHook)
        requires
            old(self).wf(),
            counts_fit(old(self).table(), expr_words(hook.body@).len()),
        ensures
            final(self).wf(),
            final(self).same_decls(old(self)),
            final(self).loop_view() == old(self).loop_view(),
            final(self).table() == apply_events(
                old(self).table(),
                expr_events(
                    hook.body@,
                    ContextView::InLifecycleHook(hook.hook_type@),
                    old(self).loop_view(),
                ),
            ),
    {
        self.record_expression_usage(
            hook.body.as_str(),
            UsageContext::InLifecycleHook { hook_type: hook.hook_type.clone() },
        );
    }

    /// Records all accesses of the file: its markup, then its lifecycle hooks.
    fn track_usage(&mut self, ast: &WhitehallFile)
        requires
            old(self).wf(),
            old(self).loop_view() is None,
            counts_fit(old(self).table(), file_events(*ast).len()),
        ensures
            final(self).wf(),
            final(self).same_decls(old(self)),
            final(self).loop_view() is None,
            final(self).table() == apply_events(old(self).table(), file_events(*ast)),
    {
        let ghost t0 = self.table();
        let ghost me = markup_events(ast.markup, None);
        let ghost he = hooks_events(ast.lifecycle_hooks@);
        let ghost total = (me + he).len();
        proof {
            lemma_step(t0, Seq::empty(), me, total);
            assert(Seq::<(Seq<char>, ContextView)>::empty() + me == me);
        }
        self.walk_markup(&ast.markup);
        let ghost t1 = self.table();
        proof {
            lemma_step(t0, me, he, total);
        }
        let mut i: usize = 0;
        while i < ast.lifecycle_hooks.len()
            invariant
                i <= ast.lifecycle_hooks@.len(),
                self.wf(),
                self.same_decls(old(self)),
                self.loop_view() is None,
                t1 == apply_events(t0, me),
                he == hooks_events(ast.lifecycle_hooks@),
                counts_fit(t1, he.len()),
                self.table() == apply_events(t1, hooks_events(ast.lifecycle_hooks@.take(i as int))),
            decreases ast.lifecycle_hooks.len() - i,
        {
            let hook = &ast.lifecycle_hooks[i];
            proof {
                let a = hooks_events(ast.lifecycle_hooks@.take(i as int));
                let b = expr_events(hook.body@, ContextView::InLifecycleHook(hook.hook_type@), None);
                assert(ast.lifecycle_hooks@.take(i + 1).drop_last() == ast.lifecycle_hooks@.take(
                    i as int,
                ));
                assert(hooks_events(ast.lifecycle_hooks@.take(i + 1)) == a + b);
                lemma_hooks_events_prefix(ast.lifecycle_hooks@, i + 1);
                lemma_step(t1, a, b, he.len());
                lemma_word_events_len(
                    expr_words(hook.body@),
                    actual_context(ContextView::InLifecycleHook(hook.hook_type@), None),
                );
            }
            self.walk_hook(hook);
            i = i + 1;
        }
        proof {
            assert(ast.lifecycle_hooks@.take(i as int) == ast.lifecycle_hooks@);
            lemma_apply_events_append(t0, me, he);
        }
    }
}


/// Some annotation in `anns` is exactly `name`.
fn has_annotation(anns: &Vec<String>, name: &str) -> (r: bool)
    ensures
        r == any_annotation(anns@, |a: Seq<char>| a == name@),
{
    let mut i: usize = 0;
    while i < anns.len()
        invariant
            i <= anns@.len(),
            forall|j: int| 0 <= j < i ==> anns@[j]@ != name@,
        decreases anns.len() - i,
    {
        if str_eq(anns[i].as_str(), name) {
            return true;
        }
        i = i + 1;
    }
    false
}

/// Some annotation in `anns` is `hilt` (any ASCII case) or `HiltViewModel`.
fn has_hilt_annotation(anns: &Vec<String>) -> (r: bool)
    ensures
        r == any_annotation(
            anns@,
            |a: Seq<char>| eq_ignore_case(a, "hilt"@) || a == "HiltViewModel"@,
        ),
{
    let mut i: usize = 0;
    while i < anns.len()
        invariant
            i <= anns@.len(),
            forall|j: int|
                0 <= j < i ==> !(eq_ignore_case(anns@[j]@, "hilt"@) || anns@[j]@
                    == "HiltViewModel"@),
        decreases anns.len() - i,
    {
        if eq_ignore_ascii_case(anns[i].as_str(), "hilt") || str_eq(anns[i].as_str(), "HiltViewModel") {
            return true;
        }
        i = i + 1;
    }
    false
}

/// Some annotation in `anns` is `inject` (any ASCII case).
fn has_inject_annotation(anns: &Vec<String>) -> (r: bool)
    ensures
        r == any_annotation(anns@, |a: Seq<char>| eq_ignore_case(a, "inject"@)),
{
    let mut i: usize = 0;
    while i < anns.len()
        invariant
            i <= anns@.len(),
            forall|j: int| 0 <= j < i ==> !eq_ignore_case(anns@[j]@, "inject"@),
        decreases anns.len() - i,
    {
        if eq_ignore_ascii_case(anns[i].as_str(), "inject") {
            return true;
        }
        i = i + 1;
    }
    false
}

/// Registering a store changes the value view by one entry.
proof fn lemma_registry_view_insert(m: Map<Seq<char>, StoreInfo>, k: Seq<char>, v: StoreInfo)
    ensures
        registry_view(m.insert(k, v)) == registry_view(m).insert(k, v@),
{
    assert(registry_view(m.insert(k, v)) =~= registry_view(m).insert(k, v@));
}

proof fn lemma_symbols_insert(m: Map<Seq<char>, Symbol>, k: Seq<char>, v: Symbol)
    ensures
        m.insert(k, v).map_values(|s: Symbol| s@) == m.map_values(|s: Symbol| s@).insert(k, v@),
{
    assert(m.insert(k, v).map_values(|s: Symbol| s@) =~= m.map_values(|s: Symbol| s@).insert(
        k,
        v@,
    ));
}

impl Analyzer {
    /// Registers the store classes of the file: `@store object`s as singletons,
    /// classes with a `var` property as ViewModels; other classes are skipped.
    fn collect_stores(&mut self, ast: &WhitehallFile)
        requires
            old(self).wf(),
        ensures
            final(self).wf(),
            final(self).table() == old(self).table(),
            final(self).loop_view() == old(self).loop_view(),
            final(self).mutable_vars@ == old(self).mutable_vars@,
            final(self).immutable_vals@ == old(self).immutable_vals@,
            registry_view(final(self).store_registry@) == stores_of(
                registry_view(old(self).store_registry@),
                ast.classes@,
            ),
    {
        let mut i: usize = 0;
        while i < ast.classes.len()
            invariant
                i <= ast.classes@.len(),
                self.wf(),
                self.table() == old(self).table(),
                self.loop_view() == old(self).loop_view(),
                self.mutable_vars@ == old(self).mutable_vars@,
                self.immutable_vals@ == old(self).immutable_vals@,
                registry_view(self.store_registry@) == stores_of(
                    registry_view(old(self).store_registry@),
                    ast.classes@.take(i as int),
                ),
            decreases ast.classes.len() - i,
        {
            let class = &ast.classes[i];
            proof {
                assert(ast.classes@.take(i + 1).drop_last() == ast.classes@.take(i as int));
                assert(ast.classes@.take(i + 1).last() == *class);
            }
            let has_store_annotation = has_annotation(&class.annotations, "store");
            let is_object = class.is_object;
            let mut has_vars = false;
            let mut k: usize = 0;
            while k < class.properties.len()
                invariant
                    k <= class.properties@.len(),
                    has_vars == (exists|j: int| 0 <= j < k && class.properties@[j].mutable),
                decreases class.properties.len() - k,
            {
                if class.properties[k].mutable {
                    has_vars = true;
                }
                k = k + 1;
            }
            let source = if has_store_annotation && is_object {
                StoreSource::Singleton
            } else if has_vars {
                StoreSource::Class
            } else {
                i = i + 1;
                continue ;
            };
            let hilt_annotation = has_hilt_annotation(&class.annotations);
            let has_inject = match &class.constructor {
                Some(c) => has_inject_annotation(&c.annotations),
                None => false,
            };
            let has_hilt = hilt_annotation || has_inject;
            let info = StoreInfo {
                class_name: class.name.clone(),
                source,
                has_vars,
                has_hilt,
                has_inject,
                package: String::new(),
            };
            proof {
                lemma_registry_view_insert(self.store_registry@, class.name@, info);
            }
            self.store_registry.insert(class.name.clone(), info);
            i = i + 1;
        }
        assert(ast.classes@.take(i as int) == ast.classes@);
    }

    /// Declares the props, then the state, then the functions of the file, and
    /// records which names are `var` and which `val`.
    fn collect_declarations(&mut self, ast: &WhitehallFile)
        requires
            old(self).wf(),
        ensures
            final(self).wf(),
            final(self).loop_view() == old(self).loop_view(),
            final(self).store_registry@ == old(self).store_registry@,
            final(self).store_registry.entry_seq() == old(self).store_registry.entry_seq(),
            final(self).table() == functions_decls(
                states_decls(props_decls(old(self).table(), ast.props@), ast.state@),
                ast.functions@,
            ),
            final(self).mutable_vars@ == old(self).mutable_vars@ + mutable_state_names(*ast),
            final(self).immutable_vals@ == old(self).immutable_vals@ + immutable_names(*ast),
    {
        let ghost t0 = self.table();
        let mut i: usize = 0;
        while i < ast.props.len()
            invariant
                i <= ast.props@.len(),
                self.wf(),
                self.loop_view() == old(self).loop_view(),
                self.store_registry@ == old(self).store_registry@,
                self.store_registry.entry_seq() == old(self).store_registry.entry_seq(),
                self.mutable_vars@ == old(self).mutable_vars@,
                self.immutable_vals@ == old(self).immutable_vals@ + Set::new(
                    |n: Seq<char>| exists|j: int| 0 <= j < i && ast.props@[j].name@ == n,
                ),
                self.table() == props_decls(t0, ast.props@.take(i as int)),
                t0 == old(self).table(),
            decreases ast.props.len() - i,
        {
            let prop = &ast.props[i];
            proof {
                assert(ast.props@.take(i + 1).drop_last() == ast.props@.take(i as int));
            }
            let usage_info = UsageInfo::new();
            let symbol = Symbol {
                name: prop.name.clone(),
                kind: SymbolKind::Prop,
                mutable: false,
                mutated: false,
                usage_info,
            };
            self.symbol_table.insert(prop.name.clone(), symbol);
            self.immutable_vals.insert(prop.name.clone());
            i = i + 1;
            proof {
                assert(self.immutable_vals@ =~= old(self).immutable_vals@ + Set::new(
                    |n: Seq<char>| exists|j: int| 0 <= j < i && ast.props@[j].name@ == n,
                )) by {
                    assert forall|n: Seq<char>| #![auto] self.immutable_vals@.contains(n) implies (
                    old(self).immutable_vals@ + Set::new(
                        |n: Seq<char>| exists|j: int| 0 <= j < i && ast.props@[j].name@ == n,
                    )).contains(n) by {
                        if n == prop.name@ {
                            assert(ast.props@[i - 1].name@ == n);
                        }
                    }
                }
            }
        }
        assert(ast.props@.take(i as int) == ast.props@);
        let ghost t1 = self.table();
        let ghost im1 = self.immutable_vals@;
        let mut i: usize = 0;
        while i < ast.state.len()
            invariant
                i <= ast.state@.len(),
                self.wf(),
                self.loop_view() == old(self).loop_view(),
                self.store_registry@ == old(self).store_registry@,
                self.store_registry.entry_seq() == old(self).store_registry.entry_seq(),
                self.mutable_vars@ == old(self).mutable_vars@ + Set::new(
                    |n: Seq<char>|
                        exists|j: int| 0 <= j < i && ast.state@[j].name@ == n && ast.state@[j].mutable,
                ),
                self.immutable_vals@ == im1 + Set::new(
                    |n: Seq<char>|
                        exists|j: int|
                            0 <= j < i && ast.state@[j].name@ == n && !ast.state@[j].mutable,
                ),
                self.table() == states_decls(t1, ast.state@.take(i as int)),
            decreases ast.state.len() - i,
        {
            let state = &ast.state[i];
            proof {
                assert(ast.state@.take(i + 1).drop_last() == ast.state@.take(i as int));
            }
            let v = state.initial_value.as_str();
            let is_computed = str_contains(v, ".filter") || str_contains(v, ".map")
                || str_contains(v, ".firstOrNull") || str_contains(v, "derivedStateOf");
            let kind = if state.mutable {
                SymbolKind::StateVar
            } else if state.is_derived_state || is_computed {
                SymbolKind::DerivedState
            } else {
                SymbolKind::StateVal
            };
            let symbol = Symbol {
                name: state.name.clone(),
                kind,
                mutable: state.mutable,
                mutated: false,
                usage_info: UsageInfo::new(),
            };
            self.symbol_table.insert(state.name.clone(), symbol);
            if state.mutable {
                self.mutable_vars.insert(state.name.clone());
            } else {
                self.immutable_vals.insert(state.name.clone());
            }
            i = i + 1;
            proof {
                let ghost mv = Set::new(
                    |n: Seq<char>|
                        exists|j: int| 0 <= j < i && ast.state@[j].name@ == n && ast.state@[j].mutable,
                );
                let ghost iv = Set::new(
                    |n: Seq<char>|
                        exists|j: int|
                            0 <= j < i && ast.state@[j].name@ == n && !ast.state@[j].mutable,
                );
                assert(self.mutable_vars@ =~= old(self).mutable_vars@ + mv) by {
                    assert forall|n: Seq<char>| #![auto] self.mutable_vars@.contains(n) implies (
                    old(self).mutable_vars@ + mv).contains(n) by {
                        if n == state.name@ && state.mutable {
                            assert(ast.state@[i - 1].name@ == n);
                        }
                    }
                }
                assert(self.immutable_vals@ =~= im1 + iv) by {
                    assert forall|n: Seq<char>| #![auto] self.immutable_vals@.contains(n) implies (
                    im1 + iv).contains(n) by {
                        if n == state.name@ && !state.mutable {
                            assert(ast.state@[i - 1].name@ == n);
                        }
                    }
                }
            }
        }
        assert(ast.state@.take(i as int) == ast.state@);
        let ghost t2 = self.table();
        let mut i: usize = 0;
        while i < ast.functions.len()
            invariant
                i <= ast.functions@.len(),
                self.wf(),
                self.loop_view() == old(self).loop_view(),
                self.store_registry@ == old(self).store_registry@,
                self.store_registry.entry_seq() == old(self).store_registry.entry_seq(),
                self.mutable_vars@ == old(self).mutable_vars@ + mutable_state_names(*ast),
                self.immutable_vals@ == old(self).immutable_vals@ + immutable_names(*ast),
                self.table() == functions_decls(t2, ast.functions@.take(i as int)),
            decreases ast.functions.len() - i,
        {
            let func = &ast.functions[i];
            proof {
                assert(ast.functions@.take(i + 1).drop_last() == ast.functions@.take(i as int));
            }
            let symbol = Symbol {
                name: func.name.clone(),
                kind: SymbolKind::Function,
                mutable: false,
                mutated: false,
                usage_info: UsageInfo::new(),
            };
            self.symbol_table.insert(func.name.clone(), symbol);
            i = i + 1;
        }
        assert(ast.functions@.take(i as int) == ast.functions@);
    }
}


impl Analyzer {
    /// A copy of the mutability sets.
    fn build_mutability_info(&self) -> (r: MutabilityInfo)
        ensures
            r.mutable_vars@ == self.mutable_vars@,
            r.immutable_vals@ == self.immutable_vals@,
    {
        MutabilityInfo {
            mutable_vars: self.mutable_vars.copy(),
            immutable_vals: self.immutable_vals.copy(),
        }
    }

    /// Whether some item of `body` holds a component with an event-handler prop
    /// (`on..` or `bind:..`).
    fn has_event_handlers(&self, body: &[Markup]) -> (r: bool)
        ensures
            r == markups_have_handlers(body@),
        decreases body@, 0nat,
    {
        let mut i: usize = 0;
        while i < body.len()
            invariant
                i <= body@.len(),
                !markups_have_handlers(body@.take(i as int)),
            decreases body.len() - i,
        {
            proof {
                assert(body@.take(i + 1).drop_last() == body@.take(i as int));
            }
            if self.markup_has_event_handlers(&body[i]) {
                proof {
                    lemma_handlers_prefix(body@, i + 1);
                }
                return true;
            }
            i = i + 1;
        }
        assert(body@.take(i as int) == body@);
        false
    }

    /// Whether `markup` holds a component with an event-handler prop.
    fn markup_has_event_handlers(&self, markup: &Markup) -> (r: bool)
        ensures
            r == markup_has_handlers(*markup),
        decreases markup, 1nat,
    {
        match markup {
            Markup::Component(component) => self.component_has_event_handlers(component),
            Markup::ForLoop(for_loop) => self.has_event_handlers(for_loop.body.as_slice()),
            Markup::IfElse(if_else) => {
                if self.has_event_handlers(if_else.then_branch.as_slice()) {
                    return true;
                }
                if self.else_ifs_have_event_handlers(&if_else.else_ifs) {
                    return true;
                }
                if let Some(else_branch) = &if_else.else_branch {
                    if self.has_event_handlers(else_branch.as_slice()) {
                        return true;
                    }
                }
                false
            },
            Markup::When(when_block) => self.when_has_event_handlers(&when_block.branches),
            Markup::Sequence(items) => self.has_event_handlers(items.as_slice()),
            _ => false,
        }
    }

    /// Whether the body of some `else if` branch holds an event handler.
    fn else_ifs_have_event_handlers(&self, bs: &Vec<ElseIfBranch>) -> (r: bool)
        ensures
            r == else_ifs_have_handlers(bs@),
        decreases bs@, 0nat,
    {
        let mut i: usize = 0;
        while i < bs.len()
            invariant
                i <= bs@.len(),
                !else_ifs_have_handlers(bs@.take(i as int)),
            decreases bs.len() - i,
        {
            proof {
                assert(bs@.take(i + 1).drop_last() == bs@.take(i as int));
            }
            if self.has_event_handlers(bs[i].body.as_slice()) {
                proof {
                    lemma_else_if_handlers_prefix(bs@, i + 1);
                }
                return true;
            }
            i = i + 1;
        }
        assert(bs@.take(i as int) == bs@);
        false
    }

    /// Whether the component body of some `@when` branch holds an event handler.
    fn when_has_event_handlers(&self, bs: &Vec<WhenBranch>) -> (r: bool)
        ensures
            r == when_has_handlers(bs@),
        decreases bs@, 0nat,
    {
        let mut i: usize = 0;
        while i < bs.len()
            invariant
                i <= bs@.len(),
                !when_has_handlers(bs@.take(i as int)),
            decreases bs.len() - i,
        {
            proof {
                assert(bs@.take(i + 1).drop_last() == bs@.take(i as int));
            }
            if let Markup::Component(c) = &bs[i].body {
                if self.component_has_event_handlers(c) {
                    proof {
                        lemma_when_handlers_prefix(bs@, i + 1);
                    }
                    return true;
                }
            }
            i = i + 1;
        }
        assert(bs@.take(i as int) == bs@);
        false
    }

    /// Whether `component` has an event-handler prop, or one of its children holds one.
    fn component_has_event_handlers(&self, component: &Component) -> (r: bool)
        ensures
            r == component_has_handlers(*component),
        decreases component, 0nat,
    {
        let mut i: usize = 0;
        while i < component.props.len()
            invariant
                i <= component.props@.len(),
                forall|j: int| 0 <= j < i ==> !is_handler_name(component.props@[j].name@),
            decreases component.props.len() - i,
        {
            let name = component.props[i].name.as_str();
            let chars = str_to_chars(name);
            if lit_at(chars.as_slice(), 0, "on") || lit_at(chars.as_slice(), 0, "bind:") {
                return true;
            }
            i = i + 1;
        }
        self.has_event_handlers(component.children.as_slice())
    }

    /// The static-collection hint for `for_loop`, when its collection is declared
    /// and the confidence is at least 50.
    fn check_static_collection(&self, for_loop: &ForLoopBlock) -> (r: Option<OptimizationHint>)
        requires
            self.wf(),
        ensures
            match r {
                Some(h) => loop_hint(*for_loop, self.table()) == seq![hint_view(h)],
                None => loop_hint(*for_loop, self.table()).len() == 0,
            },
    {
        let collection_name = &for_loop.collection;
        let symbol = match self.symbol_table.get(collection_name.as_str()) {
            Some(s) => s,
            None => return None,
        };
        let mut confidence: u8 = 0;
        let is_derived_or_prop = match symbol.kind {
            SymbolKind::DerivedState => true,
            SymbolKind::Prop => true,
            _ => false,
        };
        if !symbol.mutable && !is_derived_or_prop {
            confidence = confidence + 40;
        }
        if !symbol.mutated {
            confidence = confidence + 30;
        }
        let is_state = match symbol.kind {
            SymbolKind::StateVal => true,
            SymbolKind::StateVar => true,
            _ => false,
        };
        if is_state {
            confidence = confidence + 20;
        }
        if !self.has_event_handlers(for_loop.body.as_slice()) {
            confidence = confidence + 10;
        }
        if confidence >= 50 {
            Some(
                OptimizationHint::StaticCollection {
                    name: collection_name.clone(),
                    confidence,
                },
            )
        } else {
            None
        }
    }

    /// Appends the hints of every `@for` loop in `markup` (outer before inner).
    fn collect_for_loop_hints(&self, markup: &Markup, hints: &mut Vec<OptimizationHint>)
        requires
            self.wf(),
        ensures
            hints_view(final(hints)@) == hints_view(old(hints)@) + markup_hints(*markup, self.table()),
        decreases markup, 1nat,
    {
        let ghost t = self.table();
        match markup {
            Markup::ForLoop(for_loop) => {
                let ghost h0 = hints_view(hints@);
                if let Some(hint) = self.check_static_collection(for_loop) {
                    hints.push(hint);
                    assert(hints_view(hints@) == h0 + loop_hint(*for_loop, t));
                } else {
                    assert(hints_view(hints@) == h0 + loop_hint(*for_loop, t));
                }
                self.collect_hints_in(&for_loop.body, hints);
                if let Some(empty_block) = &for_loop.empty_block {
                    self.collect_hints_in(empty_block, hints);
                }
            },
            Markup::Component(component) => {
                self.collect_hints_in(&component.children, hints);
            },
            Markup::IfElse(if_else) => {
                self.collect_hints_in(&if_else.then_branch, hints);
                self.collect_else_if_hints(&if_else.else_ifs, hints);
                if let Some(else_branch) = &if_else.else_branch {
                    self.collect_hints_in(else_branch, hints);
                }
            },
            Markup::When(when_block) => {
                self.collect_when_hints(&when_block.branches, hints);
            },
            Markup::Sequence(items) => {
                self.collect_hints_in(items, hints);
            },
            _ => {},
        }
    }

    /// Appends the hints of every `@for` loop in `items`, in order.
    fn collect_hints_in(&self, items: &Vec<Markup>, hints: &mut Vec<OptimizationHint>)
        requires
            self.wf(),
        ensures
            hints_view(final(hints)@) == hints_view(old(hints)@) + markups_hints(items@, self.table()),
        decreases items@, 0nat,
    {
        let ghost t = self.table();
        let ghost h0 = hints_view(hints@);
        let mut i: usize = 0;
        while i < items.len()
            invariant
                self.wf(),
                t == self.table(),
                i <= items@.len(),
                hints_view(hints@) == h0 + markups_hints(items@.take(i as int), t),
            decreases items.len() - i,
        {
            proof {
                assert(items@.take(i + 1).drop_last() == items@.take(i as int));
            }
            self.collect_for_loop_hints(&items[i], hints);
            i = i + 1;
        }
        assert(items@.take(i as int) == items@);
    }

    /// Appends the hints of the `else if` bodies, in order.
    fn collect_else_if_hints(&self, bs: &Vec<ElseIfBranch>, hints: &mut Vec<OptimizationHint>)
        requires
            self.wf(),
        ensures
            hints_view(final(hints)@) == hints_view(old(hints)@) + else_ifs_hints(bs@, self.table()),
        decreases bs@, 0nat,
    {
        let ghost t = self.table();
        let ghost h0 = hints_view(hints@);
        let mut i: usize = 0;
        while i < bs.len()
            invariant
                self.wf(),
                t == self.table(),
                i <= bs@.len(),
                hints_view(hints@) == h0 + else_ifs_hints(bs@.take(i as int), t),
            decreases bs.len() - i,
        {
            proof {
                assert(bs@.take(i + 1).drop_last() == bs@.take(i as int));
            }
            self.collect_hints_in(&bs[i].body, hints);
            i = i + 1;
        }
        assert(bs@.take(i as int) == bs@);
    }

    /// Appends the hints of the `@when` bodies, in order.
    fn collect_when_hints(&self, bs: &Vec<WhenBranch>, hints: &mut Vec<OptimizationHint>)
        requires
            self.wf(),
        ensures
            hints_view(final(hints)@) == hints_view(old(hints)@) + when_hints(bs@, self.table()),
        decreases bs@, 0nat,
    {
        let ghost t = self.table();
        let ghost h0 = hints_view(hints@);
        let mut i: usize = 0;
        while i < bs.len()
            invariant
                self.wf(),
                t == self.table(),
                i <= bs@.len(),
                hints_view(hints@) == h0 + when_hints(bs@.take(i as int), t),
            decreases bs.len() - i,
        {
            proof {
                assert(bs@.take(i + 1).drop_last() == bs@.take(i as int));
            }
            self.collect_for_loop_hints(&bs[i].body, hints);
            i = i + 1;
        }
        assert(bs@.take(i as int) == bs@);
    }

    /// The hints of every `@for` loop of the file's markup.
    fn infer_optimizations(&self, ast: &WhitehallFile) -> (r: Vec<OptimizationHint>)
        requires
            self.wf(),
        ensures
            hints_view(r@) == markup_hints(ast.markup, self.table()),
    {
        let mut hints: Vec<OptimizationHint> = Vec::new();
        assert(hints_view(hints@) == Seq::<(Seq<char>, int)>::empty());
        self.collect_for_loop_hints(&ast.markup, &mut hints);
        hints
    }

    /// Analyzes `ast`: registers its stores, declares its names, records where
    /// each declared name is used, and scores its `@for` loops.
    pub fn analyze(ast: &WhitehallFile) -> (r: Result<SemanticInfo, String>)
        requires
            file_events(*ast).len() <= usize::MAX,
        ensures
            r is Ok,
            r matches Ok(info) ==> {
                &&& info.symbol_table.wf()
                &&& info.store_registry.wf()
                &&& info.symbol_table@ == apply_events(file_decls(*ast), file_events(*ast))
                &&& info.mutability_info.mutable_vars@ == mutable_state_names(*ast)
                &&& info.mutability_info.immutable_vals@ == immutable_names(*ast)
                &&& hints_view(info.optimization_hints@) == markup_hints(
                    ast.markup,
                    info.symbol_table@,
                )
                &&& registry_view(info.store_registry@) == stores_of(Map::empty(), ast.classes@)
            },
    {
        let mut analyzer = Analyzer::new();
        proof {
            assert(registry_view(analyzer.store_registry@) =~= Map::<Seq<char>, StoreView>::empty());
        }
        analyzer.collect_stores(ast);
        analyzer.collect_declarations(ast);
        proof {
            lemma_decls_unused(ast.props@, ast.state@, ast.functions@);
            assert(analyzer.mutable_vars@ =~= mutable_state_names(*ast));
            assert(analyzer.immutable_vals@ =~= immutable_names(*ast));
        }
        analyzer.track_usage(ast);
        let optimization_hints = analyzer.infer_optimizations(ast);
        let mutability_info = analyzer.build_mutability_info();
        Ok(
            SemanticInfo {
                symbol_table: analyzer.symbol_table,
                mutability_info,
                optimization_hints,
                store_registry: analyzer.store_registry,
            },
        )
    }
}

proof fn lemma_handlers_prefix(ms: Seq<Markup>, i: int)
    requires
        0 <= i <= ms.len(),
        markups_have_handlers(ms.take(i)),
    ensures
        markups_have_handlers(ms),
    decreases ms.len(),
{
    if i < ms.len() {
        assert(ms.take(i) == ms.drop_last().take(i));
        lemma_handlers_prefix(ms.drop_last(), i);
    } else {
        assert(ms.take(i) == ms);
    }
}

proof fn lemma_else_if_handlers_prefix(bs: Seq<ElseIfBranch>, i: int)
    requires
        0 <= i <= bs.len(),
        else_ifs_have_handlers(bs.take(i)),
    ensures
        else_ifs_have_handlers(bs),
    decreases bs.len(),
{
    if i < bs.len() {
        assert(bs.take(i) == bs.drop_last().take(i));
        lemma_else_if_handlers_prefix(bs.drop_last(), i);
    } else {
        assert(bs.take(i) == bs);
    }
}

proof fn lemma_when_handlers_prefix(bs: Seq<WhenBranch>, i: int)
    requires
        0 <= i <= bs.len(),
        when_has_handlers(bs.take(i)),
    ensures
        when_has_handlers(bs),
    decreases bs.len(),
{
    if i < bs.len() {
        assert(bs.take(i) == bs.drop_last().take(i));
        lemma_when_handlers_prefix(bs.drop_last(), i);
    } else {
        assert(bs.take(i) == bs);
    }
}

/// Every declared name starts with no recorded access.
pub open spec fn all_unused(t: Map<Seq<char>, SymbolView>) -> bool {
    forall|k: Seq<char>| #[trigger] t.contains_key(k) ==> t[k].usage == unused_view()
}

proof fn lemma_decls_unused(
    ps: Seq<PropDeclaration>,
    ss: Seq<StateDeclaration>,
    fs: Seq<FunctionDeclaration>,
)
    ensures
        all_unused(functions_decls(states_decls(props_decls(Map::empty(), ps), ss), fs)),
    decreases ps.len() + ss.len() + fs.len(),
{
    if fs.len() > 0 {
        lemma_decls_unused(ps, ss, fs.drop_last());
    } else if ss.len() > 0 {
        lemma_decls_unused(ps, ss.drop_last(), fs);
    } else if ps.len() > 0 {
        lemma_decls_unused(ps.drop_last(), ss, fs);
    }
}


// ===================== Counting the accesses of a file =====================

/// `r` counts `n` things: their number, or nothing when they are more than a
/// `usize` holds.
pub open spec fn counted(r: Option<usize>, n: nat) -> bool {
    match r {
        Some(k) => k as nat == n,
        None => n > usize::MAX,
    }
}

fn add_counts(a: Option<usize>, b: Option<usize>, Ghost(x): Ghost<nat>, Ghost(y): Ghost<nat>) -> (r:
    Option<usize>)
    requires
        counted(a, x),
        counted(b, y),
    ensures
        counted(r, x + y),
{
    match (a, b) {
        (Some(p), Some(q)) => p.checked_add(q),
        _ => None,
    }
}

/// The number of names in `s` (see `expr_words`).
fn word_count(s: &str) -> (r: usize)
    ensures
        r == expr_words(s@).len(),
{
    let chars = str_to_chars(s);
    let ghost t = s@;
    let mut n: usize = 0;
    let mut in_word = false;
    let mut i: usize = 0;
    while i < chars.len()
        invariant
            chars@ == t,
            i <= t.len(),
            n == scan_words(t, i as int).0.len(),
            in_word == (scan_words(t, i as int).1.len() > 0),
            n + (if in_word { 1int } else { 0int }) <= i,
        decreases chars.len() - i,
    {
        if delimiter(chars[i]) {
            if in_word {
                n = n + 1;
                in_word = false;
            }
        } else {
            in_word = true;
        }
        i = i + 1;
    }
    if in_word {
        n + 1
    } else {
        n
    }
}

fn expr_count(s: &String, Ghost(c): Ghost<ContextView>, Ghost(lp): Ghost<Option<Seq<char>>>) -> (r:
    Option<usize>)
    ensures
        counted(r, expr_events(s@, c, lp).len()),
{
    proof {
        lemma_word_events_len(expr_words(s@), actual_context(c, lp));
    }
    Some(word_count(s.as_str()))
}

fn markup_count(m: &Markup, Ghost(lp): Ghost<Option<Seq<char>>>) -> (r: Option<usize>)
    ensures
        counted(r, markup_events(*m, lp).len()),
    decreases *m, 1nat,
{
    match m {
        Markup::Component(c) => add_counts(
            props_count(&c.name, &c.props, Ghost(lp)),
            markups_count(&c.children, Ghost(lp)),
            Ghost(props_events(c.name@, c.props@, lp).len()),
            Ghost(markups_events(c.children@, lp).len()),
        ),
        Markup::ForLoop(f) => for_loop_count(f, Ghost(lp)),
        Markup::IfElse(b) => {
            let a = add_counts(
                expr_count(&b.condition, Ghost(ContextView::InCondition("if"@)), Ghost(lp)),
                markups_count(&b.then_branch, Ghost(lp)),
                Ghost(expr_events(b.condition@, ContextView::InCondition("if"@), lp).len()),
                Ghost(markups_events(b.then_branch@, lp).len()),
            );
            let ghost x = expr_events(b.condition@, ContextView::InCondition("if"@), lp).len()
                + markups_events(b.then_branch@, lp).len();
            let a2 = add_counts(
                a,
                else_ifs_count(&b.else_ifs, Ghost(lp)),
                Ghost(x),
                Ghost(else_ifs_events(b.else_ifs@, lp).len()),
            );
            let ghost x2 = x + else_ifs_events(b.else_ifs@, lp).len();
            match &b.else_branch {
                Some(e) => add_counts(a2, markups_count(e, Ghost(lp)), Ghost(x2), Ghost(markups_events(e@, lp).len())),
                None => a2,
            }
        },
        Markup::When(w) => when_count(&w.branches, Ghost(lp)),
        Markup::Sequence(items) => markups_count(items, Ghost(lp)),
        Markup::Interpolation(e) => expr_count(e, Ghost(ContextView::InInterpolation), Ghost(lp)),
        Markup::Text(_) => Some(0),
    }
}

fn for_loop_count(f: &ForLoopBlock, Ghost(lp): Ghost<Option<Seq<char>>>) -> (r: Option<usize>)
    ensures
        counted(r, for_loop_events(*f, lp).len()),
    decreases *f, 0nat,
{
    let ghost coll = f.collection@;
    let k = match &f.key_expr {
        Some(k) => expr_count(k, Ghost(ContextView::InKeyExpression(coll)), Ghost(lp)),
        None => Some(0),
    };
    let ghost kn: nat = match &f.key_expr {
        Some(k) => expr_events(k@, ContextView::InKeyExpression(coll), lp).len(),
        None => 0,
    };
    let a = add_counts(Some(1), k, Ghost(1), Ghost(kn));
    let b = add_counts(
        a,
        markups_count(&f.body, Ghost(Some(coll))),
        Ghost(1 + kn),
        Ghost(markups_events(f.body@, Some(coll)).len()),
    );
    let ghost x = 1 + kn + markups_events(f.body@, Some(coll)).len();
    match &f.empty_block {
        Some(e) => add_counts(b, markups_count(e, Ghost(lp)), Ghost(x), Ghost(markups_events(e@, lp).len())),
        None => b,
    }
}

fn markups_count(ms: &Vec<Markup>, Ghost(lp): Ghost<Option<Seq<char>>>) -> (r: Option<usize>)
    ensures
        counted(r, markups_events(ms@, lp).len()),
    decreases ms@, 0nat,
{
    let mut acc: Option<usize> = Some(0);
    let mut i: usize = 0;
    proof {
        assert(ms@.take(0) =~= Seq::<Markup>::empty());
    }
    while i < ms.len()
        invariant
            i <= ms@.len(),
            counted(acc, markups_events(ms@.take(i as int), lp).len()),
        decreases ms.len() - i,
    {
        proof {
            assert(ms@.take(i + 1).drop_last() =~= ms@.take(i as int));
            assert(ms@.take(i + 1).last() == ms@[i as int]);
        }
        acc = add_counts(
            acc,
            markup_count(&ms[i], Ghost(lp)),
            Ghost(markups_events(ms@.take(i as int), lp).len()),
            Ghost(markup_events(ms@[i as int], lp).len()),
        );
        i = i + 1;
    }
    proof {
        assert(ms@.take(ms@.len() as int) =~= ms@);
    }
    acc
}

fn props_count(name: &String, ps: &Vec<ComponentProp>, Ghost(lp): Ghost<Option<Seq<char>>>) -> (r:
    Option<usize>)
    ensures
        counted(r, props_events(name@, ps@, lp).len()),
    decreases ps@, 0nat,
{
    let mut acc: Option<usize> = Some(0);
    let mut i: usize = 0;
    proof {
        assert(ps@.take(0) =~= Seq::<ComponentProp>::empty());
    }
    while i < ps.len()
        invariant
            i <= ps@.len(),
            counted(acc, props_events(name@, ps@.take(i as int), lp).len()),
        decreases ps.len() - i,
    {
        proof {
            assert(ps@.take(i + 1).drop_last() =~= ps@.take(i as int));
            assert(ps@.take(i + 1).last() == ps@[i as int]);
        }
        let ghost here: nat = match ps@[i as int].value {
            PropValue::Expression(e) => expr_events(
                e@,
                ContextView::InComponentProp(name@, ps@[i as int].name@),
                lp,
            ).len(),
            PropValue::Markup(b) => markup_events(*b, lp).len(),
        };
        let c = match &ps[i].value {
            PropValue::Expression(e) => expr_count(
                e,
                Ghost(ContextView::InComponentProp(name@, ps@[i as int].name@)),
                Ghost(lp),
            ),
            PropValue::Markup(b) => markup_count(b, Ghost(lp)),
        };
        acc = add_counts(acc, c, Ghost(props_events(name@, ps@.take(i as int), lp).len()), Ghost(here));
        i = i + 1;
    }
    proof {
        assert(ps@.take(ps@.len() as int) =~= ps@);
    }
    acc
}

fn else_ifs_count(bs: &Vec<ElseIfBranch>, Ghost(lp): Ghost<Option<Seq<char>>>) -> (r: Option<usize>)
    ensures
        counted(r, else_ifs_events(bs@, lp).len()),
    decreases bs@, 0nat,
{
    let mut acc: Option<usize> = Some(0);
    let mut i: usize = 0;
    proof {
        assert(bs@.take(0) =~= Seq::<ElseIfBranch>::empty());
    }
    while i < bs.len()
        invariant
            i <= bs@.len(),
            counted(acc, else_ifs_events(bs@.take(i as int), lp).len()),
        decreases bs.len() - i,
    {
        proof {
            assert(bs@.take(i + 1).drop_last() =~= bs@.take(i as int));
            assert(bs@.take(i + 1).last() == bs@[i as int]);
        }
        let ghost before = else_ifs_events(bs@.take(i as int), lp).len();
        let ghost ce = expr_events(bs@[i as int].condition@, ContextView::InCondition("else-if"@), lp).len();
        let a = add_counts(
            acc,
            expr_count(&bs[i].condition, Ghost(ContextView::InCondition("else-if"@)), Ghost(lp)),
            Ghost(before),
            Ghost(ce),
        );
        acc = add_counts(
            a,
            markups_count(&bs[i].body, Ghost(lp)),
            Ghost(before + ce),
            Ghost(markups_events(bs@[i as int].body@, lp).len()),
        );
        i = i + 1;
    }
    proof {
        assert(bs@.take(bs@.len() as int) =~= bs@);
    }
    acc
}

fn when_count(bs: &Vec<WhenBranch>, Ghost(lp): Ghost<Option<Seq<char>>>) -> (r: Option<usize>)
    ensures
        counted(r, when_events(bs@, lp).len()),
    decreases bs@, 0nat,
{
    let mut acc: Option<usize> = Some(0);
    let mut i: usize = 0;
    proof {
        assert(bs@.take(0) =~= Seq::<WhenBranch>::empty());
    }
    while i < bs.len()
        invariant
            i <= bs@.len(),
            counted(acc, when_events(bs@.take(i as int), lp).len()),
        decreases bs.len() - i,
    {
        proof {
            assert(bs@.take(i + 1).drop_last() =~= bs@.take(i as int));
            assert(bs@.take(i + 1).last() == bs@[i as int]);
        }
        let ghost before = when_events(bs@.take(i as int), lp).len();
        let ghost ce: nat = match bs@[i as int].condition {
            Some(c) => expr_events(c@, ContextView::InCondition("when"@), lp).len(),
            None => 0,
        };
        let c = match &bs[i].condition {
            Some(c) => expr_count(c, Ghost(ContextView::InCondition("when"@)), Ghost(lp)),
            None => Some(0),
        };
        let a = add_counts(acc, c, Ghost(before), Ghost(ce));
        acc = add_counts(
            a,
            markup_count(&bs[i].body, Ghost(lp)),
            Ghost(before + ce),
            Ghost(markup_events(bs@[i as int].body, lp).len()),
        );
        i = i + 1;
    }
    proof {
        assert(bs@.take(bs@.len() as int) =~= bs@);
    }
    acc
}

fn hooks_count(hs: &Vec<LifecycleHook>) -> (r: Option<usize>)
    ensures
        counted(r, hooks_events(hs@).len()),
{
    let mut acc: Option<usize> = Some(0);
    let mut i: usize = 0;
    proof {
        assert(hs@.take(0) =~= Seq::<LifecycleHook>::empty());
    }
    while i < hs.len()
        invariant
            i <= hs@.len(),
            counted(acc, hooks_events(hs@.take(i as int)).len()),
        decreases hs.len() - i,
    {
        proof {
            assert(hs@.take(i + 1).drop_last() =~= hs@.take(i as int));
            assert(hs@.take(i + 1).last() == hs@[i as int]);
        }
        acc = add_counts(
            acc,
            expr_count(&hs[i].body, Ghost(ContextView::InLifecycleHook(hs@[i as int].hook_type@)), Ghost(None)),
            Ghost(hooks_events(hs@.take(i as int)).len()),
            Ghost(
                expr_events(
                    hs@[i as int].body@,
                    ContextView::InLifecycleHook(hs@[i as int].hook_type@),
                    None,
                ).len(),
            ),
        );
        i = i + 1;
    }
    proof {
        assert(hs@.take(hs@.len() as int) =~= hs@);
    }
    acc
}

/// Whether the accesses that analyzing `ast` records can be counted in a
/// `usize` (what `Analyzer::analyze` asks of its input).
pub fn events_fit(ast: &WhitehallFile) -> (r: bool)
    ensures
        r == (file_events(*ast).len() <= usize::MAX),
{
    let c = add_counts(
        markup_count(&ast.markup, Ghost(None)),
        hooks_count(&ast.lifecycle_hooks),
        Ghost(markup_events(ast.markup, None).len()),
        Ghost(hooks_events(ast.lifecycle_hooks@).len()),
    );
    c.is_some()
}

} // verus!
