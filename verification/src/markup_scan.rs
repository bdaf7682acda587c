//! Whether the text of markup mentions a word: dispatcher blocks (`io {`,
//! `cpu {`, `main {`) and routes (`$routes`, `$navigate`).

use vstd::prelude::*;

use crate::ast::{ComponentProp, ElseIfBranch, Markup, PropValue, WhenBranch};
use crate::text::{seq_contains, str_contains};

verus! {

/// Whether an optional text holds `p`.
pub open spec fn opt_mentions(o: Option<String>, p: Seq<char>) -> bool {
    match o {
        Some(t) => seq_contains(t@, p),
        None => false,
    }
}

/// Whether a text of markup `m` (a name, a prop, a text, an expression, a
/// condition, a loop's item, collection or key) holds `p`.
pub open spec fn markup_mentions(m: Markup, p: Seq<char>) -> bool
    decreases m,
{
    match m {
        Markup::Component(c) => seq_contains(c.name@, p) || props_mention(c.props@, p)
            || markups_mention(c.children@, p),
        Markup::Text(t) => seq_contains(t@, p),
        Markup::Interpolation(e) => seq_contains(e@, p),
        Markup::Sequence(items) => markups_mention(items@, p),
        Markup::IfElse(b) => seq_contains(b.condition@, p) || markups_mention(b.then_branch@, p)
            || else_ifs_mention(b.else_ifs@, p) || match b.else_branch {
            Some(e) => markups_mention(e@, p),
            None => false,
        },
        Markup::ForLoop(f) => opt_mentions(f.index, p) || seq_contains(f.item@, p) || seq_contains(
            f.collection@,
            p,
        ) || opt_mentions(f.key_expr, p) || markups_mention(f.body@, p) || match f.empty_block {
            Some(e) => markups_mention(e@, p),
            None => false,
        },
        Markup::When(w) => whens_mention(w.branches@, p),
    }
}

/// Whether a text of one of `ms` holds `p`.
pub open spec fn markups_mention(ms: Seq<Markup>, p: Seq<char>) -> bool
    decreases ms,
{
    ms.len() > 0 && (markups_mention(ms.drop_last(), p) || markup_mentions(ms.last(), p))
}

/// Whether a name or value of one of the props `ps` holds `p`.
pub open spec fn props_mention(ps: Seq<ComponentProp>, p: Seq<char>) -> bool
    decreases ps,
{
    ps.len() > 0 && (props_mention(ps.drop_last(), p) || seq_contains(ps.last().name@, p)
        || match ps.last().value {
        PropValue::Expression(e) => seq_contains(e@, p),
        PropValue::Markup(b) => markup_mentions(*b, p),
    })
}

/// Whether a condition or body of the `else if` branches `bs` holds `p`.
pub open spec fn else_ifs_mention(bs: Seq<ElseIfBranch>, p: Seq<char>) -> bool
    decreases bs,
{
    bs.len() > 0 && (else_ifs_mention(bs.drop_last(), p) || seq_contains(bs.last().condition@, p)
        || markups_mention(bs.last().body@, p))
}

/// Whether a condition or body of the `@when` branches `bs` holds `p`.
pub open spec fn whens_mention(bs: Seq<WhenBranch>, p: Seq<char>) -> bool
    decreases bs,
{
    bs.len() > 0 && (whens_mention(bs.drop_last(), p) || opt_mentions(bs.last().condition, p)
        || markup_mentions(bs.last().body, p))
}

/// Whether the markup holds a dispatcher block (`io {`, `cpu {`, `main {`).
pub open spec fn uses_dispatchers(m: Markup) -> bool {
    markup_mentions(m, "io {"@) || markup_mentions(m, "cpu {"@) || markup_mentions(m, "main {"@)
}

/// Whether the markup mentions `$routes` or `$navigate`.
pub open spec fn markup_uses_routes(m: Markup) -> bool {
    markup_mentions(m, "$routes"@) || markup_mentions(m, "$navigate"@)
}

fn opt_mentions_of(o: &Option<String>, p: &str) -> (r: bool)
    ensures
        r == opt_mentions(*o, p@),
{
    match o {
        Some(t) => str_contains(t.as_str(), p),
        None => false,
    }
}

/// Whether a text of markup `m` holds `p`.
pub fn mentions(m: &Markup, p: &str) -> (r: bool)
    ensures
        r == markup_mentions(*m, p@),
    decreases *m, 1nat,
{
    match m {
        Markup::Component(c) => str_contains(c.name.as_str(), p) || props_mention_of(&c.props, p)
            || markups_mention_of(&c.children, p),
        Markup::Text(t) => str_contains(t.as_str(), p),
        Markup::Interpolation(e) => str_contains(e.as_str(), p),
        Markup::Sequence(items) => markups_mention_of(items, p),
        Markup::IfElse(b) => str_contains(b.condition.as_str(), p) || markups_mention_of(
            &b.then_branch,
            p,
        ) || else_ifs_mention_of(&b.else_ifs, p) || match &b.else_branch {
            Some(e) => markups_mention_of(e, p),
            None => false,
        },
        Markup::ForLoop(f) => opt_mentions_of(&f.index, p) || str_contains(f.item.as_str(), p)
            || str_contains(f.collection.as_str(), p) || opt_mentions_of(&f.key_expr, p)
            || markups_mention_of(&f.body, p) || match &f.empty_block {
            Some(e) => markups_mention_of(e, p),
            None => false,
        },
        Markup::When(w) => whens_mention_of(&w.branches, p),
    }
}

/// Whether a text of one of `ms` holds `p`.
fn markups_mention_of(ms: &Vec<Markup>, p: &str) -> (r: bool)
    ensures
        r == markups_mention(ms@, p@),
    decreases ms@, 0nat,
{
    let mut i: usize = 0;
    let mut found = false;
    proof {
        assert(ms@.take(0) =~= Seq::<Markup>::empty());
    }
    while i < ms.len()
        invariant
            i <= ms@.len(),
            found == markups_mention(ms@.take(i as int), p@),
        decreases ms.len() - i,
    {
        proof {
            assert(ms@.take(i + 1).drop_last() =~= ms@.take(i as int));
            assert(ms@.take(i + 1).last() == ms@[i as int]);
        }
        if !found {
            found = mentions(&ms[i], p);
        }
        i = i + 1;
    }
    proof {
        assert(ms@.take(ms@.len() as int) =~= ms@);
    }
    found
}

/// Whether a name or value of one of `ps` holds `p`.
fn props_mention_of(ps: &Vec<ComponentProp>, p: &str) -> (r: bool)
    ensures
        r == props_mention(ps@, p@),
    decreases ps@, 0nat,
{
    let mut i: usize = 0;
    let mut found = false;
    proof {
        assert(ps@.take(0) =~= Seq::<ComponentProp>::empty());
    }
    while i < ps.len()
        invariant
            i <= ps@.len(),
            found == props_mention(ps@.take(i as int), p@),
        decreases ps.len() - i,
    {
        proof {
            assert(ps@.take(i + 1).drop_last() =~= ps@.take(i as int));
            assert(ps@.take(i + 1).last() == ps@[i as int]);
        }
        if !found {
            found = str_contains(ps[i].name.as_str(), p) || match &ps[i].value {
                PropValue::Expression(e) => str_contains(e.as_str(), p),
                PropValue::Markup(b) => mentions(&**b, p),
            };
        }
        i = i + 1;
    }
    proof {
        assert(ps@.take(ps@.len() as int) =~= ps@);
    }
    found
}

/// Whether a condition or body of `bs` holds `p`.
fn else_ifs_mention_of(bs: &Vec<ElseIfBranch>, p: &str) -> (r: bool)
    ensures
        r == else_ifs_mention(bs@, p@),
    decreases bs@, 0nat,
{
    let mut i: usize = 0;
    let mut found = false;
    proof {
        assert(bs@.take(0) =~= Seq::<ElseIfBranch>::empty());
    }
    while i < bs.len()
        invariant
            i <= bs@.len(),
            found == else_ifs_mention(bs@.take(i as int), p@),
        decreases bs.len() - i,
    {
        proof {
            assert(bs@.take(i + 1).drop_last() =~= bs@.take(i as int));
            assert(bs@.take(i + 1).last() == bs@[i as int]);
        }
        if !found {
            found = str_contains(bs[i].condition.as_str(), p) || markups_mention_of(&bs[i].body, p);
        }
        i = i + 1;
    }
    proof {
        assert(bs@.take(bs@.len() as int) =~= bs@);
    }
    found
}

/// Whether a condition or body of `bs` holds `p`.
fn whens_mention_of(bs: &Vec<WhenBranch>, p: &str) -> (r: bool)
    ensures
        r == whens_mention(bs@, p@),
    decreases bs@, 0nat,
{
    let mut i: usize = 0;
    let mut found = false;
    proof {
        assert(bs@.take(0) =~= Seq::<WhenBranch>::empty());
    }
    while i < bs.len()
        invariant
            i <= bs@.len(),
            found == whens_mention(bs@.take(i as int), p@),
        decreases bs.len() - i,
    {
        proof {
            assert(bs@.take(i + 1).drop_last() =~= bs@.take(i as int));
            assert(bs@.take(i + 1).last() == bs@[i as int]);
        }
        if !found {
            found = opt_mentions_of(&bs[i].condition, p) || mentions(&bs[i].body, p);
        }
        i = i + 1;
    }
    proof {
        assert(bs@.take(bs@.len() as int) =~= bs@);
    }
    found
}

/// Whether the markup holds a dispatcher block (`io {`, `cpu {`, `main {`);
/// the original scans the markup's debug text, in which these words occur
/// exactly where one of its texts holds them.
pub fn detect_dispatcher_usage(m: &Markup) -> (r: bool)
    ensures
        r == uses_dispatchers(*m),
{
    mentions(m, "io {") || mentions(m, "cpu {") || mentions(m, "main {")
}

/// Whether the markup mentions `$routes` or `$navigate`.
pub fn detect_markup_routes(m: &Markup) -> (r: bool)
    ensures
        r == markup_uses_routes(*m),
{
    mentions(m, "$routes") || mentions(m, "$navigate")
}

} // verus!
