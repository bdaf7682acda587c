//! The Compose backend's results: one file, or a component with its
//! ViewModel; and the camel-case names of FFI calls.

use vstd::prelude::*;

use crate::ast::{Import, WhitehallFile};
use crate::compose::camel_from;
use crate::compose_components::{starts, MarkupGen, MarkupState};
use crate::compose_imports::{markup_safe, strs};
use crate::compose_markup::{markup_fine, rendered};
use crate::compose_wrapper::{helpers_fine, plain_vals_fine, wrapper_code};
use crate::stores::{component_state_ok, component_viewmodel};
use crate::text::{lit, occurs_at, push_lit, push_string, str_to_chars};
use crate::parser::char_at;

verus! {

/// What transpiling a file gives: one Kotlin file, or several, each with
/// the suffix of its name (the empty suffix for the primary file).
pub enum TranspileResult {
    Single(String),
    Multiple(Vec<(String, String)>),
}

// ===================== FFI calls =====================

/// `prefix` followed by `name` in camel case and an opening parenthesis.
pub fn ffi_call_replacement(prefix: &str, name: &str) -> (r: String)
    ensures
        r@ == prefix@ + camel_from(name@, 0, false) + "("@,
{
    let mut r = lit(prefix);
    let c = crate::compose::snake_to_camel(name);
    push_string(&mut r, &c);
    push_lit(&mut r, "(");
    r
}

/// Whether the regular expression class `\w` matches `c` (Unicode word
/// characters: letters, marks, digits, connector punctuation and a few
/// joiners).
pub uninterp spec fn regex_word(c: char) -> bool;

/// Whether `regex::Regex::new` builds the call pattern of FFI object
/// `object` (`(object\.)([\w]+)\(`, the name escaped by `regex::escape`):
/// it fails only when the compiled pattern would exceed the regex crate's
/// size limits, which depends on the name alone.
pub uninterp spec fn ffi_pattern_builds(object: Seq<char>) -> bool;

/// Whether the call patterns of all the FFI objects `objs` build.
pub open spec fn ffi_builds_all(objs: Seq<Seq<char>>) -> bool {
    forall|i: int| 0 <= i < objs.len() ==> ffi_pattern_builds(#[trigger] objs[i])
}

/// The end of the run of `\w` characters of `s` from `i` on.
pub open spec fn word_run_end(s: Seq<char>, i: int) -> int
    decreases s.len() - i,
{
    if 0 <= i < s.len() && regex_word(s[i]) {
        word_run_end(s, i + 1)
    } else {
        i
    }
}

/// Whether a call `object.name(` starts at `i` (`name` a non-empty run of
/// `\w` characters).
pub open spec fn ffi_call_at(s: Seq<char>, i: int, object: Seq<char>) -> bool {
    let k = i + object.len() + 1;
    let j = word_run_end(s, k);
    occurs_at(s, i, object + "."@) && j > k && char_at(s, j) == Some('(')
}

/// `s` from `i` on with each call `object.name(` renamed to
/// `object.camelName(`, matches taken left to right without overlapping (as
/// the pattern `(object\.)([\w]+)\(` finds them).
pub open spec fn ffi_calls_from(s: Seq<char>, i: int, object: Seq<char>) -> Seq<char>
    decreases s.len() - i,
{
    if i < 0 || i >= s.len() {
        Seq::empty()
    } else if ffi_call_at(s, i, object) {
        let k = i + object.len() + 1;
        let j = word_run_end(s, k);
        if j < s.len() {
            object + "."@ + camel_from(s.subrange(k, j), 0, false) + "("@ + ffi_calls_from(
                s,
                j + 1,
                object,
            )
        } else {
            Seq::empty()
        }
    } else {
        seq![s[i]] + ffi_calls_from(s, i + 1, object)
    }
}

/// Renames the calls of FFI object `object` in `output` with
/// `regex::Regex::replace_all` over the pattern `(object\.)([\w]+)\(` (the
/// object's name escaped by `regex::escape`), each match replaced by
/// `ffi_call_replacement`. `Regex::new` fails when the compiled pattern
/// would exceed the regex crate's size limit; its error text is passed on.
/// The contract states what leftmost-first, non-overlapping matching gives
/// for this pattern; which characters `\w` matches is named by
/// `regex_word`, stated for ASCII (`[0-9A-Za-z_]`).
#[verifier::external_body]
fn convert_calls_of(output: &str, object: &str) -> (r: Result<String, String>)
    ensures
        r is Ok <==> ffi_pattern_builds(object@),
        r matches Ok(x) ==> x@ == ffi_calls_from(output@, 0, object@),
        r matches Ok(_) ==> forall|c: char|
            (c as u32) < 128 ==> (#[trigger] regex_word(c) == (crate::text::spec_is_ascii_alphanumeric(c)
                || c == '_')),
{
    let pattern = format!(r"({}\.)([\w]+)\(", regex::escape(object));
    match regex::Regex::new(&pattern) {
        Ok(re) => Ok(
            re.replace_all(output, |caps: &regex::Captures| ffi_call_replacement(&caps[1], &caps[2]))
                .to_string(),
        ),
        Err(e) => Err(e.to_string()),
    }
}

/// The text of `p` after its last `.` (all of it without one).
pub open spec fn last_segment(p: Seq<char>) -> Seq<char>
    decreases p.len(),
{
    if p.len() == 0 {
        Seq::empty()
    } else if p.last() == '.' {
        Seq::empty()
    } else {
        last_segment(p.drop_last()).push(p.last())
    }
}

/// The FFI objects of the imports `imps`: the last segment of each import
/// whose path starts with `$ffi`, in order.
pub open spec fn ffi_objects(imps: Seq<Import>) -> Seq<Seq<char>>
    decreases imps.len(),
{
    if imps.len() == 0 {
        Seq::empty()
    } else if starts(imps.last().path@, "$ffi"@) {
        ffi_objects(imps.drop_last()).push(last_segment(imps.last().path@))
    } else {
        ffi_objects(imps.drop_last())
    }
}

/// `output` with the calls of each of the FFI objects `objs` renamed, one
/// object after the other.
pub open spec fn ffi_converted(output: Seq<char>, objs: Seq<Seq<char>>) -> Seq<char>
    decreases objs.len(),
{
    if objs.len() == 0 {
        output
    } else {
        ffi_calls_from(ffi_converted(output, objs.drop_last()), 0, objs.last())
    }
}

/// The text after the last `.` of `p`.
fn last_segment_of(p: &str) -> (r: String)
    ensures
        r@ == last_segment(p@),
{
    let v = str_to_chars(p);
    let mut k = v.len();
    proof {
        assert(v@.take(v@.len() as int) =~= v@);
        assert(v@.subrange(v@.len() as int, v@.len() as int) =~= Seq::<char>::empty());
        assert(last_segment(p@) =~= last_segment(v@.take(k as int)) + v@.subrange(
            k as int,
            v@.len() as int,
        ));
    }
    while k > 0 && v[k - 1] != '.'
        invariant
            k <= v@.len(),
            v@ == p@,
            last_segment(p@) == last_segment(v@.take(k as int)) + v@.subrange(k as int, v@.len() as int),
        decreases k,
    {
        proof {
            assert(v@.take(k as int).drop_last() =~= v@.take(k - 1));
            assert(v@.take(k as int).last() == v@[k - 1]);
            assert(v@.subrange(k - 1, v@.len() as int) =~= seq![v@[k - 1]] + v@.subrange(
                k as int,
                v@.len() as int,
            ));
            assert(last_segment(v@.take(k as int)) == last_segment(v@.take(k - 1)).push(v@[k - 1]));
            assert(last_segment(v@.take(k - 1)).push(v@[k - 1]) + v@.subrange(k as int, v@.len() as int)
                =~= last_segment(v@.take(k - 1)) + v@.subrange(k - 1, v@.len() as int));
        }
        k = k - 1;
    }
    proof {
        if k > 0 {
            assert(v@.take(k as int).last() == '.');
        }
        assert(last_segment(v@.take(k as int)) =~= Seq::<char>::empty());
        assert(v@.take(v@.len() as int) =~= v@);
    }
    crate::text::string_from_range(v.as_slice(), k, v.len())
}

/// The names of the FFI objects imported by `imports`.
fn ffi_objects_of(imports: &Vec<Import>) -> (r: Vec<String>)
    ensures
        strs(r@) == ffi_objects(imports@),
{
    let mut r: Vec<String> = Vec::new();
    let mut i: usize = 0;
    proof {
        assert(imports@.take(0) =~= Seq::<Import>::empty());
        assert(strs(r@) =~= Seq::<Seq<char>>::empty());
    }
    while i < imports.len()
        invariant
            i <= imports@.len(),
            strs(r@) == ffi_objects(imports@.take(i as int)),
        decreases imports.len() - i,
    {
        proof {
            assert(imports@.take(i + 1).drop_last() =~= imports@.take(i as int));
            assert(imports@.take(i + 1).last() == imports@[i as int]);
        }
        let ghost r0 = strs(r@);
        if crate::text::str_starts_with(imports[i].path.as_str(), "$ffi") {
            r.push(last_segment_of(imports[i].path.as_str()));
            proof {
                assert(strs(r@) =~= r0.push(last_segment(imports@[i as int].path@)));
            }
        }
        i = i + 1;
    }
    proof {
        assert(imports@.take(imports@.len() as int) =~= imports@);
    }
    r
}

/// `output` with the calls of the FFI objects imported by `file` renamed
/// from snake case to camel case; an error when the pattern for an object
/// cannot be built.
pub fn convert_ffi_function_names(output: String, file: &WhitehallFile) -> (r: Result<String, String>)
    ensures
        r matches Ok(x) ==> x@ == ffi_converted(output@, ffi_objects(file.imports@)),
        r is Ok <==> ffi_builds_all(ffi_objects(file.imports@)),
        ffi_objects(file.imports@).len() == 0 ==> (r matches Ok(x) && x@ == output@),
{
    let objs = ffi_objects_of(&file.imports);
    let mut out = output;
    let ghost o0 = out@;
    let mut i: usize = 0;
    proof {
        assert(strs(objs@).take(0) =~= Seq::<Seq<char>>::empty());
    }
    while i < objs.len()
        invariant
            i <= objs@.len(),
            out@ == ffi_converted(o0, strs(objs@).take(i as int)),
            strs(objs@) == ffi_objects(file.imports@),
            forall|j: int| 0 <= j < i ==> ffi_pattern_builds(#[trigger] strs(objs@)[j]),
        decreases objs.len() - i,
    {
        proof {
            assert(strs(objs@).take(i + 1).drop_last() =~= strs(objs@).take(i as int));
        }
        out = match convert_calls_of(out.as_str(), objs[i].as_str()) {
            Ok(x) => x,
            Err(e) => {
                proof {
                    assert(strs(objs@)[i as int] == objs@[i as int]@);
                    assert(!ffi_pattern_builds(strs(objs@)[i as int]));
                }
                return Err(e);
            },
        };
        proof {
            assert(strs(objs@)[i as int] == objs@[i as int]@);
        }
        i = i + 1;
    }
    proof {
        assert(strs(objs@).take(objs@.len() as int) =~= strs(objs@));
    }
    Ok(out)
}

// ===================== A component with its ViewModel =====================

/// The files of a component whose state lives in a ViewModel: the wrapper
/// (primary) and the ViewModel class (suffix `ViewModel`).
pub fn generate_component_viewmodel(
    package: &str,
    component_name: &str,
    route_params: &Vec<String>,
    uses_routes: bool,
    base: &MarkupGen,
    w: &MarkupGen,
    st: &mut MarkupState,
    file: &WhitehallFile,
) -> (r: Result<TranspileResult, String>)
    requires
        component_state_ok(file.state@),
        base.ctx.names_ok(),
        w.ctx.names_ok(),
        markup_safe(file.markup),
        markup_fine(*w, file.markup, 1),
        helpers_fine(*base, file.functions@),
        plain_vals_fine(*w, file.state@),
    ensures
        match (r, wrapper_code(package@, component_name@, uses_routes, *base, *w, *old(st), *file).0) {
            (Ok(TranspileResult::Multiple(v)), Ok(code)) => v@.len() == 2 && v@[0].0@.len() == 0
                && v@[0].1@ == code && v@[1].0@ == "ViewModel"@ && v@[1].1@ == component_viewmodel(
                package@,
                component_name@,
                strs(route_params@),
                *file,
            ),
            (Err(a), Err(b)) => a@ == b,
            _ => false,
        },
        *final(st) == wrapper_code(package@, component_name@, uses_routes, *base, *w, *old(st), *file).1,
{
    let vm = match crate::stores::generate_component_viewmodel_class(
        package,
        component_name,
        route_params,
        file,
    ) {
        Ok(x) => x,
        Err(e) => {
            return Err(e);
        },
    };
    match crate::compose_wrapper::generate_component_wrapper(
        package,
        component_name,
        uses_routes,
        base,
        w,
        st,
        file,
    ) {
        Err(e) => Err(e),
        Ok(wc) => {
            let mut v: Vec<(String, String)> = Vec::new();
            v.push((String::new(), wc));
            v.push((lit("ViewModel"), vm));
            Ok(TranspileResult::Multiple(v))
        },
    }
}

} // verus!
