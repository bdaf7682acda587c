//! Text transformations used when generating Jetpack Compose code: colors,
//! names, expressions and literals.

use vstd::prelude::*;

use crate::text::{
    decimal, is_ascii_hexdigit, lit, lit_at, occurs_at, push_char, push_decimal, push_lit,
    push_string, spec_is_ascii_hexdigit, spec_trim, str_eq, str_to_chars, string_from_range,
    trim_str, trimmed_range,
};

verus! {

// ===================== Replacing text =====================

/// `s` from index `i` on, with each occurrence of `pat` (scanning left to
/// right, without overlaps) replaced by `rep`.
pub open spec fn replace_from(s: Seq<char>, i: int, pat: Seq<char>, rep: Seq<char>) -> Seq<char>
    decreases s.len() - i,
{
    if i < 0 || i >= s.len() || pat.len() == 0 {
        if 0 <= i < s.len() {
            s.subrange(i, s.len() as int)
        } else {
            Seq::empty()
        }
    } else if occurs_at(s, i, pat) {
        rep + replace_from(s, i + pat.len(), pat, rep)
    } else {
        seq![s[i]] + replace_from(s, i + 1, pat, rep)
    }
}

/// `s` with each occurrence of `pat` replaced by `rep` (as `str::replace`).
pub open spec fn replaced(s: Seq<char>, pat: Seq<char>, rep: Seq<char>) -> Seq<char> {
    replace_from(s, 0, pat, rep)
}

/// `s` with each occurrence of the non-empty `pat` replaced by `rep`.
pub fn replace_all(s: &str, pat: &str, rep: &str) -> (r: String)
    requires
        pat@.len() > 0,
    ensures
        r@ == replaced(s@, pat@, rep@),
{
    let v = str_to_chars(s);
    let pv = str_to_chars(pat);
    let mut out = String::new();
    let mut i: usize = 0;
    while i < v.len()
        invariant
            i <= v@.len(),
            v@ == s@,
            pv@ == pat@,
            pat@.len() > 0,
            out@ + replace_from(s@, i as int, pat@, rep@) == replaced(s@, pat@, rep@),
        decreases v.len() - i,
    {
        let ghost before = out@;
        if crate::text::chars_occur_at(v.as_slice(), i, pv.as_slice()) {
            push_lit(&mut out, rep);
            proof {
                assert(before + (rep@ + replace_from(s@, i + pat@.len(), pat@, rep@)) =~= out@
                    + replace_from(s@, i + pat@.len(), pat@, rep@));
            }
            i = i + pv.len();
        } else {
            push_char(&mut out, v[i]);
            proof {
                assert(before + (seq![s@[i as int]] + replace_from(s@, i + 1, pat@, rep@)) =~= out@
                    + replace_from(s@, i + 1, pat@, rep@));
            }
            i = i + 1;
        }
    }
    proof {
        assert(out@ + Seq::<char>::empty() =~= out@);
    }
    out
}

// ===================== Colors =====================

/// `c` in ASCII upper case (other characters unchanged).
pub open spec fn ascii_upper(c: char) -> char {
    if 'a' <= c && c <= 'z' {
        ((c as u32) - 32) as char
    } else {
        c
    }
}

/// `c` in ASCII lower case (other characters unchanged).
pub open spec fn ascii_lower(c: char) -> char {
    if 'A' <= c && c <= 'Z' {
        ((c as u32) + 32) as char
    } else {
        c
    }
}

/// `s` in ASCII upper case.
pub open spec fn upper(s: Seq<char>) -> Seq<char> {
    s.map_values(|c: char| ascii_upper(c))
}

/// `c` in ASCII upper case.
pub fn to_ascii_upper(c: char) -> (r: char)
    ensures
        r == ascii_upper(c),
{
    if 'a' <= c && c <= 'z' {
        let b = c as u8;
        assert(b as u32 == c as u32);
        (b - 32) as char
    } else {
        c
    }
}

/// `c` in ASCII lower case.
pub fn to_ascii_lower(c: char) -> (r: char)
    ensures
        r == ascii_lower(c),
{
    if 'A' <= c && c <= 'Z' {
        let b = c as u8;
        assert(b as u32 == c as u32);
        (b + 32) as char
    } else {
        c
    }
}

/// `v[a..b]` in ASCII upper case, appended to `out`.
fn push_upper(out: &mut String, v: &Vec<char>, a: usize, b: usize)
    requires
        a <= b <= v@.len(),
    ensures
        final(out)@ == old(out)@ + upper(v@.subrange(a as int, b as int)),
{
    let mut i = a;
    while i < b
        invariant
            a <= i <= b <= v@.len(),
            out@ == old(out)@ + upper(v@.subrange(a as int, i as int)),
        decreases b - i,
    {
        push_char(out, to_ascii_upper(v[i]));
        i = i + 1;
        proof {
            assert(upper(v@.subrange(a as int, i as int)) =~= upper(
                v@.subrange(a as int, i - 1),
            ).push(ascii_upper(v@[i - 1])));
        }
    }
}

/// Whether every character of `s` is an ASCII hexadecimal digit.
pub open spec fn all_hex(s: Seq<char>) -> bool {
    forall|i: int| 0 <= i < s.len() ==> spec_is_ascii_hexdigit(#[trigger] s[i])
}

/// The Compose color for the hex color `hex` (without `#`, white space
/// around it ignored): `RGB` and `RRGGBB` get full alpha, `RRGGBBAA` (web
/// order) becomes `AARRGGBB`; or the error.
pub open spec fn hex_color(hex: Seq<char>) -> Result<Seq<char>, Seq<char>> {
    let h = spec_trim(hex);
    if !all_hex(h) {
        Err("Invalid hex color '"@ + hex + "': contains non-hexadecimal characters"@)
    } else if h.len() == 3 {
        Ok("Color(0xFF"@ + seq![h[0], h[0], h[1], h[1], h[2], h[2]] + ")"@)
    } else if h.len() == 6 {
        Ok("Color(0xFF"@ + upper(h) + ")"@)
    } else if h.len() == 8 {
        Ok(
            "Color(0x"@ + upper(h.subrange(6, 8)) + upper(h.subrange(0, 2)) + upper(
                h.subrange(2, 4),
            ) + upper(h.subrange(4, 6)) + ")"@,
        )
    } else {
        Err(
            "Invalid hex color '"@ + hex
                + "': expected 3, 6, or 8 characters (e.g., #RGB, #RRGGBB, #RRGGBBAA), got "@
                + decimal(h.len()),
        )
    }
}

/// Converts a hex color (`RGB`, `RRGGBB` or `RRGGBBAA`) to `Color(0xAARRGGBB)`.
pub fn convert_hex_to_color(hex: &str) -> (r: Result<String, String>)
    ensures
        match hex_color(hex@) {
            Ok(c) => r matches Ok(x) && x@ == c,
            Err(m) => r matches Err(x) && x@ == m,
        },
{
    let t = trim_str(hex);
    let h = str_to_chars(t.as_str());
    let mut k: usize = 0;
    while k < h.len()
        invariant
            k <= h@.len(),
            h@ == spec_trim(hex@),
            forall|j: int| 0 <= j < k ==> spec_is_ascii_hexdigit(#[trigger] h@[j]),
        decreases h.len() - k,
    {
        if !is_ascii_hexdigit(h[k]) {
            proof {
                assert(!spec_is_ascii_hexdigit(h@[k as int]));
                assert(!all_hex(h@));
            }
            let mut m = lit("Invalid hex color '");
            push_lit(&mut m, hex);
            push_lit(&mut m, "': contains non-hexadecimal characters");
            return Err(m);
        }
        k = k + 1;
    }
    let n = h.len();
    if n == 3 {
        let mut out = lit("Color(0xFF");
        push_char(&mut out, h[0]);
        push_char(&mut out, h[0]);
        push_char(&mut out, h[1]);
        push_char(&mut out, h[1]);
        push_char(&mut out, h[2]);
        push_char(&mut out, h[2]);
        push_lit(&mut out, ")");
        Ok(out)
    } else if n == 6 {
        let mut out = lit("Color(0xFF");
        push_upper(&mut out, &h, 0, 6);
        assert(h@.subrange(0, 6) =~= h@);
        push_lit(&mut out, ")");
        Ok(out)
    } else if n == 8 {
        let mut out = lit("Color(0x");
        push_upper(&mut out, &h, 6, 8);
        push_upper(&mut out, &h, 0, 2);
        push_upper(&mut out, &h, 2, 4);
        push_upper(&mut out, &h, 4, 6);
        push_lit(&mut out, ")");
        Ok(out)
    } else {
        let mut m = lit("Invalid hex color '");
        push_lit(&mut m, hex);
        push_lit(&mut m, "': expected 3, 6, or 8 characters (e.g., #RGB, #RRGGBB, #RRGGBBAA), got ");
        push_decimal(&mut m, n);
        Err(m)
    }
}

// ===================== Names =====================

/// `s` from index `i` on in camel case, where `cap` says whether the next
/// letter follows a `_`.
pub open spec fn camel_from(s: Seq<char>, i: int, cap: bool) -> Seq<char>
    decreases s.len() - i,
{
    if i < 0 || i >= s.len() {
        Seq::empty()
    } else if s[i] == '_' {
        camel_from(s, i + 1, true)
    } else if cap {
        seq![ascii_upper(s[i])] + camel_from(s, i + 1, false)
    } else if i == 0 {
        seq![ascii_lower(s[i])] + camel_from(s, i + 1, false)
    } else {
        seq![s[i]] + camel_from(s, i + 1, false)
    }
}

/// `name` from snake case to camel case: `_` is dropped and the letter after
/// it is capitalized; the first letter is made lower case.
pub fn snake_to_camel(name: &str) -> (r: String)
    ensures
        r@ == camel_from(name@, 0, false),
{
    let v = str_to_chars(name);
    let mut out = String::new();
    let mut cap = false;
    let mut i: usize = 0;
    while i < v.len()
        invariant
            i <= v@.len(),
            v@ == name@,
            out@ + camel_from(name@, i as int, cap) == camel_from(name@, 0, false),
        decreases v.len() - i,
    {
        let ch = v[i];
        let ghost before = out@;
        let ghost cap0 = cap;
        if ch == '_' {
            cap = true;
        } else if cap {
            push_char(&mut out, to_ascii_upper(ch));
            cap = false;
        } else if i == 0 {
            push_char(&mut out, to_ascii_lower(ch));
        } else {
            push_char(&mut out, ch);
        }
        proof {
            if ch != '_' {
                assert(before + (seq![out@.last()] + camel_from(name@, i + 1, false)) =~= out@
                    + camel_from(name@, i + 1, false));
            }
        }
        i = i + 1;
    }
    proof {
        assert(out@ + Seq::<char>::empty() =~= out@);
    }
    out
}

// ===================== Types =====================

/// Whether `t` is a numeric Kotlin type.
pub open spec fn spec_is_numeric_type(t: Seq<char>) -> bool {
    t == "Int"@ || t == "Double"@ || t == "Float"@ || t == "Long"@ || t == "Short"@ || t
        == "Byte"@
}

/// Whether `type_str` is `Int`, `Double`, `Float`, `Long`, `Short` or `Byte`.
pub fn is_numeric_type(type_str: &str) -> (r: bool)
    ensures
        r == spec_is_numeric_type(type_str@),
{
    str_eq(type_str, "Int") || str_eq(type_str, "Double") || str_eq(type_str, "Float") || str_eq(
        type_str,
        "Long",
    ) || str_eq(type_str, "Short") || str_eq(type_str, "Byte")
}

/// The Kotlin conversion from text to the numeric type `t` (to `Int` for
/// any other type).
pub open spec fn numeric_conversion(t: Seq<char>) -> Seq<char> {
    if t == "Int"@ {
        "toIntOrNull()"@
    } else if t == "Double"@ {
        "toDoubleOrNull()"@
    } else if t == "Float"@ {
        "toFloatOrNull()"@
    } else if t == "Long"@ {
        "toLongOrNull()"@
    } else {
        "toIntOrNull()"@
    }
}

/// The conversion for `type_str` and the default value.
pub fn get_numeric_conversion(type_str: &str, default_value: &str) -> (r: (String, String))
    ensures
        r.0@ == numeric_conversion(type_str@),
        r.1@ == default_value@,
{
    let to_method = if str_eq(type_str, "Int") {
        "toIntOrNull()"
    } else if str_eq(type_str, "Double") {
        "toDoubleOrNull()"
    } else if str_eq(type_str, "Float") {
        "toFloatOrNull()"
    } else if str_eq(type_str, "Long") {
        "toLongOrNull()"
    } else {
        "toIntOrNull()"
    };
    (lit(to_method), lit(default_value))
}

// ===================== Text =====================

/// `text` with each `$` written `\$` (literal in a Kotlin string template).
pub fn escape_dollar_signs(text: &str) -> (r: String)
    ensures
        r@ == replaced(text@, "$"@, "\\$"@),
{
    proof {
        reveal_strlit("$");
    }
    replace_all(text, "$", "\\$")
}

/// `value` with `io {`, `cpu {` and `main {` blocks launched on the
/// dispatcher scope (IO, Default and Main).
pub fn transform_dispatchers(value: &str) -> (r: String)
    ensures
        r@ == replaced(
            replaced(
                replaced(value@, "io {"@, "dispatcherScope.launch(Dispatchers.IO) {"@),
                "cpu {"@,
                "dispatcherScope.launch(Dispatchers.Default) {"@,
            ),
            "main {"@,
            "dispatcherScope.launch(Dispatchers.Main) {"@,
        ),
{
    proof {
        reveal_strlit("io {");
        reveal_strlit("cpu {");
        reveal_strlit("main {");
    }
    let a = replace_all(value, "io {", "dispatcherScope.launch(Dispatchers.IO) {");
    let b = replace_all(a.as_str(), "cpu {", "dispatcherScope.launch(Dispatchers.Default) {");
    replace_all(b.as_str(), "main {", "dispatcherScope.launch(Dispatchers.Main) {")
}

/// `body` with `$screen.params.p` replaced, for each route parameter `p` in
/// turn, by reading `p` from the saved state.
pub open spec fn hook_body_with_params(body: Seq<char>, params: Seq<Seq<char>>) -> Seq<char>
    decreases params.len(),
{
    if params.len() == 0 {
        body
    } else {
        let p = params.last();
        replaced(
            hook_body_with_params(body, params.drop_last()),
            "$screen.params."@ + p,
            "savedStateHandle.get<String?>(\""@ + p + "\") ?: \"\""@,
        )
    }
}

/// A lifecycle hook body with its route parameters read from the saved state.
pub fn transform_lifecycle_hook_body(body: &str, route_params: &Vec<String>) -> (r: String)
    ensures
        r@ == hook_body_with_params(body@, route_params@.map_values(|p: String| p@)),
{
    let ghost ps = route_params@.map_values(|p: String| p@);
    let mut transformed = lit(body);
    let mut i: usize = 0;
    proof {
        reveal_strlit("$screen.params.");
    }
    while i < route_params.len()
        invariant
            i <= route_params@.len(),
            ps == route_params@.map_values(|p: String| p@),
            transformed@ == hook_body_with_params(body@, ps.subrange(0, i as int)),
            "$screen.params."@.len() > 0,
        decreases route_params.len() - i,
    {
        let mut old_pattern = lit("$screen.params.");
        push_string(&mut old_pattern, &route_params[i]);
        let mut new_pattern = lit("savedStateHandle.get<String?>(\"");
        push_string(&mut new_pattern, &route_params[i]);
        push_lit(&mut new_pattern, "\") ?: \"\"");
        transformed = replace_all(transformed.as_str(), old_pattern.as_str(), new_pattern.as_str());
        proof {
            let s1 = ps.subrange(0, i + 1);
            assert(s1.drop_last() =~= ps.subrange(0, i as int));
            assert(s1.last() == route_params@[i as int]@);
        }
        i = i + 1;
    }
    proof {
        assert(ps.subrange(0, ps.len() as int) =~= ps);
    }
    transformed
}

/// Whether `s` is quoted: it starts and ends with `"` (or with `'`).
pub open spec fn is_quoted(s: Seq<char>) -> bool {
    s.len() > 0 && ((s[0] == '"' && s.last() == '"') || (s[0] == '\'' && s.last() == '\''))
}

/// `s` with each `{` written `${`.
pub open spec fn template_braces(s: Seq<char>) -> Seq<char>
    decreases s.len(),
{
    if s.len() == 0 {
        Seq::empty()
    } else {
        template_braces(s.drop_last()) + if s.last() == '{' {
            seq!['$', '{']
        } else {
            seq![s.last()]
        }
    }
}

/// A quoted string with `{expr}` turned into Kotlin's `${expr}`; other values
/// unchanged.
pub fn transform_string_interpolation(value: &str) -> (r: String)
    ensures
        r@ == if is_quoted(value@) {
            template_braces(value@)
        } else {
            value@
        },
{
    let v = str_to_chars(value);
    let n = v.len();
    if !(n > 0 && ((v[0] == '"' && v[n - 1] == '"') || (v[0] == '\'' && v[n - 1] == '\''))) {
        return lit(value);
    }
    let mut out = String::new();
    let mut i: usize = 0;
    while i < n
        invariant
            i <= n == v@.len(),
            v@ == value@,
            out@ == template_braces(v@.subrange(0, i as int)),
        decreases n - i,
    {
        if v[i] == '{' {
            push_char(&mut out, '$');
            push_char(&mut out, '{');
        } else {
            push_char(&mut out, v[i]);
        }
        proof {
            let s1 = v@.subrange(0, i + 1);
            assert(s1.drop_last() =~= v@.subrange(0, i as int));
        }
        i = i + 1;
    }
    proof {
        assert(v@.subrange(0, n as int) =~= v@);
    }
    out
}

// ===================== Imports =====================

/// `imports` with `import` added at the end unless it is there.
pub fn add_import_if_missing(imports: &mut Vec<String>, import: &str)
    ensures
        final(imports)@.map_values(|s: String| s@) == if old(imports)@.map_values(
            |s: String| s@,
        ).contains(import@) {
            old(imports)@.map_values(|s: String| s@)
        } else {
            old(imports)@.map_values(|s: String| s@).push(import@)
        },
{
    let ghost v = imports@.map_values(|s: String| s@);
    let mut i: usize = 0;
    while i < imports.len()
        invariant
            i <= imports@.len(),
            v == imports@.map_values(|s: String| s@),
            forall|j: int| 0 <= j < i ==> imports@[j]@ != import@,
        decreases imports.len() - i,
    {
        if str_eq(imports[i].as_str(), import) {
            proof {
                assert(v[i as int] == import@);
            }
            return;
        }
        i = i + 1;
    }
    proof {
        assert(!v.contains(import@)) by {
            if v.contains(import@) {
                let k = choose|k: int| 0 <= k < v.len() && v[k] == import@;
                assert(imports@[k]@ == import@);
            }
        }
    }
    imports.push(lit(import));
    proof {
        assert(imports@.map_values(|s: String| s@) =~= v.push(import@));
    }
}

/// The package suffixes that name a kind of file.
pub open spec fn package_suffixes() -> Seq<Seq<char>> {
    seq![".components"@, ".screens"@, ".routes"@, ".lib"@, ".models"@, ".utils"@]
}

/// Whether `s` ends with `t`.
pub open spec fn ends_with(s: Seq<char>, t: Seq<char>) -> bool {
    t.len() <= s.len() && s.subrange(s.len() - t.len(), s.len() as int) == t
}

/// The root of `package`: without the first of the known suffixes that it
/// ends with.
pub open spec fn root_package_from(package: Seq<char>, k: int) -> Seq<char>
    decreases package_suffixes().len() - k,
{
    if k < 0 || k >= package_suffixes().len() {
        package
    } else if ends_with(package, package_suffixes()[k]) {
        package.subrange(0, package.len() - package_suffixes()[k].len())
    } else {
        root_package_from(package, k + 1)
    }
}

/// An import path with its `$` alias resolved against the root of `package`.
pub open spec fn resolved_import(package: Seq<char>, path: Seq<char>) -> Seq<char> {
    if path.len() > 0 && path[0] == '$' {
        let rest = path.subrange(1, path.len() as int);
        let root = root_package_from(package, 0);
        if rest.len() > 0 && rest[0] == '.' {
            root + rest
        } else {
            root + "."@ + rest
        }
    } else {
        path
    }
}

/// Whether `s` ends with `t`.
fn chars_end_with(s: &Vec<char>, t: &str) -> (r: bool)
    ensures
        r == ends_with(s@, t@),
{
    let tv = str_to_chars(t);
    if tv.len() > s.len() {
        return false;
    }
    let r = crate::text::chars_occur_at(s.as_slice(), s.len() - tv.len(), tv.as_slice());
    r
}

/// The known package suffix number `k`.
fn package_suffix(k: usize) -> (r: &'static str)
    requires
        k < 6,
    ensures
        r@ == package_suffixes()[k as int],
{
    if k == 0 {
        ".components"
    } else if k == 1 {
        ".screens"
    } else if k == 2 {
        ".routes"
    } else if k == 3 {
        ".lib"
    } else if k == 4 {
        ".models"
    } else {
        ".utils"
    }
}

/// `path` with a `$` alias (`$models.User`) resolved against the root of
/// `package` (the package without `.components`, `.screens`, `.routes`,
/// `.lib`, `.models` or `.utils`).
pub fn resolve_import(package: &str, path: &str) -> (r: String)
    ensures
        r@ == resolved_import(package@, path@),
{
    let pv = str_to_chars(path);
    if !(pv.len() > 0 && pv[0] == '$') {
        return lit(path);
    }
    let pk = str_to_chars(package);
    let mut root_end = pk.len();
    let mut k: usize = 0;
    while k < 6
        invariant_except_break
            k <= 6,
            pk@ == package@,
            root_end == pk@.len(),
            root_package_from(package@, k as int) == root_package_from(package@, 0),
        ensures
            root_end <= pk@.len(),
            pk@.subrange(0, root_end as int) == root_package_from(package@, 0),
        decreases 6 - k,
    {
        let suffix = package_suffix(k);
        if chars_end_with(&pk, suffix) {
            root_end = pk.len() - suffix.unicode_len();
            break;
        }
        k = k + 1;
    }
    let mut out = string_from_range(pk.as_slice(), 0, root_end);
    if pv.len() > 1 && pv[1] == '.' {
        let rest = string_from_range(pv.as_slice(), 1, pv.len());
        push_string(&mut out, &rest);
    } else {
        push_lit(&mut out, ".");
        let rest = string_from_range(pv.as_slice(), 1, pv.len());
        push_string(&mut out, &rest);
    }
    out
}


// ===================== Ternaries =====================

/// Where the scan for a ternary `cond ? a : b` finds its `?` and `:` at
/// nesting depth 0, from index `i` with depth `d`; `kotlin_ops` skips `?.` and
/// `?:`.
pub open spec fn ternary_scan(
    s: Seq<char>,
    i: int,
    d: int,
    q: Option<int>,
    c: Option<int>,
    kotlin_ops: bool,
) -> (Option<int>, Option<int>)
    decreases s.len() - i,
{
    if i < 0 || i >= s.len() {
        (q, c)
    } else {
        let ch = s[i];
        if ch == '(' || ch == '{' || ch == '[' {
            ternary_scan(s, i + 1, d + 1, q, c, kotlin_ops)
        } else if ch == ')' || ch == '}' || ch == ']' {
            ternary_scan(s, i + 1, d - 1, q, c, kotlin_ops)
        } else if ch == '?' && d == 0 && q is None {
            if kotlin_ops && (char_at(s, i + 1) == Some('.') || char_at(s, i + 1) == Some(':')) {
                ternary_scan(s, i + 1, d, q, c, kotlin_ops)
            } else {
                ternary_scan(s, i + 1, d, Some(i), c, kotlin_ops)
            }
        } else if ch == ':' && d == 0 && q is Some && c is None {
            if kotlin_ops && i > 0 && s[i - 1] == '?' {
                ternary_scan(s, i + 1, d, q, c, kotlin_ops)
            } else {
                ternary_scan(s, i + 1, d, q, Some(i), kotlin_ops)
            }
        } else {
            ternary_scan(s, i + 1, d, q, c, kotlin_ops)
        }
    }
}

/// The character at `i`, if any.
pub open spec fn char_at(s: Seq<char>, i: int) -> Option<char> {
    if 0 <= i < s.len() {
        Some(s[i])
    } else {
        None
    }
}

/// The positions of `?` and `:` of a ternary in `s`.
pub open spec fn ternary_parts(s: Seq<char>, kotlin_ops: bool) -> (Option<int>, Option<int>) {
    ternary_scan(s, 0, 0, None, None, kotlin_ops)
}

/// Finds the `?` and `:` of a ternary at depth 0.
fn find_ternary(v: &Vec<char>, kotlin_ops: bool) -> (r: (Option<usize>, Option<usize>))
    ensures
        (match r.0 {
            Some(x) => Some(x as int),
            None => None,
        }) == ternary_parts(v@, kotlin_ops).0,
        (match r.1 {
            Some(x) => Some(x as int),
            None => None,
        }) == ternary_parts(v@, kotlin_ops).1,
        r.0 matches Some(q) ==> q < v@.len(),
        r.1 matches Some(c) ==> c < v@.len() && (r.0 matches Some(q) && q < c),
{
    let mut opens: usize = 0;
    let mut closes: usize = 0;
    let mut q: Option<usize> = None;
    let mut c: Option<usize> = None;
    let mut i: usize = 0;
    let ghost s = v@;
    while i < v.len()
        invariant
            s == v@,
            i <= s.len(),
            opens <= i,
            closes <= i,
            q matches Some(x) ==> x < i,
            c matches Some(y) ==> y < i && (q matches Some(x) && x < y),
            ternary_scan(
                s,
                i as int,
                opens - closes,
                match q {
                    Some(x) => Some(x as int),
                    None => None,
                },
                match c {
                    Some(y) => Some(y as int),
                    None => None,
                },
                kotlin_ops,
            ) == ternary_parts(s, kotlin_ops),
        decreases v.len() - i,
    {
        let ch = v[i];
        if ch == '(' || ch == '{' || ch == '[' {
            opens = opens + 1;
        } else if ch == ')' || ch == '}' || ch == ']' {
            closes = closes + 1;
        } else if ch == '?' && opens == closes && q.is_none() {
            let next = if i + 1 < v.len() {
                Some(v[i + 1])
            } else {
                None
            };
            if !(kotlin_ops && (next == Some('.') || next == Some(':'))) {
                q = Some(i);
            }
        } else if ch == ':' && opens == closes && q.is_some() && c.is_none() {
            if !(kotlin_ops && i > 0 && v[i - 1] == '?') {
                c = Some(i);
            }
        }
        i = i + 1;
    }
    (q, c)
}

/// `cond ? a : b` as `if (cond) a else b` (Kotlin's `?.` and `?:` are not
/// taken for it); other expressions unchanged.
pub open spec fn ternary_if_else(s: Seq<char>) -> Seq<char> {
    match ternary_parts(s, true) {
        (Some(q), Some(c)) => "if ("@ + spec_trim(s.subrange(0, q)) + ") "@ + spec_trim(
            s.subrange(q + 1, c),
        ) + " else "@ + spec_trim(s.subrange(c + 1, s.len() as int)),
        _ => s,
    }
}

/// Turns a ternary into an `if` / `else` expression.
pub fn transform_ternary_to_if_else(expr: &str) -> (r: String)
    ensures
        r@ == ternary_if_else(expr@),
{
    let v = str_to_chars(expr);
    match find_ternary(&v, true) {
        (Some(q), Some(c)) => {
            let mut out = lit("if (");
            let cond = trimmed_range(v.as_slice(), 0, q);
            push_string(&mut out, &cond);
            push_lit(&mut out, ") ");
            let then_value = trimmed_range(v.as_slice(), q + 1, c);
            push_string(&mut out, &then_value);
            push_lit(&mut out, " else ");
            let else_value = trimmed_range(v.as_slice(), c + 1, v.len());
            push_string(&mut out, &else_value);
            out
        },
        _ => lit(expr),
    }
}

/// A branch of a modifier ternary chained on `it`: `Modifier.x` becomes
/// `it.x` (and, for the else branch, `Modifier` becomes `it`).
pub open spec fn modifier_branch(v: Seq<char>, is_else: bool) -> Seq<char> {
    if occurs_at(v, 0, "Modifier."@) {
        replaced(v, "Modifier."@, "it."@)
    } else if is_else && v == "Modifier"@ {
        "it"@
    } else {
        v
    }
}

/// `cond ? a : b` as `.let { if (cond) a else b }`, with `Modifier.` in the
/// branches chained on `it`; other expressions unchanged.
pub open spec fn ternary_let(s: Seq<char>) -> Seq<char> {
    match ternary_parts(s, false) {
        (Some(q), Some(c)) => ".let { if ("@ + spec_trim(s.subrange(0, q)) + ") "@
            + modifier_branch(spec_trim(s.subrange(q + 1, c)), false) + " else "@
            + modifier_branch(spec_trim(s.subrange(c + 1, s.len() as int)), true) + " }"@,
        _ => s,
    }
}

/// One branch of a modifier ternary.
fn modifier_branch_of(v: String, is_else: bool) -> (r: String)
    ensures
        r@ == modifier_branch(v@, is_else),
{
    proof {
        reveal_strlit("Modifier.");
    }
    if crate::text::str_starts_with(v.as_str(), "Modifier.") {
        replace_all(v.as_str(), "Modifier.", "it.")
    } else if is_else && str_eq(v.as_str(), "Modifier") {
        lit("it")
    } else {
        v
    }
}

/// Turns a modifier ternary into `.let { if (cond) a else b }`.
pub fn transform_ternary(expr: &str) -> (r: String)
    ensures
        r@ == ternary_let(expr@),
{
    let v = str_to_chars(expr);
    match find_ternary(&v, false) {
        (Some(q), Some(c)) => {
            let mut out = lit(".let { if (");
            let cond = trimmed_range(v.as_slice(), 0, q);
            push_string(&mut out, &cond);
            push_lit(&mut out, ") ");
            let then_value = modifier_branch_of(trimmed_range(v.as_slice(), q + 1, c), false);
            push_string(&mut out, &then_value);
            push_lit(&mut out, " else ");
            let else_value = modifier_branch_of(trimmed_range(v.as_slice(), c + 1, v.len()), true);
            push_string(&mut out, &else_value);
            push_lit(&mut out, " }");
            out
        },
        _ => lit(expr),
    }
}


// ===================== Expressions =====================

/// The first index at or after `i` where `pat` occurs in `s`.
pub open spec fn find_from(s: Seq<char>, i: int, pat: Seq<char>) -> Option<int>
    decreases s.len() - i,
{
    if i < 0 || i >= s.len() {
        None
    } else if occurs_at(s, i, pat) {
        Some(i)
    } else {
        find_from(s, i + 1, pat)
    }
}

pub proof fn lemma_find_from(s: Seq<char>, i: int, pat: Seq<char>)
    requires
        0 <= i,
    ensures
        find_from(s, i, pat) matches Some(k) ==> i <= k < s.len() && occurs_at(s, k, pat),
        find_from(s, i, pat) is None ==> forall|k: int| i <= k < s.len() ==> !occurs_at(s, k, pat),
    decreases s.len() - i,
{
    if i < s.len() && !occurs_at(s, i, pat) {
        lemma_find_from(s, i + 1, pat);
    }
}

/// The first index where `pat` occurs in `v`.
pub(crate) fn find_chars(v: &Vec<char>, pat: &str) -> (r: Option<usize>)
    ensures
        match r {
            Some(k) => find_from(v@, 0, pat@) == Some(k as int) && k < v@.len(),
            None => find_from(v@, 0, pat@) is None,
        },
{
    let mut i: usize = 0;
    while i < v.len()
        invariant
            i <= v@.len(),
            find_from(v@, i as int, pat@) == find_from(v@, 0, pat@),
        decreases v.len() - i,
    {
        if lit_at(v.as_slice(), i, pat) {
            return Some(i);
        }
        i = i + 1;
    }
    None
}

/// The first index where `pat` occurs in `v` at or after `i`, within `v[..end]`
/// (a search in the slice `v[i..end]`, reported as an index of `v`).
fn find_in_range(v: &Vec<char>, from: usize, end: usize, pat: &str) -> (r: Option<usize>)
    requires
        from <= end <= v@.len(),
    ensures
        match r {
            Some(k) => find_from(v@.subrange(from as int, end as int), 0, pat@) == Some(
                k - from,
            ) && from <= k < end,
            None => find_from(v@.subrange(from as int, end as int), 0, pat@) is None,
        },
{
    let ghost w = v@.subrange(from as int, end as int);
    let mut i = from;
    while i < end
        invariant
            from <= i <= end <= v@.len(),
            w == v@.subrange(from as int, end as int),
            find_from(w, i - from, pat@) == find_from(w, 0, pat@),
        decreases end - i,
    {
        let here = pat.unicode_len() <= end - i && lit_at(v.as_slice(), i, pat);
        proof {
            if i + pat@.len() <= end {
                assert(w.subrange(i - from, i - from + pat@.len()) =~= v@.subrange(
                    i as int,
                    i + pat@.len(),
                ));
            }
        }
        if here {
            return Some(i);
        }
        i = i + 1;
    }
    None
}

/// `expr` with `!!` after a nullable variable: `v.x` becomes `v!!.x`, and a
/// bare `v` becomes `v!!`.
pub open spec fn null_asserted(e: Seq<char>, nullable: Seq<Seq<char>>) -> Seq<char> {
    let d = find_from(e, 0, "."@);
    if d is Some && nullable.contains(e.subrange(0, d->0)) {
        e.subrange(0, d->0) + "!!"@ + e.subrange(d->0, e.len() as int)
    } else if nullable.contains(spec_trim(e)) {
        spec_trim(e) + "!!"@
    } else {
        e
    }
}

/// Whether `x` is one of `names`.
pub(crate) fn contains_name(names: &Vec<String>, x: &String) -> (r: bool)
    ensures
        r == names@.map_values(|s: String| s@).contains(x@),
{
    let ghost v = names@.map_values(|s: String| s@);
    let mut i: usize = 0;
    while i < names.len()
        invariant
            i <= names@.len(),
            v == names@.map_values(|s: String| s@),
            forall|j: int| 0 <= j < i ==> names@[j]@ != x@,
        decreases names.len() - i,
    {
        if str_eq(names[i].as_str(), x.as_str()) {
            assert(v[i as int] == x@);
            return true;
        }
        i = i + 1;
    }
    proof {
        if v.contains(x@) {
            let k = choose|k: int| 0 <= k < v.len() && v[k] == x@;
            assert(names@[k]@ == x@);
        }
    }
    false
}

/// Adds `!!` where `expr` dereferences one of the nullable variables.
pub fn add_null_assertions(expr: &str, nullable_vars: &Vec<String>) -> (r: String)
    ensures
        r@ == null_asserted(expr@, nullable_vars@.map_values(|s: String| s@)),
{
    let v = str_to_chars(expr);
    if let Some(d) = find_chars(&v, ".") {
        let var_name = string_from_range(v.as_slice(), 0, d);
        if contains_name(nullable_vars, &var_name) {
            let mut out = lit(var_name.as_str());
            push_lit(&mut out, "!!");
            let rest = string_from_range(v.as_slice(), d, v.len());
            push_string(&mut out, &rest);
            return out;
        }
    }
    let trimmed = trim_str(expr);
    if contains_name(nullable_vars, &trimmed) {
        let mut out = lit(trimmed.as_str());
        push_lit(&mut out, "!!");
        return out;
    }
    lit(expr)
}

/// A string resource reference `R.string.x` as `stringResource(R.string.x)`,
/// and `R.string.x(args)` as `stringResource(R.string.x, args)`; other
/// expressions unchanged.
pub open spec fn string_resource(e: Seq<char>) -> Seq<char> {
    let t = spec_trim(e);
    if !occurs_at(t, 0, "R.string."@) {
        e
    } else {
        match find_from(t, 0, "("@) {
            Some(p) => {
                let with_parens = t.subrange(p, t.len() as int);
                if with_parens.len() > 2 {
                    let args = with_parens.subrange(1, with_parens.len() - 1);
                    if args.len() == 0 {
                        "stringResource("@ + t.subrange(0, p) + ")"@
                    } else {
                        "stringResource("@ + t.subrange(0, p) + ", "@ + args + ")"@
                    }
                } else {
                    "stringResource("@ + t + ")"@
                }
            },
            None => "stringResource("@ + t + ")"@,
        }
    }
}

/// Turns `R.string` references into `stringResource(..)` calls.
pub fn transform_string_resource(expr: &str) -> (r: String)
    ensures
        r@ == string_resource(expr@),
{
    let t = str_to_chars(trim_str(expr).as_str());
    if !lit_at(t.as_slice(), 0, "R.string.") {
        return lit(expr);
    }
    proof {
        reveal_strlit("(");
    }
    match find_chars(&t, "(") {
        Some(p) => {
            let n = t.len() - p;
            if n > 2 {
                let mut out = lit("stringResource(");
                let name = string_from_range(t.as_slice(), 0, p);
                push_string(&mut out, &name);
                proof {
                    let w = t@.subrange(p as int, t@.len() as int);
                    assert(w.subrange(1, w.len() - 1) =~= t@.subrange(p + 1, t@.len() - 1));
                }
                if n - 2 == 0 {
                    push_lit(&mut out, ")");
                } else {
                    push_lit(&mut out, ", ");
                    let args = string_from_range(t.as_slice(), p + 1, t.len() - 1);
                    push_string(&mut out, &args);
                    push_lit(&mut out, ")");
                }
                out
            } else {
                let mut out = lit("stringResource(");
                let all = string_from_chars_vec(&t);
                push_string(&mut out, &all);
                push_lit(&mut out, ")");
                out
            }
        },
        None => {
            let mut out = lit("stringResource(");
            let all = string_from_chars_vec(&t);
            push_string(&mut out, &all);
            push_lit(&mut out, ")");
            out
        },
    }
}

/// A `String` holding `v`.
fn string_from_chars_vec(v: &Vec<char>) -> (r: String)
    ensures
        r@ == v@,
{
    crate::text::string_from_chars(v.as_slice())
}

/// A body `launch { .. }` without the outer `launch` block (its content,
/// trimmed); other bodies unchanged.
pub open spec fn without_outer_launch(body: Seq<char>) -> Seq<char> {
    let t = spec_trim(body);
    if occurs_at(t, 0, "launch {"@) {
        match crate::parser::block_close(t, 8, 1) {
            Some(e) => spec_trim(t.subrange(8, e - 1)),
            None => body,
        }
    } else {
        body
    }
}

/// Removes an outer `launch { .. }` block.
pub fn strip_outer_launch(body: &str) -> (r: String)
    ensures
        r@ == without_outer_launch(body@),
{
    let t = str_to_chars(trim_str(body).as_str());
    proof {
        reveal_strlit("launch {");
    }
    if !lit_at(t.as_slice(), 0, "launch {") {
        return lit(body);
    }
    let ghost s = t@;
    let mut depth: usize = 1;
    let mut i: usize = 8;
    let mut end: Option<usize> = None;
    while i < t.len()
        invariant_except_break
            8 <= i <= s.len(),
            s == t@,
            1 <= depth <= i,
            crate::parser::block_close(s, i as int, depth as int) == crate::parser::block_close(
                s,
                8,
                1,
            ),
            end is None,
        ensures
            match crate::parser::block_close(s, 8, 1) {
                Some(e) => end == Some((e - 1) as usize),
                None => end is None,
            },
        decreases t.len() - i,
    {
        if t[i] == '{' {
            depth = depth + 1;
        } else if t[i] == '}' {
            if depth == 1 {
                end = Some(i);
                break;
            }
            depth = depth - 1;
        }
        i = i + 1;
    }
    match end {
        Some(e) => {
            proof {
                crate::parser::lemma_block_close(s, 8, 1);
            }
            trimmed_range(t.as_slice(), 8, e)
        },
        None => lit(body),
    }
}


// ===================== Literals =====================

/// A range marker `RANGE[a..b]` as `(a..b).toList()`, and `RANGE[a..b:s]` as
/// `(a..b step s).toList()` or, for a negative step, `(a downTo b).toList()`;
/// other values unchanged.
pub open spec fn range_list(v: Seq<char>) -> Seq<char> {
    let t = spec_trim(v);
    if occurs_at(t, 0, "RANGE["@) && t.len() > 6 && t.last() == ']' {
        let content = t.subrange(6, t.len() - 1);
        match find_from(content, 0, ":"@) {
            Some(cp) => {
                let range_part = content.subrange(0, cp);
                let step = content.subrange(cp + 1, content.len() as int);
                match find_from(range_part, 0, ".."@) {
                    Some(dp) => {
                        let a = range_part.subrange(0, dp);
                        let b = range_part.subrange(dp + 2, range_part.len() as int);
                        if step.len() > 0 && step[0] == '-' {
                            "("@ + a + " downTo "@ + b + ").toList()"@
                        } else {
                            "("@ + a + ".."@ + b + " step "@ + step + ").toList()"@
                        }
                    },
                    None => v,
                }
            },
            None => match find_from(content, 0, ".."@) {
                Some(dp) => "("@ + content.subrange(0, dp) + ".."@ + content.subrange(
                    dp + 2,
                    content.len() as int,
                ) + ").toList()"@,
                None => v,
            },
        }
    } else {
        v
    }
}

/// Turns a range marker into a Kotlin list.
pub fn transform_range_literal(value: &str) -> (r: String)
    ensures
        r@ == range_list(value@),
{
    let t = str_to_chars(trim_str(value).as_str());
    let n = t.len();
    if !(lit_at(t.as_slice(), 0, "RANGE[") && n > 6 && t[n - 1] == ']') {
        return lit(value);
    }
    let ghost content = t@.subrange(6, n - 1);
    proof {
        reveal_strlit(":");
        reveal_strlit("..");
    }
    match find_in_range(&t, 6, n - 1, ":") {
        Some(cp) => {
            let ghost range_part = content.subrange(0, cp - 6);
            proof {
                assert(t@.subrange(6, cp as int) =~= range_part);
            }
            match find_in_range(&t, 6, cp, "..") {
                Some(dp) => {
                    proof {
                        lemma_find_from(t@.subrange(6, cp as int), 0, ".."@);
                    }
                    let a = string_from_range(t.as_slice(), 6, dp);
                    let b = string_from_range(t.as_slice(), dp + 2, cp);
                    proof {
                        assert(a@ =~= range_part.subrange(0, dp - 6));
                        assert(b@ =~= range_part.subrange(dp - 6 + 2, range_part.len() as int));
                        assert(t@.subrange(cp + 1, n - 1) =~= content.subrange(
                            cp - 6 + 1,
                            content.len() as int,
                        ));
                    }
                    let mut out = lit("(");
                    push_string(&mut out, &a);
                    if cp + 1 < n - 1 && t[cp + 1] == '-' {
                        push_lit(&mut out, " downTo ");
                        push_string(&mut out, &b);
                    } else {
                        push_lit(&mut out, "..");
                        push_string(&mut out, &b);
                        push_lit(&mut out, " step ");
                        let step = string_from_range(t.as_slice(), cp + 1, n - 1);
                        push_string(&mut out, &step);
                    }
                    push_lit(&mut out, ").toList()");
                    out
                },
                None => lit(value),
            }
        },
        None => match find_in_range(&t, 6, n - 1, "..") {
            Some(dp) => {
                proof {
                    lemma_find_from(t@.subrange(6, n - 1), 0, ".."@);
                }
                let a = string_from_range(t.as_slice(), 6, dp);
                let b = string_from_range(t.as_slice(), dp + 2, n - 1);
                proof {
                    assert(a@ =~= content.subrange(0, dp - 6));
                    assert(b@ =~= content.subrange(dp - 6 + 2, content.len() as int));
                }
                let mut out = lit("(");
                push_string(&mut out, &a);
                push_lit(&mut out, "..");
                push_string(&mut out, &b);
                push_lit(&mut out, ").toList()");
                out
            },
            None => lit(value),
        },
    }
}

/// An array literal `[a, [b, c]]` as `listOf(a, listOf(b, c))` (the outer
/// one `mutableListOf` where `mutable`); other values unchanged.
pub open spec fn array_list(v: Seq<char>, mutable: bool) -> Seq<char>
    decreases v.len(), 0nat, 0int,
{
    let t = spec_trim(v);
    if t.len() >= 2 && t[0] == '[' && t.last() == ']' {
        proof {
            crate::text::lemma_trim_len(v);
        }
        (if mutable {
            "mutableListOf("@
        } else {
            "listOf("@
        }) + nested_lists(t.subrange(1, t.len() - 1), 0, 0, 0) + ")"@
    } else {
        v
    }
}

/// The content of an array literal from index `i` on, with nesting depth `d`
/// and the innermost open array at depth 0 starting at `start`: each nested
/// array is turned into a list.
pub open spec fn nested_lists(s: Seq<char>, i: int, d: int, start: int) -> Seq<char>
    decreases s.len(), 1nat, s.len() - i,
{
    if i < 0 || i >= s.len() {
        Seq::empty()
    } else if s[i] == '[' {
        nested_lists(s, i + 1, d + 1, if d == 0 {
            i
        } else {
            start
        })
    } else if s[i] == ']' {
        if d - 1 == 0 && 0 <= start <= i {
            array_list(s.subrange(start, i + 1), false) + nested_lists(s, i + 1, 0, start)
        } else {
            nested_lists(s, i + 1, d - 1, start)
        }
    } else if d > 0 {
        nested_lists(s, i + 1, d, start)
    } else {
        seq![s[i]] + nested_lists(s, i + 1, d, start)
    }
}

/// Turns an array literal into `listOf(..)` / `mutableListOf(..)`, nested
/// arrays included.
pub fn transform_array_literal(value: &str, is_mutable: bool) -> (r: String)
    ensures
        r@ == array_list(value@, is_mutable),
    decreases value@.len(), 0nat,
{
    let t = str_to_chars(trim_str(value).as_str());
    let n = t.len();
    if n >= 1 && t[0] == '[' && t[n - 1] == ']' {
        proof {
            crate::text::lemma_trim_len(value@);
        }
        let content = string_from_range(t.as_slice(), 1, n - 1);
        let inner = transform_nested_arrays(content.as_str());
        let mut out = if is_mutable {
            lit("mutableListOf(")
        } else {
            lit("listOf(")
        };
        push_string(&mut out, &inner);
        push_lit(&mut out, ")");
        out
    } else {
        lit(value)
    }
}

/// Turns the nested arrays in the content of an array literal into lists.
pub fn transform_nested_arrays(content: &str) -> (r: String)
    ensures
        r@ == nested_lists(content@, 0, 0, 0),
    decreases content@.len(), 1nat,
{
    let s = str_to_chars(content);
    let mut result = String::new();
    let mut opens: usize = 0;
    let mut closes: usize = 0;
    let mut start: usize = 0;
    let mut i: usize = 0;
    while i < s.len()
        invariant
            i <= s@.len(),
            s@ == content@,
            start <= i,
            opens <= i,
            closes <= i,
            result@ + nested_lists(content@, i as int, opens - closes, start as int)
                == nested_lists(content@, 0, 0, 0),
        decreases s.len() - i,
    {
        let ch = s[i];
        let ghost before = result@;
        let ghost d = opens - closes;
        if ch == '[' {
            if opens == closes {
                start = i;
            }
            opens = opens + 1;
        } else if ch == ']' {
            closes = closes + 1;
            if opens == closes {
                let seg = string_from_range(s.as_slice(), start, i + 1);
                proof {
                    assert(spec_trim(seg@).len() <= seg@.len()) by {
                        crate::text::lemma_trim_len(seg@);
                    }
                    assert(seg@[seg@.len() - 1] == ']');
                }
                let transformed = transform_array_literal(seg.as_str(), false);
                push_string(&mut result, &transformed);
                proof {
                    assert(before + (transformed@ + nested_lists(content@, i + 1, 0, start as int))
                        =~= result@ + nested_lists(content@, i + 1, 0, start as int));
                }
            }
        } else if opens > closes {
        } else {
            push_char(&mut result, ch);
            proof {
                assert(before + (seq![ch] + nested_lists(content@, i + 1, d, start as int))
                    =~= result@ + nested_lists(content@, i + 1, d, start as int));
            }
        }
        i = i + 1;
    }
    proof {
        assert(result@ + Seq::<char>::empty() =~= result@);
    }
    result
}

// ===================== Packages and routes =====================

/// Where the package segment `screens` starts, looking at the segments from
/// index `i` (a segment start) on.
pub open spec fn screens_part(s: Seq<char>, i: int) -> Option<int>
    decreases s.len() - i,
{
    if i < 0 || i > s.len() {
        None
    } else {
        let e = crate::parser::find_char(s, i, '.');
        if s.subrange(i, e) == "screens"@ {
            Some(i)
        } else if i <= e < s.len() {
            screens_part(s, e + 1)
        } else {
            None
        }
    }
}

/// The last index before `k` that holds `c`.
pub open spec fn last_index_before(s: Seq<char>, k: int, c: char) -> Option<int>
    decreases k,
{
    if k <= 0 || k > s.len() {
        None
    } else if s[k - 1] == c {
        Some(k - 1)
    } else {
        last_index_before(s, k - 1, c)
    }
}

/// The base package: the segments before `screens`, or else all but the
/// last segment (a one-segment package stays as it is).
pub open spec fn base_package(s: Seq<char>) -> Seq<char> {
    match screens_part(s, 0) {
        Some(k) => if k == 0 {
            Seq::empty()
        } else {
            s.subrange(0, k - 1)
        },
        None => match last_index_before(s, s.len() as int, '.') {
            Some(d) => s.subrange(0, d),
            None => s,
        },
    }
}

/// The last index of `c` in `v`.
fn last_index_of(v: &Vec<char>, c: char) -> (r: Option<usize>)
    ensures
        match r {
            Some(k) => last_index_before(v@, v@.len() as int, c) == Some(k as int) && k
                < v@.len(),
            None => last_index_before(v@, v@.len() as int, c) is None,
        },
{
    let mut k = v.len();
    while k > 0
        invariant
            k <= v@.len(),
            last_index_before(v@, k as int, c) == last_index_before(v@, v@.len() as int, c),
        decreases k,
    {
        if v[k - 1] == c {
            return Some(k - 1);
        }
        k = k - 1;
    }
    None
}

/// The base package of `package` (for the generated routes).
pub fn get_base_package(package: &str) -> (r: String)
    ensures
        r@ == base_package(package@),
{
    let s = str_to_chars(package);
    let mut i: usize = 0;
    proof {
        reveal_strlit("screens");
    }
    let mut found: Option<usize> = None;
    loop
        invariant_except_break
            i <= s@.len(),
            s@ == package@,
            screens_part(package@, i as int) == screens_part(package@, 0),
            found is None,
        ensures
            s@ == package@,
            match found {
                Some(k) => screens_part(package@, 0) == Some(k as int) && k <= s@.len(),
                None => screens_part(package@, 0) is None,
            },
        decreases s.len() - i,
    {
        let mut e = i;
        while e < s.len() && s[e] != '.'
            invariant
                i <= e <= s@.len(),
                crate::parser::find_char(s@, e as int, '.') == crate::parser::find_char(
                    s@,
                    i as int,
                    '.',
                ),
            decreases s.len() - e,
        {
            e = e + 1;
        }
        if chars_range_eq(&s, i, e, "screens") {
            found = Some(i);
            break;
        }
        if e >= s.len() {
            break;
        }
        i = e + 1;
    }
    match found {
        Some(k) => if k == 0 {
            String::new()
        } else {
            string_from_range(s.as_slice(), 0, k - 1)
        },
        None => match last_index_of(&s, '.') {
            Some(d) => string_from_range(s.as_slice(), 0, d),
            None => lit(package),
        },
    }
}

/// Whether `v[a..b]` is the literal `t`.
fn chars_range_eq(v: &Vec<char>, a: usize, b: usize, t: &str) -> (r: bool)
    requires
        a <= b <= v@.len(),
    ensures
        r == (v@.subrange(a as int, b as int) == t@),
{
    let tv = str_to_chars(t);
    if b - a != tv.len() {
        return false;
    }
    let r = crate::text::chars_occur_at(v.as_slice(), a, tv.as_slice());
    proof {
        if r {
            assert(v@.subrange(a as int, b as int) =~= tv@);
        }
    }
    r
}

/// End of a route path at `i`: the first `(`, `)`, `,` or white space.
pub open spec fn route_end(a: Seq<char>, i: int) -> int
    decreases a.len() - i,
{
    if i < 0 || i >= a.len() || a[i] == '(' || a[i] == ')' || a[i] == ',' || crate::text::spec_is_whitespace(a[i]) {
        i
    } else {
        route_end(a, i + 1)
    }
}

/// The segments of a route path from index `i` on, each capitalized.
pub open spec fn capitalized_parts(p: Seq<char>, i: int) -> Seq<char>
    decreases p.len() - i,
{
    if i < 0 || i > p.len() {
        Seq::empty()
    } else {
        let e = crate::parser::find_char(p, i, '.');
        crate::recyclerview::capitalized(p.subrange(i, e)) + if i <= e < p.len() {
            "."@ + capitalized_parts(p, e + 1)
        } else {
            Seq::empty()
        }
    }
}

/// `$routes.post.detail(..)` as `Routes.Post.Detail(..)` (the first one in
/// the value); other values unchanged.
pub open spec fn route_alias(v: Seq<char>) -> Seq<char> {
    match find_from(v, 0, "$routes."@) {
        None => v,
        Some(r) => {
            let after = v.subrange(r + 8, v.len() as int);
            let e = route_end(after, 0);
            v.subrange(0, r) + "Routes."@ + capitalized_parts(after.subrange(0, e), 0)
                + after.subrange(e, after.len() as int)
        },
    }
}

/// The capitalized segments of `p[from..to]` joined by `.`.
fn capitalize_parts(p: &Vec<char>, from: usize, to: usize) -> (r: String)
    requires
        from <= to <= p@.len(),
    ensures
        r@ == capitalized_parts(p@.subrange(from as int, to as int), 0),
{
    let ghost w = p@.subrange(from as int, to as int);
    let mut out = String::new();
    let mut i = from;
    loop
        invariant_except_break
            from <= i <= to <= p@.len(),
            w == p@.subrange(from as int, to as int),
            out@ + capitalized_parts(w, i - from) == capitalized_parts(w, 0),
        ensures
            out@ == capitalized_parts(w, 0),
        decreases to - i,
    {
        let mut e = i;
        while e < to && p[e] != '.'
            invariant
                i <= e <= to <= p@.len(),
                from <= i,
                w == p@.subrange(from as int, to as int),
                crate::parser::find_char(w, e - from, '.') == crate::parser::find_char(
                    w,
                    i - from,
                    '.',
                ),
            decreases to - e,
        {
            e = e + 1;
        }
        let part = string_from_range(p.as_slice(), i, e);
        let cap = crate::recyclerview::capitalize(&part);
        proof {
            assert(part@ =~= w.subrange(i - from, e - from));
        }
        let ghost before = out@;
        push_string(&mut out, &cap);
        if e >= to {
            proof {
                assert(out@ + Seq::<char>::empty() =~= out@);
                assert(before + (cap@ + Seq::<char>::empty()) =~= out@);
            }
            break;
        }
        push_lit(&mut out, ".");
        proof {
            assert(before + (cap@ + ("."@ + capitalized_parts(w, e - from + 1))) =~= out@
                + capitalized_parts(w, e - from + 1));
        }
        i = e + 1;
    }
    out
}

/// Turns a `$routes` path into the generated `Routes` object's path.
pub fn transform_route_aliases(value: &str) -> (r: String)
    ensures
        r@ == route_alias(value@),
{
    let v = str_to_chars(value);
    let n = v.len();
    let r = match find_chars(&v, "$routes.") {
        None => {
            return lit(value);
        },
        Some(r) => r,
    };
    proof {
        reveal_strlit("$routes.");
        lemma_find_from(v@, 0, "$routes."@);
        assert(occurs_at(v@, r as int, "$routes."@));
        assert("$routes."@.len() == 8);
    }
    let start = r + 8;
    let ghost after = v@.subrange(start as int, v@.len() as int);
    let mut e = start;
    while e < v.len() && !(v[e] == '(' || v[e] == ')' || v[e] == ',' || crate::text::is_whitespace(
        v[e],
    ))
        invariant
            start <= e <= v@.len(),
            after == v@.subrange(start as int, v@.len() as int),
            route_end(after, e - start) == route_end(after, 0),
        decreases v.len() - e,
    {
        e = e + 1;
    }
    let mut out = string_from_range(v.as_slice(), 0, r);
    push_lit(&mut out, "Routes.");
    let parts = capitalize_parts(&v, start, e);
    proof {
        assert(v@.subrange(start as int, e as int) =~= after.subrange(0, e - start));
    }
    push_string(&mut out, &parts);
    let rest = string_from_range(v.as_slice(), e, v.len());
    proof {
        assert(rest@ =~= after.subrange(e - start, after.len() as int));
    }
    push_string(&mut out, &rest);
    out
}

// ===================== Lambdas =====================

/// Arrow lambdas as Kotlin lambdas: `() => e` as `{ e }`, `(a, b) => e` as
/// `{ a, b -> e }` (a block body loses its braces, text before the parameter
/// list stays); other values unchanged.
pub open spec fn kotlin_lambda(v: Seq<char>) -> Seq<char> {
    if crate::text::seq_contains(v, "() =>"@) {
        let t = spec_trim(replaced(v, "() =>"@, ""@));
        if t.len() > 0 && t[0] == '{' && t.last() == '}' {
            t
        } else {
            "{ "@ + t + " }"@
        }
    } else {
        match find_from(v, 0, " =>"@) {
            None => v,
            Some(a) => {
                let b = spec_trim(v.subrange(0, a));
                match last_index_before(b, b.len() as int, '(') {
                    None => v,
                    Some(p) => {
                        let pp = b.subrange(p, b.len() as int);
                        if pp.last() == ')' && pp.len() >= 2 {
                            let params = pp.subrange(1, pp.len() - 1);
                            let after = spec_trim(v.subrange(a + 3, v.len() as int));
                            let body = if after.len() > 0 && after[0] == '{' && after.last()
                                == '}' && after.len() >= 2 {
                                spec_trim(after.subrange(1, after.len() - 1))
                            } else {
                                after
                            };
                            b.subrange(0, p) + "{ "@ + params + " -> "@ + body + " }"@
                        } else {
                            v
                        }
                    },
                }
            },
        }
    }
}

/// Turns arrow lambdas into Kotlin lambdas.
pub fn transform_lambda_arrow(value: &str) -> (r: String)
    ensures
        r@ == kotlin_lambda(value@),
{
    proof {
        reveal_strlit("() =>");
        reveal_strlit(" =>");
    }
    if crate::text::str_contains(value, "() =>") {
        let replaced_text = replace_all(value, "() =>", "");
        let t = trim_str(replaced_text.as_str());
        let tv = str_to_chars(t.as_str());
        let n = tv.len();
        if n > 0 && tv[0] == '{' && tv[n - 1] == '}' {
            return t;
        }
        let mut out = lit("{ ");
        push_string(&mut out, &t);
        push_lit(&mut out, " }");
        return out;
    }
    let v = str_to_chars(value);
    let vn = v.len();
    let a = match find_chars(&v, " =>") {
        None => {
            return lit(value);
        },
        Some(a) => a,
    };
    proof {
        lemma_find_from(v@, 0, " =>"@);
        assert(occurs_at(v@, a as int, " =>"@));
    }
    let b = str_to_chars(trimmed_range(v.as_slice(), 0, a).as_str());
    let p = match last_index_of(&b, '(') {
        None => {
            return lit(value);
        },
        Some(p) => p,
    };
    let m = b.len();
    if !(b[m - 1] == ')' && m - p >= 2) {
        return lit(value);
    }
    let params = string_from_range(b.as_slice(), p + 1, m - 1);
    let after = str_to_chars(trimmed_range(v.as_slice(), a + 3, v.len()).as_str());
    let k = after.len();
    let body = if k > 0 && after[0] == '{' && after[k - 1] == '}' && k >= 2 {
        trimmed_range(after.as_slice(), 1, k - 1)
    } else {
        string_from_chars_vec(&after)
    };
    proof {
        let pp = b@.subrange(p as int, m as int);
        assert(pp.subrange(1, pp.len() - 1) =~= b@.subrange(p + 1, m - 1));
        assert(pp.last() == b@[m - 1]);
    }
    let mut out = string_from_range(b.as_slice(), 0, p);
    push_lit(&mut out, "{ ");
    push_string(&mut out, &params);
    push_lit(&mut out, " -> ");
    push_string(&mut out, &body);
    push_lit(&mut out, " }");
    out
}


// ===================== Identifiers =====================

/// Whether `c` can be part of an identifier.
pub open spec fn is_ident_char(c: char) -> bool {
    crate::text::unicode_is_alphanumeric(c) || c == '_'
}

/// End of the identifier characters at `i`.
pub open spec fn word_end(s: Seq<char>, i: int) -> int
    decreases s.len() - i,
{
    if 0 <= i < s.len() && is_ident_char(s[i]) {
        word_end(s, i + 1)
    } else {
        i
    }
}

pub proof fn lemma_word_end(s: Seq<char>, i: int)
    requires
        0 <= i <= s.len(),
    ensures
        i <= word_end(s, i) <= s.len(),
    decreases s.len() - i,
{
    if i < s.len() && is_ident_char(s[i]) {
        lemma_word_end(s, i + 1);
    }
}

/// Index of the `}` that closes an interpolation whose content starts at `i`
/// with `d` braces open (or the end).
pub open spec fn interpolation_end(s: Seq<char>, i: int, d: int) -> int
    decreases s.len() - i,
{
    if i < 0 || i >= s.len() {
        i
    } else if s[i] == '{' {
        interpolation_end(s, i + 1, d + 1)
    } else if s[i] == '}' {
        if d - 1 == 0 {
            i
        } else {
            interpolation_end(s, i + 1, d - 1)
        }
    } else {
        interpolation_end(s, i + 1, d)
    }
}

pub proof fn lemma_interpolation_end(s: Seq<char>, i: int, d: int)
    requires
        0 <= i <= s.len(),
    ensures
        i <= interpolation_end(s, i, d) <= s.len(),
        interpolation_end(s, i, d) < s.len() ==> s[interpolation_end(s, i, d)] == '}',
    decreases s.len() - i,
{
    if i < s.len() {
        if s[i] == '{' {
            lemma_interpolation_end(s, i + 1, d + 1);
        } else if s[i] == '}' {
            if d - 1 != 0 {
                lemma_interpolation_end(s, i + 1, d - 1);
            }
        } else {
            lemma_interpolation_end(s, i + 1, d);
        }
    }
}

/// `s` from index `i` (outside string literals) with each whole-word `id`
/// replaced by `rep`.
pub open spec fn ident_replaced(s: Seq<char>, i: int, id: Seq<char>, rep: Seq<char>) -> Seq<char>
    decreases s.len(), s.len() - i,
{
    if i < 0 || i >= s.len() {
        Seq::empty()
    } else if s[i] == '"' || s[i] == '\'' {
        seq![s[i]] + string_ident_replaced(s, i + 1, s[i], id, rep)
    } else if is_ident_char(s[i]) {
        let e = word_end(s, i);
        if i < e <= s.len() {
            (if s.subrange(i, e) == id {
                rep
            } else {
                s.subrange(i, e)
            }) + ident_replaced(s, e, id, rep)
        } else {
            Seq::empty()
        }
    } else {
        seq![s[i]] + ident_replaced(s, i + 1, id, rep)
    }
}

/// `s` from index `i` inside a string literal quoted with `q`: copied as it
/// is, but inside `${..}` each whole-word `id` is replaced by `rep`.
pub open spec fn string_ident_replaced(
    s: Seq<char>,
    i: int,
    q: char,
    id: Seq<char>,
    rep: Seq<char>,
) -> Seq<char>
    decreases s.len(), s.len() - i,
{
    if i < 0 || i >= s.len() {
        Seq::empty()
    } else if s[i] == '\\' && i + 1 < s.len() {
        seq![s[i], s[i + 1]] + string_ident_replaced(s, i + 2, q, id, rep)
    } else if s[i] == '$' && i + 1 < s.len() && s[i + 1] == '{' {
        let j = interpolation_end(s, i + 2, 1);
        if i + 2 <= j <= s.len() {
            "${"@ + ident_replaced(s.subrange(i + 2, j), 0, id, rep) + if j < s.len() {
                "}"@ + string_ident_replaced(s, j + 1, q, id, rep)
            } else {
                Seq::empty()
            }
        } else {
            Seq::empty()
        }
    } else if s[i] == q {
        seq![s[i]] + ident_replaced(s, i + 1, id, rep)
    } else {
        seq![s[i]] + string_ident_replaced(s, i + 1, q, id, rep)
    }
}

/// Replaces the whole-word identifier `identifier` by `replacement`, outside
/// string literals and inside `${..}` interpolations in them.
pub fn replace_identifier(expr: &str, identifier: &str, replacement: &str) -> (r: String)
    ensures
        r@ == ident_replaced(expr@, 0, identifier@, replacement@),
    decreases expr@.len(),
{
    let chars = str_to_chars(expr);
    let ghost s = chars@;
    let n = chars.len();
    let mut result = String::new();
    let mut i: usize = 0;
    while i < n
        invariant
            i <= n == s.len(),
            s == chars@,
            s == expr@,
            result@ + ident_replaced(s, i as int, identifier@, replacement@) == ident_replaced(
                s,
                0,
                identifier@,
                replacement@,
            ),
        decreases n - i,
    {
        let ch = chars[i];
        let ghost before = result@;
        if ch == '"' || ch == '\'' {
            let quote = ch;
            let ghost outer_i = i;
            push_char(&mut result, ch);
            i = i + 1;
            proof {
                assert(before + (seq![ch] + string_ident_replaced(
                    s,
                    i as int,
                    quote,
                    identifier@,
                    replacement@,
                )) =~= result@ + string_ident_replaced(
                    s,
                    i as int,
                    quote,
                    identifier@,
                    replacement@,
                ));
            }
            while i < n
                invariant_except_break
                    i <= n == s.len(),
                    outer_i < i,
                    s == chars@,
                    s == expr@,
                    result@ + string_ident_replaced(s, i as int, quote, identifier@, replacement@)
                        == ident_replaced(s, 0, identifier@, replacement@),
                ensures
                    outer_i < i,
                    i <= n == s.len(),
                    s == chars@,
                    s == expr@,
                    result@ + ident_replaced(s, i as int, identifier@, replacement@)
                        == ident_replaced(s, 0, identifier@, replacement@),
                decreases n - i,
            {
                let inner = chars[i];
                let ghost before2 = result@;
                if inner == '\\' && i + 1 < n {
                    push_char(&mut result, inner);
                    push_char(&mut result, chars[i + 1]);
                    proof {
                        assert(before2 + (seq![inner, s[i + 1]] + string_ident_replaced(
                            s,
                            i + 2,
                            quote,
                            identifier@,
                            replacement@,
                        )) =~= result@ + string_ident_replaced(
                            s,
                            i + 2,
                            quote,
                            identifier@,
                            replacement@,
                        ));
                    }
                    i = i + 2;
                } else if inner == '$' && i + 1 < n && chars[i + 1] == '{' {
                    push_char(&mut result, '$');
                    push_char(&mut result, '{');
                    let interp_start = i + 2;
                    let mut j = interp_start;
                    let mut depth: usize = 1;
                    proof {
                        lemma_interpolation_end(s, interp_start as int, 1);
                    }
                    while j < n
                        invariant_except_break
                            interp_start <= j <= n == s.len(),
                            interp_start >= 2,
                            s == chars@,
                            1 <= depth <= j - interp_start + 1,
                            interpolation_end(s, j as int, depth as int) == interpolation_end(
                                s,
                                interp_start as int,
                                1,
                            ),
                        ensures
                            interp_start <= j <= n,
                            j == interpolation_end(s, interp_start as int, 1),
                        decreases n - j,
                    {
                        if chars[j] == '{' {
                            depth = depth + 1;
                        } else if chars[j] == '}' {
                            if depth == 1 {
                                break;
                            }
                            depth = depth - 1;
                        }
                        j = j + 1;
                    }
                    let content = string_from_range(chars.as_slice(), interp_start, j);
                    let transformed = replace_identifier(content.as_str(), identifier, replacement);
                    push_string(&mut result, &transformed);
                    if j < n {
                        push_char(&mut result, '}');
                        i = j + 1;
                        proof {
                            assert(before2 + ("${"@ + transformed@ + ("}"@ + string_ident_replaced(
                                s,
                                i as int,
                                quote,
                                identifier@,
                                replacement@,
                            ))) =~= result@ + string_ident_replaced(
                                s,
                                i as int,
                                quote,
                                identifier@,
                                replacement@,
                            )) by {
                                reveal_strlit("${");
                                reveal_strlit("}");
                            }
                        }
                    } else {
                        i = j;
                        proof {
                            assert(before2 + ("${"@ + transformed@ + Seq::<char>::empty()) =~= result@
                                + string_ident_replaced(
                                s,
                                i as int,
                                quote,
                                identifier@,
                                replacement@,
                            )) by {
                                reveal_strlit("${");
                            }
                        }
                    }
                } else if inner == quote {
                    push_char(&mut result, inner);
                    i = i + 1;
                    proof {
                        assert(before2 + (seq![inner] + ident_replaced(
                            s,
                            i as int,
                            identifier@,
                            replacement@,
                        )) =~= result@ + ident_replaced(s, i as int, identifier@, replacement@));
                    }
                    break;
                } else {
                    push_char(&mut result, inner);
                    i = i + 1;
                    proof {
                        assert(before2 + (seq![inner] + string_ident_replaced(
                            s,
                            i as int,
                            quote,
                            identifier@,
                            replacement@,
                        )) =~= result@ + string_ident_replaced(
                            s,
                            i as int,
                            quote,
                            identifier@,
                            replacement@,
                        ));
                    }
                }
            }
        } else if crate::text::is_alphanumeric(ch) || ch == '_' {
            let start = i;
            while i < n && (crate::text::is_alphanumeric(chars[i]) || chars[i] == '_')
                invariant
                    start <= i <= n == s.len(),
                    s == chars@,
                    word_end(s, i as int) == word_end(s, start as int),
                decreases n - i,
            {
                i = i + 1;
            }
            let word = string_from_range(chars.as_slice(), start, i);
            if str_eq(word.as_str(), identifier) {
                push_lit(&mut result, replacement);
            } else {
                push_string(&mut result, &word);
            }
            proof {
                let piece = if s.subrange(start as int, i as int) == identifier@ {
                    replacement@
                } else {
                    s.subrange(start as int, i as int)
                };
                assert(before + (piece + ident_replaced(s, i as int, identifier@, replacement@))
                    =~= result@ + ident_replaced(s, i as int, identifier@, replacement@));
            }
        } else {
            push_char(&mut result, ch);
            i = i + 1;
            proof {
                assert(before + (seq![ch] + ident_replaced(s, i as int, identifier@, replacement@))
                    =~= result@ + ident_replaced(s, i as int, identifier@, replacement@));
            }
        }
    }
    proof {
        assert(result@ + Seq::<char>::empty() =~= result@);
    }
    result
}


// ===================== ViewModel expressions =====================

/// Where an assigned value that starts at `i` ends: the first `)`, `}` or
/// `]` closing nothing, or `,` / `;`, at depth 0 (or the end).
pub open spec fn assigned_value_end(s: Seq<char>, i: int, d: int) -> int
    decreases s.len() - i,
{
    if i < 0 || i >= s.len() {
        s.len() as int
    } else {
        let c = s[i];
        if c == '(' || c == '{' || c == '[' {
            assigned_value_end(s, i + 1, d + 1)
        } else if c == ')' || c == '}' || c == ']' {
            if d > 0 {
                assigned_value_end(s, i + 1, d - 1)
            } else {
                i
            }
        } else if (c == ',' || c == ';') && d == 0 {
            i
        } else {
            assigned_value_end(s, i + 1, d)
        }
    }
}

pub proof fn lemma_assigned_value_end(s: Seq<char>, i: int, d: int)
    requires
        0 <= i <= s.len(),
    ensures
        i <= assigned_value_end(s, i, d) <= s.len(),
    decreases s.len() - i,
{
    if i < s.len() {
        let c = s[i];
        if c == '(' || c == '{' || c == '[' {
            lemma_assigned_value_end(s, i + 1, d + 1);
        } else if c == ')' || c == '}' || c == ']' {
            if d > 0 {
                lemma_assigned_value_end(s, i + 1, d - 1);
            }
        } else if (c == ',' || c == ';') && d == 0 {
        } else {
            lemma_assigned_value_end(s, i + 1, d);
        }
    }
}

/// The update method for the state variable `v`: `update` and `v` with its
/// first letter in upper case.
pub open spec fn update_method(v: Seq<char>) -> Seq<char> {
    "update"@ + crate::recyclerview::unicode_upper(v[0]) + v.subrange(1, v.len() as int)
}

/// `s` from index `p` with each assignment `v = value` turned into
/// `viewModel.updateV(value)`.
pub open spec fn assignments_from(s: Seq<char>, p: int, v: Seq<char>) -> Seq<char>
    decreases s.len() - p,
{
    if p < 0 || p > s.len() || v.len() == 0 {
        Seq::empty()
    } else {
        match find_from(s, p, v) {
            None => s.subrange(p, s.len() as int),
            Some(idx) => {
                let a = idx + v.len();
                let t0 = crate::text::skip_ws_from(s, a, s.len() as int);
                if char_at(s, t0) == Some('=') && char_at(s, t0 + 1) != Some('=') {
                    let v0 = crate::text::skip_ws_from(s, t0 + 1, s.len() as int);
                    let e0 = assigned_value_end(s, v0, 0);
                    let e = if e0 == v0 {
                        s.len() as int
                    } else {
                        e0
                    };
                    s.subrange(p, idx) + "viewModel."@ + update_method(v) + "("@ + spec_trim(
                        s.subrange(v0, e),
                    ) + ")"@ + if p < e <= s.len() {
                        assignments_from(s, e, v)
                    } else {
                        Seq::empty()
                    }
                } else {
                    s.subrange(p, idx) + v + if p < a <= s.len() {
                        assignments_from(s, a, v)
                    } else {
                        Seq::empty()
                    }
                }
            },
        }
    }
}

/// `s` after each of `vars`, in turn, has had its assignments turned into
/// update calls.
pub open spec fn assignment_passes(s: Seq<char>, vars: Seq<Seq<char>>) -> Seq<char>
    decreases vars.len(),
{
    if vars.len() == 0 {
        s
    } else {
        assignments_from(assignment_passes(s, vars.drop_last()), 0, vars.last())
    }
}

/// `s` after each of `names`, in turn, has been replaced as a whole word by
/// `prefix` followed by it.
pub open spec fn prefix_passes(s: Seq<char>, names: Seq<Seq<char>>, prefix: Seq<char>) -> Seq<
    char,
>
    decreases names.len(),
{
    if names.len() == 0 {
        s
    } else {
        let n = names.last();
        ident_replaced(prefix_passes(s, names.drop_last(), prefix), 0, n, prefix + n)
    }
}

/// `s` from index `i` as the interpolation pass copies it: inside `${..}`
/// the text is held back and written before the closing `}` (an unclosed
/// interpolation loses it).
pub open spec fn interpolation_copy(s: Seq<char>, i: int, inside: bool, token: Seq<char>) -> Seq<
    char,
>
    decreases s.len() - i,
{
    if i < 0 || i >= s.len() {
        Seq::empty()
    } else {
        let c = s[i];
        if c == '$' && char_at(s, i + 1) == Some('{') {
            seq!['$'] + interpolation_copy(s, i + 1, true, Seq::empty())
        } else if c == '{' && inside {
            seq!['{'] + interpolation_copy(s, i + 1, inside, token)
        } else if c == '}' && inside {
            token + seq!['}'] + interpolation_copy(s, i + 1, false, Seq::empty())
        } else if inside {
            interpolation_copy(s, i + 1, inside, token.push(c))
        } else {
            seq![c] + interpolation_copy(s, i + 1, inside, token)
        }
    }
}

/// `s` from index `i` with each call `pat` (a function name and `(`) made
/// `viewModel.` + `pat`, unless the text since the previous call ends with
/// `viewModel.` already.
pub open spec fn calls_from(s: Seq<char>, i: int, pat: Seq<char>) -> Seq<char>
    decreases s.len() - i,
{
    if i < 0 || i > s.len() || pat.len() == 0 {
        Seq::empty()
    } else {
        match find_from(s, i, pat) {
            None => s.subrange(i, s.len() as int),
            Some(k) => s.subrange(i, k) + (if ends_with(s.subrange(i, k), "viewModel."@) {
                pat
            } else {
                "viewModel."@ + pat
            }) + if i <= k && k + pat.len() <= s.len() {
                calls_from(s, k + pat.len(), pat)
            } else {
                Seq::empty()
            },
        }
    }
}

/// `s` after each of `funcs`, in turn, has had its calls routed to the
/// ViewModel.
pub open spec fn call_passes(s: Seq<char>, funcs: Seq<Seq<char>>) -> Seq<char>
    decreases funcs.len(),
{
    if funcs.len() == 0 {
        s
    } else {
        calls_from(call_passes(s, funcs.drop_last()), 0, funcs.last() + "("@)
    }
}

/// An expression inside the ViewModel wrapper: assignments to state become
/// update calls, state reads `uiState.x`, derived properties `viewModel.p`,
/// and function calls `viewModel.f(..)`; outside the wrapper it stays.
pub open spec fn viewmodel_expression(
    e: Seq<char>,
    in_wrapper: bool,
    vars: Seq<Seq<char>>,
    props: Seq<Seq<char>>,
    funcs: Seq<Seq<char>>,
) -> Seq<char> {
    if !in_wrapper {
        e
    } else {
        let s0 = assignment_passes(e, vars);
        let s1 = prefix_passes(prefix_passes(s0, vars, "uiState."@), props, "viewModel."@);
        let s2 = interpolation_copy(s1, 0, false, Seq::empty());
        call_passes(s2, funcs)
    }
}

/// Whether a name is fit for an update method (non-empty, ASCII first).
pub open spec fn update_name_ok(v: Seq<char>) -> bool {
    v.len() > 0 && (v[0] as u32) < 128
}

/// The index after the white space at `from`.
fn skip_spaces(v: &Vec<char>, from: usize) -> (r: usize)
    requires
        from <= v@.len(),
    ensures
        r == crate::text::skip_ws_from(v@, from as int, v@.len() as int),
        from <= r <= v@.len(),
{
    let n = v.len();
    let mut t = from;
    while t < n && crate::text::is_whitespace(v[t])
        invariant
            from <= t <= n == v@.len(),
            crate::text::skip_ws_from(v@, t as int, n as int) == crate::text::skip_ws_from(
                v@,
                from as int,
                n as int,
            ),
        decreases n - t,
    {
        t = t + 1;
    }
    t
}

/// Where the assigned value that starts at `v0` ends.
fn value_end_at(v: &Vec<char>, v0: usize) -> (r: usize)
    requires
        v0 <= v@.len(),
    ensures
        r == assigned_value_end(v@, v0 as int, 0),
        v0 <= r <= v@.len(),
{
    let n = v.len();
    let mut e = v0;
    let mut opens: usize = 0;
    let mut closes: usize = 0;
    proof {
        lemma_assigned_value_end(v@, v0 as int, 0);
    }
    while e < n
        invariant_except_break
            v0 <= e <= n == v@.len(),
            opens <= e,
            closes <= opens,
            assigned_value_end(v@, e as int, opens - closes) == assigned_value_end(
                v@,
                v0 as int,
                0,
            ),
        ensures
            v0 <= e <= n,
            e == assigned_value_end(v@, v0 as int, 0),
        decreases n - e,
    {
        let c = v[e];
        if c == '(' || c == '{' || c == '[' {
            opens = opens + 1;
        } else if c == ')' || c == '}' || c == ']' {
            if opens > closes {
                closes = closes + 1;
            } else {
                break;
            }
        } else if (c == ',' || c == ';') && opens == closes {
            break;
        }
        e = e + 1;
    }
    e
}

/// One step of the assignment pass from `p`: the text up to the next
/// occurrence of `var` and what replaces it (an update call or `var`
/// itself); `None` when `var` does not occur again (the rest is copied).
#[verifier::spinoff_prover]
#[verifier::rlimit(40)]
fn assignment_step(
    out: &mut String,
    v: &Vec<char>,
    p: usize,
    var: &String,
    vv: &Vec<char>,
    method: &String,
) -> (r: Option<usize>)
    requires
        p <= v@.len(),
        update_name_ok(var@),
        vv@ == var@,
        method@ == update_method(var@),
    ensures
        match r {
            Some(q) => p < q <= v@.len() && final(out)@ + assignments_from(v@, q as int, var@)
                == old(out)@ + assignments_from(v@, p as int, var@),
            None => final(out)@ == old(out)@ + assignments_from(v@, p as int, var@),
        },
{
    let n = v.len();
    let ghost s = v@;
    proof {
        lemma_find_from_window(s, p as int, var@);
        lemma_find_from(s, p as int, var@);
    }
    let idx = match find_in_range(v, p, n, var.as_str()) {
        None => {
            let tail = string_from_range(v.as_slice(), p, n);
            push_string(out, &tail);
            return None;
        },
        Some(idx) => idx,
    };
    let a = idx + vv.len();
    let t0 = skip_spaces(v, a);
    let prefix = string_from_range(v.as_slice(), p, idx);
    push_string(out, &prefix);
    if t0 < n && v[t0] == '=' && !(t0 + 1 < n && v[t0 + 1] == '=') {
        let v0 = skip_spaces(v, t0 + 1);
        let mut e = value_end_at(v, v0);
        if e == v0 {
            e = n;
        }
        push_lit(out, "viewModel.");
        push_string(out, method);
        push_lit(out, "(");
        let value = trimmed_range(v.as_slice(), v0, e);
        push_string(out, &value);
        push_lit(out, ")");
        proof {
            let call = "viewModel."@ + update_method(var@) + "("@ + spec_trim(
                s.subrange(v0 as int, e as int),
            ) + ")"@;
            assert(assignments_from(s, p as int, var@) == s.subrange(p as int, idx as int) + call
                + assignments_from(s, e as int, var@));
            assert(old(out)@ + (s.subrange(p as int, idx as int) + call + assignments_from(
                s,
                e as int,
                var@,
            )) =~= out@ + assignments_from(s, e as int, var@));
        }
        Some(e)
    } else {
        push_string(out, var);
        proof {
            assert(assignments_from(s, p as int, var@) == s.subrange(p as int, idx as int) + var@
                + assignments_from(s, a as int, var@));
            assert(old(out)@ + (s.subrange(p as int, idx as int) + var@ + assignments_from(
                s,
                a as int,
                var@,
            )) =~= out@ + assignments_from(s, a as int, var@));
        }
        Some(a)
    }
}

/// Turns the assignments to `var` in `s` into update calls.
fn assignment_pass(s: &str, var: &String) -> (r: String)
    requires
        update_name_ok(var@),
    ensures
        r@ == assignments_from(s@, 0, var@),
{
    let v = str_to_chars(s);
    let vv = str_to_chars(var.as_str());
    let n = v.len();
    let mut out = String::new();
    let mut p: usize = 0;
    let mut method = lit("update");
    let first = crate::recyclerview::to_uppercase(vv[0]);
    push_string(&mut method, &first);
    let rest = string_from_range(vv.as_slice(), 1, vv.len());
    push_string(&mut method, &rest);
    loop
        invariant_except_break
            p <= n == s@.len(),
            v@ == s@,
            vv@ == var@,
            update_name_ok(var@),
            method@ == update_method(var@),
            out@ + assignments_from(s@, p as int, var@) == assignments_from(s@, 0, var@),
        ensures
            out@ == assignments_from(s@, 0, var@),
        decreases n - p,
    {
        let ghost before = out@;
        match assignment_step(&mut out, &v, p, var, &vv, &method) {
            None => {
                break;
            },
            Some(q) => {
                p = q;
            },
        }
    }
    out
}

/// A search from `p` is a search of the text from `p` on, shifted.
pub proof fn lemma_find_from_window(s: Seq<char>, p: int, pat: Seq<char>)
    requires
        0 <= p <= s.len(),
    ensures
        match find_from(s.subrange(p, s.len() as int), 0, pat) {
            Some(k) => find_from(s, p, pat) == Some(k + p),
            None => find_from(s, p, pat) is None,
        },
    decreases s.len() - p,
{
    lemma_find_from_shift(s, p, p, pat);
}

proof fn lemma_find_from_shift(s: Seq<char>, p: int, i: int, pat: Seq<char>)
    requires
        0 <= p <= i <= s.len(),
    ensures
        match find_from(s.subrange(p, s.len() as int), i - p, pat) {
            Some(k) => find_from(s, i, pat) == Some(k + p),
            None => find_from(s, i, pat) is None,
        },
    decreases s.len() - i,
{
    let w = s.subrange(p, s.len() as int);
    if i < s.len() {
        if i + pat.len() <= s.len() {
            assert(w.subrange(i - p, i - p + pat.len()) =~= s.subrange(i, i + pat.len()));
        }
        lemma_find_from_shift(s, p, i + 1, pat);
    }
}


/// The interpolation pass over `s`.
fn interpolation_pass(s: &String) -> (r: String)
    ensures
        r@ == interpolation_copy(s@, 0, false, Seq::empty()),
{
    let v = str_to_chars(s.as_str());
    let n = v.len();
    let mut out = String::new();
    let mut inside = false;
    let mut token = String::new();
    let mut i: usize = 0;
    while i < n
        invariant
            i <= n == v@.len(),
            v@ == s@,
            out@ + interpolation_copy(s@, i as int, inside, token@) == interpolation_copy(
                s@,
                0,
                false,
                Seq::empty(),
            ),
        decreases n - i,
    {
        let c = v[i];
        let ghost before = out@;
        let ghost tok = token@;
        if c == '$' && i + 1 < n && v[i + 1] == '{' {
            push_char(&mut out, c);
            inside = true;
            token = String::new();
            proof {
                assert(before + (seq!['$'] + interpolation_copy(s@, i + 1, true, Seq::empty()))
                    =~= out@ + interpolation_copy(s@, i + 1, true, Seq::empty()));
            }
        } else if c == '{' && inside {
            push_char(&mut out, c);
            proof {
                assert(before + (seq!['{'] + interpolation_copy(s@, i + 1, inside, tok)) =~= out@
                    + interpolation_copy(s@, i + 1, inside, tok));
            }
        } else if c == '}' && inside {
            push_string(&mut out, &token);
            push_char(&mut out, c);
            inside = false;
            token = String::new();
            proof {
                assert(before + (tok + seq!['}'] + interpolation_copy(
                    s@,
                    i + 1,
                    false,
                    Seq::empty(),
                )) =~= out@ + interpolation_copy(s@, i + 1, false, Seq::empty()));
            }
        } else if inside {
            push_char(&mut token, c);
        } else {
            push_char(&mut out, c);
            proof {
                assert(before + (seq![c] + interpolation_copy(s@, i + 1, inside, tok)) =~= out@
                    + interpolation_copy(s@, i + 1, inside, tok));
            }
        }
        i = i + 1;
    }
    proof {
        assert(out@ + Seq::<char>::empty() =~= out@);
    }
    out
}

/// The call pass for the function `func` over `s`.
fn call_pass(s: &String, func: &String) -> (r: String)
    ensures
        r@ == calls_from(s@, 0, func@ + "("@),
{
    let v = str_to_chars(s.as_str());
    let n = v.len();
    let mut pattern = lit(func.as_str());
    push_lit(&mut pattern, "(");
    let pv = str_to_chars(pattern.as_str());
    let mut out = String::new();
    let mut i: usize = 0;
    proof {
        reveal_strlit("(");
    }
    loop
        invariant_except_break
            i <= n == v@.len(),
            v@ == s@,
            pv@ == pattern@,
            pattern@ == func@ + "("@,
            pattern@.len() > 0,
            out@ + calls_from(s@, i as int, pattern@) == calls_from(s@, 0, pattern@),
        ensures
            out@ == calls_from(s@, 0, pattern@),
        decreases n - i,
    {
        proof {
            lemma_find_from_window(s@, i as int, pattern@);
            lemma_find_from(s@, i as int, pattern@);
        }
        let ghost before = out@;
        match find_in_range(&v, i, n, pattern.as_str()) {
            None => {
                let tail = string_from_range(v.as_slice(), i, n);
                push_string(&mut out, &tail);
                break;
            },
            Some(k) => {
                let part = str_to_chars(string_from_range(v.as_slice(), i, k).as_str());
                let prefixed = chars_end_with(&part, "viewModel.");
                let part_text = string_from_chars_vec(&part);
                push_string(&mut out, &part_text);
                if !prefixed {
                    push_lit(&mut out, "viewModel.");
                }
                push_string(&mut out, &pattern);
                proof {
                    let piece = if ends_with(s@.subrange(i as int, k as int), "viewModel."@) {
                        pattern@
                    } else {
                        "viewModel."@ + pattern@
                    };
                    assert(before + (s@.subrange(i as int, k as int) + piece + calls_from(
                        s@,
                        k + pattern@.len(),
                        pattern@,
                    )) =~= out@ + calls_from(s@, k + pattern@.len(), pattern@));
                }
                i = k + pv.len();
            },
        }
    }
    out
}

/// `prefix` followed by `name`.
fn prefixed_name(prefix: &str, name: &String) -> (r: String)
    ensures
        r@ == prefix@ + name@,
{
    let mut r = lit(prefix);
    push_string(&mut r, name);
    r
}

/// An expression inside the ViewModel wrapper, rewritten: assignments to the
/// mutable state become `viewModel.updateX(..)` calls, reads of it
/// `uiState.x`, derived properties `viewModel.p`, and calls of the
/// component's functions `viewModel.f(..)`. Outside the wrapper the
/// expression stays as it is.
pub fn transform_viewmodel_expression(
    expr: &str,
    in_viewmodel_wrapper: bool,
    mutable_vars: &Vec<String>,
    derived_props: &Vec<String>,
    function_names: &Vec<String>,
) -> (r: String)
    requires
        in_viewmodel_wrapper ==> forall|i: int|
            0 <= i < mutable_vars@.len() ==> update_name_ok(#[trigger] mutable_vars@[i]@),
    ensures
        r@ == viewmodel_expression(
            expr@,
            in_viewmodel_wrapper,
            mutable_vars@.map_values(|x: String| x@),
            derived_props@.map_values(|x: String| x@),
            function_names@.map_values(|x: String| x@),
        ),
{
    if !in_viewmodel_wrapper {
        return lit(expr);
    }
    let ghost vars = mutable_vars@.map_values(|x: String| x@);
    let ghost props = derived_props@.map_values(|x: String| x@);
    let ghost funcs = function_names@.map_values(|x: String| x@);
    let mut result = lit(expr);
    let mut k: usize = 0;
    while k < mutable_vars.len()
        invariant
            k <= mutable_vars@.len(),
            vars == mutable_vars@.map_values(|x: String| x@),
            forall|i: int| 0 <= i < mutable_vars@.len() ==> update_name_ok(#[trigger] mutable_vars@[i]@),
            result@ == assignment_passes(expr@, vars.subrange(0, k as int)),
        decreases mutable_vars.len() - k,
    {
        result = assignment_pass(result.as_str(), &mutable_vars[k]);
        proof {
            let s1 = vars.subrange(0, k + 1);
            assert(s1.drop_last() =~= vars.subrange(0, k as int));
            assert(s1.last() == mutable_vars@[k as int]@);
        }
        k = k + 1;
    }
    proof {
        assert(vars.subrange(0, vars.len() as int) =~= vars);
    }
    let ghost s0 = result@;
    k = 0;
    while k < mutable_vars.len()
        invariant
            k <= mutable_vars@.len(),
            vars == mutable_vars@.map_values(|x: String| x@),
            result@ == prefix_passes(s0, vars.subrange(0, k as int), "uiState."@),
        decreases mutable_vars.len() - k,
    {
        let rep = prefixed_name("uiState.", &mutable_vars[k]);
        result = replace_identifier(result.as_str(), mutable_vars[k].as_str(), rep.as_str());
        proof {
            let s1 = vars.subrange(0, k + 1);
            assert(s1.drop_last() =~= vars.subrange(0, k as int));
            assert(s1.last() == mutable_vars@[k as int]@);
        }
        k = k + 1;
    }
    proof {
        assert(vars.subrange(0, vars.len() as int) =~= vars);
    }
    let ghost s0b = result@;
    k = 0;
    while k < derived_props.len()
        invariant
            k <= derived_props@.len(),
            props == derived_props@.map_values(|x: String| x@),
            result@ == prefix_passes(s0b, props.subrange(0, k as int), "viewModel."@),
        decreases derived_props.len() - k,
    {
        let rep = prefixed_name("viewModel.", &derived_props[k]);
        result = replace_identifier(result.as_str(), derived_props[k].as_str(), rep.as_str());
        proof {
            let s1 = props.subrange(0, k + 1);
            assert(s1.drop_last() =~= props.subrange(0, k as int));
            assert(s1.last() == derived_props@[k as int]@);
        }
        k = k + 1;
    }
    proof {
        assert(props.subrange(0, props.len() as int) =~= props);
    }
    result = interpolation_pass(&result);
    let ghost s2 = result@;
    k = 0;
    while k < function_names.len()
        invariant
            k <= function_names@.len(),
            funcs == function_names@.map_values(|x: String| x@),
            result@ == call_passes(s2, funcs.subrange(0, k as int)),
        decreases function_names.len() - k,
    {
        result = call_pass(&result, &function_names[k]);
        proof {
            let s1 = funcs.subrange(0, k + 1);
            assert(s1.drop_last() =~= funcs.subrange(0, k as int));
            assert(s1.last() == function_names@[k as int]@);
        }
        k = k + 1;
    }
    proof {
        assert(funcs.subrange(0, funcs.len() as int) =~= funcs);
    }
    result
}

} // verus!
