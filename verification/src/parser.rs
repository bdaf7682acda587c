//! Parser for Whitehall source files.
//!
//! The parser reads the (trimmed) source as a sequence of characters; `pos` is
//! an index into that sequence.

use vstd::prelude::*;

use crate::ast::{
    ClassDeclaration, Component, ComponentProp, ConstructorDeclaration, ElseIfBranch,
    ForLoopBlock, FunctionDeclaration, IfElseBlock, Import, KotlinBlock, KotlinBlockType,
    LifecycleHook, Markup, PropDeclaration, PropValue, PropertyDeclaration, StateDeclaration,
    WhenBlock, WhenBranch, WhitehallFile,
};
use crate::markup_grammar::{
    after_elses, after_markups, after_props, after_whens, block_at, boolean_before, brace_scan, children_at,
    component_at, control_at, else_at, else_ifs_view, for_at, for_head, if_at, lemma_after_markups, opt_markups_view, when_at,
    when_branches_at, whens_view, lemma_markups_view_concat, lemma_text_view, markup_view, markups_view, pieces_view, prop_at,
    prop_name, prop_view, props_at, props_view, root_markup_at, roots_at, string_scan, text_only,
    MarkupView, PropView,
};
use crate::text::{
    decimal, is_alphabetic, is_alphanumeric, is_ascii_digit, is_whitespace, lit, lit_at,
    occurs_at, push_char, push_decimal, push_lit, push_string, spec_is_ascii_digit,
    spec_is_whitespace, spec_trim, str_eq, str_to_chars, string_from_range, trim_str, trimmed_range,
    unicode_is_alphanumeric, unicode_is_alphabetic,
};

verus! {

// ===================== Positions and error messages =====================

/// Line and column (both from 1) of index `n` in `s`.
pub open spec fn line_col(s: Seq<char>, n: int) -> (int, int)
    decreases n,
{
    if n <= 0 {
        (1, 1)
    } else {
        let (l, c) = line_col(s, n - 1);
        if s[n - 1] == '\n' {
            (l + 1, 1)
        } else {
            (l, c + 1)
        }
    }
}

pub proof fn lemma_line_col_bounds(s: Seq<char>, n: int)
    requires
        0 <= n,
    ensures
        1 <= line_col(s, n).0 <= n + 1,
        1 <= line_col(s, n).1 <= n + 1,
    decreases n,
{
    if n > 0 {
        lemma_line_col_bounds(s, n - 1);
    }
}

/// Index of the first `'\n'` at or after `i` (or the length of `s`).
pub open spec fn next_newline(s: Seq<char>, i: int) -> int
    decreases s.len() - i,
{
    if i >= s.len() || s[i] == '\n' {
        i
    } else {
        next_newline(s, i + 1)
    }
}

pub proof fn lemma_next_newline(s: Seq<char>, i: int)
    requires
        0 <= i <= s.len(),
    ensures
        i <= next_newline(s, i) <= s.len(),
        next_newline(s, i) < s.len() ==> s[next_newline(s, i)] == '\n',
        forall|j: int| i <= j < next_newline(s, i) ==> s[j] != '\n',
    decreases s.len() - i,
{
    if i < s.len() && s[i] != '\n' {
        lemma_next_newline(s, i + 1);
    }
}

/// Start index of the line with 0-based number `k`, when there are at least
/// `k` newlines.
pub open spec fn line_start(s: Seq<char>, k: nat) -> Option<int>
    decreases k,
{
    if k == 0 {
        Some(0)
    } else {
        match line_start(s, (k - 1) as nat) {
            Some(st) => if next_newline(s, st) < s.len() {
                Some(next_newline(s, st) + 1)
            } else {
                None
            },
            None => None,
        }
    }
}

/// The line with 1-based number `n` as `str::lines` yields it (without its line
/// ending, and without a `'\r'` before a `'\n'`), if there is one.
pub open spec fn source_line(s: Seq<char>, n: int) -> Option<Seq<char>> {
    if n < 1 {
        None
    } else {
        match line_start(s, (n - 1) as nat) {
            Some(st) => if st < s.len() {
                let e = next_newline(s, st);
                if e < s.len() && e > st && s[e - 1] == '\r' {
                    Some(s.subrange(st, e - 1))
                } else {
                    Some(s.subrange(st, e))
                }
            } else {
                None
            },
            None => None,
        }
    }
}

/// `n` spaces.
pub open spec fn spaces(n: nat) -> Seq<char>
    decreases n,
{
    if n == 0 {
        Seq::empty()
    } else {
        spaces((n - 1) as nat).push(' ')
    }
}

/// `d` right-aligned in a field of width 3.
pub open spec fn pad3(d: Seq<char>) -> Seq<char> {
    if d.len() < 3 {
        spaces((3 - d.len()) as nat) + d
    } else {
        d
    }
}

/// A Cargo-style error message for line `line`, column `col` of `s`.
pub open spec fn error_text(
    s: Seq<char>,
    line: int,
    col: int,
    message: Seq<char>,
    help: Option<Seq<char>>,
) -> Seq<char> {
    let head = message + "\n"@ + " --> line "@ + decimal(line as nat) + ":"@ + decimal(col as nat)
        + "\n"@ + "  |\n"@;
    let src = match source_line(s, line) {
        Some(l) => pad3(decimal(line as nat)) + " | "@ + l + "\n"@ + "  | "@ + spaces(
            (col - 1) as nat,
        ) + "^^^"@ + "\n"@,
        None => Seq::empty(),
    };
    let tail = match help {
        Some(h) => "  |\n"@ + "  = help: "@ + h + "\n"@,
        None => Seq::empty(),
    };
    head + src + tail
}

/// The error message `message` for index `pos` of `s`.
pub open spec fn error_at(s: Seq<char>, pos: int, message: Seq<char>) -> Seq<char> {
    let n = if pos < s.len() {
        pos
    } else {
        s.len() as int
    };
    error_text(s, line_col(s, n).0, line_col(s, n).1, message, None)
}

fn push_spaces(out: &mut String, n: usize)
    ensures
        final(out)@ == old(out)@ + spaces(n as nat),
{
    let mut i: usize = 0;
    while i < n
        invariant
            i <= n,
            out@ == old(out)@ + spaces(i as nat),
        decreases n - i,
    {
        push_char(out, ' ');
        i = i + 1;
    }
}

fn decimal_string(n: usize) -> (r: String)
    ensures
        r@ == decimal(n as nat),
{
    let mut r = String::new();
    push_decimal(&mut r, n);
    r
}

/// Parses Whitehall source.
pub struct Parser {
    input: Vec<char>,
    pos: usize,
}

impl Parser {
    /// The characters being parsed.
    pub closed spec fn text(&self) -> Seq<char> {
        self.input@
    }

    /// The current index.
    pub closed spec fn at(&self) -> int {
        self.pos as int
    }

    /// The current index is within the text (which has fewer than `usize::MAX`
    /// characters).
    pub closed spec fn wf(&self) -> bool {
        &&& self.pos <= self.input@.len()
        &&& self.input@.len() < usize::MAX
    }

    /// A parser at the start of `input` with surrounding white space removed.
    pub fn new(input: &str) -> (p: Self)
        requires
            input@.len() < usize::MAX,
        ensures
            p.wf(),
            p.text() == spec_trim(input@),
            p.at() == 0,
    {
        let t = trim_str(input);
        proof {
            crate::text::lemma_trim_len(input@);
        }
        Parser { input: str_to_chars(t.as_str()), pos: 0 }
    }

    /// Line and column (from 1) of index `pos`.
    fn pos_to_line_col(&self, pos: usize) -> (r: (usize, usize))
        requires
            self.input@.len() < usize::MAX,
        ensures
            ({
                let n = if pos < self.input@.len() {
                    pos as int
                } else {
                    self.input@.len() as int
                };
                r.0 == line_col(self.input@, n).0 && r.1 == line_col(self.input@, n).1
            }),
    {
        let n = if pos < self.input.len() {
            pos
        } else {
            self.input.len()
        };
        let mut line: usize = 1;
        let mut col: usize = 1;
        let mut i: usize = 0;
        while i < n
            invariant
                n <= self.input@.len(),
                self.input@.len() < usize::MAX,
                i <= n,
                line == line_col(self.input@, i as int).0,
                col == line_col(self.input@, i as int).1,
            decreases n - i,
        {
            proof {
                lemma_line_col_bounds(self.input@, i as int);
            }
            if self.input[i] == '\n' {
                line = line + 1;
                col = 1;
            } else {
                col = col + 1;
            }
            i = i + 1;
        }
        (line, col)
    }

    /// The message `message` with the line and column of the current index.
    fn error_at_pos(&self, message: &str) -> (r: String)
        requires
            self.wf(),
        ensures
            r@ == error_at(self.input@, self.pos as int, message@),
    {
        let (line, col) = self.pos_to_line_col(self.pos);
        proof {
            lemma_line_col_bounds(
                self.input@,
                if self.pos < self.input@.len() {
                    self.pos as int
                } else {
                    self.input@.len() as int
                },
            );
        }
        let m = lit(message);
        self.format_error(line, col, &m, None)
    }

    /// The line with 1-based number `line_num` as `str::lines` yields it.
    fn get_source_line(&self, line_num: usize) -> (r: Option<String>)
        requires
            line_num >= 1,
        ensures
            match r {
                Some(l) => source_line(self.input@, line_num as int) == Some(l@),
                None => source_line(self.input@, line_num as int) is None,
            },
    {
        let mut start: usize = 0;
        let mut k: usize = 0;
        while k < line_num - 1
            invariant
                k <= line_num - 1,
                start <= self.input@.len(),
                line_start(self.input@, k as nat) == Some(start as int),
            decreases line_num - 1 - k,
        {
            let mut e = start;
            while e < self.input.len() && self.input[e] != '\n'
                invariant
                    start <= e <= self.input@.len(),
                    next_newline(self.input@, start as int) == next_newline(self.input@, e as int),
                decreases self.input.len() - e,
            {
                e = e + 1;
            }
            if e >= self.input.len() {
                proof {
                    assert(next_newline(self.input@, start as int) == e);
                    assert(line_start(self.input@, (k + 1) as nat) is None);
                    lemma_line_start_none(self.input@, (k + 1) as nat, (line_num - 1) as nat);
                    assert(line_start(self.input@, ((line_num as int) - 1) as nat) is None);
                    assert(source_line(self.input@, line_num as int) is None);
                }
                return None;
            }
            start = e + 1;
            k = k + 1;
        }
        if start >= self.input.len() {
            return None;
        }
        let mut e = start;
        while e < self.input.len() && self.input[e] != '\n'
            invariant
                start <= e <= self.input@.len(),
                next_newline(self.input@, start as int) == next_newline(self.input@, e as int),
            decreases self.input.len() - e,
        {
            e = e + 1;
        }
        if e < self.input.len() && e > start && self.input[e - 1] == '\r' {
            Some(string_from_range(self.input.as_slice(), start, e - 1))
        } else {
            Some(string_from_range(self.input.as_slice(), start, e))
        }
    }

    /// A Cargo-style error: the message, the position, the source line with a
    /// pointer under the column, and an optional help line.
    #[verifier::rlimit(60)]
    fn format_error(&self, line: usize, col: usize, message: &String, help: Option<&String>) -> (r:
        String)
        requires
            line >= 1,
            col >= 1,
        ensures
            r@ == error_text(
                self.input@,
                line as int,
                col as int,
                message@,
                match help {
                    Some(h) => Some(h@),
                    None => None,
                },
            ),
    {
        let mut error = String::new();
        push_string(&mut error, message);
        push_lit(&mut error, "\n");
        push_lit(&mut error, " --> line ");
        push_decimal(&mut error, line);
        push_lit(&mut error, ":");
        push_decimal(&mut error, col);
        push_lit(&mut error, "\n");
        push_lit(&mut error, "  |\n");
        let ghost head = error@;
        if let Some(source_line) = self.get_source_line(line) {
            let d = decimal_string(line);
            if d.as_str().unicode_len() < 3 {
                push_spaces(&mut error, 3 - d.as_str().unicode_len());
            }
            push_string(&mut error, &d);
            push_lit(&mut error, " | ");
            push_string(&mut error, &source_line);
            push_lit(&mut error, "\n");
            push_lit(&mut error, "  | ");
            push_spaces(&mut error, col - 1);
            push_lit(&mut error, "^^^");
            push_lit(&mut error, "\n");
        }
        if let Some(help_text) = help {
            push_lit(&mut error, "  |\n");
            push_lit(&mut error, "  = help: ");
            push_string(&mut error, help_text);
            push_lit(&mut error, "\n");
        }
        error
    }
}

pub proof fn lemma_line_start_none(s: Seq<char>, k: nat, m: nat)
    requires
        k <= m,
        line_start(s, k) is None,
    ensures
        line_start(s, m) is None,
    decreases m - k,
{
    if k < m {
        lemma_line_start_none(s, k + 1, m);
    }
}


// ===================== Scanning =====================

/// The character at `i`, if any.
pub open spec fn char_at(s: Seq<char>, i: int) -> Option<char> {
    if 0 <= i < s.len() {
        Some(s[i])
    } else {
        None
    }
}

/// Index after the white space, `//` comments and `/* */` comments at `i`.
pub open spec fn skip_trivia(s: Seq<char>, i: int) -> int
    decreases s.len() - i,
{
    let j = crate::text::skip_ws_from(s, i, s.len() as int);
    if j < i || j > s.len() {
        i
    } else if char_at(s, j) == Some('/') && char_at(s, j + 1) == Some('/') {
        let k = line_comment_end(s, j + 2);
        if k <= i || k > s.len() {
            j
        } else {
            skip_trivia(s, k)
        }
    } else if char_at(s, j) == Some('/') && char_at(s, j + 1) == Some('*') {
        let k = block_comment_end(s, j + 2);
        if k <= i || k > s.len() {
            j
        } else {
            skip_trivia(s, k)
        }
    } else {
        j
    }
}

/// Index after the `'\n'` ending a line comment whose text starts at `i` (or
/// the end).
pub open spec fn line_comment_end(s: Seq<char>, i: int) -> int
    decreases s.len() - i,
{
    if i >= s.len() {
        s.len() as int
    } else if s[i] == '\n' {
        i + 1
    } else {
        line_comment_end(s, i + 1)
    }
}

/// Index after the `*/` ending a block comment whose text starts at `i` (or
/// the end).
pub open spec fn block_comment_end(s: Seq<char>, i: int) -> int
    decreases s.len() - i,
{
    if i >= s.len() {
        s.len() as int
    } else if s[i] == '*' && char_at(s, i + 1) == Some('/') {
        i + 2
    } else {
        block_comment_end(s, i + 1)
    }
}

pub proof fn lemma_line_comment_end(s: Seq<char>, i: int)
    requires
        0 <= i <= s.len(),
    ensures
        i <= line_comment_end(s, i) <= s.len(),
    decreases s.len() - i,
{
    if i < s.len() && s[i] != '\n' {
        lemma_line_comment_end(s, i + 1);
    }
}

pub proof fn lemma_block_comment_end(s: Seq<char>, i: int)
    requires
        0 <= i <= s.len(),
    ensures
        i <= block_comment_end(s, i) <= s.len(),
    decreases s.len() - i,
{
    if i < s.len() && !(s[i] == '*' && char_at(s, i + 1) == Some('/')) {
        lemma_block_comment_end(s, i + 1);
    }
}

pub proof fn lemma_skip_trivia(s: Seq<char>, i: int)
    requires
        0 <= i <= s.len(),
    ensures
        i <= skip_trivia(s, i) <= s.len(),
    decreases s.len() - i,
{
    crate::text::lemma_skip_ws_bounds(s, i, s.len() as int);
    let j = crate::text::skip_ws_from(s, i, s.len() as int);
    if char_at(s, j) == Some('/') && char_at(s, j + 1) == Some('/') {
        lemma_line_comment_end(s, j + 2);
        let k = line_comment_end(s, j + 2);
        if k > i {
            lemma_skip_trivia(s, k);
        }
    } else if char_at(s, j) == Some('/') && char_at(s, j + 1) == Some('*') {
        lemma_block_comment_end(s, j + 2);
        let k = block_comment_end(s, j + 2);
        if k > i {
            lemma_skip_trivia(s, k);
        }
    }
}

/// End of the run of alphanumeric characters at `i`.
pub open spec fn ident_end(s: Seq<char>, i: int) -> int
    decreases s.len() - i,
{
    if 0 <= i < s.len() && unicode_is_alphanumeric(s[i]) {
        ident_end(s, i + 1)
    } else {
        i
    }
}

pub proof fn lemma_ident_end(s: Seq<char>, i: int)
    requires
        0 <= i <= s.len(),
    ensures
        i <= ident_end(s, i) <= s.len(),
    decreases s.len() - i,
{
    if i < s.len() && unicode_is_alphanumeric(s[i]) {
        lemma_ident_end(s, i + 1);
    }
}

/// Whether `word` can be consumed at `i`: it occurs there and is followed by
/// white space or the end (`@prop`, `get` and `constructor` need no separator).
pub open spec fn word_at(s: Seq<char>, i: int, word: Seq<char>) -> bool {
    &&& occurs_at(s, i, word)
    &&& (word == "@prop"@ || word == "get"@ || word == "constructor"@ || i + word.len()
        >= s.len() || spec_is_whitespace(s[i + word.len()]))
}

/// The keyword at `i`, as `peek_word` recognizes it.
pub open spec fn peek_word_at(s: Seq<char>, i: int) -> Option<Seq<char>> {
    if occurs_at(s, i, "import "@) {
        Some("import"@)
    } else if occurs_at(s, i, "var "@) || occurs_at(s, i, "var\n"@) {
        Some("var"@)
    } else if occurs_at(s, i, "val "@) || occurs_at(s, i, "val\n"@) {
        Some("val"@)
    } else if occurs_at(s, i, "private "@) {
        Some("private"@)
    } else if occurs_at(s, i, "protected "@) {
        Some("protected"@)
    } else if occurs_at(s, i, "public "@) {
        Some("public"@)
    } else if occurs_at(s, i, "@prop"@) {
        Some("@prop"@)
    } else if occurs_at(s, i, "fun "@) {
        Some("fun"@)
    } else if occurs_at(s, i, "class "@) {
        Some("class"@)
    } else if occurs_at(s, i, "object "@) {
        Some("object"@)
    } else if occurs_at(s, i, "suspend "@) {
        Some("suspend"@)
    } else if occurs_at(s, i, "constructor"@) {
        Some("constructor"@)
    } else if occurs_at(s, i, "get"@) {
        Some("get"@)
    } else if occurs_at(s, i, "$onMount"@) {
        Some("$onMount"@)
    } else if occurs_at(s, i, "$onDispose"@) {
        Some("$onDispose"@)
    } else {
        None
    }
}

/// The text of the error for an unexpected character `found` (or the end).
pub open spec fn expected_message(expected: char, found: Option<char>) -> Seq<char> {
    match found {
        Some(c) => "Expected '"@ + seq![expected] + "', found '"@ + seq![c] + "'"@,
        None => "Expected '"@ + seq![expected] + "', found EOF"@,
    }
}

/// End of the text of `parse_until_char(delim)` from `i` with the given
/// nesting depths: the first `delim` at depth zero, or the end.
pub open spec fn until_char_end(s: Seq<char>, i: int, delim: char, p: int, b: int, k: int) -> int
    decreases s.len() - i,
{
    if i < 0 || i >= s.len() {
        i
    } else if s[i] == delim && p == 0 && b == 0 && k == 0 {
        i
    } else {
        let c = s[i];
        let p2 = if c == '(' {
            p + 1
        } else if c == ')' && p > 0 {
            p - 1
        } else {
            p
        };
        let b2 = if c == '{' {
            b + 1
        } else if c == '}' && b > 0 {
            b - 1
        } else {
            b
        };
        let k2 = if c == '[' {
            k + 1
        } else if c == ']' && k > 0 {
            k - 1
        } else {
            k
        };
        until_char_end(s, i + 1, delim, p2, b2, k2)
    }
}

pub proof fn lemma_until_char_end(s: Seq<char>, i: int, delim: char, p: int, b: int, k: int)
    requires
        0 <= i <= s.len(),
    ensures
        i <= until_char_end(s, i, delim, p, b, k) <= s.len(),
    decreases s.len() - i,
{
    if i < s.len() && !(s[i] == delim && p == 0 && b == 0 && k == 0) {
        let c = s[i];
        let p2 = if c == '(' {
            p + 1
        } else if c == ')' && p > 0 {
            p - 1
        } else {
            p
        };
        let b2 = if c == '{' {
            b + 1
        } else if c == '}' && b > 0 {
            b - 1
        } else {
            b
        };
        let k2 = if c == '[' {
            k + 1
        } else if c == ']' && k > 0 {
            k - 1
        } else {
            k
        };
        lemma_until_char_end(s, i + 1, delim, p2, b2, k2);
    }
}

/// Index of the first `delim` at or after `i` (or the end).
pub open spec fn find_char(s: Seq<char>, i: int, delim: char) -> int
    decreases s.len() - i,
{
    if i < 0 || i >= s.len() || s[i] == delim {
        i
    } else {
        find_char(s, i + 1, delim)
    }
}

pub proof fn lemma_find_char(s: Seq<char>, i: int, delim: char)
    requires
        0 <= i <= s.len(),
    ensures
        i <= find_char(s, i, delim) <= s.len(),
        find_char(s, i, delim) < s.len() ==> s[find_char(s, i, delim)] == delim,
        forall|j: int| i <= j < find_char(s, i, delim) ==> s[j] != delim,
    decreases s.len() - i,
{
    if i < s.len() && s[i] != delim {
        lemma_find_char(s, i + 1, delim);
    }
}

impl Parser {
    /// The character at the current index.
    fn peek_char(&self) -> (r: Option<char>)
        requires
            self.wf(),
        ensures
            r == char_at(self.input@, self.pos as int),
    {
        if self.pos < self.input.len() {
            Some(self.input[self.pos])
        } else {
            None
        }
    }

    /// The character `offset` places after the current index.
    fn peek_ahead(&self, offset: usize) -> (r: Option<char>)
        requires
            self.wf(),
        ensures
            r == char_at(self.input@, self.pos + offset),
    {
        if offset < self.input.len() - self.pos {
            Some(self.input[self.pos + offset])
        } else {
            None
        }
    }

    /// Whether `s` occurs at the current index.
    fn check_string_ahead(&self, s: &str) -> (r: bool)
        requires
            self.wf(),
        ensures
            r == occurs_at(self.input@, self.pos as int, s@),
    {
        lit_at(self.input.as_slice(), self.pos, s)
    }

    /// Whether `s` occurs at the current index.
    fn starts_with(&self, s: &str) -> (r: bool)
        requires
            self.wf(),
        ensures
            r == occurs_at(self.input@, self.pos as int, s@),
    {
        lit_at(self.input.as_slice(), self.pos, s)
    }

    /// Moves past the current character (if any).
    fn advance_char(&mut self)
        requires
            old(self).wf(),
        ensures
            final(self).wf(),
            final(self).input == old(self).input,
            final(self).pos == if old(self).pos < old(self).input@.len() {
                old(self).pos + 1
            } else {
                old(self).pos as int
            },
    {
        if self.pos < self.input.len() {
            self.pos = self.pos + 1;
        }
    }

    /// Consumes `s` if it occurs at the current index.
    fn consume_str(&mut self, s: &str) -> (r: bool)
        requires
            old(self).wf(),
        ensures
            final(self).wf(),
            final(self).input == old(self).input,
            r == occurs_at(old(self).input@, old(self).pos as int, s@),
            final(self).pos == if r {
                old(self).pos + s@.len()
            } else {
                old(self).pos as int
            },
    {
        if self.starts_with(s) {
            self.pos = self.pos + s.unicode_len();
            true
        } else {
            false
        }
    }

    /// Consumes `word` if it occurs at the current index followed by white space
    /// or the end (`@prop`, `get` and `constructor` need no separator).
    fn consume_word(&mut self, word: &str) -> (r: bool)
        requires
            old(self).wf(),
        ensures
            final(self).wf(),
            final(self).input == old(self).input,
            r == word_at(old(self).input@, old(self).pos as int, word@),
            final(self).pos == if r {
                old(self).pos + word@.len()
            } else {
                old(self).pos as int
            },
    {
        if self.starts_with(word) {
            let next_pos = self.pos + word.unicode_len();
            if str_eq(word, "@prop") || str_eq(word, "get") || str_eq(word, "constructor") {
                self.pos = next_pos;
                return true;
            }
            if next_pos < self.input.len() {
                if is_whitespace(self.input[next_pos]) {
                    self.pos = next_pos;
                    return true;
                }
            } else {
                self.pos = next_pos;
                return true;
            }
        }
        false
    }

    /// Consumes `word` like `consume_word`, or fails with `Expected '<word>'`.
    fn expect_word(&mut self, word: &str) -> (r: Result<(), String>)
        requires
            old(self).wf(),
        ensures
            final(self).wf(),
            final(self).input == old(self).input,
            r is Ok == word_at(old(self).input@, old(self).pos as int, word@),
            r is Ok ==> final(self).pos == old(self).pos + word@.len(),
            r matches Err(e) ==> final(self).pos == old(self).pos && e@ == error_at(
                old(self).input@,
                old(self).pos as int,
                "Expected '"@ + word@ + "'"@,
            ),
    {
        if !self.consume_word(word) {
            let mut m = lit("Expected '");
            push_lit(&mut m, word);
            push_lit(&mut m, "'");
            Err(self.error_at_pos(m.as_str()))
        } else {
            Ok(())
        }
    }

    /// Consumes `expected` if it is the current character, or fails naming what
    /// was found.
    fn expect_char(&mut self, expected: char) -> (r: Result<(), String>)
        requires
            old(self).wf(),
        ensures
            final(self).wf(),
            final(self).input == old(self).input,
            r is Ok == (char_at(old(self).input@, old(self).pos as int) == Some(expected)),
            r is Ok ==> final(self).pos == old(self).pos + 1,
            r matches Err(e) ==> final(self).pos == old(self).pos && e@ == error_at(
                old(self).input@,
                old(self).pos as int,
                expected_message(expected, char_at(old(self).input@, old(self).pos as int)),
            ),
    {
        match self.peek_char() {
            Some(ch) => {
                if ch == expected {
                    self.pos = self.pos + 1;
                    Ok(())
                } else {
                    let mut m = lit("Expected '");
                    push_char(&mut m, expected);
                    push_lit(&mut m, "', found '");
                    push_char(&mut m, ch);
                    push_lit(&mut m, "'");
                    Err(self.error_at_pos(m.as_str()))
                }
            },
            None => {
                let mut m = lit("Expected '");
                push_char(&mut m, expected);
                push_lit(&mut m, "', found EOF");
                Err(self.error_at_pos(m.as_str()))
            },
        }
    }

    /// Moves past white space characters.
    fn skip_ws_chars(&mut self)
        requires
            old(self).wf(),
        ensures
            final(self).wf(),
            final(self).input == old(self).input,
            final(self).pos == crate::text::skip_ws_from(
                old(self).input@,
                old(self).pos as int,
                old(self).input@.len() as int,
            ),
    {
        let ghost s = self.input@;
        while self.pos < self.input.len() && is_whitespace(self.input[self.pos])
            invariant
                self.wf(),
                self.input == old(self).input,
                s == self.input@,
                crate::text::skip_ws_from(s, self.pos as int, s.len() as int)
                    == crate::text::skip_ws_from(s, old(self).pos as int, s.len() as int),
            decreases s.len() - self.pos,
        {
            self.pos = self.pos + 1;
        }
    }

    /// Moves past the text of a line comment, up to and including its `'\n'`.
    fn skip_line_comment(&mut self)
        requires
            old(self).wf(),
        ensures
            final(self).wf(),
            final(self).input == old(self).input,
            final(self).pos == line_comment_end(old(self).input@, old(self).pos as int),
    {
        let ghost s = self.input@;
        while self.pos < self.input.len() && self.input[self.pos] != '\n'
            invariant
                self.wf(),
                self.input == old(self).input,
                s == self.input@,
                line_comment_end(s, self.pos as int) == line_comment_end(s, old(self).pos as int),
            decreases s.len() - self.pos,
        {
            self.pos = self.pos + 1;
        }
        if self.pos < self.input.len() {
            self.pos = self.pos + 1;
        }
    }

    /// Moves past the text of a block comment, up to and including its `*/`.
    fn skip_block_comment(&mut self)
        requires
            old(self).wf(),
        ensures
            final(self).wf(),
            final(self).input == old(self).input,
            final(self).pos == block_comment_end(old(self).input@, old(self).pos as int),
    {
        let ghost s = self.input@;
        while self.pos < self.input.len() && !(self.input[self.pos] == '*' && self.peek_ahead(1)
            == Some('/'))
            invariant
                self.wf(),
                self.input == old(self).input,
                s == self.input@,
                block_comment_end(s, self.pos as int) == block_comment_end(s, old(self).pos as int),
            decreases s.len() - self.pos,
        {
            self.pos = self.pos + 1;
        }
        if self.pos < self.input.len() {
            self.pos = self.pos + 2;
        }
    }

    /// Moves past white space and comments.
    fn skip_whitespace(&mut self)
        requires
            old(self).wf(),
        ensures
            final(self).wf(),
            final(self).input == old(self).input,
            final(self).pos == skip_trivia(old(self).input@, old(self).pos as int),
            old(self).pos <= final(self).pos,
    {
        let ghost s = self.input@;
        proof {
            lemma_skip_trivia(s, self.pos as int);
        }
        loop
            invariant_except_break
                self.wf(),
                self.input == old(self).input,
                s == self.input@,
                skip_trivia(s, self.pos as int) == skip_trivia(s, old(self).pos as int),
            ensures
                self.wf(),
                self.input == old(self).input,
                self.pos == skip_trivia(s, old(self).pos as int),
            decreases s.len() - self.pos,
        {
            let start_pos = self.pos;
            self.skip_ws_chars();
            let j = self.pos;
            proof {
                crate::text::lemma_skip_ws_bounds(s, start_pos as int, s.len() as int);
            }
            if self.peek_char() == Some('/') && self.peek_ahead(1) == Some('/') {
                self.pos = self.pos + 2;
                proof {
                    lemma_line_comment_end(s, j + 2);
                }
                self.skip_line_comment();
            } else if self.peek_char() == Some('/') && self.peek_ahead(1) == Some('*') {
                self.pos = self.pos + 2;
                proof {
                    lemma_block_comment_end(s, j + 2);
                }
                self.skip_block_comment();
            } else {
                assert(skip_trivia(s, start_pos as int) == j as int);
                break;
            }
            assert(self.pos > start_pos);
        }
    }

    /// Reads a run of alphanumeric characters (at least one).
    fn parse_identifier(&mut self) -> (r: Result<String, String>)
        requires
            old(self).wf(),
        ensures
            final(self).wf(),
            final(self).input == old(self).input,
            ({
                let s = old(self).input@;
                let p = old(self).pos as int;
                let e = ident_end(s, p);
                match r {
                    Ok(id) => e > p && id@ == s.subrange(p, e) && final(self).pos == e,
                    Err(m) => e == p && final(self).pos == p && m@ == error_at(
                        s,
                        p,
                        "Expected identifier"@,
                    ),
                }
            }),
    {
        let start = self.pos;
        let ghost s = self.input@;
        while self.pos < self.input.len() && is_alphanumeric(self.input[self.pos])
            invariant
                self.wf(),
                self.input == old(self).input,
                s == self.input@,
                start <= self.pos,
                start == old(self).pos,
                ident_end(s, self.pos as int) == ident_end(s, start as int),
            decreases s.len() - self.pos,
        {
            self.pos = self.pos + 1;
        }
        if start == self.pos {
            return Err(self.error_at_pos("Expected identifier"));
        }
        Ok(string_from_range(self.input.as_slice(), start, self.pos))
    }

    /// Reads up to the first `delimiter` outside `()`, `{}` and `[]` (or the
    /// end), without consuming it.
    fn parse_until_char(&mut self, delimiter: char) -> (r: Result<String, String>)
        requires
            old(self).wf(),
        ensures
            final(self).wf(),
            final(self).input == old(self).input,
            ({
                let s = old(self).input@;
                let p = old(self).pos as int;
                let e = until_char_end(s, p, delimiter, 0, 0, 0);
                r matches Ok(t) && t@ == s.subrange(p, e) && final(self).pos == e
            }),
            old(self).pos <= final(self).pos,
    {
        let start = self.pos;
        let ghost s = self.input@;
        let mut paren_depth: usize = 0;
        let mut brace_depth: usize = 0;
        let mut bracket_depth: usize = 0;
        while self.pos < self.input.len() && !(self.input[self.pos] == delimiter && paren_depth == 0
            && brace_depth == 0 && bracket_depth == 0)
            invariant
                self.wf(),
                self.input == old(self).input,
                s == self.input@,
                start == old(self).pos,
                start <= self.pos,
                paren_depth <= self.pos,
                brace_depth <= self.pos,
                bracket_depth <= self.pos,
                until_char_end(
                    s,
                    self.pos as int,
                    delimiter,
                    paren_depth as int,
                    brace_depth as int,
                    bracket_depth as int,
                ) == until_char_end(s, start as int, delimiter, 0, 0, 0),
            decreases s.len() - self.pos,
        {
            let ch = self.input[self.pos];
            if ch == '(' {
                paren_depth = paren_depth + 1;
            } else if ch == ')' {
                if paren_depth > 0 {
                    paren_depth = paren_depth - 1;
                }
            }
            if ch == '{' {
                brace_depth = brace_depth + 1;
            } else if ch == '}' {
                if brace_depth > 0 {
                    brace_depth = brace_depth - 1;
                }
            }
            if ch == '[' {
                bracket_depth = bracket_depth + 1;
            } else if ch == ']' {
                if bracket_depth > 0 {
                    bracket_depth = bracket_depth - 1;
                }
            }
            self.pos = self.pos + 1;
        }
        Ok(string_from_range(self.input.as_slice(), start, self.pos))
    }

    /// Reads up to the first `delimiter` (or the end), without consuming it.
    fn parse_text_until(&mut self, delimiter: char) -> (r: Result<String, String>)
        requires
            old(self).wf(),
        ensures
            final(self).wf(),
            final(self).input == old(self).input,
            ({
                let s = old(self).input@;
                let p = old(self).pos as int;
                let e = find_char(s, p, delimiter);
                r matches Ok(t) && t@ == s.subrange(p, e) && final(self).pos == e
            }),
    {
        let start = self.pos;
        let ghost s = self.input@;
        while self.pos < self.input.len() && self.input[self.pos] != delimiter
            invariant
                self.wf(),
                self.input == old(self).input,
                s == self.input@,
                start == old(self).pos,
                start <= self.pos,
                find_char(s, self.pos as int, delimiter) == find_char(s, start as int, delimiter),
            decreases s.len() - self.pos,
        {
            self.pos = self.pos + 1;
        }
        Ok(string_from_range(self.input.as_slice(), start, self.pos))
    }

    /// The keyword at the current index, if it is one that the parser dispatches on.
    fn peek_word(&self) -> (r: Option<&'static str>)
        requires
            self.wf(),
        ensures
            match r {
                Some(w) => peek_word_at(self.input@, self.pos as int) == Some(w@),
                None => peek_word_at(self.input@, self.pos as int) is None,
            },
    {
        if self.starts_with("import ") {
            Some("import")
        } else if self.starts_with("var ") || self.starts_with("var\n") {
            Some("var")
        } else if self.starts_with("val ") || self.starts_with("val\n") {
            Some("val")
        } else if self.starts_with("private ") {
            Some("private")
        } else if self.starts_with("protected ") {
            Some("protected")
        } else if self.starts_with("public ") {
            Some("public")
        } else if self.starts_with("@prop") {
            Some("@prop")
        } else if self.starts_with("fun ") {
            Some("fun")
        } else if self.starts_with("class ") {
            Some("class")
        } else if self.starts_with("object ") {
            Some("object")
        } else if self.starts_with("suspend ") {
            Some("suspend")
        } else if self.starts_with("constructor") {
            Some("constructor")
        } else if self.starts_with("get") {
            Some("get")
        } else if self.starts_with("$onMount") {
            Some("$onMount")
        } else if self.starts_with("$onDispose") {
            Some("$onDispose")
        } else {
            None
        }
    }

    /// Whether the keyword at the current index is `w`.
    fn peek_word_is(&self, w: &str) -> (r: bool)
        requires
            self.wf(),
        ensures
            r == (peek_word_at(self.input@, self.pos as int) == Some(w@)),
    {
        match self.peek_word() {
            Some(x) => str_eq(x, w),
            None => false,
        }
    }
}


// ===================== Pass-through Kotlin detection =====================

/// Whether a `val` at `i` declares an extension property: a `.` comes before the
/// first `:`, `'\n'` or `=` after `val `.
pub open spec fn extension_val_at(s: Seq<char>, i: int) -> bool {
    occurs_at(s, i, "val "@) && dot_before_end(s, i + 4)
}

/// Whether a `.` occurs at or after `j` before any `:`, `'\n'` or `=`.
pub open spec fn dot_before_end(s: Seq<char>, j: int) -> bool
    decreases s.len() - j,
{
    if j < 0 || j >= s.len() {
        false
    } else if s[j] == '.' {
        true
    } else if s[j] == ':' || s[j] == '\n' || s[j] == '=' {
        false
    } else {
        dot_before_end(s, j + 1)
    }
}

/// Whether Kotlin code that passes through unchanged starts at `i`.
pub open spec fn kotlin_syntax_at(s: Seq<char>, i: int, after_store_class: bool) -> bool {
    ||| occurs_at(s, i, "data class "@)
    ||| occurs_at(s, i, "sealed class "@)
    ||| occurs_at(s, i, "sealed interface "@)
    ||| occurs_at(s, i, "enum class "@)
    ||| occurs_at(s, i, "class "@)
    ||| occurs_at(s, i, "typealias "@)
    ||| occurs_at(s, i, "object "@)
    ||| occurs_at(s, i, "inline fun "@)
    ||| occurs_at(s, i, "infix fun "@)
    ||| occurs_at(s, i, "operator fun "@)
    ||| occurs_at(s, i, "fun interface "@)
    ||| (after_store_class && (occurs_at(s, i, "fun "@) || occurs_at(s, i, "suspend fun "@)))
    ||| extension_val_at(s, i)
}

/// The kind of pass-through block that starts at `i`.
pub open spec fn block_type_at(s: Seq<char>, i: int) -> KotlinBlockType {
    if occurs_at(s, i, "data class "@) {
        KotlinBlockType::DataClass
    } else if occurs_at(s, i, "sealed class "@) || occurs_at(s, i, "sealed interface "@) {
        KotlinBlockType::SealedClass
    } else if occurs_at(s, i, "enum class "@) {
        KotlinBlockType::EnumClass
    } else if occurs_at(s, i, "fun "@) {
        KotlinBlockType::TopLevelFunction
    } else if occurs_at(s, i, "typealias "@) {
        KotlinBlockType::TypeAlias
    } else if occurs_at(s, i, "object "@) {
        KotlinBlockType::ObjectDeclaration
    } else {
        KotlinBlockType::Unknown
    }
}

/// Whether a new top-level declaration (or an annotation) starts at `i`.
pub open spec fn top_level_keyword_at(s: Seq<char>, i: int) -> bool {
    ||| occurs_at(s, i, "import "@)
    ||| occurs_at(s, i, "class "@)
    ||| occurs_at(s, i, "data class "@)
    ||| occurs_at(s, i, "sealed class "@)
    ||| occurs_at(s, i, "sealed interface "@)
    ||| occurs_at(s, i, "enum class "@)
    ||| occurs_at(s, i, "object "@)
    ||| occurs_at(s, i, "interface "@)
    ||| occurs_at(s, i, "fun "@)
    ||| occurs_at(s, i, "val "@)
    ||| occurs_at(s, i, "var "@)
    ||| occurs_at(s, i, "typealias "@)
    ||| occurs_at(s, i, "@"@)
}

impl Parser {
    /// Whether Kotlin code that passes through unchanged starts here. After the
    /// store class, plain (and suspend) functions pass through too.
    fn is_kotlin_syntax(&self, after_store_class: bool) -> (r: bool)
        requires
            self.wf(),
        ensures
            r == kotlin_syntax_at(self.input@, self.pos as int, after_store_class),
    {
        if self.starts_with("data class ") || self.starts_with("sealed class ") || self.starts_with(
            "sealed interface ",
        ) || self.starts_with("enum class ") || self.starts_with("class ") || self.starts_with(
            "typealias ",
        ) || self.starts_with("object ") || self.starts_with("inline fun ") || self.starts_with(
            "infix fun ",
        ) || self.starts_with("operator fun ") || self.starts_with("fun interface ") {
            return true;
        }
        if after_store_class {
            if self.starts_with("fun ") {
                return true;
            }
            if self.starts_with("suspend fun ") {
                return true;
            }
        }
        if self.starts_with("val ") {
            proof {
                reveal_strlit("val ");
            }
            if self.dot_before_end(self.pos + 4) {
                return true;
            }
        }
        false
    }

    /// Whether a `.` occurs at or after `j` before any `:`, `'\n'` or `=`.
    fn dot_before_end(&self, j: usize) -> (r: bool)
        requires
            self.wf(),
            j <= self.input@.len(),
        ensures
            r == dot_before_end(self.input@, j as int),
    {
        let mut k = j;
        while k < self.input.len() && self.input[k] != '.' && self.input[k] != ':'
            && self.input[k] != '\n' && self.input[k] != '='
            invariant
                self.wf(),
                j <= k <= self.input@.len(),
                dot_before_end(self.input@, k as int) == dot_before_end(self.input@, j as int),
            decreases self.input@.len() - k,
        {
            k = k + 1;
        }
        k < self.input.len() && self.input[k] == '.'
    }

    /// The kind of pass-through block that starts here (a hint only).
    fn detect_block_type(&self) -> (r: KotlinBlockType)
        requires
            self.wf(),
        ensures
            r == block_type_at(self.input@, self.pos as int),
    {
        if self.starts_with("data class ") {
            KotlinBlockType::DataClass
        } else if self.starts_with("sealed class ") || self.starts_with("sealed interface ") {
            KotlinBlockType::SealedClass
        } else if self.starts_with("enum class ") {
            KotlinBlockType::EnumClass
        } else if self.starts_with("fun ") {
            KotlinBlockType::TopLevelFunction
        } else if self.starts_with("typealias ") {
            KotlinBlockType::TypeAlias
        } else if self.starts_with("object ") {
            KotlinBlockType::ObjectDeclaration
        } else {
            KotlinBlockType::Unknown
        }
    }

    /// Whether a new top-level declaration (or an annotation) starts here.
    fn is_top_level_keyword(&self) -> (r: bool)
        requires
            self.wf(),
        ensures
            r == top_level_keyword_at(self.input@, self.pos as int),
    {
        self.starts_with("import ") || self.starts_with("class ") || self.starts_with("data class ")
            || self.starts_with("sealed class ") || self.starts_with("sealed interface ")
            || self.starts_with("enum class ") || self.starts_with("object ") || self.starts_with(
            "interface ",
        ) || self.starts_with("fun ") || self.starts_with("val ") || self.starts_with("var ")
            || self.starts_with("typealias ") || self.starts_with("@")
    }

    /// Whether a `val` or `var` declaration starts here.
    fn is_kotlin_declaration(&self) -> (r: bool)
        requires
            self.wf(),
        ensures
            r == (occurs_at(self.input@, self.pos as int, "val "@) || occurs_at(
                self.input@,
                self.pos as int,
                "var "@,
            )),
    {
        self.starts_with("val ") || self.starts_with("var ")
    }

    /// Reads a Kotlin statement up to a `'\n'` (not consumed) or a `;` (kept).
    fn parse_kotlin_statement(&mut self) -> (r: Result<String, String>)
        requires
            old(self).wf(),
        ensures
            final(self).wf(),
            final(self).input == old(self).input,
            ({
                let s = old(self).input@;
                let p = old(self).pos as int;
                let e = statement_end(s, p);
                let stop = e < s.len() && s[e] == ';';
                r matches Ok(t) && t@ == s.subrange(p, if stop {
                    e + 1
                } else {
                    e
                }) && final(self).pos == if stop {
                    e + 1
                } else {
                    e
                }
            }),
    {
        let start = self.pos;
        let ghost s = self.input@;
        while self.pos < self.input.len() && self.input[self.pos] != '\n' && self.input[self.pos]
            != ';'
            invariant
                self.wf(),
                self.input == old(self).input,
                s == self.input@,
                start == old(self).pos,
                start <= self.pos,
                statement_end(s, self.pos as int) == statement_end(s, start as int),
            decreases s.len() - self.pos,
        {
            self.pos = self.pos + 1;
        }
        if self.pos < self.input.len() && self.input[self.pos] == ';' {
            self.pos = self.pos + 1;
        }
        Ok(string_from_range(self.input.as_slice(), start, self.pos))
    }
}

pub proof fn lemma_statement_end(s: Seq<char>, i: int)
    requires
        0 <= i <= s.len(),
    ensures
        i <= statement_end(s, i) <= s.len(),
    decreases s.len() - i,
{
    if i < s.len() && s[i] != '\n' && s[i] != ';' {
        lemma_statement_end(s, i + 1);
    }
}

/// Index of the first `'\n'` or `;` at or after `i` (or the end).
pub open spec fn statement_end(s: Seq<char>, i: int) -> int
    decreases s.len() - i,
{
    if i < 0 || i >= s.len() || s[i] == '\n' || s[i] == ';' {
        i
    } else {
        statement_end(s, i + 1)
    }
}


// ===================== Types and values =====================

/// End of a type annotation starting at `i` with the given depths of `()`,
/// `<>` and `[]`: it stops at an unmatched `)`, `>` or `]`, or at `=`, `'\n'` or
/// `{` outside all brackets; `->` is part of a function type.
pub open spec fn type_end(s: Seq<char>, i: int, p: int, a: int, b: int) -> int
    decreases s.len() - i,
{
    if i < 0 || i >= s.len() {
        i
    } else {
        let c = s[i];
        if c == '(' {
            type_end(s, i + 1, p + 1, a, b)
        } else if c == ')' {
            if p > 0 {
                type_end(s, i + 1, p - 1, a, b)
            } else {
                i
            }
        } else if c == '<' {
            type_end(s, i + 1, p, a + 1, b)
        } else if c == '>' {
            if a > 0 {
                type_end(s, i + 1, p, a - 1, b)
            } else if p > 0 || b > 0 {
                type_end(s, i + 1, p, a, b)
            } else {
                i
            }
        } else if c == '[' {
            type_end(s, i + 1, p, a, b + 1)
        } else if c == ']' {
            if b > 0 {
                type_end(s, i + 1, p, a, b - 1)
            } else {
                i
            }
        } else if (c == '=' || c == '\n' || c == '{') && p == 0 && a == 0 && b == 0 {
            i
        } else if c == '-' && char_at(s, i + 1) == Some('>') {
            type_end(s, i + 2, p, a, b)
        } else {
            type_end(s, i + 1, p, a, b)
        }
    }
}

pub proof fn lemma_type_end(s: Seq<char>, i: int, p: int, a: int, b: int)
    requires
        0 <= i <= s.len(),
    ensures
        i <= type_end(s, i, p, a, b) <= s.len(),
    decreases s.len() - i,
{
    if i < s.len() {
        let c = s[i];
        if c == '(' {
            lemma_type_end(s, i + 1, p + 1, a, b);
        } else if c == ')' {
            if p > 0 {
                lemma_type_end(s, i + 1, p - 1, a, b);
            }
        } else if c == '<' {
            lemma_type_end(s, i + 1, p, a + 1, b);
        } else if c == '>' {
            if a > 0 {
                lemma_type_end(s, i + 1, p, a - 1, b);
            } else if p > 0 || b > 0 {
                lemma_type_end(s, i + 1, p, a, b);
            }
        } else if c == '[' {
            lemma_type_end(s, i + 1, p, a, b + 1);
        } else if c == ']' {
            if b > 0 {
                lemma_type_end(s, i + 1, p, a, b - 1);
            }
        } else if (c == '=' || c == '\n' || c == '{') && p == 0 && a == 0 && b == 0 {
        } else if c == '-' && char_at(s, i + 1) == Some('>') {
            lemma_type_end(s, i + 2, p, a, b);
        } else {
            lemma_type_end(s, i + 1, p, a, b);
        }
    }
}

/// Index of the first `"""` at or after `i`, if any.
pub open spec fn triple_quote_from(s: Seq<char>, i: int) -> Option<int>
    decreases s.len() - i,
{
    if i < 0 || i >= s.len() {
        None
    } else if occurs_at(s, i, "\"\"\""@) {
        Some(i)
    } else {
        triple_quote_from(s, i + 1)
    }
}

/// Index of the `]` closing an array literal whose content starts at `i`, at
/// bracket depth `d` (strings inside are skipped whole).
pub open spec fn array_close(s: Seq<char>, i: int, d: int) -> Option<int>
    decreases s.len() - i,
{
    if i < 0 || i >= s.len() {
        None
    } else if s[i] == '[' {
        array_close(s, i + 1, d + 1)
    } else if s[i] == ']' {
        if d - 1 == 0 {
            Some(i)
        } else {
            array_close(s, i + 1, d - 1)
        }
    } else if s[i] == '"' {
        let e = find_char(s, i + 1, '"');
        if e < s.len() {
            proof {
                lemma_find_char(s, i + 1, '"');
            }
            array_close(s, e + 1, d)
        } else {
            None
        }
    } else {
        array_close(s, i + 1, d)
    }
}

/// End of the run of ASCII digits at `i`.
pub open spec fn digits_end(s: Seq<char>, i: int) -> int
    decreases s.len() - i,
{
    if 0 <= i < s.len() && spec_is_ascii_digit(s[i]) {
        digits_end(s, i + 1)
    } else {
        i
    }
}

pub proof fn lemma_digits_end(s: Seq<char>, i: int)
    requires
        0 <= i <= s.len(),
    ensures
        i <= digits_end(s, i) <= s.len(),
    decreases s.len() - i,
{
    if i < s.len() && spec_is_ascii_digit(s[i]) {
        lemma_digits_end(s, i + 1);
    }
}

/// End of an optionally negative run of digits at `i`.
pub open spec fn number_end(s: Seq<char>, i: int) -> int {
    if char_at(s, i) == Some('-') {
        digits_end(s, i + 1)
    } else {
        digits_end(s, i)
    }
}

/// Whether a range literal (`1..10`, `-5..5:2`) starts at `i`: an optional
/// `-`, at least one digit, then `..`.
pub open spec fn range_literal_at(s: Seq<char>, i: int) -> bool {
    let j = if char_at(s, i) == Some('-') {
        i + 1
    } else {
        i
    };
    &&& 0 <= j < s.len()
    &&& spec_is_ascii_digit(s[j])
    &&& char_at(s, digits_end(s, j)) == Some('.')
    &&& char_at(s, digits_end(s, j) + 1) == Some('.')
}

/// Whether `t` ends (ignoring trailing white space) with an operator that
/// continues an expression on the next line.
pub open spec fn ends_with_continuation(t: Seq<char>) -> bool {
    let u = t.subrange(0, crate::text::trim_end_from(t, 0, t.len() as int));
    ||| u.len() >= 2 && u.subrange(u.len() - 2, u.len() as int) == "&&"@
    ||| u.len() >= 2 && u.subrange(u.len() - 2, u.len() as int) == "||"@
    ||| u.len() >= 1 && (u.last() == '+' || u.last() == '-' || u.last() == '*' || u.last() == '/'
        || u.last() == ',')
}

/// End of a plain value starting at `start`, scanned from `i` with `{}` and `()`
/// depths: an unmatched `}` or `)` ends it, and so does a `'\n'` outside brackets
/// unless the line ends with a continuation operator.
pub open spec fn value_end(s: Seq<char>, start: int, i: int, bd: int, pd: int) -> int
    decreases s.len() - i,
{
    if i < 0 || i >= s.len() || start > i {
        i
    } else {
        let c = s[i];
        if c == '{' {
            value_end(s, start, i + 1, bd + 1, pd)
        } else if c == '}' {
            if bd > 0 {
                value_end(s, start, i + 1, bd - 1, pd)
            } else {
                i
            }
        } else if c == '(' {
            value_end(s, start, i + 1, bd, pd + 1)
        } else if c == ')' {
            if pd > 0 {
                value_end(s, start, i + 1, bd, pd - 1)
            } else {
                i
            }
        } else if c == '\n' && bd == 0 && pd == 0 {
            if ends_with_continuation(s.subrange(start, i)) {
                value_end(s, start, i + 1, bd, pd)
            } else {
                i
            }
        } else {
            value_end(s, start, i + 1, bd, pd)
        }
    }
}

pub proof fn lemma_value_end(s: Seq<char>, start: int, i: int, bd: int, pd: int)
    requires
        0 <= start <= i <= s.len(),
    ensures
        i <= value_end(s, start, i, bd, pd) <= s.len(),
    decreases s.len() - i,
{
    if i < s.len() {
        let c = s[i];
        if c == '{' {
            lemma_value_end(s, start, i + 1, bd + 1, pd);
        } else if c == '}' {
            if bd > 0 {
                lemma_value_end(s, start, i + 1, bd - 1, pd);
            }
        } else if c == '(' {
            lemma_value_end(s, start, i + 1, bd, pd + 1);
        } else if c == ')' {
            if pd > 0 {
                lemma_value_end(s, start, i + 1, bd, pd - 1);
            }
        } else if c == '\n' && bd == 0 && pd == 0 {
            if ends_with_continuation(s.subrange(start, i)) {
                lemma_value_end(s, start, i + 1, bd, pd);
            }
        } else {
            lemma_value_end(s, start, i + 1, bd, pd);
        }
    }
}

/// `t` without one trailing `;`.
pub open spec fn strip_semicolon(t: Seq<char>) -> Seq<char> {
    if t.len() > 0 && t.last() == ';' {
        t.drop_last()
    } else {
        t
    }
}

impl Parser {
    /// Reads a type annotation (see `type_end`), trimmed.
    fn parse_type(&mut self) -> (r: Result<String, String>)
        requires
            old(self).wf(),
        ensures
            final(self).wf(),
            final(self).input == old(self).input,
            ({
                let s = old(self).input@;
                let p = old(self).pos as int;
                let e = type_end(s, p, 0, 0, 0);
                r matches Ok(t) && t@ == spec_trim(s.subrange(p, e)) && final(self).pos == e
            }),
            old(self).pos <= final(self).pos,
    {
        proof {
            lemma_type_end(self.input@, self.pos as int, 0, 0, 0);
        }
        let start = self.pos;
        let ghost s = self.input@;
        let mut paren_depth: usize = 0;
        let mut angle_depth: usize = 0;
        let mut bracket_depth: usize = 0;
        loop
            invariant_except_break
                self.wf(),
                self.input == old(self).input,
                s == self.input@,
                start == old(self).pos,
                start <= self.pos,
                paren_depth <= self.pos,
                angle_depth <= self.pos,
                bracket_depth <= self.pos,
                type_end(
                    s,
                    self.pos as int,
                    paren_depth as int,
                    angle_depth as int,
                    bracket_depth as int,
                ) == type_end(s, start as int, 0, 0, 0),
            ensures
                self.wf(),
                self.input == old(self).input,
                start <= self.pos,
                self.pos == type_end(s, start as int, 0, 0, 0),
            decreases s.len() - self.pos,
        {
            if self.pos >= self.input.len() {
                break;
            }
            let ch = self.input[self.pos];
            if ch == '(' {
                paren_depth = paren_depth + 1;
                self.pos = self.pos + 1;
            } else if ch == ')' {
                if paren_depth > 0 {
                    paren_depth = paren_depth - 1;
                    self.pos = self.pos + 1;
                } else {
                    break;
                }
            } else if ch == '<' {
                angle_depth = angle_depth + 1;
                self.pos = self.pos + 1;
            } else if ch == '>' {
                if angle_depth > 0 {
                    angle_depth = angle_depth - 1;
                    self.pos = self.pos + 1;
                } else if paren_depth > 0 || bracket_depth > 0 {
                    self.pos = self.pos + 1;
                } else {
                    break;
                }
            } else if ch == '[' {
                bracket_depth = bracket_depth + 1;
                self.pos = self.pos + 1;
            } else if ch == ']' {
                if bracket_depth > 0 {
                    bracket_depth = bracket_depth - 1;
                    self.pos = self.pos + 1;
                } else {
                    break;
                }
            } else if (ch == '=' || ch == '\n' || ch == '{') && paren_depth == 0 && angle_depth == 0
                && bracket_depth == 0 {
                break;
            } else if ch == '-' && self.peek_ahead(1) == Some('>') {
                self.pos = self.pos + 2;
            } else {
                self.pos = self.pos + 1;
            }
        }
        Ok(trimmed_range(self.input.as_slice(), start, self.pos))
    }

    /// Reads a `"..."` string (no escapes) and returns it with its quotes.
    fn parse_string(&mut self) -> (r: Result<String, String>)
        requires
            old(self).wf(),
            char_at(old(self).input@, old(self).pos as int) == Some('"'),
        ensures
            final(self).wf(),
            final(self).input == old(self).input,
            old(self).pos <= final(self).pos,
            ({
                let s = old(self).input@;
                let p = old(self).pos as int;
                let e = find_char(s, p + 1, '"');
                match r {
                    Ok(t) => e < s.len() && t@ == seq!['"'] + s.subrange(p + 1, e) + seq!['"']
                        && final(self).pos == e + 1,
                    Err(m) => e == s.len() && m@ == error_at(
                        s,
                        e,
                        expected_message('"', None),
                    ),
                }
            }),
    {
        self.expect_char('"')?;
        let value = self.parse_text_until('"')?;
        proof {
            lemma_find_char(self.input@, old(self).pos + 1, '"');
        }
        self.expect_char('"')?;
        let mut out = String::new();
        push_char(&mut out, '"');
        push_string(&mut out, &value);
        push_char(&mut out, '"');
        Ok(out)
    }

    /// Reads a `"""..."""` raw string and returns it with its quotes.
    fn parse_multiline_string(&mut self) -> (r: Result<String, String>)
        requires
            old(self).wf(),
            occurs_at(old(self).input@, old(self).pos as int, "\"\"\""@),
        ensures
            final(self).wf(),
            final(self).input == old(self).input,
            old(self).pos <= final(self).pos,
            ({
                let s = old(self).input@;
                let p = old(self).pos as int;
                match triple_quote_from(s, p + 3) {
                    Some(e) => r matches Ok(t) && t@ == "\"\"\""@ + s.subrange(p + 3, e)
                        + "\"\"\""@ && final(self).pos == e + 3,
                    None => r matches Err(m) && m@ == error_at(
                        s,
                        s.len() as int,
                        "Unclosed multi-line string (expected closing \"\"\")"@,
                    ),
                }
            }),
    {
        let ghost s = self.input@;
        proof {
            reveal_strlit("\"\"\"");
            let p = self.pos as int;
            assert(s.subrange(p, p + 3)[0] == s[p]);
            assert(s.subrange(p, p + 3)[1] == s[p + 1]);
            assert(s.subrange(p, p + 3)[2] == s[p + 2]);
        }
        self.pos = self.pos + 3;
        let start = self.pos;
        loop
            invariant
                self.wf(),
                self.input == old(self).input,
                s == self.input@,
                start == old(self).pos + 3,
                start <= self.pos,
                triple_quote_from(s, self.pos as int) == triple_quote_from(s, start as int),
            decreases s.len() - self.pos,
        {
            if self.check_string_ahead("\"\"\"") {
                let value = string_from_range(self.input.as_slice(), start, self.pos);
                proof {
                    reveal_strlit("\"\"\"");
                }
                self.pos = self.pos + 3;
                let mut out = lit("\"\"\"");
                push_string(&mut out, &value);
                push_lit(&mut out, "\"\"\"");
                return Ok(out);
            }
            if self.peek_char().is_none() {
                return Err(self.error_at_pos("Unclosed multi-line string (expected closing \"\"\")"));
            }
            self.advance_char();
        }
    }

    /// Reads an array literal `[...]` and returns `[` + its trimmed content + `]`.
    fn parse_array_literal(&mut self) -> (r: Result<String, String>)
        requires
            old(self).wf(),
            char_at(old(self).input@, old(self).pos as int) == Some('['),
        ensures
            final(self).wf(),
            final(self).input == old(self).input,
            old(self).pos <= final(self).pos,
            ({
                let s = old(self).input@;
                let p = old(self).pos as int;
                match array_close(s, p + 1, 1) {
                    Some(e) => r matches Ok(t) && t@ == seq!['['] + spec_trim(s.subrange(p + 1, e))
                        + seq![']'] && final(self).pos == e + 1,
                    None => r matches Err(m) && m@ == "Unterminated array literal"@,
                }
            }),
    {
        let ghost s = self.input@;
        self.pos = self.pos + 1;
        let start = self.pos;
        let mut bracket_depth: usize = 1;
        while self.pos < self.input.len()
            invariant
                self.wf(),
                self.input == old(self).input,
                s == self.input@,
                start == old(self).pos + 1,
                start <= self.pos,
                1 <= bracket_depth <= self.pos + 1,
                array_close(s, self.pos as int, bracket_depth as int) == array_close(
                    s,
                    start as int,
                    1,
                ),
            decreases s.len() - self.pos,
        {
            let ch = self.input[self.pos];
            if ch == '[' {
                bracket_depth = bracket_depth + 1;
                self.pos = self.pos + 1;
            } else if ch == ']' {
                bracket_depth = bracket_depth - 1;
                if bracket_depth == 0 {
                    let content = trimmed_range(self.input.as_slice(), start, self.pos);
                    self.pos = self.pos + 1;
                    let mut out = String::new();
                    push_char(&mut out, '[');
                    push_string(&mut out, &content);
                    push_char(&mut out, ']');
                    return Ok(out);
                }
                self.pos = self.pos + 1;
            } else if ch == '"' {
                self.pos = self.pos + 1;
                let ghost q = self.pos as int;
                proof {
                    lemma_find_char(s, q, '"');
                }
                let _ = self.parse_text_until('"');
                if self.pos < self.input.len() {
                    self.pos = self.pos + 1;
                }
            } else {
                self.pos = self.pos + 1;
            }
        }
        Err(lit("Unterminated array literal"))
    }
}


/// The text of a range literal at `i` in codegen form: `RANGE[a..b]` or
/// `RANGE[a..b:c]`, and the index after it.
pub open spec fn range_literal(s: Seq<char>, i: int) -> (Seq<char>, int) {
    let a_end = number_end(s, i);
    let b_start = a_end + 2;
    let b_end = number_end(s, b_start);
    if char_at(s, b_end) == Some(':') {
        let c_end = number_end(s, b_end + 1);
        (
            "RANGE["@ + s.subrange(i, a_end) + ".."@ + s.subrange(b_start, b_end) + ":"@
                + s.subrange(b_end + 1, c_end) + "]"@,
            c_end,
        )
    } else {
        ("RANGE["@ + s.subrange(i, a_end) + ".."@ + s.subrange(b_start, b_end) + "]"@, b_end)
    }
}

pub proof fn lemma_number_end(s: Seq<char>, i: int)
    requires
        0 <= i <= s.len(),
    ensures
        i <= number_end(s, i) <= s.len(),
{
    if char_at(s, i) == Some('-') {
        lemma_digits_end(s, i + 1);
    } else {
        lemma_digits_end(s, i);
    }
}

impl Parser {
    /// Moves past a run of ASCII digits.
    fn skip_digits(&mut self)
        requires
            old(self).wf(),
        ensures
            final(self).wf(),
            final(self).input == old(self).input,
            final(self).pos == digits_end(old(self).input@, old(self).pos as int),
    {
        let ghost s = self.input@;
        while self.pos < self.input.len() && is_ascii_digit(self.input[self.pos])
            invariant
                self.wf(),
                self.input == old(self).input,
                s == self.input@,
                digits_end(s, self.pos as int) == digits_end(s, old(self).pos as int),
            decreases s.len() - self.pos,
        {
            self.pos = self.pos + 1;
        }
    }

    /// Reads an optionally negative run of digits.
    fn read_number(&mut self) -> (r: String)
        requires
            old(self).wf(),
        ensures
            final(self).wf(),
            final(self).input == old(self).input,
            final(self).pos == number_end(old(self).input@, old(self).pos as int),
            old(self).pos <= final(self).pos,
            r@ == old(self).input@.subrange(old(self).pos as int, final(self).pos as int),
    {
        let start = self.pos;
        if self.peek_char() == Some('-') {
            self.advance_char();
        }
        proof {
            lemma_digits_end(self.input@, self.pos as int);
        }
        self.skip_digits();
        string_from_range(self.input.as_slice(), start, self.pos)
    }

    /// Whether a range literal (`1..10`, `-5..5:2`) starts here.
    fn is_range_literal(&self) -> (r: bool)
        requires
            self.wf(),
        ensures
            r == range_literal_at(self.input@, self.pos as int),
    {
        let ghost s = self.input@;
        let mut temp_pos = self.pos;
        if temp_pos < self.input.len() && self.input[temp_pos] == '-' {
            temp_pos = temp_pos + 1;
        }
        if temp_pos >= self.input.len() || !is_ascii_digit(self.input[temp_pos]) {
            return false;
        }
        let j = temp_pos;
        while temp_pos < self.input.len() && is_ascii_digit(self.input[temp_pos])
            invariant
                self.wf(),
                s == self.input@,
                j <= temp_pos <= s.len(),
                digits_end(s, temp_pos as int) == digits_end(s, j as int),
            decreases s.len() - temp_pos,
        {
            temp_pos = temp_pos + 1;
        }
        temp_pos < self.input.len() && self.input[temp_pos] == '.' && temp_pos + 1
            < self.input.len() && self.input[temp_pos + 1] == '.'
    }

    /// Reads a range literal and returns it as `RANGE[a..b]` or `RANGE[a..b:c]`.
    fn parse_range_literal(&mut self) -> (r: Result<String, String>)
        requires
            old(self).wf(),
            range_literal_at(old(self).input@, old(self).pos as int),
        ensures
            final(self).wf(),
            final(self).input == old(self).input,
            old(self).pos <= final(self).pos,
            r matches Ok(t) && t@ == range_literal(old(self).input@, old(self).pos as int).0
                && final(self).pos == range_literal(old(self).input@, old(self).pos as int).1,
    {
        let ghost s = self.input@;
        let start_num = self.read_number();
        proof {
            reveal_strlit("..");
            let p = old(self).pos as int;
            let j = if char_at(s, p) == Some('-') {
                p + 1
            } else {
                p
            };
            assert(number_end(s, p) == digits_end(s, j));
            let e = digits_end(s, j);
            assert(s.subrange(e, e + 2) =~= ".."@);
        }
        if !self.consume_str("..") {
            return Err(self.error_at_pos("Expected '..' in range literal"));
        }
        let end_num = self.read_number();
        let mut out = lit("RANGE[");
        push_string(&mut out, &start_num);
        push_lit(&mut out, "..");
        push_string(&mut out, &end_num);
        if self.peek_char() == Some(':') {
            self.advance_char();
            let step_num = self.read_number();
            push_lit(&mut out, ":");
            push_string(&mut out, &step_num);
        }
        push_lit(&mut out, "]");
        Ok(out)
    }

    /// Whether the characters `start..i` end with a continuation operator.
    fn continues_line(&self, start: usize, i: usize) -> (r: bool)
        requires
            self.wf(),
            start <= i <= self.input@.len(),
        ensures
            r == ends_with_continuation(self.input@.subrange(start as int, i as int)),
    {
        let ghost t = self.input@.subrange(start as int, i as int);
        let mut e = i;
        while e > start && is_whitespace(self.input[e - 1])
            invariant
                self.wf(),
                start <= e <= i <= self.input@.len(),
                t == self.input@.subrange(start as int, i as int),
                crate::text::trim_end_from(t, 0, (e - start) as int) == crate::text::trim_end_from(
                    t,
                    0,
                    t.len() as int,
                ),
            decreases e - start,
        {
            assert(t[e - 1 - start] == self.input@[e - 1]);
            e = e - 1;
        }
        proof {
            if e > start {
                assert(t[e - 1 - start] == self.input@[e - 1]);
            }
            assert(crate::text::trim_end_from(t, 0, (e - start) as int) == (e - start) as int);
            let u = t.subrange(0, (e - start) as int);
            assert(u =~= self.input@.subrange(start as int, e as int));
            reveal_strlit("&&");
            reveal_strlit("||");
            if e - start >= 2 {
                let w = u.subrange(u.len() - 2, u.len() as int);
                assert(w =~= self.input@.subrange(e - 2, e as int));
                assert(w[0] == self.input@[e - 2]);
                assert(w[1] == self.input@[e - 1]);
                if self.input@[e - 2] == '&' && self.input@[e - 1] == '&' {
                    assert(w =~= "&&"@);
                }
                if w == "&&"@ {
                    assert(w[0] == '&' && w[1] == '&');
                }
                if self.input@[e - 2] == '|' && self.input@[e - 1] == '|' {
                    assert(w =~= "||"@);
                }
                if w == "||"@ {
                    assert(w[0] == '|' && w[1] == '|');
                }
            }
            if e - start >= 1 {
                assert(u.last() == self.input@[e - 1]);
            }
        }
        let n = e - start;
        (n >= 2 && chars_at2(self.input.as_slice(), e - 2, '&', '&'))
            || (n >= 2 && chars_at2(self.input.as_slice(), e - 2, '|', '|'))
            || (n >= 1 && (self.input[e - 1] == '+' || self.input[e - 1] == '-' || self.input[e - 1]
            == '*' || self.input[e - 1] == '/' || self.input[e - 1] == ','))
    }

    /// Reads a value: a raw string, a string, an array literal, a range literal,
    /// or an expression (see `value_end`), trimmed and without a trailing `;`.
    fn parse_value(&mut self) -> (r: Result<String, String>)
        requires
            old(self).wf(),
        ensures
            final(self).wf(),
            final(self).input == old(self).input,
            old(self).pos <= final(self).pos,
            ({
                let s = old(self).input@;
                let p = skip_trivia(s, old(self).pos as int);
                if occurs_at(s, p, "\"\"\""@) {
                    match triple_quote_from(s, p + 3) {
                        Some(e) => r matches Ok(t) && t@ == "\"\"\""@ + s.subrange(p + 3, e)
                            + "\"\"\""@,
                        None => r is Err,
                    }
                } else if char_at(s, p) == Some('"') {
                    let e = find_char(s, p + 1, '"');
                    if e < s.len() {
                        r matches Ok(t) && t@ == seq!['"'] + s.subrange(p + 1, e) + seq!['"']
                            && final(self).pos == e + 1
                    } else {
                        r is Err
                    }
                } else if char_at(s, p) == Some('[') {
                    match array_close(s, p + 1, 1) {
                        Some(e) => r matches Ok(t) && t@ == seq!['['] + spec_trim(
                            s.subrange(p + 1, e),
                        ) + seq![']'],
                        None => r is Err,
                    }
                } else if range_literal_at(s, p) {
                    r matches Ok(t) && t@ == range_literal(s, p).0
                } else {
                    let e = value_end(s, p, p, 0, 0);
                    r matches Ok(t) && t@ == strip_semicolon(spec_trim(s.subrange(p, e)))
                        && final(self).pos == e
                }
            }),
            match value_text(old(self).input@, old(self).pos as int) {
                Some(v) => r matches Ok(t) && t@ == v,
                None => r is Err,
            },
    {
        self.skip_whitespace();
        proof {
            lemma_skip_trivia(self.input@, old(self).pos as int);
        }
        if self.check_string_ahead("\"\"\"") {
            self.parse_multiline_string()
        } else if self.peek_char() == Some('"') {
            self.parse_string()
        } else if self.peek_char() == Some('[') {
            self.parse_array_literal()
        } else if self.is_range_literal() {
            self.parse_range_literal()
        } else {
            let ghost s = self.input@;
            let start = self.pos;
            let mut brace_depth: usize = 0;
            let mut paren_depth: usize = 0;
            loop
                invariant_except_break
                    self.wf(),
                    self.input == old(self).input,
                    s == self.input@,
                    start <= self.pos,
                    brace_depth <= self.pos,
                    paren_depth <= self.pos,
                    value_end(s, start as int, self.pos as int, brace_depth as int, paren_depth as int)
                        == value_end(s, start as int, start as int, 0, 0),
                ensures
                    self.wf(),
                    self.input == old(self).input,
                    start <= self.pos,
                    self.pos == value_end(s, start as int, start as int, 0, 0),
                decreases s.len() - self.pos,
            {
                if self.pos >= self.input.len() {
                    break;
                }
                let ch = self.input[self.pos];
                if ch == '{' {
                    brace_depth = brace_depth + 1;
                    self.pos = self.pos + 1;
                } else if ch == '}' {
                    if brace_depth > 0 {
                        brace_depth = brace_depth - 1;
                        self.pos = self.pos + 1;
                    } else {
                        break;
                    }
                } else if ch == '(' {
                    paren_depth = paren_depth + 1;
                    self.pos = self.pos + 1;
                } else if ch == ')' {
                    if paren_depth > 0 {
                        paren_depth = paren_depth - 1;
                        self.pos = self.pos + 1;
                    } else {
                        break;
                    }
                } else if ch == '\n' && brace_depth == 0 && paren_depth == 0 {
                    if self.continues_line(start, self.pos) {
                        self.pos = self.pos + 1;
                    } else {
                        break;
                    }
                } else {
                    self.pos = self.pos + 1;
                }
            }
            let value = trimmed_range(self.input.as_slice(), start, self.pos);
            let chars = str_to_chars(value.as_str());
            if chars.len() > 0 && chars[chars.len() - 1] == ';' {
                let stripped = string_from_range(chars.as_slice(), 0, chars.len() - 1);
                assert(chars@.subrange(0, chars@.len() - 1) == chars@.drop_last());
                Ok(stripped)
            } else {
                Ok(value)
            }
        }
    }
}


/// The text of the value that `parse_value` reads at `i` (`None` where it fails).
pub open spec fn value_text(s: Seq<char>, i: int) -> Option<Seq<char>> {
    let p = skip_trivia(s, i);
    if occurs_at(s, p, "\"\"\""@) {
        match triple_quote_from(s, p + 3) {
            Some(e) => Some("\"\"\""@ + s.subrange(p + 3, e) + "\"\"\""@),
            None => None,
        }
    } else if char_at(s, p) == Some('"') {
        let e = find_char(s, p + 1, '"');
        if e < s.len() {
            Some(seq!['"'] + s.subrange(p + 1, e) + seq!['"'])
        } else {
            None
        }
    } else if char_at(s, p) == Some('[') {
        match array_close(s, p + 1, 1) {
            Some(e) => Some(seq!['['] + spec_trim(s.subrange(p + 1, e)) + seq![']']),
            None => None,
        }
    } else if range_literal_at(s, p) {
        Some(range_literal(s, p).0)
    } else {
        Some(strip_semicolon(spec_trim(s.subrange(p, value_end(s, p, p, 0, 0)))))
    }
}

/// Whether `s[i]` is `a` and `s[i + 1]` is `b`.
fn chars_at2(s: &[char], i: usize, a: char, b: char) -> (r: bool)
    requires
        i + 2 <= s@.len(),
    ensures
        r == (s@[i as int] == a && s@[i + 1] == b),
{
    s[i] == a && s[i + 1] == b
}


// ===================== Code bodies =====================

/// Index just after the `}` that closes a block whose text continues at `i`
/// with `d` blocks open, if the block is closed.
pub open spec fn block_close(s: Seq<char>, i: int, d: int) -> Option<int>
    decreases s.len() - i,
{
    if i < 0 || i >= s.len() {
        None
    } else if s[i] == '{' {
        block_close(s, i + 1, d + 1)
    } else if s[i] == '}' {
        if d <= 1 {
            Some(i + 1)
        } else {
            block_close(s, i + 1, d - 1)
        }
    } else {
        block_close(s, i + 1, d)
    }
}

pub proof fn lemma_block_close(s: Seq<char>, i: int, d: int)
    requires
        0 <= i <= s.len(),
    ensures
        block_close(s, i, d) matches Some(e) ==> i < e <= s.len() && s[e - 1] == '}',
    decreases s.len() - i,
{
    if i < s.len() {
        if s[i] == '{' {
            lemma_block_close(s, i + 1, d + 1);
        } else if s[i] == '}' {
            if d > 1 {
                lemma_block_close(s, i + 1, d - 1);
            }
        } else {
            lemma_block_close(s, i + 1, d);
        }
    }
}

/// Whether the magic call `t` at index `k` of `b` lacks its `$` (it is not
/// preceded by `$`, `_` or an alphanumeric character).
pub open spec fn typo_at(b: Seq<char>, k: int, t: Seq<char>) -> bool {
    &&& occurs_at(b, k, t)
    &&& !(k > 0 && (b[k - 1] == '$' || b[k - 1] == '_' || unicode_is_alphanumeric(b[k - 1])))
}

/// The first index at or after `k` where `typo_at` holds.
pub open spec fn first_typo(b: Seq<char>, t: Seq<char>, k: int) -> Option<int>
    decreases b.len() - k,
{
    if k < 0 || k >= b.len() {
        None
    } else if typo_at(b, k, t) {
        Some(k)
    } else {
        first_typo(b, t, k + 1)
    }
}

/// The error for the unprefixed call `name` at index `k` of the body that
/// starts at index `start` of `s`.
pub open spec fn body_typo_text(
    s: Seq<char>,
    b: Seq<char>,
    start: int,
    k: int,
    name: Seq<char>,
    desc: Seq<char>,
) -> Seq<char> {
    error_text(
        s,
        line_col(s, start + k).0,
        line_col(b, k).1,
        "unknown identifier '"@ + name + "'"@,
        Some("did you mean '$"@ + name + "'? ("@ + desc + " requires $ prefix)"@),
    )
}

/// The error for the first magic call without its `$` in the body `s[a..e]`:
/// `fetch(`, then `log(`, then `navigate(`.
pub open spec fn body_typo(s: Seq<char>, a: int, e: int) -> Option<Seq<char>> {
    let b = s.subrange(a, e);
    match first_typo(b, "fetch("@, 0) {
        Some(k) => Some(body_typo_text(s, b, a, k, "fetch"@, "HTTP request function"@)),
        None => match first_typo(b, "log("@, 0) {
            Some(k) => Some(body_typo_text(s, b, a, k, "log"@, "logging function"@)),
            None => match first_typo(b, "navigate("@, 0) {
                Some(k) => Some(body_typo_text(s, b, a, k, "navigate"@, "navigation function"@)),
                None => None,
            },
        },
    }
}

pub proof fn lemma_line_shift(s: Seq<char>, a: int, e: int, k: int)
    requires
        0 <= a <= e <= s.len(),
        0 <= k <= e - a,
    ensures
        line_col(s, a).0 + line_col(s.subrange(a, e), k).0 - 1 == line_col(s, a + k).0,
    decreases k,
{
    if k > 0 {
        lemma_line_shift(s, a, e, k - 1);
    }
}

/// Line and column (from 1) of index `n` of `s`.
fn line_col_of(s: &[char], n: usize) -> (r: (usize, usize))
    requires
        n <= s@.len(),
        s@.len() < usize::MAX,
    ensures
        r.0 == line_col(s@, n as int).0,
        r.1 == line_col(s@, n as int).1,
{
    let mut line: usize = 1;
    let mut col: usize = 1;
    let mut i: usize = 0;
    while i < n
        invariant
            n <= s@.len() < usize::MAX,
            i <= n,
            line == line_col(s@, i as int).0,
            col == line_col(s@, i as int).1,
        decreases n - i,
    {
        proof {
            lemma_line_col_bounds(s@, i as int);
        }
        if s[i] == '\n' {
            line = line + 1;
            col = 1;
        } else {
            col = col + 1;
        }
        i = i + 1;
    }
    (line, col)
}

/// The first index of `b` where the magic call `t` lacks its `$`.
fn find_typo(b: &[char], t: &str) -> (r: Option<usize>)
    requires
        t@.len() > 0,
    ensures
        match r {
            Some(k) => k < b@.len() && first_typo(b@, t@, 0) == Some(k as int),
            None => first_typo(b@, t@, 0) is None,
        },
{
    let mut k: usize = 0;
    while k < b.len()
        invariant
            k <= b@.len(),
            first_typo(b@, t@, 0) == first_typo(b@, t@, k as int),
        decreases b.len() - k,
    {
        if lit_at(b, k, t) {
            let ok = if k > 0 {
                let c = b[k - 1];
                !(c == '$' || c == '_' || is_alphanumeric(c))
            } else {
                true
            };
            if ok {
                return Some(k);
            }
        }
        k = k + 1;
    }
    None
}

impl Parser {
    /// Moves past a block body up to and including the `}` that closes it
    /// (one block is open at the current index); false at the end of the text.
    fn skip_block(&mut self) -> (r: bool)
        requires
            old(self).wf(),
        ensures
            final(self).wf(),
            final(self).input == old(self).input,
            match block_close(old(self).input@, old(self).pos as int, 1) {
                Some(e) => r && final(self).pos == e,
                None => !r && final(self).pos == old(self).input@.len(),
            },
    {
        let ghost s = self.input@;
        let mut depth: usize = 1;
        loop
            invariant_except_break
                self.wf(),
                self.input == old(self).input,
                s == self.input@,
                old(self).pos <= self.pos,
                1 <= depth <= self.pos - old(self).pos + 1,
                block_close(s, self.pos as int, depth as int) == block_close(
                    s,
                    old(self).pos as int,
                    1,
                ),
            ensures
                self.wf(),
                self.input == old(self).input,
                match block_close(s, old(self).pos as int, 1) {
                    Some(e) => depth == 0 && self.pos == e,
                    None => depth > 0 && self.pos == s.len(),
                },
            decreases s.len() - self.pos,
        {
            if self.pos >= self.input.len() {
                break;
            }
            let ch = self.input[self.pos];
            self.pos = self.pos + 1;
            if ch == '{' {
                depth = depth + 1;
            } else if ch == '}' {
                if depth == 1 {
                    depth = 0;
                    break;
                }
                depth = depth - 1;
            }
        }
        depth == 0
    }

    /// The error for the first magic call (`fetch(`, `log(`, `navigate(`)
    /// written without its `$` in the body `input[start..end]`, if any.
    fn check_body_for_typos(&self, start: usize, end: usize) -> (r: Option<String>)
        requires
            self.wf(),
            start <= end <= self.input@.len(),
        ensures
            match r {
                Some(m) => body_typo(self.input@, start as int, end as int) == Some(m@),
                None => body_typo(self.input@, start as int, end as int) is None,
            },
    {
        let body = vstd::slice::slice_subrange(self.input.as_slice(), start, end);
        proof {
            reveal_strlit("fetch(");
            reveal_strlit("log(");
            reveal_strlit("navigate(");
        }
        let (name, desc, found) = match find_typo(body, "fetch(") {
            Some(k) => ("fetch", "HTTP request function", Some(k)),
            None => match find_typo(body, "log(") {
                Some(k) => ("log", "logging function", Some(k)),
                None => match find_typo(body, "navigate(") {
                    Some(k) => ("navigate", "navigation function", Some(k)),
                    None => ("", "", None),
                },
            },
        };
        match found {
            None => None,
            Some(k) => {
                let (line, col) = line_col_of(body, k);
                let (body_line, _) = self.pos_to_line_col(start);
                proof {
                    lemma_line_shift(self.input@, start as int, end as int, k as int);
                    lemma_line_col_bounds(self.input@, start + k);
                    lemma_line_col_bounds(body@, k as int);
                }
                let actual_line = body_line + line - 1;
                let mut msg = lit("unknown identifier '");
                push_lit(&mut msg, name);
                push_lit(&mut msg, "'");
                let mut help = lit("did you mean '$");
                push_lit(&mut help, name);
                push_lit(&mut help, "'? (");
                push_lit(&mut help, desc);
                push_lit(&mut help, " requires $ prefix)");
                Some(self.format_error(actual_line, col, &msg, Some(&help)))
            },
        }
    }

    /// Parses `{ body }` after `$onMount` / `$onDispose`.
    fn parse_lifecycle_hook(&mut self, hook_type: &str) -> (r: Result<LifecycleHook, String>)
        requires
            old(self).wf(),
        ensures
            final(self).wf(),
            final(self).input == old(self).input,
            old(self).pos <= final(self).pos,
            ({
                let s = old(self).input@;
                let q = skip_trivia(s, old(self).pos as int);
                if char_at(s, q) != Some('{') {
                    r matches Err(m) && m@ == error_at(s, q, expected_message('{', char_at(s, q)))
                } else {
                    match block_close(s, q + 1, 1) {
                        None => r matches Err(m) && m@ == "Unexpected EOF in lifecycle hook body"@,
                        Some(e) => match body_typo(s, q + 1, e - 1) {
                            Some(t) => r matches Err(m) && m@ == t,
                            None => r matches Ok(h) && h.hook_type@ == hook_type@ && h.body@
                                == spec_trim(s.subrange(q + 1, e - 1)) && final(self).pos == e,
                        },
                    }
                }
            }),
    {
        self.skip_whitespace();
        proof {
            lemma_skip_trivia(self.input@, old(self).pos as int);
        }
        self.expect_char('{')?;
        let body_start = self.pos;
        proof {
            lemma_block_close(self.input@, body_start as int, 1);
        }
        if !self.skip_block() {
            return Err(lit("Unexpected EOF in lifecycle hook body"));
        }
        let body_end = self.pos - 1;
        if let Some(error) = self.check_body_for_typos(body_start, body_end) {
            return Err(error);
        }
        Ok(
            LifecycleHook {
                hook_type: lit(hook_type),
                body: trimmed_range(self.input.as_slice(), body_start, body_end),
            },
        )
    }
}


// ===================== Declarations =====================

/// The view of an optional string.
pub open spec fn opt_view(o: Option<String>) -> Option<Seq<char>> {
    match o {
        Some(x) => Some(x@),
        None => None,
    }
}

/// An optional `: Type` at `q` (after white space): the trimmed type, if there
/// is one, and the index after it and the white space that follows.
pub open spec fn type_annotation_at(s: Seq<char>, q: int) -> (Option<Seq<char>>, int) {
    if char_at(s, q) == Some(':') {
        let q2 = skip_trivia(s, q + 1);
        let te = type_end(s, q2, 0, 0, 0);
        (Some(spec_trim(s.subrange(q2, te))), skip_trivia(s, te))
    } else {
        (None, skip_trivia(s, q))
    }
}

/// What `fun name(params): Type { body }` at `p` (after `fun`) reads: the name,
/// the trimmed parameters, the return type, where the body starts and the
/// index after its closing `}`; or the error.
pub open spec fn fn_decl(s: Seq<char>, p: int) -> Result<
    (Seq<char>, Seq<char>, Option<Seq<char>>, int, int),
    Seq<char>,
> {
    let n0 = skip_trivia(s, p);
    let e1 = ident_end(s, n0);
    let q1 = skip_trivia(s, e1);
    let c = find_char(s, q1 + 1, ')');
    let (rt, q4) = type_annotation_at(s, skip_trivia(s, c + 1));
    if e1 == n0 {
        Err(error_at(s, n0, "Expected identifier"@))
    } else if char_at(s, q1) != Some('(') {
        Err(error_at(s, q1, expected_message('(', char_at(s, q1))))
    } else if c >= s.len() {
        Err("Unexpected EOF in function params"@)
    } else if char_at(s, q4) != Some('{') {
        Err(error_at(s, q4, expected_message('{', char_at(s, q4))))
    } else {
        match block_close(s, q4 + 1, 1) {
            None => Err("Unexpected EOF in function body"@),
            Some(e) => match body_typo(s, q4 + 1, e - 1) {
                Some(t) => Err(t),
                None => Ok(
                    (s.subrange(n0, e1), spec_trim(s.subrange(q1 + 1, c)), rt, q4 + 1, e),
                ),
            },
        }
    }
}

/// What `@prop val name: Type [= value]` at `p` (after `@prop`) reads: the
/// name, the type and, where a `=` follows, the index after it; or the error.
pub open spec fn prop_decl(s: Seq<char>, p: int) -> Result<
    (Seq<char>, Seq<char>, Option<int>),
    Seq<char>,
> {
    let n0 = skip_trivia(s, p);
    let n1 = skip_trivia(s, n0 + 3);
    let e1 = ident_end(s, n1);
    let q1 = skip_trivia(s, e1);
    let q2 = skip_trivia(s, q1 + 1);
    let te = type_end(s, q2, 0, 0, 0);
    let q3 = skip_trivia(s, te);
    if !word_at(s, n0, "val"@) {
        Err("Expected 'val' after @prop"@)
    } else if e1 == n1 {
        Err(error_at(s, n1, "Expected identifier"@))
    } else if char_at(s, q1) != Some(':') {
        Err(error_at(s, q1, expected_message(':', char_at(s, q1))))
    } else {
        Ok(
            (
                s.subrange(n1, e1),
                spec_trim(s.subrange(q2, te)),
                if char_at(s, q3) == Some('=') {
                    Some(q3 + 1)
                } else {
                    None
                },
            ),
        )
    }
}

/// The initial value of a state declaration whose value text is `v`, whether
/// it is derived state, and whether it is forced to `val`: `$derived(e)`
/// becomes `derivedStateOf { e }` and is always derived and immutable;
/// `derivedStateOf ...` is derived.
pub open spec fn derived_value(v: Seq<char>) -> (Seq<char>, bool, bool) {
    let t = spec_trim(v);
    if occurs_at(t, 0, "$derived("@) {
        let rest = t.subrange(9, t.len() as int);
        if rest.len() > 0 && rest.last() == ')' {
            ("derivedStateOf { "@ + spec_trim(rest.drop_last()) + " }"@, true, true)
        } else {
            (v, true, true)
        }
    } else {
        (v, occurs_at(t, 0, "derivedStateOf"@), false)
    }
}

/// Rust's debug form of an optional string: `None` or `Some("..")`.
pub open spec fn opt_debug_text(o: Option<Seq<char>>) -> Seq<char> {
    match o {
        Some(t) => "Some("@ + debug_text(t) + ")"@,
        None => "None"@,
    }
}

/// Rust's debug form of an optional character: `None` or `Some('..')`.
pub open spec fn opt_char_debug_text(o: Option<char>) -> Seq<char> {
    match o {
        Some(c) => "Some("@ + debug_char_text(c) + ")"@,
        None => "None"@,
    }
}

/// The message for a state declaration without `=`: it shows the name, and
/// in Rust's debug form the type, what was found and the text that follows.
pub open spec fn missing_equals_text(
    name: Seq<char>,
    ty: Option<Seq<char>>,
    found: Option<char>,
    context: Seq<char>,
) -> Seq<char> {
    "Expected '=' after variable '"@ + name + "' with type "@ + opt_debug_text(ty) + ", found: "@
        + opt_char_debug_text(found) + " (context: "@ + debug_text(context) + ")"@
}

/// The message for a state declaration without `=`.
fn missing_equals_message(
    name: &String,
    ty: &Option<String>,
    found: Option<char>,
    context: &String,
) -> (r: String)
    ensures
        r@ == missing_equals_text(name@, opt_view(*ty), found, context@),
{
    let mut m = lit("Expected '=' after variable '");
    push_string(&mut m, name);
    push_lit(&mut m, "' with type ");
    match ty {
        Some(t) => {
            push_lit(&mut m, "Some(");
            let d = debug_str(t);
            push_string(&mut m, &d);
            push_lit(&mut m, ")");
        },
        None => {
            push_lit(&mut m, "None");
        },
    }
    push_lit(&mut m, ", found: ");
    match found {
        Some(c) => {
            push_lit(&mut m, "Some(");
            let d = debug_char(c);
            push_string(&mut m, &d);
            push_lit(&mut m, ")");
        },
        None => {
            push_lit(&mut m, "None");
        },
    }
    push_lit(&mut m, " (context: ");
    let d = debug_str(context);
    push_string(&mut m, &d);
    push_lit(&mut m, ")");
    proof {
        assert(m@ =~= missing_equals_text(name@, opt_view(*ty), found, context@));
    }
    m
}

/// What `var|val name[: Type] = value` at `p` reads up to the `=`: whether it
/// is `var`, the name, the type, and the index after `=`; or the error.
pub open spec fn state_head(s: Seq<char>, p: int) -> Result<
    (bool, Seq<char>, Option<Seq<char>>, int),
    Seq<char>,
> {
    let mutable = word_at(s, p, "var"@);
    let n1 = skip_trivia(s, p + 3);
    let e1 = ident_end(s, n1);
    let (ta, q3) = type_annotation_at(s, skip_trivia(s, e1));
    if !word_at(s, p, "var"@) && !word_at(s, p, "val"@) {
        Err("Expected 'var' or 'val'"@)
    } else if e1 == n1 {
        Err(error_at(s, n1, "Expected identifier"@))
    } else if char_at(s, q3) != Some('=') {
        let end = if q3 + 50 < s.len() {
            q3 + 50
        } else {
            s.len() as int
        };
        Err(missing_equals_text(s.subrange(n1, e1), ta, char_at(s, q3), s.subrange(q3, end)))
    } else {
        Ok((mutable, s.subrange(n1, e1), ta, q3 + 1))
    }
}

impl Parser {
    /// Parses the path after `import`, up to the end of the line, trimmed.
    fn parse_import(&mut self) -> (r: Result<Import, String>)
        requires
            old(self).wf(),
        ensures
            final(self).wf(),
            final(self).input == old(self).input,
            ({
                let s = old(self).input@;
                let q = skip_trivia(s, old(self).pos as int);
                let e = next_newline(s, q);
                r matches Ok(i) && i.path@ == spec_trim(s.subrange(q, e)) && final(self).pos == e
            }),
            old(self).pos <= final(self).pos,
    {
        self.skip_whitespace();
        let start = self.pos;
        let ghost s = self.input@;
        proof {
            lemma_skip_trivia(s, old(self).pos as int);
        }
        while self.pos < self.input.len() && self.input[self.pos] != '\n'
            invariant
                self.wf(),
                self.input == old(self).input,
                s == self.input@,
                start <= self.pos,
                next_newline(s, self.pos as int) == next_newline(s, start as int),
            decreases s.len() - self.pos,
        {
            self.pos = self.pos + 1;
        }
        Ok(Import { path: trimmed_range(self.input.as_slice(), start, self.pos) })
    }

    /// Reads an optional `: Type` annotation and the white space after it.
    fn parse_type_annotation(&mut self) -> (r: Result<Option<String>, String>)
        requires
            old(self).wf(),
        ensures
            final(self).wf(),
            final(self).input == old(self).input,
            old(self).pos <= final(self).pos,
            r matches Ok(t) && opt_view(t) == type_annotation_at(
                old(self).input@,
                old(self).pos as int,
            ).0 && final(self).pos == type_annotation_at(old(self).input@, old(self).pos as int).1,
    {
        let ghost s = self.input@;
        if self.peek_char() == Some(':') {
            self.expect_char(':')?;
            self.skip_whitespace();
            proof {
                lemma_skip_trivia(s, old(self).pos + 1);
                lemma_type_end(s, self.pos as int, 0, 0, 0);
            }
            let t = self.parse_type()?;
            let ghost te = self.pos;
            self.skip_whitespace();
            proof {
                lemma_skip_trivia(s, te as int);
            }
            Ok(Some(t))
        } else {
            self.skip_whitespace();
            proof {
                lemma_skip_trivia(s, old(self).pos as int);
            }
            Ok(None)
        }
    }

    /// Parses `name(params)[: Type] { body }` after `fun`.
    fn parse_function_declaration(&mut self, is_suspend: bool) -> (r: Result<
        FunctionDeclaration,
        String,
    >)
        requires
            old(self).wf(),
        ensures
            final(self).wf(),
            final(self).input == old(self).input,
            old(self).pos <= final(self).pos,
            match fn_decl(old(self).input@, old(self).pos as int) {
                Err(m) => r matches Err(x) && x@ == m,
                Ok((name, params, rt, bs, e)) => r matches Ok(f) && f.name@ == name && f.params@
                    == params && opt_view(f.return_type) == rt && f.body@ == spec_trim(
                    old(self).input@.subrange(bs, e - 1),
                ) && f.is_suspend == is_suspend && f.markup is None && final(self).pos == e,
            },
    {
        let ghost s = self.input@;
        self.skip_whitespace();
        proof {
            lemma_skip_trivia(s, old(self).pos as int);
            lemma_ident_end(s, self.pos as int);
        }
        let name = self.parse_identifier()?;
        self.skip_whitespace();
        proof {
            lemma_skip_trivia(s, self.pos as int);
        }
        let ghost q1 = self.pos;
        self.expect_char('(')?;
        let param_start = self.pos;
        proof {
            lemma_find_char(s, param_start as int, ')');
        }
        while self.pos < self.input.len() && self.input[self.pos] != ')'
            invariant
                self.wf(),
                self.input == old(self).input,
                s == self.input@,
                param_start <= self.pos,
                find_char(s, self.pos as int, ')') == find_char(s, param_start as int, ')'),
            decreases s.len() - self.pos,
        {
            self.pos = self.pos + 1;
        }
        if self.pos >= self.input.len() {
            return Err(lit("Unexpected EOF in function params"));
        }
        let params = trimmed_range(self.input.as_slice(), param_start, self.pos);
        self.pos = self.pos + 1;
        self.skip_whitespace();
        proof {
            lemma_skip_trivia(s, self.pos as int);
        }
        let return_type = self.parse_type_annotation()?;
        let ghost q4 = self.pos;
        self.expect_char('{')?;
        let body_start = self.pos;
        proof {
            lemma_block_close(s, body_start as int, 1);
        }
        if !self.skip_block() {
            return Err(lit("Unexpected EOF in function body"));
        }
        let body_end = self.pos - 1;
        if let Some(error) = self.check_body_for_typos(body_start, body_end) {
            return Err(error);
        }
        Ok(
            FunctionDeclaration {
                name,
                params,
                return_type,
                body: trimmed_range(self.input.as_slice(), body_start, body_end),
                is_suspend,
                markup: None,
            },
        )
    }

    /// Parses `val name: Type [= value]` after `@prop`.
    fn parse_prop_declaration(&mut self) -> (r: Result<PropDeclaration, String>)
        requires
            old(self).wf(),
        ensures
            final(self).wf(),
            final(self).input == old(self).input,
            old(self).pos <= final(self).pos,
            match prop_decl(old(self).input@, old(self).pos as int) {
                Err(m) => r matches Err(x) && x@ == m,
                Ok((name, ty, None)) => r matches Ok(d) && d.name@ == name && d.prop_type@ == ty
                    && d.default_value is None,
                Ok((name, ty, Some(v))) => match value_text(old(self).input@, v) {
                    Some(t) => r matches Ok(d) && d.name@ == name && d.prop_type@ == ty
                        && opt_view(d.default_value) == Some(t),
                    None => r is Err,
                },
            },
            match prop_decl(old(self).input@, old(self).pos as int) {
                Ok((name, ty, None)) => r is Ok ==> final(self).pos == prop_type_end(
                    old(self).input@,
                    old(self).pos as int,
                ),
                Ok((name, ty, Some(v))) => value_span(
                    old(self).input@,
                    skip_trivia(old(self).input@, v),
                ) matches Some(e) ==> (r is Ok ==> final(self).pos == e),
                Err(_) => true,
            },
    {
        let ghost s = self.input@;
        self.skip_whitespace();
        proof {
            lemma_skip_trivia(s, old(self).pos as int);
            reveal_strlit("val");
        }
        if !self.consume_word("val") {
            return Err(lit("Expected 'val' after @prop"));
        }
        self.skip_whitespace();
        proof {
            lemma_skip_trivia(s, self.pos as int);
            lemma_ident_end(s, self.pos as int);
        }
        let name = self.parse_identifier()?;
        self.skip_whitespace();
        proof {
            lemma_skip_trivia(s, self.pos as int);
        }
        self.expect_char(':')?;
        self.skip_whitespace();
        proof {
            lemma_skip_trivia(s, self.pos as int);
            lemma_type_end(s, self.pos as int, 0, 0, 0);
        }
        let prop_type = self.parse_type()?;
        self.skip_whitespace();
        proof {
            lemma_skip_trivia(s, self.pos as int);
        }
        let default_value = if self.peek_char() == Some('=') {
            self.pos = self.pos + 1;
            Some(self.parse_value()?)
        } else {
            None
        };
        Ok(PropDeclaration { name, prop_type, default_value })
    }

    /// Parses `var|val name[: Type] = value`, turning `$derived(e)` into
    /// `derivedStateOf { e }`.
    fn parse_state_declaration(&mut self) -> (r: Result<StateDeclaration, String>)
        requires
            old(self).wf(),
        ensures
            final(self).wf(),
            final(self).input == old(self).input,
            old(self).pos <= final(self).pos,
            match state_head(old(self).input@, old(self).pos as int) {
                Err(m) => r matches Err(x) && x@ == m,
                Ok((mutable, name, ta, v)) => match value_text(old(self).input@, v) {
                    None => r is Err,
                    Some(t) => r matches Ok(d) && d.name@ == name && opt_view(d.type_annotation)
                        == ta && d.initial_value@ == derived_value(t).0 && d.is_derived_state
                        == derived_value(t).1 && d.mutable == (mutable && !derived_value(t).2)
                        && final(self).pos > old(self).pos,
                },
            },
            state_head(old(self).input@, old(self).pos as int) matches Ok((mutable, name, ta, v)) ==> (
            value_span(old(self).input@, skip_trivia(old(self).input@, v)) matches Some(e) ==> (r is Ok
                ==> final(self).pos == e)),
    {
        let ghost s = self.input@;
        proof {
            reveal_strlit("var");
            reveal_strlit("val");
        }
        let mutable = if self.consume_word("var") {
            true
        } else if self.consume_word("val") {
            false
        } else {
            return Err(lit("Expected 'var' or 'val'"));
        };
        self.skip_whitespace();
        proof {
            lemma_skip_trivia(s, self.pos as int);
            lemma_ident_end(s, self.pos as int);
        }
        let name = self.parse_identifier()?;
        self.skip_whitespace();
        proof {
            lemma_skip_trivia(s, self.pos as int);
        }
        let type_annotation = self.parse_type_annotation()?;
        if self.peek_char() != Some('=') {
            let end = if self.input.len() - self.pos > 50 {
                self.pos + 50
            } else {
                self.input.len()
            };
            let context = string_from_range(self.input.as_slice(), self.pos, end);
            return Err(
                missing_equals_message(&name, &type_annotation, self.peek_char(), &context),
            );
        }
        self.pos = self.pos + 1;
        let value = self.parse_value()?;
        let (initial_value, is_derived_state, forced_val) = derived_transform(&value);
        Ok(
            StateDeclaration {
                name,
                mutable: mutable && !forced_val,
                type_annotation,
                initial_value,
                is_derived_state,
            },
        )
    }
}

/// `derived_value` of `v`.
fn derived_transform(v: &String) -> (r: (String, bool, bool))
    ensures
        r.0@ == derived_value(v@).0,
        r.1 == derived_value(v@).1,
        r.2 == derived_value(v@).2,
{
    let t = str_to_chars(trim_str(v.as_str()).as_str());
    proof {
        reveal_strlit("$derived(");
        reveal_strlit("derivedStateOf");
    }
    if lit_at(t.as_slice(), 0, "$derived(") {
        let n = t.len();
        if n > 9 && t[n - 1] == ')' {
            let mut out = lit("derivedStateOf { ");
            let inner = trimmed_range(t.as_slice(), 9, n - 1);
            proof {
                let rest = t@.subrange(9, n as int);
                assert(rest.drop_last() == t@.subrange(9, n - 1));
            }
            push_string(&mut out, &inner);
            push_lit(&mut out, " }");
            (out, true, true)
        } else {
            (lit(v.as_str()), true, true)
        }
    } else {
        (lit(v.as_str()), lit_at(t.as_slice(), 0, "derivedStateOf"), false)
    }
}


// ===================== Classes =====================

/// Index of the `)` that closes a parenthesis whose text continues at `i` with
/// `d` parentheses open, if it is closed.
pub open spec fn paren_close(s: Seq<char>, i: int, d: int) -> Option<int>
    decreases s.len() - i,
{
    if i < 0 || i >= s.len() {
        None
    } else if s[i] == '(' {
        paren_close(s, i + 1, d + 1)
    } else if s[i] == ')' {
        if d <= 1 {
            Some(i)
        } else {
            paren_close(s, i + 1, d - 1)
        }
    } else {
        paren_close(s, i + 1, d)
    }
}

pub proof fn lemma_paren_close(s: Seq<char>, i: int, d: int)
    requires
        0 <= i <= s.len(),
    ensures
        paren_close(s, i, d) matches Some(c) ==> i <= c < s.len() && s[c] == ')',
    decreases s.len() - i,
{
    if i < s.len() {
        if s[i] == '(' {
            lemma_paren_close(s, i + 1, d + 1);
        } else if s[i] == ')' {
            if d > 1 {
                lemma_paren_close(s, i + 1, d - 1);
            }
        } else {
            lemma_paren_close(s, i + 1, d);
        }
    }
}

/// What a constructor at `p` reads (`@Inject constructor(...)`,
/// `constructor(...)` or `(...)`): its annotations, its trimmed parameters and
/// the index after its `)`; or the error.
pub open spec fn constructor_decl(s: Seq<char>, p: int) -> Result<
    (Seq<Seq<char>>, Seq<char>, int),
    Seq<char>,
> {
    let n0 = skip_trivia(s, p);
    let annotated = char_at(s, n0) == Some('@');
    let e1 = ident_end(s, n0 + 1);
    let n2 = skip_trivia(s, e1);
    let q = if annotated {
        skip_trivia(s, n2 + 11)
    } else if word_at(s, n0, "constructor"@) {
        skip_trivia(s, n0 + 11)
    } else {
        skip_trivia(s, n0)
    };
    let anns = if annotated {
        seq![s.subrange(n0 + 1, e1)]
    } else {
        Seq::empty()
    };
    if annotated && e1 == n0 + 1 {
        Err(error_at(s, n0 + 1, "Expected identifier"@))
    } else if annotated && !word_at(s, n2, "constructor"@) {
        Err(error_at(s, n2, "Expected 'constructor' keyword after @Inject"@))
    } else if char_at(s, q) != Some('(') {
        Err(error_at(s, q, expected_message('(', char_at(s, q))))
    } else {
        match paren_close(s, q + 1, 1) {
            None => Err("Unexpected EOF in constructor"@),
            Some(c) => Ok((anns, spec_trim(s.subrange(q + 1, c)), c + 1)),
        }
    }
}

/// Index of the first `'\n'` or `}` at or after `i` (or the end).
pub open spec fn getter_end(s: Seq<char>, i: int) -> int
    decreases s.len() - i,
{
    if i < 0 || i >= s.len() || s[i] == '\n' || s[i] == '}' {
        i
    } else {
        getter_end(s, i + 1)
    }
}

/// What a class property `var|val name[: Type] [= value | get() = expr]` at `p`
/// reads: whether it is `var`, the name, the type, where its value starts (the
/// index after `=`), its getter; or the error.
pub open spec fn property_decl(s: Seq<char>, p: int) -> Result<
    (bool, Seq<char>, Option<Seq<char>>, Option<int>, Option<Seq<char>>),
    Seq<char>,
> {
    let mutable = word_at(s, p, "var"@);
    let n1 = skip_trivia(s, p + 3);
    let e1 = ident_end(s, n1);
    let (ta, q3) = type_annotation_at(s, skip_trivia(s, e1));
    let g1 = skip_trivia(s, q3 + 3);
    let g2 = skip_trivia(s, g1 + 2);
    let g3 = skip_trivia(s, g2 + 1);
    if !word_at(s, p, "var"@) && !word_at(s, p, "val"@) {
        Err("Expected 'var' or 'val'"@)
    } else if e1 == n1 {
        Err(error_at(s, n1, "Expected identifier"@))
    } else if occurs_at(s, q3, "get"@) {
        if char_at(s, g1) != Some('(') {
            Err(error_at(s, g1, expected_message('(', char_at(s, g1))))
        } else if char_at(s, g1 + 1) != Some(')') {
            Err(error_at(s, g1 + 1, expected_message(')', char_at(s, g1 + 1))))
        } else if char_at(s, g2) != Some('=') {
            Err(error_at(s, g2, expected_message('=', char_at(s, g2))))
        } else {
            Ok(
                (
                    mutable,
                    s.subrange(n1, e1),
                    ta,
                    None,
                    Some(spec_trim(s.subrange(g3, getter_end(s, g3)))),
                ),
            )
        }
    } else if char_at(s, q3) == Some('=') {
        Ok((mutable, s.subrange(n1, e1), ta, Some(q3 + 1), None))
    } else {
        Ok((mutable, s.subrange(n1, e1), ta, None, None))
    }
}

/// What the head `class|object Name` at `p` reads: whether it is an object and
/// its name; or the error.
pub open spec fn class_head(s: Seq<char>, p: int) -> Result<(bool, Seq<char>), Seq<char>> {
    let n0 = skip_trivia(s, p);
    let is_object = word_at(s, n0, "object"@);
    let n1 = skip_trivia(
        s,
        if is_object {
            n0 + 6
        } else {
            n0 + 5
        },
    );
    let e1 = ident_end(s, n1);
    if !is_object && !word_at(s, n0, "class"@) {
        Err(error_at(s, n0, "Expected 'class' or 'object' keyword"@))
    } else if e1 == n1 {
        Err(error_at(s, n1, "Expected identifier"@))
    } else {
        Ok((is_object, s.subrange(n1, e1)))
    }
}

/// Whether the magic name `t` at `i` is followed by ` `, `{`, `(` or `'\n'`.
pub open spec fn magic_typo_at(s: Seq<char>, i: int, t: Seq<char>) -> bool {
    &&& occurs_at(s, i, t)
    &&& (char_at(s, i + t.len()) == Some(' ') || char_at(s, i + t.len()) == Some('{') || char_at(
        s,
        i + t.len(),
    ) == Some('(') || char_at(s, i + t.len()) == Some('\n'))
}

/// The error for a magic name written without `$`.
pub open spec fn magic_typo_text(
    s: Seq<char>,
    i: int,
    name: Seq<char>,
    desc: Seq<char>,
) -> Seq<char> {
    let n = if i < s.len() {
        i
    } else {
        s.len() as int
    };
    error_text(
        s,
        line_col(s, n).0,
        line_col(s, n).1,
        "unknown identifier '"@ + name + "'"@,
        Some("did you mean '$"@ + name + "'? ("@ + desc + " requires $ prefix)"@),
    )
}

/// The error for a markup directive written without `@`.
pub open spec fn directive_typo_text(
    s: Seq<char>,
    i: int,
    found: Seq<char>,
    name: Seq<char>,
    desc: Seq<char>,
) -> Seq<char> {
    let n = if i < s.len() {
        i
    } else {
        s.len() as int
    };
    error_text(
        s,
        line_col(s, n).0,
        line_col(s, n).1,
        "unexpected '"@ + found + "'"@,
        Some("did you mean '@"@ + name + "'? ("@ + desc + " requires @ prefix in markup)"@),
    )
}

/// The error for a common typo at `i`, if there is one.
pub open spec fn typo_check(s: Seq<char>, i: int) -> Option<Seq<char>> {
    if magic_typo_at(s, i, "onMount"@) {
        Some(magic_typo_text(s, i, "onMount"@, "lifecycle hook"@))
    } else if magic_typo_at(s, i, "onDispose"@) {
        Some(magic_typo_text(s, i, "onDispose"@, "lifecycle hook"@))
    } else if magic_typo_at(s, i, "fetch("@) {
        Some(magic_typo_text(s, i, "fetch"@, "HTTP request function"@))
    } else if magic_typo_at(s, i, "log("@) {
        Some(magic_typo_text(s, i, "log"@, "logging function"@))
    } else if magic_typo_at(s, i, "navigate("@) {
        Some(magic_typo_text(s, i, "navigate"@, "navigation function"@))
    } else if occurs_at(s, i, "if ("@) {
        Some(directive_typo_text(s, i, "if ("@, "if"@, "conditional directive"@))
    } else if occurs_at(s, i, "if("@) {
        Some(directive_typo_text(s, i, "if("@, "if"@, "conditional directive"@))
    } else if occurs_at(s, i, "for ("@) {
        Some(directive_typo_text(s, i, "for ("@, "for"@, "loop directive"@))
    } else if occurs_at(s, i, "for("@) {
        Some(directive_typo_text(s, i, "for("@, "for"@, "loop directive"@))
    } else if occurs_at(s, i, "when ("@) {
        Some(directive_typo_text(s, i, "when ("@, "when"@, "when directive"@))
    } else if occurs_at(s, i, "when("@) {
        Some(directive_typo_text(s, i, "when("@, "when"@, "when directive"@))
    } else {
        None
    }
}

impl Parser {
    /// Whether the magic name `t` occurs at the current index followed by ` `,
    /// `{`, `(` or `'\n'`.
    fn magic_typo_here(&self, t: &str) -> (r: bool)
        requires
            self.wf(),
        ensures
            r == magic_typo_at(self.input@, self.pos as int, t@),
    {
        if !self.starts_with(t) {
            return false;
        }
        let n = t.unicode_len();
        match self.peek_ahead(n) {
            Some(c) => c == ' ' || c == '{' || c == '(' || c == '\n',
            None => false,
        }
    }

    /// The error for a magic name without `$`.
    fn magic_typo_error(&self, name: &str, desc: &str) -> (r: String)
        requires
            self.wf(),
        ensures
            r@ == magic_typo_text(self.input@, self.pos as int, name@, desc@),
    {
        let (line, col) = self.pos_to_line_col(self.pos);
        proof {
            lemma_line_col_bounds(
                self.input@,
                if self.pos < self.input@.len() {
                    self.pos as int
                } else {
                    self.input@.len() as int
                },
            );
        }
        let mut msg = lit("unknown identifier '");
        push_lit(&mut msg, name);
        push_lit(&mut msg, "'");
        let mut help = lit("did you mean '$");
        push_lit(&mut help, name);
        push_lit(&mut help, "'? (");
        push_lit(&mut help, desc);
        push_lit(&mut help, " requires $ prefix)");
        self.format_error(line, col, &msg, Some(&help))
    }

    /// The error for a directive without `@`.
    fn directive_typo_error(&self, found: &str, name: &str, desc: &str) -> (r: String)
        requires
            self.wf(),
        ensures
            r@ == directive_typo_text(self.input@, self.pos as int, found@, name@, desc@),
    {
        let (line, col) = self.pos_to_line_col(self.pos);
        proof {
            lemma_line_col_bounds(
                self.input@,
                if self.pos < self.input@.len() {
                    self.pos as int
                } else {
                    self.input@.len() as int
                },
            );
        }
        let mut msg = lit("unexpected '");
        push_lit(&mut msg, found);
        push_lit(&mut msg, "'");
        let mut help = lit("did you mean '@");
        push_lit(&mut help, name);
        push_lit(&mut help, "'? (");
        push_lit(&mut help, desc);
        push_lit(&mut help, " requires @ prefix in markup)");
        self.format_error(line, col, &msg, Some(&help))
    }

    /// The error for a common typo at the current index (a magic function or
    /// hook without `$`, a markup directive without `@`), if there is one.
    fn check_for_typos(&self) -> (r: Option<String>)
        requires
            self.wf(),
        ensures
            match r {
                Some(m) => typo_check(self.input@, self.pos as int) == Some(m@),
                None => typo_check(self.input@, self.pos as int) is None,
            },
    {
        if self.magic_typo_here("onMount") {
            Some(self.magic_typo_error("onMount", "lifecycle hook"))
        } else if self.magic_typo_here("onDispose") {
            Some(self.magic_typo_error("onDispose", "lifecycle hook"))
        } else if self.magic_typo_here("fetch(") {
            Some(self.magic_typo_error("fetch", "HTTP request function"))
        } else if self.magic_typo_here("log(") {
            Some(self.magic_typo_error("log", "logging function"))
        } else if self.magic_typo_here("navigate(") {
            Some(self.magic_typo_error("navigate", "navigation function"))
        } else if self.starts_with("if (") {
            Some(self.directive_typo_error("if (", "if", "conditional directive"))
        } else if self.starts_with("if(") {
            Some(self.directive_typo_error("if(", "if", "conditional directive"))
        } else if self.starts_with("for (") {
            Some(self.directive_typo_error("for (", "for", "loop directive"))
        } else if self.starts_with("for(") {
            Some(self.directive_typo_error("for(", "for", "loop directive"))
        } else if self.starts_with("when (") {
            Some(self.directive_typo_error("when (", "when", "when directive"))
        } else if self.starts_with("when(") {
            Some(self.directive_typo_error("when(", "when", "when directive"))
        } else {
            None
        }
    }

    /// Parses a constructor: `@Inject constructor(...)`, `constructor(...)` or
    /// `(...)`.
    fn parse_constructor(&mut self) -> (r: Result<ConstructorDeclaration, String>)
        requires
            old(self).wf(),
        ensures
            final(self).wf(),
            final(self).input == old(self).input,
            old(self).pos <= final(self).pos,
            match constructor_decl(old(self).input@, old(self).pos as int) {
                Err(m) => r matches Err(x) && x@ == m,
                Ok((anns, params, e)) => r matches Ok(c) && c.annotations@.map_values(
                    |a: String| a@,
                ) == anns && c.parameters@ == params && final(self).pos == e,
            },
    {
        let ghost s = self.input@;
        self.skip_whitespace();
        proof {
            reveal_strlit("constructor");
        }
        let mut annotations: Vec<String> = Vec::new();
        if self.peek_char() == Some('@') {
            self.pos = self.pos + 1;
            proof {
                lemma_ident_end(s, self.pos as int);
            }
            let annotation = self.parse_identifier()?;
            annotations.push(annotation);
            self.skip_whitespace();
            if !self.consume_word("constructor") {
                return Err(self.error_at_pos("Expected 'constructor' keyword after @Inject"));
            }
            self.skip_whitespace();
        } else {
            self.consume_word("constructor");
            self.skip_whitespace();
        }
        proof {
            let n0 = skip_trivia(s, old(self).pos as int);
            let e1 = ident_end(s, n0 + 1);
            assert(annotations@.map_values(|a: String| a@) =~= if char_at(s, n0) == Some('@') {
                seq![s.subrange(n0 + 1, e1)]
            } else {
                Seq::<Seq<char>>::empty()
            });
        }
        self.expect_char('(')?;
        let param_start = self.pos;
        let mut depth: usize = 1;
        loop
            invariant_except_break
                self.wf(),
                self.input == old(self).input,
                s == self.input@,
                param_start <= self.pos,
                1 <= depth <= self.pos - param_start + 1,
                paren_close(s, self.pos as int, depth as int) == paren_close(
                    s,
                    param_start as int,
                    1,
                ),
            ensures
                self.wf(),
                self.input == old(self).input,
                param_start <= self.pos,
                match paren_close(s, param_start as int, 1) {
                    Some(c) => depth == 0 && self.pos == c,
                    None => depth > 0,
                },
            decreases s.len() - self.pos,
        {
            if self.pos >= self.input.len() {
                break;
            }
            let ch = self.input[self.pos];
            if ch == '(' {
                depth = depth + 1;
            } else if ch == ')' {
                if depth == 1 {
                    depth = 0;
                    break;
                }
                depth = depth - 1;
            }
            self.pos = self.pos + 1;
        }
        if depth > 0 {
            return Err(lit("Unexpected EOF in constructor"));
        }
        proof {
            lemma_paren_close(s, param_start as int, 1);
        }
        let parameters = trimmed_range(self.input.as_slice(), param_start, self.pos);
        self.pos = self.pos + 1;
        Ok(ConstructorDeclaration { annotations, parameters })
    }

    /// Parses a class property `var|val name[: Type] [= value | get() = expr]`,
    /// with the visibility already read.
    fn parse_property_declaration_with_visibility(&mut self, visibility: Option<String>) -> (r:
        Result<PropertyDeclaration, String>)
        requires
            old(self).wf(),
        ensures
            final(self).wf(),
            final(self).input == old(self).input,
            old(self).pos <= final(self).pos,
            r is Ok ==> old(self).pos < final(self).pos,
            match property_decl(old(self).input@, old(self).pos as int) {
                Err(m) => r matches Err(x) && x@ == m,
                Ok((mutable, name, ta, Some(v), _)) => match value_text(old(self).input@, v) {
                    None => r is Err,
                    Some(t) => r matches Ok(d) && d.mutable == mutable && d.name@ == name
                        && opt_view(d.type_annotation) == ta && opt_view(d.initial_value) == Some(
                        t,
                    ) && d.getter is None && d.visibility == visibility,
                },
                Ok((mutable, name, ta, None, g)) => r matches Ok(d) && d.mutable == mutable
                    && d.name@ == name && opt_view(d.type_annotation) == ta && d.initial_value is None
                    && opt_view(d.getter) == g && d.visibility == visibility,
            },
            property_decl(old(self).input@, old(self).pos as int) matches Ok((m, n, ta, Some(v), g))
                ==> (value_span(old(self).input@, skip_trivia(old(self).input@, v)) matches Some(e)
                ==> (r is Ok ==> final(self).pos == e)),
    {
        let ghost s = self.input@;
        proof {
            reveal_strlit("var");
            reveal_strlit("val");
            reveal_strlit("get");
        }
        let mutable = if self.consume_word("var") {
            true
        } else if self.consume_word("val") {
            false
        } else {
            return Err(lit("Expected 'var' or 'val'"));
        };
        self.skip_whitespace();
        proof {
            lemma_ident_end(s, self.pos as int);
        }
        let name = self.parse_identifier()?;
        self.skip_whitespace();
        let type_annotation = self.parse_type_annotation()?;
        if self.starts_with("get") {
            self.consume_word("get");
            self.skip_whitespace();
            self.expect_char('(')?;
            self.expect_char(')')?;
            self.skip_whitespace();
            self.expect_char('=')?;
            self.skip_whitespace();
            let start = self.pos;
            while self.pos < self.input.len() && self.input[self.pos] != '\n' && self.input[self.pos]
                != '}'
                invariant
                    self.wf(),
                    self.input == old(self).input,
                    s == self.input@,
                    start <= self.pos,
                    getter_end(s, self.pos as int) == getter_end(s, start as int),
                decreases s.len() - self.pos,
            {
                self.pos = self.pos + 1;
            }
            let getter = trimmed_range(self.input.as_slice(), start, self.pos);
            Ok(
                PropertyDeclaration {
                    name,
                    mutable,
                    type_annotation,
                    initial_value: None,
                    getter: Some(getter),
                    visibility,
                },
            )
        } else {
            let initial_value = if self.peek_char() == Some('=') {
                self.pos = self.pos + 1;
                Some(self.parse_value()?)
            } else {
                None
            };
            Ok(
                PropertyDeclaration {
                    name,
                    mutable,
                    type_annotation,
                    initial_value,
                    getter: None,
                    visibility,
                },
            )
        }
    }

    /// Parses `class|object Name [constructor] { properties and functions }`.
    #[verifier::spinoff_prover]
    #[verifier::rlimit(100)]
    fn parse_class_declaration(&mut self, annotations: Vec<String>) -> (r: Result<
        ClassDeclaration,
        String,
    >)
        requires
            old(self).wf(),
        ensures
            final(self).wf(),
            final(self).input == old(self).input,
            old(self).pos <= final(self).pos,
            match class_head(old(self).input@, old(self).pos as int) {
                Err(m) => r matches Err(x) && x@ == m,
                Ok((is_object, name)) => r matches Ok(c) ==> c.is_object == is_object && c.name@
                    == name && c.annotations == annotations && old(self).pos < final(self).pos,
            },
            match empty_class_end(old(self).input@, old(self).pos as int) {
                Some(e) => match r {
                    Ok(c) => c.constructor is None && c.properties@.len() == 0 && c.functions@.len()
                        == 0 && final(self).pos == e,
                    Err(_) => false,
                },
                None => true,
            },
            class_at(old(self).input@, old(self).pos as int) matches Some((io, n, ps, fs, e)) ==> (
            r matches Ok(c) && c.is_object == io && c.name@ == n && c.constructor is None
                && props_text(c.properties@) == ps && fns_view(c.functions@) == fs
                && c.annotations == annotations && final(self).pos == e),
    {
        let ghost s = self.input@;
        let ghost pe = empty_class_end(s, self.pos as int);
        let ghost p = self.pos as int;
        let ghost ca = class_at(s, p);
        self.skip_whitespace();
        proof {
            reveal_strlit("object");
            reveal_strlit("class");
            reveal_strlit("fun");
        }
        let is_object = if self.consume_word("object") {
            true
        } else if self.consume_word("class") {
            false
        } else {
            return Err(self.error_at_pos("Expected 'class' or 'object' keyword"));
        };
        self.skip_whitespace();
        proof {
            lemma_ident_end(s, self.pos as int);
        }
        let name = self.parse_identifier()?;
        self.skip_whitespace();
        let constructor = if self.peek_word_is("constructor") || self.peek_char() == Some('(')
            || self.peek_char() == Some('@') {
            Some(self.parse_constructor()?)
        } else {
            None
        };
        self.skip_whitespace();
        self.expect_char('{')?;
        let ghost cm = class_members_at(s, self.pos as int);
        let mut properties: Vec<PropertyDeclaration> = Vec::new();
        let mut functions: Vec<FunctionDeclaration> = Vec::new();
        proof {
            if let Some((io, n, ps, fs, e)) = ca {
                assert(cm == Some((ps, fs, e)));
            }
            assert(props_text(properties@) =~= Seq::<PropText>::empty());
            assert(fns_view(functions@) =~= Seq::<FnText>::empty());
            if let Some((a, b, e)) = cm {
                assert(Seq::<PropText>::empty() + a =~= a);
                assert(Seq::<FnText>::empty() + b =~= b);
            }
        }
        loop
            invariant_except_break
                self.wf(),
                self.input == old(self).input,
                s == self.input@,
                old(self).pos < self.pos,
                class_head(s, old(self).pos as int) is Ok,
                p == old(self).pos,
                pe == empty_class_end(s, p),
                pe is Some ==> char_at(s, skip_trivia(s, self.pos as int)) == Some('}')
                    && skip_trivia(s, self.pos as int) + 1 == pe.unwrap() && properties@.len() == 0
                    && functions@.len() == 0 && constructor is None,
                ca == class_at(s, p),
                ca matches Some((io, n, ps, fs, e)) ==> cm == Some((ps, fs, e)),
                ca is Some ==> constructor is None && cm is Some && cm == after_members(
                    props_text(properties@),
                    fns_view(functions@),
                    class_members_at(s, self.pos as int),
                ),
            ensures
                self.wf(),
                self.input == old(self).input,
                old(self).pos < self.pos,
                pe is Some ==> self.pos == pe.unwrap() && properties@.len() == 0 && functions@.len()
                    == 0 && constructor is None,
                ca == class_at(s, p),
                ca matches Some((io, n, ps, fs, e)) ==> cm == Some((ps, fs, e)),
                ca is Some ==> constructor is None && cm == Some(
                    (props_text(properties@), fns_view(functions@), self.pos as int),
                ),
            decreases s.len() - self.pos,
        {
            let iter_start = self.pos;
            proof {
                reveal_strlit("fun");
                reveal_strlit("suspend");
                reveal_strlit("var");
                reveal_strlit("val");
            }
            let ghost i0 = self.pos as int;
            let ghost pr0 = properties@;
            let ghost fn0 = functions@;
            self.skip_whitespace();
            let ghost qi = self.pos as int;
            if self.peek_char() == Some('}') {
                self.pos = self.pos + 1;
                proof {
                    if ca is Some {
                        assert(props_text(pr0) + Seq::<PropText>::empty() =~= props_text(pr0));
                        assert(fns_view(fn0) + Seq::<FnText>::empty() =~= fns_view(fn0));
                    }
                }
                break;
            }
            if self.peek_word_is("var") || self.peek_word_is("val") || self.peek_word_is("private")
                || self.peek_word_is("protected") || self.peek_word_is("public") {
                let visibility = if self.peek_word_is("private") || self.peek_word_is("protected")
                    || self.peek_word_is("public") {
                    proof {
                        lemma_visibility_words();
                        assert(class_members_at(s, i0) is None);
                    }
                    let vis = self.parse_identifier()?;
                    self.skip_whitespace();
                    Some(vis)
                } else {
                    None
                };
                if self.peek_word_is("var") || self.peek_word_is("val") {
                    let d = self.parse_property_declaration_with_visibility(visibility)?;
                    properties.push(d);
                    proof {
                        if ca is Some {
                            assert(class_members_at(s, i0) is Some);
                            assert(visibility is None);
                            assert(properties@.drop_last() =~= pr0);
                            let x = props_text(properties@).last();
                            assert(props_text(properties@) =~= props_text(pr0).push(x));
                            if let Some((a, b, end)) = class_members_at(s, self.pos as int) {
                                assert(props_text(pr0) + (seq![x] + a) =~= props_text(properties@)
                                    + a);
                            }
                        }
                    }
                } else {
                    return Err(
                        self.error_at_pos("Expected 'var' or 'val' after visibility modifier"),
                    );
                }
            } else if self.peek_word_is("fun") || self.peek_word_is("suspend") {
                let is_suspend = self.consume_word("suspend");
                if is_suspend {
                    self.skip_whitespace();
                }
                self.expect_word("fun")?;
                let fd = self.parse_function_declaration(is_suspend)?;
                functions.push(fd);
                proof {
                    if ca is Some {
                        assert(class_members_at(s, i0) is Some);
                        assert(functions@.drop_last() =~= fn0);
                        let x = fns_view(functions@).last();
                        assert(fns_view(functions@) =~= fns_view(fn0).push(x));
                        if let Some((a, b, end)) = class_members_at(s, self.pos as int) {
                            assert(fns_view(fn0) + (seq![x] + b) =~= fns_view(functions@) + b);
                        }
                    }
                }
            } else if self.peek_char().is_some() {
                return Err(self.error_at_pos("Unexpected content in class body"));
            } else {
                return Err(lit("Unexpected EOF in class body"));
            }
            assert(self.pos > iter_start);
        }
        Ok(ClassDeclaration { annotations, is_object, name, constructor, properties, functions })
    }
}


// ===================== Markup =====================

/// `b` is `a` after moving forward over the same text.
spec fn moved(a: Parser, b: Parser) -> bool {
    &&& b.wf()
    &&& b.input == a.input
    &&& a.pos <= b.pos
}

/// Whether a control-flow directive (`@if `, `@for `, `@when `) starts at `i`.
pub open spec fn directive_at(s: Seq<char>, i: int) -> bool {
    occurs_at(s, i, "@if "@) || occurs_at(s, i, "@for "@) || occurs_at(s, i, "@when "@)
}

/// Where text in markup stops: the end, `<`, a single `}` or a directive.
pub open spec fn text_stop(s: Seq<char>, i: int) -> bool {
    ||| char_at(s, i) is None
    ||| char_at(s, i) == Some('<')
    ||| (char_at(s, i) == Some('}') && char_at(s, i + 1) != Some('}'))
    ||| directive_at(s, i)
}

/// Rust's debug form of a string (quoted and escaped).
pub uninterp spec fn debug_text(s: Seq<char>) -> Seq<char>;

/// The debug form of `s` (calls `format!` with `{:?}`).
#[verifier::external_body]
fn debug_str(s: &String) -> (r: String)
    ensures
        r@ == debug_text(s@),
{
    format!("{:?}", s)
}

/// Rust's debug form of a character (quoted and escaped).
pub uninterp spec fn debug_char_text(c: char) -> Seq<char>;

/// The debug form of `c` (calls `format!` with `{:?}`).
#[verifier::external_body]
fn debug_char(c: char) -> (r: String)
    ensures
        r@ == debug_char_text(c),
{
    format!("{:?}", c)
}

/// `n` in decimal.
fn decimal_text(n: usize) -> (r: String)
    ensures
        r@ == decimal(n as nat),
{
    let mut r = String::new();
    push_decimal(&mut r, n);
    r
}


/// A piece of text in markup: `(false, text)` or `(true, expression)`.
pub open spec fn piece_of(m: Markup) -> (bool, Seq<char>) {
    match m {
        Markup::Text(t) => (false, t@),
        Markup::Interpolation(e) => (true, e@),
        _ => (false, Seq::empty()),
    }
}

/// The pieces of text `v`.
pub open spec fn pieces(v: Seq<Markup>) -> Seq<(bool, Seq<char>)> {
    v.map_values(|m: Markup| piece_of(m))
}

/// Text `cur` as a piece, when it is not empty.
pub open spec fn flushed(cur: Seq<char>) -> Seq<(bool, Seq<char>)> {
    if cur.len() > 0 {
        seq![(false, cur)]
    } else {
        Seq::empty()
    }
}

/// `pre` before the pieces of a scan.
pub open spec fn after_pieces(pre: Seq<(bool, Seq<char>)>, o: Option<(Seq<(bool, Seq<char>)>, int)>) -> Option<
    (Seq<(bool, Seq<char>)>, int),
> {
    match o {
        Some((ps, e)) => Some((pre + ps, e)),
        None => None,
    }
}

/// The pieces of text in markup from `i` on after text `cur`, and where
/// they stop (the end, `<`, a single `}` or a directive): `{{` and `}}` stand
/// for `{` and `}`, `{expr}` is an interpolation; `None` when one is not
/// closed.
pub open spec fn markup_text_scan(s: Seq<char>, i: int, cur: Seq<char>) -> Option<
    (Seq<(bool, Seq<char>)>, int),
>
    decreases s.len() - i,
{
    if i < 0 || text_stop(s, i) {
        Some((flushed(cur), i))
    } else if s[i] == '}' {
        markup_text_scan(s, i + 2, cur.push('}'))
    } else if s[i] == '{' {
        if char_at(s, i + 1) == Some('{') {
            markup_text_scan(s, i + 2, cur.push('{'))
        } else {
            let e = until_char_end(s, i + 1, '}', 0, 0, 0);
            if char_at(s, e) == Some('}') && e >= i + 1 {
                after_pieces(
                    flushed(cur) + seq![(true, s.subrange(i + 1, e))],
                    markup_text_scan(s, e + 1, Seq::empty()),
                )
            } else {
                None
            }
        }
    } else {
        markup_text_scan(s, i + 1, cur.push(s[i]))
    }
}

/// The pieces of text from `i` on after text `cur`, up to `delim` or the
/// end: `{{` and `}}` stand for `{` and `}`, `{expr}` is an interpolation;
/// `None` when one is not closed.
pub open spec fn delimited_text_scan(s: Seq<char>, i: int, delim: char, cur: Seq<char>) -> Option<
    (Seq<(bool, Seq<char>)>, int),
>
    decreases s.len() - i,
{
    if i < 0 || i >= s.len() || s[i] == delim {
        Some((flushed(cur), i))
    } else if s[i] == '{' {
        if char_at(s, i + 1) == Some('{') {
            delimited_text_scan(s, i + 2, delim, cur.push('{'))
        } else {
            let e = until_char_end(s, i + 1, '}', 0, 0, 0);
            if char_at(s, e) == Some('}') && e >= i + 1 {
                after_pieces(
                    flushed(cur) + seq![(true, s.subrange(i + 1, e))],
                    delimited_text_scan(s, e + 1, delim, Seq::empty()),
                )
            } else {
                None
            }
        }
    } else if s[i] == '}' && char_at(s, i + 1) == Some('}') {
        delimited_text_scan(s, i + 2, delim, cur.push('}'))
    } else {
        delimited_text_scan(s, i + 1, delim, cur.push(s[i]))
    }
}

/// Pieces before pieces before a scan.
pub proof fn lemma_after_pieces(
    a: Seq<(bool, Seq<char>)>,
    b: Seq<(bool, Seq<char>)>,
    o: Option<(Seq<(bool, Seq<char>)>, int)>,
)
    ensures
        after_pieces(a, after_pieces(b, o)) == after_pieces(a + b, o),
{
    if let Some((ps, e)) = o {
        assert(a + (b + ps) =~= (a + b) + ps);
    }
}

/// No directive starts at a character other than `@`.
pub proof fn lemma_no_directive(s: Seq<char>, i: int)
    requires
        0 <= i < s.len(),
        s[i] != '@',
    ensures
        !directive_at(s, i),
{
    reveal_strlit("@if ");
    reveal_strlit("@for ");
    reveal_strlit("@when ");
    if occurs_at(s, i, "@if "@) {
        assert(s.subrange(i, i + 4)[0] == s[i]);
    }
    if occurs_at(s, i, "@for "@) {
        assert(s.subrange(i, i + 5)[0] == s[i]);
    }
    if occurs_at(s, i, "@when "@) {
        assert(s.subrange(i, i + 6)[0] == s[i]);
    }
}

/// Where a word after an optional `@` starts at `q`.
pub open spec fn at_skip(s: Seq<char>, q: int) -> int {
    if char_at(s, q) == Some('@') {
        q + 1
    } else {
        q
    }
}

/// `(condition) {` from `p` (white space allowed before `(` and `{`): the
/// condition and the index after `{`, or `None` when it is not there.
pub open spec fn condition_open(s: Seq<char>, p: int) -> Option<(Seq<char>, int)> {
    let q = skip_trivia(s, p);
    if char_at(s, q) == Some('(') {
        let e = until_char_end(s, q + 1, ')', 0, 0, 0);
        if char_at(s, e) == Some(')') {
            let q2 = skip_trivia(s, e + 1);
            if char_at(s, q2) == Some('{') {
                Some((s.subrange(q + 1, e), q2 + 1))
            } else {
                None
            }
        } else {
            None
        }
    } else {
        None
    }
}

/// A block of text only, from `i` up to and including its closing `}`:
/// its text pieces and the index after the `}`; `None` when the block holds
/// anything else (components, directives, declarations) or is not closed.
pub open spec fn plain_block(s: Seq<char>, i: int) -> Option<(Seq<(bool, Seq<char>)>, int)>
    decreases s.len() - i,
{
    let q = skip_trivia(s, i);
    if char_at(s, q) == Some('}') {
        Some((Seq::empty(), q + 1))
    } else if char_at(s, q) is None || char_at(s, q) == Some('@') || char_at(s, q) == Some('<')
        || occurs_at(s, q, "val "@) || occurs_at(s, q, "var "@) {
        None
    } else {
        match markup_text_scan(s, q, Seq::empty()) {
            Some((ps, e)) => if i < e && q < e && e <= s.len() {
                after_pieces(ps, plain_block(s, e))
            } else {
                None
            },
            None => None,
        }
    }
}

/// The children of `<parent>` when they are text only, up to and including
/// `</parent>`: their text pieces and the index after the closing tag;
/// `None` when they hold anything else or are not closed so.
pub open spec fn plain_children(s: Seq<char>, i: int, parent: Seq<char>) -> Option<
    (Seq<(bool, Seq<char>)>, int),
>
    decreases s.len() - i,
{
    let q = skip_trivia(s, i);
    if char_at(s, q) == Some('<') && char_at(s, q + 1) == Some('/') {
        let k = ident_end(s, q + 2);
        if k > q + 2 && s.subrange(q + 2, k) == parent && char_at(s, k) == Some('>') {
            Some((Seq::empty(), k + 1))
        } else {
            None
        }
    } else if char_at(s, q) is None || char_at(s, q) == Some('@') || char_at(s, q) == Some('<') {
        None
    } else {
        match markup_text_scan(s, q, Seq::empty()) {
            Some((ps, e)) => if i < e && q < e && e <= s.len() {
                after_pieces(ps, plain_children(s, e, parent))
            } else {
                None
            },
            None => None,
        }
    }
}

/// The rest of `@if` from `p` when its branches hold text only and it has
/// no `else if`: the condition, the pieces of the `then` branch, those of
/// the `else` branch if any, and the index after it; `None` otherwise.
pub open spec fn plain_if(s: Seq<char>, p: int) -> Option<
    (Seq<char>, Seq<(bool, Seq<char>)>, Option<Seq<(bool, Seq<char>)>>, int),
> {
    match condition_open(s, p) {
        Some((c, a)) => match plain_block(s, a) {
            Some((tb, b)) => {
                let j = at_skip(s, skip_trivia(s, b));
                if word_at(s, j, "else"@) {
                    let j2 = at_skip(s, skip_trivia(s, j + 4));
                    if !word_at(s, j2, "if"@) && char_at(s, j2) == Some('{') {
                        match plain_block(s, j2 + 1) {
                            Some((eb, e)) => Some((c, tb, Some(eb), e)),
                            None => None,
                        }
                    } else {
                        None
                    }
                } else {
                    Some((c, tb, None, j))
                }
            },
            None => None,
        },
        None => None,
    }
}

/// The pieces of an optional branch.
pub open spec fn branch_pieces(b: Option<Vec<Markup>>) -> Option<Seq<(bool, Seq<char>)>> {
    match b {
        Some(v) => Some(pieces(v@)),
        None => None,
    }
}

/// Index of the first `,` or `)` at or after `i` (or the end).
pub open spec fn coll_end(s: Seq<char>, i: int) -> int
    decreases s.len() - i,
{
    if i < 0 || i >= s.len() || s[i] == ',' || s[i] == ')' {
        i
    } else {
        coll_end(s, i + 1)
    }
}

/// The rest of `@for` from `p` in its plain form `(item in collection) {
/// .. }`, its body text only, with no index, key or `empty` block: the item,
/// the collection, the pieces of the body and the index after it; `None`
/// otherwise.
pub open spec fn plain_for(s: Seq<char>, p: int) -> Option<
    (Seq<char>, Seq<char>, Seq<(bool, Seq<char>)>, int),
> {
    let q = skip_trivia(s, p);
    let k = ident_end(s, q + 1);
    let q1 = skip_trivia(s, k);
    let c0 = skip_trivia(s, q1 + 2);
    let c1 = coll_end(s, c0);
    let q2 = skip_trivia(s, c1);
    let q3 = skip_trivia(s, q2 + 1);
    if char_at(s, q) == Some('(') && k > q + 1 && char_at(s, q1) != Some(',') && word_at(
        s,
        q1,
        "in"@,
    ) && char_at(s, q2) == Some(')') && char_at(s, q3) == Some('{') {
        match plain_block(s, q3 + 1) {
            Some((ps, e)) => {
                let q4 = skip_trivia(s, e);
                if word_at(s, q4, "empty"@) {
                    None
                } else {
                    Some((s.subrange(q + 1, k), spec_trim(s.subrange(c0, c1)), ps, q4))
                }
            },
            None => None,
        }
    } else {
        None
    }
}

/// A component without props from `p` whose children are text only:
/// `<Name />` or `<Name>text</Name>`: its name, whether it closes itself,
/// the pieces of its children and the index after it; `None` otherwise.
pub open spec fn plain_component(s: Seq<char>, p: int) -> Option<
    (Seq<char>, bool, Seq<(bool, Seq<char>)>, int),
> {
    let k = ident_end(s, p + 1);
    let q = skip_trivia(s, k);
    let name = s.subrange(p + 1, k);
    if char_at(s, p) == Some('<') && k > p + 1 {
        if char_at(s, q) == Some('/') && char_at(s, q + 1) == Some('>') {
            Some((name, true, Seq::empty(), q + 2))
        } else if char_at(s, q) == Some('>') {
            match plain_children(s, q + 1, name) {
                Some((ps, e)) => Some((name, false, ps, e)),
                None => None,
            }
        } else {
            None
        }
    } else {
        None
    }
}

/// A component without props as its name, whether it closes itself and
/// the pieces of its children; `None` for other markup.
pub open spec fn plain_view(m: Markup) -> Option<(Seq<char>, bool, Seq<(bool, Seq<char>)>)> {
    match m {
        Markup::Component(c) => if c.props@.len() == 0 {
            Some((c.name@, c.self_closing, pieces(c.children@)))
        } else {
            None
        },
        _ => None,
    }
}

/// Index of the first `->` at or after `i` (or the end).
pub open spec fn arrow_end(s: Seq<char>, i: int) -> int
    decreases s.len() - i,
{
    if i < 0 || i >= s.len() || (s[i] == '-' && char_at(s, i + 1) == Some('>')) {
        i
    } else {
        arrow_end(s, i + 1)
    }
}

/// A `@when` branch as its condition (`None` for `else`) and its body.
pub type WhenView = (Option<Seq<char>>, Option<(Seq<char>, bool, Seq<(bool, Seq<char>)>)>);

/// The text of an optional string.
pub open spec fn opt_text(o: Option<String>) -> Option<Seq<char>> {
    match o {
        Some(t) => Some(t@),
        None => None,
    }
}

/// The branches `v` of a `@when`.
pub open spec fn when_views(v: Seq<WhenBranch>) -> Seq<WhenView> {
    v.map_values(|b: WhenBranch| (opt_text(b.condition), plain_view(b.body)))
}

/// `pre` before the branches of a scan.
pub open spec fn after_branches(pre: Seq<WhenView>, o: Option<(Seq<WhenView>, int)>) -> Option<
    (Seq<WhenView>, int),
> {
    match o {
        Some((bs, e)) => Some((pre + bs, e)),
        None => None,
    }
}

/// The branches of a `@when` from `i` up to and including its `}`, when each
/// body is a component without props whose children are text only: the
/// branches and the index after the `}`; `None` otherwise.
pub open spec fn when_branches(s: Seq<char>, i: int) -> Option<(Seq<WhenView>, int)>
    decreases s.len() - i,
{
    let q = skip_trivia(s, i);
    let is_else = word_at(s, q, "else"@);
    let a = if is_else {
        q + 4
    } else {
        arrow_end(s, q)
    };
    let cond = if is_else {
        None
    } else {
        Some(spec_trim(s.subrange(q, a)))
    };
    let q2 = skip_trivia(s, a);
    let q3 = skip_trivia(s, q2 + 2);
    if char_at(s, q) == Some('}') {
        Some((Seq::empty(), q + 1))
    } else if char_at(s, q2) == Some('-') && char_at(s, q2 + 1) == Some('>') {
        match plain_component(s, q3) {
            Some((n, sc, ps, e)) => if i < e <= s.len() {
                after_branches(seq![(cond, Some((n, sc, ps)))], when_branches(s, e))
            } else {
                None
            },
            None => None,
        }
    } else {
        None
    }
}

/// The rest of a `@when` from `p` whose branch bodies are components
/// without props with text children only: its branches and the index after
/// it; `None` otherwise.
pub open spec fn plain_when(s: Seq<char>, p: int) -> Option<(Seq<WhenView>, int)> {
    let q = skip_trivia(s, p);
    if char_at(s, q) == Some('{') {
        when_branches(s, q + 1)
    } else {
        None
    }
}

/// Branches before branches before a scan.
pub proof fn lemma_after_branches(a: Seq<WhenView>, b: Seq<WhenView>, o: Option<(Seq<WhenView>, int)>)
    ensures
        after_branches(a, after_branches(b, o)) == after_branches(a + b, o),
{
    if let Some((ps, e)) = o {
        assert(a + (b + ps) =~= (a + b) + ps);
    }
}

/// No `c` in `s[a..b]`.
pub open spec fn no_char_between(s: Seq<char>, a: int, b: int, c: char) -> bool {
    forall|k: int| a <= k < b ==> s[k] != c
}

/// A prop from `p` in one of its plain forms: a boolean prop before `>` or
/// `/` (`true`), a string without escapes (kept with its quotes), or an
/// expression in braces without inner braces that is no component: its
/// name, its expression and the index after it; `None` otherwise (a
/// `name:part` name, escapes, nested braces, a component value, a boolean
/// prop before another prop).
pub open spec fn plain_prop(s: Seq<char>, p: int) -> Option<(Seq<char>, Seq<char>, int)> {
    let k = ident_end(s, p);
    let name = s.subrange(p, k);
    let q = skip_trivia(s, k);
    let q2 = skip_trivia(s, q + 1);
    if k <= p || char_at(s, k) == Some(':') {
        None
    } else if char_at(s, q) == Some('>') || char_at(s, q) == Some('/') {
        Some((name, "true"@, q))
    } else if char_at(s, q) == Some('=') && char_at(s, q2) == Some('"') {
        let e = find_char(s, q2 + 1, '"');
        if e < s.len() && no_char_between(s, q2 + 1, e, '\\') {
            Some((name, seq!['"'] + s.subrange(q2 + 1, e) + seq!['"'], e + 1))
        } else {
            None
        }
    } else if char_at(s, q) == Some('=') && char_at(s, q2) == Some('{') {
        let q3 = skip_trivia(s, q2 + 1);
        let e = find_char(s, q3, '}');
        if char_at(s, q3) != Some('<') && e < s.len() && no_char_between(s, q3, e, '{') {
            Some((name, s.subrange(q3, e), e + 1))
        } else {
            None
        }
    } else {
        None
    }
}

/// The expression of a prop value that is one.
pub open spec fn prop_expression(v: PropValue) -> Option<Seq<char>> {
    match v {
        PropValue::Expression(x) => Some(x@),
        PropValue::Markup(_) => None,
    }
}

/// A file from `p` that holds only a component without props whose
/// children are text only (no `<script>` tag), between white space and
/// comments: that component; `None` otherwise.
pub open spec fn plain_file(s: Seq<char>, p: int) -> Option<(Seq<char>, bool, Seq<(bool, Seq<char>)>)> {
    let q = skip_trivia(s, p);
    match plain_component(s, q) {
        Some((n, sc, ps, e)) => if script_tag(s, q) is None && skip_trivia(s, e) == s.len() {
            Some((n, sc, ps))
        } else {
            None
        },
        None => None,
    }
}

/// Whether the value at `p` is one that `parse_value` reads as an
/// expression up to the end of its line (not a string, a list or a range
/// literal).
pub open spec fn expression_value_at(s: Seq<char>, p: int) -> bool {
    &&& !occurs_at(s, p, "\"\"\""@)
    &&& char_at(s, p) != Some('"')
    &&& char_at(s, p) != Some('[')
    &&& !range_literal_at(s, p)
}

/// Where the value at `p` that `parse_value` reads ends, for an expression
/// up to the end of its line or a one-line string; `None` for other values.
pub open spec fn value_span(s: Seq<char>, p: int) -> Option<int> {
    if expression_value_at(s, p) {
        Some(value_end(s, p, p, 0, 0))
    } else if !occurs_at(s, p, "\"\"\""@) && char_at(s, p) == Some('"') && find_char(s, p + 1, '"')
        < s.len() {
        Some(find_char(s, p + 1, '"') + 1)
    } else {
        None
    }
}

/// A state declaration as text: name, whether it is a `var`, type, initial
/// value and whether it is derived.
pub type StateText = (Seq<char>, bool, Option<Seq<char>>, Seq<char>, bool);

pub open spec fn state_view(d: StateDeclaration) -> StateText {
    (d.name@, d.mutable, opt_view(d.type_annotation), d.initial_value@, d.is_derived_state)
}

pub open spec fn states_view(ss: Seq<StateDeclaration>) -> Seq<StateText> {
    ss.map_values(|d: StateDeclaration| state_view(d))
}

/// A function declaration as text: name, parameters, return type, body,
/// whether it is `suspend`, and its markup when its body is markup.
pub type FnText = (Seq<char>, Seq<char>, Option<Seq<char>>, Seq<char>, bool, Option<MarkupView>);

/// The view of optional markup.
pub open spec fn opt_markup_view(o: Option<Markup>) -> Option<MarkupView> {
    match o {
        Some(m) => Some(markup_view(m)),
        None => None,
    }
}

/// A lifecycle hook as text: its type and its body.
pub type HookText = (Seq<char>, Seq<char>);

/// A pass-through Kotlin block: its text, where it starts and its kind.
pub type BlockText = (Seq<char>, int, KotlinBlockType);

/// A class declaration as text: its annotations, whether it is an object,
/// its name, its properties, its functions and whether it has a
/// constructor.
pub type ClassText = (Seq<Seq<char>>, bool, Seq<char>, Seq<PropText>, Seq<FnText>, bool);

/// A prop declaration as text: name, type and default value.
pub type PropDeclText = (Seq<char>, Seq<char>, Option<Seq<char>>);

/// The declarations before the markup, as text: imports, state, functions,
/// lifecycle hooks, pass-through Kotlin blocks, classes and props.
pub type HeaderText = (
    Seq<Seq<char>>,
    Seq<StateText>,
    Seq<FnText>,
    Seq<HookText>,
    Seq<BlockText>,
    Seq<ClassText>,
    Seq<PropDeclText>,
);

pub open spec fn prop_decls_view(v: Seq<PropDeclaration>) -> Seq<PropDeclText> {
    v.map_values(|d: PropDeclaration| (d.name@, d.prop_type@, opt_view(d.default_value)))
}

pub open spec fn classes_view(v: Seq<ClassDeclaration>) -> Seq<ClassText> {
    v.map_values(
        |c: ClassDeclaration|
            (
                c.annotations@.map_values(|x: String| x@),
                c.is_object,
                c.name@,
                props_text(c.properties@),
                fns_view(c.functions@),
                c.constructor is Some,
            ),
    )
}

pub open spec fn imports_view(v: Seq<Import>) -> Seq<Seq<char>> {
    v.map_values(|i: Import| i.path@)
}

pub open spec fn fn_text(f: FunctionDeclaration) -> FnText {
    (f.name@, f.params@, opt_view(f.return_type), f.body@, f.is_suspend, opt_markup_view(f.markup))
}

pub open spec fn fns_view(v: Seq<FunctionDeclaration>) -> Seq<FnText> {
    v.map_values(|f: FunctionDeclaration| fn_text(f))
}

pub open spec fn hooks_view(v: Seq<LifecycleHook>) -> Seq<HookText> {
    v.map_values(|h: LifecycleHook| (h.hook_type@, h.body@))
}

pub open spec fn blocks_view(v: Seq<KotlinBlock>) -> Seq<BlockText> {
    v.map_values(|b: KotlinBlock| (b.content@, b.position as int, b.block_type))
}

/// The declarations of a file, as text.
pub open spec fn header_of(
    is: Seq<Import>,
    ss: Seq<StateDeclaration>,
    fs: Seq<FunctionDeclaration>,
    hs: Seq<LifecycleHook>,
    bs: Seq<KotlinBlock>,
    cs: Seq<ClassDeclaration>,
    ps: Seq<PropDeclaration>,
) -> HeaderText {
    (
        imports_view(is),
        states_view(ss),
        fns_view(fs),
        hooks_view(hs),
        blocks_view(bs),
        classes_view(cs),
        prop_decls_view(ps),
    )
}

pub open spec fn empty_header() -> HeaderText {
    (
        Seq::empty(),
        Seq::empty(),
        Seq::empty(),
        Seq::empty(),
        Seq::empty(),
        Seq::empty(),
        Seq::empty(),
    )
}

/// Declarations `a`, then declarations `b`.
pub open spec fn header_plus(a: HeaderText, b: HeaderText) -> HeaderText {
    (a.0 + b.0, a.1 + b.1, a.2 + b.2, a.3 + b.3, a.4 + b.4, a.5 + b.5, a.6 + b.6)
}

/// Declarations before the declarations of a scan.
pub open spec fn after_header(pre: HeaderText, o: Option<(HeaderText, int)>) -> Option<
    (HeaderText, int),
> {
    match o {
        Some((h, e)) => Some((header_plus(pre, h), e)),
        None => None,
    }
}

pub proof fn lemma_after_header(a: HeaderText, b: HeaderText, o: Option<(HeaderText, int)>)
    ensures
        after_header(a, after_header(b, o)) == after_header(header_plus(a, b), o),
{
    if let Some((h, e)) = o {
        assert(a.0 + (b.0 + h.0) =~= (a.0 + b.0) + h.0);
        assert(a.1 + (b.1 + h.1) =~= (a.1 + b.1) + h.1);
        assert(a.2 + (b.2 + h.2) =~= (a.2 + b.2) + h.2);
        assert(a.3 + (b.3 + h.3) =~= (a.3 + b.3) + h.3);
        assert(a.4 + (b.4 + h.4) =~= (a.4 + b.4) + h.4);
        assert(a.5 + (b.5 + h.5) =~= (a.5 + b.5) + h.5);
        assert(a.6 + (b.6 + h.6) =~= (a.6 + b.6) + h.6);
    }
}

/// The function declaration after `fun` at `p` (`suspend` or not).
pub open spec fn fn_item(s: Seq<char>, p: int, suspend: bool) -> Option<(HeaderText, int)> {
    match fn_decl(s, p) {
        Ok((name, params, rt, bs, e)) => Some(
            (
                (
                    Seq::empty(),
                    Seq::empty(),
                    seq![(name, params, rt, spec_trim(s.subrange(bs, e - 1)), suspend, None)],
                    Seq::empty(),
                    Seq::empty(),
                    Seq::empty(),
                    Seq::empty(),
                ),
                e,
            ),
        ),
        Err(_) => None,
    }
}

/// The lifecycle hook of type `ty` whose block follows `p`.
pub open spec fn hook_item(s: Seq<char>, p: int, ty: Seq<char>) -> Option<(HeaderText, int)> {
    let q = skip_trivia(s, p);
    if char_at(s, q) == Some('{') {
        match block_close(s, q + 1, 1) {
            Some(e) => if body_typo(s, q + 1, e - 1) is None {
                Some(
                    (
                        (
                            Seq::empty(),
                            Seq::empty(),
                            Seq::empty(),
                            seq![(ty, spec_trim(s.subrange(q + 1, e - 1)))],
                            Seq::empty(),
                            Seq::empty(),
                            Seq::empty(),
                        ),
                        e,
                    ),
                )
            } else {
                None
            },
            None => None,
        }
    } else {
        None
    }
}

/// The declaration at `q` (a class or object, with one annotation or none;
/// a prop; an import; a pass-through Kotlin block; a `var` / `val` whose value is an
/// expression or a one-line string; a function; a lifecycle hook), the
/// index after it and whether a class has been read (`after` before it);
/// `None` for anything else (other annotations among it) or where the
/// parser fails.
pub open spec fn header_item(s: Seq<char>, q: int, after: bool) -> Option<(HeaderText, int, bool)> {
    if char_at(s, q) == Some('@') {
        let k = ident_end(s, q + 1);
        let q2 = skip_trivia(s, k);
        if k > q + 1 && (peek_word_at(s, q2) == Some("class"@) || peek_word_at(s, q2) == Some(
            "object"@,
        )) {
            match class_at(s, q2) {
                Some((io, n, ps, fs, e)) => Some(
                    (
                        (
                        Seq::empty(),
                        Seq::empty(),
                        Seq::empty(),
                        Seq::empty(),
                        Seq::empty(),
                        seq![(seq![s.subrange(q + 1, k)], io, n, ps, fs, false)],
                        Seq::empty(),
                    ),
                        e,
                        true,
                    ),
                ),
                None => None,
            }
        } else if k > q + 1 && s.subrange(q + 1, k) == "prop"@ {
            with_after(prop_item(s, q2), after)
        } else {
            None
        }
    } else if !after && (peek_word_at(s, q) == Some("class"@) || peek_word_at(s, q) == Some(
        "object"@,
    )) {
        match class_at(s, q) {
            Some((io, n, ps, fs, e)) => Some(
                (
                    (
                    Seq::empty(),
                    Seq::empty(),
                    Seq::empty(),
                    Seq::empty(),
                    Seq::empty(),
                    seq![(Seq::empty(), io, n, ps, fs, false)],
                    Seq::empty(),
                ),
                    e,
                    true,
                ),
            ),
            None => None,
        }
    } else if word_at(s, q, "import"@) {
        let q2 = skip_trivia(s, q + 6);
        let e = next_newline(s, q2);
        Some(
            (
                (
                    seq![spec_trim(s.subrange(q2, e))],
                    Seq::empty(),
                    Seq::empty(),
                    Seq::empty(),
                    Seq::empty(),
                    Seq::empty(),
                    Seq::empty(),
                ),
                e,
                after,
            ),
        )
    } else if kotlin_syntax_at(s, q, after) {
        match kotlin_capture(s, q) {
            Ok((c, e)) => Some(
                (
                    (
                        Seq::empty(),
                        Seq::empty(),
                        Seq::empty(),
                        Seq::empty(),
                        seq![(c, byte_pos(s, q), block_type_at(s, q))],
                        Seq::empty(),
                        Seq::empty(),
                    ),
                    e,
                    after,
                ),
            ),
            Err(_) => None,
        }
    } else if peek_word_at(s, q) == Some("var"@) || peek_word_at(s, q) == Some("val"@) {
        match state_head(s, q) {
            Ok((mutable, name, ta, v)) => match (value_text(s, v), value_span(s, skip_trivia(s, v))) {
                (Some(t), Some(e)) => Some(
                    (
                        (
                            Seq::empty(),
                            seq![
                                (
                                    name,
                                    mutable && !derived_value(t).2,
                                    ta,
                                    derived_value(t).0,
                                    derived_value(t).1,
                                ),
                            ],
                            Seq::empty(),
                            Seq::empty(),
                            Seq::empty(),
                            Seq::empty(),
                            Seq::empty(),
                        ),
                        e,
                        after,
                    ),
                ),
                _ => None,
            },
            Err(_) => None,
        }
    } else if !after && peek_word_at(s, q) == Some("suspend"@) {
        let a = if word_at(s, q, "suspend"@) {
            q + 7
        } else {
            q
        };
        let q2 = skip_trivia(s, a);
        if word_at(s, q2, "fun"@) {
            with_after(fn_item(s, q2 + 3, true), after)
        } else {
            None
        }
    } else if !after && word_at(s, q, "fun"@) {
        with_after(fn_item(s, q + 3, false), after)
    } else if word_at(s, q, "$onMount"@) {
        with_after(hook_item(s, q + 8, "onMount"@), after)
    } else if word_at(s, q, "$onDispose"@) {
        with_after(hook_item(s, q + 10, "onDispose"@), after)
    } else {
        None
    }
}

/// Where a prop declaration from `p` ends when it has no default value:
/// after its type and the white space that follows.
pub open spec fn prop_type_end(s: Seq<char>, p: int) -> int {
    let n0 = skip_trivia(s, p);
    let n1 = skip_trivia(s, n0 + 3);
    let e1 = ident_end(s, n1);
    let q1 = skip_trivia(s, e1);
    let q2 = skip_trivia(s, q1 + 1);
    skip_trivia(s, type_end(s, q2, 0, 0, 0))
}

/// The prop declaration after `@prop` at `p`: its text and the index after
/// it; `None` where its default value is not an expression or a one-line
/// string, or where the parser fails.
pub open spec fn prop_item(s: Seq<char>, p: int) -> Option<(HeaderText, int)> {
    match prop_decl(s, p) {
        Ok((n, ty, None)) => Some(
            (
                (
                    Seq::empty(),
                    Seq::empty(),
                    Seq::empty(),
                    Seq::empty(),
                    Seq::empty(),
                    Seq::empty(),
                    seq![(n, ty, None)],
                ),
                prop_type_end(s, p),
            ),
        ),
        Ok((n, ty, Some(v))) => match (value_text(s, v), value_span(s, skip_trivia(s, v))) {
            (Some(t), Some(e)) => Some(
                (
                    (
                        Seq::empty(),
                        Seq::empty(),
                        Seq::empty(),
                        Seq::empty(),
                        Seq::empty(),
                        Seq::empty(),
                        seq![(n, ty, Some(t))],
                    ),
                    e,
                ),
            ),
            _ => None,
        },
        Err(_) => None,
    }
}

/// An item with the flag `after` attached.
pub open spec fn with_after(o: Option<(HeaderText, int)>, after: bool) -> Option<
    (HeaderText, int, bool),
> {
    match o {
        Some((h, e)) => Some((h, e, after)),
        None => None,
    }
}

/// The declarations from `i` (each after white space and comments) up to
/// the first `<` or the end of the text, `after` telling whether a class
/// has been read: their text and the index where they stop; `None` where a
/// declaration is not covered by `header_item`.
pub open spec fn header_prefix(s: Seq<char>, i: int, after: bool) -> Option<(HeaderText, int)>
    decreases s.len() - i,
{
    let q = skip_trivia(s, i);
    if i < 0 || i > s.len() || !(i <= q <= s.len()) {
        None
    } else if char_at(s, q) == Some('<') || (q == s.len() && typo_check(s, q) is None) {
        Some((empty_header(), q))
    } else {
        match header_item(s, q, after) {
            Some((h, e, a2)) => if i < e <= s.len() {
                after_header(h, header_prefix(s, e, a2))
            } else {
                None
            },
            None => None,
        }
    }
}

/// A helper function after the markup at `q`, as the parser reads it: the
/// function and the index after it where it is `fun` (or `suspend fun`)
/// with a markup body; `Err(k)` where it is not such a function and the
/// text from `k` is read as pass-through Kotlin instead; `None` where the
/// parser fails.
#[verifier::opaque]
pub open spec fn markup_fn_at(s: Seq<char>, q: int) -> Option<Result<(FnText, int), int>> {
    let sus = occurs_at(s, q, "suspend fun "@);
    let f0 = if sus {
        skip_trivia(s, q + 7)
    } else {
        q
    };
    let n0 = skip_trivia(s, f0 + 3);
    let n1 = ident_end(s, n0);
    let o = skip_trivia(s, n1);
    if !(occurs_at(s, q, "fun "@) || sus) {
        Some(Err(q))
    } else if !word_at(s, f0, "fun"@) {
        Some(Err(f0))
    } else if n1 <= n0 || char_at(s, o) != Some('(') {
        None
    } else {
        match paren_close(s, o + 1, 1) {
            None => None,
            Some(c) => {
                let r0 = skip_trivia(s, c + 1);
                let t0 = skip_trivia(s, r0 + 1);
                let te = type_end(s, t0, 0, 0, 0);
                let typed = char_at(s, r0) == Some(':');
                let rt = if typed {
                    Some(spec_trim(s.subrange(t0, te)))
                } else {
                    None
                };
                let b0 = if typed {
                    skip_trivia(s, te)
                } else {
                    skip_trivia(s, r0)
                };
                let m0 = skip_trivia(s, b0 + 1);
                if char_at(s, b0) != Some('{') || char_at(s, m0) != Some('<') {
                    Some(Err(f0))
                } else {
                    match root_markup_at(s, m0) {
                        Some((v, e)) => {
                            let c2 = skip_trivia(s, e);
                            if char_at(s, c2) == Some('}') {
                                Some(
                                    Ok(
                                        (
                                            (
                                                s.subrange(n0, n1),
                                                s.subrange(o + 1, c),
                                                rt,
                                                Seq::empty(),
                                                sus,
                                                Some(v),
                                            ),
                                            c2 + 1,
                                        ),
                                    ),
                                )
                            } else {
                                None
                            }
                        },
                        None => None,
                    }
                }
            },
        }
    }
}

/// Functions and blocks before those of a scan.
pub open spec fn after_trail(
    fs: Seq<FnText>,
    bs: Seq<BlockText>,
    o: Option<(Seq<FnText>, Seq<BlockText>)>,
) -> Option<(Seq<FnText>, Seq<BlockText>)> {
    match o {
        Some((a, b)) => Some((fs + a, bs + b)),
        None => None,
    }
}

/// What follows the markup from `i` (each item after white space and
/// comments): helper functions with markup bodies and pass-through Kotlin
/// blocks, up to the end of the text or to text that is neither (which the
/// parser leaves unread); `None` where an annotation comes or the parser
/// fails.
pub open spec fn trailer_at(s: Seq<char>, i: int) -> Option<(Seq<FnText>, Seq<BlockText>)>
    decreases s.len() - i,
{
    let q = skip_trivia(s, i);
    if i < 0 || i > s.len() || !(i <= q <= s.len()) {
        None
    } else if q == s.len() {
        Some((Seq::empty(), Seq::empty()))
    } else if char_at(s, q) == Some('@') {
        None
    } else {
        match markup_fn_at(s, q) {
            None => None,
            Some(Ok((f, e))) => if i < e <= s.len() {
                after_trail(seq![f], Seq::empty(), trailer_at(s, e))
            } else {
                None
            },
            Some(Err(k)) => if kotlin_syntax_at(s, k, true) {
                match kotlin_capture(s, k) {
                    Ok((c, e)) => if i < e <= s.len() {
                        after_trail(Seq::empty(), seq![(c, byte_pos(s, k), block_type_at(s, k))], trailer_at(s, e))
                    } else {
                        None
                    },
                    Err(_) => None,
                }
            } else {
                Some((Seq::empty(), Seq::empty()))
            },
        }
    }
}

/// A file from `p` that holds declarations covered by `header_item`, then
/// either nothing more or markup (no `<script>` tag) followed by what
/// `trailer_at` covers: all the declarations (the helper functions and
/// blocks after the markup after those before it) and the view of the
/// markup (empty text where there is none); `None` otherwise.
pub open spec fn decl_file(s: Seq<char>, p: int) -> Option<(HeaderText, MarkupView)> {
    match header_prefix(s, p, false) {
        Some((h, q)) => if q == s.len() {
            Some((h, MarkupView::Text(Seq::empty())))
        } else if script_tag(s, q) is None {
            match root_markup_at(s, q) {
                Some((v, e)) => match trailer_at(s, e) {
                    Some((fs, bs)) => Some(
                        (
                            header_plus(
                                h,
                                (
                                    Seq::empty(),
                                    Seq::empty(),
                                    fs,
                                    Seq::empty(),
                                    bs,
                                    Seq::empty(),
                                    Seq::empty(),
                                ),
                            ),
                            v,
                        ),
                    ),
                    None => None,
                },
                None => None,
            }
        } else {
            None
        },
        None => None,
    }
}

/// At `<` no declaration starts.
pub proof fn lemma_no_word_at_lt(s: Seq<char>, q: int)
    requires
        0 <= q < s.len(),
        s[q] == '<',
    ensures
        peek_word_at(s, q) is None,
        !kotlin_syntax_at(s, q, false),
        !kotlin_syntax_at(s, q, true),
        !word_at(s, q, "import"@),
        !word_at(s, q, "fun"@),
        !word_at(s, q, "$onMount"@),
        !word_at(s, q, "$onDispose"@),
        skip_trivia(s, q) == q,
{
    assert forall|w: Seq<char>| #![trigger occurs_at(s, q, w)] w.len() > 0 && occurs_at(s, q, w) implies w[0] == '<' by {
        assert(s.subrange(q, q + w.len())[0] == s[q]);
    }
    reveal_strlit("import ");
    reveal_strlit("var ");
    reveal_strlit("var\n");
    reveal_strlit("val ");
    reveal_strlit("val\n");
    reveal_strlit("private ");
    reveal_strlit("protected ");
    reveal_strlit("public ");
    reveal_strlit("@prop");
    reveal_strlit("fun ");
    reveal_strlit("class ");
    reveal_strlit("object ");
    reveal_strlit("suspend ");
    reveal_strlit("constructor");
    reveal_strlit("get");
    reveal_strlit("$onMount");
    reveal_strlit("$onDispose");
    reveal_strlit("data class ");
    reveal_strlit("sealed class ");
    reveal_strlit("sealed interface ");
    reveal_strlit("enum class ");
    reveal_strlit("typealias ");
    reveal_strlit("inline fun ");
    reveal_strlit("infix fun ");
    reveal_strlit("operator fun ");
    reveal_strlit("fun interface ");
    reveal_strlit("import");
    reveal_strlit("fun");
    assert(!occurs_at(s, q, "import "@));
    assert(!occurs_at(s, q, "var "@));
    assert(!occurs_at(s, q, "var\n"@));
    assert(!occurs_at(s, q, "val "@));
    assert(!occurs_at(s, q, "val\n"@));
    assert(!occurs_at(s, q, "private "@));
    assert(!occurs_at(s, q, "protected "@));
    assert(!occurs_at(s, q, "public "@));
    assert(!occurs_at(s, q, "@prop"@));
    assert(!occurs_at(s, q, "fun "@));
    assert(!occurs_at(s, q, "class "@));
    assert(!occurs_at(s, q, "object "@));
    assert(!occurs_at(s, q, "suspend "@));
    assert(!occurs_at(s, q, "constructor"@));
    assert(!occurs_at(s, q, "get"@));
    assert(!occurs_at(s, q, "$onMount"@));
    assert(!occurs_at(s, q, "$onDispose"@));
    assert(!occurs_at(s, q, "data class "@));
    assert(!occurs_at(s, q, "sealed class "@));
    assert(!occurs_at(s, q, "sealed interface "@));
    assert(!occurs_at(s, q, "enum class "@));
    assert(!occurs_at(s, q, "typealias "@));
    assert(!occurs_at(s, q, "inline fun "@));
    assert(!occurs_at(s, q, "infix fun "@));
    assert(!occurs_at(s, q, "operator fun "@));
    assert(!occurs_at(s, q, "fun interface "@));
    assert(!occurs_at(s, q, "import"@));
    assert(!occurs_at(s, q, "fun"@));
    reveal_strlit("suspend fun ");
    assert(!occurs_at(s, q, "suspend fun "@));
    assert(crate::text::skip_ws_from(s, q, s.len() as int) == q);
}

/// At the end of the text no declaration starts.
pub proof fn lemma_no_word_at_end(s: Seq<char>)
    ensures
        peek_word_at(s, s.len() as int) is None,
        !kotlin_syntax_at(s, s.len() as int, false),
        !kotlin_syntax_at(s, s.len() as int, true),
        !word_at(s, s.len() as int, "import"@),
        !word_at(s, s.len() as int, "fun"@),
        !word_at(s, s.len() as int, "$onMount"@),
        !word_at(s, s.len() as int, "$onDispose"@),
{
    assert forall|w: Seq<char>| #![trigger occurs_at(s, s.len() as int, w)] w.len() > 0 implies !occurs_at(
        s,
        s.len() as int,
        w,
    ) by {}
    reveal_strlit("import ");
    reveal_strlit("var ");
    reveal_strlit("var\n");
    reveal_strlit("val ");
    reveal_strlit("val\n");
    reveal_strlit("private ");
    reveal_strlit("protected ");
    reveal_strlit("public ");
    reveal_strlit("@prop");
    reveal_strlit("fun ");
    reveal_strlit("class ");
    reveal_strlit("object ");
    reveal_strlit("suspend ");
    reveal_strlit("constructor");
    reveal_strlit("get");
    reveal_strlit("$onMount");
    reveal_strlit("$onDispose");
    reveal_strlit("data class ");
    reveal_strlit("sealed class ");
    reveal_strlit("sealed interface ");
    reveal_strlit("enum class ");
    reveal_strlit("typealias ");
    reveal_strlit("inline fun ");
    reveal_strlit("infix fun ");
    reveal_strlit("operator fun ");
    reveal_strlit("fun interface ");
    reveal_strlit("import");
    reveal_strlit("fun");
    reveal_strlit("suspend fun ");
    assert(!occurs_at(s, s.len() as int, "import "@));
    assert(!occurs_at(s, s.len() as int, "var "@));
    assert(!occurs_at(s, s.len() as int, "var\n"@));
    assert(!occurs_at(s, s.len() as int, "val "@));
    assert(!occurs_at(s, s.len() as int, "val\n"@));
    assert(!occurs_at(s, s.len() as int, "private "@));
    assert(!occurs_at(s, s.len() as int, "protected "@));
    assert(!occurs_at(s, s.len() as int, "public "@));
    assert(!occurs_at(s, s.len() as int, "@prop"@));
    assert(!occurs_at(s, s.len() as int, "fun "@));
    assert(!occurs_at(s, s.len() as int, "class "@));
    assert(!occurs_at(s, s.len() as int, "object "@));
    assert(!occurs_at(s, s.len() as int, "suspend "@));
    assert(!occurs_at(s, s.len() as int, "constructor"@));
    assert(!occurs_at(s, s.len() as int, "get"@));
    assert(!occurs_at(s, s.len() as int, "$onMount"@));
    assert(!occurs_at(s, s.len() as int, "$onDispose"@));
}

/// Where a word occurs, its first character is there.
pub proof fn lemma_first_char(s: Seq<char>, i: int, w: Seq<char>)
    ensures
        occurs_at(s, i, w) && w.len() > 0 ==> s[i] == w[0],
{
    if occurs_at(s, i, w) && w.len() > 0 {
        assert(s.subrange(i, i + w.len())[0] == s[i]);
    }
}

/// A property declared in a class, as text: name, whether it is a `var`,
/// type, initial value, getter and visibility.
pub type PropText = (Seq<char>, bool, Option<Seq<char>>, Option<Seq<char>>, Option<Seq<char>>, Option<
    Seq<char>,
>);

pub open spec fn props_text(v: Seq<PropertyDeclaration>) -> Seq<PropText> {
    v.map_values(
        |d: PropertyDeclaration|
            (
                d.name@,
                d.mutable,
                opt_view(d.type_annotation),
                opt_view(d.initial_value),
                opt_view(d.getter),
                opt_view(d.visibility),
            ),
    )
}

/// The members of a class body from `i` (each after white space and
/// comments) up to and including its `}`: `var` / `val` properties without
/// visibility whose values are expressions or one-line strings, and
/// functions; their text and the index after the `}`; `None` for other
/// members or where the parser fails.
pub open spec fn class_members_at(s: Seq<char>, i: int) -> Option<
    (Seq<PropText>, Seq<FnText>, int),
>
    decreases s.len() - i,
{
    let q = skip_trivia(s, i);
    if i < 0 || i > s.len() || !(i <= q <= s.len()) {
        None
    } else if char_at(s, q) == Some('}') {
        Some((Seq::empty(), Seq::empty(), q + 1))
    } else if peek_word_at(s, q) == Some("var"@) || peek_word_at(s, q) == Some("val"@) {
        match property_decl(s, q) {
            Ok((m, n, ta, Some(v), _)) => match (value_text(s, v), value_span(s, skip_trivia(s, v))) {
                (Some(t), Some(e)) => if i < e <= s.len() {
                    match class_members_at(s, e) {
                        Some((ps, fs, end)) => Some(
                            (seq![(n, m, ta, Some(t), None, None)] + ps, fs, end),
                        ),
                        None => None,
                    }
                } else {
                    None
                },
                _ => None,
            },
            _ => None,
        }
    } else if peek_word_at(s, q) == Some("fun"@) || peek_word_at(s, q) == Some("suspend"@) {
        let sus = word_at(s, q, "suspend"@);
        let q2 = if sus {
            skip_trivia(s, q + 7)
        } else {
            q
        };
        if word_at(s, q2, "fun"@) {
            match fn_decl(s, q2 + 3) {
                Ok((name, params, rt, bs, e)) => if i < e <= s.len() {
                    match class_members_at(s, e) {
                        Some((ps, fs, end)) => Some(
                            (
                                ps,
                                seq![
                                    (
                                        name,
                                        params,
                                        rt,
                                        spec_trim(s.subrange(bs, e - 1)),
                                        sus,
                                        None,
                                    ),
                                ] + fs,
                                end,
                            ),
                        ),
                        None => None,
                    }
                } else {
                    None
                },
                Err(_) => None,
            }
        } else {
            None
        }
    } else {
        None
    }
}

/// The visibility keywords differ from the keywords that start a member.
proof fn lemma_visibility_words()
    ensures
        "private"@ != "var"@ && "private"@ != "val"@ && "private"@ != "fun"@ && "private"@
            != "suspend"@,
        "protected"@ != "var"@ && "protected"@ != "val"@ && "protected"@ != "fun"@
            && "protected"@ != "suspend"@,
        "public"@ != "var"@ && "public"@ != "val"@ && "public"@ != "fun"@ && "public"@
            != "suspend"@,
{
    reveal_strlit("private");
    reveal_strlit("protected");
    reveal_strlit("public");
    reveal_strlit("var");
    reveal_strlit("val");
    reveal_strlit("fun");
    reveal_strlit("suspend");
    assert("private"@[0] != "suspend"@[0]);
    assert("protected"@.len() == 9);
    assert("public"@.len() == 6);
    assert("var"@.len() == 3 && "val"@.len() == 3 && "fun"@.len() == 3 && "suspend"@.len() == 7);
}

/// Members before the members of a scan.
pub open spec fn after_members(
    ps: Seq<PropText>,
    fs: Seq<FnText>,
    o: Option<(Seq<PropText>, Seq<FnText>, int)>,
) -> Option<(Seq<PropText>, Seq<FnText>, int)> {
    match o {
        Some((a, b, e)) => Some((ps + a, fs + b, e)),
        None => None,
    }
}

/// A class or object from `p` without a constructor whose members
/// `class_members_at` covers: whether it is an object, its name, its
/// properties, its functions and the index after it.
pub open spec fn class_at(s: Seq<char>, p: int) -> Option<
    (bool, Seq<char>, Seq<PropText>, Seq<FnText>, int),
> {
    let n0 = skip_trivia(s, p);
    let is_object = word_at(s, n0, "object"@);
    let n1 = skip_trivia(s, if is_object { n0 + 6 } else { n0 + 5 });
    let e1 = ident_end(s, n1);
    let q = skip_trivia(s, e1);
    match class_head(s, p) {
        Ok((io, name)) => if peek_word_at(s, q) != Some("constructor"@) && char_at(s, q) == Some(
            '{',
        ) && p < q + 1 <= s.len() {
            match class_members_at(s, q + 1) {
                Some((ps, fs, e)) => Some((io, name, ps, fs, e)),
                None => None,
            }
        } else {
            None
        },
        Err(_) => None,
    }
}

/// The index after a class or object with an empty body and no
/// constructor from `p` (`class Name {}`), or `None` for any other class.
pub open spec fn empty_class_end(s: Seq<char>, p: int) -> Option<int> {
    let n0 = skip_trivia(s, p);
    let is_object = word_at(s, n0, "object"@);
    let n1 = skip_trivia(s, if is_object { n0 + 6 } else { n0 + 5 });
    let e1 = ident_end(s, n1);
    let q = skip_trivia(s, e1);
    let q2 = skip_trivia(s, q + 1);
    if class_head(s, p) is Ok && peek_word_at(s, q) != Some("constructor"@) && char_at(s, q) == Some(
        '{',
    ) && char_at(s, q2) == Some('}') {
        Some(q2 + 1)
    } else {
        None
    }
}

/// The error for a misspelled magic name (see `typo_check`) where a file's
/// first declaration would start, when nothing else starts there.
pub open spec fn leading_typo(s: Seq<char>, p: int) -> Option<Seq<char>> {
    let q = skip_trivia(s, p);
    if char_at(s, q) != Some('@') && char_at(s, q) != Some('<') && peek_word_at(s, q) != Some(
        "class"@,
    ) && peek_word_at(s, q) != Some("object"@) && !word_at(s, q, "import"@) && !kotlin_syntax_at(
        s,
        q,
        false,
    ) && peek_word_at(s, q) != Some("var"@) && peek_word_at(s, q) != Some("val"@) && peek_word_at(
        s,
        q,
    ) != Some("suspend"@) && !word_at(s, q, "fun"@) && !word_at(s, q, "$onMount"@) && !word_at(
        s,
        q,
        "$onDispose"@,
    ) {
        typo_check(s, q)
    } else {
        None
    }
}

/// What a text scan from `p` gives: the pieces of `v` and the stopping
/// index `end`, or an error exactly when the scan finds none.
pub open spec fn scanned(r: Result<Vec<Markup>, String>, o: Option<(Seq<(bool, Seq<char>)>, int)>, end: int) -> bool {
    match (r, o) {
        (Ok(v), Some((ps, e))) => pieces(v@) == ps && end == e,
        (Err(_), None) => true,
        _ => false,
    }
}

impl Parser {
    /// Whether a control-flow directive starts at the current index.
    fn at_directive(&self) -> (r: bool)
        requires
            self.wf(),
        ensures
            r == directive_at(self.input@, self.pos as int),
    {
        self.starts_with("@if ") || self.starts_with("@for ") || self.starts_with("@when ")
    }

    /// Reads text and `{expression}` interpolations up to markup (`<`), a single
    /// `}`, a directive or the end; `{{` and `}}` stand for `{` and `}`.
    fn parse_text_with_interpolation_until_markup(&mut self) -> (r: Result<Vec<Markup>, String>)
        requires
            old(self).wf(),
        ensures
            moved(*old(self), *final(self)),
            r matches Ok(v) ==> text_stop(final(self).input@, final(self).pos as int) && (v@.len()
                == 0 <==> final(self).pos == old(self).pos) && text_only(v@),
            scanned(
                r,
                markup_text_scan(old(self).input@, old(self).pos as int, Seq::empty()),
                final(self).pos as int,
            ),
    {
        let ghost s = self.input@;
        proof {
            reveal_strlit("@if ");
            reveal_strlit("@for ");
            reveal_strlit("@when ");
        }
        let start = self.pos;
        let mut children: Vec<Markup> = Vec::new();
        let mut current_text = String::new();
        proof {
            assert(pieces(children@) =~= Seq::<(bool, Seq<char>)>::empty());
            assert(current_text@ =~= Seq::<char>::empty());
        }
        loop
            invariant_except_break
                self.wf(),
                self.input == old(self).input,
                s == self.input@,
                start == old(self).pos,
                start <= self.pos,
                (children@.len() == 0 && current_text@.len() == 0) <==> self.pos == start,
                markup_text_scan(s, start as int, Seq::empty()) == after_pieces(
                    pieces(children@),
                    markup_text_scan(s, self.pos as int, current_text@),
                ),
                text_only(children@),
            ensures
                self.wf(),
                self.input == old(self).input,
                start <= self.pos,
                (children@.len() == 0 && current_text@.len() == 0) <==> self.pos == start,
                text_stop(s, self.pos as int),
                markup_text_scan(s, start as int, Seq::empty()) == after_pieces(
                    pieces(children@),
                    Some((flushed(current_text@), self.pos as int)),
                ),
                text_only(children@),
            decreases s.len() - self.pos,
        {
            let ch = match self.peek_char() {
                Some(c) => c,
                None => break,
            };
            let ghost i = self.pos as int;
            let ghost cur0 = current_text@;
            if ch == '<' {
                break;
            } else if ch == '}' {
                if self.peek_ahead(1) == Some('}') {
                    proof {
                        lemma_no_directive(s, i);
                        assert(markup_text_scan(s, i, cur0) == markup_text_scan(s, i + 2, cur0.push('}')));
                    }
                    push_char(&mut current_text, '}');
                    self.pos = self.pos + 2;
                } else {
                    break;
                }
            } else if ch == '@' {
                if self.at_directive() {
                    break;
                }
                proof {
                    assert(markup_text_scan(s, i, cur0) == markup_text_scan(s, i + 1, cur0.push('@')));
                }
                push_char(&mut current_text, ch);
                self.pos = self.pos + 1;
            } else if ch == '{' {
                proof {
                    lemma_no_directive(s, i);
                    assert(!text_stop(s, i));
                }
                if self.peek_ahead(1) == Some('{') {
                    proof {
                        assert(markup_text_scan(s, i, cur0) == markup_text_scan(s, i + 2, cur0.push('{')));
                    }
                    push_char(&mut current_text, '{');
                    self.pos = self.pos + 2;
                } else {
                    let ghost ch0 = pieces(children@);
                    proof {
                        lemma_until_char_end(s, i + 1, '}', 0, 0, 0);
                    }
                    if current_text.as_str().unicode_len() > 0 {
                        let t = lit(current_text.as_str());
                        children.push(Markup::Text(t));
                        current_text = String::new();
                    }
                    proof {
                        assert(pieces(children@) =~= ch0 + flushed(cur0));
                    }
                    self.pos = self.pos + 1;
                    let expr = self.parse_until_char('}')?;
                    match self.expect_char('}') {
                        Ok(_) => {},
                        Err(err) => {
                            proof {
                                assert(markup_text_scan(s, i, cur0) is None);
                            }
                            return Err(err);
                        },
                    }
                    let ghost ch1 = pieces(children@);
                    children.push(Markup::Interpolation(expr));
                    proof {
                        let e = until_char_end(s, i + 1, '}', 0, 0, 0);
                        assert(pieces(children@) =~= ch1 + seq![(true, s.subrange(i + 1, e))]);
                        lemma_after_pieces(
                            ch0,
                            flushed(cur0) + seq![(true, s.subrange(i + 1, e))],
                            markup_text_scan(s, e + 1, Seq::empty()),
                        );
                        assert(ch0 + (flushed(cur0) + seq![(true, s.subrange(i + 1, e))]) =~= pieces(
                            children@,
                        ));
                        assert(current_text@ =~= Seq::<char>::empty());
                        assert(markup_text_scan(s, i, cur0) == after_pieces(
                            flushed(cur0) + seq![(true, s.subrange(i + 1, e))],
                            markup_text_scan(s, e + 1, Seq::empty()),
                        ));
                    }
                }
            } else {
                proof {
                    lemma_no_directive(s, i);
                    assert(markup_text_scan(s, i, cur0) == markup_text_scan(s, i + 1, cur0.push(ch)));
                }
                push_char(&mut current_text, ch);
                self.pos = self.pos + 1;
            }
        }
        let ghost chf = pieces(children@);
        let ghost curf = current_text@;
        if current_text.as_str().unicode_len() > 0 {
            children.push(Markup::Text(current_text));
        }
        proof {
            assert(pieces(children@) =~= chf + flushed(curf));
        }
        Ok(children)
    }

    /// Parses the root markup: one component, or several wrapped in a `Column`.
    fn parse_markup(&mut self) -> (r: Result<Markup, String>)
        requires
            old(self).wf(),
        ensures
            moved(*old(self), *final(self)),
            ({
                let s = old(self).input@;
                let q = skip_trivia(s, old(self).pos as int);
                let end = if q + 50 < s.len() {
                    q + 50
                } else {
                    s.len() as int
                };
                let found = if q < s.len() {
                    s.subrange(q, end)
                } else {
                    "EOF"@
                };
                if char_at(s, q) != Some('<') {
                    r matches Err(m) && m@ == error_at(
                        s,
                        q,
                        "Expected component, found: "@ + debug_text(found),
                    )
                } else {
                    r matches Ok(m) ==> m is Component
                }
            }),
            ({
                let s = old(self).input@;
                let q = skip_trivia(s, old(self).pos as int);
                match plain_component(s, q) {
                    Some((n, sc, ps, e)) => char_at(s, skip_trivia(s, e)) != Some('<') ==> (
                    r matches Ok(m) && plain_view(m) == Some((n, sc, ps)) && final(self).pos
                        == skip_trivia(s, e)),
                    None => true,
                }
            }),
            root_markup_at(old(self).input@, old(self).pos as int) matches Some((v, e)) ==> (r matches Ok(
                m,
            ) && markup_view(m) == v && final(self).pos == e),
    {
        let ghost s = self.input@;
        let ghost p0 = self.pos as int;
        let ghost root = root_markup_at(s, p0);
        self.skip_whitespace();
        if self.peek_char() == Some('<') {
            let ghost q = self.pos as int;
            let first_component = match self.parse_component() {
                Ok(m) => m,
                Err(e) => {
                    proof {
                        assert(root is None);
                    }
                    return Err(e);
                },
            };
            let ghost e1 = self.pos as int;
            proof {
                lemma_skip_trivia(s, e1);
            }
            self.skip_whitespace();
            let ghost e2 = self.pos as int;
            let ghost rs = roots_at(s, e2);
            let ghost mut restv: Seq<MarkupView> = Seq::empty();
            proof {
                if let Some((ms, end)) = rs {
                    assert(Seq::<MarkupView>::empty() + ms =~= ms);
                }
            }
            let ghost plain_ok = match plain_component(s, skip_trivia(s, old(self).pos as int)) {
                Some((n, sc, ps, e)) => char_at(s, skip_trivia(s, e)) != Some('<'),
                None => false,
            };
            if self.peek_char() == Some('<') {
                proof {
                    assert(!plain_ok);
                }
                let ghost v1 = markup_view(first_component);
                let mut components: Vec<Markup> = Vec::new();
                components.push(first_component);
                proof {
                    assert(components@.drop_last() =~= Seq::<Markup>::empty());
                    assert(markups_view(Seq::<Markup>::empty()) =~= Seq::<MarkupView>::empty());
                    assert(markups_view(components@) =~= seq![v1] + restv);
                    if root is Some {
                        assert(component_at(s, q) is Some);
                        assert(rs is Some);
                    }
                }
                while self.peek_char() == Some('<')
                    invariant
                        self.wf(),
                        self.input == old(self).input,
                        old(self).pos <= self.pos,
                        s == self.input@,
                        char_at(s, skip_trivia(s, old(self).pos as int)) == Some('<'),
                        !plain_ok,
                        plain_ok == match plain_component(s, skip_trivia(s, old(self).pos as int)) {
                            Some((n, sc, ps, e)) => char_at(s, skip_trivia(s, e)) != Some('<'),
                            None => false,
                        },
                        markups_view(components@) == seq![v1] + restv,
                        root == root_markup_at(s, old(self).pos as int),
                        rs is Some ==> rs == after_markups(restv, roots_at(s, self.pos as int)),
                        root is Some ==> (rs matches Some((ms, end)) && root == Some(
                            (
                                MarkupView::Comp(
                                    "Column"@,
                                    Seq::<(Seq<char>, PropView)>::empty(),
                                    seq![v1] + ms,
                                    false,
                                ),
                                end,
                            ),
                        )),
                    decreases self.input@.len() - self.pos,
                {
                    let ghost i = self.pos as int;
                    let ghost c0 = components@;
                    let m = match self.parse_component() {
                        Ok(m) => m,
                        Err(e) => {
                            proof {
                                assert(roots_at(s, i) is None);
                                assert(rs is None);
                                assert(root is None);
                            }
                            return Err(e);
                        },
                    };
                    let ghost ei = self.pos as int;
                    proof {
                        lemma_skip_trivia(s, ei);
                    }
                    self.skip_whitespace();
                    components.push(m);
                    proof {
                        assert(components@.drop_last() =~= c0);
                        assert(seq![v1] + restv.push(markup_view(m)) =~= (seq![v1] + restv).push(
                            markup_view(m),
                        ));
                        if rs is Some {
                            lemma_after_markups(restv, seq![markup_view(m)], roots_at(s, self.pos as int));
                            assert(restv + seq![markup_view(m)] =~= restv.push(markup_view(m)));
                        }
                        restv = restv.push(markup_view(m));
                    }
                }
                proof {
                    reveal_strlit("Column");
                    assert(props_view(Seq::<ComponentProp>::empty()) =~= Seq::<(Seq<char>, PropView)>::empty());
                    if rs is Some {
                        assert(restv + Seq::<MarkupView>::empty() =~= restv);
                    }
                }
                Ok(
                    Markup::Component(
                        Component {
                            name: lit("Column"),
                            props: Vec::new(),
                            children: components,
                            self_closing: false,
                        },
                    ),
                )
            } else {
                Ok(first_component)
            }
        } else {
            let found = if self.pos < self.input.len() {
                let end = if self.input.len() - self.pos > 50 {
                    self.pos + 50
                } else {
                    self.input.len()
                };
                string_from_range(self.input.as_slice(), self.pos, end)
            } else {
                lit("EOF")
            };
            let mut m = lit("Expected component, found: ");
            let d = debug_str(&found);
            push_string(&mut m, &d);
            Err(self.error_at_pos(m.as_str()))
        }
    }

    /// Parses `<Name props>children</Name>` or `<Name props />`.
    fn parse_component(&mut self) -> (r: Result<Markup, String>)
        requires
            old(self).wf(),
        ensures
            moved(*old(self), *final(self)),
            ({
                let s = old(self).input@;
                let p = old(self).pos as int;
                if char_at(s, p) != Some('<') {
                    r matches Err(m) && m@ == error_at(s, p, expected_message('<', char_at(s, p)))
                } else {
                    r matches Ok(m) ==> m matches Markup::Component(c) && c.name@ == s.subrange(
                        p + 1,
                        ident_end(s, p + 1),
                    ) && (c.self_closing ==> c.children@.len() == 0) && p < final(self).pos
                }
            }),
            plain_component(old(self).input@, old(self).pos as int) matches Some((n, sc, ps, e)) ==> (
            r matches Ok(m) && plain_view(m) == Some((n, sc, ps)) && final(self).pos == e),
            component_at(old(self).input@, old(self).pos as int) matches Some((v, e)) ==> (r matches Ok(
                m,
            ) && markup_view(m) == v && final(self).pos == e),
        decreases old(self).input@.len() - old(self).pos, 0nat,
    {
        let ghost s = self.input@;
        let ghost p = self.pos as int;
        let ghost pl = plain_component(s, p);
        self.expect_char('<')?;
        proof {
            lemma_ident_end(s, self.pos as int);
        }
        let name = self.parse_identifier()?;
        let ghost k = self.pos as int;
        proof {
            lemma_skip_trivia(s, k);
        }
        self.skip_whitespace();
        let mut props: Vec<ComponentProp> = Vec::new();
        let ghost q = self.pos as int;
        proof {
            assert(props_view(props@) =~= Seq::<(Seq<char>, PropView)>::empty());
            if let Some((ps, e)) = props_at(s, q) {
                assert(Seq::<(Seq<char>, PropView)>::empty() + ps =~= ps);
            }
        }
        proof {
            if pl is Some {
                assert(char_at(s, q) == Some('>') || char_at(s, q) == Some('/'));
            }
        }
        while self.peek_char() != Some('>') && self.peek_char() != Some('/')
            invariant
                self.wf(),
                self.input == old(self).input,
                s == self.input@,
                old(self).pos < self.pos,
                char_at(s, old(self).pos as int) == Some('<'),
                pl is Some ==> self.pos == q && props@.len() == 0 && (char_at(s, q) == Some('>')
                    || char_at(s, q) == Some('/')),
                pl == plain_component(s, p),
                p == old(self).pos,
                q <= self.pos,
                props_at(s, q) is Some ==> props_at(s, q) == after_props(
                    props_view(props@),
                    props_at(s, self.pos as int),
                ),
                k == ident_end(s, p + 1),
                k > p + 1,
                q == skip_trivia(s, k),
                p < q <= s.len(),
                name@ == s.subrange(p + 1, k),
            decreases s.len() - self.pos,
        {
            let ghost i = self.pos as int;
            let ghost pv = props_view(props@);
            let prop = match self.parse_component_prop() {
                Ok(x) => x,
                Err(e) => {
                    proof {
                        assert(props_at(s, i) is None);
                        assert(props_at(s, q) is None);
                        assert(component_at(s, p) is None);
                    }
                    return Err(e);
                },
            };
            let ghost e1 = self.pos as int;
            proof {
                lemma_skip_trivia(s, e1);
            }
            let ghost ps0 = props@;
            props.push(prop);
            self.skip_whitespace();
            proof {
                if props_at(s, q) is Some {
                    let pr = prop_at(s, i).unwrap();
                    assert(props@.drop_last() =~= ps0);
                    assert(props_view(props@) == pv.push((pr.0, pr.1)));
                    let rest = props_at(s, self.pos as int);
                    if let Some((ps, end)) = rest {
                        assert(pv + (seq![(pr.0, pr.1)] + ps) =~= pv.push((pr.0, pr.1)) + ps);
                    }
                }
            }
        }
        let ghost a = self.pos as int;
        proof {
            assert(props_at(s, a) == Some((Seq::<(Seq<char>, PropView)>::empty(), a)));
            assert(props_view(props@) + Seq::<(Seq<char>, PropView)>::empty() =~= props_view(props@));
        }
        proof {
            if props_at(s, q) is Some {
                assert(props_at(s, q) == Some((props_view(props@), a)));
            }
        }
        let self_closing = if self.peek_char() == Some('/') {
            self.pos = self.pos + 1;
            match self.expect_char('>') {
                Ok(_) => {},
                Err(e) => {
                    proof {
                        assert(component_at(s, p) is None);
                    }
                    return Err(e);
                },
            }
            true
        } else {
            self.pos = self.pos + 1;
            false
        };
        let children = if self_closing {
            Vec::new()
        } else {
            match self.parse_children(name.as_str()) {
                Ok(c) => c,
                Err(e) => {
                    proof {
                        assert(children_at(s, a + 1, name@) is None);
                        assert(component_at(s, p) is None);
                    }
                    return Err(e);
                },
            }
        };
        proof {
            assert(markups_view(Seq::<Markup>::empty()) =~= Seq::<MarkupView>::empty());
        }
        Ok(Markup::Component(Component { name, props, children, self_closing }))
    }

    /// Parses a prop: `name`, `name:part`, then `="string"`, `={expression}`,
    /// `={<Component />}`, or nothing (a boolean prop, `{true}`).
    fn parse_component_prop(&mut self) -> (r: Result<ComponentProp, String>)
        requires
            old(self).wf(),
        ensures
            moved(*old(self), *final(self)),
            r is Ok ==> old(self).pos < final(self).pos,
            prop_at(old(self).input@, old(self).pos as int) matches Some((n, v, e)) ==> (r matches Ok(
                cp,
            ) && cp.name@ == n && prop_view(cp.value) == v && final(self).pos == e),
        decreases old(self).input@.len() - old(self).pos, 0nat,
    {
        let ghost s = self.input@;
        let ghost p = self.pos as int;
        proof {
            reveal_strlit("true");
            reveal_strlit("\"");
            lemma_ident_end(s, p);
        }
        let mut name = self.parse_identifier()?;
        let ghost k = self.pos as int;
        if self.peek_char() == Some(':') {
            push_char(&mut name, ':');
            self.pos = self.pos + 1;
            proof {
                lemma_ident_end(s, k + 1);
            }
            let rest = self.parse_identifier()?;
            push_string(&mut name, &rest);
        }
        let ghost a = self.pos as int;
        proof {
            assert(prop_name(s, p) == Some((name@, a)));
            lemma_skip_trivia(s, a);
        }
        self.skip_whitespace();
        let ghost q = self.pos as int;
        let next_char = self.peek_char();
        let is_boolean_prop = match next_char {
            Some(c) => c == '>' || c == '/' || is_alphabetic(c),
            None => false,
        };
        proof {
            assert(is_boolean_prop == boolean_before(char_at(s, q)));
        }
        let value = if is_boolean_prop && next_char != Some('=') {
            PropValue::Expression(lit("true"))
        } else {
            self.expect_char('=')?;
            proof {
                lemma_skip_trivia(s, q + 1);
            }
            self.skip_whitespace();
            let ghost q2 = self.pos as int;
            if self.peek_char() == Some('"') {
                self.pos = self.pos + 1;
                let ghost si = self.pos as int;
                let mut str_value = String::new();
                proof {
                    assert(str_value@ + string_scan(s, si).0 =~= string_scan(s, si).0);
                }
                loop
                    invariant_except_break
                        self.wf(),
                        self.input == old(self).input,
                        s == self.input@,
                        old(self).pos < self.pos,
                        si <= self.pos,
                        string_scan(s, si) == (
                            str_value@ + string_scan(s, self.pos as int).0,
                            string_scan(s, self.pos as int).1,
                        ),
                    ensures
                        self.wf(),
                        self.input == old(self).input,
                        s == self.input@,
                        old(self).pos < self.pos,
                        string_scan(s, si) == (str_value@, self.pos as int),
                    decreases s.len() - self.pos,
                {
                    let ghost i = self.pos as int;
                    let ghost sv = str_value@;
                    let ch = match self.peek_char() {
                        Some(c) => c,
                        None => {
                            proof {
                                assert(sv + Seq::<char>::empty() =~= sv);
                            }
                            break;
                        },
                    };
                    if ch == '"' {
                        self.pos = self.pos + 1;
                        proof {
                            assert(sv + Seq::<char>::empty() =~= sv);
                        }
                        break;
                    } else if ch == '\\' {
                        self.pos = self.pos + 1;
                        if let Some(escaped) = self.peek_char() {
                            push_char(&mut str_value, '\\');
                            push_char(&mut str_value, escaped);
                            self.pos = self.pos + 1;
                            proof {
                                let r = string_scan(s, i + 2);
                                assert(sv + (seq!['\\', s[i + 1]] + r.0) =~= str_value@ + r.0);
                            }
                        } else {
                            proof {
                                assert(sv + Seq::<char>::empty() =~= sv);
                                assert(string_scan(s, i + 1) == (Seq::<char>::empty(), i + 1));
                            }
                        }
                    } else {
                        push_char(&mut str_value, ch);
                        self.pos = self.pos + 1;
                        proof {
                            let r = string_scan(s, i + 1);
                            assert(sv + (seq![ch] + r.0) =~= str_value@ + r.0);
                        }
                    }
                }
                let mut quoted = lit("\"");
                push_string(&mut quoted, &str_value);
                push_lit(&mut quoted, "\"");
                proof {
                    reveal_strlit("\"");
                    assert(quoted@ =~= seq!['"'] + str_value@ + seq!['"']);
                }
                PropValue::Expression(quoted)
            } else if self.peek_char() == Some('{') {
                self.pos = self.pos + 1;
                proof {
                    lemma_skip_trivia(s, q2 + 1);
                }
                self.skip_whitespace();
                let ghost q3 = self.pos as int;
                if self.peek_char() == Some('<') {
                    let markup = match self.parse_component() {
                        Ok(m) => m,
                        Err(e) => {
                            proof {
                                assert(component_at(s, q3) is None);
                            }
                            return Err(e);
                        },
                    };
                    let ghost e0 = self.pos as int;
                    self.skip_whitespace();
                    self.expect_char('}')?;
                    proof {
                        if component_at(s, q3) is Some {
                            assert(markup_view(markup) == component_at(s, q3).unwrap().0);
                            assert(e0 == component_at(s, q3).unwrap().1);
                        }
                    }
                    PropValue::Markup(Box::new(markup))
                } else {
                    let mut expr_value = String::new();
                    let mut depth: usize = 1;
                    let ghost si = self.pos as int;
                    proof {
                        assert(expr_value@ + brace_scan(s, si, 1).0 =~= brace_scan(s, si, 1).0);
                    }
                    loop
                        invariant_except_break
                            self.wf(),
                            self.input == old(self).input,
                            s == self.input@,
                            old(self).pos < self.pos,
                            1 <= depth <= self.pos + 1,
                            si <= self.pos,
                            brace_scan(s, si, 1) == (
                                expr_value@ + brace_scan(s, self.pos as int, depth as int).0,
                                brace_scan(s, self.pos as int, depth as int).1,
                            ),
                        ensures
                            self.wf(),
                            self.input == old(self).input,
                            s == self.input@,
                            old(self).pos < self.pos,
                            brace_scan(s, si, 1) == (expr_value@, self.pos as int),
                        decreases s.len() - self.pos,
                    {
                        let ghost i = self.pos as int;
                        let ghost ev = expr_value@;
                        let ghost d = depth as int;
                        let ch = match self.peek_char() {
                            Some(c) => c,
                            None => {
                                proof {
                                    assert(ev + Seq::<char>::empty() =~= ev);
                                }
                                break;
                            },
                        };
                        if ch == '{' {
                            depth = depth + 1;
                            push_char(&mut expr_value, ch);
                            self.pos = self.pos + 1;
                            proof {
                                let r = brace_scan(s, i + 1, d + 1);
                                assert(ev + (seq![ch] + r.0) =~= expr_value@ + r.0);
                            }
                        } else if ch == '}' {
                            if depth == 1 {
                                self.pos = self.pos + 1;
                                proof {
                                    assert(ev + Seq::<char>::empty() =~= ev);
                                }
                                break;
                            }
                            depth = depth - 1;
                            push_char(&mut expr_value, ch);
                            self.pos = self.pos + 1;
                            proof {
                                let r = brace_scan(s, i + 1, d - 1);
                                assert(ev + (seq![ch] + r.0) =~= expr_value@ + r.0);
                            }
                        } else {
                            push_char(&mut expr_value, ch);
                            self.pos = self.pos + 1;
                            proof {
                                let r = brace_scan(s, i + 1, d);
                                assert(ev + (seq![ch] + r.0) =~= expr_value@ + r.0);
                            }
                        }
                    }
                    PropValue::Expression(expr_value)
                }
            } else {
                return Err(lit("Expected prop value (either {expr} or \"string\")"));
            }
        };
        Ok(ComponentProp { name, value })
    }

    /// Parses the children of `<parent_name>` up to and including its closing
    /// tag.
    #[verifier::spinoff_prover]
    #[verifier::rlimit(40)]
    fn parse_children(&mut self, parent_name: &str) -> (r: Result<Vec<Markup>, String>)
        requires
            old(self).wf(),
        ensures
            moved(*old(self), *final(self)),
            r is Ok ==> parent_name@.len() + 3 <= final(self).pos && final(self).input@.subrange(
                final(self).pos - parent_name@.len() - 3,
                final(self).pos as int,
            ) == "</"@ + parent_name@ + ">"@,
            plain_children(old(self).input@, old(self).pos as int, parent_name@) matches Some((ps, e))
                ==> (r matches Ok(v) && pieces(v@) == ps && final(self).pos == e),
            children_at(old(self).input@, old(self).pos as int, parent_name@) matches Some((ms, e))
                ==> (r matches Ok(v) && markups_view(v@) == ms && final(self).pos == e),
        decreases old(self).input@.len() - old(self).pos, 2nat,
    {
        let ghost s = self.input@;
        let ghost start = self.pos as int;
        let ghost pn = parent_name@;
        let mut children: Vec<Markup> = Vec::new();
        proof {
            assert(pieces(children@) =~= Seq::<(bool, Seq<char>)>::empty());
            if let Some((ps, e)) = plain_children(s, start, pn) {
                assert(Seq::<(bool, Seq<char>)>::empty() + ps =~= ps);
            }
            assert(markups_view(children@) =~= Seq::<MarkupView>::empty());
            if let Some((ms, e)) = children_at(s, start, pn) {
                assert(Seq::<MarkupView>::empty() + ms =~= ms);
            }
        }
        loop
            invariant_except_break
                self.wf(),
                self.input == old(self).input,
                s == self.input@,
                old(self).pos <= self.pos,
                start == old(self).pos,
                pn == parent_name@,
                plain_children(s, start, pn) is Some ==> plain_children(s, start, pn) == after_pieces(
                    pieces(children@),
                    plain_children(s, self.pos as int, pn),
                ),
                children_at(s, start, pn) is Some ==> children_at(s, start, pn) == after_markups(
                    markups_view(children@),
                    children_at(s, self.pos as int, pn),
                ),
            ensures
                self.wf(),
                self.input == old(self).input,
                old(self).pos <= self.pos,
                parent_name@.len() + 3 <= self.pos,
                s.subrange(self.pos - parent_name@.len() - 3, self.pos as int) == "</"@
                    + parent_name@ + ">"@,
                plain_children(s, start, pn) is Some ==> plain_children(s, start, pn) == Some(
                    (pieces(children@), self.pos as int),
                ),
                children_at(s, start, pn) is Some ==> children_at(s, start, pn) == Some(
                    (markups_view(children@), self.pos as int),
                ),
            decreases s.len() - self.pos,
        {
            let ghost pos0 = self.pos as int;
            let ghost its0 = pieces(children@);
            let ghost mv0 = markups_view(children@);
            let ghost ch0 = children@;
            self.skip_whitespace();
            let ghost q = self.pos as int;
            if self.peek_char() == Some('<') && self.peek_ahead(1) == Some('/') {
                self.pos = self.pos + 2;
                let name_start = self.pos;
                let closing_name = match self.parse_identifier() {
                    Ok(n) => n,
                    Err(e) => {
                        let end = if self.input.len() - self.pos > 20 {
                            self.pos + 20
                        } else {
                            self.input.len()
                        };
                        let context = string_from_range(self.input.as_slice(), self.pos, end);
                        let mut m = lit("Failed to parse closing tag name: ");
                        push_string(&mut m, &e);
                        push_lit(&mut m, ". Context: ");
                        let d = debug_str(&context);
                        push_string(&mut m, &d);
                        return Err(m);
                    },
                };
                self.expect_char('>')?;
                if !str_eq(parent_name, closing_name.as_str()) {
                    let mut m = lit("Mismatched tags: opening <");
                    push_lit(&mut m, parent_name);
                    push_lit(&mut m, "> vs closing </");
                    push_string(&mut m, &closing_name);
                    push_lit(&mut m, ">");
                    return Err(m);
                }
                proof {
                    reveal_strlit("</");
                    reveal_strlit(">");
                    assert(its0 + Seq::<(bool, Seq<char>)>::empty() =~= its0);
                    assert(mv0 + Seq::<MarkupView>::empty() =~= mv0);
                    assert(s.subrange(self.pos - parent_name@.len() - 3, self.pos as int) =~= "</"@
                        + parent_name@ + ">"@);
                }
                break;
            }
            let pos_before = self.pos;
            if self.peek_char() == Some('@') {
                if self.at_directive() {
                    let m = self.parse_control_flow()?;
                    children.push(m);
                    proof {
                        assert(children@.drop_last() =~= ch0);
                        if children_at(s, start, pn) is Some {
                            lemma_after_markups(
                                mv0,
                                seq![markup_view(m)],
                                children_at(s, self.pos as int, pn),
                            );
                            assert(mv0 + seq![markup_view(m)] =~= markups_view(children@));
                        }
                    }
                } else {
                    let mut text_children = self.parse_text_with_interpolation_until_markup()?;
                    if text_children.len() == 0 && self.pos == pos_before {
                        let mut m = lit("Failed to parse text starting with @ at position ");
                        let d = decimal_text(self.pos);
                        push_string(&mut m, &d);
                        return Err(m);
                    }
                    let ghost tc = text_children@;
                    children.append(&mut text_children);
                    proof {
                        assert(children@ =~= ch0 + tc);
                        lemma_markups_view_concat(ch0, tc);
                        lemma_text_view(tc);
                        if children_at(s, start, pn) is Some {
                            lemma_after_markups(mv0, markups_view(tc), children_at(s, self.pos as int, pn));
                        }
                    }
                }
            } else if self.peek_char() == Some('<') {
                let m = self.parse_component()?;
                children.push(m);
                proof {
                    assert(children@.drop_last() =~= ch0);
                    if children_at(s, start, pn) is Some {
                        lemma_after_markups(mv0, seq![markup_view(m)], children_at(s, self.pos as int, pn));
                        assert(mv0 + seq![markup_view(m)] =~= markups_view(children@));
                    }
                }
            } else if self.peek_char().is_some() {
                let mut text_children = self.parse_text_with_interpolation_until_markup()?;
                if text_children.len() == 0 && self.pos == pos_before {
                    let mut m = lit("Infinite loop detected at position ");
                    let d = decimal_text(self.pos);
                    push_string(&mut m, &d);
                    push_lit(&mut m, " while parsing children of <");
                    push_lit(&mut m, parent_name);
                    push_lit(&mut m, ">: unexpected character '");
                    let c = match self.peek_char() {
                        Some(c) => c,
                        None => '\0',
                    };
                    push_char(&mut m, c);
                    push_lit(&mut m, "'");
                    return Err(m);
                }
                let ghost tp = pieces(text_children@);
                let ghost tc = text_children@;
                children.append(&mut text_children);
                proof {
                    assert(pieces(children@) =~= its0 + tp);
                    if plain_children(s, start, pn) is Some {
                        lemma_after_pieces(its0, tp, plain_children(s, self.pos as int, pn));
                    }
                    assert(children@ =~= ch0 + tc);
                    lemma_markups_view_concat(ch0, tc);
                    lemma_text_view(tc);
                    if children_at(s, start, pn) is Some {
                        lemma_after_markups(mv0, markups_view(tc), children_at(s, self.pos as int, pn));
                    }
                }
            } else {
                let mut m = lit("Unexpected end while parsing children of <");
                push_lit(&mut m, parent_name);
                push_lit(&mut m, ">");
                return Err(m);
            }
            assert(self.pos > pos_before);
        }
        Ok(children)
    }

    /// Parses `@if`, `@for` or `@when`.
    fn parse_control_flow(&mut self) -> (r: Result<Markup, String>)
        requires
            old(self).wf(),
        ensures
            moved(*old(self), *final(self)),
            r matches Ok(m) ==> old(self).pos < final(self).pos && (m is IfElse || m is ForLoop
                || m is When),
            ({
                let s = old(self).input@;
                let p = old(self).pos as int;
                char_at(s, p) == Some('@') && word_at(s, p + 1, "if"@) ==> match plain_if(s, p + 3) {
                    Some((c, tb, eb, e)) => match r {
                        Ok(Markup::IfElse(b)) => b.condition@ == c && pieces(b.then_branch@) == tb
                            && b.else_ifs@.len() == 0 && branch_pieces(b.else_branch) == eb
                            && final(self).pos == e,
                        _ => false,
                    },
                    None => true,
                }
            }),
            ({
                let s = old(self).input@;
                let p = old(self).pos as int;
                char_at(s, p) == Some('@') && word_at(s, p + 1, "for"@) ==> match plain_for(s, p + 4) {
                    Some((it, c, ps, e)) => match r {
                        Ok(Markup::ForLoop(b)) => b.index is None && b.item@ == it && b.collection@
                            == c && b.key_expr is None && pieces(b.body@) == ps && b.empty_block
                            is None && final(self).pos == e,
                        _ => false,
                    },
                    None => true,
                }
            }),
            ({
                let s = old(self).input@;
                let p = old(self).pos as int;
                char_at(s, p) == Some('@') && word_at(s, p + 1, "when"@) ==> match plain_when(
                    s,
                    p + 5,
                ) {
                    Some((bs, e)) => match r {
                        Ok(Markup::When(w)) => when_views(w.branches@) == bs && final(self).pos == e,
                        _ => false,
                    },
                    None => true,
                }
            }),
            control_at(old(self).input@, old(self).pos as int) matches Some((v, e)) ==> (r matches Ok(
                m,
            ) && markup_view(m) == v && final(self).pos == e),
        decreases old(self).input@.len() - old(self).pos, 1nat,
    {
        proof {
            reveal_strlit("if");
            reveal_strlit("for");
            reveal_strlit("when");
            let s = self.input@;
            let p = self.pos as int;
            lemma_first_char(s, p + 1, "if"@);
            lemma_first_char(s, p + 1, "for"@);
            lemma_first_char(s, p + 1, "when"@);
        }
        self.expect_char('@')?;
        if self.consume_word("if") {
            self.parse_if_else()
        } else if self.consume_word("for") {
            self.parse_for_loop()
        } else if self.consume_word("when") {
            self.parse_when()
        } else {
            Err(lit("Unknown control flow construct"))
        }
    }

    /// Reads `(condition) {` and returns the condition.
    fn parse_condition_open(&mut self) -> (r: Result<String, String>)
        requires
            old(self).wf(),
        ensures
            moved(*old(self), *final(self)),
            r is Ok ==> old(self).pos < final(self).pos,
            match (r, condition_open(old(self).input@, old(self).pos as int)) {
                (Ok(c), Some((t, e))) => c@ == t && final(self).pos == e,
                (Err(_), None) => true,
                _ => false,
            },
    {
        let ghost s = self.input@;
        let ghost p = self.pos as int;
        proof {
            lemma_skip_trivia(s, p);
        }
        self.skip_whitespace();
        let ghost q = self.pos as int;
        proof {
            if char_at(s, q) == Some('(') {
                lemma_until_char_end(s, q + 1, ')', 0, 0, 0);
                let e = until_char_end(s, q + 1, ')', 0, 0, 0);
                if char_at(s, e) == Some(')') {
                    lemma_skip_trivia(s, e + 1);
                }
            }
        }
        self.expect_char('(')?;
        let condition = self.parse_until_char(')')?;
        self.expect_char(')')?;
        self.skip_whitespace();
        self.expect_char('{')?;
        Ok(condition)
    }

    /// Consumes `word` or `@word`; on failure after `@` the `@` stays consumed.
    fn consume_at_word(&mut self, word: &str) -> (r: bool)
        requires
            old(self).wf(),
            word@.len() > 0,
        ensures
            moved(*old(self), *final(self)),
            r ==> old(self).pos < final(self).pos,
            r == word_at(old(self).input@, at_skip(old(self).input@, old(self).pos as int), word@),
            final(self).pos == at_skip(old(self).input@, old(self).pos as int) + if r {
                word@.len() as int
            } else {
                0
            },
    {
        if self.peek_char() == Some('@') {
            self.pos = self.pos + 1;
        }
        self.consume_word(word)
    }

    /// Parses `(condition) { .. }` with `else if` / `else` branches after `@if`.
    fn parse_if_else(&mut self) -> (r: Result<Markup, String>)
        requires
            old(self).wf(),
        ensures
            moved(*old(self), *final(self)),
            r matches Ok(m) ==> old(self).pos < final(self).pos && m is IfElse,
            plain_if(old(self).input@, old(self).pos as int) matches Some((c, tb, eb, e)) ==> (
            r matches Ok(Markup::IfElse(b)) && b.condition@ == c && pieces(b.then_branch@) == tb
                && b.else_ifs@.len() == 0 && branch_pieces(b.else_branch) == eb && final(self).pos
                == e),
            if_at(old(self).input@, old(self).pos as int) matches Some((v, e)) ==> (r matches Ok(m)
                && markup_view(m) == v && final(self).pos == e),
        decreases old(self).input@.len() - old(self).pos, 0nat,
    {
        let ghost s = self.input@;
        let ghost p = self.pos as int;
        let ghost pl = plain_if(s, p);
        let ghost iv = if_at(s, p);
        let condition = match self.parse_condition_open() {
            Ok(c) => c,
            Err(e) => {
                proof {
                    assert(condition_open(s, p) is None);
                }
                return Err(e);
            },
        };
        let ghost a = self.pos as int;
        let then_branch = match self.parse_markup_block() {
            Ok(t) => t,
            Err(e) => {
                proof {
                    assert(pl is Some ==> plain_block(s, a) is Some);
                    assert(iv is Some ==> block_at(s, a) is Some);
                }
                return Err(e);
            },
        };
        let ghost b = self.pos as int;
        proof {
            if iv is Some {
                assert(block_at(s, a) is Some);
                assert(else_ifs_view(Seq::<ElseIfBranch>::empty()) =~= Seq::<
                    (Seq<char>, Seq<MarkupView>),
                >::empty());
                if let Some((eis, eb, e)) = else_at(s, b) {
                    assert(Seq::<(Seq<char>, Seq<MarkupView>)>::empty() + eis =~= eis);
                }
            }
        }
        proof {
            if pl is Some {
                assert(plain_block(s, a) is Some);
                assert(pl.unwrap().0 == condition@);
                assert(pl.unwrap().1 == pieces(then_branch@));
            }
        }
        let mut else_ifs: Vec<ElseIfBranch> = Vec::new();
        let mut else_branch: Option<Vec<Markup>> = None;
        loop
            invariant_except_break
                self.wf(),
                self.input == old(self).input,
                s == self.input@,
                old(self).pos < self.pos,
                pl == plain_if(s, p),
                p == old(self).pos,
                pl is Some ==> self.pos == b && else_ifs@.len() == 0 && else_branch is None
                    && condition_open(s, p) is Some && plain_block(s, condition_open(s, p).unwrap().1)
                    == Some((pl.unwrap().1, b)),
                iv == if_at(s, p),
                iv is Some ==> else_branch is None && else_at(s, b) is Some && else_at(s, b)
                    == after_elses(else_ifs_view(else_ifs@), else_at(s, self.pos as int)),
            ensures
                self.wf(),
                self.input == old(self).input,
                old(self).pos < self.pos,
                pl matches Some((c, tb, eb, e)) ==> else_ifs@.len() == 0 && branch_pieces(
                    else_branch,
                ) == eb && self.pos == e,
                iv is Some ==> else_at(s, b) == Some(
                    (else_ifs_view(else_ifs@), opt_markups_view(else_branch), self.pos as int),
                ),
            decreases s.len() - self.pos,
        {
            let ghost pos0 = self.pos as int;
            self.skip_whitespace();
            proof {
                reveal_strlit("else");
                reveal_strlit("if");
            }
            let ghost j = at_skip(s, self.pos as int);
            let has_else = self.consume_at_word("else");
            if has_else {
                self.skip_whitespace();
                let ghost j2 = at_skip(s, self.pos as int);
                let has_if = self.consume_at_word("if");
                if has_if {
                    proof {
                        assert(pl is None);
                    }
                    let ghost ca = self.pos as int;
                    let condition = match self.parse_condition_open() {
                        Ok(c) => c,
                        Err(e) => {
                            proof {
                                assert(else_at(s, pos0) is None);
                            }
                            return Err(e);
                        },
                    };
                    let ghost a2 = self.pos as int;
                    let body = match self.parse_markup_block() {
                        Ok(bd) => bd,
                        Err(e) => {
                            proof {
                                assert(else_at(s, pos0) is None);
                            }
                            return Err(e);
                        },
                    };
                    let ghost ei0 = else_ifs@;
                    let ghost x = (condition@, markups_view(body@));
                    else_ifs.push(ElseIfBranch { condition, body });
                    proof {
                        assert(else_ifs@.drop_last() =~= ei0);
                        assert(else_ifs_view(else_ifs@) == else_ifs_view(ei0).push(x));
                        if iv is Some {
                            assert(else_at(s, pos0) is Some);
                            if let Some((eis, eb, end)) = else_at(s, self.pos as int) {
                                assert(else_ifs_view(ei0) + (seq![x] + eis) =~= else_ifs_view(ei0).push(x)
                                    + eis);
                            }
                        }
                    }
                } else {
                    match self.expect_char('{') {
                        Ok(_) => {},
                        Err(e) => {
                            proof {
                                assert(pl is None);
                                assert(iv is None);
                            }
                            return Err(e);
                        },
                    }
                    match self.parse_markup_block() {
                        Ok(eb) => {
                            else_branch = Some(eb);
                        },
                        Err(e) => {
                            proof {
                                assert(pl is None);
                                assert(iv is None);
                            }
                            return Err(e);
                        },
                    }
                    proof {
                        let eiv = else_ifs_view(else_ifs@);
                        assert(eiv + Seq::<(Seq<char>, Seq<MarkupView>)>::empty() =~= eiv);
                    }
                    break;
                }
            } else {
                proof {
                    let eiv = else_ifs_view(else_ifs@);
                    assert(eiv + Seq::<(Seq<char>, Seq<MarkupView>)>::empty() =~= eiv);
                }
                break;
            }
        }
        Ok(Markup::IfElse(IfElseBlock { condition, then_branch, else_ifs, else_branch }))
    }

    /// Parses `([index,] item in collection[, key = { expr }]) { .. } [empty { .. }]`
    /// after `@for`.
    #[verifier::spinoff_prover]
    #[verifier::rlimit(40)]
    fn parse_for_loop(&mut self) -> (r: Result<Markup, String>)
        requires
            old(self).wf(),
        ensures
            moved(*old(self), *final(self)),
            r matches Ok(m) ==> old(self).pos < final(self).pos && m is ForLoop,
            plain_for(old(self).input@, old(self).pos as int) matches Some((it, c, ps, e)) ==> (
            r matches Ok(Markup::ForLoop(b)) && b.index is None && b.item@ == it && b.collection@
                == c && b.key_expr is None && pieces(b.body@) == ps && b.empty_block is None
                && final(self).pos == e),
            for_at(old(self).input@, old(self).pos as int) matches Some((v, e)) ==> (r matches Ok(m)
                && markup_view(m) == v && final(self).pos == e),
        decreases old(self).input@.len() - old(self).pos, 0nat,
    {
        let ghost s = self.input@;
        let ghost p = self.pos as int;
        let ghost pl = plain_for(s, p);
        let ghost fv = for_at(s, p);
        proof {
            reveal_strlit("in");
            reveal_strlit("empty");
            reveal_strlit("key");
        }
        self.skip_whitespace();
        self.expect_char('(')?;
        let first_ident = self.parse_identifier()?;
        self.skip_whitespace();
        let (index, item) = if self.peek_char() == Some(',') {
            let saved_pos = self.pos;
            self.pos = self.pos + 1;
            self.skip_whitespace();
            match self.parse_identifier() {
                Ok(second_ident) => {
                    self.skip_whitespace();
                    if self.consume_word("in") {
                        (Some(first_ident), second_ident)
                    } else {
                        self.pos = saved_pos;
                        if !self.consume_word("in") {
                            return Err(lit("Expected 'in' after loop variable"));
                        }
                        (None, first_ident)
                    }
                },
                Err(_) => {
                    self.pos = saved_pos;
                    if !self.consume_word("in") {
                        return Err(lit("Expected 'in' after loop variable"));
                    }
                    (None, first_ident)
                },
            }
        } else if self.consume_word("in") {
            (None, first_ident)
        } else {
            return Err(lit("Expected ',' or 'in' after loop variable"));
        };
        self.skip_whitespace();
        let coll_start = self.pos;
        while self.pos < self.input.len() && self.input[self.pos] != ',' && self.input[self.pos]
            != ')'
            invariant
                self.wf(),
                self.input == old(self).input,
                s == self.input@,
                coll_start <= self.pos,
                coll_end(s, coll_start as int) == coll_end(s, self.pos as int),
            decreases s.len() - self.pos,
        {
            self.pos = self.pos + 1;
        }
        let collection = trimmed_range(self.input.as_slice(), coll_start, self.pos);
        let mut key_expr: Option<String> = None;
        self.skip_whitespace();
        if self.peek_char() == Some(',') {
            self.pos = self.pos + 1;
            self.skip_whitespace();
            if !self.consume_word("key") {
                return Err(lit("Expected 'key' after comma in for loop"));
            }
            self.skip_whitespace();
            let ghost k2 = self.pos as int;
            proof {
                if fv is Some {
                    assert(char_at(s, k2) == Some('='));
                }
            }
            self.expect_char('=')?;
            self.skip_whitespace();
            let ghost k3 = self.pos as int;
            proof {
                if fv is Some {
                    assert(char_at(s, k3) == Some('{'));
                }
            }
            self.expect_char('{')?;
            let key_start = self.pos;
            let _key_body = self.parse_until_char('}')?;
            let key_end = self.pos;
            self.expect_char('}')?;
            key_expr = Some(trimmed_range(self.input.as_slice(), key_start, key_end));
        }
        self.skip_whitespace();
        self.expect_char(')')?;
        self.skip_whitespace();
        self.expect_char('{')?;
        let body = self.parse_markup_block()?;
        let mut empty_block: Option<Vec<Markup>> = None;
        self.skip_whitespace();
        if self.consume_word("empty") {
            self.skip_whitespace();
            self.expect_char('{')?;
            empty_block = Some(self.parse_markup_block()?);
        }
        Ok(Markup::ForLoop(ForLoopBlock { index, item, collection, key_expr, body, empty_block }))
    }

    /// Parses `{ cond -> <C/> ... else -> <C/> }` after `@when`.
    fn parse_when(&mut self) -> (r: Result<Markup, String>)
        requires
            old(self).wf(),
        ensures
            moved(*old(self), *final(self)),
            r matches Ok(m) ==> old(self).pos < final(self).pos && m is When,
            plain_when(old(self).input@, old(self).pos as int) matches Some((bs, e)) ==> (
            r matches Ok(Markup::When(w)) && when_views(w.branches@) == bs && final(self).pos == e),
            when_at(old(self).input@, old(self).pos as int) matches Some((v, e)) ==> (r matches Ok(m)
                && markup_view(m) == v && final(self).pos == e),
        decreases old(self).input@.len() - old(self).pos, 0nat,
    {
        let ghost s = self.input@;
        let ghost p = self.pos as int;
        self.skip_whitespace();
        self.expect_char('{')?;
        let ghost b0 = self.pos as int;
        let ghost total = when_branches(s, b0);
        let ghost tw = when_branches_at(s, b0);
        let mut branches: Vec<WhenBranch> = Vec::new();
        proof {
            assert(when_views(branches@) =~= Seq::<WhenView>::empty());
            if let Some((bs, e)) = total {
                assert(Seq::<WhenView>::empty() + bs =~= bs);
            }
            assert(whens_view(branches@) =~= Seq::<(Option<Seq<char>>, MarkupView)>::empty());
            if let Some((bs, e)) = tw {
                assert(Seq::<(Option<Seq<char>>, MarkupView)>::empty() + bs =~= bs);
            }
            reveal_strlit("else");
            if when_at(s, p) is Some {
                assert(tw is Some);
            }
        }
        loop
            invariant_except_break
                self.wf(),
                self.input == old(self).input,
                s == self.input@,
                old(self).pos < self.pos,
                total == when_branches(s, b0),
                plain_when(s, p) is Some ==> total == plain_when(s, p),
                p == old(self).pos,
                total is Some ==> total == after_branches(
                    when_views(branches@),
                    when_branches(s, self.pos as int),
                ),
                tw == when_branches_at(s, b0),
                when_at(s, p) matches Some((v, e)) ==> (tw matches Some((bs, e2)) && v
                    == MarkupView::When(bs) && e == e2),
                tw is Some ==> tw == after_whens(
                    whens_view(branches@),
                    when_branches_at(s, self.pos as int),
                ),
            ensures
                self.wf(),
                self.input == old(self).input,
                old(self).pos < self.pos,
                total is Some ==> total == Some((when_views(branches@), self.pos as int)),
                plain_when(s, p) is Some ==> total == plain_when(s, p),
                tw is Some ==> tw == Some((whens_view(branches@), self.pos as int)),
            decreases s.len() - self.pos,
        {
            let ghost pos0 = self.pos as int;
            let ghost bv0 = when_views(branches@);
            let ghost wv0 = whens_view(branches@);
            let ghost br0 = branches@;
            self.skip_whitespace();
            if self.peek_char() == Some('}') {
                self.pos = self.pos + 1;
                proof {
                    assert(bv0 + Seq::<WhenView>::empty() =~= bv0);
                    assert(wv0 + Seq::<(Option<Seq<char>>, MarkupView)>::empty() =~= wv0);
                }
                break;
            }
            let ghost q = self.pos as int;
            let condition = if self.consume_word("else") {
                None
            } else {
                let cond_start = self.pos;
                while self.pos < self.input.len() && !(self.input[self.pos] == '-'
                    && self.peek_ahead(1) == Some('>'))
                    invariant
                        self.wf(),
                        self.input == old(self).input,
                        s == self.input@,
                        cond_start <= self.pos,
                        arrow_end(s, cond_start as int) == arrow_end(s, self.pos as int),
                    decreases s.len() - self.pos,
                {
                    self.pos = self.pos + 1;
                }
                Some(trimmed_range(self.input.as_slice(), cond_start, self.pos))
            };
            let ghost a = self.pos as int;
            proof {
                reveal_strlit("else");
                let is_else = word_at(s, q, "else"@);
                if !is_else {
                    assert(arrow_end(s, a) == a);
                }
                assert(a == if is_else {
                    q + 4
                } else {
                    arrow_end(s, q)
                });
                assert(opt_text(condition) == if is_else {
                    None
                } else {
                    Some(spec_trim(s.subrange(q, a)))
                });
            }
            self.skip_whitespace();
            let ghost q2 = self.pos as int;
            let ok_arrow = self.peek_char() == Some('-') && self.peek_ahead(1) == Some('>');
            if !ok_arrow {
                proof {
                    assert(when_branches(s, pos0) is None);
                    assert(when_branches_at(s, pos0) is None);
                }
            }
            self.expect_char('-')?;
            self.expect_char('>')?;
            self.skip_whitespace();
            let ghost q3 = self.pos as int;
            let body = if self.peek_char() == Some('<') {
                match self.parse_component() {
                    Ok(m) => m,
                    Err(e) => {
                        proof {
                            assert(plain_component(s, q3) is None);
                            assert(when_branches(s, pos0) is None);
                            assert(component_at(s, q3) is None);
                            assert(when_branches_at(s, pos0) is None);
                        }
                        return Err(e);
                    },
                }
            } else {
                proof {
                    assert(plain_component(s, q3) is None);
                    assert(when_branches(s, pos0) is None);
                    assert(when_branches_at(s, pos0) is None);
                }
                return Err(lit("Expected component after '->' in when branch"));
            };
            proof {
                if total is Some {
                    assert(when_branches(s, pos0) is Some);
                    let pc = plain_component(s, q3);
                    assert(pc is Some);
                    assert(plain_view(body) == Some((pc.unwrap().0, pc.unwrap().1, pc.unwrap().2)));
                    assert(self.pos == pc.unwrap().3);
                }
            }
            let ghost bw = (opt_text(condition), plain_view(body));
            let ghost bx = (opt_text(condition), markup_view(body));
            proof {
                if tw is Some {
                    assert(when_branches_at(s, pos0) is Some);
                    assert(component_at(s, q3) is Some);
                }
            }
            branches.push(WhenBranch { condition, body });
            proof {
                assert(when_views(branches@) =~= bv0 + seq![bw]);
                if total is Some {
                    lemma_after_branches(bv0, seq![bw], when_branches(s, self.pos as int));
                }
                assert(branches@.drop_last() =~= br0);
                assert(whens_view(branches@) =~= wv0 + seq![bx]);
                if tw is Some {
                    if let Some((bs, end)) = when_branches_at(s, self.pos as int) {
                        assert(wv0 + (seq![bx] + bs) =~= (wv0 + seq![bx]) + bs);
                    }
                }
            }
        }
        Ok(Markup::When(WhenBlock { branches }))
    }

    /// Parses markup up to and including the `}` that closes a block; `val` /
    /// `var` lines in it are skipped.
    #[verifier::spinoff_prover]
    #[verifier::rlimit(40)]
    fn parse_markup_block(&mut self) -> (r: Result<Vec<Markup>, String>)
        requires
            old(self).wf(),
        ensures
            moved(*old(self), *final(self)),
            r is Ok ==> old(self).pos < final(self).pos && final(self).input@[final(self).pos - 1]
                == '}',
            plain_block(old(self).input@, old(self).pos as int) matches Some((ps, e)) ==> (r matches Ok(
                v,
            ) && pieces(v@) == ps && final(self).pos == e),
            block_at(old(self).input@, old(self).pos as int) matches Some((ms, e)) ==> (r matches Ok(
                v,
            ) && markups_view(v@) == ms && final(self).pos == e),
        decreases old(self).input@.len() - old(self).pos, 2nat,
    {
        let ghost s = self.input@;
        let ghost start = self.pos as int;
        let mut items: Vec<Markup> = Vec::new();
        proof {
            assert(pieces(items@) =~= Seq::<(bool, Seq<char>)>::empty());
            if let Some((ps, e)) = plain_block(s, start) {
                assert(Seq::<(bool, Seq<char>)>::empty() + ps =~= ps);
            }
            assert(markups_view(items@) =~= Seq::<MarkupView>::empty());
            if let Some((ms, e)) = block_at(s, start) {
                assert(Seq::<MarkupView>::empty() + ms =~= ms);
            }
        }
        loop
            invariant_except_break
                self.wf(),
                self.input == old(self).input,
                s == self.input@,
                old(self).pos <= self.pos,
                start == old(self).pos,
                plain_block(s, start) is Some ==> plain_block(s, start) == after_pieces(
                    pieces(items@),
                    plain_block(s, self.pos as int),
                ),
                block_at(s, start) is Some ==> block_at(s, start) == after_markups(
                    markups_view(items@),
                    block_at(s, self.pos as int),
                ),
            ensures
                self.wf(),
                self.input == old(self).input,
                old(self).pos < self.pos,
                s[self.pos - 1] == '}',
                plain_block(s, start) is Some ==> plain_block(s, start) == Some(
                    (pieces(items@), self.pos as int),
                ),
                block_at(s, start) is Some ==> block_at(s, start) == Some(
                    (markups_view(items@), self.pos as int),
                ),
            decreases s.len() - self.pos,
        {
            let ghost pos0 = self.pos as int;
            let ghost its0 = pieces(items@);
            let ghost mv0 = markups_view(items@);
            let ghost it0 = items@;
            self.skip_whitespace();
            let ghost q = self.pos as int;
            proof {
                if char_at(s, q) == Some('}') {
                    assert(its0 + Seq::<(bool, Seq<char>)>::empty() =~= its0);
                    assert(mv0 + Seq::<MarkupView>::empty() =~= mv0);
                }
            }
            if self.peek_char() == Some('}') {
                self.pos = self.pos + 1;
                break;
            }
            let pos_before = self.pos;
            if self.is_kotlin_declaration() {
                proof {
                    reveal_strlit("val ");
                    reveal_strlit("var ");
                    assert(s.subrange(pos_before as int, pos_before + 4)[0] == s[pos_before as int]);
                    lemma_statement_end(s, pos_before + 1);
                }
                let _kotlin_line = self.parse_kotlin_statement()?;
                proof {
                    if block_at(s, start) is Some {
                        if let Some((rest, end)) = block_at(s, self.pos as int) {
                            assert(Seq::<MarkupView>::empty() + rest =~= rest);
                        }
                    }
                }
                assert(self.pos > pos_before);
                continue;
            } else if self.peek_char() == Some('@') {
                let m = self.parse_control_flow()?;
                items.push(m);
                proof {
                    assert(items@.drop_last() =~= it0);
                    if block_at(s, start) is Some {
                        lemma_after_markups(mv0, seq![markup_view(m)], block_at(s, self.pos as int));
                        assert(mv0 + seq![markup_view(m)] =~= markups_view(items@));
                    }
                }
            } else if self.peek_char() == Some('<') {
                let m = self.parse_component()?;
                items.push(m);
                proof {
                    assert(items@.drop_last() =~= it0);
                    if block_at(s, start) is Some {
                        lemma_after_markups(mv0, seq![markup_view(m)], block_at(s, self.pos as int));
                        assert(mv0 + seq![markup_view(m)] =~= markups_view(items@));
                    }
                }
            } else if self.peek_char().is_some() {
                let mut text_items = self.parse_text_with_interpolation_until_markup()?;
                if text_items.len() == 0 && self.pos == pos_before {
                    let mut m = lit("Infinite loop detected at position ");
                    let d = decimal_text(self.pos);
                    push_string(&mut m, &d);
                    push_lit(&mut m, ": unexpected character '");
                    let c = match self.peek_char() {
                        Some(c) => c,
                        None => '\0',
                    };
                    push_char(&mut m, c);
                    push_lit(&mut m, "'");
                    return Err(m);
                }
                let ghost tp = pieces(text_items@);
                let ghost tc = text_items@;
                items.append(&mut text_items);
                proof {
                    assert(pieces(items@) =~= its0 + tp);
                    if plain_block(s, start) is Some {
                        lemma_after_pieces(its0, tp, plain_block(s, self.pos as int));
                    }
                    assert(items@ =~= it0 + tc);
                    lemma_markups_view_concat(it0, tc);
                    lemma_text_view(tc);
                    if block_at(s, start) is Some {
                        lemma_after_markups(mv0, markups_view(tc), block_at(s, self.pos as int));
                    }
                }
            } else {
                return Err(lit("Unexpected end in markup block"));
            }
            assert(self.pos > pos_before);
        }
        Ok(items)
    }
}


// ===================== Pass-through Kotlin blocks =====================

/// The scanner state while a pass-through block is captured.
pub struct ScanState {
    pub brace: int,
    pub paren: int,
    pub found_brace: bool,
    pub found_paren: bool,
    pub in_string: bool,
    pub in_char: bool,
    pub in_raw: bool,
    pub escaped: bool,
    pub in_line_comment: bool,
    pub in_block_comment: bool,
    pub in_expression: bool,
    pub steps: int,
}

/// The state at the start of a block.
pub open spec fn scan_start() -> ScanState {
    ScanState {
        brace: 0,
        paren: 0,
        found_brace: false,
        found_paren: false,
        in_string: false,
        in_char: false,
        in_raw: false,
        escaped: false,
        in_line_comment: false,
        in_block_comment: false,
        in_expression: false,
        steps: 0,
    }
}

/// One step of the scanner: go on at an index, stop at an index, or fail.
pub enum ScanStep {
    Next(int, ScanState),
    Stop(int, ScanState),
    Fail(Seq<char>),
}

/// The most steps a capture takes.
pub const MAX_SCAN_STEPS: usize = 100000;

/// End of the white space other than `'\n'` at `i`.
pub open spec fn inline_ws_end(s: Seq<char>, i: int) -> int
    decreases s.len() - i,
{
    if 0 <= i < s.len() && spec_is_whitespace(s[i]) && s[i] != '\n' {
        inline_ws_end(s, i + 1)
    } else {
        i
    }
}

/// After a `'\n'` that ends at `j` outside any nesting: stop before a new
/// top-level declaration, else go on after the white space.
pub open spec fn after_newline(s: Seq<char>, j: int, st: ScanState) -> ScanStep {
    if st.brace == 0 && st.paren == 0 {
        let k = skip_trivia(s, j);
        if top_level_keyword_at(s, k) {
            ScanStep::Stop(k, st)
        } else {
            ScanStep::Next(k, st)
        }
    } else {
        ScanStep::Next(j, st)
    }
}

/// The scanner step at `i` (a character is there) from state `st0`.
pub open spec fn scan_step(s: Seq<char>, i: int, st0: ScanState) -> ScanStep {
    let st = ScanState { steps: st0.steps + 1, ..st0 };
    let ch = s[i];
    let next = char_at(s, i + 1);
    let in_any_string = st.in_string || st.in_char || st.in_raw;
    if st.steps > MAX_SCAN_STEPS {
        ScanStep::Fail(error_at(s, i, "Parser stuck capturing Kotlin block - possible infinite loop"@))
    } else if st.escaped {
        ScanStep::Next(i + 1, ScanState { escaped: false, ..st })
    } else if ch == '\\' && (st.in_string || st.in_char) && !st.in_raw {
        ScanStep::Next(i + 1, ScanState { escaped: true, ..st })
    } else if !in_any_string && !st.in_block_comment && ch == '/' && next == Some('/') {
        ScanStep::Next(i + 2, ScanState { in_line_comment: true, ..st })
    } else if !in_any_string && !st.in_line_comment && ch == '/' && next == Some('*') {
        ScanStep::Next(i + 2, ScanState { in_block_comment: true, ..st })
    } else if st.in_line_comment && ch == '\n' {
        after_newline(s, i + 1, ScanState { in_line_comment: false, ..st })
    } else if st.in_block_comment && ch == '*' && next == Some('/') {
        ScanStep::Next(i + 2, ScanState { in_block_comment: false, ..st })
    } else if st.in_line_comment || st.in_block_comment {
        ScanStep::Next(i + 1, st)
    } else if ch == '"' && next == Some('"') && char_at(s, i + 2) == Some('"') {
        ScanStep::Next(i + 3, ScanState { in_raw: !st.in_raw, ..st })
    } else if !st.in_raw && ch == '"' && !st.in_char {
        ScanStep::Next(i + 1, ScanState { in_string: !st.in_string, ..st })
    } else if !st.in_raw && ch == '\'' && !st.in_string {
        ScanStep::Next(i + 1, ScanState { in_char: !st.in_char, ..st })
    } else if in_any_string {
        ScanStep::Next(i + 1, st)
    } else if ch == '(' {
        ScanStep::Next(i + 1, ScanState { found_paren: true, paren: st.paren + 1, ..st })
    } else if ch == ')' {
        if st.paren > 0 {
            let st2 = ScanState { paren: st.paren - 1, ..st };
            if st2.paren == 0 && st2.brace == 0 && st2.found_paren && !st2.found_brace {
                let w = inline_ws_end(s, i + 1);
                let n = char_at(s, w);
                if n == Some('=') {
                    ScanStep::Next(i + 1, ScanState { in_expression: true, ..st2 })
                } else if n == Some(':') || n == Some('{') || (n == Some('-') && char_at(s, w + 1)
                    == Some('>')) {
                    ScanStep::Next(i + 1, st2)
                } else if n == Some('\n') || n is None || !st2.in_expression {
                    ScanStep::Stop(i + 1, st2)
                } else {
                    ScanStep::Next(i + 1, st2)
                }
            } else {
                ScanStep::Next(i + 1, st2)
            }
        } else {
            ScanStep::Fail(error_at(s, i, "Unmatched closing parenthesis in Kotlin block"@))
        }
    } else if ch == '{' {
        ScanStep::Next(i + 1, ScanState { found_brace: true, brace: st.brace + 1, ..st })
    } else if ch == '}' {
        if st.brace > 0 {
            let st2 = ScanState { brace: st.brace - 1, ..st };
            if st2.brace == 0 && st2.found_brace {
                ScanStep::Stop(i + 1, st2)
            } else {
                ScanStep::Next(i + 1, st2)
            }
        } else {
            ScanStep::Fail(error_at(s, i, "Unmatched closing brace in Kotlin block"@))
        }
    } else if ch == '=' {
        ScanStep::Next(
            i + 1,
            ScanState {
                in_expression: st.in_expression || (st.brace == 0 && st.paren == 0
                    && st.found_paren),
                ..st
            },
        )
    } else if ch == '\n' {
        after_newline(s, i + 1, st)
    } else {
        ScanStep::Next(i + 1, st)
    }
}

/// Where the scanner ends from index `i` and state `st`, and its state there;
/// or its error.
pub open spec fn scan_run(s: Seq<char>, i: int, st: ScanState) -> Result<(int, ScanState), Seq<char>>
    decreases s.len() - i,
{
    if i < 0 || i >= s.len() {
        Ok((i, st))
    } else {
        match scan_step(s, i, st) {
            ScanStep::Next(j, st2) => if i < j <= s.len() {
                scan_run(s, j, st2)
            } else {
                Ok((i, st))
            },
            ScanStep::Stop(j, st2) => Ok((j, st2)),
            ScanStep::Fail(m) => Err(m),
        }
    }
}

/// The byte offset (UTF-8) of index `q` of `s`, as far as a `usize` counts.
pub open spec fn byte_pos(s: Seq<char>, q: int) -> int {
    let n = crate::compose_components::byte_len(s.take(q));
    if n <= usize::MAX {
        n as int
    } else {
        usize::MAX as int
    }
}

/// The byte offset of index `q` of `v`.
fn byte_offset(v: &Vec<char>, q: usize) -> (r: usize)
    requires
        q <= v@.len(),
    ensures
        r == byte_pos(v@, q as int),
{
    let mut acc: usize = 0;
    let mut i: usize = 0;
    proof {
        assert(v@.take(0) =~= Seq::<char>::empty());
    }
    while i < q
        invariant
            i <= q <= v@.len(),
            acc == byte_pos(v@, i as int),
        decreases q - i,
    {
        let c = v[i];
        let n: usize = if (c as u32) < 0x80 {
            1
        } else if (c as u32) < 0x800 {
            2
        } else if (c as u32) < 0x10000 {
            3
        } else {
            4
        };
        proof {
            assert(v@.take(i + 1).drop_last() =~= v@.take(i as int));
            assert(v@.take(i + 1).last() == c);
            assert(n == crate::compose_text::utf8_len(c));
        }
        acc = acc.saturating_add(n);
        i = i + 1;
    }
    acc
}

/// What capturing a pass-through block at `p` gives: its trimmed text and the
/// index after it; or the error.
pub open spec fn kotlin_capture(s: Seq<char>, p: int) -> Result<(Seq<char>, int), Seq<char>> {
    match scan_run(s, p, scan_start()) {
        Err(m) => Err(m),
        Ok((e, st)) => if st.in_string {
            Err(error_at(s, e, "Unclosed string literal in Kotlin block"@))
        } else if st.in_char {
            Err(error_at(s, e, "Unclosed character literal in Kotlin block"@))
        } else if st.in_raw {
            Err(error_at(s, e, "Unclosed multi-line string literal in Kotlin block"@))
        } else if st.in_block_comment {
            Err(error_at(s, e, "Unclosed block comment in Kotlin block"@))
        } else if spec_trim(s.subrange(p, e)).len() == 0 {
            Err(error_at(s, e, "Empty Kotlin block captured"@))
        } else {
            Ok((spec_trim(s.subrange(p, e)), e))
        }
    }
}

pub proof fn lemma_inline_ws_end(s: Seq<char>, i: int)
    requires
        0 <= i <= s.len(),
    ensures
        i <= inline_ws_end(s, i) <= s.len(),
    decreases s.len() - i,
{
    if i < s.len() && spec_is_whitespace(s[i]) && s[i] != '\n' {
        lemma_inline_ws_end(s, i + 1);
    }
}

/// The ghost view of the scanner's counters and flags.
pub open spec fn scan_state(
    brace: usize,
    paren: usize,
    flags: (bool, bool, bool, bool, bool, bool, bool, bool, bool),
    steps: usize,
) -> ScanState {
    ScanState {
        brace: brace as int,
        paren: paren as int,
        found_brace: flags.0,
        found_paren: flags.1,
        in_string: flags.2,
        in_char: flags.3,
        in_raw: flags.4,
        escaped: flags.5,
        in_line_comment: flags.6,
        in_block_comment: flags.7,
        in_expression: flags.8,
        steps: steps as int,
    }
}

impl Parser {
    /// The step taken after a `'\n'` (already consumed) outside any nesting:
    /// moves past white space and reports whether a new top-level declaration
    /// starts there.
    fn newline_stop(&mut self, at_depth_zero: bool) -> (stop: bool)
        requires
            old(self).wf(),
        ensures
            moved(*old(self), *final(self)),
            at_depth_zero ==> final(self).pos == skip_trivia(old(self).input@, old(self).pos as int)
                && stop == top_level_keyword_at(old(self).input@, final(self).pos as int),
            !at_depth_zero ==> final(self).pos == old(self).pos && !stop,
    {
        if at_depth_zero {
            self.skip_whitespace();
            self.is_top_level_keyword()
        } else {
            false
        }
    }

    /// Captures a pass-through Kotlin block (a declaration that is copied
    /// unchanged), scanning strings, comments and nesting to find its end.
    #[verifier::rlimit(100)]
    fn capture_kotlin_block(&mut self) -> (r: Result<KotlinBlock, String>)
        requires
            old(self).wf(),
        ensures
            moved(*old(self), *final(self)),
            match kotlin_capture(old(self).input@, old(self).pos as int) {
                Err(m) => r matches Err(x) && x@ == m,
                Ok((c, e)) => r matches Ok(b) && b.content@ == c && b.position == byte_pos(old(self).input@, old(self).pos as int)
                    && b.block_type == block_type_at(old(self).input@, old(self).pos as int)
                    && final(self).pos == e && old(self).pos < e,
            },
    {
        let ghost s = self.input@;
        let start_pos = self.pos;
        let block_type = self.detect_block_type();
        let mut brace: usize = 0;
        let mut paren: usize = 0;
        let mut found_brace = false;
        let mut found_paren = false;
        let mut in_string = false;
        let mut in_char = false;
        let mut in_raw = false;
        let mut escaped = false;
        let mut in_line = false;
        let mut in_block = false;
        let mut in_expr = false;
        let mut steps: usize = 0;
        loop
            invariant_except_break
                self.wf(),
                self.input == old(self).input,
                s == self.input@,
                start_pos == old(self).pos,
                start_pos <= self.pos,
                brace <= self.pos,
                paren <= self.pos,
                steps <= self.pos,
                scan_run(
                    s,
                    self.pos as int,
                    scan_state(
                        brace,
                        paren,
                        (
                            found_brace,
                            found_paren,
                            in_string,
                            in_char,
                            in_raw,
                            escaped,
                            in_line,
                            in_block,
                            in_expr,
                        ),
                        steps,
                    ),
                ) == scan_run(s, start_pos as int, scan_start()),
            ensures
                self.wf(),
                self.input == old(self).input,
                start_pos <= self.pos,
                scan_run(s, start_pos as int, scan_start()) == Ok::<(int, ScanState), Seq<char>>(
                    (
                        self.pos as int,
                        scan_state(
                            brace,
                            paren,
                            (
                                found_brace,
                                found_paren,
                                in_string,
                                in_char,
                                in_raw,
                                escaped,
                                in_line,
                                in_block,
                                in_expr,
                            ),
                            steps,
                        ),
                    ),
                ),
            decreases s.len() - self.pos,
        {
            if self.pos >= self.input.len() {
                break;
            }
            let ghost i = self.pos as int;
            let ghost st0 = scan_state(
                brace,
                paren,
                (
                    found_brace,
                    found_paren,
                    in_string,
                    in_char,
                    in_raw,
                    escaped,
                    in_line,
                    in_block,
                    in_expr,
                ),
                steps,
            );
            proof {
                lemma_skip_trivia(s, i + 1);
                lemma_inline_ws_end(s, i + 1);
            }
            steps = steps + 1;
            if steps > MAX_SCAN_STEPS {
                return Err(
                    self.error_at_pos("Parser stuck capturing Kotlin block - possible infinite loop"),
                );
            }
            let ch = self.input[self.pos];
            let next = self.peek_ahead(1);
            let in_any_string = in_string || in_char || in_raw;
            if escaped {
                escaped = false;
                self.pos = self.pos + 1;
            } else if ch == '\\' && (in_string || in_char) && !in_raw {
                escaped = true;
                self.pos = self.pos + 1;
            } else if !in_any_string && !in_block && ch == '/' && next == Some('/') {
                in_line = true;
                self.pos = self.pos + 2;
            } else if !in_any_string && !in_line && ch == '/' && next == Some('*') {
                in_block = true;
                self.pos = self.pos + 2;
            } else if in_line && ch == '\n' {
                in_line = false;
                self.pos = self.pos + 1;
                if self.newline_stop(brace == 0 && paren == 0) {
                    break;
                }
            } else if in_block && ch == '*' && next == Some('/') {
                in_block = false;
                self.pos = self.pos + 2;
            } else if in_line || in_block {
                self.pos = self.pos + 1;
            } else if ch == '"' && next == Some('"') && self.peek_ahead(2) == Some('"') {
                in_raw = !in_raw;
                self.pos = self.pos + 3;
            } else if !in_raw && ch == '"' && !in_char {
                in_string = !in_string;
                self.pos = self.pos + 1;
            } else if !in_raw && ch == '\'' && !in_string {
                in_char = !in_char;
                self.pos = self.pos + 1;
            } else if in_any_string {
                self.pos = self.pos + 1;
            } else if ch == '(' {
                found_paren = true;
                paren = paren + 1;
                self.pos = self.pos + 1;
            } else if ch == ')' {
                if paren > 0 {
                    paren = paren - 1;
                    self.pos = self.pos + 1;
                    if paren == 0 && brace == 0 && found_paren && !found_brace {
                        let mut w = self.pos;
                        while w < self.input.len() && is_whitespace(self.input[w]) && self.input[w]
                            != '\n'
                            invariant
                                self.wf(),
                                s == self.input@,
                                self.pos <= w <= s.len(),
                                inline_ws_end(s, w as int) == inline_ws_end(s, self.pos as int),
                            decreases s.len() - w,
                        {
                            w = w + 1;
                        }
                        let n = if w < self.input.len() {
                            Some(self.input[w])
                        } else {
                            None
                        };
                        let nn = if w + 1 < self.input.len() {
                            Some(self.input[w + 1])
                        } else {
                            None
                        };
                        if n == Some('=') {
                            in_expr = true;
                        } else if n == Some(':') || n == Some('{') || (n == Some('-') && nn == Some(
                            '>',
                        )) {
                        } else if n == Some('\n') || n.is_none() || !in_expr {
                            break;
                        }
                    }
                } else {
                    return Err(self.error_at_pos("Unmatched closing parenthesis in Kotlin block"));
                }
            } else if ch == '{' {
                found_brace = true;
                brace = brace + 1;
                self.pos = self.pos + 1;
            } else if ch == '}' {
                if brace > 0 {
                    brace = brace - 1;
                    self.pos = self.pos + 1;
                    if brace == 0 && found_brace {
                        break;
                    }
                } else {
                    return Err(self.error_at_pos("Unmatched closing brace in Kotlin block"));
                }
            } else if ch == '=' {
                if brace == 0 && paren == 0 && found_paren {
                    in_expr = true;
                }
                self.pos = self.pos + 1;
            } else if ch == '\n' {
                self.pos = self.pos + 1;
                if self.newline_stop(brace == 0 && paren == 0) {
                    break;
                }
            } else {
                self.pos = self.pos + 1;
            }
        }
        if in_string {
            return Err(self.error_at_pos("Unclosed string literal in Kotlin block"));
        }
        if in_char {
            return Err(self.error_at_pos("Unclosed character literal in Kotlin block"));
        }
        if in_raw {
            return Err(self.error_at_pos("Unclosed multi-line string literal in Kotlin block"));
        }
        if in_block {
            return Err(self.error_at_pos("Unclosed block comment in Kotlin block"));
        }
        let content = trimmed_range(self.input.as_slice(), start_pos, self.pos);
        if content.as_str().unicode_len() == 0 {
            return Err(self.error_at_pos("Empty Kotlin block captured"));
        }
        proof {
            if self.pos == start_pos {
                assert(s.subrange(start_pos as int, self.pos as int) =~= Seq::<char>::empty());
                assert(spec_trim(Seq::<char>::empty()) =~= Seq::<char>::empty());
            }
        }
        let position = byte_offset(&self.input, start_pos);
        Ok(KotlinBlock { content, position, block_type })
    }
}


// ===================== Script tags =====================

/// End of a tag name at `i`: the first `>` or white space (or the end).
pub open spec fn tag_name_end(s: Seq<char>, i: int) -> int
    decreases s.len() - i,
{
    if i < 0 || i >= s.len() || s[i] == '>' || spec_is_whitespace(s[i]) {
        i
    } else {
        tag_name_end(s, i + 1)
    }
}

pub proof fn lemma_tag_name_end(s: Seq<char>, i: int)
    requires
        0 <= i <= s.len(),
    ensures
        i <= tag_name_end(s, i) <= s.len(),
    decreases s.len() - i,
{
    if i < s.len() && s[i] != '>' && !spec_is_whitespace(s[i]) {
        lemma_tag_name_end(s, i + 1);
    }
}

/// The import paths in the lines of `c` from index `i` on: each line that,
/// trimmed, starts with `import ` gives the rest of it, trimmed.
pub open spec fn script_imports(c: Seq<char>, i: int) -> Seq<Seq<char>>
    decreases c.len() - i,
{
    if i < 0 || i > c.len() {
        Seq::empty()
    } else {
        let e = next_newline(c, i);
        let t = spec_trim(c.subrange(i, e));
        let rest = if i <= e < c.len() {
            script_imports(c, e + 1)
        } else {
            Seq::empty()
        };
        if occurs_at(t, 0, "import "@) {
            seq![spec_trim(t.subrange(7, t.len() as int))] + rest
        } else {
            rest
        }
    }
}

/// Where the `</script>` that closes content starting at `j` begins, and the
/// index after it; `None` when the text ends first.
pub open spec fn script_close(s: Seq<char>, j: int) -> Option<(int, int)>
    decreases s.len() - j,
{
    if j < 0 || j >= s.len() {
        None
    } else if s[j] == '<' && char_at(s, j + 1) == Some('/') {
        let k = find_char(s, j + 2, '>');
        if s.subrange(j + 2, k) == "script"@ {
            Some(
                (
                    j,
                    if k < s.len() {
                        k + 1
                    } else {
                        k
                    },
                ),
            )
        } else if j < k < s.len() {
            script_close(s, k + 1)
        } else {
            None
        }
    } else {
        script_close(s, j + 1)
    }
}

/// What reading a `<script>` tag at `p` gives: `None` when no script tag
/// starts there; else its import paths and the index after `</script>`, or the
/// error.
pub open spec fn script_tag(s: Seq<char>, p: int) -> Option<
    Result<(Seq<Seq<char>>, int), Seq<char>>,
> {
    let t = tag_name_end(s, p + 1);
    let g = find_char(s, t, '>');
    if char_at(s, p) != Some('<') || s.subrange(p + 1, t) != "script"@ {
        None
    } else if g >= s.len() {
        Some(Err("Unexpected EOF in script tag"@))
    } else {
        script_body(s, g + 1)
    }
}

/// What reading the content of a script tag from `c0` gives: its import paths
/// and the index after `</script>`, or the error.
pub open spec fn script_body(s: Seq<char>, c0: int) -> Option<
    Result<(Seq<Seq<char>>, int), Seq<char>>,
> {
    match script_close(s, c0) {
        None => Some(Err("Unclosed <script> tag"@)),
        Some((j, e)) => Some(Ok((script_imports(s.subrange(c0, j), 0), e))),
    }
}

/// The import paths of the lines of `c[from..to]`.
fn collect_script_imports(c: &[char], from: usize, to: usize) -> (r: Vec<Import>)
    requires
        from <= to <= c@.len(),
    ensures
        r@.map_values(|i: Import| i.path@) == script_imports(
            c@.subrange(from as int, to as int),
            0,
        ),
{
    let ghost cs = c@.subrange(from as int, to as int);
    let mut out: Vec<Import> = Vec::new();
    let mut i = from;
    loop
        invariant_except_break
            from <= i <= to <= c@.len(),
            cs == c@.subrange(from as int, to as int),
            out@.map_values(|m: Import| m.path@) + script_imports(cs, i - from) == script_imports(
                cs,
                0,
            ),
        ensures
            out@.map_values(|m: Import| m.path@) == script_imports(cs, 0),
        decreases to - i,
    {
        let mut e = i;
        while e < to && c[e] != '\n'
            invariant
                i <= e <= to,
                from <= i,
                to <= c@.len(),
                cs == c@.subrange(from as int, to as int),
                next_newline(cs, e - from) == next_newline(cs, i - from),
            decreases to - e,
        {
            e = e + 1;
        }
        proof {
            assert(c@.subrange(i as int, e as int) =~= cs.subrange(i - from, e - from));
        }
        let line = trimmed_range(c, i, e);
        let lv = str_to_chars(line.as_str());
        proof {
            reveal_strlit("import ");
        }
        let ghost before = out@.map_values(|m: Import| m.path@);
        let ghost rest = if e < to {
            script_imports(cs, e - from + 1)
        } else {
            Seq::<Seq<char>>::empty()
        };
        if lit_at(lv.as_slice(), 0, "import ") {
            let path = trimmed_range(lv.as_slice(), 7, lv.len());
            let ghost pv = path@;
            out.push(Import { path });
            proof {
                assert(out@.map_values(|m: Import| m.path@) =~= before.push(pv));
                assert(before.push(pv) + rest =~= before + (seq![pv] + rest));
            }
        }
        if e >= to {
            proof {
                assert(out@.map_values(|m: Import| m.path@) + rest =~= out@.map_values(
                    |m: Import| m.path@,
                ));
            }
            break;
        }
        i = e + 1;
    }
    out
}

impl Parser {
    /// Reads a `<script>` tag with its imports; where no script tag starts
    /// here, returns no imports and leaves the position.
    fn try_parse_script_tag(&mut self) -> (r: Result<Vec<Import>, String>)
        requires
            old(self).wf(),
        ensures
            moved(*old(self), *final(self)),
            match script_tag(old(self).input@, old(self).pos as int) {
                None => r matches Ok(v) && v@.len() == 0 && final(self).pos == old(self).pos,
                Some(Err(m)) => r matches Err(x) && x@ == m,
                Some(Ok((paths, e))) => r matches Ok(v) && v@.map_values(|i: Import| i.path@)
                    == paths && final(self).pos == e && old(self).pos < e,
            },
    {
        let ghost s = self.input@;
        let saved_pos = self.pos;
        if self.peek_char() != Some('<') {
            return Ok(Vec::new());
        }
        self.pos = self.pos + 1;
        let tag_start = self.pos;
        while self.pos < self.input.len() && self.input[self.pos] != '>' && !is_whitespace(
            self.input[self.pos],
        )
            invariant
                self.wf(),
                self.input == old(self).input,
                s == self.input@,
                tag_start <= self.pos,
                tag_name_end(s, self.pos as int) == tag_name_end(s, tag_start as int),
            decreases s.len() - self.pos,
        {
            self.pos = self.pos + 1;
        }
        proof {
            reveal_strlit("script");
        }
        if !chars_eq_lit(self.input.as_slice(), tag_start, self.pos, "script") {
            self.pos = saved_pos;
            return Ok(Vec::new());
        }
        let ghost t = self.pos;
        while self.pos < self.input.len() && self.input[self.pos] != '>'
            invariant
                self.wf(),
                self.input == old(self).input,
                s == self.input@,
                t <= self.pos,
                find_char(s, self.pos as int, '>') == find_char(s, t as int, '>'),
            decreases s.len() - self.pos,
        {
            self.pos = self.pos + 1;
        }
        if self.pos >= self.input.len() {
            return Err(lit("Unexpected EOF in script tag"));
        }
        self.pos = self.pos + 1;
        let content_start = self.pos;
        loop
            invariant
                self.wf(),
                self.input == old(self).input,
                s == self.input@,
                content_start <= self.pos,
                old(self).pos < content_start,
                script_close(s, self.pos as int) == script_close(s, content_start as int),
                script_tag(s, old(self).pos as int) == script_body(s, content_start as int),
            decreases s.len() - self.pos,
        {
            if self.pos >= self.input.len() {
                return Err(lit("Unclosed <script> tag"));
            }
            if self.input[self.pos] == '<' && self.peek_ahead(1) == Some('/') {
                let check_pos = self.pos;
                let close_start = self.pos + 2;
                let mut k = close_start;
                while k < self.input.len() && self.input[k] != '>'
                    invariant
                        s == self.input@,
                        close_start <= k <= s.len(),
                        find_char(s, k as int, '>') == find_char(s, close_start as int, '>'),
                    decreases s.len() - k,
                {
                    k = k + 1;
                }
                if chars_eq_lit(self.input.as_slice(), close_start, k, "script") {
                    let imports = collect_script_imports(
                        self.input.as_slice(),
                        content_start,
                        check_pos,
                    );
                    self.pos = if k < self.input.len() {
                        k + 1
                    } else {
                        k
                    };
                    return Ok(imports);
                }
                if k >= self.input.len() {
                    self.pos = k;
                    return Err(lit("Unclosed <script> tag"));
                }
                self.pos = k + 1;
            } else {
                self.pos = self.pos + 1;
            }
        }
    }
}

/// Whether `s[a..b]` is the literal `t`.
fn chars_eq_lit(s: &[char], a: usize, b: usize, t: &str) -> (r: bool)
    requires
        a <= b <= s@.len(),
    ensures
        r == (s@.subrange(a as int, b as int) == t@),
{
    let tv = str_to_chars(t);
    if b - a != tv.len() {
        return false;
    }
    let r = crate::text::chars_occur_at(s, a, tv.as_slice());
    proof {
        if r {
            assert(s@.subrange(a as int, b as int) =~= tv@);
        } else {
            assert(s@.subrange(a as int, b as int) != tv@);
        }
    }
    r
}


// ===================== Files =====================

/// A copy of a list of strings.
fn copy_strings(v: &Vec<String>) -> (r: Vec<String>)
    ensures
        r@.map_values(|x: String| x@) == v@.map_values(|x: String| x@),
{
    let mut r: Vec<String> = Vec::new();
    let mut i: usize = 0;
    while i < v.len()
        invariant
            i <= v@.len(),
            r@.map_values(|x: String| x@) == v@.subrange(0, i as int).map_values(|x: String| x@),
        decreases v.len() - i,
    {
        let ghost before = r@.map_values(|x: String| x@);
        let c = lit(v[i].as_str());
        r.push(c);
        proof {
            assert(r@.map_values(|x: String| x@) =~= before.push(v@[i as int]@));
            assert(v@.subrange(0, i + 1).map_values(|x: String| x@) =~= v@.subrange(
                0,
                i as int,
            ).map_values(|x: String| x@).push(v@[i as int]@));
        }
        i = i + 1;
    }
    proof {
        assert(v@.subrange(0, v@.len() as int) =~= v@);
    }
    r
}

/// The annotations `@a`, one per line, joined by `'\n'`.
pub open spec fn annotation_lines(a: Seq<Seq<char>>) -> Seq<char>
    decreases a.len(),
{
    if a.len() == 0 {
        Seq::empty()
    } else if a.len() == 1 {
        seq!['@'] + a[0]
    } else {
        annotation_lines(a.drop_last()) + seq!['\n', '@'] + a.last()
    }
}

/// `content` with the annotations `a` (if any) on the lines before it.
pub open spec fn annotated(a: Seq<Seq<char>>, content: Seq<char>) -> Seq<char> {
    if a.len() == 0 {
        content
    } else {
        annotation_lines(a) + seq!['\n'] + content
    }
}

/// Prepends the pending annotations to a captured block.
fn annotate_block(block: &mut KotlinBlock, pending: &Vec<String>)
    ensures
        final(block).content@ == annotated(
            pending@.map_values(|x: String| x@),
            old(block).content@,
        ),
        final(block).position == old(block).position,
        final(block).block_type == old(block).block_type,
{
    let ghost a = pending@.map_values(|x: String| x@);
    if pending.len() == 0 {
        return;
    }
    let mut text = String::new();
    let mut i: usize = 0;
    while i < pending.len()
        invariant
            0 < pending@.len(),
            a == pending@.map_values(|x: String| x@),
            i <= pending@.len(),
            text@ == annotation_lines(a.subrange(0, i as int)),
        decreases pending.len() - i,
    {
        if i > 0 {
            push_char(&mut text, '\n');
        }
        push_char(&mut text, '@');
        push_string(&mut text, &pending[i]);
        i = i + 1;
        proof {
            let b = a.subrange(0, i as int);
            assert(b.drop_last() =~= a.subrange(0, i - 1));
            assert(b.last() == pending@[i - 1]@);
            if i == 1 {
                assert(text@ =~= seq!['@'] + b[0]);
            } else {
                assert(text@ =~= annotation_lines(b.drop_last()) + seq!['\n', '@'] + b.last());
            }
        }
    }
    proof {
        assert(a.subrange(0, a.len() as int) =~= a);
    }
    push_char(&mut text, '\n');
    push_string(&mut text, &block.content);
    block.content = text;
}

impl Parser {
    /// After the markup: the helper function with a markup body at the
    /// current index (`Some`), or `None` with the index where pass-through
    /// Kotlin is to be read instead.
    #[verifier::spinoff_prover]
    #[verifier::rlimit(60)]
    fn parse_markup_function(&mut self) -> (r: Result<Option<FunctionDeclaration>, String>)
        requires
            old(self).wf(),
        ensures
            final(self).wf(),
            final(self).input == old(self).input,
            match markup_fn_at(old(self).input@, old(self).pos as int) {
                Some(Ok((f, e))) => r matches Ok(Some(fd)) && fn_text(fd) == f && final(self).pos
                    == e,
                Some(Err(k)) => r matches Ok(None) && final(self).pos == k,
                None => true,
            },
            r matches Ok(Some(_)) ==> old(self).pos < final(self).pos,
            old(self).pos <= final(self).pos,
    {
        let ghost s = self.input@;
        let ghost q0 = self.pos as int;
        proof {
            reveal(markup_fn_at);
            reveal_strlit("suspend");
            reveal_strlit("suspend fun ");
            reveal_strlit("fun");
            reveal_strlit("fun ");
            if occurs_at(s, q0, "suspend fun "@) {
                assert forall|k: int| 0 <= k < 7 implies #[trigger] s.subrange(q0, q0 + 7)[k]
                    == "suspend"@[k] by {
                    assert(s.subrange(q0, q0 + 12)[k] == s[q0 + k]);
                }
                assert(s.subrange(q0, q0 + 7) =~= "suspend"@);
                assert(s.subrange(q0, q0 + 12)[7] == s[q0 + 7]);
            }
            if occurs_at(s, q0, "fun "@) {
                assert forall|k: int| 0 <= k < 3 implies #[trigger] s.subrange(q0, q0 + 3)[k]
                    == "fun"@[k] by {
                    assert(s.subrange(q0, q0 + 4)[k] == s[q0 + k]);
                }
                assert(s.subrange(q0, q0 + 3) =~= "fun"@);
                assert(s.subrange(q0, q0 + 4)[3] == s[q0 + 3]);
            }
        }
        if self.starts_with("fun ") || self.starts_with("suspend fun ") {
            let is_suspend = if self.starts_with("suspend fun ") {
                self.consume_word("suspend");
                self.skip_whitespace();
                true
            } else {
                false
            };
            let func_start_pos = self.pos;
            if self.consume_word("fun") {
                self.skip_whitespace();
                let ghost n0 = self.pos as int;
                proof {
                    lemma_ident_end(s, n0);
                }
                let name = self.parse_identifier()?;
                let ghost n1 = self.pos as int;
                self.skip_whitespace();
                let ghost o = self.pos as int;
                self.expect_char('(')?;
                let param_start = self.pos;
                proof {
                    if markup_fn_at(s, q0) is Some {
                        assert(paren_close(s, o + 1, 1) is Some);
                    }
                }
                let mut paren_depth: usize = 1;
                while paren_depth > 0
                    invariant
                        self.wf(),
                        self.input == old(self).input,
                        s == self.input@,
                        param_start <= self.pos,
                        paren_depth <= self.pos - param_start + 1,
                        paren_depth == 0 ==> self.pos > param_start,
                        paren_depth > 0 ==> paren_close(s, self.pos as int, paren_depth as int)
                            == paren_close(s, param_start as int, 1),
                        q0 == old(self).pos,
                        q0 <= param_start,
                        markup_fn_at(s, q0) is Some ==> paren_close(s, param_start as int, 1)
                            is Some,
                        paren_depth == 0 ==> paren_close(s, param_start as int, 1) == Some(
                            self.pos - 1,
                        ),
                    decreases s.len() - self.pos,
                {
                    match self.peek_char() {
                        Some(c) => {
                            if c == '(' {
                                paren_depth = paren_depth + 1;
                            } else if c == ')' {
                                paren_depth = paren_depth - 1;
                            }
                        },
                        None => {
                            return Err(lit("Unexpected EOF in function params"));
                        },
                    }
                    self.pos = self.pos + 1;
                }
                let params = string_from_range(
                    self.input.as_slice(),
                    param_start,
                    self.pos - 1,
                );
                self.skip_whitespace();
                let return_type = if self.peek_char() == Some(':') {
                    self.pos = self.pos + 1;
                    self.skip_whitespace();
                    Some(self.parse_type()?)
                } else {
                    None
                };
                self.skip_whitespace();
                if self.peek_char() == Some('{') {
                    self.pos = self.pos + 1;
                    self.skip_whitespace();
                    if self.peek_char() == Some('<') {
                        let markup = self.parse_markup()?;
                        self.skip_whitespace();
                        self.expect_char('}')?;
                        return Ok(
                            Some(
                                FunctionDeclaration {
                                    name,
                                    params,
                                    return_type,
                                    body: String::new(),
                                    is_suspend,
                                    markup: Some(markup),
                                },
                            ),
                        );

                    } else {
                        self.pos = func_start_pos;
                    }
                } else {
                    self.pos = func_start_pos;
                }
            } else {
                self.pos = func_start_pos;
            }
        }
        Ok(None)
    }

    /// Parses a whole Whitehall file: declarations (imports, props, state,
    /// functions, lifecycle hooks, store classes, pass-through Kotlin), the
    /// markup, then helper functions with markup and pass-through Kotlin that
    /// follow it.
    #[verifier::spinoff_prover]
    #[verifier::rlimit(100)]
    pub fn parse(&mut self) -> (r: Result<WhitehallFile, String>)
        requires
            old(self).wf(),
        ensures
            final(self).wf(),
            final(self).text() == old(self).text(),
            old(self).at() <= final(self).at(),
            parse_outcome(old(self).text(), old(self).at(), r),
    {
        let ghost s = self.input@;
        let ghost p = self.pos as int;
        let ghost pf = plain_file(s, p) is Some;
        let ghost ft = leading_typo(s, p) is Some;
        let ghost q = skip_trivia(s, p);
        let ghost df = decl_file(s, p) is Some;
        let ghost sp = header_prefix(s, p, false);
        proof {
            lemma_skip_trivia(s, p);
            if pf {
                assert(char_at(s, q) == Some('<'));
                lemma_no_word_at_lt(s, q);
            }
        }
        let mut imports: Vec<Import> = Vec::new();
        let mut props: Vec<PropDeclaration> = Vec::new();
        let mut state: Vec<StateDeclaration> = Vec::new();
        let mut functions: Vec<FunctionDeclaration> = Vec::new();
        let mut lifecycle_hooks: Vec<LifecycleHook> = Vec::new();
        let mut classes: Vec<ClassDeclaration> = Vec::new();
        let mut kotlin_blocks: Vec<KotlinBlock> = Vec::new();
        let mut pending_annotations: Vec<String> = Vec::new();
        let mut parsed_store_class = false;
        proof {
            assert(header_of(imports@, state@, functions@, lifecycle_hooks@, kotlin_blocks@, classes@, props@)
                == empty_header()) by {
                assert(imports_view(imports@) =~= Seq::<Seq<char>>::empty());
                assert(states_view(state@) =~= Seq::<StateText>::empty());
                assert(fns_view(functions@) =~= Seq::<FnText>::empty());
                assert(hooks_view(lifecycle_hooks@) =~= Seq::<HookText>::empty());
                assert(blocks_view(kotlin_blocks@) =~= Seq::<BlockText>::empty());
                assert(classes_view(classes@) =~= Seq::<ClassText>::empty());
                assert(prop_decls_view(props@) =~= Seq::<PropDeclText>::empty());
            }
            if let Some((h, dq)) = sp {
                assert(header_plus(empty_header(), h) == h) by {
                    assert(Seq::<Seq<char>>::empty() + h.0 =~= h.0);
                    assert(Seq::<StateText>::empty() + h.1 =~= h.1);
                    assert(Seq::<FnText>::empty() + h.2 =~= h.2);
                    assert(Seq::<HookText>::empty() + h.3 =~= h.3);
                    assert(Seq::<BlockText>::empty() + h.4 =~= h.4);
                    assert(Seq::<ClassText>::empty() + h.5 =~= h.5);
                    assert(Seq::<PropDeclText>::empty() + h.6 =~= h.6);
                }
            }
        }
        loop
            invariant_except_break
                self.wf(),
                self.input == old(self).input,
                s == self.input@,
                old(self).pos <= self.pos,
                p == old(self).pos,
                q == skip_trivia(s, p),
                pf == (plain_file(s, p) is Some),
                pf ==> char_at(s, q) == Some('<') && peek_word_at(s, q) is None && !kotlin_syntax_at(
                    s,
                    q,
                    false,
                ) && !word_at(s, q, "import"@) && !word_at(s, q, "fun"@) && !word_at(
                    s,
                    q,
                    "$onMount"@,
                ) && !word_at(s, q, "$onDispose"@) && script_tag(s, q) is None,
                pf ==> self.pos == p && imports@.len() == 0 && props@.len() == 0 && state@.len()
                    == 0 && functions@.len() == 0 && lifecycle_hooks@.len() == 0 && classes@.len()
                    == 0 && kotlin_blocks@.len() == 0 && !parsed_store_class,
                ft == (leading_typo(s, p) is Some),
                ft ==> self.pos == p && !parsed_store_class,
                df == (decl_file(s, p) is Some),
                sp == header_prefix(s, p, false),
                df ==> sp is Some && sp == after_header(
                    header_of(imports@, state@, functions@, lifecycle_hooks@, kotlin_blocks@, classes@, props@),
                    header_prefix(s, self.pos as int, parsed_store_class),
                ) && pending_annotations@.len() == 0,
            ensures
                self.wf(),
                self.input == old(self).input,
                old(self).pos <= self.pos,
                pf ==> self.pos == q && imports@.len() == 0 && props@.len() == 0 && state@.len()
                    == 0 && functions@.len() == 0 && lifecycle_hooks@.len() == 0 && classes@.len()
                    == 0 && kotlin_blocks@.len() == 0,
                !ft,
                ft == (leading_typo(s, p) is Some),
                df == (decl_file(s, p) is Some),
                sp == header_prefix(s, p, false),
                df ==> (sp matches Some((h, dq)) && header_of(
                    imports@,
                    state@,
                    functions@,
                    lifecycle_hooks@,
                    kotlin_blocks@,
                    classes@,
                    props@,
                ) == h && self.pos == dq && (char_at(s, dq) == Some('<') || dq == s.len())
                    && pending_annotations@.len() == 0),
            decreases s.len() - self.pos,
        {
            let iter_start = self.pos;
            proof {
                reveal_strlit("import");
                reveal_strlit("suspend");
                reveal_strlit("fun");
                reveal_strlit("$onMount");
                reveal_strlit("$onDispose");
            }
            let ghost i0 = self.pos as int;
            let ghost ps0 = parsed_store_class;
            let ghost cl0 = classes@;
            let ghost pp0 = props@;
            self.skip_whitespace();
            let ghost qi = self.pos as int;
            let ghost h0 = header_of(imports@, state@, functions@, lifecycle_hooks@, kotlin_blocks@, classes@, props@);
            let ghost im0 = imports@;
            let ghost st0 = state@;
            let ghost fn0 = functions@;
            let ghost hk0 = lifecycle_hooks@;
            let ghost kb0 = kotlin_blocks@;
            proof {
                reveal_strlit("var");
                reveal_strlit("val");
                reveal_strlit("class");
                reveal_strlit("object");
                reveal_strlit("onMount");
                reveal_strlit("onDispose");
                if df {
                    assert(header_prefix(s, i0, ps0) is Some);
                    if char_at(s, qi) == Some('<') {
                        lemma_no_word_at_lt(s, qi);
                    } else if qi == s.len() {
                        lemma_no_word_at_end(s);
                    } else {
                        assert(header_item(s, qi, ps0) is Some);
                    }
                }
            }
            if self.peek_char() == Some('@') {
                self.pos = self.pos + 1;
                proof {
                    lemma_ident_end(s, qi + 1);
                }
                let annotation = self.parse_identifier()?;
                let copy = lit(annotation.as_str());
                pending_annotations.push(copy);
                self.skip_whitespace();
                if self.peek_word_is("class") || self.peek_word_is("object") {
                    let anns = copy_strings(&pending_annotations);
                    let c = self.parse_class_declaration(anns)?;
                    classes.push(c);
                    parsed_store_class = true;
                    pending_annotations = Vec::new();
                    proof {
                        if df {
                            let (h, e, a2) = header_item(s, qi, ps0).unwrap();
                            assert(c.annotations@.map_values(|x: String| x@) =~= h.5[0].0);
                            assert(classes@.drop_last() =~= cl0);
                            assert(classes_view(classes@) =~= h0.5 + h.5);
                            assert(header_of(
                                imports@,
                                state@,
                                functions@,
                                lifecycle_hooks@,
                                kotlin_blocks@,
                                classes@,
                                props@,
                            ) == header_plus(h0, h));
                            lemma_after_header(
                                h0,
                                h,
                                header_prefix(s, self.pos as int, parsed_store_class),
                            );
                        }
                    }
                } else if str_eq(annotation.as_str(), "prop") {
                    pending_annotations = Vec::new();
                    let d = self.parse_prop_declaration()?;
                    props.push(d);
                    proof {
                        reveal_strlit("prop");
                        if df {
                            let (h, e, a2) = header_item(s, qi, ps0).unwrap();
                            assert(props@.drop_last() =~= pp0);
                            assert(prop_decls_view(props@) =~= h0.6 + h.6);
                            assert(header_of(
                                imports@,
                                state@,
                                functions@,
                                lifecycle_hooks@,
                                kotlin_blocks@,
                                classes@,
                                props@,
                            ) == header_plus(h0, h));
                            lemma_after_header(
                                h0,
                                h,
                                header_prefix(s, self.pos as int, parsed_store_class),
                            );
                        }
                    }
                }
            } else if !parsed_store_class && (self.peek_word_is("class") || self.peek_word_is(
                "object",
            )) {
                let c = self.parse_class_declaration(Vec::new())?;
                classes.push(c);
                parsed_store_class = true;
                proof {
                    if df {
                        let (h, e, a2) = header_item(s, qi, ps0).unwrap();
                        assert(c.annotations@.map_values(|x: String| x@) =~= h.5[0].0);
                        assert(classes@.drop_last() =~= cl0);
                        assert(classes_view(classes@) =~= h0.5 + h.5);
                        assert(header_of(
                            imports@,
                            state@,
                            functions@,
                            lifecycle_hooks@,
                            kotlin_blocks@,
                            classes@,
                            props@,
                        ) == header_plus(h0, h));
                        lemma_after_header(h0, h, header_prefix(s, self.pos as int, parsed_store_class));
                    }
                }
            } else if self.consume_word("import") {
                let imp = self.parse_import()?;
                imports.push(imp);
                proof {
                    if df {
                        let (h, e, a2) = header_item(s, qi, ps0).unwrap();
                        assert(imports@.drop_last() =~= im0);
                        assert(imports_view(imports@) =~= h0.0 + h.0);
                        assert(header_of(imports@, state@, functions@, lifecycle_hooks@, kotlin_blocks@, classes@, props@)
                            == header_plus(h0, h));
                        lemma_after_header(h0, h, header_prefix(s, self.pos as int, parsed_store_class));
                    }
                }
            } else if self.is_kotlin_syntax(parsed_store_class) {
                let mut block = self.capture_kotlin_block()?;
                annotate_block(&mut block, &pending_annotations);
                pending_annotations = Vec::new();
                kotlin_blocks.push(block);
                proof {
                    if df {
                        let (h, e, a2) = header_item(s, qi, ps0).unwrap();
                        assert(kotlin_blocks@.drop_last() =~= kb0);
                        assert(blocks_view(kotlin_blocks@) =~= h0.4 + h.4);
                        assert(header_of(imports@, state@, functions@, lifecycle_hooks@, kotlin_blocks@, classes@, props@)
                            == header_plus(h0, h));
                        lemma_after_header(h0, h, header_prefix(s, self.pos as int, parsed_store_class));
                    }
                }
            } else if self.peek_word_is("var") || self.peek_word_is("val") {
                proof {
                    if df {
                        assert(state_head(s, qi) is Ok);
                        if let Ok((mutable, name, ta, v)) = state_head(s, qi) {
                            assert(value_text(s, v) is Some);
                        }
                    }
                }
                let d = self.parse_state_declaration()?;
                state.push(d);
                proof {
                    if df {
                        assert(state_head(s, qi) is Ok);
                    }
                    if let (true, Ok((mutable, name, ta, v))) = (df, state_head(s, qi)) {
                        let t = value_text(s, v).unwrap();
                        assert(state@.drop_last() =~= st0);
                        assert(states_view(state@) =~= states_view(st0).push(state_view(d)));
                        let dv = (
                            name,
                            mutable && !derived_value(t).2,
                            ta,
                            derived_value(t).0,
                            derived_value(t).1,
                        );
                        assert(state_view(d) == dv);
                        let (h, e, a2) = header_item(s, qi, ps0).unwrap();
                        assert(states_view(state@) =~= h0.1 + h.1);
                        assert(header_of(imports@, state@, functions@, lifecycle_hooks@, kotlin_blocks@, classes@, props@)
                            == header_plus(h0, h));
                        lemma_after_header(h0, h, header_prefix(s, self.pos as int, parsed_store_class));
                    }
                }
            } else if !parsed_store_class && self.peek_word_is("suspend") {
                self.consume_word("suspend");
                self.skip_whitespace();
                if !self.consume_word("fun") {
                    return Err(self.error_at_pos("Expected 'fun' after 'suspend'"));
                }
                let fd = self.parse_function_declaration(true)?;
                functions.push(fd);
                proof {
                    if df {
                        let (h, e, a2) = header_item(s, qi, ps0).unwrap();
                        assert(functions@.drop_last() =~= fn0);
                        assert(fns_view(functions@) =~= h0.2 + h.2);
                        assert(header_of(imports@, state@, functions@, lifecycle_hooks@, kotlin_blocks@, classes@, props@)
                            == header_plus(h0, h));
                        lemma_after_header(h0, h, header_prefix(s, self.pos as int, parsed_store_class));
                    }
                }
            } else if !parsed_store_class && self.consume_word("fun") {
                let fd = self.parse_function_declaration(false)?;
                functions.push(fd);
                proof {
                    if df {
                        let (h, e, a2) = header_item(s, qi, ps0).unwrap();
                        assert(functions@.drop_last() =~= fn0);
                        assert(fns_view(functions@) =~= h0.2 + h.2);
                        assert(header_of(imports@, state@, functions@, lifecycle_hooks@, kotlin_blocks@, classes@, props@)
                            == header_plus(h0, h));
                        lemma_after_header(h0, h, header_prefix(s, self.pos as int, parsed_store_class));
                    }
                }
            } else if self.consume_word("$onMount") {
                let hk = self.parse_lifecycle_hook("onMount")?;
                lifecycle_hooks.push(hk);
                proof {
                    if df {
                        let (h, e, a2) = header_item(s, qi, ps0).unwrap();
                        assert(lifecycle_hooks@.drop_last() =~= hk0);
                        assert(hooks_view(lifecycle_hooks@) =~= h0.3 + h.3);
                        assert(header_of(imports@, state@, functions@, lifecycle_hooks@, kotlin_blocks@, classes@, props@)
                            == header_plus(h0, h));
                        lemma_after_header(h0, h, header_prefix(s, self.pos as int, parsed_store_class));
                    }
                }
            } else if self.consume_word("$onDispose") {
                let hk = self.parse_lifecycle_hook("onDispose")?;
                lifecycle_hooks.push(hk);
                proof {
                    if df {
                        let (h, e, a2) = header_item(s, qi, ps0).unwrap();
                        assert(lifecycle_hooks@.drop_last() =~= hk0);
                        assert(hooks_view(lifecycle_hooks@) =~= h0.3 + h.3);
                        assert(header_of(imports@, state@, functions@, lifecycle_hooks@, kotlin_blocks@, classes@, props@)
                            == header_plus(h0, h));
                        lemma_after_header(h0, h, header_prefix(s, self.pos as int, parsed_store_class));
                    }
                }
            } else if self.peek_char() == Some('<') {
                let mut script_imports = self.try_parse_script_tag()?;
                if script_imports.len() > 0 {
                    imports.append(&mut script_imports);
                } else {
                    proof {
                        if df {
                            assert(header_plus(h0, empty_header()) == h0) by {
                                assert(h0.0 + Seq::<Seq<char>>::empty() =~= h0.0);
                                assert(h0.1 + Seq::<StateText>::empty() =~= h0.1);
                                assert(h0.2 + Seq::<FnText>::empty() =~= h0.2);
                                assert(h0.3 + Seq::<HookText>::empty() =~= h0.3);
                                assert(h0.4 + Seq::<BlockText>::empty() =~= h0.4);
                                assert(h0.5 + Seq::<ClassText>::empty() =~= h0.5);
                                assert(h0.6 + Seq::<PropDeclText>::empty() =~= h0.6);
                            }
                        }
                    }
                    break;
                }
            } else {
                if let Some(error) = self.check_for_typos() {
                    return Err(error);
                }
                proof {
                    if df {
                        assert(qi == s.len());
                        assert(header_plus(h0, empty_header()) == h0) by {
                            assert(h0.0 + Seq::<Seq<char>>::empty() =~= h0.0);
                            assert(h0.1 + Seq::<StateText>::empty() =~= h0.1);
                            assert(h0.2 + Seq::<FnText>::empty() =~= h0.2);
                            assert(h0.3 + Seq::<HookText>::empty() =~= h0.3);
                            assert(h0.4 + Seq::<BlockText>::empty() =~= h0.4);
                            assert(h0.5 + Seq::<ClassText>::empty() =~= h0.5);
                                assert(h0.6 + Seq::<PropDeclText>::empty() =~= h0.6);
                        }
                    }
                }
                break;
            }
            assert(self.pos > iter_start);
        }
        proof {
            if df && self.pos < s.len() {
                lemma_no_word_at_lt(s, self.pos as int);
            }
        }
        self.skip_whitespace();
        proof {
            if pf || df {
                assert(crate::text::skip_ws_from(s, s.len() as int, s.len() as int) == s.len());
                assert(skip_trivia(s, s.len() as int) == s.len());
            }
            if pf {
                assert(self.pos == q);
            }
        }
        let ghost fns_h = functions@;
        let ghost kbs_h = kotlin_blocks@;
        let markup = if classes.len() > 0 && self.peek_char().is_none() {
            Markup::Text(String::new())
        } else if self.peek_char().is_some() {
            self.parse_markup()?
        } else {
            Markup::Text(String::new())
        };
        let ghost e0 = self.pos as int;
        let ghost f_h = fns_view(functions@);
        let ghost b_h = blocks_view(kotlin_blocks@);
        let ghost tt = after_trail(f_h, b_h, trailer_at(s, e0));
        proof {
            if df {
                assert(skip_trivia(s, s.len() as int) == s.len());
                assert(trailer_at(s, e0) is Some);
                let (fs, bs) = trailer_at(s, e0).unwrap();
                assert(f_h + Seq::<FnText>::empty() =~= f_h);
                assert(b_h + Seq::<BlockText>::empty() =~= b_h);
            }
        }
        loop
            invariant_except_break
                self.wf(),
                self.input == old(self).input,
                s == self.input@,
                old(self).pos <= self.pos,
                pf ==> self.pos == s.len() && functions@.len() == 0 && kotlin_blocks@.len() == 0
                    && skip_trivia(s, s.len() as int) == s.len(),
                df ==> tt is Some && tt == after_trail(
                    fns_view(functions@),
                    blocks_view(kotlin_blocks@),
                    trailer_at(s, self.pos as int),
                ) && pending_annotations@.len() == 0,
                tt == after_trail(f_h, b_h, trailer_at(s, e0)),
                df == (decl_file(s, p) is Some),
                p == old(self).pos,
                pf == (plain_file(s, p) is Some),
                !ft,
                ft == (leading_typo(s, p) is Some),
            ensures
                self.wf(),
                self.input == old(self).input,
                old(self).pos <= self.pos,
                pf ==> functions@.len() == 0 && kotlin_blocks@.len() == 0,
                df ==> tt == Some((fns_view(functions@), blocks_view(kotlin_blocks@))),
            decreases s.len() - self.pos,
        {
            let iter_start = self.pos;
            let ghost fv0 = functions@;
            let ghost kv0 = kotlin_blocks@;
            self.skip_whitespace();
            let ghost qi = self.pos as int;
            proof {
                reveal_strlit("fun ");
                reveal_strlit("suspend fun ");
                if df {
                    assert(trailer_at(s, iter_start as int) is Some);
                }
            }
            if self.peek_char().is_none() {
                proof {
                    if df {
                        assert(fns_view(fv0) + Seq::<FnText>::empty() =~= fns_view(fv0));
                        assert(blocks_view(kv0) + Seq::<BlockText>::empty() =~= blocks_view(kv0));
                    }
                }
                break;
            }
            if self.peek_char() == Some('@') {
                self.pos = self.pos + 1;
                let annotation = self.parse_identifier()?;
                pending_annotations.push(annotation);
                assert(self.pos > iter_start);
                continue;
            }
            match self.parse_markup_function()? {
                Some(fd) => {
                    let ghost fx = fn_text(fd);
                    functions.push(fd);
                    proof {
                        if df {
                            assert(functions@.drop_last() =~= fv0);
                            assert(fns_view(functions@) =~= fns_view(fv0).push(fx));
                            if let Some((a1, b1)) = trailer_at(s, self.pos as int) {
                                assert(fns_view(fv0) + (seq![fx] + a1) =~= fns_view(functions@)
                                    + a1);
                                assert(blocks_view(kv0) + (Seq::<BlockText>::empty() + b1)
                                    =~= blocks_view(kotlin_blocks@) + b1);
                            }
                        }
                    }
                    assert(self.pos > iter_start);
                    continue;
                },
                None => {},
            }
            let ghost k = self.pos as int;
            if self.is_kotlin_syntax(true) {
                let mut block = self.capture_kotlin_block()?;
                annotate_block(&mut block, &pending_annotations);
                pending_annotations = Vec::new();
                kotlin_blocks.push(block);
                proof {
                    if df {
                        let bx = blocks_view(kotlin_blocks@).last();
                        assert(kotlin_blocks@.drop_last() =~= kv0);
                        assert(blocks_view(kotlin_blocks@) =~= blocks_view(kv0).push(bx));
                        if let Some((a1, b1)) = trailer_at(s, self.pos as int) {
                            assert(fns_view(fv0) + (Seq::<FnText>::empty() + a1) =~= fns_view(
                                functions@,
                            ) + a1);
                            assert(blocks_view(kv0) + (seq![bx] + b1) =~= blocks_view(
                                kotlin_blocks@,
                            ) + b1);
                        }
                    }
                }
            } else {
                proof {
                    if df {
                        assert(fns_view(fv0) + Seq::<FnText>::empty() =~= fns_view(fv0));
                        assert(blocks_view(kv0) + Seq::<BlockText>::empty() =~= blocks_view(kv0));
                    }
                }
                break;
            }
            assert(self.pos > iter_start);
        }
        proof {
            if df {
                let (hd, dq) = sp.unwrap();
                let (fs, bs) = trailer_at(s, e0).unwrap();
                assert(fns_view(functions@) =~= hd.2 + fs);
                assert(blocks_view(kotlin_blocks@) =~= hd.4 + bs);
            }
        }
        Ok(
            WhitehallFile {
                imports,
                props,
                state,
                functions,
                lifecycle_hooks,
                classes,
                markup,
                kotlin_blocks,
            },
        )
    }
}


impl Parser {
    /// Reads text and `{expression}` interpolations up to `delimiter` (or the
    /// end); `{{` and `}}` stand for `{` and `}`.
    fn parse_text_with_interpolation_until(&mut self, delimiter: char) -> (r: Result<
        Vec<Markup>,
        String,
    >)
        requires
            old(self).wf(),
        ensures
            moved(*old(self), *final(self)),
            r matches Ok(v) ==> (char_at(final(self).input@, final(self).pos as int) is None
                || char_at(final(self).input@, final(self).pos as int) == Some(delimiter)) && (
            v@.len() == 0 <==> final(self).pos == old(self).pos),
            scanned(
                r,
                delimited_text_scan(old(self).input@, old(self).pos as int, delimiter, Seq::empty()),
                final(self).pos as int,
            ),
    {
        let ghost s = self.input@;
        let start = self.pos;
        let mut children: Vec<Markup> = Vec::new();
        let mut current_text = String::new();
        proof {
            assert(pieces(children@) =~= Seq::<(bool, Seq<char>)>::empty());
        }
        loop
            invariant_except_break
                self.wf(),
                self.input == old(self).input,
                s == self.input@,
                start == old(self).pos,
                start <= self.pos,
                (children@.len() == 0 && current_text@.len() == 0) <==> self.pos == start,
                delimited_text_scan(s, start as int, delimiter, Seq::empty()) == after_pieces(
                    pieces(children@),
                    delimited_text_scan(s, self.pos as int, delimiter, current_text@),
                ),
            ensures
                self.wf(),
                self.input == old(self).input,
                start <= self.pos,
                (children@.len() == 0 && current_text@.len() == 0) <==> self.pos == start,
                char_at(s, self.pos as int) is None || char_at(s, self.pos as int) == Some(
                    delimiter,
                ),
                delimited_text_scan(s, start as int, delimiter, Seq::empty()) == after_pieces(
                    pieces(children@),
                    Some((flushed(current_text@), self.pos as int)),
                ),
            decreases s.len() - self.pos,
        {
            let ch = match self.peek_char() {
                Some(c) => c,
                None => break,
            };
            let ghost i = self.pos as int;
            let ghost cur0 = current_text@;
            if ch == delimiter {
                break;
            } else if ch == '{' {
                if self.peek_ahead(1) == Some('{') {
                    proof {
                        assert(delimited_text_scan(s, i, delimiter, cur0) == delimited_text_scan(
                            s,
                            i + 2,
                            delimiter,
                            cur0.push('{'),
                        ));
                    }
                    push_char(&mut current_text, '{');
                    self.pos = self.pos + 2;
                } else {
                    let ghost ch0 = pieces(children@);
                    proof {
                        lemma_until_char_end(s, i + 1, '}', 0, 0, 0);
                    }
                    if current_text.as_str().unicode_len() > 0 {
                        let t = lit(current_text.as_str());
                        children.push(Markup::Text(t));
                        current_text = String::new();
                    }
                    proof {
                        assert(pieces(children@) =~= ch0 + flushed(cur0));
                    }
                    self.pos = self.pos + 1;
                    let expr = self.parse_until_char('}')?;
                    match self.expect_char('}') {
                        Ok(_) => {},
                        Err(err) => {
                            proof {
                                assert(delimited_text_scan(s, i, delimiter, cur0) is None);
                            }
                            return Err(err);
                        },
                    }
                    let ghost ch1 = pieces(children@);
                    children.push(Markup::Interpolation(expr));
                    proof {
                        let e = until_char_end(s, i + 1, '}', 0, 0, 0);
                        assert(pieces(children@) =~= ch1 + seq![(true, s.subrange(i + 1, e))]);
                        lemma_after_pieces(
                            ch0,
                            flushed(cur0) + seq![(true, s.subrange(i + 1, e))],
                            delimited_text_scan(s, e + 1, delimiter, Seq::empty()),
                        );
                        assert(ch0 + (flushed(cur0) + seq![(true, s.subrange(i + 1, e))]) =~= pieces(
                            children@,
                        ));
                        assert(current_text@ =~= Seq::<char>::empty());
                        assert(delimited_text_scan(s, i, delimiter, cur0) == after_pieces(
                            flushed(cur0) + seq![(true, s.subrange(i + 1, e))],
                            delimited_text_scan(s, e + 1, delimiter, Seq::empty()),
                        ));
                    }
                }
            } else if ch == '}' && self.peek_ahead(1) == Some('}') {
                proof {
                    assert(delimited_text_scan(s, i, delimiter, cur0) == delimited_text_scan(
                        s,
                        i + 2,
                        delimiter,
                        cur0.push('}'),
                    ));
                }
                push_char(&mut current_text, '}');
                self.pos = self.pos + 2;
            } else {
                proof {
                    assert(delimited_text_scan(s, i, delimiter, cur0) == delimited_text_scan(
                        s,
                        i + 1,
                        delimiter,
                        cur0.push(ch),
                    ));
                }
                push_char(&mut current_text, ch);
                self.pos = self.pos + 1;
            }
        }
        let ghost chf = pieces(children@);
        let ghost curf = current_text@;
        if current_text.as_str().unicode_len() > 0 {
            children.push(Markup::Text(current_text));
        }
        proof {
            assert(pieces(children@) =~= chf + flushed(curf));
        }
        Ok(children)
    }
}

/// What parsing `s` from `p` gives, as far as the grammars fix it: a file
/// holds a component (or nothing); a lone component in the plain grammar
/// gives its markup and nothing else; a misspelled leading keyword gives
/// its error; a file in the declaration grammar gives its declarations and
/// markup.
pub open spec fn parse_outcome(s: Seq<char>, p: int, r: Result<WhitehallFile, String>) -> bool {
    &&& r matches Ok(f) ==> (f.markup is Component || (f.markup matches Markup::Text(t) && t@.len()
        == 0))
    &&& match plain_file(s, p) {
        Some(v) => match r {
            Ok(f) => plain_view(f.markup) == Some(v) && f.imports@.len() == 0 && f.props@.len() == 0
                && f.state@.len() == 0 && f.functions@.len() == 0 && f.lifecycle_hooks@.len() == 0
                && f.classes@.len() == 0 && f.kotlin_blocks@.len() == 0,
            Err(_) => false,
        },
        None => true,
    }
    &&& match leading_typo(s, p) {
        Some(m) => r matches Err(e) && e@ == m,
        None => true,
    }
    &&& decl_file(s, p) matches Some((h, v)) ==> (r matches Ok(f) && header_of(
        f.imports@,
        f.state@,
        f.functions@,
        f.lifecycle_hooks@,
        f.kotlin_blocks@,
        f.classes@,
        f.props@,
    ) == h && markup_view(f.markup) == v)
}

/// Surrounding white space never changes what parsing gives: a parser is
/// made from the trimmed source, trimming twice is trimming once, so a
/// source and its trimmed form start the parser on the same text, and every
/// outcome the grammars fix for one they fix for the other.
pub proof fn law_parse_ignores_surrounding_space(s: Seq<char>, r: Result<WhitehallFile, String>)
    ensures
        spec_trim(spec_trim(s)) == spec_trim(s),
        parse_outcome(spec_trim(spec_trim(s)), 0, r) == parse_outcome(spec_trim(s), 0, r),
{
    crate::text::lemma_trim_idempotent(s);
}

/// Parses `input` for its declarations (used to build the registry of stores
/// across a project).
pub fn parse_for_stores(input: &str) -> (r: Result<WhitehallFile, String>)
    requires
        input@.len() < usize::MAX,
    ensures
        parse_outcome(spec_trim(input@), 0, r),
{
    let mut parser = Parser::new(input);
    parser.parse()
}

} // verus!
