//! Reading a Runfile into statements.
//!
//! A Runfile is read line by line after continuation lines are joined. Blank lines and
//! lines starting with `#` are skipped (annotation comments are read back when a
//! definition follows them). A line is then one of:
//! - a definition: `[function] name(params) body` (with `function`, the parentheses are
//!   optional), where the body is the rest of the line or a `{ ... }` block that may span
//!   lines;
//! - a call: `name(args)` with nothing after it;
//! - an assignment: `name=value`, the value one word or one double-quoted string;
//! - otherwise a command, which may not start with `,` nor leave a `"` unclosed.
use vstd::prelude::*;
use crate::ast::{
    AttrView, Attribute, Expression, ParamView, Parameter, Program, Statement, StatementView, attrs_view, opt_view,
    params_view, statement_view, statements_view,
};
use crate::parser::attributes::{attributes_before, parse_attributes_from_lines};
use crate::parser::block::{
    block_commands, block_content, brace_close, find_block_close, has_shell_attr, parse_block_content,
    span_text, split_block_commands,
};
use crate::parser::items::{call_args, param_list, parse_call_args, parse_param_list};
use crate::parser::lexical::{
    command_words, find_unclosed_quote, normalized_command, open_quote_from, parse_command, parse_shebang, preprocess_escaped_newlines, words_from,
    preprocessed, shebang_in, unclosed_quote,
};
use crate::text::{
    copy_range, from_chars, is_whitespace, is_ws, join, join_chars, lines, lines_of, ltrim, ltrim_index, push_all,
    push_str, rtrim, rtrim_chars, starts_with, starts_with_exec, string_views, to_chars, trim, trim_chars, views,
    decimal, u128_to_chars,
};

pub mod attributes;
pub mod block;
pub mod items;
pub mod lexical;

verus! {

/// A letter or `_`.
pub open spec fn is_ident_start(c: char) -> bool {
    ('a' <= c && c <= 'z') || ('A' <= c && c <= 'Z') || c == '_'
}

/// A letter, digit, `_` or `:`.
pub open spec fn is_ident_char(c: char) -> bool {
    is_ident_start(c) || ('0' <= c && c <= '9') || c == ':'
}

/// The end of the run of identifier characters from `k`.
pub open spec fn ident_end(u: Seq<char>, k: int) -> int
    decreases u.len() - k,
{
    if 0 <= k < u.len() && is_ident_char(u[k]) { ident_end(u, k + 1) } else { k }
}

/// The first position at or after `k` that is not white space.
pub open spec fn skip_ws(u: Seq<char>, k: int) -> int
    decreases u.len() - k,
{
    if 0 <= k < u.len() && is_ws(u[k]) { skip_ws(u, k + 1) } else { k }
}

/// The first `)` at or after `i` outside double quotes.
pub open spec fn paren_close(u: Seq<char>, i: int, dq: bool, esc: bool) -> Option<int>
    decreases u.len() - i,
{
    if i < 0 || i >= u.len() {
        None
    } else if dq {
        if esc {
            paren_close(u, i + 1, true, false)
        } else {
            paren_close(u, i + 1, u[i] != '"', u[i] == '\\')
        }
    } else if u[i] == ')' {
        Some(i)
    } else {
        paren_close(u, i + 1, u[i] == '"', false)
    }
}

/// The line starts with the `function` keyword.
pub open spec fn has_keyword(u: Seq<char>) -> bool {
    starts_with(u, "function"@) && u.len() > 8 && is_ws(u[8])
}

/// The content of a parse error: message, 1-based line and column, and a hint.
pub struct ParseErrorView {
    pub message: Seq<char>,
    pub line: nat,
    pub col: nat,
    pub hint: Option<Seq<char>>,
}

/// The hint for a missing identifier.
pub open spec fn ident_hint() -> Seq<char> {
    "Identifiers must start with a letter or `_` and contain only letters, digits, `_`, or `:`."@
}

/// The hint for an unclosed parameter list.
pub open spec fn paren_hint() -> Seq<char> {
    "A parameter list must be closed with `)`. Check for a missing `)` or a stray character inside the list."@
}

/// The hint for a missing body.
pub open spec fn body_hint() -> Seq<char> {
    "A function needs a body: put a command on the same line, or wrap multiple commands in braces: `{ command1; command2 }`"@
}

/// The hint for an unclosed block.
pub open spec fn block_hint() -> Seq<char> {
    "A block body must be closed with `}`."@
}

/// An error at 0-based line `n` and 0-based column `idx`.
pub open spec fn error_at(n: int, idx: int, message: Seq<char>, hint: Option<Seq<char>>) -> ParseErrorView {
    ParseErrorView { message, line: (n + 1) as nat, col: (idx + 1) as nat, hint }
}

/// The value of an assignment: one word, or one double-quoted string without its quotes.
pub open spec fn assignment_value(v0: Seq<char>) -> Option<Seq<char>> {
    let v = rtrim(v0);
    if unclosed_quote(v) is None && command_words(v).len() <= 1 {
        Some(if v.len() >= 2 && v[0] == '"' && v.last() == '"' { v.subrange(1, v.len() - 1) } else { v })
    } else {
        None
    }
}

/// Some attribute names an interpreter.
pub open spec fn has_shell_view(attrs: Seq<AttrView>) -> bool {
    exists|i: int| 0 <= i < attrs.len() && attrs[i] is Shell
}

/// A definition on line `n` whose body starts at position `b` of the line without its
/// indentation `lead`: a block when the body starts with `{`, else a one-line command.
/// Its attributes are those of the comment lines above it; for an indented definition
/// the line number used is one past it (so none are found).
pub open spec fn definition_item(
    pre: Seq<char>,
    ls: Seq<Seq<char>>,
    n: int,
    lead: int,
    name: Seq<char>,
    params: Seq<ParamView>,
    b: int,
) -> Result<(StatementView, int), ParseErrorView> {
    let u = ltrim(ls[n]);
    let line_num = if lead == 0 { n } else { n + 1 };
    let attrs = attributes_before(pre, line_num as nat);
    if u[b] == '{' {
        match brace_close(ls, n, lead + b, 0, false, false, false) {
            None => Err(error_at(n, lead + b, "expected `}`"@, Some(block_hint()))),
            Some((n1, j1)) => {
                let content = block_content(span_text(ls, n, lead + b, n1, j1));
                Ok(
                    (
                        StatementView::BlockFunctionDef {
                            name,
                            params,
                            commands: block_commands(content, has_shell_view(attrs)),
                            attributes: attrs,
                            shebang: shebang_in(lines(trim(content))),
                        },
                        n1 + 1,
                    ),
                )
            },
        }
    } else {
        let body = u.skip(b);
        match unclosed_quote(body) {
            Some(q) => Err(error_at(n, lead + b + q, "expected closing `\"`"@, None)),
            None => Ok(
                (
                    StatementView::SimpleFunctionDef {
                        name,
                        params,
                        command_template: normalized_command(body),
                        attributes: attrs,
                    },
                    n + 1,
                ),
            ),
        }
    }
}

/// A character that a plain word may hold: no white space, no double quote, no backslash.
pub open spec fn plain_char(c: char) -> bool {
    !is_ws(c) && c != '"' && c != '\\'
}

proof fn lemma_words_plain_run(s: Seq<char>, i: int, k: int, cur: Seq<char>, dq: bool)
    requires
        0 <= i <= k <= s.len(),
        forall|j: int| i <= j < k ==> plain_char(#[trigger] s[j]),
    ensures
        words_from(s, i, cur, dq, false) == words_from(s, k, cur + s.subrange(i, k), dq, false),
    decreases k - i,
{
    if i < k {
        assert(plain_char(s[i]));
        lemma_words_plain_run(s, i + 1, k, cur.push(s[i]), dq);
        assert(cur.push(s[i]) + s.subrange(i + 1, k) =~= cur + s.subrange(i, k));
    } else {
        assert(cur + s.subrange(i, k) =~= cur);
    }
}

proof fn lemma_open_plain_run(s: Seq<char>, i: int, k: int, dq: bool, open: int)
    requires
        0 <= i <= k <= s.len(),
        forall|j: int| i <= j < k ==> plain_char(#[trigger] s[j]),
    ensures
        open_quote_from(s, i, dq, false, open) == open_quote_from(s, k, dq, false, open),
    decreases k - i,
{
    if i < k {
        assert(plain_char(s[i]));
        lemma_open_plain_run(s, i + 1, k, dq, open);
    }
}

proof fn lemma_words_quoted_run(s: Seq<char>, i: int, k: int, cur: Seq<char>)
    requires
        0 <= i <= k <= s.len(),
        forall|j: int| i <= j < k ==> #[trigger] s[j] != '"' && s[j] != '\\',
    ensures
        words_from(s, i, cur, true, false) == words_from(s, k, cur + s.subrange(i, k), true, false),
        open_quote_from(s, i, true, false, 0) == open_quote_from(s, k, true, false, 0),
    decreases k - i,
{
    if i < k {
        assert(s[i] != '"' && s[i] != '\\');
        lemma_words_quoted_run(s, i + 1, k, cur.push(s[i]));
        assert(cur.push(s[i]) + s.subrange(i + 1, k) =~= cur + s.subrange(i, k));
    } else {
        assert(cur + s.subrange(i, k) =~= cur);
    }
}

/// The value of a double-quoted assignment is the text between the quotes, white space
/// included, for any text without `"` or `\\`.
pub proof fn lemma_double_quoted_value(w: Seq<char>)
    requires
        forall|j: int| 0 <= j < w.len() ==> #[trigger] w[j] != '"' && w[j] != '\\',
    ensures
        assignment_value(seq!['"'] + w + seq!['"']) == Some(w),
{
    let q = seq!['"'] + w + seq!['"'];
    let n = q.len() as int;
    assert forall|j: int| 1 <= j < n - 1 implies #[trigger] q[j] != '"' && q[j] != '\\' by {
        assert(q[j] == w[j - 1]);
    }
    assert(!is_ws(q.last()));
    assert(rtrim(q) == q);
    lemma_words_quoted_run(q, 1, n - 1, seq!['"']);
    assert(open_quote_from(q, n, false, false, 0) is None);
    let inner = seq!['"'] + q.subrange(1, n - 1);
    assert(words_from(q, n, inner.push('"'), false, false) == seq![inner.push('"')]);
    assert(command_words(q).len() == 1);
    assert(q.subrange(1, n - 1) =~= w);
}

/// Quotes around an assignment's value are not part of it: for any word `w` of plain
/// characters, the value of `"w"` is `w`, the same as the value of `w`.
pub proof fn lemma_quoted_value_unquoted(w: Seq<char>)
    requires
        forall|j: int| 0 <= j < w.len() ==> plain_char(#[trigger] w[j]),
    ensures
        assignment_value(seq!['"'] + w + seq!['"']) == Some(w),
        assignment_value(w) == Some(w),
{
    let q = seq!['"'] + w + seq!['"'];
    let n = q.len() as int;
    assert forall|j: int| 1 <= j < n - 1 implies plain_char(#[trigger] q[j]) by {
        assert(q[j] == w[j - 1]);
    }
    // The quoted word: no trailing white space, no open quote, one word.
    assert(!is_ws(q.last()));
    assert(rtrim(q) == q);
    lemma_open_plain_run(q, 1, n - 1, true, 0);
    assert(open_quote_from(q, n, false, false, 0) is None);
    lemma_words_plain_run(q, 1, n - 1, seq!['"'], true);
    let inner = seq!['"'] + q.subrange(1, n - 1);
    assert(words_from(q, n, inner.push('"'), false, false) == seq![inner.push('"')]);
    assert(command_words(q).len() == 1);
    assert(q.subrange(1, n - 1) =~= w);
    // The bare word.
    if w.len() > 0 {
        assert(plain_char(w[w.len() - 1]));
        assert(rtrim(w) == w);
    } else {
        assert(rtrim(w) == w);
    }
    lemma_open_plain_run(w, 0, w.len() as int, false, 0);
    lemma_words_plain_run(w, 0, w.len() as int, Seq::empty(), false);
    assert(Seq::<char>::empty() + w.subrange(0, w.len() as int) =~= w);
    if w.len() >= 2 {
        assert(plain_char(w[0]));
    }
}

/// An assignment line `NAME="w"` and the line `NAME=w` parse to the same assignment, of
/// `w` to `NAME`, for any word `w` of plain characters.
pub proof fn lemma_quoted_assignment(n: int, lead: int, name: Seq<char>, w: Seq<char>)
    requires
        name.len() > 0,
        forall|j: int| 0 <= j < w.len() ==> plain_char(#[trigger] w[j]),
    ensures
        plain_item(n, lead, name + "="@ + (seq!['"'] + w + seq!['"']), name, name.len() as int)
            == Ok::<(StatementView, int), ParseErrorView>((StatementView::Assignment { name, value: w }, n + 1)),
        plain_item(n, lead, name + "="@ + w, name, name.len() as int)
            == Ok::<(StatementView, int), ParseErrorView>((StatementView::Assignment { name, value: w }, n + 1)),
{
    reveal_strlit("=");
    lemma_quoted_value_unquoted(w);
    let q = seq!['"'] + w + seq!['"'];
    let u1 = name + "="@ + q;
    let u2 = name + "="@ + w;
    assert(u1[name.len() as int] == '=');
    assert(u2[name.len() as int] == '=');
    assert(u1.skip(name.len() as int + 1) =~= q);
    assert(u2.skip(name.len() as int + 1) =~= w);
}

/// A line `name(...)`: a call when nothing follows the parentheses (without the
/// keyword), else a definition with those parameters.
pub open spec fn paren_item(
    pre: Seq<char>,
    ls: Seq<Seq<char>>,
    n: int,
    lead: int,
    u: Seq<char>,
    kw: bool,
    name: Seq<char>,
    ne: int,
) -> Result<(StatementView, int), ParseErrorView> {
    match paren_close(u, ne + 1, false, false) {
        None => Err(error_at(n, lead + ne, "expected `)`"@, Some(paren_hint()))),
        Some(cp) => {
            let inside = u.subrange(ne + 1, cp);
            let b = skip_ws(u, cp + 1);
            if b >= u.len() {
                if kw {
                    Err(error_at(n, ls[n].len() - 1, "expected block body (`{ ... }`) or command"@, Some(body_hint())))
                } else {
                    Ok((StatementView::FunctionCall { name, args: call_args(inside) }, n + 1))
                }
            } else {
                definition_item(pre, ls, n, lead, name, param_list(inside), b)
            }
        },
    }
}

/// A line without parentheses after the name: an assignment when `=` and a single value
/// follow the name, else a command.
pub open spec fn plain_item(n: int, lead: int, u: Seq<char>, name: Seq<char>, ne: int) -> Result<(StatementView, int), ParseErrorView> {
    if ne > 0 && ne < u.len() && u[ne] == '=' && assignment_value(u.skip(ne + 1)) is Some {
        Ok((StatementView::Assignment { name, value: assignment_value(u.skip(ne + 1))->0 }, n + 1))
    } else if u.len() > 0 && u[0] == ',' {
        Err(error_at(n, lead, "expected statement"@, None))
    } else {
        match unclosed_quote(u) {
            Some(q) => Err(error_at(n, lead + q, "expected closing `\"`"@, None)),
            None => Ok((StatementView::Command { command: normalized_command(u) }, n + 1)),
        }
    }
}

/// The end of the name that starts at `k0`, or `k0` when no identifier starts there.
pub open spec fn name_end(u: Seq<char>, k0: int) -> int {
    if 0 <= k0 < u.len() && is_ident_start(u[k0]) { ident_end(u, k0) } else { k0 }
}

/// The statement on line `n` (not blank, not a comment) and the line after it.
pub open spec fn line_item(pre: Seq<char>, ls: Seq<Seq<char>>, n: int) -> Result<(StatementView, int), ParseErrorView> {
    let l = ls[n];
    let u = ltrim(l);
    let lead = l.len() - u.len();
    let kw = has_keyword(u);
    let k0 = if kw { skip_ws(u, 8) } else { 0 };
    let ne = name_end(u, k0);
    let name = u.subrange(k0, ne);
    if kw && ne == k0 {
        Err(error_at(n, lead + 8, "expected identifier"@, Some(ident_hint())))
    } else if ne > k0 && ne < u.len() && u[ne] == '(' {
        paren_item(pre, ls, n, lead, u, kw, name, ne)
    } else if kw {
        let b = skip_ws(u, ne);
        if b >= u.len() {
            Err(error_at(n, l.len() - 1, "expected block body (`{ ... }`) or command"@, Some(body_hint())))
        } else {
            definition_item(pre, ls, n, lead, name, Seq::empty(), b)
        }
    } else {
        plain_item(n, lead, u, name, ne)
    }
}

/// The line holds nothing to parse: blank, or a comment.
pub open spec fn skipped_line(l: Seq<char>) -> bool {
    ltrim(l).len() == 0 || ltrim(l)[0] == '#'
}

pub proof fn lemma_brace_close_forward(ls: Seq<Seq<char>>, n: int, j: int, depth: nat, dq: bool, sq: bool, esc: bool)
    ensures
        brace_close(ls, n, j, depth, dq, sq, esc) matches Some((a, b)) ==> 0 <= n <= a < ls.len(),
    decreases ls.len() - n, (if 0 <= n < ls.len() && 0 <= j <= ls[n].len() { ls[n].len() - j } else { 0 }),
{
    if 0 <= n < ls.len() {
        if j < 0 || j >= ls[n].len() {
            lemma_brace_close_forward(ls, n + 1, 0, depth, false, false, false);
        } else {
            let c = ls[n][j];
            if dq {
                if esc {
                    lemma_brace_close_forward(ls, n, j + 1, depth, true, false, false);
                } else if c == '\\' {
                    lemma_brace_close_forward(ls, n, j + 1, depth, true, false, true);
                } else if c == '"' {
                    lemma_brace_close_forward(ls, n, j + 1, depth, false, false, false);
                } else {
                    lemma_brace_close_forward(ls, n, j + 1, depth, true, false, false);
                }
            } else if sq {
                lemma_brace_close_forward(ls, n, j + 1, depth, false, c != '\'', false);
            } else if c == '"' {
                lemma_brace_close_forward(ls, n, j + 1, depth, true, false, false);
            } else if c == '\'' {
                lemma_brace_close_forward(ls, n, j + 1, depth, false, true, false);
            } else if c == '{' {
                if depth < usize::MAX {
                    lemma_brace_close_forward(ls, n, j + 1, depth + 1, false, false, false);
                }
            } else if c == '}' {
                if depth > 1 {
                    lemma_brace_close_forward(ls, n, j + 1, (depth - 1) as nat, false, false, false);
                }
            } else {
                lemma_brace_close_forward(ls, n, j + 1, depth, false, false, false);
            }
        }
    }
}

pub proof fn lemma_line_item_forward(pre: Seq<char>, ls: Seq<Seq<char>>, n: int)
    requires
        0 <= n < ls.len(),
    ensures
        line_item(pre, ls, n) matches Ok((st, next)) ==> n < next <= ls.len(),
{
    assert forall|j: int| (#[trigger] brace_close(ls, n, j, 0, false, false, false) matches Some((a, c)) ==> n <= a < ls.len()) by {
        lemma_brace_close_forward(ls, n, j, 0, false, false, false);
    }
}

/// The statements from line `n` on, or the first error.
pub open spec fn parse_lines(pre: Seq<char>, ls: Seq<Seq<char>>, n: int) -> Result<Seq<StatementView>, ParseErrorView>
    decreases ls.len() - n,
{
    if n < 0 || n >= ls.len() {
        Ok(Seq::empty())
    } else if skipped_line(ls[n]) {
        parse_lines(pre, ls, n + 1)
    } else {
        let r = line_item(pre, ls, n);
        proof {
            lemma_line_item_forward(pre, ls, n);
        }
        match r {
            Err(e) => Err(e),
            Ok((st, next)) => {
                proof {
                    assert(n < next <= ls.len());
                }
                match parse_lines(pre, ls, next) {
                    Ok(rest) => Ok(seq![st] + rest),
                    Err(e) => Err(e),
                }
            },
        }
    }
}

/// A Runfile's statements, or the first error (see the module documentation).
pub open spec fn parsed(input: Seq<char>) -> Result<Seq<StatementView>, ParseErrorView> {
    let pre = preprocessed(input);
    parse_lines(pre, lines(pre), 0)
}

/// A parse error, with the offending line for display.
#[derive(Debug, Clone)]
pub struct ParseError {
    /// What was expected.
    pub message: String,
    /// Line number (1-based).
    pub line: usize,
    /// Column (1-based) where the error begins.
    pub col: usize,
    /// End column of a span, when the error covers one.
    pub col_end: Option<usize>,
    /// The text of the offending line.
    pub source_line: Option<String>,
    /// The file name shown in the error header.
    pub filename: Option<String>,
    /// A suggestion for fixing the error.
    pub hint: Option<String>,
}

/// The content of a parse error.
pub open spec fn error_view(e: ParseError) -> ParseErrorView {
    ParseErrorView { message: e.message@, line: e.line as nat, col: e.col as nat, hint: opt_view(e.hint) }
}

/// The decimal digits of a number.
pub open spec fn number_text(n: nat) -> Seq<char> {
    decimal(n)
}

/// `n` copies of `c`.
pub open spec fn repeated(c: char, n: nat) -> Seq<char> {
    Seq::new(n, |i: int| c)
}

/// The caret line under the error: spaces up to the column, then one `^`, or as many as
/// the span is wide.
pub open spec fn underline(col: nat, col_end: Option<usize>) -> Seq<char> {
    let start = if col >= 1 { (col - 1) as nat } else { 0 };
    let len: nat = match col_end {
        Some(end) => if end > col { (end - col) as nat } else { 1 },
        None => 1,
    };
    repeated(' ', start) + repeated('^', len)
}

/// An error as displayed: the message, the location (with the file name when known), the
/// offending line with a caret under the column, and the hint.
pub open spec fn report_text(
    v: ParseErrorView,
    col_end: Option<usize>,
    source_line: Option<Seq<char>>,
    filename: Option<Seq<char>>,
) -> Seq<char> {
    let location = match filename {
        Some(f) => f + ":"@ + number_text(v.line) + ":"@ + number_text(v.col),
        None => number_text(v.line) + ":"@ + number_text(v.col),
    };
    let num = number_text(v.line);
    let pad = repeated(' ', num.len());
    "error: "@ + v.message + "\n"@ + "  --> "@ + location + "\n"@ + match source_line {
        Some(src) => "   "@ + pad + " |\n"@ + "   "@ + num + " | "@ + src + "\n"@ + "   "@ + pad + " | "@
            + underline(v.col, col_end) + "\n"@,
        None => Seq::empty(),
    } + match v.hint {
        Some(h) => "\n"@ + "   = hint: "@ + h,
        None => Seq::empty(),
    }
}

/// The text of a parse error value.
pub open spec fn rendered(e: ParseError) -> Seq<char> {
    report_text(error_view(e), e.col_end, opt_view(e.source_line), opt_view(e.filename))
}

/// The error text that parsing `input` reports, headed by `filename` when one is given
/// (empty when `input` parses).
pub open spec fn script_error_report(input: Seq<char>, filename: Option<Seq<char>>) -> Seq<char> {
    match parsed(input) {
        Err(v) => report_text(v, None, Some(lines(preprocessed(input))[v.line - 1]), filename),
        Ok(_) => Seq::empty(),
    }
}

fn push_repeated(v: &mut Vec<char>, c: char, n: usize)
    ensures
        final(v)@ == old(v)@ + repeated(c, n as nat),
{
    let ghost v0 = v@;
    let mut i: usize = 0;
    while i < n
        invariant
            i <= n,
            v@ == v0 + repeated(c, i as nat),
        decreases n - i,
    {
        v.push(c);
        assert(repeated(c, (i + 1) as nat) =~= repeated(c, i as nat).push(c));
        i = i + 1;
    }
}

impl ParseError {
    /// The same error with a file name for its header.
    pub fn with_filename(self, filename: &str) -> (r: ParseError)
        ensures
            error_view(r) == error_view(self),
            r.col_end == self.col_end,
            opt_view(r.source_line) == opt_view(self.source_line),
            r.filename matches Some(f) && f@ == filename@,
    {
        ParseError {
            message: self.message,
            line: self.line,
            col: self.col,
            col_end: self.col_end,
            source_line: self.source_line,
            filename: Some(filename.to_string()),
            hint: self.hint,
        }
    }

    /// The error as displayed to the user (see `rendered`).
    pub fn render(&self) -> (r: String)
        ensures
            r@ == rendered(*self),
    {
        let mut out = to_chars("error: ");
        push_str(&mut out, self.message.as_str());
        push_str(&mut out, "\n");
        push_str(&mut out, "  --> ");
        self.push_location(&mut out);
        push_str(&mut out, "\n");
        self.push_source(&mut out);
        self.push_hint(&mut out);
        from_chars(out.as_slice())
    }

    fn push_location(&self, out: &mut Vec<char>)
        ensures
            final(out)@ == old(out)@ + match self.filename {
                Some(f) => f@ + ":"@ + number_text(self.line as nat) + ":"@ + number_text(self.col as nat),
                None => number_text(self.line as nat) + ":"@ + number_text(self.col as nat),
            },
    {
        let line_d = u128_to_chars(self.line as u128);
        let col_d = u128_to_chars(self.col as u128);
        match &self.filename {
            Some(f) => {
                push_str(out, f.as_str());
                push_str(out, ":");
            },
            None => {},
        }
        push_all(out, line_d.as_slice());
        push_str(out, ":");
        push_all(out, col_d.as_slice());
    }

    fn push_source(&self, out: &mut Vec<char>)
        ensures
            final(out)@ == old(out)@ + match self.source_line {
                Some(src) => "   "@ + repeated(' ', number_text(self.line as nat).len()) + " |\n"@ + "   "@
                    + number_text(self.line as nat) + " | "@ + src@ + "\n"@ + "   "@ + repeated(
                    ' ',
                    number_text(self.line as nat).len(),
                ) + " | "@ + underline(self.col as nat, self.col_end) + "\n"@,
                None => Seq::empty(),
            },
    {
        match &self.source_line {
            Some(src) => {
                let line_d = u128_to_chars(self.line as u128);
                let ghost o0 = out@;
                push_str(out, "   ");
                push_repeated(out, ' ', line_d.len());
                push_str(out, " |\n");
                push_str(out, "   ");
                push_all(out, line_d.as_slice());
                push_str(out, " | ");
                push_str(out, src.as_str());
                push_str(out, "\n");
                push_str(out, "   ");
                push_repeated(out, ' ', line_d.len());
                push_str(out, " | ");
                let ghost o1 = out@;
                self.push_underline(out);
                push_str(out, "\n");
            },
            None => {},
        }
    }

    fn push_underline(&self, out: &mut Vec<char>)
        ensures
            final(out)@ == old(out)@ + underline(self.col as nat, self.col_end),
    {
        let start: usize = if self.col >= 1 { self.col - 1 } else { 0 };
        let len: usize = match self.col_end {
            Some(end) => if end > self.col { end - self.col } else { 1 },
            None => 1,
        };
        push_repeated(out, ' ', start);
        push_repeated(out, '^', len);
    }

    fn push_hint(&self, out: &mut Vec<char>)
        ensures
            final(out)@ == old(out)@ + match self.hint {
                Some(h) => "\n"@ + "   = hint: "@ + h@,
                None => Seq::empty(),
            },
    {
        match &self.hint {
            Some(h) => {
                push_str(out, "\n");
                push_str(out, "   = hint: ");
                push_str(out, h.as_str());
            },
            None => {},
        }
    }
}

fn ident_end_exec(u: &[char], k: usize) -> (r: usize)
    requires
        k <= u@.len(),
    ensures
        r as int == ident_end(u@, k as int),
        k <= r <= u@.len(),
{
    let mut i = k;
    while i < u.len() && (('a' <= u[i] && u[i] <= 'z') || ('A' <= u[i] && u[i] <= 'Z') || u[i] == '_' || ('0' <= u[i]
        && u[i] <= '9') || u[i] == ':')
        invariant
            k <= i <= u@.len(),
            ident_end(u@, k as int) == ident_end(u@, i as int),
        decreases u@.len() - i,
    {
        i = i + 1;
    }
    i
}

fn skip_ws_exec(u: &[char], k: usize) -> (r: usize)
    requires
        k <= u@.len(),
    ensures
        r as int == skip_ws(u@, k as int),
        k <= r <= u@.len(),
{
    let mut i = k;
    while i < u.len() && is_whitespace(u[i])
        invariant
            k <= i <= u@.len(),
            skip_ws(u@, k as int) == skip_ws(u@, i as int),
        decreases u@.len() - i,
    {
        i = i + 1;
    }
    i
}

fn paren_close_exec(u: &[char], start: usize) -> (r: Option<usize>)
    requires
        start <= u@.len(),
    ensures
        match r {
            Some(c) => paren_close(u@, start as int, false, false) == Some(c as int) && start <= c < u@.len(),
            None => paren_close(u@, start as int, false, false) is None,
        },
{
    let mut i = start;
    let mut dq = false;
    let mut esc = false;
    while i < u.len()
        invariant
            start <= i <= u@.len(),
            !dq ==> !esc,
            paren_close(u@, start as int, false, false) == paren_close(u@, i as int, dq, esc),
        decreases u@.len() - i,
    {
        let c = u[i];
        if dq {
            if esc {
                esc = false;
            } else {
                dq = c != '"';
                esc = c == '\\';
            }
        } else if c == ')' {
            return Some(i);
        } else {
            dq = c == '"';
        }
        i = i + 1;
    }
    None
}

fn keyword_exec(u: &[char]) -> (b: bool)
    ensures
        b == has_keyword(u@),
{
    starts_with_exec(u, to_chars("function").as_slice()) && u.len() > 8 && is_whitespace(u[8])
}

fn assignment_value_exec(v0: &[char]) -> (r: Option<Vec<char>>)
    ensures
        match r {
            Some(v) => assignment_value(v0@) == Some(v@),
            None => assignment_value(v0@) is None,
        },
{
    let v = rtrim_chars(v0);
    let q = find_unclosed_quote(v.as_slice());
    if q.is_some() {
        return None;
    }
    let ws = crate::text::to_strings(&Vec::new());
    let words = {
        let s = from_chars(v.as_slice());
        let c = to_chars(s.as_str());
        command_word_count(c.as_slice())
    };
    if words > 1 {
        return None;
    }
    let n = v.len();
    if n >= 2 && v[0] == '"' && v[n - 1] == '"' {
        Some(copy_range(v.as_slice(), 1, n - 1))
    } else {
        Some(v)
    }
}

fn command_word_count(s: &[char]) -> (r: usize)
    ensures
        r as int == command_words(s@).len(),
{
    let t = parse_command_words(s);
    t.len()
}

fn parse_command_words(s: &[char]) -> (r: Vec<Vec<char>>)
    ensures
        views(r@) == command_words(s@),
{
    crate::parser::lexical::command_words_exec(s)
}

/// An error at line `n`, column `idx` (0-based), quoting line `n`.
fn error_at_exec(ls: &Vec<Vec<char>>, n: usize, idx: usize, message: &str, hint: Option<&str>) -> (e: ParseError)
    requires
        n < ls@.len(),
        idx < usize::MAX,
    ensures
        error_view(e) == error_at(n as int, idx as int, message@, match hint {
            Some(h) => Some(h@),
            None => None,
        }),
        e.col_end is None,
        e.filename is None,
        e.source_line matches Some(s) && s@ == views(ls@)[n as int],
{
    let count = ls.len();
    ParseError {
        message: message.to_string(),
        line: n + 1,
        col: idx + 1,
        col_end: None,
        source_line: Some(from_chars(ls[n].as_slice())),
        filename: None,
        hint: match hint {
            Some(h) => Some(h.to_string()),
            None => None,
        },
    }
}

proof fn lemma_has_shell(attrs: Seq<Attribute>)
    ensures
        has_shell_attr(attrs) == has_shell_view(attrs_view(attrs)),
{
    if has_shell_attr(attrs) {
        let i = choose|i: int| 0 <= i < attrs.len() && attrs[i] is Shell;
        assert(attrs_view(attrs)[i] is Shell);
    }
    if has_shell_view(attrs_view(attrs)) {
        let i = choose|i: int| 0 <= i < attrs_view(attrs).len() && attrs_view(attrs)[i] is Shell;
        assert(attrs[i] is Shell);
    }
}

/// The result of a parse step, as content.
pub open spec fn item_view(r: Result<(Statement, usize), ParseError>) -> Result<(StatementView, int), ParseErrorView> {
    match r {
        Ok((st, next)) => Ok((statement_view(st), next as int)),
        Err(e) => Err(error_view(e)),
    }
}

/// The error is reported at line `n` and quotes that line.
pub open spec fn quotes_line(r: Result<(Statement, usize), ParseError>, ls: Seq<Seq<char>>) -> bool {
    r matches Err(e) ==> e.col_end is None && e.filename is None && 1 <= e.line <= ls.len() && (
    e.source_line matches Some(s) && s@ == ls[e.line - 1])
}

fn definition_exec(
    pre: &str,
    ls: &Vec<Vec<char>>,
    n: usize,
    lead: usize,
    name: String,
    params: Vec<Parameter>,
    u: &Vec<char>,
    b: usize,
) -> (r: Result<(Statement, usize), ParseError>)
    requires
        pre@.len() >= 0,
        views(ls@) == lines(pre@),
        n < ls@.len(),
        u@ == ltrim(ls@[n as int]@),
        u@ == ls@[n as int]@.skip(lead as int),
        lead <= ls@[n as int]@.len(),
        lead as int == ls@[n as int]@.len() - u@.len(),
        b < u@.len(),
    ensures
        item_view(r) == definition_item(pre@, views(ls@), n as int, lead as int, name@, params_view(params@), b as int),
        quotes_line(r, views(ls@)),
{
    let ghost lv = views(ls@);
    let count = ls.len();
    let row = ls[n].len();
    let line_num: usize = if lead == 0 { n } else { n + 1 };
    let attrs = parse_attributes_from_lines(pre, line_num);
    proof { lemma_has_shell(attrs@); }
    assert(ls@[n as int]@[lead + b] == u@[b as int]);
    if u[b] == '{' {
        match find_block_close(ls, n, lead + b) {
            None => Err(error_at_exec(ls, n, lead + b, "expected `}`", Some("A block body must be closed with `}`."))),
            Some((n1, j1)) => {
                let text = span_exec(ls, n, lead + b, n1, j1);
                let ts = from_chars(text.as_slice());
                let content = parse_block_content(ts.as_str());
                let commands = split_block_commands(content.as_str(), attrs.as_slice());
                let cc = to_chars(content.as_str());
                let tc = trim_chars(cc.as_slice());
                let tcs = from_chars(tc.as_slice());
                let shebang = parse_shebang(tcs.as_str());
                let st = Statement::BlockFunctionDef { name, params, commands, attributes: attrs, shebang };
                Ok((st, n1 + 1))
            },
        }
    } else {
        let body = copy_range(u.as_slice(), b, u.len());
        assert(body@ =~= u@.skip(b as int));
        match find_unclosed_quote(body.as_slice()) {
            Some(q) => Err(error_at_exec(ls, n, lead + b + q, "expected closing `\"`", None)),
            None => {
                let bs = from_chars(body.as_slice());
                let template = parse_command(bs.as_str());
                Ok((Statement::SimpleFunctionDef { name, params, command_template: template, attributes: attrs }, n + 1))
            },
        }
    }
}

fn span_exec(ls: &Vec<Vec<char>>, n0: usize, j0: usize, n1: usize, j1: usize) -> (r: Vec<char>)
    requires
        n0 <= n1 < ls@.len(),
        j0 <= ls@[n0 as int]@.len(),
        j1 < ls@[n1 as int]@.len(),
        n0 == n1 ==> j0 <= j1,
    ensures
        r@ == span_text(views(ls@), n0 as int, j0 as int, n1 as int, j1 as int),
{
    let ghost lv = views(ls@);
    let r1 = ls[n1].len();
    if n0 == n1 {
        return copy_range(ls[n0].as_slice(), j0, j1 + 1);
    }
    let mut parts: Vec<Vec<char>> = Vec::new();
    parts.push(copy_range(ls[n0].as_slice(), j0, ls[n0].len()));
    let mut k = n0 + 1;
    while k < n1
        invariant
            n0 < k <= n1 < ls@.len(),
            j0 <= ls@[n0 as int]@.len(),
            lv == views(ls@),
            views(parts@) == seq![lv[n0 as int].skip(j0 as int)] + lv.subrange(n0 + 1, k as int),
        decreases n1 - k,
    {
        let ghost before = views(parts@);
        parts.push(copy_range(ls[k].as_slice(), 0, ls[k].len()));
        assert(lv[k as int].subrange(0, lv[k as int].len() as int) =~= lv[k as int]);
        assert(views(parts@) =~= before.push(lv[k as int]));
        assert(lv.subrange(n0 + 1, k + 1) =~= lv.subrange(n0 + 1, k as int).push(lv[k as int]));
        k = k + 1;
    }
    let ghost before = views(parts@);
    parts.push(copy_range(ls[n1].as_slice(), 0, j1 + 1));
    assert(lv[n1 as int].subrange(0, j1 + 1) =~= lv[n1 as int].take(j1 + 1));
    assert(lv[n0 as int].subrange(j0 as int, lv[n0 as int].len() as int) =~= lv[n0 as int].skip(j0 as int));
    assert(views(parts@) =~= seq![lv[n0 as int].skip(j0 as int)] + lv.subrange(n0 + 1, n1 as int) + seq![lv[n1 as int].take(j1 + 1)]);
    join_chars(&parts, to_chars("\n").as_slice())
}

fn paren_exec(
    pre: &str,
    ls: &Vec<Vec<char>>,
    n: usize,
    lead: usize,
    u: &Vec<char>,
    kw: bool,
    name: String,
    ne: usize,
) -> (r: Result<(Statement, usize), ParseError>)
    requires
        views(ls@) == lines(pre@),
        n < ls@.len(),
        u@ == ltrim(ls@[n as int]@),
        u@ == ls@[n as int]@.skip(lead as int),
        lead <= ls@[n as int]@.len(),
        lead as int == ls@[n as int]@.len() - u@.len(),
        ne < u@.len(),
        u@[ne as int] == '(',
    ensures
        item_view(r) == paren_item(pre@, views(ls@), n as int, lead as int, u@, kw, name@, ne as int),
        quotes_line(r, views(ls@)),
{
    let count = ls.len();
    let row = ls[n].len();
    match paren_close_exec(u.as_slice(), ne + 1) {
        None => Err(
            error_at_exec(
                ls,
                n,
                lead + ne,
                "expected `)`",
                Some("A parameter list must be closed with `)`. Check for a missing `)` or a stray character inside the list."),
            ),
        ),
        Some(cp) => {
            let inside = copy_range(u.as_slice(), ne + 1, cp);
            let b = skip_ws_exec(u.as_slice(), cp + 1);
            if b >= u.len() {
                if kw {
                    return Err(
                        error_at_exec(
                            ls,
                            n,
                            row - 1,
                            "expected block body (`{ ... }`) or command",
                            Some(
                                "A function needs a body: put a command on the same line, or wrap multiple commands in braces: `{ command1; command2 }`",
                            ),
                        ),
                    );
                }
                let args = parse_call_args(inside.as_slice());
                Ok((Statement::FunctionCall { name, args }, n + 1))
            } else {
                let params = parse_param_list(inside.as_slice());
                definition_exec(pre, ls, n, lead, name, params, u, b)
            }
        },
    }
}

fn plain_exec(ls: &Vec<Vec<char>>, n: usize, lead: usize, u: &Vec<char>, name: String, ne: usize) -> (r: Result<(Statement, usize), ParseError>)
    requires
        n < ls@.len(),
        lead as int + u@.len() == ls@[n as int]@.len(),
        ne <= u@.len(),
    ensures
        item_view(r) == plain_item(n as int, lead as int, u@, name@, ne as int),
        quotes_line(r, views(ls@)),
{
    let count = ls.len();
    let row = ls[n].len();
    if ne > 0 && ne < u.len() && u[ne] == '=' {
        let rest = copy_range(u.as_slice(), ne + 1, u.len());
        assert(rest@ =~= u@.skip(ne + 1));
        if let Some(v) = assignment_value_exec(rest.as_slice()) {
            return Ok((Statement::Assignment { name, value: Expression::String(from_chars(v.as_slice())) }, n + 1));
        }
    }
    if u.len() > 0 && u[0] == ',' {
        return Err(error_at_exec(ls, n, lead, "expected statement", None));
    }
    match find_unclosed_quote(u.as_slice()) {
        Some(q) => Err(error_at_exec(ls, n, lead + q, "expected closing `\"`", None)),
        None => {
            let us = from_chars(u.as_slice());
            Ok((Statement::Command { command: parse_command(us.as_str()) }, n + 1))
        },
    }
}

/// Parses the statement on line `n` (see `line_item`).
fn parse_line(pre: &str, ls: &Vec<Vec<char>>, n: usize) -> (r: Result<(Statement, usize), ParseError>)
    requires
        views(ls@) == lines(pre@),
        n < ls@.len(),
        !skipped_line(ls@[n as int]@),
    ensures
        item_view(r) == line_item(pre@, views(ls@), n as int),
        quotes_line(r, views(ls@)),
{
    let count = ls.len();
    let l = ls[n].as_slice();
    let row = l.len();
    let lead = ltrim_index(l);
    let u = copy_range(l, lead, l.len());
    assert(u@ =~= l@.skip(lead as int));
    let kw = keyword_exec(u.as_slice());
    let k0: usize = if kw { skip_ws_exec(u.as_slice(), 8) } else { 0 };
    let ne: usize = if k0 < u.len() && (('a' <= u[k0] && u[k0] <= 'z') || ('A' <= u[k0] && u[k0] <= 'Z') || u[k0] == '_') {
        ident_end_exec(u.as_slice(), k0)
    } else {
        k0
    };
    assert(ne as int == name_end(u@, k0 as int));
    let name_chars = copy_range(u.as_slice(), k0, ne);
    let name = from_chars(name_chars.as_slice());
    if kw && ne == k0 {
        return Err(
            error_at_exec(
                ls,
                n,
                lead + 8,
                "expected identifier",
                Some("Identifiers must start with a letter or `_` and contain only letters, digits, `_`, or `:`."),
            ),
        );
    }
    if ne > k0 && ne < u.len() && u[ne] == '(' {
        return paren_exec(pre, ls, n, lead, &u, kw, name, ne);
    }
    if kw {
        let b = skip_ws_exec(u.as_slice(), ne);
        if b >= u.len() {
            return Err(
                error_at_exec(
                    ls,
                    n,
                    row - 1,
                    "expected block body (`{ ... }`) or command",
                    Some(
                        "A function needs a body: put a command on the same line, or wrap multiple commands in braces: `{ command1; command2 }`",
                    ),
                ),
            );
        }
        let params: Vec<Parameter> = Vec::new();
        assert(params_view(params@) =~= Seq::<ParamView>::empty());
        return definition_exec(pre, ls, n, lead, name, params, &u, b);
    }
    plain_exec(ls, n, lead, &u, name, ne)
}

/// Parses a Runfile (see `parsed`). An error quotes the offending line of the input as
/// it stands after continuation lines are joined.
pub fn parse_script(input: &str) -> (r: Result<Program, ParseError>)
    ensures
        match r {
            Ok(p) => parsed(input@) == Ok::<Seq<StatementView>, ParseErrorView>(statements_view(p.statements@)),
            Err(e) => parsed(input@) == Err::<Seq<StatementView>, ParseErrorView>(error_view(e)) && e.col_end is None
                && e.filename is None && 1 <= e.line <= lines(preprocessed(input@)).len() && (e.source_line matches Some(
                s) && s@ == lines(preprocessed(input@))[e.line - 1]),
        },
{
    let pre = preprocess_escaped_newlines(input);
    let pc = to_chars(pre.as_str());
    let ls = lines_of(pc.as_slice());
    let ghost lv = views(ls@);
    let mut statements: Vec<Statement> = Vec::new();
    let mut n: usize = 0;
    while n < ls.len()
        invariant
            n <= ls@.len(),
            lv == views(ls@),
            lv == lines(pre@),
            pre@ == preprocessed(input@),
            parse_lines(pre@, lv, 0) == match parse_lines(pre@, lv, n as int) {
                Ok(rest) => Ok(statements_view(statements@) + rest),
                Err(e) => Err::<Seq<StatementView>, ParseErrorView>(e),
            },
        decreases ls@.len() - n,
    {
        let l = ls[n].as_slice();
        let lead = ltrim_index(l);
        if lead == l.len() || l[lead] == '#' {
            assert(skipped_line(lv[n as int]));
            n = n + 1;
        } else {
            assert(!skipped_line(lv[n as int]));
            proof { lemma_line_item_forward(pre@, lv, n as int); }
            match parse_line(pre.as_str(), &ls, n) {
                Ok((st, next)) => {
                    let ghost before = statements_view(statements@);
                    statements.push(st);
                    assert(statements_view(statements@) =~= before.push(statement_view(st)));
                    proof {
                        match parse_lines(pre@, lv, next as int) {
                            Ok(rest) => {
                                assert(before.push(statement_view(st)) + rest =~= before + (seq![statement_view(st)] + rest));
                            },
                            Err(e) => {},
                        }
                    }
                    n = next;
                },
                Err(e) => {
                    return Err(e);
                },
            }
        }
    }
    assert(statements_view(statements@) + Seq::<StatementView>::empty() =~= statements_view(statements@));
    Ok(Program { statements })
}

} // verus!
