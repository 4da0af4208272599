//! Turning Runfile functions into shell functions, and rewriting calls between them.
use vstd::prelude::*;
use vstd::utf8::encode_utf8;
use crate::ast::ShellType;
use crate::heredoc::{heredoc_delims, heredoc_delims_exec, heredoc_stack, heredoc_step};
use crate::text::{
    copy_range, from_chars, has_char, has_char_exec, is_alphanumeric, is_whitespace, join, join_chars, lemma_replace_all_char,
    lines, lines_of, push_all, push_str, replace_all, replace_chars, rtrim, string_views, to_chars,
    to_strings, trim, trim_chars, unicode_alphanumeric, views, matches_at, matches_at_exec,
};

verus! {

/// The interpreter a function runs under.
#[derive(Debug, Clone, Copy, PartialEq, Eq, Structural)]
pub enum Interpreter {
    Sh,
    Bash,
    Pwsh,
    Python,
    Python3,
    Node,
    Ruby,
}

/// Code written for `other` can be composed into a script run by `self`: equal
/// interpreters, bash running sh code, and the two Pythons with each other.
pub open spec fn compatible(a: Interpreter, b: Interpreter) -> bool {
    match (a, b) {
        (Interpreter::Bash, Interpreter::Sh) => true,
        (Interpreter::Bash, Interpreter::Bash) => true,
        (Interpreter::Sh, Interpreter::Sh) => true,
        (Interpreter::Pwsh, Interpreter::Pwsh) => true,
        (Interpreter::Python, Interpreter::Python) => true,
        (Interpreter::Python, Interpreter::Python3) => true,
        (Interpreter::Python3, Interpreter::Python) => true,
        (Interpreter::Python3, Interpreter::Python3) => true,
        (Interpreter::Node, Interpreter::Node) => true,
        (Interpreter::Ruby, Interpreter::Ruby) => true,
        _ => false,
    }
}

/// The interpreter that an `@shell` attribute names.
pub open spec fn interpreter_of_shell(t: ShellType) -> Interpreter {
    match t {
        ShellType::Sh => Interpreter::Sh,
        ShellType::Bash => Interpreter::Bash,
        ShellType::Pwsh => Interpreter::Pwsh,
        ShellType::Python => Interpreter::Python,
        ShellType::Python3 => Interpreter::Python3,
        ShellType::Node => Interpreter::Node,
        ShellType::Ruby => Interpreter::Ruby,
    }
}

impl Interpreter {
    /// Whether this interpreter can run code written for `other` (see `compatible`);
    /// bash runs sh code but not the reverse.
    pub fn is_compatible_with(&self, other: &Interpreter) -> (b: bool)
        ensures
            b == compatible(*self, *other),
    {
        match (self, other) {
            (Interpreter::Bash, Interpreter::Sh) => true,
            (Interpreter::Bash, Interpreter::Bash) => true,
            (Interpreter::Sh, Interpreter::Sh) => true,
            (Interpreter::Pwsh, Interpreter::Pwsh) => true,
            (Interpreter::Python, Interpreter::Python) => true,
            (Interpreter::Python, Interpreter::Python3) => true,
            (Interpreter::Python3, Interpreter::Python) => true,
            (Interpreter::Python3, Interpreter::Python3) => true,
            (Interpreter::Node, Interpreter::Node) => true,
            (Interpreter::Ruby, Interpreter::Ruby) => true,
            _ => false,
        }
    }

    /// The interpreter for an `@shell` type.
    pub fn from_shell_type(shell_type: &ShellType) -> (r: Self)
        ensures
            r == interpreter_of_shell(*shell_type),
    {
        match shell_type {
            ShellType::Sh => Interpreter::Sh,
            ShellType::Bash => Interpreter::Bash,
            ShellType::Pwsh => Interpreter::Pwsh,
            ShellType::Python => Interpreter::Python,
            ShellType::Python3 => Interpreter::Python3,
            ShellType::Node => Interpreter::Node,
            ShellType::Ruby => Interpreter::Ruby,
        }
    }

    /// The platform default when `bash_on_path` tells whether `bash` is on the search
    /// path (see `default_choice`).
    pub fn default_interpreter(platform: crate::utils::HostPlatform, bash_on_path: bool) -> (r: Self)
        ensures
            r == default_choice(platform, bash_on_path),
    {
        if platform == crate::utils::HostPlatform::Windows {
            Interpreter::Pwsh
        } else if bash_on_path {
            Interpreter::Bash
        } else {
            Interpreter::Sh
        }
    }

    /// The platform default: PowerShell on Windows, otherwise bash when it is on the
    /// search path, otherwise sh. The search of the path is the machine's; the choice is
    /// `default_interpreter` on its answer.
    pub fn default_for(platform: crate::utils::HostPlatform) -> (r: Self)
        ensures
            exists|found: bool| r == default_choice(platform, found),
            platform == crate::utils::HostPlatform::Windows ==> r == Interpreter::Pwsh,
            platform != crate::utils::HostPlatform::Windows ==> (r == Interpreter::Bash || r
                == Interpreter::Sh),
    {
        let found = platform != crate::utils::HostPlatform::Windows && crate::utils::program_on_path("bash");
        Self::default_interpreter(platform, found)
    }
}

/// The platform default by whether `bash` is on the search path: PowerShell on Windows,
/// otherwise bash when it is found, otherwise sh.
pub open spec fn default_choice(platform: crate::utils::HostPlatform, bash_on_path: bool) -> Interpreter {
    if platform == crate::utils::HostPlatform::Windows {
        Interpreter::Pwsh
    } else if bash_on_path {
        Interpreter::Bash
    } else {
        Interpreter::Sh
    }
}

/// A function name made safe for shells: `:` becomes `__` and `-` becomes `_`.
pub open spec fn sanitised(name: Seq<char>) -> Seq<char> {
    replace_all(replace_all(name, ":"@, "__"@), "-"@, "_"@)
}

/// A sanitised name holds no `:` and no `-`.
pub proof fn lemma_sanitised_name_plain(name: Seq<char>)
    ensures
        !has_char(sanitised(name), ':'),
        !has_char(sanitised(name), '-'),
{
    reveal_strlit(":");
    reveal_strlit("__");
    reveal_strlit("-");
    reveal_strlit("_");
    assert(":"@ =~= seq![':']);
    assert("-"@ =~= seq!['-']);
    let once = replace_all(name, seq![':'], "__"@);
    lemma_replace_all_char(name, ':', "__"@, ':');
    lemma_replace_all_char(once, '-', "_"@, ':');
    lemma_replace_all_char(once, '-', "_"@, '-');
}

/// Compatibility is reflexive; bash runs sh code but sh does not run bash code; the two
/// Pythons run each other's code; PowerShell, Node and Ruby code runs only under the
/// same interpreter, and a shell never runs theirs.
pub proof fn lemma_compatibility(a: Interpreter, b: Interpreter)
    ensures
        compatible(a, a),
        compatible(Interpreter::Bash, Interpreter::Sh) && !compatible(Interpreter::Sh, Interpreter::Bash),
        compatible(Interpreter::Python, Interpreter::Python3) && compatible(Interpreter::Python3, Interpreter::Python),
        (b == Interpreter::Pwsh || b == Interpreter::Node || b == Interpreter::Ruby) ==> (compatible(a, b) <==> a == b),
        (a == Interpreter::Sh || a == Interpreter::Bash) ==> (compatible(a, b) ==> b == Interpreter::Sh || b
            == Interpreter::Bash),
{
}

/// Sanitise a function name by replacing colons with double underscores and hyphens
/// with underscores.
pub fn sanitise_name(name: &str) -> (r: String)
    ensures
        r@ == sanitised(name@),
{
    let r = sanitise_chars(to_chars(name).as_slice());
    from_chars(r.as_slice())
}

/// `sanitise_name` on characters.
pub fn sanitise_chars(name: &[char]) -> (r: Vec<char>)
    ensures
        r@ == sanitised(name@),
{
    let colon = to_chars(":");
    let two = to_chars("__");
    let a = replace_chars(name, colon.as_slice(), two.as_slice());
    let dash = to_chars("-");
    let under = to_chars("_");
    replace_chars(a.as_slice(), dash.as_slice(), under.as_slice())
}

/// Line `k` of `ls` after indentation: lines inside a heredoc are kept verbatim, blank
/// lines become empty, other lines get the prefix.
pub open spec fn indented_line(ls: Seq<Seq<char>>, k: int, prefix: Seq<char>) -> Seq<char> {
    if heredoc_stack(ls.take(k), false).len() > 0 {
        ls[k]
    } else if trim(ls[k]).len() == 0 {
        Seq::empty()
    } else {
        prefix + ls[k]
    }
}

/// `text` with every line indented by `prefix`, except heredoc content and blank lines.
pub open spec fn indented(text: Seq<char>, prefix: Seq<char>) -> Seq<char> {
    let ls = lines(text);
    join(Seq::new(ls.len(), |k: int| indented_line(ls, k, prefix)), "\n"@)
}

/// Indent each line of `text` by `prefix`, leaving heredoc bodies and their closing
/// delimiters untouched.
pub fn indent(text: &str, prefix: &str) -> (r: String)
    ensures
        r@ == indented(text@, prefix@),
{
    let t = to_chars(text);
    let p = to_chars(prefix);
    let ls = lines_of(t.as_slice());
    let ghost lv = views(ls@);
    let mut out: Vec<Vec<char>> = Vec::new();
    let mut stack: Vec<Vec<char>> = Vec::new();
    let mut i: usize = 0;
    while i < ls.len()
        invariant
            i <= ls@.len(),
            lv == views(ls@),
            lv == lines(t@),
            p@ == prefix@,
            views(stack@) == heredoc_stack(lv.take(i as int), false),
            views(out@) == Seq::new(i as nat, |k: int| indented_line(lv, k, p@)),
        decreases ls@.len() - i,
    {
        let line = &ls[i];
        assert(line@ == lv[i as int]);
        let ghost before = views(out@);
        assert(views(stack@).len() == stack@.len());
        if stack.len() > 0 {
            let l = copy_range(line.as_slice(), 0, line.len());
            assert(line@.subrange(0, line@.len() as int) =~= line@);
            assert(l@ == indented_line(lv, i as int, p@));
            out.push(l);
            assert(views(out@) =~= before.push(l@));
        } else {
            let tr = trim_chars(line.as_slice());
            if tr.len() == 0 {
                let l: Vec<char> = Vec::new();
                assert(l@ =~= indented_line(lv, i as int, p@));
                out.push(l);
                assert(views(out@) =~= before.push(l@));
            } else {
                let mut l = copy_range(p.as_slice(), 0, p.len());
                assert(p@.subrange(0, p@.len() as int) =~= p@);
                push_all(&mut l, line.as_slice());
                assert(l@ == indented_line(lv, i as int, p@));
                out.push(l);
                assert(views(out@) =~= before.push(l@));
            }
        }
        assert(views(out@) =~= Seq::new((i + 1) as nat, |k: int| indented_line(lv, k, p@)));
        heredoc_step(&mut stack, line.as_slice(), false);
        assert(lv.take(i + 1).drop_last() =~= lv.take(i as int));
        i = i + 1;
    }
    let nl = to_chars("\n");
    let r = join_chars(&out, nl.as_slice());
    from_chars(r.as_slice())
}

/// The shell function definition of a Runfile function.
pub open spec fn shell_function(name: Seq<char>, body: Seq<char>, is_block: bool) -> Seq<char> {
    if is_block {
        sanitised(name) + "() {\n"@ + indented(body, "    "@) + "\n}"@
    } else {
        sanitised(name) + "() {\n    "@ + body + "\n}"@
    }
}

/// The PowerShell function definition of a Runfile function.
pub open spec fn pwsh_function(name: Seq<char>, body: Seq<char>, is_block: bool) -> Seq<char> {
    if is_block {
        "function "@ + sanitised(name) + " {\n"@ + indented(body, "    "@) + "\n}"@
    } else {
        "function "@ + sanitised(name) + " {\n    "@ + body + "\n}"@
    }
}

/// Transpile a function to sh/bash syntax.
pub fn transpile_to_shell(name: &str, body: &str, is_block: bool) -> (r: String)
    ensures
        r@ == shell_function(name@, body@, is_block),
{
    let mut out = sanitise_chars(to_chars(name).as_slice());
    if is_block {
        push_str(&mut out, "() {\n");
        let ind = indent(body, "    ");
        push_str(&mut out, ind.as_str());
        push_str(&mut out, "\n}");
    } else {
        push_str(&mut out, "() {\n    ");
        push_str(&mut out, body);
        push_str(&mut out, "\n}");
    }
    from_chars(out.as_slice())
}

/// Transpile a function to PowerShell syntax.
pub fn transpile_to_pwsh(name: &str, body: &str, is_block: bool) -> (r: String)
    ensures
        r@ == pwsh_function(name@, body@, is_block),
{
    let mut out = to_chars("function ");
    let s = sanitise_chars(to_chars(name).as_slice());
    push_all(&mut out, s.as_slice());
    if is_block {
        push_str(&mut out, " {\n");
        let ind = indent(body, "    ");
        push_str(&mut out, ind.as_str());
        push_str(&mut out, "\n}");
    } else {
        push_str(&mut out, " {\n    ");
        push_str(&mut out, body);
        push_str(&mut out, "\n}");
    }
    from_chars(out.as_slice())
}

/// Extract heredoc delimiter names from a line of shell code: `<<DELIM`, `<<-DELIM`,
/// `<<"DELIM"`, `<<'DELIM'` and `<<\DELIM`, skipping `<<<` and markers inside quotes.
/// Delimiters hold letters, digits and `_`.
pub fn extract_heredoc_delimiters(line: &str) -> (r: Vec<String>)
    ensures
        string_views(r@) == heredoc_delims(line@, false),
{
    let cs = to_chars(line);
    let ds = heredoc_delims_exec(cs.as_slice(), false);
    to_strings(&ds)
}


/// Letters, digits, `_` and `:` continue a word.
pub open spec fn is_word_char(c: char) -> bool {
    unicode_alphanumeric(c) || c == '_' || c == ':'
}

fn word_char(c: char) -> (b: bool)
    ensures
        b == is_word_char(c),
{
    is_alphanumeric(c) || c == '_' || c == ':'
}

/// After this output the next token is in command position: nothing but blanks so far,
/// or the last non-blank character is `&`, `|`, `;` or `(`.
pub open spec fn command_position(out: Seq<char>) -> bool {
    let t = rtrim(out);
    t.len() == 0 || t.last() == '&' || t.last() == '|' || t.last() == ';' || t.last() == '('
}

/// The sibling `sib` occurs at `start` and does not continue a word to its left.
pub open spec fn sibling_at(s: Seq<char>, start: int, sib: Seq<char>) -> bool {
    sib.len() > 0 && matches_at(s, start, sib) && (start == 0 || !is_word_char(s[start - 1]))
}

/// The sibling that matches at `start`: the longest in UTF-8 bytes, the first among equals.
pub open spec fn best_sibling(s: Seq<char>, start: int, sibs: Seq<Seq<char>>) -> Option<int>
    decreases sibs.len(),
{
    if sibs.len() == 0 {
        None
    } else {
        let b = best_sibling(s, start, sibs.drop_last());
        let k = sibs.len() - 1;
        if sibling_at(s, start, sibs[k]) && (b is None || (encode_utf8(sibs[k]).len() as usize) > (encode_utf8(
            sibs[b->0]).len() as usize)) {
            Some(k)
        } else {
            b
        }
    }
}

pub proof fn lemma_best_sibling(s: Seq<char>, start: int, sibs: Seq<Seq<char>>)
    ensures
        best_sibling(s, start, sibs) matches Some(k) ==> 0 <= k < sibs.len() && sibling_at(s, start, sibs[k]),
    decreases sibs.len(),
{
    if sibs.len() > 0 {
        lemma_best_sibling(s, start, sibs.drop_last());
    }
}

/// The output of rewriting line `s` from position `i` on, with `out` produced so far.
pub open spec fn rewrite_from(s: Seq<char>, i: int, out: Seq<char>, sibs: Seq<Seq<char>>) -> Seq<char>
    decreases s.len() - i,
{
    if i < 0 || i >= s.len() {
        out
    } else {
        let ws = crate::heredoc::skip_blanks(s, i);
        let m = best_sibling(s, ws, sibs);
        proof {
            crate::heredoc::lemma_skip_blanks(s, i);
            lemma_best_sibling(s, ws, sibs);
        }
        if command_position(out) && m is Some && (ws + sibs[m->0].len() >= s.len() || !is_word_char(
            s[ws + sibs[m->0].len()])) {
            rewrite_from(s, ws + sibs[m->0].len(), out + s.subrange(i, ws) + sanitised(sibs[m->0]), sibs)
        } else if i + 1 < s.len() && ((s[i] == '&' && s[i + 1] == '&') || (s[i] == '|' && s[i + 1] == '|')) {
            rewrite_from(s, i + 2, out + seq![s[i], s[i + 1]], sibs)
        } else {
            rewrite_from(s, i + 1, out.push(s[i]), sibs)
        }
    }
}

/// One line with sibling calls in command position replaced by their sanitised names.
pub open spec fn rewritten_line(s: Seq<char>, sibs: Seq<Seq<char>>) -> Seq<char> {
    rewrite_from(s, 0, Seq::empty(), sibs)
}

/// The names that contain `:`.
pub open spec fn colon_names(sibs: Seq<Seq<char>>) -> Seq<Seq<char>>
    decreases sibs.len(),
{
    if sibs.len() == 0 {
        Seq::empty()
    } else if has_char(sibs.last(), ':') {
        colon_names(sibs.drop_last()).push(sibs.last())
    } else {
        colon_names(sibs.drop_last())
    }
}

/// The body with the calls of colon-named siblings rewritten, line by line; the body is
/// returned unchanged when no sibling name has a colon.
pub open spec fn rewritten_body(body: Seq<char>, sibs: Seq<Seq<char>>) -> Seq<char> {
    let cs = colon_names(sibs);
    if cs.len() == 0 {
        body
    } else {
        let ls = lines(body);
        join(Seq::new(ls.len(), |k: int| rewritten_line(ls[k], cs)), "\n"@)
    }
}

/// The index of the sibling that matches at `start` (see `best_sibling`).
fn best_sibling_exec(s: &[char], start: usize, sibs: &[&str], sib_chars: &Vec<Vec<char>>) -> (r: Option<usize>)
    requires
        sib_chars@.len() == sibs@.len(),
        forall|k: int| 0 <= k < sibs@.len() ==> sib_chars@[k]@ == sibs@[k]@,
    ensures
        r matches Some(k) ==> (k as int) < sibs@.len() && best_sibling(s@, start as int, sibs@.map_values(|x: &str| x@)) == Some(k as int),
        r is None ==> best_sibling(s@, start as int, sibs@.map_values(|x: &str| x@)) is None,
{
    let ghost sv = sibs@.map_values(|x: &str| x@);
    let mut best: Option<usize> = None;
    let mut k: usize = 0;
    while k < sibs.len()
        invariant
            k <= sibs@.len(),
            sv == sibs@.map_values(|x: &str| x@),
            sib_chars@.len() == sibs@.len(),
            forall|m: int| 0 <= m < sibs@.len() ==> sib_chars@[m]@ == sibs@[m]@,
            best matches Some(b) ==> (b as int) < k && best_sibling(s@, start as int, sv.take(k as int)) == Some(b as int),
            best is None ==> best_sibling(s@, start as int, sv.take(k as int)) is None,
        decreases sibs@.len() - k,
    {
        assert(sv.take(k + 1).drop_last() =~= sv.take(k as int));
        proof { lemma_best_sibling(s@, start as int, sv.take(k as int)); }
        let sc = &sib_chars[k];
        let ok = sc.len() > 0 && matches_at_exec(s, start, sc.as_slice()) && (start == 0 || !word_char(s[start - 1]));
        let longer = match best {
            None => true,
            Some(b) => sibs[k].len() > sibs[b].len(),
        };
        if ok && longer {
            best = Some(k);
        }
        k = k + 1;
    }
    assert(sv.take(k as int) =~= sv);
    best
}

/// Rewrite the sibling calls in command position within one line.
fn rewrite_line(line: &[char], sibs: &[&str], sib_chars: &Vec<Vec<char>>) -> (r: Vec<char>)
    requires
        sib_chars@.len() == sibs@.len(),
        forall|k: int| 0 <= k < sibs@.len() ==> sib_chars@[k]@ == sibs@[k]@,
    ensures
        r@ == rewritten_line(line@, sibs@.map_values(|x: &str| x@)),
{
    let ghost sv = sibs@.map_values(|x: &str| x@);
    let s = line;
    let len = s.len();
    let mut out: Vec<char> = Vec::new();
    let mut i: usize = 0;
    while i < len
        invariant
            len == s@.len(),
            sv == sibs@.map_values(|x: &str| x@),
            sib_chars@.len() == sibs@.len(),
            forall|m: int| 0 <= m < sibs@.len() ==> sib_chars@[m]@ == sibs@[m]@,
            rewrite_from(s@, i as int, out@, sv) == rewritten_line(s@, sv),
        decreases len - i,
    {
        let ghost gi = i as int;
        let ghost old_out = out@;
        let mut ws = i;
        proof { crate::heredoc::lemma_skip_blanks(s@, gi); }
        while ws < len && (s[ws] == ' ' || s[ws] == '\t')
            invariant
                len == s@.len(),
                gi <= ws <= len,
                crate::heredoc::skip_blanks(s@, ws as int) == crate::heredoc::skip_blanks(s@, gi),
            decreases len - ws,
        {
            ws = ws + 1;
        }
        assert(crate::heredoc::skip_blanks(s@, ws as int) == ws as int);
        let m = best_sibling_exec(s, ws, sibs, sib_chars);
        proof { lemma_best_sibling(s@, ws as int, sv); }
        let ghost gm = best_sibling(s@, ws as int, sv);
        let cp = command_position_exec(&out);
        let mut done = false;
        if cp {
            if let Some(k) = m {
                assert(sv[k as int] == sib_chars@[k as int]@);
                assert(sibling_at(s@, ws as int, sv[k as int]));
                let end = ws + sib_chars[k].len();
                if end >= len || !word_char(s[end]) {
                    let pre = copy_range(s, i, ws);
                    push_all(&mut out, pre.as_slice());
                    let san = sanitise_chars(sib_chars[k].as_slice());
                    push_all(&mut out, san.as_slice());
                    assert(out@ =~= old_out + s@.subrange(gi, ws as int) + sanitised(sv[k as int]));
                    assert(rewrite_from(s@, gi, old_out, sv) == rewrite_from(s@, end as int, out@, sv));
                    i = end;
                    done = true;
                }
            }
        }
        if !done {
            assert(!(command_position(old_out) && gm is Some && (ws + sv[gm->0].len() >= s@.len() || !is_word_char(s@[ws + sv[gm->0].len()]))));
            if i + 1 < len && ((s[i] == '&' && s[i + 1] == '&') || (s[i] == '|' && s[i + 1] == '|')) {
                out.push(s[i]);
                out.push(s[i + 1]);
                assert(out@ =~= old_out + seq![s@[gi], s@[gi + 1]]);
                assert(rewrite_from(s@, gi, old_out, sv) == rewrite_from(s@, gi + 2, out@, sv));
                i = i + 2;
            } else {
                out.push(s[i]);
                assert(rewrite_from(s@, gi, old_out, sv) == rewrite_from(s@, gi + 1, out@, sv));
                i = i + 1;
            }
        }
    }
    out
}

fn command_position_exec(out: &Vec<char>) -> (b: bool)
    ensures
        b == command_position(out@),
{
    let t = crate::text::rtrim_chars(out.as_slice());
    if t.len() == 0 {
        true
    } else {
        let c = t[t.len() - 1];
        c == '&' || c == '|' || c == ';' || c == '('
    }
}

/// Rewrite call sites in a function body to use sanitised names: a sibling whose name
/// contains `:` is replaced where it stands in command position (start of a line after
/// blanks, or after `&&`, `||`, `;`, `|`, `(`) as a whole word. Names used as arguments
/// are left untouched.
pub fn rewrite_call_sites(body: &str, sibling_names: &[&str]) -> (r: String)
    ensures
        r@ == rewritten_body(body@, sibling_names@.map_values(|x: &str| x@)),
{
    let ghost sv = sibling_names@.map_values(|x: &str| x@);
    let mut colon: Vec<&str> = Vec::new();
    let mut colon_chars: Vec<Vec<char>> = Vec::new();
    let mut k: usize = 0;
    while k < sibling_names.len()
        invariant
            k <= sibling_names@.len(),
            sv == sibling_names@.map_values(|x: &str| x@),
            colon@.map_values(|x: &str| x@) == colon_names(sv.take(k as int)),
            colon_chars@.len() == colon@.len(),
            forall|m: int| 0 <= m < colon@.len() ==> colon_chars@[m]@ == colon@[m]@,
        decreases sibling_names@.len() - k,
    {
        assert(sv.take(k + 1).drop_last() =~= sv.take(k as int));
        let cs = to_chars(sibling_names[k]);
        if has_char_exec(cs.as_slice(), ':') {
            let ghost before = colon@;
            colon.push(sibling_names[k]);
            colon_chars.push(cs);
            assert(colon@.map_values(|x: &str| x@) =~= before.map_values(|x: &str| x@).push(sv[k as int]));
        }
        k = k + 1;
    }
    assert(sv.take(k as int) =~= sv);
    let b = to_chars(body);
    if colon.len() == 0 {
        return from_chars(b.as_slice());
    }
    let ghost cv = colon@.map_values(|x: &str| x@);
    let ls = lines_of(b.as_slice());
    let mut out: Vec<Vec<char>> = Vec::new();
    let mut i: usize = 0;
    while i < ls.len()
        invariant
            i <= ls@.len(),
            cv == colon@.map_values(|x: &str| x@),
            colon_chars@.len() == colon@.len(),
            forall|m: int| 0 <= m < colon@.len() ==> colon_chars@[m]@ == colon@[m]@,
            views(ls@) == lines(b@),
            views(out@) == Seq::new(i as nat, |j: int| rewritten_line(views(ls@)[j], cv)),
        decreases ls@.len() - i,
    {
        let l = rewrite_line(ls[i].as_slice(), colon.as_slice(), &colon_chars);
        let ghost before = views(out@);
        out.push(l);
        assert(views(out@) =~= before.push(l@));
        assert(views(out@) =~= Seq::new((i + 1) as nat, |j: int| rewritten_line(views(ls@)[j], cv)));
        i = i + 1;
    }
    let nl = to_chars("\n");
    let r = join_chars(&out, nl.as_slice());
    from_chars(r.as_slice())
}

} // verus!
