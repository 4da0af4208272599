//! Argument and variable substitution in command templates.
use vstd::prelude::*;
use crate::ast::Parameter;
use crate::table::Table;
use crate::text::{
    contains, contains_exec, decimal, digit_char, has_char, lemma_replace_all_char, matches_at, find_first, first_match, starts_with, from_chars, join, join_chars, lemma_first_match,
    push_all, push_str, replace_all, replace_chars, string_views, to_chars, u128_to_chars, views,
};

verus! {

/// A character that needs no quoting in a shell word.
pub open spec fn shell_safe(c: char) -> bool {
    ('a' <= c && c <= 'z') || ('A' <= c && c <= 'Z') || ('0' <= c && c <= '9') || c == '-' || c == '_'
        || c == '.' || c == '/' || c == ':' || c == '=' || c == '+' || c == '@' || c == '%' || c == ','
}

/// One argument as a shell word: `''` when empty, unchanged when every character is
/// safe, otherwise single-quoted with each `'` written `'\''`.
pub open spec fn quoted_arg(a: Seq<char>) -> Seq<char> {
    if a.len() == 0 {
        "''"@
    } else if forall|i: int| 0 <= i < a.len() ==> shell_safe(#[trigger] a[i]) {
        a
    } else {
        "'"@ + replace_all(a, "'"@, "'\\''"@) + "'"@
    }
}

/// The arguments as shell words separated by single spaces.
pub open spec fn shell_quoted(args: Seq<Seq<char>>) -> Seq<char> {
    join(args.map_values(|a: Seq<char>| quoted_arg(a)), " "@)
}

/// `c` followed by the value read, if any.
pub open spec fn prepend(c: char, r: Option<Seq<char>>) -> Option<Seq<char>> {
    match r {
        Some(v) => Some(seq![c] + v),
        None => None,
    }
}

/// The value a POSIX shell reads from a word made of safe characters, single-quoted
/// parts and backslash escapes (`inside` when within single quotes); `None` for a word
/// with anything else or with an unclosed quote.
pub open spec fn shell_word_value(w: Seq<char>, inside: bool) -> Option<Seq<char>>
    decreases w.len(),
{
    if w.len() == 0 {
        if inside {
            None
        } else {
            Some(Seq::empty())
        }
    } else if inside {
        if w[0] == '\'' {
            shell_word_value(w.drop_first(), false)
        } else {
            prepend(w[0], shell_word_value(w.drop_first(), true))
        }
    } else if w[0] == '\'' {
        shell_word_value(w.drop_first(), true)
    } else if w[0] == '\\' {
        if w.len() >= 2 {
            prepend(w[1], shell_word_value(w.skip(2), false))
        } else {
            None
        }
    } else if shell_safe(w[0]) {
        prepend(w[0], shell_word_value(w.drop_first(), false))
    } else {
        None
    }
}

proof fn lemma_safe_word_value(a: Seq<char>)
    requires
        forall|i: int| 0 <= i < a.len() ==> shell_safe(#[trigger] a[i]),
    ensures
        shell_word_value(a, false) == Some(a),
    decreases a.len(),
{
    if a.len() > 0 {
        assert forall|i: int| 0 <= i < a.drop_first().len() implies shell_safe(#[trigger] a.drop_first()[i]) by {
            assert(a.drop_first()[i] == a[i + 1]);
        }
        lemma_safe_word_value(a.drop_first());
        assert(shell_safe(a[0]));
        assert(seq![a[0]] + a.drop_first() =~= a);
    }
}

/// `a` in front of the value read, if any.
pub open spec fn prefixed(a: Seq<char>, r: Option<Seq<char>>) -> Option<Seq<char>> {
    match r {
        Some(v) => Some(a + v),
        None => None,
    }
}

proof fn lemma_escaped_value(a: Seq<char>, t: Seq<char>)
    ensures
        shell_word_value(replace_all(a, seq!['\''], seq!['\'', '\\', '\'', '\'']) + t, true)
            == prefixed(a, shell_word_value(t, true)),
    decreases a.len(),
{
    let e = seq!['\'', '\\', '\'', '\''];
    let q = seq!['\''];
    if a.len() == 0 {
        assert(replace_all(a, q, e) == Seq::<char>::empty());
        assert(replace_all(a, q, e) + t =~= t);
        assert(forall|v: Seq<char>| a + v =~= v);
    } else {
        let rest = a.drop_first();
        lemma_escaped_value(rest, t);
        let x = replace_all(rest, q, e) + t;
        if a[0] == '\'' {
            assert(a.subrange(0, 1) =~= q);
            assert(starts_with(a, q));
            assert(a.skip(1) =~= rest);
            assert(replace_all(a, q, e) == e + replace_all(rest, q, e));
            let w = e + x;
            assert(replace_all(a, q, e) + t =~= w);
            let w1 = w.drop_first();
            assert(w1 =~= seq!['\\', '\'', '\''] + x);
            assert(w[0] == '\'');
            assert(shell_word_value(w, true) == shell_word_value(w1, false));
            assert(w1[0] == '\\' && w1[1] == '\'' && w1.len() >= 2);
            assert(shell_word_value(w1, false) == prepend('\'', shell_word_value(w1.skip(2), false)));
            let w2 = w1.skip(2);
            assert(w2 =~= q + x);
            assert(w2[0] == '\'');
            assert(w2.drop_first() =~= x);
            assert(shell_word_value(w2, false) == shell_word_value(x, true));
            assert(forall|v: Seq<char>| seq!['\''] + (rest + v) =~= a + v);
        } else {
            assert(!starts_with(a, q)) by {
                if starts_with(a, q) {
                    assert(a.subrange(0, 1)[0] == a[0]);
                }
            }
            assert(replace_all(a, q, e) == seq![a[0]] + replace_all(rest, q, e));
            let w = seq![a[0]] + x;
            assert(replace_all(a, q, e) + t =~= w);
            assert(w.drop_first() =~= x);
            assert(w[0] == a[0]);
            assert(shell_word_value(w, true) == prepend(a[0], shell_word_value(x, true)));
            assert(forall|v: Seq<char>| seq![a[0]] + (rest + v) =~= a + v);
        }
    }
}

/// A quoted argument is one shell word, which the shell reads back as the argument.
pub proof fn lemma_quoted_arg_reads_back(a: Seq<char>)
    ensures
        shell_word_value(quoted_arg(a), false) == Some(a),
{
    reveal_strlit("''");
    reveal_strlit("'");
    reveal_strlit("'\\''");
    let q = seq!['\''];
    let empty = Seq::<char>::empty();
    assert(q.drop_first() =~= empty);
    assert(shell_word_value(empty, false) == Some(empty));
    assert(shell_word_value(q, true) == shell_word_value(q.drop_first(), false));
    assert(shell_word_value(q, true) == Some(empty));
    if a.len() == 0 {
        let w = "''"@;
        assert(w =~= seq!['\'', '\'']);
        assert(w.drop_first() =~= q);
        assert(shell_word_value(w, false) == shell_word_value(w.drop_first(), true));
        assert(a =~= empty);
    } else if forall|i: int| 0 <= i < a.len() ==> shell_safe(#[trigger] a[i]) {
        lemma_safe_word_value(a);
    } else {
        let e = seq!['\'', '\\', '\'', '\''];
        assert("'"@ =~= q);
        assert("'\\''"@ =~= e);
        let r = replace_all(a, q, e);
        lemma_escaped_value(a, q);
        assert(a + empty =~= a);
        let w = q + r + q;
        assert(quoted_arg(a) =~= w);
        assert(w[0] == '\'');
        assert(w.drop_first() =~= r + q);
        assert(shell_word_value(w, false) == shell_word_value(w.drop_first(), true));
    }
}

fn is_shell_safe(c: char) -> (b: bool)
    ensures
        b == shell_safe(c),
{
    ('a' <= c && c <= 'z') || ('A' <= c && c <= 'Z') || ('0' <= c && c <= '9') || c == '-' || c == '_'
        || c == '.' || c == '/' || c == ':' || c == '=' || c == '+' || c == '@' || c == '%' || c == ','
}

fn quote_arg(a: &str) -> (r: Vec<char>)
    ensures
        r@ == quoted_arg(a@),
{
    let cs = to_chars(a);
    if cs.len() == 0 {
        return to_chars("''");
    }
    let mut i: usize = 0;
    while i < cs.len()
        invariant
            i <= cs@.len(),
            cs@ == a@,
            forall|j: int| 0 <= j < i ==> shell_safe(#[trigger] cs@[j]),
        decreases cs@.len() - i,
    {
        if !is_shell_safe(cs[i]) {
            assert(!shell_safe(cs@[i as int]));
            let mut out = to_chars("'");
            let e = replace_chars(cs.as_slice(), to_chars("'").as_slice(), to_chars("'\\''").as_slice());
            push_all(&mut out, e.as_slice());
            push_str(&mut out, "'");
            return out;
        }
        i = i + 1;
    }
    cs
}

/// Shell-quotes arguments so that each stays one word when pasted into a command.
pub fn shell_quote_args(args: &[String]) -> (r: String)
    ensures
        r@ == shell_quoted(string_views(args@)),
{
    let ghost qs = string_views(args@).map_values(|a: Seq<char>| quoted_arg(a));
    let mut parts: Vec<Vec<char>> = Vec::new();
    let mut i: usize = 0;
    while i < args.len()
        invariant
            i <= args@.len(),
            qs == string_views(args@).map_values(|a: Seq<char>| quoted_arg(a)),
            views(parts@) == qs.take(i as int),
        decreases args@.len() - i,
    {
        let q = quote_arg(args[i].as_str());
        let ghost before = views(parts@);
        parts.push(q);
        assert(views(parts@) =~= before.push(qs[i as int]));
        assert(qs.take(i + 1) =~= qs.take(i as int).push(qs[i as int]));
        i = i + 1;
    }
    assert(qs.take(i as int) =~= qs);
    let r = join_chars(&parts, to_chars(" ").as_slice());
    from_chars(r.as_slice())
}

/// Expansion of `${N:-default}` (with `pat` = `${N:-`) from position `from` on: each
/// occurrence up to the next `}` is replaced by the argument when there is one, else by
/// its default. After a default, scanning resumes where the occurrence began (so nested
/// defaults expand); after an argument it resumes behind the inserted argument. An
/// occurrence without a closing `}` ends the expansion.
pub open spec fn expand_defaults(s: Seq<char>, from: int, pat: Seq<char>, arg: Option<Seq<char>>) -> Seq<char>
    decreases s.len() - from,
{
    if from < 0 || pat.len() == 0 {
        s
    } else {
        match first_match(s, pat, from) {
            None => s,
            Some(start) => match first_match(s, "}"@, start + pat.len()) {
                None => s,
                Some(end) => {
                    let rep = match arg {
                        Some(a) => a,
                        None => s.subrange(start + pat.len(), end),
                    };
                    let ns = s.subrange(0, start) + rep + s.skip(end + 1);
                    proof {
                        lemma_first_match(s, pat, from);
                        lemma_first_match(s, "}"@, start + pat.len());
                        reveal_strlit("}");
                    }
                    expand_defaults(ns, if arg is Some { start + rep.len() } else { start }, pat, arg)
                },
            },
        }
    }
}

/// The argument at `k`, if given.
pub open spec fn arg_at(args: Seq<Seq<char>>, k: int) -> Option<Seq<char>> {
    if 0 <= k < args.len() { Some(args[k]) } else { None }
}

/// `${N:-default}` and then `${N}` handled for N = 1 ..= n.
pub open spec fn braced_pass(s: Seq<char>, args: Seq<Seq<char>>, n: nat) -> Seq<char>
    decreases n,
{
    if n == 0 {
        s
    } else {
        let prev = braced_pass(s, args, (n - 1) as nat);
        let d = decimal(n);
        let e = expand_defaults(prev, 0, "${"@ + d + ":-"@, arg_at(args, n - 1));
        replace_all(
            e,
            "${"@ + d + "}"@,
            match arg_at(args, n - 1) {
                Some(a) => a,
                None => Seq::empty(),
            },
        )
    }
}

/// `$1`, `$2`, ... replaced by the first `n` arguments, in order.
pub open spec fn positional_pass(s: Seq<char>, args: Seq<Seq<char>>, n: nat) -> Seq<char>
    decreases n,
{
    if n == 0 {
        s
    } else {
        replace_all(positional_pass(s, args, (n - 1) as nat), "$"@ + decimal(n), args[n - 1])
    }
}

/// `"$@"`, then `$@`, replaced by all arguments shell-quoted, when `$@` occurs.
pub open spec fn all_args_pass(s: Seq<char>, args: Seq<Seq<char>>) -> Seq<char> {
    if contains(s, "$@"@) {
        replace_all(replace_all(s, "\"$@\""@, shell_quoted(args)), "$@"@, shell_quoted(args))
    } else {
        s
    }
}

/// `$NAME` replaced by the value of each of the first `n` variables, in table order.
pub open spec fn variables_pass(s: Seq<char>, vars: Seq<(String, String)>, n: nat) -> Seq<char>
    decreases n,
{
    if n == 0 || n > vars.len() {
        s
    } else {
        replace_all(variables_pass(s, vars, (n - 1) as nat), "$"@ + vars[n - 1].0@, vars[n - 1].1@)
    }
}

/// A template with positional arguments and variables substituted: first `${N:-default}`
/// and `${N}` for N up to 9, then `$N` for each argument, then `$@`, then `$NAME` for each
/// variable.
pub open spec fn substituted(template: Seq<char>, args: Seq<Seq<char>>, vars: Seq<(String, String)>) -> Seq<char> {
    variables_pass(
        all_args_pass(positional_pass(braced_pass(template, args, 10), args, args.len()), args),
        vars,
        vars.len(),
    )
}

fn expand_defaults_exec(s: Vec<char>, pat: &[char], arg: Option<&str>) -> (r: Vec<char>)
    ensures
        r@ == expand_defaults(
            s@,
            0,
            pat@,
            match arg {
                Some(a) => Some(a@),
                None => None,
            },
        ),
{
    let ghost ga = match arg {
        Some(a) => Some(a@),
        None => None::<Seq<char>>,
    };
    if pat.len() == 0 {
        return s;
    }
    let mut cur = s;
    let mut from: usize = 0;
    let close = to_chars("}");
    proof { reveal_strlit("}"); }
    loop
        invariant
            from <= cur@.len(),
            pat@.len() > 0,
            close@ == "}"@,
            ga == match arg {
                Some(a) => Some(a@),
                None => None::<Seq<char>>,
            },
            expand_defaults(cur@, from as int, pat@, ga) == expand_defaults(s@, 0, pat@, ga),
        decreases cur@.len() - from,
    {
        proof { lemma_first_match(cur@, pat@, from as int); }
        let start = match find_first(cur.as_slice(), pat, from) {
            Some(i) => i,
            None => return cur,
        };
        assert(matches_at(cur@, start as int, pat@));
        assert(cur@.len() == cur.len());
        proof {
            lemma_first_match(cur@, "}"@, start + pat@.len());
            reveal_strlit("}");
        }
        let end = match find_first(cur.as_slice(), close.as_slice(), start + pat.len()) {
            Some(e) => e,
            None => return cur,
        };
        assert(matches_at(cur@, end as int, "}"@));
        assert(start + pat@.len() <= end && end + 1 <= cur@.len());
        let mut next = crate::text::copy_range(cur.as_slice(), 0, start);
        let ghost rep: Seq<char>;
        let next_from: usize;
        match arg {
            Some(a) => {
                push_str(&mut next, a);
                proof { rep = a@; }
                next_from = next.len();
            },
            None => {
                let d = crate::text::copy_range(cur.as_slice(), start + pat.len(), end);
                push_all(&mut next, d.as_slice());
                proof { rep = d@; }
                next_from = start;
            },
        }
        let tail = crate::text::copy_range(cur.as_slice(), end + 1, cur.len());
        push_all(&mut next, tail.as_slice());
        assert(tail@ =~= cur@.skip(end + 1));
        assert(next@ =~= cur@.subrange(0, start as int) + rep + cur@.skip(end + 1));
        cur = next;
        from = next_from;
    }
}

/// Substitutes arguments and variables into a template (see `substituted`).
pub fn substitute(template: &str, args: &[String], variables: &Table<String>) -> (r: String)
    ensures
        r@ == substituted(template@, string_views(args@), variables.entries@),
{
    let ghost av = string_views(args@);
    let mut cur = to_chars(template);
    let mut n: usize = 1;
    while n <= 10
        invariant
            1 <= n <= 11,
            av == string_views(args@),
            cur@ == braced_pass(template@, av, (n - 1) as nat),
        decreases 11 - n,
    {
        let d = u128_to_chars(n as u128);
        let mut pat = to_chars("${");
        push_all(&mut pat, d.as_slice());
        push_str(&mut pat, ":-");
        let arg: Option<&str> = if n - 1 < args.len() { Some(args[n - 1].as_str()) } else { None };
        let e = expand_defaults_exec(cur, pat.as_slice(), arg);
        let mut braced = to_chars("${");
        push_all(&mut braced, d.as_slice());
        push_str(&mut braced, "}");
        let rep: Vec<char> = if n - 1 < args.len() { to_chars(args[n - 1].as_str()) } else { Vec::new() };
        cur = replace_chars(e.as_slice(), braced.as_slice(), rep.as_slice());
        n = n + 1;
    }
    let mut i: usize = 0;
    while i < args.len()
        invariant
            i <= args@.len(),
            av == string_views(args@),
            cur@ == positional_pass(braced_pass(template@, av, 10), av, i as nat),
        decreases args@.len() - i,
    {
        let mut pat = to_chars("$");
        let d = u128_to_chars((i + 1) as u128);
        push_all(&mut pat, d.as_slice());
        let a = to_chars(args[i].as_str());
        cur = replace_chars(cur.as_slice(), pat.as_slice(), a.as_slice());
        i = i + 1;
    }
    if contains_exec(cur.as_slice(), to_chars("$@").as_slice()) {
        let q = shell_quote_args(args);
        let qc = to_chars(q.as_str());
        let a = replace_chars(cur.as_slice(), to_chars("\"$@\"").as_slice(), qc.as_slice());
        cur = replace_chars(a.as_slice(), to_chars("$@").as_slice(), qc.as_slice());
    }
    let ghost after_args = cur@;
    let mut k: usize = 0;
    while k < variables.entries.len()
        invariant
            k <= variables.entries@.len(),
            cur@ == variables_pass(after_args, variables.entries@, k as nat),
        decreases variables.entries@.len() - k,
    {
        let mut pat = to_chars("$");
        push_str(&mut pat, variables.entries[k].0.as_str());
        let v = to_chars(variables.entries[k].1.as_str());
        cur = replace_chars(cur.as_slice(), pat.as_slice(), v.as_slice());
        k = k + 1;
    }
    from_chars(cur.as_slice())
}

/// The arguments from position `i` on.
pub(crate) fn tail_from(args: &[String], i: usize) -> (r: Vec<String>)
    requires
        i <= args@.len(),
    ensures
        string_views(r@) == string_views(args@).skip(i as int),
{
    let mut r: Vec<String> = Vec::new();
    let mut j = i;
    while j < args.len()
        invariant
            i <= j <= args@.len(),
            string_views(r@) == string_views(args@).subrange(i as int, j as int),
        decreases args@.len() - j,
    {
        let ghost before = string_views(r@);
        r.push(args[j].clone());
        assert(string_views(r@) =~= before.push(args@[j as int]@));
        assert(string_views(args@).subrange(i as int, j + 1) =~= string_views(args@).subrange(i as int, j as int).push(args@[j as int]@));
        j = j + 1;
    }
    assert(string_views(args@).subrange(i as int, j as int) =~= string_views(args@).skip(i as int));
    r
}

/// The value a named parameter takes: its argument, else its default, else empty.
pub open spec fn param_value(p: Parameter, args: Seq<Seq<char>>, i: int) -> Seq<char> {
    if i < args.len() {
        args[i]
    } else {
        match p.default_value {
            Some(d) => d@,
            None => Seq::empty(),
        }
    }
}

/// Substitution of the first `n` declared parameters: a rest parameter takes the
/// remaining arguments shell-quoted, for `$name`, `${name}`, `"$@"` and `$@`; another
/// parameter takes its value (see `param_value`) for `$name`, `${name}` and `$N`.
pub open spec fn params_pass(s: Seq<char>, args: Seq<Seq<char>>, ps: Seq<Parameter>, n: nat) -> Seq<char>
    decreases n,
{
    if n == 0 || n > ps.len() {
        s
    } else {
        let r = params_pass(s, args, ps, (n - 1) as nat);
        let i = n - 1;
        let p = ps[i];
        if p.is_rest {
            let rest = if i < args.len() { shell_quoted(args.skip(i)) } else { Seq::empty() };
            replace_all(
                replace_all(replace_all(replace_all(r, "$"@ + p.name@, rest), "${"@ + p.name@ + "}"@, rest), "\"$@\""@, rest),
                "$@"@,
                rest,
            )
        } else {
            let v = param_value(p, args, i);
            replace_all(
                replace_all(replace_all(r, "$"@ + p.name@, v), "${"@ + p.name@ + "}"@, v),
                "$"@ + decimal(n),
                v,
            )
        }
    }
}

/// Substitution by declared parameters when there are any, else positional substitution
/// with variables (see `substituted`).
pub open spec fn substituted_with_params(
    template: Seq<char>,
    args: Seq<Seq<char>>,
    ps: Seq<Parameter>,
    vars: Seq<(String, String)>,
) -> Seq<char> {
    if ps.len() == 0 {
        substituted(template, args, vars)
    } else {
        params_pass(template, args, ps, ps.len())
    }
}

/// Substitutes arguments by the declared parameters (see `substituted_with_params`).
pub fn substitute_with_params(
    template: &str,
    args: &[String],
    params: &[Parameter],
    variables: &Table<String>,
) -> (r: String)
    ensures
        r@ == substituted_with_params(template@, string_views(args@), params@, variables.entries@),
{
    if params.len() == 0 {
        return substitute(template, args, variables);
    }
    let ghost av = string_views(args@);
    let mut cur = to_chars(template);
    let mut i: usize = 0;
    while i < params.len()
        invariant
            i <= params@.len(),
            av == string_views(args@),
            cur@ == params_pass(template@, av, params@, i as nat),
        decreases params@.len() - i,
    {
        let p = &params[i];
        let mut dollar = to_chars("$");
        push_str(&mut dollar, p.name.as_str());
        let mut braced = to_chars("${");
        push_str(&mut braced, p.name.as_str());
        push_str(&mut braced, "}");
        if p.is_rest {
            let rest: Vec<char> = if i < args.len() {
                let tail = tail_from(args, i);
                let q = shell_quote_args(tail.as_slice());
                to_chars(q.as_str())
            } else {
                Vec::new()
            };
            let a = replace_chars(cur.as_slice(), dollar.as_slice(), rest.as_slice());
            let b = replace_chars(a.as_slice(), braced.as_slice(), rest.as_slice());
            let c = replace_chars(b.as_slice(), to_chars("\"$@\"").as_slice(), rest.as_slice());
            cur = replace_chars(c.as_slice(), to_chars("$@").as_slice(), rest.as_slice());
        } else {
            let v: Vec<char> = if i < args.len() {
                to_chars(args[i].as_str())
            } else {
                match &p.default_value {
                    Some(d) => to_chars(d.as_str()),
                    None => Vec::new(),
                }
            };
            let mut positional = to_chars("$");
            let d = u128_to_chars((i + 1) as u128);
            push_all(&mut positional, d.as_slice());
            let a = replace_chars(cur.as_slice(), dollar.as_slice(), v.as_slice());
            let b = replace_chars(a.as_slice(), braced.as_slice(), v.as_slice());
            cur = replace_chars(b.as_slice(), positional.as_slice(), v.as_slice());
        }
        i = i + 1;
    }
    from_chars(cur.as_slice())
}

/// A letter or `_`: the characters of a parameter name that substitution of earlier
/// parameters cannot touch.
pub open spec fn name_letter(c: char) -> bool {
    ('a' <= c && c <= 'z') || ('A' <= c && c <= 'Z') || c == '_'
}

proof fn lemma_replace_nomatch(s: Seq<char>, p: Seq<char>, t: Seq<char>)
    requires
        p.len() > 0,
        forall|k: int| !#[trigger] matches_at(s, k, p),
    ensures
        replace_all(s, p, t) == s,
    decreases s.len(),
{
    if s.len() > 0 {
        assert(!matches_at(s, 0, p));
        assert forall|k: int| !#[trigger] matches_at(s.drop_first(), k, p) by {
            if matches_at(s.drop_first(), k, p) {
                assert(s.subrange(k + 1, k + 1 + p.len()) =~= s.drop_first().subrange(k, k + p.len()));
                assert(matches_at(s, k + 1, p));
            }
        }
        lemma_replace_nomatch(s.drop_first(), p, t);
        assert(seq![s[0]] + s.drop_first() =~= s);
    }
}

proof fn lemma_no_dollar_nomatch(s: Seq<char>, p: Seq<char>, t: Seq<char>)
    requires
        p.len() > 0,
        p[0] == '$',
        !has_char(s, '$'),
    ensures
        replace_all(s, p, t) == s,
{
    assert forall|k: int| !#[trigger] matches_at(s, k, p) by {
        if matches_at(s, k, p) {
            assert(s.subrange(k, k + p.len())[0] == s[k]);
        }
    }
    lemma_replace_nomatch(s, p, t);
}

proof fn lemma_decimal_digit(n: nat)
    ensures
        decimal(n).len() > 0,
        '0' <= decimal(n)[0] && decimal(n)[0] <= '9',
    decreases n,
{
    if n >= 10 {
        lemma_decimal_digit(n / 10);
        assert((decimal(n / 10) + seq![digit_char(n % 10)])[0] == decimal(n / 10)[0]);
    }
}

/// `$` followed by a name of letters: a pattern that starts with `$` matches it only at
/// its start, and only when the rest of the pattern begins the name.
proof fn lemma_dollar_name_nomatch(r: Seq<char>, p: Seq<char>, t: Seq<char>)
    requires
        r.len() > 0,
        forall|j: int| 0 <= j < r.len() ==> name_letter(#[trigger] r[j]),
        p.len() > 0,
        p[0] == '$',
        !(p.len() <= r.len() + 1 && (seq!['$'] + r).subrange(0, p.len() as int) == p),
    ensures
        replace_all(seq!['$'] + r, p, t) == seq!['$'] + r,
{
    let s = seq!['$'] + r;
    assert forall|k: int| !#[trigger] matches_at(s, k, p) by {
        if matches_at(s, k, p) {
            assert(s.subrange(k, k + p.len())[0] == s[k]);
            if k > 0 {
                assert(s[k] == r[k - 1]);
                assert(name_letter(r[k - 1]));
            }
        }
    }
    lemma_replace_nomatch(s, p, t);
}

proof fn lemma_concat_no_char(a: Seq<char>, b: Seq<char>, c: char)
    requires
        !has_char(a, c),
        !has_char(b, c),
    ensures
        !has_char(a + b, c),
{
    if has_char(a + b, c) {
        let i = choose|i: int| 0 <= i < (a + b).len() && (a + b)[i] == c;
        if i < a.len() {
            assert(a[i] == c);
        } else {
            assert(b[i - a.len()] == c);
        }
    }
}

proof fn lemma_join_no_char(ps: Seq<Seq<char>>, sep: Seq<char>, c: char)
    requires
        !has_char(sep, c),
        forall|i: int| 0 <= i < ps.len() ==> !has_char(#[trigger] ps[i], c),
    ensures
        !has_char(join(ps, sep), c),
    decreases ps.len(),
{
    if ps.len() == 0 {
    } else if ps.len() == 1 {
        assert(!has_char(ps[0], c));
    } else {
        let init = ps.drop_last();
        assert forall|i: int| 0 <= i < init.len() implies !has_char(#[trigger] init[i], c) by {
            assert(init[i] == ps[i]);
        }
        lemma_join_no_char(init, sep, c);
        lemma_concat_no_char(join(init, sep), sep, c);
        assert(!has_char(ps[ps.len() - 1], c));
        lemma_concat_no_char(join(init, sep) + sep, ps.last(), c);
    }
}

proof fn lemma_quoted_no_dollar(args: Seq<Seq<char>>)
    requires
        forall|i: int| 0 <= i < args.len() ==> !has_char(#[trigger] args[i], '$'),
    ensures
        !has_char(shell_quoted(args), '$'),
{
    reveal_strlit("''");
    reveal_strlit("'");
    reveal_strlit("'\\''");
    reveal_strlit(" ");
    let qs = args.map_values(|a: Seq<char>| quoted_arg(a));
    assert forall|i: int| 0 <= i < qs.len() implies !has_char(#[trigger] qs[i], '$') by {
        let a = args[i];
        assert(qs[i] == quoted_arg(a));
        assert(!has_char(a, '$'));
        if a.len() == 0 {
            assert(!has_char("''"@, '$')) by {
                assert("''"@ =~= seq!['\'', '\'']);
            }
        } else if forall|k: int| 0 <= k < a.len() ==> shell_safe(#[trigger] a[k]) {
        } else {
            assert("'"@ =~= seq!['\'']);
            assert("'\\''"@ =~= seq!['\'', '\\', '\'', '\'']);
            assert(!has_char(seq!['\'', '\\', '\'', '\''], '$'));
            assert(!has_char(seq!['\''], '$'));
            lemma_replace_all_char(a, '\'', seq!['\'', '\\', '\'', '\''], '$');
            let m = replace_all(a, seq!['\''], seq!['\'', '\\', '\'', '\'']);
            lemma_concat_no_char(seq!['\''], m, '$');
            lemma_concat_no_char(seq!['\''] + m, seq!['\''], '$');
        }
    }
    assert(" "@ =~= seq![' ']);
    assert(!has_char(seq![' '], '$'));
    lemma_join_no_char(qs, " "@, '$');
}

proof fn lemma_earlier_params_untouched(r: Seq<char>, args: Seq<Seq<char>>, ps: Seq<Parameter>, n: nat)
    requires
        n <= ps.len(),
        r.len() > 0,
        forall|j: int| 0 <= j < r.len() ==> name_letter(#[trigger] r[j]),
        forall|j: int| 0 <= j < n ==> !(#[trigger] ps[j]).is_rest,
        forall|j: int| 0 <= j < n ==> !(#[trigger] ps[j]).name@.is_prefix_of(r),
    ensures
        params_pass(seq!['$'] + r, args, ps, n) == seq!['$'] + r,
    decreases n,
{
    reveal_strlit("$");
    reveal_strlit("${");
    reveal_strlit("}");
    if n > 0 {
        lemma_earlier_params_untouched(r, args, ps, (n - 1) as nat);
        let p = ps[n - 1];
        let v = param_value(p, args, n - 1);
        let t = seq!['$'] + r;
        assert(!p.is_rest);
        assert(!p.name@.is_prefix_of(r));
        assert("$"@ =~= seq!['$']);
        assert("${"@ =~= seq!['$', '{']);
        let p1 = "$"@ + p.name@;
        assert(!(p1.len() <= r.len() + 1 && t.subrange(0, p1.len() as int) == p1)) by {
            if p1.len() <= r.len() + 1 && t.subrange(0, p1.len() as int) == p1 {
                assert(r.subrange(0, p.name@.len() as int) =~= p.name@) by {
                    assert forall|k: int| 0 <= k < p.name@.len() implies r[k] == p.name@[k] by {
                        assert(t.subrange(0, p1.len() as int)[k + 1] == p1[k + 1]);
                    }
                }
                assert(p.name@.is_prefix_of(r));
            }
        }
        lemma_dollar_name_nomatch(r, p1, v);
        let p2 = "${"@ + p.name@ + "}"@;
        assert(!(p2.len() <= r.len() + 1 && t.subrange(0, p2.len() as int) == p2)) by {
            if p2.len() <= r.len() + 1 && t.subrange(0, p2.len() as int) == p2 {
                assert(t.subrange(0, p2.len() as int)[1] == p2[1]);
                assert(name_letter(r[0]));
            }
        }
        lemma_dollar_name_nomatch(r, p2, v);
        lemma_decimal_digit(n);
        let p3 = "$"@ + decimal(n);
        assert(!(p3.len() <= r.len() + 1 && t.subrange(0, p3.len() as int) == p3)) by {
            if p3.len() <= r.len() + 1 && t.subrange(0, p3.len() as int) == p3 {
                assert(t.subrange(0, p3.len() as int)[1] == p3[1]);
                assert(p3[1] == decimal(n)[0]);
                assert(name_letter(r[0]));
            }
        }
        lemma_dollar_name_nomatch(r, p3, v);
    }
}

/// A rest parameter takes the arguments from its own position on, shell-quoted, and none
/// of those bound to earlier parameters: for parameters `p0 ... p(i-1), ...rest` and at
/// least `i + 1` arguments, `$rest` becomes the quoted arguments `i..`. (The rest name is
/// made of letters and `_`, no earlier parameter name begins it, and no argument holds
/// `$`, so that no other substitution reaches the text.)
pub proof fn lemma_rest_takes_remaining_args(
    args: Seq<Seq<char>>,
    ps: Seq<Parameter>,
    vars: Seq<(String, String)>,
)
    requires
        ps.len() >= 1,
        ps[ps.len() - 1].is_rest,
        ps[ps.len() - 1].name@.len() > 0,
        forall|j: int| 0 <= j < ps[ps.len() - 1].name@.len() ==> name_letter(#[trigger] ps[ps.len() - 1].name@[j]),
        forall|j: int| 0 <= j < ps.len() - 1 ==> !(#[trigger] ps[j]).is_rest,
        forall|j: int| 0 <= j < ps.len() - 1 ==> !(#[trigger] ps[j]).name@.is_prefix_of(ps[ps.len() - 1].name@),
        ps.len() - 1 < args.len(),
        forall|k: int| 0 <= k < args.len() ==> !has_char(#[trigger] args[k], '$'),
    ensures
        substituted_with_params("$"@ + ps[ps.len() - 1].name@, args, ps, vars) == shell_quoted(args.skip(ps.len() - 1)),
{
    reveal_strlit("$");
    reveal_strlit("${");
    reveal_strlit("}");
    reveal_strlit("\"$@\"");
    reveal_strlit("$@");
    let i = ps.len() - 1;
    let p = ps[i];
    let r = p.name@;
    assert("$"@ =~= seq!['$']);
    let t = seq!['$'] + r;
    lemma_earlier_params_untouched(r, args, ps, i as nat);
    let q = shell_quoted(args.skip(i));
    assert forall|k: int| 0 <= k < args.skip(i).len() implies !has_char(#[trigger] args.skip(i)[k], '$') by {
        assert(args.skip(i)[k] == args[k + i]);
    }
    lemma_quoted_no_dollar(args.skip(i));
    // `$rest` is the whole text: it becomes the quoted arguments.
    assert(t.subrange(0, t.len() as int) =~= t);
    assert(starts_with(t, t));
    assert(t.skip(t.len() as int) =~= Seq::<char>::empty());
    assert(replace_all(Seq::<char>::empty(), t, q) == Seq::<char>::empty());
    assert(replace_all(t, t, q) == q + replace_all(t.skip(t.len() as int), t, q));
    assert(q + Seq::<char>::empty() =~= q);
    assert("${"@ =~= seq!['$', '{']);
    assert("\"$@\""@ =~= seq!['"', '$', '@', '"']);
    assert("$@"@ =~= seq!['$', '@']);
    lemma_no_dollar_nomatch(q, "${"@ + r + "}"@, q);
    lemma_no_dollar_nomatch(q, "$@"@, q);
    // `"$@"` starts with `"`, which the quoted text may hold, but then `$` follows.
    assert forall|k: int| !#[trigger] matches_at(q, k, "\"$@\""@) by {
        if matches_at(q, k, "\"$@\""@) {
            assert(q.subrange(k, k + 4)[1] == q[k + 1]);
        }
    }
    lemma_replace_nomatch(q, "\"$@\""@, q);
    assert(params_pass(t, args, ps, i as nat) == t);
}

} // verus!
