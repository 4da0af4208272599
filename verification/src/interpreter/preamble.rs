//! Preambles: the sibling functions and variables put in front of a function's body so
//! that it can call its siblings and read the Runfile's variables.
use vstd::prelude::*;
use crate::ast::{ArgType, Parameter};
use crate::interpreter::shell::{escape_pwsh_value, escape_shell_value, pwsh_escaped, shell_escaped};
use crate::interpreter::{
    attributes_of, meta_attrs, meta_shebang, resolve_function_interpreter, resolved_interpreter, shebang_of,
    FunctionMetadata,
};
use crate::table::{keys_of, Table};
use crate::text::{
    from_chars, has_char, has_char_exec, join, join_chars, push_all, push_str, replace_all, replace_chars,
    string_views, to_chars, u128_to_chars, views, decimal,
};
use crate::transpiler::{
    compatible, pwsh_function, rewrite_call_sites, rewritten_body, sanitise_chars, sanitised, shell_function,
    transpile_to_pwsh, transpile_to_shell, Interpreter,
};

verus! {

/// The interpreter of the simple function `name`.
pub open spec fn simple_interp(meta: Seq<(String, FunctionMetadata)>, name: Seq<char>, fallback: Interpreter) -> Interpreter {
    resolved_interpreter(meta_attrs(meta, name), None, fallback)
}

/// The interpreter of the block function `name`.
pub open spec fn block_interp(meta: Seq<(String, FunctionMetadata)>, name: Seq<char>, fallback: Interpreter) -> Interpreter {
    resolved_interpreter(meta_attrs(meta, name), meta_shebang(meta, name), fallback)
}

/// The names of `ks` that satisfy `keep`, in order.
pub open spec fn names_where(ks: Seq<Seq<char>>, keep: spec_fn(Seq<char>) -> bool) -> Seq<Seq<char>>
    decreases ks.len(),
{
    if ks.len() == 0 {
        Seq::empty()
    } else if keep(ks.last()) {
        names_where(ks.drop_last(), keep).push(ks.last())
    } else {
        names_where(ks.drop_last(), keep)
    }
}

/// A sibling of `target_name` is selected when its interpreter's compatibility with the
/// target is `want` and, if `colon_only`, its name holds a `:`.
pub open spec fn selected(
    name: Seq<char>,
    target_name: Seq<char>,
    target: Interpreter,
    interp: Interpreter,
    want: bool,
    colon_only: bool,
) -> bool {
    name != target_name && (!colon_only || has_char(name, ':')) && compatible(target, interp) == want
}

/// The selected siblings: first the simple functions, then the block functions not
/// already listed, each group in table order.
pub open spec fn sibling_names(
    target_name: Seq<char>,
    target: Interpreter,
    simple: Seq<(String, String)>,
    block: Seq<(String, Vec<String>)>,
    meta: Seq<(String, FunctionMetadata)>,
    fallback: Interpreter,
    want: bool,
    colon_only: bool,
) -> Seq<Seq<char>> {
    let s = names_where(
        keys_of(simple),
        |k: Seq<char>| selected(k, target_name, target, simple_interp(meta, k, fallback), want, colon_only),
    );
    s + names_where(
        keys_of(block),
        |k: Seq<char>|
            selected(k, target_name, target, block_interp(meta, k, fallback), want, colon_only)
                && !s.contains(k),
    )
}

/// The siblings whose code can be composed into the target's script.
pub open spec fn compatible_siblings(
    target_name: Seq<char>,
    target: Interpreter,
    simple: Seq<(String, String)>,
    block: Seq<(String, Vec<String>)>,
    meta: Seq<(String, FunctionMetadata)>,
    fallback: Interpreter,
) -> Seq<Seq<char>> {
    sibling_names(target_name, target, simple, block, meta, fallback, true, false)
}

/// The siblings with a `:` in their name whose code cannot be composed into the target's
/// script (they are reached through `run`).
pub open spec fn incompatible_colon_siblings(
    target_name: Seq<char>,
    target: Interpreter,
    simple: Seq<(String, String)>,
    block: Seq<(String, Vec<String>)>,
    meta: Seq<(String, FunctionMetadata)>,
    fallback: Interpreter,
) -> Seq<Seq<char>> {
    sibling_names(target_name, target, simple, block, meta, fallback, false, true)
}

/// Whether `name` is among `v`.
pub fn contains_name(v: &Vec<String>, name: &[char]) -> (b: bool)
    ensures
        b == string_views(v@).contains(name@),
{
    let mut i: usize = 0;
    while i < v.len()
        invariant
            i <= v@.len(),
            forall|j: int| 0 <= j < i ==> string_views(v@)[j] != name@,
        decreases v@.len() - i,
    {
        let c = to_chars(v[i].as_str());
        if crate::text::chars_eq(c.as_slice(), name) {
            assert(string_views(v@)[i as int] == name@);
            return true;
        }
        i = i + 1;
    }
    false
}

fn collect_siblings(
    target_name: &str,
    target: &Interpreter,
    simple_functions: &Table<String>,
    block_functions: &Table<Vec<String>>,
    function_metadata: &Table<FunctionMetadata>,
    fallback: Interpreter,
    want: bool,
    colon_only: bool,
) -> (r: Vec<String>)
    ensures
        string_views(r@) == sibling_names(
            target_name@,
            *target,
            simple_functions.entries@,
            block_functions.entries@,
            function_metadata.entries@,
            fallback,
            want,
            colon_only,
        ),
{
    let ghost meta = function_metadata.entries@;
    let tn = to_chars(target_name);
    let ghost ks = keys_of(simple_functions.entries@);
    let ghost keep_s = |k: Seq<char>| selected(k, target_name@, *target, simple_interp(meta, k, fallback), want, colon_only);
    let mut out: Vec<String> = Vec::new();
    let mut i: usize = 0;
    while i < simple_functions.entries.len()
        invariant
            i <= simple_functions.entries@.len(),
            ks == keys_of(simple_functions.entries@),
            meta == function_metadata.entries@,
            tn@ == target_name@,
            keep_s == (|k: Seq<char>| selected(k, target_name@, *target, simple_interp(meta, k, fallback), want, colon_only)),
            string_views(out@) == names_where(ks.take(i as int), keep_s),
        decreases simple_functions.entries@.len() - i,
    {
        let name = &simple_functions.entries[i].0;
        let nc = to_chars(name.as_str());
        assert(ks.take(i + 1).drop_last() =~= ks.take(i as int));
        assert(ks.take(i + 1).last() == nc@);
        let attrs = attributes_of(function_metadata, nc.as_slice());
        let fi = resolve_function_interpreter(attrs, None, fallback);
        let keep = !crate::text::chars_eq(nc.as_slice(), tn.as_slice()) && (!colon_only || has_char_exec(
            nc.as_slice(),
            ':',
        )) && target.is_compatible_with(&fi) == want;
        if keep {
            let ghost before = string_views(out@);
            out.push(name.clone());
            assert(string_views(out@) =~= before.push(nc@));
        }
        i = i + 1;
    }
    assert(ks.take(i as int) =~= ks);
    let ghost s = string_views(out@);
    let ghost kb = keys_of(block_functions.entries@);
    let ghost keep_b = |k: Seq<char>|
        selected(k, target_name@, *target, block_interp(meta, k, fallback), want, colon_only) && !s.contains(k);
    let n_simple = out.len();
    let mut j: usize = 0;
    assert(s.take(n_simple as int) =~= s);
    while j < block_functions.entries.len()
        invariant
            j <= block_functions.entries@.len(),
            n_simple <= out@.len(),
            kb == keys_of(block_functions.entries@),
            meta == function_metadata.entries@,
            tn@ == target_name@,
            string_views(out@).take(n_simple as int) == s,
            keep_b == (|k: Seq<char>|
                selected(k, target_name@, *target, block_interp(meta, k, fallback), want, colon_only) && !s.contains(k)),
            string_views(out@) == s + names_where(kb.take(j as int), keep_b),
        decreases block_functions.entries@.len() - j,
    {
        let name = &block_functions.entries[j].0;
        let nc = to_chars(name.as_str());
        assert(kb.take(j + 1).drop_last() =~= kb.take(j as int));
        assert(kb.take(j + 1).last() == nc@);
        let attrs = attributes_of(function_metadata, nc.as_slice());
        let sb = shebang_of(function_metadata, nc.as_slice());
        let fi = resolve_function_interpreter(attrs, sb, fallback);
        assert(fi == block_interp(meta, nc@, fallback));
        let mut in_simple = false;
        let mut m: usize = 0;
        while m < n_simple
            invariant
                m <= n_simple,
                n_simple <= out@.len(),
                string_views(out@).take(n_simple as int) == s,
                in_simple == s.take(m as int).contains(nc@),
            decreases n_simple - m,
        {
            let c = to_chars(out[m].as_str());
            assert(s.take(m + 1) =~= s.take(m as int).push(s[m as int]));
            assert(s[m as int] == string_views(out@)[m as int]);
            let eq = crate::text::chars_eq(c.as_slice(), nc.as_slice());
            proof {
                let t0 = s.take(m as int);
                let t1 = s.take(m + 1);
                if t0.contains(nc@) {
                    let w = choose|w: int| 0 <= w < t0.len() && t0[w] == nc@;
                    assert(t1[w] == nc@);
                }
                if eq {
                    assert(t1[m as int] == nc@);
                }
                if t1.contains(nc@) {
                    let w = choose|w: int| 0 <= w < t1.len() && t1[w] == nc@;
                    if w < m {
                        assert(t0[w] == nc@);
                    }
                }
            }
            if eq {
                in_simple = true;
            }
            m = m + 1;
        }
        assert(s.take(n_simple as int) =~= s);
        let keep = !crate::text::chars_eq(nc.as_slice(), tn.as_slice()) && (!colon_only || has_char_exec(
            nc.as_slice(),
            ':',
        )) && target.is_compatible_with(&fi) == want && !in_simple;
        if keep {
            let ghost before = string_views(out@);
            out.push(name.clone());
            assert(string_views(out@) =~= before.push(nc@));
            assert(string_views(out@).take(n_simple as int) =~= before.take(n_simple as int));
        }
        j = j + 1;
    }
    assert(kb.take(j as int) =~= kb);
    out
}

/// The sibling functions that can be composed into the target's script: simple functions
/// first, then block functions, skipping the target itself.
pub fn collect_compatible_siblings(
    target_name: &str,
    target_interpreter: &Interpreter,
    simple_functions: &Table<String>,
    block_functions: &Table<Vec<String>>,
    function_metadata: &Table<FunctionMetadata>,
    fallback: Interpreter,
) -> (r: Vec<String>)
    ensures
        string_views(r@) == compatible_siblings(
            target_name@,
            *target_interpreter,
            simple_functions.entries@,
            block_functions.entries@,
            function_metadata.entries@,
            fallback,
        ),
{
    collect_siblings(
        target_name,
        target_interpreter,
        simple_functions,
        block_functions,
        function_metadata,
        fallback,
        true,
        false,
    )
}

/// The siblings with a `:` in their name that cannot be composed into the target's
/// script.
pub fn collect_incompatible_colon_siblings(
    target_name: &str,
    target_interpreter: &Interpreter,
    simple_functions: &Table<String>,
    block_functions: &Table<Vec<String>>,
    function_metadata: &Table<FunctionMetadata>,
    fallback: Interpreter,
) -> (r: Vec<String>)
    ensures
        string_views(r@) == incompatible_colon_siblings(
            target_name@,
            *target_interpreter,
            simple_functions.entries@,
            block_functions.entries@,
            function_metadata.entries@,
            fallback,
        ),
{
    collect_siblings(
        target_name,
        target_interpreter,
        simple_functions,
        block_functions,
        function_metadata,
        fallback,
        false,
        true,
    )
}

/// The pieces joined end to end.
pub open spec fn concat(ps: Seq<Seq<char>>) -> Seq<char>
    decreases ps.len(),
{
    if ps.len() == 0 {
        Seq::empty()
    } else {
        concat(ps.drop_last()) + ps.last()
    }
}

/// The wrapper that reaches an incompatible sibling through `run` (`a:b` becomes
/// `run a b`).
pub open spec fn run_wrapper(name: Seq<char>, target: Interpreter) -> Seq<char> {
    if target == Interpreter::Pwsh {
        "function "@ + sanitised(name) + " {\n    run "@ + replace_all(name, ":"@, " "@) + " @args\n}"@
    } else {
        sanitised(name) + "() {\n    run "@ + replace_all(name, ":"@, " "@) + " \"$@\"\n}"@
    }
}

proof fn lemma_ends_with_suffix(a: Seq<char>, b: Seq<char>)
    ensures
        crate::text::ends_with(a + b, b),
{
    assert((a + b).subrange(a.len() as int, (a + b).len() as int) =~= b);
}

/// A `run` wrapper forwards every argument it is given: its last command is `run` with
/// the words of the sibling's name followed by all of the wrapper's arguments (`"$@"` for
/// sh, `@args` for PowerShell).
pub proof fn lemma_run_wrapper_forwards_arguments(name: Seq<char>, target: Interpreter)
    ensures
        target != Interpreter::Pwsh ==> crate::text::ends_with(
            run_wrapper(name, target),
            "\n    run "@ + replace_all(name, ":"@, " "@) + " \"$@\"\n}"@,
        ),
        target == Interpreter::Pwsh ==> crate::text::ends_with(
            run_wrapper(name, target),
            "\n    run "@ + replace_all(name, ":"@, " "@) + " @args\n}"@,
        ),
{
    let words = replace_all(name, ":"@, " "@);
    reveal_strlit("() {\n    run ");
    reveal_strlit("\n    run ");
    reveal_strlit(" {\n    run ");
    if target == Interpreter::Pwsh {
        let head = "function "@ + sanitised(name) + " {"@;
        assert(" {\n    run "@ =~= " {"@ + "\n    run "@) by {
            reveal_strlit(" {");
        }
        assert(run_wrapper(name, target) =~= head + ("\n    run "@ + words + " @args\n}"@));
        lemma_ends_with_suffix(head, "\n    run "@ + words + " @args\n}"@);
    } else {
        let head = sanitised(name) + "() {"@;
        assert("() {\n    run "@ =~= "() {"@ + "\n    run "@) by {
            reveal_strlit("() {");
        }
        assert(run_wrapper(name, target) =~= head + ("\n    run "@ + words + " \"$@\"\n}"@));
        lemma_ends_with_suffix(head, "\n    run "@ + words + " \"$@\"\n}"@);
    }
}

/// All wrappers, each followed by a blank line.
pub open spec fn run_wrappers(names: Seq<Seq<char>>, target: Interpreter) -> Seq<char> {
    concat(names.map_values(|n: Seq<char>| run_wrapper(n, target) + "\n\n"@))
}

/// The `run` wrappers for incompatible siblings, each followed by a blank line.
pub fn build_incompatible_wrappers(incompatible: &[String], target_interpreter: &Interpreter) -> (r: String)
    ensures
        r@ == run_wrappers(string_views(incompatible@), *target_interpreter),
{
    let ghost ns = string_views(incompatible@);
    let ghost pieces = ns.map_values(|n: Seq<char>| run_wrapper(n, *target_interpreter) + "\n\n"@);
    let mut out: Vec<char> = Vec::new();
    let mut i: usize = 0;
    while i < incompatible.len()
        invariant
            i <= incompatible@.len(),
            ns == string_views(incompatible@),
            pieces == ns.map_values(|n: Seq<char>| run_wrapper(n, *target_interpreter) + "\n\n"@),
            out@ == concat(pieces.take(i as int)),
        decreases incompatible@.len() - i,
    {
        let nc = to_chars(incompatible[i].as_str());
        let san = sanitise_chars(nc.as_slice());
        let run_args = replace_chars(nc.as_slice(), to_chars(":").as_slice(), to_chars(" ").as_slice());
        let ghost before = out@;
        match target_interpreter {
            Interpreter::Pwsh => {
                push_str(&mut out, "function ");
                push_all(&mut out, san.as_slice());
                push_str(&mut out, " {\n    run ");
                push_all(&mut out, run_args.as_slice());
                push_str(&mut out, " @args\n}");
            },
            _ => {
                push_all(&mut out, san.as_slice());
                push_str(&mut out, "() {\n    run ");
                push_all(&mut out, run_args.as_slice());
                push_str(&mut out, " \"$@\"\n}");
            },
        }
        push_str(&mut out, "\n\n");
        assert(pieces.take(i + 1).drop_last() =~= pieces.take(i as int));
        assert(out@ =~= before + pieces[i as int]);
        i = i + 1;
    }
    assert(pieces.take(i as int) =~= pieces);
    from_chars(out.as_slice())
}

/// One variable assignment in the target's syntax.
pub open spec fn variable_line(name: Seq<char>, value: Seq<char>, target: Interpreter) -> Seq<char> {
    if target == Interpreter::Pwsh {
        "$"@ + name + " = \""@ + pwsh_escaped(value) + "\""@
    } else {
        name + "=\""@ + shell_escaped(value) + "\""@
    }
}

/// A variable's line in a shell preamble assigns it a double-quoted text that a POSIX
/// shell reads back as exactly the variable's value (for values without `!`, whose
/// backslash would stay).
pub proof fn lemma_variable_line_reads_back(name: Seq<char>, value: Seq<char>, target: Interpreter)
    requires
        target != Interpreter::Pwsh,
        forall|i: int| 0 <= i < value.len() ==> value[i] != '!',
    ensures
        ({
            let l = variable_line(name, value, target);
            &&& l.len() >= name.len() + 3
            &&& l.subrange(0, name.len() as int + 2) == name + seq!['=', '"']
            &&& l.last() == '"'
            &&& crate::interpreter::shell::double_quoted_read(l.subrange(name.len() as int + 2, l.len() - 1)) == Some(value)
        }),
{
    reveal_strlit("=\"");
    reveal_strlit("\"");
    let e = crate::interpreter::shell::shell_escaped(value);
    crate::interpreter::shell::lemma_escaped_value_reads_back(value);
    assert("=\""@ =~= seq!['=', '"']);
    assert("\""@ =~= seq!['"']);
    let l = variable_line(name, value, target);
    assert(l =~= name + seq!['=', '"'] + e + seq!['"']);
    assert(l.subrange(0, name.len() as int + 2) =~= name + seq!['=', '"']);
    assert(l.subrange(name.len() as int + 2, l.len() - 1) =~= e);
}

/// The variable assignments of a Runfile, one per line, in table order.
pub open spec fn variable_preamble(vars: Seq<(String, String)>, target: Interpreter) -> Seq<char> {
    join(vars.map_values(|e: (String, String)| variable_line(e.0@, e.1@, target)), "\n"@)
}

/// The Runfile's variables as assignments in the target's syntax.
pub fn build_variable_preamble(variables: &Table<String>, target_interpreter: &Interpreter) -> (r: String)
    ensures
        r@ == variable_preamble(variables.entries@, *target_interpreter),
{
    let ghost es = variables.entries@;
    let ghost ls = es.map_values(|e: (String, String)| variable_line(e.0@, e.1@, *target_interpreter));
    let mut lines: Vec<Vec<char>> = Vec::new();
    let mut i: usize = 0;
    while i < variables.entries.len()
        invariant
            i <= es.len(),
            es == variables.entries@,
            ls == es.map_values(|e: (String, String)| variable_line(e.0@, e.1@, *target_interpreter)),
            views(lines@) == ls.take(i as int),
        decreases es.len() - i,
    {
        let mut line: Vec<char> = Vec::new();
        let k = variables.entries[i].0.as_str();
        let v = variables.entries[i].1.as_str();
        match target_interpreter {
            Interpreter::Pwsh => {
                push_str(&mut line, "$");
                push_str(&mut line, k);
                push_str(&mut line, " = \"");
                let e = escape_pwsh_value(v);
                push_str(&mut line, e.as_str());
                push_str(&mut line, "\"");
            },
            _ => {
                push_str(&mut line, k);
                push_str(&mut line, "=\"");
                let e = escape_shell_value(v);
                push_str(&mut line, e.as_str());
                push_str(&mut line, "\"");
            },
        }
        let ghost before = views(lines@);
        lines.push(line);
        assert(views(lines@) =~= before.push(ls[i as int]));
        assert(ls.take(i + 1) =~= ls.take(i as int).push(ls[i as int]));
        i = i + 1;
    }
    assert(ls.take(i as int) =~= ls);
    let r = join_chars(&lines, to_chars("\n").as_slice());
    from_chars(r.as_slice())
}

/// A function definition in the target's syntax (PowerShell or sh).
pub open spec fn function_definition(target: Interpreter, name: Seq<char>, body: Seq<char>, is_block: bool) -> Seq<char> {
    if target == Interpreter::Pwsh {
        pwsh_function(name, body, is_block)
    } else {
        shell_function(name, body, is_block)
    }
}

/// The definitions of the compatible simple siblings, each followed by a blank line, with
/// the calls to `all` rewritten.
pub open spec fn simple_defs(
    es: Seq<(String, String)>,
    target_name: Seq<char>,
    target: Interpreter,
    meta: Seq<(String, FunctionMetadata)>,
    fallback: Interpreter,
    all: Seq<Seq<char>>,
) -> Seq<char>
    decreases es.len(),
{
    if es.len() == 0 {
        Seq::empty()
    } else {
        let e = es.last();
        let rest = simple_defs(es.drop_last(), target_name, target, meta, fallback, all);
        if e.0@ != target_name && compatible(target, simple_interp(meta, e.0@, fallback)) {
            rest + function_definition(target, e.0@, rewritten_body(e.1@, all), false) + "\n\n"@
        } else {
            rest
        }
    }
}

/// The definitions of the compatible block siblings (lines joined with `\n`), each
/// followed by a blank line, with the calls to `all` rewritten.
pub open spec fn block_defs(
    es: Seq<(String, Vec<String>)>,
    target_name: Seq<char>,
    target: Interpreter,
    meta: Seq<(String, FunctionMetadata)>,
    fallback: Interpreter,
    all: Seq<Seq<char>>,
) -> Seq<char>
    decreases es.len(),
{
    if es.len() == 0 {
        Seq::empty()
    } else {
        let e = es.last();
        let rest = block_defs(es.drop_last(), target_name, target, meta, fallback, all);
        if e.0@ != target_name && compatible(target, block_interp(meta, e.0@, fallback)) {
            rest + function_definition(target, e.0@, rewritten_body(join(string_views(e.1@), "\n"@), all), true)
                + "\n\n"@
        } else {
            rest
        }
    }
}

/// The preamble of sibling functions: the compatible simple siblings, the compatible
/// block siblings, then `run` wrappers for the incompatible colon-named siblings.
pub open spec fn function_preamble(
    target_name: Seq<char>,
    target: Interpreter,
    simple: Seq<(String, String)>,
    block: Seq<(String, Vec<String>)>,
    meta: Seq<(String, FunctionMetadata)>,
    fallback: Interpreter,
) -> Seq<char> {
    let inc = incompatible_colon_siblings(target_name, target, simple, block, meta, fallback);
    let all = compatible_siblings(target_name, target, simple, block, meta, fallback) + inc;
    simple_defs(simple, target_name, target, meta, fallback, all) + block_defs(
        block,
        target_name,
        target,
        meta,
        fallback,
        all,
    ) + run_wrappers(inc, target)
}

/// The part of the preamble for one simple function: its definition and a blank line
/// when it is a sibling (not the target) whose interpreter is compatible; nothing else.
pub open spec fn simple_piece(
    e: (String, String),
    target_name: Seq<char>,
    target: Interpreter,
    meta: Seq<(String, FunctionMetadata)>,
    fallback: Interpreter,
    all: Seq<Seq<char>>,
) -> Seq<char> {
    if e.0@ != target_name && compatible(target, simple_interp(meta, e.0@, fallback)) {
        function_definition(target, e.0@, rewritten_body(e.1@, all), false) + "\n\n"@
    } else {
        Seq::empty()
    }
}

/// The part of the preamble for one block function (see `simple_piece`).
pub open spec fn block_piece(
    e: (String, Vec<String>),
    target_name: Seq<char>,
    target: Interpreter,
    meta: Seq<(String, FunctionMetadata)>,
    fallback: Interpreter,
    all: Seq<Seq<char>>,
) -> Seq<char> {
    if e.0@ != target_name && compatible(target, block_interp(meta, e.0@, fallback)) {
        function_definition(target, e.0@, rewritten_body(join(string_views(e.1@), "\n"@), all), true) + "\n\n"@
    } else {
        Seq::empty()
    }
}

proof fn lemma_simple_defs(
    es: Seq<(String, String)>,
    target_name: Seq<char>,
    target: Interpreter,
    meta: Seq<(String, FunctionMetadata)>,
    fallback: Interpreter,
    all: Seq<Seq<char>>,
)
    ensures
        simple_defs(es, target_name, target, meta, fallback, all) == concat(
            es.map_values(|e: (String, String)| simple_piece(e, target_name, target, meta, fallback, all)),
        ),
    decreases es.len(),
{
    let f = |e: (String, String)| simple_piece(e, target_name, target, meta, fallback, all);
    if es.len() > 0 {
        lemma_simple_defs(es.drop_last(), target_name, target, meta, fallback, all);
        assert(es.map_values(f).drop_last() =~= es.drop_last().map_values(f));
        let p = es.map_values(f);
        assert(p.last() == f(es.last()));
        let rest = simple_defs(es.drop_last(), target_name, target, meta, fallback, all);
        if !(es.last().0@ != target_name && compatible(target, simple_interp(meta, es.last().0@, fallback))) {
            assert(rest + Seq::<char>::empty() =~= rest);
        }
    } else {
        assert(es.map_values(f) =~= Seq::<Seq<char>>::empty());
    }
}

proof fn lemma_block_defs(
    es: Seq<(String, Vec<String>)>,
    target_name: Seq<char>,
    target: Interpreter,
    meta: Seq<(String, FunctionMetadata)>,
    fallback: Interpreter,
    all: Seq<Seq<char>>,
)
    ensures
        block_defs(es, target_name, target, meta, fallback, all) == concat(
            es.map_values(|e: (String, Vec<String>)| block_piece(e, target_name, target, meta, fallback, all)),
        ),
    decreases es.len(),
{
    let f = |e: (String, Vec<String>)| block_piece(e, target_name, target, meta, fallback, all);
    if es.len() > 0 {
        lemma_block_defs(es.drop_last(), target_name, target, meta, fallback, all);
        assert(es.map_values(f).drop_last() =~= es.drop_last().map_values(f));
        let p = es.map_values(f);
        assert(p.last() == f(es.last()));
        let rest = block_defs(es.drop_last(), target_name, target, meta, fallback, all);
        if !(es.last().0@ != target_name && compatible(target, block_interp(meta, es.last().0@, fallback))) {
            assert(rest + Seq::<char>::empty() =~= rest);
        }
    } else {
        assert(es.map_values(f) =~= Seq::<Seq<char>>::empty());
    }
}

/// The preamble of a target, piece by piece: for each simple function in order, then
/// each block function in order, its definition when it is a compatible sibling (the
/// target itself is never defined); then a `run` wrapper for each incompatible sibling
/// with a `:` in its name.
pub proof fn lemma_preamble_structure(
    target_name: Seq<char>,
    target: Interpreter,
    simple: Seq<(String, String)>,
    block: Seq<(String, Vec<String>)>,
    meta: Seq<(String, FunctionMetadata)>,
    fallback: Interpreter,
)
    ensures
        ({
            let inc = incompatible_colon_siblings(target_name, target, simple, block, meta, fallback);
            let all = compatible_siblings(target_name, target, simple, block, meta, fallback) + inc;
            &&& function_preamble(target_name, target, simple, block, meta, fallback) == concat(
                simple.map_values(|e: (String, String)| simple_piece(e, target_name, target, meta, fallback, all)),
            ) + concat(block.map_values(|e: (String, Vec<String>)| block_piece(e, target_name, target, meta, fallback, all)))
                + concat(inc.map_values(|n: Seq<char>| run_wrapper(n, target) + "\n\n"@))
            &&& forall|e: (String, String)| e.0@ == target_name ==> #[trigger] simple_piece(e, target_name, target, meta, fallback, all)
                == Seq::<char>::empty()
            &&& forall|e: (String, Vec<String>)| e.0@ == target_name ==> #[trigger] block_piece(e, target_name, target, meta, fallback, all)
                == Seq::<char>::empty()
        }),
{
    let inc = incompatible_colon_siblings(target_name, target, simple, block, meta, fallback);
    let all = compatible_siblings(target_name, target, simple, block, meta, fallback) + inc;
    lemma_simple_defs(simple, target_name, target, meta, fallback, all);
    lemma_block_defs(block, target_name, target, meta, fallback, all);
}

fn definition(target: &Interpreter, name: &str, body: &str, is_block: bool) -> (r: String)
    ensures
        r@ == function_definition(*target, name@, body@, is_block),
{
    match target {
        Interpreter::Pwsh => transpile_to_pwsh(name, body, is_block),
        _ => transpile_to_shell(name, body, is_block),
    }
}

/// The preamble of sibling functions for the target (see `function_preamble`).
pub fn build_function_preamble(
    target_name: &str,
    target_interpreter: &Interpreter,
    simple_functions: &Table<String>,
    block_functions: &Table<Vec<String>>,
    function_metadata: &Table<FunctionMetadata>,
    fallback: Interpreter,
) -> (r: String)
    ensures
        r@ == function_preamble(
            target_name@,
            *target_interpreter,
            simple_functions.entries@,
            block_functions.entries@,
            function_metadata.entries@,
            fallback,
        ),
{
    let ghost meta = function_metadata.entries@;
    let compat = collect_compatible_siblings(
        target_name,
        target_interpreter,
        simple_functions,
        block_functions,
        function_metadata,
        fallback,
    );
    let incompat = collect_incompatible_colon_siblings(
        target_name,
        target_interpreter,
        simple_functions,
        block_functions,
        function_metadata,
        fallback,
    );
    let mut all: Vec<&str> = Vec::new();
    let mut k: usize = 0;
    while k < compat.len()
        invariant
            k <= compat@.len(),
            all@.map_values(|x: &str| x@) == string_views(compat@).take(k as int),
        decreases compat@.len() - k,
    {
        let ghost before = all@.map_values(|x: &str| x@);
        all.push(compat[k].as_str());
        assert(all@.map_values(|x: &str| x@) =~= before.push(compat@[k as int]@));
        assert(string_views(compat@).take(k + 1) =~= string_views(compat@).take(k as int).push(compat@[k as int]@));
        k = k + 1;
    }
    assert(string_views(compat@).take(k as int) =~= string_views(compat@));
    let mut k: usize = 0;
    while k < incompat.len()
        invariant
            k <= incompat@.len(),
            all@.map_values(|x: &str| x@) == string_views(compat@) + string_views(incompat@).take(k as int),
        decreases incompat@.len() - k,
    {
        let ghost before = all@.map_values(|x: &str| x@);
        all.push(incompat[k].as_str());
        assert(all@.map_values(|x: &str| x@) =~= before.push(incompat@[k as int]@));
        assert(string_views(incompat@).take(k + 1) =~= string_views(incompat@).take(k as int).push(incompat@[k as int]@));
        k = k + 1;
    }
    assert(string_views(incompat@).take(k as int) =~= string_views(incompat@));
    let ghost allv = all@.map_values(|x: &str| x@);
    let tn = to_chars(target_name);
    let mut out: Vec<char> = Vec::new();
    let mut i: usize = 0;
    while i < simple_functions.entries.len()
        invariant
            i <= simple_functions.entries@.len(),
            meta == function_metadata.entries@,
            tn@ == target_name@,
            allv == all@.map_values(|x: &str| x@),
            out@ == simple_defs(simple_functions.entries@.take(i as int), target_name@, *target_interpreter, meta, fallback, allv),
        decreases simple_functions.entries@.len() - i,
    {
        let name = simple_functions.entries[i].0.as_str();
        let template = simple_functions.entries[i].1.as_str();
        let nc = to_chars(name);
        assert(simple_functions.entries@.take(i + 1).drop_last() =~= simple_functions.entries@.take(i as int));
        let attrs = attributes_of(function_metadata, nc.as_slice());
        let fi = resolve_function_interpreter(attrs, None, fallback);
        if !crate::text::chars_eq(nc.as_slice(), tn.as_slice()) && target_interpreter.is_compatible_with(&fi) {
            let body = rewrite_call_sites(template, all.as_slice());
            let d = definition(target_interpreter, name, body.as_str(), false);
            push_str(&mut out, d.as_str());
            push_str(&mut out, "\n\n");
        }
        i = i + 1;
    }
    assert(simple_functions.entries@.take(i as int) =~= simple_functions.entries@);
    let ghost after_simple = out@;
    let mut j: usize = 0;
    while j < block_functions.entries.len()
        invariant
            j <= block_functions.entries@.len(),
            meta == function_metadata.entries@,
            tn@ == target_name@,
            allv == all@.map_values(|x: &str| x@),
            out@ == after_simple + block_defs(block_functions.entries@.take(j as int), target_name@, *target_interpreter, meta, fallback, allv),
        decreases block_functions.entries@.len() - j,
    {
        let name = block_functions.entries[j].0.as_str();
        let nc = to_chars(name);
        assert(block_functions.entries@.take(j + 1).drop_last() =~= block_functions.entries@.take(j as int));
        let attrs = attributes_of(function_metadata, nc.as_slice());
        let sb = shebang_of(function_metadata, nc.as_slice());
        let fi = resolve_function_interpreter(attrs, sb, fallback);
        assert(fi == block_interp(meta, nc@, fallback));
        if !crate::text::chars_eq(nc.as_slice(), tn.as_slice()) && target_interpreter.is_compatible_with(&fi) {
            let joined = crate::text::join_strings(block_functions.entries[j].1.as_slice(), "\n");
            let body = rewrite_call_sites(joined.as_str(), all.as_slice());
            let d = definition(target_interpreter, name, body.as_str(), true);
            let ghost before = out@;
            push_str(&mut out, d.as_str());
            push_str(&mut out, "\n\n");
            assert(out@ =~= before + d@ + "\n\n"@);
        }
        j = j + 1;
    }
    assert(block_functions.entries@.take(j as int) =~= block_functions.entries@);
    let w = build_incompatible_wrappers(incompat.as_slice(), target_interpreter);
    push_str(&mut out, w.as_str());
    from_chars(out.as_slice())
}

/// `s` in lower case, as `str::to_lowercase` gives it.
pub uninterp spec fn lowercase(s: Seq<char>) -> Seq<char>;

/// An ASCII character in lower case: `A` to `Z` become `a` to `z`, others stay.
pub open spec fn ascii_lower(c: char) -> char {
    if 'A' <= c && c <= 'Z' {
        ((c as u32) + 32) as char
    } else {
        c
    }
}

/// `str::to_lowercase`: the result is the Unicode lower-case mapping; on ASCII text it is
/// exactly `A`-`Z` to `a`-`z`, as that mapping is defined.
#[verifier::external_body]
fn to_lowercase(s: &str) -> (r: String)
    ensures
        r@ == lowercase(s@),
        (forall|i: int| 0 <= i < s@.len() ==> (#[trigger] s@[i] as u32) < 128) ==> r@ == s@.map_values(
            |c: char| ascii_lower(c),
        ),
{
    s.to_lowercase()
}

/// A lower-cased default that reads as true: `true`, `1` or `yes`.
pub open spec fn truthy_word(lower: Seq<char>) -> bool {
    lower == "true"@ || lower == "1"@ || lower == "yes"@
}

/// Whether a lower-cased word reads as true.
pub fn is_truthy_word(lower: &str) -> (b: bool)
    ensures
        b == truthy_word(lower@),
{
    let l = to_chars(lower);
    crate::text::chars_eq(l.as_slice(), to_chars("true").as_slice()) || crate::text::chars_eq(
        l.as_slice(),
        to_chars("1").as_slice(),
    ) || crate::text::chars_eq(l.as_slice(), to_chars("yes").as_slice())
}

/// The languages that receive named parameters as variables.
pub enum ScriptLanguage {
    Python,
    Node,
    Ruby,
}

/// A default value written as a literal of the language: numbers as written, booleans as
/// `True`/`False` (Python) or `true`/`false`, objects parsed from a single-quoted JSON
/// string, strings double-quoted; `\` and the quote are escaped with `\`.
pub open spec fn literal(value: Seq<char>, t: ArgType, lang: ScriptLanguage) -> Seq<char> {
    match t {
        ArgType::Integer | ArgType::Float => value,
        ArgType::Boolean => if truthy_word(lowercase(value)) {
            if lang is Python { "True"@ } else { "true"@ }
        } else {
            if lang is Python { "False"@ } else { "false"@ }
        },
        ArgType::Object => (if lang is Python { "json.loads('"@ } else { "JSON.parse('"@ }) + replace_all(
            replace_all(value, "\\"@, "\\\\"@),
            "'"@,
            "\\'"@,
        ) + "')"@,
        ArgType::String => "\""@ + replace_all(replace_all(value, "\\"@, "\\\\"@), "\""@, "\\\""@) + "\""@,
    }
}

/// An argument expression converted to the parameter's type.
pub open spec fn converted_value(e: Seq<char>, t: ArgType, lang: ScriptLanguage) -> Seq<char> {
    match lang {
        ScriptLanguage::Python => match t {
            ArgType::Integer => "int("@ + e + ")"@,
            ArgType::Float => "float("@ + e + ")"@,
            ArgType::Boolean => e + ".lower() in ('true', '1', 'yes')"@,
            ArgType::Object => "json.loads("@ + e + ")"@,
            ArgType::String => e,
        },
        ScriptLanguage::Node => match t {
            ArgType::Integer => "parseInt("@ + e + ", 10)"@,
            ArgType::Float => "parseFloat("@ + e + ")"@,
            ArgType::Boolean => "!['false', '0', ''].includes("@ + e + ".toLowerCase())"@,
            ArgType::Object => "JSON.parse("@ + e + ")"@,
            ArgType::String => e,
        },
        ScriptLanguage::Ruby => match t {
            ArgType::Integer => e + ".to_i"@,
            ArgType::Float => e + ".to_f"@,
            ArgType::Boolean => "!['false', '0', ''].include?("@ + e + ".downcase)"@,
            ArgType::Object => "JSON.parse("@ + e + ")"@,
            ArgType::String => e,
        },
    }
}

/// A list expression with each element converted to the parameter's type.
pub open spec fn converted_list(e: Seq<char>, t: ArgType, lang: ScriptLanguage) -> Seq<char> {
    match lang {
        ScriptLanguage::Python => match t {
            ArgType::Integer => "[int(x) for x in "@ + e + "]"@,
            ArgType::Float => "[float(x) for x in "@ + e + "]"@,
            ArgType::Boolean => "[x.lower() in ('true', '1', 'yes') for x in "@ + e + "]"@,
            ArgType::Object => "[json.loads(x) for x in "@ + e + "]"@,
            ArgType::String => e,
        },
        ScriptLanguage::Node => match t {
            ArgType::Integer => e + ".map(x => parseInt(x, 10))"@,
            ArgType::Float => e + ".map(x => parseFloat(x))"@,
            ArgType::Boolean => e + ".map(x => !['false', '0', ''].includes(x.toLowerCase()))"@,
            ArgType::Object => e + ".map(x => JSON.parse(x))"@,
            ArgType::String => e,
        },
        ScriptLanguage::Ruby => match t {
            ArgType::Integer => e + ".map(&:to_i)"@,
            ArgType::Float => e + ".map(&:to_f)"@,
            ArgType::Boolean => e + ".map { |x| !['false', '0', ''].include?(x.downcase) }"@,
            ArgType::Object => e + ".map { |x| JSON.parse(x) }"@,
            ArgType::String => e,
        },
    }
}

/// The declaration of the parameter at position `i` (0-based). Python reads `sys.argv`
/// and Node `process.argv` from index `i + 1`; Ruby reads `ARGV` from index `i`.
pub open spec fn param_line(p: Parameter, i: nat, lang: ScriptLanguage) -> Seq<char> {
    let name = p.name@;
    let t = p.param_type;
    match lang {
        ScriptLanguage::Python => {
            let d = decimal(i + 1);
            let arg = "sys.argv["@ + d + "]"@;
            if p.is_rest {
                name + " = "@ + converted_list("sys.argv["@ + d + ":]"@, t, lang)
            } else {
                match p.default_value {
                    Some(dv) => {
                        let v = converted_value(arg, t, lang);
                        name + " = "@ + (if t == ArgType::Boolean { "("@ + v + ")"@ } else { v })
                            + " if len(sys.argv) > "@ + d + " else "@ + literal(dv@, t, lang)
                    },
                    None => name + " = "@ + converted_value(arg, t, lang),
                }
            }
        },
        ScriptLanguage::Node => {
            let d = decimal(i + 1);
            let arg = "process.argv["@ + d + "]"@;
            if p.is_rest {
                "const "@ + name + " = "@ + converted_list("process.argv.slice("@ + d + ")"@, t, lang) + ";"@
            } else {
                match p.default_value {
                    Some(dv) => "const "@ + name + " = "@ + "process.argv.length > "@ + d + " ? "@ + converted_value(
                        arg,
                        t,
                        lang,
                    ) + " : "@ + literal(dv@, t, lang) + ";"@,
                    None => "const "@ + name + " = "@ + converted_value(arg, t, lang) + ";"@,
                }
            }
        },
        ScriptLanguage::Ruby => {
            let d = decimal(i);
            let arg = "ARGV["@ + d + "]"@;
            if p.is_rest {
                name + " = "@ + converted_list("ARGV["@ + d + "..]"@, t, lang)
            } else {
                match p.default_value {
                    Some(dv) => name + " = "@ + "ARGV.length > "@ + d + " ? "@ + converted_value(arg, t, lang) + " : "@
                        + literal(dv@, t, lang),
                    None => name + " = "@ + converted_value(arg, t, lang),
                }
            }
        },
    }
}

/// Some parameter has the object type.
pub open spec fn has_object_param(ps: Seq<Parameter>) -> bool {
    exists|i: int| 0 <= i < ps.len() && ps[i].param_type == ArgType::Object
}

/// The import lines: Python always imports `sys`, and `json` when a parameter is an
/// object; Ruby requires `json` when a parameter is an object; Node needs none.
pub open spec fn header_lines(ps: Seq<Parameter>, lang: ScriptLanguage) -> Seq<Seq<char>> {
    match lang {
        ScriptLanguage::Python => if has_object_param(ps) {
            seq!["import sys"@, "import json"@]
        } else {
            seq!["import sys"@]
        },
        ScriptLanguage::Node => Seq::empty(),
        ScriptLanguage::Ruby => if has_object_param(ps) {
            seq!["require 'json'"@]
        } else {
            Seq::empty()
        },
    }
}

/// The declarations of all parameters of a script in `lang`, one per line.
pub open spec fn param_preamble(ps: Seq<Parameter>, lang: ScriptLanguage) -> Seq<char> {
    join(header_lines(ps, lang) + Seq::new(ps.len(), |i: int| param_line(ps[i], i as nat, lang)), "\n"@)
}

/// The language of a polyglot interpreter.
pub open spec fn script_language(t: Interpreter) -> Option<ScriptLanguage> {
    match t {
        Interpreter::Python | Interpreter::Python3 => Some(ScriptLanguage::Python),
        Interpreter::Node => Some(ScriptLanguage::Node),
        Interpreter::Ruby => Some(ScriptLanguage::Ruby),
        _ => None,
    }
}

/// Named-parameter declarations for a polyglot script; empty without parameters or for
/// a shell interpreter.
pub open spec fn polyglot_arg_preamble(ps: Seq<Parameter>, t: Interpreter) -> Seq<char> {
    if ps.len() == 0 {
        Seq::empty()
    } else {
        match script_language(t) {
            Some(lang) => param_preamble(ps, lang),
            None => Seq::empty(),
        }
    }
}

fn lang_is_python(lang: &ScriptLanguage) -> (b: bool)
    ensures
        b == (*lang is Python),
{
    match lang {
        ScriptLanguage::Python => true,
        _ => false,
    }
}

/// The literal for a default value (see `literal`).
fn literal_exec(value: &str, t: ArgType, lang: &ScriptLanguage) -> (r: Vec<char>)
    ensures
        r@ == literal(value@, t, *lang),
{
    let v = to_chars(value);
    let py = lang_is_python(lang);
    match t {
        ArgType::Integer | ArgType::Float => v,
        ArgType::Boolean => {
            let low = to_lowercase(value);
            if is_truthy_word(low.as_str()) {
                if py { to_chars("True") } else { to_chars("true") }
            } else {
                if py { to_chars("False") } else { to_chars("false") }
            }
        },
        ArgType::Object => {
            let mut out = if py { to_chars("json.loads('") } else { to_chars("JSON.parse('") };
            let a = replace_chars(v.as_slice(), to_chars("\\").as_slice(), to_chars("\\\\").as_slice());
            let b = replace_chars(a.as_slice(), to_chars("'").as_slice(), to_chars("\\'").as_slice());
            push_all(&mut out, b.as_slice());
            push_str(&mut out, "')");
            out
        },
        ArgType::String => {
            let mut out = to_chars("\"");
            let a = replace_chars(v.as_slice(), to_chars("\\").as_slice(), to_chars("\\\\").as_slice());
            let b = replace_chars(a.as_slice(), to_chars("\"").as_slice(), to_chars("\\\"").as_slice());
            push_all(&mut out, b.as_slice());
            push_str(&mut out, "\"");
            out
        },
    }
}

fn wrap(pre: &str, e: &[char], post: &str) -> (r: Vec<char>)
    ensures
        r@ == pre@ + e@ + post@,
{
    let mut out = to_chars(pre);
    push_all(&mut out, e);
    push_str(&mut out, post);
    out
}

/// The converted argument expression (see `converted_value`).
fn converted_value_exec(e: &[char], t: ArgType, lang: &ScriptLanguage) -> (r: Vec<char>)
    ensures
        r@ == converted_value(e@, t, *lang),
{
    proof { reveal_strlit(""); }
    match lang {
        ScriptLanguage::Python => match t {
            ArgType::Integer => wrap("int(", e, ")"),
            ArgType::Float => wrap("float(", e, ")"),
            ArgType::Boolean => wrap("", e, ".lower() in ('true', '1', 'yes')"),
            ArgType::Object => wrap("json.loads(", e, ")"),
            ArgType::String => wrap("", e, ""),
        },
        ScriptLanguage::Node => match t {
            ArgType::Integer => wrap("parseInt(", e, ", 10)"),
            ArgType::Float => wrap("parseFloat(", e, ")"),
            ArgType::Boolean => wrap("!['false', '0', ''].includes(", e, ".toLowerCase())"),
            ArgType::Object => wrap("JSON.parse(", e, ")"),
            ArgType::String => wrap("", e, ""),
        },
        ScriptLanguage::Ruby => match t {
            ArgType::Integer => wrap("", e, ".to_i"),
            ArgType::Float => wrap("", e, ".to_f"),
            ArgType::Boolean => wrap("!['false', '0', ''].include?(", e, ".downcase)"),
            ArgType::Object => wrap("JSON.parse(", e, ")"),
            ArgType::String => wrap("", e, ""),
        },
    }
}

/// The converted list expression (see `converted_list`).
fn converted_list_exec(e: &[char], t: ArgType, lang: &ScriptLanguage) -> (r: Vec<char>)
    ensures
        r@ == converted_list(e@, t, *lang),
{
    proof { reveal_strlit(""); }
    match lang {
        ScriptLanguage::Python => match t {
            ArgType::Integer => wrap("[int(x) for x in ", e, "]"),
            ArgType::Float => wrap("[float(x) for x in ", e, "]"),
            ArgType::Boolean => wrap("[x.lower() in ('true', '1', 'yes') for x in ", e, "]"),
            ArgType::Object => wrap("[json.loads(x) for x in ", e, "]"),
            ArgType::String => wrap("", e, ""),
        },
        ScriptLanguage::Node => match t {
            ArgType::Integer => wrap("", e, ".map(x => parseInt(x, 10))"),
            ArgType::Float => wrap("", e, ".map(x => parseFloat(x))"),
            ArgType::Boolean => wrap("", e, ".map(x => !['false', '0', ''].includes(x.toLowerCase()))"),
            ArgType::Object => wrap("", e, ".map(x => JSON.parse(x))"),
            ArgType::String => wrap("", e, ""),
        },
        ScriptLanguage::Ruby => match t {
            ArgType::Integer => wrap("", e, ".map(&:to_i)"),
            ArgType::Float => wrap("", e, ".map(&:to_f)"),
            ArgType::Boolean => wrap("", e, ".map { |x| !['false', '0', ''].include?(x.downcase) }"),
            ArgType::Object => wrap("", e, ".map { |x| JSON.parse(x) }"),
            ArgType::String => wrap("", e, ""),
        },
    }
}

/// The declaration of one parameter (see `param_line`).
fn param_line_exec(p: &Parameter, i: usize, lang: &ScriptLanguage) -> (r: Vec<char>)
    ensures
        r@ == param_line(*p, i as nat, *lang),
{
    let name = p.name.as_str();
    let t = p.param_type;
    match lang {
        ScriptLanguage::Python => {
            let d = u128_to_chars((i as u128) + 1);
            let arg = wrap("sys.argv[", d.as_slice(), "]");
            let mut out = to_chars(name);
            push_str(&mut out, " = ");
            if p.is_rest {
                let raw = wrap("sys.argv[", d.as_slice(), ":]");
                let c = converted_list_exec(raw.as_slice(), t, lang);
                push_all(&mut out, c.as_slice());
                assert(out@ =~= param_line(*p, i as nat, *lang));
            } else {
                match &p.default_value {
                    Some(dv) => {
                        let v = converted_value_exec(arg.as_slice(), t, lang);
                        if t == ArgType::Boolean {
                            let pv = wrap("(", v.as_slice(), ")");
                            push_all(&mut out, pv.as_slice());
                        } else {
                            push_all(&mut out, v.as_slice());
                        }
                        push_str(&mut out, " if len(sys.argv) > ");
                        push_all(&mut out, d.as_slice());
                        push_str(&mut out, " else ");
                        let l = literal_exec(dv.as_str(), t, lang);
                        push_all(&mut out, l.as_slice());
                        assert(out@ =~= param_line(*p, i as nat, *lang));
                    },
                    None => {
                        let v = converted_value_exec(arg.as_slice(), t, lang);
                        push_all(&mut out, v.as_slice());
                        assert(out@ =~= param_line(*p, i as nat, *lang));
                    },
                }
            }
            out
        },
        ScriptLanguage::Node => {
            let d = u128_to_chars((i as u128) + 1);
            let arg = wrap("process.argv[", d.as_slice(), "]");
            let mut out = to_chars("const ");
            push_str(&mut out, name);
            push_str(&mut out, " = ");
            if p.is_rest {
                let raw = wrap("process.argv.slice(", d.as_slice(), ")");
                let c = converted_list_exec(raw.as_slice(), t, lang);
                push_all(&mut out, c.as_slice());
            } else {
                match &p.default_value {
                    Some(dv) => {
                        push_str(&mut out, "process.argv.length > ");
                        push_all(&mut out, d.as_slice());
                        push_str(&mut out, " ? ");
                        let v = converted_value_exec(arg.as_slice(), t, lang);
                        push_all(&mut out, v.as_slice());
                        push_str(&mut out, " : ");
                        let l = literal_exec(dv.as_str(), t, lang);
                        push_all(&mut out, l.as_slice());
                    },
                    None => {
                        let v = converted_value_exec(arg.as_slice(), t, lang);
                        push_all(&mut out, v.as_slice());
                    },
                }
            }
            push_str(&mut out, ";");
            assert(out@ =~= param_line(*p, i as nat, *lang));
            out
        },
        ScriptLanguage::Ruby => {
            let d = u128_to_chars(i as u128);
            let arg = wrap("ARGV[", d.as_slice(), "]");
            let mut out = to_chars(name);
            push_str(&mut out, " = ");
            if p.is_rest {
                let raw = wrap("ARGV[", d.as_slice(), "..]");
                let c = converted_list_exec(raw.as_slice(), t, lang);
                push_all(&mut out, c.as_slice());
            } else {
                match &p.default_value {
                    Some(dv) => {
                        push_str(&mut out, "ARGV.length > ");
                        push_all(&mut out, d.as_slice());
                        push_str(&mut out, " ? ");
                        let v = converted_value_exec(arg.as_slice(), t, lang);
                        push_all(&mut out, v.as_slice());
                        push_str(&mut out, " : ");
                        let l = literal_exec(dv.as_str(), t, lang);
                        push_all(&mut out, l.as_slice());
                    },
                    None => {
                        let v = converted_value_exec(arg.as_slice(), t, lang);
                        push_all(&mut out, v.as_slice());
                    },
                }
            }
            assert(out@ =~= param_line(*p, i as nat, *lang));
            out
        },
    }
}

fn any_object_param(params: &[Parameter]) -> (b: bool)
    ensures
        b == has_object_param(params@),
{
    let mut i: usize = 0;
    while i < params.len()
        invariant
            i <= params@.len(),
            forall|j: int| 0 <= j < i ==> params@[j].param_type != ArgType::Object,
        decreases params@.len() - i,
    {
        if params[i].param_type == ArgType::Object {
            return true;
        }
        i = i + 1;
    }
    false
}

fn param_preamble_exec(params: &[Parameter], lang: &ScriptLanguage) -> (r: String)
    ensures
        r@ == param_preamble(params@, *lang),
{
    let obj = any_object_param(params);
    let mut lines: Vec<Vec<char>> = Vec::new();
    match lang {
        ScriptLanguage::Python => {
            lines.push(to_chars("import sys"));
            if obj {
                lines.push(to_chars("import json"));
            }
        },
        ScriptLanguage::Node => {},
        ScriptLanguage::Ruby => {
            if obj {
                lines.push(to_chars("require 'json'"));
            }
        },
    }
    let ghost hs = header_lines(params@, *lang);
    let ghost ds = Seq::new(params@.len(), |i: int| param_line(params@[i], i as nat, *lang));
    assert(views(lines@) =~= hs);
    let mut i: usize = 0;
    while i < params.len()
        invariant
            i <= params@.len(),
            hs == header_lines(params@, *lang),
            ds == Seq::new(params@.len(), |i: int| param_line(params@[i], i as nat, *lang)),
            views(lines@) == hs + ds.take(i as int),
        decreases params@.len() - i,
    {
        let l = param_line_exec(&params[i], i, lang);
        let ghost before = views(lines@);
        lines.push(l);
        assert(views(lines@) =~= before.push(ds[i as int]));
        assert(ds.take(i + 1) =~= ds.take(i as int).push(ds[i as int]));
        i = i + 1;
    }
    assert(ds.take(i as int) =~= ds);
    let r = join_chars(&lines, to_chars("\n").as_slice());
    from_chars(r.as_slice())
}

/// Declarations that give a polyglot script its parameters as named variables; empty
/// when there are no parameters or the interpreter is a shell.
pub fn build_polyglot_arg_preamble(params: &[Parameter], interpreter: &Interpreter) -> (r: String)
    ensures
        r@ == polyglot_arg_preamble(params@, *interpreter),
{
    if params.len() == 0 {
        return String::new();
    }
    match interpreter {
        Interpreter::Python | Interpreter::Python3 => param_preamble_exec(params, &ScriptLanguage::Python),
        Interpreter::Node => param_preamble_exec(params, &ScriptLanguage::Node),
        Interpreter::Ruby => param_preamble_exec(params, &ScriptLanguage::Ruby),
        _ => String::new(),
    }
}

} // verus!
