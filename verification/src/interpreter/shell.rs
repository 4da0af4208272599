//! How an interpreter is invoked, and the text-level helpers for scripts handed to it.
use vstd::prelude::*;
use crate::ast::ShellType;
use crate::text::{
    from_chars, join, join_chars, lines, lines_of, push_all, push_str, replace_all, replace_chars,
    starts_with, starts_with_exec, to_chars, trim, trim_chars, views, words, words_of,
};
use crate::transpiler::Interpreter;
use crate::utils::program_on_path;

verus! {

/// The Python program to run, by whether `python3` is on the search path.
pub open spec fn python_choice(python3_on_path: bool) -> Seq<char> {
    if python3_on_path {
        "python3"@
    } else {
        "python"@
    }
}

/// The Python program to run when `python3_on_path` tells whether `python3` is on the
/// search path (see `python_choice`).
pub fn python_for(python3_on_path: bool) -> (s: String)
    ensures
        s@ == python_choice(python3_on_path),
{
    if python3_on_path {
        "python3".to_string()
    } else {
        "python".to_string()
    }
}

/// The Python program to run: `python3` when it is on the search path, else `python`.
/// The search of the path is the machine's; the choice is `python_for` on its answer.
pub fn python_executable() -> (s: String)
    ensures
        exists|found: bool| s@ == python_choice(found),
        s@ == "python3"@ || s@ == "python"@,
{
    let found = program_on_path("python3");
    python_for(found)
}

/// The flag that makes an interpreter run a script given on its command line.
pub open spec fn script_flag(i: Interpreter) -> Seq<char> {
    match i {
        Interpreter::Pwsh => "-Command"@,
        Interpreter::Node | Interpreter::Ruby => "-e"@,
        _ => "-c"@,
    }
}

/// The name under which an interpreter is reported.
pub open spec fn interpreter_label(i: Interpreter) -> Seq<char> {
    match i {
        Interpreter::Sh => "sh"@,
        Interpreter::Bash => "bash"@,
        Interpreter::Pwsh => "pwsh"@,
        Interpreter::Python => "python"@,
        Interpreter::Python3 => "python3"@,
        Interpreter::Node => "node"@,
        Interpreter::Ruby => "ruby"@,
    }
}

/// The program that runs an interpreter's scripts, by whether `python3` is on the
/// search path (which only `Python` depends on).
pub open spec fn program_for(i: Interpreter, python3_on_path: bool) -> Seq<char> {
    match i {
        Interpreter::Python => python_choice(python3_on_path),
        _ => interpreter_label(i),
    }
}

/// The program that runs an interpreter's scripts (for `Python`, one of the two programs
/// `python_executable` may choose).
pub open spec fn program_ok(i: Interpreter, program: Seq<char>) -> bool {
    exists|found: bool| program == program_for(i, found)
}

/// The program, the script flag and the reported name of an interpreter, when
/// `python3_on_path` tells whether `python3` is on the search path.
pub fn shell_args_for(interpreter: &Interpreter, python3_on_path: bool) -> (r: (String, &'static str, &'static str))
    ensures
        r.0@ == program_for(*interpreter, python3_on_path),
        r.1@ == script_flag(*interpreter),
        r.2@ == interpreter_label(*interpreter),
{
    match interpreter {
        Interpreter::Sh => ("sh".to_string(), "-c", "sh"),
        Interpreter::Bash => ("bash".to_string(), "-c", "bash"),
        Interpreter::Pwsh => ("pwsh".to_string(), "-Command", "pwsh"),
        Interpreter::Python => (python_for(python3_on_path), "-c", "python"),
        Interpreter::Python3 => ("python3".to_string(), "-c", "python3"),
        Interpreter::Node => ("node".to_string(), "-e", "node"),
        Interpreter::Ruby => ("ruby".to_string(), "-e", "ruby"),
    }
}

/// The program, the script flag and the reported name of an interpreter (see
/// `shell_args_for`); the search path is asked of the machine only for `Python`.
pub fn interpreter_to_shell_args(interpreter: &Interpreter) -> (r: (String, &'static str, &'static str))
    ensures
        program_ok(*interpreter, r.0@),
        r.1@ == script_flag(*interpreter),
        r.2@ == interpreter_label(*interpreter),
{
    let found = *interpreter == Interpreter::Python && program_on_path("python3");
    shell_args_for(interpreter, found)
}

/// The final component of a path, as `std::path::Path::file_name` computes it with the
/// path separators of the platform the program is built for.
pub uninterp spec fn path_file_name(path: Seq<char>) -> Option<Seq<char>>;

/// `std::path::Path::file_name` on a path given as text; the component is turned back
/// into a `String` (it is valid UTF-8, being a piece of a `str`).
#[verifier::external_body]
pub(crate) fn file_name_of(path: &str) -> (r: Option<String>)
    ensures
        r matches Some(s) ==> path_file_name(path@) == Some(s@),
        r is None ==> path_file_name(path@) is None,
{
    match std::path::Path::new(path).file_name() {
        Some(n) => Some(n.to_string_lossy().into_owned()),
        None => None,
    }
}

/// The shell type named by an interpreter binary.
pub open spec fn shell_named(name: Seq<char>) -> Option<ShellType> {
    if name == "python"@ {
        Some(ShellType::Python)
    } else if name == "python3"@ {
        Some(ShellType::Python3)
    } else if name == "node"@ {
        Some(ShellType::Node)
    } else if name == "ruby"@ {
        Some(ShellType::Ruby)
    } else if name == "pwsh"@ || name == "powershell"@ {
        Some(ShellType::Pwsh)
    } else if name == "bash"@ {
        Some(ShellType::Bash)
    } else if name == "sh"@ {
        Some(ShellType::Sh)
    } else {
        None
    }
}

/// The first white-space separated word of `s`.
pub open spec fn first_word(s: Seq<char>) -> Option<Seq<char>> {
    if words(s).len() > 0 { Some(words(s)[0]) } else { None }
}

/// The shell type of the binary that a shebang names, given the file name of the shebang
/// path (used when the shebang does not go through `/usr/bin/env`).
pub open spec fn shebang_shell(shebang: Seq<char>, file_name: Option<Seq<char>>) -> Option<ShellType> {
    let binary = if starts_with(shebang, "/usr/bin/env "@) {
        first_word(shebang.skip(13))
    } else {
        match file_name {
            Some(f) => first_word(f),
            None => None,
        }
    };
    match binary {
        Some(b) => shell_named(b),
        None => None,
    }
}

/// The shell type named by an interpreter binary.
pub fn shell_for_binary(name: &str) -> (r: Option<ShellType>)
    ensures
        r == shell_named(name@),
{
    let n = to_chars(name);
    let s = n.as_slice();
    if crate::text::chars_eq(s, to_chars("python").as_slice()) {
        Some(ShellType::Python)
    } else if crate::text::chars_eq(s, to_chars("python3").as_slice()) {
        Some(ShellType::Python3)
    } else if crate::text::chars_eq(s, to_chars("node").as_slice()) {
        Some(ShellType::Node)
    } else if crate::text::chars_eq(s, to_chars("ruby").as_slice()) {
        Some(ShellType::Ruby)
    } else if crate::text::chars_eq(s, to_chars("pwsh").as_slice()) || crate::text::chars_eq(
        s,
        to_chars("powershell").as_slice(),
    ) {
        Some(ShellType::Pwsh)
    } else if crate::text::chars_eq(s, to_chars("bash").as_slice()) {
        Some(ShellType::Bash)
    } else if crate::text::chars_eq(s, to_chars("sh").as_slice()) {
        Some(ShellType::Sh)
    } else {
        None
    }
}

fn first_word_of(s: &[char]) -> (r: Option<String>)
    ensures
        r matches Some(w) ==> first_word(s@) == Some(w@),
        r is None ==> first_word(s@) is None,
{
    let ws = words_of(s);
    if ws.len() > 0 {
        Some(from_chars(ws[0].as_slice()))
    } else {
        None
    }
}

/// The view of an optional text.
pub open spec fn text_opt(t: Option<&str>) -> Option<Seq<char>> {
    match t {
        Some(s) => Some(s@),
        None => None,
    }
}

/// The shell type that a shebang (without `#!`) selects, given the file name of its path
/// (see `shebang_shell`).
pub fn shebang_shell_for(shebang: &str, file_name: Option<&str>) -> (r: Option<ShellType>)
    ensures
        r == shebang_shell(shebang@, text_opt(file_name)),
{
    let s = to_chars(shebang);
    let env = to_chars("/usr/bin/env ");
    let binary = if starts_with_exec(s.as_slice(), env.as_slice()) {
        proof { reveal_strlit("/usr/bin/env "); }
        let rest = crate::text::copy_range(s.as_slice(), 13, s.len());
        assert(rest@ == shebang@.skip(13));
        first_word_of(rest.as_slice())
    } else {
        match file_name {
            Some(f) => {
                let fc = to_chars(f);
                first_word_of(fc.as_slice())
            },
            None => None,
        }
    };
    match binary {
        Some(b) => shell_for_binary(b.as_str()),
        None => None,
    }
}

/// The shell type that a shebang (without `#!`) selects: `/usr/bin/env NAME ...` names
/// the binary directly, otherwise the binary is the first word of the path's file name.
pub fn resolve_shebang_interpreter(shebang: &str) -> (r: Option<ShellType>)
    ensures
        starts_with(shebang@, "/usr/bin/env "@) ==> r == shebang_shell(shebang@, None),
        !starts_with(shebang@, "/usr/bin/env "@) ==> r == shebang_shell(shebang@, path_file_name(shebang@)),
{
    let s = to_chars(shebang);
    let env = to_chars("/usr/bin/env ");
    if starts_with_exec(s.as_slice(), env.as_slice()) {
        shebang_shell_for(shebang, None)
    } else {
        match file_name_of(shebang) {
            Some(f) => shebang_shell_for(shebang, Some(f.as_str())),
            None => shebang_shell_for(shebang, None),
        }
    }
}

/// The index of the first line whose trimmed text starts with `#!`.
pub open spec fn first_shebang_line(ls: Seq<Seq<char>>) -> Option<int>
    decreases ls.len(),
{
    if ls.len() == 0 {
        None
    } else if starts_with(trim(ls[0]), "#!"@) {
        Some(0)
    } else {
        match first_shebang_line(ls.drop_first()) {
            Some(k) => Some(k + 1),
            None => None,
        }
    }
}

/// A script body without its shebang line: the first line whose trimmed text starts with
/// `#!` is removed; the remaining lines are joined with `\n`.
pub open spec fn without_shebang(body: Seq<char>) -> Seq<char> {
    match first_shebang_line(lines(body)) {
        Some(k) => join(lines(body).remove(k), "\n"@),
        None => join(lines(body), "\n"@),
    }
}

/// Removes the first shebang line of a function body.
pub fn strip_shebang(body: &str) -> (r: String)
    ensures
        r@ == without_shebang(body@),
{
    let b = to_chars(body);
    let ls = lines_of(b.as_slice());
    let ghost lv = views(ls@);
    let mut kept: Vec<Vec<char>> = Vec::new();
    let mut found = false;
    let mut i: usize = 0;
    let bang = to_chars("#!");
    proof { lemma_first_shebang(lv); }
    assert(lv.take(0) =~= Seq::<Seq<char>>::empty());
    while i < ls.len()
        invariant
            i <= ls@.len(),
            lv == views(ls@),
            lv == lines(body@),
            bang@ == "#!"@,
            !found ==> first_shebang_line(lv) is None || first_shebang_line(lv).unwrap() >= i,
            !found ==> views(kept@) == lv.take(i as int),
            found ==> (first_shebang_line(lv) matches Some(k) && k < i && views(kept@) == lv.take(
                i as int,
            ).remove(k)),
        decreases ls@.len() - i,
    {
        proof { lemma_first_shebang(lv); }
        let t = trim_chars(ls[i].as_slice());
        let ghost old_kept = views(kept@);
        if !found && starts_with_exec(t.as_slice(), bang.as_slice()) {
            found = true;
            proof {
                lemma_first_shebang_at(lv, i as int);
                assert(lv.take(i + 1).remove(i as int) =~= lv.take(i as int));
            }
        } else {
            let mut line: Vec<char> = Vec::new();
            push_all(&mut line, ls[i].as_slice());
            kept.push(line);
            proof {
                assert(views(kept@) =~= old_kept.push(lv[i as int]));
                if !found {
                    lemma_first_shebang_not_at(lv, i as int);
                    assert(lv.take(i + 1) =~= lv.take(i as int).push(lv[i as int]));
                } else {
                    let k = first_shebang_line(lv).unwrap();
                    assert(lv.take(i + 1).remove(k) =~= lv.take(i as int).remove(k).push(lv[i as int]));
                }
            }
        }
        i = i + 1;
    }
    assert(lv.take(i as int) =~= lv);
    proof { lemma_first_shebang(lv); }
    let joined = join_chars(&kept, to_chars("\n").as_slice());
    from_chars(joined.as_slice())
}

proof fn lemma_first_shebang(ls: Seq<Seq<char>>)
    ensures
        first_shebang_line(ls) matches Some(k) ==> 0 <= k < ls.len() && starts_with(trim(ls[k]), "#!"@)
            && forall|j: int| 0 <= j < k ==> !starts_with(trim(ls[j]), "#!"@),
        first_shebang_line(ls) is None ==> forall|j: int| 0 <= j < ls.len() ==> !starts_with(trim(ls[j]), "#!"@),
    decreases ls.len(),
{
    if ls.len() > 0 && !starts_with(trim(ls[0]), "#!"@) {
        lemma_first_shebang(ls.drop_first());
        assert forall|j: int| 1 <= j < ls.len() implies ls[j] == ls.drop_first()[j - 1] by {}
    }
}

proof fn lemma_first_shebang_at(ls: Seq<Seq<char>>, i: int)
    requires
        0 <= i < ls.len(),
        starts_with(trim(ls[i]), "#!"@),
        first_shebang_line(ls) is None || first_shebang_line(ls).unwrap() >= i,
    ensures
        first_shebang_line(ls) == Some(i),
{
    lemma_first_shebang(ls);
}

proof fn lemma_first_shebang_not_at(ls: Seq<Seq<char>>, i: int)
    requires
        0 <= i < ls.len(),
        !starts_with(trim(ls[i]), "#!"@),
        first_shebang_line(ls) is None || first_shebang_line(ls).unwrap() >= i,
    ensures
        first_shebang_line(ls) is None || first_shebang_line(ls).unwrap() >= i + 1,
{
    lemma_first_shebang(ls);
}

/// A value escaped for a double-quoted shell assignment: `\`, `"`, `$`, `` ` `` and `!`
/// get a backslash.
pub open spec fn shell_escaped(v: Seq<char>) -> Seq<char> {
    replace_all(
        replace_all(
            replace_all(replace_all(replace_all(v, "\\"@, "\\\\"@), "\""@, "\\\""@), "$"@, "\\$"@),
            "`"@,
            "\\`"@,
        ),
        "!"@,
        "\\!"@,
    )
}

proof fn lemma_replace_char_concat(a: Seq<char>, b: Seq<char>, c: char, t: Seq<char>)
    ensures
        replace_all(a + b, seq![c], t) == replace_all(a, seq![c], t) + replace_all(b, seq![c], t),
    decreases a.len(),
{
    if a.len() == 0 {
        assert(a + b =~= b);
    } else {
        lemma_replace_char_concat(a.drop_first(), b, c, t);
        let ab = a + b;
        assert(ab[0] == a[0]);
        assert(ab.drop_first() =~= a.drop_first() + b);
        assert(ab.skip(1) =~= a.drop_first() + b);
        assert(a.skip(1) =~= a.drop_first());
        assert(starts_with(ab, seq![c]) == (a[0] == c)) by {
            if starts_with(ab, seq![c]) {
                assert(ab.subrange(0, 1)[0] == ab[0]);
            }
            if a[0] == c {
                assert(ab.subrange(0, 1) =~= seq![c]);
            }
        }
        assert(starts_with(a, seq![c]) == (a[0] == c)) by {
            if starts_with(a, seq![c]) {
                assert(a.subrange(0, 1)[0] == a[0]);
            }
            if a[0] == c {
                assert(a.subrange(0, 1) =~= seq![c]);
            }
        }
    }
}

proof fn lemma_replace_char_absent(s: Seq<char>, c: char, t: Seq<char>)
    requires
        forall|i: int| 0 <= i < s.len() ==> s[i] != c,
    ensures
        replace_all(s, seq![c], t) == s,
    decreases s.len(),
{
    if s.len() > 0 {
        assert forall|i: int| 0 <= i < s.drop_first().len() implies s.drop_first()[i] != c by {
            assert(s.drop_first()[i] == s[i + 1]);
        }
        lemma_replace_char_absent(s.drop_first(), c, t);
        assert(!starts_with(s, seq![c])) by {
            if starts_with(s, seq![c]) {
                assert(s.subrange(0, 1)[0] == s[0]);
            }
        }
        assert(seq![s[0]] + s.drop_first() =~= s);
    }
}

proof fn lemma_replace_char_single(x: char, c: char, t: Seq<char>)
    ensures
        replace_all(seq![x], seq![c], t) == if x == c { t } else { seq![x] },
{
    let s = seq![x];
    if x == c {
        assert(s.subrange(0, 1) =~= seq![c]);
        assert(starts_with(s, seq![c]));
        assert(s.skip(1) =~= Seq::<char>::empty());
        assert(replace_all(Seq::<char>::empty(), seq![c], t) == Seq::<char>::empty());
        assert(replace_all(s, seq![c], t) == t + replace_all(s.skip(1), seq![c], t));
        assert(t + Seq::<char>::empty() =~= t);
    } else {
        lemma_replace_char_absent(s, c, t);
    }
}

/// The escape of one character for a double-quoted shell assignment.
pub open spec fn escaped_char(x: char) -> Seq<char> {
    if x == '\\' || x == '"' || x == '$' || x == '`' || x == '!' {
        seq!['\\', x]
    } else {
        seq![x]
    }
}

/// The escapes of each character, in order.
pub open spec fn escaped_chars(v: Seq<char>) -> Seq<char>
    decreases v.len(),
{
    if v.len() == 0 {
        Seq::empty()
    } else {
        escaped_char(v[0]) + escaped_chars(v.drop_first())
    }
}

/// The five character replacements of `shell_escaped`, in order.
spec fn escape_steps(v: Seq<char>) -> Seq<char> {
    replace_all(
        replace_all(
            replace_all(replace_all(replace_all(v, seq!['\\'], seq!['\\', '\\']), seq!['"'], seq!['\\', '"']), seq!['$'], seq!['\\', '$']),
            seq!['`'],
            seq!['\\', '`'],
        ),
        seq!['!'],
        seq!['\\', '!'],
    )
}

proof fn lemma_escape_steps_concat(a: Seq<char>, b: Seq<char>)
    ensures
        escape_steps(a + b) == escape_steps(a) + escape_steps(b),
{
    lemma_replace_char_concat(a, b, '\\', seq!['\\', '\\']);
    let a1 = replace_all(a, seq!['\\'], seq!['\\', '\\']);
    let b1 = replace_all(b, seq!['\\'], seq!['\\', '\\']);
    lemma_replace_char_concat(a1, b1, '"', seq!['\\', '"']);
    let a2 = replace_all(a1, seq!['"'], seq!['\\', '"']);
    let b2 = replace_all(b1, seq!['"'], seq!['\\', '"']);
    lemma_replace_char_concat(a2, b2, '$', seq!['\\', '$']);
    let a3 = replace_all(a2, seq!['$'], seq!['\\', '$']);
    let b3 = replace_all(b2, seq!['$'], seq!['\\', '$']);
    lemma_replace_char_concat(a3, b3, '`', seq!['\\', '`']);
    let a4 = replace_all(a3, seq!['`'], seq!['\\', '`']);
    let b4 = replace_all(b3, seq!['`'], seq!['\\', '`']);
    lemma_replace_char_concat(a4, b4, '!', seq!['\\', '!']);
}

proof fn lemma_escape_steps_char(x: char)
    ensures
        escape_steps(seq![x]) == escaped_char(x),
{
    let s0 = seq![x];
    lemma_replace_char_single(x, '\\', seq!['\\', '\\']);
    let s1 = replace_all(s0, seq!['\\'], seq!['\\', '\\']);
    // Every later step leaves alone what an earlier one made, except its own character.
    if x == '\\' {
        assert(s1 == seq!['\\', '\\']);
        lemma_replace_char_absent(s1, '"', seq!['\\', '"']);
        lemma_replace_char_absent(s1, '$', seq!['\\', '$']);
        lemma_replace_char_absent(s1, '`', seq!['\\', '`']);
        lemma_replace_char_absent(s1, '!', seq!['\\', '!']);
    } else {
        assert(s1 == seq![x]);
        lemma_replace_char_single(x, '"', seq!['\\', '"']);
        let s2 = replace_all(s1, seq!['"'], seq!['\\', '"']);
        if x == '"' {
            lemma_replace_char_absent(s2, '$', seq!['\\', '$']);
            lemma_replace_char_absent(s2, '`', seq!['\\', '`']);
            lemma_replace_char_absent(s2, '!', seq!['\\', '!']);
        } else {
            lemma_replace_char_single(x, '$', seq!['\\', '$']);
            let s3 = replace_all(s2, seq!['$'], seq!['\\', '$']);
            if x == '$' {
                lemma_replace_char_absent(s3, '`', seq!['\\', '`']);
                lemma_replace_char_absent(s3, '!', seq!['\\', '!']);
            } else {
                lemma_replace_char_single(x, '`', seq!['\\', '`']);
                let s4 = replace_all(s3, seq!['`'], seq!['\\', '`']);
                if x == '`' {
                    lemma_replace_char_absent(s4, '!', seq!['\\', '!']);
                } else {
                    lemma_replace_char_single(x, '!', seq!['\\', '!']);
                }
            }
        }
    }
}

proof fn lemma_escape_steps_chars(v: Seq<char>)
    ensures
        escape_steps(v) == escaped_chars(v),
    decreases v.len(),
{
    if v.len() == 0 {
        lemma_replace_char_absent(v, '\\', seq!['\\', '\\']);
        let e: Seq<char> = Seq::empty();
        lemma_replace_char_absent(e, '"', seq!['\\', '"']);
        lemma_replace_char_absent(e, '$', seq!['\\', '$']);
        lemma_replace_char_absent(e, '`', seq!['\\', '`']);
        lemma_replace_char_absent(e, '!', seq!['\\', '!']);
    } else {
        lemma_escape_steps_chars(v.drop_first());
        assert(seq![v[0]] + v.drop_first() =~= v);
        lemma_escape_steps_concat(seq![v[0]], v.drop_first());
        lemma_escape_steps_char(v[0]);
    }
}

/// The text a POSIX shell reads from the inside of a double-quoted string: a backslash
/// before `$`, `` ` ``, `"` or `\` gives that character, a backslash before a line feed
/// gives nothing, any other backslash stays; `None` when an unescaped `$`, `` ` `` or `"`
/// would expand or end the string.
pub open spec fn double_quoted_read(s: Seq<char>) -> Option<Seq<char>>
    decreases s.len(),
{
    if s.len() == 0 {
        Some(Seq::empty())
    } else if s[0] == '\\' {
        if s.len() >= 2 && (s[1] == '$' || s[1] == '`' || s[1] == '"' || s[1] == '\\') {
            match double_quoted_read(s.skip(2)) {
                Some(r) => Some(seq![s[1]] + r),
                None => None,
            }
        } else if s.len() >= 2 && s[1] == '\n' {
            double_quoted_read(s.skip(2))
        } else {
            match double_quoted_read(s.drop_first()) {
                Some(r) => Some(seq!['\\'] + r),
                None => None,
            }
        }
    } else if s[0] == '$' || s[0] == '`' || s[0] == '"' {
        None
    } else {
        match double_quoted_read(s.drop_first()) {
            Some(r) => Some(seq![s[0]] + r),
            None => None,
        }
    }
}

proof fn lemma_read_escaped_chars(v: Seq<char>)
    requires
        forall|i: int| 0 <= i < v.len() ==> v[i] != '!',
    ensures
        double_quoted_read(escaped_chars(v)) == Some(v),
    decreases v.len(),
{
    if v.len() > 0 {
        let rest = v.drop_first();
        assert forall|i: int| 0 <= i < rest.len() implies rest[i] != '!' by {
            assert(rest[i] == v[i + 1]);
        }
        lemma_read_escaped_chars(rest);
        let x = escaped_chars(rest);
        let s = escaped_char(v[0]) + x;
        assert(escaped_chars(v) == s);
        assert(v[0] != '!');
        if v[0] == '\\' || v[0] == '"' || v[0] == '$' || v[0] == '`' {
            assert(s[0] == '\\' && s[1] == v[0]);
            assert(s.skip(2) =~= x);
        } else {
            assert(s[0] == v[0]);
            assert(s.drop_first() =~= x);
        }
        assert(seq![v[0]] + rest =~= v);
    }
}

/// An escaped value, read by a POSIX shell inside double quotes, gives back exactly the
/// value: every `\`, `"`, `$` and `` ` `` is escaped. (A `!` is escaped too, and the
/// backslash before it stays in what the shell reads, so values with `!` are left out.)
pub proof fn lemma_escaped_value_reads_back(v: Seq<char>)
    requires
        forall|i: int| 0 <= i < v.len() ==> v[i] != '!',
    ensures
        double_quoted_read(shell_escaped(v)) == Some(v),
{
    reveal_strlit("\\");
    reveal_strlit("\\\\");
    reveal_strlit("\"");
    reveal_strlit("\\\"");
    reveal_strlit("$");
    reveal_strlit("\\$");
    reveal_strlit("`");
    reveal_strlit("\\`");
    reveal_strlit("!");
    reveal_strlit("\\!");
    assert("\\"@ =~= seq!['\\']);
    assert("\\\\"@ =~= seq!['\\', '\\']);
    assert("\""@ =~= seq!['"']);
    assert("\\\""@ =~= seq!['\\', '"']);
    assert("$"@ =~= seq!['$']);
    assert("\\$"@ =~= seq!['\\', '$']);
    assert("`"@ =~= seq!['`']);
    assert("\\`"@ =~= seq!['\\', '`']);
    assert("!"@ =~= seq!['!']);
    assert("\\!"@ =~= seq!['\\', '!']);
    assert(shell_escaped(v) == escape_steps(v));
    lemma_escape_steps_chars(v);
    lemma_read_escaped_chars(v);
}

/// A value escaped for a double-quoted PowerShell assignment: `` ` ``, `"` and `$` get a
/// backtick.
pub open spec fn pwsh_escaped(v: Seq<char>) -> Seq<char> {
    replace_all(replace_all(replace_all(v, "`"@, "``"@), "\""@, "`\""@), "$"@, "`$"@)
}

/// Escapes a value for a double-quoted shell assignment.
pub fn escape_shell_value(value: &str) -> (r: String)
    ensures
        r@ == shell_escaped(value@),
{
    let v = to_chars(value);
    let a = replace_chars(v.as_slice(), to_chars("\\").as_slice(), to_chars("\\\\").as_slice());
    let b = replace_chars(a.as_slice(), to_chars("\"").as_slice(), to_chars("\\\"").as_slice());
    let c = replace_chars(b.as_slice(), to_chars("$").as_slice(), to_chars("\\$").as_slice());
    let d = replace_chars(c.as_slice(), to_chars("`").as_slice(), to_chars("\\`").as_slice());
    let e = replace_chars(d.as_slice(), to_chars("!").as_slice(), to_chars("\\!").as_slice());
    from_chars(e.as_slice())
}

/// Escapes a value for a double-quoted PowerShell assignment.
pub fn escape_pwsh_value(value: &str) -> (r: String)
    ensures
        r@ == pwsh_escaped(value@),
{
    let v = to_chars(value);
    let a = replace_chars(v.as_slice(), to_chars("`").as_slice(), to_chars("``").as_slice());
    let b = replace_chars(a.as_slice(), to_chars("\"").as_slice(), to_chars("`\"").as_slice());
    let c = replace_chars(b.as_slice(), to_chars("$").as_slice(), to_chars("`$").as_slice());
    from_chars(c.as_slice())
}

} // verus!
