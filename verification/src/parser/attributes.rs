//! The `# @...` annotations written on the lines above a function definition.
use vstd::prelude::*;
use crate::ast::{ArgMetaView, ArgMetadata, ArgType, AttrView, Attribute, OsPlatform, ShellType, attr_view, attrs_view};
use crate::text::{
    copy_range, from_chars, join, join_chars, lines, lines_of, starts_with, starts_with_exec, to_chars, trim,
    trim_chars, views, words, words_of,
};

verus! {

/// Text without surrounding white space and, when it is at least two characters long
/// and starts and ends with the same quote (`"` or `'`), without those quotes.
pub open spec fn unquoted(s: Seq<char>) -> Seq<char> {
    let t = trim(s);
    if t.len() >= 2 && ((t[0] == '"' && t.last() == '"') || (t[0] == '\'' && t.last() == '\'')) {
        t.subrange(1, t.len() - 1)
    } else {
        t
    }
}

/// Removes surrounding white space and one pair of matching surrounding quotes.
pub fn strip_quotes(s: &str) -> (r: String)
    ensures
        r@ == unquoted(s@),
{
    let c = to_chars(s);
    let t = trim_chars(c.as_slice());
    let n = t.len();
    if n >= 2 && ((t[0] == '"' && t[n - 1] == '"') || (t[0] == '\'' && t[n - 1] == '\'')) {
        let inner = copy_range(t.as_slice(), 1, n - 1);
        from_chars(inner.as_slice())
    } else {
        from_chars(t.as_slice())
    }
}

/// The value of a string of decimal digits.
pub open spec fn digits_value(s: Seq<char>) -> nat
    decreases s.len(),
{
    if s.len() == 0 {
        0
    } else {
        digits_value(s.drop_last()) * 10 + ((s.last() as u32) - ('0' as u32)) as nat
    }
}

/// Every character is an ASCII digit.
pub open spec fn all_digits(s: Seq<char>) -> bool {
    forall|i: int| 0 <= i < s.len() ==> '0' <= #[trigger] s[i] && s[i] <= '9'
}

/// The position of the first `:` in `s`.
pub open spec fn first_colon(s: Seq<char>) -> Option<int>
    decreases s.len(),
{
    if s.len() == 0 {
        None
    } else if s[0] == ':' {
        Some(0)
    } else {
        match first_colon(s.drop_first()) {
            Some(i) => Some(i + 1),
            None => None,
        }
    }
}

/// The type named in an `@arg` annotation, and the index of the first description word.
pub open spec fn arg_type_word(parts: Seq<Seq<char>>) -> (ArgType, int) {
    if parts.len() > 1 {
        let w = parts[1];
        if w == "string"@ {
            (ArgType::String, 2)
        } else if w == "integer"@ {
            (ArgType::Integer, 2)
        } else if w == "float"@ || w == "number"@ {
            (ArgType::Float, 2)
        } else if w == "boolean"@ {
            (ArgType::Boolean, 2)
        } else if w == "object"@ || w == "dict"@ {
            (ArgType::Object, 2)
        } else {
            (ArgType::String, 1)
        }
    } else {
        (ArgType::String, 1)
    }
}

/// The words from `k` on, joined by single spaces and unquoted; empty when none.
pub open spec fn description_from(parts: Seq<Seq<char>>, k: int) -> Seq<char> {
    if k < parts.len() { unquoted(join(parts.skip(k), " "@)) } else { Seq::empty() }
}

/// An `@arg` annotation: `N:name [type] description` (N decimal, the type one of
/// `string`, `integer`, `float`/`number`, `boolean`, `object`/`dict`, else the word starts
/// the description), or `name description` (position 0, string type). `None` when there
/// is no name or N does not fit in `usize`.
pub open spec fn arg_attribute(text: Seq<char>) -> Option<AttrView> {
    let t = trim(text);
    let positional = match first_colon(t) {
        Some(c) => c > 0 && all_digits(t.take(c)),
        None => false,
    };
    if positional {
        let c = first_colon(t)->0;
        let pos = digits_value(t.take(c));
        let parts = words(t.skip(c + 1));
        if pos > usize::MAX || parts.len() == 0 {
            None
        } else {
            let (ty, k) = arg_type_word(parts);
            Some(AttrView::Arg(ArgMetaView { position: pos, name: parts[0], arg_type: ty, description: description_from(parts, k) }))
        }
    } else {
        let parts = words(t);
        if parts.len() == 0 {
            None
        } else {
            Some(AttrView::Arg(ArgMetaView { position: 0, name: parts[0], arg_type: ArgType::String, description: description_from(parts, 1) }))
        }
    }
}

/// The platform an `@os` word names.
pub open spec fn os_named(w: Seq<char>) -> Option<OsPlatform> {
    if w == "windows"@ {
        Some(OsPlatform::Windows)
    } else if w == "linux"@ {
        Some(OsPlatform::Linux)
    } else if w == "macos"@ {
        Some(OsPlatform::MacOS)
    } else if w == "unix"@ {
        Some(OsPlatform::Unix)
    } else {
        None
    }
}

/// The shell an `@shell` word names.
pub open spec fn shell_word(w: Seq<char>) -> Option<ShellType> {
    if w == "python"@ {
        Some(ShellType::Python)
    } else if w == "python3"@ {
        Some(ShellType::Python3)
    } else if w == "node"@ {
        Some(ShellType::Node)
    } else if w == "ruby"@ {
        Some(ShellType::Ruby)
    } else if w == "pwsh"@ {
        Some(ShellType::Pwsh)
    } else if w == "bash"@ {
        Some(ShellType::Bash)
    } else if w == "sh"@ {
        Some(ShellType::Sh)
    } else {
        None
    }
}

/// The text after `# @` or `#@`.
pub open spec fn directive(l: Seq<char>) -> Option<Seq<char>> {
    if starts_with(l, "# @"@) {
        Some(l.skip(3))
    } else if starts_with(l, "#@"@) {
        Some(l.skip(2))
    } else {
        None
    }
}

/// The attribute an annotation line holds: `@desc text`, `@arg spec`, `@os platform` or
/// `@shell name`.
pub open spec fn attribute_line(line: Seq<char>) -> Option<AttrView> {
    match directive(trim(line)) {
        None => None,
        Some(w) => if starts_with(w, "desc "@) {
            Some(AttrView::Desc(unquoted(w.skip(5))))
        } else if starts_with(w, "arg "@) {
            arg_attribute(w.skip(4))
        } else {
            let parts = words(w);
            if parts.len() < 2 {
                None
            } else if parts[0] == "os"@ {
                match os_named(parts[1]) {
                    Some(p) => Some(AttrView::Os(p)),
                    None => None,
                }
            } else if parts[0] == "shell"@ {
                match shell_word(parts[1]) {
                    Some(t) => Some(AttrView::Shell(t)),
                    None => None,
                }
            } else {
                None
            }
        },
    }
}

fn eq_str(a: &[char], b: &str) -> (r: bool)
    ensures
        r == (a@ == b@),
{
    let bc = to_chars(b);
    crate::text::chars_eq(a, bc.as_slice())
}

/// Parses a decimal number that fits in `usize`.
fn parse_usize(s: &[char]) -> (r: Option<usize>)
    requires
        all_digits(s@),
    ensures
        match r {
            Some(v) => v as nat == digits_value(s@),
            None => digits_value(s@) > usize::MAX,
        },
{
    let mut v: usize = 0;
    let mut i: usize = 0;
    assert(s@.take(0) =~= Seq::<char>::empty());
    while i < s.len()
        invariant
            i <= s@.len(),
            all_digits(s@),
            v as nat == digits_value(s@.take(i as int)),
        decreases s@.len() - i,
    {
        assert(s@.take(i + 1).drop_last() =~= s@.take(i as int));
        let c = s[i];
        assert('0' <= s@[i as int] && s@[i as int] <= '9');
        let d = (c as u32) - ('0' as u32);
        if v > (usize::MAX - (d as usize)) / 10 {
            proof {
                lemma_digits_grow(s@, i as int);
            }
            return None;
        }
        v = v * 10 + (d as usize);
        i = i + 1;
    }
    assert(s@.take(i as int) =~= s@);
    Some(v)
}

/// Parses a decimal number that fits in `u64`.
pub(crate) fn parse_u64(s: &[char]) -> (r: Option<u64>)
    requires
        all_digits(s@),
    ensures
        match r {
            Some(v) => v as nat == digits_value(s@),
            None => digits_value(s@) > u64::MAX,
        },
{
    let mut v: u64 = 0;
    let mut i: usize = 0;
    assert(s@.take(0) =~= Seq::<char>::empty());
    while i < s.len()
        invariant
            i <= s@.len(),
            all_digits(s@),
            v as nat == digits_value(s@.take(i as int)),
        decreases s@.len() - i,
    {
        assert(s@.take(i + 1).drop_last() =~= s@.take(i as int));
        let c = s[i];
        assert('0' <= s@[i as int] && s@[i as int] <= '9');
        let d = (c as u32) - ('0' as u32);
        if v > (u64::MAX - (d as u64)) / 10 {
            proof {
                lemma_digits_grow_to(s@, i as int, u64::MAX as nat);
            }
            return None;
        }
        v = v * 10 + (d as u64);
        i = i + 1;
    }
    assert(s@.take(i as int) =~= s@);
    Some(v)
}

proof fn lemma_digits_grow_to(s: Seq<char>, i: int, limit: nat)
    requires
        0 <= i < s.len(),
        all_digits(s),
        digits_value(s.take(i)) > (limit - ((s[i] as u32) - ('0' as u32))) / 10,
        limit >= 9,
    ensures
        digits_value(s) > limit,
{
    let n = digits_value(s.take(i));
    let d = ((s[i] as u32) - ('0' as u32)) as int;
    assert(s.take(i + 1).drop_last() =~= s.take(i));
    assert(digits_value(s.take(i + 1)) == n * 10 + d);
    assert(n * 10 + d > limit) by (nonlinear_arith)
        requires
            n > (limit - d) / 10,
            0 <= d <= 9,
            limit >= 9,
    ;
    lemma_digits_monotone(s, i + 1);
}

proof fn lemma_digits_grow(s: Seq<char>, i: int)
    requires
        0 <= i < s.len(),
        all_digits(s),
        digits_value(s.take(i)) > (usize::MAX - ((s[i] as u32) - ('0' as u32))) / 10,
    ensures
        digits_value(s) > usize::MAX,
    decreases s.len() - i,
{
    let n = digits_value(s.take(i));
    let d = ((s[i] as u32) - ('0' as u32)) as int;
    assert(s.take(i + 1).drop_last() =~= s.take(i));
    assert(digits_value(s.take(i + 1)) == n * 10 + d);
    assert(n * 10 + d > usize::MAX) by (nonlinear_arith)
        requires
            n > (usize::MAX - d) / 10,
            0 <= d <= 9,
    ;
    lemma_digits_monotone(s, i + 1);
}

proof fn lemma_digits_monotone(s: Seq<char>, k: int)
    requires
        0 <= k <= s.len(),
        all_digits(s),
    ensures
        digits_value(s) >= digits_value(s.take(k)),
    decreases s.len() - k,
{
    if k < s.len() {
        lemma_digits_monotone(s, k + 1);
        assert(s.take(k + 1).drop_last() =~= s.take(k));
        assert(digits_value(s.take(k + 1)) >= digits_value(s.take(k))) by (nonlinear_arith)
            requires
                digits_value(s.take(k + 1)) == digits_value(s.take(k)) * 10 + ((s.take(k + 1).last() as u32) - ('0' as u32)) as nat,
        ;
    } else {
        assert(s.take(k) =~= s);
    }
}

fn colon_index(s: &[char]) -> (r: Option<usize>)
    ensures
        match r {
            Some(i) => first_colon(s@) == Some(i as int) && i < s@.len(),
            None => first_colon(s@) is None,
        },
{
    let mut i: usize = 0;
    assert(s@.skip(0) =~= s@);
    while i < s.len()
        invariant
            i <= s@.len(),
            forall|j: int| 0 <= j < i ==> s@[j] != ':',
            first_colon(s@) == match first_colon(s@.skip(i as int)) {
                Some(k) => Some(k + i),
                None => None,
            },
        decreases s@.len() - i,
    {
        assert(s@.skip(i as int).drop_first() =~= s@.skip(i + 1));
        if s[i] == ':' {
            return Some(i);
        }
        i = i + 1;
    }
    None
}

pub(crate) fn all_digits_exec(s: &[char]) -> (b: bool)
    ensures
        b == all_digits(s@),
{
    let mut i: usize = 0;
    while i < s.len()
        invariant
            i <= s@.len(),
            forall|j: int| 0 <= j < i ==> '0' <= #[trigger] s@[j] && s@[j] <= '9',
        decreases s@.len() - i,
    {
        if !('0' <= s[i] && s[i] <= '9') {
            return false;
        }
        i = i + 1;
    }
    true
}

fn description_exec(parts: &Vec<Vec<char>>, k: usize) -> (r: String)
    ensures
        r@ == description_from(views(parts@), k as int),
{
    if k < parts.len() {
        let mut rest: Vec<Vec<char>> = Vec::new();
        let mut j = k;
        while j < parts.len()
            invariant
                k <= j <= parts@.len(),
                views(rest@) == views(parts@).subrange(k as int, j as int),
            decreases parts@.len() - j,
        {
            let ghost before = views(rest@);
            rest.push(copy_range(parts[j].as_slice(), 0, parts[j].len()));
            assert(parts[j as int]@.subrange(0, parts[j as int]@.len() as int) =~= parts[j as int]@);
            assert(views(rest@) =~= before.push(views(parts@)[j as int]));
            assert(views(parts@).subrange(k as int, j + 1) =~= views(parts@).subrange(k as int, j as int).push(views(parts@)[j as int]));
            j = j + 1;
        }
        assert(views(parts@).subrange(k as int, j as int) =~= views(parts@).skip(k as int));
        let joined = join_chars(&rest, to_chars(" ").as_slice());
        let js = from_chars(joined.as_slice());
        strip_quotes(js.as_str())
    } else {
        String::new()
    }
}

/// Parses an `@arg` annotation (see `arg_attribute`).
pub fn parse_arg_attribute(arg_text: &str) -> (r: Option<Attribute>)
    ensures
        match r {
            Some(a) => arg_attribute(arg_text@) == Some(attr_view(a)),
            None => arg_attribute(arg_text@) is None,
        },
{
    let c = to_chars(arg_text);
    let t = trim_chars(c.as_slice());
    let colon = colon_index(t.as_slice());
    let positional = match colon {
        Some(ci) => {
            let prefix = copy_range(t.as_slice(), 0, ci);
            assert(prefix@ =~= t@.take(ci as int));
            ci > 0 && all_digits_exec(prefix.as_slice())
        },
        None => false,
    };
    if positional {
        let ci = colon.unwrap();
        assert(colon == Some(ci) && ci < t@.len());
        let prefix = copy_range(t.as_slice(), 0, ci);
        assert(prefix@ =~= t@.take(ci as int));
        let rest = copy_range(t.as_slice(), ci + 1, t.len());
        assert(rest@ =~= t@.skip(ci + 1));
        let parts = words_of(rest.as_slice());
        let pos = match parse_usize(prefix.as_slice()) {
            Some(p) => p,
            None => return None,
        };
        if parts.len() == 0 {
            return None;
        }
        let (ty, k): (ArgType, usize) = if parts.len() > 1 {
            let w = parts[1].as_slice();
            if eq_str(w, "string") {
                (ArgType::String, 2)
            } else if eq_str(w, "integer") {
                (ArgType::Integer, 2)
            } else if eq_str(w, "float") || eq_str(w, "number") {
                (ArgType::Float, 2)
            } else if eq_str(w, "boolean") {
                (ArgType::Boolean, 2)
            } else if eq_str(w, "object") || eq_str(w, "dict") {
                (ArgType::Object, 2)
            } else {
                (ArgType::String, 1)
            }
        } else {
            (ArgType::String, 1)
        };
        let description = description_exec(&parts, k);
        let name = from_chars(parts[0].as_slice());
        Some(Attribute::Arg(ArgMetadata { position: pos, name, arg_type: ty, description }))
    } else {
        let parts = words_of(t.as_slice());
        if parts.len() == 0 {
            return None;
        }
        let description = description_exec(&parts, 1);
        let name = from_chars(parts[0].as_slice());
        Some(Attribute::Arg(ArgMetadata { position: 0, name, arg_type: ArgType::String, description }))
    }
}

/// Parses one annotation line (see `attribute_line`).
pub fn parse_attribute_line(line: &str) -> (r: Option<Attribute>)
    ensures
        match r {
            Some(a) => attribute_line(line@) == Some(attr_view(a)),
            None => attribute_line(line@) is None,
        },
{
    let c = to_chars(line);
    let l = trim_chars(c.as_slice());
    let p1 = to_chars("# @");
    let p2 = to_chars("#@");
    proof {
        reveal_strlit("# @");
        reveal_strlit("#@");
        reveal_strlit("desc ");
        reveal_strlit("arg ");
    }
    let w = if starts_with_exec(l.as_slice(), p1.as_slice()) {
        copy_range(l.as_slice(), 3, l.len())
    } else if starts_with_exec(l.as_slice(), p2.as_slice()) {
        copy_range(l.as_slice(), 2, l.len())
    } else {
        return None;
    };
    assert(directive(trim(line@)) == Some(w@));
    if starts_with_exec(w.as_slice(), to_chars("desc ").as_slice()) {
        let d = copy_range(w.as_slice(), 5, w.len());
        assert(d@ =~= w@.skip(5));
        let ds = from_chars(d.as_slice());
        return Some(Attribute::Desc(strip_quotes(ds.as_str())));
    }
    if starts_with_exec(w.as_slice(), to_chars("arg ").as_slice()) {
        let a = copy_range(w.as_slice(), 4, w.len());
        assert(a@ =~= w@.skip(4));
        let s = from_chars(a.as_slice());
        return parse_arg_attribute(s.as_str());
    }
    let parts = words_of(w.as_slice());
    if parts.len() < 2 {
        return None;
    }
    let k = parts[0].as_slice();
    let v = parts[1].as_slice();
    if eq_str(k, "os") {
        if eq_str(v, "windows") {
            Some(Attribute::Os(OsPlatform::Windows))
        } else if eq_str(v, "linux") {
            Some(Attribute::Os(OsPlatform::Linux))
        } else if eq_str(v, "macos") {
            Some(Attribute::Os(OsPlatform::MacOS))
        } else if eq_str(v, "unix") {
            Some(Attribute::Os(OsPlatform::Unix))
        } else {
            None
        }
    } else if eq_str(k, "shell") {
        if eq_str(v, "python") {
            Some(Attribute::Shell(ShellType::Python))
        } else if eq_str(v, "python3") {
            Some(Attribute::Shell(ShellType::Python3))
        } else if eq_str(v, "node") {
            Some(Attribute::Shell(ShellType::Node))
        } else if eq_str(v, "ruby") {
            Some(Attribute::Shell(ShellType::Ruby))
        } else if eq_str(v, "pwsh") {
            Some(Attribute::Shell(ShellType::Pwsh))
        } else if eq_str(v, "bash") {
            Some(Attribute::Shell(ShellType::Bash))
        } else if eq_str(v, "sh") {
            Some(Attribute::Shell(ShellType::Sh))
        } else {
            None
        }
    } else {
        None
    }
}

/// The line is a comment: not blank after trimming, and starting with `#`.
pub open spec fn comment_line(l: Seq<char>) -> bool {
    trim(l).len() > 0 && trim(l)[0] == '#'
}

/// The line is an annotation line: trimmed, it starts with `# @` or `#@`.
pub open spec fn annotation_line(l: Seq<char>) -> bool {
    starts_with(trim(l), "# @"@) || starts_with(trim(l), "#@"@)
}

/// The attributes of the run of comment lines that ends at line `i`, in source order;
/// lines that are not annotations, or do not parse, add nothing.
pub open spec fn attributes_upward(ls: Seq<Seq<char>>, i: int) -> Seq<AttrView>
    decreases i + 1,
{
    if i < 0 || i >= ls.len() || !comment_line(ls[i]) {
        Seq::empty()
    } else {
        attributes_upward(ls, i - 1) + if annotation_line(ls[i]) {
            match attribute_line(trim(ls[i])) {
                Some(a) => seq![a],
                None => Seq::empty(),
            }
        } else {
            Seq::empty()
        }
    }
}

/// The attributes for a definition on line `line_num` (0-based): those of the comment
/// lines directly above it.
pub open spec fn attributes_before(input: Seq<char>, line_num: nat) -> Seq<AttrView> {
    if line_num == 0 { Seq::empty() } else { attributes_upward(lines(input), line_num - 1) }
}

/// The attributes written on the comment lines directly above line `line_num`.
pub fn parse_attributes_from_lines(input: &str, line_num: usize) -> (r: Vec<Attribute>)
    ensures
        attrs_view(r@) == attributes_before(input@, line_num as nat),
{
    let mut collected: Vec<Attribute> = Vec::new();
    if line_num == 0 {
        assert(attrs_view(collected@) =~= Seq::<AttrView>::empty());
        return collected;
    }
    let c = to_chars(input);
    let ls = lines_of(c.as_slice());
    let ghost lv = views(ls@);
    let mut i: usize = line_num - 1;
    let ghost top = (line_num - 1) as int;
    let mut done = false;
    assert(attrs_view(collected@).reverse() =~= Seq::<AttrView>::empty());
    assert(attributes_upward(lv, top) =~= attributes_upward(lv, top) + Seq::<AttrView>::empty());
    while !done
        invariant
            lv == views(ls@),
            lv == lines(input@),
            top == line_num - 1,
            i <= top,
            done ==> attributes_upward(lv, top) == attrs_view(collected@).reverse(),
            !done ==> attributes_upward(lv, top) == attributes_upward(lv, i as int) + attrs_view(collected@).reverse(),
        decreases i + (if done { 0int } else { 1int }),
    {
        if i >= ls.len() {
            done = true;
            assert(attributes_upward(lv, i as int) =~= Seq::<AttrView>::empty());
            assert(Seq::<AttrView>::empty() + attrs_view(collected@).reverse() =~= attrs_view(collected@).reverse());
        } else {
            let t = trim_chars(ls[i].as_slice());
            if t.len() == 0 || t[0] != '#' {
                done = true;
                assert(!comment_line(lv[i as int]));
                assert(Seq::<AttrView>::empty() + attrs_view(collected@).reverse() =~= attrs_view(collected@).reverse());
            } else {
                assert(comment_line(lv[i as int]));
                let ghost before = attrs_view(collected@);
                let is_ann = starts_with_exec(t.as_slice(), to_chars("# @").as_slice()) || starts_with_exec(
                    t.as_slice(),
                    to_chars("#@").as_slice(),
                );
                let ghost piece = if annotation_line(lv[i as int]) {
                    match attribute_line(trim(lv[i as int])) {
                        Some(a) => seq![a],
                        None => Seq::<AttrView>::empty(),
                    }
                } else {
                    Seq::<AttrView>::empty()
                };
                if is_ann {
                    let ts = from_chars(t.as_slice());
                    match parse_attribute_line(ts.as_str()) {
                        Some(a) => {
                            collected.push(a);
                            assert(attrs_view(collected@) =~= before.push(attr_view(a)));
                            assert(before.push(attr_view(a)).reverse() =~= seq![attr_view(a)] + before.reverse());
                        },
                        None => {},
                    }
                }
                assert(attrs_view(collected@).reverse() =~= piece + before.reverse());
                assert(attributes_upward(lv, i as int) == attributes_upward(lv, i - 1) + piece);
                if i == 0 {
                    done = true;
                    assert(attributes_upward(lv, -1) =~= Seq::<AttrView>::empty());
                    assert(Seq::<AttrView>::empty() + piece + before.reverse() =~= attrs_view(collected@).reverse());
                } else {
                    assert(attributes_upward(lv, i - 1) + piece + before.reverse() =~= attributes_upward(lv, i - 1) + attrs_view(collected@).reverse());
                    i = i - 1;
                }
            }
        }
    }
    let ghost cv = attrs_view(collected@);
    let r = reversed(collected);
    assert(attrs_view(r@) =~= cv.reverse());
    r
}

/// The elements in reverse order.
fn reversed<T>(v: Vec<T>) -> (r: Vec<T>)
    ensures
        r@ == v@.reverse(),
{
    let mut v = v;
    let ghost orig = v@;
    let mut r: Vec<T> = Vec::new();
    while v.len() > 0
        invariant
            orig == v@ + r@.reverse(),
        decreases v@.len(),
    {
        let ghost before_v = v@;
        let ghost before_r = r@;
        let x = v.pop().unwrap();
        r.push(x);
        assert(before_v =~= v@.push(x));
        assert(r@.reverse() =~= seq![x] + before_r.reverse());
        assert(orig =~= v@ + r@.reverse());
    }
    assert(r@.reverse().reverse() =~= r@);
    assert(orig =~= r@.reverse());
    assert(orig.reverse() =~= r@);
    r
}

} // verus!
