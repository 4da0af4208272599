//! Line-level text handling for Runfiles: continuation lines, shebangs and command words.
use vstd::prelude::*;
use crate::text::{
    copy_range, from_chars, is_whitespace, is_ws, join, join_chars, lines, lines_of, push_all, push_str,
    rtrim, rtrim_chars, starts_with, starts_with_exec, to_chars, trim, trim_chars, views,
};

verus! {

/// The text and the pending continuation after the first lines: a line whose trimmed end
/// is `\` continues on the next one (the `\` becomes a space); a complete logical line is
/// added with its trailing white space removed and a line feed.
pub open spec fn joined_lines(ls: Seq<Seq<char>>) -> (Seq<char>, Seq<char>)
    decreases ls.len(),
{
    if ls.len() == 0 {
        (Seq::empty(), Seq::empty())
    } else {
        let (r, b) = joined_lines(ls.drop_last());
        let t = rtrim(ls.last());
        if t.len() > 0 && t.last() == '\\' {
            (r, b + t.drop_last() + " "@)
        } else {
            (r + rtrim(b + t) + "\n"@, Seq::empty())
        }
    }
}

/// The input with backslash-continued lines joined: every logical line ends with `\n`.
pub open spec fn preprocessed(input: Seq<char>) -> Seq<char> {
    let (r, b) = joined_lines(lines(input));
    if b.len() > 0 { r + rtrim(b) + "\n"@ } else { r }
}

/// Joins lines that end with a backslash with the line after them.
pub fn preprocess_escaped_newlines(input: &str) -> (r: String)
    ensures
        r@ == preprocessed(input@),
{
    let c = to_chars(input);
    let ls = lines_of(c.as_slice());
    let ghost lv = views(ls@);
    let mut result: Vec<char> = Vec::new();
    let mut buffer: Vec<char> = Vec::new();
    let mut i: usize = 0;
    while i < ls.len()
        invariant
            i <= ls@.len(),
            lv == views(ls@),
            (result@, buffer@) == joined_lines(lv.take(i as int)),
        decreases ls@.len() - i,
    {
        assert(lv.take(i + 1).drop_last() =~= lv.take(i as int));
        let t = rtrim_chars(ls[i].as_slice());
        if t.len() > 0 && t[t.len() - 1] == '\\' {
            let stripped = copy_range(t.as_slice(), 0, t.len() - 1);
            assert(stripped@ =~= t@.drop_last());
            push_all(&mut buffer, stripped.as_slice());
            push_str(&mut buffer, " ");
        } else {
            push_all(&mut buffer, t.as_slice());
            let b = rtrim_chars(buffer.as_slice());
            push_all(&mut result, b.as_slice());
            push_str(&mut result, "\n");
            buffer = Vec::new();
            assert(buffer@ =~= Seq::<char>::empty());
        }
        i = i + 1;
    }
    assert(lv.take(i as int) =~= lv);
    if buffer.len() > 0 {
        let b = rtrim_chars(buffer.as_slice());
        push_all(&mut result, b.as_slice());
        push_str(&mut result, "\n");
    }
    from_chars(result.as_slice())
}

/// The interpreter line of a body: the first non-blank line, comment lines (`#` but not
/// `#!`) skipped, when it is a `#!` line; its text after `#!`, trimmed.
pub open spec fn shebang_in(ls: Seq<Seq<char>>) -> Option<Seq<char>>
    decreases ls.len(),
{
    if ls.len() == 0 {
        None
    } else {
        let t = trim(ls[0]);
        if t.len() == 0 {
            shebang_in(ls.drop_first())
        } else if starts_with(t, "#!"@) {
            Some(trim(t.skip(2)))
        } else if t[0] == '#' {
            shebang_in(ls.drop_first())
        } else {
            None
        }
    }
}

/// The shebang of a function body (see `shebang_in`).
pub fn parse_shebang(body: &str) -> (r: Option<String>)
    ensures
        match r {
            Some(s) => shebang_in(lines(body@)) == Some(s@),
            None => shebang_in(lines(body@)) is None,
        },
{
    let c = to_chars(body);
    let ls = lines_of(c.as_slice());
    let ghost lv = views(ls@);
    let bang = to_chars("#!");
    proof { reveal_strlit("#!"); }
    let mut i: usize = 0;
    assert(lv.skip(0) =~= lv);
    while i < ls.len()
        invariant
            i <= ls@.len(),
            lv == views(ls@),
            lv == lines(body@),
            bang@ == "#!"@,
            "#!"@.len() == 2,
            shebang_in(lv) == shebang_in(lv.skip(i as int)),
        decreases ls@.len() - i,
    {
        assert(lv.skip(i as int).drop_first() =~= lv.skip(i + 1));
        assert(lv.skip(i as int)[0] == lv[i as int]);
        let t = trim_chars(ls[i].as_slice());
        if t.len() > 0 {
            if starts_with_exec(t.as_slice(), bang.as_slice()) {
                let rest = copy_range(t.as_slice(), 2, t.len());
                assert(rest@ =~= t@.skip(2));
                let r = trim_chars(rest.as_slice());
                return Some(from_chars(r.as_slice()));
            } else if t[0] != '#' {
                return None;
            }
        }
        i = i + 1;
    }
    assert(lv.skip(i as int) =~= Seq::<Seq<char>>::empty());
    None
}

/// The words of a command line: runs of characters separated by white space outside
/// double quotes; inside double quotes a backslash escapes the next character.
/// `cur` is the word being read, `dq` whether a double quote is open, `esc` whether the
/// previous character was an escaping backslash.
pub open spec fn words_from(s: Seq<char>, i: int, cur: Seq<char>, dq: bool, esc: bool) -> Seq<Seq<char>>
    decreases s.len() - i,
{
    if i < 0 || i >= s.len() {
        if cur.len() > 0 { seq![cur] } else { Seq::empty() }
    } else {
        let c = s[i];
        if dq {
            if esc {
                words_from(s, i + 1, cur.push(c), true, false)
            } else if c == '\\' {
                words_from(s, i + 1, cur.push(c), true, true)
            } else if c == '"' {
                words_from(s, i + 1, cur.push(c), false, false)
            } else {
                words_from(s, i + 1, cur.push(c), true, false)
            }
        } else if is_ws(c) {
            if cur.len() > 0 {
                seq![cur] + words_from(s, i + 1, Seq::empty(), false, false)
            } else {
                words_from(s, i + 1, Seq::empty(), false, false)
            }
        } else if c == '"' {
            words_from(s, i + 1, cur.push(c), true, false)
        } else {
            words_from(s, i + 1, cur.push(c), false, false)
        }
    }
}

/// The position of a double quote that is still open at the end of `s`, scanning from
/// `i` with the quote opened at `open` (when `dq`).
pub open spec fn open_quote_from(s: Seq<char>, i: int, dq: bool, esc: bool, open: int) -> Option<int>
    decreases s.len() - i,
{
    if i < 0 || i >= s.len() {
        if dq { Some(open) } else { None }
    } else {
        let c = s[i];
        if dq {
            if esc {
                open_quote_from(s, i + 1, true, false, open)
            } else if c == '\\' {
                open_quote_from(s, i + 1, true, true, open)
            } else if c == '"' {
                open_quote_from(s, i + 1, false, false, open)
            } else {
                open_quote_from(s, i + 1, true, false, open)
            }
        } else if c == '"' {
            open_quote_from(s, i + 1, true, false, i)
        } else {
            open_quote_from(s, i + 1, false, false, open)
        }
    }
}

/// The command words (see `words_from`).
pub open spec fn command_words(s: Seq<char>) -> Seq<Seq<char>> {
    words_from(s, 0, Seq::empty(), false, false)
}

/// The position of a double quote left open in `s`.
pub open spec fn unclosed_quote(s: Seq<char>) -> Option<int> {
    open_quote_from(s, 0, false, false, 0)
}

/// A command with its words separated by single spaces (white space inside double
/// quotes is kept).
pub open spec fn normalized_command(s: Seq<char>) -> Seq<char> {
    join(command_words(s), " "@)
}

/// Splits a command into words and scans for an unclosed double quote.
fn scan_command(s: &[char]) -> (r: (Vec<Vec<char>>, Option<usize>))
    ensures
        views(r.0@) == command_words(s@),
        match r.1 {
            Some(q) => unclosed_quote(s@) == Some(q as int),
            None => unclosed_quote(s@) is None,
        },
{
    let mut done: Vec<Vec<char>> = Vec::new();
    let mut cur: Vec<char> = Vec::new();
    let mut dq = false;
    let mut esc = false;
    let mut open: usize = 0;
    let mut i: usize = 0;
    while i < s.len()
        invariant
            i <= s@.len(),
            open <= i,
            !dq ==> !esc,
            command_words(s@) == views(done@) + words_from(s@, i as int, cur@, dq, esc),
            unclosed_quote(s@) == open_quote_from(s@, i as int, dq, esc, open as int),
        decreases s@.len() - i,
    {
        let c = s[i];
        let ghost cur0 = cur@;
        let ghost dq0 = dq;
        let ghost esc0 = esc;
        let ghost open0 = open;
        let ghost done0 = views(done@);
        if dq {
            if esc {
                cur.push(c);
                esc = false;
            } else if c == '\\' {
                cur.push(c);
                esc = true;
            } else if c == '"' {
                cur.push(c);
                dq = false;
            } else {
                cur.push(c);
            }
        } else if is_whitespace(c) {
            if cur.len() > 0 {
                let ghost before = views(done@);
                let ghost w = cur@;
                done.push(cur);
                cur = Vec::new();
                assert(views(done@) =~= before.push(w));
                assert(before + (seq![w] + words_from(s@, i + 1, Seq::empty(), false, false)) =~= before.push(w) + words_from(s@, i + 1, Seq::empty(), false, false));
            } else {
                cur = Vec::new();
            }
            assert(cur@ =~= Seq::<char>::empty());
        } else if c == '"' {
            cur.push(c);
            dq = true;
            esc = false;
            open = i;
        } else {
            cur.push(c);
        }
        assert(words_from(s@, i as int, cur0, dq0, esc0) == if !dq0 && is_ws(c) && cur0.len() > 0 {
            seq![cur0] + words_from(s@, i + 1, cur@, dq, esc)
        } else {
            words_from(s@, i + 1, cur@, dq, esc)
        });
        assert(open_quote_from(s@, i as int, dq0, esc0, open0 as int) == open_quote_from(s@, i + 1, dq, esc, open as int));
        i = i + 1;
    }
    if cur.len() > 0 {
        let ghost before = views(done@);
        let ghost w = cur@;
        done.push(cur);
        assert(views(done@) =~= before + seq![w]);
    } else {
        assert(views(done@) + Seq::<Seq<char>>::empty() =~= views(done@));
    }
    (done, if dq { Some(open) } else { None })
}

/// A command with its words separated by single spaces (see `normalized_command`).
pub fn parse_command(text: &str) -> (r: String)
    ensures
        r@ == normalized_command(text@),
{
    let c = to_chars(text);
    let (ws, _) = scan_command(c.as_slice());
    let j = join_chars(&ws, to_chars(" ").as_slice());
    from_chars(j.as_slice())
}

/// The position of a double quote that a command leaves open.
pub fn find_unclosed_quote(text: &[char]) -> (r: Option<usize>)
    ensures
        match r {
            Some(q) => unclosed_quote(text@) == Some(q as int) && q < text@.len(),
            None => unclosed_quote(text@) is None,
        },
{
    let (_, q) = scan_command(text);
    proof { lemma_open_quote_bound(text@, 0, false, false, 0); }
    q
}

proof fn lemma_open_quote_bound(s: Seq<char>, i: int, dq: bool, esc: bool, open: int)
    requires
        0 <= i,
        dq ==> 0 <= open < s.len(),
    ensures
        open_quote_from(s, i, dq, esc, open) matches Some(q) ==> 0 <= q < s.len(),
    decreases s.len() - i,
{
    if i < s.len() {
        let c = s[i];
        if dq {
            if esc {
                lemma_open_quote_bound(s, i + 1, true, false, open);
            } else if c == '\\' {
                lemma_open_quote_bound(s, i + 1, true, true, open);
            } else if c == '"' {
                lemma_open_quote_bound(s, i + 1, false, false, open);
            } else {
                lemma_open_quote_bound(s, i + 1, true, false, open);
            }
        } else if c == '"' {
            lemma_open_quote_bound(s, i + 1, true, false, i);
        } else {
            lemma_open_quote_bound(s, i + 1, false, false, open);
        }
    }
}

/// The command words (see `command_words`).
pub fn command_words_exec(s: &[char]) -> (r: Vec<Vec<char>>)
    ensures
        views(r@) == command_words(s@),
{
    let (ws, _) = scan_command(s);
    ws
}

} // verus!
