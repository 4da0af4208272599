//! Block bodies: finding the closing brace, dedenting the content, splitting commands.
use vstd::prelude::*;
use crate::ast::Attribute;
use crate::text::{
    copy_range, from_chars, has_char, has_char_exec, join, join_chars, lines, lines_of, ltrim, ltrim_index,
    to_chars, trim, trim_chars, views, split_on,
};

verus! {

/// The position `(line, column)` of the `}` that closes the block open at `depth`,
/// scanning from column `j` of line `n`. Braces inside single or double quotes do not
/// count; quotes do not extend past the end of a line; inside double quotes a backslash
/// escapes the next character. Nesting deeper than `usize::MAX` levels is not closed.
pub open spec fn brace_close(ls: Seq<Seq<char>>, n: int, j: int, depth: nat, dq: bool, sq: bool, esc: bool) -> Option<(int, int)>
    decreases ls.len() - n, (if 0 <= n < ls.len() && 0 <= j <= ls[n].len() { ls[n].len() - j } else { 0 }),
{
    if n < 0 || n >= ls.len() {
        None
    } else if j < 0 || j >= ls[n].len() {
        brace_close(ls, n + 1, 0, depth, false, false, false)
    } else {
        let c = ls[n][j];
        if dq {
            if esc {
                brace_close(ls, n, j + 1, depth, true, false, false)
            } else if c == '\\' {
                brace_close(ls, n, j + 1, depth, true, false, true)
            } else if c == '"' {
                brace_close(ls, n, j + 1, depth, false, false, false)
            } else {
                brace_close(ls, n, j + 1, depth, true, false, false)
            }
        } else if sq {
            brace_close(ls, n, j + 1, depth, false, c != '\'', false)
        } else if c == '"' {
            brace_close(ls, n, j + 1, depth, true, false, false)
        } else if c == '\'' {
            brace_close(ls, n, j + 1, depth, false, true, false)
        } else if c == '{' {
            if depth >= usize::MAX {
                None
            } else {
                brace_close(ls, n, j + 1, depth + 1, false, false, false)
            }
        } else if c == '}' {
            if depth <= 1 {
                Some((n, j))
            } else {
                brace_close(ls, n, j + 1, (depth - 1) as nat, false, false, false)
            }
        } else {
            brace_close(ls, n, j + 1, depth, false, false, false)
        }
    }
}

/// The text from `(n0, j0)` through `(n1, j1)`, lines joined by `\n`.
pub open spec fn span_text(ls: Seq<Seq<char>>, n0: int, j0: int, n1: int, j1: int) -> Seq<char> {
    if n1 == n0 {
        ls[n0].subrange(j0, j1 + 1)
    } else {
        join(seq![ls[n0].skip(j0)] + ls.subrange(n0 + 1, n1) + seq![ls[n1].take(j1 + 1)], "\n"@)
    }
}

/// Finds the brace that closes the block opened by the `{` at `(n, j)`.
pub fn find_block_close(ls: &Vec<Vec<char>>, n: usize, j: usize) -> (r: Option<(usize, usize)>)
    requires
        n < ls@.len(),
        j < ls@[n as int]@.len(),
        ls@[n as int]@[j as int] == '{',
    ensures
        match r {
            Some((a, b)) => brace_close(views(ls@), n as int, j as int, 0, false, false, false) == Some(
                (a as int, b as int),
            ) && n <= a < ls@.len() && b < ls@[a as int]@.len() && (a == n ==> j < b),
            None => brace_close(views(ls@), n as int, j as int, 0, false, false, false) is None,
        },
{
    let ghost lv = views(ls@);
    let row_len = ls[n].len();
    assert(j < row_len);
    let mut line = n;
    let mut col = j + 1;
    let mut depth: usize = 1;
    let mut dq = false;
    let mut sq = false;
    let mut esc = false;
    assert(lv[n as int][j as int] == '{');
    while line < ls.len()
        invariant
            lv == views(ls@),
            n <= line <= ls@.len(),
            line < ls@.len() ==> col <= ls@[line as int]@.len(),
            line == n ==> col > j,
            depth >= 1,
            !dq ==> !esc,
            !(dq && sq),
            brace_close(lv, n as int, j as int, 0, false, false, false) == brace_close(
                lv,
                line as int,
                col as int,
                depth as nat,
                dq,
                sq,
                esc,
            ),
        decreases ls@.len() - line, (if line < ls@.len() { ls@[line as int]@.len() - col } else { 0 }),
    {
        if col >= ls[line].len() {
            line = line + 1;
            col = 0;
            dq = false;
            sq = false;
            esc = false;
        } else {
            let c = ls[line][col];
            assert(c == lv[line as int][col as int]);
            if dq {
                if esc {
                    esc = false;
                } else if c == '\\' {
                    esc = true;
                } else if c == '"' {
                    dq = false;
                }
            } else if sq {
                sq = c != '\'';
            } else if c == '"' {
                dq = true;
            } else if c == '\'' {
                sq = true;
            } else if c == '{' {
                if depth == usize::MAX {
                    return None;
                }
                depth = depth + 1;
            } else if c == '}' {
                if depth <= 1 {
                    return Some((line, col));
                }
                depth = depth - 1;
            }
            col = col + 1;
        }
    }
    None
}

/// The content of a block body: `{` and `}` removed (when the text does not end with
/// `}`, the whole text is kept, the leading `{` included).
pub open spec fn block_body_text(b: Seq<char>) -> Seq<char> {
    let a = if b.len() > 0 && b[0] == '{' { b.drop_first() } else { b };
    if a.len() > 0 && a.last() == '}' { a.drop_last() } else { b }
}

/// The line holds only white space.
pub open spec fn blank(l: Seq<char>) -> bool {
    trim(l).len() == 0
}

/// The number of leading white-space characters.
pub open spec fn indent_width(l: Seq<char>) -> nat {
    (l.len() - ltrim(l).len()) as nat
}

/// The smallest indentation of the non-blank lines.
pub open spec fn min_indent(ls: Seq<Seq<char>>) -> Option<nat>
    decreases ls.len(),
{
    if ls.len() == 0 {
        None
    } else {
        let m = min_indent(ls.drop_last());
        if blank(ls.last()) {
            m
        } else {
            match m {
                None => Some(indent_width(ls.last())),
                Some(x) => Some(if x <= indent_width(ls.last()) { x } else { indent_width(ls.last()) }),
            }
        }
    }
}

/// The index of the first non-blank line.
pub open spec fn first_nonblank(ls: Seq<Seq<char>>) -> Option<int>
    decreases ls.len(),
{
    if ls.len() == 0 {
        None
    } else if !blank(ls[0]) {
        Some(0)
    } else {
        match first_nonblank(ls.drop_first()) {
            Some(i) => Some(i + 1),
            None => None,
        }
    }
}

/// The index of the last non-blank line.
pub open spec fn last_nonblank(ls: Seq<Seq<char>>) -> Option<int>
    decreases ls.len(),
{
    if ls.len() == 0 {
        None
    } else if !blank(ls.last()) {
        Some(ls.len() - 1)
    } else {
        last_nonblank(ls.drop_last())
    }
}

/// The lines from the first to the last non-blank one.
pub open spec fn kept_lines(ls: Seq<Seq<char>>) -> Seq<Seq<char>> {
    let start = match first_nonblank(ls) {
        Some(i) => i,
        None => 0,
    };
    let end = match last_nonblank(ls) {
        Some(i) => i + 1,
        None => ls.len() as int,
    };
    if start < end { ls.subrange(start, end) } else { Seq::empty() }
}

/// A line with the common indentation removed (blank lines become empty).
pub open spec fn dedent_line(l: Seq<char>, m: nat) -> Seq<char> {
    if blank(l) {
        Seq::empty()
    } else if l.len() > m {
        l.skip(m as int)
    } else {
        l
    }
}

/// The dedented content of a block: leading and trailing blank lines dropped, the
/// smallest indentation of the non-blank lines removed from each line.
pub open spec fn block_content(b: Seq<char>) -> Seq<char> {
    let ks = kept_lines(lines(block_body_text(b)));
    let m = match min_indent(ks) {
        Some(x) => x,
        None => 0,
    };
    join(Seq::new(ks.len(), |k: int| dedent_line(ks[k], m)), "\n"@)
}

proof fn lemma_first_nonblank(ls: Seq<Seq<char>>)
    ensures
        first_nonblank(ls) matches Some(i) ==> 0 <= i < ls.len() && !blank(ls[i]) && forall|k: int| 0 <= k < i ==> blank(ls[k]),
        first_nonblank(ls) is None ==> forall|k: int| 0 <= k < ls.len() ==> blank(ls[k]),
    decreases ls.len(),
{
    if ls.len() > 0 && blank(ls[0]) {
        lemma_first_nonblank(ls.drop_first());
        assert forall|k: int| 1 <= k < ls.len() implies ls[k] == ls.drop_first()[k - 1] by {}
    }
}

proof fn lemma_last_nonblank(ls: Seq<Seq<char>>)
    ensures
        last_nonblank(ls) matches Some(i) ==> 0 <= i < ls.len() && !blank(ls[i]) && forall|k: int| i < k < ls.len() ==> blank(ls[k]),
        last_nonblank(ls) is None ==> forall|k: int| 0 <= k < ls.len() ==> blank(ls[k]),
    decreases ls.len(),
{
    if ls.len() > 0 && blank(ls.last()) {
        lemma_last_nonblank(ls.drop_last());
        assert forall|k: int| 0 <= k < ls.len() - 1 implies ls.drop_last()[k] == ls[k] by {}
    }
}

fn is_blank(l: &[char]) -> (b: bool)
    ensures
        b == blank(l@),
{
    let t = trim_chars(l);
    t.len() == 0
}

/// Removes the braces and the common indentation of a block body (see `block_content`).
pub fn parse_block_content(block_str: &str) -> (r: String)
    ensures
        r@ == block_content(block_str@),
{
    let b = to_chars(block_str);
    let a: Vec<char> = if b.len() > 0 && b[0] == '{' { copy_range(b.as_slice(), 1, b.len()) } else { copy_range(b.as_slice(), 0, b.len()) };
    assert(b@.len() > 0 && b@[0] == '{' ==> a@ =~= b@.drop_first());
    assert(!(b@.len() > 0 && b@[0] == '{') ==> a@ =~= b@);
    let content: Vec<char> = if a.len() > 0 && a[a.len() - 1] == '}' {
        copy_range(a.as_slice(), 0, a.len() - 1)
    } else {
        copy_range(b.as_slice(), 0, b.len())
    };
    assert(content@ =~= block_body_text(b@));
    let all = lines_of(content.as_slice());
    let ghost lv = views(all@);
    proof {
        lemma_first_nonblank(lv);
        lemma_last_nonblank(lv);
    }
    let mut start: usize = 0;
    while start < all.len() && is_blank(all[start].as_slice())
        invariant
            start <= all@.len(),
            lv == views(all@),
            forall|k: int| 0 <= k < start ==> blank(lv[k]),
        decreases all@.len() - start,
    {
        start = start + 1;
    }
    let start_v: usize = if start < all.len() { start } else { 0 };
    let mut end: usize = all.len();
    while end > 0 && is_blank(all[end - 1].as_slice())
        invariant
            end <= all@.len(),
            lv == views(all@),
            forall|k: int| end <= k < all@.len() ==> blank(lv[k]),
        decreases end,
    {
        end = end - 1;
    }
    let end_v: usize = if end > 0 { end } else { all.len() };
    proof {
        lemma_first_nonblank(lv);
        lemma_last_nonblank(lv);
        if start < all@.len() {
            assert(!blank(lv[start as int]));
        }
        if end > 0 {
            assert(!blank(lv[end - 1]));
        }
        if start < all@.len() {
            assert(first_nonblank(lv) == Some(start as int));
        } else {
            assert(first_nonblank(lv) is None);
        }
        if end > 0 {
            assert(last_nonblank(lv) == Some(end - 1));
        } else {
            assert(last_nonblank(lv) is None);
        }
    }
    let mut kept: Vec<Vec<char>> = Vec::new();
    if start_v < end_v {
        let mut k = start_v;
        while k < end_v
            invariant
                start_v <= k <= end_v <= all@.len(),
                lv == views(all@),
                views(kept@) == lv.subrange(start_v as int, k as int),
            decreases end_v - k,
        {
            let ghost before = views(kept@);
            kept.push(copy_range(all[k].as_slice(), 0, all[k].len()));
            assert(lv[k as int].subrange(0, lv[k as int].len() as int) =~= lv[k as int]);
            assert(views(kept@) =~= before.push(lv[k as int]));
            assert(lv.subrange(start_v as int, k + 1) =~= lv.subrange(start_v as int, k as int).push(lv[k as int]));
            k = k + 1;
        }
    }
    let ghost ks = views(kept@);
    assert(ks =~= kept_lines(lv));
    let mut m: usize = 0;
    let mut seen = false;
    let mut i: usize = 0;
    assert(ks.take(0) =~= Seq::<Seq<char>>::empty());
    while i < kept.len()
        invariant
            i <= kept@.len(),
            ks == views(kept@),
            match min_indent(ks.take(i as int)) {
                Some(x) => seen && m as nat == x,
                None => !seen && m == 0,
            },
        decreases kept@.len() - i,
    {
        assert(ks.take(i + 1).drop_last() =~= ks.take(i as int));
        if !is_blank(kept[i].as_slice()) {
            let w = ltrim_index(kept[i].as_slice());
            assert(ks[i as int].len() - ltrim(ks[i as int]).len() == w);
            if !seen || w < m {
                m = w;
            }
            seen = true;
        }
        i = i + 1;
    }
    assert(ks.take(i as int) =~= ks);
    let ghost mm: nat = match min_indent(ks) {
        Some(x) => x,
        None => 0,
    };
    assert(m as nat == mm);
    let ghost ds = Seq::new(ks.len(), |k: int| dedent_line(ks[k], mm));
    let mut out: Vec<Vec<char>> = Vec::new();
    let mut j: usize = 0;
    while j < kept.len()
        invariant
            j <= kept@.len(),
            ks == views(kept@),
            m as nat == mm,
            ds == Seq::new(ks.len(), |k: int| dedent_line(ks[k], mm)),
            views(out@) == ds.take(j as int),
        decreases kept@.len() - j,
    {
        let l = kept[j].as_slice();
        let d: Vec<char> = if is_blank(l) {
            Vec::new()
        } else if l.len() > m {
            copy_range(l, m, l.len())
        } else {
            copy_range(l, 0, l.len())
        };
        assert(d@ =~= ds[j as int]);
        let ghost before = views(out@);
        out.push(d);
        assert(views(out@) =~= before.push(ds[j as int]));
        assert(ds.take(j + 1) =~= ds.take(j as int).push(ds[j as int]));
        j = j + 1;
    }
    assert(ds.take(j as int) =~= ds);
    let joined = join_chars(&out, to_chars("\n").as_slice());
    from_chars(joined.as_slice())
}

/// Some attribute names an interpreter.
pub open spec fn has_shell_attr(attrs: Seq<Attribute>) -> bool {
    exists|i: int| 0 <= i < attrs.len() && attrs[i] is Shell
}

/// The non-empty trimmed pieces, in order.
pub open spec fn nonempty_trimmed(ps: Seq<Seq<char>>) -> Seq<Seq<char>>
    decreases ps.len(),
{
    if ps.len() == 0 {
        Seq::empty()
    } else {
        let pre = nonempty_trimmed(ps.drop_last());
        if trim(ps.last()).len() > 0 { pre.push(trim(ps.last())) } else { pre }
    }
}

/// The commands of a block: the trimmed content as one script, except that a single-line
/// block without an `@shell` attribute is split at `;` into its non-empty trimmed parts.
pub open spec fn block_commands(content: Seq<char>, has_shell: bool) -> Seq<Seq<char>> {
    let t = trim(content);
    if has_shell {
        seq![t]
    } else if !has_char(t, '\n') && has_char(t, ';') {
        nonempty_trimmed(split_on(t, ';'))
    } else {
        seq![t]
    }
}

/// Splits block content into commands (see `block_commands`).
pub fn split_block_commands(content: &str, attributes: &[Attribute]) -> (r: Vec<String>)
    ensures
        crate::text::string_views(r@) == block_commands(content@, has_shell_attr(attributes@)),
{
    let c = to_chars(content);
    let t = trim_chars(c.as_slice());
    let mut shell = false;
    let mut i: usize = 0;
    while i < attributes.len()
        invariant
            i <= attributes@.len(),
            shell == exists|k: int| 0 <= k < i && attributes@[k] is Shell,
        decreases attributes@.len() - i,
    {
        if let Attribute::Shell(_) = &attributes[i] {
            shell = true;
        }
        i = i + 1;
    }
    let mut r: Vec<String> = Vec::new();
    if !shell && !has_char_exec(t.as_slice(), '\n') && has_char_exec(t.as_slice(), ';') {
        let ghost parts = split_on(t@, ';');
        let ghost pre_t = parts;
        // split at ';' scanning left to right, keeping each finished piece
        let mut cur: Vec<char> = Vec::new();
        let mut k: usize = 0;
        assert(t@.take(0) =~= Seq::<char>::empty());
        while k < t.len()
            invariant
                k <= t@.len(),
                split_on(t@.take(k as int), ';').len() >= 1,
                split_on(t@.take(k as int), ';').last() == cur@,
                crate::text::string_views(r@) == nonempty_trimmed(split_on(t@.take(k as int), ';').drop_last()),
            decreases t@.len() - k,
        {
            let ghost pre = split_on(t@.take(k as int), ';');
            assert(t@.take(k + 1).drop_last() =~= t@.take(k as int));
            if t[k] == ';' {
                let piece = trim_chars(cur.as_slice());
                assert(pre.push(Seq::empty()).drop_last() =~= pre);
                let ghost before = crate::text::string_views(r@);
                assert(pre =~= pre.drop_last().push(cur@));
                if piece.len() > 0 {
                    r.push(from_chars(piece.as_slice()));
                    assert(crate::text::string_views(r@) =~= before.push(piece@));
                }
                cur = Vec::new();
            } else {
                cur.push(t[k]);
                assert(pre.update(pre.len() - 1, pre.last().push(t@[k as int])).drop_last() =~= pre.drop_last());
            }
            k = k + 1;
        }
        assert(t@.take(k as int) =~= t@);
        let piece = trim_chars(cur.as_slice());
        let ghost before = crate::text::string_views(r@);
        proof { crate::text::lemma_split_on_nonempty(t@, ';'); }
        assert(parts =~= parts.drop_last().push(cur@));
        if piece.len() > 0 {
            r.push(from_chars(piece.as_slice()));
            assert(crate::text::string_views(r@) =~= before.push(piece@));
        }
    } else {
        r.push(from_chars(t.as_slice()));
        assert(crate::text::string_views(r@) =~= seq![t@]);
    }
    r
}

} // verus!
