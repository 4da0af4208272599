//! Recognition of shell heredoc markers (`<<DELIM`) and of the lines they enclose.
use vstd::prelude::*;
use crate::text::{
    copy_range, is_alphanumeric, ltrim_tabs, ltrim_tabs_chars, rtrim, rtrim_chars, unicode_alphanumeric,
    views,
};

verus! {

/// A character that may appear in a delimiter word. The narrow set is letters, digits and
/// `_`; the wide set adds `-.:+/~!%@`.
pub open spec fn is_delim_char(c: char, wide: bool) -> bool {
    unicode_alphanumeric(c) || c == '_' || (wide && (c == '-' || c == '.' || c == ':' || c == '+'
        || c == '/' || c == '~' || c == '!' || c == '%' || c == '@'))
}

fn delim_char(c: char, wide: bool) -> (b: bool)
    ensures
        b == is_delim_char(c, wide),
{
    is_alphanumeric(c) || c == '_' || (wide && (c == '-' || c == '.' || c == ':' || c == '+'
        || c == '/' || c == '~' || c == '!' || c == '%' || c == '@'))
}

/// The first position at or after `j` that is not a space or tab.
pub open spec fn skip_blanks(s: Seq<char>, j: int) -> int
    decreases s.len() - j,
{
    if 0 <= j < s.len() && (s[j] == ' ' || s[j] == '\t') { skip_blanks(s, j + 1) } else { j }
}

/// The end of the delimiter word starting at `j`.
pub open spec fn delim_end(s: Seq<char>, j: int, wide: bool) -> int
    decreases s.len() - j,
{
    if 0 <= j < s.len() && is_delim_char(s[j], wide) { delim_end(s, j + 1, wide) } else { j }
}

/// Position `i` starts `<<` that opens a heredoc: outside quotes, not `<<<`, and not
/// preceded by another `<`.
pub open spec fn opens_heredoc(s: Seq<char>, i: int, sq: bool, dq: bool) -> bool {
    &&& 0 <= i && i + 1 < s.len()
    &&& s[i] == '<' && !sq && !dq && s[i + 1] == '<'
    &&& !(i + 2 < s.len() && s[i + 2] == '<')
    &&& (i == 0 || s[i - 1] != '<')
}

/// The delimiters of the heredocs opened in `s` from position `i` on, given the quoting
/// state at `i` (`sq`: inside single quotes, `dq`: inside double quotes). A marker `<<`
/// may be followed by `-`, blanks, and an opening `'`, `"` or `\\`; the word that follows
/// is the delimiter, and a matching closing quote is skipped. Blanks up to the end of the
/// line end the scan.
pub open spec fn heredocs_from(s: Seq<char>, i: int, sq: bool, dq: bool, wide: bool) -> Seq<Seq<char>>
    decreases s.len() - i,
{
    if i < 0 || i >= s.len() {
        Seq::empty()
    } else if s[i] == '\'' && !dq {
        heredocs_from(s, i + 1, !sq, dq, wide)
    } else if s[i] == '"' && !sq {
        heredocs_from(s, i + 1, sq, !dq, wide)
    } else if s[i] == '\\' && !sq && i + 1 < s.len() {
        heredocs_from(s, i + 2, sq, dq, wide)
    } else if opens_heredoc(s, i, sq, dq) {
        let j0 = if i + 2 < s.len() && s[i + 2] == '-' { i + 3 } else { i + 2 };
        let j1 = skip_blanks(s, j0);
        proof { lemma_skip_blanks(s, j0); }
        if j1 >= s.len() {
            Seq::empty()
        } else {
            let q = s[j1];
            let quoted = q == '\'' || q == '"';
            let j2 = if quoted || q == '\\' { j1 + 1 } else { j1 };
            let j3 = delim_end(s, j2, wide);
            proof { lemma_delim_end(s, j2, wide); }
            if j3 > j2 {
                let j4 = if quoted && j3 < s.len() && s[j3] == q { j3 + 1 } else { j3 };
                seq![s.subrange(j2, j3)] + heredocs_from(s, j4, sq, dq, wide)
            } else {
                heredocs_from(s, j3, sq, dq, wide)
            }
        }
    } else {
        heredocs_from(s, i + 1, sq, dq, wide)
    }
}

/// The delimiters of all heredocs a line opens, in order.
pub open spec fn heredoc_delims(s: Seq<char>, wide: bool) -> Seq<Seq<char>> {
    heredocs_from(s, 0, false, false, wide)
}

pub proof fn lemma_skip_blanks(s: Seq<char>, j: int)
    ensures
        skip_blanks(s, j) >= j,
        0 <= j ==> skip_blanks(s, j) <= if j <= s.len() { s.len() as int } else { j },
    decreases s.len() - j,
{
    if 0 <= j < s.len() && (s[j] == ' ' || s[j] == '\t') {
        lemma_skip_blanks(s, j + 1);
    }
}

pub proof fn lemma_delim_end(s: Seq<char>, j: int, wide: bool)
    ensures
        delim_end(s, j, wide) >= j,
        0 <= j <= s.len() ==> delim_end(s, j, wide) <= s.len(),
    decreases s.len() - j,
{
    if 0 <= j < s.len() && is_delim_char(s[j], wide) {
        lemma_delim_end(s, j + 1, wide);
    }
}

/// The delimiters of all heredocs that `line` opens (see `heredoc_delims`).
pub fn heredoc_delims_exec(s: &[char], wide: bool) -> (r: Vec<Vec<char>>)
    ensures
        views(r@) == heredoc_delims(s@, wide),
{
    let len = s.len();
    let mut out: Vec<Vec<char>> = Vec::new();
    let mut i: usize = 0;
    let mut sq = false;
    let mut dq = false;
    while i < len
        invariant
            len == s@.len(),
            views(out@) + heredocs_from(s@, i as int, sq, dq, wide) == heredoc_delims(s@, wide),
        decreases len - i,
    {
        let c = s[i];
        if c == '\'' && !dq {
            sq = !sq;
            i = i + 1;
        } else if c == '"' && !sq {
            dq = !dq;
            i = i + 1;
        } else if c == '\\' && !sq && i + 1 < len {
            i = i + 2;
        } else if c == '<' && !sq && !dq && i + 1 < len && s[i + 1] == '<' && !(i + 2 < len && s[i + 2]
            == '<') && (i == 0 || s[i - 1] != '<') {
            assert(opens_heredoc(s@, i as int, sq, dq));
            let ghost gi = i as int;
            let mut j = i + 2;
            if j < len && s[j] == '-' {
                j = j + 1;
            }
            let ghost j0 = j as int;
            proof { lemma_skip_blanks(s@, j0); }
            while j < len && (s[j] == ' ' || s[j] == '\t')
                invariant
                    len == s@.len(),
                    j0 <= j <= len,
                    skip_blanks(s@, j as int) == skip_blanks(s@, j0),
                    views(out@) + heredocs_from(s@, gi, sq, dq, wide) == heredoc_delims(s@, wide),
                    opens_heredoc(s@, gi, sq, dq),
                    j0 == (if gi + 2 < s@.len() && s@[gi + 2] == '-' { gi + 3 } else { gi + 2 }),
                decreases len - j,
            {
                j = j + 1;
            }
            assert(skip_blanks(s@, j as int) == j as int);
            if j >= len {
                assert(heredocs_from(s@, gi, sq, dq, wide) == Seq::<Seq<char>>::empty());
                assert(views(out@) + Seq::<Seq<char>>::empty() =~= views(out@));
                return out;
            }
            let q = s[j];
            let quoted = q == '\'' || q == '"';
            if quoted || q == '\\' {
                j = j + 1;
            }
            let start = j;
            proof { lemma_delim_end(s@, start as int, wide); }
            while j < len && delim_char(s[j], wide)
                invariant
                    len == s@.len(),
                    start <= j <= len,
                    delim_end(s@, j as int, wide) == delim_end(s@, start as int, wide),
                    views(out@) + heredocs_from(s@, gi, sq, dq, wide) == heredoc_delims(s@, wide),
                    opens_heredoc(s@, gi, sq, dq),
                    skip_blanks(s@, j0) < len,
                    start == (if s@[skip_blanks(s@, j0)] == '\'' || s@[skip_blanks(s@, j0)] == '"' || s@[skip_blanks(s@, j0)] == '\\' { skip_blanks(s@, j0) + 1 } else { skip_blanks(s@, j0) }),
                    j0 == (if gi + 2 < s@.len() && s@[gi + 2] == '-' { gi + 3 } else { gi + 2 }),
                    q == s@[skip_blanks(s@, j0)],
                decreases len - j,
            {
                j = j + 1;
            }
            if j > start {
                let d = copy_range(s, start, j);
                if quoted && j < len && s[j] == q {
                    j = j + 1;
                }
                let ghost old_views = views(out@);
                out.push(d);
                assert(views(out@) =~= old_views.push(d@));
                assert(views(out@) + heredocs_from(s@, j as int, sq, dq, wide) =~= old_views + (seq![d@] + heredocs_from(s@, j as int, sq, dq, wide)));
            }
            i = j;
        } else {
            i = i + 1;
        }
    }
    assert(views(out@) + Seq::<Seq<char>>::empty() =~= views(out@));
    out
}

/// A line closes the heredoc `delim`: without trailing white space it is `delim`, possibly
/// after leading tabs.
pub open spec fn closes_heredoc(line: Seq<char>, delim: Seq<char>) -> bool {
    rtrim(line) == delim || ltrim_tabs(rtrim(line)) == delim
}

/// The open heredocs (innermost last) after the given lines.
pub open spec fn heredoc_stack(ls: Seq<Seq<char>>, wide: bool) -> Seq<Seq<char>>
    decreases ls.len(),
{
    if ls.len() == 0 {
        Seq::empty()
    } else {
        let st = heredoc_stack(ls.drop_last(), wide);
        let line = ls.last();
        if st.len() > 0 {
            if closes_heredoc(line, st.last()) { st.drop_last() } else { st }
        } else {
            st + heredoc_delims(line, wide)
        }
    }
}

/// Whether `line` closes `delim`.
pub fn closes_heredoc_exec(line: &[char], delim: &[char]) -> (b: bool)
    ensures
        b == closes_heredoc(line@, delim@),
{
    let t = rtrim_chars(line);
    if crate::text::chars_eq(t.as_slice(), delim) {
        return true;
    }
    let u = ltrim_tabs_chars(t.as_slice());
    crate::text::chars_eq(u.as_slice(), delim)
}

/// One step of the heredoc stack over one more line.
pub fn heredoc_step(stack: &mut Vec<Vec<char>>, line: &[char], wide: bool)
    ensures
        views(final(stack)@) == (if views(old(stack)@).len() > 0 {
            if closes_heredoc(line@, views(old(stack)@).last()) {
                views(old(stack)@).drop_last()
            } else {
                views(old(stack)@)
            }
        } else {
            views(old(stack)@) + heredoc_delims(line@, wide)
        }),
{
    let ghost st = views(stack@);
    if stack.len() > 0 {
        let k = stack.len() - 1;
        if closes_heredoc_exec(line, stack[k].as_slice()) {
            stack.pop();
            assert(views(stack@) =~= st.drop_last());
        }
    } else {
        let ds = heredoc_delims_exec(line, wide);
        let mut m: usize = 0;
        while m < ds.len()
            invariant
                m <= ds@.len(),
                views(stack@) == st + views(ds@).take(m as int),
            decreases ds@.len() - m,
        {
            let ghost before = views(stack@);
            stack.push(copy_range(ds[m].as_slice(), 0, ds[m].len()));
            assert(ds@[m as int]@.subrange(0, ds@[m as int]@.len() as int) =~= ds@[m as int]@);
            assert(views(stack@) =~= before.push(views(ds@)[m as int]));
            assert(views(ds@).take(m + 1) =~= views(ds@).take(m as int).push(views(ds@)[m as int]));
            m = m + 1;
        }
        assert(views(ds@).take(m as int) =~= views(ds@));
    }
}

} // verus!
