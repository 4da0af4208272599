//! Character-level text primitives with specifications over `Seq<char>`.
use vstd::prelude::*;

verus! {

/// Copies the characters of a string slice into a vector.
pub fn to_chars(s: &str) -> (v: Vec<char>)
    ensures
        v@ == s@,
{
    let mut v: Vec<char> = Vec::new();
    for c in it: s.chars()
        invariant
            v@ == it.seq().take(it.index() as int),
            it.seq() == s@,
    {
        v.push(c);
    }
    v
}

/// Builds a `String` from a slice of characters (std's `FromIterator<char>` for `String`).
#[verifier::external_body]
pub fn from_chars(v: &[char]) -> (s: String)
    ensures
        s@ == v@,
{
    v.iter().collect()
}


/// Unicode `White_Space`, the property that `char::is_whitespace` tests.
pub open spec fn is_ws(c: char) -> bool {
    ||| ('\u{9}' <= c && c <= '\u{d}')
    ||| c == ' '
    ||| c == '\u{85}'
    ||| c == '\u{a0}'
    ||| c == '\u{1680}'
    ||| ('\u{2000}' <= c && c <= '\u{200a}')
    ||| c == '\u{2028}'
    ||| c == '\u{2029}'
    ||| c == '\u{202f}'
    ||| c == '\u{205f}'
    ||| c == '\u{3000}'
}

/// Executable `is_ws`.
pub fn is_whitespace(c: char) -> (b: bool)
    ensures
        b == is_ws(c),
{
    ('\u{9}' <= c && c <= '\u{d}') || c == ' ' || c == '\u{85}' || c == '\u{a0}' || c == '\u{1680}'
        || ('\u{2000}' <= c && c <= '\u{200a}') || c == '\u{2028}' || c == '\u{2029}'
        || c == '\u{202f}' || c == '\u{205f}' || c == '\u{3000}'
}

/// The text with leading white space removed.
pub open spec fn ltrim(s: Seq<char>) -> Seq<char>
    decreases s.len(),
{
    if s.len() > 0 && is_ws(s[0]) {
        ltrim(s.drop_first())
    } else {
        s
    }
}

/// The text with trailing white space removed.
pub open spec fn rtrim(s: Seq<char>) -> Seq<char>
    decreases s.len(),
{
    if s.len() > 0 && is_ws(s.last()) {
        rtrim(s.drop_last())
    } else {
        s
    }
}

/// The text with white space removed at both ends.
pub open spec fn trim(s: Seq<char>) -> Seq<char> {
    rtrim(ltrim(s))
}

/// `p` occurs in `s` at position `i`.
pub open spec fn matches_at(s: Seq<char>, i: int, p: Seq<char>) -> bool {
    0 <= i && i + p.len() <= s.len() && s.subrange(i, i + p.len()) == p
}

/// `s` begins with `p`.
pub open spec fn starts_with(s: Seq<char>, p: Seq<char>) -> bool {
    matches_at(s, 0, p)
}

/// `s` ends with `p`.
pub open spec fn ends_with(s: Seq<char>, p: Seq<char>) -> bool {
    p.len() <= s.len() && matches_at(s, s.len() - p.len(), p)
}

/// `p` occurs somewhere in `s`.
pub open spec fn contains(s: Seq<char>, p: Seq<char>) -> bool {
    exists|i: int| matches_at(s, i, p)
}

/// `c` occurs in `s`.
pub open spec fn has_char(s: Seq<char>, c: char) -> bool {
    exists|i: int| 0 <= i < s.len() && s[i] == c
}

pub proof fn lemma_ltrim_suffix(s: Seq<char>)
    ensures
        exists|k: int| 0 <= k <= s.len() && ltrim(s) == s.skip(k),
    decreases s.len(),
{
    if s.len() > 0 && is_ws(s[0]) {
        lemma_ltrim_suffix(s.drop_first());
        let k = choose|k: int| 0 <= k <= s.drop_first().len() && ltrim(s.drop_first()) == s.drop_first().skip(k);
        assert(s.drop_first().skip(k) =~= s.skip(k + 1));
    } else {
        assert(s.skip(0) =~= s);
    }
}

/// Copies `s[from..to]` into a new vector.
pub fn copy_range(s: &[char], from: usize, to: usize) -> (v: Vec<char>)
    requires
        from <= to <= s@.len(),
    ensures
        v@ == s@.subrange(from as int, to as int),
{
    let mut v: Vec<char> = Vec::new();
    let mut i = from;
    while i < to
        invariant
            from <= i <= to <= s@.len(),
            v@ == s@.subrange(from as int, i as int),
        decreases to - i,
    {
        v.push(s[i]);
        i = i + 1;
    }
    v
}

/// Index of the first character that is not white space.
pub fn ltrim_index(s: &[char]) -> (k: usize)
    ensures
        k <= s@.len(),
        ltrim(s@) == s@.skip(k as int),
{
    let mut i: usize = 0;
    assert(s@.skip(0) =~= s@);
    while i < s.len() && is_whitespace(s[i])
        invariant
            i <= s@.len(),
            ltrim(s@) == ltrim(s@.skip(i as int)),
        decreases s@.len() - i,
    {
        assert(s@.skip(i as int).drop_first() =~= s@.skip(i + 1));
        i = i + 1;
    }
    if i == s.len() {
        assert(s@.skip(i as int) =~= Seq::<char>::empty());
    }
    i
}

/// Index just past the last character that is not white space, within `s[from..]`.
pub fn rtrim_index(s: &[char], from: usize) -> (k: usize)
    requires
        from <= s@.len(),
    ensures
        from <= k <= s@.len(),
        rtrim(s@.skip(from as int)) == s@.subrange(from as int, k as int),
{
    let mut j: usize = s.len();
    assert(s@.subrange(from as int, j as int) =~= s@.skip(from as int));
    while j > from && is_whitespace(s[j - 1])
        invariant
            from <= j <= s@.len(),
            rtrim(s@.skip(from as int)) == rtrim(s@.subrange(from as int, j as int)),
        decreases j,
    {
        assert(s@.subrange(from as int, j as int).drop_last() =~= s@.subrange(from as int, j - 1));
        j = j - 1;
    }
    if j == from {
        assert(s@.subrange(from as int, j as int) =~= Seq::<char>::empty());
    }
    j
}

/// `s` with white space removed at both ends.
pub fn trim_chars(s: &[char]) -> (v: Vec<char>)
    ensures
        v@ == trim(s@),
{
    let i = ltrim_index(s);
    let j = rtrim_index(s, i);
    copy_range(s, i, j)
}

/// `s` with leading white space removed.
pub fn ltrim_chars(s: &[char]) -> (v: Vec<char>)
    ensures
        v@ == ltrim(s@),
{
    let i = ltrim_index(s);
    assert(s@.subrange(i as int, s@.len() as int) =~= s@.skip(i as int));
    copy_range(s, i, s.len())
}

/// `s` with trailing white space removed.
pub fn rtrim_chars(s: &[char]) -> (v: Vec<char>)
    ensures
        v@ == rtrim(s@),
{
    let j = rtrim_index(s, 0);
    assert(s@.skip(0) =~= s@);
    copy_range(s, 0, j)
}

/// Whether `p` occurs in `s` at position `i`.
pub fn matches_at_exec(s: &[char], i: usize, p: &[char]) -> (b: bool)
    ensures
        b == matches_at(s@, i as int, p@),
{
    if i > s.len() || p.len() > s.len() - i {
        return false;
    }
    let mut k: usize = 0;
    while k < p.len()
        invariant
            i + p@.len() <= s@.len(),
            s@.len() == s.len(),
            k <= p@.len(),
            forall|m: int| 0 <= m < k ==> s@[i + m] == p@[m],
        decreases p@.len() - k,
    {
        if s[i + k] != p[k] {
            assert(s@.subrange(i as int, i + p@.len())[k as int] != p@[k as int]);
            return false;
        }
        k = k + 1;
    }
    assert(s@.subrange(i as int, i + p@.len()) =~= p@);
    true
}

/// Whether `s` begins with `p`.
pub fn starts_with_exec(s: &[char], p: &[char]) -> (b: bool)
    ensures
        b == starts_with(s@, p@),
{
    matches_at_exec(s, 0, p)
}

/// Whether `s` ends with `p`.
pub fn ends_with_exec(s: &[char], p: &[char]) -> (b: bool)
    ensures
        b == ends_with(s@, p@),
{
    if p.len() > s.len() {
        false
    } else {
        matches_at_exec(s, s.len() - p.len(), p)
    }
}

/// Whether two character sequences are equal.
pub fn chars_eq(a: &[char], b: &[char]) -> (r: bool)
    ensures
        r == (a@ == b@),
{
    if a.len() != b.len() {
        return false;
    }
    let r = matches_at_exec(a, 0, b);
    assert(a@.subrange(0, b@.len() as int) =~= a@);
    r
}

/// The first position at which `p` occurs in `s`, searching from `start`.
pub fn find_from(s: &[char], p: &[char], start: usize) -> (r: Option<usize>)
    ensures
        match r {
            Some(i) => start <= i && matches_at(s@, i as int, p@) && forall|j: int|
                start <= j < i ==> !matches_at(s@, j, p@),
            None => forall|j: int| start <= j ==> !matches_at(s@, j, p@),
        },
{
    let mut i = start;
    while i < s.len() && !matches_at_exec(s, i, p)
        invariant
            start <= i,
            forall|j: int| start <= j < i ==> !matches_at(s@, j, p@),
        decreases s@.len() - i,
    {
        i = i + 1;
    }
    if i < s.len() {
        Some(i)
    } else if matches_at_exec(s, i, p) {
        Some(i)
    } else {
        assert forall|j: int| start <= j implies !matches_at(s@, j, p@) by {
            if j > i {
                assert(!matches_at(s@, j, p@));
            }
        }
        None
    }
}

/// Whether `p` occurs in `s`.
pub fn contains_exec(s: &[char], p: &[char]) -> (b: bool)
    ensures
        b == contains(s@, p@),
{
    match find_from(s, p, 0) {
        Some(i) => true,
        None => {
            assert forall|j: int| !matches_at(s@, j, p@) by {
                if j < 0 {
                }
            }
            false
        },
    }
}

/// Whether `c` occurs in `s`.
pub fn has_char_exec(s: &[char], c: char) -> (b: bool)
    ensures
        b == has_char(s@, c),
{
    let mut i: usize = 0;
    while i < s.len()
        invariant
            i <= s@.len(),
            forall|j: int| 0 <= j < i ==> s@[j] != c,
        decreases s@.len() - i,
    {
        if s[i] == c {
            return true;
        }
        i = i + 1;
    }
    false
}


/// Appends the characters of `s` to `v`.
pub fn push_all(v: &mut Vec<char>, s: &[char])
    ensures
        final(v)@ == old(v)@ + s@,
{
    let ghost v0 = v@;
    let mut i: usize = 0;
    while i < s.len()
        invariant
            i <= s@.len(),
            v@ == v0 + s@.take(i as int),
        decreases s@.len() - i,
    {
        v.push(s[i]);
        assert(s@.take(i + 1) =~= s@.take(i as int).push(s@[i as int]));
        i = i + 1;
    }
    assert(s@.take(s@.len() as int) =~= s@);
}

/// Appends the characters of a string slice to `v`.
pub fn push_str(v: &mut Vec<char>, s: &str)
    ensures
        final(v)@ == old(v)@ + s@,
{
    let cs = to_chars(s);
    push_all(v, cs.as_slice());
}

/// Every non-overlapping occurrence of `p` (scanning left to right) replaced by `t`.
pub open spec fn replace_all(s: Seq<char>, p: Seq<char>, t: Seq<char>) -> Seq<char>
    decreases s.len(),
{
    if s.len() == 0 {
        Seq::empty()
    } else if p.len() > 0 && starts_with(s, p) {
        t + replace_all(s.skip(p.len() as int), p, t)
    } else {
        seq![s[0]] + replace_all(s.drop_first(), p, t)
    }
}

/// Replacing each `c` by a text without `d` leaves no `d`, when `d` is `c` or does not
/// occur in `s`.
pub proof fn lemma_replace_all_char(s: Seq<char>, c: char, t: Seq<char>, d: char)
    requires
        !has_char(t, d),
        d == c || !has_char(s, d),
    ensures
        !has_char(replace_all(s, seq![c], t), d),
    decreases s.len(),
{
    if s.len() > 0 {
        let r = replace_all(s, seq![c], t);
        if starts_with(s, seq![c]) {
            assert(s.skip(1) =~= s.drop_first());
            if d != c {
                assert forall|i: int| 0 <= i < s.drop_first().len() implies s.drop_first()[i] != d by {
                    assert(s.drop_first()[i] == s[i + 1]);
                }
            }
            lemma_replace_all_char(s.drop_first(), c, t, d);
            let rest = replace_all(s.drop_first(), seq![c], t);
            assert(r == t + rest);
            assert forall|i: int| 0 <= i < r.len() implies r[i] != d by {
                if i < t.len() {
                    assert(r[i] == t[i]);
                } else {
                    assert(r[i] == rest[i - t.len()]);
                }
            }
        } else {
            assert(seq![c].len() == 1 && s[0] != c) by {
                if s[0] == c {
                    assert(s.take(1) =~= seq![c]);
                }
            }
            if d != c {
                assert forall|i: int| 0 <= i < s.drop_first().len() implies s.drop_first()[i] != d by {
                    assert(s.drop_first()[i] == s[i + 1]);
                }
            }
            lemma_replace_all_char(s.drop_first(), c, t, d);
            let rest = replace_all(s.drop_first(), seq![c], t);
            assert(r == seq![s[0]] + rest);
            assert forall|i: int| 0 <= i < r.len() implies r[i] != d by {
                if i > 0 {
                    assert(r[i] == rest[i - 1]);
                }
            }
        }
    }
}

/// `s` with every occurrence of `p` replaced by `t` (as `str::replace` does for a non-empty pattern).
pub fn replace_chars(s: &[char], p: &[char], t: &[char]) -> (r: Vec<char>)
    ensures
        r@ == replace_all(s@, p@, t@),
{
    let mut out: Vec<char> = Vec::new();
    let mut i: usize = 0;
    assert(s@.skip(0) =~= s@);
    while i < s.len()
        invariant
            i <= s@.len(),
            out@ + replace_all(s@.skip(i as int), p@, t@) == replace_all(s@, p@, t@),
        decreases s@.len() - i,
    {
        let ghost rest = s@.skip(i as int);
        if p.len() > 0 && matches_at_exec(s, i, p) {
            assert(rest.subrange(0, p@.len() as int) =~= s@.subrange(i as int, i + p@.len()));
            assert(rest.skip(p@.len() as int) =~= s@.skip(i + p@.len()));
            push_all(&mut out, t);
            assert(out@ + replace_all(s@.skip(i + p@.len()), p@, t@) =~= (out@.subrange(0, out@.len() - t@.len()) + (t@ + replace_all(rest.skip(p@.len() as int), p@, t@))));
            i = i + p.len();
        } else {
            assert(p@.len() > 0 && starts_with(rest, p@) ==> rest.subrange(0, p@.len() as int) =~= s@.subrange(i as int, i + p@.len()));
            assert(rest.drop_first() =~= s@.skip(i + 1));
            let ghost old_out = out@;
            out.push(s[i]);
            assert(out@ + replace_all(s@.skip(i + 1), p@, t@) =~= old_out + (seq![s@[i as int]] + replace_all(rest.drop_first(), p@, t@)));
            i = i + 1;
        }
    }
    assert(s@.skip(i as int) =~= Seq::<char>::empty());
    assert(out@ + Seq::<char>::empty() =~= out@);
    out
}

/// `s` cut at every occurrence of `c` (the pieces between separators, in order).
pub open spec fn split_on(s: Seq<char>, c: char) -> Seq<Seq<char>>
    decreases s.len(),
{
    if s.len() == 0 {
        seq![Seq::empty()]
    } else {
        let pre = split_on(s.drop_last(), c);
        if s.last() == c {
            pre.push(Seq::empty())
        } else {
            pre.update(pre.len() - 1, pre.last().push(s.last()))
        }
    }
}

pub proof fn lemma_split_on_nonempty(s: Seq<char>, c: char)
    ensures
        split_on(s, c).len() >= 1,
    decreases s.len(),
{
    if s.len() > 0 {
        lemma_split_on_nonempty(s.drop_last(), c);
    }
}

/// One line without its `\r` before the line feed.
pub open spec fn strip_cr(l: Seq<char>) -> Seq<char> {
    if l.len() > 0 && l.last() == '\r' {
        l.drop_last()
    } else {
        l
    }
}

/// The lines of `s` as `str::lines` yields them.
pub open spec fn lines(s: Seq<char>) -> Seq<Seq<char>> {
    let parts = split_on(s, '\n');
    if s.len() == 0 {
        Seq::empty()
    } else if s.last() == '\n' {
        parts.drop_last().map_values(|l: Seq<char>| strip_cr(l))
    } else {
        parts.drop_last().map_values(|l: Seq<char>| strip_cr(l)).push(parts.last())
    }
}

/// The views of a sequence of character vectors.
pub open spec fn views(v: Seq<Vec<char>>) -> Seq<Seq<char>> {
    v.map_values(|x: Vec<char>| x@)
}

/// Removes one trailing `\r`.
pub fn strip_cr_chars(l: Vec<char>) -> (r: Vec<char>)
    ensures
        r@ == strip_cr(l@),
{
    let mut l = l;
    if l.len() > 0 && l[l.len() - 1] == '\r' {
        l.pop();
    }
    l
}

/// The lines of `s` (as `str::lines` yields them).
pub fn lines_of(s: &[char]) -> (r: Vec<Vec<char>>)
    ensures
        views(r@) == lines(s@),
{
    let mut done: Vec<Vec<char>> = Vec::new();
    let mut cur: Vec<char> = Vec::new();
    let mut i: usize = 0;
    assert(s@.take(0) =~= Seq::<char>::empty());
    while i < s.len()
        invariant
            i <= s@.len(),
            split_on(s@.take(i as int), '\n') == split_on(s@.take(i as int), '\n').drop_last().push(cur@),
            views(done@) == split_on(s@.take(i as int), '\n').drop_last().map_values(|l: Seq<char>| strip_cr(l)),
            split_on(s@.take(i as int), '\n').len() >= 1,
            split_on(s@.take(i as int), '\n').last() == cur@,
        decreases s@.len() - i,
    {
        let ghost pre = split_on(s@.take(i as int), '\n');
        assert(s@.take(i + 1).drop_last() =~= s@.take(i as int));
        let c = s[i];
        if c == '\n' {
            let ghost cur_v = cur@;
            let ghost old_views = views(done@);
            let l = strip_cr_chars(cur);
            done.push(l);
            assert(views(done@) =~= old_views.push(strip_cr(cur_v)));
            assert(pre.push(Seq::empty()).drop_last() =~= pre);
            assert(pre.map_values(|l: Seq<char>| strip_cr(l)) =~= pre.drop_last().map_values(|l: Seq<char>| strip_cr(l)).push(strip_cr(cur_v)));
            cur = Vec::new();
            assert(split_on(s@.take(i + 1), '\n') == pre.push(Seq::empty()));
            assert(views(done@) =~= pre.push(Seq::empty()).drop_last().map_values(|l: Seq<char>| strip_cr(l)));
        } else {
            cur.push(c);
            assert(split_on(s@.take(i + 1), '\n') == pre.update(pre.len() - 1, pre.last().push(c)));
            assert(pre.update(pre.len() - 1, pre.last().push(c)).drop_last() =~= pre.drop_last());
        }
        i = i + 1;
        assert(split_on(s@.take(i as int), '\n') =~= split_on(s@.take(i as int), '\n').drop_last().push(cur@));
    }
    assert(s@.take(i as int) =~= s@);
    if cur.len() > 0 {
        done.push(cur);
        assert(views(done@) =~= lines(s@));
    } else {
        if s.len() > 0 {
            assert(s@.last() == '\n') by {
                if s@.last() != '\n' {
                    assert(s@.drop_last() =~= s@.take(s@.len() - 1));
                    let pre = split_on(s@.drop_last(), '\n');
                    lemma_split_on_nonempty(s@.drop_last(), '\n');
                    assert(split_on(s@, '\n').last() == pre.last().push(s@.last()));
                }
            }
        }
        assert(views(done@) =~= lines(s@));
    }
    done
}

/// The pieces of `ps` joined with `sep` between neighbours.
pub open spec fn join(ps: Seq<Seq<char>>, sep: Seq<char>) -> Seq<char>
    decreases ps.len(),
{
    if ps.len() == 0 {
        Seq::empty()
    } else if ps.len() == 1 {
        ps[0]
    } else {
        join(ps.drop_last(), sep) + sep + ps.last()
    }
}

/// Joins character vectors with a separator.
pub fn join_chars(ps: &Vec<Vec<char>>, sep: &[char]) -> (r: Vec<char>)
    ensures
        r@ == join(views(ps@), sep@),
{
    let mut out: Vec<char> = Vec::new();
    let mut i: usize = 0;
    while i < ps.len()
        invariant
            i <= ps@.len(),
            out@ == join(views(ps@).take(i as int), sep@),
        decreases ps@.len() - i,
    {
        assert(views(ps@).take(i + 1).drop_last() =~= views(ps@).take(i as int));
        if i > 0 {
            push_all(&mut out, sep);
        }
        push_all(&mut out, ps[i].as_slice());
        i = i + 1;
    }
    assert(views(ps@).take(i as int) =~= views(ps@));
    out
}

/// The maximal runs of non-white-space characters of `s`.
pub open spec fn words(s: Seq<char>) -> Seq<Seq<char>>
    decreases s.len(),
{
    if s.len() == 0 {
        Seq::empty()
    } else {
        let pre = words(s.drop_last());
        if is_ws(s.last()) {
            pre
        } else if s.len() > 1 && !is_ws(s.drop_last().last()) && pre.len() > 0 {
            pre.update(pre.len() - 1, pre.last().push(s.last()))
        } else {
            pre.push(seq![s.last()])
        }
    }
}

/// The white-space separated words of `s` (as `str::split_whitespace` yields them).
pub fn words_of(s: &[char]) -> (r: Vec<Vec<char>>)
    ensures
        views(r@) == words(s@),
{
    let mut done: Vec<Vec<char>> = Vec::new();
    let mut i: usize = 0;
    assert(s@.take(0) =~= Seq::<char>::empty());
    while i < s.len()
        invariant
            i <= s@.len(),
            views(done@) == words(s@.take(i as int)),
            i > 0 && !is_ws(s@[i - 1]) ==> done@.len() > 0,
        decreases s@.len() - i,
    {
        assert(s@.take(i + 1).drop_last() =~= s@.take(i as int));
        let c = s[i];
        if is_whitespace(c) {
        } else if i > 0 && !is_whitespace(s[i - 1]) {
            let last = done.len() - 1;
            let mut w = done.pop().unwrap();
            w.push(c);
            done.push(w);
            assert(views(done@) =~= words(s@.take(i as int)).update(last as int, words(s@.take(i as int)).last().push(c)));
        } else {
            let mut w: Vec<char> = Vec::new();
            w.push(c);
            done.push(w);
            assert(views(done@) =~= words(s@.take(i as int)).push(seq![c]));
        }
        i = i + 1;
    }
    assert(s@.take(i as int) =~= s@);
    done
}


/// The decimal digit character for `d < 10`.
pub open spec fn digit_char(d: nat) -> char {
    if d == 0 { '0' }
    else if d == 1 { '1' }
    else if d == 2 { '2' }
    else if d == 3 { '3' }
    else if d == 4 { '4' }
    else if d == 5 { '5' }
    else if d == 6 { '6' }
    else if d == 7 { '7' }
    else if d == 8 { '8' }
    else { '9' }
}

/// The decimal notation of `n`, without leading zeros.
pub open spec fn decimal(n: nat) -> Seq<char>
    decreases n,
{
    if n < 10 {
        seq![digit_char(n)]
    } else {
        decimal(n / 10) + seq![digit_char(n % 10)]
    }
}

/// The decimal notation of an integer, with a leading `-` when negative.
pub open spec fn signed_decimal(i: int) -> Seq<char> {
    if i < 0 {
        seq!['-'] + decimal((-i) as nat)
    } else {
        decimal(i as nat)
    }
}

fn digit_to_char(d: u128) -> (c: char)
    requires
        d < 10,
    ensures
        c == digit_char(d as nat),
{
    if d == 0 { '0' }
    else if d == 1 { '1' }
    else if d == 2 { '2' }
    else if d == 3 { '3' }
    else if d == 4 { '4' }
    else if d == 5 { '5' }
    else if d == 6 { '6' }
    else if d == 7 { '7' }
    else if d == 8 { '8' }
    else { '9' }
}

/// The decimal notation of `n`.
pub fn u128_to_chars(n: u128) -> (v: Vec<char>)
    ensures
        v@ == decimal(n as nat),
    decreases n,
{
    if n < 10 {
        let mut v: Vec<char> = Vec::new();
        v.push(digit_to_char(n));
        v
    } else {
        let mut v = u128_to_chars(n / 10);
        v.push(digit_to_char(n % 10));
        v
    }
}

/// The decimal notation of a signed 32-bit integer.
pub fn i32_to_chars(i: i32) -> (v: Vec<char>)
    ensures
        v@ == signed_decimal(i as int),
{
    if i < 0 {
        let m: i64 = -(i as i64);
        let mut v: Vec<char> = Vec::new();
        v.push('-');
        let d = u128_to_chars(m as u128);
        push_all(&mut v, d.as_slice());
        v
    } else {
        u128_to_chars(i as u128)
    }
}


/// Whether `c` is alphanumeric in the Unicode sense (`char::is_alphanumeric`).
pub uninterp spec fn unicode_alphanumeric(c: char) -> bool;

/// An ASCII letter or digit.
pub open spec fn ascii_alnum(c: char) -> bool {
    ('a' <= c && c <= 'z') || ('A' <= c && c <= 'Z') || ('0' <= c && c <= '9')
}

/// `char::is_alphanumeric`: the result is the Unicode property; on ASCII it is exactly
/// "letter or digit", as the property is defined.
#[verifier::external_body]
pub fn is_alphanumeric(c: char) -> (b: bool)
    ensures
        b == unicode_alphanumeric(c),
        (c as u32) < 128 ==> (b == ascii_alnum(c)),
{
    c.is_alphanumeric()
}

/// The views of a sequence of strings.
pub open spec fn string_views(v: Seq<String>) -> Seq<Seq<char>> {
    v.map_values(|x: String| x@)
}

/// Turns character vectors into strings.
pub fn to_strings(v: &Vec<Vec<char>>) -> (r: Vec<String>)
    ensures
        string_views(r@) == views(v@),
{
    let mut r: Vec<String> = Vec::new();
    let mut i: usize = 0;
    while i < v.len()
        invariant
            i <= v@.len(),
            string_views(r@) == views(v@).take(i as int),
        decreases v@.len() - i,
    {
        let x = from_chars(v[i].as_slice());
        assert(x@ == views(v@)[i as int]);
        let ghost old_r = r@;
        r.push(x);
        assert(r@ == old_r.push(x));
        assert(string_views(r@) =~= string_views(old_r).push(x@));
        assert(string_views(r@) =~= views(v@).take(i + 1));
        i = i + 1;
    }
    assert(views(v@).take(i as int) =~= views(v@));
    r
}

/// Turns strings into character vectors.
pub fn to_char_vecs(v: &[String]) -> (r: Vec<Vec<char>>)
    ensures
        views(r@) == string_views(v@),
{
    let mut r: Vec<Vec<char>> = Vec::new();
    let mut i: usize = 0;
    while i < v.len()
        invariant
            i <= v@.len(),
            views(r@) == string_views(v@).take(i as int),
        decreases v@.len() - i,
    {
        let x = to_chars(v[i].as_str());
        assert(x@ == string_views(v@)[i as int]);
        let ghost old_r = r@;
        r.push(x);
        assert(r@ == old_r.push(x));
        assert(views(r@) =~= views(old_r).push(x@));
        assert(views(r@) =~= string_views(v@).take(i + 1));
        i = i + 1;
    }
    assert(string_views(v@).take(i as int) =~= string_views(v@));
    r
}

/// `s` with leading tab characters removed.
pub open spec fn ltrim_tabs(s: Seq<char>) -> Seq<char>
    decreases s.len(),
{
    if s.len() > 0 && s[0] == '\t' { ltrim_tabs(s.drop_first()) } else { s }
}

/// `s` without leading tabs.
pub fn ltrim_tabs_chars(s: &[char]) -> (r: Vec<char>)
    ensures
        r@ == ltrim_tabs(s@),
{
    let mut i: usize = 0;
    assert(s@.skip(0) =~= s@);
    while i < s.len() && s[i] == '\t'
        invariant
            i <= s@.len(),
            ltrim_tabs(s@) == ltrim_tabs(s@.skip(i as int)),
        decreases s@.len() - i,
    {
        assert(s@.skip(i as int).drop_first() =~= s@.skip(i + 1));
        i = i + 1;
    }
    assert(s@.subrange(i as int, s@.len() as int) =~= s@.skip(i as int));
    if i == s.len() {
        assert(s@.skip(i as int) =~= Seq::<char>::empty());
    }
    copy_range(s, i, s.len())
}

/// Strings joined with a separator.
pub fn join_strings(v: &[String], sep: &str) -> (r: String)
    ensures
        r@ == join(string_views(v@), sep@),
{
    let cs = to_char_vecs(v);
    let sc = to_chars(sep);
    let j = join_chars(&cs, sc.as_slice());
    from_chars(j.as_slice())
}

/// The first position at or after `from` where `p` occurs in `s`.
pub open spec fn first_match(s: Seq<char>, p: Seq<char>, from: int) -> Option<int>
    decreases s.len() - from,
{
    if from < 0 || from > s.len() {
        None
    } else if matches_at(s, from, p) {
        Some(from)
    } else if from == s.len() {
        None
    } else {
        first_match(s, p, from + 1)
    }
}

pub proof fn lemma_first_match(s: Seq<char>, p: Seq<char>, from: int)
    requires
        0 <= from,
    ensures
        first_match(s, p, from) matches Some(i) ==> from <= i && matches_at(s, i, p) && forall|j: int|
            from <= j < i ==> !matches_at(s, j, p),
        first_match(s, p, from) is None ==> forall|j: int| from <= j ==> !matches_at(s, j, p),
    decreases s.len() - from,
{
    if from <= s.len() && !matches_at(s, from, p) && from < s.len() {
        lemma_first_match(s, p, from + 1);
    }
}

/// The first position at or after `start` where `p` occurs (see `first_match`).
pub fn find_first(s: &[char], p: &[char], start: usize) -> (r: Option<usize>)
    ensures
        match r {
            Some(i) => first_match(s@, p@, start as int) == Some(i as int),
            None => first_match(s@, p@, start as int) is None,
        },
{
    proof { lemma_first_match(s@, p@, start as int); }
    let r = find_from(s, p, start);
    proof {
        match r {
            Some(i) => {
                if first_match(s@, p@, start as int) != Some(i as int) {
                    lemma_first_match(s@, p@, start as int);
                }
            },
            None => {},
        }
    }
    r
}

} // verus!
