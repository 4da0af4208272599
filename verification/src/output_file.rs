//! Shortening long command output for agents: output over a budget of bytes is saved to
//! a file by the caller, and the agent is shown its tail under a notice.
use vstd::prelude::*;
use vstd::utf8::{char_is_scalar, encode_scalar, encode_utf8, has_width_1_encoding};
use crate::text::{decimal, from_chars, join, join_chars, lines, lines_of, push_all, push_str, to_chars, u128_to_chars, views};

verus! {

/// The most bytes of output shown to an agent (about 300 tokens).
pub const OUTPUT_TRUNCATE_CHARS: usize = 1200;

/// The number of bytes of a character in UTF-8 (`char::len_utf8`).
pub open spec fn utf8_width(c: char) -> nat {
    if (c as u32) < 0x80 {
        1
    } else if (c as u32) < 0x800 {
        2
    } else if (c as u32) < 0x10000 {
        3
    } else {
        4
    }
}

/// The number of bytes of a text in UTF-8.
pub open spec fn byte_len(s: Seq<char>) -> nat
    decreases s.len(),
{
    if s.len() == 0 {
        0
    } else {
        utf8_width(s[0]) + byte_len(s.drop_first())
    }
}

/// The byte length is that of the UTF-8 encoding (what `str::len` gives).
pub proof fn lemma_byte_len_utf8(s: Seq<char>)
    ensures
        byte_len(s) == encode_utf8(s).len(),
    decreases s.len(),
{
    if s.len() > 0 {
        lemma_byte_len_utf8(s.drop_first());
        let u = s[0] as u32;
        assert(vstd::utf8::is_scalar(u)) by {
            char_is_scalar(s[0]);
        }
        assert(encode_scalar(u).len() == utf8_width(s[0]));
    }
}

/// Byte lengths add up over concatenation.
pub proof fn lemma_byte_len_append(a: Seq<char>, b: Seq<char>)
    ensures
        byte_len(a + b) == byte_len(a) + byte_len(b),
    decreases a.len(),
{
    if a.len() > 0 {
        assert((a + b).drop_first() =~= a.drop_first() + b);
        lemma_byte_len_append(a.drop_first(), b);
    } else {
        assert(a + b =~= b);
    }
}

proof fn lemma_byte_len_take_step(s: Seq<char>, j: int)
    requires
        0 <= j < s.len(),
    ensures
        byte_len(s.take(j + 1)) == byte_len(s.take(j)) + utf8_width(s[j]),
        byte_len(s.take(j + 1)) > byte_len(s.take(j)),
{
    assert(s.take(j + 1) =~= s.take(j) + seq![s[j]]);
    lemma_byte_len_append(s.take(j), seq![s[j]]);
    assert(seq![s[j]].drop_first() =~= Seq::<char>::empty());
    assert(byte_len(Seq::<char>::empty()) == 0);
    assert(byte_len(seq![s[j]]) == utf8_width(s[j]));
}

proof fn lemma_byte_len_take_mono(s: Seq<char>, i: int, j: int)
    requires
        0 <= i < j <= s.len(),
    ensures
        byte_len(s.take(i)) < byte_len(s.take(j)),
    decreases j - i,
{
    lemma_byte_len_take_step(s, j - 1);
    if i < j - 1 {
        lemma_byte_len_take_mono(s, i, j - 1);
    }
}

/// The first line of the tail: lines are taken from the end, each costing its bytes and
/// a line feed, while they fit the budget (`i` lines are left to consider).
pub open spec fn tail_start(ls: Seq<Seq<char>>, i: int, used: nat) -> int
    decreases i,
{
    if i <= 0 || i > ls.len() {
        0
    } else if used + byte_len(ls[i - 1]) + 1 > OUTPUT_TRUNCATE_CHARS {
        i
    } else {
        tail_start(ls, i - 1, used + byte_len(ls[i - 1]) + 1)
    }
}

/// The last line, or nothing.
pub open spec fn last_line(ls: Seq<Seq<char>>) -> Seq<char> {
    if ls.len() == 0 {
        Seq::empty()
    } else {
        ls.last()
    }
}

/// Where a single over-long last line is cut: the budget is kept from its end.
pub open spec fn cut_point(last: Seq<char>) -> nat {
    if byte_len(last) > OUTPUT_TRUNCATE_CHARS {
        (byte_len(last) - OUTPUT_TRUNCATE_CHARS) as nat
    } else {
        0
    }
}

/// Where an over-long last line is cut: at the first character boundary at or after
/// `cut_point` bytes, looking from character `j` on.
pub open spec fn cut_from(last: Seq<char>, j: int) -> int
    decreases last.len() - j,
{
    if j < 0 || j >= last.len() || byte_len(last.take(j)) >= cut_point(last) {
        j
    } else {
        cut_from(last, j + 1)
    }
}

/// The character at which an over-long last line is cut.
pub open spec fn cut_index(last: Seq<char>) -> int {
    cut_from(last, 0)
}

proof fn lemma_cut_from(last: Seq<char>, j: int)
    requires
        0 <= j <= last.len(),
    ensures
        j <= cut_from(last, j) <= last.len(),
        byte_len(last.take(cut_from(last, j))) >= cut_point(last),
    decreases last.len() - j,
{
    if j < last.len() && byte_len(last.take(j)) < cut_point(last) {
        lemma_cut_from(last, j + 1);
    } else if j == last.len() {
        assert(last.take(j) =~= last);
    }
}

/// The tail shown of a long output: the last lines that fit the budget, joined by line
/// feeds; when none fits, `...` and the last bytes of the last line within the budget.
pub open spec fn output_tail_text(output: Seq<char>) -> Seq<char> {
    let ls = lines(output);
    let k = tail_start(ls, ls.len() as int, 0);
    if k < ls.len() {
        join(ls.skip(k), "\n"@)
    } else {
        let last = last_line(ls);
        "..."@ + last.skip(cut_index(last))
    }
}

/// The notice shown in place of a long output.
pub open spec fn notice_text(total_bytes: nat, shown_bytes: nat, path: Seq<char>, tail: Seq<char>) -> Seq<char> {
    "[Output truncated: "@ + decimal(total_bytes) + " bytes, showing last "@ + decimal(shown_bytes) + " bytes]\n"@
        + "[Full output saved to: "@ + path + "]\n\n"@ + tail
}

fn char_width(c: char) -> (w: usize)
    ensures
        w == utf8_width(c),
{
    let u = c as u32;
    if u < 0x80 {
        1
    } else if u < 0x800 {
        2
    } else if u < 0x10000 {
        3
    } else {
        4
    }
}

/// The number of bytes of characters in UTF-8.
fn chars_byte_len(v: &[char]) -> (n: usize)
    ensures
        n == byte_len(v@),
{
    proof { lemma_byte_len_utf8(v@); }
    let s = from_chars(v);
    s.as_str().as_bytes().len()
}

/// Whether the output is over the budget, so that it is saved to a file and its tail shown.
pub fn needs_truncation(output: &str) -> (b: bool)
    ensures
        b == (byte_len(output@) > OUTPUT_TRUNCATE_CHARS),
{
    proof { lemma_byte_len_utf8(output@); }
    output.as_bytes().len() > OUTPUT_TRUNCATE_CHARS
}

fn find_tail_start(ls: &Vec<Vec<char>>) -> (k: usize)
    ensures
        k as int == tail_start(views(ls@), ls@.len() as int, 0),
        k <= ls@.len(),
{
    let ghost lv = views(ls@);
    let mut i: usize = ls.len();
    let mut used: usize = 0;
    while i > 0
        invariant
            i <= ls@.len(),
            lv == views(ls@),
            used <= OUTPUT_TRUNCATE_CHARS,
            tail_start(lv, ls@.len() as int, 0) == tail_start(lv, i as int, used as nat),
        decreases i,
    {
        let len = chars_byte_len(ls[i - 1].as_slice());
        assert(lv[i - 1] == ls@[i - 1]@);
        if len >= OUTPUT_TRUNCATE_CHARS - used {
            return i;
        }
        used = used + len + 1;
        i = i - 1;
    }
    0
}

/// Where the last line is cut (see `cut_index`).
fn find_cut(last: &[char]) -> (j: usize)
    ensures
        j as int == cut_index(last@),
        j <= last@.len(),
{
    let total = chars_byte_len(last);
    let cut: usize = if total > OUTPUT_TRUNCATE_CHARS { total - OUTPUT_TRUNCATE_CHARS } else { 0 };
    let mut j: usize = 0;
    let mut acc: usize = 0;
    assert(last@.take(0) =~= Seq::<char>::empty());
    while acc < cut && j < last.len()
        invariant
            j <= last@.len(),
            total == byte_len(last@),
            cut == cut_point(last@),
            cut <= total,
            acc == byte_len(last@.take(j as int)),
            cut_index(last@) == cut_from(last@, j as int),
        decreases last@.len() - j,
    {
        proof {
            lemma_byte_len_take_step(last@, j as int);
            assert(last@.take(last@.len() as int) =~= last@);
            if j + 1 < last@.len() {
                lemma_byte_len_take_mono(last@, j + 1, last@.len() as int);
            }
        }
        let w = char_width(last[j]);
        acc = acc + w;
        j = j + 1;
    }
    j
}

/// The tail of a long output and its byte count (see `output_tail_text`).
pub fn output_tail(output: &str) -> (r: (String, usize))
    ensures
        r.0@ == output_tail_text(output@),
        r.1 == byte_len(output_tail_text(output@)),
{
    let cs = to_chars(output);
    let mut ls = lines_of(cs.as_slice());
    let ghost lv = views(ls@);
    let k = find_tail_start(&ls);
    let text: Vec<char> = if k < ls.len() {
        let rest = ls.split_off(k);
        assert(views(rest@) =~= lv.skip(k as int));
        let nl = to_chars("\n");
        join_chars(&rest, nl.as_slice())
    } else {
        let last: Vec<char> = if ls.len() == 0 { Vec::new() } else { ls[ls.len() - 1].clone() };
        assert(last@ == last_line(lv));
        let j = find_cut(last.as_slice());
        let mut t = to_chars("...");
        let mut i: usize = j;
        let ghost head = t@;
        while i < last.len()
            invariant
                j <= i <= last@.len(),
                t@ == head + last@.subrange(j as int, i as int),
            decreases last@.len() - i,
        {
            t.push(last[i]);
            assert(t@ =~= head + last@.subrange(j as int, i + 1));
            i = i + 1;
        }
        assert(last@.subrange(j as int, last@.len() as int) =~= last@.skip(j as int));
        t
    };
    let n = chars_byte_len(text.as_slice());
    (from_chars(text.as_slice()), n)
}

/// The notice that replaces a long output (see `notice_text`).
pub fn truncation_notice(total_bytes: usize, shown_bytes: usize, path: &str, tail: &str) -> (s: String)
    ensures
        s@ == notice_text(total_bytes as nat, shown_bytes as nat, path@, tail@),
{
    let mut out = to_chars("[Output truncated: ");
    let t = u128_to_chars(total_bytes as u128);
    push_all(&mut out, t.as_slice());
    push_str(&mut out, " bytes, showing last ");
    let sh = u128_to_chars(shown_bytes as u128);
    push_all(&mut out, sh.as_slice());
    push_str(&mut out, " bytes]\n");
    push_str(&mut out, "[Full output saved to: ");
    push_str(&mut out, path);
    push_str(&mut out, "]\n\n");
    push_str(&mut out, tail);
    from_chars(out.as_slice())
}

/// The bytes that lines take with a line feed each.
pub open spec fn lines_cost(ps: Seq<Seq<char>>) -> nat
    decreases ps.len(),
{
    if ps.len() == 0 {
        0
    } else {
        lines_cost(ps.drop_last()) + byte_len(ps.last()) + 1
    }
}

proof fn lemma_join_cost(ps: Seq<Seq<char>>)
    requires
        ps.len() >= 1,
    ensures
        byte_len(join(ps, "\n"@)) + 1 == lines_cost(ps),
    decreases ps.len(),
{
    if ps.len() == 1 {
        assert(ps.drop_last() =~= Seq::<Seq<char>>::empty());
        assert(lines_cost(Seq::<Seq<char>>::empty()) == 0);
    } else {
        lemma_join_cost(ps.drop_last());
        let j = join(ps.drop_last(), "\n"@);
        lemma_byte_len_append(j, "\n"@);
        lemma_byte_len_append(j + "\n"@, ps.last());
        reveal_strlit("\n");
        assert("\n"@ =~= seq!['\n']);
        assert(seq!['\n'].drop_first() =~= Seq::<char>::empty());
        assert(byte_len(Seq::<char>::empty()) == 0);
        assert(('\n' as u32) == 10);
        assert(byte_len(seq!['\n']) == 1);
        assert(byte_len("\n"@) == 1);
        assert(join(ps, "\n"@) == j + "\n"@ + ps.last());
        assert(byte_len(join(ps, "\n"@)) == byte_len(j) + 1 + byte_len(ps.last()));
    }
}

proof fn lemma_tail_start_cost(ls: Seq<Seq<char>>, i: int, used: nat)
    requires
        0 <= i <= ls.len(),
        used <= OUTPUT_TRUNCATE_CHARS,
    ensures
        0 <= tail_start(ls, i, used) <= i,
        used + lines_cost(ls.subrange(tail_start(ls, i, used), i)) <= OUTPUT_TRUNCATE_CHARS,
    decreases i,
{
    let k = tail_start(ls, i, used);
    if i <= 0 {
        assert(ls.subrange(0, i) =~= Seq::<Seq<char>>::empty());
    } else if used + byte_len(ls[i - 1]) + 1 > OUTPUT_TRUNCATE_CHARS {
        assert(ls.subrange(i, i) =~= Seq::<Seq<char>>::empty());
    } else {
        let u2: nat = used + byte_len(ls[i - 1]) + 1;
        lemma_tail_start_cost(ls, i - 1, u2);
        assert(ls.subrange(k, i).drop_last() =~= ls.subrange(k, i - 1));
    }
}

/// The tail shown of a long output stays within the budget, with the `...` of a cut line
/// on top.
pub proof fn lemma_tail_within_budget(output: Seq<char>)
    ensures
        byte_len(output_tail_text(output)) <= OUTPUT_TRUNCATE_CHARS + 3,
{
    let ls = lines(output);
    let k = tail_start(ls, ls.len() as int, 0);
    lemma_tail_start_cost(ls, ls.len() as int, 0);
    if k < ls.len() {
        assert(ls.skip(k) =~= ls.subrange(k, ls.len() as int));
        lemma_join_cost(ls.skip(k));
    } else {
        let last = last_line(ls);
        let j = cut_index(last);
        lemma_cut_from(last, 0);
        assert(last.take(j) + last.skip(j) =~= last);
        lemma_byte_len_append(last.take(j), last.skip(j));
        lemma_byte_len_append("..."@, last.skip(j));
        reveal_strlit("...");
        reveal_with_fuel(byte_len, 4);
    }
}

/// Output prepared for an agent.
#[derive(Debug)]
pub struct ProcessedOutput {
    /// The output to display (its tail under a notice when it was long).
    pub display_output: String,
    /// The file holding the full output, when it was long.
    pub file_path: Option<String>,
    /// Total byte count of the output.
    pub total_bytes: usize,
}

/// Output within the budget, shown as it is.
pub fn short_output(output: &str) -> (r: ProcessedOutput)
    ensures
        r.display_output@ == output@,
        r.file_path is None,
        r.total_bytes == byte_len(output@),
{
    proof { lemma_byte_len_utf8(output@); }
    ProcessedOutput { display_output: output.to_string(), file_path: None, total_bytes: output.as_bytes().len() }
}

/// Long output saved at `file_path`: its tail under a notice (see `notice_text`).
pub fn long_output(output: &str, file_path: String) -> (r: ProcessedOutput)
    ensures
        r.display_output@ == notice_text(
            byte_len(output@),
            byte_len(output_tail_text(output@)),
            file_path@,
            output_tail_text(output@),
        ),
        r.file_path matches Some(p) && p@ == file_path@,
        r.total_bytes == byte_len(output@),
{
    proof { lemma_byte_len_utf8(output@); }
    let total = output.as_bytes().len();
    let (tail, shown) = output_tail(output);
    let display_output = truncation_notice(total, shown, file_path.as_str(), tail.as_str());
    ProcessedOutput { display_output, file_path: Some(file_path), total_bytes: total }
}

/// Output prepared for an agent, in one step: output within the budget is shown as it
/// is; longer output, saved by the caller at `saved_to`, is replaced by a notice that
/// gives its size and where it was saved, followed by its tail, which stays within the
/// budget (with the `...` of a cut line on top).
pub fn output_for_agent(output: &str, saved_to: Option<String>) -> (r: ProcessedOutput)
    requires
        byte_len(output@) > OUTPUT_TRUNCATE_CHARS ==> saved_to is Some,
    ensures
        r.total_bytes == byte_len(output@),
        byte_len(output@) <= OUTPUT_TRUNCATE_CHARS ==> r.display_output@ == output@ && r.file_path is None,
        byte_len(output@) > OUTPUT_TRUNCATE_CHARS ==> {
            &&& r.file_path matches Some(p) && saved_to matches Some(q) && p@ == q@
            &&& r.display_output@ == "[Output truncated: "@ + decimal(byte_len(output@)) + " bytes, showing last "@ + decimal(
                byte_len(output_tail_text(output@)),
            ) + " bytes]\n"@ + "[Full output saved to: "@ + r.file_path->Some_0@ + "]\n\n"@ + output_tail_text(output@)
            &&& byte_len(output_tail_text(output@)) <= OUTPUT_TRUNCATE_CHARS + 3
        },
{
    proof { lemma_tail_within_budget(output@); }
    if !needs_truncation(output) {
        return short_output(output);
    }
    match saved_to {
        Some(p) => long_output(output, p),
        None => short_output(output),
    }
}

} // verus!
