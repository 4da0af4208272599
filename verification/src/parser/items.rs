//! Parameter lists and call arguments.
use vstd::prelude::*;
use crate::ast::{ArgType, ParamView, Parameter, param_view, params_view};
use crate::parser::attributes::{strip_quotes, unquoted};
use crate::text::{
    copy_range, from_chars, starts_with, starts_with_exec, string_views, to_chars, trim, trim_chars, views,
};

verus! {

/// The pieces of `s` between commas that stand outside quotes (double quotes, and single
/// quotes too when `single`); inside double quotes a backslash escapes the next character.
pub open spec fn comma_pieces(s: Seq<char>, i: int, cur: Seq<char>, dq: bool, sq: bool, esc: bool, single: bool) -> Seq<Seq<char>>
    decreases s.len() - i,
{
    if i < 0 || i >= s.len() {
        seq![cur]
    } else {
        let c = s[i];
        if dq {
            if esc {
                comma_pieces(s, i + 1, cur.push(c), true, false, false, single)
            } else {
                comma_pieces(s, i + 1, cur.push(c), c != '"', false, c == '\\', single)
            }
        } else if sq {
            comma_pieces(s, i + 1, cur.push(c), false, c != '\'', false, single)
        } else if c == ',' {
            seq![cur] + comma_pieces(s, i + 1, Seq::empty(), false, false, false, single)
        } else if c == '"' {
            comma_pieces(s, i + 1, cur.push(c), true, false, false, single)
        } else if c == '\'' && single {
            comma_pieces(s, i + 1, cur.push(c), false, true, false, single)
        } else {
            comma_pieces(s, i + 1, cur.push(c), false, false, false, single)
        }
    }
}

/// Splits at commas outside quotes (see `comma_pieces`).
pub fn split_commas(s: &[char], single: bool) -> (r: Vec<Vec<char>>)
    ensures
        views(r@) == comma_pieces(s@, 0, Seq::empty(), false, false, false, single),
{
    let mut done: Vec<Vec<char>> = Vec::new();
    let mut cur: Vec<char> = Vec::new();
    let mut dq = false;
    let mut sq = false;
    let mut esc = false;
    let mut i: usize = 0;
    while i < s.len()
        invariant
            i <= s@.len(),
            !dq ==> !esc,
            !(dq && sq),
            comma_pieces(s@, 0, Seq::empty(), false, false, false, single) == views(done@) + comma_pieces(
                s@,
                i as int,
                cur@,
                dq,
                sq,
                esc,
                single,
            ),
        decreases s@.len() - i,
    {
        let c = s[i];
        if dq {
            cur.push(c);
            if esc {
                esc = false;
            } else {
                dq = c != '"';
                esc = c == '\\';
            }
        } else if sq {
            cur.push(c);
            sq = c != '\'';
        } else if c == ',' {
            let ghost before = views(done@);
            let ghost w = cur@;
            done.push(cur);
            cur = Vec::new();
            assert(views(done@) =~= before.push(w));
            assert(before + (seq![w] + comma_pieces(s@, i + 1, Seq::empty(), false, false, false, single))
                =~= before.push(w) + comma_pieces(s@, i + 1, cur@, false, false, false, single));
        } else if c == '"' {
            cur.push(c);
            dq = true;
        } else if c == '\'' && single {
            cur.push(c);
            sq = true;
        } else {
            cur.push(c);
        }
        i = i + 1;
    }
    let ghost before = views(done@);
    let ghost w = cur@;
    done.push(cur);
    assert(views(done@) =~= before + seq![w]);
    done
}

/// The position of the first `c` in `s`.
pub open spec fn first_index(s: Seq<char>, c: char) -> Option<int>
    decreases s.len(),
{
    if s.len() == 0 {
        None
    } else if s[0] == c {
        Some(0)
    } else {
        match first_index(s.drop_first(), c) {
            Some(i) => Some(i + 1),
            None => None,
        }
    }
}

/// The position of the first `c` in `s`.
pub fn index_of(s: &[char], c: char) -> (r: Option<usize>)
    ensures
        match r {
            Some(i) => first_index(s@, c) == Some(i as int) && i < s@.len(),
            None => first_index(s@, c) is None,
        },
{
    let mut i: usize = 0;
    assert(s@.skip(0) =~= s@);
    while i < s.len()
        invariant
            i <= s@.len(),
            first_index(s@, c) == match first_index(s@.skip(i as int), c) {
                Some(k) => Some(k + i),
                None => None,
            },
        decreases s@.len() - i,
    {
        assert(s@.skip(i as int).drop_first() =~= s@.skip(i + 1));
        if s[i] == c {
            return Some(i);
        }
        i = i + 1;
    }
    None
}

/// The type a parameter annotation names: `int`/`integer`, `bool`/`boolean`, else string.
pub open spec fn param_type_named(w: Seq<char>) -> ArgType {
    if w == "int"@ || w == "integer"@ {
        ArgType::Integer
    } else if w == "bool"@ || w == "boolean"@ {
        ArgType::Boolean
    } else {
        ArgType::String
    }
}

/// One parameter: `...name` (rest), or `name`, `name: type`, with an optional
/// `= default` (trimmed, one pair of matching quotes removed).
pub open spec fn param_of(p: Seq<char>) -> ParamView {
    if starts_with(p, "..."@) {
        ParamView { name: trim(p.skip(3)), param_type: ArgType::String, default_value: None, is_rest: true }
    } else {
        let left = match first_index(p, '=') {
            Some(e) => p.take(e),
            None => p,
        };
        let default_value = match first_index(p, '=') {
            Some(e) => Some(unquoted(p.skip(e + 1))),
            None => None,
        };
        match first_index(left, ':') {
            Some(c) => ParamView {
                name: trim(left.take(c)),
                param_type: param_type_named(trim(left.skip(c + 1))),
                default_value,
                is_rest: false,
            },
            None => ParamView { name: trim(left), param_type: ArgType::String, default_value, is_rest: false },
        }
    }
}

/// The parameters of a list: the non-blank comma-separated pieces, trimmed.
pub open spec fn params_of_pieces(ps: Seq<Seq<char>>) -> Seq<ParamView>
    decreases ps.len(),
{
    if ps.len() == 0 {
        Seq::empty()
    } else {
        let pre = params_of_pieces(ps.drop_last());
        if trim(ps.last()).len() > 0 { pre.push(param_of(trim(ps.last()))) } else { pre }
    }
}

/// The parameters declared between the parentheses of a definition.
pub open spec fn param_list(inside: Seq<char>) -> Seq<ParamView> {
    params_of_pieces(comma_pieces(inside, 0, Seq::empty(), false, false, false, true))
}

fn eq_str(a: &[char], b: &str) -> (r: bool)
    ensures
        r == (a@ == b@),
{
    let bc = to_chars(b);
    crate::text::chars_eq(a, bc.as_slice())
}

/// Parses one trimmed parameter (see `param_of`).
pub fn parse_param(p: &[char]) -> (r: Parameter)
    ensures
        param_view(r) == param_of(p@),
{
    proof { reveal_strlit("..."); }
    if starts_with_exec(p, to_chars("...").as_slice()) {
        let rest = copy_range(p, 3, p.len());
        assert(rest@ =~= p@.skip(3));
        let name = trim_chars(rest.as_slice());
        return Parameter { name: from_chars(name.as_slice()), param_type: ArgType::String, default_value: None, is_rest: true };
    }
    let plen = p.len();
    let eq = index_of(p, '=');
    let (left, default_value): (Vec<char>, Option<String>) = match eq {
        Some(e) => {
            assert(e < plen);
            let l = copy_range(p, 0, e);
            assert(l@ =~= p@.take(e as int));
            let d = copy_range(p, e + 1, p.len());
            assert(d@ =~= p@.skip(e + 1));
            let ds = from_chars(d.as_slice());
            (l, Some(strip_quotes(ds.as_str())))
        },
        None => (copy_range(p, 0, p.len()), None),
    };
    assert(eq is None ==> left@ =~= p@);
    match index_of(left.as_slice(), ':') {
        Some(c) => {
            let n = copy_range(left.as_slice(), 0, c);
            assert(n@ =~= left@.take(c as int));
            let t = copy_range(left.as_slice(), c + 1, left.len());
            assert(t@ =~= left@.skip(c + 1));
            let nt = trim_chars(n.as_slice());
            let tt = trim_chars(t.as_slice());
            let ty = if eq_str(tt.as_slice(), "int") || eq_str(tt.as_slice(), "integer") {
                ArgType::Integer
            } else if eq_str(tt.as_slice(), "bool") || eq_str(tt.as_slice(), "boolean") {
                ArgType::Boolean
            } else {
                ArgType::String
            };
            Parameter { name: from_chars(nt.as_slice()), param_type: ty, default_value, is_rest: false }
        },
        None => {
            let nt = trim_chars(left.as_slice());
            Parameter { name: from_chars(nt.as_slice()), param_type: ArgType::String, default_value, is_rest: false }
        },
    }
}

/// Parses a parameter list (see `param_list`).
pub fn parse_param_list(inside: &[char]) -> (r: Vec<Parameter>)
    ensures
        params_view(r@) == param_list(inside@),
{
    let pieces = split_commas(inside, true);
    let ghost pv = views(pieces@);
    let mut out: Vec<Parameter> = Vec::new();
    let mut i: usize = 0;
    assert(pv.take(0) =~= Seq::<Seq<char>>::empty());
    while i < pieces.len()
        invariant
            i <= pieces@.len(),
            pv == views(pieces@),
            params_view(out@) == params_of_pieces(pv.take(i as int)),
        decreases pieces@.len() - i,
    {
        assert(pv.take(i + 1).drop_last() =~= pv.take(i as int));
        let t = trim_chars(pieces[i].as_slice());
        if t.len() > 0 {
            let p = parse_param(t.as_slice());
            let ghost before = params_view(out@);
            out.push(p);
            assert(params_view(out@) =~= before.push(param_view(p)));
        }
        i = i + 1;
    }
    assert(pv.take(i as int) =~= pv);
    out
}

/// `s` without leading `"` characters.
pub open spec fn drop_leading_quotes(s: Seq<char>) -> Seq<char>
    decreases s.len(),
{
    if s.len() > 0 && s[0] == '"' { drop_leading_quotes(s.drop_first()) } else { s }
}

/// `s` without trailing `"` characters.
pub open spec fn drop_trailing_quotes(s: Seq<char>) -> Seq<char>
    decreases s.len(),
{
    if s.len() > 0 && s.last() == '"' { drop_trailing_quotes(s.drop_last()) } else { s }
}

/// A call argument: a quoted one loses every leading and trailing `"`; others are kept.
pub open spec fn arg_value(a: Seq<char>) -> Seq<char> {
    if a.len() > 0 && a[0] == '"' { drop_trailing_quotes(drop_leading_quotes(a)) } else { a }
}

/// The arguments of a call: none for blank parentheses, otherwise each comma-separated
/// piece (commas inside double quotes do not separate), trimmed.
pub open spec fn call_args(inside: Seq<char>) -> Seq<Seq<char>> {
    if trim(inside).len() == 0 {
        Seq::empty()
    } else {
        let ps = comma_pieces(inside, 0, Seq::empty(), false, false, false, false);
        Seq::new(ps.len(), |k: int| arg_value(trim(ps[k])))
    }
}

fn arg_value_exec(a: &[char]) -> (r: Vec<char>)
    ensures
        r@ == arg_value(a@),
{
    if a.len() > 0 && a[0] == '"' {
        let mut i: usize = 0;
        assert(a@.skip(0) =~= a@);
        while i < a.len() && a[i] == '"'
            invariant
                i <= a@.len(),
                drop_leading_quotes(a@) == drop_leading_quotes(a@.skip(i as int)),
            decreases a@.len() - i,
        {
            assert(a@.skip(i as int).drop_first() =~= a@.skip(i + 1));
            i = i + 1;
        }
        let mut j: usize = a.len();
        assert(a@.subrange(i as int, j as int) =~= a@.skip(i as int));
        if i == a.len() {
            assert(a@.skip(i as int) =~= Seq::<char>::empty());
        }
        while j > i && a[j - 1] == '"'
            invariant
                i <= j <= a@.len(),
                drop_trailing_quotes(drop_leading_quotes(a@)) == drop_trailing_quotes(a@.subrange(i as int, j as int)),
                i < a@.len() ==> a@[i as int] != '"',
                i == a@.len() ==> j == i,
            decreases j,
        {
            assert(a@.subrange(i as int, j as int).drop_last() =~= a@.subrange(i as int, j - 1));
            j = j - 1;
        }
        if j == i {
            assert(a@.subrange(i as int, j as int) =~= Seq::<char>::empty());
        }
        copy_range(a, i, j)
    } else {
        copy_range(a, 0, a.len())
    }
}

/// Parses the arguments of a call (see `call_args`).
pub fn parse_call_args(inside: &[char]) -> (r: Vec<String>)
    ensures
        string_views(r@) == call_args(inside@),
{
    let t = trim_chars(inside);
    let mut out: Vec<String> = Vec::new();
    if t.len() == 0 {
        assert(string_views(out@) =~= Seq::<Seq<char>>::empty());
        return out;
    }
    let pieces = split_commas(inside, false);
    let ghost pv = views(pieces@);
    let ghost want = Seq::new(pv.len(), |k: int| arg_value(trim(pv[k])));
    let mut i: usize = 0;
    while i < pieces.len()
        invariant
            i <= pieces@.len(),
            pv == views(pieces@),
            want == Seq::new(pv.len(), |k: int| arg_value(trim(pv[k]))),
            string_views(out@) == want.take(i as int),
        decreases pieces@.len() - i,
    {
        let p = trim_chars(pieces[i].as_slice());
        let v = arg_value_exec(p.as_slice());
        let ghost before = string_views(out@);
        out.push(from_chars(v.as_slice()));
        assert(string_views(out@) =~= before.push(want[i as int]));
        assert(want.take(i + 1) =~= want.take(i as int).push(want[i as int]));
        i = i + 1;
    }
    assert(want.take(i as int) =~= want);
    out
}

} // verus!
