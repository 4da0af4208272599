//! Lexicographic order on names, and sorted duplicate-free name lists.
use vstd::prelude::*;
use crate::text::{string_views, to_chars};

verus! {

/// `a` sorts before `b` (code point by code point, a proper prefix first); this is the
/// order of `String`'s `Ord`.
pub open spec fn lex_lt(a: Seq<char>, b: Seq<char>) -> bool
    decreases a.len(),
{
    if b.len() == 0 {
        false
    } else if a.len() == 0 {
        true
    } else if a[0] != b[0] {
        a[0] < b[0]
    } else {
        lex_lt(a.drop_first(), b.drop_first())
    }
}

pub proof fn lemma_lex_irreflexive(a: Seq<char>)
    ensures
        !lex_lt(a, a),
    decreases a.len(),
{
    if a.len() > 0 {
        lemma_lex_irreflexive(a.drop_first());
    }
}

pub proof fn lemma_lex_total(a: Seq<char>, b: Seq<char>)
    ensures
        a == b || lex_lt(a, b) || lex_lt(b, a),
    decreases a.len(),
{
    if a.len() > 0 && b.len() > 0 && a[0] == b[0] {
        lemma_lex_total(a.drop_first(), b.drop_first());
        if a.drop_first() == b.drop_first() {
            assert(a =~= seq![a[0]] + a.drop_first());
            assert(b =~= seq![b[0]] + b.drop_first());
        }
    } else if a.len() == 0 && b.len() == 0 {
        assert(a =~= b);
    }
}

pub proof fn lemma_lex_asymmetric(a: Seq<char>, b: Seq<char>)
    ensures
        !(lex_lt(a, b) && lex_lt(b, a)),
    decreases a.len(),
{
    if a.len() > 0 && b.len() > 0 && a[0] == b[0] {
        lemma_lex_asymmetric(a.drop_first(), b.drop_first());
    }
}

pub proof fn lemma_lex_transitive(a: Seq<char>, b: Seq<char>, c: Seq<char>)
    requires
        lex_lt(a, b),
        lex_lt(b, c),
    ensures
        lex_lt(a, c),
    decreases a.len(),
{
    if a.len() > 0 && b.len() > 0 && c.len() > 0 && a[0] == b[0] && b[0] == c[0] {
        lemma_lex_transitive(a.drop_first(), b.drop_first(), c.drop_first());
    }
}

/// Whether `a` sorts before `b`.
pub fn lex_less(a: &[char], b: &[char]) -> (r: bool)
    ensures
        r == lex_lt(a@, b@),
{
    let mut i: usize = 0;
    assert(a@.skip(0) =~= a@);
    assert(b@.skip(0) =~= b@);
    while i < a.len() && i < b.len() && a[i] == b[i]
        invariant
            i <= a@.len(),
            i <= b@.len(),
            lex_lt(a@, b@) == lex_lt(a@.skip(i as int), b@.skip(i as int)),
        decreases a@.len() - i,
    {
        assert(a@.skip(i as int).drop_first() =~= a@.skip(i + 1));
        assert(b@.skip(i as int).drop_first() =~= b@.skip(i + 1));
        i = i + 1;
    }
    if i == b.len() {
        false
    } else if i == a.len() {
        true
    } else {
        a[i] < b[i]
    }
}

/// The names are in strictly increasing order (hence free of duplicates).
pub open spec fn strictly_sorted(s: Seq<Seq<char>>) -> bool {
    forall|i: int, j: int| 0 <= i < j < s.len() ==> lex_lt(s[i], s[j])
}

/// Adds `x` to a strictly sorted list of names, unless it is already there.
pub fn insert_sorted(v: &mut Vec<String>, x: String)
    requires
        strictly_sorted(string_views(old(v)@)),
    ensures
        strictly_sorted(string_views(final(v)@)),
        string_views(final(v)@).to_set() == string_views(old(v)@).to_set().insert(x@),
{
    let xc = to_chars(x.as_str());
    let ghost sv = string_views(v@);
    let mut p: usize = 0;
    while p < v.len()
        invariant
            p <= v@.len(),
            sv == string_views(v@),
            xc@ == x@,
            forall|j: int| 0 <= j < p ==> lex_lt(sv[j], x@),
        ensures
            p <= v@.len(),
            forall|j: int| 0 <= j < p ==> lex_lt(sv[j], x@),
            p < v@.len() ==> !lex_lt(sv[p as int], x@),
        decreases v@.len() - p,
    {
        let vp = to_chars(v[p].as_str());
        assert(vp@ == sv[p as int]);
        if !lex_less(vp.as_slice(), xc.as_slice()) {
            break;
        }
        p = p + 1;
    }
    if p < v.len() {
        let vp = to_chars(v[p].as_str());
        if crate::text::chars_eq(vp.as_slice(), xc.as_slice()) {
            assert(sv.to_set().insert(x@) =~= sv.to_set()) by {
                assert(sv[p as int] == x@);
            }
            return;
        }
        proof {
            lemma_lex_total(sv[p as int], x@);
        }
    }
    proof {
        assert forall|k: int| p <= k < sv.len() implies lex_lt(x@, #[trigger] sv[k]) by {
            if k > p {
                lemma_lex_transitive(x@, sv[p as int], sv[k]);
            }
        }
    }
    v.insert(p, x);
    proof {
        let nv = string_views(v@);
        assert(nv =~= sv.take(p as int).push(xc@) + sv.skip(p as int));
        assert forall|i: int, j: int| 0 <= i < j < nv.len() implies lex_lt(nv[i], nv[j]) by {
            if j < p {
                assert(nv[i] == sv[i] && nv[j] == sv[j]);
            } else if j == p {
                assert(nv[i] == sv[i]);
            } else if i < p {
                assert(nv[j] == sv[j - 1]);
                lemma_lex_transitive(nv[i], x@, nv[j]);
            } else if i == p {
                assert(nv[j] == sv[j - 1]);
            } else {
                assert(nv[i] == sv[i - 1] && nv[j] == sv[j - 1]);
            }
        }
        assert(nv.to_set() =~= sv.to_set().insert(x@)) by {
            assert forall|e: Seq<char>| nv.to_set().contains(e) <==> sv.to_set().insert(x@).contains(e) by {
                if nv.to_set().contains(e) {
                    let k = choose|k: int| 0 <= k < nv.len() && nv[k] == e;
                    if k < p {
                        assert(sv[k] == e);
                    } else if k > p {
                        assert(sv[k - 1] == e);
                    }
                }
                if sv.to_set().contains(e) {
                    let k = choose|k: int| 0 <= k < sv.len() && sv[k] == e;
                    if k < p {
                        assert(nv[k] == e);
                    } else {
                        assert(nv[k + 1] == e);
                    }
                }
                if e == x@ {
                    assert(nv[p as int] == e);
                }
            }
        }
    }
}

} // verus!
