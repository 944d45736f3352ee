//! The order of strings (`Ord for String`), sorting with duplicate removal,
//! and removal of consecutive duplicates (`Vec::dedup`).

use vstd::prelude::*;
use crate::text::{chars_eq, chars_of, string_views};

verus! {

/// `Ord for String`: lexicographic order of the UTF-8 bytes, which is the
/// lexicographic order of the characters by code point.
pub open spec fn lex_lt(a: Seq<char>, b: Seq<char>) -> bool
    decreases a.len(),
{
    if a.len() == 0 {
        b.len() > 0
    } else if b.len() == 0 {
        false
    } else if a[0] != b[0] {
        a[0] < b[0]
    } else {
        lex_lt(a.drop_first(), b.drop_first())
    }
}

pub proof fn lemma_lex_irreflexive(a: Seq<char>)
    ensures
        !lex_lt(a, a),
    decreases a.len(),
{
    if a.len() > 0 {
        lemma_lex_irreflexive(a.drop_first());
    }
}

pub proof fn lemma_lex_transitive(a: Seq<char>, b: Seq<char>, c: Seq<char>)
    requires
        lex_lt(a, b),
        lex_lt(b, c),
    ensures
        lex_lt(a, c),
    decreases a.len(),
{
    if a.len() > 0 && b.len() > 0 && c.len() > 0 {
        if a[0] == b[0] && b[0] == c[0] {
            lemma_lex_transitive(a.drop_first(), b.drop_first(), c.drop_first());
        }
    }
}

pub proof fn lemma_lex_total(a: Seq<char>, b: Seq<char>)
    requires
        a != b,
    ensures
        lex_lt(a, b) || lex_lt(b, a),
    decreases a.len(),
{
    if a.len() > 0 && b.len() > 0 && a[0] == b[0] {
        if a.drop_first() == b.drop_first() {
            assert(a =~= seq![a[0]] + a.drop_first());
            assert(b =~= seq![b[0]] + b.drop_first());
        }
        lemma_lex_total(a.drop_first(), b.drop_first());
    } else if a.len() > 0 && b.len() > 0 {

    } else if a.len() == 0 && b.len() == 0 {
        assert(a =~= b);
    }
}

/// Whether `a` comes before `b` in the order of strings.
pub fn lex_less(a: &Vec<char>, b: &Vec<char>) -> (r: bool)
    ensures
        r == lex_lt(a@, b@),
{
    let mut i: usize = 0;
    assert(a@.skip(0) =~= a@);
    assert(b@.skip(0) =~= b@);
    while i < a.len() && i < b.len() && a[i] == b[i]
        invariant
            i <= a.len(),
            i <= b.len(),
            lex_lt(a@, b@) == lex_lt(a@.skip(i as int), b@.skip(i as int)),
        decreases a.len() - i,
    {
        proof {
            assert(a@.skip(i as int).drop_first() =~= a@.skip(i + 1));
            assert(b@.skip(i as int).drop_first() =~= b@.skip(i + 1));
        }
        i += 1;
    }
    if i == a.len() {
        i < b.len()
    } else if i == b.len() {
        false
    } else {
        a[i] < b[i]
    }
}

/// Every element comes strictly before the next ones: sorted, with no
/// element twice.
pub open spec fn strictly_sorted(s: Seq<Seq<char>>) -> bool {
    forall|i: int, j: int| 0 <= i < j < s.len() ==> lex_lt(#[trigger] s[i], #[trigger] s[j])
}

/// `v.sort(); v.dedup();` on strings: the distinct strings of `v`, in
/// increasing order.
pub fn sort_dedup(v: &Vec<String>) -> (res: Vec<String>)
    ensures
        strictly_sorted(string_views(res@)),
        forall|x: Seq<char>| string_views(res@).contains(x) <==> string_views(v@).contains(x),
{
    let mut res: Vec<String> = Vec::new();
    let mut i: usize = 0;
    while i < v.len()
        invariant
            i <= v.len(),
            strictly_sorted(string_views(res@)),
            forall|x: Seq<char>|
                string_views(res@).contains(x) <==> string_views(v@.take(i as int)).contains(x),
        decreases v.len() - i,
    {
        let s = &v[i];
        let sv = chars_of(s.as_str());
        let ghost rv = string_views(res@);
        let mut p: usize = 0;
        let mut stop = false;
        while p < res.len() && !stop
            invariant
                p <= res.len(),
                rv == string_views(res@),
                sv@ == s@,
                forall|k: int| 0 <= k < p ==> lex_lt(rv[k], sv@),
                stop ==> p < res.len() && !lex_lt(rv[p as int], sv@),
            decreases res.len() - p + (if stop { 0int } else { 1int }),
        {
            let rc = chars_of(res[p].as_str());
            if lex_less(&rc, &sv) {
                p += 1;
            } else {
                stop = true;
            }
        }
        let found = if stop {
            let rc = chars_of(res[p].as_str());
            chars_eq(&rc, &sv)
        } else {
            false
        };
        proof {
            if stop && !found {
                let q = p as int;
                lemma_lex_total(rv[q], sv@);
                assert(lex_lt(sv@, rv[q]));
                assert forall|b: int| q <= b < rv.len() implies lex_lt(sv@, #[trigger] rv[b]) by {
                    if b > q {
                        lemma_lex_transitive(sv@, rv[q], rv[b]);
                    }
                }
            }
        }
        if !found {
            res.insert(p, s.clone());
            proof {
                let nv = string_views(res@);
                assert(nv =~= rv.insert(p as int, sv@));
                assert forall|a: int, b: int| 0 <= a < b < nv.len() implies lex_lt(
                    #[trigger] nv[a],
                    #[trigger] nv[b],
                ) by {
                    if b == p {
                    } else if a == p {
                        assert(nv[b] == rv[b - 1]);
                    } else if a < p && b > p {
                        assert(nv[b] == rv[b - 1]);
                        lemma_lex_transitive(rv[a], sv@, rv[b - 1]);
                    } else if a > p {
                        assert(nv[a] == rv[a - 1]);
                        assert(nv[b] == rv[b - 1]);
                    } else {
                        assert(nv[a] == rv[a]);
                        assert(nv[b] == rv[b]);
                    }
                }
            }
        }
        proof {
            let nv = string_views(res@);
            assert(v@.take(i + 1) =~= v@.take(i as int).push(v@[i as int]));
            assert(string_views(v@.take(i + 1)) =~= string_views(v@.take(i as int)).push(sv@));
            if !found {
                assert(nv =~= rv.insert(p as int, sv@));
            } else {
                assert(nv =~= rv);
                assert(rv[p as int] == sv@);
            }
            let tvi = string_views(v@.take(i as int));
            let tvn = string_views(v@.take(i + 1));
            assert(tvn =~= tvi.push(sv@));
            assert forall|x: Seq<char>| nv.contains(x) <==> tvn.contains(x) by {
                if x == sv@ {
                    assert(tvn[i as int] == x);
                    assert(nv[p as int] == x);
                } else {
                    if nv.contains(x) {
                        let k = choose|k: int| 0 <= k < nv.len() && #[trigger] nv[k] == x;
                        if !found {
                            if k < p {
                                assert(rv[k] == x);
                            } else {
                                assert(rv[k - 1] == x);
                            }
                        }
                        assert(rv.contains(x));
                        assert(tvi.contains(x));
                        let k2 = choose|k2: int| 0 <= k2 < tvi.len() && #[trigger] tvi[k2] == x;
                        assert(tvn[k2] == x);
                    }
                    if tvn.contains(x) {
                        let k = choose|k: int| 0 <= k < tvn.len() && #[trigger] tvn[k] == x;
                        assert(k < i);
                        assert(tvi[k] == x);
                        assert(tvi.contains(x));
                        assert(rv.contains(x));
                        let k2 = choose|k2: int| 0 <= k2 < rv.len() && #[trigger] rv[k2] == x;
                        if found {
                            assert(nv[k2] == x);
                        } else if k2 < p {
                            assert(nv[k2] == x);
                        } else {
                            assert(nv[k2 + 1] == x);
                        }
                    }
                }
            }
        }
        i += 1;
    }
    proof {
        assert(v@.take(v.len() as int) =~= v@);
    }
    res
}

/// `Vec::dedup`: consecutive repeated elements collapsed into one.
pub open spec fn dedup_consecutive(s: Seq<Seq<char>>) -> Seq<Seq<char>>
    decreases s.len(),
{
    if s.len() <= 1 {
        s
    } else if s[s.len() - 1] == s[s.len() - 2] {
        dedup_consecutive(s.drop_last())
    } else {
        dedup_consecutive(s.drop_last()).push(s.last())
    }
}

pub proof fn lemma_dedup_last(s: Seq<Seq<char>>)
    requires
        s.len() > 0,
    ensures
        dedup_consecutive(s).len() > 0,
        dedup_consecutive(s).last() == s.last(),
    decreases s.len(),
{
    if s.len() > 1 {
        lemma_dedup_last(s.drop_last());
    }
}

/// `Vec::dedup` on strings.
pub fn dedup_strings(v: &Vec<String>) -> (res: Vec<String>)
    ensures
        string_views(res@) == dedup_consecutive(string_views(v@)),
{
    let mut res: Vec<String> = Vec::new();
    let mut i: usize = 0;
    while i < v.len()
        invariant
            i <= v.len(),
            string_views(res@) == dedup_consecutive(string_views(v@.take(i as int))),
        decreases v.len() - i,
    {
        let ghost before = string_views(v@.take(i as int));
        let ghost after = string_views(v@.take(i + 1));
        proof {
            assert(after =~= before.push(v@[i as int]@));
            assert(after.drop_last() =~= before);
            if i > 0 {
                lemma_dedup_last(before);
            }
        }
        if i == 0 || v[i] != v[i - 1] {
            res.push(v[i].clone());
            proof {
                assert(string_views(res@) =~= dedup_consecutive(before).push(v@[i as int]@));
            }
        }
        i += 1;
    }
    proof {
        assert(v@.take(v.len() as int) =~= v@);
    }
    res
}

} // verus!
