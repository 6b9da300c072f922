//! Orders used by the services: a stable ordering of items by a numeric
//! rank, highest rank first; and the lexicographic order of strings, by code
//! point, which is the order of their UTF-8 bytes.

use vstd::prelude::*;
use crate::text::{chars_of, views};

verus! {

/// `perm` lists every index of `ranks` once, highest rank first, with equal
/// ranks kept in their original order: the order a stable sort by descending
/// rank gives.
pub open spec fn is_stable_desc_order(ranks: Seq<i64>, perm: Seq<usize>) -> bool {
    &&& perm.len() == ranks.len()
    &&& forall|k: int| 0 <= k < perm.len() ==> #[trigger] perm[k] < ranks.len()
    &&& forall|a: int, b: int| 0 <= a < b < perm.len() ==> perm[a] != perm[b]
    &&& forall|a: int, b: int|
        0 <= a < b < perm.len() ==> ranks[perm[a] as int] >= ranks[perm[b] as int]
    &&& forall|a: int, b: int|
        0 <= a < b < perm.len() && ranks[perm[a] as int] == ranks[perm[b] as int] ==> perm[a]
            < perm[b]
}

/// The prefix property kept while building the order: `perm` orders the
/// first `n` indices.
spec fn orders_prefix(ranks: Seq<i64>, perm: Seq<usize>, n: int) -> bool {
    &&& perm.len() == n
    &&& forall|k: int| 0 <= k < perm.len() ==> #[trigger] perm[k] < n
    &&& forall|a: int, b: int| 0 <= a < b < perm.len() ==> perm[a] != perm[b]
    &&& forall|a: int, b: int|
        0 <= a < b < perm.len() ==> ranks[perm[a] as int] >= ranks[perm[b] as int]
    &&& forall|a: int, b: int|
        0 <= a < b < perm.len() && ranks[perm[a] as int] == ranks[perm[b] as int] ==> perm[a]
            < perm[b]
}

/// The indices of `ranks` in stable descending order of rank (insertion sort).
pub fn stable_desc_order(ranks: &Vec<i64>) -> (perm: Vec<usize>)
    ensures
        is_stable_desc_order(ranks@, perm@),
{
    let mut perm: Vec<usize> = Vec::new();
    let mut i: usize = 0;
    while i < ranks.len()
        invariant
            i <= ranks.len(),
            orders_prefix(ranks@, perm@, i as int),
        decreases ranks.len() - i,
    {
        let mut p = perm.len();
        while p > 0 && ranks[perm[p - 1]] < ranks[i]
            invariant
                p <= perm.len(),
                i < ranks.len(),
                orders_prefix(ranks@, perm@, i as int),
                forall|q: int| p <= q < perm.len() ==> ranks@[perm@[q] as int] < ranks@[i as int],
            decreases p,
        {
            p = p - 1;
        }
        let ghost old_perm = perm@;
        perm.insert(p, i);
        proof {
            let np = perm@;
            assert(np == old_perm.insert(p as int, i));
            assert forall|k: int| 0 <= k < np.len() implies #[trigger] np[k] < i + 1 by {
                if k < p {
                    assert(np[k] == old_perm[k]);
                } else if k > p {
                    assert(np[k] == old_perm[k - 1]);
                }
            }
            assert forall|a: int, b: int| 0 <= a < b < np.len() implies np[a] != np[b] by {
                if a < p && b < p {
                    assert(np[a] == old_perm[a] && np[b] == old_perm[b]);
                } else if a < p && b == p {
                    assert(old_perm[a] < i);
                } else if a < p {
                    assert(np[a] == old_perm[a] && np[b] == old_perm[b - 1]);
                } else if a == p {
                    assert(old_perm[b - 1] < i);
                } else {
                    assert(np[a] == old_perm[a - 1] && np[b] == old_perm[b - 1]);
                }
            }
            assert forall|a: int, b: int| 0 <= a < b < np.len() implies ranks@[np[a] as int]
                >= ranks@[np[b] as int] && (ranks@[np[a] as int] == ranks@[np[b] as int] ==> np[a]
                < np[b]) by {
                if a < p && b < p {
                    assert(np[a] == old_perm[a] && np[b] == old_perm[b]);
                } else if a < p && b == p {
                    // perm[p - 1] ranks at least as high as i, and so does every earlier entry.
                    assert(old_perm[a] < i);
                    if a < p - 1 {
                        assert(ranks@[old_perm[a] as int] >= ranks@[old_perm[p - 1] as int]);
                    }
                } else if a < p {
                    assert(np[a] == old_perm[a] && np[b] == old_perm[b - 1]);
                } else if a == p {
                    assert(np[b] == old_perm[b - 1]);
                } else {
                    assert(np[a] == old_perm[a - 1] && np[b] == old_perm[b - 1]);
                }
            }
        }
        i = i + 1;
    }
    perm
}

// ---------------------------------------------------------------------------
// Lexicographic order of strings
// ---------------------------------------------------------------------------

/// `a` comes strictly before `b` in lexicographic order by code point (the
/// order of `String`'s `Ord`, since UTF-8 keeps code point order).
pub open spec fn lex_lt(a: Seq<char>, b: Seq<char>) -> bool
    decreases a.len(),
{
    if a.len() == 0 {
        b.len() > 0
    } else if b.len() == 0 {
        false
    } else if a[0] != b[0] {
        (a[0] as u32) < (b[0] as u32)
    } else {
        lex_lt(a.drop_first(), b.drop_first())
    }
}

/// The order is irreflexive and transitive, and orders any two different
/// strings.
pub proof fn lemma_lex_order(a: Seq<char>, b: Seq<char>, c: Seq<char>)
    ensures
        !lex_lt(a, a),
        lex_lt(a, b) ==> !lex_lt(b, a),
        lex_lt(a, b) && lex_lt(b, c) ==> lex_lt(a, c),
        a != b ==> lex_lt(a, b) || lex_lt(b, a),
    decreases a.len(),
{
    if a.len() > 0 && b.len() > 0 && c.len() > 0 {
        lemma_lex_order(a.drop_first(), b.drop_first(), c.drop_first());
        if a[0] == b[0] && a.drop_first() == b.drop_first() {
            assert(a =~= seq![a[0]] + a.drop_first());
            assert(b =~= seq![b[0]] + b.drop_first());
        }
        if (a[0] as u32) == (b[0] as u32) {
            vstd::utf8::char_u32_cast(a[0], a[0] as u32);
            vstd::utf8::char_u32_cast(b[0], b[0] as u32);
        }
    } else if a.len() > 0 && b.len() > 0 {
        lemma_lex_order(a.drop_first(), b.drop_first(), a.drop_first());
        if a[0] == b[0] && a.drop_first() == b.drop_first() {
            assert(a =~= seq![a[0]] + a.drop_first());
            assert(b =~= seq![b[0]] + b.drop_first());
        }
        if (a[0] as u32) == (b[0] as u32) {
            vstd::utf8::char_u32_cast(a[0], a[0] as u32);
            vstd::utf8::char_u32_cast(b[0], b[0] as u32);
        }
    } else if a.len() > 0 {
        lemma_lex_order(a.drop_first(), a.drop_first(), a.drop_first());
    } else {
        if b.len() == 0 {
            assert(a =~= b);
        }
    }
}

/// Whether `a` comes strictly before `b`.
pub fn lex_less(a: &Vec<char>, b: &Vec<char>) -> (r: bool)
    ensures
        r == lex_lt(a@, b@),
{
    let mut i: usize = 0;
    assert(a@.skip(0) =~= a@ && b@.skip(0) =~= b@);
    while i < a.len() && i < b.len() && a[i] == b[i]
        invariant
            i <= a.len(),
            i <= b.len(),
            lex_lt(a@, b@) == lex_lt(a@.skip(i as int), b@.skip(i as int)),
        decreases a.len() - i,
    {
        proof {
            let x = a@.skip(i as int);
            let y = b@.skip(i as int);
            assert(x.drop_first() =~= a@.skip(i + 1));
            assert(y.drop_first() =~= b@.skip(i + 1));
        }
        i = i + 1;
    }
    if i == a.len() {
        i < b.len()
    } else if i == b.len() {
        false
    } else {
        (a[i] as u32) < (b[i] as u32)
    }
}

/// Whether `s` is strictly increasing.
pub open spec fn strictly_sorted(s: Seq<Seq<char>>) -> bool {
    forall|i: int, j: int| 0 <= i < j < s.len() ==> lex_lt(#[trigger] s[i], #[trigger] s[j])
}

/// Pushing an element adds it to the set of elements.
proof fn lemma_push_to_set(s: Seq<Seq<char>>, x: Seq<char>)
    ensures
        s.push(x).to_set() == s.to_set().insert(x),
{
    let t = s.push(x);
    assert forall|e: Seq<char>| t.contains(e) <==> (s.contains(e) || e == x) by {
        if t.contains(e) {
            let k = choose|k: int| 0 <= k < t.len() && t[k] == e;
            if k < s.len() {
                assert(s[k] == e);
            }
        }
        if s.contains(e) {
            let k = choose|k: int| 0 <= k < s.len() && s[k] == e;
            assert(t[k] == e);
        }
        if e == x {
            assert(t[s.len() as int] == x);
        }
    }
    assert(t.to_set() =~= s.to_set().insert(x));
}

/// The distinct strings of `ids`, in increasing order.
pub fn sorted_distinct(ids: &[String]) -> (r: Vec<String>)
    ensures
        strictly_sorted(views(r@)),
        views(r@).to_set() == views(ids@).to_set(),
        views(r@).no_duplicates(),
{
    let mut r: Vec<String> = Vec::new();
    let mut n: usize = 0;
    while n < ids.len()
        invariant
            n <= ids@.len(),
            strictly_sorted(views(r@)),
            views(r@).to_set() == views(ids@.take(n as int)).to_set(),
        decreases ids.len() - n,
    {
        let x = chars_of(ids[n].as_str());
        let mut pos: usize = 0;
        let mut found = false;
        let mut stop = false;
        while pos < r.len() && !found && !stop
            invariant
                pos <= r@.len(),
                x@ == ids@[n as int]@,
                strictly_sorted(views(r@)),
                !found ==> forall|k: int| 0 <= k < pos ==> lex_lt(#[trigger] views(r@)[k], x@),
                found ==> pos < r@.len() && views(r@)[pos as int] == x@,
                stop ==> !found && pos < r@.len() && lex_lt(x@, views(r@)[pos as int]),
            decreases r.len() - pos + (if found || stop { 0int } else { 1int }),
        {
            let y = chars_of(r[pos].as_str());
            if lex_less(&y, &x) {
                pos = pos + 1;
            } else if !lex_less(&x, &y) {
                proof {
                    lemma_lex_order(x@, y@, x@);
                }
                found = true;
            } else {
                stop = true;
            }
        }
        let ghost before = views(r@);
        let ghost added = views(ids@.take(n as int + 1));
        proof {
            assert(views(ids@.take(n as int)).push(x@) =~= added);
        }
        if !found {
            proof {
                assert forall|k: int| pos <= k < before.len() implies lex_lt(x@, #[trigger] before[k]) by {
                    if k > pos {
                        assert(lex_lt(before[pos as int], before[k]));
                        lemma_lex_order(x@, before[pos as int], before[k]);
                    }
                }
            }
            r.insert(pos, ids[n].clone());
            proof {
                let after = views(r@);
                assert(after =~= before.insert(pos as int, x@));
                assert forall|i: int, j: int| 0 <= i < j < after.len() implies lex_lt(
                    #[trigger] after[i],
                    #[trigger] after[j],
                ) by {
                    if j < pos {
                    } else if i < pos && j == pos {
                    } else if i < pos {
                        lemma_lex_order(before[i], x@, before[j - 1]);
                    } else if i == pos {
                    } else {
                    }
                }
                assert forall|e: Seq<char>| after.contains(e) <==> (before.contains(e) || e == x@) by {
                    if after.contains(e) {
                        let k = choose|k: int| 0 <= k < after.len() && after[k] == e;
                        if k < pos {
                            assert(before[k] == e);
                        } else if k > pos {
                            assert(before[k - 1] == e);
                        }
                    }
                    if before.contains(e) {
                        let k = choose|k: int| 0 <= k < before.len() && before[k] == e;
                        if k < pos {
                            assert(after[k] == e);
                        } else {
                            assert(after[k + 1] == e);
                        }
                    }
                    if e == x@ {
                        assert(after[pos as int] == x@);
                    }
                }
                assert(after.to_set() =~= before.to_set().insert(x@));
                lemma_push_to_set(views(ids@.take(n as int)), x@);
            }
        } else {
            proof {
                assert(before.to_set().contains(x@));
                lemma_push_to_set(views(ids@.take(n as int)), x@);
                assert(added.to_set() =~= before.to_set());
            }
        }
        n = n + 1;
    }
    proof {
        assert(ids@.take(ids@.len() as int) =~= ids@);
        let v = views(r@);
        assert forall|i: int, j: int| 0 <= i < v.len() && 0 <= j < v.len() && i != j implies v[i]
            != v[j] by {
            if i < j {
                lemma_lex_order(v[i], v[j], v[i]);
            } else {
                lemma_lex_order(v[j], v[i], v[j]);
            }
        }
    }
    r
}

} // verus!
