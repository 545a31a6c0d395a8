//! Lexicographic order on strings (by Unicode scalar value, which is the
//! order Rust's `str` comparison gives), with the lemmas that sorting needs.

use vstd::prelude::*;

verus! {

/// `a` sorts strictly before `b`.
pub open spec fn lex_lt(a: Seq<char>, b: Seq<char>) -> bool
    decreases a.len(),
{
    if a.len() == 0 {
        b.len() > 0
    } else if b.len() == 0 {
        false
    } else if a[0] != b[0] {
        a[0] < b[0]
    } else {
        lex_lt(a.drop_first(), b.drop_first())
    }
}

/// No string sorts before itself.
pub proof fn lemma_lex_irreflexive(a: Seq<char>)
    ensures
        !lex_lt(a, a),
    decreases a.len(),
{
    if a.len() > 0 {
        lemma_lex_irreflexive(a.drop_first());
    }
}

/// Two different strings are ordered one way or the other.
pub proof fn lemma_lex_total(a: Seq<char>, b: Seq<char>)
    ensures
        a != b ==> lex_lt(a, b) || lex_lt(b, a),
    decreases a.len(),
{
    if a.len() > 0 && b.len() > 0 && a[0] == b[0] {
        lemma_lex_total(a.drop_first(), b.drop_first());
        if a.drop_first() == b.drop_first() {
            assert(a =~= seq![a[0]] + a.drop_first());
            assert(b =~= seq![b[0]] + b.drop_first());
        }
    } else if a.len() == 0 && b.len() == 0 {
        assert(a =~= b);
    }
}

/// `lex_lt` is asymmetric.
pub proof fn lemma_lex_asymmetric(a: Seq<char>, b: Seq<char>)
    ensures
        lex_lt(a, b) ==> !lex_lt(b, a),
    decreases a.len(),
{
    if a.len() > 0 && b.len() > 0 && a[0] == b[0] {
        lemma_lex_asymmetric(a.drop_first(), b.drop_first());
    }
}

/// `lex_lt` is transitive.
pub proof fn lemma_lex_transitive(a: Seq<char>, b: Seq<char>, c: Seq<char>)
    requires
        lex_lt(a, b),
        lex_lt(b, c),
    ensures
        lex_lt(a, c),
    decreases a.len(),
{
    if a.len() > 0 && b.len() > 0 && c.len() > 0 {
        if a[0] == b[0] && b[0] == c[0] {
            lemma_lex_transitive(a.drop_first(), b.drop_first(), c.drop_first());
        }
    }
}

/// Whether `a` sorts strictly before `b`.
pub fn lex_lt_exec(a: &Vec<char>, b: &Vec<char>) -> (r: bool)
    ensures
        r == lex_lt(a@, b@),
{
    let mut i: usize = 0;
    proof {
        assert(a@.subrange(0, a@.len() as int) =~= a@);
        assert(b@.subrange(0, b@.len() as int) =~= b@);
    }
    while i < a.len() && i < b.len() && a[i] == b[i]
        invariant
            i <= a.len(),
            i <= b.len(),
            lex_lt(a@, b@) == lex_lt(a@.subrange(i as int, a@.len() as int), b@.subrange(i as int, b@.len() as int)),
        decreases a.len() - i,
    {
        proof {
            assert(a@.subrange(i as int, a@.len() as int).drop_first() =~= a@.subrange(i + 1, a@.len() as int));
            assert(b@.subrange(i as int, b@.len() as int).drop_first() =~= b@.subrange(i + 1, b@.len() as int));
        }
        i = i + 1;
    }
    if i == a.len() {
        i < b.len()
    } else if i == b.len() {
        false
    } else {
        a[i] < b[i]
    }
}

/// Whether the string `a` sorts strictly before `b`.
pub fn str_lt(a: &str, b: &str) -> (r: bool)
    ensures
        r == lex_lt(a@, b@),
{
    lex_lt_exec(&crate::text::chars_of(a), &crate::text::chars_of(b))
}

/// `s` is strictly increasing.
pub open spec fn strictly_sorted(s: Seq<Seq<char>>) -> bool {
    forall|i: int, j: int| 0 <= i < j < s.len() ==> lex_lt(#[trigger] s[i], #[trigger] s[j])
}

/// The character views of a sequence of strings.
pub open spec fn views(v: Seq<String>) -> Seq<Seq<char>> {
    v.map_values(|x: String| x@)
}

/// Inserts `s` into the strictly sorted `v`, unless it is already there.
pub fn insert_sorted(v: &mut Vec<String>, s: String)
    requires
        strictly_sorted(views(old(v)@)),
    ensures
        strictly_sorted(views(final(v)@)),
        forall|x: Seq<char>| views(final(v)@).contains(x) <==> (views(old(v)@).contains(x) || x == s@),
{
    let sv = crate::text::chars_of(s.as_str());
    let mut i: usize = 0;
    while i < v.len()
        invariant
            i <= v.len(),
            v@ == old(v)@,
            sv@ == s@,
            strictly_sorted(views(v@)),
            forall|k: int| 0 <= k < i ==> lex_lt(#[trigger] views(v@)[k], s@),
        decreases v.len() - i,
    {
        let cur = crate::text::chars_of(v[i].as_str());
        if !lex_lt_exec(&cur, &sv) {
            if crate::json::str_eq(v[i].as_str(), s.as_str()) {
                proof {
                    assert(views(v@)[i as int] == s@);
                    assert(views(v@).contains(s@));
                }
                return;
            }
            proof {
                lemma_lex_total(views(v@)[i as int], s@);
                assert forall|a: int, b: int| 0 <= a < b < views(v@).len() + 1 implies
                    lex_lt(#[trigger] views(v@).insert(i as int, s@)[a], #[trigger] views(v@).insert(i as int, s@)[b]) by {
                    let w = views(v@);
                    if b < i {
                    } else if b == i {
                    } else if a < i {
                        lemma_lex_transitive(w[a], s@, w[i as int]);
                        if b - 1 > i {
                            lemma_lex_transitive(w[a], w[i as int], w[b - 1]);
                        }
                    } else if a == i {
                        if b - 1 > i {
                            lemma_lex_transitive(s@, w[i as int], w[b - 1]);
                        }
                    } else {
                    }
                }
            }
            v.insert(i, s);
            proof {
                assert(views(v@) =~= views(old(v)@).insert(i as int, s@));
                assert forall|x: Seq<char>| views(v@).contains(x) <==> (views(old(v)@).contains(x) || x == s@) by {
                    let w = views(old(v)@);
                    if views(v@).contains(x) {
                        let k = choose|k: int| 0 <= k < views(v@).len() && views(v@)[k] == x;
                        if k < i {
                            assert(w[k] == x);
                        } else if k > i {
                            assert(w[k - 1] == x);
                        }
                    }
                    if w.contains(x) {
                        let k = choose|k: int| 0 <= k < w.len() && w[k] == x;
                        if k < i {
                            assert(views(v@)[k] == x);
                        } else {
                            assert(views(v@)[k + 1] == x);
                        }
                    }
                    if x == s@ {
                        assert(views(v@)[i as int] == x);
                    }
                }
            }
            return;
        }
        i = i + 1;
    }
    proof {
        assert forall|a: int, b: int| 0 <= a < b < views(v@).len() + 1 implies
            lex_lt(#[trigger] views(v@).push(s@)[a], #[trigger] views(v@).push(s@)[b]) by {
        }
    }
    v.push(s);
    proof {
        assert(views(v@) =~= views(old(v)@).push(s@));
        assert forall|x: Seq<char>| views(v@).contains(x) <==> (views(old(v)@).contains(x) || x == s@) by {
            let w = views(old(v)@);
            if views(v@).contains(x) {
                let k = choose|k: int| 0 <= k < views(v@).len() && views(v@)[k] == x;
                if k < w.len() {
                    assert(w[k] == x);
                }
            }
            if w.contains(x) {
                let k = choose|k: int| 0 <= k < w.len() && w[k] == x;
                assert(views(v@)[k] == x);
            }
            if x == s@ {
                assert(views(v@)[w.len() as int] == x);
            }
        }
    }
}


/// `(name, value)` pairs as character sequences.
pub type PairSeq = Seq<(Seq<char>, Seq<char>)>;

/// The character views of a vector of `(name, value)` string pairs.
pub open spec fn pair_views(v: Seq<(String, String)>) -> PairSeq {
    v.map_values(|p: (String, String)| (p.0@, p.1@))
}

/// Inserts `x` into `s` after every pair whose name does not sort after
/// `x`'s name (so pairs of equal name keep their order).
pub open spec fn sorted_insert(s: PairSeq, x: (Seq<char>, Seq<char>)) -> PairSeq
    decreases s.len(),
{
    if s.len() > 0 && lex_lt(x.0, s.last().0) {
        sorted_insert(s.drop_last(), x).push(s.last())
    } else {
        s.push(x)
    }
}

/// The stable sort of `s` by name.
pub open spec fn stable_sort(s: PairSeq) -> PairSeq
    decreases s.len(),
{
    if s.len() == 0 {
        seq![]
    } else {
        sorted_insert(stable_sort(s.drop_last()), s.last())
    }
}

/// Names never decrease along `s`.
pub open spec fn sorted_by_name(s: PairSeq) -> bool {
    forall|i: int, j: int| 0 <= i < j < s.len() ==> !lex_lt(#[trigger] s[j].0, #[trigger] s[i].0)
}

/// Inserting at the first position after which every name sorts after
/// `x`'s is what `sorted_insert` does.
pub proof fn lemma_sorted_insert_at(s: PairSeq, x: (Seq<char>, Seq<char>), p: int)
    requires
        0 <= p <= s.len(),
        forall|i: int| p <= i < s.len() ==> lex_lt(x.0, #[trigger] s[i].0),
        p == 0 || !lex_lt(x.0, s[p - 1].0),
    ensures
        sorted_insert(s, x) == s.insert(p, x),
    decreases s.len(),
{
    if p < s.len() {
        assert(lex_lt(x.0, s[s.len() - 1].0));
        lemma_sorted_insert_at(s.drop_last(), x, p);
        assert(s.drop_last().insert(p, x).push(s.last()) =~= s.insert(p, x));
    } else {
        assert(s.push(x) =~= s.insert(p, x));
    }
}

/// `sorted_insert` adds exactly `x`.
pub proof fn lemma_sorted_insert_multiset(s: PairSeq, x: (Seq<char>, Seq<char>))
    ensures
        sorted_insert(s, x).to_multiset() == s.to_multiset().insert(x),
    decreases s.len(),
{
    broadcast use vstd::seq_lib::group_to_multiset_ensures;
    if s.len() > 0 && lex_lt(x.0, s.last().0) {
        lemma_sorted_insert_multiset(s.drop_last(), x);
        assert(s.drop_last().push(s.last()) =~= s);
        assert(s.to_multiset() == s.drop_last().to_multiset().insert(s.last()));
        assert(sorted_insert(s, x).to_multiset() =~= s.to_multiset().insert(x));
    }
}

/// `sorted_insert` keeps a sequence sorted by name.
pub proof fn lemma_sorted_insert_sorted(s: PairSeq, x: (Seq<char>, Seq<char>))
    requires
        sorted_by_name(s),
    ensures
        sorted_by_name(sorted_insert(s, x)),
        sorted_insert(s, x).len() == s.len() + 1,
        forall|i: int| 0 <= i < sorted_insert(s, x).len() ==>
            #[trigger] sorted_insert(s, x)[i] == x || s.contains(sorted_insert(s, x)[i]),
    decreases s.len(),
{
    if s.len() > 0 && lex_lt(x.0, s.last().0) {
        let t = s.drop_last();
        assert(sorted_by_name(t));
        lemma_sorted_insert_sorted(t, x);
        let u = sorted_insert(t, x);
        assert forall|i: int| 0 <= i < u.len() implies !lex_lt(s.last().0, #[trigger] u[i].0) by {
            if u[i] == x {
                lemma_lex_asymmetric(x.0, s.last().0);
            } else {
                let k = choose|k: int| 0 <= k < t.len() && t[k] == u[i];
                assert(t[k] == s[k]);
            }
        }
        assert forall|i: int| 0 <= i < u.push(s.last()).len() implies
            (#[trigger] u.push(s.last())[i] == x || s.contains(u.push(s.last())[i])) by {
            if i < u.len() && u[i] != x {
                let k = choose|k: int| 0 <= k < t.len() && t[k] == u[i];
                assert(s[k] == t[k]);
            } else if i == u.len() {
                assert(s[s.len() - 1] == s.last());
            }
        }
    } else {
        assert forall|i: int| 0 <= i < s.len() implies !lex_lt(x.0, #[trigger] s[i].0) by {
            if s.len() > 0 && i < s.len() - 1 {
                assert(!lex_lt(s[s.len() - 1].0, s[i].0));
                lemma_lex_total(s[i].0, s[s.len() - 1].0);
                if lex_lt(x.0, s[i].0) {
                    if s[i].0 == s[s.len() - 1].0 {
                    } else {
                        lemma_lex_transitive(x.0, s[i].0, s[s.len() - 1].0);
                    }
                }
            }
        }
        assert forall|i: int| 0 <= i < s.push(x).len() implies
            (#[trigger] s.push(x)[i] == x || s.contains(s.push(x)[i])) by {
            if i < s.len() {
                assert(s.push(x)[i] == s[i]);
            }
        }
    }
}

/// The stable sort is sorted by name.
pub proof fn lemma_stable_sort_sorted(s: PairSeq)
    ensures
        sorted_by_name(stable_sort(s)),
        stable_sort(s).len() == s.len(),
    decreases s.len(),
{
    if s.len() > 0 {
        lemma_stable_sort_sorted(s.drop_last());
        lemma_sorted_insert_sorted(stable_sort(s.drop_last()), s.last());
    }
}

/// The stable sort rearranges `s` without adding or losing a pair.
pub proof fn lemma_stable_sort_multiset(s: PairSeq)
    ensures
        stable_sort(s).to_multiset() == s.to_multiset(),
    decreases s.len(),
{
    broadcast use vstd::seq_lib::group_to_multiset_ensures;
    if s.len() > 0 {
        lemma_stable_sort_multiset(s.drop_last());
        lemma_sorted_insert_multiset(stable_sort(s.drop_last()), s.last());
        assert(s.drop_last().push(s.last()) =~= s);
    }
}

/// Stable sort of `(name, value)` pairs by name.
pub fn sort_pairs_by_name(v: Vec<(String, String)>) -> (r: Vec<(String, String)>)
    ensures
        pair_views(r@) == stable_sort(pair_views(v@)),
{
    let ghost orig = v@;
    let mut v = v;
    let mut r: Vec<(String, String)> = Vec::new();
    let ghost mut k: int = 0;
    proof {
        assert(pair_views(r@) =~= stable_sort(pair_views(orig.subrange(0, 0))));
    }
    while v.len() > 0
        invariant
            0 <= k <= orig.len(),
            v@ == orig.subrange(k, orig.len() as int),
            pair_views(r@) == stable_sort(pair_views(orig.subrange(0, k))),
        decreases v.len(),
    {
        let x = v.remove(0);
        proof {
            assert(x == orig[k]);
            assert(v@ =~= orig.subrange(k + 1, orig.len() as int));
        }
        let mut p = r.len();
        while p > 0 && str_lt(x.0.as_str(), r[p - 1].0.as_str())
            invariant
                p <= r.len(),
                forall|i: int| p <= i < r@.len() ==> lex_lt(x.0@, #[trigger] pair_views(r@)[i].0),
            decreases p,
        {
            p = p - 1;
        }
        proof {
            let s = pair_views(r@);
            lemma_sorted_insert_at(s, (x.0@, x.1@), p as int);
            assert(pair_views(orig.subrange(0, k + 1)).drop_last() =~= pair_views(orig.subrange(0, k)));
            assert(pair_views(orig.subrange(0, k + 1)).last() == (x.0@, x.1@));
        }
        let ghost before = r@;
        r.insert(p, x);
        proof {
            assert(pair_views(r@) =~= pair_views(before).insert(p as int, (x.0@, x.1@)));
            k = k + 1;
        }
    }
    proof {
        assert(orig.subrange(0, k) =~= orig);
    }
    r
}

/// Whether `s` is one of the strings of `v`.
pub fn contains_string(v: &Vec<String>, s: &str) -> (r: bool)
    ensures
        r == views(v@).contains(s@),
{
    let mut i: usize = 0;
    while i < v.len()
        invariant
            i <= v.len(),
            forall|j: int| 0 <= j < i ==> views(v@)[j] != s@,
        decreases v.len() - i,
    {
        if crate::json::str_eq(v[i].as_str(), s) {
            proof {
                assert(views(v@)[i as int] == s@);
            }
            return true;
        }
        i = i + 1;
    }
    false
}

} // verus!
