//! String-keyed maps held as vectors of `(key, value)` pairs in strictly
//! increasing key order, so that walking one gives the order a `BTreeMap`
//! gives.

use vstd::prelude::*;
use crate::order::{self, lex_lt, PairSeq};

verus! {

/// Keys strictly increase along `s`.
pub open spec fn keys_sorted<V>(s: Seq<(Seq<char>, V)>) -> bool {
    forall|i: int, j: int| 0 <= i < j < s.len() ==> lex_lt(#[trigger] s[i].0, #[trigger] s[j].0)
}

/// The value stored under `k`.
pub open spec fn lookup<V>(s: Seq<(Seq<char>, V)>, k: Seq<char>) -> Option<V>
    decreases s.len(),
{
    if s.len() == 0 {
        None
    } else if s[0].0 == k {
        Some(s[0].1)
    } else {
        lookup(s.drop_first(), k)
    }
}

/// `s` with `k` set to `v`: the pair replaces the one with the same key,
/// or goes in before the first larger key.
pub open spec fn put<V>(s: Seq<(Seq<char>, V)>, k: Seq<char>, v: V) -> Seq<(Seq<char>, V)>
    decreases s.len(),
{
    if s.len() == 0 {
        seq![(k, v)]
    } else if s[0].0 == k {
        seq![(k, v)] + s.drop_first()
    } else if lex_lt(k, s[0].0) {
        seq![(k, v)] + s
    } else {
        seq![s[0]] + put(s.drop_first(), k, v)
    }
}

/// After `put`, `k` maps to `v`, every other key is as before, and the keys
/// still increase.
pub proof fn lemma_put<V>(s: Seq<(Seq<char>, V)>, k: Seq<char>, v: V)
    requires
        keys_sorted(s),
    ensures
        keys_sorted(put(s, k, v)),
        lookup(put(s, k, v), k) == Some(v),
        forall|k2: Seq<char>| k2 != k ==> lookup(put(s, k, v), k2) == lookup(s, k2),
        forall|i: int| 0 <= i < put(s, k, v).len() ==>
            (#[trigger] put(s, k, v)[i]).0 == k || exists|j: int| 0 <= j < s.len() && s[j].0 == put(s, k, v)[i].0,
    decreases s.len(),
{
    let r = put(s, k, v);
    if s.len() == 0 {
        assert(r.drop_first() =~= Seq::<(Seq<char>, V)>::empty());
        assert forall|k2: Seq<char>| k2 != k implies lookup(r, k2) == lookup(s, k2) by {
            assert(lookup(r.drop_first(), k2) is None);
        }
    } else if s[0].0 == k {
        let t = s.drop_first();
        assert forall|i: int, j: int| 0 <= i < j < r.len() implies lex_lt(#[trigger] r[i].0, #[trigger] r[j].0) by {
            if i == 0 {
                assert(r[j] == s[j]);
                assert(lex_lt(s[0].0, s[j].0));
            } else {
                assert(r[i] == s[i] && r[j] == s[j]);
            }
        }
        assert forall|k2: Seq<char>| k2 != k implies lookup(r, k2) == lookup(s, k2) by {
            assert(r.drop_first() =~= t);
        }
        assert forall|i: int| 0 <= i < r.len() implies
            (#[trigger] r[i]).0 == k || exists|j: int| 0 <= j < s.len() && s[j].0 == r[i].0 by {
            if i > 0 {
                assert(r[i] == s[i]);
            }
        }
    } else if lex_lt(k, s[0].0) {
        assert forall|i: int, j: int| 0 <= i < j < r.len() implies lex_lt(#[trigger] r[i].0, #[trigger] r[j].0) by {
            if i == 0 {
                assert(r[j] == s[j - 1]);
                if j - 1 > 0 {
                    assert(lex_lt(s[0].0, s[j - 1].0));
                    order::lemma_lex_transitive(k, s[0].0, s[j - 1].0);
                }
            } else {
                assert(r[i] == s[i - 1] && r[j] == s[j - 1]);
            }
        }
        assert(lookup(r, k) == Some(v));
        assert forall|k2: Seq<char>| k2 != k implies lookup(r, k2) == lookup(s, k2) by {
            assert(r.drop_first() =~= s);
        }
        assert forall|i: int| 0 <= i < r.len() implies
            (#[trigger] r[i]).0 == k || exists|j: int| 0 <= j < s.len() && s[j].0 == r[i].0 by {
            if i > 0 {
                assert(r[i] == s[i - 1]);
            }
        }
    } else {
        let t = s.drop_first();
        assert(keys_sorted(t)) by {
            assert forall|i: int, j: int| 0 <= i < j < t.len() implies lex_lt(#[trigger] t[i].0, #[trigger] t[j].0) by {
                assert(t[i] == s[i + 1] && t[j] == s[j + 1]);
            }
        }
        lemma_put(t, k, v);
        let u = put(t, k, v);
        assert(r =~= seq![s[0]] + u);
        order::lemma_lex_total(k, s[0].0);
        assert forall|i: int, j: int| 0 <= i < j < r.len() implies lex_lt(#[trigger] r[i].0, #[trigger] r[j].0) by {
            if i == 0 {
                assert(r[j] == u[j - 1]);
                if u[j - 1].0 == k {
                } else {
                    let m = choose|m: int| 0 <= m < t.len() && t[m].0 == u[j - 1].0;
                    assert(t[m] == s[m + 1]);
                    assert(lex_lt(s[0].0, s[m + 1].0));
                }
            } else {
                assert(r[i] == u[i - 1] && r[j] == u[j - 1]);
            }
        }
        assert(r.drop_first() =~= u);
        assert forall|k2: Seq<char>| k2 != k implies lookup(r, k2) == lookup(s, k2) by {
            assert(r[0] == s[0]);
            if s[0].0 != k2 {
                assert(lookup(r, k2) == lookup(r.drop_first(), k2));
                assert(lookup(u, k2) == lookup(t, k2));
                assert(lookup(s, k2) == lookup(t, k2));
            }
        }
        assert forall|i: int| 0 <= i < r.len() implies
            (#[trigger] r[i]).0 == k || exists|j: int| 0 <= j < s.len() && s[j].0 == r[i].0 by {
            if i > 0 {
                assert(r[i] == u[i - 1]);
                if u[i - 1].0 != k {
                    let m = choose|m: int| 0 <= m < t.len() && t[m].0 == u[i - 1].0;
                    assert(t[m] == s[m + 1]);
                }
            } else {
                assert(r[0] == s[0]);
            }
        }
    }
}

/// Sets `k` to `v` in the sorted map `m`.
pub fn map_insert(m: &mut Vec<(String, String)>, k: String, v: String)
    requires
        keys_sorted(order::pair_views(old(m)@)),
    ensures
        order::pair_views(final(m)@) == put(order::pair_views(old(m)@), k@, v@),
        keys_sorted(order::pair_views(final(m)@)),
{
    let ghost s = order::pair_views(m@);
    proof {
        lemma_put(s, k@, v@);
    }
    let mut i: usize = 0;
    proof {
        assert(s.subrange(0, 0) + s.subrange(0, s.len() as int) =~= s);
    }
    while i < m.len() && order::str_lt(m[i].0.as_str(), k.as_str())
        invariant
            i <= m.len(),
            s == order::pair_views(m@),
            keys_sorted(s),
            put(s, k@, v@) == s.subrange(0, i as int) + put(s.subrange(i as int, s.len() as int), k@, v@),
        decreases m.len() - i,
    {
        proof {
            let rest = s.subrange(i as int, s.len() as int);
            order::lemma_lex_irreflexive(k@);
            assert(rest[0] == s[i as int]);
            order::lemma_lex_asymmetric(s[i as int].0, k@);
            assert(rest.drop_first() =~= s.subrange(i + 1, s.len() as int));
            assert(s.subrange(0, i + 1) =~= s.subrange(0, i as int) + seq![rest[0]]);
        }
        i = i + 1;
    }
    let ghost rest = s.subrange(i as int, s.len() as int);
    if i < m.len() && crate::json::str_eq(m[i].0.as_str(), k.as_str()) {
        let ghost before = m@;
        m.remove(i);
        m.insert(i, (k, v));
        proof {
            assert(rest[0].0 == k@);
            assert(order::pair_views(m@) =~= s.subrange(0, i as int) + (seq![(k@, v@)] + rest.drop_first()));
        }
    } else {
        proof {
            if i < s.len() {
                order::lemma_lex_total(k@, s[i as int].0);
                assert(rest[0] == s[i as int]);
            } else {
                assert(rest.len() == 0);
            }
        }
        m.insert(i, (k, v));
        proof {
            if i < s.len() {
                assert(order::pair_views(m@) =~= s.subrange(0, i as int) + (seq![(k@, v@)] + rest));
            } else {
                assert(order::pair_views(m@) =~= s.subrange(0, i as int) + seq![(k@, v@)]);
            }
        }
    }
}

/// The value stored under `k` in the sorted map `m`.
pub fn map_get<'a>(m: &'a Vec<(String, String)>, k: &str) -> (r: Option<&'a String>)
    ensures
        match r {
            Some(x) => lookup(order::pair_views(m@), k@) == Some(x@),
            None => lookup(order::pair_views(m@), k@) is None,
        },
{
    let ghost s = order::pair_views(m@);
    let mut i: usize = 0;
    proof {
        assert(s.subrange(0, s.len() as int) =~= s);
    }
    while i < m.len()
        invariant
            i <= m.len(),
            s == order::pair_views(m@),
            lookup(s, k@) == lookup(s.subrange(i as int, s.len() as int), k@),
        decreases m.len() - i,
    {
        proof {
            let rest = s.subrange(i as int, s.len() as int);
            assert(rest.drop_first() =~= s.subrange(i + 1, s.len() as int));
            assert(rest[0] == s[i as int]);
        }
        if crate::json::str_eq(m[i].0.as_str(), k) {
            return Some(&m[i].1);
        }
        i = i + 1;
    }
    None
}

/// Sets `k` to the JSON value `v` in the sorted map `m`.
pub fn json_map_insert(m: &mut Vec<(String, crate::json::Json)>, k: String, v: crate::json::Json)
    requires
        keys_sorted(crate::json::jv_members(old(m)@)),
    ensures
        crate::json::jv_members(final(m)@) == put(crate::json::jv_members(old(m)@), k@, v@),
        keys_sorted(crate::json::jv_members(final(m)@)),
{
    let ghost s = crate::json::jv_members(m@);
    proof {
        lemma_put(s, k@, v@);
        crate::json::lemma_jv_members(m@);
    }
    let mut i: usize = 0;
    proof {
        assert(s.subrange(0, 0) + s.subrange(0, s.len() as int) =~= s);
    }
    while i < m.len() && order::str_lt(m[i].0.as_str(), k.as_str())
        invariant
            i <= m.len(),
            s == crate::json::jv_members(m@),
            s.len() == m@.len(),
            forall|j: int| 0 <= j < m@.len() ==> #[trigger] s[j] == (m@[j].0@, m@[j].1@),
            keys_sorted(s),
            put(s, k@, v@) == s.subrange(0, i as int) + put(s.subrange(i as int, s.len() as int), k@, v@),
        decreases m.len() - i,
    {
        proof {
            let rest = s.subrange(i as int, s.len() as int);
            assert(s[i as int] == (m@[i as int].0@, m@[i as int].1@));
            order::lemma_lex_irreflexive(k@);
            assert(rest[0] == s[i as int]);
            order::lemma_lex_asymmetric(s[i as int].0, k@);
            assert(rest.drop_first() =~= s.subrange(i + 1, s.len() as int));
            assert(s.subrange(0, i + 1) =~= s.subrange(0, i as int) + seq![rest[0]]);
        }
        i = i + 1;
    }
    let ghost rest = s.subrange(i as int, s.len() as int);
    let ghost vv = v@;
    let ghost before = m@;
    if i < m.len() && crate::json::str_eq(m[i].0.as_str(), k.as_str()) {
        let ghost kk = k@;
        proof {
            assert(s[i as int] == (m@[i as int].0@, m@[i as int].1@));
        }
        m.remove(i);
        m.insert(i, (k, v));
        proof {
            crate::json::lemma_jv_members(m@);
            assert(rest[0].0 == kk);
            assert(crate::json::jv_members(m@) =~= s.subrange(0, i as int) + (seq![(kk, vv)] + rest.drop_first()));
        }
    } else {
        proof {
            if i < s.len() {
                assert(s[i as int] == (m@[i as int].0@, m@[i as int].1@));
                order::lemma_lex_total(k@, s[i as int].0);
                assert(rest[0] == s[i as int]);
            } else {
                assert(rest.len() == 0);
            }
        }
        let ghost kk = k@;
        m.insert(i, (k, v));
        proof {
            crate::json::lemma_jv_members(m@);
            if i < s.len() {
                assert(crate::json::jv_members(m@) =~= s.subrange(0, i as int) + (seq![(kk, vv)] + rest));
            } else {
                assert(crate::json::jv_members(m@) =~= s.subrange(0, i as int) + seq![(kk, vv)]);
            }
        }
    }
}

} // verus!
