//! Verified association lists with string keys: the backing store for the
//! argument and parameter maps. Lookups and overwrite-or-insert updates are
//! specified over view-level pair sequences with unique keys.

use vstd::prelude::*;
use vstd::string::*;
use crate::txt::str_eq;

verus! {

/// The element-wise views of a sequence of string pairs.
pub open spec fn pair_views(s: Seq<(String, String)>) -> Seq<(Seq<char>, Seq<char>)> {
    Seq::new(s.len(), |i: int| (s[i].0@, s[i].1@))
}

/// No two entries share a key.
pub open spec fn unique_keys<V>(m: Seq<(Seq<char>, V)>) -> bool {
    forall|i: int, j: int| #![trigger m[i], m[j]] 0 <= i < j < m.len() ==> m[i].0 != m[j].0
}

/// Index of the first entry whose key is `k`, or `m.len()` if none.
pub open spec fn map_find<V>(m: Seq<(Seq<char>, V)>, k: Seq<char>) -> int
    decreases m.len(),
{
    if m.len() == 0 {
        0
    } else if m[0].0 == k {
        0
    } else {
        1 + map_find(m.skip(1), k)
    }
}

pub open spec fn map_has<V>(m: Seq<(Seq<char>, V)>, k: Seq<char>) -> bool {
    map_find(m, k) < m.len()
}

/// The value stored under `k`; meaningful only where `map_has` holds.
pub open spec fn map_val<V>(m: Seq<(Seq<char>, V)>, k: Seq<char>) -> V
    recommends
        map_has(m, k),
{
    m[map_find(m, k)].1
}

pub proof fn lemma_map_find<V>(m: Seq<(Seq<char>, V)>, k: Seq<char>)
    ensures
        0 <= map_find(m, k) <= m.len(),
        map_find(m, k) < m.len() ==> m[map_find(m, k)].0 == k,
        forall|j: int| #![trigger m[j]] 0 <= j < map_find(m, k) ==> m[j].0 != k,
    decreases m.len(),
{
    if m.len() > 0 && m[0].0 != k {
        lemma_map_find(m.skip(1), k);
        assert forall|j: int| #![trigger m[j]] 0 <= j < map_find(m, k) implies m[j].0 != k by {
            if j > 0 {
                assert(m.skip(1)[j - 1] == m[j]);
            }
        }
    }
}

pub proof fn lemma_map_find_unique<V>(m: Seq<(Seq<char>, V)>, k: Seq<char>, at: int)
    requires
        0 <= at <= m.len(),
        forall|j: int| #![trigger m[j]] 0 <= j < at ==> m[j].0 != k,
        at < m.len() ==> m[at].0 == k,
    ensures
        map_find(m, k) == at,
{
    lemma_map_find(m, k);
    let f = map_find(m, k);
    if f < at {
        assert(m[f].0 == k);
    }
    if at < f {
        assert(m[at].0 == k);
    }
}

/// The map after storing `v` under `k`: overwrite where the key is
/// present, append where it is new.
pub open spec fn map_set<V>(m: Seq<(Seq<char>, V)>, k: Seq<char>, v: V) -> Seq<(Seq<char>, V)> {
    if map_has(m, k) {
        m.update(map_find(m, k), (k, v))
    } else {
        m.push((k, v))
    }
}

/// How `map_set` changes lookups: the stored key reads back the new value,
/// every other key is untouched, and unique keys stay unique.
pub proof fn lemma_map_set_props<V>(m: Seq<(Seq<char>, V)>, k: Seq<char>, v: V, q: Seq<char>)
    requires
        unique_keys(m),
    ensures
        unique_keys(map_set(m, k, v)),
        map_has(map_set(m, k, v), q) == (map_has(m, q) || q == k),
        q == k ==> map_val(map_set(m, k, v), q) == v,
        q != k && map_has(m, q) ==> map_val(map_set(m, k, v), q) == map_val(m, q),
{
    lemma_map_find(m, k);
    let n = map_set(m, k, v);
    let f = map_find(m, k);
    if f < m.len() {
        assert forall|a: int, b: int| #![trigger n[a], n[b]] 0 <= a < b < n.len() implies n[a].0
            != n[b].0 by {
            assert(m[a].0 != m[b].0);
            if a == f {
                assert(n[a].0 == k);
                assert(k == m[a].0);
            }
            if b == f {
                assert(n[b].0 == k);
                assert(k == m[b].0);
            }
        }
    } else {
        assert forall|a: int, b: int| #![trigger n[a], n[b]] 0 <= a < b < n.len() implies n[a].0
            != n[b].0 by {
            if b < m.len() {
                assert(m[a].0 != m[b].0);
            } else {
                assert(n[b].0 == k);
                assert(m[a].0 != k);
            }
        }
    }
    if f < m.len() {
        if q == k {
            assert forall|j: int| #![trigger n[j]] 0 <= j < f implies n[j].0 != q by {
                assert(n[j] == m[j]);
            }
            lemma_map_find_unique(n, q, f);
        } else {
            lemma_map_find(m, q);
            let g = map_find(m, q);
            if g < m.len() {
                assert forall|j: int| #![trigger n[j]] 0 <= j < g implies n[j].0 != q by {
                    if j == f {
                        assert(n[j].0 == k);
                    } else {
                        assert(n[j] == m[j]);
                    }
                }
                assert(g != f);
                assert(n[g] == m[g]);
                lemma_map_find_unique(n, q, g);
            } else {
                assert forall|j: int| #![trigger n[j]] 0 <= j < n.len() implies n[j].0 != q by {
                    if j == f {
                        assert(n[j].0 == k);
                    } else {
                        assert(n[j] == m[j]);
                    }
                }
                lemma_map_find_unique(n, q, n.len() as int);
            }
        }
    } else {
        if q == k {
            assert forall|j: int| #![trigger n[j]] 0 <= j < m.len() implies n[j].0 != q by {
                assert(n[j] == m[j]);
            }
            assert(n[m.len() as int].0 == k);
            lemma_map_find_unique(n, q, m.len() as int);
        } else {
            lemma_map_find(m, q);
            let g = map_find(m, q);
            if g < m.len() {
                assert forall|j: int| #![trigger n[j]] 0 <= j < g implies n[j].0 != q by {
                    assert(n[j] == m[j]);
                }
                assert(n[g] == m[g]);
                lemma_map_find_unique(n, q, g);
            } else {
                assert forall|j: int| #![trigger n[j]] 0 <= j < n.len() implies n[j].0 != q by {
                    if j < m.len() {
                        assert(n[j] == m[j]);
                    } else {
                        assert(n[j].0 == k);
                    }
                }
                lemma_map_find_unique(n, q, n.len() as int);
            }
        }
    }
}

/// A key a sequence holds an entry for is present.
pub proof fn lemma_map_has_witness<V>(m: Seq<(Seq<char>, V)>, k: Seq<char>, at: int)
    requires
        0 <= at < m.len(),
        m[at].0 == k,
    ensures
        map_has(m, k),
{
    lemma_map_find(m, k);
    if map_find(m, k) == m.len() {
        assert(m[at].0 != k);
    }
}

/// Storing one value never removes another key.
pub proof fn lemma_map_set_keeps_has<V>(m: Seq<(Seq<char>, V)>, a: Seq<char>, v: V, k: Seq<char>)
    requires
        map_has(m, k),
    ensures
        map_has(map_set(m, a, v), k),
{
    lemma_map_find(m, k);
    lemma_map_find(m, a);
    let f = map_find(m, k);
    let n = map_set(m, a, v);
    if map_has(m, a) {
        let g = map_find(m, a);
        if f == g {
            assert(n[f].0 == a);
            assert(m[f].0 == k);
            assert(m[g].0 == a);
            lemma_map_has_witness(n, k, f);
        } else {
            assert(n[f] == m[f]);
            lemma_map_has_witness(n, k, f);
        }
    } else {
        assert(n[f] == m[f]);
        lemma_map_has_witness(n, k, f);
    }
}

/// All of `entries` stored in order.
pub open spec fn map_set_all<V>(
    base: Seq<(Seq<char>, V)>,
    entries: Seq<(Seq<char>, V)>,
) -> Seq<(Seq<char>, V)>
    decreases entries.len(),
{
    if entries.len() == 0 {
        base
    } else {
        map_set_all(map_set(base, entries[0].0, entries[0].1), entries.skip(1))
    }
}

pub proof fn lemma_map_set_all_push<V>(
    base: Seq<(Seq<char>, V)>,
    entries: Seq<(Seq<char>, V)>,
    e: (Seq<char>, V),
)
    ensures
        map_set_all(base, entries.push(e)) == map_set(map_set_all(base, entries), e.0, e.1),
    decreases entries.len(),
{
    let p = entries.push(e);
    if entries.len() == 0 {
        assert(p[0] == e);
        assert(p.skip(1) =~= Seq::<(Seq<char>, V)>::empty());
        assert(map_set_all(base, p) == map_set_all(map_set(base, p[0].0, p[0].1), p.skip(1)));
        assert(map_set_all(map_set(base, e.0, e.1), p.skip(1)) == map_set(base, e.0, e.1));
        assert(map_set_all(base, entries) == base);
    } else {
        assert(p[0] == entries[0]);
        assert(p.skip(1) =~= entries.skip(1).push(e));
        let m2 = map_set(base, entries[0].0, entries[0].1);
        assert(map_set_all(base, p) == map_set_all(m2, p.skip(1)));
        lemma_map_set_all_push(m2, entries.skip(1), e);
        assert(map_set_all(base, entries) == map_set_all(m2, entries.skip(1)));
    }
}

/// Look a key up in a string-pair list.
pub fn sget<'a>(m: &'a Vec<(String, String)>, k: &str) -> (r: Option<&'a String>)
    ensures
        match r {
            Some(v) => map_has(pair_views(m@), k@) && v@ == map_val(pair_views(m@), k@),
            None => !map_has(pair_views(m@), k@),
        },
{
    let ghost mv = pair_views(m@);
    let mut i: usize = 0;
    while i < m.len()
        invariant
            i <= m.len(),
            mv == pair_views(m@),
            forall|j: int| #![trigger mv[j]] 0 <= j < i ==> mv[j].0 != k@,
        decreases m.len() - i,
    {
        let entry = &m[i];
        proof {
            assert(mv[i as int] == (m@[i as int].0@, m@[i as int].1@));
        }
        if str_eq(entry.0.as_str(), k) {
            proof {
                lemma_map_find_unique(mv, k@, i as int);
            }
            return Some(&entry.1);
        }
        i = i + 1;
    }
    proof {
        lemma_map_find_unique(mv, k@, mv.len() as int);
    }
    None
}

/// Store a value in a string-pair list, overwriting an existing key.
pub fn sset(m: &mut Vec<(String, String)>, k: &str, v: &str)
    requires
        unique_keys(pair_views(old(m)@)),
    ensures
        pair_views(final(m)@) == map_set(pair_views(old(m)@), k@, v@),
        unique_keys(pair_views(final(m)@)),
{
    let ghost mv = pair_views(old(m)@);
    let mut i: usize = 0;
    while i < m.len()
        invariant
            i <= m.len(),
            m@ == old(m)@,
            mv == pair_views(m@),
            unique_keys(mv),
            forall|j: int| #![trigger mv[j]] 0 <= j < i ==> mv[j].0 != k@,
        decreases m.len() - i,
    {
        let hit = {
            let entry = &m[i];
            proof {
                assert(mv[i as int] == (m@[i as int].0@, m@[i as int].1@));
            }
            str_eq(entry.0.as_str(), k)
        };
        if hit {
            proof {
                lemma_map_find_unique(mv, k@, i as int);
            }
            let ks = String::from_str(k);
            let vs = String::from_str(v);
            m.set(i, (ks, vs));
            proof {
                assert(pair_views(m@) =~= map_set(mv, k@, v@));
                lemma_map_set_props(mv, k@, v@, k@);
            }
            return ;
        }
        i = i + 1;
    }
    proof {
        lemma_map_find_unique(mv, k@, mv.len() as int);
    }
    let ks = String::from_str(k);
    let vs = String::from_str(v);
    m.push((ks, vs));
    proof {
        assert(pair_views(m@) =~= map_set(mv, k@, v@));
        lemma_map_set_props(mv, k@, v@, k@);
    }
}

/// Copy a borrowed pair list.
pub fn clone_pairs(src: &[(String, String)]) -> (r: Vec<(String, String)>)
    ensures
        r@ == src@,
{
    let mut r: Vec<(String, String)> = Vec::new();
    let mut i: usize = 0;
    while i < src.len()
        invariant
            i <= src.len(),
            r@ == src@.take(i as int),
        decreases src.len() - i,
    {
        let e = &src[i];
        let k = e.0.clone();
        let v = e.1.clone();
        r.push((k, v));
        proof {
            assert(src@.take(i + 1 as int) =~= src@.take(i as int).push(src@[i as int]));
            assert(r@.last() == src@[i as int]);
            assert(r@ =~= src@.take(i + 1 as int));
        }
        i = i + 1;
    }
    proof {
        assert(src@.take(src@.len() as int) =~= src@);
    }
    r
}

} // verus!
