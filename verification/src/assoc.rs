//! Association lists keyed by strings: the keyed tables of the library keep
//! their entries in a vector, each key at most once, in the order in which
//! the keys were first added.
use vstd::prelude::*;

verus! {

/// Every key occurs at most once.
pub open spec fn unique_keys<V>(s: Seq<(Seq<char>, V)>) -> bool {
    forall|i: int, j: int| 0 <= i < j < s.len() ==> #[trigger] s[i].0 != #[trigger] s[j].0
}

/// The position of key `k` (the last one holding it), or -1.
pub open spec fn assoc_pos<V>(s: Seq<(Seq<char>, V)>, k: Seq<char>) -> int
    decreases s.len(),
{
    if s.len() == 0 {
        -1
    } else if s.last().0 == k {
        s.len() - 1
    } else {
        assoc_pos(s.drop_last(), k)
    }
}

/// The value stored under `k`, if any.
pub open spec fn assoc_get<V>(s: Seq<(Seq<char>, V)>, k: Seq<char>) -> Option<V> {
    let p = assoc_pos(s, k);
    if p >= 0 {
        Some(s[p].1)
    } else {
        None
    }
}

/// `s` with `v` stored under `k`: in place when `k` is present, appended otherwise.
pub open spec fn assoc_insert<V>(s: Seq<(Seq<char>, V)>, k: Seq<char>, v: V) -> Seq<(Seq<char>, V)> {
    let p = assoc_pos(s, k);
    if p >= 0 {
        s.update(p, (k, v))
    } else {
        s.push((k, v))
    }
}

/// The keys, in order.
pub open spec fn assoc_keys<V>(s: Seq<(Seq<char>, V)>) -> Seq<Seq<char>> {
    s.map_values(|e: (Seq<char>, V)| e.0)
}

pub proof fn lemma_pos_bounds<V>(s: Seq<(Seq<char>, V)>, k: Seq<char>)
    ensures
        -1 <= assoc_pos(s, k) < s.len(),
        assoc_pos(s, k) >= 0 ==> s[assoc_pos(s, k)].0 == k,
        assoc_pos(s, k) == -1 <==> (forall|i: int| 0 <= i < s.len() ==> #[trigger] s[i].0 != k),
    decreases s.len(),
{
    if s.len() > 0 {
        lemma_pos_bounds(s.drop_last(), k);
        if s.last().0 != k {
            assert forall|i: int| 0 <= i < s.len() - 1 implies #[trigger] s[i].0 == s.drop_last()[i].0 by {}
        }
    }
}

/// In a table with unique keys, the position of a key is where it is found.
pub proof fn lemma_pos_unique<V>(s: Seq<(Seq<char>, V)>, i: int)
    requires
        unique_keys(s),
        0 <= i < s.len(),
    ensures
        assoc_pos(s, s[i].0) == i,
    decreases s.len(),
{
    if i < s.len() - 1 {
        assert(s.last().0 != s[i].0);
        let t = s.drop_last();
        assert(t[i] == s[i]);
        lemma_pos_unique(t, i);
    }
}

pub proof fn lemma_insert<V>(s: Seq<(Seq<char>, V)>, k: Seq<char>, v: V)
    requires
        unique_keys(s),
    ensures
        unique_keys(assoc_insert(s, k, v)),
        forall|k2: Seq<char>| #[trigger]
            assoc_get(assoc_insert(s, k, v), k2) == if k2 == k {
                Some(v)
            } else {
                assoc_get(s, k2)
            },
        assoc_pos(s, k) >= 0 ==> assoc_insert(s, k, v).len() == s.len(),
        assoc_pos(s, k) < 0 ==> assoc_insert(s, k, v).len() == s.len() + 1,
{
    lemma_pos_bounds(s, k);
    let t = assoc_insert(s, k, v);
    assert forall|i: int, j: int| 0 <= i < j < t.len() implies #[trigger] t[i].0 != #[trigger] t[j].0 by {
        if assoc_pos(s, k) < 0 {
            if j == s.len() {
                assert(s[i].0 != k);
            }
        }
    }
    assert forall|k2: Seq<char>| #[trigger]
        assoc_get(t, k2) == if k2 == k {
            Some(v)
        } else {
            assoc_get(s, k2)
        } by {
        lemma_pos_bounds(s, k2);
        lemma_pos_bounds(t, k2);
        if k2 == k {
            if assoc_pos(s, k) >= 0 {
                lemma_pos_unique(t, assoc_pos(s, k));
            } else {
                lemma_pos_unique(t, s.len() as int);
            }
        } else {
            let p = assoc_pos(s, k2);
            if p >= 0 {
                assert(t[p] == s[p]);
                lemma_pos_unique(t, p);
            } else {
                assert forall|i: int| 0 <= i < t.len() implies #[trigger] t[i].0 != k2 by {
                    if i < s.len() && i != assoc_pos(s, k) {
                        assert(t[i] == s[i]);
                    }
                }
            }
        }
    }
}

/// The first position in `v` whose key is `k`.
pub fn assoc_find<V>(v: &Vec<(String, V)>, k: &String) -> (r: Option<usize>)
    ensures
        r matches Some(i) ==> i < v@.len() && v@[i as int].0@ == k@ && forall|j: int|
            0 <= j < i ==> #[trigger] v@[j].0@ != k@,
        r is None ==> forall|j: int| 0 <= j < v@.len() ==> #[trigger] v@[j].0@ != k@,
{
    let mut i: usize = 0;
    while i < v.len()
        invariant
            i <= v@.len(),
            forall|j: int| 0 <= j < i ==> #[trigger] v@[j].0@ != k@,
        decreases v@.len() - i,
    {
        if v[i].0 == *k {
            return Some(i);
        }
        i = i + 1;
    }
    None
}

} // verus!
