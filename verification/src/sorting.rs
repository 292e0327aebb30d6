//! Stable sorting by insertion, as the tools order their results: each
//! element goes after every element already placed that may precede it.
use vstd::prelude::*;

verus! {

/// Where `x` goes into `t`: the first position from `p` on whose element
/// may not precede `x` under `le`, or the end.
pub open spec fn insert_pos<T>(t: Seq<T>, x: T, le: spec_fn(T, T) -> bool, p: int) -> int
    decreases t.len() - p,
{
    if p < 0 || p >= t.len() || !le(t[p], x) {
        p
    } else {
        insert_pos(t, x, le, p + 1)
    }
}

/// `s` sorted by inserting its elements one after the other, each at
/// `insert_pos`: elements that `le` orders both ways keep their order.
pub open spec fn insertion_sorted<T>(s: Seq<T>, le: spec_fn(T, T) -> bool) -> Seq<T>
    decreases s.len(),
{
    if s.len() == 0 {
        s
    } else {
        let t = insertion_sorted(s.drop_last(), le);
        t.insert(insert_pos(t, s.last(), le, 0), s.last())
    }
}

/// `le` orders any two elements one way or the other, transitively.
pub open spec fn total_preorder<T>(le: spec_fn(T, T) -> bool) -> bool {
    &&& forall|a: T, b: T| #[trigger] le(a, b) || le(b, a)
    &&& forall|a: T, b: T, c: T| #[trigger] le(a, b) && #[trigger] le(b, c) ==> le(a, c)
}

/// `s` is ordered by `le`.
pub open spec fn sorted_by<T>(s: Seq<T>, le: spec_fn(T, T) -> bool) -> bool {
    forall|i: int, j: int| 0 <= i < j < s.len() ==> le(#[trigger] s[i], #[trigger] s[j])
}

pub proof fn lemma_insert_pos<T>(t: Seq<T>, x: T, le: spec_fn(T, T) -> bool, p: int)
    requires
        0 <= p <= t.len(),
    ensures
        p <= insert_pos(t, x, le, p) <= t.len(),
        forall|k: int| p <= k < insert_pos(t, x, le, p) ==> le(#[trigger] t[k], x),
        insert_pos(t, x, le, p) < t.len() ==> !le(t[insert_pos(t, x, le, p)], x),
    decreases t.len() - p,
{
    if p < t.len() && le(t[p], x) {
        lemma_insert_pos(t, x, le, p + 1);
    }
}

/// Law: under a total preorder, insertion sorting orders the elements and
/// keeps each of them exactly as often as it occurs.
pub proof fn law_insertion_sorted<T>(s: Seq<T>, le: spec_fn(T, T) -> bool)
    requires
        total_preorder(le),
    ensures
        sorted_by(insertion_sorted(s, le), le),
        insertion_sorted(s, le).to_multiset() == s.to_multiset(),
    decreases s.len(),
{
    if s.len() > 0 {
        let t = insertion_sorted(s.drop_last(), le);
        let x = s.last();
        law_insertion_sorted(s.drop_last(), le);
        lemma_insert_pos(t, x, le, 0);
        let p = insert_pos(t, x, le, 0);
        let r = t.insert(p, x);
        assert(r == insertion_sorted(s, le));
        if p < t.len() {
            assert(le(t[p], x) || le(x, t[p]));
        }
        assert forall|b: int| p <= b < t.len() implies le(x, #[trigger] t[b]) by {
            assert(le(t[p], x) || le(x, t[p]));
            if b > p {
                assert(le(t[p], t[b]));
                assert(le(x, t[p]) && le(t[p], t[b]) ==> le(x, t[b]));
            }
        }
        assert forall|i: int, j: int| 0 <= i < j < r.len() implies le(#[trigger] r[i], #[trigger] r[j]) by {
            if j < p {
                assert(r[i] == t[i] && r[j] == t[j]);
            } else if i > p {
                assert(r[i] == t[i - 1] && r[j] == t[j - 1]);
            } else if i == p {
                assert(r[j] == t[j - 1]);
            } else {
                assert(r[i] == t[i]);
                if j == p {
                } else {
                    assert(r[j] == t[j - 1]);
                    assert(le(t[i], x) && le(x, t[j - 1]) ==> le(t[i], t[j - 1]));
                }
            }
        }
        vstd::seq_lib::to_multiset_insert(t, p, x);
        vstd::seq_lib::to_multiset_build(s.drop_last(), x);
        assert(s.drop_last().push(x) =~= s);
    }
}

} // verus!
