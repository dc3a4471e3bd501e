//! Insertion sort as a specification: the canonical orders of forms,
//! coefficient trees and terms are all kept by inserting each element after
//! the last element that may precede it.
use vstd::prelude::*;

verus! {

/// Insert `x` into `s`, after the last element `e` with `le(e, x)`, scanning
/// from the end.
pub open spec fn insert_by<T>(s: Seq<T>, x: T, le: spec_fn(T, T) -> bool) -> Seq<T>
    decreases s.len(),
{
    if s.len() == 0 {
        seq![x]
    } else if le(s.last(), x) {
        s.push(x)
    } else {
        insert_by(s.drop_last(), x, le).push(s.last())
    }
}

/// Insertion sort of `s` under `le`.
pub open spec fn sort_by<T>(s: Seq<T>, le: spec_fn(T, T) -> bool) -> Seq<T>
    decreases s.len(),
{
    if s.len() == 0 {
        seq![]
    } else {
        insert_by(sort_by(s.drop_last(), le), s.last(), le)
    }
}

/// Each element is in order with the next one.
pub open spec fn sorted_by<T>(s: Seq<T>, le: spec_fn(T, T) -> bool) -> bool {
    forall|k: int| 0 <= k < s.len() - 1 ==> #[trigger] le(s[k], s[k + 1])
}

/// Inserting `x` where the scan from the end stopped at `k`.
pub proof fn lemma_insert_at<T>(s: Seq<T>, x: T, le: spec_fn(T, T) -> bool, k: int)
    requires
        0 <= k <= s.len(),
        forall|m: int| k <= m < s.len() ==> !le(#[trigger] s[m], x),
        k == 0 || le(s[k - 1], x),
    ensures
        insert_by(s, x, le) == s.insert(k, x),
    decreases s.len(),
{
    if s.len() == 0 {
        assert(s.insert(k, x) =~= seq![x]);
    } else if k == s.len() {
        assert(s.insert(k, x) =~= s.push(x));
    } else {
        let t = s.drop_last();
        assert forall|m: int| k <= m < t.len() implies !le(#[trigger] t[m], x) by {
            assert(t[m] == s[m]);
        }
        if k > 0 {
            assert(t[k - 1] == s[k - 1]);
        }
        lemma_insert_at(t, x, le, k);
        assert(t.insert(k, x).push(s.last()) =~= s.insert(k, x));
    }
}

/// Sorting keeps the elements, counted with multiplicity.
pub proof fn lemma_sort_multiset<T>(s: Seq<T>, le: spec_fn(T, T) -> bool)
    ensures
        sort_by(s, le).to_multiset() == s.to_multiset(),
        sort_by(s, le).len() == s.len(),
    decreases s.len(),
{
    if s.len() > 0 {
        lemma_sort_multiset(s.drop_last(), le);
        lemma_insert_multiset(sort_by(s.drop_last(), le), s.last(), le);
        s.drop_last().to_multiset_ensures();
        assert(s.drop_last().push(s.last()) =~= s);
    } else {
        assert(sort_by(s, le) =~= s);
    }
}

/// Inserting adds exactly the one element.
pub proof fn lemma_insert_multiset<T>(s: Seq<T>, x: T, le: spec_fn(T, T) -> bool)
    ensures
        insert_by(s, x, le).to_multiset() == s.to_multiset().insert(x),
        insert_by(s, x, le).len() == s.len() + 1,
    decreases s.len(),
{
    s.to_multiset_ensures();
    if s.len() == 0 {
        assert(seq![x] =~= s.push(x));
    } else if le(s.last(), x) {
    } else {
        let t = s.drop_last();
        lemma_insert_multiset(t, x, le);
        insert_by(t, x, le).to_multiset_ensures();
        t.to_multiset_ensures();
        assert(t.push(s.last()) =~= s);
        assert(insert_by(t, x, le).push(s.last()).to_multiset() =~= s.to_multiset().insert(x));
    }
}

/// Inserting into a sorted sequence, under a total order, keeps it sorted.
pub proof fn lemma_insert_sorted<T>(s: Seq<T>, x: T, le: spec_fn(T, T) -> bool)
    requires
        sorted_by(s, le),
        forall|a: T, b: T| #[trigger] le(a, b) || le(b, a),
    ensures
        sorted_by(insert_by(s, x, le), le),
        insert_by(s, x, le).len() == s.len() + 1,
        s.len() > 0 ==> insert_by(s, x, le).last() == s.last() || insert_by(s, x, le).last()
            == x,
        s.len() == 0 ==> insert_by(s, x, le).last() == x,
    decreases s.len(),
{
    if s.len() == 0 {
    } else if le(s.last(), x) {
        let r = s.push(x);
        assert forall|k: int| 0 <= k < r.len() - 1 implies #[trigger] le(r[k], r[k + 1]) by {
            if k < s.len() - 1 {
                assert(le(s[k], s[k + 1]));
            }
        }
    } else {
        let t = s.drop_last();
        assert(sorted_by(t, le)) by {
            assert forall|k: int| 0 <= k < t.len() - 1 implies #[trigger] le(t[k], t[k + 1]) by {
                assert(le(s[k], s[k + 1]));
            }
        }
        lemma_insert_sorted(t, x, le);
        let u = insert_by(t, x, le);
        let r = u.push(s.last());
        assert(le(x, s.last()));
        if t.len() > 0 {
            let k = t.len() - 1;
            assert(le(s[k], s[k + 1]));
        }
        assert forall|k: int| 0 <= k < r.len() - 1 implies #[trigger] le(r[k], r[k + 1]) by {
            if k < u.len() - 1 {
                assert(le(u[k], u[k + 1]));
            }
        }
    }
}

/// Insertion sort under a total order gives a sorted sequence.
pub proof fn lemma_sort_sorted<T>(s: Seq<T>, le: spec_fn(T, T) -> bool)
    requires
        forall|a: T, b: T| #[trigger] le(a, b) || le(b, a),
    ensures
        sorted_by(sort_by(s, le), le),
    decreases s.len(),
{
    if s.len() > 0 {
        lemma_sort_sorted(s.drop_last(), le);
        lemma_insert_sorted(sort_by(s.drop_last(), le), s.last(), le);
    }
}

/// Sorting a sequence that is already sorted leaves it as it is.
pub proof fn lemma_sort_of_sorted<T>(s: Seq<T>, le: spec_fn(T, T) -> bool)
    requires
        sorted_by(s, le),
    ensures
        sort_by(s, le) == s,
    decreases s.len(),
{
    if s.len() > 0 {
        let t = s.drop_last();
        assert(sorted_by(t, le)) by {
            assert forall|k: int| 0 <= k < t.len() - 1 implies #[trigger] le(t[k], t[k + 1]) by {
                assert(le(s[k], s[k + 1]));
            }
        }
        lemma_sort_of_sorted(t, le);
        if t.len() > 0 {
            let k = t.len() - 1;
            assert(le(s[k], s[k + 1]));
        }
        assert(t.push(s.last()) =~= s);
    }
}

} // verus!
