//! Facts about sequences: what filtering keeps, and what the stable keyed
//! insertion sort that orders jump labels by distance does (it keeps the
//! elements, orders them by key, and keeps elements apart that were
//! apart).

use vstd::prelude::*;
use crate::flash::{insertion_point, lemma_sort_keyed_len, sort_keyed};

verus! {

/// The keys of `s` never decrease.
pub open spec fn keys_sorted<T>(s: Seq<(T, u128)>) -> bool {
    forall|i: int, j: int| 0 <= i <= j < s.len() ==> s[i].1 <= s[j].1
}

/// Everything before the insertion point has a key of at most `k`; in a
/// sorted sequence everything from it on has a larger key.
pub proof fn lemma_insertion_point<T>(s: Seq<(T, u128)>, k: int)
    ensures
        0 <= insertion_point(s, k) <= s.len(),
        forall|i: int| 0 <= i < insertion_point(s, k) ==> s[i].1 <= k,
        keys_sorted(s) ==> forall|i: int| insertion_point(s, k) <= i < s.len() ==> s[i].1 > k,
    decreases s.len(),
{
    if s.len() > 0 && s[0].1 <= k {
        let t = s.drop_first();
        lemma_insertion_point(t, k);
        assert forall|i: int| 0 <= i < insertion_point(s, k) implies s[i].1 <= k by {
            if i > 0 {
                assert(s[i] == t[i - 1]);
            }
        }
        if keys_sorted(s) {
            assert(keys_sorted(t)) by {
                assert forall|i: int, j: int| 0 <= i <= j < t.len() implies t[i].1 <= t[j].1 by {
                    assert(t[i] == s[i + 1]);
                    assert(t[j] == s[j + 1]);
                }
            }
            assert forall|i: int| insertion_point(s, k) <= i < s.len() implies s[i].1 > k by {
                assert(s[i] == t[i - 1]);
            }
        }
    }
}

/// The sequence `a` with `x` inserted at index `p`.
pub proof fn lemma_insert_shape<T>(a: Seq<T>, p: int, x: T)
    requires
        0 <= p <= a.len(),
    ensures
        (a.take(p).push(x) + a.skip(p)).len() == a.len() + 1,
        forall|i: int| 0 <= i < p ==> #[trigger] (a.take(p).push(x) + a.skip(p))[i] == a[i],
        (a.take(p).push(x) + a.skip(p))[p] == x,
        forall|i: int| p < i <= a.len() ==> #[trigger] (a.take(p).push(x) + a.skip(p))[i] == a[i - 1],
{
}
/// Every element of the sorted sequence comes from the input.
pub proof fn lemma_sort_keyed_from<T>(s: Seq<(T, u128)>)
    ensures
        forall|i: int| 0 <= i < sort_keyed(s).len() ==> s.contains(#[trigger] sort_keyed(s)[i]),
    decreases s.len(),
{
    if s.len() > 0 {
        let prev = s.drop_last();
        let sorted = sort_keyed(prev);
        let x = s.last();
        lemma_sort_keyed_from(prev);
        lemma_sort_keyed_len(prev);
        lemma_insertion_point(sorted, x.1 as int);
        let p = insertion_point(sorted, x.1 as int);
        lemma_insert_shape(sorted, p, x);
        let r = sort_keyed(s);
        assert forall|i: int| 0 <= i < r.len() implies s.contains(#[trigger] r[i]) by {
            if i == p {
                assert(s[s.len() - 1] == x);
            } else {
                let y = if i < p { sorted[i] } else { sorted[i - 1] };
                assert(r[i] == y);
                assert(prev.contains(y));
                let j = choose|j: int| 0 <= j < prev.len() && prev[j] == y;
                assert(s[j] == prev[j]);
            }
        }
    }
}

/// Every element of the input is in the sorted sequence.
pub proof fn lemma_sort_keyed_keeps<T>(s: Seq<(T, u128)>)
    ensures
        forall|j: int| 0 <= j < s.len() ==> sort_keyed(s).contains(#[trigger] s[j]),
    decreases s.len(),
{
    if s.len() > 0 {
        let prev = s.drop_last();
        let sorted = sort_keyed(prev);
        let x = s.last();
        lemma_sort_keyed_keeps(prev);
        lemma_sort_keyed_len(prev);
        lemma_insertion_point(sorted, x.1 as int);
        let p = insertion_point(sorted, x.1 as int);
        lemma_insert_shape(sorted, p, x);
        let r = sort_keyed(s);
        assert forall|j: int| 0 <= j < s.len() implies r.contains(#[trigger] s[j]) by {
            if j == s.len() - 1 {
                assert(r[p] == x);
            } else {
                assert(s[j] == prev[j]);
                assert(sorted.contains(prev[j]));
                let i = choose|i: int| 0 <= i < sorted.len() && sorted[i] == prev[j];
                if i < p {
                    assert(r[i] == sorted[i]);
                } else {
                    assert(r[i + 1] == sorted[i]);
                }
            }
        }
    }
}

/// Sorting orders by key.
pub proof fn lemma_sort_keyed_sorted<T>(s: Seq<(T, u128)>)
    ensures
        keys_sorted(sort_keyed(s)),
    decreases s.len(),
{
    if s.len() > 0 {
        let prev = s.drop_last();
        let sorted = sort_keyed(prev);
        let x = s.last();
        lemma_sort_keyed_sorted(prev);
        lemma_sort_keyed_len(prev);
        lemma_insertion_point(sorted, x.1 as int);
        let p = insertion_point(sorted, x.1 as int);
        let r = sort_keyed(s);
        assert(r == sorted.take(p).push(x) + sorted.skip(p));
        assert forall|i: int, j: int| 0 <= i <= j < r.len() implies r[i].1 <= r[j].1 by {
            let ki = if i < p { sorted[i].1 } else if i == p { x.1 } else { sorted[i - 1].1 };
            let kj = if j < p { sorted[j].1 } else if j == p { x.1 } else { sorted[j - 1].1 };
            assert(r[i].1 == ki);
            assert(r[j].1 == kj);
        }
    }
}

/// Elements that differ under `f` in the input still differ after
/// sorting.
pub proof fn lemma_sort_keyed_apart<T, A>(s: Seq<(T, u128)>, f: spec_fn((T, u128)) -> A)
    requires
        forall|i: int, j: int| 0 <= i < j < s.len() ==> f(s[i]) != f(s[j]),
    ensures
        forall|i: int, j: int| 0 <= i < j < sort_keyed(s).len() ==> f(sort_keyed(s)[i]) != f(sort_keyed(s)[j]),
    decreases s.len(),
{
    if s.len() > 0 {
        let prev = s.drop_last();
        let sorted = sort_keyed(prev);
        let x = s.last();
        assert forall|i: int, j: int| 0 <= i < j < prev.len() implies f(prev[i]) != f(prev[j]) by {
            assert(prev[i] == s[i]);
            assert(prev[j] == s[j]);
        }
        lemma_sort_keyed_apart(prev, f);
        lemma_sort_keyed_from(prev);
        lemma_sort_keyed_len(prev);
        lemma_insertion_point(sorted, x.1 as int);
        let p = insertion_point(sorted, x.1 as int);
        lemma_insert_shape(sorted, p, x);
        let r = sort_keyed(s);
        assert forall|i: int| 0 <= i < sorted.len() implies f(#[trigger] sorted[i]) != f(x) by {
            assert(prev.contains(sorted[i]));
            let j = choose|j: int| 0 <= j < prev.len() && prev[j] == sorted[i];
            assert(prev[j] == s[j]);
            assert(x == s[s.len() - 1]);
        }
        assert forall|i: int, j: int| 0 <= i < j < r.len() implies f(r[i]) != f(r[j]) by {
            if i < p {
                assert(r[i] == sorted[i]);
            } else if i == p {
                assert(r[i] == x);
            } else {
                assert(r[i] == sorted[i - 1]);
            }
            if j < p {
                assert(r[j] == sorted[j]);
            } else if j == p {
                assert(r[j] == x);
            } else {
                assert(r[j] == sorted[j - 1]);
            }
        }
    }
}


/// Filtering keeps exactly the elements that satisfy the predicate, and
/// complementary filters split the sequence.
pub proof fn lemma_filter_facts<A>(s: Seq<A>, p: spec_fn(A) -> bool, q: spec_fn(A) -> bool)
    requires
        forall|x: A| #[trigger] q(x) == !p(x),
    ensures
        forall|i: int| 0 <= i < s.filter(p).len() ==> p(#[trigger] s.filter(p)[i]) && s.contains(s.filter(p)[i]),
        forall|j: int| 0 <= j < s.len() && p(s[j]) ==> #[trigger] s.filter(p).contains(s[j]),
        s.filter(p).len() + s.filter(q).len() == s.len(),
    decreases s.len(),
{
    reveal(Seq::filter);
    if s.len() > 0 {
        let t = s.drop_last();
        let x = s.last();
        lemma_filter_facts(t, p, q);
        let ft = t.filter(p);
        let fs = s.filter(p);
        assert(fs == (if p(x) { ft.push(x) } else { ft }));
        assert(s.filter(q) == (if q(x) { t.filter(q).push(x) } else { t.filter(q) }));
        assert forall|i: int| 0 <= i < fs.len() implies p(#[trigger] fs[i]) && s.contains(fs[i]) by {
            if i < ft.len() {
                assert(fs[i] == ft[i]);
                assert(p(ft[i]) && t.contains(ft[i]));
                let j = choose|j: int| 0 <= j < t.len() && t[j] == ft[i];
                assert(s[j] == t[j]);
            } else {
                assert(fs[i] == x);
                assert(s[s.len() - 1] == x);
            }
        }
        assert forall|j: int| 0 <= j < s.len() && p(s[j]) implies #[trigger] fs.contains(s[j]) by {
            if j < s.len() - 1 {
                assert(s[j] == t[j]);
                assert(ft.contains(t[j]));
                let k = choose|k: int| 0 <= k < ft.len() && ft[k] == t[j];
                assert(fs[k] == ft[k]);
            } else {
                assert(fs[fs.len() - 1] == x);
            }
        }
    }
}

/// Filtering keeps the relative order: elements ordered by `lt` in `s`
/// stay ordered in the filtered sequence.
pub proof fn lemma_filter_ordered<A>(s: Seq<A>, p: spec_fn(A) -> bool, lt: spec_fn(A, A) -> bool)
    requires
        forall|i: int, j: int| 0 <= i < j < s.len() ==> lt(s[i], s[j]),
    ensures
        forall|i: int, j: int| 0 <= i < j < s.filter(p).len() ==> lt(s.filter(p)[i], s.filter(p)[j]),
    decreases s.len(),
{
    reveal(Seq::filter);
    if s.len() > 0 {
        let t = s.drop_last();
        let x = s.last();
        assert forall|i: int, j: int| 0 <= i < j < t.len() implies lt(t[i], t[j]) by {
            assert(t[i] == s[i]);
            assert(t[j] == s[j]);
        }
        lemma_filter_ordered(t, p, lt);
        lemma_filter_facts(t, p, |y: A| !p(y));
        let ft = t.filter(p);
        let fs = s.filter(p);
        assert(fs == (if p(x) { ft.push(x) } else { ft }));
        assert forall|i: int, j: int| 0 <= i < j < fs.len() implies lt(fs[i], fs[j]) by {
            assert(fs[i] == ft[i]);
            if j < ft.len() {
                assert(fs[j] == ft[j]);
            } else {
                assert(fs[j] == x);
                assert(t.contains(ft[i]));
                let k = choose|k: int| 0 <= k < t.len() && t[k] == ft[i];
                assert(s[k] == t[k]);
                assert(s[s.len() - 1] == x);
            }
        }
    }
}

} // verus!
