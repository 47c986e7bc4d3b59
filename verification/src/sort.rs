//! Stable sorting: the model is insertion sort, which places each element
//! after every earlier element that may precede it; that is exactly what a
//! stable sort by a total preorder yields.
use vstd::prelude::*;

verus! {

/// Inserts `x` after the last element of `s` that may precede it.
pub open spec fn insert_sorted<T>(s: Seq<T>, x: T, le: spec_fn(T, T) -> bool) -> Seq<T>
    decreases s.len(),
{
    if s.len() == 0 {
        seq![x]
    } else if le(s.last(), x) {
        s.push(x)
    } else {
        insert_sorted(s.drop_last(), x, le).push(s.last())
    }
}

/// The stable sort of `s` by `le`.
pub open spec fn stable_sort<T>(s: Seq<T>, le: spec_fn(T, T) -> bool) -> Seq<T>
    decreases s.len(),
{
    if s.len() == 0 {
        s
    } else {
        insert_sorted(stable_sort(s.drop_last(), le), s.last(), le)
    }
}

/// `le` is a total preorder.
pub open spec fn total_preorder<T>(le: spec_fn(T, T) -> bool) -> bool {
    &&& forall|a: T, b: T| #[trigger] le(a, b) || #[trigger] le(b, a)
    &&& forall|a: T, b: T, c: T| #[trigger] le(a, b) && #[trigger] le(b, c) ==> le(a, c)
}

/// Every element may precede every later one.
pub open spec fn sorted_by<T>(s: Seq<T>, le: spec_fn(T, T) -> bool) -> bool {
    forall|i: int, j: int| 0 <= i < j < s.len() ==> le(#[trigger] s[i], #[trigger] s[j])
}

pub proof fn lemma_insert_at<T>(s: Seq<T>, x: T, le: spec_fn(T, T) -> bool, j: int)
    requires
        0 <= j <= s.len(),
        forall|k: int| j <= k < s.len() ==> !le(#[trigger] s[k], x),
        j == 0 || le(s[j - 1], x),
    ensures
        insert_sorted(s, x, le) == s.insert(j, x),
    decreases s.len() - j,
{
    if j == s.len() {
        if s.len() == 0 {
            assert(s.insert(j, x) =~= seq![x]);
        } else {
            assert(s.insert(j, x) =~= s.push(x));
        }
    } else {
        assert(!le(s.last(), x));
        lemma_insert_at(s.drop_last(), x, le, j);
        assert(s.drop_last().insert(j, x).push(s.last()) =~= s.insert(j, x));
    }
}

pub proof fn lemma_insert_multiset<T>(s: Seq<T>, x: T, le: spec_fn(T, T) -> bool)
    ensures
        insert_sorted(s, x, le).to_multiset() == s.to_multiset().insert(x),
    decreases s.len(),
{
    broadcast use vstd::seq_lib::group_to_multiset_ensures;

    if s.len() == 0 {
        assert(seq![x] =~= Seq::<T>::empty().push(x));
    } else if le(s.last(), x) {
    } else {
        lemma_insert_multiset(s.drop_last(), x, le);
        assert(s =~= s.drop_last().push(s.last()));
        assert(s.to_multiset() == s.drop_last().to_multiset().insert(s.last()));
    }
}

/// Sorting only reorders: it keeps every element as often as it occurs.
pub proof fn lemma_sort_permutes<T>(s: Seq<T>, le: spec_fn(T, T) -> bool)
    ensures
        stable_sort(s, le).to_multiset() == s.to_multiset(),
        stable_sort(s, le).len() == s.len(),
    decreases s.len(),
{
    broadcast use vstd::seq_lib::group_to_multiset_ensures;

    if s.len() > 0 {
        lemma_sort_permutes(s.drop_last(), le);
        lemma_insert_multiset(stable_sort(s.drop_last(), le), s.last(), le);
        assert(s =~= s.drop_last().push(s.last()));
        assert(s.to_multiset() == s.drop_last().to_multiset().insert(s.last()));
    }
    stable_sort(s, le).to_multiset_ensures();
    s.to_multiset_ensures();
}

pub proof fn lemma_insert_sorted<T>(s: Seq<T>, x: T, le: spec_fn(T, T) -> bool)
    requires
        total_preorder(le),
        sorted_by(s, le),
    ensures
        sorted_by(insert_sorted(s, x, le), le),
        insert_sorted(s, x, le).len() == s.len() + 1,
    decreases s.len(),
{
    lemma_insert_multiset(s, x, le);
    insert_sorted(s, x, le).to_multiset_ensures();
    s.to_multiset_ensures();
    if s.len() == 0 {
    } else if le(s.last(), x) {
        let r = s.push(x);
        assert forall|i: int, j: int| 0 <= i < j < r.len() implies le(#[trigger] r[i], #[trigger] r[j]) by {
            if j == s.len() {
                if i < s.len() - 1 {
                    assert(le(s[i], s[s.len() - 1]));
                }
            }
        }
    } else {
        let p = s.drop_last();
        assert(sorted_by(p, le));
        lemma_insert_sorted(p, x, le);
        let q = insert_sorted(p, x, le);
        let r = q.push(s.last());
        // every element of q is an element of p or x, all of which may precede s.last()
        lemma_insert_multiset(p, x, le);
        q.to_multiset_ensures();
        p.to_multiset_ensures();
        broadcast use vstd::multiset::group_multiset_axioms;
        assert forall|i: int| 0 <= i < q.len() implies le(#[trigger] q[i], s.last()) by {
            assert(q.contains(q[i]));
            if q[i] == x {
                assert(le(x, s.last()));
            } else {
                assert(q.to_multiset().count(q[i]) > 0);
                assert(q.to_multiset() == p.to_multiset().insert(x));
                assert(p.to_multiset().insert(x).count(q[i]) == p.to_multiset().count(q[i]));
                assert(p.to_multiset().count(q[i]) > 0);
                assert(p.contains(q[i]));
                let k = choose|k: int| 0 <= k < p.len() && p[k] == q[i];
                assert(p[k] == s[k]);
                assert(le(s[k], s[s.len() - 1]));
            }
        }
        assert forall|i: int, j: int| 0 <= i < j < r.len() implies le(#[trigger] r[i], #[trigger] r[j]) by {
            if j == q.len() {
                assert(r[i] == q[i]);
            } else {
                assert(r[i] == q[i] && r[j] == q[j]);
            }
        }
    }
}

/// The sort's result is sorted when `le` is a total preorder.
pub proof fn lemma_sort_sorted<T>(s: Seq<T>, le: spec_fn(T, T) -> bool)
    requires
        total_preorder(le),
    ensures
        sorted_by(stable_sort(s, le), le),
    decreases s.len(),
{
    if s.len() > 0 {
        lemma_sort_sorted(s.drop_last(), le);
        lemma_insert_sorted(stable_sort(s.drop_last(), le), s.last(), le);
    }
}

/// Sorts `v` stably by the relation `le` computes, whose model is `spec_le`.
pub fn sort_by<T, F: Fn(&T, &T) -> bool>(
    v: Vec<T>,
    le: &F,
    Ghost(spec_le): Ghost<spec_fn(T, T) -> bool>,
) -> (r: Vec<T>)
    requires
        forall|a: &T, b: &T| #[trigger] le.requires((a, b)),
        forall|a: &T, b: &T, c: bool| le.ensures((a, b), c) ==> c == spec_le(*a, *b),
    ensures
        r@ == stable_sort(v@, spec_le),
{
    let ghost orig = v@;
    let mut src = v;
    let mut out: Vec<T> = Vec::new();
    let ghost mut done: int = 0;
    assert(orig.take(0) =~= Seq::<T>::empty());
    assert(orig.skip(0) =~= orig);
    while src.len() > 0
        invariant
            0 <= done <= orig.len(),
            src@ == orig.skip(done),
            out@ == stable_sort(orig.take(done), spec_le),
            forall|a: &T, b: &T| #[trigger] le.requires((a, b)),
            forall|a: &T, b: &T, c: bool| le.ensures((a, b), c) ==> c == spec_le(*a, *b),
        decreases src.len(),
    {
        let x = src.remove(0);
        let mut j = out.len();
        while j > 0 && !le(&out[j - 1], &x)
            invariant
                j <= out.len(),
                forall|k: int| j <= k < out.len() ==> !spec_le(#[trigger] out@[k], x),
                forall|a: &T, b: &T| #[trigger] le.requires((a, b)),
                forall|a: &T, b: &T, c: bool| le.ensures((a, b), c) ==> c == spec_le(*a, *b),
            decreases j,
        {
            j = j - 1;
        }
        proof {
            assert(j == 0 || spec_le(out@[j - 1], x));
            lemma_insert_at(out@, x, spec_le, j as int);
            assert(orig.take(done + 1).drop_last() =~= orig.take(done));
            assert(orig[done] == x);
        }
        out.insert(j, x);
        proof {
            done = done + 1;
            assert(src@ =~= orig.skip(done));
        }
    }
    assert(orig.take(done) =~= orig);
    out
}


/// Keeps the elements of `v` that `keep` accepts, in order (`Vec::retain`).
pub fn filter_by<T, F: Fn(&T) -> bool>(
    v: Vec<T>,
    keep: &F,
    Ghost(pred): Ghost<spec_fn(T) -> bool>,
) -> (r: Vec<T>)
    requires
        forall|a: &T| #[trigger] keep.requires((a,)),
        forall|a: &T, c: bool| keep.ensures((a,), c) ==> c == pred(*a),
    ensures
        r@ == v@.filter(pred),
{
    let ghost orig = v@;
    let mut src = v;
    let mut out: Vec<T> = Vec::new();
    let ghost mut done: int = 0;
    assert(orig.take(0) =~= Seq::<T>::empty());
    assert(orig.skip(0) =~= orig);
    while src.len() > 0
        invariant
            0 <= done <= orig.len(),
            src@ == orig.skip(done),
            out@ == orig.take(done).filter(pred),
            forall|a: &T| #[trigger] keep.requires((a,)),
            forall|a: &T, c: bool| keep.ensures((a,), c) ==> c == pred(*a),
        decreases src.len(),
    {
        let x = src.remove(0);
        proof {
            assert(orig[done] == x);
            assert(orig.take(done + 1) =~= orig.take(done).push(x));
            orig.take(done).lemma_filter_push(x, pred);
        }
        if keep(&x) {
            out.push(x);
        }
        proof {
            done = done + 1;
            assert(src@ =~= orig.skip(done));
        }
    }
    assert(orig.take(done) =~= orig);
    out
}

} // verus!
