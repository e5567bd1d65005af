//! Stable sorting by a key, for the lists the popup shows in a fixed order.
//!
//! Every ordering the readings need (sensor labels by their index, fans by
//! speed, partitions root first) is a lexicographic order on a short sequence
//! of integers, so one sort serves them all. It behaves as the standard
//! library's stable `sort_by_key` does: the result is ordered by key, and
//! items with equal keys keep the order they came in.
use vstd::prelude::*;

verus! {

/// Lexicographic order on key sequences; a proper prefix comes first.
pub open spec fn key_le(a: Seq<u64>, b: Seq<u64>) -> bool
    decreases a.len(),
{
    if a.len() == 0 {
        true
    } else if b.len() == 0 {
        false
    } else if a[0] < b[0] {
        true
    } else if a[0] > b[0] {
        false
    } else {
        key_le(a.drop_first(), b.drop_first())
    }
}

pub proof fn lemma_key_le_total(a: Seq<u64>, b: Seq<u64>)
    ensures
        key_le(a, b) || key_le(b, a),
    decreases a.len(),
{
    if a.len() > 0 && b.len() > 0 && a[0] == b[0] {
        lemma_key_le_total(a.drop_first(), b.drop_first());
    }
}

pub proof fn lemma_key_le_trans(a: Seq<u64>, b: Seq<u64>, c: Seq<u64>)
    requires
        key_le(a, b),
        key_le(b, c),
    ensures
        key_le(a, c),
    decreases a.len(),
{
    if a.len() > 0 && b.len() > 0 && c.len() > 0 && a[0] == b[0] && b[0] == c[0] {
        lemma_key_le_trans(a.drop_first(), b.drop_first(), c.drop_first());
    }
}

/// `key_le` on machine integers.
pub fn keys_le(a: &[u64], b: &[u64]) -> (r: bool)
    ensures
        r == key_le(a@, b@),
{
    let mut i: usize = 0;
    assert(a@.skip(0) =~= a@);
    assert(b@.skip(0) =~= b@);
    while i < a.len()
        invariant
            i <= a.len(),
            i <= b.len(),
            key_le(a@, b@) == key_le(a@.skip(i as int), b@.skip(i as int)),
        decreases a.len() - i,
    {
        if i == b.len() {
            return false;
        }
        if a[i] < b[i] {
            return true;
        }
        if a[i] > b[i] {
            return false;
        }
        assert(a@.skip(i as int).drop_first() =~= a@.skip(i + 1));
        assert(b@.skip(i as int).drop_first() =~= b@.skip(i + 1));
        i = i + 1;
    }
    true
}

/// `s` with `x` inserted after every element whose key is not greater.
pub open spec fn insert_sorted<T>(s: Seq<(Seq<u64>, T)>, x: (Seq<u64>, T)) -> Seq<(Seq<u64>, T)>
    decreases s.len(),
{
    if s.len() == 0 {
        seq![x]
    } else if key_le(s.last().0, x.0) {
        s.push(x)
    } else {
        insert_sorted(s.drop_last(), x).push(s.last())
    }
}

/// The stable sort of `s` by key: each element in turn inserted after those
/// already placed whose key is not greater.
pub open spec fn sort_by_key<T>(s: Seq<(Seq<u64>, T)>) -> Seq<(Seq<u64>, T)>
    decreases s.len(),
{
    if s.len() == 0 {
        s
    } else {
        insert_sorted(sort_by_key(s.drop_last()), s.last())
    }
}

pub open spec fn key_sorted<T>(s: Seq<(Seq<u64>, T)>) -> bool {
    forall|i: int, j: int| 0 <= i < j < s.len() ==> key_le(s[i].0, s[j].0)
}

proof fn lemma_insert_at<T>(s: Seq<(Seq<u64>, T)>, x: (Seq<u64>, T), p: int)
    requires
        0 <= p <= s.len(),
        forall|k: int| p <= k < s.len() ==> !key_le(#[trigger] s[k].0, x.0),
        p == 0 || key_le(s[p - 1].0, x.0),
    ensures
        insert_sorted(s, x) == s.take(p).push(x) + s.skip(p),
    decreases s.len(),
{
    if s.len() == 0 {
        assert(s.take(p).push(x) + s.skip(p) =~= seq![x]);
    } else if p == s.len() {
        assert(s.take(p).push(x) + s.skip(p) =~= s.push(x));
    } else {
        let t = s.drop_last();
        lemma_insert_at(t, x, p);
        assert(t.take(p).push(x) + t.skip(p) + seq![s.last()] =~= s.take(p).push(x) + s.skip(
            p,
        ));
    }
}

/// Inserts `x` into the key-sorted vector `v` after every element whose key
/// is not greater.
fn insert_into<T>(v: &mut Vec<(Vec<u64>, T)>, x: (Vec<u64>, T))
    ensures
        keyed(final(v)@) == insert_sorted(keyed(old(v)@), (x.0@, x.1)),
{
    let mut p = v.len();
    while p > 0 && !keys_le(&v[p - 1].0, &x.0)
        invariant
            p <= v.len(),
            v@ == old(v)@,
            forall|k: int| p <= k < v.len() ==> !key_le(#[trigger] keyed(v@)[k].0, x.0@),
        decreases p,
    {
        p = p - 1;
    }
    let ghost s = keyed(v@);
    proof {
        lemma_insert_at(s, (x.0@, x.1), p as int);
    }
    v.insert(p, x);
    assert(keyed(v@) =~= s.take(p as int).push((x.0@, x.1)) + s.skip(p as int));
}

/// The key sequences and items of a vector of keyed items.
pub open spec fn keyed<T>(v: Seq<(Vec<u64>, T)>) -> Seq<(Seq<u64>, T)> {
    v.map_values(|e: (Vec<u64>, T)| (e.0@, e.1))
}

/// Sorts keyed items by key, stably.
pub fn sort_keyed<T>(items: Vec<(Vec<u64>, T)>) -> (sorted: Vec<(Vec<u64>, T)>)
    ensures
        keyed(sorted@) == sort_by_key(keyed(items@)),
{
    let ghost all = keyed(items@);
    let mut items = items;
    let mut sorted: Vec<(Vec<u64>, T)> = Vec::new();
    let ghost mut i: int = 0;
    assert(all.take(0) =~= Seq::<(Seq<u64>, T)>::empty());
    assert(all.skip(0) =~= all);
    while items.len() > 0
        invariant
            0 <= i <= all.len(),
            keyed(items@) == all.skip(i),
            keyed(sorted@) == sort_by_key(all.take(i)),
        decreases items.len(),
    {
        let ghost before = keyed(items@);
        let e = items.remove(0);
        proof {
            assert(keyed(items@) =~= before.drop_first());
            assert(before[0] == all[i]);
            assert(all.take(i + 1).drop_last() =~= all.take(i));
            assert(all.skip(i).drop_first() =~= all.skip(i + 1));
            i = i + 1;
        }
        insert_into(&mut sorted, e);
    }
    assert(all.take(i) =~= all);
    sorted
}

/// The keyed items of `s` with `f` applied to each item, keys unchanged.
pub open spec fn map_items<T, U>(s: Seq<(Seq<u64>, T)>, f: spec_fn(T) -> U) -> Seq<(Seq<u64>, U)> {
    s.map_values(|e: (Seq<u64>, T)| (e.0, f(e.1)))
}

proof fn lemma_insert_map<T, U>(s: Seq<(Seq<u64>, T)>, x: (Seq<u64>, T), f: spec_fn(T) -> U)
    ensures
        insert_sorted(map_items(s, f), (x.0, f(x.1))) == map_items(insert_sorted(s, x), f),
    decreases s.len(),
{
    if s.len() == 0 {
        assert(map_items(seq![x], f) =~= seq![(x.0, f(x.1))]);
    } else {
        assert(map_items(s, f).drop_last() =~= map_items(s.drop_last(), f));
        lemma_insert_map(s.drop_last(), x, f);
        if key_le(s.last().0, x.0) {
            assert(map_items(s.push(x), f) =~= map_items(s, f).push((x.0, f(x.1))));
        } else {
            let t = insert_sorted(s.drop_last(), x);
            assert(map_items(t.push(s.last()), f) =~= map_items(t, f).push(
                (s.last().0, f(s.last().1)),
            ));
        }
    }
}

/// Sorting by key does not look at the items: changing the items and
/// sorting gives the sorted items changed.
pub proof fn lemma_sort_map<T, U>(s: Seq<(Seq<u64>, T)>, f: spec_fn(T) -> U)
    ensures
        sort_by_key(map_items(s, f)) == map_items(sort_by_key(s), f),
    decreases s.len(),
{
    if s.len() == 0 {
        assert(map_items(s, f) =~= s.map_values(|e: (Seq<u64>, T)| (e.0, f(e.1))));
    } else {
        assert(map_items(s, f).drop_last() =~= map_items(s.drop_last(), f));
        lemma_sort_map(s.drop_last(), f);
        lemma_insert_map(sort_by_key(s.drop_last()), s.last(), f);
    }
}

/// The sort leaves every key sequence no greater than any later one.
pub proof fn sorted_by_key<T>(s: Seq<(Seq<u64>, T)>)
    ensures
        key_sorted(sort_by_key(s)),
    decreases s.len(),
{
    if s.len() > 0 {
        sorted_by_key(s.drop_last());
        lemma_insert_keeps_sorted(sort_by_key(s.drop_last()), s.last());
    }
}

proof fn lemma_insert_keeps_sorted<T>(s: Seq<(Seq<u64>, T)>, x: (Seq<u64>, T))
    requires
        key_sorted(s),
    ensures
        key_sorted(insert_sorted(s, x)),
        insert_sorted(s, x).len() == s.len() + 1,
        forall|k: int| 0 <= k < insert_sorted(s, x).len() ==> (#[trigger] insert_sorted(s, x)[k] == x || s.contains(insert_sorted(s, x)[k])),
    decreases s.len(),
{
    if s.len() == 0 {
    } else if key_le(s.last().0, x.0) {
        let r = s.push(x);
        assert forall|i: int, j: int| 0 <= i < j < r.len() implies key_le(r[i].0, r[j].0) by {
            if j == s.len() {
                if i < s.len() - 1 {
                    lemma_key_le_trans(s[i].0, s.last().0, x.0);
                }
            }
        }
        assert forall|k: int| 0 <= k < r.len() implies (#[trigger] r[k] == x || s.contains(r[k])) by {
            if k < s.len() {
                assert(s[k] == r[k]);
            }
        }
    } else {
        let t = s.drop_last();
        assert(key_sorted(t));
        lemma_insert_keeps_sorted(t, x);
        let m = insert_sorted(t, x);
        let r = m.push(s.last());
        lemma_key_le_total(s.last().0, x.0);
        assert forall|i: int, j: int| 0 <= i < j < r.len() implies key_le(r[i].0, r[j].0) by {
            if j == m.len() {
                assert(r[i] == m[i]);
                if m[i] == x {
                } else {
                    assert(t.contains(m[i]));
                    let k = choose|k: int| 0 <= k < t.len() && t[k] == m[i];
                    assert(s[k] == t[k]);
                }
            }
        }
        assert forall|k: int| 0 <= k < r.len() implies (#[trigger] r[k] == x || s.contains(r[k])) by {
            if k < m.len() {
                assert(r[k] == m[k]);
                if m[k] != x {
                    let q = choose|q: int| 0 <= q < t.len() && t[q] == m[k];
                    assert(s[q] == t[q]);
                }
            } else {
                assert(s[s.len() - 1] == r[k]);
            }
        }
    }
}

/// The sort keeps every item, adding or losing none.
pub proof fn sort_is_permutation<T>(s: Seq<(Seq<u64>, T)>)
    ensures
        sort_by_key(s).to_multiset() == s.to_multiset(),
    decreases s.len(),
{
    broadcast use vstd::multiset::group_multiset_axioms;
    broadcast use vstd::seq_lib::group_to_multiset_ensures;

    if s.len() > 0 {
        sort_is_permutation(s.drop_last());
        lemma_insert_multiset(sort_by_key(s.drop_last()), s.last());
        assert(s =~= s.drop_last().push(s.last()));
    }
}

proof fn lemma_insert_multiset<T>(s: Seq<(Seq<u64>, T)>, x: (Seq<u64>, T))
    ensures
        insert_sorted(s, x).to_multiset() == s.to_multiset().insert(x),
    decreases s.len(),
{
    broadcast use vstd::multiset::group_multiset_axioms;
    broadcast use vstd::seq_lib::group_to_multiset_ensures;

    if s.len() == 0 {
        assert(seq![x] =~= Seq::<(Seq<u64>, T)>::empty().push(x));
    } else if key_le(s.last().0, x.0) {
    } else {
        let t = s.drop_last();
        lemma_insert_multiset(t, x);
        assert(s =~= t.push(s.last()));
        assert(insert_sorted(s, x).to_multiset() =~= s.to_multiset().insert(x));
    }
}

/// Two sequences with the same elements still have the same elements after
/// `g` is applied to each.
pub proof fn lemma_map_keeps_multiset<A, B>(s1: Seq<A>, s2: Seq<A>, g: spec_fn(A) -> B)
    requires
        s1.to_multiset() == s2.to_multiset(),
    ensures
        s1.map_values(g).to_multiset() == s2.map_values(g).to_multiset(),
    decreases s1.len(),
{
    broadcast use vstd::multiset::group_multiset_axioms;
    broadcast use vstd::seq_lib::group_to_multiset_ensures;

    if s1.len() == 0 {
        assert(s1.to_multiset().len() == 0);
        assert(s2.to_multiset().len() == s2.len());
        assert(s1.map_values(g) =~= s2.map_values(g));
    } else {
        let a = s1.last();
        assert(s1.drop_last().push(a) =~= s1);
        assert(s1.contains(a)) by {
            assert(s1[s1.len() - 1] == a);
        }
        assert(s1.to_multiset().count(a) > 0);
        assert(s2.to_multiset().count(a) > 0);
        assert(s2.contains(a));
        let i = choose|i: int| 0 <= i < s2.len() && s2[i] == a;
        assert(s1.drop_last().to_multiset() =~= s2.remove(i).to_multiset());
        lemma_map_keeps_multiset(s1.drop_last(), s2.remove(i), g);
        let m1 = s1.map_values(g);
        let m2 = s2.map_values(g);
        assert(m1 =~= s1.drop_last().map_values(g).push(g(a)));
        assert(s2.remove(i).map_values(g) =~= m2.remove(i));
        assert(m2[i] == g(a));
        assert(m2.remove(i).to_multiset() == m2.to_multiset().remove(g(a)));
        assert(m2.to_multiset().count(g(a)) > 0) by {
            assert(m2.contains(g(a)));
        }
        assert(m1.to_multiset() =~= m2.to_multiset());
    }
}

} // verus!
