//! Stable sorting. The order a stable sort produces is stated as insertion
//! sort: each element, in turn, goes after every element already placed that
//! it does not come strictly before.
use crate::text::{text_less, text_lt, views_of};
use vstd::prelude::*;
use vstd::multiset::*;

verus! {

/// `x` inserted into `s` just before the first element it comes strictly
/// before (after all elements it ties with).
pub open spec fn stable_insert<T>(s: Seq<T>, x: T, lt: spec_fn(T, T) -> bool) -> Seq<T>
    decreases s.len(),
{
    if s.len() == 0 {
        seq![x]
    } else if lt(x, s[0]) {
        seq![x] + s
    } else {
        seq![s[0]] + stable_insert(s.drop_first(), x, lt)
    }
}

/// The stable sort of `s` by the strict order `lt`.
pub open spec fn stable_sort<T>(s: Seq<T>, lt: spec_fn(T, T) -> bool) -> Seq<T>
    decreases s.len(),
{
    if s.len() == 0 {
        s
    } else {
        stable_insert(stable_sort(s.drop_last(), lt), s.last(), lt)
    }
}

/// A strict weak order: irreflexive, transitive, and incomparability is
/// transitive too.
pub open spec fn strict_weak_order<T>(lt: spec_fn(T, T) -> bool) -> bool {
    &&& forall|a: T| !(#[trigger] lt(a, a))
    &&& forall|a: T, b: T, c: T| #[trigger] lt(a, b) && #[trigger] lt(b, c) ==> lt(a, c)
    &&& forall|a: T, b: T, c: T|
        !(#[trigger] lt(a, b)) && !(#[trigger] lt(b, a)) && !(#[trigger] lt(b, c)) && !(
        #[trigger] lt(c, b)) ==> !lt(a, c) && !lt(c, a)
}

/// No later element comes strictly before an earlier one.
pub open spec fn is_sorted_by<T>(s: Seq<T>, lt: spec_fn(T, T) -> bool) -> bool {
    forall|i: int, j: int| 0 <= i < j < s.len() ==> !lt(#[trigger] s[j], #[trigger] s[i])
}

/// Types with a strict order of their own, for sorting.
pub trait SortKey: Sized {
    spec fn before(a: Self, b: Self) -> bool;

    fn is_before(&self, other: &Self) -> (r: bool)
        ensures
            r == Self::before(*self, *other),
    ;
}

pub open spec fn before_fn<T: SortKey>() -> spec_fn(T, T) -> bool {
    |a: T, b: T| T::before(a, b)
}

proof fn lemma_insert_skip<T>(s: Seq<T>, x: T, lt: spec_fn(T, T) -> bool, j: int)
    requires
        0 <= j <= s.len(),
        forall|k: int| 0 <= k < j ==> !lt(x, #[trigger] s[k]),
    ensures
        stable_insert(s, x, lt) == s.subrange(0, j) + stable_insert(
            s.subrange(j, s.len() as int),
            x,
            lt,
        ),
    decreases j,
{
    if j == 0 {
        assert(s.subrange(0, 0) + stable_insert(s.subrange(0, s.len() as int), x, lt) =~= stable_insert(s, x, lt)) by {
            assert(s.subrange(0, s.len() as int) =~= s);
        }
    } else {
        let t = s.drop_first();
        assert forall|k: int| 0 <= k < j - 1 implies !lt(x, #[trigger] t[k]) by {
            assert(t[k] == s[k + 1]);
        }
        lemma_insert_skip(t, x, lt, j - 1);
        assert(t.subrange(0, j - 1) =~= s.subrange(1, j));
        assert(t.subrange(j - 1, t.len() as int) =~= s.subrange(j, s.len() as int));
        assert(s.subrange(0, j) =~= seq![s[0]] + s.subrange(1, j));
        assert(!lt(x, s[0]));
    }
}

/// Sorts `v` stably by `T`'s order.
pub fn sort_stable<T: SortKey>(v: &mut Vec<T>)
    ensures
        final(v)@ == stable_sort(old(v)@, before_fn::<T>()),
{
    let ghost orig = v@;
    let ghost lt = before_fn::<T>();
    let n = v.len();
    let mut i: usize = 0;
    assert(orig.subrange(0, 0) =~= Seq::<T>::empty());
    while i < n
        invariant
            n == orig.len(),
            v@.len() == n,
            i <= n,
            v@.subrange(0, i as int) == stable_sort(orig.subrange(0, i as int), lt),
            v@.subrange(i as int, n as int) == orig.subrange(i as int, n as int),
            lt == before_fn::<T>(),
        decreases n - i,
    {
        let ghost sorted = v@.subrange(0, i as int);
        let ghost old_v = v@;
        assert(old_v[i as int] == orig[i as int]) by {
            assert(old_v.subrange(i as int, n as int)[0] == orig.subrange(i as int, n as int)[0]);
        }
        let x = v.remove(i);
        assert(v@.subrange(0, i as int) =~= sorted);
        let mut j: usize = 0;
        while j < i && !x.is_before(&v[j])
            invariant
                j <= i,
                i < n,
                v@.len() == n - 1,
                v@.subrange(0, i as int) == sorted,
                sorted.len() == i,
                forall|k: int| 0 <= k < j ==> !lt(x, #[trigger] sorted[k]),
                lt == before_fn::<T>(),
            decreases i - j,
        {
            assert(v@[j as int] == sorted[j as int]);
            j = j + 1;
        }
        proof {
            lemma_insert_skip(sorted, x, lt, j as int);
            if j < i {
                assert(v@[j as int] == sorted[j as int]);
                assert(lt(x, sorted[j as int]));
                assert(stable_insert(sorted.subrange(j as int, i as int), x, lt) =~= seq![x]
                    + sorted.subrange(j as int, i as int));
            } else {
                assert(sorted.subrange(j as int, i as int) =~= Seq::<T>::empty());
            }
        }
        let ghost before_insert = v@;
        v.insert(j, x);
        i = i + 1;
        proof {
            let pre = orig.subrange(0, i as int);
            assert(pre.drop_last() =~= orig.subrange(0, i - 1));
            assert(pre.last() == x);
            assert(v@.subrange(0, i as int) =~= sorted.subrange(0, j as int) + stable_insert(
                sorted.subrange(j as int, (i - 1) as int),
                x,
                lt,
            ));
            assert forall|k: int| i <= k < n implies v@[k] == orig[k] by {
                assert(v@[k] == before_insert[k - 1]);
                assert(before_insert[k - 1] == old_v[k]);
                assert(old_v.subrange((i - 1) as int, n as int)[k - (i - 1)] == orig.subrange((i - 1) as int, n as int)[k - (i - 1)]);
            }
            assert(v@.subrange(i as int, n as int) =~= orig.subrange(i as int, n as int));
        }
    }
    assert(v@.subrange(0, n as int) =~= v@);
    assert(orig.subrange(0, n as int) =~= orig);
}

// ── Properties of the stable order ───────────────────────────────────────────
pub proof fn lemma_stable_insert_multiset<T>(s: Seq<T>, x: T, lt: spec_fn(T, T) -> bool)
    ensures
        stable_insert(s, x, lt).to_multiset() == s.to_multiset().insert(x),
    decreases s.len(),
{
    broadcast use vstd::seq_lib::group_to_multiset_ensures;

    if s.len() == 0 {
        assert(stable_insert(s, x, lt) =~= seq![x]);
        assert(seq![x] =~= Seq::<T>::empty().push(x));
    } else if lt(x, s[0]) {
        assert(seq![x] + s =~= s.insert(0, x));
        s.insert_ensures(0, x);
        vstd::seq_lib::lemma_multiset_commutative(seq![x], s);
        assert(seq![x] =~= Seq::<T>::empty().push(x));
        assert(seq![x].to_multiset() =~= Multiset::<T>::empty().insert(x));
        assert((seq![x] + s).to_multiset() =~= s.to_multiset().insert(x));
    } else {
        let t = s.drop_first();
        lemma_stable_insert_multiset(t, x, lt);
        vstd::seq_lib::lemma_multiset_commutative(seq![s[0]], stable_insert(t, x, lt));
        vstd::seq_lib::lemma_multiset_commutative(seq![s[0]], t);
        assert(seq![s[0]] + t =~= s);
        assert(seq![s[0]] =~= Seq::<T>::empty().push(s[0]));
        assert(seq![s[0]].to_multiset() =~= Multiset::<T>::empty().insert(s[0]));
        assert(stable_insert(s, x, lt).to_multiset() =~= s.to_multiset().insert(x));
    }
}

pub proof fn lemma_stable_insert_len<T>(s: Seq<T>, x: T, lt: spec_fn(T, T) -> bool)
    ensures
        stable_insert(s, x, lt).len() == s.len() + 1,
    decreases s.len(),
{
    if s.len() > 0 && !lt(x, s[0]) {
        lemma_stable_insert_len(s.drop_first(), x, lt);
    }
}

/// The stable sort rearranges: it keeps every element, as often as it occurs.
pub proof fn lemma_stable_sort_multiset<T>(s: Seq<T>, lt: spec_fn(T, T) -> bool)
    ensures
        stable_sort(s, lt).to_multiset() == s.to_multiset(),
        stable_sort(s, lt).len() == s.len(),
    decreases s.len(),
{
    broadcast use vstd::seq_lib::group_to_multiset_ensures;

    if s.len() > 0 {
        lemma_stable_sort_multiset(s.drop_last(), lt);
        lemma_stable_insert_multiset(stable_sort(s.drop_last(), lt), s.last(), lt);
        lemma_stable_insert_len(stable_sort(s.drop_last(), lt), s.last(), lt);
        assert(s.drop_last().push(s.last()) =~= s);
        assert(s.to_multiset() =~= s.drop_last().to_multiset().insert(s.last()));
    }
}

proof fn lemma_stable_insert_sorted<T>(s: Seq<T>, x: T, lt: spec_fn(T, T) -> bool)
    requires
        strict_weak_order(lt),
        is_sorted_by(s, lt),
    ensures
        is_sorted_by(stable_insert(s, x, lt), lt),
        forall|k: int|
            0 <= k < stable_insert(s, x, lt).len() ==> (#[trigger] stable_insert(s, x, lt)[k] == x
                || s.contains(stable_insert(s, x, lt)[k])),
        stable_insert(s, x, lt).len() == s.len() + 1,
    decreases s.len(),
{
    let r = stable_insert(s, x, lt);
    if s.len() == 0 {
    } else if lt(x, s[0]) {
        assert forall|i: int, j: int| 0 <= i < j < r.len() implies !lt(#[trigger] r[j], #[trigger] r[i]) by {
            if i == 0 {
                assert(r[j] == s[j - 1]);
                if j - 1 > 0 {
                    assert(!lt(s[j - 1], s[0]));
                }
                if lt(s[j - 1], x) {
                    if j - 1 > 0 {
                        assert(lt(s[j - 1], s[0]));
                    } else {
                        assert(lt(x, x));
                    }
                }
            } else {
                assert(r[i] == s[i - 1] && r[j] == s[j - 1]);
            }
        }
        assert forall|k: int| 0 <= k < r.len() implies (#[trigger] r[k] == x || s.contains(r[k])) by {
            if k > 0 {
                assert(r[k] == s[k - 1]);
            }
        }
    } else {
        let t = s.drop_first();
        assert forall|i: int, j: int| 0 <= i < j < t.len() implies !lt(#[trigger] t[j], #[trigger] t[i]) by {
            assert(t[i] == s[i + 1] && t[j] == s[j + 1]);
        }
        lemma_stable_insert_sorted(t, x, lt);
        let q = stable_insert(t, x, lt);
        assert(r =~= seq![s[0]] + q);
        assert forall|i: int, j: int| 0 <= i < j < r.len() implies !lt(#[trigger] r[j], #[trigger] r[i]) by {
            if i == 0 {
                assert(r[j] == q[j - 1]);
                if q[j - 1] == x {
                } else {
                    assert(t.contains(q[j - 1]));
                    let m = choose|m: int| 0 <= m < t.len() && t[m] == q[j - 1];
                    assert(t[m] == s[m + 1]);
                }
            } else {
                assert(r[i] == q[i - 1] && r[j] == q[j - 1]);
            }
        }
        assert forall|k: int| 0 <= k < r.len() implies (#[trigger] r[k] == x || s.contains(r[k])) by {
            if k > 0 {
                assert(r[k] == q[k - 1]);
                if q[k - 1] != x {
                    let m = choose|m: int| 0 <= m < t.len() && t[m] == q[k - 1];
                    assert(s[m + 1] == t[m]);
                }
            } else {
                assert(s[0] == r[0]);
            }
        }
    }
}

/// Under a strict weak order the stable sort is sorted.
pub proof fn lemma_stable_sort_sorted<T>(s: Seq<T>, lt: spec_fn(T, T) -> bool)
    requires
        strict_weak_order(lt),
    ensures
        is_sorted_by(stable_sort(s, lt), lt),
    decreases s.len(),
{
    if s.len() > 0 {
        lemma_stable_sort_sorted(s.drop_last(), lt);
        lemma_stable_insert_sorted(stable_sort(s.drop_last(), lt), s.last(), lt);
    }
}

// ── Sorting looks only at the keys ──────────────────────────────────────────
/// Two sequences of the same length whose elements have, place by place, the
/// same key.
pub open spec fn same_keys<T, K>(s: Seq<T>, s2: Seq<T>, key: spec_fn(T) -> K) -> bool {
    &&& s.len() == s2.len()
    &&& forall|k: int| 0 <= k < s.len() ==> key(#[trigger] s[k]) == key(s2[k])
}

/// `lt` compares by `key` alone.
pub open spec fn compares_by<T, K>(lt: spec_fn(T, T) -> bool, key: spec_fn(T) -> K) -> bool {
    forall|a: T, b: T, a2: T, b2: T|
        key(a) == key(a2) && key(b) == key(b2) ==> #[trigger] lt(a, b) == #[trigger] lt(a2, b2)
}

proof fn lemma_insert_same_keys<T, K>(
    t: Seq<T>,
    t2: Seq<T>,
    x: T,
    x2: T,
    lt: spec_fn(T, T) -> bool,
    key: spec_fn(T) -> K,
)
    requires
        same_keys(t, t2, key),
        key(x) == key(x2),
        compares_by(lt, key),
    ensures
        same_keys(stable_insert(t, x, lt), stable_insert(t2, x2, lt), key),
    decreases t.len(),
{
    let r = stable_insert(t, x, lt);
    let r2 = stable_insert(t2, x2, lt);
    if t.len() == 0 {
        assert(r =~= seq![x]);
        assert(r2 =~= seq![x2]);
    } else {
        assert(key(t[0]) == key(t2[0]));
        assert(lt(x, t[0]) == lt(x2, t2[0]));
        if lt(x, t[0]) {
            assert forall|k: int| 0 <= k < r.len() implies key(#[trigger] r[k]) == key(r2[k]) by {
                if k > 0 {
                    assert(r[k] == t[k - 1] && r2[k] == t2[k - 1]);
                }
            }
        } else {
            let u = t.drop_first();
            let u2 = t2.drop_first();
            assert forall|k: int| 0 <= k < u.len() implies key(#[trigger] u[k]) == key(u2[k]) by {
                assert(u[k] == t[k + 1] && u2[k] == t2[k + 1]);
            }
            lemma_insert_same_keys(u, u2, x, x2, lt, key);
            let q = stable_insert(u, x, lt);
            let q2 = stable_insert(u2, x2, lt);
            assert forall|k: int| 0 <= k < r.len() implies key(#[trigger] r[k]) == key(r2[k]) by {
                if k > 0 {
                    assert(r[k] == q[k - 1] && r2[k] == q2[k - 1]);
                }
            }
        }
    }
}

/// Sorting sequences with the same keys, place by place, gives sequences
/// with the same keys, place by place.
pub proof fn lemma_sort_same_keys<T, K>(
    s: Seq<T>,
    s2: Seq<T>,
    lt: spec_fn(T, T) -> bool,
    key: spec_fn(T) -> K,
)
    requires
        same_keys(s, s2, key),
        compares_by(lt, key),
    ensures
        same_keys(stable_sort(s, lt), stable_sort(s2, lt), key),
    decreases s.len(),
{
    if s.len() > 0 {
        let t = s.drop_last();
        let t2 = s2.drop_last();
        assert forall|k: int| 0 <= k < t.len() implies key(#[trigger] t[k]) == key(t2[k]) by {
            assert(t[k] == s[k] && t2[k] == s2[k]);
        }
        lemma_sort_same_keys(t, t2, lt, key);
        assert(key(s.last()) == key(s2.last())) by {
            assert(s.last() == s[s.len() - 1]);
        }
        lemma_insert_same_keys(stable_sort(t, lt), stable_sort(t2, lt), s.last(), s2.last(), lt, key);
    }
}


// ── Sorting positions by text keys ───────────────────────────────────────────
/// Positions ordered by the text at them in `keys`: ascending, or descending
/// when `desc` (descending is the ascending comparison turned around, so
/// equal keys keep their order either way).
pub open spec fn key_order(keys: Seq<Seq<char>>, desc: bool) -> spec_fn(usize, usize) -> bool {
    |a: usize, b: usize|
        if desc {
            text_lt(keys[b as int], keys[a as int])
        } else {
            text_lt(keys[a as int], keys[b as int])
        }
}

/// Sorts positions stably by the keys at them (`sort_by` comparing the keys,
/// reversed when `desc`).
pub fn sort_positions(keys: &Vec<String>, order: &mut Vec<usize>, desc: bool)
    requires
        forall|i: int| 0 <= i < old(order)@.len() ==> (#[trigger] old(order)@[i]) < keys@.len(),
    ensures
        final(order)@ == stable_sort(old(order)@, key_order(views_of(keys@), desc)),
{
    let ghost orig = order@;
    let ghost lt = key_order(views_of(keys@), desc);
    let n = order.len();
    let mut i: usize = 0;
    assert(orig.subrange(0, 0) =~= Seq::<usize>::empty());
    while i < n
        invariant
            n == orig.len(),
            order@.len() == n,
            i <= n,
            order@.subrange(0, i as int) == stable_sort(orig.subrange(0, i as int), lt),
            order@.subrange(i as int, n as int) == orig.subrange(i as int, n as int),
            lt == key_order(views_of(keys@), desc),
            forall|k: int| 0 <= k < orig.len() ==> (#[trigger] orig[k]) < keys@.len(),
            forall|k: int| 0 <= k < order@.len() ==> (#[trigger] order@[k]) < keys@.len(),
        decreases n - i,
    {
        let ghost sorted = order@.subrange(0, i as int);
        let ghost old_v = order@;
        assert(old_v[i as int] == orig[i as int]) by {
            assert(old_v.subrange(i as int, n as int)[0] == orig.subrange(i as int, n as int)[0]);
        }
        let x = order.remove(i);
        assert(order@.subrange(0, i as int) =~= sorted);
        let mut j: usize = 0;
        loop
            invariant
                j <= i,
                i < n,
                order@.len() == n - 1,
                order@.subrange(0, i as int) == sorted,
                sorted.len() == i,
                x < keys@.len(),
                forall|k: int| 0 <= k < order@.len() ==> (#[trigger] order@[k]) < keys@.len(),
                forall|k: int| 0 <= k < j ==> !lt(x, #[trigger] sorted[k]),
                lt == key_order(views_of(keys@), desc),
            ensures
                j <= i,
                j < i ==> lt(x, sorted[j as int]),
                forall|k: int| 0 <= k < j ==> !lt(x, #[trigger] sorted[k]),
            decreases i - j,
        {
            if j >= i {
                break;
            }
            assert(order@[j as int] == sorted[j as int]);
            let y = order[j];
            let before = if desc {
                text_less(keys[y].as_str(), keys[x].as_str())
            } else {
                text_less(keys[x].as_str(), keys[y].as_str())
            };
            assert(views_of(keys@)[y as int] == keys@[y as int]@);
            assert(views_of(keys@)[x as int] == keys@[x as int]@);
            if before {
                break;
            }
            j = j + 1;
        }
        proof {
            lemma_insert_skip(sorted, x, lt, j as int);
            if j < i {
                assert(stable_insert(sorted.subrange(j as int, i as int), x, lt) =~= seq![x]
                    + sorted.subrange(j as int, i as int));
            } else {
                assert(sorted.subrange(j as int, i as int) =~= Seq::<usize>::empty());
            }
        }
        let ghost before_insert = order@;
        order.insert(j, x);
        i = i + 1;
        proof {
            let pre = orig.subrange(0, i as int);
            assert(pre.drop_last() =~= orig.subrange(0, i - 1));
            assert(pre.last() == x);
            assert(order@.subrange(0, i as int) =~= sorted.subrange(0, j as int) + stable_insert(
                sorted.subrange(j as int, (i - 1) as int),
                x,
                lt,
            ));
            assert forall|k: int| i <= k < n implies order@[k] == orig[k] by {
                assert(order@[k] == before_insert[k - 1]);
                assert(before_insert[k - 1] == old_v[k]);
                assert(old_v.subrange((i - 1) as int, n as int)[k - (i - 1)] == orig.subrange(
                    (i - 1) as int,
                    n as int,
                )[k - (i - 1)]);
            }
            assert(order@.subrange(i as int, n as int) =~= orig.subrange(i as int, n as int));
            assert forall|k: int| 0 <= k < order@.len() implies (#[trigger] order@[k]) < keys@.len() by {
                if k < j {
                    assert(order@[k] == before_insert[k]);
                } else if k > j {
                    assert(order@[k] == before_insert[k - 1]);
                }
            }
        }
    }
    assert(order@.subrange(0, n as int) =~= order@);
    assert(orig.subrange(0, n as int) =~= orig);
}

/// The order of positions by text keys is a strict weak order.
pub proof fn lemma_key_order_strict_weak(keys: Seq<Seq<char>>, desc: bool)
    ensures
        strict_weak_order(key_order(keys, desc)),
{
    let lt = key_order(keys, desc);
    assert forall|a: usize| !(#[trigger] lt(a, a)) by {
        crate::text::lemma_text_lt_irreflexive(keys[a as int]);
    }
    assert forall|a: usize, b: usize, c: usize| #[trigger] lt(a, b) && #[trigger] lt(b, c) implies lt(
        a,
        c,
    ) by {
        if desc {
            crate::text::lemma_text_lt_transitive(keys[c as int], keys[b as int], keys[a as int]);
        } else {
            crate::text::lemma_text_lt_transitive(keys[a as int], keys[b as int], keys[c as int]);
        }
    }
    assert forall|a: usize, b: usize, c: usize|
        !(#[trigger] lt(a, b)) && !(#[trigger] lt(b, a)) && !(#[trigger] lt(b, c)) && !(
        #[trigger] lt(c, b)) implies !lt(a, c) && !lt(c, a) by {
        crate::text::lemma_text_lt_total(keys[a as int], keys[b as int]);
        crate::text::lemma_text_lt_total(keys[b as int], keys[c as int]);
        crate::text::lemma_text_lt_irreflexive(keys[a as int]);
    }
}

} // verus!
