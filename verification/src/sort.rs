//! Stable sorting by a strict order, as `sort_by` and `sort_by_key` do.
use vstd::prelude::*;

verus! {

/// `s` (already in order) with `x` placed after every element it is not
/// strictly before: where a stable insertion puts a later element.
pub open spec fn sorted_insert<T>(s: Seq<T>, x: T, lt: spec_fn(T, T) -> bool) -> Seq<T>
    decreases s.len(),
{
    if s.len() == 0 || !lt(x, s.last()) {
        s.push(x)
    } else {
        sorted_insert(s.drop_last(), x, lt).push(s.last())
    }
}

/// `s` in stable order by `lt`: equal elements keep their relative order.
pub open spec fn stable_sort<T>(s: Seq<T>, lt: spec_fn(T, T) -> bool) -> Seq<T>
    decreases s.len(),
{
    if s.len() == 0 {
        Seq::empty()
    } else {
        sorted_insert(stable_sort(s.drop_last(), lt), s.last(), lt)
    }
}

proof fn lemma_insert_at<T>(s: Seq<T>, x: T, lt: spec_fn(T, T) -> bool, j: int)
    requires
        0 <= j <= s.len(),
        forall|m: int| j <= m < s.len() ==> lt(x, #[trigger] s[m]),
        j == 0 || !lt(x, s[j - 1]),
    ensures
        sorted_insert(s, x, lt) == s.insert(j, x),
    decreases s.len(),
{
    if j == s.len() {
        assert(s.push(x) =~= s.insert(j, x));
    } else {
        assert(lt(x, s[s.len() - 1]));
        lemma_insert_at(s.drop_last(), x, lt, j);
        assert(s.drop_last().insert(j, x).push(s.last()) =~= s.insert(j, x));
    }
}

/// Sorts `v` stably by the strict order that `lt` computes.
pub fn stable_sort_by<T, F: Fn(&T, &T) -> bool>(v: Vec<T>, lt: &F, Ghost(order): Ghost<
    spec_fn(T, T) -> bool,
>) -> (r: Vec<T>)
    requires
        forall|a: &T, b: &T| #[trigger] lt.requires((a, b)),
        forall|a: &T, b: &T, c: bool| lt.ensures((a, b), c) ==> c == order(*a, *b),
    ensures
        r@ == stable_sort(v@, order),
{
    let ghost orig = v@;
    let n = v.len();
    assert(orig.len() == n);
    let mut v = v;
    let mut r: Vec<T> = Vec::new();
    let mut k: usize = 0;
    assert(orig.skip(0) == orig);
    while v.len() > 0
        invariant
            k <= orig.len() <= usize::MAX,
            v@ == orig.skip(k as int),
            r@ == stable_sort(orig.take(k as int), order),
            forall|a: &T, b: &T| #[trigger] lt.requires((a, b)),
            forall|a: &T, b: &T, c: bool| lt.ensures((a, b), c) ==> c == order(*a, *b),
        decreases v.len(),
    {
        let x = v.remove(0);
        assert(orig.take(k + 1).drop_last() == orig.take(k as int));
        assert(x == orig[k as int]);
        assert(v@ == orig.skip(k + 1));
        let mut j: usize = r.len();
        while j > 0 && lt(&x, &r[j - 1])
            invariant
                j <= r.len(),
                forall|m: int| j <= m < r.len() ==> order(x, #[trigger] r@[m]),
                forall|a: &T, b: &T| #[trigger] lt.requires((a, b)),
                forall|a: &T, b: &T, c: bool| lt.ensures((a, b), c) ==> c == order(*a, *b),
            decreases j,
        {
            j -= 1;
        }
        proof {
            lemma_insert_at(r@, x, order, j as int);
        }
        r.insert(j, x);
        k += 1;
    }
    assert(orig.take(k as int) == orig);
    r
}

proof fn lemma_insert_map<T, U>(
    s: Seq<T>,
    x: T,
    lt: spec_fn(T, T) -> bool,
    f: spec_fn(T) -> U,
    lt_u: spec_fn(U, U) -> bool,
)
    requires
        forall|a: T, b: T| #[trigger] lt(a, b) == lt_u(f(a), f(b)),
    ensures
        sorted_insert(s, x, lt).map_values(f) == sorted_insert(s.map_values(f), f(x), lt_u),
    decreases s.len(),
{
    if s.len() == 0 || !lt(x, s.last()) {
        assert(s.push(x).map_values(f) =~= s.map_values(f).push(f(x)));
        if s.len() > 0 {
            assert(s.map_values(f).last() == f(s.last()));
        }
    } else {
        lemma_insert_map(s.drop_last(), x, lt, f, lt_u);
        assert(s.map_values(f).drop_last() =~= s.drop_last().map_values(f));
        assert(s.map_values(f).last() == f(s.last()));
        assert(sorted_insert(s.drop_last(), x, lt).push(s.last()).map_values(f) =~= sorted_insert(
            s.drop_last(),
            x,
            lt,
        ).map_values(f).push(f(s.last())));
    }
}

/// Sorting commutes with a map that the order reads through.
pub proof fn lemma_sort_map<T, U>(
    s: Seq<T>,
    lt: spec_fn(T, T) -> bool,
    f: spec_fn(T) -> U,
    lt_u: spec_fn(U, U) -> bool,
)
    requires
        forall|a: T, b: T| #[trigger] lt(a, b) == lt_u(f(a), f(b)),
    ensures
        stable_sort(s, lt).map_values(f) == stable_sort(s.map_values(f), lt_u),
    decreases s.len(),
{
    if s.len() == 0 {
        assert(stable_sort(s, lt).map_values(f) =~= Seq::<U>::empty());
        assert(s.map_values(f) =~= Seq::<U>::empty());
    } else {
        lemma_sort_map(s.drop_last(), lt, f, lt_u);
        lemma_insert_map(stable_sort(s.drop_last(), lt), s.last(), lt, f, lt_u);
        assert(s.map_values(f).drop_last() =~= s.drop_last().map_values(f));
        assert(s.map_values(f).last() == f(s.last()));
    }
}

proof fn lemma_insert_elements<T>(s: Seq<T>, x: T, lt: spec_fn(T, T) -> bool)
    ensures
        sorted_insert(s, x, lt).len() == s.len() + 1,
        forall|i: int|
            0 <= i < sorted_insert(s, x, lt).len() ==> #[trigger] sorted_insert(s, x, lt)[i] == x
                || s.contains(sorted_insert(s, x, lt)[i]),
    decreases s.len(),
{
    if !(s.len() == 0 || !lt(x, s.last())) {
        let d = s.drop_last();
        lemma_insert_elements(d, x, lt);
        let r = sorted_insert(s, x, lt);
        assert forall|i: int| 0 <= i < r.len() implies #[trigger] r[i] == x || s.contains(r[i]) by {
            if i < r.len() - 1 {
                let e = sorted_insert(d, x, lt)[i];
                if e != x {
                    let j = choose|j: int| 0 <= j < d.len() && d[j] == e;
                    assert(s[j] == e);
                }
            } else {
                assert(s[s.len() - 1] == r[i]);
            }
        }
    } else {
        let r = sorted_insert(s, x, lt);
        assert forall|i: int| 0 <= i < r.len() implies #[trigger] r[i] == x || s.contains(r[i]) by {
            if i < s.len() {
                assert(s[i] == r[i]);
            }
        }
    }
}

/// Sorting keeps the elements: the sorted sequence is as long as the input
/// and every element of it is an element of the input.
pub proof fn lemma_sort_elements<T>(s: Seq<T>, lt: spec_fn(T, T) -> bool)
    ensures
        stable_sort(s, lt).len() == s.len(),
        forall|i: int| 0 <= i < s.len() ==> s.contains(#[trigger] stable_sort(s, lt)[i]),
    decreases s.len(),
{
    if s.len() > 0 {
        let d = s.drop_last();
        lemma_sort_elements(d, lt);
        lemma_insert_elements(stable_sort(d, lt), s.last(), lt);
        let r = stable_sort(s, lt);
        assert forall|i: int| 0 <= i < s.len() implies s.contains(#[trigger] r[i]) by {
            if r[i] == s.last() {
                assert(s[s.len() - 1] == r[i]);
            } else {
                let sd = stable_sort(d, lt);
                let j = choose|j: int| 0 <= j < sd.len() && sd[j] == r[i];
                let k = choose|k: int| 0 <= k < d.len() && d[k] == sd[j];
                assert(s[k] == r[i]);
            }
        }
    }
}

/// `lt` is a strict weak order: never both ways, and "not before" chains.
pub open spec fn strict_weak<T>(lt: spec_fn(T, T) -> bool) -> bool {
    &&& forall|a: T, b: T| #[trigger] lt(a, b) ==> !lt(b, a)
    &&& forall|a: T, b: T, c: T|
        #![trigger lt(a, b), lt(b, c)]
        !lt(a, b) && !lt(b, c) ==> !lt(a, c)
}

/// No element of `s` is strictly before an earlier one.
pub open spec fn sorted_by<T>(s: Seq<T>, lt: spec_fn(T, T) -> bool) -> bool {
    forall|i: int, j: int| 0 <= i < j < s.len() ==> !lt(#[trigger] s[j], #[trigger] s[i])
}

proof fn lemma_insert_sorted<T>(s: Seq<T>, x: T, lt: spec_fn(T, T) -> bool)
    requires
        strict_weak(lt),
        sorted_by(s, lt),
    ensures
        sorted_by(sorted_insert(s, x, lt), lt),
    decreases s.len(),
{
    lemma_insert_elements(s, x, lt);
    let r = sorted_insert(s, x, lt);
    if s.len() == 0 || !lt(x, s.last()) {
        assert forall|i: int, j: int| 0 <= i < j < r.len() implies !lt(#[trigger] r[j], #[trigger] r[i]) by {
            if j == s.len() {
                if i < s.len() - 1 {
                    assert(!lt(s[s.len() - 1], s[i]));
                    assert(!lt(x, s[s.len() - 1]));
                }
            } else {
                assert(r[i] == s[i] && r[j] == s[j]);
            }
        }
    } else {
        let d = s.drop_last();
        assert(sorted_by(d, lt)) by {
            assert forall|i: int, j: int| 0 <= i < j < d.len() implies !lt(#[trigger] d[j], #[trigger] d[i]) by {
                assert(d[i] == s[i] && d[j] == s[j]);
            }
        }
        lemma_insert_sorted(d, x, lt);
        lemma_insert_elements(d, x, lt);
        let di = sorted_insert(d, x, lt);
        assert forall|i: int, j: int| 0 <= i < j < r.len() implies !lt(#[trigger] r[j], #[trigger] r[i]) by {
            if j == r.len() - 1 {
                assert(r[j] == s.last());
                assert(r[i] == di[i]);
                if di[i] == x {
                    assert(lt(x, s.last()));
                } else {
                    let k = choose|k: int| 0 <= k < d.len() && d[k] == di[i];
                    assert(s[k] == d[k]);
                    assert(!lt(s[s.len() - 1], s[k]));
                }
            } else {
                assert(r[i] == di[i] && r[j] == di[j]);
            }
        }
    }
}

/// Under a strict weak order, a stable sort leaves no element strictly
/// before an earlier one.
pub proof fn lemma_sort_sorted<T>(s: Seq<T>, lt: spec_fn(T, T) -> bool)
    requires
        strict_weak(lt),
    ensures
        sorted_by(stable_sort(s, lt), lt),
    decreases s.len(),
{
    if s.len() > 0 {
        lemma_sort_sorted(s.drop_last(), lt);
        lemma_insert_sorted(stable_sort(s.drop_last(), lt), s.last(), lt);
    }
}

proof fn lemma_insert_multiset<T>(s: Seq<T>, x: T, lt: spec_fn(T, T) -> bool)
    ensures
        sorted_insert(s, x, lt).to_multiset() =~= s.to_multiset().insert(x),
    decreases s.len(),
{
    broadcast use vstd::seq_lib::group_to_multiset_ensures;
    broadcast use vstd::multiset::group_multiset_axioms;

    if !(s.len() == 0 || !lt(x, s.last())) {
        let d = s.drop_last();
        lemma_insert_multiset(d, x, lt);
        assert(s =~= d.push(s.last()));
    }
}

/// Sorting only reorders: the sorted sequence holds each element as often
/// as the input does.
pub proof fn lemma_sort_multiset<T>(s: Seq<T>, lt: spec_fn(T, T) -> bool)
    ensures
        stable_sort(s, lt).to_multiset() =~= s.to_multiset(),
    decreases s.len(),
{
    broadcast use vstd::seq_lib::group_to_multiset_ensures;
    broadcast use vstd::multiset::group_multiset_axioms;

    if s.len() > 0 {
        let d = s.drop_last();
        lemma_sort_multiset(d, lt);
        lemma_insert_multiset(stable_sort(d, lt), s.last(), lt);
        assert(s =~= d.push(s.last()));
    }
}

/// Two sequences with the same elements, each ordered by `lt` and with any
/// two of its elements ordered one way or the other, are the same.
pub proof fn lemma_sorted_same_elements<T>(a: Seq<T>, b: Seq<T>, lt: spec_fn(T, T) -> bool)
    requires
        strict_weak(lt),
        a.to_multiset() == b.to_multiset(),
        sorted_by(a, lt),
        sorted_by(b, lt),
        forall|i: int, j: int| 0 <= i < j < a.len() ==> lt(#[trigger] a[i], #[trigger] a[j]) || lt(a[j], a[i]),
        forall|i: int, j: int| 0 <= i < j < b.len() ==> lt(#[trigger] b[i], #[trigger] b[j]) || lt(b[j], b[i]),
    ensures
        a == b,
    decreases a.len(),
{
    broadcast use vstd::seq_lib::group_to_multiset_ensures;
    broadcast use vstd::multiset::group_multiset_axioms;

    vstd::seq_lib::to_multiset_len(a);
    vstd::seq_lib::to_multiset_len(b);
    assert(a.len() == b.len());
    if a.len() == 0 {
        assert(a =~= b);
    } else {
        let n = a.len() - 1;
        let x = a[n];
        let y = b[n];
        assert(b.to_multiset().count(x) > 0) by {
            assert(a.contains(x));
        }
        if x != y {
            assert(b.contains(x));
            let j = choose|j: int| 0 <= j < b.len() && b[j] == x;
            assert(j != n);
            assert(lt(b[j], b[n]) || lt(b[n], b[j]));
            assert(!lt(b[n], b[j]));
            assert(a.to_multiset().count(y) > 0) by {
                assert(b.contains(y));
            }
            assert(a.contains(y));
            let i = choose|i: int| 0 <= i < a.len() && a[i] == y;
            assert(i != n);
            assert(lt(a[i], a[n]) || lt(a[n], a[i]));
            assert(!lt(a[n], a[i]));
            assert(false);
        }
        let a1 = a.drop_last();
        let b1 = b.drop_last();
        assert(a.remove(n) =~= a1);
        assert(b.remove(n) =~= b1);
        assert(a1.to_multiset() == b1.to_multiset());
        assert forall|i: int, j: int| 0 <= i < j < a1.len() implies !lt(#[trigger] a1[j], #[trigger] a1[i]) by {
            assert(a1[i] == a[i] && a1[j] == a[j]);
        }
        assert forall|i: int, j: int| 0 <= i < j < b1.len() implies !lt(#[trigger] b1[j], #[trigger] b1[i]) by {
            assert(b1[i] == b[i] && b1[j] == b[j]);
        }
        assert forall|i: int, j: int| 0 <= i < j < a1.len() implies lt(#[trigger] a1[i], #[trigger] a1[j]) || lt(a1[j], a1[i]) by {
            assert(a1[i] == a[i] && a1[j] == a[j]);
        }
        assert forall|i: int, j: int| 0 <= i < j < b1.len() implies lt(#[trigger] b1[i], #[trigger] b1[j]) || lt(b1[j], b1[i]) by {
            assert(b1[i] == b[i] && b1[j] == b[j]);
        }
        lemma_sorted_same_elements(a1, b1, lt);
        assert(a =~= a1.push(x));
        assert(b =~= b1.push(y));
    }
}

/// An element at two places of `s` is counted at least twice.
pub proof fn lemma_count_repeated<T>(s: Seq<T>, i: int, j: int)
    requires
        0 <= i < s.len(),
        0 <= j < s.len(),
        i != j,
        s[i] == s[j],
    ensures
        s.to_multiset().count(s[i]) >= 2,
{
    broadcast use vstd::seq_lib::group_to_multiset_ensures;
    broadcast use vstd::multiset::group_multiset_axioms;

    let x = s[i];
    let r = s.remove(i);
    let k = if j < i { j } else { j - 1 };
    assert(0 <= k < r.len());
    assert(r[k] == s[j]);
    assert(r.contains(x));
    assert(r.to_multiset().count(x) > 0);
    assert(r.to_multiset() == s.to_multiset().remove(x));
    assert(s.to_multiset().remove(x).count(x) > 0);
    assert(vstd::multiset::Multiset::singleton(x).count(x) == 1);
}

/// An element found at one place only of `s` is counted once.
pub proof fn lemma_count_single<T>(s: Seq<T>, p: int)
    requires
        0 <= p < s.len(),
        forall|q: int| 0 <= q < s.len() && q != p ==> s[q] != s[p],
    ensures
        s.to_multiset().count(s[p]) == 1,
{
    broadcast use vstd::seq_lib::group_to_multiset_ensures;
    broadcast use vstd::multiset::group_multiset_axioms;

    let x = s[p];
    let r = s.remove(p);
    assert forall|k: int| 0 <= k < r.len() implies r[k] != x by {
        if k < p {
            assert(r[k] == s[k]);
        } else {
            assert(k + 1 < s.len());
            assert(r[k] == s[k + 1]);
        }
    }
    assert(!r.contains(x));
    assert(r.to_multiset().count(x) == 0);
    assert(r.to_multiset() == s.to_multiset().remove(x));
    assert(s.contains(x));
    assert(s.to_multiset().count(x) > 0);
    assert(vstd::multiset::Multiset::singleton(x).count(x) == 1);
}

} // verus!
