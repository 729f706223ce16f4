//! Stable sorting by an integer key, stated without reference to any
//! particular sorting algorithm: the output is ordered by the key, and for
//! every key value the elements that carry it appear in the same relative
//! order as in the input.
use vstd::prelude::*;

verus! {

/// Holds of the elements whose key is `k`.
pub open spec fn key_is<T>(key: spec_fn(T) -> int, k: int) -> spec_fn(T) -> bool {
    |x: T| key(x) == k
}

/// Whether the keys of `s` never decrease.
pub open spec fn sorted_by<T>(s: Seq<T>, key: spec_fn(T) -> int) -> bool {
    forall|i: int, j: int| 0 <= i < j < s.len() ==> key(s[i]) <= key(s[j])
}

/// Whether, for every key value, `a` and `b` hold the same elements with
/// that key in the same order.
pub open spec fn same_runs<T>(a: Seq<T>, b: Seq<T>, key: spec_fn(T) -> int) -> bool {
    forall|k: int| #[trigger] a.filter(key_is(key, k)) == b.filter(key_is(key, k))
}

/// Whether `output` is `input` stably sorted by `key`.
pub open spec fn is_stable_sort<T>(input: Seq<T>, output: Seq<T>, key: spec_fn(T) -> int) -> bool {
    sorted_by(output, key) && same_runs(input, output, key)
}

pub proof fn lemma_filter_none<T>(s: Seq<T>, pred: spec_fn(T) -> bool)
    requires
        forall|i: int| 0 <= i < s.len() ==> !pred(s[i]),
    ensures
        s.filter(pred) == Seq::<T>::empty(),
    decreases s.len(),
{
    reveal(Seq::filter);
    if s.len() > 0 {
        lemma_filter_none(s.drop_last(), pred);
    }
}

/// Inserting `x` after every element with a key no larger than its own and
/// before every element with a larger key keeps the order, and adds `x` at
/// the end of the run of its key.
pub proof fn lemma_insert_sorted<T>(s: Seq<T>, p: int, x: T, key: spec_fn(T) -> int)
    requires
        sorted_by(s, key),
        0 <= p <= s.len(),
        forall|i: int| 0 <= i < p ==> key(s[i]) <= key(x),
        forall|i: int| p <= i < s.len() ==> key(s[i]) > key(x),
    ensures
        sorted_by(s.insert(p, x), key),
        forall|k: int| #[trigger] s.insert(p, x).filter(key_is(key, k)) == s.push(x).filter(key_is(key, k)),
{
    let r = s.insert(p, x);
    assert(r == s.take(p) + seq![x] + s.skip(p));
    assert(s == s.take(p) + s.skip(p));
    assert forall|k: int| #[trigger] r.filter(key_is(key, k)) == s.push(x).filter(key_is(key, k)) by {
        let pr = key_is(key, k);
        let a = s.take(p);
        let b = s.skip(p);
        Seq::filter_distributes_over_add(a + seq![x], b, pr);
        Seq::filter_distributes_over_add(a, seq![x], pr);
        Seq::filter_distributes_over_add(a, b, pr);
        s.lemma_filter_push(x, pr);
        reveal(Seq::filter);
        assert(seq![x].drop_last() == Seq::<T>::empty());
        assert(Seq::<T>::empty().filter(pr) == Seq::<T>::empty());
        if key(x) == k {
            lemma_filter_none(b, pr);
            assert(seq![x].filter(pr) == seq![x]);
            assert(r.filter(pr) == a.filter(pr) + seq![x] + Seq::<T>::empty());
            assert(s.filter(pr) == a.filter(pr) + Seq::<T>::empty());
            assert(r.filter(pr) =~= s.filter(pr).push(x));
        } else {
            assert(seq![x].filter(pr) == Seq::<T>::empty());
            assert(r.filter(pr) == a.filter(pr) + Seq::<T>::empty() + b.filter(pr));
            assert(r.filter(pr) =~= s.filter(pr));
        }
    }
}

/// Two sequences ordered by the same key, with the same runs for every key
/// value, are equal.
pub proof fn lemma_sorted_runs_unique<T>(a: Seq<T>, b: Seq<T>, key: spec_fn(T) -> int)
    requires
        sorted_by(a, key),
        sorted_by(b, key),
        same_runs(a, b, key),
    ensures
        a == b,
    decreases a.len() + b.len(),
{
    reveal(Seq::filter);
    if a.len() == 0 && b.len() == 0 {
        assert(a == b);
    } else if a.len() == 0 || b.len() == 0 {
        let (e, f) = if a.len() == 0 { (b, a) } else { (a, b) };
        let pr = key_is(key, key(e.last()));
        lemma_filter_none(f, pr);
        assert(a.filter(pr) == b.filter(pr));
        assert(e.filter(pr).len() > 0);
    } else {
        let ka = key(a.last());
        let kb = key(b.last());
        if ka != kb {
            let (e, f) = if ka > kb { (a, b) } else { (b, a) };
            let pr = key_is(key, key(e.last()));
            assert forall|i: int| 0 <= i < f.len() implies !pr(f[i]) by {
                if i < f.len() - 1 {
                    assert(key(f[i]) <= key(f.last()));
                }
            }
            lemma_filter_none(f, pr);
            assert(a.filter(pr) == b.filter(pr));
            assert(e.filter(pr).len() > 0);
        } else {
            let pa = a.drop_last();
            let pb = b.drop_last();
            assert forall|k: int| #[trigger] pa.filter(key_is(key, k)) == pb.filter(key_is(key, k)) by {
                assert(a.filter(key_is(key, k)) == b.filter(key_is(key, k)));
                if k == ka {
                    assert(pa.filter(key_is(key, k)) == a.filter(key_is(key, k)).drop_last());
                    assert(pb.filter(key_is(key, k)) == b.filter(key_is(key, k)).drop_last());
                }
            }
            let pr = key_is(key, ka);
            assert(a.filter(pr) == b.filter(pr));
            assert(a.filter(pr).last() == a.last());
            assert(b.filter(pr).last() == b.last());
            lemma_sorted_runs_unique(pa, pb, key);
            assert(a == pa.push(a.last()));
            assert(b == pb.push(b.last()));
        }
    }
}

/// A stable sort has exactly one result.
pub proof fn lemma_stable_sort_unique<T>(
    input: Seq<T>,
    a: Seq<T>,
    b: Seq<T>,
    key: spec_fn(T) -> int,
)
    requires
        is_stable_sort(input, a, key),
        is_stable_sort(input, b, key),
    ensures
        a == b,
{
    assert forall|k: int| #[trigger] a.filter(key_is(key, k)) == b.filter(key_is(key, k)) by {
        assert(input.filter(key_is(key, k)) == a.filter(key_is(key, k)));
        assert(input.filter(key_is(key, k)) == b.filter(key_is(key, k)));
    }
    lemma_sorted_runs_unique(a, b, key);
}

/// Where an element of key `k` goes in an ordered `s` so that it follows
/// every element of key at most `k` and precedes every larger one.
pub open spec fn insert_position<T>(s: Seq<T>, k: int, key: spec_fn(T) -> int) -> int
    decreases s.len(),
{
    if s.len() == 0 || key(s.last()) <= k {
        s.len() as int
    } else {
        insert_position(s.drop_last(), k, key)
    }
}

/// `s` stably sorted by `key`.
pub open spec fn stable_sorted<T>(s: Seq<T>, key: spec_fn(T) -> int) -> Seq<T>
    decreases s.len(),
{
    if s.len() == 0 {
        s
    } else {
        let r = stable_sorted(s.drop_last(), key);
        r.insert(insert_position(r, key(s.last()), key), s.last())
    }
}

proof fn lemma_insert_position<T>(s: Seq<T>, k: int, key: spec_fn(T) -> int)
    requires
        sorted_by(s, key),
    ensures
        0 <= insert_position(s, k, key) <= s.len(),
        forall|i: int| 0 <= i < insert_position(s, k, key) ==> key(s[i]) <= k,
        forall|i: int| insert_position(s, k, key) <= i < s.len() ==> key(s[i]) > k,
    decreases s.len(),
{
    if s.len() > 0 {
        if key(s.last()) <= k {
            assert forall|i: int| 0 <= i < s.len() implies key(s[i]) <= k by {
                if i < s.len() - 1 {
                    assert(key(s[i]) <= key(s.last()));
                }
            }
        } else {
            let d = s.drop_last();
            lemma_insert_position(d, k, key);
            assert forall|i: int| 0 <= i < d.len() implies s[i] == d[i] by {}
        }
    }
}

/// `stable_sorted` is a stable sort, and keeps the length.
pub proof fn lemma_stable_sorted<T>(s: Seq<T>, key: spec_fn(T) -> int)
    ensures
        is_stable_sort(s, stable_sorted(s, key), key),
        stable_sorted(s, key).len() == s.len(),
    decreases s.len(),
{
    reveal(Seq::filter);
    if s.len() > 0 {
        let d = s.drop_last();
        let x = s.last();
        let r = stable_sorted(d, key);
        lemma_stable_sorted(d, key);
        lemma_insert_position(r, key(x), key);
        let p = insert_position(r, key(x), key);
        lemma_insert_sorted(r, p, x, key);
        assert(s == d.push(x));
        assert forall|k: int| #[trigger] s.filter(key_is(key, k)) == r.insert(p, x).filter(
            key_is(key, k),
        ) by {
            d.lemma_filter_push(x, key_is(key, k));
            r.lemma_filter_push(x, key_is(key, k));
        }
    }
}

/// Every element of a stable sort's output comes from its input.
pub proof fn lemma_stable_sort_members<T>(input: Seq<T>, output: Seq<T>, key: spec_fn(T) -> int)
    requires
        same_runs(input, output, key),
    ensures
        forall|i: int| 0 <= i < output.len() ==> input.contains(#[trigger] output[i]),
{
    assert forall|i: int| 0 <= i < output.len() implies input.contains(#[trigger] output[i]) by {
        let pr = key_is(key, key(output[i]));
        output.lemma_filter_contains(pr, i);
        assert(input.filter(pr) == output.filter(pr));
        input.lemma_filter_contains_rev(pr, output[i]);
    }
}

} // verus!
