use crate::metrics::AggregatePoint;
use crate::ordering::{
    is_stable_sort, key_is, lemma_insert_sorted, lemma_stable_sort_unique, lemma_stable_sorted,
    sorted_by, stable_sorted,
};
use vstd::prelude::*;

verus! {

/// The time of day of a point, as the key that orders a day's points.
pub open spec fn by_time() -> spec_fn(AggregatePoint) -> int {
    |p: AggregatePoint| p.time as int
}

/// The points of a day put in time order; points with equal times keep
/// their relative order.
pub open spec fn sorted_by_time(points: Seq<AggregatePoint>) -> Seq<AggregatePoint> {
    stable_sorted(points, by_time())
}

/// Puts the points of a day in time order, keeping the relative order of
/// points with equal times.
pub fn sort_points(points: Vec<AggregatePoint>) -> (r: Vec<AggregatePoint>)
    ensures
        is_stable_sort(points@, r@, by_time()),
        r@ == sorted_by_time(points@),
{
    let ghost orig = points@;
    let mut input = points;
    let mut out: Vec<AggregatePoint> = Vec::new();
    let ghost mut done: nat = 0;
    proof {
        reveal(Seq::filter);
        assert(orig.take(0) == Seq::<AggregatePoint>::empty());
    }
    while input.len() > 0
        invariant
            done + input@.len() == orig.len(),
            input@ == orig.skip(done as int),
            is_stable_sort(orig.take(done as int), out@, by_time()),
        decreases input@.len(),
    {
        let x = input.remove(0);
        let mut p = out.len();
        while p > 0 && out[p - 1].time > x.time
            invariant
                p <= out@.len(),
                sorted_by(out@, by_time()),
                forall|j: int| p <= j < out@.len() ==> out@[j].time > x.time,
            decreases p,
        {
            p = p - 1;
        }
        proof {
            assert forall|j: int| 0 <= j < p implies (by_time())(out@[j]) <= (by_time())(x) by {
                assert((by_time())(out@[j]) <= (by_time())(out@[p - 1]));
            }
            lemma_insert_sorted(out@, p as int, x, by_time());
            assert(orig.take(done as int + 1) == orig.take(done as int).push(x));
            assert forall|k: int| #[trigger] orig.take(done as int + 1).filter(
                key_is(by_time(), k),
            ) == out@.insert(p as int, x).filter(key_is(by_time(), k)) by {
                orig.take(done as int).lemma_filter_push(x, key_is(by_time(), k));
                out@.lemma_filter_push(x, key_is(by_time(), k));
            }
        }
        out.insert(p, x);
        proof {
            done = done + 1;
        }
    }
    proof {
        assert(orig.take(done as int) == orig);
        lemma_stable_sorted(orig, by_time());
        lemma_stable_sort_unique(orig, out@, sorted_by_time(orig), by_time());
    }
    out
}

} // verus!
