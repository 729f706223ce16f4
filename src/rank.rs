use crate::error::PipelineError;
use crate::metrics::AggregatePoint;
use crate::ordering::{
    is_stable_sort, key_is, lemma_insert_sorted, lemma_stable_sort_unique, lemma_stable_sorted,
    sorted_by, stable_sorted,
};
use crate::rollup::RollupEntry;
use vstd::prelude::*;

verus! {

/// The ranking key of a rollup entry: entries are ranked by `(sum, max)`
/// compared lexicographically, highest first, so the key grows as the pair
/// falls.
pub open spec fn rank_key() -> spec_fn(RollupEntry) -> int {
    |e: RollupEntry| -(e.sum as int * (usize::MAX as int + 1) + e.max as int)
}

/// Whether `a` ranks strictly above `b`.
pub open spec fn ranks_above(a: RollupEntry, b: RollupEntry) -> bool {
    a.sum > b.sum || (a.sum == b.sum && a.max > b.max)
}

/// The rollup entries ranked by `(sum, max)`, highest first. Entries with
/// equal pairs keep their order in the rollup, which is the order in which
/// the day first observed their gamemodes.
pub open spec fn ranked(rollup: Seq<RollupEntry>) -> Seq<RollupEntry> {
    stable_sorted(rollup, rank_key())
}

/// What is left of `s` after dropping `skip` elements and keeping at most
/// `take` of the rest.
pub open spec fn window<T>(s: Seq<T>, skip: int, take: int) -> Seq<T> {
    if skip >= s.len() {
        Seq::empty()
    } else if skip + take >= s.len() {
        s.subrange(skip, s.len() as int)
    } else {
        s.subrange(skip, skip + take)
    }
}

/// The gamemodes chosen for presentation.
pub open spec fn selection(rollup: Seq<RollupEntry>, skip: int, take: int) -> Seq<RollupEntry> {
    window(ranked(rollup), skip, take)
}

proof fn lemma_rank_key_order(a: RollupEntry, b: RollupEntry)
    ensures
        (rank_key())(a) > (rank_key())(b) <==> ranks_above(b, a),
        (rank_key())(a) == (rank_key())(b) <==> (a.sum == b.sum && a.max == b.max),
{
    let m = usize::MAX as int + 1;
    let (sa, ma, sb, mb) = (a.sum as int, a.max as int, b.sum as int, b.max as int);
    assert(sa * m + ma < sb * m + mb <==> (sa < sb || (sa == sb && ma < mb))) by (nonlinear_arith)
        requires
            0 <= ma < m,
            0 <= mb < m,
            0 <= sa,
            0 <= sb,
    ;
    assert(sa * m + ma == sb * m + mb <==> (sa == sb && ma == mb)) by (nonlinear_arith)
        requires
            0 <= ma < m,
            0 <= mb < m,
            0 <= sa,
            0 <= sb,
    ;
}

fn copy_entry(e: &RollupEntry) -> (r: RollupEntry)
    ensures
        r == *e,
{
    RollupEntry { label: e.label.clone(), sum: e.sum, max: e.max }
}

fn sort_ranked(entries: Vec<RollupEntry>) -> (r: Vec<RollupEntry>)
    ensures
        r@ == ranked(entries@),
{
    let ghost orig = entries@;
    let mut input = entries;
    let mut out: Vec<RollupEntry> = Vec::new();
    let ghost mut done: nat = 0;
    proof {
        reveal(Seq::filter);
        assert(orig.take(0) == Seq::<RollupEntry>::empty());
    }
    while input.len() > 0
        invariant
            done + input@.len() == orig.len(),
            input@ == orig.skip(done as int),
            is_stable_sort(orig.take(done as int), out@, rank_key()),
        decreases input@.len(),
    {
        let x = input.remove(0);
        let mut p = out.len();
        while p > 0 && (out[p - 1].sum < x.sum || (out[p - 1].sum == x.sum && out[p - 1].max
            < x.max))
            invariant
                p <= out@.len(),
                sorted_by(out@, rank_key()),
                forall|j: int| p <= j < out@.len() ==> (rank_key())(out@[j]) > (rank_key())(x),
            decreases p,
        {
            proof {
                lemma_rank_key_order(out@[p - 1], x);
            }
            p = p - 1;
        }
        proof {
            if p > 0 {
                lemma_rank_key_order(out@[p - 1], x);
            }
            assert forall|j: int| 0 <= j < p implies (rank_key())(out@[j]) <= (rank_key())(x) by {
                assert((rank_key())(out@[j]) <= (rank_key())(out@[p - 1]));
            }
            lemma_insert_sorted(out@, p as int, x, rank_key());
            assert(orig.take(done as int + 1) == orig.take(done as int).push(x));
            assert forall|k: int| #[trigger] orig.take(done as int + 1).filter(key_is(rank_key(), k))
                == out@.insert(p as int, x).filter(key_is(rank_key(), k)) by {
                orig.take(done as int).lemma_filter_push(x, key_is(rank_key(), k));
                out@.lemma_filter_push(x, key_is(rank_key(), k));
            }
        }
        out.insert(p, x);
        proof {
            done = done + 1;
        }
    }
    proof {
        assert(orig.take(done as int) == orig);
        lemma_stable_sorted(orig, rank_key());
        lemma_stable_sort_unique(orig, out@, ranked(orig), rank_key());
    }
    out
}

/// Ranks the gamemodes of a rollup by `(sum, max)`, highest first, drops
/// the first `skip` and keeps at most `take` of the rest.
pub fn rank_gamemodes(rollup: &Vec<RollupEntry>, skip: usize, take: usize) -> (r: Vec<RollupEntry>)
    ensures
        r@ == selection(rollup@, skip as int, take as int),
{
    let mut copies: Vec<RollupEntry> = Vec::new();
    let mut i: usize = 0;
    while i < rollup.len()
        invariant
            i <= rollup.len(),
            copies@ == rollup@.take(i as int),
        decreases rollup.len() - i,
    {
        copies.push(copy_entry(&rollup[i]));
        proof {
            assert(rollup@.take(i + 1) == rollup@.take(i as int).push(rollup@[i as int]));
        }
        i = i + 1;
    }
    proof {
        assert(rollup@.take(i as int) == rollup@);
        lemma_stable_sorted(rollup@, rank_key());
    }
    let all = sort_ranked(copies);
    let n = all.len();
    let mut out: Vec<RollupEntry> = Vec::new();
    if skip >= n {
        return out;
    }
    let end = if take >= n - skip {
        n
    } else {
        skip + take
    };
    let mut k: usize = skip;
    while k < end
        invariant
            skip <= k <= end <= n,
            n == all@.len(),
            out@ == all@.subrange(skip as int, k as int),
        decreases end - k,
    {
        out.push(copy_entry(&all[k]));
        proof {
            assert(all@.subrange(skip as int, k + 1) == all@.subrange(skip as int, k as int).push(
                all@[k as int],
            ));
        }
        k = k + 1;
    }
    out
}

/// Windowing of the ranking: with nothing skipped, the selection is the
/// first `min(take, n)` ranked gamemodes of the `n` in the rollup; skipping
/// `n` or more, or taking none, selects nothing; and a selection never
/// lists a gamemode before one that ranks above it.
pub proof fn lemma_selection_window(rollup: Seq<RollupEntry>, skip: int, take: int)
    requires
        skip >= 0,
        take >= 0,
    ensures
        ranked(rollup).len() == rollup.len(),
        selection(rollup, 0, take).len() == if take < rollup.len() {
            take
        } else {
            rollup.len() as int
        },
        selection(rollup, 0, take) == ranked(rollup).take(selection(rollup, 0, take).len() as int),
        skip >= rollup.len() ==> selection(rollup, skip, take).len() == 0,
        take == 0 ==> selection(rollup, skip, take).len() == 0,
        forall|i: int, j: int|
            0 <= i < j < selection(rollup, skip, take).len() ==> !ranks_above(
                #[trigger] selection(rollup, skip, take)[j],
                #[trigger] selection(rollup, skip, take)[i],
            ),
{
    lemma_stable_sorted(rollup, rank_key());
    let r = ranked(rollup);
    let s = selection(rollup, skip, take);
    assert forall|i: int, j: int| 0 <= i < j < s.len() implies !ranks_above(
        #[trigger] s[j],
        #[trigger] s[i],
    ) by {
        assert(s[i] == r[skip + i] && s[j] == r[skip + j]);
        assert((rank_key())(r[skip + i]) <= (rank_key())(r[skip + j]));
        lemma_rank_key_order(s[i], s[j]);
    }
}

/// Largest total over the points; zero for none.
pub open spec fn max_total(points: Seq<AggregatePoint>) -> nat
    decreases points.len(),
{
    if points.len() == 0 {
        0
    } else {
        let m = max_total(points.drop_last());
        if points.last().total > m {
            points.last().total as nat
        } else {
            m
        }
    }
}

/// Largest peak over the selected gamemodes; zero for none.
pub open spec fn max_peak(selected: Seq<RollupEntry>) -> nat
    decreases selected.len(),
{
    if selected.len() == 0 {
        0
    } else {
        let m = max_peak(selected.drop_last());
        if selected.last().max > m {
            selected.last().max as nat
        } else {
            m
        }
    }
}

/// The largest value that the chart shows: the peak of the selected
/// gamemodes where the totals are hidden, else the largest total.
pub open spec fn axis_max(hide_totals: bool, points: Seq<AggregatePoint>, selected: Seq<RollupEntry>) -> nat {
    if hide_totals {
        max_peak(selected)
    } else {
        max_total(points)
    }
}

/// Upper bound of the chart's vertical axis: one above `axis_max`. Fails
/// only where that does not fit in a `usize`.
pub fn axis_upper_bound(hide_totals: bool, points: &Vec<AggregatePoint>, selected: &Vec<RollupEntry>) -> (r:
    Result<usize, PipelineError>)
    ensures
        axis_max(hide_totals, points@, selected@) < usize::MAX ==> r == Ok::<usize, PipelineError>(
            (axis_max(hide_totals, points@, selected@) + 1) as usize,
        ),
        axis_max(hide_totals, points@, selected@) >= usize::MAX ==> r == Err::<usize, PipelineError>(
            PipelineError::CountOverflow,
        ),
{
    let mut m: usize = 0;
    if hide_totals {
        let mut i: usize = 0;
        while i < selected.len()
            invariant
                i <= selected.len(),
                m == max_peak(selected@.take(i as int)),
            decreases selected.len() - i,
        {
            proof {
                assert(selected@.take(i + 1).drop_last() == selected@.take(i as int));
            }
            if selected[i].max > m {
                m = selected[i].max;
            }
            i = i + 1;
        }
        proof {
            assert(selected@.take(i as int) == selected@);
        }
    } else {
        let mut i: usize = 0;
        while i < points.len()
            invariant
                i <= points.len(),
                m == max_total(points@.take(i as int)),
            decreases points.len() - i,
        {
            proof {
                assert(points@.take(i + 1).drop_last() == points@.take(i as int));
            }
            if points[i].total > m {
                m = points[i].total;
            }
            i = i + 1;
        }
        proof {
            assert(points@.take(i as int) == points@);
        }
    }
    match m.checked_add(1) {
        Some(b) => Ok(b),
        None => Err(PipelineError::CountOverflow),
    }
}

} // verus!
