use crate::error::PipelineError;
use crate::metrics::{modes_view, AggregatePoint, ModeCount};
use crate::snapshot::{count_in, label_index, labels_unique, lemma_label_index};
use vstd::prelude::*;

verus! {

/// One gamemode's figures over a day: the sum of its per-instant counts and
/// its peak concurrency.
#[derive(Clone, Debug)]
pub struct RollupEntry {
    pub label: String,
    pub sum: usize,
    pub max: usize,
}

/// A day rollup as labels with `(sum, max)` pairs.
pub type RollupModel = Seq<(Seq<char>, (nat, nat))>;

pub open spec fn rollup_view(v: Seq<RollupEntry>) -> RollupModel {
    v.map_values(|e: RollupEntry| (e.label@, (e.sum as nat, e.max as nat)))
}

pub open spec fn max_nat(a: nat, b: nat) -> nat {
    if a >= b {
        a
    } else {
        b
    }
}

/// Records that `label` was observed with count `n` at one instant: its
/// sum grows by `n` and its peak becomes at least `n`. A label not listed
/// yet is appended with `(n, n)`; no other label is touched.
pub open spec fn add_observation(r: RollupModel, label: Seq<char>, n: nat) -> RollupModel {
    match label_index(r, label) {
        Some(i) => r.update(i as int, (label, (r[i as int].1.0 + n, max_nat(r[i as int].1.1, n)))),
        None => r.push((label, (n, n))),
    }
}

/// Records every gamemode count of one point, in the point's order.
pub open spec fn add_point_modes(r: RollupModel, modes: Seq<(Seq<char>, nat)>) -> RollupModel
    decreases modes.len(),
{
    if modes.len() == 0 {
        r
    } else {
        let prev = add_point_modes(r, modes.drop_last());
        add_observation(prev, modes.last().0, modes.last().1)
    }
}

/// The rollup of a day's points, taken in the given order; gamemodes are
/// listed in order of first observation.
pub open spec fn rollup_of(points: Seq<AggregatePoint>) -> RollupModel
    decreases points.len(),
{
    if points.len() == 0 {
        Seq::empty()
    } else {
        add_point_modes(rollup_of(points.drop_last()), modes_view(points.last().game_types@))
    }
}

/// Whether every sum of a rollup fits in a `usize`.
pub open spec fn rollup_fits(r: RollupModel) -> bool {
    forall|i: int| 0 <= i < r.len() ==> #[trigger] r[i].1.0 <= usize::MAX
}

/// `b` lists the labels of `a` at the same positions, perhaps followed by
/// more, and no sum of `b` is below the one of `a`.
pub open spec fn grows(a: RollupModel, b: RollupModel) -> bool {
    &&& a.len() <= b.len()
    &&& forall|i: int| #![trigger a[i]] 0 <= i < a.len() ==> b[i].0 == a[i].0 && b[i].1.0 >= a[i].1.0
}

proof fn lemma_grows_trans(a: RollupModel, b: RollupModel, c: RollupModel)
    requires
        grows(a, b),
        grows(b, c),
    ensures
        grows(a, c),
{
    assert forall|i: int| #![trigger a[i]] 0 <= i < a.len() implies c[i].0 == a[i].0 && c[i].1.0 >= a[i].1.0 by {
        assert(b[i].0 == a[i].0 && b[i].1.0 >= a[i].1.0);
        assert(c[i].0 == b[i].0 && c[i].1.0 >= b[i].1.0);
    }
}

proof fn lemma_observation_grows(r: RollupModel, label: Seq<char>, n: nat)
    ensures
        grows(r, add_observation(r, label, n)),
        labels_unique(r) ==> labels_unique(add_observation(r, label, n)),
{
    lemma_label_index(r, label);
}

proof fn lemma_modes_prefix_grows(r: RollupModel, m: Seq<(Seq<char>, nat)>, j: int)
    requires
        0 <= j <= m.len(),
    ensures
        grows(add_point_modes(r, m.take(j)), add_point_modes(r, m)),
        labels_unique(r) ==> labels_unique(add_point_modes(r, m)),
    decreases m.len(),
{
    if m.len() == 0 {
        assert(m.take(j) == m);
    } else {
        let prev = add_point_modes(r, m.drop_last());
        lemma_observation_grows(prev, m.last().0, m.last().1);
        if j == m.len() {
            assert(m.take(j) == m);
            lemma_modes_prefix_grows(r, m.drop_last(), 0);
        } else {
            assert(m.drop_last().take(j) == m.take(j));
            lemma_modes_prefix_grows(r, m.drop_last(), j);
            lemma_grows_trans(add_point_modes(r, m.take(j)), prev, add_point_modes(r, m));
        }
    }
}

proof fn lemma_rollup_prefix_grows(points: Seq<AggregatePoint>, i: int)
    requires
        0 <= i <= points.len(),
    ensures
        grows(rollup_of(points.take(i)), rollup_of(points)),
        labels_unique(rollup_of(points)),
    decreases points.len(),
{
    if points.len() == 0 {
        assert(points.take(i) == points);
    } else {
        let prev = rollup_of(points.drop_last());
        let m = modes_view(points.last().game_types@);
        lemma_rollup_prefix_grows(points.drop_last(), if i == points.len() { 0 } else { i });
        lemma_modes_prefix_grows(prev, m, 0);
        assert(m.take(0) == Seq::<(Seq<char>, nat)>::empty());
        if i == points.len() {
            assert(points.take(i) == points);
        } else {
            assert(points.drop_last().take(i) == points.take(i));
            lemma_grows_trans(rollup_of(points.take(i)), prev, rollup_of(points));
        }
    }
}

proof fn lemma_unique_entry(m: RollupModel, label: Seq<char>, j: int)
    requires
        labels_unique(m),
        0 <= j < m.len(),
        m[j].0 == label,
    ensures
        label_index(m, label) == Some(j as nat),
    decreases m.len(),
{
    if j < m.len() - 1 {
        assert(m.drop_last()[j] == m[j]);
        lemma_unique_entry(m.drop_last(), label, j);
    }
}

fn find_entry(entries: &Vec<RollupEntry>, label: &String) -> (r: Option<usize>)
    requires
        labels_unique(rollup_view(entries@)),
    ensures
        match r {
            Some(j) => label_index(rollup_view(entries@), label@) == Some(j as nat),
            None => label_index(rollup_view(entries@), label@) is None,
        },
{
    let mut j: usize = 0;
    while j < entries.len()
        invariant
            j <= entries.len(),
            labels_unique(rollup_view(entries@)),
            forall|k: int| 0 <= k < j ==> rollup_view(entries@)[k].0 != label@,
        decreases entries.len() - j,
    {
        if entries[j].label == *label {
            proof {
                lemma_unique_entry(rollup_view(entries@), label@, j as int);
            }
            return Some(j);
        }
        j = j + 1;
    }
    proof {
        lemma_label_index(rollup_view(entries@), label@);
        match label_index(rollup_view(entries@), label@) {
            Some(i) => {
                assert(rollup_view(entries@)[i as int].0 == label@);
            },
            None => {},
        }
    }
    None
}

/// Rolls a day's points up per gamemode, in the order given. Fails exactly
/// where some gamemode's sum does not fit in a `usize`.
pub fn compute_rollup(points: &Vec<AggregatePoint>) -> (r: Result<Vec<RollupEntry>, PipelineError>)
    ensures
        rollup_fits(rollup_of(points@)) ==> (r matches Ok(v) && rollup_view(v@) == rollup_of(
            points@,
        )),
        !rollup_fits(rollup_of(points@)) ==> r == Err::<Vec<RollupEntry>, PipelineError>(
            PipelineError::CountOverflow,
        ),
{
    let mut out: Vec<RollupEntry> = Vec::new();
    let mut i: usize = 0;
    while i < points.len()
        invariant
            i <= points.len(),
            rollup_view(out@) == rollup_of(points@.take(i as int)),
            labels_unique(rollup_view(out@)),
        decreases points.len() - i,
    {
        let modes = &points[i].game_types;
        let ghost base = rollup_of(points@.take(i as int));
        let ghost mv = modes_view(modes@);
        proof {
            assert(points@.take(i + 1).drop_last() == points@.take(i as int));
            assert(mv.take(0) == Seq::<(Seq<char>, nat)>::empty());
        }
        let mut j: usize = 0;
        while j < modes.len()
            invariant
                i < points.len(),
                modes == &points@[i as int].game_types,
                mv == modes_view(modes@),
                base == rollup_of(points@.take(i as int)),
                j <= modes.len(),
                rollup_view(out@) == add_point_modes(base, mv.take(j as int)),
                labels_unique(rollup_view(out@)),
            decreases modes.len() - j,
        {
            let m: &ModeCount = &modes[j];
            let ghost before = rollup_view(out@);
            proof {
                assert(mv.take(j + 1).drop_last() == mv.take(j as int));
                assert(mv.take(j + 1).last() == (m.label@, m.count as nat));
                lemma_observation_grows(before, m.label@, m.count as nat);
            }
            match find_entry(&out, &m.label) {
                Some(k) => {
                    proof {
                        lemma_label_index(before, m.label@);
                    }
                    let sum = match out[k].sum.checked_add(m.count) {
                        Some(s) => s,
                        None => {
                            proof {
                                let after = add_point_modes(base, mv.take(j + 1));
                                assert(after[k as int].1.0 > usize::MAX);
                                lemma_modes_prefix_grows(base, mv, j + 1);
                                assert(points@.take(i + 1).drop_last() == points@.take(i as int));
                                assert(rollup_of(points@.take(i + 1)) == add_point_modes(base, mv));
                                lemma_rollup_prefix_grows(points@, i + 1);
                                lemma_grows_trans(after, add_point_modes(base, mv), rollup_of(points@));
                                assert(rollup_of(points@)[k as int].1.0 > usize::MAX);
                            }
                            return Err(PipelineError::CountOverflow);
                        },
                    };
                    let max = if out[k].max < m.count {
                        m.count
                    } else {
                        out[k].max
                    };
                    let label = out[k].label.clone();
                    out.set(k, RollupEntry { label, sum, max });
                },
                None => {
                    out.push(RollupEntry { label: m.label.clone(), sum: m.count, max: m.count });
                },
            }
            assert(rollup_view(out@) == add_point_modes(base, mv.take(j + 1)));
            j = j + 1;
        }
        proof {
            assert(mv.take(j as int) == mv);
        }
        i = i + 1;
    }
    proof {
        assert(points@.take(i as int) == points@);
    }
    Ok(out)
}

/// The count that a point reports for `label`, if it reports one.
pub open spec fn mode_count(p: AggregatePoint, label: Seq<char>) -> Option<nat> {
    count_in(modes_view(p.game_types@), label)
}

/// The `(sum, max)` pair that a rollup lists for `label`, if any.
pub open spec fn entry_of(r: RollupModel, label: Seq<char>) -> Option<(nat, nat)> {
    match label_index(r, label) {
        Some(i) => Some(r[i as int].1),
        None => None,
    }
}

/// Whether some point reports `label`.
pub open spec fn label_seen(points: Seq<AggregatePoint>, label: Seq<char>) -> bool {
    exists|i: int| 0 <= i < points.len() && (#[trigger] mode_count(points[i], label)) is Some
}

/// Sum of the counts of `label` over the points that report it.
pub open spec fn label_sum(points: Seq<AggregatePoint>, label: Seq<char>) -> nat
    decreases points.len(),
{
    if points.len() == 0 {
        0
    } else {
        label_sum(points.drop_last(), label) + match mode_count(points.last(), label) {
            Some(c) => c,
            None => 0,
        }
    }
}

/// Largest count of `label` over the points that report it; a point that
/// does not report the label takes no part.
pub open spec fn label_peak(points: Seq<AggregatePoint>, label: Seq<char>) -> nat
    decreases points.len(),
{
    if points.len() == 0 {
        0
    } else {
        match mode_count(points.last(), label) {
            Some(c) => max_nat(label_peak(points.drop_last(), label), c),
            None => label_peak(points.drop_last(), label),
        }
    }
}

/// Whether no point reports a gamemode twice.
pub open spec fn points_wf(points: Seq<AggregatePoint>) -> bool {
    forall|i: int| 0 <= i < points.len() ==> labels_unique(#[trigger] modes_view(points[i].game_types@))
}

proof fn lemma_same_labels_index(a: RollupModel, b: RollupModel, label: Seq<char>)
    requires
        a.len() == b.len(),
        forall|i: int| 0 <= i < a.len() ==> #[trigger] a[i].0 == b[i].0,
    ensures
        label_index(a, label) == label_index(b, label),
    decreases a.len(),
{
    if a.len() > 0 {
        lemma_same_labels_index(a.drop_last(), b.drop_last(), label);
    }
}

proof fn lemma_observation_entry(r: RollupModel, l0: Seq<char>, n: nat, label: Seq<char>)
    requires
        labels_unique(r),
    ensures
        entry_of(add_observation(r, l0, n), label) == if label == l0 {
            match entry_of(r, label) {
                Some(e) => Some((e.0 + n, max_nat(e.1, n))),
                None => Some((n, n)),
            }
        } else {
            entry_of(r, label)
        },
{
    let r2 = add_observation(r, l0, n);
    lemma_label_index(r, l0);
    match label_index(r, l0) {
        Some(i) => {
            assert forall|k: int| 0 <= k < r.len() implies #[trigger] r2[k].0 == r[k].0 by {}
            lemma_same_labels_index(r2, r, label);
            lemma_label_index(r, label);
        },
        None => {
            assert(r2.drop_last() == r);
            lemma_label_index(r, label);
        },
    }
}

proof fn lemma_point_entry(r: RollupModel, m: Seq<(Seq<char>, nat)>, label: Seq<char>)
    requires
        labels_unique(r),
        labels_unique(m),
    ensures
        entry_of(add_point_modes(r, m), label) == match (entry_of(r, label), count_in(m, label)) {
            (e, None) => e,
            (None, Some(c)) => Some((c, c)),
            (Some(e), Some(c)) => Some((e.0 + c, max_nat(e.1, c))),
        },
        labels_unique(add_point_modes(r, m)),
    decreases m.len(),
{
    if m.len() > 0 {
        let pm = m.drop_last();
        assert(labels_unique(pm));
        lemma_point_entry(r, pm, label);
        lemma_modes_prefix_grows(r, pm, 0);
        lemma_observation_entry(add_point_modes(r, pm), m.last().0, m.last().1, label);
        lemma_observation_grows(add_point_modes(r, pm), m.last().0, m.last().1);
        lemma_label_index(pm, label);
        if label == m.last().0 {
            if let Some(i) = label_index(pm, label) {
                assert(pm[i as int] == m[i as int]);
            }
        }
    }
}

/// The rollup lists exactly the gamemodes that some point reports, each
/// once, and for each its sum of counts and its peak count over the points
/// that report it; the peak is never above the sum.
pub proof fn lemma_rollup_sum_and_peak(points: Seq<AggregatePoint>)
    requires
        points_wf(points),
    ensures
        labels_unique(rollup_of(points)),
        forall|label: Seq<char>| #[trigger]
            entry_of(rollup_of(points), label) == if label_seen(points, label) {
                Some((label_sum(points, label), label_peak(points, label)))
            } else {
                None::<(nat, nat)>
            },
        forall|i: int|
            0 <= i < rollup_of(points).len() ==> #[trigger] rollup_of(points)[i].1.1 <= rollup_of(
                points,
            )[i].1.0,
    decreases points.len(),
{
    if points.len() > 0 {
        let prev = points.drop_last();
        assert forall|i: int| 0 <= i < prev.len() implies labels_unique(
            #[trigger] modes_view(prev[i].game_types@),
        ) by {
            assert(prev[i] == points[i]);
        }
        lemma_rollup_sum_and_peak(prev);
        let m = modes_view(points.last().game_types@);
        assert(labels_unique(m));
        assert forall|label: Seq<char>| #[trigger]
            entry_of(rollup_of(points), label) == if label_seen(points, label) {
                Some((label_sum(points, label), label_peak(points, label)))
            } else {
                None::<(nat, nat)>
            } by {
            lemma_point_entry(rollup_of(prev), m, label);
            lemma_sum_zero_unseen(prev, label);
            if label_seen(prev, label) {
                let w = choose|i: int| 0 <= i < prev.len() && (#[trigger] mode_count(prev[i], label)) is Some;
                assert(points[w] == prev[w]);
            }
            if mode_count(points.last(), label) is Some {
                assert(mode_count(points[points.len() - 1], label) is Some);
            }
            if label_seen(points, label) && !label_seen(prev, label) {
                let w = choose|i: int| 0 <= i < points.len() && (#[trigger] mode_count(points[i], label)) is Some;
                if w < points.len() - 1 {
                    assert(prev[w] == points[w]);
                }
            }
        }
        lemma_point_entry(rollup_of(prev), m, Seq::empty());
        assert forall|i: int|
            0 <= i < rollup_of(points).len() implies #[trigger] rollup_of(points)[i].1.1 <= rollup_of(
                points,
            )[i].1.0 by {
            let r = rollup_of(points);
            let label = r[i].0;
            lemma_unique_entry(r, label, i);
            assert(entry_of(r, label) == Some(r[i].1));
            lemma_peak_le_sum(points, label);
        }
    }
}

proof fn lemma_sum_zero_unseen(points: Seq<AggregatePoint>, label: Seq<char>)
    ensures
        !label_seen(points, label) ==> label_sum(points, label) == 0 && label_peak(points, label) == 0,
    decreases points.len(),
{
    if points.len() > 0 {
        let prev = points.drop_last();
        lemma_sum_zero_unseen(prev, label);
        if !label_seen(points, label) {
            assert(!(mode_count(points[points.len() - 1], label) is Some));
            assert forall|i: int| 0 <= i < prev.len() implies !(#[trigger] mode_count(prev[i], label) is Some) by {
                assert(prev[i] == points[i]);
            }
        }
    }
}

proof fn lemma_peak_le_sum(points: Seq<AggregatePoint>, label: Seq<char>)
    ensures
        label_peak(points, label) <= label_sum(points, label),
    decreases points.len(),
{
    if points.len() > 0 {
        lemma_peak_le_sum(points.drop_last(), label);
    }
}

} // verus!
