use crate::error::PipelineError;
use crate::metrics::AggregatePoint;
use crate::ordering::{is_stable_sort, lemma_stable_sort_members, lemma_stable_sort_unique};
use crate::rollup::{compute_rollup, rollup_fits, rollup_of, rollup_view, RollupEntry};
use crate::series::{by_time, sort_points, sorted_by_time};
use vstd::prelude::*;

verus! {

/// A day's points in time order, and their rollup per gamemode.
#[derive(Clone, Debug)]
pub struct DaySeries {
    pub points: Vec<AggregatePoint>,
    pub rollup: Vec<RollupEntry>,
}

/// Whether `d` is the series built from the points `input`.
pub open spec fn is_day_of(input: Seq<AggregatePoint>, d: DaySeries) -> bool {
    &&& d.points@ == sorted_by_time(input)
    &&& rollup_view(d.rollup@) == rollup_of(d.points@)
}

/// Puts a day's points in time order and rolls them up per gamemode. A
/// day without points is an error of its own; so is a gamemode whose sum
/// does not fit in a `usize`.
pub fn build_day(points: Vec<AggregatePoint>) -> (r: Result<DaySeries, PipelineError>)
    ensures
        points@.len() == 0 ==> r == Err::<DaySeries, PipelineError>(PipelineError::EmptyResultSet),
        points@.len() > 0 && rollup_fits(rollup_of(sorted_by_time(points@))) ==> (r matches Ok(d)
            && is_day_of(points@, d) && is_stable_sort(points@, d.points@, by_time())),
        points@.len() > 0 && !rollup_fits(rollup_of(sorted_by_time(points@))) ==> r == Err::<
            DaySeries,
            PipelineError,
        >(PipelineError::CountOverflow),
{
    if points.len() == 0 {
        return Err(PipelineError::EmptyResultSet);
    }
    let sorted = sort_points(points);
    match compute_rollup(&sorted) {
        Ok(rollup) => Ok(DaySeries { points: sorted, rollup }),
        Err(e) => Err(e),
    }
}

/// A day's points come out in time order, and each keeps its players and
/// spectators adding up to its total.
pub proof fn lemma_day_points_ordered(input: Seq<AggregatePoint>, day: Seq<AggregatePoint>)
    requires
        forall|i: int|
            0 <= i < input.len() ==> #[trigger] input[i].playing + input[i].spectating
                == input[i].total,
        is_stable_sort(input, day, by_time()),
    ensures
        forall|i: int, j: int| 0 <= i <= j < day.len() ==> day[i].time <= day[j].time,
        forall|i: int|
            0 <= i < day.len() ==> #[trigger] day[i].playing + day[i].spectating == day[i].total,
{
    assert forall|i: int, j: int| 0 <= i <= j < day.len() implies day[i].time <= day[j].time by {
        if i < j {
            assert((by_time())(day[i]) <= (by_time())(day[j]));
        }
    }
    lemma_stable_sort_members(input, day, by_time());
    assert forall|i: int| 0 <= i < day.len() implies #[trigger] day[i].playing + day[i].spectating
        == day[i].total by {
        assert(input.contains(day[i]));
        let w = choose|k: int| 0 <= k < input.len() && input[k] == day[i];
        assert(input[w].playing + input[w].spectating == input[w].total);
    }
}

/// Building a day twice from the same points gives the same ordered points
/// and the same rollup.
pub proof fn lemma_day_deterministic(
    input: Seq<AggregatePoint>,
    first: Seq<AggregatePoint>,
    second: Seq<AggregatePoint>,
)
    requires
        is_stable_sort(input, first, by_time()),
        is_stable_sort(input, second, by_time()),
    ensures
        first == second,
        rollup_of(first) == rollup_of(second),
{
    lemma_stable_sort_unique(input, first, second, by_time());
}

} // verus!
