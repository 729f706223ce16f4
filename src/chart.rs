use crate::day::DaySeries;
use crate::error::PipelineError;
use crate::metrics::{modes_view, AggregatePoint, ModeCount};
use crate::rank::{axis_max, axis_upper_bound, rank_gamemodes, selection};
use crate::rollup::{mode_count, RollupEntry};
use crate::snapshot::label_index;
use vstd::prelude::*;

verus! {

/// One labelled line of the chart: a value per point, at the point's time
/// of day in seconds.
#[derive(Clone, Debug)]
pub struct ChartSeries {
    pub label: String,
    pub values: Vec<(u32, usize)>,
}

/// Everything the renderer needs for one day's chart. The horizontal axis
/// runs from `x_start` to `x_end` seconds after midnight, the vertical one
/// from 0 to `y_end`.
#[derive(Clone, Debug)]
pub struct ChartSpec {
    pub caption: String,
    pub x_start: u32,
    pub x_end: u64,
    pub y_end: usize,
    pub series: Vec<ChartSeries>,
}

pub open spec fn caption_text(date: Seq<char>) -> Seq<char> {
    "Master Server Stats on "@ + date
}

pub open spec fn series_view(s: Seq<ChartSeries>) -> Seq<(Seq<char>, Seq<(u32, usize)>)> {
    s.map_values(|c: ChartSeries| (c.label@, c.values@))
}

/// The count of `label` at a point, zero where the point does not report it.
pub open spec fn count_or_zero(p: AggregatePoint, label: Seq<char>) -> usize {
    match mode_count(p, label) {
        Some(c) => c as usize,
        None => 0,
    }
}

pub open spec fn totals_line(points: Seq<AggregatePoint>) -> Seq<(u32, usize)> {
    points.map_values(|p: AggregatePoint| (p.time, p.total))
}

pub open spec fn playing_line(points: Seq<AggregatePoint>) -> Seq<(u32, usize)> {
    points.map_values(|p: AggregatePoint| (p.time, p.playing))
}

pub open spec fn spectating_line(points: Seq<AggregatePoint>) -> Seq<(u32, usize)> {
    points.map_values(|p: AggregatePoint| (p.time, p.spectating))
}

pub open spec fn mode_line(points: Seq<AggregatePoint>, label: Seq<char>) -> Seq<(u32, usize)> {
    points.map_values(|p: AggregatePoint| (p.time, count_or_zero(p, label)))
}

/// The lines of a chart: the three player lines unless hidden, then one
/// line per selected gamemode, in ranking order.
pub open spec fn chart_lines(
    points: Seq<AggregatePoint>,
    selected: Seq<RollupEntry>,
    hide_totals: bool,
) -> Seq<(Seq<char>, Seq<(u32, usize)>)> {
    let players: Seq<(Seq<char>, Seq<(u32, usize)>)> = if hide_totals {
        Seq::empty()
    } else {
        seq![
            ("Players"@, totals_line(points)),
            ("Players in game"@, playing_line(points)),
            ("Players Spectating"@, spectating_line(points)),
        ]
    };
    players + selected.map_values(
        |e: RollupEntry| (e.label@ + " players"@, mode_line(points, e.label@)),
    )
}

proof fn lemma_last_index(m: Seq<(Seq<char>, nat)>, label: Seq<char>, j: int)
    requires
        0 <= j < m.len(),
        m[j].0 == label,
        forall|k: int| j < k < m.len() ==> m[k].0 != label,
    ensures
        label_index(m, label) == Some(j as nat),
    decreases m.len(),
{
    if j < m.len() - 1 {
        assert(m.drop_last()[j] == m[j]);
        lemma_last_index(m.drop_last(), label, j);
    }
}

proof fn lemma_no_index(m: Seq<(Seq<char>, nat)>, label: Seq<char>)
    requires
        forall|k: int| 0 <= k < m.len() ==> m[k].0 != label,
    ensures
        label_index(m, label) is None,
    decreases m.len(),
{
    if m.len() > 0 {
        lemma_no_index(m.drop_last(), label);
    }
}

/// The count that a point reports for `label`, or zero.
fn count_for(p: &AggregatePoint, label: &String) -> (r: usize)
    ensures
        r == count_or_zero(*p, label@),
{
    let modes: &Vec<ModeCount> = &p.game_types;
    let ghost mv = modes_view(modes@);
    let mut j: usize = modes.len();
    while j > 0
        invariant
            j <= modes.len(),
            modes@ == p.game_types@,
            mv == modes_view(modes@),
            forall|k: int| j <= k < modes.len() ==> mv[k].0 != label@,
        decreases j,
    {
        if modes[j - 1].label == *label {
            proof {
                lemma_last_index(mv, label@, j - 1);
            }
            return modes[j - 1].count;
        }
        j = j - 1;
    }
    proof {
        lemma_no_index(mv, label@);
    }
    0
}

fn line_of(points: &Vec<AggregatePoint>, which: u8, label: &String) -> (r: Vec<(u32, usize)>)
    ensures
        which == 0 ==> r@ == totals_line(points@),
        which == 1 ==> r@ == playing_line(points@),
        which == 2 ==> r@ == spectating_line(points@),
        which > 2 ==> r@ == mode_line(points@, label@),
{
    let mut out: Vec<(u32, usize)> = Vec::new();
    let mut i: usize = 0;
    while i < points.len()
        invariant
            i <= points.len(),
            which == 0 ==> out@ == totals_line(points@.take(i as int)),
            which == 1 ==> out@ == playing_line(points@.take(i as int)),
            which == 2 ==> out@ == spectating_line(points@.take(i as int)),
            which > 2 ==> out@ == mode_line(points@.take(i as int), label@),
        decreases points.len() - i,
    {
        let p = &points[i];
        let v = if which == 0 {
            p.total
        } else if which == 1 {
            p.playing
        } else if which == 2 {
            p.spectating
        } else {
            count_for(p, label)
        };
        out.push((p.time, v));
        proof {
            assert(points@.take(i + 1) == points@.take(i as int).push(*p));
        }
        i = i + 1;
    }
    proof {
        assert(points@.take(i as int) == points@);
    }
    out
}

/// Lays out the chart of a day: the caption names `date`, the horizontal
/// axis runs from midnight to one second past the last point, the vertical
/// one from 0 to one above `axis_max`, and the lines are those of
/// `chart_lines` for the gamemodes that `rank_gamemodes` selects.
pub fn plan_chart(
    day: &DaySeries,
    date: &str,
    take: usize,
    skip: usize,
    hide_totals: bool,
) -> (r: Result<ChartSpec, PipelineError>)
    ensures
        day.points@.len() == 0 ==> r == Err::<ChartSpec, PipelineError>(PipelineError::EmptyResultSet),
        day.points@.len() > 0 ==> ({
            let selected = selection(day.rollup@, skip as int, take as int);
            let top = axis_max(hide_totals, day.points@, selected);
            &&& top >= usize::MAX ==> r == Err::<ChartSpec, PipelineError>(PipelineError::CountOverflow)
            &&& top < usize::MAX ==> (r matches Ok(c) && {
                &&& c.caption@ == caption_text(date@)
                &&& c.x_start == 0
                &&& c.x_end == day.points@.last().time + 1
                &&& c.y_end == top + 1
                &&& series_view(c.series@) == chart_lines(day.points@, selected, hide_totals)
            })
        }),
{
    let points = &day.points;
    if points.len() == 0 {
        return Err(PipelineError::EmptyResultSet);
    }
    let selected = rank_gamemodes(&day.rollup, skip, take);
    let y_end = match axis_upper_bound(hide_totals, points, &selected) {
        Ok(b) => b,
        Err(e) => {
            return Err(e);
        },
    };
    let x_end = points[points.len() - 1].time as u64 + 1;
    let mut caption = String::from_str("Master Server Stats on ");
    caption.append(date);
    let mut series: Vec<ChartSeries> = Vec::new();
    let ghost players: Seq<(Seq<char>, Seq<(u32, usize)>)> = if hide_totals {
        Seq::empty()
    } else {
        seq![
            ("Players"@, totals_line(points@)),
            ("Players in game"@, playing_line(points@)),
            ("Players Spectating"@, spectating_line(points@)),
        ]
    };
    let none = String::new();
    if !hide_totals {
        series.push(ChartSeries { label: String::from_str("Players"), values: line_of(points, 0, &none) });
        series.push(
            ChartSeries { label: String::from_str("Players in game"), values: line_of(points, 1, &none) },
        );
        series.push(
            ChartSeries {
                label: String::from_str("Players Spectating"),
                values: line_of(points, 2, &none),
            },
        );
    }
    assert(series_view(series@) == players);
    let mut i: usize = 0;
    while i < selected.len()
        invariant
            i <= selected.len(),
            series_view(series@) == players + selected@.take(i as int).map_values(
                |e: RollupEntry| (e.label@ + " players"@, mode_line(points@, e.label@)),
            ),
        decreases selected.len() - i,
    {
        let e = &selected[i];
        let mut label = e.label.clone();
        label.append(" players");
        let values = line_of(points, 3, &e.label);
        let ghost before = series@;
        let item = ChartSeries { label, values };
        series.push(item);
        proof {
            let f = |e: RollupEntry| (e.label@ + " players"@, mode_line(points@, e.label@));
            assert(selected@.take(i + 1) == selected@.take(i as int).push(*e));
            assert(selected@.take(i + 1).map_values(f) == selected@.take(i as int).map_values(f).push(
                f(*e),
            ));
            assert(series_view(series@) == series_view(before).push((item.label@, item.values@)));
        }
        i = i + 1;
    }
    proof {
        assert(selected@.take(i as int) == selected@);
    }
    Ok(ChartSpec { caption, x_start: 0, x_end, y_end, series })
}

} // verus!
