use teemaster_parser::{
    axis_upper_bound, build_day, compute_rollup, contains_text, extract_point, list_gamemodes,
    parse_entry_name, plan_chart, rank_gamemodes, sampling_stride, sort_points, validate_config,
    AggregatePoint, ClientRecord, DaySeries, ModeCount, PipelineError, RollupEntry, Sampler,
    ServerRecord, Snapshot, SECONDS_PER_DAY,
};

fn client(is_player: bool) -> ClientRecord {
    ClientRecord { is_player }
}

fn server(mode: Option<&str>, clients: Option<Vec<ClientRecord>>) -> ServerRecord {
    ServerRecord { game_type: mode.map(|m| m.to_string()), clients }
}

fn point(time: u32, total: usize, modes: &[(&str, usize)]) -> AggregatePoint {
    AggregatePoint {
        time,
        total,
        playing: total,
        spectating: 0,
        game_types: modes
            .iter()
            .map(|(l, c)| ModeCount { label: l.to_string(), count: *c })
            .collect(),
    }
}

fn entry(label: &str, sum: usize, max: usize) -> RollupEntry {
    RollupEntry { label: label.to_string(), sum, max }
}

fn labels(v: &[RollupEntry]) -> Vec<String> {
    v.iter().map(|e| e.label.clone()).collect()
}

fn modes_of(p: &AggregatePoint) -> Vec<(String, usize)> {
    p.game_types.iter().map(|m| (m.label.clone(), m.count)).collect()
}

#[test]
fn single_entry_archive_yields_one_point() {
    let stride = sampling_stride(1).unwrap();
    assert_eq!(stride, 12);
    let mut sampler = Sampler::new(stride);
    assert!(sampler.observe());
    let time = parse_entry_name("00_00_05.json").unwrap();
    assert_eq!(time, 5);
    let snapshot = Snapshot {
        servers: vec![
            server(Some("DM"), Some(vec![client(true), client(false)])),
            server(None, Some(vec![client(true)])),
        ],
    };
    let p = extract_point(time, &snapshot).unwrap();
    assert_eq!(p.time, 5);
    assert_eq!(p.total, 3);
    assert_eq!(p.playing, 2);
    assert_eq!(p.spectating, 1);
    assert_eq!(modes_of(&p), vec![("DM".to_string(), 2)]);
    let day = build_day(vec![p]).unwrap();
    assert_eq!(day.points.len(), 1);
    assert_eq!(day.points[0].time, 5);
    assert_eq!(day.rollup.len(), 1);
    assert_eq!((day.rollup[0].sum, day.rollup[0].max), (2, 2));
}

#[test]
fn empty_archive_is_empty_result_set() {
    assert_eq!(build_day(Vec::new()).unwrap_err(), PipelineError::EmptyResultSet);
    let day = DaySeries { points: Vec::new(), rollup: Vec::new() };
    assert_eq!(plan_chart(&day, "2023-01-01", 10, 0, false).unwrap_err(), PipelineError::EmptyResultSet);
    assert_eq!(PipelineError::EmptyResultSet.describe(), "empty result set");
}

#[test]
fn equal_sums_rank_by_peak() {
    let rollup = vec![entry("DM", 100, 20), entry("CTF", 100, 30)];
    let ranked = rank_gamemodes(&rollup, 0, 10);
    assert_eq!(labels(&ranked), vec!["CTF", "DM"]);
}

#[test]
fn hidden_totals_take_axis_from_selected_peaks() {
    let points = vec![point(0, 500, &[])];
    let selected = vec![entry("a", 100, 15), entry("b", 90, 22), entry("c", 80, 9)];
    assert_eq!(axis_upper_bound(true, &points, &selected).unwrap(), 23);
    assert_eq!(axis_upper_bound(false, &points, &selected).unwrap(), 501);
    assert_eq!(axis_upper_bound(true, &points, &Vec::new()).unwrap(), 1);
}

#[test]
fn axis_bound_overflow_is_reported() {
    let points = vec![point(0, usize::MAX, &[])];
    assert_eq!(axis_upper_bound(false, &points, &Vec::new()).unwrap_err(), PipelineError::CountOverflow);
}

#[test]
fn points_come_out_in_time_order_and_stable() {
    let mut a = point(10, 1, &[]);
    a.playing = 0;
    a.spectating = 1;
    let b = point(5, 2, &[]);
    let c = point(10, 3, &[]);
    let d = point(0, 4, &[]);
    let sorted = sort_points(vec![a, b, c, d]);
    let order: Vec<(u32, usize)> = sorted.iter().map(|p| (p.time, p.total)).collect();
    assert_eq!(order, vec![(0, 4), (5, 2), (10, 1), (10, 3)]);
    for p in &sorted {
        assert_eq!(p.playing + p.spectating, p.total);
    }
}

#[test]
fn rollup_ignores_absent_instants() {
    let points = vec![
        point(0, 10, &[("DM", 7)]),
        point(5, 10, &[("CTF", 2)]),
        point(10, 10, &[("DM", 3), ("CTF", 4)]),
    ];
    let rollup = compute_rollup(&points).unwrap();
    let got: Vec<(String, usize, usize)> =
        rollup.iter().map(|e| (e.label.clone(), e.sum, e.max)).collect();
    assert_eq!(got, vec![("DM".to_string(), 10, 7), ("CTF".to_string(), 6, 4)]);
    for e in &rollup {
        assert!(e.max <= e.sum);
    }
}

#[test]
fn rollup_sum_overflow_is_reported() {
    let points = vec![point(0, usize::MAX, &[("DM", usize::MAX)]), point(5, 1, &[("DM", 1)])];
    assert_eq!(compute_rollup(&points).unwrap_err(), PipelineError::CountOverflow);
    assert_eq!(build_day(points).unwrap_err(), PipelineError::CountOverflow);
}

#[test]
fn building_twice_gives_the_same_day() {
    let make = || {
        vec![
            point(10, 3, &[("DM", 3)]),
            point(5, 2, &[("CTF", 2), ("DM", 1)]),
            point(10, 4, &[("CTF", 4)]),
        ]
    };
    let first = build_day(make()).unwrap();
    let second = build_day(make()).unwrap();
    let view = |d: &DaySeries| {
        (
            d.points.iter().map(|p| (p.time, p.total, modes_of(p))).collect::<Vec<_>>(),
            d.rollup.iter().map(|e| (e.label.clone(), e.sum, e.max)).collect::<Vec<_>>(),
        )
    };
    assert_eq!(view(&first), view(&second));
    assert_eq!(first.points.iter().map(|p| p.total).collect::<Vec<_>>(), vec![2, 3, 4]);
    assert_eq!(labels(&first.rollup), vec!["CTF", "DM"]);
}

#[test]
fn ranking_windows() {
    let rollup = vec![
        entry("a", 10, 1),
        entry("b", 30, 2),
        entry("c", 20, 5),
        entry("d", 20, 5),
        entry("e", 20, 7),
    ];
    assert_eq!(labels(&rank_gamemodes(&rollup, 0, 3)), vec!["b", "e", "c"]);
    assert_eq!(labels(&rank_gamemodes(&rollup, 0, 10)), vec!["b", "e", "c", "d", "a"]);
    assert_eq!(labels(&rank_gamemodes(&rollup, 2, 2)), vec!["c", "d"]);
    assert_eq!(labels(&rank_gamemodes(&rollup, 4, 5)), vec!["a"]);
    assert!(rank_gamemodes(&rollup, 5, 3).is_empty());
    assert!(rank_gamemodes(&rollup, 0, 0).is_empty());
    assert!(rank_gamemodes(&rollup, usize::MAX, usize::MAX).is_empty());
    assert_eq!(labels(&rank_gamemodes(&rollup, 1, usize::MAX)), vec!["e", "c", "d", "a"]);
}

#[test]
fn stride_follows_native_cadence() {
    assert_eq!(sampling_stride(0).unwrap_err(), PipelineError::InvalidConfiguration);
    assert_eq!(sampling_stride(2).unwrap(), 24);
    assert_eq!(sampling_stride(60).unwrap(), 720);
    assert_eq!(sampling_stride(usize::MAX).unwrap_err(), PipelineError::InvalidConfiguration);
    assert_eq!(validate_config(1, 1920, 1080).unwrap(), 12);
    assert_eq!(validate_config(1, 0, 1080).unwrap_err(), PipelineError::InvalidConfiguration);
    assert_eq!(validate_config(1, 1920, 0).unwrap_err(), PipelineError::InvalidConfiguration);
    assert_eq!(validate_config(0, 1920, 1080).unwrap_err(), PipelineError::InvalidConfiguration);
}

#[test]
fn sampler_keeps_every_stride_th_entry() {
    let mut sampler = Sampler::for_interval(1).unwrap();
    assert_eq!(sampler.stride(), 12);
    let kept: Vec<usize> = (0..30).filter(|_| sampler.observe()).collect();
    assert_eq!(kept, vec![0, 12, 24]);
    let mut small = Sampler::new(3);
    let pattern: Vec<bool> = (0..7).map(|_| small.observe()).collect();
    assert_eq!(pattern, vec![true, false, false, true, false, false, true]);
    assert!(Sampler::for_interval(0).is_err());
}

#[test]
fn entry_names() {
    assert_eq!(parse_entry_name("00_00_00.json").unwrap(), 0);
    assert_eq!(parse_entry_name("12_34_56.json").unwrap(), 12 * 3600 + 34 * 60 + 56);
    assert_eq!(parse_entry_name("23_59_59.json").unwrap(), SECONDS_PER_DAY - 1);
    for bad in [
        "24_00_00.json",
        "00_60_00.json",
        "00_00_60.json",
        "00_00_05.txt",
        "0_00_05.json",
        "00-00-05.json",
        "00_00_05.json.bak",
        "aa_00_05.json",
        "",
        "00_00_0５.json",
    ] {
        assert_eq!(parse_entry_name(bad).unwrap_err(), PipelineError::MalformedEntryName, "{}", bad);
    }
}

#[test]
fn absent_and_empty_rosters_count_nothing() {
    let snapshot = Snapshot {
        servers: vec![
            server(Some("DM"), None),
            server(Some("CTF"), Some(Vec::new())),
            server(Some("DM"), Some(vec![client(false)])),
            server(Some("DM"), Some(vec![client(true), client(true)])),
            server(None, None),
        ],
    };
    let p = extract_point(42, &snapshot).unwrap();
    assert_eq!((p.total, p.playing, p.spectating), (3, 2, 1));
    assert_eq!(modes_of(&p), vec![("CTF".to_string(), 0), ("DM".to_string(), 3)]);
    let empty = extract_point(7, &Snapshot { servers: Vec::new() }).unwrap();
    assert_eq!((empty.total, empty.playing, empty.spectating), (0, 0, 0));
    assert!(empty.game_types.is_empty());
}

#[test]
fn chart_plan_lists_lines() {
    let points = vec![point(70, 5, &[("DM", 3)]), point(10, 4, &[("CTF", 1), ("DM", 2)])];
    let day = build_day(points).unwrap();
    let chart = plan_chart(&day, "2023-05-01", 1, 0, false).unwrap();
    assert_eq!(chart.caption, "Master Server Stats on 2023-05-01");
    assert_eq!((chart.x_start, chart.x_end, chart.y_end), (0, 71, 6));
    let names: Vec<&str> = chart.series.iter().map(|s| s.label.as_str()).collect();
    assert_eq!(names, vec!["Players", "Players in game", "Players Spectating", "DM players"]);
    assert_eq!(chart.series[0].values, vec![(10, 4), (70, 5)]);
    assert_eq!(chart.series[2].values, vec![(10, 0), (70, 0)]);
    assert_eq!(chart.series[3].values, vec![(10, 2), (70, 3)]);

    let hidden = plan_chart(&day, "2023-05-01", 5, 1, true).unwrap();
    let names: Vec<&str> = hidden.series.iter().map(|s| s.label.as_str()).collect();
    assert_eq!(names, vec!["CTF players"]);
    assert_eq!(hidden.series[0].values, vec![(10, 1), (70, 0)]);
    assert_eq!(hidden.y_end, 2);
}

#[test]
fn gamemode_listing_filters_ignoring_case() {
    let rollup = vec![entry("DM", 10, 4), entry("ddrace", 50, 9), entry("CTF", 30, 9), entry("iDM", 5, 1)];
    let all = list_gamemodes(&rollup, None);
    assert_eq!(
        all,
        vec![
            ("ddrace".to_string(), 9),
            ("CTF".to_string(), 9),
            ("DM".to_string(), 4),
            ("iDM".to_string(), 1)
        ]
    );
    let dm = list_gamemodes(&rollup, Some("dm"));
    assert_eq!(dm, vec![("DM".to_string(), 4), ("iDM".to_string(), 1)]);
    let upper = list_gamemodes(&rollup, Some("DR"));
    assert_eq!(upper, vec![("ddrace".to_string(), 9)]);
    assert!(list_gamemodes(&rollup, Some("zz")).is_empty());
}

#[test]
fn substring_search() {
    assert!(contains_text("ddrace", "dra"));
    assert!(contains_text("ddrace", ""));
    assert!(contains_text("abc", "abc"));
    assert!(!contains_text("abc", "abcd"));
    assert!(!contains_text("abc", "B"));
    assert!(contains_text("gämode", "äm"));
}
