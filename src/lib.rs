//! Aggregation of a day of master-server snapshots into chartable series.
//!
//! The pipeline runs in one direction: archive entries are sampled at a
//! fixed stride, each kept entry's name gives its time of day, each decoded
//! snapshot is reduced to one aggregate point, the points of the day are put
//! in time order and rolled up per gamemode, and the gamemodes are ranked and
//! windowed for presentation.

pub mod chart;
pub mod day;
pub mod entry_name;
pub mod error;
pub mod listing;
pub mod metrics;
pub mod ordering;
pub mod rank;
pub mod rollup;
pub mod sampling;
pub mod series;
pub mod snapshot;

pub use chart::{plan_chart, ChartSeries, ChartSpec};
pub use day::{build_day, DaySeries};
pub use entry_name::{parse_entry_name, SECONDS_PER_DAY};
pub use error::PipelineError;
pub use listing::{contains_text, list_gamemodes};
pub use metrics::{extract_point, AggregatePoint, ModeCount};
pub use rank::{axis_upper_bound, rank_gamemodes};
pub use rollup::{compute_rollup, RollupEntry};
pub use sampling::{sampling_stride, validate_config, Sampler, NATIVE_INTERVAL_SECONDS};
pub use series::sort_points;
pub use snapshot::{ClientRecord, ServerRecord, Snapshot};
