use vstd::prelude::*;

verus! {

/// The ways in which a day's run fails. Every failure aborts the whole run.
#[derive(Clone, Copy, Debug, PartialEq, Eq, Structural)]
pub enum PipelineError {
    /// The sampling interval or a chart dimension cannot be used.
    InvalidConfiguration,
    /// An archive entry's name is not `HH_MM_SS.json` with a valid time of day.
    MalformedEntryName,
    /// No aggregate point was produced for the day.
    EmptyResultSet,
    /// A count does not fit in a machine word.
    CountOverflow,
}

/// The text that describes an error.
pub open spec fn error_text(e: PipelineError) -> Seq<char> {
    match e {
        PipelineError::InvalidConfiguration => "invalid configuration"@,
        PipelineError::MalformedEntryName => "malformed entry name"@,
        PipelineError::EmptyResultSet => "empty result set"@,
        PipelineError::CountOverflow => "count overflow"@,
    }
}

impl PipelineError {
    /// A short human-readable description of the error.
    pub fn describe(&self) -> (r: String)
        ensures
            r@ == error_text(*self),
    {
        match self {
            PipelineError::InvalidConfiguration => String::from_str("invalid configuration"),
            PipelineError::MalformedEntryName => String::from_str("malformed entry name"),
            PipelineError::EmptyResultSet => String::from_str("empty result set"),
            PipelineError::CountOverflow => String::from_str("count overflow"),
        }
    }
}

} // verus!
