//! The error taxonomy of the alignment engine.

use vstd::prelude::*;

verus! {

/// Why a series could not be built or a frame could not be aligned.
///
/// Every variant is a violated precondition of construction or of a query;
/// none is transient, so none is worth retrying.
#[derive(Clone, Copy, Debug, PartialEq, Eq, Structural)]
pub enum AlignError {
    /// No telemetry record was supplied.
    EmptySeries,
    /// A telemetry record carries no usable timestamp.
    MissingTimestamp,
    /// The series has fewer than two samples, so it has no interval.
    SeriesTooShort,
    /// A sample was requested at a position past the end of the series.
    IndexOutOfRange,
    /// A frame was queried before the first sample of the series.
    SeriesExhausted,
}

} // verus!
