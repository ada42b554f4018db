//! Temporal alignment of fitness telemetry with video frames.
//!
//! A telemetry recording is an ordered series of timestamped samples, each
//! carrying optional metrics. A video is a regular sequence of frames. The
//! [`aligner::Aligner`] walks the series forward in step with the frame
//! timestamps and reports, for every frame, the bracketing telemetry interval
//! and the metric values inside it.
//!
//! All times are microseconds since the Unix epoch, and every metric is an
//! integer: readings that are real-valued at their source are carried in
//! millionths of their unit.

pub mod aligner;
pub mod error;
pub mod frames;
pub mod interp;
pub mod parser;
pub mod record;
pub mod series;
