//! Error kinds surfaced by the command surface.

use vstd::prelude::*;

verus! {

/// Every failure a command can report. Each variant carries the short
/// human-readable reason that is shown to the frontend.
#[derive(Debug)]
pub enum CoreError {
    /// The log file could not be opened.
    OpenFailed { reason: String },
    /// The log file could not be mapped into memory.
    MapFailed { reason: String },
    /// A filter's pattern failed to compile as a regex.
    InvalidFilterRegex { id: String, reason: String },
    /// The search query failed to compile as a regex.
    InvalidSearchRegex { reason: String },
    /// A query arrived while neither a file nor a live stream is active.
    NoSource,
    /// The live-stream subprocess could not be started.
    StreamStartFailed { reason: String },
}

} // verus!
