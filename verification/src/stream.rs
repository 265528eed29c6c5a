//! Live-stream ingestion rules: the batching bound that caps the rate of
//! "new lines" notifications, and the line record a stream emits.

use vstd::prelude::*;

verus! {

/// A single line read from the live stream, with the time it arrived.
#[derive(Debug, Clone)]
pub struct AdbLine {
    pub content: String,
    pub timestamp: u64,
}

/// Largest batch of stream lines held back before a notification is owed.
pub const BATCH_LIMIT: usize = 100;

/// Longest time, in milliseconds, a non-empty batch may wait before a
/// notification is owed.
pub const FLUSH_INTERVAL_MS: u64 = 100;

/// Decides whether a pending batch of stream lines must be flushed to the
/// frontend now: either the batch has reached the size bound, or it is
/// non-empty and the flush interval has elapsed since the last emission.
pub fn should_flush(batch_len: usize, elapsed_ms: u64) -> (flush: bool)
    ensures
        flush == (batch_len >= BATCH_LIMIT || (elapsed_ms >= FLUSH_INTERVAL_MS && batch_len > 0)),
{
    batch_len >= BATCH_LIMIT || (elapsed_ms >= FLUSH_INTERVAL_MS && batch_len > 0)
}

} // verus!
