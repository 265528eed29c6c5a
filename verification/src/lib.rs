//! Core engine of a log-viewing application: regex filter evaluation,
//! memory-mapped file indexing with a newline offset table, a live-stream
//! line buffer, and the session controller that arbitrates between them.

mod errors;
mod filter;
mod indexer;
mod session;
mod stream;

pub use errors::CoreError;
pub use filter::FilterEngine;
pub use filter::LogFilter;
pub use indexer::Indexer;
pub use indexer::MinimapBucket;
pub use session::FilterResult;
pub use session::Session;
pub use stream::AdbLine;
pub use stream::BATCH_LIMIT;
pub use stream::FLUSH_INTERVAL_MS;
pub use stream::should_flush;
