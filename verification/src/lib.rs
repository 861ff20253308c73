//! Per-process GPU memory accounting.
//!
//! The library parses a line-oriented diagnostic stream that enumerates GPU
//! memory allocations grouped by owning process, accumulates per-process
//! totals for VRAM, GTT and unrecognized memory types, orders the resulting
//! table for reporting, and renders byte counts in human-readable binary
//! magnitudes.

pub mod bytefmt;
pub mod conservation;
pub mod intlog;
pub mod numbers;
pub mod parser;
pub mod report;
pub mod tokens;

pub use bytefmt::format_bytes;
pub use intlog::checked_log;
pub use intlog::log;
pub use parser::parse_lines;
pub use parser::MemoryUsage;
pub use parser::ParseState;
pub use parser::SENTINEL_PID;
pub use report::report_order;
