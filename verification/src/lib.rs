//! Verified core of a `head`-style utility: it validates the numeric
//! arguments, builds the run configuration, and renders the truncated
//! leading portion of each input source, by line count or by byte count,
//! together with the per-source headers and diagnostics.

pub mod config;
pub mod head;
pub mod parse;
