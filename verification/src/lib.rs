//! Splits a unified-diff text stream into one artifact per file touched,
//! optionally masking the absolute line numbers in hunk headers.
//!
//! Lines are handled as byte vectors: the input stream is line-delimited
//! by `\n`, and a line may hold arbitrary non-newline bytes.

pub mod bytes;
pub mod classify;
pub mod laws;
pub mod mask;
pub mod output;
pub mod paths;
