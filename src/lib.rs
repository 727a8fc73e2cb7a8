//! Commit-message generation from staged diffs: diff normalization and
//! fingerprinting, a TTL cache model, reply parsing, truncation and formatting.
pub mod diff_hasher;
pub mod text;
pub mod error;
pub mod repository;
pub mod formatter;
pub mod config;
pub mod analyzer;
pub mod cache;
pub mod providers;
pub mod git;
pub mod run;
