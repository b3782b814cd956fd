//! Core of an "awesome list" aggregator: parsing of markdown list documents
//! into repository links, a memory cache with TTL-based staleness, a
//! deduplicated refresh queue, a persistent record store with an asymmetric
//! merge policy, and the loader logic that ties them together.
//!
//! All time handling is explicit: callers pass the current time as unix
//! seconds, so every decision about staleness is a pure function.

pub mod strutil;
pub mod source;
pub mod markdown;
pub mod loader;
pub mod storage;
pub mod github;
pub mod server;
