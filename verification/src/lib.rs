//! Builds a cyclic desktop-wallpaper animation schedule from per-frame
//! timing metadata and renders it as the structured-text descriptor the
//! desktop environment's wallpaper renderer consumes.
use vstd::prelude::*;

pub mod builder;
pub mod numfmt;
pub mod schema;
pub mod serializer;
pub mod sorting;

verus! {

/// Number of milliseconds in one day. Times of day are measured in
/// milliseconds from midnight; durations in signed milliseconds.
pub const MILLIS_PER_DAY: u64 = 86400000;

} // verus!
