//! Transforms a snapshot of a transit network (lines, route sections,
//! timetables, stop hierarchies) into the row sets of a static
//! transit-feed interchange format: agency, routes, stops, calendar,
//! trips and stop-time events.
//!
//! The crate is the pure transformation engine: identity derivation for
//! route sections and trips, duplicate suppression, time arithmetic with
//! past-midnight hours, and the per-table row generators. Fetching the
//! snapshot and persisting the rows are left to the surrounding program.

pub mod dedup;
pub mod feed;
pub mod ident;
pub mod laws;
pub mod model;
pub mod numfmt;
pub mod rows;
pub mod stop_times;
pub mod stops;
pub mod tables;
pub mod timefmt;
pub mod trips;
