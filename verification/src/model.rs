//! The immutable snapshot of the transit network that the generators
//! consume: lines, their route sections and timetables, and the stop
//! hierarchy. Ingestion produces it once; the engine only reads it.
//!
//! Coordinates are carried as the strings they arrive as: the engine
//! copies them into rows and never computes with them. Travel offsets
//! are whole minutes, already floored from the source's fractional
//! minutes by whoever builds the snapshot.

use vstd::prelude::*;

verus! {

/// One cumulative step of a station interval: a downstream stop and the
/// whole minutes from the route section's origin to it.
pub struct Interval {
    pub stop_id: String,
    pub time_to_arrival: u64,
}

/// An ordered list of downstream stops with cumulative offsets, named by
/// a numeric identifier that journeys reference.
pub struct StationInterval {
    pub id: i64,
    pub intervals: Vec<Interval>,
}

/// One concrete scheduled departure: an hour and minute (decimal strings,
/// malformed ones are a fatal error) and the station interval it follows.
pub struct KnownJourney {
    pub interval_id: i64,
    pub hour: String,
    pub minute: String,
}

/// A named service pattern grouping concrete departures.
pub struct Schedule {
    pub name: String,
    pub known_journeys: Vec<KnownJourney>,
}

/// A route section's timetable: its station intervals and schedules.
pub struct TimeTable {
    pub station_intervals: Vec<StationInterval>,
    pub schedules: Vec<Schedule>,
}

/// A directional segment of a line. The timetable is absent when the
/// authority had none or it failed to decode; such a section contributes
/// no trips and no stop-time events.
pub struct RouteSection {
    pub name: String,
    pub direction: String,
    pub originator: String,
    pub destination: String,
    pub timetable: Option<TimeTable>,
}

/// A stop with one level of child stops (e.g. platforms). Children one
/// level deeper are never visited by the engine.
pub struct Stop {
    pub id: String,
    pub name: String,
    pub lat: String,
    pub lon: String,
    pub children: Vec<Stop>,
}

/// A transit line. `stops` is `None` until ingestion has populated it;
/// the stops generator requires it to be present.
pub struct Line {
    pub id: String,
    pub name: String,
    pub mode_name: String,
    pub route_sections: Vec<RouteSection>,
    pub stops: Option<Vec<Stop>>,
}

/// The one fatal error of the engine: a journey hour or minute field
/// that is not a decimal number fitting a `u64`. Everything else the
/// engine recovers from locally.
#[derive(Debug)]
pub enum FeedError {
    MalformedTime,
}

impl FeedError {
    /// A diagnostic line for the operator.
    pub fn message(&self) -> (r: String)
        ensures
            r@ == "malformed journey hour or minute field"@,
    {
        String::from_str("malformed journey hour or minute field")
    }
}

} // verus!
