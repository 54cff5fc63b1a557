//! Identity derivation: stable, human-legible identifiers for derived
//! entities, built by concatenating business fields. Note the known
//! limitation: the fields are joined with no escaping, so field values
//! containing the joining phrases could collide.

use vstd::prelude::*;

use crate::model::{FeedError, KnownJourney, Line, RouteSection, Schedule};
use crate::timefmt::{journey_departure, journey_time, journey_time_ok};

verus! {

/// Derived identity of a route section under a line:
/// `"<line> <originator> to <destination>"`. Route sections agreeing on
/// it are duplicates; only the first is processed.
pub open spec fn section_ident(line_id: Seq<char>, originator: Seq<char>, destination: Seq<char>) -> Seq<
    char,
> {
    line_id + " "@ + originator + " to "@ + destination
}

/// Derived identity of a trip:
/// `"<section identity> scheduled <schedule> departs <HH:MM>"`, the
/// departure formatted at offset zero. It is the sole deduplication key
/// for trips and stop-time sequences.
pub open spec fn trip_ident(
    line_id: Seq<char>,
    originator: Seq<char>,
    destination: Seq<char>,
    schedule_name: Seq<char>,
    j: KnownJourney,
) -> Seq<char> {
    section_ident(line_id, originator, destination) + " scheduled "@ + schedule_name
        + " departs "@ + journey_time(j, 0)
}

/// Builds the derived route-section identifier.
pub fn route_section_id(line: &Line, section: &RouteSection) -> (r: String)
    ensures
        r@ == section_ident(line.id@, section.originator@, section.destination@),
{
    let mut s = line.id.clone();
    s.append(" ");
    s.append(section.originator.as_str());
    s.append(" to ");
    s.append(section.destination.as_str());
    proof {
        assert(s@ =~= section_ident(line.id@, section.originator@, section.destination@));
    }
    s
}

/// Builds the derived trip identifier; identical (line, section,
/// schedule-name, hour, minute) tuples always yield the identical string.
/// `Err` exactly when the journey's hour or minute is malformed.
pub fn trip_id(line: &Line, section: &RouteSection, schedule: &Schedule, journey: &KnownJourney) -> (r:
    Result<String, FeedError>)
    ensures
        r is Ok <==> journey_time_ok(*journey),
        r is Ok ==> r->Ok_0@ == trip_ident(
            line.id@,
            section.originator@,
            section.destination@,
            schedule.name@,
            *journey,
        ),
{
    let tfmt = match journey_departure(journey, 0) {
        Ok(t) => t,
        Err(e) => {
            return Err(e);
        },
    };
    let mut s = route_section_id(line, section);
    s.append(" scheduled ");
    s.append(schedule.name.as_str());
    s.append(" departs ");
    s.append(tfmt.as_str());
    proof {
        assert(s@ =~= trip_ident(
            line.id@,
            section.originator@,
            section.destination@,
            schedule.name@,
            *journey,
        ));
    }
    Ok(s)
}

} // verus!
