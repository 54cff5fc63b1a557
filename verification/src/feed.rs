//! The whole feed: every table generated from one snapshot, in the fixed
//! order agency, routes, stops, calendar, trips, stop-times, together
//! with the diagnostics the passes produced.

use vstd::prelude::*;

use crate::model::{FeedError, Line};
use crate::stop_times::{st_lines_times_ok, stop_times_diags, stop_times_rows, stop_times_table};
use crate::stops::{stops_rows, stops_table};
use crate::tables::{agency_rows, agency_table, calendar_rows, calendar_table, routes_diags, routes_rows, routes_table};
use crate::trips::{lines_times_ok, trips_rows, trips_table};

verus! {

/// The six generated tables and the diagnostics, each table a header row
/// followed by its data rows.
pub struct Feed {
    pub agency: Vec<Vec<String>>,
    pub routes: Vec<Vec<String>>,
    pub stops: Vec<Vec<String>>,
    pub calendar: Vec<Vec<String>>,
    pub trips: Vec<Vec<String>>,
    pub stop_times: Vec<Vec<String>>,
    pub diagnostics: Vec<String>,
}

/// Generates the whole feed from an ingested snapshot. Requires every
/// line's stops to be populated; fails exactly when some journey a pass
/// processes has a malformed hour or minute.
pub fn build_feed(lines: &Vec<Line>) -> (r: Result<Feed, FeedError>)
    requires
        forall|i: int| 0 <= i < lines@.len() ==> lines@[i].stops is Some,
    ensures
        r is Ok <==> lines_times_ok(lines@) && st_lines_times_ok(lines@),
        r is Ok ==> (r->Ok_0).agency.deep_view() == agency_table(),
        r is Ok ==> (r->Ok_0).routes.deep_view() == routes_table(lines@),
        r is Ok ==> (r->Ok_0).stops.deep_view() == stops_table(lines@),
        r is Ok ==> (r->Ok_0).calendar.deep_view() == calendar_table(),
        r is Ok ==> (r->Ok_0).trips.deep_view() == trips_table(lines@),
        r is Ok ==> (r->Ok_0).stop_times.deep_view() == stop_times_table(lines@),
        r is Ok ==> (r->Ok_0).diagnostics.deep_view() == routes_diags(lines@) + stop_times_diags(
            lines@,
        ),
{
    let agency = agency_rows();
    let (routes, mut diagnostics) = routes_rows(lines);
    let stops = stops_rows(lines);
    let calendar = calendar_rows();
    let trips = match trips_rows(lines) {
        Ok(t) => t,
        Err(e) => {
            return Err(e);
        },
    };
    let (stop_times, st_diags) = match stop_times_rows(lines) {
        Ok(p) => p,
        Err(e) => {
            return Err(e);
        },
    };
    let ghost routes_part = diagnostics.deep_view();
    let mut k: usize = 0;
    let m = st_diags.len();
    while k < m
        invariant
            0 <= k <= m == st_diags@.len(),
            st_diags.deep_view() == stop_times_diags(lines@),
            diagnostics.deep_view() == routes_part + st_diags.deep_view().subrange(0, k as int),
        decreases m - k,
    {
        let ghost prev = diagnostics.deep_view();
        diagnostics.push(st_diags[k].clone());
        proof {
            assert(diagnostics.deep_view() =~= prev.push(st_diags.deep_view()[k as int]));
            assert(diagnostics.deep_view() =~= routes_part + st_diags.deep_view().subrange(
                0,
                k + 1 as int,
            ));
        }
        k += 1;
    }
    proof {
        assert(st_diags.deep_view().subrange(0, m as int) =~= st_diags.deep_view());
    }
    Ok(Feed { agency, routes, stops, calendar, trips, stop_times, diagnostics })
}

} // verus!
