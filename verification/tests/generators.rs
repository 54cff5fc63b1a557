use tfl_gtfs::dedup::Dedup;
use tfl_gtfs::feed::build_feed;
use tfl_gtfs::model::{
    FeedError, Interval, KnownJourney, Line, RouteSection, Schedule, StationInterval, Stop,
    TimeTable,
};
use tfl_gtfs::stop_times::stop_times_rows;
use tfl_gtfs::stops::stops_rows;
use tfl_gtfs::tables::{agency_rows, calendar_rows, route_type, routes_rows};
use tfl_gtfs::trips::trips_rows;

fn s(x: &str) -> String {
    x.to_string()
}

fn row(fields: &[&str]) -> Vec<String> {
    fields.iter().map(|f| s(f)).collect()
}

fn stop(id: &str, name: &str, lat: &str, lon: &str, children: Vec<Stop>) -> Stop {
    Stop { id: s(id), name: s(name), lat: s(lat), lon: s(lon), children }
}

fn journey(interval_id: i64, hour: &str, minute: &str) -> KnownJourney {
    KnownJourney { interval_id, hour: s(hour), minute: s(minute) }
}

fn interval(stop_id: &str, minutes: u64) -> Interval {
    Interval { stop_id: s(stop_id), time_to_arrival: minutes }
}

fn section_with(
    originator: &str,
    destination: &str,
    timetable: Option<TimeTable>,
) -> RouteSection {
    RouteSection {
        name: s("sec"),
        direction: s("outbound"),
        originator: s(originator),
        destination: s(destination),
        timetable,
    }
}

fn line_with(id: &str, name: &str, mode: &str, sections: Vec<RouteSection>, stops: Vec<Stop>) -> Line {
    Line { id: s(id), name: s(name), mode_name: s(mode), route_sections: sections, stops: Some(stops) }
}

fn simple_timetable() -> TimeTable {
    TimeTable {
        station_intervals: vec![StationInterval {
            id: 7,
            intervals: vec![interval("S2", 4), interval("S3", 10)],
        }],
        schedules: vec![Schedule {
            name: s("Monday to Friday"),
            known_journeys: vec![journey(7, "9", "30")],
        }],
    }
}

#[test]
fn agency_table_is_fixed() {
    assert_eq!(
        agency_rows(),
        vec![
            row(&["agency_id", "agency_name", "agency_url", "agency_timezone"]),
            row(&["tfl", "Transport For London", "https://tfl.gov.uk", "Europe/London"]),
        ]
    );
}

#[test]
fn route_type_maps_every_known_mode() {
    let mk = |mode: &str| line_with("x", "x", mode, Vec::new(), Vec::new());
    assert_eq!(route_type(&mk("dlr")), "0");
    assert_eq!(route_type(&mk("tram")), "0");
    assert_eq!(route_type(&mk("tube")), "1");
    assert_eq!(route_type(&mk("overground")), "1");
    assert_eq!(route_type(&mk("national-rail")), "2");
    assert_eq!(route_type(&mk("tflrail")), "2");
    assert_eq!(route_type(&mk("bus")), "3");
    assert_eq!(route_type(&mk("river-tour")), "4");
    assert_eq!(route_type(&mk("river-bus")), "4");
    assert_eq!(route_type(&mk("cable-car")), "5");
    assert_eq!(route_type(&mk("zeppelin")), "");
}

#[test]
fn routes_row_for_bus_line() {
    let lines = vec![line_with("N1", "Night One", "bus", Vec::new(), Vec::new())];
    let (rows, diags) = routes_rows(&lines);
    assert_eq!(
        rows,
        vec![
            row(&["route_id", "agency_id", "route_short_name", "route_long_name", "route_type"]),
            row(&["N1", "tfl", "Night One", "", "3"]),
        ]
    );
    assert!(diags.is_empty());
}

#[test]
fn routes_unmapped_mode_diagnosed_not_fatal() {
    let lines = vec![line_with("Z9", "Zeppelin Nine", "zeppelin", Vec::new(), Vec::new())];
    let (rows, diags) = routes_rows(&lines);
    assert_eq!(rows[1], row(&["Z9", "tfl", "Zeppelin Nine", "", ""]));
    assert_eq!(diags, vec![s("Missing line modeName match: zeppelin")]);
}

#[test]
fn calendar_is_the_fixed_pattern_table() {
    let rows = calendar_rows();
    assert_eq!(rows.len(), 34);
    assert_eq!(
        rows[0],
        row(&[
            "service_id",
            "monday",
            "tuesday",
            "wednesday",
            "thursday",
            "friday",
            "saturday",
            "sunday",
            "start_date",
            "end_date"
        ])
    );
    assert_eq!(
        rows[23],
        row(&["Daily", "1", "1", "1", "1", "1", "1", "1", "20151031", "20161031"])
    );
    assert_eq!(
        rows[33],
        row(&["Monday - Friday", "1", "1", "1", "1", "1", "0", "0", "20151031", "20161031"])
    );
}

#[test]
fn dedup_tracks_marked_identifiers() {
    let mut d = Dedup::new();
    assert!(!d.seen(&s("a")));
    d.mark_seen(&s("a"));
    assert!(d.seen(&s("a")));
    assert!(!d.seen(&s("b")));
}

#[test]
fn stops_flatten_children_with_parent_coordinates() {
    let child = stop("PLAT1", "Platform 1", "9.9", "9.9", Vec::new());
    let parent = stop("STN", "Main Station", "51.5", "-0.1", vec![child]);
    let lines = vec![line_with("L", "L", "bus", Vec::new(), vec![parent])];
    let rows = stops_rows(&lines);
    assert_eq!(
        rows,
        vec![
            row(&["stop_id", "stop_name", "stop_lat", "stop_lon"]),
            row(&["STN", "Main Station", "51.5", "-0.1"]),
            // the child is emitted with the parent's coordinates
            row(&["PLAT1", "Platform 1", "51.5", "-0.1"]),
        ]
    );
}

#[test]
fn stop_on_two_lines_emitted_once() {
    let a = stop("X", "Shared", "1.0", "2.0", Vec::new());
    let b = stop("X", "Shared", "1.0", "2.0", Vec::new());
    let other = stop("Y", "Other", "3.0", "4.0", Vec::new());
    let lines = vec![
        line_with("L1", "L1", "bus", Vec::new(), vec![a]),
        line_with("L2", "L2", "bus", Vec::new(), vec![b, other]),
    ];
    let rows = stops_rows(&lines);
    assert_eq!(rows.len(), 3);
    assert_eq!(rows[1][0], "X");
    assert_eq!(rows[2][0], "Y");
}

#[test]
fn trips_rows_for_one_journey() {
    let sec = section_with("S1", "S3", Some(simple_timetable()));
    let lines = vec![line_with("L", "Line", "bus", vec![sec], Vec::new())];
    let rows = trips_rows(&lines).unwrap();
    assert_eq!(
        rows,
        vec![
            row(&["route_id", "service_id", "trip_id"]),
            row(&["L", "Monday to Friday", "L S1 to S3 scheduled Monday to Friday departs 09:30"]),
        ]
    );
}

#[test]
fn identical_journeys_make_one_trip() {
    let mut tt = simple_timetable();
    tt.schedules[0].known_journeys.push(journey(7, "9", "30"));
    let sec = section_with("S1", "S3", Some(tt));
    let lines = vec![line_with("L", "Line", "bus", vec![sec], Vec::new())];
    let rows = trips_rows(&lines).unwrap();
    assert_eq!(rows.len(), 2);
}

#[test]
fn duplicate_route_section_processed_once() {
    let sec1 = section_with("S1", "S3", Some(simple_timetable()));
    let sec2 = section_with("S1", "S3", Some(simple_timetable()));
    let lines = vec![line_with("L", "Line", "bus", vec![sec1, sec2], Vec::new())];
    let rows = trips_rows(&lines).unwrap();
    assert_eq!(rows.len(), 2);
    let st = stop_times_rows(&lines).unwrap();
    assert_eq!(st.0.len(), 4);
}

#[test]
fn sectionless_timetable_contributes_nothing() {
    let sec = section_with("S1", "S3", None);
    let lines = vec![line_with("L", "Line", "bus", vec![sec], Vec::new())];
    assert_eq!(trips_rows(&lines).unwrap().len(), 1);
    let (st, diags) = stop_times_rows(&lines).unwrap();
    assert_eq!(st.len(), 1);
    assert!(diags.is_empty());
}

#[test]
fn malformed_hour_is_fatal() {
    let mut tt = simple_timetable();
    tt.schedules[0].known_journeys[0].hour = s("nine");
    let sec = section_with("S1", "S3", Some(tt));
    let lines = vec![line_with("L", "Line", "bus", vec![sec], Vec::new())];
    assert!(matches!(trips_rows(&lines), Err(FeedError::MalformedTime)));
    assert!(matches!(stop_times_rows(&lines), Err(FeedError::MalformedTime)));
    assert_eq!(
        FeedError::MalformedTime.message(),
        "malformed journey hour or minute field"
    );
}

#[test]
fn stop_times_sequence_and_times() {
    let sec = section_with("S1", "S3", Some(simple_timetable()));
    let lines = vec![line_with("L", "Line", "bus", vec![sec], Vec::new())];
    let (rows, diags) = stop_times_rows(&lines).unwrap();
    let tid = "L S1 to S3 scheduled Monday to Friday departs 09:30";
    assert_eq!(
        rows,
        vec![
            row(&["trip_id", "stop_id", "stop_sequence", "arrival_time", "departure_time"]),
            row(&[tid, "S1", "1", "09:30", "09:30"]),
            row(&[tid, "S2", "2", "09:34", "09:34"]),
            row(&[tid, "S3", "3", "09:40", "09:40"]),
        ]
    );
    assert!(diags.is_empty());
}

#[test]
fn stop_times_roll_past_midnight() {
    let tt = TimeTable {
        station_intervals: vec![StationInterval { id: 1, intervals: vec![interval("S2", 15)] }],
        schedules: vec![Schedule { name: s("Daily"), known_journeys: vec![journey(1, "23", "50")] }],
    };
    let sec = section_with("S1", "S2", Some(tt));
    let lines = vec![line_with("N", "Night", "bus", vec![sec], Vec::new())];
    let (rows, _) = stop_times_rows(&lines).unwrap();
    assert_eq!(rows[1][3], "23:50");
    assert_eq!(rows[2][3], "24:05");
}

#[test]
fn unresolvable_interval_skipped_with_diagnostic() {
    let mut tt = simple_timetable();
    tt.schedules[0].known_journeys[0].interval_id = 99;
    let sec = section_with("S1", "S3", Some(tt));
    let lines = vec![line_with("L", "Line", "bus", vec![sec], Vec::new())];
    let (rows, diags) = stop_times_rows(&lines).unwrap();
    assert_eq!(rows.len(), 1);
    assert_eq!(diags, vec![s("Error, Could not find interval for schedule!!!!")]);
    // the trips pass does not consult intervals, so the trip row still appears
    assert_eq!(trips_rows(&lines).unwrap().len(), 2);
}

#[test]
fn repeated_interval_identifier_resolves_to_last() {
    let tt = TimeTable {
        station_intervals: vec![
            StationInterval { id: 5, intervals: vec![interval("OLD", 1)] },
            StationInterval { id: 5, intervals: vec![interval("NEW", 2)] },
        ],
        schedules: vec![Schedule { name: s("Daily"), known_journeys: vec![journey(5, "6", "0")] }],
    };
    let sec = section_with("S1", "S2", Some(tt));
    let lines = vec![line_with("L", "Line", "bus", vec![sec], Vec::new())];
    let (rows, _) = stop_times_rows(&lines).unwrap();
    assert_eq!(rows[2][1], "NEW");
}

#[test]
fn feed_collects_all_tables_and_diagnostics() {
    let mut tt = simple_timetable();
    tt.schedules[0].known_journeys.push(journey(42, "10", "0"));
    let sec = section_with("S1", "S3", Some(tt));
    let lines = vec![line_with("L", "Line", "hovercraft", vec![sec], Vec::new())];
    let feed = build_feed(&lines).unwrap();
    assert_eq!(feed.agency.len(), 2);
    assert_eq!(feed.routes.len(), 2);
    assert_eq!(feed.calendar.len(), 34);
    assert_eq!(feed.stops.len(), 1);
    assert_eq!(feed.trips.len(), 3);
    assert_eq!(feed.stop_times.len(), 4);
    assert_eq!(
        feed.diagnostics,
        vec![
            s("Missing line modeName match: hovercraft"),
            s("Error, Could not find interval for schedule!!!!"),
        ]
    );
}

#[test]
fn feed_fails_fast_on_malformed_time() {
    let mut tt = simple_timetable();
    tt.schedules[0].known_journeys[0].minute = s("");
    let sec = section_with("S1", "S3", Some(tt));
    let lines = vec![line_with("L", "Line", "bus", vec![sec], Vec::new())];
    assert!(build_feed(&lines).is_err());
}

#[test]
fn same_trip_signature_across_schedules_emitted_once() {
    // the trip seen-set spans all schedules of one section, so an
    // identically named schedule repeating a journey adds no row
    let mut tt = simple_timetable();
    tt.schedules.push(Schedule {
        name: s("Monday to Friday"),
        known_journeys: vec![journey(7, "9", "30")],
    });
    let sec = section_with("S1", "S3", Some(tt));
    let lines = vec![line_with("L", "Line", "bus", vec![sec], Vec::new())];
    assert_eq!(trips_rows(&lines).unwrap().len(), 2);
    assert_eq!(stop_times_rows(&lines).unwrap().0.len(), 4);
}

#[test]
fn children_of_an_already_seen_stop_are_not_visited() {
    // once a stop identifier is marked, a later occurrence of that stop
    // is skipped entirely, its children included
    let plain = stop("DUP", "First Sight", "1.0", "1.0", Vec::new());
    let with_child = stop(
        "DUP",
        "Second Sight",
        "2.0",
        "2.0",
        vec![stop("KID", "Never Emitted", "3.0", "3.0", Vec::new())],
    );
    let lines = vec![
        line_with("L1", "L1", "bus", Vec::new(), vec![plain]),
        line_with("L2", "L2", "bus", Vec::new(), vec![with_child]),
    ];
    let rows = stops_rows(&lines);
    assert_eq!(rows.len(), 2);
    assert_eq!(rows[1], row(&["DUP", "First Sight", "1.0", "1.0"]));
}
