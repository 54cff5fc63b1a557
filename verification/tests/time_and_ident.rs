use tfl_gtfs::ident::{route_section_id, trip_id};
use tfl_gtfs::model::{KnownJourney, Line, RouteSection, Schedule};
use tfl_gtfs::numfmt::{parse_u64, u128_to_dec, u128_to_dec_pad2};
use tfl_gtfs::timefmt::{format_time, journey_departure};

fn s(x: &str) -> String {
    x.to_string()
}

fn line(id: &str, name: &str, mode: &str) -> Line {
    Line {
        id: s(id),
        name: s(name),
        mode_name: s(mode),
        route_sections: Vec::new(),
        stops: Some(Vec::new()),
    }
}

fn section(originator: &str, destination: &str) -> RouteSection {
    RouteSection {
        name: s("sec"),
        direction: s("outbound"),
        originator: s(originator),
        destination: s(destination),
        timetable: None,
    }
}

fn journey(interval_id: i64, hour: &str, minute: &str) -> KnownJourney {
    KnownJourney { interval_id, hour: s(hour), minute: s(minute) }
}

#[test]
fn parse_plain_numbers() {
    assert_eq!(parse_u64("0"), Some(0));
    assert_eq!(parse_u64("23"), Some(23));
    assert_eq!(parse_u64("0042"), Some(42));
    assert_eq!(parse_u64("18446744073709551615"), Some(u64::MAX));
}

#[test]
fn parse_rejects_bad_input() {
    assert_eq!(parse_u64(""), None);
    assert_eq!(parse_u64("12a"), None);
    assert_eq!(parse_u64("-3"), None);
    assert_eq!(parse_u64(" 3"), None);
    assert_eq!(parse_u64("18446744073709551616"), None);
}

#[test]
fn decimal_rendering() {
    assert_eq!(u128_to_dec(0), "0");
    assert_eq!(u128_to_dec(7), "7");
    assert_eq!(u128_to_dec(105), "105");
    assert_eq!(u128_to_dec_pad2(5), "05");
    assert_eq!(u128_to_dec_pad2(12), "12");
    assert_eq!(u128_to_dec_pad2(100), "100");
}

#[test]
fn format_time_plain() {
    assert_eq!(format_time(9, 5, 0), "09:05");
    assert_eq!(format_time(10, 30, 45), "11:15");
}

#[test]
fn format_time_rolls_past_midnight_without_wrapping() {
    // 23:50 plus 15 minutes is the next service day: hour 24, not 00.
    assert_eq!(format_time(23, 50, 15), "24:05");
    assert_eq!(format_time(23, 59, 61 + 60 * 24), "49:00");
}

#[test]
fn format_time_monotonic_in_offset_samples() {
    let mut last = String::new();
    for off in [0u64, 1, 9, 10, 59, 60, 61, 600] {
        let t = format_time(8, 55, off);
        assert!(t >= last, "{} < {}", t, last);
        last = t;
    }
}

#[test]
fn journey_departure_parses_and_formats() {
    let j = journey(1, "23", "50");
    assert_eq!(journey_departure(&j, 15).unwrap(), "24:05");
    let bad = journey(1, "2x", "50");
    assert!(journey_departure(&bad, 0).is_err());
}

#[test]
fn route_section_identity() {
    let l = line("L", "Line L", "bus");
    let sec = section("A", "B");
    assert_eq!(route_section_id(&l, &sec), "L A to B");
}

#[test]
fn trip_identity_composes_all_fields() {
    let l = line("25", "Route 25", "bus");
    let sec = section("ST-A", "ST-B");
    let sched = Schedule { name: s("Monday to Friday"), known_journeys: Vec::new() };
    let j = journey(9, "7", "5");
    assert_eq!(
        trip_id(&l, &sec, &sched, &j).unwrap(),
        "25 ST-A to ST-B scheduled Monday to Friday departs 07:05"
    );
}

#[test]
fn trip_identity_fails_on_malformed_minute() {
    let l = line("25", "Route 25", "bus");
    let sec = section("ST-A", "ST-B");
    let sched = Schedule { name: s("Daily"), known_journeys: Vec::new() };
    let j = journey(9, "7", "");
    assert!(trip_id(&l, &sec, &sched, &j).is_err());
}
