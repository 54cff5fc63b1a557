//! The three simple tables: agency (one static row), routes (one row per
//! line, with the mode mapped to an interchange route-type code), and
//! calendar (a fixed, hand-curated list of named service patterns).

use vstd::prelude::*;

use crate::model::Line;
use crate::rows::{row10, row4, row5, str_eq};

verus! {

/// The agency table: header plus the one fixed operator row.
pub open spec fn agency_table() -> Seq<Seq<Seq<char>>> {
    seq![
        seq!["agency_id"@, "agency_name"@, "agency_url"@, "agency_timezone"@],
        seq!["tfl"@, "Transport For London"@, "https://tfl.gov.uk"@, "Europe/London"@],
    ]
}

/// Emits the agency table.
pub fn agency_rows() -> (r: Vec<Vec<String>>)
    ensures
        r.deep_view() == agency_table(),
{
    let mut out: Vec<Vec<String>> = Vec::new();
    out.push(
        row4(
            String::from_str("agency_id"),
            String::from_str("agency_name"),
            String::from_str("agency_url"),
            String::from_str("agency_timezone"),
        ),
    );
    out.push(
        row4(
            String::from_str("tfl"),
            String::from_str("Transport For London"),
            String::from_str("https://tfl.gov.uk"),
            String::from_str("Europe/London"),
        ),
    );
    proof {
        assert(out.deep_view() =~~= agency_table());
    }
    out
}

/// The transport modes the route-type mapping knows.
pub open spec fn mode_mapped(mode: Seq<char>) -> bool {
    ||| mode == "dlr"@
    ||| mode == "tram"@
    ||| mode == "tube"@
    ||| mode == "overground"@
    ||| mode == "national-rail"@
    ||| mode == "tflrail"@
    ||| mode == "bus"@
    ||| mode == "river-tour"@
    ||| mode == "river-bus"@
    ||| mode == "cable-car"@
}

/// The interchange route-type code of a transport mode: tram/light rail 0,
/// metro 1, heavy rail 2, bus 3, ferry 4, cable transport 5; empty for an
/// unmapped mode (a diagnostic, not a failure).
pub open spec fn route_type_for(mode: Seq<char>) -> Seq<char> {
    if mode == "dlr"@ || mode == "tram"@ {
        "0"@
    } else if mode == "tube"@ || mode == "overground"@ {
        "1"@
    } else if mode == "national-rail"@ || mode == "tflrail"@ {
        "2"@
    } else if mode == "bus"@ {
        "3"@
    } else if mode == "river-tour"@ || mode == "river-bus"@ {
        "4"@
    } else if mode == "cable-car"@ {
        "5"@
    } else {
        ""@
    }
}

/// The diagnostic line emitted for an unmapped mode.
pub open spec fn mode_diag(mode: Seq<char>) -> Seq<char> {
    "Missing line modeName match: "@ + mode
}

/// Maps a line's mode to its route-type code; the empty string exactly
/// for unmapped modes.
pub fn route_type(line: &Line) -> (r: &'static str)
    ensures
        r@ == route_type_for(line.mode_name@),
        r@.len() == 0 <==> !mode_mapped(line.mode_name@),
{
    proof {
        reveal_strlit("");
        reveal_strlit("0");
        reveal_strlit("1");
        reveal_strlit("2");
        reveal_strlit("3");
        reveal_strlit("4");
        reveal_strlit("5");
    }
    let mode = line.mode_name.as_str();
    if str_eq(mode, "dlr") || str_eq(mode, "tram") {
        "0"
    } else if str_eq(mode, "tube") || str_eq(mode, "overground") {
        "1"
    } else if str_eq(mode, "national-rail") || str_eq(mode, "tflrail") {
        "2"
    } else if str_eq(mode, "bus") {
        "3"
    } else if str_eq(mode, "river-tour") || str_eq(mode, "river-bus") {
        "4"
    } else if str_eq(mode, "cable-car") {
        "5"
    } else {
        ""
    }
}

/// The routes-table header.
pub open spec fn routes_header() -> Seq<Seq<char>> {
    seq!["route_id"@, "agency_id"@, "route_short_name"@, "route_long_name"@, "route_type"@]
}

/// One routes row: the line under the fixed agency, short name only, and
/// its route-type code.
pub open spec fn route_row(line: Line) -> Seq<Seq<char>> {
    seq![line.id@, "tfl"@, line.name@, ""@, route_type_for(line.mode_name@)]
}

/// The routes rows below the header, one per line in snapshot order.
pub open spec fn routes_body(lines: Seq<Line>) -> Seq<Seq<Seq<char>>> {
    lines.map(|i: int, l: Line| route_row(l))
}

/// The whole routes table.
pub open spec fn routes_table(lines: Seq<Line>) -> Seq<Seq<Seq<char>>> {
    seq![routes_header()] + routes_body(lines)
}

/// The diagnostics of a routes pass: one line per unmapped mode, in order.
pub open spec fn routes_diags(lines: Seq<Line>) -> Seq<Seq<char>>
    decreases lines.len(),
{
    if lines.len() == 0 {
        Seq::empty()
    } else {
        routes_diags(lines.drop_last()) + (if mode_mapped(lines.last().mode_name@) {
            Seq::empty()
        } else {
            seq![mode_diag(lines.last().mode_name@)]
        })
    }
}

/// Emits the routes table and the diagnostics for unmapped modes.
pub fn routes_rows(lines: &Vec<Line>) -> (r: (Vec<Vec<String>>, Vec<String>))
    ensures
        r.0.deep_view() == routes_table(lines@),
        r.1.deep_view() == routes_diags(lines@),
{
    let mut out: Vec<Vec<String>> = Vec::new();
    let mut diags: Vec<String> = Vec::new();
    out.push(
        row5(
            String::from_str("route_id"),
            String::from_str("agency_id"),
            String::from_str("route_short_name"),
            String::from_str("route_long_name"),
            String::from_str("route_type"),
        ),
    );
    let n = lines.len();
    let mut i: usize = 0;
    while i < n
        invariant
            0 <= i <= n == lines@.len(),
            out.deep_view() == routes_table(lines@.subrange(0, i as int)),
            diags.deep_view() == routes_diags(lines@.subrange(0, i as int)),
        decreases n - i,
    {
        let ghost prev_out = out.deep_view();
        let ghost prev_diags = diags.deep_view();
        let line = &lines[i];
        let rt = route_type(line);
        if rt.is_empty() {
            let mut d = String::from_str("Missing line modeName match: ");
            d.append(line.mode_name.as_str());
            diags.push(d);
        }
        let row = row5(
            line.id.clone(),
            String::from_str("tfl"),
            line.name.clone(),
            String::from_str(""),
            String::from_str(rt),
        );
        out.push(row);
        proof {
            let pre = lines@.subrange(0, i as int);
            let cur = lines@.subrange(0, i + 1 as int);
            assert(cur.drop_last() =~= pre);
            assert(out.deep_view() =~= prev_out.push(route_row(lines@[i as int])));
            assert(out.deep_view() =~= routes_table(cur));
            assert(diags.deep_view() =~= routes_diags(cur));
        }
        i += 1;
    }
    proof {
        assert(lines@.subrange(0, n as int) =~= lines@);
    }
    (out, diags)
}

/// The calendar-table header.
pub open spec fn calendar_header() -> Seq<Seq<char>> {
    seq![
        "service_id"@,
        "monday"@,
        "tuesday"@,
        "wednesday"@,
        "thursday"@,
        "friday"@,
        "saturday"@,
        "sunday"@,
        "start_date"@,
        "end_date"@,
    ]
}

/// One calendar row: a service name, its seven day flags, and the fixed
/// validity range.
pub open spec fn cal_row(
    name: Seq<char>,
    mo: Seq<char>,
    tu: Seq<char>,
    we: Seq<char>,
    th: Seq<char>,
    fr: Seq<char>,
    sa: Seq<char>,
    su: Seq<char>,
) -> Seq<Seq<char>> {
    seq![name, mo, tu, we, th, fr, sa, su, "20151031"@, "20161031"@]
}

/// Builds one calendar row.
fn calendar_row(
    name: &str,
    mo: &str,
    tu: &str,
    we: &str,
    th: &str,
    fr: &str,
    sa: &str,
    su: &str,
) -> (r: Vec<String>)
    ensures
        r.deep_view() == cal_row(name@, mo@, tu@, we@, th@, fr@, sa@, su@),
{
    row10(
        String::from_str(name),
        String::from_str(mo),
        String::from_str(tu),
        String::from_str(we),
        String::from_str(th),
        String::from_str(fr),
        String::from_str(sa),
        String::from_str(su),
        String::from_str("20151031"),
        String::from_str("20161031"),
    )
}

/// The fixed calendar table: the named service patterns the authority's
/// schedules use, each with its day-of-week flags.
pub open spec fn calendar_table() -> Seq<Seq<Seq<char>>> {
    seq![
        calendar_header(),
        cal_row("School Monday"@, "1"@, "0"@, "0"@, "0"@, "0"@, "0"@, "0"@),
        cal_row("Sunday Night/Monday Morning"@, "1"@, "0"@, "0"@, "0"@, "0"@, "0"@, "1"@),
        cal_row("School Monday, Tuesday, Thursday & Friday"@, "1"@, "1"@, "0"@, "1"@, "1"@, "0"@, "0"@),
        cal_row("Tuesday"@, "0"@, "1"@, "0"@, "0"@, "0"@, "0"@, "0"@),
        cal_row("Monday - Thursday"@, "1"@, "1"@, "1"@, "1"@, "0"@, "0"@, "0"@),
        cal_row("Saturday"@, "0"@, "0"@, "0"@, "0"@, "0"@, "0"@, "1"@),
        cal_row("Saturday and Sunday"@, "0"@, "0"@, "0"@, "0"@, "0"@, "1"@, "1"@),
        cal_row("Sunday"@, "0"@, "0"@, "0"@, "0"@, "0"@, "0"@, "1"@),
        cal_row("School Tuesday"@, "0"@, "1"@, "0"@, "0"@, "0"@, "0"@, "0"@),
        cal_row("Saturday Night/Sunday Morning"@, "0"@, "0"@, "0"@, "0"@, "0"@, "1"@, "1"@),
        cal_row("Mo-Fr Night/Tu-Sat Morning"@, "1"@, "1"@, "1"@, "1"@, "1"@, "1"@, "0"@),
        cal_row("Monday to Thursday"@, "1"@, "1"@, "1"@, "1"@, "0"@, "0"@, "0"@),
        cal_row("Mo-Th Nights/Tu-Fr Morning"@, "1"@, "1"@, "1"@, "1"@, "1"@, "0"@, "0"@),
        cal_row("Saturday (also Good Friday)"@, "0"@, "0"@, "0"@, "0"@, "0"@, "1"@, "0"@),
        cal_row("Mon-Th Schooldays"@, "1"@, "1"@, "1"@, "1"@, "0"@, "0"@, "0"@),
        cal_row("Saturdays and Public Holidays"@, "0"@, "0"@, "0"@, "0"@, "0"@, "1"@, "0"@),
        cal_row("Friday Night/Saturday Morning"@, "0"@, "0"@, "0"@, "0"@, "1"@, "1"@, "0"@),
        cal_row("Friday"@, "0"@, "0"@, "0"@, "0"@, "1"@, "0"@, "0"@),
        cal_row("Thursdays"@, "0"@, "0"@, "0"@, "1"@, "0"@, "0"@, "0"@),
        cal_row(
            "Sunday night/Monday morning - Thursday night/Friday morning"@,
            "1"@,
            "1"@,
            "1"@,
            "1"@,
            "1"@,
            "0"@,
            "1"@,
        ),
        cal_row("School Thursday"@, "0"@, "0"@, "0"@, "1"@, "0"@, "0"@, "0"@),
        cal_row("School Friday"@, "0"@, "0"@, "0"@, "0"@, "1"@, "0"@, "0"@),
        cal_row("Daily"@, "1"@, "1"@, "1"@, "1"@, "1"@, "1"@, "1"@),
        cal_row("Tuesday, Wednesday & Thursday"@, "0"@, "1"@, "1"@, "1"@, "0"@, "0"@, "0"@),
        cal_row("Mon-Fri Schooldays"@, "1"@, "1"@, "1"@, "1"@, "1"@, "0"@, "0"@),
        cal_row("Wednesday"@, "0"@, "0"@, "1"@, "0"@, "0"@, "0"@, "0"@),
        cal_row("Monday, Tuesday and Thursday"@, "1"@, "1"@, "0"@, "1"@, "0"@, "0"@, "0"@),
        cal_row("Wednesdays"@, "0"@, "0"@, "1"@, "0"@, "0"@, "0"@, "0"@),
        cal_row("Monday to Friday"@, "1"@, "1"@, "1"@, "1"@, "1"@, "0"@, "0"@),
        cal_row("Monday"@, "1"@, "0"@, "0"@, "0"@, "0"@, "0"@, "0"@),
        cal_row("Sunday and other Public Holidays"@, "0"@, "0"@, "0"@, "0"@, "0"@, "0"@, "1"@),
        cal_row("School Wednesday"@, "0"@, "0"@, "1"@, "0"@, "0"@, "0"@, "0"@),
        cal_row("Monday - Friday"@, "1"@, "1"@, "1"@, "1"@, "1"@, "0"@, "0"@),
    ]
}

/// Emits the calendar table.
pub fn calendar_rows() -> (r: Vec<Vec<String>>)
    ensures
        r.deep_view() == calendar_table(),
{
    let mut out: Vec<Vec<String>> = Vec::new();
    out.push(
        row10(
            String::from_str("service_id"),
            String::from_str("monday"),
            String::from_str("tuesday"),
            String::from_str("wednesday"),
            String::from_str("thursday"),
            String::from_str("friday"),
            String::from_str("saturday"),
            String::from_str("sunday"),
            String::from_str("start_date"),
            String::from_str("end_date"),
        ),
    );
    out.push(calendar_row("School Monday", "1", "0", "0", "0", "0", "0", "0"));
    out.push(calendar_row("Sunday Night/Monday Morning", "1", "0", "0", "0", "0", "0", "1"));
    out.push(
        calendar_row("School Monday, Tuesday, Thursday & Friday", "1", "1", "0", "1", "1", "0", "0"),
    );
    out.push(calendar_row("Tuesday", "0", "1", "0", "0", "0", "0", "0"));
    out.push(calendar_row("Monday - Thursday", "1", "1", "1", "1", "0", "0", "0"));
    out.push(calendar_row("Saturday", "0", "0", "0", "0", "0", "0", "1"));
    out.push(calendar_row("Saturday and Sunday", "0", "0", "0", "0", "0", "1", "1"));
    out.push(calendar_row("Sunday", "0", "0", "0", "0", "0", "0", "1"));
    out.push(calendar_row("School Tuesday", "0", "1", "0", "0", "0", "0", "0"));
    out.push(calendar_row("Saturday Night/Sunday Morning", "0", "0", "0", "0", "0", "1", "1"));
    out.push(calendar_row("Mo-Fr Night/Tu-Sat Morning", "1", "1", "1", "1", "1", "1", "0"));
    out.push(calendar_row("Monday to Thursday", "1", "1", "1", "1", "0", "0", "0"));
    out.push(calendar_row("Mo-Th Nights/Tu-Fr Morning", "1", "1", "1", "1", "1", "0", "0"));
    out.push(calendar_row("Saturday (also Good Friday)", "0", "0", "0", "0", "0", "1", "0"));
    out.push(calendar_row("Mon-Th Schooldays", "1", "1", "1", "1", "0", "0", "0"));
    out.push(calendar_row("Saturdays and Public Holidays", "0", "0", "0", "0", "0", "1", "0"));
    out.push(calendar_row("Friday Night/Saturday Morning", "0", "0", "0", "0", "1", "1", "0"));
    out.push(calendar_row("Friday", "0", "0", "0", "0", "1", "0", "0"));
    out.push(calendar_row("Thursdays", "0", "0", "0", "1", "0", "0", "0"));
    out.push(
        calendar_row(
            "Sunday night/Monday morning - Thursday night/Friday morning",
            "1",
            "1",
            "1",
            "1",
            "1",
            "0",
            "1",
        ),
    );
    out.push(calendar_row("School Thursday", "0", "0", "0", "1", "0", "0", "0"));
    out.push(calendar_row("School Friday", "0", "0", "0", "0", "1", "0", "0"));
    out.push(calendar_row("Daily", "1", "1", "1", "1", "1", "1", "1"));
    out.push(calendar_row("Tuesday, Wednesday & Thursday", "0", "1", "1", "1", "0", "0", "0"));
    out.push(calendar_row("Mon-Fri Schooldays", "1", "1", "1", "1", "1", "0", "0"));
    out.push(calendar_row("Wednesday", "0", "0", "1", "0", "0", "0", "0"));
    out.push(calendar_row("Monday, Tuesday and Thursday", "1", "1", "0", "1", "0", "0", "0"));
    out.push(calendar_row("Wednesdays", "0", "0", "1", "0", "0", "0", "0"));
    out.push(calendar_row("Monday to Friday", "1", "1", "1", "1", "1", "0", "0"));
    out.push(calendar_row("Monday", "1", "0", "0", "0", "0", "0", "0"));
    out.push(calendar_row("Sunday and other Public Holidays", "0", "0", "0", "0", "0", "0", "1"));
    out.push(calendar_row("School Wednesday", "0", "0", "1", "0", "0", "0", "0"));
    out.push(calendar_row("Monday - Friday", "1", "1", "1", "1", "1", "0", "0"));
    proof {
        assert(out.deep_view() =~~= calendar_table());
    }
    out
}

} // verus!
