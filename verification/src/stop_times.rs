//! The stop-times table: for each trip, the origin event at sequence 1
//! followed by one event per interval stop, sequence numbers counting up
//! by one, arrival always equal to departure. The route-section and trip
//! deduplication mirrors the trips pass but owns its own state. A journey
//! whose interval reference does not resolve is skipped with a diagnostic;
//! a malformed time on a journey that does resolve is fatal.

use vstd::prelude::*;

use crate::dedup::Dedup;
use crate::ident::{route_section_id, trip_id, trip_ident};
use crate::model::{FeedError, KnownJourney, Line, RouteSection, Schedule, StationInterval};
use crate::numfmt::{dec_seq, dec_val, parse_u64};
use crate::rows::row5;
use crate::timefmt::{format_time, journey_time, journey_time_ok};
use crate::trips::{first_occurrence, lemma_section_id_set_last, section_id_of, section_id_set};

verus! {

/// Index of the station interval a journey references. Repeated interval
/// identifiers resolve to the last occurrence, as later entries of the
/// lookup built from the list overwrite earlier ones.
pub open spec fn find_interval(intervals: Seq<StationInterval>, id: int) -> Option<int>
    decreases intervals.len(),
{
    if intervals.len() == 0 {
        None
    } else if intervals.last().id == id {
        Some(intervals.len() - 1)
    } else {
        find_interval(intervals.drop_last(), id)
    }
}

/// Finds the station interval a journey references, if any.
pub fn lookup_interval(intervals: &Vec<StationInterval>, id: i64) -> (r: Option<usize>)
    ensures
        match r {
            Some(k) => k < intervals@.len() && find_interval(intervals@, id as int) == Some(
                k as int,
            ),
            None => find_interval(intervals@, id as int) is None,
        },
{
    let mut i: usize = intervals.len();
    proof {
        assert(intervals@.subrange(0, intervals@.len() as int) =~= intervals@);
    }
    while i > 0
        invariant
            0 <= i <= intervals@.len(),
            find_interval(intervals@, id as int) == find_interval(
                intervals@.subrange(0, i as int),
                id as int,
            ),
        decreases i,
    {
        proof {
            assert(intervals@.subrange(0, i as int).last() == intervals@[i - 1]);
            assert(intervals@.subrange(0, i as int).drop_last() =~= intervals@.subrange(
                0,
                i - 1,
            ));
        }
        if intervals[i - 1].id == id {
            return Some(i - 1);
        }
        i -= 1;
    }
    proof {
        assert(intervals@.subrange(0, 0) =~= Seq::<StationInterval>::empty());
    }
    None
}

/// The diagnostic for a journey whose interval reference has no match.
pub open spec fn missing_interval_diag() -> Seq<char> {
    "Error, Could not find interval for schedule!!!!"@
}

/// Every journey of the list whose interval resolves has well-formed
/// times: exactly what a stop-times pass parses.
pub open spec fn st_journeys_times_ok(journeys: Seq<KnownJourney>, sis: Seq<StationInterval>) -> bool {
    forall|i: int|
        0 <= i < journeys.len() && find_interval(sis, journeys[i].interval_id as int) is Some
            ==> journey_time_ok(journeys[i])
}

pub open spec fn st_schedules_times_ok(schedules: Seq<Schedule>, sis: Seq<StationInterval>) -> bool {
    forall|i: int|
        0 <= i < schedules.len() ==> st_journeys_times_ok(schedules[i].known_journeys@, sis)
}

pub open spec fn st_section_times_ok(section: RouteSection) -> bool {
    match section.timetable {
        Some(t) => st_schedules_times_ok(t.schedules@, t.station_intervals@),
        None => true,
    }
}

pub open spec fn st_line_times_ok(line: Line) -> bool {
    forall|k: int|
        0 <= k < line.route_sections@.len() && first_occurrence(line, line.route_sections@, k)
            ==> st_section_times_ok(line.route_sections@[k])
}

/// The stop-times pass succeeds exactly here.
pub open spec fn st_lines_times_ok(lines: Seq<Line>) -> bool {
    forall|i: int| 0 <= i < lines.len() ==> st_line_times_ok(lines[i])
}

/// The stop-times-table header.
pub open spec fn stop_times_header() -> Seq<Seq<char>> {
    seq!["trip_id"@, "stop_id"@, "stop_sequence"@, "arrival_time"@, "departure_time"@]
}

/// The origin event of a trip: sequence 1 at the section's originator,
/// at the journey's departure time.
pub open spec fn origin_row(tid: Seq<char>, section: RouteSection, j: KnownJourney) -> Seq<
    Seq<char>,
> {
    seq![tid, section.originator@, dec_seq(1), journey_time(j, 0), journey_time(j, 0)]
}

/// The event at interval stop `k`: sequence `k + 2`, at the departure
/// time shifted by the stop's cumulative offset.
pub open spec fn interval_row(tid: Seq<char>, j: KnownJourney, si: StationInterval, k: int) -> Seq<
    Seq<char>,
> {
    seq![
        tid,
        si.intervals@[k].stop_id@,
        dec_seq((k + 2) as nat),
        journey_time(j, si.intervals@[k].time_to_arrival as nat),
        journey_time(j, si.intervals@[k].time_to_arrival as nat),
    ]
}

/// The full event block of one trip: origin first, then every interval
/// stop in order.
pub open spec fn journey_block(
    tid: Seq<char>,
    section: RouteSection,
    j: KnownJourney,
    si: StationInterval,
) -> Seq<Seq<Seq<char>>> {
    seq![origin_row(tid, section, j)] + Seq::new(
        si.intervals@.len(),
        |k: int| interval_row(tid, j, si, k),
    )
}

/// Stop-time rows of one schedule's journeys, threading the written-trips
/// set and collecting a diagnostic per unresolvable journey.
pub open spec fn journey_st_rows(
    line: Line,
    section: RouteSection,
    schedule: Schedule,
    journeys: Seq<KnownJourney>,
    sis: Seq<StationInterval>,
    seen: Set<Seq<char>>,
) -> (Seq<Seq<Seq<char>>>, Seq<Seq<char>>, Set<Seq<char>>)
    decreases journeys.len(),
{
    if journeys.len() == 0 {
        (Seq::empty(), Seq::empty(), seen)
    } else {
        let (rs, ds, sn) = journey_st_rows(line, section, schedule, journeys.drop_last(), sis, seen);
        let j = journeys.last();
        match find_interval(sis, j.interval_id as int) {
            None => (rs, ds.push(missing_interval_diag()), sn),
            Some(k) => {
                let tid = trip_ident(
                    line.id@,
                    section.originator@,
                    section.destination@,
                    schedule.name@,
                    j,
                );
                if sn.contains(tid) {
                    (rs, ds, sn)
                } else {
                    (rs + journey_block(tid, section, j, sis[k]), ds, sn.insert(tid))
                }
            },
        }
    }
}

/// Stop-time rows across a section's schedules, one shared trips set.
pub open spec fn schedule_st_rows(
    line: Line,
    section: RouteSection,
    schedules: Seq<Schedule>,
    sis: Seq<StationInterval>,
    seen: Set<Seq<char>>,
) -> (Seq<Seq<Seq<char>>>, Seq<Seq<char>>, Set<Seq<char>>)
    decreases schedules.len(),
{
    if schedules.len() == 0 {
        (Seq::empty(), Seq::empty(), seen)
    } else {
        let (rs, ds, sn) = schedule_st_rows(line, section, schedules.drop_last(), sis, seen);
        let (rs2, ds2, sn2) = journey_st_rows(
            line,
            section,
            schedules.last(),
            schedules.last().known_journeys@,
            sis,
            sn,
        );
        (rs + rs2, ds + ds2, sn2)
    }
}

/// Stop-time rows of one section; no timetable, no rows.
pub open spec fn section_st_rows(line: Line, section: RouteSection) -> (Seq<Seq<Seq<char>>>, Seq<
    Seq<char>,
>) {
    match section.timetable {
        Some(t) => {
            let (rs, ds, _) = schedule_st_rows(
                line,
                section,
                t.schedules@,
                t.station_intervals@,
                Set::empty(),
            );
            (rs, ds)
        },
        None => (Seq::empty(), Seq::empty()),
    }
}

/// Stop-time rows of one line's sections, deduplicated by derived
/// identity with a per-line seen-set.
pub open spec fn line_st_rows(line: Line, sections: Seq<RouteSection>, seen: Set<Seq<char>>) -> (
    Seq<Seq<Seq<char>>>,
    Seq<Seq<char>>,
    Set<Seq<char>>,
)
    decreases sections.len(),
{
    if sections.len() == 0 {
        (Seq::empty(), Seq::empty(), seen)
    } else {
        let (rs, ds, sn) = line_st_rows(line, sections.drop_last(), seen);
        let sid = section_id_of(line, sections.last());
        if sn.contains(sid) {
            (rs, ds, sn)
        } else {
            let (rs2, ds2) = section_st_rows(line, sections.last());
            (rs + rs2, ds + ds2, sn.insert(sid))
        }
    }
}

/// Stop-time rows of the whole snapshot, a fresh section set per line.
pub open spec fn lines_st_rows(lines: Seq<Line>) -> (Seq<Seq<Seq<char>>>, Seq<Seq<char>>)
    decreases lines.len(),
{
    if lines.len() == 0 {
        (Seq::empty(), Seq::empty())
    } else {
        let (rs, ds) = lines_st_rows(lines.drop_last());
        let (rs2, ds2, _) = line_st_rows(
            lines.last(),
            lines.last().route_sections@,
            Set::empty(),
        );
        (rs + rs2, ds + ds2)
    }
}

/// The whole stop-times table.
pub open spec fn stop_times_table(lines: Seq<Line>) -> Seq<Seq<Seq<char>>> {
    seq![stop_times_header()] + lines_st_rows(lines).0
}

/// The diagnostics of a stop-times pass, in emission order.
pub open spec fn stop_times_diags(lines: Seq<Line>) -> Seq<Seq<char>> {
    lines_st_rows(lines).1
}

/// The section seen-set after a stop-times pass holds the initial set
/// plus every section's identity, duplicates included.
pub proof fn lemma_line_st_seen(line: Line, sections: Seq<RouteSection>, seen: Set<Seq<char>>)
    ensures
        line_st_rows(line, sections, seen).2 == seen.union(section_id_set(line, sections)),
    decreases sections.len(),
{
    if sections.len() == 0 {
        assert(line_st_rows(line, sections, seen).2 =~= seen.union(
            section_id_set(line, sections),
        ));
    } else {
        lemma_line_st_seen(line, sections.drop_last(), seen);
        lemma_section_id_set_last(line, sections);
        assert(line_st_rows(line, sections, seen).2 =~= seen.union(
            section_id_set(line, sections),
        ));
    }
}

/// Emits the event block of one trip.
fn journey_stop_rows(
    trip: &String,
    section: &RouteSection,
    journey: &KnownJourney,
    hour: u64,
    minute: u64,
    interval: &StationInterval,
    out: &mut Vec<Vec<String>>,
)
    requires
        journey_time_ok(*journey),
        hour as nat == dec_val(journey.hour@),
        minute as nat == dec_val(journey.minute@),
    ensures
        final(out).deep_view() == old(out).deep_view() + journey_block(
            trip@,
            *section,
            *journey,
            *interval,
        ),
{
    let dep = format_time(hour, minute, 0);
    let seq_one = crate::numfmt::u128_to_dec(1);
    out.push(row5(trip.clone(), section.originator.clone(), seq_one, dep.clone(), dep));
    proof {
        assert(out.deep_view() =~= old(out).deep_view() + seq![
            origin_row(trip@, *section, *journey),
        ] + Seq::new(0, |k: int| interval_row(trip@, *journey, *interval, k)));
    }
    let stops = &interval.intervals;
    let n = stops.len();
    let mut i: usize = 0;
    while i < n
        invariant
            0 <= i <= n == stops@.len(),
            stops@ == interval.intervals@,
            journey_time_ok(*journey),
            hour as nat == dec_val(journey.hour@),
            minute as nat == dec_val(journey.minute@),
            out.deep_view() == old(out).deep_view() + seq![
                origin_row(trip@, *section, *journey),
            ] + Seq::new(i as nat, |k: int| interval_row(trip@, *journey, *interval, k)),
        decreases n - i,
    {
        let ghost prev = out.deep_view();
        let stop = &stops[i];
        let t = format_time(hour, minute, stop.time_to_arrival);
        let seq_no = crate::numfmt::u128_to_dec(i as u128 + 2);
        out.push(row5(trip.clone(), stop.stop_id.clone(), seq_no, t.clone(), t));
        proof {
            assert(out.deep_view() =~= prev.push(
                interval_row(trip@, *journey, *interval, i as int),
            ));
            assert(Seq::new((i + 1) as nat, |k: int| interval_row(trip@, *journey, *interval, k))
                =~= Seq::new(i as nat, |k: int| interval_row(trip@, *journey, *interval, k)).push(
                interval_row(trip@, *journey, *interval, i as int),
            ));
            assert(out.deep_view() =~= old(out).deep_view() + seq![
                origin_row(trip@, *section, *journey),
            ] + Seq::new((i + 1) as nat, |k: int| interval_row(trip@, *journey, *interval, k)));
        }
        i += 1;
    }
    proof {
        assert(out.deep_view() =~= old(out).deep_view() + journey_block(
            trip@,
            *section,
            *journey,
            *interval,
        ));
    }
}

/// Emits the stop-time rows of one schedule, diagnosing unresolvable
/// journeys and failing on a malformed time of a resolvable one.
fn emit_journey_st(
    line: &Line,
    section: &RouteSection,
    schedule: &Schedule,
    sis: &Vec<StationInterval>,
    seen: &mut Dedup,
    out: &mut Vec<Vec<String>>,
    diags: &mut Vec<String>,
) -> (r: Result<(), FeedError>)
    ensures
        r is Ok <==> st_journeys_times_ok(schedule.known_journeys@, sis@),
        r is Ok ==> final(out).deep_view() == old(out).deep_view() + journey_st_rows(
            *line,
            *section,
            *schedule,
            schedule.known_journeys@,
            sis@,
            old(seen)@,
        ).0,
        r is Ok ==> final(diags).deep_view() == old(diags).deep_view() + journey_st_rows(
            *line,
            *section,
            *schedule,
            schedule.known_journeys@,
            sis@,
            old(seen)@,
        ).1,
        r is Ok ==> final(seen)@ == journey_st_rows(
            *line,
            *section,
            *schedule,
            schedule.known_journeys@,
            sis@,
            old(seen)@,
        ).2,
{
    let journeys = &schedule.known_journeys;
    let n = journeys.len();
    let mut i: usize = 0;
    while i < n
        invariant
            0 <= i <= n == journeys@.len(),
            journeys@ == schedule.known_journeys@,
            forall|k: int|
                0 <= k < i && find_interval(sis@, journeys@[k].interval_id as int) is Some
                    ==> journey_time_ok(journeys@[k]),
            out.deep_view() == old(out).deep_view() + journey_st_rows(
                *line,
                *section,
                *schedule,
                journeys@.subrange(0, i as int),
                sis@,
                old(seen)@,
            ).0,
            diags.deep_view() == old(diags).deep_view() + journey_st_rows(
                *line,
                *section,
                *schedule,
                journeys@.subrange(0, i as int),
                sis@,
                old(seen)@,
            ).1,
            seen@ == journey_st_rows(
                *line,
                *section,
                *schedule,
                journeys@.subrange(0, i as int),
                sis@,
                old(seen)@,
            ).2,
        decreases n - i,
    {
        let ghost prev_out = out.deep_view();
        let ghost prev_diags = diags.deep_view();
        let journey = &journeys[i];
        match lookup_interval(sis, journey.interval_id) {
            None => {
                diags.push(String::from_str("Error, Could not find interval for schedule!!!!"));
                proof {
                    assert(diags.deep_view() =~= prev_diags.push(missing_interval_diag()));
                }
            },
            Some(idx) => {
                let tid = match trip_id(line, section, schedule, journey) {
                    Ok(t) => t,
                    Err(e) => {
                        return Err(e);
                    },
                };
                if !seen.seen(&tid) {
                    seen.mark_seen(&tid);
                    let hour = match parse_u64(journey.hour.as_str()) {
                        Some(h) => h,
                        None => {
                            proof {
                                assert(false);
                            }
                            return Err(FeedError::MalformedTime);
                        },
                    };
                    let minute = match parse_u64(journey.minute.as_str()) {
                        Some(m) => m,
                        None => {
                            proof {
                                assert(false);
                            }
                            return Err(FeedError::MalformedTime);
                        },
                    };
                    journey_stop_rows(&tid, section, journey, hour, minute, &sis[idx], out);
                }
            },
        }
        proof {
            let cur = journeys@.subrange(0, i + 1 as int);
            assert(cur.drop_last() =~= journeys@.subrange(0, i as int));
            assert(out.deep_view() =~= old(out).deep_view() + journey_st_rows(
                *line,
                *section,
                *schedule,
                cur,
                sis@,
                old(seen)@,
            ).0);
            assert(diags.deep_view() =~= old(diags).deep_view() + journey_st_rows(
                *line,
                *section,
                *schedule,
                cur,
                sis@,
                old(seen)@,
            ).1);
        }
        i += 1;
    }
    proof {
        assert(journeys@.subrange(0, n as int) =~= journeys@);
    }
    Ok(())
}

/// Emits the stop-time rows of one route section, with a fresh trips set.
fn emit_section_st(
    line: &Line,
    section: &RouteSection,
    out: &mut Vec<Vec<String>>,
    diags: &mut Vec<String>,
) -> (r: Result<(), FeedError>)
    ensures
        r is Ok <==> st_section_times_ok(*section),
        r is Ok ==> final(out).deep_view() == old(out).deep_view() + section_st_rows(
            *line,
            *section,
        ).0,
        r is Ok ==> final(diags).deep_view() == old(diags).deep_view() + section_st_rows(
            *line,
            *section,
        ).1,
{
    match &section.timetable {
        None => Ok(()),
        Some(timetable) => {
            let mut seen = Dedup::new();
            let schedules = &timetable.schedules;
            let sis = &timetable.station_intervals;
            let n = schedules.len();
            let mut i: usize = 0;
            while i < n
                invariant
                    0 <= i <= n == schedules@.len(),
                    section.timetable == Some(*timetable),
                    schedules@ == timetable.schedules@,
                    sis@ == timetable.station_intervals@,
                    forall|k: int|
                        0 <= k < i ==> st_journeys_times_ok(schedules@[k].known_journeys@, sis@),
                    out.deep_view() == old(out).deep_view() + schedule_st_rows(
                        *line,
                        *section,
                        schedules@.subrange(0, i as int),
                        sis@,
                        Set::empty(),
                    ).0,
                    diags.deep_view() == old(diags).deep_view() + schedule_st_rows(
                        *line,
                        *section,
                        schedules@.subrange(0, i as int),
                        sis@,
                        Set::empty(),
                    ).1,
                    seen@ == schedule_st_rows(
                        *line,
                        *section,
                        schedules@.subrange(0, i as int),
                        sis@,
                        Set::empty(),
                    ).2,
                decreases n - i,
            {
                match emit_journey_st(line, section, &schedules[i], sis, &mut seen, out, diags) {
                    Ok(()) => {},
                    Err(e) => {
                        return Err(e);
                    },
                }
                proof {
                    let cur = schedules@.subrange(0, i + 1 as int);
                    assert(cur.drop_last() =~= schedules@.subrange(0, i as int));
                    assert(out.deep_view() =~= old(out).deep_view() + schedule_st_rows(
                        *line,
                        *section,
                        cur,
                        sis@,
                        Set::empty(),
                    ).0);
                    assert(diags.deep_view() =~= old(diags).deep_view() + schedule_st_rows(
                        *line,
                        *section,
                        cur,
                        sis@,
                        Set::empty(),
                    ).1);
                }
                i += 1;
            }
            proof {
                assert(schedules@.subrange(0, n as int) =~= schedules@);
            }
            Ok(())
        },
    }
}

/// Emits the stop-time rows of one line, route sections deduplicated by
/// derived identity with a fresh seen-set.
fn emit_line_st(line: &Line, out: &mut Vec<Vec<String>>, diags: &mut Vec<String>) -> (r: Result<
    (),
    FeedError,
>)
    ensures
        r is Ok <==> st_line_times_ok(*line),
        r is Ok ==> final(out).deep_view() == old(out).deep_view() + line_st_rows(
            *line,
            line.route_sections@,
            Set::empty(),
        ).0,
        r is Ok ==> final(diags).deep_view() == old(diags).deep_view() + line_st_rows(
            *line,
            line.route_sections@,
            Set::empty(),
        ).1,
{
    let mut seen = Dedup::new();
    let sections = &line.route_sections;
    let n = sections.len();
    let mut i: usize = 0;
    while i < n
        invariant
            0 <= i <= n == sections@.len(),
            sections@ == line.route_sections@,
            forall|k: int|
                0 <= k < i && first_occurrence(*line, sections@, k) ==> st_section_times_ok(
                    sections@[k],
                ),
            out.deep_view() == old(out).deep_view() + line_st_rows(
                *line,
                sections@.subrange(0, i as int),
                Set::empty(),
            ).0,
            diags.deep_view() == old(diags).deep_view() + line_st_rows(
                *line,
                sections@.subrange(0, i as int),
                Set::empty(),
            ).1,
            seen@ == line_st_rows(*line, sections@.subrange(0, i as int), Set::empty()).2,
        decreases n - i,
    {
        let section = &sections[i];
        let sid = route_section_id(line, section);
        proof {
            let pre = sections@.subrange(0, i as int);
            lemma_line_st_seen(*line, pre, Set::empty());
            assert(pre.len() == i);
            assert(forall|k: int| 0 <= k < i ==> pre[k] == sections@[k]);
            assert(sid@ == section_id_of(*line, sections@[i as int]));
            assert(seen@.contains(sid@) <==> section_id_set(*line, pre).contains(sid@));
        }
        if !seen.seen(&sid) {
            proof {
                let pre = sections@.subrange(0, i as int);
                assert forall|j: int| 0 <= j < i implies section_id_of(*line, sections@[j])
                    != section_id_of(*line, sections@[i as int]) by {
                    if section_id_of(*line, sections@[j]) == section_id_of(
                        *line,
                        sections@[i as int],
                    ) {
                        assert(0 <= j < pre.len() && section_id_of(*line, pre[j]) == sid@);
                        assert(section_id_set(*line, pre).contains(sid@));
                    }
                }
                assert(first_occurrence(*line, sections@, i as int));
            }
            match emit_section_st(line, section, out, diags) {
                Ok(()) => {},
                Err(e) => {
                    proof {
                        assert(!st_line_times_ok(*line));
                    }
                    return Err(e);
                },
            }
            seen.mark_seen(&sid);
        } else {
            proof {
                let pre = sections@.subrange(0, i as int);
                assert(section_id_set(*line, pre).contains(sid@));
                let k = choose|k: int|
                    0 <= k < pre.len() && section_id_of(*line, pre[k]) == sid@;
                assert(sections@[k] == pre[k]);
                assert(section_id_of(*line, sections@[k]) == section_id_of(
                    *line,
                    sections@[i as int],
                ));
                assert(!first_occurrence(*line, sections@, i as int));
            }
        }
        proof {
            let cur = sections@.subrange(0, i + 1 as int);
            assert(cur.drop_last() =~= sections@.subrange(0, i as int));
            assert(out.deep_view() =~= old(out).deep_view() + line_st_rows(
                *line,
                cur,
                Set::empty(),
            ).0);
            assert(diags.deep_view() =~= old(diags).deep_view() + line_st_rows(
                *line,
                cur,
                Set::empty(),
            ).1);
            assert(seen@ =~= line_st_rows(*line, cur, Set::empty()).2);
        }
        i += 1;
    }
    proof {
        assert(sections@.subrange(0, n as int) =~= sections@);
    }
    Ok(())
}

/// Emits the whole stop-times table with its diagnostics. `Err` exactly
/// when a journey whose interval resolves has a malformed hour or minute;
/// an unresolvable interval reference only adds a diagnostic and the run
/// continues.
pub fn stop_times_rows(lines: &Vec<Line>) -> (r: Result<(Vec<Vec<String>>, Vec<String>), FeedError>)
    ensures
        r is Ok <==> st_lines_times_ok(lines@),
        r is Ok ==> (r->Ok_0).0.deep_view() == stop_times_table(lines@),
        r is Ok ==> (r->Ok_0).1.deep_view() == stop_times_diags(lines@),
{
    let mut out: Vec<Vec<String>> = Vec::new();
    let mut diags: Vec<String> = Vec::new();
    out.push(
        row5(
            String::from_str("trip_id"),
            String::from_str("stop_id"),
            String::from_str("stop_sequence"),
            String::from_str("arrival_time"),
            String::from_str("departure_time"),
        ),
    );
    let ghost base = out.deep_view();
    let n = lines.len();
    let mut i: usize = 0;
    while i < n
        invariant
            0 <= i <= n == lines@.len(),
            base == seq![stop_times_header()],
            forall|k: int| 0 <= k < i ==> st_line_times_ok(lines@[k]),
            out.deep_view() == base + lines_st_rows(lines@.subrange(0, i as int)).0,
            diags.deep_view() == lines_st_rows(lines@.subrange(0, i as int)).1,
        decreases n - i,
    {
        match emit_line_st(&lines[i], &mut out, &mut diags) {
            Ok(()) => {},
            Err(e) => {
                return Err(e);
            },
        }
        proof {
            let cur = lines@.subrange(0, i + 1 as int);
            assert(cur.drop_last() =~= lines@.subrange(0, i as int));
            assert(out.deep_view() =~= base + lines_st_rows(cur).0);
            assert(diags.deep_view() =~= lines_st_rows(cur).1);
        }
        i += 1;
    }
    proof {
        assert(lines@.subrange(0, n as int) =~= lines@);
        assert(out.deep_view() =~= stop_times_table(lines@));
    }
    Ok((out, diags))
}

} // verus!
