//! The trips table: one row per derived trip, produced per
//! (line, route section, schedule, known journey). Route sections are
//! deduplicated by derived identity within each line's pass; trips are
//! deduplicated by trip identifier within each route section's pass.
//! A malformed journey time is fatal and aborts the pass.

use vstd::prelude::*;

use crate::dedup::Dedup;
use crate::ident::{route_section_id, section_ident, trip_id, trip_ident};
use crate::model::{FeedError, KnownJourney, Line, RouteSection, Schedule};
use crate::rows::row3;
use crate::timefmt::journey_time_ok;

verus! {

/// The derived identity of a section under a line.
pub open spec fn section_id_of(line: Line, section: RouteSection) -> Seq<char> {
    section_ident(line.id@, section.originator@, section.destination@)
}

/// Whether `sections[k]` is the first occurrence of its derived identity:
/// exactly the sections one pass processes.
pub open spec fn first_occurrence(line: Line, sections: Seq<RouteSection>, k: int) -> bool {
    forall|j: int| 0 <= j < k ==> section_id_of(line, sections[j]) != section_id_of(
        line,
        sections[k],
    )
}

/// All journeys of a schedule list have well-formed hour/minute fields.
pub open spec fn journeys_times_ok(journeys: Seq<KnownJourney>) -> bool {
    forall|i: int| 0 <= i < journeys.len() ==> journey_time_ok(journeys[i])
}

pub open spec fn schedules_times_ok(schedules: Seq<Schedule>) -> bool {
    forall|i: int| 0 <= i < schedules.len() ==> journeys_times_ok(schedules[i].known_journeys@)
}

/// Every journey a section's trips pass touches has well-formed times.
pub open spec fn section_times_ok(section: RouteSection) -> bool {
    match section.timetable {
        Some(t) => schedules_times_ok(t.schedules@),
        None => true,
    }
}

/// Every journey a line's trips pass touches (in first-occurrence
/// sections only) has well-formed times.
pub open spec fn line_times_ok(line: Line) -> bool {
    forall|k: int|
        0 <= k < line.route_sections@.len() && first_occurrence(line, line.route_sections@, k)
            ==> section_times_ok(line.route_sections@[k])
}

/// The whole snapshot parses: the trips pass succeeds exactly here.
pub open spec fn lines_times_ok(lines: Seq<Line>) -> bool {
    forall|i: int| 0 <= i < lines.len() ==> line_times_ok(lines[i])
}

/// The trips-table header.
pub open spec fn trips_header() -> Seq<Seq<char>> {
    seq!["route_id"@, "service_id"@, "trip_id"@]
}

/// Trip rows of one schedule's journeys, threading the written-trips set.
pub open spec fn journey_trip_rows(
    line: Line,
    section: RouteSection,
    schedule: Schedule,
    journeys: Seq<KnownJourney>,
    seen: Set<Seq<char>>,
) -> (Seq<Seq<Seq<char>>>, Set<Seq<char>>)
    decreases journeys.len(),
{
    if journeys.len() == 0 {
        (Seq::empty(), seen)
    } else {
        let (rs, sn) = journey_trip_rows(line, section, schedule, journeys.drop_last(), seen);
        let tid = trip_ident(
            line.id@,
            section.originator@,
            section.destination@,
            schedule.name@,
            journeys.last(),
        );
        if sn.contains(tid) {
            (rs, sn)
        } else {
            (rs.push(seq![line.id@, schedule.name@, tid]), sn.insert(tid))
        }
    }
}

/// Trip rows across a section's schedules, one shared written-trips set.
pub open spec fn schedule_trip_rows(
    line: Line,
    section: RouteSection,
    schedules: Seq<Schedule>,
    seen: Set<Seq<char>>,
) -> (Seq<Seq<Seq<char>>>, Set<Seq<char>>)
    decreases schedules.len(),
{
    if schedules.len() == 0 {
        (Seq::empty(), seen)
    } else {
        let (rs, sn) = schedule_trip_rows(line, section, schedules.drop_last(), seen);
        let (rs2, sn2) = journey_trip_rows(
            line,
            section,
            schedules.last(),
            schedules.last().known_journeys@,
            sn,
        );
        (rs + rs2, sn2)
    }
}

/// Trip rows of one section; a section without a timetable contributes
/// nothing, silently.
pub open spec fn section_trip_rows(line: Line, section: RouteSection) -> Seq<Seq<Seq<char>>> {
    match section.timetable {
        Some(t) => schedule_trip_rows(line, section, t.schedules@, Set::empty()).0,
        None => Seq::empty(),
    }
}

/// Trip rows of one line's sections, deduplicated by derived identity;
/// the seen-set is threaded per line.
pub open spec fn line_trip_rows(
    line: Line,
    sections: Seq<RouteSection>,
    seen: Set<Seq<char>>,
) -> (Seq<Seq<Seq<char>>>, Set<Seq<char>>)
    decreases sections.len(),
{
    if sections.len() == 0 {
        (Seq::empty(), seen)
    } else {
        let (rs, sn) = line_trip_rows(line, sections.drop_last(), seen);
        let sid = section_id_of(line, sections.last());
        if sn.contains(sid) {
            (rs, sn)
        } else {
            (rs + section_trip_rows(line, sections.last()), sn.insert(sid))
        }
    }
}

/// Trip rows of the whole snapshot, a fresh section set per line.
pub open spec fn lines_trip_rows(lines: Seq<Line>) -> Seq<Seq<Seq<char>>>
    decreases lines.len(),
{
    if lines.len() == 0 {
        Seq::empty()
    } else {
        lines_trip_rows(lines.drop_last()) + line_trip_rows(
            lines.last(),
            lines.last().route_sections@,
            Set::empty(),
        ).0
    }
}

/// The whole trips table.
pub open spec fn trips_table(lines: Seq<Line>) -> Seq<Seq<Seq<char>>> {
    seq![trips_header()] + lines_trip_rows(lines)
}

/// The set of derived identities of a section list.
pub open spec fn section_id_set(line: Line, sections: Seq<RouteSection>) -> Set<Seq<char>> {
    Set::new(
        |x: Seq<char>|
            exists|k: int| 0 <= k < sections.len() && section_id_of(line, sections[k]) == x,
    )
}

/// Dropping the last section leaves the identity set short of exactly
/// that section's identity.
pub proof fn lemma_section_id_set_last(line: Line, sections: Seq<RouteSection>)
    requires
        sections.len() > 0,
    ensures
        section_id_set(line, sections) == section_id_set(line, sections.drop_last()).insert(
            section_id_of(line, sections.last()),
        ),
{
    let sub = sections.drop_last();
    let sid = section_id_of(line, sections.last());
    assert(section_id_set(line, sections) =~= section_id_set(line, sub).insert(sid)) by {
        assert forall|x: Seq<char>| section_id_set(line, sections).contains(x) implies
            section_id_set(line, sub).insert(sid).contains(x) by {
            let k = choose|k: int|
                0 <= k < sections.len() && section_id_of(line, sections[k]) == x;
            if k < sub.len() {
                assert(sub[k] == sections[k]);
                assert(section_id_set(line, sub).contains(x));
            }
        }
        assert forall|x: Seq<char>| section_id_set(line, sub).insert(sid).contains(x) implies
            section_id_set(line, sections).contains(x) by {
            if section_id_set(line, sub).contains(x) {
                let k = choose|k: int| 0 <= k < sub.len() && section_id_of(line, sub[k]) == x;
                assert(sections[k] == sub[k]);
                assert(section_id_of(line, sections[k]) == x);
            } else {
                assert(section_id_of(line, sections[sections.len() - 1]) == x);
            }
        }
    }
}

/// The section seen-set after a pass holds the initial set plus every
/// section's identity, duplicates included.
pub proof fn lemma_line_trip_seen(line: Line, sections: Seq<RouteSection>, seen: Set<Seq<char>>)
    ensures
        line_trip_rows(line, sections, seen).1 == seen.union(section_id_set(line, sections)),
    decreases sections.len(),
{
    if sections.len() == 0 {
        assert(line_trip_rows(line, sections, seen).1 =~= seen.union(
            section_id_set(line, sections),
        ));
    } else {
        lemma_line_trip_seen(line, sections.drop_last(), seen);
        lemma_section_id_set_last(line, sections);
        assert(line_trip_rows(line, sections, seen).1 =~= seen.union(
            section_id_set(line, sections),
        ));
    }
}

/// Emits the trip rows of one schedule.
fn emit_journey_trips(
    line: &Line,
    section: &RouteSection,
    schedule: &Schedule,
    seen: &mut Dedup,
    out: &mut Vec<Vec<String>>,
) -> (r: Result<(), FeedError>)
    ensures
        r is Ok <==> journeys_times_ok(schedule.known_journeys@),
        r is Ok ==> final(out).deep_view() == old(out).deep_view() + journey_trip_rows(
            *line,
            *section,
            *schedule,
            schedule.known_journeys@,
            old(seen)@,
        ).0,
        r is Ok ==> final(seen)@ == journey_trip_rows(
            *line,
            *section,
            *schedule,
            schedule.known_journeys@,
            old(seen)@,
        ).1,
{
    let journeys = &schedule.known_journeys;
    let n = journeys.len();
    let mut i: usize = 0;
    while i < n
        invariant
            0 <= i <= n == journeys@.len(),
            journeys@ == schedule.known_journeys@,
            forall|k: int| 0 <= k < i ==> journey_time_ok(journeys@[k]),
            out.deep_view() == old(out).deep_view() + journey_trip_rows(
                *line,
                *section,
                *schedule,
                journeys@.subrange(0, i as int),
                old(seen)@,
            ).0,
            seen@ == journey_trip_rows(
                *line,
                *section,
                *schedule,
                journeys@.subrange(0, i as int),
                old(seen)@,
            ).1,
        decreases n - i,
    {
        let ghost prev = out.deep_view();
        let journey = &journeys[i];
        let tid = match trip_id(line, section, schedule, journey) {
            Ok(t) => t,
            Err(e) => {
                return Err(e);
            },
        };
        if !seen.seen(&tid) {
            seen.mark_seen(&tid);
            out.push(row3(line.id.clone(), schedule.name.clone(), tid));
            proof {
                assert(out.deep_view() =~= prev.push(
                    seq![
                        line.id@,
                        schedule.name@,
                        trip_ident(
                            line.id@,
                            section.originator@,
                            section.destination@,
                            schedule.name@,
                            journeys@[i as int],
                        ),
                    ],
                ));
            }
        }
        proof {
            let cur = journeys@.subrange(0, i + 1 as int);
            assert(cur.drop_last() =~= journeys@.subrange(0, i as int));
            assert(out.deep_view() =~= old(out).deep_view() + journey_trip_rows(
                *line,
                *section,
                *schedule,
                cur,
                old(seen)@,
            ).0);
        }
        i += 1;
    }
    proof {
        assert(journeys@.subrange(0, n as int) =~= journeys@);
    }
    Ok(())
}

/// Emits the trip rows of one route section, with a fresh trip seen-set.
fn emit_section_trips(line: &Line, section: &RouteSection, out: &mut Vec<Vec<String>>) -> (r:
    Result<(), FeedError>)
    ensures
        r is Ok <==> section_times_ok(*section),
        r is Ok ==> final(out).deep_view() == old(out).deep_view() + section_trip_rows(
            *line,
            *section,
        ),
{
    match &section.timetable {
        None => Ok(()),
        Some(timetable) => {
            let mut seen = Dedup::new();
            let schedules = &timetable.schedules;
            let n = schedules.len();
            let mut i: usize = 0;
            while i < n
                invariant
                    0 <= i <= n == schedules@.len(),
                    section.timetable == Some(*timetable),
                    schedules@ == timetable.schedules@,
                    forall|k: int|
                        0 <= k < i ==> journeys_times_ok(schedules@[k].known_journeys@),
                    out.deep_view() == old(out).deep_view() + schedule_trip_rows(
                        *line,
                        *section,
                        schedules@.subrange(0, i as int),
                        Set::empty(),
                    ).0,
                    seen@ == schedule_trip_rows(
                        *line,
                        *section,
                        schedules@.subrange(0, i as int),
                        Set::empty(),
                    ).1,
                decreases n - i,
            {
                match emit_journey_trips(line, section, &schedules[i], &mut seen, out) {
                    Ok(()) => {},
                    Err(e) => {
                        return Err(e);
                    },
                }
                proof {
                    let cur = schedules@.subrange(0, i + 1 as int);
                    assert(cur.drop_last() =~= schedules@.subrange(0, i as int));
                    assert(out.deep_view() =~= old(out).deep_view() + schedule_trip_rows(
                        *line,
                        *section,
                        cur,
                        Set::empty(),
                    ).0);
                }
                i += 1;
            }
            proof {
                assert(schedules@.subrange(0, n as int) =~= schedules@);
            }
            Ok(())
        },
    }
}

/// Emits the trip rows of one line, route sections deduplicated by
/// derived identity with a fresh seen-set.
fn emit_line_trips(line: &Line, out: &mut Vec<Vec<String>>) -> (r: Result<(), FeedError>)
    ensures
        r is Ok <==> line_times_ok(*line),
        r is Ok ==> final(out).deep_view() == old(out).deep_view() + line_trip_rows(
            *line,
            line.route_sections@,
            Set::empty(),
        ).0,
{
    let mut seen = Dedup::new();
    let sections = &line.route_sections;
    let n = sections.len();
    let mut i: usize = 0;
    while i < n
        invariant
            0 <= i <= n == sections@.len(),
            sections@ == line.route_sections@,
            forall|k: int|
                0 <= k < i && first_occurrence(*line, sections@, k) ==> section_times_ok(
                    sections@[k],
                ),
            out.deep_view() == old(out).deep_view() + line_trip_rows(
                *line,
                sections@.subrange(0, i as int),
                Set::empty(),
            ).0,
            seen@ == line_trip_rows(*line, sections@.subrange(0, i as int), Set::empty()).1,
        decreases n - i,
    {
        let section = &sections[i];
        let sid = route_section_id(line, section);
        proof {
            let pre = sections@.subrange(0, i as int);
            lemma_line_trip_seen(*line, pre, Set::empty());
            assert(pre.len() == i);
            assert(forall|k: int| 0 <= k < i ==> pre[k] == sections@[k]);
            assert(sid@ == section_id_of(*line, sections@[i as int]));
            assert(seen@.contains(sid@) <==> section_id_set(*line, pre).contains(sid@));
        }
        if !seen.seen(&sid) {
            proof {
                let pre = sections@.subrange(0, i as int);
                assert forall|j: int| 0 <= j < i implies section_id_of(*line, sections@[j])
                    != section_id_of(*line, sections@[i as int]) by {
                    if section_id_of(*line, sections@[j]) == section_id_of(
                        *line,
                        sections@[i as int],
                    ) {
                        assert(0 <= j < pre.len() && section_id_of(*line, pre[j]) == sid@);
                        assert(section_id_set(*line, pre).contains(sid@));
                    }
                }
                assert(first_occurrence(*line, sections@, i as int));
            }
            match emit_section_trips(line, section, out) {
                Ok(()) => {},
                Err(e) => {
                    proof {
                        assert(!line_times_ok(*line));
                    }
                    return Err(e);
                },
            }
            seen.mark_seen(&sid);
        } else {
            proof {
                let pre = sections@.subrange(0, i as int);
                assert(section_id_set(*line, pre).contains(sid@));
                let k = choose|k: int|
                    0 <= k < pre.len() && section_id_of(*line, pre[k]) == sid@;
                assert(sections@[k] == pre[k]);
                assert(section_id_of(*line, sections@[k]) == section_id_of(
                    *line,
                    sections@[i as int],
                ));
                assert(!first_occurrence(*line, sections@, i as int));
            }
        }
        proof {
            let cur = sections@.subrange(0, i + 1 as int);
            assert(cur.drop_last() =~= sections@.subrange(0, i as int));
            assert(out.deep_view() =~= old(out).deep_view() + line_trip_rows(
                *line,
                cur,
                Set::empty(),
            ).0);
            assert(seen@ =~= line_trip_rows(*line, cur, Set::empty()).1);
        }
        i += 1;
    }
    proof {
        assert(sections@.subrange(0, n as int) =~= sections@);
    }
    Ok(())
}

/// Emits the whole trips table. `Err` exactly when some journey a pass
/// processes has a malformed hour or minute — the fatal condition that
/// aborts the run.
pub fn trips_rows(lines: &Vec<Line>) -> (r: Result<Vec<Vec<String>>, FeedError>)
    ensures
        r is Ok <==> lines_times_ok(lines@),
        r is Ok ==> r->Ok_0.deep_view() == trips_table(lines@),
{
    let mut out: Vec<Vec<String>> = Vec::new();
    out.push(
        row3(
            String::from_str("route_id"),
            String::from_str("service_id"),
            String::from_str("trip_id"),
        ),
    );
    let ghost base = out.deep_view();
    let n = lines.len();
    let mut i: usize = 0;
    while i < n
        invariant
            0 <= i <= n == lines@.len(),
            base == seq![trips_header()],
            forall|k: int| 0 <= k < i ==> line_times_ok(lines@[k]),
            out.deep_view() == base + lines_trip_rows(lines@.subrange(0, i as int)),
        decreases n - i,
    {
        match emit_line_trips(&lines[i], &mut out) {
            Ok(()) => {},
            Err(e) => {
                return Err(e);
            },
        }
        proof {
            let cur = lines@.subrange(0, i + 1 as int);
            assert(cur.drop_last() =~= lines@.subrange(0, i as int));
            assert(out.deep_view() =~= base + lines_trip_rows(cur));
        }
        i += 1;
    }
    proof {
        assert(lines@.subrange(0, n as int) =~= lines@);
        assert(out.deep_view() =~= trips_table(lines@));
    }
    Ok(out)
}

} // verus!
