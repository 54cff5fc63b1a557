//! The engine's cross-cutting guarantees, stated and proved over the
//! generators' own specifications: duplicate suppression of route
//! sections and trips, exactly-once emission of stops, and the shape of
//! a trip's stop-time sequence numbers.

use vstd::prelude::*;

use crate::model::{KnownJourney, Line, RouteSection, Schedule, StationInterval};
use crate::numfmt::{dec_seq, dec_val, lemma_dec_seq_val};
use crate::ident::trip_ident;
use crate::stop_times::{
    find_interval, journey_block, journey_st_rows, line_st_rows, origin_row, interval_row,
    schedule_st_rows, section_st_rows,
};
use crate::stops::{child_rows, line_stop_rows, lines_stop_rows, stop_rows, stops_table};
use crate::trips::{
    journey_trip_rows, lemma_line_trip_seen, line_trip_rows, schedule_trip_rows, section_id_of,
    section_id_set, section_trip_rows,
};
use crate::model::Stop;
use crate::stop_times::lemma_line_st_seen;

verus! {

/// The discipline a dedup-guarded emission step obeys, for the row key
/// named by `key` (`None` marks a row that carries no key): the seen-set
/// only grows, every keyed row's key is new against the incoming set and
/// present in the outgoing one, keys are pairwise distinct, and the
/// outgoing set holds exactly the incoming keys plus the emitted ones.
pub open spec fn emit_keys_ok(
    rows: Seq<Seq<Seq<char>>>,
    key: spec_fn(Seq<Seq<char>>) -> Option<Seq<char>>,
    pre: Set<Seq<char>>,
    post: Set<Seq<char>>,
) -> bool {
    &&& pre.subset_of(post)
    &&& (forall|k: int|
        0 <= k < rows.len() && (#[trigger] key(rows[k])) is Some ==> post.contains(
            key(rows[k])->0,
        ) && !pre.contains(key(rows[k])->0))
    &&& (forall|k1: int, k2: int|
        0 <= k1 < k2 < rows.len() && (#[trigger] key(rows[k1])) is Some && (#[trigger] key(
            rows[k2],
        )) is Some ==> key(rows[k1])->0 != key(rows[k2])->0)
    &&& (forall|x: Seq<char>|
        #![trigger post.contains(x)]
        #![trigger pre.contains(x)]
        post.contains(x) <==> pre.contains(x) || (exists|k: int|
            0 <= k < rows.len() && key(rows[k]) == Some(x)))
}

/// No rows, no change.
proof fn lemma_emit_keys_empty(
    key: spec_fn(Seq<Seq<char>>) -> Option<Seq<char>>,
    pre: Set<Seq<char>>,
)
    ensures
        emit_keys_ok(Seq::empty(), key, pre, pre),
{
}

/// One freshly keyed row inserts its key.
proof fn lemma_emit_keys_single(
    row: Seq<Seq<char>>,
    key: spec_fn(Seq<Seq<char>>) -> Option<Seq<char>>,
    pre: Set<Seq<char>>,
)
    requires
        key(row) is Some,
        !pre.contains(key(row)->0),
    ensures
        emit_keys_ok(seq![row], key, pre, pre.insert(key(row)->0)),
{
    let rows = seq![row];
    assert(rows[0] == row);
    assert forall|x: Seq<char>| pre.insert(key(row)->0).contains(x) implies pre.contains(x) || (
    exists|k: int| 0 <= k < rows.len() && key(rows[k]) == Some(x)) by {
        if x == key(row)->0 {
            assert(key(rows[0]) == Some(x));
        }
    }
}

/// Two disciplined steps in a row make one.
proof fn lemma_emit_keys_concat(
    rows1: Seq<Seq<Seq<char>>>,
    rows2: Seq<Seq<Seq<char>>>,
    key: spec_fn(Seq<Seq<char>>) -> Option<Seq<char>>,
    pre: Set<Seq<char>>,
    mid: Set<Seq<char>>,
    post: Set<Seq<char>>,
)
    requires
        emit_keys_ok(rows1, key, pre, mid),
        emit_keys_ok(rows2, key, mid, post),
    ensures
        emit_keys_ok(rows1 + rows2, key, pre, post),
{
    let rows = rows1 + rows2;
    assert(forall|k: int| 0 <= k < rows1.len() ==> rows[k] == rows1[k]);
    assert(forall|k: int|
        rows1.len() <= k < rows.len() ==> rows[k] == rows2[k - rows1.len()]);
    assert forall|k: int| 0 <= k < rows.len() && (#[trigger] key(rows[k])) is Some implies
        post.contains(key(rows[k])->0) && !pre.contains(key(rows[k])->0) by {
        if k < rows1.len() {
            assert(key(rows1[k]) is Some);
        } else {
            assert(key(rows2[k - rows1.len()]) is Some);
        }
    }
    assert forall|k1: int, k2: int|
        0 <= k1 < k2 < rows.len() && (#[trigger] key(rows[k1])) is Some && (#[trigger] key(
            rows[k2],
        )) is Some implies key(rows[k1])->0 != key(rows[k2])->0 by {
        if k1 < rows1.len() && k2 >= rows1.len() {
            assert(mid.contains(key(rows1[k1])->0));
            assert(!mid.contains(key(rows2[k2 - rows1.len()])->0));
        }
    }
    assert forall|x: Seq<char>| #![trigger post.contains(x)] post.contains(x) implies
        pre.contains(x) || (exists|k: int| 0 <= k < rows.len() && key(rows[k]) == Some(x)) by {
        if !pre.contains(x) {
            if mid.contains(x) {
                let k = choose|k: int| 0 <= k < rows1.len() && key(rows1[k]) == Some(x);
                assert(key(rows[k]) == Some(x));
            } else {
                let k = choose|k: int| 0 <= k < rows2.len() && key(rows2[k]) == Some(x);
                assert(key(rows[rows1.len() + k]) == Some(x));
            }
        }
    }
    assert forall|x: Seq<char>|
        pre.contains(x) || (exists|k: int| 0 <= k < rows.len() && key(rows[k]) == Some(x))
        implies #[trigger] post.contains(x) by {
        if !pre.contains(x) {
            let k = choose|k: int| 0 <= k < rows.len() && key(rows[k]) == Some(x);
            if k < rows1.len() {
                assert(key(rows1[k]) == Some(x));
                assert(mid.contains(x));
            } else {
                assert(key(rows2[k - rows1.len()]) == Some(x));
            }
        }
    }
}

/// Law: a trip's stop-time block numbers its events from 1, contiguously
/// and therefore strictly increasing: event `k` carries numeral `k + 1`.
pub proof fn lemma_journey_block_sequence(
    tid: Seq<char>,
    section: RouteSection,
    j: KnownJourney,
    si: StationInterval,
)
    ensures
        journey_block(tid, section, j, si).len() == 1 + si.intervals@.len(),
        forall|k: int|
            0 <= k < journey_block(tid, section, j, si).len() ==> journey_block(
                tid,
                section,
                j,
                si,
            )[k][2] == dec_seq((k + 1) as nat),
        forall|k: int|
            0 <= k < journey_block(tid, section, j, si).len() ==> dec_val(
                journey_block(tid, section, j, si)[k][2],
            ) == k + 1,
{
    let b = journey_block(tid, section, j, si);
    assert forall|k: int| 0 <= k < b.len() implies b[k][2] == dec_seq((k + 1) as nat) && dec_val(
        b[k][2],
    ) == k + 1 by {
        lemma_dec_seq_val((k + 1) as nat);
        if k == 0 {
            assert(b[0] == origin_row(tid, section, j));
        } else {
            assert(b[k] == interval_row(tid, j, si, k - 1));
        }
    }
}

/// Law: a route section sharing an earlier section's derived identity is
/// suppressed — removing it leaves the line's trip rows and seen-set
/// unchanged.
pub proof fn lemma_duplicate_section_trips(
    line: Line,
    sections: Seq<RouteSection>,
    seen: Set<Seq<char>>,
    i: int,
    j: int,
)
    requires
        0 <= i < j < sections.len(),
        section_id_of(line, sections[i]) == section_id_of(line, sections[j]),
    ensures
        line_trip_rows(line, sections, seen).0 == line_trip_rows(line, sections.remove(j), seen).0,
        line_trip_rows(line, sections, seen).1 == line_trip_rows(line, sections.remove(j), seen).1,
    decreases sections.len(),
{
    let rem = sections.remove(j);
    if j == sections.len() - 1 {
        assert(rem =~= sections.drop_last());
        lemma_line_trip_seen(line, sections.drop_last(), seen);
        let sid = section_id_of(line, sections.last());
        assert(0 <= i < sections.drop_last().len() && section_id_of(
            line,
            sections.drop_last()[i],
        ) == sid);
        assert(section_id_set(line, sections.drop_last()).contains(sid));
        assert(line_trip_rows(line, sections.drop_last(), seen).1.contains(sid));
    } else {
        assert(rem.drop_last() =~= sections.drop_last().remove(j));
        lemma_duplicate_section_trips(line, sections.drop_last(), seen, i, j);
        assert(rem.last() == sections.last());
    }
}

/// The stops table's row key: the stop identifier, first field of every
/// row.
pub open spec fn stop_key() -> spec_fn(Seq<Seq<char>>) -> Option<Seq<char>> {
    |row: Seq<Seq<char>>| Some(row[0])
}

proof fn lemma_child_rows_keys(
    children: Seq<Stop>,
    lat: Seq<char>,
    lon: Seq<char>,
    seen: Set<Seq<char>>,
)
    ensures
        emit_keys_ok(
            child_rows(children, lat, lon, seen).0,
            stop_key(),
            seen,
            child_rows(children, lat, lon, seen).1,
        ),
        forall|t: int|
            0 <= t < children.len() ==> child_rows(children, lat, lon, seen).1.contains(
                children[t].id@,
            ),
    decreases children.len(),
{
    let key = stop_key();
    if children.len() == 0 {
        lemma_emit_keys_empty(key, seen);
    } else {
        let sub = children.drop_last();
        lemma_child_rows_keys(sub, lat, lon, seen);
        let (rs, sn) = child_rows(sub, lat, lon, seen);
        let c = children.last();
        assert(forall|t: int| 0 <= t < sub.len() ==> sub[t] == children[t]);
        if !sn.contains(c.id@) {
            let row = seq![c.id@, c.name@, lat, lon];
            assert(key(row) == Some(c.id@));
            lemma_emit_keys_single(row, key, sn);
            lemma_emit_keys_concat(rs, seq![row], key, seen, sn, sn.insert(c.id@));
            assert(child_rows(children, lat, lon, seen).0 =~= rs + seq![row]);
        }
    }
}

proof fn lemma_stop_rows_keys(stop: Stop, seen: Set<Seq<char>>)
    ensures
        emit_keys_ok(stop_rows(stop, seen).0, stop_key(), seen, stop_rows(stop, seen).1),
        stop_rows(stop, seen).1.contains(stop.id@),
{
    let key = stop_key();
    if seen.contains(stop.id@) {
        lemma_emit_keys_empty(key, seen);
    } else {
        let row = seq![stop.id@, stop.name@, stop.lat@, stop.lon@];
        assert(key(row) == Some(stop.id@));
        lemma_emit_keys_single(row, key, seen);
        lemma_child_rows_keys(stop.children@, stop.lat@, stop.lon@, seen.insert(stop.id@));
        lemma_emit_keys_concat(
            seq![row],
            child_rows(stop.children@, stop.lat@, stop.lon@, seen.insert(stop.id@)).0,
            key,
            seen,
            seen.insert(stop.id@),
            child_rows(stop.children@, stop.lat@, stop.lon@, seen.insert(stop.id@)).1,
        );
    }
}

proof fn lemma_line_stops_keys(stops: Seq<Stop>, seen: Set<Seq<char>>)
    ensures
        emit_keys_ok(
            line_stop_rows(stops, seen).0,
            stop_key(),
            seen,
            line_stop_rows(stops, seen).1,
        ),
        forall|t: int|
            0 <= t < stops.len() ==> line_stop_rows(stops, seen).1.contains(stops[t].id@),
    decreases stops.len(),
{
    let key = stop_key();
    if stops.len() == 0 {
        lemma_emit_keys_empty(key, seen);
    } else {
        let sub = stops.drop_last();
        lemma_line_stops_keys(sub, seen);
        let (rs, sn) = line_stop_rows(sub, seen);
        lemma_stop_rows_keys(stops.last(), sn);
        let (rs2, sn2) = stop_rows(stops.last(), sn);
        lemma_emit_keys_concat(rs, rs2, key, seen, sn, sn2);
        assert(forall|t: int| 0 <= t < sub.len() ==> sub[t] == stops[t]);
    }
}

proof fn lemma_lines_stops_keys(lines: Seq<Line>, seen: Set<Seq<char>>)
    requires
        forall|i: int| 0 <= i < lines.len() ==> lines[i].stops is Some,
    ensures
        emit_keys_ok(
            lines_stop_rows(lines, seen).0,
            stop_key(),
            seen,
            lines_stop_rows(lines, seen).1,
        ),
        forall|li: int, t: int|
            0 <= li < lines.len() && 0 <= t < lines[li].stops->0@.len() ==> lines_stop_rows(
                lines,
                seen,
            ).1.contains(lines[li].stops->0@[t].id@),
    decreases lines.len(),
{
    let key = stop_key();
    if lines.len() == 0 {
        lemma_emit_keys_empty(key, seen);
    } else {
        let sub = lines.drop_last();
        lemma_lines_stops_keys(sub, seen);
        let (rs, sn) = lines_stop_rows(sub, seen);
        lemma_line_stops_keys(lines.last().stops->0@, sn);
        let (rs2, sn2) = line_stop_rows(lines.last().stops->0@, sn);
        lemma_emit_keys_concat(rs, rs2, key, seen, sn, sn2);
        assert(forall|li: int| 0 <= li < sub.len() ==> sub[li] == lines[li]);
        assert(lines[lines.len() - 1] == lines.last());
    }
}

/// Law: each stop identifier appears on at most one row of the stops
/// table, and every stop of every line's stop list appears on one — a
/// stop reachable from several lines is emitted exactly once. (A child
/// is also emitted at most once; it appears only when its parent was
/// itself unseen at the encounter.)
pub proof fn lemma_stops_exactly_once(lines: Seq<Line>)
    requires
        forall|i: int| 0 <= i < lines.len() ==> lines[i].stops is Some,
    ensures
        forall|k1: int, k2: int|
            1 <= k1 < k2 < stops_table(lines).len() ==> stops_table(lines)[k1][0] != stops_table(
                lines,
            )[k2][0],
        forall|li: int, t: int|
            #![trigger lines[li].stops->0@[t]]
            0 <= li < lines.len() && 0 <= t < lines[li].stops->0@.len() ==> exists|k: int|
                1 <= k < stops_table(lines).len() && stops_table(lines)[k][0]
                    == lines[li].stops->0@[t].id@,
{
    lemma_lines_stops_keys(lines, Set::empty());
    let key = stop_key();
    let body = lines_stop_rows(lines, Set::empty()).0;
    let post = lines_stop_rows(lines, Set::empty()).1;
    let table = stops_table(lines);
    assert(forall|k: int| 1 <= k < table.len() ==> table[k] == body[k - 1]);
    assert forall|k1: int, k2: int| 1 <= k1 < k2 < table.len() implies table[k1][0]
        != table[k2][0] by {
        assert(key(body[k1 - 1]) == Some(body[k1 - 1][0]));
        assert(key(body[k2 - 1]) == Some(body[k2 - 1][0]));
    }
    assert forall|li: int, t: int|
        #![trigger lines[li].stops->0@[t]]
        0 <= li < lines.len() && 0 <= t < lines[li].stops->0@.len() implies exists|k: int|
        1 <= k < table.len() && table[k][0] == lines[li].stops->0@[t].id@ by {
        let id = lines[li].stops->0@[t].id@;
        assert(post.contains(id));
        let k = choose|k: int| 0 <= k < body.len() && key(body[k]) == Some(id);
        assert(table[k + 1][0] == id);
    }
}

/// The trips table's row key: the trip identifier, third field of every
/// row.
pub open spec fn trip_key() -> spec_fn(Seq<Seq<char>>) -> Option<Seq<char>> {
    |row: Seq<Seq<char>>| Some(row[2])
}

proof fn lemma_journey_trips_keys(
    line: Line,
    section: RouteSection,
    schedule: Schedule,
    journeys: Seq<KnownJourney>,
    seen: Set<Seq<char>>,
)
    ensures
        emit_keys_ok(
            journey_trip_rows(line, section, schedule, journeys, seen).0,
            trip_key(),
            seen,
            journey_trip_rows(line, section, schedule, journeys, seen).1,
        ),
        forall|t: int|
            0 <= t < journeys.len() ==> journey_trip_rows(
                line,
                section,
                schedule,
                journeys,
                seen,
            ).1.contains(
                trip_ident(
                    line.id@,
                    section.originator@,
                    section.destination@,
                    schedule.name@,
                    journeys[t],
                ),
            ),
    decreases journeys.len(),
{
    let key = trip_key();
    if journeys.len() == 0 {
        lemma_emit_keys_empty(key, seen);
    } else {
        let sub = journeys.drop_last();
        lemma_journey_trips_keys(line, section, schedule, sub, seen);
        let (rs, sn) = journey_trip_rows(line, section, schedule, sub, seen);
        let tid = trip_ident(
            line.id@,
            section.originator@,
            section.destination@,
            schedule.name@,
            journeys.last(),
        );
        assert(forall|t: int| 0 <= t < sub.len() ==> sub[t] == journeys[t]);
        if !sn.contains(tid) {
            let row = seq![line.id@, schedule.name@, tid];
            assert(key(row) == Some(tid));
            lemma_emit_keys_single(row, key, sn);
            lemma_emit_keys_concat(rs, seq![row], key, seen, sn, sn.insert(tid));
            assert(journey_trip_rows(line, section, schedule, journeys, seen).0 =~= rs + seq![
                row,
            ]);
        }
    }
}

proof fn lemma_schedule_trips_keys(
    line: Line,
    section: RouteSection,
    schedules: Seq<Schedule>,
    seen: Set<Seq<char>>,
)
    ensures
        emit_keys_ok(
            schedule_trip_rows(line, section, schedules, seen).0,
            trip_key(),
            seen,
            schedule_trip_rows(line, section, schedules, seen).1,
        ),
        forall|s: int, t: int|
            0 <= s < schedules.len() && 0 <= t < schedules[s].known_journeys@.len()
                ==> schedule_trip_rows(line, section, schedules, seen).1.contains(
                trip_ident(
                    line.id@,
                    section.originator@,
                    section.destination@,
                    schedules[s].name@,
                    schedules[s].known_journeys@[t],
                ),
            ),
    decreases schedules.len(),
{
    let key = trip_key();
    if schedules.len() == 0 {
        lemma_emit_keys_empty(key, seen);
    } else {
        let sub = schedules.drop_last();
        lemma_schedule_trips_keys(line, section, sub, seen);
        let (rs, sn) = schedule_trip_rows(line, section, sub, seen);
        lemma_journey_trips_keys(
            line,
            section,
            schedules.last(),
            schedules.last().known_journeys@,
            sn,
        );
        let (rs2, sn2) = journey_trip_rows(
            line,
            section,
            schedules.last(),
            schedules.last().known_journeys@,
            sn,
        );
        lemma_emit_keys_concat(rs, rs2, key, seen, sn, sn2);
        assert(forall|s: int| 0 <= s < sub.len() ==> sub[s] == schedules[s]);
        assert(schedules[schedules.len() - 1] == schedules.last());
    }
}

/// Some row of `rows` carries `val` in column `col`.
pub open spec fn row_with_value(rows: Seq<Seq<Seq<char>>>, col: int, val: Seq<char>) -> bool {
    exists|k: int| 0 <= k < rows.len() && rows[k][col] == val
}

/// Law: within one route section's trips pass, journeys producing the
/// same trip identifier yield exactly one trips row — row identifiers are
/// pairwise distinct, and every journey's identifier appears on a row.
pub proof fn lemma_section_trips_exactly_once(line: Line, section: RouteSection)
    requires
        section.timetable is Some,
    ensures
        forall|k1: int, k2: int|
            0 <= k1 < k2 < section_trip_rows(line, section).len() ==> section_trip_rows(
                line,
                section,
            )[k1][2] != section_trip_rows(line, section)[k2][2],
        forall|s: int, t: int|
            #![trigger section.timetable->0.schedules@[s].known_journeys@[t]]
            0 <= s < section.timetable->0.schedules@.len() && 0 <= t
                < section.timetable->0.schedules@[s].known_journeys@.len() ==> row_with_value(
                section_trip_rows(line, section),
                2,
                trip_ident(
                    line.id@,
                    section.originator@,
                    section.destination@,
                    section.timetable->0.schedules@[s].name@,
                    section.timetable->0.schedules@[s].known_journeys@[t],
                ),
            ),
{
    let schedules = section.timetable->0.schedules@;
    lemma_schedule_trips_keys(line, section, schedules, Set::empty());
    let key = trip_key();
    let rows = section_trip_rows(line, section);
    let post = schedule_trip_rows(line, section, schedules, Set::empty()).1;
    assert forall|k1: int, k2: int| 0 <= k1 < k2 < rows.len() implies rows[k1][2]
        != rows[k2][2] by {
        assert(key(rows[k1]) == Some(rows[k1][2]));
        assert(key(rows[k2]) == Some(rows[k2][2]));
    }
    assert forall|s: int, t: int|
        #![trigger section.timetable->0.schedules@[s].known_journeys@[t]]
        0 <= s < section.timetable->0.schedules@.len() && 0 <= t
            < section.timetable->0.schedules@[s].known_journeys@.len() implies row_with_value(
        section_trip_rows(line, section),
        2,
        trip_ident(
            line.id@,
            section.originator@,
            section.destination@,
            section.timetable->0.schedules@[s].name@,
            section.timetable->0.schedules@[s].known_journeys@[t],
        ),
    ) by {
        let tid = trip_ident(
            line.id@,
            section.originator@,
            section.destination@,
            schedules[s].name@,
            schedules[s].known_journeys@[t],
        );
        assert(post.contains(tid));
        let k = choose|k: int| 0 <= k < rows.len() && key(rows[k]) == Some(tid);
        assert(rows[k][2] == tid);
        assert(row_with_value(rows, 2, tid));
    }
}

/// The stop-times row key: a row carrying sequence numeral "1" is the
/// head of a trip's event block and is keyed by its trip identifier;
/// all other rows carry no key.
pub open spec fn block_head_key() -> spec_fn(Seq<Seq<char>>) -> Option<Seq<char>> {
    |row: Seq<Seq<char>>|
        if row[2] == dec_seq(1) {
            Some(row[0])
        } else {
            None
        }
}

proof fn lemma_journey_block_keys(
    tid: Seq<char>,
    section: RouteSection,
    j: KnownJourney,
    si: StationInterval,
    pre: Set<Seq<char>>,
)
    requires
        !pre.contains(tid),
    ensures
        emit_keys_ok(
            journey_block(tid, section, j, si),
            block_head_key(),
            pre,
            pre.insert(tid),
        ),
{
    let key = block_head_key();
    let b = journey_block(tid, section, j, si);
    assert(b[0] == origin_row(tid, section, j));
    assert(key(b[0]) == Some(tid));
    assert forall|k: int| 1 <= k < b.len() implies key(b[k]) is None by {
        assert(b[k] == interval_row(tid, j, si, k - 1));
        assert(b[k][2] == dec_seq((k + 1) as nat));
        lemma_dec_seq_val((k + 1) as nat);
        lemma_dec_seq_val(1);
        assert(dec_val(dec_seq((k + 1) as nat)) != dec_val(dec_seq(1)));
    }
    assert forall|k: int| 0 <= k < b.len() && (#[trigger] key(b[k])) is Some implies pre.insert(
        tid,
    ).contains(key(b[k])->0) && !pre.contains(key(b[k])->0) by {
        if k != 0 {
            assert(key(b[k]) is None);
        }
    }
    assert forall|k1: int, k2: int|
        0 <= k1 < k2 < b.len() && (#[trigger] key(b[k1])) is Some && (#[trigger] key(
            b[k2],
        )) is Some implies key(b[k1])->0 != key(b[k2])->0 by {
        assert(key(b[k2]) is None);
    }
    assert forall|x: Seq<char>| pre.insert(tid).contains(x) implies pre.contains(x) || (exists|
        k: int,
    | 0 <= k < b.len() && key(b[k]) == Some(x)) by {
        if x == tid {
            assert(key(b[0]) == Some(x));
        }
    }
    assert forall|x: Seq<char>|
        pre.contains(x) || (exists|k: int| 0 <= k < b.len() && key(b[k]) == Some(x)) implies
        pre.insert(tid).contains(x) by {
        if !pre.contains(x) {
            let k = choose|k: int| 0 <= k < b.len() && key(b[k]) == Some(x);
            if k != 0 {
                assert(key(b[k]) is None);
            }
        }
    }
}

proof fn lemma_journey_st_keys(
    line: Line,
    section: RouteSection,
    schedule: Schedule,
    journeys: Seq<KnownJourney>,
    sis: Seq<StationInterval>,
    seen: Set<Seq<char>>,
)
    ensures
        emit_keys_ok(
            journey_st_rows(line, section, schedule, journeys, sis, seen).0,
            block_head_key(),
            seen,
            journey_st_rows(line, section, schedule, journeys, sis, seen).2,
        ),
        forall|t: int|
            0 <= t < journeys.len() && find_interval(sis, journeys[t].interval_id as int) is Some
                ==> journey_st_rows(line, section, schedule, journeys, sis, seen).2.contains(
                trip_ident(
                    line.id@,
                    section.originator@,
                    section.destination@,
                    schedule.name@,
                    journeys[t],
                ),
            ),
    decreases journeys.len(),
{
    let key = block_head_key();
    if journeys.len() == 0 {
        lemma_emit_keys_empty(key, seen);
    } else {
        let sub = journeys.drop_last();
        lemma_journey_st_keys(line, section, schedule, sub, sis, seen);
        let (rs, ds, sn) = journey_st_rows(line, section, schedule, sub, sis, seen);
        let j = journeys.last();
        let tid = trip_ident(
            line.id@,
            section.originator@,
            section.destination@,
            schedule.name@,
            j,
        );
        assert(forall|t: int| 0 <= t < sub.len() ==> sub[t] == journeys[t]);
        match find_interval(sis, j.interval_id as int) {
            None => {},
            Some(k) => {
                if !sn.contains(tid) {
                    lemma_journey_block_keys(tid, section, j, sis[k], sn);
                    lemma_emit_keys_concat(
                        rs,
                        journey_block(tid, section, j, sis[k]),
                        key,
                        seen,
                        sn,
                        sn.insert(tid),
                    );
                }
            },
        }
    }
}

proof fn lemma_schedule_st_keys(
    line: Line,
    section: RouteSection,
    schedules: Seq<Schedule>,
    sis: Seq<StationInterval>,
    seen: Set<Seq<char>>,
)
    ensures
        emit_keys_ok(
            schedule_st_rows(line, section, schedules, sis, seen).0,
            block_head_key(),
            seen,
            schedule_st_rows(line, section, schedules, sis, seen).2,
        ),
        forall|s: int, t: int|
            #![trigger schedules[s].known_journeys@[t]]
            0 <= s < schedules.len() && 0 <= t < schedules[s].known_journeys@.len()
                && find_interval(
                sis,
                schedules[s].known_journeys@[t].interval_id as int,
            ) is Some ==> schedule_st_rows(line, section, schedules, sis, seen).2.contains(
                trip_ident(
                    line.id@,
                    section.originator@,
                    section.destination@,
                    schedules[s].name@,
                    schedules[s].known_journeys@[t],
                ),
            ),
    decreases schedules.len(),
{
    let key = block_head_key();
    if schedules.len() == 0 {
        lemma_emit_keys_empty(key, seen);
    } else {
        let sub = schedules.drop_last();
        lemma_schedule_st_keys(line, section, sub, sis, seen);
        let (rs, ds, sn) = schedule_st_rows(line, section, sub, sis, seen);
        lemma_journey_st_keys(
            line,
            section,
            schedules.last(),
            schedules.last().known_journeys@,
            sis,
            sn,
        );
        let (rs2, ds2, sn2) = journey_st_rows(
            line,
            section,
            schedules.last(),
            schedules.last().known_journeys@,
            sis,
            sn,
        );
        lemma_emit_keys_concat(rs, rs2, key, seen, sn, sn2);
        assert(forall|s: int| 0 <= s < sub.len() ==> sub[s] == schedules[s]);
        assert(schedules[schedules.len() - 1] == schedules.last());
    }
}

/// Some block-head row of `rows` (sequence numeral "1") carries `tid`.
pub open spec fn block_head_with(rows: Seq<Seq<Seq<char>>>, tid: Seq<char>) -> bool {
    exists|k: int| 0 <= k < rows.len() && rows[k][2] == dec_seq(1) && rows[k][0] == tid
}

/// Law: within one route section's stop-times pass, journeys producing
/// the same trip identifier yield exactly one event block — block heads
/// carry pairwise distinct trip identifiers, and every journey whose
/// interval resolves has a block head carrying its identifier.
pub proof fn lemma_section_stop_times_exactly_once(line: Line, section: RouteSection)
    requires
        section.timetable is Some,
    ensures
        forall|k1: int, k2: int|
            0 <= k1 < k2 < section_st_rows(line, section).0.len() && section_st_rows(
                line,
                section,
            ).0[k1][2] == dec_seq(1) && section_st_rows(line, section).0[k2][2] == dec_seq(1)
                ==> section_st_rows(line, section).0[k1][0] != section_st_rows(
                line,
                section,
            ).0[k2][0],
        forall|s: int, t: int|
            #![trigger section.timetable->0.schedules@[s].known_journeys@[t]]
            0 <= s < section.timetable->0.schedules@.len() && 0 <= t
                < section.timetable->0.schedules@[s].known_journeys@.len() && find_interval(
                section.timetable->0.station_intervals@,
                section.timetable->0.schedules@[s].known_journeys@[t].interval_id as int,
            ) is Some ==> block_head_with(
                section_st_rows(line, section).0,
                trip_ident(
                    line.id@,
                    section.originator@,
                    section.destination@,
                    section.timetable->0.schedules@[s].name@,
                    section.timetable->0.schedules@[s].known_journeys@[t],
                ),
            ),
{
    let schedules = section.timetable->0.schedules@;
    let sis = section.timetable->0.station_intervals@;
    lemma_schedule_st_keys(line, section, schedules, sis, Set::empty());
    let key = block_head_key();
    let rows = section_st_rows(line, section).0;
    let post = schedule_st_rows(line, section, schedules, sis, Set::empty()).2;
    assert forall|k1: int, k2: int|
        0 <= k1 < k2 < section_st_rows(line, section).0.len() && section_st_rows(
            line,
            section,
        ).0[k1][2] == dec_seq(1) && section_st_rows(line, section).0[k2][2] == dec_seq(1) implies
        section_st_rows(line, section).0[k1][0] != section_st_rows(line, section).0[k2][0] by {
        assert(key(rows[k1]) == Some(rows[k1][0]));
        assert(key(rows[k2]) == Some(rows[k2][0]));
    }
    assert forall|s: int, t: int|
        #![trigger section.timetable->0.schedules@[s].known_journeys@[t]]
        0 <= s < section.timetable->0.schedules@.len() && 0 <= t
            < section.timetable->0.schedules@[s].known_journeys@.len() && find_interval(
            section.timetable->0.station_intervals@,
            section.timetable->0.schedules@[s].known_journeys@[t].interval_id as int,
        ) is Some implies block_head_with(
        section_st_rows(line, section).0,
        trip_ident(
            line.id@,
            section.originator@,
            section.destination@,
            section.timetable->0.schedules@[s].name@,
            section.timetable->0.schedules@[s].known_journeys@[t],
        ),
    ) by {
        let tid = trip_ident(
            line.id@,
            section.originator@,
            section.destination@,
            schedules[s].name@,
            schedules[s].known_journeys@[t],
        );
        assert(post.contains(tid));
        let k = choose|k: int| 0 <= k < rows.len() && key(rows[k]) == Some(tid);
        assert(rows[k][2] == dec_seq(1) && rows[k][0] == tid);
        assert(block_head_with(rows, tid));
    }
}

/// Law: the same suppression holds for the stop-times pass.
pub proof fn lemma_duplicate_section_stop_times(
    line: Line,
    sections: Seq<RouteSection>,
    seen: Set<Seq<char>>,
    i: int,
    j: int,
)
    requires
        0 <= i < j < sections.len(),
        section_id_of(line, sections[i]) == section_id_of(line, sections[j]),
    ensures
        line_st_rows(line, sections, seen).0 == line_st_rows(line, sections.remove(j), seen).0,
        line_st_rows(line, sections, seen).1 == line_st_rows(line, sections.remove(j), seen).1,
        line_st_rows(line, sections, seen).2 == line_st_rows(line, sections.remove(j), seen).2,
    decreases sections.len(),
{
    let rem = sections.remove(j);
    if j == sections.len() - 1 {
        assert(rem =~= sections.drop_last());
        lemma_line_st_seen(line, sections.drop_last(), seen);
        let sid = section_id_of(line, sections.last());
        assert(0 <= i < sections.drop_last().len() && section_id_of(
            line,
            sections.drop_last()[i],
        ) == sid);
        assert(section_id_set(line, sections.drop_last()).contains(sid));
        assert(line_st_rows(line, sections.drop_last(), seen).2.contains(sid));
    } else {
        assert(rem.drop_last() =~= sections.drop_last().remove(j));
        lemma_duplicate_section_stop_times(line, sections.drop_last(), seen, i, j);
        assert(rem.last() == sections.last());
    }
}

} // verus!
