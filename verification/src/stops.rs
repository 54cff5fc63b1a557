//! The stops table: a depth-one flatten of every line's stop hierarchy.
//! Each stop is emitted at its first encounter in line order; each child
//! is emitted with its parent's coordinates (children carry no usable
//! coordinates of their own); grandchildren are never visited.

use vstd::prelude::*;

use crate::dedup::Dedup;
use crate::model::{Line, Stop};
use crate::rows::row4;

verus! {

/// The stops-table header.
pub open spec fn stops_header() -> Seq<Seq<char>> {
    seq!["stop_id"@, "stop_name"@, "stop_lat"@, "stop_lon"@]
}

/// Rows for the children of one stop, carrying the parent's coordinates,
/// threaded through the seen-set.
pub open spec fn child_rows(
    children: Seq<Stop>,
    lat: Seq<char>,
    lon: Seq<char>,
    seen: Set<Seq<char>>,
) -> (Seq<Seq<Seq<char>>>, Set<Seq<char>>)
    decreases children.len(),
{
    if children.len() == 0 {
        (Seq::empty(), seen)
    } else {
        let (rs, sn) = child_rows(children.drop_last(), lat, lon, seen);
        let c = children.last();
        if sn.contains(c.id@) {
            (rs, sn)
        } else {
            (rs.push(seq![c.id@, c.name@, lat, lon]), sn.insert(c.id@))
        }
    }
}

/// Rows for one stop: nothing if it was seen already, else its own row
/// followed by its unseen children's rows.
pub open spec fn stop_rows(stop: Stop, seen: Set<Seq<char>>) -> (Seq<Seq<Seq<char>>>, Set<
    Seq<char>,
>) {
    if seen.contains(stop.id@) {
        (Seq::empty(), seen)
    } else {
        let (rs, sn) = child_rows(stop.children@, stop.lat@, stop.lon@, seen.insert(stop.id@));
        (seq![seq![stop.id@, stop.name@, stop.lat@, stop.lon@]] + rs, sn)
    }
}

/// Rows for one line's stops, in the snapshot's order.
pub open spec fn line_stop_rows(stops: Seq<Stop>, seen: Set<Seq<char>>) -> (Seq<Seq<Seq<char>>>, Set<
    Seq<char>,
>)
    decreases stops.len(),
{
    if stops.len() == 0 {
        (Seq::empty(), seen)
    } else {
        let (rs, sn) = line_stop_rows(stops.drop_last(), seen);
        let (rs2, sn2) = stop_rows(stops.last(), sn);
        (rs + rs2, sn2)
    }
}

/// Rows for all lines, one shared seen-set across the whole pass.
pub open spec fn lines_stop_rows(lines: Seq<Line>, seen: Set<Seq<char>>) -> (Seq<Seq<Seq<char>>>, Set<
    Seq<char>,
>)
    decreases lines.len(),
{
    if lines.len() == 0 {
        (Seq::empty(), seen)
    } else {
        let (rs, sn) = lines_stop_rows(lines.drop_last(), seen);
        let (rs2, sn2) = line_stop_rows(lines.last().stops->0@, sn);
        (rs + rs2, sn2)
    }
}

/// The whole stops table.
pub open spec fn stops_table(lines: Seq<Line>) -> Seq<Seq<Seq<char>>> {
    seq![stops_header()] + lines_stop_rows(lines, Set::empty()).0
}

/// Emits the unseen children of one stop with the parent's coordinates.
fn emit_children(
    children: &Vec<Stop>,
    lat: &String,
    lon: &String,
    seen: &mut Dedup,
    out: &mut Vec<Vec<String>>,
)
    ensures
        final(out).deep_view() == old(out).deep_view() + child_rows(
            children@,
            lat@,
            lon@,
            old(seen)@,
        ).0,
        final(seen)@ == child_rows(children@, lat@, lon@, old(seen)@).1,
{
    let n = children.len();
    let mut i: usize = 0;
    while i < n
        invariant
            0 <= i <= n == children@.len(),
            out.deep_view() == old(out).deep_view() + child_rows(
                children@.subrange(0, i as int),
                lat@,
                lon@,
                old(seen)@,
            ).0,
            seen@ == child_rows(children@.subrange(0, i as int), lat@, lon@, old(seen)@).1,
        decreases n - i,
    {
        let ghost prev = out.deep_view();
        let child = &children[i];
        if !seen.seen(&child.id) {
            out.push(row4(child.id.clone(), child.name.clone(), lat.clone(), lon.clone()));
            seen.mark_seen(&child.id);
            proof {
                assert(out.deep_view() =~= prev.push(
                    seq![child.id@, child.name@, lat@, lon@],
                ));
            }
        }
        proof {
            let cur = children@.subrange(0, i + 1 as int);
            assert(cur.drop_last() =~= children@.subrange(0, i as int));
            assert(out.deep_view() =~= old(out).deep_view() + child_rows(
                cur,
                lat@,
                lon@,
                old(seen)@,
            ).0);
        }
        i += 1;
    }
    proof {
        assert(children@.subrange(0, n as int) =~= children@);
    }
}

/// Emits one stop and its children, unless the stop was seen already.
fn emit_stop(stop: &Stop, seen: &mut Dedup, out: &mut Vec<Vec<String>>)
    ensures
        final(out).deep_view() == old(out).deep_view() + stop_rows(*stop, old(seen)@).0,
        final(seen)@ == stop_rows(*stop, old(seen)@).1,
{
    let ghost prev = out.deep_view();
    if !seen.seen(&stop.id) {
        out.push(row4(stop.id.clone(), stop.name.clone(), stop.lat.clone(), stop.lon.clone()));
        seen.mark_seen(&stop.id);
        proof {
            assert(out.deep_view() =~= prev + seq![
                seq![stop.id@, stop.name@, stop.lat@, stop.lon@],
            ]);
        }
        emit_children(&stop.children, &stop.lat, &stop.lon, seen, out);
        proof {
            assert(out.deep_view() =~= prev + stop_rows(*stop, old(seen)@).0);
        }
    }
}

/// Emits one line's stops in order.
fn emit_line_stops(stops: &Vec<Stop>, seen: &mut Dedup, out: &mut Vec<Vec<String>>)
    ensures
        final(out).deep_view() == old(out).deep_view() + line_stop_rows(stops@, old(seen)@).0,
        final(seen)@ == line_stop_rows(stops@, old(seen)@).1,
{
    let n = stops.len();
    let mut i: usize = 0;
    while i < n
        invariant
            0 <= i <= n == stops@.len(),
            out.deep_view() == old(out).deep_view() + line_stop_rows(
                stops@.subrange(0, i as int),
                old(seen)@,
            ).0,
            seen@ == line_stop_rows(stops@.subrange(0, i as int), old(seen)@).1,
        decreases n - i,
    {
        emit_stop(&stops[i], seen, out);
        proof {
            let cur = stops@.subrange(0, i + 1 as int);
            assert(cur.drop_last() =~= stops@.subrange(0, i as int));
            assert(out.deep_view() =~= old(out).deep_view() + line_stop_rows(
                cur,
                old(seen)@,
            ).0);
        }
        i += 1;
    }
    proof {
        assert(stops@.subrange(0, n as int) =~= stops@);
    }
}

/// Emits the stops table for the whole snapshot. Requires ingestion to
/// have populated every line's stops; a stop reachable from several
/// lines, or as a child of several parents, is emitted exactly once, at
/// its first encounter.
pub fn stops_rows(lines: &Vec<Line>) -> (r: Vec<Vec<String>>)
    requires
        forall|i: int| 0 <= i < lines@.len() ==> lines@[i].stops is Some,
    ensures
        r.deep_view() == stops_table(lines@),
{
    let mut out: Vec<Vec<String>> = Vec::new();
    let mut seen = Dedup::new();
    out.push(
        row4(
            String::from_str("stop_id"),
            String::from_str("stop_name"),
            String::from_str("stop_lat"),
            String::from_str("stop_lon"),
        ),
    );
    let ghost base = out.deep_view();
    let n = lines.len();
    let mut i: usize = 0;
    while i < n
        invariant
            0 <= i <= n == lines@.len(),
            forall|k: int| 0 <= k < lines@.len() ==> lines@[k].stops is Some,
            base == seq![stops_header()],
            out.deep_view() == base + lines_stop_rows(
                lines@.subrange(0, i as int),
                Set::empty(),
            ).0,
            seen@ == lines_stop_rows(lines@.subrange(0, i as int), Set::empty()).1,
        decreases n - i,
    {
        let line = &lines[i];
        match &line.stops {
            Some(stops) => {
                emit_line_stops(stops, &mut seen, &mut out);
            },
            None => {
                proof {
                    assert(false);
                }
            },
        }
        proof {
            let cur = lines@.subrange(0, i + 1 as int);
            assert(cur.drop_last() =~= lines@.subrange(0, i as int));
            assert(out.deep_view() =~= base + lines_stop_rows(cur, Set::empty()).0);
        }
        i += 1;
    }
    proof {
        assert(lines@.subrange(0, n as int) =~= lines@);
        assert(out.deep_view() =~= stops_table(lines@));
    }
    out
}

} // verus!
