//! Laws of the pipeline, stated over the models that the functions'
//! contracts use: `apply_line` for `parse_sbs_line`, and `xgps_payload` for
//! `xgps_message`.
use vstd::prelude::*;

use crate::broadcast::{callsign_matches, is_complete, is_stale, wanted_index, xgps_payload};
use crate::decimal::{decimal_of, Decimal};
use crate::record::{apply_line, kind_of, merge, record_of, updated, MIN_FIELDS};
use crate::registry::{
    blank, entries_wf, ids_distinct, lemma_upsert_twice, lookup, position, upsert, AircraftView,
};
use crate::text::{ascii_lower, eq_ignore_ascii_case, split_on, trim};

verus! {

/// A record changes exactly the fields that its kind carries: kind 1 the
/// callsign (when the field is not blank); kind 2 altitude, ground speed,
/// track, latitude and longitude; kind 3 altitude, latitude and longitude;
/// kind 4 ground speed and track; kinds 5 and 7 altitude; any other kind
/// none. Every other field keeps its value, and the update time becomes `now`.
pub proof fn lemma_merge_changes_carried_fields(
    a: AircraftView,
    kind: u8,
    f: Seq<Seq<char>>,
    now: u64,
)
    requires
        f.len() >= MIN_FIELDS,
    ensures
        merge(a, kind, f, now).last_updated == now,
        merge(a, kind, f, now).callsign == (if kind == 1 && trim(f[10]).len() > 0 {
            Some(trim(f[10]))
        } else {
            a.callsign
        }),
        merge(a, kind, f, now).altitude_ft == (if kind == 2 || kind == 3 || kind == 5 || kind
            == 7 {
            updated(a.altitude_ft, f[11])
        } else {
            a.altitude_ft
        }),
        merge(a, kind, f, now).ground_speed_kt == (if kind == 2 || kind == 4 {
            updated(a.ground_speed_kt, f[12])
        } else {
            a.ground_speed_kt
        }),
        merge(a, kind, f, now).track == (if kind == 2 || kind == 4 {
            updated(a.track, f[13])
        } else {
            a.track
        }),
        merge(a, kind, f, now).latitude == (if kind == 2 || kind == 3 {
            updated(a.latitude, f[14])
        } else {
            a.latitude
        }),
        merge(a, kind, f, now).longitude == (if kind == 2 || kind == 3 {
            updated(a.longitude, f[15])
        } else {
            a.longitude
        }),
{
}

/// A carried field that holds a number takes that number; one that does not
/// keeps its previous value, known or not.
pub proof fn lemma_updated(old: Option<Decimal>, cell: Seq<char>)
    ensures
        decimal_of(trim(cell)) matches Some(d) ==> updated(old, cell) == Some(d),
        decimal_of(trim(cell)) is None ==> updated(old, cell) == old,
{
}

/// A record reaches the entry of its identifier, creating it when needed,
/// and no other entry.
pub proof fn lemma_record_touches_its_entry(
    s: Seq<(Seq<char>, AircraftView)>,
    line: Seq<char>,
    now: u64,
    other: Seq<char>,
)
    requires
        entries_wf(s),
        record_of(line) is Some,
        other != (record_of(line)->0).1,
    ensures
        ({
            let (kind, id, f) = record_of(line)->0;
            let prev = match lookup(s, id) {
                Some(a) => a,
                None => blank(now),
            };
            lookup(apply_line(s, line, now), id) == Some(merge(prev, kind, f, now))
        }),
        lookup(apply_line(s, line, now), other) == lookup(s, other),
{
    let (kind, id, f) = record_of(line)->0;
    let prev = match lookup(s, id) {
        Some(a) => a,
        None => blank(now),
    };
    let m = merge(prev, kind, f, now);
    lemma_upsert_twice(s, id, m, m);
    let t = upsert(s, id, m);
    reveal(ids_distinct);
    match position(s, other) {
        Some(j) => {
            assert(t[j] == s[j]);
            assert(t[j].0 == other);
        },
        None => {
            assert forall|j: int| 0 <= j < t.len() implies (#[trigger] t[j]).0 != other by {
                if j < s.len() {
                    assert(t[j].0 == s[j].0 || t[j].0 == id);
                }
            }
        },
    }
}

/// A line with fewer than `MIN_FIELDS` fields, a first field other than
/// `MSG`, a report kind that is not a number, or a blank identifier leaves
/// the registry as it was.
pub proof fn lemma_discarded_line_keeps_registry(
    s: Seq<(Seq<char>, AircraftView)>,
    line: Seq<char>,
    now: u64,
)
    requires
        ({
            let f = split_on(line, ',');
            f.len() < MIN_FIELDS || f[0] != seq!['M', 'S', 'G'] || kind_of(trim(f[1])) is None
                || trim(f[4]).len() == 0
        }),
    ensures
        apply_line(s, line, now) == s,
{
}

proof fn lemma_updated_twice(old: Option<Decimal>, cell: Seq<char>)
    ensures
        updated(updated(old, cell), cell) == updated(old, cell),
{
}

/// Applying the same line twice leaves the fields as applying it once; only
/// the update time is that of the second application.
pub proof fn lemma_apply_twice(
    s: Seq<(Seq<char>, AircraftView)>,
    line: Seq<char>,
    t1: u64,
    t2: u64,
)
    requires
        entries_wf(s),
    ensures
        apply_line(apply_line(s, line, t1), line, t2) == apply_line(s, line, t2),
{
    if let Some((kind, id, f)) = record_of(line) {
        let p1 = match lookup(s, id) {
            Some(a) => a,
            None => blank(t1),
        };
        let p2 = match lookup(s, id) {
            Some(a) => a,
            None => blank(t2),
        };
        let m1 = merge(p1, kind, f, t1);
        let m2 = merge(p2, kind, f, t2);
        lemma_upsert_twice(s, id, m1, m2);
        lemma_updated_twice(p1.altitude_ft, f[11]);
        lemma_updated_twice(p1.ground_speed_kt, f[12]);
        lemma_updated_twice(p1.track, f[13]);
        lemma_updated_twice(p1.latitude, f[14]);
        lemma_updated_twice(p1.longitude, f[15]);
        assert(merge(m1, kind, f, t2) == m2);
    }
}

/// A followed aircraft whose last update is more than the staleness window
/// old is not broadcast, whatever it knows.
pub proof fn lemma_stale_not_broadcast(
    s: Seq<(Seq<char>, AircraftView)>,
    wanted: Seq<char>,
    now: u64,
)
    requires
        wanted_index(s, wanted) matches Some(i) && is_stale(s[i].1, now),
    ensures
        xgps_payload(s, wanted, now) is None,
{
}

/// A followed aircraft that lacks any of longitude, latitude, altitude, track
/// or ground speed is not broadcast.
pub proof fn lemma_incomplete_not_broadcast(
    s: Seq<(Seq<char>, AircraftView)>,
    wanted: Seq<char>,
    now: u64,
)
    requires
        wanted_index(s, wanted) matches Some(i) && !is_complete(s[i].1),
    ensures
        xgps_payload(s, wanted, now) is None,
{
}

proof fn lemma_matches_same(a: AircraftView, w1: Seq<char>, w2: Seq<char>)
    requires
        eq_ignore_ascii_case(w1, w2),
    ensures
        callsign_matches(a, w1) == callsign_matches(a, w2),
{
    if let Some(cs) = a.callsign {
        if eq_ignore_ascii_case(cs, w1) {
            assert forall|i: int| 0 <= i < cs.len() implies ascii_lower(#[trigger] cs[i])
                == ascii_lower(w2[i]) by {
                assert(ascii_lower(cs[i]) == ascii_lower(w1[i]));
                assert(ascii_lower(w1[i]) == ascii_lower(w2[i]));
            }
        }
        if eq_ignore_ascii_case(cs, w2) {
            assert forall|i: int| 0 <= i < cs.len() implies ascii_lower(#[trigger] cs[i])
                == ascii_lower(w1[i]) by {
                assert(ascii_lower(cs[i]) == ascii_lower(w2[i]));
                assert(ascii_lower(w1[i]) == ascii_lower(w2[i]));
            }
        }
    }
}

proof fn lemma_first_match(s: Seq<(Seq<char>, AircraftView)>, w: Seq<char>, i: int)
    requires
        0 <= i < s.len(),
        callsign_matches(s[i].1, w),
    ensures
        exists|k: int|
            0 <= k < s.len() && callsign_matches(#[trigger] s[k].1, w) && forall|j: int|
                0 <= j < k ==> !callsign_matches(#[trigger] s[j].1, w),
    decreases i,
{
    if exists|j: int| 0 <= j < i && callsign_matches(#[trigger] s[j].1, w) {
        let j = choose|j: int| 0 <= j < i && callsign_matches(#[trigger] s[j].1, w);
        lemma_first_match(s, w, j);
    } else {
        assert(0 <= i < s.len() && callsign_matches(s[i].1, w) && forall|j: int|
            0 <= j < i ==> !callsign_matches(#[trigger] s[j].1, w));
    }
}

proof fn lemma_wanted_index(s: Seq<(Seq<char>, AircraftView)>, w: Seq<char>)
    ensures
        wanted_index(s, w) matches Some(k) ==> 0 <= k < s.len() && callsign_matches(s[k].1, w)
            && forall|j: int| 0 <= j < k ==> !callsign_matches(#[trigger] s[j].1, w),
        wanted_index(s, w) is None ==> forall|j: int|
            0 <= j < s.len() ==> !callsign_matches(#[trigger] s[j].1, w),
{
    if exists|i: int| 0 <= i < s.len() && callsign_matches(#[trigger] s[i].1, w) {
        let i = choose|i: int| 0 <= i < s.len() && callsign_matches(#[trigger] s[i].1, w);
        lemma_first_match(s, w, i);
    }
}

/// The choice of the broadcast aircraft, and so the datagram, does not
/// depend on the ASCII case of the wanted callsign.
pub proof fn lemma_selection_ignores_ascii_case(
    s: Seq<(Seq<char>, AircraftView)>,
    w1: Seq<char>,
    w2: Seq<char>,
    now: u64,
)
    requires
        eq_ignore_ascii_case(w1, w2),
    ensures
        wanted_index(s, w1) == wanted_index(s, w2),
        xgps_payload(s, w1, now) == xgps_payload(s, w2, now),
{
    assert forall|i: int| 0 <= i < s.len() implies callsign_matches(#[trigger] s[i].1, w1)
        == callsign_matches(s[i].1, w2) by {
        lemma_matches_same(s[i].1, w1, w2);
    }
    lemma_wanted_index(s, w1);
    lemma_wanted_index(s, w2);
    let r1 = wanted_index(s, w1);
    let r2 = wanted_index(s, w2);
    if r1 is Some && r2 is Some {
        let k1 = r1->0;
        let k2 = r2->0;
        if k2 < k1 {
            assert(!callsign_matches(s[k2].1, w1));
        }
        if k1 < k2 {
            assert(!callsign_matches(s[k1].1, w2));
        }
    } else if r1 is Some {
        assert(!callsign_matches(s[r1->0].1, w2));
    } else if r2 is Some {
        assert(!callsign_matches(s[r2->0].1, w1));
    }
    assert(r1 == r2);
}

} // verus!
