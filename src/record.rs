//! Surveillance records: one comma-separated line names an aircraft and
//! carries, according to its report kind, some of that aircraft's fields.
//! Applying a record merges what parses into the registry.
use vstd::prelude::*;

use crate::decimal::{decimal_of, digit_run, digits_value, is_digit_char, Decimal};
use crate::registry::{
    aircraft_wf, blank, lookup, position, upsert, Aircraft, AircraftView, Registry,
};
use crate::text::{chars_of, split_chars, split_on, string_of, trim, trim_chars};

verus! {

/// Fewest fields that a record has.
pub const MIN_FIELDS: usize = 22;

/// The report kind written by `s`: an optional `+` and digits worth at most 255.
pub open spec fn kind_of(s: Seq<char>) -> Option<u8> {
    let b = if s.len() > 0 && s[0] == '+' {
        s.drop_first()
    } else {
        s
    };
    if b.len() > 0 && digit_run(b) == b.len() && digits_value(b) <= 255 {
        Some(digits_value(b) as u8)
    } else {
        None
    }
}

/// A line that is a record: its report kind, its identifier and its fields.
/// `None` for a line with fewer than `MIN_FIELDS` fields, a first field other
/// than `MSG`, a kind that does not parse, or an empty identifier.
pub open spec fn record_of(line: Seq<char>) -> Option<(u8, Seq<char>, Seq<Seq<char>>)> {
    let f = split_on(line, ',');
    if f.len() < MIN_FIELDS || f[0] != seq!['M', 'S', 'G'] {
        None
    } else {
        match kind_of(trim(f[1])) {
            None => None,
            Some(k) => if trim(f[4]).len() == 0 {
                None
            } else {
                Some((k, trim(f[4]), f))
            },
        }
    }
}

/// `old` replaced by the number in `cell` when it holds one.
pub open spec fn updated(old: Option<Decimal>, cell: Seq<char>) -> Option<Decimal> {
    match decimal_of(trim(cell)) {
        Some(d) => Some(d),
        None => old,
    }
}

/// `a` after a record of kind `kind` with fields `f`, received at `now`.
pub open spec fn merge(a: AircraftView, kind: u8, f: Seq<Seq<char>>, now: u64) -> AircraftView {
    let b = if kind == 1 {
        AircraftView {
            callsign: if trim(f[10]).len() > 0 {
                Some(trim(f[10]))
            } else {
                a.callsign
            },
            ..a
        }
    } else if kind == 2 {
        AircraftView {
            altitude_ft: updated(a.altitude_ft, f[11]),
            ground_speed_kt: updated(a.ground_speed_kt, f[12]),
            track: updated(a.track, f[13]),
            latitude: updated(a.latitude, f[14]),
            longitude: updated(a.longitude, f[15]),
            ..a
        }
    } else if kind == 3 {
        AircraftView {
            altitude_ft: updated(a.altitude_ft, f[11]),
            latitude: updated(a.latitude, f[14]),
            longitude: updated(a.longitude, f[15]),
            ..a
        }
    } else if kind == 4 {
        AircraftView {
            ground_speed_kt: updated(a.ground_speed_kt, f[12]),
            track: updated(a.track, f[13]),
            ..a
        }
    } else if kind == 5 || kind == 7 {
        AircraftView { altitude_ft: updated(a.altitude_ft, f[11]), ..a }
    } else {
        a
    };
    AircraftView { last_updated: now, ..b }
}

/// The registry `s` after the line `line`, received at `now`.
pub open spec fn apply_line(s: Seq<(Seq<char>, AircraftView)>, line: Seq<char>, now: u64) -> Seq<
    (Seq<char>, AircraftView),
> {
    match record_of(line) {
        None => s,
        Some((kind, id, f)) => {
            let current = match lookup(s, id) {
                Some(a) => a,
                None => blank(now),
            };
            upsert(s, id, merge(current, kind, f, now))
        },
    }
}

fn parse_kind(t: &[char]) -> (r: Option<u8>)
    ensures
        r == kind_of(t@),
{
    let n = t.len();
    let start: usize = if n > 0 && t[0] == '+' {
        1
    } else {
        0
    };
    let ghost b = t@.subrange(start as int, n as int);
    assert(b =~= (if t@.len() > 0 && t@[0] == '+' {
        t@.drop_first()
    } else {
        t@
    }));
    if start == n {
        return None;
    }
    let mut v: u32 = 0;
    let mut i: usize = start;
    while i < n
        invariant
            start <= i <= n == t@.len(),
            b == t@.subrange(start as int, n as int),
            b == (if t@.len() > 0 && t@[0] == '+' {
                t@.drop_first()
            } else {
                t@
            }),
            b.len() > 0,
            forall|j: int| start <= j < i ==> is_digit_char(#[trigger] t@[j]),
            v == digits_value(t@.subrange(start as int, i as int)),
            v <= 255,
        decreases n - i,
    {
        let c = t[i];
        if !('0' <= c && c <= '9') {
            proof {
                crate::decimal::lemma_digit_run(b);
                assert(b[i - start] == t@[i as int]);
                assert(!is_digit_char(b[i - start]));
                assert(digit_run(b) <= i - start);
            }
            return None;
        }
        assert(t@.subrange(start as int, i + 1).drop_last() =~= t@.subrange(
            start as int,
            i as int,
        ));
        let ghost next = t@.subrange(start as int, i + 1);
        assert(next.last() == c);
        assert(digits_value(next) == digits_value(next.drop_last()) * 10 + crate::decimal::digit_of(c));
        v = v * 10 + (c as u32 - '0' as u32);
        i += 1;
        if v > 255 {
            proof {
                assert(b.subrange(0, i - start) =~= t@.subrange(start as int, i as int));
                crate::decimal::lemma_digits_value_prefix(b, i - start);
            }
            return None;
        }
    }
    proof {
        assert(t@.subrange(start as int, n as int) =~= b);
        assert forall|j: int| 0 <= j < b.len() implies is_digit_char(#[trigger] b[j]) by {
            assert(b[j] == t@[start + j]);
        }
        crate::decimal::lemma_digit_run_all(b);
    }
    Some(v as u8)
}

fn is_msg_token(f: &[char]) -> (r: bool)
    ensures
        r == (f@ == seq!['M', 'S', 'G']),
{
    let r = f.len() == 3 && f[0] == 'M' && f[1] == 'S' && f[2] == 'G';
    if r {
        assert(f@ =~= seq!['M', 'S', 'G']);
    }
    r
}

fn updated_value(old: Option<Decimal>, cell: &[char]) -> (r: Option<Decimal>)
    ensures
        r == updated(old, cell@),
        (old matches Some(d) ==> d.wf()) ==> (r matches Some(d) ==> d.wf()),
{
    let t = trim_chars(cell);
    match Decimal::parse_chars(t.as_slice()) {
        Some(d) => Some(d),
        None => old,
    }
}

fn copy_aircraft(a: &Aircraft) -> (r: Aircraft)
    ensures
        r@ == a@,
{
    Aircraft {
        callsign: match &a.callsign {
            Some(s) => Some(s.clone()),
            None => None,
        },
        latitude: a.latitude,
        longitude: a.longitude,
        altitude_ft: a.altitude_ft,
        ground_speed_kt: a.ground_speed_kt,
        track: a.track,
        last_updated: a.last_updated,
    }
}

fn merge_fields(a: &mut Aircraft, kind: u8, f: &Vec<Vec<char>>, now: u64)
    requires
        f@.len() >= MIN_FIELDS,
        aircraft_wf(old(a)@),
    ensures
        final(a)@ == merge(old(a)@, kind, f@.map_values(|v: Vec<char>| v@), now),
        aircraft_wf(final(a)@),
{
    let ghost fs = f@.map_values(|v: Vec<char>| v@);
    assert(forall|k: int| 0 <= k < f@.len() ==> fs[k] == (#[trigger] f@[k])@);
    if kind == 1 {
        let cs = trim_chars(f[10].as_slice());
        if cs.len() > 0 {
            a.callsign = Some(string_of(cs.as_slice()));
        }
    } else if kind == 2 {
        a.altitude_ft = updated_value(a.altitude_ft, f[11].as_slice());
        a.ground_speed_kt = updated_value(a.ground_speed_kt, f[12].as_slice());
        a.track = updated_value(a.track, f[13].as_slice());
        a.latitude = updated_value(a.latitude, f[14].as_slice());
        a.longitude = updated_value(a.longitude, f[15].as_slice());
    } else if kind == 3 {
        a.altitude_ft = updated_value(a.altitude_ft, f[11].as_slice());
        a.latitude = updated_value(a.latitude, f[14].as_slice());
        a.longitude = updated_value(a.longitude, f[15].as_slice());
    } else if kind == 4 {
        a.ground_speed_kt = updated_value(a.ground_speed_kt, f[12].as_slice());
        a.track = updated_value(a.track, f[13].as_slice());
    } else if kind == 5 || kind == 7 {
        a.altitude_ft = updated_value(a.altitude_ft, f[11].as_slice());
    }
    a.last_updated = now;
}

/// Applies one line of the feed, received at `now` (milliseconds on a
/// monotonic clock), to the registry. A line that is not a record leaves the
/// registry as it was; a record creates the entry of its identifier when
/// there is none, overwrites each field that its kind carries and that
/// parses, and sets the entry's `last_updated` to `now`.
pub fn parse_sbs_line(line: &str, registry: &mut Registry, now: u64)
    requires
        old(registry).wf(),
    ensures
        final(registry).wf(),
        final(registry)@ == apply_line(old(registry)@, line@, now),
{
    let chars = chars_of(line);
    let fields = split_chars(chars.as_slice(), ',');
    let ghost fs = fields@.map_values(|v: Vec<char>| v@);
    assert(forall|k: int| 0 <= k < fields@.len() ==> fs[k] == (#[trigger] fields@[k])@);
    if fields.len() < MIN_FIELDS {
        return;
    }
    if !is_msg_token(fields[0].as_slice()) {
        return;
    }
    let kind = match parse_kind(trim_chars(fields[1].as_slice()).as_slice()) {
        Some(k) => k,
        None => return,
    };
    let id = trim_chars(fields[4].as_slice());
    if id.len() == 0 {
        return;
    }
    let mut current = match registry.find_chars(id.as_slice()) {
        Some(i) => copy_aircraft(registry.aircraft_at(i)),
        None => Aircraft {
            callsign: None,
            latitude: None,
            longitude: None,
            altitude_ft: None,
            ground_speed_kt: None,
            track: None,
            last_updated: now,
        },
    };
    merge_fields(&mut current, kind, &fields, now);
    registry.upsert(id, current);
}

} // verus!
