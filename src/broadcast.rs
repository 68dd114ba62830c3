//! Selection of the followed aircraft and the text of its position datagram.
use vstd::prelude::*;

use crate::decimal::{plain_text, push_plain, push_scaled, scaled_text, Decimal};
use crate::registry::{aircraft_wf, entries_wf, Aircraft, AircraftView, Registry};
use crate::text::{chars_eq_ignore_ascii_case, chars_of, eq_ignore_ascii_case, string_of};

verus! {

/// Age in milliseconds beyond which a state is not broadcast.
pub const STALE_AFTER_MS: u64 = 5000;

/// Feet to metres: times 3048 / 10^4.
pub const FEET_TO_METERS: u32 = 3048;

/// Knots to metres per second: times 514444 / 10^6.
pub const KNOTS_TO_METERS_PER_SECOND: u32 = 514444;

/// Whether `a` carries a callsign equal to `wanted` up to ASCII case.
pub open spec fn callsign_matches(a: AircraftView, wanted: Seq<char>) -> bool {
    a.callsign matches Some(cs) && eq_ignore_ascii_case(cs, wanted)
}

/// Index of the first entry whose callsign matches `wanted`.
pub open spec fn wanted_index(s: Seq<(Seq<char>, AircraftView)>, wanted: Seq<char>) -> Option<
    int,
> {
    if exists|i: int| 0 <= i < s.len() && callsign_matches(#[trigger] s[i].1, wanted) {
        Some(
            choose|i: int|
                0 <= i < s.len() && callsign_matches(#[trigger] s[i].1, wanted) && forall|j: int|
                    0 <= j < i ==> !callsign_matches(#[trigger] s[j].1, wanted),
        )
    } else {
        None
    }
}

/// More than `STALE_AFTER_MS` milliseconds passed between `a`'s last update and `now`.
pub open spec fn is_stale(a: AircraftView, now: u64) -> bool {
    now > a.last_updated && now - a.last_updated > STALE_AFTER_MS
}

/// All of longitude, latitude, altitude, track and ground speed are known.
pub open spec fn is_complete(a: AircraftView) -> bool {
    &&& a.longitude is Some
    &&& a.latitude is Some
    &&& a.altitude_ft is Some
    &&& a.track is Some
    &&& a.ground_speed_kt is Some
}

pub open spec fn altitude_m_text(alt_ft: Decimal, places: nat) -> Seq<char> {
    scaled_text(alt_ft, FEET_TO_METERS as nat, 4, places)
}

pub open spec fn speed_ms_text(gs_kt: Decimal, places: nat) -> Seq<char> {
    scaled_text(gs_kt, KNOTS_TO_METERS_PER_SECOND as nat, 6, places)
}

/// The datagram for a complete state: longitude and latitude as they were
/// received, altitude in metres to one decimal, track to two decimals,
/// ground speed in metres per second to one decimal.
#[verifier::opaque]
pub open spec fn position_text(a: AircraftView) -> Seq<char> {
    "XGPSadsb_xgps,"@ + plain_text(a.longitude->0) + ","@ + plain_text(a.latitude->0) + ","@
        + altitude_m_text(a.altitude_ft->0, 1) + ","@ + scaled_text(a.track->0, 1, 0, 2) + ","@
        + speed_ms_text(a.ground_speed_kt->0, 1)
}

/// The datagram of one broadcast tick at `now`, or `None` when the tick is
/// skipped: no entry matches `wanted`, or the first one that does is stale
/// or incomplete.
pub open spec fn xgps_payload(s: Seq<(Seq<char>, AircraftView)>, wanted: Seq<char>, now: u64) -> Option<
    Seq<char>,
> {
    match wanted_index(s, wanted) {
        None => None,
        Some(i) => if is_stale(s[i].1, now) || !is_complete(s[i].1) {
            None
        } else {
            Some(position_text(s[i].1))
        },
    }
}

fn callsign_matches_exec(a: &Aircraft, wanted: &[char]) -> (r: bool)
    ensures
        r == callsign_matches(a@, wanted@),
{
    match &a.callsign {
        Some(cs) => {
            let c = chars_of(cs.as_str());
            chars_eq_ignore_ascii_case(c.as_slice(), wanted)
        },
        None => false,
    }
}

/// Index of the first aircraft whose callsign equals `wanted` up to ASCII case.
pub fn find_wanted(registry: &Registry, wanted: &str) -> (r: Option<usize>)
    ensures
        r matches Some(i) ==> i < registry@.len() && wanted_index(registry@, wanted@) == Some(
            i as int,
        ),
        r is None ==> wanted_index(registry@, wanted@) is None,
{
    let t = chars_of(wanted);
    let n = registry.len();
    let mut i: usize = 0;
    while i < n
        invariant
            i <= n == registry@.len(),
            t@ == wanted@,
            forall|j: int| 0 <= j < i ==> !callsign_matches(#[trigger] registry@[j].1, wanted@),
        decreases n - i,
    {
        if callsign_matches_exec(registry.aircraft_at(i), t.as_slice()) {
            proof {
                let s = registry@;
                assert(callsign_matches(s[i as int].1, wanted@));
                let k = wanted_index(s, wanted@)->0;
                assert(0 <= k < s.len() && callsign_matches(s[k].1, wanted@) && forall|j: int|
                    0 <= j < k ==> !callsign_matches(#[trigger] s[j].1, wanted@));
                if k < i {
                    assert(!callsign_matches(s[k].1, wanted@));
                }
                if k > i {
                    assert(!callsign_matches(s[i as int].1, wanted@));
                }
            }
            return Some(i);
        }
        i += 1;
    }
    None
}

/// Whether more than `STALE_AFTER_MS` milliseconds passed since `a` was updated.
pub fn stale(a: &Aircraft, now: u64) -> (r: bool)
    ensures
        r == is_stale(a@, now),
{
    now > a.last_updated && now - a.last_updated > STALE_AFTER_MS
}

/// `alt_ft` feet in metres, rounded to `places` digits after the point.
pub fn feet_to_meters(alt_ft: &Decimal, places: u32) -> (r: String)
    requires
        alt_ft.wf(),
        places <= 6,
    ensures
        r@ == altitude_m_text(*alt_ft, places as nat),
{
    let mut out: Vec<char> = Vec::new();
    push_scaled(&mut out, *alt_ft, FEET_TO_METERS, 4, places);
    string_of(out.as_slice())
}

/// `gs_kt` knots in metres per second, rounded to `places` digits after the point.
pub fn knots_to_meters_per_second(gs_kt: &Decimal, places: u32) -> (r: String)
    requires
        gs_kt.wf(),
        places <= 6,
    ensures
        r@ == speed_ms_text(*gs_kt, places as nat),
{
    let mut out: Vec<char> = Vec::new();
    push_scaled(&mut out, *gs_kt, KNOTS_TO_METERS_PER_SECOND, 6, places);
    string_of(out.as_slice())
}

/// The datagram for `a`, or `None` when one of its five position fields is unknown.
pub fn position_message(a: &Aircraft) -> (r: Option<String>)
    requires
        aircraft_wf(a@),
    ensures
        r matches Some(m) ==> is_complete(a@) && m@ == position_text(a@),
        r is None ==> !is_complete(a@),
{
    match (a.longitude, a.latitude, a.altitude_ft, a.track, a.ground_speed_kt) {
        (Some(lon), Some(lat), Some(alt), Some(trk), Some(gs)) => {
            let mut out = chars_of("XGPSadsb_xgps,");
            push_plain(&mut out, lon);
            out.push(',');
            push_plain(&mut out, lat);
            out.push(',');
            push_scaled(&mut out, alt, FEET_TO_METERS, 4, 1);
            out.push(',');
            push_scaled(&mut out, trk, 1, 0, 2);
            out.push(',');
            push_scaled(&mut out, gs, KNOTS_TO_METERS_PER_SECOND, 6, 1);
            proof {
                reveal_strlit(",");
                reveal(position_text);
            }
            assert(out@ =~= position_text(a@));
            Some(string_of(out.as_slice()))
        },
        _ => None,
    }
}

/// One broadcast tick at `now`: the datagram of the first aircraft whose
/// callsign matches `wanted` up to ASCII case, provided that it is fresh and
/// complete.
pub fn xgps_message(registry: &Registry, wanted: &str, now: u64) -> (r: Option<String>)
    requires
        registry.wf(),
    ensures
        r matches Some(m) ==> xgps_payload(registry@, wanted@, now) == Some(m@),
        r is None ==> xgps_payload(registry@, wanted@, now) is None,
{
    match find_wanted(registry, wanted) {
        None => None,
        Some(i) => {
            let ghost s = registry@;
            let a = registry.aircraft_at(i);
            assert(a@ == s[i as int].1);
            if stale(a, now) {
                assert(xgps_payload(s, wanted@, now) is None);
                return None;
            }
            assert(aircraft_wf(s[i as int].1));
            let r = position_message(a);
            assert(r matches Some(m) ==> xgps_payload(s, wanted@, now) == Some(m@));
            r
        },
    }
}

} // verus!
