//! The aircraft registry: one aggregated state per aircraft identifier, in
//! the order in which the identifiers were first seen. Entries are never
//! removed.
use vstd::prelude::*;

use crate::decimal::Decimal;
use crate::text::{chars_of, string_of};

verus! {

/// What is known of one aircraft. Times are milliseconds on a monotonic clock.
pub struct Aircraft {
    pub callsign: Option<String>,
    pub latitude: Option<Decimal>,
    pub longitude: Option<Decimal>,
    pub altitude_ft: Option<Decimal>,
    pub ground_speed_kt: Option<Decimal>,
    pub track: Option<Decimal>,
    pub last_updated: u64,
}

pub struct AircraftView {
    pub callsign: Option<Seq<char>>,
    pub latitude: Option<Decimal>,
    pub longitude: Option<Decimal>,
    pub altitude_ft: Option<Decimal>,
    pub ground_speed_kt: Option<Decimal>,
    pub track: Option<Decimal>,
    pub last_updated: u64,
}

impl View for Aircraft {
    type V = AircraftView;

    open spec fn view(&self) -> AircraftView {
        AircraftView {
            callsign: match self.callsign {
                Some(s) => Some(s@),
                None => None,
            },
            latitude: self.latitude,
            longitude: self.longitude,
            altitude_ft: self.altitude_ft,
            ground_speed_kt: self.ground_speed_kt,
            track: self.track,
            last_updated: self.last_updated,
        }
    }
}

/// A state with nothing known, last updated at `now`.
pub open spec fn blank(now: u64) -> AircraftView {
    AircraftView {
        callsign: None,
        latitude: None,
        longitude: None,
        altitude_ft: None,
        ground_speed_kt: None,
        track: None,
        last_updated: now,
    }
}

pub open spec fn opt_wf(d: Option<Decimal>) -> bool {
    d matches Some(x) ==> x.wf()
}

pub open spec fn aircraft_wf(a: AircraftView) -> bool {
    &&& opt_wf(a.latitude)
    &&& opt_wf(a.longitude)
    &&& opt_wf(a.altitude_ft)
    &&& opt_wf(a.ground_speed_kt)
    &&& opt_wf(a.track)
}

/// No two entries have the same identifier.
#[verifier::opaque]
pub open spec fn ids_distinct(s: Seq<(Seq<char>, AircraftView)>) -> bool {
    forall|i: int, j: int|
        0 <= i < s.len() && 0 <= j < s.len() && i != j ==> (#[trigger] s[i]).0 != (#[trigger] s[j]).0
}

/// Identifiers are non-empty and distinct, and every known number is well formed.
pub open spec fn entries_wf(s: Seq<(Seq<char>, AircraftView)>) -> bool {
    &&& forall|i: int| 0 <= i < s.len() ==> (#[trigger] s[i]).0.len() > 0
    &&& forall|i: int| 0 <= i < s.len() ==> aircraft_wf((#[trigger] s[i]).1)
    &&& ids_distinct(s)
}

/// Index of the entry for `id`.
pub open spec fn position(s: Seq<(Seq<char>, AircraftView)>, id: Seq<char>) -> Option<int> {
    if exists|i: int| 0 <= i < s.len() && (#[trigger] s[i]).0 == id {
        Some(choose|i: int| 0 <= i < s.len() && (#[trigger] s[i]).0 == id)
    } else {
        None
    }
}

/// The state recorded for `id`.
pub open spec fn lookup(s: Seq<(Seq<char>, AircraftView)>, id: Seq<char>) -> Option<AircraftView> {
    match position(s, id) {
        Some(i) => Some(s[i].1),
        None => None,
    }
}

/// `s` with the state of `id` replaced by `a`, or `(id, a)` appended when
/// `id` has no entry.
pub open spec fn upsert(s: Seq<(Seq<char>, AircraftView)>, id: Seq<char>, a: AircraftView) -> Seq<
    (Seq<char>, AircraftView),
> {
    match position(s, id) {
        Some(i) => s.update(i, (id, a)),
        None => s.push((id, a)),
    }
}

pub proof fn lemma_position(s: Seq<(Seq<char>, AircraftView)>, id: Seq<char>, j: int)
    requires
        entries_wf(s),
        0 <= j < s.len(),
        s[j].0 == id,
    ensures
        position(s, id) == Some(j),
{
    reveal(ids_distinct);
}

pub proof fn lemma_upsert_wf(s: Seq<(Seq<char>, AircraftView)>, id: Seq<char>, a: AircraftView)
    requires
        entries_wf(s),
        id.len() > 0,
        aircraft_wf(a),
    ensures
        entries_wf(upsert(s, id, a)),
        lookup(upsert(s, id, a), id) == Some(a),
{
    let t = upsert(s, id, a);
    reveal(ids_distinct);
    match position(s, id) {
        Some(i) => {
            lemma_position(t, id, i);
        },
        None => {
            lemma_position(t, id, s.len() as int);
        },
    }
}

/// Where an upsert puts `id`, and that a second upsert of `id` replaces the first.
pub proof fn lemma_upsert_twice(
    s: Seq<(Seq<char>, AircraftView)>,
    id: Seq<char>,
    a: AircraftView,
    b: AircraftView,
)
    requires
        ids_distinct(s),
    ensures
        ids_distinct(upsert(s, id, a)),
        lookup(upsert(s, id, a), id) == Some(a),
        upsert(upsert(s, id, a), id, b) == upsert(s, id, b),
{
    reveal(ids_distinct);
    let t = upsert(s, id, a);
    match position(s, id) {
        Some(i) => {
            assert(0 <= i < s.len() && s[i].0 == id);
            lemma_position_distinct(t, id, i);
            assert(t.update(i, (id, b)) =~= s.update(i, (id, b)));
        },
        None => {
            lemma_position_distinct(t, id, s.len() as int);
            assert(t.update(s.len() as int, (id, b)) =~= s.push((id, b)));
        },
    }
}

proof fn lemma_position_distinct(s: Seq<(Seq<char>, AircraftView)>, id: Seq<char>, j: int)
    requires
        ids_distinct(s),
        0 <= j < s.len(),
        s[j].0 == id,
    ensures
        position(s, id) == Some(j),
{
    reveal(ids_distinct);
}

pub struct Registry {
    entries: Vec<(Vec<char>, Aircraft)>,
}

impl View for Registry {
    type V = Seq<(Seq<char>, AircraftView)>;

    closed spec fn view(&self) -> Seq<(Seq<char>, AircraftView)> {
        self.entries@.map_values(|e: (Vec<char>, Aircraft)| (e.0@, e.1@))
    }
}

fn chars_equal(a: &[char], b: &[char]) -> (r: bool)
    ensures
        r == (a@ == b@),
{
    if a.len() != b.len() {
        return false;
    }
    let mut i: usize = 0;
    while i < a.len()
        invariant
            a@.len() == b@.len(),
            i <= a@.len(),
            forall|j: int| 0 <= j < i ==> a@[j] == b@[j],
        decreases a@.len() - i,
    {
        if a[i] != b[i] {
            return false;
        }
        i += 1;
    }
    assert(a@ =~= b@);
    true
}

impl Registry {
    /// Identifiers are non-empty and distinct, and every known number is well formed.
    pub open spec fn wf(&self) -> bool {
        entries_wf(self@)
    }

    pub fn new() -> (r: Registry)
        ensures
            r@ == Seq::<(Seq<char>, AircraftView)>::empty(),
            r.wf(),
    {
        let r = Registry { entries: Vec::new() };
        reveal(ids_distinct);
        assert(r@ =~= Seq::<(Seq<char>, AircraftView)>::empty());
        r
    }

    /// Number of aircraft.
    pub fn len(&self) -> (r: usize)
        ensures
            r == self@.len(),
    {
        self.entries.len()
    }

    pub fn is_empty(&self) -> (r: bool)
        ensures
            r == (self@.len() == 0),
    {
        self.entries.len() == 0
    }

    /// Index of the entry for `id`.
    pub fn find_chars(&self, id: &[char]) -> (r: Option<usize>)
        requires
            self.wf(),
        ensures
            r matches Some(i) ==> position(self@, id@) == Some(i as int),
            r is None ==> position(self@, id@) is None,
    {
        let mut i: usize = 0;
        while i < self.entries.len()
            invariant
                i <= self@.len(),
                self@.len() == self.entries@.len(),
                entries_wf(self@),
                forall|j: int| 0 <= j < i ==> (#[trigger] self@[j]).0 != id@,
            decreases self@.len() - i,
        {
            if chars_equal(self.entries[i].0.as_slice(), id) {
                proof {
                    lemma_position(self@, id@, i as int);
                }
                return Some(i);
            }
            i += 1;
        }
        None
    }

    /// The state of the aircraft `id`, if it has an entry.
    pub fn get(&self, id: &str) -> (r: Option<&Aircraft>)
        requires
            self.wf(),
        ensures
            r matches Some(a) ==> lookup(self@, id@) == Some(a@),
            r is None ==> lookup(self@, id@) is None,
    {
        let cs = chars_of(id);
        match self.find_chars(cs.as_slice()) {
            Some(i) => Some(&self.entries[i].1),
            None => None,
        }
    }

    /// The identifier of the `i`-th entry.
    pub fn id_at(&self, i: usize) -> (r: String)
        requires
            i < self@.len(),
        ensures
            r@ == self@[i as int].0,
    {
        string_of(self.entries[i].0.as_slice())
    }

    /// The state of the `i`-th entry.
    pub fn aircraft_at(&self, i: usize) -> (r: &Aircraft)
        requires
            i < self@.len(),
        ensures
            r@ == self@[i as int].1,
    {
        &self.entries[i].1
    }

    /// Puts `a` as the state of `id`: in its entry, or in a new last entry.
    pub fn upsert(&mut self, id: Vec<char>, a: Aircraft)
        requires
            old(self).wf(),
            id@.len() > 0,
            aircraft_wf(a@),
        ensures
            final(self)@ == upsert(old(self)@, id@, a@),
            final(self).wf(),
    {
        proof {
            lemma_upsert_wf(self@, id@, a@);
        }
        let ghost ida = id@;
        let ghost av = a@;
        match self.find_chars(id.as_slice()) {
            Some(i) => {
                self.entries.set(i, (id, a));
                assert(self@ =~= upsert(old(self)@, ida, av));
            },
            None => {
                self.entries.push((id, a));
                assert(self@ =~= upsert(old(self)@, ida, av));
            },
        }
    }
}

} // verus!
