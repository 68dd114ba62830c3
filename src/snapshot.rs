//! Read-side helpers for presenting the registry: entries in identifier
//! order, which entry is the followed one, and how old each state is.
use vstd::prelude::*;

use crate::registry::{Aircraft, AircraftView, Registry};
use crate::text::{chars_eq_ignore_ascii_case, chars_of, eq_ignore_ascii_case};

verus! {

/// Lexicographic order of texts by code point, the order of `str`.
pub open spec fn text_le(a: Seq<char>, b: Seq<char>) -> bool
    decreases a.len(),
{
    if a.len() == 0 {
        true
    } else if b.len() == 0 {
        false
    } else if (a[0] as u32) != (b[0] as u32) {
        (a[0] as u32) < (b[0] as u32)
    } else {
        text_le(a.drop_first(), b.drop_first())
    }
}

pub proof fn lemma_text_le_total(a: Seq<char>, b: Seq<char>)
    ensures
        text_le(a, b) || text_le(b, a),
    decreases a.len(),
{
    if a.len() > 0 && b.len() > 0 && (a[0] as u32) == (b[0] as u32) {
        lemma_text_le_total(a.drop_first(), b.drop_first());
    }
}

fn text_le_exec(a: &[char], b: &[char]) -> (r: bool)
    ensures
        r == text_le(a@, b@),
{
    let mut i: usize = 0;
    assert(a@.subrange(0, a@.len() as int) =~= a@);
    assert(b@.subrange(0, b@.len() as int) =~= b@);
    loop
        invariant
            i <= a@.len(),
            i <= b@.len(),
            text_le(a@, b@) == text_le(
                a@.subrange(i as int, a@.len() as int),
                b@.subrange(i as int, b@.len() as int),
            ),
        decreases a@.len() - i,
    {
        let ghost sa = a@.subrange(i as int, a@.len() as int);
        let ghost sb = b@.subrange(i as int, b@.len() as int);
        if i == a.len() {
            return true;
        }
        if i == b.len() {
            return false;
        }
        assert(sa[0] == a@[i as int] && sb[0] == b@[i as int]);
        if a[i] as u32 != b[i] as u32 {
            return (a[i] as u32) < (b[i] as u32);
        }
        assert(sa.drop_first() =~= a@.subrange(i + 1, a@.len() as int));
        assert(sb.drop_first() =~= b@.subrange(i + 1, b@.len() as int));
        i += 1;
    }
}

/// `order` lists each index below `n` once.
pub open spec fn is_permutation(order: Seq<usize>, n: nat) -> bool {
    &&& order.len() == n
    &&& forall|i: int| 0 <= i < order.len() ==> (#[trigger] order[i]) < n
    &&& forall|i: int, j: int|
        0 <= i < j < order.len() ==> (#[trigger] order[i]) != (#[trigger] order[j])
}

/// The entries that `order` lists have non-decreasing identifiers.
pub open spec fn ids_sorted(s: Seq<(Seq<char>, AircraftView)>, order: Seq<usize>) -> bool {
    forall|i: int|
        0 <= i < order.len() - 1 ==> text_le(
            s[(#[trigger] order[i]) as int].0,
            s[order[i + 1] as int].0,
        )
}

/// The indices that `order` lists have non-decreasing keys.
pub open spec fn keys_sorted(keys: Seq<Seq<char>>, order: Seq<usize>) -> bool {
    forall|i: int|
        0 <= i < order.len() - 1 ==> text_le(
            keys[(#[trigger] order[i]) as int],
            keys[order[i + 1] as int],
        )
}

spec fn keys_of(v: Seq<Vec<char>>) -> Seq<Seq<char>> {
    v.map_values(|c: Vec<char>| c@)
}

/// Inserts `k` into `order`, after every index whose key is at most `k`'s.
fn insert_by_key(order: &mut Vec<usize>, keys: &Vec<Vec<char>>, k: usize)
    requires
        k < keys@.len(),
        is_permutation(old(order)@, k as nat),
        keys_sorted(keys_of(keys@), old(order)@),
    ensures
        is_permutation(final(order)@, (k + 1) as nat),
        keys_sorted(keys_of(keys@), final(order)@),
{
    let ghost ks = keys_of(keys@);
    assert(forall|j: int| 0 <= j < keys@.len() ==> (#[trigger] keys@[j])@ == ks[j]);
    let mut p: usize = 0;
    while p < order.len() && text_le_exec(keys[order[p]].as_slice(), keys[k].as_slice())
        invariant
            p <= order@.len() == k < keys@.len() == ks.len(),
            forall|j: int| 0 <= j < keys@.len() ==> (#[trigger] keys@[j])@ == ks[j],
            is_permutation(order@, k as nat),
            p > 0 ==> text_le(ks[order@[p - 1] as int], ks[k as int]),
        decreases k - p,
    {
        p += 1;
    }
    let ghost before = order@;
    proof {
        if p < k {
            lemma_text_le_total(ks[before[p as int] as int], ks[k as int]);
        }
    }
    order.insert(p, k);
    assert(order@ =~= before.insert(p as int, k));
    assert forall|i: int, j: int| 0 <= i < j < order@.len() implies (#[trigger] order@[i])
        != (#[trigger] order@[j]) by {
        if i < p && j < p {
            assert(order@[i] == before[i] && order@[j] == before[j]);
        } else if i < p && j > p {
            assert(order@[i] == before[i] && order@[j] == before[j - 1]);
        } else if i > p {
            assert(order@[i] == before[i - 1] && order@[j] == before[j - 1]);
        }
    }
    assert forall|i: int| 0 <= i < order@.len() - 1 implies text_le(
        ks[(#[trigger] order@[i]) as int],
        ks[order@[i + 1] as int],
    ) by {
        if i + 1 < p {
            assert(order@[i] == before[i] && order@[i + 1] == before[i + 1]);
        } else if i > p {
            assert(order@[i] == before[i - 1] && order@[i + 1] == before[i]);
        }
    }
}

/// The indices of the registry's entries, ordered by identifier.
pub fn id_order(registry: &Registry) -> (r: Vec<usize>)
    ensures
        is_permutation(r@, registry@.len()),
        ids_sorted(registry@, r@),
{
    let n = registry.len();
    let ghost s = registry@;
    let mut ids: Vec<Vec<char>> = Vec::new();
    let mut k: usize = 0;
    while k < n
        invariant
            k <= n == s.len(),
            s == registry@,
            ids@.len() == k,
            forall|j: int| 0 <= j < k ==> (#[trigger] ids@[j])@ == s[j].0,
        decreases n - k,
    {
        let id = registry.id_at(k);
        ids.push(chars_of(id.as_str()));
        k += 1;
    }
    let mut order: Vec<usize> = Vec::new();
    k = 0;
    while k < n
        invariant
            k <= n == ids@.len(),
            is_permutation(order@, k as nat),
            keys_sorted(keys_of(ids@), order@),
        decreases n - k,
    {
        insert_by_key(&mut order, &ids, k);
        k += 1;
    }
    assert(keys_of(ids@) =~= s.map_values(|e: (Seq<char>, AircraftView)| e.0));
    order
}

/// Whether `a` is the followed aircraft: its callsign is known, not empty,
/// and equal to `wanted` up to ASCII case.
pub open spec fn is_following(a: AircraftView, wanted: Seq<char>) -> bool {
    a.callsign matches Some(cs) && cs.len() > 0 && eq_ignore_ascii_case(cs, wanted)
}

/// Whether `a` is the followed aircraft.
pub fn following(a: &Aircraft, wanted: &str) -> (r: bool)
    ensures
        r == is_following(a@, wanted@),
{
    match &a.callsign {
        Some(cs) => {
            let c = chars_of(cs.as_str());
            let w = chars_of(wanted);
            c.len() > 0 && chars_eq_ignore_ascii_case(c.as_slice(), w.as_slice())
        },
        None => false,
    }
}

/// Whole seconds since `a` was last updated, at `now` (no less than zero).
pub fn age_seconds(a: &Aircraft, now: u64) -> (r: u64)
    ensures
        r == (if now >= a.last_updated {
            (now - a.last_updated) / 1000
        } else {
            0
        }),
{
    if now >= a.last_updated {
        (now - a.last_updated) / 1000
    } else {
        0
    }
}

} // verus!
