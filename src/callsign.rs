//! The callsign cell: the one callsign whose aircraft is broadcast, set from
//! outside at any time.
use vstd::prelude::*;

use crate::text::{chars_of, string_of, trim, trim_chars};

verus! {

/// The cell's value after `input` was submitted to it: the trimmed input,
/// unless that is empty, in which case the value stays.
pub open spec fn after_submission(current: Seq<char>, input: Seq<char>) -> Seq<char> {
    if trim(input).len() == 0 {
        current
    } else {
        trim(input)
    }
}

/// Submits `input` to the cell `cell`. Returns whether the cell was written.
pub fn submit_callsign(cell: &mut String, input: &str) -> (r: bool)
    ensures
        final(cell)@ == after_submission(old(cell)@, input@),
        r == (trim(input@).len() > 0),
{
    let cs = chars_of(input);
    let t = trim_chars(cs.as_slice());
    if t.len() == 0 {
        return false;
    }
    *cell = string_of(t.as_slice());
    true
}

} // verus!
