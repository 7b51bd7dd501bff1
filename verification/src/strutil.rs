//! Contracts for the few `String` operations the engine uses that the
//! standard library specifications do not yet cover.

use vstd::prelude::*;

verus! {

/// Relies on `String::push`: appends the character to the end of the string.
pub assume_specification[ String::push ](s: &mut String, ch: char)
    ensures
        final(s)@ == old(s)@.push(ch),
;

} // verus!
