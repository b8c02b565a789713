//! Telling a click from a button that is held down.

use vstd::prelude::*;

verus! {

/// Whether a button was clicked: it is down now and was not down when it was
/// last looked at.
pub fn was_clicked(current: bool, previous: bool) -> (clicked: bool)
    ensures
        clicked == (current && !previous),
{
    current && !previous
}

} // verus!
