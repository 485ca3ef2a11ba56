//! Meeting the guests. Nothing is recorded yet: each step is a place to
//! hang behaviour on.

use vstd::prelude::*;

verus! {

/// Puts a guest on the waiting list.
pub fn add_to_waitlist() {
}

/// Shows a guest to a table.
pub fn seat_at_table() {
}

} // verus!
