//! Serving the guests. Nothing is recorded yet: each step is a place to
//! hang behaviour on.

use vstd::prelude::*;

verus! {

/// Takes an order.
pub fn take_order() {
}

/// Brings what was ordered.
pub fn serve_order() {
}

/// Settles the bill.
pub fn take_payment() {
}

} // verus!
