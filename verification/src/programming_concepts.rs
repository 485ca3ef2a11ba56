//! Elementary arithmetic.

use vstd::prelude::*;

verus! {

/// `value - 2`, for every `value` whose difference fits.
pub fn sub_two(value: i32) -> (difference: i32)
    requires
        value - 2 >= i32::MIN,
    ensures
        difference == value - 2,
{
    value - 2
}

} // verus!
