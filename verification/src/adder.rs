//! Addition by two, a guess that is known to lie between 1 and 100, and
//! the rectangle of [`crate::structs`], which is at home there.

use vstd::prelude::*;

pub use crate::structs::Rectangle;

verus! {

/// `x + 2`, for every `x` whose sum fits.
pub fn add_two(x: i32) -> (sum: i32)
    requires
        x + 2 <= i32::MAX,
    ensures
        sum == x + 2,
{
    x + 2
}

/// The least value a [`Guess`] can hold.
pub const LOWEST_GUESS: i32 = 1;

/// The greatest value a [`Guess`] can hold.
pub const HIGHEST_GUESS: i32 = 100;

/// A number between [`LOWEST_GUESS`] and [`HIGHEST_GUESS`], both included.
pub struct Guess {
    value: i32,
}

impl View for Guess {
    type V = int;

    closed spec fn view(&self) -> int {
        self.value as int
    }
}

impl Guess {
    #[verifier::type_invariant]
    spec fn in_range(&self) -> bool {
        LOWEST_GUESS <= self.value <= HIGHEST_GUESS
    }

    /// A guess of `value`. A value out of range is a mistake of the
    /// caller's, and is ruled out.
    pub fn new(value: i32) -> (guess: Guess)
        requires
            LOWEST_GUESS <= value <= HIGHEST_GUESS,
        ensures
            guess@ == value,
    {
        Guess { value }
    }
}

} // verus!
