//! The work that threads share out among themselves, one piece at a
//! time: counting up a common tally, and announcing what arrived on a
//! channel. The threads themselves are the caller's.

use vstd::prelude::*;

verus! {

/// How many workers count up the tally.
pub const WORKERS: u32 = 10;

/// What one worker does to the tally it shares with the others.
pub fn increment(tally: &mut i32)
    requires
        *old(tally) < i32::MAX,
    ensures
        *final(tally) == *old(tally) + 1,
{
    *tally += 1;
}

/// What the receiving end says of a message that arrived.
pub fn announce(received: &str) -> (line: String)
    ensures
        line@ == "Got: "@ + received@,
{
    let mut line = "Got: ".to_string();
    line.append(received);
    line
}

} // verus!
