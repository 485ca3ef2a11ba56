//! A game of guessing a secret number, played by halving in on it: each
//! wrong guess moves one end of the range in which the player is told to
//! look.

use rand::Rng;
use vstd::prelude::*;

verus! {

/// The least number that can be the secret.
pub const LOWEST: u32 = 1;

/// The greatest number that can be the secret.
pub const HIGHEST: u32 = 100;

/// What the player is told about a guess.
#[derive(Clone, Copy, Debug, PartialEq, Eq, Structural)]
pub enum Verdict {
    TooSmall,
    TooBig,
    Win,
}

/// A game in play: the secret number, and the range that the player is
/// told to guess in.
pub struct Round {
    pub range_start: u32,
    pub range_end: u32,
    pub secret_number: u32,
}

impl Round {
    /// The secret lies in the range.
    pub open spec fn fair(self) -> bool {
        self.range_start <= self.secret_number <= self.range_end
    }

    /// What `guess` is answered with.
    pub open spec fn verdict(self, guess: u32) -> Verdict {
        if guess < self.secret_number {
            Verdict::TooSmall
        } else if guess > self.secret_number {
            Verdict::TooBig
        } else {
            Verdict::Win
        }
    }

    /// The round after `guess`: a guess too small moves the start of the
    /// range to just above it, a guess too big moves the end to just
    /// below it, and the right guess leaves the range alone.
    pub open spec fn after(self, guess: u32) -> Round {
        match self.verdict(guess) {
            Verdict::TooSmall => Round { range_start: (guess + 1) as u32, ..self },
            Verdict::TooBig => Round { range_end: (guess - 1) as u32, ..self },
            Verdict::Win => self,
        }
    }

    /// Whatever is guessed, the secret stays in the range.
    pub proof fn lemma_stays_fair(self, guess: u32)
        requires
            self.fair(),
        ensures
            self.after(guess).fair(),
            self.after(guess).secret_number == self.secret_number,
    {
    }
}

/// A game of guessing.
pub struct Game {
    round: Round,
}

impl View for Game {
    type V = Round;

    closed spec fn view(&self) -> Round {
        self.round
    }
}

/// Draws with `Rng::gen_range` on `rand::thread_rng()`, over the range
/// from `low` to `high` with both ends included. The number drawn is
/// left to chance: all that is claimed is that it lies in that range,
/// and two draws need not agree. The range must not be empty, or
/// `gen_range` panics. Nothing is proved of this function; it is taken
/// on trust from the `rand` crate, whose generator gives up only where
/// the system has no randomness to seed it with.
#[verifier::external_body]
fn draw(low: u32, high: u32) -> (number: u32)
    requires
        low <= high,
    ensures
        low <= number <= high,
{
    rand::thread_rng().gen_range(low..=high)
}

impl Game {
    #[verifier::type_invariant]
    spec fn fair(&self) -> bool {
        self.round.fair()
    }

    /// A game whose secret is drawn at random between [`LOWEST`] and
    /// [`HIGHEST`], with all of that range to guess in.
    pub fn new() -> (game: Game)
        ensures
            game@.fair(),
            game@.range_start == LOWEST,
            game@.range_end == HIGHEST,
    {
        Game::with_secret(draw(LOWEST, HIGHEST))
    }

    /// A game with the given secret, and all of the range from
    /// [`LOWEST`] to [`HIGHEST`] to guess in.
    pub fn with_secret(secret_number: u32) -> (game: Game)
        requires
            LOWEST <= secret_number <= HIGHEST,
        ensures
            game@ == (Round { range_start: LOWEST, range_end: HIGHEST, secret_number }),
    {
        Game { round: Round { range_start: LOWEST, range_end: HIGHEST, secret_number } }
    }

    /// The range that the player is told to guess in. The secret lies in
    /// it.
    pub fn range(&self) -> (ends: (u32, u32))
        ensures
            ends == (self@.range_start, self@.range_end),
            self@.fair(),
    {
        proof {
            use_type_invariant(self);
        }
        (self.round.range_start, self.round.range_end)
    }

    /// Answers a guess, and moves the range accordingly.
    pub fn guess(&mut self, guess: u32) -> (verdict: Verdict)
        ensures
            verdict == old(self)@.verdict(guess),
            final(self)@ == old(self)@.after(guess),
    {
        proof {
            use_type_invariant(&*self);
        }
        if guess < self.round.secret_number {
            self.round.range_start = guess + 1;
            Verdict::TooSmall
        } else if guess > self.round.secret_number {
            self.round.range_end = guess - 1;
            Verdict::TooBig
        } else {
            Verdict::Win
        }
    }
}

} // verus!
