use primer::guessing_game::Game;
use primer::guessing_game::Verdict;
use primer::guessing_game::HIGHEST;
use primer::guessing_game::LOWEST;

fn find_secret(game: &mut Game) -> (u32, u32) {
    let mut guesses = 0;
    loop {
        let (low, high) = game.range();
        let guess = low + (high - low) / 2;
        guesses += 1;
        if game.guess(guess) == Verdict::Win {
            return (guess, guesses);
        }
    }
}

#[test]
fn a_new_game_spans_the_whole_range() {
    let game = Game::with_secret(42);
    assert_eq!(game.range(), (1, 100));
    assert_eq!((LOWEST, HIGHEST), (1, 100));
    let game = Game::new();
    assert_eq!(game.range(), (1, 100));
}

#[test]
fn a_guess_too_big_moves_the_end_below_it() {
    let mut game = Game::with_secret(42);
    assert_eq!(game.guess(50), Verdict::TooBig);
    assert_eq!(game.range(), (1, 49));
    assert_eq!(game.guess(43), Verdict::TooBig);
    assert_eq!(game.range(), (1, 42));
}

#[test]
fn a_guess_too_small_moves_the_start_above_it() {
    let mut game = Game::with_secret(42);
    assert_eq!(game.guess(10), Verdict::TooSmall);
    assert_eq!(game.range(), (11, 100));
    assert_eq!(game.guess(41), Verdict::TooSmall);
    assert_eq!(game.range(), (42, 100));
}

#[test]
fn the_right_guess_wins_and_leaves_the_range() {
    let mut game = Game::with_secret(42);
    assert_eq!(game.guess(50), Verdict::TooBig);
    assert_eq!(game.guess(42), Verdict::Win);
    assert_eq!(game.range(), (1, 49));
    assert_eq!(game.guess(42), Verdict::Win);
}

#[test]
fn a_guess_outside_the_range_moves_the_range_all_the_same() {
    let mut game = Game::with_secret(42);
    assert_eq!(game.guess(40), Verdict::TooSmall);
    assert_eq!(game.range(), (41, 100));
    assert_eq!(game.guess(5), Verdict::TooSmall);
    assert_eq!(game.range(), (6, 100));
    assert_eq!(game.guess(0), Verdict::TooSmall);
    assert_eq!(game.range(), (1, 100));
    assert_eq!(game.guess(u32::MAX), Verdict::TooBig);
    assert_eq!(game.range(), (1, u32::MAX - 1));
}

#[test]
fn the_ends_of_the_range_can_be_the_secret() {
    let mut lowest = Game::with_secret(1);
    assert_eq!(lowest.guess(2), Verdict::TooBig);
    assert_eq!(lowest.range(), (1, 1));
    assert_eq!(lowest.guess(1), Verdict::Win);
    let mut highest = Game::with_secret(100);
    assert_eq!(highest.guess(99), Verdict::TooSmall);
    assert_eq!(highest.range(), (100, 100));
    assert_eq!(highest.guess(100), Verdict::Win);
}

#[test]
fn halving_the_range_finds_every_secret_in_seven_guesses() {
    for secret in 1..=100 {
        let mut game = Game::with_secret(secret);
        let (found, guesses) = find_secret(&mut game);
        assert_eq!(found, secret);
        assert!(guesses <= 7);
    }
}

#[test]
fn drawn_secrets_lie_in_the_range_and_vary() {
    let mut seen = Vec::new();
    for _ in 0..300 {
        let mut game = Game::new();
        let (secret, guesses) = find_secret(&mut game);
        assert!(1 <= secret && secret <= 100);
        assert!(guesses <= 7);
        seen.push(secret);
    }
    assert!(seen.iter().any(|&secret| secret != seen[0]));
    assert!(seen.iter().any(|&secret| secret != 1));
}
