//! A primer in verified Rust: small pieces of everyday code, each with a
//! contract that Verus proves.
//!
//! The pieces that carry most weight are a memoizing wrapper around a
//! function and a bounded counting sequence ([`functional_lang`]), a line
//! filter ([`minigrep`]) on top of verified line splitting and substring
//! search ([`text`]), a number reader ([`input`]) and a guessing game
//! ([`guessing_game`]). The other modules hold elementary types and
//! functions, one module to a theme.
//!
//! Nothing here prints, reads files or starts threads: functions that
//! decide what a program does next return their decision, and leave the
//! doing to the caller.

pub mod adder;
pub mod concurrency;
pub mod enums;
pub mod error_handling;
pub mod functional_lang;
pub mod generics;
pub mod guessing_game;
pub mod input;
pub mod minigrep;
pub mod ownership;
pub mod programming_concepts;
pub mod restaurant;
pub mod smart_pointers;
pub mod structs;
pub mod text;
