//! Messages, coins, and arithmetic on a number that may be absent.

use vstd::prelude::*;

verus! {

/// A request, with what it carries.
#[derive(Debug)]
pub enum Message {
    Quit,
    Move { x: i32, y: i32 },
    Write(String),
    ChangeColor(i32, i32, i32),
}

/// A coin. A quarter carries a message.
pub enum Coin {
    Penny,
    Nickle,
    Dime,
    Quarter(Message),
}

/// What `coin` is worth, in cents, whatever message it carries.
pub open spec fn cents(coin: Coin) -> int {
    match coin {
        Coin::Penny => 1,
        Coin::Nickle => 5,
        Coin::Dime => 10,
        Coin::Quarter(_) => 25,
    }
}

/// What `coin` is worth, in cents.
pub fn value_in_cents(coin: Coin) -> (value: i32)
    ensures
        value == cents(coin),
{
    match coin {
        Coin::Penny => 1,
        Coin::Nickle => 5,
        Coin::Dime => 10,
        Coin::Quarter(_) => 25,
    }
}

/// The successor of the number in `x`, and nothing where `x` holds none.
pub fn plus_one(x: Option<i32>) -> (next: Option<i32>)
    requires
        x matches Some(i) ==> i < i32::MAX,
    ensures
        next == match x {
            None => None::<i32>,
            Some(i) => Some((i + 1) as i32),
        },
{
    match x {
        None => None,
        Some(i) => Some(i + 1),
    }
}

/// Despite its name, the same as [`plus_one`]: the number in `x` plus
/// one, and nothing where `x` holds none.
pub fn minus_one(x: Option<i32>) -> (next: Option<i32>)
    requires
        x matches Some(i) ==> i < i32::MAX,
    ensures
        next == match x {
            Some(i) => Some((i + 1) as i32),
            None => None::<i32>,
        },
{
    match x {
        Some(i) => Some(i + 1),
        _ => None,
    }
}

} // verus!
