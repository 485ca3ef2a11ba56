//! Failures that can be mended and failures that cannot: what to do when
//! a file does not open, and how a menu answers what was typed.

use vstd::prelude::*;

verus! {

/// What has been tried on the file so far.
#[derive(Clone, Copy, Debug, PartialEq, Eq, Structural)]
pub enum Stage {
    /// The file was to be opened.
    Opening,
    /// The file was missing, and was to be created.
    Creating,
}

/// How an attempt on the file ended.
#[derive(Clone, Copy, Debug, PartialEq, Eq, Structural)]
pub enum Outcome {
    /// The file is in hand.
    Done,
    /// There is no such file.
    NotFound,
    /// Something else went wrong.
    OtherError,
}

/// What to do next.
#[derive(Clone, Copy, Debug, PartialEq, Eq)]
pub enum Next {
    /// Go on with the file in hand.
    UseFile,
    /// Create the file.
    CreateFile,
    /// Give up, saying this.
    Abort(&'static str),
}

/// What is said when the file cannot be opened.
pub const OPEN_FAILED: &'static str = "Problem opening file";

/// What is said when the file cannot be created.
pub const CREATE_FAILED: &'static str = "Problem creating file";

/// The way out of an attempt on the file. A missing file is mended by
/// creating it, once; every other failure is final.
pub fn demo_file_open(stage: Stage, outcome: Outcome) -> (next: Next)
    ensures
        outcome == Outcome::Done ==> next == Next::UseFile,
        stage == Stage::Opening && outcome == Outcome::NotFound ==> next == Next::CreateFile,
        stage == Stage::Opening && outcome == Outcome::OtherError ==> next == Next::Abort(
            OPEN_FAILED,
        ),
        stage == Stage::Creating && outcome != Outcome::Done ==> next == Next::Abort(
            CREATE_FAILED,
        ),
{
    match outcome {
        Outcome::Done => Next::UseFile,
        Outcome::NotFound => match stage {
            Stage::Opening => Next::CreateFile,
            Stage::Creating => Next::Abort(CREATE_FAILED),
        },
        Outcome::OtherError => match stage {
            Stage::Opening => Next::Abort(OPEN_FAILED),
            Stage::Creating => Next::Abort(CREATE_FAILED),
        },
    }
}

/// The demonstrations on the menu.
#[derive(Clone, Copy, Debug, PartialEq, Eq, Structural)]
pub enum Demo {
    Panic,
    OutOfBounds,
    FileOpen,
    FileOpen2,
    ErrProp,
}

/// How the menu answers an entry.
#[derive(Clone, Copy, Debug, PartialEq, Eq, Structural)]
pub enum Selection {
    /// Run the demonstration, and leave.
    Run(Demo),
    /// The number is not on the menu: say so, and ask again.
    Unexpected,
    /// What was typed is no number: ask again.
    Unreadable,
}

/// The demonstration that stands on the menu under `number`.
pub open spec fn on_menu(number: u32) -> Option<Demo> {
    if number == 1 {
        Some(Demo::Panic)
    } else if number == 2 {
        Some(Demo::OutOfBounds)
    } else if number == 3 {
        Some(Demo::FileOpen)
    } else if number == 4 {
        Some(Demo::FileOpen2)
    } else if number == 5 {
        Some(Demo::ErrProp)
    } else {
        None
    }
}

/// Answers an entry: the number read off it, if it held one.
pub fn select(entry: Option<u32>) -> (selection: Selection)
    ensures
        selection == match entry {
            None => Selection::Unreadable,
            Some(number) => match on_menu(number) {
                Some(demo) => Selection::Run(demo),
                None => Selection::Unexpected,
            },
        },
{
    match entry {
        None => Selection::Unreadable,
        Some(1) => Selection::Run(Demo::Panic),
        Some(2) => Selection::Run(Demo::OutOfBounds),
        Some(3) => Selection::Run(Demo::FileOpen),
        Some(4) => Selection::Run(Demo::FileOpen2),
        Some(5) => Selection::Run(Demo::ErrProp),
        Some(_) => Selection::Unexpected,
    }
}

} // verus!
