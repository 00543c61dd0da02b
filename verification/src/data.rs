//! Core data types: facing directions, decoded commands, and the errors that
//! abort a run.

use vstd::prelude::*;

verus! {

/// One of the four facing directions of the agent. `Up` decreases the y
/// coordinate, `Down` increases it, `Left` decreases x, `Right` increases x.
#[derive(Clone, Copy, Debug, PartialEq, Eq, Structural)]
pub enum Direction {
    Up,
    Right,
    Down,
    Left,
}

/// One decoded instruction together with its already-resolved arguments.
/// Commands are decoded fresh each step and never stored.
#[derive(Clone, Copy, Debug, PartialEq, Eq, Structural)]
pub enum Command {
    /// No instruction: an unrecognized or absent cell. Applying it changes
    /// nothing and emits nothing.
    Nop,
    IncreaseLength(usize),
    DecreaseLength(usize),
    SetLength(usize),
    SetDirection(Direction),
    WriteVariable(char),
    ReadVariable(char),
    Print(char),
    PrintLen,
    NumberInput,
}

/// A fatal condition. Every error in the interpreter is fatal: nothing is
/// retried and the interpreted program cannot observe or handle one.
#[derive(Clone, Copy, Debug, PartialEq, Eq, Structural)]
pub enum LangError {
    /// The program text contains no `$` marker.
    NoStartPosition,
    /// The program text contains a second `$` marker.
    MultipleStartPositions,
    /// The cell read as a direction holds this character, none of `^ > v <`.
    InvalidDirection(char),
    /// The cell read as a direction is absent.
    MissingDirection,
    /// The cell where a number argument must begin holds this non-digit.
    InvalidNumber(char),
    /// The cell where a number argument must begin is absent.
    MissingNumber,
    /// A number argument does not fit in the platform's unsigned range.
    NumberOverflow,
    /// The cell read as a character argument is absent.
    MissingCharacter,
    /// Interactive number input ended with no digits buffered.
    EmptyNumberInput,
}

} // verus!
