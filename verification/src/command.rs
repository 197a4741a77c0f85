//! The commands of the menu.

use vstd::prelude::*;

use crate::text::{parse_decimal, read_decimal};

verus! {

/// What the user can ask for.
#[derive(Clone, Copy, Debug, PartialEq, Eq, Structural)]
pub enum Command {
    /// Leave the program.
    Exit,
    /// Report the record highs of one ticker.
    HighestRate,
    /// Report the score of one ticker.
    Score,
    /// Rank the tickers of the list by score.
    ScoreRanking,
}

impl Command {
    /// The command that a number of the menu stands for: 0, 3, 4 and 5 are
    /// taken, every other number stands for none.
    pub open spec fn of_code(code: u32) -> Option<Command> {
        if code == 0 {
            Some(Command::Exit)
        } else if code == 3 {
            Some(Command::HighestRate)
        } else if code == 4 {
            Some(Command::Score)
        } else if code == 5 {
            Some(Command::ScoreRanking)
        } else {
            None
        }
    }

    /// The command that a number of the menu stands for.
    pub fn from_code(code: u32) -> (command: Option<Command>)
        ensures
            command == Command::of_code(code),
    {
        match code {
            0 => Some(Command::Exit),
            3 => Some(Command::HighestRate),
            4 => Some(Command::Score),
            5 => Some(Command::ScoreRanking),
            _ => None,
        }
    }

    /// The command that a line of input stands for: the line is the number
    /// of a command, in decimal notation.
    pub open spec fn of_input(input: Seq<char>) -> Option<Command> {
        match read_decimal(input) {
            Some(code) => Command::of_code(code),
            None => None,
        }
    }

    /// Reads a command from a line of input. A line that is no number, or
    /// the number of no command, stands for none.
    pub fn parse(input: &str) -> (command: Option<Command>)
        ensures
            command == Command::of_input(input@),
    {
        match parse_decimal(input) {
            Some(code) => Command::from_code(code),
            None => None,
        }
    }

    /// The number under which the menu lists the command.
    pub fn code(self) -> (code: u32)
        ensures
            Command::of_code(code) == Some(self),
    {
        match self {
            Command::Exit => 0,
            Command::HighestRate => 3,
            Command::Score => 4,
            Command::ScoreRanking => 5,
        }
    }
}

} // verus!
