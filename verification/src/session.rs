//! The commands of the prompt.

use crate::decimal::Decimal;
use crate::error::Failure;
use crate::text::{decimal_of, parse_decimal, trim_text, trimmed};
use vstd::prelude::*;
use vstd::utf8::encode_utf8;

verus! {

/// What a line of input asks for.
#[derive(Clone, Copy, Debug, PartialEq, Eq, Structural)]
pub enum Command {
    /// Leave.
    Quit,
    /// Show the stars nearer than this many light-years.
    Show(Decimal),
}

/// The command that a line writes, white space at its ends apart: the
/// letter `q` to quit, or a distance in light-years. Any other line writes
/// none.
pub open spec fn command_of(line: Seq<char>) -> Option<Command> {
    let word = encode_utf8(trimmed(line));
    if word == seq![0x71u8] {
        Some(Command::Quit)
    } else {
        match decimal_of(word) {
            Some(distance) => Some(Command::Show(distance)),
            None => None,
        }
    }
}

/// Reads a line of input.
pub fn read_command(line: &str) -> (r: Result<Command, Failure>)
    ensures
        match r {
            Ok(command) => command_of(line@) == Some(command),
            Err(e) => e == Failure::InvalidUserInput && command_of(line@) is None,
        },
{
    let word = trim_text(line).as_bytes();
    if word.len() == 1 && word[0] == 0x71 {
        assert(word@ =~= seq![0x71u8]);
        return Ok(Command::Quit);
    }
    match parse_decimal(word) {
        Some(distance) => Ok(Command::Show(distance)),
        None => Err(Failure::InvalidUserInput),
    }
}

} // verus!
