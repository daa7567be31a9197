use vstd::prelude::*;

use crate::strutil::str_eq;

verus! {

/// What one line of input asks for: leaving, or running a statement.
#[derive(Debug)]
pub enum Command {
    Quit,
    Execute(String),
}

impl Command {
    /// Whether this is the quit command.
    pub fn is_quit(&self) -> (r: bool)
        ensures
            r == (*self is Quit),
    {
        matches!(self, Command::Quit)
    }
}

/// Reads one trimmed input line as a command: the word `quit` leaves, and
/// anything else runs as a statement.
pub fn command_from_input(line: String) -> (r: Command)
    ensures
        line@ == "quit"@ ==> r is Quit,
        line@ != "quit"@ ==> (r matches Command::Execute(s) && s == line),
{
    if str_eq(line.as_str(), "quit") {
        Command::Quit
    } else {
        Command::Execute(line)
    }
}

} // verus!
