//! The interactive session of the editor: what a message sent over the
//! session asks for.
use vstd::prelude::*;
use crate::text::{trim, trimmed};
use crate::util::{chars_of, str_eq};

verus! {

/// What a session message asks for.
#[derive(Debug, PartialEq, Eq, Structural)]
pub enum SessionCommand {
    /// `:reset` — start again with a fresh machine.
    Reset,
    /// `:globals` — list the machine's global variables.
    Globals,
    /// `:cancel` — stop a running job.
    Cancel,
    /// Anything else — run the message as a program.
    Run,
}

/// The command a message stands for, read from the message without the
/// whitespace around it.
pub open spec fn command_of(message: Seq<char>) -> SessionCommand {
    let t = trim(message);
    if t == ":reset"@ {
        SessionCommand::Reset
    } else if t == ":globals"@ {
        SessionCommand::Globals
    } else if t == ":cancel"@ {
        SessionCommand::Cancel
    } else {
        SessionCommand::Run
    }
}

pub fn session_command(message: &str) -> (r: SessionCommand)
    ensures
        r == command_of(message@),
{
    let cs = chars_of(message);
    let t = trimmed(&cs);
    if str_eq(t.as_str(), ":reset") {
        SessionCommand::Reset
    } else if str_eq(t.as_str(), ":globals") {
        SessionCommand::Globals
    } else if str_eq(t.as_str(), ":cancel") {
        SessionCommand::Cancel
    } else {
        SessionCommand::Run
    }
}

} // verus!
