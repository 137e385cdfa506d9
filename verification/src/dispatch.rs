//! How accepted connections are handed to the code that serves them.

use crate::text::same_text;
use vstd::prelude::*;

verus! {

/// The policy by which the listener hands out connections. It is chosen once,
/// when the server starts.
#[derive(Clone, Copy, Debug, PartialEq, Eq, Structural)]
pub enum DispatchMode {
    /// Every connection gets a task of its own; their number has no bound.
    Multi,
    /// A fixed set of workers takes the connections from a queue.
    Pool,
}

/// Why no dispatch mode could be chosen.
#[derive(Clone, Copy, Debug, PartialEq, Eq, Structural)]
pub enum ModeError {
    /// The command line names no mode.
    Missing,
    /// The command line names a mode that does not exist.
    Invalid,
}

/// The dispatch mode that goes by `name`, if there is one.
pub open spec fn mode_named(name: Seq<char>) -> Option<DispatchMode> {
    if name == "multi"@ {
        Some(DispatchMode::Multi)
    } else if name == "pool"@ {
        Some(DispatchMode::Pool)
    } else {
        None
    }
}

/// The dispatch mode that the arguments of the command line choose. The first
/// argument is the program's name, the second names the mode.
pub open spec fn selected_mode(args: Seq<String>) -> Result<DispatchMode, ModeError> {
    if args.len() < 2 {
        Err(ModeError::Missing)
    } else {
        match mode_named(args[1]@) {
            Some(mode) => Ok(mode),
            None => Err(ModeError::Invalid),
        }
    }
}

impl ModeError {
    /// What the user is told.
    pub open spec fn message_text(self) -> Seq<char> {
        match self {
            ModeError::Missing => "Modes: multi, pool"@,
            ModeError::Invalid => "Invalid mode! Use 'multi' or 'pool'"@,
        }
    }

    /// What the user is told.
    pub fn message(&self) -> (m: &'static str)
        ensures
            m@ == self.message_text(),
    {
        match self {
            ModeError::Missing => "Modes: multi, pool",
            ModeError::Invalid => "Invalid mode! Use 'multi' or 'pool'",
        }
    }
}

/// Chooses the dispatch mode from the arguments of the command line.
pub fn select_mode(args: &[String]) -> (r: Result<DispatchMode, ModeError>)
    ensures
        r == selected_mode(args@),
{
    if args.len() < 2 {
        return Err(ModeError::Missing);
    }
    let name = args[1].as_str();
    if same_text(name, "multi") {
        Ok(DispatchMode::Multi)
    } else if same_text(name, "pool") {
        Ok(DispatchMode::Pool)
    } else {
        Err(ModeError::Invalid)
    }
}

} // verus!
