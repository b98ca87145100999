//! The command line: what the program is asked to do.
use vstd::prelude::*;

verus! {

/// A request made on the command line.
#[derive(Debug, Clone, Copy, PartialEq, Eq, Structural)]
pub enum Command {
    /// Show every listening port, as a table or (`json`) as JSON.
    List { json: bool },
    /// Tell what uses a port.
    Check { port: u16 },
    /// Signal the process that uses a port (`SIGKILL` when forced, else `SIGTERM`).
    Kill { port: u16, force: bool },
    /// Start the interactive viewer.
    Ui,
}

/// The parsed command line.
#[derive(Debug, Clone, Copy, PartialEq, Eq, Structural)]
pub struct Cli {
    pub command: Command,
}

} // verus!
