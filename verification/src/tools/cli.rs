//! What the program is started for.

use vstd::prelude::*;

verus! {

/// What is asked for on the command line.
#[derive(Debug)]
pub enum Command {
    /// Run the server.
    Serve,
    /// List what was removed, or with `apply` delete it for good.
    Cleanup { apply: bool },
    /// Take over what a user watched on another media server.
    ImportJellyfin { path: String },
}

/// What the program does: the server runs where nothing else is asked for.
pub fn run(command: Option<Command>) -> (r: Command)
    ensures
        r == match command {
            Some(c) => c,
            None => Command::Serve,
        },
{
    match command {
        Some(c) => c,
        None => Command::Serve,
    }
}

} // verus!
