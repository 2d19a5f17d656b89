//! What one invocation of the program is for.
//!
//! One binary, one process. Invoked with arguments it is a client speaking to a
//! running daemon over a local socket. Invoked with none, or with `--no-tray`,
//! it is the daemon.

use vstd::prelude::*;

use crate::text::same;
#[allow(unused_imports)]
use crate::text::str_texts;

verus! {

/// What one invocation of this binary is for.
///
/// Decided here rather than by the argument parser, because the two halves
/// disagree about what a bare `benshi` means: to the client it is a missing
/// subcommand and a usage message, and to a user it is "run the thing".
#[derive(Debug, Clone, Copy, PartialEq, Eq, Structural)]
pub enum Invocation {
    /// Run the daemon.
    Daemon {
        /// What the user asked for, which is not yet what exists.
        tray: bool,
    },
    /// Run the client, which parses the rest of the line itself.
    Client,
}

/// What a command line asks for, program name included.
pub open spec fn asked_for(arguments: Seq<Seq<char>>) -> Invocation {
    if arguments.len() <= 1 {
        Invocation::Daemon { tray: true }
    } else if arguments.len() == 2 && arguments[1] == "--no-tray"@ {
        Invocation::Daemon { tray: false }
    } else {
        Invocation::Client
    }
}

impl Invocation {
    /// What a command line asks for, program name included.
    ///
    /// `--no-tray` with a command after it goes to the client, which gives a
    /// contradictory line a better answer than this could: its parser names the
    /// argument it did not expect.
    pub fn of(arguments: &[&str]) -> (invocation: Self)
        ensures
            invocation == asked_for(str_texts(arguments@)),
    {
        if arguments.len() <= 1 {
            return Invocation::Daemon { tray: true };
        }
        if arguments.len() == 2 {
            assert(str_texts(arguments@)[1] == arguments@[1]@);
            if same(arguments[1], "--no-tray") {
                return Invocation::Daemon { tray: false };
            }
        }
        Invocation::Client
    }
}

/// The daemon runs where nothing was asked for, with a tray, or where nothing
/// but `--no-tray` was, without one. Anything else is for the client.
pub proof fn law_what_a_line_is_for(arguments: Seq<Seq<char>>)
    ensures
        asked_for(arguments) == (Invocation::Daemon { tray: true }) <==> arguments.len() == 0
            || arguments.len() == 1,
        asked_for(arguments) == (Invocation::Daemon { tray: false }) <==> arguments.len() == 2
            && arguments[1] == "--no-tray"@,
        arguments.len() > 2 ==> asked_for(arguments) == Invocation::Client,
        arguments.len() == 2 && arguments[1] != "--no-tray"@ ==> asked_for(arguments)
            == Invocation::Client,
{
}

} // verus!
