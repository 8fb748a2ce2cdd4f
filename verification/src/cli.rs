//! The control client's subcommands and the words they send over the daemon's
//! control socket.

use vstd::prelude::*;

verus! {

/// A control-client subcommand.
#[derive(Debug, Clone, Copy, PartialEq, Eq, Structural)]
pub enum Cmd {
    /// Start/stop recording (toggle).
    Toggle,
    /// Start a hands-free VAD recording.
    Vad,
    /// Start a hands-free continuous session.
    Continuous,
    /// Abort the current recording.
    Cancel,
    /// Print the daemon's current state.
    Status,
    /// Re-read non-model config.
    Reload,
    /// Re-deliver the most recent cached transcript.
    ReplayLast,
    /// Diagnose the environment.
    Doctor,
}

/// The wire word of each subcommand; `doctor` runs locally and sends none.
pub open spec fn cmd_word(c: Cmd) -> Option<Seq<char>> {
    match c {
        Cmd::Toggle => Some("toggle"@),
        Cmd::Vad => Some("vad"@),
        Cmd::Continuous => Some("continuous"@),
        Cmd::Cancel => Some("cancel"@),
        Cmd::Status => Some("status"@),
        Cmd::Reload => Some("reload"@),
        Cmd::ReplayLast => Some("replay-last"@),
        Cmd::Doctor => None,
    }
}

impl Cmd {
    /// The wire word for a socket command, or `None` for local-only subcommands.
    pub fn word(&self) -> (w: Option<&'static str>)
        ensures
            match cmd_word(*self) {
                Some(s) => w matches Some(x) && x@ == s,
                None => w is None,
            },
    {
        match self {
            Cmd::Toggle => Some("toggle"),
            Cmd::Vad => Some("vad"),
            Cmd::Continuous => Some("continuous"),
            Cmd::Cancel => Some("cancel"),
            Cmd::Status => Some("status"),
            Cmd::Reload => Some("reload"),
            Cmd::ReplayLast => Some("replay-last"),
            Cmd::Doctor => None,
        }
    }
}

} // verus!
