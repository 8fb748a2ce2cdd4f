//! The wrapper sink's link to the daemon: the strip token shown when the link is not
//! cleanly registered, and the classification of the daemon's first reply to
//! `register-sink`.

use vstd::prelude::*;
use crate::protocol::{Frame, frame_of};
use crate::text::{chars_of, has_prefix, skip_ws_from, slice_chars, starts_with, trim, trim_chars, trim_start};

verus! {

/// The wrapper sink's link to the daemon when it is not cleanly registered.
#[derive(Debug, Clone, Copy, PartialEq, Eq, Structural)]
pub enum LinkState {
    /// No daemon is listening on the control socket.
    Unreachable,
    /// The daemon refused the wrapper sink for a reason other than its version.
    Rejected,
    /// The daemon is version-incompatible (or too old to know the command).
    Incompatible,
    /// A registered connection was dropped.
    Dropped,
}

/// The strip token of each link state.
pub open spec fn link_token(s: LinkState) -> Seq<char> {
    match s {
        LinkState::Unreachable => "unreachable"@,
        LinkState::Rejected => "rejected"@,
        LinkState::Incompatible => "incompatible"@,
        LinkState::Dropped => "dropped"@,
    }
}

impl LinkState {
    /// The strip token for this link state, distinct per failure mode.
    pub fn token(&self) -> (s: &'static str)
        ensures
            s@ == link_token(*self),
    {
        match self {
            LinkState::Unreachable => "unreachable",
            LinkState::Rejected => "rejected",
            LinkState::Incompatible => "incompatible",
            LinkState::Dropped => "dropped",
        }
    }
}

/// Every link state shows its own strip token, so the failure modes stay distinct.
pub proof fn lemma_link_tokens_distinct(a: LinkState, b: LinkState)
    requires
        a != b,
    ensures
        link_token(a) != link_token(b),
{
    reveal_strlit("unreachable");
    reveal_strlit("rejected");
    reveal_strlit("incompatible");
    reveal_strlit("dropped");
    assert("unreachable"@.len() == 11);
    assert("rejected"@.len() == 8);
    assert("incompatible"@.len() == 12);
    assert("dropped"@.len() == 7);
    assert(link_token(a).len() != link_token(b).len());
}

/// How the daemon's first reply to `register-sink` classifies the link.
#[derive(Debug, Clone, Copy, PartialEq, Eq, Structural)]
pub enum Registration {
    /// The daemon pushed a frame: we are a registered wrapper sink.
    Registered,
    /// The daemon refused us for a version reason.
    Incompatible,
    /// The daemon refused us for another reason, or the line was unparseable.
    Rejected,
}

/// The classification of a first reply line: a parseable frame is a registration; an
/// `err` whose message begins `incompatible` or `unknown command` is a version mismatch;
/// anything else is a rejection.
pub open spec fn registration_of(line: Seq<char>) -> Registration {
    if frame_of(line) is Some {
        Registration::Registered
    } else {
        let t = trim(line);
        if has_prefix(t, "err "@) {
            let msg = trim_start(t.subrange(4, t.len() as int));
            if has_prefix(msg, "incompatible"@) || has_prefix(msg, "unknown command"@) {
                Registration::Incompatible
            } else {
                Registration::Rejected
            }
        } else {
            Registration::Rejected
        }
    }
}

/// Classify the daemon's first reply line to `register-sink`.
pub fn classify_first_line(line: &str) -> (r: Registration)
    ensures
        r == registration_of(line@),
{
    if Frame::parse(line).is_ok() {
        return Registration::Registered;
    }
    let all = chars_of(line);
    let t = trim_chars(&all);
    let err = chars_of("err ");
    if starts_with(&t, &err) {
        proof {
            reveal_strlit("err ");
        }
        let i = skip_ws_from(&t, 4);
        let msg = slice_chars(&t, i, t.len());
        let incompatible = chars_of("incompatible");
        let unknown = chars_of("unknown command");
        if starts_with(&msg, &incompatible) || starts_with(&msg, &unknown) {
            return Registration::Incompatible;
        }
    }
    Registration::Rejected
}

} // verus!
