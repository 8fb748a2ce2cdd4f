//! Delivery decision: a transcript is auto-typed while it is still fresh, otherwise it
//! is held for `replay-last`.

use vstd::prelude::*;
use crate::time::Duration;

verus! {

/// What to do with a freshly produced transcript.
#[derive(Debug, Clone, Copy, PartialEq, Eq, Structural)]
pub enum Delivery {
    /// Fresh enough — type it.
    AutoType,
    /// Stale — cache it for `replay-last`.
    HoldForReplay,
}

/// Auto-type when the recording ended no longer ago than the freshness window
/// (inclusive), else hold for replay.
pub fn decide(since_record_end: Duration, freshness_window: Duration) -> (d: Delivery)
    ensures
        d == if since_record_end@ <= freshness_window@ {
            Delivery::AutoType
        } else {
            Delivery::HoldForReplay
        },
{
    if since_record_end.at_most(&freshness_window) {
        Delivery::AutoType
    } else {
        Delivery::HoldForReplay
    }
}

} // verus!
