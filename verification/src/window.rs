//! Bounded sliding-window PCM math for streaming dictation: each live decode covers
//! at most the last `window_len` bytes of the capture and never reaches back before
//! audio whose words are already committed.

use vstd::prelude::*;

verus! {

/// The later of the committed offset (clamped to what is present) and the start of
/// the trailing `window_len` bytes: where the window would start before sample
/// alignment.
pub open spec fn raw_start(total: nat, committed: nat, window_len: nat) -> nat {
    let floor = if committed <= total { committed } else { total };
    let trailing = if total >= window_len { (total - window_len) as nat } else { 0 };
    if floor >= trailing { floor } else { trailing }
}

/// `bytes` moved onto a whole 16-bit sample (an even byte offset) within `total`:
/// up to the next even offset when that is still within the capture, else down.
pub open spec fn aligned_within(bytes: nat, total: nat) -> nat {
    if bytes % 2 == 0 {
        bytes
    } else if bytes + 1 <= total {
        bytes + 1
    } else {
        (bytes - 1) as nat
    }
}

/// The window's start: the raw start aligned to a sample within the capture.
pub open spec fn window_start(total: nat, committed: nat, window_len: nat) -> nat {
    aligned_within(raw_start(total, committed, window_len), total)
}

/// The bounded PCM window to decode now, as a `(start, len)` byte range: the last
/// `window_len` bytes, never starting before the committed offset, starting on a
/// whole sample and running to the end of the capture.
pub fn window_range(total_data_len: u64, committed_offset: u64, window_len: u64) -> (r: (u64, u64))
    ensures
        r.0 == window_start(total_data_len as nat, committed_offset as nat, window_len as nat),
        r.1 == total_data_len - r.0,
{
    let floor = if committed_offset <= total_data_len { committed_offset } else { total_data_len };
    let trailing = if total_data_len >= window_len { total_data_len - window_len } else { 0 };
    let raw = if floor >= trailing { floor } else { trailing };
    let start = if raw % 2 == 0 {
        raw
    } else if raw < total_data_len {
        raw + 1
    } else {
        raw - 1
    };
    (start, total_data_len - start)
}

/// The window starts on a whole sample inside the capture and runs to its end. Its
/// length is at most `window_len` and it never starts before the committed offset
/// (clamped to the capture), whenever a sample boundary lies between the raw start
/// and the end; the one case without one is an odd capture whose raw start is its
/// very end, where the window is its last whole sample's trailing byte.
pub proof fn lemma_window_bounded(total: nat, committed: nat, window_len: nat)
    ensures
        window_start(total, committed, window_len) % 2 == 0,
        window_start(total, committed, window_len) <= total,
        (raw_start(total, committed, window_len) % 2 == 0 || raw_start(total, committed, window_len)
            < total) ==> {
            &&& total - window_start(total, committed, window_len) <= window_len
            &&& window_start(total, committed, window_len) >= if committed <= total {
                committed
            } else {
                total
            }
        },
        !(raw_start(total, committed, window_len) % 2 == 0 || raw_start(total, committed, window_len)
            < total) ==> total % 2 == 1 && window_start(total, committed, window_len) == total - 1,
{
}

} // verus!
