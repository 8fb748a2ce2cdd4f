//! The decision made after the recogniser replies: discard junk (empty audio, blips
//! under the minimum duration, known hallucinations) so nothing is typed, otherwise
//! apply the correction dictionary to the surviving transcript.

use vstd::prelude::*;
use crate::corrections::{apply_corrections, corrected, keys_distinct, ordered, ordered_corrections, rule_view};
use crate::filter::{discarded, should_discard};
use crate::time::Duration;

verus! {

/// The rules of a correction table in their apply order.
pub open spec fn table_order(table: Seq<(String, String)>) -> Seq<(Seq<char>, Seq<char>)> {
    ordered(table.map_values(|p: (String, String)| rule_view(p)))
}

/// Turn a raw transcript into the text to type, or `None` to type nothing. The
/// correction table holds each key once, as a map does.
pub fn finalize_transcript(
    raw: &str,
    audio_duration: Duration,
    min_duration: Duration,
    corrections: &[(String, String)],
) -> (out: Option<String>)
    requires
        keys_distinct(corrections@.map_values(|p: (String, String)| rule_view(p))),
    ensures
        discarded(raw@, audio_duration@, min_duration@) ==> out is None,
        !discarded(raw@, audio_duration@, min_duration@) ==> (out matches Some(t) && t@
            == corrected(raw@, table_order(corrections@))),
{
    if should_discard(raw, audio_duration, min_duration) {
        return None;
    }
    let ordered_rules = ordered_corrections(corrections);
    Some(apply_corrections(raw, &ordered_rules))
}

} // verus!
