//! The transcript text of a recogniser reply, made safe to type: whitespace (newlines
//! included) collapsed to single spaces and trimmed, so the result is one line.

use vstd::prelude::*;
use crate::text::{chars_of, join, push_joined, split_words, string_from_chars, words};

verus! {

/// Why a recogniser reply could not be turned into a transcript.
#[derive(Debug, Clone, PartialEq, Eq)]
pub enum TranscriptError {
    /// The body was not valid JSON, or lacked a string `text` field.
    Parse(String),
}

/// The words of `text` joined by single spaces.
pub open spec fn normalized(text: Seq<char>) -> Seq<char> {
    join(words(text), " "@)
}

/// Collapse every run of whitespace in `text` to one space and trim both ends.
pub fn normalize_transcript(text: &str) -> (t: String)
    ensures
        t@ == normalized(text@),
{
    let cs = chars_of(text);
    let ws = split_words(&cs);
    assert(ws@.map_values(|w: Vec<char>| w@) =~= words(text@));
    let mut out: Vec<char> = Vec::new();
    push_joined(&mut out, &ws, " ");
    assert(out@ =~= normalized(text@));
    string_from_chars(&out)
}

} // verus!
