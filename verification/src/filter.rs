//! Transcript filtering: empty audio, recordings under the minimum duration, and
//! Whisper's stock silence hallucinations are discarded so nothing junk is typed.

use vstd::prelude::*;
use crate::text::{chars_eq_str, chars_of, lower_chars, lower_seq, trim, trim_chars};
use crate::time::Duration;

verus! {

/// Phrases Whisper reliably hallucinates from silence, in lowercase.
pub open spec fn hallucinations() -> Seq<Seq<char>> {
    seq![
        "[blank_audio]"@,
        "[silence]"@,
        "thank you."@,
        "thank you"@,
        "thanks for watching."@,
        "thanks for watching"@,
        "you"@,
        "."@,
    ]
}

/// Whether a transcript is discarded: the audio is shorter than the minimum, the text
/// is blank, or its trimmed ASCII-lowercased form is a known hallucination.
pub open spec fn discarded(transcript: Seq<char>, audio: nat, min: nat) -> bool {
    audio < min || trim(transcript).len() == 0 || hallucinations().contains(
        lower_seq(trim(transcript)),
    )
}

/// The length, in nanoseconds, of `data_bytes` of 16 kHz mono signed-16-bit PCM.
pub open spec fn pcm_nanos(data_bytes: nat) -> nat {
    (data_bytes / 2) * 1_000_000_000 / 16_000
}

/// Duration of `data_bytes` of 16 kHz mono s16 PCM (the WAV `data` chunk size).
pub fn pcm_duration(data_bytes: u64) -> (d: Duration)
    requires
        (data_bytes / 2) * 1_000_000_000 <= u64::MAX,
    ensures
        d@ == pcm_nanos(data_bytes as nat),
{
    let samples = data_bytes / 2;
    Duration::from_nanos(samples * 1_000_000_000 / 16_000)
}

/// Whether `s` is one of the known hallucinations.
fn is_hallucination(s: &[char]) -> (b: bool)
    ensures
        b == hallucinations().contains(s@),
{
    let ghost h = hallucinations();
    if chars_eq_str(s, "[blank_audio]") {
        assert(h[0] == s@);
        return true;
    }
    if chars_eq_str(s, "[silence]") {
        assert(h[1] == s@);
        return true;
    }
    if chars_eq_str(s, "thank you.") {
        assert(h[2] == s@);
        return true;
    }
    if chars_eq_str(s, "thank you") {
        assert(h[3] == s@);
        return true;
    }
    if chars_eq_str(s, "thanks for watching.") {
        assert(h[4] == s@);
        return true;
    }
    if chars_eq_str(s, "thanks for watching") {
        assert(h[5] == s@);
        return true;
    }
    if chars_eq_str(s, "you") {
        assert(h[6] == s@);
        return true;
    }
    if chars_eq_str(s, ".") {
        assert(h[7] == s@);
        return true;
    }
    assert forall|i: int| 0 <= i < h.len() implies h[i] != s@ by {
        assert(i == 0 || i == 1 || i == 2 || i == 3 || i == 4 || i == 5 || i == 6 || i == 7);
    }
    false
}

/// Should this transcript be discarded (typed as nothing)?
pub fn should_discard(transcript: &str, audio_duration: Duration, min_duration: Duration) -> (b:
    bool)
    ensures
        b == discarded(transcript@, audio_duration@, min_duration@),
{
    if audio_duration.shorter_than(&min_duration) {
        return true;
    }
    let all = chars_of(transcript);
    let trimmed = trim_chars(&all);
    if trimmed.len() == 0 {
        return true;
    }
    let lowered = lower_chars(&trimmed);
    is_hallucination(&lowered)
}

} // verus!
