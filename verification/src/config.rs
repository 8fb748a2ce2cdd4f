//! Configuration sections whose fields the library reads, their defaults, and the
//! expansion of a leading `~` in configured paths. Parsing the TOML file happens at
//! the boundary.

use vstd::prelude::*;
use crate::text::{chars_eq_str, chars_of, has_prefix, push_chars, push_str, slice_chars, starts_with, string_from_chars};

verus! {

/// `[feedback]`: the audio cues played when recording starts and stops. Empty means
/// no cue.
#[derive(Debug, Clone, PartialEq, Eq)]
pub struct FeedbackConfig {
    /// "Now listening" cue.
    pub sound_start: String,
    /// "Working / done" cue.
    pub sound_stop: String,
}

impl Default for FeedbackConfig {
    fn default() -> (c: Self)
        ensures
            c.sound_start@.len() == 0,
            c.sound_stop@.len() == 0,
    {
        FeedbackConfig { sound_start: String::new(), sound_stop: String::new() }
    }
}

/// `[cache]`: WAV and transcript retention and the transcription-retry window.
#[derive(Debug, Clone, Copy, PartialEq, Eq)]
pub struct CacheConfig {
    /// How many WAV recordings to keep.
    pub wav_keep: usize,
    /// How many transcripts to keep (backs `replay-last`).
    pub transcript_keep: usize,
    /// How many seconds a transcription is retried while the server is unreachable.
    pub retry_window_seconds: u64,
}

impl Default for CacheConfig {
    fn default() -> (c: Self)
        ensures
            c.wav_keep == 30,
            c.transcript_keep == 5,
            c.retry_window_seconds == 900,
    {
        CacheConfig { wav_keep: 30, transcript_keep: 5, retry_window_seconds: 900 }
    }
}

/// Why a configuration could not be loaded.
#[derive(Debug, Clone, PartialEq, Eq)]
pub enum ConfigError {
    /// The TOML was malformed.
    Parse(String),
}

/// `base` joined with the relative or absolute path `rest`, as `Path::join` does on
/// Unix: an absolute `rest` replaces `base`; otherwise a `/` is put between them
/// unless `base` is empty or already ends in one.
pub open spec fn join_path(base: Seq<char>, rest: Seq<char>) -> Seq<char> {
    if rest.len() > 0 && rest[0] == '/' {
        rest
    } else if base.len() > 0 && base.last() != '/' {
        base + "/"@ + rest
    } else {
        base + rest
    }
}

/// `path` with a leading `~` or `~/` expanded to `home`; other paths (and `~user`
/// forms) unchanged.
pub open spec fn expanded(path: Seq<char>, home: Seq<char>) -> Seq<char> {
    if path == "~"@ {
        home
    } else if has_prefix(path, "~/"@) {
        join_path(home, path.subrange(2, path.len() as int))
    } else {
        path
    }
}

/// Expand a leading `~` or `~/...` to `home`.
pub fn expand_tilde(path: &str, home: &str) -> (p: String)
    ensures
        p@ == expanded(path@, home@),
{
    let pv = chars_of(path);
    if chars_eq_str(&pv, "~") {
        return home.to_owned();
    }
    let prefix = chars_of("~/");
    if starts_with(&pv, &prefix) {
        proof {
            reveal_strlit("~/");
            reveal_strlit("~");
            reveal_strlit("/");
        }
        let rest = slice_chars(&pv, 2, pv.len());
        if rest.len() > 0 && rest[0] == '/' {
            return string_from_chars(&rest);
        }
        let hv = chars_of(home);
        let mut out: Vec<char> = slice_chars(&hv, 0, hv.len());
        assert(hv@.subrange(0, hv@.len() as int) =~= hv@);
        if hv.len() > 0 && hv[hv.len() - 1] != '/' {
            out.push('/');
        }
        push_chars(&mut out, &rest);
        assert(out@ =~= expanded(path@, home@));
        return string_from_chars(&out);
    }
    path.to_owned()
}

} // verus!
