//! Audio-cue source resolution: a configured cue string becomes a theme event, a sound
//! file, or nothing.

use vstd::prelude::*;
use crate::text::{push_chars, push_str, chars_of, has_prefix, slice_chars, starts_with, string_from_chars, trim, trim_chars};

verus! {

/// How a configured cue string should be played.
#[derive(Debug, Clone, PartialEq, Eq)]
pub enum CueSource {
    /// No cue (the configured value was empty).
    Disabled,
    /// Play `path` as a sound file.
    File(String),
    /// Play a freedesktop sound-theme event by id.
    ThemeEvent(String),
}

/// A cue source with its text as characters.
pub enum CueView {
    Disabled,
    File(Seq<char>),
    ThemeEvent(Seq<char>),
}

impl View for CueSource {
    type V = CueView;

    open spec fn view(&self) -> CueView {
        match self {
            CueSource::Disabled => CueView::Disabled,
            CueSource::File(p) => CueView::File(p@),
            CueSource::ThemeEvent(e) => CueView::ThemeEvent(e@),
        }
    }
}

/// The cue a configured value names. The value is trimmed: empty disables the cue; a
/// `theme:` prefix names a theme event (its id trimmed); a value holding `/` or
/// starting with `~` is a file; any other token is a theme event.
pub open spec fn cue_of(value: Seq<char>) -> CueView {
    let v = trim(value);
    if v.len() == 0 {
        CueView::Disabled
    } else if has_prefix(v, "theme:"@) {
        CueView::ThemeEvent(trim(v.subrange(6, v.len() as int)))
    } else if v.contains('/') || has_prefix(v, "~"@) {
        CueView::File(v)
    } else {
        CueView::ThemeEvent(v)
    }
}

/// Whether `c` occurs in `s`.
fn contains_char(s: &[char], c: char) -> (b: bool)
    ensures
        b == s@.contains(c),
{
    let mut i: usize = 0;
    while i < s.len()
        invariant
            i <= s@.len(),
            forall|k: int| 0 <= k < i ==> s@[k] != c,
        decreases s@.len() - i,
    {
        if s[i] == c {
            return true;
        }
        i += 1;
    }
    false
}

/// Resolve a configured cue string into its play strategy.
pub fn resolve(value: &str) -> (r: CueSource)
    ensures
        r@ == cue_of(value@),
{
    let all = chars_of(value);
    let v = trim_chars(&all);
    if v.len() == 0 {
        return CueSource::Disabled;
    }
    let theme = chars_of("theme:");
    if starts_with(&v, &theme) {
        proof {
            reveal_strlit("theme:");
        }
        let event = slice_chars(&v, 6, v.len());
        let id = trim_chars(&event);
        return CueSource::ThemeEvent(string_from_chars(&id));
    }
    let tilde = chars_of("~");
    if contains_char(&v, '/') || starts_with(&v, &tilde) {
        return CueSource::File(string_from_chars(&v));
    }
    CueSource::ThemeEvent(string_from_chars(&v))
}

/// Where the freedesktop sound theme keeps its stereo `.oga` event sounds.
pub open spec fn freedesktop_stereo() -> Seq<char> {
    "/usr/share/sounds/freedesktop/stereo"@
}

/// The sound file `paplay` plays for a cue: none when disabled, the path itself for a
/// file, and `<theme dir>/<id>.oga` for a theme event.
pub open spec fn paplay_file(c: CueView) -> Option<Seq<char>> {
    match c {
        CueView::Disabled => None,
        CueView::File(p) => Some(p),
        CueView::ThemeEvent(e) => Some(freedesktop_stereo() + "/"@ + e + ".oga"@),
    }
}

/// The sound file to hand to `paplay` for a resolved cue, or `None` when disabled.
pub fn paplay_target(source: &CueSource) -> (r: Option<String>)
    ensures
        match paplay_file(source@) {
            Some(f) => r matches Some(s) && s@ == f,
            None => r is None,
        },
{
    match source {
        CueSource::Disabled => None,
        CueSource::File(path) => Some(path.clone()),
        CueSource::ThemeEvent(event) => {
            let mut v: Vec<char> = Vec::new();
            push_str(&mut v, "/usr/share/sounds/freedesktop/stereo");
            push_str(&mut v, "/");
            let e = chars_of(event.as_str());
            push_chars(&mut v, &e);
            push_str(&mut v, ".oga");
            Some(string_from_chars(&v))
        },
    }
}

} // verus!
