//! The wrapper sink's reaction to each frame the daemon pushes: the status strip's
//! token, the streaming flag that suppresses the user's keystrokes, the live-preview
//! cursor, and the bytes waiting to be written into the wrapped program.

use vstd::prelude::*;
use vstd::utf8::encode_utf8;
use vstd::string::StrSliceExecFns;
use crate::protocol::{Frame, FrameView, State, frame_of, state_label};
use crate::pty::{PreviewCursor, erases, injection_bytes, strip_trailing_eol};

verus! {

/// What the wrapper sink knows between frames.
#[derive(Debug, Clone)]
pub struct WrapperLink {
    /// The strip token: the daemon's state label, or a link-state token.
    pub state: String,
    /// Bytes waiting to be written into the child PTY.
    pub pending_inject: Vec<u8>,
    /// The live preview's stable/tail boundary.
    pub cursor: PreviewCursor,
    /// True while a streaming dictation is live.
    pub streaming: bool,
}

/// Whether applying the frame on `line` stays within the preview cursor's counters.
pub open spec fn frame_fits(link: WrapperLink, line: Seq<char>) -> bool {
    match frame_of(line) {
        Some(FrameView::LiveEdit(committed, _)) => link.cursor@.0 + committed.len() <= usize::MAX,
        Some(FrameView::Finalize(_)) => link.cursor@.0 + link.cursor@.1 <= usize::MAX,
        _ => true,
    }
}

/// The link after the frame on `line`: a state frame sets the strip label and the
/// streaming flag (entering the streaming state resets the preview); a transcript
/// queues its bytes without trailing newlines; a finalize erases the whole preview and
/// queues the final text; a live edit erases the old tail and queues the committed
/// text and new tail; a line that is no frame changes nothing.
pub open spec fn after_frame(link: WrapperLink, line: Seq<char>, next: WrapperLink) -> bool {
    match frame_of(line) {
        Some(FrameView::State(s)) => {
            &&& next.state@ == state_label(s)
            &&& next.streaming == (s == State::Streaming)
            &&& next.cursor@ == if s == State::Streaming {
                (0nat, 0nat)
            } else {
                link.cursor@
            }
            &&& next.pending_inject@ == link.pending_inject@
        },
        Some(FrameView::Transcript(t)) => {
            &&& next.pending_inject@ == link.pending_inject@ + encode_utf8(strip_trailing_eol(t))
            &&& next.state@ == link.state@
            &&& next.streaming == link.streaming
            &&& next.cursor@ == link.cursor@
        },
        Some(FrameView::Finalize(t)) => {
            &&& next.pending_inject@ == link.pending_inject@ + erases(
                link.cursor@.0 + link.cursor@.1,
            ) + encode_utf8(strip_trailing_eol(t))
            &&& next.cursor@ == (0nat, 0nat)
            &&& next.state@ == link.state@
            &&& next.streaming == link.streaming
        },
        Some(FrameView::LiveEdit(committed, tail)) => {
            &&& next.pending_inject@ == link.pending_inject@ + erases(link.cursor@.1)
                + encode_utf8(committed) + encode_utf8(tail)
            &&& next.cursor@ == (link.cursor@.0 + committed.len(), tail.len())
            &&& next.state@ == link.state@
            &&& next.streaming == link.streaming
        },
        None => {
            &&& next.pending_inject@ == link.pending_inject@
            &&& next.cursor@ == link.cursor@
            &&& next.state@ == link.state@
            &&& next.streaming == link.streaming
        },
    }
}

fn append_bytes(out: &mut Vec<u8>, more: &[u8])
    ensures
        final(out)@ == old(out)@ + more@,
{
    let mut i: usize = 0;
    while i < more.len()
        invariant
            i <= more@.len(),
            out@ == old(out)@ + more@.subrange(0, i as int),
        decreases more@.len() - i,
    {
        out.push(more[i]);
        i += 1;
    }
    assert(more@.subrange(0, more@.len() as int) =~= more@);
}

impl WrapperLink {
    /// A link with an empty strip token, nothing pending and no live dictation.
    pub fn new() -> (l: WrapperLink)
        ensures
            l.state@.len() == 0,
            l.pending_inject@.len() == 0,
            l.cursor@ == (0nat, 0nat),
            !l.streaming,
    {
        WrapperLink {
            state: String::new(),
            pending_inject: Vec::new(),
            cursor: PreviewCursor::new(),
            streaming: false,
        }
    }

    /// Show a link-state token on the strip.
    pub fn set_state(&mut self, token: &str)
        ensures
            final(self).state@ == token@,
            final(self).pending_inject@ == old(self).pending_inject@,
            final(self).cursor@ == old(self).cursor@,
            final(self).streaming == old(self).streaming,
    {
        self.state = token.to_owned();
    }

    /// Whether applying the frame on `line` stays within the cursor's counters.
    pub fn frame_fits_exec(&self, line: &str) -> (b: bool)
        ensures
            b == frame_fits(*self, line@),
    {
        let (stable, tail) = self.cursor.lens();
        match Frame::parse(line) {
            Ok(Frame::LiveEdit { committed, tail: _ }) => {
                let n = committed.as_str().unicode_len();
                stable <= usize::MAX - n
            },
            Ok(Frame::Finalize(_)) => stable <= usize::MAX - tail,
            _ => true,
        }
    }

    /// Apply one pushed frame line.
    pub fn apply_frame(&mut self, line: &str)
        requires
            frame_fits(*old(self), line@),
        ensures
            after_frame(*old(self), line@, *final(self)),
    {
        match Frame::parse(line) {
            Ok(Frame::State(s)) => {
                self.streaming = s == State::Streaming;
                if s == State::Streaming {
                    self.cursor.reset();
                }
                self.state = s.label();
            },
            Ok(Frame::Transcript(text)) => {
                let bytes = injection_bytes(text.as_str());
                append_bytes(&mut self.pending_inject, &bytes);
            },
            Ok(Frame::Finalize(text)) => {
                let bytes = self.cursor.finalize(text.as_str());
                append_bytes(&mut self.pending_inject, &bytes);
                assert(self.pending_inject@ =~= old(self).pending_inject@ + erases(
                    old(self).cursor@.0 + old(self).cursor@.1,
                ) + encode_utf8(strip_trailing_eol(text@)));
            },
            Ok(Frame::LiveEdit { committed, tail }) => {
                let bytes = self.cursor.apply_edit(committed.as_str(), tail.as_str());
                append_bytes(&mut self.pending_inject, &bytes);
                assert(self.pending_inject@ =~= old(self).pending_inject@ + erases(
                    old(self).cursor@.1,
                ) + encode_utf8(committed@) + encode_utf8(tail@));
            },
            Err(_) => {},
        }
    }
}

impl Default for WrapperLink {
    /// A fresh link, as [`WrapperLink::new`].
    fn default() -> (l: WrapperLink)
        ensures
            l.state@.len() == 0,
            l.pending_inject@.len() == 0,
            l.cursor@ == (0nat, 0nat),
            !l.streaming,
    {
        WrapperLink::new()
    }
}

} // verus!
