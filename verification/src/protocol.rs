//! Wire protocol for the control socket.
//!
//! Newline-delimited UTF-8. A request is one command word; a response is one
//! line: `ok <state>` or `err <message>`. Registered wrapper sinks additionally
//! receive pushed [`Frame`]s on their persistent connection.

use vstd::prelude::*;
use crate::text::{
    chars_eq_str, chars_of, dec, has_prefix, lower_chars, lower_seq, parse_uint, parse_uint_chars,
    push_dec, push_str, lemma_dec_parses, lemma_dec_digits, lemma_words_single,
    lemma_words_push_word, no_ws, is_ws, digit_value, trim_start, trim_end, slice_chars, split_words, starts_with, string_from_chars, trim, trim_chars,
    words,
};

verus! {

/// The control-socket protocol version, exchanged at `register-sink` time.
pub const PROTOCOL_VERSION: u32 = 1;

/// A client speaking `client` is compatible with a daemon speaking `daemon`
/// exactly when the versions are equal.
pub fn version_compatible(client: u32, daemon: u32) -> (b: bool)
    ensures
        b == (client == daemon),
{
    client == daemon
}

/// A command sent to the daemon.
#[derive(Debug, Clone, Copy, PartialEq, Eq, Structural)]
pub enum Command {
    Toggle,
    /// Start a hands-free VAD recording (auto-stops on the first silence).
    Vad,
    /// Start a hands-free streaming dictation with a live preview.
    Streaming,
    /// Start a hands-free Continuous-mode session.
    Continuous,
    Cancel,
    Status,
    Reload,
    /// Re-deliver the most-recent cached transcript into the active wrapper sink.
    ReplayLast,
    /// Register the connecting client as a wrapper sink, optionally carrying the
    /// client's protocol version (`None` is a legacy bare `register-sink`).
    RegisterSink(Option<u32>),
}

/// The daemon's observable state.
#[derive(Debug, Clone, Copy, PartialEq, Eq, Structural)]
pub enum State {
    /// First-run model download, carrying the whole percent once known.
    Downloading(Option<u8>),
    Loading,
    Idle,
    Recording,
    Transcribing,
    /// A streaming dictation is live.
    Streaming,
}

/// A daemon reply: `ok <state>` or `err <message>` on the wire.
#[derive(Debug, Clone, PartialEq, Eq)]
pub enum Response {
    Accepted(State),
    Rejected(String),
}

/// Why a request line could not be understood.
#[derive(Debug, Clone, PartialEq, Eq)]
pub enum ProtocolError {
    UnknownCommand(String),
}

/// The command a request line names, if any: the line is trimmed and ASCII-lowercased;
/// `register-sink` may carry a `u32` version, every other command is an exact word.
pub open spec fn command_of(line: Seq<char>) -> Option<Command> {
    let lower = lower_seq(trim(line));
    if has_prefix(lower, "register-sink"@) {
        let rest = trim(lower.subrange("register-sink"@.len() as int, lower.len() as int));
        if rest.len() == 0 {
            Some(Command::RegisterSink(None))
        } else {
            match parse_uint(rest, 10, u32::MAX as nat) {
                Some(v) => Some(Command::RegisterSink(Some(v as u32))),
                None => None,
            }
        }
    } else if lower == "toggle"@ {
        Some(Command::Toggle)
    } else if lower == "vad"@ {
        Some(Command::Vad)
    } else if lower == "streaming"@ {
        Some(Command::Streaming)
    } else if lower == "continuous"@ {
        Some(Command::Continuous)
    } else if lower == "cancel"@ {
        Some(Command::Cancel)
    } else if lower == "status"@ {
        Some(Command::Status)
    } else if lower == "reload"@ {
        Some(Command::Reload)
    } else if lower == "replay-last"@ {
        Some(Command::ReplayLast)
    } else {
        None
    }
}

impl Command {
    /// Parse one request line (whitespace-trimmed, case-insensitive).
    pub fn parse(line: &str) -> (r: Result<Command, ProtocolError>)
        ensures
            r matches Ok(c) ==> command_of(line@) == Some(c),
            r matches Err(ProtocolError::UnknownCommand(w)) ==> command_of(line@) is None && w@
                == trim(line@),
    {
        let raw = chars_of(line);
        let word = trim_chars(&raw);
        let lower = lower_chars(&word);
        let reg = chars_of("register-sink");
        if starts_with(&lower, &reg) {
            let tail = slice_chars(&lower, reg.len(), lower.len());
            let rest = trim_chars(&tail);
            if rest.len() == 0 {
                return Ok(Command::RegisterSink(None));
            }
            return match parse_uint_chars(&rest, 10, u32::MAX as u64) {
                Some(v) => Ok(Command::RegisterSink(Some(v as u32))),
                None => Err(ProtocolError::UnknownCommand(string_from_chars(&word))),
            };
        }
        if chars_eq_str(&lower, "toggle") {
            Ok(Command::Toggle)
        } else if chars_eq_str(&lower, "vad") {
            Ok(Command::Vad)
        } else if chars_eq_str(&lower, "streaming") {
            Ok(Command::Streaming)
        } else if chars_eq_str(&lower, "continuous") {
            Ok(Command::Continuous)
        } else if chars_eq_str(&lower, "cancel") {
            Ok(Command::Cancel)
        } else if chars_eq_str(&lower, "status") {
            Ok(Command::Status)
        } else if chars_eq_str(&lower, "reload") {
            Ok(Command::Reload)
        } else if chars_eq_str(&lower, "replay-last") {
            Ok(Command::ReplayLast)
        } else {
            Err(ProtocolError::UnknownCommand(string_from_chars(&word)))
        }
    }
}

/// The wire token of a state: one word, or `downloading <pct>` once the percent is known.
pub open spec fn state_token(s: State) -> Seq<char> {
    match s {
        State::Downloading(None) => "downloading"@,
        State::Downloading(Some(p)) => "downloading "@ + dec(p as nat),
        State::Loading => "loading"@,
        State::Idle => "idle"@,
        State::Recording => "recording"@,
        State::Transcribing => "transcribing"@,
        State::Streaming => "streaming"@,
    }
}

/// The human label of a state for the status strip (`downloading 42%`).
pub open spec fn state_label(s: State) -> Seq<char> {
    match s {
        State::Downloading(Some(p)) => "downloading "@ + dec(p as nat) + "%"@,
        _ => state_token(s),
    }
}

/// The state named by a list of wire words: one state word, or `downloading`
/// followed by a `u8` percent of at most 100.
pub open spec fn state_of_words(ws: Seq<Seq<char>>) -> Option<State> {
    if ws.len() == 1 {
        let head = ws[0];
        if head == "downloading"@ {
            Some(State::Downloading(None))
        } else if head == "loading"@ {
            Some(State::Loading)
        } else if head == "idle"@ {
            Some(State::Idle)
        } else if head == "recording"@ {
            Some(State::Recording)
        } else if head == "transcribing"@ {
            Some(State::Transcribing)
        } else if head == "streaming"@ {
            Some(State::Streaming)
        } else {
            None
        }
    } else if ws.len() == 2 && ws[0] == "downloading"@ {
        match parse_uint(ws[1], 10, 255) {
            Some(p) => if p <= 100 {
                Some(State::Downloading(Some(p as u8)))
            } else {
                None
            },
            None => None,
        }
    } else {
        None
    }
}

/// The state a wire substring names (its whitespace-separated words).
pub open spec fn state_of(token: Seq<char>) -> Option<State> {
    state_of_words(words(token))
}

/// Decode a list of wire words into a state.
fn state_from_words(ws: &Vec<Vec<char>>) -> (r: Option<State>)
    ensures
        r == state_of_words(ws@.map_values(|w: Vec<char>| w@)),
{
    let ghost wv = ws@.map_values(|w: Vec<char>| w@);
    if ws.len() == 1 {
        let head = &ws[0];
        if chars_eq_str(head, "downloading") {
            Some(State::Downloading(None))
        } else if chars_eq_str(head, "loading") {
            Some(State::Loading)
        } else if chars_eq_str(head, "idle") {
            Some(State::Idle)
        } else if chars_eq_str(head, "recording") {
            Some(State::Recording)
        } else if chars_eq_str(head, "transcribing") {
            Some(State::Transcribing)
        } else if chars_eq_str(head, "streaming") {
            Some(State::Streaming)
        } else {
            None
        }
    } else if ws.len() == 2 && chars_eq_str(&ws[0], "downloading") {
        match parse_uint_chars(&ws[1], 10, 255) {
            Some(p) => if p <= 100 {
                Some(State::Downloading(Some(p as u8)))
            } else {
                None
            },
            None => None,
        }
    } else {
        None
    }
}

/// The words of `s`, as owned character vectors.
fn word_list(s: &[char]) -> (ws: Vec<Vec<char>>)
    ensures
        ws@.map_values(|w: Vec<char>| w@) == words(s@),
{
    let ws = split_words(s);
    assert(ws@.map_values(|w: Vec<char>| w@) =~= words(s@));
    ws
}

impl State {
    /// Encode this state as its wire token.
    pub fn encode_token(&self) -> (s: String)
        ensures
            s@ == state_token(*self),
    {
        let mut v: Vec<char> = Vec::new();
        match self {
            State::Downloading(None) => push_str(&mut v, "downloading"),
            State::Downloading(Some(pct)) => {
                push_str(&mut v, "downloading ");
                push_dec(&mut v, *pct as u64);
            },
            State::Loading => push_str(&mut v, "loading"),
            State::Idle => push_str(&mut v, "idle"),
            State::Recording => push_str(&mut v, "recording"),
            State::Transcribing => push_str(&mut v, "transcribing"),
            State::Streaming => push_str(&mut v, "streaming"),
        }
        assert(v@ =~= state_token(*self));
        string_from_chars(&v)
    }

    /// Parse a wire state substring back into a state (inverse of `encode_token`).
    pub fn parse(token: &str) -> (r: Option<State>)
        ensures
            r == state_of(token@),
    {
        let t = chars_of(token);
        let ws = word_list(&t);
        state_from_words(&ws)
    }

    /// The human-readable label for the status strip.
    pub fn label(&self) -> (s: String)
        ensures
            s@ == state_label(*self),
    {
        let mut v: Vec<char> = Vec::new();
        match self {
            State::Downloading(None) => push_str(&mut v, "downloading"),
            State::Downloading(Some(pct)) => {
                push_str(&mut v, "downloading ");
                push_dec(&mut v, *pct as u64);
                push_str(&mut v, "%");
            },
            State::Loading => push_str(&mut v, "loading"),
            State::Idle => push_str(&mut v, "idle"),
            State::Recording => push_str(&mut v, "recording"),
            State::Transcribing => push_str(&mut v, "transcribing"),
            State::Streaming => push_str(&mut v, "streaming"),
        }
        assert(v@ =~= state_label(*self));
        string_from_chars(&v)
    }
}

/// A daemon-to-client push frame on a registered wrapper-sink connection.
#[derive(Debug, Clone, PartialEq, Eq)]
pub enum Frame {
    /// The finished transcript to inject into the wrapped agent's PTY.
    Transcript(String),
    /// A daemon state change, for the wrapper's status strip.
    State(State),
    /// One streaming live edit: lock `committed` onto the stable prefix, then show `tail`.
    LiveEdit { committed: String, tail: String },
    /// Replace the whole live preview with the batch-accurate transcript.
    Finalize(String),
}

/// The abstract content of a [`Frame`].
pub ghost enum FrameView {
    Transcript(Seq<char>),
    State(State),
    LiveEdit(Seq<char>, Seq<char>),
    Finalize(Seq<char>),
}

impl View for Frame {
    type V = FrameView;

    open spec fn view(&self) -> FrameView {
        match self {
            Frame::Transcript(t) => FrameView::Transcript(t@),
            Frame::State(s) => FrameView::State(*s),
            Frame::LiveEdit { committed, tail } => FrameView::LiveEdit(committed@, tail@),
            Frame::Finalize(t) => FrameView::Finalize(t@),
        }
    }
}

/// Separator between a live edit's two fields on the wire: ASCII Unit Separator.
pub open spec fn live_edit_sep() -> char {
    '\u{1f}'
}

/// The wire line of a frame (without the trailing newline).
pub open spec fn frame_line(f: FrameView) -> Seq<char> {
    match f {
        FrameView::Transcript(t) => "transcript "@ + t,
        FrameView::State(s) => "state "@ + state_token(s),
        FrameView::LiveEdit(c, t) => "live-edit "@ + c + seq![live_edit_sep()] + t,
        FrameView::Finalize(t) => "finalize "@ + t,
    }
}

/// `l` with one trailing `\n` and then one trailing `\r` removed.
pub open spec fn strip_eol(l: Seq<char>) -> Seq<char> {
    let a = if l.len() > 0 && l.last() == '\n' {
        l.drop_last()
    } else {
        l
    };
    if a.len() > 0 && a.last() == '\r' {
        a.drop_last()
    } else {
        a
    }
}

/// Whether `i` is the first position of `c` in `s`.
pub open spec fn is_first_index(s: Seq<char>, c: char, i: int) -> bool {
    0 <= i < s.len() && s[i] == c && forall|j: int| 0 <= j < i ==> s[j] != c
}

/// `s` split around the first `c` (everything and empty when there is none).
pub open spec fn split_once(s: Seq<char>, c: char) -> (Seq<char>, Seq<char>) {
    if exists|i: int| is_first_index(s, c, i) {
        let i = choose|i: int| is_first_index(s, c, i);
        (s.subrange(0, i), s.subrange(i + 1, s.len() as int))
    } else {
        (s, Seq::empty())
    }
}

/// The frame a pushed line carries, if any. Only a trailing CR/LF is stripped; the
/// `transcript`, `finalize`, `live-edit` and `state` prefixes are tried in that order.
pub open spec fn frame_of(line: Seq<char>) -> Option<FrameView> {
    let l = strip_eol(line);
    if has_prefix(l, "transcript "@) {
        Some(FrameView::Transcript(l.subrange("transcript "@.len() as int, l.len() as int)))
    } else if has_prefix(l, "finalize "@) {
        Some(FrameView::Finalize(l.subrange("finalize "@.len() as int, l.len() as int)))
    } else if has_prefix(l, "live-edit "@) {
        let rest = l.subrange("live-edit "@.len() as int, l.len() as int);
        let (c, t) = split_once(rest, live_edit_sep());
        Some(FrameView::LiveEdit(c, t))
    } else if has_prefix(l, "state "@) {
        match state_of(trim(l.subrange("state "@.len() as int, l.len() as int))) {
            Some(s) => Some(FrameView::State(s)),
            None => None,
        }
    } else {
        None
    }
}

/// The position of the first `c` in `s`, if any.
fn find_char(s: &[char], c: char) -> (r: Option<usize>)
    ensures
        r matches Some(i) ==> is_first_index(s@, c, i as int),
        r is None ==> forall|j: int| 0 <= j < s@.len() ==> s@[j] != c,
{
    let mut i: usize = 0;
    while i < s.len()
        invariant
            i <= s@.len(),
            forall|j: int| 0 <= j < i ==> s@[j] != c,
        decreases s@.len() - i,
    {
        if s[i] == c {
            return Some(i);
        }
        i += 1;
    }
    None
}

proof fn lemma_first_index_unique(s: Seq<char>, c: char, i: int, k: int)
    requires
        is_first_index(s, c, i),
        is_first_index(s, c, k),
    ensures
        i == k,
{
}

impl Frame {
    /// Encode as a single wire line (no trailing newline).
    pub fn encode(&self) -> (s: String)
        ensures
            s@ == frame_line(self@),
    {
        let mut v: Vec<char> = Vec::new();
        match self {
            Frame::Transcript(text) => {
                push_str(&mut v, "transcript ");
                push_str(&mut v, text.as_str());
            },
            Frame::State(state) => {
                push_str(&mut v, "state ");
                let tok = state.encode_token();
                push_str(&mut v, tok.as_str());
            },
            Frame::LiveEdit { committed, tail } => {
                push_str(&mut v, "live-edit ");
                push_str(&mut v, committed.as_str());
                v.push('\u{1f}');
                push_str(&mut v, tail.as_str());
            },
            Frame::Finalize(text) => {
                push_str(&mut v, "finalize ");
                push_str(&mut v, text.as_str());
            },
        }
        assert(v@ =~= frame_line(self@));
        string_from_chars(&v)
    }

    /// Parse one pushed frame line. Only a trailing `\r`/`\n` is stripped, so a
    /// transcript keeps its internal and trailing spaces verbatim.
    pub fn parse(line: &str) -> (r: Result<Frame, ProtocolError>)
        ensures
            r matches Ok(f) ==> frame_of(line@) == Some(f@),
            r matches Err(ProtocolError::UnknownCommand(m)) ==> frame_of(line@) is None && m@
                == strip_eol(line@),
    {
        let mut l = chars_of(line);
        if l.len() > 0 && l[l.len() - 1] == '\n' {
            l.pop();
        }
        if l.len() > 0 && l[l.len() - 1] == '\r' {
            l.pop();
        }
        assert(l@ =~= strip_eol(line@));
        let p_transcript = chars_of("transcript ");
        let p_finalize = chars_of("finalize ");
        let p_live = chars_of("live-edit ");
        let p_state = chars_of("state ");
        if starts_with(&l, &p_transcript) {
            let text = slice_chars(&l, p_transcript.len(), l.len());
            return Ok(Frame::Transcript(string_from_chars(&text)));
        }
        if starts_with(&l, &p_finalize) {
            let text = slice_chars(&l, p_finalize.len(), l.len());
            return Ok(Frame::Finalize(string_from_chars(&text)));
        }
        if starts_with(&l, &p_live) {
            let rest = slice_chars(&l, p_live.len(), l.len());
            let (committed, tail) = match find_char(&rest, '\u{1f}') {
                Some(i) => {
                    proof {
                        assert(exists|k: int| is_first_index(rest@, live_edit_sep(), k));
                        let k = choose|k: int| is_first_index(rest@, live_edit_sep(), k);
                        lemma_first_index_unique(rest@, live_edit_sep(), i as int, k);
                    }
                    (slice_chars(&rest, 0, i), slice_chars(&rest, i + 1, rest.len()))
                },
                None => {
                    assert(!exists|k: int| is_first_index(rest@, live_edit_sep(), k));
                    (rest, Vec::new())
                },
            };
            assert(tail@ =~= split_once(rest@, live_edit_sep()).1);
            return Ok(
                Frame::LiveEdit {
                    committed: string_from_chars(&committed),
                    tail: string_from_chars(&tail),
                },
            );
        }
        if starts_with(&l, &p_state) {
            let tok = slice_chars(&l, p_state.len(), l.len());
            let trimmed = trim_chars(&tok);
            let ws = word_list(&trimmed);
            return match state_from_words(&ws) {
                Some(s) => Ok(Frame::State(s)),
                None => Err(ProtocolError::UnknownCommand(string_from_chars(&l))),
            };
        }
        Err(ProtocolError::UnknownCommand(string_from_chars(&l)))
    }
}

/// The wire line of a reply.
pub open spec fn response_line(r: Response) -> Seq<char> {
    match r {
        Response::Accepted(s) => "ok "@ + state_token(s),
        Response::Rejected(m) => "err "@ + m@,
    }
}

impl Response {
    /// Encode as a single response line (no trailing newline).
    pub fn encode(&self) -> (s: String)
        ensures
            s@ == response_line(*self),
    {
        let mut v: Vec<char> = Vec::new();
        match self {
            Response::Accepted(state) => {
                push_str(&mut v, "ok ");
                let tok = state.encode_token();
                push_str(&mut v, tok.as_str());
            },
            Response::Rejected(message) => {
                push_str(&mut v, "err ");
                push_str(&mut v, message.as_str());
            },
        }
        assert(v@ =~= response_line(*self));
        string_from_chars(&v)
    }
}

proof fn lemma_state_words_literals()
    ensures
        "downloading"@.len() > 0 && no_ws("downloading"@),
        "loading"@.len() > 0 && no_ws("loading"@),
        "idle"@.len() > 0 && no_ws("idle"@),
        "recording"@.len() > 0 && no_ws("recording"@),
        "transcribing"@.len() > 0 && no_ws("transcribing"@),
        "streaming"@.len() > 0 && no_ws("streaming"@),
        "downloading "@ == "downloading"@ + seq![' '],
        "loading"@ != "downloading"@,
        "idle"@ != "downloading"@ && "idle"@ != "loading"@,
        "recording"@ != "downloading"@ && "recording"@ != "loading"@ && "recording"@ != "idle"@,
        "transcribing"@ != "downloading"@ && "transcribing"@ != "loading"@ && "transcribing"@
            != "idle"@ && "transcribing"@ != "recording"@,
        "streaming"@ != "downloading"@ && "streaming"@ != "loading"@ && "streaming"@ != "idle"@
            && "streaming"@ != "recording"@ && "streaming"@ != "transcribing"@,
{
    reveal_strlit("downloading");
    reveal_strlit("downloading ");
    reveal_strlit("loading");
    reveal_strlit("idle");
    reveal_strlit("recording");
    reveal_strlit("transcribing");
    reveal_strlit("streaming");
    assert("downloading "@ =~= "downloading"@ + seq![' ']);
    assert("streaming"@[0] != "recording"@[0]);
}

/// The words of a state's wire token.
pub open spec fn state_words(s: State) -> Seq<Seq<char>> {
    match s {
        State::Downloading(Some(p)) => seq!["downloading"@, dec(p as nat)],
        _ => seq![state_token(s)],
    }
}

/// A state's wire token splits into its words, each non-empty and whitespace-free.
pub proof fn lemma_state_token_words(s: State)
    ensures
        words(state_token(s)) == state_words(s),
        forall|i: int| 0 <= i < state_words(s).len() ==> (#[trigger] state_words(s)[i]).len() > 0
            && no_ws(state_words(s)[i]),
{
    lemma_state_words_literals();
    match s {
        State::Downloading(Some(p)) => {
            lemma_dec_digits(p as nat);
            lemma_words_single("downloading"@);
            lemma_words_push_word("downloading"@, dec(p as nat));
            assert(seq!["downloading"@].push(dec(p as nat)) =~= seq!["downloading"@, dec(p as nat)]);
        },
        _ => {
            lemma_words_single(state_token(s));
        },
    }
}

/// Round trip: every state whose percent (if any) is at most 100 parses back from its
/// wire token. (A percent above 100 encodes but is refused as malformed on parse.)
pub proof fn lemma_state_round_trip(s: State)
    requires
        s matches State::Downloading(Some(p)) ==> p <= 100,
    ensures
        state_of(state_token(s)) == Some(s),
        state_of_words(state_words(s)) == Some(s),
{
    lemma_state_token_words(s);
    lemma_state_words_literals();
    if let State::Downloading(Some(p)) = s {
        lemma_dec_parses(p as nat, 255);
    }
}

/// Whether `t` does not end in a line terminator character.
pub open spec fn no_trailing_eol(t: Seq<char>) -> bool {
    t.len() == 0 || (t.last() != '\n' && t.last() != '\r')
}

/// The frames whose wire line parses back to themselves: text fields must not end in
/// CR/LF (the parser strips one), a live edit's committed text must not contain the
/// separator, and a download percent must be at most 100.
pub open spec fn frame_round_trips(f: FrameView) -> bool {
    match f {
        FrameView::Transcript(t) => no_trailing_eol(t),
        FrameView::Finalize(t) => no_trailing_eol(t),
        FrameView::State(s) => s matches State::Downloading(Some(p)) ==> p <= 100,
        FrameView::LiveEdit(c, t) => (forall|i: int| 0 <= i < c.len() ==> c[i] != live_edit_sep())
            && no_trailing_eol(t),
    }
}

proof fn lemma_state_token_ends(s: State)
    ensures
        state_token(s).len() > 0,
        !is_ws(state_token(s)[0]),
        !is_ws(state_token(s).last()),
        trim(state_token(s)) == state_token(s),
{
    lemma_state_words_literals();
    let t = state_token(s);
    match s {
        State::Downloading(Some(p)) => {
            lemma_dec_digits(p as nat);
            let d = dec(p as nat);
            assert(t == "downloading"@ + seq![' '] + d);
            assert(t[0] == "downloading"@[0]);
            assert(t.last() == d[d.len() - 1]);
        },
        _ => {
            assert(t[0] == t[0]);
        },
    }
    assert(trim_start(t) == t);
    assert(trim_end(t) == t);
}

proof fn lemma_prefix_literals()
    ensures
        "transcript "@.len() == 11 && "transcript "@[0] == 't',
        "finalize "@.len() == 9 && "finalize "@[0] == 'f',
        "live-edit "@.len() == 10 && "live-edit "@[0] == 'l',
        "state "@.len() == 6 && "state "@[0] == 's',
{
    reveal_strlit("transcript ");
    reveal_strlit("finalize ");
    reveal_strlit("live-edit ");
    reveal_strlit("state ");
}

/// Round trip: a frame's wire line parses back to the same frame, for every frame
/// whose fields avoid the characters the line format reserves.
pub proof fn lemma_frame_round_trip(f: FrameView)
    requires
        frame_round_trips(f),
    ensures
        frame_of(frame_line(f)) == Some(f),
{
    lemma_prefix_literals();
    let line = frame_line(f);
    let (p, body) = match f {
        FrameView::Transcript(t) => ("transcript "@, t),
        FrameView::Finalize(t) => ("finalize "@, t),
        FrameView::LiveEdit(c, t) => ("live-edit "@, c + seq![live_edit_sep()] + t),
        FrameView::State(s) => ("state "@, state_token(s)),
    };
    assert(line =~= p + body);
    assert(line[0] == p[0]);
    assert(line.subrange(0, p.len() as int) =~= p);
    assert(line.subrange(p.len() as int, line.len() as int) =~= body);
    assert(no_trailing_eol(line)) by {
        match f {
            FrameView::LiveEdit(c, t) => {
                if t.len() > 0 {
                    assert(line.last() == t.last());
                } else {
                    assert(line.last() == live_edit_sep());
                }
            },
            FrameView::State(s) => {
                lemma_state_token_ends(s);
                assert(line.last() == state_token(s).last());
            },
            FrameView::Transcript(t) => {
                if t.len() > 0 {
                    assert(line.last() == t.last());
                } else {
                    assert(line.last() == p.last());
                    reveal_strlit("transcript ");
                }
            },
            FrameView::Finalize(t) => {
                if t.len() > 0 {
                    assert(line.last() == t.last());
                } else {
                    assert(line.last() == p.last());
                    reveal_strlit("finalize ");
                }
            },
        }
    }
    assert(strip_eol(line) == line);
    if line.len() >= 11 {
        assert(line.subrange(0, 11)[0] == line[0]);
    }
    if line.len() >= 10 {
        assert(line.subrange(0, 10)[0] == line[0]);
    }
    if line.len() >= 9 {
        assert(line.subrange(0, 9)[0] == line[0]);
    }
    assert(line.subrange(0, 6)[0] == line[0]);
    match f {
        FrameView::LiveEdit(c, t) => {
            let i = c.len() as int;
            assert(is_first_index(body, live_edit_sep(), i));
            let k = choose|k: int| is_first_index(body, live_edit_sep(), k);
            lemma_first_index_unique(body, live_edit_sep(), i, k);
            assert(body.subrange(0, i) =~= c);
            assert(body.subrange(i + 1, body.len() as int) =~= t);
        },
        FrameView::State(s) => {
            lemma_state_token_ends(s);
            lemma_state_round_trip(s);
        },
        _ => {},
    }
}

/// The `status` reply: the daemon state plus how many wrapper sinks are registered,
/// encoded additively as `ok <state> wrappers=<n>`.
#[derive(Debug, Clone, Copy, PartialEq, Eq, Structural)]
pub struct StatusReport {
    pub state: State,
    pub wrapper_count: usize,
}

/// The wire line of a status report.
pub open spec fn status_line(r: StatusReport) -> Seq<char> {
    "ok "@ + state_token(r.state) + " wrappers="@ + dec(r.wrapper_count as nat)
}

/// The index of the first word at or after `from` that begins with `wrappers=`
/// (the number of words when there is none).
pub open spec fn first_wrappers_at(ws: Seq<Seq<char>>, from: int) -> int
    decreases ws.len() - from,
{
    if from < 0 || from >= ws.len() {
        ws.len() as int
    } else if has_prefix(ws[from], "wrappers="@) {
        from
    } else {
        first_wrappers_at(ws, from + 1)
    }
}

/// The wrapper count carried by the words after the state: the value of the last
/// `wrappers=<n>` word (0 when there is none), or nothing if any such value fails to
/// parse as a `usize`.
pub open spec fn wrapper_count_of(ts: Seq<Seq<char>>) -> Option<nat>
    decreases ts.len(),
{
    if ts.len() == 0 {
        Some(0)
    } else {
        match wrapper_count_of(ts.drop_last()) {
            None => None,
            Some(c) => {
                let t = ts.last();
                if has_prefix(t, "wrappers="@) {
                    parse_uint(t.subrange("wrappers="@.len() as int, t.len() as int), 10, usize::MAX as nat)
                } else {
                    Some(c)
                }
            },
        }
    }
}

/// The state and wrapper count a `status` reply line carries, if it is one: a leading
/// `ok`, the state words up to the first `wrappers=` word, then the optional count.
pub open spec fn status_of(line: Seq<char>) -> Option<(State, nat)> {
    let ws = words(line);
    if ws.len() == 0 || ws[0] != "ok"@ {
        None
    } else {
        let k = first_wrappers_at(ws, 1);
        match state_of_words(ws.subrange(1, k)) {
            None => None,
            Some(s) => match wrapper_count_of(ws.subrange(k, ws.len() as int)) {
                None => None,
                Some(c) => Some((s, c)),
            },
        }
    }
}

impl StatusReport {
    /// Encode as a single `status` reply line (no trailing newline).
    pub fn encode(&self) -> (s: String)
        ensures
            s@ == status_line(*self),
    {
        let mut v: Vec<char> = Vec::new();
        push_str(&mut v, "ok ");
        let tok = self.state.encode_token();
        push_str(&mut v, tok.as_str());
        push_str(&mut v, " wrappers=");
        push_dec(&mut v, self.wrapper_count as u64);
        assert(v@ =~= status_line(*self));
        string_from_chars(&v)
    }

    /// Parse a `status` reply line; a bare `ok <state>` (an older daemon) counts 0 wrappers.
    pub fn parse(line: &str) -> (r: Option<StatusReport>)
        ensures
            r matches Some(rep) ==> status_of(line@) == Some((rep.state, rep.wrapper_count as nat)),
            r is None ==> status_of(line@) is None,
    {
        let l = chars_of(line);
        let ws = word_list(&l);
        let ghost wv = ws@.map_values(|w: Vec<char>| w@);
        if ws.len() == 0 || !chars_eq_str(&ws[0], "ok") {
            return None;
        }
        let prefix = chars_of("wrappers=");
        let mut k: usize = 1;
        while k < ws.len() && !starts_with(&ws[k], &prefix)
            invariant
                1 <= k <= ws@.len(),
                wv == ws@.map_values(|w: Vec<char>| w@),
                prefix@ == "wrappers="@,
                first_wrappers_at(wv, 1) == first_wrappers_at(wv, k as int),
            decreases ws@.len() - k,
        {
            k += 1;
        }
        assert(first_wrappers_at(wv, 1) == k as int);
        let mut state_words: Vec<Vec<char>> = Vec::new();
        let mut j: usize = 1;
        while j < k
            invariant
                1 <= j <= k <= ws@.len(),
                state_words@.len() == j - 1,
                forall|i: int| 0 <= i < j - 1 ==> #[trigger] state_words@[i]@ == wv[i + 1],
                wv == ws@.map_values(|w: Vec<char>| w@),
            decreases k - j,
        {
            state_words.push(ws[j].clone());
            j += 1;
        }
        assert(state_words@.map_values(|w: Vec<char>| w@) =~= wv.subrange(1, k as int));
        let state = match state_from_words(&state_words) {
            Some(s) => s,
            None => return None,
        };
        let mut count: usize = 0;
        let mut i = k;
        while i < ws.len()
            invariant
                k <= i <= ws@.len(),
                wv == ws@.map_values(|w: Vec<char>| w@),
                prefix@ == "wrappers="@,
                wrapper_count_of(wv.subrange(k as int, i as int)) == Some(count as nat),
                wv == words(line@),
                wv.len() > 0 && wv[0] == "ok"@,
                first_wrappers_at(wv, 1) == k as int,
                state_of_words(wv.subrange(1, k as int)) == Some(state),
            decreases ws@.len() - i,
        {
            assert(wv.subrange(k as int, i + 1).drop_last() =~= wv.subrange(k as int, i as int));
            let w = &ws[i];
            if starts_with(w, &prefix) {
                let digits = slice_chars(w, prefix.len(), w.len());
                match parse_uint_chars(&digits, 10, usize::MAX as u64) {
                    Some(c) => {
                        count = c as usize;
                    },
                    None => {
                        proof {
                            let sub = wv.subrange(k as int, i + 1);
                            assert(sub.last() == wv[i as int]);
                            assert(wv[i as int] == w@);
                            assert(wrapper_count_of(sub) is None);
                            lemma_wrapper_count_none_sticks(wv.subrange(k as int, ws@.len() as int), i - k + 1);
                            assert(wv.subrange(k as int, ws@.len() as int).subrange(0, i - k + 1) =~= wv.subrange(k as int, i + 1));
                        }
                        return None;
                    },
                }
            }
            i += 1;
        }
        assert(wv.subrange(k as int, ws@.len() as int) =~= wv.subrange(k as int, i as int));
        Some(StatusReport { state, wrapper_count: count })
    }
}

proof fn lemma_wrapper_count_none_sticks(ts: Seq<Seq<char>>, i: int)
    requires
        0 <= i <= ts.len(),
        wrapper_count_of(ts.subrange(0, i)) is None,
    ensures
        wrapper_count_of(ts) is None,
    decreases ts.len() - i,
{
    if i < ts.len() {
        assert(ts.subrange(0, i + 1).drop_last() =~= ts.subrange(0, i));
        lemma_wrapper_count_none_sticks(ts, i + 1);
    } else {
        assert(ts.subrange(0, i) =~= ts);
    }
}

proof fn lemma_state_words_not_wrappers(s: State)
    ensures
        forall|i: int| 0 <= i < state_words(s).len() ==> !has_prefix(#[trigger] state_words(s)[i], "wrappers="@),
{
    reveal_strlit("wrappers=");
    reveal_strlit("downloading");
    reveal_strlit("loading");
    reveal_strlit("idle");
    reveal_strlit("recording");
    reveal_strlit("transcribing");
    reveal_strlit("streaming");
    let sw = state_words(s);
    assert forall|i: int| 0 <= i < sw.len() implies !has_prefix(#[trigger] sw[i], "wrappers="@) by {
        let w = sw[i];
        if w.len() >= 9 {
            assert(w.subrange(0, 9)[0] == w[0]);
            if let State::Downloading(Some(p)) = s {
                if i == 1 {
                    lemma_dec_digits(p as nat);
                    assert(digit_value(w[0], 10) is Some);
                }
            }
        }
    }
}

proof fn lemma_status_line_words(r: StatusReport)
    ensures
        words(status_line(r)) == seq!["ok"@].add(state_words(r.state)).push(
            "wrappers="@ + dec(r.wrapper_count as nat),
        ),
{
    reveal_strlit("ok ");
    reveal_strlit("ok");
    reveal_strlit(" wrappers=");
    reveal_strlit("wrappers=");
    lemma_state_token_words(r.state);
    let n = r.wrapper_count as nat;
    lemma_dec_digits(n);
    let wl = "wrappers="@ + dec(n);
    assert(no_ws(wl)) by {
        assert forall|i: int| 0 <= i < wl.len() implies !is_ws(#[trigger] wl[i]) by {
            if i >= 9 {
                assert(wl[i] == dec(n)[i - 9]);
            }
        }
    }
    assert(no_ws("ok"@));
    lemma_words_single("ok"@);
    let tok = state_token(r.state);
    let sw = state_words(r.state);
    let head = "ok"@ + seq![' '] + sw[0];
    lemma_words_push_word("ok"@, sw[0]);
    let body = if sw.len() == 2 {
        lemma_words_push_word(head, sw[1]);
        head + seq![' '] + sw[1]
    } else {
        head
    };
    assert(tok =~= if sw.len() == 2 {
        sw[0] + seq![' '] + sw[1]
    } else {
        sw[0]
    }) by {
        lemma_state_words_literals();
    }
    assert(body =~= "ok "@ + tok);
    lemma_words_push_word(body, wl);
    assert(status_line(r) =~= body + seq![' '] + wl);
    assert(words(body) =~= seq!["ok"@].add(sw));
}

/// Round trip: a status report's line parses back to the same state and wrapper count,
/// whenever its download percent (if any) is at most 100.
pub proof fn lemma_status_round_trip(r: StatusReport)
    requires
        r.state matches State::Downloading(Some(p)) ==> p <= 100,
    ensures
        status_of(status_line(r)) == Some((r.state, r.wrapper_count as nat)),
{
    let n = r.wrapper_count as nat;
    let wl = "wrappers="@ + dec(n);
    let sw = state_words(r.state);
    lemma_status_line_words(r);
    lemma_state_round_trip(r.state);
    let ws = words(status_line(r));
    assert(ws.len() == sw.len() + 2);
    assert(ws[0] == "ok"@);
    lemma_state_words_not_wrappers(r.state);
    assert forall|i: int| 1 <= i <= sw.len() implies !has_prefix(#[trigger] ws[i], "wrappers="@) by {
        assert(ws[i] == sw[i - 1]);
    }
    assert(has_prefix(ws[ws.len() - 1], "wrappers="@)) by {
        reveal_strlit("wrappers=");
        assert(ws[ws.len() - 1] == wl);
        assert(wl.subrange(0, 9) =~= "wrappers="@);
    }
    assert(first_wrappers_at(ws, 1) == sw.len() + 1) by {
        if sw.len() == 2 {
            assert(first_wrappers_at(ws, 3) == 3);
            assert(first_wrappers_at(ws, 2) == 3);
        } else {
            assert(first_wrappers_at(ws, 2) == 2);
        }
    }
    assert(ws.subrange(1, sw.len() as int + 1) =~= sw);
    let rest = ws.subrange(sw.len() as int + 1, ws.len() as int);
    assert(rest =~= seq![wl]);
    assert(rest.drop_last() =~= Seq::<Seq<char>>::empty());
    assert(wrapper_count_of(rest) == Some(n)) by {
        reveal_strlit("wrappers=");
        assert(wl.subrange(9, wl.len() as int) =~= dec(n));
        lemma_dec_parses(n, usize::MAX as nat);
        assert(wrapper_count_of(Seq::<Seq<char>>::empty()) == Some(0nat));
        assert(wrapper_count_of(rest.drop_last()) == Some(0nat));
        assert(rest.last() == wl);
        assert(has_prefix(wl, "wrappers="@)) by {
            assert(wl.subrange(0, 9) =~= "wrappers="@);
        }
    }
}

} // verus!
