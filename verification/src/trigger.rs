//! In-terminal trigger recognition for `talk-to`: Shift+F10 (`ESC [ 21 ; 2 ~`) toggles
//! a batch recording and Shift+F9 (`ESC [ 20 ; 2 ~`) starts a VAD recording. Triggers
//! are consumed; every other byte is forwarded verbatim, in order.

use vstd::prelude::*;
use vstd::slice::{slice_subrange, slice_to_vec};
use vstd::utf8::encode_utf8;
use crate::pty::{injection_bytes, strip_trailing_eol};

verus! {

/// A recognized in-terminal trigger.
#[derive(Debug, Clone, Copy, PartialEq, Eq, Structural)]
pub enum Trigger {
    /// Shift+F10 — toggle a batch recording on/off.
    Toggle,
    /// Shift+F9 — start a hands-free VAD recording.
    Vad,
}

/// The command word a trigger sends to the daemon.
pub open spec fn trigger_word(t: Trigger) -> Seq<char> {
    match t {
        Trigger::Toggle => "toggle"@,
        Trigger::Vad => "vad"@,
    }
}

impl Trigger {
    /// The control-socket command word this trigger sends to the daemon.
    pub fn command_word(self) -> (w: &'static str)
        ensures
            w@ == trigger_word(self),
    {
        match self {
            Trigger::Toggle => "toggle",
            Trigger::Vad => "vad",
        }
    }
}

/// One piece of split proxy input.
#[derive(Debug, Clone, PartialEq, Eq)]
pub enum Segment<'a> {
    /// Bytes to write verbatim to the child PTY.
    Forward(&'a [u8]),
    /// A recognized trigger — consumed, never forwarded.
    Trigger(Trigger),
}

/// The abstract content of a segment.
pub ghost enum SegmentView {
    Forward(Seq<u8>),
    Trigger(Trigger),
}

/// The abstract content of a segment.
pub open spec fn segment_view(s: Segment<'_>) -> SegmentView {
    match s {
        Segment::Forward(b) => SegmentView::Forward(b@),
        Segment::Trigger(t) => SegmentView::Trigger(t),
    }
}

/// The escape sequence a trigger key sends (xterm modifier encoding, `;2` = Shift).
pub open spec fn trigger_seq(t: Trigger) -> Seq<u8> {
    match t {
        Trigger::Toggle => seq![0x1bu8, 0x5b, 0x32, 0x31, 0x3b, 0x32, 0x7e],
        Trigger::Vad => seq![0x1bu8, 0x5b, 0x32, 0x30, 0x3b, 0x32, 0x7e],
    }
}

/// Whether `pat` occurs in `buf` at position `i`.
pub open spec fn occurs_at(buf: Seq<u8>, i: int, pat: Seq<u8>) -> bool {
    0 <= i && i + pat.len() <= buf.len() && buf.subrange(i, i + pat.len()) == pat
}

/// Scan `buf` from position `i`, with a pending forward run starting at `run`: the
/// segments still to emit. Shift+F10 is tried before Shift+F9.
pub open spec fn scan_from(buf: Seq<u8>, i: int, run: int) -> Seq<SegmentView>
    decreases buf.len() - i,
{
    if i < 0 || run < 0 || run > i || i >= buf.len() {
        if 0 <= run < buf.len() {
            seq![SegmentView::Forward(buf.subrange(run, buf.len() as int))]
        } else {
            Seq::empty()
        }
    } else {
        let flush = if run < i {
            seq![SegmentView::Forward(buf.subrange(run, i))]
        } else {
            Seq::empty()
        };
        if occurs_at(buf, i, trigger_seq(Trigger::Toggle)) {
            flush + seq![SegmentView::Trigger(Trigger::Toggle)] + scan_from(buf, i + 7, i + 7)
        } else if occurs_at(buf, i, trigger_seq(Trigger::Vad)) {
            flush + seq![SegmentView::Trigger(Trigger::Vad)] + scan_from(buf, i + 7, i + 7)
        } else {
            scan_from(buf, i + 1, run)
        }
    }
}

fn matches_at(buf: &[u8], i: usize, pat: &[u8]) -> (b: bool)
    requires
        i <= buf@.len(),
    ensures
        b == occurs_at(buf@, i as int, pat@),
{
    if pat.len() > buf.len() - i {
        return false;
    }
    let mut k: usize = 0;
    while k < pat.len()
        invariant
            k <= pat@.len(),
            i + pat@.len() <= buf@.len(),
            i + pat.len() <= buf.len(),
            forall|m: int| 0 <= m < k ==> buf@[i + m] == pat@[m],
        decreases pat@.len() - k,
    {
        if buf[i + k] != pat[k] {
            assert(buf@.subrange(i as int, i + pat@.len())[k as int] != pat@[k as int]);
            return false;
        }
        k += 1;
    }
    assert(buf@.subrange(i as int, i + pat@.len()) =~= pat@);
    true
}

/// Scan `buf`, extracting trigger escape sequences (consumed) and forwarding every
/// other byte verbatim, preserving order.
pub fn scan(buf: &[u8]) -> (out: Vec<Segment<'_>>)
    ensures
        out@.map_values(|s: Segment| segment_view(s)) == scan_from(buf@, 0, 0),
{
    let toggle: [u8; 7] = [0x1b, 0x5b, 0x32, 0x31, 0x3b, 0x32, 0x7e];
    let vad: [u8; 7] = [0x1b, 0x5b, 0x32, 0x30, 0x3b, 0x32, 0x7e];
    assert(toggle@ =~= trigger_seq(Trigger::Toggle));
    assert(vad@ =~= trigger_seq(Trigger::Vad));
    let mut out: Vec<Segment> = Vec::new();
    let mut run_start: usize = 0;
    let mut i: usize = 0;
    while i < buf.len()
        invariant
            run_start <= i <= buf@.len(),
            toggle@ == trigger_seq(Trigger::Toggle),
            vad@ == trigger_seq(Trigger::Vad),
            out@.map_values(|s: Segment| segment_view(s)) + scan_from(buf@, i as int, run_start as int)
                == scan_from(buf@, 0, 0),
        decreases buf@.len() - i,
    {
        let ghost before = out@.map_values(|s: Segment| segment_view(s));
        let t = matches_at(buf, i, toggle.as_slice());
        let v = if t { false } else { matches_at(buf, i, vad.as_slice()) };
        if t || v {
            if run_start < i {
                out.push(Segment::Forward(slice_subrange(buf, run_start, i)));
            }
            out.push(Segment::Trigger(if t { Trigger::Toggle } else { Trigger::Vad }));
            assert(out@.map_values(|s: Segment| segment_view(s)) + scan_from(buf@, i + 7, i + 7)
                =~= before + scan_from(buf@, i as int, run_start as int));
            i += 7;
            run_start = i;
        } else {
            i += 1;
        }
    }
    let ghost before = out@.map_values(|s: Segment| segment_view(s));
    if run_start < buf.len() {
        out.push(Segment::Forward(slice_subrange(buf, run_start, buf.len())));
    }
    assert(out@.map_values(|s: Segment| segment_view(s)) =~= before + scan_from(buf@, i as int, run_start as int));
    out
}

/// The bytes a list of segments stands for: forwarded bytes as they are, triggers as
/// their escape sequences.
pub open spec fn unsplit(segs: Seq<SegmentView>) -> Seq<u8>
    decreases segs.len(),
{
    if segs.len() == 0 {
        Seq::empty()
    } else {
        (match segs[0] {
            SegmentView::Forward(b) => b,
            SegmentView::Trigger(t) => trigger_seq(t),
        }) + unsplit(segs.drop_first())
    }
}

proof fn lemma_unsplit_append(a: Seq<SegmentView>, b: Seq<SegmentView>)
    ensures
        unsplit(a + b) == unsplit(a) + unsplit(b),
    decreases a.len(),
{
    if a.len() == 0 {
        assert(a + b =~= b);
    } else {
        assert((a + b).drop_first() =~= a.drop_first() + b);
        lemma_unsplit_append(a.drop_first(), b);
    }
}

proof fn lemma_scan_from_unsplit(buf: Seq<u8>, i: int, run: int)
    requires
        0 <= run <= i <= buf.len(),
    ensures
        unsplit(scan_from(buf, i, run)) == buf.subrange(run, buf.len() as int),
    decreases buf.len() - i,
{
    assert(unsplit(Seq::<SegmentView>::empty()) =~= Seq::<u8>::empty());
    if i >= buf.len() {
        if run < buf.len() {
            let f = seq![SegmentView::Forward(buf.subrange(run, buf.len() as int))];
            assert(f.drop_first() =~= Seq::<SegmentView>::empty());
        } else {
            assert(buf.subrange(run, buf.len() as int) =~= Seq::<u8>::empty());
        }
    } else {
        let flush = if run < i {
            seq![SegmentView::Forward(buf.subrange(run, i))]
        } else {
            Seq::empty()
        };
        assert(unsplit(flush) == buf.subrange(run, i)) by {
            if run < i {
                assert(flush.drop_first() =~= Seq::<SegmentView>::empty());
                assert(buf.subrange(run, i) + Seq::<u8>::empty() =~= buf.subrange(run, i));
            } else {
                assert(buf.subrange(run, i) =~= Seq::<u8>::empty());
            }
        }
        let found = if occurs_at(buf, i, trigger_seq(Trigger::Toggle)) {
            Some(Trigger::Toggle)
        } else if occurs_at(buf, i, trigger_seq(Trigger::Vad)) {
            Some(Trigger::Vad)
        } else {
            None
        };
        match found {
            Some(t) => {
                let tr = seq![SegmentView::Trigger(t)];
                lemma_scan_from_unsplit(buf, i + 7, i + 7);
                lemma_unsplit_append(flush, tr);
                lemma_unsplit_append(flush + tr, scan_from(buf, i + 7, i + 7));
                assert(tr.drop_first() =~= Seq::<SegmentView>::empty());
                assert(unsplit(tr) =~= trigger_seq(t));
                assert(buf.subrange(i, i + 7) == trigger_seq(t));
                assert(buf.subrange(run, buf.len() as int) =~= buf.subrange(run, i) + buf.subrange(i, i + 7) + buf.subrange(i + 7, buf.len() as int));
            },
            None => {
                lemma_scan_from_unsplit(buf, i + 1, run);
            },
        }
    }
}

/// Nothing is lost or reordered: the forwarded bytes and the consumed trigger
/// sequences, read back in order, are exactly the input.
pub proof fn lemma_scan_reassembles(buf: Seq<u8>)
    ensures
        unsplit(scan_from(buf, 0, 0)) == buf,
{
    lemma_scan_from_unsplit(buf, 0, 0);
    assert(buf.subrange(0, buf.len() as int) =~= buf);
}

/// The triggers among `segs`, in order.
pub open spec fn triggers_of(segs: Seq<SegmentView>) -> Seq<Trigger>
    decreases segs.len(),
{
    if segs.len() == 0 {
        Seq::empty()
    } else {
        let before = triggers_of(segs.drop_last());
        match segs.last() {
            SegmentView::Trigger(t) => before.push(t),
            SegmentView::Forward(_) => before,
        }
    }
}

/// The triggers in `buf`, in order, everything else dropped: what a suppressed
/// proxy still acts on while a streaming dictation owns the input.
pub fn scan_suppressed(buf: &[u8]) -> (ts: Vec<Trigger>)
    ensures
        ts@ == triggers_of(scan_from(buf@, 0, 0)),
{
    let segs = scan(buf);
    let ghost sv = segs@.map_values(|s: Segment| segment_view(s));
    let mut ts: Vec<Trigger> = Vec::new();
    let mut i: usize = 0;
    while i < segs.len()
        invariant
            i <= segs@.len(),
            sv == segs@.map_values(|s: Segment| segment_view(s)),
            ts@ == triggers_of(sv.subrange(0, i as int)),
        decreases segs@.len() - i,
    {
        assert(sv.subrange(0, i + 1).drop_last() =~= sv.subrange(0, i as int));
        assert(sv[i as int] == segment_view(segs@[i as int]));
        match &segs[i] {
            Segment::Trigger(t) => ts.push(*t),
            Segment::Forward(_) => {},
        }
        i += 1;
    }
    assert(sv.subrange(0, segs@.len() as int) =~= sv);
    ts
}

/// The debug injection key: F12 (`ESC [ 24 ~`, the common xterm encoding). It writes a
/// fixed sentence into the child, to exercise the injection channel without the
/// daemon.
pub open spec fn debug_key() -> Seq<u8> {
    seq![0x1bu8, 0x5b, 0x32, 0x34, 0x7e]
}

/// The sentence the debug key injects.
pub open spec fn debug_sentence() -> Seq<char> {
    "create a function that reverses a string"@
}

/// What the wrapper does with part of the keyboard input.
pub enum KeyboardAction {
    /// Ask the daemon to run this trigger's command.
    Send(Trigger),
    /// Write these bytes to the child PTY.
    Write(Vec<u8>),
}

/// A keyboard action, abstractly.
pub ghost enum KeyboardActionView {
    Send(Trigger),
    Write(Seq<u8>),
}

/// The abstract value of a keyboard action.
pub open spec fn action_view(a: KeyboardAction) -> KeyboardActionView {
    match a {
        KeyboardAction::Send(t) => KeyboardActionView::Send(t),
        KeyboardAction::Write(b) => KeyboardActionView::Write(b@),
    }
}

/// The action for one scanned segment: a trigger is sent; a forwarded run is written,
/// except that a run which is exactly the debug key writes the debug sentence instead.
pub open spec fn segment_action(s: SegmentView) -> KeyboardActionView {
    match s {
        SegmentView::Trigger(t) => KeyboardActionView::Send(t),
        SegmentView::Forward(b) => if b == debug_key() {
            KeyboardActionView::Write(encode_utf8(strip_trailing_eol(debug_sentence())))
        } else {
            KeyboardActionView::Write(b)
        },
    }
}

/// The actions for a chunk of keyboard input. While a streaming capture runs, the
/// keyboard belongs to the live preview: triggers are still sent, every other byte is
/// dropped.
pub open spec fn keyboard_actions(buf: Seq<u8>, streaming: bool) -> Seq<KeyboardActionView> {
    if streaming {
        triggers_of(scan_from(buf, 0, 0)).map_values(|t: Trigger| KeyboardActionView::Send(t))
    } else {
        scan_from(buf, 0, 0).map_values(|s: SegmentView| segment_action(s))
    }
}

fn is_debug_key(b: &[u8]) -> (r: bool)
    ensures
        r == (b@ == debug_key()),
{
    let r = b.len() == 5 && b[0] == 0x1b && b[1] == 0x5b && b[2] == 0x32 && b[3] == 0x34 && b[4]
        == 0x7e;
    proof {
        if r {
            assert(b@ =~= debug_key());
        }
        if b@ == debug_key() {
            assert(debug_key()[0] == 0x1b && debug_key()[1] == 0x5b && debug_key()[2] == 0x32
                && debug_key()[3] == 0x34 && debug_key()[4] == 0x7e);
        }
    }
    r
}

/// Route a chunk of keyboard input: which trigger commands to send and which bytes
/// to write to the child, in input order.
pub fn route_keyboard(buf: &[u8], streaming: bool) -> (acts: Vec<KeyboardAction>)
    ensures
        acts@.map_values(|a: KeyboardAction| action_view(a)) == keyboard_actions(buf@, streaming),
{
    let mut acts: Vec<KeyboardAction> = Vec::new();
    if streaming {
        let ts = scan_suppressed(buf);
        let mut i: usize = 0;
        while i < ts.len()
            invariant
                i <= ts@.len(),
                ts@ == triggers_of(scan_from(buf@, 0, 0)),
                acts@.len() == i,
                forall|k: int| 0 <= k < i ==> action_view(#[trigger] acts@[k]) == KeyboardActionView::Send(ts@[k]),
            decreases ts@.len() - i,
        {
            acts.push(KeyboardAction::Send(ts[i]));
            i += 1;
        }
        assert(acts@.map_values(|a: KeyboardAction| action_view(a)) =~= ts@.map_values(
            |t: Trigger| KeyboardActionView::Send(t),
        ));
    } else {
        let segs = scan(buf);
        let ghost sv = segs@.map_values(|s: Segment| segment_view(s));
        let mut i: usize = 0;
        while i < segs.len()
            invariant
                i <= segs@.len(),
                sv == segs@.map_values(|s: Segment| segment_view(s)),
                sv == scan_from(buf@, 0, 0),
                acts@.len() == i,
                forall|k: int| 0 <= k < i ==> action_view(#[trigger] acts@[k]) == segment_action(sv[k]),
            decreases segs@.len() - i,
        {
            assert(sv[i as int] == segment_view(segs@[i as int]));
            match &segs[i] {
                Segment::Trigger(t) => acts.push(KeyboardAction::Send(*t)),
                Segment::Forward(bytes) => {
                    if is_debug_key(bytes) {
                        acts.push(
                            KeyboardAction::Write(injection_bytes("create a function that reverses a string")),
                        );
                    } else {
                        acts.push(KeyboardAction::Write(slice_to_vec(bytes)));
                    }
                },
            }
            i += 1;
        }
        assert(acts@.map_values(|a: KeyboardAction| action_view(a)) =~= sv.map_values(
            |s: SegmentView| segment_action(s),
        ));
    }
    acts
}

} // verus!
