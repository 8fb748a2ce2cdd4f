//! Continuous-mode session logic: silence classification by two thresholds, ordered
//! assembly of clip transcripts, prompt chaining from the running transcript tail, and
//! the grouping of short clips so no tiny fragment is transcribed alone.

use vstd::prelude::*;
use crate::text::{
    chars_of, join, push_joined, split_words, string_from_chars, trim, trim_chars, words,
};
use crate::time::{Duration, max_nanos};

verus! {

/// What a detected silence means during a session.
#[derive(Debug, Clone, Copy, PartialEq, Eq, Structural)]
pub enum SilenceEvent {
    /// Below the clip-cut threshold — keep recording the current clip.
    Continue,
    /// Past the clip-cut pause — close the current clip, start the next.
    CutClip,
    /// Past the session-end silence — finish and deliver.
    EndSession,
}

/// Classify a silence by the two thresholds (session end wins over clip cut).
pub fn classify_silence(silence: Duration, clip_pause: Duration, session_end: Duration) -> (e: SilenceEvent)
    ensures
        e == if silence@ >= session_end@ {
            SilenceEvent::EndSession
        } else if silence@ >= clip_pause@ {
            SilenceEvent::CutClip
        } else {
            SilenceEvent::Continue
        },
{
    if !silence.shorter_than(&session_end) {
        SilenceEvent::EndSession
    } else if !silence.shorter_than(&clip_pause) {
        SilenceEvent::CutClip
    } else {
        SilenceEvent::Continue
    }
}

/// The trimmed, non-empty clip transcripts, in order.
pub open spec fn kept_clips(clips: Seq<Seq<char>>) -> Seq<Seq<char>>
    decreases clips.len(),
{
    if clips.len() == 0 {
        Seq::empty()
    } else {
        let r = kept_clips(clips.drop_last());
        let t = trim(clips.last());
        if t.len() > 0 {
            r.push(t)
        } else {
            r
        }
    }
}

/// The session transcript: trimmed clip transcripts joined by single spaces, empty
/// ones dropped.
pub open spec fn assembled_text(clips: Seq<Seq<char>>) -> Seq<char> {
    join(kept_clips(clips), seq![' '])
}

fn kept_clip_vecs(clips: &[String]) -> (ks: Vec<Vec<char>>)
    ensures
        ks@.map_values(|w: Vec<char>| w@) == kept_clips(clips@.map_values(|c: String| c@)),
{
    let ghost cv = clips@.map_values(|c: String| c@);
    let mut ks: Vec<Vec<char>> = Vec::new();
    let mut i: usize = 0;
    while i < clips.len()
        invariant
            i <= clips@.len(),
            cv == clips@.map_values(|c: String| c@),
            ks@.map_values(|w: Vec<char>| w@) == kept_clips(cv.subrange(0, i as int)),
        decreases clips@.len() - i,
    {
        assert(cv.subrange(0, i + 1).drop_last() =~= cv.subrange(0, i as int));
        let raw = chars_of(clips[i].as_str());
        let t = trim_chars(&raw);
        let ghost before = ks@.map_values(|w: Vec<char>| w@);
        if t.len() > 0 {
            ks.push(t);
            assert(ks@.map_values(|w: Vec<char>| w@) =~= before.push(t@));
        }
        i += 1;
    }
    assert(cv.subrange(0, clips@.len() as int) =~= cv);
    ks
}

fn space_is_single() -> (b: bool)
    ensures
        b,
        " "@ == seq![' '],
{
    proof {
        reveal_strlit(" ");
        assert(" "@ =~= seq![' ']);
    }
    true
}

/// Assemble clip transcripts, in record order, into one session transcript.
pub fn assemble(clips: &[String]) -> (s: String)
    ensures
        s@ == assembled_text(clips@.map_values(|c: String| c@)),
{
    let ks = kept_clip_vecs(clips);
    let mut v: Vec<char> = Vec::new();
    push_joined(&mut v, &ks, " ");
    space_is_single();
    assert(v@ =~= assembled_text(clips@.map_values(|c: String| c@)));
    string_from_chars(&v)
}

/// The last `max_words` words of `prev`, space-joined.
pub open spec fn tail_words(prev: Seq<char>, max_words: nat) -> Seq<char> {
    let ws = words(prev);
    let start = if ws.len() >= max_words { ws.len() - max_words } else { 0 };
    join(ws.subrange(start as int, ws.len() as int), seq![' '])
}

/// The last `max_words` of `prev`, to seed the next clip's initial prompt.
pub fn chain_tail(prev: &str, max_words: usize) -> (s: String)
    ensures
        s@ == tail_words(prev@, max_words as nat),
{
    let p = chars_of(prev);
    let ws = split_words(&p);
    let n = ws.len();
    let start = if n >= max_words { n - max_words } else { 0 };
    let mut sel: Vec<Vec<char>> = Vec::new();
    let mut i = start;
    while i < n
        invariant
            start <= i <= n == ws@.len() == words(prev@).len(),
            forall|k: int| 0 <= k < n ==> #[trigger] ws@[k]@ == words(prev@)[k],
            sel@.len() == i - start,
            forall|k: int| 0 <= k < sel@.len() ==> #[trigger] sel@[k]@ == words(prev@)[start + k],
        decreases n - i,
    {
        sel.push(ws[i].clone());
        i += 1;
    }
    let mut v: Vec<char> = Vec::new();
    push_joined(&mut v, &sel, " ");
    space_is_single();
    assert(sel@.map_values(|w: Vec<char>| w@) =~= words(prev@).subrange(start as int, n as int));
    assert(v@ =~= tail_words(prev@, max_words as nat));
    string_from_chars(&v)
}

/// The grouping of the first `ds.len()` clips: completed groups, the group in
/// progress, and its running total in nanoseconds.
pub open spec fn group_fold(ds: Seq<nat>, min: nat) -> (Seq<Seq<int>>, Seq<int>, nat)
    decreases ds.len(),
{
    if ds.len() == 0 {
        (Seq::empty(), Seq::empty(), 0)
    } else {
        let (groups, cur, running) = group_fold(ds.drop_last(), min);
        let cur2 = cur.push(ds.len() - 1);
        let run2 = running + ds.last();
        if run2 >= min {
            (groups.push(cur2), Seq::empty(), 0)
        } else {
            (groups, cur2, run2)
        }
    }
}

/// Consecutive clips grouped so each group's total reaches `min`; a trailing short
/// group is still emitted.
pub open spec fn clip_groups(ds: Seq<nat>, min: nat) -> Seq<Seq<int>> {
    let (groups, cur, running) = group_fold(ds, min);
    if cur.len() > 0 {
        groups.push(cur)
    } else {
        groups
    }
}

/// The sum of `ds`.
pub open spec fn total(ds: Seq<nat>) -> nat
    decreases ds.len(),
{
    if ds.len() == 0 {
        0
    } else {
        total(ds.drop_last()) + ds.last()
    }
}

/// Indices as mathematical integers.
pub open spec fn as_ints(s: Seq<usize>) -> Seq<int> {
    s.map_values(|x: usize| x as int)
}

/// The clip durations as whole nanoseconds.
pub open spec fn nanos_of(durations: Seq<Duration>) -> Seq<nat> {
    durations.map_values(|d: Duration| d@)
}

proof fn lemma_group_running_le_total(ds: Seq<nat>, min: nat)
    ensures
        group_fold(ds, min).2 <= total(ds),
    decreases ds.len(),
{
    if ds.len() > 0 {
        lemma_group_running_le_total(ds.drop_last(), min);
    }
}

/// Group consecutive clips so each transcribed segment clears `min`: a clip shorter
/// than `min` folds forward into the following clips until the running total reaches
/// `min`; a trailing short group is still emitted.
pub fn accumulate_clips(durations: &[Duration], min: Duration) -> (groups: Vec<Vec<usize>>)
    requires
        total(nanos_of(durations@)) <= max_nanos(),
    ensures
        groups@.len() == clip_groups(nanos_of(durations@), min@).len(),
        forall|g: int| 0 <= g < groups@.len() ==> as_ints(#[trigger] groups@[g]@) == clip_groups(nanos_of(durations@), min@)[g],
{
    let ghost ds = nanos_of(durations@);
    let mut groups: Vec<Vec<usize>> = Vec::new();
    let mut current: Vec<usize> = Vec::new();
    let mut running = Duration::zero();
    let mut i: usize = 0;
    while i < durations.len()
        invariant
            i <= durations@.len(),
            ds == nanos_of(durations@),
            total(ds) <= max_nanos(),
            groups@.len() == group_fold(ds.subrange(0, i as int), min@).0.len(),
            forall|g: int| 0 <= g < groups@.len() ==> as_ints(#[trigger] groups@[g]@) == group_fold(ds.subrange(0, i as int), min@).0[g],
            as_ints(current@) == group_fold(ds.subrange(0, i as int), min@).1,
            running@ == group_fold(ds.subrange(0, i as int), min@).2,
        decreases durations@.len() - i,
    {
        let ghost pre = ds.subrange(0, i as int);
        let ghost nxt = ds.subrange(0, i + 1);
        assert(nxt.drop_last() =~= pre);
        assert(nxt.last() == durations@[i as int]@);
        proof {
            lemma_group_running_le_total(pre, min@);
            lemma_total_prefix_le(ds, i + 1);
            assert(total(nxt) == total(pre) + nxt.last());
        }
        let ghost cur_before = current@;
        current.push(i);
        assert(as_ints(current@) =~= as_ints(cur_before).push(i as int));
        running = running.add(durations[i]);
        if !running.shorter_than(&min) {
            let g = current;
            let ghost gb = groups@;
            groups.push(g);
            current = Vec::new();
            running = Duration::zero();
            assert(as_ints(current@) =~= Seq::<int>::empty());
            assert forall|k: int| 0 <= k < groups@.len() implies as_ints(#[trigger] groups@[k]@) == group_fold(nxt, min@).0[k] by {
                if k < gb.len() {
                    assert(groups@[k] == gb[k]);
                }
            }
        }
        i += 1;
    }
    assert(ds.subrange(0, durations@.len() as int) =~= ds);
    if current.len() > 0 {
        let ghost gb = groups@;
        groups.push(current);
        assert forall|k: int| 0 <= k < groups@.len() implies as_ints(#[trigger] groups@[k]@) == clip_groups(ds, min@)[k] by {
            if k < gb.len() {
                assert(groups@[k] == gb[k]);
            }
        }
    }
    groups
}

proof fn lemma_total_prefix_le(ds: Seq<nat>, i: int)
    requires
        0 <= i <= ds.len(),
    ensures
        total(ds.subrange(0, i)) <= total(ds),
    decreases ds.len() - i,
{
    if i < ds.len() {
        assert(ds.subrange(0, i + 1).drop_last() =~= ds.subrange(0, i));
        lemma_total_prefix_le(ds, i + 1);
    } else {
        assert(ds.subrange(0, i) =~= ds);
    }
}

/// How many of the `present` clip files are finalized: all but the newest while the
/// recorder still runs, all of them once it has exited.
pub fn finalized_clip_count(present: usize, sox_running: bool) -> (n: usize)
    ensures
        n == if sox_running {
            if present > 0 { (present - 1) as nat } else { 0 }
        } else {
            present as nat
        },
{
    if sox_running {
        if present > 0 {
            present - 1
        } else {
            0
        }
    } else {
        present
    }
}

/// Whether a continuous session ends now: the recorder has exited and every present
/// clip is transcribed, or no clip has advanced for the session-end silence and every
/// finalized clip is transcribed.
pub fn continuous_should_end(
    sox_running: bool,
    transcribed: usize,
    present: usize,
    finalized: usize,
    silent_for: Duration,
    end_silence: Duration,
) -> (b: bool)
    ensures
        b == ((!sox_running && transcribed >= present) || (silent_for@ >= end_silence@
            && transcribed >= finalized)),
{
    (!sox_running && transcribed >= present) || (end_silence.at_most(&silent_for) && transcribed
        >= finalized)
}

/// Whether a poll of a continuous session made progress, which restarts the
/// session-end countdown: a new clip opened since the last poll, or clips were
/// transcribed in this one.
pub fn made_progress(present: usize, last_present: usize, newly_transcribed: usize) -> (b: bool)
    ensures
        b == (present > last_present || newly_transcribed > 0),
{
    present > last_present || newly_transcribed > 0
}

/// An in-progress Continuous-mode session: ordered clip transcripts and the number of
/// words carried into each next clip's prompt.
#[derive(Debug, Clone)]
pub struct Session {
    clips: Vec<String>,
    chain_words: usize,
}

/// The abstract session.
pub ghost struct SessionView {
    pub clips: Seq<Seq<char>>,
    pub chain_words: nat,
}

impl View for Session {
    type V = SessionView;

    closed spec fn view(&self) -> SessionView {
        SessionView { clips: self.clips@.map_values(|c: String| c@), chain_words: self.chain_words as nat }
    }
}

impl Session {
    /// A fresh session carrying the last `chain_words` words into each next prompt.
    pub fn new(chain_words: usize) -> (s: Session)
        ensures
            s@.clips.len() == 0,
            s@.chain_words == chain_words,
    {
        Session { clips: Vec::new(), chain_words }
    }

    /// Record the next clip's transcript, in order.
    pub fn push_clip(&mut self, transcript: &str)
        ensures
            final(self)@.clips == old(self)@.clips.push(transcript@),
            final(self)@.chain_words == old(self)@.chain_words,
    {
        let ghost before = self@.clips;
        self.clips.push(transcript.to_owned());
        assert(self@.clips =~= before.push(transcript@));
    }

    /// How many clip transcripts have been recorded.
    pub fn clip_count(&self) -> (n: usize)
        ensures
            n == self@.clips.len(),
    {
        self.clips.len()
    }

    /// The full session transcript.
    pub fn assembled(&self) -> (s: String)
        ensures
            s@ == assembled_text(self@.clips),
    {
        assemble(&self.clips)
    }

    /// The initial prompt for the next clip: the last `chain_words` words of
    /// everything transcribed so far.
    pub fn prompt_for_next(&self) -> (s: String)
        ensures
            s@ == tail_words(assembled_text(self@.clips), self@.chain_words),
    {
        let a = self.assembled();
        chain_tail(a.as_str(), self.chain_words)
    }
}

} // verus!
