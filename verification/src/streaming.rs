//! Streaming-dictation commit engine (LocalAgreement-2): a word is committed once two
//! consecutive decodes agree on it at the same position beyond the committed prefix.
//! The committed prefix only ever grows; everything past it is the unstable tail.

use vstd::prelude::*;
use crate::text::{
    chars_of, join, lemma_join_append, lemma_join_injective, push_chars, push_joined, spaceless_words,
    string_from_chars,
};

verus! {

/// One incremental edit to the live preview: newly committed text to lock onto the
/// stable prefix, and the current unstable tail, each with its joining space.
#[derive(Debug, Clone, PartialEq, Eq, Default)]
pub struct LiveEdit {
    pub committed: String,
    pub tail: String,
}

/// LocalAgreement-2 commit engine over a single streaming dictation.
#[derive(Debug, Clone)]
pub struct CommitEngine {
    committed: Vec<Vec<char>>,
    prev: Vec<Vec<char>>,
}

/// The abstract engine: the committed words and the previous decode's words.
pub ghost struct EngineView {
    pub committed: Seq<Seq<char>>,
    pub prev: Seq<Seq<char>>,
}

impl View for CommitEngine {
    type V = EngineView;

    closed spec fn view(&self) -> EngineView {
        EngineView {
            committed: self.committed@.map_values(|w: Vec<char>| w@),
            prev: self.prev@.map_values(|w: Vec<char>| w@),
        }
    }
}

/// The length of the common prefix of two word lists.
pub open spec fn agree(a: Seq<Seq<char>>, b: Seq<Seq<char>>) -> nat
    decreases a.len(),
{
    if a.len() == 0 || b.len() == 0 || a[0] != b[0] {
        0
    } else {
        1 + agree(a.drop_first(), b.drop_first())
    }
}

/// `words` joined by single spaces, with a leading space when they follow existing
/// preview text; empty in, empty out.
pub open spec fn render(words: Seq<Seq<char>>, leading_space: bool) -> Seq<char> {
    if words.len() == 0 {
        Seq::empty()
    } else if leading_space {
        seq![' '] + join(words, seq![' '])
    } else {
        join(words, seq![' '])
    }
}

/// How many words of `hyp` beyond the committed prefix `k` this decode confirms.
pub open spec fn newly_agreed(prev: Seq<Seq<char>>, hyp: Seq<Seq<char>>, k: int) -> nat {
    if hyp.len() > k {
        agree(if k <= prev.len() { prev.subrange(k, prev.len() as int) } else { Seq::empty() }, hyp.subrange(k, hyp.len() as int))
    } else {
        0
    }
}

/// One observation: the engine after decode `hyp`, and the live edit it yields
/// (committed text, tail text).
pub open spec fn observe_spec(e: EngineView, hyp: Seq<Seq<char>>) -> (EngineView, Seq<char>, Seq<char>) {
    let k = e.committed.len() as int;
    let a = newly_agreed(e.prev, hyp, k) as int;
    let newly = if hyp.len() > k { hyp.subrange(k, k + a) } else { Seq::empty() };
    let committed = e.committed + newly;
    let tail = if hyp.len() > k + a { hyp.subrange(k + a, hyp.len() as int) } else { Seq::empty() };
    (
        EngineView { committed, prev: hyp },
        render(newly, k > 0),
        render(tail, committed.len() > 0),
    )
}

fn agree_exec(a: &[Vec<char>], from_a: usize, b: &[&str], from_b: usize) -> (n: usize)
    requires
        from_a <= a@.len(),
        from_b <= b@.len(),
    ensures
        n == agree(
            a@.map_values(|w: Vec<char>| w@).subrange(from_a as int, a@.len() as int),
            b@.map_values(|w: &str| w@).subrange(from_b as int, b@.len() as int),
        ),
        n <= b@.len() - from_b,
{
    let ghost av = a@.map_values(|w: Vec<char>| w@);
    let ghost bv = b@.map_values(|w: &str| w@);
    let mut i: usize = 0;
    while i < a.len() - from_a && i < b.len() - from_b
        invariant
            from_a + i <= a@.len(),
            from_b + i <= b@.len(),
            av == a@.map_values(|w: Vec<char>| w@),
            bv == b@.map_values(|w: &str| w@),
            agree(av.subrange(from_a as int, a@.len() as int), bv.subrange(from_b as int, b@.len() as int))
                == i + agree(av.subrange(from_a + i, a@.len() as int), bv.subrange(from_b + i, b@.len() as int)),
        decreases a@.len() - from_a - i,
    {
        let w = chars_of(b[from_b + i]);
        let ghost sa = av.subrange(from_a + i, a@.len() as int);
        let ghost sb = bv.subrange(from_b + i, b@.len() as int);
        assert(sa[0] == a@[from_a + i]@);
        assert(sb[0] == b@[from_b + i]@);
        if !crate::text::chars_eq(&a[from_a + i], &w) {
            return i;
        }
        assert(sa.drop_first() =~= av.subrange(from_a + i + 1, a@.len() as int));
        assert(sb.drop_first() =~= bv.subrange(from_b + i + 1, b@.len() as int));
        i += 1;
    }
    i
}

/// The words `hyp[from..to]` as owned character vectors.
fn words_from(hyp: &[&str], from: usize, to: usize) -> (ws: Vec<Vec<char>>)
    requires
        from <= to <= hyp@.len(),
    ensures
        ws@.map_values(|w: Vec<char>| w@) == hyp@.map_values(|w: &str| w@).subrange(from as int, to as int),
{
    let ghost hv = hyp@.map_values(|w: &str| w@);
    let mut ws: Vec<Vec<char>> = Vec::new();
    let mut t = from;
    while t < to
        invariant
            from <= t <= to <= hyp@.len(),
            hv == hyp@.map_values(|w: &str| w@),
            ws@.len() == t - from,
            forall|m: int| 0 <= m < ws@.len() ==> #[trigger] ws@[m]@ == hv[from + m],
        decreases to - t,
    {
        let w = chars_of(hyp[t]);
        assert(w@ == hv[t as int]);
        ws.push(w);
        t += 1;
    }
    assert(ws@.map_values(|w: Vec<char>| w@) =~= hv.subrange(from as int, to as int));
    ws
}

fn render_exec(words: &[Vec<char>], leading_space: bool) -> (s: String)
    ensures
        s@ == render(words@.map_values(|w: Vec<char>| w@), leading_space),
{
    let mut v: Vec<char> = Vec::new();
    if words.len() == 0 {
        assert(v@ =~= render(words@.map_values(|w: Vec<char>| w@), leading_space));
        return string_from_chars(&v);
    }
    if leading_space {
        v.push(' ');
    }
    let ghost before = v@;
    push_joined(&mut v, words, " ");
    proof {
        reveal_strlit(" ");
        assert(" "@ =~= seq![' ']);
    }
    assert(v@ =~= render(words@.map_values(|w: Vec<char>| w@), leading_space));
    string_from_chars(&v)
}

impl CommitEngine {
    /// A fresh engine with nothing committed.
    pub fn new() -> (e: CommitEngine)
        ensures
            e@.committed.len() == 0,
            e@.prev.len() == 0,
    {
        CommitEngine { committed: Vec::new(), prev: Vec::new() }
    }

    /// How many words have been committed (the stable prefix length).
    pub fn committed_len(&self) -> (n: usize)
        ensures
            n == self@.committed.len(),
    {
        self.committed.len()
    }

    /// The committed text so far, space-joined.
    pub fn committed_text(&self) -> (s: String)
        ensures
            s@ == join(self@.committed, seq![' ']),
    {
        let mut v: Vec<char> = Vec::new();
        push_joined(&mut v, &self.committed, " ");
        proof {
            reveal_strlit(" ");
            assert(" "@ =~= seq![' ']);
        }
        assert(v@ =~= join(self@.committed, seq![' ']));
        string_from_chars(&v)
    }

    /// Observe the next decode's hypothesis and return the live edit to apply: words
    /// now confirmed by agreement with the previous decode become committed, the rest
    /// is the unstable tail.
    pub fn observe(&mut self, hypothesis: &[&str]) -> (edit: LiveEdit)
        ensures
            (final(self)@, edit.committed@, edit.tail@) == observe_spec(
                old(self)@,
                hypothesis@.map_values(|w: &str| w@),
            ),
    {
        let ghost hv = hypothesis@.map_values(|w: &str| w@);
        let ghost e0 = self@;
        let k = self.committed.len();
        let n = hypothesis.len();
        let agree = if n > k {
            if k <= self.prev.len() {
                agree_exec(&self.prev, k, hypothesis, k)
            } else {
                let empty: Vec<Vec<char>> = Vec::new();
                let a = agree_exec(&empty, 0, hypothesis, k);
                assert(empty@.map_values(|w: Vec<char>| w@).subrange(0, 0) =~= Seq::<Seq<char>>::empty());
                a
            }
        } else {
            0
        };
        assert(agree == newly_agreed(e0.prev, hv, k as int));
        let had_committed = k > 0;
        let mut newly = if n > k {
            words_from(hypothesis, k, k + agree)
        } else {
            let v: Vec<Vec<char>> = Vec::new();
            assert(v@.map_values(|w: Vec<char>| w@) =~= Seq::<Seq<char>>::empty());
            v
        };
        let tail_words = if n > k + agree {
            words_from(hypothesis, k + agree, n)
        } else {
            let v: Vec<Vec<char>> = Vec::new();
            assert(v@.map_values(|w: Vec<char>| w@) =~= Seq::<Seq<char>>::empty());
            v
        };
        let committed = render_exec(&newly, had_committed);
        let ghost newly_v = newly@.map_values(|w: Vec<char>| w@);
        self.committed.append(&mut newly);
        assert(self.committed@.map_values(|w: Vec<char>| w@) =~= e0.committed + newly_v);
        let tail = render_exec(&tail_words, self.committed.len() > 0);
        let prev = words_from(hypothesis, 0, n);
        assert(hv.subrange(0, n as int) =~= hv);
        self.prev = prev;
        LiveEdit { committed, tail }
    }
}

/// The committed prefix only ever grows: every observation keeps what was committed
/// and appends to it.
pub proof fn lemma_committed_never_retracts(e: EngineView, hyp: Seq<Seq<char>>)
    ensures
        observe_spec(e, hyp).0.committed.len() >= e.committed.len(),
        observe_spec(e, hyp).0.committed.subrange(0, e.committed.len() as int) == e.committed,
{
    assert(observe_spec(e, hyp).0.committed.subrange(0, e.committed.len() as int) =~= e.committed);
}

proof fn lemma_agree_self(a: Seq<Seq<char>>)
    ensures
        agree(a, a) == a.len(),
    decreases a.len(),
{
    if a.len() > 0 {
        lemma_agree_self(a.drop_first());
    }
}

/// Re-observing an unchanged hypothesis is idempotent: once a hypothesis has been
/// observed twice in a row, observing it again leaves the engine as it was, commits
/// nothing new and re-renders the same, empty, tail.
pub proof fn lemma_unchanged_hypothesis_is_idempotent(e: EngineView, hyp: Seq<Seq<char>>)
    ensures
        ({
            let e2 = observe_spec(observe_spec(e, hyp).0, hyp).0;
            let t2 = observe_spec(observe_spec(e, hyp).0, hyp).2;
            let (e3, c3, t3) = observe_spec(e2, hyp);
            e3 == e2 && c3.len() == 0 && t3 == t2 && t2.len() == 0
        }),
{
    let e1 = observe_spec(e, hyp).0;
    let k1 = e1.committed.len() as int;
    if hyp.len() > k1 {
        lemma_agree_self(hyp.subrange(k1, hyp.len() as int));
    }
    let e2 = observe_spec(e1, hyp).0;
    assert(e2.committed.len() >= hyp.len());
    assert(e2.committed + Seq::<Seq<char>>::empty() =~= e2.committed);
}

/// The committed text grows by exactly the committed edit, and when the hypothesis
/// extends what is committed, the committed text, the committed edit and the tail
/// together show exactly the hypothesis.
pub proof fn lemma_preview_is_hypothesis(e: EngineView, hyp: Seq<Seq<char>>)
    ensures
        join(observe_spec(e, hyp).0.committed, seq![' ']) == join(e.committed, seq![' '])
            + observe_spec(e, hyp).1,
        hyp.len() >= e.committed.len() && hyp.subrange(0, e.committed.len() as int) == e.committed
            ==> join(e.committed, seq![' ']) + observe_spec(e, hyp).1 + observe_spec(e, hyp).2
            == join(hyp, seq![' ']),
{
    let sp = seq![' '];
    let k = e.committed.len() as int;
    let a = newly_agreed(e.prev, hyp, k) as int;
    if hyp.len() > k {
        assert(a <= hyp.len() - k) by {
            lemma_agree_bound(
                if k <= e.prev.len() { e.prev.subrange(k, e.prev.len() as int) } else { Seq::empty() },
                hyp.subrange(k, hyp.len() as int),
            );
        }
    }
    let newly = if hyp.len() > k { hyp.subrange(k, k + a) } else { Seq::<Seq<char>>::empty() };
    let committed = e.committed + newly;
    let tail = if hyp.len() > k + a { hyp.subrange(k + a, hyp.len() as int) } else { Seq::<Seq<char>>::empty() };
    let (e1, c, t) = observe_spec(e, hyp);
    assert(e1.committed == committed);
    lemma_join_append(e.committed, newly, sp);
    if newly.len() == 0 {
        assert(join(e.committed, sp) + c =~= join(e.committed, sp));
    } else if k > 0 {
        assert(join(e.committed, sp) + sp + join(newly, sp) =~= join(e.committed, sp) + c);
    } else {
        assert(e.committed.len() == 0);
        assert(join(e.committed, sp) =~= Seq::<char>::empty());
        assert(join(e.committed, sp) + c =~= join(newly, sp));
    }
    if hyp.len() >= k && hyp.subrange(0, k) == e.committed {
        assert(hyp =~= committed + tail);
        lemma_join_append(committed, tail, sp);
        if tail.len() == 0 {
            assert(join(committed, sp) + t =~= join(committed, sp));
        } else if committed.len() > 0 {
            assert(join(committed, sp) + sp + join(tail, sp) =~= join(committed, sp) + t);
        } else {
            assert(join(committed, sp) =~= Seq::<char>::empty());
            assert(join(committed, sp) + t =~= join(tail, sp));
        }
    }
}

/// The law on the texts the wrapper shows: when the committed words and the
/// hypothesis' words are non-empty and space-free, and the hypothesis' first words
/// read as the committed text, then the committed text plus the committed edit plus
/// the tail reads as the hypothesis, the committed text grows by exactly the committed
/// edit and never shrinks, and observing the same hypothesis again commits all of it.
pub proof fn lemma_preview_shows_hypothesis_text(e: EngineView, hyp: Seq<Seq<char>>)
    requires
        spaceless_words(e.committed),
        spaceless_words(hyp),
        hyp.len() >= e.committed.len(),
        join(hyp.subrange(0, e.committed.len() as int), seq![' ']) == join(e.committed, seq![' ']),
    ensures
        join(e.committed, seq![' ']) + observe_spec(e, hyp).1 + observe_spec(e, hyp).2 == join(
            hyp,
            seq![' '],
        ),
        join(observe_spec(e, hyp).0.committed, seq![' ']) == join(e.committed, seq![' '])
            + observe_spec(e, hyp).1,
        observe_spec(e, hyp).0.committed.len() >= e.committed.len(),
        join(observe_spec(observe_spec(e, hyp).0, hyp).0.committed, seq![' ']) == join(
            hyp,
            seq![' '],
        ),
{
    let k = e.committed.len() as int;
    let pre = hyp.subrange(0, k);
    assert forall|i: int| 0 <= i < pre.len() implies #[trigger] pre[i].len() > 0 by {
        assert(pre[i] == hyp[i]);
    }
    assert forall|i: int, m: int| 0 <= i < pre.len() && 0 <= m < pre[i].len() implies #[trigger] pre[i][m]
        != ' ' by {
        assert(pre[i] == hyp[i]);
    }
    lemma_join_injective(pre, e.committed);
    lemma_preview_is_hypothesis(e, hyp);
    lemma_committed_never_retracts(e, hyp);
    // The first observation commits a prefix of the hypothesis; the second commits the rest.
    let a = newly_agreed(e.prev, hyp, k) as int;
    if hyp.len() > k {
        lemma_agree_bound(
            if k <= e.prev.len() { e.prev.subrange(k, e.prev.len() as int) } else { Seq::empty() },
            hyp.subrange(k, hyp.len() as int),
        );
    }
    let e1 = observe_spec(e, hyp).0;
    assert(e1.committed =~= hyp.subrange(0, k + a));
    let k1 = k + a;
    if hyp.len() > k1 {
        lemma_agree_self(hyp.subrange(k1, hyp.len() as int));
    }
    assert(observe_spec(e1, hyp).0.committed =~= hyp);
}

proof fn lemma_agree_bound(a: Seq<Seq<char>>, b: Seq<Seq<char>>)
    ensures
        agree(a, b) <= a.len(),
        agree(a, b) <= b.len(),
    decreases a.len(),
{
    if a.len() > 0 && b.len() > 0 && a[0] == b[0] {
        lemma_agree_bound(a.drop_first(), b.drop_first());
    }
}

impl Default for CommitEngine {
    /// A fresh engine, as [`CommitEngine::new`].
    fn default() -> (e: CommitEngine)
        ensures
            e@.committed.len() == 0,
            e@.prev.len() == 0,
    {
        CommitEngine::new()
    }
}

} // verus!
