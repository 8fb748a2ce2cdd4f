//! Ordered delivery queue: utterances are delivered in strict record order. The head
//! must reach a terminal state before the next may type; a ready later utterance
//! never jumps ahead of a pending earlier one.

use vstd::prelude::*;
use std::collections::VecDeque;

verus! {

#[derive(Debug, Clone, PartialEq, Eq)]
enum ItemState {
    /// Recording or transcribing — not yet ready.
    Pending,
    /// Transcript ready, awaiting its turn to type.
    Ready(String),
}

#[derive(Debug, Clone)]
struct Item {
    seq: u64,
    state: ItemState,
}

/// One queued utterance: its sequence number and its transcript once ready.
pub ghost struct Utterance {
    pub seq: u64,
    pub transcript: Option<Seq<char>>,
}

impl Item {
    spec fn view(self) -> Utterance {
        Utterance {
            seq: self.seq,
            transcript: match self.state {
                ItemState::Pending => None,
                ItemState::Ready(t) => Some(t@),
            },
        }
    }
}

/// A FIFO of utterances delivered in strict record order.
#[derive(Debug)]
pub struct DeliveryQueue {
    items: VecDeque<Item>,
    next_seq: u64,
}

/// The abstract queue: the utterances in record order and the next sequence number.
pub ghost struct QueueView {
    pub items: Seq<Utterance>,
    pub next_seq: u64,
}

impl View for DeliveryQueue {
    type V = QueueView;

    closed spec fn view(&self) -> QueueView {
        QueueView { items: self.items@.map_values(|i: Item| i.view()), next_seq: self.next_seq }
    }
}

/// `items` with every utterance numbered `seq` removed.
pub open spec fn remove_seq(items: Seq<Utterance>, seq: u64) -> Seq<Utterance> {
    items.filter(|u: Utterance| u.seq != seq)
}

/// `items` with the utterance numbered `seq` (if any) marked ready with `t`.
pub open spec fn mark_ready(items: Seq<Utterance>, seq: u64, t: Seq<char>) -> Seq<Utterance> {
    items.map_values(
        |u: Utterance|
            if u.seq == seq {
                Utterance { seq, transcript: Some(t) }
            } else {
                u
            },
    )
}

impl DeliveryQueue {
    /// Sequence numbers are strictly increasing (record order) and below `next_seq`.
    pub open spec fn wf(self) -> bool {
        &&& forall|i: int, j: int|
            0 <= i < j < self@.items.len() ==> self@.items[i].seq < self@.items[j].seq
        &&& forall|i: int| 0 <= i < self@.items.len() ==> self@.items[i].seq < self@.next_seq
    }

    /// An empty queue.
    pub fn new() -> (q: DeliveryQueue)
        ensures
            q.wf(),
            q@.items == Seq::<Utterance>::empty(),
            q@.next_seq == 0,
    {
        let q = DeliveryQueue { items: VecDeque::new(), next_seq: 0 };
        assert(q@.items =~= Seq::<Utterance>::empty());
        q
    }

    /// Whether another utterance can be numbered.
    pub fn can_enqueue(&self) -> (b: bool)
        ensures
            b == (self@.next_seq < u64::MAX),
    {
        self.next_seq < u64::MAX
    }

    /// Enqueue a new pending utterance, returning its sequence number.
    pub fn enqueue(&mut self) -> (seq: u64)
        requires
            old(self).wf(),
            old(self)@.next_seq < u64::MAX,
        ensures
            final(self).wf(),
            seq == old(self)@.next_seq,
            final(self)@.next_seq == seq + 1,
            final(self)@.items == old(self)@.items.push(Utterance { seq, transcript: None }),
    {
        let seq = self.next_seq;
        self.next_seq = self.next_seq + 1;
        self.items.push_back(Item { seq, state: ItemState::Pending });
        assert(self@.items =~= old(self)@.items.push(Utterance { seq, transcript: None }));
        seq
    }

    /// Mark an utterance's transcript ready (no effect if it is not queued).
    pub fn set_ready(&mut self, seq: u64, transcript: String)
        requires
            old(self).wf(),
        ensures
            final(self).wf(),
            final(self)@.next_seq == old(self)@.next_seq,
            final(self)@.items == mark_ready(old(self)@.items, seq, transcript@),
    {
        let ghost before = self@.items;
        let ghost t = transcript@;
        let mut rebuilt: VecDeque<Item> = VecDeque::new();
        let mut pending = Some(transcript);
        let ghost mut i: int = 0;
        while self.items.len() > 0
            invariant
                0 <= i <= before.len(),
                self@.items == before.subrange(i, before.len() as int),
                self@.next_seq == old(self)@.next_seq,
                rebuilt@.map_values(|it: Item| it.view()) == mark_ready(before.subrange(0, i), seq, t),
                pending matches Some(p) ==> p@ == t,
                pending is None ==> exists|k: int| 0 <= k < i && before[k].seq == seq,
                forall|a: int, b: int| 0 <= a < b < before.len() ==> before[a].seq < before[b].seq,
            decreases before.len() - i,
        {
            assert(self@.items.len() == self.items@.len());
            assert(i < before.len());
            let ghost old_items = self.items@;
            assert(self@.items[0] == before[i]);
            assert(self@.items[0] == old_items[0].view());
            let item = match self.items.pop_front() {
                Some(it) => it,
                None => {
                    assert(false);
                    return;
                },
            };
            assert(item.view() == before[i]);
            assert(self.items@ =~= old_items.drop_first());
            assert forall|k: int| 0 <= k < self@.items.len() implies #[trigger] self@.items[k] == before[i + 1 + k] by {
                assert(self@.items[k] == self.items@[k].view());
                assert(self.items@[k] == old_items[k + 1]);
                assert(old_items.map_values(|x: Item| x.view())[k + 1] == old_items[k + 1].view());
                assert(before.subrange(i, before.len() as int)[k + 1] == before[i + 1 + k]);
            }
            assert(self@.items =~= before.subrange(i + 1, before.len() as int));
            let out = if item.seq == seq {
                match pending.take() {
                    Some(p) => Item { seq, state: ItemState::Ready(p) },
                    None => {
                        proof {
                            let k = choose|k: int| 0 <= k < i && before[k].seq == seq;
                            assert(before[k].seq < before[i].seq);
                        }
                        item
                    },
                }
            } else {
                item
            };
            let ghost rb = rebuilt@;
            rebuilt.push_back(out);
            proof {
                assert(rebuilt@ =~= rb.push(out));
                assert(rebuilt@.map_values(|it: Item| it.view()) =~= rb.map_values(|it: Item| it.view()).push(out.view()));
                assert(before.subrange(0, i + 1).drop_last() =~= before.subrange(0, i));
                assert(rebuilt@.map_values(|it: Item| it.view()) =~= mark_ready(before.subrange(0, i + 1), seq, t));
                assert(self@.items =~= before.subrange(i + 1, before.len() as int));
                i = i + 1;
            }
        }
        assert(before.subrange(0, i) =~= before);
        self.items = rebuilt;
    }

    /// Resolve an utterance terminally (typed, dropped, or held): remove it so the
    /// next can advance.
    pub fn resolve(&mut self, seq: u64)
        requires
            old(self).wf(),
        ensures
            final(self).wf(),
            final(self)@.next_seq == old(self)@.next_seq,
            final(self)@.items == remove_seq(old(self)@.items, seq),
    {
        let ghost before = self@.items;
        let mut rebuilt: VecDeque<Item> = VecDeque::new();
        let ghost mut i: int = 0;
        while self.items.len() > 0
            invariant
                0 <= i <= before.len(),
                self@.items == before.subrange(i, before.len() as int),
                self@.next_seq == old(self)@.next_seq,
                rebuilt@.map_values(|it: Item| it.view()) == remove_seq(before.subrange(0, i), seq),
                forall|a: int, b: int| 0 <= a < b < before.len() ==> before[a].seq < before[b].seq,
                forall|a: int| 0 <= a < before.len() ==> before[a].seq < self@.next_seq,
            decreases before.len() - i,
        {
            assert(self@.items.len() == self.items@.len());
            assert(i < before.len());
            let ghost old_items = self.items@;
            assert(self@.items[0] == before[i]);
            assert(self@.items[0] == old_items[0].view());
            let item = match self.items.pop_front() {
                Some(it) => it,
                None => {
                    assert(false);
                    return;
                },
            };
            assert(item.view() == before[i]);
            assert(self.items@ =~= old_items.drop_first());
            assert forall|k: int| 0 <= k < self@.items.len() implies #[trigger] self@.items[k] == before[i + 1 + k] by {
                assert(self@.items[k] == self.items@[k].view());
                assert(self.items@[k] == old_items[k + 1]);
                assert(old_items.map_values(|x: Item| x.view())[k + 1] == old_items[k + 1].view());
                assert(before.subrange(i, before.len() as int)[k + 1] == before[i + 1 + k]);
            }
            assert(self@.items =~= before.subrange(i + 1, before.len() as int));
            assert(before.subrange(0, i + 1).drop_last() =~= before.subrange(0, i));
            reveal(Seq::filter);
            if item.seq != seq {
                rebuilt.push_back(item);
            }
            proof {
                assert(rebuilt@.map_values(|it: Item| it.view()) =~= remove_seq(before.subrange(0, i + 1), seq));
                assert(self@.items =~= before.subrange(i + 1, before.len() as int));
                i = i + 1;
            }
        }
        assert(before.subrange(0, i) =~= before);
        self.items = rebuilt;
        proof {
            lemma_filter_keeps_order(before, seq);
        }
    }

    /// The head utterance ready to type now, or `None` if the head is still pending
    /// (strict order — never skip ahead) or the queue is empty.
    pub fn next_to_type(&self) -> (r: Option<(u64, &str)>)
        ensures
            r matches Some((s, t)) ==> self@.items.len() > 0 && self@.items[0].seq == s
                && self@.items[0].transcript == Some(t@),
            r is None ==> self@.items.len() == 0 || self@.items[0].transcript is None,
    {
        if self.items.len() == 0 {
            return None;
        }
        let head = &self.items[0];
        assert(head.view() == self@.items[0]);
        match &head.state {
            ItemState::Ready(transcript) => Some((head.seq, transcript.as_str())),
            ItemState::Pending => None,
        }
    }

    /// Whether nothing is queued.
    pub fn is_empty(&self) -> (b: bool)
        ensures
            b == (self@.items.len() == 0),
    {
        self.items.len() == 0
    }
}

proof fn lemma_filter_keeps_order(items: Seq<Utterance>, seq: u64)
    requires
        forall|a: int, b: int| 0 <= a < b < items.len() ==> items[a].seq < items[b].seq,
    ensures
        forall|a: int, b: int| 0 <= a < b < remove_seq(items, seq).len() ==> remove_seq(items, seq)[a].seq < remove_seq(items, seq)[b].seq,
        forall|a: int| 0 <= a < remove_seq(items, seq).len() ==> exists|m: int| 0 <= m < items.len() && #[trigger] remove_seq(items, seq)[a] == items[m],
    decreases items.len(),
{
    reveal(Seq::filter);
    if items.len() > 0 {
        let t = items.drop_last();
        lemma_filter_keeps_order(t, seq);
        let r = remove_seq(t, seq);
        assert forall|a: int| 0 <= a < remove_seq(items, seq).len() implies exists|m: int| 0 <= m < items.len() && #[trigger] remove_seq(items, seq)[a] == items[m] by {
            if a < r.len() {
                let m = choose|m: int| 0 <= m < t.len() && r[a] == t[m];
                assert(remove_seq(items, seq)[a] == items[m]);
            } else {
                assert(remove_seq(items, seq)[a] == items[items.len() - 1]);
            }
        }
        assert forall|a: int, b: int| 0 <= a < b < remove_seq(items, seq).len() implies remove_seq(items, seq)[a].seq < remove_seq(items, seq)[b].seq by {
            if b == r.len() {
                let m = choose|m: int| 0 <= m < t.len() && r[a] == t[m];
                assert(remove_seq(items, seq)[a] == items[m]);
            }
        }
    }
}

/// Delivery follows record order: whenever the queue offers an utterance to type, it
/// is the oldest one still queued.
pub proof fn lemma_next_is_oldest(q: QueueView, k: int)
    requires
        forall|i: int, j: int| 0 <= i < j < q.items.len() ==> q.items[i].seq < q.items[j].seq,
        q.items.len() > 0,
        0 <= k < q.items.len(),
    ensures
        q.items[0].seq <= q.items[k].seq,
{
}

/// An operation on the queue, as its methods perform it.
pub ghost enum QueueOp {
    Enqueue,
    SetReady(u64, Seq<char>),
    Resolve(u64),
}

/// The queue after one operation, with the number `enqueue` hands out.
pub open spec fn queue_step(q: QueueView, op: QueueOp) -> (QueueView, Option<u64>) {
    match op {
        QueueOp::Enqueue => (
            QueueView {
                items: q.items.push(Utterance { seq: q.next_seq, transcript: None }),
                next_seq: (q.next_seq + 1) as u64,
            },
            Some(q.next_seq),
        ),
        QueueOp::SetReady(seq, t) => (QueueView { items: mark_ready(q.items, seq, t), ..q }, None),
        QueueOp::Resolve(seq) => (QueueView { items: remove_seq(q.items, seq), ..q }, None),
    }
}

/// The queue after `ops` in turn, and the numbers handed out along the way.
pub open spec fn queue_run(q: QueueView, ops: Seq<QueueOp>) -> (QueueView, Seq<u64>)
    decreases ops.len(),
{
    if ops.len() == 0 {
        (q, Seq::empty())
    } else {
        let (q1, r) = queue_step(q, ops[0]);
        let (qn, rs) = queue_run(q1, ops.drop_first());
        (
            qn,
            match r {
                Some(n) => seq![n] + rs,
                None => rs,
            },
        )
    }
}

/// Sequence numbers are fresh: over any run of operations, the numbers handed out
/// strictly increase, none is below the next number before the run (so none equals a
/// number handed out earlier, resolved or not), and each is below the next number
/// after it.
pub proof fn lemma_sequence_numbers_fresh(q: QueueView, ops: Seq<QueueOp>)
    requires
        q.next_seq + ops.len() <= u64::MAX,
    ensures
        forall|i: int, j: int|
            0 <= i < j < queue_run(q, ops).1.len() ==> queue_run(q, ops).1[i] < queue_run(q, ops).1[j],
        forall|i: int|
            0 <= i < queue_run(q, ops).1.len() ==> q.next_seq <= #[trigger] queue_run(q, ops).1[i]
                < queue_run(q, ops).0.next_seq,
        q.next_seq <= queue_run(q, ops).0.next_seq,
    decreases ops.len(),
{
    if ops.len() > 0 {
        let (q1, r) = queue_step(q, ops[0]);
        lemma_sequence_numbers_fresh(q1, ops.drop_first());
        let rs = queue_run(q1, ops.drop_first()).1;
        if let Some(n) = r {
            let all = seq![n] + rs;
            assert forall|i: int| 0 <= i < all.len() implies q.next_seq <= #[trigger] all[i]
                < queue_run(q, ops).0.next_seq by {
                if i > 0 {
                    assert(all[i] == rs[i - 1]);
                }
            }
            assert forall|i: int, j: int| 0 <= i < j < all.len() implies all[i] < all[j] by {
                assert(all[j] == rs[j - 1]);
                if i > 0 {
                    assert(all[i] == rs[i - 1]);
                }
            }
        }
    }
}

impl Default for DeliveryQueue {
    /// An empty queue, as [`DeliveryQueue::new`].
    fn default() -> (q: DeliveryQueue)
        ensures
            q.wf(),
            q@.items == Seq::<Utterance>::empty(),
            q@.next_seq == 0,
    {
        DeliveryQueue::new()
    }
}

} // verus!
