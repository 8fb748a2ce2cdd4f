//! Sink registry and the single active delivery sink.
//!
//! The only kind of sink is a wrapper sink (a running `talk-to`). The newest
//! registered wrapper is the active sink; when the active one leaves, the most
//! recently registered still-live wrapper takes over, and there is no active sink
//! only when the last wrapper has gone. An utterance's target is bound when it is
//! triggered and is never silently redirected.

use vstd::prelude::*;

verus! {

/// Identifies a registered wrapper sink.
#[derive(Debug, Clone, Copy, PartialEq, Eq, Hash, Structural)]
pub struct SinkId(pub u64);

/// Where a bound utterance's transcript goes at delivery time.
#[derive(Debug, Clone, Copy, PartialEq, Eq, Structural)]
pub enum Route {
    /// Push to this live wrapper sink.
    Wrapper(SinkId),
    /// The bound wrapper is gone (or nothing was bound): hold for replay.
    Held,
}

/// `s` with every occurrence of `x` removed.
pub open spec fn without(s: Seq<u64>, x: u64) -> Seq<u64>
    decreases s.len(),
{
    if s.len() == 0 {
        s
    } else if s.last() == x {
        without(s.drop_last(), x)
    } else {
        without(s.drop_last(), x).push(s.last())
    }
}

/// Whether `s` is strictly increasing.
pub open spec fn increasing(s: Seq<u64>) -> bool {
    forall|i: int, j: int| 0 <= i < j < s.len() ==> s[i] < s[j]
}

/// The abstract registry: live wrapper ids in registration order, and the active one.
pub ghost struct RegistryView {
    pub live: Seq<u64>,
    pub active: Option<u64>,
    pub next_id: u64,
}

/// Tracks registered wrapper sinks and which single one is active.
#[derive(Debug)]
pub struct SinkRegistry {
    live: Vec<u64>,
    active: Option<u64>,
    next_id: u64,
}

impl View for SinkRegistry {
    type V = RegistryView;

    closed spec fn view(&self) -> RegistryView {
        RegistryView { live: self.live@, active: self.active, next_id: self.next_id }
    }
}

/// The active sink is always the newest live wrapper (none when no wrapper is live).
pub open spec fn newest(live: Seq<u64>) -> Option<u64> {
    if live.len() > 0 {
        Some(live.last())
    } else {
        None
    }
}

impl SinkRegistry {
    /// Registration order is strictly increasing and below the next id to hand out,
    /// and the active sink is the newest live wrapper.
    pub open spec fn wf(self) -> bool {
        &&& increasing(self@.live)
        &&& forall|i: int| 0 <= i < self@.live.len() ==> self@.live[i] < self@.next_id
        &&& self@.active == newest(self@.live)
    }

    /// A fresh registry with no wrapper and so no active sink.
    pub fn new() -> (r: SinkRegistry)
        ensures
            r.wf(),
            r@.live == Seq::<u64>::empty(),
            r@.active is None,
    {
        SinkRegistry { live: Vec::new(), active: None, next_id: 0 }
    }

    /// Whether another wrapper sink can be given an id.
    pub fn can_register(&self) -> (b: bool)
        ensures
            b == (self@.next_id < u64::MAX),
    {
        self.next_id < u64::MAX
    }

    /// Register a new wrapper sink; it becomes the active sink.
    pub fn register(&mut self) -> (id: SinkId)
        requires
            old(self).wf(),
            old(self)@.next_id < u64::MAX,
        ensures
            final(self).wf(),
            id.0 == old(self)@.next_id,
            final(self)@.live == old(self)@.live.push(id.0),
            final(self)@.active == Some(id.0),
            final(self)@.next_id == old(self)@.next_id + 1,
            !old(self)@.live.contains(id.0),
    {
        let id = self.next_id;
        self.next_id = self.next_id + 1;
        self.live.push(id);
        self.active = Some(id);
        SinkId(id)
    }

    /// Deregister a wrapper sink. If it was the active sink, the newest still-live
    /// wrapper takes over; otherwise the active sink is untouched.
    pub fn deregister(&mut self, id: SinkId)
        requires
            old(self).wf(),
        ensures
            final(self).wf(),
            final(self)@.live == without(old(self)@.live, id.0),
            final(self)@.next_id == old(self)@.next_id,
            old(self)@.active != Some(id.0) ==> final(self)@.active == old(self)@.active,
            old(self)@.active == Some(id.0) ==> final(self)@.active == newest(final(self)@.live),
    {
        let mut kept: Vec<u64> = Vec::new();
        let mut i: usize = 0;
        while i < self.live.len()
            invariant
                i <= self.live@.len(),
                kept@ == without(self.live@.subrange(0, i as int), id.0),
                forall|k: int| 0 <= k < kept@.len() ==> exists|m: int| 0 <= m < i && #[trigger] kept@[k] == self.live@[m],
            decreases self.live@.len() - i,
        {
            let ghost pre = self.live@.subrange(0, i as int);
            assert(self.live@.subrange(0, i + 1).drop_last() =~= pre);
            let x = self.live[i];
            if x != id.0 {
                kept.push(x);
                proof {
                    assert forall|k: int| 0 <= k < kept@.len() implies exists|m: int| 0 <= m < i + 1 && #[trigger] kept@[k] == self.live@[m] by {
                        if k == kept@.len() - 1 {
                            assert(kept@[k] == self.live@[i as int]);
                        } else {
                            let m = choose|m: int| 0 <= m < i && kept@[k] == self.live@[m];
                            assert(kept@[k] == self.live@[m]);
                        }
                    }
                }
            }
            i += 1;
        }
        assert(self.live@.subrange(0, self.live@.len() as int) =~= self.live@);
        proof {
            lemma_without_increasing(self.live@, id.0);
        }
        let was_active = match self.active {
            Some(a) => a == id.0,
            None => false,
        };
        let new_active = if was_active {
            if kept.len() > 0 {
                Some(kept[kept.len() - 1])
            } else {
                None
            }
        } else {
            self.active
        };
        proof {
            if !was_active && self.active.is_some() {
                lemma_without_keeps_last(self.live@, id.0);
            }
        }
        self.live = kept;
        self.active = new_active;
    }

    /// The sink active right now, or `None` when no wrapper is registered.
    pub fn active(&self) -> (r: Option<SinkId>)
        ensures
            r matches Some(s) ==> self@.active == Some(s.0),
            r is None ==> self@.active is None,
    {
        match self.active {
            Some(a) => Some(SinkId(a)),
            None => None,
        }
    }

    /// How many wrapper sinks are registered.
    pub fn wrapper_count(&self) -> (n: usize)
        ensures
            n == self@.live.len(),
    {
        self.live.len()
    }

    /// Whether this wrapper sink is still registered.
    pub fn is_live(&self, id: SinkId) -> (b: bool)
        ensures
            b == self@.live.contains(id.0),
    {
        let mut i: usize = 0;
        while i < self.live.len()
            invariant
                i <= self.live@.len(),
                forall|k: int| 0 <= k < i ==> self.live@[k] != id.0,
            decreases self.live@.len() - i,
        {
            if self.live[i] == id.0 {
                return true;
            }
            i += 1;
        }
        false
    }

    /// Route a transcript whose target was bound at trigger time: to that wrapper if
    /// it is still live, otherwise held — never redirected to whatever is active now.
    pub fn route(&self, bound: Option<SinkId>) -> (r: Route)
        ensures
            r == (match bound {
                Some(id) => if self@.live.contains(id.0) {
                    Route::Wrapper(id)
                } else {
                    Route::Held
                },
                None => Route::Held,
            }),
    {
        match bound {
            Some(id) => if self.is_live(id) {
                Route::Wrapper(id)
            } else {
                Route::Held
            },
            None => Route::Held,
        }
    }
}

proof fn lemma_without_subseq(s: Seq<u64>, x: u64)
    ensures
        forall|k: int| 0 <= k < without(s, x).len() ==> exists|m: int| 0 <= m < s.len() && #[trigger] without(s, x)[k] == s[m],
        forall|k: int| 0 <= k < without(s, x).len() ==> without(s, x)[k] != x,
        forall|m: int| 0 <= m < s.len() && s[m] != x ==> without(s, x).contains(#[trigger] s[m]),
        without(s, x).len() <= s.len(),
    decreases s.len(),
{
    if s.len() > 0 {
        let t = s.drop_last();
        lemma_without_subseq(t, x);
        let w = without(t, x);
        assert forall|k: int| 0 <= k < without(s, x).len() implies exists|m: int| 0 <= m < s.len() && #[trigger] without(s, x)[k] == s[m] by {
            if k < w.len() {
                let m = choose|m: int| 0 <= m < t.len() && w[k] == t[m];
                assert(without(s, x)[k] == s[m]);
            } else {
                assert(without(s, x)[k] == s[s.len() - 1]);
            }
        }
        assert forall|m: int| 0 <= m < s.len() && s[m] != x implies without(s, x).contains(#[trigger] s[m]) by {
            if m < t.len() {
                assert(t[m] == s[m]);
                assert(w.contains(t[m]));
                let k = choose|k: int| 0 <= k < w.len() && w[k] == t[m];
                if s.last() != x {
                    assert(without(s, x)[k] == w[k]);
                }
            } else {
                assert(without(s, x)[w.len() as int] == s[m]);
            }
        }
    }
}

proof fn lemma_without_increasing(s: Seq<u64>, x: u64)
    requires
        increasing(s),
    ensures
        increasing(without(s, x)),
    decreases s.len(),
{
    if s.len() > 0 {
        let t = s.drop_last();
        lemma_without_increasing(t, x);
        lemma_without_subseq(t, x);
        let w = without(t, x);
        if s.last() != x {
            assert forall|i: int, j: int| 0 <= i < j < w.len() + 1 implies #[trigger] w.push(s.last())[i] < #[trigger] w.push(s.last())[j] by {
                if j == w.len() {
                    let m = choose|m: int| 0 <= m < t.len() && w[i] == t[m];
                    assert(w.push(s.last())[i] == s[m]);
                }
            }
        }
    }
}

proof fn lemma_without_keeps_last(s: Seq<u64>, x: u64)
    requires
        s.len() > 0,
        s.last() != x,
    ensures
        newest(without(s, x)) == Some(s.last()),
{
}

/// Register-then-deregister of the same wrapper restores the live list and the
/// active sink that were there before.
pub proof fn lemma_register_deregister_restores(live: Seq<u64>, id: u64)
    requires
        !live.contains(id),
    ensures
        without(live.push(id), id) == live,
        newest(without(live.push(id), id)) == newest(live),
    decreases live.len(),
{
    assert(live.push(id).drop_last() =~= live);
    lemma_without_absent(live, id);
}

proof fn lemma_without_absent(s: Seq<u64>, x: u64)
    requires
        !s.contains(x),
    ensures
        without(s, x) == s,
    decreases s.len(),
{
    if s.len() > 0 {
        let t = s.drop_last();
        assert(!t.contains(x)) by {
            if t.contains(x) {
                let k = choose|k: int| 0 <= k < t.len() && t[k] == x;
                assert(s[k] == x);
            }
        }
        lemma_without_absent(t, x);
        assert(s.last() != x) by {
            assert(s[s.len() - 1] == s.last());
        }
        assert(t.push(s.last()) =~= s);
    }
}

/// An operation on the registry, as its methods perform it.
pub ghost enum RegistryOp {
    Register,
    Deregister(u64),
}

/// The registry after one operation, with the id `register` hands out.
pub open spec fn registry_step(r: RegistryView, op: RegistryOp) -> (RegistryView, Option<u64>) {
    match op {
        RegistryOp::Register => (
            RegistryView {
                live: r.live.push(r.next_id),
                active: Some(r.next_id),
                next_id: (r.next_id + 1) as u64,
            },
            Some(r.next_id),
        ),
        RegistryOp::Deregister(id) => {
            let live = without(r.live, id);
            (
                RegistryView {
                    live,
                    active: if r.active == Some(id) { newest(live) } else { r.active },
                    next_id: r.next_id,
                },
                None,
            )
        },
    }
}

/// The registry after `ops` in turn, and the ids handed out along the way.
pub open spec fn registry_run(r: RegistryView, ops: Seq<RegistryOp>) -> (RegistryView, Seq<u64>)
    decreases ops.len(),
{
    if ops.len() == 0 {
        (r, Seq::empty())
    } else {
        let (r1, x) = registry_step(r, ops[0]);
        let (rn, xs) = registry_run(r1, ops.drop_first());
        (
            rn,
            match x {
                Some(id) => seq![id] + xs,
                None => xs,
            },
        )
    }
}

/// Wrapper ids are fresh: over any run of registrations and deregistrations, the ids
/// handed out strictly increase, none is below the next id before the run (so none
/// equals an id handed out earlier, live or gone), and each is below the next id
/// after it.
pub proof fn lemma_sink_ids_fresh(r: RegistryView, ops: Seq<RegistryOp>)
    requires
        r.next_id + ops.len() <= u64::MAX,
    ensures
        forall|i: int, j: int|
            0 <= i < j < registry_run(r, ops).1.len() ==> registry_run(r, ops).1[i] < registry_run(
                r,
                ops,
            ).1[j],
        forall|i: int|
            0 <= i < registry_run(r, ops).1.len() ==> r.next_id <= #[trigger] registry_run(r, ops).1[i]
                < registry_run(r, ops).0.next_id,
        r.next_id <= registry_run(r, ops).0.next_id,
    decreases ops.len(),
{
    if ops.len() > 0 {
        let (r1, x) = registry_step(r, ops[0]);
        lemma_sink_ids_fresh(r1, ops.drop_first());
        let xs = registry_run(r1, ops.drop_first()).1;
        if let Some(n) = x {
            let all = seq![n] + xs;
            assert forall|i: int| 0 <= i < all.len() implies r.next_id <= #[trigger] all[i]
                < registry_run(r, ops).0.next_id by {
                if i > 0 {
                    assert(all[i] == xs[i - 1]);
                }
            }
            assert forall|i: int, j: int| 0 <= i < j < all.len() implies all[i] < all[j] by {
                assert(all[j] == xs[j - 1]);
                if i > 0 {
                    assert(all[i] == xs[i - 1]);
                }
            }
        }
    }
}

impl Default for SinkRegistry {
    /// A fresh registry, as [`SinkRegistry::new`].
    fn default() -> (r: SinkRegistry)
        ensures
            r.wf(),
            r@.live == Seq::<u64>::empty(),
            r@.active is None,
    {
        SinkRegistry::new()
    }
}

} // verus!
