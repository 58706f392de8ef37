//! The fan-out primitive: a registry of subscribers, each with a bounded
//! delivery queue. A broadcast appends one independently owned copy of the
//! summary to every registered queue, in registry order; a subscriber whose
//! queue is already full cannot keep up and is dropped rather than fed a
//! backlog of outdated summaries.

use vstd::prelude::*;

use crate::book::{copy_summary, Summary, SummaryV};

verus! {

/// One registered subscriber: its handle and its pending deliveries, oldest
/// first.
pub struct Subscriber {
    pub id: u64,
    pub queue: Vec<Summary>,
}

/// Mathematical value of a [`Subscriber`].
#[verifier::ext_equal]
pub struct SubscriberV {
    pub id: u64,
    pub queue: Seq<SummaryV>,
}

impl View for Subscriber {
    type V = SubscriberV;

    open spec fn view(&self) -> SubscriberV {
        SubscriberV { id: self.id, queue: self.queue@.map_values(|s: Summary| s@) }
    }
}

/// The values of an optional summary.
pub open spec fn opt_summary_view(o: Option<Summary>) -> Option<SummaryV> {
    match o {
        Option::Some(s) => Option::Some(s@),
        Option::None => Option::None,
    }
}

/// The values of a registry.
pub open spec fn subs_view(v: Seq<Subscriber>) -> Seq<SubscriberV> {
    v.map_values(|s: Subscriber| s@)
}

/// The subscriber registry. Handles are issued in increasing order and never
/// reused; every queue is bounded by `capacity`.
pub struct Distributor {
    pub subs: Vec<Subscriber>,
    pub next_id: u64,
    pub capacity: usize,
}

/// Mathematical value of a [`Distributor`].
#[verifier::ext_equal]
pub struct DistributorV {
    pub subs: Seq<SubscriberV>,
    pub next_id: u64,
    pub capacity: usize,
}

impl View for Distributor {
    type V = DistributorV;

    open spec fn view(&self) -> DistributorV {
        DistributorV {
            subs: subs_view(self.subs@),
            next_id: self.next_id,
            capacity: self.capacity,
        }
    }
}

impl DistributorV {
    /// The registry invariant: distinct handles, all below the next handle to
    /// be issued, and no queue over capacity.
    pub open spec fn wf(self) -> bool {
        &&& self.capacity >= 1
        &&& forall|i: int, j: int|
            #![trigger self.subs[i].id, self.subs[j].id]
            0 <= i < j < self.subs.len() ==> self.subs[i].id != self.subs[j].id
        &&& forall|i: int| 0 <= i < self.subs.len() ==> #[trigger] self.subs[i].id < self.next_id
        &&& forall|i: int|
            0 <= i < self.subs.len() ==> #[trigger] self.subs[i].queue.len() <= self.capacity
    }
}

/// One broadcast over the registry: every subscriber with room in its queue
/// keeps its place, in order, with the summary appended; every subscriber
/// whose queue is already full is dropped.
pub open spec fn deliver_all(subs: Seq<SubscriberV>, capacity: int, s: SummaryV) -> Seq<
    SubscriberV,
>
    decreases subs.len(),
{
    if subs.len() == 0 {
        Seq::empty()
    } else {
        let rest = deliver_all(subs.drop_first(), capacity, s);
        if subs[0].queue.len() < capacity {
            seq![SubscriberV { id: subs[0].id, queue: subs[0].queue.push(s) }] + rest
        } else {
            rest
        }
    }
}

/// Fan-out law: a broadcast delivers the summary once to every registered
/// subscriber that has room in its queue, and everything it leaves behind is
/// exactly such a subscriber with that one copy appended; subscribers whose
/// queues are full are dropped.
pub proof fn lemma_broadcast_fanout(subs: Seq<SubscriberV>, capacity: int, s: SummaryV)
    ensures
        forall|j: int|
            0 <= j < subs.len() && #[trigger] subs[j].queue.len() < capacity ==> deliver_all(
                subs,
                capacity,
                s,
            ).contains((SubscriberV { id: subs[j].id, queue: subs[j].queue.push(s) })),
        forall|k: int|
            0 <= k < deliver_all(subs, capacity, s).len() ==> exists|j: int|
                0 <= j < subs.len() && subs[j].queue.len() < capacity && #[trigger] deliver_all(
                    subs,
                    capacity,
                    s,
                )[k] == (SubscriberV { id: subs[j].id, queue: subs[j].queue.push(s) }),
    decreases subs.len(),
{
    if subs.len() == 0 {
    } else {
        let subs2 = subs.drop_first();
        lemma_broadcast_fanout(subs2, capacity, s);
        let rest = deliver_all(subs2, capacity, s);
        let m = deliver_all(subs, capacity, s);
        let off: int = if subs[0].queue.len() < capacity {
            1
        } else {
            0
        };
        assert forall|j: int| 0 <= j < subs.len() && #[trigger] subs[j].queue.len() < capacity
            implies m.contains(
            (SubscriberV { id: subs[j].id, queue: subs[j].queue.push(s) }),
        ) by {
            if j == 0 {
                assert(m[0] == (SubscriberV { id: subs[0].id, queue: subs[0].queue.push(s) }));
            } else {
                assert(subs2[j - 1] == subs[j]);
                let e = (SubscriberV { id: subs[j].id, queue: subs[j].queue.push(s) });
                assert(rest.contains(e));
                let k = choose|k: int| 0 <= k < rest.len() && rest[k] == e;
                assert(m[k + off] == e);
            }
        }
        assert forall|k: int| 0 <= k < m.len() implies exists|j: int|
            0 <= j < subs.len() && subs[j].queue.len() < capacity && #[trigger] m[k]
                == (SubscriberV { id: subs[j].id, queue: subs[j].queue.push(s) }) by {
            if off == 1 && k == 0 {
                assert(m[0] == (SubscriberV { id: subs[0].id, queue: subs[0].queue.push(s) }));
                assert(subs[0].queue.len() < capacity);
            } else {
                assert(m[k] == rest[k - off]);
                let j = choose|j: int|
                    0 <= j < subs2.len() && subs2[j].queue.len() < capacity && rest[k - off]
                        == (SubscriberV { id: subs2[j].id, queue: subs2[j].queue.push(s) });
                assert(subs2[j] == subs[j + 1]);
                assert(m[k] == (SubscriberV {
                    id: subs[j + 1].id,
                    queue: subs[j + 1].queue.push(s),
                }));
            }
        }
    }
}

proof fn lemma_deliver_all_distinct(subs: Seq<SubscriberV>, capacity: int, s: SummaryV)
    requires
        forall|i: int, j: int|
            #![trigger subs[i].id, subs[j].id]
            0 <= i < j < subs.len() ==> subs[i].id != subs[j].id,
    ensures
        forall|i: int, j: int|
            #![trigger deliver_all(subs, capacity, s)[i].id, deliver_all(subs, capacity, s)[j].id]
            0 <= i < j < deliver_all(subs, capacity, s).len() ==> deliver_all(subs, capacity, s)[i].id
                != deliver_all(subs, capacity, s)[j].id,
    decreases subs.len(),
{
    if subs.len() == 0 {
    } else {
        let subs2 = subs.drop_first();
        assert forall|i: int, j: int|
            #![trigger subs2[i].id, subs2[j].id]
            0 <= i < j < subs2.len() implies subs2[i].id != subs2[j].id by {
            assert(subs2[i] == subs[i + 1]);
            assert(subs2[j] == subs[j + 1]);
            assert(subs[i + 1].id != subs[j + 1].id);
        }
        lemma_deliver_all_distinct(subs2, capacity, s);
        lemma_broadcast_fanout(subs2, capacity, s);
        let rest = deliver_all(subs2, capacity, s);
        let m = deliver_all(subs, capacity, s);
        if subs[0].queue.len() < capacity {
            assert forall|i: int, j: int|
                #![trigger m[i].id, m[j].id]
                0 <= i < j < m.len() implies m[i].id != m[j].id by {
                if i == 0 {
                    assert(m[j] == rest[j - 1]);
                    let k = choose|k: int|
                        0 <= k < subs2.len() && subs2[k].queue.len() < capacity && rest[j - 1]
                            == (SubscriberV { id: subs2[k].id, queue: subs2[k].queue.push(s) });
                    assert(subs2[k] == subs[k + 1]);
                    assert(subs[0].id != subs[k + 1].id);
                } else {
                    assert(m[i] == rest[i - 1]);
                    assert(m[j] == rest[j - 1]);
                    assert(rest[i - 1].id != rest[j - 1].id);
                }
            }
        } else {
            assert forall|i: int, j: int|
                #![trigger m[i].id, m[j].id]
                0 <= i < j < m.len() implies m[i].id != m[j].id by {
                assert(rest[i].id != rest[j].id);
            }
        }
    }
}

impl Distributor {
    /// A fresh registry with no subscribers. Queues are bounded by the given
    /// capacity: a subscriber that falls that many summaries behind is dropped
    /// at the next broadcast.
    pub fn new(capacity: usize) -> (r: Distributor)
        requires
            capacity >= 1,
        ensures
            r@.subs == Seq::<SubscriberV>::empty(),
            r@.next_id == 0,
            r@.capacity == capacity,
            r@.wf(),
    {
        let r = Distributor { subs: Vec::new(), next_id: 0, capacity };
        proof {
            assert(r@.subs =~= Seq::<SubscriberV>::empty());
        }
        r
    }

    /// Whether a further handle can still be issued; `subscribe` requires it.
    pub fn handles_available(&self) -> (r: bool)
        ensures
            r == (self@.next_id < u64::MAX),
    {
        self.next_id < u64::MAX
    }

    /// Registers a new subscriber with an empty queue and returns its handle.
    /// A subscriber registered after a broadcast does not see that broadcast.
    pub fn subscribe(&mut self) -> (id: u64)
        requires
            old(self)@.wf(),
            old(self)@.next_id < u64::MAX,
        ensures
            final(self)@.wf(),
            id == old(self)@.next_id,
            final(self)@.next_id == old(self)@.next_id + 1,
            final(self)@.capacity == old(self)@.capacity,
            final(self)@.subs == old(self)@.subs.push((SubscriberV { id, queue: Seq::empty() })),
    {
        let id = self.next_id;
        self.next_id = id + 1;
        let sub = Subscriber { id, queue: Vec::new() };
        proof {
            assert(sub@ =~= (SubscriberV { id, queue: Seq::empty() }));
        }
        self.subs.push(sub);
        proof {
            assert(self@.subs =~= old(self)@.subs.push((SubscriberV { id, queue: Seq::empty() })));
        }
        id
    }

    /// Removes the subscriber with the given handle, if it is registered;
    /// every other subscriber keeps its place and its queue.
    pub fn unsubscribe(&mut self, id: u64)
        requires
            old(self)@.wf(),
        ensures
            final(self)@.wf(),
            final(self)@.next_id == old(self)@.next_id,
            final(self)@.capacity == old(self)@.capacity,
            forall|k: int|
                0 <= k < old(self)@.subs.len() && #[trigger] old(self)@.subs[k].id == id ==> final(self)@.subs == old(self)@.subs.remove(k),
            (forall|k: int|
                0 <= k < old(self)@.subs.len() ==> #[trigger] old(self)@.subs[k].id != id) ==> final(self)@.subs == old(self)@.subs,
    {
        let mut i: usize = 0;
        while i < self.subs.len()
            invariant
                old(self)@.wf(),
                *self == *old(self),
                i <= self.subs@.len(),
                forall|k: int| 0 <= k < i ==> #[trigger] self@.subs[k].id != id,
            decreases self.subs@.len() - i,
        {
            if self.subs[i].id == id {
                let ghost found: int = i as int;
                proof {
                    assert(old(self)@.subs[found].id == id);
                    assert forall|k: int|
                        0 <= k < old(self)@.subs.len() && #[trigger] old(self)@.subs[k].id == id
                        implies k == found by {
                        if k < found {
                            assert(old(self)@.subs[k].id != old(self)@.subs[found].id);
                        }
                        if k > found {
                            assert(old(self)@.subs[found].id != old(self)@.subs[k].id);
                        }
                    }
                }
                self.subs.remove(i);
                proof {
                    assert(self@.subs =~= old(self)@.subs.remove(found));
                    let r = old(self)@.subs.remove(found);
                    assert forall|x: int| 0 <= x < r.len() implies #[trigger] r[x] == (if x < found {
                        old(self)@.subs[x]
                    } else {
                        old(self)@.subs[x + 1]
                    }) by {}
                    assert forall|x: int, y: int|
                        #![trigger r[x].id, r[y].id]
                        0 <= x < y < r.len() implies r[x].id != r[y].id by {
                        let x0: int = if x < found {
                            x
                        } else {
                            x + 1
                        };
                        let y0: int = if y < found {
                            y
                        } else {
                            y + 1
                        };
                        assert(old(self)@.subs[x0].id != old(self)@.subs[y0].id);
                    }
                }
                return ;
            }
            i += 1;
        }
    }

    /// Pops the oldest pending summary for the given handle: `None` when the
    /// handle is unknown or its queue is empty; nothing else changes.
    pub fn recv(&mut self, id: u64) -> (r: Option<Summary>)
        requires
            old(self)@.wf(),
        ensures
            final(self)@.wf(),
            final(self)@.next_id == old(self)@.next_id,
            final(self)@.capacity == old(self)@.capacity,
            forall|k: int|
                0 <= k < old(self)@.subs.len() && #[trigger] old(self)@.subs[k].id == id && old(
                    self,
                )@.subs[k].queue.len() > 0 ==> opt_summary_view(r) == Option::Some(
                    old(self)@.subs[k].queue[0],
                ) && final(self)@.subs == old(self)@.subs.update(
                    k,
                    (SubscriberV { id, queue: old(self)@.subs[k].queue.drop_first() }),
                ),
            forall|k: int|
                0 <= k < old(self)@.subs.len() && #[trigger] old(self)@.subs[k].id == id && old(
                    self,
                )@.subs[k].queue.len() == 0 ==> r is None && final(self)@.subs == old(self)@.subs,
            (forall|k: int|
                0 <= k < old(self)@.subs.len() ==> #[trigger] old(self)@.subs[k].id != id) ==> r
                is None && final(self)@.subs == old(self)@.subs,
    {
        let mut i: usize = 0;
        while i < self.subs.len()
            invariant
                old(self)@.wf(),
                *self == *old(self),
                i <= self.subs@.len(),
                forall|k: int| 0 <= k < i ==> #[trigger] self@.subs[k].id != id,
            decreases self.subs@.len() - i,
        {
            if self.subs[i].id == id {
                let ghost found: int = i as int;
                proof {
                    assert(old(self)@.subs[found].id == id);
                    assert forall|k: int|
                        0 <= k < old(self)@.subs.len() && #[trigger] old(self)@.subs[k].id == id
                        implies k == found by {
                        if k < found {
                            assert(old(self)@.subs[k].id != old(self)@.subs[found].id);
                        }
                        if k > found {
                            assert(old(self)@.subs[found].id != old(self)@.subs[k].id);
                        }
                    }
                }
                if self.subs[i].queue.len() == 0 {
                    proof {
                        assert(old(self)@.subs[found].queue.len() == 0);
                    }
                    return None;
                }
                proof {
                    assert(old(self)@.subs[found].queue.len() > 0);
                }
                let mut sub = self.subs.remove(i);
                let first = sub.queue.remove(0);
                proof {
                    assert(sub@.queue =~= old(self)@.subs[found].queue.drop_first());
                    assert(first@ == old(self)@.subs[found].queue[0]);
                }
                self.subs.insert(i, sub);
                proof {
                    assert(self@.subs =~= old(self)@.subs.update(
                        found,
                        (SubscriberV {
                            id,
                            queue: old(self)@.subs[found].queue.drop_first(),
                        }),
                    ));
                }
                return Some(first);
            }
            i += 1;
        }
        None
    }

    /// Delivers one independently owned copy of `summary` to every registered
    /// subscriber with room in its queue, in registry order, and drops every
    /// subscriber whose queue is already full. Delivery is at-most-once per
    /// subscriber per broadcast; a dropped subscriber never blocks the others.
    pub fn broadcast(&mut self, summary: &Summary)
        requires
            old(self)@.wf(),
        ensures
            final(self)@.wf(),
            final(self)@.next_id == old(self)@.next_id,
            final(self)@.capacity == old(self)@.capacity,
            final(self)@.subs == deliver_all(
                old(self)@.subs,
                old(self)@.capacity as int,
                summary@,
            ),
    {
        let ghost sv = summary@;
        let ghost cap = self.capacity as int;
        let ghost orig = self@.subs;
        let mut pending: Vec<Subscriber> = Vec::new();
        core::mem::swap(&mut self.subs, &mut pending);
        proof {
            assert(self@.subs =~= Seq::<SubscriberV>::empty());
            assert(Seq::<SubscriberV>::empty() + deliver_all(orig, cap, sv) =~= deliver_all(
                orig,
                cap,
                sv,
            ));
        }
        while pending.len() > 0
            invariant
                self.next_id == old(self).next_id,
                self.capacity == old(self).capacity,
                cap == self.capacity as int,
                sv == summary@,
                deliver_all(orig, cap, sv) == self@.subs + deliver_all(subs_view(pending@), cap, sv),
            decreases pending@.len(),
        {
            let ghost pv = subs_view(pending@);
            let ghost kept = self@.subs;
            let mut sub = pending.remove(0);
            proof {
                assert(sub@ == pv[0]);
                assert(subs_view(pending@) =~= pv.drop_first());
            }
            if sub.queue.len() < self.capacity {
                sub.queue.push(copy_summary(summary));
                proof {
                    assert(sub@ =~= (SubscriberV { id: pv[0].id, queue: pv[0].queue.push(sv) }));
                }
                self.subs.push(sub);
                proof {
                    assert(self@.subs =~= kept.push(
                        (SubscriberV { id: pv[0].id, queue: pv[0].queue.push(sv) }),
                    ));
                    assert(kept + (seq![
                        (SubscriberV { id: pv[0].id, queue: pv[0].queue.push(sv) }),
                    ] + deliver_all(pv.drop_first(), cap, sv)) =~= kept.push(
                        (SubscriberV { id: pv[0].id, queue: pv[0].queue.push(sv) }),
                    ) + deliver_all(pv.drop_first(), cap, sv));
                }
            }
        }
        proof {
            assert(subs_view(pending@) =~= Seq::<SubscriberV>::empty());
            assert(self@.subs + Seq::<SubscriberV>::empty() =~= self@.subs);
            lemma_broadcast_fanout(orig, cap, sv);
            lemma_deliver_all_distinct(orig, cap, sv);
            assert forall|k: int| 0 <= k < self@.subs.len() implies #[trigger] self@.subs[k].id
                < self@.next_id && self@.subs[k].queue.len() <= self@.capacity by {
                let j = choose|j: int|
                    0 <= j < orig.len() && orig[j].queue.len() < cap && deliver_all(orig, cap, sv)[k]
                        == (SubscriberV { id: orig[j].id, queue: orig[j].queue.push(sv) });
                assert(orig[j].id < old(self)@.next_id);
            }
        }
    }
}

} // verus!
