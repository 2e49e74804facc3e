//! Fan-out broadcaster of lifecycle events.
//!
//! Each subscription owns an independent, ordered queue of events,
//! starting empty.  Delivery appends one event to every live queue,
//! so two observers can disagree only in how far they have read,
//! never in the relative order of two events they both receive.
//! Production never blocks: queues are unbounded and a consumer
//! drains its own queue at its own pace.

use crate::alist::{alist_map, distinct_keys, lemma_alist_map_contains, lemma_alist_map_get,
    lemma_alist_map_push, lemma_alist_map_remove, lemma_alist_map_update};
use crate::event::{views_of, Event, EventV};
use vstd::prelude::*;

verus! {

/// A handle naming one subscription; dropping it back to the bus ends
/// the subscription.
#[derive(Debug)]
pub struct SwarmEvents {
    sub_id: u64,
}

impl SwarmEvents {
    /// The identifier of the subscription this handle names.
    pub closed spec fn id(self) -> u64 {
        self.sub_id
    }
}

#[derive(Debug)]
struct Subscriber {
    id: u64,
    queue: Vec<Event>,
}

/// The broadcaster: one entry per live subscription.
#[derive(Debug)]
pub struct EventBus {
    subscribers: Vec<Subscriber>,
    next_id: u64,
}

/// `post` extends every queue of `pre` with exactly the events `evs`,
/// in order, and no queue appears or disappears.
pub open spec fn delivered(
    pre: Map<u64, Seq<EventV>>,
    post: Map<u64, Seq<EventV>>,
    evs: Seq<EventV>,
) -> bool {
    &&& post.dom() == pre.dom()
    &&& forall|id: u64| pre.contains_key(id) ==> post[id] == pre[id] + evs
}

/// Delivering nothing changes nothing.
pub proof fn lemma_delivered_refl(q: Map<u64, Seq<EventV>>)
    ensures
        delivered(q, q, Seq::<EventV>::empty()),
{
    assert forall|id: u64| q.contains_key(id) implies q[id] == q[id] + Seq::<EventV>::empty() by {
        assert(q[id] + Seq::<EventV>::empty() =~= q[id]);
    }
}

/// Two deliveries in a row deliver the concatenation.
pub proof fn lemma_delivered_trans(
    pre: Map<u64, Seq<EventV>>,
    mid: Map<u64, Seq<EventV>>,
    post: Map<u64, Seq<EventV>>,
    evs1: Seq<EventV>,
    evs2: Seq<EventV>,
)
    requires
        delivered(pre, mid, evs1),
        delivered(mid, post, evs2),
    ensures
        delivered(pre, post, evs1 + evs2),
{
    assert forall|id: u64| pre.contains_key(id) implies post[id] == pre[id] + (evs1 + evs2) by {
        assert(mid.contains_key(id));
        assert(post[id] == (pre[id] + evs1) + evs2);
        assert((pre[id] + evs1) + evs2 =~= pre[id] + (evs1 + evs2));
    }
}

impl EventBus {
    /// The association of subscription identifiers to the abstract
    /// readings of their queues.
    pub closed spec fn entries(self) -> Seq<(u64, Seq<EventV>)> {
        self.subscribers@.map_values(|s: Subscriber| (s.id, views_of(s.queue@)))
    }

    /// The live queues, keyed by subscription identifier.
    pub open spec fn queues(self) -> Map<u64, Seq<EventV>> {
        alist_map(self.entries())
    }

    /// Identifiers are pairwise distinct and below the next free one.
    pub closed spec fn wf(self) -> bool {
        &&& forall|i: int, j: int|
            0 <= i < j < self.subscribers@.len() ==> self.subscribers@[i].id
                != self.subscribers@[j].id
        &&& forall|i: int|
            0 <= i < self.subscribers@.len() ==> self.subscribers@[i].id < self.next_id
    }

    /// How many subscriptions were ever opened.
    pub closed spec fn subs_created(self) -> u64 {
        self.next_id
    }

    /// Room for another subscription identifier.
    pub open spec fn can_subscribe(self) -> bool {
        self.subs_created() < u64::MAX
    }

    proof fn lemma_entries_distinct(self)
        requires
            self.wf(),
        ensures
            distinct_keys(self.entries()),
    {
        assert forall|i: int, j: int| 0 <= i < j < self.entries().len() implies self.entries()[i].0
            != self.entries()[j].0 by {
            assert(self.entries()[i].0 == self.subscribers@[i].id);
            assert(self.entries()[j].0 == self.subscribers@[j].id);
        }
    }

    /// A bus with no subscriptions.
    pub fn new() -> (r: EventBus)
        ensures
            r.wf(),
            r.subs_created() == 0,
            r.queues() == Map::<u64, Seq<EventV>>::empty(),
    {
        let r = EventBus { subscribers: Vec::new(), next_id: 0 };
        proof {
            assert(r.entries() =~= Seq::<(u64, Seq<EventV>)>::empty());
        }
        r
    }

    /// Opens a new, independent subscription whose queue starts
    /// empty; past events are not replayed.
    pub fn subscribe(&mut self) -> (handle: SwarmEvents)
        requires
            old(self).wf(),
            old(self).can_subscribe(),
        ensures
            final(self).wf(),
            handle.id() == old(self).subs_created(),
            final(self).subs_created() == old(self).subs_created() + 1,
            !old(self).queues().contains_key(handle.id()),
            final(self).queues() == old(self).queues().insert(handle.id(), Seq::<EventV>::empty()),
    {
        let id = self.next_id;
        self.next_id = self.next_id + 1;
        self.subscribers.push(Subscriber { id, queue: Vec::new() });
        let handle = SwarmEvents { sub_id: id };
        proof {
            let pre = *old(self);
            pre.lemma_entries_distinct();
            lemma_alist_map_contains(pre.entries(), id);
            if pre.queues().contains_key(id) {
                let i = choose|i: int| 0 <= i < pre.entries().len() && pre.entries()[i].0 == id;
                assert(pre.entries()[i].0 == pre.subscribers@[i].id);
            }
            assert(self.entries() =~= pre.entries().push(
                (id, views_of(Seq::<Event>::empty())),
            ));
            assert(views_of(Seq::<Event>::empty()) =~= Seq::<EventV>::empty());
            lemma_alist_map_push(pre.entries(), id, Seq::<EventV>::empty());
        }
        handle
    }

    /// Delivers one event, by value copy, to the end of every live
    /// queue.
    #[verifier::loop_isolation(false)]
    pub fn notify(&mut self, event: Event)
        requires
            old(self).wf(),
        ensures
            final(self).wf(),
            final(self).subs_created() == old(self).subs_created(),
            delivered(old(self).queues(), final(self).queues(), seq![event@]),
    {
        let ghost pre = *old(self);
        let mut i: usize = 0;
        while i < self.subscribers.len()
            invariant
                i <= self.subscribers@.len(),
                self.next_id == pre.next_id,
                self.subscribers@.len() == pre.subscribers@.len(),
                forall|j: int|
                    0 <= j < self.subscribers@.len() ==> self.subscribers@[j].id
                        == pre.subscribers@[j].id,
                forall|j: int|
                    0 <= j < i ==> views_of(self.subscribers@[j].queue@) == views_of(
                        pre.subscribers@[j].queue@,
                    ).push(event@),
                forall|j: int|
                    i <= j < self.subscribers@.len() ==> self.subscribers@[j].queue
                        == pre.subscribers@[j].queue,
            decreases self.subscribers@.len() - i,
        {
            let ghost before = self.subscribers@[i as int].queue@;
            self.subscribers[i].queue.push(event.clone());
            proof {
                assert(views_of(self.subscribers@[i as int].queue@) =~= views_of(before).push(
                    event@,
                ));
            }
            i = i + 1;
        }
        proof {
            pre.lemma_entries_distinct();
            self.lemma_entries_distinct();
            assert(self.entries().len() == pre.entries().len());
            assert forall|j: int| 0 <= j < self.entries().len() implies self.entries()[j].0
                == pre.entries()[j].0 by {
                assert(self.entries()[j].0 == self.subscribers@[j].id);
                assert(pre.entries()[j].0 == pre.subscribers@[j].id);
            }
            assert forall|id: u64| #[trigger] pre.queues().contains_key(id) == self
                .queues()
                .contains_key(id) by {
                lemma_alist_map_contains(pre.entries(), id);
                lemma_alist_map_contains(self.entries(), id);
                if pre.queues().contains_key(id) {
                    let j = choose|j: int|
                        0 <= j < pre.entries().len() && pre.entries()[j].0 == id;
                    assert(self.entries()[j].0 == id);
                }
                if self.queues().contains_key(id) {
                    let j = choose|j: int|
                        0 <= j < self.entries().len() && self.entries()[j].0 == id;
                    assert(pre.entries()[j].0 == id);
                }
            }
            assert(self.queues().dom() =~= pre.queues().dom());
            assert forall|id: u64| pre.queues().contains_key(id) implies self.queues()[id] == pre
                .queues()[id] + seq![event@] by {
                lemma_alist_map_contains(pre.entries(), id);
                let j = choose|j: int| 0 <= j < pre.entries().len() && pre.entries()[j].0 == id;
                lemma_alist_map_get(pre.entries(), j);
                lemma_alist_map_get(self.entries(), j);
                assert(self.entries()[j].0 == pre.entries()[j].0);
                assert(self.queues()[id] == views_of(self.subscribers@[j].queue@));
                assert(pre.queues()[id] == views_of(pre.subscribers@[j].queue@));
                assert(views_of(pre.subscribers@[j].queue@).push(event@) =~= views_of(
                    pre.subscribers@[j].queue@,
                ) + seq![event@]);
            }
        }
    }

    /// Ends the subscription the handle names; its queue is dropped
    /// and it takes no part in future deliveries.
    #[verifier::loop_isolation(false)]
    pub fn unsubscribe(&mut self, handle: SwarmEvents)
        requires
            old(self).wf(),
        ensures
            final(self).wf(),
            final(self).subs_created() == old(self).subs_created(),
            final(self).queues() == old(self).queues().remove(handle.id()),
    {
        let ghost pre = *old(self);
        let mut i: usize = 0;
        while i < self.subscribers.len()
            invariant
                i <= self.subscribers@.len(),
                *self == pre,
                forall|j: int| 0 <= j < i ==> pre.subscribers@[j].id != handle.id(),
            decreases self.subscribers@.len() - i,
        {
            if self.subscribers[i].id == handle.sub_id {
                self.subscribers.remove(i);
                proof {
                    let s = pre.subscribers@;
                    let t = self.subscribers@;
                    assert(t =~= s.remove(i as int));
                    assert forall|a: int, b: int| 0 <= a < b < t.len() implies t[a].id
                        != t[b].id by {
                        assert(t[a] == if a < i as int { s[a] } else { s[a + 1] });
                        assert(t[b] == if b < i as int { s[b] } else { s[b + 1] });
                    }
                    assert forall|a: int| 0 <= a < t.len() implies t[a].id < self.next_id by {
                        assert(t[a] == if a < i as int { s[a] } else { s[a + 1] });
                    }
                    pre.lemma_entries_distinct();
                    assert(self.entries() =~= pre.entries().remove(i as int));
                    lemma_alist_map_remove(pre.entries(), i as int);
                    assert(pre.entries()[i as int].0 == handle.id());
                }
                return ;
            }
            i = i + 1;
        }
        proof {
            pre.lemma_entries_distinct();
            lemma_alist_map_contains(pre.entries(), handle.id());
            if pre.queues().contains_key(handle.id()) {
                let j = choose|j: int|
                    0 <= j < pre.entries().len() && pre.entries()[j].0 == handle.id();
                assert(pre.entries()[j].0 == pre.subscribers@[j].id);
            }
            assert(pre.queues().remove(handle.id()) =~= pre.queues());
        }
    }

    /// The next undelivered event of the subscription the handle
    /// names, or nothing when its queue is empty or the handle is
    /// unknown to this bus.
    #[verifier::loop_isolation(false)]
    pub fn next_event(&mut self, handle: &SwarmEvents) -> (r: Option<Event>)
        requires
            old(self).wf(),
        ensures
            final(self).wf(),
            final(self).subs_created() == old(self).subs_created(),
            match r {
                Option::None => {
                    &&& final(self).queues() == old(self).queues()
                    &&& old(self).queues().contains_key(handle.id()) ==> old(self).queues()[
                        handle.id()
                    ].len() == 0
                },
                Option::Some(e) => {
                    &&& old(self).queues().contains_key(handle.id())
                    &&& old(self).queues()[handle.id()].len() > 0
                    &&& e@ == old(self).queues()[handle.id()][0]
                    &&& final(self).queues() == old(self).queues().insert(
                        handle.id(),
                        old(self).queues()[handle.id()].subrange(
                            1,
                            old(self).queues()[handle.id()].len() as int,
                        ),
                    )
                },
            },
    {
        let ghost pre = *old(self);
        let mut i: usize = 0;
        while i < self.subscribers.len()
            invariant
                i <= self.subscribers@.len(),
                *self == pre,
                forall|j: int| 0 <= j < i ==> pre.subscribers@[j].id != handle.id(),
            decreases self.subscribers@.len() - i,
        {
            if self.subscribers[i].id == handle.sub_id {
                proof {
                    pre.lemma_entries_distinct();
                    lemma_alist_map_get(pre.entries(), i as int);
                    assert(pre.entries()[i as int]
                        == (pre.subscribers@[i as int].id, views_of(
                        pre.subscribers@[i as int].queue@,
                    )));
                }
                if self.subscribers[i].queue.len() == 0 {
                    return None;
                }
                let ghost q = self.subscribers@[i as int].queue@;
                let e = self.subscribers[i].queue.remove(0);
                proof {
                    assert forall|j: int| 0 <= j < self.subscribers@.len() implies self
                        .subscribers@[j].id == pre.subscribers@[j].id by {}
                    pre.lemma_entries_distinct();
                    self.lemma_entries_distinct();
                    assert(self.entries() =~= pre.entries().update(
                        i as int,
                        (handle.id(), views_of(q.remove(0))),
                    ));
                    lemma_alist_map_update(pre.entries(), i as int, views_of(q.remove(0)));
                    assert(views_of(q.remove(0)) =~= views_of(q).subrange(
                        1,
                        views_of(q).len() as int,
                    ));
                    assert(e@ == views_of(q)[0]);
                }
                return Some(e);
            }
            i = i + 1;
        }
        proof {
            pre.lemma_entries_distinct();
            lemma_alist_map_contains(pre.entries(), handle.id());
            if pre.queues().contains_key(handle.id()) {
                let j = choose|j: int|
                    0 <= j < pre.entries().len() && pre.entries()[j].0 == handle.id();
                assert(pre.entries()[j].0 == pre.subscribers@[j].id);
            }
        }
        None
    }
}

} // verus!
