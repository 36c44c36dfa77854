//! The broadcast hub: the server's single fan-out point.
//!
//! The hub keeps one bounded feed per subscriber. Publishing appends the
//! message to every other current subscriber's feed, dropping that feed's
//! oldest entry first when it is full, so a slow consumer only loses old
//! messages and never holds a publisher back. Subscribing registers an empty
//! feed, so a subscriber sees nothing published before it subscribed; a
//! publisher's own feed is skipped, so no session hears its own echo. The
//! model is sequential: the process that owns the hub guards it with its own
//! synchronization and each operation is one atomic step.

use vstd::prelude::*;
use crate::message::{queue_view, Message, MessageView};

verus! {

/// One subscriber's registration: its identity and its pending feed, oldest
/// message first.
pub struct Subscription {
    pub id: u64,
    pub queue: Vec<Message>,
}

/// The ghost value of a [`Subscription`].
#[verifier::ext_equal]
pub struct SubscriptionView {
    pub id: u64,
    pub queue: Seq<MessageView>,
}

/// The hub itself: the registry of current subscriptions and the bound that
/// every feed obeys.
pub struct Hub {
    pub capacity: usize,
    pub next_id: u64,
    pub subs: Vec<Subscription>,
}

/// The ghost value of a [`Hub`].
#[verifier::ext_equal]
pub struct HubView {
    pub capacity: usize,
    pub next_id: u64,
    pub subs: Seq<SubscriptionView>,
}

/// The ghost contents of the registry, in registration order.
pub open spec fn subs_view(s: Seq<Subscription>) -> Seq<SubscriptionView> {
    Seq::new(s.len(), |i: int| s[i]@)
}

impl View for Subscription {
    type V = SubscriptionView;

    open spec fn view(&self) -> SubscriptionView {
        SubscriptionView { id: self.id, queue: queue_view(self.queue@) }
    }
}

impl View for Hub {
    type V = HubView;

    open spec fn view(&self) -> HubView {
        HubView { capacity: self.capacity, next_id: self.next_id, subs: subs_view(self.subs@) }
    }
}

/// The hub's invariant: a positive bound, every feed within it, every
/// identifier below the next one to hand out, and no identifier twice.
pub open spec fn hub_wf(h: HubView) -> bool {
    &&& h.capacity >= 1
    &&& forall|i: int| 0 <= i < h.subs.len() ==> #[trigger] h.subs[i].queue.len() <= h.capacity
    &&& forall|i: int| 0 <= i < h.subs.len() ==> #[trigger] h.subs[i].id < h.next_id
    &&& forall|i: int, j: int|
        0 <= i < j < h.subs.len() ==> #[trigger] h.subs[i].id != #[trigger] h.subs[j].id
}

/// Some current subscription carries `id`.
pub open spec fn has_sub(h: HubView, id: u64) -> bool {
    exists|i: int| 0 <= i < h.subs.len() && #[trigger] h.subs[i].id == id
}

/// The position of the subscription carrying `id`; under [`hub_wf`] it is
/// unique.
pub open spec fn sub_index(h: HubView, id: u64) -> int {
    choose|i: int| 0 <= i < h.subs.len() && #[trigger] h.subs[i].id == id
}

/// A feed after one delivery: append, dropping the oldest entry first when
/// the feed is full.
pub open spec fn push_bounded(q: Seq<MessageView>, m: MessageView, cap: usize) -> Seq<MessageView> {
    if q.len() < cap {
        q.push(m)
    } else {
        q.drop_first().push(m)
    }
}

/// One subscription after a publish by `from`.
pub open spec fn deliver(s: SubscriptionView, m: MessageView, from: u64, cap: usize) -> SubscriptionView {
    if s.id == from {
        s
    } else {
        SubscriptionView { id: s.id, queue: push_bounded(s.queue, m, cap) }
    }
}

/// The hub after a publish: every other subscription receives `m`, the
/// publisher's own feed and the registry itself are untouched.
pub open spec fn spec_publish(h: HubView, m: MessageView, from: u64) -> HubView {
    HubView {
        capacity: h.capacity,
        next_id: h.next_id,
        subs: Seq::new(h.subs.len(), |i: int| deliver(h.subs[i], m, from, h.capacity)),
    }
}

/// The hub after a subscribe: one more registration, with a fresh identifier
/// and an empty feed.
pub open spec fn spec_subscribe(h: HubView) -> HubView {
    HubView {
        capacity: h.capacity,
        next_id: (h.next_id + 1) as u64,
        subs: h.subs.push(
            SubscriptionView { id: h.next_id, queue: Seq::<MessageView>::empty() },
        ),
    }
}

/// The hub after an unsubscribe: the one registration carrying `id` is gone,
/// all others keep their place and their feed.
pub open spec fn spec_unsubscribe(h: HubView, id: u64) -> HubView {
    if has_sub(h, id) {
        HubView {
            capacity: h.capacity,
            next_id: h.next_id,
            subs: h.subs.remove(sub_index(h, id)),
        }
    } else {
        h
    }
}

impl Hub {
    /// A hub with no subscribers and the given per-feed bound.
    pub fn new(capacity: usize) -> (h: Hub)
        requires
            capacity >= 1,
        ensures
            h@.capacity == capacity,
            h@.next_id == 0,
            h@.subs == Seq::<SubscriptionView>::empty(),
            hub_wf(h@),
    {
        let h = Hub { capacity, next_id: 0, subs: Vec::new() };
        proof {
            assert(h@.subs =~= Seq::<SubscriptionView>::empty());
        }
        h
    }

    /// How many subscriptions are currently registered.
    pub fn subscriber_count(&self) -> (n: usize)
        ensures
            n == self@.subs.len(),
    {
        self.subs.len()
    }

    /// Registers a new subscriber and returns its identifier. The new feed is
    /// empty: nothing published before this call is ever delivered to it.
    pub fn subscribe(&mut self) -> (id: u64)
        requires
            hub_wf(old(self)@),
            old(self)@.next_id < u64::MAX,
        ensures
            final(self)@ == spec_subscribe(old(self)@),
            id == old(self)@.next_id,
            hub_wf(final(self)@),
            has_sub(final(self)@, id),
    {
        let id = self.next_id;
        self.next_id = self.next_id + 1;
        self.subs.push(Subscription { id, queue: Vec::new() });
        proof {
            let target = spec_subscribe(old(self)@);
            assert(queue_view(Seq::<Message>::empty()) =~= Seq::<MessageView>::empty());
            assert(self@.subs =~= target.subs);
            assert(self@ =~= target);
            assert(self@.subs[old(self)@.subs.len() as int].id == id);
        }
        id
    }

    /// Publishes `m` from the session `from`: appends it to every other
    /// current feed under the drop-oldest bound. Total and never waiting on
    /// any subscriber.
    #[verifier::loop_isolation(false)]
    pub fn publish(&mut self, m: &Message, from: u64)
        requires
            hub_wf(old(self)@),
        ensures
            final(self)@ == spec_publish(old(self)@, m@, from),
            hub_wf(final(self)@),
    {
        let ghost h0 = self@;
        let n = self.subs.len();
        let mut i: usize = 0;
        while i < n
            invariant
                hub_wf(h0),
                n == h0.subs.len(),
                i <= n,
                self.subs.len() == n,
                self.capacity == h0.capacity,
                self.next_id == h0.next_id,
                forall|k: int|
                    0 <= k < i ==> #[trigger] self@.subs[k] == deliver(
                        h0.subs[k],
                        m@,
                        from,
                        h0.capacity,
                    ),
                forall|k: int| i <= k < n ==> #[trigger] self@.subs[k] == h0.subs[k],
            decreases n - i,
        {
            let ghost pre = self.subs@;
            proof {
                assert(self@.subs[i as int] == h0.subs[i as int]);
                assert(subs_view(pre)[i as int] == pre[i as int]@);
            }
            let mut sub = self.subs.remove(i);
            proof {
                assert(sub == pre[i as int]);
                assert(sub@ == h0.subs[i as int]);
            }
            if sub.id != from {
                let ghost q0 = sub@.queue;
                if sub.queue.len() >= self.capacity {
                    let _dropped = sub.queue.remove(0);
                    proof {
                        assert(queue_view(sub.queue@) =~= q0.drop_first());
                    }
                }
                sub.queue.push(m.clone());
                proof {
                    assert(queue_view(sub.queue@) =~= push_bounded(q0, m@, h0.capacity));
                    assert(sub@ =~= deliver(h0.subs[i as int], m@, from, h0.capacity));
                }
            } else {
                proof {
                    assert(sub@ =~= deliver(h0.subs[i as int], m@, from, h0.capacity));
                }
            }
            let ghost sv = sub@;
            self.subs.insert(i, sub);
            proof {
                assert(self.subs@ =~= pre.update(i as int, self.subs@[i as int]));
                assert(self.subs@[i as int]@ == sv);
                assert forall|k: int| 0 <= k < i + 1 implies #[trigger] self@.subs[k] == deliver(
                    h0.subs[k],
                    m@,
                    from,
                    h0.capacity,
                ) by {
                    assert(self@.subs[k] == self.subs@[k]@);
                    if k < i {
                        assert(self.subs@[k] == pre[k]);
                        assert(subs_view(pre)[k] == pre[k]@);
                    }
                }
                assert forall|k: int| i + 1 <= k < n implies #[trigger] self@.subs[k]
                    == h0.subs[k] by {
                    assert(self@.subs[k] == self.subs@[k]@);
                    assert(self.subs@[k] == pre[k]);
                    assert(subs_view(pre)[k] == pre[k]@);
                }
            }
            i += 1;
        }
        proof {
            let target = spec_publish(h0, m@, from);
            assert(self@.subs =~= target.subs);
            assert(self@ =~= target);
            assert forall|k: int| 0 <= k < self@.subs.len() implies #[trigger] self@.subs[k].queue.len()
                <= self@.capacity by {
                assert(self@.subs[k] == deliver(h0.subs[k], m@, from, h0.capacity));
            }
        }
    }

    /// Removes the subscription carrying `id`, if any; says whether one was
    /// there. Afterwards no subscription carries `id`: a terminated session
    /// leaks nothing.
    #[verifier::loop_isolation(false)]
    pub fn unsubscribe(&mut self, id: u64) -> (removed: bool)
        requires
            hub_wf(old(self)@),
        ensures
            final(self)@ == spec_unsubscribe(old(self)@, id),
            removed == has_sub(old(self)@, id),
            hub_wf(final(self)@),
            !has_sub(final(self)@, id),
            final(self)@.subs.len() == if removed {
                old(self)@.subs.len() - 1
            } else {
                old(self)@.subs.len() as int
            },
    {
        let ghost h0 = self@;
        let n = self.subs.len();
        let mut i: usize = 0;
        while i < n
            invariant
                hub_wf(h0),
                self@ == h0,
                n == h0.subs.len(),
                i <= n,
                forall|k: int| 0 <= k < i ==> #[trigger] h0.subs[k].id != id,
            decreases n - i,
        {
            if self.subs[i].id == id {
                proof {
                    assert(h0.subs[i as int].id == id);
                    assert(has_sub(h0, id));
                    let j = sub_index(h0, id);
                    assert(0 <= j < h0.subs.len() && h0.subs[j].id == id);
                    if j < i {
                        assert(h0.subs[j].id != id);
                    }
                    if i < j {
                        assert(h0.subs[i as int].id != h0.subs[j].id);
                    }
                    assert(j == i as int);
                }
                self.subs.remove(i);
                proof {
                    assert(self@.subs =~= h0.subs.remove(i as int));
                    assert(self@ =~= spec_unsubscribe(h0, id));
                    assert forall|k: int| 0 <= k < self@.subs.len() implies #[trigger] self@.subs[k].id
                        != id by {
                        if k < i {
                            assert(self@.subs[k] == h0.subs[k]);
                        } else {
                            assert(self@.subs[k] == h0.subs[k + 1]);
                            assert(h0.subs[i as int].id != h0.subs[k + 1].id);
                        }
                    }
                }
                return true;
            }
            i += 1;
        }
        proof {
            assert(!has_sub(h0, id));
        }
        false
    }

    /// Takes the oldest pending message of the feed carrying `id`, if that
    /// feed exists and is not empty. Each subscriber thus observes messages
    /// in the order they were published to it.
    #[verifier::loop_isolation(false)]
    pub fn recv(&mut self, id: u64) -> (r: Option<Message>)
        requires
            hub_wf(old(self)@),
        ensures
            hub_wf(final(self)@),
            match r {
                None => {
                    &&& final(self)@ == old(self)@
                    &&& (!has_sub(old(self)@, id) || old(self)@.subs[sub_index(
                        old(self)@,
                        id,
                    )].queue.len() == 0)
                },
                Some(m) => {
                    &&& has_sub(old(self)@, id)
                    &&& old(self)@.subs[sub_index(old(self)@, id)].queue.len() > 0
                    &&& m@ == old(self)@.subs[sub_index(old(self)@, id)].queue[0]
                    &&& final(self)@.subs == old(self)@.subs.update(
                        sub_index(old(self)@, id),
                        SubscriptionView {
                            id,
                            queue: old(self)@.subs[sub_index(old(self)@, id)].queue.drop_first(),
                        },
                    )
                    &&& final(self)@.capacity == old(self)@.capacity
                    &&& final(self)@.next_id == old(self)@.next_id
                },
            },
    {
        let ghost h0 = self@;
        let n = self.subs.len();
        let mut i: usize = 0;
        while i < n
            invariant
                hub_wf(h0),
                self@ == h0,
                n == h0.subs.len(),
                i <= n,
                forall|k: int| 0 <= k < i ==> #[trigger] h0.subs[k].id != id,
            decreases n - i,
        {
            if self.subs[i].id == id {
                proof {
                    assert(h0.subs[i as int].id == id);
                    assert(has_sub(h0, id));
                    let j = sub_index(h0, id);
                    assert(0 <= j < h0.subs.len() && h0.subs[j].id == id);
                    if j < i {
                        assert(h0.subs[j].id != id);
                    }
                    if i < j {
                        assert(h0.subs[i as int].id != h0.subs[j].id);
                    }
                    assert(j == i as int);
                }
                let ghost pre = self.subs@;
                let mut sub = self.subs.remove(i);
                proof {
                    assert(sub == pre[i as int]);
                    assert(sub@ == h0.subs[i as int]);
                }
                if sub.queue.len() == 0 {
                    self.subs.insert(i, sub);
                    proof {
                        assert(self.subs@ =~= pre);
                        assert(self@ =~= h0);
                        assert(h0.subs[sub_index(h0, id)].queue.len() == 0);
                    }
                    return None;
                }
                let ghost q0 = sub@.queue;
                let m = sub.queue.remove(0);
                proof {
                    assert(m@ == q0[0]);
                    assert(queue_view(sub.queue@) =~= q0.drop_first());
                }
                let ghost sv = sub@;
                self.subs.insert(i, sub);
                proof {
                    assert(self.subs@ =~= pre.update(i as int, self.subs@[i as int]));
                    assert(self.subs@[i as int]@ == sv);
                    assert(self@.subs =~= h0.subs.update(
                        i as int,
                        SubscriptionView { id, queue: q0.drop_first() },
                    ));
                    assert forall|k: int| 0 <= k < self@.subs.len() implies {
                        &&& #[trigger] self@.subs[k].queue.len() <= self@.capacity
                        &&& self@.subs[k].id < self@.next_id
                    } by {
                        if k != i {
                            assert(self@.subs[k] == h0.subs[k]);
                        }
                    }
                }
                return Some(m);
            }
            i += 1;
        }
        proof {
            assert(!has_sub(h0, id));
        }
        None
    }

    /// How many messages are pending for the subscription carrying `id`, if
    /// it exists.
    #[verifier::loop_isolation(false)]
    pub fn queue_len(&self, id: u64) -> (r: Option<usize>)
        requires
            hub_wf(self@),
        ensures
            match r {
                None => !has_sub(self@, id),
                Some(l) => {
                    &&& has_sub(self@, id)
                    &&& l == self@.subs[sub_index(self@, id)].queue.len()
                },
            },
    {
        let n = self.subs.len();
        let mut i: usize = 0;
        while i < n
            invariant
                hub_wf(self@),
                n == self@.subs.len(),
                i <= n,
                forall|k: int| 0 <= k < i ==> #[trigger] self@.subs[k].id != id,
            decreases n - i,
        {
            if self.subs[i].id == id {
                proof {
                    assert(self@.subs[i as int].id == id);
                    assert(has_sub(self@, id));
                    let j = sub_index(self@, id);
                    assert(0 <= j < self@.subs.len() && self@.subs[j].id == id);
                    if j < i {
                        assert(self@.subs[j].id != id);
                    }
                    if i < j {
                        assert(self@.subs[i as int].id != self@.subs[j].id);
                    }
                    assert(j == i as int);
                }
                return Some(self.subs[i].queue.len());
            }
            i += 1;
        }
        None
    }
}


/// No replay: a new subscription starts with an empty feed, so no message
/// published before the subscribe is ever delivered to it, and every
/// subscription already present keeps its place and its feed.
pub proof fn lemma_subscribe_no_replay(h: HubView)
    requires
        hub_wf(h),
    ensures
        spec_subscribe(h).subs.len() == h.subs.len() + 1,
        spec_subscribe(h).subs.last().queue.len() == 0,
        forall|i: int| 0 <= i < h.subs.len() ==> #[trigger] spec_subscribe(h).subs[i] == h.subs[i],
{
}

/// Delivery: one publish puts the message at the end of every other current
/// subscriber's feed, leaves the publisher's own feed alone, and registers or
/// removes nobody.
pub proof fn lemma_publish_delivers(h: HubView, m: MessageView, from: u64)
    requires
        hub_wf(h),
    ensures
        spec_publish(h, m, from).subs.len() == h.subs.len(),
        forall|i: int|
            0 <= i < h.subs.len() && h.subs[i].id != from ==> #[trigger] spec_publish(
                h,
                m,
                from,
            ).subs[i].queue.last() == m,
        forall|i: int|
            0 <= i < h.subs.len() && h.subs[i].id == from ==> #[trigger] spec_publish(
                h,
                m,
                from,
            ).subs[i] == h.subs[i],
        forall|i: int|
            0 <= i < h.subs.len() ==> #[trigger] spec_publish(h, m, from).subs[i].id
                == h.subs[i].id,
        forall|i: int|
            0 <= i < h.subs.len() && h.subs[i].id != from && h.subs[i].queue.len() < h.capacity
                ==> #[trigger] spec_publish(h, m, from).subs[i].queue == h.subs[i].queue.push(m),
{
    assert forall|i: int|
        0 <= i < h.subs.len() && h.subs[i].id != from implies #[trigger] spec_publish(
        h,
        m,
        from,
    ).subs[i].queue.last() == m by {
        assert(h.subs[i].queue.len() <= h.capacity);
        assert(spec_publish(h, m, from).subs[i] == deliver(h.subs[i], m, from, h.capacity));
    }
}

/// Drop-oldest: a full feed that is never drained stays exactly at the bound
/// after a publish, losing its oldest entry and gaining the new message at
/// the end. The publisher in particular never waits on such a subscriber.
pub proof fn lemma_slow_subscriber_drop_oldest(h: HubView, m: MessageView, from: u64, i: int)
    requires
        hub_wf(h),
        0 <= i < h.subs.len(),
        h.subs[i].id != from,
        h.subs[i].queue.len() == h.capacity,
    ensures
        spec_publish(h, m, from).subs[i].queue.len() == h.capacity,
        spec_publish(h, m, from).subs[i].queue == h.subs[i].queue.drop_first().push(m),
{
}

/// No leak: removing a terminated session's subscription shrinks the registry
/// by exactly one, and afterwards no subscription carries that identifier.
pub proof fn lemma_unsubscribe_no_leak(h: HubView, id: u64)
    requires
        hub_wf(h),
        has_sub(h, id),
    ensures
        spec_unsubscribe(h, id).subs.len() == h.subs.len() - 1,
        !has_sub(spec_unsubscribe(h, id), id),
{
    let j = sub_index(h, id);
    assert(0 <= j < h.subs.len() && h.subs[j].id == id);
    let g = spec_unsubscribe(h, id);
    assert(g.subs.len() == h.subs.len() - 1);
    assert forall|k: int| 0 <= k < g.subs.len() implies #[trigger] g.subs[k].id != id by {
        if k < j {
            assert(g.subs[k] == h.subs[k]);
            if h.subs[k].id == id {
                assert(h.subs[k].id != h.subs[j].id);
            }
        } else {
            assert(g.subs[k] == h.subs[k + 1]);
            assert(h.subs[j].id != h.subs[k + 1].id);
        }
    }
}

} // verus!

