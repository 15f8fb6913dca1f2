//! The time-ordered queue of predicted collisions.
//!
//! The queue keeps its events latest first, so that the next event to resolve
//! is the last one. Among events of equal time the one queued first is
//! resolved first.

use vstd::prelude::*;
use crate::clock::Tick;
use crate::collision::Collision;

verus! {

/// No event stands before a later one.
pub open spec fn latest_first<N>(events: Seq<Collision<N>>) -> bool {
    forall|i: int, j: int| 0 <= i < j < events.len() ==> events[i].time >= events[j].time
}

/// The place at which an event of instant `time` enters `events`: behind every
/// strictly later event and in front of all others.
pub open spec fn slot<N>(events: Seq<Collision<N>>, time: Tick) -> int
    decreases events.len(),
{
    if events.len() == 0 {
        0
    } else if events.last().time > time {
        events.len() as int
    } else {
        slot(events.drop_last(), time)
    }
}

/// The queue after `collision` has entered it.
pub open spec fn pushed<N>(events: Seq<Collision<N>>, collision: Collision<N>) -> Seq<Collision<N>> {
    events.insert(slot(events, collision.time), collision)
}

/// The queue after all of `incoming` have entered it, first to last.
pub open spec fn merged<N>(events: Seq<Collision<N>>, incoming: Seq<Collision<N>>) -> Seq<Collision<N>>
    decreases incoming.len(),
{
    if incoming.len() == 0 {
        events
    } else {
        pushed(merged(events, incoming.drop_last()), incoming.last())
    }
}

/// The queue after every event that involves `particle_index` has left it.
pub open spec fn without_particle<N>(events: Seq<Collision<N>>, particle_index: usize) -> Seq<Collision<N>> {
    events.filter(|c: Collision<N>| !c.involves(particle_index))
}

/// In an ordered queue the slot splits the events into the strictly later
/// ones and the rest.
pub proof fn lemma_slot_splits<N>(events: Seq<Collision<N>>, time: Tick)
    requires
        latest_first(events),
    ensures
        0 <= slot(events, time) <= events.len(),
        forall|i: int| 0 <= i < slot(events, time) ==> events[i].time > time,
        forall|i: int| slot(events, time) <= i < events.len() ==> events[i].time <= time,
    decreases events.len(),
{
    if events.len() > 0 && events.last().time <= time {
        let front = events.drop_last();
        lemma_slot_splits(front, time);
        assert forall|i: int| slot(events, time) <= i < events.len() implies events[i].time <= time by {
            if i < front.len() {
                assert(front[i] == events[i]);
            }
        }
        assert forall|i: int| 0 <= i < slot(events, time) implies events[i].time > time by {
            assert(front[i] == events[i]);
        }
    }
}

/// Only one place splits an ordered queue in that way.
pub proof fn lemma_slot_unique<N>(events: Seq<Collision<N>>, time: Tick, k: int)
    requires
        0 <= k <= events.len(),
        forall|i: int| 0 <= i < k ==> events[i].time > time,
        forall|i: int| k <= i < events.len() ==> events[i].time <= time,
    ensures
        k == slot(events, time),
    decreases events.len(),
{
    if events.len() > 0 {
        if events.last().time > time {
            if k < events.len() {
                assert(events[events.len() - 1].time <= time);
            }
        } else {
            let front = events.drop_last();
            if k == events.len() {
                assert(events[k - 1].time > time);
            }
            assert forall|i: int| 0 <= i < k implies front[i].time > time by {
                assert(front[i] == events[i]);
            }
            assert forall|i: int| k <= i < front.len() implies front[i].time <= time by {
                assert(front[i] == events[i]);
            }
            lemma_slot_unique(front, time, k);
        }
    }
}

/// Entering an ordered queue keeps it ordered.
pub proof fn lemma_pushed_ordered<N>(events: Seq<Collision<N>>, collision: Collision<N>)
    requires
        latest_first(events),
    ensures
        latest_first(pushed(events, collision)),
        pushed(events, collision).len() == events.len() + 1,
{
    lemma_slot_splits(events, collision.time);
    let k = slot(events, collision.time);
    let after = pushed(events, collision);
    assert forall|i: int, j: int| 0 <= i < j < after.len() implies after[i].time >= after[j].time by {
        if i < k {
            assert(after[i] == events[i]);
        } else if i > k {
            assert(after[i] == events[i - 1]);
        }
        if j < k {
            assert(after[j] == events[j]);
        } else if j > k {
            assert(after[j] == events[j - 1]);
        }
    }
}

/// Merging into an ordered queue keeps it ordered, and adds one event for
/// each incoming one.
pub proof fn lemma_merged_ordered<N>(events: Seq<Collision<N>>, incoming: Seq<Collision<N>>)
    requires
        latest_first(events),
    ensures
        latest_first(merged(events, incoming)),
        merged(events, incoming).len() == events.len() + incoming.len(),
    decreases incoming.len(),
{
    if incoming.len() > 0 {
        lemma_merged_ordered(events, incoming.drop_last());
        lemma_pushed_ordered(merged(events, incoming.drop_last()), incoming.last());
    }
}

/// Filtering an ordered queue keeps it ordered.
pub proof fn lemma_filter_ordered<N>(events: Seq<Collision<N>>, keep: spec_fn(Collision<N>) -> bool)
    requires
        latest_first(events),
    ensures
        latest_first(events.filter(keep)),
    decreases events.len(),
{
    if events.len() > 0 {
        let front = events.drop_last();
        lemma_filter_ordered(front, keep);
        let kept = front.filter(keep);
        assert(events == front.push(events.last()));
        front.lemma_filter_push(events.last(), keep);
        if keep(events.last()) {
            let all = kept.push(events.last());
            assert forall|i: int, j: int| 0 <= i < j < all.len() implies all[i].time >= all[j].time by {
                if j == kept.len() {
                    assert(kept.contains(kept[i]));
                    front.lemma_filter_contains_rev(keep, kept[i]);
                    let at = choose|at: int| 0 <= at < front.len() && front[at] == kept[i];
                    assert(events[at] == kept[i]);
                    assert(events[events.len() - 1] == events.last());
                }
            }
        }
    }
}

/// A min-priority queue of collisions, ordered by their time.
pub struct EventQueue<N> {
    items: Vec<Collision<N>>,
}

impl<N> View for EventQueue<N> {
    type V = Seq<Collision<N>>;

    /// The queued events, latest first: the last one is resolved next.
    closed spec fn view(&self) -> Seq<Collision<N>> {
        self.items@
    }
}

impl<N: Copy> EventQueue<N> {
    /// The queue is ordered. Every constructor establishes this and every
    /// method keeps it.
    pub open spec fn well_formed(&self) -> bool {
        latest_first(self@)
    }

    pub fn new() -> (queue: Self)
        ensures
            queue@ == Seq::<Collision<N>>::empty(),
            queue.well_formed(),
    {
        EventQueue { items: Vec::new() }
    }

    pub fn len(&self) -> (n: usize)
        ensures
            n == self@.len(),
    {
        self.items.len()
    }

    pub fn is_empty(&self) -> (empty: bool)
        ensures
            empty == (self@.len() == 0),
    {
        self.items.len() == 0
    }

    /// Queues `collision` behind every strictly later event.
    pub fn push(&mut self, collision: Collision<N>)
        requires
            old(self).well_formed(),
        ensures
            final(self)@ == pushed(old(self)@, collision),
            final(self).well_formed(),
            0 <= slot(old(self)@, collision.time) <= old(self)@.len(),
            forall|i: int| 0 <= i < slot(old(self)@, collision.time) ==> old(self)@[i].time > collision.time,
            forall|i: int|
                slot(old(self)@, collision.time) <= i < old(self)@.len() ==> old(self)@[i].time <= collision.time,
    {
        let mut k: usize = self.items.len();
        while k > 0 && self.items[k - 1].time <= collision.time
            invariant
                k <= self.items@.len(),
                self.items@ == old(self).items@,
                forall|i: int| k <= i < self.items@.len() ==> self.items@[i].time <= collision.time,
            decreases k,
        {
            k -= 1;
        }
        proof {
            assert forall|i: int| 0 <= i < k implies self.items@[i].time > collision.time by {
                assert(self.items@[i].time >= self.items@[k - 1].time);
            }
            lemma_slot_unique(self.items@, collision.time, k as int);
            lemma_pushed_ordered(self.items@, collision);
        }
        self.items.insert(k, collision);
    }

    /// Takes out the earliest event. No queued event is earlier than it.
    pub fn pop(&mut self) -> (next: Option<Collision<N>>)
        requires
            old(self).well_formed(),
        ensures
            old(self)@.len() == 0 ==> next.is_none() && final(self)@ == old(self)@,
            old(self)@.len() > 0 ==> next == Some(old(self)@.last()) && final(self)@ == old(self)@.drop_last(),
            forall|i: int| 0 <= i < old(self)@.len() ==> next.unwrap().time <= old(self)@[i].time,
            final(self).well_formed(),
    {
        self.items.pop()
    }

    /// Queues all of `incoming`, first to last.
    pub fn merge(&mut self, incoming: &Vec<Collision<N>>)
        requires
            old(self).well_formed(),
        ensures
            final(self)@ == merged(old(self)@, incoming@),
            final(self).well_formed(),
    {
        let mut done: usize = 0;
        while done < incoming.len()
            invariant
                done <= incoming@.len(),
                self@ == merged(old(self)@, incoming@.take(done as int)),
                latest_first(self@),
            decreases incoming@.len() - done,
        {
            proof {
                let upto = incoming@.take(done as int + 1);
                assert(upto.drop_last() == incoming@.take(done as int));
                assert(upto.last() == incoming@[done as int]);
            }
            self.push(incoming[done]);
            done += 1;
        }
        proof {
            assert(incoming@.take(done as int) == incoming@);
        }
    }

    /// Drops every event that involves `particle_index`; the others keep
    /// their order.
    pub fn remove_involving(&mut self, particle_index: usize)
        requires
            old(self).well_formed(),
        ensures
            final(self)@ == without_particle(old(self)@, particle_index),
            final(self).well_formed(),
    {
        let ghost keep = |c: Collision<N>| !c.involves(particle_index);
        let mut kept: Vec<Collision<N>> = Vec::new();
        let mut i: usize = 0;
        while i < self.items.len()
            invariant
                i <= self.items@.len(),
                self.items@ == old(self).items@,
                kept@ == self.items@.take(i as int).filter(keep),
                forall|c: Collision<N>| keep(c) == !c.involves(particle_index),
            decreases self.items@.len() - i,
        {
            let c = self.items[i];
            proof {
                let before = self.items@.take(i as int);
                assert(self.items@.take(i as int + 1) == before.push(c));
                before.lemma_filter_push(c, keep);
            }
            if !c.involves_particle(particle_index) {
                kept.push(c);
            }
            i += 1;
        }
        proof {
            assert(self.items@.take(i as int) == self.items@);
            lemma_filter_ordered(self.items@, keep);
        }
        self.items = kept;
    }
}

} // verus!
