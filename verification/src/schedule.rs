//! The scheduler's state as a mathematical value, and the steps it takes.
//!
//! A step of the scheduler is a function from one state to the next. The
//! contracts of the executable scheduler are stated with these functions,
//! and the laws at the end of the file are proved about them.

use vstd::prelude::*;
use crate::clock::{in_window, Tick};
use crate::collision::{Collision, Contact, OtherObject};
use crate::candidates::{particle_candidates, wall_candidates};
use crate::event_queue::{latest_first, merged, pushed, slot, without_particle, lemma_slot_splits,
    lemma_merged_ordered, lemma_filter_ordered};

verus! {

/// What the scheduler knows in the middle of a step.
pub struct Schedule<N> {
    /// For each particle, the instant up to which it has been moved.
    pub particle_times: Seq<Tick>,
    /// The number of walls in the scene.
    pub wall_count: usize,
    /// The instant at which the step ends.
    pub timestep: Tick,
    /// How far before a particle's own time a collision may lie.
    pub tolerance: u64,
    /// The queued collisions, latest first.
    pub pending: Seq<Collision<N>>,
}

/// The event names participants that exist, a particle does not meet itself,
/// and the event lies in the window of each participating particle.
pub open spec fn valid_event<N>(
    event: Collision<N>,
    particle_times: Seq<Tick>,
    wall_count: usize,
    tolerance: u64,
    timestep: Tick,
) -> bool {
    &&& event.particle < particle_times.len()
    &&& in_window(
        event.time as int,
        particle_times[event.particle as int] as int,
        tolerance as int,
        timestep as int,
    )
    &&& match event.other {
        OtherObject::Particle(second) => {
            &&& second < particle_times.len()
            &&& second != event.particle
            &&& in_window(
                event.time as int,
                particle_times[second as int] as int,
                tolerance as int,
                timestep as int,
            )
        },
        OtherObject::Wall(wall) => wall < wall_count,
    }
}

/// Every event of the sequence is valid.
pub open spec fn all_valid<N>(
    events: Seq<Collision<N>>,
    particle_times: Seq<Tick>,
    wall_count: usize,
    tolerance: u64,
    timestep: Tick,
) -> bool {
    forall|i: int|
        0 <= i < events.len() ==> valid_event(
            #[trigger] events[i],
            particle_times,
            wall_count,
            tolerance,
            timestep,
        )
}

impl<N> Schedule<N> {
    /// The state at the start of a step: every particle stands at instant 0
    /// and nothing is queued.
    pub open spec fn initial(particle_count: usize, wall_count: usize, timestep: Tick, tolerance: u64) -> Self {
        Schedule {
            particle_times: Seq::new(particle_count as nat, |i: int| 0i128),
            wall_count,
            timestep,
            tolerance,
            pending: Seq::empty(),
        }
    }

    /// The queue is ordered, every queued event is valid for the present
    /// particle times, and a particle that has moved has not reached the end
    /// of the step.
    pub open spec fn well_formed(self) -> bool {
        &&& latest_first(self.pending)
        &&& all_valid(self.pending, self.particle_times, self.wall_count, self.tolerance, self.timestep)
        &&& forall|i: int|
            0 <= i < self.particle_times.len() ==> (#[trigger] self.particle_times[i] == 0
                || self.particle_times[i] < self.timestep)
    }

    /// The event that is resolved next: the earliest one queued.
    pub open spec fn next_event(self) -> Option<Collision<N>> {
        if self.pending.len() == 0 {
            None
        } else {
            Some(self.pending.last())
        }
    }

    /// The state after `incoming` have been queued.
    pub open spec fn with_candidates(self, incoming: Seq<Collision<N>>) -> Self {
        Schedule { pending: merged(self.pending, incoming), ..self }
    }

    /// The collisions of particle `particle_index` with every other particle
    /// and with every wall, as far as they may be scheduled.
    pub open spec fn fresh_candidates(
        self,
        particle_index: usize,
        particle_contacts: Seq<Option<Contact<N>>>,
        wall_contacts: Seq<Option<Contact<N>>>,
    ) -> (Seq<Collision<N>>, Seq<Collision<N>>) {
        (
            particle_candidates(
                particle_index,
                0,
                particle_contacts,
                self.particle_times,
                self.tolerance,
                self.timestep,
            ),
            wall_candidates(
                particle_index,
                wall_contacts,
                self.particle_times[particle_index as int],
                self.tolerance,
                self.timestep,
            ),
        )
    }

    /// The state after the collisions of particle `particle_index` have been
    /// computed afresh and queued: first those with particles, then those
    /// with walls.
    pub open spec fn refreshed(
        self,
        particle_index: usize,
        particle_contacts: Seq<Option<Contact<N>>>,
        wall_contacts: Seq<Option<Contact<N>>>,
    ) -> Self {
        let fresh = self.fresh_candidates(particle_index, particle_contacts, wall_contacts);
        self.with_candidates(fresh.0).with_candidates(fresh.1)
    }

    /// The state after the first `upto` particles have been paired with every
    /// particle of higher index and with every wall. `particle_contacts[i]`
    /// holds the contacts of particle `i` with the particles `i + 1`,
    /// `i + 2`, ...; `wall_contacts[i]` its contacts with the walls.
    pub open spec fn seeded(
        self,
        particle_contacts: Seq<Vec<Option<Contact<N>>>>,
        wall_contacts: Seq<Vec<Option<Contact<N>>>>,
        upto: nat,
    ) -> Self
        decreases upto,
    {
        if upto == 0 {
            self
        } else {
            let i = (upto - 1) as usize;
            let before = self.seeded(particle_contacts, wall_contacts, (upto - 1) as nat);
            before.with_candidates(
                particle_candidates(
                    i,
                    (i + 1) as usize,
                    particle_contacts[i as int]@,
                    before.particle_times,
                    before.tolerance,
                    before.timestep,
                ),
            ).with_candidates(
                wall_candidates(
                    i,
                    wall_contacts[i as int]@,
                    before.particle_times[i as int],
                    before.tolerance,
                    before.timestep,
                ),
            )
        }
    }

    /// The queue once `event` has been taken from its end and every other
    /// event of its participants has been dropped.
    pub open spec fn pending_after(self, event: Collision<N>) -> Seq<Collision<N>> {
        let rest = without_particle(self.pending.drop_last(), event.particle);
        match event.other {
            OtherObject::Particle(second) => without_particle(rest, second),
            OtherObject::Wall(_) => rest,
        }
    }

    /// The particle times once the participants of `event` stand at its
    /// instant.
    pub open spec fn times_after(self, event: Collision<N>) -> Seq<Tick> {
        let moved = self.particle_times.update(event.particle as int, event.time);
        match event.other {
            OtherObject::Particle(second) => moved.update(second as int, event.time),
            OtherObject::Wall(_) => moved,
        }
    }

    /// The state after the earliest event has been resolved. A drained state
    /// stays as it is.
    pub open spec fn after_next(self) -> Self {
        match self.next_event() {
            Some(event) => Schedule {
                particle_times: self.times_after(event),
                pending: self.pending_after(event),
                ..self
            },
            None => self,
        }
    }

    /// The state after `count` events have been resolved one after the other,
    /// with nothing queued in between.
    pub open spec fn after_steps(self, count: nat) -> Self
        decreases count,
    {
        if count == 0 {
            self
        } else {
            self.after_next().after_steps((count - 1) as nat)
        }
    }

    /// The instant from which particle `i` still has to be moved when the
    /// queue has drained: its own time, if it is short of the end of the
    /// step.
    pub open spec fn unfinished(self, i: int) -> Option<Tick> {
        if self.particle_times[i] < self.timestep {
            Some(self.particle_times[i])
        } else {
            None
        }
    }
}

/// Whatever stands in a queue after an event has entered stood there before
/// or is that event.
pub proof fn lemma_pushed_members<N>(events: Seq<Collision<N>>, collision: Collision<N>, i: int)
    requires
        latest_first(events),
        0 <= i < pushed(events, collision).len(),
    ensures
        pushed(events, collision)[i] == collision || events.contains(pushed(events, collision)[i]),
{
    lemma_slot_splits(events, collision.time);
    let k = slot(events, collision.time);
    if i < k {
        assert(pushed(events, collision)[i] == events[i]);
    } else if i > k {
        assert(pushed(events, collision)[i] == events[i - 1]);
    }
}

/// Queuing valid events among valid events leaves only valid events.
pub proof fn lemma_merged_valid<N>(
    events: Seq<Collision<N>>,
    incoming: Seq<Collision<N>>,
    particle_times: Seq<Tick>,
    wall_count: usize,
    tolerance: u64,
    timestep: Tick,
)
    requires
        latest_first(events),
        all_valid(events, particle_times, wall_count, tolerance, timestep),
        all_valid(incoming, particle_times, wall_count, tolerance, timestep),
    ensures
        all_valid(merged(events, incoming), particle_times, wall_count, tolerance, timestep),
        latest_first(merged(events, incoming)),
    decreases incoming.len(),
{
    lemma_merged_ordered(events, incoming);
    if incoming.len() > 0 {
        let front = incoming.drop_last();
        assert forall|i: int| 0 <= i < front.len() implies valid_event(
            #[trigger] front[i],
            particle_times,
            wall_count,
            tolerance,
            timestep,
        ) by {
            assert(front[i] == incoming[i]);
        }
        lemma_merged_valid(events, front, particle_times, wall_count, tolerance, timestep);
        let before = merged(events, front);
        let after = merged(events, incoming);
        assert forall|i: int| 0 <= i < after.len() implies valid_event(
            #[trigger] after[i],
            particle_times,
            wall_count,
            tolerance,
            timestep,
        ) by {
            lemma_pushed_members(before, incoming.last(), i);
            if after[i] != incoming.last() {
                let at = choose|at: int| 0 <= at < before.len() && before[at] == after[i];
                assert(valid_event(before[at], particle_times, wall_count, tolerance, timestep));
            } else {
                assert(incoming[incoming.len() - 1] == incoming.last());
            }
        }
    }
}

/// The candidates found among particles are valid events.
pub proof fn lemma_particle_candidates_valid<N>(
    main_index: usize,
    first_index: usize,
    contacts: Seq<Option<Contact<N>>>,
    particle_times: Seq<Tick>,
    wall_count: usize,
    tolerance: u64,
    timestep: Tick,
)
    requires
        main_index < particle_times.len(),
        first_index + contacts.len() <= particle_times.len(),
        particle_times.len() <= usize::MAX,
    ensures
        all_valid(
            particle_candidates(main_index, first_index, contacts, particle_times, tolerance, timestep),
            particle_times,
            wall_count,
            tolerance,
            timestep,
        ),
    decreases contacts.len(),
{
    if contacts.len() > 0 {
        lemma_particle_candidates_valid(
            main_index,
            first_index,
            contacts.drop_last(),
            particle_times,
            wall_count,
            tolerance,
            timestep,
        );
    }
}

/// The candidates found among walls are valid events.
pub proof fn lemma_wall_candidates_valid<N>(
    particle_index: usize,
    contacts: Seq<Option<Contact<N>>>,
    particle_times: Seq<Tick>,
    wall_count: usize,
    tolerance: u64,
    timestep: Tick,
)
    requires
        particle_index < particle_times.len(),
        contacts.len() <= wall_count,
    ensures
        all_valid(
            wall_candidates(
                particle_index,
                contacts,
                particle_times[particle_index as int],
                tolerance,
                timestep,
            ),
            particle_times,
            wall_count,
            tolerance,
            timestep,
        ),
    decreases contacts.len(),
{
    if contacts.len() > 0 {
        lemma_wall_candidates_valid(
            particle_index,
            contacts.drop_last(),
            particle_times,
            wall_count,
            tolerance,
            timestep,
        );
    }
}

/// What is left after a particle's events have been dropped was queued
/// before and does not involve the particle.
pub proof fn lemma_without_particle_members<N>(events: Seq<Collision<N>>, particle_index: usize, i: int)
    requires
        0 <= i < without_particle(events, particle_index).len(),
    ensures
        events.contains(without_particle(events, particle_index)[i]),
        !without_particle(events, particle_index)[i].involves(particle_index),
{
    let keep = |c: Collision<N>| !c.involves(particle_index);
    let kept = events.filter(keep);
    events.lemma_filter_pred(keep, i);
    assert(kept.contains(kept[i]));
    events.lemma_filter_contains_rev(keep, kept[i]);
}

} // verus!

verus! {

/// Resolving the earliest event keeps the state well formed.
pub proof fn lemma_after_next_well_formed<N>(state: Schedule<N>)
    requires
        state.well_formed(),
    ensures
        state.after_next().well_formed(),
        state.after_next().particle_times.len() == state.particle_times.len(),
{
    if state.pending.len() > 0 {
        let event = state.pending.last();
        let after = state.after_next();
        let rest = state.pending.drop_last();
        let first = without_particle(rest, event.particle);
        assert(valid_event(
            state.pending[state.pending.len() - 1],
            state.particle_times,
            state.wall_count,
            state.tolerance,
            state.timestep,
        ));
        assert(latest_first(rest)) by {
            assert forall|i: int, j: int| 0 <= i < j < rest.len() implies rest[i].time >= rest[j].time by {
                assert(rest[i] == state.pending[i]);
                assert(rest[j] == state.pending[j]);
            }
        }
        lemma_filter_ordered(rest, |c: Collision<N>| !c.involves(event.particle));
        match event.other {
            OtherObject::Particle(second) => {
                lemma_filter_ordered(first, |c: Collision<N>| !c.involves(second));
            },
            OtherObject::Wall(_) => {},
        }
        assert forall|i: int| 0 <= i < after.pending.len() implies valid_event(
            #[trigger] after.pending[i],
            after.particle_times,
            after.wall_count,
            after.tolerance,
            after.timestep,
        ) by {
            let kept = after.pending[i];
            match event.other {
                OtherObject::Particle(second) => {
                    lemma_without_particle_members(first, second, i);
                    let at = choose|at: int| 0 <= at < first.len() && first[at] == kept;
                    lemma_without_particle_members(rest, event.particle, at);
                },
                OtherObject::Wall(_) => {
                    lemma_without_particle_members(rest, event.particle, i);
                },
            }
            let origin = choose|origin: int| 0 <= origin < rest.len() && rest[origin] == kept;
            assert(state.pending[origin] == kept);
            assert(valid_event(
                state.pending[origin],
                state.particle_times,
                state.wall_count,
                state.tolerance,
                state.timestep,
            ));
        }
    }
}

/// Queuing the candidates of a particle keeps the state well formed.
pub proof fn lemma_refreshed_well_formed<N>(
    state: Schedule<N>,
    particle_index: usize,
    particle_contacts: Seq<Option<Contact<N>>>,
    wall_contacts: Seq<Option<Contact<N>>>,
)
    requires
        state.well_formed(),
        particle_index < state.particle_times.len(),
        particle_contacts.len() == state.particle_times.len(),
        wall_contacts.len() == state.wall_count,
        state.particle_times.len() <= usize::MAX,
    ensures
        state.refreshed(particle_index, particle_contacts, wall_contacts).well_formed(),
{
    let fresh = state.fresh_candidates(particle_index, particle_contacts, wall_contacts);
    lemma_particle_candidates_valid(
        particle_index,
        0,
        particle_contacts,
        state.particle_times,
        state.wall_count,
        state.tolerance,
        state.timestep,
    );
    lemma_wall_candidates_valid(
        particle_index,
        wall_contacts,
        state.particle_times,
        state.wall_count,
        state.tolerance,
        state.timestep,
    );
    lemma_merged_valid(
        state.pending,
        fresh.0,
        state.particle_times,
        state.wall_count,
        state.tolerance,
        state.timestep,
    );
    lemma_merged_valid(
        merged(state.pending, fresh.0),
        fresh.1,
        state.particle_times,
        state.wall_count,
        state.tolerance,
        state.timestep,
    );
}

/// Events are resolved in the order of their time: the event that is taken
/// next is no later than any event still queued. So an event is never taken
/// while an earlier one waits; by the time it is taken, every earlier event
/// has been resolved or dropped.
pub proof fn lemma_earliest_first<N>(state: Schedule<N>, i: int)
    requires
        state.well_formed(),
        0 <= i < state.pending.len(),
    ensures
        state.next_event().is_some(),
        state.next_event().unwrap().time <= state.pending[i].time,
{
}

/// Of two queued events the later one waits: it is not the one that is taken
/// next. It stays so for as long as the earlier one is queued, since every
/// step begins in a well-formed state.
pub proof fn lemma_later_waits<N>(state: Schedule<N>, earlier: int, later: int)
    requires
        state.well_formed(),
        0 <= earlier < state.pending.len(),
        0 <= later < state.pending.len(),
        state.pending[earlier].time < state.pending[later].time,
    ensures
        state.next_event() != Some(state.pending[later]),
        later < earlier,
{
}

/// Once an event has been resolved, the queue holds no event of its
/// participants: whatever was predicted for them before is gone.
pub proof fn lemma_participants_cleared<N>(state: Schedule<N>, i: int)
    requires
        state.well_formed(),
        state.pending.len() > 0,
        0 <= i < state.after_next().pending.len(),
    ensures
        !state.after_next().pending[i].involves(state.pending.last().particle),
        state.pending.last().other matches OtherObject::Particle(second)
            ==> !state.after_next().pending[i].involves(second),
        state.pending.contains(state.after_next().pending[i]),
{
    let event = state.pending.last();
    let rest = state.pending.drop_last();
    let first = without_particle(rest, event.particle);
    let kept = state.after_next().pending[i];
    match event.other {
        OtherObject::Particle(second) => {
            lemma_without_particle_members(first, second, i);
            let at = choose|at: int| 0 <= at < first.len() && first[at] == kept;
            lemma_without_particle_members(rest, event.particle, at);
        },
        OtherObject::Wall(_) => {
            lemma_without_particle_members(rest, event.particle, i);
        },
    }
    let origin = choose|origin: int| 0 <= origin < rest.len() && rest[origin] == kept;
    assert(state.pending[origin] == kept);
}

/// Resolving an event moves its participants to the instant of the event and
/// no other particle. A participant falls back by less than the tolerance,
/// and stays short of the end of the step.
pub proof fn lemma_time_advances<N>(state: Schedule<N>, particle_index: usize)
    requires
        state.well_formed(),
        state.pending.len() > 0,
        particle_index < state.particle_times.len(),
    ensures
        state.after_next().particle_times.len() == state.particle_times.len(),
        state.pending.last().involves(particle_index) ==> {
            &&& state.after_next().particle_times[particle_index as int] == state.pending.last().time
            &&& state.after_next().particle_times[particle_index as int] > state.particle_times[particle_index as int]
                - state.tolerance
            &&& state.after_next().particle_times[particle_index as int] < state.timestep
        },
        !state.pending.last().involves(particle_index) ==> state.after_next().particle_times[particle_index as int]
            == state.particle_times[particle_index as int],
{
    assert(valid_event(
        state.pending[state.pending.len() - 1],
        state.particle_times,
        state.wall_count,
        state.tolerance,
        state.timestep,
    ));
}

/// The candidates found among particles are no more than the contacts they
/// were found in.
pub proof fn lemma_particle_candidates_len<N>(
    main_index: usize,
    first_index: usize,
    contacts: Seq<Option<Contact<N>>>,
    particle_times: Seq<Tick>,
    tolerance: u64,
    timestep: Tick,
)
    ensures
        particle_candidates(main_index, first_index, contacts, particle_times, tolerance, timestep).len()
            <= contacts.len(),
    decreases contacts.len(),
{
    if contacts.len() > 0 {
        lemma_particle_candidates_len(
            main_index,
            first_index,
            contacts.drop_last(),
            particle_times,
            tolerance,
            timestep,
        );
    }
}

/// The candidates found among walls are no more than the contacts they were
/// found in.
pub proof fn lemma_wall_candidates_len<N>(
    particle_index: usize,
    contacts: Seq<Option<Contact<N>>>,
    particle_time: Tick,
    tolerance: u64,
    timestep: Tick,
)
    ensures
        wall_candidates(particle_index, contacts, particle_time, tolerance, timestep).len() <= contacts.len(),
    decreases contacts.len(),
{
    if contacts.len() > 0 {
        lemma_wall_candidates_len(particle_index, contacts.drop_last(), particle_time, tolerance, timestep);
    }
}

/// Resolving an event shortens the queue: the event leaves it, and nothing
/// enters.
pub proof fn lemma_next_shortens_queue<N>(state: Schedule<N>)
    requires
        state.pending.len() > 0,
    ensures
        state.after_next().pending.len() < state.pending.len(),
{
    broadcast use vstd::seq_lib::group_filter_ensures;

    let event = state.pending.last();
    let rest = state.pending.drop_last();
    let first = without_particle(rest, event.particle);
    assert(first.len() <= rest.len());
    match event.other {
        OtherObject::Particle(second) => {
            assert(without_particle(first, second).len() <= first.len());
        },
        OtherObject::Wall(_) => {},
    }
}

/// Left alone, the queue drains: when nothing new is queued, no event is
/// left after as many steps as there were events.
pub proof fn lemma_queue_drains<N>(state: Schedule<N>, count: nat)
    requires
        count >= state.pending.len(),
    ensures
        state.after_steps(count).pending.len() == 0,
    decreases count,
{
    if count > 0 {
        if state.pending.len() > 0 {
            lemma_next_shortens_queue(state);
        }
        lemma_queue_drains(state.after_next(), (count - 1) as nat);
    }
}

/// Computing the collisions of one particle afresh lengthens the queue by
/// no more than one event for each other object of the scene.
pub proof fn lemma_refresh_is_bounded<N>(
    state: Schedule<N>,
    particle_index: usize,
    particle_contacts: Seq<Option<Contact<N>>>,
    wall_contacts: Seq<Option<Contact<N>>>,
)
    requires
        state.well_formed(),
    ensures
        state.refreshed(particle_index, particle_contacts, wall_contacts).pending.len() <= state.pending.len()
            + particle_contacts.len() + wall_contacts.len(),
{
    let fresh = state.fresh_candidates(particle_index, particle_contacts, wall_contacts);
    lemma_particle_candidates_len(
        particle_index,
        0,
        particle_contacts,
        state.particle_times,
        state.tolerance,
        state.timestep,
    );
    lemma_wall_candidates_len(
        particle_index,
        wall_contacts,
        state.particle_times[particle_index as int],
        state.tolerance,
        state.timestep,
    );
    lemma_merged_ordered(state.pending, fresh.0);
    lemma_merged_ordered(merged(state.pending, fresh.0), fresh.1);
}

} // verus!
