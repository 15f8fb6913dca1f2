//! The event-driven scheduler.
//!
//! The scheduler owns the per-particle times and the queue of predicted
//! collisions. Its caller owns the particles: it answers the contact queries,
//! moves the participants of each resolved event and gives them their new
//! velocities. One step of a scene runs as follows.
//!
//! 1. `MotionResolver::new`, then `seed` with the contacts of every pair of
//!    particles and of every particle with every wall.
//! 2. While `resolve_next` hands out an event: move its participants from
//!    the times it reports to the time of the event, change their
//!    velocities, and `refresh` each of them with its contacts against the
//!    whole scene.
//! 3. Move every particle that `finish` reports from its time to the end of
//!    the step.

use vstd::prelude::*;
use crate::clock::Tick;
use crate::collision::{Collision, Contact, OtherObject};
use crate::candidates::{find_collisions_with_particles, find_collisions_with_walls};
use crate::event_queue::EventQueue;
use crate::schedule::{Schedule, valid_event, lemma_after_next_well_formed, lemma_merged_valid,
    lemma_particle_candidates_valid, lemma_wall_candidates_valid, lemma_refreshed_well_formed};

verus! {

/// An event that has just been resolved, with the times at which its
/// participants stood before: from there each has to be moved to the time of
/// the event.
#[derive(Debug)]
pub struct Resolved<N> {
    /// The event.
    pub collision: Collision<N>,
    /// The time of the first participant before the event.
    pub particle_time: Tick,
    /// The time of the second participant before the event, when the second
    /// participant is a particle.
    pub other_time: Option<Tick>,
}

impl<N> Schedule<N> {
    /// What `resolve_next` reports in this state.
    pub open spec fn resolved(self) -> Option<Resolved<N>> {
        match self.next_event() {
            Some(event) => Some(
                Resolved {
                    collision: event,
                    particle_time: self.particle_times[event.particle as int],
                    other_time: match event.other {
                        OtherObject::Particle(second) => Some(self.particle_times[second as int]),
                        OtherObject::Wall(_) => None,
                    },
                },
            ),
            None => None,
        }
    }
}

/// The scheduler of one step.
pub struct MotionResolver<N> {
    particle_time: Vec<Tick>,
    wall_count: usize,
    timestep: Tick,
    tolerance: u64,
    current_collisions: EventQueue<N>,
}

impl<N> View for MotionResolver<N> {
    type V = Schedule<N>;

    closed spec fn view(&self) -> Schedule<N> {
        Schedule {
            particle_times: self.particle_time@,
            wall_count: self.wall_count,
            timestep: self.timestep,
            tolerance: self.tolerance,
            pending: self.current_collisions@,
        }
    }
}

impl<N: Copy> MotionResolver<N> {
    /// A scheduler for a step of length `timestep` over `particle_count`
    /// particles and `wall_count` walls. Every particle starts at instant 0.
    pub fn new(particle_count: usize, wall_count: usize, timestep: Tick, tolerance: u64) -> (resolver: Self)
        ensures
            resolver@ == Schedule::<N>::initial(particle_count, wall_count, timestep, tolerance),
            resolver@.well_formed(),
    {
        let mut particle_time: Vec<Tick> = Vec::new();
        let mut i: usize = 0;
        while i < particle_count
            invariant
                i <= particle_count,
                particle_time@ == Seq::new(i as nat, |k: int| 0i128),
            decreases particle_count - i,
        {
            particle_time.push(0);
            i += 1;
            assert(particle_time@ =~= Seq::new(i as nat, |k: int| 0i128));
        }
        MotionResolver { particle_time, wall_count, timestep, tolerance, current_collisions: EventQueue::new() }
    }

    pub fn particle_count(&self) -> (count: usize)
        ensures
            count == self@.particle_times.len(),
    {
        self.particle_time.len()
    }

    pub fn wall_count(&self) -> (count: usize)
        ensures
            count == self@.wall_count,
    {
        self.wall_count
    }

    pub fn timestep(&self) -> (timestep: Tick)
        ensures
            timestep == self@.timestep,
    {
        self.timestep
    }

    pub fn tolerance(&self) -> (tolerance: u64)
        ensures
            tolerance == self@.tolerance,
    {
        self.tolerance
    }

    /// The instant up to which particle `particle_index` has been moved.
    pub fn particle_time(&self, particle_index: usize) -> (time: Tick)
        requires
            particle_index < self@.particle_times.len(),
        ensures
            time == self@.particle_times[particle_index as int],
    {
        self.particle_time[particle_index]
    }

    /// The number of queued events.
    pub fn pending_count(&self) -> (count: usize)
        ensures
            count == self@.pending.len(),
    {
        self.current_collisions.len()
    }

    /// True when no event is queued.
    pub fn is_drained(&self) -> (drained: bool)
        ensures
            drained == (self@.pending.len() == 0),
    {
        self.current_collisions.is_empty()
    }

    /// Queues the collisions of every particle with the particles of higher
    /// index and with all walls. `particle_contacts[i]` holds the contacts of
    /// particle `i` with the particles `i + 1`, `i + 2`, ..., and
    /// `wall_contacts[i]` its contacts with the walls.
    pub fn seed(
        &mut self,
        particle_contacts: &Vec<Vec<Option<Contact<N>>>>,
        wall_contacts: &Vec<Vec<Option<Contact<N>>>>,
    )
        requires
            old(self)@.well_formed(),
            particle_contacts@.len() == old(self)@.particle_times.len(),
            wall_contacts@.len() == old(self)@.particle_times.len(),
            forall|i: int|
                0 <= i < particle_contacts@.len() ==> (#[trigger] particle_contacts@[i])@.len() + i + 1
                    == particle_contacts@.len(),
            forall|i: int|
                0 <= i < wall_contacts@.len() ==> (#[trigger] wall_contacts@[i])@.len() == old(self)@.wall_count,
        ensures
            final(self)@ == old(self)@.seeded(
                particle_contacts@,
                wall_contacts@,
                old(self)@.particle_times.len(),
            ),
            final(self)@.well_formed(),
    {
        let particle_count: usize = self.particle_time.len();
        let mut i: usize = 0;
        while i < particle_count
            invariant
                i <= particle_count,
                particle_count == self@.particle_times.len(),
                particle_contacts@.len() == particle_count,
                wall_contacts@.len() == particle_count,
                forall|k: int|
                    0 <= k < particle_contacts@.len() ==> (#[trigger] particle_contacts@[k])@.len() + k + 1
                        == particle_contacts@.len(),
                forall|k: int|
                    0 <= k < wall_contacts@.len() ==> (#[trigger] wall_contacts@[k])@.len() == self@.wall_count,
                self@ == old(self)@.seeded(particle_contacts@, wall_contacts@, i as nat),
                self@.well_formed(),
            decreases particle_count - i,
        {
            let ghost before = self@;
            let with_particles = find_collisions_with_particles(
                i,
                i + 1,
                &particle_contacts[i],
                &self.particle_time,
                self.tolerance,
                self.timestep,
            );
            proof {
                lemma_particle_candidates_valid(
                    i,
                    (i + 1) as usize,
                    particle_contacts@[i as int]@,
                    before.particle_times,
                    before.wall_count,
                    before.tolerance,
                    before.timestep,
                );
                lemma_merged_valid(
                    before.pending,
                    with_particles@,
                    before.particle_times,
                    before.wall_count,
                    before.tolerance,
                    before.timestep,
                );
            }
            self.current_collisions.merge(&with_particles);
            let with_walls = find_collisions_with_walls(
                i,
                &wall_contacts[i],
                self.particle_time[i],
                self.tolerance,
                self.timestep,
            );
            proof {
                lemma_wall_candidates_valid(
                    i,
                    wall_contacts@[i as int]@,
                    before.particle_times,
                    before.wall_count,
                    before.tolerance,
                    before.timestep,
                );
                lemma_merged_valid(
                    self@.pending,
                    with_walls@,
                    before.particle_times,
                    before.wall_count,
                    before.tolerance,
                    before.timestep,
                );
            }
            self.current_collisions.merge(&with_walls);
            i += 1;
        }
    }

    /// Computes afresh the collisions of particle `particle_index` against
    /// the whole scene and queues them. `particle_contacts[j]` is its contact
    /// with particle `j` (its own entry is skipped) and `wall_contacts[w]`
    /// its contact with wall `w`.
    pub fn refresh(
        &mut self,
        particle_index: usize,
        particle_contacts: &Vec<Option<Contact<N>>>,
        wall_contacts: &Vec<Option<Contact<N>>>,
    )
        requires
            old(self)@.well_formed(),
            particle_index < old(self)@.particle_times.len(),
            particle_contacts@.len() == old(self)@.particle_times.len(),
            wall_contacts@.len() == old(self)@.wall_count,
        ensures
            final(self)@ == old(self)@.refreshed(particle_index, particle_contacts@, wall_contacts@),
            final(self)@.well_formed(),
    {
        let ghost before = self@;
        let particle_count: usize = self.particle_time.len();
        proof {
            assert(before.particle_times.len() == particle_count);
            lemma_refreshed_well_formed(before, particle_index, particle_contacts@, wall_contacts@);
            lemma_particle_candidates_valid(
                particle_index,
                0,
                particle_contacts@,
                before.particle_times,
                before.wall_count,
                before.tolerance,
                before.timestep,
            );
            lemma_merged_valid(
                before.pending,
                before.fresh_candidates(particle_index, particle_contacts@, wall_contacts@).0,
                before.particle_times,
                before.wall_count,
                before.tolerance,
                before.timestep,
            );
        }
        let with_particles = find_collisions_with_particles(
            particle_index,
            0,
            particle_contacts,
            &self.particle_time,
            self.tolerance,
            self.timestep,
        );
        self.current_collisions.merge(&with_particles);
        let with_walls = find_collisions_with_walls(
            particle_index,
            wall_contacts,
            self.particle_time[particle_index],
            self.tolerance,
            self.timestep,
        );
        self.current_collisions.merge(&with_walls);
    }

    /// Takes the earliest event from the queue, sets the time of its
    /// participants to the time of the event and drops every other queued
    /// event in which one of them takes part. Returns nothing, and changes
    /// nothing, when the queue is empty.
    pub fn resolve_next(&mut self) -> (resolved: Option<Resolved<N>>)
        requires
            old(self)@.well_formed(),
        ensures
            resolved == old(self)@.resolved(),
            resolved.is_some() == (old(self)@.pending.len() > 0),
            final(self)@ == old(self)@.after_next(),
            final(self)@.well_formed(),
            forall|i: int|
                0 <= i < old(self)@.pending.len() ==> resolved.unwrap().collision.time <= old(self)@.pending[i].time,
    {
        let ghost before = self@;
        proof {
            lemma_after_next_well_formed(before);
        }
        match self.current_collisions.pop() {
            None => None,
            Some(event) => {
                assert(valid_event(
                    before.pending[before.pending.len() - 1],
                    before.particle_times,
                    before.wall_count,
                    before.tolerance,
                    before.timestep,
                ));
                let particle_time = self.particle_time[event.particle];
                self.current_collisions.remove_involving(event.particle);
                let other_time = match event.other {
                    OtherObject::Particle(second) => {
                        let time = self.particle_time[second];
                        self.current_collisions.remove_involving(second);
                        self.particle_time[second] = event.time;
                        Some(time)
                    },
                    OtherObject::Wall(_) => None,
                };
                self.particle_time[event.particle] = event.time;
                assert(self@.particle_times =~= before.times_after(event));
                Some(Resolved { collision: event, particle_time, other_time })
            },
        }
    }

    /// The instant from which particle `particle_index` still has to be
    /// moved to reach the end of the step: its own time. There is none when
    /// the particle is not short of the end.
    pub fn unfinished(&self, particle_index: usize) -> (from: Option<Tick>)
        requires
            particle_index < self@.particle_times.len(),
        ensures
            from == self@.unfinished(particle_index as int),
    {
        let now = self.particle_time[particle_index];
        if now < self.timestep {
            Some(now)
        } else {
            None
        }
    }

    /// For every particle, the instant from which it still has to be moved
    /// to reach the end of the step, if it is short of it.
    pub fn finish(&self) -> (starts: Vec<Option<Tick>>)
        ensures
            starts@.len() == self@.particle_times.len(),
            forall|i: int| 0 <= i < starts@.len() ==> starts@[i] == self@.unfinished(i),
    {
        let mut starts: Vec<Option<Tick>> = Vec::new();
        let mut i: usize = 0;
        while i < self.particle_time.len()
            invariant
                i <= self@.particle_times.len(),
                starts@.len() == i,
                forall|k: int| 0 <= k < i ==> starts@[k] == self@.unfinished(k),
            decreases self@.particle_times.len() - i,
        {
            starts.push(self.unfinished(i));
            i += 1;
        }
        starts
    }
}

} // verus!
