//! From pairwise contact queries to collision candidates.
//!
//! A contact query yields, for one particle and one other object, the instant
//! and the normal of their first contact, or nothing. The functions here turn
//! the answers for one particle into the collisions that may be scheduled:
//! those that fall into the admission window of every participant.

use vstd::prelude::*;
use crate::clock::{in_window, is_admissible, Tick};
use crate::collision::{Collision, Contact, OtherObject};

verus! {

/// The collision that a contact between particles `main_index` and
/// `other_index` gives rise to, if any: a particle does not collide with
/// itself, and the contact must lie in the window of both particles.
pub open spec fn particle_candidate<N>(
    main_index: usize,
    other_index: int,
    contact: Option<Contact<N>>,
    particle_times: Seq<Tick>,
    tolerance: u64,
    time_threshold: Tick,
) -> Option<Collision<N>> {
    match contact {
        Some(c) => if other_index != main_index
            && in_window(c.time as int, particle_times[main_index as int] as int, tolerance as int, time_threshold as int)
            && in_window(c.time as int, particle_times[other_index] as int, tolerance as int, time_threshold as int) {
            Some(
                Collision {
                    particle: main_index,
                    other: OtherObject::Particle(other_index as usize),
                    normal: c.normal,
                    time: c.time,
                },
            )
        } else {
            None
        },
        None => None,
    }
}

/// The collisions of particle `main_index` with the particles
/// `first_index`, `first_index + 1`, ..., in that order; `contacts[k]` is the
/// contact with particle `first_index + k`.
pub open spec fn particle_candidates<N>(
    main_index: usize,
    first_index: usize,
    contacts: Seq<Option<Contact<N>>>,
    particle_times: Seq<Tick>,
    tolerance: u64,
    time_threshold: Tick,
) -> Seq<Collision<N>>
    decreases contacts.len(),
{
    if contacts.len() == 0 {
        Seq::empty()
    } else {
        let front = particle_candidates(
            main_index,
            first_index,
            contacts.drop_last(),
            particle_times,
            tolerance,
            time_threshold,
        );
        match particle_candidate(
            main_index,
            first_index + contacts.len() - 1,
            contacts.last(),
            particle_times,
            tolerance,
            time_threshold,
        ) {
            Some(collision) => front.push(collision),
            None => front,
        }
    }
}

/// The collision that a contact between a particle and wall `wall_index`
/// gives rise to, if any: the contact must lie in the particle's window.
pub open spec fn wall_candidate<N>(
    particle_index: usize,
    wall_index: int,
    contact: Option<Contact<N>>,
    particle_time: Tick,
    tolerance: u64,
    time_threshold: Tick,
) -> Option<Collision<N>> {
    match contact {
        Some(c) => if in_window(c.time as int, particle_time as int, tolerance as int, time_threshold as int) {
            Some(
                Collision {
                    particle: particle_index,
                    other: OtherObject::Wall(wall_index as usize),
                    normal: c.normal,
                    time: c.time,
                },
            )
        } else {
            None
        },
        None => None,
    }
}

/// The collisions of a particle with the walls 0, 1, ..., in that order;
/// `contacts[w]` is the contact with wall `w`.
pub open spec fn wall_candidates<N>(
    particle_index: usize,
    contacts: Seq<Option<Contact<N>>>,
    particle_time: Tick,
    tolerance: u64,
    time_threshold: Tick,
) -> Seq<Collision<N>>
    decreases contacts.len(),
{
    if contacts.len() == 0 {
        Seq::empty()
    } else {
        let front = wall_candidates(particle_index, contacts.drop_last(), particle_time, tolerance, time_threshold);
        match wall_candidate(
            particle_index,
            contacts.len() - 1,
            contacts.last(),
            particle_time,
            tolerance,
            time_threshold,
        ) {
            Some(collision) => front.push(collision),
            None => front,
        }
    }
}

/// Finds the collisions between particle `main_index` and a run of particles
/// that starts at `first_index`. The run may hold the particle itself, which
/// is skipped. Each particle has its own simulated time; a contact that lies
/// `tolerance` or more before the time of either particle, or not before
/// `time_threshold`, is left out.
pub fn find_collisions_with_particles<N: Copy>(
    main_index: usize,
    first_index: usize,
    contacts: &Vec<Option<Contact<N>>>,
    particle_times: &Vec<Tick>,
    tolerance: u64,
    time_threshold: Tick,
) -> (collisions: Vec<Collision<N>>)
    requires
        main_index < particle_times@.len(),
        first_index + contacts@.len() <= particle_times@.len(),
    ensures
        collisions@ == particle_candidates(
            main_index,
            first_index,
            contacts@,
            particle_times@,
            tolerance,
            time_threshold,
        ),
{
    let mut collisions: Vec<Collision<N>> = Vec::new();
    let mut k: usize = 0;
    assert(particle_times@.len() == particle_times.len());
    while k < contacts.len()
        invariant
            k <= contacts@.len(),
            particle_times@.len() <= usize::MAX,
            main_index < particle_times@.len(),
            first_index + contacts@.len() <= particle_times@.len(),
            collisions@ == particle_candidates(
                main_index,
                first_index,
                contacts@.take(k as int),
                particle_times@,
                tolerance,
                time_threshold,
            ),
        decreases contacts@.len() - k,
    {
        let i: usize = first_index + k;
        proof {
            let upto = contacts@.take(k as int + 1);
            assert(upto.drop_last() == contacts@.take(k as int));
            assert(upto.last() == contacts@[k as int]);
        }
        if i != main_index {
            if let Some(contact) = contacts[k] {
                if is_admissible(contact.time, particle_times[main_index], tolerance, time_threshold)
                    && is_admissible(contact.time, particle_times[i], tolerance, time_threshold) {
                    collisions.push(
                        Collision {
                            particle: main_index,
                            other: OtherObject::Particle(i),
                            normal: contact.normal,
                            time: contact.time,
                        },
                    );
                }
            }
        }
        k += 1;
    }
    proof {
        assert(contacts@.take(k as int) == contacts@);
    }
    collisions
}

/// Finds the collisions between a particle and all walls. A contact that lies
/// `tolerance` or more before `particle_time`, or not before
/// `time_threshold`, is left out.
pub fn find_collisions_with_walls<N: Copy>(
    particle_index: usize,
    contacts: &Vec<Option<Contact<N>>>,
    particle_time: Tick,
    tolerance: u64,
    time_threshold: Tick,
) -> (collisions: Vec<Collision<N>>)
    ensures
        collisions@ == wall_candidates(particle_index, contacts@, particle_time, tolerance, time_threshold),
{
    let mut collisions: Vec<Collision<N>> = Vec::new();
    let mut w: usize = 0;
    while w < contacts.len()
        invariant
            w <= contacts@.len(),
            collisions@ == wall_candidates(
                particle_index,
                contacts@.take(w as int),
                particle_time,
                tolerance,
                time_threshold,
            ),
        decreases contacts@.len() - w,
    {
        proof {
            let upto = contacts@.take(w as int + 1);
            assert(upto.drop_last() == contacts@.take(w as int));
            assert(upto.last() == contacts@[w as int]);
        }
        if let Some(contact) = contacts[w] {
            if is_admissible(contact.time, particle_time, tolerance, time_threshold) {
                collisions.push(
                    Collision {
                        particle: particle_index,
                        other: OtherObject::Wall(w),
                        normal: contact.normal,
                        time: contact.time,
                    },
                );
            }
        }
        w += 1;
    }
    proof {
        assert(contacts@.take(w as int) == contacts@);
    }
    collisions
}

} // verus!
