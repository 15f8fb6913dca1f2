//! Collision events: who meets whom, along which normal, and when.

use vstd::prelude::*;
use core::cmp::Ordering;
use vstd::std_specs::cmp::{PartialEqSpecImpl, PartialOrdSpecImpl};
use crate::clock::Tick;

verus! {

/// The second participant of a collision.
#[derive(Debug, Clone, Copy, PartialEq, Eq, Structural)]
pub enum OtherObject {
    /// Another particle, by its index in the particle array.
    Particle(usize),
    /// A wall, by its index in the wall array.
    Wall(usize),
}

/// What a pairwise collision query found: the instant of contact and the
/// contact normal. The normal is carried through untouched; the scheduler
/// never looks inside it.
#[derive(Debug)]
pub struct Contact<N> {
    pub time: Tick,
    pub normal: N,
}

impl<N: Copy> Clone for Contact<N> {
    fn clone(&self) -> (copy: Self)
        ensures
            copy == *self,
    {
        *self
    }
}

impl<N: Copy> Copy for Contact<N> {

}

/// A predicted collision between a particle and another object.
#[derive(Debug)]
pub struct Collision<N> {
    pub particle: usize,
    pub other: OtherObject,
    pub normal: N,
    pub time: Tick,
}

impl<N: Copy> Clone for Collision<N> {
    fn clone(&self) -> (copy: Self)
        ensures
            copy == *self,
    {
        *self
    }
}

impl<N: Copy> Copy for Collision<N> {

}

/// Two collisions are equal when they name the same participants at the
/// same instant, whatever their normals.
impl<N> PartialEq for Collision<N> {
    fn eq(&self, other: &Self) -> (equal: bool) {
        self.time == other.time && self.particle == other.particle && self.other == other.other
    }
}

impl<N> PartialEqSpecImpl for Collision<N> {
    open spec fn obeys_eq_spec() -> bool {
        true
    }

    open spec fn eq_spec(&self, other: &Self) -> bool {
        self.same_event(*other)
    }
}

/// Collisions are ordered by their time alone.
impl<N> PartialOrd for Collision<N> {
    fn partial_cmp(&self, other: &Self) -> (order: Option<Ordering>) {
        if self.time < other.time {
            Some(Ordering::Less)
        } else if self.time == other.time {
            Some(Ordering::Equal)
        } else {
            Some(Ordering::Greater)
        }
    }
}

impl<N> PartialOrdSpecImpl for Collision<N> {
    open spec fn obeys_partial_cmp_spec() -> bool {
        true
    }

    open spec fn partial_cmp_spec(&self, other: &Self) -> Option<Ordering> {
        if self.time < other.time {
            Some(Ordering::Less)
        } else if self.time == other.time {
            Some(Ordering::Equal)
        } else {
            Some(Ordering::Greater)
        }
    }
}

impl<N> Collision<N> {
    /// True when `particle_index` is one of the participants.
    pub open spec fn involves(self, particle_index: usize) -> bool {
        self.particle == particle_index || self.other == OtherObject::Particle(particle_index)
    }

    /// True when both events name the same participants at the same instant.
    /// The normal does not take part in the comparison.
    pub open spec fn same_event(self, other: Self) -> bool {
        self.time == other.time && self.particle == other.particle && self.other == other.other
    }

    /// The participants, first particle first.
    pub open spec fn participants(self) -> Seq<usize> {
        match self.other {
            OtherObject::Particle(second) => seq![self.particle, second],
            OtherObject::Wall(_) => seq![self.particle],
        }
    }

    pub fn involves_particle(&self, particle_index: usize) -> (hit: bool)
        ensures
            hit == self.involves(particle_index),
    {
        (self.particle == particle_index) || match self.other {
            OtherObject::Particle(i) => i == particle_index,
            OtherObject::Wall(_) => false,
        }
    }

    /// The particles whose motion this collision changes: the first
    /// participant, followed by the second when it is a particle.
    pub fn touched_particles(&self) -> (touched: Vec<usize>)
        ensures
            touched@ == self.participants(),
    {
        let mut touched: Vec<usize> = Vec::new();
        touched.push(self.particle);
        match self.other {
            OtherObject::Particle(second) => {
                touched.push(second);
            },
            OtherObject::Wall(_) => {},
        }
        assert(touched@ =~= self.participants());
        touched
    }
}

/// A particle is a participant exactly when it is listed among them.
pub proof fn lemma_involves_iff_participant<N>(collision: Collision<N>, particle_index: usize)
    ensures
        collision.involves(particle_index) <==> collision.participants().contains(particle_index),
{
    let ps = collision.participants();
    match collision.other {
        OtherObject::Particle(second) => {
            assert(ps[0] == collision.particle);
            assert(ps[1] == second);
            if collision.involves(particle_index) {
                if collision.particle == particle_index {
                    assert(ps[0] == particle_index);
                } else {
                    assert(ps[1] == particle_index);
                }
            }
        },
        OtherObject::Wall(_) => {
            assert(ps[0] == collision.particle);
        },
    }
}

} // verus!
