//! A particle: where it is, how it moves, and the class it belongs to.

use vstd::prelude::*;
use crate::prelude::ClassId;

verus! {

#[derive(Debug)]
pub struct Particle<V> {
    pub position: V,
    pub velocity: V,
    class: ClassId,
}

/// A particle as a plain value.
pub struct ParticleView<V> {
    pub position: V,
    pub velocity: V,
    pub class: ClassId,
}

impl<V> View for Particle<V> {
    type V = ParticleView<V>;

    closed spec fn view(&self) -> ParticleView<V> {
        ParticleView { position: self.position, velocity: self.velocity, class: self.class }
    }
}

impl<V: Copy> Clone for Particle<V> {
    fn clone(&self) -> (copy: Self)
        ensures
            copy == *self,
    {
        *self
    }
}

impl<V: Copy> Copy for Particle<V> {

}

impl<V> Particle<V> {
    pub fn new(position: V, velocity: V, class: ClassId) -> (particle: Self)
        ensures
            particle@ == (ParticleView { position, velocity, class }),
    {
        Particle { position, velocity, class }
    }

    pub fn class(&self) -> (class: ClassId)
        ensures
            class == self@.class,
    {
        self.class
    }
}

} // verus!
