//! A class of particles: what all particles of one kind have in common.

use vstd::prelude::*;

verus! {

#[derive(Debug)]
pub struct ParticleClass<S> {
    name: String,
    mass: S,
    radius: S,
}

impl<S: Copy> Clone for ParticleClass<S> {
    fn clone(&self) -> (copy: Self)
        ensures
            copy.name_text() == self.name_text(),
            copy.mass_value() == self.mass_value(),
            copy.radius_value() == self.radius_value(),
    {
        ParticleClass { name: self.name.clone(), mass: self.mass, radius: self.radius }
    }
}

impl<S: Copy> ParticleClass<S> {
    pub closed spec fn name_text(&self) -> Seq<char> {
        self.name@
    }

    pub closed spec fn mass_value(&self) -> S {
        self.mass
    }

    pub closed spec fn radius_value(&self) -> S {
        self.radius
    }

    pub fn new(name: &str, mass: S, radius: S) -> (class: Self)
        ensures
            class.name_text() == name@,
            class.mass_value() == mass,
            class.radius_value() == radius,
    {
        ParticleClass { name: name.to_owned(), mass, radius }
    }

    pub fn name(&self) -> (name: &str)
        ensures
            name@ == self.name_text(),
    {
        self.name.as_str()
    }

    pub fn mass(&self) -> (mass: S)
        ensures
            mass == self.mass_value(),
    {
        self.mass
    }

    pub fn radius(&self) -> (radius: S)
        ensures
            radius == self.radius_value(),
    {
        self.radius
    }
}

} // verus!
