//! A class of walls. A wall is a heat bath: it has a temperature, and a heat
//! conductivity that says how readily it trades energy with a particle.

use vstd::prelude::*;

verus! {

/// Wall class. Describes the properties of the wall.
#[derive(Debug)]
pub struct WallClass<S> {
    name: String,
    temperature: S,
    heat_conductivity: S,
}

impl<S: Copy> Clone for WallClass<S> {
    fn clone(&self) -> (copy: Self)
        ensures
            copy.name_text() == self.name_text(),
            copy.temperature_value() == self.temperature_value(),
            copy.heat_conductivity_value() == self.heat_conductivity_value(),
    {
        WallClass {
            name: self.name.clone(),
            temperature: self.temperature,
            heat_conductivity: self.heat_conductivity,
        }
    }
}

impl<S: Copy> WallClass<S> {
    pub closed spec fn name_text(&self) -> Seq<char> {
        self.name@
    }

    pub closed spec fn temperature_value(&self) -> S {
        self.temperature
    }

    pub closed spec fn heat_conductivity_value(&self) -> S {
        self.heat_conductivity
    }

    pub fn new(name: &str, temperature: S, heat_conductivity: S) -> (class: Self)
        ensures
            class.name_text() == name@,
            class.temperature_value() == temperature,
            class.heat_conductivity_value() == heat_conductivity,
    {
        WallClass { name: name.to_owned(), temperature, heat_conductivity }
    }

    /// Get the name of the wall class.
    pub fn name(&self) -> (name: &str)
        ensures
            name@ == self.name_text(),
    {
        self.name.as_str()
    }

    /// Temperature of the wall.
    pub fn temperature(&self) -> (temperature: S)
        ensures
            temperature == self.temperature_value(),
    {
        self.temperature
    }

    /// Heat conductivity of the wall.
    pub fn heat_conductivity(&self) -> (heat_conductivity: S)
        ensures
            heat_conductivity == self.heat_conductivity_value(),
    {
        self.heat_conductivity
    }
}

} // verus!
