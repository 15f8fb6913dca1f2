//! The scene: classes, particles, walls and gravity.
//!
//! Every particle and every wall belongs to a class that the scene knows. A
//! particle or a wall of an unknown class is never taken in.

use vstd::prelude::*;
use std::collections::HashMap;
use crate::particle::Particle;
use crate::particle_class::ParticleClass;
use crate::prelude::ClassId;
use crate::wall::Wall;
use crate::wall_class::WallClass;

verus! {

broadcast use vstd::std_specs::hash::group_hash_axioms;

pub struct Simulation<S, V> {
    particle_classes: HashMap<ClassId, ParticleClass<S>>,
    particles: Vec<Particle<V>>,
    wall_classes: HashMap<ClassId, WallClass<S>>,
    walls: Vec<Wall<V>>,
    gravity: S,
}

/// A scene as a plain value.
pub struct SimulationView<S, V> {
    pub particle_classes: Map<ClassId, ParticleClass<S>>,
    pub particles: Seq<Particle<V>>,
    pub wall_classes: Map<ClassId, WallClass<S>>,
    pub walls: Seq<Wall<V>>,
    pub gravity: S,
}

impl<S, V: Copy> SimulationView<S, V> {
    /// Every particle and every wall is of a class of the scene.
    pub open spec fn classes_known(self) -> bool {
        &&& forall|i: int|
            0 <= i < self.particles.len() ==> self.particle_classes.contains_key(
                (#[trigger] self.particles[i])@.class,
            )
        &&& forall|i: int|
            0 <= i < self.walls.len() ==> self.wall_classes.contains_key((#[trigger] self.walls[i]).class_id())
    }
}

impl<S, V> View for Simulation<S, V> {
    type V = SimulationView<S, V>;

    closed spec fn view(&self) -> SimulationView<S, V> {
        SimulationView {
            particle_classes: self.particle_classes@,
            particles: self.particles@,
            wall_classes: self.wall_classes@,
            walls: self.walls@,
            gravity: self.gravity,
        }
    }
}

impl<S: Copy, V: Copy> Clone for Simulation<S, V> {
    fn clone(&self) -> (copy: Self)
        ensures
            copy@.particles == self@.particles,
            copy@.gravity == self@.gravity,
            copy@.walls.len() == self@.walls.len(),
            forall|i: int|
                0 <= i < self@.walls.len() ==> {
                    &&& (#[trigger] copy@.walls[i]).outline() == self@.walls[i].outline()
                    &&& copy@.walls[i].class_id() == self@.walls[i].class_id()
                },
    {
        let mut particles: Vec<Particle<V>> = Vec::new();
        let mut i: usize = 0;
        while i < self.particles.len()
            invariant
                i <= self.particles@.len(),
                particles@ == self.particles@.take(i as int),
            decreases self.particles@.len() - i,
        {
            particles.push(self.particles[i]);
            i += 1;
            assert(particles@ =~= self.particles@.take(i as int));
        }
        assert(self.particles@.take(i as int) == self.particles@);
        let mut walls: Vec<Wall<V>> = Vec::new();
        let mut w: usize = 0;
        while w < self.walls.len()
            invariant
                w <= self.walls@.len(),
                walls@.len() == w,
                forall|k: int|
                    0 <= k < w ==> {
                        &&& (#[trigger] walls@[k]).outline() == self.walls@[k].outline()
                        &&& walls@[k].class_id() == self.walls@[k].class_id()
                    },
            decreases self.walls@.len() - w,
        {
            walls.push(self.walls[w].clone());
            w += 1;
        }
        Simulation {
            particle_classes: self.particle_classes.clone(),
            particles,
            wall_classes: self.wall_classes.clone(),
            walls,
            gravity: self.gravity,
        }
    }
}

impl<S: Copy, V: Copy> Simulation<S, V> {
    /// An empty scene with the given classes.
    pub fn new(
        particle_classes: HashMap<ClassId, ParticleClass<S>>,
        wall_classes: HashMap<ClassId, WallClass<S>>,
        gravity: S,
    ) -> (simulation: Self)
        ensures
            simulation@ == (SimulationView {
                particle_classes: particle_classes@,
                particles: Seq::<Particle<V>>::empty(),
                wall_classes: wall_classes@,
                walls: Seq::<Wall<V>>::empty(),
                gravity,
            }),
            simulation@.classes_known(),
    {
        Simulation { particle_classes, particles: Vec::new(), wall_classes, walls: Vec::new(), gravity }
    }

    pub fn particle_classes(&self) -> (classes: &HashMap<ClassId, ParticleClass<S>>)
        ensures
            classes@ == self@.particle_classes,
    {
        &self.particle_classes
    }

    pub fn particles(&self) -> (particles: &[Particle<V>])
        ensures
            particles@ == self@.particles,
    {
        self.particles.as_slice()
    }

    /// Lends the particles out for change. Their number stays as it is.
    pub fn particles_mut(&mut self) -> (particles: &mut [Particle<V>])
        ensures
            particles@ == old(self)@.particles,
            final(self)@ == (SimulationView { particles: final(particles)@, ..old(self)@ }),
    {
        self.particles.as_mut_slice()
    }

    /// Hands all particles out and leaves the scene without any.
    pub fn take_particles(&mut self) -> (particles: Vec<Particle<V>>)
        ensures
            particles@ == old(self)@.particles,
            final(self)@ == (SimulationView { particles: Seq::<Particle<V>>::empty(), ..old(self)@ }),
    {
        let mut particles: Vec<Particle<V>> = Vec::new();
        core::mem::swap(&mut self.particles, &mut particles);
        particles
    }

    /// Puts `particles` in the place of the particles of the scene.
    pub fn put_particles(&mut self, particles: Vec<Particle<V>>)
        ensures
            final(self)@ == (SimulationView { particles: particles@, ..old(self)@ }),
    {
        self.particles = particles;
    }

    pub fn wall_classes(&self) -> (classes: &HashMap<ClassId, WallClass<S>>)
        ensures
            classes@ == self@.wall_classes,
    {
        &self.wall_classes
    }

    pub fn walls(&self) -> (walls: &[Wall<V>])
        ensures
            walls@ == self@.walls,
    {
        self.walls.as_slice()
    }

    pub fn gravity(&self) -> (gravity: S)
        ensures
            gravity == self@.gravity,
    {
        self.gravity
    }

    /// Adds a particle. Its class has to be one of the scene.
    pub fn spawn_particle(&mut self, particle: Particle<V>)
        requires
            old(self)@.particle_classes.contains_key(particle@.class),
        ensures
            final(self)@ == (SimulationView { particles: old(self)@.particles.push(particle), ..old(self)@ }),
            old(self)@.classes_known() ==> final(self)@.classes_known(),
    {
        self.particles.push(particle);
    }

    /// Adds particles, in their order. The class of each has to be one of the
    /// scene.
    pub fn spawn_particles(&mut self, particles: &[Particle<V>])
        requires
            forall|i: int|
                0 <= i < particles@.len() ==> old(self)@.particle_classes.contains_key(
                    (#[trigger] particles@[i])@.class,
                ),
        ensures
            final(self)@ == (SimulationView { particles: old(self)@.particles + particles@, ..old(self)@ }),
            old(self)@.classes_known() ==> final(self)@.classes_known(),
    {
        let mut i: usize = 0;
        while i < particles.len()
            invariant
                i <= particles@.len(),
                self@ == (SimulationView {
                    particles: old(self)@.particles + particles@.take(i as int),
                    ..old(self)@
                }),
            decreases particles@.len() - i,
        {
            self.particles.push(particles[i]);
            i += 1;
            assert(self@.particles =~= old(self)@.particles + particles@.take(i as int));
        }
        assert(particles@.take(i as int) == particles@);
    }

    /// Adds a wall. Its class has to be one of the scene.
    pub fn spawn_wall(&mut self, wall: Wall<V>)
        requires
            old(self)@.wall_classes.contains_key(wall.class_id()),
        ensures
            final(self)@ == (SimulationView { walls: old(self)@.walls.push(wall), ..old(self)@ }),
            old(self)@.classes_known() ==> final(self)@.classes_known(),
    {
        self.walls.push(wall);
    }

    /// Adds walls, in their order. The class of each has to be one of the
    /// scene.
    pub fn spawn_walls(&mut self, walls: &[Wall<V>])
        requires
            forall|i: int|
                0 <= i < walls@.len() ==> old(self)@.wall_classes.contains_key((#[trigger] walls@[i]).class_id()),
        ensures
            final(self)@.particle_classes == old(self)@.particle_classes,
            final(self)@.particles == old(self)@.particles,
            final(self)@.wall_classes == old(self)@.wall_classes,
            final(self)@.gravity == old(self)@.gravity,
            final(self)@.walls.len() == old(self)@.walls.len() + walls@.len(),
            forall|i: int| 0 <= i < old(self)@.walls.len() ==> final(self)@.walls[i] == old(self)@.walls[i],
            forall|i: int|
                0 <= i < walls@.len() ==> {
                    &&& (#[trigger] final(self)@.walls[old(self)@.walls.len() + i]).outline() == walls@[i].outline()
                    &&& final(self)@.walls[old(self)@.walls.len() + i].class_id() == walls@[i].class_id()
                },
            old(self)@.classes_known() ==> final(self)@.classes_known(),
    {
        let ghost before = self@.walls.len();
        let mut i: usize = 0;
        while i < walls.len()
            invariant
                i <= walls@.len(),
                before == old(self)@.walls.len(),
                self@.particle_classes == old(self)@.particle_classes,
                self@.particles == old(self)@.particles,
                self@.wall_classes == old(self)@.wall_classes,
                self@.gravity == old(self)@.gravity,
                self@.walls.len() == before + i,
                forall|k: int| 0 <= k < before ==> self@.walls[k] == old(self)@.walls[k],
                forall|k: int|
                    0 <= k < i ==> {
                        &&& (#[trigger] self@.walls[before + k]).outline() == walls@[k].outline()
                        &&& self@.walls[before + k].class_id() == walls@[k].class_id()
                    },
            decreases walls@.len() - i,
        {
            self.walls.push(walls[i].clone());
            i += 1;
        }
        proof {
            if old(self)@.classes_known() {
                assert forall|k: int| 0 <= k < self@.walls.len() implies self@.wall_classes.contains_key(
                    (#[trigger] self@.walls[k]).class_id(),
                ) by {
                    if k >= before {
                        assert(self@.walls[before + (k - before)].class_id() == walls@[k - before].class_id());
                    }
                }
            }
        }
    }
}

} // verus!
