//! The integrator that advances a scene by one fixed step.
//!
//! A step changes the velocities for gravity and then resolves the motion of
//! all particles over the length of the step. The integrator sets up the
//! scheduler for that second part.

use vstd::prelude::*;
use crate::clock::{Tick, TIME_EPS};
use crate::motion_resolver::MotionResolver;
use crate::schedule::Schedule;

verus! {

#[derive(Debug)]
pub struct VelocityVerletIntegrator {}

impl VelocityVerletIntegrator {
    pub fn new() -> (integrator: Self)
        ensures
            integrator == (VelocityVerletIntegrator {  }),
    {
        VelocityVerletIntegrator {  }
    }

    /// The scheduler for a step that ends at instant `time_step`, over a
    /// scene of `particle_count` particles and `wall_count` walls: every
    /// particle at instant 0, nothing queued, and the tolerance `TIME_EPS`.
    pub fn begin_step<N: Copy>(&self, particle_count: usize, wall_count: usize, time_step: Tick) -> (resolver:
        MotionResolver<N>)
        ensures
            resolver@ == Schedule::<N>::initial(particle_count, wall_count, time_step, TIME_EPS),
            resolver@.well_formed(),
    {
        MotionResolver::new(particle_count, wall_count, time_step, TIME_EPS)
    }
}

} // verus!
