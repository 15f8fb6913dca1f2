//! Event-driven scheduling core of a two-dimensional particle simulator.
//!
//! Circular particles move among each other and among static polygonal
//! walls. Within one step of the simulation the scheduler keeps the predicted
//! collisions in the order of their time, hands out the earliest one,
//! forgets what was predicted for its participants and takes in what is
//! predicted for them afresh, until no collision is left before the end of
//! the step.
//!
//! Time is discrete: an instant is a signed count of ticks since the start of
//! the step, and all that the library does with instants is to compare them.
//! Positions, velocities and contact normals are values of types of the
//! caller's choice, which the library carries and never looks into.

pub mod prelude;
pub mod clock;
pub mod collision;
pub mod event_queue;
pub mod candidates;
pub mod schedule;
pub mod motion_resolver;
pub mod polygon;
pub mod particle;
pub mod particle_class;
pub mod wall;
pub mod wall_class;
pub mod simulation;
pub mod velocity_verlet_integrator;

pub use clock::{Tick, TICKS_PER_SECOND, TIME_EPS};
pub use collision::{Collision, Contact, OtherObject};
pub use event_queue::EventQueue;
pub use motion_resolver::{MotionResolver, Resolved};
pub use particle::Particle;
pub use particle_class::ParticleClass;
pub use polygon::{LineSegment, Polygon};
pub use prelude::ClassId;
pub use simulation::Simulation;
pub use wall::Wall;
pub use wall_class::WallClass;
pub use velocity_verlet_integrator::VelocityVerletIntegrator;
