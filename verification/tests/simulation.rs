use m_engine::velocity_verlet_integrator::VelocityVerletIntegrator;
use m_engine::{MotionResolver, Particle, ParticleClass, Polygon, Simulation, Wall, WallClass, TIME_EPS};
use std::collections::HashMap;

type Vec2 = (f64, f64);

const ZERO: Vec2 = (0.0, 0.0);

fn unit_square() -> Polygon<Vec2> {
    Polygon::from(vec![(0.0, 0.0), (1.0, 0.0), (1.0, 1.0), (0.0, 1.0)])
}

#[test]
fn test_spawn_particles() {
    let mut classes = HashMap::new();
    classes.insert(1, ParticleClass::new("Class1", 1.0, 1.0));
    classes.insert(20, ParticleClass::new("Class20", 2.0, 1.0));

    let mut simulation: Simulation<f64, Vec2> = Simulation::new(classes, HashMap::new(), 0.0);

    // Spawn single
    simulation.spawn_particle(Particle::new(ZERO, ZERO, 1));
    assert_eq!(simulation.particles().len(), 1);

    // Spawn few more. Put them into vector first
    let particles = vec![Particle::new(ZERO, ZERO, 20), Particle::new(ZERO, ZERO, 1)];
    simulation.spawn_particles(&particles);
    assert_eq!(simulation.particles().len(), 3);
    assert_eq!(simulation.particles()[0].class(), 1);
    assert_eq!(simulation.particles()[1].class(), 20);
    assert_eq!(simulation.particles()[2].class(), 1);
}

#[test]
fn test_spawn_walls() {
    let mut classes = HashMap::new();
    classes.insert(1, WallClass::new("Class1", 100.0, 0.0));
    classes.insert(20, WallClass::new("Class20", 110.0, 1.0));

    let polygon = unit_square();

    let mut simulation: Simulation<f64, Vec2> = Simulation::new(HashMap::new(), classes, 0.0);

    // Spawn single
    simulation.spawn_wall(Wall::new(polygon.clone(), 1));
    assert_eq!(simulation.walls().len(), 1);

    // Spawn few more. Put them into vector first
    let walls = vec![Wall::new(polygon.clone(), 20), Wall::new(polygon.clone(), 1)];
    simulation.spawn_walls(&walls);
    assert_eq!(simulation.walls().len(), 3);
    assert_eq!(simulation.walls()[0].class(), 1);
    assert_eq!(simulation.walls()[1].class(), 20);
    assert_eq!(simulation.walls()[2].class(), 1);
    assert_eq!(simulation.walls()[2].polygon().points, polygon.points);
}

#[test]
fn test_take_and_put_particles() {
    let mut classes = HashMap::new();
    classes.insert(3, ParticleClass::new("Class3", 1.0, 0.5));
    let mut simulation: Simulation<f64, Vec2> = Simulation::new(classes, HashMap::new(), 9.8);
    simulation.spawn_particle(Particle::new((1.0, 2.0), (3.0, 4.0), 3));
    simulation.spawn_particle(Particle::new((5.0, 6.0), (7.0, 8.0), 3));

    let mut taken = simulation.take_particles();
    assert_eq!(taken.len(), 2);
    assert_eq!(simulation.particles().len(), 0);
    taken[0].position = (10.0, 20.0);
    simulation.put_particles(taken);
    assert_eq!(simulation.particles().len(), 2);
    assert_eq!(simulation.particles()[0].position, (10.0, 20.0));
    assert_eq!(simulation.particles()[1].velocity, (7.0, 8.0));

    simulation.particles_mut()[1].velocity = (0.0, -1.0);
    assert_eq!(simulation.particles()[1].velocity, (0.0, -1.0));
    assert_eq!(simulation.particles()[1].class(), 3);
    assert_eq!(simulation.gravity(), 9.8);
}

#[test]
fn test_clone_of_a_scene() {
    let mut particle_classes = HashMap::new();
    particle_classes.insert(1, ParticleClass::new("Class1", 1.0, 1.0));
    let mut wall_classes = HashMap::new();
    wall_classes.insert(2, WallClass::new("Class2", 100.0, 0.5));
    let mut simulation: Simulation<f64, Vec2> = Simulation::new(particle_classes, wall_classes, 1.5);
    simulation.spawn_particle(Particle::new((1.0, 2.0), (3.0, 4.0), 1));
    simulation.spawn_wall(Wall::new(unit_square(), 2));

    let mut copy = simulation.clone();
    copy.spawn_particle(Particle::new(ZERO, ZERO, 1));
    assert_eq!(copy.particles().len(), 2);
    assert_eq!(simulation.particles().len(), 1);
    assert_eq!(copy.particles()[0].position, (1.0, 2.0));
    assert_eq!(copy.walls().len(), 1);
    assert_eq!(copy.walls()[0].class(), 2);
    assert_eq!(copy.walls()[0].polygon().points, unit_square().points);
    assert_eq!(copy.gravity(), 1.5);
    assert_eq!(copy.particle_classes().get(&1).unwrap().name(), "Class1");
    assert_eq!(copy.wall_classes().get(&2).unwrap().temperature(), 100.0);
}

#[test]
fn test_classes_are_kept() {
    let mut particle_classes = HashMap::new();
    particle_classes.insert(7, ParticleClass::new("Heavy", 12.5, 0.25));
    let mut wall_classes = HashMap::new();
    wall_classes.insert(9, WallClass::new("Hot", 300.0, 0.75));
    let simulation: Simulation<f64, Vec2> = Simulation::new(particle_classes, wall_classes, 0.0);

    let heavy = simulation.particle_classes().get(&7).unwrap();
    assert_eq!(heavy.name(), "Heavy");
    assert_eq!(heavy.mass(), 12.5);
    assert_eq!(heavy.radius(), 0.25);
    let copy = heavy.clone();
    assert_eq!((copy.name(), copy.mass(), copy.radius()), ("Heavy", 12.5, 0.25));

    let hot = simulation.wall_classes().get(&9).unwrap();
    assert_eq!(hot.name(), "Hot");
    assert_eq!(hot.temperature(), 300.0);
    assert_eq!(hot.heat_conductivity(), 0.75);
    let copy = hot.clone();
    assert_eq!((copy.name(), copy.temperature(), copy.heat_conductivity()), ("Hot", 300.0, 0.75));
    assert!(!simulation.particle_classes().contains_key(&9));
}

#[test]
fn test_particle_and_wall_hold_what_they_were_given() {
    let particle = Particle::new((1.0, 2.0), (3.0, 4.0), 5);
    assert_eq!(particle.position, (1.0, 2.0));
    assert_eq!(particle.velocity, (3.0, 4.0));
    assert_eq!(particle.class(), 5);
    let copy = particle;
    assert_eq!(copy.class(), particle.class());

    let wall = Wall::new(unit_square(), 2);
    assert_eq!(wall.class(), 2);
    assert_eq!(wall.polygon().num_edges(), 4);
    let copy = wall.clone();
    assert_eq!(copy.class(), 2);
    assert_eq!(copy.polygon().points, wall.polygon().points);
}

#[test]
fn test_begin_step() {
    let integrator = VelocityVerletIntegrator::new();
    let resolver: MotionResolver<Vec2> = integrator.begin_step(3, 4, 10_000);
    assert_eq!(resolver.particle_count(), 3);
    assert_eq!(resolver.wall_count(), 4);
    assert_eq!(resolver.timestep(), 10_000);
    assert_eq!(resolver.tolerance(), TIME_EPS);
    assert!(resolver.is_drained());
    for i in 0..3 {
        assert_eq!(resolver.particle_time(i), 0);
        assert_eq!(resolver.unfinished(i), Some(0));
    }
}
