use m_engine::{Contact, MotionResolver, OtherObject, Tick};

fn contact(time: Tick, tag: u8) -> Option<Contact<u8>> {
    Some(Contact { time, normal: tag })
}

#[test]
fn test_new_resolver_is_drained() {
    let mut resolver: MotionResolver<u8> = MotionResolver::new(3, 2, 1000, 10);
    assert_eq!(resolver.particle_count(), 3);
    assert_eq!(resolver.wall_count(), 2);
    assert_eq!(resolver.timestep(), 1000);
    assert_eq!(resolver.tolerance(), 10);
    assert_eq!(resolver.pending_count(), 0);
    assert!(resolver.is_drained());
    assert!(resolver.resolve_next().is_none());
    assert_eq!(resolver.finish(), vec![Some(0), Some(0), Some(0)]);
}

#[test]
fn test_seed_pairs_each_particle_with_those_behind_it() {
    let mut resolver: MotionResolver<u8> = MotionResolver::new(3, 1, 1000, 10);
    // Particle 0 with 1 and 2, particle 1 with 2, particle 2 with nobody.
    let particle_contacts = vec![vec![contact(300, 1), contact(100, 2)], vec![contact(200, 3)], vec![]];
    let wall_contacts = vec![vec![contact(250, 4)], vec![None], vec![contact(50, 5)]];
    resolver.seed(&particle_contacts, &wall_contacts);
    assert_eq!(resolver.pending_count(), 5);

    // Earliest first: particle 2 meets the wall.
    let first = resolver.resolve_next().unwrap();
    assert_eq!(first.collision.particle, 2);
    assert_eq!(first.collision.other, OtherObject::Wall(0));
    assert_eq!(first.collision.time, 50);
    assert_eq!(first.collision.normal, 5);
    assert_eq!(first.particle_time, 0);
    assert_eq!(first.other_time, None);
    // What was predicted for particle 2 is gone: (0, 2) and (1, 2).
    assert_eq!(resolver.pending_count(), 2);
    assert_eq!(resolver.particle_time(2), 50);
    assert_eq!(resolver.particle_time(0), 0);

    let second = resolver.resolve_next().unwrap();
    assert_eq!(second.collision.particle, 0);
    assert_eq!(second.collision.other, OtherObject::Wall(0));
    assert_eq!(second.collision.time, 250);
    // The pair (0, 1) went with it.
    assert!(resolver.is_drained());
    assert_eq!(resolver.finish(), vec![Some(250), Some(0), Some(50)]);
}

#[test]
fn test_seed_drops_what_lies_outside_the_window() {
    let mut resolver: MotionResolver<u8> = MotionResolver::new(2, 2, 1000, 10);
    let particle_contacts = vec![vec![contact(1000, 1)], vec![]];
    let wall_contacts = vec![vec![contact(-10, 2), contact(-9, 3)], vec![contact(999, 4), contact(5000, 5)]];
    resolver.seed(&particle_contacts, &wall_contacts);
    assert_eq!(resolver.pending_count(), 2);
    let first = resolver.resolve_next().unwrap();
    assert_eq!((first.collision.particle, first.collision.time, first.collision.normal), (0, -9, 3));
    assert_eq!(first.particle_time, 0);
    let second = resolver.resolve_next().unwrap();
    assert_eq!((second.collision.particle, second.collision.time, second.collision.normal), (1, 999, 4));
    assert!(resolver.resolve_next().is_none());
    assert_eq!(resolver.finish(), vec![Some(-9), Some(999)]);
}

#[test]
fn test_pair_moves_both_particles() {
    let mut resolver: MotionResolver<u8> = MotionResolver::new(3, 0, 1000, 10);
    resolver.refresh(0, &vec![None, contact(400, 1), contact(600, 2)], &vec![]);
    resolver.refresh(1, &vec![None, None, contact(500, 3)], &vec![]);
    assert_eq!(resolver.pending_count(), 3);

    let first = resolver.resolve_next().unwrap();
    assert_eq!(first.collision.particle, 0);
    assert_eq!(first.collision.other, OtherObject::Particle(1));
    assert_eq!(first.particle_time, 0);
    assert_eq!(first.other_time, Some(0));
    assert_eq!(first.collision.touched_particles(), vec![0, 1]);
    // Both (0, 2) and (1, 2) were predictions for a touched particle.
    assert!(resolver.is_drained());
    assert_eq!(resolver.particle_time(0), 400);
    assert_eq!(resolver.particle_time(1), 400);
    assert_eq!(resolver.particle_time(2), 0);

    // Afresh for particle 1: it now meets particle 2 earlier than predicted
    // before, and each particle is moved from where it stands.
    resolver.refresh(1, &vec![None, None, contact(450, 4)], &vec![]);
    let second = resolver.resolve_next().unwrap();
    assert_eq!(second.collision.particle, 1);
    assert_eq!(second.collision.other, OtherObject::Particle(2));
    assert_eq!(second.particle_time, 400);
    assert_eq!(second.other_time, Some(0));
    assert_eq!(resolver.finish(), vec![Some(400), Some(450), Some(450)]);
}

#[test]
fn test_refresh_skips_the_particle_itself_and_the_past() {
    let mut resolver: MotionResolver<u8> = MotionResolver::new(3, 1, 1000, 10);
    resolver.refresh(2, &vec![None, None, None], &vec![contact(300, 1)]);
    let hit = resolver.resolve_next().unwrap();
    assert_eq!(hit.collision.time, 300);
    assert_eq!(resolver.particle_time(2), 300);

    // For particle 2 the window now opens at 290: its own entry is skipped,
    // 290 is too early, 291 is not.
    resolver.refresh(2, &vec![contact(290, 2), contact(291, 3), contact(500, 4)], &vec![contact(100, 5)]);
    assert_eq!(resolver.pending_count(), 1);
    let next = resolver.resolve_next().unwrap();
    assert_eq!(next.collision.other, OtherObject::Particle(1));
    assert_eq!(next.collision.time, 291);
    // The particle falls back by 9 ticks, less than the tolerance.
    assert_eq!(next.particle_time, 300);
    assert_eq!(next.other_time, Some(0));
    assert_eq!(resolver.particle_time(2), 291);

    // For particle 0, which still stands at 0, a contact with particle 2 at
    // 200 is in its own window but in the past of particle 2.
    resolver.refresh(0, &vec![None, None, contact(200, 6)], &vec![None]);
    assert!(resolver.is_drained());
}

#[test]
fn test_events_of_other_particles_stay_queued() {
    let mut resolver: MotionResolver<u8> = MotionResolver::new(4, 1, 1000, 0);
    resolver.refresh(0, &vec![None, contact(100, 1), None, None], &vec![None]);
    resolver.refresh(2, &vec![None, None, None, contact(200, 2)], &vec![contact(150, 3)]);
    resolver.refresh(3, &vec![None, None, None, None], &vec![contact(120, 4)]);
    assert_eq!(resolver.pending_count(), 4);

    let first = resolver.resolve_next().unwrap();
    assert_eq!(first.collision.normal, 1);
    assert_eq!(resolver.pending_count(), 3);
    let second = resolver.resolve_next().unwrap();
    assert_eq!(second.collision.normal, 4);
    // Particle 3 was touched: its pair with particle 2 is gone.
    assert_eq!(resolver.pending_count(), 1);
    let third = resolver.resolve_next().unwrap();
    assert_eq!(third.collision.normal, 3);
    assert!(resolver.resolve_next().is_none());
    assert_eq!(resolver.finish(), vec![Some(100), Some(100), Some(150), Some(120)]);
}

#[test]
fn test_nothing_remains_for_a_step_that_has_no_length() {
    let mut resolver: MotionResolver<u8> = MotionResolver::new(2, 1, 0, 10);
    resolver.seed(&vec![vec![contact(0, 1)], vec![]], &vec![vec![contact(-5, 2)], vec![contact(5, 3)]]);
    // Only the contact before the end of the step is queued.
    assert_eq!(resolver.pending_count(), 1);
    let hit = resolver.resolve_next().unwrap();
    assert_eq!(hit.collision.time, -5);
    // Particle 0 is short of the end by 5 ticks, particle 1 is not short.
    assert_eq!(resolver.finish(), vec![Some(-5), None]);

    let backwards: MotionResolver<u8> = MotionResolver::new(1, 0, -100, 10);
    assert_eq!(backwards.unfinished(0), None);
}
