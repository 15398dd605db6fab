use collision_core::lifecycle::run_tick;
use collision_core::lifecycle::tick_collision_shapes;
use collision_core::mask::CollisionMasks;
use collision_core::resolver::Collidable;
use collision_core::shape::CollisionShape;
use collision_core::timer::Timer;

fn timed_entry(entity: u64, x: i32, timer: Timer) -> Collidable {
    Collidable {
        entity,
        x,
        y: 0,
        shape: CollisionShape::new(
            entity,
            2,
            2,
            CollisionMasks::Player,
            CollisionMasks::Player.bit(),
            timer,
        ),
    }
}

#[test]
fn one_shot_timer_finishes_exactly_at_duration() {
    let mut t = Timer::new(10, false);
    t.tick(4);
    assert!(!t.finished());
    t.tick(5);
    // 9 of 10 elapsed: never before the duration is reached.
    assert!(!t.finished());
    t.tick(1);
    // Cumulative time first reaches the duration on this tick.
    assert!(t.finished());
    t.tick(100);
    assert!(t.finished());
}

#[test]
fn repeating_timer_wraps_and_is_never_finished_for_long() {
    let mut t = Timer::new(10, true);
    t.tick(25);
    // Wrapped around: 25 mod 10.
    assert_eq!(t.elapsed, 5);
    assert!(!t.finished());
}

#[test]
fn one_shot_expiry_removes_volume_and_entity() {
    let mut world = vec![
        timed_entry(1, -50, Timer::new(10, false)),
        timed_entry(2, 50, Timer::new(100, false)),
    ];
    tick_collision_shapes(&mut world, 9);
    // 9 of 10: not yet.
    assert_eq!(world.len(), 2);
    tick_collision_shapes(&mut world, 1);
    // The tick where cumulative time first reaches 10 removes entry 1.
    assert_eq!(world.len(), 1);
    assert_eq!(world[0].entity, 2);
}

#[test]
fn repeating_timer_is_immune_to_removal() {
    let mut world = vec![timed_entry(1, 0, Timer::new(10, true))];
    tick_collision_shapes(&mut world, 1_000_000);
    tick_collision_shapes(&mut world, 1_000_000);
    assert_eq!(world.len(), 1);
    assert_eq!(world[0].entity, 1);
}

#[test]
fn expiry_on_exact_boundary_tick() {
    let mut world = vec![timed_entry(1, 0, Timer::new(10, false))];
    tick_collision_shapes(&mut world, 10);
    assert!(world.is_empty());
}

#[test]
fn lifecycle_keeps_collision_state_of_survivors() {
    let mut world = vec![
        timed_entry(1, 0, Timer::new(1_000, true)),
        timed_entry(2, 1, Timer::new(1_000, true)),
    ];
    run_tick(&mut world, 5);
    assert!(world[0].shape.collisions.contains(2));
    assert!(world[1].shape.collisions.contains(1));
    run_tick(&mut world, 5);
    // Still overlapping: state persists across ticks.
    assert!(world[0].shape.collisions.contains(2));
    assert!(world[1].shape.collisions.contains(1));
}

#[test]
fn run_tick_prunes_before_resolving() {
    // Entry 2 expires on this very tick, so the resolver never sees it and
    // no collision with it is recorded.
    let mut world = vec![
        timed_entry(1, 0, Timer::new(1_000, true)),
        timed_entry(2, 1, Timer::new(3, false)),
    ];
    run_tick(&mut world, 5);
    assert_eq!(world.len(), 1);
    assert_eq!(world[0].entity, 1);
    assert!(!world[0].shape.collisions.contains(2));
}
