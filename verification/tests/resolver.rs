use collision_core::idset::IdSet;
use collision_core::mask::CollisionMasks;
use collision_core::resolver::Collidable;
use collision_core::resolver::process_collisions;
use collision_core::shape::can_collide;
use collision_core::shape::collide;
use collision_core::shape::CollisionShape;
use collision_core::timer::Timer;

fn volume(
    uuid: u64,
    mask: CollisionMasks,
    collides_with: u32,
    width: u32,
    height: u32,
) -> CollisionShape {
    CollisionShape::new(uuid, width, height, mask, collides_with, Timer::new(1_000, true))
}

fn entry(entity: u64, x: i32, y: i32, shape: CollisionShape) -> Collidable {
    Collidable { entity, x, y, shape }
}

#[test]
fn category_bits_are_distinct_powers_of_two() {
    assert_eq!(CollisionMasks::Player.bit(), 1);
    assert_eq!(CollisionMasks::AI.bit(), 2);
    assert_eq!(CollisionMasks::Ground.bit(), 4);
    assert_eq!(CollisionMasks::PlayerAttack.bit(), 8);
    assert_eq!(CollisionMasks::AIAttack.bit(), 16);
}

#[test]
fn shape_reports_its_size() {
    let s = volume(1, CollisionMasks::Player, 0, 30, 40);
    assert_eq!(s.size(), (30, 40));
}

#[test]
fn mask_filter_requires_both_directions() {
    let player = volume(1, CollisionMasks::Player, CollisionMasks::AI.bit(), 2, 2);
    let ai = volume(2, CollisionMasks::AI, CollisionMasks::Player.bit(), 2, 2);
    assert!(can_collide(&player, &ai));
    assert!(can_collide(&ai, &player));

    // One-directional permission grants no collision.
    let deaf_ai = volume(3, CollisionMasks::AI, 0, 2, 2);
    assert!(!can_collide(&player, &deaf_ai));
    assert!(!can_collide(&deaf_ai, &player));
}

#[test]
fn overlap_is_strict() {
    // Unit squares centered one apart: they share the x = 0.5 boundary.
    assert!(!collide(0, 0, 1, 1, 1, 0, 1, 1));
    // Same on the y axis.
    assert!(!collide(0, 0, 1, 1, 0, 1, 1, 1));
    // Nudge together by using wider boxes: genuine overlap.
    assert!(collide(0, 0, 2, 2, 1, 0, 2, 2));
    // Far apart.
    assert!(!collide(0, 0, 2, 2, 10, 10, 2, 2));
    // Identical position always overlaps for positive extents.
    assert!(collide(5, -3, 1, 1, 5, -3, 1, 1));
}

#[test]
fn zero_area_volume_is_well_defined() {
    // A point inside a positive rectangle overlaps it.
    assert!(collide(0, 0, 0, 0, 0, 0, 2, 2));
    // Two coincident points do not strictly overlap.
    assert!(!collide(0, 0, 0, 0, 0, 0, 0, 0));
}

#[test]
fn overlapping_pair_is_recorded_symmetrically() {
    let a = volume(1, CollisionMasks::Player, CollisionMasks::AI.bit(), 4, 4);
    let b = volume(2, CollisionMasks::AI, CollisionMasks::Player.bit(), 4, 4);
    let mut world = vec![entry(100, 0, 0, a), entry(200, 1, 1, b)];
    process_collisions(&mut world);
    assert!(world[0].shape.collisions.contains(200));
    assert!(world[1].shape.collisions.contains(100));
    assert!(!world[0].shape.collisions_just_ended.contains(200));
    assert!(!world[1].shape.collisions_just_ended.contains(100));
}

#[test]
fn mask_gating_beats_geometry() {
    // Ground that collides with nothing, versus a player who would collide
    // with ground, at the identical position: nothing is recorded.
    let ground = volume(1, CollisionMasks::Ground, 0, 8, 8);
    let player = volume(2, CollisionMasks::Player, CollisionMasks::Ground.bit(), 8, 8);
    let mut world = vec![entry(10, 0, 0, ground), entry(20, 0, 0, player)];
    process_collisions(&mut world);
    assert!(!world[0].shape.collisions.contains(20));
    assert!(!world[1].shape.collisions.contains(10));
    assert!(!world[0].shape.collisions_just_ended.contains(20));
    assert!(!world[1].shape.collisions_just_ended.contains(10));
}

#[test]
fn exit_pulse_lasts_exactly_one_tick() {
    let a = volume(1, CollisionMasks::Player, CollisionMasks::AI.bit(), 2, 2);
    let b = volume(2, CollisionMasks::AI, CollisionMasks::Player.bit(), 2, 2);
    let mut world = vec![entry(100, 0, 0, a), entry(200, 1, 0, b)];

    // Tick N: overlapping.
    process_collisions(&mut world);
    assert!(world[0].shape.collisions.contains(200));
    assert!(world[1].shape.collisions.contains(100));

    // Tick N+1: b has moved away; the exit signal fires.
    world[1].x = 50;
    process_collisions(&mut world);
    assert!(!world[0].shape.collisions.contains(200));
    assert!(!world[1].shape.collisions.contains(100));
    assert!(world[0].shape.collisions_just_ended.contains(200));
    assert!(world[1].shape.collisions_just_ended.contains(100));

    // Tick N+2: still separated; the pulse is gone, not sticky.
    process_collisions(&mut world);
    assert!(!world[0].shape.collisions_just_ended.contains(200));
    assert!(!world[1].shape.collisions_just_ended.contains(100));
}

#[test]
fn exit_flag_cleared_for_pair_that_never_collided() {
    // Two eligible volumes that are separated from the start: the resolver
    // clears the (already absent) exit flag, a no-op that stays a no-op.
    let a = volume(1, CollisionMasks::Player, CollisionMasks::AI.bit(), 2, 2);
    let b = volume(2, CollisionMasks::AI, CollisionMasks::Player.bit(), 2, 2);
    let mut world = vec![entry(100, 0, 0, a), entry(200, 50, 0, b)];
    process_collisions(&mut world);
    assert!(!world[0].shape.collisions.contains(200));
    assert!(!world[0].shape.collisions_just_ended.contains(200));
    assert!(!world[1].shape.collisions_just_ended.contains(100));
}

#[test]
fn duplicate_identity_never_self_pairs() {
    // Same volume identity enumerated twice, overlapping geometry, mutually
    // permissive masks: the pair is skipped outright.
    let a = volume(7, CollisionMasks::Player, CollisionMasks::Player.bit(), 4, 4);
    let b = volume(7, CollisionMasks::Player, CollisionMasks::Player.bit(), 4, 4);
    let mut world = vec![entry(100, 0, 0, a), entry(200, 0, 0, b)];
    process_collisions(&mut world);
    assert!(!world[0].shape.collisions.contains(200));
    assert!(!world[1].shape.collisions.contains(100));
}

#[test]
fn empty_world_is_a_valid_no_op() {
    let mut world: Vec<Collidable> = Vec::new();
    process_collisions(&mut world);
    assert!(world.is_empty());
}

#[test]
fn three_volumes_pairwise() {
    // a overlaps b and c; b and c are mutually out of range.
    let a = volume(1, CollisionMasks::Player, CollisionMasks::AI.bit(), 10, 10);
    let b = volume(2, CollisionMasks::AI, CollisionMasks::Player.bit(), 2, 2);
    let c = volume(3, CollisionMasks::AI, CollisionMasks::Player.bit(), 2, 2);
    let mut world = vec![
        entry(100, 0, 0, a),
        entry(200, -4, 0, b),
        entry(300, 4, 0, c),
    ];
    process_collisions(&mut world);
    assert!(world[0].shape.collisions.contains(200));
    assert!(world[0].shape.collisions.contains(300));
    assert!(world[1].shape.collisions.contains(100));
    assert!(world[2].shape.collisions.contains(100));
    assert!(!world[1].shape.collisions.contains(300));
    assert!(!world[2].shape.collisions.contains(200));
}

#[test]
fn idset_insert_remove_members() {
    let mut s = IdSet::new();
    assert!(!s.contains(5));
    s.insert(5);
    s.insert(9);
    s.insert(5);
    assert!(s.contains(5));
    assert!(s.contains(9));
    s.remove(5);
    assert!(!s.contains(5));
    assert!(s.contains(9));
    let members = s.members();
    assert!(members.contains(&9));
    assert!(!members.contains(&5));
}
