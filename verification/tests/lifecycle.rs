use hecs::World;
use tower_defense::components::{
    Damage, Health, Position, Range, Score, Speed, Target, Waypoint,
};
use tower_defense::systems::{
    checked_score, system_remove_arrived, system_remove_dead, system_score, system_units_left,
    world_is_sound,
};

fn unit(x: i32, y: i32, health: i32) -> (Position, Speed, Health, Waypoint) {
    (
        Position { x, y },
        Speed(1),
        Health { value: health, max: 100 },
        Waypoint { index: 0 },
    )
}

fn tower(x: i32, y: i32, score: i32) -> (Position, Damage, Range, Score, Target) {
    (
        Position { x, y },
        Damage(3),
        Range { squared: 100 },
        Score(score),
        Target { position: None },
    )
}

#[test]
fn remove_dead_takes_health_zero_and_leaves_health_one() {
    let mut world = World::new();
    let zero = world.spawn(unit(0, 0, 0));
    let one = world.spawn(unit(1, 1, 1));
    assert_eq!(system_remove_dead(&mut world), 1);
    assert!(!world.contains(zero));
    assert!(world.contains(one));
    assert_eq!(*world.get::<Health>(one).unwrap(), Health { value: 1, max: 100 });
}

#[test]
fn remove_dead_takes_all_and_only_the_dead() {
    let mut world = World::new();
    let dead_a = world.spawn(unit(0, 0, -5));
    let alive_a = world.spawn(unit(0, 0, 30));
    let dead_b = world.spawn(unit(3, 3, 0));
    let alive_b = world.spawn(unit(4, 4, 199));
    let dead_c = world.spawn((Health { value: i32::MIN, max: 1 },));
    let tower = world.spawn(tower(0, 0, 0));
    assert_eq!(system_remove_dead(&mut world), 3);
    assert!(!world.contains(dead_a));
    assert!(!world.contains(dead_b));
    assert!(!world.contains(dead_c));
    assert!(world.contains(alive_a));
    assert!(world.contains(alive_b));
    assert!(world.contains(tower));
    assert_eq!(world.len(), 3);
    assert_eq!(system_remove_dead(&mut world), 0);
    assert_eq!(world.len(), 3);
}

#[test]
fn remove_dead_on_an_empty_world_removes_nothing() {
    let mut world = World::new();
    assert_eq!(system_remove_dead(&mut world), 0);
}

#[test]
fn remove_arrived_takes_all_and_only_the_units_on_the_end() {
    let mut world = World::new();
    let end = Position { x: 100, y: 0 };
    let there_a = world.spawn(unit(100, 0, 10));
    let there_b = world.spawn(unit(100, 0, 20));
    let beside = world.spawn(unit(99, 0, 10));
    let above = world.spawn(unit(100, 1, 10));
    // A tower on the end is no unit: it has no health.
    let tower = world.spawn(tower(100, 0, 0));
    assert_eq!(system_remove_arrived(&mut world, &end), 2);
    assert!(!world.contains(there_a));
    assert!(!world.contains(there_b));
    assert!(world.contains(beside));
    assert!(world.contains(above));
    assert!(world.contains(tower));
    assert_eq!(system_remove_arrived(&mut world, &end), 0);
    assert_eq!(world.len(), 3);
}

#[test]
fn remove_arrived_needs_exact_equality() {
    let mut world = World::new();
    let close = world.spawn(unit(0, 1, 10));
    assert_eq!(system_remove_arrived(&mut world, &Position { x: 0, y: 0 }), 0);
    assert!(world.contains(close));
    assert_eq!(system_remove_arrived(&mut world, &Position { x: 0, y: 1 }), 1);
    assert!(!world.contains(close));
}

#[test]
fn remove_arrived_takes_a_dead_unit_on_the_end_too() {
    let mut world = World::new();
    let end = Position { x: 5, y: 5 };
    let fallen = world.spawn(unit(5, 5, 0));
    assert_eq!(system_remove_arrived(&mut world, &end), 1);
    assert!(!world.contains(fallen));
}

#[test]
fn units_left_counts_the_entities_with_a_health() {
    let mut world = World::new();
    assert_eq!(system_units_left(&mut world), 0);
    world.spawn(unit(0, 0, 10));
    world.spawn(unit(0, 0, 0));
    world.spawn(tower(0, 0, 5));
    world.spawn((Health { value: 1, max: 1 },));
    assert_eq!(system_units_left(&mut world), 3);
    system_remove_dead(&mut world);
    assert_eq!(system_units_left(&mut world), 2);
}

#[test]
fn score_adds_up_the_scores_of_all_towers() {
    let mut world = World::new();
    assert_eq!(system_score(&mut world), 0);
    world.spawn(tower(0, 0, 3));
    world.spawn(tower(1, 0, 0));
    world.spawn(tower(2, 0, 39));
    world.spawn(unit(0, 0, 10));
    world.spawn((Score(100),));
    assert_eq!(system_score(&mut world), 142);
    assert_eq!(world.len(), 5);
}

#[test]
fn score_holds_more_than_one_counter_can() {
    let mut world = World::new();
    world.spawn(tower(0, 0, i32::MAX));
    world.spawn(tower(1, 0, i32::MAX));
    assert_eq!(system_score(&mut world), 4_294_967_294);
}

#[test]
fn checked_score_adds_up_what_fits() {
    let mut world = World::new();
    assert_eq!(checked_score(&mut world), Some(0));
    world.spawn(tower(0, 0, 3));
    world.spawn(tower(1, 0, 39));
    assert_eq!(checked_score(&mut world), Some(42));
    world.spawn(tower(2, 0, -42));
    assert_eq!(checked_score(&mut world), Some(0));
}

#[test]
fn checked_score_refuses_a_negative_sum() {
    let mut world = World::new();
    world.spawn(tower(0, 0, 3));
    world.spawn(tower(1, 0, -4));
    assert_eq!(checked_score(&mut world), None);
    assert_eq!(world.len(), 2);
}

#[test]
fn a_world_of_units_and_towers_is_sound() {
    let mut world = World::new();
    assert!(world_is_sound(&mut world));
    world.spawn(unit(0, 0, 10));
    world.spawn(tower(0, 0, 0));
    world.spawn(tower(0, 0, i32::MAX - 1));
    world.spawn((Position { x: 0, y: 0 }, Speed(0), Waypoint { index: 9 }));
    // A negative speed without a waypoint moves nothing.
    world.spawn((Position { x: 0, y: 0 }, Speed(-3)));
    // A negative damage without a target fires nothing.
    world.spawn((Position { x: 0, y: 0 }, Damage(-3), Range { squared: 1 }, Score(0)));
    assert!(world_is_sound(&mut world));
    assert_eq!(world.len(), 6);
}

#[test]
fn a_mover_with_a_negative_speed_is_not_sound() {
    let mut world = World::new();
    world.spawn(unit(0, 0, 10));
    world.spawn((Position { x: 0, y: 0 }, Speed(-1), Waypoint { index: 0 }));
    assert!(!world_is_sound(&mut world));
}

#[test]
fn a_tower_with_a_negative_damage_or_a_full_score_is_not_sound() {
    let mut world = World::new();
    let healer = world.spawn((
        Position { x: 0, y: 0 },
        Damage(-1),
        Range { squared: 100 },
        Score(0),
        Target { position: None },
    ));
    assert!(!world_is_sound(&mut world));
    world.despawn(healer).unwrap();
    assert!(world_is_sound(&mut world));
    world.spawn(tower(0, 0, i32::MAX));
    assert!(!world_is_sound(&mut world));
}
