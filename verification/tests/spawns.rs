use hecs::World;
use tower_defense::components::{
    Damage, Health, Position, Range, Score, Speed, Target, Tower, Unit, Waypoint,
};
use tower_defense::spawns::{
    batch_spawn_towers, batch_spawn_units, closest_entity, get_selection, make_tower, make_unit,
    remove_tower, spawn_tower,
};

fn units_of(world: &World) -> Vec<(Position, Speed, Health, Waypoint)> {
    world
        .query::<(&Position, &Speed, &Health, &Waypoint)>()
        .iter()
        .map(|(_, (p, s, h, w))| (*p, *s, *h, *w))
        .collect()
}

fn towers_of(world: &World) -> Vec<(Position, Damage, Range, Score, Target)> {
    world
        .query::<(&Position, &Damage, &Range, &Score, &Target)>()
        .iter()
        .map(|(_, (p, d, r, s, t))| (*p, *d, *r, *s, *t))
        .collect()
}

#[test]
fn a_unit_is_made_of_four_numbers() {
    let unit = make_unit(&Position { x: 100, y: -100 }, -7, 7, 3, 150);
    assert_eq!(
        unit,
        Unit {
            position: Position { x: 93, y: -93 },
            speed: Speed(3),
            health: Health { value: 150, max: 150 },
            waypoint: Waypoint { index: 0 },
        }
    );
}

#[test]
fn a_tower_is_made_of_a_position_and_two_numbers() {
    let tower = make_tower(Position { x: 5, y: 6 }, 4, 12_345);
    assert_eq!(
        tower,
        Tower {
            position: Position { x: 5, y: 6 },
            damage: Damage(4),
            range: Range { squared: 12_345 },
            score: Score(0),
            target: Target { position: None },
        }
    );
}

#[test]
fn spawning_no_unit_spawns_nothing() {
    let mut world = World::new();
    batch_spawn_units(&mut world, 0, &Position { x: 0, y: 0 });
    assert_eq!(world.len(), 0);
}

#[test]
fn spawned_units_are_within_their_ranges() {
    let mut world = World::new();
    let origin = Position { x: -1000, y: 1000 };
    batch_spawn_units(&mut world, 300, &origin);
    assert_eq!(world.len(), 300);
    let units = units_of(&world);
    assert_eq!(units.len(), 300);
    for (position, speed, health, waypoint) in units {
        assert!(-2000 <= position.x && position.x < 0);
        assert!(0 <= position.y && position.y < 2000);
        assert!(1 <= speed.0 && speed.0 < 5);
        assert!(30 <= health.value && health.value < 200);
        assert_eq!(health.max, health.value);
        assert_eq!(waypoint, Waypoint { index: 0 });
    }
    assert_eq!(towers_of(&world).len(), 0);
}

#[test]
fn spawned_units_are_not_all_alike() {
    let mut world = World::new();
    batch_spawn_units(&mut world, 300, &Position { x: 0, y: 0 });
    let units = units_of(&world);
    let first = units[0];
    assert!(units.iter().any(|u| u.0.x != first.0.x));
    assert!(units.iter().any(|u| u.0.y != first.0.y));
    assert!(units.iter().any(|u| u.1 != first.1));
    assert!(units.iter().any(|u| u.2 != first.2));
}

#[test]
fn spawning_units_leaves_the_others_alone() {
    let mut world = World::new();
    let rock = world.spawn((Position { x: 1, y: 2 },));
    batch_spawn_units(&mut world, 5, &Position { x: 0, y: 0 });
    batch_spawn_units(&mut world, 7, &Position { x: 0, y: 0 });
    assert_eq!(world.len(), 13);
    assert_eq!(units_of(&world).len(), 12);
    assert_eq!(*world.get::<Position>(rock).unwrap(), Position { x: 1, y: 2 });
    assert!(world.get::<Health>(rock).is_err());
}

#[test]
fn units_spawn_at_the_edge_of_the_world() {
    let mut world = World::new();
    let corner = Position { x: i32::MAX - 999, y: i32::MIN + 1000 };
    batch_spawn_units(&mut world, 50, &corner);
    assert_eq!(units_of(&world).len(), 50);
}

#[test]
fn spawned_towers_are_within_their_ranges() {
    let mut world = World::new();
    batch_spawn_towers(&mut world, 200);
    assert_eq!(world.len(), 200);
    let towers = towers_of(&world);
    assert_eq!(towers.len(), 200);
    for (position, damage, range, score, target) in &towers {
        assert!(-100 <= position.x && position.x < 100);
        assert!(-100 <= position.y && position.y < 100);
        assert!(3 <= damage.0 && damage.0 < 5);
        assert!(10_000 <= range.squared && range.squared < 20_000);
        assert_eq!(*score, Score(0));
        assert_eq!(*target, Target { position: None });
    }
    let first = towers[0];
    assert!(towers.iter().any(|t| t.0 != first.0));
    assert!(towers.iter().any(|t| t.1 != first.1));
    assert!(towers.iter().any(|t| t.2 != first.2));
    assert_eq!(units_of(&world).len(), 0);
}

#[test]
fn spawning_no_tower_spawns_nothing() {
    let mut world = World::new();
    batch_spawn_towers(&mut world, 0);
    assert_eq!(world.len(), 0);
}

#[test]
fn a_tower_is_built_where_it_is_asked_for() {
    let mut world = World::new();
    let at = Position { x: 321, y: -123 };
    spawn_tower(&mut world, &at);
    let towers = towers_of(&world);
    assert_eq!(towers.len(), 1);
    let (position, damage, range, score, target) = towers[0];
    assert_eq!(position, at);
    assert!(3 <= damage.0 && damage.0 < 5);
    assert!(10_000 <= range.squared && range.squared < 20_000);
    assert_eq!(score, Score(0));
    assert_eq!(target, Target { position: None });
    spawn_tower(&mut world, &at);
    assert_eq!(world.len(), 2);
}

#[test]
fn remove_tower_takes_the_closest_tower_under_the_point() {
    let mut world = World::new();
    let near = world.spawn((Position { x: 3, y: 0 }, Damage(3)));
    let nearer = world.spawn((Position { x: 0, y: 2 }, Damage(3)));
    let far = world.spawn((Position { x: 50, y: 0 }, Damage(3)));
    // A unit right on the point has no damage: it is not taken.
    let unit = world.spawn((Position { x: 0, y: 0 }, Health { value: 5, max: 5 }));
    remove_tower(&mut world, &Position { x: 0, y: 0 });
    assert!(!world.contains(nearer));
    assert!(world.contains(near));
    assert!(world.contains(far));
    assert!(world.contains(unit));
    remove_tower(&mut world, &Position { x: 0, y: 0 });
    assert!(!world.contains(near));
    remove_tower(&mut world, &Position { x: 0, y: 0 });
    assert!(world.contains(far));
    assert_eq!(world.len(), 2);
}

#[test]
fn remove_tower_reaches_below_ten_and_not_ten() {
    let mut world = World::new();
    let at_ten = world.spawn((Position { x: 10, y: 0 }, Damage(3)));
    remove_tower(&mut world, &Position { x: 0, y: 0 });
    assert!(world.contains(at_ten));
    let inside = world.spawn((Position { x: 7, y: 7 }, Damage(3)));
    remove_tower(&mut world, &Position { x: 0, y: 0 });
    assert!(!world.contains(inside));
    assert!(world.contains(at_ten));
}

#[test]
fn remove_tower_on_an_empty_world_does_nothing() {
    let mut world = World::new();
    remove_tower(&mut world, &Position { x: 0, y: 0 });
    assert_eq!(world.len(), 0);
}

#[test]
fn remove_tower_takes_one_of_two_as_close() {
    let mut world = World::new();
    let left = world.spawn((Position { x: -2, y: 0 }, Damage(3)));
    let right = world.spawn((Position { x: 2, y: 0 }, Damage(3)));
    remove_tower(&mut world, &Position { x: 0, y: 0 });
    assert_eq!(world.len(), 1);
    assert!(world.contains(left) != world.contains(right));
}

#[test]
fn a_selection_tells_what_a_unit_carries() {
    let mut world = World::new();
    let unit = world.spawn((
        Position { x: 1, y: 2 },
        Speed(3),
        Health { value: 40, max: 50 },
        Waypoint { index: 1 },
    ));
    let selection = get_selection(&mut world, unit);
    assert_eq!(selection.entity, unit);
    assert_eq!(selection.position, Some(Position { x: 1, y: 2 }));
    assert_eq!(selection.speed, Some(Speed(3)));
    assert_eq!(selection.health, Some(Health { value: 40, max: 50 }));
    assert_eq!(selection.range, None);
    assert_eq!(selection.damage, None);
    assert_eq!(selection.score, None);
}

#[test]
fn a_selection_tells_what_a_tower_carries() {
    let mut world = World::new();
    let tower = world.spawn((
        Position { x: 1, y: 2 },
        Damage(4),
        Range { squared: 10_000 },
        Score(6),
        Target { position: None },
    ));
    let selection = get_selection(&mut world, tower);
    assert_eq!(selection.entity, tower);
    assert_eq!(selection.position, Some(Position { x: 1, y: 2 }));
    assert_eq!(selection.damage, Some(Damage(4)));
    assert_eq!(selection.range, Some(Range { squared: 10_000 }));
    assert_eq!(selection.score, Some(Score(6)));
    assert_eq!(selection.speed, None);
    assert_eq!(selection.health, None);
}

#[test]
fn a_selection_of_a_removed_entity_is_empty() {
    let mut world = World::new();
    let unit = world.spawn((Position { x: 1, y: 2 }, Speed(3)));
    world.despawn(unit).unwrap();
    let selection = get_selection(&mut world, unit);
    assert_eq!(selection.entity, unit);
    assert_eq!(selection.position, None);
    assert_eq!(selection.speed, None);
    assert_eq!(selection.health, None);
    assert_eq!(selection.range, None);
    assert_eq!(selection.damage, None);
    assert_eq!(selection.score, None);
}

#[test]
fn a_selection_of_a_reserved_entity_is_empty() {
    let mut world = World::new();
    let first = world.spawn((Position { x: 1, y: 2 },));
    world.despawn(first).unwrap();
    let recycled = world.reserve_entity();
    let brand_new = world.reserve_entity();
    for entity in [recycled, brand_new] {
        let selection = get_selection(&mut world, entity);
        assert_eq!(selection.entity, entity);
        assert_eq!(selection.position, None);
        assert_eq!(selection.health, None);
    }
}

#[test]
fn closest_entity_selects_what_lies_under_the_point() {
    let mut world = World::new();
    let unit = world.spawn((
        Position { x: 4, y: 0 },
        Speed(3),
        Health { value: 40, max: 50 },
        Waypoint { index: 1 },
    ));
    let tower = world.spawn((
        Position { x: 0, y: 3 },
        Damage(4),
        Range { squared: 10_000 },
        Score(6),
        Target { position: None },
    ));
    let at = Position { x: 0, y: 0 };
    let selection = closest_entity(&mut world, &at).unwrap();
    assert_eq!(selection.entity, tower);
    assert_eq!(selection.damage, Some(Damage(4)));
    world.despawn(tower).unwrap();
    let selection = closest_entity(&mut world, &at).unwrap();
    assert_eq!(selection.entity, unit);
    assert_eq!(selection.health, Some(Health { value: 40, max: 50 }));
    world.despawn(unit).unwrap();
    assert!(closest_entity(&mut world, &at).is_none());
}

#[test]
fn closest_entity_reaches_below_ten_and_not_ten() {
    let mut world = World::new();
    world.spawn((Position { x: 6, y: 8 },));
    assert!(closest_entity(&mut world, &Position { x: 0, y: 0 }).is_none());
    let inside = world.spawn((Position { x: 9, y: 4 },));
    let selection = closest_entity(&mut world, &Position { x: 0, y: 0 }).unwrap();
    assert_eq!(selection.entity, inside);
    assert_eq!(world.len(), 2);
}

#[test]
fn closest_entity_sees_far_apart_positions() {
    let mut world = World::new();
    world.spawn((Position { x: i32::MIN, y: i32::MIN },));
    assert!(closest_entity(&mut world, &Position { x: i32::MAX, y: i32::MAX }).is_none());
    let here = world.spawn((Position { x: i32::MAX, y: i32::MAX - 1 },));
    let selection = closest_entity(&mut world, &Position { x: i32::MAX, y: i32::MAX }).unwrap();
    assert_eq!(selection.entity, here);
}
