//! Creating units and towers, and picking what lies under a point.

use vstd::prelude::*;
use hecs::{Entity, World};
use crate::components::{
    is_distance, Damage, Health, Position, Range, Score, Speed, Target, Tower, Unit, Waypoint,
};
use crate::geometry::distance_squared;
use crate::random::roll;
use crate::store::{
    are_fresh, armed, attributes_of, contents, despawn, handles, lists, placed, query_armed,
    query_placed, spawn_one_tower, spawn_tower_batch, spawn_unit_batch, with_spawned, Attributes,
    Contents,
};
use crate::targeting::{eligible, find_nearest};

verus! {

/// A new unit starts less than this far from the spawn point, along each
/// axis.
pub const UNIT_SCATTER: i32 = 1000;

/// A new unit's speed is at least this.
pub const UNIT_SPEED_MIN: i32 = 1;

/// A new unit's speed is below this.
pub const UNIT_SPEED_END: i32 = 5;

/// A new unit's health is at least this.
pub const UNIT_HEALTH_MIN: i32 = 30;

/// A new unit's health is below this.
pub const UNIT_HEALTH_END: i32 = 200;

/// A tower of a batch stands less than this far from the origin, along each
/// axis.
pub const TOWER_SCATTER: i32 = 100;

/// A new tower's damage is at least this.
pub const TOWER_DAMAGE_MIN: i32 = 3;

/// A new tower's damage is below this.
pub const TOWER_DAMAGE_END: i32 = 5;

/// A new tower's squared range is at least this.
pub const TOWER_RANGE_MIN: i32 = 10_000;

/// A new tower's squared range is below this.
pub const TOWER_RANGE_END: i32 = 20_000;

/// An entity is under a point when its squared distance to the point is
/// below this.
pub const PROXIMITY: i32 = 100;

/// What is known of one entity, for display.
pub struct Selection {
    pub entity: Entity,
    pub position: Option<Position>,
    pub range: Option<Range>,
    pub damage: Option<Damage>,
    pub speed: Option<Speed>,
    pub health: Option<Health>,
    pub score: Option<Score>,
}

/// The unit that comes of four random numbers: it starts `dx`, `dy` off the
/// spawn point, heading for the first point of the path, with its health
/// full.
pub open spec fn new_unit(origin: Position, dx: int, dy: int, speed: int, health: int) -> Unit {
    Unit {
        position: Position { x: (origin.x + dx) as i32, y: (origin.y + dy) as i32 },
        speed: Speed(speed as i32),
        health: Health { value: health as i32, max: health as i32 },
        waypoint: Waypoint { index: 0 },
    }
}

/// Builds a unit from four random numbers: see [`new_unit`]. The position is
/// one that a `Position` can hold.
pub fn make_unit(origin: &Position, dx: i32, dy: i32, speed: i32, health: i32) -> (unit: Unit)
    requires
        is_distance(origin.x + dx),
        is_distance(origin.y + dy),
    ensures
        unit == new_unit(*origin, dx as int, dy as int, speed as int, health as int),
{
    Unit {
        position: Position { x: origin.x + dx, y: origin.y + dy },
        speed: Speed(speed),
        health: Health { value: health, max: health },
        waypoint: Waypoint { index: 0 },
    }
}

/// The tower that comes of a position and two random numbers: it has no
/// kill yet and aims at nothing.
pub open spec fn new_tower(position: Position, damage: int, range_squared: int) -> Tower {
    Tower {
        position,
        damage: Damage(damage as i32),
        range: Range { squared: range_squared as i32 },
        score: Score(0),
        target: Target { position: None },
    }
}

/// Builds a tower from a position and two random numbers: see [`new_tower`].
pub fn make_tower(position: Position, damage: i32, range_squared: i32) -> (tower: Tower)
    ensures
        tower == new_tower(position, damage as int, range_squared as int),
{
    Tower {
        position,
        damage: Damage(damage),
        range: Range { squared: range_squared },
        score: Score(0),
        target: Target { position: None },
    }
}

/// Whether `unit` may come out of the spawner at `origin`.
pub open spec fn is_spawned_unit(unit: Unit, origin: Position) -> bool {
    &&& origin.x - UNIT_SCATTER <= unit.position.x < origin.x + UNIT_SCATTER
    &&& origin.y - UNIT_SCATTER <= unit.position.y < origin.y + UNIT_SCATTER
    &&& UNIT_SPEED_MIN <= unit.speed.0 < UNIT_SPEED_END
    &&& UNIT_HEALTH_MIN <= unit.health.value < UNIT_HEALTH_END
    &&& unit.health.max == unit.health.value
    &&& unit.waypoint.index == 0
}

/// Whether `tower` may come out of the spawner, whatever its position.
pub open spec fn is_spawned_tower(tower: Tower) -> bool {
    &&& TOWER_DAMAGE_MIN <= tower.damage.0 < TOWER_DAMAGE_END
    &&& TOWER_RANGE_MIN <= tower.range.squared < TOWER_RANGE_END
    &&& tower.score == Score(0)
    &&& tower.target == Target { position: None }
}

/// Whether `tower` may come out of the spawner of batches, which scatters
/// its towers about the origin.
pub open spec fn is_scattered_tower(tower: Tower) -> bool {
    &&& is_spawned_tower(tower)
    &&& -TOWER_SCATTER <= tower.position.x < TOWER_SCATTER
    &&& -TOWER_SCATTER <= tower.position.y < TOWER_SCATTER
}

/// Whether `a` is what a unit out of the spawner at `origin` carries.
pub open spec fn is_fresh_unit(a: Attributes, origin: Position) -> bool {
    exists|unit: Unit| is_spawned_unit(unit, origin) && a == Attributes::of_unit(unit)
}

/// Whether `a` is what a tower out of the spawner carries, placed at
/// `position`.
pub open spec fn is_fresh_tower_at(a: Attributes, position: Position) -> bool {
    exists|tower: Tower|
        is_spawned_tower(tower) && tower.position == position && a == Attributes::of_tower(tower)
}

/// Whether `a` is what a tower out of the spawner of batches carries.
pub open spec fn is_fresh_tower(a: Attributes) -> bool {
    exists|tower: Tower| is_scattered_tower(tower) && a == Attributes::of_tower(tower)
}

/// The entities of `after` that `before` did not have.
pub open spec fn newcomers(before: Contents, after: Contents) -> Set<Entity> {
    after.dom().difference(before.dom())
}

/// Whether `after` is `before` with `count` entities more, each of which
/// meets `accepts`, and nothing else changed.
pub open spec fn grew_by(
    before: Contents,
    after: Contents,
    count: nat,
    accepts: spec_fn(Attributes) -> bool,
) -> bool {
    &&& forall|e: Entity| #[trigger]
        before.contains_key(e) ==> after.contains_key(e) && after[e] == before[e]
    &&& newcomers(before, after).finite()
    &&& newcomers(before, after).len() == count
    &&& forall|e: Entity| #[trigger] newcomers(before, after).contains(e) ==> accepts(after[e])
}

/// Whether `after` is `before` with `count` units more, out of the spawner at
/// `origin`, and nothing else changed.
pub open spec fn units_joined(before: Contents, after: Contents, count: nat, origin: Position) -> bool {
    grew_by(before, after, count, |a: Attributes| is_fresh_unit(a, origin))
}

/// Whether `after` is `before` with `count` towers more, out of the spawner
/// of batches, and nothing else changed.
pub open spec fn towers_joined(before: Contents, after: Contents, count: nat) -> bool {
    grew_by(before, after, count, |a: Attributes| is_fresh_tower(a))
}

/// Whether `after` is `before` with one tower more, out of the spawner and
/// placed at `at`, and nothing else changed.
pub open spec fn tower_built(before: Contents, after: Contents, at: Position) -> bool {
    grew_by(before, after, 1, |a: Attributes| is_fresh_tower_at(a, at))
}

/// Adding the fresh entities of a batch makes the world grow by them.
proof fn lemma_spawned_grew(
    before: Contents,
    fresh: Seq<Entity>,
    added: Seq<Attributes>,
    accepts: spec_fn(Attributes) -> bool,
)
    requires
        are_fresh(before, fresh),
        fresh.len() == added.len(),
        forall|i: int| 0 <= i < added.len() ==> accepts(#[trigger] added[i]),
    ensures
        grew_by(before, with_spawned(before, fresh, added), fresh.len(), accepts),
{
    let after = with_spawned(before, fresh, added);
    assert forall|e: Entity| #[trigger] before.contains_key(e) implies after.contains_key(e)
        && after[e] == before[e] by {
        if fresh.contains(e) {
            let i = choose|i: int| 0 <= i < fresh.len() && fresh[i] == e;
            assert(!before.contains_key(fresh[i]));
        }
    }
    assert(newcomers(before, after) =~= fresh.to_set()) by {
        assert forall|e: Entity| fresh.to_set().contains(e) implies newcomers(
            before,
            after,
        ).contains(e) by {
            let i = choose|i: int| 0 <= i < fresh.len() && fresh[i] == e;
            assert(!before.contains_key(fresh[i]));
        }
    }
    fresh.unique_seq_to_set();
    vstd::seq_lib::seq_to_set_is_finite(fresh);
    assert forall|e: Entity| #[trigger] newcomers(before, after).contains(e) implies accepts(
        after[e],
    ) by {
        assert(fresh.contains(e));
        let i = fresh.index_of(e);
        assert(accepts(added[i]));
    }
}

/// Creates `units` units about `spawn_position`. Each gets a random position
/// less than [`UNIT_SCATTER`] off the spawn point along each axis, a random
/// speed and a random health, and heads for the first point of the path.
/// Nothing else in the world changes. The count is one that the store takes
/// in one batch, and every position about the spawn point is one that a
/// `Position` can hold.
pub fn batch_spawn_units(world: &mut World, units: usize, spawn_position: &Position)
    requires
        units <= u32::MAX,
        is_distance(spawn_position.x - UNIT_SCATTER),
        is_distance(spawn_position.x + UNIT_SCATTER - 1),
        is_distance(spawn_position.y - UNIT_SCATTER),
        is_distance(spawn_position.y + UNIT_SCATTER - 1),
    ensures
        units_joined(contents(*old(world)), contents(*final(world)), units as nat, *spawn_position),
{
    let mut rng = rand::thread_rng();
    let mut batch: Vec<Unit> = Vec::new();
    let mut n: usize = 0;
    while n < units
        invariant
            n <= units,
            batch@.len() == n,
            is_distance(spawn_position.x - UNIT_SCATTER),
            is_distance(spawn_position.x + UNIT_SCATTER - 1),
            is_distance(spawn_position.y - UNIT_SCATTER),
            is_distance(spawn_position.y + UNIT_SCATTER - 1),
            forall|i: int| 0 <= i < n ==> is_spawned_unit(#[trigger] batch@[i], *spawn_position),
        decreases units - n,
    {
        let dx = roll(&mut rng, -UNIT_SCATTER, UNIT_SCATTER);
        let dy = roll(&mut rng, -UNIT_SCATTER, UNIT_SCATTER);
        let speed = roll(&mut rng, UNIT_SPEED_MIN, UNIT_SPEED_END);
        let health = roll(&mut rng, UNIT_HEALTH_MIN, UNIT_HEALTH_END);
        batch.push(make_unit(spawn_position, dx, dy, speed, health));
        n += 1;
    }
    let ghost before = contents(*world);
    let ghost added = batch@.map_values(|unit: Unit| Attributes::of_unit(unit));
    let ghost accepts = |a: Attributes| is_fresh_unit(a, *spawn_position);
    let fresh = spawn_unit_batch(world, batch);
    proof {
        assert forall|i: int| 0 <= i < added.len() implies accepts(#[trigger] added[i]) by {
            assert(is_spawned_unit(batch@[i], *spawn_position));
        }
        lemma_spawned_grew(before, fresh@, added, accepts);
    }
}

/// Creates `towers` towers about the origin of the world. Each gets a
/// random position less than [`TOWER_SCATTER`] off the origin along each
/// axis, a random damage and a random range, no kill and no target. Nothing
/// else in the world changes. The count is one that the store takes in one
/// batch.
pub fn batch_spawn_towers(world: &mut World, towers: usize)
    requires
        towers <= u32::MAX,
    ensures
        towers_joined(contents(*old(world)), contents(*final(world)), towers as nat),
{
    let mut rng = rand::thread_rng();
    let mut batch: Vec<Tower> = Vec::new();
    let mut n: usize = 0;
    while n < towers
        invariant
            n <= towers,
            batch@.len() == n,
            forall|i: int| 0 <= i < n ==> is_scattered_tower(#[trigger] batch@[i]),
        decreases towers - n,
    {
        let x = roll(&mut rng, -TOWER_SCATTER, TOWER_SCATTER);
        let y = roll(&mut rng, -TOWER_SCATTER, TOWER_SCATTER);
        let damage = roll(&mut rng, TOWER_DAMAGE_MIN, TOWER_DAMAGE_END);
        let range_squared = roll(&mut rng, TOWER_RANGE_MIN, TOWER_RANGE_END);
        batch.push(make_tower(Position { x, y }, damage, range_squared));
        n += 1;
    }
    let ghost before = contents(*world);
    let ghost added = batch@.map_values(|tower: Tower| Attributes::of_tower(tower));
    let ghost accepts = |a: Attributes| is_fresh_tower(a);
    let fresh = spawn_tower_batch(world, batch);
    proof {
        assert forall|i: int| 0 <= i < added.len() implies accepts(#[trigger] added[i]) by {
            assert(is_scattered_tower(batch@[i]));
        }
        lemma_spawned_grew(before, fresh@, added, accepts);
    }
}

/// Creates one tower at `position`, with a random damage and a random range,
/// no kill and no target. Nothing else in the world changes.
pub fn spawn_tower(world: &mut World, position: &Position)
    ensures
        tower_built(contents(*old(world)), contents(*final(world)), *position),
{
    let mut rng = rand::thread_rng();
    let damage = roll(&mut rng, TOWER_DAMAGE_MIN, TOWER_DAMAGE_END);
    let range_squared = roll(&mut rng, TOWER_RANGE_MIN, TOWER_RANGE_END);
    let tower = make_tower(*position, damage, range_squared);
    let ghost before = contents(*world);
    let entity = spawn_one_tower(world, tower);
    proof {
        let accepts = |a: Attributes| is_fresh_tower_at(a, *position);
        let fresh = seq![entity];
        let added = seq![Attributes::of_tower(tower)];
        assert(is_spawned_tower(tower) && tower.position == *position);
        assert(accepts(added[0]));
        assert(fresh.contains(entity)) by {
            assert(fresh[0] == entity);
        }
        assert(fresh.index_of(entity) == 0);
        assert(contents(*world) =~= with_spawned(before, fresh, added));
        lemma_spawned_grew(before, fresh, added, accepts);
    }
}

/// Whether `p` is under the point `at`.
pub open spec fn is_under(p: Position, at: Position) -> bool {
    distance_squared(p, at) < PROXIMITY
}

/// Whether `e` is, of the entities of `table` under the point `at`, one of
/// the closest to it.
pub open spec fn is_closest_under(table: Map<Entity, Position>, e: Entity, at: Position) -> bool {
    &&& table.contains_key(e)
    &&& is_under(table[e], at)
    &&& forall|other: Entity| #[trigger]
        table.contains_key(other) ==> distance_squared(table[e], at) <= distance_squared(
            table[other],
            at,
        )
}

/// Whether no entity of `table` is under the point `at`.
pub open spec fn none_under(table: Map<Entity, Position>, at: Position) -> bool {
    forall|e: Entity| #[trigger] table.contains_key(e) ==> !is_under(table[e], at)
}

/// Picks, of the items under the point `at`, the closest to it.
fn pick_under(items: &Vec<(Entity, Position)>, at: &Position, Ghost(table): Ghost<
    Map<Entity, Position>,
>) -> (found: Option<usize>)
    requires
        lists(items@, table),
    ensures
        found matches Some(k) ==> k < items@.len() && is_closest_under(table, items@[k as int].0, *at),
        found is None ==> none_under(table, *at),
{
    let found = find_nearest(items, at, PROXIMITY - 1, None);
    proof {
        let reach = (PROXIMITY - 1) as int;
        match found {
            Some(k) => {
                let e = items@[k as int].0;
                assert(handles(items@)[k as int] == e);
                assert(handles(items@).to_set().contains(e));
                assert(eligible(items@, k as int, *at, reach, None));
                assert forall|other: Entity| #[trigger] table.contains_key(other) implies
                    distance_squared(table[e], *at) <= distance_squared(table[other], *at) by {
                    assert(handles(items@).to_set().contains(other));
                    let j = choose|j: int| 0 <= j < handles(items@).len() && handles(items@)[j]
                        == other;
                    assert(items@[j].0 == other);
                    if distance_squared(items@[j].1, *at) <= reach {
                        assert(eligible(items@, j, *at, reach, None));
                    }
                }
            },
            None => {
                assert forall|e: Entity| #[trigger] table.contains_key(e) implies !is_under(
                    table[e],
                    *at,
                ) by {
                    assert(handles(items@).to_set().contains(e));
                    let j = choose|j: int| 0 <= j < handles(items@).len() && handles(items@)[j]
                        == e;
                    assert(items@[j].0 == e);
                    assert(!eligible(items@, j, *at, reach, None));
                }
            },
        }
    }
    found
}

/// Whether `after` is `before` without the tower under the point `at`: of the
/// entities that have a damage and a position under the point, one of the
/// closest to it is gone; where none is under the point nothing changed.
pub open spec fn removed_under(before: Contents, after: Contents, at: Position) -> bool {
    if none_under(armed(before), at) {
        after == before
    } else {
        exists|e: Entity| #[trigger]
            is_closest_under(armed(before), e, at) && after == before.remove(e)
    }
}

/// Whether `selection` is what a click at the point `at` selects in `c`: of
/// the entities that have a position under the point, one of the closest to
/// it, with what is known of it; nothing exactly when none is under the
/// point.
pub open spec fn selected_under(c: Contents, at: Position, selection: Option<Selection>) -> bool {
    match selection {
        Some(s) => is_closest_under(placed(c), s.entity, at) && s == selected(c, s.entity),
        None => none_under(placed(c), at),
    }
}

/// Removes the tower under `position`: see [`removed_under`].
pub fn remove_tower(world: &mut World, position: &Position)
    ensures
        removed_under(contents(*old(world)), contents(*final(world)), *position),
{
    let items = query_armed(world);
    let ghost start = contents(*world);
    match pick_under(&items, position, Ghost(armed(start))) {
        Some(k) => {
            let found = despawn(world, items[k].0);
            assert(found);
            assert(is_closest_under(armed(start), items@[k as int].0, *position));
        },
        None => {},
    }
}

/// What is known of `entity` in `c`: the attributes it carries, but for its
/// waypoint and its target; none for a handle that is not live.
pub open spec fn selected(c: Contents, entity: Entity) -> Selection {
    if c.contains_key(entity) {
        Selection {
            entity,
            position: c[entity].position,
            range: c[entity].range,
            damage: c[entity].damage,
            speed: c[entity].speed,
            health: c[entity].health,
            score: c[entity].score,
        }
    } else {
        Selection {
            entity,
            position: None,
            range: None,
            damage: None,
            speed: None,
            health: None,
            score: None,
        }
    }
}

/// Reads what is known of `entity`: see [`selected`]. The world does not
/// change.
pub fn get_selection(world: &mut World, entity: Entity) -> (selection: Selection)
    ensures
        contents(*final(world)) == contents(*old(world)),
        selection == selected(contents(*old(world)), entity),
{
    match attributes_of(world, entity) {
        Some(a) => Selection {
            entity,
            position: a.position,
            range: a.range,
            damage: a.damage,
            speed: a.speed,
            health: a.health,
            score: a.score,
        },
        None => Selection {
            entity,
            position: None,
            range: None,
            damage: None,
            speed: None,
            health: None,
            score: None,
        },
    }
}

/// Selects the entity under `position`: see [`selected_under`]. The world
/// does not change.
pub fn closest_entity(world: &mut World, position: &Position) -> (selection: Option<Selection>)
    ensures
        contents(*final(world)) == contents(*old(world)),
        selected_under(contents(*old(world)), *position, selection),
        selection is None <==> none_under(placed(contents(*old(world))), *position),
{
    let items = query_placed(world);
    let ghost start = contents(*world);
    match pick_under(&items, position, Ghost(placed(start))) {
        Some(k) => Some(get_selection(world, items[k].0)),
        None => None,
    }
}

} // verus!
