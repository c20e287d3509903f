//! The entity store: a `hecs::World`, and what this library assumes of it.
//!
//! Verus does not look inside the world. Everything the rest of the library
//! knows about it is stated here, over [`contents`], by functions whose
//! bodies call the store and whose contracts are taken on trust.

use vstd::prelude::*;
use hecs::{Entity, With, World};
use crate::components::{
    Damage, Health, Position, Range, Score, Speed, Target, Tower, Unit, Waypoint,
};

verus! {

/// `hecs::World`, opaque to the verifier.
#[verifier::external_type_specification]
#[verifier::external_body]
pub struct ExWorld(hecs::World);

/// `hecs::Entity`, the handle of an entity, opaque to the verifier.
#[verifier::external_type_specification]
#[verifier::external_body]
pub struct ExEntity(hecs::Entity);

/// The attributes of this library that one entity carries.
#[derive(Clone, Copy, Debug, PartialEq)]
pub struct Attributes {
    pub position: Option<Position>,
    pub health: Option<Health>,
    pub speed: Option<Speed>,
    pub waypoint: Option<Waypoint>,
    pub damage: Option<Damage>,
    pub range: Option<Range>,
    pub score: Option<Score>,
    pub target: Option<Target>,
}

impl Attributes {
    /// No attribute at all.
    pub open spec fn none() -> Attributes {
        Attributes {
            position: None,
            health: None,
            speed: None,
            waypoint: None,
            damage: None,
            range: None,
            score: None,
            target: None,
        }
    }

    /// What a newly created unit carries.
    pub open spec fn of_unit(unit: Unit) -> Attributes {
        Attributes {
            position: Some(unit.position),
            health: Some(unit.health),
            speed: Some(unit.speed),
            waypoint: Some(unit.waypoint),
            damage: None,
            range: None,
            score: None,
            target: None,
        }
    }

    /// What a newly created tower carries.
    pub open spec fn of_tower(tower: Tower) -> Attributes {
        Attributes {
            position: Some(tower.position),
            health: None,
            speed: None,
            waypoint: None,
            damage: Some(tower.damage),
            range: Some(tower.range),
            score: Some(tower.score),
            target: Some(tower.target),
        }
    }
}

/// A world as the library sees it: each live handle with the attributes it
/// carries.
pub type Contents = Map<Entity, Attributes>;

/// What a world holds: every live handle, with those components of the
/// entity whose types are the eight attribute types of this library. A handle
/// that was reserved and is not flushed yet counts as live and carries
/// nothing. Components of other types are not seen.
pub uninterp spec fn contents(world: World) -> Contents;

/// The handles of a run of items, in order.
pub open spec fn handles<T>(items: Seq<(Entity, T)>) -> Seq<Entity> {
    items.map_values(|item: (Entity, T)| item.0)
}

/// `items` walks `table`: each entry of the table comes exactly once, with
/// its value, in some order.
pub open spec fn lists<T>(items: Seq<(Entity, T)>, table: Map<Entity, T>) -> bool {
    &&& handles(items).no_duplicates()
    &&& handles(items).to_set() == table.dom()
    &&& forall|i: int| 0 <= i < items.len() ==> table[(#[trigger] items[i]).0] == items[i].1
}

/// The entities that have a position.
pub open spec fn placed(c: Contents) -> Map<Entity, Position> {
    Map::new(
        |e: Entity| c.contains_key(e) && c[e].position is Some,
        |e: Entity| c[e].position.unwrap(),
    )
}

/// The units: entities that have a health and a position, with the position.
pub open spec fn units(c: Contents) -> Map<Entity, Position> {
    Map::new(
        |e: Entity| c.contains_key(e) && c[e].health is Some && c[e].position is Some,
        |e: Entity| c[e].position.unwrap(),
    )
}

/// The entities that have a health.
pub open spec fn healths(c: Contents) -> Map<Entity, Health> {
    Map::new(|e: Entity| c.contains_key(e) && c[e].health is Some, |e: Entity| c[e].health.unwrap())
}

/// The entities that have a score.
pub open spec fn scores(c: Contents) -> Map<Entity, Score> {
    Map::new(|e: Entity| c.contains_key(e) && c[e].score is Some, |e: Entity| c[e].score.unwrap())
}

/// Whether an entity with these attributes moves: it has a position, a
/// waypoint and a speed.
pub open spec fn is_mover(a: Attributes) -> bool {
    a.position is Some && a.waypoint is Some && a.speed is Some
}

/// The entities that move.
pub open spec fn movers(c: Contents) -> Map<Entity, (Position, Waypoint, Speed)> {
    Map::new(
        |e: Entity| c.contains_key(e) && is_mover(c[e]),
        |e: Entity| (c[e].position.unwrap(), c[e].waypoint.unwrap(), c[e].speed.unwrap()),
    )
}

/// Whether an entity with these attributes fires: it has a position, a
/// damage, a range, a score and a target.
pub open spec fn is_tower(a: Attributes) -> bool {
    &&& a.position is Some
    &&& a.damage is Some
    &&& a.range is Some
    &&& a.score is Some
    &&& a.target is Some
}

/// The tower that these attributes make up.
pub open spec fn as_tower(a: Attributes) -> Tower {
    Tower {
        position: a.position.unwrap(),
        damage: a.damage.unwrap(),
        range: a.range.unwrap(),
        score: a.score.unwrap(),
        target: a.target.unwrap(),
    }
}

/// The entities that fire.
pub open spec fn towers(c: Contents) -> Map<Entity, Tower> {
    Map::new(|e: Entity| c.contains_key(e) && is_tower(c[e]), |e: Entity| as_tower(c[e]))
}

/// The entities that have a damage and a position, with the position.
pub open spec fn armed(c: Contents) -> Map<Entity, Position> {
    Map::new(
        |e: Entity| c.contains_key(e) && c[e].damage is Some && c[e].position is Some,
        |e: Entity| c[e].position.unwrap(),
    )
}

/// `c` with new entities: `fresh[i]` carries `added[i]`.
pub open spec fn with_spawned(c: Contents, fresh: Seq<Entity>, added: Seq<Attributes>) -> Contents {
    Map::new(
        |e: Entity| c.contains_key(e) || fresh.contains(e),
        |e: Entity| if fresh.contains(e) { added[fresh.index_of(e)] } else { c[e] },
    )
}

/// Whether `fresh` can be the handles of newly created entities: they differ
/// from each other and from every live handle of `c`.
pub open spec fn are_fresh(c: Contents, fresh: Seq<Entity>) -> bool {
    &&& fresh.no_duplicates()
    &&& forall|i: int| 0 <= i < fresh.len() ==> !c.contains_key(#[trigger] fresh[i])
}

/// `World::new`: a world without entities.
#[verifier::external_body]
pub(crate) fn empty_world() -> (created: World)
    ensures
        forall|e: Entity| !contents(created).contains_key(e),
{
    World::new()
}

/// `Entity`'s `==`: two handles are equal when they are the same handle.
/// hecs derives it from the two integers a handle is made of.
#[verifier::external_body]
pub(crate) fn same_entity(a: Entity, b: Entity) -> (same: bool)
    ensures
        same == (a == b),
{
    a == b
}

/// `World::query_one_mut`, asked for each attribute as an option: the
/// attributes of a live entity. `None` comes back for a handle that is not
/// live, and for a handle that was reserved and is not flushed yet, which
/// carries nothing.
#[verifier::external_body]
pub(crate) fn attributes_of(world: &mut World, entity: Entity) -> (found: Option<Attributes>)
    ensures
        contents(*final(world)) == contents(*old(world)),
        found matches Some(a) ==> contents(*old(world)).contains_key(entity) && a == contents(
            *old(world),
        )[entity],
        found is None ==> !contents(*old(world)).contains_key(entity) || contents(
            *old(world),
        )[entity] == Attributes::none(),
{
    let (p, h, s, w, d, r, c, t) = world.query_one_mut::<(
        Option<&Position>, Option<&Health>, Option<&Speed>, Option<&Waypoint>,
        Option<&Damage>, Option<&Range>, Option<&Score>, Option<&Target>,
    )>(entity).ok()?;
    Some(Attributes {
        position: p.copied(), health: h.copied(), speed: s.copied(), waypoint: w.copied(),
        damage: d.copied(), range: r.copied(), score: c.copied(), target: t.copied(),
    })
}

/// `World::query_mut` for `&Position`: every entity that has a position, once
/// each, in the order the store walks them.
#[verifier::external_body]
pub(crate) fn query_placed(world: &mut World) -> (items: Vec<(Entity, Position)>)
    ensures
        contents(*final(world)) == contents(*old(world)),
        lists(items@, placed(contents(*old(world)))),
{
    world.query_mut::<&Position>().into_iter().map(|(e, p)| (e, *p)).collect()
}

/// `World::query_mut` for `With<Health, &Position>`: every entity that has a
/// health and a position, once each, with its position.
#[verifier::external_body]
pub(crate) fn query_units(world: &mut World) -> (items: Vec<(Entity, Position)>)
    ensures
        contents(*final(world)) == contents(*old(world)),
        lists(items@, units(contents(*old(world)))),
{
    world.query_mut::<With<Health, &Position>>().into_iter().map(|(e, p)| (e, *p)).collect()
}

/// `World::query_mut` for `&Health`: every entity that has a health, once
/// each.
#[verifier::external_body]
pub(crate) fn query_healths(world: &mut World) -> (items: Vec<(Entity, Health)>)
    ensures
        contents(*final(world)) == contents(*old(world)),
        lists(items@, healths(contents(*old(world)))),
{
    world.query_mut::<&Health>().into_iter().map(|(e, h)| (e, *h)).collect()
}

/// `World::query_mut` for `&Score`: every entity that has a score, once each.
#[verifier::external_body]
pub(crate) fn query_scores(world: &mut World) -> (items: Vec<(Entity, Score)>)
    ensures
        contents(*final(world)) == contents(*old(world)),
        lists(items@, scores(contents(*old(world)))),
{
    world.query_mut::<&Score>().into_iter().map(|(e, s)| (e, *s)).collect()
}

/// `World::query_mut` for `(&Position, &Waypoint, &Speed)`: every entity that
/// has all three, once each.
#[verifier::external_body]
pub(crate) fn query_movers(world: &mut World) -> (items: Vec<(Entity, (Position, Waypoint, Speed))>)
    ensures
        contents(*final(world)) == contents(*old(world)),
        lists(items@, movers(contents(*old(world)))),
{
    world.query_mut::<(&Position, &Waypoint, &Speed)>().into_iter().map(
        |(e, (p, w, s))| (e, (*p, *w, *s)),
    ).collect()
}

/// `World::query_mut` for the five attributes of a tower: every entity that
/// has all five, once each.
#[verifier::external_body]
pub(crate) fn query_towers(world: &mut World) -> (items: Vec<(Entity, Tower)>)
    ensures
        contents(*final(world)) == contents(*old(world)),
        lists(items@, towers(contents(*old(world)))),
{
    world.query_mut::<With<Damage, (&Position, &Damage, &Range, &Score, &Target)>>().into_iter().map(
        |(e, (p, d, r, s, t))| (
            e,
            Tower { position: *p, damage: *d, range: *r, score: *s, target: *t },
        ),
    ).collect()
}

/// `World::query_mut` for `With<Damage, &Position>`: every entity that has a
/// damage and a position, once each, with its position.
#[verifier::external_body]
pub(crate) fn query_armed(world: &mut World) -> (items: Vec<(Entity, Position)>)
    ensures
        contents(*final(world)) == contents(*old(world)),
        lists(items@, armed(contents(*old(world)))),
{
    world.query_mut::<With<Damage, &Position>>().into_iter().map(|(e, p)| (e, *p)).collect()
}

/// `World::query_one_mut` for `(&mut Position, &mut Waypoint)`, and an
/// assignment through both: the entity gets the new position and waypoint if
/// it is live and has both attributes; else nothing changes.
#[verifier::external_body]
pub(crate) fn write_motion(
    world: &mut World,
    entity: Entity,
    position: Position,
    waypoint: Waypoint,
)
    ensures
        contents(*final(world)) == (if movable(contents(*old(world)), entity) {
            contents(*old(world)).insert(
                entity,
                Attributes {
                    position: Some(position),
                    waypoint: Some(waypoint),
                    ..contents(*old(world))[entity]
                },
            )
        } else {
            contents(*old(world))
        }),
{
    if let Ok((p, w)) = world.query_one_mut::<(&mut Position, &mut Waypoint)>(entity) {
        *p = position;
        *w = waypoint;
    }
}

/// Whether `entity` is live in `c` with a position and a waypoint.
pub open spec fn movable(c: Contents, entity: Entity) -> bool {
    c.contains_key(entity) && c[entity].position is Some && c[entity].waypoint is Some
}

/// `World::query_one_mut` for `&mut Health`, and an assignment through it:
/// the entity gets the new health if it is live and has a health; else
/// nothing changes.
#[verifier::external_body]
pub(crate) fn write_health(world: &mut World, entity: Entity, health: Health)
    ensures
        contents(*final(world)) == (if contents(*old(world)).contains_key(entity) && contents(
            *old(world),
        )[entity].health is Some {
            contents(*old(world)).insert(
                entity,
                Attributes { health: Some(health), ..contents(*old(world))[entity] },
            )
        } else {
            contents(*old(world))
        }),
{
    if let Ok(h) = world.query_one_mut::<&mut Health>(entity) {
        *h = health;
    }
}

/// Whether `entity` is live in `c` with a score and a target.
pub open spec fn aimable(c: Contents, entity: Entity) -> bool {
    c.contains_key(entity) && c[entity].score is Some && c[entity].target is Some
}

/// `World::query_one_mut` for `(&mut Score, &mut Target)`, and an assignment
/// through both: the entity gets the new score and target if it is live and
/// has both attributes; else nothing changes.
#[verifier::external_body]
pub(crate) fn write_aim(world: &mut World, entity: Entity, score: Score, target: Target)
    ensures
        contents(*final(world)) == (if aimable(contents(*old(world)), entity) {
            contents(*old(world)).insert(
                entity,
                Attributes {
                    score: Some(score),
                    target: Some(target),
                    ..contents(*old(world))[entity]
                },
            )
        } else {
            contents(*old(world))
        }),
{
    if let Ok((s, t)) = world.query_one_mut::<(&mut Score, &mut Target)>(entity) {
        *s = score;
        *t = target;
    }
}

/// `World::despawn`: a live entity leaves the world with all it carries, and
/// `true` comes back; for a handle that is not live nothing changes, and
/// `false` comes back.
#[verifier::external_body]
pub(crate) fn despawn(world: &mut World, entity: Entity) -> (found: bool)
    ensures
        found == contents(*old(world)).contains_key(entity),
        contents(*final(world)) == contents(*old(world)).remove(entity),
{
    world.despawn(entity).is_ok()
}

/// `World::spawn` with the five attributes of a tower: one entity more, under
/// a handle that was not live. hecs gives up when a world has handed out
/// 2^32 handles, as it does when memory runs out.
#[verifier::external_body]
pub(crate) fn spawn_one_tower(world: &mut World, tower: Tower) -> (entity: Entity)
    ensures
        !contents(*old(world)).contains_key(entity),
        contents(*final(world)) == contents(*old(world)).insert(entity, Attributes::of_tower(tower)),
{
    world.spawn((tower.position, tower.damage, tower.range, tower.score, tower.target))
}

/// `World::spawn_batch` with the four attributes of a unit, its result
/// collected: one entity more for each unit, in order, under handles that
/// were not live. hecs refuses a batch longer than `u32::MAX`, and gives up
/// when a world has handed out 2^32 handles.
#[verifier::external_body]
pub(crate) fn spawn_unit_batch(world: &mut World, batch: Vec<Unit>) -> (fresh: Vec<Entity>)
    requires
        batch@.len() <= u32::MAX,
    ensures
        fresh@.len() == batch@.len(),
        are_fresh(contents(*old(world)), fresh@),
        contents(*final(world)) == with_spawned(
            contents(*old(world)),
            fresh@,
            batch@.map_values(|unit: Unit| Attributes::of_unit(unit)),
        ),
{
    world.spawn_batch(
        batch.into_iter().map(|u| (u.position, u.speed, u.health, u.waypoint)),
    ).collect()
}

/// `World::spawn_batch` with the five attributes of a tower, its result
/// collected: one entity more for each tower, in order, under handles that
/// were not live. hecs refuses a batch longer than `u32::MAX`, and gives up
/// when a world has handed out 2^32 handles.
#[verifier::external_body]
pub(crate) fn spawn_tower_batch(world: &mut World, batch: Vec<Tower>) -> (fresh: Vec<Entity>)
    requires
        batch@.len() <= u32::MAX,
    ensures
        fresh@.len() == batch@.len(),
        are_fresh(contents(*old(world)), fresh@),
        contents(*final(world)) == with_spawned(
            contents(*old(world)),
            fresh@,
            batch@.map_values(|tower: Tower| Attributes::of_tower(tower)),
        ),
{
    world.spawn_batch(
        batch.into_iter().map(|t| (t.position, t.damage, t.range, t.score, t.target)),
    ).collect()
}

} // verus!
