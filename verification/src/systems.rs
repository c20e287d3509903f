//! The systems of one simulation step, in the order they run: motion,
//! removal of the dead, removal of the arrived, combat.

use vstd::prelude::*;
use vstd::set::fold::{is_fun_commutative, lemma_fold_empty, lemma_fold_insert};
use hecs::{Entity, World};
use crate::combat::{
    can_fire, fire_volley, has_sound_towers, in_range, is_closest_in_range, is_firing_order,
    lemma_firing_tower, lemma_idle_tower, lemma_spared_unit, lemma_volley_frame,
    same_but_combat_everywhere, volley, walks,
};
use crate::components::{Position, Score, Target};
use crate::motion::{advance, advanced};
use crate::store::{
    contents, despawn, handles, healths, is_mover, lists, movers, query_healths, query_movers,
    query_scores, query_towers, query_units, scores, towers, units, write_motion, Attributes,
    Contents,
};

verus! {

/// The attributes of an entity after the motion system: a mover has made one
/// step, anything else is as it was.
pub open spec fn moved(a: Attributes, path: Seq<Position>) -> Attributes {
    if is_mover(a) {
        let next = advanced(a.position.unwrap(), a.waypoint.unwrap(), a.speed.unwrap(), path);
        Attributes { position: Some(next.0), waypoint: Some(next.1), ..a }
    } else {
        a
    }
}

/// The world after the motion system: every entity, moved.
pub open spec fn after_motion(c: Contents, path: Seq<Position>) -> Contents {
    Map::new(|e: Entity| c.contains_key(e), |e: Entity| moved(c[e], path))
}

/// No mover has a negative speed.
pub open spec fn can_move(c: Contents) -> bool {
    forall|e: Entity| #[trigger] c.contains_key(e) && is_mover(c[e]) ==> c[e].speed.unwrap().0 >= 0
}

/// The world in which the entities of `done` have moved and the others not yet.
spec fn partly_moved(c: Contents, done: Seq<Entity>, path: Seq<Position>) -> Contents {
    Map::new(
        |e: Entity| c.contains_key(e),
        |e: Entity| if done.contains(e) { moved(c[e], path) } else { c[e] },
    )
}

/// Moves every entity that has a position, a waypoint and a speed one step
/// toward the point of `waypoints` that its waypoint names. Nothing else
/// changes, and no entity comes or goes. No mover may have a negative speed.
pub fn system_integrate_motion(world: &mut World, waypoints: &[Position])
    requires
        can_move(contents(*old(world))),
    ensures
        contents(*final(world)) == after_motion(contents(*old(world)), waypoints@),
{
    let items = query_movers(world);
    let ghost start = contents(*world);
    let ghost all = handles(items@);
    let mut i: usize = 0;
    assert(contents(*world) =~= partly_moved(start, all.take(0), waypoints@));
    while i < items.len()
        invariant
            i <= items.len(),
            all == handles(items@),
            lists(items@, movers(start)),
            can_move(start),
            contents(*world) == partly_moved(start, all.take(i as int), waypoints@),
        decreases items.len() - i,
    {
        let entity = items[i].0;
        let (position, waypoint, speed) = items[i].1;
        proof {
            assert(all[i as int] == entity);
            assert(all.to_set().contains(entity));
            assert(movers(start).contains_key(entity));
            assert(!all.take(i as int).contains(entity));
        }
        let next = advance(position, waypoint, speed, waypoints);
        write_motion(world, entity, next.0, next.1);
        proof {
            let done = all.take(i as int);
            let more = all.take(i + 1);
            assert(more =~= done.push(entity));
            assert forall|e: Entity| more.contains(e) <==> (done.contains(e) || e == entity) by {
                if more.contains(e) {
                    let k = choose|k: int| 0 <= k < more.len() && more[k] == e;
                    if k < done.len() {
                        assert(done[k] == e);
                    }
                }
                if done.contains(e) {
                    let k = choose|k: int| 0 <= k < done.len() && done[k] == e;
                    assert(more[k] == e);
                }
                assert(more[i as int] == entity);
            }
            assert(contents(*world) =~= partly_moved(start, more, waypoints@));
        }
        i += 1;
    }
    proof {
        assert(all.take(items.len() as int) =~= all);
        assert forall|e: Entity| start.contains_key(e) implies #[trigger] partly_moved(
            start,
            all,
            waypoints@,
        )[e] == moved(start[e], waypoints@) by {
            if !all.contains(e) {
                assert(!all.to_set().contains(e));
                assert(!movers(start).contains_key(e));
            }
        }
        assert(contents(*world) =~= after_motion(start, waypoints@));
    }
}

/// The dead: the entities whose health is zero or below.
pub open spec fn dead(c: Contents) -> Set<Entity> {
    Set::new(|e: Entity| healths(c).contains_key(e) && c[e].health.unwrap().value <= 0)
}

/// The arrived: the units that stand exactly on `end`.
pub open spec fn arrived(c: Contents, end: Position) -> Set<Entity> {
    Set::new(|e: Entity| units(c).contains_key(e) && c[e].position.unwrap() == end)
}

/// Removes the entities of `doomed` from the world.
fn despawn_all(world: &mut World, doomed: &Vec<Entity>)
    requires
        doomed@.no_duplicates(),
        forall|k: int| 0 <= k < doomed@.len() ==> contents(*old(world)).contains_key(doomed@[k]),
    ensures
        contents(*final(world)) == contents(*old(world)).remove_keys(doomed@.to_set()),
{
    let ghost start = contents(*world);
    let mut k: usize = 0;
    assert(contents(*world) =~= start.remove_keys(doomed@.take(0).to_set()));
    while k < doomed.len()
        invariant
            k <= doomed.len(),
            doomed@.no_duplicates(),
            forall|j: int| 0 <= j < doomed@.len() ==> start.contains_key(doomed@[j]),
            contents(*world) == start.remove_keys(doomed@.take(k as int).to_set()),
        decreases doomed.len() - k,
    {
        let ghost gone = doomed@.take(k as int);
        assert(!gone.contains(doomed@[k as int])) by {
            if gone.contains(doomed@[k as int]) {
                let j = choose|j: int| 0 <= j < gone.len() && gone[j] == doomed@[k as int];
                assert(doomed@[j] == doomed@[k as int]);
            }
        }
        let found = despawn(world, doomed[k]);
        assert(found);
        proof {
            let more = doomed@.take(k + 1);
            assert(more =~= gone.push(doomed@[k as int]));
            assert(more.to_set() =~= gone.to_set().insert(doomed@[k as int])) by {
                assert forall|e: Entity| more.to_set().contains(e) <==> gone.to_set().insert(
                    doomed@[k as int],
                ).contains(e) by {
                    if more.contains(e) {
                        let j = choose|j: int| 0 <= j < more.len() && more[j] == e;
                        if j < gone.len() {
                            assert(gone[j] == e);
                        }
                    }
                    if gone.contains(e) {
                        let j = choose|j: int| 0 <= j < gone.len() && gone[j] == e;
                        assert(more[j] == e);
                    }
                    assert(more[k as int] == doomed@[k as int]);
                }
            }
            assert(contents(*world) =~= start.remove_keys(more.to_set()));
        }
        k += 1;
    }
    assert(doomed@.take(doomed.len() as int) =~= doomed@);
}

/// Removes every entity whose health is zero or below, and no other, and
/// returns how many it removed.
pub fn system_remove_dead(world: &mut World) -> (removed: usize)
    ensures
        contents(*final(world)) == contents(*old(world)).remove_keys(dead(contents(*old(world)))),
        dead(contents(*old(world))).finite(),
        removed == dead(contents(*old(world))).len(),
{
    let items = query_healths(world);
    let ghost start = contents(*world);
    let ghost all = handles(items@);
    let mut doomed: Vec<Entity> = Vec::new();
    let mut i: usize = 0;
    while i < items.len()
        invariant
            i <= items.len(),
            all == handles(items@),
            lists(items@, healths(start)),
            doomed@.no_duplicates(),
            forall|k: int|
                0 <= k < doomed@.len() ==> dead(start).contains(#[trigger] doomed@[k])
                    && all.take(i as int).contains(doomed@[k]),
            forall|j: int|
                0 <= j < i && (#[trigger] items@[j]).1.value <= 0 ==> doomed@.contains(items@[j].0),
        decreases items.len() - i,
    {
        if items[i].1.value <= 0 {
            let ghost collected = doomed@;
            proof {
                lemma_next_is_new(all, i as int, collected);
                assert(all.to_set().contains(all[i as int]));
                lemma_pushed_contains(collected, items@[i as int].0);
            }
            doomed.push(items[i].0);
        }
        proof {
            lemma_take_grows(all, i as int);
        }
        i += 1;
    }
    proof {
        assert(doomed@.to_set() =~= dead(start)) by {
            assert forall|e: Entity| dead(start).contains(e) implies doomed@.to_set().contains(
                e,
            ) by {
                assert(all.to_set().contains(e));
                let j = choose|j: int| 0 <= j < all.len() && all[j] == e;
                assert(items@[j].0 == e);
            }
        }
        doomed@.unique_seq_to_set();
        vstd::seq_lib::seq_to_set_is_finite(doomed@);
        assert forall|k: int| 0 <= k < doomed@.len() implies start.contains_key(doomed@[k]) by {
            assert(dead(start).contains(doomed@[k]));
        }
    }
    despawn_all(world, &doomed);
    doomed.len()
}

/// Removes every unit that stands exactly on `target`, the end of the path,
/// and no other entity, and returns how many it removed.
pub fn system_remove_arrived(world: &mut World, target: &Position) -> (removed: usize)
    ensures
        contents(*final(world)) == contents(*old(world)).remove_keys(
            arrived(contents(*old(world)), *target),
        ),
        arrived(contents(*old(world)), *target).finite(),
        removed == arrived(contents(*old(world)), *target).len(),
{
    let items = query_units(world);
    let ghost start = contents(*world);
    let ghost all = handles(items@);
    let mut doomed: Vec<Entity> = Vec::new();
    let mut i: usize = 0;
    while i < items.len()
        invariant
            i <= items.len(),
            all == handles(items@),
            lists(items@, units(start)),
            doomed@.no_duplicates(),
            forall|k: int|
                0 <= k < doomed@.len() ==> arrived(start, *target).contains(#[trigger] doomed@[k])
                    && all.take(i as int).contains(doomed@[k]),
            forall|j: int|
                0 <= j < i && (#[trigger] items@[j]).1 == *target ==> doomed@.contains(items@[j].0),
        decreases items.len() - i,
    {
        if items[i].1.x == target.x && items[i].1.y == target.y {
            let ghost collected = doomed@;
            proof {
                lemma_next_is_new(all, i as int, collected);
                assert(all.to_set().contains(all[i as int]));
                lemma_pushed_contains(collected, items@[i as int].0);
            }
            doomed.push(items[i].0);
        }
        proof {
            lemma_take_grows(all, i as int);
        }
        i += 1;
    }
    proof {
        assert(doomed@.to_set() =~= arrived(start, *target)) by {
            assert forall|e: Entity| arrived(start, *target).contains(e) implies doomed@.to_set().contains(
                e,
            ) by {
                assert(all.to_set().contains(e));
                let j = choose|j: int| 0 <= j < all.len() && all[j] == e;
                assert(items@[j].0 == e);
            }
        }
        doomed@.unique_seq_to_set();
        vstd::seq_lib::seq_to_set_is_finite(doomed@);
        assert forall|k: int| 0 <= k < doomed@.len() implies start.contains_key(doomed@[k]) by {
            assert(arrived(start, *target).contains(doomed@[k]));
        }
    }
    despawn_all(world, &doomed);
    doomed.len()
}

/// The next handle of a walk without repetition is none of those collected
/// from the handles before it.
proof fn lemma_next_is_new(all: Seq<Entity>, i: int, collected: Seq<Entity>)
    requires
        all.no_duplicates(),
        0 <= i < all.len(),
        forall|k: int| 0 <= k < collected.len() ==> all.take(i).contains(#[trigger] collected[k]),
    ensures
        !collected.contains(all[i]),
{
    if collected.contains(all[i]) {
        let k = choose|k: int| 0 <= k < collected.len() && collected[k] == all[i];
        assert(all.take(i).contains(collected[k]));
        let j = choose|j: int| 0 <= j < all.take(i).len() && all.take(i)[j] == all[i];
        assert(all[j] == all[i]);
    }
}

/// What a run contains after a push.
proof fn lemma_pushed_contains(collected: Seq<Entity>, e: Entity)
    ensures
        collected.push(e).contains(e),
        forall|x: Entity| collected.contains(x) ==> collected.push(e).contains(x),
        collected.no_duplicates() && !collected.contains(e) ==> collected.push(e).no_duplicates(),
{
    assert(collected.push(e)[collected.len() as int] == e);
    assert forall|x: Entity| collected.contains(x) implies collected.push(e).contains(x) by {
        let k = choose|k: int| 0 <= k < collected.len() && collected[k] == x;
        assert(collected.push(e)[k] == x);
    }
}

/// A longer prefix contains what a shorter one does, and the handle it ends
/// with.
proof fn lemma_take_grows(all: Seq<Entity>, i: int)
    requires
        0 <= i < all.len(),
    ensures
        all.take(i + 1).contains(all[i]),
        forall|x: Entity| all.take(i).contains(x) ==> all.take(i + 1).contains(x),
{
    assert(all.take(i + 1)[i] == all[i]);
    assert forall|x: Entity| all.take(i).contains(x) implies all.take(i + 1).contains(x) by {
        let k = choose|k: int| 0 <= k < all.take(i).len() && all.take(i)[k] == x;
        assert(all.take(i + 1)[k] == x);
    }
}

/// Counts the units left: the entities that have a health.
pub fn system_units_left(world: &mut World) -> (left: usize)
    ensures
        contents(*final(world)) == contents(*old(world)),
        healths(contents(*old(world))).dom().finite(),
        left == healths(contents(*old(world))).dom().len(),
{
    let items = query_healths(world);
    proof {
        handles(items@).unique_seq_to_set();
        vstd::seq_lib::seq_to_set_is_finite(handles(items@));
    }
    items.len()
}

/// Adds the score of one entity of `table` to a sum.
pub open spec fn add_score(table: Map<Entity, Score>) -> spec_fn(int, Entity) -> int {
    |sum: int, e: Entity| sum + table[e].0
}

/// The sum of all scores of the world.
pub open spec fn total_score(c: Contents) -> int {
    scores(c).dom().fold(0int, add_score(scores(c)))
}

/// Adds up the scores of all entities that have one.
fn sum_scores(world: &mut World) -> (sum: i128)
    ensures
        contents(*final(world)) == contents(*old(world)),
        sum == total_score(contents(*old(world))),
{
    let items = query_scores(world);
    let ghost table = scores(contents(*world));
    let ghost all = handles(items@);
    let mut sum: i128 = 0;
    let mut i: usize = 0;
    proof {
        assert(all.take(0).to_set() =~= Set::<Entity>::empty());
        lemma_fold_empty::<Entity, int>(0int, add_score(table));
        assert(is_fun_commutative(add_score(table)));
    }
    while i < items.len()
        invariant
            i <= items.len(),
            all == handles(items@),
            lists(items@, table),
            is_fun_commutative(add_score(table)),
            sum == all.take(i as int).to_set().fold(0int, add_score(table)),
            -0x8000_0000 * i <= sum <= 0x8000_0000 * i,
        decreases items.len() - i,
    {
        proof {
            let seen = all.take(i as int);
            let more = all.take(i + 1);
            let e = all[i as int];
            assert(!seen.contains(e)) by {
                if seen.contains(e) {
                    let k = choose|k: int| 0 <= k < seen.len() && seen[k] == e;
                    assert(all[k] == all[i as int]);
                }
            }
            lemma_take_grows(all, i as int);
            assert(more.to_set() =~= seen.to_set().insert(e)) by {
                assert forall|x: Entity| more.to_set().contains(x) implies seen.to_set().insert(
                    e,
                ).contains(x) by {
                    let k = choose|k: int| 0 <= k < more.len() && more[k] == x;
                    if k < seen.len() {
                        assert(seen[k] == x);
                    }
                }
            }
            vstd::seq_lib::seq_to_set_is_finite(seen);
            lemma_fold_insert(seen.to_set(), 0int, add_score(table), e);
            assert(items@[i as int].0 == e);
        }
        sum = sum + items[i].1.0 as i128;
        i += 1;
    }
    proof {
        assert(all.take(items.len() as int) =~= all);
    }
    sum
}

/// Adds up the scores of all entities that have one. The sum is one that the
/// result can hold.
pub fn system_score(world: &mut World) -> (total: usize)
    requires
        0 <= total_score(contents(*old(world))) <= usize::MAX,
    ensures
        contents(*final(world)) == contents(*old(world)),
        total == total_score(contents(*old(world))),
{
    sum_scores(world) as usize
}

/// Adds up the scores of all entities that have one, where the sum is one
/// that the result can hold; else `None` comes back.
pub fn checked_score(world: &mut World) -> (total: Option<usize>)
    ensures
        contents(*final(world)) == contents(*old(world)),
        match total {
            Some(sum) => sum == total_score(contents(*old(world))),
            None => !(0 <= total_score(contents(*old(world))) <= usize::MAX),
        },
{
    let sum = sum_scores(world);
    if 0 <= sum && sum <= usize::MAX as i128 {
        Some(sum as usize)
    } else {
        None
    }
}

/// Whether `tower` is a tower of `c` with no unit in its range.
pub open spec fn is_idle(c: Contents, tower: Entity) -> bool {
    towers(c).contains_key(tower) && forall|unit: Entity| !in_range(c, tower, unit)
}

/// Whether `tower` is a tower of `c` with a unit in its range.
pub open spec fn is_busy(c: Contents, tower: Entity) -> bool {
    towers(c).contains_key(tower) && exists|unit: Entity| in_range(c, tower, unit)
}

/// Whether `unit` is an entity of `c` in no tower's range.
pub open spec fn is_out_of_range(c: Contents, unit: Entity) -> bool {
    c.contains_key(unit) && forall|tower: Entity| !in_range(c, tower, unit)
}

/// Lets every tower fire once at the nearest unit within its range.
///
/// The towers fire one after the other, in the order in which the store walks
/// them, and of two units at the same distance a tower picks the one that the
/// store walks first: the world that results is that of [`volley`] for some
/// such order. Whatever the order, no entity comes or goes, nothing but the
/// health of units and the score and target of towers changes, a tower with no
/// unit in range ends aiming at nothing with the score it had, a tower with a
/// unit in range ends aiming at one of the closest, and a unit in no tower's
/// range keeps its health. The towers must be able to fire: see [`can_fire`].
pub fn system_fire_at_closest(world: &mut World)
    requires
        can_fire(contents(*old(world))),
    ensures
        exists|order: Seq<Entity>, scan: Seq<(Entity, Position)>|
            walks(order, towers(contents(*old(world))).dom()) && lists(
                scan,
                units(contents(*old(world))),
            ) && contents(*final(world)) == #[trigger] volley(contents(*old(world)), order, scan),
        same_but_combat_everywhere(contents(*old(world)), contents(*final(world))),
        forall|tower: Entity| #[trigger]
            is_idle(contents(*old(world)), tower) ==> {
                &&& contents(*final(world))[tower].target == Some(Target { position: None })
                &&& contents(*final(world))[tower].score == contents(*old(world))[tower].score
            },
        forall|tower: Entity| #[trigger]
            is_busy(contents(*old(world)), tower) ==> exists|unit: Entity| #[trigger]
                is_closest_in_range(contents(*old(world)), tower, unit) && contents(
                    *final(world),
                )[tower].target == Some(Target { position: contents(*old(world))[unit].position }),
        forall|unit: Entity| #[trigger]
            is_out_of_range(contents(*old(world)), unit) ==> contents(*final(world))[unit].health
                == contents(*old(world))[unit].health,
{
    let firing = query_towers(world);
    let scan = query_units(world);
    let ghost start = contents(*world);
    let ghost order = handles(firing@);
    proof {
        assert(walks(order, towers(start).dom()));
        assert(crate::combat::volley_fits(start, order, scan@));
        assert(is_firing_order(start, order)) by {
            assert forall|i: int| 0 <= i < order.len() implies towers(start).contains_key(
                #[trigger] order[i],
            ) by {
                assert(order.to_set().contains(order[i]));
            }
        }
        lemma_volley_frame(start, order, scan@);
        assert forall|tower: Entity| #[trigger] is_idle(start, tower) implies {
            &&& volley(start, order, scan@)[tower].target == Some(Target { position: None })
            &&& volley(start, order, scan@)[tower].score == start[tower].score
        } by {
            assert(order.to_set().contains(tower));
            lemma_idle_tower(start, order, scan@, tower);
        }
        assert forall|tower: Entity| #[trigger] is_busy(start, tower) implies exists|unit: Entity| #[trigger]
            is_closest_in_range(start, tower, unit) && volley(start, order, scan@)[tower].target
                == Some(Target { position: start[unit].position }) by {
            assert(order.to_set().contains(tower));
            lemma_firing_tower(start, order, scan@, tower);
        }
        assert forall|unit: Entity| #[trigger] is_out_of_range(start, unit) implies volley(
            start,
            order,
            scan@,
        )[unit].health == start[unit].health by {
            lemma_spared_unit(start, order, scan@, unit);
        }
    }
    fire_volley(world, &firing, &scan);
}

/// Whether the world is one that the spawner can have made and the systems
/// left: no mover has a negative speed, and no tower a negative damage or the
/// largest score there is. Such a world can move and fire.
pub open spec fn is_sound(c: Contents) -> bool {
    can_move(c) && has_sound_towers(c)
}

/// Tells whether the world is sound: see [`is_sound`].
pub fn world_is_sound(world: &mut World) -> (sound: bool)
    ensures
        contents(*final(world)) == contents(*old(world)),
        sound == is_sound(contents(*old(world))),
{
    let ghost c = contents(*world);
    let moving = query_movers(world);
    let mut i: usize = 0;
    while i < moving.len()
        invariant
            i <= moving.len(),
            c == contents(*old(world)),
            contents(*world) == c,
            lists(moving@, movers(c)),
            forall|j: int| 0 <= j < i ==> (#[trigger] moving@[j]).1.2.0 >= 0,
        decreases moving.len() - i,
    {
        if moving[i].1.2.0 < 0 {
            proof {
                let e = moving@[i as int].0;
                assert(handles(moving@)[i as int] == e);
                assert(handles(moving@).to_set().contains(e));
                assert(movers(c)[e] == moving@[i as int].1);
                assert(c.contains_key(e) && is_mover(c[e]));
            }
            return false;
        }
        i += 1;
    }
    proof {
        assert forall|e: Entity| #[trigger] c.contains_key(e) && is_mover(c[e]) implies c[e].speed.unwrap().0
            >= 0 by {
            assert(movers(c).contains_key(e));
            assert(handles(moving@).to_set().contains(e));
            let j = choose|j: int| 0 <= j < handles(moving@).len() && handles(moving@)[j] == e;
            assert(moving@[j].0 == e);
        }
    }
    let firing = query_towers(world);
    let mut i: usize = 0;
    while i < firing.len()
        invariant
            i <= firing.len(),
            c == contents(*old(world)),
            contents(*world) == c,
            can_move(c),
            lists(firing@, towers(c)),
            forall|j: int|
                0 <= j < i ==> (#[trigger] firing@[j]).1.damage.0 >= 0 && firing@[j].1.score.0
                    < i32::MAX,
        decreases firing.len() - i,
    {
        if firing[i].1.damage.0 < 0 || firing[i].1.score.0 == i32::MAX {
            proof {
                let e = firing@[i as int].0;
                assert(handles(firing@)[i as int] == e);
                assert(handles(firing@).to_set().contains(e));
                assert(towers(c)[e] == firing@[i as int].1);
            }
            return false;
        }
        i += 1;
    }
    proof {
        assert forall|e: Entity| #[trigger] towers(c).contains_key(e) implies c[e].damage.unwrap().0
            >= 0 && c[e].score.unwrap().0 < i32::MAX by {
            assert(handles(firing@).to_set().contains(e));
            let j = choose|j: int| 0 <= j < handles(firing@).len() && handles(firing@)[j] == e;
            assert(firing@[j].0 == e);
            assert(towers(c)[e] == firing@[j].1);
        }
    }
    true
}

} // verus!
