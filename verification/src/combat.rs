//! How towers fire.
//!
//! Each tower in turn picks the nearest unit within its range and hits it
//! once. A hit takes the tower's damage from the unit's health, if the unit is
//! still alive; the hit that brings the health to zero or below earns the
//! tower one point. The tower then aims at the unit it picked, or at nothing
//! if no unit was in range. Firing removes no entity.

use vstd::prelude::*;
use hecs::{Entity, World};
use crate::components::{Damage, Health, Position, Score, Target, Tower};
use crate::geometry::distance_squared;
use crate::store::{
    attributes_of, contents, handles, lists, towers, units, write_aim, write_health, Attributes,
    Contents,
};
use crate::targeting::{eligible, find_nearest, is_nearest, lemma_nearest_is_none, nearest};

verus! {

/// Health of a unit and score of a tower after the tower has hit the unit. A
/// unit whose health is not above zero is not hit again.
pub open spec fn hit(damage: Damage, health: Health, score: Score) -> (Health, Score) {
    if health.value > 0 {
        let left = health.value - damage.0;
        (
            Health { value: left as i32, max: health.max },
            if left <= 0 {
                Score((score.0 + 1) as i32)
            } else {
                score
            },
        )
    } else {
        (health, score)
    }
}

/// Whether the hit can be computed: health and score stay in the range of
/// their type.
pub open spec fn hit_fits(damage: Damage, health: Health, score: Score) -> bool {
    health.value > 0 ==> {
        &&& health.value - damage.0 <= i32::MAX
        &&& health.value - damage.0 <= 0 ==> score.0 < i32::MAX
    }
}

/// One hit of a tower on a unit: see [`hit`].
pub fn apply_hit(damage: Damage, health: Health, score: Score) -> (after: (Health, Score))
    requires
        hit_fits(damage, health, score),
    ensures
        after == hit(damage, health, score),
{
    if health.value > 0 {
        let left: i64 = health.value as i64 - damage.0 as i64;
        let hurt = Health { value: left as i32, max: health.max };
        if left <= 0 {
            (hurt, Score(score.0 + 1))
        } else {
            (hurt, score)
        }
    } else {
        (health, score)
    }
}

/// A tower with damage `D` that hits a living unit with health `H` leaves it
/// with health `H - D`, and gains one point exactly when `H - D` is not above
/// zero.
pub proof fn lemma_hit(damage: Damage, health: Health, score: Score)
    requires
        health.value > 0,
        hit_fits(damage, health, score),
    ensures
        hit(damage, health, score).0.value == health.value - damage.0,
        hit(damage, health, score).0.max == health.max,
        health.value - damage.0 <= 0 ==> hit(damage, health, score).1.0 == score.0 + 1,
        health.value - damage.0 > 0 ==> hit(damage, health, score).1 == score,
{
}

/// The unit that `tower` picks in `c`, as an index into `scan`, the units in
/// the order the store walks them: the nearest within range, the tower itself
/// left out.
pub open spec fn aim(c: Contents, tower: Entity, scan: Seq<(Entity, Position)>) -> Option<int> {
    nearest(
        scan,
        c[tower].position.unwrap(),
        c[tower].range.unwrap().squared as int,
        Some(tower),
    )
}

/// The world after `tower` has fired.
pub open spec fn shot(c: Contents, tower: Entity, scan: Seq<(Entity, Position)>) -> Contents {
    match aim(c, tower, scan) {
        Some(k) => {
            let unit = scan[k].0;
            let after = hit(
                c[tower].damage.unwrap(),
                c[unit].health.unwrap(),
                c[tower].score.unwrap(),
            );
            c.insert(unit, Attributes { health: Some(after.0), ..c[unit] }).insert(
                tower,
                Attributes {
                    score: Some(after.1),
                    target: Some(Target { position: c[unit].position }),
                    ..c[tower]
                },
            )
        },
        None => c.insert(
            tower,
            Attributes { target: Some(Target { position: None }), ..c[tower] },
        ),
    }
}

/// Whether the shot of `tower` can be computed.
pub open spec fn shot_fits(c: Contents, tower: Entity, scan: Seq<(Entity, Position)>) -> bool {
    aim(c, tower, scan) matches Some(k) ==> hit_fits(
        c[tower].damage.unwrap(),
        c[scan[k].0].health.unwrap(),
        c[tower].score.unwrap(),
    )
}

/// The world after the towers of `order` have fired, one after the other.
pub open spec fn volley(c: Contents, order: Seq<Entity>, scan: Seq<(Entity, Position)>) -> Contents
    decreases order.len(),
{
    if order.len() == 0 {
        c
    } else {
        shot(volley(c, order.drop_last(), scan), order.last(), scan)
    }
}

/// Whether every shot of the volley can be computed.
pub open spec fn volley_fits(c: Contents, order: Seq<Entity>, scan: Seq<(Entity, Position)>) -> bool {
    forall|k: int|
        0 <= k < order.len() ==> shot_fits(#[trigger] volley(c, order.take(k), scan), order[k], scan)
}

/// Whether `order` names each entity of `set` exactly once.
pub open spec fn walks(order: Seq<Entity>, set: Set<Entity>) -> bool {
    order.no_duplicates() && order.to_set() == set
}

/// Whether the towers of `c` can fire, in whichever order the store walks its
/// towers and its units.
pub open spec fn can_fire(c: Contents) -> bool {
    forall|order: Seq<Entity>, scan: Seq<(Entity, Position)>|
        walks(order, towers(c).dom()) && lists(scan, units(c)) ==> #[trigger] volley_fits(
            c,
            order,
            scan,
        )
}

/// What firing leaves alone in one entity: it may change the value of a
/// health, a score and a target, and nothing else.
pub open spec fn same_but_combat(before: Attributes, after: Attributes) -> bool {
    &&& after.position == before.position
    &&& after.speed == before.speed
    &&& after.waypoint == before.waypoint
    &&& after.damage == before.damage
    &&& after.range == before.range
    &&& after.health is Some <==> before.health is Some
    &&& after.health is Some ==> after.health.unwrap().max == before.health.unwrap().max
    &&& after.score is Some <==> before.score is Some
    &&& after.target is Some <==> before.target is Some
}

/// What firing leaves alone in the world: no entity comes or goes, and each
/// keeps what [`same_but_combat`] says; only a unit's health changes, and
/// only a tower's score and target.
pub open spec fn same_but_combat_everywhere(before: Contents, after: Contents) -> bool {
    &&& after.dom() == before.dom()
    &&& forall|e: Entity| #[trigger]
        before.contains_key(e) ==> {
            &&& same_but_combat(before[e], after[e])
            &&& !units(before).contains_key(e) ==> after[e].health == before[e].health
            &&& !towers(before).contains_key(e) ==> after[e].score == before[e].score
                && after[e].target == before[e].target
        }
}

/// One shot changes the health of the unit it hits and the score and target
/// of the tower that fires, and nothing else.
pub proof fn lemma_shot_frame(c: Contents, tower: Entity, scan: Seq<(Entity, Position)>)
    requires
        towers(c).contains_key(tower),
        lists(scan, units(c)),
    ensures
        same_but_combat_everywhere(c, shot(c, tower, scan)),
        units(shot(c, tower, scan)) == units(c),
        towers(shot(c, tower, scan)).dom() == towers(c).dom(),
        forall|e: Entity|
            c.contains_key(e) && e != tower ==> (#[trigger] shot(c, tower, scan)[e]).score
                == c[e].score && shot(c, tower, scan)[e].target == c[e].target,
{
    let after = shot(c, tower, scan);
    match aim(c, tower, scan) {
        Some(k) => {
            lemma_aim_is_a_unit(c, tower, scan);
            let unit = scan[k].0;
            assert(units(c).contains_key(unit));
            assert(unit != tower);
        },
        None => {},
    }
    assert(after.dom() =~= c.dom());
    assert(units(after) =~= units(c));
    assert(towers(after).dom() =~= towers(c).dom());
}

/// The unit a tower picks is a unit of the world, other than the tower, and
/// within its range.
pub proof fn lemma_aim_is_a_unit(c: Contents, tower: Entity, scan: Seq<(Entity, Position)>)
    requires
        lists(scan, units(c)),
    ensures
        aim(c, tower, scan) matches Some(k) ==> {
            &&& 0 <= k < scan.len()
            &&& scan[k].0 != tower
            &&& units(c).contains_key(scan[k].0)
            &&& c[scan[k].0].position == Some(scan[k].1)
            &&& is_nearest(
                scan,
                k,
                c[tower].position.unwrap(),
                c[tower].range.unwrap().squared as int,
                Some(tower),
            )
        },
{
    if let Some(k) = aim(c, tower, scan) {
        let origin = c[tower].position.unwrap();
        let reach = c[tower].range.unwrap().squared as int;
        assert(is_nearest(scan, k, origin, reach, Some(tower)));
        assert(eligible(scan, k, origin, reach, Some(tower)));
        assert(handles(scan)[k] == scan[k].0);
        assert(handles(scan).to_set().contains(scan[k].0));
    }
}

/// A volley changes the health of units and the score and target of the
/// towers that fire, and nothing else: no entity comes or goes, none moves,
/// and a tower that does not fire keeps its score and its target.
pub proof fn lemma_volley_frame(c: Contents, order: Seq<Entity>, scan: Seq<(Entity, Position)>)
    requires
        forall|i: int| 0 <= i < order.len() ==> towers(c).contains_key(#[trigger] order[i]),
        lists(scan, units(c)),
    ensures
        same_but_combat_everywhere(c, volley(c, order, scan)),
        units(volley(c, order, scan)) == units(c),
        towers(volley(c, order, scan)).dom() == towers(c).dom(),
        forall|e: Entity|
            c.contains_key(e) && !order.contains(e) ==> (#[trigger] volley(c, order, scan)[e]).score
                == c[e].score && volley(c, order, scan)[e].target == c[e].target,
    decreases order.len(),
{
    if order.len() > 0 {
        let before = volley(c, order.drop_last(), scan);
        let tower = order.last();
        lemma_volley_frame(c, order.drop_last(), scan);
        assert(towers(c).contains_key(order[order.len() - 1]));
        assert(towers(before).dom().contains(tower));
        lemma_shot_frame(before, tower, scan);
        let after = shot(before, tower, scan);
        assert(after == volley(c, order, scan));
        assert forall|e: Entity| c.contains_key(e) && !order.contains(e) implies (#[trigger] after[e]).score
            == c[e].score && after[e].target == c[e].target by {
            assert(e != tower);
            if order.drop_last().contains(e) {
                let k = choose|k: int| 0 <= k < order.drop_last().len() && order.drop_last()[k] == e;
                assert(order[k] == e);
            }
            assert(before.contains_key(e));
        }
        assert forall|e: Entity| #[trigger] c.contains_key(e) implies {
            &&& same_but_combat(c[e], after[e])
            &&& !units(c).contains_key(e) ==> after[e].health == c[e].health
            &&& !towers(c).contains_key(e) ==> after[e].score == c[e].score && after[e].target
                == c[e].target
        } by {
            assert(before.contains_key(e));
            assert(same_but_combat(c[e], before[e]));
            assert(same_but_combat(before[e], after[e]));
            assert(units(before).contains_key(e) == units(c).contains_key(e));
            assert(towers(before).dom().contains(e) == towers(c).dom().contains(e));
        }
    }
}

/// Lets the towers of `firing` fire, one after the other, each at the nearest
/// unit of `scan` within its range. `firing` and `scan` are the towers and the
/// units of the world, in the order in which they fire and are looked at.
pub fn fire_volley(
    world: &mut World,
    firing: &Vec<(Entity, Tower)>,
    scan: &Vec<(Entity, Position)>,
)
    requires
        lists(firing@, towers(contents(*old(world)))),
        lists(scan@, units(contents(*old(world)))),
        volley_fits(contents(*old(world)), handles(firing@), scan@),
    ensures
        contents(*final(world)) == volley(contents(*old(world)), handles(firing@), scan@),
{
    let ghost start = contents(*world);
    let ghost order = handles(firing@);
    let mut i: usize = 0;
    assert(order.take(0) =~= Seq::<Entity>::empty());
    while i < firing.len()
        invariant
            i <= firing.len(),
            order == handles(firing@),
            lists(firing@, towers(start)),
            lists(scan@, units(start)),
            volley_fits(start, order, scan@),
            contents(*world) == volley(start, order.take(i as int), scan@),
        decreases firing.len() - i,
    {
        let tower = firing[i].0;
        let told = firing[i].1;
        let ghost now = contents(*world);
        proof {
            let fired = order.take(i as int);
            assert(order[i as int] == tower);
            assert forall|k: int| 0 <= k < order.len() implies towers(start).contains_key(
                #[trigger] order[k],
            ) by {
                assert(order.to_set().contains(order[k]));
            }
            assert forall|k: int| 0 <= k < fired.len() implies towers(start).contains_key(
                #[trigger] fired[k],
            ) by {
                assert(fired[k] == order[k]);
            }
            lemma_volley_frame(start, fired, scan@);
            assert(!fired.contains(tower)) by {
                if fired.contains(tower) {
                    let k = choose|k: int| 0 <= k < fired.len() && fired[k] == tower;
                    assert(order[k] == order[i as int]);
                }
            }
            assert(start.contains_key(tower));
            assert(same_but_combat(start[tower], now[tower]));
            assert(towers(start)[tower] == told);
            assert(shot_fits(volley(start, order.take(i as int), scan@), order[i as int], scan@));
            lemma_aim_is_a_unit(now, tower, scan@);
        }
        let pick = find_nearest(scan, &told.position, told.range.squared, Some(tower));
        match pick {
            Some(k) => {
                let unit = scan[k].0;
                let found = attributes_of(world, unit);
                assert(units(now).contains_key(unit));
                let health = found.unwrap().health.unwrap();
                let after = apply_hit(told.damage, health, told.score);
                write_health(world, unit, after.0);
                write_aim(world, tower, after.1, Target { position: Some(scan[k].1) });
            },
            None => {
                write_aim(world, tower, told.score, Target { position: None });
            },
        }
        proof {
            let more = order.take(i + 1);
            assert(more.drop_last() =~= order.take(i as int));
            assert(more.last() == tower);
            assert(contents(*world) =~= shot(now, tower, scan@));
        }
        i += 1;
    }
    assert(order.take(firing.len() as int) =~= order);
}

/// Whether `unit` is a unit of `c` within the range of `tower`, a tower of `c`
/// other than the unit.
pub open spec fn in_range(c: Contents, tower: Entity, unit: Entity) -> bool {
    &&& towers(c).contains_key(tower)
    &&& units(c).contains_key(unit)
    &&& unit != tower
    &&& distance_squared(c[unit].position.unwrap(), c[tower].position.unwrap())
        <= c[tower].range.unwrap().squared
}

/// Whether `order` names towers of `c`, none of them twice.
pub open spec fn is_firing_order(c: Contents, order: Seq<Entity>) -> bool {
    &&& order.no_duplicates()
    &&& forall|i: int| 0 <= i < order.len() ==> towers(c).contains_key(#[trigger] order[i])
}

/// A tower picks a unit exactly when one is in its range, whatever was fired
/// before.
proof fn lemma_aim_in_range(
    c: Contents,
    now: Contents,
    tower: Entity,
    scan: Seq<(Entity, Position)>,
)
    requires
        towers(c).contains_key(tower),
        lists(scan, units(c)),
        same_but_combat_everywhere(c, now),
    ensures
        aim(now, tower, scan) == aim(c, tower, scan),
        aim(c, tower, scan) matches Some(k) ==> in_range(c, tower, scan[k].0),
        aim(c, tower, scan) is None <==> forall|unit: Entity| !in_range(c, tower, unit),
{
    let origin = c[tower].position.unwrap();
    let reach = c[tower].range.unwrap().squared as int;
    assert(c.contains_key(tower));
    assert(same_but_combat(c[tower], now[tower]));
    lemma_aim_is_a_unit(c, tower, scan);
    lemma_nearest_is_none(scan, origin, reach, Some(tower));
    if aim(c, tower, scan) is None {
        assert forall|unit: Entity| !in_range(c, tower, unit) by {
            if in_range(c, tower, unit) {
                assert(handles(scan).to_set().contains(unit));
                let k = choose|k: int| 0 <= k < handles(scan).len() && handles(scan)[k] == unit;
                assert(scan[k].0 == unit);
                assert(units(c)[scan[k].0] == scan[k].1);
                assert(eligible(scan, k, origin, reach, Some(tower)));
            }
        }
    } else {
        let k = aim(c, tower, scan).unwrap();
        assert(eligible(scan, k, origin, reach, Some(tower)));
        assert(in_range(c, tower, scan[k].0));
    }
}

/// A tower with no unit in its range ends the volley aiming at nothing, with
/// the score it had.
pub proof fn lemma_idle_tower(
    c: Contents,
    order: Seq<Entity>,
    scan: Seq<(Entity, Position)>,
    tower: Entity,
)
    requires
        is_firing_order(c, order),
        lists(scan, units(c)),
        order.contains(tower),
        forall|unit: Entity| !in_range(c, tower, unit),
    ensures
        volley(c, order, scan)[tower].target == Some(Target { position: None }),
        volley(c, order, scan)[tower].score == c[tower].score,
    decreases order.len(),
{
    let earlier = order.drop_last();
    let before = volley(c, earlier, scan);
    let last = order.last();
    assert(order.len() > 0);
    assert(towers(c).contains_key(order[order.len() - 1]));
    assert(is_firing_order(c, earlier)) by {
        assert forall|i: int| 0 <= i < earlier.len() implies towers(c).contains_key(
            #[trigger] earlier[i],
        ) by {
            assert(earlier[i] == order[i]);
        }
    }
    let at = choose|k: int| 0 <= k < order.len() && order[k] == tower;
    assert(towers(c).contains_key(order[at]));
    lemma_volley_frame(c, earlier, scan);
    assert(c.contains_key(tower) && c.contains_key(last));
    assert(towers(before).dom().contains(last));
    lemma_shot_frame(before, last, scan);
    if last == tower {
        assert(!earlier.contains(tower)) by {
            if earlier.contains(tower) {
                let k = choose|k: int| 0 <= k < earlier.len() && earlier[k] == tower;
                assert(order[k] == order[order.len() - 1]);
            }
        }
        lemma_aim_in_range(c, before, tower, scan);
    } else {
        assert(earlier[at] == tower);
        lemma_idle_tower(c, earlier, scan, tower);
    }
}

/// Whether `unit` is, of the units in the range of `tower`, one of the
/// closest to it.
pub open spec fn is_closest_in_range(c: Contents, tower: Entity, unit: Entity) -> bool {
    &&& in_range(c, tower, unit)
    &&& forall|other: Entity| #[trigger]
        in_range(c, tower, other) ==> distance_squared(
            c[unit].position.unwrap(),
            c[tower].position.unwrap(),
        ) <= distance_squared(c[other].position.unwrap(), c[tower].position.unwrap())
}

/// The unit a tower picks is one of the closest in its range.
proof fn lemma_aim_is_closest(c: Contents, tower: Entity, scan: Seq<(Entity, Position)>)
    requires
        towers(c).contains_key(tower),
        lists(scan, units(c)),
    ensures
        aim(c, tower, scan) matches Some(k) ==> is_closest_in_range(c, tower, scan[k].0),
{
    if let Some(k) = aim(c, tower, scan) {
        let origin = c[tower].position.unwrap();
        let reach = c[tower].range.unwrap().squared as int;
        lemma_aim_is_a_unit(c, tower, scan);
        assert(eligible(scan, k, origin, reach, Some(tower)));
        assert forall|other: Entity| #[trigger] in_range(c, tower, other) implies distance_squared(
            c[scan[k].0].position.unwrap(),
            origin,
        ) <= distance_squared(c[other].position.unwrap(), origin) by {
            assert(handles(scan).to_set().contains(other));
            let j = choose|j: int| 0 <= j < handles(scan).len() && handles(scan)[j] == other;
            assert(scan[j].0 == other);
            assert(units(c)[scan[j].0] == scan[j].1);
            assert(eligible(scan, j, origin, reach, Some(tower)));
        }
    }
}

/// A tower with a unit in its range ends the volley aiming at where one of
/// the closest units in its range stands.
pub proof fn lemma_firing_tower(
    c: Contents,
    order: Seq<Entity>,
    scan: Seq<(Entity, Position)>,
    tower: Entity,
)
    requires
        is_firing_order(c, order),
        lists(scan, units(c)),
        order.contains(tower),
        exists|unit: Entity| in_range(c, tower, unit),
    ensures
        exists|unit: Entity| #[trigger]
            is_closest_in_range(c, tower, unit) && volley(c, order, scan)[tower].target == Some(
                Target { position: c[unit].position },
            ),
    decreases order.len(),
{
    let earlier = order.drop_last();
    let before = volley(c, earlier, scan);
    let last = order.last();
    assert(order.len() > 0);
    assert(towers(c).contains_key(order[order.len() - 1]));
    assert(is_firing_order(c, earlier)) by {
        assert forall|i: int| 0 <= i < earlier.len() implies towers(c).contains_key(
            #[trigger] earlier[i],
        ) by {
            assert(earlier[i] == order[i]);
        }
    }
    let at = choose|k: int| 0 <= k < order.len() && order[k] == tower;
    assert(towers(c).contains_key(order[at]));
    lemma_volley_frame(c, earlier, scan);
    assert(c.contains_key(tower) && c.contains_key(last));
    assert(towers(before).dom().contains(last));
    lemma_shot_frame(before, last, scan);
    if last == tower {
        lemma_aim_in_range(c, before, tower, scan);
        lemma_aim_is_closest(c, tower, scan);
        let k = aim(c, tower, scan).unwrap();
        let unit = scan[k].0;
        assert(c.contains_key(unit));
        assert(same_but_combat(c[unit], before[unit]));
        assert(is_closest_in_range(c, tower, unit));
    } else {
        assert(earlier[at] == tower);
        lemma_firing_tower(c, earlier, scan, tower);
        let unit = choose|unit: Entity| #[trigger]
            is_closest_in_range(c, tower, unit) && before[tower].target == Some(
                Target { position: c[unit].position },
            );
        assert(is_closest_in_range(c, tower, unit));
    }
}

/// A unit in no tower's range ends the volley with the health it had.
pub proof fn lemma_spared_unit(
    c: Contents,
    order: Seq<Entity>,
    scan: Seq<(Entity, Position)>,
    unit: Entity,
)
    requires
        is_firing_order(c, order),
        lists(scan, units(c)),
        c.contains_key(unit),
        forall|tower: Entity| !in_range(c, tower, unit),
    ensures
        volley(c, order, scan)[unit].health == c[unit].health,
    decreases order.len(),
{
    if order.len() > 0 {
        let earlier = order.drop_last();
        let before = volley(c, earlier, scan);
        let last = order.last();
        assert(towers(c).contains_key(order[order.len() - 1]));
        assert(is_firing_order(c, earlier)) by {
            assert forall|i: int| 0 <= i < earlier.len() implies towers(c).contains_key(
                #[trigger] earlier[i],
            ) by {
                assert(earlier[i] == order[i]);
            }
        }
        lemma_spared_unit(c, earlier, scan, unit);
        lemma_volley_frame(c, earlier, scan);
        lemma_aim_in_range(c, before, last, scan);
        assert(!in_range(c, last, unit));
        assert(before.contains_key(unit));
    }
}

/// Whether no tower of `c` has a negative damage or the largest score there
/// is.
pub open spec fn has_sound_towers(c: Contents) -> bool {
    forall|e: Entity| #[trigger]
        towers(c).contains_key(e) ==> c[e].damage.unwrap().0 >= 0 && c[e].score.unwrap().0
            < i32::MAX
}

/// Towers whose damage is not negative and whose score is not the largest
/// there is can fire, in whichever order.
pub proof fn lemma_sound_towers_can_fire(c: Contents)
    requires
        has_sound_towers(c),
    ensures
        can_fire(c),
{
    assert forall|order: Seq<Entity>, scan: Seq<(Entity, Position)>|
        walks(order, towers(c).dom()) && lists(scan, units(c)) implies #[trigger] volley_fits(
        c,
        order,
        scan,
    ) by {
        assert forall|k: int| 0 <= k < order.len() implies shot_fits(
            #[trigger] volley(c, order.take(k), scan),
            order[k],
            scan,
        ) by {
            let fired = order.take(k);
            let tower = order[k];
            assert(order.to_set().contains(order[k]));
            assert forall|i: int| 0 <= i < fired.len() implies towers(c).contains_key(
                #[trigger] fired[i],
            ) by {
                assert(fired[i] == order[i]);
                assert(order.to_set().contains(order[i]));
            }
            lemma_volley_frame(c, fired, scan);
            assert(!fired.contains(tower)) by {
                if fired.contains(tower) {
                    let i = choose|i: int| 0 <= i < fired.len() && fired[i] == tower;
                    assert(order[i] == order[k]);
                }
            }
            assert(c.contains_key(tower));
            assert(same_but_combat(c[tower], volley(c, fired, scan)[tower]));
        }
    }
}

} // verus!
