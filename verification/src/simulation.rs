//! The simulation as one block of state: the world, the path, and the
//! running totals, with the actions of the player that change it and the step
//! that advances it.

use vstd::prelude::*;
use hecs::{Entity, World};
use crate::actions::{Action, Mode};
use crate::combat::{can_fire, has_sound_towers, lemma_sound_towers_can_fire, volley, walks};
use crate::components::{is_distance, Position};
use crate::config::Config;
use crate::spawns::{
    batch_spawn_towers, batch_spawn_units, closest_entity, remove_tower, removed_under,
    selected_under, spawn_tower, tower_built, towers_joined, units_joined, Selection,
    UNIT_SCATTER,
};
use crate::store::{contents, empty_world, healths, lists, towers, units, Attributes, Contents};
use crate::systems::{
    after_motion, arrived, can_move, dead, is_sound, system_fire_at_closest,
    system_integrate_motion, system_remove_arrived, system_remove_dead, system_units_left,
    world_is_sound,
};

verus! {

/// What is left to do, outside the simulation, after an action.
#[derive(Clone, Copy, Debug, PartialEq, Eq, Structural)]
pub enum Reaction {
    /// Nothing: go on with the step.
    Continue,
    /// Print the state of every entity, then go on with the step.
    Print,
    /// Stop: no step follows.
    Quit,
}

/// The state of a simulation.
pub struct Simulation {
    /// The entities.
    pub world: World,
    /// The path that units walk, from its first point to its last.
    pub waypoints: Vec<Position>,
    /// How many units a wave has.
    pub wave: usize,
    /// Whether the simulation stands still.
    pub paused: bool,
    /// Whether the overlay is shown.
    pub debug: bool,
    /// What a click does.
    pub mode: Mode,
    /// How many steps were made.
    pub step: usize,
    /// How many units reached the end of the path.
    pub arrived: usize,
    /// What was selected last.
    pub selection: Option<Selection>,
}

/// The world before the towers fire in a step that starts from `c`: the units
/// have moved, and the dead and the arrived are gone.
pub open spec fn cleared(c: Contents, path: Seq<Position>) -> Contents {
    without_arrived(without_dead(after_motion(c, path)), path.last())
}

/// `c` without its dead.
pub open spec fn without_dead(c: Contents) -> Contents {
    c.remove_keys(dead(c))
}

/// `c` without the units that stand on `end`.
pub open spec fn without_arrived(c: Contents, end: Position) -> Contents {
    c.remove_keys(arrived(c, end))
}

impl Simulation {
    /// A simulation has a path of two points at least, where units start and
    /// where they arrive.
    pub open spec fn wf(&self) -> bool {
        self.waypoints@.len() >= 2
    }

    /// Where units start.
    pub open spec fn start(&self) -> Position {
        self.waypoints@.first()
    }

    /// Where units arrive.
    pub open spec fn end(&self) -> Position {
        self.waypoints@.last()
    }

    /// Whether a wave can be sent: the count is one that the store takes in
    /// one batch, and every position about the start of the path is one that a
    /// `Position` can hold.
    pub open spec fn can_spawn(&self) -> bool {
        &&& self.wave <= u32::MAX
        &&& is_distance(self.start().x - UNIT_SCATTER)
        &&& is_distance(self.start().x + UNIT_SCATTER - 1)
        &&& is_distance(self.start().y - UNIT_SCATTER)
        &&& is_distance(self.start().y + UNIT_SCATTER - 1)
    }

    /// Whether a step can be made: no mover has a negative speed, the towers
    /// can fire once the units have moved, and the two counters can grow.
    pub open spec fn can_step(&self) -> bool {
        let c = contents(self.world);
        let alive = without_dead(after_motion(c, self.waypoints@));
        &&& can_move(c)
        &&& can_fire(cleared(c, self.waypoints@))
        &&& self.step < usize::MAX
        &&& self.arrived + arrived(alive, self.end()).len() <= usize::MAX
    }

    /// Starts a simulation on the path `waypoints`: a world with the units of
    /// one wave about the start of the path and the towers of `config`, no
    /// step made and no unit arrived.
    pub fn new(config: &Config, waypoints: Vec<Position>) -> (simulation: Simulation)
        requires
            waypoints@.len() >= 2,
            config.units <= u32::MAX,
            config.towers <= u32::MAX,
            is_distance(waypoints@.first().x - UNIT_SCATTER),
            is_distance(waypoints@.first().x + UNIT_SCATTER - 1),
            is_distance(waypoints@.first().y - UNIT_SCATTER),
            is_distance(waypoints@.first().y + UNIT_SCATTER - 1),
        ensures
            simulation.wf(),
            simulation.can_spawn(),
            simulation.waypoints == waypoints,
            simulation.wave == config.units,
            simulation.paused == config.paused,
            simulation.debug == false,
            simulation.mode == Mode::View,
            simulation.step == 0,
            simulation.arrived == 0,
            simulation.selection is None,
            exists|manned: Contents|
                units_joined(Map::empty(), manned, config.units as nat, waypoints@.first())
                    && #[trigger] towers_joined(
                    manned,
                    contents(simulation.world),
                    config.towers as nat,
                ),
    {
        let mut world = empty_world();
        let ghost empty = contents(world);
        let start = waypoints[0];
        batch_spawn_units(&mut world, config.units, &start);
        let ghost manned = contents(world);
        batch_spawn_towers(&mut world, config.towers);
        proof {
            assert(empty =~= Map::<Entity, Attributes>::empty());
        }
        let simulation = Simulation {
            world,
            waypoints,
            wave: config.units,
            paused: config.paused,
            debug: false,
            mode: Mode::View,
            step: 0,
            arrived: 0,
            selection: None,
        };
        assert(towers_joined(manned, contents(simulation.world), config.towers as nat));
        simulation
    }
}

impl Simulation {
    /// What an action leaves to do outside the simulation.
    pub open spec fn reaction_to(action: Option<Action>) -> Reaction {
        match action {
            Some(Action::PrintState) => Reaction::Print,
            Some(Action::Quit) => Reaction::Quit,
            _ => Reaction::Continue,
        }
    }

    /// Whether `after` is `self` once `action` was obeyed. An action changes
    /// one thing: the pause, the overlay, the mode, the world or the
    /// selection. No action at all changes nothing, and neither do those that
    /// are left to the caller.
    pub open spec fn obeyed(self, action: Option<Action>, after: Simulation) -> bool {
        let before = contents(self.world);
        let now = contents(after.world);
        &&& after.waypoints == self.waypoints
        &&& after.wave == self.wave
        &&& after.step == self.step
        &&& after.arrived == self.arrived
        &&& after.paused == if action == Some(Action::TogglePause) {
            !self.paused
        } else {
            self.paused
        }
        &&& after.debug == if action == Some(Action::ToggleDebug) {
            !self.debug
        } else {
            self.debug
        }
        &&& after.mode == match action {
            Some(Action::ChangeMode(mode)) => mode,
            _ => self.mode,
        }
        &&& match action {
            Some(Action::Spawn) => units_joined(before, now, self.wave as nat, self.start()),
            Some(Action::Build(at)) => tower_built(before, now, at),
            Some(Action::Remove(at)) => removed_under(before, now, at),
            _ => now == before,
        }
        &&& match action {
            Some(Action::View(at)) => selected_under(before, at, after.selection),
            _ => after.selection == self.selection,
        }
    }

    /// Obeys one action of the player, or none, and says what is left to do:
    /// see [`Simulation::obeyed`] and [`Simulation::reaction_to`].
    pub fn handle(&mut self, action: Option<Action>) -> (reaction: Reaction)
        requires
            old(self).wf(),
            action == Some(Action::Spawn) ==> old(self).can_spawn(),
        ensures
            final(self).wf(),
            old(self).obeyed(action, *final(self)),
            reaction == Self::reaction_to(action),
    {
        match action {
            Some(Action::TogglePause) => {
                self.paused = !self.paused;
                Reaction::Continue
            },
            Some(Action::ToggleDebug) => {
                self.debug = !self.debug;
                Reaction::Continue
            },
            Some(Action::ChangeMode(mode)) => {
                self.mode = mode;
                Reaction::Continue
            },
            Some(Action::Spawn) => {
                let start = self.waypoints[0];
                batch_spawn_units(&mut self.world, self.wave, &start);
                Reaction::Continue
            },
            Some(Action::Build(at)) => {
                spawn_tower(&mut self.world, &at);
                Reaction::Continue
            },
            Some(Action::Remove(at)) => {
                remove_tower(&mut self.world, &at);
                Reaction::Continue
            },
            Some(Action::View(at)) => {
                self.selection = closest_entity(&mut self.world, &at);
                Reaction::Continue
            },
            Some(Action::PrintState) => Reaction::Print,
            Some(Action::Quit) => Reaction::Quit,
            None => Reaction::Continue,
        }
    }

    /// Whether `after` is `self` one step later. A paused simulation stands
    /// still. Else the units move, the dead and then the arrived are removed
    /// and the arrived counted, the towers fire, in some order in which the
    /// store walks them, and the step is counted.
    pub open spec fn stepped(self, after: Simulation) -> bool {
        let before = contents(self.world);
        let alive = without_dead(after_motion(before, self.waypoints@));
        let ready = cleared(before, self.waypoints@);
        &&& after.waypoints == self.waypoints
        &&& after.wave == self.wave
        &&& after.paused == self.paused
        &&& after.debug == self.debug
        &&& after.mode == self.mode
        &&& after.selection == self.selection
        &&& if self.paused {
            &&& after.step == self.step
            &&& after.arrived == self.arrived
            &&& contents(after.world) == before
        } else {
            &&& after.step == self.step + 1
            &&& after.arrived == self.arrived + arrived(alive, self.end()).len()
            &&& exists|order: Seq<Entity>, scan: Seq<(Entity, Position)>|
                walks(order, towers(ready).dom()) && lists(scan, units(ready)) && contents(
                    after.world,
                ) == #[trigger] volley(ready, order, scan)
        }
    }

    /// Makes one step, unless the simulation is paused: see
    /// [`Simulation::stepped`].
    pub fn run_step(&mut self)
        requires
            old(self).wf(),
            !old(self).paused ==> old(self).can_step(),
        ensures
            final(self).wf(),
            old(self).stepped(*final(self)),
    {
        if !self.paused {
            system_integrate_motion(&mut self.world, self.waypoints.as_slice());
            system_remove_dead(&mut self.world);
            let end = self.waypoints[self.waypoints.len() - 1];
            let removed = system_remove_arrived(&mut self.world, &end);
            self.arrived = self.arrived + removed;
            system_fire_at_closest(&mut self.world);
            self.step = self.step + 1;
        }
    }
}

impl Simulation {
    /// Whether a step can be made for sure: the world is sound, and the two
    /// counters can grow, the one by one, the other by the number of units.
    pub open spec fn is_ready(&self) -> bool {
        &&& is_sound(contents(self.world))
        &&& self.step < usize::MAX
        &&& self.arrived + healths(contents(self.world)).dom().len() <= usize::MAX
    }

    /// Whether `after` is `self`, unchanged.
    pub open spec fn same_as(self, after: Simulation) -> bool {
        &&& after.waypoints == self.waypoints
        &&& after.wave == self.wave
        &&& after.paused == self.paused
        &&& after.debug == self.debug
        &&& after.mode == self.mode
        &&& after.selection == self.selection
        &&& after.step == self.step
        &&& after.arrived == self.arrived
        &&& contents(after.world) == contents(self.world)
    }

    /// Makes one step if the simulation is paused, which changes nothing, or
    /// ready: see [`Simulation::is_ready`] and [`Simulation::stepped`]. Else
    /// nothing changes, and `false` comes back.
    pub fn try_step(&mut self) -> (done: bool)
        requires
            old(self).wf(),
        ensures
            final(self).wf(),
            done == (old(self).paused || old(self).is_ready()),
            done ==> old(self).stepped(*final(self)),
            !done ==> old(self).same_as(*final(self)),
    {
        if self.paused {
            return true;
        }
        if self.step == usize::MAX {
            return false;
        }
        let left = system_units_left(&mut self.world);
        if self.arrived > usize::MAX - left {
            return false;
        }
        if !world_is_sound(&mut self.world) {
            return false;
        }
        proof {
            lemma_ready_can_step(*self);
        }
        self.run_step();
        true
    }
}

/// A simulation that is ready can make a step.
pub proof fn lemma_ready_can_step(simulation: Simulation)
    requires
        simulation.is_ready(),
        healths(contents(simulation.world)).dom().finite(),
    ensures
        simulation.can_step(),
{
    let c = contents(simulation.world);
    let path = simulation.waypoints@;
    let alive = without_dead(after_motion(c, path));
    lemma_sound_world_can_step(c, path);
    assert(arrived(alive, simulation.end()).subset_of(healths(c).dom())) by {
        assert forall|e: Entity| arrived(alive, simulation.end()).contains(e) implies healths(
            c,
        ).dom().contains(e) by {
            assert(units(alive).contains_key(e));
            assert(c.contains_key(e));
        }
    }
    vstd::set_lib::lemma_len_subset(arrived(alive, simulation.end()), healths(c).dom());
}

/// A world whose movers have no negative speed, and whose towers have no
/// negative damage and not the largest score there is, can make a step.
pub proof fn lemma_sound_world_can_step(c: Contents, path: Seq<Position>)
    requires
        can_move(c),
        has_sound_towers(c),
    ensures
        can_move(c),
        can_fire(cleared(c, path)),
{
    let ready = cleared(c, path);
    assert forall|e: Entity| #[trigger] towers(ready).contains_key(e) implies ready[e].damage.unwrap().0
        >= 0 && ready[e].score.unwrap().0 < i32::MAX by {
        assert(c.contains_key(e));
        assert(towers(c).contains_key(e));
    }
    lemma_sound_towers_can_fire(ready);
}

} // verus!
