use hecs::World;
use tower_defense::components::{
    Damage, Health, Position, Range, Score, Speed, Target, Waypoint,
};
use tower_defense::config::Config;
use tower_defense::actions::{Action, Mode};
use tower_defense::simulation::{Reaction, Simulation};
use tower_defense::systems::{system_score, system_units_left};

fn path() -> Vec<Position> {
    vec![Position { x: 0, y: 0 }, Position { x: 100, y: 0 }]
}

fn bare(paused: bool) -> Simulation {
    Simulation {
        world: World::new(),
        waypoints: path(),
        wave: 3,
        paused,
        debug: false,
        mode: Mode::View,
        step: 0,
        arrived: 0,
        selection: None,
    }
}

fn count_towers(world: &World) -> usize {
    world.query::<(&Damage, &Range, &Score, &Target)>().iter().count()
}

#[test]
fn a_simulation_starts_with_its_units_and_towers() {
    let config = Config { paused: true, towers: 4, units: 6 };
    let mut simulation = Simulation::new(&config, path());
    assert_eq!(simulation.world.len(), 10);
    assert_eq!(system_units_left(&mut simulation.world), 6);
    assert_eq!(count_towers(&simulation.world), 4);
    assert_eq!(system_score(&mut simulation.world), 0);
    assert_eq!(simulation.waypoints, path());
    assert_eq!(simulation.wave, 6);
    assert!(simulation.paused);
    assert!(!simulation.debug);
    assert_eq!(simulation.mode, Mode::View);
    assert_eq!(simulation.step, 0);
    assert_eq!(simulation.arrived, 0);
    assert!(simulation.selection.is_none());
}

#[test]
fn a_simulation_may_start_empty() {
    let config = Config { paused: false, towers: 0, units: 0 };
    let simulation = Simulation::new(&config, path());
    assert_eq!(simulation.world.len(), 0);
    assert!(!simulation.paused);
}

#[test]
fn no_action_changes_nothing() {
    let mut simulation = bare(false);
    assert_eq!(simulation.handle(None), Reaction::Continue);
    assert_eq!(simulation.world.len(), 0);
    assert!(!simulation.paused);
    assert_eq!(simulation.step, 0);
}

#[test]
fn toggle_pause_pauses_and_resumes() {
    let mut simulation = bare(false);
    assert_eq!(simulation.handle(Some(Action::TogglePause)), Reaction::Continue);
    assert!(simulation.paused);
    assert_eq!(simulation.handle(Some(Action::TogglePause)), Reaction::Continue);
    assert!(!simulation.paused);
}

#[test]
fn spawn_sends_a_wave() {
    let mut simulation = bare(false);
    assert_eq!(simulation.handle(Some(Action::Spawn)), Reaction::Continue);
    assert_eq!(system_units_left(&mut simulation.world), 3);
    assert_eq!(simulation.handle(Some(Action::Spawn)), Reaction::Continue);
    assert_eq!(system_units_left(&mut simulation.world), 6);
    assert_eq!(count_towers(&simulation.world), 0);
}

#[test]
fn build_and_remove_a_tower() {
    let mut simulation = bare(false);
    let at = Position { x: 30, y: 40 };
    assert_eq!(simulation.handle(Some(Action::Build(at))), Reaction::Continue);
    assert_eq!(count_towers(&simulation.world), 1);
    let beside = Position { x: 33, y: 44 };
    assert_eq!(simulation.handle(Some(Action::Remove(Position { x: 0, y: 0 }))), Reaction::Continue);
    assert_eq!(count_towers(&simulation.world), 1);
    assert_eq!(simulation.handle(Some(Action::Remove(beside))), Reaction::Continue);
    assert_eq!(count_towers(&simulation.world), 0);
}

#[test]
fn select_keeps_what_lies_under_the_point() {
    let mut simulation = bare(false);
    let at = Position { x: 30, y: 40 };
    simulation.handle(Some(Action::Build(at)));
    assert_eq!(simulation.handle(Some(Action::View(at))), Reaction::Continue);
    let selection = simulation.selection.as_ref().unwrap();
    assert_eq!(selection.position, Some(at));
    assert_eq!(selection.score, Some(Score(0)));
    assert_eq!(simulation.handle(Some(Action::TogglePause)), Reaction::Continue);
    assert!(simulation.selection.is_some());
    simulation.handle(Some(Action::View(Position { x: -30, y: -40 })));
    assert!(simulation.selection.is_none());
}

#[test]
fn print_and_quit_are_left_to_the_caller() {
    let mut simulation = bare(false);
    assert_eq!(simulation.handle(Some(Action::PrintState)), Reaction::Print);
    assert_eq!(simulation.handle(Some(Action::Quit)), Reaction::Quit);
    assert_eq!(simulation.world.len(), 0);
    assert!(!simulation.paused);
}

#[test]
fn a_paused_simulation_stands_still() {
    let mut simulation = bare(true);
    let unit = simulation.world.spawn((
        Position { x: 0, y: 50 },
        Speed(10),
        Health { value: 0, max: 30 },
        Waypoint { index: 1 },
    ));
    simulation.run_step();
    assert_eq!(simulation.step, 0);
    assert_eq!(simulation.arrived, 0);
    assert!(simulation.world.contains(unit));
    assert_eq!(
        *simulation.world.get::<Position>(unit).unwrap(),
        Position { x: 0, y: 50 }
    );
}

#[test]
fn a_step_moves_removes_and_fires_in_that_order() {
    let mut simulation = bare(false);
    // It arrives with this step, and is removed before the tower could fire.
    let arriving = simulation.world.spawn((
        Position { x: 90, y: 0 },
        Speed(10),
        Health { value: 30, max: 30 },
        Waypoint { index: 1 },
    ));
    // It was killed in the step before, and is removed before it could move on.
    let fallen = simulation.world.spawn((
        Position { x: 50, y: 0 },
        Speed(10),
        Health { value: 0, max: 30 },
        Waypoint { index: 1 },
    ));
    // It moves into the range of the tower and is hit where it stands then.
    let walker = simulation.world.spawn((
        Position { x: 70, y: 0 },
        Speed(10),
        Health { value: 30, max: 30 },
        Waypoint { index: 1 },
    ));
    let tower = simulation.world.spawn((
        Position { x: 100, y: 0 },
        Damage(30),
        Range { squared: 400 },
        Score(0),
        Target { position: None },
    ));
    simulation.run_step();
    assert_eq!(simulation.step, 1);
    assert_eq!(simulation.arrived, 1);
    assert!(!simulation.world.contains(arriving));
    assert!(!simulation.world.contains(fallen));
    assert_eq!(
        *simulation.world.get::<Position>(walker).unwrap(),
        Position { x: 80, y: 0 }
    );
    assert_eq!(
        *simulation.world.get::<Health>(walker).unwrap(),
        Health { value: 0, max: 30 }
    );
    assert_eq!(*simulation.world.get::<Score>(tower).unwrap(), Score(1));
    assert_eq!(
        simulation.world.get::<Target>(tower).unwrap().position,
        Some(Position { x: 80, y: 0 })
    );
    // The unit killed in this step is removed in the next.
    assert!(simulation.world.contains(walker));
    simulation.run_step();
    assert_eq!(simulation.step, 2);
    assert_eq!(simulation.arrived, 1);
    assert!(!simulation.world.contains(walker));
    assert_eq!(simulation.world.get::<Target>(tower).unwrap().position, None);
    assert_eq!(*simulation.world.get::<Score>(tower).unwrap(), Score(1));
}

#[test]
fn a_unit_arrives_in_the_tenth_step() {
    let mut simulation = bare(false);
    let unit = simulation.world.spawn((
        Position { x: 0, y: 50 },
        Speed(10),
        Health { value: 30, max: 30 },
        Waypoint { index: 1 },
    ));
    for step in 1..=9 {
        simulation.run_step();
        assert_eq!(simulation.step, step);
        assert_eq!(simulation.arrived, 0);
        assert!(simulation.world.contains(unit));
    }
    simulation.run_step();
    assert_eq!(simulation.step, 10);
    assert_eq!(simulation.arrived, 1);
    assert!(!simulation.world.contains(unit));
}

#[test]
fn a_started_simulation_runs() {
    let config = Config { paused: false, towers: 5, units: 20 };
    let mut simulation = Simulation::new(&config, path());
    for _ in 0..2000 {
        simulation.run_step();
    }
    assert_eq!(simulation.step, 2000);
    let left = system_units_left(&mut simulation.world);
    let kills = system_score(&mut simulation.world);
    // Every unit either arrived, or was killed and removed, or is still there.
    assert!(simulation.arrived + kills + left >= 20);
    assert_eq!(count_towers(&simulation.world), 5);
}

#[test]
fn the_mode_and_the_overlay_change_on_request() {
    let mut simulation = bare(false);
    assert_eq!(simulation.handle(Some(Action::ChangeMode(Mode::Build))), Reaction::Continue);
    assert_eq!(simulation.mode, Mode::Build);
    assert_eq!(simulation.handle(Some(Action::ChangeMode(Mode::Remove))), Reaction::Continue);
    assert_eq!(simulation.mode, Mode::Remove);
    assert_eq!(simulation.handle(Some(Action::ToggleDebug)), Reaction::Continue);
    assert!(simulation.debug);
    assert_eq!(simulation.mode, Mode::Remove);
    assert_eq!(simulation.handle(Some(Action::ToggleDebug)), Reaction::Continue);
    assert!(!simulation.debug);
    assert!(!simulation.paused);
    assert_eq!(simulation.world.len(), 0);
}

#[test]
fn try_step_steps_a_sound_world() {
    let mut simulation = bare(false);
    let unit = simulation.world.spawn((
        Position { x: 0, y: 50 },
        Speed(10),
        Health { value: 30, max: 30 },
        Waypoint { index: 1 },
    ));
    assert!(simulation.try_step());
    assert_eq!(simulation.step, 1);
    assert_eq!(
        *simulation.world.get::<Position>(unit).unwrap(),
        Position { x: 10, y: 40 }
    );
}

#[test]
fn try_step_on_a_paused_simulation_changes_nothing() {
    let mut simulation = bare(true);
    let unit = simulation.world.spawn((
        Position { x: 0, y: 50 },
        Speed(-10),
        Health { value: 30, max: 30 },
        Waypoint { index: 1 },
    ));
    assert!(simulation.try_step());
    assert_eq!(simulation.step, 0);
    assert_eq!(
        *simulation.world.get::<Position>(unit).unwrap(),
        Position { x: 0, y: 50 }
    );
}

#[test]
fn try_step_refuses_a_negative_speed() {
    let mut simulation = bare(false);
    let unit = simulation.world.spawn((
        Position { x: 0, y: 50 },
        Speed(-1),
        Health { value: 30, max: 30 },
        Waypoint { index: 1 },
    ));
    assert!(!simulation.try_step());
    assert_eq!(simulation.step, 0);
    assert_eq!(simulation.arrived, 0);
    assert_eq!(
        *simulation.world.get::<Position>(unit).unwrap(),
        Position { x: 0, y: 50 }
    );
}

#[test]
fn try_step_refuses_a_negative_damage_and_a_full_score() {
    let mut simulation = bare(false);
    let healer = simulation.world.spawn((
        Position { x: 0, y: 0 },
        Damage(-1),
        Range { squared: 100 },
        Score(0),
        Target { position: None },
    ));
    assert!(!simulation.try_step());
    simulation.world.despawn(healer).unwrap();
    assert!(simulation.try_step());
    assert_eq!(simulation.step, 1);
    simulation.world.spawn((
        Position { x: 0, y: 0 },
        Damage(1),
        Range { squared: 100 },
        Score(i32::MAX),
        Target { position: None },
    ));
    assert!(!simulation.try_step());
    assert_eq!(simulation.step, 1);
}

#[test]
fn try_step_refuses_when_a_counter_is_full() {
    let mut simulation = bare(false);
    simulation.step = usize::MAX;
    assert!(!simulation.try_step());
    assert_eq!(simulation.step, usize::MAX);
    simulation.step = 0;
    simulation.arrived = usize::MAX;
    assert!(simulation.try_step());
    assert_eq!(simulation.step, 1);
    simulation.world.spawn((Health { value: 1, max: 1 },));
    assert!(!simulation.try_step());
    assert_eq!(simulation.step, 1);
    assert_eq!(simulation.arrived, usize::MAX);
}
