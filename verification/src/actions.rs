//! What the player can ask for, and which of several requests made at once is
//! obeyed.

use vstd::prelude::*;
use crate::components::Position;

verus! {

/// What a click does.
#[derive(Clone, Copy, Debug, PartialEq, Eq, Structural)]
pub enum Mode {
    /// It builds a tower.
    Build,
    /// It removes a tower.
    Remove,
    /// It selects an entity.
    View,
}

/// What the player asks for.
#[derive(Clone, Copy, Debug, PartialEq, Eq, Structural)]
pub enum Action {
    /// Build a tower at a point of the world.
    Build(Position),
    /// Let clicks do something else from now on.
    ChangeMode(Mode),
    /// Select the entity under a point of the world.
    View(Position),
    /// Remove the tower under a point of the world.
    Remove(Position),
    /// Show the state of every entity.
    PrintState,
    /// Leave.
    Quit,
    /// Send another wave of units.
    Spawn,
    /// Stop the simulation, or let it run again.
    TogglePause,
    /// Show the overlay, or hide it.
    ToggleDebug,
}

/// The requests made since the last step: the keys that were pressed, by
/// what they ask for, and the point of the world that was clicked on, if any.
#[derive(Clone, Copy, Debug, PartialEq, Eq, Structural)]
pub struct Pressed {
    pub pause: bool,
    pub remove_mode: bool,
    pub build_mode: bool,
    pub print: bool,
    pub quit: bool,
    pub spawn: bool,
    pub view_mode: bool,
    pub debug: bool,
    pub click: Option<Position>,
}

/// What a click at `at` asks for in `mode`.
pub open spec fn clicked(mode: Mode, at: Position) -> Action {
    match mode {
        Mode::Build => Action::Build(at),
        Mode::Remove => Action::Remove(at),
        Mode::View => Action::View(at),
    }
}

/// The one request that is obeyed: the first that was made, in the order
/// pause, remove mode, build mode, print, quit, spawn, view mode, overlay,
/// click. Without a request there is none.
pub open spec fn chosen(pressed: Pressed, mode: Mode) -> Option<Action> {
    if pressed.pause {
        Some(Action::TogglePause)
    } else if pressed.remove_mode {
        Some(Action::ChangeMode(Mode::Remove))
    } else if pressed.build_mode {
        Some(Action::ChangeMode(Mode::Build))
    } else if pressed.print {
        Some(Action::PrintState)
    } else if pressed.quit {
        Some(Action::Quit)
    } else if pressed.spawn {
        Some(Action::Spawn)
    } else if pressed.view_mode {
        Some(Action::ChangeMode(Mode::View))
    } else if pressed.debug {
        Some(Action::ToggleDebug)
    } else {
        match pressed.click {
            Some(at) => Some(clicked(mode, at)),
            None => None,
        }
    }
}

/// Picks the one request that is obeyed: see [`chosen`].
pub fn choose_action(pressed: &Pressed, mode: Mode) -> (action: Option<Action>)
    ensures
        action == chosen(*pressed, mode),
{
    if pressed.pause {
        Some(Action::TogglePause)
    } else if pressed.remove_mode {
        Some(Action::ChangeMode(Mode::Remove))
    } else if pressed.build_mode {
        Some(Action::ChangeMode(Mode::Build))
    } else if pressed.print {
        Some(Action::PrintState)
    } else if pressed.quit {
        Some(Action::Quit)
    } else if pressed.spawn {
        Some(Action::Spawn)
    } else if pressed.view_mode {
        Some(Action::ChangeMode(Mode::View))
    } else if pressed.debug {
        Some(Action::ToggleDebug)
    } else {
        match pressed.click {
            Some(at) => Some(
                match mode {
                    Mode::Build => Action::Build(at),
                    Mode::Remove => Action::Remove(at),
                    Mode::View => Action::View(at),
                },
            ),
            None => None,
        }
    }
}

} // verus!
