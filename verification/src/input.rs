//! What the keys do: the choices of the main menu and the controls of a running game.
//!
//! Reading the terminal is left to the caller, who hands over what it read as an
//! `Input` and carries out the action that comes back.

use vstd::prelude::*;
use crate::game::GameEvent;

verus! {

/// A key, as far as the game tells keys apart.
#[derive(Debug, Clone, Copy, PartialEq, Eq)]
pub enum Key {
    Up,
    Down,
    Left,
    Right,
    Enter,
    Char(char),
    Other,
}

/// What the terminal reported.
#[derive(Debug, Clone, Copy, PartialEq, Eq)]
pub enum Input {
    /// A key went down.
    Press(Key),
    /// The window changed its size.
    Resize,
    /// Anything else: a key released or repeated, the mouse, a paste.
    Other,
}

/// The entries of the main menu, from top to bottom.
#[derive(Debug, Clone, Copy, PartialEq, Eq, Structural)]
pub enum MainMenuOption {
    NewGame,
    LoadGame,
    Quit,
}

/// What the main menu does after an input.
#[derive(Debug, Clone, Copy, PartialEq, Eq)]
pub enum MenuAction {
    /// Pause briefly, then draw the menu again.
    Wait,
    /// Clear the screen and draw the menu again at once.
    Clear,
    /// Clear the screen and run a new game; afterwards pause and draw the menu again.
    StartGame,
    /// Load a saved game, which nothing can do yet.
    LoadGame,
    /// Leave the menu.
    Quit,
}

/// What a running game does after an input.
pub enum GameAction {
    /// Pause briefly, then draw the board again.
    Wait,
    /// Draw everything again, then pause.
    Redraw,
    /// Hand the event to the game, then pause.
    Apply(GameEvent),
    /// Clear the screen and leave the game.
    Quit,
}

/// The entry above `option`; above the first comes the last.
pub open spec fn option_above(option: MainMenuOption) -> MainMenuOption {
    match option {
        MainMenuOption::NewGame => MainMenuOption::Quit,
        MainMenuOption::LoadGame => MainMenuOption::NewGame,
        MainMenuOption::Quit => MainMenuOption::LoadGame,
    }
}

/// The entry below `option`; below the last comes the first.
pub open spec fn option_below(option: MainMenuOption) -> MainMenuOption {
    match option {
        MainMenuOption::NewGame => MainMenuOption::LoadGame,
        MainMenuOption::LoadGame => MainMenuOption::Quit,
        MainMenuOption::Quit => MainMenuOption::NewGame,
    }
}

/// The entry that is selected after `input`: the arrow keys move the selection.
pub open spec fn selected_after(selected: MainMenuOption, input: Input) -> MainMenuOption {
    match input {
        Input::Press(Key::Up) => option_above(selected),
        Input::Press(Key::Down) => option_below(selected),
        _ => selected,
    }
}

/// What the menu does after `input`: Enter carries out the selected entry, a new
/// window size clears the screen.
pub open spec fn menu_action_after(selected: MainMenuOption, input: Input) -> MenuAction {
    match input {
        Input::Press(Key::Enter) => match selected {
            MainMenuOption::NewGame => MenuAction::StartGame,
            MainMenuOption::LoadGame => MenuAction::LoadGame,
            MainMenuOption::Quit => MenuAction::Quit,
        },
        Input::Resize => MenuAction::Clear,
        _ => MenuAction::Wait,
    }
}

/// One step of the main menu: the entry selected after `input`, and what to do next.
pub fn menu_step(selected: MainMenuOption, input: Input) -> (next: (MainMenuOption, MenuAction))
    ensures
        next.0 == selected_after(selected, input),
        next.1 == menu_action_after(selected, input),
{
    match input {
        Input::Press(Key::Up) => {
            let above = match selected {
                MainMenuOption::NewGame => MainMenuOption::Quit,
                MainMenuOption::LoadGame => MainMenuOption::NewGame,
                MainMenuOption::Quit => MainMenuOption::LoadGame,
            };
            (above, MenuAction::Wait)
        },
        Input::Press(Key::Down) => {
            let below = match selected {
                MainMenuOption::NewGame => MainMenuOption::LoadGame,
                MainMenuOption::LoadGame => MainMenuOption::Quit,
                MainMenuOption::Quit => MainMenuOption::NewGame,
            };
            (below, MenuAction::Wait)
        },
        Input::Press(Key::Enter) => {
            match selected {
                MainMenuOption::NewGame => (selected, MenuAction::StartGame),
                MainMenuOption::LoadGame => (selected, MenuAction::LoadGame),
                MainMenuOption::Quit => (selected, MenuAction::Quit),
            }
        },
        Input::Press(_) => (selected, MenuAction::Wait),
        Input::Resize => (selected, MenuAction::Clear),
        Input::Other => (selected, MenuAction::Wait),
    }
}

/// What a running game does after `input`: the arrow keys swipe, `r` starts over, `q`
/// leaves.
pub open spec fn game_action_after(input: Input) -> GameAction {
    match input {
        Input::Press(Key::Up) => GameAction::Apply(GameEvent::SwipeUp),
        Input::Press(Key::Left) => GameAction::Apply(GameEvent::SwipeLeft),
        Input::Press(Key::Right) => GameAction::Apply(GameEvent::SwipeRight),
        Input::Press(Key::Down) => GameAction::Apply(GameEvent::SwipeDown),
        Input::Press(Key::Char(c)) => if c == 'q' {
            GameAction::Quit
        } else if c == 'r' {
            GameAction::Apply(GameEvent::NewGame)
        } else {
            GameAction::Wait
        },
        Input::Press(_) => GameAction::Wait,
        Input::Resize => GameAction::Redraw,
        Input::Other => GameAction::Wait,
    }
}

/// One step of a running game: what to do after `input`.
pub fn game_step(input: Input) -> (action: GameAction)
    ensures
        action == game_action_after(input),
{
    match input {
        Input::Press(Key::Up) => GameAction::Apply(GameEvent::SwipeUp),
        Input::Press(Key::Left) => GameAction::Apply(GameEvent::SwipeLeft),
        Input::Press(Key::Right) => GameAction::Apply(GameEvent::SwipeRight),
        Input::Press(Key::Down) => GameAction::Apply(GameEvent::SwipeDown),
        Input::Press(Key::Char('q')) => GameAction::Quit,
        Input::Press(Key::Char('r')) => GameAction::Apply(GameEvent::NewGame),
        Input::Press(_) => GameAction::Wait,
        Input::Resize => GameAction::Redraw,
        Input::Other => GameAction::Wait,
    }
}

} // verus!
