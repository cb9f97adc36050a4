use rs2048::game::GameEvent;
use rs2048::input::{game_step, menu_step, GameAction, Input, Key, MainMenuOption, MenuAction};

#[test]
fn arrows_walk_the_menu_in_a_circle() {
    let up = Input::Press(Key::Up);
    let down = Input::Press(Key::Down);
    assert_eq!(
        menu_step(MainMenuOption::NewGame, up),
        (MainMenuOption::Quit, MenuAction::Wait)
    );
    assert_eq!(
        menu_step(MainMenuOption::LoadGame, up),
        (MainMenuOption::NewGame, MenuAction::Wait)
    );
    assert_eq!(
        menu_step(MainMenuOption::Quit, up),
        (MainMenuOption::LoadGame, MenuAction::Wait)
    );
    assert_eq!(
        menu_step(MainMenuOption::NewGame, down),
        (MainMenuOption::LoadGame, MenuAction::Wait)
    );
    assert_eq!(
        menu_step(MainMenuOption::LoadGame, down),
        (MainMenuOption::Quit, MenuAction::Wait)
    );
    assert_eq!(
        menu_step(MainMenuOption::Quit, down),
        (MainMenuOption::NewGame, MenuAction::Wait)
    );
}

#[test]
fn enter_carries_out_the_selected_entry() {
    let enter = Input::Press(Key::Enter);
    assert_eq!(
        menu_step(MainMenuOption::NewGame, enter),
        (MainMenuOption::NewGame, MenuAction::StartGame)
    );
    assert_eq!(
        menu_step(MainMenuOption::LoadGame, enter),
        (MainMenuOption::LoadGame, MenuAction::LoadGame)
    );
    assert_eq!(
        menu_step(MainMenuOption::Quit, enter),
        (MainMenuOption::Quit, MenuAction::Quit)
    );
}

#[test]
fn other_input_leaves_the_menu_as_it_is() {
    for selected in [
        MainMenuOption::NewGame,
        MainMenuOption::LoadGame,
        MainMenuOption::Quit,
    ] {
        for input in [
            Input::Press(Key::Left),
            Input::Press(Key::Right),
            Input::Press(Key::Char('q')),
            Input::Press(Key::Other),
            Input::Other,
        ] {
            assert_eq!(menu_step(selected, input), (selected, MenuAction::Wait));
        }
        assert_eq!(
            menu_step(selected, Input::Resize),
            (selected, MenuAction::Clear)
        );
    }
}

#[test]
fn arrows_swipe_in_a_running_game() {
    assert!(matches!(
        game_step(Input::Press(Key::Up)),
        GameAction::Apply(GameEvent::SwipeUp)
    ));
    assert!(matches!(
        game_step(Input::Press(Key::Down)),
        GameAction::Apply(GameEvent::SwipeDown)
    ));
    assert!(matches!(
        game_step(Input::Press(Key::Left)),
        GameAction::Apply(GameEvent::SwipeLeft)
    ));
    assert!(matches!(
        game_step(Input::Press(Key::Right)),
        GameAction::Apply(GameEvent::SwipeRight)
    ));
}

#[test]
fn letters_restart_and_quit() {
    assert!(matches!(
        game_step(Input::Press(Key::Char('r'))),
        GameAction::Apply(GameEvent::NewGame)
    ));
    assert!(matches!(
        game_step(Input::Press(Key::Char('q'))),
        GameAction::Quit
    ));
    assert!(matches!(
        game_step(Input::Press(Key::Char('R'))),
        GameAction::Wait
    ));
    assert!(matches!(
        game_step(Input::Press(Key::Char('x'))),
        GameAction::Wait
    ));
    assert!(matches!(
        game_step(Input::Press(Key::Enter)),
        GameAction::Wait
    ));
    assert!(matches!(
        game_step(Input::Press(Key::Other)),
        GameAction::Wait
    ));
    assert!(matches!(game_step(Input::Resize), GameAction::Redraw));
    assert!(matches!(game_step(Input::Other), GameAction::Wait));
}
