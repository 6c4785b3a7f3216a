use minesweeper::board::Tile;
use minesweeper::draw::DrawCommand;
use minesweeper::draw::Message;
use minesweeper::draw::Sprite;
use minesweeper::grid::Grid;
use minesweeper::mouse::Mouse;
use minesweeper::statemachine::GameOverState;
use minesweeper::statemachine::GameWonState;
use minesweeper::statemachine::InGameState;
use minesweeper::statemachine::InitialState;
use minesweeper::statemachine::Machine;
use minesweeper::statemachine::MainMenuState;
use minesweeper::statemachine::PauseState;
use minesweeper::statemachine::PreGameState;
use minesweeper::statemachine::State;
use minesweeper::statemachine::Transition;

fn idle() -> Mouse {
    Mouse::new(0, 0, false, false)
}

fn left_at(x: i32, y: i32) -> Mouse {
    Mouse::new(x, y, true, false)
}

fn right_at(x: i32, y: i32) -> Mouse {
    Mouse::new(x, y, false, true)
}

/// A 4x4 field at the upper left corner with one mine at (3, 3).
fn small_game() -> InGameState {
    InGameState::new(Grid::from_random_seed(0, 4, 4, (0, 0)), vec![(3, 3)])
}

fn step(game: InGameState, mouse: Mouse) -> InGameState {
    match game.update(&mouse) {
        Transition::Replace(State::InGame(next)) => next,
        other => panic!("unexpected transition {:?}", other),
    }
}

fn in_game(machine: &Machine, depth: usize) -> &InGameState {
    match machine.state(depth) {
        State::InGame(game) => game,
        other => panic!("unexpected screen {}", other.name()),
    }
}

#[test]
fn state_names() {
    assert_eq!(State::Initial(InitialState::new()).name(), "initial");
    assert_eq!(State::PreGame(PreGameState::new(0)).name(), "pre_game");
    assert_eq!(State::InGame(small_game()).name(), "in_game");
    assert_eq!(State::GameOver(GameOverState::new()).name(), "game_over");
    assert_eq!(State::GameWon(GameWonState::new()).name(), "game_won");
    assert_eq!(State::Pause(PauseState::new()).name(), "pause");
    assert_eq!(State::MainMenu(MainMenuState::new()).name(), "main_menu");
}

#[test]
fn new_machine_holds_the_initial_screen() {
    let machine = Machine::new();
    assert_eq!(machine.depth(), 1);
    assert_eq!(machine.top().unwrap().name(), "initial");
    assert_eq!(machine.draw(0x1234), vec![DrawCommand::Colors(0x1234)]);
}

#[test]
fn initial_screen_gives_way_to_the_main_menu() {
    let mut machine = Machine::new();
    machine.update(&idle());
    assert_eq!(machine.depth(), 1);
    match machine.top().unwrap() {
        State::MainMenu(menu) => assert_eq!(menu.frames, 0),
        other => panic!("unexpected screen {}", other.name()),
    }
}

#[test]
fn main_menu_counts_frames_until_a_click() {
    let mut machine = Machine::with_state(State::MainMenu(MainMenuState::new()));
    machine.update(&idle());
    machine.update(&right_at(5, 5));
    machine.update(&idle());
    match machine.top().unwrap() {
        State::MainMenu(menu) => assert_eq!(menu.frames, 3),
        other => panic!("unexpected screen {}", other.name()),
    }
    machine.update(&left_at(5, 5));
    assert_eq!(machine.depth(), 1);
    match machine.top().unwrap() {
        State::PreGame(setup) => {
            assert_eq!(setup.map().seed(), 3);
            assert_eq!(setup.map().width(), 16);
            assert_eq!(setup.map().height(), 14);
            assert_eq!(setup.map().origin(), (0, 20));
            assert_eq!(setup.map().count_uncovered_tiles(), 0);
        },
        other => panic!("unexpected screen {}", other.name()),
    }
}

#[test]
fn main_menu_frame_count_wraps() {
    let menu = MainMenuState { frames: u64::MAX };
    match menu.update(&idle()) {
        Transition::Replace(State::MainMenu(next)) => assert_eq!(next.frames, 0),
        other => panic!("unexpected transition {:?}", other),
    }
}

#[test]
fn pre_game_waits_for_a_click_on_a_tile() {
    let mut machine = Machine::with_state(State::PreGame(PreGameState::new(9)));
    machine.update(&idle());
    machine.update(&right_at(50, 50));
    machine.update(&left_at(50, 10));
    machine.update(&left_at(-4, 50));
    assert_eq!(machine.top().unwrap().name(), "pre_game");
    match machine.top().unwrap() {
        State::PreGame(setup) => {
            assert_eq!(setup.map().count_uncovered_tiles(), 0);
            assert_eq!(setup.map().count_flagged_tiles(), 0);
        },
        other => panic!("unexpected screen {}", other.name()),
    }
}

#[test]
fn first_click_starts_a_game_with_five_mines_elsewhere() {
    for seed in 0..50u64 {
        let mut machine = Machine::with_state(State::PreGame(PreGameState::new(seed)));
        machine.update(&left_at(75, 101));
        assert_eq!(machine.depth(), 1);
        let game = in_game(&machine, 0);
        let expected = Grid::from_random_seed(seed, 16, 14, (0, 20)).place_mines(5, (7, 8));
        assert_eq!(game.mines(), &expected);
        assert_eq!(game.mines().len(), 5);
        assert!(!game.mines().contains(&(7, 8)));
        assert!(!game.map().tile(7, 8).covered);
        assert!(!game.has_lost());
        // A first click that floods the whole field wins at once, and the
        // clock never starts.
        let ticks = if game.has_found_all_mines() { 0 } else { 1 };
        assert_eq!(game.timer().get(), ticks);
        assert_eq!(game.timer().is_running(), ticks == 1);
    }
}

#[test]
fn new_game_is_untouched() {
    let game = small_game();
    assert_eq!(game.map().count_uncovered_tiles(), 0);
    assert_eq!(game.mines(), &vec![(3, 3)]);
    assert_eq!(game.timer().get(), 0);
    assert!(!game.timer().is_running());
    assert!(!game.has_found_all_mines());
    assert!(!game.has_lost());
}

#[test]
fn timer_waits_for_the_first_reveal() {
    let mut game = small_game();
    for _ in 0..5 {
        game = step(game, idle());
    }
    game = step(game, right_at(5, 5));
    game = step(game, left_at(500, 5));
    assert_eq!(game.timer().get(), 0);
    assert!(!game.timer().is_running());
    assert_eq!(game.map().count_flagged_tiles(), 1);
}

#[test]
fn timer_counts_every_frame_of_an_active_game() {
    let mut game = InGameState::new(Grid::from_random_seed(0, 5, 1, (0, 0)), vec![(2, 0)]);
    game = step(game, left_at(15, 5));
    assert_eq!(game.timer().get(), 1);
    assert_eq!(game.map().count_uncovered_tiles(), 1);
    for _ in 0..9 {
        game = step(game, idle());
    }
    assert_eq!(game.timer().get(), 10);
    assert!(game.timer().is_running());
}

#[test]
fn one_frame_handles_a_left_and_a_right_click() {
    let game = InGameState::new(Grid::from_random_seed(0, 5, 1, (0, 0)), vec![(2, 0)]);
    let game = step(game, Mouse::new(45, 5, true, true));
    assert_eq!(game.map().tile(4, 0), Tile { covered: false, flagged: false });
    assert_eq!(game.map().count_flagged_tiles(), 0);
    let game = step(game, Mouse::new(5, 5, false, true));
    let game = step(game, Mouse::new(5, 5, true, true));
    assert_eq!(game.map().tile(0, 0), Tile { covered: true, flagged: false });
    assert_eq!(game.map().count_uncovered_tiles(), 2);
}

#[test]
fn reveal_of_zero_tile_wins_the_small_game() {
    let game = step(small_game(), left_at(0, 0));
    assert_eq!(game.map().count_uncovered_tiles(), 15);
    assert!(game.has_found_all_mines());
    assert!(!game.has_lost());
    assert_eq!(game.map().tile(3, 3), Tile { covered: true, flagged: false });
    assert_eq!(game.map().sprite(2, 2, game.mines()), Sprite::Digit(1));
    assert_eq!(game.map().sprite(3, 2, game.mines()), Sprite::Digit(1));
    assert_eq!(game.map().sprite(2, 3, game.mines()), Sprite::Digit(1));
    assert_eq!(game.map().sprite(1, 1, game.mines()), Sprite::Digit(0));
    assert_eq!(game.timer().get(), 0);
    assert!(!game.timer().is_running());
}

#[test]
fn reveal_of_mine_loses_the_small_game() {
    let game = step(small_game(), left_at(35, 35));
    assert!(game.has_lost());
    assert!(!game.has_found_all_mines());
    assert_eq!(game.map().count_uncovered_tiles(), 1);
    assert!(!game.map().tile(3, 3).covered);
    assert_eq!(game.timer().get(), 0);
    assert!(!game.timer().is_running());
}

#[test]
fn flagged_tile_withstands_a_left_click() {
    let game = step(small_game(), right_at(25, 25));
    assert_eq!(game.map().tile(2, 2), Tile { covered: true, flagged: true });
    let game = step(game, left_at(25, 25));
    assert_eq!(game.map().tile(2, 2), Tile { covered: true, flagged: true });
    assert_eq!(game.map().count_uncovered_tiles(), 0);
    assert_eq!(game.map().count_flagged_tiles(), 1);
    assert_eq!(game.timer().get(), 0);
}

#[test]
fn won_game_is_frozen() {
    let mut game = InGameState::new(Grid::from_random_seed(0, 5, 1, (0, 0)), vec![(2, 0)]);
    game = step(game, left_at(15, 5));
    game = step(game, idle());
    game = step(game, left_at(5, 5));
    assert_eq!(game.timer().get(), 3);
    assert!(game.timer().is_running());
    assert!(!game.has_found_all_mines());
    game = step(game, left_at(45, 5));
    assert!(game.has_found_all_mines());
    assert!(!game.has_lost());
    assert_eq!(game.map().count_uncovered_tiles(), 4);
    assert_eq!(game.timer().get(), 3);
    assert!(!game.timer().is_running());
    game = step(game, idle());
    game = step(game, left_at(25, 5));
    game = step(game, right_at(25, 5));
    assert_eq!(game.timer().get(), 3);
    assert!(!game.timer().is_running());
    assert!(!game.has_lost());
    assert_eq!(game.map().tile(2, 0), Tile { covered: true, flagged: false });
}

#[test]
fn clock_does_not_count_the_frame_of_a_winning_first_click() {
    let grid = Grid::from_random_seed(0, 2, 1, (0, 0));
    let game = step(InGameState::new(grid, vec![(1, 0)]), left_at(5, 5));
    assert!(game.has_found_all_mines());
    assert!(!game.has_lost());
    assert_eq!(game.timer().get(), 0);
    assert!(!game.timer().is_running());
}

#[test]
fn clock_does_not_count_the_frame_of_the_loss() {
    let grid = Grid::from_random_seed(0, 3, 1, (0, 0));
    let game = step(InGameState::new(grid, vec![(1, 0)]), left_at(15, 5));
    assert!(game.has_lost());
    assert_eq!(game.timer().get(), 0);
    assert!(!game.timer().is_running());
}

#[test]
fn lost_game_is_frozen() {
    let mut game = InGameState::new(Grid::from_random_seed(0, 5, 1, (0, 0)), vec![(2, 0)]);
    game = step(game, left_at(5, 5));
    game = step(game, idle());
    game = step(game, left_at(25, 5));
    assert!(game.has_lost());
    assert_eq!(game.timer().get(), 2);
    assert!(!game.timer().is_running());
    game = step(game, left_at(45, 5));
    game = step(game, right_at(35, 5));
    assert_eq!(game.timer().get(), 2);
    assert_eq!(game.map().count_uncovered_tiles(), 3);
    assert_eq!(game.map().count_flagged_tiles(), 0);
}

#[test]
fn win_is_uncovered_count_against_mines_whatever_the_flags() {
    let grid = Grid::from_random_seed(0, 3, 1, (0, 0));
    let mut game = InGameState::new(grid, vec![(0, 0), (2, 0)]);
    assert!(!game.has_found_all_mines());
    game = step(game, right_at(5, 5));
    assert!(!game.has_found_all_mines());
    game = step(game, left_at(15, 5));
    assert_eq!(game.map().count_uncovered_tiles(), 1);
    assert!(game.has_found_all_mines());
    assert_eq!(game.map().count_flagged_tiles(), 1);
    let grid = Grid::from_random_seed(0, 3, 1, (0, 0));
    let unflagged = step(InGameState::new(grid, vec![(0, 0), (2, 0)]), left_at(15, 5));
    assert!(unflagged.has_found_all_mines());
    assert_eq!(unflagged.map().count_flagged_tiles(), 0);
}

#[test]
fn game_without_tiles_to_find_is_won_at_once() {
    let grid = Grid::from_random_seed(0, 2, 1, (0, 0));
    let game = InGameState::new(grid, vec![(0, 0), (1, 0)]);
    assert!(game.has_found_all_mines());
    let game = step(game, left_at(5, 5));
    assert_eq!(game.map().count_uncovered_tiles(), 0);
    assert!(!game.has_lost());
}

#[test]
fn in_game_draws_field_counters_and_status() {
    let grid = Grid::from_random_seed(0, 3, 1, (0, 20));
    let game = InGameState::new(grid, vec![(1, 0), (2, 0)]);
    let fresh = vec![
        DrawCommand::Tile { sprite: Sprite::Covered, x: 0, y: 20 },
        DrawCommand::Tile { sprite: Sprite::Covered, x: 10, y: 20 },
        DrawCommand::Tile { sprite: Sprite::Covered, x: 20, y: 20 },
        DrawCommand::Colors(0x03),
        DrawCommand::MinesLeft { count: 2, x: 96, y: 2 },
        DrawCommand::Elapsed { ticks: 0, x: 2, y: 2 },
        DrawCommand::Colors(0x4321),
    ];
    assert_eq!(game.draw(0x4321), fresh);
    let won = step(game.clone(), left_at(5, 25));
    let mut expected = vec![
        DrawCommand::Tile { sprite: Sprite::Digit(1), x: 0, y: 20 },
        DrawCommand::Tile { sprite: Sprite::Covered, x: 10, y: 20 },
        DrawCommand::Tile { sprite: Sprite::Covered, x: 20, y: 20 },
        DrawCommand::Colors(0x03),
        DrawCommand::MinesLeft { count: 2, x: 96, y: 2 },
        DrawCommand::Elapsed { ticks: 0, x: 2, y: 2 },
        DrawCommand::Banner { message: Message::GameWon, x: 2, y: 10 },
        DrawCommand::Colors(0x4321),
    ];
    assert_eq!(won.draw(0x4321), expected);
    let grid = Grid::from_random_seed(0, 3, 1, (0, 20));
    let game = InGameState::new(grid, vec![(1, 0)]);
    let lost = step(step(game, right_at(5, 25)), left_at(15, 25));
    expected = vec![
        DrawCommand::Tile { sprite: Sprite::Flag, x: 0, y: 20 },
        DrawCommand::Tile { sprite: Sprite::Mine, x: 10, y: 20 },
        DrawCommand::Tile { sprite: Sprite::Covered, x: 20, y: 20 },
        DrawCommand::Colors(0x03),
        DrawCommand::MinesLeft { count: 0, x: 96, y: 2 },
        DrawCommand::Elapsed { ticks: 0, x: 2, y: 2 },
        DrawCommand::Banner { message: Message::GameOver, x: 2, y: 10 },
        DrawCommand::Colors(0),
    ];
    assert_eq!(lost.draw(0), expected);
}

#[test]
fn in_game_shows_the_ticks_of_a_running_game() {
    let mut game = InGameState::new(Grid::from_random_seed(0, 5, 1, (0, 20)), vec![(2, 0)]);
    game = step(game, left_at(15, 25));
    game = step(game, idle());
    assert_eq!(game.draw(9)[7], DrawCommand::Elapsed { ticks: 2, x: 2, y: 2 });
    assert_eq!(game.draw(9).len(), 9);
}

#[test]
fn every_screen_ends_by_setting_the_colors_that_were_in_force() {
    let screens = vec![
        State::Initial(InitialState::new()),
        State::PreGame(PreGameState::new(1)),
        State::InGame(small_game()),
        State::InGame(step(small_game(), left_at(0, 0))),
        State::InGame(step(small_game(), left_at(35, 35))),
        State::GameOver(GameOverState::new()),
        State::GameWon(GameWonState::new()),
        State::Pause(PauseState::new()),
        State::MainMenu(MainMenuState::new()),
    ];
    for colors in [0u16, 0x03, 0x1234, u16::MAX] {
        for screen in &screens {
            let commands = screen.draw(colors);
            assert_eq!(commands.last(), Some(&DrawCommand::Colors(colors)), "{}", screen.name());
            let set_before = commands[..commands.len() - 1]
                .iter()
                .filter(|command| matches!(command, DrawCommand::Colors(_)))
                .count();
            let expected = if screen.name() == "in_game" { 1 } else { 0 };
            assert_eq!(set_before, expected, "{}", screen.name());
        }
    }
}

#[test]
fn win_goes_by_the_count_even_over_an_uncovered_mine() {
    let grid = Grid::from_random_seed(0, 2, 1, (0, 20));
    let game = step(InGameState::new(grid, vec![(1, 0)]), left_at(15, 25));
    assert!(game.has_lost());
    assert!(game.has_found_all_mines());
    let expected = vec![
        DrawCommand::Tile { sprite: Sprite::Covered, x: 0, y: 20 },
        DrawCommand::Tile { sprite: Sprite::Mine, x: 10, y: 20 },
        DrawCommand::Colors(0x03),
        DrawCommand::MinesLeft { count: 1, x: 96, y: 2 },
        DrawCommand::Elapsed { ticks: 0, x: 2, y: 2 },
        DrawCommand::Banner { message: Message::GameOver, x: 2, y: 10 },
        DrawCommand::Banner { message: Message::GameWon, x: 2, y: 10 },
        DrawCommand::Colors(0x12),
    ];
    assert_eq!(game.draw(0x12), expected);
}

#[test]
fn mines_left_does_not_fall_below_zero() {
    let grid = Grid::from_random_seed(0, 3, 1, (0, 0));
    let mut game = InGameState::new(grid, vec![(1, 0)]);
    game = step(game, right_at(5, 5));
    game = step(game, right_at(15, 5));
    game = step(game, right_at(25, 5));
    assert_eq!(game.draw(0)[4], DrawCommand::MinesLeft { count: 0, x: 96, y: 2 });
}

#[test]
fn pause_overlay_freezes_the_game_beneath() {
    let started = step(small_game(), left_at(25, 25));
    assert_eq!(started.timer().get(), 1);
    let mut machine = Machine::with_state(State::InGame(started));
    machine.update(&idle());
    assert_eq!(in_game(&machine, 0).timer().get(), 2);

    machine.push(State::Pause(PauseState::new()));
    assert_eq!(machine.depth(), 2);
    assert_eq!(machine.top().unwrap().name(), "pause");
    machine.update(&idle());
    machine.update(&right_at(5, 5));
    assert_eq!(machine.depth(), 2);
    assert_eq!(machine.top().unwrap().name(), "pause");
    let paused = in_game(&machine, 0);
    assert_eq!(paused.timer().get(), 2);
    assert_eq!(paused.map().count_uncovered_tiles(), 1);
    assert_eq!(paused.map().count_flagged_tiles(), 0);

    machine.update(&left_at(5, 5));
    assert_eq!(machine.depth(), 1);
    assert_eq!(machine.top().unwrap().name(), "in_game");
    let resumed = in_game(&machine, 0);
    assert_eq!(resumed.timer().get(), 2);
    assert_eq!(resumed.map().count_uncovered_tiles(), 1);

    machine.update(&idle());
    assert_eq!(in_game(&machine, 0).timer().get(), 3);
}

#[test]
fn apply_replace_puts_one_screen_on_the_stack() {
    let mut machine = Machine::new();
    machine.apply(Transition::Replace(State::Pause(PauseState::new())));
    assert_eq!(machine.depth(), 2);
    assert_eq!(machine.state(0).name(), "initial");
    assert_eq!(machine.state(1).name(), "pause");
}

#[test]
fn apply_push_puts_the_old_screen_beneath_the_new() {
    let mut machine = Machine::new();
    machine.apply(Transition::Push(State::InGame(small_game()), State::Pause(PauseState::new())));
    assert_eq!(machine.depth(), 3);
    assert_eq!(machine.state(0).name(), "initial");
    assert_eq!(machine.state(1).name(), "in_game");
    assert_eq!(machine.state(2).name(), "pause");
    assert_eq!(machine.top().unwrap().name(), "pause");
}

#[test]
fn apply_pop_leaves_the_stack_as_it_is() {
    let mut machine = Machine::new();
    machine.apply(Transition::Pop);
    assert_eq!(machine.depth(), 1);
    assert_eq!(machine.top().unwrap().name(), "initial");
}

#[test]
fn pause_pops_back_to_the_screen_beneath() {
    let mut machine = Machine::with_state(State::MainMenu(MainMenuState::new()));
    machine.push(State::Pause(PauseState::new()));
    machine.update(&left_at(0, 0));
    assert_eq!(machine.depth(), 1);
    assert_eq!(machine.top().unwrap().name(), "main_menu");
}

#[test]
fn stack_is_never_left_empty() {
    let mut machine = Machine::new();
    let pointers = [idle(), left_at(75, 101), right_at(75, 101), left_at(3, 3), idle()];
    for frame in 0..200usize {
        machine.pause(frame % 7 == 0);
        machine.update(&pointers[frame % pointers.len()]);
        assert!(machine.depth() >= 1);
        assert!(machine.top().is_some());
        assert_ne!(machine.state(0).name(), "pause");
    }
}

#[test]
fn pause_button_lays_the_overlay_on_a_running_game() {
    let mut machine = Machine::with_state(State::InGame(small_game()));
    machine.pause(false);
    assert_eq!(machine.depth(), 1);
    machine.pause(true);
    assert_eq!(machine.depth(), 2);
    assert_eq!(machine.state(0).name(), "in_game");
    assert_eq!(machine.top().unwrap().name(), "pause");
    machine.pause(true);
    assert_eq!(machine.depth(), 2);
}

#[test]
fn pause_button_does_nothing_on_other_screens() {
    let screens = vec![
        State::Initial(InitialState::new()),
        State::PreGame(PreGameState::new(1)),
        State::GameOver(GameOverState::new()),
        State::GameWon(GameWonState::new()),
        State::MainMenu(MainMenuState::new()),
    ];
    for screen in screens {
        let name = screen.name();
        let mut machine = Machine::with_state(screen);
        machine.pause(true);
        assert_eq!(machine.depth(), 1);
        assert_eq!(machine.top().unwrap().name(), name);
    }
}

#[test]
fn end_screens_lead_back_to_the_menu_on_a_click() {
    for state in [State::GameOver(GameOverState::new()), State::GameWon(GameWonState::new())] {
        let name = state.name();
        let mut machine = Machine::with_state(state);
        machine.update(&idle());
        machine.update(&right_at(1, 1));
        assert_eq!(machine.top().unwrap().name(), name);
        machine.update(&left_at(1, 1));
        assert_eq!(machine.depth(), 1);
        assert_eq!(machine.top().unwrap().name(), "main_menu");
    }
}

#[test]
fn machine_draws_the_stack_from_the_bottom_and_restores_the_colors() {
    let grid = Grid::from_random_seed(0, 1, 1, (0, 20));
    let mut machine = Machine::with_state(State::InGame(InGameState::new(grid, vec![])));
    machine.push(State::Pause(PauseState::new()));
    let expected = vec![
        DrawCommand::Tile { sprite: Sprite::Covered, x: 0, y: 20 },
        DrawCommand::Colors(0x03),
        DrawCommand::MinesLeft { count: 0, x: 96, y: 2 },
        DrawCommand::Elapsed { ticks: 0, x: 2, y: 2 },
        DrawCommand::Colors(0x1320),
        DrawCommand::Banner { message: Message::Paused, x: 2, y: 10 },
        DrawCommand::Colors(0x1320),
    ];
    assert_eq!(machine.draw(0x1320), expected);
}

#[test]
fn screens_draw_their_lines() {
    assert_eq!(State::Initial(InitialState::new()).draw(5), vec![DrawCommand::Colors(5)]);
    assert_eq!(
        State::MainMenu(MainMenuState::new()).draw(5),
        vec![
            DrawCommand::Banner { message: Message::Title, x: 40, y: 60 },
            DrawCommand::Banner { message: Message::ClickToStart, x: 32, y: 80 },
            DrawCommand::Colors(5),
        ]
    );
    assert_eq!(
        State::GameOver(GameOverState::new()).draw(5),
        vec![
            DrawCommand::Banner { message: Message::GameOver, x: 2, y: 10 },
            DrawCommand::Colors(5),
        ]
    );
    assert_eq!(
        State::GameWon(GameWonState::new()).draw(5),
        vec![
            DrawCommand::Banner { message: Message::GameWon, x: 2, y: 10 },
            DrawCommand::Colors(5),
        ]
    );
    assert_eq!(
        State::Pause(PauseState::new()).draw(5),
        vec![DrawCommand::Banner { message: Message::Paused, x: 2, y: 10 }, DrawCommand::Colors(5)]
    );
    let setup = State::PreGame(PreGameState::with_map(Grid::from_random_seed(0, 2, 1, (0, 20))));
    assert_eq!(
        setup.draw(5),
        vec![
            DrawCommand::Tile { sprite: Sprite::Covered, x: 0, y: 20 },
            DrawCommand::Tile { sprite: Sprite::Covered, x: 10, y: 20 },
            DrawCommand::Colors(5),
        ]
    );
}

#[test]
fn only_the_top_screen_is_updated() {
    let mut machine = Machine::with_state(State::MainMenu(MainMenuState::new()));
    machine.push(State::MainMenu(MainMenuState { frames: 100 }));
    machine.update(&idle());
    machine.update(&idle());
    match (machine.state(0), machine.state(1)) {
        (State::MainMenu(beneath), State::MainMenu(top)) => {
            assert_eq!(beneath.frames, 0);
            assert_eq!(top.frames, 102);
        },
        _ => panic!("unexpected screens"),
    }
}

#[test]
fn frame_updates_draws_and_clears_the_clicks() {
    let mut machine = Machine::with_state(State::GameOver(GameOverState::new()));
    let mut mouse = Mouse::new(3, 4, false, true);
    let commands = machine.frame(&mut mouse, 0x12);
    assert_eq!(
        commands,
        vec![
            DrawCommand::Banner { message: Message::GameOver, x: 2, y: 10 },
            DrawCommand::Colors(0x12),
        ]
    );
    assert_eq!(mouse, Mouse::new(3, 4, false, false));
    assert_eq!(machine.depth(), 1);

    let mut machine = Machine::with_state(State::MainMenu(MainMenuState::new()));
    machine.push(State::Pause(PauseState::new()));
    let mut mouse = Mouse::new(3, 4, true, false);
    let commands = machine.frame(&mut mouse, 0x12);
    assert_eq!(
        commands,
        vec![
            DrawCommand::Banner { message: Message::Title, x: 40, y: 60 },
            DrawCommand::Banner { message: Message::ClickToStart, x: 32, y: 80 },
            DrawCommand::Colors(0x12),
        ]
    );
    assert_eq!(mouse, Mouse::new(3, 4, false, false));
    assert_eq!(machine.depth(), 1);
    assert_eq!(machine.top().unwrap().name(), "main_menu");
}

#[test]
fn remaining_mines_is_mines_less_flags() {
    let grid = Grid::from_random_seed(0, 4, 1, (0, 0));
    let mut game = InGameState::new(grid, vec![(1, 0), (3, 0)]);
    assert_eq!(game.count_remaining_mines(), 2);
    game = step(game, right_at(5, 5));
    assert_eq!(game.count_remaining_mines(), 1);
    game = step(game, right_at(15, 5));
    assert_eq!(game.count_remaining_mines(), 0);
    game = step(game, right_at(25, 5));
    assert_eq!(game.count_remaining_mines(), 0);
    game = step(game, right_at(5, 5));
    game = step(game, right_at(25, 5));
    assert_eq!(game.count_remaining_mines(), 1);
}
