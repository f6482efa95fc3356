use conway::board::Board;
use conway::point::Point;
use conway::session::{
    board_dimensions, command_for_key, handle_key_press, play_frame, Command, FrameState,
    GameState, KeyInput, CELL_CHAR_ASCII, CELL_CHAR_UNICODE, DEFAULT_FRAME_DELAY,
    MAX_FRAME_DELAY, MIN_FRAME_DELAY,
};

fn no_flags() -> FrameState {
    FrameState { board_updated: false, frame_delay_updated: false }
}

fn paused_state() -> GameState {
    let mut state = GameState::new();
    state.paused = true;
    state.is_first_frame = false;
    state
}

#[test]
fn bound_clamps_to_nearest_edge() {
    let mut p = Point { x: -1, y: 12 };
    p.bound(0, 0, 9, 9);
    assert_eq!(p, Point { x: 0, y: 9 });
    let mut p = Point { x: 10, y: -3 };
    p.bound(0, 0, 9, 9);
    assert_eq!(p, Point { x: 9, y: 0 });
    let mut p = Point { x: 4, y: 5 };
    p.bound(0, 0, 9, 9);
    assert_eq!(p, Point { x: 4, y: 5 });
}

#[test]
fn key_bindings() {
    assert_eq!(command_for_key(&KeyInput::Char('q')), Command::Quit);
    assert_eq!(command_for_key(&KeyInput::Char('Q')), Command::Quit);
    assert_eq!(command_for_key(&KeyInput::Char(' ')), Command::TogglePause);
    assert_eq!(command_for_key(&KeyInput::Char('r')), Command::Randomize);
    assert_eq!(command_for_key(&KeyInput::Char('C')), Command::Clear);
    assert_eq!(command_for_key(&KeyInput::Char('f')), Command::StepOnce);
    assert_eq!(command_for_key(&KeyInput::Char('h')), Command::ToggleCursorVisibility);
    assert_eq!(command_for_key(&KeyInput::Char('a')), Command::ToggleCell);
    assert_eq!(command_for_key(&KeyInput::Char('U')), Command::ToggleGlyph);
    assert_eq!(command_for_key(&KeyInput::Char('-')), Command::DecreaseDelay);
    assert_eq!(command_for_key(&KeyInput::Char('_')), Command::DecreaseDelay);
    assert_eq!(command_for_key(&KeyInput::Char('=')), Command::IncreaseDelay);
    assert_eq!(command_for_key(&KeyInput::Char('+')), Command::IncreaseDelay);
    assert_eq!(command_for_key(&KeyInput::Char('x')), Command::Unrecognized);
    assert_eq!(command_for_key(&KeyInput::Up), Command::MoveUp);
    assert_eq!(command_for_key(&KeyInput::Down), Command::MoveDown);
    assert_eq!(command_for_key(&KeyInput::Left), Command::MoveLeft);
    assert_eq!(command_for_key(&KeyInput::Right), Command::MoveRight);
    assert_eq!(command_for_key(&KeyInput::Other), Command::Unrecognized);
}

#[test]
fn new_session_defaults() {
    let state = GameState::new();
    assert!(!state.paused);
    assert!(state.game_running);
    assert_eq!(state.cursor_position, Point { x: 0, y: 0 });
    assert!(state.cursor_visible);
    assert_eq!(state.cell_char, CELL_CHAR_UNICODE);
    assert_eq!(state.frame_delay, DEFAULT_FRAME_DELAY);
    assert!(state.is_first_frame);
}

#[test]
fn quit_and_pause_keys() {
    let mut board = Board::new(5, 5);
    let mut state = GameState::new();
    let mut flags = no_flags();
    handle_key_press(KeyInput::Char(' '), &mut board, &mut state, &mut flags);
    assert!(state.paused);
    handle_key_press(KeyInput::Char(' '), &mut board, &mut state, &mut flags);
    assert!(!state.paused);
    assert!(state.game_running);
    handle_key_press(KeyInput::Char('q'), &mut board, &mut state, &mut flags);
    assert!(!state.game_running);
    assert!(!flags.board_updated);
    assert!(!flags.frame_delay_updated);
}

#[test]
fn toggle_cell_key_twice_restores() {
    let mut board = Board::new(5, 5);
    let mut state = paused_state();
    state.cursor_position = Point { x: 2, y: 3 };
    let mut flags = no_flags();
    handle_key_press(KeyInput::Char('a'), &mut board, &mut state, &mut flags);
    assert!(board.is_alive(2, 3));
    assert!(flags.board_updated);
    handle_key_press(KeyInput::Char('A'), &mut board, &mut state, &mut flags);
    assert!(!board.is_alive(2, 3));
    assert_eq!(board.population(), 0);
}

#[test]
fn step_key_only_when_paused() {
    let mut board = Board::new(5, 5);
    board.toggle_cell(1, 1);
    let mut state = GameState::new();
    let mut flags = no_flags();
    handle_key_press(KeyInput::Char('f'), &mut board, &mut state, &mut flags);
    assert_eq!(board.population(), 1);
    assert!(!flags.board_updated);
    state.paused = true;
    handle_key_press(KeyInput::Char('F'), &mut board, &mut state, &mut flags);
    assert_eq!(board.population(), 0);
    assert!(flags.board_updated);
}

#[test]
fn glyph_key_switches_glyph() {
    let mut board = Board::new(5, 5);
    let mut state = GameState::new();
    let mut flags = no_flags();
    handle_key_press(KeyInput::Char('u'), &mut board, &mut state, &mut flags);
    assert_eq!(state.cell_char, CELL_CHAR_ASCII);
    assert!(flags.board_updated);
    handle_key_press(KeyInput::Char('u'), &mut board, &mut state, &mut flags);
    assert_eq!(state.cell_char, CELL_CHAR_UNICODE);
}

#[test]
fn cursor_visibility_key() {
    let mut board = Board::new(5, 5);
    let mut state = GameState::new();
    let mut flags = no_flags();
    handle_key_press(KeyInput::Char('h'), &mut board, &mut state, &mut flags);
    assert!(!state.cursor_visible);
    handle_key_press(KeyInput::Char('H'), &mut board, &mut state, &mut flags);
    assert!(state.cursor_visible);
}

#[test]
fn clear_and_randomize_keys() {
    let mut board = Board::new(8, 8);
    let mut state = paused_state();
    let mut flags = no_flags();
    handle_key_press(KeyInput::Char('r'), &mut board, &mut state, &mut flags);
    assert!(flags.board_updated);
    assert!(board.population() >= 1 && board.population() <= 16);
    let mut flags = no_flags();
    handle_key_press(KeyInput::Char('c'), &mut board, &mut state, &mut flags);
    assert!(flags.board_updated);
    assert_eq!(board.population(), 0);
}

#[test]
fn unknown_key_changes_nothing() {
    let mut board = Board::new(5, 5);
    board.toggle_cell(0, 0);
    let mut state = paused_state();
    let mut flags = no_flags();
    handle_key_press(KeyInput::Char('z'), &mut board, &mut state, &mut flags);
    handle_key_press(KeyInput::Other, &mut board, &mut state, &mut flags);
    assert_eq!(board.population(), 1);
    assert!(state.paused && state.game_running && state.cursor_visible);
    assert_eq!(state.cursor_position, Point { x: 0, y: 0 });
    assert_eq!(state.frame_delay, DEFAULT_FRAME_DELAY);
    assert!(!flags.board_updated && !flags.frame_delay_updated);
}

#[test]
fn delay_stays_in_range() {
    let mut board = Board::new(5, 5);
    let mut state = paused_state();
    for _ in 0..200 {
        let mut flags = no_flags();
        handle_key_press(KeyInput::Char('+'), &mut board, &mut state, &mut flags);
        assert!(flags.frame_delay_updated);
        assert!(state.frame_delay <= MAX_FRAME_DELAY);
    }
    assert_eq!(state.frame_delay, MAX_FRAME_DELAY);
    for _ in 0..200 {
        let mut flags = no_flags();
        handle_key_press(KeyInput::Char('-'), &mut board, &mut state, &mut flags);
        assert!(state.frame_delay >= MIN_FRAME_DELAY);
    }
    assert_eq!(state.frame_delay, MIN_FRAME_DELAY);
    let mut flags = no_flags();
    handle_key_press(KeyInput::Char('='), &mut board, &mut state, &mut flags);
    assert_eq!(state.frame_delay, MIN_FRAME_DELAY + 1);
}

#[test]
fn cursor_is_clamped_not_wrapped() {
    let mut board = Board::new(3, 2);
    let mut state = paused_state();
    play_frame(&mut board, &mut state, Some(KeyInput::Left));
    assert_eq!(state.cursor_position, Point { x: 0, y: 0 });
    play_frame(&mut board, &mut state, Some(KeyInput::Up));
    assert_eq!(state.cursor_position, Point { x: 0, y: 0 });
    for _ in 0..5 {
        play_frame(&mut board, &mut state, Some(KeyInput::Right));
    }
    assert_eq!(state.cursor_position, Point { x: 2, y: 0 });
    for _ in 0..5 {
        play_frame(&mut board, &mut state, Some(KeyInput::Down));
    }
    assert_eq!(state.cursor_position, Point { x: 2, y: 1 });
    play_frame(&mut board, &mut state, Some(KeyInput::Left));
    assert_eq!(state.cursor_position, Point { x: 1, y: 1 });
}

#[test]
fn frame_advances_unless_paused() {
    let mut board = Board::new(5, 5);
    for &(x, y) in &[(1, 2), (2, 2), (3, 2)] {
        board.toggle_cell(x, y);
    }
    let mut state = GameState::new();
    let flags = play_frame(&mut board, &mut state, None);
    assert!(flags.board_updated);
    assert!(flags.frame_delay_updated);
    assert!(!state.is_first_frame);
    assert!(board.is_alive(2, 1) && board.is_alive(2, 3) && !board.is_alive(1, 2));
    let flags = play_frame(&mut board, &mut state, Some(KeyInput::Char(' ')));
    assert!(flags.board_updated);
    assert!(!flags.frame_delay_updated);
    assert!(state.paused);
    assert!(board.is_alive(1, 2) && board.is_alive(3, 2) && !board.is_alive(2, 1));
    let flags = play_frame(&mut board, &mut state, None);
    assert!(!flags.board_updated);
    assert!(board.is_alive(1, 2) && board.is_alive(3, 2));
}

#[test]
fn board_size_from_terminal() {
    assert_eq!(board_dimensions(80, 24), Some((78, 10)));
    assert_eq!(board_dimensions(32, 15), Some((30, 1)));
    assert_eq!(board_dimensions(31, 40), None);
    assert_eq!(board_dimensions(100, 14), None);
    assert_eq!(board_dimensions(0, 0), None);
    assert_eq!(board_dimensions(65535, 100), Some((65533, 86)));
    assert_eq!(board_dimensions(65535, 65535), Some((65533, 65521)));
}
