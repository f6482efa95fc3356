use vstd::prelude::*;
use crate::board::{Board, BoardModel, MAX_SIDE};
use crate::point::{clamp, Point};
use crate::rules::{in_bounds, toggled};

verus! {

/// The glyph of a live cell when the terminal draws Unicode.
pub const CELL_CHAR_UNICODE: char = '⬤';

/// The glyph of a live cell in plain ASCII.
pub const CELL_CHAR_ASCII: char = '#';

/// The shortest pause between frames, in milliseconds.
pub const MIN_FRAME_DELAY: i16 = 1;

/// The longest pause between frames, in milliseconds.
pub const MAX_FRAME_DELAY: i16 = 100;

/// The pause between frames a session starts with, in milliseconds.
pub const DEFAULT_FRAME_DELAY: i16 = 30;

/// Columns taken by the help panel below the board, walls included.
pub const INSTRUCTIONS_WIDTH: u16 = 32;

/// Rows taken by the help panel below the board.
pub const INSTRUCTIONS_HEIGHT: u16 = 12;

/// A key press, as far as the session tells keys apart.
pub enum KeyInput {
    Char(char),
    Up,
    Down,
    Left,
    Right,
    Other,
}

/// What a key press asks the session to do.
#[derive(PartialEq, Eq, Structural, Clone, Copy, Debug)]
pub enum Command {
    Quit,
    TogglePause,
    Randomize,
    Clear,
    StepOnce,
    MoveRight,
    MoveDown,
    MoveLeft,
    MoveUp,
    ToggleCursorVisibility,
    ToggleCell,
    ToggleGlyph,
    DecreaseDelay,
    IncreaseDelay,
    Unrecognized,
}

/// The key bindings.
pub open spec fn command_of(key: KeyInput) -> Command {
    match key {
        KeyInput::Char(c) => {
            if c == 'q' || c == 'Q' {
                Command::Quit
            } else if c == ' ' {
                Command::TogglePause
            } else if c == 'r' || c == 'R' {
                Command::Randomize
            } else if c == 'c' || c == 'C' {
                Command::Clear
            } else if c == 'f' || c == 'F' {
                Command::StepOnce
            } else if c == 'h' || c == 'H' {
                Command::ToggleCursorVisibility
            } else if c == 'a' || c == 'A' {
                Command::ToggleCell
            } else if c == 'u' || c == 'U' {
                Command::ToggleGlyph
            } else if c == '-' || c == '_' {
                Command::DecreaseDelay
            } else if c == '=' || c == '+' {
                Command::IncreaseDelay
            } else {
                Command::Unrecognized
            }
        },
        KeyInput::Right => Command::MoveRight,
        KeyInput::Down => Command::MoveDown,
        KeyInput::Left => Command::MoveLeft,
        KeyInput::Up => Command::MoveUp,
        KeyInput::Other => Command::Unrecognized,
    }
}

/// Looks a key up in the key bindings.
pub fn command_for_key(key: &KeyInput) -> (r: Command)
    ensures
        r == command_of(*key),
{
    match key {
        KeyInput::Char(c) => {
            let c = *c;
            if c == 'q' || c == 'Q' {
                Command::Quit
            } else if c == ' ' {
                Command::TogglePause
            } else if c == 'r' || c == 'R' {
                Command::Randomize
            } else if c == 'c' || c == 'C' {
                Command::Clear
            } else if c == 'f' || c == 'F' {
                Command::StepOnce
            } else if c == 'h' || c == 'H' {
                Command::ToggleCursorVisibility
            } else if c == 'a' || c == 'A' {
                Command::ToggleCell
            } else if c == 'u' || c == 'U' {
                Command::ToggleGlyph
            } else if c == '-' || c == '_' {
                Command::DecreaseDelay
            } else if c == '=' || c == '+' {
                Command::IncreaseDelay
            } else {
                Command::Unrecognized
            }
        },
        KeyInput::Right => Command::MoveRight,
        KeyInput::Down => Command::MoveDown,
        KeyInput::Left => Command::MoveLeft,
        KeyInput::Up => Command::MoveUp,
        KeyInput::Other => Command::Unrecognized,
    }
}

/// The state of a session that outlives a frame.
pub struct GameState {
    pub paused: bool,
    pub game_running: bool,
    pub cursor_position: Point,
    pub cursor_visible: bool,
    pub cell_char: char,
    pub frame_delay: i16,
    pub is_first_frame: bool,
}

/// What must be drawn again at the end of a frame.
pub struct FrameState {
    pub board_updated: bool,
    pub frame_delay_updated: bool,
}

impl GameState {
    /// The cursor lies on a `width` x `height` board and the frame delay in
    /// its range.
    pub open spec fn wf(&self, width: nat, height: nat) -> bool {
        &&& in_bounds(
            (self.cursor_position.x as int, self.cursor_position.y as int),
            width as int,
            height as int,
        )
        &&& MIN_FRAME_DELAY <= self.frame_delay <= MAX_FRAME_DELAY
    }

    /// A running, unpaused session with the cursor in the top left corner,
    /// shown, the Unicode glyph and the default delay.
    pub fn new() -> (r: GameState)
        ensures
            r == (GameState {
                paused: false,
                game_running: true,
                cursor_position: Point { x: 0, y: 0 },
                cursor_visible: true,
                cell_char: CELL_CHAR_UNICODE,
                frame_delay: DEFAULT_FRAME_DELAY,
                is_first_frame: true,
            }),
    {
        GameState {
            paused: false,
            game_running: true,
            cursor_position: Point { x: 0, y: 0 },
            cursor_visible: true,
            cell_char: CELL_CHAR_UNICODE,
            frame_delay: DEFAULT_FRAME_DELAY,
            is_first_frame: true,
        }
    }
}

/// The cursor one step along `dx`, `dy`, not yet clamped.
pub open spec fn moved(g: GameState, dx: int, dy: int) -> GameState {
    GameState {
        cursor_position: Point {
            x: (g.cursor_position.x + dx) as i16,
            y: (g.cursor_position.y + dy) as i16,
        },
        ..g
    }
}

/// The session state after a command.
pub open spec fn session_after(cmd: Command, g: GameState) -> GameState {
    match cmd {
        Command::Quit => GameState { game_running: false, ..g },
        Command::TogglePause => GameState { paused: !g.paused, ..g },
        Command::MoveRight => moved(g, 1, 0),
        Command::MoveDown => moved(g, 0, 1),
        Command::MoveLeft => moved(g, -1, 0),
        Command::MoveUp => moved(g, 0, -1),
        Command::ToggleCursorVisibility => GameState { cursor_visible: !g.cursor_visible, ..g },
        Command::ToggleGlyph => GameState {
            cell_char: if g.cell_char == CELL_CHAR_UNICODE {
                CELL_CHAR_ASCII
            } else {
                CELL_CHAR_UNICODE
            },
            ..g
        },
        Command::DecreaseDelay => GameState {
            frame_delay: clamp(
                g.frame_delay - 1,
                MIN_FRAME_DELAY as int,
                MAX_FRAME_DELAY as int,
            ) as i16,
            ..g
        },
        Command::IncreaseDelay => GameState {
            frame_delay: clamp(
                g.frame_delay + 1,
                MIN_FRAME_DELAY as int,
                MAX_FRAME_DELAY as int,
            ) as i16,
            ..g
        },
        _ => g,
    }
}

/// The redraw flags after a command.
pub open spec fn flags_after(cmd: Command, g: GameState, f: FrameState) -> FrameState {
    match cmd {
        Command::Randomize | Command::Clear | Command::ToggleCell | Command::ToggleGlyph => FrameState {
            board_updated: true,
            ..f
        },
        Command::StepOnce => FrameState { board_updated: f.board_updated || g.paused, ..f },
        Command::DecreaseDelay | Command::IncreaseDelay => FrameState {
            frame_delay_updated: true,
            ..f
        },
        _ => f,
    }
}

/// The cell under the cursor.
pub open spec fn cursor_cell(g: GameState) -> (int, int) {
    (g.cursor_position.x as int, g.cursor_position.y as int)
}

/// Whether a command may turn board `b0` into board `b1`. All but a random
/// fill decide the new board; a random fill replaces the cells with the set
/// of a quarter of the area's worth of cells drawn on the grid.
pub open spec fn board_after(cmd: Command, g: GameState, b0: BoardModel, b1: BoardModel) -> bool {
    match cmd {
        Command::Randomize => {
            &&& b1.valid()
            &&& b1.is_random_fill_of(b0)
            &&& b1.cells.len() <= b0.trial_count()
        },
        Command::Clear => b1 == BoardModel { cells: Set::empty(), ..b0 },
        Command::StepOnce => b1 == if g.paused {
            b0.next()
        } else {
            b0
        },
        Command::ToggleCell => b1 == BoardModel { cells: toggled(b0.cells, cursor_cell(g)), ..b0 },
        _ => b1 == b0,
    }
}

/// The session state with the cursor pulled back onto a `width` x `height`
/// board.
pub open spec fn cursor_clamped(g: GameState, width: nat, height: nat) -> GameState {
    GameState {
        cursor_position: Point {
            x: clamp(g.cursor_position.x as int, 0, width - 1) as i16,
            y: clamp(g.cursor_position.y as int, 0, height - 1) as i16,
        },
        ..g
    }
}

/// Applies one key press to the board and the session state, and records
/// what must be drawn again. Cursor moves are not clamped here.
pub fn handle_key_press(
    key: KeyInput,
    board: &mut Board,
    game_state: &mut GameState,
    frame_state: &mut FrameState,
)
    requires
        old(board).wf(),
        old(game_state).wf(old(board)@.width, old(board)@.height),
    ensures
        final(board).wf(),
        final(board)@.width == old(board)@.width,
        final(board)@.height == old(board)@.height,
        board_after(command_of(key), *old(game_state), old(board)@, final(board)@),
        *final(game_state) == session_after(command_of(key), *old(game_state)),
        *final(frame_state) == flags_after(command_of(key), *old(game_state), *old(frame_state)),
        MIN_FRAME_DELAY <= final(game_state).frame_delay <= MAX_FRAME_DELAY,
{
    proof {
        board.lemma_model_valid();
    }
    match command_for_key(&key) {
        Command::Quit => game_state.game_running = false,
        Command::TogglePause => game_state.paused = !game_state.paused,
        Command::Randomize => {
            board.init_randomly();
            frame_state.board_updated = true;
        },
        Command::Clear => {
            board.clear();
            frame_state.board_updated = true;
        },
        Command::StepOnce => {
            if game_state.paused {
                board.update_cells();
                frame_state.board_updated = true;
            }
        },
        Command::MoveRight => game_state.cursor_position.x = game_state.cursor_position.x + 1,
        Command::MoveDown => game_state.cursor_position.y = game_state.cursor_position.y + 1,
        Command::MoveLeft => game_state.cursor_position.x = game_state.cursor_position.x - 1,
        Command::MoveUp => game_state.cursor_position.y = game_state.cursor_position.y - 1,
        Command::ToggleCursorVisibility => {
            game_state.cursor_visible = !game_state.cursor_visible;
        },
        Command::ToggleCell => {
            board.toggle_cell(game_state.cursor_position.x, game_state.cursor_position.y);
            frame_state.board_updated = true;
        },
        Command::ToggleGlyph => {
            if game_state.cell_char == CELL_CHAR_UNICODE {
                game_state.cell_char = CELL_CHAR_ASCII;
            } else {
                game_state.cell_char = CELL_CHAR_UNICODE;
            }
            frame_state.board_updated = true;
        },
        Command::DecreaseDelay => {
            game_state.frame_delay = game_state.frame_delay - 1;
            if game_state.frame_delay < MIN_FRAME_DELAY {
                game_state.frame_delay = MIN_FRAME_DELAY;
            }
            frame_state.frame_delay_updated = true;
        },
        Command::IncreaseDelay => {
            game_state.frame_delay = game_state.frame_delay + 1;
            if game_state.frame_delay > MAX_FRAME_DELAY {
                game_state.frame_delay = MAX_FRAME_DELAY;
            }
            frame_state.frame_delay_updated = true;
        },
        Command::Unrecognized => {},
    }
}

/// One frame of the session before drawing: the board advances a
/// generation unless paused, the key pressed during the frame (if any) is
/// applied, and the cursor is pulled back onto the board. The flags say what
/// to draw again; the delay readout is also drawn on the first frame.
pub fn play_frame(board: &mut Board, game_state: &mut GameState, key: Option<KeyInput>) -> (r:
    FrameState)
    requires
        old(board).wf(),
        old(game_state).wf(old(board)@.width, old(board)@.height),
    ensures
        final(board).wf(),
        final(board)@.width == old(board)@.width,
        final(board)@.height == old(board)@.height,
        final(game_state).wf(old(board)@.width, old(board)@.height),
        ({
            let advanced = if old(game_state).paused {
                old(board)@
            } else {
                old(board)@.next()
            };
            let flags = FrameState {
                board_updated: !old(game_state).paused,
                frame_delay_updated: false,
            };
            let g = GameState { is_first_frame: false, ..*old(game_state) };
            match key {
                None => {
                    &&& final(board)@ == advanced
                    &&& *final(game_state) == g
                    &&& r == FrameState {
                        frame_delay_updated: old(game_state).is_first_frame,
                        ..flags
                    }
                },
                Some(k) => {
                    let f = flags_after(command_of(k), g, flags);
                    &&& board_after(command_of(k), g, advanced, final(board)@)
                    &&& *final(game_state) == cursor_clamped(
                        session_after(command_of(k), g),
                        old(board)@.width,
                        old(board)@.height,
                    )
                    &&& r == FrameState {
                        frame_delay_updated: f.frame_delay_updated || old(game_state).is_first_frame,
                        ..f
                    }
                },
            }
        }),
{
    let mut frame_state = FrameState { board_updated: false, frame_delay_updated: false };
    let first_frame = game_state.is_first_frame;
    game_state.is_first_frame = false;
    if !game_state.paused {
        board.update_cells();
        frame_state.board_updated = true;
    }
    match key {
        Some(input) => handle_key_press(input, board, game_state, &mut frame_state),
        None => {},
    }
    proof {
        board.lemma_model_valid();
    }
    let width = board.width();
    let height = board.height();
    game_state.cursor_position.bound(0, 0, width as i16 - 1, height as i16 - 1);
    if first_frame {
        frame_state.frame_delay_updated = true;
    }
    frame_state
}

/// The board size for a terminal of the given size: the board takes all
/// the columns but its two walls and all the rows but the help panel and two
/// edges. `None` when the terminal cannot hold a board one row high and as
/// wide as the help panel.
pub fn board_dimensions(terminal_width: u16, terminal_height: u16) -> (r: Option<(u16, u16)>)
    ensures
        r == if terminal_width < INSTRUCTIONS_WIDTH || terminal_height < INSTRUCTIONS_HEIGHT + 3 {
            None
        } else {
            Some(
                (
                    (terminal_width - 2) as u16,
                    (terminal_height - INSTRUCTIONS_HEIGHT - 2) as u16,
                ),
            )
        },
{
    let min_board_height: u16 = 1;
    let min_board_width: u16 = INSTRUCTIONS_WIDTH - 2;
    if terminal_width < 2 || terminal_height < INSTRUCTIONS_HEIGHT + 2 {
        return None;
    }
    let max_board_width: u16 = terminal_width - 2;
    let max_board_height: u16 = terminal_height - INSTRUCTIONS_HEIGHT - 2;
    if max_board_height < min_board_height || max_board_width < min_board_width {
        return None;
    }
    Some((max_board_width, max_board_height))
}

/// Pressing the toggle key twice on the same cell gives back the board.
pub proof fn lemma_toggle_cell_twice(g: GameState, b0: BoardModel, b1: BoardModel, b2: BoardModel)
    requires
        board_after(Command::ToggleCell, g, b0, b1),
        board_after(Command::ToggleCell, session_after(Command::ToggleCell, g), b1, b2),
    ensures
        b2 == b0,
        b1.cells.contains(cursor_cell(g)) == !b0.cells.contains(cursor_cell(g)),
{
    crate::rules::lemma_toggle_twice(b0.cells, cursor_cell(g));
}

/// Whatever keys are pressed, frame after frame, the cursor stays on the
/// board and the frame delay in its range.
pub proof fn lemma_frame_keeps_session_valid(
    g: GameState,
    cmd: Command,
    width: nat,
    height: nat,
)
    requires
        1 <= width <= MAX_SIDE,
        1 <= height <= MAX_SIDE,
        g.wf(width, height),
    ensures
        cursor_clamped(session_after(cmd, g), width, height).wf(width, height),
{
}

} // verus!
