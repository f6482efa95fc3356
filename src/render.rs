use vstd::prelude::*;
use crate::board::{Board, MAX_SIDE};

verus! {

/// The character drawn for the cell `(x, y)`.
pub open spec fn cell_glyph(cells: Set<(int, int)>, x: int, y: int, glyph: char) -> char {
    if cells.contains((x, y)) {
        glyph
    } else {
        ' '
    }
}

/// Row `y` of the board as drawn: a wall, one character per cell, a wall and
/// a line break that returns the cursor to the first column.
pub open spec fn row_text(cells: Set<(int, int)>, width: nat, y: int, glyph: char) -> Seq<char> {
    seq!['║'] + Seq::new(width, |x: int| cell_glyph(cells, x, y, glyph)) + seq!['║', '\r', '\n']
}

/// The first `rows` rows of the board as drawn.
pub open spec fn board_text(cells: Set<(int, int)>, width: nat, rows: nat, glyph: char) -> Seq<
    char,
>
    decreases rows,
{
    if rows == 0 {
        Seq::empty()
    } else {
        board_text(cells, width, (rows - 1) as nat, glyph) + row_text(
            cells,
            width,
            rows - 1,
            glyph,
        )
    }
}

/// Relies on `String::push`: appends one character at the end.
#[verifier::external_body]
fn push_char(s: &mut String, c: char)
    ensures
        final(s)@ == old(s)@.push(c),
{
    s.push(c);
}

/// Draws the board: one line per row, live cells as `cell_char`, dead
/// cells blank, between two walls.
pub fn board_to_string(board: &Board, cell_char: char) -> (r: String)
    requires
        board.wf(),
    ensures
        r@ == board_text(board@.cells, board@.width, board@.height, cell_char),
{
    proof {
        board.lemma_model_valid();
    }
    let width = board.width();
    let height = board.height();
    let mut board_string = String::new();
    for y in 0..height
        invariant
            width == board@.width,
            height == board@.height,
            height <= MAX_SIDE,
            width <= MAX_SIDE,
            board.wf(),
            board_string@ == board_text(board@.cells, board@.width, y as nat, cell_char),
    {
        let ghost before = board_string@;
        push_char(&mut board_string, '║');
        for x in 0..width
            invariant
                width == board@.width,
                height == board@.height,
                height <= MAX_SIDE,
                width <= MAX_SIDE,
                y < height,
                board.wf(),
                board_string@ == before + seq!['║'] + Seq::new(
                    x as nat,
                    |i: int| cell_glyph(board@.cells, i, y as int, cell_char),
                ),
        {
            let ghost row = board_string@;
            if board.is_alive(x as i16, y as i16) {
                push_char(&mut board_string, cell_char);
            } else {
                push_char(&mut board_string, ' ');
            }
            assert(board_string@ =~= before + seq!['║'] + Seq::new(
                (x + 1) as nat,
                |i: int| cell_glyph(board@.cells, i, y as int, cell_char),
            ));
        }
        push_char(&mut board_string, '║');
        push_char(&mut board_string, '\r');
        push_char(&mut board_string, '\n');
        assert(board_string@ =~= board_text(board@.cells, board@.width, (y + 1) as nat, cell_char));
    }
    board_string
}

/// A horizontal edge of the frame: `width` double bars.
pub fn border_line(width: u32) -> (r: String)
    ensures
        r@ == Seq::new(width as nat, |i: int| '═'),
{
    let mut line = String::new();
    for i in 0..width
        invariant
            line@ == Seq::new(i as nat, |j: int| '═'),
    {
        push_char(&mut line, '═');
        assert(line@ =~= Seq::new((i + 1) as nat, |j: int| '═'));
    }
    line
}

} // verus!
