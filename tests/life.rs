use conway::board::Board;
use conway::render::{board_to_string, border_line};

fn board_with(width: u32, height: u32, cells: &[(i16, i16)]) -> Board {
    let mut board = Board::new(width, height);
    for &(x, y) in cells {
        board.toggle_cell(x, y);
    }
    board
}

fn live_cells(board: &Board) -> Vec<(i16, i16)> {
    let mut cells = Vec::new();
    for y in 0..board.height() as i16 {
        for x in 0..board.width() as i16 {
            if board.is_alive(x, y) {
                cells.push((x, y));
            }
        }
    }
    cells
}

#[test]
fn new_board_is_empty() {
    let board = Board::new(7, 5);
    assert_eq!(board.width(), 7);
    assert_eq!(board.height(), 5);
    assert_eq!(board.population(), 0);
    assert!(live_cells(&board).is_empty());
}

#[test]
fn empty_board_stays_empty() {
    let mut board = Board::new(10, 10);
    board.update_cells();
    assert_eq!(board.population(), 0);
}

#[test]
fn lone_cell_dies_anywhere() {
    for &(x, y) in &[(0, 0), (9, 0), (0, 7), (9, 7), (4, 0), (0, 3), (5, 4)] {
        let mut board = board_with(10, 8, &[(x, y)]);
        board.update_cells();
        assert_eq!(board.population(), 0, "cell at ({}, {})", x, y);
    }
}

#[test]
fn block_is_still_life() {
    let block = [(3, 3), (4, 3), (3, 4), (4, 4)];
    let mut board = board_with(10, 10, &block);
    board.update_cells();
    assert_eq!(live_cells(&board), vec![(3, 3), (4, 3), (3, 4), (4, 4)]);
    board.update_cells();
    assert_eq!(live_cells(&board), vec![(3, 3), (4, 3), (3, 4), (4, 4)]);
}

#[test]
fn block_in_corner_is_still_life() {
    let mut board = board_with(2, 2, &[(0, 0), (1, 0), (0, 1), (1, 1)]);
    board.update_cells();
    assert_eq!(live_cells(&board), vec![(0, 0), (1, 0), (0, 1), (1, 1)]);
}

#[test]
fn blinker_oscillates() {
    let mut board = board_with(5, 5, &[(1, 2), (2, 2), (3, 2)]);
    board.update_cells();
    assert_eq!(live_cells(&board), vec![(2, 1), (2, 2), (2, 3)]);
    board.update_cells();
    assert_eq!(live_cells(&board), vec![(1, 2), (2, 2), (3, 2)]);
}

#[test]
fn dead_cell_with_three_neighbours_is_born() {
    // an L of three cells fills in to a block
    let mut board = board_with(6, 6, &[(1, 1), (2, 1), (1, 2)]);
    board.update_cells();
    assert_eq!(live_cells(&board), vec![(1, 1), (2, 1), (1, 2), (2, 2)]);
}

#[test]
fn crowded_cell_dies() {
    // the centre of a plus sign has four live neighbours
    let mut board = board_with(5, 5, &[(2, 1), (1, 2), (2, 2), (3, 2), (2, 3)]);
    board.update_cells();
    assert!(!board.is_alive(2, 2));
    assert_eq!(
        live_cells(&board),
        vec![(1, 1), (2, 1), (3, 1), (1, 2), (3, 2), (1, 3), (2, 3), (3, 3)]
    );
}

#[test]
fn edges_do_not_wrap() {
    // a vertical bar against the left wall loses the half that would fall off
    let mut board = board_with(4, 4, &[(0, 0), (0, 1), (0, 2)]);
    board.update_cells();
    assert_eq!(live_cells(&board), vec![(0, 1), (1, 1)]);
    // on a wrapping grid the right column would have fed this row
    let mut board = board_with(3, 3, &[(2, 0), (2, 1), (2, 2)]);
    board.update_cells();
    assert_eq!(live_cells(&board), vec![(1, 1), (2, 1)]);
}

#[test]
fn random_fill_stays_on_board() {
    let mut board = board_with(10, 10, &[(0, 0), (9, 9)]);
    for _ in 0..20 {
        board.init_randomly();
        let population = board.population();
        assert!(population >= 1);
        assert!(population <= 25);
        assert_eq!(live_cells(&board).len(), population);
        assert_eq!(board.width(), 10);
        assert_eq!(board.height(), 10);
    }
}

#[test]
fn random_fill_of_tiny_board_is_empty() {
    let mut board = board_with(1, 3, &[(0, 1)]);
    board.init_randomly();
    assert_eq!(board.population(), 0);
}

#[test]
fn random_fill_of_wide_board() {
    let mut board = Board::new(300, 2);
    board.init_randomly();
    let population = board.population();
    assert!(population >= 1 && population <= 150);
    assert_eq!(live_cells(&board).len(), population);
}

#[test]
fn clear_kills_everything() {
    let mut board = board_with(4, 4, &[(0, 0), (3, 3), (1, 2)]);
    assert_eq!(board.population(), 3);
    board.clear();
    assert_eq!(board.population(), 0);
}

#[test]
fn toggle_twice_restores() {
    let mut board = board_with(4, 4, &[(1, 1)]);
    board.toggle_cell(1, 1);
    assert!(!board.is_alive(1, 1));
    board.toggle_cell(1, 1);
    assert!(board.is_alive(1, 1));
    board.toggle_cell(2, 3);
    board.toggle_cell(2, 3);
    assert_eq!(live_cells(&board), vec![(1, 1)]);
}

#[test]
fn toggle_off_board_is_ignored() {
    let mut board = Board::new(4, 4);
    board.toggle_cell(4, 0);
    board.toggle_cell(0, 4);
    board.toggle_cell(-1, 2);
    assert_eq!(board.population(), 0);
    assert!(!board.is_alive(-1, 2));
    assert!(!board.is_alive(4, 0));
}

#[test]
fn draws_board_text() {
    let board = board_with(3, 2, &[(0, 0), (2, 1)]);
    assert_eq!(board_to_string(&board, '#'), "║#  ║\r\n║  #║\r\n");
    assert_eq!(board_to_string(&board, '⬤'), "║⬤  ║\r\n║  ⬤║\r\n");
}

#[test]
fn draws_empty_board_text() {
    let board = Board::new(2, 1);
    assert_eq!(board_to_string(&board, '#'), "║  ║\r\n");
}

#[test]
fn draws_border_line() {
    assert_eq!(border_line(4), "════");
    assert_eq!(border_line(0), "");
}

#[test]
fn set_live_cells_keeps_listed_cells_on_board() {
    let mut board = board_with(5, 4, &[(4, 3)]);
    board.set_live_cells(&vec![(1, 1), (2, 3), (1, 1), (5, 0), (0, 4), (-1, 2), (4, 0)]);
    assert_eq!(live_cells(&board), vec![(4, 0), (1, 1), (2, 3)]);
    assert_eq!(board.population(), 3);
    board.set_live_cells(&Vec::new());
    assert_eq!(board.population(), 0);
}

#[test]
fn random_fill_replaces_old_cells() {
    // a 2 x 2 board gets one draw: exactly one live cell, the old ones gone
    for _ in 0..20 {
        let mut board = board_with(2, 2, &[(0, 0), (1, 0), (0, 1), (1, 1)]);
        board.init_randomly();
        assert_eq!(board.population(), 1);
        assert_eq!(live_cells(&board).len(), 1);
    }
}
