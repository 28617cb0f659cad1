use dropper::board::Board;
use dropper::color::Color::{Blue, Red, Yellow};
use dropper::color::Color;
use dropper::game::Piece;

fn board_from(rows: &[&[Option<Color>]]) -> Board {
    let height = rows.len();
    let width = rows[0].len();
    let mut b = Board::new(width, height);
    for (r, row) in rows.iter().enumerate() {
        for (c, cell) in row.iter().enumerate() {
            if let Some(color) = cell {
                b.set(r, c, *color);
            }
        }
    }
    b
}

#[test]
fn delete_all_horizontal_row() {
    let mut board = board_from(&[
        &[None, None, None, None],
        &[None, None, None, None],
        &[None, Some(Red), None, None],
        &[Some(Red), Some(Red), Some(Red), Some(Red)],
    ]);

    let pieces_to_clear = vec![
        Piece { row: 3, col: 0, color: Red },
        Piece { row: 3, col: 1, color: Red },
        Piece { row: 3, col: 2, color: Red },
        Piece { row: 3, col: 3, color: Red },
    ];

    let expected_board = board_from(&[
        &[None, None, None, None],
        &[None, None, None, None],
        &[None, None, None, None],
        &[None, Some(Red), None, None],
    ]);

    board.clear_all(pieces_to_clear);

    assert_eq!(expected_board, board);
}

#[test]
fn get_pieces_to_clear_diagonal_down() {
    let board = board_from(&[
        &[Some(Red), None, None, None],
        &[None, Some(Red), None, None],
        &[None, None, Some(Red), None],
        &[None, None, None, Some(Red)],
    ]);

    let mut expected_pieces_to_clear = vec![
        Piece { row: 0, col: 0, color: Red },
        Piece { row: 1, col: 1, color: Red },
        Piece { row: 2, col: 2, color: Red },
        Piece { row: 3, col: 3, color: Red },
    ];

    let mut pieces_to_clear = board.get_pieces_to_clear();

    expected_pieces_to_clear.sort();
    pieces_to_clear.sort();

    assert_eq!(expected_pieces_to_clear, pieces_to_clear);
}

#[test]
fn get_pieces_to_clear_diagonal_down_off_center_down() {
    let board = board_from(&[
        &[None, None, None, None, None],
        &[Some(Red), None, None, None],
        &[None, Some(Red), None, None],
        &[None, None, Some(Red), None],
        &[None, None, None, Some(Red)],
    ]);

    let mut expected_pieces_to_clear = vec![
        Piece { row: 1, col: 0, color: Red },
        Piece { row: 2, col: 1, color: Red },
        Piece { row: 3, col: 2, color: Red },
        Piece { row: 4, col: 3, color: Red },
    ];

    let mut pieces_to_clear = board.get_pieces_to_clear();

    expected_pieces_to_clear.sort();
    pieces_to_clear.sort();

    assert_eq!(expected_pieces_to_clear, pieces_to_clear);
}

#[test]
fn get_pieces_to_clear_diagonal_down_off_center_right() {
    let board = board_from(&[
        &[None, None, None, None, None],
        &[None, Some(Red), None, None, None],
        &[None, None, Some(Red), None, None],
        &[None, None, None, Some(Red), None],
        &[None, None, None, None, Some(Red)],
    ]);

    let mut expected_pieces_to_clear = vec![
        Piece { row: 1, col: 1, color: Red },
        Piece { row: 2, col: 2, color: Red },
        Piece { row: 3, col: 3, color: Red },
        Piece { row: 4, col: 4, color: Red },
    ];

    let mut pieces_to_clear = board.get_pieces_to_clear();

    expected_pieces_to_clear.sort();
    pieces_to_clear.sort();

    assert_eq!(expected_pieces_to_clear, pieces_to_clear);
}

#[test]
fn get_pieces_to_clear_diagonal_up() {
    let board = board_from(&[
        &[None, None, None, Some(Red)],
        &[None, None, Some(Red), None],
        &[None, Some(Red), None, None],
        &[Some(Red), None, None, None],
    ]);

    let mut expected_pieces_to_clear = vec![
        Piece { row: 3, col: 0, color: Red },
        Piece { row: 2, col: 1, color: Red },
        Piece { row: 1, col: 2, color: Red },
        Piece { row: 0, col: 3, color: Red },
    ];

    let mut pieces_to_clear = board.get_pieces_to_clear();

    expected_pieces_to_clear.sort();
    pieces_to_clear.sort();

    assert_eq!(expected_pieces_to_clear, pieces_to_clear);
}

#[test]
fn get_pieces_to_clear_diagonal_up_off_center_up() {
    let board = board_from(&[
        &[None, None, None, Some(Red), None],
        &[None, None, Some(Red), None, None],
        &[None, Some(Red), None, None, None],
        &[Some(Red), None, None, None, None],
        &[None, None, None, None, None],
    ]);

    let mut expected_pieces_to_clear = vec![
        Piece { row: 3, col: 0, color: Red },
        Piece { row: 2, col: 1, color: Red },
        Piece { row: 1, col: 2, color: Red },
        Piece { row: 0, col: 3, color: Red },
    ];

    let mut pieces_to_clear = board.get_pieces_to_clear();

    expected_pieces_to_clear.sort();
    pieces_to_clear.sort();

    assert_eq!(expected_pieces_to_clear, pieces_to_clear);
}

#[test]
fn get_pieces_to_clear_diagonal_up_off_center_down() {
    let board = board_from(&[
        &[None, None, None, None, None],
        &[None, None, None, None, Some(Red)],
        &[None, None, None, Some(Red), None],
        &[None, None, Some(Red), None, None],
        &[None, Some(Red), None, None, None],
    ]);

    let mut expected_pieces_to_clear = vec![
        Piece { row: 4, col: 1, color: Red },
        Piece { row: 3, col: 2, color: Red },
        Piece { row: 2, col: 3, color: Red },
        Piece { row: 1, col: 4, color: Red },
    ];

    let mut pieces_to_clear = board.get_pieces_to_clear();

    expected_pieces_to_clear.sort();
    pieces_to_clear.sort();

    assert_eq!(expected_pieces_to_clear, pieces_to_clear);
}

#[test]
fn get_pieces_to_clear_horizontal() {
    let board = board_from(&[
        &[None, None, None, None],
        &[None, None, None, None],
        &[Some(Red), Some(Red), Some(Red), Some(Red)],
        &[None, None, None, None],
    ]);

    let expected_pieces_to_clear = vec![
        Piece { row: 2, col: 0, color: Red },
        Piece { row: 2, col: 1, color: Red },
        Piece { row: 2, col: 2, color: Red },
        Piece { row: 2, col: 3, color: Red },
    ];

    let pieces_to_clear = board.get_pieces_to_clear();

    assert_eq!(expected_pieces_to_clear, pieces_to_clear);
}

#[test]
fn get_pieces_to_clear_vertical() {
    let board = board_from(&[
        &[Some(Red), None],
        &[Some(Red), None],
        &[Some(Red), None],
        &[Some(Red), None],
        &[Some(Yellow), None],
    ]);

    let expected_pieces_to_clear = vec![
        Piece { row: 0, col: 0, color: Red },
        Piece { row: 1, col: 0, color: Red },
        Piece { row: 2, col: 0, color: Red },
        Piece { row: 3, col: 0, color: Red },
    ];

    let pieces_to_clear = board.get_pieces_to_clear();

    assert_eq!(expected_pieces_to_clear, pieces_to_clear);
}

#[test]
fn get_pieces_to_clear_vertical_none_eligible() {
    let board = board_from(&[
        &[Some(Red), None],
        &[Some(Blue), None],
        &[Some(Red), None],
        &[Some(Red), None],
    ]);

    let expected_pieces_to_clear: Vec<Piece> = vec![];

    let pieces_to_clear = board.get_pieces_to_clear();

    assert_eq!(expected_pieces_to_clear, pieces_to_clear);
}

#[test]
fn set_a_color() {
    let mut board = board_from(&[
        &[Some(Red), Some(Red)],
        &[Some(Red), Some(Red)],
    ]);

    board.set(1, 1, Yellow);

    let expected_board = board_from(&[
        &[Some(Red), Some(Red)],
        &[Some(Red), Some(Yellow)],
    ]);

    assert_eq!(expected_board, board);
}

#[test]
fn get_a_color() {
    let board = board_from(&[
        &[Some(Red), Some(Blue)],
        &[Some(Red), Some(Yellow)],
    ]);

    let color = board.get(0, 1);

    let expected_color = Some(Blue);

    assert_eq!(expected_color, color);
}

#[test]
fn get_lowest_free_row_in_col() {
    let board = board_from(&[
        &[None, None],
        &[None, None],
    ]);

    let row = board.get_lowest_free_row_in_col(0);
    let expected_row: usize = 1;

    assert_eq!(expected_row, row);
}

#[test]
fn get_lowest_free_row_in_col_with_another_existing_piece() {
    let board = board_from(&[
        &[None, None],
        &[Some(Red), None],
    ]);

    let row = board.get_lowest_free_row_in_col(0);
    let expected_row: usize = 0;

    assert_eq!(expected_row, row);
}

#[test]
fn get_out_of_bounds_reads_as_empty() {
    let board = board_from(&[
        &[Some(Red), Some(Blue)],
        &[Some(Red), Some(Yellow)],
    ]);

    assert_eq!(None, board.get(2, 0));
    assert_eq!(None, board.get(0, 2));
    assert_eq!(None, board.get(100, 100));
}

#[test]
fn get_pieces_row_major_order() {
    let board = board_from(&[
        &[None, Some(Blue)],
        &[Some(Red), None],
    ]);

    let expected = vec![
        Piece { row: 0, col: 1, color: Blue },
        Piece { row: 1, col: 0, color: Red },
    ];

    assert_eq!(expected, board.get_pieces());
}

#[test]
fn run_of_three_is_not_cleared() {
    let board = board_from(&[
        &[None],
        &[Some(Red)],
        &[Some(Red)],
        &[Some(Red)],
    ]);

    let expected: Vec<Piece> = vec![];

    assert_eq!(expected, board.get_pieces_to_clear());
}

#[test]
fn run_of_five_is_cleared_whole() {
    let board = board_from(&[
        &[None],
        &[Some(Red)],
        &[Some(Red)],
        &[Some(Red)],
        &[Some(Red)],
        &[Some(Red)],
    ]);

    let expected = vec![
        Piece { row: 1, col: 0, color: Red },
        Piece { row: 2, col: 0, color: Red },
        Piece { row: 3, col: 0, color: Red },
        Piece { row: 4, col: 0, color: Red },
        Piece { row: 5, col: 0, color: Red },
    ];

    assert_eq!(expected, board.get_pieces_to_clear());
}

#[test]
fn crossing_runs_are_cleared_once_each() {
    // Row 3 and column 1 are both full of red: the shared cell (3, 1) is
    // reported once.
    let board = board_from(&[
        &[None, Some(Red), None, None],
        &[None, Some(Red), None, None],
        &[None, Some(Red), None, None],
        &[Some(Red), Some(Red), Some(Red), Some(Red)],
    ]);

    let expected = vec![
        Piece { row: 0, col: 1, color: Red },
        Piece { row: 1, col: 1, color: Red },
        Piece { row: 2, col: 1, color: Red },
        Piece { row: 3, col: 0, color: Red },
        Piece { row: 3, col: 1, color: Red },
        Piece { row: 3, col: 2, color: Red },
        Piece { row: 3, col: 3, color: Red },
    ];

    assert_eq!(expected, board.get_pieces_to_clear());
}
