use dropper::board::Board;
use dropper::color::Color::{Blue, Red};
use dropper::frame_timer::FrameTimer;
use dropper::game::Piece;

#[test]
fn four_vertical_drops_fill_and_match_a_column() {
    // An empty grid of four rows and two columns: four sequential drops
    // into column 0 land on rows 3, 2, 1, 0 and form one vertical run.
    let mut board = Board::new(2, 4);
    for _ in 0..4 {
        let row = board.get_lowest_free_row_in_col(0);
        board.set(row, 0, Red);
    }

    let expected = vec![
        Piece { row: 0, col: 0, color: Red },
        Piece { row: 1, col: 0, color: Red },
        Piece { row: 2, col: 0, color: Red },
        Piece { row: 3, col: 0, color: Red },
    ];

    assert_eq!(expected, board.get_pieces_to_clear());
}

#[test]
fn clearing_a_full_row_leaves_the_board_empty() {
    let mut board = Board::new(4, 4);
    for col in 0..4 {
        board.set(2, col, Red);
    }

    let matched = board.get_pieces_to_clear();
    assert_eq!(4, matched.len());
    assert!(matched.iter().all(|p| p.row() == 2));

    board.clear_all(matched);
    assert!(board.get_pieces().is_empty());
}

#[test]
fn anti_diagonal_of_four_matches_exactly() {
    let mut board = Board::new(4, 4);
    board.set(0, 3, Red);
    board.set(1, 2, Red);
    board.set(2, 1, Red);
    board.set(3, 0, Red);

    let expected = vec![
        Piece { row: 0, col: 3, color: Red },
        Piece { row: 1, col: 2, color: Red },
        Piece { row: 2, col: 1, color: Red },
        Piece { row: 3, col: 0, color: Red },
    ];

    assert_eq!(expected, board.get_pieces_to_clear());
}

#[test]
fn a_break_in_the_column_prevents_the_match() {
    // Red, Blue, Red, Red top to bottom: four pieces, no run of four.
    let mut board = Board::new(1, 4);
    board.set(0, 0, Red);
    board.set(1, 0, Blue);
    board.set(2, 0, Red);
    board.set(3, 0, Red);

    let expected: Vec<Piece> = vec![];
    assert_eq!(expected, board.get_pieces_to_clear());
}

#[test]
fn clearing_a_whole_column_empties_it() {
    let mut board = Board::new(1, 4);
    for row in 0..4 {
        board.set(row, 0, Red);
    }

    let matched = board.get_pieces_to_clear();
    assert_eq!(4, matched.len());

    board.clear_all(matched);
    assert!(board.get_pieces().is_empty());
}

#[test]
fn collapse_drops_the_survivors_to_the_bottom() {
    // Blue, Red, Red, Red, Red, Blue top to bottom: the four reds clear and
    // the two blues settle on the bottom two rows.
    let mut board = Board::new(1, 6);
    board.set(0, 0, Blue);
    board.set(1, 0, Red);
    board.set(2, 0, Red);
    board.set(3, 0, Red);
    board.set(4, 0, Red);
    board.set(5, 0, Blue);

    let matched = board.get_pieces_to_clear();
    let expected_matched = vec![
        Piece { row: 1, col: 0, color: Red },
        Piece { row: 2, col: 0, color: Red },
        Piece { row: 3, col: 0, color: Red },
        Piece { row: 4, col: 0, color: Red },
    ];
    assert_eq!(expected_matched, matched);

    board.clear_all(matched);

    let expected_left = vec![
        Piece { row: 4, col: 0, color: Blue },
        Piece { row: 5, col: 0, color: Blue },
    ];
    assert_eq!(expected_left, board.get_pieces());
}

#[test]
fn clearing_nothing_on_a_settled_board_changes_nothing() {
    let mut board = Board::new(3, 3);
    board.set(2, 0, Red);
    board.set(2, 1, Blue);
    board.set(1, 0, Blue);

    let mut expected = Board::new(3, 3);
    expected.set(2, 0, Red);
    expected.set(2, 1, Blue);
    expected.set(1, 0, Blue);

    board.clear_all(vec![]);

    assert_eq!(expected, board);
}

#[test]
fn clear_and_collapse_twice_equals_once() {
    // A floating layout: clearing once settles it; clearing again with
    // nothing further to remove must change nothing more.
    let mut board = Board::new(2, 5);
    board.set(0, 0, Blue);
    for row in 1..5 {
        board.set(row, 0, Red);
    }
    board.set(4, 1, Blue);

    let matched = board.get_pieces_to_clear();
    board.clear_all(matched);
    let after_once = board.get_pieces();

    board.clear_all(vec![]);
    let after_twice = board.get_pieces();

    assert_eq!(after_once, after_twice);
}

#[test]
fn landing_a_piece_raises_the_lowest_free_row() {
    let mut board = Board::new(1, 3);

    let first = board.get_lowest_free_row_in_col(0);
    assert_eq!(2, first);
    board.set(first, 0, Red);

    let second = board.get_lowest_free_row_in_col(0);
    assert_eq!(1, second);
    assert!(second < first);
    board.set(second, 0, Red);

    let third = board.get_lowest_free_row_in_col(0);
    assert_eq!(0, third);
    assert!(third < second);
}

#[test]
fn frame_timer_with_a_long_duration_is_not_due() {
    let mut timer = FrameTimer::new(u64::MAX);
    assert!(!timer.next_frame());
    assert!(!timer.next_frame());
}
