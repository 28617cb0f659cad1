use dropper::color::Color;
use dropper::game::Game;
use dropper::game::MoveDirection;
use dropper::game::Piece;
use dropper::game::PieceGenerator;

const HEIGHT: usize = 16;
const WIDTH: usize = 4;

#[test]
fn move_right() {
    let pieces_to_drop = vec![
        Piece { row: 0, col: 0, color: Color::Red },
    ];

    let expected_pieces = vec![
        Piece { row: 0, col: 1, color: Color::Red },
    ];

    let mut game = Game::new(
        HEIGHT,
        WIDTH,
        PieceGenerator::Exact(pieces_to_drop),
    );

    game.move_piece(MoveDirection::Right);

    assert_eq!(expected_pieces, game.get_pieces());
}

#[test]
fn move_left() {
    let pieces_to_drop = vec![
        Piece { row: 0, col: 3, color: Color::Red },
    ];

    let expected_pieces = vec![
        Piece { row: 0, col: 2, color: Color::Red },
    ];

    let mut game = Game::new(
        HEIGHT,
        WIDTH,
        PieceGenerator::Exact(pieces_to_drop),
    );

    game.move_piece(MoveDirection::Left);

    assert_eq!(expected_pieces, game.get_pieces());
}

#[test]
fn move_right_stops_at_game_edge() {
    let pieces_to_drop = vec![
        Piece { row: 0, col: WIDTH - 1, color: Color::Red },
    ];

    let expected_pieces = vec![
        Piece { row: 0, col: WIDTH - 1, color: Color::Red },
    ];

    let mut game = Game::new(
        HEIGHT,
        WIDTH,
        PieceGenerator::Exact(pieces_to_drop),
    );

    game.move_piece(MoveDirection::Right);

    assert_eq!(expected_pieces, game.get_pieces());
}

#[test]
fn move_left_stops_at_game_edge() {
    let pieces_to_drop = vec![
        Piece { row: 0, col: 0, color: Color::Red },
    ];

    let expected_pieces = vec![
        Piece { row: 0, col: 0, color: Color::Red },
    ];

    let mut game = Game::new(
        HEIGHT,
        WIDTH,
        PieceGenerator::Exact(pieces_to_drop),
    );

    game.move_piece(MoveDirection::Left);

    assert_eq!(expected_pieces, game.get_pieces());
}

#[test]
fn drop_piece_empty_board() {
    let pieces_to_drop = vec![
        Piece { row: 0, col: 0, color: Color::Red },
        Piece { row: 0, col: 0, color: Color::Yellow },
    ];

    let expected_pieces = vec![
        Piece { row: HEIGHT - 1, col: 0, color: Color::Red },
        Piece { row: 0, col: 0, color: Color::Yellow },
    ];

    let mut game = Game::new(
        HEIGHT,
        WIDTH,
        PieceGenerator::Exact(pieces_to_drop),
    );

    game.drop_piece();

    assert_eq!(expected_pieces, game.get_pieces());
}

#[test]
fn drop_piece_on_another_piece() {
    let pieces_to_drop = vec![
        Piece { row: 0, col: 0, color: Color::Yellow },
        Piece { row: 0, col: 0, color: Color::Red },
        Piece { row: 0, col: 0, color: Color::Blue },
    ];

    let mut expected_pieces = vec![
        Piece { row: HEIGHT - 2, col: 0, color: Color::Red },
        Piece { row: HEIGHT - 1, col: 0, color: Color::Yellow },
        Piece { row: 0, col: 0, color: Color::Blue },
    ];

    let mut game = Game::new(
        HEIGHT,
        WIDTH,
        PieceGenerator::Exact(pieces_to_drop),
    );

    game.drop_piece();
    game.drop_piece();

    let mut actual_pieces = game.get_pieces();

    expected_pieces.sort();
    actual_pieces.sort();

    assert_eq!(expected_pieces, actual_pieces);
}

#[test]
fn step_moves_current_piece_down() {
    let pieces_to_drop = vec![
        Piece { row: 0, col: 0, color: Color::Red },
    ];

    let expected_pieces = vec![
        Piece { row: 1, col: 0, color: Color::Red },
    ];

    let mut game = Game::new(
        HEIGHT,
        WIDTH,
        PieceGenerator::Exact(pieces_to_drop),
    );

    game.step();

    assert_eq!(expected_pieces, game.get_pieces());
}

#[test]
fn step_to_bottom_drops_and_creates_new_piece() {
    let pieces_to_drop = vec![
        Piece { row: HEIGHT - 1, col: 0, color: Color::Red },
        Piece { row: 0, col: 0, color: Color::Yellow },
    ];

    let expected_pieces = vec![
        Piece { row: HEIGHT - 1, col: 0, color: Color::Red },
        Piece { row: 0, col: 0, color: Color::Yellow },
    ];

    let mut game = Game::new(
        HEIGHT,
        WIDTH,
        PieceGenerator::Exact(pieces_to_drop),
    );

    game.step();

    assert_eq!(expected_pieces, game.get_pieces());
}

#[test]
fn step_to_other_piece_drops_and_creates_new_piece() {
    let pieces_to_drop = vec![
        Piece { row: 0, col: 0, color: Color::Red },
        Piece { row: HEIGHT - 2, col: 0, color: Color::Yellow },
        Piece { row: 0, col: 0, color: Color::Blue },
    ];

    let mut expected_pieces = vec![
        Piece { row: HEIGHT - 1, col: 0, color: Color::Red },
        Piece { row: HEIGHT - 2, col: 0, color: Color::Yellow },
        Piece { row: 0, col: 0, color: Color::Blue },
    ];

    let mut game = Game::new(
        HEIGHT,
        WIDTH,
        PieceGenerator::Exact(pieces_to_drop),
    );

    game.drop_piece();
    game.step();

    let mut actual_pieces = game.get_pieces();

    expected_pieces.sort();
    actual_pieces.sort();

    assert_eq!(expected_pieces, actual_pieces);
}

#[test]
fn new_game_has_no_rows_cleared() {
    let pieces_to_drop = vec![
        Piece { row: 0, col: 0, color: Color::Red },
    ];

    let game = Game::new(
        HEIGHT,
        WIDTH,
        PieceGenerator::Exact(pieces_to_drop),
    );

    assert_eq!(0, game.num_rows_cleared());
}

#[test]
fn random_generator_stays_in_one_column_range() {
    // A range of one column leaves no choice: were the range bound handed
    // back unchanged, the column would be 1 and out of range.
    let mut generator = PieceGenerator::Random(1);
    for _ in 0..20 {
        let piece = generator.next();
        assert_eq!(0, piece.col());
        assert_eq!(0, piece.row());
    }

    let mut wider = PieceGenerator::Random(3);
    for _ in 0..50 {
        let piece = wider.next();
        assert!(piece.col() < 3);
    }
}

#[test]
fn random_color_is_from_the_palette() {
    for _ in 0..50 {
        let color = Color::rand();
        assert!(matches!(
            color,
            Color::Red | Color::Yellow | Color::Blue | Color::Green | Color::Black
        ));
    }
}

#[test]
fn piece_getters_return_fields() {
    let piece = Piece { row: 5, col: 2, color: Color::Green };
    assert_eq!(5, piece.row());
    assert_eq!(2, piece.col());
    assert_eq!(Color::Green, piece.color());
}
