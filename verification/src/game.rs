use vstd::prelude::*;

use crate::board::{
    cell_at, empty_grid, grid_height, grid_pieces, grid_set, grid_wf, grid_width, is_lowest_free,
    Board, GridModel,
};
use crate::collapse::collapse_matched_spec;
use crate::color::Color;

verus! {

/// A snapshot of one occupied cell: its position and its color. Row 0 is the
/// top of the grid; gravity pulls toward higher row indices.
#[derive(Clone, Copy, Debug, PartialEq, Eq, PartialOrd, Ord, Hash, Structural)]
pub struct Piece {
    pub row: usize,
    pub col: usize,
    pub color: Color,
}

impl Piece {
    pub fn row(&self) -> (r: usize)
        ensures
            r == self.row,
    {
        self.row
    }

    pub fn col(&self) -> (c: usize)
        ensures
            c == self.col,
    {
        self.col
    }

    pub fn color(&self) -> (c: Color)
        ensures
            c == self.color,
    {
        self.color
    }
}

/// A sideways move of the falling piece.
pub enum MoveDirection {
    Left,
    Right,
}

/// Where new falling pieces come from: either a random column and color, or
/// a fixed list handed out front to back.
pub enum PieceGenerator {
    Random(usize),
    Exact(Vec<Piece>),
}

/// How one draw changes a generator and what piece it yields.
pub open spec fn gen_step(g0: PieceGenerator, g1: PieceGenerator, p: Piece) -> bool {
    match g0 {
        PieceGenerator::Random(max_col) => g1 == g0 && p.row == 0 && p.col < max_col,
        PieceGenerator::Exact(ps) => p == ps@[0] && (g1 matches PieceGenerator::Exact(ps2)
            && ps2@ == ps@.subrange(1, ps@.len() as int)),
    }
}

impl PieceGenerator {
    /// The generator can yield one more piece.
    pub open spec fn can_next(&self) -> bool {
        match self {
            PieceGenerator::Random(max_col) => *max_col > 0,
            PieceGenerator::Exact(ps) => ps@.len() > 0,
        }
    }

    /// Every piece the generator will yield lies on a width-by-height grid.
    pub open spec fn fits(&self, width: int, height: int) -> bool {
        match self {
            PieceGenerator::Random(max_col) => *max_col <= width && height > 0,
            PieceGenerator::Exact(ps) => forall|k: int|
                0 <= k < ps@.len() ==> (#[trigger] ps@[k]).row < height && ps@[k].col < width,
        }
    }

    /// The next falling piece: a random column and color, or the front of
    /// the fixed list.
    pub fn next(&mut self) -> (p: Piece)
        requires
            old(self).can_next(),
        ensures
            gen_step(*old(self), *final(self), p),
    {
        match self {
            PieceGenerator::Random(max_col) => {
                let col = crate::rng::random_below(*max_col);
                Piece { row: 0, col, color: Color::rand() }
            },
            PieceGenerator::Exact(ps) => {
                let p = ps.remove(0);
                proof {
                    assert(ps@ =~= old(self)->Exact_0@.subrange(1, old(self)->Exact_0@.len() as int));
                }
                p
            },
        }
    }
}

/// The game: the settled board, the piece now falling, the source of the
/// next pieces, and the count of cleared rows.
pub struct Game {
    current_piece: Piece,
    piece_generator: PieceGenerator,
    board: Board,
    num_rows_cleared: u64,
    width: usize,
    height: usize,
}

impl Game {
    pub closed spec fn board_model(&self) -> GridModel {
        self.board@
    }

    pub closed spec fn current(&self) -> Piece {
        self.current_piece
    }

    pub closed spec fn generator(&self) -> PieceGenerator {
        self.piece_generator
    }

    pub closed spec fn rows_cleared(&self) -> u64 {
        self.num_rows_cleared
    }

    pub closed spec fn game_width(&self) -> int {
        self.width as int
    }

    pub closed spec fn game_height(&self) -> int {
        self.height as int
    }

    /// The game's invariant: the board fills the stated dimensions, the
    /// falling piece is on the grid, and every future piece will be.
    pub open spec fn wf(&self) -> bool {
        &&& grid_wf(self.board_model())
        &&& grid_height(self.board_model()) == self.game_height()
        &&& grid_width(self.board_model()) == self.game_width()
        &&& (self.current().row as int) < self.game_height()
        &&& (self.current().col as int) < self.game_width()
        &&& self.generator().fits(self.game_width(), self.game_height())
    }

    /// How one drop changes the game: the falling piece lands on its
    /// column's lowest free row, matched runs are cleared and the columns
    /// settle, and the next piece is drawn.
    pub open spec fn drop_transition(pre: Game, post: Game) -> bool {
        &&& post.game_width() == pre.game_width()
        &&& post.game_height() == pre.game_height()
        &&& post.rows_cleared() == pre.rows_cleared()
        &&& exists|r0: int|
            #[trigger] is_lowest_free(pre.board_model(), pre.current().col as int, r0)
                && post.board_model() == collapse_matched_spec(
                grid_set(
                    pre.board_model(),
                    r0,
                    pre.current().col as int,
                    Some(pre.current().color),
                ),
            )
        &&& gen_step(pre.generator(), post.generator(), post.current())
    }

    /// A new game over an empty height-by-width board, with the first piece
    /// already drawn.
    pub fn new(height: usize, width: usize, piece_generator: PieceGenerator) -> (g: Game)
        requires
            0 < width,
            0 < height,
            piece_generator.can_next(),
            piece_generator.fits(width as int, height as int),
        ensures
            g.wf(),
            g.board_model() == empty_grid(width as int, height as int),
            g.game_width() == width,
            g.game_height() == height,
            g.rows_cleared() == 0,
            gen_step(piece_generator, g.generator(), g.current()),
    {
        let mut piece_generator = piece_generator;
        let piece = piece_generator.next();
        proof {
            if piece_generator is Exact {
                assert(piece.row < height && piece.col < width);
            }
        }
        Game {
            piece_generator,
            current_piece: piece,
            board: Board::new(width, height),
            num_rows_cleared: 0,
            width,
            height,
        }
    }

    /// Drops the falling piece to its column's lowest free row, clears every
    /// matched run, settles the columns, and draws the next piece.
    pub fn drop_piece(&mut self)
        requires
            old(self).wf(),
            old(self).generator().can_next(),
            exists|r: int|
                0 <= r < grid_height(old(self).board_model()) && cell_at(
                    old(self).board_model(),
                    r,
                    old(self).current().col as int,
                ) is None,
        ensures
            final(self).wf(),
            Game::drop_transition(*old(self), *final(self)),
    {
        let col = self.current_piece.col();
        let color = self.current_piece.color();
        let first_free_row = self.board.get_lowest_free_row_in_col(col);
        self.board.set(first_free_row, col, color);
        let ghost m1 = self.board@;
        let pieces_to_clear = self.board.get_pieces_to_clear();
        proof {
            assert forall|k: int| 0 <= k < pieces_to_clear@.len() implies (
            #[trigger] pieces_to_clear@[k]).row < grid_height(m1)
                && pieces_to_clear@[k].col < grid_width(m1) by {
                assert(pieces_to_clear@.contains(pieces_to_clear@[k]));
                crate::matching::lemma_matched_cell_occupied(
                    m1,
                    pieces_to_clear@[k].row as int,
                    pieces_to_clear@[k].col as int,
                );
            }
        }
        self.board.clear_all(pieces_to_clear);
        proof {
            crate::collapse::lemma_erase_matched(m1, pieces_to_clear@);
        }
        self.current_piece = self.piece_generator.next();
        proof {
            if old(self).generator() is Exact {
                let ps = old(self).generator()->Exact_0@;
                assert(self.current_piece == ps[0]);
            }
        }
    }

    /// Every occupied cell of the board, with the falling piece appended.
    pub fn get_pieces(&self) -> (r: Vec<Piece>)
        requires
            self.wf(),
        ensures
            r@ == grid_pieces(self.board_model()).push(self.current()),
    {
        let mut r = self.board.get_pieces();
        r.push(self.current_piece);
        r
    }

    /// Moves the falling piece one column sideways, stopping at the edges.
    pub fn move_piece(&mut self, direction: MoveDirection)
        requires
            old(self).wf(),
        ensures
            final(self).wf(),
            final(self).board_model() == old(self).board_model(),
            final(self).generator() == old(self).generator(),
            final(self).rows_cleared() == old(self).rows_cleared(),
            final(self).game_width() == old(self).game_width(),
            final(self).game_height() == old(self).game_height(),
            final(self).current().row == old(self).current().row,
            final(self).current().color == old(self).current().color,
            final(self).current().col as int == (match direction {
                MoveDirection::Left => if old(self).current().col > 0 {
                    old(self).current().col - 1
                } else {
                    old(self).current().col as int
                },
                MoveDirection::Right => if old(self).current().col + 1 < old(self).game_width() {
                    old(self).current().col + 1
                } else {
                    old(self).current().col as int
                },
            }),
    {
        let col = self.current_piece.col();
        let new_col = match direction {
            MoveDirection::Left => if col > 0 {
                col - 1
            } else {
                col
            },
            MoveDirection::Right => if col < self.width - 1 {
                col + 1
            } else {
                col
            },
        };
        self.current_piece.col = new_col;
    }

    /// One tick: the piece falls one row if the cell below it is on the grid
    /// and free; otherwise it drops where it is.
    pub fn step(&mut self)
        requires
            old(self).wf(),
            old(self).generator().can_next(),
            !(old(self).current().row + 1 < old(self).game_height() && cell_at(
                old(self).board_model(),
                old(self).current().row + 1,
                old(self).current().col as int,
            ) is None) ==> exists|r: int|
                0 <= r < grid_height(old(self).board_model()) && cell_at(
                    old(self).board_model(),
                    r,
                    old(self).current().col as int,
                ) is None,
        ensures
            final(self).wf(),
            ({
                let can_fall = old(self).current().row + 1 < old(self).game_height() && cell_at(
                    old(self).board_model(),
                    old(self).current().row + 1,
                    old(self).current().col as int,
                ) is None;
                &&& (can_fall ==> final(self).board_model() == old(self).board_model()
                    && final(self).generator() == old(self).generator()
                    && final(self).rows_cleared() == old(self).rows_cleared()
                    && final(self).game_width() == old(self).game_width()
                    && final(self).game_height() == old(self).game_height()
                    && final(self).current() == (Piece {
                    row: (old(self).current().row + 1) as usize,
                    col: old(self).current().col,
                    color: old(self).current().color,
                }))
                &&& (!can_fall ==> Game::drop_transition(*old(self), *final(self)))
            }),
    {
        let row = self.current_piece.row();
        let new_row = row + 1;
        let is_valid_row = new_row < self.height;
        let is_piece_below = is_valid_row && self.board.get(new_row, self.current_piece.col()).is_some();
        if is_valid_row && !is_piece_below {
            self.current_piece = Piece {
                row: new_row,
                col: self.current_piece.col(),
                color: self.current_piece.color(),
            };
        } else {
            self.drop_piece();
        }
    }

    /// The number of rows cleared so far.
    pub fn num_rows_cleared(&self) -> (n: u64)
        ensures
            n == self.rows_cleared(),
    {
        self.num_rows_cleared
    }
}

} // verus!
