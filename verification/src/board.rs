use vstd::prelude::*;

use crate::color::Color;
use crate::game::Piece;
use crate::clear_strategy::{start_at, starts_len, ClearStrategy};
use crate::collapse::{
    cleared_at, collapse_spec, erase_spec, gravity_spec, lemma_cleared_at_push,
    lemma_erase_wf, lemma_gravity_settled, lemma_occupied_from_len, occupied_from, settled_cell,
};
use crate::matching::{
    coord_cell, covered_index, dir_matched, dir_matched_upto, is_line_of, lemma_dir_matched_full,
    lemma_dir_matched_upto_step, lemma_dir_matched_upto_zero, lemma_line_bridge,
    lemma_matched_coord_cases, line_matched_upto, matched_piece, window_qualifies,
};

verus! {

/// a precedes or equals b in row-major coordinate order.
pub open spec fn piece_le(a: Piece, b: Piece) -> bool {
    a.row < b.row || (a.row == b.row && a.col <= b.col)
}

/// a strictly precedes b in row-major coordinate order.
pub open spec fn piece_lt(a: Piece, b: Piece) -> bool {
    a.row < b.row || (a.row == b.row && a.col < b.col)
}

pub open spec fn sorted_by_coord(s: Seq<Piece>) -> bool {
    forall|i: int, j: int| 0 <= i < j < s.len() ==> #[trigger] piece_le(s[i], s[j])
}

/// Sorted with no two entries on one coordinate.
pub open spec fn strictly_sorted_by_coord(s: Seq<Piece>) -> bool {
    forall|i: int, j: int| 0 <= i < j < s.len() ==> #[trigger] piece_lt(s[i], s[j])
}

fn piece_coord_le(a: &Piece, b: &Piece) -> (r: bool)
    ensures
        r == piece_le(*a, *b),
{
    a.row < b.row || (a.row == b.row && a.col <= b.col)
}

/// Insertion sort by row-major coordinate order; keeps the multiset of
/// entries, hence also which pieces occur.
fn sort_pieces(v: &mut Vec<Piece>)
    ensures
        sorted_by_coord(final(v)@),
        final(v)@.to_multiset() == old(v)@.to_multiset(),
        forall|p: Piece| final(v)@.contains(p) <==> old(v)@.contains(p),
{
    broadcast use vstd::seq_lib::group_to_multiset_ensures;
    broadcast use vstd::multiset::group_multiset_axioms;
    broadcast use vstd::multiset::group_multiset_properties;

    let n = v.len();
    if n <= 1 {
        return ;
    }
    let mut i: usize = 1;
    while i < n
        invariant
            n == v@.len(),
            1 <= i <= n,
            forall|a: int, b: int| 0 <= a < b < i ==> #[trigger] piece_le(v@[a], v@[b]),
            v@.to_multiset() == old(v)@.to_multiset(),
        decreases n - i,
    {
        let mut j: usize = i;
        while j > 0 && !piece_coord_le(&v[j - 1], &v[j])
            invariant
                n == v@.len(),
                0 <= j <= i < n,
                forall|a: int, b: int|
                    0 <= a < b <= i && b != j ==> #[trigger] piece_le(v@[a], v@[b]),
                v@.to_multiset() == old(v)@.to_multiset(),
            decreases j,
        {
            let x = v[j - 1];
            let y = v[j];
            let ghost before = v@;
            v[j - 1] = y;
            v[j] = x;
            proof {
                let s1 = before.update(j as int - 1, y);
                assert(v@ == s1.update(j as int, x));
                vstd::seq_lib::to_multiset_update(before, j as int - 1, y);
                assert(before[j as int - 1] == x);
                assert(s1.to_multiset() == before.to_multiset().insert(y).remove(x));
                vstd::seq_lib::to_multiset_update(s1, j as int, x);
                assert(s1[j as int] == y);
                assert(v@.to_multiset() == s1.to_multiset().insert(x).remove(y));
                assert(before.contains(x));
                vstd::seq_lib::to_multiset_contains(before, x);
                assert(v@.to_multiset() =~= before.to_multiset());
            }
            j = j - 1;
        }
        proof {
            // The gap closes: either the moved entry reached the front, or it
            // now sits above its predecessor; with transitivity the whole
            // prefix through i is sorted.
            assert forall|a: int, b: int| 0 <= a < b <= i implies #[trigger] piece_le(
                v@[a],
                v@[b],
            ) by {
                if b == j && j > 0 {
                    assert(piece_le(v@[j - 1], v@[j as int]));
                    if a < j - 1 {
                        assert(piece_le(v@[a], v@[j - 1]));
                    }
                }
            }
        }
        i = i + 1;
    }
    proof {
        assert forall|p: Piece| v@.contains(p) <==> old(v)@.contains(p) by {
            vstd::seq_lib::to_multiset_contains(v@, p);
            vstd::seq_lib::to_multiset_contains(old(v)@, p);
        }
    }
}

/// Keeps the first of each run of equal entries; on a sorted list whose
/// coordinates determine its entries this yields a strictly sorted list with
/// the same elements.
fn dedup_pieces(v: &Vec<Piece>) -> (r: Vec<Piece>)
    requires
        sorted_by_coord(v@),
        forall|a: int, b: int|
            0 <= a < v@.len() && 0 <= b < v@.len() && v@[a].row == v@[b].row && v@[a].col
                == v@[b].col ==> v@[a] == v@[b],
    ensures
        strictly_sorted_by_coord(r@),
        forall|p: Piece| r@.contains(p) <==> v@.contains(p),
{
    broadcast use vstd::seq_lib::group_seq_properties;

    let mut r: Vec<Piece> = Vec::new();
    let mut k: usize = 0;
    while k < v.len()
        invariant
            sorted_by_coord(v@),
            forall|a: int, b: int|
                0 <= a < v@.len() && 0 <= b < v@.len() && v@[a].row == v@[b].row && v@[a].col
                    == v@[b].col ==> v@[a] == v@[b],
            k <= v@.len(),
            strictly_sorted_by_coord(r@),
            forall|p: Piece| r@.contains(p) <==> v@.subrange(0, k as int).contains(p),
            k > 0 ==> r@.len() > 0 && r@.last() == v@[k - 1],
            k == 0 ==> r@.len() == 0,
        decreases v@.len() - k,
    {
        let p = v[k];
        let mut push_it = true;
        if r.len() > 0 {
            let last = r[r.len() - 1];
            if last == p {
                push_it = false;
            }
        }
        let ghost r_snap = r@;
        if push_it {
            proof {
                if r_snap.len() > 0 {
                    // The last kept entry is v[k - 1]; it differs from p, and
                    // equal coordinates would force equal entries, so it is
                    // strictly below p. Everything before it is lower still.
                    assert(piece_le(v@[k - 1], v@[k as int]));
                    assert(piece_lt(r_snap.last(), p));
                    assert forall|i: int| 0 <= i < r_snap.len() implies piece_lt(
                        r_snap[i],
                        p,
                    ) by {
                        if i < r_snap.len() - 1 {
                            assert(piece_lt(r_snap[i], r_snap.last()));
                        }
                    }
                }
            }
            r.push(p);
        }
        proof {
            assert(v@.subrange(0, k as int + 1) =~= v@.subrange(0, k as int).push(v@[k as int]));
            if !push_it {
                assert(r_snap.contains(v@[k as int]));
            } else {
                assert(r@ == r_snap.push(v@[k as int]));
            }
            assert forall|p2: Piece| r@.contains(p2) <==> v@.subrange(
                0,
                k as int + 1,
            ).contains(p2) by {
                vstd::seq_lib::lemma_seq_contains_after_push(
                    v@.subrange(0, k as int),
                    v@[k as int],
                    p2,
                );
                if push_it {
                    vstd::seq_lib::lemma_seq_contains_after_push(r_snap, v@[k as int], p2);
                }
            }
        }
        k = k + 1;
    }
    proof {
        assert(v@.subrange(0, v@.len() as int) =~= v@);
    }
    r
}

/// The mathematical model of a board: a sequence of rows, each a sequence of
/// cells, each cell either empty or holding one color. Row 0 is the top row;
/// gravity pulls pieces toward higher row indices.
pub type GridModel = Seq<Seq<Option<Color>>>;

pub open spec fn grid_height(m: GridModel) -> int {
    m.len() as int
}

pub open spec fn grid_width(m: GridModel) -> int {
    if m.len() == 0 {
        0
    } else {
        m[0].len() as int
    }
}

/// Well-formed grids are rectangular with positive dimensions.
pub open spec fn grid_wf(m: GridModel) -> bool {
    &&& grid_height(m) > 0
    &&& grid_width(m) > 0
    &&& forall|r: int| 0 <= r < m.len() ==> (#[trigger] m[r]).len() == grid_width(m)
}

pub open spec fn in_grid(m: GridModel, r: int, c: int) -> bool {
    0 <= r < grid_height(m) && 0 <= c < grid_width(m)
}

/// The lenient read: coordinates outside the grid read as empty.
pub open spec fn cell_at(m: GridModel, r: int, c: int) -> Option<Color> {
    if in_grid(m, r, c) {
        m[r][c]
    } else {
        None
    }
}

/// The grid with one cell replaced.
pub open spec fn grid_set(m: GridModel, r: int, c: int, v: Option<Color>) -> GridModel {
    m.update(r, m[r].update(c, v))
}

/// How one write changes the grid, cell by cell.
pub proof fn lemma_grid_set_cells(m: GridModel, r0: int, c0: int, v: Option<Color>)
    requires
        grid_wf(m),
        0 <= r0 < grid_height(m),
        0 <= c0 < grid_width(m),
    ensures
        grid_wf(grid_set(m, r0, c0, v)),
        grid_height(grid_set(m, r0, c0, v)) == grid_height(m),
        grid_width(grid_set(m, r0, c0, v)) == grid_width(m),
        cell_at(grid_set(m, r0, c0, v), r0, c0) == v,
        forall|r: int, c: int|
            !(r == r0 && c == c0) ==> #[trigger] cell_at(grid_set(m, r0, c0, v), r, c) == cell_at(
                m,
                r,
                c,
            ),
{
    let m2 = grid_set(m, r0, c0, v);
    assert(m2.len() == m.len());
    assert(m2[r0].len() == m[r0].len());
    assert forall|r: int| 0 <= r < m2.len() implies (#[trigger] m2[r]).len() == grid_width(m2) by {
        assert(m[r].len() == grid_width(m));
    }
    assert forall|r: int, c: int|
        !(r == r0 && c == c0) implies #[trigger] cell_at(m2, r, c) == cell_at(m, r, c) by {
        if 0 <= r < grid_height(m) && 0 <= c < grid_width(m) {
            if r == r0 {
                assert(m2[r] == m[r].update(c0, v));
            } else {
                assert(m2[r] == m[r]);
            }
        }
    }
}

pub open spec fn empty_grid(width: int, height: int) -> GridModel {
    Seq::new(height as nat, |r: int| Seq::new(width as nat, |c: int| None::<Color>))
}

/// The occupied cells of row `r`, left of column `upto`, as coordinate-tagged
/// pieces in increasing column order.
pub open spec fn pieces_in_row(m: GridModel, r: int, upto: int) -> Seq<Piece>
    decreases upto,
{
    if upto <= 0 {
        Seq::empty()
    } else {
        pieces_in_row(m, r, upto - 1) + (match cell_at(m, r, upto - 1) {
            Some(color) => seq![Piece { row: r as usize, col: (upto - 1) as usize, color }],
            None => Seq::empty(),
        })
    }
}

/// The occupied cells of the rows above `upto`, in row-major order.
pub open spec fn pieces_up_to(m: GridModel, upto: int) -> Seq<Piece>
    decreases upto,
{
    if upto <= 0 {
        Seq::empty()
    } else {
        pieces_up_to(m, upto - 1) + pieces_in_row(m, upto - 1, grid_width(m))
    }
}

/// Every occupied cell of the grid, in row-major order.
pub open spec fn grid_pieces(m: GridModel) -> Seq<Piece> {
    pieces_up_to(m, grid_height(m))
}

/// `r` is the empty row of column `c` that is closest to the bottom.
pub open spec fn is_lowest_free(m: GridModel, c: int, r: int) -> bool {
    &&& 0 <= r < grid_height(m)
    &&& cell_at(m, r, c) is None
    &&& forall|r2: int| r < r2 < grid_height(m) ==> #[trigger] cell_at(m, r2, c) is Some
}

/// The board: owner of the cell state. Its model is a `GridModel`.
#[derive(Debug, PartialEq, Eq)]
pub struct Board {
    color_matrix: Vec<Vec<Option<Color>>>,
}

impl View for Board {
    type V = GridModel;

    closed spec fn view(&self) -> GridModel {
        Seq::new(self.color_matrix@.len(), |r: int| self.color_matrix@[r]@)
    }
}

impl Board {
    /// A grid of the given dimensions with every cell empty.
    pub fn new(width: usize, height: usize) -> (b: Board)
        requires
            0 < width,
            0 < height,
        ensures
            b@ == empty_grid(width as int, height as int),
            grid_wf(b@),
            grid_height(b@) == height,
            grid_width(b@) == width,
    {
        let mut matrix: Vec<Vec<Option<Color>>> = Vec::new();
        while matrix.len() < height
            invariant
                matrix@.len() <= height,
                forall|r: int| 0 <= r < matrix@.len() ==> (#[trigger] matrix@[r])@ == Seq::new(
                    width as nat,
                    |c: int| None::<Color>,
                ),
            decreases height - matrix.len(),
        {
            let mut row: Vec<Option<Color>> = Vec::new();
            while row.len() < width
                invariant
                    row@.len() <= width,
                    forall|c: int| 0 <= c < row@.len() ==> #[trigger] row@[c] is None,
                decreases width - row.len(),
            {
                row.push(None);
            }
            proof {
                assert(row@ =~= Seq::new(width as nat, |c: int| None::<Color>));
            }
            matrix.push(row);
        }
        let b = Board { color_matrix: matrix };
        proof {
            assert(b@ =~~= empty_grid(width as int, height as int));
        }
        b
    }

    fn height(&self) -> (h: usize)
        ensures
            h as int == grid_height(self@),
    {
        self.color_matrix.len()
    }

    fn width(&self) -> (w: usize)
        requires
            grid_wf(self@),
        ensures
            w as int == grid_width(self@),
    {
        self.color_matrix[0].len()
    }

    /// Writes a color into a cell that must lie within the grid.
    pub fn set(&mut self, row: usize, col: usize, color: Color)
        requires
            grid_wf(old(self)@),
            row < grid_height(old(self)@),
            col < grid_width(old(self)@),
        ensures
            final(self)@ == grid_set(old(self)@, row as int, col as int, Some(color)),
            grid_wf(final(self)@),
    {
        proof {
            assert(row < self.color_matrix@.len());
            assert(self@[row as int] == self.color_matrix@[row as int]@);
            assert(self@[row as int].len() == grid_width(self@));
        }
        self.color_matrix[row][col] = Some(color);
        proof {
            assert(self@ =~~= grid_set(old(self)@, row as int, col as int, Some(color)));
        }
    }

    /// Empties a cell that must lie within the grid.
    fn unset(&mut self, row: usize, col: usize)
        requires
            grid_wf(old(self)@),
            row < grid_height(old(self)@),
            col < grid_width(old(self)@),
        ensures
            final(self)@ == grid_set(old(self)@, row as int, col as int, None),
            grid_wf(final(self)@),
    {
        proof {
            assert(row < self.color_matrix@.len());
            assert(self@[row as int] == self.color_matrix@[row as int]@);
            assert(self@[row as int].len() == grid_width(self@));
        }
        self.color_matrix[row][col] = None;
        proof {
            assert(self@ =~~= grid_set(old(self)@, row as int, col as int, None));
        }
    }

    /// The lenient read: any coordinate outside the grid reads as empty.
    pub fn get(&self, row: usize, col: usize) -> (r: Option<Color>)
        requires
            grid_wf(self@),
        ensures
            r == cell_at(self@, row as int, col as int),
    {
        if row < self.color_matrix.len() {
            let cells = &self.color_matrix[row];
            if col < cells.len() {
                cells[col]
            } else {
                None
            }
        } else {
            None
        }
    }

    /// A snapshot of every occupied cell, in row-major order.
    pub fn get_pieces(&self) -> (r: Vec<Piece>)
        requires
            grid_wf(self@),
        ensures
            r@ == grid_pieces(self@),
    {
        let height = self.height();
        let width = self.width();
        let mut pieces: Vec<Piece> = Vec::new();
        let mut row: usize = 0;
        while row < height
            invariant
                grid_wf(self@),
                height as int == grid_height(self@),
                width as int == grid_width(self@),
                row <= height,
                pieces@ == pieces_up_to(self@, row as int),
            decreases height - row,
        {
            let mut col: usize = 0;
            proof {
                assert(pieces@ =~= pieces_up_to(self@, row as int) + pieces_in_row(
                    self@,
                    row as int,
                    0,
                ));
            }
            while col < width
                invariant
                    grid_wf(self@),
                    height as int == grid_height(self@),
                    width as int == grid_width(self@),
                    row < height,
                    col <= width,
                    pieces@ == pieces_up_to(self@, row as int) + pieces_in_row(
                        self@,
                        row as int,
                        col as int,
                    ),
                decreases width - col,
            {
                match self.get(row, col) {
                    Some(color) => {
                        pieces.push(Piece { row, col, color });
                    },
                    None => {},
                }
                proof {
                    assert(pieces@ =~= pieces_up_to(self@, row as int) + pieces_in_row(
                        self@,
                        row as int,
                        col as int + 1,
                    ));
                }
                col = col + 1;
            }
            row = row + 1;
        }
        proof {
            assert(pieces@ =~= grid_pieces(self@));
        }
        pieces
    }

    /// The empty row of `col` closest to the bottom; the column must have one.
    pub fn get_lowest_free_row_in_col(&self, col: usize) -> (r: usize)
        requires
            grid_wf(self@),
            col < grid_width(self@),
            exists|r2: int|
                0 <= r2 < grid_height(self@) && cell_at(self@, r2, col as int) is None,
        ensures
            is_lowest_free(self@, col as int, r as int),
    {
        let height = self.height();
        let mut row: usize = height - 1;
        while self.get(row, col).is_some()
            invariant
                grid_wf(self@),
                col < grid_width(self@),
                row < grid_height(self@),
                forall|r2: int|
                    row < r2 < grid_height(self@) ==> #[trigger] cell_at(self@, r2, col as int)
                        is Some,
                exists|r2: int| 0 <= r2 <= row && cell_at(self@, r2, col as int) is None,
            decreases row,
        {
            row = row - 1;
        }
        row
    }

    /// Whether the four coordinate-list entries starting at entry j address
    /// occupied cells of one shared color.
    fn window_qualifies_at(&self, cs: &Vec<(usize, usize)>, j: usize) -> (b: bool)
        requires
            grid_wf(self@),
            j + 4 <= cs@.len(),
        ensures
            b == window_qualifies(self@, cs@, j as int),
    {
        let n = cs.len();
        proof {
            assert(j + 4 <= n);
        }
        let q0 = cs[j];
        let first = self.get(q0.0, q0.1);
        match first {
            None => {
                assert(!window_qualifies(self@, cs@, j as int));
                false
            },
            Some(color0) => {
                let mut t: usize = j + 1;
                while t < j + 4
                    invariant
                        grid_wf(self@),
                        n == cs@.len(),
                        j + 4 <= cs@.len(),
                        j < t <= j + 4,
                        coord_cell(self@, cs@[j as int]) == Some(color0),
                        forall|t2: int|
                            j <= t2 < t ==> #[trigger] coord_cell(self@, cs@[t2]) == coord_cell(
                                self@,
                                cs@[j as int],
                            ),
                    decreases j + 4 - t,
                {
                    let q = cs[t];
                    match self.get(q.0, q.1) {
                        Some(color) => {
                            if color != color0 {
                                assert(coord_cell(self@, cs@[t as int]) != coord_cell(
                                    self@,
                                    cs@[j as int],
                                ));
                                return false;
                            }
                        },
                        None => {
                            assert(coord_cell(self@, cs@[t as int]) != coord_cell(
                                self@,
                                cs@[j as int],
                            ));
                            return false;
                        },
                    }
                    t = t + 1;
                }
                true
            },
        }
    }

    /// Within one line's coordinate list, every entry covered by a window of
    /// four same-colored occupied cells, as coordinate-tagged pieces in line
    /// order.
    fn get_sequential_pieces(&self, coordinates: Vec<(usize, usize)>) -> (r: Vec<Piece>)
        requires
            grid_wf(self@),
        ensures
            forall|p: Piece|
                r@.contains(p) <==> line_matched_upto(
                    self@,
                    coordinates@,
                    coordinates@.len() as int,
                    p,
                ),
    {
        broadcast use vstd::seq_lib::group_seq_properties;

        let len = coordinates.len();
        let mut r: Vec<Piece> = Vec::new();
        let mut k: usize = 0;
        while k < len
            invariant
                grid_wf(self@),
                len == coordinates@.len(),
                k <= len,
                forall|p: Piece|
                    r@.contains(p) <==> line_matched_upto(self@, coordinates@, k as int, p),
            decreases len - k,
        {
            let mut covered = false;
            let j_lo: usize = if k >= 3 {
                k - 3
            } else {
                0
            };
            let mut j: usize = j_lo;
            while j <= k
                invariant
                    grid_wf(self@),
                    len == coordinates@.len(),
                    k < len,
                    j_lo <= j <= k + 1,
                    k >= 3 ==> j_lo == k - 3,
                    k < 3 ==> j_lo == 0,
                    covered <==> (exists|j2: int|
                        j_lo <= j2 < j && #[trigger] window_qualifies(self@, coordinates@, j2)),
                decreases k + 1 - j,
            {
                if len >= 4 && j <= len - 4 {
                    let q = self.window_qualifies_at(&coordinates, j);
                    covered = covered || q;
                } else {
                    proof {
                        assert(!window_qualifies(self@, coordinates@, j as int));
                    }
                }
                j = j + 1;
            }
            proof {
                if covered {
                    let j2 = choose|j2: int|
                        j_lo <= j2 < j && #[trigger] window_qualifies(self@, coordinates@, j2);
                    assert(j2 <= k < j2 + 4);
                    assert(covered_index(self@, coordinates@, k as int));
                }
                if covered_index(self@, coordinates@, k as int) {
                    let j2 = choose|j2: int|
                        j2 <= k < j2 + 4 && #[trigger] window_qualifies(self@, coordinates@, j2);
                    assert(j_lo <= j2 < j);
                    assert(covered);
                }
            }
            let ghost r_snap = r@;
            if covered {
                let q = coordinates[k];
                proof {
                    let j2 = choose|j2: int|
                        j2 <= (k as int) < j2 + 4 && #[trigger] window_qualifies(
                            self@,
                            coordinates@,
                            j2,
                        );
                    assert(coord_cell(self@, coordinates@[k as int]) == coord_cell(
                        self@,
                        coordinates@[j2],
                    ));
                }
                match self.get(q.0, q.1) {
                    Some(color) => {
                        r.push(Piece { row: q.0, col: q.1, color });
                        proof {
                            let p0 = Piece { row: q.0, col: q.1, color };
                            assert forall|p: Piece|
                                r@.contains(p) <==> line_matched_upto(
                                    self@,
                                    coordinates@,
                                    k as int + 1,
                                    p,
                                ) by {
                                vstd::seq_lib::lemma_seq_contains_after_push(r_snap, p0, p);
                                if p == p0 {
                                    assert(covered_index(self@, coordinates@, k as int));
                                    assert(p.row == coordinates@[k as int].0);
                                    assert(p.col == coordinates@[k as int].1);
                                    assert(coord_cell(self@, coordinates@[k as int]) == Some(
                                        p.color,
                                    ));
                                    assert(line_matched_upto(
                                        self@,
                                        coordinates@,
                                        k as int + 1,
                                        p,
                                    ));
                                }
                                if line_matched_upto(self@, coordinates@, k as int + 1, p) {
                                    let k2 = choose|k2: int|
                                        0 <= k2 < k as int + 1 && #[trigger] covered_index(
                                            self@,
                                            coordinates@,
                                            k2,
                                        ) && p.row == coordinates@[k2].0 && p.col
                                            == coordinates@[k2].1 && coord_cell(
                                            self@,
                                            coordinates@[k2],
                                        ) == Some(p.color);
                                    if k2 == k as int {
                                        assert(p == p0);
                                    }
                                }
                            }
                        }
                    },
                    None => {
                        proof {
                            assert(false);
                        }
                    },
                }
            } else {
                proof {
                    assert forall|p: Piece|
                        r@.contains(p) <==> line_matched_upto(
                            self@,
                            coordinates@,
                            k as int + 1,
                            p,
                        ) by {
                        if line_matched_upto(self@, coordinates@, k as int + 1, p) {
                            let k2 = choose|k2: int|
                                0 <= k2 < k as int + 1 && #[trigger] covered_index(
                                    self@,
                                    coordinates@,
                                    k2,
                                ) && p.row == coordinates@[k2].0 && p.col == coordinates@[k2].1
                                    && coord_cell(self@, coordinates@[k2]) == Some(p.color);
                            assert(k2 < k as int);
                        }
                    }
                }
            }
            k = k + 1;
        }
        r
    }

    /// Every cell covered by a straight window of four same-colored occupied
    /// cells, in any of the four directions: the deduplicated union over all
    /// enumerated lines, in strict row-major order, each cell tagged with its
    /// color.
    pub fn get_pieces_to_clear(&self) -> (r: Vec<Piece>)
        requires
            grid_wf(self@),
        ensures
            strictly_sorted_by_coord(r@),
            forall|p: Piece| r@.contains(p) <==> matched_piece(self@, p),
    {
        let height = self.height();
        let width = self.width();
        let mut strategies: Vec<ClearStrategy> = Vec::new();
        strategies.push(ClearStrategy::Vertical);
        strategies.push(ClearStrategy::Horizontal);
        strategies.push(ClearStrategy::DiagonalUp);
        strategies.push(ClearStrategy::DiagonalDown);
        let mut pieces: Vec<Piece> = Vec::new();
        let mut si: usize = 0;
        while si < 4
            invariant
                grid_wf(self@),
                height as int == grid_height(self@),
                width as int == grid_width(self@),
                strategies@.len() == 4,
                strategies@[0] == ClearStrategy::Vertical,
                strategies@[1] == ClearStrategy::Horizontal,
                strategies@[2] == ClearStrategy::DiagonalUp,
                strategies@[3] == ClearStrategy::DiagonalDown,
                si <= 4,
                forall|p: Piece|
                    pieces@.contains(p) <==> (cell_at(self@, p.row as int, p.col as int) == Some(
                        p.color,
                    ) && (exists|di: int|
                        0 <= di < si && #[trigger] dir_matched(
                            self@,
                            strategies@[di],
                            p.row as int,
                            p.col as int,
                        ))),
            decreases 4 - si,
        {
            let strat = strategies[si];
            let starts = strat.get_starting_points(height, width);
            proof {
                assert forall|p: Piece|
                    pieces@.contains(p) <==> (cell_at(self@, p.row as int, p.col as int) == Some(
                        p.color,
                    ) && ((exists|di: int|
                        0 <= di < si && #[trigger] dir_matched(
                            self@,
                            strategies@[di],
                            p.row as int,
                            p.col as int,
                        )) || dir_matched_upto(self@, strat, 0, p))) by {
                    lemma_dir_matched_upto_zero(self@, strat, p);
                }
            }
            let mut pi: usize = 0;
            while pi < starts.len()
                invariant
                    grid_wf(self@),
                    height as int == grid_height(self@),
                    width as int == grid_width(self@),
                    strategies@.len() == 4,
                    si < 4,
                    strat == strategies@[si as int],
                    pi <= starts@.len(),
                    starts@.len() == starts_len(strat, height as int, width as int),
                    forall|j: int|
                        0 <= j < starts@.len() ==> (#[trigger] starts@[j]).0 as int == start_at(
                            strat,
                            j,
                            height as int,
                            width as int,
                        ).0 && starts@[j].1 as int == start_at(
                            strat,
                            j,
                            height as int,
                            width as int,
                        ).1 && starts@[j].0 < height && starts@[j].1 < width,
                    forall|p: Piece|
                        pieces@.contains(p) <==> (cell_at(self@, p.row as int, p.col as int)
                            == Some(p.color) && ((exists|di: int|
                            0 <= di < si && #[trigger] dir_matched(
                                self@,
                                strategies@[di],
                                p.row as int,
                                p.col as int,
                            )) || dir_matched_upto(self@, strat, pi as int, p))),
                decreases starts@.len() - pi,
            {
                let s = starts[pi];
                let pts = strat.line_points(s.0, s.1, height, width);
                let ghost pts_view = pts@;
                let new_pieces = self.get_sequential_pieces(pts);
                let ghost pieces_snap = pieces@;
                let mut q: usize = 0;
                while q < new_pieces.len()
                    invariant
                        q <= new_pieces@.len(),
                        pieces@ == pieces_snap + new_pieces@.subrange(0, q as int),
                    decreases new_pieces@.len() - q,
                {
                    let np = new_pieces[q];
                    pieces.push(np);
                    proof {
                        assert(pieces@ =~= pieces_snap + new_pieces@.subrange(0, q as int + 1));
                    }
                    q = q + 1;
                }
                proof {
                    assert(new_pieces@.subrange(0, new_pieces@.len() as int) =~= new_pieces@);
                    let sr = s.0 as int;
                    let sc = s.1 as int;
                    assert((sr, sc) == start_at(strat, pi as int, height as int, width as int));
                    assert(is_line_of(self@, strat, sr, sc, pts_view));
                    assert forall|p: Piece|
                        pieces@.contains(p) <==> (cell_at(self@, p.row as int, p.col as int)
                            == Some(p.color) && ((exists|di: int|
                            0 <= di < si && #[trigger] dir_matched(
                                self@,
                                strategies@[di],
                                p.row as int,
                                p.col as int,
                            )) || dir_matched_upto(self@, strat, pi as int + 1, p))) by {
                        vstd::seq_lib::lemma_seq_concat_contains_all_elements(
                            pieces_snap,
                            new_pieces@,
                            p,
                        );
                        lemma_line_bridge(self@, strat, sr, sc, pts_view, p);
                        lemma_dir_matched_upto_step(self@, strat, pi as int, p);
                    }
                }
                pi = pi + 1;
            }
            proof {
                assert forall|p: Piece|
                    pieces@.contains(p) <==> (cell_at(self@, p.row as int, p.col as int) == Some(
                        p.color,
                    ) && (exists|di: int|
                        0 <= di < si + 1 && #[trigger] dir_matched(
                            self@,
                            strategies@[di],
                            p.row as int,
                            p.col as int,
                        ))) by {
                    lemma_dir_matched_full(self@, strat, p);
                    if pieces@.contains(p) {
                        if exists|di: int|
                            0 <= di < si && #[trigger] dir_matched(
                                self@,
                                strategies@[di],
                                p.row as int,
                                p.col as int,
                            ) {
                            let di = choose|di: int|
                                0 <= di < si && #[trigger] dir_matched(
                                    self@,
                                    strategies@[di],
                                    p.row as int,
                                    p.col as int,
                                );
                            assert(dir_matched(
                                self@,
                                strategies@[di],
                                p.row as int,
                                p.col as int,
                            ));
                        } else {
                            assert(dir_matched(
                                self@,
                                strategies@[si as int],
                                p.row as int,
                                p.col as int,
                            ));
                        }
                    }
                    if cell_at(self@, p.row as int, p.col as int) == Some(p.color) && (exists|
                        di: int,
                    |
                        0 <= di < si + 1 && #[trigger] dir_matched(
                            self@,
                            strategies@[di],
                            p.row as int,
                            p.col as int,
                        )) {
                        let di = choose|di: int|
                            0 <= di < si + 1 && #[trigger] dir_matched(
                                self@,
                                strategies@[di],
                                p.row as int,
                                p.col as int,
                            );
                        if di == si {
                            assert(dir_matched_upto(
                                self@,
                                strat,
                                starts_len(strat, height as int, width as int),
                                p,
                            ));
                        }
                    }
                }
            }
            si = si + 1;
        }
        proof {
            assert forall|p: Piece| pieces@.contains(p) <==> matched_piece(self@, p) by {
                lemma_matched_coord_cases(self@, strategies@, p.row as int, p.col as int);
            }
        }
        let mut pieces_sorted = pieces;
        sort_pieces(&mut pieces_sorted);
        proof {
            assert forall|a: int, b: int|
                0 <= a < pieces_sorted@.len() && 0 <= b < pieces_sorted@.len()
                    && pieces_sorted@[a].row == pieces_sorted@[b].row && pieces_sorted@[a].col
                    == pieces_sorted@[b].col implies pieces_sorted@[a] == pieces_sorted@[b] by {
                assert(pieces_sorted@.contains(pieces_sorted@[a]));
                assert(pieces_sorted@.contains(pieces_sorted@[b]));
            }
        }
        let r = dedup_pieces(&pieces_sorted);
        r
    }

    /// Empties every listed cell, then lets each column settle: its remaining
    /// pieces keep their top-to-bottom order and sink to the bottom, with the
    /// empties above them.
    pub fn clear_all(&mut self, pieces: Vec<Piece>)
        requires
            grid_wf(old(self)@),
            forall|k: int|
                0 <= k < pieces@.len() ==> (#[trigger] pieces@[k]).row < grid_height(old(self)@)
                    && pieces@[k].col < grid_width(old(self)@),
        ensures
            final(self)@ == collapse_spec(old(self)@, pieces@),
            grid_wf(final(self)@),
            grid_height(final(self)@) == grid_height(old(self)@),
            grid_width(final(self)@) == grid_width(old(self)@),
    {
        let ghost m0 = old(self)@;
        // Phase one: empty every listed cell.
        let mut k: usize = 0;
        while k < pieces.len()
            invariant
                grid_wf(m0),
                grid_wf(self@),
                grid_height(self@) == grid_height(m0),
                grid_width(self@) == grid_width(m0),
                forall|k2: int|
                    0 <= k2 < pieces@.len() ==> (#[trigger] pieces@[k2]).row < grid_height(m0)
                        && pieces@[k2].col < grid_width(m0),
                k <= pieces@.len(),
                forall|r: int, c: int|
                    #[trigger] cell_at(self@, r, c) == (if cleared_at(
                        pieces@.subrange(0, k as int),
                        r,
                        c,
                    ) {
                        None::<Color>
                    } else {
                        cell_at(m0, r, c)
                    }),
            decreases pieces@.len() - k,
        {
            let p = pieces[k];
            let ghost prev = self@;
            self.unset(p.row, p.col);
            proof {
                lemma_grid_set_cells(prev, p.row as int, p.col as int, None);
                assert(pieces@.subrange(0, k as int + 1) =~= pieces@.subrange(0, k as int).push(
                    pieces@[k as int],
                ));
                assert forall|r: int, c: int|
                    #[trigger] cell_at(self@, r, c) == (if cleared_at(
                        pieces@.subrange(0, k as int + 1),
                        r,
                        c,
                    ) {
                        None::<Color>
                    } else {
                        cell_at(m0, r, c)
                    }) by {
                    lemma_cleared_at_push(
                        pieces@.subrange(0, k as int),
                        pieces@[k as int],
                        r,
                        c,
                    );
                }
            }
            k = k + 1;
        }
        proof {
            assert(pieces@.subrange(0, pieces@.len() as int) =~= pieces@);
            lemma_erase_wf(m0, pieces@);
            assert forall|r: int, c: int|
                0 <= r < grid_height(m0) && 0 <= c < grid_width(m0) implies self@[r][c]
                == erase_spec(m0, pieces@)[r][c] by {
                assert(cell_at(self@, r, c) == self@[r][c]);
            }
            assert(self@ =~~= erase_spec(m0, pieces@));
        }
        // Phase two: settle every column independently.
        let ghost m1 = self@;
        let height = self.height();
        let width = self.width();
        let mut col: usize = 0;
        while col < width
            invariant
                grid_wf(m1),
                height as int == grid_height(m1),
                width as int == grid_width(m1),
                grid_wf(self@),
                grid_height(self@) == grid_height(m1),
                grid_width(self@) == grid_width(m1),
                col <= width,
                forall|r: int, c: int|
                    0 <= r < height && 0 <= c < col ==> #[trigger] cell_at(self@, r, c)
                        == settled_cell(m1, r, c),
                forall|r: int, c: int|
                    0 <= r < height && col <= c < width ==> #[trigger] cell_at(self@, r, c)
                        == cell_at(m1, r, c),
            decreases width - col,
        {
            let mut write: usize = height;
            let mut row: usize = height;
            while row > 0
                invariant
                    grid_wf(m1),
                    height as int == grid_height(m1),
                    width as int == grid_width(m1),
                    grid_wf(self@),
                    grid_height(self@) == grid_height(m1),
                    grid_width(self@) == grid_width(m1),
                    col < width,
                    row <= write <= height,
                    write as int == height - occupied_from(m1, col as int, row as int).len(),
                    forall|r: int|
                        0 <= r < row ==> #[trigger] cell_at(self@, r, col as int) == cell_at(
                            m1,
                            r,
                            col as int,
                        ),
                    forall|t: int|
                        write <= t < height ==> #[trigger] cell_at(self@, t, col as int) == Some(
                            occupied_from(m1, col as int, row as int)[t - write],
                        ),
                    forall|r: int, c: int|
                        0 <= r < height && 0 <= c < col ==> #[trigger] cell_at(self@, r, c)
                            == settled_cell(m1, r, c),
                    forall|r: int, c: int|
                        0 <= r < height && col < c < width ==> #[trigger] cell_at(self@, r, c)
                            == cell_at(m1, r, c),
                decreases row,
            {
                row = row - 1;
                proof {
                    lemma_occupied_from_len(m1, col as int, row as int + 1);
                }
                match self.get(row, col) {
                    Some(color) => {
                        write = write - 1;
                        let ghost prev = self@;
                        self.set(write, col, color);
                        proof {
                            lemma_grid_set_cells(prev, write as int, col as int, Some(color));
                            let s = occupied_from(m1, col as int, row as int);
                            let rest = occupied_from(m1, col as int, row as int + 1);
                            assert(s == seq![color] + rest);
                            assert(s[0] == color);
                            assert forall|t: int| write <= t < height implies #[trigger] cell_at(
                                self@,
                                t,
                                col as int,
                            ) == Some(s[t - write]) by {
                                if t > write {
                                    assert(s[t - write] == rest[t - (write + 1)]);
                                    assert(cell_at(prev, t, col as int) == Some(
                                        rest[t - (write + 1)],
                                    ));
                                }
                            }
                        }
                    },
                    None => {
                        proof {
                            assert(occupied_from(m1, col as int, row as int) == occupied_from(
                                m1,
                                col as int,
                                row as int + 1,
                            ));
                        }
                    },
                }
            }
            // The column's occupied cells now sit at the bottom; empty the rest.
            let mut r2: usize = 0;
            while r2 < write
                invariant
                    grid_wf(m1),
                    height as int == grid_height(m1),
                    width as int == grid_width(m1),
                    grid_wf(self@),
                    grid_height(self@) == grid_height(m1),
                    grid_width(self@) == grid_width(m1),
                    col < width,
                    r2 <= write <= height,
                    write as int == height - occupied_from(m1, col as int, 0).len(),
                    forall|r: int| 0 <= r < r2 ==> #[trigger] cell_at(self@, r, col as int) is None,
                    forall|t: int|
                        write <= t < height ==> #[trigger] cell_at(self@, t, col as int) == Some(
                            occupied_from(m1, col as int, 0)[t - write],
                        ),
                    forall|r: int, c: int|
                        0 <= r < height && 0 <= c < col ==> #[trigger] cell_at(self@, r, c)
                            == settled_cell(m1, r, c),
                    forall|r: int, c: int|
                        0 <= r < height && col < c < width ==> #[trigger] cell_at(self@, r, c)
                            == cell_at(m1, r, c),
                decreases write - r2,
            {
                let ghost prev = self@;
                self.unset(r2, col);
                proof {
                    lemma_grid_set_cells(prev, r2 as int, col as int, None);
                }
                r2 = r2 + 1;
            }
            proof {
                assert forall|r: int| 0 <= r < height implies #[trigger] cell_at(
                    self@,
                    r,
                    col as int,
                ) == settled_cell(m1, r, col as int) by {
                    let s0 = occupied_from(m1, col as int, 0);
                    if r >= write {
                        assert(cell_at(self@, r, col as int) == Some(s0[r - write]));
                    }
                }
            }
            col = col + 1;
        }
        proof {
            lemma_gravity_settled(m1);
            assert forall|r: int, c: int|
                0 <= r < grid_height(m1) && 0 <= c < grid_width(m1) implies self@[r][c]
                == gravity_spec(m1)[r][c] by {
                assert(cell_at(self@, r, c) == settled_cell(m1, r, c));
            }
            assert(self@ =~~= gravity_spec(m1));
        }
    }
}

} // verus!
