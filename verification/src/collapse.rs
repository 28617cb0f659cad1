use vstd::prelude::*;

use crate::board::{
    cell_at, grid_height, grid_set, grid_width, grid_wf, is_lowest_free, GridModel,
};
use crate::color::Color;
use crate::game::Piece;
use crate::matching::{lemma_matched_cell_occupied, matched_coord, matched_piece};

verus! {

/// Some piece of the list names cell (r, c).
pub open spec fn cleared_at(ps: Seq<Piece>, r: int, c: int) -> bool {
    exists|k: int| 0 <= k < ps.len() && (#[trigger] ps[k]).row == r && ps[k].col == c
}

/// The grid with every listed cell emptied.
pub open spec fn erase_spec(m: GridModel, ps: Seq<Piece>) -> GridModel {
    Seq::new(
        m.len(),
        |r: int|
            Seq::new(
                grid_width(m) as nat,
                |c: int|
                    if cleared_at(ps, r, c) {
                        None
                    } else {
                        m[r][c]
                    },
            ),
    )
}

/// The colors of the occupied cells of column c from row `from` downward,
/// in top-to-bottom order.
pub open spec fn occupied_from(m: GridModel, c: int, from: int) -> Seq<Color>
    decreases grid_height(m) - from,
{
    if from < 0 || from >= grid_height(m) {
        Seq::empty()
    } else {
        let rest = occupied_from(m, c, from + 1);
        match cell_at(m, from, c) {
            Some(color) => seq![color] + rest,
            None => rest,
        }
    }
}

/// Cell (r, c) after its column settles: the column's occupied cells keep
/// their relative order and sink to the bottom, with empties above them.
pub open spec fn settled_cell(m: GridModel, r: int, c: int) -> Option<Color> {
    let surv = occupied_from(m, c, 0);
    if grid_height(m) - surv.len() <= r < grid_height(m) {
        Some(surv[r - (grid_height(m) - surv.len())])
    } else {
        None
    }
}

/// The grid after gravity: every column settled independently.
pub open spec fn gravity_spec(m: GridModel) -> GridModel {
    Seq::new(m.len(), |r: int| Seq::new(grid_width(m) as nat, |c: int| settled_cell(m, r, c)))
}

/// The clear-and-collapse transformation: empty the listed cells, then let
/// every column settle under gravity.
pub open spec fn collapse_spec(m: GridModel, ps: Seq<Piece>) -> GridModel {
    gravity_spec(erase_spec(m, ps))
}

/// The grid with every matched cell emptied.
pub open spec fn erase_matched_spec(m: GridModel) -> GridModel {
    Seq::new(
        m.len(),
        |r: int|
            Seq::new(
                grid_width(m) as nat,
                |c: int|
                    if matched_coord(m, r, c) {
                        None
                    } else {
                        m[r][c]
                    },
            ),
    )
}

/// Clear-and-collapse applied to exactly the matched cells.
pub open spec fn collapse_matched_spec(m: GridModel) -> GridModel {
    gravity_spec(erase_matched_spec(m))
}

/// Erasing a list that holds exactly the matched pieces erases exactly the
/// matched cells.
pub proof fn lemma_erase_matched(m: GridModel, ps: Seq<Piece>)
    requires
        grid_wf(m),
        grid_height(m) <= usize::MAX,
        grid_width(m) <= usize::MAX,
        forall|p: Piece| ps.contains(p) <==> matched_piece(m, p),
    ensures
        erase_spec(m, ps) == erase_matched_spec(m),
{
    assert forall|r: int, c: int|
        0 <= r < grid_height(m) && 0 <= c < grid_width(m) implies (cleared_at(ps, r, c)
        <==> matched_coord(m, r, c)) by {
        if cleared_at(ps, r, c) {
            let k = choose|k: int|
                0 <= k < ps.len() && (#[trigger] ps[k]).row == r && ps[k].col == c;
            assert(ps.contains(ps[k]));
        }
        if matched_coord(m, r, c) {
            lemma_matched_cell_occupied(m, r, c);
            let color = cell_at(m, r, c)->0;
            let p = Piece { row: r as usize, col: c as usize, color };
            assert(cell_at(m, r, c) == Some(color));
            assert(matched_piece(m, p));
            assert(ps.contains(p));
            let k = choose|k: int| 0 <= k < ps.len() && ps[k] == p;
            assert((ps[k]).row == r && ps[k].col == c);
            assert(cleared_at(ps, r, c));
        }
    }
    assert(erase_spec(m, ps) =~~= erase_matched_spec(m));
}

/// No occupied cell sits directly above an empty one.
pub open spec fn settled(m: GridModel) -> bool {
    forall|r: int, c: int|
        0 < r < grid_height(m) && 0 <= c < grid_width(m) && #[trigger] cell_at(m, r, c) is None
            ==> cell_at(m, r - 1, c) is None
}

/// A column holds no more occupied cells than it has rows.
pub proof fn lemma_occupied_from_len(m: GridModel, c: int, from: int)
    requires
        0 <= from <= grid_height(m),
    ensures
        occupied_from(m, c, from).len() <= grid_height(m) - from,
    decreases grid_height(m) - from,
{
    if from < grid_height(m) {
        lemma_occupied_from_len(m, c, from + 1);
    }
}

/// In a settled grid a column's occupied cells are exactly its bottom rows,
/// and `occupied_from` lists their colors in place.
pub proof fn lemma_settled_column(m: GridModel, c: int, from: int)
    requires
        grid_wf(m),
        settled(m),
        0 <= c < grid_width(m),
        0 <= from <= grid_height(m),
    ensures
        occupied_from(m, c, from).len() <= grid_height(m) - from,
        forall|r: int|
            from <= r < grid_height(m) ==> (#[trigger] cell_at(m, r, c) is Some <==> r
                >= grid_height(m) - occupied_from(m, c, from).len()),
        forall|r: int|
            from <= r < grid_height(m) && r >= grid_height(m) - occupied_from(m, c, from).len()
                ==> #[trigger] cell_at(m, r, c) == Some(
                occupied_from(m, c, from)[r - (grid_height(m) - occupied_from(m, c, from).len())],
            ),
    decreases grid_height(m) - from,
{
    let h = grid_height(m);
    lemma_occupied_from_len(m, c, from);
    if from < h {
        lemma_settled_column(m, c, from + 1);
        let rest = occupied_from(m, c, from + 1);
        let s = occupied_from(m, c, from);
        match cell_at(m, from, c) {
            Some(color) => {
                if from + 1 < h {
                    // A settled column cannot hold an empty cell below an
                    // occupied one, so everything below `from` is occupied.
                    assert(cell_at(m, from + 1, c) is Some ==> from + 1 >= h - rest.len());
                    if cell_at(m, from + 1, c) is None {
                        assert(cell_at(m, from, c) is None);
                    }
                    assert(rest.len() == h - from - 1);
                } else {
                    assert(rest.len() == 0);
                }
                assert(s == seq![color] + rest);
                assert(s.len() == h - from);
                assert forall|r: int| from <= r < h implies (#[trigger] cell_at(m, r, c) is Some
                    <==> r >= h - s.len()) && (r >= h - s.len() ==> cell_at(m, r, c) == Some(
                    s[r - (h - s.len())],
                )) by {
                    if r == from {
                        assert(s[0] == color);
                    } else {
                        assert(cell_at(m, r, c) is Some <==> r >= h - rest.len());
                        if r >= h - rest.len() {
                            assert(s[r - (h - s.len())] == rest[r - (h - rest.len())]);
                        }
                    }
                }
            },
            None => {
                assert(s == rest);
                assert forall|r: int| from <= r < h implies (#[trigger] cell_at(m, r, c) is Some
                    <==> r >= h - s.len()) && (r >= h - s.len() ==> cell_at(m, r, c) == Some(
                    s[r - (h - s.len())],
                )) by {
                    if r > from {
                        assert(cell_at(m, r, c) is Some <==> r >= h - rest.len());
                    }
                }
            },
        }
    }
}

/// One more listed piece clears exactly its own cell in addition.
pub proof fn lemma_cleared_at_push(ps: Seq<Piece>, p: Piece, r: int, c: int)
    ensures
        cleared_at(ps.push(p), r, c) <==> (cleared_at(ps, r, c) || (p.row == r && p.col == c)),
{
    if cleared_at(ps.push(p), r, c) {
        let k = choose|k: int|
            0 <= k < ps.push(p).len() && (#[trigger] ps.push(p)[k]).row == r && ps.push(p)[k].col
                == c;
        if k < ps.len() {
            assert(ps[k] == ps.push(p)[k]);
            assert(cleared_at(ps, r, c));
        }
    }
    if cleared_at(ps, r, c) {
        let k = choose|k: int| 0 <= k < ps.len() && (#[trigger] ps[k]).row == r && ps[k].col == c;
        assert(ps.push(p)[k] == ps[k]);
        assert(cleared_at(ps.push(p), r, c));
    }
    if p.row == r && p.col == c {
        assert(ps.push(p)[ps.len() as int] == p);
        assert(cleared_at(ps.push(p), r, c));
    }
}

/// Erasing an empty list of cells changes nothing.
pub proof fn lemma_erase_empty(m: GridModel)
    requires
        grid_wf(m),
    ensures
        erase_spec(m, Seq::<Piece>::empty()) == m,
{
    assert(erase_spec(m, Seq::<Piece>::empty()) =~~= m);
}

/// Erasing keeps the grid rectangular.
pub proof fn lemma_erase_wf(m: GridModel, ps: Seq<Piece>)
    requires
        grid_wf(m),
    ensures
        grid_wf(erase_spec(m, ps)),
        grid_height(erase_spec(m, ps)) == grid_height(m),
        grid_width(erase_spec(m, ps)) == grid_width(m),
{
}

/// Gravity keeps the grid rectangular and leaves it settled: each column's
/// empties sit above its occupied cells.
pub proof fn lemma_gravity_settled(m: GridModel)
    requires
        grid_wf(m),
    ensures
        grid_wf(gravity_spec(m)),
        grid_height(gravity_spec(m)) == grid_height(m),
        grid_width(gravity_spec(m)) == grid_width(m),
        settled(gravity_spec(m)),
{
    let g = gravity_spec(m);
    assert forall|r: int, c: int|
        0 < r < grid_height(g) && 0 <= c < grid_width(g) && #[trigger] cell_at(g, r, c) is None
            implies cell_at(g, r - 1, c) is None by {
        assert(cell_at(g, r, c) == settled_cell(m, r, c));
        assert(cell_at(g, r - 1, c) == settled_cell(m, r - 1, c));
    }
}

/// On a settled grid gravity changes nothing.
pub proof fn lemma_gravity_settled_noop(m: GridModel)
    requires
        grid_wf(m),
        settled(m),
    ensures
        gravity_spec(m) == m,
{
    assert forall|r: int, c: int|
        0 <= r < grid_height(m) && 0 <= c < grid_width(m) implies settled_cell(m, r, c) == cell_at(
        m,
        r,
        c,
    ) by {
        lemma_settled_column(m, c, 0);
    }
    assert(gravity_spec(m) =~~= m);
}

/// Clearing nothing on a settled grid is a no-op. (On a grid with a floating
/// piece the transformation settles it, so the restriction to settled grids
/// is necessary.)
pub proof fn lemma_collapse_empty_noop(m: GridModel)
    requires
        grid_wf(m),
        settled(m),
    ensures
        collapse_spec(m, Seq::<Piece>::empty()) == m,
{
    lemma_erase_empty(m);
    lemma_gravity_settled_noop(m);
}

/// Clear-and-collapse is idempotent: collapsing its result again, with
/// nothing further to clear, returns the same grid.
pub proof fn lemma_collapse_idempotent(m: GridModel, ps: Seq<Piece>)
    requires
        grid_wf(m),
    ensures
        collapse_spec(collapse_spec(m, ps), Seq::<Piece>::empty()) == collapse_spec(m, ps),
{
    lemma_erase_wf(m, ps);
    lemma_gravity_settled(erase_spec(m, ps));
    lemma_collapse_empty_noop(collapse_spec(m, ps));
}

/// After a piece lands on the lowest free row of a column, any lowest free
/// row that column still has is strictly higher up (a smaller row index).
pub proof fn lemma_drop_raises_lowest_free(m: GridModel, col: int, r0: int, color: Color)
    requires
        grid_wf(m),
        0 <= col < grid_width(m),
        is_lowest_free(m, col, r0),
    ensures
        forall|r: int|
            #[trigger] is_lowest_free(grid_set(m, r0, col, Some(color)), col, r) ==> r < r0,
{
    let m2 = grid_set(m, r0, col, Some(color));
    assert forall|r: int| #[trigger] is_lowest_free(m2, col, r) implies r < r0 by {
        assert(m2.len() == m.len());
        assert(cell_at(m2, r0, col) is Some);
        if r > r0 {
            assert(cell_at(m, r, col) is Some);
            assert(cell_at(m2, r, col) == cell_at(m, r, col));
        }
    }
}

} // verus!
