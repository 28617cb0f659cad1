use vstd::prelude::*;

use crate::board::{cell_at, grid_height, grid_width, grid_wf, in_grid, GridModel};
use crate::clear_strategy::{
    col_step, lemma_line_point_add, lemma_line_prefix, lemma_start_covers, line_point,
    on_enumerated_line, row_step, start_at, starts_len, ClearStrategy,
};
use crate::color::Color;
use crate::game::Piece;

verus! {

/// The cell under a coordinate pair.
pub open spec fn cell_at_point(m: GridModel, p: (int, int)) -> Option<crate::color::Color> {
    cell_at(m, p.0, p.1)
}

/// `len` consecutive cells from (r, c) along direction d are occupied and all
/// share the color of the first. Out-of-grid coordinates read as empty, so a
/// run lies entirely on the grid.
pub open spec fn is_run(m: GridModel, d: ClearStrategy, r: int, c: int, len: int) -> bool {
    &&& len >= 1
    &&& cell_at(m, r, c) is Some
    &&& forall|i: int|
        0 <= i < len ==> #[trigger] cell_at_point(m, line_point(d, r, c, i)) == cell_at(m, r, c)
}

/// A window: a run of exactly the qualifying length, four.
pub open spec fn window_at(m: GridModel, d: ClearStrategy, r: int, c: int) -> bool {
    is_run(m, d, r, c, 4)
}

/// (r, c) is one of the `len` coordinates of the run starting at (r0, c0).
pub open spec fn run_covers(d: ClearStrategy, r0: int, c0: int, len: int, r: int, c: int) -> bool {
    exists|i: int| 0 <= i < len && #[trigger] line_point(d, r0, c0, i) == (r, c)
}

/// (r, c) is covered by a qualifying window in direction d.
pub open spec fn dir_matched(m: GridModel, d: ClearStrategy, r: int, c: int) -> bool {
    exists|r0: int, c0: int|
        #[trigger] window_at(m, d, r0, c0) && run_covers(d, r0, c0, 4, r, c)
}

/// (r, c) is covered by a qualifying window in some direction.
pub open spec fn matched_coord(m: GridModel, r: int, c: int) -> bool {
    exists|d: ClearStrategy| #[trigger] dir_matched(m, d, r, c)
}

/// p reports a matched cell together with that cell's color.
pub open spec fn matched_piece(m: GridModel, p: Piece) -> bool {
    &&& matched_coord(m, p.row as int, p.col as int)
    &&& cell_at(m, p.row as int, p.col as int) == Some(p.color)
}

/// Every cell of a run carries the run's color; in particular it is occupied
/// and therefore lies on the grid.
pub proof fn lemma_run_cell(m: GridModel, d: ClearStrategy, r0: int, c0: int, len: int, i: int)
    requires
        is_run(m, d, r0, c0, len),
        0 <= i < len,
    ensures
        cell_at_point(m, line_point(d, r0, c0, i)) == cell_at(m, r0, c0),
        cell_at_point(m, line_point(d, r0, c0, i)) is Some,
        in_grid(m, line_point(d, r0, c0, i).0, line_point(d, r0, c0, i).1),
{
    assert(cell_at_point(m, line_point(d, r0, c0, i)) == cell_at(m, r0, c0));
}

/// A matched cell is occupied and lies on the grid.
pub proof fn lemma_matched_cell_occupied(m: GridModel, r: int, c: int)
    requires
        matched_coord(m, r, c),
    ensures
        cell_at(m, r, c) is Some,
        in_grid(m, r, c),
{
    let d = choose|d: ClearStrategy| dir_matched(m, d, r, c);
    let (r0, c0) = choose|r0: int, c0: int|
        #[trigger] window_at(m, d, r0, c0) && run_covers(d, r0, c0, 4, r, c);
    let i = choose|i: int| 0 <= i < 4 && #[trigger] line_point(d, r0, c0, i) == (r, c);
    lemma_run_cell(m, d, r0, c0, 4, i);
}

/// A sub-segment of a run is itself a run.
pub proof fn lemma_sub_run(
    m: GridModel,
    d: ClearStrategy,
    r0: int,
    c0: int,
    len: int,
    j: int,
    sub: int,
)
    requires
        is_run(m, d, r0, c0, len),
        0 <= j,
        1 <= sub,
        j + sub <= len,
    ensures
        is_run(m, d, line_point(d, r0, c0, j).0, line_point(d, r0, c0, j).1, sub),
{
    let pr = line_point(d, r0, c0, j).0;
    let pc = line_point(d, r0, c0, j).1;
    lemma_run_cell(m, d, r0, c0, len, j);
    assert forall|u: int| 0 <= u < sub implies #[trigger] cell_at_point(
        m,
        line_point(d, pr, pc, u),
    ) == cell_at(m, pr, pc) by {
        lemma_line_point_add(d, r0, c0, j, u);
        assert(line_point(d, pr, pc, u) == line_point(d, r0, c0, j + u));
        assert(cell_at_point(m, line_point(d, r0, c0, j + u)) == cell_at(m, r0, c0));
    }
}

/// A cell is matched exactly when it lies on a same-colored straight run of
/// four or more cells: windows of four are runs, and every longer run is
/// covered by its windows.
pub proof fn lemma_matched_iff_long_run(m: GridModel, r: int, c: int)
    ensures
        matched_coord(m, r, c) <==> (exists|d: ClearStrategy, r0: int, c0: int, len: int|
            len >= 4 && #[trigger] is_run(m, d, r0, c0, len) && run_covers(d, r0, c0, len, r, c)),
{
    if matched_coord(m, r, c) {
        let d = choose|d: ClearStrategy| dir_matched(m, d, r, c);
        let (r0, c0) = choose|r0: int, c0: int|
            #[trigger] window_at(m, d, r0, c0) && run_covers(d, r0, c0, 4, r, c);
        assert(is_run(m, d, r0, c0, 4) && run_covers(d, r0, c0, 4, r, c));
    }
    if exists|d: ClearStrategy, r0: int, c0: int, len: int|
        len >= 4 && #[trigger] is_run(m, d, r0, c0, len) && run_covers(d, r0, c0, len, r, c) {
        let (d, r0, c0, len) = choose|d: ClearStrategy, r0: int, c0: int, len: int|
            len >= 4 && #[trigger] is_run(m, d, r0, c0, len) && run_covers(d, r0, c0, len, r, c);
        let i = choose|i: int| 0 <= i < len && #[trigger] line_point(d, r0, c0, i) == (r, c);
        let j = if i <= len - 4 {
            i
        } else {
            len - 4
        };
        lemma_sub_run(m, d, r0, c0, len, j, 4);
        let pr = line_point(d, r0, c0, j).0;
        let pc = line_point(d, r0, c0, j).1;
        lemma_line_point_add(d, r0, c0, j, i - j);
        assert(line_point(d, pr, pc, i - j) == line_point(d, r0, c0, i));
        assert(window_at(m, d, pr, pc) && run_covers(d, pr, pc, 4, r, c));
        assert(dir_matched(m, d, r, c));
    }
}

/// The cell under an executable coordinate pair.
pub open spec fn coord_cell(m: GridModel, q: (usize, usize)) -> Option<Color> {
    cell_at(m, q.0 as int, q.1 as int)
}

/// Four consecutive entries of a coordinate list, starting at entry j,
/// address occupied cells that all share the color of the first.
pub open spec fn window_qualifies(m: GridModel, cs: Seq<(usize, usize)>, j: int) -> bool {
    &&& 0 <= j
    &&& j + 4 <= cs.len()
    &&& coord_cell(m, cs[j]) is Some
    &&& forall|t: int| j <= t < j + 4 ==> #[trigger] coord_cell(m, cs[t]) == coord_cell(m, cs[j])
}

/// Entry k of the coordinate list is covered by some qualifying window.
pub open spec fn covered_index(m: GridModel, cs: Seq<(usize, usize)>, k: int) -> bool {
    exists|j: int| j <= k < j + 4 && #[trigger] window_qualifies(m, cs, j)
}

/// p reports a covered entry among the first n of the coordinate list, with
/// the color that the grid holds there.
pub open spec fn line_matched_upto(
    m: GridModel,
    cs: Seq<(usize, usize)>,
    n: int,
    p: Piece,
) -> bool {
    exists|k: int|
        0 <= k < n && #[trigger] covered_index(m, cs, k) && p.row == cs[k].0 && p.col == cs[k].1
            && coord_cell(m, cs[k]) == Some(p.color)
}

/// The coordinate list is the maximal line of direction d from (sr, sc): its
/// entries walk the line while it stays on the grid, and the next point after
/// the last entry leaves the grid.
pub open spec fn is_line_of(
    m: GridModel,
    d: ClearStrategy,
    sr: int,
    sc: int,
    pts: Seq<(usize, usize)>,
) -> bool {
    &&& pts.len() >= 1
    &&& forall|j: int|
        0 <= j < pts.len() ==> ((#[trigger] pts[j]).0 as int, pts[j].1 as int) == line_point(
            d,
            sr,
            sc,
            j,
        ) && in_grid(m, pts[j].0 as int, pts[j].1 as int)
    &&& !in_grid(
        m,
        line_point(d, sr, sc, pts.len() as int).0,
        line_point(d, sr, sc, pts.len() as int).1,
    )
}

/// (r0, c0) lies somewhere on the line of direction d through (sr, sc).
pub open spec fn on_line(d: ClearStrategy, sr: int, sc: int, r0: int, c0: int) -> bool {
    exists|k: int| 0 <= k && #[trigger] line_point(d, sr, sc, k) == (r0, c0)
}

/// p's cell is covered by a window of direction d whose start lies on the
/// line of d through (sr, sc).
pub open spec fn line_window_matched(
    m: GridModel,
    d: ClearStrategy,
    sr: int,
    sc: int,
    p: Piece,
) -> bool {
    exists|r0: int, c0: int|
        #[trigger] window_at(m, d, r0, c0) && run_covers(d, r0, c0, 4, p.row as int, p.col as int)
            && on_line(d, sr, sc, r0, c0)
}

/// p's cell is covered by a window of direction d whose start lies on one of
/// the direction's first n enumerated lines.
pub open spec fn dir_matched_upto(m: GridModel, d: ClearStrategy, n: int, p: Piece) -> bool {
    exists|r0: int, c0: int|
        #[trigger] window_at(m, d, r0, c0) && run_covers(d, r0, c0, 4, p.row as int, p.col as int)
            && on_enumerated_line(d, grid_height(m), grid_width(m), n, r0, c0)
}

/// Extending the enumeration by one line adds exactly the windows that lie
/// on that line.
pub proof fn lemma_dir_matched_upto_step(m: GridModel, d: ClearStrategy, n: int, p: Piece)
    requires
        n >= 0,
    ensures
        dir_matched_upto(m, d, n + 1, p) <==> (dir_matched_upto(m, d, n, p)
            || line_window_matched(
            m,
            d,
            start_at(d, n, grid_height(m), grid_width(m)).0,
            start_at(d, n, grid_height(m), grid_width(m)).1,
            p,
        )),
{
    let h = grid_height(m);
    let w = grid_width(m);
    let sn = start_at(d, n, h, w);
    if dir_matched_upto(m, d, n + 1, p) {
        let (r0, c0) = choose|r0: int, c0: int|
            #[trigger] window_at(m, d, r0, c0) && run_covers(d, r0, c0, 4, p.row as int, p.col as int)
                && on_enumerated_line(d, h, w, n + 1, r0, c0);
        let (j, k) = choose|j: int, k: int|
            0 <= j < n + 1 && 0 <= k && #[trigger] line_point(
                d,
                start_at(d, j, h, w).0,
                start_at(d, j, h, w).1,
                k,
            ) == (r0, c0);
        if j < n {
            assert(on_enumerated_line(d, h, w, n, r0, c0));
        } else {
            assert(line_point(d, sn.0, sn.1, k) == (r0, c0));
            assert(on_line(d, sn.0, sn.1, r0, c0));
        }
    }
    if dir_matched_upto(m, d, n, p) {
        let (r0, c0) = choose|r0: int, c0: int|
            #[trigger] window_at(m, d, r0, c0) && run_covers(d, r0, c0, 4, p.row as int, p.col as int)
                && on_enumerated_line(d, h, w, n, r0, c0);
        let (j, k) = choose|j: int, k: int|
            0 <= j < n && 0 <= k && #[trigger] line_point(
                d,
                start_at(d, j, h, w).0,
                start_at(d, j, h, w).1,
                k,
            ) == (r0, c0);
        assert(0 <= j < n + 1);
        assert(on_enumerated_line(d, h, w, n + 1, r0, c0));
    }
    if line_window_matched(m, d, sn.0, sn.1, p) {
        let (r0, c0) = choose|r0: int, c0: int|
            #[trigger] window_at(m, d, r0, c0) && run_covers(d, r0, c0, 4, p.row as int, p.col as int)
                && on_line(d, sn.0, sn.1, r0, c0);
        let k = choose|k: int| 0 <= k && #[trigger] line_point(d, sn.0, sn.1, k) == (r0, c0);
        assert(line_point(d, start_at(d, n, h, w).0, start_at(d, n, h, w).1, k) == (r0, c0));
        assert(on_enumerated_line(d, h, w, n + 1, r0, c0));
    }
}

/// With no lines enumerated yet, nothing is covered.
pub proof fn lemma_dir_matched_upto_zero(m: GridModel, d: ClearStrategy, p: Piece)
    ensures
        !dir_matched_upto(m, d, 0, p),
{
}

/// Once every line of the direction's family is enumerated, the covered
/// windows are exactly the direction's windows: every window start is an
/// occupied cell, so it lies on the grid and on an enumerated line.
pub proof fn lemma_dir_matched_full(m: GridModel, d: ClearStrategy, p: Piece)
    ensures
        dir_matched_upto(m, d, starts_len(d, grid_height(m), grid_width(m)), p) <==> dir_matched(
            m,
            d,
            p.row as int,
            p.col as int,
        ),
{
    let h = grid_height(m);
    let w = grid_width(m);
    if dir_matched(m, d, p.row as int, p.col as int) {
        let (r0, c0) = choose|r0: int, c0: int|
            #[trigger] window_at(m, d, r0, c0) && run_covers(d, r0, c0, 4, p.row as int, p.col as int);
        assert(cell_at(m, r0, c0) is Some);
        assert(in_grid(m, r0, c0));
        lemma_start_covers(d, h, w, r0, c0);
    }
}

/// A cell is matched exactly when one of the four directions matches it.
pub proof fn lemma_matched_coord_cases(m: GridModel, ds: Seq<ClearStrategy>, r: int, c: int)
    requires
        ds.len() == 4,
        ds[0] == ClearStrategy::Vertical,
        ds[1] == ClearStrategy::Horizontal,
        ds[2] == ClearStrategy::DiagonalUp,
        ds[3] == ClearStrategy::DiagonalDown,
    ensures
        matched_coord(m, r, c) <==> (exists|di: int|
            0 <= di < ds.len() && #[trigger] dir_matched(m, ds[di], r, c)),
{
    if matched_coord(m, r, c) {
        let d = choose|d: ClearStrategy| #[trigger] dir_matched(m, d, r, c);
        match d {
            ClearStrategy::Vertical => {
                assert(dir_matched(m, ds[0], r, c));
            },
            ClearStrategy::Horizontal => {
                assert(dir_matched(m, ds[1], r, c));
            },
            ClearStrategy::DiagonalUp => {
                assert(dir_matched(m, ds[2], r, c));
            },
            ClearStrategy::DiagonalDown => {
                assert(dir_matched(m, ds[3], r, c));
            },
        }
    }
    if exists|di: int| 0 <= di < ds.len() && #[trigger] dir_matched(m, ds[di], r, c) {
        let di = choose|di: int| 0 <= di < ds.len() && #[trigger] dir_matched(m, ds[di], r, c);
        assert(matched_coord(m, r, c));
    }
}

/// The windows found inside a maximal line's coordinate list are exactly the
/// grid-level windows of that direction whose start lies on the line.
pub proof fn lemma_line_bridge(
    m: GridModel,
    d: ClearStrategy,
    sr: int,
    sc: int,
    pts: Seq<(usize, usize)>,
    p: Piece,
)
    requires
        grid_wf(m),
        0 <= sr < grid_height(m),
        0 <= sc < grid_width(m),
        is_line_of(m, d, sr, sc, pts),
    ensures
        line_matched_upto(m, pts, pts.len() as int, p) <==> (cell_at(
            m,
            p.row as int,
            p.col as int,
        ) == Some(p.color) && line_window_matched(m, d, sr, sc, p)),
{
    let len = pts.len() as int;
    if line_matched_upto(m, pts, len, p) {
        let k = choose|k: int|
            0 <= k < len && #[trigger] covered_index(m, pts, k) && p.row == pts[k].0 && p.col
                == pts[k].1 && coord_cell(m, pts[k]) == Some(p.color);
        let j = choose|j: int| j <= k < j + 4 && #[trigger] window_qualifies(m, pts, j);
        let pr = line_point(d, sr, sc, j).0;
        let pc = line_point(d, sr, sc, j).1;
        // The window of the list is a grid-level window at the j-th point.
        assert(cell_at(m, pr, pc) == coord_cell(m, pts[j]));
        assert forall|u: int| 0 <= u < 4 implies #[trigger] cell_at_point(
            m,
            line_point(d, pr, pc, u),
        ) == cell_at(m, pr, pc) by {
            lemma_line_point_add(d, sr, sc, j, u);
            assert(line_point(d, pr, pc, u) == line_point(d, sr, sc, j + u));
            assert(((pts[j + u]).0 as int, pts[j + u].1 as int) == line_point(d, sr, sc, j + u));
            assert(coord_cell(m, pts[j + u]) == coord_cell(m, pts[j]));
        }
        assert(window_at(m, d, pr, pc));
        lemma_line_point_add(d, sr, sc, j, k - j);
        assert(line_point(d, pr, pc, k - j) == line_point(d, sr, sc, k));
        assert(line_point(d, pr, pc, k - j) == (p.row as int, p.col as int));
        assert(run_covers(d, pr, pc, 4, p.row as int, p.col as int));
        assert(line_point(d, sr, sc, j) == (pr, pc));
        assert(on_line(d, sr, sc, pr, pc));
        assert(cell_at(m, p.row as int, p.col as int) == Some(p.color));
    }
    if ({
        &&& cell_at(m, p.row as int, p.col as int) == Some(p.color)
        &&& exists|r0: int, c0: int|
            #[trigger] window_at(m, d, r0, c0) && run_covers(
                d,
                r0,
                c0,
                4,
                p.row as int,
                p.col as int,
            ) && on_line(d, sr, sc, r0, c0)
    }) {
        let (r0, c0) = choose|r0: int, c0: int|
            #[trigger] window_at(m, d, r0, c0) && run_covers(d, r0, c0, 4, p.row as int, p.col as int)
                && on_line(d, sr, sc, r0, c0);
        let k0 = choose|k: int| 0 <= k && #[trigger] line_point(d, sr, sc, k) == (r0, c0);
        let i = choose|i: int|
            0 <= i < 4 && #[trigger] line_point(d, r0, c0, i) == (p.row as int, p.col as int);
        // Window cells sit at offsets k0..k0+4 of the line and are on the grid.
        assert forall|t: int| k0 <= t < k0 + 4 implies in_grid(
            m,
            line_point(d, sr, sc, t).0,
            line_point(d, sr, sc, t).1,
        ) && #[trigger] cell_at_point(m, line_point(d, sr, sc, t)) == cell_at(m, r0, c0) by {
            lemma_run_cell(m, d, r0, c0, 4, t - k0);
            lemma_line_point_add(d, sr, sc, k0, t - k0);
            assert(line_point(d, sr, sc, t) == line_point(d, r0, c0, t - k0));
        }
        // The list, being maximal, reaches past the window's last cell.
        if len < k0 + 4 {
            if len <= k0 {
                lemma_line_prefix(
                    d,
                    grid_height(m),
                    grid_width(m),
                    sr,
                    sc,
                    k0,
                    len,
                );
                assert(false);
            } else {
                assert(cell_at_point(m, line_point(d, sr, sc, len)) == cell_at(m, r0, c0));
                assert(in_grid(m, line_point(d, sr, sc, len).0, line_point(d, sr, sc, len).1));
                assert(false);
            }
        }
        assert(k0 + 4 <= len);
        // The window qualifies inside the list at index k0.
        assert forall|t: int| k0 <= t < k0 + 4 implies #[trigger] coord_cell(m, pts[t])
            == coord_cell(m, pts[k0]) by {
            assert(((pts[t]).0 as int, pts[t].1 as int) == line_point(d, sr, sc, t));
            assert(cell_at_point(m, line_point(d, sr, sc, t)) == cell_at(m, r0, c0));
            assert(((pts[k0]).0 as int, pts[k0].1 as int) == line_point(d, sr, sc, k0));
            assert(cell_at_point(m, line_point(d, sr, sc, k0)) == cell_at(m, r0, c0));
        }
        assert(cell_at_point(m, line_point(d, sr, sc, k0)) == cell_at(m, r0, c0));
        assert(coord_cell(m, pts[k0]) == cell_at_point(m, line_point(d, sr, sc, k0)));
        assert(window_qualifies(m, pts, k0));
        let k = k0 + i;
        lemma_line_point_add(d, sr, sc, k0, i);
        assert(line_point(d, sr, sc, k) == line_point(d, r0, c0, i));
        assert(((pts[k]).0 as int, pts[k].1 as int) == (p.row as int, p.col as int));
        assert(covered_index(m, pts, k));
        assert(coord_cell(m, pts[k]) == cell_at(m, p.row as int, p.col as int));
        assert(0 <= k < len && covered_index(m, pts, k) && p.row == pts[k].0 && p.col == pts[k].1
            && coord_cell(m, pts[k]) == Some(p.color));
    }
}

/// A maximal run: one that cannot be extended by one cell at either end.
pub open spec fn is_maximal_run(
    m: GridModel,
    d: ClearStrategy,
    r0: int,
    c0: int,
    len: int,
) -> bool {
    &&& is_run(m, d, r0, c0, len)
    &&& cell_at_point(m, line_point(d, r0, c0, -1)) != cell_at(m, r0, c0)
    &&& cell_at_point(m, line_point(d, r0, c0, len)) != cell_at(m, r0, c0)
}

/// No cell of a maximal run shorter than four is matched in the run's own
/// direction: every window through the cell would have to stay inside the
/// run, which is too short to hold one.
pub proof fn lemma_short_run_never_matched(
    m: GridModel,
    d: ClearStrategy,
    r0: int,
    c0: int,
    len: int,
    r: int,
    c: int,
)
    requires
        is_maximal_run(m, d, r0, c0, len),
        len < 4,
        run_covers(d, r0, c0, len, r, c),
    ensures
        !dir_matched(m, d, r, c),
{
    let i = choose|i: int| 0 <= i < len && #[trigger] line_point(d, r0, c0, i) == (r, c);
    if dir_matched(m, d, r, c) {
        let (wr, wc) = choose|wr: int, wc: int|
            #[trigger] window_at(m, d, wr, wc) && run_covers(d, wr, wc, 4, r, c);
        let i2 = choose|i2: int| 0 <= i2 < 4 && #[trigger] line_point(d, wr, wc, i2) == (r, c);
        let t = i - i2;
        // The window start sits at offset t from the run start.
        assert((i - i2) * row_step(d) == i * row_step(d) - i2 * row_step(d)) by (nonlinear_arith);
        assert((i - i2) * col_step(d) == i * col_step(d) - i2 * col_step(d)) by (nonlinear_arith);
        assert(line_point(d, r0, c0, t) == (wr, wc));
        // The window's color is the run's color: the shared cell (r, c) holds both.
        lemma_run_cell(m, d, r0, c0, len, i);
        lemma_run_cell(m, d, wr, wc, 4, i2);
        assert(cell_at(m, wr, wc) == cell_at(m, r0, c0));
        if t <= -1 {
            // The cell just before the run would lie inside the window.
            let u = -1 - t;
            lemma_line_point_add(d, r0, c0, t, u);
            assert(line_point(d, wr, wc, u) == line_point(d, r0, c0, -1));
            lemma_run_cell(m, d, wr, wc, 4, u);
            assert(false);
        } else if t + 4 > len {
            // The cell just after the run would lie inside the window.
            let u = len - t;
            lemma_line_point_add(d, r0, c0, t, u);
            assert(line_point(d, wr, wc, u) == line_point(d, r0, c0, len));
            lemma_run_cell(m, d, wr, wc, 4, u);
            assert(false);
        } else {
            assert(len >= 4);
            assert(false);
        }
    }
}

} // verus!
