use vstd::prelude::*;

verus! {

/// One of the four straight scan directions: each enumerates a family of
/// maximal lines covering the grid, walked point by point.
#[derive(Clone, Copy, Debug, PartialEq, Eq, Structural)]
pub enum ClearStrategy {
    Vertical,
    Horizontal,
    DiagonalUp,
    DiagonalDown,
}

/// Row offset of one step along the direction.
pub open spec fn row_step(d: ClearStrategy) -> int {
    match d {
        ClearStrategy::Vertical => 1,
        ClearStrategy::Horizontal => 0,
        ClearStrategy::DiagonalUp => -1,
        ClearStrategy::DiagonalDown => 1,
    }
}

/// Column offset of one step along the direction.
pub open spec fn col_step(d: ClearStrategy) -> int {
    match d {
        ClearStrategy::Vertical => 0,
        ClearStrategy::Horizontal => 1,
        ClearStrategy::DiagonalUp => 1,
        ClearStrategy::DiagonalDown => 1,
    }
}

/// The j-th coordinate of the line that starts at (sr, sc).
pub open spec fn line_point(d: ClearStrategy, sr: int, sc: int, j: int) -> (int, int) {
    (sr + j * row_step(d), sc + j * col_step(d))
}

/// How many lines the direction's family has on an h-by-w grid.
pub open spec fn starts_len(d: ClearStrategy, h: int, w: int) -> int {
    match d {
        ClearStrategy::Vertical => w,
        ClearStrategy::Horizontal => h,
        ClearStrategy::DiagonalUp => h + w - 1,
        ClearStrategy::DiagonalDown => w + h - 1,
    }
}

/// The j-th starting point of the direction's line family.
pub open spec fn start_at(d: ClearStrategy, j: int, h: int, w: int) -> (int, int) {
    match d {
        ClearStrategy::Vertical => (0, j),
        ClearStrategy::Horizontal => (j, 0),
        ClearStrategy::DiagonalUp => if j < h {
            (j, 0)
        } else {
            (h - 1, j - h + 1)
        },
        ClearStrategy::DiagonalDown => if j < w {
            (0, j)
        } else {
            (j - w + 1, 0)
        },
    }
}

/// (r0, c0) lies on one of the direction's first n enumerated lines.
pub open spec fn on_enumerated_line(
    d: ClearStrategy,
    h: int,
    w: int,
    n: int,
    r0: int,
    c0: int,
) -> bool {
    exists|j: int, k: int|
        0 <= j < n && 0 <= k && #[trigger] line_point(
            d,
            start_at(d, j, h, w).0,
            start_at(d, j, h, w).1,
            k,
        ) == (r0, c0)
}

/// Multiplying by a unit step is adding, subtracting or dropping the factor.
proof fn lemma_step_mul(a: int, s: int)
    ensures
        s == 1 ==> a * s == a,
        s == 0 ==> a * s == 0,
        s == -1 ==> a * s == -a,
{
    assert(s == 1 ==> a * s == a) by (nonlinear_arith);
    assert(s == 0 ==> a * s == 0) by (nonlinear_arith);
    assert(s == -1 ==> a * s == -a) by (nonlinear_arith);
}

/// Evaluates the j-th point of a line in plain additions, per direction.
pub proof fn lemma_line_point_eval(d: ClearStrategy, sr: int, sc: int, j: int)
    ensures
        line_point(d, sr, sc, j) == (match d {
            ClearStrategy::Vertical => (sr + j, sc),
            ClearStrategy::Horizontal => (sr, sc + j),
            ClearStrategy::DiagonalUp => (sr - j, sc + j),
            ClearStrategy::DiagonalDown => (sr + j, sc + j),
        }),
{
    lemma_step_mul(j, row_step(d));
    lemma_step_mul(j, col_step(d));
}

/// Stepping u times from the j-th point of a line lands on its (j+u)-th point.
pub proof fn lemma_line_point_add(d: ClearStrategy, sr: int, sc: int, j: int, u: int)
    ensures
        line_point(d, sr, sc, j + u).0 == line_point(d, sr, sc, j).0 + u * row_step(d),
        line_point(d, sr, sc, j + u).1 == line_point(d, sr, sc, j).1 + u * col_step(d),
{
    assert((j + u) * row_step(d) == j * row_step(d) + u * row_step(d)) by (nonlinear_arith);
    assert((j + u) * col_step(d) == j * col_step(d) + u * col_step(d)) by (nonlinear_arith);
}

/// Along a line whose start lies on the grid, the on-grid points form a
/// prefix: if the j-th point is on the grid, so is every earlier point.
pub proof fn lemma_line_prefix(
    d: ClearStrategy,
    h: int,
    w: int,
    sr: int,
    sc: int,
    j: int,
    j2: int,
)
    requires
        0 <= sr < h,
        0 <= sc < w,
        0 <= line_point(d, sr, sc, j).0 < h,
        0 <= line_point(d, sr, sc, j).1 < w,
        0 <= j2 <= j,
    ensures
        0 <= line_point(d, sr, sc, j2).0 < h,
        0 <= line_point(d, sr, sc, j2).1 < w,
{
    lemma_line_point_eval(d, sr, sc, j);
    lemma_line_point_eval(d, sr, sc, j2);
}

/// Every on-grid coordinate lies on one of the direction's enumerated lines.
pub proof fn lemma_start_covers(d: ClearStrategy, h: int, w: int, r0: int, c0: int)
    requires
        0 <= r0 < h,
        0 <= c0 < w,
    ensures
        on_enumerated_line(d, h, w, starts_len(d, h, w), r0, c0),
{
    match d {
        ClearStrategy::Vertical => {
            lemma_line_point_eval(d, 0, c0, r0);
            assert(line_point(d, start_at(d, c0, h, w).0, start_at(d, c0, h, w).1, r0) == (
                r0,
                c0,
            ));
        },
        ClearStrategy::Horizontal => {
            lemma_line_point_eval(d, r0, 0, c0);
            assert(line_point(d, start_at(d, r0, h, w).0, start_at(d, r0, h, w).1, c0) == (
                r0,
                c0,
            ));
        },
        ClearStrategy::DiagonalUp => {
            let j = r0 + c0;
            let k = if j < h {
                c0
            } else {
                h - 1 - r0
            };
            lemma_line_point_eval(d, start_at(d, j, h, w).0, start_at(d, j, h, w).1, k);
            assert(line_point(d, start_at(d, j, h, w).0, start_at(d, j, h, w).1, k) == (r0, c0));
        },
        ClearStrategy::DiagonalDown => {
            let j = if r0 <= c0 {
                c0 - r0
            } else {
                w + (r0 - c0) - 1
            };
            let k = if r0 <= c0 {
                r0
            } else {
                c0
            };
            lemma_line_point_eval(d, start_at(d, j, h, w).0, start_at(d, j, h, w).1, k);
            assert(line_point(d, start_at(d, j, h, w).0, start_at(d, j, h, w).1, k) == (r0, c0));
        },
    }
}

impl ClearStrategy {
    /// The starting points of every maximal line of this direction, in the
    /// enumeration order given by `start_at`.
    pub fn get_starting_points(&self, height: usize, width: usize) -> (r: Vec<(usize, usize)>)
        requires
            0 < height,
            0 < width,
        ensures
            r@.len() == starts_len(*self, height as int, width as int),
            forall|j: int|
                0 <= j < r@.len() ==> (#[trigger] r@[j]).0 as int == start_at(
                    *self,
                    j,
                    height as int,
                    width as int,
                ).0 && r@[j].1 as int == start_at(*self, j, height as int, width as int).1,
    {
        let mut r: Vec<(usize, usize)> = Vec::new();
        match self {
            ClearStrategy::Vertical => {
                for c in 0..width
                    invariant
                        r@.len() == c,
                        forall|j: int|
                            0 <= j < r@.len() ==> (#[trigger] r@[j]).0 as int == 0 && r@[j].1 as int
                                == j,
                {
                    r.push((0, c));
                }
            },
            ClearStrategy::Horizontal => {
                for row in 0..height
                    invariant
                        r@.len() == row,
                        forall|j: int|
                            0 <= j < r@.len() ==> (#[trigger] r@[j]).0 as int == j && r@[j].1 as int
                                == 0,
                {
                    r.push((row, 0));
                }
            },
            ClearStrategy::DiagonalUp => {
                for row in 0..height
                    invariant
                        r@.len() == row,
                        forall|j: int|
                            0 <= j < r@.len() ==> (#[trigger] r@[j]).0 as int == j && r@[j].1 as int
                                == 0,
                {
                    r.push((row, 0));
                }
                for c in 1..width
                    invariant
                        0 < height,
                        r@.len() == height + c - 1,
                        forall|j: int|
                            0 <= j < height ==> (#[trigger] r@[j]).0 as int == j && r@[j].1 as int
                                == 0,
                        forall|j: int|
                            height <= j < r@.len() ==> (#[trigger] r@[j]).0 as int == height - 1
                                && r@[j].1 as int == j - height + 1,
                {
                    r.push((height - 1, c));
                }
            },
            ClearStrategy::DiagonalDown => {
                for c in 0..width
                    invariant
                        r@.len() == c,
                        forall|j: int|
                            0 <= j < r@.len() ==> (#[trigger] r@[j]).0 as int == 0 && r@[j].1 as int
                                == j,
                {
                    r.push((0, c));
                }
                for row in 1..height
                    invariant
                        0 < width,
                        r@.len() == width + row - 1,
                        forall|j: int|
                            0 <= j < width ==> (#[trigger] r@[j]).0 as int == 0 && r@[j].1 as int
                                == j,
                        forall|j: int|
                            width <= j < r@.len() ==> (#[trigger] r@[j]).0 as int == j - width + 1
                                && r@[j].1 as int == 0,
                {
                    r.push((row, 0));
                }
            },
        }
        r
    }

    /// The coordinate one step further along the direction, if it still lies
    /// on an h-by-w grid.
    pub fn get_next_point(&self, row: usize, col: usize, height: usize, width: usize) -> (r: Option<
        (usize, usize),
    >)
        requires
            row < height,
            col < width,
        ensures
            ({
                let nr = row as int + row_step(*self);
                let nc = col as int + col_step(*self);
                match r {
                    Some(p) => 0 <= nr < height && 0 <= nc < width && p.0 as int == nr
                        && p.1 as int == nc,
                    None => !(0 <= nr < height && 0 <= nc < width),
                }
            }),
    {
        let step: Option<(usize, usize)> = match self {
            ClearStrategy::Vertical => Some((row + 1, col)),
            ClearStrategy::Horizontal => Some((row, col + 1)),
            ClearStrategy::DiagonalUp => if row > 0 {
                Some((row - 1, col + 1))
            } else {
                None
            },
            ClearStrategy::DiagonalDown => Some((row + 1, col + 1)),
        };
        match step {
            Some(p) => if p.0 >= height || p.1 >= width {
                None
            } else {
                Some(p)
            },
            None => None,
        }
    }

    /// All coordinates of the maximal line starting at (start_row, start_col),
    /// walked with `get_next_point` until it leaves the grid.
    pub(crate) fn line_points(
        &self,
        start_row: usize,
        start_col: usize,
        height: usize,
        width: usize,
    ) -> (pts: Vec<(usize, usize)>)
        requires
            start_row < height,
            start_col < width,
        ensures
            pts@.len() >= 1,
            forall|j: int|
                0 <= j < pts@.len() ==> (#[trigger] pts@[j]).0 as int == line_point(
                    *self,
                    start_row as int,
                    start_col as int,
                    j,
                ).0 && pts@[j].1 as int == line_point(*self, start_row as int, start_col as int, j).1
                    && pts@[j].0 < height && pts@[j].1 < width,
            !(0 <= line_point(*self, start_row as int, start_col as int, pts@.len() as int).0
                < height && 0 <= line_point(
                *self,
                start_row as int,
                start_col as int,
                pts@.len() as int,
            ).1 < width),
    {
        let mut pts: Vec<(usize, usize)> = Vec::new();
        let mut row = start_row;
        let mut col = start_col;
        pts.push((row, col));
        loop
            invariant
                start_row < height,
                start_col < width,
                row < height,
                col < width,
                pts@.len() >= 1,
                row as int == line_point(*self, start_row as int, start_col as int, pts@.len()
                    - 1).0,
                col as int == line_point(*self, start_row as int, start_col as int, pts@.len()
                    - 1).1,
                forall|j: int|
                    0 <= j < pts@.len() ==> (#[trigger] pts@[j]).0 as int == line_point(
                        *self,
                        start_row as int,
                        start_col as int,
                        j,
                    ).0 && pts@[j].1 as int == line_point(
                        *self,
                        start_row as int,
                        start_col as int,
                        j,
                    ).1 && pts@[j].0 < height && pts@[j].1 < width,
            ensures
                pts@.len() >= 1,
                forall|j: int|
                    0 <= j < pts@.len() ==> (#[trigger] pts@[j]).0 as int == line_point(
                        *self,
                        start_row as int,
                        start_col as int,
                        j,
                    ).0 && pts@[j].1 as int == line_point(
                        *self,
                        start_row as int,
                        start_col as int,
                        j,
                    ).1 && pts@[j].0 < height && pts@[j].1 < width,
                !(0 <= line_point(*self, start_row as int, start_col as int, pts@.len() as int).0
                    < height && 0 <= line_point(
                    *self,
                    start_row as int,
                    start_col as int,
                    pts@.len() as int,
                ).1 < width),
            decreases (match *self {
                ClearStrategy::Vertical => height - row,
                ClearStrategy::Horizontal => width - col,
                ClearStrategy::DiagonalUp => width - col,
                ClearStrategy::DiagonalDown => width - col,
            }),
        {
            proof {
                lemma_line_point_add(
                    *self,
                    start_row as int,
                    start_col as int,
                    pts@.len() - 1,
                    1,
                );
            }
            match self.get_next_point(row, col, height, width) {
                Some(p) => {
                    row = p.0;
                    col = p.1;
                    pts.push((row, col));
                },
                None => {
                    break ;
                },
            }
        }
        pts
    }
}

} // verus!
