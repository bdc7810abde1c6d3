//! The grid store: two equally sized boolean buffers (current generation and
//! a scratch buffer for the next one) together with the row and column counts.
//! Cells are addressed row-major: cell `(row, col)` lives at `row * cols + col`.

use vstd::prelude::*;

verus! {

/// Mathematical model of a grid: the dimensions and the current cell buffer.
#[verifier::ext_equal]
pub ghost struct GridView {
    pub rows: nat,
    pub cols: nat,
    pub cells: Seq<bool>,
}

impl GridView {
    /// Both dimensions are at least one and the buffer has exactly one
    /// entry per cell.
    pub open spec fn wf(self) -> bool {
        &&& self.rows >= 1
        &&& self.cols >= 1
        &&& self.cells.len() == self.rows * self.cols
    }

    pub open spec fn in_bounds(self, row: int, col: int) -> bool {
        0 <= row < self.rows && 0 <= col < self.cols
    }

    /// Whether the cell at `(row, col)` is alive; coordinates outside the
    /// grid count as dead, which is exactly the edge-clipping the life rule
    /// needs (no wraparound).
    pub open spec fn alive(self, row: int, col: int) -> bool {
        self.in_bounds(row, col) && self.cells[row * self.cols + col]
    }
}

/// Builds a `GridView` from its parts.
pub open spec fn grid_of(rows: nat, cols: nat, cells: Seq<bool>) -> GridView {
    GridView { rows, cols, cells }
}

/// An all-dead buffer of the given length.
pub open spec fn all_dead(n: nat) -> Seq<bool> {
    Seq::new(n, |i: int| false)
}

/// A row-major index stays strictly below `rows * cols`.
pub proof fn lemma_index_bound(row: int, col: int, rows: int, cols: int)
    requires
        0 <= row < rows,
        0 <= col < cols,
    ensures
        0 <= row * cols + col < rows * cols,
{
    assert(0 <= row * cols + col < rows * cols) by (nonlinear_arith)
        requires
            0 <= row < rows,
            0 <= col < cols,
    ;
}

/// A row-major index decomposes back into its row and column.
pub proof fn lemma_index_decompose(row: int, col: int, cols: int)
    requires
        0 <= row,
        0 <= col < cols,
    ensures
        (row * cols + col) / cols == row,
        (row * cols + col) % cols == col,
{
    assert((row * cols + col) / cols == row && (row * cols + col) % cols == col)
        by (nonlinear_arith)
        requires
            0 <= row,
            0 <= col < cols,
    ;
}

/// The grid store.  `cells` holds the current generation; `scratch` is the
/// equally sized buffer the rule engine writes the next generation into
/// before the two are swapped.
pub struct Grid {
    pub(crate) rows: usize,
    pub(crate) cols: usize,
    pub(crate) cells: Vec<bool>,
    pub(crate) scratch: Vec<bool>,
}

impl View for Grid {
    type V = GridView;

    closed spec fn view(&self) -> GridView {
        GridView { rows: self.rows as nat, cols: self.cols as nat, cells: self.cells@ }
    }
}

/// Builds a vector of `n` dead cells.
pub(crate) fn make_dead_buffer(n: usize) -> (v: Vec<bool>)
    ensures
        v@ == all_dead(n as nat),
{
    let mut v: Vec<bool> = Vec::new();
    let mut i: usize = 0;
    while i < n
        invariant
            i <= n,
            v@.len() == i,
            forall|k: int| 0 <= k < i ==> !v@[k],
        decreases n - i,
    {
        v.push(false);
        i += 1;
    }
    assert(v@ =~= all_dead(n as nat));
    v
}

impl Grid {
    /// The grid's internal invariant: a well-formed view and a scratch
    /// buffer of matching size.
    pub closed spec fn wf(self) -> bool {
        &&& self@.wf()
        &&& self.scratch@.len() == self.cells@.len()
        &&& self@.rows * self@.cols <= usize::MAX
    }

    /// A fresh all-dead grid of the requested dimensions.
    pub fn new(rows: usize, cols: usize) -> (g: Grid)
        requires
            1 <= rows,
            1 <= cols,
            rows * cols <= usize::MAX,
        ensures
            g.wf(),
            g@ == grid_of(rows as nat, cols as nat, all_dead((rows * cols) as nat)),
    {
        proof {
            lemma_index_bound(rows as int - 1, cols as int - 1, rows as int, cols as int);
        }
        let n = rows * cols;
        let cells = make_dead_buffer(n);
        let scratch = make_dead_buffer(n);
        Grid { rows, cols, cells, scratch }
    }

    pub fn rows(&self) -> (r: usize)
        ensures
            r == self@.rows,
    {
        self.rows
    }

    pub fn cols(&self) -> (c: usize)
        ensures
            c == self@.cols,
    {
        self.cols
    }

    pub fn size(&self) -> (s: (usize, usize))
        ensures
            s.0 == self@.rows,
            s.1 == self@.cols,
    {
        (self.rows, self.cols)
    }

    /// Reads one cell.  Callers must bound-check first.
    pub fn get(&self, row: usize, col: usize) -> (alive: bool)
        requires
            self.wf(),
            row < self@.rows,
            col < self@.cols,
        ensures
            alive == self@.alive(row as int, col as int),
    {
        proof {
            lemma_index_bound(row as int, col as int, self@.rows as int, self@.cols as int);
        }
        self.cells[row * self.cols + col]
    }

    /// Writes one cell.  Callers must bound-check first.
    pub fn set(&mut self, row: usize, col: usize, value: bool)
        requires
            old(self).wf(),
            row < old(self)@.rows,
            col < old(self)@.cols,
        ensures
            final(self).wf(),
            final(self)@.rows == old(self)@.rows,
            final(self)@.cols == old(self)@.cols,
            final(self)@.cells == old(self)@.cells.update(
                row * old(self)@.cols + col,
                value,
            ),
    {
        proof {
            lemma_index_bound(row as int, col as int, self@.rows as int, self@.cols as int);
        }
        let idx = row * self.cols + col;
        self.cells.set(idx, value);
    }

    /// Flips one cell.  Callers must bound-check first.
    pub fn toggle(&mut self, row: usize, col: usize)
        requires
            old(self).wf(),
            row < old(self)@.rows,
            col < old(self)@.cols,
        ensures
            final(self).wf(),
            final(self)@.rows == old(self)@.rows,
            final(self)@.cols == old(self)@.cols,
            final(self)@.cells == old(self)@.cells.update(
                row * old(self)@.cols + col,
                !old(self)@.alive(row as int, col as int),
            ),
    {
        let value = !self.get(row, col);
        self.set(row, col, value);
    }

    /// Overwrites the cell buffer from a plain vector of matching length.
    pub fn load_cells(&mut self, src: &Vec<bool>)
        requires
            old(self).wf(),
            src@.len() == old(self)@.cells.len(),
        ensures
            final(self).wf(),
            final(self)@.rows == old(self)@.rows,
            final(self)@.cols == old(self)@.cols,
            final(self)@.cells == src@,
    {
        let n = src.len();
        let mut i: usize = 0;
        while i < n
            invariant
                i <= n,
                n == src@.len(),
                self.rows == old(self).rows,
                self.cols == old(self).cols,
                self.scratch@ == old(self).scratch@,
                self.cells@.len() == old(self).cells@.len(),
                n == self.cells@.len(),
                forall|k: int| 0 <= k < i ==> self.cells@[k] == src@[k],
                forall|k: int| i <= k < n ==> self.cells@[k] == old(self).cells@[k],
            decreases n - i,
        {
            let v = src[i];
            self.cells.set(i, v);
            i += 1;
        }
        assert(self.cells@ =~= src@);
    }

    /// Advances the grid by one generation of the life rule.  The next
    /// generation is computed into the scratch buffer from a stable snapshot
    /// of the current one, then the two buffers are swapped.
    pub fn step(&mut self)
        requires
            old(self).wf(),
        ensures
            final(self).wf(),
            final(self)@ == crate::life::step_view(old(self)@),
    {
        let ghost g = self@;
        let rows = self.rows;
        let cols = self.cols;
        let mut row: usize = 0;
        while row < rows
            invariant
                g == (grid_of(rows as nat, cols as nat, self.cells@)),
                g.wf(),
                rows * cols <= usize::MAX,
                self.rows == rows,
                self.cols == cols,
                row <= rows,
                row * cols <= rows * cols,
                self.scratch@.len() == rows * cols,
                forall|i: int|
                    0 <= i < row * cols ==> self.scratch@[i] == crate::life::next_state(
                        g,
                        i / cols as int,
                        i % cols as int,
                    ),
            decreases rows - row,
        {
            let mut col: usize = 0;
            while col < cols
                invariant
                    g == (grid_of(rows as nat, cols as nat, self.cells@)),
                    g.wf(),
                    rows * cols <= usize::MAX,
                    self.rows == rows,
                    self.cols == cols,
                    row < rows,
                    col <= cols,
                    row * cols + col <= rows * cols,
                    self.scratch@.len() == rows * cols,
                    forall|i: int|
                        0 <= i < row * cols + col ==> self.scratch@[i] == crate::life::next_state(
                            g,
                            i / cols as int,
                            i % cols as int,
                        ),
                decreases cols - col,
            {
                proof {
                    lemma_index_bound(row as int, col as int, rows as int, cols as int);
                    lemma_index_decompose(row as int, col as int, cols as int);
                }
                let n = crate::life::count_live_neighbors(&self.cells, rows, cols, row, col);
                let idx = row * cols + col;
                let value = if n == 2 {
                    self.cells[idx]
                } else {
                    n == 3
                };
                self.scratch.set(idx, value);
                col += 1;
            }
            proof {
                assert((row + 1) * cols == row * cols + cols) by (nonlinear_arith);
            }
            row += 1;
        }
        core::mem::swap(&mut self.cells, &mut self.scratch);
        proof {
            assert(self@.cells =~= crate::life::step_view(g).cells);
            assert(self@ =~= crate::life::step_view(g));
        }
    }

    /// Reshapes the grid to `(new_rows, new_cols)`.  A request with a zero
    /// dimension is silently ignored; otherwise every cell within both the
    /// old and the new bounds keeps its state and the rest start dead.
    pub fn resize(&mut self, new_rows: usize, new_cols: usize)
        requires
            old(self).wf(),
            new_rows * new_cols <= usize::MAX,
        ensures
            final(self).wf(),
            (new_rows == 0 || new_cols == 0) ==> final(self)@ == old(self)@,
            (new_rows >= 1 && new_cols >= 1) ==> final(self)@ == crate::resize::resize_view(
                old(self)@,
                new_rows as nat,
                new_cols as nat,
            ),
    {
        if new_rows == 0 || new_cols == 0 {
            return ;
        }
        let cells = crate::resize::resize_buffer(
            &self.cells,
            self.rows,
            self.cols,
            new_rows,
            new_cols,
        );
        let scratch = make_dead_buffer(cells.len());
        self.cells = cells;
        self.scratch = scratch;
        self.rows = new_rows;
        self.cols = new_cols;
    }

    /// Marks every in-bounds coordinate pair of `pts` alive (column first,
    /// row second).  Out-of-bounds pairs are silently ignored and no cell is
    /// ever cleared.
    pub fn apply_points(&mut self, pts: &Vec<(usize, usize)>)
        requires
            old(self).wf(),
        ensures
            final(self).wf(),
            final(self)@ == crate::pattern::apply_points_view(old(self)@, pts@),
    {
        let ghost g0 = self@;
        let n = pts.len();
        let mut k: usize = 0;
        proof {
            assert(pts@.take(0) =~= Seq::<(usize, usize)>::empty());
        }
        while k < n
            invariant
                g0.wf(),
                g0.rows * g0.cols <= usize::MAX,
                self.rows == g0.rows,
                self.cols == g0.cols,
                self.cells@.len() == g0.cells.len(),
                self.scratch@.len() == g0.cells.len(),
                n == pts@.len(),
                k <= n,
                forall|i: int|
                    0 <= i < self.cells@.len() ==> self.cells@[i] == (g0.cells[i]
                        || crate::pattern::point_hits(
                        pts@.take(k as int),
                        g0.rows,
                        g0.cols,
                        i,
                    )),
            decreases n - k,
        {
            let ghost pre = self.cells@;
            proof {
                // Restate the invariant over the snapshot `pre`, so the
                // reasoning below can refer to the buffer before this
                // iteration's update.
                assert forall|i: int| 0 <= i < pre.len() implies pre[i] == (g0.cells[i]
                    || crate::pattern::point_hits(pts@.take(k as int), g0.rows, g0.cols, i)) by {
                }
            }
            let p = pts[k];
            let x = p.0;
            let y = p.1;
            let in_b = y < self.rows && x < self.cols;
            if in_b {
                proof {
                    lemma_index_bound(y as int, x as int, self.rows as int, self.cols as int);
                }
                let idx = y * self.cols + x;
                self.cells.set(idx, true);
            }
            proof {
                let idxg = (y as int) * (g0.cols as int) + (x as int);
                assert forall|i: int| 0 <= i < self.cells@.len() implies self.cells@[i] == (
                g0.cells[i] || crate::pattern::point_hits(
                    pts@.take(k as int + 1),
                    g0.rows,
                    g0.cols,
                    i,
                )) by {
                    crate::pattern::lemma_point_hits_extend(pts@, k as int, g0.rows, g0.cols, i);
                    if in_b {
                        assert(crate::pattern::point_index(pts@[k as int], g0.rows, g0.cols)
                            == Some(idxg));
                        if i != idxg {
                            assert(self.cells@[i] == pre[i]);
                        }
                    } else {
                        assert(crate::pattern::point_index(pts@[k as int], g0.rows, g0.cols)
                            is None);
                        assert(self.cells@[i] == pre[i]);
                    }
                }
            }
            k += 1;
        }
        proof {
            assert(pts@.take(n as int) =~= pts@);
            assert(self@.cells =~= crate::pattern::apply_points_view(g0, pts@).cells);
            assert(self@ =~= crate::pattern::apply_points_view(g0, pts@));
        }
    }

    /// Hands out a copy of the cell buffer.
    pub fn cells_copy(&self) -> (v: Vec<bool>)
        ensures
            v@ == self@.cells,
    {
        let n = self.cells.len();
        let mut v: Vec<bool> = Vec::new();
        let mut i: usize = 0;
        while i < n
            invariant
                i <= n,
                n == self.cells@.len(),
                v@.len() == i,
                forall|k: int| 0 <= k < i ==> v@[k] == self.cells@[k],
            decreases n - i,
        {
            v.push(self.cells[i]);
            i += 1;
        }
        assert(v@ =~= self@.cells);
        v
    }
}

} // verus!
