//! The life rule engine.  One step computes the whole next generation from a
//! stable snapshot of the current one (double buffer), with the rule written
//! exactly as the three-way branch the simulator uses:
//! a cell keeps its state at two live neighbors, becomes alive at three, and
//! is dead otherwise.  Edges are clipped: cells outside the grid count as dead.

use vstd::prelude::*;

use crate::grid::GridView;
use crate::grid::grid_of;
use crate::grid::lemma_index_bound;
use crate::grid::lemma_index_decompose;

verus! {

pub open spec fn count_one(b: bool) -> int {
    if b {
        1
    } else {
        0
    }
}

/// How many of the up-to-eight surrounding cells are alive.  Out-of-bounds
/// neighbors are dead by the definition of `GridView::alive`.
pub open spec fn live_neighbors(g: GridView, row: int, col: int) -> int {
    count_one(g.alive(row - 1, col - 1)) + count_one(g.alive(row - 1, col)) + count_one(
        g.alive(row - 1, col + 1),
    ) + count_one(g.alive(row, col - 1)) + count_one(g.alive(row, col + 1)) + count_one(
        g.alive(row + 1, col - 1),
    ) + count_one(g.alive(row + 1, col)) + count_one(g.alive(row + 1, col + 1))
}

/// The three-way rule: keep the state at two neighbors, force alive at
/// three, dead otherwise.
pub open spec fn next_state(g: GridView, row: int, col: int) -> bool {
    let n = live_neighbors(g, row, col);
    if n == 2 {
        g.alive(row, col)
    } else {
        n == 3
    }
}

/// The whole next generation, cell by cell.
pub open spec fn step_view(g: GridView) -> GridView {
    GridView {
        rows: g.rows,
        cols: g.cols,
        cells: Seq::new(
            g.rows * g.cols,
            |i: int| next_state(g, i / g.cols as int, i % g.cols as int),
        ),
    }
}

/// Pointwise reading of `step_view`: after a step, the cell at `(row, col)`
/// holds exactly `next_state` of the previous generation.
pub proof fn lemma_step_view_alive(g: GridView, row: int, col: int)
    requires
        g.wf(),
        g.in_bounds(row, col),
    ensures
        step_view(g).alive(row, col) == next_state(g, row, col),
{
    lemma_index_bound(row, col, g.rows as int, g.cols as int);
    lemma_index_decompose(row, col, g.cols as int);
}

/// The three-way branch agrees with the classic birth/survival reading of
/// Conway's rule: a dead cell comes alive exactly at three live neighbors,
/// and a live cell survives exactly at two or three.
pub proof fn lemma_rule_is_conway(g: GridView, row: int, col: int)
    requires
        g.wf(),
        g.in_bounds(row, col),
    ensures
        !g.alive(row, col) ==> (step_view(g).alive(row, col) <==> live_neighbors(g, row, col)
            == 3),
        g.alive(row, col) ==> (step_view(g).alive(row, col) <==> (live_neighbors(g, row, col) == 2
            || live_neighbors(g, row, col) == 3)),
{
    lemma_step_view_alive(g, row, col);
}

/// Counts the live neighbors of an in-bounds cell with eight clipped reads.
pub(crate) fn count_live_neighbors(
    cells: &Vec<bool>,
    rows: usize,
    cols: usize,
    row: usize,
    col: usize,
) -> (n: usize)
    requires
        cells@.len() == rows * cols,
        rows * cols <= usize::MAX,
        1 <= rows,
        1 <= cols,
        row < rows,
        col < cols,
    ensures
        n == live_neighbors(grid_of(rows as nat, cols as nat, cells@), row as int, col as int),
{
    let ghost g = grid_of(rows as nat, cols as nat, cells@);
    proof {
        lemma_index_bound(row as int, col as int, rows as int, cols as int);
        if row > 0 {
            lemma_index_bound(row as int - 1, col as int, rows as int, cols as int);
        }
        if row + 1 < rows {
            lemma_index_bound(row as int + 1, col as int, rows as int, cols as int);
        }
        if col + 1 < cols {
            lemma_index_bound(row as int, col as int + 1, rows as int, cols as int);
            if row > 0 {
                lemma_index_bound(row as int - 1, col as int + 1, rows as int, cols as int);
            }
            if row + 1 < rows {
                lemma_index_bound(row as int + 1, col as int + 1, rows as int, cols as int);
            }
        }
    }
    let mut n: usize = 0;
    if row > 0 {
        if col > 0 && cells[(row - 1) * cols + (col - 1)] {
            n += 1;
        }
        if cells[(row - 1) * cols + col] {
            n += 1;
        }
        if col + 1 < cols && cells[(row - 1) * cols + (col + 1)] {
            n += 1;
        }
    }
    if col > 0 && cells[row * cols + (col - 1)] {
        n += 1;
    }
    if col + 1 < cols && cells[row * cols + (col + 1)] {
        n += 1;
    }
    if row + 1 < rows {
        if col > 0 && cells[(row + 1) * cols + (col - 1)] {
            n += 1;
        }
        if cells[(row + 1) * cols + col] {
            n += 1;
        }
        if col + 1 < cols && cells[(row + 1) * cols + (col + 1)] {
            n += 1;
        }
    }
    n
}

} // verus!
