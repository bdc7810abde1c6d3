//! Resize and migration logic: reshaping a grid to new dimensions while
//! preserving every cell that lies within both the old and the new bounds.
//! Cells outside the overlap are dropped on a shrink and start dead on a
//! grow.  A request with a zero dimension is a no-op.

use vstd::prelude::*;

use crate::grid::GridView;
use crate::grid::grid_of;
use crate::grid::lemma_index_bound;
use crate::grid::lemma_index_decompose;

verus! {

/// The buffer a resize produces: the overlap keeps its state, the rest is
/// dead.  Coordinates outside the old bounds read as dead through `alive`.
pub open spec fn resize_cells(g: GridView, new_rows: nat, new_cols: nat) -> Seq<bool> {
    Seq::new(new_rows * new_cols, |i: int| g.alive(i / new_cols as int, i % new_cols as int))
}

/// The whole grid view after a resize to `(new_rows, new_cols)`.
pub open spec fn resize_view(g: GridView, new_rows: nat, new_cols: nat) -> GridView {
    GridView { rows: new_rows, cols: new_cols, cells: resize_cells(g, new_rows, new_cols) }
}

/// Pointwise reading of `resize_view`: a cell of the resized grid is alive
/// exactly when the same coordinates were alive before (so the overlap is
/// preserved and everything else is dead).
pub proof fn lemma_resize_alive(g: GridView, new_rows: nat, new_cols: nat, row: int, col: int)
    requires
        new_cols >= 1,
        0 <= row < new_rows,
        0 <= col < new_cols,
    ensures
        resize_view(g, new_rows, new_cols).alive(row, col) == g.alive(row, col),
{
    lemma_index_bound(row, col, new_rows as int, new_cols as int);
    lemma_index_decompose(row, col, new_cols as int);
}

/// Resizing to `(r2, c2)` and then back to the original dimensions restores
/// every cell whose coordinates lie below both the old and the intermediate
/// bounds; nothing is claimed of cells outside that overlap.
pub proof fn lemma_resize_round_trip(g: GridView, r2: nat, c2: nat)
    requires
        g.wf(),
        r2 >= 1,
        c2 >= 1,
    ensures
        forall|row: int, col: int|
            0 <= row < g.rows && 0 <= col < g.cols && row < r2 && col < c2 ==> #[trigger] resize_view(
                resize_view(g, r2, c2),
                g.rows,
                g.cols,
            ).alive(row, col) == g.alive(row, col),
{
    assert forall|row: int, col: int|
        0 <= row < g.rows && 0 <= col < g.cols && row < r2 && col < c2 implies #[trigger] resize_view(
        resize_view(g, r2, c2),
        g.rows,
        g.cols,
    ).alive(row, col) == g.alive(row, col) by {
        lemma_resize_alive(g, r2, c2, row, col);
        lemma_resize_alive(resize_view(g, r2, c2), g.rows, g.cols, row, col);
    }
}

/// Builds the buffer of `resize_cells`: row by row, copying the overlap
/// from the old buffer and filling the rest with dead cells.
pub(crate) fn resize_buffer(
    old_cells: &Vec<bool>,
    old_rows: usize,
    old_cols: usize,
    new_rows: usize,
    new_cols: usize,
) -> (v: Vec<bool>)
    requires
        old_cells@.len() == old_rows * old_cols,
        old_rows * old_cols <= usize::MAX,
        1 <= old_rows,
        1 <= old_cols,
        1 <= new_rows,
        1 <= new_cols,
        new_rows * new_cols <= usize::MAX,
    ensures
        v@ == resize_cells(
            grid_of(old_rows as nat, old_cols as nat, old_cells@),
            new_rows as nat,
            new_cols as nat,
        ),
{
    let ghost g = grid_of(old_rows as nat, old_cols as nat, old_cells@);
    let mut v: Vec<bool> = Vec::new();
    let mut row: usize = 0;
    while row < new_rows
        invariant
            g == (grid_of(old_rows as nat, old_cols as nat, old_cells@)),
            old_cells@.len() == old_rows * old_cols,
            old_rows * old_cols <= usize::MAX,
            1 <= old_rows,
            1 <= old_cols,
            1 <= new_cols,
            new_rows * new_cols <= usize::MAX,
            row <= new_rows,
            v@.len() == row * new_cols,
            row * new_cols <= new_rows * new_cols,
            forall|i: int|
                0 <= i < v@.len() ==> v@[i] == g.alive(i / new_cols as int, i % new_cols as int),
        decreases new_rows - row,
    {
        let mut col: usize = 0;
        while col < new_cols
            invariant
                g == (grid_of(old_rows as nat, old_cols as nat, old_cells@)),
                old_cells@.len() == old_rows * old_cols,
                old_rows * old_cols <= usize::MAX,
                1 <= old_rows,
                1 <= old_cols,
                1 <= new_cols,
                new_rows * new_cols <= usize::MAX,
                row < new_rows,
                col <= new_cols,
                v@.len() == row * new_cols + col,
                row * new_cols + col <= new_rows * new_cols,
                forall|i: int|
                    0 <= i < v@.len() ==> v@[i] == g.alive(
                        i / new_cols as int,
                        i % new_cols as int,
                    ),
            decreases new_cols - col,
        {
            proof {
                lemma_index_bound(row as int, col as int, new_rows as int, new_cols as int);
                lemma_index_decompose(row as int, col as int, new_cols as int);
            }
            let value = if row < old_rows && col < old_cols {
                proof {
                    lemma_index_bound(row as int, col as int, old_rows as int, old_cols as int);
                }
                old_cells[row * old_cols + col]
            } else {
                false
            };
            v.push(value);
            col += 1;
        }
        proof {
            assert((row + 1) * new_cols == row * new_cols + new_cols) by (nonlinear_arith);
        }
        row += 1;
    }
    assert(v@ =~= resize_cells(g, new_rows as nat, new_cols as nat));
    v
}

} // verus!
