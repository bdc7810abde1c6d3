//! The interaction controller: owns the grid, the reset snapshot and the
//! simulation parameters, and turns discrete external events (toggle drawing
//! mode, toggle a cell, adjust the step interval, resize, reset, pause,
//! single-step, load a pattern, a frame tick) into the corresponding state
//! changes.  The policy is the snapshot one: entering drawing mode keeps the
//! cells, and leaving it saves them as the snapshot a later reset restores.

use vstd::prelude::*;

use crate::grid::Grid;
use crate::grid::GridView;
use crate::grid::all_dead;
use crate::grid::grid_of;
use crate::life::step_view;
use crate::pattern::apply_points_view;
use crate::pattern::glider_pattern;
use crate::pattern::glider_points;
use crate::pattern::malformed_indices;
use crate::pattern::parse_pattern;
use crate::pattern::pattern_points;
use crate::pattern::split_lines;
use crate::resize::resize_cells;
use crate::resize::resize_view;

verus! {

/// Default side length of the starting grid.
pub const DEFAULT_SIDE: usize = 40;

/// Default target time between generations, in milliseconds.
pub const DEFAULT_INTERVAL_MS: u64 = 500;

/// Upper clamp of the step interval, in milliseconds.
pub const MAX_INTERVAL_MS: u64 = 2000;

/// How the surrounding program should paint the grid background: with
/// separating lines, with shaded checkering, or bare.
#[derive(Clone, Copy, PartialEq, Eq, Structural, Debug)]
pub enum GridStyle {
    Lines,
    Shaded,
    Plain,
}

/// The next display style in the cycle the style key walks through.
pub open spec fn spec_next_style(s: GridStyle) -> GridStyle {
    match s {
        GridStyle::Lines => GridStyle::Shaded,
        GridStyle::Shaded => GridStyle::Plain,
        GridStyle::Plain => GridStyle::Lines,
    }
}

/// Mathematical model of the whole controller state.
#[verifier::ext_equal]
pub ghost struct CtrlView {
    pub grid: GridView,
    pub snapshot: Seq<bool>,
    pub interval_ms: int,
    pub elapsed_ms: int,
    pub drawing: bool,
    pub paused: bool,
    pub style: GridStyle,
}

impl CtrlView {
    pub open spec fn wf(self) -> bool {
        &&& self.grid.wf()
        &&& self.snapshot.len() == self.grid.cells.len()
        &&& 0 <= self.interval_ms <= MAX_INTERVAL_MS
        &&& 0 <= self.elapsed_ms <= u64::MAX
    }
}

/// Entering drawing mode keeps the cells; leaving it saves them as the
/// reset snapshot.
pub open spec fn spec_toggle_drawing(v: CtrlView) -> CtrlView {
    if v.drawing {
        CtrlView { drawing: false, snapshot: v.grid.cells, ..v }
    } else {
        CtrlView { drawing: true, ..v }
    }
}

/// Flips one cell, but only in drawing mode and only in bounds; any other
/// request leaves the state untouched.
pub open spec fn spec_toggle_cell(v: CtrlView, row: int, col: int) -> CtrlView {
    if v.drawing && 0 <= row < v.grid.rows && 0 <= col < v.grid.cols {
        CtrlView {
            grid: GridView {
                cells: v.grid.cells.update(row * v.grid.cols + col, !v.grid.alive(row, col)),
                ..v.grid
            },
            ..v
        }
    } else {
        v
    }
}

pub open spec fn clamp_interval(t: int) -> int {
    if t < 0 {
        0
    } else if t > MAX_INTERVAL_MS {
        MAX_INTERVAL_MS as int
    } else {
        t
    }
}

/// Moves the step interval by `delta` and clamps it to the allowed range.
pub open spec fn spec_adjust_interval(v: CtrlView, delta: int) -> CtrlView {
    CtrlView { interval_ms: clamp_interval(v.interval_ms + delta), ..v }
}

/// Restores the cells from the reset snapshot and clears the accumulator.
pub open spec fn spec_reset(v: CtrlView) -> CtrlView {
    CtrlView { grid: GridView { cells: v.snapshot, ..v.grid }, elapsed_ms: 0, ..v }
}

/// Pausing is only reachable outside drawing mode.
pub open spec fn spec_toggle_pause(v: CtrlView) -> CtrlView {
    if !v.drawing {
        CtrlView { paused: !v.paused, ..v }
    } else {
        v
    }
}

/// A single generation, allowed only while paused.
pub open spec fn spec_step_once(v: CtrlView) -> CtrlView {
    if v.paused {
        CtrlView { grid: step_view(v.grid), ..v }
    } else {
        v
    }
}

/// Resizes the grid and the snapshot in parallel; a zero dimension is a
/// no-op.
pub open spec fn spec_resize(v: CtrlView, new_rows: nat, new_cols: nat) -> CtrlView {
    if new_rows < 1 || new_cols < 1 {
        v
    } else {
        CtrlView {
            grid: resize_view(v.grid, new_rows, new_cols),
            snapshot: resize_cells(
                grid_of(v.grid.rows, v.grid.cols, v.snapshot),
                new_rows,
                new_cols,
            ),
            ..v
        }
    }
}

/// The accumulator after a frame of `delta` milliseconds, capped at the
/// machine maximum.
pub open spec fn spec_accumulated(v: CtrlView, delta: int) -> int {
    if v.elapsed_ms + delta > u64::MAX {
        u64::MAX as int
    } else {
        v.elapsed_ms + delta
    }
}

/// Whether a frame of `delta` milliseconds triggers a generation: never in
/// drawing mode or while paused, and otherwise exactly when the accumulator
/// reaches the step interval.
pub open spec fn spec_tick_steps(v: CtrlView, delta: int) -> bool {
    !v.drawing && !v.paused && spec_accumulated(v, delta) >= v.interval_ms
}

/// One frame: the accumulator grows by the frame time; when it reaches the
/// step interval (outside drawing mode and pause) one generation runs and
/// the accumulator returns to zero, discarding any overshoot.
pub open spec fn spec_tick(v: CtrlView, delta: int) -> CtrlView {
    if spec_tick_steps(v, delta) {
        CtrlView { elapsed_ms: 0, grid: step_view(v.grid), ..v }
    } else {
        CtrlView { elapsed_ms: spec_accumulated(v, delta), ..v }
    }
}

/// Cycles the grid display style; valid in any state.
pub open spec fn spec_toggle_style(v: CtrlView) -> CtrlView {
    CtrlView { style: spec_next_style(v.style), ..v }
}

/// Marks the pattern's cells alive, but only in drawing mode.
pub open spec fn spec_load_pattern(v: CtrlView, text: Seq<u8>) -> CtrlView {
    if v.drawing {
        CtrlView { grid: apply_points_view(v.grid, pattern_points(split_lines(text))), ..v }
    } else {
        v
    }
}

/// The state the controller starts in: a default-sized grid holding only
/// the glider, the same cells saved as the snapshot, the default interval,
/// and both modes off.
pub open spec fn initial_view() -> CtrlView {
    let g = apply_points_view(
        grid_of(
            DEFAULT_SIDE as nat,
            DEFAULT_SIDE as nat,
            all_dead((DEFAULT_SIDE * DEFAULT_SIDE) as nat),
        ),
        glider_points(),
    );
    CtrlView {
        grid: g,
        snapshot: g.cells,
        interval_ms: DEFAULT_INTERVAL_MS as int,
        elapsed_ms: 0,
        drawing: false,
        paused: false,
        style: GridStyle::Lines,
    }
}

/// Entering drawing mode and leaving it again without any edit keeps the
/// grid exactly as it was; the only change of state is that those cells are
/// now also recorded as the reset snapshot.
pub proof fn lemma_drawing_round_trip(v: CtrlView)
    requires
        !v.drawing,
    ensures
        spec_toggle_drawing(spec_toggle_drawing(v)) == (CtrlView { snapshot: v.grid.cells, ..v }),
{
}

/// The interaction controller.
pub struct Controller {
    grid: Grid,
    snapshot: Vec<bool>,
    interval_ms: u64,
    elapsed_ms: u64,
    drawing: bool,
    paused: bool,
    style: GridStyle,
}

impl View for Controller {
    type V = CtrlView;

    closed spec fn view(&self) -> CtrlView {
        CtrlView {
            grid: self.grid@,
            snapshot: self.snapshot@,
            interval_ms: self.interval_ms as int,
            elapsed_ms: self.elapsed_ms as int,
            drawing: self.drawing,
            paused: self.paused,
            style: self.style,
        }
    }
}

impl Controller {
    /// The controller's internal invariant.
    pub closed spec fn wf(self) -> bool {
        &&& self.grid.wf()
        &&& self@.wf()
    }

    /// Starts the simulation in its default configuration.
    pub fn new() -> (c: Controller)
        ensures
            c.wf(),
            c@ == initial_view(),
    {
        let mut grid = Grid::new(DEFAULT_SIDE, DEFAULT_SIDE);
        let pts = glider_pattern();
        grid.apply_points(&pts);
        let snapshot = grid.cells_copy();
        let c = Controller {
            grid,
            snapshot,
            interval_ms: DEFAULT_INTERVAL_MS,
            elapsed_ms: 0,
            drawing: false,
            paused: false,
            style: GridStyle::Lines,
        };
        proof {
            assert(c@ =~= initial_view());
        }
        c
    }

    pub fn rows(&self) -> (r: usize)
        ensures
            r == self@.grid.rows,
    {
        self.grid.rows()
    }

    pub fn cols(&self) -> (c: usize)
        ensures
            c == self@.grid.cols,
    {
        self.grid.cols()
    }

    /// Render query: whether the cell at `(row, col)` is alive.
    pub fn is_alive(&self, row: usize, col: usize) -> (alive: bool)
        requires
            self.wf(),
            row < self@.grid.rows,
            col < self@.grid.cols,
        ensures
            alive == self@.grid.alive(row as int, col as int),
    {
        self.grid.get(row, col)
    }

    pub fn drawing_mode(&self) -> (d: bool)
        ensures
            d == self@.drawing,
    {
        self.drawing
    }

    pub fn is_paused(&self) -> (p: bool)
        ensures
            p == self@.paused,
    {
        self.paused
    }

    pub fn step_interval_ms(&self) -> (t: u64)
        ensures
            t == self@.interval_ms,
    {
        self.interval_ms
    }

    pub fn elapsed_ms(&self) -> (t: u64)
        ensures
            t == self@.elapsed_ms,
    {
        self.elapsed_ms
    }

    pub fn grid_style(&self) -> (s: GridStyle)
        ensures
            s == self@.style,
    {
        self.style
    }

    /// Cycles the grid display style; valid in any state.
    pub fn toggle_grid_style(&mut self)
        requires
            old(self).wf(),
        ensures
            final(self).wf(),
            final(self)@ == spec_toggle_style(old(self)@),
    {
        self.style = match self.style {
            GridStyle::Lines => GridStyle::Shaded,
            GridStyle::Shaded => GridStyle::Plain,
            GridStyle::Plain => GridStyle::Lines,
        };
        proof {
            assert(self@ =~= spec_toggle_style(old(self)@));
        }
    }

    /// Switches between running and drawing mode.  Cells are kept on entry;
    /// on exit they become the reset snapshot.
    pub fn toggle_drawing_mode(&mut self)
        requires
            old(self).wf(),
        ensures
            final(self).wf(),
            final(self)@ == spec_toggle_drawing(old(self)@),
    {
        if self.drawing {
            self.snapshot = self.grid.cells_copy();
            self.drawing = false;
        } else {
            self.drawing = true;
        }
        proof {
            assert(self@ =~= spec_toggle_drawing(old(self)@));
        }
    }

    /// Flips one cell while in drawing mode; out-of-bounds coordinates and
    /// requests outside drawing mode are silently ignored.
    pub fn toggle_cell(&mut self, row: usize, col: usize)
        requires
            old(self).wf(),
        ensures
            final(self).wf(),
            final(self)@ == spec_toggle_cell(old(self)@, row as int, col as int),
    {
        if self.drawing && row < self.grid.rows() && col < self.grid.cols() {
            self.grid.toggle(row, col);
            proof {
                crate::grid::lemma_index_bound(
                    row as int,
                    col as int,
                    old(self)@.grid.rows as int,
                    old(self)@.grid.cols as int,
                );
            }
        }
        proof {
            assert(self@ =~= spec_toggle_cell(old(self)@, row as int, col as int));
        }
    }

    /// Moves the step interval by `delta_ms` milliseconds, clamped to
    /// `[0, MAX_INTERVAL_MS]`.
    pub fn adjust_step_interval(&mut self, delta_ms: i64)
        requires
            old(self).wf(),
        ensures
            final(self).wf(),
            final(self)@ == spec_adjust_interval(old(self)@, delta_ms as int),
    {
        let t: i128 = self.interval_ms as i128 + delta_ms as i128;
        let nv: u64 = if t < 0 {
            0
        } else if t > MAX_INTERVAL_MS as i128 {
            MAX_INTERVAL_MS
        } else {
            t as u64
        };
        self.interval_ms = nv;
        proof {
            assert(self@ =~= spec_adjust_interval(old(self)@, delta_ms as int));
        }
    }

    /// Restores the cells from the reset snapshot and clears the elapsed
    /// time accumulator.
    pub fn reset(&mut self)
        requires
            old(self).wf(),
        ensures
            final(self).wf(),
            final(self)@ == spec_reset(old(self)@),
    {
        self.grid.load_cells(&self.snapshot);
        self.elapsed_ms = 0;
        proof {
            assert(self@ =~= spec_reset(old(self)@));
        }
    }

    /// Halts or resumes automatic stepping; ignored while drawing.
    pub fn toggle_pause(&mut self)
        requires
            old(self).wf(),
        ensures
            final(self).wf(),
            final(self)@ == spec_toggle_pause(old(self)@),
    {
        if !self.drawing {
            self.paused = !self.paused;
        }
        proof {
            assert(self@ =~= spec_toggle_pause(old(self)@));
        }
    }

    /// Advances exactly one generation, allowed only while paused.
    pub fn step_once(&mut self)
        requires
            old(self).wf(),
        ensures
            final(self).wf(),
            final(self)@ == spec_step_once(old(self)@),
    {
        if self.paused {
            self.grid.step();
        }
        proof {
            assert(self@ =~= spec_step_once(old(self)@));
        }
    }

    /// Resizes the grid and the reset snapshot in parallel; a request with
    /// a zero dimension is silently ignored.
    pub fn resize(&mut self, new_rows: usize, new_cols: usize)
        requires
            old(self).wf(),
            new_rows * new_cols <= usize::MAX,
        ensures
            final(self).wf(),
            final(self)@ == spec_resize(old(self)@, new_rows as nat, new_cols as nat),
    {
        if new_rows >= 1 && new_cols >= 1 {
            let old_rows = self.grid.rows();
            let old_cols = self.grid.cols();
            // Reading the length gives the prover the machine bound on
            // `old_rows * old_cols` that `resize_buffer` asks for.
            let snap_len = self.snapshot.len();
            proof {
                assert(old_rows * old_cols == snap_len);
            }
            let new_snapshot = crate::resize::resize_buffer(
                &self.snapshot,
                old_rows,
                old_cols,
                new_rows,
                new_cols,
            );
            self.snapshot = new_snapshot;
            self.grid.resize(new_rows, new_cols);
        }
        proof {
            assert(self@ =~= spec_resize(old(self)@, new_rows as nat, new_cols as nat));
        }
    }

    /// The resize event a held grow key fires: one more row and one more
    /// column.  A target too large for the machine is silently ignored.
    pub fn grow(&mut self)
        requires
            old(self).wf(),
        ensures
            final(self).wf(),
            (old(self)@.grid.rows + 1) * (old(self)@.grid.cols + 1) <= usize::MAX ==> final(self)@
                == spec_resize(
                old(self)@,
                (old(self)@.grid.rows + 1) as nat,
                (old(self)@.grid.cols + 1) as nat,
            ),
            (old(self)@.grid.rows + 1) * (old(self)@.grid.cols + 1) > usize::MAX ==> final(self)@
                == old(self)@,
    {
        let rows = self.grid.rows();
        let cols = self.grid.cols();
        if rows == usize::MAX || cols == usize::MAX {
            proof {
                assert((rows + 1) * (cols + 1) > usize::MAX) by (nonlinear_arith)
                    requires
                        rows == usize::MAX || cols == usize::MAX,
                        rows >= 1,
                        cols >= 1,
                ;
            }
            return ;
        }
        proof {
            assert((rows + 1) * (cols + 1) <= u128::MAX) by (nonlinear_arith)
                requires
                    rows < usize::MAX,
                    cols < usize::MAX,
            ;
        }
        let fits = (rows as u128 + 1) * (cols as u128 + 1) <= usize::MAX as u128;
        if fits {
            self.resize(rows + 1, cols + 1);
        }
    }

    /// The resize event a held shrink key fires: one row and one column
    /// fewer.  Shrinking away the last row or column is the invalid-target
    /// no-op.
    pub fn shrink(&mut self)
        requires
            old(self).wf(),
        ensures
            final(self).wf(),
            final(self)@ == spec_resize(
                old(self)@,
                (old(self)@.grid.rows - 1) as nat,
                (old(self)@.grid.cols - 1) as nat,
            ),
    {
        let rows = self.grid.rows();
        let cols = self.grid.cols();
        let n = self.snapshot.len();
        proof {
            assert(rows * cols == n);
            assert((rows - 1) * (cols - 1) <= n) by (nonlinear_arith)
                requires
                    rows >= 1,
                    cols >= 1,
                    rows * cols == n,
            ;
        }
        self.resize(rows - 1, cols - 1);
    }

    /// One frame of `delta_ms` milliseconds.  Returns whether a generation
    /// was stepped.
    pub fn tick(&mut self, delta_ms: u64) -> (stepped: bool)
        requires
            old(self).wf(),
        ensures
            final(self).wf(),
            final(self)@ == spec_tick(old(self)@, delta_ms as int),
            stepped == spec_tick_steps(old(self)@, delta_ms as int),
    {
        let acc: u64 = if self.elapsed_ms > u64::MAX - delta_ms {
            u64::MAX
        } else {
            self.elapsed_ms + delta_ms
        };
        let stepped = if self.drawing || self.paused || acc < self.interval_ms {
            self.elapsed_ms = acc;
            false
        } else {
            self.elapsed_ms = 0;
            self.grid.step();
            true
        };
        proof {
            assert(self@ =~= spec_tick(old(self)@, delta_ms as int));
        }
        stepped
    }

    /// Parses a pattern text and, while in drawing mode, marks its cells
    /// alive.  Returns the indices of the malformed lines so the caller can
    /// warn about them; outside drawing mode nothing else happens.
    pub fn load_pattern(&mut self, text: &Vec<u8>) -> (malformed: Vec<usize>)
        requires
            old(self).wf(),
        ensures
            final(self).wf(),
            final(self)@ == spec_load_pattern(old(self)@, text@),
            malformed@ == malformed_indices(split_lines(text@)),
    {
        let parsed = parse_pattern(text);
        if self.drawing {
            self.grid.apply_points(&parsed.points);
        }
        proof {
            assert(self@ =~= spec_load_pattern(old(self)@, text@));
        }
        parsed.malformed
    }
}

} // verus!
