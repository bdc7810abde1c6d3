use convay::grid::Grid;

fn alive_cells(g: &Grid) -> Vec<(usize, usize)> {
    let mut out = Vec::new();
    for r in 0..g.rows() {
        for c in 0..g.cols() {
            if g.get(r, c) {
                out.push((r, c));
            }
        }
    }
    out
}

#[test]
fn new_grid_is_all_dead() {
    let g = Grid::new(3, 4);
    assert_eq!(g.rows(), 3);
    assert_eq!(g.cols(), 4);
    assert!(alive_cells(&g).is_empty());
}

#[test]
fn size_reports_both_dimensions() {
    let g = Grid::new(5, 7);
    assert_eq!(g.size(), (5, 7));
}

#[test]
fn set_get_and_toggle() {
    let mut g = Grid::new(4, 4);
    g.set(1, 2, true);
    assert!(g.get(1, 2));
    assert!(!g.get(2, 1));
    g.toggle(1, 2);
    assert!(!g.get(1, 2));
    g.toggle(3, 0);
    assert!(g.get(3, 0));
    assert_eq!(alive_cells(&g), vec![(3, 0)]);
}

#[test]
fn cells_copy_and_load_round_trip() {
    let mut g = Grid::new(3, 3);
    g.set(0, 1, true);
    g.set(2, 2, true);
    let saved = g.cells_copy();
    g.set(0, 1, false);
    g.set(1, 1, true);
    g.load_cells(&saved);
    assert_eq!(alive_cells(&g), vec![(0, 1), (2, 2)]);
}

#[test]
fn resize_zero_dimension_is_noop() {
    let mut g = Grid::new(3, 3);
    g.set(1, 1, true);
    g.resize(0, 7);
    assert_eq!(g.rows(), 3);
    assert_eq!(g.cols(), 3);
    assert_eq!(alive_cells(&g), vec![(1, 1)]);
    g.resize(7, 0);
    assert_eq!(g.rows(), 3);
    assert_eq!(g.cols(), 3);
    assert_eq!(alive_cells(&g), vec![(1, 1)]);
}

#[test]
fn resize_round_trip_restores_overlap() {
    let mut g = Grid::new(5, 5);
    g.set(0, 0, true);
    g.set(2, 4, true);
    g.set(2, 3, true);
    g.set(4, 4, true);
    g.resize(3, 7);
    assert_eq!(g.rows(), 3);
    assert_eq!(g.cols(), 7);
    g.resize(5, 5);
    // Everything with row < min(5,3) and col < min(5,7) is restored.
    assert!(g.get(0, 0));
    assert!(g.get(2, 4));
    assert!(g.get(2, 3));
    // The cell outside the overlap was dropped by the shrink.
    assert!(!g.get(4, 4));
}

#[test]
fn resize_grow_starts_dead() {
    let mut g = Grid::new(2, 2);
    g.set(1, 1, true);
    g.resize(4, 4);
    assert_eq!(alive_cells(&g), vec![(1, 1)]);
}

#[test]
fn apply_points_ignores_out_of_bounds() {
    let mut g = Grid::new(3, 3);
    // Points are (column, row); the last two lie outside the grid.
    let pts = vec![(2usize, 0usize), (3, 0), (0, 3)];
    g.apply_points(&pts);
    assert_eq!(alive_cells(&g), vec![(0, 2)]);
}

#[test]
fn apply_points_never_clears() {
    let mut g = Grid::new(3, 3);
    g.set(1, 1, true);
    let pts = vec![(1usize, 1usize), (0, 0)];
    g.apply_points(&pts);
    assert_eq!(alive_cells(&g), vec![(0, 0), (1, 1)]);
}
